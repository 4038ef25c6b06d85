//! The role configuration a guild stores: groups of self-assignable roles,
//! each group with a limit and an ordered list of role choices.

use vstd::prelude::*;

use crate::reply::code_list;
use crate::text::{decimal, push_char, push_decimal};

verus! {

/// One role choice as configured or as held in a catalog.
pub struct DefinitionView {
    pub name: Seq<char>,
    pub primary_id: u64,
    pub secondary_id: Option<u64>,
}

/// One configured group of role choices.
pub struct GroupView {
    pub name: Seq<char>,
    pub limit: u64,
    pub roles: Seq<DefinitionView>,
}

/// A configured role choice.
pub struct GuildRole {
    /// Name of the role, what members type to pick it.
    pub name: String,
    /// Main role id, highest in priority.
    pub primary_id: u64,
    /// Alternate role id, lower in priority than every primary role.
    pub secondary_id: Option<u64>,
}

/// A configured group of role choices.
pub struct GuildGroup {
    pub name: String,
    /// How many choices of this group a member may hold at once.
    pub limit: u64,
    pub roles: Vec<GuildRole>,
}

/// A guild's whole role configuration.
pub struct GuildRoles {
    pub groups: Vec<GuildGroup>,
}

impl View for GuildRole {
    type V = DefinitionView;

    open spec fn view(&self) -> DefinitionView {
        DefinitionView { name: self.name@, primary_id: self.primary_id, secondary_id: self.secondary_id }
    }
}

impl View for GuildGroup {
    type V = GroupView;

    open spec fn view(&self) -> GroupView {
        GroupView { name: self.name@, limit: self.limit, roles: self.roles@.map_values(|r: GuildRole| r@) }
    }
}

impl View for GuildRoles {
    type V = Seq<GroupView>;

    open spec fn view(&self) -> Seq<GroupView> {
        self.groups@.map_values(|g: GuildGroup| g@)
    }
}

impl Clone for GuildRole {
    fn clone(&self) -> (r: Self)
        ensures
            r == *self,
    {
        GuildRole { name: self.name.clone(), primary_id: self.primary_id, secondary_id: self.secondary_id }
    }
}

/// The configured role names in order, group after group.
pub open spec fn role_names(groups: Seq<GroupView>) -> Seq<Seq<char>>
    decreases groups.len(),
{
    if groups.len() == 0 {
        seq![]
    } else {
        role_names(groups.drop_last()) + groups.last().roles.map_values(|r: DefinitionView| r.name)
    }
}

/// A name quoted as a command that adds (`+`) or removes (`-`) it.
pub open spec fn command_code(sign: char, name: Seq<char>) -> Seq<char> {
    seq!['`', sign] + name + seq!['`']
}

/// The usage examples built from the first two configured role names.
pub open spec fn examples_text(a: Seq<char>, b: Seq<char>) -> Seq<char> {
    "Adding a single role: "@ + command_code('+', a) + seq!['\n']
        + "Removing a single role: "@ + command_code('-', a) + seq!['\n']
        + "Adding multiple roles: "@ + seq!['`', '+'] + a + seq![' ', '+'] + b + seq!['`', '\n']
        + "Adding and removing multiple roles "@ + seq!['`', '+'] + a + seq![' ', '-'] + b + seq!['`']
}

/// The lines describing one group: its name, its limit when there is one,
/// and its role names.
pub open spec fn group_block(g: GroupView) -> Seq<char> {
    "> **"@ + g.name + "**"@ + seq!['\n'] + (if g.limit > 0 {
        "> Limit: `"@ + decimal(g.limit as nat) + seq!['`', '\n']
    } else {
        Seq::<char>::empty()
    }) + "> Roles: "@ + code_list(g.roles.map_values(|r: DefinitionView| r.name)) + seq!['\n']
}

/// The listing of a configuration: a title, then each group's block, with
/// a blank line between two groups.
pub open spec fn listing(groups: Seq<GroupView>) -> Seq<char>
    decreases groups.len(),
{
    if groups.len() == 0 {
        "**Role Groups**"@ + seq!['\n']
    } else {
        listing(groups.drop_last()) + (if groups.len() > 1 {
            seq!['\n']
        } else {
            Seq::<char>::empty()
        }) + group_block(groups.last())
    }
}

/// `slot` holds the name at position `i` of `names`, or nothing when there
/// is no such position.
spec fn slot_holds(slot: Option<&String>, names: Seq<Seq<char>>, i: int) -> bool {
    if i < names.len() {
        slot is Some && slot.unwrap()@ == names[i]
    } else {
        slot is None
    }
}

impl GuildRoles {
    /// A listing of every group with its limit and role names.
    pub fn display_text(&self) -> (r: String)
        ensures
            r@ == listing(self@),
    {
        let mut s = String::new();
        s.append("**Role Groups**");
        push_char(&mut s, '\n');
        let mut g: usize = 0;
        while g < self.groups.len()
            invariant
                g <= self.groups.len(),
                s@ == listing(self@.take(g as int)),
            decreases self.groups.len() - g,
        {
            assert(self@.take(g as int + 1).drop_last() =~= self@.take(g as int));
            if g > 0 {
                push_char(&mut s, '\n');
            }
            push_group_block(&mut s, &self.groups[g]);
            assert(s@ =~= listing(self@.take(g as int + 1)));
            g = g + 1;
        }
        assert(self@.take(self.groups.len() as int) =~= self@);
        s
    }

    /// Usage examples naming the first two configured roles, or the empty
    /// string when fewer than two roles are configured.
    pub fn get_examples_string(&self) -> (r: String)
        ensures
            role_names(self@).len() < 2 ==> r@ == Seq::<char>::empty(),
            role_names(self@).len() >= 2 ==> r@ == examples_text(role_names(self@)[0], role_names(self@)[1]),
    {
        let mut first: Option<&String> = None;
        let mut second: Option<&String> = None;
        let mut g: usize = 0;
        while g < self.groups.len()
            invariant
                0 <= g <= self.groups.len(),
                slot_holds(first, role_names(self@.take(g as int)), 0),
                slot_holds(second, role_names(self@.take(g as int)), 1),
            decreases self.groups.len() - g,
        {
            let roles = &self.groups[g].roles;
            let ghost before = role_names(self@.take(g as int));
            let mut k: usize = 0;
            while k < roles.len()
                invariant
                    0 <= k <= roles.len(),
                    roles == self.groups@[g as int].roles,
                    slot_holds(first, before + roles@.take(k as int).map_values(|r: GuildRole| r.name@), 0),
                    slot_holds(second, before + roles@.take(k as int).map_values(|r: GuildRole| r.name@), 1),
                decreases roles.len() - k,
            {
                let ghost names = before + roles@.take(k as int).map_values(|r: GuildRole| r.name@);
                let ghost next = before + roles@.take(k as int + 1).map_values(|r: GuildRole| r.name@);
                assert(next =~= names.push(roles@[k as int].name@));
                if first.is_none() {
                    first = Some(&roles[k].name);
                } else if second.is_none() {
                    second = Some(&roles[k].name);
                }
                k = k + 1;
            }
            proof {
                assert(self@.take(g as int + 1).drop_last() =~= self@.take(g as int));
                assert(roles@.take(roles.len() as int) =~= roles@);
                assert(roles@.map_values(|r: GuildRole| r.name@)
                    =~= self@.take(g as int + 1).last().roles.map_values(|r: DefinitionView| r.name));
            }
            g = g + 1;
        }
        assert(self@.take(self.groups.len() as int) =~= self@);
        let mut s = String::new();
        match (first, second) {
            (Some(a), Some(b)) => {
                s.append("Adding a single role: ");
                push_code(&mut s, '+', a.as_str());
                push_char(&mut s, '\n');
                s.append("Removing a single role: ");
                push_code(&mut s, '-', a.as_str());
                push_char(&mut s, '\n');
                s.append("Adding multiple roles: ");
                push_char(&mut s, '`');
                push_char(&mut s, '+');
                s.append(a.as_str());
                push_char(&mut s, ' ');
                push_char(&mut s, '+');
                s.append(b.as_str());
                push_char(&mut s, '`');
                push_char(&mut s, '\n');
                s.append("Adding and removing multiple roles ");
                push_char(&mut s, '`');
                push_char(&mut s, '+');
                s.append(a.as_str());
                push_char(&mut s, ' ');
                push_char(&mut s, '-');
                s.append(b.as_str());
                push_char(&mut s, '`');
                assert(s@ =~= examples_text(a@, b@));
            },
            _ => {},
        }
        s
    }
}

fn push_group_block(s: &mut String, group: &GuildGroup)
    ensures
        final(s)@ == old(s)@ + group_block(group@),
{
    s.append("> **");
    s.append(group.name.as_str());
    s.append("**");
    push_char(s, '\n');
    let ghost head = s@;
    if group.limit > 0 {
        s.append("> Limit: `");
        push_decimal(s, group.limit);
        push_char(s, '`');
        push_char(s, '\n');
    }
    let ghost mid = s@;
    s.append("> Roles: ");
    let ghost names = group@.roles.map_values(|r: DefinitionView| r.name);
    let ghost start = s@;
    let mut k: usize = 0;
    while k < group.roles.len()
        invariant
            k <= group.roles.len(),
            names == group@.roles.map_values(|r: DefinitionView| r.name),
            s@ == start + code_list(names.take(k as int)),
        decreases group.roles.len() - k,
    {
        assert(names.take(k as int + 1).drop_last() =~= names.take(k as int));
        assert(names[k as int] == group.roles@[k as int].name@);
        if k > 0 {
            push_char(s, ',');
            push_char(s, ' ');
        }
        push_char(s, '`');
        s.append(group.roles[k].name.as_str());
        push_char(s, '`');
        proof {
            if k == 0 {
                assert(code_list(names.take(0)) =~= Seq::<char>::empty());
            }
            assert(s@ =~= start + code_list(names.take(k as int + 1)));
        }
        k = k + 1;
    }
    assert(names.take(group.roles.len() as int) =~= names);
    push_char(s, '\n');
    proof {
        if group.limit > 0 {
            assert(mid =~= head + ("> Limit: `"@ + decimal(group.limit as nat) + seq!['`', '\n']));
        } else {
            assert(mid =~= head + Seq::<char>::empty());
        }
        assert(s@ =~= old(s)@ + group_block(group@));
    }
}

/// Appends `name` quoted as a command with the given sign.
fn push_code(s: &mut String, sign: char, name: &str)
    ensures
        final(s)@ == old(s)@ + command_code(sign, name@),
{
    push_char(s, '`');
    push_char(s, sign);
    s.append(name);
    push_char(s, '`');
    assert(s@ =~= old(s)@ + command_code(sign, name@));
}

} // verus!
