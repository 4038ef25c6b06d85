//! The text a member gets back after a role message.

use vstd::prelude::*;

use crate::reconcile::{names_view, over_limit_view, OverLimit, OverLimitView, ReconciliationResult};
use crate::text::{decimal, push_char, push_decimal};

verus! {

/// Usage help, for a message with neither a reset nor any intent.
pub const HELP_TEXT: &'static str = "You can add a role with `+role name` or remove a role with `-role name`.  Use `clear` or `reset` to remove all roles";

/// Confirmation of a reset.
pub const RESET_TEXT: &'static str = "Your roles have been reset.";

/// Reply when no role was added or removed.
pub const NO_CHANGES_TEXT: &'static str = "Couldn't modify your roles";

pub open spec fn quoted(name: Seq<char>) -> Seq<char> {
    seq!['`'] + name + seq!['`']
}

/// Names quoted in backticks and joined with `, `.
pub open spec fn code_list(names: Seq<Seq<char>>) -> Seq<char>
    decreases names.len(),
{
    if names.len() == 0 {
        seq![]
    } else if names.len() == 1 {
        quoted(names[0])
    } else {
        code_list(names.drop_last()) + seq![',', ' '] + quoted(names.last())
    }
}

/// One line per group that refused names: the names, the group and its limit.
pub open spec fn limit_lines(groups: Seq<OverLimitView>) -> Seq<char>
    decreases groups.len(),
{
    if groups.len() == 0 {
        seq![]
    } else {
        let g = groups.last();
        limit_lines(groups.drop_last()) + code_list(g.role_names) + seq![' ', '('] + g.group_name
            + " group has a limit of "@ + decimal(g.limit as nat) + " roles)"@ + seq!['\n']
    }
}

/// The report of a reconciliation that changed something.
pub open spec fn change_text(added: Seq<Seq<char>>, removed: Seq<Seq<char>>, over: Seq<OverLimitView>) -> Seq<char> {
    (if added.len() > 0 {
        "Added roles: "@ + code_list(added) + seq!['\n']
    } else {
        Seq::<char>::empty()
    }) + (if removed.len() > 0 {
        "Removed roles: "@ + code_list(removed) + seq!['\n']
    } else {
        Seq::<char>::empty()
    }) + (if over.len() > 0 {
        "Cannot add roles that exceed role group limits:"@ + seq!['\n'] + limit_lines(over)
    } else {
        Seq::<char>::empty()
    })
}

/// The reply to a reconciliation.
pub open spec fn result_text(r: ReconciliationResult) -> Seq<char> {
    if r.added@.len() == 0 && r.removed@.len() == 0 {
        NO_CHANGES_TEXT@
    } else {
        change_text(names_view(r.added@), names_view(r.removed@), over_limit_view(r.over_limit@))
    }
}

fn push_quoted(s: &mut String, name: &String)
    ensures
        final(s)@ == old(s)@ + quoted(name@),
{
    push_char(s, '`');
    s.append(name.as_str());
    push_char(s, '`');
    assert(s@ =~= old(s)@ + quoted(name@));
}

/// Appends the names quoted and joined with `, `.
pub fn push_code_list(s: &mut String, names: &Vec<String>)
    ensures
        final(s)@ == old(s)@ + code_list(names_view(names@)),
{
    let ghost nv = names_view(names@);
    let ghost start = s@;
    let mut i: usize = 0;
    while i < names.len()
        invariant
            i <= names.len(),
            nv == names_view(names@),
            s@ == start + code_list(nv.take(i as int)),
        decreases names.len() - i,
    {
        let ghost before = s@;
        assert(nv.take(i as int + 1).drop_last() =~= nv.take(i as int));
        if i > 0 {
            push_char(s, ',');
            push_char(s, ' ');
        }
        push_quoted(s, &names[i]);
        proof {
            if i == 0 {
                assert(code_list(nv.take(0)) =~= Seq::<char>::empty());
                assert(s@ =~= start + code_list(nv.take(1)));
            } else {
                assert(s@ =~= start + code_list(nv.take(i as int + 1)));
            }
        }
        i = i + 1;
    }
    assert(nv.take(names.len() as int) =~= nv);
}

fn push_limit_lines(s: &mut String, groups: &Vec<OverLimit>)
    ensures
        final(s)@ == old(s)@ + limit_lines(over_limit_view(groups@)),
{
    let ghost gv = over_limit_view(groups@);
    let ghost start = s@;
    let mut i: usize = 0;
    while i < groups.len()
        invariant
            i <= groups.len(),
            gv == over_limit_view(groups@),
            s@ == start + limit_lines(gv.take(i as int)),
        decreases groups.len() - i,
    {
        let g = &groups[i];
        assert(gv.take(i as int + 1).drop_last() =~= gv.take(i as int));
        assert(gv.take(i as int + 1).last() == g@);
        push_code_list(s, &g.role_names);
        push_char(s, ' ');
        push_char(s, '(');
        s.append(g.group_name.as_str());
        s.append(" group has a limit of ");
        push_decimal(s, g.limit);
        s.append(" roles)");
        push_char(s, '\n');
        assert(s@ =~= start + limit_lines(gv.take(i as int + 1)));
        i = i + 1;
    }
    assert(gv.take(groups.len() as int) =~= gv);
}

/// Renders a reconciliation: the added and removed roles as quoted lists,
/// then one line per group that refused roles, or the fixed "no changes"
/// reply when nothing was added or removed.
pub fn summary(r: &ReconciliationResult) -> (s: String)
    ensures
        s@ == result_text(*r),
{
    if r.added.len() == 0 && r.removed.len() == 0 {
        return NO_CHANGES_TEXT.to_owned();
    }
    let mut s = String::new();
    let ghost a = names_view(r.added@);
    let ghost d = names_view(r.removed@);
    let ghost o = over_limit_view(r.over_limit@);
    if r.added.len() > 0 {
        s.append("Added roles: ");
        push_code_list(&mut s, &r.added);
        push_char(&mut s, '\n');
    }
    let ghost s1 = s@;
    if r.removed.len() > 0 {
        s.append("Removed roles: ");
        push_code_list(&mut s, &r.removed);
        push_char(&mut s, '\n');
    }
    let ghost s2 = s@;
    if r.over_limit.len() > 0 {
        s.append("Cannot add roles that exceed role group limits:");
        push_char(&mut s, '\n');
        push_limit_lines(&mut s, &r.over_limit);
    }
    proof {
        if a.len() > 0 {
            assert(s1 =~= "Added roles: "@ + code_list(a) + seq!['\n']);
        } else {
            assert(s1 =~= Seq::<char>::empty());
        }
        if d.len() > 0 {
            assert(s2 =~= s1 + ("Removed roles: "@ + code_list(d) + seq!['\n']));
        } else {
            assert(s2 =~= s1 + Seq::<char>::empty());
        }
        if o.len() > 0 {
            assert(s@ =~= s2 + ("Cannot add roles that exceed role group limits:"@ + seq!['\n'] + limit_lines(o)));
        } else {
            assert(s@ =~= s2 + Seq::<char>::empty());
        }
        assert(s@ =~= change_text(a, d, o));
    }
    s
}

} // verus!
