//! A guild's role catalog: its groups with their limits, and every role
//! choice keyed by its normalized name.

use vstd::prelude::*;

use crate::config::{DefinitionView, GroupView, GuildRoles};
use crate::text::{lower_of, lowercase, trim, trim_of};

verus! {

/// A role name as the catalog keys it: trimmed, then lower-cased.
pub open spec fn normalized(name: Seq<char>) -> Seq<char> {
    lower_of(trim_of(name))
}

/// A role choice of the catalog together with the position of its group.
pub struct EntryView {
    pub def: DefinitionView,
    pub group: nat,
}

/// A catalog: each group's name and limit, and the flat list of role
/// choices in configuration order.
pub struct CatalogView {
    pub groups: Seq<(Seq<char>, u64)>,
    pub entries: Seq<EntryView>,
}

/// A role choice: its normalized name and the one or two role ids it maps to.
#[derive(Debug)]
pub struct RoleDefinition {
    pub name: String,
    pub primary_id: u64,
    pub secondary_id: Option<u64>,
}

/// A group of the catalog; its role choices are the entries that point to it.
#[derive(Debug)]
pub struct RoleGroup {
    pub name: String,
    /// How many of the group's choices a member may hold at once.
    pub limit: u64,
}

/// A role choice together with the position of its group.
#[derive(Debug)]
pub struct CatalogEntry {
    pub definition: RoleDefinition,
    pub group: usize,
}

impl View for RoleDefinition {
    type V = DefinitionView;

    open spec fn view(&self) -> DefinitionView {
        DefinitionView { name: self.name@, primary_id: self.primary_id, secondary_id: self.secondary_id }
    }
}

impl Clone for RoleDefinition {
    fn clone(&self) -> (r: Self)
        ensures
            r == *self,
    {
        RoleDefinition { name: self.name.clone(), primary_id: self.primary_id, secondary_id: self.secondary_id }
    }
}

impl View for CatalogEntry {
    type V = EntryView;

    open spec fn view(&self) -> EntryView {
        EntryView { def: self.definition@, group: self.group as nat }
    }
}

/// Why a configuration does not make a catalog.
#[derive(Debug)]
pub enum CatalogError {
    /// Two role choices share this normalized name.
    DuplicateRoleName(String),
}

/// The catalog entry made from a configured role of the group at `g`.
pub open spec fn entry_of(d: DefinitionView, g: nat) -> EntryView {
    EntryView { def: DefinitionView { name: normalized(d.name), ..d }, group: g }
}

pub open spec fn group_entries(group: GroupView, g: nat) -> Seq<EntryView> {
    group.roles.map_values(|d: DefinitionView| entry_of(d, g))
}

/// The entries of a configuration, group after group.
pub open spec fn entries_of(groups: Seq<GroupView>) -> Seq<EntryView>
    decreases groups.len(),
{
    if groups.len() == 0 {
        seq![]
    } else {
        entries_of(groups.drop_last()) + group_entries(groups.last(), (groups.len() - 1) as nat)
    }
}

/// The catalog a configuration describes.
pub open spec fn catalog_of(groups: Seq<GroupView>) -> CatalogView {
    CatalogView {
        groups: groups.map_values(|g: GroupView| (g.name, g.limit)),
        entries: entries_of(groups),
    }
}

/// The role choices of group `g`, in catalog order.
pub open spec fn defs_in_group(entries: Seq<EntryView>, g: nat) -> Seq<DefinitionView>
    decreases entries.len(),
{
    if entries.len() == 0 {
        seq![]
    } else {
        defs_in_group(entries.drop_last(), g) + if entries.last().group == g {
            seq![entries.last().def]
        } else {
            Seq::<DefinitionView>::empty()
        }
    }
}

/// No two entries share a name.
pub open spec fn names_distinct(entries: Seq<EntryView>) -> bool {
    forall|i: int, j: int| 0 <= i < j < entries.len() ==> entries[i].def.name != entries[j].def.name
}

/// Every entry points to a group of the catalog.
pub open spec fn groups_in_range(c: CatalogView) -> bool {
    forall|i: int| 0 <= i < c.entries.len() ==> c.entries[i].group < c.groups.len()
}

/// Position of the first entry named `name`, or -1.
pub open spec fn find_entry(entries: Seq<EntryView>, name: Seq<char>) -> int
    decreases entries.len(),
{
    if entries.len() == 0 {
        -1
    } else if entries[0].def.name == name {
        0
    } else {
        let r = find_entry(entries.drop_first(), name);
        if r < 0 {
            -1
        } else {
            r + 1
        }
    }
}

pub proof fn lemma_find_entry(entries: Seq<EntryView>, name: Seq<char>)
    ensures
        -1 <= find_entry(entries, name) < entries.len(),
        find_entry(entries, name) >= 0 ==> entries[find_entry(entries, name)].def.name == name,
        forall|k: int| 0 <= k < entries.len() && (find_entry(entries, name) < 0 || k < find_entry(entries, name))
            ==> entries[k].def.name != name,
    decreases entries.len(),
{
    if entries.len() > 0 && entries[0].def.name != name {
        lemma_find_entry(entries.drop_first(), name);
        assert forall|k: int| 0 <= k < entries.len() && (find_entry(entries, name) < 0 || k < find_entry(entries, name))
            implies entries[k].def.name != name by {
            if k > 0 {
                assert(entries[k] == entries.drop_first()[k - 1]);
            }
        }
    }
}

/// A guild's role catalog. Role names are unique across the whole catalog.
pub struct RoleCatalog {
    groups: Vec<RoleGroup>,
    entries: Vec<CatalogEntry>,
}

impl View for RoleCatalog {
    type V = CatalogView;

    closed spec fn view(&self) -> CatalogView {
        CatalogView {
            groups: self.groups@.map_values(|g: RoleGroup| (g.name@, g.limit)),
            entries: self.entries@.map_values(|e: CatalogEntry| e@),
        }
    }
}

impl RoleCatalog {
    #[verifier::type_invariant]
    spec fn well_formed(&self) -> bool {
        &&& names_distinct(self@.entries)
        &&& groups_in_range(self@)
    }

    /// Builds the catalog of a configuration, normalizing every role name.
    /// Fails when two role choices, in one group or in two, end up with the
    /// same normalized name.
    pub fn new(config: &GuildRoles) -> (r: Result<RoleCatalog, CatalogError>)
        ensures
            r is Ok <==> names_distinct(entries_of(config@)),
            r matches Ok(c) ==> c@ == catalog_of(config@),
            r matches Err(CatalogError::DuplicateRoleName(n)) ==> exists|i: int, j: int|
                0 <= i < j < entries_of(config@).len() && entries_of(config@)[i].def.name == n@
                    && entries_of(config@)[j].def.name == n@,
    {
        let ghost cfg = config@;
        let mut groups: Vec<RoleGroup> = Vec::new();
        let mut entries: Vec<CatalogEntry> = Vec::new();
        let mut g: usize = 0;
        while g < config.groups.len()
            invariant
                g <= config.groups.len(),
                cfg == config@,
                groups@.map_values(|x: RoleGroup| (x.name@, x.limit))
                    == cfg.take(g as int).map_values(|x: GroupView| (x.name, x.limit)),
                entries@.map_values(|e: CatalogEntry| e@) == entries_of(cfg.take(g as int)),
            decreases config.groups.len() - g,
        {
            let group = &config.groups[g];
            let ghost before = entries_of(cfg.take(g as int));
            let mut k: usize = 0;
            while k < group.roles.len()
                invariant
                    k <= group.roles.len(),
                    g < config.groups.len(),
                    cfg == config@,
                    group@ == cfg[g as int],
                    entries@.map_values(|e: CatalogEntry| e@)
                        == before + group_entries(cfg[g as int], g as nat).take(k as int),
                decreases group.roles.len() - k,
            {
                let role = &group.roles[k];
                let name = lowercase(trim(role.name.as_str()));
                let entry = CatalogEntry {
                    definition: RoleDefinition { name, primary_id: role.primary_id, secondary_id: role.secondary_id },
                    group: g,
                };
                proof {
                    assert(group@.roles[k as int] == role@);
                    assert(entry@ == entry_of(role@, g as nat));
                }
                let ghost old_view = entries@.map_values(|e: CatalogEntry| e@);
                entries.push(entry);
                assert(entries@.map_values(|e: CatalogEntry| e@) =~= old_view.push(entry_of(role@, g as nat)));
                assert(group_entries(cfg[g as int], g as nat).take(k as int + 1)
                    =~= group_entries(cfg[g as int], g as nat).take(k as int).push(entry_of(role@, g as nat)));
                k = k + 1;
            }
            let ghost old_groups = groups@.map_values(|x: RoleGroup| (x.name@, x.limit));
            groups.push(RoleGroup { name: group.name.clone(), limit: group.limit });
            proof {
                assert(groups@.map_values(|x: RoleGroup| (x.name@, x.limit)) =~= old_groups.push((group.name@, group.limit)));
                assert(cfg.take(g as int + 1).map_values(|x: GroupView| (x.name, x.limit))
                    =~= cfg.take(g as int).map_values(|x: GroupView| (x.name, x.limit)).push((group.name@, group.limit)));
                assert(cfg.take(g as int + 1).drop_last() =~= cfg.take(g as int));
                assert(group_entries(cfg[g as int], g as nat).take(group.roles.len() as int)
                    =~= group_entries(cfg[g as int], g as nat));
            }
            g = g + 1;
        }
        assert(cfg.take(config.groups.len() as int) =~= cfg);
        let ghost ev = entries@.map_values(|e: CatalogEntry| e@);
        proof {
            lemma_entry_groups(cfg);
        }
        let mut i: usize = 0;
        while i < entries.len()
            invariant
                i <= entries.len(),
                ev == entries@.map_values(|e: CatalogEntry| e@),
                ev == entries_of(cfg),
                cfg == config@,
                forall|p: int, q: int| 0 <= p < q < i ==> ev[p].def.name != ev[q].def.name,
            decreases entries.len() - i,
        {
            let mut j: usize = 0;
            while j < i
                invariant
                    j <= i < entries.len(),
                    ev == entries@.map_values(|e: CatalogEntry| e@),
                    ev == entries_of(cfg),
                    cfg == config@,
                cfg == config@,
                    forall|q: int| 0 <= q < j ==> ev[q].def.name != ev[i as int].def.name,
                decreases i - j,
            {
                if entries[j].definition.name == entries[i].definition.name {
                    assert(ev[j as int].def.name == ev[i as int].def.name);
                    return Err(CatalogError::DuplicateRoleName(entries[i].definition.name.clone()));
                }
                j = j + 1;
            }
            i = i + 1;
        }
        let c = RoleCatalog { groups, entries };
        assert(c@ =~= catalog_of(cfg));
        Ok(c)
    }

    /// The groups of the catalog, in configuration order.
    pub fn groups(&self) -> (r: &Vec<RoleGroup>)
        ensures
            r@.map_values(|g: RoleGroup| (g.name@, g.limit)) == self@.groups,
    {
        &self.groups
    }

    /// The role choices of the group at position `g`, in configuration order.
    pub fn group_definitions(&self, g: usize) -> (r: Vec<RoleDefinition>)
        ensures
            r@.map_values(|d: RoleDefinition| d@) == defs_in_group(self@.entries, g as nat),
    {
        let ghost ev = self@.entries;
        let mut r: Vec<RoleDefinition> = Vec::new();
        let mut i: usize = 0;
        while i < self.entries.len()
            invariant
                i <= self.entries.len(),
                ev == self@.entries,
                r@.map_values(|d: RoleDefinition| d@) == defs_in_group(ev.take(i as int), g as nat),
            decreases self.entries.len() - i,
        {
            assert(ev.take(i as int + 1).drop_last() =~= ev.take(i as int));
            let ghost before = r@.map_values(|d: RoleDefinition| d@);
            if self.entries[i].group == g {
                r.push(self.entries[i].definition.clone());
            }
            assert(r@.map_values(|d: RoleDefinition| d@) =~= defs_in_group(ev.take(i as int + 1), g as nat));
            i = i + 1;
        }
        assert(ev.take(self.entries.len() as int) =~= ev);
        r
    }

    /// The role choices of the catalog, in configuration order.
    pub fn entries(&self) -> (r: &Vec<CatalogEntry>)
        ensures
            r@.map_values(|e: CatalogEntry| e@) == self@.entries,
            groups_in_range(self@),
            names_distinct(self@.entries),
    {
        proof {
            use_type_invariant(self);
        }
        &self.entries
    }

    /// Position of the entry named `name`, if any.
    pub fn position(&self, name: &String) -> (r: Option<usize>)
        ensures
            find_entry(self@.entries, name@) == -1 ==> r is None,
            find_entry(self@.entries, name@) >= 0 ==> r == Some(find_entry(self@.entries, name@) as usize),
    {
        let ghost v = self@.entries;
        let mut j: usize = 0;
        while j < self.entries.len() && self.entries[j].definition.name != *name
            invariant
                j <= self.entries.len(),
                v == self@.entries,
                forall|k: int| 0 <= k < j ==> v[k].def.name != name@,
            decreases self.entries.len() - j,
        {
            j = j + 1;
        }
        proof {
            lemma_find_entry(v, name@);
            let f = find_entry(v, name@);
            if j < self.entries.len() {
                assert(v[j as int].def.name == name@);
            } else if f >= 0 {
                assert(v[f].def.name == name@);
            }
        }
        if j < self.entries.len() {
            Some(j)
        } else {
            None
        }
    }

    /// The role choice named `name`, with the name of its group.
    pub fn lookup(&self, name: &str) -> (r: Option<(RoleDefinition, String)>)
        ensures
            find_entry(self@.entries, name@) == -1 ==> r is None,
            find_entry(self@.entries, name@) >= 0 ==> (r matches Some((d, g))
                && d@ == self@.entries[find_entry(self@.entries, name@)].def
                && g@ == self@.groups[self@.entries[find_entry(self@.entries, name@)].group as int].0),
    {
        proof {
            use_type_invariant(self);
            lemma_find_entry(self@.entries, name@);
        }
        let key = name.to_owned();
        let found = self.position(&key);
        assert(self@.entries.len() == self.entries.len());
        match found {
            None => None,
            Some(i) => {
                let e = &self.entries[i];
                assert(e@ == self@.entries[i as int]);
                let d = e.definition.clone();
                let gname = self.groups[e.group].name.clone();
                Some((d, gname))
            },
        }
    }
}

/// Every entry of a configuration points to one of its groups.
proof fn lemma_entry_groups(groups: Seq<GroupView>)
    ensures
        forall|i: int| 0 <= i < entries_of(groups).len() ==> entries_of(groups)[i].group < groups.len(),
    decreases groups.len(),
{
    if groups.len() > 0 {
        lemma_entry_groups(groups.drop_last());
        let a = entries_of(groups.drop_last());
        let b = group_entries(groups.last(), (groups.len() - 1) as nat);
        assert forall|i: int| 0 <= i < entries_of(groups).len() implies entries_of(groups)[i].group < groups.len() by {
            if i >= a.len() {
                assert(entries_of(groups)[i] == b[i - a.len()]);
            }
        }
    }
}

} // verus!
