//! Applying deduplicated intents to a member's role ids against the
//! catalog's groups and limits.

use vstd::prelude::*;

use crate::catalog::{
    find_entry, lemma_find_entry, CatalogEntry, CatalogView, EntryView, RoleCatalog, RoleDefinition, RoleGroup,
};
use crate::command::{actions_view, ActionView, RoleAction, RoleActionKind};
use crate::config::DefinitionView;

verus! {

broadcast use vstd::seq_lib::lemma_seq_contains_after_push;

/// Whether a member holding `held` holds a role choice, by its primary or
/// its secondary id.
pub open spec fn holds_def(held: Set<u64>, d: DefinitionView) -> bool {
    held.contains(d.primary_id) || (d.secondary_id is Some && held.contains(d.secondary_id.unwrap()))
}

/// How many role choices of group `g` a member holding `held` holds.
pub open spec fn held_in_group(entries: Seq<EntryView>, g: nat, held: Set<u64>) -> nat
    decreases entries.len(),
{
    if entries.len() == 0 {
        0
    } else {
        held_in_group(entries.drop_last(), g, held) + if entries.last().group == g && holds_def(
            held,
            entries.last().def,
        ) {
            1nat
        } else {
            0nat
        }
    }
}

/// The ids a role choice maps to.
pub open spec fn def_ids(d: DefinitionView) -> Set<u64> {
    if d.secondary_id is Some {
        set![d.primary_id, d.secondary_id.unwrap()]
    } else {
        set![d.primary_id]
    }
}

/// Every id the catalog's role choices map to.
pub open spec fn tracked_ids(entries: Seq<EntryView>) -> Set<u64>
    decreases entries.len(),
{
    if entries.len() == 0 {
        Set::empty()
    } else {
        tracked_ids(entries.drop_last()).union(def_ids(entries.last().def))
    }
}

/// The state of a reconciliation: the ids held so far and the report.
pub struct ReconcileView {
    pub held: Set<u64>,
    pub added: Seq<Seq<char>>,
    pub removed: Seq<Seq<char>>,
    pub already_held: Seq<Seq<char>>,
    pub missing: Seq<Seq<char>>,
    /// Names refused for a full group, with the position of the group.
    pub rejected: Seq<(nat, Seq<char>)>,
}

pub open spec fn start(held: Set<u64>) -> ReconcileView {
    ReconcileView {
        held,
        added: seq![],
        removed: seq![],
        already_held: seq![],
        missing: seq![],
        rejected: seq![],
    }
}

/// The id an add gives: the primary one when the member holds nothing of
/// the group yet or there is no alternate, the secondary one otherwise.
pub open spec fn id_to_add(d: DefinitionView, in_group: nat) -> u64 {
    if in_group == 0 || d.secondary_id is None {
        d.primary_id
    } else {
        d.secondary_id.unwrap()
    }
}

/// One intent applied. Names the catalog does not know change nothing.
pub open spec fn step(c: CatalogView, st: ReconcileView, a: ActionView) -> ReconcileView {
    let i = find_entry(c.entries, a.name);
    if i < 0 {
        st
    } else {
        let e = c.entries[i];
        let d = e.def;
        let n = held_in_group(c.entries, e.group, st.held);
        if a.kind == RoleActionKind::Add {
            if holds_def(st.held, d) {
                ReconcileView { already_held: st.already_held.push(a.name), ..st }
            } else if n >= c.groups[e.group as int].1 {
                ReconcileView { rejected: st.rejected.push((e.group, a.name)), ..st }
            } else {
                ReconcileView { held: st.held.insert(id_to_add(d, n)), added: st.added.push(a.name), ..st }
            }
        } else {
            if !holds_def(st.held, d) {
                ReconcileView { missing: st.missing.push(a.name), ..st }
            } else {
                ReconcileView { held: st.held.difference(def_ids(d)), removed: st.removed.push(a.name), ..st }
            }
        }
    }
}

/// The intents applied in order.
pub open spec fn run(c: CatalogView, st: ReconcileView, acts: Seq<ActionView>) -> ReconcileView
    decreases acts.len(),
{
    if acts.len() == 0 {
        st
    } else {
        step(c, run(c, st, acts.drop_last()), acts.last())
    }
}

/// The names refused for group `g`, in order.
pub open spec fn rejected_in(rej: Seq<(nat, Seq<char>)>, g: nat) -> Seq<Seq<char>>
    decreases rej.len(),
{
    if rej.len() == 0 {
        seq![]
    } else {
        rejected_in(rej.drop_last(), g) + if rej.last().0 == g {
            seq![rej.last().1]
        } else {
            Seq::<Seq<char>>::empty()
        }
    }
}

/// What an [`OverLimit`] stands for.
pub struct OverLimitView {
    pub group_name: Seq<char>,
    pub limit: u64,
    pub role_names: Seq<Seq<char>>,
}

/// One report line per group among the first `n` that refused a name.
pub open spec fn over_limit_upto(groups: Seq<(Seq<char>, u64)>, rej: Seq<(nat, Seq<char>)>, n: nat) -> Seq<
    OverLimitView,
>
    decreases n,
{
    if n == 0 {
        seq![]
    } else {
        let prev = over_limit_upto(groups, rej, (n - 1) as nat);
        let names = rejected_in(rej, (n - 1) as nat);
        if names.len() == 0 {
            prev
        } else {
            prev.push(
                OverLimitView { group_name: groups[n - 1].0, limit: groups[n - 1].1, role_names: names },
            )
        }
    }
}

/// Removing a known role choice the member does not hold only reports it
/// as missing: the ids and every other part of the report stay as they were.
pub proof fn lemma_remove_unheld(c: CatalogView, held: Set<u64>, a: ActionView)
    requires
        a.kind == RoleActionKind::Remove,
        find_entry(c.entries, a.name) >= 0,
        !holds_def(held, c.entries[find_entry(c.entries, a.name)].def),
    ensures
        run(c, start(held), seq![a]) == (ReconcileView { missing: seq![a.name], ..start(held) }),
{
    assert(seq![a].drop_last() =~= Seq::<ActionView>::empty());
    assert(run(c, start(held), Seq::<ActionView>::empty()) == start(held));
    assert(seq![a].last() == a);
    assert(Seq::<Seq<char>>::empty().push(a.name) =~= seq![a.name]);
}

proof fn lemma_none_held(entries: Seq<EntryView>, g: nat)
    ensures
        held_in_group(entries, g, Set::empty()) == 0,
    decreases entries.len(),
{
    if entries.len() > 0 {
        lemma_none_held(entries.drop_last(), g);
    }
}

/// A member who holds no role ids and adds a known role choice whose group
/// allows at least one gets exactly the choice's primary id, whatever other
/// members hold.
pub proof fn lemma_first_add_gets_primary(c: CatalogView, a: ActionView)
    requires
        a.kind == RoleActionKind::Add,
        find_entry(c.entries, a.name) >= 0,
        c.entries[find_entry(c.entries, a.name)].group < c.groups.len(),
        c.groups[c.entries[find_entry(c.entries, a.name)].group as int].1 >= 1,
    ensures
        run(c, start(Set::empty()), seq![a]).held == set![c.entries[find_entry(c.entries, a.name)].def.primary_id],
        run(c, start(Set::empty()), seq![a]).added == seq![a.name],
{
    let e = c.entries[find_entry(c.entries, a.name)];
    lemma_none_held(c.entries, e.group);
    assert(seq![a].drop_last() =~= Seq::<ActionView>::empty());
    assert(run(c, start(Set::empty()), Seq::<ActionView>::empty()) == start(Set::<u64>::empty()));
    assert(seq![a].last() == a);
    assert(Set::<u64>::empty().insert(e.def.primary_id) =~= set![e.def.primary_id]);
    assert(Seq::<Seq<char>>::empty().push(a.name) =~= seq![a.name]);
}

/// The refusals grouped by catalog group, in catalog order.
pub open spec fn over_limit_of(c: CatalogView, rej: Seq<(nat, Seq<char>)>) -> Seq<OverLimitView> {
    over_limit_upto(c.groups, rej, c.groups.len())
}

/// Names refused because their group was full.
#[derive(Debug)]
pub struct OverLimit {
    pub group_name: String,
    pub limit: u64,
    pub role_names: Vec<String>,
}

impl View for OverLimit {
    type V = OverLimitView;

    open spec fn view(&self) -> OverLimitView {
        OverLimitView { group_name: self.group_name@, limit: self.limit, role_names: names_view(self.role_names@) }
    }
}

/// The outcome of applying a message's intents.
#[derive(Debug)]
pub struct ReconciliationResult {
    pub added: Vec<String>,
    pub removed: Vec<String>,
    /// Names asked for that the member already held.
    pub already_held: Vec<String>,
    /// Names asked to be removed that the member did not hold.
    pub missing: Vec<String>,
    pub over_limit: Vec<OverLimit>,
    /// Every role id the member ends up with, roles outside the catalog included.
    pub roles: Vec<u64>,
}

pub open spec fn names_view(s: Seq<String>) -> Seq<Seq<char>> {
    s.map_values(|x: String| x@)
}

pub open spec fn over_limit_view(s: Seq<OverLimit>) -> Seq<OverLimitView> {
    s.map_values(|x: OverLimit| x@)
}

pub open spec fn rejected_view(s: Seq<(usize, String)>) -> Seq<(nat, Seq<char>)> {
    s.map_values(|x: (usize, String)| (x.0 as nat, x.1@))
}

/// `r` is what applying `acts` to a member holding `held` gives: the report
/// of every intent, and the member's ids, left as they were when nothing was
/// added or removed.
pub open spec fn reconciled(c: CatalogView, held: Seq<u64>, acts: Seq<ActionView>, r: ReconciliationResult) -> bool {
    let fin = run(c, start(held.to_set()), acts);
    &&& names_view(r.added@) == fin.added
    &&& names_view(r.removed@) == fin.removed
    &&& names_view(r.already_held@) == fin.already_held
    &&& names_view(r.missing@) == fin.missing
    &&& over_limit_view(r.over_limit@) == over_limit_of(c, fin.rejected)
    &&& r.roles@.to_set() == fin.held
    &&& (fin.added.len() == 0 && fin.removed.len() == 0 ==> r.roles@ == held)
}

impl ReconciliationResult {
    /// Whether any role was added or removed.
    pub fn changed(&self) -> (r: bool)
        ensures
            r == (self.added@.len() > 0 || self.removed@.len() > 0),
    {
        self.added.len() > 0 || self.removed.len() > 0
    }
}

fn contains_id(v: &Vec<u64>, x: u64) -> (r: bool)
    ensures
        r == v@.contains(x),
{
    let mut i: usize = 0;
    while i < v.len()
        invariant
            i <= v.len(),
            forall|k: int| 0 <= k < i ==> v@[k] != x,
        decreases v.len() - i,
    {
        if v[i] == x {
            return true;
        }
        i = i + 1;
    }
    false
}

fn holds_definition(v: &Vec<u64>, d: &RoleDefinition) -> (r: bool)
    ensures
        r == holds_def(v@.to_set(), d@),
{
    if contains_id(v, d.primary_id) {
        return true;
    }
    match d.secondary_id {
        Some(s) => contains_id(v, s),
        None => false,
    }
}

fn count_in_group(entries: &Vec<CatalogEntry>, g: usize, v: &Vec<u64>) -> (r: usize)
    ensures
        r == held_in_group(entries@.map_values(|e: CatalogEntry| e@), g as nat, v@.to_set()),
{
    let ghost ev = entries@.map_values(|e: CatalogEntry| e@);
    let mut n: usize = 0;
    let mut i: usize = 0;
    while i < entries.len()
        invariant
            i <= entries.len(),
            ev == entries@.map_values(|e: CatalogEntry| e@),
            n == held_in_group(ev.take(i as int), g as nat, v@.to_set()),
            n <= i,
        decreases entries.len() - i,
    {
        assert(ev.take(i as int + 1).drop_last() =~= ev.take(i as int));
        if entries[i].group == g && holds_definition(v, &entries[i].definition) {
            n = n + 1;
        }
        i = i + 1;
    }
    assert(ev.take(entries.len() as int) =~= ev);
    n
}

/// Adds `x` unless it is already there.
fn insert_id(v: &mut Vec<u64>, x: u64)
    ensures
        final(v)@.to_set() == old(v)@.to_set().insert(x),
{
    if !contains_id(v, x) {
        v.push(x);
    }
    assert(v@.to_set() =~= old(v)@.to_set().insert(x)) by {
        assert forall|y: u64| v@.contains(y) <==> (old(v)@.contains(y) || y == x) by {
            if old(v)@.contains(y) {
                let k = choose|k: int| 0 <= k < old(v)@.len() && old(v)@[k] == y;
                assert(v@[k] == y);
            }
            if y == x && !old(v)@.contains(x) {
                assert(v@[v@.len() - 1] == x);
            }
        }
    }
}

/// The ids of `v` outside `d`'s ids, in their order.
fn without_ids(v: &Vec<u64>, d: &RoleDefinition) -> (r: Vec<u64>)
    ensures
        r@.to_set() == v@.to_set().difference(def_ids(d@)),
{
    let mut r: Vec<u64> = Vec::new();
    let mut i: usize = 0;
    while i < v.len()
        invariant
            i <= v.len(),
            r@.to_set() == v@.take(i as int).to_set().difference(def_ids(d@)),
        decreases v.len() - i,
    {
        let x = v[i];
        let keep = x != d.primary_id && match d.secondary_id {
            Some(s) => x != s,
            None => true,
        };
        let ghost before = r@;
        if keep {
            r.push(x);
        }
        proof {
            lemma_take_push_set(v@, i as int);
            assert(keep == !def_ids(d@).contains(x));
            if keep {
                assert(r@ == before.push(x));
            }
            let dd = def_ids(d@);
            assert forall|y: u64| #[trigger] r@.to_set().contains(y)
                == v@.take(i as int + 1).to_set().difference(dd).contains(y) by {
                assert(r@.to_set().contains(y) == r@.contains(y));
                assert(before.to_set().contains(y) == before.contains(y));
                assert(r@.contains(y) <==> (before.contains(y) || (keep && y == x)));
                assert(v@.take(i as int + 1).to_set().contains(y) == (v@.take(i as int).to_set().contains(y) || y == x));
            }
            assert(r@.to_set() =~= v@.take(i as int + 1).to_set().difference(dd));
        }
        i = i + 1;
    }
    assert(v@.take(v.len() as int) =~= v@);
    r
}

proof fn lemma_take_push_set(s: Seq<u64>, i: int)
    requires
        0 <= i < s.len(),
    ensures
        s.take(i + 1).to_set() == s.take(i).to_set().insert(s[i]),
{
    assert(s.take(i + 1) =~= s.take(i).push(s[i]));
    assert(s.take(i + 1).to_set() =~= s.take(i).to_set().insert(s[i]));
}

/// Applies intents in order to a member holding `held` and reports each one:
/// unknown names are skipped; an add of a held choice is reported as already
/// held, one into a full group as over the limit, any other gives the primary
/// id (the alternate one once the member holds something of the group); a
/// remove of a choice not held is reported as missing, any other drops both
/// of the choice's ids.
pub fn reconcile(catalog: &RoleCatalog, held: &Vec<u64>, actions: &Vec<RoleAction>) -> (r: ReconciliationResult)
    ensures
        reconciled(catalog@, held@, actions_view(actions@), r),
{
    let entries = catalog.entries();
    let groups = catalog.groups();
    let ghost c = catalog@;
    let ghost acts = actions_view(actions@);
    let ghost h0 = start(held@.to_set());
    let mut roles: Vec<u64> = held.clone();
    assert(roles@ =~= held@);
    let mut added: Vec<String> = Vec::new();
    let mut removed: Vec<String> = Vec::new();
    let mut already_held: Vec<String> = Vec::new();
    let mut missing: Vec<String> = Vec::new();
    let mut rejected: Vec<(usize, String)> = Vec::new();
    let mut i: usize = 0;
    while i < actions.len()
        invariant
            i <= actions.len(),
            c == catalog@,
            acts == actions_view(actions@),
            h0 == start(held@.to_set()),
            entries@.map_values(|e: CatalogEntry| e@) == c.entries,
            groups@.map_values(|g: RoleGroup| (g.name@, g.limit)) == c.groups,
            forall|k: int| 0 <= k < c.entries.len() ==> c.entries[k].group < c.groups.len(),
            roles@.to_set() == run(c, h0, acts.take(i as int)).held,
            names_view(added@) == run(c, h0, acts.take(i as int)).added,
            names_view(removed@) == run(c, h0, acts.take(i as int)).removed,
            names_view(already_held@) == run(c, h0, acts.take(i as int)).already_held,
            names_view(missing@) == run(c, h0, acts.take(i as int)).missing,
            rejected_view(rejected@) == run(c, h0, acts.take(i as int)).rejected,
            run(c, h0, acts.take(i as int)).added.len() == 0 && run(c, h0, acts.take(i as int)).removed.len() == 0
                ==> roles@ == held@,
        decreases actions.len() - i,
    {
        let a = &actions[i];
        let ghost st = run(c, h0, acts.take(i as int));
        proof {
            assert(acts.take(i as int + 1).drop_last() =~= acts.take(i as int));
            assert(acts.take(i as int + 1).last() == a@);
            lemma_find_entry(c.entries, a.role_name@);
            assert(c.entries.len() == entries.len());
        }
        match catalog.position(&a.role_name) {
            None => {},
            Some(k) => {
                let e = &entries[k];
                let d = &e.definition;
                assert(e@ == c.entries[k as int]);
                if a.kind == RoleActionKind::Add {
                    if holds_definition(&roles, d) {
                        already_held.push(a.role_name.clone());
                        assert(names_view(already_held@) =~= st.already_held.push(a.role_name@));
                    } else {
                        let n = count_in_group(entries, e.group, &roles);
                        let limit = groups[e.group].limit;
                        assert(groups@[e.group as int].limit == c.groups[e.group as int].1);
                        if n as u128 >= limit as u128 {
                            let ghost before = rejected@;
                            rejected.push((e.group, a.role_name.clone()));
                            assert(rejected_view(rejected@) =~= rejected_view(before).push((e.group as nat, a.role_name@)));
                        } else {
                            let id = match d.secondary_id {
                                Some(s) => if n == 0 {
                                    d.primary_id
                                } else {
                                    s
                                },
                                None => d.primary_id,
                            };
                            insert_id(&mut roles, id);
                            added.push(a.role_name.clone());
                            assert(names_view(added@) =~= st.added.push(a.role_name@));
                        }
                    }
                } else {
                    if !holds_definition(&roles, d) {
                        missing.push(a.role_name.clone());
                        assert(names_view(missing@) =~= st.missing.push(a.role_name@));
                    } else {
                        roles = without_ids(&roles, d);
                        removed.push(a.role_name.clone());
                        assert(names_view(removed@) =~= st.removed.push(a.role_name@));
                    }
                }
            },
        }
        assert(run(c, h0, acts.take(i as int + 1)) == step(c, st, a@));
        i = i + 1;
    }
    assert(acts.take(actions.len() as int) =~= acts);
    let over_limit = group_rejections(groups, &rejected);
    ReconciliationResult { added, removed, already_held, missing, over_limit, roles }
}

fn is_tracked(entries: &Vec<CatalogEntry>, x: u64) -> (r: bool)
    ensures
        r == tracked_ids(entries@.map_values(|e: CatalogEntry| e@)).contains(x),
{
    let ghost ev = entries@.map_values(|e: CatalogEntry| e@);
    let mut found = false;
    let mut i: usize = 0;
    while i < entries.len()
        invariant
            i <= entries.len(),
            ev == entries@.map_values(|e: CatalogEntry| e@),
            found == tracked_ids(ev.take(i as int)).contains(x),
        decreases entries.len() - i,
    {
        assert(ev.take(i as int + 1).drop_last() =~= ev.take(i as int));
        let d = &entries[i].definition;
        let hit = x == d.primary_id || match d.secondary_id {
            Some(s) => x == s,
            None => false,
        };
        assert(hit == def_ids(ev[i as int].def).contains(x));
        found = found || hit;
        i = i + 1;
    }
    assert(ev.take(entries.len() as int) =~= ev);
    found
}

/// The ids a member keeps on a reset: every id of `held` that no role
/// choice of the catalog maps to, in their order.
pub fn reset_roles(catalog: &RoleCatalog, held: &Vec<u64>) -> (r: Vec<u64>)
    ensures
        r@.to_set() == held@.to_set().difference(tracked_ids(catalog@.entries)),
        forall|id: u64| tracked_ids(catalog@.entries).contains(id) ==> !r@.contains(id),
{
    let entries = catalog.entries();
    let ghost catalog_ids = tracked_ids(catalog@.entries);
    let mut r: Vec<u64> = Vec::new();
    let mut i: usize = 0;
    while i < held.len()
        invariant
            i <= held.len(),
            catalog_ids == tracked_ids(entries@.map_values(|e: CatalogEntry| e@)),
            r@.to_set() == held@.take(i as int).to_set().difference(catalog_ids),
        decreases held.len() - i,
    {
        let x = held[i];
        let keep = !is_tracked(entries, x);
        let ghost before = r@;
        if keep {
            r.push(x);
        }
        proof {
            lemma_take_push_set(held@, i as int);
            if keep {
                assert(r@ == before.push(x));
            }
            assert forall|y: u64| #[trigger] r@.to_set().contains(y)
                == held@.take(i as int + 1).to_set().difference(catalog_ids).contains(y) by {
                assert(r@.to_set().contains(y) == r@.contains(y));
                assert(before.to_set().contains(y) == before.contains(y));
                assert(r@.contains(y) <==> (before.contains(y) || (keep && y == x)));
                assert(held@.take(i as int + 1).to_set().contains(y) == (held@.take(i as int).to_set().contains(y)
                    || y == x));
            }
            assert(r@.to_set() =~= held@.take(i as int + 1).to_set().difference(catalog_ids));
        }
        i = i + 1;
    }
    assert(held@.take(held.len() as int) =~= held@);
    assert forall|id: u64| catalog_ids.contains(id) implies !r@.contains(id) by {
        assert(r@.to_set().contains(id) == r@.contains(id));
    }
    r
}

/// The refused names grouped per catalog group, in catalog order.
fn group_rejections(groups: &Vec<RoleGroup>, rejected: &Vec<(usize, String)>) -> (r: Vec<OverLimit>)
    ensures
        over_limit_view(r@) == over_limit_upto(
            groups@.map_values(|g: RoleGroup| (g.name@, g.limit)),
            rejected_view(rejected@),
            groups.len() as nat,
        ),
{
    let ghost gv = groups@.map_values(|g: RoleGroup| (g.name@, g.limit));
    let ghost rv = rejected_view(rejected@);
    let mut out: Vec<OverLimit> = Vec::new();
    let mut g: usize = 0;
    while g < groups.len()
        invariant
            g <= groups.len(),
            gv == groups@.map_values(|x: RoleGroup| (x.name@, x.limit)),
            rv == rejected_view(rejected@),
            over_limit_view(out@) == over_limit_upto(gv, rv, g as nat),
        decreases groups.len() - g,
    {
        let mut names: Vec<String> = Vec::new();
        let mut i: usize = 0;
        while i < rejected.len()
            invariant
                i <= rejected.len(),
                rv == rejected_view(rejected@),
                names_view(names@) == rejected_in(rv.take(i as int), g as nat),
            decreases rejected.len() - i,
        {
            assert(rv.take(i as int + 1).drop_last() =~= rv.take(i as int));
            if rejected[i].0 == g {
                names.push(rejected[i].1.clone());
            }
            assert(names_view(names@) =~= rejected_in(rv.take(i as int + 1), g as nat));
            i = i + 1;
        }
        assert(rv.take(rejected.len() as int) =~= rv);
        if names.len() > 0 {
            let item = OverLimit { group_name: groups[g].name.clone(), limit: groups[g].limit, role_names: names };
            let ghost before = over_limit_view(out@);
            out.push(item);
            assert(over_limit_view(out@) =~= before.push(item@));
        }
        g = g + 1;
    }
    out
}

} // verus!
