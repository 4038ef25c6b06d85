//! Collapsing repeated and contradicting intents: one surviving intent per
//! role name, in message order.

use vstd::prelude::*;

use crate::command::{actions_view, ActionView, RoleAction};

verus! {

/// Position of the first intent in `s` that names `name`, or -1.
pub open spec fn find_name(s: Seq<ActionView>, name: Seq<char>) -> int
    decreases s.len(),
{
    if s.len() == 0 {
        -1
    } else if s[0].name == name {
        0
    } else {
        let r = find_name(s.drop_first(), name);
        if r < 0 {
            -1
        } else {
            r + 1
        }
    }
}

/// The intents that survive, in the order they were first kept: a new name
/// is kept, a repeat of the same kind is dropped, and one of the opposite
/// kind cancels the kept intent.
pub open spec fn survivors(acts: Seq<ActionView>) -> Seq<ActionView>
    decreases acts.len(),
{
    if acts.len() == 0 {
        seq![]
    } else {
        let prev = survivors(acts.drop_last());
        let a = acts.last();
        let j = find_name(prev, a.name);
        if j < 0 {
            prev.push(a)
        } else if prev[j].kind == a.kind {
            prev
        } else {
            prev.remove(j)
        }
    }
}

/// `a` placed after every element of `s` whose index is not greater.
pub open spec fn insert_by_index(s: Seq<ActionView>, a: ActionView) -> Seq<ActionView>
    decreases s.len(),
{
    if s.len() == 0 {
        seq![a]
    } else if s.last().index <= a.index {
        s.push(a)
    } else {
        insert_by_index(s.drop_last(), a).push(s.last())
    }
}

/// Stable sort by message index.
pub open spec fn sort_by_index(s: Seq<ActionView>) -> Seq<ActionView>
    decreases s.len(),
{
    if s.len() == 0 {
        s
    } else {
        insert_by_index(sort_by_index(s.drop_last()), s.last())
    }
}

/// The deduplicated intents: the survivors ordered by message index.
pub open spec fn dedup_spec(acts: Seq<ActionView>) -> Seq<ActionView> {
    sort_by_index(survivors(acts))
}

pub open spec fn distinct_names(s: Seq<ActionView>) -> bool {
    forall|i: int, j: int| 0 <= i < j < s.len() ==> s[i].name != s[j].name
}

pub open spec fn sorted_by_index(s: Seq<ActionView>) -> bool {
    forall|i: int, j: int| 0 <= i < j < s.len() ==> s[i].index <= s[j].index
}

proof fn lemma_find_name(s: Seq<ActionView>, name: Seq<char>)
    ensures
        -1 <= find_name(s, name) < s.len(),
        find_name(s, name) >= 0 ==> s[find_name(s, name)].name == name,
        forall|k: int| 0 <= k < s.len() && (find_name(s, name) < 0 || k < find_name(s, name))
            ==> s[k].name != name,
    decreases s.len(),
{
    if s.len() > 0 && s[0].name != name {
        lemma_find_name(s.drop_first(), name);
        assert forall|k: int| 0 <= k < s.len() && (find_name(s, name) < 0 || k < find_name(s, name))
            implies s[k].name != name by {
            if k > 0 {
                assert(s[k] == s.drop_first()[k - 1]);
            }
        }
    }
}

proof fn lemma_survivors_distinct(acts: Seq<ActionView>)
    ensures
        distinct_names(survivors(acts)),
    decreases acts.len(),
{
    if acts.len() > 0 {
        let prev = survivors(acts.drop_last());
        lemma_survivors_distinct(acts.drop_last());
        lemma_find_name(prev, acts.last().name);
        let r = survivors(acts);
        let j = find_name(prev, acts.last().name);
        if j >= 0 && prev[j].kind != acts.last().kind {
            assert forall|x: int, y: int| 0 <= x < y < r.len() implies r[x].name != r[y].name by {
                let px = if x < j { x } else { x + 1 };
                let py = if y < j { y } else { y + 1 };
                assert(r[x] == prev[px]);
                assert(r[y] == prev[py]);
            }
        }
    }
}

proof fn lemma_survivors_of_distinct(acts: Seq<ActionView>)
    requires
        distinct_names(acts),
    ensures
        survivors(acts) == acts,
    decreases acts.len(),
{
    if acts.len() > 0 {
        lemma_survivors_of_distinct(acts.drop_last());
        lemma_find_name(acts.drop_last(), acts.last().name);
        assert(acts.drop_last().push(acts.last()) =~= acts);
    }
}

proof fn lemma_insert(s: Seq<ActionView>, a: ActionView)
    ensures
        insert_by_index(s, a).len() == s.len() + 1,
        forall|x: ActionView| #[trigger] insert_by_index(s, a).contains(x) <==> (s.contains(x) || x == a),
        sorted_by_index(s) ==> sorted_by_index(insert_by_index(s, a)),
        distinct_names(s) && (forall|k: int| 0 <= k < s.len() ==> s[k].name != a.name)
            ==> distinct_names(insert_by_index(s, a)),
    decreases s.len(),
{
    let r = insert_by_index(s, a);
    if s.len() == 0 {
        assert forall|x: ActionView| #[trigger] r.contains(x) <==> (s.contains(x) || x == a) by {
            if x == a {
                assert(r[0] == a);
            }
        }
    } else if s.last().index <= a.index {
        assert forall|x: ActionView| #[trigger] r.contains(x) <==> (s.contains(x) || x == a) by {
            if s.contains(x) {
                let k = choose|k: int| 0 <= k < s.len() && s[k] == x;
                assert(r[k] == x);
            }
            if x == a {
                assert(r[s.len() as int] == a);
            }
        }
    } else {
        let t = s.drop_last();
        let inner = insert_by_index(t, a);
        lemma_insert(t, a);
        assert(r == inner.push(s.last()));
        assert forall|x: ActionView| #[trigger] r.contains(x) <==> (s.contains(x) || x == a) by {
            if s.contains(x) {
                let k = choose|k: int| 0 <= k < s.len() && s[k] == x;
                if k == s.len() - 1 {
                    assert(r[r.len() - 1] == x);
                } else {
                    assert(t[k] == x);
                    assert(inner.contains(x));
                    let m = choose|m: int| 0 <= m < inner.len() && inner[m] == x;
                    assert(r[m] == x);
                }
            }
            if x == a {
                assert(inner.contains(a));
                let m = choose|m: int| 0 <= m < inner.len() && inner[m] == a;
                assert(r[m] == a);
            }
            if r.contains(x) {
                let m = choose|m: int| 0 <= m < r.len() && r[m] == x;
                if m == r.len() - 1 {
                    assert(s[s.len() - 1] == x);
                } else {
                    assert(inner[m] == x);
                    assert(inner.contains(x));
                    if t.contains(x) {
                        let k = choose|k: int| 0 <= k < t.len() && t[k] == x;
                        assert(s[k] == x);
                    }
                }
            }
        }
        if sorted_by_index(s) {
            assert forall|m: int| 0 <= m < inner.len() implies inner[m].index <= s.last().index by {
                assert(inner.contains(inner[m]));
                if t.contains(inner[m]) {
                    let k = choose|k: int| 0 <= k < t.len() && t[k] == inner[m];
                    assert(s[k] == t[k]);
                }
            }
        }
        if distinct_names(s) && (forall|k: int| 0 <= k < s.len() ==> s[k].name != a.name) {
            assert forall|m: int| 0 <= m < inner.len() implies inner[m].name != s.last().name by {
                assert(inner.contains(inner[m]));
                if t.contains(inner[m]) {
                    let k = choose|k: int| 0 <= k < t.len() && t[k] == inner[m];
                    assert(s[k] == t[k]);
                } else {
                    assert(s[s.len() - 1].name != a.name);
                }
            }
        }
    }
}

proof fn lemma_sort(s: Seq<ActionView>)
    ensures
        sort_by_index(s).len() == s.len(),
        forall|x: ActionView| #[trigger] sort_by_index(s).contains(x) <==> s.contains(x),
        sorted_by_index(sort_by_index(s)),
        distinct_names(s) ==> distinct_names(sort_by_index(s)),
    decreases s.len(),
{
    if s.len() > 0 {
        let t = s.drop_last();
        lemma_sort(t);
        lemma_insert(sort_by_index(t), s.last());
        assert forall|x: ActionView| #[trigger] sort_by_index(s).contains(x) <==> s.contains(x) by {
            if s.contains(x) {
                let k = choose|k: int| 0 <= k < s.len() && s[k] == x;
                if k < s.len() - 1 {
                    assert(t[k] == x);
                    assert(t.contains(x));
                }
            }
            if t.contains(x) {
                let k = choose|k: int| 0 <= k < t.len() && t[k] == x;
                assert(s[k] == x);
            }
        }
        if distinct_names(s) {
            let st = sort_by_index(t);
            assert forall|k: int| 0 <= k < st.len() implies st[k].name != s.last().name by {
                assert(st.contains(st[k]));
                let m = choose|m: int| 0 <= m < t.len() && t[m] == st[k];
                assert(s[m] == t[m]);
            }
        }
    }
}

proof fn lemma_sort_of_sorted(s: Seq<ActionView>)
    requires
        sorted_by_index(s),
    ensures
        sort_by_index(s) == s,
    decreases s.len(),
{
    if s.len() > 0 {
        let t = s.drop_last();
        lemma_sort_of_sorted(t);
        assert(t.push(s.last()) =~= s);
        if t.len() > 0 {
            assert(t.last() == s[s.len() - 2]);
        }
    }
}

/// Deduplicating an already deduplicated list of intents leaves it as it is.
pub proof fn lemma_dedup_idempotent(acts: Seq<ActionView>)
    ensures
        dedup_spec(dedup_spec(acts)) == dedup_spec(acts),
{
    let d = dedup_spec(acts);
    lemma_survivors_distinct(acts);
    lemma_sort(survivors(acts));
    lemma_survivors_of_distinct(d);
    lemma_sort_of_sorted(d);
}

proof fn lemma_single(a: ActionView)
    ensures
        survivors(seq![a]) == seq![a],
        sort_by_index(seq![a]) == seq![a],
{
    let e = Seq::<ActionView>::empty();
    assert(seq![a].drop_last() =~= e);
    assert(survivors(e) == e);
    assert(find_name(e, a.name) == -1);
    assert(e.push(a) =~= seq![a]);
    assert(sort_by_index(e) == e);
    assert(insert_by_index(e, a) == seq![a]);
}

/// An intent followed by its opposite for the same name leaves nothing.
pub proof fn lemma_opposites_cancel(a: ActionView, b: ActionView)
    requires
        a.name == b.name,
        a.kind != b.kind,
    ensures
        dedup_spec(seq![a, b]) == Seq::<ActionView>::empty(),
{
    let s = seq![a, b];
    assert(s.drop_last() =~= seq![a]);
    assert(seq![a].drop_last() =~= Seq::<ActionView>::empty());
    lemma_single(a);
    assert(find_name(seq![a], b.name) == 0);
    assert(seq![a].remove(0) =~= Seq::<ActionView>::empty());
}

/// Three intents of the same kind for the same name leave the first one.
pub proof fn lemma_repeats_collapse(a: ActionView, b: ActionView, c: ActionView)
    requires
        a.name == b.name,
        b.name == c.name,
        a.kind == b.kind,
        b.kind == c.kind,
    ensures
        dedup_spec(seq![a, b, c]) == seq![a],
{
    let s = seq![a, b, c];
    assert(s.drop_last() =~= seq![a, b]);
    assert(seq![a, b].drop_last() =~= seq![a]);
    assert(seq![a].drop_last() =~= Seq::<ActionView>::empty());
    lemma_single(a);
    assert(find_name(seq![a], b.name) == 0);
    assert(survivors(seq![a, b]) =~= seq![a]);
    assert(find_name(seq![a], c.name) == 0);
    lemma_single(a);
}

/// Position of the kept intent naming `name`, or `kept.len()` when there is none.
fn position_of(kept: &Vec<RoleAction>, name: &String) -> (r: usize)
    ensures
        r <= kept.len(),
        r < kept.len() ==> r as int == find_name(actions_view(kept@), name@),
        r == kept.len() ==> find_name(actions_view(kept@), name@) == -1,
{
    let ghost v = actions_view(kept@);
    let mut j: usize = 0;
    while j < kept.len() && kept[j].role_name != *name
        invariant
            j <= kept.len(),
            v == actions_view(kept@),
            forall|k: int| 0 <= k < j ==> v[k].name != name@,
        decreases kept.len() - j,
    {
        j = j + 1;
    }
    proof {
        lemma_find_name(v, name@);
        let f = find_name(v, name@);
        if j < kept.len() {
            assert(v[j as int].name == name@);
        } else {
            if f >= 0 {
                assert(v[f].name == name@);
            }
        }
    }
    j
}

/// Collapses the intents of one message: per role name at most one intent
/// survives (the first of a run of the same kind; none where an add and a
/// remove meet), and the survivors come out in message order.
pub fn dedup(actions: &Vec<RoleAction>) -> (r: Vec<RoleAction>)
    ensures
        actions_view(r@) == dedup_spec(actions_view(actions@)),
{
    let ghost all = actions_view(actions@);
    let mut kept: Vec<RoleAction> = Vec::new();
    let mut i: usize = 0;
    while i < actions.len()
        invariant
            i <= actions.len(),
            all == actions_view(actions@),
            actions_view(kept@) == survivors(all.take(i as int)),
        decreases actions.len() - i,
    {
        let a = &actions[i];
        let ghost prev = actions_view(kept@);
        let j = position_of(&kept, &a.role_name);
        proof {
            assert(all.take(i as int + 1).drop_last() =~= all.take(i as int));
            assert(all.take(i as int + 1).last() == a@);
        }
        if j == kept.len() {
            kept.push(a.clone());
            assert(actions_view(kept@) =~= prev.push(a@));
        } else if kept[j].kind != a.kind {
            kept.remove(j);
            assert(actions_view(kept@) =~= prev.remove(j as int));
        }
        i = i + 1;
    }
    assert(all.take(actions.len() as int) =~= all);
    let ghost surv = actions_view(kept@);
    let mut out: Vec<RoleAction> = Vec::new();
    let mut i: usize = 0;
    while i < kept.len()
        invariant
            i <= kept.len(),
            surv == actions_view(kept@),
            actions_view(out@) == sort_by_index(surv.take(i as int)),
        decreases kept.len() - i,
    {
        let a = kept[i].clone();
        let ghost before = actions_view(out@);
        let mut p: usize = out.len();
        while p > 0 && out[p - 1].index > a.index
            invariant
                p <= out.len(),
                before == actions_view(out@),
                forall|k: int| p <= k < out.len() ==> before[k].index > a.index,
            decreases p,
        {
            p = p - 1;
        }
        proof {
            lemma_insert_at(before, a@, p as int);
            assert(surv.take(i as int + 1).drop_last() =~= surv.take(i as int));
        }
        out.insert(p, a);
        assert(actions_view(out@) =~= before.insert(p as int, a@));
        i = i + 1;
    }
    assert(surv.take(kept.len() as int) =~= surv);
    out
}

proof fn lemma_insert_at(s: Seq<ActionView>, a: ActionView, p: int)
    requires
        0 <= p <= s.len(),
        forall|k: int| p <= k < s.len() ==> s[k].index > a.index,
        p == 0 || s[p - 1].index <= a.index,
    ensures
        insert_by_index(s, a) == s.insert(p, a),
    decreases s.len(),
{
    if s.len() == 0 {
        assert(s.insert(p, a) =~= seq![a]);
    } else if p == s.len() {
        assert(s.insert(p, a) =~= s.push(a));
    } else {
        lemma_insert_at(s.drop_last(), a, p);
        assert(s.drop_last().insert(p, a).push(s.last()) =~= s.insert(p, a));
    }
}

} // verus!
