//! Where the branches of the source join again.
//!
//! While a control-flow graph is built from structured source, each branch
//! point is recorded: the labels at which its arms start, the label at
//! which the arms join, and for each arm the labels that are passed on the
//! way to the join. A later pass that rebuilds structured code uses the
//! record to give a branch where it would else give a loop around a
//! dispatch.

use vstd::prelude::*;
use std::collections::{BTreeSet, HashMap, HashSet};
use vstd::std_specs::hash::spec_hash_map_iter;
use vstd::std_specs::iter::IteratorSpec;

verus! {

/// The label that `rewrites` gives for `l`: what it maps `l` to, or `l`
/// itself where it maps `l` to nothing.
pub open spec fn rw(rewrites: Map<u64, u64>, l: u64) -> u64 {
    if rewrites.contains_key(l) {
        rewrites[l]
    } else {
        l
    }
}

/// The labels that `rewrites` gives for the labels in `s`.
pub open spec fn rw_set(rewrites: Map<u64, u64>, s: Set<u64>) -> Set<u64> {
    s.map(|l: u64| rw(rewrites, l))
}

/// The labels that `rewrites` gives for the elements of `s`.
pub open spec fn image(s: Seq<u64>, rewrites: Map<u64, u64>) -> Set<u64> {
    rw_set(rewrites, s.to_set())
}

proof fn lemma_image_step(s: Seq<u64>, i: int, m: Map<u64, u64>)
    requires
        0 <= i < s.len(),
    ensures
        image(s.take(i + 1), m) == image(s.take(i), m).insert(rw(m, s[i])),
{
    let f = |l: u64| rw(m, l);
    let t1 = s.take(i + 1);
    let t0 = s.take(i);
    let a = t1.to_set();
    let b = t0.to_set();
    assert forall|y: u64| a.map(f).contains(y) <==> b.map(f).insert(rw(m, s[i])).contains(y) by {
        if a.map(f).contains(y) {
            let x = choose|x: u64| a.contains(x) && f(x) == y;
            let j = choose|j: int| 0 <= j < t1.len() && t1[j] == x;
            if j < i {
                assert(t0[j] == x);
                assert(b.contains(x));
            }
        }
        if b.map(f).contains(y) {
            let x = choose|x: u64| b.contains(x) && f(x) == y;
            let j = choose|j: int| 0 <= j < t0.len() && t0[j] == x;
            assert(t1[j] == x);
            assert(a.contains(x));
        }
        if y == rw(m, s[i]) {
            assert(t1[i] == s[i]);
            assert(a.contains(s[i]));
        }
    }
    assert(a.map(f) =~= b.map(f).insert(rw(m, s[i])));
}

/// The order of `u64` is the order that ordered sets of labels go by.
proof fn lemma_labels_ordered()
    ensures
        vstd::laws_cmp::obeys_cmp::<u64>(),
        vstd::std_specs::btree::key_obeys_cmp_spec::<u64>(),
{
    broadcast use vstd::laws_cmp::group_laws_cmp;
    broadcast use vstd::std_specs::btree::group_btree_axioms;

}

/// The label that `rewrites` gives for `l`.
pub fn rewrite_label(rewrites: &HashMap<u64, u64>, l: u64) -> (r: u64)
    ensures
        r == rw(rewrites@, l),
{
    broadcast use vstd::std_specs::hash::group_hash_axioms;

    match rewrites.get(&l) {
        Some(x) => *x,
        None => l,
    }
}

fn rewrite_hash_set(s: &HashSet<u64>, rewrites: &HashMap<u64, u64>) -> (r: HashSet<u64>)
    ensures
        r@ == rw_set(rewrites@, s@),
{
    broadcast use vstd::std_specs::hash::group_hash_axioms;

    let mut out: HashSet<u64> = HashSet::new();
    assert(image(Seq::<u64>::empty(), rewrites@) =~= Set::<u64>::empty());
    for x in it: s.iter()
        invariant
            it.seq().unref().to_set() == s@,
            out@ == image(it.seq().unref().take(it.index() as int), rewrites@),
            it.index() == it.seq().len() ==> out@ == rw_set(rewrites@, s@),
    {
        assert(image(it.seq().unref().take(it.index() + 1), rewrites@) == image(
            it.seq().unref().take(it.index() as int),
            rewrites@,
        ).insert(rw(rewrites@, *x))) by {
            lemma_image_step(it.seq().unref(), it.index() as int, rewrites@);
        }
        assert(it.index() + 1 == it.seq().len() ==> it.seq().unref().take(it.index() + 1)
            == it.seq().unref()) by {
            assert(it.index() + 1 == it.seq().len() ==> it.seq().unref().take(it.index() + 1)
                =~= it.seq().unref());
        }
        out.insert(rewrite_label(rewrites, *x));
    }
    out
}

fn rewrite_btree_set(s: &BTreeSet<u64>, rewrites: &HashMap<u64, u64>) -> (r: BTreeSet<u64>)
    ensures
        r@ == rw_set(rewrites@, s@),
{
    broadcast use vstd::std_specs::btree::group_btree_axioms;

    proof {
        lemma_labels_ordered();
    }

    let mut out: BTreeSet<u64> = BTreeSet::new();
    assert(image(Seq::<u64>::empty(), rewrites@) =~= Set::<u64>::empty());
    for x in it: s.iter()
        invariant
            it.seq().unref().to_set() == s@,
            out@ == image(it.seq().unref().take(it.index() as int), rewrites@),
            it.index() == it.seq().len() ==> out@ == rw_set(rewrites@, s@),
    {
        assert(image(it.seq().unref().take(it.index() + 1), rewrites@) == image(
            it.seq().unref().take(it.index() as int),
            rewrites@,
        ).insert(rw(rewrites@, *x))) by {
            lemma_image_step(it.seq().unref(), it.index() as int, rewrites@);
        }
        assert(it.index() + 1 == it.seq().len() ==> it.seq().unref().take(it.index() + 1)
            == it.seq().unref()) by {
            assert(it.index() + 1 == it.seq().len() ==> it.seq().unref().take(it.index() + 1)
                =~= it.seq().unref());
        }
        out.insert(rewrite_label(rewrites, *x));
    }
    out
}

fn btree_subset(a: &BTreeSet<u64>, b: &BTreeSet<u64>) -> (r: bool)
    ensures
        r == a@.subset_of(b@),
{
    broadcast use vstd::std_specs::btree::group_btree_axioms;

    proof {
        lemma_labels_ordered();
    }

    let mut ok = true;
    for x in it: a.iter()
        invariant
            it.seq().unref().to_set() == a@,
            ok == (forall|j: int| 0 <= j < it.index() ==> b@.contains(#[trigger] it.seq().unref()[j])),
    {
        if !b.contains(x) {
            ok = false;
        }
    }
    ok
}

/// Whether the two sets hold the same labels.
fn btree_set_eq(a: &BTreeSet<u64>, b: &BTreeSet<u64>) -> (r: bool)
    ensures
        r == (a@ == b@),
{
    let r = btree_subset(a, b) && btree_subset(b, a);
    proof {
        if r {
            assert(a@ =~= b@);
        }
    }
    r
}

/// The arms of a branch point: for the label at which each arm starts,
/// the labels that are passed on the way to the join.
pub type Arms = HashMap<u64, HashSet<u64>>;

/// The arms of a branch point, as a mathematical value.
pub type SpecArms = Map<u64, Set<u64>>;

/// The arms `a` as a mathematical value.
pub open spec fn arms_view(a: Arms) -> SpecArms {
    Map::new(|l: u64| a@.contains_key(l), |l: u64| a@[l]@)
}

/// Whether `a2` is what `rewrites` makes of the arms `a`. The arms of `a2`
/// start at the labels that `rewrites` gives for the starts of the arms of
/// `a`. Each arm of `a2` is an arm of `a` that starts at a label which is
/// rewritten to its own start, with each label of its body rewritten.
/// Where several arms of `a` come to start at one label, `a2` holds one of
/// them.
pub open spec fn arms_rewritten(a: SpecArms, rewrites: Map<u64, u64>, a2: SpecArms) -> bool {
    &&& a2.dom() == rw_set(rewrites, a.dom())
    &&& forall|l2: u64| #[trigger]
        a2.contains_key(l2) ==> exists|l: u64| #[trigger]
            a.contains_key(l) && rw(rewrites, l) == l2 && a2[l2] == rw_set(rewrites, a[l])
}

spec fn keys_done(ps: Seq<(u64, HashSet<u64>)>, n: int, m: Map<u64, u64>) -> Set<u64> {
    Set::new(|l2: u64| exists|j: int| 0 <= j < n && rw(m, (#[trigger] ps[j]).0) == l2)
}

spec fn arm_from(ps: Seq<(u64, HashSet<u64>)>, n: int, m: Map<u64, u64>, l2: u64, body: Set<u64>) -> bool {
    exists|j: int| 0 <= j < n && rw(m, (#[trigger] ps[j]).0) == l2 && body == rw_set(m, ps[j].1@)
}

spec fn pairs_of(ps: Seq<(u64, HashSet<u64>)>, a: Map<u64, HashSet<u64>>) -> bool {
    &&& forall|i: int|
        0 <= i < ps.len() ==> a.contains_key((#[trigger] ps[i]).0) && a[ps[i].0] == ps[i].1
    &&& forall|k: u64| #[trigger]
        a.contains_key(k) ==> exists|i: int| 0 <= i < ps.len() && #[trigger] ps[i] == (k, a[k])
}

spec fn partial(ps: Seq<(u64, HashSet<u64>)>, n: int, m: Map<u64, u64>, out: Map<u64, HashSet<u64>>) -> bool {
    &&& out.dom() == keys_done(ps, n, m)
    &&& forall|l2: u64| #[trigger] out.contains_key(l2) ==> arm_from(ps, n, m, l2, out[l2]@)
}

proof fn lemma_partial_step(
    ps: Seq<(u64, HashSet<u64>)>,
    n: int,
    m: Map<u64, u64>,
    out: Map<u64, HashSet<u64>>,
    body2: HashSet<u64>,
)
    requires
        partial(ps, n, m, out),
        0 <= n < ps.len(),
        body2@ == rw_set(m, ps[n].1@),
    ensures
        partial(ps, n + 1, m, out.insert(rw(m, ps[n].0), body2)),
{
    let l_new = rw(m, ps[n].0);
    let out2 = out.insert(l_new, body2);
    assert forall|l2: u64| out2.dom().contains(l2) <==> keys_done(ps, n + 1, m).contains(l2) by {
        if out2.dom().contains(l2) {
            if l2 == l_new {
                assert(rw(m, ps[n].0) == l2);
            } else {
                assert(keys_done(ps, n, m).contains(l2));
                let j = choose|j: int| 0 <= j < n && rw(m, (#[trigger] ps[j]).0) == l2;
                assert(0 <= j < n + 1 && rw(m, ps[j].0) == l2);
            }
        }
        if keys_done(ps, n + 1, m).contains(l2) {
            let j = choose|j: int| 0 <= j < n + 1 && rw(m, (#[trigger] ps[j]).0) == l2;
            if j < n {
                assert(keys_done(ps, n, m).contains(l2));
            }
        }
    }
    assert(out2.dom() =~= keys_done(ps, n + 1, m));
    assert forall|l2: u64| #[trigger] out2.contains_key(l2) implies arm_from(
        ps,
        n + 1,
        m,
        l2,
        out2[l2]@,
    ) by {
        if l2 == l_new {
            assert(0 <= n < n + 1 && rw(m, ps[n].0) == l2 && out2[l2]@ == rw_set(m, ps[n].1@));
        } else {
            assert(out.contains_key(l2));
            let j = choose|j: int|
                0 <= j < n && rw(m, (#[trigger] ps[j]).0) == l2 && out[l2]@ == rw_set(m, ps[j].1@);
            assert(0 <= j < n + 1 && rw(m, ps[j].0) == l2 && out2[l2]@ == rw_set(m, ps[j].1@));
        }
    }
}

proof fn lemma_partial_done(
    ps: Seq<(u64, HashSet<u64>)>,
    m: Map<u64, u64>,
    a: Arms,
    out: Arms,
)
    requires
        pairs_of(ps, a@),
        partial(ps, ps.len() as int, m, out@),
    ensures
        arms_rewritten(arms_view(a), m, arms_view(out)),
{
    let av = arms_view(a);
    let ov = arms_view(out);
    let n = ps.len() as int;
    assert forall|l2: u64| ov.dom().contains(l2) <==> rw_set(m, av.dom()).contains(l2) by {
        if ov.dom().contains(l2) {
            assert(out@.contains_key(l2));
            assert(keys_done(ps, n, m).contains(l2));
            let j = choose|j: int| 0 <= j < n && rw(m, (#[trigger] ps[j]).0) == l2;
            assert(a@.contains_key(ps[j].0));
            assert(av.dom().contains(ps[j].0));
        }
        if rw_set(m, av.dom()).contains(l2) {
            let l = choose|l: u64| av.dom().contains(l) && rw(m, l) == l2;
            assert(a@.contains_key(l));
            let i = choose|i: int| 0 <= i < ps.len() && #[trigger] ps[i] == (l, a@[l]);
            assert(rw(m, ps[i].0) == l2);
            assert(keys_done(ps, n, m).contains(l2));
        }
    }
    assert(ov.dom() =~= rw_set(m, av.dom()));
    assert forall|l2: u64| #[trigger] ov.contains_key(l2) implies exists|l: u64| #[trigger]
        av.contains_key(l) && rw(m, l) == l2 && ov[l2] == rw_set(m, av[l]) by {
        assert(out@.contains_key(l2));
        let j = choose|j: int|
            0 <= j < n && rw(m, (#[trigger] ps[j]).0) == l2 && out@[l2]@ == rw_set(m, ps[j].1@);
        let l = ps[j].0;
        assert(a@.contains_key(l) && a@[l] == ps[j].1);
        assert(av.contains_key(l) && rw(m, l) == l2 && ov[l2] == rw_set(m, av[l]));
    }
}

fn rewrite_arms(arms: &Arms, rewrites: &HashMap<u64, u64>) -> (r: Arms)
    ensures
        arms_rewritten(arms_view(*arms), rewrites@, arms_view(r)),
{
    broadcast use vstd::std_specs::hash::group_hash_axioms;

    let mut out: Arms = HashMap::new();
    assert(out@.dom() =~= keys_done(
        spec_hash_map_iter(arms).remaining().unref(),
        0,
        rewrites@,
    ));
    assert(pairs_of(spec_hash_map_iter(arms).remaining().unref(), arms@)) by {
        let v = spec_hash_map_iter(arms).remaining();
        let ps = v.unref();
        assert forall|i: int| 0 <= i < ps.len() implies arms@.contains_key((#[trigger] ps[i]).0)
            && arms@[ps[i].0] == ps[i].1 by {
            assert(arms@.contains_key(*v[i].0) && arms@[*v[i].0] == *v[i].1);
        }
        assert forall|k: u64| #[trigger] arms@.contains_key(k) implies exists|i: int|
            0 <= i < ps.len() && #[trigger] ps[i] == (k, arms@[k]) by {
            assert(v.contains((&k, &arms@[k])));
            let i = choose|i: int| 0 <= i < v.len() && v[i] == (&k, &arms@[k]);
            assert(ps[i] == (k, arms@[k]));
        }
    }
    assert(spec_hash_map_iter(arms).remaining().len() == 0 ==> arms_rewritten(
        arms_view(*arms),
        rewrites@,
        arms_view(out),
    )) by {
        let ps = spec_hash_map_iter(arms).remaining().unref();
        if ps.len() == 0 {
            assert(partial(ps, 0, rewrites@, out@));
            lemma_partial_done(ps, rewrites@, *arms, out);
        }
    }
    for p in it: arms.iter()
        invariant
            pairs_of(it.seq().unref(), arms@),
            partial(it.seq().unref(), it.index() as int, rewrites@, out@),
            it.index() == it.seq().len() ==> arms_rewritten(
                arms_view(*arms),
                rewrites@,
                arms_view(out),
            ),
    {
        let l2 = rewrite_label(rewrites, *p.0);
        let body2 = rewrite_hash_set(p.1, rewrites);
        assert(partial(
            it.seq().unref(),
            it.index() + 1,
            rewrites@,
            out@.insert(l2, body2),
        )) by {
            lemma_partial_step(it.seq().unref(), it.index() as int, rewrites@, out@, body2);
        }
        out.insert(l2, body2);
        assert(it.index() + 1 == it.seq().len() ==> arms_rewritten(
            arms_view(*arms),
            rewrites@,
            arms_view(out),
        )) by {
            if it.index() + 1 == it.seq().unref().len() {
                lemma_partial_done(it.seq().unref(), rewrites@, *arms, out);
            }
        }
    }
    out
}

/// What is recorded of a branch point: the label at which its arms join,
/// and its arms.
pub type Multiple = (u64, Arms);

/// The record of a branch point, as a mathematical value.
pub type SpecMultiple = (u64, SpecArms);

/// The record `m` as a mathematical value.
pub open spec fn multiple_view(m: Multiple) -> SpecMultiple {
    (m.0, arms_view(m.1))
}

/// Whether `y` is what `rewrites` makes of the record `x`.
pub open spec fn multiple_rewritten(x: SpecMultiple, rewrites: Map<u64, u64>, y: SpecMultiple) -> bool {
    y.0 == rw(rewrites, x.0) && arms_rewritten(x.1, rewrites, y.1)
}

/// Whether `new` is what `rewrites` makes of the records `old`.
///
/// Every record of `new` has more than one arm, and is what `rewrites`
/// makes of a record of `old` whose entry labels are rewritten to its own.
/// And every record of `old` that keeps more than one arm is found in
/// `new` under its rewritten entry labels. Where the entry labels of
/// several records of `old` become the same, `new` holds one of them.
pub open spec fn rewritten(
    old: Map<Set<u64>, SpecMultiple>,
    rewrites: Map<u64, u64>,
    new: Map<Set<u64>, SpecMultiple>,
) -> bool {
    &&& forall|e2: Set<u64>| #[trigger]
        new.contains_key(e2) ==> new[e2].1.dom().len() > 1 && exists|e: Set<u64>| #[trigger]
            old.contains_key(e) && rw_set(rewrites, e) == e2 && multiple_rewritten(
                old[e],
                rewrites,
                new[e2],
            )
    &&& forall|e: Set<u64>| #[trigger]
        old.contains_key(e) && rw_set(rewrites, old[e].1.dom()).len() > 1 ==> new.contains_key(
            rw_set(rewrites, e),
        )
}

/// The arms that a list of arms makes: an arm for each label that an arm
/// of the list starts at, from index `k` on. Where several arms start at
/// one label, the last of them counts.
pub open spec fn arm_map(arms: Seq<(u64, HashSet<u64>)>, k: nat) -> SpecArms
    decreases arms.len() - k,
{
    if k >= arms.len() {
        Map::empty()
    } else {
        let rest = arm_map(arms, k + 1);
        if rest.contains_key(arms[k as int].0) {
            rest
        } else {
            rest.insert(arms[k as int].0, arms[k as int].1@)
        }
    }
}

spec fn has_key(s: Seq<(BTreeSet<u64>, Multiple)>, e: Set<u64>) -> bool {
    exists|i: int| 0 <= i < s.len() && (#[trigger] s[i]).0@ == e
}

spec fn key_index(s: Seq<(BTreeSet<u64>, Multiple)>, e: Set<u64>) -> int {
    choose|i: int| 0 <= i < s.len() && (#[trigger] s[i]).0@ == e
}

spec fn entries_view(s: Seq<(BTreeSet<u64>, Multiple)>) -> Map<Set<u64>, SpecMultiple> {
    Map::new(|e: Set<u64>| has_key(s, e), |e: Set<u64>| multiple_view(s[key_index(s, e)].1))
}

spec fn distinct_keys(s: Seq<(BTreeSet<u64>, Multiple)>) -> bool {
    forall|i: int, j: int| 0 <= i < j < s.len() ==> (#[trigger] s[i]).0@ != (#[trigger] s[j]).0@
}

spec fn many_arms(s: Seq<(BTreeSet<u64>, Multiple)>) -> bool {
    forall|i: int| 0 <= i < s.len() ==> arms_view((#[trigger] s[i]).1.1).dom().len() > 1
}

proof fn lemma_entries_view_at(s: Seq<(BTreeSet<u64>, Multiple)>, i: int)
    requires
        distinct_keys(s),
        0 <= i < s.len(),
    ensures
        entries_view(s).contains_key(s[i].0@),
        entries_view(s)[s[i].0@] == multiple_view(s[i].1),
{
    let e = s[i].0@;
    assert(has_key(s, e));
    let k = key_index(s, e);
    if k < i {
        assert(s[k].0@ != s[i].0@);
    } else if i < k {
        assert(s[i].0@ != s[k].0@);
    }
}

proof fn lemma_entries_view_push(s: Seq<(BTreeSet<u64>, Multiple)>, key: BTreeSet<u64>, val: Multiple)
    requires
        distinct_keys(s),
        !has_key(s, key@),
    ensures
        distinct_keys(s.push((key, val))),
        entries_view(s.push((key, val))) == entries_view(s).insert(key@, multiple_view(val)),
{
    let s2 = s.push((key, val));
    assert forall|i: int, j: int| 0 <= i < j < s2.len() implies (#[trigger] s2[i]).0@ != (
    #[trigger] s2[j]).0@ by {
        if j < s.len() {
            assert(s[i].0@ != s[j].0@);
        } else {
            assert(s2[i] == s[i]);
            if s[i].0@ == key@ {
                assert(has_key(s, key@));
            }
        }
    }
    let a = entries_view(s2);
    let b = entries_view(s).insert(key@, multiple_view(val));
    assert forall|e: Set<u64>| a.contains_key(e) <==> b.contains_key(e) by {
        if has_key(s2, e) {
            let i = key_index(s2, e);
            if i < s.len() {
                assert(s[i].0@ == e);
                assert(has_key(s, e));
            }
        }
        if has_key(s, e) {
            let i = key_index(s, e);
            assert(s2[i].0@ == e);
        }
        if e == key@ {
            assert(s2[s.len() as int].0@ == e);
        }
    }
    assert forall|e: Set<u64>| a.contains_key(e) implies a[e] == b[e] by {
        let i = key_index(s2, e);
        lemma_entries_view_at(s2, i);
        if i < s.len() {
            assert(s[i] == s2[i]);
            lemma_entries_view_at(s, i);
        }
    }
    assert(a =~= b);
}

proof fn lemma_entries_view_update(
    s: Seq<(BTreeSet<u64>, Multiple)>,
    i: int,
    key: BTreeSet<u64>,
    val: Multiple,
)
    requires
        distinct_keys(s),
        0 <= i < s.len(),
        s[i].0@ == key@,
    ensures
        distinct_keys(s.update(i, (key, val))),
        entries_view(s.update(i, (key, val))) == entries_view(s).insert(key@, multiple_view(val)),
{
    let s2 = s.update(i, (key, val));
    assert forall|a: int, b: int| 0 <= a < b < s2.len() implies (#[trigger] s2[a]).0@ != (
    #[trigger] s2[b]).0@ by {
        assert(s[a].0@ != s[b].0@);
        assert(s2[a].0@ == s[a].0@);
        assert(s2[b].0@ == s[b].0@);
    }
    let a = entries_view(s2);
    let b = entries_view(s).insert(key@, multiple_view(val));
    assert forall|e: Set<u64>| a.contains_key(e) <==> b.contains_key(e) by {
        if has_key(s2, e) {
            let k = key_index(s2, e);
            assert(s[k].0@ == e);
            assert(has_key(s, e));
        }
        if has_key(s, e) {
            let k = key_index(s, e);
            assert(s2[k].0@ == e);
        }
        if e == key@ {
            assert(s2[i].0@ == e);
        }
    }
    assert forall|e: Set<u64>| a.contains_key(e) implies a[e] == b[e] by {
        let k = key_index(s2, e);
        lemma_entries_view_at(s2, k);
        if k != i {
            assert(s[k] == s2[k]);
            lemma_entries_view_at(s, k);
            if e == key@ {
                if k < i {
                    assert(s[k].0@ != s[i].0@);
                } else {
                    assert(s[i].0@ != s[k].0@);
                }
            }
        }
    }
    assert(a =~= b);
}

/// The record of the branch points of a control-flow graph: for the set
/// of labels at which the arms of a branch point start, the label at which
/// they join and the arms.
#[derive(Debug)]
pub struct MultipleInfo {
    multiples: Vec<(BTreeSet<u64>, Multiple)>,
}

impl View for MultipleInfo {
    type V = Map<Set<u64>, SpecMultiple>;

    closed spec fn view(&self) -> Map<Set<u64>, SpecMultiple> {
        entries_view(self.multiples@)
    }
}

fn find_entry(v: &Vec<(BTreeSet<u64>, Multiple)>, key: &BTreeSet<u64>) -> (r: Option<usize>)
    ensures
        match r {
            Some(i) => i < v@.len() && v@[i as int].0@ == key@,
            None => !has_key(v@, key@),
        },
{
    let mut i: usize = 0;
    while i < v.len()
        invariant
            i <= v.len(),
            forall|j: int| 0 <= j < i ==> (#[trigger] v@[j]).0@ != key@,
        decreases v.len() - i,
    {
        if btree_set_eq(&v[i].0, key) {
            return Some(i);
        }
        i += 1;
    }
    None
}

fn put_entry(v: &mut Vec<(BTreeSet<u64>, Multiple)>, key: BTreeSet<u64>, val: Multiple)
    requires
        distinct_keys(old(v)@),
        many_arms(old(v)@),
        arms_view(val.1).dom().len() > 1,
    ensures
        distinct_keys(final(v)@),
        many_arms(final(v)@),
        entries_view(final(v)@) == entries_view(old(v)@).insert(key@, multiple_view(val)),
{
    match find_entry(v, &key) {
        Some(i) => {
            proof {
                lemma_entries_view_update(v@, i as int, key, val);
            }
            v[i] = (key, val);
        },
        None => {
            proof {
                lemma_entries_view_push(v@, key, val);
            }
            v.push((key, val));
        },
    }
}

impl MultipleInfo {
    /// No set of entry labels is recorded twice, and every record has more
    /// than one arm. Every operation of this type keeps this.
    pub closed spec fn wf(&self) -> bool {
        distinct_keys(self.multiples@) && many_arms(self.multiples@)
    }

    /// An empty record.
    pub fn new() -> (r: MultipleInfo)
        ensures
            r@ == Map::<Set<u64>, SpecMultiple>::empty(),
            r.wf(),
    {
        let r = MultipleInfo { multiples: Vec::new() };
        assert(r@ =~= Map::<Set<u64>, SpecMultiple>::empty());
        r
    }

    /// Adds the record of a branch point: the label `join` at which its
    /// arms join, and its arms, each the label at which it starts with the
    /// labels that are passed before the join. The record is found under
    /// the set of the labels at which the arms start, and takes the place
    /// of a record of the same set. A branch point with fewer than two
    /// arms is not recorded: it says nothing.
    pub fn add_multiple(&mut self, join: u64, arms: Vec<(u64, HashSet<u64>)>)
        requires
            old(self).wf(),
        ensures
            final(self).wf(),
            final(self)@ == (if arm_map(arms@, 0).dom().len() > 1 {
                old(self)@.insert(arm_map(arms@, 0).dom(), (join, arm_map(arms@, 0)))
            } else {
                old(self)@
            }),
    {
        broadcast use vstd::std_specs::hash::group_hash_axioms;
        broadcast use vstd::std_specs::btree::group_btree_axioms;

        proof {
            lemma_labels_ordered();
        }
        let ghost arms0 = arms@;
        let mut arms = arms;
        let mut arm_table: Arms = HashMap::new();
        let mut entry_set: BTreeSet<u64> = BTreeSet::new();
        assert(arms_view(arm_table) =~= arm_map(arms0, arms0.len()));
        assert(entry_set@ =~= arm_table@.dom());
        while arms.len() > 0
            invariant
                arms@ == arms0.take(arms@.len() as int),
                arms@.len() <= arms0.len(),
                arms_view(arm_table) == arm_map(arms0, arms@.len()),
                entry_set@ == arm_table@.dom(),
            decreases arms.len(),
        {
            proof {
                lemma_labels_ordered();
            }
            let ghost n = arms@.len();
            let ghost before = arms_view(arm_table);
            let (l, body) = arms.pop().unwrap();
            assert(arms0[n - 1] == (l, body));
            assert(arms@ =~= arms0.take(n - 1));
            if !arm_table.contains_key(&l) {
                arm_table.insert(l, body);
                entry_set.insert(l);
                assert(arms_view(arm_table) =~= before.insert(l, body@));
                assert(entry_set@ =~= arm_table@.dom());
            } else {
                assert(before.contains_key(l));
            }
        }
        assert(arms_view(arm_table).dom() =~= arm_table@.dom());
        if arm_table.len() > 1 {
            put_entry(&mut self.multiples, entry_set, (join, arm_table));
        }
    }

    /// The record that is found under the set `entries` of entry labels,
    /// if there is one.
    pub fn get_multiple(&self, entries: &BTreeSet<u64>) -> (r: Option<&Multiple>)
        requires
            self.wf(),
        ensures
            match r {
                Some(m) => self@.contains_key(entries@) && self@[entries@] == multiple_view(*m)
                    && self@[entries@].1.dom().len() > 1,
                None => !self@.contains_key(entries@),
            },
    {
        match find_entry(&self.multiples, entries) {
            Some(i) => {
                proof {
                    lemma_entries_view_at(self.multiples@, i as int);
                }
                Some(&self.multiples[i].1)
            },
            None => None,
        }
    }

    /// Rewrites every label of the record by `rewrites`: the entry labels,
    /// the join labels, the labels at which arms start and the labels of
    /// their bodies. A label that `rewrites` does not hold stays as it is.
    /// The rewriting need not be one to one: its purpose is to merge
    /// labels. A branch point that is left with fewer than two arms is
    /// dropped. See [`rewritten`] for what holds where labels merge.
    pub fn rewrite_blocks(&mut self, rewrites: &HashMap<u64, u64>)
        requires
            old(self).wf(),
        ensures
            final(self).wf(),
            rewritten(old(self)@, rewrites@, final(self)@),
    {
        broadcast use vstd::std_specs::hash::group_hash_axioms;

        let ghost olds = self.multiples@;
        let ghost m = rewrites@;
        let mut out: Vec<(BTreeSet<u64>, Multiple)> = Vec::new();
        let mut i: usize = 0;
        while i < self.multiples.len()
            invariant
                i <= self.multiples.len(),
                olds == self.multiples@,
                m == rewrites@,
                distinct_keys(olds),
                distinct_keys(out@),
                many_arms(out@),
                forall|e2: Set<u64>| #[trigger]
                    entries_view(out@).contains_key(e2) ==> exists|j: int|
                        0 <= j < i && rw_set(m, (#[trigger] olds[j]).0@) == e2
                            && multiple_rewritten(
                            multiple_view(olds[j].1),
                            m,
                            entries_view(out@)[e2],
                        ),
                forall|j: int|
                    0 <= j < i && rw_set(m, arms_view((#[trigger] olds[j]).1.1).dom()).len() > 1
                        ==> entries_view(out@).contains_key(rw_set(m, olds[j].0@)),
            decreases self.multiples.len() - i,
        {
            let entries2 = rewrite_btree_set(&self.multiples[i].0, rewrites);
            let join2 = rewrite_label(rewrites, self.multiples[i].1.0);
            let arms2 = rewrite_arms(&self.multiples[i].1.1, rewrites);
            let ghost before = entries_view(out@);
            assert(arms_view(arms2).dom() =~= arms2@.dom());
            if arms2.len() > 1 {
                put_entry(&mut out, entries2, (join2, arms2));
                let ghost after = entries_view(out@);
                assert forall|e2: Set<u64>| #[trigger] after.contains_key(e2) implies exists|j: int|
                    0 <= j < i + 1 && rw_set(m, (#[trigger] olds[j]).0@) == e2
                        && multiple_rewritten(multiple_view(olds[j].1), m, after[e2]) by {
                    if e2 == entries2@ {
                        assert(rw_set(m, olds[i as int].0@) == e2 && multiple_rewritten(
                            multiple_view(olds[i as int].1),
                            m,
                            after[e2],
                        ));
                    } else {
                        assert(before.contains_key(e2));
                        let j = choose|j: int|
                            0 <= j < i && rw_set(m, (#[trigger] olds[j]).0@) == e2
                                && multiple_rewritten(multiple_view(olds[j].1), m, before[e2]);
                        assert(rw_set(m, olds[j].0@) == e2 && multiple_rewritten(
                            multiple_view(olds[j].1),
                            m,
                            after[e2],
                        ));
                    }
                }
                assert forall|j: int|
                    0 <= j < i + 1 && rw_set(m, arms_view((#[trigger] olds[j]).1.1).dom()).len()
                        > 1 implies after.contains_key(rw_set(m, olds[j].0@)) by {
                    if j < i {
                        assert(before.contains_key(rw_set(m, olds[j].0@)));
                    }
                }
            } else {
                assert forall|e2: Set<u64>| #[trigger]
                    entries_view(out@).contains_key(e2) implies exists|j: int|
                    0 <= j < i + 1 && rw_set(m, (#[trigger] olds[j]).0@) == e2
                        && multiple_rewritten(multiple_view(olds[j].1), m, entries_view(out@)[e2]) by {
                    let j = choose|j: int|
                        0 <= j < i && rw_set(m, (#[trigger] olds[j]).0@) == e2
                            && multiple_rewritten(multiple_view(olds[j].1), m, before[e2]);
                    assert(0 <= j < i + 1 && rw_set(m, olds[j].0@) == e2 && multiple_rewritten(
                        multiple_view(olds[j].1),
                        m,
                        before[e2],
                    ));
                }
            }
            i += 1;
        }
        proof {
            let new = entries_view(out@);
            let old_view = entries_view(olds);
            assert forall|e2: Set<u64>| #[trigger] new.contains_key(e2) implies new[e2].1.dom().len()
                > 1 && exists|e: Set<u64>| #[trigger]
                old_view.contains_key(e) && rw_set(m, e) == e2 && multiple_rewritten(
                    old_view[e],
                    m,
                    new[e2],
                ) by {
                let k = key_index(out@, e2);
                lemma_entries_view_at(out@, k);
                let j = choose|j: int|
                    0 <= j < olds.len() && rw_set(m, (#[trigger] olds[j]).0@) == e2
                        && multiple_rewritten(multiple_view(olds[j].1), m, new[e2]);
                lemma_entries_view_at(olds, j);
                let e = olds[j].0@;
                assert(old_view.contains_key(e) && rw_set(m, e) == e2 && multiple_rewritten(
                    old_view[e],
                    m,
                    new[e2],
                ));
            }
            assert forall|e: Set<u64>| #[trigger]
                old_view.contains_key(e) && rw_set(m, old_view[e].1.dom()).len()
                    > 1 implies new.contains_key(rw_set(m, e)) by {
                let j = key_index(olds, e);
                lemma_entries_view_at(olds, j);
                assert(rw_set(m, arms_view(olds[j].1.1).dom()).len() > 1);
            }
        }
        self.multiples = out;
    }
}

/// Whether `rewrites` merges no labels: different labels stay different.
pub open spec fn one_to_one(rewrites: Map<u64, u64>) -> bool {
    forall|a: u64, b: u64| rw(rewrites, a) == rw(rewrites, b) ==> a == b
}

/// The arms `a` with every label rewritten, where `rewrites` merges no
/// labels.
pub open spec fn arms_image(a: SpecArms, rewrites: Map<u64, u64>) -> SpecArms {
    Map::new(
        |l2: u64| exists|l: u64| #[trigger] a.contains_key(l) && rw(rewrites, l) == l2,
        |l2: u64|
            rw_set(
                rewrites,
                a[choose|l: u64| #[trigger] a.contains_key(l) && rw(rewrites, l) == l2],
            ),
    )
}

/// The records `old` with every label rewritten, where `rewrites` merges
/// no labels.
pub open spec fn records_image(old: Map<Set<u64>, SpecMultiple>, rewrites: Map<u64, u64>) -> Map<
    Set<u64>,
    SpecMultiple,
> {
    Map::new(
        |e2: Set<u64>| exists|e: Set<u64>| #[trigger] old.contains_key(e) && rw_set(rewrites, e) == e2,
        |e2: Set<u64>|
            {
                let e = choose|e: Set<u64>| #[trigger]
                    old.contains_key(e) && rw_set(rewrites, e) == e2;
                (rw(rewrites, old[e].0), arms_image(old[e].1, rewrites))
            },
    )
}

proof fn lemma_rw_set_one_to_one(m: Map<u64, u64>, e1: Set<u64>, e2: Set<u64>)
    requires
        one_to_one(m),
        rw_set(m, e1) == rw_set(m, e2),
    ensures
        e1 == e2,
{
    assert forall|x: u64| e1.contains(x) <==> e2.contains(x) by {
        if e1.contains(x) {
            assert(rw_set(m, e1).contains(rw(m, x)));
            let y = choose|y: u64| e2.contains(y) && rw(m, y) == rw(m, x);
            assert(y == x);
        }
        if e2.contains(x) {
            assert(rw_set(m, e2).contains(rw(m, x)));
            let y = choose|y: u64| e1.contains(y) && rw(m, y) == rw(m, x);
            assert(y == x);
        }
    }
    assert(e1 =~= e2);
}

proof fn lemma_arms_one_to_one(a: SpecArms, m: Map<u64, u64>, a2: SpecArms)
    requires
        one_to_one(m),
        arms_rewritten(a, m, a2),
    ensures
        a2 == arms_image(a, m),
{
    let img = arms_image(a, m);
    assert forall|l2: u64| a2.contains_key(l2) <==> img.contains_key(l2) by {
        if a2.contains_key(l2) {
            assert(rw_set(m, a.dom()).contains(l2));
            let l = choose|l: u64| a.dom().contains(l) && rw(m, l) == l2;
            assert(a.contains_key(l) && rw(m, l) == l2);
        }
        if img.contains_key(l2) {
            let l = choose|l: u64| #[trigger] a.contains_key(l) && rw(m, l) == l2;
            assert(a.dom().contains(l));
            assert(rw_set(m, a.dom()).contains(l2));
        }
    }
    assert forall|l2: u64| a2.contains_key(l2) implies a2[l2] == img[l2] by {
        let l = choose|l: u64| #[trigger] a.contains_key(l) && rw(m, l) == l2 && a2[l2] == rw_set(
            m,
            a[l],
        );
        let k = choose|k: u64| #[trigger] a.contains_key(k) && rw(m, k) == l2;
        assert(k == l);
    }
    assert(a2 =~= img);
}

/// Where the rewriting merges no labels, the records after
/// [`MultipleInfo::rewrite_blocks`] are exactly the records before, with
/// every label rewritten: none is dropped, and none stands for two.
pub proof fn lemma_rewrite_one_to_one(
    old: Map<Set<u64>, SpecMultiple>,
    rewrites: Map<u64, u64>,
    new: Map<Set<u64>, SpecMultiple>,
)
    requires
        rewritten(old, rewrites, new),
        one_to_one(rewrites),
        forall|e: Set<u64>| #[trigger]
            old.contains_key(e) ==> old[e].1.dom().finite() && old[e].1.dom().len() > 1,
    ensures
        new == records_image(old, rewrites),
{
    let m = rewrites;
    let img = records_image(old, m);
    assert forall|e2: Set<u64>| new.contains_key(e2) <==> img.contains_key(e2) by {
        if new.contains_key(e2) {
            let e = choose|e: Set<u64>| #[trigger]
                old.contains_key(e) && rw_set(m, e) == e2 && multiple_rewritten(
                    old[e],
                    m,
                    new[e2],
                );
            assert(old.contains_key(e) && rw_set(m, e) == e2);
        }
        if img.contains_key(e2) {
            let e = choose|e: Set<u64>| #[trigger] old.contains_key(e) && rw_set(m, e) == e2;
            let f = |l: u64| rw(m, l);
            assert(vstd::relations::injective_on(f, old[e].1.dom()));
            vstd::set_lib::lemma_map_size(old[e].1.dom(), rw_set(m, old[e].1.dom()), f);
        }
    }
    assert forall|e2: Set<u64>| new.contains_key(e2) implies new[e2] == img[e2] by {
        let e = choose|e: Set<u64>| #[trigger]
            old.contains_key(e) && rw_set(m, e) == e2 && multiple_rewritten(old[e], m, new[e2]);
        let k = choose|k: Set<u64>| #[trigger] old.contains_key(k) && rw_set(m, k) == e2;
        lemma_rw_set_one_to_one(m, e, k);
        lemma_arms_one_to_one(old[e].1, m, new[e2].1);
    }
    assert(new =~= img);
}

/// Rewriting no label leaves each record as it is.
pub proof fn lemma_rewrite_nothing(old: Map<Set<u64>, SpecMultiple>)
    ensures
        one_to_one(Map::<u64, u64>::empty()),
        records_image(old, Map::<u64, u64>::empty()) == old,
{
    let m = Map::<u64, u64>::empty();
    let img = records_image(old, m);
    assert forall|s: Set<u64>| rw_set(m, s) == s by {
        assert forall|x: u64| rw_set(m, s).contains(x) <==> s.contains(x) by {
            if s.contains(x) {
                assert(rw(m, x) == x);
            }
        }
        assert(rw_set(m, s) =~= s);
    }
    assert forall|a: SpecArms| arms_image(a, m) == a by {
        let b = arms_image(a, m);
        assert forall|l: u64| b.contains_key(l) <==> a.contains_key(l) by {
            if a.contains_key(l) {
                assert(a.contains_key(l) && rw(m, l) == l);
            }
        }
        assert forall|l: u64| b.contains_key(l) implies b[l] == a[l] by {
            let k = choose|k: u64| #[trigger] a.contains_key(k) && rw(m, k) == l;
            assert(k == l);
            assert(rw_set(m, a[k]) == a[k]);
        }
        assert(b =~= a);
    }
    assert forall|e: Set<u64>| img.contains_key(e) <==> old.contains_key(e) by {
        if old.contains_key(e) {
            assert(old.contains_key(e) && rw_set(m, e) == e);
        }
        if img.contains_key(e) {
            let k = choose|k: Set<u64>| #[trigger] old.contains_key(k) && rw_set(m, k) == e;
            assert(rw_set(m, k) == k);
        }
    }
    assert forall|e: Set<u64>| img.contains_key(e) implies img[e] == old[e] by {
        let k = choose|k: Set<u64>| #[trigger] old.contains_key(k) && rw_set(m, k) == e;
        assert(rw_set(m, k) == k);
        assert(arms_image(old[k].1, m) == old[k].1);
    }
    assert(img =~= old);
}

impl MultipleInfo {
    /// Every record has finitely many arms, and more than one.
    pub proof fn lemma_records_have_arms(self)
        requires
            self.wf(),
        ensures
            forall|e: Set<u64>| #[trigger]
                self@.contains_key(e) ==> self@[e].1.dom().finite() && self@[e].1.dom().len() > 1,
    {
        broadcast use vstd::std_specs::hash::group_hash_axioms;

        assert forall|e: Set<u64>| #[trigger] self@.contains_key(e) implies self@[e].1.dom().finite()
            && self@[e].1.dom().len() > 1 by {
            let i = key_index(self.multiples@, e);
            lemma_entries_view_at(self.multiples@, i);
            let a = self.multiples@[i].1.1;
            assert(arms_view(a).dom() =~= a@.dom());
        }
    }
}

} // verus!
