//! Sets of inequalities between permission expressions.
//!
//! A constraint `(a, b)` reads `a <= b`. An assignment of concrete
//! permissions to the variables satisfies a set when every constraint of the
//! set holds under it.

use vstd::prelude::*;
use crate::perm::{Assignment, ConcretePerm, Perm, PermFilter, PermVar, SpecPerm, Valuation};
use crate::perm::{evals, lemma_eval_min, lemma_min_of_bounds, lemma_min_view, perm_views};
use crate::perm::{lemma_atom_bounds, lemma_concrete_bounds, lemma_eval_is_atom};
use crate::perm::{lemma_atom_mentions, lemma_mentions_bounds, lemma_norm_eval};
use crate::perm::{lemma_eval_monotone, lemma_has_atom_operand, lemma_norm_mentions, pointwise_le};
use crate::perm::{lemma_eval_agree, lemma_norm_idempotent};

verus! {

/// An inequality `lhs <= rhs`, as a mathematical value.
pub type SpecConstraint = (SpecPerm, SpecPerm);

/// Whether `c` holds when the variables are assigned by `s`.
pub open spec fn holds(c: SpecConstraint, s: Valuation) -> bool {
    c.0.eval(s).spec_le(c.1.eval(s))
}

/// Whether every constraint of `cs` holds under `s`.
pub open spec fn satisfies(cs: Set<SpecConstraint>, s: Valuation) -> bool {
    forall|c: SpecConstraint| cs.contains(c) ==> holds(c, s)
}

/// Whether `c` mentions variable `v` on either side.
pub open spec fn constraint_mentions(c: SpecConstraint, v: PermVar) -> bool {
    c.0.mentions(v) || c.1.mentions(v)
}

/// The views of the pairs in `ps`, in order.
pub open spec fn pair_views(ps: Seq<(Perm, Perm)>) -> Seq<SpecConstraint> {
    ps.map_values(|p: (Perm, Perm)| (p.0@, p.1@))
}

/// A set of constraints.
pub struct ConstraintSet {
    pairs: Vec<(Perm, Perm)>,
}

impl View for ConstraintSet {
    type V = Set<SpecConstraint>;

    open spec fn view(&self) -> Set<SpecConstraint> {
        self.entries().to_set()
    }
}

pub proof fn lemma_take_step<T>(s: Seq<T>, i: int)
    requires
        0 <= i < s.len(),
    ensures
        s.take(i + 1).to_set() == s.take(i).to_set().insert(s[i]),
        s.take(i + 1) == s.take(i).push(s[i]),
{
    let a = s.take(i + 1);
    let b = s.take(i);
    assert(a =~= b.push(s[i]));
    assert forall|x: T| a.to_set().contains(x) <==> b.to_set().insert(s[i]).contains(x) by {
        if a.to_set().contains(x) {
            let j = choose|j: int| 0 <= j < a.len() && a[j] == x;
            if j < i {
                assert(b[j] == x);
            }
        }
        if b.to_set().insert(s[i]).contains(x) {
            if x == s[i] {
                assert(a[i] == x);
            } else {
                let j = choose|j: int| 0 <= j < b.len() && b[j] == x;
                assert(a[j] == x);
            }
        }
    }
    assert(a.to_set() =~= b.to_set().insert(s[i]));
}

impl ConstraintSet {
    /// The constraints in the order in which they are stored. No constraint
    /// occurs twice.
    pub closed spec fn entries(&self) -> Seq<SpecConstraint> {
        pair_views(self.pairs@)
    }

    /// No constraint is stored twice. Every operation of this type keeps
    /// this.
    pub open spec fn wf(&self) -> bool {
        self.entries().no_duplicates()
    }

    /// The empty set.
    pub fn new() -> (r: ConstraintSet)
        ensures
            r@ == Set::<SpecConstraint>::empty(),
            r.entries() == Seq::<SpecConstraint>::empty(),
            r.wf(),
    {
        let r = ConstraintSet { pairs: Vec::new() };
        assert(r.entries() =~= Seq::<SpecConstraint>::empty());
        assert(r@ =~= Set::<SpecConstraint>::empty());
        r
    }

    /// The number of constraints.
    pub fn len(&self) -> (r: usize)
        ensures
            r == self.entries().len(),
            self.wf() ==> r == self@.len(),
    {
        proof {
            if self.wf() {
                self.entries().unique_seq_to_set();
            }
        }
        self.pairs.len()
    }

    /// The constraints, each once, in the order in which they were first
    /// added.
    pub fn pairs(&self) -> (r: &Vec<(Perm, Perm)>)
        ensures
            pair_views(r@) == self.entries(),
    {
        &self.pairs
    }

    /// Whether the set holds `a <= b`.
    pub fn contains(&self, a: &Perm, b: &Perm) -> (r: bool)
        ensures
            r == self@.contains((a@, b@)),
    {
        let mut i: usize = 0;
        while i < self.pairs.len()
            invariant
                i <= self.pairs.len(),
                forall|j: int| 0 <= j < i ==> self.entries()[j] != (a@, b@),
            decreases self.pairs.len() - i,
        {
            if self.pairs[i].0.same(a) && self.pairs[i].1.same(b) {
                assert(self.entries()[i as int] == (a@, b@));
                return true;
            }
            i += 1;
        }
        false
    }

    /// Records `a <= b`. Adding a constraint that the set already holds
    /// changes nothing.
    pub fn add(&mut self, a: Perm, b: Perm)
        ensures
            final(self)@ == old(self)@.insert((a@, b@)),
            old(self)@.contains((a@, b@)) ==> final(self).entries() == old(self).entries(),
            !old(self)@.contains((a@, b@)) ==> final(self).entries() == old(self).entries().push(
                (a@, b@),
            ),
            old(self).wf() ==> final(self).wf(),
    {
        if !self.contains(&a, &b) {
            let ghost before = self.entries();
            self.pairs.push((a, b));
            proof {
                assert(self.entries() =~= before.push((a@, b@)));
                lemma_take_step(self.entries(), before.len() as int);
                assert(self.entries().take(before.len() as int) =~= before);
                assert(self.entries().take(before.len() as int + 1) =~= self.entries());
            }
        } else {
            assert(self@ =~= self@.insert((a@, b@)));
        }
    }
}

/// Whether `a <= y` holds by the lattice alone, for `y` that is not a `Min`:
/// `y` is `Move`, or `a` holds a concrete permission that is at most `y`, or
/// `y` is a variable and `a` mentions it or holds `Read`.
pub open spec fn below_atom(a: SpecPerm, y: SpecPerm) -> bool {
    match y {
        SpecPerm::Concrete(c) => c == ConcretePerm::Move || a.has_concrete_le(c),
        SpecPerm::Var(v) => a.mentions(v) || a.has_concrete_le(ConcretePerm::Read),
        SpecPerm::Min(_) => false,
    }
}

/// Whether `a <= b` holds by the lattice alone: `a` is below every atom of
/// `b`. [`lemma_trivial_iff_valid`] shows that these are the constraints
/// that every assignment satisfies.
pub open spec fn trivial(a: SpecPerm, b: SpecPerm) -> bool
    decreases b,
{
    match b {
        SpecPerm::Min(qs) => forall|i: int| 0 <= i < qs.len() ==> trivial(a, #[trigger] qs[i]),
        _ => below_atom(a, b),
    }
}

/// The assignment of `Move` to every variable.
pub open spec fn all_move() -> Valuation {
    |v: PermVar| ConcretePerm::Move
}

/// The assignment of `Read` to `v` and of `Move` to every other variable.
pub open spec fn read_at(v: PermVar) -> Valuation {
    |w: PermVar|
        if w == v {
            ConcretePerm::Read
        } else {
            ConcretePerm::Move
        }
}

proof fn lemma_trivial_sound(a: SpecPerm, b: SpecPerm, s: Valuation)
    requires
        trivial(a, b),
    ensures
        holds((a, b), s),
    decreases b,
{
    match b {
        SpecPerm::Min(qs) => {
            lemma_eval_min(qs, s);
            lemma_min_of_bounds(evals(qs, s));
            if b.eval(s) != ConcretePerm::Move {
                let es = evals(qs, s);
                let i = choose|i: int| 0 <= i < es.len() && es[i] == b.eval(s);
                assert(trivial(a, qs[i]));
                lemma_trivial_sound(a, qs[i], s);
            }
        },
        SpecPerm::Concrete(c) => {
            if c != ConcretePerm::Move {
                lemma_concrete_bounds(a, c, s);
            }
        },
        SpecPerm::Var(v) => {
            if a.mentions(v) {
                lemma_mentions_bounds(a, v, s);
            } else {
                lemma_concrete_bounds(a, ConcretePerm::Read, s);
            }
        },
    }
}

proof fn lemma_above_concrete(a: SpecPerm, c: ConcretePerm)
    requires
        !a.has_concrete_le(c),
        c != ConcretePerm::Move,
    ensures
        !a.eval(all_move()).spec_le(c),
    decreases a,
{
    match a {
        SpecPerm::Min(ps) => {
            let s = all_move();
            lemma_eval_min(ps, s);
            lemma_min_of_bounds(evals(ps, s));
            if a.eval(s) != ConcretePerm::Move {
                let es = evals(ps, s);
                let i = choose|i: int| 0 <= i < es.len() && es[i] == a.eval(s);
                assert(!ps[i].has_concrete_le(c));
                lemma_above_concrete(ps[i], c);
            }
        },
        _ => {},
    }
}

proof fn lemma_above_read(a: SpecPerm, v: PermVar)
    requires
        !a.has_concrete_le(ConcretePerm::Read),
        !a.mentions(v),
    ensures
        a.eval(read_at(v)) != ConcretePerm::Read,
    decreases a,
{
    match a {
        SpecPerm::Min(ps) => {
            let s = read_at(v);
            lemma_eval_min(ps, s);
            lemma_min_of_bounds(evals(ps, s));
            if a.eval(s) != ConcretePerm::Move {
                let es = evals(ps, s);
                let i = choose|i: int| 0 <= i < es.len() && es[i] == a.eval(s);
                assert(!ps[i].has_concrete_le(ConcretePerm::Read));
                assert(!ps[i].mentions(v));
                lemma_above_read(ps[i], v);
            }
        },
        _ => {},
    }
}

proof fn lemma_trivial_complete(a: SpecPerm, b: SpecPerm) -> (s: Valuation)
    requires
        !trivial(a, b),
    ensures
        !holds((a, b), s),
    decreases b,
{
    match b {
        SpecPerm::Min(qs) => {
            let i = choose|i: int| 0 <= i < qs.len() && !trivial(a, #[trigger] qs[i]);
            let s = lemma_trivial_complete(a, qs[i]);
            lemma_eval_min(qs, s);
            lemma_min_of_bounds(evals(qs, s));
            assert(evals(qs, s)[i] == qs[i].eval(s));
            s
        },
        SpecPerm::Concrete(c) => {
            lemma_above_concrete(a, c);
            all_move()
        },
        SpecPerm::Var(v) => {
            lemma_above_read(a, v);
            read_at(v)
        },
    }
}

/// The constraints that hold by the lattice alone are those that hold under
/// every assignment.
pub proof fn lemma_trivial_iff_valid(a: SpecPerm, b: SpecPerm)
    ensures
        trivial(a, b) <==> (forall|s: Valuation| holds((a, b), s)),
{
    if trivial(a, b) {
        assert forall|s: Valuation| holds((a, b), s) by {
            lemma_trivial_sound(a, b, s);
        }
    } else {
        let s = lemma_trivial_complete(a, b);
        assert(!holds((a, b), s));
    }
}

/// `cs` without the constraints that hold by the lattice alone.
pub open spec fn spec_remove_useless(cs: Set<SpecConstraint>) -> Set<SpecConstraint> {
    cs.filter(|c: SpecConstraint| !trivial(c.0, c.1))
}

/// The constraints `a <= y` for `a <= b` in `cs` and `y` an atom of `b`.
pub open spec fn spec_expand_min_rhs(cs: Set<SpecConstraint>) -> Set<SpecConstraint> {
    Set::new(
        |c: SpecConstraint| exists|b: SpecPerm| #[trigger] cs.contains((c.0, b)) && b.has_atom(c.1),
    )
}

/// The constraints of `cs`, each with its left side in normal form.
pub open spec fn spec_simplify_min_lhs(cs: Set<SpecConstraint>) -> Set<SpecConstraint> {
    Set::new(
        |c: SpecConstraint| exists|a: SpecPerm| #[trigger] cs.contains((a, c.1)) && a.norm() == c.0,
    )
}

/// Whether `keeps` holds of every variable that `c` mentions.
pub open spec fn only_kept(c: SpecConstraint, keeps: spec_fn(PermVar) -> bool) -> bool {
    forall|v: PermVar| constraint_mentions(c, v) ==> keeps(v)
}

/// The rule of `filter`, as a predicate on variables.
pub open spec fn keeps_fn<F: PermFilter>(filter: F) -> spec_fn(PermVar) -> bool {
    |v: PermVar| filter.keeps(v)
}

/// The constraints of `cs` that mention no variable but those that `keeps`
/// holds of.
pub open spec fn spec_retain(cs: Set<SpecConstraint>, keeps: spec_fn(PermVar) -> bool) -> Set<
    SpecConstraint,
> {
    cs.filter(|c: SpecConstraint| only_kept(c, keeps))
}

/// Left sides in normal form, right sides split into their atoms, and what
/// then holds by the lattice alone removed.
pub open spec fn spec_simplify(cs: Set<SpecConstraint>) -> Set<SpecConstraint> {
    spec_remove_useless(spec_expand_min_rhs(spec_simplify_min_lhs(cs)))
}

/// The constraints `a <= y` for the atoms `y` of `b`.
pub open spec fn atom_constraints(a: SpecPerm, b: SpecPerm) -> Set<SpecConstraint> {
    Set::new(|c: SpecConstraint| c.0 == a && b.has_atom(c.1))
}

proof fn lemma_expand_insert(cs: Set<SpecConstraint>, x: SpecConstraint)
    ensures
        spec_expand_min_rhs(cs.insert(x)) == spec_expand_min_rhs(cs).union(
            atom_constraints(x.0, x.1),
        ),
{
    let l = spec_expand_min_rhs(cs.insert(x));
    let r = spec_expand_min_rhs(cs).union(atom_constraints(x.0, x.1));
    assert forall|c: SpecConstraint| l.contains(c) <==> r.contains(c) by {
        if l.contains(c) {
            let b = choose|b: SpecPerm| #[trigger] cs.insert(x).contains((c.0, b)) && b.has_atom(c.1);
            if (c.0, b) != x {
                assert(cs.contains((c.0, b)));
            }
        }
        if spec_expand_min_rhs(cs).contains(c) {
            let b = choose|b: SpecPerm| #[trigger] cs.contains((c.0, b)) && b.has_atom(c.1);
            assert(cs.insert(x).contains((c.0, b)));
        }
        if atom_constraints(x.0, x.1).contains(c) {
            assert(cs.insert(x).contains((c.0, x.1)));
        }
    }
    assert(l =~= r);
}

proof fn lemma_norm_lhs_insert(cs: Set<SpecConstraint>, x: SpecConstraint)
    ensures
        spec_simplify_min_lhs(cs.insert(x)) == spec_simplify_min_lhs(cs).insert(
            (x.0.norm(), x.1),
        ),
{
    let l = spec_simplify_min_lhs(cs.insert(x));
    let r = spec_simplify_min_lhs(cs).insert((x.0.norm(), x.1));
    assert forall|c: SpecConstraint| l.contains(c) <==> r.contains(c) by {
        if l.contains(c) {
            let a = choose|a: SpecPerm| #[trigger] cs.insert(x).contains((a, c.1)) && a.norm() == c.0;
            if (a, c.1) != x {
                assert(cs.contains((a, c.1)));
            }
        }
        if spec_simplify_min_lhs(cs).contains(c) {
            let a = choose|a: SpecPerm| #[trigger] cs.contains((a, c.1)) && a.norm() == c.0;
            assert(cs.insert(x).contains((a, c.1)));
        }
        if c == (x.0.norm(), x.1) {
            assert(cs.insert(x).contains((x.0, c.1)));
        }
    }
    assert(l =~= r);
}

/// Whether `a <= b` holds by the lattice alone.
pub fn is_trivial(a: &Perm, b: &Perm) -> (r: bool)
    ensures
        r == trivial(a@, b@),
    decreases b,
{
    match b {
        Perm::Min(qs) => {
            proof {
                lemma_min_view(*qs);
            }
            let mut i: usize = 0;
            #[verifier::loop_isolation(false)]
            while i < qs.len()
                invariant
                    i <= qs.len(),
                    forall|j: int| 0 <= j < i ==> trivial(a@, qs@[j]@),
                decreases qs.len() - i,
            {
                if !is_trivial(a, &qs[i]) {
                    assert(b@->Min_0[i as int] == qs@[i as int]@);
                    return false;
                }
                i += 1;
            }
            assert forall|j: int| 0 <= j < perm_views(qs@).len() implies trivial(
                a@,
                #[trigger] perm_views(qs@)[j],
            ) by {
                assert(perm_views(qs@)[j] == qs@[j]@);
            }
            true
        },
        Perm::Concrete(c) => {
            match c {
                ConcretePerm::Move => true,
                _ => a.has_concrete_le(*c),
            }
        },
        _ => {
            match b.as_var() {
                Some(v) => a.mentions(v) || a.has_concrete_le(ConcretePerm::Read),
                None => false,
            }
        },
    }
}

impl ConstraintSet {
    /// A copy of the set.
    pub fn duplicate(&self) -> (r: ConstraintSet)
        ensures
            r@ == self@,
            r.entries() == self.entries(),
    {
        let mut out: Vec<(Perm, Perm)> = Vec::new();
        let mut i: usize = 0;
        while i < self.pairs.len()
            invariant
                i <= self.pairs.len(),
                out.len() == i,
                forall|j: int| 0 <= j < i ==> pair_views(out@)[j] == self.entries()[j],
            decreases self.pairs.len() - i,
        {
            out.push((self.pairs[i].0.duplicate(), self.pairs[i].1.duplicate()));
            i += 1;
        }
        let r = ConstraintSet { pairs: out };
        assert(r.entries() =~= self.entries());
        r
    }

    /// Adds every constraint of `other`.
    pub fn import(&mut self, other: &ConstraintSet)
        ensures
            final(self)@ == old(self)@.union(other@),
            old(self).wf() ==> final(self).wf(),
    {
        let mut i: usize = 0;
        while i < other.pairs.len()
            invariant
                i <= other.pairs.len(),
                self@ == old(self)@.union(other.entries().take(i as int).to_set()),
                old(self).wf() ==> self.wf(),
            decreases other.pairs.len() - i,
        {
            proof {
                lemma_take_step(other.entries(), i as int);
            }
            self.add(other.pairs[i].0.duplicate(), other.pairs[i].1.duplicate());
            assert(self@ =~= old(self)@.union(other.entries().take(i as int + 1).to_set()));
            i += 1;
        }
        assert(other.entries().take(other.pairs.len() as int) =~= other.entries());
    }

    /// Drops the constraints that hold by the lattice alone, such as
    /// `Read <= x`, `x <= Move` or `x <= x`: they say nothing.
    pub fn remove_useless(&mut self)
        ensures
            final(self)@ == spec_remove_useless(old(self)@),
            final(self).wf(),
    {
        let mut out = ConstraintSet::new();
        let mut i: usize = 0;
        while i < self.pairs.len()
            invariant
                i <= self.pairs.len(),
                out@ == spec_remove_useless(self.entries().take(i as int).to_set()),
                out.wf(),
            decreases self.pairs.len() - i,
        {
            proof {
                lemma_take_step(self.entries(), i as int);
            }
            let ghost before = out@;
            if !is_trivial(&self.pairs[i].0, &self.pairs[i].1) {
                out.add(self.pairs[i].0.duplicate(), self.pairs[i].1.duplicate());
            }
            assert(out@ =~= spec_remove_useless(self.entries().take(i as int + 1).to_set()));
            i += 1;
        }
        assert(self.entries().take(self.pairs.len() as int) =~= self.entries());
        *self = out;
    }

    /// Adds `a <= y` for every atom `y` of `b`.
    fn add_rhs_atoms(&mut self, a: &Perm, b: &Perm)
        ensures
            final(self)@ == old(self)@.union(atom_constraints(a@, b@)),
            old(self).wf() ==> final(self).wf(),
        decreases b,
    {
        match b {
            Perm::Min(qs) => {
                proof {
                    lemma_min_view(*qs);
                }
                let mut i: usize = 0;
                #[verifier::loop_isolation(false)]
                while i < qs.len()
                    invariant
                        i <= qs.len(),
                        self@ == old(self)@.union(
                            Set::new(
                                |c: SpecConstraint|
                                    c.0 == a@ && exists|j: int|
                                        0 <= j < i && (#[trigger] qs@[j])@.has_atom(c.1),
                            ),
                        ),
                        old(self).wf() ==> self.wf(),
                    decreases qs.len() - i,
                {
                    let ghost before = self@;
                    self.add_rhs_atoms(a, &qs[i]);
                    proof {
                        let prev = Set::new(
                            |c: SpecConstraint|
                                c.0 == a@ && exists|j: int|
                                    0 <= j < i && (#[trigger] qs@[j])@.has_atom(c.1),
                        );
                        let next = Set::new(
                            |c: SpecConstraint|
                                c.0 == a@ && exists|j: int|
                                    0 <= j < i + 1 && (#[trigger] qs@[j])@.has_atom(c.1),
                        );
                        assert forall|c: SpecConstraint| next.contains(c) <==> (prev.contains(c)
                            || atom_constraints(a@, qs@[i as int]@).contains(c)) by {
                            if next.contains(c) {
                                let j = choose|j: int|
                                    0 <= j < i + 1 && (#[trigger] qs@[j])@.has_atom(c.1);
                                if j < i {
                                    assert(prev.contains(c));
                                }
                            }
                            if prev.contains(c) {
                                let j = choose|j: int|
                                    0 <= j < i && (#[trigger] qs@[j])@.has_atom(c.1);
                                assert(0 <= j < i + 1 && qs@[j]@.has_atom(c.1));
                            }
                            if atom_constraints(a@, qs@[i as int]@).contains(c) {
                                assert(qs@[i as int]@.has_atom(c.1));
                            }
                        }
                        assert(self@ =~= old(self)@.union(next));
                    }
                    i += 1;
                }
                proof {
                    let all = Set::new(
                        |c: SpecConstraint|
                            c.0 == a@ && exists|j: int|
                                0 <= j < i && (#[trigger] qs@[j])@.has_atom(c.1),
                    );
                    assert forall|c: SpecConstraint| all.contains(c) <==> atom_constraints(
                        a@,
                        b@,
                    ).contains(c) by {
                        if all.contains(c) {
                            let j = choose|j: int|
                                0 <= j < i && (#[trigger] qs@[j])@.has_atom(c.1);
                            assert(perm_views(qs@)[j] == qs@[j]@);
                            lemma_has_atom_operand(perm_views(qs@), j, c.1);
                        }
                        if atom_constraints(a@, b@).contains(c) {
                            let j = choose|j: int|
                                0 <= j < perm_views(qs@).len() && (#[trigger] perm_views(
                                    qs@,
                                )[j]).has_atom(c.1);
                            assert(qs@[j]@.has_atom(c.1));
                        }
                    }
                    assert(all =~= atom_constraints(a@, b@));
                }
            },
            _ => {
                self.add(a.duplicate(), b.duplicate());
                assert(atom_constraints(a@, b@) =~= Set::<SpecConstraint>::empty().insert(
                    (a@, b@),
                ));
                assert(self@ =~= old(self)@.union(atom_constraints(a@, b@)));
            },
        }
    }

    /// Replaces `a <= min(b1, .., bn)` by `a <= b1`, .., `a <= bn`, at any
    /// depth of nesting. The set has the same solutions before and after.
    pub fn expand_min_rhs(&mut self)
        ensures
            final(self)@ == spec_expand_min_rhs(old(self)@),
            final(self).wf(),
    {
        let mut out = ConstraintSet::new();
        let mut i: usize = 0;
        assert(out@ =~= spec_expand_min_rhs(self.entries().take(0).to_set()));
        while i < self.pairs.len()
            invariant
                i <= self.pairs.len(),
                out@ == spec_expand_min_rhs(self.entries().take(i as int).to_set()),
                out.wf(),
            decreases self.pairs.len() - i,
        {
            proof {
                lemma_take_step(self.entries(), i as int);
                lemma_expand_insert(self.entries().take(i as int).to_set(), self.entries()[i as int]);
            }
            out.add_rhs_atoms(&self.pairs[i].0, &self.pairs[i].1);
            i += 1;
        }
        assert(self.entries().take(self.pairs.len() as int) =~= self.entries());
        *self = out;
    }

    /// Brings the left side of every constraint into normal form. A minimum
    /// on the left is never split into one constraint per operand, which
    /// would ask for more than the constraint does; it stays a minimum, with
    /// nested minima flattened, repeated operands and `Move` dropped, and
    /// `Read` absorbing the rest. Only a minimum of a single operand becomes
    /// that operand. The set has the same solutions before and after.
    pub fn simplify_min_lhs(&mut self)
        ensures
            final(self)@ == spec_simplify_min_lhs(old(self)@),
            final(self).wf(),
    {
        let mut out = ConstraintSet::new();
        let mut i: usize = 0;
        assert(out@ =~= spec_simplify_min_lhs(self.entries().take(0).to_set()));
        while i < self.pairs.len()
            invariant
                i <= self.pairs.len(),
                out@ == spec_simplify_min_lhs(self.entries().take(i as int).to_set()),
                out.wf(),
            decreases self.pairs.len() - i,
        {
            proof {
                lemma_take_step(self.entries(), i as int);
                lemma_norm_lhs_insert(
                    self.entries().take(i as int).to_set(),
                    self.entries()[i as int],
                );
            }
            out.add(self.pairs[i].0.normalize(), self.pairs[i].1.duplicate());
            i += 1;
        }
        assert(self.entries().take(self.pairs.len() as int) =~= self.entries());
        *self = out;
    }

    /// Removes every constraint that mentions a variable that `filter` does
    /// not keep.
    pub fn retain_perms<F: PermFilter>(&mut self, filter: &F)
        ensures
            final(self)@ == spec_retain(old(self)@, keeps_fn(*filter)),
            final(self).wf(),
    {
        let ghost keeps = keeps_fn(*filter);
        let mut out = ConstraintSet::new();
        let mut i: usize = 0;
        while i < self.pairs.len()
            invariant
                i <= self.pairs.len(),
                keeps == keeps_fn(*filter),
                out@ == spec_retain(self.entries().take(i as int).to_set(), keeps),
                out.wf(),
            decreases self.pairs.len() - i,
        {
            proof {
                lemma_take_step(self.entries(), i as int);
            }
            let keep_l = self.pairs[i].0.all_vars_kept(filter);
            let keep_r = self.pairs[i].1.all_vars_kept(filter);
            if keep_l && keep_r {
                assert(only_kept(self.entries()[i as int], keeps));
                out.add(self.pairs[i].0.duplicate(), self.pairs[i].1.duplicate());
            } else {
                assert(!only_kept(self.entries()[i as int], keeps)) by {
                    let c = self.entries()[i as int];
                    if !keep_l {
                        let v = choose|v: PermVar| c.0.mentions(v) && !filter.keeps(v);
                        assert(constraint_mentions(c, v) && !keeps(v));
                    } else {
                        let v = choose|v: PermVar| c.1.mentions(v) && !filter.keeps(v);
                        assert(constraint_mentions(c, v) && !keeps(v));
                    }
                }
            }
            assert(out@ =~= spec_retain(self.entries().take(i as int + 1).to_set(), keeps));
            i += 1;
        }
        assert(self.entries().take(self.pairs.len() as int) =~= self.entries());
        *self = out;
    }

    /// Whether `assign` satisfies the set: every constraint `a <= b` holds
    /// when `a` and `b` are evaluated under `assign`.
    pub fn satisfied_by(&self, assign: &Assignment) -> (r: bool)
        ensures
            r == satisfies(self@, assign.valuation()),
    {
        let mut i: usize = 0;
        while i < self.pairs.len()
            invariant
                i <= self.pairs.len(),
                forall|j: int| 0 <= j < i ==> holds(#[trigger] self.entries()[j], assign.valuation()),
            decreases self.pairs.len() - i,
        {
            let a = self.pairs[i].0.eval(assign);
            let b = self.pairs[i].1.eval(assign);
            if !a.leq(b) {
                assert(!holds(self.entries()[i as int], assign.valuation()));
                assert(self@.contains(self.entries()[i as int]));
                return false;
            }
            i += 1;
        }
        true
    }

    /// Brings the set into its simplest form: every left side in normal
    /// form, every minimum on a right side split into its atoms, and no
    /// constraint left that holds by the lattice alone. The set has the same
    /// solutions before and after ([`lemma_simplify_equiv`]).
    pub fn simplify(&mut self)
        ensures
            final(self)@ == spec_simplify(old(self)@),
            final(self).wf(),
    {
        self.simplify_min_lhs();
        self.expand_min_rhs();
        self.remove_useless();
    }
}

/// Permissions need lower bounds only. Let `s1` satisfy `cs`, and let `s2`
/// assign every variable at least what `s1` assigns it, so that no left
/// side of `cs` gets a larger value. Then `s2` satisfies `cs`.
///
/// Where a left side gets a larger value the claim can fail: `{x: Read,
/// y: Read}` satisfies `x <= y`, and `{x: Move, y: Read}` does not.
pub proof fn lemma_monotonicity(cs: Set<SpecConstraint>, s1: Valuation, s2: Valuation)
    requires
        satisfies(cs, s1),
        pointwise_le(s1, s2),
        forall|c: SpecConstraint| #[trigger] cs.contains(c) ==> c.0.eval(s2) == c.0.eval(s1),
    ensures
        satisfies(cs, s2),
{
    assert forall|c: SpecConstraint| cs.contains(c) implies holds(c, s2) by {
        assert(holds(c, s1));
        lemma_eval_monotone(c.1, s1, s2);
    }
}

/// A solution stays a solution when variables that occur on no left side
/// are raised.
pub proof fn lemma_raise_right_sides(cs: Set<SpecConstraint>, s1: Valuation, s2: Valuation)
    requires
        satisfies(cs, s1),
        pointwise_le(s1, s2),
        forall|c: SpecConstraint, v: PermVar|
            cs.contains(c) && c.0.mentions(v) ==> s2(v) == s1(v),
    ensures
        satisfies(cs, s2),
{
    assert forall|c: SpecConstraint| #[trigger] cs.contains(c) implies c.0.eval(s2) == c.0.eval(
        s1,
    ) by {
        lemma_eval_agree(c.0, s1, s2);
    }
    lemma_monotonicity(cs, s1, s2);
}

/// A set of lower bounds, whose left sides mention no variable, keeps each
/// of its solutions however the permissions are raised.
pub proof fn lemma_lower_bounds_monotone(cs: Set<SpecConstraint>, s1: Valuation, s2: Valuation)
    requires
        satisfies(cs, s1),
        pointwise_le(s1, s2),
        forall|c: SpecConstraint, v: PermVar| cs.contains(c) ==> !c.0.mentions(v),
    ensures
        satisfies(cs, s2),
{
    lemma_raise_right_sides(cs, s1, s2);
}

/// Dropping the constraints that hold by the lattice alone keeps the
/// solutions.
pub proof fn lemma_remove_useless_equiv(cs: Set<SpecConstraint>, s: Valuation)
    ensures
        satisfies(spec_remove_useless(cs), s) == satisfies(cs, s),
{
    if satisfies(spec_remove_useless(cs), s) {
        assert forall|c: SpecConstraint| cs.contains(c) implies holds(c, s) by {
            if trivial(c.0, c.1) {
                lemma_trivial_sound(c.0, c.1, s);
            } else {
                assert(spec_remove_useless(cs).contains(c));
            }
        }
    }
}

/// Splitting the minima on right sides keeps the solutions.
pub proof fn lemma_expand_min_rhs_equiv(cs: Set<SpecConstraint>, s: Valuation)
    ensures
        satisfies(spec_expand_min_rhs(cs), s) == satisfies(cs, s),
{
    let ex = spec_expand_min_rhs(cs);
    if satisfies(ex, s) {
        assert forall|c: SpecConstraint| cs.contains(c) implies holds(c, s) by {
            lemma_eval_is_atom(c.1, s);
            if c.1.eval(s) != ConcretePerm::Move {
                let y = choose|y: SpecPerm|
                    #[trigger] c.1.has_atom(y) && y.is_atom() && y.eval(s) == c.1.eval(s);
                let t = (c.0, y);
                assert(cs.contains((t.0, c.1)) && c.1.has_atom(t.1));
                assert(ex.contains(t));
                assert(holds((c.0, y), s));
            }
        }
    }
    if satisfies(cs, s) {
        assert forall|c: SpecConstraint| ex.contains(c) implies holds(c, s) by {
            let b = choose|b: SpecPerm| #[trigger] cs.contains((c.0, b)) && b.has_atom(c.1);
            assert(holds((c.0, b), s));
            lemma_atom_bounds(b, c.1, s);
        }
    }
}

/// Normalizing the left sides keeps the solutions.
pub proof fn lemma_simplify_min_lhs_equiv(cs: Set<SpecConstraint>, s: Valuation)
    ensures
        satisfies(spec_simplify_min_lhs(cs), s) == satisfies(cs, s),
{
    let nl = spec_simplify_min_lhs(cs);
    if satisfies(nl, s) {
        assert forall|c: SpecConstraint| cs.contains(c) implies holds(c, s) by {
            assert(cs.contains((c.0, c.1)));
            assert(nl.contains((c.0.norm(), c.1)));
            assert(holds((c.0.norm(), c.1), s));
            lemma_norm_eval(c.0, s);
        }
    }
    if satisfies(cs, s) {
        assert forall|c: SpecConstraint| nl.contains(c) implies holds(c, s) by {
            let a = choose|a: SpecPerm| #[trigger] cs.contains((a, c.1)) && a.norm() == c.0;
            assert(holds((a, c.1), s));
            lemma_norm_eval(a, s);
        }
    }
}

/// Simplification keeps the solutions: an assignment satisfies the
/// simplified set if and only if it satisfies the set.
pub proof fn lemma_simplify_equiv(cs: Set<SpecConstraint>, s: Valuation)
    ensures
        satisfies(spec_simplify(cs), s) == satisfies(cs, s),
{
    lemma_simplify_min_lhs_equiv(cs, s);
    lemma_expand_min_rhs_equiv(spec_simplify_min_lhs(cs), s);
    lemma_remove_useless_equiv(spec_expand_min_rhs(spec_simplify_min_lhs(cs)), s);
}

/// Erasing variables only removes constraints: what satisfied the set
/// satisfies what is retained.
pub proof fn lemma_retain_weaker(
    cs: Set<SpecConstraint>,
    keeps: spec_fn(PermVar) -> bool,
    s: Valuation,
)
    requires
        satisfies(cs, s),
    ensures
        satisfies(spec_retain(cs, keeps), s),
{
}

/// Whether `keeps` holds of every variable that a constraint of `cs`
/// mentions.
pub open spec fn mentions_only(cs: Set<SpecConstraint>, keeps: spec_fn(PermVar) -> bool) -> bool {
    forall|c: SpecConstraint| cs.contains(c) ==> only_kept(c, keeps)
}

/// What is retained mentions kept variables only.
pub proof fn lemma_retain_mentions(cs: Set<SpecConstraint>, keeps: spec_fn(PermVar) -> bool)
    ensures
        mentions_only(spec_retain(cs, keeps), keeps),
{
}

/// Simplification introduces no variable.
pub proof fn lemma_simplify_mentions(cs: Set<SpecConstraint>, keeps: spec_fn(PermVar) -> bool)
    requires
        mentions_only(cs, keeps),
    ensures
        mentions_only(spec_simplify(cs), keeps),
{
    let nl = spec_simplify_min_lhs(cs);
    let ex = spec_expand_min_rhs(nl);
    assert forall|c: SpecConstraint| ex.contains(c) implies only_kept(c, keeps) by {
        let b = choose|b: SpecPerm| #[trigger] nl.contains((c.0, b)) && b.has_atom(c.1);
        let a = choose|a: SpecPerm| #[trigger] cs.contains((a, b)) && a.norm() == c.0;
        assert(only_kept((a, b), keeps));
        assert forall|v: PermVar| constraint_mentions(c, v) implies keeps(v) by {
            if c.0.mentions(v) {
                lemma_norm_mentions(a, v);
            } else {
                lemma_atom_mentions(b, c.1, v);
            }
            assert(constraint_mentions((a, b), v));
        }
    }
}

/// Whether `c` is in simplest form: its left side is in normal form, its
/// right side is not a minimum, and it does not hold by the lattice alone.
pub open spec fn simplest(c: SpecConstraint) -> bool {
    c.0.norm() == c.0 && c.1.is_atom() && !trivial(c.0, c.1)
}

/// Every constraint of a simplified set is in simplest form.
pub proof fn lemma_simplify_simplest(cs: Set<SpecConstraint>)
    ensures
        forall|c: SpecConstraint| #[trigger] spec_simplify(cs).contains(c) ==> simplest(c),
{
    let nl = spec_simplify_min_lhs(cs);
    let ex = spec_expand_min_rhs(nl);
    assert forall|c: SpecConstraint| #[trigger] spec_simplify(cs).contains(c) implies simplest(
        c,
    ) by {
        assert(ex.contains(c));
        let b = choose|b: SpecPerm| #[trigger] nl.contains((c.0, b)) && b.has_atom(c.1);
        let a = choose|a: SpecPerm| #[trigger] cs.contains((a, b)) && a.norm() == c.0;
        lemma_norm_idempotent(a);
        lemma_atom_is_atom(b, c.1);
    }
}

/// What occurs in an expression as an atom is not a minimum.
pub proof fn lemma_atom_is_atom(p: SpecPerm, y: SpecPerm)
    requires
        p.has_atom(y),
    ensures
        y.is_atom(),
    decreases p,
{
    match p {
        SpecPerm::Min(ps) => {
            let i = choose|i: int| 0 <= i < ps.len() && (#[trigger] ps[i]).has_atom(y);
            lemma_atom_is_atom(ps[i], y);
        },
        _ => {},
    }
}

/// A set of constraints in simplest form is left as it is by each step of
/// simplification.
pub proof fn lemma_simplest_fixed(cs: Set<SpecConstraint>)
    requires
        forall|c: SpecConstraint| #[trigger] cs.contains(c) ==> simplest(c),
    ensures
        spec_remove_useless(cs) == cs,
        spec_simplify_min_lhs(cs) == cs,
        spec_expand_min_rhs(cs) == cs,
        spec_simplify(cs) == cs,
{
    assert(spec_remove_useless(cs) =~= cs);
    let nl = spec_simplify_min_lhs(cs);
    assert forall|c: SpecConstraint| nl.contains(c) <==> cs.contains(c) by {
        if nl.contains(c) {
            let a = choose|a: SpecPerm| #[trigger] cs.contains((a, c.1)) && a.norm() == c.0;
            assert(simplest((a, c.1)));
        }
        if cs.contains(c) {
            assert(simplest(c));
            assert(cs.contains((c.0, c.1)) && c.0.norm() == c.0);
        }
    }
    assert(nl =~= cs);
    let ex = spec_expand_min_rhs(cs);
    assert forall|c: SpecConstraint| ex.contains(c) <==> cs.contains(c) by {
        if ex.contains(c) {
            let b = choose|b: SpecPerm| #[trigger] cs.contains((c.0, b)) && b.has_atom(c.1);
            assert(simplest((c.0, b)));
            assert(b == c.1);
        }
        if cs.contains(c) {
            assert(simplest(c));
            assert(cs.contains((c.0, c.1)) && c.1.has_atom(c.1));
        }
    }
    assert(ex =~= cs);
}

/// Simplification reaches a fixed point at once: simplifying a simplified
/// set changes nothing.
pub proof fn lemma_simplify_idempotent(cs: Set<SpecConstraint>)
    ensures
        spec_simplify(spec_simplify(cs)) == spec_simplify(cs),
{
    lemma_simplify_simplest(cs);
    lemma_simplest_fixed(spec_simplify(cs));
}

} // verus!
