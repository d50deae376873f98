//! The permission lattice and permission expressions.

use vstd::prelude::*;

verus! {

/// A concrete permission. The three values are totally ordered:
/// `Read < Write < Move`.
#[derive(Clone, Copy, PartialEq, Eq, PartialOrd, Ord, Debug, Hash, Structural)]
pub enum ConcretePerm {
    /// The pointee may be observed.
    Read,
    /// The pointee may be observed and mutated.
    Write,
    /// The pointee may also be freed, moved out or replaced.
    Move,
}

impl ConcretePerm {
    /// Position in the order: 0 for `Read`, 1 for `Write`, 2 for `Move`.
    pub open spec fn rank(self) -> nat {
        match self {
            ConcretePerm::Read => 0,
            ConcretePerm::Write => 1,
            ConcretePerm::Move => 2,
        }
    }

    /// `self <= other` in the lattice order.
    pub open spec fn spec_le(self, other: ConcretePerm) -> bool {
        self.rank() <= other.rank()
    }

    /// The smaller of two permissions.
    pub open spec fn spec_meet(self, other: ConcretePerm) -> ConcretePerm {
        if self.rank() <= other.rank() {
            self
        } else {
            other
        }
    }

    /// The larger of two permissions.
    pub open spec fn spec_join(self, other: ConcretePerm) -> ConcretePerm {
        if self.rank() <= other.rank() {
            other
        } else {
            self
        }
    }

    /// Whether `self <= other`.
    pub fn leq(self, other: ConcretePerm) -> (r: bool)
        ensures
            r == self.spec_le(other),
    {
        match (self, other) {
            (ConcretePerm::Read, _) => true,
            (ConcretePerm::Write, ConcretePerm::Read) => false,
            (ConcretePerm::Write, _) => true,
            (ConcretePerm::Move, ConcretePerm::Move) => true,
            (ConcretePerm::Move, _) => false,
        }
    }

    /// Greatest lower bound.
    pub fn meet(self, other: ConcretePerm) -> (r: ConcretePerm)
        ensures
            r == self.spec_meet(other),
    {
        if self.leq(other) {
            self
        } else {
            other
        }
    }

    /// Least upper bound.
    pub fn join(self, other: ConcretePerm) -> (r: ConcretePerm)
        ensures
            r == self.spec_join(other),
    {
        if self.leq(other) {
            other
        } else {
            self
        }
    }
}

/// Index of a permission variable within its scope.
#[derive(Clone, Copy, PartialEq, Eq, PartialOrd, Ord, Debug, Hash, Structural)]
pub struct Var(pub u32);

/// A permission variable. The four kinds differ in scope.
#[derive(Clone, Copy, PartialEq, Eq, PartialOrd, Ord, Debug, Hash, Structural)]
pub enum PermVar {
    /// A slot in the type of a static; resolved once for the whole program.
    Static(Var),
    /// A slot in a function signature; assigned anew at each instantiation.
    Sig(Var),
    /// A signature variable of a callee, renamed for one call site.
    Inst(Var),
    /// A slot invented while one function body is analysed.
    Local(Var),
}

/// A permission expression, as a mathematical value.
pub enum SpecPerm {
    Concrete(ConcretePerm),
    /// The greatest lower bound of the operands; `Move` when there are none.
    Min(Seq<SpecPerm>),
    Var(PermVar),
}

/// An assignment of a concrete permission to every variable.
pub type Valuation = spec_fn(PermVar) -> ConcretePerm;

/// The smallest element of `cs`, and `Move` for the empty sequence.
pub open spec fn min_of(cs: Seq<ConcretePerm>) -> ConcretePerm
    decreases cs.len(),
{
    if cs.len() == 0 {
        ConcretePerm::Move
    } else {
        cs.last().spec_meet(min_of(cs.drop_last()))
    }
}

impl SpecPerm {
    /// The value of the expression when the variables are assigned by `s`.
    pub open spec fn eval(self, s: Valuation) -> ConcretePerm
        decreases self, 1nat,
    {
        match self {
            SpecPerm::Concrete(c) => c,
            SpecPerm::Var(v) => s(v),
            SpecPerm::Min(_) => min_of(self.operand_values(s)),
        }
    }

    /// The values of the operands of a `Min` under `s`, in order.
    pub open spec fn operand_values(self, s: Valuation) -> Seq<ConcretePerm>
        decreases self, 0nat,
    {
        match self {
            SpecPerm::Min(ps) => ps.map_values(
                |p: SpecPerm|
                    if decreases_to!(self => p) {
                        p.eval(s)
                    } else {
                        ConcretePerm::Move
                    },
            ),
            _ => Seq::empty(),
        }
    }

    /// Whether variable `v` occurs in the expression.
    pub open spec fn mentions(self, v: PermVar) -> bool
        decreases self,
    {
        match self {
            SpecPerm::Concrete(_) => false,
            SpecPerm::Var(w) => w == v,
            SpecPerm::Min(ps) => exists|i: int|
                0 <= i < ps.len() && (#[trigger] ps[i]).mentions(v),
        }
    }

    /// Whether the expression is not a `Min`.
    pub open spec fn is_atom(self) -> bool {
        !(self is Min)
    }

    /// The number of operands of a `Min`, and 0 for another expression.
    pub open spec fn arity(self) -> nat {
        match self {
            SpecPerm::Min(ps) => ps.len(),
            _ => 0,
        }
    }

    /// Whether the expression holds, at any depth, a concrete permission
    /// that is at most `c`.
    pub open spec fn has_concrete_le(self, c: ConcretePerm) -> bool
        decreases self,
    {
        match self {
            SpecPerm::Concrete(x) => x.spec_le(c),
            SpecPerm::Var(_) => false,
            SpecPerm::Min(ps) => exists|i: int|
                0 <= i < ps.len() && (#[trigger] ps[i]).has_concrete_le(c),
        }
    }

    /// Whether `y` is one of the expressions that are not a `Min` and occur
    /// in `self` at any depth.
    pub open spec fn has_atom(self, y: SpecPerm) -> bool
        decreases self,
    {
        match self {
            SpecPerm::Min(ps) => exists|i: int|
                0 <= i < ps.len() && (#[trigger] ps[i]).has_atom(y),
            _ => self == y,
        }
    }

    /// The normal form of the expression: nested minima are flattened, no
    /// operand is repeated, `Move` is dropped, `Read` absorbs everything, and
    /// a minimum of one operand is that operand. An expression that is not a
    /// `Min` is its own normal form.
    pub open spec fn norm(self) -> SpecPerm
        decreases self, self.arity() + 1,
    {
        match self {
            SpecPerm::Min(ps) => self.norm_prefix(ps.len()),
            _ => self,
        }
    }

    /// The normal form of the minimum of the first `n` operands of a `Min`.
    pub open spec fn norm_prefix(self, n: nat) -> SpecPerm
        decreases self, n,
    {
        match self {
            SpecPerm::Min(ps) => if n == 0 || n > ps.len() {
                SpecPerm::Concrete(ConcretePerm::Move)
            } else {
                SpecPerm::min2(self.norm_prefix((n - 1) as nat), ps[n - 1].norm())
            },
            _ => self,
        }
    }

    /// The (value of the) expression `min(a, b)` in the form that
    /// [`Perm::min`] builds: `Read` absorbs, `Move` is dropped, operand lists
    /// are merged without repeating an operand, and equal operands collapse.
    pub open spec fn min2(a: SpecPerm, b: SpecPerm) -> SpecPerm {
        if a == SpecPerm::Concrete(ConcretePerm::Read) || b == SpecPerm::Concrete(
            ConcretePerm::Read,
        ) {
            SpecPerm::Concrete(ConcretePerm::Read)
        } else if a == SpecPerm::Concrete(ConcretePerm::Move) {
            b
        } else if b == SpecPerm::Concrete(ConcretePerm::Move) {
            a
        } else {
            match (a, b) {
                (SpecPerm::Min(ps), SpecPerm::Min(qs)) => SpecPerm::Min(merge_new(ps, qs)),
                (SpecPerm::Min(ps), _) => SpecPerm::Min(merge_new(ps, seq![b])),
                (_, SpecPerm::Min(qs)) => SpecPerm::Min(merge_new(qs, seq![a])),
                _ => if a == b {
                    a
                } else {
                    SpecPerm::Min(seq![a, b])
                },
            }
        }
    }
}

/// `ps`, followed by those elements of `qs` that do not occur earlier in the
/// result.
pub open spec fn merge_new(ps: Seq<SpecPerm>, qs: Seq<SpecPerm>) -> Seq<SpecPerm>
    decreases qs.len(),
{
    if qs.len() == 0 {
        ps
    } else {
        let r = merge_new(ps, qs.drop_last());
        if r.contains(qs.last()) {
            r
        } else {
            r.push(qs.last())
        }
    }
}

/// A permission expression.
#[derive(PartialEq, Eq, Debug, Hash)]
pub enum Perm {
    Concrete(ConcretePerm),
    /// The greatest lower bound of the operands.
    Min(Vec<Perm>),
    StaticVar(Var),
    SigVar(Var),
    InstVar(Var),
    LocalVar(Var),
}

impl Perm {
    /// The expression as a mathematical value.
    pub open spec fn model(self) -> SpecPerm
        decreases self,
    {
        match self {
            Perm::Concrete(c) => SpecPerm::Concrete(c),
            Perm::Min(ps) => SpecPerm::Min(
                ps@.map_values(
                    |q: Perm|
                        if decreases_to!(self => q) {
                            q.model()
                        } else {
                            SpecPerm::Concrete(ConcretePerm::Move)
                        },
                ),
            ),
            Perm::StaticVar(v) => SpecPerm::Var(PermVar::Static(v)),
            Perm::SigVar(v) => SpecPerm::Var(PermVar::Sig(v)),
            Perm::InstVar(v) => SpecPerm::Var(PermVar::Inst(v)),
            Perm::LocalVar(v) => SpecPerm::Var(PermVar::Local(v)),
        }
    }
}

impl View for Perm {
    type V = SpecPerm;

    open spec fn view(&self) -> SpecPerm {
        self.model()
    }
}

/// The values of the expressions in `ps`, in order.
pub open spec fn perm_views(ps: Seq<Perm>) -> Seq<SpecPerm> {
    ps.map_values(|p: Perm| p@)
}

/// The view of a `Min` is the `Min` of the operands' views.
pub proof fn lemma_min_view(ps: Vec<Perm>)
    ensures
        Perm::Min(ps)@ == SpecPerm::Min(perm_views(ps@)),
{
    let p = Perm::Min(ps);
    assert(p@->Min_0 =~= perm_views(ps@));
}

impl Perm {
    pub fn read() -> (r: Perm)
        ensures
            r@ == SpecPerm::Concrete(ConcretePerm::Read),
    {
        Perm::Concrete(ConcretePerm::Read)
    }

    pub fn write() -> (r: Perm)
        ensures
            r@ == SpecPerm::Concrete(ConcretePerm::Write),
    {
        Perm::Concrete(ConcretePerm::Write)
    }

    pub fn move_() -> (r: Perm)
        ensures
            r@ == SpecPerm::Concrete(ConcretePerm::Move),
    {
        Perm::Concrete(ConcretePerm::Move)
    }

    /// The expression that consists of the variable `pv`.
    pub fn var(pv: PermVar) -> (r: Perm)
        ensures
            r@ == SpecPerm::Var(pv),
    {
        match pv {
            PermVar::Static(v) => Perm::StaticVar(v),
            PermVar::Sig(v) => Perm::SigVar(v),
            PermVar::Inst(v) => Perm::InstVar(v),
            PermVar::Local(v) => Perm::LocalVar(v),
        }
    }

    /// The variable, if the expression is one.
    pub fn as_var(&self) -> (r: Option<PermVar>)
        ensures
            r == (match self@ {
                SpecPerm::Var(pv) => Some(pv),
                _ => None,
            }),
    {
        match self {
            Perm::StaticVar(v) => Some(PermVar::Static(*v)),
            Perm::SigVar(v) => Some(PermVar::Sig(*v)),
            Perm::InstVar(v) => Some(PermVar::Inst(*v)),
            Perm::LocalVar(v) => Some(PermVar::Local(*v)),
            _ => None,
        }
    }

    /// Whether the two expressions are the same, operand by operand.
    pub fn same(&self, other: &Perm) -> (r: bool)
        ensures
            r == (self@ == other@),
        decreases self,
    {
        match (self, other) {
            (Perm::Concrete(a), Perm::Concrete(b)) => *a == *b,
            (Perm::StaticVar(a), Perm::StaticVar(b)) => *a == *b,
            (Perm::SigVar(a), Perm::SigVar(b)) => *a == *b,
            (Perm::InstVar(a), Perm::InstVar(b)) => *a == *b,
            (Perm::LocalVar(a), Perm::LocalVar(b)) => *a == *b,
            (Perm::Min(ps), Perm::Min(qs)) => {
                proof {
                    lemma_min_view(*ps);
                    lemma_min_view(*qs);
                }
                if ps.len() != qs.len() {
                    assert(perm_views(ps@).len() != perm_views(qs@).len());
                    return false;
                }
                let mut i: usize = 0;
                #[verifier::loop_isolation(false)]
                while i < ps.len()
                    invariant
                        i <= ps.len(),
                        forall|j: int| 0 <= j < i ==> ps@[j]@ == qs@[j]@,
                    decreases ps.len() - i,
                {
                    if !ps[i].same(&qs[i]) {
                        assert(perm_views(ps@)[i as int] != perm_views(qs@)[i as int]);
                        return false;
                    }
                    i += 1;
                }
                assert(perm_views(ps@) =~= perm_views(qs@));
                true
            },
            _ => false,
        }
    }

    /// A copy of the expression.
    pub fn duplicate(&self) -> (r: Perm)
        ensures
            r@ == self@,
        decreases self,
    {
        match self {
            Perm::Concrete(c) => Perm::Concrete(*c),
            Perm::StaticVar(v) => Perm::StaticVar(*v),
            Perm::SigVar(v) => Perm::SigVar(*v),
            Perm::InstVar(v) => Perm::InstVar(*v),
            Perm::LocalVar(v) => Perm::LocalVar(*v),
            Perm::Min(ps) => {
                let mut out: Vec<Perm> = Vec::new();
                let mut i: usize = 0;
                #[verifier::loop_isolation(false)]
                while i < ps.len()
                    invariant
                        i <= ps.len(),
                        out.len() == i,
                        forall|j: int| 0 <= j < i ==> out@[j]@ == ps@[j]@,
                    decreases ps.len() - i,
                {
                    out.push(ps[i].duplicate());
                    i += 1;
                }
                proof {
                    lemma_min_view(*ps);
                    lemma_min_view(out);
                    assert(perm_views(ps@) =~= perm_views(out@));
                }
                Perm::Min(out)
            },
        }
    }
}

/// Whether some element of `v` is the expression `p`.
pub fn contains_perm(v: &Vec<Perm>, p: &Perm) -> (r: bool)
    ensures
        r == perm_views(v@).contains(p@),
{
    let mut i: usize = 0;
    while i < v.len()
        invariant
            i <= v.len(),
            forall|j: int| 0 <= j < i ==> v@[j]@ != p@,
        decreases v.len() - i,
    {
        if v[i].same(p) {
            assert(perm_views(v@)[i as int] == p@);
            return true;
        }
        i += 1;
    }
    assert forall|j: int| 0 <= j < perm_views(v@).len() implies perm_views(v@)[j] != p@ by {
        assert(perm_views(v@)[j] == v@[j]@);
    }
    false
}

/// Copies of the expressions in `ps`, in order.
pub fn duplicate_all(ps: &Vec<Perm>) -> (r: Vec<Perm>)
    ensures
        perm_views(r@) == perm_views(ps@),
{
    let mut out: Vec<Perm> = Vec::new();
    let mut i: usize = 0;
    while i < ps.len()
        invariant
            i <= ps.len(),
            out.len() == i,
            forall|j: int| 0 <= j < i ==> out@[j]@ == ps@[j]@,
        decreases ps.len() - i,
    {
        out.push(ps[i].duplicate());
        i += 1;
    }
    assert(perm_views(out@) =~= perm_views(ps@));
    out
}

/// Appends to `out` a copy of each expression of `qs` that it does not hold
/// yet.
fn merge_into(out: &mut Vec<Perm>, qs: &Vec<Perm>)
    ensures
        perm_views(final(out)@) == merge_new(perm_views(old(out)@), perm_views(qs@)),
{
    let ghost start = perm_views(out@);
    let mut i: usize = 0;
    while i < qs.len()
        invariant
            i <= qs.len(),
            perm_views(out@) == merge_new(start, perm_views(qs@).take(i as int)),
        decreases qs.len() - i,
    {
        let ghost before = perm_views(out@);
        proof {
            let t = perm_views(qs@).take(i as int + 1);
            assert(t.drop_last() =~= perm_views(qs@).take(i as int));
            assert(t.last() == qs@[i as int]@);
        }
        if !contains_perm(out, &qs[i]) {
            out.push(qs[i].duplicate());
            assert(perm_views(out@) =~= before.push(qs@[i as int]@));
        }
        i += 1;
    }
    assert(perm_views(qs@).take(qs.len() as int) =~= perm_views(qs@));
}

impl Perm {
    /// The minimum of two expressions, kept small: `Read` absorbs the other
    /// operand, `Move` is dropped, the operand lists of minima are merged
    /// without repeating an operand, and two equal operands collapse to one.
    pub fn min(a: &Perm, b: &Perm) -> (r: Perm)
        ensures
            r@ == SpecPerm::min2(a@, b@),
    {
        if a.same(&Perm::read()) || b.same(&Perm::read()) {
            return Perm::read();
        }
        if a.same(&Perm::move_()) {
            return b.duplicate();
        }
        if b.same(&Perm::move_()) {
            return a.duplicate();
        }
        match (a, b) {
            (Perm::Min(ps), Perm::Min(qs)) => {
                proof {
                    lemma_min_view(*ps);
                    lemma_min_view(*qs);
                }
                let mut out = duplicate_all(ps);
                merge_into(&mut out, qs);
                proof {
                    lemma_min_view(out);
                }
                Perm::Min(out)
            },
            (Perm::Min(ps), _) => {
                proof {
                    lemma_min_view(*ps);
                }
                let mut out = duplicate_all(ps);
                let mut one: Vec<Perm> = Vec::new();
                one.push(b.duplicate());
                assert(perm_views(one@) =~= seq![b@]);
                merge_into(&mut out, &one);
                proof {
                    lemma_min_view(out);
                }
                Perm::Min(out)
            },
            (_, Perm::Min(qs)) => {
                proof {
                    lemma_min_view(*qs);
                }
                let mut out = duplicate_all(qs);
                let mut one: Vec<Perm> = Vec::new();
                one.push(a.duplicate());
                assert(perm_views(one@) =~= seq![a@]);
                merge_into(&mut out, &one);
                proof {
                    lemma_min_view(out);
                }
                Perm::Min(out)
            },
            _ => {
                if a.same(b) {
                    a.duplicate()
                } else {
                    let mut out: Vec<Perm> = Vec::new();
                    out.push(a.duplicate());
                    out.push(b.duplicate());
                    proof {
                        lemma_min_view(out);
                        assert(perm_views(out@) =~= seq![a@, b@]);
                    }
                    Perm::Min(out)
                }
            },
        }
    }
}

/// The values of the expressions in `ps` under `s`, in order.
pub open spec fn evals(ps: Seq<SpecPerm>, s: Valuation) -> Seq<ConcretePerm> {
    ps.map_values(|p: SpecPerm| p.eval(s))
}

/// A minimum evaluates to the smallest value among its operands.
pub proof fn lemma_eval_min(ps: Seq<SpecPerm>, s: Valuation)
    ensures
        SpecPerm::Min(ps).eval(s) == min_of(evals(ps, s)),
{
    assert(SpecPerm::Min(ps).operand_values(s) =~= evals(ps, s));
}

/// `min_of(cs)` is a lower bound of `cs`, and it is `Move` or occurs in `cs`.
pub proof fn lemma_min_of_bounds(cs: Seq<ConcretePerm>)
    ensures
        forall|i: int| 0 <= i < cs.len() ==> min_of(cs).spec_le(#[trigger] cs[i]),
        min_of(cs) == ConcretePerm::Move || cs.contains(min_of(cs)),
    decreases cs.len(),
{
    if cs.len() > 0 {
        lemma_min_of_bounds(cs.drop_last());
        let m = min_of(cs.drop_last());
        assert forall|i: int| 0 <= i < cs.len() implies min_of(cs).spec_le(#[trigger] cs[i]) by {
            if i < cs.len() - 1 {
                assert(cs.drop_last()[i] == cs[i]);
            }
        }
        if min_of(cs) != ConcretePerm::Move {
            if min_of(cs) == cs.last() {
                assert(cs[cs.len() - 1] == min_of(cs));
            } else {
                let j = choose|j: int| 0 <= j < cs.drop_last().len() && cs.drop_last()[j] == m;
                assert(cs[j] == m);
            }
        }
    }
}

/// Adding an element takes the meet with it.
pub proof fn lemma_min_of_push(cs: Seq<ConcretePerm>, c: ConcretePerm)
    ensures
        min_of(cs.push(c)) == c.spec_meet(min_of(cs)),
{
    assert(cs.push(c).drop_last() =~= cs);
}

/// Merging operand lists takes the meet of the two minima.
pub proof fn lemma_eval_merge_new(ps: Seq<SpecPerm>, qs: Seq<SpecPerm>, s: Valuation)
    ensures
        min_of(evals(merge_new(ps, qs), s)) == min_of(evals(ps, s)).spec_meet(
            min_of(evals(qs, s)),
        ),
    decreases qs.len(),
{
    if qs.len() > 0 {
        let r = merge_new(ps, qs.drop_last());
        let q = qs.last();
        lemma_eval_merge_new(ps, qs.drop_last(), s);
        assert(evals(qs, s).drop_last() =~= evals(qs.drop_last(), s));
        assert(evals(qs, s).last() == q.eval(s));
        if r.contains(q) {
            let j = choose|j: int| 0 <= j < r.len() && r[j] == q;
            lemma_min_of_bounds(evals(r, s));
            assert(evals(r, s)[j] == q.eval(s));
        } else {
            assert(evals(r.push(q), s) =~= evals(r, s).push(q.eval(s)));
            lemma_min_of_push(evals(r, s), q.eval(s));
        }
    }
}

/// The expression that [`Perm::min`] builds evaluates to the meet of the
/// values of its two operands, under every assignment.
pub proof fn lemma_eval_min2(a: SpecPerm, b: SpecPerm, s: Valuation)
    ensures
        SpecPerm::min2(a, b).eval(s) == a.eval(s).spec_meet(b.eval(s)),
{
    let read = SpecPerm::Concrete(ConcretePerm::Read);
    let mv = SpecPerm::Concrete(ConcretePerm::Move);
    if a == read || b == read || a == mv || b == mv {
    } else {
        match (a, b) {
            (SpecPerm::Min(ps), SpecPerm::Min(qs)) => {
                lemma_eval_min(ps, s);
                lemma_eval_min(qs, s);
                lemma_eval_min(merge_new(ps, qs), s);
                lemma_eval_merge_new(ps, qs, s);
            },
            (SpecPerm::Min(ps), _) => {
                lemma_eval_min(ps, s);
                lemma_eval_min(merge_new(ps, seq![b]), s);
                lemma_eval_merge_new(ps, seq![b], s);
                assert(evals(seq![b], s) =~= Seq::<ConcretePerm>::empty().push(b.eval(s)));
                lemma_min_of_push(Seq::<ConcretePerm>::empty(), b.eval(s));
            },
            (_, SpecPerm::Min(qs)) => {
                lemma_eval_min(qs, s);
                lemma_eval_min(merge_new(qs, seq![a]), s);
                lemma_eval_merge_new(qs, seq![a], s);
                assert(evals(seq![a], s) =~= Seq::<ConcretePerm>::empty().push(a.eval(s)));
                lemma_min_of_push(Seq::<ConcretePerm>::empty(), a.eval(s));
            },
            _ => {
                if a != b {
                    lemma_eval_min(seq![a, b], s);
                    assert(evals(seq![a, b], s) =~= Seq::<ConcretePerm>::empty().push(
                        a.eval(s),
                    ).push(b.eval(s)));
                    lemma_min_of_push(Seq::<ConcretePerm>::empty(), a.eval(s));
                    lemma_min_of_push(Seq::<ConcretePerm>::empty().push(a.eval(s)), b.eval(s));
                }
            },
        }
    }
}

/// `s2` assigns every variable at least the permission that `s1` assigns it.
pub open spec fn pointwise_le(s1: Valuation, s2: Valuation) -> bool {
    forall|v: PermVar| (#[trigger] s1(v)).spec_le(s2(v))
}

/// Raising the assignment never lowers a minimum.
pub proof fn lemma_min_of_monotone(cs: Seq<ConcretePerm>, ds: Seq<ConcretePerm>)
    requires
        cs.len() == ds.len(),
        forall|i: int| 0 <= i < cs.len() ==> (#[trigger] cs[i]).spec_le(ds[i]),
    ensures
        min_of(cs).spec_le(min_of(ds)),
    decreases cs.len(),
{
    if cs.len() > 0 {
        assert forall|i: int| 0 <= i < cs.drop_last().len() implies (#[trigger] cs.drop_last()[i]).spec_le(
            ds.drop_last()[i],
        ) by {
            assert(cs[i].spec_le(ds[i]));
        }
        lemma_min_of_monotone(cs.drop_last(), ds.drop_last());
        assert(cs[cs.len() - 1].spec_le(ds[cs.len() - 1]));
    }
}

/// Evaluation is monotone: where every variable is assigned at least as
/// much, every expression evaluates to at least as much.
pub proof fn lemma_eval_monotone(p: SpecPerm, s1: Valuation, s2: Valuation)
    requires
        pointwise_le(s1, s2),
    ensures
        p.eval(s1).spec_le(p.eval(s2)),
    decreases p,
{
    match p {
        SpecPerm::Concrete(_) => {},
        SpecPerm::Var(v) => {
            assert(s1(v).spec_le(s2(v)));
        },
        SpecPerm::Min(ps) => {
            lemma_eval_min(ps, s1);
            lemma_eval_min(ps, s2);
            assert forall|i: int| 0 <= i < ps.len() implies (#[trigger] evals(ps, s1)[i]).spec_le(
                evals(ps, s2)[i],
            ) by {
                lemma_eval_monotone(ps[i], s1, s2);
            }
            lemma_min_of_monotone(evals(ps, s1), evals(ps, s2));
        },
    }
}

/// An expression evaluates alike under two assignments that agree on the
/// variables it mentions.
pub proof fn lemma_eval_agree(p: SpecPerm, s1: Valuation, s2: Valuation)
    requires
        forall|v: PermVar| p.mentions(v) ==> s1(v) == s2(v),
    ensures
        p.eval(s1) == p.eval(s2),
    decreases p,
{
    match p {
        SpecPerm::Concrete(_) => {},
        SpecPerm::Var(v) => {
            assert(p.mentions(v));
        },
        SpecPerm::Min(ps) => {
            lemma_eval_min(ps, s1);
            lemma_eval_min(ps, s2);
            assert forall|i: int| 0 <= i < ps.len() implies evals(ps, s1)[i] == evals(ps, s2)[i] by {
                assert forall|v: PermVar| ps[i].mentions(v) implies s1(v) == s2(v) by {
                    assert(p.mentions(v));
                }
                lemma_eval_agree(ps[i], s1, s2);
            }
            assert(evals(ps, s1) =~= evals(ps, s2));
        },
    }
}

/// A rule that says which variables are kept.
pub trait PermFilter {
    /// Whether variable `v` is kept.
    spec fn keeps(&self, v: PermVar) -> bool;

    /// Decides whether variable `v` is kept.
    fn test(&self, v: PermVar) -> (r: bool)
        ensures
            r == self.keeps(v),
    ;
}

/// Keeps every variable but those local to one function body.
pub struct NonLocal;

impl PermFilter for NonLocal {
    open spec fn keeps(&self, v: PermVar) -> bool {
        !(v is Local)
    }

    fn test(&self, v: PermVar) -> (r: bool) {
        match v {
            PermVar::Local(_) => false,
            _ => true,
        }
    }
}

impl Perm {
    /// Whether the expression holds, at any depth, a concrete permission
    /// that is at most `c`.
    pub fn has_concrete_le(&self, c: ConcretePerm) -> (r: bool)
        ensures
            r == self@.has_concrete_le(c),
        decreases self,
    {
        match self {
            Perm::Concrete(x) => x.leq(c),
            Perm::Min(ps) => {
                proof {
                    lemma_min_view(*ps);
                }
                let mut i: usize = 0;
                #[verifier::loop_isolation(false)]
                while i < ps.len()
                    invariant
                        i <= ps.len(),
                        forall|j: int| 0 <= j < i ==> !ps@[j]@.has_concrete_le(c),
                    decreases ps.len() - i,
                {
                    if ps[i].has_concrete_le(c) {
                        proof {
                            lemma_has_concrete_le_operand(perm_views(ps@), i as int, c);
                        }
                        return true;
                    }
                    i += 1;
                }
                assert forall|j: int| 0 <= j < perm_views(ps@).len() implies !(#[trigger] perm_views(
                    ps@,
                )[j]).has_concrete_le(c) by {
                    assert(perm_views(ps@)[j] == ps@[j]@);
                }
                false
            },
            _ => false,
        }
    }

    /// Whether variable `v` occurs in the expression.
    pub fn mentions(&self, v: PermVar) -> (r: bool)
        ensures
            r == self@.mentions(v),
        decreases self,
    {
        match self {
            Perm::Concrete(_) => false,
            Perm::Min(ps) => {
                proof {
                    lemma_min_view(*ps);
                }
                let mut i: usize = 0;
                #[verifier::loop_isolation(false)]
                while i < ps.len()
                    invariant
                        i <= ps.len(),
                        forall|j: int| 0 <= j < i ==> !ps@[j]@.mentions(v),
                    decreases ps.len() - i,
                {
                    if ps[i].mentions(v) {
                        proof {
                            lemma_mentions_operand(perm_views(ps@), i as int, v);
                        }
                        return true;
                    }
                    i += 1;
                }
                assert forall|j: int| 0 <= j < perm_views(ps@).len() implies !(#[trigger] perm_views(
                    ps@,
                )[j]).mentions(v) by {
                    assert(perm_views(ps@)[j] == ps@[j]@);
                }
                false
            },
            _ => {
                let w = self.as_var();
                w == Some(v)
            },
        }
    }

    /// Whether `filter` keeps every variable that occurs in the expression.
    pub fn all_vars_kept<F: PermFilter>(&self, filter: &F) -> (r: bool)
        ensures
            r == (forall|v: PermVar| self@.mentions(v) ==> filter.keeps(v)),
        decreases self,
    {
        match self {
            Perm::Concrete(_) => true,
            Perm::Min(ps) => {
                proof {
                    lemma_min_view(*ps);
                }
                let mut i: usize = 0;
                #[verifier::loop_isolation(false)]
                while i < ps.len()
                    invariant
                        i <= ps.len(),
                        forall|j: int, v: PermVar|
                            0 <= j < i && ps@[j]@.mentions(v) ==> filter.keeps(v),
                    decreases ps.len() - i,
                {
                    if !ps[i].all_vars_kept(filter) {
                        proof {
                            let v = choose|v: PermVar| ps@[i as int]@.mentions(v) && !filter.keeps(v);
                            lemma_mentions_operand(perm_views(ps@), i as int, v);
                        }
                        return false;
                    }
                    i += 1;
                }
                assert forall|v: PermVar| self@.mentions(v) implies filter.keeps(v) by {
                    let j = choose|j: int|
                        0 <= j < perm_views(ps@).len() && (#[trigger] perm_views(ps@)[j]).mentions(v);
                    assert(perm_views(ps@)[j] == ps@[j]@);
                }
                true
            },
            _ => {
                match self.as_var() {
                    Some(v) => {
                        let r = filter.test(v);
                        assert(self@.mentions(v));
                        r
                    },
                    None => true,
                }
            },
        }
    }

    /// The normal form of the expression. See [`SpecPerm::norm`].
    pub fn normalize(&self) -> (r: Perm)
        ensures
            r@ == self@.norm(),
        decreases self,
    {
        match self {
            Perm::Min(ps) => {
                proof {
                    lemma_min_view(*ps);
                }
                let mut acc = Perm::move_();
                let mut i: usize = 0;
                #[verifier::loop_isolation(false)]
                while i < ps.len()
                    invariant
                        i <= ps.len(),
                        acc@ == self@.norm_prefix(i as nat),
                    decreases ps.len() - i,
                {
                    let n = ps[i].normalize();
                    assert(perm_views(ps@)[i as int] == ps@[i as int]@);
                    acc = Perm::min(&acc, &n);
                    i += 1;
                }
                acc
            },
            _ => self.duplicate(),
        }
    }
}

/// A minimum mentions the variables of its operands.
pub proof fn lemma_mentions_operand(ps: Seq<SpecPerm>, i: int, v: PermVar)
    requires
        0 <= i < ps.len(),
        ps[i].mentions(v),
    ensures
        SpecPerm::Min(ps).mentions(v),
{
    let p = SpecPerm::Min(ps);
    assert(p->Min_0[i].mentions(v));
}

/// A minimum holds the concrete permissions of its operands.
pub proof fn lemma_has_concrete_le_operand(ps: Seq<SpecPerm>, i: int, c: ConcretePerm)
    requires
        0 <= i < ps.len(),
        ps[i].has_concrete_le(c),
    ensures
        SpecPerm::Min(ps).has_concrete_le(c),
{
    let p = SpecPerm::Min(ps);
    assert(p->Min_0[i].has_concrete_le(c));
}

/// A minimum has the atoms of its operands.
pub proof fn lemma_has_atom_operand(ps: Seq<SpecPerm>, i: int, y: SpecPerm)
    requires
        0 <= i < ps.len(),
        ps[i].has_atom(y),
    ensures
        SpecPerm::Min(ps).has_atom(y),
{
    let p = SpecPerm::Min(ps);
    assert(p->Min_0[i].has_atom(y));
}

/// A mentioned variable bounds the value of the expression from above.
pub proof fn lemma_mentions_bounds(p: SpecPerm, v: PermVar, s: Valuation)
    requires
        p.mentions(v),
    ensures
        p.eval(s).spec_le(s(v)),
    decreases p,
{
    match p {
        SpecPerm::Min(ps) => {
            let i = choose|i: int| 0 <= i < ps.len() && (#[trigger] ps[i]).mentions(v);
            lemma_mentions_bounds(ps[i], v, s);
            lemma_eval_min(ps, s);
            lemma_min_of_bounds(evals(ps, s));
            assert(evals(ps, s)[i] == ps[i].eval(s));
        },
        _ => {},
    }
}

/// An atom of an expression bounds its value from above.
pub proof fn lemma_atom_bounds(p: SpecPerm, y: SpecPerm, s: Valuation)
    requires
        p.has_atom(y),
    ensures
        p.eval(s).spec_le(y.eval(s)),
    decreases p,
{
    match p {
        SpecPerm::Min(ps) => {
            let i = choose|i: int| 0 <= i < ps.len() && (#[trigger] ps[i]).has_atom(y);
            lemma_atom_bounds(ps[i], y, s);
            lemma_eval_min(ps, s);
            lemma_min_of_bounds(evals(ps, s));
            assert(evals(ps, s)[i] == ps[i].eval(s));
        },
        _ => {},
    }
}

/// The value of an expression is `Move` or the value of one of its atoms.
pub proof fn lemma_eval_is_atom(p: SpecPerm, s: Valuation)
    ensures
        p.eval(s) == ConcretePerm::Move || exists|y: SpecPerm|
            #[trigger] p.has_atom(y) && y.is_atom() && y.eval(s) == p.eval(s),
    decreases p,
{
    match p {
        SpecPerm::Min(ps) => {
            lemma_eval_min(ps, s);
            lemma_min_of_bounds(evals(ps, s));
            if p.eval(s) != ConcretePerm::Move {
                let es = evals(ps, s);
                let i = choose|i: int| 0 <= i < es.len() && es[i] == p.eval(s);
                assert(es[i] == ps[i].eval(s));
                lemma_eval_is_atom(ps[i], s);
                let y = choose|y: SpecPerm|
                    #[trigger] ps[i].has_atom(y) && y.is_atom() && y.eval(s) == ps[i].eval(s);
                lemma_has_atom_operand(ps, i, y);
                assert(p.has_atom(y) && y.is_atom() && y.eval(s) == p.eval(s));
            }
        },
        _ => {
            assert(p.has_atom(p));
        },
    }
}

/// A variable of an atom of an expression is a variable of the expression.
pub proof fn lemma_atom_mentions(p: SpecPerm, y: SpecPerm, v: PermVar)
    requires
        p.has_atom(y),
        y.mentions(v),
    ensures
        p.mentions(v),
    decreases p,
{
    match p {
        SpecPerm::Min(ps) => {
            let i = choose|i: int| 0 <= i < ps.len() && (#[trigger] ps[i]).has_atom(y);
            lemma_atom_mentions(ps[i], y, v);
        },
        _ => {},
    }
}

/// A concrete permission in an expression bounds its value from above.
pub proof fn lemma_concrete_bounds(p: SpecPerm, c: ConcretePerm, s: Valuation)
    requires
        p.has_concrete_le(c),
    ensures
        p.eval(s).spec_le(c),
    decreases p,
{
    match p {
        SpecPerm::Min(ps) => {
            let i = choose|i: int| 0 <= i < ps.len() && (#[trigger] ps[i]).has_concrete_le(c);
            lemma_concrete_bounds(ps[i], c, s);
            lemma_eval_min(ps, s);
            lemma_min_of_bounds(evals(ps, s));
            assert(evals(ps, s)[i] == ps[i].eval(s));
        },
        _ => {},
    }
}

/// The first `n` operands of a minimum, normalized, evaluate to the
/// smallest of their values.
pub proof fn lemma_norm_prefix_eval(p: SpecPerm, n: nat, s: Valuation)
    requires
        p is Min,
        n <= p.arity(),
    ensures
        p.norm_prefix(n).eval(s) == min_of(evals(p->Min_0.take(n as int), s)),
    decreases p, n,
{
    let ps = p->Min_0;
    if n > 0 {
        lemma_norm_prefix_eval(p, (n - 1) as nat, s);
        lemma_norm_eval(ps[n - 1], s);
        lemma_eval_min2(p.norm_prefix((n - 1) as nat), ps[n - 1].norm(), s);
        assert(evals(ps.take(n as int), s) =~= evals(ps.take(n - 1), s).push(ps[n - 1].eval(s)));
        lemma_min_of_push(evals(ps.take(n - 1), s), ps[n - 1].eval(s));
    } else {
        assert(evals(ps.take(0), s) =~= Seq::<ConcretePerm>::empty());
    }
}

/// An expression and its normal form have the same value under every
/// assignment.
pub proof fn lemma_norm_eval(p: SpecPerm, s: Valuation)
    ensures
        p.norm().eval(s) == p.eval(s),
    decreases p, p.arity() + 1,
{
    match p {
        SpecPerm::Min(ps) => {
            lemma_norm_prefix_eval(p, ps.len(), s);
            assert(ps.take(ps.len() as int) =~= ps);
            lemma_eval_min(ps, s);
        },
        _ => {},
    }
}

/// Merging introduces no operand.
pub proof fn lemma_merge_new_elements(ps: Seq<SpecPerm>, qs: Seq<SpecPerm>, x: SpecPerm)
    requires
        merge_new(ps, qs).contains(x),
    ensures
        ps.contains(x) || qs.contains(x),
    decreases qs.len(),
{
    if qs.len() > 0 {
        let r = merge_new(ps, qs.drop_last());
        if r.contains(x) {
            lemma_merge_new_elements(ps, qs.drop_last(), x);
            if qs.drop_last().contains(x) {
                let j = choose|j: int| 0 <= j < qs.drop_last().len() && qs.drop_last()[j] == x;
                assert(qs[j] == x);
            }
        } else {
            let j = choose|j: int| 0 <= j < r.push(qs.last()).len() && r.push(qs.last())[j] == x;
            if j < r.len() {
                assert(r[j] == x);
            }
            assert(qs[qs.len() - 1] == x);
        }
    }
}

/// `min2` introduces no variable.
pub proof fn lemma_min2_mentions(a: SpecPerm, b: SpecPerm, v: PermVar)
    requires
        SpecPerm::min2(a, b).mentions(v),
    ensures
        a.mentions(v) || b.mentions(v),
{
    let r = SpecPerm::min2(a, b);
    let read = SpecPerm::Concrete(ConcretePerm::Read);
    let mv = SpecPerm::Concrete(ConcretePerm::Move);
    if a == read || b == read || a == mv || b == mv {
    } else {
        match r {
            SpecPerm::Min(rs) => {
                let i = choose|i: int| 0 <= i < rs.len() && (#[trigger] rs[i]).mentions(v);
                assert(rs.contains(rs[i]));
                match (a, b) {
                    (SpecPerm::Min(ps), SpecPerm::Min(qs)) => {
                        lemma_merge_new_elements(ps, qs, rs[i]);
                        if ps.contains(rs[i]) {
                            let j = choose|j: int| 0 <= j < ps.len() && ps[j] == rs[i];
                            assert(ps[j].mentions(v));
                        } else {
                            let j = choose|j: int| 0 <= j < qs.len() && qs[j] == rs[i];
                            assert(qs[j].mentions(v));
                        }
                    },
                    (SpecPerm::Min(ps), _) => {
                        lemma_merge_new_elements(ps, seq![b], rs[i]);
                        if ps.contains(rs[i]) {
                            let j = choose|j: int| 0 <= j < ps.len() && ps[j] == rs[i];
                            assert(ps[j].mentions(v));
                        } else {
                            let j = choose|j: int| 0 <= j < seq![b].len() && seq![b][j] == rs[i];
                        }
                    },
                    (_, SpecPerm::Min(qs)) => {
                        lemma_merge_new_elements(qs, seq![a], rs[i]);
                        if qs.contains(rs[i]) {
                            let j = choose|j: int| 0 <= j < qs.len() && qs[j] == rs[i];
                            assert(qs[j].mentions(v));
                        } else {
                            let j = choose|j: int| 0 <= j < seq![a].len() && seq![a][j] == rs[i];
                        }
                    },
                    _ => {
                        if a != b {
                            assert(rs =~= seq![a, b]);
                        }
                    },
                }
            },
            _ => {},
        }
    }
}

/// Normalizing the first `n` operands introduces no variable.
pub proof fn lemma_norm_prefix_mentions(p: SpecPerm, n: nat, v: PermVar)
    requires
        p is Min,
        n <= p.arity(),
        p.norm_prefix(n).mentions(v),
    ensures
        p.mentions(v),
    decreases p, n,
{
    let ps = p->Min_0;
    if n > 0 {
        lemma_min2_mentions(p.norm_prefix((n - 1) as nat), ps[n - 1].norm(), v);
        if p.norm_prefix((n - 1) as nat).mentions(v) {
            lemma_norm_prefix_mentions(p, (n - 1) as nat, v);
        } else {
            lemma_norm_mentions(ps[n - 1], v);
            assert(ps[n - 1].mentions(v));
        }
    }
}

/// The normal form mentions only variables of the expression.
pub proof fn lemma_norm_mentions(p: SpecPerm, v: PermVar)
    requires
        p.norm().mentions(v),
    ensures
        p.mentions(v),
    decreases p, p.arity() + 1,
{
    match p {
        SpecPerm::Min(ps) => {
            lemma_norm_prefix_mentions(p, ps.len(), v);
        },
        _ => {},
    }
}


/// Whether `p` can be an operand of a minimum in normal form: it is not a
/// minimum itself, and it is neither `Read` nor `Move`.
pub open spec fn plain_operand(p: SpecPerm) -> bool {
    p.is_atom() && p != SpecPerm::Concrete(ConcretePerm::Read) && p != SpecPerm::Concrete(
        ConcretePerm::Move,
    )
}

/// Whether `p` is in normal form: not a minimum, or a minimum of two or
/// more operands, each a plain operand and none repeated.
pub open spec fn normal(p: SpecPerm) -> bool {
    match p {
        SpecPerm::Min(ps) => ps.len() >= 2 && ps.no_duplicates() && forall|i: int|
            0 <= i < ps.len() ==> plain_operand(#[trigger] ps[i]),
        _ => true,
    }
}

/// Merging keeps the first list as it is and repeats no operand.
pub proof fn lemma_merge_new_shape(ps: Seq<SpecPerm>, qs: Seq<SpecPerm>)
    requires
        ps.no_duplicates(),
    ensures
        merge_new(ps, qs).no_duplicates(),
        merge_new(ps, qs).len() >= ps.len(),
        forall|i: int| 0 <= i < ps.len() ==> merge_new(ps, qs)[i] == ps[i],
        forall|i: int|
            0 <= i < merge_new(ps, qs).len() ==> ps.contains(#[trigger] merge_new(ps, qs)[i])
                || qs.contains(merge_new(ps, qs)[i]),
    decreases qs.len(),
{
    if qs.len() > 0 {
        let r = merge_new(ps, qs.drop_last());
        lemma_merge_new_shape(ps, qs.drop_last());
        let m = merge_new(ps, qs);
        assert forall|i: int| 0 <= i < m.len() implies ps.contains(#[trigger] m[i]) || qs.contains(
            m[i],
        ) by {
            if i < r.len() {
                assert(m[i] == r[i]);
                if qs.drop_last().contains(r[i]) {
                    let j = choose|j: int| 0 <= j < qs.drop_last().len() && qs.drop_last()[j] == r[i];
                    assert(qs[j] == r[i]);
                }
            } else {
                assert(m[i] == qs[qs.len() - 1]);
            }
        }
    }
}

/// The minimum of two expressions in normal form is in normal form.
pub proof fn lemma_min2_normal(a: SpecPerm, b: SpecPerm)
    requires
        normal(a),
        normal(b),
    ensures
        normal(SpecPerm::min2(a, b)),
{
    let read = SpecPerm::Concrete(ConcretePerm::Read);
    let mv = SpecPerm::Concrete(ConcretePerm::Move);
    if a == read || b == read || a == mv || b == mv {
    } else {
        match (a, b) {
            (SpecPerm::Min(ps), SpecPerm::Min(qs)) => {
                lemma_merge_new_shape(ps, qs);
                let m = merge_new(ps, qs);
                assert forall|i: int| 0 <= i < m.len() implies plain_operand(#[trigger] m[i]) by {
                    if ps.contains(m[i]) {
                        let j = choose|j: int| 0 <= j < ps.len() && ps[j] == m[i];
                        assert(plain_operand(ps[j]));
                    } else {
                        let j = choose|j: int| 0 <= j < qs.len() && qs[j] == m[i];
                        assert(plain_operand(qs[j]));
                    }
                }
            },
            (SpecPerm::Min(ps), _) => {
                lemma_merge_new_shape(ps, seq![b]);
                let m = merge_new(ps, seq![b]);
                assert forall|i: int| 0 <= i < m.len() implies plain_operand(#[trigger] m[i]) by {
                    if ps.contains(m[i]) {
                        let j = choose|j: int| 0 <= j < ps.len() && ps[j] == m[i];
                        assert(plain_operand(ps[j]));
                    } else {
                        let j = choose|j: int| 0 <= j < seq![b].len() && seq![b][j] == m[i];
                    }
                }
            },
            (_, SpecPerm::Min(qs)) => {
                lemma_merge_new_shape(qs, seq![a]);
                let m = merge_new(qs, seq![a]);
                assert forall|i: int| 0 <= i < m.len() implies plain_operand(#[trigger] m[i]) by {
                    if qs.contains(m[i]) {
                        let j = choose|j: int| 0 <= j < qs.len() && qs[j] == m[i];
                        assert(plain_operand(qs[j]));
                    } else {
                        let j = choose|j: int| 0 <= j < seq![a].len() && seq![a][j] == m[i];
                    }
                }
            },
            _ => {
                if a != b {
                    let m = seq![a, b];
                    assert(m.no_duplicates());
                }
            },
        }
    }
}

/// The normal form of the first `n` operands is in normal form.
pub proof fn lemma_norm_prefix_normal(p: SpecPerm, n: nat)
    requires
        p is Min,
        n <= p.arity(),
    ensures
        normal(p.norm_prefix(n)),
    decreases p, n,
{
    if n > 0 {
        lemma_norm_prefix_normal(p, (n - 1) as nat);
        lemma_norm_normal(p->Min_0[n - 1]);
        lemma_min2_normal(p.norm_prefix((n - 1) as nat), p->Min_0[n - 1].norm());
    }
}

/// The normal form of an expression is in normal form.
pub proof fn lemma_norm_normal(p: SpecPerm)
    ensures
        normal(p.norm()),
    decreases p, p.arity() + 1,
{
    match p {
        SpecPerm::Min(ps) => {
            lemma_norm_prefix_normal(p, ps.len());
        },
        _ => {},
    }
}

/// Of a minimum in normal form, the normal form of the first `n`
/// operands is `Move` for none, the operand for one, and their minimum
/// for more.
pub proof fn lemma_norm_prefix_of_normal(p: SpecPerm, n: nat)
    requires
        p is Min,
        normal(p),
        n <= p.arity(),
    ensures
        p.norm_prefix(n) == (if n == 0 {
            SpecPerm::Concrete(ConcretePerm::Move)
        } else if n == 1 {
            p->Min_0[0]
        } else {
            SpecPerm::Min(p->Min_0.take(n as int))
        }),
    decreases n,
{
    let ps = p->Min_0;
    if n > 0 {
        lemma_norm_prefix_of_normal(p, (n - 1) as nat);
        let x = ps[n - 1];
        assert(plain_operand(x));
        assert(x.norm() == x);
        if n == 2 {
            assert(plain_operand(ps[0]));
            assert(ps[0] != ps[1]);
            assert(ps.take(2) =~= seq![ps[0], ps[1]]);
        } else if n > 2 {
            let prev = ps.take(n - 1);
            assert(merge_new(prev, seq![x].drop_last()) == prev);
            assert(seq![x].last() == x);
            assert(!prev.contains(x)) by {
                if prev.contains(x) {
                    let j = choose|j: int| 0 <= j < prev.len() && prev[j] == x;
                    assert(ps[j] == ps[n - 1]);
                }
            }
            assert(prev.push(x) =~= ps.take(n as int));
        }
    }
}

/// An expression in normal form is its own normal form.
pub proof fn lemma_norm_of_normal(p: SpecPerm)
    requires
        normal(p),
    ensures
        p.norm() == p,
{
    match p {
        SpecPerm::Min(ps) => {
            lemma_norm_prefix_of_normal(p, ps.len());
            assert(ps.take(ps.len() as int) =~= ps);
        },
        _ => {},
    }
}

/// Bringing an expression into normal form twice gives what doing it once
/// gives.
pub proof fn lemma_norm_idempotent(p: SpecPerm)
    ensures
        p.norm().norm() == p.norm(),
{
    lemma_norm_normal(p);
    lemma_norm_of_normal(p.norm());
}

/// A concrete permission for each variable, kind by kind and index by
/// index. A variable that is given none has `Read`.
#[derive(PartialEq, Eq, Debug)]
pub struct Assignment {
    pub statics: Vec<ConcretePerm>,
    pub sigs: Vec<ConcretePerm>,
    pub insts: Vec<ConcretePerm>,
    pub locals: Vec<ConcretePerm>,
}

/// The permission at index `v` of `ps`, and `Read` past the end.
pub open spec fn spec_lookup_perm(ps: Seq<ConcretePerm>, v: Var) -> ConcretePerm {
    if v.0 < ps.len() {
        ps[v.0 as int]
    } else {
        ConcretePerm::Read
    }
}

fn lookup_perm(ps: &Vec<ConcretePerm>, v: Var) -> (r: ConcretePerm)
    ensures
        r == spec_lookup_perm(ps@, v),
{
    if (v.0 as usize) < ps.len() {
        ps[v.0 as usize]
    } else {
        ConcretePerm::Read
    }
}

impl Assignment {
    /// The permission of variable `v`.
    pub open spec fn spec_get(&self, v: PermVar) -> ConcretePerm {
        match v {
            PermVar::Static(i) => spec_lookup_perm(self.statics@, i),
            PermVar::Sig(i) => spec_lookup_perm(self.sigs@, i),
            PermVar::Inst(i) => spec_lookup_perm(self.insts@, i),
            PermVar::Local(i) => spec_lookup_perm(self.locals@, i),
        }
    }

    /// The assignment as a function from variables to permissions.
    pub open spec fn valuation(&self) -> Valuation {
        |v: PermVar| self.spec_get(v)
    }

    /// The permission of variable `v`.
    pub fn get(&self, v: PermVar) -> (r: ConcretePerm)
        ensures
            r == self.valuation()(v),
    {
        match v {
            PermVar::Static(i) => lookup_perm(&self.statics, i),
            PermVar::Sig(i) => lookup_perm(&self.sigs, i),
            PermVar::Inst(i) => lookup_perm(&self.insts, i),
            PermVar::Local(i) => lookup_perm(&self.locals, i),
        }
    }
}

impl Perm {
    /// The value of the expression under `assign`: a concrete permission
    /// is itself, a variable is what it is assigned, a minimum is the
    /// smallest of the values of its operands.
    pub fn eval(&self, assign: &Assignment) -> (r: ConcretePerm)
        ensures
            r == self@.eval(assign.valuation()),
        decreases self,
    {
        match self {
            Perm::Concrete(c) => *c,
            Perm::Min(ps) => {
                proof {
                    lemma_min_view(*ps);
                    lemma_eval_min(perm_views(ps@), assign.valuation());
                }
                let ghost vals = evals(perm_views(ps@), assign.valuation());
                let mut acc = ConcretePerm::Move;
                let mut i: usize = 0;
                assert(vals.take(0) =~= Seq::<ConcretePerm>::empty());
                #[verifier::loop_isolation(false)]
                while i < ps.len()
                    invariant
                        i <= ps.len(),
                        acc == min_of(vals.take(i as int)),
                    decreases ps.len() - i,
                {
                    let v = ps[i].eval(assign);
                    proof {
                        assert(vals[i as int] == ps@[i as int]@.eval(assign.valuation()));
                        assert(vals.take(i + 1) =~= vals.take(i as int).push(vals[i as int]));
                        lemma_min_of_push(vals.take(i as int), vals[i as int]);
                    }
                    acc = v.meet(acc);
                    i += 1;
                }
                assert(vals.take(ps.len() as int) =~= vals);
                acc
            },
            _ => {
                match self.as_var() {
                    Some(v) => assign.get(v),
                    None => ConcretePerm::Move,
                }
            },
        }
    }
}

} // verus!
