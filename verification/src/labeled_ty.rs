//! Types whose every node carries a label.
//!
//! A labelled type mirrors the shape of a type: a node for the type itself
//! and, below it, one labelled type for each of the type's arguments. What a
//! label means is up to the user of this module. Every operation here keeps
//! the shape.

use vstd::prelude::*;
use crate::error::Error;
use crate::perm::PermVar;
use crate::ty::{lemma_ty_view, ty_views, SpecTy, Ty, TyKind};

verus! {

/// A labelled type, as a mathematical value.
pub struct SpecLabeledTy<LV> {
    pub kind: TyKind,
    pub label: LV,
    pub args: Seq<SpecLabeledTy<LV>>,
}

/// A labelled type.
#[derive(PartialEq, Eq, Debug)]
pub struct LabeledTy<L> {
    /// What the underlying type is at this node.
    pub kind: TyKind,
    /// The label of this node.
    pub label: L,
    /// The labelled types of the type's arguments.
    pub args: Vec<LabeledTy<L>>,
}

impl<L: View> LabeledTy<L> {
    /// The labelled type as a mathematical value.
    pub open spec fn model(self) -> SpecLabeledTy<L::V>
        decreases self,
    {
        SpecLabeledTy {
            kind: self.kind,
            label: self.label@,
            args: self.args@.map_values(
                |t: LabeledTy<L>|
                    if decreases_to!(self => t) {
                        t.model()
                    } else {
                        arbitrary()
                    },
            ),
        }
    }
}

impl<L: View> View for LabeledTy<L> {
    type V = SpecLabeledTy<L::V>;

    open spec fn view(&self) -> SpecLabeledTy<L::V> {
        self.model()
    }
}

/// The views of the labelled types in `ts`, in order.
pub open spec fn lty_views<L: View>(ts: Seq<LabeledTy<L>>) -> Seq<SpecLabeledTy<L::V>> {
    ts.map_values(|t: LabeledTy<L>| t@)
}

/// The view of a labelled type has the kind, the view of the label and the
/// views of the arguments.
pub proof fn lemma_lty_view<L: View>(t: LabeledTy<L>)
    ensures
        t@ == (SpecLabeledTy { kind: t.kind, label: t.label@, args: lty_views(t.args@) }),
{
    assert(t@.args =~= lty_views(t.args@));
}

/// A labelled function signature, as a mathematical value.
pub struct SpecFnSig<LV> {
    pub inputs: Seq<SpecLabeledTy<LV>>,
    pub output: SpecLabeledTy<LV>,
}

/// A labelled function signature: the labelled types of the arguments and
/// of the result.
#[derive(PartialEq, Eq, Debug)]
pub struct FnSig<L> {
    pub inputs: Vec<LabeledTy<L>>,
    pub output: LabeledTy<L>,
}

impl<L: View> View for FnSig<L> {
    type V = SpecFnSig<L::V>;

    open spec fn view(&self) -> SpecFnSig<L::V> {
        SpecFnSig { inputs: lty_views(self.inputs@), output: self.output@ }
    }
}

/// What this module asks of a type of labels: that a label can be copied.
pub trait LabelValue: View + Sized {
    /// A copy of the label.
    fn duplicate(&self) -> (r: Self)
        ensures
            r@ == self@,
    ;
}

impl LabelValue for Option<PermVar> {
    fn duplicate(&self) -> (r: Self) {
        *self
    }
}

impl LabelValue for () {
    fn duplicate(&self) -> (r: Self) {
        ()
    }
}

/// Decides the label of each node while a type is labelled. A source has a
/// state, which deciding a label may change: a counter of the variables
/// handed out, a list of records.
pub trait LabelSource<L: View> {
    /// The state of the source, as a mathematical value.
    type State;

    /// The current state.
    spec fn state(&self) -> Self::State;

    /// The label of a node of kind `kind` and the state after deciding it,
    /// or the reason for which no label can be given.
    spec fn decide_spec(st: Self::State, kind: TyKind) -> Result<(Self::State, L::V), Error>;

    /// Decides the label of a node of kind `kind`.
    fn decide(&mut self, kind: TyKind) -> (r: Result<L, Error>)
        ensures
            match Self::decide_spec(old(self).state(), kind) {
                Ok((st, l)) => r is Ok && r->Ok_0@ == l && final(self).state() == st,
                Err(e) => r is Err && r->Err_0 == e,
            },
    ;
}

/// Replaces a label by another, without any state.
pub trait LabelMap<L1: View, L2: View> {
    /// The label that replaces `l`, or the reason for which there is none.
    spec fn map_spec(&self, l: L1::V) -> Result<L2::V, Error>;

    /// Computes the label that replaces `l`.
    fn map(&self, l: &L1) -> (r: Result<L2, Error>)
        ensures
            match self.map_spec(l@) {
                Ok(x) => r is Ok && r->Ok_0@ == x,
                Err(e) => r is Err && r->Err_0 == e,
            },
    ;
}

/// The labelled type that [`label`] builds for `ty` from a source in state
/// `st`, with the state that the source is left in. The label of a node is
/// decided before the labels of the nodes below it, and those from left to
/// right; each node is decided once.
pub open spec fn spec_label<L: View, S: LabelSource<L>>(st: S::State, ty: SpecTy) -> Result<
    (S::State, SpecLabeledTy<L::V>),
    Error,
>
    decreases ty, 0nat,
{
    match S::decide_spec(st, ty.kind) {
        Err(e) => Err(e),
        Ok((st1, l)) => match spec_label_seq::<L, S>(st1, ty.args, ty.args.len()) {
            Err(e) => Err(e),
            Ok((st2, args)) => Ok((st2, SpecLabeledTy { kind: ty.kind, label: l, args })),
        },
    }
}

/// The labelled types that [`label_all`] builds for the first `n` types
/// of `tys`, from left to right.
pub open spec fn spec_label_seq<L: View, S: LabelSource<L>>(
    st: S::State,
    tys: Seq<SpecTy>,
    n: nat,
) -> Result<(S::State, Seq<SpecLabeledTy<L::V>>), Error>
    decreases tys, n,
{
    if n == 0 || n > tys.len() {
        Ok((st, Seq::empty()))
    } else {
        match spec_label_seq::<L, S>(st, tys, (n - 1) as nat) {
            Err(e) => Err(e),
            Ok((st1, xs)) => match spec_label::<L, S>(st1, tys[n - 1]) {
                Err(e) => Err(e),
                Ok((st2, x)) => Ok((st2, xs.push(x))),
            },
        }
    }
}

/// Once labelling a prefix has failed, labelling a longer prefix fails in
/// the same way.
pub proof fn lemma_label_seq_err<L: View, S: LabelSource<L>>(
    st: S::State,
    tys: Seq<SpecTy>,
    k: nat,
    n: nat,
)
    requires
        k <= n <= tys.len(),
        spec_label_seq::<L, S>(st, tys, k) is Err,
    ensures
        spec_label_seq::<L, S>(st, tys, n) == spec_label_seq::<L, S>(st, tys, k),
    decreases n,
{
    if k < n {
        lemma_label_seq_err::<L, S>(st, tys, k, (n - 1) as nat);
    }
}

/// Builds the labelled type of `ty`. The source decides the label of each
/// node, once per node: of a node before the nodes below it, and of those
/// from left to right.
pub fn label<L: View, S: LabelSource<L>>(ty: &Ty, src: &mut S) -> (r: Result<LabeledTy<L>, Error>)
    ensures
        match spec_label::<L, S>(old(src).state(), ty@) {
            Ok((st, t)) => r is Ok && r->Ok_0@ == t && final(src).state() == st,
            Err(e) => r is Err && r->Err_0 == e,
        },
    decreases ty,
{
    proof {
        lemma_ty_view(*ty);
    }
    let l = match src.decide(ty.kind) {
        Ok(l) => l,
        Err(e) => {
            return Err(e);
        },
    };
    let args = match label_all::<L, S>(&ty.args, src) {
        Ok(args) => args,
        Err(e) => {
            return Err(e);
        },
    };
    let r = LabeledTy { kind: ty.kind, label: l, args };
    proof {
        lemma_lty_view(r);
    }
    Ok(r)
}

/// Builds the labelled types of `tys`, from left to right.
pub fn label_all<L: View, S: LabelSource<L>>(tys: &Vec<Ty>, src: &mut S) -> (r: Result<
    Vec<LabeledTy<L>>,
    Error,
>)
    ensures
        match spec_label_seq::<L, S>(old(src).state(), ty_views(tys@), tys@.len()) {
            Ok((st, ts)) => r is Ok && lty_views(r->Ok_0@) == ts && final(src).state() == st,
            Err(e) => r is Err && r->Err_0 == e,
        },
    decreases tys,
{
    let ghost st0 = src.state();
    let ghost vs = ty_views(tys@);
    let mut out: Vec<LabeledTy<L>> = Vec::new();
    let mut i: usize = 0;
    assert(lty_views(out@) =~= Seq::<SpecLabeledTy<L::V>>::empty());
    #[verifier::loop_isolation(false)]
    while i < tys.len()
        invariant
            i <= tys.len(),
            spec_label_seq::<L, S>(st0, vs, i as nat) == Ok::<
                (S::State, Seq<SpecLabeledTy<L::V>>),
                Error,
            >((src.state(), lty_views(out@))),
        decreases tys.len() - i,
    {
        let ghost before = lty_views(out@);
        assert(vs[i as int] == tys@[i as int]@);
        match label::<L, S>(&tys[i], src) {
            Ok(t) => {
                out.push(t);
                assert(lty_views(out@) =~= before.push(t@));
            },
            Err(e) => {
                proof {
                    assert(spec_label_seq::<L, S>(st0, vs, (i + 1) as nat) is Err);
                    lemma_label_seq_err::<L, S>(st0, vs, (i + 1) as nat, tys@.len());
                }
                return Err(e);
            },
        }
        i += 1;
    }
    Ok(out)
}

/// The labelled type that [`relabel`] builds from `t`: the same shape, and
/// at each node the label that `m` gives for the label of `t` there. The
/// nodes below a node are relabelled before the node, from left to right,
/// and the first failure is the result.
pub open spec fn spec_relabel<L1: View, L2: View, M: LabelMap<L1, L2>>(
    t: SpecLabeledTy<L1::V>,
    m: M,
) -> Result<SpecLabeledTy<L2::V>, Error>
    decreases t, 0nat,
{
    match spec_relabel_seq::<L1, L2, M>(t.args, m, t.args.len()) {
        Err(e) => Err(e),
        Ok(args) => match m.map_spec(t.label) {
            Err(e) => Err(e),
            Ok(l) => Ok(SpecLabeledTy { kind: t.kind, label: l, args }),
        },
    }
}

/// The labelled types that [`relabel_all`] builds from the first `n`
/// elements of `ts`.
pub open spec fn spec_relabel_seq<L1: View, L2: View, M: LabelMap<L1, L2>>(
    ts: Seq<SpecLabeledTy<L1::V>>,
    m: M,
    n: nat,
) -> Result<Seq<SpecLabeledTy<L2::V>>, Error>
    decreases ts, n,
{
    if n == 0 || n > ts.len() {
        Ok(Seq::empty())
    } else {
        match spec_relabel_seq::<L1, L2, M>(ts, m, (n - 1) as nat) {
            Err(e) => Err(e),
            Ok(xs) => match spec_relabel::<L1, L2, M>(ts[n - 1], m) {
                Err(e) => Err(e),
                Ok(x) => Ok(xs.push(x)),
            },
        }
    }
}

/// Once relabelling a prefix has failed, relabelling a longer prefix fails
/// in the same way.
pub proof fn lemma_relabel_seq_err<L1: View, L2: View, M: LabelMap<L1, L2>>(
    ts: Seq<SpecLabeledTy<L1::V>>,
    m: M,
    k: nat,
    n: nat,
)
    requires
        k <= n <= ts.len(),
        spec_relabel_seq::<L1, L2, M>(ts, m, k) is Err,
    ensures
        spec_relabel_seq::<L1, L2, M>(ts, m, n) == spec_relabel_seq::<L1, L2, M>(ts, m, k),
    decreases n,
{
    if k < n {
        lemma_relabel_seq_err::<L1, L2, M>(ts, m, k, (n - 1) as nat);
    }
}

/// Builds a labelled type of the same shape as `lty`, with each label
/// replaced by what `m` gives for it.
pub fn relabel<L1: View, L2: View, M: LabelMap<L1, L2>>(lty: &LabeledTy<L1>, m: &M) -> (r: Result<
    LabeledTy<L2>,
    Error,
>)
    ensures
        match spec_relabel::<L1, L2, M>(lty@, *m) {
            Ok(t) => r is Ok && r->Ok_0@ == t,
            Err(e) => r is Err && r->Err_0 == e,
        },
    decreases lty,
{
    proof {
        lemma_lty_view(*lty);
    }
    let args = match relabel_all::<L1, L2, M>(&lty.args, m) {
        Ok(args) => args,
        Err(e) => {
            return Err(e);
        },
    };
    let l = match m.map(&lty.label) {
        Ok(l) => l,
        Err(e) => {
            return Err(e);
        },
    };
    let r = LabeledTy { kind: lty.kind, label: l, args };
    proof {
        lemma_lty_view(r);
    }
    Ok(r)
}

/// Relabels each element of `ltys`, from left to right.
pub fn relabel_all<L1: View, L2: View, M: LabelMap<L1, L2>>(
    ltys: &Vec<LabeledTy<L1>>,
    m: &M,
) -> (r: Result<Vec<LabeledTy<L2>>, Error>)
    ensures
        match spec_relabel_seq::<L1, L2, M>(lty_views(ltys@), *m, ltys@.len()) {
            Ok(ts) => r is Ok && lty_views(r->Ok_0@) == ts,
            Err(e) => r is Err && r->Err_0 == e,
        },
    decreases ltys,
{
    let ghost vs = lty_views(ltys@);
    let mut out: Vec<LabeledTy<L2>> = Vec::new();
    let mut i: usize = 0;
    assert(lty_views(out@) =~= Seq::<SpecLabeledTy<L2::V>>::empty());
    #[verifier::loop_isolation(false)]
    while i < ltys.len()
        invariant
            i <= ltys.len(),
            spec_relabel_seq::<L1, L2, M>(vs, *m, i as nat) == Ok::<
                Seq<SpecLabeledTy<L2::V>>,
                Error,
            >(lty_views(out@)),
        decreases ltys.len() - i,
    {
        let ghost before = lty_views(out@);
        assert(vs[i as int] == ltys@[i as int]@);
        match relabel::<L1, L2, M>(&ltys[i], m) {
            Ok(t) => {
                out.push(t);
                assert(lty_views(out@) =~= before.push(t@));
            },
            Err(e) => {
                proof {
                    assert(spec_relabel_seq::<L1, L2, M>(vs, *m, (i + 1) as nat) is Err);
                    lemma_relabel_seq_err::<L1, L2, M>(vs, *m, (i + 1) as nat, ltys@.len());
                }
                return Err(e);
            },
        }
        i += 1;
    }
    Ok(out)
}

/// The labelled type that [`subst`] builds from `t`: each node that stands
/// for type parameter `i` is replaced by `substs[i]`, label and all. Where a
/// parameter has no substitute the result is `Inconsistent`.
pub open spec fn spec_subst<LV>(t: SpecLabeledTy<LV>, substs: Seq<SpecLabeledTy<LV>>) -> Result<
    SpecLabeledTy<LV>,
    Error,
>
    decreases t, 0nat,
{
    match t.kind {
        TyKind::Param(i) => if i < substs.len() {
            Ok(substs[i as int])
        } else {
            Err(Error::Inconsistent)
        },
        _ => match spec_subst_seq(t.args, substs, t.args.len()) {
            Err(e) => Err(e),
            Ok(args) => Ok(SpecLabeledTy { kind: t.kind, label: t.label, args }),
        },
    }
}

/// The labelled types that [`subst_all`] builds from the first `n`
/// elements of `ts`.
pub open spec fn spec_subst_seq<LV>(
    ts: Seq<SpecLabeledTy<LV>>,
    substs: Seq<SpecLabeledTy<LV>>,
    n: nat,
) -> Result<Seq<SpecLabeledTy<LV>>, Error>
    decreases ts, n,
{
    if n == 0 || n > ts.len() {
        Ok(Seq::empty())
    } else {
        match spec_subst_seq(ts, substs, (n - 1) as nat) {
            Err(e) => Err(e),
            Ok(xs) => match spec_subst(ts[n - 1], substs) {
                Err(e) => Err(e),
                Ok(x) => Ok(xs.push(x)),
            },
        }
    }
}

/// Once substituting in a prefix has failed, substituting in a longer
/// prefix fails in the same way.
pub proof fn lemma_subst_seq_err<LV>(
    ts: Seq<SpecLabeledTy<LV>>,
    substs: Seq<SpecLabeledTy<LV>>,
    k: nat,
    n: nat,
)
    requires
        k <= n <= ts.len(),
        spec_subst_seq(ts, substs, k) is Err,
    ensures
        spec_subst_seq(ts, substs, n) == spec_subst_seq(ts, substs, k),
    decreases n,
{
    if k < n {
        lemma_subst_seq_err(ts, substs, k, (n - 1) as nat);
    }
}

/// The labels of `t`: that of the node, then those of the nodes below it
/// from left to right, each subtree in the same order.
pub open spec fn spec_labels<LV>(t: SpecLabeledTy<LV>) -> Seq<LV>
    decreases t, 0nat,
{
    seq![t.label] + spec_labels_seq(t.args, t.args.len())
}

/// The labels of the first `n` elements of `ts`.
pub open spec fn spec_labels_seq<LV>(ts: Seq<SpecLabeledTy<LV>>, n: nat) -> Seq<LV>
    decreases ts, n,
{
    if n == 0 || n > ts.len() {
        Seq::empty()
    } else {
        spec_labels_seq(ts, (n - 1) as nat) + spec_labels(ts[n - 1])
    }
}

/// The views of the labels in `ls`, in order.
pub open spec fn label_views<L: View>(ls: Seq<L>) -> Seq<L::V> {
    ls.map_values(|l: L| l@)
}

impl<L: LabelValue> LabeledTy<L> {
    /// The labelled type of the given kind, label and arguments.
    pub fn new(kind: TyKind, label: L, args: Vec<LabeledTy<L>>) -> (r: LabeledTy<L>)
        ensures
            r@ == (SpecLabeledTy { kind, label: label@, args: lty_views(args@) }),
    {
        let r = LabeledTy { kind, label, args };
        proof {
            lemma_lty_view(r);
        }
        r
    }

    /// A copy of the labelled type.
    pub fn duplicate(&self) -> (r: LabeledTy<L>)
        ensures
            r@ == self@,
        decreases self,
    {
        let args = duplicate_all(&self.args);
        let r = LabeledTy { kind: self.kind, label: self.label.duplicate(), args };
        proof {
            lemma_lty_view(*self);
            lemma_lty_view(r);
        }
        r
    }

    /// Replaces each node that stands for a type parameter by the
    /// substitute with the parameter's index, and copies the rest.
    pub fn subst(&self, substs: &Vec<LabeledTy<L>>) -> (r: Result<LabeledTy<L>, Error>)
        ensures
            match spec_subst(self@, lty_views(substs@)) {
                Ok(t) => r is Ok && r->Ok_0@ == t,
                Err(e) => r is Err && r->Err_0 == e,
            },
        decreases self,
    {
        proof {
            lemma_lty_view(*self);
        }
        match self.kind {
            TyKind::Param(i) => {
                if (i as usize) < substs.len() {
                    assert(lty_views(substs@)[i as int] == substs@[i as int]@);
                    Ok(substs[i as usize].duplicate())
                } else {
                    Err(Error::Inconsistent)
                }
            },
            _ => {
                let args = match subst_all(&self.args, substs) {
                    Ok(args) => args,
                    Err(e) => {
                        return Err(e);
                    },
                };
                let r = LabeledTy { kind: self.kind, label: self.label.duplicate(), args };
                proof {
                    lemma_lty_view(r);
                }
                Ok(r)
            },
        }
    }

    /// Appends the labels of the labelled type to `out`: that of the node,
    /// then those of the nodes below it from left to right.
    pub fn collect_labels(&self, out: &mut Vec<L>)
        ensures
            label_views(final(out)@) == label_views(old(out)@) + spec_labels(self@),
        decreases self,
    {
        proof {
            lemma_lty_view(*self);
        }
        let ghost start = label_views(out@);
        out.push(self.label.duplicate());
        assert(label_views(out@) =~= start + seq![self.label@]);
        let mut i: usize = 0;
        #[verifier::loop_isolation(false)]
        while i < self.args.len()
            invariant
                i <= self.args.len(),
                label_views(out@) == start + seq![self.label@] + spec_labels_seq(
                    self@.args,
                    i as nat,
                ),
            decreases self.args.len() - i,
        {
            assert(self@.args[i as int] == self.args@[i as int]@);
            self.args[i].collect_labels(out);
            assert(label_views(out@) =~= start + seq![self.label@] + spec_labels_seq(
                self@.args,
                (i + 1) as nat,
            ));
            i += 1;
        }
        assert(label_views(out@) =~= start + spec_labels(self@));
    }

    /// The labels of the labelled type: that of the node, then those of the
    /// nodes below it from left to right.
    pub fn labels(&self) -> (r: Vec<L>)
        ensures
            label_views(r@) == spec_labels(self@),
    {
        let mut out: Vec<L> = Vec::new();
        assert(label_views(out@) =~= Seq::<L::V>::empty());
        self.collect_labels(&mut out);
        assert(label_views(out@) =~= spec_labels(self@));
        out
    }
}

/// Copies of the labelled types in `ts`, in order.
pub fn duplicate_all<L: LabelValue>(ts: &Vec<LabeledTy<L>>) -> (r: Vec<LabeledTy<L>>)
    ensures
        lty_views(r@) == lty_views(ts@),
    decreases ts,
{
    let mut out: Vec<LabeledTy<L>> = Vec::new();
    let mut i: usize = 0;
    #[verifier::loop_isolation(false)]
    while i < ts.len()
        invariant
            i <= ts.len(),
            out.len() == i,
            forall|j: int| 0 <= j < i ==> out@[j]@ == ts@[j]@,
        decreases ts.len() - i,
    {
        out.push(ts[i].duplicate());
        i += 1;
    }
    assert(lty_views(out@) =~= lty_views(ts@));
    out
}

/// Substitutes in each element of `ts`, from left to right.
pub fn subst_all<L: LabelValue>(ts: &Vec<LabeledTy<L>>, substs: &Vec<LabeledTy<L>>) -> (r: Result<
    Vec<LabeledTy<L>>,
    Error,
>)
    ensures
        match spec_subst_seq(lty_views(ts@), lty_views(substs@), ts@.len()) {
            Ok(xs) => r is Ok && lty_views(r->Ok_0@) == xs,
            Err(e) => r is Err && r->Err_0 == e,
        },
    decreases ts,
{
    let ghost vs = lty_views(ts@);
    let ghost ss = lty_views(substs@);
    let mut out: Vec<LabeledTy<L>> = Vec::new();
    let mut i: usize = 0;
    assert(lty_views(out@) =~= Seq::<SpecLabeledTy<L::V>>::empty());
    #[verifier::loop_isolation(false)]
    while i < ts.len()
        invariant
            i <= ts.len(),
            spec_subst_seq(vs, ss, i as nat) == Ok::<Seq<SpecLabeledTy<L::V>>, Error>(
                lty_views(out@),
            ),
        decreases ts.len() - i,
    {
        let ghost before = lty_views(out@);
        assert(vs[i as int] == ts@[i as int]@);
        match ts[i].subst(substs) {
            Ok(t) => {
                out.push(t);
                assert(lty_views(out@) =~= before.push(t@));
            },
            Err(e) => {
                proof {
                    assert(spec_subst_seq(vs, ss, (i + 1) as nat) is Err);
                    lemma_subst_seq_err(vs, ss, (i + 1) as nat, ts@.len());
                }
                return Err(e);
            },
        }
        i += 1;
    }
    Ok(out)
}

impl<L: LabelValue> FnSig<L> {
    /// A copy of the signature.
    pub fn duplicate(&self) -> (r: FnSig<L>)
        ensures
            r@ == self@,
    {
        FnSig { inputs: duplicate_all(&self.inputs), output: self.output.duplicate() }
    }
}

/// The type that `t` is a labelling of.
pub open spec fn spec_erase<LV>(t: SpecLabeledTy<LV>) -> SpecTy
    decreases t,
{
    SpecTy {
        kind: t.kind,
        args: t.args.map_values(
            |a: SpecLabeledTy<LV>|
                if decreases_to!(t => a) {
                    spec_erase(a)
                } else {
                    arbitrary()
                },
        ),
    }
}

/// The types that the elements of `ts` are labellings of.
pub open spec fn spec_erase_seq<LV>(ts: Seq<SpecLabeledTy<LV>>) -> Seq<SpecTy> {
    ts.map_values(|a: SpecLabeledTy<LV>| spec_erase(a))
}

/// The type under a labelled type has the kind of the top node and the
/// types under the nodes below it.
pub proof fn lemma_erase<LV>(t: SpecLabeledTy<LV>)
    ensures
        spec_erase(t) == (SpecTy { kind: t.kind, args: spec_erase_seq(t.args) }),
{
    assert forall|i: int| 0 <= i < t.args.len() implies decreases_to!(t => t.args[i]) by {
        assert(decreases_to!(t => t.args));
        assert(decreases_to!(t.args => t.args[i]));
    }
    assert(spec_erase(t).args =~= spec_erase_seq(t.args));
}

/// Whether `p` holds of the kind and the label of every node of `t`.
pub open spec fn all_nodes<LV>(t: SpecLabeledTy<LV>, p: spec_fn(TyKind, LV) -> bool) -> bool
    decreases t,
{
    p(t.kind, t.label) && forall|i: int|
        0 <= i < t.args.len() ==> all_nodes(#[trigger] t.args[i], p)
}

/// Labelling keeps the shape: the labelled type that is built for a type
/// is a labelling of that type, node for node. And what holds of every
/// label that the source decides, with the kind it is decided for, holds
/// at every node.
pub proof fn lemma_label_shape<L: View, S: LabelSource<L>>(
    st: S::State,
    ty: SpecTy,
    p: spec_fn(TyKind, L::V) -> bool,
)
    requires
        spec_label::<L, S>(st, ty) is Ok,
        forall|s: S::State, k: TyKind|
            (#[trigger] S::decide_spec(s, k)) is Ok ==> p(k, S::decide_spec(s, k)->Ok_0.1),
    ensures
        spec_erase(spec_label::<L, S>(st, ty)->Ok_0.1) == ty,
        all_nodes(spec_label::<L, S>(st, ty)->Ok_0.1, p),
    decreases ty, 0nat,
{
    let (st1, l) = S::decide_spec(st, ty.kind)->Ok_0;
    assert(S::decide_spec(st, ty.kind) is Ok);
    lemma_label_seq_shape::<L, S>(st1, ty.args, ty.args.len(), p);
    let t = spec_label::<L, S>(st, ty)->Ok_0.1;
    lemma_erase(t);
    assert(spec_erase_seq(t.args) =~= ty.args);
}

/// [`lemma_label_shape`] for the first `n` types of a list.
pub proof fn lemma_label_seq_shape<L: View, S: LabelSource<L>>(
    st: S::State,
    tys: Seq<SpecTy>,
    n: nat,
    p: spec_fn(TyKind, L::V) -> bool,
)
    requires
        n <= tys.len(),
        spec_label_seq::<L, S>(st, tys, n) is Ok,
        forall|s: S::State, k: TyKind|
            (#[trigger] S::decide_spec(s, k)) is Ok ==> p(k, S::decide_spec(s, k)->Ok_0.1),
    ensures
        spec_label_seq::<L, S>(st, tys, n)->Ok_0.1.len() == n,
        forall|i: int|
            0 <= i < n ==> spec_erase(#[trigger] spec_label_seq::<L, S>(st, tys, n)->Ok_0.1[i])
                == tys[i],
        forall|i: int|
            0 <= i < n ==> all_nodes(#[trigger] spec_label_seq::<L, S>(st, tys, n)->Ok_0.1[i], p),
    decreases tys, n,
{
    if n > 0 {
        lemma_label_seq_shape::<L, S>(st, tys, (n - 1) as nat, p);
        let (st1, xs) = spec_label_seq::<L, S>(st, tys, (n - 1) as nat)->Ok_0;
        lemma_label_shape::<L, S>(st1, tys[n - 1], p);
    }
}

/// Relabelling keeps the shape: the result is a labelling of the type
/// that the argument is a labelling of.
pub proof fn lemma_relabel_shape<L1: View, L2: View, M: LabelMap<L1, L2>>(
    t: SpecLabeledTy<L1::V>,
    m: M,
)
    requires
        spec_relabel::<L1, L2, M>(t, m) is Ok,
    ensures
        spec_erase(spec_relabel::<L1, L2, M>(t, m)->Ok_0) == spec_erase(t),
    decreases t, 0nat,
{
    lemma_relabel_seq_shape::<L1, L2, M>(t.args, m, t.args.len());
    let r = spec_relabel::<L1, L2, M>(t, m)->Ok_0;
    lemma_erase(t);
    lemma_erase(r);
    assert(spec_erase_seq(r.args) =~= spec_erase_seq(t.args));
}

/// [`lemma_relabel_shape`] for the first `n` elements of a list.
pub proof fn lemma_relabel_seq_shape<L1: View, L2: View, M: LabelMap<L1, L2>>(
    ts: Seq<SpecLabeledTy<L1::V>>,
    m: M,
    n: nat,
)
    requires
        n <= ts.len(),
        spec_relabel_seq::<L1, L2, M>(ts, m, n) is Ok,
    ensures
        spec_relabel_seq::<L1, L2, M>(ts, m, n)->Ok_0.len() == n,
        forall|i: int|
            0 <= i < n ==> spec_erase(#[trigger] spec_relabel_seq::<L1, L2, M>(ts, m, n)->Ok_0[i])
                == spec_erase(ts[i]),
    decreases ts, n,
{
    if n > 0 {
        lemma_relabel_seq_shape::<L1, L2, M>(ts, m, (n - 1) as nat);
        lemma_relabel_shape::<L1, L2, M>(ts[n - 1], m);
    }
}

} // verus!
