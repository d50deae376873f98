//! The analysis of one function body.
//!
//! The pass gives every local a labelled type, walks the statements and the
//! terminator of each basic block, and records how the permissions of the
//! values that are read, written, cast and passed to calls must relate. At
//! the end it erases what is local to the body and stores the constraints
//! in the summary of the variant.

use vstd::prelude::*;
use crate::constraint::{ConstraintSet, SpecConstraint};
use crate::constraint::{spec_retain, spec_simplify};
use crate::constraint::{keeps_fn, lemma_retain_mentions, lemma_simplify_mentions, mentions_only};
use crate::constraint::{lemma_retain_weaker, lemma_simplify_equiv, satisfies};
use crate::constraint::{lemma_simplest_fixed, lemma_simplify_simplest};
use crate::context::lemma_table_update;
use crate::context::{Ctxt, Instantiation, LFnSig, LTy, SpecCtxt, SpecLFnSig};
use crate::error::Error;
use crate::labeled_ty::{all_nodes, lemma_label_shape, spec_erase};
use crate::labeled_ty::{label, lty_views, relabel, relabel_all, subst_all};
use crate::labeled_ty::{spec_label, spec_relabel, spec_relabel_seq, spec_subst, spec_subst_seq};
use crate::labeled_ty::{lemma_lty_view, FnSig, LabelMap, LabelSource, LabelValue, LabeledTy};
use crate::labeled_ty::{SpecFnSig, SpecLabeledTy};
use crate::mir::{AggregateKind, BasicBlockData, BinOp, Mir, Operand, Place};
use crate::mir::{ProjectionElem, Rvalue, RvalueKind, Statement, Terminator};
use crate::perm::{ConcretePerm, NonLocal, Perm, PermVar, SpecPerm, Var};
use crate::ty::{DefId, Ty, TyKind};

verus! {

/// The label of a node while a body is analysed, as a mathematical value.
pub enum SpecLabel {
    Nothing,
    Ptr(SpecPerm),
    FnDef(usize),
}

/// The label of a node while a body is analysed.
#[derive(PartialEq, Eq, Debug)]
pub enum Label {
    /// Most types carry nothing.
    Nothing,
    /// Pointers and references carry a permission. It can be any
    /// expression: the address of a place has the permission under which
    /// the place is reached.
    Ptr(Perm),
    /// The type of a function item carries the index of the record of the
    /// place that refers to the function, in the list of instantiations.
    FnDef(usize),
}

impl View for Label {
    type V = SpecLabel;

    open spec fn view(&self) -> SpecLabel {
        match self {
            Label::Nothing => SpecLabel::Nothing,
            Label::Ptr(p) => SpecLabel::Ptr(p@),
            Label::FnDef(i) => SpecLabel::FnDef(*i),
        }
    }
}

impl LabelValue for Label {
    fn duplicate(&self) -> (r: Self) {
        match self {
            Label::Nothing => Label::Nothing,
            Label::Ptr(p) => Label::Ptr(p.duplicate()),
            Label::FnDef(i) => Label::FnDef(*i),
        }
    }
}

impl Label {
    /// The permission that a pointer label carries. Any other label is
    /// `Inconsistent` where a permission is asked for.
    pub open spec fn spec_perm(l: SpecLabel) -> Result<SpecPerm, Error> {
        match l {
            SpecLabel::Ptr(p) => Ok(p),
            _ => Err(Error::Inconsistent),
        }
    }

    /// The permission that a pointer label carries.
    pub fn perm(&self) -> (r: Result<Perm, Error>)
        ensures
            match Label::spec_perm(self@) {
                Ok(p) => r is Ok && r->Ok_0@ == p,
                Err(e) => r is Err && r->Err_0 == e,
            },
    {
        match self {
            Label::Ptr(p) => Ok(p.duplicate()),
            _ => Err(Error::Inconsistent),
        }
    }
}

/// A labelled type as the pass uses it.
pub type ITy = LabeledTy<Label>;

/// A labelled signature as the pass uses it.
pub type IFnSig = FnSig<Label>;

/// The view of an [`ITy`].
pub type SpecITy = SpecLabeledTy<SpecLabel>;

/// The view of an [`IFnSig`].
pub type SpecIFnSig = SpecFnSig<SpecLabel>;

/// Turns the variable of a stored type into the permission that consists
/// of that variable.
pub struct VarToPtr;

impl LabelMap<Option<PermVar>, Label> for VarToPtr {
    open spec fn map_spec(&self, l: Option<PermVar>) -> Result<SpecLabel, Error> {
        match l {
            Some(pv) => Ok(SpecLabel::Ptr(SpecPerm::Var(pv))),
            None => Ok(SpecLabel::Nothing),
        }
    }

    fn map(&self, l: &Option<PermVar>) -> (r: Result<Label, Error>) {
        match l {
            Some(pv) => Ok(Label::Ptr(Perm::var(*pv))),
            None => Ok(Label::Nothing),
        }
    }
}

/// Renames the signature variables of a callee for one place that refers
/// to it: signature variable `v` becomes instantiation variable
/// `base + v`. A signature holds no variable of another kind.
pub struct SigToInst {
    pub base: u32,
}

impl LabelMap<Option<PermVar>, Label> for SigToInst {
    open spec fn map_spec(&self, l: Option<PermVar>) -> Result<SpecLabel, Error> {
        match l {
            Some(PermVar::Sig(v)) => if self.base + v.0 > u32::MAX {
                Err(Error::Overflow)
            } else {
                Ok(SpecLabel::Ptr(SpecPerm::Var(PermVar::Inst(Var((self.base + v.0) as u32)))))
            },
            Some(_) => Err(Error::Inconsistent),
            None => Ok(SpecLabel::Nothing),
        }
    }

    fn map(&self, l: &Option<PermVar>) -> (r: Result<Label, Error>) {
        match l {
            Some(PermVar::Sig(v)) => {
                if v.0 > u32::MAX - self.base {
                    Err(Error::Overflow)
                } else {
                    Ok(Label::Ptr(Perm::InstVar(Var(self.base + v.0))))
                }
            },
            Some(_) => Err(Error::Inconsistent),
            None => Ok(Label::Nothing),
        }
    }
}

/// The state of the pass, as a mathematical value.
pub struct SpecIntra {
    pub cx: SpecCtxt,
    pub def_id: DefId,
    pub mir: Mir,
    pub bbid: usize,
    pub stmt_idx: usize,
    pub cset: Set<SpecConstraint>,
    pub local_tys: Seq<SpecITy>,
    pub next_local_var: u32,
    pub insts: Seq<Instantiation>,
    pub next_inst_var: u32,
}

/// The state of the pass over the body of one variant. The pass holds the
/// storage from [`IntraCtxt::new`] to [`IntraCtxt::finish`], which hands it
/// back.
pub struct IntraCtxt<'a> {
    /// The storage.
    pub cx: Ctxt,
    /// The variant whose body is analysed.
    pub def_id: DefId,
    /// The body.
    pub mir: &'a Mir,
    /// The basic block that is being handled.
    pub bbid: usize,
    /// The statement that is being handled; `usize::MAX` outside the
    /// statements of a block.
    pub stmt_idx: usize,
    /// The constraints found so far.
    pub cset: ConstraintSet,
    /// The labelled type of each local.
    pub local_tys: Vec<ITy>,
    /// The next local variable to hand out.
    pub next_local_var: u32,
    /// The places in the body that refer to functions. Each reference to
    /// a function gets a record and a range of instantiation variables of
    /// its own, which stand for the signature variables of the function at
    /// that place.
    pub insts: Vec<Instantiation>,
    /// The next instantiation variable to hand out.
    pub next_inst_var: u32,
}

impl<'a> View for IntraCtxt<'a> {
    type V = SpecIntra;

    open spec fn view(&self) -> SpecIntra {
        SpecIntra {
            cx: self.cx@,
            def_id: self.def_id,
            mir: *self.mir,
            bbid: self.bbid,
            stmt_idx: self.stmt_idx,
            cset: self.cset@,
            local_tys: lty_views(self.local_tys@),
            next_local_var: self.next_local_var,
            insts: self.insts@,
            next_inst_var: self.next_inst_var,
        }
    }
}

impl<'a> LabelSource<Label> for IntraCtxt<'a> {
    type State = SpecIntra;

    open spec fn state(&self) -> SpecIntra {
        self@
    }

    /// A pointer node gets a new local variable. The type of a function
    /// item gets a new record and as many new instantiation variables as
    /// the function has signature variables. Any other node gets nothing.
    open spec fn decide_spec(st: SpecIntra, kind: TyKind) -> Result<(SpecIntra, SpecLabel), Error> {
        match kind {
            TyKind::Ref | TyKind::RawPtr => if st.next_local_var == u32::MAX {
                Err(Error::Overflow)
            } else {
                Ok(
                    (
                        SpecIntra { next_local_var: (st.next_local_var + 1) as u32, ..st },
                        SpecLabel::Ptr(SpecPerm::Var(PermVar::Local(Var(st.next_local_var)))),
                    ),
                )
            },
            TyKind::FnDef(did) => match st.cx.variant_summ(did) {
                Err(e) => Err(e),
                Ok((cx, f, v)) => if st.next_inst_var + f.num_sig_vars > u32::MAX {
                    Err(Error::Overflow)
                } else {
                    Ok(
                        (
                            SpecIntra {
                                cx,
                                insts: st.insts.push(
                                    Instantiation {
                                        callee: v.func_id,
                                        span: None,
                                        first_inst_var: st.next_inst_var,
                                    },
                                ),
                                next_inst_var: (st.next_inst_var + f.num_sig_vars) as u32,
                                ..st
                            },
                            SpecLabel::FnDef(st.insts.len() as usize),
                        ),
                    )
                },
            },
            _ => Ok((st, SpecLabel::Nothing)),
        }
    }

    fn decide(&mut self, kind: TyKind) -> (r: Result<Label, Error>) {
        match kind {
            TyKind::Ref | TyKind::RawPtr => {
                let n = self.next_local_var;
                if n == u32::MAX {
                    Err(Error::Overflow)
                } else {
                    self.next_local_var = n + 1;
                    Ok(Label::Ptr(Perm::LocalVar(Var(n))))
                }
            },
            TyKind::FnDef(did) => {
                let (fid, num_vars) = match self.cx.variant_num_sig_vars(did) {
                    Ok(x) => x,
                    Err(e) => {
                        return Err(e);
                    },
                };
                if num_vars > u32::MAX - self.next_inst_var {
                    return Err(Error::Overflow);
                }
                let inst_idx = self.insts.len();
                self.insts.push(
                    Instantiation { callee: fid, span: None, first_inst_var: self.next_inst_var },
                );
                self.next_inst_var = self.next_inst_var + num_vars;
                Ok(Label::FnDef(inst_idx))
            },
            _ => Ok(Label::Nothing),
        }
    }
}

impl SpecIntra {
    /// The labelled type of a value of type `ty` that the body computes:
    /// every pointer in it gets a new local variable, every function item a
    /// new instantiation.
    #[verifier::opaque]
    pub open spec fn local_ty(self, ty: Ty) -> Result<(SpecIntra, SpecITy), Error> {
        spec_label::<Label, IntraCtxt>(self, ty@)
    }

    /// The labelled type of the static, constant or field `did`, its
    /// variables turned into permissions.
    #[verifier::opaque]
    pub open spec fn static_ty(self, did: DefId) -> Result<(SpecIntra, SpecITy), Error> {
        match self.cx.static_ty(did) {
            Err(e) => Err(e),
            Ok((cx, lty)) => match spec_relabel::<Option<PermVar>, Label, VarToPtr>(lty, VarToPtr) {
                Err(e) => Err(e),
                Ok(t) => Ok((SpecIntra { cx, ..self }, t)),
            },
        }
    }

    /// The labelled type of local `l`.
    #[verifier::opaque]
    pub open spec fn local_var_ty(self, l: usize) -> Result<SpecITy, Error> {
        if l < self.local_tys.len() {
            Ok(self.local_tys[l as int])
        } else {
            Err(Error::Inconsistent)
        }
    }
}

/// Whether the label fits the kind: a pointer carries a permission, the
/// type of a function item carries the index of an instantiation, and
/// nothing else carries anything.
pub open spec fn label_fits(k: TyKind, l: SpecLabel) -> bool {
    match k {
        TyKind::Ref | TyKind::RawPtr => l is Ptr,
        TyKind::FnDef(_) => l is FnDef,
        _ => l is Nothing,
    }
}

/// The labelled type of a value that the body computes is a labelling of
/// the type of the value, node for node, and each label fits the kind of
/// its node.
pub proof fn lemma_local_ty_shape(st: SpecIntra, ty: Ty)
    requires
        st.local_ty(ty) is Ok,
    ensures
        spec_erase(st.local_ty(ty)->Ok_0.1) == ty@,
        all_nodes(st.local_ty(ty)->Ok_0.1, |k: TyKind, l: SpecLabel| label_fits(k, l)),
{
    reveal(SpecIntra::local_ty);
    lemma_label_shape::<Label, IntraCtxt>(st, ty@, |k: TyKind, l: SpecLabel| label_fits(k, l));
}

/// The signature `sig` with each label replaced by what `m` gives for it:
/// the arguments from left to right, then the result.
pub open spec fn spec_relabel_sig<M: LabelMap<Option<PermVar>, Label>>(sig: SpecLFnSig, m: M) -> Result<
    SpecIFnSig,
    Error,
> {
    match spec_relabel_seq::<Option<PermVar>, Label, M>(sig.inputs, m, sig.inputs.len()) {
        Err(e) => Err(e),
        Ok(inputs) => match spec_relabel::<Option<PermVar>, Label, M>(sig.output, m) {
            Err(e) => Err(e),
            Ok(output) => Ok(SpecFnSig { inputs, output }),
        },
    }
}

/// Relabels a signature: the arguments from left to right, then the result.
pub fn relabel_sig_with<M: LabelMap<Option<PermVar>, Label>>(sig: &LFnSig, m: &M) -> (r: Result<
    IFnSig,
    Error,
>)
    ensures
        match spec_relabel_sig(sig@, *m) {
            Ok(s) => r is Ok && r->Ok_0@ == s,
            Err(e) => r is Err && r->Err_0 == e,
        },
{
    let inputs = match relabel_all::<Option<PermVar>, Label, M>(&sig.inputs, m) {
        Ok(x) => x,
        Err(e) => {
            return Err(e);
        },
    };
    let output = match relabel::<Option<PermVar>, Label, M>(&sig.output, m) {
        Ok(x) => x,
        Err(e) => {
            return Err(e);
        },
    };
    Ok(FnSig { inputs, output })
}

impl<'a> IntraCtxt<'a> {
    /// The pass over the body `mir` of variant `def_id`, before anything
    /// was done.
    pub fn new(cx: Ctxt, def_id: DefId, mir: &'a Mir) -> (r: IntraCtxt<'a>)
        ensures
            r@ == (SpecIntra {
                cx: cx@,
                def_id,
                mir: *mir,
                bbid: 0,
                stmt_idx: usize::MAX,
                cset: Set::empty(),
                local_tys: Seq::empty(),
                next_local_var: 0,
                insts: Seq::empty(),
                next_inst_var: 0,
            }),
    {
        let r = IntraCtxt {
            cx,
            def_id,
            mir,
            bbid: 0,
            stmt_idx: usize::MAX,
            cset: ConstraintSet::new(),
            local_tys: Vec::new(),
            next_local_var: 0,
            insts: Vec::new(),
            next_inst_var: 0,
        };
        assert(lty_views(r.local_tys@) =~= Seq::<SpecITy>::empty());
        r
    }

    fn enter_block(&mut self, bbid: usize)
        ensures
            final(self)@ == (SpecIntra { bbid, stmt_idx: usize::MAX, ..old(self)@ }),
    {
        self.bbid = bbid;
        self.stmt_idx = usize::MAX;
    }

    fn enter_stmt(&mut self, idx: usize)
        ensures
            final(self)@ == (SpecIntra { stmt_idx: idx, ..old(self)@ }),
    {
        self.stmt_idx = idx;
    }

    /// The stored type `lty` with its variables turned into permissions.
    pub fn relabel_ty(&self, lty: &LTy) -> (r: Result<ITy, Error>)
        ensures
            match spec_relabel::<Option<PermVar>, Label, VarToPtr>(lty@, VarToPtr) {
                Ok(t) => r is Ok && r->Ok_0@ == t,
                Err(e) => r is Err && r->Err_0 == e,
            },
    {
        relabel::<Option<PermVar>, Label, VarToPtr>(lty, &VarToPtr)
    }

    /// The stored signature `sig` with its variables turned into
    /// permissions.
    pub fn relabel_sig(&self, sig: &LFnSig) -> (r: Result<IFnSig, Error>)
        ensures
            match spec_relabel_sig(sig@, VarToPtr) {
                Ok(s) => r is Ok && r->Ok_0@ == s,
                Err(e) => r is Err && r->Err_0 == e,
            },
    {
        relabel_sig_with(sig, &VarToPtr)
    }

    /// Builds the labelled type of a value of type `ty` that the body
    /// computes.
    pub fn local_ty(&mut self, ty: &Ty) -> (r: Result<ITy, Error>)
        ensures
            match old(self)@.local_ty(*ty) {
                Ok((st, t)) => r is Ok && r->Ok_0@ == t && final(self)@ == st,
                Err(e) => r is Err && r->Err_0 == e,
            },
    {
        proof {
            reveal(SpecIntra::local_ty);
        }
        label::<Label, IntraCtxt<'a>>(ty, self)
    }

    /// The labelled type of local `l`.
    pub fn local_var_ty(&self, l: usize) -> (r: Result<ITy, Error>)
        ensures
            match self@.local_var_ty(l) {
                Ok(t) => r is Ok && r->Ok_0@ == t,
                Err(e) => r is Err && r->Err_0 == e,
            },
    {
        proof {
            reveal(SpecIntra::local_var_ty);
        }
        if l < self.local_tys.len() {
            Ok(self.local_tys[l].duplicate())
        } else {
            Err(Error::Inconsistent)
        }
    }

    /// The labelled type of the static, constant or field `did`.
    pub fn static_ty(&mut self, did: DefId) -> (r: Result<ITy, Error>)
        ensures
            match old(self)@.static_ty(did) {
                Ok((st, t)) => r is Ok && r->Ok_0@ == t && final(self)@ == st,
                Err(e) => r is Err && r->Err_0 == e,
            },
    {
        proof {
            reveal(SpecIntra::static_ty);
        }
        let lty = match self.cx.static_ty(did) {
            Ok(x) => x,
            Err(e) => {
                return Err(e);
            },
        };
        self.relabel_ty(&lty)
    }
}

/// The constraint `a + k <= b + k` between instantiation variables.
pub open spec fn unify_pair(a: u32, b: u32, k: int) -> SpecConstraint {
    (
        SpecPerm::Var(PermVar::Inst(Var((a + k) as u32))),
        SpecPerm::Var(PermVar::Inst(Var((b + k) as u32))),
    )
}

/// The constraints that make the `n` instantiation variables from `first1`
/// equal to the `n` from `first2`, one by one: each pair in both
/// directions.
pub open spec fn unify_pairs(first1: u32, first2: u32, n: u32) -> Set<SpecConstraint> {
    Set::new(
        |c: SpecConstraint|
            exists|k: int|
                0 <= k < n && (#[trigger] unify_pair(first1, first2, k) == c || unify_pair(
                    first2,
                    first1,
                    k,
                ) == c),
    )
}

impl SpecIntra {
    /// The state with the constraint `a <= b` added.
    pub open spec fn add(self, a: SpecPerm, b: SpecPerm) -> SpecIntra {
        SpecIntra { cset: self.cset.insert((a, b)), ..self }
    }

    /// The labelled type of field `f` of variant `v` of a value of
    /// labelled type `base_ty`: for a struct, enum or union the stored type
    /// of the field with the type arguments of `base_ty` put in, for a
    /// tuple the `f`-th argument.
    #[verifier::opaque]
    pub open spec fn field_lty(self, base_ty: SpecITy, v: usize, f: usize) -> Result<
        (SpecIntra, SpecITy),
        Error,
    > {
        match base_ty.kind {
            TyKind::Adt(adt) => match self.cx.program.spec_field(adt, v, f) {
                None => Err(Error::Inconsistent),
                Some(fdid) => match self.static_ty(fdid) {
                    Err(e) => Err(e),
                    Ok((st, poly)) => match spec_subst(poly, base_ty.args) {
                        Err(e) => Err(e),
                        Ok(t) => Ok((st, t)),
                    },
                },
            },
            TyKind::Tuple => if f < base_ty.args.len() {
                Ok((self, base_ty.args[f as int]))
            } else {
                Err(Error::Inconsistent)
            },
            _ => Err(Error::Unsupported),
        }
    }

    /// The labelled type of the place `lv`, the permission under which the
    /// place is reached, and the variant that the place was last seen as,
    /// if the last step was a downcast.
    ///
    /// A local or a static is reached under `Move`. A dereference is
    /// reached under the minimum of the permission of the place that holds
    /// the pointer and of the pointer's own permission. No other step
    /// changes the permission.
    #[verifier::opaque]
    pub open spec fn place_lty_downcast(self, lv: Place) -> Result<
        (SpecIntra, SpecITy, SpecPerm, Option<usize>),
        Error,
    >
        decreases lv,
    {
        match lv {
            Place::Local(l) => match self.local_var_ty(l) {
                Err(e) => Err(e),
                Ok(t) => Ok((self, t, SpecPerm::Concrete(ConcretePerm::Move), None)),
            },
            Place::Static(did) => match self.static_ty(did) {
                Err(e) => Err(e),
                Ok((st, t)) => Ok((st, t, SpecPerm::Concrete(ConcretePerm::Move), None)),
            },
            Place::Projection(base, elem) => match self.place_lty_downcast(*base) {
                Err(e) => Err(e),
                Ok((st, base_ty, base_perm, base_variant)) => if !(elem is Field)
                    && base_variant is Some {
                    Err(Error::Inconsistent)
                } else {
                    match elem {
                        ProjectionElem::Deref => if base_ty.args.len() == 0 {
                            Err(Error::Inconsistent)
                        } else {
                            match Label::spec_perm(base_ty.label) {
                                Err(e) => Err(e),
                                Ok(p) => Ok(
                                    (st, base_ty.args[0], SpecPerm::min2(base_perm, p), None),
                                ),
                            }
                        },
                        ProjectionElem::Field(f) => match st.field_lty(
                            base_ty,
                            match base_variant {
                                Some(v) => v,
                                None => 0,
                            },
                            f,
                        ) {
                            Err(e) => Err(e),
                            Ok((st2, t)) => Ok((st2, t, base_perm, None)),
                        },
                        ProjectionElem::Index => if base_ty.args.len() == 0 {
                            Err(Error::Inconsistent)
                        } else {
                            Ok((st, base_ty.args[0], base_perm, None))
                        },
                        ProjectionElem::ConstantIndex => Err(Error::Unsupported),
                        ProjectionElem::Subslice => Err(Error::Unsupported),
                        ProjectionElem::Downcast(v) => Ok((st, base_ty, base_perm, Some(v))),
                    }
                },
            },
        }
    }

    /// The labelled type of the place `lv` and the permission under which
    /// it is reached. A place that ends in a downcast has no type of its
    /// own.
    #[verifier::opaque]
    pub open spec fn place_lty(self, lv: Place) -> Result<(SpecIntra, SpecITy, SpecPerm), Error> {
        match self.place_lty_downcast(lv) {
            Err(e) => Err(e),
            Ok((st, t, p, variant)) => if variant is Some {
                Err(Error::Inconsistent)
            } else {
                Ok((st, t, p))
            },
        }
    }

    /// The labelled type of the operand and the permission of the value. A
    /// copied or moved place has its own type and the permission under
    /// which it is reached. A constant has a new labelled type and `Move`;
    /// where it names a function, the record of the reference gets the
    /// constant's place in the source.
    #[verifier::opaque]
    pub open spec fn operand_lty(self, op: Operand) -> Result<(SpecIntra, SpecITy, SpecPerm), Error> {
        match op {
            Operand::Copy(lv) => self.place_lty(lv),
            Operand::Move(lv) => self.place_lty(lv),
            Operand::Constant(c) => match self.local_ty(c.ty) {
                Err(e) => Err(e),
                Ok((st, lty)) => match lty.label {
                    SpecLabel::FnDef(idx) => if idx < st.insts.len() {
                        Ok(
                            (
                                SpecIntra {
                                    insts: st.insts.update(
                                        idx as int,
                                        Instantiation {
                                            span: Some(c.span),
                                            ..st.insts[idx as int]
                                        },
                                    ),
                                    ..st
                                },
                                lty,
                                SpecPerm::Concrete(ConcretePerm::Move),
                            ),
                        )
                    } else {
                        Err(Error::Inconsistent)
                    },
                    _ => Ok((st, lty, SpecPerm::Concrete(ConcretePerm::Move))),
                },
            },
        }
    }

    /// The state after the instantiations `idx1` and `idx2`, which must
    /// refer to the same function, were unified. Where they have the same
    /// variables nothing is done. Else each variable of the one is made
    /// equal to the variable of the other at the same offset, by a
    /// constraint in each direction; the records stay apart.
    #[verifier::opaque]
    pub open spec fn unify_inst_vars(self, idx1: usize, idx2: usize) -> Result<SpecIntra, Error> {
        if idx1 >= self.insts.len() || idx2 >= self.insts.len() {
            Err(Error::Inconsistent)
        } else {
            let inst1 = self.insts[idx1 as int];
            let inst2 = self.insts[idx2 as int];
            if inst1.callee != inst2.callee {
                Err(Error::Inconsistent)
            } else if inst1.first_inst_var == inst2.first_inst_var {
                Ok(self)
            } else {
                match self.cx.variant_summ(inst1.callee) {
                    Err(e) => Err(e),
                    Ok((cx, f, _)) => if inst1.first_inst_var + f.num_sig_vars > u32::MAX
                        || inst2.first_inst_var + f.num_sig_vars > u32::MAX {
                        Err(Error::Overflow)
                    } else {
                        Ok(
                            SpecIntra {
                                cx,
                                cset: self.cset.union(
                                    unify_pairs(
                                        inst1.first_inst_var,
                                        inst2.first_inst_var,
                                        f.num_sig_vars,
                                    ),
                                ),
                                ..self
                            },
                        )
                    },
                }
            }
        }
    }

    /// The state after a value of labelled type `rhs`, reached under
    /// `path_perm`, was assigned to a place of labelled type `lhs`.
    ///
    /// Where both are pointers, the place gets at most the permission of
    /// the value: `lhs.perm <= rhs.perm`. And the place, as far as it
    /// writes, gets at most the permission under which the value is
    /// reached: `min(lhs.perm, Write) <= path_perm`. The bound stops at
    /// `Write` so that a container can hand out or replace an element
    /// without itself being owned. Where both are function items, their
    /// instantiations are unified. Where both have as many arguments, each
    /// argument of the value is assigned to the argument of the place at
    /// the same position in the same way, under the same `path_perm`: the
    /// nested pointers are bounded, not made equal.
    #[verifier::opaque]
    pub open spec fn propagate(self, lhs: SpecITy, rhs: SpecITy, path_perm: SpecPerm) -> Result<
        SpecIntra,
        Error,
    >
        decreases lhs, 0nat,
    {
        let top = match (lhs.label, rhs.label) {
            (SpecLabel::Ptr(l), SpecLabel::Ptr(r)) => Ok(
                self.add(l, r).add(
                    SpecPerm::min2(l, SpecPerm::Concrete(ConcretePerm::Write)),
                    path_perm,
                ),
            ),
            (SpecLabel::FnDef(i), SpecLabel::FnDef(j)) => self.unify_inst_vars(i, j),
            _ => Ok(self),
        };
        match top {
            Err(e) => Err(e),
            Ok(st) => if lhs.args.len() == rhs.args.len() {
                st.propagate_from(lhs.args, rhs.args, path_perm, 0)
            } else {
                Ok(st)
            },
        }
    }

    /// [`SpecIntra::propagate`] on the pairs of `ls` and `rs` from index
    /// `i` on.
    pub open spec fn propagate_from(
        self,
        ls: Seq<SpecITy>,
        rs: Seq<SpecITy>,
        path_perm: SpecPerm,
        i: nat,
    ) -> Result<SpecIntra, Error>
        decreases ls, ls.len() - i,
    {
        if i >= ls.len() || i >= rs.len() {
            Ok(self)
        } else {
            match self.propagate(ls[i as int], rs[i as int], path_perm) {
                Err(e) => Err(e),
                Ok(st) => st.propagate_from(ls, rs, path_perm, i + 1),
            }
        }
    }

    /// The signature of a value of labelled type `ty` that is called. For
    /// a function item it is the stored signature of the function, with the
    /// instantiation variables of the reference in place of the signature
    /// variables and the type arguments of `ty` put in. For a function
    /// pointer it is made of the arguments of `ty`: all but the last are
    /// the arguments, the last is the result.
    #[verifier::opaque]
    pub open spec fn ty_fn_sig(self, ty: SpecITy) -> Result<(SpecIntra, SpecIFnSig), Error> {
        match ty.kind {
            TyKind::FnDef(did) => match ty.label {
                SpecLabel::FnDef(idx) => if idx >= self.insts.len() {
                    Err(Error::Inconsistent)
                } else {
                    let base = self.insts[idx as int].first_inst_var;
                    match self.cx.variant_summ(did) {
                        Err(e) => Err(e),
                        Ok((cx, f, _)) => match spec_relabel_sig(f.sig, SigToInst { base }) {
                            Err(e) => Err(e),
                            Ok(poly) => match spec_subst_seq(
                                poly.inputs,
                                ty.args,
                                poly.inputs.len(),
                            ) {
                                Err(e) => Err(e),
                                Ok(inputs) => match spec_subst(poly.output, ty.args) {
                                    Err(e) => Err(e),
                                    Ok(output) => Ok(
                                        (SpecIntra { cx, ..self }, SpecFnSig { inputs, output }),
                                    ),
                                },
                            },
                        },
                    }
                },
                _ => Err(Error::Inconsistent),
            },
            TyKind::FnPtr => if ty.args.len() == 0 {
                Err(Error::Inconsistent)
            } else {
                Ok(
                    (
                        self,
                        SpecFnSig {
                            inputs: ty.args.take(ty.args.len() - 1),
                            output: ty.args[ty.args.len() - 1],
                        },
                    ),
                )
            },
            TyKind::Closure => Err(Error::Unsupported),
            _ => Err(Error::Inconsistent),
        }
    }
}

/// Unifying two instantiations gives the same constraints whichever of the
/// two is named first, and unifying them once more adds nothing.
pub proof fn lemma_unify_symmetric(cs: Set<SpecConstraint>, first1: u32, first2: u32, n: u32)
    ensures
        unify_pairs(first1, first2, n) == unify_pairs(first2, first1, n),
        cs.union(unify_pairs(first1, first2, n)).union(unify_pairs(first2, first1, n)) == cs.union(
            unify_pairs(first1, first2, n),
        ),
        cs.union(unify_pairs(first1, first2, n)) == cs.union(unify_pairs(first2, first1, n)),
{
    let a = unify_pairs(first1, first2, n);
    let b = unify_pairs(first2, first1, n);
    assert forall|c: SpecConstraint| a.contains(c) <==> b.contains(c) by {
        if a.contains(c) {
            let k = choose|k: int|
                0 <= k < n && (#[trigger] unify_pair(first1, first2, k) == c || unify_pair(
                    first2,
                    first1,
                    k,
                ) == c);
            assert(unify_pair(first2, first1, k) == c || unify_pair(first1, first2, k) == c);
        }
        if b.contains(c) {
            let k = choose|k: int|
                0 <= k < n && (#[trigger] unify_pair(first2, first1, k) == c || unify_pair(
                    first1,
                    first2,
                    k,
                ) == c);
            assert(unify_pair(first1, first2, k) == c || unify_pair(first2, first1, k) == c);
        }
    }
    assert(a =~= b);
    assert(cs.union(a).union(b) =~= cs.union(a));
}

/// The bound that an assignment puts on the permission under which the
/// assigned value is reached never exceeds `Write`, whatever the permission
/// of the assigned-to pointer is: `min(l, Write)` evaluates to at most
/// `Write` under every assignment, also where `l` is `Move`.
pub proof fn lemma_propagation_cap(l: SpecPerm, s: crate::perm::Valuation)
    ensures
        SpecPerm::min2(l, SpecPerm::Concrete(ConcretePerm::Write)).eval(s).spec_le(
            ConcretePerm::Write,
        ),
        SpecPerm::min2(l, SpecPerm::Concrete(ConcretePerm::Write)).eval(s) == l.eval(s).spec_meet(
            ConcretePerm::Write,
        ),
{
    crate::perm::lemma_eval_min2(l, SpecPerm::Concrete(ConcretePerm::Write), s);
}

impl<'a> IntraCtxt<'a> {
    /// Records `p1 <= p2`.
    pub fn propagate_perm(&mut self, p1: Perm, p2: Perm)
        ensures
            final(self)@ == old(self)@.add(p1@, p2@),
    {
        self.cset.add(p1, p2);
    }

    /// The labelled type of field `f` of variant `v` of a value of
    /// labelled type `base_ty`.
    pub fn field_lty(&mut self, base_ty: &ITy, v: usize, f: usize) -> (r: Result<ITy, Error>)
        ensures
            match old(self)@.field_lty(base_ty@, v, f) {
                Ok((st, t)) => r is Ok && r->Ok_0@ == t && final(self)@ == st,
                Err(e) => r is Err && r->Err_0 == e,
            },
    {
        proof {
            reveal(SpecIntra::field_lty);
        }
        proof {
            lemma_lty_view(*base_ty);
        }
        match base_ty.kind {
            TyKind::Adt(adt) => {
                let fdid = match self.cx.program.field(adt, v, f) {
                    Some(x) => x,
                    None => {
                        return Err(Error::Inconsistent);
                    },
                };
                let poly = match self.static_ty(fdid) {
                    Ok(x) => x,
                    Err(e) => {
                        return Err(e);
                    },
                };
                poly.subst(&base_ty.args)
            },
            TyKind::Tuple => {
                if f < base_ty.args.len() {
                    assert(base_ty@.args[f as int] == base_ty.args@[f as int]@);
                    Ok(base_ty.args[f].duplicate())
                } else {
                    Err(Error::Inconsistent)
                }
            },
            _ => Err(Error::Unsupported),
        }
    }

    /// The labelled type of the place `lv`, the permission under which it
    /// is reached, and the variant that a final downcast has chosen.
    pub fn place_lty_downcast(&mut self, lv: &Place) -> (r: Result<
        (ITy, Perm, Option<usize>),
        Error,
    >)
        ensures
            match old(self)@.place_lty_downcast(*lv) {
                Ok((st, t, p, v)) => r is Ok && r->Ok_0.0@ == t && r->Ok_0.1@ == p && r->Ok_0.2
                    == v && final(self)@ == st,
                Err(e) => r is Err && r->Err_0 == e,
            },
        decreases lv,
    {
        proof {
            reveal(SpecIntra::place_lty_downcast);
        }
        match lv {
            Place::Local(l) => {
                match self.local_var_ty(*l) {
                    Ok(t) => Ok((t, Perm::move_(), None)),
                    Err(e) => Err(e),
                }
            },
            Place::Static(did) => {
                match self.static_ty(*did) {
                    Ok(t) => Ok((t, Perm::move_(), None)),
                    Err(e) => Err(e),
                }
            },
            Place::Projection(base, elem) => {
                let (base_ty, base_perm, base_variant) = match self.place_lty_downcast(base) {
                    Ok(x) => x,
                    Err(e) => {
                        return Err(e);
                    },
                };
                proof {
                    lemma_lty_view(base_ty);
                }
                match elem {
                    ProjectionElem::Field(_) => {},
                    _ => {
                        if base_variant.is_some() {
                            return Err(Error::Inconsistent);
                        }
                    },
                }
                match elem {
                    ProjectionElem::Deref => {
                        if base_ty.args.len() == 0 {
                            return Err(Error::Inconsistent);
                        }
                        let p = match base_ty.label.perm() {
                            Ok(p) => p,
                            Err(e) => {
                                return Err(e);
                            },
                        };
                        assert(base_ty@.args[0] == base_ty.args@[0]@);
                        let perm = self.cx.min_perm(&base_perm, &p);
                        Ok((base_ty.args[0].duplicate(), perm, None))
                    },
                    ProjectionElem::Field(f) => {
                        let v = match base_variant {
                            Some(v) => v,
                            None => 0,
                        };
                        match self.field_lty(&base_ty, v, *f) {
                            Ok(t) => Ok((t, base_perm, None)),
                            Err(e) => Err(e),
                        }
                    },
                    ProjectionElem::Index => {
                        if base_ty.args.len() == 0 {
                            return Err(Error::Inconsistent);
                        }
                        assert(base_ty@.args[0] == base_ty.args@[0]@);
                        Ok((base_ty.args[0].duplicate(), base_perm, None))
                    },
                    ProjectionElem::ConstantIndex => Err(Error::Unsupported),
                    ProjectionElem::Subslice => Err(Error::Unsupported),
                    ProjectionElem::Downcast(v) => Ok((base_ty, base_perm, Some(*v))),
                }
            },
        }
    }

    /// The labelled type of the place `lv` and the permission under which
    /// it is reached.
    pub fn place_lty(&mut self, lv: &Place) -> (r: Result<(ITy, Perm), Error>)
        ensures
            match old(self)@.place_lty(*lv) {
                Ok((st, t, p)) => r is Ok && r->Ok_0.0@ == t && r->Ok_0.1@ == p && final(self)@
                    == st,
                Err(e) => r is Err && r->Err_0 == e,
            },
    {
        proof {
            reveal(SpecIntra::place_lty);
        }
        match self.place_lty_downcast(lv) {
            Ok((t, p, variant)) => {
                if variant.is_some() {
                    Err(Error::Inconsistent)
                } else {
                    Ok((t, p))
                }
            },
            Err(e) => Err(e),
        }
    }

    /// The labelled type of the operand and the permission of its value.
    pub fn operand_lty(&mut self, op: &Operand) -> (r: Result<(ITy, Perm), Error>)
        ensures
            match old(self)@.operand_lty(*op) {
                Ok((st, t, p)) => r is Ok && r->Ok_0.0@ == t && r->Ok_0.1@ == p && final(self)@
                    == st,
                Err(e) => r is Err && r->Err_0 == e,
            },
    {
        proof {
            reveal(SpecIntra::operand_lty);
        }
        match op {
            Operand::Copy(lv) => self.place_lty(lv),
            Operand::Move(lv) => self.place_lty(lv),
            Operand::Constant(c) => {
                let lty = match self.local_ty(&c.ty) {
                    Ok(x) => x,
                    Err(e) => {
                        return Err(e);
                    },
                };
                proof {
                    lemma_lty_view(lty);
                }
                match &lty.label {
                    Label::FnDef(idx) => {
                        if *idx < self.insts.len() {
                            let old_inst = self.insts[*idx];
                            self.insts[*idx] = Instantiation {
                                callee: old_inst.callee,
                                span: Some(c.span),
                                first_inst_var: old_inst.first_inst_var,
                            };
                        } else {
                            return Err(Error::Inconsistent);
                        }
                    },
                    _ => {},
                }
                Ok((lty, Perm::move_()))
            },
        }
    }

    /// Unifies the instantiations `idx1` and `idx2`.
    pub fn unify_inst_vars(&mut self, idx1: usize, idx2: usize) -> (r: Result<(), Error>)
        ensures
            match old(self)@.unify_inst_vars(idx1, idx2) {
                Ok(st) => r is Ok && final(self)@ == st,
                Err(e) => r is Err && r->Err_0 == e,
            },
    {
        proof {
            reveal(SpecIntra::unify_inst_vars);
        }
        if idx1 >= self.insts.len() || idx2 >= self.insts.len() {
            return Err(Error::Inconsistent);
        }
        let callee = self.insts[idx1].callee;
        let first1 = self.insts[idx1].first_inst_var;
        let first2 = self.insts[idx2].first_inst_var;
        if callee.0 != self.insts[idx2].callee.0 {
            return Err(Error::Inconsistent);
        }
        if first1 == first2 {
            return Ok(());
        }
        let (_fid, num_vars) = match self.cx.variant_num_sig_vars(callee) {
            Ok(x) => x,
            Err(e) => {
                return Err(e);
            },
        };
        if num_vars > u32::MAX - first1 || num_vars > u32::MAX - first2 {
            return Err(Error::Overflow);
        }
        let ghost start = self.cset@;
        let mut offset: u32 = 0;
        assert(start =~= start.union(unify_pairs(first1, first2, 0)));
        while offset < num_vars
            invariant
                offset <= num_vars,
                first1 + num_vars <= u32::MAX,
                first2 + num_vars <= u32::MAX,
                self.cset@ == start.union(unify_pairs(first1, first2, offset)),
                self@ == (SpecIntra { cset: self.cset@, ..old(self)@.unify_inst_vars(idx1, idx2)->Ok_0 }),
                old(self)@.unify_inst_vars(idx1, idx2) is Ok,
            decreases num_vars - offset,
        {
            let ghost before = self.cset@;
            self.propagate_perm(
                Perm::InstVar(Var(first1 + offset)),
                Perm::InstVar(Var(first2 + offset)),
            );
            self.propagate_perm(
                Perm::InstVar(Var(first2 + offset)),
                Perm::InstVar(Var(first1 + offset)),
            );
            proof {
                let prev = unify_pairs(first1, first2, offset);
                let next = unify_pairs(first1, first2, (offset + 1) as u32);
                let c1 = unify_pair(first1, first2, offset as int);
                let c2 = unify_pair(first2, first1, offset as int);
                assert(self.cset@ == before.insert(c1).insert(c2));
                assert forall|c: SpecConstraint| next.contains(c) <==> (prev.contains(c) || c == c1
                    || c == c2) by {
                    if next.contains(c) {
                        let k = choose|k: int|
                            0 <= k < offset + 1 && (#[trigger] unify_pair(first1, first2, k) == c
                                || unify_pair(first2, first1, k) == c);
                        if k < offset {
                            assert(prev.contains(c));
                        }
                    }
                    if prev.contains(c) {
                        let k = choose|k: int|
                            0 <= k < offset && (#[trigger] unify_pair(first1, first2, k) == c
                                || unify_pair(first2, first1, k) == c);
                        assert(0 <= k < offset + 1 && (unify_pair(first1, first2, k) == c
                            || unify_pair(first2, first1, k) == c));
                    }
                    if c == c1 || c == c2 {
                        assert(unify_pair(first1, first2, offset as int) == c || unify_pair(
                            first2,
                            first1,
                            offset as int,
                        ) == c);
                    }
                }
                assert(self.cset@ =~= start.union(next));
            }
            offset += 1;
        }
        Ok(())
    }

    /// Assigns each element of `rs` to the element of `ls` at the same
    /// position, as far as both go.
    fn propagate_args(&mut self, ls: &Vec<ITy>, rs: &Vec<ITy>, path_perm: &Perm) -> (r: Result<
        (),
        Error,
    >)
        ensures
            match old(self)@.propagate_from(lty_views(ls@), lty_views(rs@), path_perm@, 0) {
                Ok(st) => r is Ok && final(self)@ == st,
                Err(e) => r is Err && r->Err_0 == e,
            },
        decreases ls,
    {
        proof {
            reveal(SpecIntra::propagate);
        }
        let ghost st0 = self@;
        let ghost lv = lty_views(ls@);
        let ghost rv = lty_views(rs@);
        let mut i: usize = 0;
        #[verifier::loop_isolation(false)]
        while i < ls.len() && i < rs.len()
            invariant
                i <= ls.len(),
                i <= rs.len(),
                st0.propagate_from(lv, rv, path_perm@, 0) == self@.propagate_from(
                    lv,
                    rv,
                    path_perm@,
                    i as nat,
                ),
            decreases ls.len() - i,
        {
            assert(lv[i as int] == ls@[i as int]@);
            assert(rv[i as int] == rs@[i as int]@);
            match self.propagate(&ls[i], &rs[i], path_perm) {
                Ok(()) => {},
                Err(e) => {
                    return Err(e);
                },
            }
            i += 1;
        }
        Ok(())
    }

    /// Handles the assignment of a value of labelled type `rhs`, reached
    /// under `path_perm`, to a place of labelled type `lhs`. Passing an
    /// argument and returning a result are such assignments too. An
    /// assignment may reborrow: the permission of a pointer of the place
    /// can be lower than that of the pointer of the value at the same
    /// position. It is at most the permission of that pointer, and, up to
    /// `Write`, at most the permission of every pointer that was followed
    /// to reach the value.
    pub fn propagate(&mut self, lhs: &ITy, rhs: &ITy, path_perm: &Perm) -> (r: Result<(), Error>)
        ensures
            match old(self)@.propagate(lhs@, rhs@, path_perm@) {
                Ok(st) => r is Ok && final(self)@ == st,
                Err(e) => r is Err && r->Err_0 == e,
            },
        decreases lhs,
    {
        proof {
            reveal(SpecIntra::propagate);
            lemma_lty_view(*lhs);
            lemma_lty_view(*rhs);
        }
        match (&lhs.label, &rhs.label) {
            (Label::Ptr(l_perm), Label::Ptr(r_perm)) => {
                self.propagate_perm(l_perm.duplicate(), r_perm.duplicate());
                let l_perm_capped = self.cx.min_perm(l_perm, &Perm::write());
                self.propagate_perm(l_perm_capped, path_perm.duplicate());
            },
            (Label::FnDef(l_inst), Label::FnDef(r_inst)) => {
                match self.unify_inst_vars(*l_inst, *r_inst) {
                    Ok(()) => {},
                    Err(e) => {
                        return Err(e);
                    },
                }
            },
            _ => {},
        }
        if lhs.args.len() == rhs.args.len() {
            self.propagate_args(&lhs.args, &rhs.args, path_perm)
        } else {
            Ok(())
        }
    }

    /// The signature of a value of labelled type `ty` that is called.
    pub fn ty_fn_sig(&mut self, ty: &ITy) -> (r: Result<IFnSig, Error>)
        ensures
            match old(self)@.ty_fn_sig(ty@) {
                Ok((st, s)) => r is Ok && r->Ok_0@ == s && final(self)@ == st,
                Err(e) => r is Err && r->Err_0 == e,
            },
    {
        proof {
            reveal(SpecIntra::ty_fn_sig);
        }
        proof {
            lemma_lty_view(*ty);
        }
        match ty.kind {
            TyKind::FnDef(did) => {
                let idx = match &ty.label {
                    Label::FnDef(idx) => *idx,
                    _ => {
                        return Err(Error::Inconsistent);
                    },
                };
                if idx >= self.insts.len() {
                    return Err(Error::Inconsistent);
                }
                let var_base = self.insts[idx].first_inst_var;
                let sig = match self.cx.variant_func_sig(did) {
                    Ok(x) => x,
                    Err(e) => {
                        return Err(e);
                    },
                };
                let poly = match relabel_sig_with(&sig, &SigToInst { base: var_base }) {
                    Ok(x) => x,
                    Err(e) => {
                        return Err(e);
                    },
                };
                let inputs = match subst_all(&poly.inputs, &ty.args) {
                    Ok(x) => x,
                    Err(e) => {
                        return Err(e);
                    },
                };
                let output = match poly.output.subst(&ty.args) {
                    Ok(x) => x,
                    Err(e) => {
                        return Err(e);
                    },
                };
                Ok(FnSig { inputs, output })
            },
            TyKind::FnPtr => {
                let n = ty.args.len();
                if n == 0 {
                    return Err(Error::Inconsistent);
                }
                let mut inputs: Vec<ITy> = Vec::new();
                let mut i: usize = 0;
                while i < n - 1
                    invariant
                        n == ty.args.len(),
                        n > 0,
                        i <= n - 1,
                        inputs.len() == i,
                        forall|j: int| 0 <= j < i ==> inputs@[j]@ == ty.args@[j]@,
                    decreases n - 1 - i,
                {
                    inputs.push(ty.args[i].duplicate());
                    i += 1;
                }
                assert(lty_views(inputs@) =~= ty@.args.take(n - 1));
                assert(ty@.args[n - 1] == ty.args@[n - 1]@);
                Ok(FnSig { inputs, output: ty.args[n - 1].duplicate() })
            },
            TyKind::Closure => Err(Error::Unsupported),
            _ => Err(Error::Inconsistent),
        }
    }
}

/// The constraints that [`IntraCtxt::finish`] stores for the constraints
/// `cs` that the pass has found: every constraint that mentions a local
/// variable is removed, and the rest is simplified.
pub open spec fn finish_cset(cs: Set<SpecConstraint>) -> Set<SpecConstraint> {
    spec_simplify(spec_retain(cs, keeps_fn(NonLocal)))
}

/// What is stored mentions no local variable.
pub proof fn lemma_finish_erases_locals(cs: Set<SpecConstraint>)
    ensures
        mentions_only(finish_cset(cs), keeps_fn(NonLocal)),
        forall|c: SpecConstraint, v: Var|
            finish_cset(cs).contains(c) ==> !c.0.mentions(PermVar::Local(v)) && !c.1.mentions(
                PermVar::Local(v),
            ),
{
    let kept = spec_retain(cs, keeps_fn(NonLocal));
    lemma_retain_mentions(cs, keeps_fn(NonLocal));
    lemma_simplify_mentions(kept, keeps_fn(NonLocal));
    assert forall|c: SpecConstraint, v: Var| finish_cset(cs).contains(c) implies !c.0.mentions(
        PermVar::Local(v),
    ) && !c.1.mentions(PermVar::Local(v)) by {
        let pv = PermVar::Local(v);
        assert(crate::constraint::only_kept(c, keeps_fn(NonLocal)));
        if c.0.mentions(pv) || c.1.mentions(pv) {
            assert(crate::constraint::constraint_mentions(c, pv));
            assert(keeps_fn(NonLocal)(pv));
        }
    }
}

/// What is stored is in its final form: to erase the local variables of
/// what is stored and to simplify it once more changes nothing.
pub proof fn lemma_finish_idempotent(cs: Set<SpecConstraint>)
    ensures
        finish_cset(finish_cset(cs)) == finish_cset(cs),
{
    let f = finish_cset(cs);
    let kept = spec_retain(cs, keeps_fn(NonLocal));
    lemma_simplify_simplest(kept);
    lemma_simplest_fixed(f);
    lemma_finish_erases_locals(cs);
    assert(spec_retain(f, keeps_fn(NonLocal)) =~= f);
}

/// What is stored asks for nothing that the pass has not found: every
/// assignment that satisfies the constraints found satisfies the
/// constraints stored.
pub proof fn lemma_finish_weaker(cs: Set<SpecConstraint>, s: crate::perm::Valuation)
    requires
        satisfies(cs, s),
    ensures
        satisfies(finish_cset(cs), s),
{
    let c = spec_retain(cs, keeps_fn(NonLocal));
    lemma_retain_weaker(cs, keeps_fn(NonLocal), s);
    lemma_simplify_equiv(c, s);
}

impl SpecIntra {
    /// The state after each operand of `ops` from index `i` on was
    /// assigned to a place of labelled type `elem`.
    pub open spec fn assign_all_to(self, elem: SpecITy, ops: Seq<Operand>, i: nat) -> Result<
        SpecIntra,
        Error,
    >
        decreases ops.len() - i,
    {
        if i >= ops.len() {
            Ok(self)
        } else {
            match self.operand_lty(ops[i as int]) {
                Err(e) => Err(e),
                Ok((st, op_ty, op_perm)) => match st.propagate(elem, op_ty, op_perm) {
                    Err(e) => Err(e),
                    Ok(st2) => st2.assign_all_to(elem, ops, i + 1),
                },
            }
        }
    }

    /// The state after each operand of `ops` from index `i` on was
    /// assigned to a place of the labelled type with the same index in
    /// `elems`, as far as both go.
    pub open spec fn assign_each(self, elems: Seq<SpecITy>, ops: Seq<Operand>, i: nat) -> Result<
        SpecIntra,
        Error,
    >
        decreases ops.len() - i,
    {
        if i >= ops.len() || i >= elems.len() {
            Ok(self)
        } else {
            match self.operand_lty(ops[i as int]) {
                Err(e) => Err(e),
                Ok((st, op_ty, op_perm)) => match st.propagate(elems[i as int], op_ty, op_perm) {
                    Err(e) => Err(e),
                    Ok(st2) => st2.assign_each(elems, ops, i + 1),
                },
            }
        }
    }

    /// The state after `op` was assigned to field `field` of variant
    /// `variant` of a value of the struct, enum or union `adt` with the
    /// type arguments `adt_args`.
    #[verifier::opaque]
    pub open spec fn assign_field(
        self,
        adt: DefId,
        variant: usize,
        field: usize,
        adt_args: Seq<SpecITy>,
        op: Operand,
    ) -> Result<SpecIntra, Error> {
        match self.cx.program.spec_field(adt, variant, field) {
            None => Err(Error::Inconsistent),
            Some(fdid) => match self.static_ty(fdid) {
                Err(e) => Err(e),
                Ok((st, poly)) => match spec_subst(poly, adt_args) {
                    Err(e) => Err(e),
                    Ok(field_ty) => match st.operand_lty(op) {
                        Err(e) => Err(e),
                        Ok((st2, op_ty, op_perm)) => st2.propagate(field_ty, op_ty, op_perm),
                    },
                },
            },
        }
    }

    /// The state after each operand of `ops` from index `i` on was
    /// assigned to the field with the same index.
    pub open spec fn assign_fields(
        self,
        adt: DefId,
        variant: usize,
        adt_args: Seq<SpecITy>,
        ops: Seq<Operand>,
        i: nat,
    ) -> Result<SpecIntra, Error>
        decreases ops.len() - i,
    {
        if i >= ops.len() {
            Ok(self)
        } else {
            match self.assign_field(adt, variant, i as usize, adt_args, ops[i as int]) {
                Err(e) => Err(e),
                Ok(st) => st.assign_fields(adt, variant, adt_args, ops, i + 1),
            }
        }
    }

    /// The state after the parts `ops` of an aggregate of labelled type
    /// `ty` were assigned to its elements or fields.
    #[verifier::opaque]
    pub open spec fn aggregate(self, kind: AggregateKind, ty: SpecITy, ops: Seq<Operand>) -> Result<
        SpecIntra,
        Error,
    > {
        match kind {
            AggregateKind::Array => if ops.len() > 0 && ty.args.len() == 0 {
                Err(Error::Inconsistent)
            } else if ops.len() == 0 {
                Ok(self)
            } else {
                self.assign_all_to(ty.args[0], ops, 0)
            },
            AggregateKind::Tuple => self.assign_each(ty.args, ops, 0),
            AggregateKind::Adt { adt, variant, union_field } => match union_field {
                Some(uf) => if ops.len() != 1 {
                    Err(Error::Inconsistent)
                } else {
                    self.assign_field(adt, 0, uf, ty.args, ops[0])
                },
                None => self.assign_fields(adt, variant, ty.args, ops, 0),
            },
            AggregateKind::Closure => Err(Error::Unsupported),
            AggregateKind::Generator => Err(Error::Unsupported),
        }
    }

    /// A new labelled type for a value of type `ty`, with `Move`.
    #[verifier::opaque]
    pub open spec fn fresh_value(self, ty: Ty) -> Result<(SpecIntra, SpecITy, SpecPerm), Error> {
        match self.local_ty(ty) {
            Err(e) => Err(e),
            Ok((st, t)) => Ok((st, t, SpecPerm::Concrete(ConcretePerm::Move))),
        }
    }

    /// An array of type `ty` that repeats `op`: a new labelled type, to
    /// whose element the operand is assigned, and `Move`.
    #[verifier::opaque]
    pub open spec fn repeat_value(self, op: Operand, ty: Ty) -> Result<
        (SpecIntra, SpecITy, SpecPerm),
        Error,
    > {
        match self.local_ty(ty) {
            Err(e) => Err(e),
            Ok((st, arr_ty)) => match st.operand_lty(op) {
                Err(e) => Err(e),
                Ok((st2, op_ty, op_perm)) => if arr_ty.args.len() == 0 {
                    Err(Error::Inconsistent)
                } else {
                    match st2.propagate(arr_ty.args[0], op_ty, op_perm) {
                        Err(e) => Err(e),
                        Ok(st3) => Ok((st3, arr_ty, SpecPerm::Concrete(ConcretePerm::Move))),
                    }
                },
            },
        }
    }

    /// A reference, of kind `kind`, to the place `lv`: a pointer labelled
    /// with the permission under which the place is reached, to the type of
    /// the place. The reference itself has `Move`.
    #[verifier::opaque]
    pub open spec fn ref_value(self, lv: Place, kind: TyKind) -> Result<
        (SpecIntra, SpecITy, SpecPerm),
        Error,
    > {
        match self.place_lty(lv) {
            Err(e) => Err(e),
            Ok((st, t, perm)) => Ok(
                (
                    st,
                    SpecLabeledTy { kind, label: SpecLabel::Ptr(perm), args: seq![t] },
                    SpecPerm::Concrete(ConcretePerm::Move),
                ),
            ),
        }
    }

    /// The operand cast to type `cast_raw_ty`: a new labelled type, to
    /// which the operand is assigned, and `Move`.
    #[verifier::opaque]
    pub open spec fn cast_value(self, op: Operand, cast_raw_ty: Ty) -> Result<
        (SpecIntra, SpecITy, SpecPerm),
        Error,
    > {
        match self.local_ty(cast_raw_ty) {
            Err(e) => Err(e),
            Ok((st, cast_ty)) => match st.operand_lty(op) {
                Err(e) => Err(e),
                Ok((st2, op_ty, op_perm)) => match st2.propagate(cast_ty, op_ty, op_perm) {
                    Err(e) => Err(e),
                    Ok(st3) => Ok((st3, cast_ty, SpecPerm::Concrete(ConcretePerm::Move))),
                },
            },
        }
    }

    /// An aggregate of type `ty` built from `ops`: a new labelled type, to
    /// whose elements or fields the parts are assigned, and `Move`.
    #[verifier::opaque]
    pub open spec fn aggregate_value(self, kind: AggregateKind, ops: Seq<Operand>, ty: Ty) -> Result<
        (SpecIntra, SpecITy, SpecPerm),
        Error,
    > {
        match kind {
            AggregateKind::Closure => Err(Error::Unsupported),
            AggregateKind::Generator => Err(Error::Unsupported),
            _ => match self.local_ty(ty) {
                Err(e) => Err(e),
                Ok((st, t)) => match st.aggregate(kind, t, ops) {
                    Err(e) => Err(e),
                    Ok(st2) => Ok((st2, t, SpecPerm::Concrete(ConcretePerm::Move))),
                },
            },
        }
    }

    /// The labelled type of the computed value `rv` and the permission of
    /// the value.
    ///
    /// A used operand has the operand's type and permission; so has a
    /// pointer moved by an offset. A reference to a place is a pointer,
    /// labelled with the permission under which the place is reached, to
    /// the type of the place; the reference itself has `Move`. A cast has a
    /// new labelled type, to which the operand is assigned, and `Move`. An
    /// aggregate has a new labelled type, to whose elements or fields the
    /// parts are assigned, and `Move`. Any other value has a new labelled
    /// type and `Move`.
    #[verifier::opaque]
    pub open spec fn rvalue_lty(self, rv: Rvalue) -> Result<(SpecIntra, SpecITy, SpecPerm), Error> {
        match rv.kind {
            RvalueKind::Use(op) => self.operand_lty(op),
            RvalueKind::Repeat(op) => self.repeat_value(op, rv.ty),
            RvalueKind::Ref(lv) => self.ref_value(lv, rv.ty.kind),
            RvalueKind::Len(_) => self.fresh_value(rv.ty),
            RvalueKind::Cast(op, cast_raw_ty) => self.cast_value(op, cast_raw_ty),
            RvalueKind::BinaryOp(op, a, _) => if op is Offset {
                self.operand_lty(a)
            } else {
                self.fresh_value(rv.ty)
            },
            RvalueKind::CheckedBinaryOp(op, a, _) => if op is Offset {
                self.operand_lty(a)
            } else {
                self.fresh_value(rv.ty)
            },
            RvalueKind::NullaryOp => Err(Error::Unsupported),
            RvalueKind::UnaryOp(_, _) => self.fresh_value(rv.ty),
            RvalueKind::Discriminant(_) => Err(Error::Unsupported),
            RvalueKind::Aggregate(kind, ops) => self.aggregate_value(kind, ops@, rv.ty),
        }
    }

    /// The state after the assignment of a value of labelled type
    /// `val_ty`, reached under `val_perm`, to the place `lv`: the value is
    /// propagated to the place, and the place must be reached under
    /// `Write` at least.
    #[verifier::opaque]
    pub open spec fn store(self, lv_ty: SpecITy, lv_perm: SpecPerm, val_ty: SpecITy, val_perm: SpecPerm) -> Result<
        SpecIntra,
        Error,
    > {
        match self.propagate(lv_ty, val_ty, val_perm) {
            Err(e) => Err(e),
            Ok(st) => Ok(st.add(SpecPerm::Concrete(ConcretePerm::Write), lv_perm)),
        }
    }

    /// The state after statement `s` was handled. Only an assignment adds
    /// constraints.
    #[verifier::opaque]
    pub open spec fn handle_stmt(self, s: Statement) -> Result<SpecIntra, Error> {
        match s {
            Statement::Assign(lv, rv) => match self.place_lty(lv) {
                Err(e) => Err(e),
                Ok((st, lv_ty, lv_perm)) => match st.rvalue_lty(rv) {
                    Err(e) => Err(e),
                    Ok((st2, rv_ty, rv_perm)) => st2.store(lv_ty, lv_perm, rv_ty, rv_perm),
                },
            },
            Statement::Other => Ok(self),
        }
    }

    /// The state after the statements of `stmts` from index `i` on were
    /// handled.
    pub open spec fn handle_stmts(self, stmts: Seq<Statement>, i: nat) -> Result<SpecIntra, Error>
        decreases stmts.len() - i,
    {
        if i >= stmts.len() {
            Ok(self)
        } else {
            match (SpecIntra { stmt_idx: i as usize, ..self }).handle_stmt(stmts[i as int]) {
                Err(e) => Err(e),
                Ok(st) => st.handle_stmts(stmts, i + 1),
            }
        }
    }

    /// The state after terminator `t` was handled. A call assigns each
    /// argument to the parameter of the callee's signature at the same
    /// position, as far as both go, and the result of the signature to the
    /// destination. A replacement is an assignment. No other terminator
    /// adds constraints.
    #[verifier::opaque]
    pub open spec fn handle_terminator(self, t: Terminator) -> Result<SpecIntra, Error> {
        match t {
            Terminator::Other => Ok(self),
            Terminator::DropAndReplace { location, value } => match self.place_lty(location) {
                Err(e) => Err(e),
                Ok((st, loc_ty, loc_perm)) => match st.operand_lty(value) {
                    Err(e) => Err(e),
                    Ok((st2, val_ty, val_perm)) => st2.store(loc_ty, loc_perm, val_ty, val_perm),
                },
            },
            Terminator::Call { func, args, destination } => match self.operand_lty(func) {
                Err(e) => Err(e),
                Ok((st, func_ty, _)) => match st.ty_fn_sig(func_ty) {
                    Err(e) => Err(e),
                    Ok((st2, sig)) => match st2.assign_each(sig.inputs, args@, 0) {
                        Err(e) => Err(e),
                        Ok(st3) => match destination {
                            None => Ok(st3),
                            Some(dest) => match st3.place_lty(dest) {
                                Err(e) => Err(e),
                                Ok((st4, dest_ty, dest_perm)) => st4.store(
                                    dest_ty,
                                    dest_perm,
                                    sig.output,
                                    SpecPerm::Concrete(ConcretePerm::Move),
                                ),
                            },
                        },
                    },
                },
            },
        }
    }

    /// The state after basic block `bb`, with index `bbid`, was handled:
    /// its statements in order, then its terminator.
    #[verifier::opaque]
    pub open spec fn handle_basic_block(self, bbid: usize, bb: BasicBlockData) -> Result<
        SpecIntra,
        Error,
    > {
        match (SpecIntra { bbid, stmt_idx: usize::MAX, ..self }).handle_stmts(bb.statements@, 0) {
            Err(e) => Err(e),
            Ok(st) => st.handle_terminator(bb.terminator),
        }
    }

    /// The state after the locals from index `l` on got their labelled
    /// types: local 0 the result of `sig`, the locals of the arguments the
    /// arguments of `sig`, every other local a new labelled type.
    pub open spec fn init_locals(
        self,
        decls: Seq<Ty>,
        arg_count: usize,
        sig: SpecIFnSig,
        l: nat,
    ) -> Result<SpecIntra, Error>
        decreases decls.len() - l,
    {
        if l >= decls.len() {
            Ok(self)
        } else {
            let r = if l == 0 {
                Ok((self, sig.output))
            } else if l - 1 < arg_count {
                if l - 1 < sig.inputs.len() {
                    Ok((self, sig.inputs[l - 1]))
                } else {
                    Err(Error::Inconsistent)
                }
            } else {
                self.local_ty(decls[l as int])
            };
            match r {
                Err(e) => Err(e),
                Ok((st, lty)) => (SpecIntra { local_tys: st.local_tys.push(lty), ..st }).init_locals(
                    decls,
                    arg_count,
                    sig,
                    l + 1,
                ),
            }
        }
    }

    /// The state after the pass was set up: the locals have their labelled
    /// types, and the constraints are those that are stored for the
    /// variant, which annotations may have put there.
    #[verifier::opaque]
    pub open spec fn init(self) -> Result<SpecIntra, Error> {
        match self.cx.variant_summ(self.def_id) {
            Err(e) => Err(e),
            Ok((cx, f, _)) => match spec_relabel_sig(f.sig, VarToPtr) {
                Err(e) => Err(e),
                Ok(sig) => match (SpecIntra { cx, ..self }).init_locals(
                    self.mir.local_decls@,
                    self.mir.arg_count,
                    sig,
                    0,
                ) {
                    Err(e) => Err(e),
                    Ok(st) => match st.cx.variant_summ(self.def_id) {
                        Err(e) => Err(e),
                        Ok((cx2, _, v)) => Ok(SpecIntra { cx: cx2, cset: v.inst_cset, ..st }),
                    },
                },
            },
        }
    }

    /// The storage after the pass has ended: the summary of the variant
    /// holds [`finish_cset`] of the constraints found and the
    /// instantiations of the body, in place of what it held before.
    #[verifier::opaque]
    pub open spec fn finish(self) -> Result<SpecCtxt, Error> {
        match self.cx.variant_summ(self.def_id) {
            Err(e) => Err(e),
            Ok((cx, _, v)) => Ok(
                SpecCtxt {
                    variants: cx.variants.update(
                        self.def_id.0 as int,
                        Some(
                            crate::context::SpecVariantSumm {
                                inst_cset: finish_cset(self.cset),
                                insts: self.insts,
                                ..v
                            },
                        ),
                    ),
                    ..cx
                },
            ),
        }
    }
}

impl<'a> IntraCtxt<'a> {
    fn assign_all_to(&mut self, elem: &ITy, ops: &Vec<Operand>) -> (r: Result<(), Error>)
        ensures
            match old(self)@.assign_all_to(elem@, ops@, 0) {
                Ok(st) => r is Ok && final(self)@ == st,
                Err(e) => r is Err && r->Err_0 == e,
            },
    {
        let ghost st0 = self@;
        let mut i: usize = 0;
        #[verifier::loop_isolation(false)]
        while i < ops.len()
            invariant
                i <= ops.len(),
                st0.assign_all_to(elem@, ops@, 0) == self@.assign_all_to(elem@, ops@, i as nat),
            decreases ops.len() - i,
        {
            let (op_ty, op_perm) = match self.operand_lty(&ops[i]) {
                Ok(x) => x,
                Err(e) => {
                    return Err(e);
                },
            };
            match self.propagate(elem, &op_ty, &op_perm) {
                Ok(()) => {},
                Err(e) => {
                    return Err(e);
                },
            }
            i += 1;
        }
        Ok(())
    }

    fn assign_each(&mut self, elems: &Vec<ITy>, ops: &Vec<Operand>) -> (r: Result<(), Error>)
        ensures
            match old(self)@.assign_each(lty_views(elems@), ops@, 0) {
                Ok(st) => r is Ok && final(self)@ == st,
                Err(e) => r is Err && r->Err_0 == e,
            },
    {
        let ghost st0 = self@;
        let ghost es = lty_views(elems@);
        let mut i: usize = 0;
        #[verifier::loop_isolation(false)]
        while i < ops.len() && i < elems.len()
            invariant
                i <= ops.len(),
                i <= elems.len(),
                es == lty_views(elems@),
                st0.assign_each(es, ops@, 0) == self@.assign_each(es, ops@, i as nat),
            decreases ops.len() - i,
        {
            let (op_ty, op_perm) = match self.operand_lty(&ops[i]) {
                Ok(x) => x,
                Err(e) => {
                    return Err(e);
                },
            };
            assert(es[i as int] == elems@[i as int]@);
            match self.propagate(&elems[i], &op_ty, &op_perm) {
                Ok(()) => {},
                Err(e) => {
                    return Err(e);
                },
            }
            i += 1;
        }
        Ok(())
    }

    fn assign_field(
        &mut self,
        adt: DefId,
        variant: usize,
        field: usize,
        adt_args: &Vec<ITy>,
        op: &Operand,
    ) -> (r: Result<(), Error>)
        ensures
            match old(self)@.assign_field(adt, variant, field, lty_views(adt_args@), *op) {
                Ok(st) => r is Ok && final(self)@ == st,
                Err(e) => r is Err && r->Err_0 == e,
            },
    {
        proof {
            reveal(SpecIntra::assign_field);
        }
        let fdid = match self.cx.program.field(adt, variant, field) {
            Some(x) => x,
            None => {
                return Err(Error::Inconsistent);
            },
        };
        let poly = match self.static_ty(fdid) {
            Ok(x) => x,
            Err(e) => {
                return Err(e);
            },
        };
        let field_ty = match poly.subst(adt_args) {
            Ok(x) => x,
            Err(e) => {
                return Err(e);
            },
        };
        let (op_ty, op_perm) = match self.operand_lty(op) {
            Ok(x) => x,
            Err(e) => {
                return Err(e);
            },
        };
        self.propagate(&field_ty, &op_ty, &op_perm)
    }

    fn assign_fields(
        &mut self,
        adt: DefId,
        variant: usize,
        adt_args: &Vec<ITy>,
        ops: &Vec<Operand>,
    ) -> (r: Result<(), Error>)
        ensures
            match old(self)@.assign_fields(adt, variant, lty_views(adt_args@), ops@, 0) {
                Ok(st) => r is Ok && final(self)@ == st,
                Err(e) => r is Err && r->Err_0 == e,
            },
    {
        let ghost st0 = self@;
        let ghost aa = lty_views(adt_args@);
        let mut i: usize = 0;
        #[verifier::loop_isolation(false)]
        while i < ops.len()
            invariant
                i <= ops.len(),
                aa == lty_views(adt_args@),
                st0.assign_fields(adt, variant, aa, ops@, 0) == self@.assign_fields(
                    adt,
                    variant,
                    aa,
                    ops@,
                    i as nat,
                ),
            decreases ops.len() - i,
        {
            match self.assign_field(adt, variant, i, adt_args, &ops[i]) {
                Ok(()) => {},
                Err(e) => {
                    return Err(e);
                },
            }
            i += 1;
        }
        Ok(())
    }

    fn aggregate(&mut self, kind: AggregateKind, ty: &ITy, ops: &Vec<Operand>) -> (r: Result<
        (),
        Error,
    >)
        ensures
            match old(self)@.aggregate(kind, ty@, ops@) {
                Ok(st) => r is Ok && final(self)@ == st,
                Err(e) => r is Err && r->Err_0 == e,
            },
    {
        proof {
            reveal(SpecIntra::aggregate);
        }
        proof {
            lemma_lty_view(*ty);
        }
        match kind {
            AggregateKind::Array => {
                if ops.len() == 0 {
                    return Ok(());
                }
                if ty.args.len() == 0 {
                    return Err(Error::Inconsistent);
                }
                assert(ty@.args[0] == ty.args@[0]@);
                self.assign_all_to(&ty.args[0], ops)
            },
            AggregateKind::Tuple => self.assign_each(&ty.args, ops),
            AggregateKind::Adt { adt, variant, union_field } => {
                match union_field {
                    Some(uf) => {
                        if ops.len() != 1 {
                            return Err(Error::Inconsistent);
                        }
                        self.assign_field(adt, 0, uf, &ty.args, &ops[0])
                    },
                    None => self.assign_fields(adt, variant, &ty.args, ops),
                }
            },
            AggregateKind::Closure => Err(Error::Unsupported),
            AggregateKind::Generator => Err(Error::Unsupported),
        }
    }

    fn fresh_value(&mut self, ty: &Ty) -> (r: Result<(ITy, Perm), Error>)
        ensures
            match old(self)@.fresh_value(*ty) {
                Ok((st, t, p)) => r is Ok && r->Ok_0.0@ == t && r->Ok_0.1@ == p && final(self)@
                    == st,
                Err(e) => r is Err && r->Err_0 == e,
            },
    {
        proof {
            reveal(SpecIntra::fresh_value);
        }
        match self.local_ty(ty) {
            Ok(t) => Ok((t, Perm::move_())),
            Err(e) => Err(e),
        }
    }

    fn repeat_value(&mut self, op: &Operand, ty: &Ty) -> (r: Result<(ITy, Perm), Error>)
        ensures
            match old(self)@.repeat_value(*op, *ty) {
                Ok((st, t, p)) => r is Ok && r->Ok_0.0@ == t && r->Ok_0.1@ == p && final(self)@
                    == st,
                Err(e) => r is Err && r->Err_0 == e,
            },
    {
        proof {
            reveal(SpecIntra::repeat_value);
        }
        let arr_ty = match self.local_ty(ty) {
            Ok(x) => x,
            Err(e) => {
                return Err(e);
            },
        };
        let (op_ty, op_perm) = match self.operand_lty(op) {
            Ok(x) => x,
            Err(e) => {
                return Err(e);
            },
        };
        proof {
            lemma_lty_view(arr_ty);
        }
        if arr_ty.args.len() == 0 {
            return Err(Error::Inconsistent);
        }
        assert(arr_ty@.args[0] == arr_ty.args@[0]@);
        match self.propagate(&arr_ty.args[0], &op_ty, &op_perm) {
            Ok(()) => {},
            Err(e) => {
                return Err(e);
            },
        }
        Ok((arr_ty, Perm::move_()))
    }

    fn ref_value(&mut self, lv: &Place, kind: TyKind) -> (r: Result<(ITy, Perm), Error>)
        ensures
            match old(self)@.ref_value(*lv, kind) {
                Ok((st, t, p)) => r is Ok && r->Ok_0.0@ == t && r->Ok_0.1@ == p && final(self)@
                    == st,
                Err(e) => r is Err && r->Err_0 == e,
            },
    {
        proof {
            reveal(SpecIntra::ref_value);
        }
        let (ty, perm) = match self.place_lty(lv) {
            Ok(x) => x,
            Err(e) => {
                return Err(e);
            },
        };
        let mut args: Vec<ITy> = Vec::new();
        args.push(ty);
        assert(lty_views(args@) =~= seq![ty@]);
        let ref_ty = LabeledTy::new(kind, Label::Ptr(perm), args);
        Ok((ref_ty, Perm::move_()))
    }

    fn cast_value(&mut self, op: &Operand, cast_raw_ty: &Ty) -> (r: Result<(ITy, Perm), Error>)
        ensures
            match old(self)@.cast_value(*op, *cast_raw_ty) {
                Ok((st, t, p)) => r is Ok && r->Ok_0.0@ == t && r->Ok_0.1@ == p && final(self)@
                    == st,
                Err(e) => r is Err && r->Err_0 == e,
            },
    {
        proof {
            reveal(SpecIntra::cast_value);
        }
        let cast_ty = match self.local_ty(cast_raw_ty) {
            Ok(x) => x,
            Err(e) => {
                return Err(e);
            },
        };
        let (op_ty, op_perm) = match self.operand_lty(op) {
            Ok(x) => x,
            Err(e) => {
                return Err(e);
            },
        };
        match self.propagate(&cast_ty, &op_ty, &op_perm) {
            Ok(()) => {},
            Err(e) => {
                return Err(e);
            },
        }
        Ok((cast_ty, Perm::move_()))
    }

    fn aggregate_value(&mut self, kind: AggregateKind, ops: &Vec<Operand>, ty: &Ty) -> (r: Result<
        (ITy, Perm),
        Error,
    >)
        ensures
            match old(self)@.aggregate_value(kind, ops@, *ty) {
                Ok((st, t, p)) => r is Ok && r->Ok_0.0@ == t && r->Ok_0.1@ == p && final(self)@
                    == st,
                Err(e) => r is Err && r->Err_0 == e,
            },
    {
        proof {
            reveal(SpecIntra::aggregate_value);
        }
        match kind {
            AggregateKind::Closure => {
                return Err(Error::Unsupported);
            },
            AggregateKind::Generator => {
                return Err(Error::Unsupported);
            },
            _ => {},
        }
        let t = match self.local_ty(ty) {
            Ok(x) => x,
            Err(e) => {
                return Err(e);
            },
        };
        match self.aggregate(kind, &t, ops) {
            Ok(()) => {},
            Err(e) => {
                return Err(e);
            },
        }
        Ok((t, Perm::move_()))
    }

    /// The labelled type of the computed value `rv` and the permission of
    /// the value. What the value is made of is assigned to its parts on
    /// the way.
    pub fn rvalue_lty(&mut self, rv: &Rvalue) -> (r: Result<(ITy, Perm), Error>)
        ensures
            match old(self)@.rvalue_lty(*rv) {
                Ok((st, t, p)) => r is Ok && r->Ok_0.0@ == t && r->Ok_0.1@ == p && final(self)@
                    == st,
                Err(e) => r is Err && r->Err_0 == e,
            },
    {
        proof {
            reveal(SpecIntra::rvalue_lty);
        }
        match &rv.kind {
            RvalueKind::Use(op) => self.operand_lty(op),
            RvalueKind::Repeat(op) => self.repeat_value(op, &rv.ty),
            RvalueKind::Ref(lv) => self.ref_value(lv, rv.ty.kind),
            RvalueKind::Len(_) => self.fresh_value(&rv.ty),
            RvalueKind::Cast(op, cast_raw_ty) => self.cast_value(op, cast_raw_ty),
            RvalueKind::BinaryOp(op, a, _) => {
                match op {
                    BinOp::Offset => self.operand_lty(a),
                    _ => self.fresh_value(&rv.ty),
                }
            },
            RvalueKind::CheckedBinaryOp(op, a, _) => {
                match op {
                    BinOp::Offset => self.operand_lty(a),
                    _ => self.fresh_value(&rv.ty),
                }
            },
            RvalueKind::NullaryOp => Err(Error::Unsupported),
            RvalueKind::UnaryOp(_, _) => self.fresh_value(&rv.ty),
            RvalueKind::Discriminant(_) => Err(Error::Unsupported),
            RvalueKind::Aggregate(kind, ops) => self.aggregate_value(*kind, ops, &rv.ty),
        }
    }

    fn store(&mut self, lv_ty: &ITy, lv_perm: Perm, val_ty: &ITy, val_perm: &Perm) -> (r: Result<
        (),
        Error,
    >)
        ensures
            match old(self)@.store(lv_ty@, lv_perm@, val_ty@, val_perm@) {
                Ok(st) => r is Ok && final(self)@ == st,
                Err(e) => r is Err && r->Err_0 == e,
            },
    {
        proof {
            reveal(SpecIntra::store);
        }
        match self.propagate(lv_ty, val_ty, val_perm) {
            Ok(()) => {},
            Err(e) => {
                return Err(e);
            },
        }
        self.propagate_perm(Perm::write(), lv_perm);
        Ok(())
    }

    fn handle_stmt(&mut self, s: &Statement) -> (r: Result<(), Error>)
        ensures
            match old(self)@.handle_stmt(*s) {
                Ok(st) => r is Ok && final(self)@ == st,
                Err(e) => r is Err && r->Err_0 == e,
            },
    {
        proof {
            reveal(SpecIntra::handle_stmt);
        }
        match s {
            Statement::Assign(lv, rv) => {
                let (lv_ty, lv_perm) = match self.place_lty(lv) {
                    Ok(x) => x,
                    Err(e) => {
                        return Err(e);
                    },
                };
                let (rv_ty, rv_perm) = match self.rvalue_lty(rv) {
                    Ok(x) => x,
                    Err(e) => {
                        return Err(e);
                    },
                };
                self.store(&lv_ty, lv_perm, &rv_ty, &rv_perm)
            },
            Statement::Other => Ok(()),
        }
    }

    fn handle_terminator(&mut self, t: &Terminator) -> (r: Result<(), Error>)
        ensures
            match old(self)@.handle_terminator(*t) {
                Ok(st) => r is Ok && final(self)@ == st,
                Err(e) => r is Err && r->Err_0 == e,
            },
    {
        proof {
            reveal(SpecIntra::handle_terminator);
        }
        match t {
            Terminator::Other => Ok(()),
            Terminator::DropAndReplace { location, value } => {
                let (loc_ty, loc_perm) = match self.place_lty(location) {
                    Ok(x) => x,
                    Err(e) => {
                        return Err(e);
                    },
                };
                let (val_ty, val_perm) = match self.operand_lty(value) {
                    Ok(x) => x,
                    Err(e) => {
                        return Err(e);
                    },
                };
                self.store(&loc_ty, loc_perm, &val_ty, &val_perm)
            },
            Terminator::Call { func, args, destination } => {
                let (func_ty, _func_perm) = match self.operand_lty(func) {
                    Ok(x) => x,
                    Err(e) => {
                        return Err(e);
                    },
                };
                let sig = match self.ty_fn_sig(&func_ty) {
                    Ok(x) => x,
                    Err(e) => {
                        return Err(e);
                    },
                };
                match self.assign_each(&sig.inputs, args) {
                    Ok(()) => {},
                    Err(e) => {
                        return Err(e);
                    },
                }
                match destination {
                    None => Ok(()),
                    Some(dest) => {
                        let (dest_ty, dest_perm) = match self.place_lty(dest) {
                            Ok(x) => x,
                            Err(e) => {
                                return Err(e);
                            },
                        };
                        self.store(&dest_ty, dest_perm, &sig.output, &Perm::move_())
                    },
                }
            },
        }
    }

    /// Handles basic block `bb`, with index `bbid`: its statements in
    /// order, then its terminator. On `Ok` the constraints of the block
    /// have been added to those found so far. On `Err` the analysis of the
    /// body is to be abandoned.
    pub fn handle_basic_block(&mut self, bbid: usize, bb: &BasicBlockData) -> (r: Result<(), Error>)
        ensures
            match old(self)@.handle_basic_block(bbid, *bb) {
                Ok(st) => r is Ok && final(self)@ == st,
                Err(e) => r is Err && r->Err_0 == e,
            },
    {
        proof {
            reveal(SpecIntra::handle_basic_block);
        }
        self.enter_block(bbid);
        let ghost st0 = self@;
        let mut idx: usize = 0;
        #[verifier::loop_isolation(false)]
        while idx < bb.statements.len()
            invariant
                idx <= bb.statements.len(),
                st0.handle_stmts(bb.statements@, 0) == self@.handle_stmts(
                    bb.statements@,
                    idx as nat,
                ),
            decreases bb.statements.len() - idx,
        {
            self.enter_stmt(idx);
            match self.handle_stmt(&bb.statements[idx]) {
                Ok(()) => {},
                Err(e) => {
                    return Err(e);
                },
            }
            idx += 1;
        }
        self.handle_terminator(&bb.terminator)
    }

    /// Sets the pass up: gives each local its labelled type and takes the
    /// constraints that are stored for the variant as those found so far.
    pub fn init(&mut self) -> (r: Result<(), Error>)
        ensures
            match old(self)@.init() {
                Ok(st) => r is Ok && final(self)@ == st,
                Err(e) => r is Err && r->Err_0 == e,
            },
    {
        proof {
            reveal(SpecIntra::init);
        }
        let def_id = self.def_id;
        let sig = match self.cx.variant_func_sig(def_id) {
            Ok(x) => x,
            Err(e) => {
                return Err(e);
            },
        };
        let sig = match self.relabel_sig(&sig) {
            Ok(x) => x,
            Err(e) => {
                return Err(e);
            },
        };
        let ghost st0 = self@;
        let ghost decls = self.mir.local_decls@;
        let arg_count = self.mir.arg_count;
        let mir = self.mir;
        let mut l: usize = 0;
        #[verifier::loop_isolation(false)]
        while l < mir.local_decls.len()
            invariant
                l <= mir.local_decls.len(),
                decls == mir.local_decls@,
                arg_count == mir.arg_count,
                st0.init_locals(decls, arg_count, sig@, 0) == self@.init_locals(
                    decls,
                    arg_count,
                    sig@,
                    l as nat,
                ),
            decreases mir.local_decls.len() - l,
        {
            let ghost before = lty_views(self.local_tys@);
            let lty = if l == 0 {
                sig.output.duplicate()
            } else if l - 1 < arg_count {
                if l - 1 < sig.inputs.len() {
                    assert(sig@.inputs[l - 1] == sig.inputs@[l - 1]@);
                    sig.inputs[l - 1].duplicate()
                } else {
                    return Err(Error::Inconsistent);
                }
            } else {
                match self.local_ty(&mir.local_decls[l]) {
                    Ok(x) => x,
                    Err(e) => {
                        return Err(e);
                    },
                }
            };
            let ghost mid = lty_views(self.local_tys@);
            self.local_tys.push(lty);
            assert(lty_views(self.local_tys@) =~= mid.push(lty@));
            l += 1;
        }
        proof {
            if self@.cx.variant_summ(def_id) is Ok {
                crate::context::lemma_variant_summ_present(self@.cx, def_id);
            }
        }
        match self.cx.variant_num_sig_vars(def_id) {
            Ok(_) => {},
            Err(e) => {
                return Err(e);
            },
        }
        if def_id.0 >= self.cx.variants.len() {
            return Err(Error::Inconsistent);
        }
        match &self.cx.variants[def_id.0] {
            Some(v) => {
                self.cset = v.inst_cset.duplicate();
                Ok(())
            },
            None => Err(Error::Inconsistent),
        }
    }

    /// Ends the pass and hands the storage back. The summary of the
    /// variant then holds the constraints found, without those that
    /// mention a local variable and in simplified form, and the
    /// instantiations of the body; what it held before is replaced. No
    /// stored constraint mentions a local variable.
    pub fn finish(self) -> (r: Result<Ctxt, Error>)
        ensures
            match self@.finish() {
                Ok(cx) => r is Ok && r->Ok_0@ == cx && mentions_only(
                    cx.variants[self.def_id.0 as int]->Some_0.inst_cset,
                    keeps_fn(NonLocal),
                ),
                Err(e) => r is Err && r->Err_0 == e,
            },
    {
        proof {
            reveal(SpecIntra::finish);
        }
        let mut this = self;
        this.cset.retain_perms(&NonLocal);
        this.cset.simplify();
        proof {
            lemma_finish_erases_locals(self.cset@);
        }
        let def_id = this.def_id;
        proof {
            if this@.cx.variant_summ(def_id) is Ok {
                crate::context::lemma_variant_summ_present(this@.cx, def_id);
            }
        }
        match this.cx.variant_num_sig_vars(def_id) {
            Ok(_) => {},
            Err(e) => {
                return Err(e);
            },
        }
        let mut cx = this.cx;
        let cset = this.cset;
        let insts = this.insts;
        if def_id.0 >= cx.variants.len() {
            return Err(Error::Inconsistent);
        }
        let ghost variants0 = cx.variants@;
        match &mut cx.variants[def_id.0] {
            Some(v) => {
                v.inst_cset = cset;
                v.insts = insts;
                proof {
                    lemma_table_update(variants0, def_id.0 as int, *v);
                }
            },
            None => {
                return Err(Error::Inconsistent);
            },
        }
        Ok(cx)
    }
}

} // verus!
