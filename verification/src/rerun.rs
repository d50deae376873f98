//! Running the pass again.
//!
//! The pass over a body makes summaries on the way: of the statics and
//! fields that the body reads and of the functions that it refers to. A
//! second run over the same body finds them made. This module shows that
//! the second run finds what the first run found: the first run reads of
//! the storage only what later runs leave as it is, and a summary that is
//! found reads as the summary that was made.

use vstd::prelude::*;
use crate::context::lemma_variant_summ_present;
use crate::context::{SpecCtxt, SpecFuncSumm, SpecVariantSumm};
use crate::error::Error;
use crate::constraint::SpecConstraint;
use crate::intra::{IntraCtxt, Label, SpecIFnSig, SpecITy, SpecIntra, SpecLabel};
use crate::labeled_ty::{spec_label, spec_label_seq, LabelSource};
use crate::mir::{AggregateKind, BasicBlockData, Mir, Operand, Place, Rvalue, RvalueKind};
use crate::mir::{Statement, Terminator};
use crate::perm::SpecPerm;
use crate::ty::{DefId, SpecTy, Ty, TyKind};

verus! {

/// Whether `g` reads as `f` to the pass: the pass reads the signature and
/// the number of signature variables.
pub open spec fn func_agrees(f: SpecFuncSumm, g: SpecFuncSumm) -> bool {
    g.sig == f.sig && g.num_sig_vars == f.num_sig_vars
}

/// Whether `w` reads as `v` to the pass: the pass reads the function and
/// the constraints.
pub open spec fn variant_agrees(v: SpecVariantSumm, w: SpecVariantSumm) -> bool {
    w.func_id == v.func_id && w.inst_cset == v.inst_cset
}

/// Whether the storage `b` holds every summary that `a` holds, each
/// reading to the pass as it reads in `a`.
pub open spec fn extends(a: SpecCtxt, b: SpecCtxt) -> bool {
    &&& a.program == b.program
    &&& a.static_summ.len() == b.static_summ.len()
    &&& a.funcs.len() == b.funcs.len()
    &&& a.variants.len() == b.variants.len()
    &&& forall|i: int|
        0 <= i < a.static_summ.len() && (#[trigger] a.static_summ[i]) is Some ==> b.static_summ[i]
            == a.static_summ[i]
    &&& forall|i: int|
        0 <= i < a.funcs.len() && (#[trigger] a.funcs[i]) is Some ==> b.funcs[i] is Some
            && func_agrees(a.funcs[i]->Some_0, b.funcs[i]->Some_0)
    &&& forall|i: int|
        0 <= i < a.variants.len() && (#[trigger] a.variants[i]) is Some ==> b.variants[i] is Some
            && variant_agrees(a.variants[i]->Some_0, b.variants[i]->Some_0)
}

/// What extends an extension extends the storage.
pub proof fn lemma_trans(a: SpecCtxt, b: SpecCtxt, c: SpecCtxt)
    ensures
        extends(a, b) && extends(b, c) ==> extends(a, c),
{
    if extends(a, b) && extends(b, c) {
        assert forall|i: int|
            0 <= i < a.static_summ.len() && (#[trigger] a.static_summ[i]) is Some implies c.static_summ[i]
            == a.static_summ[i] by {
            assert(b.static_summ[i] is Some);
        }
        assert forall|i: int|
            0 <= i < a.funcs.len() && (#[trigger] a.funcs[i]) is Some implies c.funcs[i] is Some
            && func_agrees(a.funcs[i]->Some_0, c.funcs[i]->Some_0) by {
            assert(b.funcs[i] is Some);
        }
        assert forall|i: int|
            0 <= i < a.variants.len() && (#[trigger] a.variants[i]) is Some implies c.variants[i] is Some
            && variant_agrees(a.variants[i]->Some_0, c.variants[i]->Some_0) by {
            assert(b.variants[i] is Some);
        }
    }
}

/// Asking for the type of a static leaves the storage an extension, and
/// every extension of what is left gives the same type and stays as it
/// is.
pub proof fn lemma_static_ty_stable(cx: SpecCtxt, did: DefId, cxf: SpecCtxt)
    requires
        cx.static_ty(did) is Ok,
    ensures
        extends(cx, cx.static_ty(did)->Ok_0.0),
        extends(cx.static_ty(did)->Ok_0.0, cxf) ==> cxf.static_ty(did) == Ok::<
            (SpecCtxt, crate::context::SpecLTy),
            Error,
        >((cxf, cx.static_ty(did)->Ok_0.1)),
{
    reveal(SpecCtxt::static_ty);
    let (cx2, t) = cx.static_ty(did)->Ok_0;
    if extends(cx2, cxf) {
        assert(cx2.static_summ[did.0 as int] is Some);
    }
}

/// Asking for the summary of a variant leaves the storage an extension
/// that holds the summary, and every extension of what is left gives a
/// summary that reads the same and stays as it is.
pub proof fn lemma_variant_summ_stable(cx: SpecCtxt, did: DefId, cxf: SpecCtxt)
    requires
        cx.variant_summ(did) is Ok,
    ensures
        extends(cx, cx.variant_summ(did)->Ok_0.0),
        extends(cx.variant_summ(did)->Ok_0.0, cxf) ==> {
            &&& cxf.variant_summ(did) is Ok
            &&& cxf.variant_summ(did)->Ok_0.0 == cxf
            &&& func_agrees(cx.variant_summ(did)->Ok_0.1, cxf.variant_summ(did)->Ok_0.1)
            &&& variant_agrees(cx.variant_summ(did)->Ok_0.2, cxf.variant_summ(did)->Ok_0.2)
        },
{
    lemma_variant_summ_present(cx, did);
    let (cx2, f, v) = cx.variant_summ(did)->Ok_0;
    assert(extends(cx, cx2)) by {
        reveal(SpecCtxt::variant_summ);
        reveal(SpecCtxt::ensure_variant);
        reveal(SpecCtxt::add_variant);
        reveal(SpecCtxt::ensure_func);
    }
    if extends(cx2, cxf) {
        reveal(SpecCtxt::variant_summ);
        reveal(SpecCtxt::ensure_variant);
        assert(cx2.variants[did.0 as int] is Some);
        assert(cxf.variants[did.0 as int] is Some);
        let w = cxf.variants[did.0 as int]->Some_0;
        assert(w.func_id == v.func_id);
        assert(cx2.funcs[v.func_id.0 as int] is Some);
        assert(cxf.funcs[v.func_id.0 as int] is Some);
    }
}

/// Whether `b` is a later state of the pass that `a` is a state of: the
/// pass is over the same body of the same variant, and every constraint
/// found in `a` is found in `b`.
pub open spec fn later_state(a: SpecIntra, b: SpecIntra) -> bool {
    a.def_id == b.def_id && a.mir == b.mir && a.cset.subset_of(b.cset)
}

/// The state `st` of the pass, over the storage `cx`.
pub open spec fn with_cx(st: SpecIntra, cx: SpecCtxt) -> SpecIntra {
    SpecIntra { cx, ..st }
}

/// What it means that a step of the pass can be run again. The step has
/// taken the state `st` to the result `r`; over the storage `cxf` it gives
/// `r2`. If the step went well, it has left the storage an extension and
/// has taken no constraint away; and if `cxf` extends what it has left,
/// the step over `cxf` goes as well, gives the same, and leaves `cxf` as
/// it is.
pub open spec fn reruns<X>(
    st: SpecIntra,
    r: Result<(SpecIntra, X), Error>,
    cxf: SpecCtxt,
    r2: Result<(SpecIntra, X), Error>,
) -> bool {
    r is Ok ==> extends(st.cx, r->Ok_0.0.cx) && later_state(st, r->Ok_0.0) && (extends(
        r->Ok_0.0.cx,
        cxf,
    ) ==> r2 == Ok::<(SpecIntra, X), Error>((with_cx(r->Ok_0.0, cxf), r->Ok_0.1)))
}

/// [`reruns`] for a step that gives a state only.
pub open spec fn reruns0(
    st: SpecIntra,
    r: Result<SpecIntra, Error>,
    cxf: SpecCtxt,
    r2: Result<SpecIntra, Error>,
) -> bool {
    r is Ok ==> extends(st.cx, r->Ok_0.cx) && later_state(st, r->Ok_0) && (extends(r->Ok_0.cx, cxf)
        ==> r2 == Ok::<SpecIntra, Error>(with_cx(r->Ok_0, cxf)))
}

/// [`reruns`] for a step that gives a labelled type and a permission.
pub open spec fn reruns2(
    st: SpecIntra,
    r: Result<(SpecIntra, SpecITy, SpecPerm), Error>,
    cxf: SpecCtxt,
    r2: Result<(SpecIntra, SpecITy, SpecPerm), Error>,
) -> bool {
    r is Ok ==> extends(st.cx, r->Ok_0.0.cx) && later_state(st, r->Ok_0.0) && (extends(
        r->Ok_0.0.cx,
        cxf,
    ) ==> r2 == Ok::<(SpecIntra, SpecITy, SpecPerm), Error>(
        (with_cx(r->Ok_0.0, cxf), r->Ok_0.1, r->Ok_0.2),
    ))
}

/// [`reruns`] for a step that gives a labelled type, a permission and a
/// variant.
pub open spec fn reruns3(
    st: SpecIntra,
    r: Result<(SpecIntra, SpecITy, SpecPerm, Option<usize>), Error>,
    cxf: SpecCtxt,
    r2: Result<(SpecIntra, SpecITy, SpecPerm, Option<usize>), Error>,
) -> bool {
    r is Ok ==> extends(st.cx, r->Ok_0.0.cx) && later_state(st, r->Ok_0.0) && (extends(
        r->Ok_0.0.cx,
        cxf,
    ) ==> r2 == Ok::<(SpecIntra, SpecITy, SpecPerm, Option<usize>), Error>(
        (with_cx(r->Ok_0.0, cxf), r->Ok_0.1, r->Ok_0.2, r->Ok_0.3),
    ))
}

/// Deciding a label can be run again.
pub proof fn lemma_decide(st: SpecIntra, kind: TyKind, cxf: SpecCtxt)
    ensures
        reruns(
            st,
            <IntraCtxt as LabelSource<Label>>::decide_spec(st, kind),
            cxf,
            <IntraCtxt as LabelSource<Label>>::decide_spec(with_cx(st, cxf), kind),
        ),
{
    match kind {
        TyKind::FnDef(did) => {
            if st.cx.variant_summ(did) is Ok {
                lemma_variant_summ_stable(st.cx, did, cxf);
            }
        },
        _ => {},
    }
}

/// Labelling a type can be run again.
pub proof fn lemma_label(st: SpecIntra, ty: SpecTy, cxf: SpecCtxt)
    ensures
        reruns(
            st,
            spec_label::<Label, IntraCtxt>(st, ty),
            cxf,
            spec_label::<Label, IntraCtxt>(with_cx(st, cxf), ty),
        ),
    decreases ty, 0nat,
{
    lemma_decide(st, ty.kind, cxf);
    let d = <IntraCtxt as LabelSource<Label>>::decide_spec(st, ty.kind);
    if d is Ok {
        let st1 = d->Ok_0.0;
        lemma_label_seq(st1, ty.args, ty.args.len(), cxf);
        let r = spec_label_seq::<Label, IntraCtxt>(st1, ty.args, ty.args.len());
        if r is Ok {
            let st2 = r->Ok_0.0;
            lemma_trans(st.cx, st1.cx, st2.cx);
            lemma_trans(st1.cx, st2.cx, cxf);
        }
    }
}

/// Labelling a list of types can be run again.
pub proof fn lemma_label_seq(st: SpecIntra, tys: Seq<SpecTy>, n: nat, cxf: SpecCtxt)
    ensures
        reruns(
            st,
            spec_label_seq::<Label, IntraCtxt>(st, tys, n),
            cxf,
            spec_label_seq::<Label, IntraCtxt>(with_cx(st, cxf), tys, n),
        ),
    decreases tys, n,
{
    if n == 0 || n > tys.len() {
    } else {
        lemma_label_seq(st, tys, (n - 1) as nat, cxf);
        let r = spec_label_seq::<Label, IntraCtxt>(st, tys, (n - 1) as nat);
        if r is Ok {
            let st1 = r->Ok_0.0;
            lemma_label(st1, tys[n - 1], cxf);
            let r2 = spec_label::<Label, IntraCtxt>(st1, tys[n - 1]);
            if r2 is Ok {
                let st2 = r2->Ok_0.0;
                lemma_trans(st.cx, st1.cx, st2.cx);
                lemma_trans(st1.cx, st2.cx, cxf);
            }
        }
    }
}

/// [`SpecIntra::local_ty`] can be run again.
pub proof fn lemma_local_ty(st: SpecIntra, ty: Ty, cxf: SpecCtxt)
    ensures
        reruns(st, st.local_ty(ty), cxf, with_cx(st, cxf).local_ty(ty)),
{
    reveal(SpecIntra::local_ty);
    lemma_label(st, ty@, cxf);
}

/// [`SpecIntra::static_ty`] can be run again.
pub proof fn lemma_static_ty(st: SpecIntra, did: DefId, cxf: SpecCtxt)
    ensures
        reruns(st, st.static_ty(did), cxf, with_cx(st, cxf).static_ty(did)),
{
    reveal(SpecIntra::static_ty);
    if st.cx.static_ty(did) is Ok {
        lemma_static_ty_stable(st.cx, did, cxf);
    }
}

/// [`SpecIntra::field_lty`] can be run again.
pub proof fn lemma_field_lty(st: SpecIntra, base_ty: SpecITy, v: usize, f: usize, cxf: SpecCtxt)
    ensures
        reruns(st, st.field_lty(base_ty, v, f), cxf, with_cx(st, cxf).field_lty(base_ty, v, f)),
{
    reveal(SpecIntra::field_lty);
    match base_ty.kind {
        TyKind::Adt(adt) => {
            match st.cx.program.spec_field(adt, v, f) {
                Some(fdid) => {
                    lemma_static_ty(st, fdid, cxf);
                    if st.static_ty(fdid) is Ok {
                        assert(extends(st.cx, st.static_ty(fdid)->Ok_0.0.cx));
                    }
                },
                None => {},
            }
        },
        _ => {},
    }
}

/// [`SpecIntra::place_lty_downcast`] can be run again.
pub proof fn lemma_place_lty_downcast(st: SpecIntra, lv: Place, cxf: SpecCtxt)
    ensures
        reruns3(st, st.place_lty_downcast(lv), cxf, with_cx(st, cxf).place_lty_downcast(lv)),
    decreases lv,
{
    reveal(SpecIntra::place_lty_downcast);
    reveal(SpecIntra::local_var_ty);
    match lv {
        Place::Local(l) => {},
        Place::Static(did) => {
            lemma_static_ty(st, did, cxf);
        },
        Place::Projection(base, elem) => {
            lemma_place_lty_downcast(st, *base, cxf);
            let r = st.place_lty_downcast(*base);
            if r is Ok {
                let (st1, base_ty, base_perm, base_variant) = r->Ok_0;
                match elem {
                    crate::mir::ProjectionElem::Field(f) => {
                        let v = match base_variant {
                            Some(v) => v,
                            None => 0,
                        };
                        lemma_field_lty(st1, base_ty, v, f, cxf);
                        let r2 = st1.field_lty(base_ty, v, f);
                        if r2 is Ok {
                            lemma_trans(st.cx, st1.cx, r2->Ok_0.0.cx);
                            lemma_trans(st1.cx, r2->Ok_0.0.cx, cxf);
                        }
                    },
                    _ => {},
                }
            }
        },
    }
}

/// [`SpecIntra::place_lty`] can be run again.
pub proof fn lemma_place_lty(st: SpecIntra, lv: Place, cxf: SpecCtxt)
    ensures
        reruns2(st, st.place_lty(lv), cxf, with_cx(st, cxf).place_lty(lv)),
{
    reveal(SpecIntra::place_lty);
    lemma_place_lty_downcast(st, lv, cxf);
}

/// [`SpecIntra::operand_lty`] can be run again.
pub proof fn lemma_operand_lty(st: SpecIntra, op: Operand, cxf: SpecCtxt)
    ensures
        reruns2(st, st.operand_lty(op), cxf, with_cx(st, cxf).operand_lty(op)),
{
    reveal(SpecIntra::operand_lty);
    match op {
        Operand::Copy(lv) => {
            lemma_place_lty(st, lv, cxf);
        },
        Operand::Move(lv) => {
            lemma_place_lty(st, lv, cxf);
        },
        Operand::Constant(c) => {
            lemma_local_ty(st, c.ty, cxf);
        },
    }
}

/// [`SpecIntra::unify_inst_vars`] can be run again.
pub proof fn lemma_unify_inst_vars(st: SpecIntra, idx1: usize, idx2: usize, cxf: SpecCtxt)
    ensures
        reruns0(st, st.unify_inst_vars(idx1, idx2), cxf, with_cx(st, cxf).unify_inst_vars(idx1, idx2)),
{
    reveal(SpecIntra::unify_inst_vars);
    if idx1 < st.insts.len() && idx2 < st.insts.len() {
        let callee = st.insts[idx1 as int].callee;
        if st.cx.variant_summ(callee) is Ok {
            lemma_variant_summ_stable(st.cx, callee, cxf);
        }
    }
}

/// Unifying two instantiations does not depend on which of the two is
/// named first, and doing it once more, in either order, changes nothing:
/// the same constraints stand in the end.
pub proof fn lemma_unify_twice(st: SpecIntra, idx1: usize, idx2: usize)
    requires
        st.unify_inst_vars(idx1, idx2) is Ok,
    ensures
        st.unify_inst_vars(idx2, idx1) == st.unify_inst_vars(idx1, idx2),
        st.unify_inst_vars(idx1, idx2)->Ok_0.unify_inst_vars(idx2, idx1) == st.unify_inst_vars(
            idx1,
            idx2,
        ),
        st.unify_inst_vars(idx1, idx2)->Ok_0.unify_inst_vars(idx1, idx2) == st.unify_inst_vars(
            idx1,
            idx2,
        ),
{
    reveal(SpecIntra::unify_inst_vars);
    let inst1 = st.insts[idx1 as int];
    let inst2 = st.insts[idx2 as int];
    let st1 = st.unify_inst_vars(idx1, idx2)->Ok_0;
    if inst1.first_inst_var != inst2.first_inst_var {
        let (cx1, f, _) = st.cx.variant_summ(inst1.callee)->Ok_0;
        lemma_variant_summ_stable(st.cx, inst1.callee, cx1);
        let g = cx1.variant_summ(inst1.callee)->Ok_0.1;
        crate::intra::lemma_unify_symmetric(
            st.cset,
            inst1.first_inst_var,
            inst2.first_inst_var,
            f.num_sig_vars,
        );
        let u = crate::intra::unify_pairs(
            inst1.first_inst_var,
            inst2.first_inst_var,
            f.num_sig_vars,
        );
        assert(st.cset.union(u).union(u) =~= st.cset.union(u));
    }
}

/// [`SpecIntra::propagate`] can be run again.
pub proof fn lemma_propagate(
    st: SpecIntra,
    lhs: SpecITy,
    rhs: SpecITy,
    path_perm: SpecPerm,
    cxf: SpecCtxt,
)
    ensures
        reruns0(
            st,
            st.propagate(lhs, rhs, path_perm),
            cxf,
            with_cx(st, cxf).propagate(lhs, rhs, path_perm),
        ),
    decreases lhs, 0nat,
{
    reveal(SpecIntra::propagate);
    let top = match (lhs.label, rhs.label) {
        (SpecLabel::Ptr(l), SpecLabel::Ptr(r)) => Ok(
            st.add(l, r).add(
                SpecPerm::min2(l, SpecPerm::Concrete(crate::perm::ConcretePerm::Write)),
                path_perm,
            ),
        ),
        (SpecLabel::FnDef(i), SpecLabel::FnDef(j)) => st.unify_inst_vars(i, j),
        _ => Ok(st),
    };
    match (lhs.label, rhs.label) {
        (SpecLabel::FnDef(i), SpecLabel::FnDef(j)) => {
            lemma_unify_inst_vars(st, i, j, cxf);
        },
        _ => {},
    }
    if top is Ok {
        let st1 = top->Ok_0;
        if lhs.args.len() == rhs.args.len() {
            lemma_propagate_from(st1, lhs.args, rhs.args, path_perm, 0, cxf);
            let r = st1.propagate_from(lhs.args, rhs.args, path_perm, 0);
            if r is Ok {
                lemma_trans(st.cx, st1.cx, r->Ok_0.cx);
                lemma_trans(st1.cx, r->Ok_0.cx, cxf);
            }
        }
    }
}

/// [`SpecIntra::propagate_from`] can be run again.
pub proof fn lemma_propagate_from(
    st: SpecIntra,
    ls: Seq<SpecITy>,
    rs: Seq<SpecITy>,
    path_perm: SpecPerm,
    i: nat,
    cxf: SpecCtxt,
)
    ensures
        reruns0(
            st,
            st.propagate_from(ls, rs, path_perm, i),
            cxf,
            with_cx(st, cxf).propagate_from(ls, rs, path_perm, i),
        ),
    decreases ls, ls.len() - i,
{
    reveal(SpecIntra::propagate);
    if i >= ls.len() || i >= rs.len() {
    } else {
        lemma_propagate(st, ls[i as int], rs[i as int], path_perm, cxf);
        let r = st.propagate(ls[i as int], rs[i as int], path_perm);
        if r is Ok {
            let st1 = r->Ok_0;
            lemma_propagate_from(st1, ls, rs, path_perm, i + 1, cxf);
            let r2 = st1.propagate_from(ls, rs, path_perm, i + 1);
            if r2 is Ok {
                lemma_trans(st.cx, st1.cx, r2->Ok_0.cx);
                lemma_trans(st1.cx, r2->Ok_0.cx, cxf);
            }
        }
    }
}

/// [`SpecIntra::ty_fn_sig`] can be run again.
pub proof fn lemma_ty_fn_sig(st: SpecIntra, ty: SpecITy, cxf: SpecCtxt)
    ensures
        reruns::<SpecIFnSig>(st, st.ty_fn_sig(ty), cxf, with_cx(st, cxf).ty_fn_sig(ty)),
{
    reveal(SpecIntra::ty_fn_sig);
    match ty.kind {
        TyKind::FnDef(did) => {
            if st.cx.variant_summ(did) is Ok {
                lemma_variant_summ_stable(st.cx, did, cxf);
            }
        },
        _ => {},
    }
}

/// A step that follows a step: both can be run again if each can.
proof fn lemma_then(a: SpecCtxt, b: SpecCtxt, c: SpecCtxt, cxf: SpecCtxt)
    ensures
        extends(a, b) && extends(b, c) ==> extends(a, c),
        extends(b, c) && extends(c, cxf) ==> extends(b, cxf),
{
    lemma_trans(a, b, c);
    lemma_trans(b, c, cxf);
}

/// Assigning an operand to a place of a given type can be run again.
proof fn lemma_assign_one(st: SpecIntra, elem: SpecITy, op: Operand, cxf: SpecCtxt)
    ensures
        st.operand_lty(op) is Ok ==> reruns0(
            st.operand_lty(op)->Ok_0.0,
            st.operand_lty(op)->Ok_0.0.propagate(
                elem,
                st.operand_lty(op)->Ok_0.1,
                st.operand_lty(op)->Ok_0.2,
            ),
            cxf,
            with_cx(st.operand_lty(op)->Ok_0.0, cxf).propagate(
                elem,
                st.operand_lty(op)->Ok_0.1,
                st.operand_lty(op)->Ok_0.2,
            ),
        ),
        reruns2(st, st.operand_lty(op), cxf, with_cx(st, cxf).operand_lty(op)),
{
    lemma_operand_lty(st, op, cxf);
    if st.operand_lty(op) is Ok {
        let (st1, op_ty, op_perm) = st.operand_lty(op)->Ok_0;
        lemma_propagate(st1, elem, op_ty, op_perm, cxf);
    }
}

/// [`SpecIntra::assign_all_to`] can be run again.
pub proof fn lemma_assign_all_to(st: SpecIntra, elem: SpecITy, ops: Seq<Operand>, i: nat, cxf: SpecCtxt)
    ensures
        reruns0(st, st.assign_all_to(elem, ops, i), cxf, with_cx(st, cxf).assign_all_to(elem, ops, i)),
    decreases ops.len() - i,
{
    if i < ops.len() {
        lemma_assign_one(st, elem, ops[i as int], cxf);
        let r = st.operand_lty(ops[i as int]);
        if r is Ok {
            let (st1, op_ty, op_perm) = r->Ok_0;
            let r2 = st1.propagate(elem, op_ty, op_perm);
            if r2 is Ok {
                let st2 = r2->Ok_0;
                lemma_assign_all_to(st2, elem, ops, i + 1, cxf);
                let r3 = st2.assign_all_to(elem, ops, i + 1);
                if r3 is Ok {
                    let st3 = r3->Ok_0;
                    lemma_then(st1.cx, st2.cx, st3.cx, cxf);
                    lemma_then(st.cx, st1.cx, st3.cx, cxf);
                    lemma_trans(st1.cx, st2.cx, cxf);
                }
            }
        }
    }
}

/// [`SpecIntra::assign_each`] can be run again.
pub proof fn lemma_assign_each(
    st: SpecIntra,
    elems: Seq<SpecITy>,
    ops: Seq<Operand>,
    i: nat,
    cxf: SpecCtxt,
)
    ensures
        reruns0(st, st.assign_each(elems, ops, i), cxf, with_cx(st, cxf).assign_each(elems, ops, i)),
    decreases ops.len() - i,
{
    if i < ops.len() && i < elems.len() {
        lemma_assign_one(st, elems[i as int], ops[i as int], cxf);
        let r = st.operand_lty(ops[i as int]);
        if r is Ok {
            let (st1, op_ty, op_perm) = r->Ok_0;
            let r2 = st1.propagate(elems[i as int], op_ty, op_perm);
            if r2 is Ok {
                let st2 = r2->Ok_0;
                lemma_assign_each(st2, elems, ops, i + 1, cxf);
                let r3 = st2.assign_each(elems, ops, i + 1);
                if r3 is Ok {
                    let st3 = r3->Ok_0;
                    lemma_then(st1.cx, st2.cx, st3.cx, cxf);
                    lemma_then(st.cx, st1.cx, st3.cx, cxf);
                    lemma_trans(st1.cx, st2.cx, cxf);
                }
            }
        }
    }
}

/// [`SpecIntra::assign_field`] can be run again.
pub proof fn lemma_assign_field(
    st: SpecIntra,
    adt: DefId,
    variant: usize,
    field: usize,
    adt_args: Seq<SpecITy>,
    op: Operand,
    cxf: SpecCtxt,
)
    ensures
        reruns0(
            st,
            st.assign_field(adt, variant, field, adt_args, op),
            cxf,
            with_cx(st, cxf).assign_field(adt, variant, field, adt_args, op),
        ),
{
    reveal(SpecIntra::assign_field);
    match st.cx.program.spec_field(adt, variant, field) {
        Some(fdid) => {
            lemma_static_ty(st, fdid, cxf);
            let r = st.static_ty(fdid);
            if r is Ok {
                let (st1, poly) = r->Ok_0;
                match crate::labeled_ty::spec_subst(poly, adt_args) {
                    Ok(field_ty) => {
                        lemma_assign_one(st1, field_ty, op, cxf);
                        let r2 = st1.operand_lty(op);
                        if r2 is Ok {
                            let (st2, op_ty, op_perm) = r2->Ok_0;
                            let r3 = st2.propagate(field_ty, op_ty, op_perm);
                            if r3 is Ok {
                                let st3 = r3->Ok_0;
                                lemma_then(st1.cx, st2.cx, st3.cx, cxf);
                                lemma_then(st.cx, st1.cx, st3.cx, cxf);
                                lemma_trans(st1.cx, st2.cx, cxf);
                            }
                        }
                    },
                    Err(_) => {},
                }
            }
        },
        None => {},
    }
}

/// [`SpecIntra::assign_fields`] can be run again.
pub proof fn lemma_assign_fields(
    st: SpecIntra,
    adt: DefId,
    variant: usize,
    adt_args: Seq<SpecITy>,
    ops: Seq<Operand>,
    i: nat,
    cxf: SpecCtxt,
)
    ensures
        reruns0(
            st,
            st.assign_fields(adt, variant, adt_args, ops, i),
            cxf,
            with_cx(st, cxf).assign_fields(adt, variant, adt_args, ops, i),
        ),
    decreases ops.len() - i,
{
    if i < ops.len() {
        lemma_assign_field(st, adt, variant, i as usize, adt_args, ops[i as int], cxf);
        let r = st.assign_field(adt, variant, i as usize, adt_args, ops[i as int]);
        if r is Ok {
            let st1 = r->Ok_0;
            lemma_assign_fields(st1, adt, variant, adt_args, ops, i + 1, cxf);
            let r2 = st1.assign_fields(adt, variant, adt_args, ops, i + 1);
            if r2 is Ok {
                lemma_then(st.cx, st1.cx, r2->Ok_0.cx, cxf);
            }
        }
    }
}

/// [`SpecIntra::aggregate`] can be run again.
pub proof fn lemma_aggregate(
    st: SpecIntra,
    kind: AggregateKind,
    ty: SpecITy,
    ops: Seq<Operand>,
    cxf: SpecCtxt,
)
    ensures
        reruns0(st, st.aggregate(kind, ty, ops), cxf, with_cx(st, cxf).aggregate(kind, ty, ops)),
{
    reveal(SpecIntra::aggregate);
    match kind {
        AggregateKind::Array => {
            if ops.len() > 0 && ty.args.len() > 0 {
                lemma_assign_all_to(st, ty.args[0], ops, 0, cxf);
            }
        },
        AggregateKind::Tuple => {
            lemma_assign_each(st, ty.args, ops, 0, cxf);
        },
        AggregateKind::Adt { adt, variant, union_field } => {
            match union_field {
                Some(uf) => {
                    if ops.len() == 1 {
                        lemma_assign_field(st, adt, 0, uf, ty.args, ops[0], cxf);
                    }
                },
                None => {
                    lemma_assign_fields(st, adt, variant, ty.args, ops, 0, cxf);
                },
            }
        },
        _ => {},
    }
}

/// [`SpecIntra::fresh_value`] can be run again.
pub proof fn lemma_fresh_value(st: SpecIntra, ty: Ty, cxf: SpecCtxt)
    ensures
        reruns2(st, st.fresh_value(ty), cxf, with_cx(st, cxf).fresh_value(ty)),
{
    reveal(SpecIntra::fresh_value);
    lemma_local_ty(st, ty, cxf);
}

/// [`SpecIntra::repeat_value`] can be run again.
pub proof fn lemma_repeat_value(st: SpecIntra, op: Operand, ty: Ty, cxf: SpecCtxt)
    ensures
        reruns2(st, st.repeat_value(op, ty), cxf, with_cx(st, cxf).repeat_value(op, ty)),
{
    reveal(SpecIntra::repeat_value);
    lemma_local_ty(st, ty, cxf);
    let r = st.local_ty(ty);
    if r is Ok {
        let (st1, arr_ty) = r->Ok_0;
        if arr_ty.args.len() > 0 {
            lemma_assign_one(st1, arr_ty.args[0], op, cxf);
        } else {
            lemma_operand_lty(st1, op, cxf);
        }
        let r2 = st1.operand_lty(op);
        if r2 is Ok && arr_ty.args.len() > 0 {
            let (st2, op_ty, op_perm) = r2->Ok_0;
            let r3 = st2.propagate(arr_ty.args[0], op_ty, op_perm);
            if r3 is Ok {
                let st3 = r3->Ok_0;
                lemma_then(st1.cx, st2.cx, st3.cx, cxf);
                lemma_then(st.cx, st1.cx, st3.cx, cxf);
                lemma_trans(st1.cx, st2.cx, cxf);
            }
        }
    }
}

/// [`SpecIntra::ref_value`] can be run again.
pub proof fn lemma_ref_value(st: SpecIntra, lv: Place, kind: TyKind, cxf: SpecCtxt)
    ensures
        reruns2(st, st.ref_value(lv, kind), cxf, with_cx(st, cxf).ref_value(lv, kind)),
{
    reveal(SpecIntra::ref_value);
    lemma_place_lty(st, lv, cxf);
}

/// [`SpecIntra::cast_value`] can be run again.
pub proof fn lemma_cast_value(st: SpecIntra, op: Operand, cast_raw_ty: Ty, cxf: SpecCtxt)
    ensures
        reruns2(st, st.cast_value(op, cast_raw_ty), cxf, with_cx(st, cxf).cast_value(op, cast_raw_ty)),
{
    reveal(SpecIntra::cast_value);
    lemma_local_ty(st, cast_raw_ty, cxf);
    let r = st.local_ty(cast_raw_ty);
    if r is Ok {
        let (st1, cast_ty) = r->Ok_0;
        lemma_assign_one(st1, cast_ty, op, cxf);
        let r2 = st1.operand_lty(op);
        if r2 is Ok {
            let (st2, op_ty, op_perm) = r2->Ok_0;
            let r3 = st2.propagate(cast_ty, op_ty, op_perm);
            if r3 is Ok {
                let st3 = r3->Ok_0;
                lemma_then(st1.cx, st2.cx, st3.cx, cxf);
                lemma_then(st.cx, st1.cx, st3.cx, cxf);
                lemma_trans(st1.cx, st2.cx, cxf);
            }
        }
    }
}

/// [`SpecIntra::aggregate_value`] can be run again.
pub proof fn lemma_aggregate_value(
    st: SpecIntra,
    kind: AggregateKind,
    ops: Seq<Operand>,
    ty: Ty,
    cxf: SpecCtxt,
)
    ensures
        reruns2(
            st,
            st.aggregate_value(kind, ops, ty),
            cxf,
            with_cx(st, cxf).aggregate_value(kind, ops, ty),
        ),
{
    reveal(SpecIntra::aggregate_value);
    lemma_local_ty(st, ty, cxf);
    let r = st.local_ty(ty);
    if r is Ok {
        let (st1, t) = r->Ok_0;
        lemma_aggregate(st1, kind, t, ops, cxf);
        let r2 = st1.aggregate(kind, t, ops);
        if r2 is Ok {
            lemma_then(st.cx, st1.cx, r2->Ok_0.cx, cxf);
        }
    }
}

/// [`SpecIntra::rvalue_lty`] can be run again.
pub proof fn lemma_rvalue_lty(st: SpecIntra, rv: Rvalue, cxf: SpecCtxt)
    ensures
        reruns2(st, st.rvalue_lty(rv), cxf, with_cx(st, cxf).rvalue_lty(rv)),
{
    reveal(SpecIntra::rvalue_lty);
    match rv.kind {
        RvalueKind::Use(op) => {
            lemma_operand_lty(st, op, cxf);
        },
        RvalueKind::Repeat(op) => {
            lemma_repeat_value(st, op, rv.ty, cxf);
        },
        RvalueKind::Ref(lv) => {
            lemma_ref_value(st, lv, rv.ty.kind, cxf);
        },
        RvalueKind::Cast(op, cast_raw_ty) => {
            lemma_cast_value(st, op, cast_raw_ty, cxf);
        },
        RvalueKind::BinaryOp(_, a, _) => {
            lemma_operand_lty(st, a, cxf);
            lemma_fresh_value(st, rv.ty, cxf);
        },
        RvalueKind::CheckedBinaryOp(_, a, _) => {
            lemma_operand_lty(st, a, cxf);
            lemma_fresh_value(st, rv.ty, cxf);
        },
        RvalueKind::Aggregate(kind, ops) => {
            lemma_aggregate_value(st, kind, ops@, rv.ty, cxf);
        },
        _ => {
            lemma_fresh_value(st, rv.ty, cxf);
        },
    }
}

/// [`SpecIntra::store`] can be run again.
pub proof fn lemma_store(
    st: SpecIntra,
    lv_ty: SpecITy,
    lv_perm: SpecPerm,
    val_ty: SpecITy,
    val_perm: SpecPerm,
    cxf: SpecCtxt,
)
    ensures
        reruns0(
            st,
            st.store(lv_ty, lv_perm, val_ty, val_perm),
            cxf,
            with_cx(st, cxf).store(lv_ty, lv_perm, val_ty, val_perm),
        ),
{
    reveal(SpecIntra::store);
    lemma_propagate(st, lv_ty, val_ty, val_perm, cxf);
}

/// [`SpecIntra::handle_stmt`] can be run again.
pub proof fn lemma_handle_stmt(st: SpecIntra, s: Statement, cxf: SpecCtxt)
    ensures
        reruns0(st, st.handle_stmt(s), cxf, with_cx(st, cxf).handle_stmt(s)),
{
    reveal(SpecIntra::handle_stmt);
    match s {
        Statement::Assign(lv, rv) => {
            lemma_place_lty(st, lv, cxf);
            let r = st.place_lty(lv);
            if r is Ok {
                let (st1, lv_ty, lv_perm) = r->Ok_0;
                lemma_rvalue_lty(st1, rv, cxf);
                let r2 = st1.rvalue_lty(rv);
                if r2 is Ok {
                    let (st2, rv_ty, rv_perm) = r2->Ok_0;
                    lemma_store(st2, lv_ty, lv_perm, rv_ty, rv_perm, cxf);
                    let r3 = st2.store(lv_ty, lv_perm, rv_ty, rv_perm);
                    if r3 is Ok {
                        let st3 = r3->Ok_0;
                        lemma_then(st1.cx, st2.cx, st3.cx, cxf);
                        lemma_then(st.cx, st1.cx, st3.cx, cxf);
                        lemma_trans(st1.cx, st2.cx, cxf);
                    }
                }
            }
        },
        Statement::Other => {},
    }
}

/// [`SpecIntra::handle_stmts`] can be run again.
pub proof fn lemma_handle_stmts(st: SpecIntra, stmts: Seq<Statement>, i: nat, cxf: SpecCtxt)
    ensures
        reruns0(st, st.handle_stmts(stmts, i), cxf, with_cx(st, cxf).handle_stmts(stmts, i)),
    decreases stmts.len() - i,
{
    if i < stmts.len() {
        let st0 = SpecIntra { stmt_idx: i as usize, ..st };
        lemma_handle_stmt(st0, stmts[i as int], cxf);
        assert(with_cx(st0, cxf) == SpecIntra { stmt_idx: i as usize, ..with_cx(st, cxf) });
        let r = st0.handle_stmt(stmts[i as int]);
        if r is Ok {
            let st1 = r->Ok_0;
            lemma_handle_stmts(st1, stmts, i + 1, cxf);
            let r2 = st1.handle_stmts(stmts, i + 1);
            if r2 is Ok {
                lemma_then(st.cx, st1.cx, r2->Ok_0.cx, cxf);
            }
        }
    }
}

/// [`SpecIntra::handle_terminator`] can be run again.
pub proof fn lemma_handle_terminator(st: SpecIntra, t: Terminator, cxf: SpecCtxt)
    ensures
        reruns0(st, st.handle_terminator(t), cxf, with_cx(st, cxf).handle_terminator(t)),
{
    reveal(SpecIntra::handle_terminator);
    match t {
        Terminator::Other => {},
        Terminator::DropAndReplace { location, value } => {
            lemma_place_lty(st, location, cxf);
            let r = st.place_lty(location);
            if r is Ok {
                let (st1, loc_ty, loc_perm) = r->Ok_0;
                lemma_operand_lty(st1, value, cxf);
                let r2 = st1.operand_lty(value);
                if r2 is Ok {
                    let (st2, val_ty, val_perm) = r2->Ok_0;
                    lemma_store(st2, loc_ty, loc_perm, val_ty, val_perm, cxf);
                    let r3 = st2.store(loc_ty, loc_perm, val_ty, val_perm);
                    if r3 is Ok {
                        let st3 = r3->Ok_0;
                        lemma_then(st1.cx, st2.cx, st3.cx, cxf);
                        lemma_then(st.cx, st1.cx, st3.cx, cxf);
                        lemma_trans(st1.cx, st2.cx, cxf);
                    }
                }
            }
        },
        Terminator::Call { func, args, destination } => {
            lemma_operand_lty(st, func, cxf);
            let r = st.operand_lty(func);
            if r is Ok {
                let (st1, func_ty, _) = r->Ok_0;
                lemma_ty_fn_sig(st1, func_ty, cxf);
                let r2 = st1.ty_fn_sig(func_ty);
                if r2 is Ok {
                    let (st2, sig) = r2->Ok_0;
                    lemma_assign_each(st2, sig.inputs, args@, 0, cxf);
                    let r3 = st2.assign_each(sig.inputs, args@, 0);
                    if r3 is Ok {
                        let st3 = r3->Ok_0;
                        lemma_then(st1.cx, st2.cx, st3.cx, cxf);
                        lemma_then(st.cx, st1.cx, st3.cx, cxf);
                        lemma_trans(st1.cx, st2.cx, cxf);
                        match destination {
                            None => {},
                            Some(dest) => {
                                lemma_place_lty(st3, dest, cxf);
                                let r4 = st3.place_lty(dest);
                                if r4 is Ok {
                                    let (st4, dest_ty, dest_perm) = r4->Ok_0;
                                    let mv = SpecPerm::Concrete(crate::perm::ConcretePerm::Move);
                                    lemma_store(st4, dest_ty, dest_perm, sig.output, mv, cxf);
                                    let r5 = st4.store(dest_ty, dest_perm, sig.output, mv);
                                    if r5 is Ok {
                                        let st5 = r5->Ok_0;
                                        lemma_then(st3.cx, st4.cx, st5.cx, cxf);
                                        lemma_then(st.cx, st3.cx, st5.cx, cxf);
                                        lemma_trans(st3.cx, st4.cx, cxf);
                                        lemma_trans(st2.cx, st3.cx, cxf);
                                        lemma_trans(st1.cx, st2.cx, cxf);
                                        lemma_trans(st1.cx, st3.cx, cxf);
                                    }
                                }
                            },
                        }
                    }
                }
            }
        },
    }
}

/// [`SpecIntra::handle_basic_block`] can be run again.
pub proof fn lemma_handle_basic_block(st: SpecIntra, bbid: usize, bb: BasicBlockData, cxf: SpecCtxt)
    ensures
        reruns0(
            st,
            st.handle_basic_block(bbid, bb),
            cxf,
            with_cx(st, cxf).handle_basic_block(bbid, bb),
        ),
{
    reveal(SpecIntra::handle_basic_block);
    let st0 = SpecIntra { bbid, stmt_idx: usize::MAX, ..st };
    lemma_handle_stmts(st0, bb.statements@, 0, cxf);
    assert(with_cx(st0, cxf) == SpecIntra { bbid, stmt_idx: usize::MAX, ..with_cx(st, cxf) });
    let r = st0.handle_stmts(bb.statements@, 0);
    if r is Ok {
        let st1 = r->Ok_0;
        lemma_handle_terminator(st1, bb.terminator, cxf);
        let r2 = st1.handle_terminator(bb.terminator);
        if r2 is Ok {
            lemma_then(st.cx, st1.cx, r2->Ok_0.cx, cxf);
        }
    }
}

/// [`SpecIntra::init_locals`] can be run again.
pub proof fn lemma_init_locals(
    st: SpecIntra,
    decls: Seq<Ty>,
    arg_count: usize,
    sig: SpecIFnSig,
    l: nat,
    cxf: SpecCtxt,
)
    ensures
        reruns0(
            st,
            st.init_locals(decls, arg_count, sig, l),
            cxf,
            with_cx(st, cxf).init_locals(decls, arg_count, sig, l),
        ),
    decreases decls.len() - l,
{
    if l < decls.len() {
        lemma_local_ty(st, decls[l as int], cxf);
        let r = if l == 0 {
            Ok((st, sig.output))
        } else if l - 1 < arg_count {
            if l - 1 < sig.inputs.len() {
                Ok((st, sig.inputs[l - 1]))
            } else {
                Err(Error::Inconsistent)
            }
        } else {
            st.local_ty(decls[l as int])
        };
        if r is Ok {
            let (st1, lty) = r->Ok_0;
            let st2 = SpecIntra { local_tys: st1.local_tys.push(lty), ..st1 };
            lemma_init_locals(st2, decls, arg_count, sig, l + 1, cxf);
            let r2 = st2.init_locals(decls, arg_count, sig, l + 1);
            if r2 is Ok {
                lemma_then(st.cx, st1.cx, r2->Ok_0.cx, cxf);
                assert(with_cx(st2, cxf) == SpecIntra {
                    local_tys: with_cx(st1, cxf).local_tys.push(lty),
                    ..with_cx(st1, cxf)
                });
            }
        }
    }
}

/// [`SpecIntra::init`] can be run again. The constraints that it takes up
/// are those that the storage holds for the variant when it ends.
pub proof fn lemma_init(st: SpecIntra, cxf: SpecCtxt)
    ensures
        st.init() is Ok ==> extends(st.cx, st.init()->Ok_0.cx) && (extends(st.init()->Ok_0.cx, cxf)
            ==> with_cx(st, cxf).init() == Ok::<SpecIntra, Error>(with_cx(st.init()->Ok_0, cxf))),
        st.init() is Ok ==> {
            let st2 = st.init()->Ok_0;
            &&& st2.def_id == st.def_id
            &&& st2.mir == st.mir
            &&& st2.def_id.0 < st2.cx.variants.len()
            &&& st2.cx.variants[st2.def_id.0 as int] is Some
            &&& st2.cx.variants[st2.def_id.0 as int]->Some_0.inst_cset == st2.cset
        },
{
    reveal(SpecIntra::init);
    let d = st.def_id;
    if st.cx.variant_summ(d) is Ok {
        lemma_variant_summ_stable(st.cx, d, cxf);
        let (cx1, f, _) = st.cx.variant_summ(d)->Ok_0;
        match crate::intra::spec_relabel_sig(f.sig, crate::intra::VarToPtr) {
            Ok(sig) => {
                let st1 = SpecIntra { cx: cx1, ..st };
                lemma_init_locals(st1, st.mir.local_decls@, st.mir.arg_count, sig, 0, cxf);
                let r = st1.init_locals(st.mir.local_decls@, st.mir.arg_count, sig, 0);
                if r is Ok {
                    let st2 = r->Ok_0;
                    if st2.cx.variant_summ(d) is Ok {
                        lemma_variant_summ_stable(st2.cx, d, cxf);
                        lemma_variant_summ_present(st2.cx, d);
                        let (cx3, _, v) = st2.cx.variant_summ(d)->Ok_0;
                        lemma_then(cx1, st2.cx, cx3, cxf);
                        lemma_then(st.cx, cx1, cx3, cxf);
                        lemma_trans(cx1, st2.cx, cxf);
                        if extends(cx3, cxf) {
                            assert(with_cx(st1, cxf) == SpecIntra { cx: cxf, ..with_cx(st, cxf) });
                        }
                    }
                }
            },
            Err(_) => {},
        }
    }
}

/// The state after the basic blocks `steps`, each with its index, were
/// handled from index `i` on, in the order of `steps`.
pub open spec fn run_blocks(st: SpecIntra, steps: Seq<(usize, BasicBlockData)>, i: nat) -> Result<
    SpecIntra,
    Error,
>
    decreases steps.len() - i,
{
    if i >= steps.len() {
        Ok(st)
    } else {
        match st.handle_basic_block(steps[i as int].0, steps[i as int].1) {
            Err(e) => Err(e),
            Ok(st1) => run_blocks(st1, steps, i + 1),
        }
    }
}

/// [`run_blocks`] can be run again.
pub proof fn lemma_run_blocks(
    st: SpecIntra,
    steps: Seq<(usize, BasicBlockData)>,
    i: nat,
    cxf: SpecCtxt,
)
    ensures
        reruns0(st, run_blocks(st, steps, i), cxf, run_blocks(with_cx(st, cxf), steps, i)),
    decreases steps.len() - i,
{
    if i < steps.len() {
        lemma_handle_basic_block(st, steps[i as int].0, steps[i as int].1, cxf);
        let r = st.handle_basic_block(steps[i as int].0, steps[i as int].1);
        if r is Ok {
            let st1 = r->Ok_0;
            lemma_run_blocks(st1, steps, i + 1, cxf);
            let r2 = run_blocks(st1, steps, i + 1);
            if r2 is Ok {
                lemma_then(st.cx, st1.cx, r2->Ok_0.cx, cxf);
            }
        }
    }
}

/// Handling a basic block only adds constraints: what was found before is
/// found after.
pub proof fn lemma_block_only_adds(st: SpecIntra, bbid: usize, bb: BasicBlockData)
    requires
        st.handle_basic_block(bbid, bb) is Ok,
    ensures
        st.cset.subset_of(st.handle_basic_block(bbid, bb)->Ok_0.cset),
        st.handle_basic_block(bbid, bb)->Ok_0.def_id == st.def_id,
        st.handle_basic_block(bbid, bb)->Ok_0.mir == st.mir,
{
    lemma_handle_basic_block(st, bbid, bb, st.cx);
}

/// The state in which [`IntraCtxt::new`] leaves the pass.
pub open spec fn start(cx: SpecCtxt, def_id: DefId, mir: Mir) -> SpecIntra {
    SpecIntra {
        cx,
        def_id,
        mir,
        bbid: 0,
        stmt_idx: usize::MAX,
        cset: Set::empty(),
        local_tys: Seq::empty(),
        next_local_var: 0,
        insts: Seq::empty(),
        next_inst_var: 0,
    }
}

/// The storage after the whole pass over the body `mir` of variant
/// `def_id`: [`IntraCtxt::new`], [`IntraCtxt::init`],
/// [`IntraCtxt::handle_basic_block`] on each of `steps` in order, and
/// [`IntraCtxt::finish`].
pub open spec fn analyse(
    cx: SpecCtxt,
    def_id: DefId,
    mir: Mir,
    steps: Seq<(usize, BasicBlockData)>,
) -> Result<SpecCtxt, Error> {
    match start(cx, def_id, mir).init() {
        Err(e) => Err(e),
        Ok(st) => match run_blocks(st, steps, 0) {
            Err(e) => Err(e),
            Ok(st2) => st2.finish(),
        },
    }
}

/// The constraints that the pass over the body of `def_id` takes up from
/// the storage `cx` when it starts.
pub open spec fn preset(cx: SpecCtxt, def_id: DefId, mir: Mir) -> Set<SpecConstraint> {
    start(cx, def_id, mir).init()->Ok_0.cset
}

/// The storage `cx`, with the constraints of variant `def_id` set to
/// `cs`.
pub open spec fn with_preset(cx: SpecCtxt, def_id: DefId, cs: Set<SpecConstraint>) -> SpecCtxt {
    SpecCtxt {
        variants: cx.variants.update(
            def_id.0 as int,
            Some(SpecVariantSumm { inst_cset: cs, ..cx.variants[def_id.0 as int]->Some_0 }),
        ),
        ..cx
    }
}

/// Running the pass again gives what it gave before.
///
/// Let the pass over the body `mir` of variant `def_id`, with the blocks
/// `steps`, end well from the storage `cx`. Take the storage that it
/// leaves, and put back the constraints that it took up for the variant
/// when it started. Then the pass over the same body, with the same
/// blocks, ends well from that storage too, and leaves the very storage
/// that the first run left: the same constraints for the variant, the
/// same instantiations, and every other summary as it was.
pub proof fn lemma_reanalysis(
    cx: SpecCtxt,
    def_id: DefId,
    mir: Mir,
    steps: Seq<(usize, BasicBlockData)>,
)
    requires
        analyse(cx, def_id, mir, steps) is Ok,
    ensures
        analyse(
            with_preset(analyse(cx, def_id, mir, steps)->Ok_0, def_id, preset(cx, def_id, mir)),
            def_id,
            mir,
            steps,
        ) == analyse(cx, def_id, mir, steps),
{
    let st0 = start(cx, def_id, mir);
    let st_i = st0.init()->Ok_0;
    let st_p = run_blocks(st_i, steps, 0)->Ok_0;
    let cx1 = st_p.finish()->Ok_0;
    let cs = preset(cx, def_id, mir);
    let cxr = with_preset(cx1, def_id, cs);
    reveal(SpecIntra::finish);
    lemma_init(st0, cxr);
    lemma_run_blocks(st_i, steps, 0, cxr);
    assert(st_p.def_id == def_id);
    lemma_variant_summ_present(st_p.cx, def_id);
    let (cxq, _, v) = st_p.cx.variant_summ(def_id)->Ok_0;
    lemma_variant_summ_stable(st_p.cx, def_id, cxr);
    assert(extends(st_i.cx, st_p.cx));
    assert(extends(st_p.cx, cxq));
    assert(v.inst_cset == cs) by {
        assert(st_i.cx.variants[def_id.0 as int] is Some);
        assert(st_p.cx.variants[def_id.0 as int] is Some);
    }
    assert(cxr.variants =~= cxq.variants.update(
        def_id.0 as int,
        Some(SpecVariantSumm { inst_cset: cs, insts: st_p.insts, ..v }),
    ));
    assert(extends(cxq, cxr));
    lemma_trans(st_p.cx, cxq, cxr);
    lemma_trans(st_i.cx, st_p.cx, cxr);
    assert(with_cx(st0, cxr) == start(cxr, def_id, mir));
    assert(start(cxr, def_id, mir).init() == Ok::<SpecIntra, Error>(with_cx(st_i, cxr)));
    assert(run_blocks(with_cx(st_i, cxr), steps, 0) == Ok::<SpecIntra, Error>(with_cx(st_p, cxr)));
    let again = with_cx(st_p, cxr).finish();
    assert(cxr.variant_summ(def_id) is Ok && cxr.variant_summ(def_id)->Ok_0.0 == cxr);
    lemma_variant_summ_present(cxr, def_id);
    assert(again is Ok);
    assert(again->Ok_0.variants =~= cx1.variants);
    assert(again->Ok_0 == cx1);
}

} // verus!
