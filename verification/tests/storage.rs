use ownership::context::Ctxt;
use ownership::error::Error;
use ownership::perm::{ConcretePerm, Perm, PermVar, Var};
use ownership::ty::{AdtDef, Def, DefId, FnDecl, Program, Ty, TyKind};

fn scalar() -> Ty {
    Ty::leaf(TyKind::Scalar)
}

fn ptr(to: Ty) -> Ty {
    Ty::new(TyKind::RawPtr, vec![to])
}

fn program() -> Program {
    Program {
        defs: vec![
            Def::Fn(FnDecl { inputs: vec![ptr(scalar()), scalar()], output: ptr(ptr(scalar())) }),
            Def::Value(ptr(scalar())),
            Def::Adt(AdtDef { variants: vec![vec![DefId(1), DefId(3)], vec![]] }),
            Def::Value(scalar()),
            Def::Fn(FnDecl { inputs: vec![], output: scalar() }),
            Def::Opaque,
        ],
    }
}

#[test]
fn program_lookups() {
    let p = program();
    assert!(p.fn_sig(DefId(0)).is_some());
    assert!(p.fn_sig(DefId(1)).is_none());
    assert!(p.fn_sig(DefId(99)).is_none());
    assert_eq!(p.type_of(DefId(1)), Some(&ptr(scalar())));
    assert!(p.type_of(DefId(0)).is_none());
    assert_eq!(p.field(DefId(2), 0, 1), Some(DefId(3)));
    assert_eq!(p.field(DefId(2), 0, 2), None);
    assert_eq!(p.field(DefId(2), 1, 0), None);
    assert_eq!(p.field(DefId(2), 2, 0), None);
    assert_eq!(p.field(DefId(0), 0, 0), None);
}

#[test]
fn new_storage_is_empty() {
    let cx = Ctxt::new(program());
    assert_eq!(cx.funcs.len(), 6);
    assert_eq!(cx.variants.len(), 6);
    assert_eq!(cx.static_summ.len(), 6);
    assert!(cx.funcs.iter().all(|f| f.is_none()));
    assert!(cx.variants.iter().all(|v| v.is_none()));
    assert!(cx.static_summ.iter().all(|s| s.is_none()));
    assert!(cx.static_assign.is_empty());
}

#[test]
fn static_ty_is_made_once() {
    let mut cx = Ctxt::new(program());
    let t = cx.static_ty(DefId(1)).unwrap();
    assert_eq!(t.label, Some(PermVar::Static(Var(0))));
    assert_eq!(cx.static_assign, vec![ConcretePerm::Read]);
    let again = cx.static_ty(DefId(1)).unwrap();
    assert_eq!(again, t);
    assert_eq!(cx.static_assign.len(), 1);
    assert_eq!(cx.static_ty(DefId(0)), Err(Error::Inconsistent));
    assert_eq!(cx.static_ty(DefId(77)), Err(Error::Inconsistent));
}

#[test]
fn function_summary_is_made_on_demand() {
    let mut cx = Ctxt::new(program());
    assert_eq!(cx.ensure_func(DefId(0)), Ok(()));
    let f = cx.funcs[0].as_ref().unwrap();
    assert_eq!(f.num_sig_vars, 3);
    assert_eq!(f.sig.inputs[0].label, Some(PermVar::Sig(Var(0))));
    assert_eq!(f.sig.inputs[1].label, None);
    assert_eq!(f.sig.output.label, Some(PermVar::Sig(Var(1))));
    assert_eq!(f.sig.output.args[0].label, Some(PermVar::Sig(Var(2))));
    assert_eq!(f.sig_cset.len(), 0);
    assert!(!f.cset_provided);
    assert!(!f.monos_provided);
    assert!(f.variant_ids.is_empty());
    assert!(f.monos.is_empty());
    assert_eq!(cx.ensure_func(DefId(1)), Err(Error::Inconsistent));
    assert_eq!(cx.ensure_func(DefId(6)), Err(Error::Inconsistent));
}

#[test]
fn a_definition_becomes_its_own_variant() {
    let mut cx = Ctxt::new(program());
    assert_eq!(cx.ensure_variant(DefId(4)), Ok(DefId(4)));
    let v = cx.variants[4].as_ref().unwrap();
    assert_eq!(v.func_id, DefId(4));
    assert_eq!(v.variant_idx, 0);
    assert_eq!(v.inst_cset.len(), 0);
    assert!(v.insts.is_empty());
    assert_eq!(cx.funcs[4].as_ref().unwrap().variant_ids, vec![DefId(4)]);
    assert_eq!(cx.ensure_variant(DefId(4)), Ok(DefId(4)));
    assert_eq!(cx.funcs[4].as_ref().unwrap().variant_ids, vec![DefId(4)]);
    assert_eq!(cx.variant_num_sig_vars(DefId(0)), Ok((DefId(0), 3)));
    assert_eq!(cx.variant_func_sig(DefId(4)).unwrap().inputs.len(), 0);
}

#[test]
fn variants_share_the_summary_of_their_function() {
    let mut cx = Ctxt::new(program());
    assert_eq!(cx.add_variant(DefId(0), DefId(0)), Ok(()));
    assert_eq!(cx.add_variant(DefId(0), DefId(4)), Ok(()));
    assert_eq!(cx.funcs[0].as_ref().unwrap().variant_ids, vec![DefId(0), DefId(4)]);
    assert!(cx.funcs[4].is_none());
    assert_eq!(cx.variants[4].as_ref().unwrap().func_id, DefId(0));
    assert_eq!(cx.variants[4].as_ref().unwrap().variant_idx, 1);
    assert_eq!(cx.ensure_variant(DefId(4)), Ok(DefId(0)));
    assert_eq!(cx.variant_num_sig_vars(DefId(4)), Ok((DefId(0), 3)));
    assert_eq!(cx.add_variant(DefId(0), DefId(4)), Err(Error::Inconsistent));
    assert_eq!(cx.ensure_func(DefId(4)), Err(Error::Inconsistent));
}

#[test]
fn monomorphizations_are_numbered_per_function() {
    let mut cx = Ctxt::new(program());
    cx.add_variant(DefId(0), DefId(0)).unwrap();
    cx.add_variant(DefId(0), DefId(4)).unwrap();
    assert_eq!(cx.add_mono(DefId(0)), Ok((DefId(0), 0)));
    assert_eq!(cx.add_mono(DefId(4)), Ok((DefId(0), 1)));
    let f = cx.funcs[0].as_ref().unwrap();
    assert_eq!(f.monos.len(), 2);
    assert!(f.monos[1].assign.is_empty());
    assert_eq!(f.monos[1].suffix, "");
    assert_eq!(cx.add_mono(DefId(5)), Err(Error::Inconsistent));
}

#[test]
fn min_perm_is_the_minimum() {
    let cx = Ctxt::new(program());
    let a = Perm::SigVar(Var(0));
    assert_eq!(cx.min_perm(&Perm::move_(), &a), a);
    assert_eq!(cx.min_perm(&a, &Perm::write()), Perm::Min(vec![a.duplicate(), Perm::write()]));
}
