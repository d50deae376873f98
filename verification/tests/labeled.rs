use ownership::context::{SigLabeler, StaticLabeler};
use ownership::error::Error;
use ownership::intra::{Label, SigToInst, VarToPtr};
use ownership::labeled_ty::{label, label_all, relabel, subst_all, LabelMap, LabeledTy};
use ownership::perm::{ConcretePerm, Perm, PermVar, Var};
use ownership::ty::{DefId, Ty, TyKind};

fn scalar() -> Ty {
    Ty::leaf(TyKind::Scalar)
}

fn ptr(to: Ty) -> Ty {
    Ty::new(TyKind::RawPtr, vec![to])
}

fn reference(to: Ty) -> Ty {
    Ty::new(TyKind::Ref, vec![to])
}

fn tuple(of: Vec<Ty>) -> Ty {
    Ty::new(TyKind::Tuple, of)
}

fn sig_var(i: u32) -> Option<PermVar> {
    Some(PermVar::Sig(Var(i)))
}

#[test]
fn kinds_of_pointers() {
    assert!(TyKind::RawPtr.is_pointer());
    assert!(TyKind::Ref.is_pointer());
    assert!(!TyKind::Scalar.is_pointer());
    assert!(!TyKind::FnPtr.is_pointer());
    assert!(!TyKind::Adt(DefId(0)).is_pointer());
}

#[test]
fn label_keeps_the_shape_and_numbers_in_preorder() {
    let ty = tuple(vec![ptr(ptr(scalar())), scalar(), reference(scalar())]);
    let mut src = SigLabeler { counter: 0 };
    let lty: LabeledTy<Option<PermVar>> = label(&ty, &mut src).unwrap();
    assert_eq!(src.counter, 3);
    assert_eq!(lty.kind, TyKind::Tuple);
    assert_eq!(lty.label, None);
    assert_eq!(lty.args.len(), 3);
    assert_eq!(lty.args[0].kind, TyKind::RawPtr);
    assert_eq!(lty.args[0].label, sig_var(0));
    assert_eq!(lty.args[0].args[0].label, sig_var(1));
    assert_eq!(lty.args[0].args[0].args[0].label, None);
    assert_eq!(lty.args[1].label, None);
    assert_eq!(lty.args[2].kind, TyKind::Ref);
    assert_eq!(lty.args[2].label, sig_var(2));
    assert_eq!(lty.labels(), vec![None, sig_var(0), sig_var(1), None, None, sig_var(2), None]);
}

#[test]
fn label_all_threads_the_counter() {
    let tys = vec![ptr(scalar()), scalar(), ptr(scalar())];
    let mut src = SigLabeler { counter: 5 };
    let ltys: Vec<LabeledTy<Option<PermVar>>> = label_all(&tys, &mut src).unwrap();
    assert_eq!(src.counter, 7);
    assert_eq!(ltys[0].label, sig_var(5));
    assert_eq!(ltys[1].label, None);
    assert_eq!(ltys[2].label, sig_var(6));
}

#[test]
fn label_fails_when_variables_run_out() {
    let mut src = SigLabeler { counter: u32::MAX };
    let r: Result<LabeledTy<Option<PermVar>>, Error> = label(&ptr(scalar()), &mut src);
    assert_eq!(r, Err(Error::Overflow));
    let mut src = SigLabeler { counter: u32::MAX };
    let r: Result<LabeledTy<Option<PermVar>>, Error> = label(&scalar(), &mut src);
    assert!(r.is_ok());
}

#[test]
fn static_labeler_assigns_read() {
    let mut src = StaticLabeler { assign: vec![ConcretePerm::Move] };
    let lty: LabeledTy<Option<PermVar>> = label(&ptr(ptr(scalar())), &mut src).unwrap();
    assert_eq!(lty.label, Some(PermVar::Static(Var(1))));
    assert_eq!(lty.args[0].label, Some(PermVar::Static(Var(2))));
    assert_eq!(src.assign, vec![ConcretePerm::Move, ConcretePerm::Read, ConcretePerm::Read]);
}

#[test]
fn relabel_replaces_each_label() {
    let mut src = SigLabeler { counter: 0 };
    let lty: LabeledTy<Option<PermVar>> = label(&ptr(tuple(vec![ptr(scalar())])), &mut src).unwrap();
    let ity = relabel(&lty, &VarToPtr).unwrap();
    assert_eq!(ity.kind, TyKind::RawPtr);
    assert_eq!(ity.label, Label::Ptr(Perm::SigVar(Var(0))));
    assert_eq!(ity.args[0].label, Label::Nothing);
    assert_eq!(ity.args[0].args[0].label, Label::Ptr(Perm::SigVar(Var(1))));
    let inst = relabel(&lty, &SigToInst { base: 10 }).unwrap();
    assert_eq!(inst.label, Label::Ptr(Perm::InstVar(Var(10))));
    assert_eq!(inst.args[0].args[0].label, Label::Ptr(Perm::InstVar(Var(11))));
    assert_eq!(inst.args[0].args[0].args.len(), 1);
}

#[test]
fn sig_to_inst_refuses_other_variables() {
    let m = SigToInst { base: 0 };
    assert_eq!(m.map(&Some(PermVar::Static(Var(0)))), Err(Error::Inconsistent));
    assert_eq!(m.map(&Some(PermVar::Local(Var(0)))), Err(Error::Inconsistent));
    assert_eq!(m.map(&None), Ok(Label::Nothing));
    let m = SigToInst { base: u32::MAX };
    assert_eq!(m.map(&sig_var(0)), Ok(Label::Ptr(Perm::InstVar(Var(u32::MAX)))));
    assert_eq!(m.map(&sig_var(1)), Err(Error::Overflow));
}

#[test]
fn subst_puts_in_the_arguments() {
    let poly = LabeledTy::new(
        TyKind::RawPtr,
        Some(PermVar::Static(Var(0))),
        vec![LabeledTy::new(TyKind::Param(1), None, vec![])],
    );
    let args = vec![
        LabeledTy::new(TyKind::Scalar, None, vec![]),
        LabeledTy::new(
            TyKind::Ref,
            sig_var(4),
            vec![LabeledTy::new(TyKind::Scalar, None, vec![])],
        ),
    ];
    let t = poly.subst(&args).unwrap();
    assert_eq!(t.kind, TyKind::RawPtr);
    assert_eq!(t.label, Some(PermVar::Static(Var(0))));
    assert_eq!(t.args[0], args[1]);
    let both = subst_all(&vec![poly.duplicate(), LabeledTy::new(TyKind::Param(0), None, vec![])], &args)
        .unwrap();
    assert_eq!(both[0], t);
    assert_eq!(both[1], args[0]);
}

#[test]
fn subst_without_substitute_is_inconsistent() {
    let poly = LabeledTy::new(
        TyKind::Tuple,
        None,
        vec![LabeledTy::new(TyKind::Param(2), None::<PermVar>, vec![])],
    );
    let args = vec![LabeledTy::new(TyKind::Scalar, None, vec![])];
    assert_eq!(poly.subst(&args), Err(Error::Inconsistent));
}

#[test]
fn duplicate_is_equal() {
    let mut src = SigLabeler { counter: 0 };
    let lty: LabeledTy<Option<PermVar>> =
        label(&tuple(vec![ptr(scalar()), ptr(ptr(scalar()))]), &mut src).unwrap();
    assert_eq!(lty.duplicate(), lty);
}

#[test]
fn label_perm_of_a_pointer_only() {
    assert_eq!(Label::Ptr(Perm::read()).perm(), Ok(Perm::read()));
    assert_eq!(Label::Nothing.perm(), Err(Error::Inconsistent));
    assert_eq!(Label::FnDef(0).perm(), Err(Error::Inconsistent));
}

#[test]
fn error_messages() {
    assert_eq!(Error::Unsupported.message(), "unsupported construct");
    assert_eq!(Error::Inconsistent.message(), "inconsistent input");
    assert_eq!(Error::Overflow.message(), "too many permission variables");
}
