use ownership::annot::{handle_marks, MarkedType};
use ownership::context::{Ctxt, Instantiation, Span};
use ownership::error::Error;
use ownership::intra::{IntraCtxt, Label};
use ownership::labeled_ty::LabeledTy;
use ownership::mir::{
    AggregateKind, BasicBlockData, BinOp, Constant, Mir, Operand, Place, ProjectionElem, Rvalue,
    RvalueKind, Statement, Terminator, UnOp,
};
use ownership::perm::{Assignment, ConcretePerm, NonLocal, Perm, PermVar, Var};
use ownership::ty::{AdtDef, Def, DefId, FnDecl, Program, Ty, TyKind};

fn scalar() -> Ty {
    Ty::leaf(TyKind::Scalar)
}

fn unit() -> Ty {
    Ty::leaf(TyKind::Tuple)
}

fn ptr(to: Ty) -> Ty {
    Ty::new(TyKind::RawPtr, vec![to])
}

fn fn_item(def: usize) -> Ty {
    Ty::leaf(TyKind::FnDef(DefId(def)))
}

fn sig(i: u32) -> Perm {
    Perm::SigVar(Var(i))
}

fn inst(i: u32) -> Perm {
    Perm::InstVar(Var(i))
}

fn local(l: usize) -> Place {
    Place::Local(l)
}

fn deref(p: Place) -> Place {
    Place::Projection(Box::new(p), ProjectionElem::Deref)
}

fn proj(p: Place, e: ProjectionElem) -> Place {
    Place::Projection(Box::new(p), e)
}

fn span(lo: u32) -> Span {
    Span { lo, hi: lo + 1 }
}

fn constant(ty: Ty) -> Operand {
    Operand::Constant(Constant { ty, span: span(7) })
}

fn rv(kind: RvalueKind, ty: Ty) -> Rvalue {
    Rvalue { kind, ty }
}

fn use_of(op: Operand, ty: Ty) -> Rvalue {
    rv(RvalueKind::Use(op), ty)
}

fn block(statements: Vec<Statement>, terminator: Terminator) -> BasicBlockData {
    BasicBlockData { statements, terminator }
}

fn body(local_decls: Vec<Ty>, arg_count: usize) -> Mir {
    Mir { local_decls, arg_count, basic_blocks: vec![] }
}

fn ptr_label(p: Perm) -> LabeledTy<Label> {
    LabeledTy::new(TyKind::RawPtr, Label::Ptr(p), vec![LabeledTy::new(TyKind::Scalar, Label::Nothing, vec![])])
}

/// `f: fn(*mut u8) -> *mut u8` at 0, `g: fn(*mut u8) -> *mut u8` at 1,
/// `w: fn(*mut u8)` at 2, a static `*mut u8` at 3, a struct with one field
/// (definition 5, a `*mut u8`) at 4, `h: fn(*mut *mut u8, *mut u8)` at 6.
fn program() -> Program {
    Program {
        defs: vec![
            Def::Fn(FnDecl { inputs: vec![ptr(scalar())], output: ptr(scalar()) }),
            Def::Fn(FnDecl { inputs: vec![ptr(scalar())], output: ptr(scalar()) }),
            Def::Fn(FnDecl { inputs: vec![ptr(scalar())], output: unit() }),
            Def::Value(ptr(scalar())),
            Def::Adt(AdtDef { variants: vec![vec![DefId(5)]] }),
            Def::Value(ptr(scalar())),
            Def::Fn(FnDecl { inputs: vec![ptr(ptr(scalar())), ptr(scalar())], output: unit() }),
        ],
    }
}

fn analyse(cx: Ctxt, def: usize, mir: &Mir, blocks: &Vec<BasicBlockData>) -> Result<Ctxt, Error> {
    let mut icx = IntraCtxt::new(cx, DefId(def), mir);
    icx.init()?;
    for (i, bb) in blocks.iter().enumerate() {
        icx.handle_basic_block(i, bb)?;
    }
    icx.finish()
}

fn started<'a>(def: usize, mir: &'a Mir) -> IntraCtxt<'a> {
    let mut icx = IntraCtxt::new(Ctxt::new(program()), DefId(def), mir);
    icx.init().unwrap();
    icx
}

fn identity_body() -> (Mir, Vec<BasicBlockData>) {
    let mir = body(vec![ptr(scalar()), ptr(scalar())], 1);
    let blocks = vec![block(
        vec![Statement::Assign(local(0), use_of(Operand::Move(local(1)), ptr(scalar())))],
        Terminator::Other,
    )];
    (mir, blocks)
}

#[test]
fn returning_the_argument_bounds_the_result_by_the_argument() {
    let (mir, blocks) = identity_body();
    let cx = analyse(Ctxt::new(program()), 0, &mir, &blocks).unwrap();
    let v = cx.variants[0].as_ref().unwrap();
    assert!(v.inst_cset.contains(&sig(1), &sig(0)));
    assert_eq!(v.inst_cset.len(), 1);
    assert!(v.insts.is_empty());
    let read = Assignment { statics: vec![], sigs: vec![], insts: vec![], locals: vec![] };
    assert!(v.inst_cset.satisfied_by(&read));
    let raised_result = Assignment {
        statics: vec![],
        sigs: vec![ConcretePerm::Read, ConcretePerm::Write],
        insts: vec![],
        locals: vec![],
    };
    assert!(!v.inst_cset.satisfied_by(&raised_result));
}

#[test]
fn writing_through_the_argument_needs_write() {
    let mir = body(vec![unit(), ptr(scalar())], 1);
    let blocks = vec![block(
        vec![Statement::Assign(deref(local(1)), use_of(constant(scalar()), scalar()))],
        Terminator::Other,
    )];
    let cx = analyse(Ctxt::new(program()), 2, &mir, &blocks).unwrap();
    let v = cx.variants[2].as_ref().unwrap();
    assert_eq!(v.inst_cset.len(), 1);
    assert!(v.inst_cset.contains(&Perm::write(), &sig(0)));
}

#[test]
fn a_call_relates_caller_and_callee_through_the_instantiation() {
    let mir = body(vec![ptr(scalar()), ptr(scalar())], 1);
    let blocks = vec![block(
        vec![],
        Terminator::Call {
            func: constant(fn_item(1)),
            args: vec![Operand::Move(local(1))],
            destination: Some(local(0)),
        },
    )];
    let cx = analyse(Ctxt::new(program()), 0, &mir, &blocks).unwrap();
    let v = cx.variants[0].as_ref().unwrap();
    assert_eq!(v.inst_cset.len(), 2);
    assert!(v.inst_cset.contains(&inst(0), &sig(0)));
    assert!(v.inst_cset.contains(&sig(1), &inst(1)));
    assert!(!v.inst_cset.contains(&sig(0), &inst(0)));
    assert!(!v.inst_cset.contains(&inst(1), &sig(1)));
    assert!(!v.inst_cset.contains(&sig(1), &sig(0)));
    assert!(!v.inst_cset.contains(&sig(0), &sig(1)));
    assert_eq!(
        v.insts,
        vec![Instantiation { callee: DefId(1), span: Some(span(7)), first_inst_var: 0 }]
    );
    assert_eq!(cx.variants[1].as_ref().unwrap().inst_cset.len(), 0);
    assert_eq!(cx.funcs[1].as_ref().unwrap().num_sig_vars, 2);
}

#[test]
fn nothing_local_is_stored() {
    let mir = body(vec![ptr(scalar()), ptr(scalar()), ptr(scalar()), ptr(ptr(scalar()))], 1);
    let blocks = vec![block(
        vec![
            Statement::Assign(local(2), use_of(Operand::Copy(local(1)), ptr(scalar()))),
            Statement::Assign(
                local(3),
                rv(RvalueKind::Ref(local(2)), Ty::new(TyKind::Ref, vec![ptr(scalar())])),
            ),
            Statement::Assign(deref(deref(local(3))), use_of(constant(scalar()), scalar())),
            Statement::Assign(local(0), use_of(Operand::Move(local(1)), ptr(scalar()))),
        ],
        Terminator::Other,
    )];
    let mut icx = started(0, &mir);
    icx.handle_basic_block(0, &blocks[0]).unwrap();
    assert!(icx.cset.pairs().iter().any(|(a, b)| !a.all_vars_kept(&NonLocal) || !b.all_vars_kept(&NonLocal)));
    let cx = icx.finish().unwrap();
    let v = cx.variants[0].as_ref().unwrap();
    for (a, b) in v.inst_cset.pairs() {
        assert!(a.all_vars_kept(&NonLocal));
        assert!(b.all_vars_kept(&NonLocal));
        for i in 0..8 {
            assert!(!a.mentions(PermVar::Local(Var(i))));
            assert!(!b.mentions(PermVar::Local(Var(i))));
        }
    }
    assert!(v.inst_cset.contains(&sig(1), &sig(0)));
}

#[test]
fn analysing_again_gives_the_same_constraints() {
    let mir = body(vec![ptr(scalar()), ptr(scalar())], 1);
    let blocks = vec![block(
        vec![Statement::Assign(deref(local(1)), use_of(constant(scalar()), scalar()))],
        Terminator::Call {
            func: constant(fn_item(1)),
            args: vec![Operand::Copy(local(1))],
            destination: Some(local(0)),
        },
    )];
    let first = analyse(Ctxt::new(program()), 0, &mir, &blocks).unwrap();
    let second = analyse(Ctxt::new(program()), 0, &mir, &blocks).unwrap();
    let a = &first.variants[0].as_ref().unwrap().inst_cset;
    let b = &second.variants[0].as_ref().unwrap().inst_cset;
    assert_eq!(a.pairs(), b.pairs());
    assert_eq!(first.variants[0].as_ref().unwrap().insts, second.variants[0].as_ref().unwrap().insts);
    let expected = a.duplicate();
    let third = analyse(first, 0, &mir, &blocks).unwrap();
    let c = &third.variants[0].as_ref().unwrap().inst_cset;
    assert_eq!(c.len(), expected.len());
    for (x, y) in expected.pairs() {
        assert!(c.contains(x, y));
    }
    assert_eq!(c.len(), 3);
    assert!(c.contains(&Perm::write(), &sig(0)));
}

#[test]
fn preset_constraints_are_taken_up() {
    let mut cx = Ctxt::new(program());
    let mark = MarkedType {
        label: Some(PermVar::Sig(Var(1))),
        sig_def: Some(DefId(0)),
        is_box: true,
        is_mut: false,
        is_ref: false,
    };
    handle_marks(&mut cx, &vec![mark]).unwrap();
    let (mir, blocks) = identity_body();
    let cx = analyse(cx, 0, &mir, &blocks).unwrap();
    let v = cx.variants[0].as_ref().unwrap();
    assert_eq!(v.inst_cset.len(), 2);
    assert!(v.inst_cset.contains(&Perm::move_(), &sig(1)));
    assert!(v.inst_cset.contains(&sig(1), &sig(0)));
}

#[test]
fn the_bound_on_the_path_stops_at_write() {
    let mir = body(vec![], 0);
    let mut icx = started(2, &mir);
    let before = icx.cset.len();
    let lhs = ptr_label(Perm::move_());
    let rhs = ptr_label(sig(5));
    let path = Perm::Min(vec![Perm::read(), sig(6)]);
    icx.propagate(&lhs, &rhs, &path).unwrap();
    assert_eq!(icx.cset.len(), before + 2);
    assert!(icx.cset.contains(&Perm::move_(), &sig(5)));
    assert!(icx.cset.contains(&Perm::write(), &path));
    assert!(!icx.cset.contains(&Perm::move_(), &path));
    let lhs = ptr_label(sig(1));
    icx.propagate(&lhs, &rhs, &sig(6)).unwrap();
    let capped = Perm::Min(vec![sig(1), Perm::write()]);
    assert!(icx.cset.contains(&capped, &sig(6)));
    let perms = [ConcretePerm::Read, ConcretePerm::Write, ConcretePerm::Move];
    for p in perms {
        let a = Assignment { statics: vec![], sigs: vec![ConcretePerm::Read, p], insts: vec![], locals: vec![] };
        assert!(capped.eval(&a).leq(ConcretePerm::Write));
        assert_eq!(capped.eval(&a), p.meet(ConcretePerm::Write));
    }
}

#[test]
fn assignment_through_two_pointers() {
    let mir = body(vec![unit(), ptr(ptr(scalar())), ptr(scalar())], 2);
    let blocks = vec![block(
        vec![Statement::Assign(deref(local(1)), use_of(Operand::Copy(local(2)), ptr(scalar())))],
        Terminator::Other,
    )];
    let cx = analyse(Ctxt::new(program()), 6, &mir, &blocks).unwrap();
    let v = cx.variants[6].as_ref().unwrap();
    assert_eq!(v.inst_cset.len(), 2);
    assert!(v.inst_cset.contains(&sig(1), &sig(2)));
    assert!(v.inst_cset.contains(&Perm::write(), &sig(0)));
}

#[test]
fn path_permission_is_the_minimum_of_the_pointers_followed() {
    let mir = body(vec![unit(), ptr(ptr(scalar())), ptr(scalar())], 2);
    let mut icx = started(6, &mir);
    let (t, p) = icx.place_lty(&local(1)).unwrap();
    assert_eq!(p, Perm::move_());
    assert_eq!(t.label, Label::Ptr(sig(0)));
    let (t, p) = icx.place_lty(&deref(local(1))).unwrap();
    assert_eq!(p, sig(0));
    assert_eq!(t.label, Label::Ptr(sig(1)));
    let (t, p) = icx.place_lty(&deref(deref(local(1)))).unwrap();
    assert_eq!(p, Perm::Min(vec![sig(0), sig(1)]));
    assert_eq!(t.label, Label::Nothing);
    let (_, p) = icx.place_lty(&proj(deref(local(1)), ProjectionElem::Index)).unwrap();
    assert_eq!(p, sig(0));
    let (t, p) = icx.place_lty(&Place::Static(DefId(3))).unwrap();
    assert_eq!(p, Perm::move_());
    assert_eq!(t.label, Label::Ptr(Perm::StaticVar(Var(0))));
}

#[test]
fn unifying_is_symmetric() {
    let mir = body(vec![], 0);
    let mut one = started(2, &mir);
    let mut two = started(2, &mir);
    for icx in [&mut one, &mut two] {
        icx.local_ty(&fn_item(6)).unwrap();
        icx.local_ty(&fn_item(6)).unwrap();
        assert_eq!(icx.insts.len(), 2);
        assert_eq!(icx.insts[1].first_inst_var, 3);
        assert_eq!(icx.next_inst_var, 6);
    }
    one.unify_inst_vars(0, 1).unwrap();
    two.unify_inst_vars(1, 0).unwrap();
    assert_eq!(one.cset.len(), 6);
    assert_eq!(two.cset.len(), 6);
    for (a, b) in one.cset.pairs() {
        assert!(two.cset.contains(a, b));
        assert!(one.cset.contains(b, a));
    }
    for k in 0..3 {
        assert!(one.cset.contains(&inst(k), &inst(3 + k)));
        assert!(one.cset.contains(&inst(3 + k), &inst(k)));
    }
    one.unify_inst_vars(1, 0).unwrap();
    one.unify_inst_vars(0, 1).unwrap();
    assert_eq!(one.cset.len(), 6);
    one.unify_inst_vars(0, 0).unwrap();
    assert_eq!(one.cset.len(), 6);
    assert_eq!(one.insts.len(), 2);
}

#[test]
fn unifying_different_functions_is_inconsistent() {
    let mir = body(vec![], 0);
    let mut icx = started(2, &mir);
    icx.local_ty(&fn_item(0)).unwrap();
    icx.local_ty(&fn_item(1)).unwrap();
    assert_eq!(icx.unify_inst_vars(0, 1), Err(Error::Inconsistent));
    assert_eq!(icx.unify_inst_vars(0, 2), Err(Error::Inconsistent));
}

#[test]
fn assigning_function_items_unifies_them() {
    let mir = body(vec![unit(), fn_item(1), fn_item(1)], 0);
    let mut icx = started(2, &mir);
    assert_eq!(icx.insts.len(), 2);
    let s = Statement::Assign(local(1), use_of(Operand::Copy(local(2)), fn_item(1)));
    icx.handle_basic_block(0, &block(vec![s], Terminator::Other)).unwrap();
    assert!(icx.cset.contains(&inst(0), &inst(2)));
    assert!(icx.cset.contains(&inst(2), &inst(0)));
    assert!(icx.cset.contains(&inst(1), &inst(3)));
    assert!(icx.cset.contains(&inst(3), &inst(1)));
    assert_eq!(icx.bbid, 0);
    assert_eq!(icx.stmt_idx, 0);
}

#[test]
fn nested_pointers_are_bounded_not_made_equal() {
    let mir = body(vec![unit(), ptr(ptr(scalar())), ptr(ptr(scalar()))], 0);
    let mut icx = started(2, &mir);
    let s = Statement::Assign(local(1), use_of(Operand::Copy(local(2)), ptr(ptr(scalar()))));
    icx.handle_basic_block(3, &block(vec![Statement::Other, s], Terminator::Other)).unwrap();
    let l = |i: u32| Perm::LocalVar(Var(i));
    assert!(icx.cset.contains(&l(0), &l(2)));
    assert!(!icx.cset.contains(&l(2), &l(0)));
    assert!(icx.cset.contains(&l(1), &l(3)));
    assert!(!icx.cset.contains(&l(3), &l(1)));
    assert!(icx.cset.contains(&Perm::Min(vec![l(0), Perm::write()]), &Perm::move_()));
    assert!(icx.cset.contains(&Perm::Min(vec![l(1), Perm::write()]), &Perm::move_()));
    assert!(icx.cset.contains(&Perm::write(), &Perm::move_()));
    assert_eq!(icx.cset.len(), 5);
    assert_eq!(icx.bbid, 3);
    assert_eq!(icx.stmt_idx, 1);
}

#[test]
fn the_bound_stops_at_write_in_every_layer() {
    let mir = body(vec![], 0);
    let mut icx = started(2, &mir);
    let two = |outer: Perm, inner: Perm| {
        LabeledTy::new(TyKind::RawPtr, Label::Ptr(outer), vec![ptr_label(inner)])
    };
    let lhs = two(Perm::read(), Perm::move_());
    let rhs = two(sig(3), sig(4));
    let path = sig(9);
    icx.propagate(&lhs, &rhs, &path).unwrap();
    assert_eq!(icx.cset.len(), 4);
    assert!(icx.cset.contains(&Perm::read(), &sig(3)));
    assert!(icx.cset.contains(&Perm::read(), &path));
    assert!(icx.cset.contains(&Perm::move_(), &sig(4)));
    assert!(icx.cset.contains(&Perm::write(), &path));
    assert!(!icx.cset.contains(&Perm::move_(), &path));
    let write_is_enough = Assignment {
        statics: vec![],
        sigs: vec![
            ConcretePerm::Read,
            ConcretePerm::Read,
            ConcretePerm::Read,
            ConcretePerm::Read,
            ConcretePerm::Move,
            ConcretePerm::Read,
            ConcretePerm::Read,
            ConcretePerm::Read,
            ConcretePerm::Read,
            ConcretePerm::Write,
        ],
        insts: vec![],
        locals: vec![],
    };
    assert!(icx.cset.satisfied_by(&write_is_enough));
}

#[test]
fn values_and_their_permissions() {
    let mir = body(vec![unit(), ptr(ptr(scalar())), ptr(scalar())], 2);
    let mut icx = started(6, &mir);
    let (t, p) = icx.rvalue_lty(&use_of(Operand::Copy(deref(local(1))), ptr(scalar()))).unwrap();
    assert_eq!((t.label, p), (Label::Ptr(sig(1)), sig(0)));
    let (t, p) = icx.rvalue_lty(&use_of(constant(ptr(scalar())), ptr(scalar()))).unwrap();
    assert_eq!((t.label, p), (Label::Ptr(Perm::LocalVar(Var(0))), Perm::move_()));
    let r = rv(RvalueKind::Ref(deref(local(1))), Ty::new(TyKind::Ref, vec![ptr(scalar())]));
    let (t, p) = icx.rvalue_lty(&r).unwrap();
    assert_eq!(t.kind, TyKind::Ref);
    assert_eq!(t.label, Label::Ptr(sig(0)));
    assert_eq!(t.args.len(), 1);
    assert_eq!(t.args[0].label, Label::Ptr(sig(1)));
    assert_eq!(p, Perm::move_());
    let add = rv(
        RvalueKind::BinaryOp(BinOp::Add, constant(scalar()), constant(scalar())),
        scalar(),
    );
    let (t, p) = icx.rvalue_lty(&add).unwrap();
    assert_eq!((t.label, p), (Label::Nothing, Perm::move_()));
    let offset = rv(
        RvalueKind::BinaryOp(BinOp::Offset, Operand::Copy(deref(local(1))), constant(scalar())),
        ptr(scalar()),
    );
    let (t, p) = icx.rvalue_lty(&offset).unwrap();
    assert_eq!((t.label, p), (Label::Ptr(sig(1)), sig(0)));
    let neg = rv(RvalueKind::UnaryOp(UnOp::Neg, constant(scalar())), scalar());
    assert_eq!(icx.rvalue_lty(&neg).unwrap().1, Perm::move_());
    let len = rv(RvalueKind::Len(local(1)), scalar());
    assert_eq!(icx.rvalue_lty(&len).unwrap().1, Perm::move_());
    let before = icx.cset.len();
    let cast = rv(RvalueKind::Cast(Operand::Copy(deref(local(1))), ptr(scalar())), ptr(scalar()));
    let (t, p) = icx.rvalue_lty(&cast).unwrap();
    assert_eq!(p, Perm::move_());
    let fresh = Perm::LocalVar(Var(1));
    assert_eq!(t.label, Label::Ptr(fresh.duplicate()));
    assert_eq!(icx.cset.len(), before + 2);
    assert!(icx.cset.contains(&fresh, &sig(1)));
    assert!(icx.cset.contains(&Perm::Min(vec![fresh.duplicate(), Perm::write()]), &sig(0)));
}

#[test]
fn aggregates_assign_their_parts() {
    let mir = body(vec![unit(), ptr(ptr(scalar())), ptr(scalar())], 2);
    let l = |i: u32| Perm::LocalVar(Var(i));
    let mut icx = started(6, &mir);
    let array = rv(
        RvalueKind::Aggregate(
            AggregateKind::Array,
            vec![Operand::Copy(local(2)), Operand::Copy(deref(local(1)))],
        ),
        Ty::new(TyKind::Array, vec![ptr(scalar())]),
    );
    let (t, p) = icx.rvalue_lty(&array).unwrap();
    assert_eq!(p, Perm::move_());
    assert_eq!(t.args[0].label, Label::Ptr(l(0)));
    assert!(icx.cset.contains(&l(0), &sig(2)));
    assert!(icx.cset.contains(&l(0), &sig(1)));
    assert!(icx.cset.contains(&Perm::Min(vec![l(0), Perm::write()]), &sig(0)));
    let tuple = rv(
        RvalueKind::Aggregate(
            AggregateKind::Tuple,
            vec![constant(scalar()), Operand::Copy(local(2)), constant(scalar())],
        ),
        Ty::new(TyKind::Tuple, vec![scalar(), ptr(scalar())]),
    );
    let (t, _) = icx.rvalue_lty(&tuple).unwrap();
    assert_eq!(t.args[1].label, Label::Ptr(l(1)));
    assert!(icx.cset.contains(&l(1), &sig(2)));
    let adt = |variant: usize, union_field: Option<usize>, ops: Vec<Operand>| {
        rv(
            RvalueKind::Aggregate(AggregateKind::Adt { adt: DefId(4), variant, union_field }, ops),
            Ty::leaf(TyKind::Adt(DefId(4))),
        )
    };
    icx.rvalue_lty(&adt(0, None, vec![Operand::Copy(local(2))])).unwrap();
    let field = Perm::StaticVar(Var(0));
    assert!(icx.cset.contains(&field, &sig(2)));
    icx.rvalue_lty(&adt(0, Some(0), vec![Operand::Copy(deref(local(1)))])).unwrap();
    assert!(icx.cset.contains(&field, &sig(1)));
    assert_eq!(
        icx.rvalue_lty(&adt(0, Some(0), vec![])).map(|x| x.1),
        Err(Error::Inconsistent)
    );
    assert_eq!(
        icx.rvalue_lty(&adt(0, None, vec![constant(scalar()), constant(scalar())])).map(|x| x.1),
        Err(Error::Inconsistent)
    );
    let repeat = rv(RvalueKind::Repeat(Operand::Copy(local(2))), Ty::new(TyKind::Array, vec![ptr(scalar())]));
    let (t, p) = icx.rvalue_lty(&repeat).unwrap();
    assert_eq!(p, Perm::move_());
    match &t.args[0].label {
        Label::Ptr(e) => assert!(icx.cset.contains(e, &sig(2))),
        _ => panic!("the element of the array is a pointer"),
    }
}

#[test]
fn fields_of_structs_and_tuples() {
    let pair = Ty::new(TyKind::Tuple, vec![scalar(), ptr(scalar())]);
    let mir = body(vec![unit(), ptr(scalar()), Ty::leaf(TyKind::Adt(DefId(4))), pair], 1);
    let mut icx = started(2, &mir);
    let (t, p) = icx.place_lty(&proj(local(2), ProjectionElem::Field(0))).unwrap();
    assert_eq!((t.label, p), (Label::Ptr(Perm::StaticVar(Var(0))), Perm::move_()));
    let (t, _) = icx.place_lty(&proj(local(3), ProjectionElem::Field(1))).unwrap();
    assert_eq!(t.label, Label::Ptr(Perm::LocalVar(Var(0))));
    let down = proj(local(2), ProjectionElem::Downcast(0));
    assert_eq!(icx.place_lty(&down).map(|x| x.1), Err(Error::Inconsistent));
    assert_eq!(icx.place_lty_downcast(&down).map(|x| x.2), Ok(Some(0)));
    assert!(icx.place_lty(&proj(down, ProjectionElem::Field(0))).is_ok());
    let down = proj(local(2), ProjectionElem::Downcast(1));
    assert_eq!(
        icx.place_lty(&proj(down, ProjectionElem::Field(0))).map(|x| x.1),
        Err(Error::Inconsistent)
    );
    let down = proj(local(2), ProjectionElem::Downcast(0));
    assert_eq!(
        icx.place_lty(&proj(down, ProjectionElem::Deref)).map(|x| x.1),
        Err(Error::Inconsistent)
    );
    assert_eq!(
        icx.place_lty(&proj(local(1), ProjectionElem::Field(0))).map(|x| x.1),
        Err(Error::Unsupported)
    );
    assert_eq!(
        icx.place_lty(&proj(local(3), ProjectionElem::Field(2))).map(|x| x.1),
        Err(Error::Inconsistent)
    );
}

#[test]
fn calls_through_function_pointers() {
    let fn_ptr = Ty::new(TyKind::FnPtr, vec![ptr(scalar()), ptr(scalar())]);
    let mir = body(vec![ptr(scalar()), ptr(scalar()), fn_ptr], 1);
    let mut icx = started(0, &mir);
    let call = Terminator::Call {
        func: Operand::Copy(local(2)),
        args: vec![Operand::Copy(local(1)), constant(scalar())],
        destination: Some(local(0)),
    };
    icx.handle_basic_block(0, &block(vec![], call)).unwrap();
    let l = |i: u32| Perm::LocalVar(Var(i));
    assert!(icx.cset.contains(&l(0), &sig(0)));
    assert!(icx.cset.contains(&sig(1), &l(1)));
    let none = Terminator::Call { func: Operand::Copy(local(2)), args: vec![], destination: None };
    let before = icx.cset.len();
    icx.handle_basic_block(1, &block(vec![], none)).unwrap();
    assert_eq!(icx.cset.len(), before);
    assert_eq!(icx.stmt_idx, usize::MAX);
    assert_eq!(icx.bbid, 1);
    let sig_of = icx.ty_fn_sig(&LabeledTy::new(TyKind::FnPtr, Label::Nothing, vec![ptr_label(sig(0))])).unwrap();
    assert!(sig_of.inputs.is_empty());
    assert_eq!(sig_of.output, ptr_label(sig(0)));
}

#[test]
fn replacing_a_value_is_an_assignment() {
    let mir = body(vec![unit(), ptr(ptr(scalar())), ptr(scalar())], 2);
    let blocks = vec![block(
        vec![],
        Terminator::DropAndReplace { location: deref(local(1)), value: Operand::Move(local(2)) },
    )];
    let cx = analyse(Ctxt::new(program()), 6, &mir, &blocks).unwrap();
    let v = cx.variants[6].as_ref().unwrap();
    assert_eq!(v.inst_cset.len(), 2);
    assert!(v.inst_cset.contains(&sig(1), &sig(2)));
    assert!(v.inst_cset.contains(&Perm::write(), &sig(0)));
}

#[test]
fn unsupported_constructs_fail_loudly() {
    let mir = body(vec![unit(), ptr(scalar())], 1);
    let stmt = |r: Rvalue| block(vec![Statement::Assign(local(0), r)], Terminator::Other);
    let cases = vec![
        stmt(rv(RvalueKind::NullaryOp, scalar())),
        stmt(rv(RvalueKind::Discriminant(local(1)), scalar())),
        stmt(rv(RvalueKind::Aggregate(AggregateKind::Closure, vec![]), scalar())),
        stmt(rv(RvalueKind::Aggregate(AggregateKind::Generator, vec![]), scalar())),
        stmt(use_of(Operand::Copy(proj(local(1), ProjectionElem::ConstantIndex)), scalar())),
        stmt(use_of(Operand::Copy(proj(local(1), ProjectionElem::Subslice)), scalar())),
        block(
            vec![],
            Terminator::Call { func: constant(Ty::leaf(TyKind::Closure)), args: vec![], destination: None },
        ),
    ];
    for bb in cases {
        let mut icx = started(2, &mir);
        assert_eq!(icx.handle_basic_block(0, &bb), Err(Error::Unsupported));
    }
}

#[test]
fn inconsistent_input_is_refused() {
    let mir = body(vec![unit(), ptr(scalar())], 1);
    let stmt = |lv: Place, r: Rvalue| block(vec![Statement::Assign(lv, r)], Terminator::Other);
    let cases = vec![
        stmt(local(9), use_of(constant(scalar()), scalar())),
        stmt(deref(local(0)), use_of(constant(scalar()), scalar())),
        stmt(deref(deref(local(1))), use_of(constant(scalar()), scalar())),
        stmt(Place::Static(DefId(0)), use_of(constant(scalar()), scalar())),
        stmt(local(0), use_of(constant(fn_item(3)), scalar())),
        stmt(local(0), rv(RvalueKind::Repeat(constant(scalar())), scalar())),
        block(
            vec![],
            Terminator::Call { func: constant(scalar()), args: vec![], destination: None },
        ),
        block(
            vec![],
            Terminator::Call { func: constant(Ty::leaf(TyKind::FnPtr)), args: vec![], destination: None },
        ),
    ];
    for bb in cases {
        let mut icx = started(2, &mir);
        assert_eq!(icx.handle_basic_block(0, &bb), Err(Error::Inconsistent));
    }
    let too_many_args = body(vec![unit(), ptr(scalar()), scalar()], 2);
    let mut icx = IntraCtxt::new(Ctxt::new(program()), DefId(2), &too_many_args);
    assert_eq!(icx.init(), Err(Error::Inconsistent));
    let mut icx = IntraCtxt::new(Ctxt::new(program()), DefId(3), &mir);
    assert_eq!(icx.init(), Err(Error::Inconsistent));
    let icx = IntraCtxt::new(Ctxt::new(program()), DefId(40), &mir);
    assert_eq!(icx.finish().map(|cx| cx.funcs.len()), Err(Error::Inconsistent));
}

#[test]
fn variables_can_run_out() {
    let mir = body(vec![], 0);
    let mut icx = started(2, &mir);
    icx.next_local_var = u32::MAX;
    assert_eq!(icx.local_ty(&ptr(scalar())), Err(Error::Overflow));
    let mut icx = started(2, &mir);
    icx.next_inst_var = u32::MAX - 1;
    assert_eq!(icx.local_ty(&fn_item(6)), Err(Error::Overflow));
    let mut icx = started(2, &mir);
    icx.next_inst_var = u32::MAX - 3;
    assert!(icx.local_ty(&fn_item(6)).is_ok());
    assert_eq!(icx.next_inst_var, u32::MAX);
}

#[test]
fn locals_get_their_types_at_the_start() {
    let mir = body(vec![unit(), ptr(ptr(scalar())), ptr(scalar()), ptr(scalar()), fn_item(0)], 2);
    let icx = started(6, &mir);
    assert_eq!(icx.local_tys.len(), 5);
    assert_eq!(icx.local_tys[0].label, Label::Nothing);
    assert_eq!(icx.local_tys[1].label, Label::Ptr(sig(0)));
    assert_eq!(icx.local_tys[1].args[0].label, Label::Ptr(sig(1)));
    assert_eq!(icx.local_tys[2].label, Label::Ptr(sig(2)));
    assert_eq!(icx.local_tys[3].label, Label::Ptr(Perm::LocalVar(Var(0))));
    assert_eq!(icx.local_tys[4].label, Label::FnDef(0));
    assert_eq!(icx.next_local_var, 1);
    assert_eq!(icx.insts, vec![Instantiation { callee: DefId(0), span: None, first_inst_var: 0 }]);
    assert_eq!(icx.next_inst_var, 2);
    assert_eq!(icx.cset.len(), 0);
    assert_eq!(icx.stmt_idx, usize::MAX);
}
