use ownership::constraint::{is_trivial, ConstraintSet};
use ownership::perm::{Assignment, ConcretePerm, NonLocal, Perm, PermFilter, PermVar, Var};

fn sig(i: u32) -> Perm {
    Perm::SigVar(Var(i))
}

fn local(i: u32) -> Perm {
    Perm::LocalVar(Var(i))
}

fn assign_sigs(sigs: Vec<ConcretePerm>) -> Assignment {
    Assignment { statics: vec![], sigs, insts: vec![], locals: vec![] }
}

#[test]
fn concrete_permissions_are_ordered() {
    assert!(ConcretePerm::Read.leq(ConcretePerm::Write));
    assert!(ConcretePerm::Write.leq(ConcretePerm::Move));
    assert!(ConcretePerm::Read.leq(ConcretePerm::Read));
    assert!(!ConcretePerm::Move.leq(ConcretePerm::Read));
    assert!(!ConcretePerm::Write.leq(ConcretePerm::Read));
    assert_eq!(ConcretePerm::Read.join(ConcretePerm::Move), ConcretePerm::Move);
    assert_eq!(ConcretePerm::Write.join(ConcretePerm::Read), ConcretePerm::Write);
    assert_eq!(ConcretePerm::Write.meet(ConcretePerm::Move), ConcretePerm::Write);
    assert_eq!(ConcretePerm::Move.meet(ConcretePerm::Read), ConcretePerm::Read);
}

#[test]
fn var_and_as_var_are_inverse() {
    let vars = [
        PermVar::Static(Var(3)),
        PermVar::Sig(Var(0)),
        PermVar::Inst(Var(7)),
        PermVar::Local(Var(1)),
    ];
    for v in vars {
        assert_eq!(Perm::var(v).as_var(), Some(v));
    }
    assert_eq!(Perm::var(PermVar::Sig(Var(2))), Perm::SigVar(Var(2)));
    assert_eq!(Perm::read().as_var(), None);
    assert_eq!(Perm::Min(vec![sig(0)]).as_var(), None);
}

#[test]
fn min_read_absorbs() {
    assert_eq!(Perm::min(&Perm::read(), &sig(0)), Perm::read());
    assert_eq!(Perm::min(&sig(0), &Perm::read()), Perm::read());
    assert_eq!(Perm::min(&Perm::Min(vec![sig(0), sig(1)]), &Perm::read()), Perm::read());
}

#[test]
fn min_move_is_dropped() {
    assert_eq!(Perm::min(&Perm::move_(), &sig(0)), sig(0));
    assert_eq!(Perm::min(&sig(0), &Perm::move_()), sig(0));
    assert_eq!(Perm::min(&Perm::move_(), &Perm::move_()), Perm::move_());
}

#[test]
fn min_of_two_atoms() {
    assert_eq!(Perm::min(&sig(0), &sig(0)), sig(0));
    assert_eq!(Perm::min(&sig(0), &sig(1)), Perm::Min(vec![sig(0), sig(1)]));
    assert_eq!(Perm::min(&sig(0), &Perm::write()), Perm::Min(vec![sig(0), Perm::write()]));
}

#[test]
fn min_merges_operands_once() {
    let a = Perm::Min(vec![sig(0), sig(1)]);
    let b = Perm::Min(vec![sig(1), sig(2)]);
    assert_eq!(Perm::min(&a, &b), Perm::Min(vec![sig(0), sig(1), sig(2)]));
    assert_eq!(Perm::min(&a, &sig(1)), Perm::Min(vec![sig(0), sig(1)]));
    assert_eq!(Perm::min(&a, &sig(5)), Perm::Min(vec![sig(0), sig(1), sig(5)]));
    assert_eq!(Perm::min(&sig(5), &a), Perm::Min(vec![sig(0), sig(1), sig(5)]));
}

#[test]
fn same_and_duplicate() {
    let p = Perm::Min(vec![sig(0), Perm::Min(vec![local(1), Perm::write()])]);
    let q = p.duplicate();
    assert!(p.same(&q));
    assert_eq!(p, q);
    assert!(!p.same(&Perm::Min(vec![sig(0)])));
    assert!(!sig(0).same(&Perm::InstVar(Var(0))));
}

#[test]
fn eval_takes_the_smallest_operand() {
    let a = assign_sigs(vec![ConcretePerm::Move, ConcretePerm::Write]);
    assert_eq!(sig(0).eval(&a), ConcretePerm::Move);
    assert_eq!(sig(1).eval(&a), ConcretePerm::Write);
    assert_eq!(sig(9).eval(&a), ConcretePerm::Read);
    assert_eq!(Perm::Min(vec![sig(0), sig(1)]).eval(&a), ConcretePerm::Write);
    assert_eq!(Perm::Min(vec![]).eval(&a), ConcretePerm::Move);
    assert_eq!(
        Perm::Min(vec![sig(0), Perm::Min(vec![sig(1), Perm::read()])]).eval(&a),
        ConcretePerm::Read
    );
    assert_eq!(Perm::write().eval(&a), ConcretePerm::Write);
}

#[test]
fn normal_form_flattens_and_folds() {
    let nested = Perm::Min(vec![sig(0), Perm::Min(vec![sig(1), sig(0)]), Perm::move_()]);
    assert_eq!(nested.normalize(), Perm::Min(vec![sig(1), sig(0)]));
    let in_order = Perm::Min(vec![Perm::Min(vec![sig(0), sig(1)]), sig(2), sig(0)]);
    assert_eq!(in_order.normalize(), Perm::Min(vec![sig(0), sig(1), sig(2)]));
    assert_eq!(Perm::Min(vec![sig(3)]).normalize(), sig(3));
    assert_eq!(Perm::Min(vec![]).normalize(), Perm::move_());
    assert_eq!(Perm::Min(vec![sig(0), Perm::read()]).normalize(), Perm::read());
    assert_eq!(
        Perm::Min(vec![Perm::write(), sig(0), Perm::write()]).normalize(),
        Perm::Min(vec![Perm::write(), sig(0)])
    );
    assert_eq!(sig(4).normalize(), sig(4));
}

#[test]
fn normal_form_keeps_the_value() {
    let p = Perm::Min(vec![sig(0), Perm::Min(vec![sig(1), Perm::write()]), Perm::move_()]);
    let n = p.normalize();
    let perms = [ConcretePerm::Read, ConcretePerm::Write, ConcretePerm::Move];
    for x in perms {
        for y in perms {
            let a = assign_sigs(vec![x, y]);
            assert_eq!(p.eval(&a), n.eval(&a));
        }
    }
}

#[test]
fn mentions_and_filters() {
    let p = Perm::Min(vec![sig(0), Perm::Min(vec![local(1)])]);
    assert!(p.mentions(PermVar::Sig(Var(0))));
    assert!(p.mentions(PermVar::Local(Var(1))));
    assert!(!p.mentions(PermVar::Local(Var(0))));
    assert!(!p.all_vars_kept(&NonLocal));
    assert!(Perm::Min(vec![sig(0), Perm::InstVar(Var(2))]).all_vars_kept(&NonLocal));
    assert!(NonLocal.test(PermVar::Static(Var(0))));
    assert!(!NonLocal.test(PermVar::Local(Var(0))));
    assert!(p.has_concrete_le(ConcretePerm::Move) == false);
    assert!(Perm::Min(vec![sig(0), Perm::write()]).has_concrete_le(ConcretePerm::Write));
    assert!(!Perm::Min(vec![sig(0), Perm::write()]).has_concrete_le(ConcretePerm::Read));
}

#[test]
fn add_is_idempotent() {
    let mut cs = ConstraintSet::new();
    assert_eq!(cs.len(), 0);
    cs.add(sig(0), sig(1));
    cs.add(sig(0), sig(1));
    assert_eq!(cs.len(), 1);
    assert!(cs.contains(&sig(0), &sig(1)));
    assert!(!cs.contains(&sig(1), &sig(0)));
    cs.add(sig(1), sig(0));
    assert_eq!(cs.len(), 2);
    assert_eq!(cs.pairs()[0], (sig(0), sig(1)));
    assert_eq!(cs.pairs()[1], (sig(1), sig(0)));
}

#[test]
fn import_is_union() {
    let mut a = ConstraintSet::new();
    a.add(sig(0), sig(1));
    a.add(Perm::write(), sig(0));
    let mut b = ConstraintSet::new();
    b.add(sig(0), sig(1));
    b.add(sig(2), sig(3));
    a.import(&b);
    assert_eq!(a.len(), 3);
    assert!(a.contains(&sig(2), &sig(3)));
    assert!(a.contains(&Perm::write(), &sig(0)));
    let c = a.duplicate();
    assert_eq!(c.len(), 3);
    assert!(c.contains(&sig(0), &sig(1)));
}

#[test]
fn trivial_constraints() {
    assert!(is_trivial(&Perm::read(), &sig(0)));
    assert!(is_trivial(&sig(0), &Perm::move_()));
    assert!(is_trivial(&sig(0), &sig(0)));
    assert!(is_trivial(&Perm::write(), &Perm::write()));
    assert!(is_trivial(&Perm::read(), &Perm::write()));
    assert!(is_trivial(&Perm::Min(vec![sig(0), sig(1)]), &sig(1)));
    assert!(is_trivial(&Perm::Min(vec![sig(0), Perm::write()]), &Perm::write()));
    assert!(is_trivial(&sig(0), &Perm::Min(vec![])));
    assert!(is_trivial(&sig(0), &Perm::Min(vec![sig(0), Perm::move_()])));
    assert!(!is_trivial(&Perm::write(), &sig(0)));
    assert!(!is_trivial(&sig(0), &sig(1)));
    assert!(!is_trivial(&Perm::move_(), &Perm::read()));
    assert!(!is_trivial(&sig(0), &Perm::write()));
    assert!(!is_trivial(&sig(0), &Perm::Min(vec![sig(0), sig(1)])));
}

#[test]
fn remove_useless_drops_what_always_holds() {
    let mut cs = ConstraintSet::new();
    cs.add(Perm::read(), sig(0));
    cs.add(sig(0), Perm::move_());
    cs.add(sig(1), sig(1));
    cs.add(Perm::write(), sig(0));
    cs.add(Perm::move_(), Perm::read());
    cs.add(sig(0), sig(1));
    cs.remove_useless();
    assert_eq!(cs.len(), 3);
    assert!(cs.contains(&Perm::write(), &sig(0)));
    assert!(cs.contains(&Perm::move_(), &Perm::read()));
    assert!(cs.contains(&sig(0), &sig(1)));
}

#[test]
fn expand_min_rhs_splits_right_sides() {
    let mut cs = ConstraintSet::new();
    cs.add(sig(0), Perm::Min(vec![sig(1), Perm::Min(vec![sig(2), Perm::write()])]));
    cs.add(sig(3), sig(4));
    cs.expand_min_rhs();
    assert_eq!(cs.len(), 4);
    assert!(cs.contains(&sig(0), &sig(1)));
    assert!(cs.contains(&sig(0), &sig(2)));
    assert!(cs.contains(&sig(0), &Perm::write()));
    assert!(cs.contains(&sig(3), &sig(4)));
}

#[test]
fn simplify_min_lhs_keeps_a_minimum_whole() {
    let mut cs = ConstraintSet::new();
    cs.add(Perm::Min(vec![sig(0), sig(1)]), sig(2));
    cs.add(Perm::Min(vec![sig(3)]), sig(4));
    cs.add(Perm::Min(vec![sig(5), Perm::Min(vec![sig(5), Perm::move_()])]), sig(6));
    cs.simplify_min_lhs();
    assert_eq!(cs.len(), 3);
    assert!(cs.contains(&Perm::Min(vec![sig(0), sig(1)]), &sig(2)));
    assert!(!cs.contains(&sig(0), &sig(2)));
    assert!(!cs.contains(&sig(1), &sig(2)));
    assert!(cs.contains(&sig(3), &sig(4)));
    assert!(cs.contains(&sig(5), &sig(6)));
}

#[test]
fn simplify_min_lhs_admits_no_new_solution() {
    let mut cs = ConstraintSet::new();
    cs.add(Perm::Min(vec![sig(0), sig(1)]), sig(2));
    cs.add(Perm::Min(vec![sig(0), Perm::Min(vec![sig(1), Perm::write()])]), sig(1));
    let before = cs.duplicate();
    cs.simplify_min_lhs();
    let perms = [ConcretePerm::Read, ConcretePerm::Write, ConcretePerm::Move];
    for x in perms {
        for y in perms {
            for z in perms {
                let a = assign_sigs(vec![x, y, z]);
                assert_eq!(before.satisfied_by(&a), cs.satisfied_by(&a));
            }
        }
    }
}

#[test]
fn retain_perms_erases_locals() {
    let mut cs = ConstraintSet::new();
    cs.add(sig(0), local(0));
    cs.add(local(0), sig(1));
    cs.add(sig(0), sig(1));
    cs.add(Perm::Min(vec![sig(0), local(2)]), sig(1));
    cs.add(Perm::write(), Perm::InstVar(Var(0)));
    cs.retain_perms(&NonLocal);
    assert_eq!(cs.len(), 2);
    assert!(cs.contains(&sig(0), &sig(1)));
    assert!(cs.contains(&Perm::write(), &Perm::InstVar(Var(0))));
}

#[test]
fn simplify_normalizes_splits_and_drops() {
    let mut cs = ConstraintSet::new();
    cs.add(Perm::Min(vec![sig(0), Perm::move_()]), Perm::Min(vec![sig(1), sig(0), Perm::move_()]));
    cs.add(Perm::Min(vec![Perm::write(), Perm::move_()]), sig(2));
    cs.add(Perm::read(), sig(3));
    cs.simplify();
    assert_eq!(cs.len(), 2);
    assert!(cs.contains(&sig(0), &sig(1)));
    assert!(cs.contains(&Perm::write(), &sig(2)));
    let again = cs.duplicate();
    cs.simplify();
    assert_eq!(cs.len(), again.len());
    assert!(cs.contains(&sig(0), &sig(1)));
    assert!(cs.contains(&Perm::write(), &sig(2)));
}

#[test]
fn simplify_keeps_the_solutions() {
    let mut cs = ConstraintSet::new();
    cs.add(Perm::Min(vec![sig(0), sig(1)]), Perm::Min(vec![sig(2), Perm::write()]));
    cs.add(Perm::write(), sig(0));
    cs.add(sig(2), sig(2));
    let before = cs.duplicate();
    cs.simplify();
    let perms = [ConcretePerm::Read, ConcretePerm::Write, ConcretePerm::Move];
    for x in perms {
        for y in perms {
            for z in perms {
                let a = assign_sigs(vec![x, y, z]);
                assert_eq!(before.satisfied_by(&a), cs.satisfied_by(&a));
            }
        }
    }
}

#[test]
fn raising_permissions_keeps_lower_bounds_satisfied() {
    let mut cs = ConstraintSet::new();
    cs.add(Perm::write(), sig(0));
    cs.add(Perm::read(), sig(1));
    cs.add(Perm::write(), Perm::Min(vec![sig(0), sig(2)]));
    let low = assign_sigs(vec![ConcretePerm::Write, ConcretePerm::Read, ConcretePerm::Write]);
    assert!(cs.satisfied_by(&low));
    let perms = [ConcretePerm::Read, ConcretePerm::Write, ConcretePerm::Move];
    for x in perms {
        for y in perms {
            for z in perms {
                if ConcretePerm::Write.leq(x) && ConcretePerm::Write.leq(z) {
                    assert!(cs.satisfied_by(&assign_sigs(vec![x, y, z])));
                }
            }
        }
    }
    assert!(!cs.satisfied_by(&assign_sigs(vec![ConcretePerm::Read, ConcretePerm::Read])));
}

#[test]
fn raising_a_left_side_can_break_a_constraint() {
    let mut cs = ConstraintSet::new();
    cs.add(sig(0), sig(1));
    assert!(cs.satisfied_by(&assign_sigs(vec![ConcretePerm::Read, ConcretePerm::Read])));
    assert!(!cs.satisfied_by(&assign_sigs(vec![ConcretePerm::Move, ConcretePerm::Read])));
    assert!(cs.satisfied_by(&assign_sigs(vec![ConcretePerm::Read, ConcretePerm::Move])));
}
