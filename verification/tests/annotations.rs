use ownership::annot::{
    handle_attrs, handle_marks, meta_item_list, meta_item_word, name_is, nested_meta_item,
    nested_str, parse_concrete, parse_mono_sig, parse_ownership_constraints, parse_perm,
    parse_static_assign, parse_var, parse_variant_of, AnnotError, Attribute, ConfigError,
    ConfigErrorKind, DefAttrs, Lit, MarkedType, MetaItem, MetaItemKind, NestedMetaItem,
};
use ownership::context::Ctxt;
use ownership::error::Error;
use ownership::perm::{ConcretePerm, Perm, PermVar, Var};
use ownership::ty::{Def, DefId, FnDecl, Program, Ty, TyKind};

fn word(name: &str) -> MetaItem {
    MetaItem { name: name.to_string(), node: MetaItemKind::Word }
}

fn list(name: &str, args: Vec<NestedMetaItem>) -> MetaItem {
    MetaItem { name: name.to_string(), node: MetaItemKind::List(args) }
}

fn item(m: MetaItem) -> NestedMetaItem {
    NestedMetaItem::MetaItem(m)
}

fn w(name: &str) -> NestedMetaItem {
    item(word(name))
}

fn string(s: &str) -> NestedMetaItem {
    NestedMetaItem::Literal(Lit::Str(s.to_string()))
}

fn attr(m: MetaItem) -> Attribute {
    Attribute { name: m.name.clone(), meta: Some(m) }
}

fn le(a: NestedMetaItem, b: NestedMetaItem) -> NestedMetaItem {
    item(list("le", vec![a, b]))
}

fn scalar() -> Ty {
    Ty::leaf(TyKind::Scalar)
}

fn ptr(to: Ty) -> Ty {
    Ty::new(TyKind::RawPtr, vec![to])
}

fn program() -> Program {
    Program {
        defs: vec![
            Def::Fn(FnDecl { inputs: vec![ptr(scalar())], output: scalar() }),
            Def::Fn(FnDecl { inputs: vec![ptr(scalar())], output: scalar() }),
            Def::Value(ptr(ptr(scalar()))),
            Def::Fn(FnDecl { inputs: vec![ptr(scalar()), ptr(scalar())], output: ptr(scalar()) }),
        ],
    }
}

fn on(def: usize, attrs: Vec<Attribute>) -> DefAttrs {
    DefAttrs { def_id: Some(DefId(def)), attrs }
}

fn config_err(def: usize, kind: ConfigErrorKind) -> Result<(), ConfigError> {
    Err(ConfigError { def_id: DefId(def), kind })
}

#[test]
fn names_are_compared_whole() {
    assert!(name_is(&"le".to_string(), "le"));
    assert!(!name_is(&"le".to_string(), "les"));
    assert!(!name_is(&"".to_string(), "le"));
}

#[test]
fn shapes_of_items() {
    let l = list("x", vec![w("a")]);
    assert_eq!(meta_item_list(&l).map(|xs| xs.len()), Ok(1));
    assert_eq!(meta_item_list(&word("x")).map(|xs| xs.len()), Err(AnnotError::ExpectedList));
    assert_eq!(meta_item_word(&word("x")), Ok(()));
    assert_eq!(meta_item_word(&l), Err(AnnotError::ExpectedWord));
    assert_eq!(nested_meta_item(&w("a")), Ok(&word("a")));
    assert_eq!(nested_meta_item(&string("a")), Err(AnnotError::ExpectedMetaItem));
    assert_eq!(nested_str(&string("grp")), Ok("grp".to_string()));
    assert_eq!(nested_str(&w("grp")), Err(AnnotError::ExpectedStr));
    assert_eq!(nested_str(&NestedMetaItem::Literal(Lit::Other)), Err(AnnotError::ExpectedStr));
}

#[test]
fn variable_names() {
    assert_eq!(parse_var(&"_0".to_string()), Some(0));
    assert_eq!(parse_var(&"_12".to_string()), Some(12));
    assert_eq!(parse_var(&"_007".to_string()), Some(7));
    assert_eq!(parse_var(&"_+5".to_string()), Some(5));
    assert_eq!(parse_var(&"_4294967295".to_string()), Some(u32::MAX));
    assert_eq!(parse_var(&"_4294967296".to_string()), None);
    assert_eq!(parse_var(&"_99999999999999999999".to_string()), None);
    assert_eq!(parse_var(&"_".to_string()), None);
    assert_eq!(parse_var(&"_+".to_string()), None);
    assert_eq!(parse_var(&"_-1".to_string()), None);
    assert_eq!(parse_var(&"_1x".to_string()), None);
    assert_eq!(parse_var(&"1".to_string()), None);
    assert_eq!(parse_var(&"".to_string()), None);
    assert_eq!(parse_var(&"x1".to_string()), None);
}

#[test]
fn concrete_permissions() {
    assert_eq!(parse_concrete(&word("READ")), Ok(ConcretePerm::Read));
    assert_eq!(parse_concrete(&word("WRITE")), Ok(ConcretePerm::Write));
    assert_eq!(parse_concrete(&word("MOVE")), Ok(ConcretePerm::Move));
    assert_eq!(parse_concrete(&word("read")), Err(AnnotError::ExpectedConcrete));
    assert_eq!(parse_concrete(&word("_0")), Err(AnnotError::ExpectedConcrete));
    assert_eq!(parse_concrete(&list("READ", vec![])), Err(AnnotError::ExpectedWord));
}

#[test]
fn permission_expressions() {
    assert_eq!(parse_perm(&word("READ")), Ok(Perm::read()));
    assert_eq!(parse_perm(&word("WRITE")), Ok(Perm::write()));
    assert_eq!(parse_perm(&word("MOVE")), Ok(Perm::move_()));
    assert_eq!(parse_perm(&word("_3")), Ok(Perm::SigVar(Var(3))));
    assert_eq!(
        parse_perm(&list("min", vec![w("_0"), w("WRITE"), item(list("min", vec![w("_1")]))])),
        Ok(Perm::Min(vec![
            Perm::SigVar(Var(0)),
            Perm::write(),
            Perm::Min(vec![Perm::SigVar(Var(1))])
        ]))
    );
}

#[test]
fn refused_permission_expressions() {
    assert_eq!(parse_perm(&list("min", vec![])), Err(AnnotError::EmptyMin));
    assert_eq!(parse_perm(&word("min")), Err(AnnotError::ExpectedList));
    assert_eq!(parse_perm(&list("min", vec![string("a")])), Err(AnnotError::ExpectedMetaItem));
    assert_eq!(parse_perm(&list("min", vec![w("_0"), w("bogus")])), Err(AnnotError::InvalidPermVar));
    assert_eq!(parse_perm(&word("bogus")), Err(AnnotError::InvalidPermVar));
    assert_eq!(parse_perm(&word("_x")), Err(AnnotError::InvalidPermVar));
    assert_eq!(parse_perm(&list("READ", vec![])), Err(AnnotError::ExpectedWord));
    assert_eq!(parse_perm(&list("_0", vec![w("a")])), Err(AnnotError::ExpectedWord));
}

#[test]
fn constraint_sets() {
    let meta = list(
        "ownership_constraints",
        vec![le(w("WRITE"), w("_0")), le(w("_0"), w("_1")), le(w("WRITE"), w("_0"))],
    );
    let cs = parse_ownership_constraints(&meta).unwrap();
    assert_eq!(cs.len(), 2);
    assert!(cs.contains(&Perm::write(), &Perm::SigVar(Var(0))));
    assert!(cs.contains(&Perm::SigVar(Var(0)), &Perm::SigVar(Var(1))));
    let none = parse_ownership_constraints(&list("ownership_constraints", vec![])).unwrap();
    assert_eq!(none.len(), 0);
}

#[test]
fn refused_constraint_sets() {
    let parse = |args: Vec<NestedMetaItem>| {
        parse_ownership_constraints(&list("ownership_constraints", args)).map(|cs| cs.len())
    };
    assert_eq!(parse(vec![item(list("le", vec![w("READ")]))]), Err(AnnotError::LeArity));
    assert_eq!(
        parse(vec![item(list("le", vec![w("READ"), w("_0"), w("_1")]))]),
        Err(AnnotError::LeArity)
    );
    assert_eq!(parse(vec![item(list("ge", vec![w("READ"), w("_0")]))]), Err(AnnotError::ExpectedLe));
    assert_eq!(parse(vec![w("le")]), Err(AnnotError::ExpectedList));
    assert_eq!(parse(vec![string("le")]), Err(AnnotError::ExpectedMetaItem));
    assert_eq!(parse(vec![le(string("a"), w("_0"))]), Err(AnnotError::ExpectedMetaItem));
    assert_eq!(parse(vec![le(w("_0"), string("a"))]), Err(AnnotError::ExpectedMetaItem));
    assert_eq!(parse(vec![le(w("_0"), w("oops"))]), Err(AnnotError::InvalidPermVar));
    assert_eq!(
        parse(vec![le(w("_0"), w("_1")), item(list("le", vec![]))]),
        Err(AnnotError::LeArity)
    );
    assert_eq!(
        parse_ownership_constraints(&word("ownership_constraints")).map(|cs| cs.len()),
        Err(AnnotError::ExpectedList)
    );
}

#[test]
fn monomorphizations() {
    let meta = list("ownership_mono", vec![string("_mut"), w("WRITE"), w("READ")]);
    assert_eq!(
        parse_mono_sig(&meta),
        Ok(("_mut".to_string(), vec![ConcretePerm::Write, ConcretePerm::Read]))
    );
    assert_eq!(
        parse_mono_sig(&list("ownership_mono", vec![string("")])),
        Ok(("".to_string(), vec![]))
    );
    assert_eq!(parse_mono_sig(&list("ownership_mono", vec![])), Err(AnnotError::MissingMonoName));
    assert_eq!(parse_mono_sig(&word("ownership_mono")), Err(AnnotError::ExpectedList));
    assert_eq!(
        parse_mono_sig(&list("ownership_mono", vec![w("WRITE")])),
        Err(AnnotError::ExpectedStr)
    );
    assert_eq!(
        parse_mono_sig(&list("ownership_mono", vec![string("a"), w("_0")])),
        Err(AnnotError::ExpectedConcrete)
    );
    assert_eq!(
        parse_mono_sig(&list("ownership_mono", vec![string("a"), string("b")])),
        Err(AnnotError::ExpectedMetaItem)
    );
}

#[test]
fn static_assignments_and_groups() {
    assert_eq!(
        parse_static_assign(&list("ownership_static", vec![w("MOVE"), w("READ")])),
        Ok(vec![ConcretePerm::Move, ConcretePerm::Read])
    );
    assert_eq!(parse_static_assign(&list("ownership_static", vec![])), Ok(vec![]));
    assert_eq!(parse_static_assign(&word("ownership_static")), Err(AnnotError::ExpectedList));
    assert_eq!(
        parse_static_assign(&list("ownership_static", vec![w("MOVE"), w("min")])),
        Err(AnnotError::ExpectedConcrete)
    );
    assert_eq!(
        parse_variant_of(&list("ownership_variant_of", vec![string("grp")])),
        Ok("grp".to_string())
    );
    assert_eq!(
        parse_variant_of(&list("ownership_variant_of", vec![])),
        Err(AnnotError::VariantOfArity)
    );
    assert_eq!(
        parse_variant_of(&list("ownership_variant_of", vec![string("a"), string("b")])),
        Err(AnnotError::VariantOfArity)
    );
    assert_eq!(
        parse_variant_of(&list("ownership_variant_of", vec![w("grp")])),
        Err(AnnotError::ExpectedStr)
    );
    assert_eq!(parse_variant_of(&word("ownership_variant_of")), Err(AnnotError::ExpectedList));
}

#[test]
fn every_annotation_error_has_a_message() {
    let all = [
        AnnotError::ExpectedList,
        AnnotError::ExpectedWord,
        AnnotError::ExpectedMetaItem,
        AnnotError::ExpectedStr,
        AnnotError::ExpectedLe,
        AnnotError::LeArity,
        AnnotError::EmptyMin,
        AnnotError::InvalidPermVar,
        AnnotError::ExpectedConcrete,
        AnnotError::MissingMonoName,
        AnnotError::VariantOfArity,
    ];
    for e in all {
        assert!(!e.message().is_empty());
    }
    assert_eq!(AnnotError::LeArity.message(), "expected exactly two arguments in `le`");
    assert_eq!(AnnotError::EmptyMin.message(), "`min` requires at least one argument");
}

#[test]
fn variants_of_a_group_share_one_summary() {
    let mut cx = Ctxt::new(program());
    let defs = vec![
        on(
            0,
            vec![
                attr(list("ownership_variant_of", vec![string("grp")])),
                attr(list("ownership_mono", vec![string("_a"), w("READ")])),
            ],
        ),
        on(
            1,
            vec![
                attr(list("ownership_mono", vec![string("_b"), w("WRITE")])),
                attr(list("ownership_variant_of", vec![string("grp")])),
            ],
        ),
    ];
    assert_eq!(handle_attrs(&mut cx, &defs), Ok(()));
    let f = cx.funcs[0].as_ref().unwrap();
    assert_eq!(f.variant_ids, vec![DefId(0), DefId(1)]);
    assert_eq!(f.monos.len(), 2);
    assert_eq!(f.monos[0].suffix, "_a");
    assert_eq!(f.monos[0].assign, vec![ConcretePerm::Read]);
    assert_eq!(f.monos[1].suffix, "_b");
    assert_eq!(f.monos[1].assign, vec![ConcretePerm::Write]);
    assert!(f.monos_provided);
    assert!(cx.funcs[1].is_none());
    assert_eq!(cx.variants[0].as_ref().unwrap().func_id, DefId(0));
    assert_eq!(cx.variants[0].as_ref().unwrap().variant_idx, 0);
    assert_eq!(cx.variants[1].as_ref().unwrap().func_id, DefId(0));
    assert_eq!(cx.variants[1].as_ref().unwrap().variant_idx, 1);
}

#[test]
fn two_groups_have_two_summaries() {
    let mut cx = Ctxt::new(program());
    let group = |name: &str, suffix: &str| {
        vec![
            attr(list("ownership_variant_of", vec![string(name)])),
            attr(list("ownership_mono", vec![string(suffix), w("READ")])),
        ]
    };
    let defs = vec![on(0, group("one", "_a")), on(1, group("two", "_b"))];
    assert_eq!(handle_attrs(&mut cx, &defs), Ok(()));
    assert_eq!(cx.funcs[0].as_ref().unwrap().variant_ids, vec![DefId(0)]);
    assert_eq!(cx.funcs[1].as_ref().unwrap().variant_ids, vec![DefId(1)]);
    assert_eq!(cx.funcs[0].as_ref().unwrap().monos.len(), 1);
    assert_eq!(cx.funcs[1].as_ref().unwrap().monos.len(), 1);
}

#[test]
fn malformed_constraints_are_fatal() {
    let mut cx = Ctxt::new(program());
    let defs = vec![on(
        0,
        vec![attr(list("ownership_constraints", vec![item(list("le", vec![w("READ")]))]))],
    )];
    assert_eq!(
        handle_attrs(&mut cx, &defs),
        config_err(0, ConfigErrorKind::Constraints(AnnotError::LeArity))
    );
}

#[test]
fn constraints_are_stored_once() {
    let mut cx = Ctxt::new(program());
    let cons = || attr(list("ownership_constraints", vec![le(w("WRITE"), w("_0"))]));
    assert_eq!(handle_attrs(&mut cx, &vec![on(3, vec![cons()])]), Ok(()));
    let f = cx.funcs[3].as_ref().unwrap();
    assert!(f.cset_provided);
    assert_eq!(f.sig_cset.len(), 1);
    assert!(f.sig_cset.contains(&Perm::write(), &Perm::SigVar(Var(0))));
    assert_eq!(cx.variants[3].as_ref().unwrap().inst_cset.len(), 0);
    assert_eq!(
        handle_attrs(&mut cx, &vec![on(3, vec![cons()])]),
        config_err(3, ConfigErrorKind::DuplicateConstraints)
    );
    let mut cx = Ctxt::new(program());
    assert_eq!(
        handle_attrs(&mut cx, &vec![on(3, vec![cons(), cons()])]),
        config_err(3, ConfigErrorKind::DuplicateConstraints)
    );
}

#[test]
fn a_variant_needs_exactly_one_mono() {
    let variant_of = || attr(list("ownership_variant_of", vec![string("grp")]));
    let mono = || attr(list("ownership_mono", vec![string("_a"), w("READ")]));
    let mut cx = Ctxt::new(program());
    assert_eq!(
        handle_attrs(&mut cx, &vec![on(0, vec![variant_of()])]),
        config_err(0, ConfigErrorKind::MonoCount)
    );
    let mut cx = Ctxt::new(program());
    assert_eq!(
        handle_attrs(&mut cx, &vec![on(0, vec![variant_of(), mono(), mono()])]),
        config_err(0, ConfigErrorKind::MonoCount)
    );
    let mut cx = Ctxt::new(program());
    assert_eq!(handle_attrs(&mut cx, &vec![on(0, vec![mono(), mono()])]), Ok(()));
    assert_eq!(cx.funcs[0].as_ref().unwrap().monos.len(), 2);
}

#[test]
fn refused_annotations_name_the_definition() {
    let run = |def: usize, a: Attribute| {
        let mut cx = Ctxt::new(program());
        handle_attrs(&mut cx, &vec![on(0, vec![]), on(def, vec![a])])
    };
    assert_eq!(
        run(1, Attribute { name: "ownership_variant_of".to_string(), meta: None }),
        config_err(1, ConfigErrorKind::BadMeta)
    );
    assert_eq!(
        run(1, attr(word("ownership_variant_of"))),
        config_err(1, ConfigErrorKind::VariantOf(AnnotError::ExpectedList))
    );
    assert_eq!(
        run(1, attr(list("ownership_mono", vec![]))),
        config_err(1, ConfigErrorKind::Mono(AnnotError::MissingMonoName))
    );
    assert_eq!(
        run(2, attr(list("ownership_static", vec![w("oops")]))),
        config_err(2, ConfigErrorKind::Static(AnnotError::ExpectedConcrete))
    );
    assert_eq!(
        run(2, attr(list("ownership_static", vec![w("MOVE")]))),
        config_err(2, ConfigErrorKind::StaticCount)
    );
    assert_eq!(
        run(2, attr(list("ownership_static", vec![w("MOVE"), w("MOVE"), w("MOVE")]))),
        config_err(2, ConfigErrorKind::StaticCount)
    );
    assert_eq!(
        run(0, attr(list("ownership_static", vec![]))),
        config_err(0, ConfigErrorKind::Storage(Error::Inconsistent))
    );
    assert_eq!(
        run(2, attr(list("ownership_mono", vec![string("x")]))),
        config_err(2, ConfigErrorKind::Storage(Error::Inconsistent))
    );
}

#[test]
fn static_permissions_are_assigned_in_order() {
    let mut cx = Ctxt::new(program());
    let defs = vec![on(2, vec![attr(list("ownership_static", vec![w("MOVE"), w("WRITE")]))])];
    assert_eq!(handle_attrs(&mut cx, &defs), Ok(()));
    assert_eq!(cx.static_assign, vec![ConcretePerm::Move, ConcretePerm::Write]);
    let t = cx.static_ty(DefId(2)).unwrap();
    assert_eq!(t.label, Some(PermVar::Static(Var(0))));
    assert_eq!(t.args[0].label, Some(PermVar::Static(Var(1))));
}

#[test]
fn other_attributes_are_passed_over() {
    let mut cx = Ctxt::new(program());
    let defs = vec![
        on(0, vec![attr(word("inline")), attr(list("ownership_unknown", vec![w("x")]))]),
        DefAttrs {
            def_id: None,
            attrs: vec![attr(list("ownership_constraints", vec![w("broken")]))],
        },
        on(1, vec![Attribute { name: "ownership_mono".to_string(), meta: None }]),
    ];
    assert_eq!(handle_attrs(&mut cx, &defs), Ok(()));
    assert!(cx.funcs.iter().all(|f| f.is_none()));
}

#[test]
fn marks_on_statics_are_joined() {
    let mut cx = Ctxt::new(program());
    cx.static_ty(DefId(2)).unwrap();
    let mark = |v: u32, is_box: bool, is_mut: bool, is_ref: bool| MarkedType {
        label: Some(PermVar::Static(Var(v))),
        sig_def: None,
        is_box,
        is_mut,
        is_ref,
    };
    let marks = vec![mark(0, false, true, false), mark(1, true, false, true), mark(0, false, false, true)];
    assert_eq!(handle_marks(&mut cx, &marks), Ok(()));
    assert_eq!(cx.static_assign, vec![ConcretePerm::Write, ConcretePerm::Move]);
    assert_eq!(handle_marks(&mut cx, &vec![mark(2, true, false, false)]), Err(Error::Inconsistent));
}

#[test]
fn marks_on_signatures_become_constraints() {
    let mut cx = Ctxt::new(program());
    let marks = vec![
        MarkedType {
            label: Some(PermVar::Sig(Var(0))),
            sig_def: Some(DefId(3)),
            is_box: true,
            is_mut: true,
            is_ref: false,
        },
        MarkedType { label: None, sig_def: Some(DefId(0)), is_box: true, is_mut: true, is_ref: true },
        MarkedType {
            label: Some(PermVar::Sig(Var(2))),
            sig_def: Some(DefId(3)),
            is_box: false,
            is_mut: false,
            is_ref: true,
        },
    ];
    assert_eq!(handle_marks(&mut cx, &marks), Ok(()));
    let v = cx.variants[3].as_ref().unwrap();
    assert_eq!(v.inst_cset.len(), 3);
    assert!(v.inst_cset.contains(&Perm::move_(), &Perm::SigVar(Var(0))));
    assert!(v.inst_cset.contains(&Perm::write(), &Perm::SigVar(Var(0))));
    assert!(v.inst_cset.contains(&Perm::read(), &Perm::SigVar(Var(2))));
    assert!(cx.variants[0].is_none());
}

#[test]
fn marks_on_other_variables_are_refused() {
    let mark = |label: PermVar, sig_def: Option<DefId>| MarkedType {
        label: Some(label),
        sig_def,
        is_box: true,
        is_mut: false,
        is_ref: false,
    };
    let mut cx = Ctxt::new(program());
    assert_eq!(
        handle_marks(&mut cx, &vec![mark(PermVar::Sig(Var(0)), None)]),
        Err(Error::Inconsistent)
    );
    assert_eq!(
        handle_marks(&mut cx, &vec![mark(PermVar::Local(Var(0)), Some(DefId(0)))]),
        Err(Error::Inconsistent)
    );
    assert_eq!(
        handle_marks(&mut cx, &vec![mark(PermVar::Inst(Var(0)), Some(DefId(0)))]),
        Err(Error::Inconsistent)
    );
    assert_eq!(
        handle_marks(&mut cx, &vec![mark(PermVar::Sig(Var(0)), Some(DefId(2)))]),
        Err(Error::Inconsistent)
    );
}
