//! Storage for what is known of each function, variant and static.
//!
//! The storage is filled while annotations are read and function bodies are
//! analysed, and read afterwards. A summary is made the first time its
//! definition is asked for, empty but for what the program says of the
//! definition. Nothing is ever removed.

use vstd::prelude::*;
use crate::constraint::{ConstraintSet, SpecConstraint};
use crate::error::Error;
use crate::labeled_ty::{all_nodes, lemma_label_shape, spec_erase};
use crate::labeled_ty::{label, label_all, spec_label, spec_label_seq};
use crate::labeled_ty::{FnSig, LabelSource, LabeledTy, SpecFnSig, SpecLabeledTy};
use crate::perm::{ConcretePerm, Perm, PermVar, SpecPerm, Var};
use crate::ty::{ty_views, DefId, Program, SpecTy, TyKind};

verus! {

/// A type labelled for storage: a pointer node carries a static or a
/// signature variable, any other node carries nothing.
pub type LTy = LabeledTy<Option<PermVar>>;

/// A function signature labelled for storage.
pub type LFnSig = FnSig<Option<PermVar>>;

/// The view of an [`LTy`].
pub type SpecLTy = SpecLabeledTy<Option<PermVar>>;

/// The view of an [`LFnSig`].
pub type SpecLFnSig = SpecFnSig<Option<PermVar>>;

/// A range of source text.
#[derive(Clone, Copy, PartialEq, Eq, Debug, Hash)]
pub struct Span {
    pub lo: u32,
    pub hi: u32,
}

/// One place in a function body that refers to a function. The variables
/// `first_inst_var ..` up to the number of the callee's signature variables
/// stand for the callee's signature variables at this place.
#[derive(Clone, Copy, PartialEq, Eq, Debug, Hash)]
pub struct Instantiation {
    /// The function referred to.
    pub callee: DefId,
    /// Where in the source the reference stands, if known.
    pub span: Option<Span>,
    /// The first instantiation variable reserved for this place.
    pub first_inst_var: u32,
}

/// One monomorphization of a function, as a mathematical value.
pub struct SpecMonoSumm {
    pub assign: Seq<ConcretePerm>,
    pub callee_mono_idxs: Seq<usize>,
    pub suffix: Seq<char>,
}

/// One monomorphization of a function: a concrete permission for each
/// signature variable.
#[derive(PartialEq, Eq, Debug)]
pub struct MonoSumm {
    /// The permission of each signature variable, by index.
    pub assign: Vec<ConcretePerm>,
    /// For each instantiation in the function, the monomorphization of the
    /// callee that is called there.
    pub callee_mono_idxs: Vec<usize>,
    /// What is appended to the function's name to name this
    /// monomorphization.
    pub suffix: String,
}

impl View for MonoSumm {
    type V = SpecMonoSumm;

    open spec fn view(&self) -> SpecMonoSumm {
        SpecMonoSumm {
            assign: self.assign@,
            callee_mono_idxs: self.callee_mono_idxs@,
            suffix: self.suffix@,
        }
    }
}

/// The views of the monomorphizations in `ms`, in order.
pub open spec fn mono_views(ms: Seq<MonoSumm>) -> Seq<SpecMonoSumm> {
    ms.map_values(|m: MonoSumm| m@)
}

/// What is known of a function, as a mathematical value.
pub struct SpecFuncSumm {
    pub sig: SpecLFnSig,
    pub num_sig_vars: u32,
    pub sig_cset: Set<SpecConstraint>,
    pub cset_provided: bool,
    pub variant_ids: Seq<DefId>,
    pub monos: Seq<SpecMonoSumm>,
    pub monos_provided: bool,
}

/// What is known of a function, whatever the variant.
pub struct FuncSumm {
    /// The signature; its pointer nodes carry the signature variables
    /// `0 .. num_sig_vars`, numbered through the arguments from left to
    /// right and then through the result.
    pub sig: LFnSig,
    /// The number of signature variables.
    pub num_sig_vars: u32,
    /// Constraints over the signature variables.
    pub sig_cset: ConstraintSet,
    /// Whether an annotation has supplied `sig_cset`.
    pub cset_provided: bool,
    /// The variants of the function, in the order in which they were
    /// registered.
    pub variant_ids: Vec<DefId>,
    /// The monomorphizations, in the order in which they were registered.
    pub monos: Vec<MonoSumm>,
    /// Whether annotations have supplied the monomorphizations.
    pub monos_provided: bool,
}

impl View for FuncSumm {
    type V = SpecFuncSumm;

    open spec fn view(&self) -> SpecFuncSumm {
        SpecFuncSumm {
            sig: self.sig@,
            num_sig_vars: self.num_sig_vars,
            sig_cset: self.sig_cset@,
            cset_provided: self.cset_provided,
            variant_ids: self.variant_ids@,
            monos: mono_views(self.monos@),
            monos_provided: self.monos_provided,
        }
    }
}

/// What is known of one variant of a function, as a mathematical value.
pub struct SpecVariantSumm {
    pub func_id: DefId,
    pub variant_idx: usize,
    pub inst_cset: Set<SpecConstraint>,
    pub insts: Seq<Instantiation>,
}

/// What is known of one variant of a function.
pub struct VariantSumm {
    /// The function that this is a variant of.
    pub func_id: DefId,
    /// The position of this variant among the function's variants.
    pub variant_idx: usize,
    /// Constraints over the signature variables and the instantiation
    /// variables of this variant.
    pub inst_cset: ConstraintSet,
    /// The places in the variant's body that refer to functions.
    pub insts: Vec<Instantiation>,
}

impl View for VariantSumm {
    type V = SpecVariantSumm;

    open spec fn view(&self) -> SpecVariantSumm {
        SpecVariantSumm {
            func_id: self.func_id,
            variant_idx: self.variant_idx,
            inst_cset: self.inst_cset@,
            insts: self.insts@,
        }
    }
}

/// The views of the entries of a table, in order.
pub open spec fn table_views<T: View>(t: Seq<Option<T>>) -> Seq<Option<T::V>> {
    t.map_values(
        |o: Option<T>|
            match o {
                Some(x) => Some(x@),
                None => None,
            },
    )
}

/// The storage, as a mathematical value.
pub struct SpecCtxt {
    pub program: Program,
    pub static_summ: Seq<Option<SpecLTy>>,
    pub static_assign: Seq<ConcretePerm>,
    pub funcs: Seq<Option<SpecFuncSumm>>,
    pub variants: Seq<Option<SpecVariantSumm>>,
}

/// The storage. Each table is indexed by [`DefId`].
pub struct Ctxt {
    /// The analysed program.
    pub program: Program,
    /// The labelled type of each static, constant or field that has been
    /// asked for.
    pub static_summ: Vec<Option<LTy>>,
    /// The permission assigned to each static variable.
    pub static_assign: Vec<ConcretePerm>,
    /// The summary of each function that has been asked for.
    pub funcs: Vec<Option<FuncSumm>>,
    /// The summary of each variant that has been asked for.
    pub variants: Vec<Option<VariantSumm>>,
}

impl View for Ctxt {
    type V = SpecCtxt;

    open spec fn view(&self) -> SpecCtxt {
        SpecCtxt {
            program: self.program,
            static_summ: table_views(self.static_summ@),
            static_assign: self.static_assign@,
            funcs: table_views(self.funcs@),
            variants: table_views(self.variants@),
        }
    }
}

/// Hands out static variables: a new one, assigned `Read`, for each
/// pointer node.
pub struct StaticLabeler {
    /// The permission assigned to each static variable handed out so far.
    pub assign: Vec<ConcretePerm>,
}

impl LabelSource<Option<PermVar>> for StaticLabeler {
    type State = Seq<ConcretePerm>;

    open spec fn state(&self) -> Seq<ConcretePerm> {
        self.assign@
    }

    open spec fn decide_spec(st: Seq<ConcretePerm>, kind: TyKind) -> Result<
        (Seq<ConcretePerm>, Option<PermVar>),
        Error,
    > {
        if kind.spec_is_pointer() {
            if st.len() > u32::MAX {
                Err(Error::Overflow)
            } else {
                Ok((st.push(ConcretePerm::Read), Some(PermVar::Static(Var(st.len() as u32)))))
            }
        } else {
            Ok((st, None))
        }
    }

    fn decide(&mut self, kind: TyKind) -> (r: Result<Option<PermVar>, Error>) {
        if kind.is_pointer() {
            let n = self.assign.len();
            if n > u32::MAX as usize {
                Err(Error::Overflow)
            } else {
                self.assign.push(ConcretePerm::Read);
                Ok(Some(PermVar::Static(Var(n as u32))))
            }
        } else {
            Ok(None)
        }
    }
}

/// Hands out signature variables: the next one for each pointer node.
pub struct SigLabeler {
    /// The number of variables handed out so far.
    pub counter: u32,
}

impl LabelSource<Option<PermVar>> for SigLabeler {
    type State = u32;

    open spec fn state(&self) -> u32 {
        self.counter
    }

    open spec fn decide_spec(st: u32, kind: TyKind) -> Result<(u32, Option<PermVar>), Error> {
        if kind.spec_is_pointer() {
            if st == u32::MAX {
                Err(Error::Overflow)
            } else {
                Ok(((st + 1) as u32, Some(PermVar::Sig(Var(st)))))
            }
        } else {
            Ok((st, None))
        }
    }

    fn decide(&mut self, kind: TyKind) -> (r: Result<Option<PermVar>, Error>) {
        if kind.is_pointer() {
            let n = self.counter;
            if n == u32::MAX {
                Err(Error::Overflow)
            } else {
                self.counter = n + 1;
                Ok(Some(PermVar::Sig(Var(n))))
            }
        } else {
            Ok(None)
        }
    }
}

/// Whether exactly the pointers carry a variable: `l` is a variable if and
/// only if `k` is the kind of a pointer.
pub open spec fn pointer_has_var(k: TyKind, l: Option<PermVar>) -> bool {
    k.spec_is_pointer() <==> l is Some
}

/// A type that is labelled with signature variables or with static
/// variables is labelled node for node, and exactly its pointers carry a
/// variable.
pub proof fn lemma_stored_labels(c: u32, assign: Seq<ConcretePerm>, ty: SpecTy)
    ensures
        spec_label::<Option<PermVar>, SigLabeler>(c, ty) is Ok ==> {
            let t = spec_label::<Option<PermVar>, SigLabeler>(c, ty)->Ok_0.1;
            spec_erase(t) == ty && all_nodes(t, |k: TyKind, l: Option<PermVar>| pointer_has_var(k, l))
        },
        spec_label::<Option<PermVar>, StaticLabeler>(assign, ty) is Ok ==> {
            let t = spec_label::<Option<PermVar>, StaticLabeler>(assign, ty)->Ok_0.1;
            spec_erase(t) == ty && all_nodes(t, |k: TyKind, l: Option<PermVar>| pointer_has_var(k, l))
        },
{
    let p = |k: TyKind, l: Option<PermVar>| pointer_has_var(k, l);
    if spec_label::<Option<PermVar>, SigLabeler>(c, ty) is Ok {
        lemma_label_shape::<Option<PermVar>, SigLabeler>(c, ty, p);
    }
    if spec_label::<Option<PermVar>, StaticLabeler>(assign, ty) is Ok {
        lemma_label_shape::<Option<PermVar>, StaticLabeler>(assign, ty, p);
    }
}

/// The entry of a table at `did`, if the table has one.
pub open spec fn lookup<T>(t: Seq<Option<T>>, did: DefId) -> Option<T> {
    if did.0 < t.len() {
        t[did.0 as int]
    } else {
        None
    }
}

/// The summary that a function has when it is first asked for: its
/// signature labelled with fresh signature variables, and nothing else.
pub open spec fn spec_fresh_func(program: Program, did: DefId) -> Result<SpecFuncSumm, Error> {
    match program.spec_fn_sig(did) {
        None => Err(Error::Inconsistent),
        Some(decl) => match spec_label_seq::<Option<PermVar>, SigLabeler>(
            0u32,
            ty_views(decl.inputs@),
            decl.inputs@.len(),
        ) {
            Err(e) => Err(e),
            Ok((c1, inputs)) => match spec_label::<Option<PermVar>, SigLabeler>(c1, decl.output@) {
                Err(e) => Err(e),
                Ok((c2, output)) => Ok(
                    SpecFuncSumm {
                        sig: SpecFnSig { inputs, output },
                        num_sig_vars: c2,
                        sig_cset: Set::empty(),
                        cset_provided: false,
                        variant_ids: Seq::empty(),
                        monos: Seq::empty(),
                        monos_provided: false,
                    },
                ),
            },
        },
    }
}

impl SpecCtxt {
    /// The storage after the labelled type of `did` was asked for, and that
    /// type. A type that is not stored yet is labelled with fresh static
    /// variables, each assigned `Read`.
    #[verifier::opaque]
    pub open spec fn static_ty(self, did: DefId) -> Result<(SpecCtxt, SpecLTy), Error> {
        if did.0 >= self.static_summ.len() {
            Err(Error::Inconsistent)
        } else {
            match self.static_summ[did.0 as int] {
                Some(t) => Ok((self, t)),
                None => match self.program.spec_type_of(did) {
                    None => Err(Error::Inconsistent),
                    Some(ty) => match spec_label::<Option<PermVar>, StaticLabeler>(
                        self.static_assign,
                        ty@,
                    ) {
                        Err(e) => Err(e),
                        Ok((assign, t)) => Ok(
                            (
                                SpecCtxt {
                                    static_assign: assign,
                                    static_summ: self.static_summ.update(did.0 as int, Some(t)),
                                    ..self
                                },
                                t,
                            ),
                        ),
                    },
                },
            }
        }
    }

    /// The storage after the summary of function `did` was asked for. A
    /// definition that is stored as a variant of another function cannot
    /// get a summary as a function.
    #[verifier::opaque]
    pub open spec fn ensure_func(self, did: DefId) -> Result<SpecCtxt, Error> {
        if did.0 >= self.funcs.len() {
            Err(Error::Inconsistent)
        } else if self.funcs[did.0 as int] is Some {
            Ok(self)
        } else if lookup(self.variants, did) is Some {
            Err(Error::Inconsistent)
        } else {
            match spec_fresh_func(self.program, did) {
                Err(e) => Err(e),
                Ok(f) => Ok(SpecCtxt { funcs: self.funcs.update(did.0 as int, Some(f)), ..self }),
            }
        }
    }

    /// The storage after `variant` was registered as a new variant of
    /// function `func`, at the end of the function's variants.
    #[verifier::opaque]
    pub open spec fn add_variant(self, func: DefId, variant: DefId) -> Result<SpecCtxt, Error> {
        match self.ensure_func(func) {
            Err(e) => Err(e),
            Ok(cx) => if variant.0 >= cx.variants.len() || cx.variants[variant.0 as int] is Some {
                Err(Error::Inconsistent)
            } else {
                let f = cx.funcs[func.0 as int]->Some_0;
                Ok(
                    SpecCtxt {
                        funcs: cx.funcs.update(
                            func.0 as int,
                            Some(SpecFuncSumm { variant_ids: f.variant_ids.push(variant), ..f }),
                        ),
                        variants: cx.variants.update(
                            variant.0 as int,
                            Some(
                                SpecVariantSumm {
                                    func_id: func,
                                    variant_idx: f.variant_ids.len() as usize,
                                    inst_cset: Set::empty(),
                                    insts: Seq::empty(),
                                },
                            ),
                        ),
                        ..cx
                    },
                )
            },
        }
    }

    /// The storage after the summary of variant `did` was asked for, and
    /// the function that `did` is a variant of. A definition that is not
    /// stored as a variant becomes a variant of itself.
    #[verifier::opaque]
    pub open spec fn ensure_variant(self, did: DefId) -> Result<(SpecCtxt, DefId), Error> {
        if did.0 >= self.variants.len() {
            Err(Error::Inconsistent)
        } else {
            match self.variants[did.0 as int] {
                Some(v) => Ok((self, v.func_id)),
                None => match self.add_variant(did, did) {
                    Err(e) => Err(e),
                    Ok(cx) => Ok((cx, did)),
                },
            }
        }
    }

    /// The storage after the summary of variant `did` was asked for, with
    /// the summaries of the variant's function and of the variant.
    #[verifier::opaque]
    pub open spec fn variant_summ(self, did: DefId) -> Result<
        (SpecCtxt, SpecFuncSumm, SpecVariantSumm),
        Error,
    > {
        match self.ensure_variant(did) {
            Err(e) => Err(e),
            Ok((cx, fid)) => match lookup(cx.funcs, fid) {
                None => Err(Error::Inconsistent),
                Some(f) => Ok((cx, f, cx.variants[did.0 as int]->Some_0)),
            },
        }
    }

    /// The storage after a new, empty monomorphization was registered for
    /// the function of variant `did`; with the function and the index of
    /// the monomorphization.
    #[verifier::opaque]
    pub open spec fn add_mono(self, did: DefId) -> Result<(SpecCtxt, DefId, usize), Error> {
        match self.variant_summ(did) {
            Err(e) => Err(e),
            Ok((cx, f, _)) => {
                let fid = cx.variants[did.0 as int]->Some_0.func_id;
                let m = SpecMonoSumm {
                    assign: Seq::empty(),
                    callee_mono_idxs: Seq::empty(),
                    suffix: Seq::empty(),
                };
                Ok(
                    (
                        SpecCtxt {
                            funcs: cx.funcs.update(
                                fid.0 as int,
                                Some(SpecFuncSumm { monos: f.monos.push(m), ..f }),
                            ),
                            ..cx
                        },
                        fid,
                        f.monos.len() as usize,
                    ),
                )
            },
        }
    }
}

/// Where the summary of a variant is had, the storage holds it, and holds
/// the summary of the variant's function. Nothing else has changed but
/// the tables of functions and variants.
pub proof fn lemma_variant_summ_present(cx: SpecCtxt, did: DefId)
    requires
        cx.variant_summ(did) is Ok,
    ensures
        ({
            let (cx2, f, v) = cx.variant_summ(did)->Ok_0;
            &&& did.0 < cx2.variants.len()
            &&& cx2.variants[did.0 as int] == Some(v)
            &&& lookup(cx2.funcs, v.func_id) == Some(f)
            &&& cx2.program == cx.program
            &&& cx2.static_summ == cx.static_summ
            &&& cx2.static_assign == cx.static_assign
            &&& cx2.funcs.len() == cx.funcs.len()
            &&& cx2.variants.len() == cx.variants.len()
        }),
{
    reveal(SpecCtxt::variant_summ);
    reveal(SpecCtxt::ensure_variant);
    reveal(SpecCtxt::add_variant);
    reveal(SpecCtxt::ensure_func);
}

/// A table of `n` empty entries.
fn empty_table<T: View>(n: usize) -> (r: Vec<Option<T>>)
    ensures
        r@.len() == n,
        forall|i: int| 0 <= i < n ==> r@[i] is None,
        table_views(r@) == Seq::new(n as nat, |i: int| None::<T::V>),
{
    let mut out: Vec<Option<T>> = Vec::new();
    let mut i: usize = 0;
    while i < n
        invariant
            i <= n,
            out@.len() == i,
            forall|j: int| 0 <= j < i ==> out@[j] is None,
        decreases n - i,
    {
        out.push(None);
        i += 1;
    }
    assert(table_views(out@) =~= Seq::new(n as nat, |i: int| None::<T::V>));
    out
}

/// Updating an entry of a table updates its view.
pub proof fn lemma_table_update<T: View>(t: Seq<Option<T>>, i: int, x: T)
    requires
        0 <= i < t.len(),
    ensures
        table_views(t.update(i, Some(x))) == table_views(t).update(i, Some(x@)),
{
    assert(table_views(t.update(i, Some(x))) =~= table_views(t).update(i, Some(x@)));
}

impl Ctxt {
    /// The storage for `program`, with no summary in it.
    pub fn new(program: Program) -> (r: Ctxt)
        ensures
            r@ == (SpecCtxt {
                program,
                static_summ: Seq::new(program.defs@.len(), |i: int| None::<SpecLTy>),
                static_assign: Seq::empty(),
                funcs: Seq::new(program.defs@.len(), |i: int| None::<SpecFuncSumm>),
                variants: Seq::new(program.defs@.len(), |i: int| None::<SpecVariantSumm>),
            }),
    {
        let n = program.defs.len();
        Ctxt {
            program,
            static_summ: empty_table(n),
            static_assign: Vec::new(),
            funcs: empty_table(n),
            variants: empty_table(n),
        }
    }

    /// The minimum of two permission expressions. See [`Perm::min`].
    pub fn min_perm(&self, a: &Perm, b: &Perm) -> (r: Perm)
        ensures
            r@ == SpecPerm::min2(a@, b@),
    {
        Perm::min(a, b)
    }

    /// The labelled type of the static, constant or field `did`. The first
    /// time it is asked for, the type is labelled with new static variables,
    /// each assigned `Read`, and stored.
    pub fn static_ty(&mut self, did: DefId) -> (r: Result<LTy, Error>)
        ensures
            match old(self)@.static_ty(did) {
                Ok((cx, t)) => r is Ok && r->Ok_0@ == t && final(self)@ == cx,
                Err(e) => r is Err && r->Err_0 == e,
            },
    {
        proof {
            reveal(SpecCtxt::static_ty);
        }
        if did.0 >= self.static_summ.len() {
            return Err(Error::Inconsistent);
        }
        match &self.static_summ[did.0] {
            Some(t) => {
                return Ok(t.duplicate());
            },
            None => {},
        }
        let ty = match self.program.type_of(did) {
            Some(ty) => ty,
            None => {
                return Err(Error::Inconsistent);
            },
        };
        let mut labeler = StaticLabeler { assign: Vec::new() };
        core::mem::swap(&mut self.static_assign, &mut labeler.assign);
        let res = label::<Option<PermVar>, StaticLabeler>(ty, &mut labeler);
        core::mem::swap(&mut self.static_assign, &mut labeler.assign);
        match res {
            Ok(lty) => {
                let r = lty.duplicate();
                proof {
                    lemma_table_update(self.static_summ@, did.0 as int, lty);
                }
                self.static_summ[did.0] = Some(lty);
                Ok(r)
            },
            Err(e) => Err(e),
        }
    }

    /// Makes the summary of function `did` if there is none yet.
    pub fn ensure_func(&mut self, did: DefId) -> (r: Result<(), Error>)
        ensures
            match old(self)@.ensure_func(did) {
                Ok(cx) => r is Ok && final(self)@ == cx,
                Err(e) => r is Err && r->Err_0 == e,
            },
    {
        proof {
            reveal(SpecCtxt::ensure_func);
        }
        if did.0 >= self.funcs.len() {
            return Err(Error::Inconsistent);
        }
        if self.funcs[did.0].is_some() {
            return Ok(());
        }
        if did.0 < self.variants.len() && self.variants[did.0].is_some() {
            return Err(Error::Inconsistent);
        }
        let decl = match self.program.fn_sig(did) {
            Some(d) => d,
            None => {
                return Err(Error::Inconsistent);
            },
        };
        let mut labeler = SigLabeler { counter: 0 };
        let inputs = match label_all::<Option<PermVar>, SigLabeler>(&decl.inputs, &mut labeler) {
            Ok(x) => x,
            Err(e) => {
                return Err(e);
            },
        };
        let output = match label::<Option<PermVar>, SigLabeler>(&decl.output, &mut labeler) {
            Ok(x) => x,
            Err(e) => {
                return Err(e);
            },
        };
        let f = FuncSumm {
            sig: FnSig { inputs, output },
            num_sig_vars: labeler.counter,
            sig_cset: ConstraintSet::new(),
            cset_provided: false,
            variant_ids: Vec::new(),
            monos: Vec::new(),
            monos_provided: false,
        };
        proof {
            assert(mono_views(f.monos@) =~= Seq::<SpecMonoSumm>::empty());
            lemma_table_update(self.funcs@, did.0 as int, f);
        }
        self.funcs[did.0] = Some(f);
        Ok(())
    }

    /// Registers `variant` as a new variant of function `func`. The
    /// function gets its summary if it has none yet.
    pub fn add_variant(&mut self, func: DefId, variant: DefId) -> (r: Result<(), Error>)
        ensures
            match old(self)@.add_variant(func, variant) {
                Ok(cx) => r is Ok && final(self)@ == cx,
                Err(e) => r is Err && r->Err_0 == e,
            },
    {
        proof {
            reveal(SpecCtxt::add_variant);
            reveal(SpecCtxt::ensure_func);
        }
        match self.ensure_func(func) {
            Ok(()) => {},
            Err(e) => {
                return Err(e);
            },
        }
        if variant.0 >= self.variants.len() || self.variants[variant.0].is_some() {
            return Err(Error::Inconsistent);
        }
        let ghost funcs0 = self.funcs@;
        assert(self@.funcs.len() == funcs0.len());
        let idx = match &mut self.funcs[func.0] {
            Some(f) => {
                let idx = f.variant_ids.len();
                f.variant_ids.push(variant);
                idx
            },
            None => {
                return Err(Error::Inconsistent);
            },
        };
        proof {
            lemma_table_update(funcs0, func.0 as int, self.funcs@[func.0 as int]->Some_0);
            assert(self.funcs@ =~= funcs0.update(
                func.0 as int,
                Some(self.funcs@[func.0 as int]->Some_0),
            ));
        }
        let v = VariantSumm {
            func_id: func,
            variant_idx: idx,
            inst_cset: ConstraintSet::new(),
            insts: Vec::new(),
        };
        proof {
            lemma_table_update(self.variants@, variant.0 as int, v);
        }
        self.variants[variant.0] = Some(v);
        Ok(())
    }

    /// Makes the summary of variant `did` if there is none yet, and gives
    /// the function that `did` is a variant of. A definition that was not
    /// registered as a variant becomes a variant of itself.
    pub fn ensure_variant(&mut self, did: DefId) -> (r: Result<DefId, Error>)
        ensures
            match old(self)@.ensure_variant(did) {
                Ok((cx, fid)) => r is Ok && r->Ok_0 == fid && final(self)@ == cx,
                Err(e) => r is Err && r->Err_0 == e,
            },
    {
        proof {
            reveal(SpecCtxt::ensure_variant);
        }
        if did.0 >= self.variants.len() {
            return Err(Error::Inconsistent);
        }
        match &self.variants[did.0] {
            Some(v) => {
                return Ok(v.func_id);
            },
            None => {},
        }
        match self.add_variant(did, did) {
            Ok(()) => Ok(did),
            Err(e) => Err(e),
        }
    }

    /// The signature of the function that `did` is a variant of.
    pub fn variant_func_sig(&mut self, did: DefId) -> (r: Result<LFnSig, Error>)
        ensures
            match old(self)@.variant_summ(did) {
                Ok((cx, f, _)) => r is Ok && r->Ok_0@ == f.sig && final(self)@ == cx,
                Err(e) => r is Err && r->Err_0 == e,
            },
    {
        proof {
            reveal(SpecCtxt::variant_summ);
            reveal(SpecCtxt::ensure_variant);
            reveal(SpecCtxt::add_variant);
        }
        let fid = match self.ensure_variant(did) {
            Ok(fid) => fid,
            Err(e) => {
                return Err(e);
            },
        };
        if fid.0 >= self.funcs.len() {
            return Err(Error::Inconsistent);
        }
        match &self.funcs[fid.0] {
            Some(f) => Ok(f.sig.duplicate()),
            None => Err(Error::Inconsistent),
        }
    }

    /// The number of signature variables of the function that `did` is a
    /// variant of, and that function.
    pub fn variant_num_sig_vars(&mut self, did: DefId) -> (r: Result<(DefId, u32), Error>)
        ensures
            match old(self)@.variant_summ(did) {
                Ok((cx, f, v)) => r is Ok && r->Ok_0 == (v.func_id, f.num_sig_vars)
                    && final(self)@ == cx,
                Err(e) => r is Err && r->Err_0 == e,
            },
    {
        proof {
            reveal(SpecCtxt::variant_summ);
            reveal(SpecCtxt::ensure_variant);
            reveal(SpecCtxt::add_variant);
        }
        let fid = match self.ensure_variant(did) {
            Ok(fid) => fid,
            Err(e) => {
                return Err(e);
            },
        };
        if fid.0 >= self.funcs.len() {
            return Err(Error::Inconsistent);
        }
        match &self.funcs[fid.0] {
            Some(f) => Ok((fid, f.num_sig_vars)),
            None => Err(Error::Inconsistent),
        }
    }

    /// Registers a new, empty monomorphization of the function that `did`
    /// is a variant of. Gives the function and the index of the
    /// monomorphization among the function's.
    pub fn add_mono(&mut self, did: DefId) -> (r: Result<(DefId, usize), Error>)
        ensures
            match old(self)@.add_mono(did) {
                Ok((cx, fid, idx)) => r is Ok && r->Ok_0 == (fid, idx) && final(self)@ == cx,
                Err(e) => r is Err && r->Err_0 == e,
            },
    {
        proof {
            reveal(SpecCtxt::add_mono);
            reveal(SpecCtxt::variant_summ);
            reveal(SpecCtxt::ensure_variant);
            reveal(SpecCtxt::add_variant);
        }
        let fid = match self.ensure_variant(did) {
            Ok(fid) => fid,
            Err(e) => {
                return Err(e);
            },
        };
        if fid.0 >= self.funcs.len() {
            return Err(Error::Inconsistent);
        }
        let ghost funcs0 = self.funcs@;
        match &mut self.funcs[fid.0] {
            Some(f) => {
                let idx = f.monos.len();
                let ghost before = mono_views(f.monos@);
                let m = MonoSumm {
                    assign: Vec::new(),
                    callee_mono_idxs: Vec::new(),
                    suffix: String::new(),
                };
                f.monos.push(m);
                proof {
                    assert(mono_views(f.monos@) =~= before.push(m@));
                    lemma_table_update(funcs0, fid.0 as int, *f);
                }
                Ok((fid, idx))
            },
            None => Err(Error::Inconsistent),
        }
    }
}

} // verus!
