//! Reading the annotations that a user has put on the program.

use vstd::prelude::*;
use vstd::string::StrSliceExecFns;
use crate::constraint::{ConstraintSet, SpecConstraint};
use crate::context::{lemma_table_update, lemma_variant_summ_present, lookup, mono_views};
use crate::context::{Ctxt, SpecCtxt, SpecFuncSumm, SpecMonoSumm, SpecVariantSumm};
use crate::error::Error;
use crate::labeled_ty::{label_views, spec_labels};
use crate::perm::{lemma_min_view, perm_views, ConcretePerm, Perm, PermVar, SpecPerm, Var};
use crate::ty::DefId;

verus! {

/// A literal in an attribute.
#[derive(PartialEq, Eq, Debug)]
pub enum Lit {
    /// A string literal.
    Str(String),
    /// A literal of another kind.
    Other,
}

/// An argument of an attribute.
#[derive(PartialEq, Eq, Debug)]
pub enum NestedMetaItem {
    /// A name, alone or with arguments of its own: `READ`, `le(a, b)`.
    MetaItem(MetaItem),
    /// A literal: `"grp"`.
    Literal(Lit),
}

/// What follows the name of an attribute or of an argument.
#[derive(PartialEq, Eq, Debug)]
pub enum MetaItemKind {
    /// Nothing: `READ`.
    Word,
    /// A list of arguments: `le(a, b)`.
    List(Vec<NestedMetaItem>),
    /// A value: `name = "value"`.
    NameValue(Lit),
}

/// An attribute or an argument with a name.
#[derive(PartialEq, Eq, Debug)]
pub struct MetaItem {
    pub name: String,
    pub node: MetaItemKind,
}

/// Why an annotation is refused.
#[derive(Clone, Copy, PartialEq, Eq, Debug, Hash, Structural)]
pub enum AnnotError {
    /// A list of arguments was expected.
    ExpectedList,
    /// A name without arguments was expected.
    ExpectedWord,
    /// A name was expected where a literal stands.
    ExpectedMetaItem,
    /// A string literal was expected.
    ExpectedStr,
    /// An argument of `ownership_constraints` is not `le(a, b)`.
    ExpectedLe,
    /// `le` does not have exactly two arguments.
    LeArity,
    /// `min` has no argument.
    EmptyMin,
    /// A name is neither a permission nor a variable `_<n>`.
    InvalidPermVar,
    /// A name is not one of `READ`, `WRITE`, `MOVE`.
    ExpectedConcrete,
    /// `ownership_mono` has no argument.
    MissingMonoName,
    /// `ownership_variant_of` does not have exactly one argument.
    VariantOfArity,
}

impl AnnotError {
    /// The error in words.
    pub open spec fn spec_message(self) -> Seq<char> {
        match self {
            AnnotError::ExpectedList => "expected a list of arguments"@,
            AnnotError::ExpectedWord => "expected a name without arguments"@,
            AnnotError::ExpectedMetaItem => "expected a name, found a literal"@,
            AnnotError::ExpectedStr => "expected str"@,
            AnnotError::ExpectedLe => "expected `le(a, b)` in `ownership_constraints`"@,
            AnnotError::LeArity => "expected exactly two arguments in `le`"@,
            AnnotError::EmptyMin => "`min` requires at least one argument"@,
            AnnotError::InvalidPermVar => "invalid permission variable"@,
            AnnotError::ExpectedConcrete => "expected permission value (READ, WRITE, or MOVE)"@,
            AnnotError::MissingMonoName => "expected variant name in #[ownership_mono]"@,
            AnnotError::VariantOfArity => "expected exactly one argument in #[ownership_variant_of]"@,
        }
    }

    /// The error in words.
    pub fn message(&self) -> (r: &'static str)
        ensures
            r@ == self.spec_message(),
    {
        match self {
            AnnotError::ExpectedList => "expected a list of arguments",
            AnnotError::ExpectedWord => "expected a name without arguments",
            AnnotError::ExpectedMetaItem => "expected a name, found a literal",
            AnnotError::ExpectedStr => "expected str",
            AnnotError::ExpectedLe => "expected `le(a, b)` in `ownership_constraints`",
            AnnotError::LeArity => "expected exactly two arguments in `le`",
            AnnotError::EmptyMin => "`min` requires at least one argument",
            AnnotError::InvalidPermVar => "invalid permission variable",
            AnnotError::ExpectedConcrete => "expected permission value (READ, WRITE, or MOVE)",
            AnnotError::MissingMonoName => "expected variant name in #[ownership_mono]",
            AnnotError::VariantOfArity => "expected exactly one argument in #[ownership_variant_of]",
        }
    }
}

/// Whether the string `s` is the literal `lit`.
pub fn name_is(s: &String, lit: &str) -> (r: bool)
    ensures
        r == (s@ == lit@),
{
    let t = lit.to_owned();
    *s == t
}

/// The arguments of `meta`.
pub open spec fn spec_meta_item_list(meta: MetaItem) -> Result<Seq<NestedMetaItem>, AnnotError> {
    match meta.node {
        MetaItemKind::List(xs) => Ok(xs@),
        _ => Err(AnnotError::ExpectedList),
    }
}

/// The arguments of `meta`, which must have a list of them.
pub fn meta_item_list(meta: &MetaItem) -> (r: Result<&Vec<NestedMetaItem>, AnnotError>)
    ensures
        match r {
            Ok(xs) => spec_meta_item_list(*meta) == Ok::<Seq<NestedMetaItem>, AnnotError>(xs@)
                && meta.node == MetaItemKind::List(*xs),
            Err(e) => spec_meta_item_list(*meta) == Err::<Seq<NestedMetaItem>, AnnotError>(e),
        },
{
    match &meta.node {
        MetaItemKind::List(xs) => Ok(xs),
        _ => Err(AnnotError::ExpectedList),
    }
}

/// Checks that `meta` is a name without arguments.
pub fn meta_item_word(meta: &MetaItem) -> (r: Result<(), AnnotError>)
    ensures
        r == (if meta.node is Word {
            Ok::<(), AnnotError>(())
        } else {
            Err(AnnotError::ExpectedWord)
        }),
{
    match &meta.node {
        MetaItemKind::Word => Ok(()),
        _ => Err(AnnotError::ExpectedWord),
    }
}

/// The named item that the argument `nmeta` is; a literal is refused.
pub fn nested_meta_item(nmeta: &NestedMetaItem) -> (r: Result<&MetaItem, AnnotError>)
    ensures
        match r {
            Ok(m) => *nmeta == NestedMetaItem::MetaItem(*m),
            Err(e) => nmeta is Literal && e == AnnotError::ExpectedMetaItem,
        },
{
    match nmeta {
        NestedMetaItem::MetaItem(m) => Ok(m),
        _ => Err(AnnotError::ExpectedMetaItem),
    }
}

/// The string that the argument `nmeta` is.
pub open spec fn spec_nested_str(nmeta: NestedMetaItem) -> Result<Seq<char>, AnnotError> {
    match nmeta {
        NestedMetaItem::Literal(Lit::Str(s)) => Ok(s@),
        _ => Err(AnnotError::ExpectedStr),
    }
}

/// The string that the argument `nmeta` is; anything but a string literal
/// is refused.
pub fn nested_str(nmeta: &NestedMetaItem) -> (r: Result<String, AnnotError>)
    ensures
        match r {
            Ok(s) => spec_nested_str(*nmeta) == Ok::<Seq<char>, AnnotError>(s@),
            Err(e) => spec_nested_str(*nmeta) == Err::<Seq<char>, AnnotError>(e),
        },
{
    match nmeta {
        NestedMetaItem::Literal(lit) => {
            match lit {
                Lit::Str(s) => Ok(s.clone()),
                _ => Err(AnnotError::ExpectedStr),
            }
        },
        _ => Err(AnnotError::ExpectedStr),
    }
}

/// The value of a decimal digit.
pub open spec fn digit_value(c: char) -> nat {
    (c as nat - '0' as nat) as nat
}

/// Whether `c` is one of `0` to `9`.
pub open spec fn is_digit(c: char) -> bool {
    '0' <= c <= '9'
}

/// Whether `d` consists of decimal digits.
pub open spec fn all_digits(d: Seq<char>) -> bool {
    forall|i: int| 0 <= i < d.len() ==> is_digit(#[trigger] d[i])
}

/// The number that the digits `d` write in base ten.
pub open spec fn digits_value(d: Seq<char>) -> nat
    decreases d.len(),
{
    if d.len() == 0 {
        0
    } else {
        digits_value(d.drop_last()) * 10 + digit_value(d.last())
    }
}

/// The index that the name of a variable writes. The name is `_`, then
/// optionally `+`, then at least one decimal digit; the digits write a
/// number that is at most `u32::MAX`.
pub open spec fn spec_parse_var(name: Seq<char>) -> Option<u32> {
    if name.len() == 0 || name[0] != '_' {
        None
    } else {
        let rest = name.subrange(1, name.len() as int);
        let d = if rest.len() > 0 && rest[0] == '+' {
            rest.subrange(1, rest.len() as int)
        } else {
            rest
        };
        if d.len() == 0 || !all_digits(d) || digits_value(d) > u32::MAX {
            None
        } else {
            Some(digits_value(d) as u32)
        }
    }
}

/// A number does not get smaller when digits are appended.
pub proof fn lemma_digits_value_prefix(d: Seq<char>, k: int)
    requires
        0 <= k <= d.len(),
    ensures
        digits_value(d.take(k)) <= digits_value(d),
    decreases d.len() - k,
{
    if k < d.len() {
        lemma_digits_value_prefix(d, k + 1);
        assert(d.take(k + 1).drop_last() =~= d.take(k));
    } else {
        assert(d.take(k) =~= d);
    }
}

/// The index that the name of a variable writes, if `name` is the name of
/// a variable.
pub fn parse_var(name: &String) -> (r: Option<u32>)
    ensures
        r == spec_parse_var(name@),
{
    let s = name.as_str();
    let n = s.unicode_len();
    if n == 0 || s.get_char(0) != '_' {
        return None;
    }
    let start: usize = if n > 1 && s.get_char(1) == '+' {
        2
    } else {
        1
    };
    let ghost rest = name@.subrange(1, n as int);
    let ghost d = name@.subrange(start as int, n as int);
    proof {
        if start == 2 {
            assert(rest[0] == '+');
            assert(rest.subrange(1, rest.len() as int) =~= d);
        } else {
            assert(rest =~= d);
            if rest.len() > 0 {
                assert(rest[0] == name@[1]);
            }
        }
    }
    if start == n {
        return None;
    }
    let mut acc: u32 = 0;
    let mut i: usize = start;
    assert(d.take(0) =~= Seq::<char>::empty());
    #[verifier::loop_isolation(false)]
    while i < n
        invariant
            start <= i <= n,
            forall|j: int| 0 <= j < i - start ==> is_digit(#[trigger] d[j]),
            acc == digits_value(d.take(i - start)),
        decreases n - i,
    {
        let c = s.get_char(i);
        assert(d[i - start] == c);
        if c < '0' || c > '9' {
            assert(!is_digit(d[i - start]));
            return None;
        }
        let v: u32 = (c as u32) - ('0' as u32);
        proof {
            assert(d.take(i - start + 1).drop_last() =~= d.take(i - start));
            assert(d.take(i - start + 1).last() == c);
            lemma_digits_value_prefix(d, i - start + 1);
        }
        if acc > (u32::MAX - v) / 10 {
            assert(digits_value(d.take(i - start + 1)) == acc * 10 + v);
            assert(acc * 10 + v > u32::MAX);
            return None;
        }
        acc = acc * 10 + v;
        i += 1;
    }
    assert(d.take(n - start) =~= d);
    Some(acc)
}

/// The permission that `name` names.
pub open spec fn spec_concrete_name(name: Seq<char>) -> Option<ConcretePerm> {
    if name == "READ"@ {
        Some(ConcretePerm::Read)
    } else if name == "WRITE"@ {
        Some(ConcretePerm::Write)
    } else if name == "MOVE"@ {
        Some(ConcretePerm::Move)
    } else {
        None
    }
}

/// The permission that `name` names, if it is one of `READ`, `WRITE` and
/// `MOVE`.
pub fn concrete_name(name: &String) -> (r: Option<ConcretePerm>)
    ensures
        r == spec_concrete_name(name@),
{
    if name_is(name, "READ") {
        Some(ConcretePerm::Read)
    } else if name_is(name, "WRITE") {
        Some(ConcretePerm::Write)
    } else if name_is(name, "MOVE") {
        Some(ConcretePerm::Move)
    } else {
        None
    }
}

/// The concrete permission that `meta` writes.
pub open spec fn spec_parse_concrete(meta: MetaItem) -> Result<ConcretePerm, AnnotError> {
    if !(meta.node is Word) {
        Err(AnnotError::ExpectedWord)
    } else {
        match spec_concrete_name(meta.name@) {
            Some(c) => Ok(c),
            None => Err(AnnotError::ExpectedConcrete),
        }
    }
}

/// Reads a concrete permission: one of the names `READ`, `WRITE` and
/// `MOVE`, without arguments.
pub fn parse_concrete(meta: &MetaItem) -> (r: Result<ConcretePerm, AnnotError>)
    ensures
        r == spec_parse_concrete(*meta),
{
    match meta_item_word(meta) {
        Ok(()) => {},
        Err(e) => {
            return Err(e);
        },
    }
    match concrete_name(&meta.name) {
        Some(c) => Ok(c),
        None => Err(AnnotError::ExpectedConcrete),
    }
}

/// `xs`, then what `r` holds; the error of `r` if it holds one.
pub open spec fn prepend<T>(xs: Seq<T>, r: Result<Seq<T>, AnnotError>) -> Result<
    Seq<T>,
    AnnotError,
> {
    match r {
        Ok(ys) => Ok(xs + ys),
        Err(e) => Err(e),
    }
}

/// The permission expression that `meta` writes: `READ`, `WRITE`, `MOVE`,
/// a signature variable `_<n>`, or `min(..)` of at least one expression.
pub open spec fn spec_parse_perm(meta: MetaItem) -> Result<SpecPerm, AnnotError>
    decreases meta, 0nat,
{
    if meta.name@ == "min"@ {
        match meta.node {
            MetaItemKind::List(xs) => if xs@.len() == 0 {
                Err(AnnotError::EmptyMin)
            } else {
                match spec_parse_perms_from(xs@, 0) {
                    Err(e) => Err(e),
                    Ok(ps) => Ok(SpecPerm::Min(ps)),
                }
            },
            _ => Err(AnnotError::ExpectedList),
        }
    } else if !(meta.node is Word) {
        Err(AnnotError::ExpectedWord)
    } else {
        match spec_concrete_name(meta.name@) {
            Some(c) => Ok(SpecPerm::Concrete(c)),
            None => match spec_parse_var(meta.name@) {
                Some(i) => Ok(SpecPerm::Var(PermVar::Sig(Var(i)))),
                None => Err(AnnotError::InvalidPermVar),
            },
        }
    }
}

/// The permission expressions that the arguments `args` write, from index
/// `i` on.
pub open spec fn spec_parse_perms_from(args: Seq<NestedMetaItem>, i: nat) -> Result<
    Seq<SpecPerm>,
    AnnotError,
>
    decreases args, args.len() - i,
{
    if i >= args.len() {
        Ok(Seq::empty())
    } else {
        match args[i as int] {
            NestedMetaItem::MetaItem(m) => match spec_parse_perm(m) {
                Err(e) => Err(e),
                Ok(p) => prepend(seq![p], spec_parse_perms_from(args, i + 1)),
            },
            _ => Err(AnnotError::ExpectedMetaItem),
        }
    }
}

/// Reads a permission expression.
pub fn parse_perm(meta: &MetaItem) -> (r: Result<Perm, AnnotError>)
    ensures
        match spec_parse_perm(*meta) {
            Ok(p) => r is Ok && r->Ok_0@ == p,
            Err(e) => r is Err && r->Err_0 == e,
        },
    decreases meta,
{
    if name_is(&meta.name, "min") {
        let args = match meta_item_list(meta) {
            Ok(x) => x,
            Err(e) => {
                return Err(e);
            },
        };
        if args.len() == 0 {
            return Err(AnnotError::EmptyMin);
        }
        let mut perms: Vec<Perm> = Vec::new();
        let mut i: usize = 0;
        assert(perm_views(perms@) =~= Seq::<SpecPerm>::empty());
        #[verifier::loop_isolation(false)]
        while i < args.len()
            invariant
                i <= args.len(),
                spec_parse_perms_from(args@, 0) == prepend(
                    perm_views(perms@),
                    spec_parse_perms_from(args@, i as nat),
                ),
            decreases args.len() - i,
        {
            let arg_meta = match nested_meta_item(&args[i]) {
                Ok(x) => x,
                Err(e) => {
                    return Err(e);
                },
            };
            let perm = match parse_perm(arg_meta) {
                Ok(x) => x,
                Err(e) => {
                    return Err(e);
                },
            };
            let ghost before = perm_views(perms@);
            perms.push(perm);
            proof {
                assert(perm_views(perms@) =~= before.push(perm@));
                match spec_parse_perms_from(args@, (i + 1) as nat) {
                    Ok(rest) => {
                        assert(before + (seq![perm@] + rest) =~= before.push(perm@) + rest);
                    },
                    Err(_) => {},
                }
            }
            i += 1;
        }
        proof {
            lemma_min_view(perms);
            assert(perm_views(perms@) + Seq::<SpecPerm>::empty() =~= perm_views(perms@));
        }
        Ok(Perm::Min(perms))
    } else {
        match meta_item_word(meta) {
            Ok(()) => {},
            Err(e) => {
                return Err(e);
            },
        }
        match concrete_name(&meta.name) {
            Some(c) => {
                return Ok(Perm::Concrete(c));
            },
            None => {},
        }
        match parse_var(&meta.name) {
            Some(idx) => Ok(Perm::SigVar(Var(idx))),
            None => Err(AnnotError::InvalidPermVar),
        }
    }
}

/// The constraint that the argument `arg` writes: `le(a, b)` for two
/// permission expressions.
pub open spec fn spec_parse_le(arg: NestedMetaItem) -> Result<SpecConstraint, AnnotError> {
    match arg {
        NestedMetaItem::MetaItem(m) => if m.name@ != "le"@ {
            Err(AnnotError::ExpectedLe)
        } else {
            match m.node {
                MetaItemKind::List(perms) => if perms@.len() != 2 {
                    Err(AnnotError::LeArity)
                } else {
                    match perms@[0] {
                        NestedMetaItem::MetaItem(a) => match spec_parse_perm(a) {
                            Err(e) => Err(e),
                            Ok(pa) => match perms@[1] {
                                NestedMetaItem::MetaItem(b) => match spec_parse_perm(b) {
                                    Err(e) => Err(e),
                                    Ok(pb) => Ok((pa, pb)),
                                },
                                _ => Err(AnnotError::ExpectedMetaItem),
                            },
                        },
                        _ => Err(AnnotError::ExpectedMetaItem),
                    }
                },
                _ => Err(AnnotError::ExpectedList),
            }
        },
        _ => Err(AnnotError::ExpectedMetaItem),
    }
}

/// `cs` with what `r` holds added; the error of `r` if it holds one.
pub open spec fn with_more(cs: Set<SpecConstraint>, r: Result<Set<SpecConstraint>, AnnotError>) -> Result<
    Set<SpecConstraint>,
    AnnotError,
> {
    match r {
        Ok(more) => Ok(cs.union(more)),
        Err(e) => Err(e),
    }
}

/// The constraints that the arguments `args` write, from index `i` on.
pub open spec fn spec_parse_les_from(args: Seq<NestedMetaItem>, i: nat) -> Result<
    Set<SpecConstraint>,
    AnnotError,
>
    decreases args.len() - i,
{
    if i >= args.len() {
        Ok(Set::empty())
    } else {
        match spec_parse_le(args[i as int]) {
            Err(e) => Err(e),
            Ok(c) => with_more(set![c], spec_parse_les_from(args, i + 1)),
        }
    }
}

/// The constraint set that `meta` writes: a list of `le(a, b)`. Any
/// argument that is not of this form makes the whole annotation an error.
pub open spec fn spec_parse_ownership_constraints(meta: MetaItem) -> Result<
    Set<SpecConstraint>,
    AnnotError,
> {
    match meta.node {
        MetaItemKind::List(args) => spec_parse_les_from(args@, 0),
        _ => Err(AnnotError::ExpectedList),
    }
}

fn parse_le(arg: &NestedMetaItem) -> (r: Result<(Perm, Perm), AnnotError>)
    ensures
        match spec_parse_le(*arg) {
            Ok(c) => r is Ok && (r->Ok_0.0@, r->Ok_0.1@) == c,
            Err(e) => r is Err && r->Err_0 == e,
        },
{
    let arg = match nested_meta_item(arg) {
        Ok(x) => x,
        Err(e) => {
            return Err(e);
        },
    };
    if !name_is(&arg.name, "le") {
        return Err(AnnotError::ExpectedLe);
    }
    let perms = match meta_item_list(arg) {
        Ok(x) => x,
        Err(e) => {
            return Err(e);
        },
    };
    if perms.len() != 2 {
        return Err(AnnotError::LeArity);
    }
    let ma = match nested_meta_item(&perms[0]) {
        Ok(x) => x,
        Err(e) => {
            return Err(e);
        },
    };
    let a = match parse_perm(ma) {
        Ok(x) => x,
        Err(e) => {
            return Err(e);
        },
    };
    let mb = match nested_meta_item(&perms[1]) {
        Ok(x) => x,
        Err(e) => {
            return Err(e);
        },
    };
    let b = match parse_perm(mb) {
        Ok(x) => x,
        Err(e) => {
            return Err(e);
        },
    };
    Ok((a, b))
}

/// Reads a constraint set.
pub fn parse_ownership_constraints(meta: &MetaItem) -> (r: Result<ConstraintSet, AnnotError>)
    ensures
        match spec_parse_ownership_constraints(*meta) {
            Ok(cs) => r is Ok && r->Ok_0@ == cs && r->Ok_0.wf(),
            Err(e) => r is Err && r->Err_0 == e,
        },
{
    let args = match meta_item_list(meta) {
        Ok(x) => x,
        Err(e) => {
            return Err(e);
        },
    };
    let mut cset = ConstraintSet::new();
    let mut i: usize = 0;
    proof {
        match spec_parse_les_from(args@, 0) {
            Ok(all) => {
                assert(Set::<SpecConstraint>::empty().union(all) =~= all);
            },
            Err(_) => {},
        }
    }
    #[verifier::loop_isolation(false)]
    while i < args.len()
        invariant
            i <= args.len(),
            cset.wf(),
            spec_parse_les_from(args@, 0) == with_more(cset@, spec_parse_les_from(args@, i as nat)),
        decreases args.len() - i,
    {
        let (a, b) = match parse_le(&args[i]) {
            Ok(x) => x,
            Err(e) => {
                return Err(e);
            },
        };
        let ghost before = cset@;
        cset.add(a, b);
        proof {
            match spec_parse_les_from(args@, (i + 1) as nat) {
                Ok(rest) => {
                    assert(before.union(set![(a@, b@)].union(rest)) =~= before.insert(
                        (a@, b@),
                    ).union(rest));
                },
                Err(_) => {},
            }
        }
        i += 1;
    }
    assert(cset@.union(Set::<SpecConstraint>::empty()) =~= cset@);
    Ok(cset)
}

/// The concrete permissions that the arguments `args` write, from index
/// `i` on.
pub open spec fn spec_parse_concretes_from(args: Seq<NestedMetaItem>, i: nat) -> Result<
    Seq<ConcretePerm>,
    AnnotError,
>
    decreases args.len() - i,
{
    if i >= args.len() {
        Ok(Seq::empty())
    } else {
        match args[i as int] {
            NestedMetaItem::MetaItem(m) => match spec_parse_concrete(m) {
                Err(e) => Err(e),
                Ok(c) => prepend(seq![c], spec_parse_concretes_from(args, i + 1)),
            },
            _ => Err(AnnotError::ExpectedMetaItem),
        }
    }
}

fn parse_concretes_from(args: &Vec<NestedMetaItem>, start: usize) -> (r: Result<
    Vec<ConcretePerm>,
    AnnotError,
>)
    requires
        start <= args.len(),
    ensures
        match spec_parse_concretes_from(args@, start as nat) {
            Ok(cs) => r is Ok && r->Ok_0@ == cs,
            Err(e) => r is Err && r->Err_0 == e,
        },
{
    let mut assign: Vec<ConcretePerm> = Vec::new();
    let mut i: usize = start;
    assert(assign@ + Seq::<ConcretePerm>::empty() =~= assign@);
    #[verifier::loop_isolation(false)]
    while i < args.len()
        invariant
            start <= i <= args.len(),
            spec_parse_concretes_from(args@, start as nat) == prepend(
                assign@,
                spec_parse_concretes_from(args@, i as nat),
            ),
        decreases args.len() - i,
    {
        let arg = match nested_meta_item(&args[i]) {
            Ok(x) => x,
            Err(e) => {
                return Err(e);
            },
        };
        let perm = match parse_concrete(arg) {
            Ok(x) => x,
            Err(e) => {
                return Err(e);
            },
        };
        let ghost before = assign@;
        assign.push(perm);
        proof {
            match spec_parse_concretes_from(args@, (i + 1) as nat) {
                Ok(rest) => {
                    assert(before + (seq![perm] + rest) =~= before.push(perm) + rest);
                },
                Err(_) => {},
            }
        }
        i += 1;
    }
    assert(assign@ + Seq::<ConcretePerm>::empty() =~= assign@);
    Ok(assign)
}

/// The monomorphization that `meta` writes: a name suffix, then a
/// concrete permission for each signature variable.
pub open spec fn spec_parse_mono_sig(meta: MetaItem) -> Result<
    (Seq<char>, Seq<ConcretePerm>),
    AnnotError,
> {
    match meta.node {
        MetaItemKind::List(args) => if args@.len() == 0 {
            Err(AnnotError::MissingMonoName)
        } else {
            match spec_nested_str(args@[0]) {
                Err(e) => Err(e),
                Ok(suffix) => match spec_parse_concretes_from(args@, 1) {
                    Err(e) => Err(e),
                    Ok(assign) => Ok((suffix, assign)),
                },
            }
        },
        _ => Err(AnnotError::ExpectedList),
    }
}

/// Reads a monomorphization.
pub fn parse_mono_sig(meta: &MetaItem) -> (r: Result<(String, Vec<ConcretePerm>), AnnotError>)
    ensures
        match spec_parse_mono_sig(*meta) {
            Ok((suffix, assign)) => r is Ok && r->Ok_0.0@ == suffix && r->Ok_0.1@ == assign,
            Err(e) => r is Err && r->Err_0 == e,
        },
{
    let args = match meta_item_list(meta) {
        Ok(x) => x,
        Err(e) => {
            return Err(e);
        },
    };
    if args.len() == 0 {
        return Err(AnnotError::MissingMonoName);
    }
    let suffix = match nested_str(&args[0]) {
        Ok(x) => x,
        Err(e) => {
            return Err(e);
        },
    };
    let assign = match parse_concretes_from(args, 1) {
        Ok(x) => x,
        Err(e) => {
            return Err(e);
        },
    };
    Ok((suffix, assign))
}

/// The permissions that `meta` writes for the static variables of a
/// definition: a list of concrete permissions.
pub open spec fn spec_parse_static_assign(meta: MetaItem) -> Result<Seq<ConcretePerm>, AnnotError> {
    match meta.node {
        MetaItemKind::List(args) => spec_parse_concretes_from(args@, 0),
        _ => Err(AnnotError::ExpectedList),
    }
}

/// Reads the permissions of the static variables of a definition.
pub fn parse_static_assign(meta: &MetaItem) -> (r: Result<Vec<ConcretePerm>, AnnotError>)
    ensures
        match spec_parse_static_assign(*meta) {
            Ok(assign) => r is Ok && r->Ok_0@ == assign,
            Err(e) => r is Err && r->Err_0 == e,
        },
{
    let args = match meta_item_list(meta) {
        Ok(x) => x,
        Err(e) => {
            return Err(e);
        },
    };
    parse_concretes_from(args, 0)
}

/// The name of the group that `meta` puts a definition in: its one
/// argument, a string.
pub open spec fn spec_parse_variant_of(meta: MetaItem) -> Result<Seq<char>, AnnotError> {
    match meta.node {
        MetaItemKind::List(args) => if args@.len() != 1 {
            Err(AnnotError::VariantOfArity)
        } else {
            spec_nested_str(args@[0])
        },
        _ => Err(AnnotError::ExpectedList),
    }
}

/// Reads the name of a group of variants.
pub fn parse_variant_of(meta: &MetaItem) -> (r: Result<String, AnnotError>)
    ensures
        match spec_parse_variant_of(*meta) {
            Ok(name) => r is Ok && r->Ok_0@ == name,
            Err(e) => r is Err && r->Err_0 == e,
        },
{
    let args = match meta_item_list(meta) {
        Ok(x) => x,
        Err(e) => {
            return Err(e);
        },
    };
    if args.len() != 1 {
        return Err(AnnotError::VariantOfArity);
    }
    nested_str(&args[0])
}

/// A mark on a position in a type: which permission variable labels the
/// position, and which marks the user has put there.
#[derive(Clone, Copy, PartialEq, Eq, Debug)]
pub struct MarkedType {
    /// The label of the marked position in the stored type.
    pub label: Option<PermVar>,
    /// The function in whose signature the position stands, if it stands
    /// in one.
    pub sig_def: Option<DefId>,
    /// The position is marked as owning: at least `Move`.
    pub is_box: bool,
    /// The position is marked as mutable: at least `Write`.
    pub is_mut: bool,
    /// The position is marked as shared: at least `Read`.
    pub is_ref: bool,
}

impl SpecCtxt {
    /// The storage after variable `p` was given the lower bound
    /// `min_perm`. A static variable is assigned the larger of the bound
    /// and of what it was assigned. A signature variable, of a signature of
    /// function `did`, gets the constraint `min_perm <= p` in the
    /// constraints of the variant `did`. No other variable can be marked.
    #[verifier::opaque]
    pub open spec fn fix_var(self, p: PermVar, did: Option<DefId>, min_perm: ConcretePerm) -> Result<
        SpecCtxt,
        Error,
    > {
        match p {
            PermVar::Static(v) => if v.0 < self.static_assign.len() {
                Ok(
                    SpecCtxt {
                        static_assign: self.static_assign.update(
                            v.0 as int,
                            min_perm.spec_join(self.static_assign[v.0 as int]),
                        ),
                        ..self
                    },
                )
            } else {
                Err(Error::Inconsistent)
            },
            PermVar::Sig(_) => match did {
                None => Err(Error::Inconsistent),
                Some(d) => match self.variant_summ(d) {
                    Err(e) => Err(e),
                    Ok((cx, _, v)) => Ok(
                        SpecCtxt {
                            variants: cx.variants.update(
                                d.0 as int,
                                Some(
                                    SpecVariantSumm {
                                        inst_cset: v.inst_cset.insert(
                                            (SpecPerm::Concrete(min_perm), SpecPerm::Var(p)),
                                        ),
                                        ..v
                                    },
                                ),
                            ),
                            ..cx
                        },
                    ),
                },
            },
            _ => Err(Error::Inconsistent),
        }
    }

    /// The storage after the marks of `m` were applied: `Move` for an
    /// owning mark, then `Write` for a mutable one, then `Read` for a
    /// shared one. A position that carries no variable is passed over.
    #[verifier::opaque]
    pub open spec fn handle_mark(self, m: MarkedType) -> Result<SpecCtxt, Error> {
        match m.label {
            None => Ok(self),
            Some(p) => {
                let r1 = if m.is_box {
                    self.fix_var(p, m.sig_def, ConcretePerm::Move)
                } else {
                    Ok(self)
                };
                match r1 {
                    Err(e) => Err(e),
                    Ok(cx1) => {
                        let r2 = if m.is_mut {
                            cx1.fix_var(p, m.sig_def, ConcretePerm::Write)
                        } else {
                            Ok(cx1)
                        };
                        match r2 {
                            Err(e) => Err(e),
                            Ok(cx2) => if m.is_ref {
                                cx2.fix_var(p, m.sig_def, ConcretePerm::Read)
                            } else {
                                Ok(cx2)
                            },
                        }
                    },
                }
            },
        }
    }

    /// The storage after the marks in `marks` from index `i` on were
    /// applied, in order.
    pub open spec fn handle_marks_from(self, marks: Seq<MarkedType>, i: nat) -> Result<
        SpecCtxt,
        Error,
    >
        decreases marks.len() - i,
    {
        if i >= marks.len() {
            Ok(self)
        } else {
            match self.handle_mark(marks[i as int]) {
                Err(e) => Err(e),
                Ok(cx) => cx.handle_marks_from(marks, i + 1),
            }
        }
    }
}

fn fix_var(cx: &mut Ctxt, p: PermVar, did: Option<DefId>, min_perm: ConcretePerm) -> (r: Result<
    (),
    Error,
>)
    ensures
        match old(cx)@.fix_var(p, did, min_perm) {
            Ok(st) => r is Ok && final(cx)@ == st,
            Err(e) => r is Err && r->Err_0 == e,
        },
{
    proof {
        reveal(SpecCtxt::fix_var);
    }
    match p {
        PermVar::Static(v) => {
            if (v.0 as usize) < cx.static_assign.len() {
                let new_perm = min_perm.join(cx.static_assign[v.0 as usize]);
                cx.static_assign[v.0 as usize] = new_perm;
                Ok(())
            } else {
                Err(Error::Inconsistent)
            }
        },
        PermVar::Sig(_) => {
            let d = match did {
                Some(d) => d,
                None => {
                    return Err(Error::Inconsistent);
                },
            };
            proof {
                if cx@.variant_summ(d) is Ok {
                    lemma_variant_summ_present(cx@, d);
                }
            }
            match cx.variant_num_sig_vars(d) {
                Ok(_) => {},
                Err(e) => {
                    return Err(e);
                },
            }
            if d.0 >= cx.variants.len() {
                return Err(Error::Inconsistent);
            }
            let ghost variants0 = cx.variants@;
            match &mut cx.variants[d.0] {
                Some(v) => {
                    v.inst_cset.add(Perm::Concrete(min_perm), Perm::var(p));
                    proof {
                        lemma_table_update(variants0, d.0 as int, *v);
                    }
                    Ok(())
                },
                None => Err(Error::Inconsistent),
            }
        },
        _ => Err(Error::Inconsistent),
    }
}

fn handle_mark(cx: &mut Ctxt, m: &MarkedType) -> (r: Result<(), Error>)
    ensures
        match old(cx)@.handle_mark(*m) {
            Ok(st) => r is Ok && final(cx)@ == st,
            Err(e) => r is Err && r->Err_0 == e,
        },
{
    proof {
        reveal(SpecCtxt::handle_mark);
    }
    let p = match m.label {
        Some(p) => p,
        None => {
            return Ok(());
        },
    };
    if m.is_box {
        match fix_var(cx, p, m.sig_def, ConcretePerm::Move) {
            Ok(()) => {},
            Err(e) => {
                return Err(e);
            },
        }
    }
    if m.is_mut {
        match fix_var(cx, p, m.sig_def, ConcretePerm::Write) {
            Ok(()) => {},
            Err(e) => {
                return Err(e);
            },
        }
    }
    if m.is_ref {
        match fix_var(cx, p, m.sig_def, ConcretePerm::Read) {
            Ok(()) => {},
            Err(e) => {
                return Err(e);
            },
        }
    }
    Ok(())
}

/// Applies the marks that the user has put on positions in types. Each
/// mark is a lower bound on the permission of the variable that labels the
/// position: `Move`, `Write` or `Read`. The bound on a static variable is
/// joined into what the variable is assigned. The bound on a signature
/// variable becomes a constraint of the function's variant.
pub fn handle_marks(cx: &mut Ctxt, marks: &Vec<MarkedType>) -> (r: Result<(), Error>)
    ensures
        match old(cx)@.handle_marks_from(marks@, 0) {
            Ok(st) => r is Ok && final(cx)@ == st,
            Err(e) => r is Err && r->Err_0 == e,
        },
{
    let ghost st0 = cx@;
    let mut i: usize = 0;
    #[verifier::loop_isolation(false)]
    while i < marks.len()
        invariant
            i <= marks.len(),
            st0.handle_marks_from(marks@, 0) == cx@.handle_marks_from(marks@, i as nat),
        decreases marks.len() - i,
    {
        match handle_mark(cx, &marks[i]) {
            Ok(()) => {},
            Err(e) => {
                return Err(e);
            },
        }
        i += 1;
    }
    Ok(())
}

/// An attribute on a definition.
#[derive(PartialEq, Eq, Debug)]
pub struct Attribute {
    /// The name of the attribute.
    pub name: String,
    /// What the attribute holds, if it is well formed.
    pub meta: Option<MetaItem>,
}

/// A definition with the attributes on it.
#[derive(PartialEq, Eq, Debug)]
pub struct DefAttrs {
    /// The definition, if it is one of the analysed program.
    pub def_id: Option<DefId>,
    pub attrs: Vec<Attribute>,
}

/// What is wrong with the annotations of a definition.
#[derive(Clone, Copy, PartialEq, Eq, Debug)]
pub enum ConfigErrorKind {
    /// `ownership_variant_of` is not well formed.
    BadMeta,
    /// `ownership_variant_of` is refused.
    VariantOf(AnnotError),
    /// A definition with `ownership_variant_of` does not have exactly one
    /// `ownership_mono`.
    MonoCount,
    /// `ownership_constraints` is refused.
    Constraints(AnnotError),
    /// The function or group of variants has `ownership_constraints`
    /// already.
    DuplicateConstraints,
    /// `ownership_mono` is refused.
    Mono(AnnotError),
    /// `ownership_static` is refused.
    Static(AnnotError),
    /// `ownership_static` does not give one permission for each pointer
    /// in the type of the definition.
    StaticCount,
    /// The storage refuses what the annotation asks for.
    Storage(Error),
}

/// An error in the annotations, with the definition that they stand on.
/// Such an error ends the run: nothing of what was read may be used.
#[derive(Clone, Copy, PartialEq, Eq, Debug)]
pub struct ConfigError {
    pub def_id: DefId,
    pub kind: ConfigErrorKind,
}

/// The first attribute named `name` in `attrs`, from index `i` on.
pub open spec fn spec_first_named(attrs: Seq<Attribute>, name: Seq<char>, i: nat) -> Option<
    Attribute,
>
    decreases attrs.len() - i,
{
    if i >= attrs.len() {
        None
    } else if attrs[i as int].name@ == name {
        Some(attrs[i as int])
    } else {
        spec_first_named(attrs, name, i + 1)
    }
}

/// The number of attributes named `name` in `attrs`, from index `i` on.
pub open spec fn spec_count_named(attrs: Seq<Attribute>, name: Seq<char>, i: nat) -> nat
    decreases attrs.len() - i,
{
    if i >= attrs.len() {
        0
    } else {
        (if attrs[i as int].name@ == name {
            1nat
        } else {
            0nat
        }) + spec_count_named(attrs, name, i + 1)
    }
}

/// The primary variant of the group named `name`, looked for in `groups`
/// from index `i` on.
pub open spec fn spec_find_group(groups: Seq<(Seq<char>, DefId)>, name: Seq<char>, i: nat) -> Option<
    DefId,
>
    decreases groups.len() - i,
{
    if i >= groups.len() {
        None
    } else if groups[i as int].0 == name {
        Some(groups[i as int].1)
    } else {
        spec_find_group(groups, name, i + 1)
    }
}

/// The views of the groups in `gs`, in order.
pub open spec fn group_views(gs: Seq<(String, DefId)>) -> Seq<(Seq<char>, DefId)> {
    gs.map_values(|g: (String, DefId)| (g.0@, g.1))
}

/// The table of static permissions after the permissions `perms`, from
/// index `j` on, were given to the static variables among `labels`, from
/// index `i` on, one each in order. There must be as many permissions as
/// static variables.
pub open spec fn spec_assign_statics(
    tbl: Seq<ConcretePerm>,
    labels: Seq<Option<PermVar>>,
    i: nat,
    perms: Seq<ConcretePerm>,
    j: nat,
) -> Result<Seq<ConcretePerm>, ConfigErrorKind>
    decreases labels.len() - i,
{
    if i >= labels.len() {
        if j == perms.len() {
            Ok(tbl)
        } else {
            Err(ConfigErrorKind::StaticCount)
        }
    } else {
        match labels[i as int] {
            Some(PermVar::Static(v)) => if j >= perms.len() {
                Err(ConfigErrorKind::StaticCount)
            } else if v.0 >= tbl.len() {
                Err(ConfigErrorKind::Storage(Error::Inconsistent))
            } else {
                spec_assign_statics(
                    tbl.update(v.0 as int, perms[j as int]),
                    labels,
                    i + 1,
                    perms,
                    j + 1,
                )
            },
            _ => spec_assign_statics(tbl, labels, i + 1, perms, j),
        }
    }
}

impl SpecCtxt {
    /// The storage and the groups after `ownership_variant_of` on
    /// definition `def_id` was handled, if the definition has one. The
    /// first definition that names a group is the primary variant of the
    /// group; every definition of the group, the first too, is registered
    /// as a variant of the primary. The definition must have exactly one
    /// `ownership_mono`.
    #[verifier::opaque]
    pub open spec fn variant_of(
        self,
        groups: Seq<(Seq<char>, DefId)>,
        def_id: DefId,
        attrs: Seq<Attribute>,
    ) -> Result<(SpecCtxt, Seq<(Seq<char>, DefId)>), ConfigErrorKind> {
        match spec_first_named(attrs, "ownership_variant_of"@, 0) {
            None => Ok((self, groups)),
            Some(attr) => match attr.meta {
                None => Err(ConfigErrorKind::BadMeta),
                Some(meta) => match spec_parse_variant_of(meta) {
                    Err(e) => Err(ConfigErrorKind::VariantOf(e)),
                    Ok(name) => {
                        let found = spec_find_group(groups, name, 0);
                        let primary = match found {
                            Some(p) => p,
                            None => def_id,
                        };
                        let groups2 = match found {
                            Some(_) => groups,
                            None => groups.push((name, def_id)),
                        };
                        match self.add_variant(primary, def_id) {
                            Err(e) => Err(ConfigErrorKind::Storage(e)),
                            Ok(cx) => if spec_count_named(attrs, "ownership_mono"@, 0) != 1 {
                                Err(ConfigErrorKind::MonoCount)
                            } else {
                                Ok((cx, groups2))
                            },
                        }
                    },
                },
            },
        }
    }

    /// The storage after `ownership_constraints` on `def_id` was applied:
    /// the constraints are added to those of the function, which is marked
    /// as having them. A function, or a group of variants, can have the
    /// annotation once.
    #[verifier::opaque]
    pub open spec fn apply_constraints(self, def_id: DefId, meta: MetaItem) -> Result<
        SpecCtxt,
        ConfigErrorKind,
    > {
        match spec_parse_ownership_constraints(meta) {
            Err(e) => Err(ConfigErrorKind::Constraints(e)),
            Ok(cs) => match self.variant_summ(def_id) {
                Err(e) => Err(ConfigErrorKind::Storage(e)),
                Ok((cx, _, v)) => match lookup(cx.funcs, v.func_id) {
                    None => Err(ConfigErrorKind::Storage(Error::Inconsistent)),
                    Some(f) => if f.cset_provided {
                        Err(ConfigErrorKind::DuplicateConstraints)
                    } else {
                        Ok(
                            SpecCtxt {
                                funcs: cx.funcs.update(
                                    v.func_id.0 as int,
                                    Some(
                                        SpecFuncSumm {
                                            sig_cset: f.sig_cset.union(cs),
                                            cset_provided: true,
                                            ..f
                                        },
                                    ),
                                ),
                                ..cx
                            },
                        )
                    },
                },
            },
        }
    }

    /// The storage after `ownership_mono` on `def_id` was applied: the
    /// function of `def_id` has one more monomorphization, with the suffix
    /// and the permissions of the annotation.
    #[verifier::opaque]
    pub open spec fn apply_mono(self, def_id: DefId, meta: MetaItem) -> Result<
        SpecCtxt,
        ConfigErrorKind,
    > {
        match spec_parse_mono_sig(meta) {
            Err(e) => Err(ConfigErrorKind::Mono(e)),
            Ok((suffix, assign)) => match self.add_mono(def_id) {
                Err(e) => Err(ConfigErrorKind::Storage(e)),
                Ok((cx, fid, idx)) => match lookup(cx.funcs, fid) {
                    None => Err(ConfigErrorKind::Storage(Error::Inconsistent)),
                    Some(f) => if idx >= f.monos.len() {
                        Err(ConfigErrorKind::Storage(Error::Inconsistent))
                    } else {
                        Ok(
                            SpecCtxt {
                                funcs: cx.funcs.update(
                                    fid.0 as int,
                                    Some(
                                        SpecFuncSumm {
                                            monos: f.monos.update(
                                                idx as int,
                                                SpecMonoSumm {
                                                    assign,
                                                    suffix,
                                                    ..f.monos[idx as int]
                                                },
                                            ),
                                            monos_provided: true,
                                            ..f
                                        },
                                    ),
                                ),
                                ..cx
                            },
                        )
                    },
                },
            },
        }
    }

    /// The storage after `ownership_static` on `def_id` was applied: the
    /// static variables in the type of the definition, in the order in
    /// which the type holds them, node before children and left before
    /// right, are assigned the permissions of the annotation.
    #[verifier::opaque]
    pub open spec fn apply_static(self, def_id: DefId, meta: MetaItem) -> Result<
        SpecCtxt,
        ConfigErrorKind,
    > {
        match spec_parse_static_assign(meta) {
            Err(e) => Err(ConfigErrorKind::Static(e)),
            Ok(perms) => match self.static_ty(def_id) {
                Err(e) => Err(ConfigErrorKind::Storage(e)),
                Ok((cx, ty)) => match spec_assign_statics(
                    cx.static_assign,
                    spec_labels(ty),
                    0,
                    perms,
                    0,
                ) {
                    Err(k) => Err(k),
                    Ok(tbl) => Ok(SpecCtxt { static_assign: tbl, ..cx }),
                },
            },
        }
    }

    /// The storage after attribute `attr` on `def_id` was applied. An
    /// attribute that is not well formed, or of another name than
    /// `ownership_constraints`, `ownership_mono` and `ownership_static`, is
    /// passed over.
    #[verifier::opaque]
    pub open spec fn apply_attr(self, def_id: DefId, attr: Attribute) -> Result<
        SpecCtxt,
        ConfigErrorKind,
    > {
        match attr.meta {
            None => Ok(self),
            Some(meta) => if meta.name@ == "ownership_constraints"@ {
                self.apply_constraints(def_id, meta)
            } else if meta.name@ == "ownership_mono"@ {
                self.apply_mono(def_id, meta)
            } else if meta.name@ == "ownership_static"@ {
                self.apply_static(def_id, meta)
            } else {
                Ok(self)
            },
        }
    }

    /// The storage after the attributes `attrs` on `def_id`, from index
    /// `i` on, were applied in order.
    pub open spec fn apply_attrs_from(self, def_id: DefId, attrs: Seq<Attribute>, i: nat) -> Result<
        SpecCtxt,
        ConfigErrorKind,
    >
        decreases attrs.len() - i,
    {
        if i >= attrs.len() {
            Ok(self)
        } else {
            match self.apply_attr(def_id, attrs[i as int]) {
                Err(k) => Err(k),
                Ok(cx) => cx.apply_attrs_from(def_id, attrs, i + 1),
            }
        }
    }

    /// The storage and the groups after the annotations of `d` were read:
    /// first `ownership_variant_of`, then every attribute in order.
    #[verifier::opaque]
    pub open spec fn handle_def(self, groups: Seq<(Seq<char>, DefId)>, d: DefAttrs) -> Result<
        (SpecCtxt, Seq<(Seq<char>, DefId)>),
        ConfigError,
    > {
        match d.def_id {
            None => Ok((self, groups)),
            Some(def_id) => match self.variant_of(groups, def_id, d.attrs@) {
                Err(kind) => Err(ConfigError { def_id, kind }),
                Ok((cx, groups2)) => match cx.apply_attrs_from(def_id, d.attrs@, 0) {
                    Err(kind) => Err(ConfigError { def_id, kind }),
                    Ok(cx2) => Ok((cx2, groups2)),
                },
            },
        }
    }

    /// The storage after the annotations of the definitions `defs`, from
    /// index `i` on, were read in order.
    pub open spec fn handle_defs_from(
        self,
        groups: Seq<(Seq<char>, DefId)>,
        defs: Seq<DefAttrs>,
        i: nat,
    ) -> Result<SpecCtxt, ConfigError>
        decreases defs.len() - i,
    {
        if i >= defs.len() {
            Ok(self)
        } else {
            match self.handle_def(groups, defs[i as int]) {
                Err(e) => Err(e),
                Ok((cx, groups2)) => cx.handle_defs_from(groups2, defs, i + 1),
            }
        }
    }

    /// The storage after the annotations of the definitions `defs` were
    /// read.
    pub open spec fn handle_attrs(self, defs: Seq<DefAttrs>) -> Result<SpecCtxt, ConfigError> {
        self.handle_defs_from(Seq::empty(), defs, 0)
    }
}

fn first_named<'a>(attrs: &'a Vec<Attribute>, name: &str) -> (r: Option<&'a Attribute>)
    ensures
        match r {
            Some(a) => spec_first_named(attrs@, name@, 0) == Some(*a),
            None => spec_first_named(attrs@, name@, 0) is None,
        },
{
    let mut i: usize = 0;
    while i < attrs.len()
        invariant
            i <= attrs.len(),
            spec_first_named(attrs@, name@, 0) == spec_first_named(attrs@, name@, i as nat),
        decreases attrs.len() - i,
    {
        if name_is(&attrs[i].name, name) {
            return Some(&attrs[i]);
        }
        i += 1;
    }
    None
}

fn count_named(attrs: &Vec<Attribute>, name: &str) -> (r: usize)
    ensures
        r == spec_count_named(attrs@, name@, 0),
{
    let mut count: usize = 0;
    let mut i: usize = 0;
    while i < attrs.len()
        invariant
            i <= attrs.len(),
            count <= i,
            spec_count_named(attrs@, name@, 0) == count + spec_count_named(attrs@, name@, i as nat),
        decreases attrs.len() - i,
    {
        if name_is(&attrs[i].name, name) {
            count += 1;
        }
        i += 1;
    }
    count
}

fn find_group(groups: &Vec<(String, DefId)>, name: &String) -> (r: Option<DefId>)
    ensures
        r == spec_find_group(group_views(groups@), name@, 0),
{
    let mut i: usize = 0;
    while i < groups.len()
        invariant
            i <= groups.len(),
            spec_find_group(group_views(groups@), name@, 0) == spec_find_group(
                group_views(groups@),
                name@,
                i as nat,
            ),
        decreases groups.len() - i,
    {
        assert(group_views(groups@)[i as int] == (groups@[i as int].0@, groups@[i as int].1));
        if groups[i].0 == *name {
            return Some(groups[i].1);
        }
        i += 1;
    }
    None
}

fn variant_of(
    cx: &mut Ctxt,
    groups: &mut Vec<(String, DefId)>,
    def_id: DefId,
    attrs: &Vec<Attribute>,
) -> (r: Result<(), ConfigErrorKind>)
    ensures
        match old(cx)@.variant_of(group_views(old(groups)@), def_id, attrs@) {
            Ok((st, gs)) => r is Ok && final(cx)@ == st && group_views(final(groups)@) == gs,
            Err(e) => r is Err && r->Err_0 == e,
        },
{
    proof {
        reveal(SpecCtxt::variant_of);
    }
    let attr = match first_named(attrs, "ownership_variant_of") {
        Some(a) => a,
        None => {
            return Ok(());
        },
    };
    let meta = match &attr.meta {
        Some(m) => m,
        None => {
            return Err(ConfigErrorKind::BadMeta);
        },
    };
    let group_name = match parse_variant_of(meta) {
        Ok(x) => x,
        Err(e) => {
            return Err(ConfigErrorKind::VariantOf(e));
        },
    };
    let primary = match find_group(groups, &group_name) {
        Some(p) => p,
        None => {
            let ghost before = group_views(groups@);
            groups.push((group_name, def_id));
            assert(group_views(groups@) =~= before.push((group_name@, def_id)));
            def_id
        },
    };
    match cx.add_variant(primary, def_id) {
        Ok(()) => {},
        Err(e) => {
            return Err(ConfigErrorKind::Storage(e));
        },
    }
    if count_named(attrs, "ownership_mono") != 1 {
        return Err(ConfigErrorKind::MonoCount);
    }
    Ok(())
}

fn apply_constraints(cx: &mut Ctxt, def_id: DefId, meta: &MetaItem) -> (r: Result<
    (),
    ConfigErrorKind,
>)
    ensures
        match old(cx)@.apply_constraints(def_id, *meta) {
            Ok(st) => r is Ok && final(cx)@ == st,
            Err(e) => r is Err && r->Err_0 == e,
        },
{
    proof {
        reveal(SpecCtxt::apply_constraints);
    }
    let cset = match parse_ownership_constraints(meta) {
        Ok(x) => x,
        Err(e) => {
            return Err(ConfigErrorKind::Constraints(e));
        },
    };
    let (fid, _n) = match cx.variant_num_sig_vars(def_id) {
        Ok(x) => x,
        Err(e) => {
            return Err(ConfigErrorKind::Storage(e));
        },
    };
    if fid.0 >= cx.funcs.len() {
        return Err(ConfigErrorKind::Storage(Error::Inconsistent));
    }
    let ghost funcs0 = cx.funcs@;
    match &mut cx.funcs[fid.0] {
        Some(f) => {
            if f.cset_provided {
                return Err(ConfigErrorKind::DuplicateConstraints);
            }
            f.sig_cset.import(&cset);
            f.cset_provided = true;
            proof {
                lemma_table_update(funcs0, fid.0 as int, *f);
            }
            Ok(())
        },
        None => Err(ConfigErrorKind::Storage(Error::Inconsistent)),
    }
}

fn apply_mono(cx: &mut Ctxt, def_id: DefId, meta: &MetaItem) -> (r: Result<(), ConfigErrorKind>)
    ensures
        match old(cx)@.apply_mono(def_id, *meta) {
            Ok(st) => r is Ok && final(cx)@ == st,
            Err(e) => r is Err && r->Err_0 == e,
        },
{
    proof {
        reveal(SpecCtxt::apply_mono);
    }
    let (suffix, assign) = match parse_mono_sig(meta) {
        Ok(x) => x,
        Err(e) => {
            return Err(ConfigErrorKind::Mono(e));
        },
    };
    let (fid, idx) = match cx.add_mono(def_id) {
        Ok(x) => x,
        Err(e) => {
            return Err(ConfigErrorKind::Storage(e));
        },
    };
    if fid.0 >= cx.funcs.len() {
        return Err(ConfigErrorKind::Storage(Error::Inconsistent));
    }
    let ghost funcs0 = cx.funcs@;
    match &mut cx.funcs[fid.0] {
        Some(f) => {
            if idx >= f.monos.len() {
                return Err(ConfigErrorKind::Storage(Error::Inconsistent));
            }
            let ghost monos0 = mono_views(f.monos@);
            f.monos[idx].assign = assign;
            f.monos[idx].suffix = suffix;
            f.monos_provided = true;
            proof {
                assert(mono_views(f.monos@) =~= monos0.update(
                    idx as int,
                    SpecMonoSumm { assign: assign@, suffix: suffix@, ..monos0[idx as int] },
                ));
                lemma_table_update(funcs0, fid.0 as int, *f);
            }
            Ok(())
        },
        None => Err(ConfigErrorKind::Storage(Error::Inconsistent)),
    }
}

fn assign_statics(
    tbl: &mut Vec<ConcretePerm>,
    labels: &Vec<Option<PermVar>>,
    perms: &Vec<ConcretePerm>,
) -> (r: Result<(), ConfigErrorKind>)
    ensures
        match spec_assign_statics(old(tbl)@, labels@, 0, perms@, 0) {
            Ok(t) => r is Ok && final(tbl)@ == t,
            Err(e) => r is Err && r->Err_0 == e,
        },
{
    let ghost tbl0 = tbl@;
    let mut i: usize = 0;
    let mut j: usize = 0;
    #[verifier::loop_isolation(false)]
    while i < labels.len()
        invariant
            i <= labels.len(),
            j <= perms.len(),
            spec_assign_statics(tbl0, labels@, 0, perms@, 0) == spec_assign_statics(
                tbl@,
                labels@,
                i as nat,
                perms@,
                j as nat,
            ),
        decreases labels.len() - i,
    {
        match labels[i] {
            Some(PermVar::Static(v)) => {
                if j >= perms.len() {
                    return Err(ConfigErrorKind::StaticCount);
                }
                if (v.0 as usize) >= tbl.len() {
                    return Err(ConfigErrorKind::Storage(Error::Inconsistent));
                }
                tbl[v.0 as usize] = perms[j];
                j += 1;
            },
            _ => {},
        }
        i += 1;
    }
    if j == perms.len() {
        Ok(())
    } else {
        Err(ConfigErrorKind::StaticCount)
    }
}

fn apply_static(cx: &mut Ctxt, def_id: DefId, meta: &MetaItem) -> (r: Result<(), ConfigErrorKind>)
    ensures
        match old(cx)@.apply_static(def_id, *meta) {
            Ok(st) => r is Ok && final(cx)@ == st,
            Err(e) => r is Err && r->Err_0 == e,
        },
{
    proof {
        reveal(SpecCtxt::apply_static);
    }
    let perms = match parse_static_assign(meta) {
        Ok(x) => x,
        Err(e) => {
            return Err(ConfigErrorKind::Static(e));
        },
    };
    let ty = match cx.static_ty(def_id) {
        Ok(x) => x,
        Err(e) => {
            return Err(ConfigErrorKind::Storage(e));
        },
    };
    let labels = ty.labels();
    assert(label_views(labels@) =~= labels@);
    assign_statics(&mut cx.static_assign, &labels, &perms)
}

fn apply_attr(cx: &mut Ctxt, def_id: DefId, attr: &Attribute) -> (r: Result<(), ConfigErrorKind>)
    ensures
        match old(cx)@.apply_attr(def_id, *attr) {
            Ok(st) => r is Ok && final(cx)@ == st,
            Err(e) => r is Err && r->Err_0 == e,
        },
{
    proof {
        reveal(SpecCtxt::apply_attr);
    }
    let meta = match &attr.meta {
        Some(m) => m,
        None => {
            return Ok(());
        },
    };
    if name_is(&meta.name, "ownership_constraints") {
        apply_constraints(cx, def_id, meta)
    } else if name_is(&meta.name, "ownership_mono") {
        apply_mono(cx, def_id, meta)
    } else if name_is(&meta.name, "ownership_static") {
        apply_static(cx, def_id, meta)
    } else {
        Ok(())
    }
}

fn handle_def(cx: &mut Ctxt, groups: &mut Vec<(String, DefId)>, d: &DefAttrs) -> (r: Result<
    (),
    ConfigError,
>)
    ensures
        match old(cx)@.handle_def(group_views(old(groups)@), *d) {
            Ok((st, gs)) => r is Ok && final(cx)@ == st && group_views(final(groups)@) == gs,
            Err(e) => r is Err && r->Err_0 == e,
        },
{
    proof {
        reveal(SpecCtxt::handle_def);
    }
    let def_id = match d.def_id {
        Some(x) => x,
        None => {
            return Ok(());
        },
    };
    match variant_of(cx, groups, def_id, &d.attrs) {
        Ok(()) => {},
        Err(kind) => {
            return Err(ConfigError { def_id, kind });
        },
    }
    let ghost st0 = cx@;
    let mut i: usize = 0;
    #[verifier::loop_isolation(false)]
    while i < d.attrs.len()
        invariant
            i <= d.attrs.len(),
            st0.apply_attrs_from(def_id, d.attrs@, 0) == cx@.apply_attrs_from(
                def_id,
                d.attrs@,
                i as nat,
            ),
        decreases d.attrs.len() - i,
    {
        match apply_attr(cx, def_id, &d.attrs[i]) {
            Ok(()) => {},
            Err(kind) => {
                return Err(ConfigError { def_id, kind });
            },
        }
        i += 1;
    }
    Ok(())
}

/// Reads the annotations that stand on definitions as attributes, in the
/// order of `defs`, and puts what they say into the storage.
///
/// `ownership_variant_of("group")` makes the definition a variant of the
/// first definition that names the group; such a definition needs exactly
/// one `ownership_mono`. `ownership_constraints(le(a, b), ..)` gives the
/// function constraints over its signature variables, once.
/// `ownership_mono("suffix", PERM, ..)` registers a monomorphization.
/// `ownership_static(PERM, ..)` assigns the static variables of the
/// definition's type. Attributes of other names are passed over. Whatever
/// is wrong inside one of these attributes is an error, which names the
/// definition; after an error the storage holds nothing that may be used.
pub fn handle_attrs(cx: &mut Ctxt, defs: &Vec<DefAttrs>) -> (r: Result<(), ConfigError>)
    ensures
        match old(cx)@.handle_attrs(defs@) {
            Ok(st) => r is Ok && final(cx)@ == st,
            Err(e) => r is Err && r->Err_0 == e,
        },
{
    let mut groups: Vec<(String, DefId)> = Vec::new();
    assert(group_views(groups@) =~= Seq::<(Seq<char>, DefId)>::empty());
    let ghost st0 = cx@;
    let mut i: usize = 0;
    #[verifier::loop_isolation(false)]
    while i < defs.len()
        invariant
            i <= defs.len(),
            st0.handle_defs_from(Seq::empty(), defs@, 0) == cx@.handle_defs_from(
                group_views(groups@),
                defs@,
                i as nat,
            ),
        decreases defs.len() - i,
    {
        match handle_def(cx, &mut groups, &defs[i]) {
            Ok(()) => {},
            Err(e) => {
                return Err(e);
            },
        }
        i += 1;
    }
    Ok(())
}

} // verus!
