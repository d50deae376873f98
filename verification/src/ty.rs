//! The types and definitions of the analysed program, as far as the
//! analysis reads them.

use vstd::prelude::*;

verus! {

/// Identity of a definition: its index in [`Program::defs`].
#[derive(Clone, Copy, PartialEq, Eq, PartialOrd, Ord, Debug, Hash, Structural)]
pub struct DefId(pub usize);

/// What a type is at its root. The type's arguments are the children of the
/// node that holds the kind.
#[derive(Clone, Copy, PartialEq, Eq, Debug, Hash, Structural)]
pub enum TyKind {
    /// A type without arguments: `bool`, `char`, an integer, a float, `str`,
    /// the never type or a foreign type.
    Scalar,
    /// A struct, enum or union; the children are its type arguments.
    Adt(DefId),
    /// An array; the child is the element type.
    Array,
    /// A slice; the child is the element type.
    Slice,
    /// A raw pointer; the child is the pointee type.
    RawPtr,
    /// A reference; the child is the pointee type.
    Ref,
    /// The type of a function item; the children are its type arguments.
    FnDef(DefId),
    /// A function pointer; the children are the argument types, then the
    /// return type.
    FnPtr,
    /// A tuple; the children are the element types.
    Tuple,
    /// The type parameter with the given index.
    Param(u32),
    /// The type of a closure.
    Closure,
    /// Any other type.
    Other,
}

impl TyKind {
    /// Whether values of the type are pointers: raw pointers or references.
    pub open spec fn spec_is_pointer(self) -> bool {
        self is RawPtr || self is Ref
    }

    /// Whether values of the type are pointers: raw pointers or references.
    pub fn is_pointer(&self) -> (r: bool)
        ensures
            r == self.spec_is_pointer(),
    {
        match self {
            TyKind::RawPtr => true,
            TyKind::Ref => true,
            _ => false,
        }
    }
}

/// A type, as a mathematical value.
pub struct SpecTy {
    pub kind: TyKind,
    pub args: Seq<SpecTy>,
}

/// A type.
#[derive(PartialEq, Eq, Debug, Hash)]
pub struct Ty {
    pub kind: TyKind,
    pub args: Vec<Ty>,
}

impl Ty {
    /// The type as a mathematical value.
    pub open spec fn model(self) -> SpecTy
        decreases self,
    {
        SpecTy {
            kind: self.kind,
            args: self.args@.map_values(
                |t: Ty|
                    if decreases_to!(self => t) {
                        t.model()
                    } else {
                        SpecTy { kind: TyKind::Other, args: Seq::empty() }
                    },
            ),
        }
    }

    /// A type without arguments.
    pub fn leaf(kind: TyKind) -> (r: Ty)
        ensures
            r@ == (SpecTy { kind, args: Seq::empty() }),
    {
        let r = Ty { kind, args: Vec::new() };
        proof {
            lemma_ty_view(r);
            assert(ty_views(r.args@) =~= Seq::<SpecTy>::empty());
        }
        r
    }

    /// The type of the given kind and arguments.
    pub fn new(kind: TyKind, args: Vec<Ty>) -> (r: Ty)
        ensures
            r@ == (SpecTy { kind, args: ty_views(args@) }),
    {
        let r = Ty { kind, args };
        proof {
            lemma_ty_view(r);
        }
        r
    }
}

impl View for Ty {
    type V = SpecTy;

    open spec fn view(&self) -> SpecTy {
        self.model()
    }
}

/// The views of the types in `ts`, in order.
pub open spec fn ty_views(ts: Seq<Ty>) -> Seq<SpecTy> {
    ts.map_values(|t: Ty| t@)
}

/// The view of a type has the type's kind and the views of its arguments.
pub proof fn lemma_ty_view(t: Ty)
    ensures
        t@ == (SpecTy { kind: t.kind, args: ty_views(t.args@) }),
{
    assert(t@.args =~= ty_views(t.args@));
}

/// The types of a function's arguments and of its result.
#[derive(PartialEq, Eq, Debug, Hash)]
pub struct FnDecl {
    pub inputs: Vec<Ty>,
    pub output: Ty,
}

/// The fields of a struct, enum or union.
#[derive(PartialEq, Eq, Debug, Hash)]
pub struct AdtDef {
    /// For each variant, its fields in order: each the identity of the
    /// definition that holds the field's type.
    pub variants: Vec<Vec<DefId>>,
}

/// One definition of the program.
#[derive(PartialEq, Eq, Debug, Hash)]
pub enum Def {
    /// A function, with its signature.
    Fn(FnDecl),
    /// A static, a constant or a field, with its type.
    Value(Ty),
    /// A struct, enum or union.
    Adt(AdtDef),
    /// A definition that the analysis does not read.
    Opaque,
}

/// The definitions of the analysed program.
#[derive(PartialEq, Eq, Debug, Hash)]
pub struct Program {
    pub defs: Vec<Def>,
}

impl Program {
    /// The signature of the function `did`, if `did` is a function.
    pub open spec fn spec_fn_sig(&self, did: DefId) -> Option<FnDecl> {
        if did.0 < self.defs@.len() {
            match self.defs@[did.0 as int] {
                Def::Fn(d) => Some(d),
                _ => None,
            }
        } else {
            None
        }
    }

    /// The type of the static, constant or field `did`, if `did` is one.
    pub open spec fn spec_type_of(&self, did: DefId) -> Option<Ty> {
        if did.0 < self.defs@.len() {
            match self.defs@[did.0 as int] {
                Def::Value(t) => Some(t),
                _ => None,
            }
        } else {
            None
        }
    }

    /// The definition of field `field` of variant `variant` of the
    /// struct, enum or union `adt`, if there is such a field.
    pub open spec fn spec_field(&self, adt: DefId, variant: usize, field: usize) -> Option<DefId> {
        if adt.0 < self.defs@.len() {
            match self.defs@[adt.0 as int] {
                Def::Adt(a) => if variant < a.variants@.len() && field < a.variants@[variant as int]@.len() {
                    Some(a.variants@[variant as int]@[field as int])
                } else {
                    None
                },
                _ => None,
            }
        } else {
            None
        }
    }

    /// The signature of the function `did`, if `did` is a function.
    pub fn fn_sig(&self, did: DefId) -> (r: Option<&FnDecl>)
        ensures
            match r {
                Some(d) => self.spec_fn_sig(did) == Some(*d),
                None => self.spec_fn_sig(did) is None,
            },
    {
        if did.0 < self.defs.len() {
            match &self.defs[did.0] {
                Def::Fn(d) => Some(d),
                _ => None,
            }
        } else {
            None
        }
    }

    /// The type of the static, constant or field `did`, if `did` is one.
    pub fn type_of(&self, did: DefId) -> (r: Option<&Ty>)
        ensures
            match r {
                Some(t) => self.spec_type_of(did) == Some(*t),
                None => self.spec_type_of(did) is None,
            },
    {
        if did.0 < self.defs.len() {
            match &self.defs[did.0] {
                Def::Value(t) => Some(t),
                _ => None,
            }
        } else {
            None
        }
    }

    /// The definition of field `field` of variant `variant` of the
    /// struct, enum or union `adt`, if there is such a field.
    pub fn field(&self, adt: DefId, variant: usize, field: usize) -> (r: Option<DefId>)
        ensures
            r == self.spec_field(adt, variant, field),
    {
        if adt.0 < self.defs.len() {
            match &self.defs[adt.0] {
                Def::Adt(a) => {
                    if variant < a.variants.len() && field < a.variants[variant].len() {
                        Some(a.variants[variant][field])
                    } else {
                        None
                    }
                },
                _ => None,
            }
        } else {
            None
        }
    }
}

} // verus!
