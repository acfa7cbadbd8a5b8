//! The library's own model of rustdoc's JSON: the crate index and every item
//! shape that the reachability analysis and the renderers read. Field names
//! follow the JSON format; maps are held as vectors of entries.

use vstd::prelude::*;

verus! {

/// The identifier of an item within one crate's JSON.
#[derive(Debug, Clone, Copy, PartialEq, Eq, Structural)]
pub struct Id(pub u32);

/// A range of source code.
pub struct Span {
    /// The path to the source file, relative to where rustdoc ran.
    pub filename: String,
    /// One-indexed line and column of the first character.
    pub begin: (usize, usize),
    /// One-indexed line and column of the last character.
    pub end: (usize, usize),
}

/// Visibility of an item.
pub enum Visibility {
    Public,
    Default,
    Crate,
    Restricted { parent: Id, path: String },
}

/// A crate's documentation JSON.
pub struct Crate {
    /// The id of the root module.
    pub root: Id,
    /// Every local item, by id.
    pub index: Vec<Item>,
    /// Summaries of addressable items (local and external), by id.
    pub paths: Vec<(Id, ItemSummary)>,
    /// External crates referenced by `paths`, by crate number.
    pub external_crates: Vec<(u32, ExternalCrate)>,
    /// The JSON format version.
    pub format_version: u32,
}

/// Where an addressable item lives.
pub struct ItemSummary {
    /// The crate it belongs to (0 is the local crate).
    pub crate_id: u32,
    /// Its fully qualified path, crate name first.
    pub path: Vec<String>,
}

/// An external crate.
pub struct ExternalCrate {
    pub name: String,
}

/// One documented item.
pub struct Item {
    pub id: Id,
    pub crate_id: u32,
    pub name: Option<String>,
    pub span: Option<Span>,
    pub visibility: Visibility,
    pub docs: Option<String>,
    /// Intra-doc link text and the id it resolves to.
    pub links: Vec<(String, Id)>,
    pub inner: ItemEnum,
}

/// The kinds of item.
pub enum ItemEnum {
    Module(Module),
    ExternCrate { name: String, rename: Option<String> },
    Use(Use),
    Union(Union),
    Struct(Struct),
    StructField(Type),
    Enum(Enum),
    Variant(Variant),
    Function(Function),
    Trait(Trait),
    TraitAlias(TraitAlias),
    Impl(Impl),
    TypeAlias(TypeAlias),
    Constant { type_: Type, const_: Constant },
    Static(Static),
    ExternType,
    Macro(String),
    ProcMacro(ProcMacro),
    Primitive(Primitive),
    AssocConst { type_: Type, value: Option<String> },
    AssocType { generics: Generics, bounds: Vec<GenericBound>, type_: Option<Type> },
}

pub struct Module {
    pub is_crate: bool,
    pub items: Vec<Id>,
    pub is_stripped: bool,
}

pub struct Use {
    pub source: String,
    pub name: String,
    pub id: Option<Id>,
    pub is_glob: bool,
}

pub struct Union {
    pub generics: Generics,
    pub has_stripped_fields: bool,
    pub fields: Vec<Id>,
    pub impls: Vec<Id>,
}

pub struct Struct {
    pub kind: StructKind,
    pub generics: Generics,
    pub impls: Vec<Id>,
}

pub enum StructKind {
    Unit,
    Tuple(Vec<Option<Id>>),
    Plain { fields: Vec<Id>, has_stripped_fields: bool },
}

pub struct Enum {
    pub generics: Generics,
    pub has_stripped_variants: bool,
    pub variants: Vec<Id>,
    pub impls: Vec<Id>,
}

pub struct Variant {
    pub kind: VariantKind,
    pub discriminant: Option<Discriminant>,
}

pub enum VariantKind {
    Plain,
    Tuple(Vec<Option<Id>>),
    Struct { fields: Vec<Id>, has_stripped_fields: bool },
}

pub struct Discriminant {
    pub expr: String,
    pub value: String,
}

#[derive(Clone, Copy)]
pub struct FunctionHeader {
    pub is_const: bool,
    pub is_unsafe: bool,
    pub is_async: bool,
}

pub struct Function {
    pub sig: FunctionSignature,
    pub generics: Generics,
    pub header: FunctionHeader,
    pub has_body: bool,
}

pub struct Generics {
    pub params: Vec<GenericParamDef>,
    pub where_predicates: Vec<WherePredicate>,
}

pub struct GenericParamDef {
    pub name: String,
    pub kind: GenericParamDefKind,
}

pub enum GenericParamDefKind {
    Lifetime { outlives: Vec<String> },
    Type { bounds: Vec<GenericBound>, default: Option<Type>, is_synthetic: bool },
    Const { type_: Type, default: Option<String> },
}

pub enum WherePredicate {
    BoundPredicate { type_: Type, bounds: Vec<GenericBound>, generic_params: Vec<GenericParamDef> },
    LifetimePredicate { lifetime: String, outlives: Vec<String> },
    EqPredicate { lhs: Type, rhs: Term },
}

pub enum GenericBound {
    TraitBound { trait_: Path, generic_params: Vec<GenericParamDef>, modifier: TraitBoundModifier },
    Outlives(String),
    Use(Vec<PreciseCapturingArg>),
}

#[derive(Debug, Clone, Copy, PartialEq, Eq, Structural)]
pub enum TraitBoundModifier {
    Unmodified,
    Maybe,
    MaybeConst,
}

pub enum PreciseCapturingArg {
    Lifetime(String),
    Param(String),
}

pub enum Term {
    Type(Type),
    Constant(Constant),
}

pub struct Constant {
    pub expr: String,
    pub value: Option<String>,
    pub is_literal: bool,
}

pub enum Type {
    ResolvedPath(Path),
    DynTrait(DynTrait),
    Generic(String),
    Primitive(String),
    FunctionPointer(Box<FunctionPointer>),
    Tuple(Vec<Type>),
    Slice(Box<Type>),
    Array { type_: Box<Type>, len: String },
    Pat { type_: Box<Type> },
    ImplTrait(Vec<GenericBound>),
    Infer,
    RawPointer { is_mutable: bool, type_: Box<Type> },
    BorrowedRef { lifetime: Option<String>, is_mutable: bool, type_: Box<Type> },
    QualifiedPath {
        name: String,
        args: Option<Box<GenericArgs>>,
        self_type: Box<Type>,
        trait_: Option<Path>,
    },
}

pub struct Path {
    pub path: String,
    pub id: Id,
    pub args: Option<Box<GenericArgs>>,
}

pub enum GenericArgs {
    AngleBracketed { args: Vec<GenericArg>, constraints: Vec<AssocItemConstraint> },
    Parenthesized { inputs: Vec<Type>, output: Option<Type> },
    ReturnTypeNotation,
}

pub enum GenericArg {
    Lifetime(String),
    Type(Type),
    Const(Constant),
    Infer,
}

pub struct AssocItemConstraint {
    pub name: String,
    pub args: Option<Box<GenericArgs>>,
    pub binding: AssocItemConstraintKind,
}

pub enum AssocItemConstraintKind {
    Equality(Term),
    Constraint(Vec<GenericBound>),
}

pub struct DynTrait {
    pub traits: Vec<PolyTrait>,
    pub lifetime: Option<String>,
}

pub struct PolyTrait {
    pub trait_: Path,
    pub generic_params: Vec<GenericParamDef>,
}

pub struct FunctionPointer {
    pub sig: FunctionSignature,
    pub generic_params: Vec<GenericParamDef>,
    pub header: FunctionHeader,
}

pub struct FunctionSignature {
    pub inputs: Vec<(String, Type)>,
    pub output: Option<Type>,
    pub is_c_variadic: bool,
}

pub struct Trait {
    pub is_auto: bool,
    pub is_unsafe: bool,
    pub is_dyn_compatible: bool,
    pub items: Vec<Id>,
    pub generics: Generics,
    pub bounds: Vec<GenericBound>,
    pub implementations: Vec<Id>,
}

pub struct TraitAlias {
    pub generics: Generics,
    pub params: Vec<GenericBound>,
}

pub struct Impl {
    pub is_unsafe: bool,
    pub generics: Generics,
    pub provided_trait_methods: Vec<String>,
    pub trait_: Option<Path>,
    pub for_: Type,
    pub items: Vec<Id>,
    pub is_negative: bool,
    pub is_synthetic: bool,
    pub blanket_impl: Option<Type>,
}

pub struct TypeAlias {
    pub type_: Type,
    pub generics: Generics,
}

pub struct Static {
    pub type_: Type,
    pub is_mutable: bool,
    pub expr: String,
    pub is_unsafe: bool,
}

#[derive(Debug, Clone, Copy, PartialEq, Eq, Structural)]
pub enum MacroKind {
    Bang,
    Attr,
    Derive,
}

pub struct ProcMacro {
    pub kind: MacroKind,
    pub helpers: Vec<String>,
}

pub struct Primitive {
    pub name: String,
    pub impls: Vec<Id>,
}


/// The first item of `index` with id `id`.
pub open spec fn lookup(index: Seq<Item>, id: Id) -> Option<Item>
    decreases index.len(),
{
    if index.len() == 0 {
        None
    } else if index[0].id == id {
        Some(index[0])
    } else {
        lookup(index.drop_first(), id)
    }
}

/// The ids of an index, in order.
pub open spec fn index_ids(index: Seq<Item>) -> Seq<Id> {
    index.map_values(|it: Item| it.id)
}

pub proof fn lemma_lookup_skip(index: Seq<Item>, id: Id, i: int)
    requires
        0 <= i < index.len(),
        index[i].id != id,
    ensures
        lookup(index.skip(i), id) == lookup(index.skip(i + 1), id),
{
    assert(index.skip(i).drop_first() =~= index.skip(i + 1));
}

pub proof fn lemma_lookup_found(index: Seq<Item>, id: Id)
    ensures
        lookup(index, id) matches Some(it) ==> it.id == id && exists|i: int|
            0 <= i < index.len() && index[i] == it && #[trigger] index_ids(index)[i] == id,
    decreases index.len(),
{
    if index.len() > 0 && index[0].id != id {
        lemma_lookup_found(index.drop_first(), id);
        if let Some(it) = lookup(index, id) {
            let i = choose|i: int|
                0 <= i < index.drop_first().len() && index.drop_first()[i] == it
                    && #[trigger] index_ids(index.drop_first())[i] == id;
            assert(index[i + 1] == it);
            assert(index_ids(index)[i + 1] == id);
        }
    } else if index.len() > 0 {
        assert(index_ids(index)[0] == id);
    }
}

impl Crate {
    /// The item with id `id`, if the index holds one.
    pub fn get(&self, id: Id) -> (r: Option<&Item>)
        ensures
            match r {
                Some(it) => lookup(self.index@, id) == Some(*it),
                None => lookup(self.index@, id) is None,
            },
    {
        let mut i: usize = 0;
        assert(self.index@.skip(0) =~= self.index@);
        while i < self.index.len()
            invariant
                i <= self.index@.len(),
                lookup(self.index@, id) == lookup(self.index@.skip(i as int), id),
            decreases self.index@.len() - i,
        {
            if self.index[i].id == id {
                assert(self.index@.skip(i as int)[0] == self.index@[i as int]);
                return Some(&self.index[i]);
            }
            proof {
                lemma_lookup_skip(self.index@, id, i as int);
            }
            i += 1;
        }
        None
    }
}

} // verus!
