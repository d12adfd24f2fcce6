//! Parser and abstract syntax tree for the CVARINFO lump: console-variable
//! declarations, each carrying qualifier flags, a storage type, a name, and an
//! optional initializer.
//!
//! The entry point is [`CVarInfo::parse`]. Alongside each executable AST node
//! stands its mathematical model (`*Model`), the shape the grammar functions
//! in [`crate::grammar`] are specified over.

use vstd::prelude::*;
use vstd::string::StringSliceAdditionalSpecFns;

use crate::grammar;
use crate::interner::Interner;
use crate::{Identifier, ParseError, Span, SpanModel};

verus! {

/// The semantic component of a [`Flag`].
#[derive(Debug, Clone, Copy, PartialEq, Eq, Structural)]
pub enum FlagKind {
    /// Shared between players in a network game and only mutable by the
    /// arbitrator. Persistent between saved games.
    Server,
    /// Each player has a copy that only they can mutate, and which only
    /// affects their client.
    User,
    /// Not written to save files or sent across the network.
    NoSave,
    /// Not written to the configuration file.
    NoArchive,
    /// Can only be modified if the running game allows cheating.
    Cheat,
    /// Changes only take effect when starting a new game, unless made without
    /// using the console.
    Latch,
}

/// AST node corresponding to an optional CVar qualifier.
#[derive(Debug, Clone, Copy, PartialEq, Eq)]
pub struct Flag {
    pub span: Span,
    pub kind: FlagKind,
}

/// Mathematical image of a [`Flag`].
#[verifier::ext_equal]
pub struct FlagModel {
    pub span: SpanModel,
    pub kind: FlagKind,
}

impl View for Flag {
    type V = FlagModel;

    open spec fn view(&self) -> FlagModel {
        FlagModel { span: self.span@, kind: self.kind }
    }
}

/// The value type stored in a CVar.
#[derive(Debug, Clone, Copy, PartialEq, Eq, Structural)]
pub enum StorageType {
    Bool,
    Int,
    Float,
    String,
    Color,
}

/// AST node corresponding to a CVar's type specifier.
#[derive(Debug, Clone, Copy, PartialEq, Eq)]
pub struct TypeSpec {
    pub span: Span,
    pub storage_type: StorageType,
}

/// Mathematical image of a [`TypeSpec`].
#[verifier::ext_equal]
pub struct TypeModel {
    pub span: SpanModel,
    pub storage: StorageType,
}

impl View for TypeSpec {
    type V = TypeModel;

    open spec fn view(&self) -> TypeModel {
        TypeModel { span: self.span@, storage: self.storage_type }
    }
}

/// A literal attached to a declaration by `=`.
///
/// The declaration's storage type is not checked against the literal's shape;
/// the grammar tries the literal forms in a fixed order (boolean, then
/// floating-point, then integer, then color, then string) whatever the type
/// specifier said. A declaration without an initializer gets none of these:
/// the conventional fallbacks (`false`, `0`, `0.0`, the empty string, black)
/// are the consumer's to apply, never materialized here.
///
/// A floating-point literal is carried as its source text, digits and an
/// optional dot; its numeric reading is the consumer's concern, keeping this
/// tree exact.
#[derive(Debug, Clone, PartialEq)]
pub enum Value {
    /// Conventional fallback: `false`.
    Bool(bool),
    /// Conventional fallback: 0.
    Int(i32),
    /// Conventional fallback: 0.0.
    Float(String),
    /// Conventional fallback: the empty string.
    String(String),
    /// Conventional fallback: black, (0, 0, 0).
    Color { red: u8, green: u8, blue: u8 },
}

/// Mathematical image of a [`Value`]; the two textual payloads appear as the
/// byte sequences their strings encode to.
#[verifier::ext_equal]
pub enum ValueModel {
    Bool(bool),
    Int(int),
    Float(Seq<u8>),
    Str(Seq<u8>),
    Color { red: u8, green: u8, blue: u8 },
}

impl View for Value {
    type V = ValueModel;

    open spec fn view(&self) -> ValueModel {
        match self {
            Value::Bool(b) => ValueModel::Bool(*b),
            Value::Int(i) => ValueModel::Int(*i as int),
            Value::Float(t) => ValueModel::Float(vstd::utf8::encode_utf8(t@)),
            Value::String(t) => ValueModel::Str(vstd::utf8::encode_utf8(t@)),
            Value::Color { red, green, blue } => ValueModel::Color {
                red: *red,
                green: *green,
                blue: *blue,
            },
        }
    }
}

/// AST node corresponding to the optional default setting of a CVar.
#[derive(Debug, Clone, PartialEq)]
pub struct Initializer {
    pub span: Span,
    pub value: Value,
}

/// Mathematical image of an [`Initializer`].
#[verifier::ext_equal]
pub struct InitModel {
    pub span: SpanModel,
    pub value: ValueModel,
}

impl View for Initializer {
    type V = InitModel;

    open spec fn view(&self) -> InitModel {
        InitModel { span: self.span@, value: self.value@ }
    }
}

/// The AST node for a single CVar definition.
#[derive(Debug, Clone, PartialEq)]
pub struct CVar {
    pub span: Span,
    pub flags: Vec<Flag>,
    pub type_spec: TypeSpec,
    pub name: Identifier,
    pub init: Option<Initializer>,
}

/// Mathematical image of a [`CVar`].
#[verifier::ext_equal]
pub struct CVarModel {
    pub span: SpanModel,
    pub flags: Seq<FlagModel>,
    pub type_spec: TypeModel,
    pub name: crate::IdentModel,
    pub init: Option<InitModel>,
}

/// The models of a sequence of flags.
pub open spec fn flags_view(v: Seq<Flag>) -> Seq<FlagModel> {
    v.map(|x: int, f: Flag| f@)
}

/// The models of a sequence of declarations.
pub open spec fn cvars_view(v: Seq<CVar>) -> Seq<CVarModel> {
    v.map(|x: int, cv: CVar| cv@)
}

impl View for CVar {
    type V = CVarModel;

    open spec fn view(&self) -> CVarModel {
        CVarModel {
            span: self.span@,
            flags: flags_view(self.flags@),
            type_spec: self.type_spec@,
            name: self.name@,
            init: match self.init {
                Some(ini) => Some(ini@),
                None => None,
            },
        }
    }
}

/// The top of a CVARINFO abstract syntax tree: the declarations in source
/// order.
#[derive(Debug, Clone, PartialEq)]
pub struct CVarInfo(pub Vec<CVar>);

impl View for CVarInfo {
    type V = Seq<CVarModel>;

    open spec fn view(&self) -> Seq<CVarModel> {
        cvars_view(self.0@)
    }
}

impl CVarInfo {
    /// Parse one CVARINFO lump in a single pass, interning every identifier
    /// through `interner`.
    ///
    /// The grammar is all-or-nothing: the whole input must consist of
    /// declarations amid whitespace and comments, and the first position at
    /// which no grammar alternative matches fails the entire parse — no
    /// partial tree is ever returned. Exactly the inputs accepted by the
    /// grammar function [`grammar::lump_at`] produce `Ok`, and the tree and
    /// the interner's new contents are exactly the ones it describes, so the
    /// parse is a pure function of the source text and the interner's prior
    /// contents. Interning done before a failure is kept: only the tree is
    /// withheld, never the interner's entries.
    pub fn parse(input: &str, interner: &mut Interner) -> (r: Result<CVarInfo, ParseError>)
        requires
            old(interner).wf(),
        ensures
            final(interner).wf(),
            old(interner)@.is_prefix_of(final(interner)@),
            match r {
                Ok(cvi) => grammar::lump_at(input.spec_bytes(), old(interner)@) == Some(
                    (cvi@, final(interner)@),
                ),
                Err(e) => grammar::lump_at(input.spec_bytes(), old(interner)@) is None && e
                    == grammar::defs_err(input.spec_bytes(), 0, old(interner)@) && e.offset
                    <= input.spec_bytes().len(),
            },
    {
        proof {
            vstd::utf8::encode_utf8_valid_utf8(input@);
        }
        let s = input.as_bytes();
        match grammar::lump(s, interner) {
            Ok(defs) => Ok(CVarInfo(defs)),
            Err(e) => Err(e),
        }
    }
}

/// Parsing is deterministic: the outcome — acceptance, the tree, and the final
/// interner contents — is a pure function of the source text and the
/// interner's prior contents, so parsing equal text twice against interners
/// holding equal contents (in particular, fresh ones) yields equal trees whose
/// identifiers resolve to equal text.
pub proof fn lemma_parse_deterministic(
    s1: Seq<u8>,
    s2: Seq<u8>,
    t1: Seq<Seq<u8>>,
    t2: Seq<Seq<u8>>,
)
    requires
        s1 == s2,
        t1 == t2,
    ensures
        grammar::lump_at(s1, t1) == grammar::lump_at(s2, t2),
{
}

} // verus!
