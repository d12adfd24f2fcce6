//! The CVARINFO grammar engine: an ordered-choice recursive-descent parser
//! over the source text's UTF-8 bytes.
//!
//! Every grammar rule exists twice: as a specification function over `Seq<u8>`
//! saying exactly which bytes the rule consumes and what it yields, and as an
//! executable function proved to return exactly that. Positions are byte
//! offsets; each alternative of a choice is tried strictly in declared order
//! and the first full match commits.

use vstd::prelude::*;
use vstd::slice::{slice_index_get, slice_subrange};
use vstd::utf8::{
    decode_utf8, decode_utf8_encode_utf8, is_char_boundary_iff_not_is_continuation_byte,
    is_continuation_byte, is_leading_byte_width_1, length_of_first_scalar, pop_first_scalar,
    valid_first_scalar, valid_utf8, valid_utf8_split,
};

use crate::cvarinfo::{
    cvars_view, flags_view, CVar, CVarModel, Flag, FlagKind, FlagModel, InitModel, Initializer,
    StorageType, TypeModel, TypeSpec, Value, ValueModel,
};
use crate::interner::{intern_index, intern_table, Interner};
use crate::{Expected, IdentModel, Identifier, ParseError, Span, SpanModel};

verus! {

/// Byte values of the ASCII characters the grammar singles out.
pub const B_SPACE: u8 = 32;

pub const B_TAB: u8 = 9;

pub const B_CR: u8 = 13;

pub const B_NL: u8 = 10;

pub const B_SLASH: u8 = 47;

pub const B_BANG: u8 = 33;

pub const B_STAR: u8 = 42;

pub const B_QUOTE: u8 = 34;

pub const B_BSLASH: u8 = 92;

pub const B_SEMI: u8 = 59;

pub const B_EQ: u8 = 61;

pub const B_DOT: u8 = 46;

pub const B_USCORE: u8 = 95;

pub const B_D0: u8 = 48;

pub const B_D9: u8 = 57;

pub const B_UA: u8 = 65;

pub const B_UF: u8 = 70;

pub const B_UZ: u8 = 90;

pub const B_LA: u8 = 97;

pub const B_LF: u8 = 102;

pub const B_LZ: u8 = 122;


// ---------------------------------------------------------------------------
// Bytes, case folding
// ---------------------------------------------------------------------------
/// ASCII lower-casing of one byte; other bytes are untouched.
pub open spec fn lo(b: u8) -> u8 {
    if B_UA <= b && b <= B_UZ {
        (b + 32) as u8
    } else {
        b
    }
}

fn lob(b: u8) -> (r: u8)
    ensures
        r == lo(b),
{
    if B_UA <= b && b <= B_UZ {
        b + 32
    } else {
        b
    }
}

pub open spec fn is_ws_byte(b: u8) -> bool {
    b == B_SPACE || b == B_NL || b == B_CR || b == B_TAB
}

pub open spec fn is_digit(b: u8) -> bool {
    B_D0 <= b && b <= B_D9
}

pub open spec fn is_hex_digit(b: u8) -> bool {
    is_digit(b) || (B_LA <= b && b <= B_LF) || (B_UA <= b && b <= B_UF)
}

pub open spec fn hex_val(b: u8) -> int {
    if is_digit(b) {
        b - B_D0
    } else if B_LA <= b && b <= B_LF {
        b - B_LA + 10
    } else {
        b - B_UA + 10
    }
}

pub open spec fn is_ident_start(b: u8) -> bool {
    (B_LA <= b && b <= B_LZ) || (B_UA <= b && b <= B_UZ)
}

pub open spec fn is_ident_part(b: u8) -> bool {
    is_ident_start(b) || is_digit(b) || b == B_USCORE
}

// ---------------------------------------------------------------------------
// Whitespace and comments
// ---------------------------------------------------------------------------
/// Position of the next newline at or after `i`, or the end of input.
pub open spec fn skip_to_nl(s: Seq<u8>, i: int) -> int
    decreases s.len() - i,
{
    if 0 <= i < s.len() && s[i] != B_NL {
        skip_to_nl(s, i + 1)
    } else {
        i
    }
}

/// End position of a line comment starting at `i`, if one starts there.
///
/// After the opening `//`, either any byte other than `/` and `!` follows (a
/// newline included, which the comment then swallows) or the exact two bytes
/// `//` follow, and the comment runs up to the next newline without consuming
/// it; failing both, the comment is the bare two bytes `//`. A third slash or
/// a `!` right after `//` therefore ends the comment at once, leaving bytes
/// behind that no rule accepts.
pub open spec fn line_comment_end(s: Seq<u8>, i: int) -> Option<int> {
    if 0 <= i && i + 2 <= s.len() && s[i] == B_SLASH && s[i + 1] == B_SLASH {
        let j = i + 2;
        if j < s.len() && s[j] != B_SLASH && s[j] != B_BANG {
            Some(skip_to_nl(s, j + 1))
        } else if j + 2 <= s.len() && s[j] == B_SLASH && s[j + 1] == B_SLASH {
            Some(skip_to_nl(s, j + 2))
        } else {
            Some(j)
        }
    } else {
        None
    }
}

/// End position of the first `*/` at or after `i`, if any.
pub open spec fn block_close(s: Seq<u8>, i: int) -> Option<int>
    decreases s.len() - i,
{
    if 0 <= i && i + 2 <= s.len() && s[i] == B_STAR && s[i + 1] == B_SLASH {
        Some(i + 2)
    } else if 0 <= i < s.len() {
        block_close(s, i + 1)
    } else {
        None
    }
}

/// End position of a `/* ... */` block comment starting at `i`, if one starts
/// there; an unterminated opening is no comment at all.
pub open spec fn block_comment_end(s: Seq<u8>, i: int) -> Option<int> {
    if 0 <= i && i + 2 <= s.len() && s[i] == B_SLASH && s[i + 1] == B_STAR {
        block_close(s, i + 2)
    } else {
        None
    }
}

/// End position of one whitespace item at `i`: a single blank byte, a line
/// comment, or a block comment, tried in that order.
pub open spec fn ws_item_end(s: Seq<u8>, i: int) -> Option<int> {
    if 0 <= i < s.len() && is_ws_byte(s[i]) {
        Some(i + 1)
    } else {
        match line_comment_end(s, i) {
            Some(j) => Some(j),
            None => block_comment_end(s, i),
        }
    }
}

/// Position after greedily consuming whitespace and comments from `i`. This
/// never fails: zero items are acceptable.
///
/// The bounds test only justifies the termination measure: a whitespace item
/// always ends past its start and within the input, so the untaken branch is
/// never reached.
pub open spec fn skip_ws(s: Seq<u8>, i: int) -> int
    decreases s.len() - i,
{
    match ws_item_end(s, i) {
        Some(j) => if i < j && j <= s.len() {
            skip_ws(s, j)
        } else {
            i
        },
        None => i,
    }
}

proof fn lemma_skip_to_nl(s: Seq<u8>, i: int)
    requires
        0 <= i <= s.len(),
    ensures
        i <= skip_to_nl(s, i) <= s.len(),
    decreases s.len() - i,
{
    if i < s.len() && s[i] != B_NL {
        lemma_skip_to_nl(s, i + 1);
    }
}

proof fn lemma_block_close(s: Seq<u8>, i: int)
    requires
        0 <= i <= s.len(),
    ensures
        match block_close(s, i) {
            Some(j) => i + 2 <= j <= s.len(),
            None => true,
        },
    decreases s.len() - i,
{
    if !(i + 2 <= s.len() && s[i] == B_STAR && s[i + 1] == B_SLASH) && i < s.len() {
        lemma_block_close(s, i + 1);
    }
}

proof fn lemma_ws_item_end(s: Seq<u8>, i: int)
    requires
        0 <= i <= s.len(),
    ensures
        match ws_item_end(s, i) {
            Some(j) => i < j <= s.len(),
            None => true,
        },
{
    if i + 2 <= s.len() && s[i] == B_SLASH && s[i + 1] == B_SLASH {
        if i + 2 < s.len() {
            lemma_skip_to_nl(s, i + 3);
        }
        if i + 4 <= s.len() {
            lemma_skip_to_nl(s, i + 4);
        }
    }
    if i + 2 <= s.len() && s[i] == B_SLASH && s[i + 1] == B_STAR {
        lemma_block_close(s, i + 2);
    }
}

proof fn lemma_skip_ws(s: Seq<u8>, i: int)
    requires
        0 <= i <= s.len(),
    ensures
        i <= skip_ws(s, i) <= s.len(),
    decreases s.len() - i,
{
    lemma_ws_item_end(s, i);
    match ws_item_end(s, i) {
        Some(j) => lemma_skip_ws(s, j),
        None => {},
    }
}

// ---------------------------------------------------------------------------
// Keywords
// ---------------------------------------------------------------------------
/// The keyword spelled by a flag qualifier, in lower case.
pub open spec fn flag_keyword(k: FlagKind) -> Seq<u8> {
    match k {
        FlagKind::Server => seq![115, 101, 114, 118, 101, 114],
        FlagKind::User => seq![117, 115, 101, 114],
        FlagKind::NoSave => seq![110, 111, 115, 97, 118, 101],
        FlagKind::NoArchive => seq![110, 111, 97, 114, 99, 104, 105, 118, 101],
        FlagKind::Cheat => seq![99, 104, 101, 97, 116],
        FlagKind::Latch => seq![108, 97, 116, 99, 104],
    }
}

/// The keyword spelled by a type specifier, in lower case.
pub open spec fn type_keyword(t: StorageType) -> Seq<u8> {
    match t {
        StorageType::Int => seq![105, 110, 116],
        StorageType::Float => seq![102, 108, 111, 97, 116],
        StorageType::Color => seq![99, 111, 108, 111, 114],
        StorageType::Bool => seq![98, 111, 111, 108],
        StorageType::String => seq![115, 116, 114, 105, 110, 103],
    }
}

pub open spec fn kw_true() -> Seq<u8> {
    seq![116, 114, 117, 101]
}

pub open spec fn kw_false() -> Seq<u8> {
    seq![102, 97, 108, 115, 101]
}

/// Case-insensitive match of the keyword `kw` against the bytes of `s`
/// starting at `i`: exactly `kw.len()` bytes are consumed, whatever their
/// case, and nothing constrains the byte that follows them.
pub open spec fn kw_at(s: Seq<u8>, i: int, kw: Seq<u8>) -> bool {
    &&& 0 <= i
    &&& i + kw.len() <= s.len()
    &&& forall|t: int| 0 <= t < kw.len() ==> lo(s[i + t]) == kw[t]
}

/// The flag qualifier starting at `i` and its end position, trying the six
/// keywords in declared order. No two can match at once: none is a prefix of
/// another.
pub open spec fn flag_kind_at(s: Seq<u8>, i: int) -> Option<(FlagKind, int)> {
    if kw_at(s, i, flag_keyword(FlagKind::Server)) {
        Some((FlagKind::Server, i + 6))
    } else if kw_at(s, i, flag_keyword(FlagKind::User)) {
        Some((FlagKind::User, i + 4))
    } else if kw_at(s, i, flag_keyword(FlagKind::NoSave)) {
        Some((FlagKind::NoSave, i + 6))
    } else if kw_at(s, i, flag_keyword(FlagKind::NoArchive)) {
        Some((FlagKind::NoArchive, i + 9))
    } else if kw_at(s, i, flag_keyword(FlagKind::Cheat)) {
        Some((FlagKind::Cheat, i + 5))
    } else if kw_at(s, i, flag_keyword(FlagKind::Latch)) {
        Some((FlagKind::Latch, i + 5))
    } else {
        None
    }
}

/// The type specifier starting at `i` and its end position, trying the five
/// keywords in declared order.
pub open spec fn storage_at(s: Seq<u8>, i: int) -> Option<(StorageType, int)> {
    if kw_at(s, i, type_keyword(StorageType::Int)) {
        Some((StorageType::Int, i + 3))
    } else if kw_at(s, i, type_keyword(StorageType::Float)) {
        Some((StorageType::Float, i + 5))
    } else if kw_at(s, i, type_keyword(StorageType::Color)) {
        Some((StorageType::Color, i + 5))
    } else if kw_at(s, i, type_keyword(StorageType::Bool)) {
        Some((StorageType::Bool, i + 4))
    } else if kw_at(s, i, type_keyword(StorageType::String)) {
        Some((StorageType::String, i + 6))
    } else {
        None
    }
}

// ---------------------------------------------------------------------------
// Identifiers and numbers
// ---------------------------------------------------------------------------
/// End of the run of identifier-continuation bytes starting at `i`.
pub open spec fn ident_end(s: Seq<u8>, i: int) -> int
    decreases s.len() - i,
{
    if 0 <= i < s.len() && is_ident_part(s[i]) {
        ident_end(s, i + 1)
    } else {
        i
    }
}

/// End position of an identifier starting at `i`: an ASCII letter, then
/// letters, digits or underscores. No leading digit or underscore.
pub open spec fn ident_at(s: Seq<u8>, i: int) -> Option<int> {
    if 0 <= i < s.len() && is_ident_start(s[i]) {
        Some(ident_end(s, i + 1))
    } else {
        None
    }
}

/// End of the run of decimal digits starting at `i`.
pub open spec fn digits_end(s: Seq<u8>, i: int) -> int
    decreases s.len() - i,
{
    if 0 <= i < s.len() && is_digit(s[i]) {
        digits_end(s, i + 1)
    } else {
        i
    }
}

/// End position of a nonempty digit run starting at `i`.
pub open spec fn num_at(s: Seq<u8>, i: int) -> Option<int> {
    if 0 <= i < s.len() && is_digit(s[i]) {
        Some(digits_end(s, i + 1))
    } else {
        None
    }
}

/// Numeric value of a digit string.
pub open spec fn dec_val(t: Seq<u8>) -> int
    decreases t.len(),
{
    if t.len() == 0 {
        0
    } else {
        dec_val(t.drop_last()) * 10 + (t.last() - B_D0)
    }
}

/// End position of a floating-point literal at `i`: digits then `.` then
/// digits, or digits then a trailing `.`, or bare digits, tried in that order.
/// No sign character is accepted.
pub open spec fn float_end(s: Seq<u8>, i: int) -> Option<int> {
    match num_at(s, i) {
        Some(e1) => if e1 < s.len() && s[e1] == B_DOT {
            match num_at(s, e1 + 1) {
                Some(e2) => Some(e2),
                None => Some(e1 + 1),
            }
        } else {
            Some(e1)
        },
        None => None,
    }
}

// ---------------------------------------------------------------------------
// Literals
// ---------------------------------------------------------------------------
/// A `true`/`false` literal at `i`, case-insensitively.
pub open spec fn bool_at(s: Seq<u8>, i: int) -> Option<(ValueModel, int)> {
    if kw_at(s, i, kw_true()) {
        Some((ValueModel::Bool(true), i + 4))
    } else if kw_at(s, i, kw_false()) {
        Some((ValueModel::Bool(false), i + 5))
    } else {
        None
    }
}

/// An unsigned decimal integer literal at `i`; a digit run whose value
/// exceeds the 32-bit signed range is a failure of this alternative, not a
/// wraparound.
pub open spec fn int_at(s: Seq<u8>, i: int) -> Option<(ValueModel, int)> {
    match num_at(s, i) {
        Some(e) => if dec_val(s.subrange(i, e)) <= 0x7fffffff {
            Some((ValueModel::Int(dec_val(s.subrange(i, e))), e))
        } else {
            None
        },
        None => None,
    }
}

/// The value of the two hexadecimal digits at `p`.
pub open spec fn hex_pair(s: Seq<u8>, p: int) -> u8 {
    (hex_val(s[p]) * 16 + hex_val(s[p + 1])) as u8
}

/// A color literal at `i`: a quoted string of exactly three 2-digit
/// case-insensitive hexadecimal groups, with whitespace and comments permitted
/// between the groups.
pub open spec fn color_at(s: Seq<u8>, i: int) -> Option<(ValueModel, int)> {
    if 0 <= i < s.len() && s[i] == B_QUOTE {
        let p = i + 1;
        if p + 2 <= s.len() && is_hex_digit(s[p]) && is_hex_digit(s[p + 1]) {
            let q = skip_ws(s, p + 2);
            if 0 <= q && q + 2 <= s.len() && is_hex_digit(s[q]) && is_hex_digit(s[q + 1]) {
                let t = skip_ws(s, q + 2);
                if 0 <= t && t + 2 <= s.len() && is_hex_digit(s[t]) && is_hex_digit(s[t + 1]) {
                    if t + 2 < s.len() && s[t + 2] == B_QUOTE {
                        Some(
                            (
                                ValueModel::Color {
                                    red: hex_pair(s, p),
                                    green: hex_pair(s, q),
                                    blue: hex_pair(s, t),
                                },
                                t + 3,
                            ),
                        )
                    } else {
                        None
                    }
                } else {
                    None
                }
            } else {
                None
            }
        } else {
            None
        }
    } else {
        None
    }
}

/// End of the run of bytes at `i` that may appear inside a string literal:
/// anything but a quote or a backslash. There is no escape mechanism.
pub open spec fn strbody_end(s: Seq<u8>, i: int) -> int
    decreases s.len() - i,
{
    if 0 <= i < s.len() && s[i] != B_QUOTE && s[i] != B_BSLASH {
        strbody_end(s, i + 1)
    } else {
        i
    }
}

/// A string literal at `i`: a nonempty quoted run free of quotes and
/// backslashes, not beginning with a carriage return that lacks a following
/// newline.
pub open spec fn string_at(s: Seq<u8>, i: int) -> Option<(ValueModel, int)> {
    if 0 <= i < s.len() && s[i] == B_QUOTE {
        let j = i + 1;
        if j < s.len() && s[j] == B_CR && j + 1 < s.len() && s[j + 1] != B_NL {
            None
        } else {
            let k = strbody_end(s, j);
            if k > j && k < s.len() && s[k] == B_QUOTE {
                Some((ValueModel::Str(s.subrange(j, k)), k + 1))
            } else {
                None
            }
        }
    } else {
        None
    }
}

/// The literal at `i`, trying boolean, floating-point, integer, color and
/// string forms in that order. The order is load-bearing: the floating-point
/// form accepts every shape the integer form accepts (a bare digit run
/// included), so the integer alternative is reachable only through this
/// declared order, and a bare digit run is carried as a floating-point
/// literal.
pub open spec fn literal_at(s: Seq<u8>, i: int) -> Option<(ValueModel, int)> {
    match bool_at(s, i) {
        Some(r) => Some(r),
        None => match float_end(s, i) {
            Some(e) => Some((ValueModel::Float(s.subrange(i, e)), e)),
            None => match int_at(s, i) {
                Some(r) => Some(r),
                None => match color_at(s, i) {
                    Some(r) => Some(r),
                    None => string_at(s, i),
                },
            },
        },
    }
}

/// An initializer at `i`: `=`, then whitespace or comments, then a literal.
pub open spec fn init_at(s: Seq<u8>, i: int) -> Option<(InitModel, int)> {
    if 0 <= i < s.len() && s[i] == B_EQ {
        let j = skip_ws(s, i + 1);
        match literal_at(s, j) {
            Some((v, k)) => Some(
                (InitModel { span: SpanModel { start: i, end: k }, value: v }, k),
            ),
            None => None,
        }
    } else {
        None
    }
}

// ---------------------------------------------------------------------------
// Declarations
// ---------------------------------------------------------------------------
/// Flags after the first one: from the end `p` of the last flag taken, skip
/// whitespace and take another flag if one is there; when none is, the
/// whitespace is handed back (position stays `p`). The two bounds tests only
/// justify the termination measure and are never false.
pub open spec fn flags_cont(s: Seq<u8>, p: int, acc: Seq<FlagModel>) -> (Seq<FlagModel>, int)
    decreases s.len() - p,
{
    let q = skip_ws(s, p);
    if p <= q <= s.len() {
        match flag_kind_at(s, q) {
            Some((k, p2)) => if q < p2 && p2 <= s.len() {
                flags_cont(s, p2, acc.push(FlagModel { span: SpanModel { start: q, end: p2 }, kind: k }))
            } else {
                (acc, p)
            },
            None => (acc, p),
        }
    } else {
        (acc, p)
    }
}

/// Zero or more whitespace-separated flags starting exactly at `i`, and the
/// end of the last one taken (or `i` when there is none).
pub open spec fn flags_at(s: Seq<u8>, i: int) -> (Seq<FlagModel>, int) {
    match flag_kind_at(s, i) {
        Some((k, p)) => flags_cont(
            s,
            p,
            seq![FlagModel { span: SpanModel { start: i, end: p }, kind: k }],
        ),
        None => (Seq::empty(), i),
    }
}

/// One whole declaration starting at `i` against an interner holding `tbl`:
/// flags, a type specifier, a name (interned), an optional initializer, and
/// the terminating semicolon, with whitespace and comments between all parts.
/// Yields the declaration's model, the position after its semicolon, and the
/// interner contents after interning the name.
pub open spec fn definition_at(s: Seq<u8>, i: int, tbl: Seq<Seq<u8>>) -> Option<
    (CVarModel, int, Seq<Seq<u8>>),
> {
    let fp = flags_at(s, i);
    let p2 = skip_ws(s, fp.1);
    match storage_at(s, p2) {
        Some((st, p3)) => {
            let p4 = skip_ws(s, p3);
            match ident_at(s, p4) {
                Some(p5) => {
                    let text = s.subrange(p4, p5);
                    let p6 = skip_ws(s, p5);
                    let ip = match init_at(s, p6) {
                        Some((im, k)) => (Some(im), k),
                        None => (None::<InitModel>, p6),
                    };
                    let p8 = skip_ws(s, ip.1);
                    if 0 <= p8 < s.len() && s[p8] == B_SEMI {
                        Some(
                            (
                                CVarModel {
                                    span: SpanModel { start: i, end: p8 + 1 },
                                    flags: fp.0,
                                    type_spec: TypeModel {
                                        span: SpanModel { start: p2, end: p3 },
                                        storage: st,
                                    },
                                    name: IdentModel {
                                        span: SpanModel { start: p4, end: p5 },
                                        index: intern_index(tbl, text),
                                    },
                                    init: ip.0,
                                },
                                p8 + 1,
                                intern_table(tbl, text),
                            ),
                        )
                    } else {
                        None
                    }
                },
                None => None,
            }
        },
        None => None,
    }
}

/// Declarations after position `p`: skip whitespace; at the end of input the
/// accumulated declarations stand, otherwise another whole declaration must
/// follow — anything else rejects the entire input. The two bounds tests only
/// justify the termination measure and are never false.
pub open spec fn defs_cont(s: Seq<u8>, p: int, acc: Seq<CVarModel>, tbl: Seq<Seq<u8>>) -> Option<
    (Seq<CVarModel>, Seq<Seq<u8>>),
>
    decreases s.len() - p,
{
    let q = skip_ws(s, p);
    if q == s.len() {
        Some((acc, tbl))
    } else if p <= q < s.len() {
        match definition_at(s, q, tbl) {
            Some((cv, p2, tbl2)) => if q < p2 && p2 <= s.len() {
                defs_cont(s, p2, acc.push(cv), tbl2)
            } else {
                None
            },
            None => None,
        }
    } else {
        None
    }
}

/// A whole CVARINFO lump against an interner holding `tbl`: optional leading
/// whitespace and comments, declarations separated by whitespace and comments,
/// optional trailing whitespace and comments, and nothing else — the entire
/// input must be consumed. Yields the declarations in source order and the
/// final interner contents, or nothing when any part fails.
pub open spec fn lump_at(s: Seq<u8>, tbl: Seq<Seq<u8>>) -> Option<(Seq<CVarModel>, Seq<Seq<u8>>)> {
    defs_cont(s, 0, Seq::empty(), tbl)
}


/// The error a failing declaration at `i` reports: the first of its parts
/// that cannot match, at the position where it was required.
pub open spec fn definition_err(s: Seq<u8>, i: int) -> ParseError {
    let fp = flags_at(s, i);
    let p2 = skip_ws(s, fp.1);
    match storage_at(s, p2) {
        None => ParseError { offset: p2 as usize, expected: Expected::TypeSpecifier },
        Some((st, p3)) => {
            let p4 = skip_ws(s, p3);
            match ident_at(s, p4) {
                None => ParseError { offset: p4 as usize, expected: Expected::Identifier },
                Some(p5) => {
                    let p6 = skip_ws(s, p5);
                    let p7 = match init_at(s, p6) {
                        Some((im, k)) => k,
                        None => p6,
                    };
                    let p8 = skip_ws(s, p7);
                    ParseError { offset: p8 as usize, expected: Expected::Semicolon }
                },
            }
        },
    }
}

/// The error a failing lump reports: that of the first declaration that
/// cannot match. Meaningful only where [`defs_cont`] from the same state
/// fails; along any other path its value is never consulted.
pub open spec fn defs_err(s: Seq<u8>, p: int, tbl: Seq<Seq<u8>>) -> ParseError
    decreases s.len() - p,
{
    let q = skip_ws(s, p);
    if q == s.len() {
        ParseError { offset: q as usize, expected: Expected::Semicolon }
    } else if p <= q < s.len() {
        match definition_at(s, q, tbl) {
            Some((cv, p2, tbl2)) => if q < p2 && p2 <= s.len() {
                defs_err(s, p2, tbl2)
            } else {
                ParseError { offset: q as usize, expected: Expected::Semicolon }
            },
            None => definition_err(s, q),
        }
    } else {
        ParseError { offset: q as usize, expected: Expected::Semicolon }
    }
}

// ---------------------------------------------------------------------------
// The executable parser, rule by rule
// ---------------------------------------------------------------------------
/// Relies on `String::from_utf8_lossy`: bytes that are valid UTF-8 decode to
/// exactly the text they encode.
#[verifier::external_body]
fn string_from_utf8(b: &[u8]) -> (r: String)
    ensures
        valid_utf8(b@) ==> r@ == decode_utf8(b@),
{
    String::from_utf8_lossy(b).into_owned()
}

/// An all-ASCII byte sequence is valid UTF-8.
proof fn lemma_ascii_valid_utf8(b: Seq<u8>)
    requires
        forall|k: int| 0 <= k < b.len() ==> b[k] < 0x80,
    ensures
        valid_utf8(b),
    decreases b.len(),
{
    if b.len() > 0 {
        assert(is_leading_byte_width_1(b[0]));
        assert(valid_first_scalar(b));
        assert(length_of_first_scalar(b) == 1);
        assert(pop_first_scalar(b) =~= b.drop_first());
        lemma_ascii_valid_utf8(b.drop_first());
    }
}

/// The bytes strictly between two ASCII bytes of a valid UTF-8 sequence are
/// themselves valid UTF-8.
proof fn lemma_quoted_inner_valid(s: Seq<u8>, i: int, k: int)
    requires
        valid_utf8(s),
        0 <= i < k < s.len(),
        s[i] < 0x80,
        s[k] < 0x80,
    ensures
        valid_utf8(s.subrange(i + 1, k)),
{
    assert(!is_continuation_byte(s[k]));
    is_char_boundary_iff_not_is_continuation_byte(s, k);
    valid_utf8_split(s, k);
    let left = s.subrange(0, k);
    assert(valid_utf8(left));
    assert(left[i] == s[i]);
    assert(!is_continuation_byte(left[i]));
    is_char_boundary_iff_not_is_continuation_byte(left, i);
    valid_utf8_split(left, i);
    let tail = left.subrange(i, k);
    assert(valid_utf8(tail));
    assert(tail[0] == s[i]);
    assert(is_leading_byte_width_1(tail[0]));
    assert(length_of_first_scalar(tail) == 1);
    assert(pop_first_scalar(tail) =~= s.subrange(i + 1, k));
}

/// The byte at position `i`.
fn at(s: &[u8], i: usize) -> (b: u8)
    requires
        i < s@.len(),
    ensures
        b == s@[i as int],
{
    *slice_index_get(s, i)
}

fn p_skip_to_nl(s: &[u8], i: usize) -> (r: usize)
    requires
        i <= s@.len(),
    ensures
        r == skip_to_nl(s@, i as int),
        i <= r <= s@.len(),
{
    let mut j = i;
    while j < s.len() && at(s, j) != B_NL
        invariant
            i <= j <= s@.len(),
            skip_to_nl(s@, i as int) == skip_to_nl(s@, j as int),
        decreases s@.len() - j,
    {
        j = j + 1;
    }
    j
}

fn p_block_close(s: &[u8], i: usize) -> (r: Option<usize>)
    requires
        i <= s@.len(),
    ensures
        match r {
            Some(j) => block_close(s@, i as int) == Some(j as int) && i < j <= s@.len(),
            None => block_close(s@, i as int) is None,
        },
{
    proof {
        lemma_block_close(s@, i as int);
    }
    let mut j = i;
    loop
        invariant
            i <= j <= s@.len(),
            block_close(s@, i as int) == block_close(s@, j as int),
        decreases s@.len() - j,
    {
        if s.len() - j >= 2 && at(s, j) == B_STAR && at(s, j + 1) == B_SLASH {
            proof {
                lemma_block_close(s@, i as int);
            }
            return Some(j + 2);
        } else if j < s.len() {
            j = j + 1;
        } else {
            return None;
        }
    }
}

fn p_ws_item(s: &[u8], i: usize) -> (r: Option<usize>)
    requires
        i <= s@.len(),
    ensures
        match r {
            Some(j) => ws_item_end(s@, i as int) == Some(j as int) && i < j <= s@.len(),
            None => ws_item_end(s@, i as int) is None,
        },
{
    if i < s.len() {
        let b = at(s, i);
        if b == B_SPACE || b == B_NL || b == B_CR || b == B_TAB {
            return Some(i + 1);
        }
    }
    if s.len() - i >= 2 && at(s, i) == B_SLASH && at(s, i + 1) == B_SLASH {
        let j = i + 2;
        if j < s.len() && at(s, j) != B_SLASH && at(s, j) != B_BANG {
            return Some(p_skip_to_nl(s, j + 1));
        } else if s.len() - j >= 2 && at(s, j) == B_SLASH && at(s, j + 1) == B_SLASH {
            return Some(p_skip_to_nl(s, j + 2));
        } else {
            return Some(j);
        }
    }
    if s.len() - i >= 2 && at(s, i) == B_SLASH && at(s, i + 1) == B_STAR {
        return p_block_close(s, i + 2);
    }
    None
}

fn p_skip_ws(s: &[u8], i: usize) -> (r: usize)
    requires
        i <= s@.len(),
    ensures
        r == skip_ws(s@, i as int),
        i <= r <= s@.len(),
{
    let mut j = i;
    loop
        invariant
            i <= j <= s@.len(),
            skip_ws(s@, i as int) == skip_ws(s@, j as int),
        decreases s@.len() - j,
    {
        match p_ws_item(s, j) {
            Some(k) => {
                j = k;
            },
            None => {
                return j;
            },
        }
    }
}

/// Case-insensitive comparison of the bytes at `i` against a keyword.
fn p_kw(s: &[u8], i: usize, kw: &Vec<u8>) -> (r: bool)
    requires
        i <= s@.len(),
    ensures
        r == kw_at(s@, i as int, kw@),
{
    let n = s.len();
    if n - i < kw.len() {
        return false;
    }
    let mut t: usize = 0;
    while t < kw.len()
        invariant
            0 <= t <= kw@.len(),
            n == s@.len(),
            i + kw@.len() <= n,
            forall|x: int| 0 <= x < t ==> lo(s@[i + x]) == kw@[x],
        decreases kw@.len() - t,
    {
        if lob(at(s, i + t)) != kw[t] {
            assert(lo(s@[i as int + t as int]) != kw@[t as int]);
            return false;
        }
        t = t + 1;
    }
    true
}

fn flag_keyword_vec(k: FlagKind) -> (v: Vec<u8>)
    ensures
        v@ == flag_keyword(k),
{
    let mut v: Vec<u8> = Vec::new();
    match k {
        FlagKind::Server => {
            v.push(115);
            v.push(101);
            v.push(114);
            v.push(118);
            v.push(101);
            v.push(114);
        },
        FlagKind::User => {
            v.push(117);
            v.push(115);
            v.push(101);
            v.push(114);
        },
        FlagKind::NoSave => {
            v.push(110);
            v.push(111);
            v.push(115);
            v.push(97);
            v.push(118);
            v.push(101);
        },
        FlagKind::NoArchive => {
            v.push(110);
            v.push(111);
            v.push(97);
            v.push(114);
            v.push(99);
            v.push(104);
            v.push(105);
            v.push(118);
            v.push(101);
        },
        FlagKind::Cheat => {
            v.push(99);
            v.push(104);
            v.push(101);
            v.push(97);
            v.push(116);
        },
        FlagKind::Latch => {
            v.push(108);
            v.push(97);
            v.push(116);
            v.push(99);
            v.push(104);
        },
    }
    proof {
        assert(v@ =~= flag_keyword(k));
    }
    v
}

fn type_keyword_vec(t: StorageType) -> (v: Vec<u8>)
    ensures
        v@ == type_keyword(t),
{
    let mut v: Vec<u8> = Vec::new();
    match t {
        StorageType::Int => {
            v.push(105);
            v.push(110);
            v.push(116);
        },
        StorageType::Float => {
            v.push(102);
            v.push(108);
            v.push(111);
            v.push(97);
            v.push(116);
        },
        StorageType::Color => {
            v.push(99);
            v.push(111);
            v.push(108);
            v.push(111);
            v.push(114);
        },
        StorageType::Bool => {
            v.push(98);
            v.push(111);
            v.push(111);
            v.push(108);
        },
        StorageType::String => {
            v.push(115);
            v.push(116);
            v.push(114);
            v.push(105);
            v.push(110);
            v.push(103);
        },
    }
    proof {
        assert(v@ =~= type_keyword(t));
    }
    v
}

fn p_flag_kind(s: &[u8], i: usize) -> (r: Option<(FlagKind, usize)>)
    requires
        i <= s@.len(),
    ensures
        match r {
            Some((k, p)) => flag_kind_at(s@, i as int) == Some((k, p as int)) && i < p <= s@.len(),
            None => flag_kind_at(s@, i as int) is None,
        },
{
    // binding the length keeps the keyword end positions provably in range
    let n = s.len();
    let kw = flag_keyword_vec(FlagKind::Server);
    if p_kw(s, i, &kw) {
        return Some((FlagKind::Server, i + 6));
    }
    let kw = flag_keyword_vec(FlagKind::User);
    if p_kw(s, i, &kw) {
        return Some((FlagKind::User, i + 4));
    }
    let kw = flag_keyword_vec(FlagKind::NoSave);
    if p_kw(s, i, &kw) {
        return Some((FlagKind::NoSave, i + 6));
    }
    let kw = flag_keyword_vec(FlagKind::NoArchive);
    if p_kw(s, i, &kw) {
        return Some((FlagKind::NoArchive, i + 9));
    }
    let kw = flag_keyword_vec(FlagKind::Cheat);
    if p_kw(s, i, &kw) {
        return Some((FlagKind::Cheat, i + 5));
    }
    let kw = flag_keyword_vec(FlagKind::Latch);
    if p_kw(s, i, &kw) {
        return Some((FlagKind::Latch, i + 5));
    }
    None
}

fn p_storage(s: &[u8], i: usize) -> (r: Option<(StorageType, usize)>)
    requires
        i <= s@.len(),
    ensures
        match r {
            Some((t, p)) => storage_at(s@, i as int) == Some((t, p as int)) && i < p <= s@.len(),
            None => storage_at(s@, i as int) is None,
        },
{
    // binding the length keeps the keyword end positions provably in range
    let n = s.len();
    let kw = type_keyword_vec(StorageType::Int);
    if p_kw(s, i, &kw) {
        return Some((StorageType::Int, i + 3));
    }
    let kw = type_keyword_vec(StorageType::Float);
    if p_kw(s, i, &kw) {
        return Some((StorageType::Float, i + 5));
    }
    let kw = type_keyword_vec(StorageType::Color);
    if p_kw(s, i, &kw) {
        return Some((StorageType::Color, i + 5));
    }
    let kw = type_keyword_vec(StorageType::Bool);
    if p_kw(s, i, &kw) {
        return Some((StorageType::Bool, i + 4));
    }
    let kw = type_keyword_vec(StorageType::String);
    if p_kw(s, i, &kw) {
        return Some((StorageType::String, i + 6));
    }
    None
}

fn p_ident_end(s: &[u8], i: usize) -> (r: usize)
    requires
        i <= s@.len(),
    ensures
        r == ident_end(s@, i as int),
        i <= r <= s@.len(),
{
    let mut j = i;
    loop
        invariant
            i <= j <= s@.len(),
            ident_end(s@, i as int) == ident_end(s@, j as int),
        decreases s@.len() - j,
    {
        if j < s.len() {
            let b = at(s, j);
            if (B_LA <= b && b <= B_LZ) || (B_UA <= b && b <= B_UZ) || (B_D0 <= b && b <= B_D9) || b
                == B_USCORE {
                j = j + 1;
                continue ;
            }
        }
        return j;
    }
}

fn p_ident(s: &[u8], i: usize) -> (r: Option<usize>)
    requires
        i <= s@.len(),
    ensures
        match r {
            Some(e) => ident_at(s@, i as int) == Some(e as int) && i < e <= s@.len(),
            None => ident_at(s@, i as int) is None,
        },
{
    if i < s.len() {
        let b = at(s, i);
        if (B_LA <= b && b <= B_LZ) || (B_UA <= b && b <= B_UZ) {
            return Some(p_ident_end(s, i + 1));
        }
    }
    None
}

fn p_digits_end(s: &[u8], i: usize) -> (r: usize)
    requires
        i <= s@.len(),
    ensures
        r == digits_end(s@, i as int),
        i <= r <= s@.len(),
{
    let mut j = i;
    loop
        invariant
            i <= j <= s@.len(),
            digits_end(s@, i as int) == digits_end(s@, j as int),
        decreases s@.len() - j,
    {
        if j < s.len() {
            let b = at(s, j);
            if B_D0 <= b && b <= B_D9 {
                j = j + 1;
                continue ;
            }
        }
        return j;
    }
}

fn p_num(s: &[u8], i: usize) -> (r: Option<usize>)
    requires
        i <= s@.len(),
    ensures
        match r {
            Some(e) => num_at(s@, i as int) == Some(e as int) && i < e <= s@.len(),
            None => num_at(s@, i as int) is None,
        },
{
    if i < s.len() {
        let b = at(s, i);
        if B_D0 <= b && b <= B_D9 {
            return Some(p_digits_end(s, i + 1));
        }
    }
    None
}

fn p_bool(s: &[u8], i: usize) -> (r: Option<(Value, usize)>)
    requires
        i <= s@.len(),
    ensures
        match r {
            Some((v, k)) => bool_at(s@, i as int) == Some((v@, k as int)) && i < k <= s@.len(),
            None => bool_at(s@, i as int) is None,
        },
{
    // binding the length keeps the keyword end positions provably in range
    let n = s.len();
    let mut kw: Vec<u8> = Vec::new();
    kw.push(116);
    kw.push(114);
    kw.push(117);
    kw.push(101);
    proof {
        assert(kw@ =~= kw_true());
    }
    if p_kw(s, i, &kw) {
        return Some((Value::Bool(true), i + 4));
    }
    let mut kw: Vec<u8> = Vec::new();
    kw.push(102);
    kw.push(97);
    kw.push(108);
    kw.push(115);
    kw.push(101);
    proof {
        assert(kw@ =~= kw_false());
    }
    if p_kw(s, i, &kw) {
        return Some((Value::Bool(false), i + 5));
    }
    None
}

proof fn lemma_digits_range(s: Seq<u8>, i: int)
    requires
        0 <= i <= s.len(),
    ensures
        forall|k: int| i <= k < digits_end(s, i) ==> is_digit(s[k]),
        i <= digits_end(s, i) <= s.len(),
    decreases s.len() - i,
{
    if i < s.len() && is_digit(s[i]) {
        lemma_digits_range(s, i + 1);
    }
}

/// The text of a floating-point literal is all ASCII, hence valid UTF-8.
proof fn lemma_float_text(s: Seq<u8>, i: int, e: int)
    requires
        0 <= i <= s.len(),
        float_end(s, i) == Some(e),
    ensures
        i < e <= s.len(),
        valid_utf8(s.subrange(i, e)),
{
    lemma_digits_range(s, i + 1);
    let e1 = digits_end(s, i + 1);
    if e1 < s.len() && s[e1] == B_DOT && e1 + 2 <= s.len() {
        lemma_digits_range(s, e1 + 2);
    }
    let t = s.subrange(i, e);
    assert forall|k: int| 0 <= k < t.len() implies t[k] < 0x80 by {
        assert(t[k] == s[i + k]);
    }
    lemma_ascii_valid_utf8(t);
}

/// Make an owned string of the source bytes from `i` to `e`.
fn text_of(s: &[u8], i: usize, e: usize) -> (r: String)
    requires
        i <= e <= s@.len(),
        valid_utf8(s@.subrange(i as int, e as int)),
    ensures
        vstd::utf8::encode_utf8(r@) == s@.subrange(i as int, e as int),
{
    let sub = slice_subrange(s, i, e);
    let r = string_from_utf8(sub);
    proof {
        decode_utf8_encode_utf8(sub@);
    }
    r
}

fn p_float(s: &[u8], i: usize) -> (r: Option<(Value, usize)>)
    requires
        i <= s@.len(),
    ensures
        match r {
            Some((v, k)) => float_end(s@, i as int) == Some(k as int) && v@ == ValueModel::Float(
                s@.subrange(i as int, k as int),
            ) && i < k <= s@.len(),
            None => float_end(s@, i as int) is None,
        },
{
    let e1 = match p_num(s, i) {
        Some(e1) => e1,
        None => {
            return None;
        },
    };
    let e = if e1 < s.len() && at(s, e1) == B_DOT {
        match p_num(s, e1 + 1) {
            Some(e2) => e2,
            None => e1 + 1,
        }
    } else {
        e1
    };
    proof {
        lemma_float_text(s@, i as int, e as int);
    }
    let t = text_of(s, i, e);
    Some((Value::Float(t), e))
}

proof fn lemma_dec_val_nonneg(t: Seq<u8>)
    requires
        forall|k: int| 0 <= k < t.len() ==> is_digit(t[k]),
    ensures
        dec_val(t) >= 0,
    decreases t.len(),
{
    if t.len() > 0 {
        lemma_dec_val_nonneg(t.drop_last());
    }
}

/// Once a digit prefix exceeds a bound, every longer digit run does too.
proof fn lemma_dec_val_grows(s: Seq<u8>, i: int, k: int, e: int, m: int)
    requires
        0 <= i <= k <= e <= s.len(),
        forall|x: int| i <= x < e ==> is_digit(s[x]),
        dec_val(s.subrange(i, k)) > m,
        m >= 0,
    ensures
        dec_val(s.subrange(i, e)) > m,
    decreases e - k,
{
    if k < e {
        let a = s.subrange(i, k);
        let b = s.subrange(i, k + 1);
        assert(b.drop_last() =~= a);
        assert(is_digit(b.last()));
        assert forall|x: int| 0 <= x < a.len() implies is_digit(a[x]) by {
            assert(a[x] == s[i + x]);
        }
        lemma_dec_val_nonneg(a);
        assert(dec_val(b) == dec_val(a) * 10 + (b.last() - B_D0));
        lemma_dec_val_grows(s, i, k + 1, e, m);
    }
}

fn p_int(s: &[u8], i: usize) -> (r: Option<(Value, usize)>)
    requires
        i <= s@.len(),
    ensures
        match r {
            Some((v, k)) => int_at(s@, i as int) == Some((v@, k as int)) && i < k <= s@.len(),
            None => int_at(s@, i as int) is None,
        },
{
    let e = match p_num(s, i) {
        Some(e) => e,
        None => {
            return None;
        },
    };
    proof {
        lemma_digits_range(s@, i as int + 1);
    }
    let mut acc: u64 = 0;
    let mut k = i;
    while k < e
        invariant
            i <= k <= e <= s@.len(),
            num_at(s@, i as int) == Some(e as int),
            forall|x: int| i <= x < e ==> is_digit(s@[x]),
            acc == dec_val(s@.subrange(i as int, k as int)),
            acc <= 0x7fffffff,
        decreases e - k,
    {
        let d = at(s, k) - B_D0;
        acc = acc * 10 + d as u64;
        proof {
            let a = s@.subrange(i as int, k as int);
            let b = s@.subrange(i as int, k as int + 1);
            assert(b.drop_last() =~= a);
        }
        k = k + 1;
        if acc > 0x7fffffff {
            proof {
                lemma_dec_val_grows(s@, i as int, k as int, e as int, 0x7fffffff);
            }
            return None;
        }
    }
    Some((Value::Int(acc as i32), e))
}

/// Value of one hexadecimal digit byte.
fn p_hexv(b: u8) -> (r: u8)
    requires
        is_hex_digit(b),
    ensures
        r == hex_val(b),
        r <= 15,
{
    if B_D0 <= b && b <= B_D9 {
        b - B_D0
    } else if B_LA <= b && b <= B_LF {
        b - B_LA + 10
    } else {
        b - B_UA + 10
    }
}

fn hex_digit(b: u8) -> (r: bool)
    ensures
        r == is_hex_digit(b),
{
    (B_D0 <= b && b <= B_D9) || (B_LA <= b && b <= B_LF) || (B_UA <= b && b <= B_UF)
}

fn p_color(s: &[u8], i: usize) -> (r: Option<(Value, usize)>)
    requires
        i <= s@.len(),
    ensures
        match r {
            Some((v, k)) => color_at(s@, i as int) == Some((v@, k as int)) && i < k <= s@.len(),
            None => color_at(s@, i as int) is None,
        },
{
    if !(i < s.len() && at(s, i) == B_QUOTE) {
        return None;
    }
    let p = i + 1;
    if !(s.len() - p >= 2 && hex_digit(at(s, p)) && hex_digit(at(s, p + 1))) {
        return None;
    }
    let q = p_skip_ws(s, p + 2);
    if !(s.len() - q >= 2 && hex_digit(at(s, q)) && hex_digit(at(s, q + 1))) {
        return None;
    }
    let t = p_skip_ws(s, q + 2);
    if !(s.len() - t >= 2 && hex_digit(at(s, t)) && hex_digit(at(s, t + 1))) {
        return None;
    }
    if !(s.len() - t >= 3 && at(s, t + 2) == B_QUOTE) {
        return None;
    }
    let red = p_hexv(at(s, p)) * 16 + p_hexv(at(s, p + 1));
    let green = p_hexv(at(s, q)) * 16 + p_hexv(at(s, q + 1));
    let blue = p_hexv(at(s, t)) * 16 + p_hexv(at(s, t + 1));
    Some((Value::Color { red, green, blue }, t + 3))
}

fn p_strbody_end(s: &[u8], i: usize) -> (r: usize)
    requires
        i <= s@.len(),
    ensures
        r == strbody_end(s@, i as int),
        i <= r <= s@.len(),
{
    let mut j = i;
    loop
        invariant
            i <= j <= s@.len(),
            strbody_end(s@, i as int) == strbody_end(s@, j as int),
        decreases s@.len() - j,
    {
        if j < s.len() {
            let b = at(s, j);
            if b != B_QUOTE && b != B_BSLASH {
                j = j + 1;
                continue ;
            }
        }
        return j;
    }
}

fn p_string(s: &[u8], i: usize) -> (r: Option<(Value, usize)>)
    requires
        i <= s@.len(),
        valid_utf8(s@),
    ensures
        match r {
            Some((v, k)) => string_at(s@, i as int) == Some((v@, k as int)) && i < k <= s@.len(),
            None => string_at(s@, i as int) is None,
        },
{
    if !(i < s.len() && at(s, i) == B_QUOTE) {
        return None;
    }
    let j = i + 1;
    if j < s.len() && at(s, j) == B_CR && j + 1 < s.len() && at(s, j + 1) != B_NL {
        return None;
    }
    let k = p_strbody_end(s, j);
    if k > j && k < s.len() && at(s, k) == B_QUOTE {
        proof {
            lemma_quoted_inner_valid(s@, i as int, k as int);
        }
        let t = text_of(s, j, k);
        Some((Value::String(t), k + 1))
    } else {
        None
    }
}

fn p_literal(s: &[u8], i: usize) -> (r: Option<(Value, usize)>)
    requires
        i <= s@.len(),
        valid_utf8(s@),
    ensures
        match r {
            Some((v, k)) => literal_at(s@, i as int) == Some((v@, k as int)) && i < k <= s@.len(),
            None => literal_at(s@, i as int) is None,
        },
{
    if let Some(r) = p_bool(s, i) {
        return Some(r);
    }
    if let Some(r) = p_float(s, i) {
        return Some(r);
    }
    // the floating-point alternative accepts every digit shape, so this
    // alternative can never fire; it stands because the choice order is part
    // of the grammar
    if let Some(r) = p_int(s, i) {
        return Some(r);
    }
    if let Some(r) = p_color(s, i) {
        return Some(r);
    }
    p_string(s, i)
}

fn p_init(s: &[u8], i: usize) -> (r: Option<(Initializer, usize)>)
    requires
        i <= s@.len(),
        valid_utf8(s@),
    ensures
        match r {
            Some((ini, k)) => init_at(s@, i as int) == Some((ini@, k as int)) && i < k <= s@.len(),
            None => init_at(s@, i as int) is None,
        },
{
    if i < s.len() && at(s, i) == B_EQ {
        let j = p_skip_ws(s, i + 1);
        match p_literal(s, j) {
            Some((v, k)) => Some((Initializer { span: Span::new(i, k), value: v }, k)),
            None => None,
        }
    } else {
        None
    }
}

fn p_flags(s: &[u8], i: usize) -> (r: (Vec<Flag>, usize))
    requires
        i <= s@.len(),
    ensures
        flags_at(s@, i as int) == (flags_view(r.0@), r.1 as int),
        i <= r.1 <= s@.len(),
{
    let mut v: Vec<Flag> = Vec::new();
    let (k0, p0) = match p_flag_kind(s, i) {
        Some(x) => x,
        None => {
            proof {
                assert(flags_view(v@) =~= Seq::<FlagModel>::empty());
            }
            return (v, i);
        },
    };
    v.push(Flag { span: Span::new(i, p0), kind: k0 });
    let mut cur = p0;
    proof {
        assert(flags_view(v@) =~= seq![
            FlagModel { span: SpanModel { start: i as int, end: p0 as int }, kind: k0 },
        ]);
    }
    loop
        invariant
            i <= cur <= s@.len(),
            flags_at(s@, i as int) == flags_cont(s@, cur as int, flags_view(v@)),
        decreases s@.len() - cur,
    {
        let q = p_skip_ws(s, cur);
        match p_flag_kind(s, q) {
            Some((k2, p2)) => {
                let ghost prev = flags_view(v@);
                v.push(Flag { span: Span::new(q, p2), kind: k2 });
                proof {
                    assert(flags_view(v@) =~= prev.push(
                        FlagModel { span: SpanModel { start: q as int, end: p2 as int }, kind: k2 },
                    ));
                }
                cur = p2;
            },
            None => {
                return (v, cur);
            },
        }
    }
}

fn p_definition(s: &[u8], i: usize, it: &mut Interner) -> (r: Result<(CVar, usize), ParseError>)
    requires
        i <= s@.len(),
        old(it).wf(),
        valid_utf8(s@),
    ensures
        final(it).wf(),
        old(it)@.is_prefix_of(final(it)@),
        match r {
            Ok((cv, p)) => definition_at(s@, i as int, old(it)@) == Some(
                (cv@, p as int, final(it)@),
            ) && i < p <= s@.len(),
            Err(e) => definition_at(s@, i as int, old(it)@) is None && e == definition_err(
                s@,
                i as int,
            ) && e.offset <= s@.len(),
        },
{
    let (flags, p1) = p_flags(s, i);
    let p2 = p_skip_ws(s, p1);
    let (st, p3) = match p_storage(s, p2) {
        Some(x) => x,
        None => {
            proof {
                assert(old(it)@.is_prefix_of(it@));
            }
            return Err(ParseError { offset: p2, expected: Expected::TypeSpecifier });
        },
    };
    let type_spec = TypeSpec { span: Span::new(p2, p3), storage_type: st };
    let p4 = p_skip_ws(s, p3);
    let p5 = match p_ident(s, p4) {
        Some(e) => e,
        None => {
            proof {
                assert(old(it)@.is_prefix_of(it@));
            }
            return Err(ParseError { offset: p4, expected: Expected::Identifier });
        },
    };
    let text = slice_subrange(s, p4, p5);
    let h = it.intern(text);
    let name = Identifier { span: Span::new(p4, p5), string: h };
    proof {
        assert(old(it)@.is_prefix_of(it@)) by {
            if intern_table(old(it)@, text@) != old(it)@ {
                assert(it@ =~= old(it)@.push(text@));
                assert(old(it)@ =~= it@.subrange(0, old(it)@.len() as int));
            } else {
                assert(old(it)@ =~= it@.subrange(0, old(it)@.len() as int));
            }
        }
    }
    let p6 = p_skip_ws(s, p5);
    let (init, p7) = match p_init(s, p6) {
        Some((ini, k)) => (Some(ini), k),
        None => (None, p6),
    };
    let p8 = p_skip_ws(s, p7);
    if p8 < s.len() && at(s, p8) == B_SEMI {
        let cv = CVar { span: Span::new(i, p8 + 1), flags, type_spec, name, init };
        proof {
            let d = definition_at(s@, i as int, old(it)@);
            assert(d is Some);
            assert(cv@ =~= d->Some_0.0);
        }
        Ok((cv, p8 + 1))
    } else {
        Err(ParseError { offset: p8, expected: Expected::Semicolon })
    }
}

/// Parse a whole lump held in `s`; the executable counterpart of [`lump_at`].
pub(crate) fn lump(s: &[u8], it: &mut Interner) -> (r: Result<Vec<CVar>, ParseError>)
    requires
        old(it).wf(),
        valid_utf8(s@),
    ensures
        final(it).wf(),
        old(it)@.is_prefix_of(final(it)@),
        match r {
            Ok(defs) => lump_at(s@, old(it)@) == Some((cvars_view(defs@), final(it)@)),
            Err(e) => lump_at(s@, old(it)@) is None && e == defs_err(s@, 0, old(it)@)
                && e.offset <= s@.len(),
        },
{
    let mut v: Vec<CVar> = Vec::new();
    let mut cur: usize = 0;
    proof {
        assert(cvars_view(v@) =~= Seq::<CVarModel>::empty());
    }
    loop
        invariant
            cur <= s@.len(),
            it.wf(),
            valid_utf8(s@),
            old(it)@.is_prefix_of(it@),
            lump_at(s@, old(it)@) == defs_cont(s@, cur as int, cvars_view(v@), it@),
            defs_err(s@, 0, old(it)@) == defs_err(s@, cur as int, it@),
        decreases s@.len() - cur,
    {
        let q = p_skip_ws(s, cur);
        if q == s.len() {
            return Ok(v);
        }
        let ghost mid = it@;
        match p_definition(s, q, it) {
            Ok((cv, p2)) => {
                let ghost prev = cvars_view(v@);
                v.push(cv);
                proof {
                    assert(cvars_view(v@) =~= prev.push(cv@));
                    lemma_prefix_trans(old(it)@, mid, it@);
                }
                cur = p2;
            },
            Err(e) => {
                proof {
                    lemma_prefix_trans(old(it)@, mid, it@);
                }
                return Err(e);
            },
        }
    }
}

proof fn lemma_prefix_trans(a: Seq<Seq<u8>>, b: Seq<Seq<u8>>, c: Seq<Seq<u8>>)
    requires
        a.is_prefix_of(b),
        b.is_prefix_of(c),
    ensures
        a.is_prefix_of(c),
{
    assert forall|x: int| 0 <= x < a.len() implies a[x] == c.subrange(0, a.len() as int)[x] by {
        assert(a[x] == b.subrange(0, a.len() as int)[x]);
        assert(b[x] == c.subrange(0, b.len() as int)[x]);
    }
    assert(a =~= c.subrange(0, a.len() as int));
}

// ---------------------------------------------------------------------------
// Case-insensitivity
// ---------------------------------------------------------------------------
/// Keyword recognition is case-insensitive: over two inputs whose bytes agree
/// after ASCII lower-casing, the flag, type-specifier and boolean-literal
/// rules recognize the same keyword over the same bytes at every position —
/// any mixture of upper and lower case spells the same `FlagKind`,
/// `StorageType` or boolean.
pub proof fn lemma_keyword_case_insensitive(s1: Seq<u8>, s2: Seq<u8>, i: int)
    requires
        s1.len() == s2.len(),
        forall|j: int| 0 <= j < s1.len() ==> lo(s1[j]) == lo(s2[j]),
    ensures
        flag_kind_at(s1, i) == flag_kind_at(s2, i),
        storage_at(s1, i) == storage_at(s2, i),
        bool_at(s1, i) == bool_at(s2, i),
{
    assert forall|kw: Seq<u8>| (#[trigger] kw_at(s1, i, kw)) == kw_at(s2, i, kw) by {
        if kw_at(s1, i, kw) {
            assert forall|t: int| 0 <= t < kw.len() implies lo(s2[i + t]) == kw[t] by {
                assert(lo(s1[i + t]) == kw[t]);
            }
        }
        if kw_at(s2, i, kw) {
            assert forall|t: int| 0 <= t < kw.len() implies lo(s1[i + t]) == kw[t] by {
                assert(lo(s2[i + t]) == kw[t]);
            }
        }
    }
}

} // verus!

