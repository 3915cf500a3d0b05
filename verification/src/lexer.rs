//! Lexical analysis of spec source text.
//!
//! The token rules: structural symbols, keywords, primitive type names,
//! and identifiers of ASCII letters and underscores; the characters
//! space, tab, newline and form feed are skipped. Text matching no rule
//! becomes an error item carrying its span. The function [`lex_from`]
//! is the mathematical definition; [`lex`] computes it.

use crate::text::text_eq;
use crate::types::{AttributeType, BaseV, FieldType, Span, TyV, ty_view};
use vstd::prelude::*;

verus! {

/// The classified lexical units of the spec language.
#[derive(Debug, Copy, Clone, PartialEq, Eq, Structural)]
pub enum Tokens {
    // Symbols
    LBrace,
    RBrace,
    Pound,
    Colon,
    Comma,
    LAngleBracket,
    RAngleBracket,
    LSquareBracket,
    RSquareBracket,
    Equals,
    // Keywords
    Struct,
    Short,
    Long,
    Alias,
    Flatten,
    Main,
    SubCommand,
    // Types
    String,
    I16,
    U16,
    I32,
    U32,
    I64,
    U64,
    F32,
    F64,
    Vec,
    Optional,
    Bool,
    // Generic
    Identifier,
}

/// One lexed item: the classified token, or `Err` where no rule matched,
/// with the span of the matched text.
#[derive(Debug, Copy, Clone, PartialEq, Eq)]
pub struct LexItem {
    pub tok: Result<Tokens, ()>,
    pub span: Span,
}

/// Characters that separate tokens and carry no token themselves.
pub open spec fn is_skip_char(c: char) -> bool {
    c == ' ' || c == '\t' || c == '\n' || c == '\u{000C}'
}

/// Characters that may form an identifier or keyword.
pub open spec fn is_ident_char(c: char) -> bool {
    ('a' as u32 <= c as u32 && c as u32 <= 'z' as u32) || ('A' as u32 <= c as u32 && c as u32
        <= 'Z' as u32) || c == '_'
}

/// The token of a single structural symbol character, if any.
pub open spec fn symbol_token(c: char) -> Option<Tokens> {
    if c == '{' {
        Some(Tokens::LBrace)
    } else if c == '}' {
        Some(Tokens::RBrace)
    } else if c == '#' {
        Some(Tokens::Pound)
    } else if c == ':' {
        Some(Tokens::Colon)
    } else if c == ',' {
        Some(Tokens::Comma)
    } else if c == '<' {
        Some(Tokens::LAngleBracket)
    } else if c == '>' {
        Some(Tokens::RAngleBracket)
    } else if c == '[' {
        Some(Tokens::LSquareBracket)
    } else if c == ']' {
        Some(Tokens::RSquareBracket)
    } else if c == '=' {
        Some(Tokens::Equals)
    } else {
        None
    }
}

/// The token of a maximal run of identifier characters: the keyword it
/// spells exactly, or `Identifier`.
pub open spec fn word_token(s: Seq<char>) -> Tokens {
    if s == "struct"@ {
        Tokens::Struct
    } else if s == "short"@ {
        Tokens::Short
    } else if s == "long"@ {
        Tokens::Long
    } else if s == "alias"@ {
        Tokens::Alias
    } else if s == "flatten"@ {
        Tokens::Flatten
    } else if s == "main"@ {
        Tokens::Main
    } else if s == "subcommand"@ {
        Tokens::SubCommand
    } else if s == "string"@ {
        Tokens::String
    } else if s == "i16"@ {
        Tokens::I16
    } else if s == "u16"@ {
        Tokens::U16
    } else if s == "i32"@ {
        Tokens::I32
    } else if s == "u32"@ {
        Tokens::U32
    } else if s == "i64"@ {
        Tokens::I64
    } else if s == "u64"@ {
        Tokens::U64
    } else if s == "f32"@ {
        Tokens::F32
    } else if s == "f64"@ {
        Tokens::F64
    } else if s == "Vec"@ {
        Tokens::Vec
    } else if s == "Optional"@ {
        Tokens::Optional
    } else if s == "bool"@ {
        Tokens::Bool
    } else {
        Tokens::Identifier
    }
}

/// The numeric type keyword starting at `i`, if any: these hold
/// digits, which no identifier run can, so they are matched as
/// three-character literals.
pub open spec fn numeric_kw_at(src: Seq<char>, i: nat) -> Option<Tokens> {
    if i + 3 <= src.len() {
        let w = src.subrange(i as int, i as int + 3);
        if w == "i16"@ {
            Some(Tokens::I16)
        } else if w == "u16"@ {
            Some(Tokens::U16)
        } else if w == "i32"@ {
            Some(Tokens::I32)
        } else if w == "u32"@ {
            Some(Tokens::U32)
        } else if w == "i64"@ {
            Some(Tokens::I64)
        } else if w == "u64"@ {
            Some(Tokens::U64)
        } else if w == "f32"@ {
            Some(Tokens::F32)
        } else if w == "f64"@ {
            Some(Tokens::F64)
        } else {
            None
        }
    } else {
        None
    }
}

/// The end of the run of identifier characters starting at `i`.
pub open spec fn ident_end(src: Seq<char>, i: nat) -> nat
    decreases src.len() - i,
{
    if i < src.len() && is_ident_char(src[i as int]) {
        ident_end(src, i + 1)
    } else {
        i
    }
}

pub proof fn lemma_ident_end(src: Seq<char>, i: nat)
    requires
        i <= src.len(),
    ensures
        i <= ident_end(src, i) <= src.len(),
        forall|j: int| i <= j < ident_end(src, i) ==> is_ident_char(src[j]),
        ident_end(src, i) < src.len() ==> !is_ident_char(src[ident_end(src, i) as int]),
    decreases src.len() - i,
{
    if i < src.len() && is_ident_char(src[i as int]) {
        lemma_ident_end(src, i + 1);
    }
}

pub open spec fn mk_item(tok: Result<Tokens, ()>, start: nat, end: nat) -> LexItem {
    LexItem { tok, span: Span { start: start as usize, end: end as usize } }
}

/// The sequence of lexed items of `src` from position `i` on.
pub open spec fn lex_from(src: Seq<char>, i: nat) -> Seq<LexItem>
    decreases src.len() - i,
    via lex_from_decreases
{
    if i >= src.len() {
        Seq::empty()
    } else if is_skip_char(src[i as int]) {
        lex_from(src, i + 1)
    } else {
        match symbol_token(src[i as int]) {
            Some(t) => seq![mk_item(Ok(t), i, i + 1)] + lex_from(src, i + 1),
            None => match numeric_kw_at(src, i) {
                Some(t) => seq![mk_item(Ok(t), i, i + 3)] + lex_from(src, i + 3),
                None => if is_ident_char(src[i as int]) {
                    seq![
                        mk_item(Ok(word_token(src.subrange(i as int, ident_end(src, i + 1) as int))), i, ident_end(src, i + 1)),
                    ] + lex_from(src, ident_end(src, i + 1))
                } else {
                    seq![mk_item(Err(()), i, i + 1)] + lex_from(src, i + 1)
                },
            },
        }
    }
}

#[via_fn]
proof fn lex_from_decreases(src: Seq<char>, i: nat) {
    if i < src.len() {
        lemma_ident_end(src, i + 1);
    }
}

/// One well-placed lexed item: at or after `base`, spanning at least
/// one character, within the source, starting at an unskipped character.
pub open spec fn lex_item_ok(src: Seq<char>, base: int, it: LexItem) -> bool {
    &&& base <= it.span.start
    &&& it.span.start < it.span.end
    &&& it.span.end <= src.len()
    &&& !is_skip_char(src[it.span.start as int])
}

/// Every item of `lex_from(src, i)` is well-placed, the `k`-th at or
/// after `i + k`.
pub proof fn lemma_lex_from_bounds(src: Seq<char>, i: nat)
    requires
        i <= src.len(),
        src.len() <= usize::MAX,
    ensures
        forall|k: int|
            #![trigger lex_from(src, i)[k]]
            0 <= k < lex_from(src, i).len() ==> lex_item_ok(src, i + k, lex_from(src, i)[k]),
    decreases src.len() - i,
{
    if i >= src.len() {
    } else if is_skip_char(src[i as int]) {
        lemma_lex_from_bounds(src, i + 1);
        assert forall|k: int| 0 <= k < lex_from(src, i).len() implies lex_item_ok(
            src,
            i + k,
            lex_from(src, i)[k],
        ) by {
            assert(lex_from(src, i)[k] == lex_from(src, i + 1)[k]);
        }
    } else {
        let c = src[i as int];
        match symbol_token(c) {
            Some(_t) => {
                lemma_lex_from_bounds(src, i + 1);
                assert forall|k: int| 0 <= k < lex_from(src, i).len() implies lex_item_ok(
                    src,
                    i + k,
                    lex_from(src, i)[k],
                ) by {
                    if k > 0 {
                        assert(lex_from(src, i)[k] == lex_from(src, i + 1)[k - 1]);
                    }
                }
            },
            None => if numeric_kw_at(src, i) is Some {
                lemma_lex_from_bounds(src, i + 3);
                assert forall|k: int| 0 <= k < lex_from(src, i).len() implies lex_item_ok(
                    src,
                    i + k,
                    lex_from(src, i)[k],
                ) by {
                    if k > 0 {
                        assert(lex_from(src, i)[k] == lex_from(src, i + 3)[k - 1]);
                    }
                }
            } else if is_ident_char(c) {
                lemma_ident_end(src, i + 1);
                let j = ident_end(src, i + 1);
                lemma_lex_from_bounds(src, j);
                assert forall|k: int| 0 <= k < lex_from(src, i).len() implies lex_item_ok(
                    src,
                    i + k,
                    lex_from(src, i)[k],
                ) by {
                    if k > 0 {
                        assert(lex_from(src, i)[k] == lex_from(src, j)[k - 1]);
                        assert(lex_item_ok(src, j + (k - 1), lex_from(src, j)[k - 1]));
                    }
                }
            } else {
                lemma_lex_from_bounds(src, i + 1);
                assert forall|k: int| 0 <= k < lex_from(src, i).len() implies lex_item_ok(
                    src,
                    i + k,
                    lex_from(src, i)[k],
                ) by {
                    if k > 0 {
                        assert(lex_from(src, i)[k] == lex_from(src, i + 1)[k - 1]);
                    }
                }
            },
        }
    }
}

pub(crate) fn is_skip(c: char) -> (r: bool)
    ensures
        r == is_skip_char(c),
{
    c == ' ' || c == '\t' || c == '\n' || c == '\u{000C}'
}

fn is_ident(c: char) -> (r: bool)
    ensures
        r == is_ident_char(c),
{
    let u = c as u32;
    ('a' as u32 <= u && u <= 'z' as u32) || ('A' as u32 <= u && u <= 'Z' as u32) || c == '_'
}

fn symbol(c: char) -> (r: Option<Tokens>)
    ensures
        r == symbol_token(c),
{
    if c == '{' {
        Some(Tokens::LBrace)
    } else if c == '}' {
        Some(Tokens::RBrace)
    } else if c == '#' {
        Some(Tokens::Pound)
    } else if c == ':' {
        Some(Tokens::Colon)
    } else if c == ',' {
        Some(Tokens::Comma)
    } else if c == '<' {
        Some(Tokens::LAngleBracket)
    } else if c == '>' {
        Some(Tokens::RAngleBracket)
    } else if c == '[' {
        Some(Tokens::LSquareBracket)
    } else if c == ']' {
        Some(Tokens::RSquareBracket)
    } else if c == '=' {
        Some(Tokens::Equals)
    } else {
        None
    }
}

fn classify_word(src: &Vec<char>, start: usize, end: usize) -> (r: Tokens)
    requires
        start <= end <= src@.len(),
    ensures
        r == word_token(src@.subrange(start as int, end as int)),
{
    if text_eq(src, start, end, "struct") {
        Tokens::Struct
    } else if text_eq(src, start, end, "short") {
        Tokens::Short
    } else if text_eq(src, start, end, "long") {
        Tokens::Long
    } else if text_eq(src, start, end, "alias") {
        Tokens::Alias
    } else if text_eq(src, start, end, "flatten") {
        Tokens::Flatten
    } else if text_eq(src, start, end, "main") {
        Tokens::Main
    } else if text_eq(src, start, end, "subcommand") {
        Tokens::SubCommand
    } else if text_eq(src, start, end, "string") {
        Tokens::String
    } else if text_eq(src, start, end, "i16") {
        Tokens::I16
    } else if text_eq(src, start, end, "u16") {
        Tokens::U16
    } else if text_eq(src, start, end, "i32") {
        Tokens::I32
    } else if text_eq(src, start, end, "u32") {
        Tokens::U32
    } else if text_eq(src, start, end, "i64") {
        Tokens::I64
    } else if text_eq(src, start, end, "u64") {
        Tokens::U64
    } else if text_eq(src, start, end, "f32") {
        Tokens::F32
    } else if text_eq(src, start, end, "f64") {
        Tokens::F64
    } else if text_eq(src, start, end, "Vec") {
        Tokens::Vec
    } else if text_eq(src, start, end, "Optional") {
        Tokens::Optional
    } else if text_eq(src, start, end, "bool") {
        Tokens::Bool
    } else {
        Tokens::Identifier
    }
}

/// Lexes the whole source, skipping whitespace, yielding one item per
/// matched token and an error item per unmatched character.
pub fn lex(src: &Vec<char>) -> (r: Vec<LexItem>)
    ensures
        r@ == lex_from(src@, 0),
{
    let mut items: Vec<LexItem> = Vec::new();
    let mut i: usize = 0;
    while i < src.len()
        invariant
            i <= src@.len(),
            items@ + lex_from(src@, i as nat) == lex_from(src@, 0),
        decreases src@.len() - i,
    {
        let ghost i0 = i as nat;
        let c = src[i];
        let numeric = numeric_kw(src, i);
        if is_skip(c) {
            i += 1;
        } else if let Some(t) = symbol(c) {
            let item = LexItem { tok: Ok(t), span: Span { start: i, end: i + 1 } };
            items.push(item);
            i += 1;
            proof {
                assert(lex_from(src@, i0) =~= seq![item] + lex_from(src@, i as nat));
                assert(items@ + lex_from(src@, i as nat) =~= items@.drop_last() + lex_from(
                    src@,
                    i0,
                ));
            }
        } else if !is_skip(c) && symbol(c).is_none() && numeric.is_some() {
            let t = match numeric {
                Some(t) => t,
                None => Tokens::I16,
            };
            let item = LexItem { tok: Ok(t), span: Span { start: i, end: i + 3 } };
            items.push(item);
            i += 3;
            proof {
                assert(lex_from(src@, i0) =~= seq![item] + lex_from(src@, i as nat));
                assert(items@ + lex_from(src@, i as nat) =~= items@.drop_last() + lex_from(
                    src@,
                    i0,
                ));
            }
        } else if is_ident(c) {
            let mut j = i + 1;
            proof {
                lemma_ident_end(src@, (i + 1) as nat);
            }
            while j < src.len() && is_ident_char_at(src, j)
                invariant
                    i < j <= src@.len(),
                    ident_end(src@, j as nat) == ident_end(src@, (i + 1) as nat),
                decreases src@.len() - j,
            {
                j += 1;
            }
            proof {
                assert(ident_end(src@, (i + 1) as nat) == j);
            }
            let t = classify_word(src, i, j);
            let item = LexItem { tok: Ok(t), span: Span { start: i, end: j } };
            items.push(item);
            i = j;
            proof {
                assert(lex_from(src@, i0) =~= seq![item] + lex_from(src@, i as nat));
                assert(items@ + lex_from(src@, i as nat) =~= items@.drop_last() + lex_from(
                    src@,
                    i0,
                ));
            }
        } else {
            let item = LexItem { tok: Err(()), span: Span { start: i, end: i + 1 } };
            items.push(item);
            i += 1;
            proof {
                assert(lex_from(src@, i0) =~= seq![item] + lex_from(src@, i as nat));
                assert(items@ + lex_from(src@, i as nat) =~= items@.drop_last() + lex_from(
                    src@,
                    i0,
                ));
            }
        }
    }
    proof {
        assert(items@ =~= items@ + lex_from(src@, i as nat));
    }
    items
}

/// The numeric type keyword starting at `i`, if any.
fn numeric_kw(src: &Vec<char>, i: usize) -> (r: Option<Tokens>)
    requires
        i < src@.len(),
    ensures
        r == numeric_kw_at(src@, i as nat),
{
    if src.len() - i < 3 {
        return None;
    }
    let e = i + 3;
    if text_eq(src, i, e, "i16") {
        Some(Tokens::I16)
    } else if text_eq(src, i, e, "u16") {
        Some(Tokens::U16)
    } else if text_eq(src, i, e, "i32") {
        Some(Tokens::I32)
    } else if text_eq(src, i, e, "u32") {
        Some(Tokens::U32)
    } else if text_eq(src, i, e, "i64") {
        Some(Tokens::I64)
    } else if text_eq(src, i, e, "u64") {
        Some(Tokens::U64)
    } else if text_eq(src, i, e, "f32") {
        Some(Tokens::F32)
    } else if text_eq(src, i, e, "f64") {
        Some(Tokens::F64)
    } else {
        None
    }
}

fn is_ident_char_at(src: &Vec<char>, j: usize) -> (r: bool)
    requires
        j < src@.len(),
    ensures
        r == is_ident_char(src@[j as int]),
{
    is_ident(src[j])
}

// ---------------------------------------------------------------------------
// Token classification helpers used by the parser.
// ---------------------------------------------------------------------------

/// Tokens that may open an entry of an attribute block.
pub open spec fn attribute_tokens_spec() -> Seq<Tokens> {
    seq![
        Tokens::Short,
        Tokens::Long,
        Tokens::Alias,
        Tokens::Equals,
        Tokens::Comma,
        Tokens::Flatten,
        Tokens::Main,
        Tokens::SubCommand,
    ]
}

/// Tokens that may begin a field type.
pub open spec fn type_tokens_spec() -> Seq<Tokens> {
    seq![
        Tokens::String,
        Tokens::I16,
        Tokens::U16,
        Tokens::I32,
        Tokens::U32,
        Tokens::I64,
        Tokens::U64,
        Tokens::F32,
        Tokens::F64,
        Tokens::Vec,
        Tokens::Optional,
        Tokens::Bool,
        Tokens::Identifier,
    ]
}

/// The attribute kind a keyword token stands for.
pub open spec fn attr_type_of(t: Tokens) -> AttributeType {
    match t {
        Tokens::Short => AttributeType::Short,
        Tokens::Long => AttributeType::Long,
        Tokens::Alias => AttributeType::Alias,
        Tokens::Flatten => AttributeType::Flatten,
        Tokens::Main => AttributeType::Main,
        Tokens::SubCommand => AttributeType::SubCommand,
        _ => AttributeType::Short,
    }
}

pub open spec fn is_attr_kind_token(t: Tokens) -> bool {
    t is Short || t is Long || t is Alias || t is Flatten || t is Main || t is SubCommand
}

/// The field type a type token stands for; generic wrappers carry a
/// placeholder inner type until the parser fills it, and a bare
/// identifier an empty struct name until the parser copies the text.
pub open spec fn field_type_of(t: Tokens) -> TyV {
    match t {
        Tokens::String => TyV::Base(BaseV::String),
        Tokens::I16 => TyV::Base(BaseV::I16),
        Tokens::U16 => TyV::Base(BaseV::U16),
        Tokens::I32 => TyV::Base(BaseV::I32),
        Tokens::U32 => TyV::Base(BaseV::U32),
        Tokens::I64 => TyV::Base(BaseV::I64),
        Tokens::U64 => TyV::Base(BaseV::U64),
        Tokens::F32 => TyV::Base(BaseV::F32),
        Tokens::F64 => TyV::Base(BaseV::F64),
        Tokens::Bool => TyV::Base(BaseV::Bool),
        Tokens::Vec => TyV::Vec(BaseV::I16),
        Tokens::Optional => TyV::Optional(BaseV::I16),
        Tokens::Identifier => TyV::Base(BaseV::Struct(Seq::empty())),
        _ => TyV::Base(BaseV::I16),
    }
}

pub open spec fn is_type_token(t: Tokens) -> bool {
    type_tokens_spec().contains(t)
}

/// The literal text of a token, as shown in diagnostics.
pub open spec fn token_literal(t: Tokens) -> Seq<char> {
    match t {
        Tokens::LBrace => "{"@,
        Tokens::RBrace => "}"@,
        Tokens::Pound => "#"@,
        Tokens::Colon => ":"@,
        Tokens::Comma => ","@,
        Tokens::LAngleBracket => "<"@,
        Tokens::RAngleBracket => ">"@,
        Tokens::LSquareBracket => "["@,
        Tokens::RSquareBracket => "]"@,
        Tokens::Equals => "="@,
        Tokens::Struct => "struct"@,
        Tokens::Short => "short"@,
        Tokens::Long => "long"@,
        Tokens::Alias => "alias"@,
        Tokens::Flatten => "flatten"@,
        Tokens::Main => "main"@,
        Tokens::SubCommand => "subcommand"@,
        Tokens::String => "string"@,
        Tokens::I16 => "i16"@,
        Tokens::U16 => "u16"@,
        Tokens::I32 => "i32"@,
        Tokens::U32 => "u32"@,
        Tokens::I64 => "i64"@,
        Tokens::U64 => "u64"@,
        Tokens::F32 => "f32"@,
        Tokens::F64 => "f64"@,
        Tokens::Vec => "Vec"@,
        Tokens::Optional => "Optional"@,
        Tokens::Bool => "bool"@,
        Tokens::Identifier => "regex: [a-z,A-Z_]+"@,
    }
}

impl Tokens {
    /// The tokens accepted inside an attribute block.
    pub fn attribute_tokens() -> (r: Vec<Tokens>)
        ensures
            r@ == attribute_tokens_spec(),
    {
        let mut v: Vec<Tokens> = Vec::new();
        v.push(Tokens::Short);
        v.push(Tokens::Long);
        v.push(Tokens::Alias);
        v.push(Tokens::Equals);
        v.push(Tokens::Comma);
        v.push(Tokens::Flatten);
        v.push(Tokens::Main);
        v.push(Tokens::SubCommand);
        proof {
            assert(v@ =~= attribute_tokens_spec());
        }
        v
    }

    /// The tokens that may begin a field type.
    pub fn type_tokens() -> (r: Vec<Tokens>)
        ensures
            r@ == type_tokens_spec(),
    {
        let mut v: Vec<Tokens> = Vec::new();
        v.push(Tokens::String);
        v.push(Tokens::I16);
        v.push(Tokens::U16);
        v.push(Tokens::I32);
        v.push(Tokens::U32);
        v.push(Tokens::I64);
        v.push(Tokens::U64);
        v.push(Tokens::F32);
        v.push(Tokens::F64);
        v.push(Tokens::Vec);
        v.push(Tokens::Optional);
        v.push(Tokens::Bool);
        v.push(Tokens::Identifier);
        proof {
            assert(v@ =~= type_tokens_spec());
        }
        v
    }

    /// The attribute kind this keyword token stands for.
    pub fn as_attribute_type(&self) -> (r: AttributeType)
        requires
            is_attr_kind_token(*self),
        ensures
            r == attr_type_of(*self),
    {
        match self {
            Tokens::Short => AttributeType::Short,
            Tokens::Long => AttributeType::Long,
            Tokens::Alias => AttributeType::Alias,
            Tokens::Flatten => AttributeType::Flatten,
            Tokens::Main => AttributeType::Main,
            Tokens::SubCommand => AttributeType::SubCommand,
            _ => {
                proof {
                    assert(false);
                }
                AttributeType::Short
            },
        }
    }

    /// The field type this type token stands for.
    pub fn as_field_type(&self) -> (r: FieldType)
        requires
            is_type_token(*self),
        ensures
            ty_view(r) == field_type_of(*self),
    {
        match self {
            Tokens::String => FieldType::String,
            Tokens::I16 => FieldType::I16,
            Tokens::U16 => FieldType::U16,
            Tokens::I32 => FieldType::I32,
            Tokens::U32 => FieldType::U32,
            Tokens::I64 => FieldType::I64,
            Tokens::U64 => FieldType::U64,
            Tokens::F32 => FieldType::F32,
            Tokens::F64 => FieldType::F64,
            Tokens::Bool => FieldType::Bool,
            Tokens::Vec => FieldType::Vec(Box::new(FieldType::I16)),
            Tokens::Optional => FieldType::Optional(Box::new(FieldType::I16)),
            Tokens::Identifier => FieldType::Struct(String::new()),
            _ => {
                proof {
                    assert(false);
                }
                FieldType::I16
            },
        }
    }

    /// The literal text of this token, as shown in diagnostics.
    pub fn as_token_literal(&self) -> (r: &'static str)
        ensures
            r@ == token_literal(*self),
    {
        match self {
            Tokens::LBrace => "{",
            Tokens::RBrace => "}",
            Tokens::Pound => "#",
            Tokens::Colon => ":",
            Tokens::Comma => ",",
            Tokens::LAngleBracket => "<",
            Tokens::RAngleBracket => ">",
            Tokens::LSquareBracket => "[",
            Tokens::RSquareBracket => "]",
            Tokens::Equals => "=",
            Tokens::Struct => "struct",
            Tokens::Short => "short",
            Tokens::Long => "long",
            Tokens::Alias => "alias",
            Tokens::Flatten => "flatten",
            Tokens::Main => "main",
            Tokens::SubCommand => "subcommand",
            Tokens::String => "string",
            Tokens::I16 => "i16",
            Tokens::U16 => "u16",
            Tokens::I32 => "i32",
            Tokens::U32 => "u32",
            Tokens::I64 => "i64",
            Tokens::U64 => "u64",
            Tokens::F32 => "f32",
            Tokens::F64 => "f64",
            Tokens::Vec => "Vec",
            Tokens::Optional => "Optional",
            Tokens::Bool => "bool",
            Tokens::Identifier => "regex: [a-z,A-Z_]+",
        }
    }
}

} // verus!
