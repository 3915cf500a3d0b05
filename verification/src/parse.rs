//! Recursive-descent parsing of spec source text into a [`Spec`].
//!
//! The functions `*_spec` form the mathematical definition of the
//! parser: one token of lookahead, no backtracking, and on the first
//! unexpected token, premature end of input or unknown lexical item a
//! rendered diagnostic instead of a tree. The exec [`Parser`] computes
//! exactly those functions.

use crate::diag::{
    error_help_text, error_text, lemma_trim_end_keeps, render_error, render_error_help,
    trim_end_index, trim_end_len,
};
use crate::lexer::{
    attr_type_of, attribute_tokens_spec, is_attr_kind_token, lemma_lex_from_bounds, lex,
    lex_from, lex_item_ok, token_literal, type_tokens_spec, LexItem, Tokens,
};
use crate::text::{append_str, chars_to_string, str_to_chars, sub_chars};
use crate::types::{
    attr_view, attrs_view, base_view, field_view, fields_view, lemma_attrs_view_push,
    lemma_fields_view_push, lemma_structs_view_push, spec_view, struct_view, structs_view, AttrV,
    Attribute, AttributeType, BaseV, Field, FieldType, FieldV, Span, Spec, SpecV, Struct, StructV,
    TyV,
};
use vstd::prelude::*;

verus! {

/// The token stream of a source text.
pub open spec fn toks(src: Seq<char>) -> Seq<LexItem> {
    lex_from(src, 0)
}

/// The text under a span.
pub open spec fn text_at(src: Seq<char>, span: Span) -> Seq<char> {
    src.subrange(span.start as int, span.end as int)
}

/// A token together with its span, as the parser passes them around.
pub struct ParserToken {
    pub token: Tokens,
    pub span: Span,
}

impl ParserToken {
    pub fn new(token: Tokens, span: Span) -> (r: Self)
        ensures
            r.token == token,
            r.span == span,
    {
        Self { token, span }
    }
}

/// The ghost value of a [`ParserToken`].
#[verifier::ext_equal]
pub ghost struct PTok {
    pub token: Tokens,
    pub span: Span,
}

// ---------------------------------------------------------------------------
// Rendered parser diagnostics.
// ---------------------------------------------------------------------------

/// The diagnostic for a character no token rule matches.
pub open spec fn lexer_err(src: Seq<char>, span: Span) -> Seq<char> {
    error_text("Lexer error"@, 1, span.start as int, span.end as int, src, "Unknown token"@)
}

/// The diagnostic for running out of tokens.
pub open spec fn eof_err(src: Seq<char>) -> Seq<char> {
    error_text(
        "Parser error"@,
        1,
        trim_end_len(src) as int - 1,
        trim_end_len(src) as int,
        src,
        "Unexpected end of file"@,
    )
}

/// The comma-separated literals of the expected tokens.
pub open spec fn join_lits(ts: Seq<Tokens>) -> Seq<char>
    decreases ts.len(),
{
    if ts.len() == 0 {
        Seq::empty()
    } else if ts.len() == 1 {
        token_literal(ts[0])
    } else {
        token_literal(ts[0]) + ", "@ + join_lits(ts.drop_first())
    }
}

/// The diagnostic for a token outside the expected set.
pub open spec fn unexpected_err(src: Seq<char>, span: Span, expected: Seq<Tokens>) -> Seq<char> {
    error_help_text(
        "Parser error"@,
        1,
        span.start as int,
        span.end as int,
        src,
        "Unexpected token"@,
        "Tokens can be any of: "@ + join_lits(expected),
    )
}

/// The diagnostic for an attribute block with nothing in it.
pub open spec fn empty_attrs_err(src: Seq<char>, span: Span) -> Seq<char> {
    error_text(
        "Parse error"@,
        1,
        span.start as int,
        span.end as int,
        src,
        "Attributes cannot be empty"@,
    )
}

// ---------------------------------------------------------------------------
// The mathematical parser.
// ---------------------------------------------------------------------------

/// What looking one token ahead at position `pos` yields: nothing at
/// the end of input, the token, or the rendered diagnostic of an
/// unknown lexical item.
pub open spec fn peek_spec(src: Seq<char>, pos: nat) -> Option<Result<PTok, Seq<char>>> {
    if pos >= toks(src).len() {
        None
    } else {
        let it = toks(src)[pos as int];
        match it.tok {
            Ok(t) => Some(Ok(PTok { token: t, span: it.span })),
            Err(_) => Some(Err(lexer_err(src, it.span))),
        }
    }
}

/// Consuming the next token, demanding it to be one of `expected`.
pub open spec fn ensure_next_spec(src: Seq<char>, pos: nat, expected: Seq<Tokens>) -> Result<
    (PTok, nat),
    Seq<char>,
> {
    match peek_spec(src, pos) {
        None => Err(eof_err(src)),
        Some(Err(e)) => Err(e),
        Some(Ok(t)) => if expected.contains(t.token) {
            Ok((t, (pos + 1) as nat))
        } else {
            Err(unexpected_err(src, t.span, expected))
        },
    }
}

/// The entries of an attribute block after `#[`, up to and including
/// the closing bracket: keywords separated by optional commas, with
/// `= identifier` mandatory after `alias` and optional after `short`
/// and `long`.
pub open spec fn parse_attr_items_spec(src: Seq<char>, pos: nat, acc: Seq<AttrV>) -> Result<
    (Seq<AttrV>, nat),
    Seq<char>,
>
    decreases toks(src).len() - pos,
{
    match peek_spec(src, pos) {
        None => Err(eof_err(src)),
        Some(Err(e)) => Err(e),
        Some(Ok(t)) => if t.token is RSquareBracket {
            Ok((acc, (pos + 1) as nat))
        } else if t.token is Comma {
            if pos < toks(src).len() {
                parse_attr_items_spec(src, (pos + 1) as nat, acc)
            } else {
                Err(Seq::empty())
            }
        } else if !is_attr_kind_token(t.token) {
            Err(unexpected_err(src, t.span, attribute_tokens_spec()))
        } else {
            let kind = attr_type_of(t.token);
            if kind is Short || kind is Long {
                match peek_spec(src, pos + 1) {
                    None => Err(eof_err(src)),
                    Some(Err(e)) => Err(e),
                    Some(Ok(t2)) => if t2.token is Equals {
                        match ensure_next_spec(src, (pos + 2) as nat, seq![Tokens::Identifier]) {
                            Err(e) => Err(e),
                            Ok((id, p)) => if pos + 3 <= toks(src).len() {
                                parse_attr_items_spec(
                                    src,
                                    (pos + 3) as nat,
                                    acc.push(
                                        AttrV {
                                            kind,
                                            value: Some(text_at(src, id.span)),
                                            span: t.span,
                                        },
                                    ),
                                )
                            } else {
                                Err(Seq::empty())
                            },
                        }
                    } else {
                        if pos + 1 < toks(src).len() {
                            parse_attr_items_spec(
                                src,
                                (pos + 1) as nat,
                                acc.push(AttrV { kind, value: None, span: t.span }),
                            )
                        } else {
                            Err(Seq::empty())
                        }
                    },
                }
            } else if kind is Alias {
                match ensure_next_spec(src, (pos + 1) as nat, seq![Tokens::Equals]) {
                    Err(e) => Err(e),
                    Ok((_eq, _p)) => match ensure_next_spec(
                        src,
                        (pos + 2) as nat,
                        seq![Tokens::Identifier],
                    ) {
                        Err(e) => Err(e),
                        Ok((id, _p2)) => if pos + 3 <= toks(src).len() {
                            parse_attr_items_spec(
                                src,
                                (pos + 3) as nat,
                                acc.push(
                                    AttrV { kind, value: Some(text_at(src, id.span)), span: t.span },
                                ),
                            )
                        } else {
                            Err(Seq::empty())
                        },
                    },
                }
            } else {
                if pos + 1 <= toks(src).len() {
                    parse_attr_items_spec(
                        src,
                        (pos + 1) as nat,
                        acc.push(AttrV { kind, value: None, span: t.span }),
                    )
                } else {
                    Err(Seq::empty())
                }
            }
        },
    }
}

/// A whole attribute block `#[ ... ]`; an empty block is refused.
pub open spec fn parse_attributes_spec(src: Seq<char>, pos: nat) -> Result<
    (Seq<AttrV>, nat),
    Seq<char>,
> {
    match ensure_next_spec(src, pos, seq![Tokens::Pound]) {
        Err(e) => Err(e),
        Ok((pound, p1)) => match ensure_next_spec(src, p1, seq![Tokens::LSquareBracket]) {
            Err(e) => Err(e),
            Ok((_lb, p2)) => match parse_attr_items_spec(src, p2, Seq::empty()) {
                Err(e) => Err(e),
                Ok((attrs, p3)) => if attrs.len() == 0 {
                    Err(empty_attrs_err(src, pound.span))
                } else {
                    Ok((attrs, p3))
                },
            },
        },
    }
}

/// The type tokens accepted inside `Vec< >` and `Optional< >`: a single
/// level of wrapping only.
pub open spec fn inner_type_tokens_spec() -> Seq<Tokens> {
    seq![
        Tokens::String,
        Tokens::I16,
        Tokens::U16,
        Tokens::I32,
        Tokens::U32,
        Tokens::I64,
        Tokens::U64,
        Tokens::F32,
        Tokens::F64,
        Tokens::Bool,
        Tokens::Identifier,
    ]
}

/// The base type a non-generic type token stands for.
pub open spec fn base_of_token(src: Seq<char>, t: PTok) -> BaseV {
    match t.token {
        Tokens::String => BaseV::String,
        Tokens::I16 => BaseV::I16,
        Tokens::U16 => BaseV::U16,
        Tokens::I32 => BaseV::I32,
        Tokens::U32 => BaseV::U32,
        Tokens::I64 => BaseV::I64,
        Tokens::U64 => BaseV::U64,
        Tokens::F32 => BaseV::F32,
        Tokens::F64 => BaseV::F64,
        Tokens::Bool => BaseV::Bool,
        Tokens::Identifier => BaseV::Struct(text_at(src, t.span)),
        _ => BaseV::Nested,
    }
}

/// One field: `identifier : Type` with an optional trailing comma.
pub open spec fn parse_field_spec(src: Seq<char>, pos: nat) -> Result<(FieldV, nat), Seq<char>> {
    match ensure_next_spec(src, pos, seq![Tokens::Identifier]) {
        Err(e) => Err(e),
        Ok((id, p1)) => match ensure_next_spec(src, p1, seq![Tokens::Colon]) {
            Err(e) => Err(e),
            Ok((_colon, p2)) => match ensure_next_spec(src, p2, type_tokens_spec()) {
                Err(e) => Err(e),
                Ok((ty_tok, p3)) => if ty_tok.token is Vec || ty_tok.token is Optional {
                    match ensure_next_spec(src, p3, seq![Tokens::LAngleBracket]) {
                        Err(e) => Err(e),
                        Ok((_la, p4)) => match ensure_next_spec(src, p4, inner_type_tokens_spec()) {
                            Err(e) => Err(e),
                            Ok((inner_tok, p5)) => match ensure_next_spec(
                                src,
                                p5,
                                seq![Tokens::RAngleBracket],
                            ) {
                                Err(e) => Err(e),
                                Ok((_ra, p6)) => {
                                    let ty = if ty_tok.token is Vec {
                                        TyV::Vec(base_of_token(src, inner_tok))
                                    } else {
                                        TyV::Optional(base_of_token(src, inner_tok))
                                    };
                                    field_done_spec(src, p6, id, ty, inner_tok.span)
                                },
                            },
                        },
                    }
                } else {
                    let ty = TyV::Base(base_of_token(src, ty_tok));
                    field_done_spec(src, p3, id, ty, ty_tok.span)
                },
            },
        },
    }
}

/// Finishing a field: eat one trailing comma if it is there, and build
/// the node; attributes are attached by the caller.
pub open spec fn field_done_spec(src: Seq<char>, pos: nat, id: PTok, ty: TyV, type_span: Span)
    -> Result<(FieldV, nat), Seq<char>> {
    let f = FieldV {
        name: text_at(src, id.span),
        attributes: Seq::empty(),
        ty,
        name_span: id.span,
        type_span,
    };
    match peek_spec(src, pos) {
        None => Ok((f, pos)),
        Some(Err(e)) => Err(e),
        Some(Ok(t)) => if t.token is Comma {
            Ok((f, (pos + 1) as nat))
        } else {
            Ok((f, pos))
        },
    }
}

/// The field attributes with `short` and `long` values defaulted from
/// the field name: its first character for `short`, the whole name for
/// `long`.
pub open spec fn default_attr_one(a: AttrV, name: Seq<char>) -> AttrV {
    if a.kind is Short && a.value is None {
        AttrV { kind: a.kind, value: Some(seq![name[0]]), span: a.span }
    } else if a.kind is Long && a.value is None {
        AttrV { kind: a.kind, value: Some(name), span: a.span }
    } else {
        a
    }
}

pub open spec fn default_attrs(attrs: Seq<AttrV>, name: Seq<char>) -> Seq<AttrV> {
    attrs.map_values(|a: AttrV| default_attr_one(a, name))
}

/// The tokens that may open an item of a struct body.
pub open spec fn struct_body_tokens_spec() -> Seq<Tokens> {
    seq![Tokens::Pound, Tokens::Identifier, Tokens::RBrace]
}

/// The fields of a struct body, up to but not including the closing
/// brace.
pub open spec fn parse_struct_fields_spec(src: Seq<char>, pos: nat, acc: Seq<FieldV>) -> Result<
    (Seq<FieldV>, nat),
    Seq<char>,
>
    decreases toks(src).len() - pos,
{
    match peek_spec(src, pos) {
        None => Ok((acc, pos)),
        Some(Err(e)) => Err(e),
        Some(Ok(t)) => if t.token is RBrace {
            Ok((acc, pos))
        } else if t.token is Pound {
            match parse_attributes_spec(src, pos) {
                Err(e) => Err(e),
                Ok((attrs, p1)) => match parse_field_spec(src, p1) {
                    Err(e) => Err(e),
                    Ok((f, p2)) => if pos < p2 <= toks(src).len() {
                        parse_struct_fields_spec(
                            src,
                            p2,
                            acc.push(
                                FieldV {
                                    attributes: default_attrs(attrs, f.name),
                                    ..f
                                },
                            ),
                        )
                    } else {
                        Err(Seq::empty())
                    },
                },
            }
        } else if t.token is Identifier {
            match parse_field_spec(src, pos) {
                Err(e) => Err(e),
                Ok((f, p2)) => if pos < p2 <= toks(src).len() {
                    parse_struct_fields_spec(src, p2, acc.push(f))
                } else {
                    Err(Seq::empty())
                },
            }
        } else {
            Err(unexpected_err(src, t.span, struct_body_tokens_spec()))
        },
    }
}

/// One struct definition: `struct identifier { field* }`; its
/// attributes are attached by the caller.
pub open spec fn parse_struct_spec(src: Seq<char>, pos: nat) -> Result<(StructV, nat), Seq<char>> {
    match ensure_next_spec(src, pos, seq![Tokens::Struct]) {
        Err(e) => Err(e),
        Ok((_kw, p1)) => match ensure_next_spec(src, p1, seq![Tokens::Identifier]) {
            Err(e) => Err(e),
            Ok((id, p2)) => match ensure_next_spec(src, p2, seq![Tokens::LBrace]) {
                Err(e) => Err(e),
                Ok((_lb, p3)) => match parse_struct_fields_spec(src, p3, Seq::empty()) {
                    Err(e) => Err(e),
                    Ok((fields, p4)) => match ensure_next_spec(src, p4, seq![Tokens::RBrace]) {
                        Err(e) => Err(e),
                        Ok((_rb, p5)) => Ok(
                            (
                                StructV {
                                    attributes: Seq::empty(),
                                    fields,
                                    name: text_at(src, id.span),
                                    name_span: id.span,
                                },
                                p5,
                            ),
                        ),
                    },
                },
            },
        },
    }
}

/// The tokens that may open a top-level item.
pub open spec fn top_tokens_spec() -> Seq<Tokens> {
    seq![Tokens::Pound, Tokens::Struct]
}

/// The struct definitions of a whole source, each optionally preceded
/// by an attribute block.
pub open spec fn parse_tops_spec(src: Seq<char>, pos: nat, acc: Seq<StructV>) -> Result<
    Seq<StructV>,
    Seq<char>,
>
    decreases toks(src).len() - pos,
{
    match peek_spec(src, pos) {
        None => Ok(acc),
        Some(Err(e)) => Err(e),
        Some(Ok(t)) => if t.token is Pound {
            match parse_attributes_spec(src, pos) {
                Err(e) => Err(e),
                Ok((attrs, p1)) => match peek_spec(src, p1) {
                    None => Err(eof_err(src)),
                    Some(Err(e)) => Err(e),
                    Some(Ok(t2)) => if t2.token is Struct {
                        match parse_struct_spec(src, p1) {
                            Err(e) => Err(e),
                            Ok((s, p2)) => if pos < p2 <= toks(src).len() {
                                parse_tops_spec(
                                    src,
                                    p2,
                                    acc.push(StructV { attributes: attrs, ..s }),
                                )
                            } else {
                                Err(Seq::empty())
                            },
                        }
                    } else {
                        Err(unexpected_err(src, t2.span, seq![Tokens::Struct]))
                    },
                },
            }
        } else if t.token is Struct {
            match parse_struct_spec(src, pos) {
                Err(e) => Err(e),
                Ok((s, p2)) => if pos < p2 <= toks(src).len() {
                    parse_tops_spec(src, p2, acc.push(s))
                } else {
                    Err(Seq::empty())
                },
            }
        } else {
            Err(unexpected_err(src, t.span, top_tokens_spec()))
        },
    }
}

/// What parsing a whole source yields.
pub open spec fn parse_result(src: Seq<char>) -> Result<SpecV, Seq<char>> {
    match parse_tops_spec(src, 0, Seq::empty()) {
        Err(e) => Err(e),
        Ok(structs) => Ok(SpecV { structs, source: src }),
    }
}


// ---------------------------------------------------------------------------
// The executable parser.
// ---------------------------------------------------------------------------

/// The ghost value of a peeked token.
pub open spec fn peek_view(r: Option<Result<ParserToken, String>>) -> Option<
    Result<PTok, Seq<char>>,
> {
    match r {
        None => None,
        Some(Ok(t)) => Some(Ok(PTok { token: t.token, span: t.span })),
        Some(Err(s)) => Some(Err(s@)),
    }
}

pub struct Parser {
    source: Vec<char>,
    items: Vec<LexItem>,
    pos: usize,
}

impl Parser {
    /// The source text under parse.
    pub closed spec fn src(self) -> Seq<char> {
        self.source@
    }

    /// The current position in the token stream.
    pub closed spec fn cur(self) -> nat {
        self.pos as nat
    }

    /// The token stream is the lexing of the source, and the position
    /// lies within it.
    pub closed spec fn wf(self) -> bool {
        &&& self.items@ == toks(self.source@)
        &&& self.pos <= self.items@.len()
        &&& self.source@.len() <= usize::MAX
    }

    pub fn new(source: &str) -> (r: Parser)
        ensures
            r.wf(),
            r.src() == source@,
            r.cur() == 0,
    {
        let chars = str_to_chars(source);
        let ghost n = chars@.len();
        let len_check = chars.len();
        proof {
            assert(n <= usize::MAX);
        }
        let items = lex(&chars);
        Parser { source: chars, items, pos: 0 }
    }

    /// The text under a span of the source, as an owned string.
    fn string_from_range(&self, start: usize, end: usize) -> (r: String)
        requires
            start <= end <= self.src().len(),
        ensures
            r@ == text_at(self.src(), Span { start, end }),
    {
        let v = sub_chars(&self.source, start, end);
        chars_to_string(&v)
    }

    fn make_end_of_file_chic_error(&self) -> (r: String)
        requires
            self.wf(),
            self.items@.len() >= 1,
        ensures
            r@ == eof_err(self.src()),
    {
        proof {
            lemma_lex_from_bounds(self.source@, 0);
            assert(lex_item_ok(self.source@, 0, lex_from(self.source@, 0)[0]));
            assert(self.items@[0] == lex_from(self.source@, 0)[0]);
            lemma_trim_end_keeps(self.source@, self.items@[0].span.start as int);
        }
        let t = trim_end_index(&self.source);
        let s = chars_to_string(&self.source);
        render_error("Parser error", 1, t - 1, t, &s, "Unexpected end of file")
    }

    fn make_chic_error_for_lexer_error(&self, span: &Span) -> (r: String)
        requires
            span.start <= span.end,
        ensures
            r@ == lexer_err(self.src(), *span),
    {
        let s = chars_to_string(&self.source);
        render_error("Lexer error", 1, span.start, span.end, &s, "Unknown token")
    }

    fn make_chic_error_for_parse_error(&self, span: &Span, message: &str, help: Option<&str>) -> (r:
        String)
        requires
            span.start <= span.end,
        ensures
            r@ == match help {
                None => error_text(
                    "Parse error"@,
                    1,
                    span.start as int,
                    span.end as int,
                    self.src(),
                    message@,
                ),
                Some(h) => error_help_text(
                    "Parse error"@,
                    1,
                    span.start as int,
                    span.end as int,
                    self.src(),
                    message@,
                    h@,
                ),
            },
    {
        let s = chars_to_string(&self.source);
        match help {
            None => render_error("Parse error", 1, span.start, span.end, &s, message),
            Some(h) => {
                let hs = String::from_str(h);
                render_error_help("Parse error", 1, span.start, span.end, &s, message, &hs)
            },
        }
    }

    /// The diagnostic for a token outside the expected set.
    fn unexpected_error(&self, token: &ParserToken, expected: &Vec<Tokens>) -> (r: String)
        requires
            token.span.start <= token.span.end,
        ensures
            r@ == unexpected_err(self.src(), token.span, expected@),
    {
        let help = expected_help(expected);
        let s = chars_to_string(&self.source);
        render_error_help(
            "Parser error",
            1,
            token.span.start,
            token.span.end,
            &s,
            "Unexpected token",
            &help,
        )
    }

    fn ensure_token_any_of(&self, token: &ParserToken, expected: &Vec<Tokens>) -> (r: Result<
        (),
        String,
    >)
        requires
            token.span.start <= token.span.end,
        ensures
            match r {
                Ok(_) => expected@.contains(token.token),
                Err(e) => !expected@.contains(token.token) && e@ == unexpected_err(
                    self.src(),
                    token.span,
                    expected@,
                ),
            },
    {
        if contains_token(expected, token.token) {
            Ok(())
        } else {
            Err(self.unexpected_error(token, expected))
        }
    }

    fn ensure_next_token_any_of(&mut self, tokens: &Vec<Tokens>) -> (r: Result<ParserToken, String>)
        requires
            old(self).wf(),
            old(self).items@.len() >= 1,
        ensures
            final(self).wf(),
            final(self).src() == old(self).src(),
            match (r, ensure_next_spec(old(self).src(), old(self).cur(), tokens@)) {
                (Ok(t), Ok(sp)) => sp.0 == (PTok { token: t.token, span: t.span }) && sp.1
                    == final(self).cur(),
                (Err(e), Err(es)) => es == e@,
                _ => false,
            },
    {
        proof {
            lemma_lex_from_bounds(old(self).source@, 0);
        }
        let next = self.next_token();
        match next {
            None => Err(self.make_end_of_file_chic_error()),
            Some(Err(e)) => Err(e),
            Some(Ok(t)) => match self.ensure_token_any_of(&t, tokens) {
                Ok(_) => Ok(t),
                Err(e) => Err(e),
            },
        }
    }

    fn ensure_next_token(&mut self, token: Tokens) -> (r: Result<ParserToken, String>)
        requires
            old(self).wf(),
            old(self).items@.len() >= 1,
        ensures
            final(self).wf(),
            final(self).src() == old(self).src(),
            match (r, ensure_next_spec(old(self).src(), old(self).cur(), seq![token])) {
                (Ok(t), Ok(sp)) => sp.0 == (PTok { token: t.token, span: t.span }) && sp.1
                    == final(self).cur(),
                (Err(e), Err(es)) => es == e@,
                _ => false,
            },
    {
        let mut v: Vec<Tokens> = Vec::new();
        v.push(token);
        proof {
            assert(v@ =~= seq![token]);
        }
        self.ensure_next_token_any_of(&v)
    }

    fn next_token(&mut self) -> (r: Option<Result<ParserToken, String>>)
        requires
            old(self).wf(),
        ensures
            final(self).wf(),
            final(self).src() == old(self).src(),
            final(self).items@ == old(self).items@,
            peek_view(r) == peek_spec(old(self).src(), old(self).cur()),
            old(self).cur() < old(self).items@.len() ==> final(self).cur() == old(self).cur() + 1,
            old(self).cur() >= old(self).items@.len() ==> final(self).cur() == old(self).cur(),
    {
        let r = self.peek_token();
        if self.pos < self.items.len() {
            self.pos = self.pos + 1;
        }
        r
    }

    fn peek_token(&self) -> (r: Option<Result<ParserToken, String>>)
        requires
            self.wf(),
        ensures
            peek_view(r) == peek_spec(self.src(), self.cur()),
    {
        if self.pos >= self.items.len() {
            return None;
        }
        proof {
            lemma_lex_from_bounds(self.source@, 0);
            assert(lex_item_ok(self.source@, self.pos as int, lex_from(self.source@, 0)[self.pos as int]));
        }
        let it = self.items[self.pos];
        match it.tok {
            Ok(t) => Some(Ok(ParserToken::new(t, it.span))),
            Err(_) => Some(Err(self.make_chic_error_for_lexer_error(&it.span))),
        }
    }

    #[verifier::loop_isolation(false)]
    fn parse_attributes(&mut self) -> (r: Result<Vec<Attribute>, String>)
        requires
            old(self).wf(),
            old(self).items@.len() >= 1,
        ensures
            final(self).wf(),
            final(self).src() == old(self).src(),
            match (r, parse_attributes_spec(old(self).src(), old(self).cur())) {
                (Ok(attrs), Ok(sp)) => sp.0 == attrs_view(attrs@) && sp.1 == final(self).cur(),
                (Err(e), Err(es)) => es == e@,
                _ => false,
            },
            r is Ok ==> old(self).cur() < final(self).cur(),
    {
        let ghost src = self.source@;
        let ghost pos0 = self.cur();
        let attributes_start = match self.ensure_next_token(Tokens::Pound) {
            Ok(t) => t,
            Err(e) => {
                return Err(e);
            },
        };
        match self.ensure_next_token(Tokens::LSquareBracket) {
            Ok(_) => {},
            Err(e) => {
                return Err(e);
            },
        }
        let ghost entry = self.cur();
        let ghost target = parse_attr_items_spec(src, entry, Seq::<AttrV>::empty());
        proof {
            lemma_lex_from_bounds(src, 0);
            assert(lex_item_ok(src, pos0 as int, lex_from(src, 0)[pos0 as int]));
            assert(parse_attributes_spec(src, pos0) == (match target {
                Err(e) => Err::<(Seq<AttrV>, nat), Seq<char>>(e),
                Ok((attrs, p3)) => if attrs.len() == 0 {
                    Err(empty_attrs_err(src, attributes_start.span))
                } else {
                    Ok((attrs, p3))
                },
            }));
        }
        let mut res: Vec<Attribute> = Vec::new();
        proof {
            assert(attrs_view(res@) =~= Seq::<AttrV>::empty());
        }
        loop
            invariant
                self.wf(),
                self.source@ == src,
                self.items@.len() >= 1,
                entry <= self.cur(),
                attributes_start.span.start <= attributes_start.span.end,
                parse_attr_items_spec(src, self.cur(), attrs_view(res@)) == target,
                parse_attributes_spec(src, pos0) == (match target {
                    Err(e) => Err::<(Seq<AttrV>, nat), Seq<char>>(e),
                    Ok((attrs, p3)) => if attrs.len() == 0 {
                        Err(empty_attrs_err(src, attributes_start.span))
                    } else {
                        Ok((attrs, p3))
                    },
                }),
            decreases self.items@.len() - self.cur(),
        {
            let ghost p0 = self.cur();
            let ghost accv0 = attrs_view(res@);
            let next = self.next_token();
            let next = match next {
                None => {
                    let e = self.make_end_of_file_chic_error();
                    proof {
                        assert(parse_attr_items_spec(src, p0, accv0) == Err::<
                            (Seq<AttrV>, nat),
                            Seq<char>,
                        >(eof_err(src)));
                    }
                    return Err(e);
                },
                Some(n) => n,
            };
            let t = match next {
                Ok(t) => t,
                Err(e) => {
                    proof {
                        assert(parse_attr_items_spec(src, p0, accv0) == Err::<
                            (Seq<AttrV>, nat),
                            Seq<char>,
                        >(e@));
                    }
                    return Err(e);
                },
            };
            proof {
                lemma_lex_from_bounds(src, 0);
                assert(lex_item_ok(src, p0 as int, lex_from(src, 0)[p0 as int]));
            }
            if matches!(t.token, Tokens::RSquareBracket) {
                proof {
                    assert(target == Ok::<(Seq<AttrV>, nat), Seq<char>>((accv0, p0 + 1)));
                }
                if res.len() == 0 {
                    let e = self.make_chic_error_for_parse_error(
                        &attributes_start.span,
                        "Attributes cannot be empty",
                        None,
                    );
                    return Err(e);
                }
                return Ok(res);
            }
            if matches!(t.token, Tokens::Comma) {
                continue;
            }
            if !is_attr_kind(t.token) {
                let e = self.unexpected_error(&t, &Tokens::attribute_tokens());
                proof {
                    assert(parse_attr_items_spec(src, p0, accv0) == Err::<
                        (Seq<AttrV>, nat),
                        Seq<char>,
                    >(e@));
                }
                return Err(e);
            }
            let ty = t.token.as_attribute_type();
            let value: Option<String> = match ty {
                AttributeType::Short | AttributeType::Long => {
                    let pk = self.peek_token();
                    match pk {
                        None => {
                            let e = self.make_end_of_file_chic_error();
                            proof {
                                assert(parse_attr_items_spec(src, p0, accv0) == Err::<
                                    (Seq<AttrV>, nat),
                                    Seq<char>,
                                >(eof_err(src)));
                            }
                            return Err(e);
                        },
                        Some(Err(e)) => {
                            proof {
                                assert(parse_attr_items_spec(src, p0, accv0) == Err::<
                                    (Seq<AttrV>, nat),
                                    Seq<char>,
                                >(e@));
                            }
                            return Err(e);
                        },
                        Some(Ok(t2)) => {
                            if matches!(t2.token, Tokens::Equals) {
                                let _ = self.next_token();
                                let id_token = match self.ensure_next_token(Tokens::Identifier) {
                                    Ok(t) => t,
                                    Err(e) => {
                                        proof {
                                            assert(parse_attr_items_spec(src, p0, accv0) == Err::<
                                                (Seq<AttrV>, nat),
                                                Seq<char>,
                                            >(e@));
                                        }
                                        return Err(e);
                                    },
                                };
                                proof {
                                    assert(lex_item_ok(
                                        src,
                                        p0 as int + 2,
                                        lex_from(src, 0)[p0 as int + 2],
                                    ));
                                }
                                Some(self.string_from_range(id_token.span.start, id_token.span.end))
                            } else {
                                None
                            }
                        },
                    }
                },
                AttributeType::Alias => {
                    match self.ensure_next_token(Tokens::Equals) {
                        Ok(_) => {},
                        Err(e) => {
                            proof {
                                assert(parse_attr_items_spec(src, p0, accv0) == Err::<
                                    (Seq<AttrV>, nat),
                                    Seq<char>,
                                >(e@));
                            }
                            return Err(e);
                        },
                    }
                    let id_token = match self.ensure_next_token(Tokens::Identifier) {
                        Ok(t) => t,
                        Err(e) => {
                            proof {
                                assert(parse_attr_items_spec(src, p0, accv0) == Err::<
                                    (Seq<AttrV>, nat),
                                    Seq<char>,
                                >(e@));
                            }
                            return Err(e);
                        },
                    };
                    proof {
                        assert(lex_item_ok(src, p0 as int + 2, lex_from(src, 0)[p0 as int + 2]));
                    }
                    Some(self.string_from_range(id_token.span.start, id_token.span.end))
                },
                _ => None,
            };
            let attribute = Attribute { ty, value, span: t.span };
            let ghost r0 = res@;
            res.push(attribute);
            proof {
                lemma_attrs_view_push(r0, attribute);
                assert(attrs_view(res@) =~= accv0.push(attr_view(attribute)));
                assert(parse_attr_items_spec(src, p0, accv0) == parse_attr_items_spec(
                    src,
                    self.cur(),
                    attrs_view(res@),
                ));
            }
        }
    }
}

/// Whether a token stands for an attribute kind.
fn is_attr_kind(t: Tokens) -> (r: bool)
    ensures
        r == is_attr_kind_token(t),
{
    match t {
        Tokens::Short | Tokens::Long | Tokens::Alias | Tokens::Flatten | Tokens::Main
            | Tokens::SubCommand => true,
        _ => false,
    }
}

/// Whether `t` occurs in `v`.
fn contains_token(v: &Vec<Tokens>, t: Tokens) -> (r: bool)
    ensures
        r == v@.contains(t),
{
    let mut i: usize = 0;
    while i < v.len()
        invariant
            i <= v@.len(),
            forall|j: int| 0 <= j < i ==> v@[j] != t,
        decreases v@.len() - i,
    {
        if v[i] == t {
            return true;
        }
        i += 1;
    }
    false
}

/// The help line naming the expected tokens.
fn expected_help(expected: &Vec<Tokens>) -> (r: String)
    ensures
        r@ == "Tokens can be any of: "@ + join_lits(expected@),
{
    let mut buf = str_to_chars("Tokens can be any of: ");
    proof {
        assert(expected@.skip(0) =~= expected@);
    }
    let mut i: usize = 0;
    while i < expected.len()
        invariant
            i <= expected@.len(),
            "Tokens can be any of: "@ + join_lits(expected@) == buf@ + join_lits(
                expected@.skip(i as int),
            ),
        decreases expected@.len() - i,
    {
        let ghost pre = buf@;
        append_str(&mut buf, expected[i].as_token_literal());
        if i + 1 < expected.len() {
            append_str(&mut buf, ", ");
        }
        proof {
            let rest = expected@.skip(i as int);
            assert(rest[0] == expected@[i as int]);
            assert(rest.drop_first() =~= expected@.skip(i as int + 1));
            if i + 1 < expected@.len() {
                assert(rest.len() >= 2);
                assert(join_lits(rest) == token_literal(rest[0]) + ", "@ + join_lits(
                    rest.drop_first(),
                ));
                assert(pre + join_lits(rest) =~= buf@ + join_lits(expected@.skip(i as int + 1)));
            } else {
                assert(rest.len() == 1);
                assert(join_lits(rest) == token_literal(rest[0]));
                assert(expected@.skip(i as int + 1).len() == 0);
                assert(join_lits(expected@.skip(i as int + 1)) == Seq::<char>::empty());
                assert(pre + join_lits(rest) =~= buf@ + join_lits(expected@.skip(i as int + 1)));
            }
        }
        i += 1;
    }
    proof {
        assert(expected@.skip(expected@.len() as int).len() == 0);
        assert(buf@ + Seq::<char>::empty() =~= buf@);
    }
    chars_to_string(&buf)
}



/// The type tokens accepted inside a generic wrapper.
fn inner_type_tokens() -> (r: Vec<Tokens>)
    ensures
        r@ == inner_type_tokens_spec(),
{
    let mut v: Vec<Tokens> = Vec::new();
    v.push(Tokens::String);
    v.push(Tokens::I16);
    v.push(Tokens::U16);
    v.push(Tokens::I32);
    v.push(Tokens::U32);
    v.push(Tokens::I64);
    v.push(Tokens::U64);
    v.push(Tokens::F32);
    v.push(Tokens::F64);
    v.push(Tokens::Bool);
    v.push(Tokens::Identifier);
    proof {
        assert(v@ =~= inner_type_tokens_spec());
    }
    v
}

/// The tokens that may open an item of a struct body.
fn struct_body_tokens() -> (r: Vec<Tokens>)
    ensures
        r@ == struct_body_tokens_spec(),
{
    let mut v: Vec<Tokens> = Vec::new();
    v.push(Tokens::Pound);
    v.push(Tokens::Identifier);
    v.push(Tokens::RBrace);
    proof {
        assert(v@ =~= struct_body_tokens_spec());
    }
    v
}

/// The tokens that may open a top-level item.
fn top_tokens() -> (r: Vec<Tokens>)
    ensures
        r@ == top_tokens_spec(),
{
    let mut v: Vec<Tokens> = Vec::new();
    v.push(Tokens::Pound);
    v.push(Tokens::Struct);
    proof {
        assert(v@ =~= top_tokens_spec());
    }
    v
}

impl Parser {
    /// The field type a single non-generic type token stands for.
    fn base_field_type(&self, t: &ParserToken) -> (r: FieldType)
        requires
            inner_type_tokens_spec().contains(t.token),
            t.span.start <= t.span.end <= self.src().len(),
        ensures
            base_view(r) == base_of_token(self.src(), PTok { token: t.token, span: t.span }),
            !(r is Vec),
            !(r is Optional),
    {
        match t.token {
            Tokens::String => FieldType::String,
            Tokens::I16 => FieldType::I16,
            Tokens::U16 => FieldType::U16,
            Tokens::I32 => FieldType::I32,
            Tokens::U32 => FieldType::U32,
            Tokens::I64 => FieldType::I64,
            Tokens::U64 => FieldType::U64,
            Tokens::F32 => FieldType::F32,
            Tokens::F64 => FieldType::F64,
            Tokens::Bool => FieldType::Bool,
            Tokens::Identifier => FieldType::Struct(
                self.string_from_range(t.span.start, t.span.end),
            ),
            _ => {
                proof {
                    assert(false);
                }
                FieldType::I16
            },
        }
    }

    fn parse_field(&mut self) -> (r: Result<Field, String>)
        requires
            old(self).wf(),
            old(self).items@.len() >= 1,
        ensures
            final(self).wf(),
            final(self).src() == old(self).src(),
            match (r, parse_field_spec(old(self).src(), old(self).cur())) {
                (Ok(f), Ok(sp)) => sp.0 == field_view(f) && sp.1 == final(self).cur() && f.name@.len() >= 1,
                (Err(e), Err(es)) => es == e@,
                _ => false,
            },
            r is Ok ==> old(self).cur() < final(self).cur(),
    {
        let ghost src = self.source@;
        let ghost pos0 = self.cur();
        let id_token = match self.ensure_next_token(Tokens::Identifier) {
            Ok(t) => t,
            Err(e) => {
                return Err(e);
            },
        };
        proof {
            lemma_lex_from_bounds(src, 0);
            assert(lex_item_ok(src, pos0 as int, lex_from(src, 0)[pos0 as int]));
        }
        let name = self.string_from_range(id_token.span.start, id_token.span.end);
        match self.ensure_next_token(Tokens::Colon) {
            Ok(_) => {},
            Err(e) => {
                return Err(e);
            },
        }
        let ty_token = match self.ensure_next_token_any_of(&Tokens::type_tokens()) {
            Ok(t) => t,
            Err(e) => {
                return Err(e);
            },
        };
        let is_wrapper = matches!(ty_token.token, Tokens::Vec) || matches!(
            ty_token.token,
            Tokens::Optional,
        );
        let ty: FieldType;
        let type_span: Span;
        if is_wrapper {
            match self.ensure_next_token(Tokens::LAngleBracket) {
                Ok(_) => {},
                Err(e) => {
                    return Err(e);
                },
            }
            let inner_token = match self.ensure_next_token_any_of(&inner_type_tokens()) {
                Ok(t) => t,
                Err(e) => {
                    return Err(e);
                },
            };
            match self.ensure_next_token(Tokens::RAngleBracket) {
                Ok(_) => {},
                Err(e) => {
                    return Err(e);
                },
            }
            proof {
                assert(lex_item_ok(src, pos0 as int + 4, lex_from(src, 0)[pos0 as int + 4]));
            }
            let inner_ty = self.base_field_type(&inner_token);
            ty = if matches!(ty_token.token, Tokens::Vec) {
                FieldType::Vec(Box::new(inner_ty))
            } else {
                FieldType::Optional(Box::new(inner_ty))
            };
            type_span = inner_token.span;
        } else {
            proof {
                assert(lex_item_ok(src, pos0 as int + 2, lex_from(src, 0)[pos0 as int + 2]));
            }
            ty = self.base_field_type(&ty_token);
            type_span = ty_token.span;
        }
        let pk = self.peek_token();
        match pk {
            None => {},
            Some(Err(e)) => {
                return Err(e);
            },
            Some(Ok(t)) => {
                if matches!(t.token, Tokens::Comma) {
                    let _ = self.next_token();
                }
            },
        }
        let f = Field {
            name,
            attributes: Vec::new(),
            ty,
            name_span: id_token.span,
            type_span,
        };
        proof {
            assert(attrs_view(f.attributes@) =~= Seq::<AttrV>::empty());
        }
        Ok(f)
    }

    /// Consumes the closing brace of a struct body and builds the node;
    /// struct attributes are attached by the caller.
    fn finish_struct(&mut self, name: String, name_span: Span, fields: Vec<Field>) -> (r: Result<
        Struct,
        String,
    >)
        requires
            old(self).wf(),
            old(self).items@.len() >= 1,
        ensures
            final(self).wf(),
            final(self).src() == old(self).src(),
            match (r, ensure_next_spec(old(self).src(), old(self).cur(), seq![Tokens::RBrace])) {
                (Ok(st), Ok(sp)) => struct_view(st) == (StructV {
                    attributes: Seq::empty(),
                    fields: fields_view(fields@),
                    name: name@,
                    name_span,
                }) && sp.1 == final(self).cur(),
                (Err(e), Err(es)) => es == e@,
                _ => false,
            },
            r is Ok ==> old(self).cur() < final(self).cur(),
    {
        match self.ensure_next_token(Tokens::RBrace) {
            Ok(_) => {},
            Err(e) => {
                return Err(e);
            },
        }
        let strukt = Struct { attributes: Vec::new(), fields, name, name_span };
        proof {
            assert(attrs_view(strukt.attributes@) =~= Seq::<AttrV>::empty());
        }
        Ok(strukt)
    }

    #[verifier::loop_isolation(false)]
    fn parse_struct(&mut self) -> (r: Result<Struct, String>)
        requires
            old(self).wf(),
            old(self).items@.len() >= 1,
        ensures
            final(self).wf(),
            final(self).src() == old(self).src(),
            match (r, parse_struct_spec(old(self).src(), old(self).cur())) {
                (Ok(st), Ok(sp)) => sp.0 == struct_view(st) && sp.1 == final(self).cur() && st.name@.len() >= 1,
                (Err(e), Err(es)) => es == e@,
                _ => false,
            },
            r is Ok ==> old(self).cur() < final(self).cur(),
    {
        let ghost src = self.source@;
        let ghost pos0 = self.cur();
        match self.ensure_next_token(Tokens::Struct) {
            Ok(_) => {},
            Err(e) => {
                return Err(e);
            },
        }
        let id_token = match self.ensure_next_token(Tokens::Identifier) {
            Ok(t) => t,
            Err(e) => {
                return Err(e);
            },
        };
        proof {
            lemma_lex_from_bounds(src, 0);
            assert(lex_item_ok(src, pos0 as int + 1, lex_from(src, 0)[pos0 as int + 1]));
        }
        let name = self.string_from_range(id_token.span.start, id_token.span.end);
        match self.ensure_next_token(Tokens::LBrace) {
            Ok(_) => {},
            Err(e) => {
                return Err(e);
            },
        }
        let ghost entry = self.cur();
        let ghost target = parse_struct_fields_spec(src, entry, Seq::<FieldV>::empty());
        let mut fields: Vec<Field> = Vec::new();
        proof {
            assert(fields_view(fields@) =~= Seq::<FieldV>::empty());
        }
        loop
            invariant
                self.wf(),
                self.source@ == src,
                self.items@.len() >= 1,
                entry <= self.cur(),
                parse_struct_fields_spec(src, self.cur(), fields_view(fields@)) == target,
            decreases self.items@.len() - self.cur(),
        {
            let ghost p0 = self.cur();
            let ghost accv0 = fields_view(fields@);
            let pk = self.peek_token();
            let t = match pk {
                None => {
                    proof {
                        assert(target == Ok::<(Seq<FieldV>, nat), Seq<char>>((accv0, p0)));
                    }
                    return self.finish_struct(name, id_token.span, fields);
                },
                Some(Err(e)) => {
                    return Err(e);
                },
                Some(Ok(t)) => t,
            };
            if matches!(t.token, Tokens::RBrace) {
                proof {
                    assert(target == Ok::<(Seq<FieldV>, nat), Seq<char>>((accv0, p0)));
                }
                return self.finish_struct(name, id_token.span, fields);
            }
            if matches!(t.token, Tokens::Pound) {
                let attributes = match self.parse_attributes() {
                    Ok(a) => a,
                    Err(e) => {
                        return Err(e);
                    },
                };
                let mut field = match self.parse_field() {
                    Ok(f) => f,
                    Err(e) => {
                        return Err(e);
                    },
                };
                let defaulted = default_attributes(attributes, &field.name);
                field.attributes = defaulted;
                let ghost f0 = fields@;
                fields.push(field);
                proof {
                    lemma_fields_view_push(f0, field);
                    assert(parse_struct_fields_spec(src, p0, accv0) == parse_struct_fields_spec(
                        src,
                        self.cur(),
                        fields_view(fields@),
                    ));
                }
            } else if matches!(t.token, Tokens::Identifier) {
                let field = match self.parse_field() {
                    Ok(f) => f,
                    Err(e) => {
                        return Err(e);
                    },
                };
                let ghost f0 = fields@;
                fields.push(field);
                proof {
                    lemma_fields_view_push(f0, field);
                    assert(parse_struct_fields_spec(src, p0, accv0) == parse_struct_fields_spec(
                        src,
                        self.cur(),
                        fields_view(fields@),
                    ));
                }
            } else {
                proof {
                    lemma_lex_from_bounds(src, 0);
                    assert(lex_item_ok(src, p0 as int, lex_from(src, 0)[p0 as int]));
                }
                let e = self.unexpected_error(&t, &struct_body_tokens());
                return Err(e);
            }
        }
    }

    /// Parses the whole source: zero or more struct definitions, each
    /// optionally preceded by an attribute block. On success the spec
    /// is returned; on the first unexpected token, premature end of
    /// input or unknown lexical item, the rendered diagnostic.
    #[verifier::loop_isolation(false)]
    pub fn parse(&mut self) -> (r: Result<Spec, String>)
        requires
            old(self).wf(),
            old(self).cur() == 0,
        ensures
            final(self).wf(),
            match (r, parse_result(old(self).src())) {
                (Ok(sp), Ok(sv)) => spec_view(sp) == sv && sv.wf(),
                (Err(e), Err(es)) => es == e@,
                _ => false,
            },
    {
        let ghost src = self.source@;
        let ghost target = parse_tops_spec(src, 0, Seq::<StructV>::empty());
        let mut structs: Vec<Struct> = Vec::new();
        proof {
            assert(structs_view(structs@) =~= Seq::<StructV>::empty());
        }
        loop
            invariant
                self.wf(),
                self.source@ == src,
                parse_tops_spec(src, self.cur(), structs_view(structs@)) == target,
            decreases self.items@.len() - self.cur(),
        {
            let ghost p0 = self.cur();
            let ghost accv0 = structs_view(structs@);
            let pk = self.peek_token();
            let t = match pk {
                None => {
                    proof {
                        assert(target == Ok::<Seq<StructV>, Seq<char>>(accv0));
                    }
                    let source_copy = clone_chars(&self.source);
                    let sp = Spec { structs, source: source_copy };
                    proof {
                        assert(spec_view(sp) == (SpecV { structs: accv0, source: src }));
                        lemma_parse_result_wf(src);
                    }
                    return Ok(sp);
                },
                Some(Err(e)) => {
                    return Err(e);
                },
                Some(Ok(t)) => t,
            };
            if matches!(t.token, Tokens::Pound) {
                let attributes = match self.parse_attributes() {
                    Ok(a) => a,
                    Err(e) => {
                        return Err(e);
                    },
                };
                let pk2 = self.peek_token();
                let t2 = match pk2 {
                    None => {
                        let e = self.make_end_of_file_chic_error();
                        return Err(e);
                    },
                    Some(Err(e)) => {
                        return Err(e);
                    },
                    Some(Ok(t2)) => t2,
                };
                if matches!(t2.token, Tokens::Struct) {
                    let mut strukt = match self.parse_struct() {
                        Ok(s) => s,
                        Err(e) => {
                            return Err(e);
                        },
                    };
                    let ghost s_plain = strukt;
                    strukt.attributes = attributes;
                    let ghost s0 = structs@;
                    structs.push(strukt);
                    proof {
                        lemma_structs_view_push(s0, strukt);
                        assert(struct_view(strukt) == (StructV {
                            attributes: attrs_view(attributes@),
                            ..struct_view(s_plain)
                        }));
                        assert(parse_tops_spec(src, p0, accv0) == parse_tops_spec(
                            src,
                            self.cur(),
                            structs_view(structs@),
                        ));
                    }
                } else {
                    proof {
                        lemma_lex_from_bounds(src, 0);
                        assert(lex_item_ok(
                            src,
                            self.cur() as int,
                            lex_from(src, 0)[self.cur() as int],
                        ));
                    }
                    let mut v: Vec<Tokens> = Vec::new();
                    v.push(Tokens::Struct);
                    proof {
                        assert(v@ =~= seq![Tokens::Struct]);
                    }
                    let e = self.unexpected_error(&t2, &v);
                    return Err(e);
                }
            } else if matches!(t.token, Tokens::Struct) {
                let strukt = match self.parse_struct() {
                    Ok(s) => s,
                    Err(e) => {
                        return Err(e);
                    },
                };
                let ghost s0 = structs@;
                structs.push(strukt);
                proof {
                    lemma_structs_view_push(s0, strukt);
                    assert(parse_tops_spec(src, p0, accv0) == parse_tops_spec(
                        src,
                        self.cur(),
                        structs_view(structs@),
                    ));
                }
            } else {
                proof {
                    lemma_lex_from_bounds(src, 0);
                    assert(lex_item_ok(src, p0 as int, lex_from(src, 0)[p0 as int]));
                }
                let e = self.unexpected_error(&t, &top_tokens());
                return Err(e);
            }
        }
    }
}

/// A copy of a character vector, element for element.
fn clone_chars(v: &Vec<char>) -> (r: Vec<char>)
    ensures
        r@ == v@,
{
    let mut r: Vec<char> = Vec::new();
    let mut i: usize = 0;
    while i < v.len()
        invariant
            i <= v@.len(),
            r@ == v@.subrange(0, i as int),
        decreases v@.len() - i,
    {
        r.push(v[i]);
        i += 1;
        proof {
            assert(r@ =~= v@.subrange(0, i as int));
        }
    }
    proof {
        assert(v@.subrange(0, v@.len() as int) =~= v@);
    }
    r
}

/// The attributes of a field with `short` and `long` values defaulted
/// from the field name.
fn default_attributes(attrs: Vec<Attribute>, name: &String) -> (r: Vec<Attribute>)
    requires
        name@.len() >= 1,
    ensures
        attrs_view(r@) == default_attrs(attrs_view(attrs@), name@),
{
    let mut r: Vec<Attribute> = Vec::new();
    let mut i: usize = 0;
    while i < attrs.len()
        invariant
            i <= attrs@.len(),
            name@.len() >= 1,
            r@.len() == i,
            forall|j: int|
                0 <= j < i ==> attr_view(#[trigger] r@[j]) == default_attrs(
                    attrs_view(attrs@),
                    name@,
                )[j],
        decreases attrs@.len() - i,
    {
        let a = &attrs[i];
        let defaulted: Attribute = match a.ty {
            AttributeType::Short => {
                match &a.value {
                    None => {
                        let c = name.as_str().get_char(0);
                        let mut v: Vec<char> = Vec::new();
                        v.push(c);
                        proof {
                            assert(v@ =~= seq![name@[0]]);
                        }
                        Attribute { ty: a.ty, value: Some(chars_to_string(&v)), span: a.span }
                    },
                    Some(s) => Attribute { ty: a.ty, value: Some(s.clone()), span: a.span },
                }
            },
            AttributeType::Long => {
                match &a.value {
                    None => Attribute { ty: a.ty, value: Some(name.clone()), span: a.span },
                    Some(s) => Attribute { ty: a.ty, value: Some(s.clone()), span: a.span },
                }
            },
            _ => a.clone(),
        };
        r.push(defaulted);
        i += 1;
    }
    proof {
        assert(attrs_view(r@) =~= default_attrs(attrs_view(attrs@), name@));
    }
    r
}



// ---------------------------------------------------------------------------
// Well-formedness of everything the parser returns.
// ---------------------------------------------------------------------------

/// What holds of every attribute the parser returns, before field-level
/// defaulting: a span past the opening of the block and within the
/// source, and an explicit value wherever the grammar demands one.
pub open spec fn attr_ok(src: Seq<char>, a: AttrV) -> bool {
    &&& 1 <= a.span.start
    &&& a.span.start <= a.span.end
    &&& a.span.end <= src.len()
    &&& (a.kind is Alias ==> a.value is Some)
}

proof fn lemma_attr_items_wf(src: Seq<char>, pos: nat, acc: Seq<AttrV>)
    requires
        src.len() <= usize::MAX,
        1 <= pos,
        forall|i: int| 0 <= i < acc.len() ==> attr_ok(src, #[trigger] acc[i]),
    ensures
        parse_attr_items_spec(src, pos, acc) matches Ok(sp) ==> {
            &&& forall|i: int| 0 <= i < sp.0.len() ==> attr_ok(src, #[trigger] sp.0[i])
            &&& pos < sp.1 <= toks(src).len()
        },
    decreases toks(src).len() - pos,
{
    lemma_lex_from_bounds(src, 0);
    match peek_spec(src, pos) {
        None => {},
        Some(Err(_)) => {},
        Some(Ok(t)) => {
            assert(lex_item_ok(src, pos as int, lex_from(src, 0)[pos as int]));
            if t.token is RSquareBracket {
            } else if t.token is Comma {
                lemma_attr_items_wf(src, (pos + 1) as nat, acc);
            } else if !is_attr_kind_token(t.token) {
            } else {
                let kind = attr_type_of(t.token);
                if kind is Short || kind is Long {
                    match peek_spec(src, pos + 1) {
                        None => {},
                        Some(Err(_)) => {},
                        Some(Ok(t2)) => if t2.token is Equals {
                            match ensure_next_spec(src, (pos + 2) as nat, seq![Tokens::Identifier]) {
                                Err(_) => {},
                                Ok((id, _p)) => {
                                    let a = AttrV {
                                        kind,
                                        value: Some(text_at(src, id.span)),
                                        span: t.span,
                                    };
                                    assert(attr_ok(src, a));
                                    assert(forall|i: int|
                                        0 <= i < acc.push(a).len() ==> attr_ok(
                                            src,
                                            #[trigger] acc.push(a)[i],
                                        ));
                                    lemma_attr_items_wf(src, (pos + 3) as nat, acc.push(a));
                                },
                            }
                        } else {
                            let a = AttrV { kind, value: None, span: t.span };
                            assert(attr_ok(src, a));
                            assert(forall|i: int|
                                0 <= i < acc.push(a).len() ==> attr_ok(
                                    src,
                                    #[trigger] acc.push(a)[i],
                                ));
                            lemma_attr_items_wf(src, (pos + 1) as nat, acc.push(a));
                        },
                    }
                } else if kind is Alias {
                    match ensure_next_spec(src, (pos + 1) as nat, seq![Tokens::Equals]) {
                        Err(_) => {},
                        Ok(_) => match ensure_next_spec(
                            src,
                            (pos + 2) as nat,
                            seq![Tokens::Identifier],
                        ) {
                            Err(_) => {},
                            Ok((id, _p2)) => {
                                let a = AttrV {
                                    kind,
                                    value: Some(text_at(src, id.span)),
                                    span: t.span,
                                };
                                assert(attr_ok(src, a));
                                assert(forall|i: int|
                                    0 <= i < acc.push(a).len() ==> attr_ok(
                                        src,
                                        #[trigger] acc.push(a)[i],
                                    ));
                                lemma_attr_items_wf(src, (pos + 3) as nat, acc.push(a));
                            },
                        },
                    }
                } else {
                    let a = AttrV { kind, value: None, span: t.span };
                    assert(attr_ok(src, a));
                    assert(forall|i: int|
                        0 <= i < acc.push(a).len() ==> attr_ok(src, #[trigger] acc.push(a)[i]));
                    lemma_attr_items_wf(src, (pos + 1) as nat, acc.push(a));
                }
            }
        },
    }
}

proof fn lemma_attributes_wf(src: Seq<char>, pos: nat)
    requires
        src.len() <= usize::MAX,
    ensures
        parse_attributes_spec(src, pos) matches Ok(sp) ==> {
            &&& forall|i: int| 0 <= i < sp.0.len() ==> attr_ok(src, #[trigger] sp.0[i])
            &&& pos < sp.1 <= toks(src).len()
        },
{
    if parse_attributes_spec(src, pos) is Ok {
        lemma_attr_items_wf(
            src,
            (pos + 2) as nat,
            Seq::<AttrV>::empty(),
        );
    }
}

proof fn lemma_field_wf(src: Seq<char>, pos: nat)
    requires
        src.len() <= usize::MAX,
    ensures
        parse_field_spec(src, pos) matches Ok(sp) ==> {
            &&& sp.0.name.len() >= 1
            &&& pos <= sp.0.name_span.start
            &&& sp.0.name_span.start < sp.0.name_span.end <= src.len()
            &&& 1 <= sp.0.type_span.start
            &&& sp.0.type_span.start <= sp.0.type_span.end <= src.len()
            &&& sp.0.ty.wf()
            &&& sp.0.attributes.len() == 0
            &&& pos < sp.1 <= toks(src).len()
        },
{
    lemma_lex_from_bounds(src, 0);
    if parse_field_spec(src, pos) is Ok {
        assert(lex_item_ok(src, pos as int, lex_from(src, 0)[pos as int]));
        assert(lex_item_ok(src, pos as int + 2, lex_from(src, 0)[pos as int + 2]));
        let ty_tok = peek_spec(src, (pos + 2) as nat)->Some_0->Ok_0;
        if ty_tok.token is Vec || ty_tok.token is Optional {
            assert(lex_item_ok(src, pos as int + 4, lex_from(src, 0)[pos as int + 4]));
            let inner_tok = peek_spec(src, (pos + 4) as nat)->Some_0->Ok_0;
            assert(inner_type_tokens_spec().contains(inner_tok.token));
            assert(!(base_of_token(src, inner_tok) is Nested)) by {
                let st = inner_type_tokens_spec();
                let i = choose|i: int| 0 <= i < st.len() && st[i] == inner_tok.token;
                assert(st[i] == inner_tok.token);
            }
        } else {
            assert(type_tokens_spec().contains(ty_tok.token));
            assert(!(base_of_token(src, ty_tok) is Nested)) by {
                let st = type_tokens_spec();
                let i = choose|i: int| 0 <= i < st.len() && st[i] == ty_tok.token;
                assert(st[i] == ty_tok.token);
            }
        }
    }
}

proof fn lemma_struct_fields_wf(src: Seq<char>, pos: nat, acc: Seq<FieldV>)
    requires
        src.len() <= usize::MAX,
        1 <= pos,
        pos <= toks(src).len(),
        forall|i: int| 0 <= i < acc.len() ==> (#[trigger] acc[i]).wf(src.len()),
    ensures
        parse_struct_fields_spec(src, pos, acc) matches Ok(sp) ==> {
            &&& forall|i: int| 0 <= i < sp.0.len() ==> (#[trigger] sp.0[i]).wf(src.len())
            &&& pos <= sp.1 <= toks(src).len()
        },
    decreases toks(src).len() - pos,
{
    lemma_lex_from_bounds(src, 0);
    match peek_spec(src, pos) {
        None => {},
        Some(Err(_)) => {},
        Some(Ok(t)) => {
            if t.token is RBrace {
            } else if t.token is Pound {
                lemma_attributes_wf(src, pos);
                match parse_attributes_spec(src, pos) {
                    Err(_) => {},
                    Ok((attrs, p1)) => {
                        lemma_field_wf(src, p1);
                        match parse_field_spec(src, p1) {
                            Err(_) => {},
                            Ok((f, p2)) => {
                                let fd = FieldV { attributes: default_attrs(attrs, f.name), ..f };
                                assert(fd.wf(src.len())) by {
                                    assert(forall|i: int|
                                        0 <= i < fd.attributes.len()
                                            ==> (#[trigger] fd.attributes[i]).wf_on_field(
                                            src.len(),
                                        )) by {
                                        assert(forall|i: int|
                                            0 <= i < attrs.len() ==> attr_ok(
                                                src,
                                                #[trigger] attrs[i],
                                            ));
                                        assert(forall|i: int|
                                            0 <= i < fd.attributes.len()
                                                ==> #[trigger] fd.attributes[i]
                                                == default_attr_one(attrs[i], f.name));
                                    }
                                }
                                assert(forall|i: int|
                                    0 <= i < acc.push(fd).len() ==> (#[trigger] acc.push(
                                        fd,
                                    )[i]).wf(src.len()));
                                if pos < p2 <= toks(src).len() {
                                    lemma_struct_fields_wf(src, p2, acc.push(fd));
                                }
                            },
                        }
                    },
                }
            } else if t.token is Identifier {
                lemma_field_wf(src, pos);
                match parse_field_spec(src, pos) {
                    Err(_) => {},
                    Ok((f, p2)) => {
                        assert(f.wf(src.len()));
                        assert(forall|i: int|
                            0 <= i < acc.push(f).len() ==> (#[trigger] acc.push(f)[i]).wf(
                                src.len(),
                            ));
                        if pos < p2 <= toks(src).len() {
                            lemma_struct_fields_wf(src, p2, acc.push(f));
                        }
                    },
                }
            } else {
            }
        },
    }
}

proof fn lemma_struct_wf(src: Seq<char>, pos: nat)
    requires
        src.len() <= usize::MAX,
    ensures
        parse_struct_spec(src, pos) matches Ok(sp) ==> {
            &&& sp.0.wf(src.len())
            &&& sp.0.attributes.len() == 0
            &&& pos < sp.1 <= toks(src).len()
        },
{
    lemma_lex_from_bounds(src, 0);
    if parse_struct_spec(src, pos) is Ok {
        assert(lex_item_ok(src, pos as int + 1, lex_from(src, 0)[pos as int + 1]));
        lemma_struct_fields_wf(src, (pos + 3) as nat, Seq::<FieldV>::empty());
    }
}

proof fn lemma_tops_wf(src: Seq<char>, pos: nat, acc: Seq<StructV>)
    requires
        src.len() <= usize::MAX,
        forall|i: int| 0 <= i < acc.len() ==> (#[trigger] acc[i]).wf(src.len()),
    ensures
        parse_tops_spec(src, pos, acc) matches Ok(structs) ==> forall|i: int|
            0 <= i < structs.len() ==> (#[trigger] structs[i]).wf(src.len()),
    decreases toks(src).len() - pos,
{
    lemma_lex_from_bounds(src, 0);
    match peek_spec(src, pos) {
        None => {},
        Some(Err(_)) => {},
        Some(Ok(t)) => {
            if t.token is Pound {
                lemma_attributes_wf(src, pos);
                match parse_attributes_spec(src, pos) {
                    Err(_) => {},
                    Ok((attrs, p1)) => match peek_spec(src, p1) {
                        None => {},
                        Some(Err(_)) => {},
                        Some(Ok(t2)) => if t2.token is Struct {
                            lemma_struct_wf(src, p1);
                            match parse_struct_spec(src, p1) {
                                Err(_) => {},
                                Ok((st, p2)) => {
                                    let sa = StructV { attributes: attrs, ..st };
                                    assert(sa.wf(src.len()));
                                    assert(forall|i: int|
                                        0 <= i < acc.push(sa).len() ==> (#[trigger] acc.push(
                                            sa,
                                        )[i]).wf(src.len()));
                                    if pos < p2 <= toks(src).len() {
                                        lemma_tops_wf(src, p2, acc.push(sa));
                                    }
                                },
                            }
                        } else {
                        },
                    },
                }
            } else if t.token is Struct {
                lemma_struct_wf(src, pos);
                match parse_struct_spec(src, pos) {
                    Err(_) => {},
                    Ok((st, p2)) => {
                        assert(forall|i: int|
                            0 <= i < acc.push(st).len() ==> (#[trigger] acc.push(st)[i]).wf(
                                src.len(),
                            ));
                        if pos < p2 <= toks(src).len() {
                            lemma_tops_wf(src, p2, acc.push(st));
                        }
                    },
                }
            } else {
            }
        },
    }
}

/// Everything a successful parse returns is well-formed.
pub proof fn lemma_parse_result_wf(src: Seq<char>)
    requires
        src.len() <= usize::MAX,
    ensures
        parse_result(src) matches Ok(sv) ==> sv.wf(),
{
    lemma_tops_wf(src, 0, Seq::<StructV>::empty());
}


} // verus!
