//! Semantic analysis of a parsed [`Spec`]: duplicate struct names,
//! undefined type references, duplicate field names, attribute
//! placement and exclusivity, and flag-name collisions between the
//! resolved `short`, `long` and `alias` values of a struct's fields.
//!
//! The functions `check_*_spec` and [`check_semantics_spec`] are the
//! mathematical definition; the first failing check aborts the whole
//! analysis with a rendered diagnostic, and diagnostics that reference
//! two locations show both excerpts. [`check_semantics`] computes
//! exactly that definition.

use crate::diag::{
    lemma_line_count_prefix, lemma_line_end_bounds, lemma_line_start_bounds, lemma_line_start_mono,
    lemma_newline_count_le, lemma_newline_count_pos, line_count, line_end, line_of, line_start,
    newline_count, render_error, render_error_help, render_report, sat_sub,
};
use crate::text::{append_str, chars_to_string, str_to_chars, sub_chars};
use crate::types::{
    attr_view, attrs_view, field_view, fields_view, find_struct, spec_view, struct_view,
    structs_view, AttrV, Attribute, AttributeType, BaseV, Field, FieldV, Span, Spec, SpecMetadata,
    SpecV, Struct, StructV, TyV,
};
use vstd::prelude::*;

verus! {

// ---------------------------------------------------------------------------
// Rendered diagnostics over a three-line source context.
// ---------------------------------------------------------------------------

/// The line on which a span begins.
pub open spec fn ctx_line(src: Seq<char>, span: Span) -> nat {
    line_of(src, span.start as int)
}

/// Where the context window around a span begins: the start of the
/// line before the span's line.
pub open spec fn ctx_start(src: Seq<char>, span: Span) -> nat {
    let ln = ctx_line(src, span);
    line_start(src, if ln >= 2 { (ln - 1) as nat } else { 1nat })
}

/// Where the context window around a span ends: the end of the line
/// after the span's line.
pub open spec fn ctx_end(src: Seq<char>, span: Span) -> nat {
    let ln = ctx_line(src, span);
    let cnt = line_count(src);
    let nxt = if ln + 1 <= cnt {
        (ln + 1) as nat
    } else {
        cnt
    };
    line_end(src, line_start(src, nxt))
}

/// The text of the context window.
pub open spec fn ctx_excerpt(src: Seq<char>, span: Span) -> Seq<char> {
    src.subrange(ctx_start(src, span) as int, ctx_end(src, span) as int)
}

/// A one-location semantic diagnostic: the context window with a caret
/// range under the span.
pub open spec fn sem_error_text(src: Seq<char>, label: Seq<char>, span: Span, msg: Seq<char>)
    -> Seq<char> {
    crate::diag::error_text(
        label,
        ctx_line(src, span) as int,
        sat_sub(span.start as int, ctx_start(src, span) as int),
        sat_sub(span.end as int, ctx_start(src, span) as int),
        ctx_excerpt(src, span),
        msg,
    )
}

/// As [`sem_error_text`], with a help footer.
pub open spec fn sem_error_help_text(
    src: Seq<char>,
    label: Seq<char>,
    span: Span,
    msg: Seq<char>,
    help: Seq<char>,
) -> Seq<char> {
    crate::diag::error_help_text(
        label,
        ctx_line(src, span) as int,
        sat_sub(span.start as int, ctx_start(src, span) as int),
        sat_sub(span.end as int, ctx_start(src, span) as int),
        ctx_excerpt(src, span),
        msg,
        help,
    )
}

/// A two-location semantic diagnostic: the offending excerpt and the
/// excerpt of the conflicting definition.
pub open spec fn sem_report_text(
    src: Seq<char>,
    label: Seq<char>,
    span: Span,
    msg: Seq<char>,
    info_span: Span,
    info_msg: Seq<char>,
) -> Seq<char> {
    crate::diag::report_text(
        label,
        ctx_line(src, span) as int,
        sat_sub(span.start as int, ctx_start(src, span) as int),
        sat_sub(span.end as int, ctx_start(src, span) as int),
        ctx_excerpt(src, span),
        msg,
        ctx_line(src, info_span) as int,
        sat_sub(info_span.start as int, ctx_start(src, info_span) as int),
        sat_sub(info_span.end as int, ctx_start(src, info_span) as int),
        ctx_excerpt(src, info_span),
        info_msg,
    )
}

/// The line on which a position lies.
fn get_line_with_span(source: &Vec<char>, span: &Span) -> (r: usize)
    requires
        span.start <= source@.len(),
    ensures
        r == line_of(source@, span.start as int),
{
    let p = span.start;
    let ghost src = source@;
    let mut nc: usize = 0;
    let mut i: usize = 0;
    while i < p
        invariant
            i <= p <= src.len(),
            src == source@,
            nc == newline_count(src.subrange(0, i as int)),
            nc <= i,
        decreases p - i,
    {
        if source[i] == '\n' {
            nc += 1;
        }
        i += 1;
        proof {
            assert(src.subrange(0, i as int).drop_last() =~= src.subrange(0, i - 1));
            assert(src.subrange(0, i as int).last() == src[i - 1]);
        }
    }
    if p == 0 {
        proof {
            assert(src.subrange(0, 0).len() == 0);
        }
        0
    } else if source[p - 1] == '\n' {
        proof {
            assert(src.subrange(0, p as int).last() == src[p as int - 1]);
        }
        nc
    } else {
        proof {
            assert(src.subrange(0, p as int).last() == src[p as int - 1]);
            assert(src.subrange(0, p as int).drop_last() =~= src.subrange(0, p as int - 1));
            lemma_newline_count_le(src.subrange(0, p as int - 1));
        }
        nc + 1
    }
}

/// The position of the first newline at or after `i`, or the end.
fn get_line_end(source: &Vec<char>, i: usize) -> (r: usize)
    requires
        i <= source@.len(),
    ensures
        r == line_end(source@, i as nat),
{
    let mut j = i;
    while j < source.len() && source[j] != '\n'
        invariant
            i <= j <= source@.len(),
            line_end(source@, j as nat) == line_end(source@, i as nat),
        decreases source@.len() - j,
    {
        j += 1;
    }
    j
}

/// The span of line `line` (1-based): where it begins and where its
/// newline (or the end of the text) stands.
fn get_line_span(source: &Vec<char>, line: usize) -> (r: Span)
    ensures
        r.start == line_start(source@, line as nat),
        r.end == line_end(source@, r.start as nat),
        r.start <= r.end <= source@.len(),
{
    let mut pos: usize = 0;
    let mut k: usize = 1;
    proof {
        lemma_line_end_bounds(source@, 0);
    }
    while k < line
        invariant
            1 <= k,
            k <= line || line < 1,
            line < 1 ==> k == 1,
            pos == line_start(source@, k as nat),
            pos <= source@.len(),
        decreases line - k,
    {
        let e = get_line_end(source, pos);
        proof {
            lemma_line_end_bounds(source@, pos as nat);
        }
        pos = if e >= source.len() {
            source.len()
        } else {
            e + 1
        };
        k += 1;
        proof {
            assert(line_start(source@, k as nat) == (if line_end(
                source@,
                line_start(source@, (k - 1) as nat),
            ) >= source@.len() {
                source@.len()
            } else {
                line_end(source@, line_start(source@, (k - 1) as nat)) + 1
            }));
        }
    }
    let end = get_line_end(source, pos);
    proof {
        lemma_line_end_bounds(source@, pos as nat);
        if line < 1 {
            assert(line_start(source@, 0nat) == 0);
            assert(line_start(source@, 1nat) == 0);
        }
    }
    Span { start: pos, end }
}

/// The line number of a span and the context window around it: from
/// the start of the previous line to the end of the next.
fn get_context(source: &Vec<char>, span: &Span) -> (r: (usize, Span))
    requires
        span.start <= source@.len(),
    ensures
        r.0 == ctx_line(source@, *span),
        r.1.start == ctx_start(source@, *span),
        r.1.end == ctx_end(source@, *span),
        r.1.start <= r.1.end <= source@.len(),
{
    let line_no = get_line_with_span(source, span);
    let prev = if line_no >= 2 {
        line_no - 1
    } else {
        1
    };
    let cnt = count_lines(source);
    let nxt = if line_no < cnt {
        line_no + 1
    } else {
        cnt
    };
    let prev_span = get_line_span(source, prev);
    let next_span = get_line_span(source, nxt);
    proof {
        lemma_line_count_prefix(source@, span.start as int);
        if source@.len() > 0 {
            if source@.last() == '\n' {
                lemma_newline_count_pos(source@);
            }
            assert(cnt >= 1);
            lemma_line_start_mono(source@, prev as nat, nxt as nat);
        } else {
            assert(line_start(source@, prev as nat) == 0);
            lemma_line_start_bounds(source@, prev as nat);
            lemma_line_start_bounds(source@, nxt as nat);
        }
        lemma_line_end_bounds(source@, line_start(source@, nxt as nat));
        assert(ctx_end(source@, *span) == line_end(source@, line_start(source@, nxt as nat)));
    }
    (line_no, Span { start: prev_span.start, end: next_span.end })
}

/// The number of lines of the text.
fn count_lines(source: &Vec<char>) -> (r: usize)
    ensures
        r == line_count(source@),
{
    let n = source.len();
    let sp = Span { start: n, end: n };
    proof {
        assert(source@.subrange(0, n as int) =~= source@);
    }
    get_line_with_span(source, &sp)
}

/// A one-location diagnostic drawn over its context window.
fn make_chic_error(label: &str, source: &Vec<char>, span: &Span, error_msg: &str) -> (r: String)
    requires
        span.start <= span.end <= source@.len(),
    ensures
        r@ == sem_error_text(source@, label@, *span, error_msg@),
{
    let (line_no, ctx) = get_context(source, span);
    let excerpt_chars = sub_chars(source, ctx.start, ctx.end);
    let excerpt = chars_to_string(&excerpt_chars);
    let cs = if span.start >= ctx.start {
        span.start - ctx.start
    } else {
        0
    };
    let ce = if span.end >= ctx.start {
        span.end - ctx.start
    } else {
        0
    };
    render_error(label, line_no, cs, ce, &excerpt, error_msg)
}

/// As [`make_chic_error`], with a help footer.
fn make_chic_error_help(
    label: &str,
    source: &Vec<char>,
    span: &Span,
    error_msg: &str,
    help: &String,
) -> (r: String)
    requires
        span.start <= span.end <= source@.len(),
    ensures
        r@ == sem_error_help_text(source@, label@, *span, error_msg@, help@),
{
    let (line_no, ctx) = get_context(source, span);
    let excerpt_chars = sub_chars(source, ctx.start, ctx.end);
    let excerpt = chars_to_string(&excerpt_chars);
    let cs = if span.start >= ctx.start {
        span.start - ctx.start
    } else {
        0
    };
    let ce = if span.end >= ctx.start {
        span.end - ctx.start
    } else {
        0
    };
    render_error_help(label, line_no, cs, ce, &excerpt, error_msg, help)
}

/// A two-location diagnostic: the offending excerpt and the excerpt of
/// the conflicting definition.
fn make_chic_error_with_info(
    label: &str,
    source: &Vec<char>,
    error_span: &Span,
    error_msg: &str,
    info_span: &Span,
    info_msg: &str,
) -> (r: String)
    requires
        error_span.start <= error_span.end <= source@.len(),
        info_span.start <= info_span.end <= source@.len(),
    ensures
        r@ == sem_report_text(source@, label@, *error_span, error_msg@, *info_span, info_msg@),
{
    let (e_line, e_ctx) = get_context(source, error_span);
    let (i_line, i_ctx) = get_context(source, info_span);
    let e_excerpt = chars_to_string(&sub_chars(source, e_ctx.start, e_ctx.end));
    let i_excerpt = chars_to_string(&sub_chars(source, i_ctx.start, i_ctx.end));
    let e_cs = if error_span.start >= e_ctx.start {
        error_span.start - e_ctx.start
    } else {
        0
    };
    let e_ce = if error_span.end >= e_ctx.start {
        error_span.end - e_ctx.start
    } else {
        0
    };
    let i_cs = if info_span.start >= i_ctx.start {
        info_span.start - i_ctx.start
    } else {
        0
    };
    let i_ce = if info_span.end >= i_ctx.start {
        info_span.end - i_ctx.start
    } else {
        0
    };
    render_report(
        label,
        e_line,
        e_cs,
        e_ce,
        &e_excerpt,
        error_msg,
        i_line,
        i_cs,
        i_ce,
        &i_excerpt,
        info_msg,
    )
}

// ---------------------------------------------------------------------------
// The checks.
// ---------------------------------------------------------------------------

/// The first field with the given name, if any.
pub open spec fn find_field(fields: Seq<FieldV>, name: Seq<char>) -> Option<FieldV>
    decreases fields.len(),
{
    if fields.len() == 0 {
        None
    } else if fields[0].name == name {
        Some(fields[0])
    } else {
        find_field(fields.drop_first(), name)
    }
}

/// Struct names must be unique across the spec; the first redefinition
/// is blamed together with the original definition.
pub open spec fn check_dup_structs_spec(src: Seq<char>, structs: Seq<StructV>, i: nat) -> Result<
    (),
    Seq<char>,
>
    decreases structs.len() - i,
{
    if i >= structs.len() {
        Ok(())
    } else {
        match find_struct(structs.take(i as int), structs[i as int].name) {
            Some(orig) => Err(
                sem_report_text(
                    src,
                    "Multiple type definition"@,
                    structs[i as int].name_span,
                    "Redefinition of type"@,
                    orig.name_span,
                    "Has already been defined here"@,
                ),
            ),
            None => check_dup_structs_spec(src, structs, i + 1),
        }
    }
}

/// Field names must be unique within a struct's own field list.
pub open spec fn check_dup_fields_spec(src: Seq<char>, fields: Seq<FieldV>, i: nat) -> Result<
    (),
    Seq<char>,
>
    decreases fields.len() - i,
{
    if i >= fields.len() {
        Ok(())
    } else {
        match find_field(fields.take(i as int), fields[i as int].name) {
            Some(orig) => Err(
                sem_report_text(
                    src,
                    "Multiple field definition"@,
                    fields[i as int].name_span,
                    "Redefinition of field"@,
                    orig.name_span,
                    "Has already been defined here"@,
                ),
            ),
            None => check_dup_fields_spec(src, fields, i + 1),
        }
    }
}

/// A bare struct reference, or one inside `Vec< >`, must name a struct
/// of the spec; the reference's own span is blamed.
pub open spec fn check_undef_spec(
    src: Seq<char>,
    table: Seq<StructV>,
    fields: Seq<FieldV>,
    i: nat,
) -> Result<(), Seq<char>>
    decreases fields.len() - i,
{
    if i >= fields.len() {
        Ok(())
    } else {
        let f = fields[i as int];
        let undefined = match f.ty {
            TyV::Vec(BaseV::Struct(n)) => find_struct(table, n) is None,
            TyV::Base(BaseV::Struct(n)) => find_struct(table, n) is None,
            _ => false,
        };
        if undefined {
            Err(sem_error_text(src, "Semantic error"@, f.type_span, "Undefined type"@))
        } else {
            check_undef_spec(src, table, fields, i + 1)
        }
    }
}

/// The comma-separated keywords of the given attribute kinds.
pub open spec fn join_attr_lits(ts: Seq<AttributeType>) -> Seq<char>
    decreases ts.len(),
{
    if ts.len() == 0 {
        Seq::empty()
    } else if ts.len() == 1 {
        ts[0].literal()
    } else {
        ts[0].literal() + ", "@ + join_attr_lits(ts.drop_first())
    }
}

pub open spec fn struct_attr_help() -> Seq<char> {
    "Allowed attributes: "@ + join_attr_lits(seq![AttributeType::Main, AttributeType::SubCommand])
}

pub open spec fn field_attr_help() -> Seq<char> {
    "Valid field attributes are: "@ + join_attr_lits(
        seq![
            AttributeType::Short,
            AttributeType::Long,
            AttributeType::Alias,
            AttributeType::Flatten,
        ],
    )
}

/// A struct carries only `main` and `subcommand` attributes, and not
/// both at once; the spans of the last occurrence of each are kept for
/// the combined blame range.
pub open spec fn check_struct_attrs_loop_spec(
    src: Seq<char>,
    attrs: Seq<AttrV>,
    i: nat,
    has_main: bool,
    main_span: Span,
    has_sub: bool,
    sub_span: Span,
) -> Result<(bool, Span, bool, Span), Seq<char>>
    decreases attrs.len() - i,
{
    if i >= attrs.len() {
        Ok((has_main, main_span, has_sub, sub_span))
    } else {
        let a = attrs[i as int];
        match a.kind {
            AttributeType::Main => check_struct_attrs_loop_spec(
                src,
                attrs,
                i + 1,
                true,
                a.span,
                has_sub,
                sub_span,
            ),
            AttributeType::SubCommand => check_struct_attrs_loop_spec(
                src,
                attrs,
                i + 1,
                has_main,
                main_span,
                true,
                a.span,
            ),
            _ => Err(
                sem_error_help_text(
                    src,
                    "Semantic error"@,
                    a.span,
                    "Invalid attribute"@,
                    struct_attr_help(),
                ),
            ),
        }
    }
}

pub open spec fn combined_span(a: Span, b: Span) -> Span {
    Span {
        start: if a.start <= b.start {
            a.start
        } else {
            b.start
        },
        end: if a.end >= b.end {
            a.end
        } else {
            b.end
        },
    }
}

pub open spec fn check_struct_attrs_spec(src: Seq<char>, s: StructV) -> Result<(), Seq<char>> {
    match check_struct_attrs_loop_spec(
        src,
        s.attributes,
        0,
        false,
        Span { start: 0, end: 0 },
        false,
        Span { start: 0, end: 0 },
    ) {
        Err(e) => Err(e),
        Ok((has_main, main_span, has_sub, sub_span)) => if has_main && has_sub {
            Err(
                sem_error_help_text(
                    src,
                    "Semantic error"@,
                    combined_span(main_span, sub_span),
                    "Invalid attribute combination"@,
                    "Only main or subcommand attributes are allowed"@,
                ),
            )
        } else {
            Ok(())
        },
    }
}

/// The first entry under the given key, if any.
pub open spec fn assoc_find(m: Seq<(Seq<char>, FieldV)>, k: Seq<char>) -> Option<FieldV>
    decreases m.len(),
{
    if m.len() == 0 {
        None
    } else if m[0].0 == k {
        Some(m[0].1)
    } else {
        assoc_find(m.drop_first(), k)
    }
}

pub open spec fn attr_value_or_empty(a: AttrV) -> Seq<char> {
    match a.value {
        Some(v) => v,
        None => Seq::empty(),
    }
}

/// The attribute checks over one field: flag-name collisions against
/// the entries gathered so far, flatten target types, and attribute
/// kinds that a field cannot carry. The `long` and `alias` values share
/// one namespace: a `long` collides with an earlier `alias` of the same
/// text, and the other way round.
pub open spec fn check_field_attrs_field_spec(
    src: Seq<char>,
    f: FieldV,
    j: nat,
    shorts: Seq<(Seq<char>, FieldV)>,
    longs: Seq<(Seq<char>, FieldV)>,
    aliases: Seq<(Seq<char>, FieldV)>,
) -> Result<(Seq<(Seq<char>, FieldV)>, Seq<(Seq<char>, FieldV)>, Seq<(Seq<char>, FieldV)>), Seq<
    char,
>>
    decreases f.attributes.len() - j,
{
    if j >= f.attributes.len() {
        Ok((shorts, longs, aliases))
    } else {
        let a = f.attributes[j as int];
        match a.kind {
            AttributeType::Short => {
                let v = attr_value_or_empty(a);
                match assoc_find(shorts, v) {
                    Some(orig) => Err(
                        sem_report_text(
                            src,
                            "Invalid field attribute usage"@,
                            a.span,
                            "There's already a field with the same starting character"@,
                            orig.name_span,
                            "Field with same starting letter"@,
                        ),
                    ),
                    None => check_field_attrs_field_spec(
                        src,
                        f,
                        j + 1,
                        shorts.push((v, f)),
                        longs,
                        aliases,
                    ),
                }
            },
            AttributeType::Long => {
                let v = attr_value_or_empty(a);
                let hit = match assoc_find(longs, v) {
                    Some(orig) => Some(orig),
                    None => assoc_find(aliases, v),
                };
                match hit {
                    Some(orig) => Err(
                        sem_report_text(
                            src,
                            "Invalid field attribute usage"@,
                            a.span,
                            "There's already a field with the same long name or alias"@,
                            orig.name_span,
                            "Field with same long or alias value"@,
                        ),
                    ),
                    None => check_field_attrs_field_spec(
                        src,
                        f,
                        j + 1,
                        shorts,
                        longs.push((v, f)),
                        aliases,
                    ),
                }
            },
            AttributeType::Alias => {
                let v = attr_value_or_empty(a);
                let hit = match assoc_find(aliases, v) {
                    Some(orig) => Some(orig),
                    None => assoc_find(longs, v),
                };
                match hit {
                    Some(orig) => Err(
                        sem_report_text(
                            src,
                            "Invalid field attribute usage"@,
                            a.span,
                            "There's already a field with the same alias or long name"@,
                            orig.name_span,
                            "Field with same alias or long value"@,
                        ),
                    ),
                    None => check_field_attrs_field_spec(
                        src,
                        f,
                        j + 1,
                        shorts,
                        longs,
                        aliases.push((v, f)),
                    ),
                }
            },
            AttributeType::Flatten => {
                let target_ok = match f.ty {
                    TyV::Vec(BaseV::Struct(_)) => true,
                    TyV::Base(BaseV::Struct(_)) => true,
                    _ => false,
                };
                if target_ok {
                    check_field_attrs_field_spec(src, f, j + 1, shorts, longs, aliases)
                } else {
                    Err(
                        sem_error_text(
                            src,
                            "Invalid field attribute"@,
                            a.span,
                            "Flatten should be used with a custom type"@,
                        ),
                    )
                }
            },
            _ => Err(
                sem_error_help_text(
                    src,
                    "Semantic error"@,
                    a.span,
                    "Invalid field attribute"@,
                    field_attr_help(),
                ),
            ),
        }
    }
}

pub open spec fn check_field_attrs_fields_spec(
    src: Seq<char>,
    fields: Seq<FieldV>,
    i: nat,
    shorts: Seq<(Seq<char>, FieldV)>,
    longs: Seq<(Seq<char>, FieldV)>,
    aliases: Seq<(Seq<char>, FieldV)>,
) -> Result<(), Seq<char>>
    decreases fields.len() - i,
{
    if i >= fields.len() {
        Ok(())
    } else {
        match check_field_attrs_field_spec(src, fields[i as int], 0, shorts, longs, aliases) {
            Err(e) => Err(e),
            Ok((s2, l2, a2)) => check_field_attrs_fields_spec(src, fields, i + 1, s2, l2, a2),
        }
    }
}

pub open spec fn check_field_attrs_spec(src: Seq<char>, fields: Seq<FieldV>) -> Result<
    (),
    Seq<char>,
> {
    check_field_attrs_fields_spec(
        src,
        fields,
        0,
        Seq::empty(),
        Seq::empty(),
        Seq::empty(),
    )
}

/// The per-struct checks, in the order they run.
pub open spec fn check_one_struct_spec(src: Seq<char>, table: Seq<StructV>, s: StructV) -> Result<
    (),
    Seq<char>,
> {
    match check_undef_spec(src, table, s.fields, 0) {
        Err(e) => Err(e),
        Ok(_) => match check_dup_fields_spec(src, s.fields, 0) {
            Err(e) => Err(e),
            Ok(_) => match check_struct_attrs_spec(src, s) {
                Err(e) => Err(e),
                Ok(_) => match check_field_attrs_spec(src, s.fields) {
                    Err(e) => Err(e),
                    Ok(_) => Ok(()),
                },
            },
        },
    }
}

pub open spec fn check_structs_spec(src: Seq<char>, structs: Seq<StructV>, i: nat) -> Result<
    (),
    Seq<char>,
>
    decreases structs.len() - i,
{
    if i >= structs.len() {
        Ok(())
    } else {
        match check_one_struct_spec(src, structs, structs[i as int]) {
            Err(e) => Err(e),
            Ok(_) => check_structs_spec(src, structs, i + 1),
        }
    }
}

/// What semantic analysis of a whole spec yields.
pub open spec fn check_semantics_spec(sv: SpecV) -> Result<(), Seq<char>> {
    match check_dup_structs_spec(sv.source, sv.structs, 0) {
        Err(e) => Err(e),
        Ok(_) => check_structs_spec(sv.source, sv.structs, 0),
    }
}

/// A spec that passes every semantic check.
pub open spec fn semantic_ok(sv: SpecV) -> bool {
    check_semantics_spec(sv) is Ok
}


// ---------------------------------------------------------------------------
// The executable checks.
// ---------------------------------------------------------------------------

/// The index of the first struct among `structs[..upto]` with the
/// given name, if any.
pub(crate) fn find_struct_exec(structs: &Vec<Struct>, upto: usize, name: &String) -> (r: Option<
    usize,
>)
    requires
        upto <= structs@.len(),
    ensures
        match r {
            Some(j) => j < upto && find_struct(structs_view(structs@).take(upto as int), name@)
                == Some(struct_view(structs@[j as int])),
            None => find_struct(structs_view(structs@).take(upto as int), name@) is None,
        },
{
    let ghost whole = structs_view(structs@).take(upto as int);
    let mut i: usize = 0;
    proof {
        assert(whole.skip(0) =~= whole);
    }
    while i < upto
        invariant
            i <= upto <= structs@.len(),
            find_struct(whole, name@) == find_struct(whole.skip(i as int), name@),
            whole == structs_view(structs@).take(upto as int),
        decreases upto - i,
    {
        let ghost rest = whole.skip(i as int);
        proof {
            assert(rest[0] == struct_view(structs@[i as int]));
            assert(rest.drop_first() =~= whole.skip(i as int + 1));
        }
        if structs[i].name == *name {
            proof {
                assert(rest[0].name == name@);
                assert(find_struct(rest, name@) == Some(rest[0]));
            }
            return Some(i);
        }
        proof {
            assert(find_struct(rest, name@) == find_struct(rest.drop_first(), name@));
        }
        i += 1;
    }
    proof {
        assert(whole.skip(upto as int).len() == 0);
    }
    None
}

/// The index of the first field among `fields[..upto]` with the given
/// name, if any.
fn find_field_exec(fields: &Vec<Field>, upto: usize, name: &String) -> (r: Option<usize>)
    requires
        upto <= fields@.len(),
    ensures
        match r {
            Some(j) => j < upto && find_field(fields_view(fields@).take(upto as int), name@)
                == Some(field_view(fields@[j as int])),
            None => find_field(fields_view(fields@).take(upto as int), name@) is None,
        },
{
    let ghost whole = fields_view(fields@).take(upto as int);
    let mut i: usize = 0;
    proof {
        assert(whole.skip(0) =~= whole);
    }
    while i < upto
        invariant
            i <= upto <= fields@.len(),
            find_field(whole, name@) == find_field(whole.skip(i as int), name@),
            whole == fields_view(fields@).take(upto as int),
        decreases upto - i,
    {
        let ghost rest = whole.skip(i as int);
        proof {
            assert(rest[0] == field_view(fields@[i as int]));
            assert(rest.drop_first() =~= whole.skip(i as int + 1));
        }
        if fields[i].name == *name {
            proof {
                assert(rest[0].name == name@);
                assert(find_field(rest, name@) == Some(rest[0]));
            }
            return Some(i);
        }
        proof {
            assert(find_field(rest, name@) == find_field(rest.drop_first(), name@));
        }
        i += 1;
    }
    proof {
        assert(whole.skip(upto as int).len() == 0);
    }
    None
}

#[verifier::loop_isolation(false)]
fn check_for_multiple_struct_definitions(structs: &Vec<Struct>, source: &Vec<char>) -> (r: Result<
    (),
    String,
>)
    requires
        forall|k: int|
            0 <= k < structs@.len() ==> (#[trigger] structs_view(structs@)[k]).wf(source@.len()),
    ensures
        match (r, check_dup_structs_spec(source@, structs_view(structs@), 0)) {
            (Ok(_), Ok(_)) => true,
            (Err(e), Err(es)) => es == e@,
            _ => false,
        },
{
    let ghost src = source@;
    let ghost sv = structs_view(structs@);
    let mut i: usize = 0;
    while i < structs.len()
        invariant
            i <= structs@.len(),
            sv == structs_view(structs@),
            src == source@,
            forall|k: int| 0 <= k < structs@.len() ==> (#[trigger] sv[k]).wf(src.len()),
            check_dup_structs_spec(src, sv, i as nat) == check_dup_structs_spec(src, sv, 0),
        decreases structs@.len() - i,
    {
        proof {
            assert(sv[i as int] == struct_view(structs@[i as int]));
            assert(sv[i as int].wf(src.len()));
        }
        match find_struct_exec(structs, i, &structs[i].name) {
            Some(j) => {
                proof {
                    assert(sv[j as int] == struct_view(structs@[j as int]));
                    assert(sv[j as int].wf(src.len()));
                }
                let e = make_chic_error_with_info(
                    "Multiple type definition",
                    source,
                    &structs[i].name_span,
                    "Redefinition of type",
                    &structs[j].name_span,
                    "Has already been defined here",
                );
                proof {
                    assert(check_dup_structs_spec(src, sv, i as nat) == Err::<(), Seq<char>>(e@));
                }
                return Err(e);
            },
            None => {
                proof {
                    assert(check_dup_structs_spec(src, sv, i as nat) == check_dup_structs_spec(
                        src,
                        sv,
                        i as nat + 1,
                    ));
                }
            },
        }
        i += 1;
    }
    Ok(())
}

#[verifier::loop_isolation(false)]
fn check_for_multiple_field_definitions(fields: &Vec<Field>, source: &Vec<char>) -> (r: Result<
    (),
    String,
>)
    requires
        forall|k: int|
            0 <= k < fields@.len() ==> (#[trigger] fields_view(fields@)[k]).wf(source@.len()),
    ensures
        match (r, check_dup_fields_spec(source@, fields_view(fields@), 0)) {
            (Ok(_), Ok(_)) => true,
            (Err(e), Err(es)) => es == e@,
            _ => false,
        },
{
    let ghost src = source@;
    let ghost fv = fields_view(fields@);
    let mut i: usize = 0;
    while i < fields.len()
        invariant
            i <= fields@.len(),
            fv == fields_view(fields@),
            src == source@,
            forall|k: int| 0 <= k < fields@.len() ==> (#[trigger] fv[k]).wf(src.len()),
            check_dup_fields_spec(src, fv, i as nat) == check_dup_fields_spec(src, fv, 0),
        decreases fields@.len() - i,
    {
        proof {
            assert(fv[i as int] == field_view(fields@[i as int]));
            assert(fv[i as int].wf(src.len()));
        }
        match find_field_exec(fields, i, &fields[i].name) {
            Some(j) => {
                proof {
                    assert(fv[j as int] == field_view(fields@[j as int]));
                    assert(fv[j as int].wf(src.len()));
                }
                let e = make_chic_error_with_info(
                    "Multiple field definition",
                    source,
                    &fields[i].name_span,
                    "Redefinition of field",
                    &fields[j].name_span,
                    "Has already been defined here",
                );
                proof {
                    assert(check_dup_fields_spec(src, fv, i as nat) == Err::<(), Seq<char>>(e@));
                }
                return Err(e);
            },
            None => {
                proof {
                    assert(check_dup_fields_spec(src, fv, i as nat) == check_dup_fields_spec(
                        src,
                        fv,
                        i as nat + 1,
                    ));
                }
            },
        }
        i += 1;
    }
    Ok(())
}

#[verifier::loop_isolation(false)]
fn check_for_undefined_types(table: &Vec<Struct>, fields: &Vec<Field>, source: &Vec<char>) -> (r:
    Result<(), String>)
    requires
        forall|k: int|
            0 <= k < fields@.len() ==> (#[trigger] fields_view(fields@)[k]).wf(source@.len()),
    ensures
        match (r, check_undef_spec(source@, structs_view(table@), fields_view(fields@), 0)) {
            (Ok(_), Ok(_)) => true,
            (Err(e), Err(es)) => es == e@,
            _ => false,
        },
{
    let ghost src = source@;
    let ghost tv = structs_view(table@);
    let ghost fv = fields_view(fields@);
    let mut i: usize = 0;
    while i < fields.len()
        invariant
            i <= fields@.len(),
            fv == fields_view(fields@),
            tv == structs_view(table@),
            src == source@,
            forall|k: int| 0 <= k < fields@.len() ==> (#[trigger] fv[k]).wf(src.len()),
            check_undef_spec(src, tv, fv, i as nat) == check_undef_spec(src, tv, fv, 0),
        decreases fields@.len() - i,
    {
        let field = &fields[i];
        proof {
            assert(fv[i as int] == field_view(fields@[i as int]));
            assert(fv[i as int].wf(src.len()));
        }
        let refname: Option<&String> = match &field.ty {
            crate::types::FieldType::Vec(inner) => match &**inner {
                crate::types::FieldType::Struct(n) => Some(n),
                _ => None,
            },
            crate::types::FieldType::Struct(n) => Some(n),
            _ => None,
        };
        match refname {
            Some(n) => {
                proof {
                    assert(structs_view(table@).take(table@.len() as int) =~= tv);
                }
                if find_struct_exec(table, table.len(), n).is_none() {
                    let e = make_chic_error(
                        "Semantic error",
                        source,
                        &field.type_span,
                        "Undefined type",
                    );
                    proof {
                        assert(check_undef_spec(src, tv, fv, i as nat) == Err::<(), Seq<char>>(e@));
                    }
                    return Err(e);
                }
                proof {
                    assert(check_undef_spec(src, tv, fv, i as nat) == check_undef_spec(
                        src,
                        tv,
                        fv,
                        i as nat + 1,
                    ));
                }
            },
            None => {
                proof {
                    assert(check_undef_spec(src, tv, fv, i as nat) == check_undef_spec(
                        src,
                        tv,
                        fv,
                        i as nat + 1,
                    ));
                }
            },
        }
        i += 1;
    }
    Ok(())
}

/// The help line naming the allowed attribute kinds.
fn attr_kinds_help(prefix: &str, kinds: &Vec<AttributeType>) -> (r: String)
    ensures
        r@ == prefix@ + join_attr_lits(kinds@),
{
    let mut buf = str_to_chars(prefix);
    proof {
        assert(kinds@.skip(0) =~= kinds@);
    }
    let mut i: usize = 0;
    while i < kinds.len()
        invariant
            i <= kinds@.len(),
            prefix@ + join_attr_lits(kinds@) == buf@ + join_attr_lits(kinds@.skip(i as int)),
        decreases kinds@.len() - i,
    {
        let ghost pre = buf@;
        append_str(&mut buf, kinds[i].to_literal());
        if i + 1 < kinds.len() {
            append_str(&mut buf, ", ");
        }
        proof {
            let rest = kinds@.skip(i as int);
            assert(rest[0] == kinds@[i as int]);
            assert(rest.drop_first() =~= kinds@.skip(i as int + 1));
            if i + 1 < kinds@.len() {
                assert(rest.len() >= 2);
                assert(join_attr_lits(rest) == rest[0].literal() + ", "@ + join_attr_lits(
                    rest.drop_first(),
                ));
                assert(pre + join_attr_lits(rest) =~= buf@ + join_attr_lits(
                    kinds@.skip(i as int + 1),
                ));
            } else {
                assert(rest.len() == 1);
                assert(join_attr_lits(rest) == rest[0].literal());
                assert(join_attr_lits(kinds@.skip(i as int + 1)) == Seq::<char>::empty());
                assert(pre + join_attr_lits(rest) =~= buf@ + join_attr_lits(
                    kinds@.skip(i as int + 1),
                ));
            }
        }
        i += 1;
    }
    proof {
        assert(kinds@.skip(kinds@.len() as int).len() == 0);
        assert(buf@ + Seq::<char>::empty() =~= buf@);
    }
    chars_to_string(&buf)
}

#[verifier::loop_isolation(false)]
fn check_struct_attributes(strukt: &Struct, source: &Vec<char>) -> (r: Result<(), String>)
    requires
        struct_view(*strukt).wf(source@.len()),
    ensures
        match (r, check_struct_attrs_spec(source@, struct_view(*strukt))) {
            (Ok(_), Ok(_)) => true,
            (Err(e), Err(es)) => es == e@,
            _ => false,
        },
{
    let ghost src = source@;
    let ghost av = attrs_view(strukt.attributes@);
    let mut has_main = false;
    let mut has_subcommand = false;
    let mut main_span = Span { start: 0, end: 0 };
    let mut subcommand_span = Span { start: 0, end: 0 };
    let ghost target = check_struct_attrs_loop_spec(
        src,
        av,
        0,
        false,
        Span { start: 0, end: 0 },
        false,
        Span { start: 0, end: 0 },
    );
    let mut i: usize = 0;
    while i < strukt.attributes.len()
        invariant
            i <= strukt.attributes@.len(),
            src == source@,
            av == attrs_view(strukt.attributes@),
            struct_view(*strukt).wf(src.len()),
            check_struct_attrs_loop_spec(
                src,
                av,
                i as nat,
                has_main,
                main_span,
                has_subcommand,
                subcommand_span,
            ) == target,
            has_main ==> main_span.start <= main_span.end <= src.len(),
            has_subcommand ==> subcommand_span.start <= subcommand_span.end <= src.len(),
        decreases strukt.attributes@.len() - i,
    {
        let ghost hm0 = has_main;
        let ghost ms0 = main_span;
        let ghost hs0 = has_subcommand;
        let ghost ss0 = subcommand_span;
        let a = &strukt.attributes[i];
        proof {
            assert(av[i as int] == attr_view(strukt.attributes@[i as int]));
            assert(struct_view(*strukt).attributes[i as int].wf(src.len()));
        }
        match a.ty {
            AttributeType::Main => {
                has_main = true;
                main_span = a.span;
                proof {
                    assert(check_struct_attrs_loop_spec(src, av, i as nat, hm0, ms0, hs0, ss0)
                        == check_struct_attrs_loop_spec(
                        src,
                        av,
                        i as nat + 1,
                        true,
                        a.span,
                        hs0,
                        ss0,
                    ));
                }
            },
            AttributeType::SubCommand => {
                has_subcommand = true;
                subcommand_span = a.span;
                proof {
                    assert(check_struct_attrs_loop_spec(src, av, i as nat, hm0, ms0, hs0, ss0)
                        == check_struct_attrs_loop_spec(
                        src,
                        av,
                        i as nat + 1,
                        hm0,
                        ms0,
                        true,
                        a.span,
                    ));
                }
            },
            _ => {
                let help = attr_kinds_help(
                    "Allowed attributes: ",
                    &AttributeType::allowed_struct_attribute_types(),
                );
                proof {
                    assert(help@ == struct_attr_help());
                }
                let e = make_chic_error_help(
                    "Semantic error",
                    source,
                    &a.span,
                    "Invalid attribute",
                    &help,
                );
                proof {
                    assert(check_struct_attrs_loop_spec(src, av, i as nat, hm0, ms0, hs0, ss0)
                        == Err::<(bool, Span, bool, Span), Seq<char>>(e@));
                }
                return Err(e);
            },
        }
        i += 1;
    }
    if has_main && has_subcommand {
        let combined = Span {
            start: if main_span.start <= subcommand_span.start {
                main_span.start
            } else {
                subcommand_span.start
            },
            end: if main_span.end >= subcommand_span.end {
                main_span.end
            } else {
                subcommand_span.end
            },
        };
        let help = String::from_str("Only main or subcommand attributes are allowed");
        let e = make_chic_error_help(
            "Semantic error",
            source,
            &combined,
            "Invalid attribute combination",
            &help,
        );
        return Err(e);
    }
    Ok(())
}

/// The view of an association list from resolved flag text to the
/// field that claimed it.
pub open spec fn pairs_view(m: Seq<(String, Field)>) -> Seq<(Seq<char>, FieldV)> {
    m.map_values(|p: (String, Field)| (p.0@, field_view(p.1)))
}

/// The index of the first entry under the given key, if any.
fn assoc_find_exec(m: &Vec<(String, Field)>, k: &String) -> (r: Option<usize>)
    ensures
        match r {
            Some(j) => j < m@.len() && assoc_find(pairs_view(m@), k@) == Some(
                field_view(m@[j as int].1),
            ),
            None => assoc_find(pairs_view(m@), k@) is None,
        },
{
    let ghost whole = pairs_view(m@);
    let mut i: usize = 0;
    proof {
        assert(whole.skip(0) =~= whole);
    }
    while i < m.len()
        invariant
            i <= m@.len(),
            whole == pairs_view(m@),
            assoc_find(whole, k@) == assoc_find(whole.skip(i as int), k@),
        decreases m@.len() - i,
    {
        let ghost rest = whole.skip(i as int);
        proof {
            assert(rest[0] == (m@[i as int].0@, field_view(m@[i as int].1)));
            assert(rest.drop_first() =~= whole.skip(i as int + 1));
        }
        if m[i].0 == *k {
            proof {
                assert(rest[0].0 == k@);
                assert(assoc_find(rest, k@) == Some(rest[0].1));
            }
            return Some(i);
        }
        proof {
            assert(assoc_find(rest, k@) == assoc_find(rest.drop_first(), k@));
        }
        i += 1;
    }
    proof {
        assert(whole.skip(m@.len() as int).len() == 0);
    }
    None
}

#[verifier::loop_isolation(false)]
fn check_field_attributes(fields: &Vec<Field>, source: &Vec<char>) -> (r: Result<(), String>)
    requires
        forall|k: int|
            0 <= k < fields@.len() ==> (#[trigger] fields_view(fields@)[k]).wf(source@.len()),
    ensures
        match (r, check_field_attrs_spec(source@, fields_view(fields@))) {
            (Ok(_), Ok(_)) => true,
            (Err(e), Err(es)) => es == e@,
            _ => false,
        },
{
    let ghost src = source@;
    let ghost fv = fields_view(fields@);
    let ghost target = check_field_attrs_fields_spec(
        src,
        fv,
        0,
        Seq::empty(),
        Seq::empty(),
        Seq::empty(),
    );
    let mut shorts: Vec<(String, Field)> = Vec::new();
    let mut longs: Vec<(String, Field)> = Vec::new();
    let mut aliases: Vec<(String, Field)> = Vec::new();
    proof {
        assert(pairs_view(shorts@) =~= Seq::<(Seq<char>, FieldV)>::empty());
        assert(pairs_view(longs@) =~= Seq::<(Seq<char>, FieldV)>::empty());
        assert(pairs_view(aliases@) =~= Seq::<(Seq<char>, FieldV)>::empty());
    }
    let mut i: usize = 0;
    while i < fields.len()
        invariant
            i <= fields@.len(),
            check_field_attrs_fields_spec(
                src,
                fv,
                i as nat,
                pairs_view(shorts@),
                pairs_view(longs@),
                pairs_view(aliases@),
            ) == target,
            forall|k: int|
                0 <= k < shorts@.len() ==> (#[trigger] pairs_view(shorts@)[k]).1.wf(src.len()),
            forall|k: int|
                0 <= k < longs@.len() ==> (#[trigger] pairs_view(longs@)[k]).1.wf(src.len()),
            forall|k: int|
                0 <= k < aliases@.len() ==> (#[trigger] pairs_view(aliases@)[k]).1.wf(src.len()),
        decreases fields@.len() - i,
    {
        let field = &fields[i];
        proof {
            assert(fv[i as int] == field_view(fields@[i as int]));
            assert(fv[i as int].wf(src.len()));
            assert(check_field_attrs_fields_spec(
                src,
                fv,
                i as nat,
                pairs_view(shorts@),
                pairs_view(longs@),
                pairs_view(aliases@),
            ) == (match check_field_attrs_field_spec(
                src,
                fv[i as int],
                0,
                pairs_view(shorts@),
                pairs_view(longs@),
                pairs_view(aliases@),
            ) {
                Err(e) => Err::<(), Seq<char>>(e),
                Ok((s2, l2, a2)) => check_field_attrs_fields_spec(
                    src,
                    fv,
                    i as nat + 1,
                    s2,
                    l2,
                    a2,
                ),
            }));
        }
        let mut j: usize = 0;
        while j < field.attributes.len()
            invariant
                i < fields@.len(),
                j <= field.attributes@.len(),
                field == &fields@[i as int],
                (match check_field_attrs_field_spec(
                    src,
                    fv[i as int],
                    j as nat,
                    pairs_view(shorts@),
                    pairs_view(longs@),
                    pairs_view(aliases@),
                ) {
                    Err(e) => target == Err::<(), Seq<char>>(e),
                    Ok((s2, l2, a2)) => check_field_attrs_fields_spec(
                        src,
                        fv,
                        i as nat + 1,
                        s2,
                        l2,
                        a2,
                    ) == target,
                }),
                forall|k: int|
                    0 <= k < shorts@.len() ==> (#[trigger] pairs_view(shorts@)[k]).1.wf(src.len()),
                forall|k: int|
                    0 <= k < longs@.len() ==> (#[trigger] pairs_view(longs@)[k]).1.wf(src.len()),
                forall|k: int|
                    0 <= k < aliases@.len() ==> (#[trigger] pairs_view(aliases@)[k]).1.wf(
                        src.len(),
                    ),
            decreases field.attributes@.len() - j,
        {
            let ghost sj0 = pairs_view(shorts@);
            let ghost lj0 = pairs_view(longs@);
            let ghost aj0 = pairs_view(aliases@);
            let a = &field.attributes[j];
            proof {
                assert(fv[i as int].attributes[j as int] == attr_view(
                    field.attributes@[j as int],
                ));
                assert(fv[i as int].attributes[j as int].wf_on_field(src.len()));
            }
            match a.ty {
                AttributeType::Short => {
                    let v = match &a.value {
                        Some(v) => v,
                        None => {
                            proof {
                                assert(false);
                            }
                            return Ok(());
                        },
                    };
                    match assoc_find_exec(&shorts, v) {
                        Some(orig) => {
                            proof {
                                assert(pairs_view(shorts@)[orig as int].1.wf(src.len()));
                            }
                            let e = make_chic_error_with_info(
                                "Invalid field attribute usage",
                                source,
                                &a.span,
                                "There's already a field with the same starting character",
                                &shorts[orig].1.name_span,
                                "Field with same starting letter",
                            );
                            proof {
                                assert(check_field_attrs_field_spec(
                                    src,
                                    fv[i as int],
                                    j as nat,
                                    sj0,
                                    lj0,
                                    aj0,
                                ) == Err::<
                                    (
                                        Seq<(Seq<char>, FieldV)>,
                                        Seq<(Seq<char>, FieldV)>,
                                        Seq<(Seq<char>, FieldV)>,
                                    ),
                                    Seq<char>,
                                >(e@));
                            }
                            return Err(e);
                        },
                        None => {
                            shorts.push((v.clone(), field.clone()));
                            proof {
                                assert(pairs_view(shorts@) =~= sj0.push(
                                    (v@, field_view(fields@[i as int])),
                                ));
                                assert(check_field_attrs_field_spec(
                                    src,
                                    fv[i as int],
                                    j as nat,
                                    sj0,
                                    lj0,
                                    aj0,
                                ) == check_field_attrs_field_spec(
                                    src,
                                    fv[i as int],
                                    j as nat + 1,
                                    pairs_view(shorts@),
                                    lj0,
                                    aj0,
                                ));
                            }
                        },
                    }
                },
                AttributeType::Long => {
                    let v = match &a.value {
                        Some(v) => v,
                        None => {
                            proof {
                                assert(false);
                            }
                            return Ok(());
                        },
                    };
                    match assoc_find_exec(&longs, v) {
                        Some(orig) => {
                            proof {
                                assert(pairs_view(longs@)[orig as int].1.wf(src.len()));
                            }
                            let e = make_chic_error_with_info(
                                "Invalid field attribute usage",
                                source,
                                &a.span,
                                "There's already a field with the same long name or alias",
                                &longs[orig].1.name_span,
                                "Field with same long or alias value",
                            );
                            proof {
                                assert(check_field_attrs_field_spec(
                                    src,
                                    fv[i as int],
                                    j as nat,
                                    sj0,
                                    lj0,
                                    aj0,
                                ) == Err::<
                                    (
                                        Seq<(Seq<char>, FieldV)>,
                                        Seq<(Seq<char>, FieldV)>,
                                        Seq<(Seq<char>, FieldV)>,
                                    ),
                                    Seq<char>,
                                >(e@));
                            }
                            return Err(e);
                        },
                        None => match assoc_find_exec(&aliases, v) {
                            Some(orig) => {
                                proof {
                                    assert(pairs_view(aliases@)[orig as int].1.wf(src.len()));
                                }
                                let e = make_chic_error_with_info(
                                    "Invalid field attribute usage",
                                    source,
                                    &a.span,
                                    "There's already a field with the same long name or alias",
                                    &aliases[orig].1.name_span,
                                    "Field with same long or alias value",
                                );
                                proof {
                                    assert(check_field_attrs_field_spec(
                                        src,
                                        fv[i as int],
                                        j as nat,
                                        sj0,
                                        lj0,
                                        aj0,
                                    ) == Err::<
                                        (
                                            Seq<(Seq<char>, FieldV)>,
                                            Seq<(Seq<char>, FieldV)>,
                                            Seq<(Seq<char>, FieldV)>,
                                        ),
                                        Seq<char>,
                                    >(e@));
                                }
                                return Err(e);
                            },
                            None => {
                                longs.push((v.clone(), field.clone()));
                                proof {
                                    assert(pairs_view(longs@) =~= lj0.push(
                                        (v@, field_view(fields@[i as int])),
                                    ));
                                    assert(check_field_attrs_field_spec(
                                        src,
                                        fv[i as int],
                                        j as nat,
                                        sj0,
                                        lj0,
                                        aj0,
                                    ) == check_field_attrs_field_spec(
                                        src,
                                        fv[i as int],
                                        j as nat + 1,
                                        sj0,
                                        pairs_view(longs@),
                                        aj0,
                                    ));
                                }
                            },
                        },
                    }
                },
                AttributeType::Alias => {
                    let v = match &a.value {
                        Some(v) => v,
                        None => {
                            proof {
                                assert(false);
                            }
                            return Ok(());
                        },
                    };
                    match assoc_find_exec(&aliases, v) {
                        Some(orig) => {
                            proof {
                                assert(pairs_view(aliases@)[orig as int].1.wf(src.len()));
                            }
                            let e = make_chic_error_with_info(
                                "Invalid field attribute usage",
                                source,
                                &a.span,
                                "There's already a field with the same alias or long name",
                                &aliases[orig].1.name_span,
                                "Field with same alias or long value",
                            );
                            proof {
                                assert(check_field_attrs_field_spec(
                                    src,
                                    fv[i as int],
                                    j as nat,
                                    sj0,
                                    lj0,
                                    aj0,
                                ) == Err::<
                                    (
                                        Seq<(Seq<char>, FieldV)>,
                                        Seq<(Seq<char>, FieldV)>,
                                        Seq<(Seq<char>, FieldV)>,
                                    ),
                                    Seq<char>,
                                >(e@));
                            }
                            return Err(e);
                        },
                        None => match assoc_find_exec(&longs, v) {
                            Some(orig) => {
                                proof {
                                    assert(pairs_view(longs@)[orig as int].1.wf(src.len()));
                                }
                                let e = make_chic_error_with_info(
                                    "Invalid field attribute usage",
                                    source,
                                    &a.span,
                                    "There's already a field with the same alias or long name",
                                    &longs[orig].1.name_span,
                                    "Field with same alias or long value",
                                );
                                proof {
                                    assert(check_field_attrs_field_spec(
                                        src,
                                        fv[i as int],
                                        j as nat,
                                        sj0,
                                        lj0,
                                        aj0,
                                    ) == Err::<
                                        (
                                            Seq<(Seq<char>, FieldV)>,
                                            Seq<(Seq<char>, FieldV)>,
                                            Seq<(Seq<char>, FieldV)>,
                                        ),
                                        Seq<char>,
                                    >(e@));
                                }
                                return Err(e);
                            },
                            None => {
                                aliases.push((v.clone(), field.clone()));
                                proof {
                                    assert(pairs_view(aliases@) =~= aj0.push(
                                        (v@, field_view(fields@[i as int])),
                                    ));
                                    assert(check_field_attrs_field_spec(
                                        src,
                                        fv[i as int],
                                        j as nat,
                                        sj0,
                                        lj0,
                                        aj0,
                                    ) == check_field_attrs_field_spec(
                                        src,
                                        fv[i as int],
                                        j as nat + 1,
                                        sj0,
                                        lj0,
                                        pairs_view(aliases@),
                                    ));
                                }
                            },
                        },
                    }
                },
                AttributeType::Flatten => {
                    let target_ok: bool = match &field.ty {
                        crate::types::FieldType::Vec(inner) => matches!(
                            &**inner,
                            crate::types::FieldType::Struct(_),
                        ),
                        crate::types::FieldType::Struct(_) => true,
                        _ => false,
                    };
                    if !target_ok {
                        let e = make_chic_error(
                            "Invalid field attribute",
                            source,
                            &a.span,
                            "Flatten should be used with a custom type",
                        );
                        proof {
                            assert(check_field_attrs_field_spec(
                                src,
                                fv[i as int],
                                j as nat,
                                sj0,
                                lj0,
                                aj0,
                            ) == Err::<
                                (
                                    Seq<(Seq<char>, FieldV)>,
                                    Seq<(Seq<char>, FieldV)>,
                                    Seq<(Seq<char>, FieldV)>,
                                ),
                                Seq<char>,
                            >(e@));
                        }
                        return Err(e);
                    }
                    proof {
                        assert(check_field_attrs_field_spec(
                            src,
                            fv[i as int],
                            j as nat,
                            sj0,
                            lj0,
                            aj0,
                        ) == check_field_attrs_field_spec(
                            src,
                            fv[i as int],
                            j as nat + 1,
                            sj0,
                            lj0,
                            aj0,
                        ));
                    }
                },
                _ => {
                    let help = attr_kinds_help(
                        "Valid field attributes are: ",
                        &AttributeType::allowed_field_attribute_types(),
                    );
                    proof {
                        assert(help@ == field_attr_help());
                    }
                    let e = make_chic_error_help(
                        "Semantic error",
                        source,
                        &a.span,
                        "Invalid field attribute",
                        &help,
                    );
                    proof {
                        assert(check_field_attrs_field_spec(
                            src,
                            fv[i as int],
                            j as nat,
                            sj0,
                            lj0,
                            aj0,
                        ) == Err::<
                            (
                                Seq<(Seq<char>, FieldV)>,
                                Seq<(Seq<char>, FieldV)>,
                                Seq<(Seq<char>, FieldV)>,
                            ),
                            Seq<char>,
                        >(e@));
                    }
                    return Err(e);
                },
            }
            j += 1;
        }
        proof {
            assert(check_field_attrs_field_spec(
                src,
                fv[i as int],
                j as nat,
                pairs_view(shorts@),
                pairs_view(longs@),
                pairs_view(aliases@),
            ) == Ok::<
                (Seq<(Seq<char>, FieldV)>, Seq<(Seq<char>, FieldV)>, Seq<(Seq<char>, FieldV)>),
                Seq<char>,
            >((pairs_view(shorts@), pairs_view(longs@), pairs_view(aliases@))));
        }
        i += 1;
    }
    Ok(())
}

/// Runs every semantic check over the spec, in order: unique struct
/// names; then, per struct in declaration order, undefined type
/// references, duplicate field names, struct attribute validity and
/// exclusivity, and field attribute validity with flag-name collision
/// checks. On success the symbol table is returned; the first failing
/// check anywhere aborts the analysis with its rendered diagnostic.
#[verifier::loop_isolation(false)]
pub fn check_semantics(spec: &Spec) -> (r: Result<SpecMetadata, String>)
    requires
        spec_view(*spec).wf(),
    ensures
        match (r, check_semantics_spec(spec_view(*spec))) {
            (Ok(meta), Ok(_)) => structs_view(meta.structs@) == spec_view(*spec).structs,
            (Err(e), Err(es)) => es == e@,
            _ => false,
        },
{
    let ghost sv = spec_view(*spec);
    let ghost src = spec.source@;
    match check_for_multiple_struct_definitions(&spec.structs, &spec.source) {
        Ok(_) => {},
        Err(e) => {
            return Err(e);
        },
    }
    let ghost target = check_structs_spec(src, sv.structs, 0);
    let mut i: usize = 0;
    while i < spec.structs.len()
        invariant
            i <= spec.structs@.len(),
            sv == spec_view(*spec),
            src == spec.source@,
            sv.wf(),
            check_structs_spec(src, sv.structs, i as nat) == target,
        decreases spec.structs@.len() - i,
    {
        let strukt = &spec.structs[i];
        proof {
            assert(sv.structs[i as int] == struct_view(spec.structs@[i as int]));
            assert(sv.structs[i as int].wf(src.len()));
        }
        match check_for_undefined_types(&spec.structs, &strukt.fields, &spec.source) {
            Ok(_) => {},
            Err(e) => {
                return Err(e);
            },
        }
        match check_for_multiple_field_definitions(&strukt.fields, &spec.source) {
            Ok(_) => {},
            Err(e) => {
                return Err(e);
            },
        }
        match check_struct_attributes(strukt, &spec.source) {
            Ok(_) => {},
            Err(e) => {
                return Err(e);
            },
        }
        match check_field_attributes(&strukt.fields, &spec.source) {
            Ok(_) => {},
            Err(e) => {
                return Err(e);
            },
        }
        i += 1;
    }
    let meta = SpecMetadata { structs: crate::types::clone_structs(&spec.structs) };
    Ok(meta)
}



// ---------------------------------------------------------------------------
// Laws: what the checks accept and reject, stated in general.
// ---------------------------------------------------------------------------

/// The index of the first struct carrying the name, or -1.
pub open spec fn find_struct_index(structs: Seq<StructV>, name: Seq<char>) -> int
    decreases structs.len(),
{
    if structs.len() == 0 {
        -1
    } else if structs[0].name == name {
        0
    } else {
        let r = find_struct_index(structs.drop_first(), name);
        if r < 0 {
            -1
        } else {
            r + 1
        }
    }
}

/// `find_struct` resolves a name exactly when a struct carries it, and
/// then to the first such struct.
pub proof fn lemma_find_struct_first(structs: Seq<StructV>, name: Seq<char>)
    ensures
        find_struct(structs, name) is Some <==> find_struct_index(structs, name) >= 0,
        find_struct_index(structs, name) >= 0 ==> {
            let ix = find_struct_index(structs, name);
            &&& ix < structs.len()
            &&& structs[ix].name == name
            &&& find_struct(structs, name) == Some(structs[ix])
            &&& forall|b: int| 0 <= b < ix ==> (#[trigger] structs[b]).name != name
        },
        find_struct(structs, name) is None ==> forall|a: int|
            0 <= a < structs.len() ==> (#[trigger] structs[a]).name != name,
    decreases structs.len(),
{
    if structs.len() > 0 && !(structs[0].name == name) {
        lemma_find_struct_first(structs.drop_first(), name);
        let rest = structs.drop_first();
        assert(forall|b: int| 1 <= b < structs.len() ==> (#[trigger] structs[b]) == rest[b - 1]);
    }
}

/// Struct names pairwise distinct across the spec.
pub open spec fn unique_struct_names(structs: Seq<StructV>) -> bool {
    forall|a: int, b: int|
        0 <= a < b < structs.len() ==> (#[trigger] structs[a]).name != (#[trigger] structs[b]).name
}

proof fn lemma_dup_structs_from(src: Seq<char>, structs: Seq<StructV>, i: nat)
    requires
        i <= structs.len(),
        forall|a: int, b: int|
            0 <= a < b < i ==> (#[trigger] structs[a]).name != (#[trigger] structs[b]).name,
    ensures
        check_dup_structs_spec(src, structs, i) is Ok <==> unique_struct_names(structs),
        check_dup_structs_spec(src, structs, i) matches Err(e) ==> exists|p: int, q: int|
            #![auto]
            {
                &&& 0 <= q < p < structs.len()
                &&& structs[p].name == structs[q].name
                &&& forall|a: int, b: int|
                    0 <= a < b < p ==> (#[trigger] structs[a]).name != (#[trigger] structs[b]).name
                &&& forall|k: int| 0 <= k < q ==> (#[trigger] structs[k]).name != structs[p].name
                &&& e == sem_report_text(
                    src,
                    "Multiple type definition"@,
                    structs[p].name_span,
                    "Redefinition of type"@,
                    structs[q].name_span,
                    "Has already been defined here"@,
                )
            },
    decreases structs.len() - i,
{
    if i < structs.len() {
        let pre = structs.take(i as int);
        assert(forall|b: int| 0 <= b < i ==> (#[trigger] pre[b]) == structs[b]);
        lemma_find_struct_first(pre, structs[i as int].name);
        match find_struct(pre, structs[i as int].name) {
            Some(orig) => {
                let q = find_struct_index(pre, structs[i as int].name);
                assert(0 <= q < i);
                assert(pre[q] == orig);
                assert(structs[q] == orig);
                assert(structs[q].name == structs[i as int].name);
                assert(!unique_struct_names(structs));
            },
            None => {
                assert forall|a: int, b: int| 0 <= a < b < i + 1 implies (
                #[trigger] structs[a]).name != (#[trigger] structs[b]).name by {
                    if b == i {
                        assert(pre[a] == structs[a]);
                        assert(pre[a].name != structs[i as int].name);
                    }
                }
                lemma_dup_structs_from(src, structs, i + 1);
            },
        }
    }
}

/// A spec defining the same struct name twice fails the duplicate
/// check with a diagnostic naming both the redefinition and the first
/// definition of the name; a spec with pairwise distinct struct names
/// passes it.
pub proof fn lemma_duplicate_struct_check(src: Seq<char>, structs: Seq<StructV>)
    ensures
        check_dup_structs_spec(src, structs, 0) is Ok <==> unique_struct_names(structs),
        check_dup_structs_spec(src, structs, 0) matches Err(e) ==> exists|p: int, q: int|
            #![auto]
            {
                &&& 0 <= q < p < structs.len()
                &&& structs[p].name == structs[q].name
                &&& forall|a: int, b: int|
                    0 <= a < b < p ==> (#[trigger] structs[a]).name != (#[trigger] structs[b]).name
                &&& forall|k: int| 0 <= k < q ==> (#[trigger] structs[k]).name != structs[p].name
                &&& e == sem_report_text(
                    src,
                    "Multiple type definition"@,
                    structs[p].name_span,
                    "Redefinition of type"@,
                    structs[q].name_span,
                    "Has already been defined here"@,
                )
            },
{
    lemma_dup_structs_from(src, structs, 0);
}

/// The struct name a field's type refers to, bare or inside `Vec< >`,
/// if any; `Optional< >` contents are not checked.
pub open spec fn field_ref_name(f: FieldV) -> Option<Seq<char>> {
    match f.ty {
        TyV::Base(BaseV::Struct(n)) => Some(n),
        TyV::Vec(BaseV::Struct(n)) => Some(n),
        _ => None,
    }
}

/// The field's struct reference, if it has one, resolves.
pub open spec fn field_refs_defined(table: Seq<StructV>, f: FieldV) -> bool {
    match field_ref_name(f) {
        Some(n) => find_struct(table, n) is Some,
        None => true,
    }
}

proof fn lemma_undef_from(src: Seq<char>, table: Seq<StructV>, fields: Seq<FieldV>, i: nat)
    requires
        i <= fields.len(),
        forall|k: int| 0 <= k < i ==> field_refs_defined(table, #[trigger] fields[k]),
    ensures
        check_undef_spec(src, table, fields, i) is Ok <==> (forall|k: int|
            0 <= k < fields.len() ==> field_refs_defined(table, #[trigger] fields[k])),
        check_undef_spec(src, table, fields, i) matches Err(e) ==> exists|k: int|
            #![auto]
            {
                &&& 0 <= k < fields.len()
                &&& !field_refs_defined(table, fields[k])
                &&& forall|a: int| 0 <= a < k ==> field_refs_defined(table, #[trigger] fields[a])
                &&& e == sem_error_text(
                    src,
                    "Semantic error"@,
                    fields[k].type_span,
                    "Undefined type"@,
                )
            },
    decreases fields.len() - i,
{
    if i < fields.len() {
        if field_refs_defined(table, fields[i as int]) {
            lemma_undef_from(src, table, fields, i + 1);
        }
    }
}

/// A spec referencing an undefined struct name, bare or inside
/// `Vec< >`, fails the reference check with an undefined-type
/// diagnostic whose caret covers the reference's own span (the parser
/// sets `type_span` to the name token itself, for `Vec<Name>` the
/// inner token); a spec whose references all resolve passes it.
pub proof fn lemma_undefined_type_check(src: Seq<char>, table: Seq<StructV>, fields: Seq<FieldV>)
    ensures
        check_undef_spec(src, table, fields, 0) is Ok <==> (forall|k: int|
            0 <= k < fields.len() ==> field_refs_defined(table, #[trigger] fields[k])),
        check_undef_spec(src, table, fields, 0) matches Err(e) ==> exists|k: int|
            #![auto]
            {
                &&& 0 <= k < fields.len()
                &&& !field_refs_defined(table, fields[k])
                &&& forall|a: int| 0 <= a < k ==> field_refs_defined(table, #[trigger] fields[a])
                &&& e == sem_error_text(
                    src,
                    "Semantic error"@,
                    fields[k].type_span,
                    "Undefined type"@,
                )
            },
{
    lemma_undef_from(src, table, fields, 0);
}



/// The last attribute of the given kind, if any.
pub open spec fn last_attr(attrs: Seq<AttrV>, kind: AttributeType) -> Option<AttrV>
    decreases attrs.len(),
{
    if attrs.len() == 0 {
        None
    } else if attrs.last().kind == kind {
        Some(attrs.last())
    } else {
        last_attr(attrs.drop_last(), kind)
    }
}

proof fn lemma_last_attr_cons(x: AttrV, s: Seq<AttrV>, kind: AttributeType)
    ensures
        last_attr(seq![x] + s, kind) == (match last_attr(s, kind) {
            Some(a) => Some(a),
            None => if x.kind == kind {
                Some(x)
            } else {
                None
            },
        }),
    decreases s.len(),
{
    let w = seq![x] + s;
    if s.len() == 0 {
        assert(w.last() == x);
        assert(w.drop_last() =~= Seq::<AttrV>::empty());
    } else {
        assert(w.len() == s.len() + 1);
        assert(w.last() == s.last());
        if s.last().kind == kind {
            assert(last_attr(w, kind) == Some(w.last()));
            assert(last_attr(s, kind) == Some(s.last()));
        } else {
            assert(w.drop_last() =~= seq![x] + s.drop_last());
            lemma_last_attr_cons(x, s.drop_last(), kind);
            assert(last_attr(w, kind) == last_attr(w.drop_last(), kind));
            assert(last_attr(s, kind) == last_attr(s.drop_last(), kind));
        }
    }
}

proof fn lemma_last_attr_skip(attrs: Seq<AttrV>, i: int, kind: AttributeType)
    requires
        0 <= i < attrs.len(),
    ensures
        last_attr(attrs.skip(i), kind) == (match last_attr(attrs.skip(i + 1), kind) {
            Some(a) => Some(a),
            None => if attrs[i].kind == kind {
                Some(attrs[i])
            } else {
                None
            },
        }),
{
    assert(attrs.skip(i) =~= seq![attrs[i]] + attrs.skip(i + 1));
    lemma_last_attr_cons(attrs[i], attrs.skip(i + 1), kind);
}

proof fn lemma_struct_attrs_loop(
    src: Seq<char>,
    attrs: Seq<AttrV>,
    i: nat,
    hm: bool,
    ms: Span,
    hs: bool,
    ss: Span,
)
    requires
        i <= attrs.len(),
        forall|k: int|
            0 <= k < attrs.len() ==> ((#[trigger] attrs[k]).kind is Main || attrs[k].kind
                is SubCommand),
    ensures
        check_struct_attrs_loop_spec(src, attrs, i, hm, ms, hs, ss) == Ok::<
            (bool, Span, bool, Span),
            Seq<char>,
        >(
            (
                hm || last_attr(attrs.skip(i as int), AttributeType::Main) is Some,
                match last_attr(attrs.skip(i as int), AttributeType::Main) {
                    Some(a) => a.span,
                    None => ms,
                },
                hs || last_attr(attrs.skip(i as int), AttributeType::SubCommand) is Some,
                match last_attr(attrs.skip(i as int), AttributeType::SubCommand) {
                    Some(a) => a.span,
                    None => ss,
                },
            ),
        ),
    decreases attrs.len() - i,
{
    if i >= attrs.len() {
        assert(attrs.skip(i as int).len() == 0);
    } else {
        lemma_last_attr_skip(attrs, i as int, AttributeType::Main);
        lemma_last_attr_skip(attrs, i as int, AttributeType::SubCommand);
        match attrs[i as int].kind {
            AttributeType::Main => {
                lemma_struct_attrs_loop(src, attrs, i + 1, true, attrs[i as int].span, hs, ss);
            },
            AttributeType::SubCommand => {
                lemma_struct_attrs_loop(src, attrs, i + 1, hm, ms, true, attrs[i as int].span);
            },
            _ => {
                assert(false);
            },
        }
    }
}

/// A struct carrying both `main` and `subcommand` attributes fails the
/// exclusivity check with an attribute-combination diagnostic whose
/// caret range stretches across the last occurrence of each; a struct
/// carrying at most one of the two kinds passes it. Attribute kinds a
/// struct cannot carry are rejected by the same check before this rule
/// applies, so they are excluded here.
pub proof fn lemma_attribute_exclusivity(src: Seq<char>, s: StructV)
    requires
        forall|k: int|
            0 <= k < s.attributes.len() ==> ((#[trigger] s.attributes[k]).kind is Main
                || s.attributes[k].kind is SubCommand),
    ensures
        check_struct_attrs_spec(src, s) is Ok <==> !(last_attr(s.attributes, AttributeType::Main)
            is Some && last_attr(s.attributes, AttributeType::SubCommand) is Some),
        check_struct_attrs_spec(src, s) matches Err(e) ==> exists|ma: AttrV, sa: AttrV|
            #![auto]
            {
                &&& last_attr(s.attributes, AttributeType::Main) == Some(ma)
                &&& last_attr(s.attributes, AttributeType::SubCommand) == Some(sa)
                &&& e == sem_error_help_text(
                    src,
                    "Semantic error"@,
                    combined_span(ma.span, sa.span),
                    "Invalid attribute combination"@,
                    "Only main or subcommand attributes are allowed"@,
                )
            },
{
    lemma_struct_attrs_loop(
        src,
        s.attributes,
        0,
        false,
        Span { start: 0, end: 0 },
        false,
        Span { start: 0, end: 0 },
    );
    assert(s.attributes.skip(0) =~= s.attributes);
    match last_attr(s.attributes, AttributeType::Main) {
        Some(ma) => match last_attr(s.attributes, AttributeType::SubCommand) {
            Some(sa) => {},
            None => {},
        },
        None => {},
    }
}

/// The index of the first entry under the key, or -1.
pub open spec fn assoc_find_index(m: Seq<(Seq<char>, FieldV)>, k: Seq<char>) -> int
    decreases m.len(),
{
    if m.len() == 0 {
        -1
    } else if m[0].0 == k {
        0
    } else {
        let r = assoc_find_index(m.drop_first(), k);
        if r < 0 {
            -1
        } else {
            r + 1
        }
    }
}

/// `assoc_find` resolves a key exactly when an entry carries it, and
/// then to the first such entry.
pub proof fn lemma_assoc_find_first(m: Seq<(Seq<char>, FieldV)>, k: Seq<char>)
    ensures
        assoc_find(m, k) is Some <==> assoc_find_index(m, k) >= 0,
        assoc_find_index(m, k) >= 0 ==> {
            let ix = assoc_find_index(m, k);
            &&& ix < m.len()
            &&& m[ix].0 == k
            &&& assoc_find(m, k) == Some(m[ix].1)
            &&& forall|b: int| 0 <= b < ix ==> (#[trigger] m[b]).0 != k
        },
        assoc_find(m, k) is None ==> forall|a: int| 0 <= a < m.len() ==> (#[trigger] m[a]).0 != k,
    decreases m.len(),
{
    if m.len() > 0 && !(m[0].0 == k) {
        lemma_assoc_find_first(m.drop_first(), k);
        let rest = m.drop_first();
        assert(forall|b: int| 1 <= b < m.len() ==> (#[trigger] m[b]) == rest[b - 1]);
    }
}

/// The resolved text of a field's sole `short` attribute.
pub open spec fn sole_short(f: FieldV) -> Seq<char> {
    attr_value_or_empty(f.attributes[0])
}

/// The collision map after the first `i` fields of a list whose every
/// field carries one `short` attribute.
pub open spec fn shorts_of(fields: Seq<FieldV>, i: nat) -> Seq<(Seq<char>, FieldV)>
    decreases i,
{
    if i == 0 {
        Seq::empty()
    } else {
        shorts_of(fields, (i - 1) as nat).push((sole_short(fields[i as int - 1]), fields[i as int - 1]))
    }
}

proof fn lemma_shorts_of(fields: Seq<FieldV>, i: nat)
    requires
        i <= fields.len(),
    ensures
        shorts_of(fields, i).len() == i,
        forall|a: int|
            0 <= a < i ==> (#[trigger] shorts_of(fields, i)[a]) == (sole_short(fields[a]), fields[a]),
    decreases i,
{
    if i > 0 {
        lemma_shorts_of(fields, (i - 1) as nat);
        assert(forall|a: int|
            0 <= a < i - 1 ==> (#[trigger] shorts_of(fields, i)[a]) == shorts_of(
                fields,
                (i - 1) as nat,
            )[a]);
    }
}

proof fn lemma_short_fields_from(src: Seq<char>, fields: Seq<FieldV>, i: nat)
    requires
        i <= fields.len(),
        forall|a: int| 0 <= a < fields.len() ==> (#[trigger] fields[a]).attributes.len() == 1,
        forall|a: int| 0 <= a < fields.len() ==> (#[trigger] fields[a]).attributes[0].kind is Short,
        forall|a: int|
            0 <= a < fields.len() ==> (#[trigger] fields[a]).attributes[0].value is Some,
        forall|a: int, b: int|
            0 <= a < b < i ==> sole_short(#[trigger] fields[a]) != sole_short(#[trigger] fields[b]),
    ensures
        check_field_attrs_fields_spec(src, fields, i, shorts_of(fields, i), Seq::empty(), Seq::empty())
            is Ok <==> (forall|a: int, b: int|
            0 <= a < b < fields.len() ==> sole_short(#[trigger] fields[a]) != sole_short(
                #[trigger] fields[b],
            )),
        check_field_attrs_fields_spec(
            src,
            fields,
            i,
            shorts_of(fields, i),
            Seq::empty(),
            Seq::empty(),
        ) matches Err(e) ==> exists|p: int, q: int|
            #![auto]
            {
                &&& 0 <= q < p < fields.len()
                &&& sole_short(fields[p]) == sole_short(fields[q])
                &&& forall|a: int, b: int|
                    0 <= a < b < p ==> sole_short(#[trigger] fields[a]) != sole_short(
                        #[trigger] fields[b],
                    )
                &&& forall|k: int| 0 <= k < q ==> sole_short(#[trigger] fields[k]) != sole_short(
                    fields[p],
                )
                &&& e == sem_report_text(
                    src,
                    "Invalid field attribute usage"@,
                    fields[p].attributes[0].span,
                    "There's already a field with the same starting character"@,
                    fields[q].name_span,
                    "Field with same starting letter"@,
                )
            },
    decreases fields.len() - i,
{
    if i < fields.len() {
        let f = fields[i as int];
        let sm = shorts_of(fields, i);
        let v = sole_short(f);
        lemma_shorts_of(fields, i);
        lemma_assoc_find_first(sm, v);
        assert(check_field_attrs_field_spec(src, f, 0, sm, Seq::empty(), Seq::empty())
            == (match assoc_find(sm, v) {
            Some(orig) => Err::<
                (Seq<(Seq<char>, FieldV)>, Seq<(Seq<char>, FieldV)>, Seq<(Seq<char>, FieldV)>),
                Seq<char>,
            >(
                sem_report_text(
                    src,
                    "Invalid field attribute usage"@,
                    f.attributes[0].span,
                    "There's already a field with the same starting character"@,
                    orig.name_span,
                    "Field with same starting letter"@,
                ),
            ),
            None => check_field_attrs_field_spec(
                src,
                f,
                1,
                sm.push((v, f)),
                Seq::empty(),
                Seq::empty(),
            ),
        }));
        match assoc_find(sm, v) {
            Some(orig) => {
                let q = assoc_find_index(sm, v);
                assert(sm[q] == (sole_short(fields[q]), fields[q]));
                assert(orig == fields[q]);
                assert(sole_short(fields[q]) == v);
                assert(forall|k: int|
                    0 <= k < q ==> sole_short(#[trigger] fields[k]) != v);
            },
            None => {
                assert(check_field_attrs_field_spec(src, f, 1, sm.push((v, f)), Seq::empty(), Seq::empty())
                    == Ok::<
                    (Seq<(Seq<char>, FieldV)>, Seq<(Seq<char>, FieldV)>, Seq<(Seq<char>, FieldV)>),
                    Seq<char>,
                >((sm.push((v, f)), Seq::empty(), Seq::empty())));
                assert(sm.push((v, f)) == shorts_of(fields, i + 1));
                assert forall|a: int, b: int|
                    0 <= a < b < i + 1 implies sole_short(#[trigger] fields[a]) != sole_short(
                    #[trigger] fields[b],
                ) by {
                    if b == i {
                        assert(sm[a] == (sole_short(fields[a]), fields[a]));
                        assert(sm[a].0 != v);
                    }
                }
                lemma_short_fields_from(src, fields, i + 1);
            },
        }
    }
}

/// Two fields whose resolved `short` values are equal — as when two
/// field names share their initial letter and both derive it — fail
/// the collision check, blaming the later attribute and the earlier
/// field; resolved values pairwise distinct, as after an explicit
/// override, pass it. Stated over fields each carrying one resolved
/// `short` attribute.
pub proof fn lemma_short_collision_check(src: Seq<char>, fields: Seq<FieldV>)
    requires
        forall|a: int| 0 <= a < fields.len() ==> (#[trigger] fields[a]).attributes.len() == 1,
        forall|a: int| 0 <= a < fields.len() ==> (#[trigger] fields[a]).attributes[0].kind is Short,
        forall|a: int|
            0 <= a < fields.len() ==> (#[trigger] fields[a]).attributes[0].value is Some,
    ensures
        check_field_attrs_spec(src, fields) is Ok <==> (forall|a: int, b: int|
            0 <= a < b < fields.len() ==> sole_short(#[trigger] fields[a]) != sole_short(
                #[trigger] fields[b],
            )),
        check_field_attrs_spec(src, fields) matches Err(e) ==> exists|p: int, q: int|
            #![auto]
            {
                &&& 0 <= q < p < fields.len()
                &&& sole_short(fields[p]) == sole_short(fields[q])
                &&& forall|a: int, b: int|
                    0 <= a < b < p ==> sole_short(#[trigger] fields[a]) != sole_short(
                        #[trigger] fields[b],
                    )
                &&& forall|k: int| 0 <= k < q ==> sole_short(#[trigger] fields[k]) != sole_short(
                    fields[p],
                )
                &&& e == sem_report_text(
                    src,
                    "Invalid field attribute usage"@,
                    fields[p].attributes[0].span,
                    "There's already a field with the same starting character"@,
                    fields[q].name_span,
                    "Field with same starting letter"@,
                )
            },
{
    assert(shorts_of(fields, 0) == Seq::<(Seq<char>, FieldV)>::empty());
    lemma_short_fields_from(src, fields, 0);
}

/// A type `flatten` may stand on: a struct reference, bare or inside
/// `Vec< >`.
pub open spec fn flatten_type_ok(t: TyV) -> bool {
    t matches TyV::Base(BaseV::Struct(_)) || t matches TyV::Vec(BaseV::Struct(_))
}

proof fn lemma_flatten_fields_from(src: Seq<char>, fields: Seq<FieldV>, i: nat)
    requires
        i <= fields.len(),
        forall|a: int| 0 <= a < fields.len() ==> (#[trigger] fields[a]).attributes.len() == 1,
        forall|a: int|
            0 <= a < fields.len() ==> (#[trigger] fields[a]).attributes[0].kind is Flatten,
    ensures
        check_field_attrs_fields_spec(src, fields, i, Seq::empty(), Seq::empty(), Seq::empty())
            is Ok <==> (forall|k: int|
            i <= k < fields.len() ==> flatten_type_ok((#[trigger] fields[k]).ty)),
        check_field_attrs_fields_spec(src, fields, i, Seq::empty(), Seq::empty(), Seq::empty())
            matches Err(e) ==> exists|k: int|
            #![auto]
            {
                &&& i <= k < fields.len()
                &&& !flatten_type_ok(fields[k].ty)
                &&& forall|a: int| i <= a < k ==> flatten_type_ok((#[trigger] fields[a]).ty)
                &&& e == sem_error_text(
                    src,
                    "Invalid field attribute"@,
                    fields[k].attributes[0].span,
                    "Flatten should be used with a custom type"@,
                )
            },
    decreases fields.len() - i,
{
    if i < fields.len() {
        let f = fields[i as int];
        assert(check_field_attrs_field_spec(src, f, 0, Seq::empty(), Seq::empty(), Seq::empty())
            == (if flatten_type_ok(f.ty) {
            check_field_attrs_field_spec(src, f, 1, Seq::empty(), Seq::empty(), Seq::empty())
        } else {
            Err::<
                (Seq<(Seq<char>, FieldV)>, Seq<(Seq<char>, FieldV)>, Seq<(Seq<char>, FieldV)>),
                Seq<char>,
            >(
                sem_error_text(
                    src,
                    "Invalid field attribute"@,
                    f.attributes[0].span,
                    "Flatten should be used with a custom type"@,
                ),
            )
        }));
        if flatten_type_ok(f.ty) {
            assert(check_field_attrs_field_spec(src, f, 1, Seq::empty(), Seq::empty(), Seq::empty())
                == Ok::<
                (Seq<(Seq<char>, FieldV)>, Seq<(Seq<char>, FieldV)>, Seq<(Seq<char>, FieldV)>),
                Seq<char>,
            >((Seq::empty(), Seq::empty(), Seq::empty())));
            lemma_flatten_fields_from(src, fields, i + 1);
        }
    }
}

/// `flatten` on a field whose type is not a struct reference — such as
/// a field typed `string` — fails the attribute check, blaming that
/// attribute; `flatten` on struct-typed fields passes it (whether the
/// name resolves is the reference check's business). Stated over
/// fields each carrying one `flatten` attribute.
pub proof fn lemma_flatten_target_check(src: Seq<char>, fields: Seq<FieldV>)
    requires
        forall|a: int| 0 <= a < fields.len() ==> (#[trigger] fields[a]).attributes.len() == 1,
        forall|a: int|
            0 <= a < fields.len() ==> (#[trigger] fields[a]).attributes[0].kind is Flatten,
    ensures
        check_field_attrs_spec(src, fields) is Ok <==> (forall|k: int|
            0 <= k < fields.len() ==> flatten_type_ok((#[trigger] fields[k]).ty)),
        check_field_attrs_spec(src, fields) matches Err(e) ==> exists|k: int|
            #![auto]
            {
                &&& 0 <= k < fields.len()
                &&& !flatten_type_ok(fields[k].ty)
                &&& forall|a: int| 0 <= a < k ==> flatten_type_ok((#[trigger] fields[a]).ty)
                &&& e == sem_error_text(
                    src,
                    "Invalid field attribute"@,
                    fields[k].attributes[0].span,
                    "Flatten should be used with a custom type"@,
                )
            },
{
    lemma_flatten_fields_from(src, fields, 0);
}


} // verus!
