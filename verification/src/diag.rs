//! Diagnostic rendering and the line model of the source text.
//!
//! A diagnostic shows one or two source excerpts with caret ranges and
//! a message; the drawing itself is done by the `chic` crate behind the
//! trusted wrappers below, whose results are named by uninterpreted
//! spec functions. The helpers around them compute lines and offsets,
//! and are verified.

use crate::lexer::{is_skip, is_skip_char};
use vstd::prelude::*;

verus! {

/// What `chic` renders for a one-excerpt error without a help footer.
pub uninterp spec fn error_text(
    label: Seq<char>,
    line: int,
    start: int,
    end: int,
    source: Seq<char>,
    msg: Seq<char>,
) -> Seq<char>;

/// What `chic` renders for a one-excerpt error with a help footer.
pub uninterp spec fn error_help_text(
    label: Seq<char>,
    line: int,
    start: int,
    end: int,
    source: Seq<char>,
    msg: Seq<char>,
    help: Seq<char>,
) -> Seq<char>;

/// What `chic` renders for an error with a primary excerpt and a
/// secondary excerpt pointing at the conflicting definition.
pub uninterp spec fn report_text(
    label: Seq<char>,
    line: int,
    start: int,
    end: int,
    source: Seq<char>,
    msg: Seq<char>,
    info_line: int,
    info_start: int,
    info_end: int,
    info_source: Seq<char>,
    info_msg: Seq<char>,
) -> Seq<char>;

/// Relies on `chic::Error`: `new(label).error(line, start, end, source,
/// msg).to_string()` renders a diagnostic determined by these arguments
/// alone, and does not panic when `start <= end`.
#[verifier::external_body]
pub(crate) fn render_error(
    label: &str,
    line: usize,
    start: usize,
    end: usize,
    source: &String,
    msg: &str,
) -> (r: String)
    requires
        start <= end,
    ensures
        r@ == error_text(label@, line as int, start as int, end as int, source@, msg@),
{
    chic::Error::new(label).error(line, start, end, source, msg).to_string()
}

/// Relies on `chic::Error`: as [`render_error`], with a `help` footer
/// appended through the `help` builder method.
#[verifier::external_body]
pub(crate) fn render_error_help(
    label: &str,
    line: usize,
    start: usize,
    end: usize,
    source: &String,
    msg: &str,
    help: &String,
) -> (r: String)
    requires
        start <= end,
    ensures
        r@ == error_help_text(
            label@,
            line as int,
            start as int,
            end as int,
            source@,
            msg@,
            help@,
        ),
{
    chic::Error::new(label).error(line, start, end, source, msg).help(help).to_string()
}

/// Relies on `chic::Error`: each `error` builder call adds one excerpt,
/// so two calls render the offending excerpt followed by the excerpt of
/// the conflicting definition.
#[verifier::external_body]
pub(crate) fn render_report(
    label: &str,
    line: usize,
    start: usize,
    end: usize,
    source: &String,
    msg: &str,
    info_line: usize,
    info_start: usize,
    info_end: usize,
    info_source: &String,
    info_msg: &str,
) -> (r: String)
    requires
        start <= end,
        info_start <= info_end,
    ensures
        r@ == report_text(
            label@,
            line as int,
            start as int,
            end as int,
            source@,
            msg@,
            info_line as int,
            info_start as int,
            info_end as int,
            info_source@,
            info_msg@,
        ),
{
    chic::Error::new(label)
        .error(line, start, end, source, msg)
        .error(info_line, info_start, info_end, info_source, info_msg)
        .to_string()
}

// ---------------------------------------------------------------------------
// The line model: how positions map to lines and line spans.
// ---------------------------------------------------------------------------

/// The length of `src` once trailing token-separator characters are
/// removed.
pub open spec fn trim_end_len(src: Seq<char>) -> nat
    decreases src.len(),
{
    if src.len() == 0 {
        0
    } else if is_skip_char(src.last()) {
        trim_end_len(src.drop_last())
    } else {
        src.len()
    }
}

/// A non-separator character anywhere keeps the trimmed length past it.
pub proof fn lemma_trim_end_keeps(src: Seq<char>, p: int)
    requires
        0 <= p < src.len(),
        !is_skip_char(src[p]),
    ensures
        trim_end_len(src) >= p + 1,
    decreases src.len(),
{
    if is_skip_char(src.last()) {
        assert(p < src.len() - 1);
        lemma_trim_end_keeps(src.drop_last(), p);
    }
}

pub fn trim_end_index(src: &Vec<char>) -> (r: usize)
    ensures
        r == trim_end_len(src@),
{
    let mut n = src.len();
    proof {
        assert(src@.subrange(0, n as int) =~= src@);
    }
    while n > 0 && is_skip(src[n - 1])
        invariant
            n <= src@.len(),
            trim_end_len(src@) == trim_end_len(src@.subrange(0, n as int)),
        decreases n,
    {
        proof {
            assert(src@.subrange(0, n as int).drop_last() =~= src@.subrange(0, n - 1));
        }
        n -= 1;
    }
    proof {
        if n > 0 {
            assert(src@.subrange(0, n as int).last() == src@[n - 1]);
        }
        assert(src@.subrange(0, src@.len() as int) =~= src@);
    }
    n
}

/// The number of newline characters in `src`.
pub open spec fn newline_count(src: Seq<char>) -> nat
    decreases src.len(),
{
    if src.len() == 0 {
        0
    } else {
        newline_count(src.drop_last()) + if src.last() == '\n' {
            1nat
        } else {
            0nat
        }
    }
}

/// The number of lines of `src`: newline-terminated pieces, plus a last
/// unterminated piece if one is there; the empty text has none.
pub open spec fn line_count(src: Seq<char>) -> nat {
    if src.len() == 0 {
        0
    } else if src.last() == '\n' {
        newline_count(src)
    } else {
        newline_count(src) + 1
    }
}

/// The line (1-based) on which position `pos` lies: the line count of
/// the text before it.
pub open spec fn line_of(src: Seq<char>, pos: int) -> nat {
    line_count(src.subrange(0, pos))
}

/// The position of the first newline at or after `i`, or the end.
pub open spec fn line_end(src: Seq<char>, i: nat) -> nat
    decreases src.len() - i,
{
    if i >= src.len() {
        src.len()
    } else if src[i as int] == '\n' {
        i
    } else {
        line_end(src, i + 1)
    }
}

/// The position at which line `k` (1-based) begins; past the last
/// line it stays at the end of the text.
pub open spec fn line_start(src: Seq<char>, k: nat) -> nat
    decreases k,
{
    if k <= 1 {
        0
    } else {
        let e = line_end(src, line_start(src, (k - 1) as nat));
        if e >= src.len() {
            src.len()
        } else {
            (e + 1) as nat
        }
    }
}

pub proof fn lemma_line_start_bounds(src: Seq<char>, k: nat)
    ensures
        line_start(src, k) <= src.len(),
    decreases k,
{
    if k > 1 {
        lemma_line_start_bounds(src, (k - 1) as nat);
        lemma_line_end_bounds(src, line_start(src, (k - 1) as nat));
    }
}

/// Later lines never begin earlier.
pub proof fn lemma_line_start_mono(src: Seq<char>, a: nat, b: nat)
    requires
        a <= b,
    ensures
        line_start(src, a) <= line_start(src, b),
    decreases b,
{
    if a < b && b > 1 {
        lemma_line_start_mono(src, a, (b - 1) as nat);
        lemma_line_start_bounds(src, (b - 1) as nat);
        lemma_line_end_bounds(src, line_start(src, (b - 1) as nat));
    }
}

/// Subtraction that stops at zero.
pub open spec fn sat_sub(a: int, b: int) -> int {
    if a >= b {
        a - b
    } else {
        0
    }
}

pub proof fn lemma_line_end_bounds(src: Seq<char>, i: nat)
    requires
        i <= src.len(),
    ensures
        i <= line_end(src, i) <= src.len(),
        line_end(src, i) < src.len() ==> src[line_end(src, i) as int] == '\n',
        forall|j: int| i <= j < line_end(src, i) ==> src[j] != '\n',
    decreases src.len() - i,
{
    if i < src.len() && src[i as int] != '\n' {
        lemma_line_end_bounds(src, i + 1);
    }
}

/// Newline counting splits over prefixes.
pub proof fn lemma_newline_count_prefix(src: Seq<char>, p: int)
    requires
        0 <= p <= src.len(),
    ensures
        newline_count(src) == newline_count(src.subrange(0, p)) + newline_count(
            src.subrange(p, src.len() as int),
        ),
    decreases src.len() - p,
{
    if p == src.len() {
        assert(src.subrange(0, p) =~= src);
        assert(src.subrange(p, src.len() as int).len() == 0);
    } else {
        lemma_newline_count_prefix(src, p + 1);
        assert(src.subrange(0, p + 1).drop_last() =~= src.subrange(0, p));
        assert(src.subrange(0, p + 1).last() == src[p]);
        lemma_newline_split_first(src.subrange(p, src.len() as int));
        assert(src.subrange(p, src.len() as int)[0] == src[p]);
        assert(src.subrange(p, src.len() as int).subrange(
            1,
            src.subrange(p, src.len() as int).len() as int,
        ) =~= src.subrange(p + 1, src.len() as int));
    }
}

/// Newline counting peels the first character.
pub proof fn lemma_newline_split_first(src: Seq<char>)
    requires
        src.len() > 0,
    ensures
        newline_count(src) == newline_count(src.subrange(1, src.len() as int)) + if src[0] == '\n' {
            1nat
        } else {
            0nat
        },
    decreases src.len(),
{
    if src.len() == 1 {
        assert(src.drop_last() =~= src.subrange(1, src.len() as int));
        assert(src.last() == src[0]);
    } else {
        lemma_newline_split_first(src.drop_last());
        assert(src.drop_last().subrange(1, src.drop_last().len() as int) =~= src.subrange(
            1,
            src.len() as int,
        ).drop_last());
        assert(src.drop_last()[0] == src[0]);
        assert(src.subrange(1, src.len() as int).last() == src.last());
    }
}

/// A prefix never has more lines than the whole.
pub proof fn lemma_line_count_prefix(src: Seq<char>, p: int)
    requires
        0 <= p <= src.len(),
    ensures
        line_count(src.subrange(0, p)) <= line_count(src),
{
    if p == 0 {
    } else if p == src.len() {
        assert(src.subrange(0, p) =~= src);
    } else {
        lemma_newline_count_prefix(src, p);
        let pre = src.subrange(0, p);
        if pre.last() == '\n' {
            // the prefix ends in a newline, which the whole text counts too
            assert(line_count(pre) == newline_count(pre));
        } else if src.last() == '\n' {
            // the final newline of the whole lies beyond the prefix
            let suf = src.subrange(p, src.len() as int);
            assert(suf.last() == src.last());
            lemma_newline_count_pos(suf);
        }
    }
}

/// There are never more newlines than characters.
pub proof fn lemma_newline_count_le(src: Seq<char>)
    ensures
        newline_count(src) <= src.len(),
    decreases src.len(),
{
    if src.len() > 0 {
        lemma_newline_count_le(src.drop_last());
    }
}

/// A text ending in a newline has at least one newline.
pub proof fn lemma_newline_count_pos(src: Seq<char>)
    requires
        src.len() > 0,
        src.last() == '\n',
    ensures
        newline_count(src) >= 1,
{
}

} // verus!
