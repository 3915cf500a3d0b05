//! Verified helpers for working with text as sequences of characters.

use vstd::prelude::*;
use vstd::string::*;

verus! {

/// The characters of `s`, one per element.
pub fn str_to_chars(s: &str) -> (r: Vec<char>)
    ensures
        r@ == s@,
{
    let n = s.unicode_len();
    let mut r: Vec<char> = Vec::new();
    let mut i: usize = 0;
    while i < n
        invariant
            i <= n,
            n == s@.len(),
            r@ == s@.subrange(0, i as int),
        decreases n - i,
    {
        r.push(s.get_char(i));
        i += 1;
        proof {
            assert(r@ =~= s@.subrange(0, i as int));
        }
    }
    proof {
        assert(r@ =~= s@);
    }
    r
}

/// Relies on `String: FromIterator<char>`: collecting characters yields
/// the string of exactly those characters, in order.
#[verifier::external_body]
pub fn chars_to_string(v: &Vec<char>) -> (r: String)
    ensures
        r@ == v@,
{
    v.iter().collect()
}

/// Appends the characters of `s` to `buf`.
pub fn append_str(buf: &mut Vec<char>, s: &str)
    ensures
        final(buf)@ == old(buf)@ + s@,
{
    let n = s.unicode_len();
    let mut i: usize = 0;
    while i < n
        invariant
            i <= n,
            n == s@.len(),
            buf@ == old(buf)@ + s@.subrange(0, i as int),
        decreases n - i,
    {
        buf.push(s.get_char(i));
        i += 1;
        proof {
            assert(buf@ =~= old(buf)@ + s@.subrange(0, i as int));
        }
    }
    proof {
        assert(old(buf)@ + s@.subrange(0, n as int) =~= old(buf)@ + s@);
    }
}

/// Underscores rendered as hyphens, every other character kept.
pub open spec fn hyphenate(s: Seq<char>) -> Seq<char> {
    s.map_values(|c: char| if c == '_' { '-' } else { c })
}

/// The string with underscores rendered as hyphens.
pub fn hyphenate_string(s: &String) -> (r: String)
    ensures
        r@ == hyphenate(s@),
{
    let st = s.as_str();
    let n = st.unicode_len();
    let mut v: Vec<char> = Vec::new();
    let mut i: usize = 0;
    while i < n
        invariant
            i <= n,
            n == st@.len(),
            st@ == s@,
            v@ =~= hyphenate(s@.subrange(0, i as int)),
        decreases n - i,
    {
        let c = st.get_char(i);
        if c == '_' {
            v.push('-');
        } else {
            v.push(c);
        }
        i += 1;
        proof {
            assert(v@ =~= hyphenate(s@.subrange(0, i as int)));
        }
    }
    proof {
        assert(s@.subrange(0, n as int) =~= s@);
        assert(v@ =~= hyphenate(s@));
    }
    chars_to_string(&v)
}

/// The characters of `v[start..end]`, as their own vector.
pub fn sub_chars(v: &Vec<char>, start: usize, end: usize) -> (r: Vec<char>)
    requires
        start <= end <= v@.len(),
    ensures
        r@ == v@.subrange(start as int, end as int),
{
    let mut r: Vec<char> = Vec::new();
    proof {
        assert(r@ =~= v@.subrange(start as int, start as int));
    }
    let mut i = start;
    while i < end
        invariant
            start <= i <= end <= v@.len(),
            r@ == v@.subrange(start as int, i as int),
        decreases end - i,
    {
        r.push(v[i]);
        i += 1;
        proof {
            assert(r@ =~= v@.subrange(start as int, i as int));
        }
    }
    r
}

/// Whether `v[start..end]` holds exactly the characters of `s`.
pub fn text_eq(v: &Vec<char>, start: usize, end: usize, s: &str) -> (r: bool)
    requires
        start <= end <= v@.len(),
    ensures
        r == (v@.subrange(start as int, end as int) == s@),
{
    let n = s.unicode_len();
    if end - start != n {
        proof {
            assert(v@.subrange(start as int, end as int).len() != s@.len());
        }
        return false;
    }
    let mut i: usize = 0;
    while i < n
        invariant
            i <= n,
            n == s@.len(),
            start <= end <= v@.len(),
            end - start == n,
            forall|j: int| 0 <= j < i ==> v@[start + j] == s@[j],
        decreases n - i,
    {
        if v[start + i] != s.get_char(i) {
            proof {
                assert(v@.subrange(start as int, end as int)[i as int] != s@[i as int]);
            }
            return false;
        }
        i += 1;
    }
    proof {
        assert(v@.subrange(start as int, end as int) =~= s@);
    }
    true
}

} // verus!
