//! The smallest rules of the grammar, on the bytes of a string.

use vstd::prelude::*;
use vstd::string::*;
use crate::grammar;
use crate::ast::bytes_of;
use crate::grammar::{
    comments, digit_test, digit_value, is_name_byte, is_space, line, name_test, run, skip,
    space_test, spaces, tag, value_of,
};
use crate::text::utf8;

verus! {

/// A run of bytes that pass a test goes on behind its first bytes.
pub proof fn lemma_run_split(b: Seq<u8>, i: int, j: int, p: spec_fn(u8) -> bool)
    requires
        0 <= i <= j <= b.len(),
        forall|k: int| i <= k < j ==> p(#[trigger] b[k]),
    ensures
        run(b, i, p) == (j - i) + run(b, j, p),
    decreases j - i,
{
    if i < j {
        lemma_run_split(b, i + 1, j, p);
    }
}

/// Whether a byte is a blank, a tab, a carriage return or a line feed.
fn space(c: u8) -> (r: bool)
    ensures
        r == is_space(c),
{
    c == ' ' as u8 || c == '\t' as u8 || c == '\r' as u8 || c == '\n' as u8
}

/// The offset behind the space at `at`.
pub fn skip_spaces(bytes: &[u8], at: usize) -> (end: usize)
    requires
        at <= bytes@.len(),
    ensures
        at <= end <= bytes@.len(),
        end - at == spaces(bytes@, at as int),
{
    let mut end = at;
    while end < bytes.len() && space(bytes[end])
        invariant
            at <= end <= bytes@.len(),
            forall|k: int| at <= k < end ==> space_test()(#[trigger] bytes@[k]),
        decreases bytes@.len() - end,
    {
        end += 1;
    }
    proof {
        lemma_run_split(bytes@, at as int, end as int, space_test());
    }
    end
}

/// The offset of the next line feed at or behind `at`, if there is one.
fn find_line_feed(bytes: &[u8], at: usize) -> (r: Option<usize>)
    requires
        at <= bytes@.len(),
    ensures
        match r {
            Some(end) => at <= end < bytes@.len() && line(bytes@, at as int) == Some(
                (end - at) as nat,
            ),
            None => line(bytes@, at as int) is None,
        },
{
    let mut end = at;
    while end < bytes.len() && bytes[end] != '\n' as u8
        invariant
            at <= end <= bytes@.len(),
            forall|k: int| at <= k < end ==> #[trigger] bytes@[k] != '\n' as u8,
        decreases bytes@.len() - end,
    {
        end += 1;
    }
    proof {
        lemma_line_split(bytes@, at as int, end as int);
    }
    if end < bytes.len() {
        Some(end)
    } else {
        None
    }
}

/// The next line feed lies behind the bytes that are none.
proof fn lemma_line_split(b: Seq<u8>, i: int, j: int)
    requires
        0 <= i <= j <= b.len(),
        forall|k: int| i <= k < j ==> #[trigger] b[k] != '\n' as u8,
    ensures
        line(b, i) == match line(b, j) {
            Some(n) => Some((n + (j - i)) as nat),
            None => None,
        },
    decreases j - i,
{
    if i < j {
        lemma_line_split(b, i + 1, j);
    }
}

/// The offset behind the comments at `at`.
fn skip_comments(bytes: &[u8], at: usize) -> (end: usize)
    requires
        at <= bytes@.len(),
    ensures
        at <= end <= bytes@.len(),
        end - at == comments(bytes@, at as int),
{
    let mut end = at;
    while end < bytes.len() && bytes[end] == '#' as u8
        invariant
            at <= end <= bytes@.len(),
            comments(bytes@, at as int) == (end - at) + comments(bytes@, end as int),
        decreases bytes@.len() - end,
    {
        match find_line_feed(bytes, end + 1) {
            Some(feed) => {
                end = skip_spaces(bytes, feed);
            },
            None => {
                return end;
            },
        }
    }
    end
}

/// The offset behind the space and the comments at `at`.
pub fn skip_blank(bytes: &[u8], at: usize) -> (end: usize)
    requires
        at <= bytes@.len(),
    ensures
        at <= end <= bytes@.len(),
        end - at == skip(bytes@, at as int),
{
    let after = skip_spaces(bytes, at);
    skip_comments(bytes, after)
}

/// The offset behind the bytes of `t`, if they stand at `at`.
pub fn match_tag(bytes: &[u8], at: usize, t: &str) -> (r: Option<usize>)
    requires
        at <= bytes@.len(),
    ensures
        match r {
            Some(end) => tag(bytes@, at as int, t) && end == at + bytes_of(t).len(),
            None => !tag(bytes@, at as int, t),
        },
{
    let wanted = utf8(t);
    if wanted.len() > bytes.len() - at {
        return None;
    }
    let mut k: usize = 0;
    while k < wanted.len()
        invariant
            0 <= k <= wanted@.len(),
            at + wanted@.len() <= bytes@.len() <= usize::MAX,
            wanted@ == bytes_of(t),
            wanted@.len() == wanted.len(),
            forall|j: int| 0 <= j < k ==> bytes@[at + j] == wanted@[j],
        decreases wanted@.len() - k,
    {
        if bytes[at + k] != wanted[k] {
            assert(bytes@.subrange(at as int, at + wanted@.len())[k as int] != wanted@[k as int]);
            return None;
        }
        k += 1;
    }
    assert(bytes@.subrange(at as int, at + wanted@.len()) =~= wanted@);
    Some(at + wanted.len())
}

/// The offset behind the token `t`, which may stand behind space and
/// comments.
pub fn token(bytes: &[u8], at: usize, t: &str) -> (r: Option<usize>)
    requires
        at <= bytes@.len(),
    ensures
        match r {
            Some(end) => at <= end <= bytes@.len() && grammar::token(bytes@, at as int, t)
                == Some((end - at) as nat),
            None => grammar::token(bytes@, at as int, t) is None,
        },
{
    proof {
        reveal(grammar::token);
    }
    let start = skip_blank(bytes, at);
    match_tag(bytes, start, t)
}

/// The offset behind the bytes of a name at `at`.
pub fn skip_name(bytes: &[u8], at: usize) -> (end: usize)
    requires
        at <= bytes@.len(),
    ensures
        at <= end <= bytes@.len(),
        end - at == run(bytes@, at as int, name_test()),
        forall|k: int| at <= k < end ==> is_name_byte(#[trigger] bytes@[k]),
{
    let mut end = at;
    while end < bytes.len() && (('a' as u8 <= bytes[end] && bytes[end] <= 'z' as u8) || bytes[end]
        == '_' as u8)
        invariant
            at <= end <= bytes@.len(),
            forall|k: int| at <= k < end ==> name_test()(#[trigger] bytes@[k]),
        decreases bytes@.len() - end,
    {
        end += 1;
    }
    proof {
        lemma_run_split(bytes@, at as int, end as int, name_test());
    }
    end
}

/// The value of a digit in the base `radix`.
fn digit(c: u8, radix: u32) -> (r: Option<u32>)
    requires
        radix == 8 || radix == 10 || radix == 16,
    ensures
        match r {
            Some(d) => digit_value(c, radix as nat) == Some(d as nat) && d < radix,
            None => digit_value(c, radix as nat) is None,
        },
{
    let d: u32 = if '0' as u8 <= c && c <= '9' as u8 {
        (c - '0' as u8) as u32
    } else if 'a' as u8 <= c && c <= 'f' as u8 {
        (c - 'a' as u8) as u32 + 10
    } else if 'A' as u8 <= c && c <= 'F' as u8 {
        (c - 'A' as u8) as u32 + 10
    } else {
        return None;
    };
    if d < radix {
        Some(d)
    } else {
        None
    }
}

/// One more digit makes a number no smaller.
proof fn lemma_value_grows(digits: Seq<u8>, radix: nat)
    requires
        digits.len() > 0,
        radix >= 1,
    ensures
        value_of(digits, radix) >= value_of(digits.drop_last(), radix),
{
    let v = value_of(digits.drop_last(), radix);
    assert(v * radix >= v) by (nonlinear_arith)
        requires
            radix >= 1,
            v >= 0,
    ;
}

/// A number in the base `radix` at `at`, with the offset behind it.
pub fn digits(bytes: &[u8], at: usize, radix: u32) -> (r: Option<(u32, usize)>)
    requires
        at <= bytes@.len(),
        radix == 8 || radix == 10 || radix == 16,
    ensures
        match r {
            Some((v, end)) => at <= end <= bytes@.len() && grammar::digits(
                bytes@,
                at as int,
                radix as nat,
            ) == Some((v, (end - at) as nat)),
            None => grammar::digits(bytes@, at as int, radix as nat) is None,
        },
{
    proof {
        reveal(grammar::digits);
    }
    let mut end = at;
    let mut value: u64 = 0;
    let mut fits = true;
    let mut more = true;
    assert(bytes@.subrange(at as int, at as int) =~= Seq::<u8>::empty());
    while more && end < bytes.len()
        invariant
            at <= end <= bytes@.len(),
            radix == 8 || radix == 10 || radix == 16,
            forall|k: int| at <= k < end ==> digit_test(radix as nat)(#[trigger] bytes@[k]),
            !more ==> end < bytes@.len() && !digit_test(radix as nat)(bytes@[end as int]),
            fits ==> value == value_of(bytes@.subrange(at as int, end as int), radix as nat),
            fits ==> value <= u32::MAX,
            !fits ==> value_of(bytes@.subrange(at as int, end as int), radix as nat) > u32::MAX,
        decreases bytes@.len() - end + if more { 1nat } else { 0nat },
    {
        match digit(bytes[end], radix) {
            Some(d) => {
                proof {
                    let longer = bytes@.subrange(at as int, end + 1);
                    assert(longer.drop_last() =~= bytes@.subrange(at as int, end as int));
                    assert(longer.last() == bytes@[end as int]);
                    lemma_value_grows(longer, radix as nat);
                }
                if fits {
                    assert(value * (radix as u64) <= 0xFFFF_FFFFu64 * 16) by (nonlinear_arith)
                        requires
                            value <= 0xFFFF_FFFFu64,
                            radix <= 16,
                    ;
                    value = value * (radix as u64) + (d as u64);
                    if value > 0xFFFF_FFFF {
                        fits = false;
                    }
                }
                end += 1;
            },
            None => {
                more = false;
            },
        }
    }
    proof {
        lemma_run_split(bytes@, at as int, end as int, digit_test(radix as nat));
    }
    if end > at && fits {
        Some((value as u32, end))
    } else {
        None
    }
}

} // verus!
