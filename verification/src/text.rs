//! Strings as byte sequences.
//!
//! The library never looks at characters: a name is the sequence of its UTF-8
//! bytes, and two names are the same when those sequences are equal.

use vstd::prelude::*;
use vstd::string::*;
use vstd::utf8::{
    encode_utf8_valid_utf8, is_char_boundary, is_char_boundary_iff_not_is_continuation_byte,
    pop_first_scalar, valid_utf8,
};
use crate::ast::bytes_of;
use crate::model::{high_byte, low_byte};

verus! {

/// The bytes of a text.
pub fn utf8<'a>(text: &'a str) -> (b: &'a [u8])
    ensures
        b@ == bytes_of(text),
{
    proof {
        reveal(bytes_of);
    }
    text.as_bytes()
}

/// Whether two strings hold the same bytes.
pub fn same_text(a: &str, b: &str) -> (r: bool)
    ensures
        r == (bytes_of(a) == bytes_of(b)),
{
    let x = utf8(a);
    let y = utf8(b);
    if x.len() != y.len() {
        return false;
    }
    let mut i: usize = 0;
    while i < x.len()
        invariant
            x@ == bytes_of(a),
            y@ == bytes_of(b),
            x@.len() == y@.len(),
            0 <= i <= x@.len(),
            forall|j: int| 0 <= j < i ==> x@[j] == y@[j],
        decreases x@.len() - i,
    {
        if x[i] != y[i] {
            return false;
        }
        i += 1;
    }
    assert(x@ =~= y@);
    true
}

/// The low byte of a number.
pub fn low(value: usize) -> (r: u8)
    ensures
        r == low_byte(value as int),
{
    (value % 256) as u8
}

/// The second-lowest byte of a number.
pub fn high(value: usize) -> (r: u8)
    ensures
        r == high_byte(value as int),
{
    ((value / 256) % 256) as u8
}

/// Behind bytes of ASCII at the start of a text, a character starts or the
/// text ends.
pub proof fn lemma_boundary_behind_ascii(bytes: Seq<u8>, n: int)
    requires
        valid_utf8(bytes),
        0 <= n <= bytes.len(),
        forall|k: int| 0 <= k < n ==> #[trigger] bytes[k] <= 0x7f,
    ensures
        is_char_boundary(bytes, n),
    decreases n,
{
    if n > 0 {
        let rest = pop_first_scalar(bytes);
        assert(bytes[0] <= 0x7f);
        assert(rest =~= bytes.subrange(1, bytes.len() as int));
        assert forall|k: int| 0 <= k < n - 1 implies #[trigger] rest[k] <= 0x7f by {
            assert(rest[k] == bytes[k + 1]);
        }
        lemma_boundary_behind_ascii(rest, n - 1);
    }
}

/// The part of a text from the offset `from` to the offset `to`, where that
/// part is ASCII.
pub fn ascii_part<'a>(text: &'a str, from: usize, to: usize) -> (r: &'a str)
    requires
        from < to <= bytes_of(text).len(),
        forall|k: int| from <= k < to ==> #[trigger] bytes_of(text)[k] <= 0x7f,
    ensures
        bytes_of(r) == bytes_of(text).subrange(from as int, to as int),
{
    let ghost bytes = bytes_of(text);
    proof {
        reveal(bytes_of);
        encode_utf8_valid_utf8(text@);
        is_char_boundary_iff_not_is_continuation_byte(bytes, from as int);
    }
    let (_, tail) = text.split_at(from);
    proof {
        encode_utf8_valid_utf8(tail@);
        assert forall|k: int| 0 <= k < to - from implies #[trigger] bytes_of(tail)[k]
            <= 0x7f by {
            assert(bytes_of(tail)[k] == bytes[from + k]);
        }
        lemma_boundary_behind_ascii(bytes_of(tail), to - from);
    }
    let (part, _) = tail.split_at(to - from);
    assert(bytes_of(part) =~= bytes.subrange(from as int, to as int));
    part
}

} // verus!
