//! Cutting string slices at character positions.
//!
//! The decoder sees its input as a sequence of characters, while a `&str`
//! is cut at byte offsets. The functions here do the cutting on the bytes
//! and state what they return over the characters.

use vstd::prelude::*;
use vstd::string::*;
use vstd::utf8::*;

verus! {

/// How many characters of `s` stand before the first `c`; the whole length
/// where `s` holds no `c`.
pub open spec fn span(s: Seq<char>, c: char) -> nat
    decreases s.len(),
{
    if s.len() == 0 || s[0] == c {
        0
    } else {
        1 + span(s.skip(1), c)
    }
}

/// `span` stays within the sequence, passes no `c`, and stops on a `c`
/// unless it reaches the end.
pub proof fn lemma_span(s: Seq<char>, c: char)
    ensures
        span(s, c) <= s.len(),
        forall|i: int| 0 <= i < span(s, c) ==> s[i] != c,
        span(s, c) < s.len() ==> s[span(s, c) as int] == c,
        span(s, c) == s.len() <==> !s.contains(c),
    decreases s.len(),
{
    if s.len() == 0 || s[0] == c {
    } else {
        let t = s.skip(1);
        lemma_span(t, c);
        let k = span(t, c) as int;
        assert forall|i: int| 0 <= i < k + 1 implies s[i] != c by {
            if i > 0 {
                assert(s[i] == t[i - 1]);
            }
        }
        if k < t.len() {
            assert(s[k + 1] == t[k]);
        }
    }
}

/// The first occurrence is where `span` says: a position that no `c`
/// precedes, and that holds a `c` or is the end, is `span(s, c)`.
pub proof fn lemma_span_unique(s: Seq<char>, c: char, k: int)
    requires
        0 <= k <= s.len(),
        forall|i: int| 0 <= i < k ==> s[i] != c,
        k < s.len() ==> s[k] == c,
    ensures
        span(s, c) == k,
    decreases s.len(),
{
    if s.len() == 0 || s[0] == c {
    } else {
        let t = s.skip(1);
        assert forall|i: int| 0 <= i < k - 1 implies t[i] != c by {
            assert(t[i] == s[i + 1]);
        }
        if k - 1 < t.len() {
            assert(t[k - 1] == s[k]);
        }
        lemma_span_unique(t, c, k - 1);
    }
}

/// Where a `c` follows a prefix that holds none, the first `c` of the whole
/// stands right after the prefix.
pub proof fn lemma_span_after_prefix(prefix: Seq<char>, c: char, rest: Seq<char>)
    requires
        !prefix.contains(c),
    ensures
        span(prefix + seq![c] + rest, c) == prefix.len(),
{
    let s = prefix + seq![c] + rest;
    let k = prefix.len() as int;
    assert forall|i: int| 0 <= i < k implies s[i] != c by {
        assert(prefix[i] == s[i]);
        assert(prefix.contains(s[i]));
    }
    assert(s[k] == c);
    lemma_span_unique(s, c, k);
}

/// The first character of `s` and what follows it; `None` where `s` is empty.
pub(crate) fn split_first<'a>(s: &'a str) -> (r: Option<(char, &'a str)>)
    ensures
        match r {
            Some((c, rest)) => s@.len() > 0 && c == s@[0] && rest@ == s@.skip(1),
            None => s@.len() == 0,
        },
{
    if s.is_empty() {
        return None;
    }
    let c = s.get_char(0);
    let bytes = s.as_bytes();
    proof {
        encode_utf8_first_scalar(s@);
        encode_utf8_valid_utf8(s@);
    }
    let lead: u8 = bytes[0];
    let width: usize = if lead < 0x80 {
        1
    } else if lead < 0xe0 {
        2
    } else if lead < 0xf0 {
        3
    } else {
        4
    };
    proof {
        let b = s.spec_bytes();
        assert(width == length_of_first_scalar(b));
        assert(is_char_boundary(b, width as int)) by {
            reveal_with_fuel(is_char_boundary, 2);
        }
    }
    let (_, rest) = s.split_at(width);
    proof {
        let b = s.spec_bytes();
        assert(rest.spec_bytes() =~= encode_utf8(s@.drop_first()));
        encode_utf8_decode_utf8(rest@);
        encode_utf8_decode_utf8(s@.drop_first());
    }
    Some((c, rest))
}

/// An ASCII character that occurs in `cs` occurs, as a byte, in the
/// encoding of `cs`.
proof fn lemma_encoding_holds_ascii(cs: Seq<char>, c: char)
    requires
        (c as u32) < 0x80,
        cs.contains(c),
    ensures
        encode_utf8(cs).contains(c as u8),
    decreases cs.len(),
{
    let i = choose|i: int| 0 <= i < cs.len() && cs[i] == c;
    let enc = encode_utf8(cs);
    let head = encode_scalar(cs[0] as u32);
    let rest = cs.drop_first();
    if cs[0] == c {
        let x = c as u32;
        assert((x & 0x7f) as u8 == x as u8) by (bit_vector)
            requires
                x < 0x80,
        ;
        assert(enc[0] == c as u8);
    } else {
        assert(rest[i - 1] == c);
        lemma_encoding_holds_ascii(rest, c);
        let j = choose|j: int| 0 <= j < encode_utf8(rest).len() && encode_utf8(rest)[j] == c as u8;
        assert(enc[head.len() + j] == c as u8);
    }
}

/// Where the encoding of `cs` begins with the byte of an ASCII character,
/// `cs` begins with that character.
proof fn lemma_ascii_lead(cs: Seq<char>, c: char)
    requires
        (c as u32) < 0x80,
        encode_utf8(cs).len() > 0,
        encode_utf8(cs)[0] == c as u8,
    ensures
        cs.len() > 0,
        cs[0] == c,
{
    encode_utf8_first_scalar(cs);
    let d = c as u8;
    assert((d & 0x7f) as u32 == d as u32) by (bit_vector)
        requires
            d < 0x80,
    ;
    assert(cs[0] as u32 == c as u32);
    char_u32_cast(cs[0], c as u32);
    char_u32_cast(c, c as u32);
}

/// Cuts `s` before the first `c`: what precedes it, and the rest from that
/// `c` on. Where `s` holds no `c` the first part is all of `s` and the
/// second is empty.
pub(crate) fn split_at_first<'a>(s: &'a str, c: char) -> (r: (&'a str, &'a str))
    requires
        (c as u32) < 0x80,
    ensures
        r.0@ == s@.take(span(s@, c) as int),
        r.1@ == s@.skip(span(s@, c) as int),
{
    let bytes = s.as_bytes();
    let d: u8 = c as u8;
    let n: usize = bytes.len();
    let mut i: usize = 0;
    while i < n && bytes[i] != d
        invariant
            n == bytes@.len(),
            i <= n,
            forall|j: int| 0 <= j < i ==> bytes@[j] != d,
        decreases n - i,
    {
        i += 1;
    }
    proof {
        let b = s.spec_bytes();
        encode_utf8_valid_utf8(s@);
        if i < n {
            is_char_boundary_iff_not_is_continuation_byte(b, i as int);
        } else {
            is_char_boundary_start_end_of_seq(b);
        }
    }
    let (head, tail) = s.split_at(i);
    proof {
        let b = s.spec_bytes();
        decode_utf8_split(b, i as int);
        encode_utf8_decode_utf8(s@);
        encode_utf8_decode_utf8(head@);
        encode_utf8_decode_utf8(tail@);
        assert(s@ =~= head@ + tail@);
        if head@.contains(c) {
            lemma_encoding_holds_ascii(head@, c);
        }
        if tail@.len() > 0 {
            assert(tail.spec_bytes().len() > 0);
            lemma_ascii_lead(tail@, c);
        }
        let k = head@.len() as int;
        assert forall|j: int| 0 <= j < k implies s@[j] != c by {
            assert(head@[j] == s@[j]);
        }
        if k < s@.len() {
            assert(s@[k] == tail@[0]);
        }
        lemma_span_unique(s@, c, k);
        assert(head@ =~= s@.take(k));
        assert(tail@ =~= s@.skip(k));
    }
    (head, tail)
}

/// `s` without the prefix `prefix`; `None` where `s` does not begin with it.
pub(crate) fn strip_prefix<'a>(s: &'a str, prefix: &str) -> (r: Option<&'a str>)
    ensures
        match r {
            Some(rest) => prefix@.is_prefix_of(s@) && rest@ == s@.skip(prefix@.len() as int),
            None => !prefix@.is_prefix_of(s@),
        },
{
    let mut rest = s;
    let mut wanted = prefix;
    let ghost mut k: int = 0;
    loop
        invariant
            0 <= k <= prefix@.len(),
            k <= s@.len(),
            wanted@ == prefix@.skip(k),
            rest@ == s@.skip(k),
            forall|i: int| 0 <= i < k ==> s@[i] == prefix@[i],
        decreases wanted@.len(),
    {
        match split_first(wanted) {
            None => {
                assert(prefix@ =~= s@.subrange(0, prefix@.len() as int));
                return Some(rest);
            },
            Some((c, wanted_tail)) => {
                match split_first(rest) {
                    None => {
                        return None;
                    },
                    Some((d, rest_tail)) => {
                        if c != d {
                            assert(prefix@[k] == c && s@[k] == d);
                            assert(prefix@.is_prefix_of(s@) ==> s@.subrange(
                                0,
                                prefix@.len() as int,
                            )[k] == prefix@[k]);
                            return None;
                        }
                        assert(wanted_tail@ =~= prefix@.skip(k + 1));
                        assert(rest_tail@ =~= s@.skip(k + 1));
                        rest = rest_tail;
                        wanted = wanted_tail;
                        proof {
                            k = k + 1;
                        }
                    },
                }
            },
        }
    }
}

} // verus!
