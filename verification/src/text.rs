//! Splitting a string at the first occurrence of an ASCII separator.
//!
//! The model of a string is its sequence of characters. The executable
//! functions work on the string's UTF-8 bytes, where an ASCII character is
//! always a byte of its own, and hand out sub-slices of the input.

use vstd::prelude::*;
use vstd::string::*;
use vstd::utf8::*;

verus! {

/// True when `c` is an ASCII character, encoded in UTF-8 as the single byte
/// `c as u8`.
pub open spec fn is_ascii_char(c: char) -> bool {
    (c as u32) < 0x80
}

/// The position of the first `c` in `s`, or `s.len()` where `s` holds none.
pub open spec fn first_index(s: Seq<char>, c: char) -> int
    decreases s.len(),
{
    if s.len() == 0 {
        0
    } else if s[0] == c {
        0
    } else {
        1 + first_index(s.drop_first(), c)
    }
}

/// What stands before the first `sep` in `s`; nothing where `s` holds no `sep`.
pub open spec fn part_before(s: Seq<char>, sep: char) -> Option<Seq<char>> {
    if s.contains(sep) {
        Some(s.subrange(0, first_index(s, sep)))
    } else {
        None
    }
}

/// What stands after the first `sep` in `s`; all of `s` where it holds no `sep`.
pub open spec fn part_after(s: Seq<char>, sep: char) -> Seq<char> {
    if s.contains(sep) {
        s.subrange(first_index(s, sep) + 1, s.len() as int)
    } else {
        s
    }
}

/// `first_index` is the least position that holds `c`, and is `s.len()`
/// exactly where no position does.
pub proof fn lemma_first_index(s: Seq<char>, c: char)
    ensures
        0 <= first_index(s, c) <= s.len(),
        forall|j: int| 0 <= j < first_index(s, c) ==> s[j] != c,
        first_index(s, c) < s.len() ==> s[first_index(s, c)] == c,
        first_index(s, c) < s.len() <==> s.contains(c),
    decreases s.len(),
{
    if s.len() != 0 && s[0] != c {
        let t = s.drop_first();
        lemma_first_index(t, c);
        assert forall|j: int| 0 <= j < first_index(s, c) implies s[j] != c by {
            if j > 0 {
                assert(s[j] == t[j - 1]);
            }
        }
    }
}

/// A position that holds `c` and has no `c` before it is the first index.
pub proof fn lemma_first_index_is(s: Seq<char>, c: char, i: int)
    requires
        0 <= i < s.len(),
        s[i] == c,
        forall|j: int| 0 <= j < i ==> s[j] != c,
    ensures
        first_index(s, c) == i,
        s.contains(c),
{
    lemma_first_index(s, c);
}

/// Splitting loses nothing and splits once: where `s` holds `sep`, the part
/// before holds no `sep`, and the part before, `sep` and the part after make
/// up `s` again.
pub proof fn lemma_parts_rejoin(s: Seq<char>, sep: char)
    requires
        s.contains(sep),
    ensures
        part_before(s, sep) is Some,
        !part_before(s, sep).unwrap().contains(sep),
        part_before(s, sep).unwrap() + seq![sep] + part_after(s, sep) == s,
{
    lemma_first_index(s, sep);
    let before = part_before(s, sep).unwrap();
    if before.contains(sep) {
        let j = choose|j: int| 0 <= j < before.len() && before[j] == sep;
        assert(s[j] == sep);
    }
    assert(before + seq![sep] + part_after(s, sep) =~= s);
}

/// An ASCII character and its byte stand for each other.
proof fn lemma_ascii_byte(c: char)
    requires
        is_ascii_char(c),
    ensures
        (c as u8) < 0x80,
        (c as u8) as u32 == c as u32,
        ((c as u8) as u32) as char == c,
        encode_scalar(c as u32) == seq![c as u8],
        codepoint_width_1(c as u8) == c as u32,
{
    let v = c as u32;
    let b = c as u8;
    assert((v as u8) < 0x80 && (v as u8) as u32 == v && (v & 0x7F) as u8 == v as u8) by (bit_vector)
        requires
            v < 0x80,
    ;
    assert((b & 0x7F) as u32 == b as u32) by (bit_vector)
        requires
            b < 0x80,
    ;
}

/// Where a sequence of characters holds the ASCII character `c`, its
/// encoding holds the byte of `c`.
proof fn lemma_encoding_holds_byte(s: Seq<char>, c: char)
    requires
        is_ascii_char(c),
        s.contains(c),
    ensures
        encode_utf8(s).contains(c as u8),
    decreases s.len(),
{
    let p = choose|p: int| 0 <= p < s.len() && s[p] == c;
    let head = encode_scalar(s[0] as u32);
    let tail = encode_utf8(s.drop_first());
    if s[0] == c {
        lemma_ascii_byte(c);
        assert(encode_utf8(s)[0] == c as u8);
    } else {
        assert(s.drop_first()[p - 1] == c);
        lemma_encoding_holds_byte(s.drop_first(), c);
        let q = choose|q: int| 0 <= q < tail.len() && tail[q] == c as u8;
        assert(encode_utf8(s)[head.len() + q] == c as u8);
    }
}

/// The characters of a string whose bytes `bytes` hold the byte of `sep`
/// first at `i`: the characters encoded before `i`, then `sep`, then those
/// encoded after it, with no `sep` among the former.
proof fn lemma_split_at_byte(s: Seq<char>, sep: char, i: int)
    requires
        is_ascii_char(sep),
        0 <= i < encode_utf8(s).len(),
        encode_utf8(s)[i] == sep as u8,
        forall|j: int| 0 <= j < i ==> encode_utf8(s)[j] != sep as u8,
    ensures
        s.contains(sep),
        is_char_boundary(encode_utf8(s), i),
        is_char_boundary(encode_utf8(s), i + 1),
        encode_utf8(s).subrange(0, i) == encode_utf8(s.subrange(0, first_index(s, sep))),
        encode_utf8(s).subrange(i + 1, encode_utf8(s).len() as int) == encode_utf8(
            s.subrange(first_index(s, sep) + 1, s.len() as int),
        ),
{
    broadcast use group_utf8_lib;

    let bytes = encode_utf8(s);
    let n = bytes.len() as int;
    let front = bytes.subrange(0, i);
    let back = bytes.subrange(i, n);
    let rest = bytes.subrange(i + 1, n);
    lemma_ascii_byte(sep);

    // An ASCII byte continues no character, so a character starts at `i`,
    // and the bytes on either side of `i` decode on their own.
    assert(!is_continuation_byte(bytes[i]));
    assert(is_char_boundary(bytes, i));
    assert(valid_utf8(front) && valid_utf8(back));
    assert(s =~= decode_utf8(front) + decode_utf8(back));

    // The separator is the first character of `back`, one byte wide.
    assert(pop_first_scalar(back) =~= rest);
    assert(decode_utf8(back) =~= seq![sep] + decode_utf8(rest));
    assert(is_char_boundary(back, 1)) by {
        assert(is_char_boundary(pop_first_scalar(back), 0));
    }

    // No separator is encoded in `front`, so the one at `i` is the first.
    let before = decode_utf8(front);
    let after = decode_utf8(rest);
    if before.contains(sep) {
        lemma_encoding_holds_byte(before, sep);
        let q = choose|q: int| 0 <= q < front.len() && front[q] == sep as u8;
        assert(bytes[q] == sep as u8);
    }
    let k = before.len() as int;
    assert forall|j: int| 0 <= j < k implies s[j] != sep by {
        assert(s[j] == before[j]);
    }
    lemma_first_index_is(s, sep, k);
    assert(s.subrange(0, k) =~= before);
    assert(s.subrange(k + 1, s.len() as int) =~= after);
}

/// Two sequences of characters with the same encoding are the same.
proof fn lemma_encoding_injective(a: Seq<char>, b: Seq<char>)
    requires
        encode_utf8(a) == encode_utf8(b),
    ensures
        a == b,
{
    encode_utf8_decode_utf8(a);
    encode_utf8_decode_utf8(b);
}

/// The byte position of the first `sep` in `s`, if there is one.
fn find_ascii(s: &str, sep: char) -> (r: Option<usize>)
    requires
        is_ascii_char(sep),
    ensures
        r is Some <==> s@.contains(sep),
        valid_utf8(s.spec_bytes()),
        r matches Some(i) ==> i < s.spec_bytes().len() && i < usize::MAX,
        r matches Some(i) ==> is_char_boundary(s.spec_bytes(), i as int) && is_char_boundary(
            s.spec_bytes(),
            i + 1,
        ),
        r matches Some(i) ==> s.spec_bytes().subrange(0, i as int) == encode_utf8(
            s@.subrange(0, first_index(s@, sep)),
        ),
        r matches Some(i) ==> s.spec_bytes().subrange(i + 1, s.spec_bytes().len() as int)
            == encode_utf8(s@.subrange(first_index(s@, sep) + 1, s@.len() as int)),
{
    let bytes = s.as_bytes();
    let b = sep as u8;
    let mut i: usize = 0;
    while i < bytes.len()
        invariant
            is_ascii_char(sep),
            i <= bytes@.len(),
            bytes@ == encode_utf8(s@),
            b == sep as u8,
            forall|j: int| 0 <= j < i ==> bytes@[j] != b,
        decreases bytes@.len() - i,
    {
        if bytes[i] == b {
            proof {
                encode_utf8_valid_utf8(s@);
                lemma_split_at_byte(s@, sep, i as int);
            }
            return Some(i);
        }
        i += 1;
    }
    proof {
        encode_utf8_valid_utf8(s@);
        if s@.contains(sep) {
            lemma_encoding_holds_byte(s@, sep);
        }
    }
    None
}

/// The part of `s` before its first `sep`, as a sub-slice of `s`;
/// `None` where `s` holds no `sep`.
pub(crate) fn slice_before<'a>(s: &'a str, sep: char) -> (r: Option<&'a str>)
    requires
        is_ascii_char(sep),
    ensures
        r matches Some(t) ==> part_before(s@, sep) == Some(t@),
        r is None ==> part_before(s@, sep) is None,
{
    match find_ascii(s, sep) {
        Some(i) => {
            let (front, _) = s.split_at(i);
            proof {
                lemma_encoding_injective(front@, s@.subrange(0, first_index(s@, sep)));
            }
            Some(front)
        },
        None => None,
    }
}

/// The part of `s` after its first `sep`, as a sub-slice of `s`;
/// `s` itself where it holds no `sep`.
pub(crate) fn slice_after<'a>(s: &'a str, sep: char) -> (r: &'a str)
    requires
        is_ascii_char(sep),
    ensures
        r@ == part_after(s@, sep),
{
    match find_ascii(s, sep) {
        Some(i) => {
            let (_, back) = s.split_at(i + 1);
            proof {
                lemma_encoding_injective(
                    back@,
                    s@.subrange(first_index(s@, sep) + 1, s@.len() as int),
                );
            }
            back
        },
        None => s,
    }
}

/// Whether `s` is the one ASCII character `c` and nothing else.
pub(crate) fn is_char(s: &str, c: char) -> (r: bool)
    requires
        is_ascii_char(c),
    ensures
        r == (s@ == seq![c]),
{
    let bytes = s.as_bytes();
    let r = bytes.len() == 1 && bytes[0] == c as u8;
    proof {
        lemma_ascii_byte(c);
        reveal_with_fuel(encode_utf8, 2);
        assert(encode_utf8(seq![c]) =~= seq![c as u8]);
        if r {
            assert(bytes@ =~= seq![c as u8]);
            lemma_encoding_injective(s@, seq![c]);
        }
    }
    r
}

} // verus!
