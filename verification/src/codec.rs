//! Wire codec: a symmetric byte encoding for the three lobby message
//! kinds.
//!
//! Layout, in order of the fields of each message: a `u64` is eight bytes
//! little-endian; a string is a `u64` character count followed by four
//! little-endian bytes per character (its Unicode scalar value); a `bool`
//! is one byte, `0` or `1`; a room-list is a `u64` entry count followed by
//! the entries. Decoding is a function, pinned to the specification
//! parsers below: the encoding of every well-formed message decodes back
//! to that message, and a buffer the parsers refuse is reported as
//! malformed and dropped by the callers.
#![allow(unused_imports)]
use vstd::prelude::*;

use crate::messages::{
    CreateRoomMessage, CreateRoomMsgView, EnterRoomMessage, EnterRoomMsgView, ListRoomsMessage,
    ListRoomsMsgView, RoomSummary, RoomSummaryView,
};

verus! {

/// The eight bytes of `x`, least significant first.
pub open spec fn u64_le(x: u64) -> Seq<u8> {
    seq![
        x as u8,
        (x >> 8) as u8,
        (x >> 16) as u8,
        (x >> 24) as u8,
        (x >> 32) as u8,
        (x >> 40) as u8,
        (x >> 48) as u8,
        (x >> 56) as u8,
    ]
}

/// The `u64` whose little-endian bytes are `b0 ..= b7`.
pub open spec fn u64_from_le(b0: u8, b1: u8, b2: u8, b3: u8, b4: u8, b5: u8, b6: u8, b7: u8) -> u64 {
    (b0 as u64) | (b1 as u64) << 8 | (b2 as u64) << 16 | (b3 as u64) << 24 | (b4 as u64) << 32
        | (b5 as u64) << 40 | (b6 as u64) << 48 | (b7 as u64) << 56
}

/// Reading back the little-endian bytes of `x` yields `x`.
pub proof fn lemma_u64_le_round_trip(x: u64)
    ensures
        u64_from_le(
            x as u8,
            (x >> 8) as u8,
            (x >> 16) as u8,
            (x >> 24) as u8,
            (x >> 32) as u8,
            (x >> 40) as u8,
            (x >> 48) as u8,
            (x >> 56) as u8,
        ) == x,
{
    assert(((x as u8) as u64) | (((x >> 8) as u8) as u64) << 8 | (((x >> 16) as u8) as u64) << 16
        | (((x >> 24) as u8) as u64) << 24 | (((x >> 32) as u8) as u64) << 32
        | (((x >> 40) as u8) as u64) << 40 | (((x >> 48) as u8) as u64) << 48
        | (((x >> 56) as u8) as u64) << 56 == x) by (bit_vector);
}

/// The four bytes of `x`, least significant first.
pub open spec fn u32_le(x: u32) -> Seq<u8> {
    seq![x as u8, (x >> 8) as u8, (x >> 16) as u8, (x >> 24) as u8]
}

/// The `u32` whose little-endian bytes are `b0 ..= b3`.
pub open spec fn u32_from_le(b0: u8, b1: u8, b2: u8, b3: u8) -> u32 {
    (b0 as u32) | (b1 as u32) << 8 | (b2 as u32) << 16 | (b3 as u32) << 24
}

/// Reading back the little-endian bytes of `x` yields `x`.
pub proof fn lemma_u32_le_round_trip(x: u32)
    ensures
        u32_from_le(x as u8, (x >> 8) as u8, (x >> 16) as u8, (x >> 24) as u8) == x,
{
    assert(((x as u8) as u32) | (((x >> 8) as u8) as u32) << 8 | (((x >> 16) as u8) as u32) << 16
        | (((x >> 24) as u8) as u32) << 24 == x) by (bit_vector);
}

/// Whether `x` is the Unicode scalar value of some `char`: not a surrogate
/// and at most `char::MAX`.
pub open spec fn valid_scalar(x: u32) -> bool {
    x < 0xD800 || (0xDFFF < x && x <= 0x10FFFF)
}

/// Relies on `char::from_u32` of core: it returns `Some` exactly on valid
/// Unicode scalar values (not a surrogate, at most `char::MAX`), and the
/// returned character has that scalar value.
pub assume_specification[ char::from_u32 ](x: u32) -> (r: Option<char>)
    ensures
        r matches Some(c) ==> c as u32 == x,
        valid_scalar(x) ==> r is Some,
;

/// The `char` with scalar value `x`, when one exists.
pub open spec fn char_of(x: u32) -> char {
    choose|c: char| (#[trigger] (c as u32)) == x
}

/// `char_of` inverts the scalar value of any character.
pub proof fn lemma_char_of_scalar(c: char)
    ensures
        char_of(c as u32) == c,
{
    let x: u32 = c as u32;
    assert((c as u32) == x);
    assert(exists|d: char| (#[trigger] (d as u32)) == x);
    assert(char_of(x) as u32 == c as u32);
}

/// Append the little-endian bytes of `x` to `out`.
pub fn encode_u64(out: &mut Vec<u8>, x: u64)
    ensures
        final(out)@ == old(out)@ + u64_le(x),
{
    out.push(#[verifier::truncate] (x as u8));
    out.push(#[verifier::truncate] ((x >> 8) as u8));
    out.push(#[verifier::truncate] ((x >> 16) as u8));
    out.push(#[verifier::truncate] ((x >> 24) as u8));
    out.push(#[verifier::truncate] ((x >> 32) as u8));
    out.push(#[verifier::truncate] ((x >> 40) as u8));
    out.push(#[verifier::truncate] ((x >> 48) as u8));
    out.push(#[verifier::truncate] ((x >> 56) as u8));
}

/// Append the little-endian bytes of `x` to `out`.
pub fn encode_u32(out: &mut Vec<u8>, x: u32)
    ensures
        final(out)@ == old(out)@ + u32_le(x),
{
    out.push(#[verifier::truncate] (x as u8));
    out.push(#[verifier::truncate] ((x >> 8) as u8));
    out.push(#[verifier::truncate] ((x >> 16) as u8));
    out.push(#[verifier::truncate] ((x >> 24) as u8));
}

/// Read a `u32` from `b` at position `i`.
pub fn decode_u32(b: &Vec<u8>, i: usize) -> (r: u32)
    requires
        i + 4 <= b@.len(),
    ensures
        r == u32_from_le(b@[i as int], b@[i + 1], b@[i + 2], b@[i + 3]),
{
    let n = b.len();
    assert(i + 4 <= n);
    (b[i] as u32) | (b[i + 1] as u32) << 8 | (b[i + 2] as u32) << 16 | (b[i + 3] as u32) << 24
}

/// Read a `u64` from `b` at position `i`.
pub fn decode_u64(b: &Vec<u8>, i: usize) -> (r: u64)
    requires
        i + 8 <= b@.len(),
    ensures
        r == u64_from_le(
            b@[i as int],
            b@[i + 1],
            b@[i + 2],
            b@[i + 3],
            b@[i + 4],
            b@[i + 5],
            b@[i + 6],
            b@[i + 7],
        ),
{
    let n = b.len();
    assert(i + 8 <= n);
    (b[i] as u64) | (b[i + 1] as u64) << 8 | (b[i + 2] as u64) << 16 | (b[i + 3] as u64) << 24
        | (b[i + 4] as u64) << 32 | (b[i + 5] as u64) << 40 | (b[i + 6] as u64) << 48
        | (b[i + 7] as u64) << 56
}

/// The four-byte encoding of one character: its scalar value, little-endian.
pub open spec fn char_le(c: char) -> Seq<u8> {
    u32_le(c as u32)
}

/// The concatenated encodings of the characters of `s`.
pub open spec fn chars_le(s: Seq<char>) -> Seq<u8>
    decreases s.len(),
{
    if s.len() == 0 {
        Seq::<u8>::empty()
    } else {
        char_le(s[0]) + chars_le(s.skip(1))
    }
}

/// Character encodings take four bytes each.
pub proof fn lemma_chars_le_len(s: Seq<char>)
    ensures
        chars_le(s).len() == 4 * s.len(),
    decreases s.len(),
{
    if s.len() > 0 {
        lemma_chars_le_len(s.skip(1));
    }
}

/// Appending a character appends its encoding.
pub proof fn lemma_chars_le_snoc(s: Seq<char>, c: char)
    ensures
        chars_le(s.push(c)) == chars_le(s) + char_le(c),
    decreases s.len(),
{
    if s.len() == 0 {
        let e = Seq::<char>::empty();
        assert(s.push(c).skip(1) =~= e);
        assert(s.push(c)[0] == c);
        assert(chars_le(e) == Seq::<u8>::empty());
        assert(chars_le(s.push(c)) == char_le(c) + chars_le(e));
        assert(chars_le(s) == Seq::<u8>::empty());
        assert(chars_le(s.push(c)) =~= chars_le(s) + char_le(c));
    } else {
        assert(s.push(c).skip(1) =~= s.skip(1).push(c));
        assert(s.push(c)[0] == s[0]);
        lemma_chars_le_snoc(s.skip(1), c);
        assert(chars_le(s.push(c)) == char_le(s[0]) + (chars_le(s.skip(1)) + char_le(c)));
        assert(chars_le(s.push(c)) =~= chars_le(s) + char_le(c));
    }
}

/// A string fits on the wire when its character count fits the count field.
pub open spec fn str_wf(s: Seq<char>) -> bool {
    s.len() <= u64::MAX
}

/// The wire encoding of a string: character count, then the characters.
pub open spec fn str_le(s: Seq<char>) -> Seq<u8> {
    u64_le(s.len() as u64) + chars_le(s)
}

/// The one-byte encoding of a flag.
pub open spec fn bool_le(v: bool) -> Seq<u8> {
    seq![if v { 1u8 } else { 0u8 }]
}

/// Parse a `u64` at position `i`.
pub open spec fn parse_u64(b: Seq<u8>, i: int) -> Option<(u64, int)> {
    if 0 <= i && i + 8 <= b.len() {
        Some(
            (
                u64_from_le(b[i], b[i + 1], b[i + 2], b[i + 3], b[i + 4], b[i + 5], b[i + 6], b[i + 7]),
                i + 8,
            ),
        )
    } else {
        None
    }
}

/// Parse a `u32` at position `i`.
pub open spec fn parse_u32(b: Seq<u8>, i: int) -> Option<(u32, int)> {
    if 0 <= i && i + 4 <= b.len() {
        Some((u32_from_le(b[i], b[i + 1], b[i + 2], b[i + 3]), i + 4))
    } else {
        None
    }
}

/// Parse one character at position `i`: four bytes that must form a valid
/// Unicode scalar value.
pub open spec fn parse_char(b: Seq<u8>, i: int) -> Option<(char, int)> {
    match parse_u32(b, i) {
        Some((x, j)) => if valid_scalar(x) {
            Some((char_of(x), j))
        } else {
            None
        },
        None => None,
    }
}

/// Parse exactly `n` characters starting at position `i`.
pub open spec fn parse_chars(b: Seq<u8>, i: int, n: nat) -> Option<(Seq<char>, int)>
    decreases n,
{
    if n == 0 {
        Some((Seq::<char>::empty(), i))
    } else {
        match parse_char(b, i) {
            Some((c, j)) => match parse_chars(b, j, (n - 1) as nat) {
                Some((s, e)) => Some((seq![c] + s, e)),
                None => None,
            },
            None => None,
        }
    }
}

/// Parse a string at position `i`: a count, then that many characters.
pub open spec fn parse_str(b: Seq<u8>, i: int) -> Option<(Seq<char>, int)> {
    match parse_u64(b, i) {
        Some((n, j)) => parse_chars(b, j, n as nat),
        None => None,
    }
}

/// Parse a flag at position `i`: one byte that must be `0` or `1`.
pub open spec fn parse_bool(b: Seq<u8>, i: int) -> Option<(bool, int)> {
    if 0 <= i && i + 1 <= b.len() {
        if b[i] == 0 {
            Some((false, i + 1))
        } else if b[i] == 1 {
            Some((true, i + 1))
        } else {
            None
        }
    } else {
        None
    }
}

/// Where the encoding of `x` sits at position `i`, parsing yields `x`.
pub proof fn lemma_parse_u64_at(b: Seq<u8>, i: int, x: u64)
    requires
        0 <= i,
        i + 8 <= b.len(),
        b.subrange(i, i + 8) == u64_le(x),
    ensures
        parse_u64(b, i) == Some((x, i + 8)),
{
    assert forall|k: int| 0 <= k < 8 implies b[i + k] == #[trigger] u64_le(x)[k] by {
        assert(b.subrange(i, i + 8)[k] == b[i + k]);
    }
    lemma_u64_le_round_trip(x);
}

/// Where the encoding of `x` sits at position `i`, parsing yields `x`.
pub proof fn lemma_parse_u32_at(b: Seq<u8>, i: int, x: u32)
    requires
        0 <= i,
        i + 4 <= b.len(),
        b.subrange(i, i + 4) == u32_le(x),
    ensures
        parse_u32(b, i) == Some((x, i + 4)),
{
    assert forall|k: int| 0 <= k < 4 implies b[i + k] == #[trigger] u32_le(x)[k] by {
        assert(b.subrange(i, i + 4)[k] == b[i + k]);
    }
    lemma_u32_le_round_trip(x);
}

/// Where the encoding of `c` sits at position `i`, parsing yields `c`.
pub proof fn lemma_parse_char_at(b: Seq<u8>, i: int, c: char)
    requires
        0 <= i,
        i + 4 <= b.len(),
        b.subrange(i, i + 4) == char_le(c),
    ensures
        parse_char(b, i) == Some((c, i + 4)),
{
    lemma_parse_u32_at(b, i, c as u32);
    lemma_char_of_scalar(c);
}

/// Where the encodings of the characters of `s` sit at position `i`,
/// parsing `s.len()` characters yields `s`.
pub proof fn lemma_parse_chars_at(b: Seq<u8>, i: int, s: Seq<char>)
    requires
        0 <= i,
        i + 4 * s.len() <= b.len(),
        b.subrange(i, i + 4 * s.len()) == chars_le(s),
    ensures
        parse_chars(b, i, s.len()) == Some((s, i + 4 * s.len())),
    decreases s.len(),
{
    if s.len() == 0 {
        assert(s =~= Seq::<char>::empty());
    } else {
        lemma_chars_le_len(s.skip(1));
        assert(b.subrange(i, i + 4) =~= char_le(s[0])) by {
            assert forall|k: int| 0 <= k < 4 implies b[i + k] == #[trigger] char_le(s[0])[k] by {
                assert(b.subrange(i, i + 4 * s.len())[k] == b[i + k]);
            }
        }
        lemma_parse_char_at(b, i, s[0]);
        assert(b.subrange(i + 4, i + 4 + 4 * s.skip(1).len()) =~= chars_le(s.skip(1))) by {
            assert forall|k: int| 0 <= k < 4 * s.skip(1).len() implies b[i + 4 + k] == #[trigger] chars_le(
                s.skip(1),
            )[k] by {
                assert(b.subrange(i, i + 4 * s.len())[4 + k] == b[i + 4 + k]);
            }
        }
        lemma_parse_chars_at(b, i + 4, s.skip(1));
        assert(seq![s[0]] + s.skip(1) =~= s);
    }
}

/// Where the encoding of string `s` sits at position `i`, parsing yields `s`.
pub proof fn lemma_parse_str_at(b: Seq<u8>, i: int, s: Seq<char>)
    requires
        str_wf(s),
        0 <= i,
        i + 8 + 4 * s.len() <= b.len(),
        b.subrange(i, i + 8 + 4 * s.len()) == str_le(s),
    ensures
        parse_str(b, i) == Some((s, i + 8 + 4 * s.len())),
{
    lemma_chars_le_len(s);
    assert(b.subrange(i, i + 8) =~= u64_le(s.len() as u64)) by {
        assert forall|k: int| 0 <= k < 8 implies b[i + k] == #[trigger] u64_le(s.len() as u64)[k] by {
            assert(b.subrange(i, i + 8 + 4 * s.len())[k] == b[i + k]);
        }
    }
    lemma_parse_u64_at(b, i, s.len() as u64);
    assert(b.subrange(i + 8, i + 8 + 4 * s.len()) =~= chars_le(s)) by {
        assert forall|k: int| 0 <= k < 4 * s.len() implies b[i + 8 + k] == #[trigger] chars_le(s)[k] by {
            assert(b.subrange(i, i + 8 + 4 * s.len())[8 + k] == b[i + 8 + k]);
        }
    }
    lemma_parse_chars_at(b, i + 8, s);
}

/// Where the encoding of flag `v` sits at position `i`, parsing yields `v`.
pub proof fn lemma_parse_bool_at(b: Seq<u8>, i: int, v: bool)
    requires
        0 <= i,
        i + 1 <= b.len(),
        b.subrange(i, i + 1) == bool_le(v),
    ensures
        parse_bool(b, i) == Some((v, i + 1)),
{
    assert(b.subrange(i, i + 1)[0] == b[i]);
}

/// Relies on `String::push` of alloc: it appends exactly the one character.
#[verifier::external_body]
fn push_char(s: &mut String, c: char)
    ensures
        final(s)@ == old(s)@.push(c),
{
    s.push(c);
}

/// Append the wire encoding of `s` to `out`.
pub fn encode_str(out: &mut Vec<u8>, s: &str)
    ensures
        final(out)@ == old(out)@ + str_le(s@),
{
    let l = s.unicode_len();
    encode_u64(out, l as u64);
    let mut idx: usize = 0;
    while idx < l
        invariant
            l == s@.len(),
            idx <= l,
            out@ == old(out)@ + u64_le(l as u64) + chars_le(s@.take(idx as int)),
        decreases l - idx,
    {
        let c = s.get_char(idx);
        encode_u32(out, c as u32);
        proof {
            lemma_chars_le_snoc(s@.take(idx as int), c);
            assert(s@.take(idx + 1) =~= s@.take(idx as int).push(c));
            assert(old(out)@ + u64_le(l as u64) + chars_le(s@.take(idx as int)) + char_le(c)
                =~= old(out)@ + u64_le(l as u64) + chars_le(s@.take(idx + 1)));
        }
        idx = idx + 1;
    }
    proof {
        assert(s@.take(l as int) =~= s@);
        assert(old(out)@ + u64_le(l as u64) + chars_le(s@) =~= old(out)@ + str_le(s@));
    }
}

/// Append the wire encoding of flag `v` to `out`.
pub fn encode_bool(out: &mut Vec<u8>, v: bool)
    ensures
        final(out)@ == old(out)@ + bool_le(v),
{
    out.push(if v { 1u8 } else { 0u8 });
    proof {
        assert(old(out)@.push(if v { 1u8 } else { 0u8 }) =~= old(out)@ + bool_le(v));
    }
}

/// Read `n` characters from `b` starting at position `i`.
fn decode_chars(b: &Vec<u8>, i: usize, n: u64) -> (r: Option<(String, usize)>)
    requires
        i <= b@.len(),
    ensures
        match r {
            Some(p) => parse_chars(b@, i as int, n as nat) == Some((p.0@, p.1 as int)) && i <= p.1
                <= b@.len(),
            None => parse_chars(b@, i as int, n as nat) is None,
        },
{
    let mut acc = String::new();
    let mut cur = i;
    let mut k: u64 = 0;
    while k < n
        invariant
            i <= cur <= b@.len(),
            k <= n,
            parse_chars(b@, i as int, n as nat) == match parse_chars(
                b@,
                cur as int,
                (n - k) as nat,
            ) {
                Some((s2, e)) => Some((acc@ + s2, e)),
                None => None,
            },
        decreases n - k,
    {
        if b.len() - cur < 4 {
            return None;
        }
        let x = decode_u32(b, cur);
        match char::from_u32(x) {
            Some(c) => {
                proof {
                    lemma_char_of_scalar(c);
                    assert(char_of(x) == c);
                    assert(parse_char(b@, cur as int) == Some((c, cur + 4)));
                    if let Some((s2, e)) = parse_chars(b@, cur + 4, (n - k - 1) as nat) {
                        assert(acc@.push(c) + s2 =~= acc@ + (seq![c] + s2));
                    }
                }
                push_char(&mut acc, c);
                cur = cur + 4;
                k = k + 1;
            },
            None => {
                proof {
                    assert(!valid_scalar(x));
                    assert(parse_chars(b@, cur as int, (n - k) as nat) is None);
                }
                return None;
            },
        }
    }
    assert(parse_chars(b@, cur as int, 0) == Some((Seq::<char>::empty(), cur as int)));
    assert(acc@ + Seq::<char>::empty() =~= acc@);
    Some((acc, cur))
}

/// Read a string (count, then characters) from `b` starting at position `i`.
fn decode_str(b: &Vec<u8>, i: usize) -> (r: Option<(String, usize)>)
    requires
        i <= b@.len(),
    ensures
        match r {
            Some(p) => parse_str(b@, i as int) == Some((p.0@, p.1 as int)) && i <= p.1 <= b@.len(),
            None => parse_str(b@, i as int) is None,
        },
{
    if b.len() - i < 8 {
        return None;
    }
    let n = decode_u64(b, i);
    decode_chars(b, i + 8, n)
}

/// Splitting a parsed concatenation: where `p + q` sits at position `i`,
/// `p` sits at `i` and `q` right after it.
pub proof fn lemma_subrange_concat(b: Seq<u8>, i: int, p: Seq<u8>, q: Seq<u8>)
    requires
        0 <= i,
        i + p.len() + q.len() <= b.len(),
        b.subrange(i, i + p.len() + q.len()) == p + q,
    ensures
        b.subrange(i, i + p.len()) == p,
        b.subrange(i + p.len(), i + p.len() + q.len()) == q,
{
    assert(b.subrange(i, i + p.len()) =~= p) by {
        assert forall|k: int| 0 <= k < p.len() implies b[i + k] == #[trigger] p[k] by {
            assert(b.subrange(i, i + p.len() + q.len())[k] == b[i + k]);
            assert((p + q)[k] == p[k]);
        }
    }
    assert(b.subrange(i + p.len(), i + p.len() + q.len()) =~= q) by {
        assert forall|k: int| 0 <= k < q.len() implies b[i + p.len() + k] == #[trigger] q[k] by {
            assert(b.subrange(i, i + p.len() + q.len())[p.len() + k] == b[i + p.len() + k]);
            assert((p + q)[p.len() + k] == q[k]);
        }
    }
}

/// The wire encoding of one room summary.
pub open spec fn summary_le(r: RoomSummaryView) -> Seq<u8> {
    u64_le(r.room_id) + str_le(r.room_name) + u64_le(r.player_count)
}

/// The concatenated encodings of a sequence of room summaries.
pub open spec fn summaries_le(rs: Seq<RoomSummaryView>) -> Seq<u8>
    decreases rs.len(),
{
    if rs.len() == 0 {
        Seq::<u8>::empty()
    } else {
        summary_le(rs[0]) + summaries_le(rs.skip(1))
    }
}

/// Appending a summary appends its encoding.
pub proof fn lemma_summaries_le_snoc(rs: Seq<RoomSummaryView>, r: RoomSummaryView)
    ensures
        summaries_le(rs.push(r)) == summaries_le(rs) + summary_le(r),
    decreases rs.len(),
{
    if rs.len() == 0 {
        let e = Seq::<RoomSummaryView>::empty();
        assert(rs.push(r).skip(1) =~= e);
        assert(rs.push(r)[0] == r);
        assert(summaries_le(e) == Seq::<u8>::empty());
        assert(summaries_le(rs.push(r)) == summary_le(r) + summaries_le(e));
        assert(summaries_le(rs) == Seq::<u8>::empty());
        assert(summaries_le(rs.push(r)) =~= summaries_le(rs) + summary_le(r));
    } else {
        assert(rs.push(r).skip(1) =~= rs.skip(1).push(r));
        assert(rs.push(r)[0] == rs[0]);
        lemma_summaries_le_snoc(rs.skip(1), r);
        assert(summaries_le(rs.push(r)) == summary_le(rs[0]) + (summaries_le(rs.skip(1))
            + summary_le(r)));
        assert(summaries_le(rs.push(r)) =~= summaries_le(rs) + summary_le(r));
    }
}

/// A summary fits on the wire when its name does.
pub open spec fn summary_wf(r: RoomSummaryView) -> bool {
    str_wf(r.room_name)
}

/// A list message fits on the wire: the entry count fits the count field
/// and every entry fits.
pub open spec fn list_msg_wf(v: ListRoomsMsgView) -> bool {
    &&& v.rooms.len() <= u64::MAX
    &&& forall|k: int| 0 <= k < v.rooms.len() ==> summary_wf(#[trigger] v.rooms[k])
}

/// A create message fits on the wire: each string does.
pub open spec fn create_msg_wf(v: CreateRoomMsgView) -> bool {
    &&& str_wf(v.room_name)
    &&& str_wf(v.room_password)
    &&& str_wf(v.player_name)
}

/// An enter message fits on the wire: each string does.
pub open spec fn enter_msg_wf(v: EnterRoomMsgView) -> bool {
    &&& str_wf(v.room_password)
    &&& str_wf(v.player_name)
}

/// The wire encoding of a list-rooms message.
pub open spec fn list_msg_le(v: ListRoomsMsgView) -> Seq<u8> {
    u64_le(v.nonce) + u64_le(v.rooms.len() as u64) + summaries_le(v.rooms)
}

/// The wire encoding of a create-room message.
pub open spec fn create_msg_le(v: CreateRoomMsgView) -> Seq<u8> {
    u64_le(v.nonce) + str_le(v.room_name) + str_le(v.room_password) + str_le(v.player_name)
        + u64_le(v.room_id)
}

/// The wire encoding of an enter-room message.
pub open spec fn enter_msg_le(v: EnterRoomMsgView) -> Seq<u8> {
    u64_le(v.nonce) + u64_le(v.room_id) + str_le(v.room_password) + str_le(v.player_name)
        + bool_le(v.success)
}

/// Parse one room summary at position `i`.
pub open spec fn parse_summary(b: Seq<u8>, i: int) -> Option<(RoomSummaryView, int)> {
    match parse_u64(b, i) {
        Some((id, i1)) => match parse_str(b, i1) {
            Some((name, i2)) => match parse_u64(b, i2) {
                Some((pc, i3)) => Some(
                    (RoomSummaryView { room_id: id, room_name: name, player_count: pc }, i3),
                ),
                None => None,
            },
            None => None,
        },
        None => None,
    }
}

/// Parse exactly `n` room summaries starting at position `i`.
pub open spec fn parse_summaries(b: Seq<u8>, i: int, n: nat) -> Option<(Seq<RoomSummaryView>, int)>
    decreases n,
{
    if n == 0 {
        Some((Seq::<RoomSummaryView>::empty(), i))
    } else {
        match parse_summary(b, i) {
            Some((r, j)) => match parse_summaries(b, j, (n - 1) as nat) {
                Some((rs, e)) => Some((seq![r] + rs, e)),
                None => None,
            },
            None => None,
        }
    }
}

/// The decoded form of a whole buffer on the list-rooms channel: nonce,
/// entry count, that many summaries, and nothing after them.
pub open spec fn spec_decode_list(b: Seq<u8>) -> Option<ListRoomsMsgView> {
    match parse_u64(b, 0) {
        Some((nonce, i1)) => match parse_u64(b, i1) {
            Some((n, i2)) => match parse_summaries(b, i2, n as nat) {
                Some((rooms, e)) => if e == b.len() {
                    Some(ListRoomsMsgView { nonce, rooms })
                } else {
                    None
                },
                None => None,
            },
            None => None,
        },
        None => None,
    }
}

/// The decoded form of a whole buffer on the create-room channel.
pub open spec fn spec_decode_create(b: Seq<u8>) -> Option<CreateRoomMsgView> {
    match parse_u64(b, 0) {
        Some((nonce, i1)) => match parse_str(b, i1) {
            Some((room_name, i2)) => match parse_str(b, i2) {
                Some((room_password, i3)) => match parse_str(b, i3) {
                    Some((player_name, i4)) => match parse_u64(b, i4) {
                        Some((room_id, e)) => if e == b.len() {
                            Some(
                                CreateRoomMsgView {
                                    nonce,
                                    room_name,
                                    room_password,
                                    player_name,
                                    room_id,
                                },
                            )
                        } else {
                            None
                        },
                        None => None,
                    },
                    None => None,
                },
                None => None,
            },
            None => None,
        },
        None => None,
    }
}

/// The decoded form of a whole buffer on the enter-room channel.
pub open spec fn spec_decode_enter(b: Seq<u8>) -> Option<EnterRoomMsgView> {
    match parse_u64(b, 0) {
        Some((nonce, i1)) => match parse_u64(b, i1) {
            Some((room_id, i2)) => match parse_str(b, i2) {
                Some((room_password, i3)) => match parse_str(b, i3) {
                    Some((player_name, i4)) => match parse_bool(b, i4) {
                        Some((success, e)) => if e == b.len() {
                            Some(
                                EnterRoomMsgView {
                                    nonce,
                                    room_id,
                                    room_password,
                                    player_name,
                                    success,
                                },
                            )
                        } else {
                            None
                        },
                        None => None,
                    },
                    None => None,
                },
                None => None,
            },
            None => None,
        },
        None => None,
    }
}

/// Where the encoding of summary `r` sits at position `i`, parsing yields `r`.
pub proof fn lemma_parse_summary_at(b: Seq<u8>, i: int, r: RoomSummaryView)
    requires
        summary_wf(r),
        0 <= i,
        i + summary_le(r).len() <= b.len(),
        b.subrange(i, i + summary_le(r).len()) == summary_le(r),
    ensures
        parse_summary(b, i) == Some((r, i + summary_le(r).len())),
        summary_le(r).len() == 16 + 8 + 4 * r.room_name.len(),
{
    lemma_chars_le_len(r.room_name);
    let p1 = u64_le(r.room_id) + str_le(r.room_name);
    let p2 = u64_le(r.player_count);
    lemma_subrange_concat(b, i, p1, p2);
    lemma_subrange_concat(b, i, u64_le(r.room_id), str_le(r.room_name));
    lemma_parse_u64_at(b, i, r.room_id);
    lemma_parse_str_at(b, i + 8, r.room_name);
    lemma_parse_u64_at(b, i + 8 + 8 + 4 * r.room_name.len(), r.player_count);
}

/// Where the encodings of the summaries `rs` sit at position `i`, parsing
/// `rs.len()` summaries yields `rs`.
pub proof fn lemma_parse_summaries_at(b: Seq<u8>, i: int, rs: Seq<RoomSummaryView>)
    requires
        forall|k: int| 0 <= k < rs.len() ==> summary_wf(#[trigger] rs[k]),
        0 <= i,
        i + summaries_le(rs).len() <= b.len(),
        b.subrange(i, i + summaries_le(rs).len()) == summaries_le(rs),
    ensures
        parse_summaries(b, i, rs.len()) == Some((rs, i + summaries_le(rs).len())),
    decreases rs.len(),
{
    if rs.len() == 0 {
        assert(rs =~= Seq::<RoomSummaryView>::empty());
    } else {
        let p = summary_le(rs[0]);
        let q = summaries_le(rs.skip(1));
        lemma_subrange_concat(b, i, p, q);
        lemma_parse_summary_at(b, i, rs[0]);
        lemma_parse_summaries_at(b, i + p.len(), rs.skip(1));
        assert(seq![rs[0]] + rs.skip(1) =~= rs);
    }
}

/// Decoding the encoding of a well-formed list message yields the message.
pub proof fn lemma_list_msg_round_trip(v: ListRoomsMsgView)
    requires
        list_msg_wf(v),
    ensures
        spec_decode_list(list_msg_le(v)) == Some(v),
{
    let b = list_msg_le(v);
    let p1 = u64_le(v.nonce) + u64_le(v.rooms.len() as u64);
    let q1 = summaries_le(v.rooms);
    assert(b.subrange(0, b.len() as int) =~= b);
    lemma_subrange_concat(b, 0, p1, q1);
    lemma_subrange_concat(b, 0, u64_le(v.nonce), u64_le(v.rooms.len() as u64));
    lemma_parse_u64_at(b, 0, v.nonce);
    lemma_parse_u64_at(b, 8, v.rooms.len() as u64);
    lemma_parse_summaries_at(b, 16, v.rooms);
    assert((v.rooms.len() as u64) as nat == v.rooms.len());
    assert(spec_decode_list(b) == Some(ListRoomsMsgView { nonce: v.nonce, rooms: v.rooms }));
    assert(ListRoomsMsgView { nonce: v.nonce, rooms: v.rooms } == v);
}

/// Decoding the encoding of a well-formed create message yields the message.
#[verifier::rlimit(100)]
pub proof fn lemma_create_msg_round_trip(v: CreateRoomMsgView)
    requires
        create_msg_wf(v),
    ensures
        spec_decode_create(create_msg_le(v)) == Some(v),
{
    let b = create_msg_le(v);
    lemma_chars_le_len(v.room_name);
    lemma_chars_le_len(v.room_password);
    lemma_chars_le_len(v.player_name);
    let e1 = u64_le(v.nonce);
    let e2 = str_le(v.room_name);
    let e3 = str_le(v.room_password);
    let e4 = str_le(v.player_name);
    let e5 = u64_le(v.room_id);
    assert(b.subrange(0, b.len() as int) =~= b);
    lemma_subrange_concat(b, 0, e1 + e2 + e3 + e4, e5);
    lemma_subrange_concat(b, 0, e1 + e2 + e3, e4);
    lemma_subrange_concat(b, 0, e1 + e2, e3);
    lemma_subrange_concat(b, 0, e1, e2);
    lemma_parse_u64_at(b, 0, v.nonce);
    lemma_parse_str_at(b, 8, v.room_name);
    lemma_parse_str_at(b, (e1 + e2).len() as int, v.room_password);
    lemma_parse_str_at(b, (e1 + e2 + e3).len() as int, v.player_name);
    lemma_parse_u64_at(b, (e1 + e2 + e3 + e4).len() as int, v.room_id);
    assert(spec_decode_create(b) == Some(
        CreateRoomMsgView {
            nonce: v.nonce,
            room_name: v.room_name,
            room_password: v.room_password,
            player_name: v.player_name,
            room_id: v.room_id,
        },
    ));
    assert(CreateRoomMsgView {
        nonce: v.nonce,
        room_name: v.room_name,
        room_password: v.room_password,
        player_name: v.player_name,
        room_id: v.room_id,
    } == v);
}

/// Decoding the encoding of a well-formed enter message yields the message.
#[verifier::rlimit(100)]
pub proof fn lemma_enter_msg_round_trip(v: EnterRoomMsgView)
    requires
        enter_msg_wf(v),
    ensures
        spec_decode_enter(enter_msg_le(v)) == Some(v),
{
    let b = enter_msg_le(v);
    lemma_chars_le_len(v.room_password);
    lemma_chars_le_len(v.player_name);
    let e1 = u64_le(v.nonce);
    let e2 = u64_le(v.room_id);
    let e3 = str_le(v.room_password);
    let e4 = str_le(v.player_name);
    let e5 = bool_le(v.success);
    assert(b.subrange(0, b.len() as int) =~= b);
    lemma_subrange_concat(b, 0, e1 + e2 + e3 + e4, e5);
    lemma_subrange_concat(b, 0, e1 + e2 + e3, e4);
    lemma_subrange_concat(b, 0, e1 + e2, e3);
    lemma_subrange_concat(b, 0, e1, e2);
    lemma_parse_u64_at(b, 0, v.nonce);
    lemma_parse_u64_at(b, 8, v.room_id);
    lemma_parse_str_at(b, 16, v.room_password);
    lemma_parse_str_at(b, (e1 + e2 + e3).len() as int, v.player_name);
    lemma_parse_bool_at(b, (e1 + e2 + e3 + e4).len() as int, v.success);
    assert(spec_decode_enter(b) == Some(
        EnterRoomMsgView {
            nonce: v.nonce,
            room_id: v.room_id,
            room_password: v.room_password,
            player_name: v.player_name,
            success: v.success,
        },
    ));
    assert(EnterRoomMsgView {
        nonce: v.nonce,
        room_id: v.room_id,
        room_password: v.room_password,
        player_name: v.player_name,
        success: v.success,
    } == v);
}

/// Append the wire encoding of summary `r` to `out`.
pub fn encode_summary(out: &mut Vec<u8>, r: &RoomSummary)
    ensures
        final(out)@ == old(out)@ + summary_le(r@),
{
    encode_u64(out, r.room_id);
    encode_str(out, r.room_name.as_str());
    encode_u64(out, r.player_count);
    proof {
        assert(old(out)@ + u64_le(r.room_id) + str_le(r.room_name@) + u64_le(r.player_count)
            =~= old(out)@ + summary_le(r@));
    }
}

/// Encode a list-rooms message for the wire.
pub fn encode_list_msg(m: &ListRoomsMessage) -> (r: Vec<u8>)
    ensures
        r@ == list_msg_le(m@),
{
    let mut out: Vec<u8> = Vec::new();
    encode_u64(&mut out, m.nonce);
    let count = m.rooms.len();
    encode_u64(&mut out, count as u64);
    let mut idx: usize = 0;
    while idx < count
        invariant
            count == m.rooms@.len(),
            idx <= count,
            out@ == u64_le(m.nonce) + u64_le(count as u64) + summaries_le(
                m@.rooms.take(idx as int),
            ),
        decreases count - idx,
    {
        encode_summary(&mut out, &m.rooms[idx]);
        proof {
            lemma_summaries_le_snoc(m@.rooms.take(idx as int), m@.rooms[idx as int]);
            assert(m@.rooms.take(idx + 1) =~= m@.rooms.take(idx as int).push(m@.rooms[idx as int]));
            assert(u64_le(m.nonce) + u64_le(count as u64) + summaries_le(m@.rooms.take(idx as int))
                + summary_le(m@.rooms[idx as int]) =~= u64_le(m.nonce) + u64_le(count as u64)
                + summaries_le(m@.rooms.take(idx + 1)));
        }
        idx = idx + 1;
    }
    proof {
        assert(m@.rooms.take(count as int) =~= m@.rooms);
    }
    out
}

/// Encode a create-room message for the wire.
pub fn encode_create_msg(m: &CreateRoomMessage) -> (r: Vec<u8>)
    ensures
        r@ == create_msg_le(m@),
{
    let mut out: Vec<u8> = Vec::new();
    encode_u64(&mut out, m.nonce);
    encode_str(&mut out, m.room_name.as_str());
    encode_str(&mut out, m.room_password.as_str());
    encode_str(&mut out, m.player_name.as_str());
    encode_u64(&mut out, m.room_id);
    assert(out@ =~= create_msg_le(m@));
    out
}

/// Encode an enter-room message for the wire.
pub fn encode_enter_msg(m: &EnterRoomMessage) -> (r: Vec<u8>)
    ensures
        r@ == enter_msg_le(m@),
{
    let mut out: Vec<u8> = Vec::new();
    encode_u64(&mut out, m.nonce);
    encode_u64(&mut out, m.room_id);
    encode_str(&mut out, m.room_password.as_str());
    encode_str(&mut out, m.player_name.as_str());
    encode_bool(&mut out, m.success);
    assert(out@ =~= enter_msg_le(m@));
    out
}

/// Read one room summary from `b` starting at position `i`.
fn decode_summary(b: &Vec<u8>, i: usize) -> (r: Option<(RoomSummary, usize)>)
    requires
        i <= b@.len(),
    ensures
        match r {
            Some(p) => parse_summary(b@, i as int) == Some((p.0@, p.1 as int)) && i <= p.1
                <= b@.len(),
            None => parse_summary(b@, i as int) is None,
        },
{
    if b.len() - i < 8 {
        return None;
    }
    let room_id = decode_u64(b, i);
    match decode_str(b, i + 8) {
        Some((room_name, j)) => {
            if b.len() - j < 8 {
                return None;
            }
            let player_count = decode_u64(b, j);
            Some((RoomSummary { room_id, room_name, player_count }, j + 8))
        },
        None => None,
    }
}

/// Read `n` room summaries from `b` starting at position `i`.
fn decode_summaries(b: &Vec<u8>, i: usize, n: u64) -> (r: Option<(Vec<RoomSummary>, usize)>)
    requires
        i <= b@.len(),
    ensures
        match r {
            Some(p) => parse_summaries(b@, i as int, n as nat) == Some((p.0.deep_view(), p.1 as int))
                && i <= p.1 <= b@.len(),
            None => parse_summaries(b@, i as int, n as nat) is None,
        },
{
    let mut acc: Vec<RoomSummary> = Vec::new();
    let mut cur = i;
    let mut k: u64 = 0;
    while k < n
        invariant
            i <= cur <= b@.len(),
            k <= n,
            parse_summaries(b@, i as int, n as nat) == match parse_summaries(
                b@,
                cur as int,
                (n - k) as nat,
            ) {
                Some((rs2, e)) => Some((acc.deep_view() + rs2, e)),
                None => None,
            },
        decreases n - k,
    {
        match decode_summary(b, cur) {
            Some((s, j)) => {
                proof {
                    if let Some((rs2, e)) = parse_summaries(b@, j as int, (n - k - 1) as nat) {
                        assert(acc.deep_view().push(s@) + rs2 =~= acc.deep_view() + (seq![s@]
                            + rs2));
                    }
                }
                let ghost old_acc = acc.deep_view();
                acc.push(s);
                proof {
                    assert(acc.deep_view() =~= old_acc.push(s@));
                }
                cur = j;
                k = k + 1;
            },
            None => {
                return None;
            },
        }
    }
    assert(acc.deep_view() + Seq::<RoomSummaryView>::empty() =~= acc.deep_view());
    Some((acc, cur))
}

/// Decode a whole buffer from the list-rooms channel.
///
/// The result is pinned to the specification decoder: a malformed buffer
/// yields `None` and is dropped by the callers.
pub fn decode_list_msg(b: &Vec<u8>) -> (r: Option<ListRoomsMessage>)
    ensures
        match r {
            Some(m) => spec_decode_list(b@) == Some(m@),
            None => spec_decode_list(b@) is None,
        },
{
    if b.len() < 16 {
        return None;
    }
    let nonce = decode_u64(b, 0);
    let n = decode_u64(b, 8);
    match decode_summaries(b, 16, n) {
        Some((rooms, e)) => {
            if e == b.len() {
                Some(ListRoomsMessage { nonce, rooms })
            } else {
                None
            }
        },
        None => None,
    }
}

/// Decode a whole buffer from the create-room channel.
pub fn decode_create_msg(b: &Vec<u8>) -> (r: Option<CreateRoomMessage>)
    ensures
        match r {
            Some(m) => spec_decode_create(b@) == Some(m@),
            None => spec_decode_create(b@) is None,
        },
{
    if b.len() < 8 {
        return None;
    }
    let nonce = decode_u64(b, 0);
    let (room_name, i2) = match decode_str(b, 8) {
        Some(p) => p,
        None => {
            return None;
        },
    };
    let (room_password, i3) = match decode_str(b, i2) {
        Some(p) => p,
        None => {
            return None;
        },
    };
    let (player_name, i4) = match decode_str(b, i3) {
        Some(p) => p,
        None => {
            return None;
        },
    };
    if b.len() - i4 < 8 {
        return None;
    }
    let room_id = decode_u64(b, i4);
    if i4 + 8 == b.len() {
        Some(CreateRoomMessage { nonce, room_name, room_password, player_name, room_id })
    } else {
        None
    }
}

/// Decode a whole buffer from the enter-room channel.
pub fn decode_enter_msg(b: &Vec<u8>) -> (r: Option<EnterRoomMessage>)
    ensures
        match r {
            Some(m) => spec_decode_enter(b@) == Some(m@),
            None => spec_decode_enter(b@) is None,
        },
{
    if b.len() < 16 {
        return None;
    }
    let nonce = decode_u64(b, 0);
    let room_id = decode_u64(b, 8);
    let (room_password, i3) = match decode_str(b, 16) {
        Some(p) => p,
        None => {
            return None;
        },
    };
    let (player_name, i4) = match decode_str(b, i3) {
        Some(p) => p,
        None => {
            return None;
        },
    };
    if b.len() - i4 < 1 {
        return None;
    }
    let flag = b[i4];
    if flag > 1 {
        return None;
    }
    let success = flag == 1;
    if i4 + 1 == b.len() {
        Some(EnterRoomMessage { nonce, room_id, room_password, player_name, success })
    } else {
        None
    }
}

} // verus!
