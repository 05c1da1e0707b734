//! Text utilities shared by every phase: UTF-8 facts about byte offsets,
//! string slicing by byte range, string comparison, and decimal rendering.

use vstd::prelude::*;
use vstd::utf8::*;
use vstd::string::*;

verus! {

broadcast use vstd::utf8::encode_utf8_valid_utf8, vstd::utf8::encode_utf8_decode_utf8;

/// The number of bytes in the UTF-8 encoding of `c`.
pub open spec fn char_width(c: char) -> nat {
    encode_scalar(c as u32).len()
}

/// The UTF-8 byte length of a character sequence.
pub open spec fn byte_len(cs: Seq<char>) -> nat {
    encode_utf8(cs).len()
}

/// The byte offset of the `i`-th character of `cs`.
pub open spec fn byte_offset(cs: Seq<char>, i: int) -> nat {
    byte_len(cs.take(i))
}

/// The characters encoded by the byte range `[lo, hi)` of `bytes`.
pub open spec fn decode_range(bytes: Seq<u8>, lo: int, hi: int) -> Seq<char> {
    decode_utf8(bytes.subrange(lo, hi))
}

/// Encoding distributes over concatenation.
pub proof fn lemma_encode_append(a: Seq<char>, b: Seq<char>)
    ensures
        encode_utf8(a + b) == encode_utf8(a) + encode_utf8(b),
    decreases a.len(),
{
    if a.len() == 0 {
        assert(a + b =~= b);
        assert(encode_utf8(a) + encode_utf8(b) =~= encode_utf8(b));
    } else {
        assert((a + b).drop_first() =~= a.drop_first() + b);
        assert((a + b)[0] == a[0]);
        lemma_encode_append(a.drop_first(), b);
        assert(encode_utf8(a + b) =~= encode_utf8(a) + encode_utf8(b));
    }
}

/// Every character encodes to at least one and at most four bytes.
pub proof fn lemma_char_width_bounds(c: char)
    ensures
        1 <= char_width(c) <= 4,
        (c as u32) < 0x80 ==> char_width(c) == 1,
{
}

/// The byte offset of the character after `i` adds that character's width.
pub proof fn lemma_byte_offset_step(cs: Seq<char>, i: int)
    requires
        0 <= i < cs.len(),
    ensures
        byte_offset(cs, i + 1) == byte_offset(cs, i) + char_width(cs[i]),
{
    assert(cs.take(i + 1) =~= cs.take(i) + seq![cs[i]]);
    lemma_encode_append(cs.take(i), seq![cs[i]]);
    assert(seq![cs[i]].drop_first() =~= Seq::<char>::empty());
    assert(encode_utf8(Seq::<char>::empty()) =~= Seq::<u8>::empty());
}

/// Byte offsets never decrease.
pub proof fn lemma_byte_offset_mono(cs: Seq<char>, i: int, j: int)
    requires
        0 <= i <= j <= cs.len(),
    ensures
        byte_offset(cs, i) <= byte_offset(cs, j),
        i < j ==> byte_offset(cs, i) < byte_offset(cs, j),
    decreases j - i,
{
    if i < j {
        lemma_byte_offset_step(cs, j - 1);
        lemma_char_width_bounds(cs[j - 1]);
        lemma_byte_offset_mono(cs, i, j - 1);
    }
}

/// Byte offsets stay within the encoding.
pub proof fn lemma_byte_offset_le_len(cs: Seq<char>, j: int)
    requires
        0 <= j <= cs.len(),
    ensures
        byte_offset(cs, j) <= byte_len(cs),
        byte_offset(cs, cs.len() as int) == byte_len(cs),
{
    lemma_byte_offset_mono(cs, j, cs.len() as int);
    assert(cs.take(cs.len() as int) =~= cs);
}

/// The encoding of a prefix ends on a character boundary of the whole encoding.
pub proof fn lemma_prefix_boundary(a: Seq<char>, b: Seq<char>)
    ensures
        is_char_boundary(encode_utf8(a + b), encode_utf8(a).len() as int),
    decreases a.len(),
{
    let bytes = encode_utf8(a + b);
    if a.len() == 0 {
    } else {
        encode_utf8_first_scalar(a + b);
        assert((a + b).drop_first() =~= a.drop_first() + b);
        assert((a + b)[0] == a[0]);
        lemma_encode_append(a.drop_first(), b);
        assert(pop_first_scalar(bytes) =~= encode_utf8(a.drop_first() + b));
        lemma_prefix_boundary(a.drop_first(), b);
    }
}

/// Every character offset of `cs` lands on a character boundary of its encoding.
pub proof fn lemma_offset_is_boundary(cs: Seq<char>, i: int)
    requires
        0 <= i <= cs.len(),
    ensures
        is_char_boundary(encode_utf8(cs), byte_offset(cs, i) as int),
{
    assert(cs =~= cs.take(i) + cs.skip(i));
    lemma_prefix_boundary(cs.take(i), cs.skip(i));
}

/// Decoding the bytes between two character offsets gives back those characters.
pub proof fn lemma_decode_offsets(cs: Seq<char>, i: int, j: int)
    requires
        0 <= i <= j <= cs.len(),
    ensures
        decode_range(encode_utf8(cs), byte_offset(cs, i) as int, byte_offset(cs, j) as int)
            == cs.subrange(i, j),
{
    let bytes = encode_utf8(cs);
    assert(cs =~= cs.take(i) + (cs.subrange(i, j) + cs.skip(j)));
    lemma_encode_append(cs.take(i), cs.subrange(i, j) + cs.skip(j));
    lemma_encode_append(cs.subrange(i, j), cs.skip(j));
    assert(cs.take(j) =~= cs.take(i) + cs.subrange(i, j));
    lemma_encode_append(cs.take(i), cs.subrange(i, j));
    assert(bytes.subrange(byte_offset(cs, i) as int, byte_offset(cs, j) as int)
        =~= encode_utf8(cs.subrange(i, j)));
}

/// In valid UTF-8 a byte that is not a continuation byte starts a character.
pub proof fn lemma_ascii_boundary(bytes: Seq<u8>, i: int)
    requires
        valid_utf8(bytes),
        0 <= i <= bytes.len(),
        i == bytes.len() || bytes[i] < 0x80 || bytes[i] >= 0xc0,
    ensures
        is_char_boundary(bytes, i),
{
    if i == bytes.len() {
        is_char_boundary_start_end_of_seq(bytes);
    } else {
        is_char_boundary_iff_not_is_continuation_byte(bytes, i);
    }
}

/// The position just after an ASCII byte that starts a character is a boundary.
pub proof fn lemma_after_ascii_boundary(bytes: Seq<u8>, i: int)
    requires
        valid_utf8(bytes),
        0 <= i < bytes.len(),
        is_char_boundary(bytes, i),
        bytes[i] < 0x80,
    ensures
        is_char_boundary(bytes, i + 1),
    decreases bytes.len(),
{
    reveal_with_fuel(is_char_boundary, 2);
    if i == 0 {
        assert(length_of_first_scalar(bytes) == 1);
        assert(valid_utf8(pop_first_scalar(bytes)));
    } else {
        let l = length_of_first_scalar(bytes);
        let tail = pop_first_scalar(bytes);
        assert(is_char_boundary(tail, i - l));
        assert(tail[i - l] == bytes[i]);
        lemma_after_ascii_boundary(tail, i - l);
    }
}

/// The sub-slice of `s` covering the byte range `[lo, hi)`.
pub fn byte_slice(s: &str, lo: usize, hi: usize) -> (r: &str)
    requires
        lo <= hi <= s.spec_bytes().len(),
        is_char_boundary(s.spec_bytes(), lo as int),
        is_char_boundary(s.spec_bytes(), hi as int),
    ensures
        r.spec_bytes() == s.spec_bytes().subrange(lo as int, hi as int),
        r@ == decode_range(s.spec_bytes(), lo as int, hi as int),
{
    let ghost bytes = s.spec_bytes();
    let (head, _) = s.split_at(hi);
    proof {
        valid_utf8_split(bytes, hi as int);
        // `lo` stays a boundary in the prefix.
        lemma_boundary_in_prefix(bytes, lo as int, hi as int);
    }
    let (_, mid) = head.split_at(lo);
    proof {
        assert(mid.spec_bytes() =~= bytes.subrange(lo as int, hi as int));
        decode_utf8_encode_utf8(mid.spec_bytes());
        assert(mid@ == decode_utf8(encode_utf8(mid@)));
    }
    mid
}

/// A boundary below `hi` is still a boundary of the prefix ending at `hi`.
pub proof fn lemma_boundary_in_prefix(bytes: Seq<u8>, lo: int, hi: int)
    requires
        valid_utf8(bytes),
        0 <= lo <= hi <= bytes.len(),
        is_char_boundary(bytes, lo),
        is_char_boundary(bytes, hi),
    ensures
        valid_utf8(bytes.subrange(0, hi)),
        is_char_boundary(bytes.subrange(0, hi), lo),
    decreases bytes.len(),
{
    valid_utf8_split(bytes, hi);
    let pre = bytes.subrange(0, hi);
    if lo == 0 {
    } else if lo == hi {
        is_char_boundary_start_end_of_seq(pre);
    } else {
        is_char_boundary_iff_not_is_continuation_byte(bytes, lo);
        is_char_boundary_iff_not_is_continuation_byte(pre, lo);
    }
}

/// Whether two strings hold the same characters.
pub fn str_eq(a: &str, b: &str) -> (r: bool)
    ensures
        r == (a@ == b@),
{
    let x = a.as_bytes();
    let y = b.as_bytes();
    proof {
        encode_utf8_decode_utf8(a@);
        encode_utf8_decode_utf8(b@);
    }
    if x.len() != y.len() {
        assert(a@ == b@ ==> x@.len() == y@.len());
        return false;
    }
    let mut i: usize = 0;
    while i < x.len()
        invariant
            x.len() == y.len(),
            x@ == encode_utf8(a@),
            y@ == encode_utf8(b@),
            0 <= i <= x.len(),
            forall|k: int| 0 <= k < i ==> x@[k] == y@[k],
        decreases x.len() - i,
    {
        if x[i] != y[i] {
            assert(a@ == b@ ==> x@[i as int] == y@[i as int]);
            return false;
        }
        i = i + 1;
    }
    assert(x@ =~= y@);
    true
}

/// A new string holding `a` followed by `b`.
pub fn concat(a: &str, b: &str) -> (r: String)
    ensures
        r@ == a@ + b@,
{
    let mut s = String::from_str(a);
    s.append(b);
    s
}

/// A new string holding `a`, `b` and `c` in order.
pub fn concat3(a: &str, b: &str, c: &str) -> (r: String)
    ensures
        r@ == a@ + b@ + c@,
{
    let mut s = String::from_str(a);
    s.append(b);
    s.append(c);
    s
}

/// The decimal digit character for `d`.
pub open spec fn digit_char(d: nat) -> char {
    if d == 0 { '0' }
    else if d == 1 { '1' }
    else if d == 2 { '2' }
    else if d == 3 { '3' }
    else if d == 4 { '4' }
    else if d == 5 { '5' }
    else if d == 6 { '6' }
    else if d == 7 { '7' }
    else if d == 8 { '8' }
    else { '9' }
}

/// The decimal text of a natural number, without leading zeros.
pub open spec fn decimal(n: nat) -> Seq<char>
    decreases n,
{
    if n < 10 {
        seq![digit_char(n)]
    } else {
        decimal(n / 10) + seq![digit_char(n % 10)]
    }
}

/// The decimal text of an integer, with a leading `-` when negative.
pub open spec fn signed_decimal(n: int) -> Seq<char> {
    if n < 0 {
        seq!['-'] + decimal((-n) as nat)
    } else {
        decimal(n as nat)
    }
}

fn digit_str(d: u64) -> (r: &'static str)
    requires
        d < 10,
    ensures
        r@ == seq![digit_char(d as nat)],
{
    if d == 0 {
        proof { reveal_strlit("0"); }
        "0"
    } else if d == 1 {
        proof { reveal_strlit("1"); }
        "1"
    } else if d == 2 {
        proof { reveal_strlit("2"); }
        "2"
    } else if d == 3 {
        proof { reveal_strlit("3"); }
        "3"
    } else if d == 4 {
        proof { reveal_strlit("4"); }
        "4"
    } else if d == 5 {
        proof { reveal_strlit("5"); }
        "5"
    } else if d == 6 {
        proof { reveal_strlit("6"); }
        "6"
    } else if d == 7 {
        proof { reveal_strlit("7"); }
        "7"
    } else if d == 8 {
        proof { reveal_strlit("8"); }
        "8"
    } else {
        proof { reveal_strlit("9"); }
        "9"
    }
}

/// Append the decimal text of `n` to `out`.
pub fn push_u64(out: &mut String, n: u64)
    ensures
        final(out)@ == old(out)@ + decimal(n as nat),
    decreases n,
{
    if n < 10 {
        out.append(digit_str(n));
    } else {
        push_u64(out, n / 10);
        out.append(digit_str(n % 10));
        assert(decimal(n as nat) == decimal((n / 10) as nat) + seq![digit_char((n % 10) as nat)]);
    }
}

/// Append the decimal text of `n` (with a leading `-` if negative) to `out`.
pub fn push_i64(out: &mut String, n: i64)
    ensures
        final(out)@ == old(out)@ + signed_decimal(n as int),
{
    if n < 0 {
        proof { reveal_strlit("-"); }
        out.append("-");
        let m: u64 = if n == i64::MIN {
            9223372036854775808u64
        } else {
            (-n) as u64
        };
        push_u64(out, m);
        assert(seq!['-'] + decimal(m as nat) == signed_decimal(n as int));
        assert(old(out)@ + seq!['-'] + decimal(m as nat) =~= old(out)@ + signed_decimal(n as int));
    } else {
        push_u64(out, n as u64);
    }
}

/// Append the decimal text of a `usize`.
pub fn push_usize(out: &mut String, n: usize)
    ensures
        final(out)@ == old(out)@ + decimal(n as nat),
{
    push_u64(out, n as u64);
}

} // verus!
