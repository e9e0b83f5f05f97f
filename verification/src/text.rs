//! Byte-sequence utilities shared by the engine: equality, decimal
//! formatting and parsing, and UTF-8 character-boundary lemmas.
//!
//! The engine works on raw input bytes.  Every span it slices or reports is
//! kept on a character boundary, and the lemmas here let those facts be
//! carried through scans that otherwise advance byte by byte.

use vstd::prelude::*;
use vstd::utf8::*;

verus! {

/// Compares two byte vectors for equality.
pub fn bytes_eq(a: &Vec<u8>, b: &Vec<u8>) -> (r: bool)
    ensures
        r <==> a@ == b@,
{
    if a.len() != b.len() {
        assert(a@ != b@);
        return false;
    }
    let n = a.len();
    let mut i: usize = 0;
    while i < n
        invariant
            n == a@.len() == b@.len(),
            i <= n,
            forall|j: int| 0 <= j < i ==> a@[j] == b@[j],
        decreases n - i,
    {
        if a[i] != b[i] {
            return false;
        }
        i += 1;
    }
    assert(a@ =~= b@);
    true
}

/// An ASCII decimal digit.
pub open spec fn is_digit(b: u8) -> bool {
    48 <= b <= 57
}

/// Every byte of the sequence is an ASCII decimal digit.
pub open spec fn all_digits(s: Seq<u8>) -> bool {
    forall|i: int| 0 <= i < s.len() ==> is_digit(#[trigger] s[i])
}

/// The numeric value of a digit sequence read as a decimal numeral,
/// most significant digit first.
pub open spec fn dec_value(s: Seq<u8>) -> nat
    decreases s.len(),
{
    if s.len() == 0 {
        0
    } else {
        dec_value(s.drop_last()) * 10 + (s.last() - 48) as nat
    }
}

/// The canonical decimal numeral of `n`: no leading zeroes except for the
/// single digit `0` itself.
pub open spec fn dec_bytes(n: nat) -> Seq<u8>
    decreases n,
{
    if n < 10 {
        seq![(48 + n) as u8]
    } else {
        dec_bytes(n / 10).push((48 + n % 10) as u8)
    }
}

pub proof fn lemma_dec_bytes_digits(n: nat)
    ensures
        dec_bytes(n).len() >= 1,
        all_digits(dec_bytes(n)),
    decreases n,
{
    if n >= 10 {
        lemma_dec_bytes_digits(n / 10);
    }
}

/// A decimal numeral names the number it was built from.
pub proof fn lemma_dec_bytes_value(n: nat)
    ensures
        dec_value(dec_bytes(n)) == n,
    decreases n,
{
    if n < 10 {
        assert(dec_bytes(n).drop_last() =~= Seq::<u8>::empty());
        assert(dec_value(Seq::<u8>::empty()) == 0);
    } else {
        lemma_dec_bytes_value(n / 10);
        assert(dec_bytes(n).drop_last() =~= dec_bytes(n / 10));
        assert(n / 10 * 10 + n % 10 == n) by (nonlinear_arith);
    }
}

/// Renders `n` as its decimal numeral.
pub fn u64_to_dec(n: u64) -> (r: Vec<u8>)
    ensures
        r@ == dec_bytes(n as nat),
    decreases n,
{
    if n < 10 {
        let mut v: Vec<u8> = Vec::new();
        v.push(48 + (n as u8));
        assert(v@ =~= dec_bytes(n as nat));
        v
    } else {
        let mut v = u64_to_dec(n / 10);
        v.push(48 + ((n % 10) as u8));
        assert(v@ =~= dec_bytes(n as nat));
        v
    }
}

proof fn lemma_dec_value_step(s: Seq<u8>, i: int)
    requires
        0 <= i < s.len(),
    ensures
        dec_value(s.take(i + 1)) == dec_value(s.take(i)) * 10 + (s[i] - 48) as nat,
{
    assert(s.take(i + 1).drop_last() =~= s.take(i));
    assert(s.take(i + 1).last() == s[i]);
}

proof fn lemma_dec_value_mono(s: Seq<u8>, i: int)
    requires
        0 <= i <= s.len(),
    ensures
        dec_value(s.take(i)) <= dec_value(s),
    decreases s.len() - i,
{
    if i == s.len() {
        assert(s.take(i) =~= s);
    } else {
        lemma_dec_value_step(s, i);
        lemma_dec_value_mono(s, i + 1);
    }
}

/// Parses a decimal numeral.  Succeeds exactly on nonempty all-digit input
/// whose value fits in a `u64`.
pub fn parse_u64(s: &Vec<u8>) -> (r: Option<u64>)
    ensures
        r is Some <==> s@.len() > 0 && all_digits(s@) && dec_value(s@) <= u64::MAX,
        r is Some ==> r->0 as nat == dec_value(s@),
{
    if s.len() == 0 {
        return None;
    }
    let n = s.len();
    let mut acc: u64 = 0;
    let mut i: usize = 0;
    while i < n
        invariant
            n == s@.len(),
            0 <= i <= n,
            all_digits(s@.take(i as int)),
            acc as nat == dec_value(s@.take(i as int)),
        decreases n - i,
    {
        let b = s[i];
        if b < 48 || b > 57 {
            assert(!is_digit(s@[i as int]));
            return None;
        }
        let d: u64 = (b - 48) as u64;
        if acc > (u64::MAX - d) / 10 {
            proof {
                lemma_dec_value_step(s@, i as int);
                assert(acc * 10 + d > u64::MAX) by (nonlinear_arith)
                    requires
                        acc > (u64::MAX - d) / 10,
                        d <= 9,
                ;
                lemma_dec_value_mono(s@, i as int + 1);
            }
            return None;
        }
        proof {
            assert(acc * 10 + d <= u64::MAX) by (nonlinear_arith)
                requires
                    acc <= (u64::MAX - d) / 10,
                    d <= 9,
            ;
            lemma_dec_value_step(s@, i as int);
        }
        acc = acc * 10 + d;
        i += 1;
        assert(all_digits(s@.take(i as int)));
    }
    assert(s@.take(n as int) =~= s@);
    Some(acc)
}

/// An all-ASCII byte sequence is valid UTF-8.
pub proof fn lemma_ascii_valid(s: Seq<u8>)
    requires
        forall|i: int| 0 <= i < s.len() ==> #[trigger] s[i] < 128,
    ensures
        valid_utf8(s),
{
    partial_valid_utf8_extend_ascii_block(s, 0, s.len() as int);
    assert(s.subrange(0, s.len() as int) =~= s);
}

/// A character boundary moved past one ASCII byte stays a boundary.
pub proof fn lemma_ascii_step(bytes: Seq<u8>, i: int)
    requires
        valid_utf8(bytes),
        is_char_boundary(bytes, i),
        0 <= i < bytes.len(),
        bytes[i] < 128,
    ensures
        is_char_boundary(bytes, i + 1),
{
    valid_utf8_split(bytes, i);
    let sub = bytes.subrange(i, bytes.len() as int);
    assert(valid_utf8(sub));
    assert(sub[0] == bytes[i]);
    assert(is_leading_byte_width_1(sub[0]));
    assert(length_of_first_scalar(sub) == 1);
    assert(is_char_boundary(sub, 1)) by {
        reveal_with_fuel(is_char_boundary, 3);
        assert(is_char_boundary(pop_first_scalar(sub), 0));
    }
    if i + 1 == bytes.len() {
        is_char_boundary_start_end_of_seq(bytes);
    } else {
        assert(sub.len() >= 2);
        is_char_boundary_iff_not_is_continuation_byte(sub, 1);
        assert(!is_continuation_byte(sub[1]));
        assert(sub[1] == bytes[i + 1]);
        is_char_boundary_iff_not_is_continuation_byte(bytes, i + 1);
    }
}

/// A boundary of the whole sequence is a boundary of the suffix that starts
/// at an earlier boundary.
pub proof fn lemma_boundary_shift(bytes: Seq<u8>, a: int, b: int)
    requires
        valid_utf8(bytes),
        is_char_boundary(bytes, a),
        is_char_boundary(bytes, b),
        0 <= a <= b <= bytes.len(),
    ensures
        is_char_boundary(bytes.subrange(a, bytes.len() as int), b - a),
{
    valid_utf8_split(bytes, a);
    let sub = bytes.subrange(a, bytes.len() as int);
    if b == a {
    } else if b == bytes.len() {
        is_char_boundary_start_end_of_seq(sub);
    } else {
        is_char_boundary_iff_not_is_continuation_byte(bytes, b);
        assert(sub[b - a] == bytes[b]);
        is_char_boundary_iff_not_is_continuation_byte(sub, b - a);
    }
}

/// Slicing a valid sequence between two character boundaries yields a valid
/// sequence.
pub proof fn lemma_subrange_valid(bytes: Seq<u8>, a: int, b: int)
    requires
        valid_utf8(bytes),
        is_char_boundary(bytes, a),
        is_char_boundary(bytes, b),
        0 <= a <= b <= bytes.len(),
    ensures
        valid_utf8(bytes.subrange(a, b)),
{
    valid_utf8_split(bytes, a);
    let sub = bytes.subrange(a, bytes.len() as int);
    lemma_boundary_shift(bytes, a, b);
    valid_utf8_split(sub, b - a);
    assert(sub.subrange(0, b - a) =~= bytes.subrange(a, b));
}

/// A position holding an ASCII byte of a valid sequence is a boundary.
pub proof fn lemma_ascii_at_boundary(bytes: Seq<u8>, i: int)
    requires
        valid_utf8(bytes),
        0 <= i < bytes.len(),
        bytes[i] < 128,
    ensures
        is_char_boundary(bytes, i),
{
    assert(!is_continuation_byte(bytes[i]));
    is_char_boundary_iff_not_is_continuation_byte(bytes, i);
}

/// A position holding a non-continuation byte of a valid sequence is a
/// boundary; a position holding a continuation byte is not.
pub proof fn lemma_boundary_by_byte(bytes: Seq<u8>, i: int)
    requires
        valid_utf8(bytes),
        0 <= i < bytes.len(),
    ensures
        is_char_boundary(bytes, i) <==> !(128 <= bytes[i] < 192),
{
    is_char_boundary_iff_not_is_continuation_byte(bytes, i);
}

/// True when position `i` sits on a continuation byte, i.e. inside the
/// encoding of a multi-byte character.
pub fn mid_char(input: &Vec<u8>, i: usize) -> (r: bool)
    requires
        i <= input@.len(),
    ensures
        r <==> (i < input@.len() && 128 <= input@[i as int] < 192),
{
    if i < input.len() {
        let b = input[i];
        128 <= b && b < 192
    } else {
        false
    }
}

/// A nonempty all-digit numeral whose value fits in a `u64`.
pub open spec fn parseable(s: Seq<u8>) -> bool {
    s.len() > 0 && all_digits(s) && dec_value(s) <= u64::MAX
}

/// Copies the byte range `[a, b)` of `input` out into a fresh vector.
pub fn copy_range(input: &Vec<u8>, a: usize, b: usize) -> (r: Vec<u8>)
    requires
        a <= b <= input@.len(),
    ensures
        r@ == input@.subrange(a as int, b as int),
{
    let mut out: Vec<u8> = Vec::new();
    let mut k: usize = a;
    while k < b
        invariant
            a <= k <= b <= input@.len(),
            out@ == input@.subrange(a as int, k as int),
        decreases b - k,
    {
        out.push(input[k]);
        proof {
            assert(input@.subrange(a as int, k + 1) =~= input@.subrange(a as int, k as int).push(
                input@[k as int],
            ));
        }
        k += 1;
    }
    out
}

/// Appends the byte range `[a, b)` of `input` to `out`.
pub fn append_range(out: &mut Vec<u8>, input: &Vec<u8>, a: usize, b: usize)
    requires
        a <= b <= input@.len(),
    ensures
        final(out)@ == old(out)@ + input@.subrange(a as int, b as int),
{
    let mut k: usize = a;
    while k < b
        invariant
            a <= k <= b <= input@.len(),
            out@ == old(out)@ + input@.subrange(a as int, k as int),
        decreases b - k,
    {
        out.push(input[k]);
        proof {
            assert(input@.subrange(a as int, k + 1) =~= input@.subrange(a as int, k as int).push(
                input@[k as int],
            ));
            assert(old(out)@ + input@.subrange(a as int, k + 1) =~= (old(out)@ + input@.subrange(
                a as int,
                k as int,
            )).push(input@[k as int]));
        }
        k += 1;
    }
    proof {
        if a == b {
            assert(out@ =~= old(out)@ + input@.subrange(a as int, b as int));
        }
    }
}

/// Appends all of `add` to `out`.
pub fn append_bytes(out: &mut Vec<u8>, add: &Vec<u8>)
    ensures
        final(out)@ == old(out)@ + add@,
{
    append_range(out, add, 0, add.len());
    proof {
        assert(add@.subrange(0, add@.len() as int) =~= add@);
    }
}

/// Compares the byte range `[a, b)` of `input` with a literal.
pub fn range_eq_lit(input: &Vec<u8>, a: usize, b: usize, lit: &[u8]) -> (r: bool)
    requires
        a <= b <= input@.len(),
    ensures
        r <==> input@.subrange(a as int, b as int) == lit@,
{
    if b - a != lit.len() {
        assert(input@.subrange(a as int, b as int).len() != lit@.len());
        return false;
    }
    let n = lit.len();
    let mut k: usize = 0;
    while k < n
        invariant
            n == lit@.len(),
            a + n == b <= input@.len(),
            k <= n,
            forall|j: int| 0 <= j < k ==> input@[a + j] == lit@[j],
        decreases n - k,
    {
        if input[a + k] != lit[k] {
            assert(input@.subrange(a as int, b as int)[k as int] != lit@[k as int]);
            return false;
        }
        k += 1;
    }
    assert(input@.subrange(a as int, b as int) =~= lit@);
    true
}

} // verus!
