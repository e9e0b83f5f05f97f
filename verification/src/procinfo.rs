//! Process telemetry text: turning an `elapsed time` field of the form
//! `[[dd-]hh:]mm:ss` into a readable `xd xh xm xs` rendering.
//!
//! The raw field splits on `:` and `-`; every piece reads as a decimal
//! number, anything unreadable counting as zero; two, three or four pieces
//! render as minutes/seconds, hours/minutes/seconds or
//! days/hours/minutes/seconds.  Any other shape is refused.

use vstd::prelude::*;
use vstd::string::StringSliceAdditionalSpecFns;

use crate::subtags::{lemma_views_index, views};
use crate::text::{all_digits, copy_range, dec_bytes, dec_value, parse_u64, parseable as parseable_u64,
    u64_to_dec};

verus! {

/// A field separator of the elapsed-time format.
pub open spec fn is_sep(b: u8) -> bool {
    b == 58 || b == 45
}

/// The first separator position at or after `i`; the length when there is
/// none.
pub open spec fn first_sep_from(s: Seq<u8>, i: int) -> int
    decreases s.len() - i,
{
    if i >= s.len() {
        s.len() as int
    } else if i >= 0 && is_sep(s[i]) {
        i
    } else {
        first_sep_from(s, i + 1)
    }
}

/// The fields of the raw text, split on separators.
pub open spec fn split_fields(s: Seq<u8>) -> Seq<Seq<u8>>
    decreases s.len(),
{
    let p = first_sep_from(s, 0);
    if p == s.len() {
        seq![s]
    } else if 0 <= p < s.len() {
        seq![s.subrange(0, p)] + split_fields(s.subrange(p + 1, s.len() as int))
    } else {
        seq![s]
    }
}

/// What a field counts for: its decimal value, or zero when it does not read
/// as a number.
pub open spec fn field_value(f: Seq<u8>) -> nat {
    if f.len() > 0 && all_digits(f) && dec_value(f) <= u64::MAX {
        dec_value(f)
    } else {
        0
    }
}

/// The readable rendering of the elapsed-time fields, when there are two,
/// three or four of them.
pub open spec fn elapsed_bytes(s: Seq<u8>) -> Option<Seq<u8>> {
    let vs = split_fields(s).map_values(|f: Seq<u8>| field_value(f));
    if vs.len() == 2 {
        Some(
            dec_bytes(vs[0]) + "m ".spec_bytes() + dec_bytes(vs[1]) + "s".spec_bytes(),
        )
    } else if vs.len() == 3 {
        Some(
            dec_bytes(vs[0]) + "h ".spec_bytes() + dec_bytes(vs[1]) + "m ".spec_bytes()
                + dec_bytes(vs[2]) + "s".spec_bytes(),
        )
    } else if vs.len() == 4 {
        Some(
            dec_bytes(vs[0]) + "d ".spec_bytes() + dec_bytes(vs[1]) + "h ".spec_bytes()
                + dec_bytes(vs[2]) + "m ".spec_bytes() + dec_bytes(vs[3]) + "s".spec_bytes(),
        )
    } else {
        None
    }
}

proof fn lemma_first_sep(s: Seq<u8>, i: int, j: int)
    requires
        0 <= i <= j <= s.len(),
        forall|q: int| i <= q < j ==> !is_sep(#[trigger] s[q]),
        j == s.len() || is_sep(s[j as int]),
    ensures
        first_sep_from(s, i) == j,
    decreases j - i,
{
    if i == j {
    } else {
        lemma_first_sep(s, i + 1, j);
    }
}

/// Splits the suffix of `s` that starts at `from` into its fields.
#[verifier::loop_isolation(false)]
fn split_exec(s: &Vec<u8>, from: usize) -> (r: Vec<Vec<u8>>)
    requires
        from <= s@.len(),
    ensures
        views(r@) == split_fields(s@.subrange(from as int, s@.len() as int)),
    decreases s@.len() - from,
{
    let ghost sub = s@.subrange(from as int, s@.len() as int);
    let n = s.len();
    let mut p: usize = from;
    while p < n && s[p] != 58 && s[p] != 45
        invariant
            from <= p <= n,
            forall|q: int| from <= q < p ==> !is_sep(#[trigger] s@[q]),
        decreases n - p,
    {
        p += 1;
    }
    proof {
        assert forall|q: int| 0 <= q < p - from implies !is_sep(#[trigger] sub[q]) by {
            assert(sub[q] == s@[from + q]);
        }
        if p < n {
            assert(is_sep(sub[p - from]));
        }
        lemma_first_sep(sub, 0, p - from);
    }
    if p == n {
        let mut r: Vec<Vec<u8>> = Vec::new();
        r.push(copy_range(s, from, n));
        proof {
            assert(views(r@) =~~= split_fields(sub));
        }
        r
    } else {
        let head = copy_range(s, from, p);
        let ghost head_v = head@;
        let mut rest = split_exec(s, p + 1);
        let ghost rest_v = rest@;
        let mut r: Vec<Vec<u8>> = Vec::new();
        r.push(head);
        r.append(&mut rest);
        proof {
            assert(sub.subrange(0, p - from) =~= s@.subrange(from as int, p as int));
            assert(sub.subrange(p - from + 1, sub.len() as int) =~= s@.subrange(
                p + 1,
                s@.len() as int,
            ));
            let target = split_fields(sub);
            assert(target == seq![sub.subrange(0, p - from)] + views(rest_v));
            assert(r@.len() == 1 + rest_v.len());
            assert forall|j: int| 0 <= j < r@.len() implies views(r@)[j] == target[j] by {
                lemma_views_index(r@, j);
                if j == 0 {
                    assert(r@[0]@ == head_v);
                } else {
                    assert(r@[j] == rest_v[j - 1]);
                    lemma_views_index(rest_v, j - 1);
                }
            }
            assert(views(r@) =~= target);
        }
        r
    }
}

/// Renders an elapsed-time field readably: `[[dd-]hh:]mm:ss` becomes
/// `xm xs`, `xh xm xs` or `xd xh xm xs`; any other shape yields nothing.
#[verifier::loop_isolation(false)]
pub fn format_elapsed(raw: &Vec<u8>) -> (r: Option<Vec<u8>>)
    ensures
        r is Some <==> elapsed_bytes(raw@) is Some,
        r is Some ==> r->0@ == elapsed_bytes(raw@)->0,
{
    let parts = split_exec(raw, 0);
    proof {
        assert(raw@.subrange(0, raw@.len() as int) =~= raw@);
    }
    let ghost vs = split_fields(raw@).map_values(|f: Seq<u8>| field_value(f));
    let n = parts.len();
    if n < 2 || n > 4 {
        return None;
    }
    let mut vals: Vec<u64> = Vec::new();
    let mut k: usize = 0;
    while k < n
        invariant
            k <= n == parts@.len(),
            vals@.len() == k,
            forall|j: int| 0 <= j < k ==> (#[trigger] vals@[j]) as nat == vs[j],
        decreases n - k,
    {
        let v: u64 = match parse_u64(&parts[k]) {
            Some(v) => v,
            None => 0,
        };
        vals.push(v);
        proof {
            assert(vs[k as int] == field_value(views(parts@)[k as int]));
            assert(views(parts@)[k as int] == parts@[k as int]@);
        }
        k += 1;
    }
    let mut out: Vec<u8> = Vec::new();
    if n == 2 {
        let d0 = u64_to_dec(vals[0]);
        out.extend_from_slice(d0.as_slice());
        out.extend_from_slice("m ".as_bytes());
        let d1 = u64_to_dec(vals[1]);
        out.extend_from_slice(d1.as_slice());
        out.extend_from_slice("s".as_bytes());
        proof {
            assert(out@ =~= elapsed_bytes(raw@)->0);
        }
    } else if n == 3 {
        let d0 = u64_to_dec(vals[0]);
        out.extend_from_slice(d0.as_slice());
        out.extend_from_slice("h ".as_bytes());
        let d1 = u64_to_dec(vals[1]);
        out.extend_from_slice(d1.as_slice());
        out.extend_from_slice("m ".as_bytes());
        let d2 = u64_to_dec(vals[2]);
        out.extend_from_slice(d2.as_slice());
        out.extend_from_slice("s".as_bytes());
        proof {
            assert(out@ =~= elapsed_bytes(raw@)->0);
        }
    } else {
        let d0 = u64_to_dec(vals[0]);
        out.extend_from_slice(d0.as_slice());
        out.extend_from_slice("d ".as_bytes());
        let d1 = u64_to_dec(vals[1]);
        out.extend_from_slice(d1.as_slice());
        out.extend_from_slice("h ".as_bytes());
        let d2 = u64_to_dec(vals[2]);
        out.extend_from_slice(d2.as_slice());
        out.extend_from_slice("m ".as_bytes());
        let d3 = u64_to_dec(vals[3]);
        out.extend_from_slice(d3.as_slice());
        out.extend_from_slice("s".as_bytes());
        proof {
            assert(out@ =~= elapsed_bytes(raw@)->0);
        }
    }
    Some(out)
}

/// ASCII whitespace, as /proc files use it.
pub open spec fn is_space(b: u8) -> bool {
    b == 32 || b == 9 || b == 10 || b == 13
}

/// The first non-whitespace position at or after `i`; the length when there
/// is none.
pub open spec fn skip_spaces(s: Seq<u8>, i: int) -> int
    decreases s.len() - i,
{
    if i >= s.len() {
        s.len() as int
    } else if i >= 0 && !is_space(s[i]) {
        i
    } else {
        skip_spaces(s, i + 1)
    }
}

/// The first whitespace position at or after `i`; the length when there is
/// none.
pub open spec fn end_of_field(s: Seq<u8>, i: int) -> int
    decreases s.len() - i,
{
    if i >= s.len() {
        s.len() as int
    } else if i >= 0 && is_space(s[i]) {
        i
    } else {
        end_of_field(s, i + 1)
    }
}

/// The memory use a statm record reports, in bytes: its second
/// whitespace-separated field read as a page count, times the page size.
/// Nothing when the field is missing, is not a numeral, or overflows.
pub open spec fn statm_bytes(s: Seq<u8>) -> Option<u64> {
    let a0 = skip_spaces(s, 0);
    let e0 = end_of_field(s, a0);
    let a1 = skip_spaces(s, e0);
    let e1 = end_of_field(s, a1);
    if a1 >= s.len() {
        None
    } else {
        let field = s.subrange(a1, e1);
        if parseable_u64(field) && dec_value(field) * 4096 <= u64::MAX {
            Some((dec_value(field) * 4096) as u64)
        } else {
            None
        }
    }
}

proof fn lemma_skip_spaces(s: Seq<u8>, i: int, j: int)
    requires
        0 <= i <= j <= s.len(),
        forall|q: int| i <= q < j ==> is_space(#[trigger] s[q]),
        j == s.len() || !is_space(s[j as int]),
    ensures
        skip_spaces(s, i) == j,
    decreases j - i,
{
    if i != j {
        lemma_skip_spaces(s, i + 1, j);
    }
}

proof fn lemma_end_of_field(s: Seq<u8>, i: int, j: int)
    requires
        0 <= i <= j <= s.len(),
        forall|q: int| i <= q < j ==> !is_space(#[trigger] s[q]),
        j == s.len() || is_space(s[j as int]),
    ensures
        end_of_field(s, i) == j,
    decreases j - i,
{
    if i != j {
        lemma_end_of_field(s, i + 1, j);
    }
}

/// Scans to the first non-whitespace position at or after `from`.
fn scan_spaces(s: &Vec<u8>, from: usize) -> (r: usize)
    requires
        from <= s@.len(),
    ensures
        r as int == skip_spaces(s@, from as int),
        from <= r <= s@.len(),
{
    let n = s.len();
    let mut p: usize = from;
    while p < n && (s[p] == 32 || s[p] == 9 || s[p] == 10 || s[p] == 13)
        invariant
            n == s@.len(),
            from <= p <= n,
            forall|q: int| from <= q < p ==> is_space(#[trigger] s@[q]),
        decreases n - p,
    {
        p += 1;
    }
    proof {
        lemma_skip_spaces(s@, from as int, p as int);
    }
    p
}

/// Scans to the first whitespace position at or after `from`.
fn scan_field(s: &Vec<u8>, from: usize) -> (r: usize)
    requires
        from <= s@.len(),
    ensures
        r as int == end_of_field(s@, from as int),
        from <= r <= s@.len(),
{
    let n = s.len();
    let mut p: usize = from;
    while p < n && s[p] != 32 && s[p] != 9 && s[p] != 10 && s[p] != 13
        invariant
            n == s@.len(),
            from <= p <= n,
            forall|q: int| from <= q < p ==> !is_space(#[trigger] s@[q]),
        decreases n - p,
    {
        p += 1;
    }
    proof {
        lemma_end_of_field(s@, from as int, p as int);
    }
    p
}

/// Reads the memory use a raw statm record reports, in bytes.
pub fn parse_statm(contents: &Vec<u8>) -> (r: Option<u64>)
    ensures
        r == statm_bytes(contents@),
{
    let a0 = scan_spaces(contents, 0);
    let e0 = scan_field(contents, a0);
    let a1 = scan_spaces(contents, e0);
    let e1 = scan_field(contents, a1);
    if a1 >= contents.len() {
        return None;
    }
    let field = copy_range(contents, a1, e1);
    match parse_u64(&field) {
        None => None,
        Some(pages) => {
            if pages > u64::MAX / 4096 {
                proof {
                    assert(dec_value(contents@.subrange(a1 as int, e1 as int)) * 4096
                        > u64::MAX) by (nonlinear_arith)
                        requires
                            dec_value(contents@.subrange(a1 as int, e1 as int)) == pages,
                            pages > u64::MAX / 4096,
                    ;
                }
                None
            } else {
                proof {
                    assert(pages * 4096 <= u64::MAX) by (nonlinear_arith)
                        requires
                            pages <= u64::MAX / 4096,
                    ;
                }
                Some(pages * 4096)
            }
        },
    }
}

} // verus!

