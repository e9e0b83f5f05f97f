//! Error taxonomy and the human-readable error formatter.
//!
//! Every failure of the engine is a [`Error`]: a kind plus a byte span into
//! the input that the failing parse saw.  A [`ErrorKind::Nested`] wraps a
//! lower-level error from an inner invocation or a parent-reuse parse,
//! preserving the causal chain together with its own span.
//!
//! [`format_error`] renders a location-anchored message.  It tolerates any
//! span whatsoever — out of range, or landing in the middle of a multi-byte
//! character — by clamping and snapping to character boundaries.

use vstd::prelude::*;
use vstd::string::StrSliceExecFns;
use vstd::string::StringSliceAdditionalSpecFns;
use vstd::utf8::*;

use crate::text::{dec_bytes, lemma_ascii_valid, lemma_boundary_by_byte, lemma_subrange_valid,
    mid_char, u64_to_dec};

verus! {

/// A byte range into the raw input of the parse that produced an error.
#[derive(Clone, Copy, Debug)]
pub struct Span {
    pub start: usize,
    pub end: usize,
}

/// The fixed failure kinds of the engine.
#[derive(Debug)]
pub enum ErrorKind {
    /// The scan reached the end of input before the matching close brace.
    MissingClosingBrace,
    /// The invocation's name is absent from the subtag table.
    UnknownSubtag { name: Vec<u8> },
    /// A subtag rejected the shape of one of its arguments.
    ArgParseError { message: Vec<u8> },
    /// The shared iteration budget was exhausted.
    IterLimit { limit: u64 },
    /// The defensive nesting-depth cap was exceeded.
    DepthLimit { limit: u64 },
    /// The capability context reported an environment failure.
    Capability { message: Vec<u8> },
    /// A lower-level error from an inner invocation, kept whole.
    Nested { inner: Box<Error> },
}

/// A structured evaluation failure: what went wrong and where.
#[derive(Debug)]
pub struct Error {
    pub kind: ErrorKind,
    pub span: Span,
}

/// Result type used throughout the engine.
pub type TResult<T> = Result<T, Error>;

/// The classes an error can fall in, nesting disregarded: what ultimately
/// went wrong.
#[derive(Clone, Copy, Debug, PartialEq, Eq, Structural)]
pub enum ErrorClass {
    /// The scan reached end of input before a matching close brace.
    Unterminated,
    /// An invocation named no registered subtag.
    UnknownName,
    /// A subtag rejected an argument's shape.
    BadArgument,
    /// The iteration budget ran out.
    Budget,
    /// The nesting-depth cap was exceeded.
    Depth,
    /// The capability context failed.
    Environment,
}

/// The class of an error: the kind of the innermost error in its chain.
pub open spec fn error_class(kind: ErrorKind) -> ErrorClass
    decreases kind,
{
    match kind {
        ErrorKind::MissingClosingBrace => ErrorClass::Unterminated,
        ErrorKind::UnknownSubtag { name } => ErrorClass::UnknownName,
        ErrorKind::ArgParseError { message } => ErrorClass::BadArgument,
        ErrorKind::IterLimit { limit } => ErrorClass::Budget,
        ErrorKind::DepthLimit { limit } => ErrorClass::Depth,
        ErrorKind::Capability { message } => ErrorClass::Environment,
        ErrorKind::Nested { inner } => error_class(inner.kind),
    }
}

/// The message text of an error kind; a nested error reports its chain from
/// the outside in.
pub open spec fn message_bytes(kind: ErrorKind) -> Seq<u8>
    decreases kind,
{
    match kind {
        ErrorKind::MissingClosingBrace => "missing a closing brace".spec_bytes(),
        ErrorKind::UnknownSubtag { name } => "unknown subtag: ".spec_bytes() + name@,
        ErrorKind::ArgParseError { message } => "failed to parse an argument: ".spec_bytes()
            + message@,
        ErrorKind::IterLimit { limit } => "iteration limit of ".spec_bytes() + dec_bytes(
            limit as nat,
        ) + " exceeded".spec_bytes(),
        ErrorKind::DepthLimit { limit } => "nesting depth limit of ".spec_bytes() + dec_bytes(
            limit as nat,
        ) + " exceeded".spec_bytes(),
        ErrorKind::Capability { message } => "capability error: ".spec_bytes() + message@,
        ErrorKind::Nested { inner } => "nested: ".spec_bytes() + message_bytes(inner.kind),
    }
}

/// Renders the message text of an error kind.
pub fn render_message(kind: &ErrorKind) -> (r: Vec<u8>)
    ensures
        r@ == message_bytes(*kind),
    decreases *kind,
{
    let mut out: Vec<u8> = Vec::new();
    match kind {
        ErrorKind::MissingClosingBrace => {
            out.extend_from_slice("missing a closing brace".as_bytes());
        },
        ErrorKind::UnknownSubtag { name } => {
            out.extend_from_slice("unknown subtag: ".as_bytes());
            out.extend_from_slice(name.as_slice());
        },
        ErrorKind::ArgParseError { message } => {
            out.extend_from_slice("failed to parse an argument: ".as_bytes());
            out.extend_from_slice(message.as_slice());
        },
        ErrorKind::IterLimit { limit } => {
            out.extend_from_slice("iteration limit of ".as_bytes());
            let d = u64_to_dec(*limit);
            out.extend_from_slice(d.as_slice());
            out.extend_from_slice(" exceeded".as_bytes());
        },
        ErrorKind::DepthLimit { limit } => {
            out.extend_from_slice("nesting depth limit of ".as_bytes());
            let d = u64_to_dec(*limit);
            out.extend_from_slice(d.as_slice());
            out.extend_from_slice(" exceeded".as_bytes());
        },
        ErrorKind::Capability { message } => {
            out.extend_from_slice("capability error: ".as_bytes());
            out.extend_from_slice(message.as_slice());
        },
        ErrorKind::Nested { inner } => {
            out.extend_from_slice("nested: ".as_bytes());
            let rest = render_message(&inner.kind);
            out.extend_from_slice(rest.as_slice());
        },
    }
    assert(out@ =~= message_bytes(*kind));
    out
}

/// The largest character boundary at or before `i` (with `i` clamped to the
/// sequence length).
pub open spec fn floor_boundary_spec(bytes: Seq<u8>, i: int) -> int
    decreases i,
{
    if i <= 0 {
        0
    } else if i > bytes.len() {
        floor_boundary_spec(bytes, bytes.len() as int)
    } else if is_char_boundary(bytes, i) {
        i
    } else {
        floor_boundary_spec(bytes, i - 1)
    }
}

/// What `floor_boundary_spec` yields is a boundary, lies at or before the
/// clamped position, and no later boundary fits below that position.
pub proof fn lemma_floor_props(bytes: Seq<u8>, i: int)
    requires
        valid_utf8(bytes),
        0 <= i <= bytes.len(),
    ensures
        0 <= floor_boundary_spec(bytes, i) <= i,
        is_char_boundary(bytes, floor_boundary_spec(bytes, i)),
        forall|j: int|
            floor_boundary_spec(bytes, i) < j <= i ==> !is_char_boundary(bytes, j),
    decreases i,
{
    if i <= 0 {
    } else if is_char_boundary(bytes, i) {
    } else {
        lemma_floor_props(bytes, i - 1);
    }
}

/// Snaps `i` down to a character boundary of `input`.
pub fn floor_char_boundary(input: &Vec<u8>, i: usize) -> (r: usize)
    requires
        valid_utf8(input@),
    ensures
        r as int == floor_boundary_spec(input@, i as int),
        r <= i,
        r <= input@.len(),
        is_char_boundary(input@, r as int),
{
    let n = input.len();
    let mut cur: usize = if i < n {
        i
    } else {
        n
    };
    proof {
        if i > n {
            assert(floor_boundary_spec(input@, i as int) == floor_boundary_spec(
                input@,
                n as int,
            ));
        }
        is_char_boundary_start_end_of_seq(input@);
    }
    while cur > 0 && mid_char(input, cur)
        invariant
            valid_utf8(input@),
            n == input@.len(),
            cur <= n,
            cur <= i,
            floor_boundary_spec(input@, cur as int) == floor_boundary_spec(input@, i as int),
        decreases cur,
    {
        proof {
            lemma_boundary_by_byte(input@, cur as int);
            assert(!is_char_boundary(input@, cur as int));
        }
        cur -= 1;
    }
    proof {
        if cur == 0 {
        } else if cur == n {
            is_char_boundary_start_end_of_seq(input@);
        } else {
            lemma_boundary_by_byte(input@, cur as int);
        }
        assert(is_char_boundary(input@, cur as int));
        if cur > 0 {
            assert(floor_boundary_spec(input@, cur as int) == cur as int);
        }
    }
    cur
}

/// How many bytes of context are shown on each side of an error location.
pub const EXCERPT_RADIUS: usize = 20;

/// The formatted report: the message, the input excerpt around the error
/// location, and a caret line pointing at the snapped location.
pub open spec fn format_error_bytes(input: Seq<u8>, err: Error) -> Seq<u8> {
    let len = input.len() as int;
    let s0 = if err.span.start as int <= len {
        err.span.start as int
    } else {
        len
    };
    let s = floor_boundary_spec(input, s0);
    let w_lo = floor_boundary_spec(input, if s >= EXCERPT_RADIUS as int {
        s - EXCERPT_RADIUS as int
    } else {
        0
    });
    let w_hi = floor_boundary_spec(input, if s + EXCERPT_RADIUS as int <= len {
        s + EXCERPT_RADIUS as int
    } else {
        len
    });
    "error: ".spec_bytes() + message_bytes(err.kind) + "\n".spec_bytes() + input.subrange(
        w_lo,
        w_hi,
    ) + "\n".spec_bytes() + Seq::new((s - w_lo) as nat, |k: int| 32u8) + "^".spec_bytes()
}

/// Renders a human-readable report for an error raised while evaluating
/// `input`.  Total for every `(input, error)` pair: the reported span is
/// clamped to the input and snapped down to character boundaries before any
/// slicing, so no location — not even one inside a multi-byte character —
/// can make it fail.
pub fn format_error(input: &str, err: Error) -> (r: Vec<u8>)
    ensures
        r@ == format_error_bytes(input.spec_bytes(), err),
        valid_utf8(message_bytes(err.kind)) ==> valid_utf8(r@),
{
    let bytes: Vec<u8> = input.as_bytes_vec();
    proof {
        encode_utf8_valid_utf8(input@);
    }
    let len = bytes.len();
    let s0 = if err.span.start <= len {
        err.span.start
    } else {
        len
    };
    let s = floor_char_boundary(&bytes, s0);
    let w_lo = floor_char_boundary(&bytes, if s >= EXCERPT_RADIUS {
        s - EXCERPT_RADIUS
    } else {
        0
    });
    let w_hi = floor_char_boundary(&bytes, if len - s >= EXCERPT_RADIUS {
        s + EXCERPT_RADIUS
    } else {
        len
    });
    proof {
        lemma_floor_props(bytes@, s0 as int);
        lemma_floor_props(
            bytes@,
            if s as int + EXCERPT_RADIUS as int <= len as int {
                s as int + EXCERPT_RADIUS as int
            } else {
                len as int
            },
        );
        // `s` is itself a boundary at or below the upper window edge, so the
        // snapped upper edge cannot fall below `s`.
        assert(w_lo <= w_hi) by {
            if w_hi < s {
                assert(!is_char_boundary(bytes@, s as int));
            }
        }
    }
    let mut out: Vec<u8> = Vec::new();
    out.extend_from_slice("error: ".as_bytes());
    let msg = render_message(&err.kind);
    out.extend_from_slice(msg.as_slice());
    out.extend_from_slice("\n".as_bytes());
    let mut k: usize = w_lo;
    while k < w_hi
        invariant
            w_lo <= k <= w_hi <= bytes@.len(),
            out@ == "error: ".spec_bytes() + message_bytes(err.kind) + "\n".spec_bytes()
                + bytes@.subrange(w_lo as int, k as int),
        decreases w_hi - k,
    {
        out.push(bytes[k]);
        proof {
            assert(bytes@.subrange(w_lo as int, k + 1) =~= bytes@.subrange(
                w_lo as int,
                k as int,
            ).push(bytes@[k as int]));
        }
        k += 1;
    }
    out.extend_from_slice("\n".as_bytes());
    let mut p: usize = 0;
    let pad = s - w_lo;
    while p < pad
        invariant
            p <= pad,
            out@ == "error: ".spec_bytes() + message_bytes(err.kind) + "\n".spec_bytes()
                + bytes@.subrange(w_lo as int, w_hi as int) + "\n".spec_bytes() + Seq::new(
                p as nat,
                |q: int| 32u8,
            ),
        decreases pad - p,
    {
        out.push(32u8);
        proof {
            assert(Seq::new((p + 1) as nat, |q: int| 32u8) =~= Seq::new(p as nat, |q: int| 32u8)
                .push(32u8));
        }
        p += 1;
    }
    out.extend_from_slice("^".as_bytes());
    proof {
        assert(bytes@ == input.spec_bytes());
        assert(out@ =~= format_error_bytes(input.spec_bytes(), err));
        if valid_utf8(message_bytes(err.kind)) {
            lemma_format_valid(bytes@, err, s as int, w_lo as int, w_hi as int);
        }
    }
    out
}

/// When the message part is valid UTF-8 the whole report is: every other
/// piece is either an ASCII literal, an ASCII pad, or an excerpt sliced at
/// character boundaries.
proof fn lemma_format_valid(bytes: Seq<u8>, err: Error, s: int, w_lo: int, w_hi: int)
    requires
        valid_utf8(bytes),
        valid_utf8(message_bytes(err.kind)),
        0 <= w_lo <= w_hi <= bytes.len(),
        is_char_boundary(bytes, w_lo),
        is_char_boundary(bytes, w_hi),
        w_lo <= s,
    ensures
        valid_utf8(
            "error: ".spec_bytes() + message_bytes(err.kind) + "\n".spec_bytes() + bytes.subrange(
                w_lo,
                w_hi,
            ) + "\n".spec_bytes() + Seq::new((s - w_lo) as nat, |k: int| 32u8)
                + "^".spec_bytes(),
        ),
{
    let m1 = "error: ".spec_bytes();
    let m2 = message_bytes(err.kind);
    let m3 = "\n".spec_bytes();
    let m4 = bytes.subrange(w_lo, w_hi);
    let m5 = Seq::new((s - w_lo) as nat, |k: int| 32u8);
    let m6 = "^".spec_bytes();
    encode_utf8_valid_utf8("error: "@);
    encode_utf8_valid_utf8("\n"@);
    encode_utf8_valid_utf8("^"@);
    lemma_subrange_valid(bytes, w_lo, w_hi);
    lemma_ascii_valid(m5);
    valid_utf8_concat(m1, m2);
    valid_utf8_concat(m1 + m2, m3);
    valid_utf8_concat(m1 + m2 + m3, m4);
    valid_utf8_concat(m1 + m2 + m3 + m4, m3);
    valid_utf8_concat(m1 + m2 + m3 + m4 + m3, m5);
    valid_utf8_concat(m1 + m2 + m3 + m4 + m3 + m5, m6);
}

} // verus!
