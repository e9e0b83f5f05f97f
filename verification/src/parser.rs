//! The recursive-descent parser/evaluator.
//!
//! Raw input is a byte sequence; literal runs are copied through, and every
//! `{name:arg|arg|...}` invocation is scanned, charged against the shared
//! iteration budget, resolved against the subtag table and evaluated
//! depth-first, left-to-right.  A backslash escapes the character after it.
//! All positions the scanner records are character boundaries, so every
//! slice taken from the input is valid UTF-8.

use vstd::prelude::*;
use vstd::utf8::*;

use crate::context::Context;
use crate::errors::{error_class, Error, ErrorClass, ErrorKind, Span, TResult};
use crate::state::{MediaKind, SharedState, ITER_LIMIT};
use crate::subtags::{invoke_eager, invoke_spec, pick_branch, pick_spec, resolve_subtag,
    subtag_of_name, views, Subtag, SubtagOutcome};
use crate::text::{append_bytes, append_range, copy_range, lemma_ascii_at_boundary,
    lemma_ascii_step, lemma_ascii_valid, lemma_subrange_valid, mid_char};

verus! {

/// Defensive ceiling on `{...}` nesting depth, independent of the iteration
/// budget, to bound stack use on deeply nested inputs.
pub const MAX_DEPTH: u64 = 64;

/// No invocation can start and no escape can act inside `[lo, hi)`.
pub open spec fn no_specials(bytes: Seq<u8>, lo: int, hi: int) -> bool {
    forall|j: int| lo <= j < hi ==> #[trigger] bytes[j] != 123 && bytes[j] != 92
}

/// The spans an invocation scan finds: the name, the raw (unevaluated)
/// argument spans, and the position just past the matching close brace.
struct Scan {
    name_lo: usize,
    name_hi: usize,
    args: Vec<(usize, usize)>,
    end: usize,
}

/// A raw argument span sits between the name and the close brace, on
/// character boundaries.
pub open spec fn arg_ok(bytes: Seq<u8>, name_hi: int, end: int, sp: (usize, usize)) -> bool {
    &&& name_hi < sp.0 <= sp.1 <= end - 1
    &&& is_char_boundary(bytes, sp.0 as int)
    &&& is_char_boundary(bytes, sp.1 as int)
}

/// The spans a scan computes, at the specification level.
pub struct ScanSpec {
    pub name_hi: int,
    pub args: Seq<(int, int)>,
    pub end: int,
}

/// Integer views of recorded spans.
pub open spec fn spans_view(v: Seq<(usize, usize)>) -> Seq<(int, int)> {
    v.map_values(|p: (usize, usize)| (p.0 as int, p.1 as int))
}

/// One step of the invocation scan, at the specification level: the cursor
/// walks `[i, hi)` tracking brace depth, the first top-level colon and the
/// current argument start, exactly as the executable scan does.
pub open spec fn scan_from(
    bytes: Seq<u8>,
    hi: int,
    i: int,
    depth: int,
    colon: Option<int>,
    arg_start: int,
    args: Seq<(int, int)>,
) -> Option<ScanSpec>
    decreases hi - i,
{
    if i < 0 || i >= hi || hi > bytes.len() {
        None
    } else {
        let b = bytes[i];
        if b == 92 {
            if i + 1 < hi {
                scan_from(bytes, hi, i + 2, depth, colon, arg_start, args)
            } else {
                None
            }
        } else if b == 123 {
            scan_from(bytes, hi, i + 1, depth + 1, colon, arg_start, args)
        } else if b == 125 {
            if depth == 1 {
                match colon {
                    Option::Some(c) => Some(
                        ScanSpec { name_hi: c, args: args.push((arg_start, i)), end: i + 1 },
                    ),
                    Option::None => Some(ScanSpec { name_hi: i, args, end: i + 1 }),
                }
            } else {
                scan_from(bytes, hi, i + 1, depth - 1, colon, arg_start, args)
            }
        } else if depth == 1 && b == 58 && colon is None {
            scan_from(bytes, hi, i + 1, depth, Some(i), i + 1, args)
        } else if depth == 1 && b == 124 && colon is Some {
            scan_from(bytes, hi, i + 1, depth, colon, i + 1, args.push((arg_start, i)))
        } else {
            scan_from(bytes, hi, i + 1, depth, colon, arg_start, args)
        }
    }
}

/// Indexing recorded spans indexes their integer views.
pub proof fn lemma_spans_index(v: Seq<(usize, usize)>, j: int)
    requires
        0 <= j < v.len(),
    ensures
        spans_view(v)[j] == (v[j].0 as int, v[j].1 as int),
{
}

/// What the scan of the invocation opening at `start` finds.
pub open spec fn scan_spec(bytes: Seq<u8>, start: int, hi: int) -> Option<ScanSpec> {
    scan_from(bytes, hi, start + 1, 1, None, 0, Seq::empty())
}

/// What a successful invocation scan guarantees.
spec fn scan_ok(bytes: Seq<u8>, start: int, hi: int, sc: Scan) -> bool {
    &&& sc.name_lo == start + 1
    &&& sc.name_lo <= sc.name_hi < sc.end <= hi
    &&& is_char_boundary(bytes, sc.name_lo as int)
    &&& is_char_boundary(bytes, sc.name_hi as int)
    &&& is_char_boundary(bytes, sc.end as int)
    &&& bytes[sc.end - 1] == 125
    &&& forall|k: int|
        0 <= k < sc.args@.len() ==> arg_ok(
            bytes,
            sc.name_hi as int,
            sc.end as int,
            #[trigger] sc.args@[k],
        )
}

/// Finds the end of the literal run that starts at `from`: the next position
/// holding `{` or `\`, or `hi`.
fn scan_literal(input: &Vec<u8>, from: usize, hi: usize) -> (j: usize)
    requires
        from < hi <= input@.len(),
        input@[from as int] != 123,
        input@[from as int] != 92,
    ensures
        from < j <= hi,
        forall|p: int| from <= p < j ==> #[trigger] input@[p] != 123 && input@[p] != 92,
        j < hi ==> (input@[j as int] == 123 || input@[j as int] == 92),
{
    let mut j: usize = from + 1;
    while j < hi && input[j] != 123 && input[j] != 92
        invariant
            from < j <= hi <= input@.len(),
            forall|p: int| from <= p < j ==> #[trigger] input@[p] != 123 && input@[p] != 92,
        decreases hi - j,
    {
        j += 1;
    }
    j
}

/// Advances from the boundary `from` to the next character boundary.
fn skip_char(input: &Vec<u8>, from: usize, hi: usize) -> (nb: usize)
    requires
        valid_utf8(input@),
        is_char_boundary(input@, from as int),
        is_char_boundary(input@, hi as int),
        from < hi <= input@.len(),
    ensures
        from < nb <= hi,
        is_char_boundary(input@, nb as int),
        forall|p: int| from < p < nb ==> 128 <= #[trigger] input@[p] < 192,
{
    let mut j: usize = from + 1;
    while j < hi && mid_char(input, j)
        invariant
            from < j <= hi <= input@.len(),
            valid_utf8(input@),
            is_char_boundary(input@, hi as int),
            forall|p: int| from < p < j ==> 128 <= #[trigger] input@[p] < 192,
        decreases hi - j,
    {
        j += 1;
    }
    proof {
        if j < hi {
            crate::text::lemma_boundary_by_byte(input@, j as int);
        }
    }
    j
}

/// Scans one invocation: `start` holds its `{`; the scan runs to the
/// matching close brace, tracking nesting and skipping escaped characters,
/// and records the name span and the raw argument spans without evaluating
/// anything.  Yields nothing when the input ends first.
#[verifier::loop_isolation(false)]
fn scan_invocation(input: &Vec<u8>, start: usize, hi: usize) -> (r: Option<Scan>)
    requires
        valid_utf8(input@),
        start < hi <= input@.len(),
        input@[start as int] == 123,
        is_char_boundary(input@, start as int),
        is_char_boundary(input@, hi as int),
    ensures
        r is Some ==> scan_ok(input@, start as int, hi as int, r->0),
        match scan_spec(input@, start as int, hi as int) {
            Option::None => r is None,
            Option::Some(sp) => r is Some && (r->0).name_hi as int == sp.name_hi && (
            r->0).end as int == sp.end && spans_view((r->0).args@) == sp.args,
        },
{
    let ghost bs = input@;
    proof {
        lemma_ascii_step(bs, start as int);
        assert(spans_view(Seq::<(usize, usize)>::empty()) =~= Seq::<(int, int)>::empty());
    }
    let mut i: usize = start + 1;
    let mut depth: usize = 1;
    let mut colon: usize = 0;
    let mut has_colon: bool = false;
    let mut arg_start: usize = 0;
    let mut args: Vec<(usize, usize)> = Vec::new();
    while i < hi
        invariant
            start + 1 <= i <= hi,
            1 <= depth <= i - start,
            has_colon ==> start + 1 <= colon < i && is_char_boundary(bs, colon as int),
            has_colon ==> colon < arg_start <= i && is_char_boundary(bs, arg_start as int),
            !has_colon ==> args@.len() == 0 && arg_start == 0,
            forall|k: int|
                0 <= k < args@.len() ==> colon < (#[trigger] args@[k]).0 <= args@[k].1 < i
                    && is_char_boundary(bs, args@[k].0 as int) && is_char_boundary(
                    bs,
                    args@[k].1 as int,
                ),
            scan_spec(bs, start as int, hi as int) == scan_from(
                bs,
                hi as int,
                i as int,
                depth as int,
                if has_colon {
                    Some(colon as int)
                } else {
                    None
                },
                arg_start as int,
                spans_view(args@),
            ),
        decreases hi - i,
    {
        let b = input[i];
        if b == 92 {
            if i + 1 < hi {
                i += 2;
            } else {
                i += 1;
            }
        } else if b == 123 {
            depth += 1;
            i += 1;
        } else if b == 125 {
            depth -= 1;
            if depth == 0 {
                proof {
                    lemma_ascii_at_boundary(bs, i as int);
                    lemma_ascii_step(bs, i as int);
                }
                let end = i + 1;
                if has_colon {
                    let ghost before = args@;
                    args.push((arg_start, i));
                    proof {
                        assert(spans_view(args@) =~= spans_view(before).push(
                            (arg_start as int, i as int),
                        ));
                    }
                    return Some(Scan { name_lo: start + 1, name_hi: colon, args, end });
                } else {
                    return Some(Scan { name_lo: start + 1, name_hi: i, args, end });
                }
            }
            i += 1;
        } else if depth == 1 && b == 58 && !has_colon {
            proof {
                lemma_ascii_at_boundary(bs, i as int);
                lemma_ascii_step(bs, i as int);
            }
            has_colon = true;
            colon = i;
            arg_start = i + 1;
            i += 1;
        } else if depth == 1 && b == 124 && has_colon {
            proof {
                lemma_ascii_at_boundary(bs, i as int);
                lemma_ascii_step(bs, i as int);
            }
            let ghost before = args@;
            args.push((arg_start, i));
            proof {
                assert(spans_view(args@) =~= spans_view(before).push(
                    (arg_start as int, i as int),
                ));
            }
            arg_start = i + 1;
            i += 1;
        } else {
            i += 1;
        }
    }
    None
}


/// What an evaluation yields, at the specification level.
pub enum Evaluation {
    /// The rendered text and the variable store and tick count it leaves.
    Rendered { text: Seq<u8>, vars: Map<Seq<u8>, Seq<u8>>, ticks: int },
    /// Evaluation fails with an error of this class.
    Refused { class: ErrorClass },
    /// Evaluation reaches the capability context; from there the outcome is
    /// the environment's.
    External,
}

/// Splices rendered text in front of the rest of an evaluation.
pub open spec fn splice(text: Seq<u8>, rest: Evaluation) -> Evaluation {
    match rest {
        Evaluation::Rendered { text: t, vars, ticks } => Evaluation::Rendered {
            text: text + t,
            vars,
            ticks,
        },
        other => other,
    }
}

/// Clamps a recorded position into `[lo + 1, hi - 1]`, so that recursion
/// over a recorded span always shrinks; on the spans a scan actually yields
/// the clamp changes nothing.
pub open spec fn clamp_in(a: int, lo: int, hi: int) -> int {
    let ub = if hi - 1 < lo + 1 {
        lo + 1
    } else {
        hi - 1
    };
    if a < lo + 1 {
        lo + 1
    } else if a > ub {
        ub
    } else {
        a
    }
}

/// The clamped bounds of a recorded argument span.
pub open spec fn span_lo(sp: (int, int), lo: int, hi: int) -> int {
    clamp_in(sp.0, lo, hi)
}

pub open spec fn span_hi(sp: (int, int), lo: int, hi: int) -> int {
    if clamp_in(sp.1, lo, hi) < span_lo(sp, lo, hi) {
        span_lo(sp, lo, hi)
    } else {
        clamp_in(sp.1, lo, hi)
    }
}

/// What evaluating a list of raw argument spans yields.
pub enum ArgsOutcome {
    /// The evaluated argument values and the state they leave.
    Collected { vals: Seq<Seq<u8>>, vars: Map<Seq<u8>, Seq<u8>>, ticks: int },
    /// Some argument fails with an error of this class.
    ArgsRefused { class: ErrorClass },
    /// Some argument reaches the capability context.
    ArgsExternal,
}

/// Evaluates the argument spans from index `k` on, left to right, threading
/// the state.
pub open spec fn eval_args_spec(
    bytes: Seq<u8>,
    lo: int,
    hi: int,
    spans: Seq<(int, int)>,
    k: int,
    targs: Seq<Seq<u8>>,
    vars: Map<Seq<u8>, Seq<u8>>,
    ticks: int,
    side_effects: bool,
    depth: int,
) -> ArgsOutcome
    decreases hi - lo, 1int, spans.len() - k,
{
    if k < 0 || k >= spans.len() || lo >= hi {
        ArgsOutcome::Collected { vals: Seq::empty(), vars, ticks }
    } else {
        let x = span_lo(spans[k], lo, hi);
        let y = span_hi(spans[k], lo, hi);
        match eval_spec(bytes, x, y, targs, vars, ticks, side_effects, depth) {
            Evaluation::Rendered { text, vars: v2, ticks: t2 } => match eval_args_spec(
                bytes,
                lo,
                hi,
                spans,
                k + 1,
                targs,
                v2,
                t2,
                side_effects,
                depth,
            ) {
                ArgsOutcome::Collected { vals, vars: v3, ticks: t3 } => ArgsOutcome::Collected {
                    vals: seq![text] + vals,
                    vars: v3,
                    ticks: t3,
                },
                other => other,
            },
            Evaluation::Refused { class } => ArgsOutcome::ArgsRefused { class },
            Evaluation::External => ArgsOutcome::ArgsExternal,
        }
    }
}

/// What one invocation, opening at `lo` and scanned within `[lo, hi)`,
/// yields: the spliced text and the state it leaves, the class of the error
/// it raises, or `External` where it reaches the capability context.  One
/// tick is charged up front; a conditional evaluates only its selected
/// branch.
pub open spec fn step_spec(
    bytes: Seq<u8>,
    lo: int,
    hi: int,
    targs: Seq<Seq<u8>>,
    vars: Map<Seq<u8>, Seq<u8>>,
    ticks: int,
    side_effects: bool,
    depth: int,
) -> SubtagOutcome
    decreases hi - lo, 2int, 0int,
{
    if lo < 0 || lo >= hi || hi > bytes.len() {
        SubtagOutcome::Value { text: Seq::empty(), vars, ticks }
    } else {
        match scan_spec(bytes, lo, hi) {
            Option::None => SubtagOutcome::Rejected { class: ErrorClass::Unterminated },
            Option::Some(sc) => {
                if ticks >= ITER_LIMIT {
                    SubtagOutcome::Rejected { class: ErrorClass::Budget }
                } else if depth >= MAX_DEPTH {
                    SubtagOutcome::Rejected { class: ErrorClass::Depth }
                } else {
                    let t1 = ticks + 1;
                    let nh = clamp_in(sc.name_hi, lo, hi);
                    match subtag_of_name(bytes.subrange(lo + 1, if nh < lo + 1 {
                        lo + 1
                    } else {
                        nh
                    })) {
                        Option::None => SubtagOutcome::Rejected {
                            class: ErrorClass::UnknownName,
                        },
                        Option::Some(Subtag::Note) => SubtagOutcome::Value {
                            text: Seq::empty(),
                            vars,
                            ticks: t1,
                        },
                        Option::Some(Subtag::If) => if sc.args.len() != 5 {
                            SubtagOutcome::Rejected { class: ErrorClass::BadArgument }
                        } else {
                            match eval_spec(
                                bytes,
                                span_lo(sc.args[0], lo, hi),
                                span_hi(sc.args[0], lo, hi),
                                targs,
                                vars,
                                t1,
                                side_effects,
                                depth + 1,
                            ) {
                                Evaluation::Rendered { text: ta, vars: v1, ticks: k1 } => match eval_spec(
                                    bytes,
                                    span_lo(sc.args[1], lo, hi),
                                    span_hi(sc.args[1], lo, hi),
                                    targs,
                                    v1,
                                    k1,
                                    side_effects,
                                    depth + 1,
                                ) {
                                    Evaluation::Rendered { text: top, vars: v2, ticks: k2 } => match eval_spec(
                                        bytes,
                                        span_lo(sc.args[2], lo, hi),
                                        span_hi(sc.args[2], lo, hi),
                                        targs,
                                        v2,
                                        k2,
                                        side_effects,
                                        depth + 1,
                                    ) {
                                        Evaluation::Rendered { text: tb, vars: v3, ticks: k3 } => match pick_spec(
                                            ta,
                                            top,
                                            tb,
                                        ) {
                                            Option::None => SubtagOutcome::Rejected {
                                                class: ErrorClass::BadArgument,
                                            },
                                            Option::Some(c) => {
                                                let br = if c {
                                                    sc.args[3]
                                                } else {
                                                    sc.args[4]
                                                };
                                                match eval_spec(
                                                    bytes,
                                                    span_lo(br, lo, hi),
                                                    span_hi(br, lo, hi),
                                                    targs,
                                                    v3,
                                                    k3,
                                                    side_effects,
                                                    depth + 1,
                                                ) {
                                                    Evaluation::Rendered {
                                                        text: tbr,
                                                        vars: v4,
                                                        ticks: k4,
                                                    } => SubtagOutcome::Value {
                                                        text: tbr,
                                                        vars: v4,
                                                        ticks: k4,
                                                    },
                                                    Evaluation::Refused { class } => SubtagOutcome::Rejected {
                                                        class,
                                                    },
                                                    Evaluation::External => SubtagOutcome::External,
                                                }
                                            },
                                        },
                                        Evaluation::Refused { class } => SubtagOutcome::Rejected {
                                            class,
                                        },
                                        Evaluation::External => SubtagOutcome::External,
                                    },
                                    Evaluation::Refused { class } => SubtagOutcome::Rejected {
                                        class,
                                    },
                                    Evaluation::External => SubtagOutcome::External,
                                },
                                Evaluation::Refused { class } => SubtagOutcome::Rejected {
                                    class,
                                },
                                Evaluation::External => SubtagOutcome::External,
                            }
                        },
                        Option::Some(k) => match eval_args_spec(
                            bytes,
                            lo,
                            hi,
                            sc.args,
                            0,
                            targs,
                            vars,
                            t1,
                            side_effects,
                            depth + 1,
                        ) {
                            ArgsOutcome::Collected { vals, vars: v2, ticks: t2 } => invoke_spec(
                                k,
                                vals,
                                targs,
                                v2,
                                t2,
                                side_effects,
                            ),
                            ArgsOutcome::ArgsRefused { class } => SubtagOutcome::Rejected {
                                class,
                            },
                            ArgsOutcome::ArgsExternal => SubtagOutcome::External,
                        },
                    }
                }
            },
        }
    }
}

/// The position just past an invocation, defensively clamped into
/// `(lo, hi]`.
pub open spec fn next_after(bytes: Seq<u8>, lo: int, hi: int) -> int {
    match scan_spec(bytes, lo, hi) {
        Option::Some(sc) => if sc.end <= lo {
            lo + 1
        } else if sc.end > hi {
            hi
        } else {
            sc.end
        },
        Option::None => hi,
    }
}

/// The engine's evaluation, at the specification level: what evaluating the
/// segment `bytes[lo..hi)` renders, and the variable store and tick count it
/// leaves behind — or the class of the error it fails with, or `External`
/// where it reaches the capability context and the rest is the
/// environment's to decide.  It mirrors the executable evaluator exactly:
/// literal bytes pass through, an escape drops its backslash, and each
/// invocation is scanned, charged one tick, resolved and dispatched through
/// [`step_spec`].
pub open spec fn eval_spec(
    bytes: Seq<u8>,
    lo: int,
    hi: int,
    targs: Seq<Seq<u8>>,
    vars: Map<Seq<u8>, Seq<u8>>,
    ticks: int,
    side_effects: bool,
    depth: int,
) -> Evaluation
    decreases hi - lo, 3int, 0int,
{
    if lo < 0 || lo >= hi || hi > bytes.len() {
        Evaluation::Rendered { text: Seq::empty(), vars, ticks }
    } else if bytes[lo] == 123 {
        match step_spec(bytes, lo, hi, targs, vars, ticks, side_effects, depth) {
            SubtagOutcome::Value { text, vars: v, ticks: t } => splice(
                text,
                eval_spec(
                    bytes,
                    next_after(bytes, lo, hi),
                    hi,
                    targs,
                    v,
                    t,
                    side_effects,
                    depth,
                ),
            ),
            SubtagOutcome::Rejected { class } => Evaluation::Refused { class },
            SubtagOutcome::External => Evaluation::External,
        }
    } else if bytes[lo] == 92 {
        if lo + 1 < hi {
            splice(
                bytes.subrange(lo + 1, lo + 2),
                eval_spec(bytes, lo + 2, hi, targs, vars, ticks, side_effects, depth),
            )
        } else {
            Evaluation::Rendered { text: seq![92u8], vars, ticks }
        }
    } else {
        splice(
            bytes.subrange(lo, lo + 1),
            eval_spec(bytes, lo + 1, hi, targs, vars, ticks, side_effects, depth),
        )
    }
}

/// Splicing composes by concatenation.
proof fn lemma_splice_assoc(a: Seq<u8>, b: Seq<u8>, e: Evaluation)
    ensures
        splice(a, splice(b, e)) == splice(a + b, e),
{
    match e {
        Evaluation::Rendered { text, vars, ticks } => {
            assert(a + (b + text) =~= (a + b) + text);
        },
        _ => {},
    }
}

/// Splicing nothing changes nothing.
proof fn lemma_splice_empty(e: Evaluation)
    ensures
        splice(Seq::empty(), e) == e,
{
    match e {
        Evaluation::Rendered { text, vars, ticks } => {
            assert(Seq::<u8>::empty() + text =~= text);
        },
        _ => {},
    }
}

/// A run holding no `{` and no `\` evaluates to itself, spliced in front of
/// the evaluation of what follows it.
proof fn lemma_eval_run(
    bytes: Seq<u8>,
    i: int,
    j: int,
    hi: int,
    targs: Seq<Seq<u8>>,
    vars: Map<Seq<u8>, Seq<u8>>,
    ticks: int,
    side_effects: bool,
    depth: int,
)
    requires
        0 <= i <= j <= hi <= bytes.len(),
        forall|p: int| i <= p < j ==> #[trigger] bytes[p] != 123 && bytes[p] != 92,
    ensures
        eval_spec(bytes, i, hi, targs, vars, ticks, side_effects, depth) == splice(
            bytes.subrange(i, j),
            eval_spec(bytes, j, hi, targs, vars, ticks, side_effects, depth),
        ),
    decreases j - i,
{
    if i == j {
        assert(bytes.subrange(i, j) =~= Seq::<u8>::empty());
        lemma_splice_empty(eval_spec(bytes, j, hi, targs, vars, ticks, side_effects, depth));
    } else {
        lemma_eval_run(bytes, i + 1, j, hi, targs, vars, ticks, side_effects, depth);
        lemma_splice_assoc(
            bytes.subrange(i, i + 1),
            bytes.subrange(i + 1, j),
            eval_spec(bytes, j, hi, targs, vars, ticks, side_effects, depth),
        );
        assert(bytes.subrange(i, i + 1) + bytes.subrange(i + 1, j) =~= bytes.subrange(i, j));
    }
}

/// A segment holding no `{` and no `\\` renders to itself and leaves the
/// state untouched.
pub proof fn lemma_eval_literal(
    bytes: Seq<u8>,
    lo: int,
    hi: int,
    targs: Seq<Seq<u8>>,
    vars: Map<Seq<u8>, Seq<u8>>,
    ticks: int,
    side_effects: bool,
    depth: int,
)
    requires
        0 <= lo <= hi <= bytes.len(),
        no_specials(bytes, lo, hi),
    ensures
        eval_spec(bytes, lo, hi, targs, vars, ticks, side_effects, depth)
            == (Evaluation::Rendered { text: bytes.subrange(lo, hi), vars, ticks }),
{
    lemma_eval_run(bytes, lo, hi, hi, targs, vars, ticks, side_effects, depth);
    assert(eval_spec(bytes, hi, hi, targs, vars, ticks, side_effects, depth)
        == (Evaluation::Rendered { text: Seq::<u8>::empty(), vars, ticks }));
    assert(bytes.subrange(lo, hi) + Seq::<u8>::empty() =~= bytes.subrange(lo, hi));
}

/// Wraps a lower-level error from an inner invocation, keeping it whole and
/// stamping the wrapping invocation's own span.
fn nested_error(e: Error, start: usize, end: usize) -> (r: Error)
    ensures
        r.kind is Nested,
        error_class(r.kind) == error_class(e.kind),
        r.span.start == start && r.span.end == end,
{
    Error { kind: ErrorKind::Nested { inner: Box::new(e) }, span: Span { start, end } }
}

/// One evaluation of one top-level request: the request's argument list plus
/// its shared mutable state.  Nested parses reuse the same `Parser` by
/// mutable reference, so the iteration budget and the variable store cross
/// frames and are never copied.
pub struct Parser {
    args: Vec<Vec<u8>>,
    state: SharedState,
}

impl Parser {
    /// The request's argument list.
    pub closed spec fn targs(self) -> Seq<Seq<u8>> {
        views(self.args@)
    }

    /// The shared evaluation state.
    pub closed spec fn shared(self) -> SharedState {
        self.state
    }

    /// Well-formedness: the state invariant holds and every request argument
    /// is valid UTF-8.
    pub closed spec fn inv(self) -> bool {
        &&& self.state.inv()
        &&& forall|k: int| 0 <= k < self.args@.len() ==> valid_utf8(#[trigger] self.args@[k]@)
    }

    /// A parser for a fresh request: the given arguments, empty state.
    pub fn new(args: Vec<Vec<u8>>) -> (p: Parser)
        requires
            forall|k: int| 0 <= k < args@.len() ==> valid_utf8(#[trigger] args@[k]@),
        ensures
            p.inv(),
            p.targs() == views(args@),
            p.shared().ticks() == 0,
            p.shared().vars() == Map::<Seq<u8>, Seq<u8>>::empty(),
            p.shared().attachment_view() is None,
    {
        Parser { args, state: SharedState::new() }
    }

    /// The budget law: however a well-formed request has been evaluated, its
    /// consumed budget never passes the ceiling — evaluation that would need
    /// more fails with the budget error instead of running on.
    pub proof fn lemma_budget_bounded(self)
        requires
            self.inv(),
        ensures
            self.shared().ticks() <= ITER_LIMIT,
    {
        self.state.lemma_ticks_bounded();
    }

    /// How many budget units the request has consumed so far.
    pub fn counter(&self) -> (r: u64)
        ensures
            r == self.shared().ticks(),
    {
        self.state.counter()
    }

    /// Surrenders the attachment slot at the end of the request.
    pub fn finish(self) -> (r: Option<(Vec<u8>, MediaKind)>)
        ensures
            r is Some <==> self.shared().attachment_view() is Some,
            r is Some ==> ((r->0).0@, (r->0).1) == self.shared().attachment_view()->0,
    {
        self.state.into_attachment()
    }

    /// Evaluates one invocation: `input[i]` holds its `{` and `sc` its scan.
    /// Charges one tick, resolves the name and dispatches; yields the
    /// invocation's rendered text.  Result and state mirror [`step_spec`]
    /// exactly, except where evaluation reaches the capability context.
    #[verifier::loop_isolation(false)]
    #[verifier::rlimit(100)]
    #[verifier::spinoff_prover]
    fn eval_invocation<C: Context>(
        &mut self,
        input: &Vec<u8>,
        i: usize,
        hi: usize,
        sc: &Scan,
        cx: &C,
        side_effects: bool,
        depth: u64,
    ) -> (r: TResult<Vec<u8>>)
        requires
            old(self).inv(),
            valid_utf8(input@),
            i < hi <= input@.len(),
            input@[i as int] == 123,
            is_char_boundary(input@, i as int),
            is_char_boundary(input@, hi as int),
            scan_ok(input@, i as int, hi as int, *sc),
            scan_spec(input@, i as int, hi as int) is Some,
            scan_spec(input@, i as int, hi as int)->0.name_hi == sc.name_hi as int,
            scan_spec(input@, i as int, hi as int)->0.end == sc.end as int,
            scan_spec(input@, i as int, hi as int)->0.args == spans_view(sc.args@),
        ensures
            final(self).inv(),
            final(self).targs() == old(self).targs(),
            final(self).shared().ticks() >= old(self).shared().ticks(),
            !side_effects ==> final(self).shared().vars() == old(self).shared().vars() && final(self).shared().attachment_view() == old(self).shared().attachment_view(),
            r is Ok ==> valid_utf8(r->Ok_0@),
            match step_spec(
                input@,
                i as int,
                hi as int,
                old(self).targs(),
                old(self).shared().vars(),
                old(self).shared().ticks() as int,
                side_effects,
                depth as int,
            ) {
                SubtagOutcome::Value { text, vars, ticks } => r is Ok && r->Ok_0@ == text
                    && final(self).shared().vars() == vars && final(self).shared().ticks() as int
                    == ticks && final(self).shared().attachment_view() == old(self).shared().attachment_view(),
                SubtagOutcome::Rejected { class } => r is Err && error_class(r->Err_0.kind)
                    == class,
                SubtagOutcome::External => true,
            },
        decreases hi - i, 0int,
    {
        let ghost bs = input@;
        let ghost tv = old(self).targs();
        let ghost spx = scan_spec(bs, i as int, hi as int)->0;
        proof {
            assert(spx.args.len() == sc.args@.len());
        }
        if !self.state.try_tick() {
            return Err(
                Error {
                    kind: ErrorKind::IterLimit { limit: ITER_LIMIT },
                    span: Span { start: i, end: sc.end },
                },
            );
        }
        if depth >= MAX_DEPTH {
            return Err(
                Error {
                    kind: ErrorKind::DepthLimit { limit: MAX_DEPTH },
                    span: Span { start: i, end: sc.end },
                },
            );
        }
        proof {
            // The scan's spans lie inside the invocation, so the
            // specification's defensive clamp changes nothing here.
            assert(clamp_in(spx.name_hi, i as int, hi as int) == sc.name_hi as int);
            assert(i as int + 1 <= sc.name_hi as int);
        }
        match resolve_subtag(input, sc.name_lo, sc.name_hi) {
            None => Err(
                Error {
                    kind: ErrorKind::UnknownSubtag {
                        name: copy_range(input, sc.name_lo, sc.name_hi),
                    },
                    span: Span { start: sc.name_lo, end: sc.name_hi },
                },
            ),
            Some(Subtag::Note) => {
                // A comment: its raw arguments are never evaluated and it
                // renders to nothing.
                let out: Vec<u8> = Vec::new();
                proof {
                    reveal_with_fuel(valid_utf8, 1);
                    assert(out@ =~= Seq::<u8>::empty());
                }
                Ok(out)
            },
            Some(Subtag::If) => {
                if sc.args.len() != 5 {
                    let mut m: Vec<u8> = Vec::new();
                    m.extend_from_slice("a conditional takes five arguments".as_bytes());
                    return Err(
                        Error {
                            kind: ErrorKind::ArgParseError { message: m },
                            span: Span { start: i, end: sc.end },
                        },
                    );
                }
                let sp0 = sc.args[0];
                let sp1 = sc.args[1];
                let sp2 = sc.args[2];
                proof {
                    assert(arg_ok(bs, sc.name_hi as int, sc.end as int, sc.args@[0]));
                    assert(arg_ok(bs, sc.name_hi as int, sc.end as int, sc.args@[1]));
                    assert(arg_ok(bs, sc.name_hi as int, sc.end as int, sc.args@[2]));
                    lemma_spans_index(sc.args@, 0);
                    lemma_spans_index(sc.args@, 1);
                    lemma_spans_index(sc.args@, 2);
                    lemma_spans_index(sc.args@, 3);
                    lemma_spans_index(sc.args@, 4);
                    assert(span_lo(spx.args[0], i as int, hi as int) == sp0.0 as int && span_hi(
                        spx.args[0],
                        i as int,
                        hi as int,
                    ) == sp0.1 as int);
                    assert(span_lo(spx.args[1], i as int, hi as int) == sp1.0 as int && span_hi(
                        spx.args[1],
                        i as int,
                        hi as int,
                    ) == sp1.1 as int);
                    assert(span_lo(spx.args[2], i as int, hi as int) == sp2.0 as int && span_hi(
                        spx.args[2],
                        i as int,
                        hi as int,
                    ) == sp2.1 as int);
                }
                let va = match self.eval_segment(input, sp0.0, sp0.1, cx, side_effects, depth + 1) {
                    Ok(v) => v,
                    Err(e) => return Err(nested_error(e, i, sc.end)),
                };
                let vop = match self.eval_segment(input, sp1.0, sp1.1, cx, side_effects, depth + 1) {
                    Ok(v) => v,
                    Err(e) => return Err(nested_error(e, i, sc.end)),
                };
                let vb = match self.eval_segment(input, sp2.0, sp2.1, cx, side_effects, depth + 1) {
                    Ok(v) => v,
                    Err(e) => return Err(nested_error(e, i, sc.end)),
                };
                let cond = match pick_branch(&va, &vop, &vb) {
                    Ok(c) => c,
                    Err(m) => {
                        return Err(
                            Error {
                                kind: ErrorKind::ArgParseError { message: m },
                                span: Span { start: i, end: sc.end },
                            },
                        );
                    },
                };
                // Only the selected branch is evaluated: the other consumes
                // neither budget nor effects.
                let chosen = if cond {
                    sc.args[3]
                } else {
                    sc.args[4]
                };
                proof {
                    assert(arg_ok(bs, sc.name_hi as int, sc.end as int, sc.args@[3]));
                    assert(arg_ok(bs, sc.name_hi as int, sc.end as int, sc.args@[4]));
                    assert(span_lo(spx.args[3], i as int, hi as int) == sc.args@[3].0 as int
                        && span_hi(spx.args[3], i as int, hi as int) == sc.args@[3].1 as int);
                    assert(span_lo(spx.args[4], i as int, hi as int) == sc.args@[4].0 as int
                        && span_hi(spx.args[4], i as int, hi as int) == sc.args@[4].1 as int);
                }
                match self.eval_segment(input, chosen.0, chosen.1, cx, side_effects, depth + 1) {
                    Ok(v) => Ok(v),
                    Err(e) => Err(nested_error(e, i, sc.end)),
                }
            },
            Some(k) => {
                let ghost vars_t = self.shared().vars();
                let ghost ticks_t = self.shared().ticks() as int;
                let ghost full_args = eval_args_spec(
                    bs,
                    i as int,
                    hi as int,
                    spx.args,
                    0,
                    tv,
                    vars_t,
                    ticks_t,
                    side_effects,
                    (depth + 1) as int,
                );
                let n_args = sc.args.len();
                let mut sargs: Vec<Vec<u8>> = Vec::new();
                let mut t: usize = 0;
                proof {
                    assert(views(sargs@) =~= Seq::<Seq<u8>>::empty());
                    match full_args {
                        ArgsOutcome::Collected { vals, vars, ticks } => {
                            assert(Seq::<Seq<u8>>::empty() + vals =~= vals);
                        },
                        _ => {},
                    }
                }
                while t < n_args
                    invariant
                        t <= n_args == sc.args@.len(),
                        scan_ok(bs, i as int, hi as int, *sc),
                        sargs@.len() == t,
                        forall|k2: int| 0 <= k2 < t ==> valid_utf8((#[trigger] sargs@[k2])@),
                        self.inv(),
                        self.targs() == old(self).targs(),
                        self.shared().ticks() >= old(self).shared().ticks(),
                        !side_effects ==> self.shared().vars() == old(self).shared().vars()
                            && self.shared().attachment_view() == old(self).shared().attachment_view(),
                        !(full_args is ArgsExternal) ==> self.shared().attachment_view() == old(self).shared().attachment_view(),
                        full_args is ArgsExternal || full_args == (match eval_args_spec(
                            bs,
                            i as int,
                            hi as int,
                            spx.args,
                            t as int,
                            tv,
                            self.shared().vars(),
                            self.shared().ticks() as int,
                            side_effects,
                            (depth + 1) as int,
                        ) {
                            ArgsOutcome::Collected { vals, vars, ticks } => ArgsOutcome::Collected {
                                vals: views(sargs@) + vals,
                                vars,
                                ticks,
                            },
                            other => other,
                        }),
                    decreases n_args - t,
                {
                    let sp = sc.args[t];
                    proof {
                        assert(arg_ok(bs, sc.name_hi as int, sc.end as int, sc.args@[t as int]));
                        lemma_spans_index(sc.args@, t as int);
                        assert(span_lo(spx.args[t as int], i as int, hi as int) == sp.0 as int
                            && span_hi(spx.args[t as int], i as int, hi as int) == sp.1 as int);
                    }
                    let ghost sargs_before = sargs@;
                    let ghost vars_it = self.shared().vars();
                    let ghost ticks_it = self.shared().ticks() as int;
                    let ghost step_t = eval_args_spec(
                        bs,
                        i as int,
                        hi as int,
                        spx.args,
                        t as int,
                        tv,
                        vars_it,
                        ticks_it,
                        side_effects,
                        (depth + 1) as int,
                    );
                    let ghost sub_t = eval_spec(
                        bs,
                        sp.0 as int,
                        sp.1 as int,
                        tv,
                        vars_it,
                        ticks_it,
                        side_effects,
                        (depth + 1) as int,
                    );
                    let v = match self.eval_segment(input, sp.0, sp.1, cx, side_effects, depth
                        + 1) {
                        Ok(v) => v,
                        Err(e) => {
                            proof {
                                assert(step_t is ArgsRefused || step_t is ArgsExternal);
                            }
                            return Err(nested_error(e, i, sc.end));
                        },
                    };
                    sargs.push(v);
                    proof {
                        assert(views(sargs@) =~= views(sargs_before).push(sargs@[t as int]@));
                        if sub_t is External {
                            assert(step_t is ArgsExternal);
                        } else {
                            let next_t = eval_args_spec(
                                bs,
                                i as int,
                                hi as int,
                                spx.args,
                                t as int + 1,
                                tv,
                                self.shared().vars(),
                                self.shared().ticks() as int,
                                side_effects,
                                (depth + 1) as int,
                            );
                            assert(step_t == (match next_t {
                                ArgsOutcome::Collected { vals, vars, ticks } => ArgsOutcome::Collected {
                                    vals: seq![sargs@[t as int]@] + vals,
                                    vars,
                                    ticks,
                                },
                                other => other,
                            }));
                            match next_t {
                                ArgsOutcome::Collected { vals, vars, ticks } => {
                                    assert(views(sargs_before) + (seq![sargs@[t as int]@]
                                        + vals) =~= views(sargs@) + vals);
                                },
                                _ => {},
                            }
                        }
                    }
                    t += 1;
                }
                proof {
                    match full_args {
                        ArgsOutcome::Collected { vals, vars, ticks } => {
                            assert(views(sargs@) + Seq::<Seq<u8>>::empty() =~= views(sargs@));
                        },
                        _ => {},
                    }
                }
                let span = Span { start: i, end: sc.end };
                invoke_eager(k, &sargs, &self.args, &mut self.state, cx, side_effects, span)
            },
        }
    }

    /// Evaluates the segment `input[lo..hi)`: literal runs pass through,
    /// escapes drop their backslash, and each invocation is charged, resolved
    /// and evaluated depth-first.  The result and the state left behind are
    /// exactly what [`eval_spec`] says, except where evaluation reaches the
    /// capability context; the iteration count never decreases, and with
    /// side effects off the variable store and the attachment slot are left
    /// exactly as they were.
    #[verifier::loop_isolation(false)]
    #[verifier::rlimit(100)]
    #[verifier::spinoff_prover]
    pub(crate) fn eval_segment<C: Context>(
        &mut self,
        input: &Vec<u8>,
        lo: usize,
        hi: usize,
        cx: &C,
        side_effects: bool,
        depth: u64,
    ) -> (r: TResult<Vec<u8>>)
        requires
            old(self).inv(),
            valid_utf8(input@),
            lo <= hi <= input@.len(),
            is_char_boundary(input@, lo as int),
            is_char_boundary(input@, hi as int),
        ensures
            final(self).inv(),
            final(self).targs() == old(self).targs(),
            final(self).shared().ticks() >= old(self).shared().ticks(),
            !side_effects ==> final(self).shared().vars() == old(self).shared().vars() && final(self).shared().attachment_view() == old(self).shared().attachment_view(),
            r is Ok ==> valid_utf8(r->Ok_0@),
            match eval_spec(
                input@,
                lo as int,
                hi as int,
                old(self).targs(),
                old(self).shared().vars(),
                old(self).shared().ticks() as int,
                side_effects,
                depth as int,
            ) {
                Evaluation::Rendered { text, vars, ticks } => r is Ok && r->Ok_0@ == text
                    && final(self).shared().vars() == vars && final(self).shared().ticks() as int
                    == ticks && final(self).shared().attachment_view() == old(self).shared().attachment_view(),
                Evaluation::Refused { class } => r is Err && error_class(r->Err_0.kind)
                    == class,
                Evaluation::External => true,
            },
        decreases hi - lo, 1int,
    {
        let ghost bs = input@;
        let ghost tv = old(self).targs();
        let ghost total = eval_spec(
            bs,
            lo as int,
            hi as int,
            tv,
            old(self).shared().vars(),
            old(self).shared().ticks() as int,
            side_effects,
            depth as int,
        );
        let mut out: Vec<u8> = Vec::new();
        proof {
            reveal_with_fuel(valid_utf8, 1);
            lemma_splice_empty(total);
            assert(out@ =~= Seq::<u8>::empty());
        }
        let mut i: usize = lo;
        while i < hi
            invariant
                lo <= i <= hi,
                is_char_boundary(bs, i as int),
                valid_utf8(out@),
                self.inv(),
                self.targs() == old(self).targs(),
                self.shared().ticks() >= old(self).shared().ticks(),
                !side_effects ==> self.shared().vars() == old(self).shared().vars()
                    && self.shared().attachment_view() == old(self).shared().attachment_view(),
                total is External || total == splice(
                    out@,
                    eval_spec(
                        bs,
                        i as int,
                        hi as int,
                        tv,
                        self.shared().vars(),
                        self.shared().ticks() as int,
                        side_effects,
                        depth as int,
                    ),
                ),
                !(total is External) ==> self.shared().attachment_view() == old(self).shared().attachment_view(),
            decreases hi - i,
        {
            let b = input[i];
            let ghost vars_b = self.shared().vars();
            let ghost ticks_b = self.shared().ticks() as int;
            let ghost ev_i = eval_spec(
                bs,
                i as int,
                hi as int,
                tv,
                vars_b,
                ticks_b,
                side_effects,
                depth as int,
            );
            if b == 123 {
                match scan_invocation(input, i, hi) {
                    None => {
                        proof {
                            assert(step_spec(bs, i as int, hi as int, tv, vars_b, ticks_b,
                                side_effects, depth as int) == SubtagOutcome::Rejected {
                                class: ErrorClass::Unterminated,
                            });
                        }
                        return Err(
                            Error {
                                kind: ErrorKind::MissingClosingBrace,
                                span: Span { start: i, end: i + 1 },
                            },
                        );
                    },
                    Some(sc) => {
                        let v = match self.eval_invocation(
                            input,
                            i,
                            hi,
                            &sc,
                            cx,
                            side_effects,
                            depth,
                        ) {
                            Ok(v) => v,
                            Err(e) => {
                                return Err(e);
                            },
                        };
                        proof {
                            assert(next_after(bs, i as int, hi as int) == sc.end as int);
                            valid_utf8_concat(out@, v@);
                            lemma_splice_assoc(
                                out@,
                                v@,
                                eval_spec(
                                    bs,
                                    sc.end as int,
                                    hi as int,
                                    tv,
                                    self.shared().vars(),
                                    self.shared().ticks() as int,
                                    side_effects,
                                    depth as int,
                                ),
                            );
                        }
                        append_bytes(&mut out, &v);
                        i = sc.end;
                    },
                }
            } else if b == 92 {
                if i + 1 < hi {
                    proof {
                        lemma_ascii_step(bs, i as int);
                    }
                    let nb = skip_char(input, i + 1, hi);
                    proof {
                        lemma_subrange_valid(bs, i + 1, nb as int);
                        valid_utf8_concat(out@, bs.subrange(i + 1, nb as int));
                        lemma_eval_run(
                            bs,
                            i + 2,
                            nb as int,
                            hi as int,
                            tv,
                            vars_b,
                            ticks_b,
                            side_effects,
                            depth as int,
                        );
                        lemma_splice_assoc(
                            bs.subrange(i + 1, i + 2),
                            bs.subrange(i + 2, nb as int),
                            eval_spec(
                                bs,
                                nb as int,
                                hi as int,
                                tv,
                                vars_b,
                                ticks_b,
                                side_effects,
                                depth as int,
                            ),
                        );
                        assert(bs.subrange(i + 1, i + 2) + bs.subrange(i + 2, nb as int)
                            =~= bs.subrange(i + 1, nb as int));
                        lemma_splice_assoc(
                            out@,
                            bs.subrange(i + 1, nb as int),
                            eval_spec(
                                bs,
                                nb as int,
                                hi as int,
                                tv,
                                vars_b,
                                ticks_b,
                                side_effects,
                                depth as int,
                            ),
                        );
                    }
                    append_range(&mut out, input, i + 1, nb);
                    i = nb;
                } else {
                    proof {
                        lemma_ascii_valid(seq![92u8]);
                        valid_utf8_concat(out@, seq![92u8]);
                        lemma_ascii_step(bs, i as int);
                        assert(ev_i == Evaluation::Rendered {
                            text: seq![92u8],
                            vars: vars_b,
                            ticks: ticks_b,
                        });
                    }
                    let ghost before = out@;
                    out.push(92);
                    proof {
                        assert(out@ =~= before + seq![92u8]);
                        assert(out@ + Seq::<u8>::empty() =~= out@);
                    }
                    i = i + 1;
                }
            } else {
                let j = scan_literal(input, i, hi);
                proof {
                    if j < hi {
                        lemma_ascii_at_boundary(bs, j as int);
                    }
                    lemma_subrange_valid(bs, i as int, j as int);
                    valid_utf8_concat(out@, bs.subrange(i as int, j as int));
                    lemma_eval_run(
                        bs,
                        i as int,
                        j as int,
                        hi as int,
                        tv,
                        vars_b,
                        ticks_b,
                        side_effects,
                        depth as int,
                    );
                    lemma_splice_assoc(
                        out@,
                        bs.subrange(i as int, j as int),
                        eval_spec(
                            bs,
                            j as int,
                            hi as int,
                            tv,
                            vars_b,
                            ticks_b,
                            side_effects,
                            depth as int,
                        ),
                    );
                }
                append_range(&mut out, input, i, j);
                i = j;
            }
        }
        proof {
            assert(out@ + Seq::<u8>::empty() =~= out@);
        }
        Ok(out)
    }
}



} // verus!
