//! The subtag table: every named operation an invocation may call, with its
//! argument-evaluation policy and its exact behaviour.
//!
//! `note` and `if` are selective — the evaluator feeds them raw spans and
//! evaluates only what they choose.  Every other subtag is eager: the
//! evaluator evaluates all arguments first and hands the results to
//! [`invoke_eager`] here, which never recurses back into the evaluator.

use vstd::prelude::*;
use vstd::string::StrSliceExecFns;
use vstd::string::StringSliceAdditionalSpecFns;
use vstd::utf8::*;

use crate::context::Context;
use crate::errors::{error_class, Error, ErrorClass, ErrorKind, Span, TResult};
use crate::state::{MediaKind, SharedState, ITER_LIMIT};
use crate::text::{bytes_eq, dec_bytes, dec_value, lemma_ascii_valid, lemma_dec_bytes_digits,
    parse_u64, parseable, range_eq_lit};

verus! {

/// The built-in operations of the engine.
#[derive(Clone, Copy, Debug, PartialEq, Eq, Structural)]
pub enum Subtag {
    /// All request arguments, joined by single spaces.
    Args,
    /// The number of request arguments, in decimal.
    ArgsLen,
    /// One request argument, selected by zero-based index.
    Arg,
    /// A conditional; evaluates only its selected branch.
    If,
    /// A comment; its content is never evaluated.
    Note,
    /// The largest of its numeric arguments.
    Max,
    /// Binds a variable in the shared store.
    SetVar,
    /// Reads a variable from the shared store.
    GetVar,
    /// Repeats evaluated text, charging the budget per repetition.
    Repeat,
    /// Resolves a platform reference through the capability context.
    Usertag,
    /// Fetches bytes through the capability context and fills the
    /// attachment slot.
    Attach,
}

/// The subtag registered under a name, if any.
pub open spec fn subtag_of_name(name: Seq<u8>) -> Option<Subtag> {
    if name == "args".spec_bytes() {
        Some(Subtag::Args)
    } else if name == "argslen".spec_bytes() {
        Some(Subtag::ArgsLen)
    } else if name == "arg".spec_bytes() {
        Some(Subtag::Arg)
    } else if name == "if".spec_bytes() {
        Some(Subtag::If)
    } else if name == "note".spec_bytes() {
        Some(Subtag::Note)
    } else if name == "max".spec_bytes() {
        Some(Subtag::Max)
    } else if name == "set".spec_bytes() {
        Some(Subtag::SetVar)
    } else if name == "get".spec_bytes() {
        Some(Subtag::GetVar)
    } else if name == "repeat".spec_bytes() {
        Some(Subtag::Repeat)
    } else if name == "usertag".spec_bytes() {
        Some(Subtag::Usertag)
    } else if name == "attach".spec_bytes() {
        Some(Subtag::Attach)
    } else {
        None
    }
}

/// Resolves the name held in `input[a..b)` against the subtag table.
pub fn resolve_subtag(input: &Vec<u8>, a: usize, b: usize) -> (r: Option<Subtag>)
    requires
        a <= b <= input@.len(),
    ensures
        r == subtag_of_name(input@.subrange(a as int, b as int)),
{
    if range_eq_lit(input, a, b, "args".as_bytes()) {
        Some(Subtag::Args)
    } else if range_eq_lit(input, a, b, "argslen".as_bytes()) {
        Some(Subtag::ArgsLen)
    } else if range_eq_lit(input, a, b, "arg".as_bytes()) {
        Some(Subtag::Arg)
    } else if range_eq_lit(input, a, b, "if".as_bytes()) {
        Some(Subtag::If)
    } else if range_eq_lit(input, a, b, "note".as_bytes()) {
        Some(Subtag::Note)
    } else if range_eq_lit(input, a, b, "max".as_bytes()) {
        Some(Subtag::Max)
    } else if range_eq_lit(input, a, b, "set".as_bytes()) {
        Some(Subtag::SetVar)
    } else if range_eq_lit(input, a, b, "get".as_bytes()) {
        Some(Subtag::GetVar)
    } else if range_eq_lit(input, a, b, "repeat".as_bytes()) {
        Some(Subtag::Repeat)
    } else if range_eq_lit(input, a, b, "usertag".as_bytes()) {
        Some(Subtag::Usertag)
    } else if range_eq_lit(input, a, b, "attach".as_bytes()) {
        Some(Subtag::Attach)
    } else {
        None
    }
}

/// The items joined by single ASCII spaces.
pub open spec fn join_spaces(items: Seq<Seq<u8>>) -> Seq<u8>
    decreases items.len(),
{
    if items.len() == 0 {
        Seq::empty()
    } else if items.len() == 1 {
        items[0]
    } else {
        join_spaces(items.drop_last()) + seq![32u8] + items.last()
    }
}

proof fn lemma_join_valid(items: Seq<Seq<u8>>)
    requires
        forall|k: int| 0 <= k < items.len() ==> valid_utf8(#[trigger] items[k]),
    ensures
        valid_utf8(join_spaces(items)),
    decreases items.len(),
{
    if items.len() == 0 {
        reveal_with_fuel(valid_utf8, 1);
    } else if items.len() == 1 {
    } else {
        let rest = items.drop_last();
        assert forall|k: int| 0 <= k < rest.len() implies valid_utf8(#[trigger] rest[k]) by {
            assert(rest[k] == items[k]);
        }
        lemma_join_valid(rest);
        lemma_ascii_valid(seq![32u8]);
        valid_utf8_concat(join_spaces(rest), seq![32u8]);
        valid_utf8_concat(join_spaces(rest) + seq![32u8], items.last());
    }
}

/// The largest value among a sequence of numbers.
pub open spec fn seq_max(vals: Seq<nat>) -> nat
    decreases vals.len(),
{
    if vals.len() == 0 {
        0
    } else if vals.len() == 1 {
        vals[0]
    } else if seq_max(vals.drop_last()) >= vals.last() {
        seq_max(vals.drop_last())
    } else {
        vals.last()
    }
}

/// `text` repeated `n` times.
pub open spec fn repeat_bytes(text: Seq<u8>, n: nat) -> Seq<u8>
    decreases n,
{
    if n == 0 {
        Seq::empty()
    } else {
        repeat_bytes(text, (n - 1) as nat) + text
    }
}

proof fn lemma_repeat_valid(text: Seq<u8>, n: nat)
    requires
        valid_utf8(text),
    ensures
        valid_utf8(repeat_bytes(text, n)),
    decreases n,
{
    if n == 0 {
        reveal_with_fuel(valid_utf8, 1);
    } else {
        lemma_repeat_valid(text, (n - 1) as nat);
        valid_utf8_concat(repeat_bytes(text, (n - 1) as nat), text);
    }
}

/// The media kind recognised from the payload's leading bytes, if any.
pub open spec fn sniff_spec(data: Seq<u8>) -> Option<MediaKind> {
    if data.len() >= 4 && data[0] == 0x89 && data[1] == 0x50 && data[2] == 0x4e && data[3]
        == 0x47 {
        Some(MediaKind::Png)
    } else if data.len() >= 4 && data[0] == 0x47 && data[1] == 0x49 && data[2] == 0x46 && data[3]
        == 0x38 {
        Some(MediaKind::Gif)
    } else if data.len() >= 3 && data[0] == 0xff && data[1] == 0xd8 && data[2] == 0xff {
        Some(MediaKind::Jpeg)
    } else if data.len() >= 12 && data[0] == 0x52 && data[1] == 0x49 && data[2] == 0x46 && data[3]
        == 0x46 && data[8] == 0x57 && data[9] == 0x45 && data[10] == 0x42 && data[11] == 0x50 {
        Some(MediaKind::Webp)
    } else {
        None
    }
}

/// Recognises the media kind of a payload from its leading bytes.
pub fn sniff_media_kind(data: &Vec<u8>) -> (r: Option<MediaKind>)
    ensures
        r == sniff_spec(data@),
{
    let n = data.len();
    if n >= 4 && data[0] == 0x89 && data[1] == 0x50 && data[2] == 0x4e && data[3] == 0x47 {
        Some(MediaKind::Png)
    } else if n >= 4 && data[0] == 0x47 && data[1] == 0x49 && data[2] == 0x46 && data[3] == 0x38 {
        Some(MediaKind::Gif)
    } else if n >= 3 && data[0] == 0xff && data[1] == 0xd8 && data[2] == 0xff {
        Some(MediaKind::Jpeg)
    } else if n >= 12 && data[0] == 0x52 && data[1] == 0x49 && data[2] == 0x46 && data[3] == 0x46
        && data[8] == 0x57 && data[9] == 0x45 && data[10] == 0x42 && data[11] == 0x50 {
        Some(MediaKind::Webp)
    } else {
        None
    }
}

/// The comparison operators of a conditional, as byte strings.
pub open spec fn op_eq() -> Seq<u8> {
    seq![61u8]
}

pub open spec fn op_ne() -> Seq<u8> {
    seq![33u8, 61u8]
}

pub open spec fn op_gt() -> Seq<u8> {
    seq![62u8]
}

pub open spec fn op_ge() -> Seq<u8> {
    seq![62u8, 61u8]
}

pub open spec fn op_lt() -> Seq<u8> {
    seq![60u8]
}

pub open spec fn op_le() -> Seq<u8> {
    seq![60u8, 61u8]
}

/// What a conditional decides, at the specification level: byte equality
/// for `=`/`!=`, numeric comparison for the ordering operators (both
/// operands must be numerals), nothing for anything else.
pub open spec fn pick_spec(a: Seq<u8>, op: Seq<u8>, b: Seq<u8>) -> Option<bool> {
    if op == op_eq() {
        Some(a == b)
    } else if op == op_ne() {
        Some(a != b)
    } else if op == op_gt() {
        if parseable(a) && parseable(b) {
            Some(dec_value(a) > dec_value(b))
        } else {
            None
        }
    } else if op == op_ge() {
        if parseable(a) && parseable(b) {
            Some(dec_value(a) >= dec_value(b))
        } else {
            None
        }
    } else if op == op_lt() {
        if parseable(a) && parseable(b) {
            Some(dec_value(a) < dec_value(b))
        } else {
            None
        }
    } else if op == op_le() {
        if parseable(a) && parseable(b) {
            Some(dec_value(a) <= dec_value(b))
        } else {
            None
        }
    } else {
        None
    }
}

/// Decides a conditional: `a op b`.  `=` and `!=` compare bytes; the
/// ordering operators compare numerically and insist that both operands are
/// numerals.  Anything else is rejected with a message.
pub fn pick_branch(a: &Vec<u8>, op: &Vec<u8>, b: &Vec<u8>) -> (r: Result<bool, Vec<u8>>)
    ensures
        match pick_spec(a@, op@, b@) {
            Option::Some(c) => r is Ok && r->Ok_0 == c,
            Option::None => r is Err,
        },
        op@ == op_eq() ==> r == Result::<bool, Vec<u8>>::Ok(a@ == b@),
        op@ == op_ne() ==> r == Result::<bool, Vec<u8>>::Ok(a@ != b@),
        (op@ == op_gt() || op@ == op_ge() || op@ == op_lt() || op@ == op_le()) ==> (r is Ok
            <==> parseable(a@) && parseable(b@)),
        op@ == op_gt() && r is Ok ==> r->Ok_0 == (dec_value(a@) > dec_value(b@)),
        op@ == op_ge() && r is Ok ==> r->Ok_0 == (dec_value(a@) >= dec_value(b@)),
        op@ == op_lt() && r is Ok ==> r->Ok_0 == (dec_value(a@) < dec_value(b@)),
        op@ == op_le() && r is Ok ==> r->Ok_0 == (dec_value(a@) <= dec_value(b@)),
        !(op@ == op_eq() || op@ == op_ne() || op@ == op_gt() || op@ == op_ge() || op@ == op_lt()
            || op@ == op_le()) ==> r is Err,
{
    let oplen = op.len();
    let first: u8 = if oplen >= 1 {
        op[0]
    } else {
        0
    };
    let second: u8 = if oplen >= 2 {
        op[1]
    } else {
        0
    };
    if oplen == 1 && first == 61 {
        assert(op@ =~= op_eq());
        Ok(bytes_eq(a, b))
    } else if oplen == 2 && first == 33 && second == 61 {
        assert(op@ =~= op_ne());
        Ok(!bytes_eq(a, b))
    } else if (oplen == 1 && (first == 62 || first == 60)) || (oplen == 2 && (first == 62
        || first == 60) && second == 61) {
        proof {
            if oplen == 1 && first == 62 {
                assert(op@ =~= op_gt());
            }
            if oplen == 1 && first == 60 {
                assert(op@ =~= op_lt());
            }
            if oplen == 2 && first == 62 {
                assert(op@ =~= op_ge());
            }
            if oplen == 2 && first == 60 {
                assert(op@ =~= op_le());
            }
        }
        let va = match parse_u64(a) {
            Some(v) => v,
            None => {
                let mut m: Vec<u8> = Vec::new();
                m.extend_from_slice("expected a number for a comparison".as_bytes());
                return Err(m);
            },
        };
        let vb = match parse_u64(b) {
            Some(v) => v,
            None => {
                let mut m: Vec<u8> = Vec::new();
                m.extend_from_slice("expected a number for a comparison".as_bytes());
                return Err(m);
            },
        };
        if oplen == 1 && first == 62 {
            Ok(va > vb)
        } else if oplen == 2 && first == 62 {
            Ok(va >= vb)
        } else if oplen == 1 && first == 60 {
            Ok(va < vb)
        } else {
            Ok(va <= vb)
        }
    } else {
        proof {
            if op@ =~= op_eq() {
                assert(oplen == 1 && first == 61);
            }
            if op@ =~= op_ne() {
                assert(oplen == 2 && first == 33 && second == 61);
            }
            if op@ =~= op_gt() {
                assert(oplen == 1 && first == 62);
            }
            if op@ =~= op_ge() {
                assert(oplen == 2 && first == 62 && second == 61);
            }
            if op@ =~= op_lt() {
                assert(oplen == 1 && first == 60);
            }
            if op@ =~= op_le() {
                assert(oplen == 2 && first == 60 && second == 61);
            }
        }
        let mut m: Vec<u8> = Vec::new();
        m.extend_from_slice("unknown comparison operator".as_bytes());
        Err(m)
    }
}

/// Builds an argument-shape error at `span`.
fn arg_error(text: &str, span: Span) -> (r: Error)
    ensures
        r.kind is ArgParseError,
        r.span == span,
{
    let mut m: Vec<u8> = Vec::new();
    m.extend_from_slice(text.as_bytes());
    Error { kind: ErrorKind::ArgParseError { message: m }, span }
}

/// What one eager subtag invocation yields, at the specification level.
pub enum SubtagOutcome {
    /// The rendered text and the state it leaves behind.
    Value { text: Seq<u8>, vars: Map<Seq<u8>, Seq<u8>>, ticks: int },
    /// The invocation is rejected with an error of this class.
    Rejected { class: ErrorClass },
    /// The invocation reaches the capability context; its outcome is the
    /// environment's to decide.
    External,
}

/// The behaviour of every eager subtag on its evaluated arguments, over the
/// request arguments and the shared state.
pub open spec fn invoke_spec(
    kind: Subtag,
    sargs: Seq<Seq<u8>>,
    targs: Seq<Seq<u8>>,
    vars: Map<Seq<u8>, Seq<u8>>,
    ticks: int,
    side_effects: bool,
) -> SubtagOutcome {
    match kind {
        Subtag::Args => SubtagOutcome::Value { text: join_spaces(targs), vars, ticks },
        Subtag::ArgsLen => SubtagOutcome::Value {
            text: dec_bytes(targs.len() as nat),
            vars,
            ticks,
        },
        Subtag::Arg => if sargs.len() == 1 && parseable(sargs[0]) && dec_value(sargs[0])
            < targs.len() {
            SubtagOutcome::Value { text: targs[dec_value(sargs[0]) as int], vars, ticks }
        } else {
            SubtagOutcome::Rejected { class: ErrorClass::BadArgument }
        },
        Subtag::Max => if sargs.len() >= 1 && (forall|k: int|
            0 <= k < sargs.len() ==> parseable(#[trigger] sargs[k])) {
            SubtagOutcome::Value {
                text: dec_bytes(seq_max(sargs.map_values(|v: Seq<u8>| dec_value(v)))),
                vars,
                ticks,
            }
        } else {
            SubtagOutcome::Rejected { class: ErrorClass::BadArgument }
        },
        Subtag::SetVar => if sargs.len() == 2 {
            SubtagOutcome::Value {
                text: Seq::empty(),
                vars: if side_effects {
                    vars.insert(sargs[0], sargs[1])
                } else {
                    vars
                },
                ticks,
            }
        } else {
            SubtagOutcome::Rejected { class: ErrorClass::BadArgument }
        },
        Subtag::GetVar => if sargs.len() == 1 {
            SubtagOutcome::Value {
                text: if vars.contains_key(sargs[0]) {
                    vars[sargs[0]]
                } else {
                    Seq::empty()
                },
                vars,
                ticks,
            }
        } else {
            SubtagOutcome::Rejected { class: ErrorClass::BadArgument }
        },
        Subtag::Repeat => if !(sargs.len() == 2 && parseable(sargs[0])) {
            SubtagOutcome::Rejected { class: ErrorClass::BadArgument }
        } else if ticks + dec_value(sargs[0]) > ITER_LIMIT {
            SubtagOutcome::Rejected { class: ErrorClass::Budget }
        } else {
            SubtagOutcome::Value {
                text: repeat_bytes(sargs[1], dec_value(sargs[0])),
                vars,
                ticks: ticks + dec_value(sargs[0]),
            }
        },
        Subtag::Usertag => if !(sargs.len() == 1 && parseable(sargs[0])) {
            SubtagOutcome::Rejected { class: ErrorClass::BadArgument }
        } else if !side_effects {
            SubtagOutcome::Value { text: Seq::empty(), vars, ticks }
        } else {
            SubtagOutcome::External
        },
        Subtag::Attach => if sargs.len() != 1 {
            SubtagOutcome::Rejected { class: ErrorClass::BadArgument }
        } else if !side_effects {
            SubtagOutcome::Value { text: Seq::empty(), vars, ticks }
        } else {
            SubtagOutcome::External
        },
        Subtag::If | Subtag::Note => SubtagOutcome::Value { text: Seq::empty(), vars, ticks },
    }
}

/// The views of the evaluated arguments.
pub open spec fn views(items: Seq<Vec<u8>>) -> Seq<Seq<u8>> {
    items.map_values(|v: Vec<u8>| v@)
}

/// Indexing the views indexes the items.
pub proof fn lemma_views_index(items: Seq<Vec<u8>>, j: int)
    requires
        0 <= j < items.len(),
    ensures
        views(items)[j] == items[j]@,
{
}

/// Invokes an eager subtag on its evaluated arguments.
///
/// `sargs` are the invocation's own evaluated arguments, `targs` the
/// request's argument list.  The contract pins the result of every
/// deterministic subtag exactly; for the two capability-backed subtags it
/// pins everything except what the context itself decides.
#[verifier::loop_isolation(false)]
pub fn invoke_eager<C: Context>(
    kind: Subtag,
    sargs: &Vec<Vec<u8>>,
    targs: &Vec<Vec<u8>>,
    state: &mut SharedState,
    cx: &C,
    side_effects: bool,
    span: Span,
) -> (r: TResult<Vec<u8>>)
    requires
        kind != Subtag::If && kind != Subtag::Note,
        old(state).inv(),
        forall|k: int| 0 <= k < sargs@.len() ==> valid_utf8(#[trigger] sargs@[k]@),
        forall|k: int| 0 <= k < targs@.len() ==> valid_utf8(#[trigger] targs@[k]@),
    ensures
        final(state).inv(),
        final(state).ticks() >= old(state).ticks(),
        !side_effects ==> final(state).vars() == old(state).vars(),
        !side_effects ==> final(state).attachment_view() == old(state).attachment_view(),
        r is Ok ==> valid_utf8(r->Ok_0@),
        match invoke_spec(
            kind,
            views(sargs@),
            views(targs@),
            old(state).vars(),
            old(state).ticks() as int,
            side_effects,
        ) {
            SubtagOutcome::Value { text, vars, ticks } => r is Ok && r->Ok_0@ == text && final(state).vars() == vars && final(state).ticks() as int == ticks && final(state).attachment_view() == old(state).attachment_view(),
            SubtagOutcome::Rejected { class } => r is Err && error_class(r->Err_0.kind)
                == class,
            SubtagOutcome::External => true,
        },
        kind == Subtag::Args ==> r is Ok && r->Ok_0@ == join_spaces(views(targs@)) && *final(state) == *old(state),
        kind == Subtag::ArgsLen ==> r is Ok && r->Ok_0@ == dec_bytes(targs@.len() as nat)
            && *final(state) == *old(state),
        kind == Subtag::Arg ==> *final(state) == *old(state) && (r is Ok <==> sargs@.len() == 1
            && parseable(sargs@[0]@) && dec_value(sargs@[0]@) < targs@.len()) && (r is Ok
            ==> r->Ok_0@ == targs@[dec_value(sargs@[0]@) as int]@) && (r is Err
            ==> r->Err_0.kind is ArgParseError),
        kind == Subtag::Max ==> *final(state) == *old(state) && (r is Ok <==> sargs@.len() >= 1
            && (forall|k: int| 0 <= k < sargs@.len() ==> parseable(#[trigger] sargs@[k]@))) && (
        r is Ok ==> r->Ok_0@ == dec_bytes(
            seq_max(views(sargs@).map_values(|v: Seq<u8>| dec_value(v))),
        )) && (r is Err ==> r->Err_0.kind is ArgParseError),
        kind == Subtag::SetVar ==> final(state).ticks() == old(state).ticks() && final(state).attachment_view() == old(state).attachment_view() && (r is Ok <==> sargs@.len() == 2)
            && (r is Ok ==> r->Ok_0@ == Seq::<u8>::empty()) && (r is Err
            ==> r->Err_0.kind is ArgParseError && final(state).vars() == old(state).vars()) && (
        r is Ok && side_effects ==> final(state).vars() == old(state).vars().insert(
            sargs@[0]@,
            sargs@[1]@,
        )) && (r is Ok && !side_effects ==> final(state).vars() == old(state).vars()),
        kind == Subtag::GetVar ==> *final(state) == *old(state) && (r is Ok <==> sargs@.len() == 1)
            && (r is Err ==> r->Err_0.kind is ArgParseError) && (r is Ok ==> r->Ok_0@ == (
        if old(state).vars().contains_key(sargs@[0]@) {
            old(state).vars()[sargs@[0]@]
        } else {
            Seq::<u8>::empty()
        })),
        kind == Subtag::Repeat ==> final(state).vars() == old(state).vars() && final(state).attachment_view() == old(state).attachment_view() && (r is Ok <==> sargs@.len() == 2
            && parseable(sargs@[0]@) && old(state).ticks() + dec_value(sargs@[0]@)
            <= ITER_LIMIT) && (r is Ok ==> r->Ok_0@ == repeat_bytes(
            sargs@[1]@,
            dec_value(sargs@[0]@),
        ) && final(state).ticks() == old(state).ticks() + dec_value(sargs@[0]@)) && (r is Err
            ==> final(state).ticks() == old(state).ticks() && (r->Err_0.kind is ArgParseError
            || r->Err_0.kind is IterLimit)),
        kind == Subtag::Usertag ==> final(state).vars() == old(state).vars() && final(state).ticks() == old(state).ticks() && final(state).attachment_view() == old(state).attachment_view() && (!(sargs@.len() == 1 && parseable(sargs@[0]@)) ==> r is Err
            && r->Err_0.kind is ArgParseError) && (sargs@.len() == 1 && parseable(sargs@[0]@)
            && !side_effects ==> r is Ok && r->Ok_0@ == Seq::<u8>::empty()) && (sargs@.len() == 1
            && parseable(sargs@[0]@) && side_effects && r is Err
            ==> r->Err_0.kind is Nested),
        kind == Subtag::Attach ==> final(state).vars() == old(state).vars() && final(state).ticks() == old(state).ticks() && (sargs@.len() != 1 ==> r is Err
            && r->Err_0.kind is ArgParseError && final(state).attachment_view() == old(state).attachment_view()) && (sargs@.len() == 1 && !side_effects ==> r is Ok && r->Ok_0@
            == Seq::<u8>::empty() && final(state).attachment_view() == old(state).attachment_view()) && (r is Ok ==> r->Ok_0@ == Seq::<u8>::empty()) && (sargs@.len()
            == 1 && side_effects && r is Ok ==> final(state).attachment_view() is Some
            && sniff_spec((final(state).attachment_view()->0).0) == Some(
            (final(state).attachment_view()->0).1,
        )) && (sargs@.len() == 1 && side_effects && r is Err ==> final(state).attachment_view()
            == old(state).attachment_view() && (r->Err_0.kind is Nested
            || r->Err_0.kind is ArgParseError)),
{
    proof {
        assert forall|k: int| 0 <= k < sargs@.len() implies #[trigger] views(sargs@)[k]
            == sargs@[k]@ by {
            lemma_views_index(sargs@, k);
        }
        assert forall|k: int| 0 <= k < targs@.len() implies #[trigger] views(targs@)[k]
            == targs@[k]@ by {
            lemma_views_index(targs@, k);
        }
    }
    match kind {
        Subtag::Args => {
            let n = targs.len();
            let mut out: Vec<u8> = Vec::new();
            let mut k: usize = 0;
            while k < n
                invariant
                    n == targs@.len(),
                    k <= n,
                    out@ == join_spaces(views(targs@).take(k as int)),
                    forall|j: int| 0 <= j < targs@.len() ==> valid_utf8(#[trigger] targs@[j]@),
                decreases n - k,
            {
                if k > 0 {
                    out.push(32u8);
                }
                out.extend_from_slice(targs[k].as_slice());
                proof {
                    let vs = views(targs@);
                    assert(vs.take(k + 1).drop_last() =~= vs.take(k as int));
                    assert(vs.take(k + 1).last() == vs[k as int]);
                    if k == 0 {
                        assert(out@ =~= join_spaces(vs.take(k + 1)));
                    } else {
                        assert(out@ =~= join_spaces(vs.take(k as int)) + seq![32u8] + vs[
                            k as int
                        ]);
                    }
                }
                k += 1;
            }
            proof {
                assert(views(targs@).take(n as int) =~= views(targs@));
                assert forall|j: int| 0 <= j < views(targs@).len() implies valid_utf8(
                    #[trigger] views(targs@)[j],
                ) by {
                    assert(views(targs@)[j] == targs@[j]@);
                }
                lemma_join_valid(views(targs@));
            }
            Ok(out)
        },
        Subtag::ArgsLen => {
            let out = crate::text::u64_to_dec(targs.len() as u64);
            proof {
                lemma_dec_bytes_digits(targs@.len() as nat);
                lemma_ascii_valid(out@);
            }
            Ok(out)
        },
        Subtag::Arg => {
            if sargs.len() != 1 {
                return Err(arg_error("expected one index argument", span));
            }
            match parse_u64(&sargs[0]) {
                None => Err(arg_error("expected a numeric index", span)),
                Some(idx) => {
                    if idx >= targs.len() as u64 {
                        return Err(arg_error("argument index out of range", span));
                    }
                    let out = crate::text::copy_range(
                        &targs[idx as usize],
                        0,
                        targs[idx as usize].len(),
                    );
                    proof {
                        assert(targs@[idx as int]@.subrange(0, targs@[idx as int]@.len() as int)
                            =~= targs@[idx as int]@);
                    }
                    Ok(out)
                },
            }
        },
        Subtag::Max => {
            if sargs.len() == 0 {
                return Err(arg_error("expected at least one number", span));
            }
            let n = sargs.len();
            let ghost vals = views(sargs@).map_values(|v: Seq<u8>| dec_value(v));
            let mut best: u64 = 0;
            let mut k: usize = 0;
            while k < n
                invariant
                    n == sargs@.len(),
                    0 < n,
                    k <= n,
                    vals == views(sargs@).map_values(|v: Seq<u8>| dec_value(v)),
                    forall|j: int| 0 <= j < k ==> parseable(#[trigger] sargs@[j]@),
                    k > 0 ==> best as nat == seq_max(vals.take(k as int)),
                decreases n - k,
            {
                match parse_u64(&sargs[k]) {
                    None => {
                        assert(!parseable(sargs@[k as int]@));
                        return Err(arg_error("expected a number", span));
                    },
                    Some(v) => {
                        proof {
                            assert(vals.take(k + 1).drop_last() =~= vals.take(k as int));
                            assert(vals.take(k + 1).last() == vals[k as int]);
                            assert(vals[k as int] == dec_value(sargs@[k as int]@));
                        }
                        if k == 0 {
                            best = v;
                            proof {
                                assert(seq_max(vals.take(1)) == vals[0]);
                            }
                        } else if v > best {
                            best = v;
                        }
                    },
                }
                k += 1;
            }
            proof {
                assert(vals.take(n as int) =~= vals);
            }
            let out = crate::text::u64_to_dec(best);
            proof {
                lemma_dec_bytes_digits(best as nat);
                lemma_ascii_valid(out@);
            }
            Ok(out)
        },
        Subtag::SetVar => {
            if sargs.len() != 2 {
                return Err(arg_error("expected a name and a value", span));
            }
            if side_effects {
                let name = crate::text::copy_range(&sargs[0], 0, sargs[0].len());
                let value = crate::text::copy_range(&sargs[1], 0, sargs[1].len());
                proof {
                    assert(sargs@[0]@.subrange(0, sargs@[0]@.len() as int) =~= sargs@[0]@);
                    assert(sargs@[1]@.subrange(0, sargs@[1]@.len() as int) =~= sargs@[1]@);
                }
                state.set_var(name, value);
            }
            let out: Vec<u8> = Vec::new();
            proof {
                reveal_with_fuel(valid_utf8, 1);
            }
            Ok(out)
        },
        Subtag::GetVar => {
            if sargs.len() != 1 {
                return Err(arg_error("expected a variable name", span));
            }
            match state.get_var(&sargs[0]) {
                Some(v) => Ok(v),
                None => {
                    let out: Vec<u8> = Vec::new();
                    proof {
                        reveal_with_fuel(valid_utf8, 1);
                    }
                    Ok(out)
                },
            }
        },
        Subtag::Repeat => {
            if sargs.len() != 2 {
                return Err(arg_error("expected a count and text", span));
            }
            match parse_u64(&sargs[0]) {
                None => Err(arg_error("expected a numeric count", span)),
                Some(count) => {
                    let used = state.counter();
                    proof {
                        state.lemma_ticks_bounded();
                    }
                    if count > ITER_LIMIT - used {
                        return Err(
                            Error { kind: ErrorKind::IterLimit { limit: ITER_LIMIT }, span },
                        );
                    }
                    let mut out: Vec<u8> = Vec::new();
                    let mut k: u64 = 0;
                    proof {
                        reveal_with_fuel(valid_utf8, 1);
                    }
                    while k < count
                        invariant
                            state.inv(),
                            sargs@.len() == 2,
                            k <= count,
                            count as nat == dec_value(sargs@[0]@),
                            state.ticks() == used + k,
                            used + count <= ITER_LIMIT,
                            state.vars() == old(state).vars(),
                            state.attachment_view() == old(state).attachment_view(),
                            out@ == repeat_bytes(sargs@[1]@, k as nat),
                        decreases count - k,
                    {
                        let ticked = state.try_tick();
                        assert(ticked);
                        out.extend_from_slice(sargs[1].as_slice());
                        k += 1;
                    }
                    proof {
                        lemma_repeat_valid(sargs@[1]@, count as nat);
                    }
                    Ok(out)
                },
            }
        },
        Subtag::Usertag => {
            if sargs.len() != 1 {
                return Err(arg_error("expected a reference id", span));
            }
            match parse_u64(&sargs[0]) {
                None => Err(arg_error("expected a numeric reference id", span)),
                Some(id) => {
                    if !side_effects {
                        let out: Vec<u8> = Vec::new();
                        proof {
                            reveal_with_fuel(valid_utf8, 1);
                        }
                        return Ok(out);
                    }
                    match cx.resolve_reference(id) {
                        Ok(text) => {
                            let out = text.as_str().as_bytes_vec();
                            proof {
                                encode_utf8_valid_utf8(text@);
                            }
                            Ok(out)
                        },
                        Err(m) => {
                            let message = m.as_str().as_bytes_vec();
                            proof {
                                encode_utf8_valid_utf8(m@);
                            }
                            Err(
                                Error {
                                    kind: ErrorKind::Nested {
                                        inner: Box::new(
                                            Error {
                                                kind: ErrorKind::Capability { message },
                                                span,
                                            },
                                        ),
                                    },
                                    span,
                                },
                            )
                        },
                    }
                },
            }
        },
        Subtag::Attach => {
            if sargs.len() != 1 {
                return Err(arg_error("expected a reference to fetch", span));
            }
            if !side_effects {
                let out: Vec<u8> = Vec::new();
                proof {
                    reveal_with_fuel(valid_utf8, 1);
                }
                return Ok(out);
            }
            match cx.fetch_bytes(&sargs[0]) {
                Err(m) => {
                    let message = m.as_str().as_bytes_vec();
                    proof {
                        encode_utf8_valid_utf8(m@);
                    }
                    Err(
                        Error {
                            kind: ErrorKind::Nested {
                                inner: Box::new(
                                    Error { kind: ErrorKind::Capability { message }, span },
                                ),
                            },
                            span,
                        },
                    )
                },
                Ok(data) => {
                    match sniff_media_kind(&data) {
                        None => Err(arg_error("unsupported attachment data", span)),
                        Some(mk) => {
                            state.set_attachment(data, mk);
                            let out: Vec<u8> = Vec::new();
                            proof {
                                reveal_with_fuel(valid_utf8, 1);
                            }
                            Ok(out)
                        },
                    }
                },
            }
        },
        Subtag::If | Subtag::Note => {
            // Excluded by the precondition: the selective subtags never
            // reach the eager dispatcher.  The arm keeps the match total.
            let out: Vec<u8> = Vec::new();
            proof {
                reveal_with_fuel(valid_utf8, 1);
            }
            Ok(out)
        },
    }
}

} // verus!
