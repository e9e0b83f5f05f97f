//! A template-scripting engine for chat-bot text snippets ("tags").
//!
//! Raw input bytes are scanned for `{name:arg|arg|...}` invocations, which
//! are resolved against a fixed subtag table and evaluated depth-first,
//! left-to-right, under a shared iteration budget.  Evaluation either renders
//! the whole input into a string (plus at most one attachment) or fails with
//! a structured, span-carrying error that [`errors::format_error`] can turn
//! into a location-anchored report.

use vstd::prelude::*;
use vstd::string::StrSliceExecFns;
use vstd::string::StringSliceAdditionalSpecFns;
use vstd::utf8::{encode_utf8, encode_utf8_decode_utf8, encode_utf8_valid_utf8,
    is_char_boundary_start_end_of_seq, valid_utf8};

mod context;
pub mod discord;
pub mod effects;
pub mod errors;
pub mod flux;
pub mod parser;
pub mod procinfo;
pub mod registry;
mod state;
pub mod subtags;
mod text;

pub use context::{Context, NopContext};
pub use parser::{Parser, MAX_DEPTH};
pub use state::{MediaKind, SharedState, ITER_LIMIT};
pub use text::bytes_eq;

use errors::{error_class, TResult};
use parser::{eval_spec, no_specials, Evaluation};

verus! {

/// Relies on `String::from_utf8`: on valid UTF-8 input it returns the string
/// whose encoding is exactly those bytes.
#[verifier::external_body]
pub(crate) fn string_from_utf8(bytes: Vec<u8>) -> (r: String)
    requires
        valid_utf8(bytes@),
    ensures
        encode_utf8(r@) == bytes@,
{
    match String::from_utf8(bytes) {
        Ok(s) => s,
        Err(_) => String::new(),
    }
}

/// The byte views of the request arguments.
pub open spec fn args_bytes(args: Seq<String>) -> Seq<Seq<u8>> {
    args.map_values(|s: String| encode_utf8(s@))
}

/// What evaluating a whole tag against its arguments yields, at the
/// specification level: a fresh store and a zeroed budget, side effects
/// permitted.
pub open spec fn render_spec(bytes: Seq<u8>, targs: Seq<Seq<u8>>) -> Evaluation {
    eval_spec(bytes, 0, bytes.len() as int, targs, Map::empty(), 0, true, 0)
}

/// What one successful top-level evaluation yields: the rendered output and
/// at most one attachment.
#[derive(Debug)]
pub struct ParseResult {
    pub output: String,
    pub attachment: Option<(Vec<u8>, MediaKind)>,
}

/// Evaluates a whole tag: `input` is rendered against the request arguments
/// `args`, reaching the platform only through `cx`.  Side effects are
/// permitted.  A fresh shared state backs the request, so nothing of it is
/// observable by any other request.
///
/// The result is exactly what [`render_spec`] — the engine's
/// specification-level evaluation — says: the rendered text and success on
/// the one hand, or an error of exactly the class the specification gives,
/// except where evaluation reaches the capability context and the outcome
/// is the environment's.  Input without invocations or escapes renders to
/// itself, with no attachment.
pub fn parse<C: Context>(input: &str, args: &Vec<String>, cx: &C) -> (r: TResult<ParseResult>)
    ensures
        match render_spec(input.spec_bytes(), args_bytes(args@)) {
            Evaluation::Rendered { text, vars, ticks } => r is Ok && encode_utf8(
                r->Ok_0.output@,
            ) == text && r->Ok_0.attachment is None,
            Evaluation::Refused { class } => r is Err && error_class(r->Err_0.kind) == class,
            Evaluation::External => true,
        },
        no_specials(input.spec_bytes(), 0, input.spec_bytes().len() as int) ==> r is Ok
            && r->Ok_0.output@ == input@ && r->Ok_0.attachment is None,
{
    let bytes: Vec<u8> = input.as_bytes_vec();
    let n = args.len();
    let mut targs: Vec<Vec<u8>> = Vec::new();
    let mut k: usize = 0;
    while k < n
        invariant
            n == args@.len(),
            k <= n,
            targs@.len() == k,
            forall|j: int| 0 <= j < k ==> valid_utf8((#[trigger] targs@[j])@),
            crate::subtags::views(targs@) == args_bytes(args@).take(k as int),
        decreases n - k,
    {
        let ghost before = targs@;
        let v: Vec<u8> = args[k].as_str().as_bytes_vec();
        proof {
            encode_utf8_valid_utf8(args@[k as int]@);
        }
        targs.push(v);
        proof {
            assert(crate::subtags::views(targs@) =~= args_bytes(args@).take(k + 1));
        }
        k += 1;
    }
    proof {
        assert(crate::subtags::views(targs@) =~= args_bytes(args@));
    }
    let mut p = Parser::new(targs);
    proof {
        encode_utf8_valid_utf8(input@);
        is_char_boundary_start_end_of_seq(bytes@);
        if no_specials(input.spec_bytes(), 0, input.spec_bytes().len() as int) {
            parser::lemma_eval_literal(
                bytes@,
                0,
                bytes@.len() as int,
                args_bytes(args@),
                Map::empty(),
                0,
                true,
                0,
            );
        }
    }
    let out = match p.eval_segment(&bytes, 0, bytes.len(), cx, true, 0) {
        Ok(o) => o,
        Err(e) => {
            return Err(e);
        },
    };
    let output = string_from_utf8(out);
    proof {
        if no_specials(input.spec_bytes(), 0, input.spec_bytes().len() as int) {
            assert(bytes@.subrange(0, bytes@.len() as int) =~= bytes@);
            encode_utf8_decode_utf8(output@);
            encode_utf8_decode_utf8(input@);
        }
    }
    let attachment = p.finish();
    Ok(ParseResult { output, attachment })
}

/// Evaluates a sub-expression against a parent request's shared state: the
/// remaining iteration budget and the variable bindings cross into the
/// nested parse and back.  `side_effects` may force effects off for the
/// nested evaluation.
///
/// The result, and what the nested parse leaves in the parent's variable
/// store and budget, are exactly what [`parser::eval_spec`] says, except
/// where evaluation reaches the capability context.  The parent's budget
/// never shrinks, and with side effects off its variable store and
/// attachment slot come back exactly as they went in.  Callers that splice
/// a failure of this parse into an outer evaluation should wrap it in a
/// nested error.
pub fn parse_with_parent<C: Context>(
    input: &str,
    parent: &mut Parser,
    cx: &C,
    side_effects: bool,
) -> (r: TResult<String>)
    requires
        old(parent).inv(),
    ensures
        final(parent).inv(),
        final(parent).targs() == old(parent).targs(),
        final(parent).shared().ticks() >= old(parent).shared().ticks(),
        !side_effects ==> final(parent).shared().vars() == old(parent).shared().vars(),
        !side_effects ==> final(parent).shared().attachment_view() == old(parent).shared().attachment_view(),
        match eval_spec(
            input.spec_bytes(),
            0,
            input.spec_bytes().len() as int,
            old(parent).targs(),
            old(parent).shared().vars(),
            old(parent).shared().ticks() as int,
            side_effects,
            0,
        ) {
            Evaluation::Rendered { text, vars, ticks } => r is Ok && encode_utf8(r->Ok_0@)
                == text && final(parent).shared().vars() == vars && final(parent).shared().ticks() as int == ticks && final(parent).shared().attachment_view()
                == old(parent).shared().attachment_view(),
            Evaluation::Refused { class } => r is Err && error_class(r->Err_0.kind) == class,
            Evaluation::External => true,
        },
        no_specials(input.spec_bytes(), 0, input.spec_bytes().len() as int) ==> r is Ok
            && r->Ok_0@ == input@ && final(parent).shared().vars() == old(parent).shared().vars()
            && final(parent).shared().ticks() == old(parent).shared().ticks() && final(parent).shared().attachment_view() == old(parent).shared().attachment_view(),
{
    let bytes: Vec<u8> = input.as_bytes_vec();
    proof {
        encode_utf8_valid_utf8(input@);
        is_char_boundary_start_end_of_seq(bytes@);
        if no_specials(input.spec_bytes(), 0, input.spec_bytes().len() as int) {
            parser::lemma_eval_literal(
                bytes@,
                0,
                bytes@.len() as int,
                old(parent).targs(),
                old(parent).shared().vars(),
                old(parent).shared().ticks() as int,
                side_effects,
                0,
            );
        }
    }
    match parent.eval_segment(&bytes, 0, bytes.len(), cx, side_effects, 0) {
        Ok(o) => {
            let s = string_from_utf8(o);
            proof {
                if no_specials(input.spec_bytes(), 0, input.spec_bytes().len() as int) {
                    assert(bytes@.subrange(0, bytes@.len() as int) =~= bytes@);
                    encode_utf8_decode_utf8(s@);
                    encode_utf8_decode_utf8(input@);
                }
            }
            Ok(s)
        },
        Err(e) => Err(e),
    }
}

} // verus!
