//! A compiler for a small boolean filter-expression language: field equality
//! and inequality, set membership, `AND`/`OR`/`NOT` and parentheses. A raw
//! expression string is tokenized, parsed by precedence, and serialized to a
//! canonical nested key-value tree; any lexical or structural failure is
//! reported as a single message carrying the offending source fragment.
use vstd::prelude::*;

pub mod emit;
pub mod grammar;
pub mod lexer;

use crate::emit::json_of;
use crate::emit::serialize;
use crate::grammar::Expected;
use crate::grammar::SpecFilter;
use crate::grammar::parse;
use crate::grammar::parse_start;
use crate::lexer::Span;
use crate::lexer::SpecToken;
use crate::lexer::TokenStream;
use crate::lexer::lex_spec;
use crate::lexer::tokenize;

verus! {

/// The bytes of a source span, empty where the span does not lie inside the
/// source.
pub open spec fn span_frag(s: Seq<u8>, sp: Span) -> Seq<u8> {
    if sp.start <= sp.end <= s.len() {
        s.subrange(sp.start as int, sp.end as int)
    } else {
        Seq::empty()
    }
}

/// The span reported for a parse failure at a cursor position: the span of
/// the token there, or the degenerate end-of-input span.
pub open spec fn span_of_pos(toks: Seq<(SpecToken, Span)>, pos: int, size: int) -> Span {
    if 0 <= pos < toks.len() {
        toks[pos].1
    } else {
        Span { start: size as usize, end: size as usize }
    }
}

/// The bare token sequence of a lexed token list.
pub open spec fn toks_only(toks: Seq<(SpecToken, Span)>) -> Seq<SpecToken> {
    toks.map_values(|p: (SpecToken, Span)| p.0)
}

/// `syntax error: `
pub open spec fn msg_syntax() -> Seq<u8> {
    seq![115u8, 121u8, 110u8, 116u8, 97u8, 120u8, 32u8, 101u8, 114u8, 114u8, 111u8, 114u8, 58u8, 32u8]
}

/// `unexpected token: `
pub open spec fn msg_unexpected() -> Seq<u8> {
    seq![117u8, 110u8, 101u8, 120u8, 112u8, 101u8, 99u8, 116u8, 101u8, 100u8, 32u8, 116u8, 111u8, 107u8, 101u8, 110u8, 58u8, 32u8]
}

/// `, expected `
pub open spec fn msg_expected_sep() -> Seq<u8> {
    seq![44u8, 32u8, 101u8, 120u8, 112u8, 101u8, 99u8, 116u8, 101u8, 100u8, 32u8]
}

/// The wording for each set of expected alternatives.
pub open spec fn expected_text(e: Expected) -> Seq<u8> {
    match e {
        // `a field, NOT or (`
        Expected::AtomStart => seq![97u8, 32u8, 102u8, 105u8, 101u8, 108u8, 100u8, 44u8, 32u8, 78u8, 79u8, 84u8, 32u8, 111u8, 114u8, 32u8, 40u8],
        // `=, !=, IN or NOT IN`
        Expected::FieldOp => seq![61u8, 44u8, 32u8, 33u8, 61u8, 44u8, 32u8, 73u8, 78u8, 32u8, 111u8, 114u8, 32u8, 78u8, 79u8, 84u8, 32u8, 73u8, 78u8],
        // `a string value`
        Expected::Value => seq![97u8, 32u8, 115u8, 116u8, 114u8, 105u8, 110u8, 103u8, 32u8, 118u8, 97u8, 108u8, 117u8, 101u8],
        // `IN`
        Expected::InKeyword => seq![73u8, 78u8],
        // `[`
        Expected::ListStart => seq![91u8],
        // `a string value or ]`
        Expected::ListElem => seq![97u8, 32u8, 115u8, 116u8, 114u8, 105u8, 110u8, 103u8, 32u8, 118u8, 97u8, 108u8, 117u8, 101u8, 32u8, 111u8, 114u8, 32u8, 93u8],
        // `, or ]`
        Expected::CommaOrRBracket => seq![44u8, 32u8, 111u8, 114u8, 32u8, 93u8],
        // `)`
        Expected::CloseParen => seq![41u8],
        // `AND, OR or end of input`
        Expected::OpOrEnd => seq![65u8, 78u8, 68u8, 44u8, 32u8, 79u8, 82u8, 32u8, 111u8, 114u8, 32u8, 101u8, 110u8, 100u8, 32u8, 111u8, 102u8, 32u8, 105u8, 110u8, 112u8, 117u8, 116u8],
    }
}

/// The whole compiler as a function of the source bytes: tokenize, parse,
/// serialize; the first lexical or structural failure yields the message
/// with the offending source fragment, and for a parse failure also the
/// expected alternatives.
pub open spec fn compile_spec(s: Seq<u8>) -> Result<Seq<u8>, Seq<u8>> {
    match lex_spec(s, 0) {
        Err(sp) => Err(msg_syntax() + span_frag(s, sp)),
        Ok(toks) => match parse_start(toks_only(toks)) {
            Ok(f) => Ok(json_of(f)),
            Err(e) => Err(
                msg_unexpected() + span_frag(s, span_of_pos(toks, e.at as int, s.len() as int))
                    + msg_expected_sep() + expected_text(e.expected),
            ),
        },
    }
}

/// Append the bytes of a source span, or nothing where the span does not lie
/// inside the source.
fn push_frag(src: &[u8], sp: Span, out: &mut Vec<u8>)
    ensures
        final(out)@ == old(out)@ + span_frag(src@, sp),
{
    let ghost base = out@;
    if sp.start <= sp.end && sp.end <= src.len() {
        let mut k: usize = sp.start;
        while k < sp.end
            invariant
                sp.start <= k <= sp.end <= src@.len(),
                out@ == base + src@.subrange(sp.start as int, k as int),
            decreases sp.end - k,
        {
            out.push(src[k]);
            k = k + 1;
            proof {
                assert(src@.subrange(sp.start as int, k as int) =~= src@.subrange(
                    sp.start as int,
                    k - 1,
                ).push(src@[k - 1]));
            }
        }
    } else {
        proof {
            assert(out@ =~= base + span_frag(src@, sp));
        }
    }
}

/// `syntax error: `
fn push_msg_syntax(out: &mut Vec<u8>)
    ensures
        final(out)@ == old(out)@ + msg_syntax(),
{
    let ghost base = out@;
    out.push(115);
    out.push(121);
    out.push(110);
    out.push(116);
    out.push(97);
    out.push(120);
    out.push(32);
    out.push(101);
    out.push(114);
    out.push(114);
    out.push(111);
    out.push(114);
    out.push(58);
    out.push(32);
    proof {
        assert(out@ =~= base + msg_syntax());
    }
}

/// `unexpected token: `
fn push_msg_unexpected(out: &mut Vec<u8>)
    ensures
        final(out)@ == old(out)@ + msg_unexpected(),
{
    let ghost base = out@;
    out.push(117);
    out.push(110);
    out.push(101);
    out.push(120);
    out.push(112);
    out.push(101);
    out.push(99);
    out.push(116);
    out.push(101);
    out.push(100);
    out.push(32);
    out.push(116);
    out.push(111);
    out.push(107);
    out.push(101);
    out.push(110);
    out.push(58);
    out.push(32);
    proof {
        assert(out@ =~= base + msg_unexpected());
    }
}

/// `, expected `
fn push_msg_expected_sep(out: &mut Vec<u8>)
    ensures
        final(out)@ == old(out)@ + msg_expected_sep(),
{
    let ghost base = out@;
    out.push(44);
    out.push(32);
    out.push(101);
    out.push(120);
    out.push(112);
    out.push(101);
    out.push(99);
    out.push(116);
    out.push(101);
    out.push(100);
    out.push(32);
    proof {
        assert(out@ =~= base + msg_expected_sep());
    }
}

/// The wording for each set of expected alternatives.
#[verifier::rlimit(50)]
fn push_expected_text(e: Expected, out: &mut Vec<u8>)
    ensures
        final(out)@ == old(out)@ + expected_text(e),
{
    let ghost base = out@;
    match e {
        Expected::AtomStart => {
            out.push(97);
            out.push(32);
            out.push(102);
            out.push(105);
            out.push(101);
            out.push(108);
            out.push(100);
            out.push(44);
            out.push(32);
            out.push(78);
            out.push(79);
            out.push(84);
            out.push(32);
            out.push(111);
            out.push(114);
            out.push(32);
            out.push(40);
        },
        Expected::FieldOp => {
            out.push(61);
            out.push(44);
            out.push(32);
            out.push(33);
            out.push(61);
            out.push(44);
            out.push(32);
            out.push(73);
            out.push(78);
            out.push(32);
            out.push(111);
            out.push(114);
            out.push(32);
            out.push(78);
            out.push(79);
            out.push(84);
            out.push(32);
            out.push(73);
            out.push(78);
        },
        Expected::Value => {
            out.push(97);
            out.push(32);
            out.push(115);
            out.push(116);
            out.push(114);
            out.push(105);
            out.push(110);
            out.push(103);
            out.push(32);
            out.push(118);
            out.push(97);
            out.push(108);
            out.push(117);
            out.push(101);
        },
        Expected::InKeyword => {
            out.push(73);
            out.push(78);
        },
        Expected::ListStart => {
            out.push(91);
        },
        Expected::ListElem => {
            out.push(97);
            out.push(32);
            out.push(115);
            out.push(116);
            out.push(114);
            out.push(105);
            out.push(110);
            out.push(103);
            out.push(32);
            out.push(118);
            out.push(97);
            out.push(108);
            out.push(117);
            out.push(101);
            out.push(32);
            out.push(111);
            out.push(114);
            out.push(32);
            out.push(93);
        },
        Expected::CommaOrRBracket => {
            out.push(44);
            out.push(32);
            out.push(111);
            out.push(114);
            out.push(32);
            out.push(93);
        },
        Expected::CloseParen => {
            out.push(41);
        },
        Expected::OpOrEnd => {
            out.push(65);
            out.push(78);
            out.push(68);
            out.push(44);
            out.push(32);
            out.push(79);
            out.push(82);
            out.push(32);
            out.push(111);
            out.push(114);
            out.push(32);
            out.push(101);
            out.push(110);
            out.push(100);
            out.push(32);
            out.push(111);
            out.push(102);
            out.push(32);
            out.push(105);
            out.push(110);
            out.push(112);
            out.push(117);
            out.push(116);
        },
    }
    proof {
        assert(out@ =~= base + expected_text(e));
    }
}

/// Compile a filter expression: tokenize the whole input, parse it, and
/// serialize the resulting tree to its canonical text; on the first lexical
/// or structural failure, return instead a message carrying the offending
/// source fragment and, for a parse failure, the expected alternatives.
pub fn compile(input: &[u8]) -> (r: Result<Vec<u8>, Vec<u8>>)
    ensures
        match r {
            Ok(v) => compile_spec(input@) == Ok::<Seq<u8>, Seq<u8>>(v@),
            Err(m) => compile_spec(input@) == Err::<Seq<u8>, Seq<u8>>(m@),
        },
{
    match tokenize(input) {
        Err(sp) => {
            let mut m: Vec<u8> = Vec::new();
            push_msg_syntax(&mut m);
            push_frag(input, sp, &mut m);
            proof {
                assert(m@ =~= Seq::<u8>::empty() + msg_syntax() + span_frag(input@, sp));
                assert(m@ =~= msg_syntax() + span_frag(input@, sp));
            }
            Err(m)
        },
        Ok(tokens) => {
            let ghost toks = crate::lexer::toks_model(tokens@);
            let st = TokenStream { size: input.len(), tokens };
            proof {
                assert(st.model() == toks);
                assert(st.tok_seq() =~= toks_only(toks));
            }
            match parse(&st) {
                Ok(f) => Ok(serialize(&f)),
                Err(e) => {
                    let loc = st.position_repr(e.at);
                    let sp = Span { start: loc.0, end: loc.1 };
                    proof {
                        if e.at < st.tokens@.len() {
                            assert(toks[e.at as int].1 == st.tokens@[e.at as int].1);
                        }
                        assert(sp == span_of_pos(toks, e.at as int, input@.len() as int));
                    }
                    let mut m: Vec<u8> = Vec::new();
                    push_msg_unexpected(&mut m);
                    push_frag(input, sp, &mut m);
                    push_msg_expected_sep(&mut m);
                    push_expected_text(e.expected, &mut m);
                    proof {
                        assert(m@ =~= msg_unexpected() + span_frag(input@, sp)
                            + msg_expected_sep() + expected_text(e.expected));
                    }
                    Err(m)
                },
            }
        },
    }
}

/// Success and failure are exact. Compilation succeeds exactly when the
/// input tokenizes and parses whole; the success text is the serialization
/// of the parsed tree, never a partial or default one. Every failure message
/// is a fixed prefix followed by the offending source fragment, and for a
/// parse failure also the expected alternatives.
pub proof fn lemma_compile_outcomes(s: Seq<u8>)
    ensures
        compile_spec(s) is Ok <==> (lex_spec(s, 0) matches Ok(toks) && parse_start(
            toks_only(toks),
        ) is Ok),
        lex_spec(s, 0) matches Ok(toks) ==> (parse_start(toks_only(toks)) matches Ok(f)
            ==> compile_spec(s) == Ok::<Seq<u8>, Seq<u8>>(json_of(f))),
        lex_spec(s, 0) matches Err(sp) ==> compile_spec(s) == Err::<Seq<u8>, Seq<u8>>(
            msg_syntax() + span_frag(s, sp),
        ),
        lex_spec(s, 0) matches Ok(toks) ==> (parse_start(toks_only(toks)) matches Err(e)
            ==> compile_spec(s) == Err::<Seq<u8>, Seq<u8>>(
            msg_unexpected() + span_frag(s, span_of_pos(toks, e.at as int, s.len() as int))
                + msg_expected_sep() + expected_text(e.expected),
        )),
{
    match lex_spec(s, 0) {
        Ok(toks) => {
            match parse_start(toks_only(toks)) {
                Ok(f) => {
                    assert(compile_spec(s) == Ok::<Seq<u8>, Seq<u8>>(json_of(f)));
                },
                Err(e) => {
                    assert(compile_spec(s) == Err::<Seq<u8>, Seq<u8>>(
                        msg_unexpected() + span_frag(
                            s,
                            span_of_pos(toks, e.at as int, s.len() as int),
                        ) + msg_expected_sep() + expected_text(e.expected),
                    ));
                },
            }
        },
        Err(sp) => {},
    }
}

/// The compiler is deterministic: two compilations of the same source bytes
/// give the same outcome, byte for byte, on success and on failure alike.
pub proof fn lemma_compile_deterministic(
    s: Seq<u8>,
    r1: Result<Seq<u8>, Seq<u8>>,
    r2: Result<Seq<u8>, Seq<u8>>,
)
    requires
        r1 == compile_spec(s),
        r2 == compile_spec(s),
    ensures
        r1 == r2,
{
}

/// Serialization is stable: two serializations of the same constructed tree
/// give identical text.
pub proof fn lemma_serialize_stable(f: SpecFilter, a: Seq<u8>, b: Seq<u8>)
    requires
        a == json_of(f),
        b == json_of(f),
    ensures
        a == b,
{
}

} // verus!
