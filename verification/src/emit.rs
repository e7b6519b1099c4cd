use vstd::prelude::*;

use crate::grammar::Filter;
use crate::grammar::SpecFilter;
use crate::grammar::filter_model;

verus! {

/// The hexadecimal digit for a value below sixteen, lower-cased.
pub open spec fn hex_digit(x: u8) -> u8 {
    if x < 10 {
        (48 + x) as u8
    } else {
        (87 + x) as u8
    }
}

/// How one byte appears inside a JSON string literal: the quote and the
/// backslash are escaped, the named control characters take their short
/// escapes, any other control character takes a four-digit unicode escape,
/// and every other byte stands for itself.
pub open spec fn esc_byte(b: u8) -> Seq<u8> {
    if b == 34 {
        seq![92u8, 34u8]
    } else if b == 92 {
        seq![92u8, 92u8]
    } else if b == 8 {
        seq![92u8, 98u8]
    } else if b == 9 {
        seq![92u8, 116u8]
    } else if b == 10 {
        seq![92u8, 110u8]
    } else if b == 12 {
        seq![92u8, 102u8]
    } else if b == 13 {
        seq![92u8, 114u8]
    } else if b < 32 {
        seq![92u8, 117u8, 48u8, 48u8, hex_digit(b / 16), hex_digit(b % 16)]
    } else {
        seq![b]
    }
}

pub open spec fn escaped(s: Seq<u8>) -> Seq<u8>
    decreases s.len(),
{
    if s.len() == 0 {
        Seq::empty()
    } else {
        esc_byte(s[0]) + escaped(s.subrange(1, s.len() as int))
    }
}

/// A JSON string literal: the escaped bytes between double quotes.
pub open spec fn json_str(s: Seq<u8>) -> Seq<u8> {
    seq![34u8] + escaped(s) + seq![34u8]
}

proof fn lemma_escaped_snoc(s: Seq<u8>, b: u8)
    ensures
        escaped(s.push(b)) == escaped(s) + esc_byte(b),
    decreases s.len(),
{
    if s.len() == 0 {
        assert(s.push(b)[0] == b);
        assert(s.push(b).subrange(1, 1) =~= Seq::<u8>::empty());
        assert(s =~= Seq::<u8>::empty());
        assert(escaped(Seq::<u8>::empty()) == Seq::<u8>::empty());
        assert(escaped(s.push(b)) == esc_byte(b) + escaped(Seq::<u8>::empty()));
        assert(escaped(s.push(b)) =~= escaped(s) + esc_byte(b));
    } else {
        assert(s.push(b).subrange(1, s.len() as int + 1) =~= s.subrange(1, s.len() as int).push(
            b,
        ));
        lemma_escaped_snoc(s.subrange(1, s.len() as int), b);
        assert(escaped(s.push(b)) == esc_byte(s[0]) + (escaped(s.subrange(1, s.len() as int))
            + esc_byte(b)));
        assert(esc_byte(s[0]) + (escaped(s.subrange(1, s.len() as int)) + esc_byte(b)) =~= (
        esc_byte(s[0]) + escaped(s.subrange(1, s.len() as int))) + esc_byte(b));
    }
}

// The fixed fragments of the canonical tree encoding.
/// `{"$or":[`
pub open spec fn lit_or() -> Seq<u8> {
    seq![123u8, 34u8, 36u8, 111u8, 114u8, 34u8, 58u8, 91u8]
}

/// `{"$and":[`
pub open spec fn lit_and() -> Seq<u8> {
    seq![123u8, 34u8, 36u8, 97u8, 110u8, 100u8, 34u8, 58u8, 91u8]
}

/// `{"$not":`
pub open spec fn lit_not() -> Seq<u8> {
    seq![123u8, 34u8, 36u8, 110u8, 111u8, 116u8, 34u8, 58u8]
}

/// `{"$eq":{"field":`
pub open spec fn lit_eq_head() -> Seq<u8> {
    seq![123u8, 34u8, 36u8, 101u8, 113u8, 34u8, 58u8, 123u8, 34u8, 102u8, 105u8, 101u8, 108u8, 100u8, 34u8, 58u8]
}

/// `,"value":`
pub open spec fn lit_value() -> Seq<u8> {
    seq![44u8, 34u8, 118u8, 97u8, 108u8, 117u8, 101u8, 34u8, 58u8]
}

/// `{"$in":{"field":`
pub open spec fn lit_in_head() -> Seq<u8> {
    seq![123u8, 34u8, 36u8, 105u8, 110u8, 34u8, 58u8, 123u8, 34u8, 102u8, 105u8, 101u8, 108u8, 100u8, 34u8, 58u8]
}

/// `,"values":[`
pub open spec fn lit_values() -> Seq<u8> {
    seq![44u8, 34u8, 118u8, 97u8, 108u8, 117u8, 101u8, 115u8, 34u8, 58u8, 91u8]
}

/// The elements of a value list from index `k` on, each preceded by a comma.
pub open spec fn json_rest(vs: Seq<Seq<u8>>, k: int) -> Seq<u8>
    decreases vs.len() - k,
{
    if k < 0 || k >= vs.len() {
        Seq::empty()
    } else {
        seq![44u8] + json_str(vs[k]) + json_rest(vs, k + 1)
    }
}

/// A comma-separated list of JSON string literals.
pub open spec fn json_list(vs: Seq<Seq<u8>>) -> Seq<u8> {
    if vs.len() == 0 {
        Seq::empty()
    } else {
        json_str(vs[0]) + json_rest(vs, 1)
    }
}

/// The canonical serialized text of a filter tree: nested objects under the
/// keys `$or`, `$and`, `$not`, `$eq` and `$in`, with leaves carrying `field`
/// and `value` or `values`.
pub open spec fn json_of(f: SpecFilter) -> Seq<u8>
    decreases f,
{
    match f {
        SpecFilter::Or(l, r) => lit_or() + json_of(*l) + seq![44u8] + json_of(*r) + seq![
            93u8,
            125u8,
        ],
        SpecFilter::And(l, r) => lit_and() + json_of(*l) + seq![44u8] + json_of(*r) + seq![
            93u8,
            125u8,
        ],
        SpecFilter::Not(x) => lit_not() + json_of(*x) + seq![125u8],
        SpecFilter::FieldEq(fld, v) => lit_eq_head() + json_str(fld) + lit_value() + json_str(v)
            + seq![125u8, 125u8],
        SpecFilter::FieldIn(fld, vs) => lit_in_head() + json_str(fld) + lit_values() + json_list(
            vs,
        ) + seq![93u8, 125u8, 125u8],
    }
}

fn hex_b(x: u8) -> (r: u8)
    requires
        x < 16,
    ensures
        r == hex_digit(x),
{
    if x < 10 {
        48 + x
    } else {
        87 + x
    }
}

/// Append a JSON string literal for the given bytes.
fn emit_str(s: &Vec<u8>, out: &mut Vec<u8>)
    ensures
        final(out)@ == old(out)@ + json_str(s@),
{
    let ghost base = out@;
    out.push(34);
    let mut k: usize = 0;
    while k < s.len()
        invariant
            k <= s@.len(),
            out@ == base + seq![34u8] + escaped(s@.subrange(0, k as int)),
        decreases s@.len() - k,
    {
        let ghost pre = s@.subrange(0, k as int);
        let b = s[k];
        if b == 34 {
            out.push(92);
            out.push(34);
        } else if b == 92 {
            out.push(92);
            out.push(92);
        } else if b == 8 {
            out.push(92);
            out.push(98);
        } else if b == 9 {
            out.push(92);
            out.push(116);
        } else if b == 10 {
            out.push(92);
            out.push(110);
        } else if b == 12 {
            out.push(92);
            out.push(102);
        } else if b == 13 {
            out.push(92);
            out.push(114);
        } else if b < 32 {
            out.push(92);
            out.push(117);
            out.push(48);
            out.push(48);
            out.push(hex_b(b / 16));
            out.push(hex_b(b % 16));
        } else {
            out.push(b);
        }
        k = k + 1;
        proof {
            lemma_escaped_snoc(pre, b);
            assert(s@.subrange(0, k as int) =~= pre.push(b));
            assert(out@ =~= base + seq![34u8] + escaped(s@.subrange(0, k as int)));
        }
    }
    out.push(34);
    proof {
        assert(s@.subrange(0, s@.len() as int) =~= s@);
        assert(out@ =~= base + json_str(s@));
    }
}

/// Append the canonical text of one node.
#[verifier::rlimit(100)]
fn emit_node(f: &Filter, out: &mut Vec<u8>)
    ensures
        final(out)@ == old(out)@ + json_of(filter_model(*f)),
    decreases *f,
{
    let ghost base = out@;
    match f {
        Filter::Or(l, r) => {
            out.push(123);
            out.push(34);
            out.push(36);
            out.push(111);
            out.push(114);
            out.push(34);
            out.push(58);
            out.push(91);
            proof {
                assert(out@ =~= base + lit_or());
            }
            emit_node(l, out);
            out.push(44);
            emit_node(r, out);
            out.push(93);
            out.push(125);
            proof {
                assert(out@ =~= base + json_of(filter_model(*f)));
            }
        },
        Filter::And(l, r) => {
            out.push(123);
            out.push(34);
            out.push(36);
            out.push(97);
            out.push(110);
            out.push(100);
            out.push(34);
            out.push(58);
            out.push(91);
            proof {
                assert(out@ =~= base + lit_and());
            }
            emit_node(l, out);
            out.push(44);
            emit_node(r, out);
            out.push(93);
            out.push(125);
            proof {
                assert(out@ =~= base + json_of(filter_model(*f)));
            }
        },
        Filter::Not(x) => {
            out.push(123);
            out.push(34);
            out.push(36);
            out.push(110);
            out.push(111);
            out.push(116);
            out.push(34);
            out.push(58);
            proof {
                assert(out@ =~= base + lit_not());
            }
            emit_node(x, out);
            out.push(125);
            proof {
                assert(out@ =~= base + json_of(filter_model(*f)));
            }
        },
        Filter::FieldEq { field, value } => {
            out.push(123);
            out.push(34);
            out.push(36);
            out.push(101);
            out.push(113);
            out.push(34);
            out.push(58);
            out.push(123);
            out.push(34);
            out.push(102);
            out.push(105);
            out.push(101);
            out.push(108);
            out.push(100);
            out.push(34);
            out.push(58);
            proof {
                assert(out@ =~= base + lit_eq_head());
            }
            emit_str(field, out);
            out.push(44);
            out.push(34);
            out.push(118);
            out.push(97);
            out.push(108);
            out.push(117);
            out.push(101);
            out.push(34);
            out.push(58);
            proof {
                assert(out@ =~= base + lit_eq_head() + json_str(field@) + lit_value());
            }
            emit_str(value, out);
            out.push(125);
            out.push(125);
            proof {
                assert(out@ =~= base + json_of(filter_model(*f)));
            }
        },
        Filter::FieldIn { field, values } => {
            out.push(123);
            out.push(34);
            out.push(36);
            out.push(105);
            out.push(110);
            out.push(34);
            out.push(58);
            out.push(123);
            out.push(34);
            out.push(102);
            out.push(105);
            out.push(101);
            out.push(108);
            out.push(100);
            out.push(34);
            out.push(58);
            proof {
                assert(out@ =~= base + lit_in_head());
            }
            emit_str(field, out);
            out.push(44);
            out.push(34);
            out.push(118);
            out.push(97);
            out.push(108);
            out.push(117);
            out.push(101);
            out.push(115);
            out.push(34);
            out.push(58);
            out.push(91);
            let ghost vs = crate::grammar::vecs_model(values@);
            let ghost base2 = base + lit_in_head() + json_str(field@) + lit_values();
            proof {
                assert(out@ =~= base2);
            }
            if values.len() > 0 {
                emit_str(&values[0], out);
                proof {
                    assert(vs[0] == values@[0]@);
                    assert(out@ =~= base2 + json_str(vs[0]));
                }
                let mut k: usize = 1;
                while k < values.len()
                    invariant
                        1 <= k <= values@.len(),
                        vs == crate::grammar::vecs_model(values@),
                        vs.len() == values@.len(),
                        base2 + json_list(vs) == out@ + json_rest(vs, k as int),
                    decreases values@.len() - k,
                {
                    let ghost before = out@;
                    out.push(44);
                    emit_str(&values[k], out);
                    proof {
                        assert(vs[k as int] == values@[k as int]@);
                        assert(json_rest(vs, k as int) == seq![44u8] + json_str(vs[k as int])
                            + json_rest(vs, k + 1));
                        assert(out@ =~= before + seq![44u8] + json_str(vs[k as int]));
                        assert(before + (seq![44u8] + json_str(vs[k as int]) + json_rest(
                            vs,
                            k + 1,
                        )) =~= (before + seq![44u8] + json_str(vs[k as int])) + json_rest(
                            vs,
                            k + 1,
                        ));
                    }
                    k = k + 1;
                }
                proof {
                    assert(json_rest(vs, values@.len() as int) == Seq::<u8>::empty());
                    assert(out@ + Seq::<u8>::empty() =~= out@);
                }
            } else {
                proof {
                    assert(json_list(vs) =~= Seq::<u8>::empty());
                    assert(out@ =~= base2 + json_list(vs));
                }
            }
            out.push(93);
            out.push(125);
            out.push(125);
            proof {
                assert(out@ =~= base + json_of(filter_model(*f)));
            }
        },
    }
}

/// Serialize a filter tree to its canonical nested key-value text.
pub fn serialize(f: &Filter) -> (r: Vec<u8>)
    ensures
        r@ == json_of(filter_model(*f)),
{
    let mut out: Vec<u8> = Vec::new();
    emit_node(f, &mut out);
    proof {
        assert(Seq::<u8>::empty() + json_of(filter_model(*f)) =~= json_of(filter_model(*f)));
    }
    out
}

} // verus!
