use vstd::prelude::*;

use crate::lexer::SpecToken;
use crate::lexer::Token;
use crate::lexer::TokenStream;

verus! {

/// The filter tree. `Ne` and `NotIn` are not node shapes of their own: the
/// grammar desugars them to `Not` around `FieldEq` or `FieldIn`, so a tree
/// only ever holds these five shapes.
#[derive(Debug)]
pub enum Filter {
    Or(Box<Filter>, Box<Filter>),
    And(Box<Filter>, Box<Filter>),
    Not(Box<Filter>),
    FieldEq { field: Vec<u8>, value: Vec<u8> },
    FieldIn { field: Vec<u8>, values: Vec<Vec<u8>> },
}

/// The mathematical model of a filter tree.
pub enum SpecFilter {
    Or(Box<SpecFilter>, Box<SpecFilter>),
    And(Box<SpecFilter>, Box<SpecFilter>),
    Not(Box<SpecFilter>),
    FieldEq(Seq<u8>, Seq<u8>),
    FieldIn(Seq<u8>, Seq<Seq<u8>>),
}

/// The model of a list of byte vectors.
pub open spec fn vecs_model(s: Seq<Vec<u8>>) -> Seq<Seq<u8>> {
    s.map_values(|v: Vec<u8>| v@)
}

/// The model of an executable filter tree.
pub open spec fn filter_model(f: Filter) -> SpecFilter
    decreases f,
{
    match f {
        Filter::Or(l, r) => SpecFilter::Or(Box::new(filter_model(*l)), Box::new(filter_model(*r))),
        Filter::And(l, r) => SpecFilter::And(
            Box::new(filter_model(*l)),
            Box::new(filter_model(*r)),
        ),
        Filter::Not(x) => SpecFilter::Not(Box::new(filter_model(*x))),
        Filter::FieldEq { field, value } => SpecFilter::FieldEq(field@, value@),
        Filter::FieldIn { field, values } => SpecFilter::FieldIn(field@, vecs_model(values@)),
    }
}

/// What the grammar was prepared to see at the point of a parse failure.
#[derive(Clone, Copy, Debug, PartialEq, Eq, Structural)]
pub enum Expected {
    /// A field name, `NOT`, or an opening parenthesis.
    AtomStart,
    /// `=`, `!=`, `IN`, or `NOT IN`, after a field name.
    FieldOp,
    /// A string literal, after `=` or `!=`.
    Value,
    /// `IN`, after a field-level `NOT`.
    InKeyword,
    /// `[` opening a value list.
    ListStart,
    /// A string literal or `]`, at the head of a value list.
    ListElem,
    /// `,` or `]`, after a value list element.
    CommaOrRBracket,
    /// `)` closing a parenthesized group.
    CloseParen,
    /// `AND`, `OR`, or the end of the input, after a complete expression.
    OpOrEnd,
}

/// A structural parse failure: the cursor position of the offending token
/// (the token count for end-of-input) and what was expected there.
#[derive(Clone, Copy, Debug, PartialEq, Eq, Structural)]
pub struct ParseFail {
    pub at: usize,
    pub expected: Expected,
}

pub open spec fn mk_fail(i: int, e: Expected) -> ParseFail {
    ParseFail { at: i as usize, expected: e }
}

/// The cursor position after a sub-parse, bounded so that the grammar's
/// recursion visibly advances: a well-behaved sub-parse lands in
/// `(lo, len]` and is taken as is.
pub open spec fn step_to(lo: int, k: int, len: int) -> int {
    if lo < k && k <= len {
        k
    } else if lo + 1 <= len {
        lo + 1
    } else {
        lo
    }
}

/// The grammar, lowest precedence: an `OR`-chain of conjunctions,
/// left-associative.
pub open spec fn parse_expr(ts: Seq<SpecToken>, i: int) -> Result<(SpecFilter, int), ParseFail>
    decreases ts.len() - i, 4int,
{
    if i < 0 || i >= ts.len() {
        Err(mk_fail(i, Expected::AtomStart))
    } else {
        match parse_conj(ts, i) {
            Ok((l, j)) => parse_expr_more(ts, l, step_to(i, j, ts.len() as int)),
            Err(e) => Err(e),
        }
    }
}

/// Fold further `OR` operands onto an already parsed left operand.
pub open spec fn parse_expr_more(ts: Seq<SpecToken>, acc: SpecFilter, j: int) -> Result<
    (SpecFilter, int),
    ParseFail,
>
    decreases ts.len() - j, 5int,
{
    if 0 <= j < ts.len() && ts[j] is OpOr {
        match parse_conj(ts, j + 1) {
            Ok((r, k)) => parse_expr_more(
                ts,
                SpecFilter::Or(Box::new(acc), Box::new(r)),
                step_to(j + 1, k, ts.len() as int),
            ),
            Err(e) => Err(e),
        }
    } else {
        Ok((acc, j))
    }
}

/// An `AND`-chain of unary expressions, left-associative; binds tighter than
/// `OR`.
pub open spec fn parse_conj(ts: Seq<SpecToken>, i: int) -> Result<(SpecFilter, int), ParseFail>
    decreases ts.len() - i, 2int,
{
    if i < 0 || i >= ts.len() {
        Err(mk_fail(i, Expected::AtomStart))
    } else {
        match parse_unary(ts, i) {
            Ok((l, j)) => parse_conj_more(ts, l, step_to(i, j, ts.len() as int)),
            Err(e) => Err(e),
        }
    }
}

/// Fold further `AND` operands onto an already parsed left operand.
pub open spec fn parse_conj_more(ts: Seq<SpecToken>, acc: SpecFilter, j: int) -> Result<
    (SpecFilter, int),
    ParseFail,
>
    decreases ts.len() - j, 3int,
{
    if 0 <= j < ts.len() && ts[j] is OpAnd {
        match parse_unary(ts, j + 1) {
            Ok((r, k)) => parse_conj_more(
                ts,
                SpecFilter::And(Box::new(acc), Box::new(r)),
                step_to(j + 1, k, ts.len() as int),
            ),
            Err(e) => Err(e),
        }
    } else {
        Ok((acc, j))
    }
}

/// Prefix `NOT`: binds tighter than `AND` and `OR`, to a single following
/// unary expression.
pub open spec fn parse_unary(ts: Seq<SpecToken>, i: int) -> Result<(SpecFilter, int), ParseFail>
    decreases ts.len() - i, 1int,
{
    if 0 <= i < ts.len() && ts[i] is OpNot {
        match parse_unary(ts, i + 1) {
            Ok((x, j)) => Ok((SpecFilter::Not(Box::new(x)), j)),
            Err(e) => Err(e),
        }
    } else {
        parse_atom(ts, i)
    }
}

/// The terminal productions: `field = value`, `field != value`,
/// `field IN [..]`, `field NOT IN [..]`, and a parenthesized expression,
/// which resets precedence. `!=` and field-level `NOT IN` desugar here.
pub open spec fn parse_atom(ts: Seq<SpecToken>, i: int) -> Result<(SpecFilter, int), ParseFail>
    decreases ts.len() - i, 0int,
{
    if i < 0 || i >= ts.len() {
        Err(mk_fail(i, Expected::AtomStart))
    } else {
        match ts[i] {
            SpecToken::LParen => match parse_expr(ts, i + 1) {
                Ok((x, j)) => if 0 <= j < ts.len() && ts[j] is RParen {
                    Ok((x, j + 1))
                } else {
                    Err(mk_fail(j, Expected::CloseParen))
                },
                Err(e) => Err(e),
            },
            SpecToken::Ident(f) => if i + 1 >= ts.len() {
                Err(mk_fail(i + 1, Expected::FieldOp))
            } else {
                match ts[i + 1] {
                    SpecToken::OpEq => if i + 2 < ts.len() && ts[i + 2] is StrLit {
                        Ok((SpecFilter::FieldEq(f, ts[i + 2]->StrLit_0), i + 3))
                    } else {
                        Err(mk_fail(i + 2, Expected::Value))
                    },
                    SpecToken::OpNe => if i + 2 < ts.len() && ts[i + 2] is StrLit {
                        Ok(
                            (
                                SpecFilter::Not(
                                    Box::new(SpecFilter::FieldEq(f, ts[i + 2]->StrLit_0)),
                                ),
                                i + 3,
                            ),
                        )
                    } else {
                        Err(mk_fail(i + 2, Expected::Value))
                    },
                    SpecToken::OpIn => if i + 2 < ts.len() && ts[i + 2] is LBracket {
                        match parse_list(ts, i + 3) {
                            Ok((vs, j)) => Ok((SpecFilter::FieldIn(f, vs), j)),
                            Err(e) => Err(e),
                        }
                    } else {
                        Err(mk_fail(i + 2, Expected::ListStart))
                    },
                    SpecToken::OpNot => if i + 2 < ts.len() && ts[i + 2] is OpIn {
                        if i + 3 < ts.len() && ts[i + 3] is LBracket {
                            match parse_list(ts, i + 4) {
                                Ok((vs, j)) => Ok(
                                    (
                                        SpecFilter::Not(Box::new(SpecFilter::FieldIn(f, vs))),
                                        j,
                                    ),
                                ),
                                Err(e) => Err(e),
                            }
                        } else {
                            Err(mk_fail(i + 3, Expected::ListStart))
                        }
                    } else {
                        Err(mk_fail(i + 2, Expected::InKeyword))
                    },
                    _ => Err(mk_fail(i + 1, Expected::FieldOp)),
                }
            },
            _ => Err(mk_fail(i, Expected::AtomStart)),
        }
    }
}

/// A value list after its opening `[`: zero or more string literals
/// separated by commas, closed by `]`. Yields the values and the position
/// past the `]`.
pub open spec fn parse_list(ts: Seq<SpecToken>, i: int) -> Result<(Seq<Seq<u8>>, int), ParseFail>
    decreases ts.len() - i, 0int,
{
    if i < 0 || i >= ts.len() {
        Err(mk_fail(i, Expected::ListElem))
    } else {
        match ts[i] {
            SpecToken::RBracket => Ok((Seq::empty(), i + 1)),
            SpecToken::StrLit(v) => parse_list_more(ts, seq![v], i + 1),
            _ => Err(mk_fail(i, Expected::ListElem)),
        }
    }
}

/// Fold further comma-separated string literals onto an already parsed list.
pub open spec fn parse_list_more(ts: Seq<SpecToken>, acc: Seq<Seq<u8>>, j: int) -> Result<
    (Seq<Seq<u8>>, int),
    ParseFail,
>
    decreases ts.len() - j, 1int,
{
    if j < 0 || j >= ts.len() {
        Err(mk_fail(j, Expected::CommaOrRBracket))
    } else {
        match ts[j] {
            SpecToken::RBracket => Ok((acc, j + 1)),
            SpecToken::Comma => if j + 1 >= ts.len() {
                Err(mk_fail(j + 1, Expected::ListElem))
            } else {
                match ts[j + 1] {
                    SpecToken::StrLit(v) => parse_list_more(ts, acc.push(v), j + 2),
                    _ => Err(mk_fail(j + 1, Expected::ListElem)),
                }
            },
            _ => Err(mk_fail(j, Expected::CommaOrRBracket)),
        }
    }
}

/// The entry production: a full expression that must consume every token.
pub open spec fn parse_start(ts: Seq<SpecToken>) -> Result<SpecFilter, ParseFail> {
    match parse_expr(ts, 0) {
        Ok((f, j)) => if j == ts.len() {
            Ok(f)
        } else {
            Err(mk_fail(j, Expected::OpOrEnd))
        },
        Err(e) => Err(e),
    }
}

/// A successful parse consumes at least one token and never runs past the
/// end of the stream.
pub proof fn lemma_parse_expr_progress(ts: Seq<SpecToken>, i: int)
    requires
        0 <= i <= ts.len(),
    ensures
        parse_expr(ts, i) matches Ok(p) ==> i < p.1 <= ts.len(),
    decreases ts.len() - i, 4int,
{
    if 0 <= i < ts.len() {
        lemma_parse_conj_progress(ts, i);
        if let Ok((l, j)) = parse_conj(ts, i) {
            lemma_parse_expr_more_progress(ts, l, step_to(i, j, ts.len() as int));
        }
    }
}

pub proof fn lemma_parse_expr_more_progress(ts: Seq<SpecToken>, acc: SpecFilter, j: int)
    requires
        0 <= j <= ts.len(),
    ensures
        parse_expr_more(ts, acc, j) matches Ok(p) ==> j <= p.1 <= ts.len(),
    decreases ts.len() - j, 5int,
{
    if 0 <= j < ts.len() && ts[j] is OpOr {
        lemma_parse_conj_progress(ts, j + 1);
        if let Ok((r, k)) = parse_conj(ts, j + 1) {
            lemma_parse_expr_more_progress(
                ts,
                SpecFilter::Or(Box::new(acc), Box::new(r)),
                step_to(j + 1, k, ts.len() as int),
            );
        }
    }
}

pub proof fn lemma_parse_conj_progress(ts: Seq<SpecToken>, i: int)
    requires
        0 <= i <= ts.len(),
    ensures
        parse_conj(ts, i) matches Ok(p) ==> i < p.1 <= ts.len(),
    decreases ts.len() - i, 2int,
{
    if 0 <= i < ts.len() {
        lemma_parse_unary_progress(ts, i);
        if let Ok((l, j)) = parse_unary(ts, i) {
            lemma_parse_conj_more_progress(ts, l, step_to(i, j, ts.len() as int));
        }
    }
}

pub proof fn lemma_parse_conj_more_progress(ts: Seq<SpecToken>, acc: SpecFilter, j: int)
    requires
        0 <= j <= ts.len(),
    ensures
        parse_conj_more(ts, acc, j) matches Ok(p) ==> j <= p.1 <= ts.len(),
    decreases ts.len() - j, 3int,
{
    if 0 <= j < ts.len() && ts[j] is OpAnd {
        lemma_parse_unary_progress(ts, j + 1);
        if let Ok((r, k)) = parse_unary(ts, j + 1) {
            lemma_parse_conj_more_progress(
                ts,
                SpecFilter::And(Box::new(acc), Box::new(r)),
                step_to(j + 1, k, ts.len() as int),
            );
        }
    }
}

pub proof fn lemma_parse_unary_progress(ts: Seq<SpecToken>, i: int)
    requires
        0 <= i <= ts.len(),
    ensures
        parse_unary(ts, i) matches Ok(p) ==> i < p.1 <= ts.len(),
    decreases ts.len() - i, 1int,
{
    if 0 <= i < ts.len() && ts[i] is OpNot {
        lemma_parse_unary_progress(ts, i + 1);
    } else {
        lemma_parse_atom_progress(ts, i);
    }
}

pub proof fn lemma_parse_atom_progress(ts: Seq<SpecToken>, i: int)
    requires
        0 <= i <= ts.len(),
    ensures
        parse_atom(ts, i) matches Ok(p) ==> i < p.1 <= ts.len(),
    decreases ts.len() - i, 0int,
{
    if 0 <= i < ts.len() {
        match ts[i] {
            SpecToken::LParen => {
                lemma_parse_expr_progress(ts, i + 1);
            },
            SpecToken::Ident(_) => {
                if i + 1 < ts.len() {
                    if ts[i + 1] is OpIn && i + 2 < ts.len() && ts[i + 2] is LBracket {
                        lemma_parse_list_progress(ts, i + 3);
                    }
                    if ts[i + 1] is OpNot && i + 2 < ts.len() && ts[i + 2] is OpIn && i + 3
                        < ts.len() && ts[i + 3] is LBracket {
                        lemma_parse_list_progress(ts, i + 4);
                    }
                }
            },
            _ => {},
        }
    }
}

pub proof fn lemma_parse_list_progress(ts: Seq<SpecToken>, i: int)
    requires
        0 <= i <= ts.len(),
    ensures
        parse_list(ts, i) matches Ok(p) ==> i < p.1 <= ts.len(),
    decreases ts.len() - i, 0int,
{
    if 0 <= i < ts.len() {
        match ts[i] {
            SpecToken::StrLit(v) => {
                lemma_parse_list_more_progress(ts, seq![v], i + 1);
            },
            _ => {},
        }
    }
}

pub proof fn lemma_parse_list_more_progress(ts: Seq<SpecToken>, acc: Seq<Seq<u8>>, j: int)
    requires
        0 <= j <= ts.len(),
    ensures
        parse_list_more(ts, acc, j) matches Ok(p) ==> j < p.1 <= ts.len(),
    decreases ts.len() - j, 1int,
{
    if 0 <= j < ts.len() {
        match ts[j] {
            SpecToken::Comma => {
                if j + 1 < ts.len() {
                    match ts[j + 1] {
                        SpecToken::StrLit(v) => {
                            lemma_parse_list_more_progress(ts, acc.push(v), j + 2);
                        },
                        _ => {},
                    }
                }
            },
            _ => {},
        }
    }
}

/// The model of an executable parse outcome.
pub open spec fn pres_model(r: Result<(Filter, usize), ParseFail>) -> Result<
    (SpecFilter, int),
    ParseFail,
> {
    match r {
        Ok(p) => Ok((filter_model(p.0), p.1 as int)),
        Err(e) => Err(e),
    }
}

/// The model of an executable list-parse outcome.
pub open spec fn plist_model(r: Result<(Vec<Vec<u8>>, usize), ParseFail>) -> Result<
    (Seq<Seq<u8>>, int),
    ParseFail,
> {
    match r {
        Ok(p) => Ok((vecs_model(p.0@), p.1 as int)),
        Err(e) => Err(e),
    }
}

proof fn lemma_tok_at(st: &TokenStream, pos: int)
    ensures
        st.tok_seq().len() == st.tokens@.len(),
        0 <= pos < st.tokens@.len() ==> st.tok_seq()[pos] == st.tokens@[pos].0@,
{
    assert(st.model().len() == st.tokens@.len());
    if 0 <= pos < st.tokens@.len() {
        assert(st.model()[pos] == (st.tokens@[pos].0@, st.tokens@[pos].1));
        assert(st.tok_seq()[pos] == st.model()[pos].0);
    }
}

fn peek_is_or(st: &TokenStream, pos: usize) -> (r: bool)
    ensures
        r == (pos < st.tok_seq().len() && st.tok_seq()[pos as int] is OpOr),
{
    proof {
        lemma_tok_at(st, pos as int);
    }
    match st.parse_elem(pos) {
        Some(t) => match t {
            Token::OpOr => true,
            _ => false,
        },
        None => false,
    }
}

fn peek_is_and(st: &TokenStream, pos: usize) -> (r: bool)
    ensures
        r == (pos < st.tok_seq().len() && st.tok_seq()[pos as int] is OpAnd),
{
    proof {
        lemma_tok_at(st, pos as int);
    }
    match st.parse_elem(pos) {
        Some(t) => match t {
            Token::OpAnd => true,
            _ => false,
        },
        None => false,
    }
}

fn peek_is_not(st: &TokenStream, pos: usize) -> (r: bool)
    ensures
        r == (pos < st.tok_seq().len() && st.tok_seq()[pos as int] is OpNot),
{
    proof {
        lemma_tok_at(st, pos as int);
    }
    match st.parse_elem(pos) {
        Some(t) => match t {
            Token::OpNot => true,
            _ => false,
        },
        None => false,
    }
}

/// Copy the payload of a token's byte vector.
fn copy_bytes(v: &Vec<u8>) -> (r: Vec<u8>)
    ensures
        r@ == v@,
{
    let mut out: Vec<u8> = Vec::new();
    let mut k: usize = 0;
    while k < v.len()
        invariant
            k <= v@.len(),
            out@ == v@.subrange(0, k as int),
        decreases v@.len() - k,
    {
        out.push(v[k]);
        k = k + 1;
        proof {
            assert(v@.subrange(0, k as int) =~= v@.subrange(0, k - 1).push(v@[k - 1]));
        }
    }
    proof {
        assert(v@.subrange(0, v@.len() as int) =~= v@);
    }
    out
}

/// `OR`-chain, left-associative.
fn p_expr(st: &TokenStream, pos: usize) -> (r: Result<(Filter, usize), ParseFail>)
    requires
        pos <= st.tokens@.len(),
    ensures
        pres_model(r) == parse_expr(st.tok_seq(), pos as int),
        r matches Ok(p) ==> pos < p.1 <= st.tokens@.len(),
    decreases st.tokens@.len() - pos, 4int,
{
    let ghost ts = st.tok_seq();
    let n = st.tokens.len();
    proof {
        lemma_tok_at(st, pos as int);
        lemma_parse_expr_progress(ts, pos as int);
    }
    let first = p_conj(st, pos);
    let (mut node, mut j) = match first {
        Ok(p) => p,
        Err(e) => {
            return Err(e);
        },
    };
    while peek_is_or(st, j)
        invariant
            ts == st.tok_seq(),
            ts.len() == st.tokens@.len(),
            n == st.tokens@.len(),
            pos < j <= st.tokens@.len(),
            parse_expr(ts, pos as int) == parse_expr_more(ts, filter_model(node), j as int),
        decreases st.tokens@.len() - j,
    {
        match p_conj(st, j + 1) {
            Ok((rhs, k)) => {
                proof {
                    lemma_parse_conj_progress(ts, j + 1);
                }
                node = Filter::Or(Box::new(node), Box::new(rhs));
                j = k;
            },
            Err(e) => {
                return Err(e);
            },
        }
    }
    proof {
        lemma_parse_expr_more_progress(ts, filter_model(node), j as int);
    }
    Ok((node, j))
}

/// `AND`-chain, left-associative.
fn p_conj(st: &TokenStream, pos: usize) -> (r: Result<(Filter, usize), ParseFail>)
    requires
        pos <= st.tokens@.len(),
    ensures
        pres_model(r) == parse_conj(st.tok_seq(), pos as int),
        r matches Ok(p) ==> pos < p.1 <= st.tokens@.len(),
    decreases st.tokens@.len() - pos, 2int,
{
    let ghost ts = st.tok_seq();
    let n = st.tokens.len();
    proof {
        lemma_tok_at(st, pos as int);
        lemma_parse_conj_progress(ts, pos as int);
    }
    let first = p_unary(st, pos);
    let (mut node, mut j) = match first {
        Ok(p) => p,
        Err(e) => {
            return Err(e);
        },
    };
    while peek_is_and(st, j)
        invariant
            ts == st.tok_seq(),
            ts.len() == st.tokens@.len(),
            n == st.tokens@.len(),
            pos < j <= st.tokens@.len(),
            parse_conj(ts, pos as int) == parse_conj_more(ts, filter_model(node), j as int),
        decreases st.tokens@.len() - j,
    {
        match p_unary(st, j + 1) {
            Ok((rhs, k)) => {
                proof {
                    lemma_parse_unary_progress(ts, j + 1);
                }
                node = Filter::And(Box::new(node), Box::new(rhs));
                j = k;
            },
            Err(e) => {
                return Err(e);
            },
        }
    }
    proof {
        lemma_parse_conj_more_progress(ts, filter_model(node), j as int);
    }
    Ok((node, j))
}

/// Prefix `NOT`.
fn p_unary(st: &TokenStream, pos: usize) -> (r: Result<(Filter, usize), ParseFail>)
    requires
        pos <= st.tokens@.len(),
    ensures
        pres_model(r) == parse_unary(st.tok_seq(), pos as int),
        r matches Ok(p) ==> pos < p.1 <= st.tokens@.len(),
    decreases st.tokens@.len() - pos, 1int,
{
    let ghost ts = st.tok_seq();
    let n = st.tokens.len();
    proof {
        lemma_tok_at(st, pos as int);
        lemma_parse_unary_progress(ts, pos as int);
    }
    if peek_is_not(st, pos) {
        match p_unary(st, pos + 1) {
            Ok((x, j)) => Ok((Filter::Not(Box::new(x)), j)),
            Err(e) => Err(e),
        }
    } else {
        p_atom(st, pos)
    }
}

/// A value list after its opening `[`.
fn p_list(st: &TokenStream, pos: usize) -> (r: Result<(Vec<Vec<u8>>, usize), ParseFail>)
    requires
        pos <= st.tokens@.len(),
    ensures
        plist_model(r) == parse_list(st.tok_seq(), pos as int),
        r matches Ok(p) ==> pos < p.1 <= st.tokens@.len(),
    decreases st.tokens@.len() - pos, 0int,
{
    let ghost ts = st.tok_seq();
    let n = st.tokens.len();
    proof {
        lemma_tok_at(st, pos as int);
        lemma_parse_list_progress(ts, pos as int);
    }
    match st.parse_elem(pos) {
        None => Err(ParseFail { at: pos, expected: Expected::ListElem }),
        Some(t) => match t {
            Token::RBracket => {
                let out: Vec<Vec<u8>> = Vec::new();
                proof {
                    assert(vecs_model(out@) =~= Seq::<Seq<u8>>::empty());
                }
                Ok((out, pos + 1))
            },
            Token::StrLit(v) => {
                let mut acc: Vec<Vec<u8>> = Vec::new();
                acc.push(copy_bytes(v));
                let mut j: usize = pos + 1;
                proof {
                    assert(vecs_model(acc@) =~= seq![v@]);
                }
                loop
                    invariant
                        ts == st.tok_seq(),
                        ts.len() == st.tokens@.len(),
                        n == st.tokens@.len(),
                        pos < j <= st.tokens@.len(),
                        parse_list(ts, pos as int) == parse_list_more(
                            ts,
                            vecs_model(acc@),
                            j as int,
                        ),
                    decreases st.tokens@.len() - j,
                {
                    proof {
                        lemma_tok_at(st, j as int);
                        lemma_tok_at(st, j + 1);
                    }
                    match st.parse_elem(j) {
                        None => {
                            return Err(ParseFail { at: j, expected: Expected::CommaOrRBracket });
                        },
                        Some(t2) => match t2 {
                            Token::RBracket => {
                                proof {
                                    lemma_parse_list_more_progress(ts, vecs_model(acc@), j as int);
                                }
                                return Ok((acc, j + 1));
                            },
                            Token::Comma => match st.parse_elem(j + 1) {
                                None => {
                                    return Err(
                                        ParseFail { at: j + 1, expected: Expected::ListElem },
                                    );
                                },
                                Some(t3) => match t3 {
                                    Token::StrLit(w) => {
                                        let ghost olda = acc@;
                                        acc.push(copy_bytes(w));
                                        proof {
                                            assert(vecs_model(acc@) =~= vecs_model(olda).push(w@));
                                        }
                                        j = j + 2;
                                    },
                                    _ => {
                                        return Err(
                                            ParseFail { at: j + 1, expected: Expected::ListElem },
                                        );
                                    },
                                },
                            },
                            _ => {
                                return Err(
                                    ParseFail { at: j, expected: Expected::CommaOrRBracket },
                                );
                            },
                        },
                    }
                }
            },
            _ => Err(ParseFail { at: pos, expected: Expected::ListElem }),
        },
    }
}

/// A terminal production or a parenthesized group.
fn p_atom(st: &TokenStream, pos: usize) -> (r: Result<(Filter, usize), ParseFail>)
    requires
        pos <= st.tokens@.len(),
    ensures
        pres_model(r) == parse_atom(st.tok_seq(), pos as int),
        r matches Ok(p) ==> pos < p.1 <= st.tokens@.len(),
    decreases st.tokens@.len() - pos, 0int,
{
    let ghost ts = st.tok_seq();
    let n = st.tokens.len();
    proof {
        reveal_with_fuel(filter_model, 3);
        lemma_tok_at(st, pos as int);
        lemma_tok_at(st, pos + 1);
        lemma_tok_at(st, pos + 2);
        lemma_tok_at(st, pos + 3);
        lemma_parse_atom_progress(ts, pos as int);
    }
    match st.parse_elem(pos) {
        None => Err(ParseFail { at: pos, expected: Expected::AtomStart }),
        Some(t) => match t {
            Token::LParen => match p_expr(st, pos + 1) {
                Ok((x, j)) => {
                    proof {
                        lemma_tok_at(st, j as int);
                    }
                    match st.parse_elem(j) {
                        Some(t2) => match t2 {
                            Token::RParen => Ok((x, j + 1)),
                            _ => Err(ParseFail { at: j, expected: Expected::CloseParen }),
                        },
                        None => Err(ParseFail { at: j, expected: Expected::CloseParen }),
                    }
                },
                Err(e) => Err(e),
            },
            Token::Ident(f) => {
                let field = copy_bytes(f);
                match st.parse_elem(pos + 1) {
                    None => Err(ParseFail { at: pos + 1, expected: Expected::FieldOp }),
                    Some(t1) => match t1 {
                        Token::OpEq => match st.parse_elem(pos + 2) {
                            Some(t2) => match t2 {
                                Token::StrLit(v) => Ok(
                                    (
                                        Filter::FieldEq { field, value: copy_bytes(v) },
                                        pos + 3,
                                    ),
                                ),
                                _ => Err(ParseFail { at: pos + 2, expected: Expected::Value }),
                            },
                            None => Err(ParseFail { at: pos + 2, expected: Expected::Value }),
                        },
                        Token::OpNe => match st.parse_elem(pos + 2) {
                            Some(t2) => match t2 {
                                Token::StrLit(v) => Ok(
                                    (
                                        Filter::Not(
                                            Box::new(
                                                Filter::FieldEq { field, value: copy_bytes(v) },
                                            ),
                                        ),
                                        pos + 3,
                                    ),
                                ),
                                _ => Err(ParseFail { at: pos + 2, expected: Expected::Value }),
                            },
                            None => Err(ParseFail { at: pos + 2, expected: Expected::Value }),
                        },
                        Token::OpIn => match st.parse_elem(pos + 2) {
                            Some(t2) => match t2 {
                                Token::LBracket => match p_list(st, pos + 3) {
                                    Ok((vs, j)) => Ok((Filter::FieldIn { field, values: vs }, j)),
                                    Err(e) => Err(e),
                                },
                                _ => Err(ParseFail { at: pos + 2, expected: Expected::ListStart }),
                            },
                            None => Err(ParseFail { at: pos + 2, expected: Expected::ListStart }),
                        },
                        Token::OpNot => match st.parse_elem(pos + 2) {
                            Some(t2) => match t2 {
                                Token::OpIn => match st.parse_elem(pos + 3) {
                                    Some(t3) => match t3 {
                                        Token::LBracket => match p_list(st, pos + 4) {
                                            Ok((vs, j)) => Ok(
                                                (
                                                    Filter::Not(
                                                        Box::new(
                                                            Filter::FieldIn { field, values: vs },
                                                        ),
                                                    ),
                                                    j,
                                                ),
                                            ),
                                            Err(e) => Err(e),
                                        },
                                        _ => Err(
                                            ParseFail {
                                                at: pos + 3,
                                                expected: Expected::ListStart,
                                            },
                                        ),
                                    },
                                    None => Err(
                                        ParseFail { at: pos + 3, expected: Expected::ListStart },
                                    ),
                                },
                                _ => Err(ParseFail { at: pos + 2, expected: Expected::InKeyword }),
                            },
                            None => Err(ParseFail { at: pos + 2, expected: Expected::InKeyword }),
                        },
                        _ => Err(ParseFail { at: pos + 1, expected: Expected::FieldOp }),
                    },
                }
            },
            _ => Err(ParseFail { at: pos, expected: Expected::AtomStart }),
        },
    }
}

/// Parse a whole token stream into a filter tree, or report the position of
/// the offending token and what was expected there. The grammar must consume
/// every token.
pub fn parse(st: &TokenStream) -> (r: Result<Filter, ParseFail>)
    ensures
        match r {
            Ok(f) => parse_start(st.tok_seq()) == Ok::<SpecFilter, ParseFail>(filter_model(f)),
            Err(e) => parse_start(st.tok_seq()) == Err::<SpecFilter, ParseFail>(e),
        },
{
    let ghost ts = st.tok_seq();
    proof {
        lemma_tok_at(st, 0);
    }
    match p_expr(st, 0) {
        Ok((f, j)) => {
            if st.is_eof(j) {
                Ok(f)
            } else {
                Err(ParseFail { at: j, expected: Expected::OpOrEnd })
            }
        },
        Err(e) => Err(e),
    }
}

} // verus!
