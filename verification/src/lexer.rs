use vstd::prelude::*;

verus! {

/// A half-open byte range locating a token or an error in the source string.
#[derive(Clone, Copy, Debug, PartialEq, Eq, Structural)]
pub struct Span {
    pub start: usize,
    pub end: usize,
}

/// A lexical token of the filter language. `Ident` carries a field name
/// (either a bare word or a single-quoted literal, already unescaped);
/// `StrLit` carries the unescaped contents of a double-quoted literal.
#[derive(Debug)]
pub enum Token {
    Ident(Vec<u8>),
    StrLit(Vec<u8>),
    LParen,
    RParen,
    LBracket,
    RBracket,
    Comma,
    OpEq,
    OpNe,
    OpNot,
    OpAnd,
    OpOr,
    OpIn,
}

/// The mathematical model of a token: payloads are byte sequences.
pub enum SpecToken {
    Ident(Seq<u8>),
    StrLit(Seq<u8>),
    LParen,
    RParen,
    LBracket,
    RBracket,
    Comma,
    OpEq,
    OpNe,
    OpNot,
    OpAnd,
    OpOr,
    OpIn,
}

impl View for Token {
    type V = SpecToken;

    open spec fn view(&self) -> SpecToken {
        match self {
            Token::Ident(s) => SpecToken::Ident(s@),
            Token::StrLit(s) => SpecToken::StrLit(s@),
            Token::LParen => SpecToken::LParen,
            Token::RParen => SpecToken::RParen,
            Token::LBracket => SpecToken::LBracket,
            Token::RBracket => SpecToken::RBracket,
            Token::Comma => SpecToken::Comma,
            Token::OpEq => SpecToken::OpEq,
            Token::OpNe => SpecToken::OpNe,
            Token::OpNot => SpecToken::OpNot,
            Token::OpAnd => SpecToken::OpAnd,
            Token::OpOr => SpecToken::OpOr,
            Token::OpIn => SpecToken::OpIn,
        }
    }
}

/// What the tokenizer recognizes at each position, as predicates on bytes.
pub open spec fn is_ws(b: u8) -> bool {
    b == 32 || b == 9 || b == 10 || b == 12
}

pub open spec fn is_ident_start(b: u8) -> bool {
    (65 <= b && b <= 90) || (97 <= b && b <= 122) || b == 95
}

pub open spec fn is_ident_cont(b: u8) -> bool {
    is_ident_start(b) || (48 <= b && b <= 57)
}

/// ASCII lower-casing, for case-insensitive keyword recognition.
pub open spec fn to_lower(b: u8) -> u8 {
    if 65 <= b && b <= 90 { (b + 32) as u8 } else { b }
}

pub open spec fn lower_seq(s: Seq<u8>) -> Seq<u8> {
    s.map_values(|b: u8| to_lower(b))
}

// Byte values the tokenizer dispatches on.
pub const B_SQUOTE: u8 = 39;
pub const B_DQUOTE: u8 = 34;
pub const B_BSLASH: u8 = 92;
pub const B_NEWLINE: u8 = 10;
pub const B_LPAREN: u8 = 40;
pub const B_RPAREN: u8 = 41;
pub const B_LBRACKET: u8 = 91;
pub const B_RBRACKET: u8 = 93;
pub const B_COMMA: u8 = 44;
pub const B_EQ: u8 = 61;
pub const B_BANG: u8 = 33;

// The reserved words, lower-cased: "and", "or", "not", "in".
pub open spec fn kw_and() -> Seq<u8> {
    seq![97u8, 110u8, 100u8]
}

pub open spec fn kw_or() -> Seq<u8> {
    seq![111u8, 114u8]
}

pub open spec fn kw_not() -> Seq<u8> {
    seq![110u8, 111u8, 116u8]
}

pub open spec fn kw_in() -> Seq<u8> {
    seq![105u8, 110u8]
}

/// First position at or after `i` that no longer continues an identifier.
pub open spec fn ident_end(s: Seq<u8>, i: int) -> int
    decreases s.len() - i,
{
    if i < s.len() && is_ident_cont(s[i]) {
        ident_end(s, i + 1)
    } else {
        i
    }
}

pub proof fn lemma_ident_end(s: Seq<u8>, i: int)
    ensures
        i <= ident_end(s, i) <= if i <= s.len() { s.len() as int } else { i },
    decreases s.len() - i,
{
    if i < s.len() && is_ident_cont(s[i]) {
        lemma_ident_end(s, i + 1);
    }
}

/// Position just past the closing quote `q` of a quoted literal whose body
/// starts at `i`, or `None` if the literal is not terminated. A backslash
/// escapes the byte after it, except a line break, which ends no escape.
pub open spec fn quote_end(s: Seq<u8>, i: int, q: u8) -> Option<int>
    decreases s.len() - i,
{
    if i < 0 || i >= s.len() {
        None
    } else if s[i] == q {
        Some(i + 1)
    } else if s[i] == B_BSLASH {
        if i + 1 < s.len() && s[i + 1] != B_NEWLINE {
            quote_end(s, i + 2, q)
        } else {
            None
        }
    } else {
        quote_end(s, i + 1, q)
    }
}

pub proof fn lemma_quote_end(s: Seq<u8>, i: int, q: u8)
    ensures
        quote_end(s, i, q) matches Some(j) ==> i < j <= s.len(),
    decreases s.len() - i,
{
    if 0 <= i < s.len() {
        if s[i] == q {
        } else if s[i] == B_BSLASH {
            if i + 1 < s.len() && s[i + 1] != B_NEWLINE {
                lemma_quote_end(s, i + 2, q);
            }
        } else {
            lemma_quote_end(s, i + 1, q);
        }
    }
}

pub open spec fn mk_span(i: int, j: int) -> Span {
    Span { start: i as usize, end: j as usize }
}

/// A maximal identifier-shaped word is a reserved operator exactly when its
/// ASCII lower-casing is one of the four reserved words; any other word is a
/// plain identifier.
pub open spec fn keyword_or_ident(w: Seq<u8>) -> SpecToken {
    if lower_seq(w) == kw_and() {
        SpecToken::OpAnd
    } else if lower_seq(w) == kw_or() {
        SpecToken::OpOr
    } else if lower_seq(w) == kw_not() {
        SpecToken::OpNot
    } else if lower_seq(w) == kw_in() {
        SpecToken::OpIn
    } else {
        SpecToken::Ident(w)
    }
}

/// Prepend one token to the result of lexing the rest of the input.
pub open spec fn cons_tok(
    t: SpecToken,
    i: int,
    j: int,
    rest: Result<Seq<(SpecToken, Span)>, Span>,
) -> Result<Seq<(SpecToken, Span)>, Span> {
    match rest {
        Ok(ts) => Ok(seq![(t, mk_span(i, j))] + ts),
        Err(e) => Err(e),
    }
}

/// The tokenizer, as a function from the source bytes and a start position to
/// either the token sequence of the rest of the input or the span of the
/// first lexical error. At each position it skips whitespace, then matches,
/// in this order: an identifier-shaped word (a reserved operator if so
/// spelled), a quoted literal (single quotes give a field name, double quotes
/// a string value, both unescaped), or one of the fixed operator lexemes.
pub open spec fn lex_spec(s: Seq<u8>, i: int) -> Result<Seq<(SpecToken, Span)>, Span>
    decreases s.len() - i,
    via lex_spec_decreases
{
    if i < 0 || i >= s.len() {
        Ok(Seq::empty())
    } else {
        let b = s[i];
        if is_ws(b) {
            lex_spec(s, i + 1)
        } else if is_ident_start(b) {
            let j = ident_end(s, i);
            cons_tok(keyword_or_ident(s.subrange(i, j)), i, j, lex_spec(s, j))
        } else if b == B_SQUOTE || b == B_DQUOTE {
            match quote_end(s, i + 1, b) {
                Some(j) => match unescaped_of(s.subrange(i, j)) {
                    Some(u) => cons_tok(
                        if b == B_SQUOTE { SpecToken::Ident(u) } else { SpecToken::StrLit(u) },
                        i,
                        j,
                        lex_spec(s, j),
                    ),
                    None => Err(mk_span(i, j)),
                },
                None => Err(mk_span(i, s.len() as int)),
            }
        } else if b == B_LPAREN {
            cons_tok(SpecToken::LParen, i, i + 1, lex_spec(s, i + 1))
        } else if b == B_RPAREN {
            cons_tok(SpecToken::RParen, i, i + 1, lex_spec(s, i + 1))
        } else if b == B_LBRACKET {
            cons_tok(SpecToken::LBracket, i, i + 1, lex_spec(s, i + 1))
        } else if b == B_RBRACKET {
            cons_tok(SpecToken::RBracket, i, i + 1, lex_spec(s, i + 1))
        } else if b == B_COMMA {
            cons_tok(SpecToken::Comma, i, i + 1, lex_spec(s, i + 1))
        } else if b == B_EQ {
            cons_tok(SpecToken::OpEq, i, i + 1, lex_spec(s, i + 1))
        } else if b == B_BANG {
            if i + 1 < s.len() && s[i + 1] == B_EQ {
                cons_tok(SpecToken::OpNe, i, i + 2, lex_spec(s, i + 2))
            } else {
                Err(mk_span(i, i + 1))
            }
        } else {
            Err(mk_span(i, i + 1))
        }
    }
}

#[via_fn]
proof fn lex_spec_decreases(s: Seq<u8>, i: int) {
    if 0 <= i < s.len() {
        if is_ident_start(s[i]) {
            lemma_ident_end(s, i + 1);
            assert(ident_end(s, i) == ident_end(s, i + 1));
        }
        if s[i] == B_SQUOTE || s[i] == B_DQUOTE {
            lemma_quote_end(s, i + 1, s[i]);
        }
    }
}

/// What `snailquote::unescape` returns on the bytes of a quoted literal:
/// `Some` of the unescaped contents, or `None` where the crate rejects the
/// escapes. The result depends on the bytes alone.
pub uninterp spec fn unescaped_of(s: Seq<u8>) -> Option<Seq<u8>>;

/// Relies on snailquote::unescape: strips the surrounding quotes and resolves
/// backslash escapes, rejecting an escape it does not know.
#[verifier::external_body]
fn unescape_quoted(s: &[u8]) -> (r: Option<Vec<u8>>)
    ensures
        r.deep_view() == unescaped_of(s@),
{
    match core::str::from_utf8(s) {
        Ok(t) => match snailquote::unescape(t) {
            Ok(u) => Some(u.into_bytes()),
            Err(_) => None,
        },
        Err(_) => None,
    }
}

/// A position-indexed diagnostic location: start and end byte offsets.
#[derive(Clone, Copy, Debug, PartialEq, Eq, Structural)]
pub struct TokenLocation(pub usize, pub usize);

/// The model of a token list: each token beside its source span.
pub open spec fn toks_model(s: Seq<(Token, Span)>) -> Seq<(SpecToken, Span)> {
    s.map_values(|p: (Token, Span)| (p.0@, p.1))
}

/// Splice a lexed prefix in front of the outcome on the rest of the input.
pub open spec fn lex_cat(
    pre: Seq<(SpecToken, Span)>,
    rest: Result<Seq<(SpecToken, Span)>, Span>,
) -> Result<Seq<(SpecToken, Span)>, Span> {
    match rest {
        Ok(ts) => Ok(pre + ts),
        Err(e) => Err(e),
    }
}

proof fn lemma_lex_step(s: Seq<u8>, pre: Seq<(SpecToken, Span)>, t: SpecToken, i: int, j: int)
    requires
        lex_spec(s, i) == cons_tok(t, i, j, lex_spec(s, j)),
    ensures
        lex_cat(pre, lex_spec(s, i)) == lex_cat(pre + seq![(t, mk_span(i, j))], lex_spec(s, j)),
{
    match lex_spec(s, j) {
        Ok(ts) => {
            assert(pre + (seq![(t, mk_span(i, j))] + ts) =~= (pre + seq![(t, mk_span(i, j))])
                + ts);
        },
        Err(_) => {},
    }
}

proof fn lemma_toks_model_push(s: Seq<(Token, Span)>, x: (Token, Span))
    ensures
        toks_model(s.push(x)) == toks_model(s) + seq![(x.0@, x.1)],
{
    assert(toks_model(s.push(x)) =~= toks_model(s) + seq![(x.0@, x.1)]);
}

proof fn lemma_bytes_deep_view(v: Vec<u8>)
    ensures
        v.deep_view() == v@,
{
    assert(v.deep_view() =~= v@);
}

/// How the four reserved words are recognized: a word lower-cases to a
/// keyword exactly when it has that keyword's length and bytes.
proof fn lemma_kw(w: Seq<u8>)
    ensures
        lower_seq(w) == kw_and() <==> w.len() == 3 && to_lower(w[0]) == 97 && to_lower(w[1])
            == 110 && to_lower(w[2]) == 100,
        lower_seq(w) == kw_or() <==> w.len() == 2 && to_lower(w[0]) == 111 && to_lower(w[1])
            == 114,
        lower_seq(w) == kw_not() <==> w.len() == 3 && to_lower(w[0]) == 110 && to_lower(w[1])
            == 111 && to_lower(w[2]) == 116,
        lower_seq(w) == kw_in() <==> w.len() == 2 && to_lower(w[0]) == 105 && to_lower(w[1])
            == 110,
{
    assert(lower_seq(w).len() == w.len());
    assert forall|k: int| 0 <= k < w.len() implies #[trigger] lower_seq(w)[k] == to_lower(
        w[k],
    ) by {}
    if w.len() == 3 && to_lower(w[0]) == 97 && to_lower(w[1]) == 110 && to_lower(w[2]) == 100 {
        assert(lower_seq(w) =~= kw_and());
    }
    if w.len() == 2 && to_lower(w[0]) == 111 && to_lower(w[1]) == 114 {
        assert(lower_seq(w) =~= kw_or());
    }
    if w.len() == 3 && to_lower(w[0]) == 110 && to_lower(w[1]) == 111 && to_lower(w[2]) == 116 {
        assert(lower_seq(w) =~= kw_not());
    }
    if w.len() == 2 && to_lower(w[0]) == 105 && to_lower(w[1]) == 110 {
        assert(lower_seq(w) =~= kw_in());
    }
}

/// ASCII lower-casing of one byte.
fn lower_byte(b: u8) -> (r: u8)
    ensures
        r == to_lower(b),
{
    if 65 <= b && b <= 90 {
        b + 32
    } else {
        b
    }
}

/// Copy a byte slice into an owned vector.
fn to_vec_bytes(s: &[u8]) -> (r: Vec<u8>)
    ensures
        r@ == s@,
{
    let mut v: Vec<u8> = Vec::new();
    let mut k: usize = 0;
    while k < s.len()
        invariant
            k <= s@.len(),
            v@ == s@.subrange(0, k as int),
        decreases s@.len() - k,
    {
        v.push(s[k]);
        k = k + 1;
        proof {
            assert(s@.subrange(0, k as int) =~= s@.subrange(0, k - 1).push(s@[k - 1]));
        }
    }
    proof {
        assert(s@.subrange(0, s@.len() as int) =~= s@);
    }
    v
}

fn is_ws_b(b: u8) -> (r: bool)
    ensures
        r == is_ws(b),
{
    b == 32 || b == 9 || b == 10 || b == 12
}

fn is_ident_start_b(b: u8) -> (r: bool)
    ensures
        r == is_ident_start(b),
{
    (65 <= b && b <= 90) || (97 <= b && b <= 122) || b == 95
}

fn is_ident_cont_b(b: u8) -> (r: bool)
    ensures
        r == is_ident_cont(b),
{
    (65 <= b && b <= 90) || (97 <= b && b <= 122) || b == 95 || (48 <= b && b <= 57)
}

/// Scan for the closing quote `q`, starting just after the opening quote at
/// `i`; returns the position past the closing quote.
fn scan_quote(input: &[u8], i: usize, q: u8) -> (r: Option<usize>)
    requires
        i < input@.len(),
    ensures
        match r {
            Some(j) => quote_end(input@, i + 1, q) == Some(j as int),
            None => quote_end(input@, i + 1, q) is None,
        },
{
    let ghost s = input@;
    let n = input.len();
    let mut k: usize = i + 1;
    while k < n
        invariant
            s == input@,
            n == s.len(),
            i + 1 <= k <= s.len(),
            quote_end(s, i + 1, q) == quote_end(s, k as int, q),
        decreases s.len() - k,
    {
        let c = input[k];
        if c == q {
            return Some(k + 1);
        }
        if c == B_BSLASH {
            if k + 1 < input.len() && input[k + 1] != B_NEWLINE {
                k = k + 2;
            } else {
                return None;
            }
        } else {
            k = k + 1;
        }
    }
    None
}

/// Tokenize the whole input eagerly, producing each token with its span, or
/// stop at the first lexical error and return its span.
pub fn tokenize(input: &[u8]) -> (r: Result<Vec<(Token, Span)>, Span>)
    ensures
        match r {
            Ok(v) => lex_spec(input@, 0) == Ok::<Seq<(SpecToken, Span)>, Span>(toks_model(v@)),
            Err(e) => lex_spec(input@, 0) == Err::<Seq<(SpecToken, Span)>, Span>(e),
        },
{
    let ghost s = input@;
    let s_len = input.len();
    let mut acc: Vec<(Token, Span)> = Vec::new();
    let mut i: usize = 0;
    while i < s_len
        invariant
            s == input@,
            s_len == s.len(),
            i <= s_len,
            lex_spec(s, 0) == lex_cat(toks_model(acc@), lex_spec(s, i as int)),
        decreases s_len - i,
    {
        let b = input[i];
        if is_ws_b(b) {
            i = i + 1;
        } else if is_ident_start_b(b) {
            let mut j: usize = i + 1;
            proof {
                assert(ident_end(s, i as int) == ident_end(s, j as int));
            }
            while j < s_len && is_ident_cont_b(input[j])
                invariant
                    s == input@,
                    s_len == s.len(),
                    i < j <= s_len,
                    ident_end(s, i as int) == ident_end(s, j as int),
                decreases s_len - j,
            {
                j = j + 1;
            }
            proof {
                assert(ident_end(s, i as int) == j);
            }
            let word = to_vec_bytes(&input[i..j]);
            let ghost w = s.subrange(i as int, j as int);
            let n = j - i;
            let tok: Token;
            if n == 3 && lower_byte(word[0]) == 97 && lower_byte(word[1]) == 110 && lower_byte(
                word[2],
            ) == 100 {
                tok = Token::OpAnd;
            } else if n == 3 && lower_byte(word[0]) == 110 && lower_byte(word[1]) == 111
                && lower_byte(word[2]) == 116 {
                tok = Token::OpNot;
            } else if n == 2 && lower_byte(word[0]) == 111 && lower_byte(word[1]) == 114 {
                tok = Token::OpOr;
            } else if n == 2 && lower_byte(word[0]) == 105 && lower_byte(word[1]) == 110 {
                tok = Token::OpIn;
            } else {
                tok = Token::Ident(word);
            }
            let ghost tv = tok@;
            let ghost pre = toks_model(acc@);
            let ghost olda = acc@;
            acc.push((tok, Span { start: i, end: j }));
            proof {
                lemma_kw(w);
                assert(tv == keyword_or_ident(w));
                assert(lex_spec(s, i as int) == cons_tok(tv, i as int, j as int, lex_spec(s, j as int)));
                lemma_lex_step(s, pre, tv, i as int, j as int);
                lemma_toks_model_push(olda, (acc@[acc@.len() - 1].0, Span { start: i, end: j }));
                assert(toks_model(acc@) == pre + seq![(tv, mk_span(i as int, j as int))]);
            }
            i = j;
        } else if b == B_SQUOTE || b == B_DQUOTE {
            match scan_quote(input, i, b) {
                None => {
                    return Err(Span { start: i, end: s_len });
                },
                Some(j) => {
                    proof {
                        lemma_quote_end(s, i + 1, b);
                    }
                    match unescape_quoted(&input[i..j]) {
                        None => {
                            return Err(Span { start: i, end: j });
                        },
                        Some(u) => {
                            proof {
                                lemma_bytes_deep_view(u);
                            }
                            let ghost uv = u@;
                            let tok: Token = if b == B_SQUOTE {
                                Token::Ident(u)
                            } else {
                                Token::StrLit(u)
                            };
                            let ghost tv = tok@;
                            let ghost pre = toks_model(acc@);
                            let ghost olda = acc@;
                            acc.push((tok, Span { start: i, end: j }));
                            proof {
                                assert(unescaped_of(s.subrange(i as int, j as int)) == Some(uv));
                                assert(lex_spec(s, i as int) == cons_tok(
                                    tv,
                                    i as int,
                                    j as int,
                                    lex_spec(s, j as int),
                                ));
                                lemma_lex_step(s, pre, tv, i as int, j as int);
                                lemma_toks_model_push(
                                    olda,
                                    (acc@[acc@.len() - 1].0, Span { start: i, end: j }),
                                );
                                assert(toks_model(acc@) == pre + seq![
                                    (tv, mk_span(i as int, j as int)),
                                ]);
                            }
                            i = j;
                        },
                    }
                },
            }
        } else if b == B_LPAREN || b == B_RPAREN || b == B_LBRACKET || b == B_RBRACKET || b
            == B_COMMA || b == B_EQ {
            let tok: Token = if b == B_LPAREN {
                Token::LParen
            } else if b == B_RPAREN {
                Token::RParen
            } else if b == B_LBRACKET {
                Token::LBracket
            } else if b == B_RBRACKET {
                Token::RBracket
            } else if b == B_COMMA {
                Token::Comma
            } else {
                Token::OpEq
            };
            let j = i + 1;
            let ghost tv = tok@;
            let ghost pre = toks_model(acc@);
            let ghost olda = acc@;
            acc.push((tok, Span { start: i, end: j }));
            proof {
                assert(lex_spec(s, i as int) == cons_tok(tv, i as int, j as int, lex_spec(s, j as int)));
                lemma_lex_step(s, pre, tv, i as int, j as int);
                lemma_toks_model_push(olda, (acc@[acc@.len() - 1].0, Span { start: i, end: j }));
                assert(toks_model(acc@) == pre + seq![(tv, mk_span(i as int, j as int))]);
            }
            i = j;
        } else if b == B_BANG {
            if i + 1 < s_len && input[i + 1] == B_EQ {
                let j = i + 2;
                let tok = Token::OpNe;
                let ghost tv = tok@;
                let ghost pre = toks_model(acc@);
                let ghost olda = acc@;
                acc.push((tok, Span { start: i, end: j }));
                proof {
                    assert(lex_spec(s, i as int) == cons_tok(
                        tv,
                        i as int,
                        j as int,
                        lex_spec(s, j as int),
                    ));
                    lemma_lex_step(s, pre, tv, i as int, j as int);
                    lemma_toks_model_push(olda, (acc@[acc@.len() - 1].0, Span { start: i, end: j }));
                    assert(toks_model(acc@) == pre + seq![(tv, mk_span(i as int, j as int))]);
                }
                i = j;
            } else {
                return Err(Span { start: i, end: i + 1 });
            }
        } else {
            return Err(Span { start: i, end: i + 1 });
        }
    }
    proof {
        assert(toks_model(acc@) + Seq::<(SpecToken, Span)>::empty() =~= toks_model(acc@));
    }
    Ok(acc)
}

/// The token stream: the full token list in source order beside the length
/// of the source, which stands in for the span of the end-of-input position.
/// It is read-only; the parser navigates it through cursor positions alone.
pub struct TokenStream {
    pub size: usize,
    pub tokens: Vec<(Token, Span)>,
}

impl TokenStream {
    /// The stream's model: each token beside its span.
    pub open spec fn model(&self) -> Seq<(SpecToken, Span)> {
        toks_model(self.tokens@)
    }

    /// The bare token sequence the grammar consumes.
    pub open spec fn tok_seq(&self) -> Seq<SpecToken> {
        self.model().map_values(|p: (SpecToken, Span)| p.0)
    }

    /// The diagnostic location of a cursor position: the span of the token
    /// there, or the degenerate end-of-input span past the last token.
    pub open spec fn spec_position_repr(&self, pos: int) -> TokenLocation {
        if 0 <= pos < self.tokens@.len() {
            TokenLocation(self.tokens@[pos].1.start, self.tokens@[pos].1.end)
        } else {
            TokenLocation(self.size, self.size)
        }
    }

    /// The starting cursor position.
    pub fn start(&self) -> (r: usize)
        ensures
            r == 0,
    {
        0
    }

    /// Whether a cursor position is past the last token.
    pub fn is_eof(&self, pos: usize) -> (r: bool)
        ensures
            r == (pos >= self.tokens@.len()),
    {
        pos >= self.tokens.len()
    }

    /// The diagnostic location of a cursor position.
    pub fn position_repr(&self, pos: usize) -> (r: TokenLocation)
        ensures
            r == self.spec_position_repr(pos as int),
    {
        if pos < self.tokens.len() {
            let sp = &self.tokens[pos].1;
            TokenLocation(sp.start, sp.end)
        } else {
            TokenLocation(self.size, self.size)
        }
    }

    /// The token at a cursor position, or nothing past the end.
    pub fn parse_elem(&self, pos: usize) -> (r: Option<&Token>)
        ensures
            match r {
                Some(t) => pos < self.tokens@.len() && *t == self.tokens@[pos as int].0,
                None => pos >= self.tokens@.len(),
            },
    {
        if pos < self.tokens.len() {
            Some(&self.tokens[pos].0)
        } else {
            None
        }
    }

    /// The contiguous window of tokens between two cursor positions.
    pub fn parse_slice(&self, begin: usize, end: usize) -> (r: Vec<&Token>)
        requires
            begin <= end <= self.tokens@.len(),
        ensures
            r@.len() == end - begin,
            forall|k: int|
                0 <= k < r@.len() ==> *(#[trigger] r@[k]) == self.tokens@[begin + k].0,
    {
        let mut out: Vec<&Token> = Vec::new();
        let mut k: usize = begin;
        while k < end
            invariant
                begin <= k <= end <= self.tokens@.len(),
                out@.len() == k - begin,
                forall|m: int|
                    0 <= m < out@.len() ==> *(#[trigger] out@[m]) == self.tokens@[begin + m].0,
            decreases end - k,
        {
            out.push(&self.tokens[k].0);
            k = k + 1;
        }
        out
    }
}

} // verus!
