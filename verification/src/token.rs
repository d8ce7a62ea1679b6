use vstd::prelude::*;
use crate::error::{Error, ErrorKind};

verus! {

/// The letter-repetition counts recovered from one word.
///
/// A Stack word carries one raw occurrence count per letter `s`, `t`, `a`,
/// `c`, `k` (in that order); a Bad word one per letter `b`, `a`, `d`.
/// Every required letter occurs at least once in a well-formed word, so
/// every count of a well-formed token is at least 1.
#[derive(Clone, Copy, Debug, PartialEq, Eq)]
pub enum TokenData {
    Stack(u32, u32, u32, u32, u32),
    Bad(u32, u32, u32),
}

/// One classified word, with the 1-based position of its first letter.
#[derive(Clone, Copy, Debug, PartialEq, Eq)]
pub struct Token {
    pub line: usize,
    pub col: usize,
    pub data: TokenData,
}

/// The word invariant: every required letter occurred at least once.
pub open spec fn token_wf(t: Token) -> bool {
    match t.data {
        TokenData::Stack(s, t, a, c, k) => s >= 1 && t >= 1 && a >= 1 && c >= 1 && k >= 1,
        TokenData::Bad(b, a, d) => b >= 1 && a >= 1 && d >= 1,
    }
}

/// One 8-field instruction record, fused from a (Stack, Bad) word pair.
///
/// Fields 0-4 are the Stack word's letter counts minus one, fields 5-7 the
/// Bad word's counts minus one. The record keeps the Stack word's position.
#[derive(Clone, Debug, PartialEq, Eq)]
pub struct TokenPair {
    pub line: usize,
    pub col: usize,
    pub f0: u32,
    pub f1: u32,
    pub f2: u32,
    pub f3: u32,
    pub f4: u32,
    pub f5: u32,
    pub f6: u32,
    pub f7: u32,
}

/// What fusing one (Stack, Bad) word pair yields: the 8-field record, or,
/// when the pair is not exactly (Stack, Bad) in that order, a format error
/// at the pair's first word's position.
pub open spec fn pair_spec(stack: Token, bad: Token) -> Result<TokenPair, Error> {
    match stack.data {
        TokenData::Stack(s0, s1, s2, s3, s4) => match bad.data {
            TokenData::Bad(b0, b1, b2) => Ok(TokenPair {
                line: stack.line,
                col: stack.col,
                f0: (s0 - 1) as u32,
                f1: (s1 - 1) as u32,
                f2: (s2 - 1) as u32,
                f3: (s3 - 1) as u32,
                f4: (s4 - 1) as u32,
                f5: (b0 - 1) as u32,
                f6: (b1 - 1) as u32,
                f7: (b2 - 1) as u32,
            }),
            _ => Err(Error { kind: ErrorKind::Format, line: stack.line, col: stack.col }),
        },
        _ => Err(Error { kind: ErrorKind::Format, line: stack.line, col: stack.col }),
    }
}

/// What pairing a whole word sequence yields: records for consecutive
/// (Stack, Bad) pairs, or the first error. An odd-length sequence fails with
/// a format error at the last word's position.
pub open spec fn pair_seq_spec(ts: Seq<Token>) -> Result<Seq<TokenPair>, Error>
    decreases ts.len(),
{
    if ts.len() == 0 {
        Ok(Seq::empty())
    } else if ts.len() == 1 {
        Err(Error { kind: ErrorKind::Format, line: ts[0].line, col: ts[0].col })
    } else {
        match pair_spec(ts[0], ts[1]) {
            Err(e) => Err(e),
            Ok(p) => match pair_seq_spec(ts.skip(2)) {
                Err(e) => Err(e),
                Ok(rest) => Ok(seq![p] + rest),
            },
        }
    }
}

impl Token {
    /// A format error at this word's position.
    pub fn error(&self) -> (r: Error)
        ensures
            r == (Error { kind: ErrorKind::Format, line: self.line, col: self.col }),
    {
        Error { kind: ErrorKind::Format, line: self.line, col: self.col }
    }
}

impl TokenPair {
    /// Fuses one Stack word and one Bad word into an 8-field record by
    /// subtracting one from each raw letter count, keeping the Stack word's
    /// position; a pair whose classes are wrong or out of order is a format
    /// error at the pair's first word's position.
    pub fn new(stack: Token, bad: Token) -> (r: Result<TokenPair, Error>)
        requires
            token_wf(stack),
            token_wf(bad),
        ensures
            r == pair_spec(stack, bad),
    {
        match stack.data {
            TokenData::Stack(s0, s1, s2, s3, s4) => match bad.data {
                TokenData::Bad(b0, b1, b2) => Ok(TokenPair {
                    line: stack.line,
                    col: stack.col,
                    f0: s0 - 1,
                    f1: s1 - 1,
                    f2: s2 - 1,
                    f3: s3 - 1,
                    f4: s4 - 1,
                    f5: b0 - 1,
                    f6: b1 - 1,
                    f7: b2 - 1,
                }),
                _ => Err(stack.error()),
            },
            _ => Err(stack.error()),
        }
    }

    /// A format error at this record's position.
    pub fn error(&self) -> (r: Error)
        ensures
            r == (Error { kind: ErrorKind::Format, line: self.line, col: self.col }),
    {
        Error { kind: ErrorKind::Format, line: self.line, col: self.col }
    }

    /// Whether every field of this record is zero (the header sentinel).
    pub fn is_zero(&self) -> (r: bool)
        ensures
            r == rec_is_zero(*self),
    {
        self.f0 == 0 && self.f1 == 0 && self.f2 == 0 && self.f3 == 0
            && self.f4 == 0 && self.f5 == 0 && self.f6 == 0 && self.f7 == 0
    }
}

/// The all-zero record: the mandatory format-version header.
pub open spec fn rec_is_zero(r: TokenPair) -> bool {
    r.f0 == 0 && r.f1 == 0 && r.f2 == 0 && r.f3 == 0
        && r.f4 == 0 && r.f5 == 0 && r.f6 == 0 && r.f7 == 0
}

/// Consumes the word sequence in strict alternating (Stack, Bad) pairs and
/// fuses each pair into one record; fails with a format error on an odd word
/// count (at the last word's position) or on a wrong class order.
pub fn pair_tokens(tokens: &Vec<Token>) -> (r: Result<Vec<TokenPair>, Error>)
    requires
        forall|i: int| 0 <= i < tokens@.len() ==> token_wf(tokens@[i]),
    ensures
        (match r {
            Ok(v) => pair_seq_spec(tokens@) == Ok::<Seq<TokenPair>, Error>(v@),
            Err(e) => pair_seq_spec(tokens@) == Err::<Seq<TokenPair>, Error>(e),
        }),
{
    assert(tokens@.skip(0) =~= tokens@);
    pair_tokens_from(tokens, 0)
}

/// Pairs the words from index `i` on; `pair_tokens` starts it at zero.
fn pair_tokens_from(tokens: &Vec<Token>, i: usize) -> (r: Result<Vec<TokenPair>, Error>)
    requires
        i <= tokens@.len(),
        forall|j: int| 0 <= j < tokens@.len() ==> token_wf(tokens@[j]),
    ensures
        (match r {
            Ok(v) => pair_seq_spec(tokens@.skip(i as int)) == Ok::<Seq<TokenPair>, Error>(v@),
            Err(e) => pair_seq_spec(tokens@.skip(i as int)) == Err::<Seq<TokenPair>, Error>(e),
        }),
    decreases tokens@.len() - i,
{
    if i == tokens.len() {
        assert(tokens@.skip(i as int) =~= Seq::<Token>::empty());
        Ok(Vec::new())
    } else if i + 1 == tokens.len() {
        let t = tokens[i];
        assert(tokens@.skip(i as int) =~= seq![tokens@[i as int]]);
        Err(t.error())
    } else {
        proof {
            let tl = tokens@.skip(i as int);
            assert(tl.len() >= 2);
            assert(tl[0] == tokens@[i as int]);
            assert(tl[1] == tokens@[i as int + 1]);
            assert(tl.skip(2) =~= tokens@.skip(i as int + 2));
        }
        let p = TokenPair::new(tokens[i], tokens[i + 1])?;
        let rest = pair_tokens_from(tokens, i + 2)?;
        let ghost rest_view = rest@;
        let mut out = rest;
        out.insert(0, p);
        assert(out@ =~= seq![p] + rest_view);
        Ok(out)
    }
}

} // verus!
