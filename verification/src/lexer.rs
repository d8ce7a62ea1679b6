use vstd::prelude::*;
use vstd::string::StrSliceExecFns;
use vstd::string::StringSliceAdditionalSpecFns;
use crate::error::{Error, ErrorKind};
use crate::token::{Token, TokenData, token_wf};

verus! {

/// The byte value of a space, one of the two word boundaries.
pub const B_SPACE: u8 = 32;

/// The byte value of a newline: a boundary that also advances the line.
pub const B_NEWLINE: u8 = 10;

/// The byte value of `#`, which starts a line comment.
pub const B_HASH: u8 = 35;

/// The byte value of the letter `s`.
pub const B_LS: u8 = 115;

/// The byte value of the letter `t`.
pub const B_LT: u8 = 116;

/// The byte value of the letter `a`.
pub const B_LA: u8 = 97;

/// The byte value of the letter `c`.
pub const B_LC: u8 = 99;

/// The byte value of the letter `k`.
pub const B_LK: u8 = 107;

/// The byte value of the letter `b`.
pub const B_LB: u8 = 98;

/// The byte value of the letter `d`.
pub const B_LD: u8 = 100;


/// Whether position `j` is a word boundary: a space, a newline, or the end
/// of the input. Both word classes terminate on the same rule.
pub open spec fn is_boundary(s: Seq<u8>, j: int) -> bool {
    j >= s.len() || s[j] == B_SPACE || s[j] == B_NEWLINE
}

/// Clamps an index into `[lo, hi]`; the scanners stay inside this range, so
/// clamping never changes their results and only serves termination measures.
pub open spec fn clamp_idx(j: int, lo: int, hi: int) -> int {
    if j < lo {
        lo
    } else if j > hi {
        hi
    } else {
        j
    }
}

/// Scans the rest of a Stack word from position `j`, growing the five letter
/// counters, with `prev` the letter read last. The word ends at the first
/// boundary that immediately follows a `k`; any character outside
/// `{s,t,a,c,k}` before that, or running out of input after another letter,
/// is a scan failure (`None`).
pub open spec fn scan_stack(
    s: Seq<u8>,
    j: int,
    c0: u32,
    c1: u32,
    c2: u32,
    c3: u32,
    c4: u32,
    prev: u8,
) -> Option<(u32, u32, u32, u32, u32, int)>
    decreases s.len() - j,
{
    if prev == B_LK && is_boundary(s, j) {
        Some((c0, c1, c2, c3, c4, j))
    } else if j < 0 || j >= s.len() {
        None
    } else if s[j] == B_LS {
        scan_stack(s, j + 1, (c0 + 1) as u32, c1, c2, c3, c4, B_LS)
    } else if s[j] == B_LT {
        scan_stack(s, j + 1, c0, (c1 + 1) as u32, c2, c3, c4, B_LT)
    } else if s[j] == B_LA {
        scan_stack(s, j + 1, c0, c1, (c2 + 1) as u32, c3, c4, B_LA)
    } else if s[j] == B_LC {
        scan_stack(s, j + 1, c0, c1, c2, (c3 + 1) as u32, c4, B_LC)
    } else if s[j] == B_LK {
        scan_stack(s, j + 1, c0, c1, c2, c3, (c4 + 1) as u32, B_LK)
    } else {
        None
    }
}

/// Scans the rest of a Bad word from position `j`; the word ends at the
/// first boundary that immediately follows a `d`.
pub open spec fn scan_bad(s: Seq<u8>, j: int, c0: u32, c1: u32, c2: u32, prev: u8) -> Option<
    (u32, u32, u32, int),
>
    decreases s.len() - j,
{
    if prev == B_LD && is_boundary(s, j) {
        Some((c0, c1, c2, j))
    } else if j < 0 || j >= s.len() {
        None
    } else if s[j] == B_LB {
        scan_bad(s, j + 1, (c0 + 1) as u32, c1, c2, B_LB)
    } else if s[j] == B_LA {
        scan_bad(s, j + 1, c0, (c1 + 1) as u32, c2, B_LA)
    } else if s[j] == B_LD {
        scan_bad(s, j + 1, c0, c1, (c2 + 1) as u32, B_LD)
    } else {
        None
    }
}

/// The position of the next newline at or after `j` (or the end of input):
/// a comment runs to, but not past, that position.
pub open spec fn skip_comment(s: Seq<u8>, j: int) -> int
    decreases s.len() - j,
{
    if j < 0 || j >= s.len() {
        j
    } else if s[j] == B_NEWLINE {
        j
    } else {
        skip_comment(s, j + 1)
    }
}

/// A lexical error at the given 1-based position.
pub open spec fn lex_err(line: int, col: int) -> Error {
    Error { kind: ErrorKind::Lexical, line: line as usize, col: col as usize }
}

/// What scanning the input from position `i` yields, with `line` the current
/// 1-based line and `col` the number of columns already consumed on it:
/// the remaining word sequence, or the first lexical error. A word's token
/// carries the position of its first letter; after a completed word every
/// required letter must have occurred at least once.
pub open spec fn lex_from(s: Seq<u8>, i: int, line: int, col: int) -> Result<Seq<Token>, Error>
    decreases s.len() - i,
{
    if i < 0 || i >= s.len() {
        Ok(Seq::empty())
    } else if s[i] == B_LS {
        match scan_stack(s, i + 1, 1, 0, 0, 0, 0, B_LS) {
            None => Err(lex_err(line, col + 1)),
            Some((c0, c1, c2, c3, c4, jr)) => {
                if c0 >= 1 && c1 >= 1 && c2 >= 1 && c3 >= 1 && c4 >= 1 {
                    let j = clamp_idx(jr, i + 1, s.len() as int);
                    let tok = Token {
                        line: line as usize,
                        col: (col + 1) as usize,
                        data: TokenData::Stack(c0, c1, c2, c3, c4),
                    };
                    match lex_from(s, j, line, col + c0 + c1 + c2 + c3 + c4) {
                        Ok(rest) => Ok(seq![tok] + rest),
                        Err(e) => Err(e),
                    }
                } else {
                    Err(lex_err(line, col + 1))
                }
            },
        }
    } else if s[i] == B_LB {
        match scan_bad(s, i + 1, 1, 0, 0, B_LB) {
            None => Err(lex_err(line, col + 1)),
            Some((c0, c1, c2, jr)) => {
                if c0 >= 1 && c1 >= 1 && c2 >= 1 {
                    let j = clamp_idx(jr, i + 1, s.len() as int);
                    let tok = Token {
                        line: line as usize,
                        col: (col + 1) as usize,
                        data: TokenData::Bad(c0, c1, c2),
                    };
                    match lex_from(s, j, line, col + c0 + c1 + c2) {
                        Ok(rest) => Ok(seq![tok] + rest),
                        Err(e) => Err(e),
                    }
                } else {
                    Err(lex_err(line, col + 1))
                }
            },
        }
    } else if s[i] == B_HASH {
        let j = clamp_idx(skip_comment(s, i + 1), i + 1, s.len() as int);
        lex_from(s, j, line, col + (j - i))
    } else if s[i] == B_NEWLINE {
        lex_from(s, i + 1, line + 1, 0)
    } else if s[i] == B_SPACE {
        lex_from(s, i + 1, line, col + 1)
    } else {
        Err(lex_err(line, col + 1))
    }
}

/// What lexing a whole input yields, starting at line 1, column 0.
pub open spec fn lex_spec(s: Seq<u8>) -> Result<Seq<Token>, Error> {
    lex_from(s, 0, 1, 0)
}

/// Forgets the concrete vector in a lexing result.
pub open spec fn tokens_view_res(r: Result<Vec<Token>, Error>) -> Result<Seq<Token>, Error> {
    match r {
        Ok(v) => Ok(v@),
        Err(e) => Err(e),
    }
}

/// Every word a successful scan yields is well formed: each of its required
/// letters occurred at least once.
pub proof fn lemma_lex_from_wf(s: Seq<u8>, i: int, line: int, col: int)
    ensures
        (match lex_from(s, i, line, col) {
            Ok(ts) => forall|k: int| 0 <= k < ts.len() ==> token_wf(ts[k]),
            Err(_) => true,
        }),
    decreases s.len() - i,
{
    if 0 <= i < s.len() {
        if s[i] == B_LS {
            match scan_stack(s, i + 1, 1, 0, 0, 0, 0, B_LS) {
                None => {},
                Some((c0, c1, c2, c3, c4, jr)) => {
                    let j = clamp_idx(jr, i + 1, s.len() as int);
                    lemma_lex_from_wf(s, j, line, col + c0 + c1 + c2 + c3 + c4);
                },
            }
        } else if s[i] == B_LB {
            match scan_bad(s, i + 1, 1, 0, 0, B_LB) {
                None => {},
                Some((c0, c1, c2, jr)) => {
                    let j = clamp_idx(jr, i + 1, s.len() as int);
                    lemma_lex_from_wf(s, j, line, col + c0 + c1 + c2);
                },
            }
        } else if s[i] == B_HASH {
            let j = clamp_idx(skip_comment(s, i + 1), i + 1, s.len() as int);
            lemma_lex_from_wf(s, j, line, col + (j - i));
        } else if s[i] == B_NEWLINE {
            lemma_lex_from_wf(s, i + 1, line + 1, 0);
        } else if s[i] == B_SPACE {
            lemma_lex_from_wf(s, i + 1, line, col + 1);
        }
    }
}

/// The character-stream scanner: it turns source text into the ordered word
/// sequence, counting letter repetitions and tracking 1-based positions.
pub struct Lexer {
    pub src: Vec<u8>,
    pub i: usize,
    pub line: usize,
    pub col: usize,
}

impl Lexer {
    /// The scanner's invariant: the cursor is inside the input, the input is
    /// small enough for the 32-bit letter counters, and the position
    /// bookkeeping cannot outrun the cursor.
    pub open spec fn wf(self) -> bool {
        self.i <= self.src@.len() && self.src@.len() < u32::MAX && self.line <= self.i + 1
            && self.col <= self.i
    }

    /// Builds a scanner over the bytes of a source text, positioned at its
    /// start. The input must leave room in the 32-bit letter counters.
    pub fn new(src: &str) -> (l: Lexer)
        requires
            src.spec_bytes().len() < u32::MAX,
        ensures
            l.wf(),
            l.src@ == src.spec_bytes(),
            l.i == 0,
            l.line == 1,
            l.col == 0,
    {
        Lexer { src: src.as_bytes_vec(), i: 0, line: 1, col: 0 }
    }

    /// Scans the whole input into its word sequence, or fails with the first
    /// lexical error; the result is exactly what `lex_from` says of the
    /// scanner's state.
    pub fn lex(self) -> (r: Result<Vec<Token>, Error>)
        requires
            self.wf(),
        ensures
            tokens_view_res(r) == lex_from(
                self.src@,
                self.i as int,
                self.line as int,
                self.col as int,
            ),
    {
        lex_go(&self.src, self.i, self.line, self.col)
    }
}

/// Recursive worker behind `Lexer::lex`, one call per skipped character or
/// scanned word.
fn lex_go(src: &Vec<u8>, i: usize, line: usize, col: usize) -> (r: Result<Vec<Token>, Error>)
    requires
        i <= src@.len(),
        src@.len() < u32::MAX,
        line <= i + 1,
        col <= i,
    ensures
        tokens_view_res(r) == lex_from(src@, i as int, line as int, col as int),
    decreases src@.len() - i,
{
    if i == src.len() {
        return Ok(Vec::new());
    }
    let ch = src[i];
    if ch == B_LS {
        match scan_stack_word(src, i + 1, 1, 0, 0, 0, 0, B_LS) {
            None => Err(Error { kind: ErrorKind::Lexical, line, col: col + 1 }),
            Some((c0, c1, c2, c3, c4, j)) => {
                if c0 >= 1 && c1 >= 1 && c2 >= 1 && c3 >= 1 && c4 >= 1 {
                    let tok = Token {
                        line,
                        col: col + 1,
                        data: TokenData::Stack(c0, c1, c2, c3, c4),
                    };
                    let sum = c0 + c1 + c2 + c3 + c4;
                    assert(clamp_idx(j as int, i + 1, src@.len() as int) == j as int);
                    let rest = lex_go(src, j, line, col + sum as usize)?;
                    let ghost restv = rest@;
                    let mut out = rest;
                    out.insert(0, tok);
                    assert(out@ =~= seq![tok] + restv);
                    Ok(out)
                } else {
                    assert(clamp_idx(j as int, i + 1, src@.len() as int) == j as int);
                    Err(Error { kind: ErrorKind::Lexical, line, col: col + 1 })
                }
            },
        }
    } else if ch == B_LB {
        match scan_bad_word(src, i + 1, 1, 0, 0, B_LB) {
            None => Err(Error { kind: ErrorKind::Lexical, line, col: col + 1 }),
            Some((c0, c1, c2, j)) => {
                if c0 >= 1 && c1 >= 1 && c2 >= 1 {
                    let tok = Token { line, col: col + 1, data: TokenData::Bad(c0, c1, c2) };
                    let sum = c0 + c1 + c2;
                    assert(clamp_idx(j as int, i + 1, src@.len() as int) == j as int);
                    let rest = lex_go(src, j, line, col + sum as usize)?;
                    let ghost restv = rest@;
                    let mut out = rest;
                    out.insert(0, tok);
                    assert(out@ =~= seq![tok] + restv);
                    Ok(out)
                } else {
                    assert(clamp_idx(j as int, i + 1, src@.len() as int) == j as int);
                    Err(Error { kind: ErrorKind::Lexical, line, col: col + 1 })
                }
            },
        }
    } else if ch == B_HASH {
        let j = skip_to_newline(src, i + 1);
        assert(clamp_idx(skip_comment(src@, i + 1), i + 1, src@.len() as int) == j as int);
        lex_go(src, j, line, col + (j - i))
    } else if ch == B_NEWLINE {
        lex_go(src, i + 1, line + 1, 0)
    } else if ch == B_SPACE {
        lex_go(src, i + 1, line, col + 1)
    } else {
        Err(Error { kind: ErrorKind::Lexical, line, col: col + 1 })
    }
}

/// Scans the tail of a Stack word; mirrors `scan_stack` step for step.
fn scan_stack_word(src: &Vec<u8>, j: usize, c0: u32, c1: u32, c2: u32, c3: u32, c4: u32, prev: u8)
    -> (r: Option<(u32, u32, u32, u32, u32, usize)>)
    requires
        j <= src@.len(),
        src@.len() < u32::MAX,
        c0 + c1 + c2 + c3 + c4 <= j,
    ensures
        (match scan_stack(src@, j as int, c0, c1, c2, c3, c4, prev) {
            Some(t) => r matches Some(v) && v.0 == t.0 && v.1 == t.1 && v.2 == t.2 && v.3 == t.3
                && v.4 == t.4 && v.5 as int == t.5 && j <= v.5 <= src@.len() && v.0 + v.1 + v.2
                + v.3 + v.4 == c0 + c1 + c2 + c3 + c4 + (v.5 - j),
            None => r is None,
        }),
    decreases src@.len() - j,
{
    let at_bound = j == src.len() || src[j] == B_SPACE || src[j] == B_NEWLINE;
    if prev == B_LK && at_bound {
        return Some((c0, c1, c2, c3, c4, j));
    }
    if j == src.len() {
        return None;
    }
    let ch = src[j];
    if ch == B_LS {
        scan_stack_word(src, j + 1, c0 + 1, c1, c2, c3, c4, B_LS)
    } else if ch == B_LT {
        scan_stack_word(src, j + 1, c0, c1 + 1, c2, c3, c4, B_LT)
    } else if ch == B_LA {
        scan_stack_word(src, j + 1, c0, c1, c2 + 1, c3, c4, B_LA)
    } else if ch == B_LC {
        scan_stack_word(src, j + 1, c0, c1, c2, c3 + 1, c4, B_LC)
    } else if ch == B_LK {
        scan_stack_word(src, j + 1, c0, c1, c2, c3, c4 + 1, B_LK)
    } else {
        None
    }
}

/// Scans the tail of a Bad word; mirrors `scan_bad` step for step.
fn scan_bad_word(src: &Vec<u8>, j: usize, c0: u32, c1: u32, c2: u32, prev: u8) -> (r: Option<
    (u32, u32, u32, usize),
>)
    requires
        j <= src@.len(),
        src@.len() < u32::MAX,
        c0 + c1 + c2 <= j,
    ensures
        (match scan_bad(src@, j as int, c0, c1, c2, prev) {
            Some(t) => r matches Some(v) && v.0 == t.0 && v.1 == t.1 && v.2 == t.2 && v.3 as int
                == t.3 && j <= v.3 <= src@.len() && v.0 + v.1 + v.2 == c0 + c1 + c2 + (v.3 - j),
            None => r is None,
        }),
    decreases src@.len() - j,
{
    let at_bound = j == src.len() || src[j] == B_SPACE || src[j] == B_NEWLINE;
    if prev == B_LD && at_bound {
        return Some((c0, c1, c2, j));
    }
    if j == src.len() {
        return None;
    }
    let ch = src[j];
    if ch == B_LB {
        scan_bad_word(src, j + 1, c0 + 1, c1, c2, B_LB)
    } else if ch == B_LA {
        scan_bad_word(src, j + 1, c0, c1 + 1, c2, B_LA)
    } else if ch == B_LD {
        scan_bad_word(src, j + 1, c0, c1, c2 + 1, B_LD)
    } else {
        None
    }
}

/// Advances to the next newline or the end of input; mirrors `skip_comment`.
fn skip_to_newline(src: &Vec<u8>, j: usize) -> (r: usize)
    requires
        j <= src@.len(),
    ensures
        r as int == skip_comment(src@, j as int),
        j <= r <= src@.len(),
    decreases src@.len() - j,
{
    if j == src.len() {
        j
    } else if src[j] == B_NEWLINE {
        j
    } else {
        skip_to_newline(src, j + 1)
    }
}

} // verus!
