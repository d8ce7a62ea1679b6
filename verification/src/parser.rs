use vstd::prelude::*;
use crate::ast::{
    AssignmentExpr, BinaryExpr, BinaryOp, BlockExpr, ConstantExpr, DeclV, DefV, Expr, ExprV,
    FunctionDeclItem, FunctionDefItem, InvokeExpr, Item, ItemV, Linkage, LocalExpr, ReturnExpr,
    Type, UnaryExpr, UnaryOp, decl_view, def_view, expr_view, exprs_view, item_view, items_view,
    lemma_items_view_index, lemma_items_view_len, lemma_items_view_push,
};
use crate::error::{Error, ErrorKind};
use crate::lexer::clamp_idx;
use crate::token::{TokenPair, rec_is_zero};

verus! {

/// A syntax error at the position of the record just consumed (the record
/// at index `i - 1`); the parser only reports errors after the header, so
/// that record always exists.
pub open spec fn syn_err_at(toks: Seq<TokenPair>, i: int) -> Error {
    if 1 <= i <= toks.len() {
        Error { kind: ErrorKind::Syntax, line: toks[i - 1].line, col: toks[i - 1].col }
    } else {
        Error { kind: ErrorKind::Syntax, line: 1, col: 1 }
    }
}

/// One nibble pair decodes to the byte `high * 16 + low`, read as a
/// character; a field too large to be a nibble decodes to nothing.
pub open spec fn decode_pair(hi: u32, lo: u32) -> Option<char> {
    if hi <= 15 && lo <= 15 {
        Some(((hi * 16 + lo) as u8) as char)
    } else {
        None
    }
}

/// What one record contributes to a packed name.
pub ghost enum NameChunk {
    /// The name ends inside this record (a pair with a zero high nibble).
    Complete(Seq<char>),
    /// All four pairs carry characters; the name continues.
    Partial(Seq<char>),
    /// Some pair is not made of nibbles.
    Bad,
}

/// Splits a record into four (high, low) nibble pairs across its 8 fields
/// and decodes one byte per pair, stopping at the first pair whose high
/// nibble is zero (that pair excluded).
pub open spec fn decode_rec(r: TokenPair) -> NameChunk {
    if r.f0 == 0 {
        NameChunk::Complete(seq![])
    } else {
        match decode_pair(r.f0, r.f1) {
            None => NameChunk::Bad,
            Some(c0) => if r.f2 == 0 {
                NameChunk::Complete(seq![c0])
            } else {
                match decode_pair(r.f2, r.f3) {
                    None => NameChunk::Bad,
                    Some(c1) => if r.f4 == 0 {
                        NameChunk::Complete(seq![c0, c1])
                    } else {
                        match decode_pair(r.f4, r.f5) {
                            None => NameChunk::Bad,
                            Some(c2) => if r.f6 == 0 {
                                NameChunk::Complete(seq![c0, c1, c2])
                            } else {
                                match decode_pair(r.f6, r.f7) {
                                    None => NameChunk::Bad,
                                    Some(c3) => NameChunk::Partial(seq![c0, c1, c2, c3]),
                                }
                            },
                        }
                    },
                }
            },
        }
    }
}

/// What decoding a packed name from position `i` yields: the name's
/// characters and the position after its records, or a syntax error at the
/// offending record.
pub open spec fn parse_name_s(toks: Seq<TokenPair>, i: int) -> Result<(Seq<char>, int), Error>
    decreases toks.len() - i,
{
    if i < 0 || i >= toks.len() {
        Err(syn_err_at(toks, i))
    } else {
        match decode_rec(toks[i]) {
            NameChunk::Bad => Err(syn_err_at(toks, i + 1)),
            NameChunk::Complete(cs) => Ok((cs, i + 1)),
            NameChunk::Partial(cs) => match parse_name_s(toks, i + 1) {
                Ok((rest, j)) => Ok((cs + rest, j)),
                Err(e) => Err(e),
            },
        }
    }
}

/// What decoding `n` single-field type records from position `i` yields:
/// each record carries a type id in field 6.
pub open spec fn parse_type_arr_s(toks: Seq<TokenPair>, i: int, n: u32) -> Result<
    (Seq<Type>, int),
    Error,
>
    decreases n,
{
    if n == 0 {
        Ok((seq![], i))
    } else if i < 0 || i >= toks.len() {
        Err(syn_err_at(toks, i))
    } else {
        match Type::spec_from_id(toks[i].f6) {
            None => Err(syn_err_at(toks, i + 1)),
            Some(ty) => match parse_type_arr_s(toks, i + 1, (n - 1) as u32) {
                Ok((rest, j)) => Ok((seq![ty] + rest, j)),
                Err(e) => Err(e),
            },
        }
    }
}

/// The first declaration named `name` at or after position `p` of the item
/// list; definitions never satisfy a lookup.
pub open spec fn find_decl_from(items: Seq<ItemV>, p: int, name: Seq<char>) -> Option<DeclV>
    decreases items.len() - p,
{
    if p < 0 || p >= items.len() {
        None
    } else {
        match items[p] {
            ItemV::FunctionDecl(d) => if d.name == name {
                Some(d)
            } else {
                find_decl_from(items, p + 1, name)
            },
            ItemV::FunctionDef(_) => find_decl_from(items, p + 1, name),
        }
    }
}

/// The first declaration of a name among the items parsed so far; a call
/// resolves only against declarations that came earlier in the stream.
pub open spec fn find_decl_spec(items: Seq<ItemV>, name: Seq<char>) -> Option<DeclV> {
    find_decl_from(items, 0, name)
}

/// The combined slot count of a function: parameters first, then locals.
/// It is capped just above the largest representable slot index, beyond
/// which every 32-bit index is in range anyway.
pub open spec fn slot_count(nparams: nat, nlocals: nat) -> int {
    if nparams + nlocals > 0x1_0000_0000 {
        0x1_0000_0000
    } else {
        (nparams + nlocals) as int
    }
}

/// A Binary record: `[0, op, 0, 0, 0, 0, 0, 0]`.
pub open spec fn is_binary_rec(r: TokenPair) -> bool {
    r.f0 == 0 && r.f2 == 0 && r.f3 == 0 && r.f4 == 0 && r.f5 == 0 && r.f6 == 0 && r.f7 == 0
}

/// A Unary record: `[0, op, 0, 0, 0, 0, 1, 0]`.
pub open spec fn is_unary_rec(r: TokenPair) -> bool {
    r.f0 == 0 && r.f2 == 0 && r.f3 == 0 && r.f4 == 0 && r.f5 == 0 && r.f6 == 1 && r.f7 == 0
}

/// An Invoke record: `[0, 0, 0, 0, 0, 0, 2, 0]`.
pub open spec fn is_invoke_rec(r: TokenPair) -> bool {
    r.f0 == 0 && r.f1 == 0 && r.f2 == 0 && r.f3 == 0 && r.f4 == 0 && r.f5 == 0 && r.f6 == 2
        && r.f7 == 0
}

/// A Block record: `[0, 0, 0, 0, 0, 0, 3, 0]`.
pub open spec fn is_block_rec(r: TokenPair) -> bool {
    r.f0 == 0 && r.f1 == 0 && r.f2 == 0 && r.f3 == 0 && r.f4 == 0 && r.f5 == 0 && r.f6 == 3
        && r.f7 == 0
}

/// The block terminator record: `[0, 0, 0, 0, 1, 0, 0, 0]`.
pub open spec fn is_terminator_rec(r: TokenPair) -> bool {
    r.f0 == 0 && r.f1 == 0 && r.f2 == 0 && r.f3 == 0 && r.f4 == 1 && r.f5 == 0 && r.f6 == 0
        && r.f7 == 0
}

/// An Assignment record: `[0, 0, idx, 0, 0, 0, 4, 0]`.
pub open spec fn is_assign_rec(r: TokenPair) -> bool {
    r.f0 == 0 && r.f1 == 0 && r.f3 == 0 && r.f4 == 0 && r.f5 == 0 && r.f6 == 4 && r.f7 == 0
}

/// A Local record: `[0, 0, idx, 0, 0, 0, 5, 0]`.
pub open spec fn is_local_rec(r: TokenPair) -> bool {
    r.f0 == 0 && r.f1 == 0 && r.f3 == 0 && r.f4 == 0 && r.f5 == 0 && r.f6 == 5 && r.f7 == 0
}

/// A Constant record: `[0, ty, val, 0, 0, 0, 6, 0]`. Field 1 carries the
/// constant's type id; the historical encoding left the type out, so this
/// dialect fixes field 1 (unused by the old form) as the explicit type field.
pub open spec fn is_constant_rec(r: TokenPair) -> bool {
    r.f0 == 0 && r.f3 == 0 && r.f4 == 0 && r.f5 == 0 && r.f6 == 6 && r.f7 == 0
}

/// A Return record: `[0, 0, 0, 0, 0, 0, 7, 0]`, consuming one sub-expression.
pub open spec fn is_return_rec(r: TokenPair) -> bool {
    r.f0 == 0 && r.f1 == 0 && r.f2 == 0 && r.f3 == 0 && r.f4 == 0 && r.f5 == 0 && r.f6 == 7
        && r.f7 == 0
}

/// A FunctionDef header: `[0, 0, 1, 0, 0, 0, n_locals, 0]`.
pub open spec fn is_func_def_rec(r: TokenPair) -> bool {
    r.f0 == 0 && r.f1 == 0 && r.f2 == 1 && r.f3 == 0 && r.f4 == 0 && r.f5 == 0 && r.f7 == 0
}

/// A FunctionDecl header: `[0, 0, 0, 0, 0, linkage, return_ty, n_params]`.
pub open spec fn is_func_decl_rec(r: TokenPair) -> bool {
    r.f0 == 0 && r.f1 == 0 && r.f2 == 0 && r.f3 == 0 && r.f4 == 0
}

/// What parsing one expression from position `i` yields, against the items
/// parsed so far and the owning function's combined slot count. Field 6 is
/// the primary tag; the remaining fields are validated against the chosen
/// variant's shape, and an unrecognized combination is a syntax error. A
/// local index at or beyond the slot count is a syntax error at its record.
pub open spec fn parse_expr_s(toks: Seq<TokenPair>, i: int, items: Seq<ItemV>, nslots: int)
    -> Result<(ExprV, int), Error>
    decreases toks.len() - i, 2nat, 0nat,
{
    if i < 0 || i >= toks.len() {
        Err(syn_err_at(toks, i))
    } else {
        let r = toks[i];
        if is_binary_rec(r) {
            match BinaryOp::spec_from_id(r.f1) {
                None => Err(syn_err_at(toks, i + 1)),
                Some(op) => match parse_expr_s(toks, i + 1, items, nslots) {
                    Err(e) => Err(e),
                    Ok((a, j1)) => {
                        let j1c = clamp_idx(j1, i + 1, toks.len() as int);
                        match parse_expr_s(toks, j1c, items, nslots) {
                            Err(e) => Err(e),
                            Ok((b, j2)) => Ok(
                                (ExprV::Binary { op, a: Box::new(a), b: Box::new(b) }, j2),
                            ),
                        }
                    },
                },
            }
        } else if is_unary_rec(r) {
            match UnaryOp::spec_from_id(r.f1) {
                None => Err(syn_err_at(toks, i + 1)),
                Some(op) => match parse_expr_s(toks, i + 1, items, nslots) {
                    Err(e) => Err(e),
                    Ok((a, j1)) => Ok((ExprV::Unary { op, a: Box::new(a) }, j1)),
                },
            }
        } else if is_invoke_rec(r) {
            match parse_name_s(toks, i + 1) {
                Err(e) => Err(e),
                Ok((name, jn)) => {
                    let jc = clamp_idx(jn, i + 1, toks.len() as int);
                    match find_decl_spec(items, name) {
                        None => Err(syn_err_at(toks, jc)),
                        Some(decl) => match parse_args_s(
                            toks,
                            jc,
                            items,
                            nslots,
                            decl.params.len(),
                        ) {
                            Err(e) => Err(e),
                            Ok((args, j2)) => Ok((ExprV::Invoke { name, args }, j2)),
                        },
                    }
                },
            }
        } else if is_block_rec(r) {
            match parse_block_s(toks, i + 1, items, nslots) {
                Err(e) => Err(e),
                Ok((exprs, j)) => Ok((ExprV::Block { exprs }, j)),
            }
        } else if is_assign_rec(r) {
            if r.f2 < nslots {
                match parse_expr_s(toks, i + 1, items, nslots) {
                    Err(e) => Err(e),
                    Ok((v, j)) => Ok((ExprV::Assignment { local: r.f2, val: Box::new(v) }, j)),
                }
            } else {
                Err(syn_err_at(toks, i + 1))
            }
        } else if is_local_rec(r) {
            if r.f2 < nslots {
                Ok((ExprV::Local { local: r.f2 }, i + 1))
            } else {
                Err(syn_err_at(toks, i + 1))
            }
        } else if is_constant_rec(r) {
            match Type::spec_from_id(r.f1) {
                None => Err(syn_err_at(toks, i + 1)),
                Some(ty) => Ok((ExprV::Constant { ty, val: r.f2 }, i + 1)),
            }
        } else if is_return_rec(r) {
            match parse_expr_s(toks, i + 1, items, nslots) {
                Err(e) => Err(e),
                Ok((v, j)) => Ok((ExprV::Return { val: Box::new(v) }, j)),
            }
        } else {
            Err(syn_err_at(toks, i + 1))
        }
    }
}

/// What parsing expressions up to (and consuming) the block terminator
/// yields; the terminator itself is not part of the block.
pub open spec fn parse_block_s(toks: Seq<TokenPair>, i: int, items: Seq<ItemV>, nslots: int)
    -> Result<(Seq<ExprV>, int), Error>
    decreases toks.len() - i, 3nat, 0nat,
{
    if i < 0 || i >= toks.len() {
        Err(syn_err_at(toks, i))
    } else if is_terminator_rec(toks[i]) {
        Ok((seq![], i + 1))
    } else {
        match parse_expr_s(toks, i, items, nslots) {
            Err(e) => Err(e),
            Ok((e1, j)) => {
                let jc = clamp_idx(j, i + 1, toks.len() as int);
                match parse_block_s(toks, jc, items, nslots) {
                    Err(e) => Err(e),
                    Ok((rest, j2)) => Ok((seq![e1] + rest, j2)),
                }
            },
        }
    }
}

/// What parsing exactly `n` argument expressions yields: a call's arity is
/// the resolved declaration's parameter count, never fewer.
pub open spec fn parse_args_s(toks: Seq<TokenPair>, i: int, items: Seq<ItemV>, nslots: int, n: nat)
    -> Result<(Seq<ExprV>, int), Error>
    decreases toks.len() - i, 3nat, n,
{
    if n == 0 {
        Ok((seq![], i))
    } else if i < 0 || i >= toks.len() {
        Err(syn_err_at(toks, i))
    } else {
        match parse_expr_s(toks, i, items, nslots) {
            Err(e) => Err(e),
            Ok((e1, j)) => {
                let jc = clamp_idx(j, i + 1, toks.len() as int);
                match parse_args_s(toks, jc, items, nslots, (n - 1) as nat) {
                    Err(e) => Err(e),
                    Ok((rest, j2)) => Ok((seq![e1] + rest, j2)),
                }
            },
        }
    }
}

/// What parsing a declaration's tail (after its header record) yields: the
/// packed name, then the linkage, return type and parameter types given by
/// the header's fields.
pub open spec fn parse_func_decl_s(
    toks: Seq<TokenPair>,
    i: int,
    linkage: u32,
    rty: u32,
    nparams: u32,
) -> Result<(DeclV, int), Error> {
    match parse_name_s(toks, i) {
        Err(e) => Err(e),
        Ok((name, jn)) => match Linkage::spec_from_id(linkage) {
            None => Err(syn_err_at(toks, jn)),
            Some(lk) => match Type::spec_from_id(rty) {
                None => Err(syn_err_at(toks, jn)),
                Some(t) => match parse_type_arr_s(toks, jn, nparams) {
                    Err(e) => Err(e),
                    Ok((params, j2)) => Ok(
                        (DeclV { name, return_ty: t, params, linkage: lk }, j2),
                    ),
                },
            },
        },
    }
}

/// What parsing a definition's tail yields: the packed name, the local
/// types, then one body expression. The signature must have been declared
/// earlier (a definition without a prior declaration is a syntax error), and
/// the body's local indices are checked against the combined slot count.
pub open spec fn parse_func_def_s(toks: Seq<TokenPair>, i: int, items: Seq<ItemV>, nlocals: u32)
    -> Result<(DefV, int), Error> {
    match parse_name_s(toks, i) {
        Err(e) => Err(e),
        Ok((name, jn)) => match find_decl_spec(items, name) {
            None => Err(syn_err_at(toks, jn)),
            Some(decl) => match parse_type_arr_s(toks, jn, nlocals) {
                Err(e) => Err(e),
                Ok((locals, j2)) => {
                    let nslots = slot_count(decl.params.len(), locals.len());
                    match parse_expr_s(toks, j2, items, nslots) {
                        Err(e) => Err(e),
                        Ok((code, j3)) => Ok((DefV { name, locals, code }, j3)),
                    }
                },
            },
        },
    }
}

/// What parsing one top-level item yields: a record `[0,0,1,0,0,0,n,0]`
/// begins a definition with `n` locals, a record `[0,0,0,0,0,l,t,p]` begins
/// a declaration, and anything else is a syntax error.
pub open spec fn parse_item_s(toks: Seq<TokenPair>, i: int, items: Seq<ItemV>) -> Result<
    (ItemV, int),
    Error,
> {
    if i < 0 || i >= toks.len() {
        Err(syn_err_at(toks, i))
    } else {
        let r = toks[i];
        if is_func_def_rec(r) {
            match parse_func_def_s(toks, i + 1, items, r.f6) {
                Err(e) => Err(e),
                Ok((d, j)) => Ok((ItemV::FunctionDef(d), j)),
            }
        } else if is_func_decl_rec(r) {
            match parse_func_decl_s(toks, i + 1, r.f5, r.f6, r.f7) {
                Err(e) => Err(e),
                Ok((d, j)) => Ok((ItemV::FunctionDecl(d), j)),
            }
        } else {
            Err(syn_err_at(toks, i + 1))
        }
    }
}

/// What parsing items until the stream is exhausted yields, with `items`
/// the accumulated results so far.
pub open spec fn parse_items_s(toks: Seq<TokenPair>, i: int, items: Seq<ItemV>) -> Result<
    Seq<ItemV>,
    Error,
>
    decreases toks.len() - i,
{
    if i < 0 || i >= toks.len() {
        Ok(items)
    } else {
        match parse_item_s(toks, i, items) {
            Err(e) => Err(e),
            Ok((it, j)) => {
                let jc = clamp_idx(j, i + 1, toks.len() as int);
                parse_items_s(toks, jc, items.push(it))
            },
        }
    }
}

/// What parsing a whole record stream yields. The first record is the
/// mandatory header and must be all zero, else the result is a format error
/// at its position (or at 1:1 for an empty stream); the items follow.
pub open spec fn parse_spec(toks: Seq<TokenPair>) -> Result<Seq<ItemV>, Error> {
    if toks.len() == 0 {
        Err(Error { kind: ErrorKind::Format, line: 1, col: 1 })
    } else if !rec_is_zero(toks[0]) {
        Err(Error { kind: ErrorKind::Format, line: toks[0].line, col: toks[0].col })
    } else {
        parse_items_s(toks, 1, Seq::<ItemV>::empty())
    }
}

/// Builds the syntax error `syn_err_at` describes.
fn syntax_err(toks: &Vec<TokenPair>, i: usize) -> (e: Error)
    requires
        1 <= i <= toks@.len(),
    ensures
        e == syn_err_at(toks@, i as int),
{
    let t = &toks[i - 1];
    Error { kind: ErrorKind::Syntax, line: t.line, col: t.col }
}

/// Relies on String::push: appends the given character to the end of the
/// string.
#[verifier::external_body]
fn push_char(s: &mut String, c: char)
    ensures
        final(s)@ == old(s)@.push(c),
{
    s.push(c);
}

/// Decodes one nibble pair to its character; mirrors `decode_pair`.
fn decode_pair_x(hi: u32, lo: u32) -> (r: Option<char>)
    ensures
        r == decode_pair(hi, lo),
{
    if hi <= 15 && lo <= 15 {
        Some(((hi * 16 + lo) as u8) as char)
    } else {
        None
    }
}

/// Decodes a packed name starting at record `i`; mirrors `parse_name_s`.
fn parse_name_x(toks: &Vec<TokenPair>, i: usize) -> (r: Result<(String, usize), Error>)
    requires
        1 <= i <= toks@.len(),
    ensures
        (match parse_name_s(toks@, i as int) {
            Ok(t) => r matches Ok(v) && v.0@ == t.0 && v.1 as int == t.1 && i < v.1
                && v.1 <= toks@.len(),
            Err(e) => r matches Err(e2) && e2 == e,
        }),
    decreases toks@.len() - i,
{
    if i == toks.len() {
        return Err(syntax_err(toks, i));
    }
    let rec = &toks[i];
    let mut s = String::new();
    if rec.f0 == 0 {
        assert(s@ =~= Seq::<char>::empty());
        return Ok((s, i + 1));
    }
    match decode_pair_x(rec.f0, rec.f1) {
        None => {
            return Err(syntax_err(toks, i + 1));
        },
        Some(c) => push_char(&mut s, c),
    }
    if rec.f2 == 0 {
        assert(s@ =~= decode_rec(toks@[i as int])->Complete_0);
        return Ok((s, i + 1));
    }
    match decode_pair_x(rec.f2, rec.f3) {
        None => {
            return Err(syntax_err(toks, i + 1));
        },
        Some(c) => push_char(&mut s, c),
    }
    if rec.f4 == 0 {
        assert(s@ =~= decode_rec(toks@[i as int])->Complete_0);
        return Ok((s, i + 1));
    }
    match decode_pair_x(rec.f4, rec.f5) {
        None => {
            return Err(syntax_err(toks, i + 1));
        },
        Some(c) => push_char(&mut s, c),
    }
    if rec.f6 == 0 {
        assert(s@ =~= decode_rec(toks@[i as int])->Complete_0);
        return Ok((s, i + 1));
    }
    match decode_pair_x(rec.f6, rec.f7) {
        None => {
            return Err(syntax_err(toks, i + 1));
        },
        Some(c) => push_char(&mut s, c),
    }
    assert(s@ =~= decode_rec(toks@[i as int])->Partial_0);
    let t = parse_name_x(toks, i + 1)?;
    let rest = t.0;
    let j = t.1;
    let mut out = s;
    out.append(rest.as_str());
    Ok((out, j))
}

/// Decodes `n` type records starting at `i`; mirrors `parse_type_arr_s`.
fn parse_type_arr_x(toks: &Vec<TokenPair>, i: usize, n: u32) -> (r: Result<
    (Vec<Type>, usize),
    Error,
>)
    requires
        1 <= i <= toks@.len(),
    ensures
        (match parse_type_arr_s(toks@, i as int, n) {
            Ok(t) => r matches Ok(v) && v.0@ == t.0 && v.1 as int == t.1 && i <= v.1
                && v.1 <= toks@.len() && v.0@.len() == n,
            Err(e) => r matches Err(e2) && e2 == e,
        }),
    decreases n,
{
    if n == 0 {
        let out: Vec<Type> = Vec::new();
        assert(out@ =~= Seq::<Type>::empty());
        return Ok((out, i));
    }
    if i == toks.len() {
        return Err(syntax_err(toks, i));
    }
    match Type::from_id(toks[i].f6) {
        None => Err(syntax_err(toks, i + 1)),
        Some(ty) => {
            let t = parse_type_arr_x(toks, i + 1, n - 1)?;
            let ghost restv = t.0@;
            let mut out = t.0;
            out.insert(0, ty);
            assert(out@ =~= seq![ty] + restv);
            Ok((out, t.1))
        },
    }
}

/// Looks up the first declaration of `name` among the items parsed so far
/// and returns its parameter count; mirrors `find_decl_spec`.
fn callee_param_count(items: &Vec<Item>, name: &String) -> (r: Option<usize>)
    ensures
        (match find_decl_spec(items_view(items@), name@) {
            None => r is None,
            Some(d) => r matches Some(n) && n == d.params.len(),
        }),
{
    param_count_from(items, 0, name)
}

/// The declaration lookup from position `p` on; mirrors `find_decl_from`.
fn param_count_from(items: &Vec<Item>, p: usize, name: &String) -> (r: Option<usize>)
    requires
        p <= items@.len(),
    ensures
        (match find_decl_from(items_view(items@), p as int, name@) {
            None => r is None,
            Some(d) => r matches Some(n) && n == d.params.len(),
        }),
    decreases items@.len() - p,
{
    proof {
        lemma_items_view_len(items@);
    }
    if p == items.len() {
        return None;
    }
    proof {
        lemma_items_view_index(items@, p as int);
    }
    match &items[p] {
        Item::FunctionDecl(d) => {
            if d.name == *name {
                Some(d.params.len())
            } else {
                param_count_from(items, p + 1, name)
            }
        },
        Item::FunctionDef(_) => param_count_from(items, p + 1, name),
    }
}

/// Parses one expression; mirrors `parse_expr_s`.
fn parse_expr_x(toks: &Vec<TokenPair>, i: usize, items: &Vec<Item>, nslots: u64) -> (r: Result<
    (Expr, usize),
    Error,
>)
    requires
        1 <= i <= toks@.len(),
    ensures
        (match parse_expr_s(toks@, i as int, items_view(items@), nslots as int) {
            Ok(t) => r matches Ok(v) && expr_view(v.0) == t.0 && v.1 as int == t.1 && i < v.1
                && v.1 <= toks@.len(),
            Err(e) => r matches Err(e2) && e2 == e,
        }),
    decreases toks@.len() - i, 2nat, 0nat,
{
    if i == toks.len() {
        return Err(syntax_err(toks, i));
    }
    let f0 = toks[i].f0;
    let f1 = toks[i].f1;
    let f2 = toks[i].f2;
    let f3 = toks[i].f3;
    let f4 = toks[i].f4;
    let f5 = toks[i].f5;
    let f6 = toks[i].f6;
    let f7 = toks[i].f7;
    if f0 == 0 && f2 == 0 && f3 == 0 && f4 == 0 && f5 == 0 && f6 == 0 && f7 == 0 {
        match BinaryOp::from_id(f1) {
            None => Err(syntax_err(toks, i + 1)),
            Some(op) => {
                let ta = parse_expr_x(toks, i + 1, items, nslots)?;
                assert(clamp_idx(ta.1 as int, i + 1, toks@.len() as int) == ta.1 as int);
                let tb = parse_expr_x(toks, ta.1, items, nslots)?;
                Ok((Expr::Binary(BinaryExpr { op, a: Box::new(ta.0), b: Box::new(tb.0) }), tb.1))
            },
        }
    } else if f0 == 0 && f2 == 0 && f3 == 0 && f4 == 0 && f5 == 0 && f6 == 1 && f7 == 0 {
        match UnaryOp::from_id(f1) {
            None => Err(syntax_err(toks, i + 1)),
            Some(op) => {
                let ta = parse_expr_x(toks, i + 1, items, nslots)?;
                Ok((Expr::Unary(UnaryExpr { op, a: Box::new(ta.0) }), ta.1))
            },
        }
    } else if f0 == 0 && f1 == 0 && f2 == 0 && f3 == 0 && f4 == 0 && f5 == 0 && f6 == 2 && f7 == 0 {
        let tn = parse_name_x(toks, i + 1)?;
        let name = tn.0;
        let jn = tn.1;
        assert(clamp_idx(jn as int, i + 1, toks@.len() as int) == jn as int);
        match callee_param_count(items, &name) {
            None => Err(syntax_err(toks, jn)),
            Some(np) => {
                let ta = parse_args_x(toks, jn, items, nslots, np)?;
                Ok((Expr::Invoke(InvokeExpr { func_name: name, params: ta.0 }), ta.1))
            },
        }
    } else if f0 == 0 && f1 == 0 && f2 == 0 && f3 == 0 && f4 == 0 && f5 == 0 && f6 == 3 && f7 == 0 {
        let tb = parse_block_x(toks, i + 1, items, nslots)?;
        Ok((Expr::Block(BlockExpr { exprs: tb.0 }), tb.1))
    } else if f0 == 0 && f1 == 0 && f3 == 0 && f4 == 0 && f5 == 0 && f6 == 4 && f7 == 0 {
        if (f2 as u64) < nslots {
            let tv = parse_expr_x(toks, i + 1, items, nslots)?;
            Ok((Expr::Assignment(AssignmentExpr { local: f2, val: Box::new(tv.0) }), tv.1))
        } else {
            Err(syntax_err(toks, i + 1))
        }
    } else if f0 == 0 && f1 == 0 && f3 == 0 && f4 == 0 && f5 == 0 && f6 == 5 && f7 == 0 {
        if (f2 as u64) < nslots {
            Ok((Expr::Local(LocalExpr { local: f2 }), i + 1))
        } else {
            Err(syntax_err(toks, i + 1))
        }
    } else if f0 == 0 && f3 == 0 && f4 == 0 && f5 == 0 && f6 == 6 && f7 == 0 {
        match Type::from_id(f1) {
            None => Err(syntax_err(toks, i + 1)),
            Some(ty) => Ok((Expr::Constant(ConstantExpr { ty, val: f2 }), i + 1)),
        }
    } else if f0 == 0 && f1 == 0 && f2 == 0 && f3 == 0 && f4 == 0 && f5 == 0 && f6 == 7 && f7 == 0 {
        let tv = parse_expr_x(toks, i + 1, items, nslots)?;
        Ok((Expr::Return(ReturnExpr { val: Box::new(tv.0) }), tv.1))
    } else {
        Err(syntax_err(toks, i + 1))
    }
}

/// Parses a block's expressions up to its terminator; mirrors
/// `parse_block_s`.
fn parse_block_x(toks: &Vec<TokenPair>, i: usize, items: &Vec<Item>, nslots: u64) -> (r: Result<
    (Vec<Expr>, usize),
    Error,
>)
    requires
        1 <= i <= toks@.len(),
    ensures
        (match parse_block_s(toks@, i as int, items_view(items@), nslots as int) {
            Ok(t) => r matches Ok(v) && exprs_view(v.0@) == t.0 && v.1 as int == t.1 && i < v.1
                && v.1 <= toks@.len(),
            Err(e) => r matches Err(e2) && e2 == e,
        }),
    decreases toks@.len() - i, 3nat, 0nat,
{
    if i == toks.len() {
        return Err(syntax_err(toks, i));
    }
    let t0 = &toks[i];
    if t0.f0 == 0 && t0.f1 == 0 && t0.f2 == 0 && t0.f3 == 0 && t0.f4 == 1 && t0.f5 == 0 && t0.f6
        == 0 && t0.f7 == 0 {
        let out: Vec<Expr> = Vec::new();
        assert(exprs_view(out@) =~= Seq::<ExprV>::empty());
        return Ok((out, i + 1));
    }
    let te = parse_expr_x(toks, i, items, nslots)?;
    assert(clamp_idx(te.1 as int, i + 1, toks@.len() as int) == te.1 as int);
    let tr = parse_block_x(toks, te.1, items, nslots)?;
    let ghost restv = tr.0@;
    let mut out = tr.0;
    out.insert(0, te.0);
    proof {
        assert(out@ =~= seq![te.0] + restv);
        lemma_exprs_view_cons(te.0, restv);
    }
    Ok((out, tr.1))
}

/// Parses exactly `n` argument expressions; mirrors `parse_args_s`.
fn parse_args_x(toks: &Vec<TokenPair>, i: usize, items: &Vec<Item>, nslots: u64, n: usize) -> (r:
    Result<(Vec<Expr>, usize), Error>)
    requires
        1 <= i <= toks@.len(),
    ensures
        (match parse_args_s(toks@, i as int, items_view(items@), nslots as int, n as nat) {
            Ok(t) => r matches Ok(v) && exprs_view(v.0@) == t.0 && v.1 as int == t.1 && i <= v.1
                && v.1 <= toks@.len(),
            Err(e) => r matches Err(e2) && e2 == e,
        }),
    decreases toks@.len() - i, 3nat, n,
{
    if n == 0 {
        let out: Vec<Expr> = Vec::new();
        assert(exprs_view(out@) =~= Seq::<ExprV>::empty());
        return Ok((out, i));
    }
    let te = parse_expr_x(toks, i, items, nslots)?;
    assert(clamp_idx(te.1 as int, i + 1, toks@.len() as int) == te.1 as int);
    let tr = parse_args_x(toks, te.1, items, nslots, n - 1)?;
    let ghost restv = tr.0@;
    let mut out = tr.0;
    out.insert(0, te.0);
    proof {
        assert(out@ =~= seq![te.0] + restv);
        lemma_exprs_view_cons(te.0, restv);
    }
    Ok((out, tr.1))
}

/// Abstraction commutes with putting one expression in front of a list.
proof fn lemma_exprs_view_cons(e: Expr, rest: Seq<Expr>)
    ensures
        exprs_view(seq![e] + rest) == seq![expr_view(e)] + exprs_view(rest),
{
    let s = seq![e] + rest;
    assert(s.len() == 1 + rest.len());
    assert(s[0] == e);
    assert(s.drop_first() =~= rest);
}

/// Parses a declaration's tail; mirrors `parse_func_decl_s`.
fn parse_func_decl_x(toks: &Vec<TokenPair>, i: usize, linkage: u32, rty: u32, nparams: u32) -> (r:
    Result<(FunctionDeclItem, usize), Error>)
    requires
        1 <= i <= toks@.len(),
    ensures
        (match parse_func_decl_s(toks@, i as int, linkage, rty, nparams) {
            Ok(t) => r matches Ok(v) && decl_view(v.0) == t.0 && v.1 as int == t.1 && i < v.1
                && v.1 <= toks@.len(),
            Err(e) => r matches Err(e2) && e2 == e,
        }),
{
    let tn = parse_name_x(toks, i)?;
    let name = tn.0;
    let jn = tn.1;
    let lk = match linkage {
        0 => Linkage::External,
        1 => Linkage::Internal,
        _ => {
            return Err(syntax_err(toks, jn));
        },
    };
    let t = match Type::from_id(rty) {
        Some(t) => t,
        None => {
            return Err(syntax_err(toks, jn));
        },
    };
    let tp = parse_type_arr_x(toks, jn, nparams)?;
    Ok((FunctionDeclItem { name, return_ty: t, params: tp.0, linkage: lk }, tp.1))
}

/// Parses a definition's tail; mirrors `parse_func_def_s`.
fn parse_func_def_x(toks: &Vec<TokenPair>, i: usize, items: &Vec<Item>, nlocals: u32) -> (r:
    Result<(FunctionDefItem, usize), Error>)
    requires
        1 <= i <= toks@.len(),
    ensures
        (match parse_func_def_s(toks@, i as int, items_view(items@), nlocals) {
            Ok(t) => r matches Ok(v) && def_view(v.0) == t.0 && v.1 as int == t.1 && i < v.1
                && v.1 <= toks@.len(),
            Err(e) => r matches Err(e2) && e2 == e,
        }),
{
    let tn = parse_name_x(toks, i)?;
    let name = tn.0;
    let jn = tn.1;
    let np = match callee_param_count(items, &name) {
        Some(n) => n,
        None => {
            return Err(syntax_err(toks, jn));
        },
    };
    let tl = parse_type_arr_x(toks, jn, nlocals)?;
    let locals = tl.0;
    let j2 = tl.1;
    let npu = np as u64;
    let nlu = locals.len() as u64;
    let nslots: u64 = if npu >= 0x1_0000_0000 {
        0x1_0000_0000
    } else if npu + nlu >= 0x1_0000_0000 {
        0x1_0000_0000
    } else {
        npu + nlu
    };
    assert(nslots as int == slot_count(np as nat, locals@.len()));
    let tc = parse_expr_x(toks, j2, items, nslots)?;
    Ok((FunctionDefItem { name, locals, code: tc.0 }, tc.1))
}

/// Parses one top-level item; mirrors `parse_item_s`.
fn parse_item_x(toks: &Vec<TokenPair>, i: usize, items: &Vec<Item>) -> (r: Result<
    (Item, usize),
    Error,
>)
    requires
        1 <= i <= toks@.len(),
    ensures
        (match parse_item_s(toks@, i as int, items_view(items@)) {
            Ok(t) => r matches Ok(v) && item_view(v.0) == t.0 && v.1 as int == t.1 && i < v.1
                && v.1 <= toks@.len(),
            Err(e) => r matches Err(e2) && e2 == e,
        }),
{
    if i == toks.len() {
        return Err(syntax_err(toks, i));
    }
    let f0 = toks[i].f0;
    let f1 = toks[i].f1;
    let f2 = toks[i].f2;
    let f3 = toks[i].f3;
    let f4 = toks[i].f4;
    let f5 = toks[i].f5;
    let f6 = toks[i].f6;
    let f7 = toks[i].f7;
    if f0 == 0 && f1 == 0 && f2 == 1 && f3 == 0 && f4 == 0 && f5 == 0 && f7 == 0 {
        let td = parse_func_def_x(toks, i + 1, items, f6)?;
        Ok((Item::FunctionDef(td.0), td.1))
    } else if f0 == 0 && f1 == 0 && f2 == 0 && f3 == 0 && f4 == 0 {
        let td = parse_func_decl_x(toks, i + 1, f5, f6, f7)?;
        Ok((Item::FunctionDecl(td.0), td.1))
    } else {
        Err(syntax_err(toks, i + 1))
    }
}

/// The grammar parser: it interprets the record stream as a tagged
/// instruction stream and builds the item list, keeping the declarations
/// parsed so far as its running signature table.
pub struct Parser {
    pub i: usize,
    pub tokens: Vec<TokenPair>,
    pub items: Vec<Item>,
}

impl Parser {
    /// Builds a parser over a record stream, positioned at its start with an
    /// empty signature table.
    pub fn new(tokens: Vec<TokenPair>) -> (p: Parser)
        ensures
            p.tokens == tokens,
            p.i == 0,
            p.items@ =~= Seq::<Item>::empty(),
    {
        Parser { i: 0, tokens, items: Vec::new() }
    }

    /// Parses the whole record stream: consumes the mandatory all-zero
    /// header record (else a format error at its position, or at 1:1 when
    /// the stream is empty), then top-level items until the stream is
    /// exhausted; the result is exactly what `parse_spec` says of the
    /// stream.
    pub fn parse(self) -> (r: Result<Vec<Item>, Error>)
        requires
            self.i == 0,
            self.items@.len() == 0,
        ensures
            (match parse_spec(self.tokens@) {
                Ok(itsv) => r matches Ok(v) && items_view(v@) == itsv,
                Err(e) => r matches Err(e2) && e2 == e,
            }),
    {
        let toks = self.tokens;
        if toks.len() == 0 {
            return Err(Error { kind: ErrorKind::Format, line: 1, col: 1 });
        }
        if !toks[0].is_zero() {
            return Err(Error { kind: ErrorKind::Format, line: toks[0].line, col: toks[0].col });
        }
        let mut i: usize = 1;
        let mut items: Vec<Item> = Vec::new();
        assert(items_view(items@) =~= Seq::<ItemV>::empty());
        while i < toks.len()
            invariant
                1 <= i <= toks@.len(),
                toks@ == self.tokens@,
                rec_is_zero(toks@[0]),
                parse_items_s(toks@, i as int, items_view(items@)) == parse_items_s(
                    toks@,
                    1,
                    Seq::<ItemV>::empty(),
                ),
            decreases toks@.len() - i,
        {
            match parse_item_x(&toks, i, &items) {
                Err(e) => {
                    return Err(e);
                },
                Ok(t) => {
                    proof {
                        assert(clamp_idx(t.1 as int, i as int + 1, toks@.len() as int) == t.1
                            as int);
                        lemma_items_view_push(items@, t.0);
                    }
                    items.push(t.0);
                    i = t.1;
                },
            }
        }
        Ok(items)
    }
}

} // verus!
