use vstd::prelude::*;
use crate::ast::{ItemV, expr_slots_ok, exprs_slots_ok};
use crate::codegen::{insts_slots_ok, lemma_lower_expr_slots, lower_def_s};
use crate::compile_spec;
use crate::error::{Error, ErrorKind};
use crate::lexer::{
    B_LA, B_LB, B_LC, B_LD, B_LK, B_LS, B_LT, B_SPACE, clamp_idx, is_boundary, lex_spec,
    scan_bad, scan_stack,
};
use crate::parser::{
    NameChunk, decode_rec, find_decl_from, find_decl_spec, is_assign_rec, is_binary_rec,
    is_block_rec, is_constant_rec, is_func_decl_rec, is_func_def_rec, is_invoke_rec, is_local_rec,
    is_return_rec, is_terminator_rec, is_unary_rec, parse_args_s, parse_block_s, parse_expr_s,
    parse_func_def_s, parse_item_s, parse_items_s, parse_name_s, parse_spec, parse_type_arr_s,
    slot_count,
};
use crate::token::{Token, TokenData, TokenPair, pair_seq_spec, rec_is_zero};

verus! {

/// Every expression the parser accepts addresses only slots below the
/// combined slot count it was parsed against.
pub proof fn lemma_parse_expr_slots(toks: Seq<TokenPair>, i: int, items: Seq<ItemV>, nslots: int)
    ensures
        parse_expr_s(toks, i, items, nslots) matches Ok(t) ==> expr_slots_ok(t.0, nslots),
    decreases toks.len() - i, 2nat, 0nat,
{
    if 0 <= i < toks.len() {
        let r = toks[i];
        if is_binary_rec(r) {
            match crate::ast::BinaryOp::spec_from_id(r.f1) {
                None => {},
                Some(op) => match parse_expr_s(toks, i + 1, items, nslots) {
                    Err(_) => {},
                    Ok((a, j1)) => {
                        lemma_parse_expr_slots(toks, i + 1, items, nslots);
                        let j1c = clamp_idx(j1, i + 1, toks.len() as int);
                        lemma_parse_expr_slots(toks, j1c, items, nslots);
                    },
                },
            }
        } else if is_unary_rec(r) {
            lemma_parse_expr_slots(toks, i + 1, items, nslots);
        } else if is_invoke_rec(r) {
            match parse_name_s(toks, i + 1) {
                Err(_) => {},
                Ok((name, jn)) => {
                    let jc = clamp_idx(jn, i + 1, toks.len() as int);
                    match find_decl_spec(items, name) {
                        None => {},
                        Some(decl) => {
                            lemma_parse_args_slots(toks, jc, items, nslots, decl.params.len());
                        },
                    }
                },
            }
        } else if is_block_rec(r) {
            lemma_parse_block_slots(toks, i + 1, items, nslots);
        } else if is_assign_rec(r) {
            if r.f2 < nslots {
                lemma_parse_expr_slots(toks, i + 1, items, nslots);
            }
        } else if is_local_rec(r) {
        } else if is_constant_rec(r) {
        } else if is_return_rec(r) {
            lemma_parse_expr_slots(toks, i + 1, items, nslots);
        }
    }
}

/// As `lemma_parse_expr_slots`, for a block's expression list.
proof fn lemma_parse_block_slots(toks: Seq<TokenPair>, i: int, items: Seq<ItemV>, nslots: int)
    ensures
        parse_block_s(toks, i, items, nslots) matches Ok(t) ==> exprs_slots_ok(t.0, nslots),
    decreases toks.len() - i, 3nat, 0nat,
{
    if 0 <= i < toks.len() && !is_terminator_rec(toks[i]) {
        match parse_expr_s(toks, i, items, nslots) {
            Err(_) => {},
            Ok((e1, j)) => {
                lemma_parse_expr_slots(toks, i, items, nslots);
                let jc = clamp_idx(j, i + 1, toks.len() as int);
                lemma_parse_block_slots(toks, jc, items, nslots);
                match parse_block_s(toks, jc, items, nslots) {
                    Err(_) => {},
                    Ok((rest, j2)) => {
                        assert((seq![e1] + rest).drop_first() =~= rest);
                        assert((seq![e1] + rest)[0] == e1);
                    },
                }
            },
        }
    }
}

/// As `lemma_parse_expr_slots`, for a call's argument list.
proof fn lemma_parse_args_slots(
    toks: Seq<TokenPair>,
    i: int,
    items: Seq<ItemV>,
    nslots: int,
    n: nat,
)
    ensures
        parse_args_s(toks, i, items, nslots, n) matches Ok(t) ==> exprs_slots_ok(t.0, nslots),
    decreases toks.len() - i, 3nat, n,
{
    if n > 0 && 0 <= i < toks.len() {
        match parse_expr_s(toks, i, items, nslots) {
            Err(_) => {},
            Ok((e1, j)) => {
                lemma_parse_expr_slots(toks, i, items, nslots);
                let jc = clamp_idx(j, i + 1, toks.len() as int);
                lemma_parse_args_slots(toks, jc, items, nslots, (n - 1) as nat);
                match parse_args_s(toks, jc, items, nslots, (n - 1) as nat) {
                    Err(_) => {},
                    Ok((rest, j2)) => {
                        assert((seq![e1] + rest).drop_first() =~= rest);
                        assert((seq![e1] + rest)[0] == e1);
                    },
                }
            },
        }
    }
}

/// A definition the parser accepts never addresses a slot outside its
/// combined table — the parameters of its prior declaration followed by its
/// own locals — and neither does any store or load of its lowered body.
pub proof fn lemma_accepted_definition_slots_in_range(
    toks: Seq<TokenPair>,
    i: int,
    items: Seq<ItemV>,
    nlocals: u32,
)
    ensures
        parse_func_def_s(toks, i, items, nlocals) matches Ok(t) ==> find_decl_spec(
            items,
            t.0.name,
        ) matches Some(decl) && expr_slots_ok(
            t.0.code,
            slot_count(decl.params.len(), t.0.locals.len()),
        ) && insts_slots_ok(
            lower_def_s(t.0).body,
            slot_count(decl.params.len(), t.0.locals.len()),
        ),
{
    match parse_name_s(toks, i) {
        Err(_) => {},
        Ok((name, jn)) => match find_decl_spec(items, name) {
            None => {},
            Some(decl) => match parse_type_arr_s(toks, jn, nlocals) {
                Err(_) => {},
                Ok((locals, j2)) => {
                    let nslots = slot_count(decl.params.len(), locals.len());
                    lemma_parse_expr_slots(toks, j2, items, nslots);
                    match parse_expr_s(toks, j2, items, nslots) {
                        Err(_) => {},
                        Ok((code, j3)) => {
                            lemma_lower_expr_slots(code, 0, nslots);
                        },
                    }
                },
            },
        },
    }
}

/// Whether every definition of an item list addresses only slots of its
/// own combined table: the parameters of the first declaration of its name
/// in the list, followed by its own locals.
pub open spec fn items_slots_ok(items: Seq<ItemV>) -> bool {
    forall|k: int|
        0 <= k < items.len() ==> (#[trigger] items[k] matches ItemV::FunctionDef(d)
            ==> find_decl_spec(items, d.name) matches Some(decl) && expr_slots_ok(
            d.code,
            slot_count(decl.params.len(), d.locals.len()),
        ))
}

/// Appending an item never changes which declaration an already resolvable
/// name resolves to: lookups return the first declaration, and appending
/// adds only later ones.
proof fn lemma_find_decl_from_push(items: Seq<ItemV>, it: ItemV, p: int, name: Seq<char>)
    requires
        0 <= p,
        find_decl_from(items, p, name) is Some,
    ensures
        find_decl_from(items.push(it), p, name) == find_decl_from(items, p, name),
    decreases items.len() - p,
{
    if p < items.len() {
        assert(items.push(it)[p] == items[p]);
        match items[p] {
            ItemV::FunctionDecl(d) => {
                if d.name != name {
                    lemma_find_decl_from_push(items, it, p + 1, name);
                }
            },
            ItemV::FunctionDef(_) => {
                lemma_find_decl_from_push(items, it, p + 1, name);
            },
        }
    }
}

/// Parsing items preserves slot validity: starting from an accumulator
/// whose definitions are slot-valid, every item list the parser completes
/// is slot-valid as a whole.
proof fn lemma_parse_items_slots(toks: Seq<TokenPair>, i: int, items: Seq<ItemV>)
    requires
        items_slots_ok(items),
    ensures
        parse_items_s(toks, i, items) matches Ok(out) ==> items_slots_ok(out),
    decreases toks.len() - i,
{
    if 0 <= i < toks.len() {
        match parse_item_s(toks, i, items) {
            Err(_) => {},
            Ok((it, j)) => {
                let grown = items.push(it);
                assert forall|k: int|
                    0 <= k < grown.len() implies (#[trigger] grown[k] matches ItemV::FunctionDef(
                    d,
                ) ==> find_decl_spec(grown, d.name) matches Some(decl) && expr_slots_ok(
                    d.code,
                    slot_count(decl.params.len(), d.locals.len()),
                )) by {
                    if k < items.len() {
                        assert(grown[k] == items[k]);
                        match items[k] {
                            ItemV::FunctionDef(d) => {
                                lemma_find_decl_from_push(items, it, 0, d.name);
                            },
                            ItemV::FunctionDecl(_) => {},
                        }
                    } else {
                        assert(grown[k] == it);
                        let r = toks[i];
                        if is_func_def_rec(r) {
                            lemma_accepted_definition_slots_in_range(toks, i + 1, items, r.f6);
                            match it {
                                ItemV::FunctionDef(d) => {
                                    lemma_find_decl_from_push(items, it, 0, d.name);
                                },
                                ItemV::FunctionDecl(_) => {},
                            }
                        }
                    }
                }
                let jc = clamp_idx(j, i + 1, toks.len() as int);
                lemma_parse_items_slots(toks, jc, grown);
            },
        }
    }
}

/// Every definition the front end accepts addresses only slots of its own
/// combined table, resolved against its declaration in the returned item
/// list: out-of-range indices never survive to code generation.
pub proof fn lemma_compile_slots_ok(s: Seq<u8>)
    ensures
        compile_spec(s) matches Ok(items) ==> items_slots_ok(items),
{
    match lex_spec(s) {
        Err(_) => {},
        Ok(ts) => match pair_seq_spec(ts) {
            Err(_) => {},
            Ok(rs) => {
                if rs.len() >= 1 && rec_is_zero(rs[0]) {
                    assert(items_slots_ok(Seq::<ItemV>::empty()));
                    lemma_parse_items_slots(rs, 1, Seq::<ItemV>::empty());
                }
            },
        },
    }
}

/// The byte `b` repeated `n` times.
pub open spec fn rep(b: u8, n: nat) -> Seq<u8> {
    Seq::new(n, |i: int| b)
}

/// The canonical spelling of a Stack word with the given letter counts:
/// each letter of the keyword repeated its count, in keyword order.
pub open spec fn canonical_stack(c0: u32, c1: u32, c2: u32, c3: u32, c4: u32) -> Seq<u8> {
    rep(B_LS, c0 as nat) + rep(B_LT, c1 as nat) + rep(B_LA, c2 as nat) + rep(B_LC, c3 as nat)
        + rep(B_LK, c4 as nat)
}

/// The canonical spelling of a Bad word with the given letter counts.
pub open spec fn canonical_bad(b0: u32, b1: u32, b2: u32) -> Seq<u8> {
    rep(B_LB, b0 as nat) + rep(B_LA, b1 as nat) + rep(B_LD, b2 as nat)
}

/// Scanning a run of `n` copies of one Stack letter adds `n` to that
/// letter's counter and leaves the scanner just past the run.
proof fn lemma_scan_stack_run(
    s: Seq<u8>,
    j: int,
    n: int,
    ch: u8,
    c0: u32,
    c1: u32,
    c2: u32,
    c3: u32,
    c4: u32,
    prev: u8,
)
    requires
        0 <= j,
        0 <= n,
        j + n <= s.len(),
        forall|p: int| j <= p < j + n ==> s[p] == ch,
        ch == B_LS || ch == B_LT || ch == B_LA || ch == B_LC || ch == B_LK,
        c0 + c1 + c2 + c3 + c4 + n <= u32::MAX,
    ensures
        scan_stack(s, j, c0, c1, c2, c3, c4, prev) == scan_stack(
            s,
            j + n,
            ((c0 + if ch == B_LS { n } else { 0 }) as u32),
            ((c1 + if ch == B_LT { n } else { 0 }) as u32),
            ((c2 + if ch == B_LA { n } else { 0 }) as u32),
            ((c3 + if ch == B_LC { n } else { 0 }) as u32),
            ((c4 + if ch == B_LK { n } else { 0 }) as u32),
            if n > 0 { ch } else { prev },
        ),
    decreases n,
{
    if n > 0 {
        assert(s[j] == ch);
        assert(!is_boundary(s, j));
        if ch == B_LS {
            lemma_scan_stack_run(s, j + 1, n - 1, ch, (c0 + 1) as u32, c1, c2, c3, c4, ch);
        } else if ch == B_LT {
            lemma_scan_stack_run(s, j + 1, n - 1, ch, c0, (c1 + 1) as u32, c2, c3, c4, ch);
        } else if ch == B_LA {
            lemma_scan_stack_run(s, j + 1, n - 1, ch, c0, c1, (c2 + 1) as u32, c3, c4, ch);
        } else if ch == B_LC {
            lemma_scan_stack_run(s, j + 1, n - 1, ch, c0, c1, c2, (c3 + 1) as u32, c4, ch);
        } else {
            lemma_scan_stack_run(s, j + 1, n - 1, ch, c0, c1, c2, c3, (c4 + 1) as u32, ch);
        }
    }
}

/// Scanning a run of `n` copies of one Bad letter adds `n` to that letter's
/// counter and leaves the scanner just past the run.
proof fn lemma_scan_bad_run(
    s: Seq<u8>,
    j: int,
    n: int,
    ch: u8,
    c0: u32,
    c1: u32,
    c2: u32,
    prev: u8,
)
    requires
        0 <= j,
        0 <= n,
        j + n <= s.len(),
        forall|p: int| j <= p < j + n ==> s[p] == ch,
        ch == B_LB || ch == B_LA || ch == B_LD,
        c0 + c1 + c2 + n <= u32::MAX,
    ensures
        scan_bad(s, j, c0, c1, c2, prev) == scan_bad(
            s,
            j + n,
            ((c0 + if ch == B_LB { n } else { 0 }) as u32),
            ((c1 + if ch == B_LA { n } else { 0 }) as u32),
            ((c2 + if ch == B_LD { n } else { 0 }) as u32),
            if n > 0 { ch } else { prev },
        ),
    decreases n,
{
    if n > 0 {
        assert(s[j] == ch);
        assert(!is_boundary(s, j));
        if ch == B_LB {
            lemma_scan_bad_run(s, j + 1, n - 1, ch, (c0 + 1) as u32, c1, c2, ch);
        } else if ch == B_LA {
            lemma_scan_bad_run(s, j + 1, n - 1, ch, c0, (c1 + 1) as u32, c2, ch);
        } else {
            lemma_scan_bad_run(s, j + 1, n - 1, ch, c0, c1, (c2 + 1) as u32, ch);
        }
    }
}

/// Round trip of the counting scheme. Lexing the canonical spelling of a
/// Stack word and a Bad word recovers exactly the letter counts that were
/// encoded; pairing the two words yields the record whose eight fields are
/// those counts each minus one; and adding one back to every field (the
/// re-encoding) gives the original counts again.
pub proof fn lemma_count_round_trip(
    c0: u32,
    c1: u32,
    c2: u32,
    c3: u32,
    c4: u32,
    b0: u32,
    b1: u32,
    b2: u32,
)
    requires
        c0 >= 1 && c1 >= 1 && c2 >= 1 && c3 >= 1 && c4 >= 1,
        b0 >= 1 && b1 >= 1 && b2 >= 1,
        c0 + c1 + c2 + c3 + c4 + b0 + b1 + b2 + 1 <= u32::MAX,
    ensures
        ({
            let s = canonical_stack(c0, c1, c2, c3, c4) + seq![B_SPACE] + canonical_bad(
                b0,
                b1,
                b2,
            );
            let ls = c0 + c1 + c2 + c3 + c4;
            let stack_tok = Token { line: 1, col: 1, data: TokenData::Stack(c0, c1, c2, c3, c4) };
            let bad_tok = Token {
                line: 1,
                col: (ls + 2) as usize,
                data: TokenData::Bad(b0, b1, b2),
            };
            let rec = TokenPair {
                line: 1,
                col: 1,
                f0: (c0 - 1) as u32,
                f1: (c1 - 1) as u32,
                f2: (c2 - 1) as u32,
                f3: (c3 - 1) as u32,
                f4: (c4 - 1) as u32,
                f5: (b0 - 1) as u32,
                f6: (b1 - 1) as u32,
                f7: (b2 - 1) as u32,
            };
            lex_spec(s) == Ok::<Seq<Token>, Error>(seq![stack_tok, bad_tok]) && pair_seq_spec(
                seq![stack_tok, bad_tok],
            ) == Ok::<Seq<TokenPair>, Error>(seq![rec]) && rec.f0 + 1 == c0 && rec.f1 + 1 == c1
                && rec.f2 + 1 == c2 && rec.f3 + 1 == c3 && rec.f4 + 1 == c4 && rec.f5 + 1 == b0
                && rec.f6 + 1 == b1 && rec.f7 + 1 == b2
        }),
{
    let cs = canonical_stack(c0, c1, c2, c3, c4);
    let cb = canonical_bad(b0, b1, b2);
    let s = cs + seq![B_SPACE] + cb;
    let ls = c0 + c1 + c2 + c3 + c4;
    let lb = b0 + b1 + b2;
    assert(cs.len() == ls);
    assert(cb.len() == lb);
    assert(s.len() == ls + 1 + lb);

    assert forall|p: int| 0 <= p < ls + 1 + lb implies s[p] == (if p < c0 {
        B_LS
    } else if p < c0 + c1 {
        B_LT
    } else if p < c0 + c1 + c2 {
        B_LA
    } else if p < c0 + c1 + c2 + c3 {
        B_LC
    } else if p < ls {
        B_LK
    } else if p == ls {
        B_SPACE
    } else if p < ls + 1 + b0 {
        B_LB
    } else if p < ls + 1 + b0 + b1 {
        B_LA
    } else {
        B_LD
    }) by {
        if p < ls {
            assert(s[p] == cs[p]);
        } else if p == ls {
            assert(s[p] == B_SPACE);
        } else {
            assert(s[p] == cb[p - (ls + 1)]);
        }
    }

    // Scan the Stack word: its first letter starts the counters, then one
    // run per letter of the keyword.
    lemma_scan_stack_run(s, 1, c0 - 1, B_LS, 1, 0, 0, 0, 0, B_LS);
    lemma_scan_stack_run(s, c0 as int, c1 as int, B_LT, c0, 0, 0, 0, 0, B_LS);
    lemma_scan_stack_run(s, c0 + c1, c2 as int, B_LA, c0, c1, 0, 0, 0, B_LT);
    lemma_scan_stack_run(s, c0 + c1 + c2, c3 as int, B_LC, c0, c1, c2, 0, 0, B_LA);
    lemma_scan_stack_run(s, c0 + c1 + c2 + c3, c4 as int, B_LK, c0, c1, c2, c3, 0, B_LC);
    assert(is_boundary(s, ls as int));
    assert(scan_stack(s, ls as int, c0, c1, c2, c3, c4, B_LK) == Some(
        (c0, c1, c2, c3, c4, ls as int),
    ));
    assert(scan_stack(s, 1, 1, 0, 0, 0, 0, B_LS) == Some((c0, c1, c2, c3, c4, ls as int)));

    // Scan the Bad word, which runs to the end of the input.
    lemma_scan_bad_run(s, ls + 2, b0 - 1, B_LB, 1, 0, 0, B_LB);
    lemma_scan_bad_run(s, ls + 1 + b0, b1 as int, B_LA, b0, 0, 0, B_LB);
    lemma_scan_bad_run(s, ls + 1 + b0 + b1, b2 as int, B_LD, b0, b1, 0, B_LA);
    assert(is_boundary(s, s.len() as int));
    assert(scan_bad(s, s.len() as int, b0, b1, b2, B_LD) == Some(
        (b0, b1, b2, s.len() as int),
    ));
    assert(scan_bad(s, ls + 2, 1, 0, 0, B_LB) == Some((b0, b1, b2, s.len() as int)));

    let stack_tok = Token { line: 1, col: 1, data: TokenData::Stack(c0, c1, c2, c3, c4) };
    let bad_tok = Token { line: 1, col: (ls + 2) as usize, data: TokenData::Bad(b0, b1, b2) };

    assert(s[0] == B_LS);
    assert(s[ls as int] == B_SPACE);
    assert(s[ls + 1] == B_LB);
    assert(lex_spec(s) == Ok::<Seq<Token>, Error>(seq![stack_tok, bad_tok])) by {
        assert(crate::lexer::lex_from(s, s.len() as int, 1, (ls + 1 + lb) as int) == Ok::<
            Seq<Token>,
            Error,
        >(Seq::empty()));
        assert(crate::lexer::lex_from(s, ls + 1, 1, ls + 1) == Ok::<Seq<Token>, Error>(
            seq![bad_tok],
        )) by {
            assert(seq![bad_tok] + Seq::<Token>::empty() =~= seq![bad_tok]);
        }
        assert(crate::lexer::lex_from(s, ls as int, 1, ls as int) == Ok::<Seq<Token>, Error>(
            seq![bad_tok],
        ));
        assert(crate::lexer::lex_from(s, 0, 1, 0) == Ok::<Seq<Token>, Error>(
            seq![stack_tok, bad_tok],
        )) by {
            assert(seq![stack_tok] + seq![bad_tok] =~= seq![stack_tok, bad_tok]);
        }
    }

    let rec = TokenPair {
        line: 1,
        col: 1,
        f0: (c0 - 1) as u32,
        f1: (c1 - 1) as u32,
        f2: (c2 - 1) as u32,
        f3: (c3 - 1) as u32,
        f4: (c4 - 1) as u32,
        f5: (b0 - 1) as u32,
        f6: (b1 - 1) as u32,
        f7: (b2 - 1) as u32,
    };
    assert(pair_seq_spec(seq![stack_tok, bad_tok]) == Ok::<Seq<TokenPair>, Error>(seq![rec])) by {
        let ts = seq![stack_tok, bad_tok];
        assert(ts.skip(2) =~= Seq::<Token>::empty());
        assert(pair_seq_spec(ts.skip(2)) == Ok::<Seq<TokenPair>, Error>(Seq::empty()));
        assert(seq![rec] + Seq::<TokenPair>::empty() =~= seq![rec]);
    }
}

/// Whether a word sequence alternates classes as the record pairer expects:
/// a Stack word on every even position, a Bad word on every odd one.
pub open spec fn alternating(ts: Seq<Token>) -> bool {
    forall|k: int|
        0 <= k < ts.len() ==> if k % 2 == 0 {
            (#[trigger] ts[k].data) is Stack
        } else {
            ts[k].data is Bad
        }
}

/// A word stream of odd length always fails pairing, whatever the words
/// hold, and every pairing failure is a format error.
pub proof fn lemma_odd_count_fails(ts: Seq<Token>)
    requires
        ts.len() % 2 == 1,
    ensures
        pair_seq_spec(ts) matches Err(e) && e.kind == ErrorKind::Format,
    decreases ts.len(),
{
    if ts.len() > 1 {
        lemma_odd_count_fails(ts.skip(2));
    }
}

/// A properly alternating word stream of odd length fails pairing with a
/// format error at the last word's position: the word left without a
/// partner.
pub proof fn lemma_odd_count_fails_at_last(ts: Seq<Token>)
    requires
        ts.len() % 2 == 1,
        alternating(ts),
    ensures
        pair_seq_spec(ts) == Err::<Seq<TokenPair>, Error>(
            Error {
                kind: ErrorKind::Format,
                line: ts[ts.len() - 1].line,
                col: ts[ts.len() - 1].col,
            },
        ),
    decreases ts.len(),
{
    if ts.len() > 1 {
        assert(ts[0].data is Stack);
        assert(ts[1].data is Bad);
        let tail = ts.skip(2);
        assert forall|k: int| 0 <= k < tail.len() implies if k % 2 == 0 {
            (#[trigger] tail[k].data) is Stack
        } else {
            tail[k].data is Bad
        } by {
            assert(tail[k] == ts[k + 2]);
        }
        lemma_odd_count_fails_at_last(tail);
        assert(tail[tail.len() - 1] == ts[ts.len() - 1]);
    }
}

/// An input whose word count is odd never compiles: pairing fails with a
/// format error, and when the words alternate classes properly the error
/// stands at the last word's position — the word left without a partner.
pub proof fn lemma_compile_odd_word_count_fails(s: Seq<u8>)
    ensures
        lex_spec(s) matches Ok(ws) ==> (ws.len() % 2 == 1 ==> (compile_spec(s) matches Err(e)
            && e.kind == ErrorKind::Format)),
        lex_spec(s) matches Ok(ws) ==> (ws.len() % 2 == 1 && alternating(ws) ==> compile_spec(s)
            == Err::<Seq<ItemV>, Error>(
            Error {
                kind: ErrorKind::Format,
                line: ws[ws.len() - 1].line,
                col: ws[ws.len() - 1].col,
            },
        )),
{
    match lex_spec(s) {
        Err(_) => {},
        Ok(ws) => {
            if ws.len() % 2 == 1 {
                lemma_odd_count_fails(ws);
                if alternating(ws) {
                    lemma_odd_count_fails_at_last(ws);
                }
            }
        },
    }
}

/// A non-zero first record always fails parsing with a format error at that
/// record's position, regardless of what follows: the all-zero header is
/// mandatory.
pub proof fn lemma_bad_header_fails(toks: Seq<TokenPair>)
    requires
        toks.len() >= 1,
        !rec_is_zero(toks[0]),
    ensures
        parse_spec(toks) == Err::<Seq<ItemV>, Error>(
            Error { kind: ErrorKind::Format, line: toks[0].line, col: toks[0].col },
        ),
{
}

/// A call to a name with no prior declaration always fails with a syntax
/// error. The lookup table holds exactly the items parsed earlier in the
/// stream, so a definition or declaration of that name appearing later
/// cannot satisfy the call.
pub proof fn lemma_undeclared_callee_fails(
    toks: Seq<TokenPair>,
    i: int,
    items: Seq<ItemV>,
    nslots: int,
)
    requires
        0 <= i < toks.len(),
        is_invoke_rec(toks[i]),
        parse_name_s(toks, i + 1) matches Ok(t) && find_decl_spec(items, t.0) is None,
    ensures
        parse_expr_s(toks, i, items, nslots) matches Err(e) && e.kind == ErrorKind::Syntax,
{
}

/// A local index at or beyond the combined slot count (parameters plus
/// locals) always fails with a syntax error, in a read as in an assignment:
/// it never wraps around or addresses an unrelated slot.
pub proof fn lemma_local_index_out_of_range_fails(
    toks: Seq<TokenPair>,
    i: int,
    items: Seq<ItemV>,
    nslots: int,
)
    requires
        0 <= i < toks.len(),
        is_local_rec(toks[i]) || is_assign_rec(toks[i]),
        toks[i].f2 >= nslots,
    ensures
        parse_expr_s(toks, i, items, nslots) matches Err(e) && e.kind == ErrorKind::Syntax,
{
}

/// Compiling is deterministic: the front end's result is a function of the
/// source bytes alone, so two compilations of the same text yield
/// structurally identical item lists (and identical errors).
pub proof fn lemma_compile_deterministic(
    s: Seq<u8>,
    r1: Result<Seq<ItemV>, Error>,
    r2: Result<Seq<ItemV>, Error>,
)
    requires
        r1 == compile_spec(s),
        r2 == compile_spec(s),
    ensures
        r1 == r2,
{
}

/// Whether two records carry the same eight fields, wherever in the source
/// they stand.
pub open spec fn same_fields(a: TokenPair, b: TokenPair) -> bool {
    a.f0 == b.f0 && a.f1 == b.f1 && a.f2 == b.f2 && a.f3 == b.f3 && a.f4 == b.f4 && a.f5 == b.f5
        && a.f6 == b.f6 && a.f7 == b.f7
}

/// Whether two record streams carry the same fields record for record.
pub open spec fn same_fields_seq(a: Seq<TokenPair>, b: Seq<TokenPair>) -> bool {
    a.len() == b.len() && forall|k: int| 0 <= k < a.len() ==> same_fields(#[trigger] a[k], b[k])
}

/// Whether two parse outcomes agree up to error positions: the same value
/// on success, or failure on both sides.
pub open spec fn same_outcome<T>(r1: Result<T, Error>, r2: Result<T, Error>) -> bool {
    match (r1, r2) {
        (Ok(x), Ok(y)) => x == y,
        (Err(_), Err(_)) => true,
        _ => false,
    }
}

/// Packed-name decoding reads only the records' fields.
proof fn lemma_name_pos_indep(a: Seq<TokenPair>, b: Seq<TokenPair>, i: int)
    requires
        same_fields_seq(a, b),
    ensures
        same_outcome(parse_name_s(a, i), parse_name_s(b, i)),
    decreases a.len() - i,
{
    if 0 <= i < a.len() {
        assert(same_fields(a[i], b[i]));
        assert(decode_rec(a[i]) == decode_rec(b[i]));
        match decode_rec(a[i]) {
            NameChunk::Partial(_) => {
                lemma_name_pos_indep(a, b, i + 1);
            },
            _ => {},
        }
    }
}

/// Type-record decoding reads only the records' fields.
proof fn lemma_type_arr_pos_indep(a: Seq<TokenPair>, b: Seq<TokenPair>, i: int, n: u32)
    requires
        same_fields_seq(a, b),
    ensures
        same_outcome(parse_type_arr_s(a, i, n), parse_type_arr_s(b, i, n)),
    decreases n,
{
    if n > 0 && 0 <= i < a.len() {
        assert(same_fields(a[i], b[i]));
        lemma_type_arr_pos_indep(a, b, i + 1, (n - 1) as u32);
    }
}

/// Expression parsing reads only the records' fields.
proof fn lemma_expr_pos_indep(
    a: Seq<TokenPair>,
    b: Seq<TokenPair>,
    i: int,
    items: Seq<ItemV>,
    nslots: int,
)
    requires
        same_fields_seq(a, b),
    ensures
        same_outcome(parse_expr_s(a, i, items, nslots), parse_expr_s(b, i, items, nslots)),
    decreases a.len() - i, 2nat, 0nat,
{
    if 0 <= i < a.len() {
        let r = a[i];
        assert(same_fields(a[i], b[i]));
        if is_binary_rec(r) {
            match crate::ast::BinaryOp::spec_from_id(r.f1) {
                None => {},
                Some(op) => {
                    lemma_expr_pos_indep(a, b, i + 1, items, nslots);
                    match parse_expr_s(a, i + 1, items, nslots) {
                        Err(_) => {},
                        Ok((x, j1)) => {
                            let j1c = clamp_idx(j1, i + 1, a.len() as int);
                            lemma_expr_pos_indep(a, b, j1c, items, nslots);
                        },
                    }
                },
            }
        } else if is_unary_rec(r) {
            lemma_expr_pos_indep(a, b, i + 1, items, nslots);
        } else if is_invoke_rec(r) {
            lemma_name_pos_indep(a, b, i + 1);
            match parse_name_s(a, i + 1) {
                Err(_) => {},
                Ok((name, jn)) => {
                    let jc = clamp_idx(jn, i + 1, a.len() as int);
                    match find_decl_spec(items, name) {
                        None => {},
                        Some(decl) => {
                            lemma_args_pos_indep(a, b, jc, items, nslots, decl.params.len());
                        },
                    }
                },
            }
        } else if is_block_rec(r) {
            lemma_block_pos_indep(a, b, i + 1, items, nslots);
        } else if is_assign_rec(r) {
            if r.f2 < nslots {
                lemma_expr_pos_indep(a, b, i + 1, items, nslots);
            }
        } else if is_local_rec(r) {
        } else if is_constant_rec(r) {
        } else if is_return_rec(r) {
            lemma_expr_pos_indep(a, b, i + 1, items, nslots);
        }
    }
}

/// Block parsing reads only the records' fields.
proof fn lemma_block_pos_indep(
    a: Seq<TokenPair>,
    b: Seq<TokenPair>,
    i: int,
    items: Seq<ItemV>,
    nslots: int,
)
    requires
        same_fields_seq(a, b),
    ensures
        same_outcome(parse_block_s(a, i, items, nslots), parse_block_s(b, i, items, nslots)),
    decreases a.len() - i, 3nat, 0nat,
{
    if 0 <= i < a.len() {
        assert(same_fields(a[i], b[i]));
        if !is_terminator_rec(a[i]) {
            lemma_expr_pos_indep(a, b, i, items, nslots);
            match parse_expr_s(a, i, items, nslots) {
                Err(_) => {},
                Ok((e1, j)) => {
                    let jc = clamp_idx(j, i + 1, a.len() as int);
                    lemma_block_pos_indep(a, b, jc, items, nslots);
                },
            }
        }
    }
}

/// Argument parsing reads only the records' fields.
proof fn lemma_args_pos_indep(
    a: Seq<TokenPair>,
    b: Seq<TokenPair>,
    i: int,
    items: Seq<ItemV>,
    nslots: int,
    n: nat,
)
    requires
        same_fields_seq(a, b),
    ensures
        same_outcome(
            parse_args_s(a, i, items, nslots, n),
            parse_args_s(b, i, items, nslots, n),
        ),
    decreases a.len() - i, 3nat, n,
{
    if n > 0 && 0 <= i < a.len() {
        lemma_expr_pos_indep(a, b, i, items, nslots);
        match parse_expr_s(a, i, items, nslots) {
            Err(_) => {},
            Ok((e1, j)) => {
                let jc = clamp_idx(j, i + 1, a.len() as int);
                lemma_args_pos_indep(a, b, jc, items, nslots, (n - 1) as nat);
            },
        }
    }
}

/// Item parsing reads only the records' fields.
proof fn lemma_item_pos_indep(a: Seq<TokenPair>, b: Seq<TokenPair>, i: int, items: Seq<ItemV>)
    requires
        same_fields_seq(a, b),
    ensures
        same_outcome(parse_item_s(a, i, items), parse_item_s(b, i, items)),
{
    if 0 <= i < a.len() {
        let r = a[i];
        assert(same_fields(a[i], b[i]));
        if is_func_def_rec(r) {
            lemma_name_pos_indep(a, b, i + 1);
            match parse_name_s(a, i + 1) {
                Err(_) => {},
                Ok((name, jn)) => match find_decl_spec(items, name) {
                    None => {},
                    Some(decl) => {
                        lemma_type_arr_pos_indep(a, b, jn, r.f6);
                        match parse_type_arr_s(a, jn, r.f6) {
                            Err(_) => {},
                            Ok((locals, j2)) => {
                                let nslots = slot_count(decl.params.len(), locals.len());
                                lemma_expr_pos_indep(a, b, j2, items, nslots);
                            },
                        }
                    },
                },
            }
        } else if is_func_decl_rec(r) {
            lemma_name_pos_indep(a, b, i + 1);
            match parse_name_s(a, i + 1) {
                Err(_) => {},
                Ok((name, jn)) => {
                    lemma_type_arr_pos_indep(a, b, jn, r.f7);
                },
            }
        }
    }
}

/// Item-list parsing reads only the records' fields.
proof fn lemma_items_pos_indep(a: Seq<TokenPair>, b: Seq<TokenPair>, i: int, items: Seq<ItemV>)
    requires
        same_fields_seq(a, b),
    ensures
        same_outcome(parse_items_s(a, i, items), parse_items_s(b, i, items)),
    decreases a.len() - i,
{
    if 0 <= i < a.len() {
        lemma_item_pos_indep(a, b, i, items);
        match parse_item_s(a, i, items) {
            Err(_) => {},
            Ok((it, j)) => {
                let jc = clamp_idx(j, i + 1, a.len() as int);
                lemma_items_pos_indep(a, b, jc, items.push(it));
            },
        }
    }
}

/// Parsing ignores position metadata: two record streams that carry the
/// same fields record for record parse to the same item list, or both fail
/// (only their errors' positions may differ). Items carry no positions, so
/// success on streams that differ only in positions yields structurally
/// identical results.
pub proof fn lemma_parse_position_independent(a: Seq<TokenPair>, b: Seq<TokenPair>)
    requires
        same_fields_seq(a, b),
    ensures
        same_outcome(parse_spec(a), parse_spec(b)),
{
    if a.len() >= 1 {
        assert(same_fields(a[0], b[0]));
        if rec_is_zero(a[0]) {
            lemma_items_pos_indep(a, b, 1, Seq::<ItemV>::empty());
        }
    }
}

} // verus!
