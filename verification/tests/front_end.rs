use stack_bad::ast::{
    AssignmentExpr, BinaryExpr, BinaryOp, BlockExpr, ConstantExpr, Expr, FunctionDeclItem,
    FunctionDefItem, InvokeExpr, Item, Linkage, LocalExpr, ReturnExpr, Type, UnaryExpr, UnaryOp,
};
use stack_bad::compile;
use stack_bad::error::{Error, ErrorKind};
use stack_bad::lexer::Lexer;
use stack_bad::token::{Token, TokenData, TokenPair, pair_tokens};

fn stack_word(c: [u32; 5]) -> String {
    let mut s = String::new();
    s.push_str(&"s".repeat(c[0] as usize));
    s.push_str(&"t".repeat(c[1] as usize));
    s.push_str(&"a".repeat(c[2] as usize));
    s.push_str(&"c".repeat(c[3] as usize));
    s.push_str(&"k".repeat(c[4] as usize));
    s
}

fn bad_word(c: [u32; 3]) -> String {
    let mut s = String::new();
    s.push_str(&"b".repeat(c[0] as usize));
    s.push_str(&"a".repeat(c[1] as usize));
    s.push_str(&"d".repeat(c[2] as usize));
    s
}

/// Spells one 8-field record as its canonical Stack-word/Bad-word pair.
fn record(f: [u32; 8]) -> String {
    format!(
        "{} {}",
        stack_word([f[0] + 1, f[1] + 1, f[2] + 1, f[3] + 1, f[4] + 1]),
        bad_word([f[5] + 1, f[6] + 1, f[7] + 1])
    )
}

fn program(recs: &[[u32; 8]]) -> String {
    let words: Vec<String> = recs.iter().map(|r| record(*r)).collect();
    words.join(" ")
}

/// The records that encode a packed name, nibble pair by nibble pair.
fn name_records(name: &str) -> Vec<[u32; 8]> {
    let bytes: Vec<u8> = name.bytes().collect();
    let mut pairs: Vec<(u32, u32)> = bytes
        .iter()
        .map(|b| ((*b >> 4) as u32, (*b & 0xf) as u32))
        .collect();
    // Terminate with a zero-high pair, padding the final record.
    pairs.push((0, 0));
    while pairs.len() % 4 != 0 {
        pairs.push((0, 0));
    }
    let mut recs = Vec::new();
    for chunk in pairs.chunks(4) {
        recs.push([
            chunk[0].0, chunk[0].1, chunk[1].0, chunk[1].1, chunk[2].0, chunk[2].1, chunk[3].0,
            chunk[3].1,
        ]);
    }
    recs
}

const HEADER: [u32; 8] = [0, 0, 0, 0, 0, 0, 0, 0];

fn decl_records(name: &str, linkage: u32, rty: u32, param_tys: &[u32]) -> Vec<[u32; 8]> {
    let mut recs = vec![[0, 0, 0, 0, 0, linkage, rty, param_tys.len() as u32]];
    recs.extend(name_records(name));
    for t in param_tys {
        recs.push([0, 0, 0, 0, 0, 0, *t, 0]);
    }
    recs
}

fn def_header_records(name: &str, local_tys: &[u32]) -> Vec<[u32; 8]> {
    let mut recs = vec![[0, 0, 1, 0, 0, 0, local_tys.len() as u32, 0]];
    recs.extend(name_records(name));
    for t in local_tys {
        recs.push([0, 0, 0, 0, 0, 0, *t, 0]);
    }
    recs
}

#[test]
fn round_trip_counts() {
    // Decoding a Stack word's letter counts and re-encoding them yields the
    // same record fields.
    let src = format!("{} {}", stack_word([2, 1, 3, 1, 1]), bad_word([1, 2, 1]));
    let tokens = Lexer::new(&src).lex().unwrap();
    assert_eq!(tokens.len(), 2);
    assert_eq!(tokens[0].data, TokenData::Stack(2, 1, 3, 1, 1));
    assert_eq!(tokens[1].data, TokenData::Bad(1, 2, 1));
    let rec = TokenPair::new(tokens[0], tokens[1]).unwrap();
    assert_eq!(
        (rec.f0, rec.f1, rec.f2, rec.f3, rec.f4, rec.f5, rec.f6, rec.f7),
        (1, 0, 2, 0, 0, 0, 1, 0)
    );
    // Re-encode: each field plus one is a letter count again.
    let src2 = format!(
        "{} {}",
        stack_word([rec.f0 + 1, rec.f1 + 1, rec.f2 + 1, rec.f3 + 1, rec.f4 + 1]),
        bad_word([rec.f5 + 1, rec.f6 + 1, rec.f7 + 1])
    );
    let tokens2 = Lexer::new(&src2).lex().unwrap();
    assert_eq!(tokens2[0].data, tokens[0].data);
    assert_eq!(tokens2[1].data, tokens[1].data);
}

#[test]
fn odd_word_count_fails_at_last_word() {
    let src = "stack bad stack";
    let tokens = Lexer::new(src).lex().unwrap();
    assert_eq!(tokens.len(), 3);
    let err = pair_tokens(&tokens).unwrap_err();
    assert_eq!(err.kind, ErrorKind::Format);
    assert_eq!((err.line, err.col), (1, 11));
}

#[test]
fn wrong_word_order_fails() {
    let src = "bad stack";
    let tokens = Lexer::new(src).lex().unwrap();
    let err = pair_tokens(&tokens).unwrap_err();
    assert_eq!(err.kind, ErrorKind::Format);
    assert_eq!((err.line, err.col), (1, 1));
}

#[test]
fn pair_new_rejects_wrong_classes() {
    let stack = Token { line: 3, col: 5, data: TokenData::Stack(1, 1, 1, 1, 1) };
    let bad = Token { line: 3, col: 9, data: TokenData::Bad(1, 1, 1) };
    assert!(TokenPair::new(stack, bad).is_ok());
    let err = TokenPair::new(bad, stack).unwrap_err();
    assert_eq!(err.kind, ErrorKind::Format);
    assert_eq!((err.line, err.col), (3, 9));
    // A proper Stack word followed by a word of the wrong class: the error
    // still carries the pair's first word's position.
    let err2 = TokenPair::new(stack, stack).unwrap_err();
    assert_eq!(err2.kind, ErrorKind::Format);
    assert_eq!((err2.line, err2.col), (3, 5));
}

#[test]
fn second_word_wrong_class_fails_at_first_word() {
    let tokens = Lexer::new("stack stack").lex().unwrap();
    let err = pair_tokens(&tokens).unwrap_err();
    assert_eq!(err.kind, ErrorKind::Format);
    assert_eq!((err.line, err.col), (1, 1));
}

#[test]
fn record_keeps_stack_word_position() {
    let tokens = Lexer::new("\n  stack bad").lex().unwrap();
    let recs = pair_tokens(&tokens).unwrap();
    assert_eq!(recs.len(), 1);
    assert_eq!((recs[0].line, recs[0].col), (2, 3));
    assert!(recs[0].is_zero());
    let err = recs[0].error();
    assert_eq!(err.kind, ErrorKind::Format);
    assert_eq!((err.line, err.col), (2, 3));
}

#[test]
fn non_zero_header_fails() {
    // First record [1,0,0,0,0,0,0,0]: a format error at its position, no
    // matter what follows.
    let mut recs = vec![[1, 0, 0, 0, 0, 0, 0, 0]];
    recs.extend(decl_records("f", 0, 2, &[]));
    let err = compile(&program(&recs)).unwrap_err();
    assert_eq!(err.kind, ErrorKind::Format);
    assert_eq!((err.line, err.col), (1, 1));
}

#[test]
fn empty_input_fails_format() {
    let err = compile("").unwrap_err();
    assert_eq!(err.kind, ErrorKind::Format);
    assert_eq!((err.line, err.col), (1, 1));
}

#[test]
fn comment_only_input_fails_format() {
    let err = compile("# nothing here\n").unwrap_err();
    assert_eq!(err.kind, ErrorKind::Format);
}

#[test]
fn header_only_compiles_to_no_items() {
    let items = compile("stack bad").unwrap();
    assert!(items.is_empty());
}

#[test]
fn undeclared_callee_fails_even_with_later_definition() {
    // f's body calls g; g is only declared after f's definition.
    let mut recs = vec![HEADER];
    recs.extend(decl_records("f", 0, 2, &[]));
    recs.extend(def_header_records("f", &[]));
    recs.push([0, 0, 0, 0, 0, 0, 2, 0]); // Invoke
    recs.extend(name_records("g"));
    recs.extend(decl_records("g", 0, 2, &[]));
    let err = compile(&program(&recs)).unwrap_err();
    assert_eq!(err.kind, ErrorKind::Syntax);
}

#[test]
fn local_index_out_of_range_fails() {
    // f has 0 parameters and 1 local: slot 1 does not exist.
    let mut recs = vec![HEADER];
    recs.extend(decl_records("f", 0, 2, &[]));
    recs.extend(def_header_records("f", &[2]));
    recs.push([0, 0, 1, 0, 0, 0, 5, 0]); // Local 1
    let err = compile(&program(&recs)).unwrap_err();
    assert_eq!(err.kind, ErrorKind::Syntax);
}

#[test]
fn local_index_in_range_parses() {
    let mut recs = vec![HEADER];
    recs.extend(decl_records("f", 0, 2, &[]));
    recs.extend(def_header_records("f", &[2]));
    recs.push([0, 0, 0, 0, 0, 0, 5, 0]); // Local 0
    let items = compile(&program(&recs)).unwrap();
    assert_eq!(items.len(), 2);
    match &items[1] {
        Item::FunctionDef(d) => {
            assert_eq!(d.code, Expr::Local(LocalExpr { local: 0 }));
        }
        _ => panic!("expected a definition"),
    }
}

#[test]
fn assignment_index_out_of_range_fails() {
    let mut recs = vec![HEADER];
    recs.extend(decl_records("f", 0, 2, &[]));
    recs.extend(def_header_records("f", &[2]));
    recs.push([0, 0, 7, 0, 0, 0, 4, 0]); // Assignment to slot 7
    recs.push([0, 2, 1, 0, 0, 0, 6, 0]); // Constant I32 1
    let err = compile(&program(&recs)).unwrap_err();
    assert_eq!(err.kind, ErrorKind::Syntax);
}

#[test]
fn end_to_end_return_constant() {
    // Header, an external I32 declaration of f, and a definition of f whose
    // body returns the I32 constant 7.
    let mut recs = vec![HEADER];
    recs.extend(decl_records("f", 0, 2, &[]));
    recs.extend(def_header_records("f", &[]));
    recs.push([0, 0, 0, 0, 0, 0, 7, 0]); // Return
    recs.push([0, 2, 7, 0, 0, 0, 6, 0]); // Constant I32 7
    let items = compile(&program(&recs)).unwrap();
    assert_eq!(items.len(), 2);
    assert_eq!(
        items[0],
        Item::FunctionDecl(FunctionDeclItem {
            name: "f".to_string(),
            return_ty: Type::I32,
            params: vec![],
            linkage: Linkage::External,
        })
    );
    assert_eq!(
        items[1],
        Item::FunctionDef(FunctionDefItem {
            name: "f".to_string(),
            locals: vec![],
            code: Expr::Return(ReturnExpr {
                val: Box::new(Expr::Constant(ConstantExpr { ty: Type::I32, val: 7 })),
            }),
        })
    );
}

#[test]
fn invoke_with_too_few_arguments_fails() {
    // g expects 2 arguments; inside a block, its call finds one constant
    // and then the block terminator, which parses as no expression: the
    // call must fail, not silently truncate.
    let mut recs = vec![HEADER];
    recs.extend(decl_records("g", 0, 2, &[2, 2]));
    recs.extend(decl_records("f", 0, 2, &[]));
    recs.extend(def_header_records("f", &[]));
    recs.push([0, 0, 0, 0, 0, 0, 3, 0]); // Block
    recs.push([0, 0, 0, 0, 0, 0, 2, 0]); // Invoke
    recs.extend(name_records("g"));
    recs.push([0, 2, 1, 0, 0, 0, 6, 0]); // Constant I32 1 (first argument)
    recs.push([0, 0, 0, 0, 1, 0, 0, 0]); // block terminator
    let err = compile(&program(&recs)).unwrap_err();
    assert_eq!(err.kind, ErrorKind::Syntax);
}

#[test]
fn invoke_with_exact_arguments_parses() {
    let mut recs = vec![HEADER];
    recs.extend(decl_records("g", 0, 2, &[2, 2]));
    recs.extend(decl_records("f", 0, 2, &[]));
    recs.extend(def_header_records("f", &[]));
    recs.push([0, 0, 0, 0, 0, 0, 2, 0]); // Invoke
    recs.extend(name_records("g"));
    recs.push([0, 2, 1, 0, 0, 0, 6, 0]); // Constant I32 1
    recs.push([0, 2, 2, 0, 0, 0, 6, 0]); // Constant I32 2
    let items = compile(&program(&recs)).unwrap();
    match &items[2] {
        Item::FunctionDef(d) => {
            assert_eq!(
                d.code,
                Expr::Invoke(InvokeExpr {
                    func_name: "g".to_string(),
                    params: vec![
                        Expr::Constant(ConstantExpr { ty: Type::I32, val: 1 }),
                        Expr::Constant(ConstantExpr { ty: Type::I32, val: 2 }),
                    ],
                })
            );
        }
        _ => panic!("expected a definition"),
    }
}

#[test]
fn compiling_twice_is_idempotent() {
    let mut recs = vec![HEADER];
    recs.extend(decl_records("f", 1, 3, &[0, 1]));
    recs.extend(def_header_records("f", &[2]));
    recs.push([0, 0, 0, 0, 0, 0, 3, 0]); // Block
    recs.push([0, 0, 0, 0, 0, 0, 5, 0]); // Local 0
    recs.push([0, 0, 0, 0, 1, 0, 0, 0]); // terminator
    let src = program(&recs);
    let items1 = compile(&src).unwrap();
    let items2 = compile(&src).unwrap();
    assert_eq!(items1, items2);
}

#[test]
fn lexer_rejects_illegal_character() {
    let err = Lexer::new("stack xbad").lex().unwrap_err();
    assert_eq!(err.kind, ErrorKind::Lexical);
    assert_eq!((err.line, err.col), (1, 7));
}

#[test]
fn lexer_rejects_word_missing_a_letter() {
    // "sk" ends after a k but never saw t, a, or c.
    let err = Lexer::new("sk bad").lex().unwrap_err();
    assert_eq!(err.kind, ErrorKind::Lexical);
    assert_eq!((err.line, err.col), (1, 1));
}

#[test]
fn lexer_rejects_unterminated_word() {
    // End of input right after "sta": the word never reached its final k.
    let err = Lexer::new("sta").lex().unwrap_err();
    assert_eq!(err.kind, ErrorKind::Lexical);
}

#[test]
fn lexer_accepts_end_of_input_terminator_for_both_classes() {
    let tokens = Lexer::new("stack").lex().unwrap();
    assert_eq!(tokens.len(), 1);
    assert_eq!(tokens[0].data, TokenData::Stack(1, 1, 1, 1, 1));
    let tokens2 = Lexer::new("bad").lex().unwrap();
    assert_eq!(tokens2.len(), 1);
    assert_eq!(tokens2[0].data, TokenData::Bad(1, 1, 1));
}

#[test]
fn lexer_skips_comments_and_tracks_positions() {
    let tokens = Lexer::new("# heading\n stack bad\nstack bad").lex().unwrap();
    assert_eq!(tokens.len(), 4);
    assert_eq!((tokens[0].line, tokens[0].col), (2, 2));
    assert_eq!((tokens[1].line, tokens[1].col), (2, 8));
    assert_eq!((tokens[2].line, tokens[2].col), (3, 1));
    assert_eq!((tokens[3].line, tokens[3].col), (3, 7));
}

#[test]
fn lexer_counts_interior_repeats() {
    let tokens = Lexer::new("sttaacckk baad").lex().unwrap();
    assert_eq!(tokens[0].data, TokenData::Stack(1, 2, 2, 2, 2));
    assert_eq!(tokens[1].data, TokenData::Bad(1, 2, 1));
}

#[test]
fn type_id_table_is_fixed() {
    assert_eq!(Type::from_id(0), Some(Type::I8));
    assert_eq!(Type::from_id(1), Some(Type::I16));
    assert_eq!(Type::from_id(2), Some(Type::I32));
    assert_eq!(Type::from_id(3), Some(Type::I64));
    assert_eq!(Type::from_id(4), Some(Type::Unit));
    assert_eq!(Type::from_id(5), None);
    assert_eq!(Type::from_id(u32::MAX), None);
}

#[test]
fn binary_op_id_table_is_fixed() {
    assert_eq!(BinaryOp::from_id(0), Some(BinaryOp::Add));
    assert_eq!(BinaryOp::from_id(1), Some(BinaryOp::Sub));
    assert_eq!(BinaryOp::from_id(2), Some(BinaryOp::Mult));
    assert_eq!(BinaryOp::from_id(3), Some(BinaryOp::Div));
    assert_eq!(BinaryOp::from_id(4), Some(BinaryOp::Lsh));
    assert_eq!(BinaryOp::from_id(5), Some(BinaryOp::Rsh));
    assert_eq!(BinaryOp::from_id(6), None);
}

#[test]
fn unary_op_id_table_is_fixed() {
    assert_eq!(UnaryOp::from_id(0), Some(UnaryOp::Deref));
    assert_eq!(UnaryOp::from_id(1), Some(UnaryOp::Not));
    assert_eq!(UnaryOp::from_id(2), None);
}

#[test]
fn declaration_fields_decode_exactly() {
    let mut recs = vec![HEADER];
    recs.extend(decl_records("hello", 1, 3, &[0, 1]));
    let items = compile(&program(&recs)).unwrap();
    assert_eq!(
        items,
        vec![Item::FunctionDecl(FunctionDeclItem {
            name: "hello".to_string(),
            return_ty: Type::I64,
            params: vec![Type::I8, Type::I16],
            linkage: Linkage::Internal,
        })]
    );
}

#[test]
fn four_character_name_spans_two_records() {
    // "abcd" fills a record's four nibble pairs, so the name continues
    // into a following record whose first pair ends it.
    let mut recs = vec![HEADER];
    recs.extend(decl_records("abcd", 0, 2, &[]));
    let items = compile(&program(&recs)).unwrap();
    match &items[0] {
        Item::FunctionDecl(d) => assert_eq!(d.name, "abcd"),
        _ => panic!("expected a declaration"),
    }
}

#[test]
fn name_truncated_at_end_of_stream_fails() {
    // A record whose four pairs are all full promises more name records,
    // but the stream ends.
    let mut recs = vec![HEADER];
    recs.push([0, 0, 0, 0, 0, 0, 2, 0]); // declaration header, 0 params
    recs.push([6, 1, 6, 2, 6, 3, 6, 4]); // four full pairs, nothing after
    let err = compile(&program(&recs)).unwrap_err();
    assert_eq!(err.kind, ErrorKind::Syntax);
}

#[test]
fn parameters_count_toward_local_slots() {
    // f has 2 parameters and 1 local: slots 0..2 exist, slot 2 is the
    // local, slot 3 does not exist.
    let mut recs = vec![HEADER];
    recs.extend(decl_records("f", 0, 2, &[2, 2]));
    recs.extend(def_header_records("f", &[2]));
    recs.push([0, 0, 2, 0, 0, 0, 5, 0]); // Local 2: in range
    let items = compile(&program(&recs)).unwrap();
    assert_eq!(items.len(), 2);

    let mut recs2 = vec![HEADER];
    recs2.extend(decl_records("f", 0, 2, &[2, 2]));
    recs2.extend(def_header_records("f", &[2]));
    recs2.push([0, 0, 3, 0, 0, 0, 5, 0]); // Local 3: out of range
    let err = compile(&program(&recs2)).unwrap_err();
    assert_eq!(err.kind, ErrorKind::Syntax);
}

#[test]
fn bad_linkage_id_fails() {
    let mut recs = vec![HEADER];
    recs.extend(decl_records("f", 2, 2, &[]));
    let err = compile(&program(&recs)).unwrap_err();
    assert_eq!(err.kind, ErrorKind::Syntax);
}

#[test]
fn bad_type_id_fails() {
    let mut recs = vec![HEADER];
    recs.extend(decl_records("f", 0, 9, &[]));
    let err = compile(&program(&recs)).unwrap_err();
    assert_eq!(err.kind, ErrorKind::Syntax);
}

#[test]
fn bad_constant_type_id_fails() {
    let mut recs = vec![HEADER];
    recs.extend(decl_records("f", 0, 2, &[]));
    recs.extend(def_header_records("f", &[]));
    recs.push([0, 7, 1, 0, 0, 0, 6, 0]); // Constant with unknown type id 7
    let err = compile(&program(&recs)).unwrap_err();
    assert_eq!(err.kind, ErrorKind::Syntax);
}

#[test]
fn name_with_invalid_nibble_fails() {
    let mut recs = vec![HEADER];
    recs.push([0, 0, 0, 0, 0, 0, 2, 0]); // declaration header, 0 params
    recs.push([16, 0, 0, 0, 0, 0, 0, 0]); // 16 is not a nibble
    let err = compile(&program(&recs)).unwrap_err();
    assert_eq!(err.kind, ErrorKind::Syntax);
}

#[test]
fn definition_without_declaration_fails() {
    let mut recs = vec![HEADER];
    recs.extend(def_header_records("f", &[]));
    recs.push([0, 2, 7, 0, 0, 0, 6, 0]);
    let err = compile(&program(&recs)).unwrap_err();
    assert_eq!(err.kind, ErrorKind::Syntax);
}

#[test]
fn unrecognized_record_fails() {
    let mut recs = vec![HEADER];
    recs.push([5, 5, 5, 5, 5, 5, 5, 5]);
    let err = compile(&program(&recs)).unwrap_err();
    assert_eq!(err.kind, ErrorKind::Syntax);
}

#[test]
fn error_descriptions_name_the_stage() {
    let mk = |kind| Error { kind, line: 1, col: 1 };
    assert_eq!(mk(ErrorKind::Lexical).describe(), "lexical error");
    assert_eq!(mk(ErrorKind::Format).describe(), "format error");
    assert_eq!(mk(ErrorKind::Syntax).describe(), "syntax error");
    assert_eq!(mk(ErrorKind::Codegen).describe(), "codegen error");
}

#[test]
fn binary_and_unary_expressions_parse() {
    let mut recs = vec![HEADER];
    recs.extend(decl_records("f", 0, 2, &[]));
    recs.extend(def_header_records("f", &[]));
    recs.push([0, 0, 0, 0, 0, 0, 7, 0]); // Return
    recs.push([0, 1, 0, 0, 0, 0, 0, 0]); // Binary Sub
    recs.push([0, 1, 0, 0, 0, 0, 1, 0]); // Unary Not
    recs.push([0, 2, 3, 0, 0, 0, 6, 0]); // Constant I32 3
    recs.push([0, 3, 4, 0, 0, 0, 6, 0]); // Constant I64 4
    let items = compile(&program(&recs)).unwrap();
    match &items[1] {
        Item::FunctionDef(d) => {
            assert_eq!(
                d.code,
                Expr::Return(ReturnExpr {
                    val: Box::new(Expr::Binary(BinaryExpr {
                        op: BinaryOp::Sub,
                        a: Box::new(Expr::Unary(UnaryExpr {
                            op: UnaryOp::Not,
                            a: Box::new(Expr::Constant(ConstantExpr {
                                ty: Type::I32,
                                val: 3,
                            })),
                        })),
                        b: Box::new(Expr::Constant(ConstantExpr { ty: Type::I64, val: 4 })),
                    })),
                })
            );
        }
        _ => panic!("expected a definition"),
    }
}

#[test]
fn block_and_assignment_parse() {
    let mut recs = vec![HEADER];
    recs.extend(decl_records("f", 0, 2, &[]));
    recs.extend(def_header_records("f", &[2]));
    recs.push([0, 0, 0, 0, 0, 0, 3, 0]); // Block
    recs.push([0, 0, 0, 0, 0, 0, 4, 0]); // Assignment to slot 0
    recs.push([0, 2, 5, 0, 0, 0, 6, 0]); // Constant I32 5
    recs.push([0, 0, 0, 0, 1, 0, 0, 0]); // terminator
    let items = compile(&program(&recs)).unwrap();
    match &items[1] {
        Item::FunctionDef(d) => {
            assert_eq!(
                d.code,
                Expr::Block(BlockExpr {
                    exprs: vec![Expr::Assignment(AssignmentExpr {
                        local: 0,
                        val: Box::new(Expr::Constant(ConstantExpr { ty: Type::I32, val: 5 })),
                    })],
                })
            );
        }
        _ => panic!("expected a definition"),
    }
}
