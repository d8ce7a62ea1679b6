use stack_bad::ast::{
    BinaryExpr, BinaryOp, ConstantExpr, Expr, FunctionDefItem, LocalExpr, ReturnExpr, Type,
    UnaryExpr, UnaryOp,
};
use stack_bad::ast::{FunctionDeclItem, Linkage};
use stack_bad::codegen::{Inst, lower_def, lower_expr, lower_items, slot_table};
use stack_bad::compile;

fn ret(e: Expr) -> Expr {
    Expr::Return(ReturnExpr { val: Box::new(e) })
}

fn konst(ty: Type, val: u32) -> Expr {
    Expr::Constant(ConstantExpr { ty, val })
}

#[test]
fn lower_return_constant() {
    let def = FunctionDefItem {
        name: "f".to_string(),
        locals: vec![],
        code: ret(konst(Type::I32, 7)),
    };
    let f = lower_def(&def);
    assert_eq!(f.name, "f");
    assert_eq!(
        f.body,
        vec![
            Inst::Const { ty: Type::I32, val: 7 },
            Inst::Ret { val: 0 },
            Inst::Zero,
        ]
    );
}

#[test]
fn lower_binary_of_locals() {
    let def = FunctionDefItem {
        name: "add2".to_string(),
        locals: vec![],
        code: ret(Expr::Binary(BinaryExpr {
            op: BinaryOp::Add,
            a: Box::new(Expr::Local(LocalExpr { local: 0 })),
            b: Box::new(Expr::Local(LocalExpr { local: 1 })),
        })),
    };
    let f = lower_def(&def);
    assert_eq!(
        f.body,
        vec![
            Inst::Load { slot: 0 },
            Inst::Load { slot: 1 },
            Inst::Bin { op: BinaryOp::Add, a: 0, b: 1 },
            Inst::Ret { val: 2 },
            Inst::Zero,
        ]
    );
}

#[test]
fn lower_unary_ops() {
    let def = FunctionDefItem {
        name: "f".to_string(),
        locals: vec![],
        code: ret(Expr::Unary(UnaryExpr {
            op: UnaryOp::Deref,
            a: Box::new(Expr::Unary(UnaryExpr {
                op: UnaryOp::Not,
                a: Box::new(konst(Type::I64, 8)),
            })),
        })),
    };
    let f = lower_def(&def);
    assert_eq!(
        f.body,
        vec![
            Inst::Const { ty: Type::I64, val: 8 },
            Inst::Not { a: 0 },
            Inst::Deref { a: 1 },
            Inst::Ret { val: 2 },
            Inst::Zero,
        ]
    );
}

#[test]
fn slot_table_orders_parameters_before_locals() {
    let decl = FunctionDeclItem {
        name: "f".to_string(),
        return_ty: Type::I32,
        params: vec![Type::I8, Type::I16],
        linkage: Linkage::External,
    };
    let def = FunctionDefItem {
        name: "f".to_string(),
        locals: vec![Type::I64],
        code: ret(konst(Type::I32, 0)),
    };
    assert_eq!(slot_table(&decl, &def), vec![Type::I8, Type::I16, Type::I64]);
}

#[test]
fn lower_expr_appends_and_returns_result_index() {
    let mut out = vec![Inst::Zero];
    let r = lower_expr(&konst(Type::I8, 1), &mut out);
    assert_eq!(r, 1);
    assert_eq!(out, vec![Inst::Zero, Inst::Const { ty: Type::I8, val: 1 }]);
}

fn stack_word(c: [u32; 5]) -> String {
    format!(
        "{}{}{}{}{}",
        "s".repeat(c[0] as usize),
        "t".repeat(c[1] as usize),
        "a".repeat(c[2] as usize),
        "c".repeat(c[3] as usize),
        "k".repeat(c[4] as usize)
    )
}

fn bad_word(c: [u32; 3]) -> String {
    format!(
        "{}{}{}",
        "b".repeat(c[0] as usize),
        "a".repeat(c[1] as usize),
        "d".repeat(c[2] as usize)
    )
}

fn record(f: [u32; 8]) -> String {
    format!(
        "{} {}",
        stack_word([f[0] + 1, f[1] + 1, f[2] + 1, f[3] + 1, f[4] + 1]),
        bad_word([f[5] + 1, f[6] + 1, f[7] + 1])
    )
}

fn program(recs: &[[u32; 8]]) -> String {
    let words: Vec<String> = recs.iter().map(|r| record(*r)).collect();
    words.join(" ")
}

#[test]
fn pipeline_lowers_block_assignment_and_call() {
    // Header; declare g(I32, I32) -> I32; declare f() -> I32; define f with
    // one local whose body runs a block: assign a constant to slot 0, then
    // call g with the slot's value twice.
    let name_f: [u32; 8] = [6, 6, 0, 0, 0, 0, 0, 0]; // "f"
    let name_g: [u32; 8] = [6, 7, 0, 0, 0, 0, 0, 0]; // "g"
    let recs: Vec<[u32; 8]> = vec![
        [0, 0, 0, 0, 0, 0, 0, 0], // header
        [0, 0, 0, 0, 0, 0, 2, 2], // decl g: external, I32, 2 params
        name_g,
        [0, 0, 0, 0, 0, 0, 2, 0], // param I32
        [0, 0, 0, 0, 0, 0, 2, 0], // param I32
        [0, 0, 0, 0, 0, 0, 2, 0], // decl f: external, I32, 0 params
        name_f,
        [0, 0, 1, 0, 0, 0, 1, 0], // def, 1 local
        name_f,
        [0, 0, 0, 0, 0, 0, 2, 0], // local type I32
        [0, 0, 0, 0, 0, 0, 3, 0], // Block
        [0, 0, 0, 0, 0, 0, 4, 0], // Assignment slot 0
        [0, 2, 9, 0, 0, 0, 6, 0], // Constant I32 9
        [0, 0, 0, 0, 0, 0, 2, 0], // Invoke
        name_g,
        [0, 0, 0, 0, 0, 0, 5, 0], // Local 0
        [0, 0, 0, 0, 0, 0, 5, 0], // Local 0
        [0, 0, 0, 0, 1, 0, 0, 0], // terminator
    ];
    let items = compile(&program(&recs)).unwrap();
    let lowered = lower_items(&items);
    assert_eq!(lowered.len(), 1);
    assert_eq!(lowered[0].name, "f");
    assert_eq!(
        lowered[0].body,
        vec![
            Inst::Const { ty: Type::I32, val: 9 },
            Inst::Store { slot: 0, val: 0 },
            Inst::Zero,
            Inst::Load { slot: 0 },
            Inst::Load { slot: 0 },
            Inst::Call { name: "g".to_string(), args: vec![3, 4] },
            Inst::Zero,
        ]
    );
}
