use vstd::prelude::*;
use crate::ast::{
    BinaryOp, DefV, Expr, ExprV, FunctionDefItem, Item, ItemV, Type, UnaryOp, expr_view,
    exprs_view, item_view, items_view, lemma_exprs_view_index, lemma_exprs_view_len,
    lemma_items_view_index, lemma_items_view_len,
};

verus! {

/// One builder instruction of the intermediate representation a function
/// body is lowered to. Each instruction yields one value, named by its index
/// in the list; operands refer to earlier instructions by index, and slots
/// by their combined number (parameters first, then locals).
#[derive(Debug, PartialEq, Eq)]
pub enum Inst {
    /// An integer binary operation on two earlier values.
    Bin { op: BinaryOp, a: usize, b: usize },
    /// Bitwise complement of an earlier value.
    Not { a: usize },
    /// Reinterprets an earlier value as a pointer and loads 32 bits;
    /// dereference is fixed-width, not polymorphic over the pointee.
    Deref { a: usize },
    /// Calls a declared function with earlier values as arguments.
    Call { name: String, args: Vec<usize> },
    /// Stores an earlier value into a slot; yields a placeholder.
    Store { slot: u32, val: usize },
    /// Loads from a slot.
    Load { slot: u32 },
    /// Materializes an integer literal of the given width.
    Const { ty: Type, val: u32 },
    /// The defined placeholder value (integer zero) yielded by constructs
    /// that are never consumed for their value.
    Zero,
    /// Returns an earlier value from the function; yields a placeholder.
    Ret { val: usize },
}

/// The mathematical shape of one builder instruction.
pub ghost enum InstV {
    Bin { op: BinaryOp, a: int, b: int },
    Not { a: int },
    Deref { a: int },
    Call { name: Seq<char>, args: Seq<int> },
    Store { slot: u32, val: int },
    Load { slot: u32 },
    Const { ty: Type, val: u32 },
    Zero,
    Ret { val: int },
}

/// Abstracts one instruction to its mathematical shape.
pub open spec fn inst_view(i: Inst) -> InstV {
    match i {
        Inst::Bin { op, a, b } => InstV::Bin { op, a: a as int, b: b as int },
        Inst::Not { a } => InstV::Not { a: a as int },
        Inst::Deref { a } => InstV::Deref { a: a as int },
        Inst::Call { name, args } => InstV::Call {
            name: name@,
            args: args@.map_values(|x: usize| x as int),
        },
        Inst::Store { slot, val } => InstV::Store { slot, val: val as int },
        Inst::Load { slot } => InstV::Load { slot },
        Inst::Const { ty, val } => InstV::Const { ty, val },
        Inst::Zero => InstV::Zero,
        Inst::Ret { val } => InstV::Ret { val: val as int },
    }
}

/// Abstracts an instruction list element-wise.
pub open spec fn insts_view(s: Seq<Inst>) -> Seq<InstV>
    decreases s,
{
    if s.len() == 0 {
        Seq::empty()
    } else {
        seq![inst_view(s[0])] + insts_view(s.drop_first())
    }
}

/// Abstraction keeps an instruction list's length, and commutes with push.
pub proof fn lemma_insts_view_push(s: Seq<Inst>, it: Inst)
    ensures
        insts_view(s.push(it)) == insts_view(s).push(inst_view(it)),
        insts_view(s).len() == s.len(),
    decreases s.len(),
{
    if s.len() == 0 {
        assert(insts_view(Seq::<Inst>::empty()) =~= Seq::<InstV>::empty());
        assert(s.push(it).drop_first() =~= Seq::<Inst>::empty());
        assert(s.push(it)[0] == it);
        assert(insts_view(s.push(it)) =~= insts_view(s).push(inst_view(it)));
    } else {
        lemma_insts_view_push(s.drop_first(), it);
        assert(s.push(it).drop_first() =~= s.drop_first().push(it));
        assert(s.push(it)[0] == s[0]);
        assert(insts_view(s.push(it)) == seq![inst_view(s[0])] + insts_view(
            s.drop_first(),
        ).push(inst_view(it)));
        assert((seq![inst_view(s[0])] + insts_view(s.drop_first())).push(inst_view(it)) =~= seq![
            inst_view(s[0]),
        ] + insts_view(s.drop_first()).push(inst_view(it)));
    }
}

/// Abstraction keeps an instruction list's length.
pub proof fn lemma_insts_view_len(s: Seq<Inst>)
    ensures
        insts_view(s).len() == s.len(),
    decreases s.len(),
{
    if s.len() > 0 {
        lemma_insts_view_len(s.drop_first());
    }
}

/// What lowering one expression emits, with `base` the index the first
/// emitted instruction will have: the instructions, and the index of the
/// value the expression yields. Arguments and block entries are emitted in
/// order; Block, Assignment and Return yield the zero placeholder.
pub open spec fn lower_expr_s(e: ExprV, base: int) -> (Seq<InstV>, int)
    decreases e,
{
    match e {
        ExprV::Binary { op, a, b } => {
            let (ia, ra) = lower_expr_s(*a, base);
            let (ib, rb) = lower_expr_s(*b, base + ia.len());
            (
                ia + ib + seq![InstV::Bin { op, a: ra, b: rb }],
                base + ia.len() + ib.len(),
            )
        },
        ExprV::Unary { op, a } => {
            let (ia, ra) = lower_expr_s(*a, base);
            let inst = match op {
                UnaryOp::Deref => InstV::Deref { a: ra },
                UnaryOp::Not => InstV::Not { a: ra },
            };
            (ia + seq![inst], base + ia.len())
        },
        ExprV::Invoke { name, args } => {
            let (ias, rs) = lower_exprs_s(args, base);
            (ias + seq![InstV::Call { name, args: rs }], base + ias.len())
        },
        ExprV::Block { exprs } => {
            let (ias, rs) = lower_exprs_s(exprs, base);
            (ias + seq![InstV::Zero], base + ias.len())
        },
        ExprV::Assignment { local, val } => {
            let (iv, rv) = lower_expr_s(*val, base);
            (
                iv + seq![InstV::Store { slot: local, val: rv }, InstV::Zero],
                base + iv.len() + 1,
            )
        },
        ExprV::Local { local } => (seq![InstV::Load { slot: local }], base),
        ExprV::Constant { ty, val } => (seq![InstV::Const { ty, val }], base),
        ExprV::Return { val } => {
            let (iv, rv) = lower_expr_s(*val, base);
            (iv + seq![InstV::Ret { val: rv }, InstV::Zero], base + iv.len() + 1)
        },
    }
}

/// What lowering a list of expressions emits, in order: the instructions
/// and the yielded value index of each entry.
pub open spec fn lower_exprs_s(es: Seq<ExprV>, base: int) -> (Seq<InstV>, Seq<int>)
    decreases es,
{
    if es.len() == 0 {
        (seq![], seq![])
    } else {
        let (i0, r0) = lower_expr_s(es[0], base);
        let (ir, rr) = lower_exprs_s(es.drop_first(), base + i0.len());
        (i0 + ir, seq![r0] + rr)
    }
}

/// Lowers one expression, appending its instructions to `out` and returning
/// the index of the value it yields; mirrors `lower_expr_s`.
pub fn lower_expr(e: &Expr, out: &mut Vec<Inst>) -> (r: usize)
    ensures
        ({
            let (insts, res) = lower_expr_s(expr_view(*e), old(out)@.len() as int);
            insts_view(final(out)@) == insts_view(old(out)@) + insts && r as int == res
                && final(out)@.len() == old(out)@.len() + insts.len() && old(out)@.len() <= r
                < final(out)@.len()
        }),
    decreases *e, 0int,
{
    proof {
        lemma_insts_view_len(out@);
    }
    match e {
        Expr::Binary(x) => {
            let ra = lower_expr(&x.a, out);
            let rb = lower_expr(&x.b, out);
            let id = out.len();
            proof {
                lemma_insts_view_push(out@, Inst::Bin { op: x.op, a: ra, b: rb });
            }
            out.push(Inst::Bin { op: x.op, a: ra, b: rb });
            assert(insts_view(out@) =~= insts_view(old(out)@) + lower_expr_s(
                expr_view(*e),
                old(out)@.len() as int,
            ).0);
            id
        },
        Expr::Unary(x) => {
            let ra = lower_expr(&x.a, out);
            let id = out.len();
            let inst = match x.op {
                UnaryOp::Deref => Inst::Deref { a: ra },
                UnaryOp::Not => Inst::Not { a: ra },
            };
            proof {
                lemma_insts_view_push(out@, inst);
            }
            out.push(inst);
            assert(insts_view(out@) =~= insts_view(old(out)@) + lower_expr_s(
                expr_view(*e),
                old(out)@.len() as int,
            ).0);
            id
        },
        Expr::Invoke(x) => {
            let rs = lower_args(&x.params, 0, out);
            proof {
                lemma_exprs_view_len(x.params@);
                assert(exprs_view(x.params@).skip(0) =~= exprs_view(x.params@));
            }
            let id = out.len();
            let inst = Inst::Call { name: x.func_name.clone(), args: rs };
            proof {
                lemma_insts_view_push(out@, inst);
            }
            out.push(inst);
            assert(insts_view(out@) =~= insts_view(old(out)@) + lower_expr_s(
                expr_view(*e),
                old(out)@.len() as int,
            ).0);
            id
        },
        Expr::Block(x) => {
            let _rs = lower_args(&x.exprs, 0, out);
            proof {
                lemma_exprs_view_len(x.exprs@);
                assert(exprs_view(x.exprs@).skip(0) =~= exprs_view(x.exprs@));
            }
            let id = out.len();
            proof {
                lemma_insts_view_push(out@, Inst::Zero);
            }
            out.push(Inst::Zero);
            assert(insts_view(out@) =~= insts_view(old(out)@) + lower_expr_s(
                expr_view(*e),
                old(out)@.len() as int,
            ).0);
            id
        },
        Expr::Assignment(x) => {
            let rv = lower_expr(&x.val, out);
            proof {
                lemma_insts_view_push(out@, Inst::Store { slot: x.local, val: rv });
            }
            out.push(Inst::Store { slot: x.local, val: rv });
            let id = out.len();
            proof {
                lemma_insts_view_push(out@, Inst::Zero);
            }
            out.push(Inst::Zero);
            assert(insts_view(out@) =~= insts_view(old(out)@) + lower_expr_s(
                expr_view(*e),
                old(out)@.len() as int,
            ).0);
            id
        },
        Expr::Local(x) => {
            let id = out.len();
            proof {
                lemma_insts_view_push(out@, Inst::Load { slot: x.local });
            }
            out.push(Inst::Load { slot: x.local });
            assert(insts_view(out@) =~= insts_view(old(out)@) + lower_expr_s(
                expr_view(*e),
                old(out)@.len() as int,
            ).0);
            id
        },
        Expr::Constant(x) => {
            let id = out.len();
            proof {
                lemma_insts_view_push(out@, Inst::Const { ty: x.ty, val: x.val });
            }
            out.push(Inst::Const { ty: x.ty, val: x.val });
            assert(insts_view(out@) =~= insts_view(old(out)@) + lower_expr_s(
                expr_view(*e),
                old(out)@.len() as int,
            ).0);
            id
        },
        Expr::Return(x) => {
            let rv = lower_expr(&x.val, out);
            proof {
                lemma_insts_view_push(out@, Inst::Ret { val: rv });
            }
            out.push(Inst::Ret { val: rv });
            let id = out.len();
            proof {
                lemma_insts_view_push(out@, Inst::Zero);
            }
            out.push(Inst::Zero);
            assert(insts_view(out@) =~= insts_view(old(out)@) + lower_expr_s(
                expr_view(*e),
                old(out)@.len() as int,
            ).0);
            id
        },
    }
}

/// Lowers the expressions from index `k` on, in order, returning each one's
/// yielded value index; mirrors `lower_exprs_s` on the list's tail.
fn lower_args(v: &Vec<Expr>, k: usize, out: &mut Vec<Inst>) -> (rs: Vec<usize>)
    requires
        k <= v@.len(),
    ensures
        ({
            let (insts, ids) = lower_exprs_s(
                exprs_view(v@).skip(k as int),
                old(out)@.len() as int,
            );
            insts_view(final(out)@) == insts_view(old(out)@) + insts && final(out)@.len() == old(
                out,
            )@.len() + insts.len() && rs@.map_values(|x: usize| x as int) == ids && forall|j: int|
                0 <= j < rs@.len() ==> old(out)@.len() <= #[trigger] rs@[j] < final(out)@.len()
        }),
    decreases *v, v@.len() - k,
{
    proof {
        lemma_exprs_view_len(v@);
        lemma_insts_view_len(out@);
    }
    if k == v.len() {
        let rs: Vec<usize> = Vec::new();
        assert(exprs_view(v@).skip(k as int) =~= Seq::<ExprV>::empty());
        assert(rs@.map_values(|x: usize| x as int) =~= Seq::<int>::empty());
        assert(insts_view(out@) =~= insts_view(out@) + Seq::<InstV>::empty());
        return rs;
    }
    proof {
        lemma_exprs_view_index(v@, k as int);
        assert(exprs_view(v@).skip(k as int).drop_first() =~= exprs_view(v@).skip(k as int + 1));
        assert(exprs_view(v@).skip(k as int)[0] == exprs_view(v@)[k as int]);
    }
    let r0 = lower_expr(&v[k], out);
    let rest = lower_args(v, k + 1, out);
    let ghost restv = rest@;
    let mut rs = rest;
    rs.insert(0, r0);
    assert(rs@ =~= seq![r0] + restv);
    assert(rs@.map_values(|x: usize| x as int) =~= seq![r0 as int] + restv.map_values(
        |x: usize| x as int,
    ));
    rs
}

/// Whether every operand of an instruction that will stand at index `idx`
/// names an earlier instruction.
pub open spec fn inst_ids_ok(iv: InstV, idx: int) -> bool {
    match iv {
        InstV::Bin { op, a, b } => 0 <= a < idx && 0 <= b < idx,
        InstV::Not { a } => 0 <= a < idx,
        InstV::Deref { a } => 0 <= a < idx,
        InstV::Call { name, args } => forall|j: int|
            0 <= j < args.len() ==> 0 <= #[trigger] args[j] < idx,
        InstV::Store { slot, val } => 0 <= val < idx,
        InstV::Ret { val } => 0 <= val < idx,
        InstV::Load { slot } => true,
        InstV::Const { ty, val } => true,
        InstV::Zero => true,
    }
}

/// Whether a run of instructions placed from index `base` on only ever
/// refers backwards.
pub open spec fn insts_ids_ok(s: Seq<InstV>, base: int) -> bool {
    forall|k: int| 0 <= k < s.len() ==> inst_ids_ok(#[trigger] s[k], base + k)
}

/// Backward reference is preserved by placing two well-formed runs one
/// after the other.
proof fn lemma_ids_ok_concat(a: Seq<InstV>, b: Seq<InstV>, base: int)
    requires
        insts_ids_ok(a, base),
        insts_ids_ok(b, base + a.len()),
    ensures
        insts_ids_ok(a + b, base),
{
    assert forall|k: int| 0 <= k < (a + b).len() implies inst_ids_ok(
        #[trigger] (a + b)[k],
        base + k,
    ) by {
        if k < a.len() {
            assert((a + b)[k] == a[k]);
        } else {
            assert((a + b)[k] == b[k - a.len()]);
        }
    }
}

/// Lowering emits well-formed code: every instruction refers only to
/// earlier instructions, at least one instruction is emitted, and the
/// expression's yielded value names one of the emitted instructions.
pub proof fn lemma_lower_expr_ids(e: ExprV, base: int)
    requires
        base >= 0,
    ensures
        ({
            let (insts, res) = lower_expr_s(e, base);
            insts_ids_ok(insts, base) && insts.len() >= 1 && base <= res < base + insts.len()
        }),
    decreases e,
{
    match e {
        ExprV::Binary { op, a, b } => {
            let (ia, ra) = lower_expr_s(*a, base);
            let (ib, rb) = lower_expr_s(*b, base + ia.len());
            lemma_lower_expr_ids(*a, base);
            lemma_lower_expr_ids(*b, base + ia.len());
            let tail = seq![InstV::Bin { op, a: ra, b: rb }];
            assert(insts_ids_ok(tail, base + ia.len() + ib.len()));
            lemma_ids_ok_concat(ib, tail, base + ia.len());
            lemma_ids_ok_concat(ia, ib + tail, base);
            assert(ia + ib + tail =~= ia + (ib + tail));
        },
        ExprV::Unary { op, a } => {
            let (ia, ra) = lower_expr_s(*a, base);
            lemma_lower_expr_ids(*a, base);
            let inst = match op {
                UnaryOp::Deref => InstV::Deref { a: ra },
                UnaryOp::Not => InstV::Not { a: ra },
            };
            assert(insts_ids_ok(seq![inst], base + ia.len()));
            lemma_ids_ok_concat(ia, seq![inst], base);
        },
        ExprV::Invoke { name, args } => {
            let (ias, rs) = lower_exprs_s(args, base);
            lemma_lower_exprs_ids(args, base);
            let inst = InstV::Call { name, args: rs };
            assert(inst_ids_ok(inst, base + ias.len()));
            assert(insts_ids_ok(seq![inst], base + ias.len()));
            lemma_ids_ok_concat(ias, seq![inst], base);
        },
        ExprV::Block { exprs } => {
            let (ias, rs) = lower_exprs_s(exprs, base);
            lemma_lower_exprs_ids(exprs, base);
            assert(insts_ids_ok(seq![InstV::Zero], base + ias.len()));
            lemma_ids_ok_concat(ias, seq![InstV::Zero], base);
        },
        ExprV::Assignment { local, val } => {
            let (iv, rv) = lower_expr_s(*val, base);
            lemma_lower_expr_ids(*val, base);
            let tail = seq![InstV::Store { slot: local, val: rv }, InstV::Zero];
            assert(insts_ids_ok(tail, base + iv.len()));
            lemma_ids_ok_concat(iv, tail, base);
        },
        ExprV::Local { local } => {
            assert(insts_ids_ok(seq![InstV::Load { slot: local }], base));
        },
        ExprV::Constant { ty, val } => {
            assert(insts_ids_ok(seq![InstV::Const { ty, val }], base));
        },
        ExprV::Return { val } => {
            let (iv, rv) = lower_expr_s(*val, base);
            lemma_lower_expr_ids(*val, base);
            let tail = seq![InstV::Ret { val: rv }, InstV::Zero];
            assert(insts_ids_ok(tail, base + iv.len()));
            lemma_ids_ok_concat(iv, tail, base);
        },
    }
}

/// As `lemma_lower_expr_ids`, for a list: every emitted instruction refers
/// backwards and every yielded value names an emitted instruction.
pub proof fn lemma_lower_exprs_ids(es: Seq<ExprV>, base: int)
    requires
        base >= 0,
    ensures
        ({
            let (insts, ids) = lower_exprs_s(es, base);
            insts_ids_ok(insts, base) && ids.len() == es.len() && forall|j: int|
                0 <= j < ids.len() ==> base <= #[trigger] ids[j] < base + insts.len()
        }),
    decreases es,
{
    if es.len() > 0 {
        let (i0, r0) = lower_expr_s(es[0], base);
        let (ir, rr) = lower_exprs_s(es.drop_first(), base + i0.len());
        lemma_lower_expr_ids(es[0], base);
        lemma_lower_exprs_ids(es.drop_first(), base + i0.len());
        lemma_ids_ok_concat(i0, ir, base);
        assert forall|j: int| 0 <= j < (seq![r0] + rr).len() implies base <= #[trigger] (seq![r0]
            + rr)[j] < base + (i0 + ir).len() by {
            if j > 0 {
                assert((seq![r0] + rr)[j] == rr[j - 1]);
            }
        }
    }
}

/// Whether an instruction only touches slots below the combined slot count.
pub open spec fn inst_slots_ok(iv: InstV, nslots: int) -> bool {
    match iv {
        InstV::Store { slot, val } => slot < nslots,
        InstV::Load { slot } => slot < nslots,
        _ => true,
    }
}

/// As `inst_slots_ok`, for every instruction of a run.
pub open spec fn insts_slots_ok(s: Seq<InstV>, nslots: int) -> bool {
    forall|k: int| 0 <= k < s.len() ==> inst_slots_ok(#[trigger] s[k], nslots)
}

/// Lowering an expression whose local indices are in range emits only
/// stores and loads to slots in range.
pub proof fn lemma_lower_expr_slots(e: ExprV, base: int, nslots: int)
    requires
        crate::ast::expr_slots_ok(e, nslots),
    ensures
        insts_slots_ok(lower_expr_s(e, base).0, nslots),
    decreases e,
{
    match e {
        ExprV::Binary { op, a, b } => {
            let (ia, ra) = lower_expr_s(*a, base);
            lemma_lower_expr_slots(*a, base, nslots);
            lemma_lower_expr_slots(*b, base + ia.len(), nslots);
        },
        ExprV::Unary { op, a } => {
            lemma_lower_expr_slots(*a, base, nslots);
        },
        ExprV::Invoke { name, args } => {
            lemma_lower_exprs_slots(args, base, nslots);
        },
        ExprV::Block { exprs } => {
            lemma_lower_exprs_slots(exprs, base, nslots);
        },
        ExprV::Assignment { local, val } => {
            lemma_lower_expr_slots(*val, base, nslots);
        },
        ExprV::Local { local } => {},
        ExprV::Constant { ty, val } => {},
        ExprV::Return { val } => {
            lemma_lower_expr_slots(*val, base, nslots);
        },
    }
}

/// As `lemma_lower_expr_slots`, for a list of expressions.
pub proof fn lemma_lower_exprs_slots(es: Seq<ExprV>, base: int, nslots: int)
    requires
        crate::ast::exprs_slots_ok(es, nslots),
    ensures
        insts_slots_ok(lower_exprs_s(es, base).0, nslots),
    decreases es,
{
    if es.len() > 0 {
        let (i0, r0) = lower_expr_s(es[0], base);
        lemma_lower_expr_slots(es[0], base, nslots);
        lemma_lower_exprs_slots(es.drop_first(), base + i0.len(), nslots);
    }
}

/// One lowered function: the defined name and the builder instructions of
/// its body, ready to be replayed against a native backend. The slot table
/// (one slot per parameter of the prior declaration, then one per local) is
/// given by the definition and its declaration themselves.
#[derive(Debug, PartialEq, Eq)]
pub struct LoweredFunc {
    pub name: String,
    pub body: Vec<Inst>,
}

/// The mathematical shape of a lowered function.
pub ghost struct LoweredFuncV {
    pub name: Seq<char>,
    pub body: Seq<InstV>,
}

/// What lowering one definition emits: its body's instructions, starting
/// at index zero.
pub open spec fn lower_def_s(d: DefV) -> LoweredFuncV {
    LoweredFuncV { name: d.name, body: lower_expr_s(d.code, 0).0 }
}

/// Lowers one function definition's body; mirrors `lower_def_s`.
pub fn lower_def(def: &FunctionDefItem) -> (r: LoweredFunc)
    ensures
        r.name@ == def.name@,
        insts_view(r.body@) == lower_def_s(
            DefV { name: def.name@, locals: def.locals@, code: expr_view(def.code) },
        ).body,
        insts_ids_ok(insts_view(r.body@), 0),
{
    let mut out: Vec<Inst> = Vec::new();
    assert(insts_view(out@) =~= Seq::<InstV>::empty());
    let _r = lower_expr(&def.code, &mut out);
    assert(insts_view(out@) =~= lower_expr_s(expr_view(def.code), 0).0);
    proof {
        lemma_lower_expr_ids(expr_view(def.code), 0);
    }
    LoweredFunc { name: def.name.clone(), body: out }
}

/// Builds a definition's combined slot table: one slot per parameter of its
/// prior declaration, in order, then one per declared local. Slot `i` of
/// the lowered body addresses entry `i` of this table; a backend allocates
/// one stack cell per entry and stores the `i`-th incoming argument into
/// cell `i` for each parameter.
pub fn slot_table(decl: &crate::ast::FunctionDeclItem, def: &FunctionDefItem) -> (r: Vec<Type>)
    ensures
        r@ == decl.params@ + def.locals@,
{
    let mut out: Vec<Type> = Vec::new();
    let mut i: usize = 0;
    assert(out@ =~= decl.params@.subrange(0, 0));
    while i < decl.params.len()
        invariant
            i <= decl.params@.len(),
            out@ == decl.params@.subrange(0, i as int),
        decreases decl.params@.len() - i,
    {
        out.push(decl.params[i]);
        i = i + 1;
        assert(out@ =~= decl.params@.subrange(0, i as int));
    }
    assert(out@ =~= decl.params@);
    let mut j: usize = 0;
    assert(out@ =~= decl.params@ + def.locals@.subrange(0, 0));
    while j < def.locals.len()
        invariant
            j <= def.locals@.len(),
            out@ == decl.params@ + def.locals@.subrange(0, j as int),
        decreases def.locals@.len() - j,
    {
        out.push(def.locals[j]);
        j = j + 1;
        assert(out@ =~= decl.params@ + def.locals@.subrange(0, j as int));
    }
    assert(out@ =~= decl.params@ + def.locals@);
    out
}

/// What lowering a whole item list emits: one lowered function per
/// definition, in order; declarations carry no code.
pub open spec fn lower_items_s(items: Seq<ItemV>) -> Seq<LoweredFuncV>
    decreases items,
{
    if items.len() == 0 {
        Seq::empty()
    } else {
        let rest = lower_items_s(items.drop_first());
        match items[0] {
            ItemV::FunctionDef(d) => seq![lower_def_s(d)] + rest,
            ItemV::FunctionDecl(_) => rest,
        }
    }
}

/// Forgets the concrete vectors in a list of lowered functions.
pub open spec fn lowered_view(s: Seq<LoweredFunc>) -> Seq<LoweredFuncV>
    decreases s,
{
    if s.len() == 0 {
        Seq::empty()
    } else {
        seq![LoweredFuncV { name: s[0].name@, body: insts_view(s[0].body@) }] + lowered_view(
            s.drop_first(),
        )
    }
}

/// Lowers every definition of the item list, in order; mirrors
/// `lower_items_s`. Declarations need no lowering: their signatures are
/// handed to the backend as they stand.
pub fn lower_items(items: &Vec<Item>) -> (r: Vec<LoweredFunc>)
    ensures
        lowered_view(r@) == lower_items_s(items_view(items@)),
{
    proof {
        assert(items_view(items@).skip(0) =~= items_view(items@));
    }
    lower_items_from(items, 0)
}

/// Lowers the definitions from item index `k` on.
fn lower_items_from(items: &Vec<Item>, k: usize) -> (r: Vec<LoweredFunc>)
    requires
        k <= items@.len(),
    ensures
        lowered_view(r@) == lower_items_s(items_view(items@).skip(k as int)),
    decreases items@.len() - k,
{
    proof {
        lemma_items_view_len(items@);
    }
    if k == items.len() {
        let r: Vec<LoweredFunc> = Vec::new();
        assert(items_view(items@).skip(k as int) =~= Seq::<ItemV>::empty());
        assert(lowered_view(r@) =~= Seq::<LoweredFuncV>::empty());
        return r;
    }
    proof {
        lemma_items_view_index(items@, k as int);
        assert(items_view(items@).skip(k as int).drop_first() =~= items_view(items@).skip(
            k as int + 1,
        ));
        assert(items_view(items@).skip(k as int)[0] == items_view(items@)[k as int]);
    }
    match &items[k] {
        Item::FunctionDecl(_) => lower_items_from(items, k + 1),
        Item::FunctionDef(d) => {
            let f = lower_def(d);
            let rest = lower_items_from(items, k + 1);
            let ghost restv = rest@;
            let mut out = rest;
            out.insert(0, f);
            proof {
                assert(out@ =~= seq![out@[0]] + restv);
                lemma_lowered_view_cons(out@[0], restv);
            }
            out
        },
    }
}

/// Abstraction commutes with putting one lowered function in front.
proof fn lemma_lowered_view_cons(f: LoweredFunc, rest: Seq<LoweredFunc>)
    ensures
        lowered_view(seq![f] + rest) == seq![
            LoweredFuncV { name: f.name@, body: insts_view(f.body@) },
        ] + lowered_view(rest),
{
    let s = seq![f] + rest;
    assert(s[0] == f);
    assert(s.drop_first() =~= rest);
}

} // verus!
