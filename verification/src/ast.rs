use vstd::prelude::*;

verus! {

/// The value types of the language. `Unit` is only meaningful as a return
/// type; slots and constants always carry an integer type.
#[derive(Clone, Copy, Debug, PartialEq, Eq, Structural)]
pub enum Type {
    I8,
    I16,
    I32,
    I64,
    Unit,
}

impl Type {
    /// The fixed decode table for type ids; unknown ids decode to nothing.
    pub open spec fn spec_from_id(id: u32) -> Option<Type> {
        if id == 0 {
            Some(Type::I8)
        } else if id == 1 {
            Some(Type::I16)
        } else if id == 2 {
            Some(Type::I32)
        } else if id == 3 {
            Some(Type::I64)
        } else if id == 4 {
            Some(Type::Unit)
        } else {
            None
        }
    }

    /// Decodes a type id: 0 is I8, 1 is I16, 2 is I32, 3 is I64, 4 is Unit.
    pub fn from_id(id: u32) -> (r: Option<Type>)
        ensures
            r == Type::spec_from_id(id),
    {
        match id {
            0 => Some(Type::I8),
            1 => Some(Type::I16),
            2 => Some(Type::I32),
            3 => Some(Type::I64),
            4 => Some(Type::Unit),
            _ => None,
        }
    }
}

/// The binary integer operators.
#[derive(Clone, Copy, Debug, PartialEq, Eq, Structural)]
pub enum BinaryOp {
    Add,
    Sub,
    Mult,
    Div,
    Lsh,
    Rsh,
}

impl BinaryOp {
    /// The fixed decode table for binary-operator ids.
    pub open spec fn spec_from_id(id: u32) -> Option<BinaryOp> {
        if id == 0 {
            Some(BinaryOp::Add)
        } else if id == 1 {
            Some(BinaryOp::Sub)
        } else if id == 2 {
            Some(BinaryOp::Mult)
        } else if id == 3 {
            Some(BinaryOp::Div)
        } else if id == 4 {
            Some(BinaryOp::Lsh)
        } else if id == 5 {
            Some(BinaryOp::Rsh)
        } else {
            None
        }
    }

    /// Decodes an operator id: 0 Add, 1 Sub, 2 Mult, 3 Div, 4 Lsh, 5 Rsh.
    pub fn from_id(id: u32) -> (r: Option<BinaryOp>)
        ensures
            r == BinaryOp::spec_from_id(id),
    {
        match id {
            0 => Some(BinaryOp::Add),
            1 => Some(BinaryOp::Sub),
            2 => Some(BinaryOp::Mult),
            3 => Some(BinaryOp::Div),
            4 => Some(BinaryOp::Lsh),
            5 => Some(BinaryOp::Rsh),
            _ => None,
        }
    }
}

/// The unary operators: 32-bit memory dereference and bitwise complement.
#[derive(Clone, Copy, Debug, PartialEq, Eq, Structural)]
pub enum UnaryOp {
    Deref,
    Not,
}

impl UnaryOp {
    /// The fixed decode table for unary-operator ids.
    pub open spec fn spec_from_id(id: u32) -> Option<UnaryOp> {
        if id == 0 {
            Some(UnaryOp::Deref)
        } else if id == 1 {
            Some(UnaryOp::Not)
        } else {
            None
        }
    }

    /// Decodes an operator id: 0 Deref, 1 Not.
    pub fn from_id(id: u32) -> (r: Option<UnaryOp>)
        ensures
            r == UnaryOp::spec_from_id(id),
    {
        match id {
            0 => Some(UnaryOp::Deref),
            1 => Some(UnaryOp::Not),
            _ => None,
        }
    }
}

/// Function linkage: 0 decodes to External, 1 to Internal.
#[derive(Clone, Copy, Debug, PartialEq, Eq, Structural)]
pub enum Linkage {
    External,
    Internal,
}

impl Linkage {
    /// The fixed decode table for linkage ids.
    pub open spec fn spec_from_id(id: u32) -> Option<Linkage> {
        if id == 0 {
            Some(Linkage::External)
        } else if id == 1 {
            Some(Linkage::Internal)
        } else {
            None
        }
    }
}

#[derive(Debug, PartialEq, Eq)]
pub struct BinaryExpr {
    pub op: BinaryOp,
    pub a: Box<Expr>,
    pub b: Box<Expr>,
}

#[derive(Debug, PartialEq, Eq)]
pub struct UnaryExpr {
    pub op: UnaryOp,
    pub a: Box<Expr>,
}

#[derive(Debug, PartialEq, Eq)]
pub struct InvokeExpr {
    pub func_name: String,
    pub params: Vec<Expr>,
}

#[derive(Debug, PartialEq, Eq)]
pub struct BlockExpr {
    pub exprs: Vec<Expr>,
}

#[derive(Debug, PartialEq, Eq)]
pub struct AssignmentExpr {
    pub local: u32,
    pub val: Box<Expr>,
}

#[derive(Debug, PartialEq, Eq)]
pub struct LocalExpr {
    pub local: u32,
}

#[derive(Debug, PartialEq, Eq)]
pub struct ConstantExpr {
    pub ty: Type,
    pub val: u32,
}

#[derive(Debug, PartialEq, Eq)]
pub struct ReturnExpr {
    pub val: Box<Expr>,
}

/// An expression node. Local indices address the combined slot numbering of
/// the owning function: its parameters first, then its declared locals.
#[derive(Debug, PartialEq, Eq)]
pub enum Expr {
    Binary(BinaryExpr),
    Unary(UnaryExpr),
    Invoke(InvokeExpr),
    Block(BlockExpr),
    Assignment(AssignmentExpr),
    Local(LocalExpr),
    Constant(ConstantExpr),
    Return(ReturnExpr),
}

/// A function signature: name, return type, ordered parameter types, linkage.
#[derive(Debug, PartialEq, Eq)]
pub struct FunctionDeclItem {
    pub name: String,
    pub return_ty: Type,
    pub params: Vec<Type>,
    pub linkage: Linkage,
}

/// A function body: name, ordered local types, and one body expression.
/// The signature comes from the earlier declaration of the same name.
#[derive(Debug, PartialEq, Eq)]
pub struct FunctionDefItem {
    pub name: String,
    pub locals: Vec<Type>,
    pub code: Expr,
}

/// A top-level item.
#[derive(Debug, PartialEq, Eq)]
pub enum Item {
    FunctionDecl(FunctionDeclItem),
    FunctionDef(FunctionDefItem),
}

/// The mathematical shape of an expression: names as character sequences and
/// child lists as sequences, with no boxes or heap detail.
pub ghost enum ExprV {
    Binary { op: BinaryOp, a: Box<ExprV>, b: Box<ExprV> },
    Unary { op: UnaryOp, a: Box<ExprV> },
    Invoke { name: Seq<char>, args: Seq<ExprV> },
    Block { exprs: Seq<ExprV> },
    Assignment { local: u32, val: Box<ExprV> },
    Local { local: u32 },
    Constant { ty: Type, val: u32 },
    Return { val: Box<ExprV> },
}

/// The mathematical shape of a function declaration.
pub ghost struct DeclV {
    pub name: Seq<char>,
    pub return_ty: Type,
    pub params: Seq<Type>,
    pub linkage: Linkage,
}

/// The mathematical shape of a function definition.
pub ghost struct DefV {
    pub name: Seq<char>,
    pub locals: Seq<Type>,
    pub code: ExprV,
}

/// The mathematical shape of a top-level item.
pub ghost enum ItemV {
    FunctionDecl(DeclV),
    FunctionDef(DefV),
}

/// Abstracts an expression to its mathematical shape.
pub open spec fn expr_view(e: Expr) -> ExprV
    decreases e,
{
    match e {
        Expr::Binary(x) => ExprV::Binary {
            op: x.op,
            a: Box::new(expr_view(*x.a)),
            b: Box::new(expr_view(*x.b)),
        },
        Expr::Unary(x) => ExprV::Unary { op: x.op, a: Box::new(expr_view(*x.a)) },
        Expr::Invoke(x) => ExprV::Invoke { name: x.func_name@, args: exprs_view(x.params@) },
        Expr::Block(x) => ExprV::Block { exprs: exprs_view(x.exprs@) },
        Expr::Assignment(x) => ExprV::Assignment {
            local: x.local,
            val: Box::new(expr_view(*x.val)),
        },
        Expr::Local(x) => ExprV::Local { local: x.local },
        Expr::Constant(x) => ExprV::Constant { ty: x.ty, val: x.val },
        Expr::Return(x) => ExprV::Return { val: Box::new(expr_view(*x.val)) },
    }
}

/// Abstracts a list of expressions element-wise.
pub open spec fn exprs_view(s: Seq<Expr>) -> Seq<ExprV>
    decreases s,
{
    if s.len() == 0 {
        Seq::empty()
    } else {
        seq![expr_view(s[0])] + exprs_view(s.drop_first())
    }
}

/// Abstracts a declaration to its mathematical shape.
pub open spec fn decl_view(d: FunctionDeclItem) -> DeclV {
    DeclV { name: d.name@, return_ty: d.return_ty, params: d.params@, linkage: d.linkage }
}

/// Abstracts a definition to its mathematical shape.
pub open spec fn def_view(d: FunctionDefItem) -> DefV {
    DefV { name: d.name@, locals: d.locals@, code: expr_view(d.code) }
}

/// Abstracts a top-level item to its mathematical shape.
pub open spec fn item_view(it: Item) -> ItemV {
    match it {
        Item::FunctionDecl(d) => ItemV::FunctionDecl(decl_view(d)),
        Item::FunctionDef(d) => ItemV::FunctionDef(def_view(d)),
    }
}

/// Abstracts a list of items element-wise.
pub open spec fn items_view(s: Seq<Item>) -> Seq<ItemV>
    decreases s,
{
    if s.len() == 0 {
        Seq::empty()
    } else {
        seq![item_view(s[0])] + items_view(s.drop_first())
    }
}

/// Whether every local index in an expression addresses one of the owning
/// function's `nslots` combined slots (parameters first, then locals).
pub open spec fn expr_slots_ok(e: ExprV, nslots: int) -> bool
    decreases e,
{
    match e {
        ExprV::Binary { op, a, b } => expr_slots_ok(*a, nslots) && expr_slots_ok(*b, nslots),
        ExprV::Unary { op, a } => expr_slots_ok(*a, nslots),
        ExprV::Invoke { name, args } => exprs_slots_ok(args, nslots),
        ExprV::Block { exprs } => exprs_slots_ok(exprs, nslots),
        ExprV::Assignment { local, val } => local < nslots && expr_slots_ok(*val, nslots),
        ExprV::Local { local } => local < nslots,
        ExprV::Constant { ty, val } => true,
        ExprV::Return { val } => expr_slots_ok(*val, nslots),
    }
}

/// As `expr_slots_ok`, for every expression of a list.
pub open spec fn exprs_slots_ok(es: Seq<ExprV>, nslots: int) -> bool
    decreases es,
{
    if es.len() == 0 {
        true
    } else {
        expr_slots_ok(es[0], nslots) && exprs_slots_ok(es.drop_first(), nslots)
    }
}

/// Element lookup in an abstracted expression list.
pub proof fn lemma_exprs_view_index(s: Seq<Expr>, i: int)
    requires
        0 <= i < s.len(),
    ensures
        exprs_view(s).len() == s.len(),
        exprs_view(s)[i] == expr_view(s[i]),
    decreases s.len(),
{
    lemma_exprs_view_len(s);
    if i > 0 {
        lemma_exprs_view_index(s.drop_first(), i - 1);
    }
}

/// Abstraction keeps an expression list's length.
pub proof fn lemma_exprs_view_len(s: Seq<Expr>)
    ensures
        exprs_view(s).len() == s.len(),
    decreases s.len(),
{
    if s.len() > 0 {
        lemma_exprs_view_len(s.drop_first());
    }
}

/// Abstraction keeps an item list's length, and commutes with push.
pub proof fn lemma_items_view_push(s: Seq<Item>, it: Item)
    ensures
        items_view(s.push(it)) == items_view(s).push(item_view(it)),
        items_view(s).len() == s.len(),
    decreases s.len(),
{
    if s.len() == 0 {
        assert(items_view(Seq::<Item>::empty()) =~= Seq::<ItemV>::empty());
        assert(s.push(it).drop_first() =~= Seq::<Item>::empty());
        assert(s.push(it)[0] == it);
        assert(items_view(s.push(it)) =~= items_view(s).push(item_view(it)));
    } else {
        lemma_items_view_push(s.drop_first(), it);
        assert(s.push(it).drop_first() =~= s.drop_first().push(it));
        assert(s.push(it)[0] == s[0]);
        assert(items_view(s.push(it)) == seq![item_view(s[0])] + items_view(
            s.drop_first(),
        ).push(item_view(it)));
        assert((seq![item_view(s[0])] + items_view(s.drop_first())).push(item_view(it)) =~= seq![
            item_view(s[0]),
        ] + items_view(s.drop_first()).push(item_view(it)));
        assert(items_view(s.push(it)) == items_view(s).push(item_view(it)));
    }
}

/// Element lookup in an abstracted item list.
pub proof fn lemma_items_view_index(s: Seq<Item>, i: int)
    requires
        0 <= i < s.len(),
    ensures
        items_view(s).len() == s.len(),
        items_view(s)[i] == item_view(s[i]),
    decreases s.len(),
{
    if s.len() > 0 {
        if i > 0 {
            lemma_items_view_index(s.drop_first(), i - 1);
        } else {
            lemma_items_view_len(s.drop_first());
        }
    }
}

/// Abstraction keeps an item list's length.
pub proof fn lemma_items_view_len(s: Seq<Item>)
    ensures
        items_view(s).len() == s.len(),
    decreases s.len(),
{
    if s.len() > 0 {
        lemma_items_view_len(s.drop_first());
    }
}

} // verus!
