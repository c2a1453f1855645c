//! The program form and its compiler.
//!
//! A role is the stage plus its sprites, each with field initializers and
//! scripts, together with the role's named functions and global
//! initializers.  The compiler lowers every script body and every function
//! body to one linear run of instructions, all of them laid out in a single
//! shared code vector: scripts first, in role order, then the functions.
//! Jumps are relative, so the code of a construct does not depend on where
//! it is placed; the location tables record where each unit starts.
//!
//! The whole lowering is mirrored by spec functions of the role alone, and
//! `compile` is proved to return exactly that mirror: compilation is a pure
//! function of the role.

use vstd::prelude::*;
use crate::runtime::{dup_strings, RefPool, Value};

verus! {

broadcast use vstd::std_specs::vec::axiom_vec_index_decreases, vstd::std_specs::vec::axiom_vec_decreases_to_view, vstd::seq::axiom_seq_index_decreases;

/// A literal value as the program form carries it.
#[derive(Debug)]
pub enum AstValue {
    Bool(bool),
    Number(u64),
    Text(String),
    List(Vec<AstValue>),
}

/// A binary operator of the surface language.
#[derive(Clone, Copy, Debug, PartialEq, Eq, Structural)]
pub enum BinOp {
    Add,
    Sub,
    Mul,
    Div,
    Eq,
    Ne,
    Less,
    LessEq,
    Greater,
    GreaterEq,
}

/// An arithmetic instruction operator.
#[derive(Clone, Copy, Debug, PartialEq, Eq, Structural)]
pub enum NumOp {
    Add,
    Sub,
    Mul,
    Div,
}

/// A comparison instruction operator.
#[derive(Clone, Copy, Debug, PartialEq, Eq, Structural)]
pub enum CmpOp {
    Eq,
    Ne,
    Less,
    LessEq,
    Greater,
    GreaterEq,
}

/// An expression of the surface language.
///
/// `ClosureOf` makes a closure over the named function: the closure
/// captures the cells of every binding visible in the frame it is made in
/// (not their values), so later writes through either side are mutually
/// visible.  `CallClosure` calls such a value with arguments bound to the
/// function's parameters.
#[derive(Debug)]
pub enum Expr {
    BoolLit(bool),
    NumberLit(u64),
    TextLit(String),
    Var(String),
    ListOf(Vec<Expr>),
    Bin(BinOp, Box<Expr>, Box<Expr>),
    Neg(Box<Expr>),
    Not(Box<Expr>),
    And(Box<Expr>, Box<Expr>),
    Or(Box<Expr>, Box<Expr>),
    Len(Box<Expr>),
    Item(Box<Expr>, Box<Expr>),
    CallFn(String, Vec<Expr>),
    ClosureOf(String),
    CallClosure(Box<Expr>, Vec<Expr>),
}

/// A statement of the surface language.
#[derive(Debug)]
pub enum Stmt {
    Define(String, Expr),
    Assign(String, Expr),
    Push(Expr, Expr),
    SetIndex(Expr, Expr, Expr),
    Return(Expr),
    If(Expr, Vec<Stmt>, Vec<Stmt>),
    While(Expr, Vec<Stmt>),
    Warp(Vec<Stmt>),
    Yield,
    Discard(Expr),
}

/// A named function of the role, callable from any script.
#[derive(Debug)]
pub struct FuncDef {
    pub name: String,
    pub params: Vec<String>,
    pub body: Vec<Stmt>,
}

/// The event that schedules a script.
#[derive(Clone, Copy, Debug, PartialEq, Eq, Structural)]
pub enum Hat {
    OnFlag,
}

/// One script of a sprite: its hat, if any, and its body.
#[derive(Debug)]
pub struct ScriptAst {
    pub hat: Option<Hat>,
    pub body: Vec<Stmt>,
}

/// One sprite: its field initializers and its scripts.  The first sprite
/// of a role is the stage.
#[derive(Debug)]
pub struct Sprite {
    pub name: String,
    pub fields: Vec<VarInit>,
    pub scripts: Vec<ScriptAst>,
}

/// A variable initializer of a role or sprite.
#[derive(Debug)]
pub struct VarInit {
    pub name: String,
    pub value: AstValue,
}

/// One authored program: globals, sprites (stage first) and functions.
#[derive(Debug)]
pub struct Role {
    pub name: String,
    pub globals: Vec<VarInit>,
    pub sprites: Vec<Sprite>,
    pub funcs: Vec<FuncDef>,
}

/// One instruction.  Jump offsets are relative: a forward jump of `n`
/// continues at the instruction `n + 1` places further on, and `JumpBack(n)`
/// continues `n` places back.
///
/// Conditions are strict booleans: `JumpIfFalse` and `NotB` reject any
/// non-bool operand with a type mismatch rather than coercing it, so the
/// compiled forms of `and` and `or` accept only bool operands too.
#[derive(Debug, PartialEq)]
pub enum Instr {
    PushBool(bool),
    PushNumber(u64),
    PushText(String),
    MakeList(usize),
    Dup,
    Pop,
    LoadVar(String),
    StoreVar(String),
    DefineVar(String),
    ListLen,
    ListItem,
    ListPush,
    ListSet,
    Arith(NumOp),
    Cmp(CmpOp),
    NegNum,
    NotB,
    Yield,
    Jump(usize),
    JumpBack(usize),
    JumpIfFalse(usize),
    Call(usize),
    MakeClosure(usize),
    CallClosure(usize),
    Return,
    ReturnEmpty,
    WarpEnter,
    WarpExit,
}

/// The table entry of one named function: where it starts and what it
/// binds.
#[derive(Debug)]
pub struct FuncLoc {
    pub name: String,
    pub params: Vec<String>,
    pub entry: usize,
}

/// The compiled role: the shared instruction stream and the function
/// table.
#[derive(Debug)]
pub struct ByteCode {
    pub code: Vec<Instr>,
    pub funcs: Vec<FuncLoc>,
}

/// The start of each script of each sprite, in role order.
#[derive(Debug)]
pub struct EntityLocs {
    pub scripts: Vec<usize>,
}

/// The locations sidecar of a compiled role.
#[derive(Debug)]
pub struct Locations {
    pub entities: Vec<EntityLocs>,
}

/// The index of the first function of this name, or `funcs.len()` when
/// none bears it (a call there faults when run).
pub open spec fn resolve_func(funcs: Seq<FuncDef>, name: Seq<char>) -> nat
    decreases funcs.len(),
{
    if funcs.len() == 0 {
        0
    } else if funcs[0].name@ == name {
        0
    } else {
        1 + resolve_func(funcs.drop_first(), name)
    }
}

pub open spec fn bin_instr(op: BinOp) -> Instr {
    match op {
        BinOp::Add => Instr::Arith(NumOp::Add),
        BinOp::Sub => Instr::Arith(NumOp::Sub),
        BinOp::Mul => Instr::Arith(NumOp::Mul),
        BinOp::Div => Instr::Arith(NumOp::Div),
        BinOp::Eq => Instr::Cmp(CmpOp::Eq),
        BinOp::Ne => Instr::Cmp(CmpOp::Ne),
        BinOp::Less => Instr::Cmp(CmpOp::Less),
        BinOp::LessEq => Instr::Cmp(CmpOp::LessEq),
        BinOp::Greater => Instr::Cmp(CmpOp::Greater),
        BinOp::GreaterEq => Instr::Cmp(CmpOp::GreaterEq),
    }
}

/// The code a single expression lowers to.  Stack effect: one value pushed.
pub open spec fn expr_code(e: Expr, funcs: Seq<FuncDef>) -> Seq<Instr>
    decreases e,
{
    match e {
        Expr::BoolLit(b) => seq![Instr::PushBool(b)],
        Expr::NumberLit(n) => seq![Instr::PushNumber(n)],
        Expr::TextLit(s) => seq![Instr::PushText(s)],
        Expr::Var(n) => seq![Instr::LoadVar(n)],
        Expr::ListOf(es) => exprs_code(es@, funcs).push(Instr::MakeList(es@.len() as usize)),
        Expr::Bin(op, a, b) => expr_code(*a, funcs) + expr_code(*b, funcs) + seq![bin_instr(op)],
        Expr::Neg(a) => expr_code(*a, funcs).push(Instr::NegNum),
        Expr::Not(a) => expr_code(*a, funcs).push(Instr::NotB),
        Expr::And(a, b) => {
            let cb = expr_code(*b, funcs);
            expr_code(*a, funcs) + seq![
                Instr::Dup,
                Instr::JumpIfFalse((cb.len() + 1) as usize),
                Instr::Pop,
            ] + cb
        },
        Expr::Or(a, b) => {
            let cb = expr_code(*b, funcs);
            expr_code(*a, funcs) + seq![
                Instr::Dup,
                Instr::NotB,
                Instr::JumpIfFalse((cb.len() + 1) as usize),
                Instr::Pop,
            ] + cb
        },
        Expr::Len(a) => expr_code(*a, funcs).push(Instr::ListLen),
        Expr::Item(l, i) => expr_code(*l, funcs) + expr_code(*i, funcs) + seq![Instr::ListItem],
        Expr::CallFn(name, args) => exprs_code(args@, funcs).push(
            Instr::Call(resolve_func(funcs, name@) as usize),
        ),
        Expr::ClosureOf(name) => seq![
            Instr::MakeClosure(resolve_func(funcs, name@) as usize),
        ],
        Expr::CallClosure(t, args) => expr_code(*t, funcs) + exprs_code(args@, funcs) + seq![
            Instr::CallClosure(args@.len() as usize),
        ],
    }
}

/// The code a run of expressions lowers to, first to last.
pub open spec fn exprs_code(es: Seq<Expr>, funcs: Seq<FuncDef>) -> Seq<Instr>
    decreases es,
{
    if es.len() == 0 {
        Seq::empty()
    } else {
        expr_code(es[0], funcs) + exprs_code(es.drop_first(), funcs)
    }
}

/// The code a single statement lowers to.  Stack effect: none.
pub open spec fn stmt_code(s: Stmt, funcs: Seq<FuncDef>) -> Seq<Instr>
    decreases s,
{
    match s {
        Stmt::Define(n, e) => expr_code(e, funcs).push(Instr::DefineVar(n)),
        Stmt::Assign(n, e) => expr_code(e, funcs).push(Instr::StoreVar(n)),
        Stmt::Push(l, v) => expr_code(l, funcs) + expr_code(v, funcs) + seq![Instr::ListPush],
        Stmt::SetIndex(l, i, v) => expr_code(l, funcs) + expr_code(i, funcs) + expr_code(v, funcs)
            + seq![Instr::ListSet],
        Stmt::Return(e) => expr_code(e, funcs).push(Instr::Return),
        Stmt::If(c, t, els) => {
            let tc = stmts_code(t@, funcs);
            let ec = stmts_code(els@, funcs);
            expr_code(c, funcs) + seq![Instr::JumpIfFalse((tc.len() + 1) as usize)] + tc + seq![
                Instr::Jump(ec.len() as usize),
            ] + ec
        },
        Stmt::While(c, body) => {
            let cc = expr_code(c, funcs);
            let bc = stmts_code(body@, funcs);
            cc + seq![Instr::JumpIfFalse((bc.len() + 1) as usize)] + bc + seq![
                Instr::JumpBack((cc.len() + bc.len() + 1) as usize),
            ]
        },
        Stmt::Warp(body) => seq![Instr::WarpEnter] + stmts_code(body@, funcs) + seq![
            Instr::WarpExit,
        ],
        Stmt::Yield => seq![Instr::Yield],
        Stmt::Discard(e) => expr_code(e, funcs).push(Instr::Pop),
    }
}

/// The code a run of statements lowers to, first to last.
pub open spec fn stmts_code(ss: Seq<Stmt>, funcs: Seq<FuncDef>) -> Seq<Instr>
    decreases ss,
{
    if ss.len() == 0 {
        Seq::empty()
    } else {
        stmt_code(ss[0], funcs) + stmts_code(ss.drop_first(), funcs)
    }
}

/// The code one unit (a script body or a function body) lowers to: its
/// statements, then an implicit empty-text return.
pub open spec fn unit_code(body: Seq<Stmt>, funcs: Seq<FuncDef>) -> Seq<Instr> {
    stmts_code(body, funcs).push(Instr::ReturnEmpty)
}

/// The code of a run of scripts, first to last.
pub open spec fn scripts_code(ss: Seq<ScriptAst>, funcs: Seq<FuncDef>) -> Seq<Instr>
    decreases ss.len(),
{
    if ss.len() == 0 {
        Seq::empty()
    } else {
        unit_code(ss[0].body@, funcs) + scripts_code(ss.drop_first(), funcs)
    }
}

/// The code of a run of sprites, first to last.
pub open spec fn sprites_code(sp: Seq<Sprite>, funcs: Seq<FuncDef>) -> Seq<Instr>
    decreases sp.len(),
{
    if sp.len() == 0 {
        Seq::empty()
    } else {
        scripts_code(sp[0].scripts@, funcs) + sprites_code(sp.drop_first(), funcs)
    }
}

/// The code of a run of function bodies, first to last.
pub open spec fn funcs_code(fs: Seq<FuncDef>, funcs: Seq<FuncDef>) -> Seq<Instr>
    decreases fs.len(),
{
    if fs.len() == 0 {
        Seq::empty()
    } else {
        unit_code(fs[0].body@, funcs) + funcs_code(fs.drop_first(), funcs)
    }
}

/// The whole code of a role: every sprite's scripts in order, then every
/// function body.
pub open spec fn role_code(role: Role) -> Seq<Instr> {
    sprites_code(role.sprites@, role.funcs@) + funcs_code(role.funcs@, role.funcs@)
}

/// Where script `j` of sprite `i` starts in the role's code.
pub open spec fn script_start(role: Role, i: int, j: int) -> nat {
    sprites_code(role.sprites@.subrange(0, i), role.funcs@).len() + scripts_code(
        role.sprites@[i].scripts@.subrange(0, j),
        role.funcs@,
    ).len()
}

/// Where function `k` starts in the role's code.
pub open spec fn func_entry(role: Role, k: int) -> nat {
    sprites_code(role.sprites@, role.funcs@).len() + funcs_code(
        role.funcs@.subrange(0, k),
        role.funcs@,
    ).len()
}

proof fn lemma_scripts_code_split(a: Seq<ScriptAst>, b: Seq<ScriptAst>, funcs: Seq<FuncDef>)
    ensures
        scripts_code(a + b, funcs) == scripts_code(a, funcs) + scripts_code(b, funcs),
    decreases a.len(),
{
    if a.len() == 0 {
        assert(a + b =~= b);
        assert(scripts_code(a, funcs) + scripts_code(b, funcs) =~= scripts_code(b, funcs));
    } else {
        assert((a + b).len() > 0);
        assert((a + b)[0] == a[0]);
        assert((a + b).drop_first() =~= a.drop_first() + b);
        lemma_scripts_code_split(a.drop_first(), b, funcs);
        assert(scripts_code(a + b, funcs) =~= scripts_code(a, funcs) + scripts_code(b, funcs));
    }
}

proof fn lemma_sprites_code_split(a: Seq<Sprite>, b: Seq<Sprite>, funcs: Seq<FuncDef>)
    ensures
        sprites_code(a + b, funcs) == sprites_code(a, funcs) + sprites_code(b, funcs),
    decreases a.len(),
{
    if a.len() == 0 {
        assert(a + b =~= b);
        assert(sprites_code(a, funcs) + sprites_code(b, funcs) =~= sprites_code(b, funcs));
    } else {
        assert((a + b).len() > 0);
        assert((a + b)[0] == a[0]);
        assert((a + b).drop_first() =~= a.drop_first() + b);
        lemma_sprites_code_split(a.drop_first(), b, funcs);
        assert(sprites_code(a + b, funcs) =~= sprites_code(a, funcs) + sprites_code(b, funcs));
    }
}

proof fn lemma_funcs_code_split(a: Seq<FuncDef>, b: Seq<FuncDef>, funcs: Seq<FuncDef>)
    ensures
        funcs_code(a + b, funcs) == funcs_code(a, funcs) + funcs_code(b, funcs),
    decreases a.len(),
{
    if a.len() == 0 {
        assert(a + b =~= b);
        assert(funcs_code(a, funcs) + funcs_code(b, funcs) =~= funcs_code(b, funcs));
    } else {
        assert((a + b).len() > 0);
        assert((a + b)[0] == a[0]);
        assert((a + b).drop_first() =~= a.drop_first() + b);
        lemma_funcs_code_split(a.drop_first(), b, funcs);
        assert(funcs_code(a + b, funcs) =~= funcs_code(a, funcs) + funcs_code(b, funcs));
    }
}

/// The first function of this name, or `funcs.len()` when none bears it.
fn resolve_func_exec(funcs: &Vec<FuncDef>, name: &String) -> (r: usize)
    ensures
        r as nat == resolve_func(funcs@, name@),
        r <= funcs@.len(),
    decreases funcs@.len(),
{
    proof {
        assert(funcs@.skip(0) =~= funcs@);
    }
    let mut i: usize = 0;
    while i < funcs.len()
        invariant
            i <= funcs@.len(),
            resolve_func(funcs@, name@) == i + resolve_func(funcs@.skip(i as int), name@),
        decreases funcs@.len() - i,
    {
        if funcs[i].name.eq(name) {
            proof {
                assert(funcs@.skip(i as int)[0] == funcs@[i as int]);
            }
            return i;
        }
        proof {
            assert(funcs@.skip(i as int)[0] == funcs@[i as int]);
            assert(funcs@.skip(i as int).drop_first() =~= funcs@.skip(i as int + 1));
        }
        i = i + 1;
    }
    proof {
        assert(funcs@.skip(funcs@.len() as int) =~= Seq::<FuncDef>::empty());
    }
    i
}

fn bin_instr_exec(op: BinOp) -> (r: Instr)
    ensures
        r == bin_instr(op),
{
    match op {
        BinOp::Add => Instr::Arith(NumOp::Add),
        BinOp::Sub => Instr::Arith(NumOp::Sub),
        BinOp::Mul => Instr::Arith(NumOp::Mul),
        BinOp::Div => Instr::Arith(NumOp::Div),
        BinOp::Eq => Instr::Cmp(CmpOp::Eq),
        BinOp::Ne => Instr::Cmp(CmpOp::Ne),
        BinOp::Less => Instr::Cmp(CmpOp::Less),
        BinOp::LessEq => Instr::Cmp(CmpOp::LessEq),
        BinOp::Greater => Instr::Cmp(CmpOp::Greater),
        BinOp::GreaterEq => Instr::Cmp(CmpOp::GreaterEq),
    }
}

/// Lowers one expression; the result is exactly the spec mirror's code.
#[verifier::loop_isolation(false)]
pub fn compile_expr(e: &Expr, funcs: &Vec<FuncDef>) -> (r: Vec<Instr>)
    requires
        expr_code(*e, funcs@).len() < usize::MAX,
    ensures
        r@ == expr_code(*e, funcs@),
    decreases *e,
{
    match e {
        Expr::BoolLit(b) => {
            let mut out: Vec<Instr> = Vec::new();
            out.push(Instr::PushBool(*b));
            proof {
                assert(out@ =~= expr_code(*e, funcs@));
            }
            out
        },
        Expr::NumberLit(n) => {
            let mut out: Vec<Instr> = Vec::new();
            out.push(Instr::PushNumber(*n));
            proof {
                assert(out@ =~= expr_code(*e, funcs@));
            }
            out
        },
        Expr::TextLit(s) => {
            let mut out: Vec<Instr> = Vec::new();
            out.push(Instr::PushText(s.clone()));
            proof {
                assert(out@ =~= expr_code(*e, funcs@));
            }
            out
        },
        Expr::Var(n) => {
            let mut out: Vec<Instr> = Vec::new();
            out.push(Instr::LoadVar(n.clone()));
            proof {
                assert(out@ =~= expr_code(*e, funcs@));
            }
            out
        },
        Expr::ListOf(es) => {
            let mut out = compile_exprs(es, funcs);
            out.push(Instr::MakeList(es.len()));
            proof {
                assert(out@ =~= expr_code(*e, funcs@));
            }
            out
        },
        Expr::Bin(op, a, b) => {
            let mut out = compile_expr(a, funcs);
            let mut cb = compile_expr(b, funcs);
            out.append(&mut cb);
            out.push(bin_instr_exec(*op));
            proof {
                assert(out@ =~= expr_code(*e, funcs@));
            }
            out
        },
        Expr::Neg(a) => {
            let mut out = compile_expr(a, funcs);
            out.push(Instr::NegNum);
            proof {
                assert(out@ =~= expr_code(*e, funcs@));
            }
            out
        },
        Expr::Not(a) => {
            let mut out = compile_expr(a, funcs);
            out.push(Instr::NotB);
            proof {
                assert(out@ =~= expr_code(*e, funcs@));
            }
            out
        },
        Expr::And(a, b) => {
            let mut out = compile_expr(a, funcs);
            let mut cb = compile_expr(b, funcs);
            out.push(Instr::Dup);
            out.push(Instr::JumpIfFalse(cb.len() + 1));
            out.push(Instr::Pop);
            out.append(&mut cb);
            proof {
                assert(out@ =~= expr_code(*e, funcs@));
            }
            out
        },
        Expr::Or(a, b) => {
            let mut out = compile_expr(a, funcs);
            let mut cb = compile_expr(b, funcs);
            out.push(Instr::Dup);
            out.push(Instr::NotB);
            out.push(Instr::JumpIfFalse(cb.len() + 1));
            out.push(Instr::Pop);
            out.append(&mut cb);
            proof {
                assert(out@ =~= expr_code(*e, funcs@));
            }
            out
        },
        Expr::Len(a) => {
            let mut out = compile_expr(a, funcs);
            out.push(Instr::ListLen);
            proof {
                assert(out@ =~= expr_code(*e, funcs@));
            }
            out
        },
        Expr::Item(l, i) => {
            let mut out = compile_expr(l, funcs);
            let mut ci = compile_expr(i, funcs);
            out.append(&mut ci);
            out.push(Instr::ListItem);
            proof {
                assert(out@ =~= expr_code(*e, funcs@));
            }
            out
        },
        Expr::CallFn(name, args) => {
            let mut out = compile_exprs(args, funcs);
            let f = resolve_func_exec(funcs, name);
            out.push(Instr::Call(f));
            proof {
                assert(out@ =~= expr_code(*e, funcs@));
            }
            out
        },
        Expr::ClosureOf(name) => {
            let mut out: Vec<Instr> = Vec::new();
            let f = resolve_func_exec(funcs, name);
            out.push(Instr::MakeClosure(f));
            proof {
                assert(out@ =~= expr_code(*e, funcs@));
            }
            out
        },
        Expr::CallClosure(t, args) => {
            let mut out = compile_expr(t, funcs);
            let mut ca = compile_exprs(args, funcs);
            out.append(&mut ca);
            out.push(Instr::CallClosure(args.len()));
            proof {
                assert(out@ =~= expr_code(*e, funcs@));
            }
            out
        },
    }
}

/// Lowers a run of expressions, first to last.
#[verifier::loop_isolation(false)]
pub fn compile_exprs(es: &Vec<Expr>, funcs: &Vec<FuncDef>) -> (r: Vec<Instr>)
    requires
        exprs_code(es@, funcs@).len() < usize::MAX,
    ensures
        r@ == exprs_code(es@, funcs@),
    decreases *es,
{
    proof {
        assert(es@.skip(0) =~= es@);
    }
    let mut out: Vec<Instr> = Vec::new();
    let mut i: usize = 0;
    while i < es.len()
        invariant
            i <= es@.len(),
            out@ + exprs_code(es@.skip(i as int), funcs@) == exprs_code(es@, funcs@),
        decreases es@.len() - i,
    {
        proof {
            assert(es@.skip(i as int)[0] == es@[i as int]);
            assert(es@.skip(i as int).drop_first() =~= es@.skip(i as int + 1));
        }
        let mut c = compile_expr(&es[i], funcs);
        out.append(&mut c);
        i = i + 1;
    }
    proof {
        assert(es@.skip(es@.len() as int) =~= Seq::<Expr>::empty());
        assert(out@ =~= exprs_code(es@, funcs@));
    }
    out
}

/// Lowers one statement; the result is exactly the spec mirror's code.
#[verifier::loop_isolation(false)]
pub fn compile_stmt(s: &Stmt, funcs: &Vec<FuncDef>) -> (r: Vec<Instr>)
    requires
        stmt_code(*s, funcs@).len() < usize::MAX,
    ensures
        r@ == stmt_code(*s, funcs@),
    decreases *s,
{
    match s {
        Stmt::Define(n, e) => {
            let mut out = compile_expr(e, funcs);
            out.push(Instr::DefineVar(n.clone()));
            proof {
                assert(out@ =~= stmt_code(*s, funcs@));
            }
            out
        },
        Stmt::Assign(n, e) => {
            let mut out = compile_expr(e, funcs);
            out.push(Instr::StoreVar(n.clone()));
            proof {
                assert(out@ =~= stmt_code(*s, funcs@));
            }
            out
        },
        Stmt::Push(l, v) => {
            let mut out = compile_expr(l, funcs);
            let mut cv = compile_expr(v, funcs);
            out.append(&mut cv);
            out.push(Instr::ListPush);
            proof {
                assert(out@ =~= stmt_code(*s, funcs@));
            }
            out
        },
        Stmt::SetIndex(l, i, v) => {
            let mut out = compile_expr(l, funcs);
            let mut ci = compile_expr(i, funcs);
            let mut cv = compile_expr(v, funcs);
            out.append(&mut ci);
            out.append(&mut cv);
            out.push(Instr::ListSet);
            proof {
                assert(out@ =~= stmt_code(*s, funcs@));
            }
            out
        },
        Stmt::Return(e) => {
            let mut out = compile_expr(e, funcs);
            out.push(Instr::Return);
            proof {
                assert(out@ =~= stmt_code(*s, funcs@));
            }
            out
        },
        Stmt::If(c, t, els) => {
            let mut out = compile_expr(c, funcs);
            let mut tc = compile_stmts(t, funcs);
            let mut ec = compile_stmts(els, funcs);
            let nt = tc.len();
            let ne = ec.len();
            out.push(Instr::JumpIfFalse(nt + 1));
            out.append(&mut tc);
            out.push(Instr::Jump(ne));
            out.append(&mut ec);
            proof {
                assert(out@ =~= stmt_code(*s, funcs@));
            }
            out
        },
        Stmt::While(c, body) => {
            let mut out = compile_expr(c, funcs);
            let nc = out.len();
            let mut bc = compile_stmts(body, funcs);
            let nb = bc.len();
            out.push(Instr::JumpIfFalse(nb + 1));
            out.append(&mut bc);
            out.push(Instr::JumpBack(nc + nb + 1));
            proof {
                assert(out@ =~= stmt_code(*s, funcs@));
            }
            out
        },
        Stmt::Warp(body) => {
            let mut out: Vec<Instr> = Vec::new();
            out.push(Instr::WarpEnter);
            let mut bc = compile_stmts(body, funcs);
            out.append(&mut bc);
            out.push(Instr::WarpExit);
            proof {
                assert(out@ =~= stmt_code(*s, funcs@));
            }
            out
        },
        Stmt::Yield => {
            let mut out: Vec<Instr> = Vec::new();
            out.push(Instr::Yield);
            proof {
                assert(out@ =~= stmt_code(*s, funcs@));
            }
            out
        },
        Stmt::Discard(e) => {
            let mut out = compile_expr(e, funcs);
            out.push(Instr::Pop);
            proof {
                assert(out@ =~= stmt_code(*s, funcs@));
            }
            out
        },
    }
}

/// Lowers a run of statements, first to last.
#[verifier::loop_isolation(false)]
pub fn compile_stmts(ss: &Vec<Stmt>, funcs: &Vec<FuncDef>) -> (r: Vec<Instr>)
    requires
        stmts_code(ss@, funcs@).len() < usize::MAX,
    ensures
        r@ == stmts_code(ss@, funcs@),
    decreases *ss,
{
    proof {
        assert(ss@.skip(0) =~= ss@);
    }
    let mut out: Vec<Instr> = Vec::new();
    let mut i: usize = 0;
    while i < ss.len()
        invariant
            i <= ss@.len(),
            out@ + stmts_code(ss@.skip(i as int), funcs@) == stmts_code(ss@, funcs@),
        decreases ss@.len() - i,
    {
        proof {
            assert(ss@.skip(i as int)[0] == ss@[i as int]);
            assert(ss@.skip(i as int).drop_first() =~= ss@.skip(i as int + 1));
        }
        let mut c = compile_stmt(&ss[i], funcs);
        out.append(&mut c);
        i = i + 1;
    }
    proof {
        assert(ss@.skip(ss@.len() as int) =~= Seq::<Stmt>::empty());
        assert(out@ =~= stmts_code(ss@, funcs@));
    }
    out
}

/// Lowers one unit: its statements and the implicit empty-text return.
pub fn compile_unit(body: &Vec<Stmt>, funcs: &Vec<FuncDef>) -> (r: Vec<Instr>)
    requires
        unit_code(body@, funcs@).len() <= usize::MAX,
    ensures
        r@ == unit_code(body@, funcs@),
{
    let mut out = compile_stmts(body, funcs);
    out.push(Instr::ReturnEmpty);
    proof {
        assert(out@ =~= unit_code(body@, funcs@));
    }
    out
}

impl ByteCode {
    /// Compiles a role: every sprite's scripts in order, then every
    /// function body, into one shared code vector, with the location
    /// tables.  The result is a pure function of the role: the code equals
    /// the spec mirror [`role_code`], the function table binds each role
    /// function's name and parameters at [`func_entry`], and the location
    /// tables place script `j` of sprite `i` at [`script_start`].
    #[verifier::loop_isolation(false)]
    #[verifier::rlimit(60)]
    pub fn compile(role: &Role) -> (r: (ByteCode, Locations))
        requires
            role_code(*role).len() < usize::MAX,
        ensures
            r.0.code@ == role_code(*role),
            r.0.funcs@.len() == role.funcs@.len(),
            forall|k: int|
                0 <= k < role.funcs@.len() ==> #[trigger] r.0.funcs@[k].name == role.funcs@[k].name
                    && r.0.funcs@[k].params@ == role.funcs@[k].params@ && r.0.funcs@[k].entry
                    == func_entry(*role, k),
            r.1.entities@.len() == role.sprites@.len(),
            forall|i: int|
                0 <= i < role.sprites@.len() ==> #[trigger] r.1.entities@[i].scripts@.len()
                    == role.sprites@[i].scripts@.len(),
            forall|i: int, j: int|
                0 <= i < role.sprites@.len() && 0 <= j < role.sprites@[i].scripts@.len()
                    ==> #[trigger] r.1.entities@[i].scripts@[j] == script_start(*role, i, j),
    {
        let ghost sp = role.sprites@;
        let ghost fs = role.funcs@;
        let mut code: Vec<Instr> = Vec::new();
        let mut entities: Vec<EntityLocs> = Vec::new();
        let mut i: usize = 0;
        while i < role.sprites.len()
            invariant
                i <= sp.len(),
                code@ == sprites_code(sp.subrange(0, i as int), fs),
                entities@.len() == i,
                forall|i2: int|
                    0 <= i2 < i ==> #[trigger] entities@[i2].scripts@.len()
                        == sp[i2].scripts@.len(),
                forall|i2: int, j2: int|
                    0 <= i2 < i && 0 <= j2 < sp[i2].scripts@.len()
                        ==> #[trigger] entities@[i2].scripts@[j2] == script_start(*role, i2, j2),
            decreases sp.len() - i,
        {
            let ghost sc = sp[i as int].scripts@;
            let mut starts: Vec<usize> = Vec::new();
            let mut j: usize = 0;
            while j < role.sprites[i].scripts.len()
                invariant
                    i < sp.len(),
                    j <= sc.len(),
                    sc == sp[i as int].scripts@,
                    code@ == sprites_code(sp.subrange(0, i as int), fs) + scripts_code(
                        sc.subrange(0, j as int),
                        fs,
                    ),
                    starts@.len() == j,
                    forall|j2: int|
                        0 <= j2 < j ==> #[trigger] starts@[j2] == script_start(*role, i as int, j2),
                    entities@.len() == i,
                    forall|i2: int|
                        0 <= i2 < i ==> #[trigger] entities@[i2].scripts@.len()
                            == sp[i2].scripts@.len(),
                    forall|i2: int, j2: int|
                        0 <= i2 < i && 0 <= j2 < sp[i2].scripts@.len()
                            ==> #[trigger] entities@[i2].scripts@[j2] == script_start(
                            *role,
                            i2,
                            j2,
                        ),
                decreases sc.len() - j,
            {
                proof {
                    assert(sp =~= sp.subrange(0, i as int) + sp.skip(i as int));
                    lemma_sprites_code_split(sp.subrange(0, i as int), sp.skip(i as int), fs);
                    assert(sp.skip(i as int)[0] == sp[i as int]);
                    assert(sc =~= sc.subrange(0, j as int) + sc.skip(j as int));
                    lemma_scripts_code_split(sc.subrange(0, j as int), sc.skip(j as int), fs);
                    assert(sc.skip(j as int)[0] == sc[j as int]);
                    assert(scripts_code(sc.skip(j as int), fs) == unit_code(sc[j as int].body@, fs)
                        + scripts_code(sc.skip(j as int).drop_first(), fs));
                    assert(sprites_code(sp.skip(i as int), fs) == scripts_code(sc, fs)
                        + sprites_code(sp.skip(i as int).drop_first(), fs));
                    assert(unit_code(sc[j as int].body@, fs).len() <= role_code(*role).len());
                }
                starts.push(code.len());
                let mut u = compile_unit(&role.sprites[i].scripts[j].body, &role.funcs);
                code.append(&mut u);
                proof {
                    assert(sc.subrange(0, j as int + 1) =~= sc.subrange(0, j as int) + seq![
                        sc[j as int],
                    ]);
                    lemma_scripts_code_split(sc.subrange(0, j as int), seq![sc[j as int]], fs);
                    let one = seq![sc[j as int]];
                    assert(one.len() == 1);
                    assert(one[0] == sc[j as int]);
                    assert(one.drop_first() =~= Seq::<ScriptAst>::empty());
                    assert(scripts_code(one.drop_first(), fs) =~= Seq::<Instr>::empty());
                    assert(scripts_code(one, fs) == unit_code(sc[j as int].body@, fs)
                        + scripts_code(one.drop_first(), fs));
                    assert(scripts_code(one, fs) =~= unit_code(sc[j as int].body@, fs));
                }
                j = j + 1;
            }
            proof {
                assert(sc.subrange(0, sc.len() as int) =~= sc);
            }
            entities.push(EntityLocs { scripts: starts });
            proof {
                assert(sp.subrange(0, i as int + 1) =~= sp.subrange(0, i as int) + seq![
                    sp[i as int],
                ]);
                lemma_sprites_code_split(sp.subrange(0, i as int), seq![sp[i as int]], fs);
                let one = seq![sp[i as int]];
                assert(one.len() == 1);
                assert(one[0] == sp[i as int]);
                assert(one.drop_first() =~= Seq::<Sprite>::empty());
                assert(sprites_code(one.drop_first(), fs) =~= Seq::<Instr>::empty());
                assert(sprites_code(one, fs) == scripts_code(sc, fs) + sprites_code(
                    one.drop_first(),
                    fs,
                ));
                assert(sprites_code(one, fs) =~= scripts_code(sc, fs));
            }
            i = i + 1;
        }
        proof {
            assert(sp.subrange(0, sp.len() as int) =~= sp);
        }
        let mut funcs_tbl: Vec<FuncLoc> = Vec::new();
        let mut k: usize = 0;
        while k < role.funcs.len()
            invariant
                k <= fs.len(),
                code@ == sprites_code(sp, fs) + funcs_code(fs.subrange(0, k as int), fs),
                funcs_tbl@.len() == k,
                forall|k2: int|
                    0 <= k2 < k ==> #[trigger] funcs_tbl@[k2].name == fs[k2].name
                        && funcs_tbl@[k2].params@ == fs[k2].params@ && funcs_tbl@[k2].entry
                        == func_entry(*role, k2),
            decreases fs.len() - k,
        {
            proof {
                assert(fs =~= fs.subrange(0, k as int) + fs.skip(k as int));
                lemma_funcs_code_split(fs.subrange(0, k as int), fs.skip(k as int), fs);
                assert(fs.skip(k as int)[0] == fs[k as int]);
                assert(funcs_code(fs.skip(k as int), fs) == unit_code(fs[k as int].body@, fs)
                    + funcs_code(fs.skip(k as int).drop_first(), fs));
                assert(unit_code(fs[k as int].body@, fs).len() <= role_code(*role).len());
            }
            let entry = code.len();
            funcs_tbl.push(
                FuncLoc {
                    name: role.funcs[k].name.clone(),
                    params: dup_strings(&role.funcs[k].params),
                    entry,
                },
            );
            let mut u = compile_unit(&role.funcs[k].body, &role.funcs);
            code.append(&mut u);
            proof {
                assert(fs.subrange(0, k as int + 1) =~= fs.subrange(0, k as int) + seq![
                    fs[k as int],
                ]);
                lemma_funcs_code_split(fs.subrange(0, k as int), seq![fs[k as int]], fs);
                let one = seq![fs[k as int]];
                assert(one.len() == 1);
                assert(one[0] == fs[k as int]);
                assert(one.drop_first() =~= Seq::<FuncDef>::empty());
                assert(funcs_code(one.drop_first(), fs) =~= Seq::<Instr>::empty());
                assert(funcs_code(one, fs) == unit_code(fs[k as int].body@, fs) + funcs_code(
                    one.drop_first(),
                    fs,
                ));
                assert(funcs_code(one, fs) =~= unit_code(fs[k as int].body@, fs));
            }
            k = k + 1;
        }
        proof {
            assert(fs.subrange(0, fs.len() as int) =~= fs);
        }
        (ByteCode { code, funcs: funcs_tbl }, Locations { entities })
    }
}

/// What it means for a value to have been built from a literal: scalars
/// carry the literal itself, and a list handle leads to elements built from
/// the literal's elements.
pub open spec fn ast_built(node: AstValue, v: Value, lists: Seq<Vec<Value>>) -> bool
    decreases node,
{
    match node {
        AstValue::Bool(b) => v == Value::Bool(b),
        AstValue::Number(n) => v == Value::Number(n),
        AstValue::Text(s) => v == Value::Text(s),
        AstValue::List(xs) => match v {
            Value::List(h) => h < lists.len() && lists[h as int]@.len() == xs@.len() && (forall|
                q: int,
            |
                0 <= q < xs@.len() ==> ast_built(xs@[q], #[trigger] lists[h as int]@[q], lists)),
            _ => false,
        },
    }
}

/// A value built from a literal stays so built when the pool grows: new
/// lists are only appended, never written over old handles.
pub proof fn lemma_ast_built_grow(
    node: AstValue,
    v: Value,
    l1: Seq<Vec<Value>>,
    l2: Seq<Vec<Value>>,
)
    requires
        ast_built(node, v, l1),
        l1.len() <= l2.len(),
        forall|i: int| 0 <= i < l1.len() ==> l2[i] == l1[i],
    ensures
        ast_built(node, v, l2),
    decreases node,
{
    match node {
        AstValue::List(xs) => {
            match v {
                Value::List(h) => {
                    assert forall|q: int| 0 <= q < xs@.len() implies ast_built(
                        xs@[q],
                        #[trigger] l2[h as int]@[q],
                        l2,
                    ) by {
                        assert(ast_built(xs@[q], l1[h as int]@[q], l1));
                        lemma_ast_built_grow(xs@[q], l1[h as int]@[q], l1, l2);
                    }
                },
                _ => {},
            }
        },
        _ => {},
    }
}

impl Value {
    /// Builds a value from a literal: scalars directly, lists recursively
    /// into fresh pool cells.
    #[verifier::loop_isolation(false)]
    pub fn from_ast(node: &AstValue, pool: &mut RefPool) -> (r: Value)
        ensures
            final(pool).cells@ == old(pool).cells@,
            final(pool).closures@ == old(pool).closures@,
            old(pool).lists@.len() <= final(pool).lists@.len(),
            forall|i: int|
                0 <= i < old(pool).lists@.len() ==> final(pool).lists@[i] == old(pool).lists@[i],
            ast_built(*node, r, final(pool).lists@),
        decreases *node,
    {
        match node {
            AstValue::Bool(b) => Value::Bool(*b),
            AstValue::Number(n) => Value::Number(*n),
            AstValue::Text(s) => Value::Text(s.clone()),
            AstValue::List(xs) => {
                let mut elems: Vec<Value> = Vec::new();
                let mut q: usize = 0;
                while q < xs.len()
                    invariant
                        q <= xs@.len(),
                        elems@.len() == q,
                        pool.cells@ == old(pool).cells@,
                        pool.closures@ == old(pool).closures@,
                        old(pool).lists@.len() <= pool.lists@.len(),
                        forall|i: int|
                            0 <= i < old(pool).lists@.len() ==> pool.lists@[i] == old(
                                pool,
                            ).lists@[i],
                        forall|t: int|
                            0 <= t < q ==> ast_built(xs@[t], #[trigger] elems@[t], pool.lists@),
                    decreases xs@.len() - q,
                {
                    let ghost lists_prev = pool.lists@;
                    let v = Value::from_ast(&xs[q], pool);
                    elems.push(v);
                    proof {
                        assert forall|t: int| 0 <= t < q + 1 implies ast_built(
                            xs@[t],
                            #[trigger] elems@[t],
                            pool.lists@,
                        ) by {
                            if t < q {
                                lemma_ast_built_grow(xs@[t], elems@[t], lists_prev, pool.lists@);
                            }
                        }
                    }
                    q = q + 1;
                }
                let ghost lists_before = pool.lists@;
                let h = pool.alloc_list(elems);
                proof {
                    assert(pool.lists@[h as int]@.len() == xs@.len());
                    assert forall|t: int| 0 <= t < xs@.len() implies ast_built(
                        xs@[t],
                        #[trigger] pool.lists@[h as int]@[t],
                        pool.lists@,
                    ) by {
                        lemma_ast_built_grow(
                            xs@[t],
                            pool.lists@[h as int]@[t],
                            lists_before,
                            pool.lists@,
                        );
                    }
                }
                Value::List(h)
            },
        }
    }
}

} // verus!
