//! The process: one bytecode interpreter instance.
//!
//! A process holds a program counter, a value stack, a call stack and a
//! warp counter, and advances by exactly one instruction per `step`.  The
//! step reports whether it made plain progress, reached a cooperative
//! yield point, or terminated; errors abort the process and leave every
//! neighbour untouched.
//!
//! The warp counter suppresses the yields of loop back-edges and `yield`
//! opcodes while positive; every call frame records the warp depth at its
//! call, and returning restores it, so a terminating process always comes
//! to rest at warp depth zero.

use vstd::prelude::*;
use crate::runtime::{
    Value,
    ValueType,
    ExecError,
    RefPool,
    SymbolTable,
    Closure,
    dup_value,
    dup_strings,
    values_equal,
    coerce_number,
    surface_index,
    lookup_spec,
    type_of,
};
use crate::runtime::{redefine_spec, coerce_number_spec, values_equal_spec, Entry};
use crate::bytecode::{ByteCode, Instr, NumOp, CmpOp};
use crate::num::{
    num_add,
    num_sub,
    num_mul,
    num_div,
    num_neg,
    num_eq,
    num_lt,
    num_from_u64,
    num_to_int,
    add_bits,
    sub_bits,
    mul_bits,
    div_bits,
    neg_bits,
    eq_bits,
    lt_bits,
    bits_of_u64,
    int_of,
};

verus! {

broadcast use vstd::std_specs::vec::axiom_spec_len;

/// What one step of a process reports to its scheduler.
#[derive(Debug, PartialEq)]
pub enum StepType {
    /// The process was not running; nothing happened.
    Idle,
    /// Progress was made; the process may be stepped again at once.
    Normal,
    /// The process reached a cooperative yield point.
    Yield,
    /// The root frame returned; the process is idle again and this is its
    /// result.
    Terminate(Option<Value>),
}

/// One call frame: where to continue, the frame's locals, and the warp
/// depth to restore on return.
#[derive(Debug)]
pub struct Frame {
    pub return_pc: usize,
    pub locals: SymbolTable,
    pub saved_warp: usize,
}

/// One interpreter instance.
#[derive(Debug)]
pub struct Process {
    pub pc: usize,
    pub running: bool,
    pub value_stack: Vec<Value>,
    pub call_stack: Vec<Frame>,
    pub warp_depth: usize,
    pub max_call_depth: usize,
}

/// The cell a name designates, innermost scope first: the frame's locals,
/// then the entity's fields, then the project's globals.
pub open spec fn chain_lookup(
    locals: Seq<crate::runtime::Entry>,
    fields: Seq<crate::runtime::Entry>,
    globals: Seq<crate::runtime::Entry>,
    name: Seq<char>,
) -> Option<usize> {
    if lookup_spec(locals, name) is Some {
        lookup_spec(locals, name)
    } else if lookup_spec(fields, name) is Some {
        lookup_spec(fields, name)
    } else {
        lookup_spec(globals, name)
    }
}

/// Resolves a name through the scope chain.
pub fn lookup_cell(
    locals: &SymbolTable,
    fields: &SymbolTable,
    globals: &SymbolTable,
    name: &String,
) -> (r: Option<usize>)
    ensures
        r == chain_lookup(locals.entries@, fields.entries@, globals.entries@, name@),
{
    match locals.lookup(name) {
        Some(c) => Some(c),
        None => match fields.lookup(name) {
            Some(c) => Some(c),
            None => globals.lookup(name),
        },
    }
}

/// View equality of two pools.
pub open spec fn pool_same(a: RefPool, b: RefPool) -> bool {
    &&& b.lists@ == a.lists@
    &&& b.cells@ == a.cells@
    &&& b.closures@ == a.closures@
}

/// The shape of an aborted step: the error is surfaced, the process is
/// idle at warp depth zero with its counter and bound kept, and the pool
/// is untouched.  The stacks are left as the abort found them (operands
/// may already have been consumed); an idle process's stacks are dead
/// state, cleared by the next `initialize`.
pub open spec fn fails_with(
    p0: Process,
    p1: Process,
    pool0: RefPool,
    pool1: RefPool,
    r: Result<StepType, ExecError>,
    e: ExecError,
) -> bool {
    &&& r == Err::<StepType, ExecError>(e)
    &&& !p1.running
    &&& p1.warp_depth == 0
    &&& p1.pc == p0.pc
    &&& p1.max_call_depth == p0.max_call_depth
    &&& pool_same(pool0, pool1)
}

/// As [`fails_with`], for the two errors whose payload is a message string
/// (which a spec cannot spell).
pub open spec fn fails_custom(
    p0: Process,
    p1: Process,
    pool0: RefPool,
    pool1: RefPool,
    r: Result<StepType, ExecError>,
) -> bool {
    &&& (r matches Err(ExecError::Custom { .. }))
    &&& !p1.running
    &&& p1.warp_depth == 0
    &&& p1.pc == p0.pc
    &&& p1.max_call_depth == p0.max_call_depth
    &&& pool_same(pool0, pool1)
}

/// The shape of an ordinary advancing step: still running, at `pc1`, with
/// the given value stack, everything else of the process kept.
pub open spec fn advance_to(p0: Process, p1: Process, pc1: int, stack1: Seq<Value>) -> bool {
    &&& p1.running
    &&& p1.pc == pc1
    &&& p1.value_stack@ == stack1
    &&& p1.call_stack@ == p0.call_stack@
    &&& p1.warp_depth == p0.warp_depth
    &&& p1.max_call_depth == p0.max_call_depth
}

/// The locals table after binding each parameter, left to right, to a
/// fresh consecutive cell starting at `first_cell` (a later duplicate
/// parameter rebinds the earlier one, as `redefine_or_define` does).
pub open spec fn bind_params(entries: Seq<Entry>, params: Seq<String>, first_cell: int) -> Seq<
    Entry,
>
    decreases params.len(),
{
    if params.len() == 0 {
        entries
    } else {
        bind_params(
            redefine_spec(entries, params[0], first_cell as usize),
            params.drop_first(),
            first_cell + 1,
        )
    }
}

/// Binding one more parameter is one more rebinding at the next cell.
proof fn lemma_bind_params_snoc(entries: Seq<Entry>, ps: Seq<String>, p: String, b: int)
    ensures
        bind_params(entries, ps.push(p), b) == redefine_spec(
            bind_params(entries, ps, b),
            p,
            (b + ps.len()) as usize,
        ),
    decreases ps.len(),
{
    let q = ps.push(p);
    if ps.len() == 0 {
        assert(q[0] == p);
        assert(q.drop_first() =~= Seq::<String>::empty());
        assert(bind_params(entries, q, b) == bind_params(
            redefine_spec(entries, q[0], b as usize),
            q.drop_first(),
            b + 1,
        ));
        assert(bind_params(entries, ps, b) == entries);
    } else {
        assert(q[0] == ps[0]);
        assert(q.drop_first() =~= ps.drop_first().push(p));
        assert(bind_params(entries, q, b) == bind_params(
            redefine_spec(entries, q[0], b as usize),
            q.drop_first(),
            b + 1,
        ));
        assert(bind_params(entries, ps, b) == bind_params(
            redefine_spec(entries, ps[0], b as usize),
            ps.drop_first(),
            b + 1,
        ));
        lemma_bind_params_snoc(redefine_spec(entries, ps[0], b as usize), ps.drop_first(), p, b + 1);
        assert((b + 1 + ps.drop_first().len()) as usize == (b + ps.len()) as usize);
    }
}

/// The comparison fuel a step grants: one more than the number of list
/// cells, saturated at the machine bound.
pub open spec fn cmp_fuel(pool: RefPool) -> nat {
    if pool.lists@.len() < usize::MAX {
        pool.lists@.len() + 1
    } else {
        usize::MAX as nat
    }
}

/// The machine transition of one interpreter step: for the instruction at
/// the old program counter, exactly what becomes of the counter, the value
/// stack, the call stack, the warp depth, the pool and the result.  The
/// symbol tables are read, never written: a step touches variables only
/// through their pool cells.
pub open spec fn step_rel(
    p0: Process,
    code: ByteCode,
    pool0: RefPool,
    fs: SymbolTable,
    gs: SymbolTable,
    p1: Process,
    pool1: RefPool,
    r: Result<StepType, ExecError>,
) -> bool {
    let st = p0.value_stack@;
    let n = st.len() as int;
    let pc = p0.pc as int;
    if !p0.running {
        &&& r == Ok::<StepType, ExecError>(StepType::Idle)
        &&& p1 == p0
        &&& pool_same(pool0, pool1)
    } else if p0.pc >= code.code@.len() {
        fails_with(p0, p1, pool0, pool1, r, ExecError::InvalidOpcode)
    } else {
        match code.code@[pc] {
            Instr::PushBool(b) => r == Ok::<StepType, ExecError>(StepType::Normal) && advance_to(
                p0,
                p1,
                pc + 1,
                st.push(Value::Bool(b)),
            ) && pool_same(pool0, pool1),
            Instr::PushNumber(x) => r == Ok::<StepType, ExecError>(StepType::Normal) && advance_to(
                p0,
                p1,
                pc + 1,
                st.push(Value::Number(x)),
            ) && pool_same(pool0, pool1),
            Instr::PushText(s) => r == Ok::<StepType, ExecError>(StepType::Normal) && advance_to(
                p0,
                p1,
                pc + 1,
                st.push(Value::Text(s)),
            ) && pool_same(pool0, pool1),
            Instr::MakeList(k) => {
                if n < k {
                    fails_with(p0, p1, pool0, pool1, r, ExecError::InvalidOpcode)
                } else {
                    &&& r == Ok::<StepType, ExecError>(StepType::Normal)
                    &&& advance_to(
                        p0,
                        p1,
                        pc + 1,
                        st.take(n - k).push(Value::List(pool0.lists@.len() as usize)),
                    )
                    &&& pool1.lists@.len() == pool0.lists@.len() + 1
                    &&& (forall|i: int|
                        0 <= i < pool0.lists@.len() ==> pool1.lists@[i] == pool0.lists@[i])
                    &&& pool1.lists@.last()@ == st.skip(n - k)
                    &&& pool1.cells@ == pool0.cells@
                    &&& pool1.closures@ == pool0.closures@
                }
            },
            Instr::Dup => {
                if n == 0 {
                    fails_with(p0, p1, pool0, pool1, r, ExecError::InvalidOpcode)
                } else {
                    r == Ok::<StepType, ExecError>(StepType::Normal) && advance_to(
                        p0,
                        p1,
                        pc + 1,
                        st.push(st.last()),
                    ) && pool_same(pool0, pool1)
                }
            },
            Instr::Pop => {
                if n == 0 {
                    fails_with(p0, p1, pool0, pool1, r, ExecError::InvalidOpcode)
                } else {
                    r == Ok::<StepType, ExecError>(StepType::Normal) && advance_to(
                        p0,
                        p1,
                        pc + 1,
                        st.drop_last(),
                    ) && pool_same(pool0, pool1)
                }
            },
            Instr::LoadVar(nm) => {
                let locals = p0.call_stack@.last().locals;
                match chain_lookup(locals.entries@, fs.entries@, gs.entries@, nm@) {
                    None => fails_with(
                        p0,
                        p1,
                        pool0,
                        pool1,
                        r,
                        ExecError::UndefinedVariable { name: nm },
                    ),
                    Some(c) => {
                        if c >= pool0.cells@.len() {
                            fails_with(p0, p1, pool0, pool1, r, ExecError::InvalidOpcode)
                        } else {
                            r == Ok::<StepType, ExecError>(StepType::Normal) && advance_to(
                                p0,
                                p1,
                                pc + 1,
                                st.push(pool0.cells@[c as int]),
                            ) && pool_same(pool0, pool1)
                        }
                    },
                }
            },
            Instr::StoreVar(nm) => {
                if n == 0 {
                    fails_with(p0, p1, pool0, pool1, r, ExecError::InvalidOpcode)
                } else {
                    let locals = p0.call_stack@.last().locals;
                    match chain_lookup(locals.entries@, fs.entries@, gs.entries@, nm@) {
                        None => fails_with(
                            p0,
                            p1,
                            pool0,
                            pool1,
                            r,
                            ExecError::UndefinedVariable { name: nm },
                        ),
                        Some(c) => {
                            if c >= pool0.cells@.len() {
                                fails_with(p0, p1, pool0, pool1, r, ExecError::InvalidOpcode)
                            } else {
                                &&& r == Ok::<StepType, ExecError>(StepType::Normal)
                                &&& advance_to(p0, p1, pc + 1, st.drop_last())
                                &&& pool1.cells@ == pool0.cells@.update(c as int, st.last())
                                &&& pool1.lists@ == pool0.lists@
                                &&& pool1.closures@ == pool0.closures@
                            }
                        },
                    }
                }
            },
            Instr::DefineVar(nm) => {
                if n == 0 {
                    fails_with(p0, p1, pool0, pool1, r, ExecError::InvalidOpcode)
                } else {
                    let depth = p0.call_stack@.len() as int;
                    &&& r == Ok::<StepType, ExecError>(StepType::Normal)
                    &&& p1.running
                    &&& p1.pc == pc + 1
                    &&& p1.value_stack@ == st.drop_last()
                    &&& p1.warp_depth == p0.warp_depth
                    &&& p1.max_call_depth == p0.max_call_depth
                    &&& p1.call_stack@.len() == depth
                    &&& (forall|i: int|
                        0 <= i < depth - 1 ==> p1.call_stack@[i] == p0.call_stack@[i])
                    &&& p1.call_stack@.last().return_pc == p0.call_stack@.last().return_pc
                    &&& p1.call_stack@.last().saved_warp == p0.call_stack@.last().saved_warp
                    &&& p1.call_stack@.last().locals.entries@ == redefine_spec(
                        p0.call_stack@.last().locals.entries@,
                        nm,
                        pool0.cells@.len() as usize,
                    )
                    &&& pool1.cells@ == pool0.cells@.push(st.last())
                    &&& pool1.lists@ == pool0.lists@
                    &&& pool1.closures@ == pool0.closures@
                }
            },
            Instr::ListLen => {
                if n == 0 {
                    fails_with(p0, p1, pool0, pool1, r, ExecError::InvalidOpcode)
                } else {
                    match st.last() {
                        Value::List(h) => {
                            if h >= pool0.lists@.len() {
                                fails_with(p0, p1, pool0, pool1, r, ExecError::InvalidOpcode)
                            } else {
                                r == Ok::<StepType, ExecError>(StepType::Normal) && advance_to(
                                    p0,
                                    p1,
                                    pc + 1,
                                    st.drop_last().push(
                                        Value::Number(
                                            bits_of_u64(pool0.lists@[h as int]@.len() as u64),
                                        ),
                                    ),
                                ) && pool_same(pool0, pool1)
                            }
                        },
                        v => fails_with(
                            p0,
                            p1,
                            pool0,
                            pool1,
                            r,
                            ExecError::TypeMismatch {
                                expected: ValueType::List,
                                got: type_of(v),
                            },
                        ),
                    }
                }
            },
            Instr::ListItem => {
                if n < 2 {
                    fails_with(p0, p1, pool0, pool1, r, ExecError::InvalidOpcode)
                } else {
                    let iv = st.last();
                    let lv = st[n - 2];
                    match lv {
                        Value::List(h) => match coerce_number_spec(iv) {
                            Err(e) => fails_with(p0, p1, pool0, pool1, r, e),
                            Ok(bits) => match int_of(bits) {
                                None => fails_custom(p0, p1, pool0, pool1, r),
                                Some(ix) => {
                                    if h >= pool0.lists@.len() {
                                        fails_with(
                                            p0,
                                            p1,
                                            pool0,
                                            pool1,
                                            r,
                                            ExecError::InvalidOpcode,
                                        )
                                    } else {
                                        let len = pool0.lists@[h as int]@.len() as int;
                                        if 1 <= ix && ix <= len {
                                            r == Ok::<StepType, ExecError>(StepType::Normal)
                                                && advance_to(
                                                p0,
                                                p1,
                                                pc + 1,
                                                st.take(n - 2).push(
                                                    pool0.lists@[h as int]@[ix - 1],
                                                ),
                                            ) && pool_same(pool0, pool1)
                                        } else {
                                            fails_with(
                                                p0,
                                                p1,
                                                pool0,
                                                pool1,
                                                r,
                                                ExecError::IndexOutOfRange {
                                                    len: len as usize,
                                                    index: ix,
                                                },
                                            )
                                        }
                                    }
                                },
                            },
                        },
                        v => fails_with(
                            p0,
                            p1,
                            pool0,
                            pool1,
                            r,
                            ExecError::TypeMismatch {
                                expected: ValueType::List,
                                got: type_of(v),
                            },
                        ),
                    }
                }
            },
            Instr::ListPush => {
                if n < 2 {
                    fails_with(p0, p1, pool0, pool1, r, ExecError::InvalidOpcode)
                } else {
                    let v = st.last();
                    match st[n - 2] {
                        Value::List(h) => {
                            if h >= pool0.lists@.len() {
                                fails_with(p0, p1, pool0, pool1, r, ExecError::InvalidOpcode)
                            } else {
                                &&& r == Ok::<StepType, ExecError>(StepType::Normal)
                                &&& advance_to(p0, p1, pc + 1, st.take(n - 2))
                                &&& pool1.lists@.len() == pool0.lists@.len()
                                &&& pool1.lists@[h as int]@ == pool0.lists@[h as int]@.push(v)
                                &&& (forall|j: int|
                                    0 <= j < pool0.lists@.len() && j != h ==> pool1.lists@[j]
                                        == pool0.lists@[j])
                                &&& pool1.cells@ == pool0.cells@
                                &&& pool1.closures@ == pool0.closures@
                            }
                        },
                        v2 => fails_with(
                            p0,
                            p1,
                            pool0,
                            pool1,
                            r,
                            ExecError::TypeMismatch {
                                expected: ValueType::List,
                                got: type_of(v2),
                            },
                        ),
                    }
                }
            },
            Instr::ListSet => {
                if n < 3 {
                    fails_with(p0, p1, pool0, pool1, r, ExecError::InvalidOpcode)
                } else {
                    let v = st.last();
                    let iv = st[n - 2];
                    match st[n - 3] {
                        Value::List(h) => match coerce_number_spec(iv) {
                            Err(e) => fails_with(p0, p1, pool0, pool1, r, e),
                            Ok(bits) => match int_of(bits) {
                                None => fails_custom(p0, p1, pool0, pool1, r),
                                Some(ix) => {
                                    if h >= pool0.lists@.len() {
                                        fails_with(
                                            p0,
                                            p1,
                                            pool0,
                                            pool1,
                                            r,
                                            ExecError::InvalidOpcode,
                                        )
                                    } else {
                                        let len = pool0.lists@[h as int]@.len() as int;
                                        if 1 <= ix && ix <= len {
                                            &&& r == Ok::<StepType, ExecError>(StepType::Normal)
                                            &&& advance_to(p0, p1, pc + 1, st.take(n - 3))
                                            &&& pool1.lists@.len() == pool0.lists@.len()
                                            &&& pool1.lists@[h as int]@ == pool0.lists@[
                                                h as int
                                            ]@.update(ix - 1, v)
                                            &&& (forall|j: int|
                                                0 <= j < pool0.lists@.len() && j != h
                                                    ==> pool1.lists@[j] == pool0.lists@[j])
                                            &&& pool1.cells@ == pool0.cells@
                                            &&& pool1.closures@ == pool0.closures@
                                        } else {
                                            fails_with(
                                                p0,
                                                p1,
                                                pool0,
                                                pool1,
                                                r,
                                                ExecError::IndexOutOfRange {
                                                    len: len as usize,
                                                    index: ix,
                                                },
                                            )
                                        }
                                    }
                                },
                            },
                        },
                        v2 => fails_with(
                            p0,
                            p1,
                            pool0,
                            pool1,
                            r,
                            ExecError::TypeMismatch {
                                expected: ValueType::List,
                                got: type_of(v2),
                            },
                        ),
                    }
                }
            },
            Instr::Arith(op) => {
                if n < 2 {
                    fails_with(p0, p1, pool0, pool1, r, ExecError::InvalidOpcode)
                } else {
                    match coerce_number_spec(st[n - 2]) {
                        Err(e) => fails_with(p0, p1, pool0, pool1, r, e),
                        Ok(a) => match coerce_number_spec(st.last()) {
                            Err(e) => fails_with(p0, p1, pool0, pool1, r, e),
                            Ok(b) => {
                                let c = match op {
                                    NumOp::Add => add_bits(a, b),
                                    NumOp::Sub => sub_bits(a, b),
                                    NumOp::Mul => mul_bits(a, b),
                                    NumOp::Div => div_bits(a, b),
                                };
                                r == Ok::<StepType, ExecError>(StepType::Normal) && advance_to(
                                    p0,
                                    p1,
                                    pc + 1,
                                    st.take(n - 2).push(Value::Number(c)),
                                ) && pool_same(pool0, pool1)
                            },
                        },
                    }
                }
            },
            Instr::Cmp(op) => {
                if n < 2 {
                    fails_with(p0, p1, pool0, pool1, r, ExecError::InvalidOpcode)
                } else {
                    let av = st[n - 2];
                    let bv = st.last();
                    match op {
                        CmpOp::Eq | CmpOp::Ne => match values_equal_spec(
                            av,
                            bv,
                            pool0.lists@,
                            cmp_fuel(pool0),
                        ) {
                            None => {
                                &&& r is Err
                                &&& !p1.running
                                &&& p1.warp_depth == 0
                                &&& p1.pc == p0.pc
                                &&& p1.max_call_depth == p0.max_call_depth
                                &&& pool_same(pool0, pool1)
                            },
                            Some(x) => {
                                let res = match op {
                                    CmpOp::Ne => !x,
                                    _ => x,
                                };
                                r == Ok::<StepType, ExecError>(StepType::Normal) && advance_to(
                                    p0,
                                    p1,
                                    pc + 1,
                                    st.take(n - 2).push(Value::Bool(res)),
                                ) && pool_same(pool0, pool1)
                            },
                        },
                        _ => match coerce_number_spec(av) {
                            Err(e) => fails_with(p0, p1, pool0, pool1, r, e),
                            Ok(a) => match coerce_number_spec(bv) {
                                Err(e) => fails_with(p0, p1, pool0, pool1, r, e),
                                Ok(b) => {
                                    let res = match op {
                                        CmpOp::Less => lt_bits(a, b),
                                        CmpOp::LessEq => lt_bits(a, b) || eq_bits(a, b),
                                        CmpOp::Greater => lt_bits(b, a),
                                        _ => lt_bits(b, a) || eq_bits(a, b),
                                    };
                                    r == Ok::<StepType, ExecError>(StepType::Normal) && advance_to(
                                        p0,
                                        p1,
                                        pc + 1,
                                        st.take(n - 2).push(Value::Bool(res)),
                                    ) && pool_same(pool0, pool1)
                                },
                            },
                        },
                    }
                }
            },
            Instr::NegNum => {
                if n == 0 {
                    fails_with(p0, p1, pool0, pool1, r, ExecError::InvalidOpcode)
                } else {
                    match coerce_number_spec(st.last()) {
                        Err(e) => fails_with(p0, p1, pool0, pool1, r, e),
                        Ok(a) => r == Ok::<StepType, ExecError>(StepType::Normal) && advance_to(
                            p0,
                            p1,
                            pc + 1,
                            st.drop_last().push(Value::Number(neg_bits(a))),
                        ) && pool_same(pool0, pool1),
                    }
                }
            },
            Instr::NotB => {
                if n == 0 {
                    fails_with(p0, p1, pool0, pool1, r, ExecError::InvalidOpcode)
                } else {
                    match st.last() {
                        Value::Bool(x) => r == Ok::<StepType, ExecError>(StepType::Normal)
                            && advance_to(p0, p1, pc + 1, st.drop_last().push(Value::Bool(!x)))
                            && pool_same(pool0, pool1),
                        v => fails_with(
                            p0,
                            p1,
                            pool0,
                            pool1,
                            r,
                            ExecError::TypeMismatch {
                                expected: ValueType::Bool,
                                got: type_of(v),
                            },
                        ),
                    }
                }
            },
            Instr::Yield => {
                &&& r == if p0.warp_depth == 0 {
                    Ok::<StepType, ExecError>(StepType::Yield)
                } else {
                    Ok::<StepType, ExecError>(StepType::Normal)
                }
                &&& advance_to(p0, p1, pc + 1, st)
                &&& pool_same(pool0, pool1)
            },
            Instr::Jump(k) => {
                if k <= code.code@.len() - (pc + 1) {
                    r == Ok::<StepType, ExecError>(StepType::Normal) && advance_to(
                        p0,
                        p1,
                        pc + 1 + k,
                        st,
                    ) && pool_same(pool0, pool1)
                } else {
                    fails_with(p0, p1, pool0, pool1, r, ExecError::InvalidOpcode)
                }
            },
            Instr::JumpBack(k) => {
                if k <= pc {
                    &&& r == if p0.warp_depth == 0 {
                        Ok::<StepType, ExecError>(StepType::Yield)
                    } else {
                        Ok::<StepType, ExecError>(StepType::Normal)
                    }
                    &&& advance_to(p0, p1, pc - k, st)
                    &&& pool_same(pool0, pool1)
                } else {
                    fails_with(p0, p1, pool0, pool1, r, ExecError::InvalidOpcode)
                }
            },
            Instr::JumpIfFalse(k) => {
                if n == 0 {
                    fails_with(p0, p1, pool0, pool1, r, ExecError::InvalidOpcode)
                } else {
                    match st.last() {
                        Value::Bool(false) => {
                            if k <= code.code@.len() - (pc + 1) {
                                r == Ok::<StepType, ExecError>(StepType::Normal) && advance_to(
                                    p0,
                                    p1,
                                    pc + 1 + k,
                                    st.drop_last(),
                                ) && pool_same(pool0, pool1)
                            } else {
                                fails_with(p0, p1, pool0, pool1, r, ExecError::InvalidOpcode)
                            }
                        },
                        Value::Bool(true) => r == Ok::<StepType, ExecError>(StepType::Normal)
                            && advance_to(p0, p1, pc + 1, st.drop_last()) && pool_same(
                            pool0,
                            pool1,
                        ),
                        v => fails_with(
                            p0,
                            p1,
                            pool0,
                            pool1,
                            r,
                            ExecError::TypeMismatch {
                                expected: ValueType::Bool,
                                got: type_of(v),
                            },
                        ),
                    }
                }
            },
            Instr::WarpEnter => {
                if p0.warp_depth == usize::MAX {
                    fails_with(p0, p1, pool0, pool1, r, ExecError::InvalidOpcode)
                } else {
                    &&& r == Ok::<StepType, ExecError>(StepType::Normal)
                    &&& p1.running
                    &&& p1.pc == pc + 1
                    &&& p1.value_stack@ == st
                    &&& p1.call_stack@ == p0.call_stack@
                    &&& p1.warp_depth == p0.warp_depth + 1
                    &&& p1.max_call_depth == p0.max_call_depth
                    &&& pool_same(pool0, pool1)
                }
            },
            Instr::WarpExit => {
                if p0.warp_depth == 0 {
                    fails_with(p0, p1, pool0, pool1, r, ExecError::InvalidOpcode)
                } else {
                    &&& r == Ok::<StepType, ExecError>(StepType::Normal)
                    &&& p1.running
                    &&& p1.pc == pc + 1
                    &&& p1.value_stack@ == st
                    &&& p1.call_stack@ == p0.call_stack@
                    &&& p1.warp_depth == p0.warp_depth - 1
                    &&& p1.max_call_depth == p0.max_call_depth
                    &&& pool_same(pool0, pool1)
                }
            },
            Instr::Call(f) => {
                if p0.call_stack@.len() >= p0.max_call_depth {
                    fails_with(
                        p0,
                        p1,
                        pool0,
                        pool1,
                        r,
                        ExecError::CallDepthExceeded { limit: p0.max_call_depth },
                    )
                } else if f >= code.funcs@.len() {
                    fails_with(p0, p1, pool0, pool1, r, ExecError::InvalidOpcode)
                } else {
                    let argc = code.funcs@[f as int].params@.len() as int;
                    if n < argc {
                        fails_with(p0, p1, pool0, pool1, r, ExecError::InvalidOpcode)
                    } else {
                        &&& r == Ok::<StepType, ExecError>(StepType::Normal)
                        &&& p1.running
                        &&& p1.pc == code.funcs@[f as int].entry
                        &&& p1.value_stack@ == st.take(n - argc)
                        &&& p1.warp_depth == p0.warp_depth
                        &&& p1.max_call_depth == p0.max_call_depth
                        &&& p1.call_stack@.len() == p0.call_stack@.len() + 1
                        &&& (forall|i: int|
                            0 <= i < p0.call_stack@.len() ==> p1.call_stack@[i]
                                == p0.call_stack@[i])
                        &&& p1.call_stack@.last().return_pc == pc + 1
                        &&& p1.call_stack@.last().saved_warp == p0.warp_depth
                        &&& p1.call_stack@.last().locals.entries@ == bind_params(
                            Seq::empty(),
                            code.funcs@[f as int].params@,
                            pool0.cells@.len() as int,
                        )
                        &&& pool1.cells@ == pool0.cells@ + st.skip(n - argc)
                        &&& pool1.lists@ == pool0.lists@
                        &&& pool1.closures@ == pool0.closures@
                    }
                }
            },
            Instr::MakeClosure(f) => {
                if f >= code.funcs@.len() {
                    fails_with(p0, p1, pool0, pool1, r, ExecError::InvalidOpcode)
                } else {
                    &&& r == Ok::<StepType, ExecError>(StepType::Normal)
                    &&& advance_to(
                        p0,
                        p1,
                        pc + 1,
                        st.push(Value::Closure(pool0.closures@.len() as usize)),
                    )
                    &&& pool1.closures@.len() == pool0.closures@.len() + 1
                    &&& (forall|i: int|
                        0 <= i < pool0.closures@.len() ==> pool1.closures@[i]
                            == pool0.closures@[i])
                    &&& pool1.closures@.last().entry == code.funcs@[f as int].entry
                    &&& pool1.closures@.last().params@ == code.funcs@[f as int].params@
                    &&& pool1.closures@.last().captures.entries@
                        == p0.call_stack@.last().locals.entries@
                    &&& pool1.lists@ == pool0.lists@
                    &&& pool1.cells@ == pool0.cells@
                }
            },
            Instr::CallClosure(argc) => {
                if p0.call_stack@.len() >= p0.max_call_depth {
                    fails_with(
                        p0,
                        p1,
                        pool0,
                        pool1,
                        r,
                        ExecError::CallDepthExceeded { limit: p0.max_call_depth },
                    )
                } else if n == 0 || n - 1 < argc {
                    fails_with(p0, p1, pool0, pool1, r, ExecError::InvalidOpcode)
                } else {
                    match st[n - argc - 1] {
                        Value::Closure(h) => {
                            if h >= pool0.closures@.len() {
                                fails_with(p0, p1, pool0, pool1, r, ExecError::InvalidOpcode)
                            } else {
                                let cl = pool0.closures@[h as int];
                                if cl.params@.len() != argc {
                                    fails_custom(p0, p1, pool0, pool1, r)
                                } else {
                                    &&& r == Ok::<StepType, ExecError>(StepType::Normal)
                                    &&& p1.running
                                    &&& p1.pc == cl.entry
                                    &&& p1.value_stack@ == st.take(n - argc - 1)
                                    &&& p1.warp_depth == p0.warp_depth
                                    &&& p1.max_call_depth == p0.max_call_depth
                                    &&& p1.call_stack@.len() == p0.call_stack@.len() + 1
                                    &&& (forall|i: int|
                                        0 <= i < p0.call_stack@.len() ==> p1.call_stack@[i]
                                            == p0.call_stack@[i])
                                    &&& p1.call_stack@.last().return_pc == pc + 1
                                    &&& p1.call_stack@.last().saved_warp == p0.warp_depth
                                    &&& p1.call_stack@.last().locals.entries@ == bind_params(
                                        cl.captures.entries@,
                                        cl.params@,
                                        pool0.cells@.len() as int,
                                    )
                                    &&& pool1.cells@ == pool0.cells@ + st.skip(n - argc)
                                    &&& pool1.lists@ == pool0.lists@
                                    &&& pool1.closures@ == pool0.closures@
                                }
                            }
                        },
                        v => fails_with(
                            p0,
                            p1,
                            pool0,
                            pool1,
                            r,
                            ExecError::TypeMismatch {
                                expected: ValueType::Closure,
                                got: type_of(v),
                            },
                        ),
                    }
                }
            },
            Instr::Return => {
                if n == 0 {
                    fails_with(p0, p1, pool0, pool1, r, ExecError::InvalidOpcode)
                } else {
                    let fr = p0.call_stack@.last();
                    if p0.call_stack@.len() == 1 {
                        &&& r == Ok::<StepType, ExecError>(
                            StepType::Terminate(Some(st.last())),
                        )
                        &&& !p1.running
                        &&& p1.pc == p0.pc
                        &&& p1.value_stack@ == st.drop_last()
                        &&& p1.call_stack@.len() == 0
                        &&& p1.warp_depth == fr.saved_warp
                        &&& p1.max_call_depth == p0.max_call_depth
                        &&& pool_same(pool0, pool1)
                    } else {
                        &&& r == Ok::<StepType, ExecError>(StepType::Normal)
                        &&& p1.running
                        &&& p1.pc == fr.return_pc
                        &&& p1.value_stack@ == st
                        &&& p1.call_stack@ == p0.call_stack@.drop_last()
                        &&& p1.warp_depth == fr.saved_warp
                        &&& p1.max_call_depth == p0.max_call_depth
                        &&& pool_same(pool0, pool1)
                    }
                }
            },
            Instr::ReturnEmpty => {
                let fr = p0.call_stack@.last();
                if p0.call_stack@.len() == 1 {
                    &&& (r matches Ok(StepType::Terminate(Some(Value::Text(t)))) && t@.len()
                        == 0)
                    &&& !p1.running
                    &&& p1.pc == p0.pc
                    &&& p1.value_stack@ == st
                    &&& p1.call_stack@.len() == 0
                    &&& p1.warp_depth == fr.saved_warp
                    &&& p1.max_call_depth == p0.max_call_depth
                    &&& pool_same(pool0, pool1)
                } else {
                    &&& r == Ok::<StepType, ExecError>(StepType::Normal)
                    &&& p1.running
                    &&& p1.pc == fr.return_pc
                    &&& (exists|t: String|
                        t@.len() == 0 && p1.value_stack@ == st.push(Value::Text(t)))
                    &&& p1.call_stack@ == p0.call_stack@.drop_last()
                    &&& p1.warp_depth == fr.saved_warp
                    &&& p1.max_call_depth == p0.max_call_depth
                    &&& pool_same(pool0, pool1)
                }
            },
        }
    }
}

impl Process {
    /// The process invariant: a bounded, rooted call stack whenever the
    /// process runs, with the root frame owing no warp restore.
    pub open spec fn inv(self) -> bool {
        &&& self.max_call_depth >= 1
        &&& (self.running ==> {
            &&& 1 <= self.call_stack@.len() <= self.max_call_depth
            &&& self.call_stack@[0].saved_warp == 0
        })
    }

    /// A fresh, idle process with the given call-depth bound.
    pub fn new(max_call_depth: usize) -> (r: Self)
        requires
            max_call_depth >= 1,
        ensures
            r.inv(),
            !r.running,
            r.max_call_depth == max_call_depth,
    {
        Process {
            pc: 0,
            running: false,
            value_stack: Vec::new(),
            call_stack: Vec::new(),
            warp_depth: 0,
            max_call_depth,
        }
    }

    /// Whether the process is mid-execution.
    pub fn is_running(&self) -> (r: bool)
        ensures
            r == self.running,
    {
        self.running
    }

    /// Starts (or restarts) the process: clears both stacks, pushes a root
    /// frame with the supplied locals, and begins at `entry_pc` outside any
    /// warp.
    pub fn initialize(&mut self, entry_pc: usize, locals: SymbolTable)
        requires
            old(self).inv(),
        ensures
            final(self).inv(),
            final(self).running,
            final(self).pc == entry_pc,
            final(self).warp_depth == 0,
            final(self).value_stack@.len() == 0,
            final(self).call_stack@.len() == 1,
            final(self).call_stack@[0].locals == locals,
            final(self).call_stack@[0].saved_warp == 0,
            final(self).max_call_depth == old(self).max_call_depth,
    {
        self.pc = entry_pc;
        self.running = true;
        self.warp_depth = 0;
        self.value_stack = Vec::new();
        let mut cs: Vec<Frame> = Vec::new();
        cs.push(Frame { return_pc: 0, locals, saved_warp: 0 });
        self.call_stack = cs;
    }

    /// Aborts the process with `e`: it transitions to idle, at warp depth
    /// zero, and the error is surfaced to the caller; nothing else of the
    /// process changes.
    fn fail(&mut self, e: ExecError) -> (r: Result<StepType, ExecError>)
        requires
            old(self).inv(),
        ensures
            final(self).inv(),
            !final(self).running,
            final(self).warp_depth == 0,
            r == Err::<StepType, ExecError>(e),
            final(self).max_call_depth == old(self).max_call_depth,
            final(self).pc == old(self).pc,
            final(self).value_stack@ == old(self).value_stack@,
            final(self).call_stack@ == old(self).call_stack@,
    {
        self.running = false;
        self.warp_depth = 0;
        Err(e)
    }

    /// Executes exactly one instruction.
    ///
    /// Stepping an idle process reports `Idle` and changes nothing.  A
    /// `Yield` is only ever reported outside warp mode (an explicit `yield`
    /// opcode or a loop back-edge at warp depth zero); inside warp mode the
    /// same instructions report `Normal`.  On `Terminate` or on an error
    /// the process is idle again with its warp depth restored to zero, and
    /// the call stack never outgrows `max_call_depth`: a call that would do
    /// so surfaces `CallDepthExceeded` instead.
    #[verifier::loop_isolation(false)]
    #[verifier::rlimit(100)]
    pub fn step(
        &mut self,
        code: &ByteCode,
        pool: &mut RefPool,
        fields: &mut SymbolTable,
        globals: &mut SymbolTable,
    ) -> (r: Result<StepType, ExecError>)
        requires
            old(self).inv(),
        ensures
            final(self).inv(),
            final(self).max_call_depth == old(self).max_call_depth,
            (r == Ok::<StepType, ExecError>(StepType::Idle)) <==> !old(self).running,
            !old(self).running ==> *final(self) == *old(self) && *final(pool) == *old(pool),
            (r matches Ok(StepType::Terminate(_))) ==> !final(self).running
                && final(self).warp_depth == 0,
            (r is Err) ==> !final(self).running && final(self).warp_depth == 0,
            (r == Ok::<StepType, ExecError>(StepType::Normal) || r == Ok::<StepType, ExecError>(
                StepType::Yield,
            )) ==> final(self).running,
            r == Ok::<StepType, ExecError>(StepType::Yield) ==> old(self).warp_depth == 0,
            r == Ok::<StepType, ExecError>(StepType::Yield) ==> (old(self).pc < code.code@.len()
                && ((code.code@[old(self).pc as int] matches Instr::Yield) || (code.code@[old(
                self,
            ).pc as int] matches Instr::JumpBack(_)))),
            (old(self).running && old(self).pc < code.code@.len() && (code.code@[old(
                self,
            ).pc as int] matches Instr::Yield) && old(self).warp_depth == 0) ==> r == Ok::<
                StepType,
                ExecError,
            >(StepType::Yield),
            *final(fields) == *old(fields),
            *final(globals) == *old(globals),
            step_rel(
                *old(self),
                *code,
                *old(pool),
                *old(fields),
                *old(globals),
                *final(self),
                *final(pool),
                r,
            ),
            (r matches Err(ExecError::CallDepthExceeded { .. })) ==> old(self).call_stack@.len()
                == old(self).max_call_depth,
            (old(self).running && old(self).pc < code.code@.len()
                && ((code.code@[old(self).pc as int] matches Instr::Call(_)) || (code.code@[old(
                self,
            ).pc as int] matches Instr::CallClosure(_)))
                && old(self).call_stack@.len() == old(self).max_call_depth) ==> r == Err::<
                StepType,
                ExecError,
            >(
                ExecError::CallDepthExceeded { limit: old(self).max_call_depth },
            ),
    {
        if !self.running {
            return Ok(StepType::Idle);
        }
        let pc = self.pc;
        if pc >= code.code.len() {
            return self.fail(ExecError::InvalidOpcode);
        }
        match &code.code[pc] {
            Instr::PushBool(b) => {
                self.value_stack.push(Value::Bool(*b));
                self.pc = pc + 1;
                Ok(StepType::Normal)
            },
            Instr::PushNumber(n) => {
                self.value_stack.push(Value::Number(*n));
                self.pc = pc + 1;
                Ok(StepType::Normal)
            },
            Instr::PushText(s) => {
                self.value_stack.push(Value::Text(s.clone()));
                self.pc = pc + 1;
                Ok(StepType::Normal)
            },
            Instr::MakeList(n) => {
                if self.value_stack.len() < *n {
                    return self.fail(ExecError::InvalidOpcode);
                }
                let ghost n0 = self.value_stack@.len() as int;
                let elems = self.value_stack.split_off(self.value_stack.len() - *n);
                proof {
                    assert(elems@ =~= old(self).value_stack@.skip(n0 - *n));
                    assert(self.value_stack@ =~= old(self).value_stack@.take(n0 - *n));
                }
                let h = pool.alloc_list(elems);
                self.value_stack.push(Value::List(h));
                self.pc = pc + 1;
                Ok(StepType::Normal)
            },
            Instr::Dup => {
                if self.value_stack.len() == 0 {
                    return self.fail(ExecError::InvalidOpcode);
                }
                let v = dup_value(&self.value_stack[self.value_stack.len() - 1]);
                self.value_stack.push(v);
                self.pc = pc + 1;
                Ok(StepType::Normal)
            },
            Instr::Pop => {
                match self.value_stack.pop() {
                    Some(_) => {
                        self.pc = pc + 1;
                        Ok(StepType::Normal)
                    },
                    None => self.fail(ExecError::InvalidOpcode),
                }
            },
            Instr::LoadVar(n) => {
                let idx = self.call_stack.len() - 1;
                let cell = lookup_cell(&self.call_stack[idx].locals, fields, globals, n);
                match cell {
                    Some(c) => match pool.read_cell(c) {
                        Some(v) => {
                            self.value_stack.push(v);
                            self.pc = pc + 1;
                            Ok(StepType::Normal)
                        },
                        None => self.fail(ExecError::InvalidOpcode),
                    },
                    None => self.fail(ExecError::UndefinedVariable { name: n.clone() }),
                }
            },
            Instr::StoreVar(n) => {
                let v = match self.value_stack.pop() {
                    Some(v) => v,
                    None => { return self.fail(ExecError::InvalidOpcode) },
                };
                let idx = self.call_stack.len() - 1;
                let cell = lookup_cell(&self.call_stack[idx].locals, fields, globals, n);
                match cell {
                    Some(c) => {
                        if pool.write_cell(c, v) {
                            self.pc = pc + 1;
                            Ok(StepType::Normal)
                        } else {
                            self.fail(ExecError::InvalidOpcode)
                        }
                    },
                    None => self.fail(ExecError::UndefinedVariable { name: n.clone() }),
                }
            },
            Instr::DefineVar(n) => {
                let v = match self.value_stack.pop() {
                    Some(v) => v,
                    None => { return self.fail(ExecError::InvalidOpcode) },
                };
                let c = pool.alloc_cell(v);
                let idx = self.call_stack.len() - 1;
                let fr = &mut self.call_stack[idx];
                fr.locals.redefine_or_define(n.clone(), c);
                self.pc = pc + 1;
                Ok(StepType::Normal)
            },
            Instr::ListLen => {
                let v = match self.value_stack.pop() {
                    Some(v) => v,
                    None => { return self.fail(ExecError::InvalidOpcode) },
                };
                match v {
                    Value::List(h) => match pool.list_len(h) {
                        Some(l) => {
                            self.value_stack.push(Value::Number(num_from_u64(l as u64)));
                            self.pc = pc + 1;
                            Ok(StepType::Normal)
                        },
                        None => self.fail(ExecError::InvalidOpcode),
                    },
                    other => self.fail(
                        ExecError::TypeMismatch {
                            expected: ValueType::List,
                            got: other.get_type(),
                        },
                    ),
                }
            },
            Instr::ListItem => {
                let iv = match self.value_stack.pop() {
                    Some(v) => v,
                    None => { return self.fail(ExecError::InvalidOpcode) },
                };
                let lv = match self.value_stack.pop() {
                    Some(v) => v,
                    None => { return self.fail(ExecError::InvalidOpcode) },
                };
                proof {
                    let st0 = old(self).value_stack@;
                    assert(iv == st0.last());
                    assert(lv == st0[st0.len() - 2]);
                    assert(self.value_stack@ =~= st0.take(st0.len() - 2));
                }
                let h = match lv {
                    Value::List(h) => h,
                    other => {
                        return self.fail(
                            ExecError::TypeMismatch {
                                expected: ValueType::List,
                                got: other.get_type(),
                            },
                        )
                    },
                };
                let bits = match coerce_number(&iv) {
                    Ok(b) => b,
                    Err(e) => { return self.fail(e) },
                };
                let i = match num_to_int(bits) {
                    Some(i) => i,
                    None => {
                        return self.fail(
                            ExecError::Custom {
                                message: "list index is not a whole number".to_owned(),
                            },
                        )
                    },
                };
                let len = match pool.list_len(h) {
                    Some(l) => l,
                    None => { return self.fail(ExecError::InvalidOpcode) },
                };
                let z = match surface_index(len, i) {
                    Ok(z) => z,
                    Err(e) => { return self.fail(e) },
                };
                match pool.list_get(h, z) {
                    Some(v) => {
                        self.value_stack.push(v);
                        self.pc = pc + 1;
                        Ok(StepType::Normal)
                    },
                    None => self.fail(ExecError::InvalidOpcode),
                }
            },
            Instr::ListPush => {
                let v = match self.value_stack.pop() {
                    Some(v) => v,
                    None => { return self.fail(ExecError::InvalidOpcode) },
                };
                let lv = match self.value_stack.pop() {
                    Some(v) => v,
                    None => { return self.fail(ExecError::InvalidOpcode) },
                };
                proof {
                    let st0 = old(self).value_stack@;
                    assert(v == st0.last());
                    assert(lv == st0[st0.len() - 2]);
                    assert(self.value_stack@ =~= st0.take(st0.len() - 2));
                }
                match lv {
                    Value::List(h) => {
                        if pool.list_push(h, v) {
                            self.pc = pc + 1;
                            Ok(StepType::Normal)
                        } else {
                            proof {
                                assert(pool.lists@ =~= old(pool).lists@);
                            }
                            self.fail(ExecError::InvalidOpcode)
                        }
                    },
                    other => self.fail(
                        ExecError::TypeMismatch {
                            expected: ValueType::List,
                            got: other.get_type(),
                        },
                    ),
                }
            },
            Instr::ListSet => {
                let v = match self.value_stack.pop() {
                    Some(v) => v,
                    None => { return self.fail(ExecError::InvalidOpcode) },
                };
                let iv = match self.value_stack.pop() {
                    Some(v) => v,
                    None => { return self.fail(ExecError::InvalidOpcode) },
                };
                let lv = match self.value_stack.pop() {
                    Some(v) => v,
                    None => { return self.fail(ExecError::InvalidOpcode) },
                };
                proof {
                    let st0 = old(self).value_stack@;
                    assert(v == st0.last());
                    assert(iv == st0[st0.len() - 2]);
                    assert(lv == st0[st0.len() - 3]);
                    assert(self.value_stack@ =~= st0.take(st0.len() - 3));
                }
                let h = match lv {
                    Value::List(h) => h,
                    other => {
                        return self.fail(
                            ExecError::TypeMismatch {
                                expected: ValueType::List,
                                got: other.get_type(),
                            },
                        )
                    },
                };
                let bits = match coerce_number(&iv) {
                    Ok(b) => b,
                    Err(e) => { return self.fail(e) },
                };
                let i = match num_to_int(bits) {
                    Some(i) => i,
                    None => {
                        return self.fail(
                            ExecError::Custom {
                                message: "list index is not a whole number".to_owned(),
                            },
                        )
                    },
                };
                let len = match pool.list_len(h) {
                    Some(l) => l,
                    None => { return self.fail(ExecError::InvalidOpcode) },
                };
                let z = match surface_index(len, i) {
                    Ok(z) => z,
                    Err(e) => { return self.fail(e) },
                };
                if pool.list_set(h, z, v) {
                    self.pc = pc + 1;
                    Ok(StepType::Normal)
                } else {
                    self.fail(ExecError::InvalidOpcode)
                }
            },
            Instr::Arith(op) => {
                let bv = match self.value_stack.pop() {
                    Some(v) => v,
                    None => { return self.fail(ExecError::InvalidOpcode) },
                };
                let av = match self.value_stack.pop() {
                    Some(v) => v,
                    None => { return self.fail(ExecError::InvalidOpcode) },
                };
                proof {
                    let st0 = old(self).value_stack@;
                    assert(bv == st0.last());
                    assert(av == st0[st0.len() - 2]);
                    assert(self.value_stack@ =~= st0.take(st0.len() - 2));
                }
                let a = match coerce_number(&av) {
                    Ok(x) => x,
                    Err(e) => { return self.fail(e) },
                };
                let b = match coerce_number(&bv) {
                    Ok(x) => x,
                    Err(e) => { return self.fail(e) },
                };
                let c = match op {
                    NumOp::Add => num_add(a, b),
                    NumOp::Sub => num_sub(a, b),
                    NumOp::Mul => num_mul(a, b),
                    NumOp::Div => num_div(a, b),
                };
                self.value_stack.push(Value::Number(c));
                self.pc = pc + 1;
                Ok(StepType::Normal)
            },
            Instr::Cmp(op) => {
                let bv = match self.value_stack.pop() {
                    Some(v) => v,
                    None => { return self.fail(ExecError::InvalidOpcode) },
                };
                let av = match self.value_stack.pop() {
                    Some(v) => v,
                    None => { return self.fail(ExecError::InvalidOpcode) },
                };
                proof {
                    let st0 = old(self).value_stack@;
                    assert(bv == st0.last());
                    assert(av == st0[st0.len() - 2]);
                    assert(self.value_stack@ =~= st0.take(st0.len() - 2));
                }
                let res: bool = match op {
                    CmpOp::Eq | CmpOp::Ne => {
                        let fuel = if pool.lists.len() < usize::MAX {
                            pool.lists.len() + 1
                        } else {
                            usize::MAX
                        };
                        let eq = match values_equal(&av, &bv, pool, fuel) {
                            Ok(x) => x,
                            Err(e) => { return self.fail(e) },
                        };
                        match op {
                            CmpOp::Ne => !eq,
                            _ => eq,
                        }
                    },
                    _ => {
                        let a = match coerce_number(&av) {
                            Ok(x) => x,
                            Err(e) => { return self.fail(e) },
                        };
                        let b = match coerce_number(&bv) {
                            Ok(x) => x,
                            Err(e) => { return self.fail(e) },
                        };
                        match op {
                            CmpOp::Less => num_lt(a, b),
                            CmpOp::LessEq => num_lt(a, b) || num_eq(a, b),
                            CmpOp::Greater => num_lt(b, a),
                            _ => num_lt(b, a) || num_eq(a, b),
                        }
                    },
                };
                self.value_stack.push(Value::Bool(res));
                self.pc = pc + 1;
                Ok(StepType::Normal)
            },
            Instr::NegNum => {
                let av = match self.value_stack.pop() {
                    Some(v) => v,
                    None => { return self.fail(ExecError::InvalidOpcode) },
                };
                let a = match coerce_number(&av) {
                    Ok(x) => x,
                    Err(e) => { return self.fail(e) },
                };
                self.value_stack.push(Value::Number(num_neg(a)));
                self.pc = pc + 1;
                Ok(StepType::Normal)
            },
            Instr::NotB => {
                let av = match self.value_stack.pop() {
                    Some(v) => v,
                    None => { return self.fail(ExecError::InvalidOpcode) },
                };
                match av {
                    Value::Bool(x) => {
                        self.value_stack.push(Value::Bool(!x));
                        self.pc = pc + 1;
                        Ok(StepType::Normal)
                    },
                    other => self.fail(
                        ExecError::TypeMismatch {
                            expected: ValueType::Bool,
                            got: other.get_type(),
                        },
                    ),
                }
            },
            Instr::Yield => {
                self.pc = pc + 1;
                if self.warp_depth == 0 {
                    Ok(StepType::Yield)
                } else {
                    Ok(StepType::Normal)
                }
            },
            Instr::Jump(n) => {
                if *n <= code.code.len() - (pc + 1) {
                    self.pc = pc + 1 + *n;
                    Ok(StepType::Normal)
                } else {
                    self.fail(ExecError::InvalidOpcode)
                }
            },
            Instr::JumpBack(n) => {
                if *n <= pc {
                    self.pc = pc - *n;
                    if self.warp_depth == 0 {
                        Ok(StepType::Yield)
                    } else {
                        Ok(StepType::Normal)
                    }
                } else {
                    self.fail(ExecError::InvalidOpcode)
                }
            },
            Instr::JumpIfFalse(n) => {
                let cv = match self.value_stack.pop() {
                    Some(v) => v,
                    None => { return self.fail(ExecError::InvalidOpcode) },
                };
                match cv {
                    Value::Bool(false) => {
                        if *n <= code.code.len() - (pc + 1) {
                            self.pc = pc + 1 + *n;
                            Ok(StepType::Normal)
                        } else {
                            self.fail(ExecError::InvalidOpcode)
                        }
                    },
                    Value::Bool(true) => {
                        self.pc = pc + 1;
                        Ok(StepType::Normal)
                    },
                    other => self.fail(
                        ExecError::TypeMismatch {
                            expected: ValueType::Bool,
                            got: other.get_type(),
                        },
                    ),
                }
            },
            Instr::WarpEnter => {
                if self.warp_depth == usize::MAX {
                    return self.fail(ExecError::InvalidOpcode);
                }
                self.warp_depth = self.warp_depth + 1;
                self.pc = pc + 1;
                Ok(StepType::Normal)
            },
            Instr::WarpExit => {
                if self.warp_depth == 0 {
                    return self.fail(ExecError::InvalidOpcode);
                }
                self.warp_depth = self.warp_depth - 1;
                self.pc = pc + 1;
                Ok(StepType::Normal)
            },
            Instr::Call(f) => {
                if self.call_stack.len() >= self.max_call_depth {
                    return self.fail(
                        ExecError::CallDepthExceeded { limit: self.max_call_depth },
                    );
                }
                if *f >= code.funcs.len() {
                    return self.fail(ExecError::InvalidOpcode);
                }
                let argc = code.funcs[*f].params.len();
                if self.value_stack.len() < argc {
                    return self.fail(ExecError::InvalidOpcode);
                }
                let args = self.value_stack.split_off(self.value_stack.len() - argc);
                let ghost cells0 = pool.cells@;
                let ghost ps = code.funcs@[*f as int].params@;
                let mut locals = SymbolTable::new();
                let mut k: usize = 0;
                proof {
                    assert(ps.subrange(0, 0) =~= Seq::<String>::empty());
                    assert(cells0 + args@.subrange(0, 0) =~= cells0);
                }
                while k < argc
                    invariant
                        k <= argc,
                        pool.cells@ == cells0 + args@.subrange(0, k as int),
                        pool.lists@ == old(pool).lists@,
                        pool.closures@ == old(pool).closures@,
                        locals.entries@ == bind_params(
                            Seq::<Entry>::empty(),
                            ps.subrange(0, k as int),
                            cells0.len() as int,
                        ),
                    decreases argc - k,
                {
                    let c = pool.alloc_cell(dup_value(&args[k]));
                    locals.redefine_or_define(code.funcs[*f].params[k].clone(), c);
                    proof {
                        assert(ps.subrange(0, k + 1) =~= ps.subrange(0, k as int).push(
                            ps[k as int],
                        ));
                        lemma_bind_params_snoc(
                            Seq::<Entry>::empty(),
                            ps.subrange(0, k as int),
                            ps[k as int],
                            cells0.len() as int,
                        );
                        assert(pool.cells@ =~= cells0 + args@.subrange(0, k + 1));
                    }
                    k = k + 1;
                }
                proof {
                    assert(ps.subrange(0, argc as int) =~= ps);
                    assert(args@.subrange(0, argc as int) =~= args@);
                }
                self.call_stack.push(
                    Frame { return_pc: pc + 1, locals, saved_warp: self.warp_depth },
                );
                self.pc = code.funcs[*f].entry;
                proof {
                    assert(args@ =~= old(self).value_stack@.skip(
                        old(self).value_stack@.len() - argc,
                    ));
                }
                Ok(StepType::Normal)
            },
            Instr::MakeClosure(f) => {
                if *f >= code.funcs.len() {
                    return self.fail(ExecError::InvalidOpcode);
                }
                let idx = self.call_stack.len() - 1;
                let captures = self.call_stack[idx].locals.duplicate();
                let params = dup_strings(&code.funcs[*f].params);
                let h = pool.alloc_closure(
                    Closure { entry: code.funcs[*f].entry, params, captures },
                );
                self.value_stack.push(Value::Closure(h));
                self.pc = pc + 1;
                Ok(StepType::Normal)
            },
            Instr::CallClosure(argc) => {
                if self.call_stack.len() >= self.max_call_depth {
                    return self.fail(
                        ExecError::CallDepthExceeded { limit: self.max_call_depth },
                    );
                }
                if self.value_stack.len() == 0 || self.value_stack.len() - 1 < *argc {
                    return self.fail(ExecError::InvalidOpcode);
                }
                let ghost n0 = self.value_stack@.len() as int;
                let args = self.value_stack.split_off(self.value_stack.len() - *argc);
                let cv = match self.value_stack.pop() {
                    Some(v) => v,
                    None => { return self.fail(ExecError::InvalidOpcode) },
                };
                proof {
                    assert(args@ =~= old(self).value_stack@.skip(n0 - *argc));
                    assert(self.value_stack@ =~= old(self).value_stack@.take(n0 - *argc - 1));
                    assert(cv == old(self).value_stack@[n0 - *argc - 1]);
                }
                let h = match cv {
                    Value::Closure(h) => h,
                    other => {
                        return self.fail(
                            ExecError::TypeMismatch {
                                expected: ValueType::Closure,
                                got: other.get_type(),
                            },
                        )
                    },
                };
                if h >= pool.closures.len() {
                    return self.fail(ExecError::InvalidOpcode);
                }
                let entry = pool.closures[h].entry;
                let nparams = pool.closures[h].params.len();
                if nparams != *argc {
                    return self.fail(
                        ExecError::Custom { message: "closure arity mismatch".to_owned() },
                    );
                }
                let mut locals = pool.closures[h].captures.duplicate();
                let ghost cells0 = pool.cells@;
                let ghost caps0 = pool.closures@[h as int].captures.entries@;
                let ghost ps = pool.closures@[h as int].params@;
                let mut k: usize = 0;
                proof {
                    assert(ps.subrange(0, 0) =~= Seq::<String>::empty());
                    assert(bind_params(caps0, ps.subrange(0, 0), cells0.len() as int) == caps0);
                    assert(cells0 + args@.subrange(0, 0) =~= cells0);
                }
                while k < nparams
                    invariant
                        k <= nparams,
                        pool.cells@ == cells0 + args@.subrange(0, k as int),
                        pool.lists@ == old(pool).lists@,
                        pool.closures@ == old(pool).closures@,
                        locals.entries@ == bind_params(
                            caps0,
                            ps.subrange(0, k as int),
                            cells0.len() as int,
                        ),
                    decreases nparams - k,
                {
                    let c = pool.alloc_cell(dup_value(&args[k]));
                    let pname = pool.closures[h].params[k].clone();
                    locals.redefine_or_define(pname, c);
                    proof {
                        assert(ps.subrange(0, k + 1) =~= ps.subrange(0, k as int).push(
                            ps[k as int],
                        ));
                        lemma_bind_params_snoc(
                            caps0,
                            ps.subrange(0, k as int),
                            ps[k as int],
                            cells0.len() as int,
                        );
                        assert(pool.cells@ =~= cells0 + args@.subrange(0, k + 1));
                    }
                    k = k + 1;
                }
                proof {
                    assert(ps.subrange(0, nparams as int) =~= ps);
                    assert(args@.subrange(0, nparams as int) =~= args@);
                }
                self.call_stack.push(
                    Frame { return_pc: pc + 1, locals, saved_warp: self.warp_depth },
                );
                self.pc = entry;
                Ok(StepType::Normal)
            },
            Instr::Return => {
                let v = match self.value_stack.pop() {
                    Some(v) => v,
                    None => { return self.fail(ExecError::InvalidOpcode) },
                };
                let fr = match self.call_stack.pop() {
                    Some(fr) => fr,
                    None => { return self.fail(ExecError::InvalidOpcode) },
                };
                self.warp_depth = fr.saved_warp;
                if self.call_stack.len() == 0 {
                    self.running = false;
                    return Ok(StepType::Terminate(Some(v)));
                }
                self.value_stack.push(v);
                self.pc = fr.return_pc;
                proof {
                    assert(self.value_stack@ =~= old(self).value_stack@);
                }
                Ok(StepType::Normal)
            },
            Instr::ReturnEmpty => {
                let fr = match self.call_stack.pop() {
                    Some(fr) => fr,
                    None => { return self.fail(ExecError::InvalidOpcode) },
                };
                self.warp_depth = fr.saved_warp;
                if self.call_stack.len() == 0 {
                    self.running = false;
                    return Ok(StepType::Terminate(Some(Value::Text(String::new()))));
                }
                let t = String::new();
                let ghost tg = t;
                self.value_stack.push(Value::Text(t));
                self.pc = fr.return_pc;
                proof {
                    assert(tg@.len() == 0 && self.value_stack@ == old(self).value_stack@.push(
                        Value::Text(tg),
                    ));
                }
                Ok(StepType::Normal)
            },
        }
    }
}

/// A run of `steps` machine transitions from the first state to the
/// second, every one of them reporting plain progress or a yield.
pub open spec fn runs_to(
    p0: Process,
    pool0: RefPool,
    fs: SymbolTable,
    gs: SymbolTable,
    code: ByteCode,
    p1: Process,
    pool1: RefPool,
    steps: nat,
) -> bool
    decreases steps,
{
    if steps == 0 {
        p1 == p0 && pool1 == pool0
    } else {
        exists|pm: Process, poolm: RefPool, rm: Result<StepType, ExecError>|
            runs_to(p0, pool0, fs, gs, code, pm, poolm, (steps - 1) as nat) && step_rel(
                pm,
                code,
                poolm,
                fs,
                gs,
                p1,
                pool1,
                rm,
            ) && (rm == Ok::<StepType, ExecError>(StepType::Normal) || rm == Ok::<
                StepType,
                ExecError,
            >(StepType::Yield))
    }
}

/// Drives a running process until it terminates, counting the cooperative
/// yield points passed on the way; hands back the result value with that
/// count, or the error that aborted the process.  Either way the process
/// is idle afterwards.  On success the run was a chain of ordinary machine
/// transitions ending in one that terminated with exactly the returned
/// value; an error is returned only when such a chain ended in a step that
/// failed with it - or, for an error bearing a message, possibly because
/// the driver itself gave up after `u64::MAX` steps, which keeps it total.
pub fn run_till_term(
    proc: &mut Process,
    code: &ByteCode,
    pool: &mut RefPool,
    fields: &mut SymbolTable,
    globals: &mut SymbolTable,
) -> (r: Result<(Option<Value>, usize), ExecError>)
    requires
        old(proc).inv(),
        old(proc).running,
    ensures
        final(proc).inv(),
        !final(proc).running,
        final(proc).warp_depth == 0,
        *final(fields) == *old(fields),
        *final(globals) == *old(globals),
        r matches Ok(pair) ==> exists|steps: nat, pm: Process, poolm: RefPool|
            runs_to(
                *old(proc),
                *old(pool),
                *old(fields),
                *old(globals),
                *code,
                pm,
                poolm,
                steps,
            ) && step_rel(
                pm,
                *code,
                poolm,
                *old(fields),
                *old(globals),
                *final(proc),
                *final(pool),
                Ok(StepType::Terminate(pair.0)),
            ),
        r matches Err(e) ==> (e matches ExecError::Custom { .. }) || (exists|
            steps: nat,
            pm: Process,
            poolm: RefPool,
        |
            runs_to(
                *old(proc),
                *old(pool),
                *old(fields),
                *old(globals),
                *code,
                pm,
                poolm,
                steps,
            ) && step_rel(
                pm,
                *code,
                poolm,
                *old(fields),
                *old(globals),
                *final(proc),
                *final(pool),
                Err(e),
            )),
{
    let mut yields: usize = 0;
    let mut budget: u64 = u64::MAX;
    let ghost mut steps: nat = 0;
    proof {
        assert(runs_to(
            *old(proc),
            *old(pool),
            *old(fields),
            *old(globals),
            *code,
            *proc,
            *pool,
            0,
        ));
    }
    loop
        invariant
            proc.inv(),
            proc.running,
            *fields == *old(fields),
            *globals == *old(globals),
            runs_to(
                *old(proc),
                *old(pool),
                *old(fields),
                *old(globals),
                *code,
                *proc,
                *pool,
                steps,
            ),
        decreases budget,
    {
        if budget == 0 {
            proc.running = false;
            proc.warp_depth = 0;
            return Err(ExecError::Custom { message: "process did not terminate".to_owned() });
        }
        budget = budget - 1;
        let ghost p_prev = *proc;
        let ghost pool_prev = *pool;
        match proc.step(code, pool, fields, globals) {
            Ok(StepType::Idle) => {
                return Err(ExecError::InvalidOpcode);
            },
            Ok(StepType::Normal) => {
                proof {
                    steps = steps + 1;
                    assert(runs_to(
                        *old(proc),
                        *old(pool),
                        *old(fields),
                        *old(globals),
                        *code,
                        *proc,
                        *pool,
                        steps,
                    ));
                }
            },
            Ok(StepType::Yield) => {
                if yields < usize::MAX {
                    yields = yields + 1;
                }
                proof {
                    steps = steps + 1;
                    assert(runs_to(
                        *old(proc),
                        *old(pool),
                        *old(fields),
                        *old(globals),
                        *code,
                        *proc,
                        *pool,
                        steps,
                    ));
                }
            },
            Ok(StepType::Terminate(v)) => {
                proof {
                    assert(step_rel(
                        p_prev,
                        *code,
                        pool_prev,
                        *old(fields),
                        *old(globals),
                        *proc,
                        *pool,
                        Ok(StepType::Terminate(v)),
                    ));
                }
                return Ok((v, yields));
            },
            Err(e) => {
                proof {
                    assert(step_rel(
                        p_prev,
                        *code,
                        pool_prev,
                        *old(fields),
                        *old(globals),
                        *proc,
                        *pool,
                        Err(e),
                    ));
                }
                return Err(e);
            },
        }
    }
}

} // verus!
