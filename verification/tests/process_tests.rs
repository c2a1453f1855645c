use blockvm::bytecode::{BinOp, ByteCode, Expr, FuncDef, Role, Stmt};
use blockvm::process::{run_till_term, Process, StepType};
use blockvm::runtime::{ExecError, RefPool, SymbolTable, Value, ValueType};

fn bx(e: Expr) -> Box<Expr> {
    Box::new(e)
}

fn n(x: f64) -> Expr {
    Expr::NumberLit(x.to_bits())
}

fn var(s: &str) -> Expr {
    Expr::Var(s.to_string())
}

fn bin(op: BinOp, a: Expr, b: Expr) -> Expr {
    Expr::Bin(op, bx(a), bx(b))
}

fn call(f: &str, args: Vec<Expr>) -> Expr {
    Expr::CallFn(f.to_string(), args)
}

fn define(nm: &str, e: Expr) -> Stmt {
    Stmt::Define(nm.to_string(), e)
}

fn assign(nm: &str, e: Expr) -> Stmt {
    Stmt::Assign(nm.to_string(), e)
}

fn role_with_funcs(funcs: Vec<FuncDef>) -> Role {
    Role { name: "role".to_string(), globals: vec![], sprites: vec![], funcs }
}

/// Compiles the role, starts a process on the named function with the
/// given locals, and runs it to termination.
fn run_func(
    role: &Role,
    fname: &str,
    locals: SymbolTable,
    pool: &mut RefPool,
) -> Result<(Option<Value>, usize), ExecError> {
    let (code, _locs) = ByteCode::compile(role);
    let mut entry = None;
    for f in code.funcs.iter() {
        if f.name == fname {
            entry = Some(f.entry);
        }
    }
    let mut proc = Process::new(64);
    assert!(!proc.is_running());
    proc.initialize(entry.expect("function not found"), locals);
    assert!(proc.is_running());
    let mut fields = SymbolTable::new();
    let mut globals = SymbolTable::new();
    let res = run_till_term(&mut proc, &code, pool, &mut fields, &mut globals);
    assert!(!proc.is_running());
    res
}

fn locals_with_number(pool: &mut RefPool, name: &str, x: f64) -> SymbolTable {
    let c = pool.alloc_cell(Value::Number(x.to_bits()));
    let mut t = SymbolTable::new();
    t.redefine_or_define(name.to_string(), c);
    t
}

fn expect_number(v: &Value) -> f64 {
    match v {
        Value::Number(b) => f64::from_bits(*b),
        x => panic!("expected a number, got {:?}", x),
    }
}

fn list_elems(v: &Value, pool: &RefPool) -> Vec<Value> {
    match v {
        Value::List(h) => {
            let len = pool.list_len(*h).unwrap();
            (0..len).map(|i| pool.list_get(*h, i).unwrap()).collect()
        }
        x => panic!("expected a list, got {:?}", x),
    }
}


/// Deep value comparison with a numeric tolerance: scalars directly, lists
/// element by element through the pool.
fn assert_values_eq(got: &Value, expected: &Value, epsilon: f64, path: &str, pool: &RefPool) {
    match (got, expected) {
        (Value::Bool(a), Value::Bool(b)) => {
            if a != b {
                panic!("{} - bool error - got {} expected {}", path, a, b)
            }
        }
        (Value::Number(a), Value::Number(b)) => {
            let x = f64::from_bits(*a);
            let y = f64::from_bits(*b);
            let good =
                if x.is_finite() && y.is_finite() { (x - y).abs() <= epsilon } else { x == y };
            if !good {
                panic!("{} - number error - got {} expected {}", path, x, y)
            }
        }
        (Value::Text(a), Value::Text(b)) => {
            if a != b {
                panic!("{} - text error - got {:?} expected {:?}", path, a, b)
            }
        }
        (Value::List(_), Value::List(_)) => {
            let g = list_elems(got, pool);
            let e = list_elems(expected, pool);
            if g.len() != e.len() {
                panic!("{} - list len error - got {} expected {}", path, g.len(), e.len())
            }
            for (i, (gi, ei)) in g.iter().zip(e.iter()).enumerate() {
                assert_values_eq(gi, ei, epsilon, &format!("{}[{}]", path, i), pool);
            }
        }
        (x, y) => panic!("{} - type error - got {:?} expected {:?}", path, x, y),
    }
}

fn sum_role() -> Role {
    // main(n): total = 0; i = 1; while i <= n { total += i; i += 1 }; return total
    role_with_funcs(vec![FuncDef {
        name: "main".to_string(),
        params: vec!["n".to_string()],
        body: vec![
            define("total", n(0.0)),
            define("i", n(1.0)),
            Stmt::While(
                bin(BinOp::LessEq, var("i"), var("n")),
                vec![
                    assign("total", bin(BinOp::Add, var("total"), var("i"))),
                    assign("i", bin(BinOp::Add, var("i"), n(1.0))),
                ],
            ),
            Stmt::Return(var("total")),
        ],
    }])
}

#[test]
fn test_sum_1_to_n() {
    let mut pool = RefPool::new();
    let role = sum_role();
    for (input, expect) in
        [(0.0, 0.0), (1.0, 1.0), (2.0, 3.0), (3.0, 6.0), (4.0, 10.0), (5.0, 15.0), (6.0, 21.0)]
    {
        let locals = locals_with_number(&mut pool, "n", input);
        let (ret, _yields) = run_func(&role, "main", locals, &mut pool).unwrap();
        assert_eq!(expect_number(&ret.unwrap()), expect);
    }
}

#[test]
fn test_recursive_factorial() {
    // fact(n): if n == 0 { return 1 } else { return n * fact(n - 1) }
    let role = role_with_funcs(vec![FuncDef {
        name: "fact".to_string(),
        params: vec!["n".to_string()],
        body: vec![Stmt::If(
            bin(BinOp::Eq, var("n"), n(0.0)),
            vec![Stmt::Return(n(1.0))],
            vec![Stmt::Return(bin(
                BinOp::Mul,
                var("n"),
                call("fact", vec![bin(BinOp::Sub, var("n"), n(1.0))]),
            ))],
        )],
    }]);
    let mut pool = RefPool::new();
    for (input, expect) in [
        (0.0, 1.0),
        (1.0, 1.0),
        (2.0, 2.0),
        (3.0, 6.0),
        (4.0, 24.0),
        (5.0, 120.0),
        (6.0, 720.0),
        (7.0, 5040.0),
    ] {
        let locals = locals_with_number(&mut pool, "n", input);
        let (ret, _) = run_func(&role, "fact", locals, &mut pool).unwrap();
        assert_eq!(expect_number(&ret.unwrap()), expect);
    }
}

#[test]
fn test_sieve_of_eratosthenes() {
    // main(n): classic sieve over a 1-indexed list of flags
    let role = role_with_funcs(vec![FuncDef {
        name: "main".to_string(),
        params: vec!["n".to_string()],
        body: vec![
            define("flags", Expr::ListOf(vec![])),
            define("i", n(0.0)),
            Stmt::While(
                bin(BinOp::LessEq, var("i"), var("n")),
                vec![
                    Stmt::Push(var("flags"), Expr::BoolLit(true)),
                    assign("i", bin(BinOp::Add, var("i"), n(1.0))),
                ],
            ),
            define("p", n(2.0)),
            Stmt::While(
                bin(BinOp::LessEq, bin(BinOp::Mul, var("p"), var("p")), var("n")),
                vec![
                    Stmt::If(
                        Expr::Item(bx(var("flags")), bx(bin(BinOp::Add, var("p"), n(1.0)))),
                        vec![
                            define("m", bin(BinOp::Mul, var("p"), var("p"))),
                            Stmt::While(
                                bin(BinOp::LessEq, var("m"), var("n")),
                                vec![
                                    Stmt::SetIndex(
                                        var("flags"),
                                        bin(BinOp::Add, var("m"), n(1.0)),
                                        Expr::BoolLit(false),
                                    ),
                                    assign("m", bin(BinOp::Add, var("m"), var("p"))),
                                ],
                            ),
                        ],
                        vec![],
                    ),
                    assign("p", bin(BinOp::Add, var("p"), n(1.0))),
                ],
            ),
            define("primes", Expr::ListOf(vec![])),
            define("q", n(2.0)),
            Stmt::While(
                bin(BinOp::LessEq, var("q"), var("n")),
                vec![
                    Stmt::If(
                        Expr::Item(bx(var("flags")), bx(bin(BinOp::Add, var("q"), n(1.0)))),
                        vec![Stmt::Push(var("primes"), var("q"))],
                        vec![],
                    ),
                    assign("q", bin(BinOp::Add, var("q"), n(1.0))),
                ],
            ),
            Stmt::Return(var("primes")),
        ],
    }]);
    let mut pool = RefPool::new();
    let locals = locals_with_number(&mut pool, "n", 100.0);
    let (ret, _) = run_func(&role, "main", locals, &mut pool).unwrap();
    let got = ret.unwrap();
    let expect = Value::from_vec(
        [
            2, 3, 5, 7, 11, 13, 17, 19, 23, 29, 31, 37, 41, 43, 47, 53, 59, 61, 67, 71,
            73, 79, 83, 89, 97,
        ]
        .iter()
        .map(|&x| Value::Number((x as f64).to_bits()))
        .collect(),
        &mut pool,
    );
    assert_values_eq(&got, &expect, 1e-100, "primes", &pool);
}

#[test]
fn test_early_return() {
    // main: r = [1]; if true { push(r, 3); return r }; push(r, 99); return r
    let role = role_with_funcs(vec![FuncDef {
        name: "main".to_string(),
        params: vec![],
        body: vec![
            define("r", Expr::ListOf(vec![n(1.0)])),
            Stmt::If(
                Expr::BoolLit(true),
                vec![Stmt::Push(var("r"), n(3.0)), Stmt::Return(var("r"))],
                vec![],
            ),
            Stmt::Push(var("r"), n(99.0)),
            Stmt::Return(var("r")),
        ],
    }]);
    let mut pool = RefPool::new();
    let (ret, _) = run_func(&role, "main", SymbolTable::new(), &mut pool).unwrap();
    let got = ret.unwrap();
    let expect = Value::from_vec(
        vec![Value::Number(1.0f64.to_bits()), Value::Number(3.0f64.to_bits())],
        &mut pool,
    );
    assert_values_eq(&got, &expect, 1e-100, "res", &pool);
}

#[test]
fn test_empty_body_returns_empty_text() {
    let role = role_with_funcs(vec![FuncDef {
        name: "main".to_string(),
        params: vec![],
        body: vec![],
    }]);
    let mut pool = RefPool::new();
    let (ret, yields) = run_func(&role, "main", SymbolTable::new(), &mut pool).unwrap();
    match ret.unwrap() {
        Value::Text(s) => assert_eq!(s, ""),
        x => panic!("{:?}", x),
    }
    assert_eq!(yields, 0);
}

#[test]
fn test_warp_suppresses_loop_yields() {
    // ordinary loop of 10 iterations: one yield per back-edge
    let loop_body = |count: f64| {
        vec![
            define("i", n(0.0)),
            Stmt::While(
                bin(BinOp::Less, var("i"), n(count)),
                vec![assign("i", bin(BinOp::Add, var("i"), n(1.0)))],
            ),
            Stmt::Return(var("i")),
        ]
    };
    let plain = role_with_funcs(vec![FuncDef {
        name: "main".to_string(),
        params: vec![],
        body: loop_body(10.0),
    }]);
    let mut pool = RefPool::new();
    let (ret, yields) = run_func(&plain, "main", SymbolTable::new(), &mut pool).unwrap();
    assert_eq!(expect_number(&ret.unwrap()), 10.0);
    assert_eq!(yields, 10);

    // the same loop inside warp: no yields at all
    let warped = role_with_funcs(vec![FuncDef {
        name: "main".to_string(),
        params: vec![],
        body: vec![Stmt::Warp(loop_body(10.0)), Stmt::Return(n(0.0))],
    }]);
    let (_, yields) = run_func(&warped, "main", SymbolTable::new(), &mut pool).unwrap();
    assert_eq!(yields, 0);
}

#[test]
fn test_explicit_yield_suppressed_in_warp() {
    let plain = role_with_funcs(vec![FuncDef {
        name: "main".to_string(),
        params: vec![],
        body: vec![Stmt::Yield, Stmt::Yield, Stmt::Return(n(1.0))],
    }]);
    let mut pool = RefPool::new();
    let (_, yields) = run_func(&plain, "main", SymbolTable::new(), &mut pool).unwrap();
    assert_eq!(yields, 2);

    let warped = role_with_funcs(vec![FuncDef {
        name: "main".to_string(),
        params: vec![],
        body: vec![Stmt::Warp(vec![Stmt::Yield, Stmt::Yield]), Stmt::Return(n(1.0))],
    }]);
    let (_, yields) = run_func(&warped, "main", SymbolTable::new(), &mut pool).unwrap();
    assert_eq!(yields, 0);
}

#[test]
fn test_self_containing_list_identity() {
    // main: l = [1, 4, 27]; push(l, l); return l
    let role = role_with_funcs(vec![FuncDef {
        name: "main".to_string(),
        params: vec![],
        body: vec![
            define("l", Expr::ListOf(vec![n(1.0), n(4.0), n(27.0)])),
            Stmt::Push(var("l"), var("l")),
            Stmt::Return(var("l")),
        ],
    }]);
    let mut pool = RefPool::new();
    let (ret, _) = run_func(&role, "main", SymbolTable::new(), &mut pool).unwrap();
    let top = ret.unwrap();
    let elems = list_elems(&top, &pool);
    assert_eq!(elems.len(), 4);
    assert_eq!(expect_number(&elems[0]), 1.0);
    assert_eq!(expect_number(&elems[2]), 27.0);
    // the last element is the list itself: one cell, one identity
    assert_eq!(elems[3].identity(), top.identity());
    // and the cycle can be walked: the nested copy holds itself again
    let nested = list_elems(&elems[3], &pool);
    assert_eq!(nested[3].identity(), top.identity());
}

#[test]
fn test_str_cmp_case_insensitive() {
    let t = |s: &str| Expr::TextLit(s.to_string());
    let role = role_with_funcs(vec![FuncDef {
        name: "main".to_string(),
        params: vec![],
        body: vec![Stmt::Return(Expr::ListOf(vec![
            bin(BinOp::Eq, t("A"), t("a")),
            bin(BinOp::Eq, t("hello"), t("HELLO")),
            bin(BinOp::Eq, t("abc"), t("abd")),
            Expr::ListOf(vec![
                bin(BinOp::Ne, t("A"), t("a")),
                bin(BinOp::Eq, t(""), t("")),
            ]),
        ]))],
    }]);
    let mut pool = RefPool::new();
    let (ret, _) = run_func(&role, "main", SymbolTable::new(), &mut pool).unwrap();
    let elems = list_elems(&ret.unwrap(), &pool);
    assert_eq!(elems[0], Value::Bool(true));
    assert_eq!(elems[1], Value::Bool(true));
    assert_eq!(elems[2], Value::Bool(false));
    let inner = list_elems(&elems[3], &pool);
    assert_eq!(inner[0], Value::Bool(false));
    assert_eq!(inner[1], Value::Bool(true));
}

#[test]
fn test_division_by_zero_gives_ieee_values() {
    let role = role_with_funcs(vec![FuncDef {
        name: "main".to_string(),
        params: vec![],
        body: vec![Stmt::Return(Expr::ListOf(vec![
            bin(BinOp::Div, n(0.0), n(0.0)),
            bin(BinOp::Div, n(1.0), n(0.0)),
            bin(BinOp::Div, n(-1.0), n(0.0)),
        ]))],
    }]);
    let mut pool = RefPool::new();
    let (ret, _) = run_func(&role, "main", SymbolTable::new(), &mut pool).unwrap();
    let elems = list_elems(&ret.unwrap(), &pool);
    assert!(expect_number(&elems[0]).is_nan());
    assert_eq!(expect_number(&elems[1]), f64::INFINITY);
    assert_eq!(expect_number(&elems[2]), f64::NEG_INFINITY);
}

#[test]
fn test_list_index_out_of_range() {
    // zero, negative and past-the-end indices are out of range
    for (idx, expect_index) in [(0.0, 0i64), (-1.0, -1), (3.0, 3)] {
        let role = role_with_funcs(vec![FuncDef {
            name: "main".to_string(),
            params: vec![],
            body: vec![Stmt::Return(Expr::Item(
                bx(Expr::ListOf(vec![n(7.0), n(8.0)])),
                bx(n(idx)),
            ))],
        }]);
        let mut pool = RefPool::new();
        let err = run_func(&role, "main", SymbolTable::new(), &mut pool).unwrap_err();
        assert_eq!(err, ExecError::IndexOutOfRange { len: 2, index: expect_index });
    }
}

#[test]
fn test_empty_list_has_length_zero() {
    let role = role_with_funcs(vec![FuncDef {
        name: "main".to_string(),
        params: vec![],
        body: vec![Stmt::Return(Expr::Len(bx(Expr::ListOf(vec![]))))],
    }]);
    let mut pool = RefPool::new();
    let (ret, _) = run_func(&role, "main", SymbolTable::new(), &mut pool).unwrap();
    assert_eq!(expect_number(&ret.unwrap()), 0.0);
}

#[test]
fn test_fractional_index_is_custom_error() {
    let role = role_with_funcs(vec![FuncDef {
        name: "main".to_string(),
        params: vec![],
        body: vec![Stmt::Return(Expr::Item(
            bx(Expr::ListOf(vec![n(7.0)])),
            bx(n(1.5)),
        ))],
    }]);
    let mut pool = RefPool::new();
    let err = run_func(&role, "main", SymbolTable::new(), &mut pool).unwrap_err();
    assert!(matches!(err, ExecError::Custom { .. }), "{:?}", err);
}

#[test]
fn test_type_mismatch_on_arithmetic_with_bool() {
    let role = role_with_funcs(vec![FuncDef {
        name: "main".to_string(),
        params: vec![],
        body: vec![Stmt::Return(bin(BinOp::Add, Expr::BoolLit(true), n(1.0)))],
    }]);
    let mut pool = RefPool::new();
    let err = run_func(&role, "main", SymbolTable::new(), &mut pool).unwrap_err();
    assert_eq!(
        err,
        ExecError::TypeMismatch { expected: ValueType::Number, got: ValueType::Bool }
    );
}

#[test]
fn test_undefined_variable() {
    let role = role_with_funcs(vec![FuncDef {
        name: "main".to_string(),
        params: vec![],
        body: vec![Stmt::Return(var("nowhere"))],
    }]);
    let mut pool = RefPool::new();
    let err = run_func(&role, "main", SymbolTable::new(), &mut pool).unwrap_err();
    assert_eq!(err, ExecError::UndefinedVariable { name: "nowhere".to_string() });
}

#[test]
fn test_call_depth_exceeded() {
    // f(): return f() - unbounded recursion must surface the depth bound
    let role = role_with_funcs(vec![FuncDef {
        name: "f".to_string(),
        params: vec![],
        body: vec![Stmt::Return(call("f", vec![]))],
    }]);
    let (code, _) = ByteCode::compile(&role);
    let mut proc = Process::new(8);
    proc.initialize(code.funcs[0].entry, SymbolTable::new());
    let mut pool = RefPool::new();
    let mut fields = SymbolTable::new();
    let mut globals = SymbolTable::new();
    let err =
        run_till_term(&mut proc, &code, &mut pool, &mut fields, &mut globals).unwrap_err();
    assert_eq!(err, ExecError::CallDepthExceeded { limit: 8 });
    assert!(!proc.is_running());
}

#[test]
fn test_unknown_function_call_is_invalid_opcode() {
    let role = role_with_funcs(vec![FuncDef {
        name: "main".to_string(),
        params: vec![],
        body: vec![Stmt::Return(call("missing", vec![]))],
    }]);
    let mut pool = RefPool::new();
    let err = run_func(&role, "main", SymbolTable::new(), &mut pool).unwrap_err();
    assert_eq!(err, ExecError::InvalidOpcode);
}

#[test]
fn test_short_circuit_and_or() {
    // the right side of `and`/`or` must not run when the left decides:
    // an undefined variable there would otherwise abort the process
    let role = role_with_funcs(vec![FuncDef {
        name: "main".to_string(),
        params: vec![],
        body: vec![Stmt::Return(Expr::ListOf(vec![
            Expr::And(bx(Expr::BoolLit(false)), bx(var("nowhere"))),
            Expr::Or(bx(Expr::BoolLit(true)), bx(var("nowhere"))),
            Expr::And(bx(Expr::BoolLit(true)), bx(Expr::BoolLit(false))),
            Expr::Or(bx(Expr::BoolLit(false)), bx(Expr::BoolLit(true))),
            Expr::Not(bx(Expr::BoolLit(false))),
        ]))],
    }]);
    let mut pool = RefPool::new();
    let (ret, _) = run_func(&role, "main", SymbolTable::new(), &mut pool).unwrap();
    let elems = list_elems(&ret.unwrap(), &pool);
    assert_eq!(elems[0], Value::Bool(false));
    assert_eq!(elems[1], Value::Bool(true));
    assert_eq!(elems[2], Value::Bool(false));
    assert_eq!(elems[3], Value::Bool(true));
    assert_eq!(elems[4], Value::Bool(true));
}

#[test]
fn test_closure_aliasing_observed_through_capture() {
    // setx(): x = 2.  main: x = 1; c = closure of setx; call c; return x
    let role = role_with_funcs(vec![
        FuncDef {
            name: "main".to_string(),
            params: vec![],
            body: vec![
                define("x", n(1.0)),
                define("c", Expr::ClosureOf("setx".to_string())),
                Stmt::Discard(Expr::CallClosure(bx(var("c")), vec![])),
                Stmt::Return(var("x")),
            ],
        },
        FuncDef {
            name: "setx".to_string(),
            params: vec![],
            body: vec![assign("x", n(2.0))],
        },
    ]);
    let mut pool = RefPool::new();
    let (ret, _) = run_func(&role, "main", SymbolTable::new(), &mut pool).unwrap();
    assert_eq!(expect_number(&ret.unwrap()), 2.0);
}

#[test]
fn test_closure_local_shadow_capture() {
    // a closure made before a redefinition keeps the earlier cell; one made
    // after captures the new cell; both coexist
    let role = role_with_funcs(vec![
        FuncDef {
            name: "main".to_string(),
            params: vec![],
            body: vec![
                define("x", n(1.0)),
                define("c1", Expr::ClosureOf("getx".to_string())),
                define("x", n(10.0)),
                define("c2", Expr::ClosureOf("getx".to_string())),
                assign("x", n(20.0)),
                Stmt::Return(Expr::ListOf(vec![
                    Expr::CallClosure(bx(var("c1")), vec![]),
                    Expr::CallClosure(bx(var("c2")), vec![]),
                ])),
            ],
        },
        FuncDef {
            name: "getx".to_string(),
            params: vec![],
            body: vec![Stmt::Return(var("x"))],
        },
    ]);
    let mut pool = RefPool::new();
    let (ret, _) = run_func(&role, "main", SymbolTable::new(), &mut pool).unwrap();
    let elems = list_elems(&ret.unwrap(), &pool);
    // c1 still sees the first cell (1.0); c2 sees the redefined cell, whose
    // later assignment through the original name is visible (20.0)
    assert_eq!(expect_number(&elems[0]), 1.0);
    assert_eq!(expect_number(&elems[1]), 20.0);
}

#[test]
fn test_text_number_coercion_in_arithmetic() {
    let role = role_with_funcs(vec![FuncDef {
        name: "main".to_string(),
        params: vec![],
        body: vec![Stmt::Return(bin(
            BinOp::Add,
            Expr::TextLit(" 5 ".to_string()),
            n(1.0),
        ))],
    }]);
    let mut pool = RefPool::new();
    let (ret, _) = run_func(&role, "main", SymbolTable::new(), &mut pool).unwrap();
    assert_eq!(expect_number(&ret.unwrap()), 6.0);
}

#[test]
fn test_stepping_idle_process_reports_idle() {
    let role = role_with_funcs(vec![FuncDef {
        name: "main".to_string(),
        params: vec![],
        body: vec![],
    }]);
    let (code, _) = ByteCode::compile(&role);
    let mut proc = Process::new(4);
    let mut pool = RefPool::new();
    let mut fields = SymbolTable::new();
    let mut globals = SymbolTable::new();
    let r = proc.step(&code, &mut pool, &mut fields, &mut globals).unwrap();
    assert_eq!(r, StepType::Idle);
}

#[test]
fn test_closure_arity_mismatch_is_custom_error() {
    // addn(k): return k + 1, taken as a closure but called with no argument
    let role = role_with_funcs(vec![
        FuncDef {
            name: "main".to_string(),
            params: vec![],
            body: vec![
                define("c", Expr::ClosureOf("addn".to_string())),
                Stmt::Return(Expr::CallClosure(bx(var("c")), vec![])),
            ],
        },
        FuncDef {
            name: "addn".to_string(),
            params: vec!["k".to_string()],
            body: vec![Stmt::Return(bin(BinOp::Add, var("k"), n(1.0)))],
        },
    ]);
    let mut pool = RefPool::new();
    let err = run_func(&role, "main", SymbolTable::new(), &mut pool).unwrap_err();
    assert!(matches!(err, ExecError::Custom { .. }), "{:?}", err);
}

#[test]
fn test_closure_with_parameter() {
    let role = role_with_funcs(vec![
        FuncDef {
            name: "main".to_string(),
            params: vec![],
            body: vec![
                define("c", Expr::ClosureOf("addn".to_string())),
                Stmt::Return(Expr::CallClosure(bx(var("c")), vec![n(41.0)])),
            ],
        },
        FuncDef {
            name: "addn".to_string(),
            params: vec!["k".to_string()],
            body: vec![Stmt::Return(bin(BinOp::Add, var("k"), n(1.0)))],
        },
    ]);
    let mut pool = RefPool::new();
    let (ret, _) = run_func(&role, "main", SymbolTable::new(), &mut pool).unwrap();
    assert_eq!(expect_number(&ret.unwrap()), 42.0);
}
