use std::collections::VecDeque;

use blockvm::bytecode::{BinOp, Expr, Hat, Role, ScriptAst, Sprite, Stmt, VarInit, AstValue};
use blockvm::process::{Process, StepType};
use blockvm::project::{Project, Script, UserInput};
use blockvm::runtime::{SymbolTable, Value};

fn n(x: f64) -> Expr {
    Expr::NumberLit(x.to_bits())
}

fn var(s: &str) -> Expr {
    Expr::Var(s.to_string())
}

fn bin(op: BinOp, a: Expr, b: Expr) -> Expr {
    Expr::Bin(op, Box::new(a), Box::new(b))
}

/// A script that appends `tag` to the global list `log` `count` times,
/// yielding after each append.
fn logging_script(tag: f64, count: f64) -> ScriptAst {
    ScriptAst {
        hat: Some(Hat::OnFlag),
        body: vec![
            Stmt::Define("i".to_string(), n(0.0)),
            Stmt::While(
                bin(BinOp::Less, var("i"), n(count)),
                vec![
                    Stmt::Push(var("log"), n(tag)),
                    Stmt::Assign("i".to_string(), bin(BinOp::Add, var("i"), n(1.0))),
                ],
            ),
        ],
    }
}

fn two_sprite_role() -> Role {
    Role {
        name: "role".to_string(),
        globals: vec![VarInit { name: "log".to_string(), value: AstValue::List(vec![]) }],
        sprites: vec![
            Sprite {
                name: "stage".to_string(),
                fields: vec![],
                scripts: vec![logging_script(1.0, 3.0)],
            },
            Sprite {
                name: "sprite".to_string(),
                fields: vec![],
                scripts: vec![logging_script(2.0, 3.0)],
            },
        ],
        funcs: vec![],
    }
}

fn read_global_list(p: &Project, name: &str) -> Vec<f64> {
    let c = p.context.globals.lookup(&name.to_string()).unwrap();
    let v = p.context.ref_pool.read_cell(c).unwrap();
    match v {
        Value::List(h) => {
            let len = p.context.ref_pool.list_len(h).unwrap();
            (0..len)
                .map(|i| match p.context.ref_pool.list_get(h, i).unwrap() {
                    Value::Number(b) => f64::from_bits(b),
                    x => panic!("{:?}", x),
                })
                .collect()
        }
        x => panic!("{:?}", x),
    }
}

#[test]
fn test_project_runs_flag_scripts_round_robin() {
    let role = two_sprite_role();
    let mut p = Project::new(&role, 16);
    // nothing scheduled yet: stepping only yields the idle scripts around
    for _ in 0..4 {
        let r = p.step();
        assert!(r == StepType::Yield, "{:?}", r);
    }
    assert_eq!(read_global_list(&p, "log"), Vec::<f64>::new());

    p.input(UserInput::ClickStart);
    for _ in 0..200 {
        p.step();
    }
    let log = read_global_list(&p, "log");
    // both scripts ran to completion
    assert_eq!(log.iter().filter(|&&x| x == 1.0).count(), 3);
    assert_eq!(log.iter().filter(|&&x| x == 2.0).count(), 3);
    // and they interleaved: the entities alternate at every yield, so the
    // log is not three of one then three of the other
    assert_ne!(log, vec![1.0, 1.0, 1.0, 2.0, 2.0, 2.0]);
    assert_ne!(log, vec![2.0, 2.0, 2.0, 1.0, 1.0, 1.0]);
}

#[test]
fn test_project_step_with_no_entities_is_idle() {
    let role = Role {
        name: "empty".to_string(),
        globals: vec![],
        sprites: vec![],
        funcs: vec![],
    };
    let mut p = Project::new(&role, 4);
    assert_eq!(p.step(), StepType::Idle);
    assert_eq!(p.step(), StepType::Idle);
}

#[test]
fn test_click_start_is_strict_while_running() {
    // a second flag click while the script still runs is debounced: the
    // first invocation goes on alone and the log stays at one run's worth
    let role = Role {
        name: "role".to_string(),
        globals: vec![VarInit { name: "log".to_string(), value: AstValue::List(vec![]) }],
        sprites: vec![Sprite {
            name: "stage".to_string(),
            fields: vec![],
            scripts: vec![logging_script(5.0, 4.0)],
        }],
        funcs: vec![],
    };
    let mut p = Project::new(&role, 16);
    p.input(UserInput::ClickStart);
    p.step();
    p.step();
    p.input(UserInput::ClickStart);
    for _ in 0..100 {
        p.step();
    }
    assert_eq!(read_global_list(&p, "log"), vec![5.0, 5.0, 5.0, 5.0]);
}

fn context_tagged(tag: usize) -> SymbolTable {
    // the bound cell handle doubles as a tag, so queued contexts can be
    // told apart without touching a pool
    let mut t = SymbolTable::new();
    t.redefine_or_define("tag".to_string(), tag);
    t
}

#[test]
fn test_schedule_queue_bound_and_tail_drop() {
    let mut s = Script {
        hat: Some(Hat::OnFlag),
        process: Process::new(8),
        start_pos: 0,
        context_queue: VecDeque::new(),
    };
    // first schedule: the idle process consumes the context at once
    s.schedule(2, context_tagged(100));
    assert!(s.process.is_running());
    assert_eq!(s.context_queue.len(), 0);
    // further schedules pile up while the process runs, up to the bound
    s.schedule(2, context_tagged(101));
    s.schedule(2, context_tagged(102));
    assert_eq!(s.context_queue.len(), 2);
    // overflow drops the newest, never the oldest
    s.schedule(2, context_tagged(103));
    assert_eq!(s.context_queue.len(), 2);
    assert_eq!(s.context_queue[0].lookup(&"tag".to_string()), Some(101));
    assert_eq!(s.context_queue[1].lookup(&"tag".to_string()), Some(102));
    // the bound holds after any sequence of schedules
    for extra in 0..10usize {
        s.schedule(2, context_tagged(200 + extra));
        assert!(s.context_queue.len() <= 2);
    }
}

#[test]
fn test_schedule_zero_bound_keeps_single_invocation() {
    // max_queue = 0 with an idle process: the one scheduled context becomes
    // the in-flight invocation and is not dropped
    let mut s = Script {
        hat: Some(Hat::OnFlag),
        process: Process::new(8),
        start_pos: 7,
        context_queue: VecDeque::new(),
    };
    s.schedule(0, context_tagged(1));
    assert!(s.process.is_running());
    assert_eq!(s.process.pc, 7);
    assert_eq!(s.context_queue.len(), 0);
    // while running, an extra invocation overflows out immediately
    s.schedule(0, context_tagged(2));
    assert_eq!(s.context_queue.len(), 0);
}

#[test]
fn test_consume_context_restarts_idle_process() {
    let mut s = Script {
        hat: None,
        process: Process::new(8),
        start_pos: 3,
        context_queue: VecDeque::new(),
    };
    s.context_queue.push_back(context_tagged(9));
    s.consume_context();
    assert!(s.process.is_running());
    assert_eq!(s.process.pc, 3);
    assert_eq!(s.context_queue.len(), 0);
}

#[test]
fn test_error_parks_pending_contexts() {
    // a script whose code faults at once: the pending invocation context
    // is not automatically re-run after the error; it waits until the next
    // event schedules the script again
    let role = Role {
        name: "role".to_string(),
        globals: vec![],
        sprites: vec![],
        funcs: vec![blockvm::bytecode::FuncDef {
            name: "boom".to_string(),
            params: vec![],
            body: vec![Stmt::Return(var("nowhere"))],
        }],
    };
    let (code, _) = blockvm::bytecode::ByteCode::compile(&role);
    let entry = code.funcs[0].entry;
    let mut s = Script {
        hat: Some(Hat::OnFlag),
        process: Process::new(8),
        start_pos: entry,
        context_queue: VecDeque::new(),
    };
    let mut pool = blockvm::runtime::RefPool::new();
    let mut fields = SymbolTable::new();
    let mut globals = SymbolTable::new();
    s.schedule(5, context_tagged(1));
    s.schedule(5, context_tagged(2));
    assert!(s.process.is_running());
    assert_eq!(s.context_queue.len(), 1);
    // run to the fault
    while s.process.is_running() {
        s.step(&code, &mut pool, &mut fields, &mut globals);
    }
    // the pending context stays parked, and idle steps leave it alone
    assert_eq!(s.context_queue.len(), 1);
    assert_eq!(s.step(&code, &mut pool, &mut fields, &mut globals), StepType::Yield);
    assert_eq!(s.context_queue.len(), 1);
    // the next event resumes the oldest parked context
    s.schedule(5, context_tagged(3));
    assert!(s.process.is_running());
    assert_eq!(s.context_queue.len(), 1);
    assert_eq!(s.context_queue[0].lookup(&"tag".to_string()), Some(3));
}
