use blockvm::num::{num_div, num_parse, num_to_int, num_to_text};
use blockvm::runtime::{
    coerce_number, coerce_text, surface_index, values_equal, ExecError, Identity, RefPool,
    SymbolTable, Value, ValueType,
};

#[test]
fn test_value_types_and_identity() {
    let v = Value::Number(2.5f64.to_bits());
    assert_eq!(v.get_type(), ValueType::Number);
    assert_eq!(v.identity(), Identity::Number(2.5f64.to_bits()));
    let b = Value::Bool(true);
    assert_eq!(b.get_type(), ValueType::Bool);
    let t = Value::Text("hi".to_string());
    assert_eq!(t.get_type(), ValueType::Text);
    assert_eq!(t.identity(), Identity::Text("hi".to_string()));
}

#[test]
fn test_cycle_identity_through_pool() {
    // a list that contains itself keeps one identity through the cycle
    let mut pool = RefPool::new();
    let v = Value::from_vec(vec![Value::Number(1.0f64.to_bits())], &mut pool);
    let h = match v {
        Value::List(h) => h,
        _ => unreachable!(),
    };
    assert!(pool.list_push(h, Value::List(h)));
    let elem = pool.list_get(h, 1).unwrap();
    assert_eq!(elem.identity(), v.identity());
    // and again, one level deeper
    let h2 = match elem {
        Value::List(h2) => h2,
        _ => unreachable!(),
    };
    let elem2 = pool.list_get(h2, 1).unwrap();
    assert_eq!(elem2.identity(), Identity::List(h));
}

#[test]
fn test_values_equal_deep_and_case_insensitive() {
    let mut pool = RefPool::new();
    let a = Value::from_vec(
        vec![Value::Text("Hello".to_string()), Value::Number(1.0f64.to_bits())],
        &mut pool,
    );
    let b = Value::from_vec(
        vec![Value::Text("hELLo".to_string()), Value::Number(1.0f64.to_bits())],
        &mut pool,
    );
    let fuel = 10;
    assert_eq!(values_equal(&a, &b, &pool, fuel), Ok(true));
    let c = Value::from_vec(vec![Value::Text("other".to_string())], &mut pool);
    assert_eq!(values_equal(&a, &c, &pool, fuel), Ok(false));
    // mixed scalar types are simply unequal
    assert_eq!(
        values_equal(&Value::Bool(true), &Value::Number(1.0f64.to_bits()), &pool, fuel),
        Ok(false)
    );
}

#[test]
fn test_values_equal_nan_is_not_equal_to_itself() {
    let pool = RefPool::new();
    let nan = Value::Number(f64::NAN.to_bits());
    assert_eq!(values_equal(&nan, &nan, &pool, 5), Ok(false));
    let zp = Value::Number(0.0f64.to_bits());
    let zn = Value::Number((-0.0f64).to_bits());
    assert_eq!(values_equal(&zp, &zn, &pool, 5), Ok(true));
}

#[test]
fn test_values_equal_distinct_cycles_error_out() {
    let mut pool = RefPool::new();
    let ha = pool.alloc_list(vec![]);
    let hb = pool.alloc_list(vec![]);
    assert!(pool.list_push(ha, Value::List(ha)));
    assert!(pool.list_push(hb, Value::List(hb)));
    let fuel = pool.lists.len() + 1;
    let r = values_equal(&Value::List(ha), &Value::List(hb), &pool, fuel);
    assert!(matches!(r, Err(ExecError::Custom { .. })), "{:?}", r);
}

#[test]
fn test_symbol_table_define_and_lookup() {
    let mut t = SymbolTable::new();
    assert!(t.define("a".to_string(), 0));
    assert!(!t.define("a".to_string(), 1), "a name cannot be defined twice");
    assert_eq!(t.lookup(&"a".to_string()), Some(0));
    assert_eq!(t.lookup(&"b".to_string()), None);
    t.redefine_or_define("a".to_string(), 5);
    assert_eq!(t.lookup(&"a".to_string()), Some(5));
    t.redefine_or_define("b".to_string(), 7);
    assert_eq!(t.lookup(&"b".to_string()), Some(7));
}

#[test]
fn test_cell_aliasing_through_two_tables() {
    // two tables naming one cell: a write through either is seen by both
    let mut pool = RefPool::new();
    let c = pool.alloc_cell(Value::Number(1.0f64.to_bits()));
    let mut t1 = SymbolTable::new();
    let mut t2 = SymbolTable::new();
    t1.redefine_or_define("x".to_string(), c);
    t2.redefine_or_define("alias".to_string(), c);
    let c1 = t1.lookup(&"x".to_string()).unwrap();
    assert!(pool.write_cell(c1, Value::Number(9.0f64.to_bits())));
    let c2 = t2.lookup(&"alias".to_string()).unwrap();
    assert_eq!(pool.read_cell(c2), Some(Value::Number(9.0f64.to_bits())));
}

#[test]
fn test_surface_index_bounds() {
    assert_eq!(surface_index(3, 1), Ok(0));
    assert_eq!(surface_index(3, 3), Ok(2));
    assert_eq!(surface_index(3, 0), Err(ExecError::IndexOutOfRange { len: 3, index: 0 }));
    assert_eq!(
        surface_index(3, -2),
        Err(ExecError::IndexOutOfRange { len: 3, index: -2 })
    );
    assert_eq!(surface_index(3, 4), Err(ExecError::IndexOutOfRange { len: 3, index: 4 }));
    assert_eq!(surface_index(0, 1), Err(ExecError::IndexOutOfRange { len: 0, index: 1 }));
}

#[test]
fn test_coerce_number_parses_and_trims() {
    assert_eq!(coerce_number(&Value::Number(2.0f64.to_bits())), Ok(2.0f64.to_bits()));
    assert_eq!(coerce_number(&Value::Text("  5 ".to_string())), Ok(5.0f64.to_bits()));
    assert_eq!(coerce_number(&Value::Text("2.5".to_string())), Ok(2.5f64.to_bits()));
    assert_eq!(
        coerce_number(&Value::Text("pear".to_string())),
        Err(ExecError::TypeMismatch { expected: ValueType::Number, got: ValueType::Text })
    );
    assert_eq!(
        coerce_number(&Value::Bool(true)),
        Err(ExecError::TypeMismatch { expected: ValueType::Number, got: ValueType::Bool })
    );
}

#[test]
fn test_coerce_text_round_trip() {
    let x = 12.5f64;
    let s = match coerce_text(&Value::Number(x.to_bits())) {
        Ok(s) => s,
        Err(e) => panic!("{:?}", e),
    };
    // whatever the exact rendering, parsing it back recovers the value
    assert_eq!(num_parse(&s), Some(x.to_bits()));
    assert_eq!(coerce_text(&Value::Bool(true)), Ok("true".to_string()));
    assert_eq!(coerce_text(&Value::Text("t".to_string())), Ok("t".to_string()));
}

#[test]
fn test_non_finite_numbers_render_by_the_fixed_rule() {
    assert_eq!(coerce_text(&Value::Number(f64::NAN.to_bits())), Ok("nan".to_string()));
    assert_eq!(
        coerce_text(&Value::Number(f64::INFINITY.to_bits())),
        Ok("inf".to_string())
    );
    assert_eq!(
        coerce_text(&Value::Number(f64::NEG_INFINITY.to_bits())),
        Ok("-inf".to_string())
    );
}

#[test]
fn test_number_primitives_match_hardware_doubles() {
    // the software floats behind the trusted wrappers agree with f64
    let d = num_div(1.0f64.to_bits(), 3.0f64.to_bits());
    assert_eq!(f64::from_bits(d), 1.0 / 3.0);
    assert_eq!(num_to_int(42.0f64.to_bits()), Some(42));
    assert_eq!(num_to_int((-3.0f64).to_bits()), Some(-3));
    assert_eq!(num_to_int(2.5f64.to_bits()), None);
    assert_eq!(num_to_int(f64::NAN.to_bits()), None);
    assert_eq!(num_to_int(f64::INFINITY.to_bits()), None);
    let s = num_to_text(7.0f64.to_bits());
    assert_eq!(num_parse(&s), Some(7.0f64.to_bits()));
}
