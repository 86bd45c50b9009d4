use fibonacci_circuit::circuit::FibonacciCircuit;
use fibonacci_circuit::circuit_config::FibonacciConfig;
use fibonacci_circuit::column::{Column, ColumnInfo, ColumnKind, Selector};
use fibonacci_circuit::constraint_system::{ConfigError, ConstraintSystem};
use fibonacci_circuit::expr::Expr;
use fibonacci_circuit::field::FieldElement;
use fibonacci_circuit::gate::create_fibonacci_gate;

fn query(column: Column) -> Expr {
    Expr::ColumnQuery { column, offset: 0 }
}

#[test]
fn declare_numbers_columns_in_order() {
    let mut meta = ConstraintSystem::new();
    let a = meta.declare(ColumnKind::Private).unwrap();
    let f = meta.declare(ColumnKind::Fixed).unwrap();
    let p = meta.declare(ColumnKind::Public).unwrap();
    assert_eq!(a, Column { kind: ColumnKind::Private, id: 0 });
    assert_eq!(f, Column { kind: ColumnKind::Fixed, id: 1 });
    assert_eq!(p, Column { kind: ColumnKind::Public, id: 2 });
    assert_eq!(
        meta.columns(),
        &vec![
            ColumnInfo { kind: ColumnKind::Private, equality_enabled: false },
            ColumnInfo { kind: ColumnKind::Fixed, equality_enabled: false },
            ColumnInfo { kind: ColumnKind::Public, equality_enabled: false },
        ]
    );
}

#[test]
fn second_public_column_is_refused() {
    let mut meta = ConstraintSystem::new();
    meta.declare(ColumnKind::Public).unwrap();
    assert!(meta.has_public());
    assert_eq!(meta.declare(ColumnKind::Public), Err(ConfigError::DuplicateInstanceColumn));
    assert_eq!(meta.columns().len(), 1);
    // other kinds are still welcome
    assert!(meta.declare(ColumnKind::Private).is_ok());
}

#[test]
fn selectors_are_numbered_in_order() {
    let mut meta = ConstraintSystem::new();
    assert_eq!(meta.selector(), Ok(Selector { id: 0 }));
    assert_eq!(meta.selector(), Ok(Selector { id: 1 }));
    assert_eq!(meta.num_selectors(), 2);
}

#[test]
fn enable_equality_is_idempotent() {
    let mut meta = ConstraintSystem::new();
    let a = meta.declare(ColumnKind::Private).unwrap();
    let b = meta.declare(ColumnKind::Private).unwrap();
    assert_eq!(meta.enable_equality(a), Ok(()));
    assert_eq!(meta.enable_equality(a), Ok(()));
    assert!(meta.columns()[a.id].equality_enabled);
    assert!(!meta.columns()[b.id].equality_enabled);
}

#[test]
fn enable_equality_refuses_fixed_and_unknown_columns() {
    let mut meta = ConstraintSystem::new();
    let f = meta.declare(ColumnKind::Fixed).unwrap();
    assert_eq!(meta.enable_equality(f), Err(ConfigError::FixedColumnEquality));
    assert!(!meta.columns()[f.id].equality_enabled);
    let missing = Column { kind: ColumnKind::Private, id: 5 };
    assert_eq!(meta.enable_equality(missing), Err(ConfigError::Undeclared));
    // the number exists, the kind is another
    let disguised = Column { kind: ColumnKind::Private, id: f.id };
    assert_eq!(meta.enable_equality(disguised), Err(ConfigError::Undeclared));
}

#[test]
fn add_gate_stores_the_gate() {
    let mut meta = ConstraintSystem::new();
    let a = meta.declare(ColumnKind::Private).unwrap();
    let s = meta.selector().unwrap();
    assert_eq!(meta.add_gate("zero", s, vec![query(a)]), Ok(()));
    assert_eq!(meta.gates().len(), 1);
    assert_eq!(meta.gates()[0].name, "zero");
    assert_eq!(meta.gates()[0].selector, s);
    assert!(meta.gates()[0].exprs[0].same(&query(a)));
}

#[test]
fn add_gate_refuses_what_is_not_declared() {
    let mut meta = ConstraintSystem::new();
    let a = meta.declare(ColumnKind::Private).unwrap();
    let s = meta.selector().unwrap();
    let missing = Column { kind: ColumnKind::Private, id: 1 };
    let sum = Expr::Add(Box::new(query(a)), Box::new(Expr::Neg(Box::new(query(missing)))));
    assert_eq!(meta.add_gate("g", s, vec![sum]), Err(ConfigError::Undeclared));
    assert_eq!(
        meta.add_gate("g", Selector { id: 1 }, vec![query(a)]),
        Err(ConfigError::Undeclared)
    );
    assert_eq!(
        meta.add_gate("g", s, vec![Expr::Selector(Selector { id: 3 })]),
        Err(ConfigError::Undeclared)
    );
    assert!(meta.gates().is_empty());
}

#[test]
fn add_gate_refuses_a_name_twice() {
    let mut meta = ConstraintSystem::new();
    let a = meta.declare(ColumnKind::Private).unwrap();
    let b = meta.declare(ColumnKind::Private).unwrap();
    let s = meta.selector().unwrap();
    assert_eq!(meta.add_gate("g", s, vec![query(a)]), Ok(()));
    assert_eq!(meta.add_gate("g", s, vec![query(b)]), Err(ConfigError::DuplicateGate));
    // the same gate once more is a duplicate too
    assert_eq!(meta.add_gate("g", s, vec![query(a)]), Err(ConfigError::DuplicateGate));
    assert_eq!(meta.gates().len(), 1);
}

#[test]
fn add_gate_refuses_the_same_identities_under_another_name() {
    let mut meta = ConstraintSystem::new();
    let a = meta.declare(ColumnKind::Private).unwrap();
    let s = meta.selector().unwrap();
    let t = meta.selector().unwrap();
    let three = || Expr::Constant(FieldElement::from_u64(3));
    let build = || vec![Expr::Mul(Box::new(three()), Box::new(query(a)))];
    assert_eq!(meta.add_gate("g", s, build()), Ok(()));
    assert_eq!(meta.add_gate("h", s, build()), Err(ConfigError::AmbiguousGate));
    // under another selector the identities make another gate
    assert_eq!(meta.add_gate("h", t, build()), Ok(()));
    // and so do other identities under the same selector
    assert_eq!(
        meta.add_gate("k", s, vec![Expr::Mul(Box::new(query(a)), Box::new(three()))]),
        Ok(())
    );
    assert_eq!(meta.gates().len(), 3);
}

#[test]
fn same_tells_expressions_apart() {
    let a = Column { kind: ColumnKind::Private, id: 0 };
    let b = Column { kind: ColumnKind::Private, id: 1 };
    assert!(query(a).same(&query(a)));
    assert!(!query(a).same(&query(b)));
    assert!(!query(a).same(&Expr::ColumnQuery { column: a, offset: 1 }));
    assert!(!query(a).same(&query(Column { kind: ColumnKind::Fixed, id: 0 })));
    let two = || Expr::Constant(FieldElement::from_u64(2));
    assert!(two().same(&Expr::Constant(FieldElement::one().add(&FieldElement::one()))));
    assert!(!two().same(&Expr::Constant(FieldElement::from_u64(3))));
    let sum = Expr::Add(Box::new(query(a)), Box::new(two()));
    let difference = Expr::Sub(Box::new(query(a)), Box::new(two()));
    assert!(!sum.same(&difference));
    assert!(!Expr::Neg(Box::new(two())).same(&two()));
    assert!(Expr::Selector(Selector { id: 0 }).same(&Expr::Selector(Selector { id: 0 })));
    assert!(!Expr::Selector(Selector { id: 0 }).same(&Expr::Selector(Selector { id: 1 })));
}

#[test]
fn fibonacci_config_declares_four_columns_and_a_selector() {
    let mut meta = ConstraintSystem::new();
    let config = FibonacciConfig::new(&mut meta).unwrap();
    assert_eq!(config.col_a, Column { kind: ColumnKind::Private, id: 0 });
    assert_eq!(config.col_b, Column { kind: ColumnKind::Private, id: 1 });
    assert_eq!(config.col_c, Column { kind: ColumnKind::Private, id: 2 });
    assert_eq!(config.selector, Selector { id: 0 });
    assert_eq!(config.instance, Column { kind: ColumnKind::Public, id: 3 });
    assert_eq!(meta.columns().len(), 4);
    assert!(meta.columns().iter().all(|c| c.equality_enabled));
    assert_eq!(meta.num_selectors(), 1);
    assert!(meta.gates().is_empty());
}

#[test]
fn fibonacci_config_comes_behind_what_is_declared() {
    let mut meta = ConstraintSystem::new();
    meta.declare(ColumnKind::Fixed).unwrap();
    meta.selector().unwrap();
    let config = FibonacciConfig::new(&mut meta).unwrap();
    assert_eq!(config.col_a.id, 1);
    assert_eq!(config.instance.id, 4);
    assert_eq!(config.selector.id, 1);
    assert!(!meta.columns()[0].equality_enabled);
}

#[test]
fn fibonacci_config_leaves_a_refused_registry_alone() {
    let mut meta = ConstraintSystem::new();
    meta.declare(ColumnKind::Public).unwrap();
    assert_eq!(FibonacciConfig::new(&mut meta), Err(ConfigError::DuplicateInstanceColumn));
    assert_eq!(meta.columns().len(), 1);
    assert_eq!(meta.num_selectors(), 0);
}

#[test]
fn fibonacci_gate_is_selector_times_a_plus_b_minus_c() {
    let mut meta = ConstraintSystem::new();
    let config = FibonacciConfig::new(&mut meta).unwrap();
    assert_eq!(create_fibonacci_gate(&mut meta, &config), Ok(()));
    let gate = &meta.gates()[0];
    assert_eq!(gate.name, "add");
    assert_eq!(gate.selector, config.selector);
    assert_eq!(gate.exprs.len(), 1);
    let expected = Expr::Mul(
        Box::new(Expr::Selector(config.selector)),
        Box::new(Expr::Sub(
            Box::new(Expr::Add(Box::new(query(config.col_a)), Box::new(query(config.col_b)))),
            Box::new(query(config.col_c)),
        )),
    );
    assert!(gate.exprs[0].same(&expected));
    // a second registration is a duplicate
    assert_eq!(create_fibonacci_gate(&mut meta, &config), Err(ConfigError::DuplicateGate));
}

#[test]
fn configure_declares_columns_and_gate() {
    let mut meta = ConstraintSystem::new();
    let config = FibonacciCircuit::configure(&mut meta).unwrap();
    assert_eq!(config.instance, Column { kind: ColumnKind::Public, id: 3 });
    assert_eq!(meta.gates().len(), 1);
    assert_eq!(meta.gates()[0].name, "add");
    // a relation has one public column: the relation cannot be configured twice
    assert_eq!(FibonacciCircuit::configure(&mut meta), Err(ConfigError::DuplicateInstanceColumn));
}
