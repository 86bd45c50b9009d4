//! The one gate of the Fibonacci relation.
use crate::circuit_config::FibonacciConfig;
use crate::constraint_system::{ConfigError, ConstraintSystem, GateModel, SystemModel};
use crate::expr::{expr_views, Expr, ExprModel};
use vstd::prelude::*;

verus! {

/// The identity of that gate: `selector * (a + b - c)`, all on the row itself.
pub open spec fn fibonacci_identity(config: FibonacciConfig) -> ExprModel {
    ExprModel::Mul(
        Box::new(ExprModel::Selector(config.selector)),
        Box::new(
            ExprModel::Sub(
                Box::new(
                    ExprModel::Add(
                        Box::new(ExprModel::ColumnQuery { column: config.col_a, offset: 0 }),
                        Box::new(ExprModel::ColumnQuery { column: config.col_b, offset: 0 }),
                    ),
                ),
                Box::new(ExprModel::ColumnQuery { column: config.col_c, offset: 0 }),
            ),
        ),
    )
}

/// Gate `add`: on every row where the selector is enabled, the two
/// inputs sum to the output.
pub open spec fn fibonacci_gate(config: FibonacciConfig) -> GateModel {
    GateModel { name: "add"@, selector: config.selector, exprs: seq![fibonacci_identity(config)] }
}

/// Registers gate `add` of the Fibonacci relation over the columns of
/// `config`.
pub fn create_fibonacci_gate(meta: &mut ConstraintSystem, config: &FibonacciConfig) -> (r: Result<
    (),
    ConfigError,
>)
    requires
        old(meta).wf(),
    ensures
        final(meta).wf(),
        match r {
            Ok(()) => old(meta)@.add_gate(fibonacci_gate(*config)) == Ok::<_, ConfigError>(
                final(meta)@,
            ),
            Err(e) => old(meta)@.add_gate(fibonacci_gate(*config)) == Err::<SystemModel, _>(e)
                && final(meta)@ == old(meta)@,
        },
{
    let s = Expr::Selector(config.selector);
    let a = Expr::ColumnQuery { column: config.col_a, offset: 0 };
    let b = Expr::ColumnQuery { column: config.col_b, offset: 0 };
    let c = Expr::ColumnQuery { column: config.col_c, offset: 0 };
    let identity = Expr::Mul(
        Box::new(s),
        Box::new(Expr::Sub(Box::new(Expr::Add(Box::new(a), Box::new(b))), Box::new(c))),
    );
    proof {
        reveal_with_fuel(Expr::view, 4);
        reveal_with_fuel(ExprModel::wf, 4);
        assert(identity@ == fibonacci_identity(*config));
        assert(identity.wf());
    }
    // The identities that must be zero wherever the selector is enabled.
    let exprs = vec![identity];
    assert(expr_views(exprs@) =~= seq![fibonacci_identity(*config)]);
    meta.add_gate("add", config.selector, exprs)
}

} // verus!
