use vstd::prelude::*;

verus! {

/// A binary operator of the expression grammar.
#[derive(Debug, Clone, Copy, PartialEq, Eq, Structural)]
pub enum Operator {
    Add,
    Subtract,
    Multiply,
    Divide,
}

/// One step of arithmetic, with its operands. The caller's arithmetic maps
/// each to its result.
#[derive(Debug, Clone, Copy, PartialEq)]
pub enum Operation<V> {
    Add(V, V),
    Subtract(V, V),
    Multiply(V, V),
    Divide(V, V),
    Negate(V),
}

impl Operator {
    /// The operation that applies this operator to `left` and `right`.
    pub open spec fn applied<V>(self, left: V, right: V) -> Operation<V> {
        match self {
            Operator::Add => Operation::Add(left, right),
            Operator::Subtract => Operation::Subtract(left, right),
            Operator::Multiply => Operation::Multiply(left, right),
            Operator::Divide => Operation::Divide(left, right),
        }
    }

    /// Pairs the operator with its operands.
    pub fn apply_to<V>(self, left: V, right: V) -> (operation: Operation<V>)
        ensures
            operation == self.applied(left, right),
    {
        match self {
            Operator::Add => Operation::Add(left, right),
            Operator::Subtract => Operation::Subtract(left, right),
            Operator::Multiply => Operation::Multiply(left, right),
            Operator::Divide => Operation::Divide(left, right),
        }
    }
}

/// The arithmetic `calc` can be asked for every operation: none is outside
/// its domain.
pub open spec fn total<V, F: Fn(Operation<V>) -> V>(calc: F) -> bool {
    forall|operation: Operation<V>| call_requires(calc, (operation,))
}

/// `result` is a value that `calc` may return for `operation`.
pub open spec fn gives<V, F: Fn(Operation<V>) -> V>(
    calc: F,
    operation: Operation<V>,
    result: V,
) -> bool {
    call_ensures(calc, (operation,), result)
}

/// The arithmetic `calc` gives every operation at most one result.
pub open spec fn single_valued<V, F: Fn(Operation<V>) -> V>(calc: F) -> bool {
    forall|operation: Operation<V>, first: V, second: V|
        #[trigger] gives(calc, operation, first) && #[trigger] gives(calc, operation, second)
            ==> first == second
}

} // verus!
