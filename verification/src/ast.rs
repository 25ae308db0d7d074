//! The expression tree: operators, numbers, binary operations, and the
//! arithmetic error type that evaluation reports.

use vstd::prelude::*;

verus! {

/// The four binary operators a tree may contain.
#[derive(Debug)]
pub enum OperatorKind {
    Add,
    Sub,
    Mul,
    Div,
}

/// A single unsigned 128-bit value.
#[derive(Debug)]
pub struct Number(pub u128);

/// A node of the arithmetic tree.
///
/// A tree built by a client holds only `Operation` and `Number(Some(_))`
/// nodes; `Operator` and `Number(None)` exist so the evaluator can use the
/// same type for the transient markers of its flattening pass.
#[derive(Debug)]
pub enum Expr {
    Operation(Box<BinaryOp>),
    Number(Option<Number>),
    Operator(OperatorKind),
}

/// Two operand subtrees joined by one operator.
#[derive(Debug)]
pub struct BinaryOp {
    pub l: Expr,
    pub r: Expr,
    pub op: OperatorKind,
}

impl Clone for OperatorKind {
    /// A clone is the same operator.
    fn clone(&self) -> (res: Self)
        ensures
            res == *self,
    {
        match self {
            OperatorKind::Add => OperatorKind::Add,
            OperatorKind::Sub => OperatorKind::Sub,
            OperatorKind::Mul => OperatorKind::Mul,
            OperatorKind::Div => OperatorKind::Div,
        }
    }
}

impl Clone for Number {
    /// A clone wraps the same value.
    fn clone(&self) -> (res: Self)
        ensures
            res == *self,
    {
        Number(self.0)
    }
}

impl Clone for Expr {
    /// A clone is an equal, independently owned tree.
    fn clone(&self) -> (res: Self)
        ensures
            res == *self,
        decreases self,
    {
        match self {
            Expr::Operation(b) => Expr::Operation(Box::new((&**b).clone())),
            Expr::Number(n) => Expr::Number(
                match n {
                    Some(v) => Some(v.clone()),
                    None => None,
                },
            ),
            Expr::Operator(k) => Expr::Operator(k.clone()),
        }
    }
}

impl Clone for BinaryOp {
    /// A clone is an equal, independently owned node.
    fn clone(&self) -> (res: Self)
        ensures
            res == *self,
        decreases self,
    {
        BinaryOp { l: self.l.clone(), r: self.r.clone(), op: self.op.clone() }
    }
}

impl BinaryOp {
    /// Builds the `Operation` expression joining `l` and `r` with `op`.
    pub fn new(l: Expr, r: Expr, op: OperatorKind) -> (e: Expr)
        ensures
            e matches Expr::Operation(b) && *b == (BinaryOp { l: l, r: r, op: op }),
    {
        Expr::Operation(Box::new(BinaryOp { l: l, r: r, op: op }))
    }
}

impl Number {
    /// Wraps a raw integer as a `Number` expression.
    pub fn new(n: u128) -> (e: Expr)
        ensures
            e == Expr::Number(Some(Number(n))),
    {
        Expr::Number(Some(Number(n)))
    }

    /// Extracts the numeric payload of a `Number` expression; any other
    /// node yields `None`.
    pub fn from_expr(expr: Expr) -> (r: Option<Number>)
        ensures
            match expr {
                Expr::Number(n) => r == n,
                _ => r is None,
            },
    {
        match expr {
            Expr::Number(number) => number,
            _ => None,
        }
    }

    /// Sum of two values, as a new `Number` expression.
    pub fn add(self, other: Number) -> (e: Expr)
        requires
            self.0 + other.0 <= u128::MAX,
        ensures
            e == Expr::Number(Some(Number((self.0 + other.0) as u128))),
    {
        Number::new(self.0 + other.0)
    }

    /// Difference of two values, as a new `Number` expression.
    pub fn sub(self, other: Number) -> (e: Expr)
        requires
            other.0 <= self.0,
        ensures
            e == Expr::Number(Some(Number((self.0 - other.0) as u128))),
    {
        Number::new(self.0 - other.0)
    }

    /// Product of two values, as a new `Number` expression.
    pub fn mul(self, other: Number) -> (e: Expr)
        requires
            self.0 * other.0 <= u128::MAX,
        ensures
            e == Expr::Number(Some(Number((self.0 * other.0) as u128))),
    {
        Number::new(self.0 * other.0)
    }

    /// Truncating quotient of two values, as a new `Number` expression.
    /// The divisor must be known non-zero by the caller; the zero check
    /// belongs to the evaluator.
    pub fn div(self, other: Number) -> (e: Expr)
        requires
            other.0 != 0,
        ensures
            e == Expr::Number(Some(Number((self.0 / other.0) as u128))),
    {
        Number::new(self.0 / other.0)
    }
}

impl PartialEq<u128> for Number {
    /// Value equality between a wrapped number and a raw integer.
    fn eq(&self, rhs: &u128) -> (r: bool) {
        self.0 == *rhs
    }
}

impl vstd::std_specs::cmp::PartialEqSpecImpl<u128> for Number {
    open spec fn obeys_eq_spec() -> bool {
        true
    }

    open spec fn eq_spec(&self, other: &u128) -> bool {
        self.0 == *other
    }
}

/// The taxonomy of arithmetic faults. `Success` is a reserved sentinel
/// that evaluation never returns as an error; `DivByZero` is the one
/// recoverable fault.
#[derive(Debug, Clone, Copy, PartialEq, Eq, Structural)]
pub enum ArithmeticErrorKind {
    Success,
    DivByZero,
}

/// The numeric code under which an error kind travels.
pub open spec fn error_code(kind: ArithmeticErrorKind) -> int {
    match kind {
        ArithmeticErrorKind::Success => 0,
        ArithmeticErrorKind::DivByZero => 1,
    }
}

/// A typed arithmetic error, carried as a stable numeric code.
#[derive(Debug)]
pub struct ArithmeticError {
    pub e_code: usize,
}

impl ArithmeticError {
    /// Builds the error carrying the code of `code`.
    pub fn new(code: ArithmeticErrorKind) -> (e: ArithmeticError)
        ensures
            e.e_code == error_code(code),
    {
        let e_code: usize = match code {
            ArithmeticErrorKind::Success => 0,
            ArithmeticErrorKind::DivByZero => 1,
        };
        ArithmeticError { e_code }
    }

    /// Maps the stored code back to its kind; an unknown code yields `None`.
    pub fn to_enum(&self) -> (r: Option<ArithmeticErrorKind>)
        ensures
            self.e_code == 0 ==> r == Some(ArithmeticErrorKind::Success),
            self.e_code == 1 ==> r == Some(ArithmeticErrorKind::DivByZero),
            self.e_code != 0 && self.e_code != 1 ==> r is None,
    {
        match self.e_code {
            0 => Some(ArithmeticErrorKind::Success),
            1 => Some(ArithmeticErrorKind::DivByZero),
            _ => None,
        }
    }

    /// The human-readable message for the stored code; an unknown code
    /// resolves to a generic fallback rather than failing.
    pub fn resolve_string(&self) -> (r: String)
        ensures
            self.e_code == 0 ==> r@ == "success"@,
            self.e_code == 1 ==> r@ == "no solution: division by zero"@,
            self.e_code != 0 && self.e_code != 1 ==> r@ == "unknown error code"@,
    {
        let msg: &str = match self.to_enum() {
            Some(ArithmeticErrorKind::Success) => "success",
            Some(ArithmeticErrorKind::DivByZero) => "no solution: division by zero",
            None => "unknown error code",
        };
        msg.to_owned()
    }
}

} // verus!
