use vstd::prelude::*;

verus! {

/// The binary operators of the expression grammar, assignment and compound
/// assignment included: assignment is an expression-level operator so that
/// chained and embedded assignment parse.
#[derive(Copy, Clone, Debug, Hash, PartialEq, Eq, Structural)]
pub enum BinaryOp {
    Add,
    Sub,
    Mul,
    Div,
    BitAnd,
    BitOr,
    BitXor,
    LogicAnd,
    LogicOr,
    LeftShift,
    RightShift,
    Assign,
    AddAssign,
    SubAssign,
    MulAssign,
    DivAssign,
    BitAndAssign,
    BitOrAssign,
    BitXorAssign,
    LeftShiftAssign,
    RightShiftAssign,
    CmpEq,
    CmpNe,
    CmpLt,
    CmpGt,
    CmpLe,
    CmpGe,
}

/// The prefix operators: arithmetic negation and logical/bitwise negation.
/// They bind tighter than every binary operator and nest to the right.
#[derive(Copy, Clone, Debug, Hash, PartialEq, Eq, Structural)]
pub enum UnaryOp {
    Neg,
    Not,
}

/// Binding power of a binary operator, from 1 (assignment, loosest) up to
/// 11 (multiplicative, tightest), reproducing conventional C-family
/// precedence.
pub open spec fn spec_precedence(op: BinaryOp) -> int {
    match op {
        BinaryOp::Assign
        | BinaryOp::AddAssign
        | BinaryOp::SubAssign
        | BinaryOp::MulAssign
        | BinaryOp::DivAssign
        | BinaryOp::BitAndAssign
        | BinaryOp::BitOrAssign
        | BinaryOp::BitXorAssign
        | BinaryOp::LeftShiftAssign
        | BinaryOp::RightShiftAssign => 1,
        BinaryOp::LogicOr => 2,
        BinaryOp::LogicAnd => 3,
        BinaryOp::BitOr => 4,
        BinaryOp::BitXor => 5,
        BinaryOp::BitAnd => 6,
        BinaryOp::CmpEq | BinaryOp::CmpNe => 7,
        BinaryOp::CmpLt | BinaryOp::CmpGt | BinaryOp::CmpLe | BinaryOp::CmpGe => 8,
        BinaryOp::LeftShift | BinaryOp::RightShift => 9,
        BinaryOp::Add | BinaryOp::Sub => 10,
        BinaryOp::Mul | BinaryOp::Div => 11,
    }
}

/// The assignment class is right-associative; every other class chains to
/// the left.
pub open spec fn spec_right_assoc(op: BinaryOp) -> bool {
    spec_precedence(op) == 1
}

impl BinaryOp {
    /// The operator's binding power; see `spec_precedence`.
    pub fn precedence(self) -> (p: u32)
        ensures
            p as int == spec_precedence(self),
    {
        match self {
            BinaryOp::Assign
            | BinaryOp::AddAssign
            | BinaryOp::SubAssign
            | BinaryOp::MulAssign
            | BinaryOp::DivAssign
            | BinaryOp::BitAndAssign
            | BinaryOp::BitOrAssign
            | BinaryOp::BitXorAssign
            | BinaryOp::LeftShiftAssign
            | BinaryOp::RightShiftAssign => 1,
            BinaryOp::LogicOr => 2,
            BinaryOp::LogicAnd => 3,
            BinaryOp::BitOr => 4,
            BinaryOp::BitXor => 5,
            BinaryOp::BitAnd => 6,
            BinaryOp::CmpEq | BinaryOp::CmpNe => 7,
            BinaryOp::CmpLt | BinaryOp::CmpGt | BinaryOp::CmpLe | BinaryOp::CmpGe => 8,
            BinaryOp::LeftShift | BinaryOp::RightShift => 9,
            BinaryOp::Add | BinaryOp::Sub => 10,
            BinaryOp::Mul | BinaryOp::Div => 11,
        }
    }

    /// Whether the operator chains to the right; see `spec_right_assoc`.
    pub fn is_right_assoc(self) -> (r: bool)
        ensures
            r == spec_right_assoc(self),
    {
        self.precedence() == 1
    }
}

} // verus!
