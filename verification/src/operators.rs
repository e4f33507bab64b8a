//! Operators as they are written in source text and as they are typed.

use vstd::prelude::*;

verus! {

/// An operator as the lexer sees it, before its operand types are known.
#[derive(PartialEq, Eq, Structural, Hash, Debug, Clone, Copy)]
pub enum SyntacticOperator {
    Add,
    /// Binary subtraction or unary minus.
    Sub,
    Mul,
    Div,
    Mod,
    Eq,
    Neq,
    Lt,
    Le,
    Gt,
    Ge,
    And,
    Or,
    Xor,
    Neg,
}

/// A binary operator whose operand family has been fixed.
#[derive(PartialEq, Eq, Structural, Hash, Debug, Clone, Copy)]
pub enum SemanticBinaryOperator {
    RealAdd,
    RealSub,
    RealMul,
    RealDiv,
    RealLe,
    RealLg,
    RealGt,
    RealGe,
    RealEq,
    RealNeq,
    IntAdd,
    IntSub,
    IntMul,
    IntDiv,
    IntMod,
    IntLe,
    IntLg,
    IntGt,
    IntGe,
    IntEq,
    IntNeq,
    BoolAnd,
    BoolXor,
    BoolOr,
}

/// A unary operator whose operand type has been fixed.
#[derive(PartialEq, Eq, Structural, Hash, Debug, Clone, Copy)]
pub enum SemanticUnaryOperator {
    IntNeg,
    RealNeg,
    BoolNeg,
}

impl SyntacticOperator {
    /// The variant's name, as a sequence of characters.
    pub open spec fn spec_name(self) -> Seq<char> {
        match self {
            SyntacticOperator::Add => "Add"@,
            SyntacticOperator::Sub => "Sub"@,
            SyntacticOperator::Mul => "Mul"@,
            SyntacticOperator::Div => "Div"@,
            SyntacticOperator::Mod => "Mod"@,
            SyntacticOperator::Eq => "Eq"@,
            SyntacticOperator::Neq => "Neq"@,
            SyntacticOperator::Lt => "Lt"@,
            SyntacticOperator::Le => "Le"@,
            SyntacticOperator::Gt => "Gt"@,
            SyntacticOperator::Ge => "Ge"@,
            SyntacticOperator::And => "And"@,
            SyntacticOperator::Or => "Or"@,
            SyntacticOperator::Xor => "Xor"@,
            SyntacticOperator::Neg => "Neg"@,
        }
    }

    /// The variant's name.
    pub fn name(&self) -> (text: &'static str)
        ensures
            text@ == self.spec_name(),
    {
        match self {
            SyntacticOperator::Add => "Add",
            SyntacticOperator::Sub => "Sub",
            SyntacticOperator::Mul => "Mul",
            SyntacticOperator::Div => "Div",
            SyntacticOperator::Mod => "Mod",
            SyntacticOperator::Eq => "Eq",
            SyntacticOperator::Neq => "Neq",
            SyntacticOperator::Lt => "Lt",
            SyntacticOperator::Le => "Le",
            SyntacticOperator::Gt => "Gt",
            SyntacticOperator::Ge => "Ge",
            SyntacticOperator::And => "And",
            SyntacticOperator::Or => "Or",
            SyntacticOperator::Xor => "Xor",
            SyntacticOperator::Neg => "Neg",
        }
    }
}

} // verus!
