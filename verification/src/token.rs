//! The tokens that the tokenizer produces.

use crate::value::{Operand, Value};
use vstd::prelude::*;
use vstd::std_specs::cmp::PartialEqSpecImpl;

verus! {

/// An action on the operand stack, the variables or the flow of control.
#[derive(Debug)]
pub enum Operator {
    /// `+`: the sum of two integers, or two renderings joined to a text.
    Add,
    /// `-`: the difference of two integers.
    Sub,
    /// `*`: the product of two integers.
    Mul,
    /// `/`: the quotient of two integers, rounded toward zero.
    Div,
    /// `.`: write out the top of the stack, which stays where it is.
    Print,
    /// `==`: whether two values of one type are equal.
    Equal,
    /// `!=`: whether two values of one type differ.
    NotEqual,
    /// `<` on two integers.
    LessThan,
    /// `>` on two integers.
    GreaterThan,
    /// `?`: the conditional. It takes a boolean off the stack and skips the
    /// body that follows where the boolean is false.
    Cond,
    /// `,`: take the top of the stack off and drop it.
    Pop,
    /// `;`: empty the stack.
    Clear,
    /// `=name`: bind the top of the stack to the name.
    Assign(String),
    /// `name`: push the variable of that name, or call the function of that
    /// name.
    Access(String),
    /// `[]`: the character of a text at a position.
    Index,
}

/// A structural mark.
#[derive(Clone, Copy, Debug, PartialEq, Eq, Structural)]
pub enum Glyph {
    /// `{`: opens a body.
    OpenSquiggle,
    /// `}`: closes a body.
    CloseSquiggle,
    /// `~`: the body that follows is the body of a loop.
    Loop,
    /// `$`: leave the innermost loop or function.
    Break,
    /// `:`: the body that follows is the other branch of a conditional.
    Else,
    /// `#`: a name and the body of the function of that name follow.
    Define,
}

/// One token: a literal, an action or a structural mark.
#[derive(Debug)]
pub enum Op {
    Operand(Operand),
    Operator(Operator),
    Glyph(Glyph),
}

/// What an [`Operator`] stands for.
pub enum Action {
    Add,
    Sub,
    Mul,
    Div,
    Print,
    Equal,
    NotEqual,
    LessThan,
    GreaterThan,
    Cond,
    Pop,
    Clear,
    Assign(Seq<char>),
    Access(Seq<char>),
    Index,
}

/// What an [`Op`] stands for.
pub enum Token {
    Literal(Value),
    Action(Action),
    Mark(Glyph),
}

impl View for Operator {
    type V = Action;

    open spec fn view(&self) -> Action {
        match *self {
            Operator::Add => Action::Add,
            Operator::Sub => Action::Sub,
            Operator::Mul => Action::Mul,
            Operator::Div => Action::Div,
            Operator::Print => Action::Print,
            Operator::Equal => Action::Equal,
            Operator::NotEqual => Action::NotEqual,
            Operator::LessThan => Action::LessThan,
            Operator::GreaterThan => Action::GreaterThan,
            Operator::Cond => Action::Cond,
            Operator::Pop => Action::Pop,
            Operator::Clear => Action::Clear,
            Operator::Assign(name) => Action::Assign(name@),
            Operator::Access(name) => Action::Access(name@),
            Operator::Index => Action::Index,
        }
    }
}

impl View for Op {
    type V = Token;

    open spec fn view(&self) -> Token {
        match *self {
            Op::Operand(o) => Token::Literal(o@),
            Op::Operator(o) => Token::Action(o@),
            Op::Glyph(g) => Token::Mark(g),
        }
    }
}

impl PartialEq for Operator {
    fn eq(&self, other: &Operator) -> (r: bool) {
        match (self, other) {
            (Operator::Add, Operator::Add) => true,
            (Operator::Sub, Operator::Sub) => true,
            (Operator::Mul, Operator::Mul) => true,
            (Operator::Div, Operator::Div) => true,
            (Operator::Print, Operator::Print) => true,
            (Operator::Equal, Operator::Equal) => true,
            (Operator::NotEqual, Operator::NotEqual) => true,
            (Operator::LessThan, Operator::LessThan) => true,
            (Operator::GreaterThan, Operator::GreaterThan) => true,
            (Operator::Cond, Operator::Cond) => true,
            (Operator::Pop, Operator::Pop) => true,
            (Operator::Clear, Operator::Clear) => true,
            (Operator::Assign(a), Operator::Assign(b)) => *a == *b,
            (Operator::Access(a), Operator::Access(b)) => *a == *b,
            (Operator::Index, Operator::Index) => true,
            _ => false,
        }
    }
}

impl PartialEqSpecImpl for Operator {
    open spec fn obeys_eq_spec() -> bool {
        true
    }

    open spec fn eq_spec(&self, other: &Operator) -> bool {
        self@ == other@
    }
}

impl PartialEq for Op {
    fn eq(&self, other: &Op) -> (r: bool) {
        match (self, other) {
            (Op::Operand(a), Op::Operand(b)) => *a == *b,
            (Op::Operator(a), Op::Operator(b)) => *a == *b,
            (Op::Glyph(a), Op::Glyph(b)) => *a == *b,
            _ => false,
        }
    }
}

impl PartialEqSpecImpl for Op {
    open spec fn obeys_eq_spec() -> bool {
        true
    }

    open spec fn eq_spec(&self, other: &Op) -> bool {
        self@ == other@
    }
}

} // verus!
