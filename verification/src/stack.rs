//! The operand stack and the operators.
//!
//! Every operator of two operands takes the right-hand one from the top of
//! the stack and the left-hand one from below it, so that the source `a b OP`
//! computes `a OP b`, and puts one result in their place. An operator that
//! fails leaves the stack as it was.

use crate::error::Error;
use crate::lexer::{scan, skip_from, Lexer, Scan};
use crate::scope::{bind, lookup, VarStore};
use crate::token::{Glyph, Op, Token};
use crate::value::{rendering, Operand, Value};
use vstd::prelude::*;
use vstd::string::{StrSliceExecFns, StringExecFns};

verus! {

/// Whether an integer fits in 32 bits with a sign.
pub open spec fn fits(i: int) -> bool {
    i32::MIN <= i <= i32::MAX
}

/// The absolute value.
pub open spec fn magnitude(i: int) -> int {
    if i < 0 {
        -i
    } else {
        i
    }
}

/// The quotient of `a` by `b`, rounded toward zero.
pub open spec fn quotient(a: int, b: int) -> int
    recommends
        b != 0,
{
    let q = magnitude(a) / magnitude(b);
    if (a < 0) != (b < 0) {
        -q
    } else {
        q
    }
}

/// The stack with its two topmost values replaced by `v`.
pub open spec fn reduce(s: Seq<Value>, v: Value) -> Seq<Value>
    recommends
        s.len() >= 2,
{
    s.take(s.len() - 2).push(v)
}

/// The operands of an operator that takes two integers, the left-hand one
/// first. The top of the stack is looked at before the value below it.
pub open spec fn int_operands(s: Seq<Value>) -> Result<(int, int), Error> {
    if s.len() == 0 {
        Err(Error::StackUnderflow)
    } else if !(s.last() is Int) {
        Err(Error::TypeMismatch)
    } else if s.len() == 1 {
        Err(Error::StackUnderflow)
    } else if !(s[s.len() - 2] is Int) {
        Err(Error::TypeMismatch)
    } else {
        Ok((s[s.len() - 2]->Int_0, s.last()->Int_0))
    }
}

/// The stack after an operator on two integers whose result is `v`.
pub open spec fn int_result(s: Seq<Value>, v: Result<Value, Error>) -> Result<Seq<Value>, Error> {
    match v {
        Ok(v) => Ok(reduce(s, v)),
        Err(e) => Err(e),
    }
}

/// `a + b`: the sum of two integers; the two renderings one behind the other
/// where at least one operand is a text; no other pair is accepted.
pub open spec fn sum(a: Value, b: Value) -> Result<Value, Error> {
    if a is Int && b is Int {
        if fits(a->Int_0 + b->Int_0) {
            Ok(Value::Int(a->Int_0 + b->Int_0))
        } else {
            Err(Error::Overflow)
        }
    } else if a is Text || b is Text {
        Ok(Value::Text(rendering(a) + rendering(b)))
    } else {
        Err(Error::TypeMismatch)
    }
}

/// Whether two values are equal. Only two values of the same type can be
/// compared.
pub open spec fn same(a: Value, b: Value) -> Result<bool, Error> {
    if (a is Int && b is Int) || (a is Bool && b is Bool) || (a is Text && b is Text) {
        Ok(a == b)
    } else {
        Err(Error::TypeMismatch)
    }
}

/// The stack after Add.
pub open spec fn add_spec(s: Seq<Value>) -> Result<Seq<Value>, Error> {
    if s.len() < 2 {
        Err(Error::StackUnderflow)
    } else {
        int_result(s, sum(s[s.len() - 2], s.last()))
    }
}

/// The stack after Sub.
pub open spec fn sub_spec(s: Seq<Value>) -> Result<Seq<Value>, Error> {
    match int_operands(s) {
        Ok((a, b)) => if fits(a - b) {
            Ok(reduce(s, Value::Int(a - b)))
        } else {
            Err(Error::Overflow)
        },
        Err(e) => Err(e),
    }
}

/// The stack after Mul.
pub open spec fn mul_spec(s: Seq<Value>) -> Result<Seq<Value>, Error> {
    match int_operands(s) {
        Ok((a, b)) => if fits(a * b) {
            Ok(reduce(s, Value::Int(a * b)))
        } else {
            Err(Error::Overflow)
        },
        Err(e) => Err(e),
    }
}

/// The stack after Div.
pub open spec fn div_spec(s: Seq<Value>) -> Result<Seq<Value>, Error> {
    match int_operands(s) {
        Ok((a, b)) => if b == 0 {
            Err(Error::DivisionByZero)
        } else if fits(quotient(a, b)) {
            Ok(reduce(s, Value::Int(quotient(a, b))))
        } else {
            Err(Error::Overflow)
        },
        Err(e) => Err(e),
    }
}

/// The stack after Equal (`negate` false) or NotEqual (`negate` true).
pub open spec fn equal_spec(s: Seq<Value>, negate: bool) -> Result<Seq<Value>, Error> {
    if s.len() < 2 {
        Err(Error::StackUnderflow)
    } else {
        match same(s[s.len() - 2], s.last()) {
            Ok(b) => Ok(reduce(s, Value::Bool(b != negate))),
            Err(e) => Err(e),
        }
    }
}

/// The stack after LessThan.
pub open spec fn less_spec(s: Seq<Value>) -> Result<Seq<Value>, Error> {
    match int_operands(s) {
        Ok((a, b)) => Ok(reduce(s, Value::Bool(a < b))),
        Err(e) => Err(e),
    }
}

/// The stack after GreaterThan.
pub open spec fn greater_spec(s: Seq<Value>) -> Result<Seq<Value>, Error> {
    match int_operands(s) {
        Ok((a, b)) => Ok(reduce(s, Value::Bool(a > b))),
        Err(e) => Err(e),
    }
}

/// The stack after Index: the text below the index gives up the character at
/// that position, counted from zero, as a text of its own.
pub open spec fn index_spec(s: Seq<Value>) -> Result<Seq<Value>, Error> {
    if s.len() == 0 {
        Err(Error::StackUnderflow)
    } else if !(s.last() is Int) {
        Err(Error::TypeMismatch)
    } else if s.len() == 1 {
        Err(Error::StackUnderflow)
    } else if !(s[s.len() - 2] is Text) {
        Err(Error::TypeMismatch)
    } else {
        let i = s.last()->Int_0;
        let t = s[s.len() - 2]->Text_0;
        if 0 <= i < t.len() {
            Ok(reduce(s, Value::Text(seq![t[i]])))
        } else {
            Err(Error::IndexOutOfRange)
        }
    }
}

/// The stack and the cursor after Conditional. The boolean on top of the
/// stack is taken off. Where it is true the run goes on into the body that
/// follows. Where it is false that body is skipped, and an else mark that
/// follows it directly is consumed, so that the body behind the mark runs.
pub open spec fn cond_spec(s: Seq<Value>, src: Seq<char>, cur: int) -> Result<
    (Seq<Value>, int),
    Error,
> {
    if s.len() == 0 {
        Err(Error::StackUnderflow)
    } else if !(s.last() is Bool) {
        Err(Error::TypeMismatch)
    } else if s.last()->Bool_0 {
        Ok((s.drop_last(), cur))
    } else {
        match skip_from(src, cur, 0) {
            Ok(behind) => match scan(src, behind) {
                Scan::Found { token, end } => if token == Token::Mark(Glyph::Else) {
                    Ok((s.drop_last(), end))
                } else {
                    Ok((s.drop_last(), behind))
                },
                Scan::Exhausted => Ok((s.drop_last(), behind)),
                Scan::Failed(e) => Err(e),
            },
            Err(e) => Err(e),
        }
    }
}

/// The line that Print writes: the rendering of the top of the stack, or an
/// underscore for an empty stack.
pub open spec fn top_line(s: Seq<Value>) -> Seq<char> {
    if s.len() == 0 {
        seq!['_']
    } else {
        rendering(s.last())
    }
}

/// What a vector of operands stands for.
pub open spec fn values(s: Seq<Operand>) -> Seq<Value> {
    Seq::new(s.len(), |i: int| s[i]@)
}

/// The operand stack. Its view is the sequence of its values, the top last.
pub struct OpStack {
    stack: Vec<Operand>,
}

impl View for OpStack {
    type V = Seq<Value>;

    closed spec fn view(&self) -> Seq<Value> {
        values(self.stack@)
    }
}

impl OpStack {
    /// An empty stack.
    pub fn new() -> (s: OpStack)
        ensures
            s@ == Seq::<Value>::empty(),
    {
        let s = OpStack { stack: Vec::new() };
        s
    }

    /// The number of values on the stack.
    pub fn len(&self) -> (n: usize)
        ensures
            n == self@.len(),
    {
        self.stack.len()
    }

    /// Puts `op` on top of the stack.
    pub fn push(&mut self, op: Operand)
        ensures
            final(self)@ == old(self)@.push(op@),
    {
        self.stack.push(op);
    }

    /// Takes the top of the stack off and returns it.
    pub fn pop(&mut self) -> (r: Result<Operand, Error>)
        ensures
            if old(self)@.len() > 0 {
                r matches Ok(v) && v@ == old(self)@.last() && final(self)@ == old(self)@.drop_last()
            } else {
                r matches Err(e) && e == Error::StackUnderflow && final(self)@ == old(self)@
            },
    {
        match self.stack.pop() {
            Some(o) => Ok(o),
            None => Err(Error::StackUnderflow),
        }
    }

    /// Takes the top of the stack off and drops it.
    pub fn silent_pop(&mut self) -> (r: Result<(), Error>)
        ensures
            if old(self)@.len() > 0 {
                r is Ok && final(self)@ == old(self)@.drop_last()
            } else {
                r == Err::<(), Error>(Error::StackUnderflow) && final(self)@ == old(self)@
            },
    {
        match self.pop() {
            Ok(_) => Ok(()),
            Err(e) => Err(e),
        }
    }

    /// Empties the stack.
    pub fn clear(&mut self)
        ensures
            final(self)@ == Seq::<Value>::empty(),
    {
        self.stack.clear();
    }

    /// The line that Print writes for this stack. The stack stays as it is.
    pub fn top_text(&self) -> (s: String)
        ensures
            s@ == top_line(self@),
    {
        let n = self.stack.len();
        if n == 0 {
            proof {
                reveal_strlit("_");
            }
            String::from_str("_")
        } else {
            self.stack[n - 1].render()
        }
    }

    fn replace_two(&mut self, v: Operand)
        requires
            old(self)@.len() >= 2,
        ensures
            final(self)@ == reduce(old(self)@, v@),
    {
        self.stack.pop();
        self.stack.pop();
        self.stack.push(v);
    }

    fn two_ints(&self) -> (r: Result<(i32, i32), Error>)
        ensures
            match int_operands(self@) {
                Ok((a, b)) => r matches Ok((x, y)) && x == a && y == b,
                Err(e) => r == Err::<(i32, i32), Error>(e),
            },
    {
        let n = self.stack.len();
        if n == 0 {
            return Err(Error::StackUnderflow);
        }
        let b = match &self.stack[n - 1] {
            Operand::Int(v) => *v,
            _ => {
                return Err(Error::TypeMismatch);
            },
        };
        if n == 1 {
            return Err(Error::StackUnderflow);
        }
        match &self.stack[n - 2] {
            Operand::Int(a) => Ok((*a, b)),
            _ => Err(Error::TypeMismatch),
        }
    }

    /// Add: the sum of two integers, or the concatenation of the renderings
    /// of the two operands where at least one of them is a text.
    pub fn add(&mut self) -> (r: Result<(), Error>)
        ensures
            match add_spec(old(self)@) {
                Ok(s) => r is Ok && final(self)@ == s,
                Err(e) => r == Err::<(), Error>(e) && final(self)@ == old(self)@,
            },
    {
        let n = self.stack.len();
        if n < 2 {
            return Err(Error::StackUnderflow);
        }
        let v = match (&self.stack[n - 2], &self.stack[n - 1]) {
            (Operand::Int(a), Operand::Int(b)) => match a.checked_add(*b) {
                Some(c) => Operand::Int(c),
                None => {
                    return Err(Error::Overflow);
                },
            },
            (Operand::Bool(_), Operand::Bool(_)) => {
                return Err(Error::TypeMismatch);
            },
            (Operand::Bool(_), Operand::Int(_)) => {
                return Err(Error::TypeMismatch);
            },
            (Operand::Int(_), Operand::Bool(_)) => {
                return Err(Error::TypeMismatch);
            },
            (a, b) => {
                let mut s = a.render();
                let t = b.render();
                s.append(t.as_str());
                Operand::String(s)
            },
        };
        self.replace_two(v);
        Ok(())
    }

    /// Sub: the difference of two integers.
    pub fn sub(&mut self) -> (r: Result<(), Error>)
        ensures
            match sub_spec(old(self)@) {
                Ok(s) => r is Ok && final(self)@ == s,
                Err(e) => r == Err::<(), Error>(e) && final(self)@ == old(self)@,
            },
    {
        let (a, b) = match self.two_ints() {
            Ok(p) => p,
            Err(e) => {
                return Err(e);
            },
        };
        match a.checked_sub(b) {
            Some(c) => {
                self.replace_two(Operand::Int(c));
                Ok(())
            },
            None => Err(Error::Overflow),
        }
    }

    /// Mul: the product of two integers.
    pub fn mul(&mut self) -> (r: Result<(), Error>)
        ensures
            match mul_spec(old(self)@) {
                Ok(s) => r is Ok && final(self)@ == s,
                Err(e) => r == Err::<(), Error>(e) && final(self)@ == old(self)@,
            },
    {
        let (a, b) = match self.two_ints() {
            Ok(p) => p,
            Err(e) => {
                return Err(e);
            },
        };
        match a.checked_mul(b) {
            Some(c) => {
                self.replace_two(Operand::Int(c));
                Ok(())
            },
            None => Err(Error::Overflow),
        }
    }

    /// Div: the quotient of two integers, rounded toward zero.
    pub fn div(&mut self) -> (r: Result<(), Error>)
        ensures
            match div_spec(old(self)@) {
                Ok(s) => r is Ok && final(self)@ == s,
                Err(e) => r == Err::<(), Error>(e) && final(self)@ == old(self)@,
            },
    {
        let (a, b) = match self.two_ints() {
            Ok(p) => p,
            Err(e) => {
                return Err(e);
            },
        };
        if b == 0 {
            return Err(Error::DivisionByZero);
        }
        match a.checked_div(b) {
            Some(c) => {
                self.replace_two(Operand::Int(c));
                Ok(())
            },
            None => Err(Error::Overflow),
        }
    }

    fn compare(&mut self, negate: bool) -> (r: Result<(), Error>)
        ensures
            match equal_spec(old(self)@, negate) {
                Ok(s) => r is Ok && final(self)@ == s,
                Err(e) => r == Err::<(), Error>(e) && final(self)@ == old(self)@,
            },
    {
        let n = self.stack.len();
        if n < 2 {
            return Err(Error::StackUnderflow);
        }
        let same = match (&self.stack[n - 2], &self.stack[n - 1]) {
            (Operand::Int(a), Operand::Int(b)) => *a == *b,
            (Operand::Bool(a), Operand::Bool(b)) => *a == *b,
            (Operand::String(a), Operand::String(b)) => *a == *b,
            _ => {
                return Err(Error::TypeMismatch);
            },
        };
        self.replace_two(Operand::Bool(same != negate));
        Ok(())
    }

    /// Equal: whether two values of the same type are equal.
    pub fn equal(&mut self) -> (r: Result<(), Error>)
        ensures
            match equal_spec(old(self)@, false) {
                Ok(s) => r is Ok && final(self)@ == s,
                Err(e) => r == Err::<(), Error>(e) && final(self)@ == old(self)@,
            },
    {
        self.compare(false)
    }

    /// NotEqual: whether two values of the same type differ.
    pub fn not_equal(&mut self) -> (r: Result<(), Error>)
        ensures
            match equal_spec(old(self)@, true) {
                Ok(s) => r is Ok && final(self)@ == s,
                Err(e) => r == Err::<(), Error>(e) && final(self)@ == old(self)@,
            },
    {
        self.compare(true)
    }

    /// LessThan on two integers.
    pub fn less_than(&mut self) -> (r: Result<(), Error>)
        ensures
            match less_spec(old(self)@) {
                Ok(s) => r is Ok && final(self)@ == s,
                Err(e) => r == Err::<(), Error>(e) && final(self)@ == old(self)@,
            },
    {
        match self.two_ints() {
            Ok((a, b)) => {
                self.replace_two(Operand::Bool(a < b));
                Ok(())
            },
            Err(e) => Err(e),
        }
    }

    /// GreaterThan on two integers.
    pub fn greater_than(&mut self) -> (r: Result<(), Error>)
        ensures
            match greater_spec(old(self)@) {
                Ok(s) => r is Ok && final(self)@ == s,
                Err(e) => r == Err::<(), Error>(e) && final(self)@ == old(self)@,
            },
    {
        match self.two_ints() {
            Ok((a, b)) => {
                self.replace_two(Operand::Bool(a > b));
                Ok(())
            },
            Err(e) => Err(e),
        }
    }

    /// Index: the character of a text at a position, as a text of its own.
    pub fn get_index(&mut self) -> (r: Result<(), Error>)
        ensures
            match index_spec(old(self)@) {
                Ok(s) => r is Ok && final(self)@ == s,
                Err(e) => r == Err::<(), Error>(e) && final(self)@ == old(self)@,
            },
    {
        let n = self.stack.len();
        if n == 0 {
            return Err(Error::StackUnderflow);
        }
        let index = match &self.stack[n - 1] {
            Operand::Int(v) => *v,
            _ => {
                return Err(Error::TypeMismatch);
            },
        };
        if n == 1 {
            return Err(Error::StackUnderflow);
        }
        let v = match &self.stack[n - 2] {
            Operand::String(t) => {
                if index < 0 {
                    return Err(Error::IndexOutOfRange);
                }
                let i = index as usize;
                if i >= t.as_str().unicode_len() {
                    return Err(Error::IndexOutOfRange);
                }
                let mut s = String::new();
                s.push(t.as_str().get_char(i));
                Operand::String(s)
            },
            _ => {
                return Err(Error::TypeMismatch);
            },
        };
        self.replace_two(v);
        Ok(())
    }

    /// Conditional: takes a boolean off the stack and, where it is false,
    /// moves the cursor of `lex` behind the body that follows and behind an
    /// else mark that follows that body.
    pub fn cond(&mut self, lex: &mut Lexer) -> (r: Result<(), Error>)
        ensures
            final(lex).source() == old(lex).source(),
            match cond_spec(old(self)@, old(lex).source(), old(lex).cursor()) {
                Ok((s, cur)) => r is Ok && final(self)@ == s && final(lex).cursor() == cur,
                Err(e) => {
                    &&& r == Err::<(), Error>(e)
                    &&& final(self)@ == old(self)@
                    &&& final(lex).cursor() == old(lex).cursor()
                },
            },
    {
        let n = self.stack.len();
        if n == 0 {
            return Err(Error::StackUnderflow);
        }
        let v = match &self.stack[n - 1] {
            Operand::Bool(v) => *v,
            _ => {
                return Err(Error::TypeMismatch);
            },
        };
        if !v {
            let start = lex.position();
            match lex.exit_body() {
                Ok(()) => {},
                Err(e) => {
                    return Err(e);
                },
            }
            match lex.peek() {
                Ok(Some(Op::Glyph(Glyph::Else))) => {
                    let _ = lex.next();
                },
                Ok(_) => {},
                Err(e) => {
                    lex.jump(start);
                    return Err(e);
                },
            }
        }
        self.stack.pop();
        Ok(())
    }

    /// Assign: takes the top of the stack off and binds it to `name` in the
    /// innermost scope of `var_store`.
    pub fn assign(&mut self, var_store: &mut VarStore, name: String) -> (r: Result<(), Error>)
        ensures
            final(var_store).funcs() == old(var_store).funcs(),
            if old(self)@.len() > 0 {
                &&& r is Ok
                &&& final(self)@ == old(self)@.drop_last()
                &&& final(var_store).scopes() == bind(
                    old(var_store).scopes(),
                    name@,
                    old(self)@.last(),
                )
            } else {
                &&& r == Err::<(), Error>(Error::EmptyAssign)
                &&& final(self)@ == old(self)@
                &&& final(var_store).scopes() == old(var_store).scopes()
            },
    {
        match self.pop() {
            Ok(val) => {
                var_store.set_var(name, val);
                Ok(())
            },
            Err(_) => Err(Error::EmptyAssign),
        }
    }

    /// Access: pushes a copy of the value of the variable `name`, if there is
    /// one, and says whether there was.
    pub fn access(&mut self, var_store: &mut VarStore, name: &str) -> (found: bool)
        ensures
            final(var_store).scopes() == old(var_store).scopes(),
            final(var_store).funcs() == old(var_store).funcs(),
            match lookup(old(var_store).scopes(), name@) {
                Some(v) => found && final(self)@ == old(self)@.push(v),
                None => !found && final(self)@ == old(self)@,
            },
    {
        match var_store.get_var(name) {
            Some(v) => {
                self.push(v);
                true
            },
            None => false,
        }
    }
}

} // verus!
