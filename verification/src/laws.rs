//! Laws of the interpreter: what holds of the operators, of the variables
//! and of calls, whatever the program.

use crate::engine::{Brace, Effect, Machine};
use crate::error::Error;
use crate::scope::{bind, lookup, Scope};
use crate::stack::{
    add_spec, div_spec, equal_spec, fits, greater_spec, index_spec, less_spec, magnitude,
    mul_spec, quotient, reduce, sub_spec,
};
use crate::text::{decimal, decimal_value, is_digit};
use crate::token::{Action, Token};
use crate::value::{rendering, Value};
use vstd::prelude::*;

verus! {

/// The quotient is the one of division with truncation: its product with
/// the divisor is no further from zero than the dividend, falls short of it
/// by less than the divisor, and what is left over has the sign of the
/// dividend.
pub proof fn lemma_quotient_truncates(a: int, b: int)
    requires
        b != 0,
    ensures
        magnitude(a - quotient(a, b) * b) < magnitude(b),
        a >= 0 ==> a - quotient(a, b) * b >= 0,
        a <= 0 ==> a - quotient(a, b) * b <= 0,
{
    let m = magnitude(a);
    let n = magnitude(b);
    let q = m / n;
    vstd::arithmetic::div_mod::lemma_fundamental_div_mod(m, n);
    vstd::arithmetic::div_mod::lemma_mod_bound(m, n);
    assert(quotient(a, b) * b == if a < 0 {
        -(n * q)
    } else {
        n * q
    }) by (nonlinear_arith)
        requires
            n == magnitude(b),
            q == magnitude(a) / n,
            b != 0,
    {
    }
}

/// On two integers Add, Sub, Mul and Div put the sum, the difference, the
/// product and the truncated quotient in place of the operands, the left-hand
/// operand being the one below the top, whenever the result fits in 32 bits.
/// A result that does not fit, and a divisor of zero, make the operator fail.
pub proof fn lemma_arithmetic(s: Seq<Value>, a: int, b: int)
    ensures
        add_spec(s.push(Value::Int(a)).push(Value::Int(b))) == if fits(a + b) {
            Ok::<Seq<Value>, Error>(s.push(Value::Int(a + b)))
        } else {
            Err(Error::Overflow)
        },
        sub_spec(s.push(Value::Int(a)).push(Value::Int(b))) == if fits(a - b) {
            Ok::<Seq<Value>, Error>(s.push(Value::Int(a - b)))
        } else {
            Err(Error::Overflow)
        },
        mul_spec(s.push(Value::Int(a)).push(Value::Int(b))) == if fits(a * b) {
            Ok::<Seq<Value>, Error>(s.push(Value::Int(a * b)))
        } else {
            Err(Error::Overflow)
        },
        div_spec(s.push(Value::Int(a)).push(Value::Int(b))) == if b == 0 {
            Err::<Seq<Value>, Error>(Error::DivisionByZero)
        } else if fits(quotient(a, b)) {
            Ok(s.push(Value::Int(quotient(a, b))))
        } else {
            Err(Error::Overflow)
        },
{
    let full = s.push(Value::Int(a)).push(Value::Int(b));
    assert(full.take(full.len() - 2) =~= s);
}

/// Add on two operands of which at least one is a text puts the rendering
/// of the left-hand operand, followed by that of the right-hand one, in
/// their place: two texts are joined in the order in which they were pushed.
pub proof fn lemma_concatenation(s: Seq<Value>, a: Value, b: Value)
    requires
        a is Text || b is Text,
    ensures
        add_spec(s.push(a).push(b)) == Ok::<Seq<Value>, Error>(
            s.push(Value::Text(rendering(a) + rendering(b))),
        ),
        a is Text && b is Text ==> rendering(a) + rendering(b) == a->Text_0 + b->Text_0,
{
    let full = s.push(a).push(b);
    assert(full.take(full.len() - 2) =~= s);
}

/// LessThan and GreaterThan on two integers say whether the left-hand
/// operand, the one below the top, is less or greater than the right-hand
/// one; Equal and NotEqual say whether the two are the same.
pub proof fn lemma_comparison(s: Seq<Value>, a: int, b: int)
    ensures
        less_spec(s.push(Value::Int(a)).push(Value::Int(b))) == Ok::<Seq<Value>, Error>(
            s.push(Value::Bool(a < b)),
        ),
        greater_spec(s.push(Value::Int(a)).push(Value::Int(b))) == Ok::<Seq<Value>, Error>(
            s.push(Value::Bool(a > b)),
        ),
        equal_spec(s.push(Value::Int(a)).push(Value::Int(b)), false) == Ok::<Seq<Value>, Error>(
            s.push(Value::Bool(a == b)),
        ),
        equal_spec(s.push(Value::Int(a)).push(Value::Int(b)), true) == Ok::<Seq<Value>, Error>(
            s.push(Value::Bool(a != b)),
        ),
{
    let full = s.push(Value::Int(a)).push(Value::Int(b));
    assert(full.take(full.len() - 2) =~= s);
}

/// Index on a text and an integer puts the character at that position,
/// counted from zero, in their place, and fails for a position that is
/// negative or not below the length of the text.
pub proof fn lemma_index(s: Seq<Value>, t: Seq<char>, i: int)
    ensures
        index_spec(s.push(Value::Text(t)).push(Value::Int(i))) == if 0 <= i < t.len() {
            Ok::<Seq<Value>, Error>(s.push(Value::Text(seq![t[i]])))
        } else {
            Err(Error::IndexOutOfRange)
        },
{
    let full = s.push(Value::Text(t)).push(Value::Int(i));
    assert(full.take(full.len() - 2) =~= s);
}

/// The decimal notation of a number is made of digits, and read as a
/// number it gives the number back: what Print writes for an integer that
/// is not negative is a literal of that integer.
pub proof fn lemma_decimal_round_trip(n: nat)
    ensures
        decimal(n).len() >= 1,
        forall|i: int| 0 <= i < decimal(n).len() ==> is_digit(#[trigger] decimal(n)[i]),
        decimal_value(decimal(n)) == n,
    decreases n,
{
    if n < 10 {
        assert(decimal(n).drop_last() =~= Seq::<char>::empty());
        assert(decimal_value(Seq::<char>::empty()) == 0);
    } else {
        lemma_decimal_round_trip(n / 10);
        assert(decimal(n).drop_last() =~= decimal(n / 10));
    }
}

/// Whether a token is an integer literal or one of the four arithmetic
/// operators.
pub open spec fn arithmetic(t: Token) -> bool {
    ||| t matches Token::Literal(v) && v is Int
    ||| t == Token::Action(Action::Add)
    ||| t == Token::Action(Action::Sub)
    ||| t == Token::Action(Action::Mul)
    ||| t == Token::Action(Action::Div)
}

/// What a calculator in reverse Polish notation makes of a token: a number
/// goes on the stack; an operator takes the right-hand operand from the
/// top and the left-hand one from below it, and puts the result in their
/// place. There is no result where operands are missing, where the divisor
/// is zero, or where the result does not fit in 32 bits.
pub open spec fn calculate(stack: Seq<int>, t: Token) -> Option<Seq<int>> {
    match t {
        Token::Literal(Value::Int(i)) => Some(stack.push(i)),
        Token::Action(a) => if stack.len() < 2 {
            None
        } else {
            let x = stack[stack.len() - 2];
            let y = stack.last();
            let r = match a {
                Action::Add => Some(x + y),
                Action::Sub => Some(x - y),
                Action::Mul => Some(x * y),
                Action::Div => if y == 0 {
                    None
                } else {
                    Some(quotient(x, y))
                },
                _ => None,
            };
            match r {
                Some(v) => if fits(v) {
                    Some(stack.take(stack.len() - 2).push(v))
                } else {
                    None
                },
                None => None,
            }
        },
        _ => None,
    }
}

/// What the calculator makes of a sequence of tokens, taken from first to
/// last.
pub open spec fn calculate_all(stack: Seq<int>, tokens: Seq<Token>) -> Option<Seq<int>>
    decreases tokens.len(),
{
    if tokens.len() == 0 {
        Some(stack)
    } else {
        match calculate(stack, tokens.first()) {
            Some(s) => calculate_all(s, tokens.drop_first()),
            None => None,
        }
    }
}

/// The state in which the machine is after the tokens are applied one
/// after the other, if none of them fails.
pub open spec fn apply_all(m: Machine, tokens: Seq<Token>) -> Option<Machine>
    decreases tokens.len(),
{
    if tokens.len() == 0 {
        Some(m)
    } else {
        match m.apply(tokens.first()) {
            Effect::Next { machine, .. } => apply_all(machine, tokens.drop_first()),
            _ => None,
        }
    }
}

/// A stack of integers as a stack of values.
pub open spec fn integers(s: Seq<int>) -> Seq<Value> {
    Seq::new(s.len(), |i: int| Value::Int(s[i]))
}

/// On integer literals and the four arithmetic operators, in any number and
/// order, the machine computes what the calculator computes, and fails
/// where the calculator has no result. Nothing but the operand stack changes.
pub proof fn lemma_machine_calculates(m: Machine, stack: Seq<int>, tokens: Seq<Token>)
    requires
        m.stack == integers(stack),
        forall|i: int| 0 <= i < tokens.len() ==> arithmetic(#[trigger] tokens[i]),
    ensures
        match calculate_all(stack, tokens) {
            Some(result) => apply_all(m, tokens) == Some(Machine { stack: integers(result), ..m }),
            None => apply_all(m, tokens) is None,
        },
    decreases tokens.len(),
{
    if tokens.len() > 0 {
        let t = tokens.first();
        let rest = tokens.drop_first();
        assert forall|i: int| 0 <= i < rest.len() implies arithmetic(#[trigger] rest[i]) by {
            assert(rest[i] == tokens[i + 1]);
        }
        match t {
            Token::Literal(v) => {
                let i = v->Int_0;
                assert(integers(stack.push(i)) =~= m.stack.push(v));
                lemma_machine_calculates(
                    Machine { stack: m.stack.push(v), ..m },
                    stack.push(i),
                    rest,
                );
            },
            Token::Action(a) => {
                if stack.len() >= 2 {
                    match calculate(stack, t) {
                        Some(after) => {
                            assert(integers(after) =~= reduce(m.stack, Value::Int(after.last())));
                            lemma_machine_calculates(
                                Machine { stack: integers(after), ..m },
                                after,
                                rest,
                            );
                        },
                        None => {},
                    }
                }
            },
            _ => {},
        }
    }
}

/// A name that is bound has, from then on, the value it was bound to, and
/// binding it changes the value of no other name and no outer scope.
pub proof fn lemma_lookup_bind(scopes: Seq<Scope>, name: Seq<char>, value: Value, other: Seq<char>)
    requires
        scopes.len() > 0,
    ensures
        lookup(bind(scopes, name, value), name) == Some(value),
        other != name ==> lookup(bind(scopes, name, value), other) == lookup(scopes, other),
        bind(scopes, name, value).drop_last() == scopes.drop_last(),
{
    let bound = bind(scopes, name, value);
    assert(bound.drop_last() =~= scopes.drop_last());
}

/// The state after the value on top of the stack was assigned to `name`
/// and `name` was accessed: the name is bound, and nothing else has changed.
pub open spec fn assigned(m: Machine, name: Seq<char>) -> Machine {
    Machine { scopes: bind(m.scopes, name, m.stack.last()), ..m }
}

/// Assign and then access: the value that was assigned is back on top of
/// the stack, which is as it was before. A name that is neither a variable
/// nor a function fails as unknown.
pub proof fn lemma_assign_then_access(m: Machine, name: Seq<char>)
    requires
        m.scopes.len() > 0,
    ensures
        m.stack.len() > 0 ==> (m.act(Action::Assign(name)) matches Effect::Next {
            machine,
            output,
        } && output is None && machine.act(Action::Access(name)) == assigned(m, name).go()),
        lookup(m.scopes, name) is None && !m.funcs.contains_key(name) ==> m.act(
            Action::Access(name),
        ) == Effect::Fail(Error::UnknownName),
{
    if m.stack.len() > 0 {
        let v = m.stack.last();
        lemma_lookup_bind(m.scopes, name, v, name);
    }
}

/// The state right after the function `name` was called in the state `m`:
/// the cursor stands in front of the body, a fresh scope is open, and the
/// cursor of the call is kept.
pub open spec fn called(m: Machine, name: Seq<char>) -> Machine {
    Machine {
        cursor: m.funcs[name] as int,
        scopes: m.scopes.push(Map::empty()),
        call_pending: Some(m.cursor as usize),
        ..m
    }
}

/// The state after the opening brace of the body of a function that was
/// called: a function frame holds the cursor of the call.
pub open spec fn entered(m: Machine) -> Machine {
    Machine {
        frames: m.frames.push(Brace::OpenFunc(m.call_pending->0)),
        call_pending: None,
        ..m
    }
}

/// The state after the return to the cursor `ret` from the state `body`:
/// the scope and the frame of the call are gone, and the operand stack is
/// as the body left it.
pub open spec fn returned(body: Machine, ret: usize) -> Machine {
    Machine {
        cursor: ret as int,
        scopes: body.scopes.drop_last(),
        frames: body.frames.drop_last(),
        ..body
    }
}

/// A call and its return. A name that is no variable but a function is
/// called: a fresh scope is opened, the cursor jumps in front of the body,
/// and the cursor of the call is kept. The opening brace of the body makes a
/// function frame of it. The closing brace that finds this frame on top
/// returns to the cursor of the call, drops the scope and the frame, and
/// leaves the operand stack as the body left it.
pub proof fn lemma_call_and_return(m: Machine, name: Seq<char>, body: Machine)
    requires
        lookup(m.scopes, name) is None,
        m.funcs.contains_key(name),
        !m.loop_pending,
        0 <= m.cursor <= usize::MAX,
        body.frames == entered(called(m, name)).frames,
    ensures
        m.act(Action::Access(name)) == called(m, name).go(),
        called(m, name).scopes.last() == Map::<Seq<char>, Value>::empty(),
        called(m, name).open() == entered(called(m, name)).go(),
        body.close() == returned(body, m.cursor as usize).go(),
        returned(body, m.cursor as usize).cursor == m.cursor,
        returned(body, m.cursor as usize).frames == m.frames,
        returned(body, m.cursor as usize).stack == body.stack,
{
}

} // verus!
