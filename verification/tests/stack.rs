//! The operand stack and the operators, one call at a time.

use stacklang::lexer::Lexer;
use stacklang::scope::VarStore;
use stacklang::stack::OpStack;
use stacklang::{Error, Glyph, Op, Operand};

fn stack(values: Vec<Operand>) -> OpStack {
    let mut s = OpStack::new();
    for v in values {
        s.push(v);
    }
    s
}

/// Takes all values off the stack, the top first.
fn drain(s: &mut OpStack) -> Vec<Operand> {
    let mut out = Vec::new();
    while let Ok(v) = s.pop() {
        out.push(v);
    }
    out
}

fn num(i: i32) -> Operand {
    Operand::Int(i)
}

fn text(s: &str) -> Operand {
    Operand::String(s.to_string())
}

#[test]
fn a_new_stack_is_empty() {
    let mut s = OpStack::new();
    assert_eq!(s.len(), 0);
    assert_eq!(s.pop(), Err(Error::StackUnderflow));
    assert_eq!(s.silent_pop(), Err(Error::StackUnderflow));
    assert_eq!(s.top_text(), "_");
}

#[test]
fn push_and_pop_are_last_in_first_out() {
    let mut s = stack(vec![num(1), Operand::Bool(true), text("x")]);
    assert_eq!(s.len(), 3);
    assert_eq!(s.pop(), Ok(text("x")));
    assert_eq!(s.pop(), Ok(Operand::Bool(true)));
    assert_eq!(s.pop(), Ok(num(1)));
    assert_eq!(s.pop(), Err(Error::StackUnderflow));
}

#[test]
fn silent_pop_drops_the_top() {
    let mut s = stack(vec![num(1), num(2)]);
    assert_eq!(s.silent_pop(), Ok(()));
    assert_eq!(drain(&mut s), vec![num(1)]);
}

#[test]
fn clear_empties_the_stack() {
    let mut s = stack(vec![num(1), num(2)]);
    s.clear();
    assert_eq!(s.len(), 0);
    s.clear();
    assert_eq!(s.len(), 0);
}

#[test]
fn top_text_renders_the_top() {
    assert_eq!(stack(vec![num(1), num(-25)]).top_text(), "-25");
    assert_eq!(stack(vec![num(0)]).top_text(), "0");
    assert_eq!(stack(vec![num(i32::MAX)]).top_text(), "2147483647");
    assert_eq!(stack(vec![num(i32::MIN)]).top_text(), "-2147483648");
    assert_eq!(stack(vec![Operand::Bool(true)]).top_text(), "true");
    assert_eq!(stack(vec![Operand::Bool(false)]).top_text(), "false");
    assert_eq!(stack(vec![text("a b")]).top_text(), "a b");
    assert_eq!(stack(vec![text("")]).top_text(), "");
}

#[test]
fn render_writes_a_value_out() {
    assert_eq!(num(1000).render(), "1000");
    assert_eq!(num(-7).render(), "-7");
    assert_eq!(num(10).render(), "10");
    assert_eq!(Operand::Bool(true).render(), "true");
    assert_eq!(text("x").render(), "x");
}

#[test]
fn a_clone_is_equal_to_the_value_it_was_made_from() {
    let t = text("abc");
    assert_eq!(t.clone(), t);
    assert_eq!(num(3).clone(), num(3));
    assert_ne!(num(3), num(4));
    assert_ne!(num(1), Operand::Bool(true));
    assert_ne!(text("1"), num(1));
}

#[test]
fn add_on_integers() {
    let mut s = stack(vec![num(9), num(3), num(4)]);
    assert_eq!(s.add(), Ok(()));
    assert_eq!(drain(&mut s), vec![num(7), num(9)]);
}

#[test]
fn add_fails_on_overflow_and_keeps_the_stack() {
    let mut s = stack(vec![num(i32::MAX), num(1)]);
    assert_eq!(s.add(), Err(Error::Overflow));
    assert_eq!(drain(&mut s), vec![num(1), num(i32::MAX)]);
    let mut s = stack(vec![num(i32::MIN), num(-1)]);
    assert_eq!(s.add(), Err(Error::Overflow));
}

#[test]
fn add_joins_with_a_text() {
    let mut s = stack(vec![text("foo"), text("bar")]);
    assert_eq!(s.add(), Ok(()));
    assert_eq!(drain(&mut s), vec![text("foobar")]);
    let mut s = stack(vec![text("n"), num(-3)]);
    assert_eq!(s.add(), Ok(()));
    assert_eq!(drain(&mut s), vec![text("n-3")]);
    let mut s = stack(vec![num(12), text("n")]);
    assert_eq!(s.add(), Ok(()));
    assert_eq!(drain(&mut s), vec![text("12n")]);
    let mut s = stack(vec![Operand::Bool(true), text("!")]);
    assert_eq!(s.add(), Ok(()));
    assert_eq!(drain(&mut s), vec![text("true!")]);
    let mut s = stack(vec![text("is "), Operand::Bool(false)]);
    assert_eq!(s.add(), Ok(()));
    assert_eq!(drain(&mut s), vec![text("is false")]);
}

#[test]
fn add_rejects_booleans_without_a_text() {
    for pair in [
        vec![Operand::Bool(true), Operand::Bool(false)],
        vec![num(1), Operand::Bool(false)],
        vec![Operand::Bool(true), num(1)],
    ] {
        let mut s = stack(pair.clone());
        assert_eq!(s.add(), Err(Error::TypeMismatch));
        assert_eq!(s.len(), 2);
        assert_eq!(s.pop(), Ok(pair[1].clone()));
    }
}

#[test]
fn add_needs_two_operands() {
    assert_eq!(stack(vec![]).add(), Err(Error::StackUnderflow));
    assert_eq!(stack(vec![num(1)]).add(), Err(Error::StackUnderflow));
    assert_eq!(stack(vec![Operand::Bool(true)]).add(), Err(Error::StackUnderflow));
}

#[test]
fn sub_takes_the_top_from_the_value_below() {
    let mut s = stack(vec![num(10), num(3)]);
    assert_eq!(s.sub(), Ok(()));
    assert_eq!(drain(&mut s), vec![num(7)]);
    let mut s = stack(vec![num(i32::MIN), num(1)]);
    assert_eq!(s.sub(), Err(Error::Overflow));
    assert_eq!(s.len(), 2);
    let mut s = stack(vec![num(0), num(i32::MIN)]);
    assert_eq!(s.sub(), Err(Error::Overflow));
}

#[test]
fn mul_multiplies() {
    let mut s = stack(vec![num(-6), num(7)]);
    assert_eq!(s.mul(), Ok(()));
    assert_eq!(drain(&mut s), vec![num(-42)]);
    let mut s = stack(vec![num(46341), num(46341)]);
    assert_eq!(s.mul(), Err(Error::Overflow));
    let mut s = stack(vec![num(46340), num(46340)]);
    assert_eq!(s.mul(), Ok(()));
    assert_eq!(drain(&mut s), vec![num(2147395600)]);
}

#[test]
fn div_divides_the_value_below_by_the_top() {
    for (a, b, q) in [
        (20, 5, 4),
        (7, 2, 3),
        (-7, 2, -3),
        (7, -2, -3),
        (-7, -2, 3),
        (0, 5, 0),
        (5, 7, 0),
        (-5, 7, 0),
        (i32::MIN, 1, i32::MIN),
        (i32::MAX, -1, -i32::MAX),
        (i32::MIN, 2, -1073741824),
    ] {
        let mut s = stack(vec![num(a), num(b)]);
        assert_eq!(s.div(), Ok(()), "{} / {}", a, b);
        assert_eq!(drain(&mut s), vec![num(q)], "{} / {}", a, b);
    }
}

#[test]
fn div_fails_on_zero_and_on_overflow() {
    let mut s = stack(vec![num(1), num(0)]);
    assert_eq!(s.div(), Err(Error::DivisionByZero));
    assert_eq!(drain(&mut s), vec![num(0), num(1)]);
    let mut s = stack(vec![num(i32::MIN), num(-1)]);
    assert_eq!(s.div(), Err(Error::Overflow));
    assert_eq!(s.len(), 2);
}

#[test]
fn integer_operators_judge_the_top_first() {
    assert_eq!(stack(vec![]).sub(), Err(Error::StackUnderflow));
    assert_eq!(stack(vec![text("a")]).sub(), Err(Error::TypeMismatch));
    assert_eq!(stack(vec![num(1)]).sub(), Err(Error::StackUnderflow));
    assert_eq!(stack(vec![text("a"), num(1)]).sub(), Err(Error::TypeMismatch));
    assert_eq!(stack(vec![num(1), text("a")]).mul(), Err(Error::TypeMismatch));
    assert_eq!(stack(vec![Operand::Bool(true)]).div(), Err(Error::TypeMismatch));
    assert_eq!(stack(vec![text("a")]).less_than(), Err(Error::TypeMismatch));
    assert_eq!(stack(vec![num(1)]).greater_than(), Err(Error::StackUnderflow));
}

#[test]
fn equal_and_not_equal() {
    for (a, b, same) in [
        (num(1), num(1), true),
        (num(1), num(2), false),
        (Operand::Bool(false), Operand::Bool(false), true),
        (Operand::Bool(false), Operand::Bool(true), false),
        (text("ab"), text("ab"), true),
        (text("ab"), text("abc"), false),
        (text(""), text(""), true),
    ] {
        let mut s = stack(vec![a.clone(), b.clone()]);
        assert_eq!(s.equal(), Ok(()));
        assert_eq!(drain(&mut s), vec![Operand::Bool(same)]);
        let mut s = stack(vec![a, b]);
        assert_eq!(s.not_equal(), Ok(()));
        assert_eq!(drain(&mut s), vec![Operand::Bool(!same)]);
    }
}

#[test]
fn equal_rejects_values_of_two_types() {
    let mut s = stack(vec![num(1), text("1")]);
    assert_eq!(s.equal(), Err(Error::TypeMismatch));
    assert_eq!(s.len(), 2);
    assert_eq!(
        stack(vec![Operand::Bool(true), num(1)]).not_equal(),
        Err(Error::TypeMismatch)
    );
    assert_eq!(stack(vec![num(1)]).equal(), Err(Error::StackUnderflow));
    assert_eq!(stack(vec![]).not_equal(), Err(Error::StackUnderflow));
}

#[test]
fn less_than_and_greater_than_compare_the_value_below_with_the_top() {
    let mut s = stack(vec![num(3), num(5)]);
    assert_eq!(s.less_than(), Ok(()));
    assert_eq!(drain(&mut s), vec![Operand::Bool(true)]);
    let mut s = stack(vec![num(5), num(3)]);
    assert_eq!(s.less_than(), Ok(()));
    assert_eq!(drain(&mut s), vec![Operand::Bool(false)]);
    let mut s = stack(vec![num(5), num(3)]);
    assert_eq!(s.greater_than(), Ok(()));
    assert_eq!(drain(&mut s), vec![Operand::Bool(true)]);
    let mut s = stack(vec![num(-5), num(-5)]);
    assert_eq!(s.greater_than(), Ok(()));
    assert_eq!(drain(&mut s), vec![Operand::Bool(false)]);
}

#[test]
fn get_index_gives_one_character() {
    let mut s = stack(vec![num(0), text("hello"), num(1)]);
    assert_eq!(s.get_index(), Ok(()));
    assert_eq!(drain(&mut s), vec![text("e"), num(0)]);
    let mut s = stack(vec![text("h\u{e9}llo"), num(1)]);
    assert_eq!(s.get_index(), Ok(()));
    assert_eq!(drain(&mut s), vec![text("\u{e9}")]);
    let mut s = stack(vec![text("h\u{e9}llo"), num(4)]);
    assert_eq!(s.get_index(), Ok(()));
    assert_eq!(drain(&mut s), vec![text("o")]);
}

#[test]
fn get_index_fails_outside_the_text() {
    for i in [5, 6, -1, i32::MAX, i32::MIN] {
        let mut s = stack(vec![text("hello"), num(i)]);
        assert_eq!(s.get_index(), Err(Error::IndexOutOfRange));
        assert_eq!(drain(&mut s), vec![num(i), text("hello")]);
    }
    assert_eq!(stack(vec![text(""), num(0)]).get_index(), Err(Error::IndexOutOfRange));
}

#[test]
fn get_index_needs_an_integer_on_a_text() {
    assert_eq!(stack(vec![]).get_index(), Err(Error::StackUnderflow));
    assert_eq!(stack(vec![text("a")]).get_index(), Err(Error::TypeMismatch));
    assert_eq!(stack(vec![num(0)]).get_index(), Err(Error::StackUnderflow));
    assert_eq!(stack(vec![num(5), num(0)]).get_index(), Err(Error::TypeMismatch));
    assert_eq!(
        stack(vec![text("a"), text("0")]).get_index(),
        Err(Error::TypeMismatch)
    );
}

#[test]
fn cond_on_true_goes_on_into_the_body() {
    let mut lex = Lexer::new("{ 1 } : { 2 }".to_string());
    let mut s = stack(vec![num(9), Operand::Bool(true)]);
    assert_eq!(s.cond(&mut lex), Ok(()));
    assert_eq!(lex.position(), 0);
    assert_eq!(drain(&mut s), vec![num(9)]);
}

#[test]
fn cond_on_false_skips_the_body_and_takes_the_else_mark() {
    let mut lex = Lexer::new("{ 1 } : { 2 }".to_string());
    let mut s = stack(vec![Operand::Bool(false)]);
    assert_eq!(s.cond(&mut lex), Ok(()));
    assert_eq!(s.len(), 0);
    assert_eq!(lex.next(), Ok(Some(Op::Glyph(Glyph::OpenSquiggle))));
    assert_eq!(lex.next(), Ok(Some(Op::Operand(num(2)))));
}

#[test]
fn cond_on_false_without_an_else_stops_behind_the_body() {
    let mut lex = Lexer::new("{ 1 } 3".to_string());
    let mut s = stack(vec![Operand::Bool(false)]);
    assert_eq!(s.cond(&mut lex), Ok(()));
    assert_eq!(lex.next(), Ok(Some(Op::Operand(num(3)))));
    let mut lex = Lexer::new("{ 1 }".to_string());
    let mut s = stack(vec![Operand::Bool(false)]);
    assert_eq!(s.cond(&mut lex), Ok(()));
    assert_eq!(lex.next(), Ok(None));
}

#[test]
fn cond_that_fails_changes_nothing() {
    let mut lex = Lexer::new("{ 1 ".to_string());
    let mut s = stack(vec![Operand::Bool(false)]);
    assert_eq!(s.cond(&mut lex), Err(Error::UnbalancedBody));
    assert_eq!(lex.position(), 0);
    assert_eq!(s.len(), 1);
    let mut lex = Lexer::new("{ 1 } @".to_string());
    assert_eq!(s.cond(&mut lex), Err(Error::UnrecognizedChar('@')));
    assert_eq!(lex.position(), 0);
    assert_eq!(s.len(), 1);
    let mut s = stack(vec![num(0)]);
    assert_eq!(s.cond(&mut lex), Err(Error::TypeMismatch));
    assert_eq!(s.len(), 1);
    let mut s = stack(vec![]);
    assert_eq!(s.cond(&mut lex), Err(Error::StackUnderflow));
}

#[test]
fn assign_binds_the_top_of_the_stack() {
    let mut store = VarStore::new();
    let mut s = stack(vec![num(1), num(42)]);
    assert_eq!(s.assign(&mut store, "x".to_string()), Ok(()));
    assert_eq!(s.len(), 1);
    assert_eq!(store.get_var("x"), Some(num(42)));
    assert_eq!(s.assign(&mut store, "x".to_string()), Ok(()));
    assert_eq!(store.get_var("x"), Some(num(1)));
    assert_eq!(s.assign(&mut store, "x".to_string()), Err(Error::EmptyAssign));
    assert_eq!(store.get_var("x"), Some(num(1)));
}

#[test]
fn access_pushes_a_copy_of_the_value() {
    let mut store = VarStore::new();
    store.set_var("x".to_string(), text("v"));
    let mut s = stack(vec![num(1)]);
    assert!(s.access(&mut store, "x"));
    assert!(s.access(&mut store, "x"));
    assert!(!s.access(&mut store, "y"));
    assert_eq!(drain(&mut s), vec![text("v"), text("v"), num(1)]);
    assert_eq!(store.get_var("x"), Some(text("v")));
}
