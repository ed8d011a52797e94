//! Whole programs, run from the source text to the lines they write.

use stacklang::engine::{Event, Interpreter, Status};
use stacklang::Error;

/// Runs `source` step by step and returns the lines written and the error
/// that ended the run, if any.
fn run(source: &str) -> (Vec<String>, Option<Error>) {
    let mut out = Vec::new();
    let mut interp = match Interpreter::new(source.to_string()) {
        Ok(i) => i,
        Err(e) => return (out, Some(e)),
    };
    for _ in 0..100_000 {
        match interp.step() {
            Ok(Event::Continue) => {}
            Ok(Event::Output(line)) => out.push(line),
            Ok(Event::Done) => return (out, None),
            Err(e) => return (out, Some(e)),
        }
    }
    panic!("the program did not end");
}

fn prints(source: &str, expected: &[&str]) {
    let (out, err) = run(source);
    assert_eq!(err, None, "program: {}", source);
    let expected: Vec<String> = expected.iter().map(|s| s.to_string()).collect();
    assert_eq!(out, expected, "program: {}", source);
}

fn fails(source: &str, expected_out: &[&str], expected: Error) {
    let (out, err) = run(source);
    let expected_out: Vec<String> = expected_out.iter().map(|s| s.to_string()).collect();
    assert_eq!(out, expected_out, "program: {}", source);
    assert_eq!(err, Some(expected), "program: {}", source);
}

#[test]
fn adds_two_integers() {
    prints("3 4 + .", &["7"]);
}

#[test]
fn arithmetic_takes_the_left_operand_from_below() {
    prints("10 3 - .", &["7"]);
    prints("3 10 - .", &["-7"]);
    prints("6 7 * .", &["42"]);
    prints("20 5 / .", &["4"]);
    prints("2 3 + 4 * .", &["20"]);
    prints("100 7 3 - / .", &["25"]);
}

#[test]
fn division_rounds_toward_zero() {
    prints("7 2 / .", &["3"]);
    prints("0 7 - 2 / .", &["-3"]);
    prints("7 0 2 - / .", &["-3"]);
    prints("0 7 - 0 2 - / .", &["3"]);
    prints("1 2 / .", &["0"]);
    prints("0 1 - 2 / .", &["0"]);
}

#[test]
fn division_by_zero_is_fatal() {
    fails("1 0 /", &[], Error::DivisionByZero);
    fails("1 . 1 0 / .", &["1"], Error::DivisionByZero);
}

#[test]
fn arithmetic_overflow_is_fatal() {
    prints("2147483647 .", &["2147483647"]);
    prints("0 2147483647 - 1 - .", &["-2147483648"]);
    fails("2147483647 1 +", &[], Error::Overflow);
    fails("0 2147483647 - 2 -", &[], Error::Overflow);
    fails("65536 65536 *", &[], Error::Overflow);
    fails("0 2147483647 - 1 - 0 1 - /", &[], Error::Overflow);
}

#[test]
fn a_literal_beyond_32_bits_is_fatal() {
    fails("2147483648", &[], Error::NumberTooLarge);
    fails("1 . 99999999999999999999999", &["1"], Error::NumberTooLarge);
    prints("0000000000000000000000012 .", &["12"]);
}

#[test]
fn text_is_joined_left_to_right() {
    prints("\"foo\" \"bar\" + .", &["foobar"]);
    prints("'foo' 'bar' + .", &["foobar"]);
}

#[test]
fn a_text_takes_up_the_rendering_of_the_other_operand() {
    prints("\"ab\" 1 + .", &["ab1"]);
    prints("1 \"ab\" + .", &["1ab"]);
    prints("\"is \" true + .", &["is true"]);
    prints("false \" it is\" + .", &["false it is"]);
    prints("\"n=\" 0 5 - + .", &["n=-5"]);
}

#[test]
fn add_rejects_pairs_without_text_or_two_integers() {
    fails("true false +", &[], Error::TypeMismatch);
    fails("1 true +", &[], Error::TypeMismatch);
    fails("true 1 +", &[], Error::TypeMismatch);
}

#[test]
fn sub_mul_div_take_integers_only() {
    fails("\"a\" 1 -", &[], Error::TypeMismatch);
    fails("1 \"a\" *", &[], Error::TypeMismatch);
    fails("true 1 /", &[], Error::TypeMismatch);
}

#[test]
fn less_than_and_greater_than() {
    prints("5 3 < .", &["false"]);
    prints("3 5 < .", &["true"]);
    prints("5 3 > .", &["true"]);
    prints("3 5 > .", &["false"]);
    prints("3 3 < .", &["false"]);
    prints("3 3 > .", &["false"]);
    fails("\"a\" 3 <", &[], Error::TypeMismatch);
    fails("3 true >", &[], Error::TypeMismatch);
}

#[test]
fn equal_and_not_equal_compare_values_of_one_type() {
    prints("3 3 == .", &["true"]);
    prints("3 4 == .", &["false"]);
    prints("3 4 != .", &["true"]);
    prints("3 3 != .", &["false"]);
    prints("true true == .", &["true"]);
    prints("true false == .", &["false"]);
    prints("true false != .", &["true"]);
    prints("\"a\" \"a\" == .", &["true"]);
    prints("\"a\" \"b\" == .", &["false"]);
    prints("\"a\" \"b\" != .", &["true"]);
    fails("1 true ==", &[], Error::TypeMismatch);
    fails("\"1\" 1 !=", &[], Error::TypeMismatch);
}

#[test]
fn print_leaves_the_stack_and_marks_an_empty_one() {
    prints(".", &["_"]);
    prints("1 . .", &["1", "1"]);
    prints("1 2 . , .", &["2", "1"]);
}

#[test]
fn pop_and_clear() {
    prints("1 2 , .", &["1"]);
    prints("1 2 3 ; .", &["_"]);
    prints("; .", &["_"]);
    fails(",", &[], Error::StackUnderflow);
}

#[test]
fn operators_on_a_short_stack_underflow() {
    fails("+", &[], Error::StackUnderflow);
    fails("1 +", &[], Error::StackUnderflow);
    fails("1 -", &[], Error::StackUnderflow);
    fails("*", &[], Error::StackUnderflow);
    fails("1 ==", &[], Error::StackUnderflow);
    fails("1 <", &[], Error::StackUnderflow);
    fails("?", &[], Error::StackUnderflow);
    fails("1 []", &[], Error::StackUnderflow);
}

#[test]
fn the_top_of_the_stack_is_judged_before_the_stack_is_found_short() {
    fails("true -", &[], Error::TypeMismatch);
    fails("\"a\" <", &[], Error::TypeMismatch);
    fails("true []", &[], Error::TypeMismatch);
}

#[test]
fn a_loop_with_a_break_runs_once() {
    prints("~{ 1 . $ }", &["1"]);
}

#[test]
fn a_loop_goes_round_until_it_is_broken() {
    prints(
        "0 =i ~{ i 3 == ? { $ } i . i 1 + =i } \"done\" .",
        &["0", "1", "2", "done"],
    );
}

#[test]
fn a_loop_without_a_break_never_ends() {
    let mut interp = Interpreter::new("0 ~{ 1 + }".to_string()).unwrap();
    let (out, status) = interp.run(10_000);
    assert_eq!(out, Vec::<String>::new());
    assert_eq!(status, Status::Paused);
}

#[test]
fn nested_loops_break_one_at_a_time() {
    prints(
        "0 =i ~{ i 2 == ? { $ } 0 =j ~{ j 2 == ? { $ } i \",\" + j + . j 1 + =j } i 1 + =i }",
        &["0,0", "0,1", "1,0", "1,1"],
    );
}

#[test]
fn a_conditional_runs_one_of_its_bodies() {
    prints("true ? { \"yes\" . } : { \"no\" . }", &["yes"]);
    prints("false ? { \"yes\" . } : { \"no\" . }", &["no"]);
    prints("true ? { \"yes\" . } \"after\" .", &["yes", "after"]);
    prints("false ? { \"yes\" . } \"after\" .", &["after"]);
}

#[test]
fn a_conditional_skips_nested_bodies_whole() {
    prints("false ? { { 1 . } { { 2 . } } } : { 3 . } 4 .", &["3", "4"]);
    prints("true ? { { 1 . } } : { { 2 . } { 3 . } } 4 .", &["1", "4"]);
}

#[test]
fn a_conditional_without_bodies_fails() {
    fails("true ? \"yes\" . : \"no\" .", &["yes"], Error::MissingBody);
    fails("false ? \"yes\" . : \"no\" .", &[], Error::UnbalancedBody);
}

#[test]
fn a_conditional_needs_a_boolean() {
    fails("1 ? { }", &[], Error::TypeMismatch);
    fails("\"true\" ? { }", &[], Error::TypeMismatch);
}

#[test]
fn assign_then_access() {
    prints("42 =x x .", &["42"]);
    prints("1 =x 2 =x x .", &["2"]);
    prints("\"a\" =s s s + .", &["aa"]);
}

#[test]
fn an_unassigned_name_is_unknown() {
    fails("x .", &[], Error::UnknownName);
    fails("1 =x y", &[], Error::UnknownName);
}

#[test]
fn assign_from_an_empty_stack_fails() {
    fails("=x", &[], Error::EmptyAssign);
}

#[test]
fn a_function_runs_when_called_and_returns_to_the_call() {
    prints("#double { 2 * } 21 double .", &["42"]);
    prints("21 double . #double { 2 * }", &["42"]);
    prints("#double { 2 * } 1 double double double . \"end\" .", &["8", "end"]);
}

#[test]
fn a_function_body_is_not_run_where_it_is_defined() {
    prints("#noisy { \"called\" . } \"start\" .", &["start"]);
}

#[test]
fn a_call_has_a_scope_of_its_own() {
    prints("5 =x #f { 7 =x x . } f x .", &["7", "5"]);
    prints("5 =x #f { x . } f", &["5"]);
    fails("#f { 7 =y } f y .", &[], Error::UnknownName);
}

#[test]
fn a_variable_hides_a_function_of_the_same_name() {
    prints("#f { 1 . } 2 =f f .", &["2"]);
}

#[test]
fn functions_call_functions() {
    prints(
        "#inc { 1 + } #twice { inc inc } 5 twice .",
        &["7"],
    );
}

#[test]
fn a_function_may_call_itself() {
    prints(
        "#down { =n n . n 0 > ? { n 1 - down } } 3 down",
        &["3", "2", "1", "0"],
    );
}

#[test]
fn a_break_in_a_function_returns_from_it() {
    prints("#f { 1 . $ 2 . } f 3 .", &["1", "3"]);
    prints("#f { true ? { 1 . $ } 2 . } f 3 .", &["1", "3"]);
}

#[test]
fn a_break_in_a_loop_in_a_function_leaves_the_loop_only() {
    prints("#f { ~{ 1 . $ } 2 . } f 3 .", &["1", "2", "3"]);
}

#[test]
fn a_break_outside_a_loop_fails() {
    fails("$", &[], Error::BreakOutsideLoop);
    fails("{ { $ } }", &[], Error::BreakOutsideLoop);
}

#[test]
fn a_later_definition_replaces_an_earlier_one() {
    prints("#f { 1 . } #f { 2 . } f", &["2"]);
}

#[test]
fn a_function_defined_within_a_body_is_known_everywhere() {
    prints("f { #f { 1 . } }", &["1"]);
}

#[test]
fn plain_bodies_group_without_effect() {
    prints("{ 1 . { 2 . } } 3 .", &["1", "2", "3"]);
}

#[test]
fn unmatched_braces_are_reported() {
    fails("}", &[], Error::UnmatchedClose);
    fails("1 . { 2 . } }", &["1", "2"], Error::UnmatchedClose);
    fails("{ 1 .", &["1"], Error::UnclosedBody);
    fails("{ { 1 . }", &["1"], Error::UnclosedBody);
}

#[test]
fn a_mark_without_a_body_is_reported() {
    fails("1 . ~", &["1"], Error::MissingBody);
    fails("{ } : 1", &[], Error::MissingBody);
    fails("#f", &[], Error::MissingBody);
    fails("1 . #f 2", &[], Error::MissingBody);
}

#[test]
fn a_body_that_cannot_be_skipped_is_reported() {
    fails("false ? { 1 .", &[], Error::UnbalancedBody);
    fails("false ? } {", &[], Error::UnbalancedBody);
    fails("#f { 1", &[], Error::UnbalancedBody);
    fails("~{ $", &[], Error::UnbalancedBody);
}

#[test]
fn index_gives_one_character() {
    prints("\"hello\" 1 [] .", &["e"]);
    prints("\"hello\" 0 [] .", &["h"]);
    prints("\"hello\" 4 [] .", &["o"]);
    prints("\"hello\" =s s 2 [] s 3 [] + .", &["ll"]);
}

#[test]
fn an_index_outside_the_text_fails() {
    fails("\"hello\" 5 []", &[], Error::IndexOutOfRange);
    fails("\"hello\" 0 1 - []", &[], Error::IndexOutOfRange);
    fails("\"\" 0 []", &[], Error::IndexOutOfRange);
    fails("5 1 []", &[], Error::TypeMismatch);
    fails("\"hello\" \"1\" []", &[], Error::TypeMismatch);
}

#[test]
fn comments_and_whitespace_are_skipped() {
    prints("// nothing here", &[]);
    prints("1 // one\n2 // two\n+ . // the sum", &["3"]);
    prints("\t1\r\n\t2 +\n.", &["3"]);
    prints("", &[]);
    prints("6 3 /", &[]);
    prints("6 3 / .", &["2"]);
}

#[test]
fn an_unrecognized_character_fails() {
    fails("1 . @", &["1"], Error::UnrecognizedChar('@'));
    fails("!", &[], Error::UnrecognizedChar('!'));
    fails("]", &[], Error::UnrecognizedChar(']'));
    fails("1 [", &[], Error::UnrecognizedChar('['));
}

#[test]
fn a_quote_at_the_end_of_the_source_fails() {
    fails("1 . \"", &["1"], Error::UnterminatedText);
}

#[test]
fn the_first_character_of_the_program_is_read() {
    prints("7 .", &["7"]);
    prints(". 7", &["_"]);
}

#[test]
fn a_bounded_run_can_be_taken_up_again() {
    let mut interp = Interpreter::new("1 . 2 . 3 .".to_string()).unwrap();
    let (out, status) = interp.run(3);
    assert_eq!(out, vec!["1".to_string()]);
    assert_eq!(status, Status::Paused);
    let (out, status) = interp.run(100);
    assert_eq!(out, vec!["2".to_string(), "3".to_string()]);
    assert_eq!(status, Status::Finished);
    let (out, status) = interp.run(100);
    assert_eq!(out, Vec::<String>::new());
    assert_eq!(status, Status::Finished);
}

#[test]
fn a_bounded_run_keeps_what_was_written_before_a_failure() {
    let mut interp = Interpreter::new("1 . 2 . nothing 3 .".to_string()).unwrap();
    let (out, status) = interp.run(100);
    assert_eq!(out, vec!["1".to_string(), "2".to_string()]);
    assert_eq!(status, Status::Failed(Error::UnknownName));
}

#[test]
fn a_failed_step_can_be_repeated_with_the_same_result() {
    let mut interp = Interpreter::new("1 0 / .".to_string()).unwrap();
    assert_eq!(interp.step(), Ok(Event::Continue));
    assert_eq!(interp.step(), Ok(Event::Continue));
    assert_eq!(interp.step(), Err(Error::DivisionByZero));
    assert_eq!(interp.step(), Err(Error::DivisionByZero));
}

#[test]
fn a_break_out_of_a_function_keeps_the_scope_of_the_call() {
    prints("#f { 7 =x $ } f x .", &["7"]);
}

#[test]
fn a_return_drops_the_scope_of_the_call() {
    fails("#f { 7 =x } f x .", &[], Error::UnknownName);
}

#[test]
fn the_operand_stack_is_shared_with_a_function() {
    prints("#swap { =b =a b a } 1 2 swap . , .", &["1", "2"]);
    prints("#three { 1 2 3 } three + + .", &["6"]);
}

#[test]
fn a_program_may_start_a_step_after_it_is_done() {
    let mut interp = Interpreter::new("1 .".to_string()).unwrap();
    assert_eq!(interp.step(), Ok(Event::Continue));
    assert_eq!(interp.step(), Ok(Event::Output("1".to_string())));
    assert_eq!(interp.step(), Ok(Event::Done));
    assert_eq!(interp.step(), Ok(Event::Done));
}

#[test]
fn a_definition_without_a_body_fails_before_the_run() {
    assert!(matches!(
        Interpreter::new("1 . #f".to_string()),
        Err(Error::MissingBody)
    ));
}

#[test]
fn a_well_formed_program_ends_with_nothing_open() {
    for source in [
        "",
        "1 2 + .",
        "{ { } { { } } }",
        "~{ $ }",
        "~{ { { $ } } }",
        "true ? { 1 } : { 2 }",
        "false ? { 1 } : { 2 }",
        "false ? { { 1 } } : { { 2 } }",
        "#f { { 1 } } f f",
        "#f { ~{ { $ } } } f",
        "#f { true ? { $ } 1 } { f } f",
        "#f { 1 } #g { f { f } } ~{ g { $ } }",
        "0 =i ~{ i 5 == ? { $ } i 1 + =i }",
    ] {
        let mut interp = Interpreter::new(source.to_string()).unwrap();
        let (_, status) = interp.run(10_000);
        assert_eq!(status, Status::Finished, "program: {}", source);
        assert_eq!(interp.step(), Ok(Event::Done), "program: {}", source);
    }
}

#[test]
fn balanced_braces_alone_do_not_make_a_program_well_formed() {
    // a call takes the place of the body of the loop
    fails("#f { { } } ~ f", &[], Error::UnclosedBody);
    // a closing brace stands between the else mark and its body
    fails("{ 1 : } { }", &[], Error::UnclosedBody);
}

#[test]
fn the_search_for_functions_does_not_know_about_texts() {
    // a define mark within a text counts, and what follows it is searched
    // for the body
    fails("'#tag' .", &[], Error::UnterminatedText);
    prints("'#tag { 1 . }' , tag", &["1"]);
    // two slashes within a text hide the rest of the line from the search
    fails("\"a//b\" . #f { 1 . } f", &["a//b"], Error::UnknownName);
    prints("\"a//b\" .\n#f { 1 . } f", &["a//b", "1"]);
}

#[test]
fn a_failure_while_the_functions_are_searched_ends_the_run_before_it_starts() {
    fails("1 . #f @ { }", &[], Error::UnrecognizedChar('@'));
    fails("1 . #f 99999999999 { }", &[], Error::NumberTooLarge);
}

#[test]
fn a_name_needs_no_space_around_it() {
    prints("42 =x x.", &["42"]);
    prints("1 =a 2 =b a b+.", &["3"]);
    prints("#double{2 *}21 double.", &["42"]);
    prints("3 =n n 1+=n n.", &["4"]);
}

#[test]
fn the_name_of_a_function_is_a_run_of_letters() {
    prints("#x1 { 7 . } x", &["7"]);
    prints("#x1 { 7 . } x1 .", &["7", "1"]);
}

#[test]
fn a_text_without_its_closing_quote_ends_the_run() {
    fails("1 . 'abc", &["1"], Error::UnterminatedText);
    fails("1 . \"abc' .", &["1"], Error::UnterminatedText);
}
