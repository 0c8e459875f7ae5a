use syntax_directed::error::{Expected, TranslateError};
use syntax_directed::text::{abort, emit, emitln, error, expected, label_text};
use syntax_directed::translator::Translator;

fn text(v: &[char]) -> String {
    v.iter().collect()
}

fn chars(s: &str) -> Vec<char> {
    s.chars().collect()
}

fn run(input: &str) -> (String, Result<(), TranslateError>) {
    let mut t = Translator::init(input.as_bytes().to_vec()).unwrap();
    let r = t.program();
    (text(t.output()), r)
}

#[test]
fn terminator_alone_writes_end() {
    assert_eq!(run("e"), ("\tEND\n".to_string(), Ok(())));
}

#[test]
fn bare_name_then_end() {
    assert_eq!(run("ae"), ("\tA\n\tEND\n".to_string(), Ok(())));
}

#[test]
fn if_without_else_keeps_label_and_end_on_one_line() {
    assert_eq!(
        run("iaee"),
        ("\t<condition>\n\tJZ L0\n\tA\n\tL0:\tEND\n".to_string(), Ok(()))
    );
}

#[test]
fn while_label_shares_line_with_condition() {
    assert_eq!(
        run("waee"),
        ("\tL0:\t<condition>\n\tJZ L1\n\tA\n\tJMP L0\n\tL1:\tEND\n".to_string(), Ok(()))
    );
}

#[test]
fn if_with_else() {
    assert_eq!(
        run("ialbee"),
        ("\t<condition>\n\tJZ L0\n\tA\n\tJMP L1\n\tL0:\tB\n\tL1:\tEND\n".to_string(), Ok(()))
    );
}

#[test]
fn endless_loop() {
    assert_eq!(run("paee"), ("\tL0:\tA\n\tJMP L0\n\tEND\n".to_string(), Ok(())));
}

#[test]
fn repeat_until() {
    assert_eq!(
        run("raue"),
        ("\tL0:\tA\n\t<condition>\n\tJZ L0\n\tEND\n".to_string(), Ok(()))
    );
}

#[test]
fn counting_for() {
    let expected_text = "\tPUSH EBX\n\t<somehow load X>\n\t<expression>\n\tMOV EBX, EAX\n\
        \t<expression>\n\tSUB EAX, EBX\n\tJO L1\n\t<somehow store EAX to X>\n\tL0:\tA\n\
        \t<somehow SUB X, 1>\n\tJNZ L0\n\tL1:\tPOP EBX\n\tEND\n";
    assert_eq!(run("fx=aee"), (expected_text.to_string(), Ok(())));
}

#[test]
fn do_count() {
    assert_eq!(
        run("daee"),
        ("\t<expression>\n\tMOV ECX, EAX\n\tL0:\tA\n\tLOOP L0\n\tEND\n".to_string(), Ok(()))
    );
}

#[test]
fn if_nested_in_while_gets_fresh_labels() {
    assert_eq!(
        run("wiaeee"),
        (
            "\tL0:\t<condition>\n\tJZ L1\n\t<condition>\n\tJZ L2\n\tA\n\tL2:\tJMP L0\n\tL1:\tEND\n"
                .to_string(),
            Ok(())
        )
    );
}

#[test]
fn labels_past_nine_have_two_digits() {
    let input = format!("{}e", "pae".repeat(11));
    let (out, r) = run(&input);
    assert_eq!(r, Ok(()));
    assert!(out.ends_with("\tL10:\tA\n\tJMP L10\n\tEND\n"));
}

fn count(hay: &str, needle: &str) -> usize {
    hay.matches(needle).count()
}

#[test]
fn every_label_defined_once_and_targeted_once() {
    let (out, r) = run("wiablefx=rauepdaeeeeeee");
    assert_eq!(r, Ok(()));
    let n = count(&out, ":");
    assert_eq!(n, 9);
    for k in 0..n {
        assert_eq!(count(&out, &format!("\tL{}:", k)), 1);
        assert_eq!(count(&out, &format!(" L{}\n", k)), 1);
    }
    assert_eq!(count(&out, &format!("L{}", n)), 0);
}

#[test]
fn empty_input_is_refused() {
    assert!(matches!(Translator::init(Vec::new()), Err(TranslateError::InputExhausted)));
}

#[test]
fn name_at_end_of_input_exhausts_it() {
    assert_eq!(run("a"), (String::new(), Err(TranslateError::InputExhausted)));
}

#[test]
fn stray_terminator_wants_end() {
    assert_eq!(
        run("u"),
        (String::new(), Err(TranslateError::UnexpectedCharacter(Expected::End)))
    );
}

#[test]
fn digit_is_not_a_name() {
    assert_eq!(run("1e"), (String::new(), Err(TranslateError::InvalidName)));
}

#[test]
fn failed_match_keeps_earlier_output() {
    assert_eq!(
        run("iau"),
        (
            "\t<condition>\n\tJZ L0\n\tA\n".to_string(),
            Err(TranslateError::UnexpectedCharacter(Expected::Char(b'e')))
        )
    );
}

#[test]
fn failure_inside_if_stops_output() {
    assert_eq!(
        run("ia"),
        ("\t<condition>\n\tJZ L0\n".to_string(), Err(TranslateError::InputExhausted))
    );
}

#[test]
fn bad_loop_variable_after_push() {
    assert_eq!(run("f1"), ("\tPUSH EBX\n".to_string(), Err(TranslateError::InvalidName)));
}

#[test]
fn for_needs_equals_sign() {
    assert_eq!(
        run("fxa"),
        (
            "\tPUSH EBX\n".to_string(),
            Err(TranslateError::UnexpectedCharacter(Expected::Char(b'=')))
        )
    );
}

#[test]
fn lookahead_read_and_match() {
    let mut t = Translator::init(b"ab".to_vec()).unwrap();
    assert_eq!(t.look(), b'a');
    assert_eq!(t.match_(b'x'), Err(TranslateError::UnexpectedCharacter(Expected::Char(b'x'))));
    assert_eq!(t.look(), b'a');
    assert_eq!(t.match_(b'a'), Ok(()));
    assert_eq!(t.look(), b'b');
    assert_eq!(t.read(), Err(TranslateError::InputExhausted));
    assert_eq!(t.look(), b'b');
}

#[test]
fn get_name_upper_cases() {
    let mut t = Translator::init(b"q1".to_vec()).unwrap();
    assert_eq!(t.get_name(), Ok(b'Q'));
    assert_eq!(t.get_name(), Err(TranslateError::InvalidName));
    let mut u = Translator::init(b"Zz".to_vec()).unwrap();
    assert_eq!(u.get_name(), Ok(b'Z'));
}

#[test]
fn emit_has_no_line_break() {
    let mut out = chars("x");
    emit(&mut out, &chars("L3:"));
    assert_eq!(text(&out), "x\tL3:");
    emitln(&mut out, &chars("END"));
    assert_eq!(text(&out), "x\tL3:\tEND\n");
}

#[test]
fn label_names() {
    assert_eq!(text(&label_text(0)), "L0");
    assert_eq!(text(&label_text(407)), "L407");
}

#[test]
fn diagnostics() {
    assert_eq!(text(&error(&chars("bad"))), "Error: bad.\n");
    assert_eq!(text(&abort(&chars("bad"))), "Error: bad.\n");
    assert_eq!(text(&expected(&chars("Name"))), "Error: Name expected.\n");
    assert_eq!(text(&TranslateError::InputExhausted.message()), "Error: Input exhausted.\n");
    assert_eq!(
        text(&TranslateError::UnexpectedCharacter(Expected::Char(b'e')).message()),
        "Error: e expected.\n"
    );
    assert_eq!(
        text(&TranslateError::UnexpectedCharacter(Expected::End).message()),
        "Error: End expected.\n"
    );
    assert_eq!(text(&TranslateError::InvalidName.message()), "Error: Name expected.\n");
}

#[test]
fn output_for_exhausted_input_is_prefix_of_longer_input() {
    let (short, r) = run("wia");
    assert_eq!(r, Err(TranslateError::InputExhausted));
    let (long, r2) = run("wiaeee");
    assert_eq!(r2, Ok(()));
    assert_eq!(short, "\tL0:\t<condition>\n\tJZ L1\n\t<condition>\n\tJZ L2\n");
    assert!(long.starts_with(&short));
}

#[test]
fn failed_match_output_is_prefix_of_output_with_wanted_character() {
    let (failed, r) = run("iaue");
    assert_eq!(r, Err(TranslateError::UnexpectedCharacter(Expected::Char(b'e'))));
    let (fixed, r2) = run("iaee");
    assert_eq!(r2, Ok(()));
    assert!(fixed.starts_with(&failed));
    let (do_failed, r3) = run("daue");
    assert_eq!(r3, Err(TranslateError::UnexpectedCharacter(Expected::Char(b'e'))));
    assert_eq!(do_failed, "\t<expression>\n\tMOV ECX, EAX\n\tL0:\tA\n\tLOOP L0\n");
    let (do_fixed, _) = run("daee");
    assert!(do_fixed.starts_with(&do_failed));
}
