use norm::cmd::{Cmd, ParseError, ParseErrorKind};
use norm::op::{Motion, Op, SingleMotion};
use norm::parse::{parse, parse_command, parse_motion, MAX_QUANTIFIER, MAX_REPEAT};

fn motion(mot: SingleMotion, repeat: u32) -> Motion {
    Motion { mot, repeat }
}

fn fails(command: &str, kind: ParseErrorKind, at: usize) {
    assert_eq!(parse(command), Err(ParseError { kind, at }));
}

#[test]
fn empty_command_has_no_steps() {
    assert_eq!(parse(""), Ok(vec![]));
}

#[test]
fn every_plain_motion_is_read() {
    let ops = parse("0$hlwb;").unwrap();
    let kinds = [
        SingleMotion::Beg,
        SingleMotion::End,
        SingleMotion::Left,
        SingleMotion::Right,
        SingleMotion::Word,
        SingleMotion::Back,
        SingleMotion::FindNext,
    ];
    assert_eq!(ops.len(), kinds.len());
    for (op, kind) in ops.iter().zip(kinds.iter()) {
        assert_eq!(op, &Op::Motion(motion(*kind, 1)));
    }
}

#[test]
fn seeking_motions_take_the_next_character_as_target() {
    assert_eq!(
        parse("txTyfzF;"),
        Ok(vec![
            Op::Motion(motion(SingleMotion::Till { c: 'x' }, 1)),
            Op::Motion(motion(SingleMotion::BackTill { c: 'y' }, 1)),
            Op::Motion(motion(SingleMotion::Find { c: 'z' }, 1)),
            Op::Motion(motion(SingleMotion::BackFind { c: ';' }, 1)),
        ])
    );
}

#[test]
fn a_digit_can_be_a_target() {
    assert_eq!(parse("f3"), Ok(vec![Op::Motion(motion(SingleMotion::Find { c: '3' }, 1))]));
}

#[test]
fn count_before_motion_becomes_its_repeat() {
    assert_eq!(parse("3l"), Ok(vec![Op::Motion(motion(SingleMotion::Right, 3))]));
    assert_eq!(parse("10w"), Ok(vec![Op::Motion(motion(SingleMotion::Word, 10))]));
    assert_eq!(parse("2fx"), Ok(vec![Op::Motion(motion(SingleMotion::Find { c: 'x' }, 2))]));
}

#[test]
fn bare_zero_is_the_motion_to_the_beginning() {
    assert_eq!(parse("0"), Ok(vec![Op::Motion(motion(SingleMotion::Beg, 1))]));
    assert_eq!(
        parse("l0"),
        Ok(vec![
            Op::Motion(motion(SingleMotion::Right, 1)),
            Op::Motion(motion(SingleMotion::Beg, 1)),
        ])
    );
    assert_eq!(parse("20l"), Ok(vec![Op::Motion(motion(SingleMotion::Right, 20))]));
}

#[test]
fn quantifier_expands_single_letter_edits() {
    assert_eq!(parse("3D"), Ok(vec![Op::DeleteToEnd, Op::DeleteToEnd, Op::DeleteToEnd]));
    assert_eq!(parse("3p"), Ok(vec![Op::Put, Op::Put, Op::Put]));
    assert_eq!(parse("3."), Ok(vec![Op::Repeat, Op::Repeat, Op::Repeat]));
    assert_eq!(parse("12p").unwrap().len(), 12);
}

#[test]
fn quantifier_expands_insertions() {
    let one = Op::Insert { s: "ab".to_string() };
    assert_eq!(parse("2i/ab/"), Ok(vec![one.clone(), one]));
}

#[test]
fn quantifier_on_delete_copies_the_whole_step() {
    let dw = Op::Delete { motion: motion(SingleMotion::Word, 1) };
    assert_eq!(parse("2dw"), Ok(vec![dw.clone(), dw]));
    let d3w = Op::Delete { motion: motion(SingleMotion::Word, 3) };
    assert_eq!(parse("d3w"), Ok(vec![d3w.clone()]));
    assert_eq!(parse("2d3w"), Ok(vec![d3w.clone(), d3w]));
    let y2l = Op::Yank { motion: motion(SingleMotion::Right, 2) };
    assert_eq!(parse("y2l"), Ok(vec![y2l]));
}

#[test]
fn insertions_take_any_delimiter() {
    assert_eq!(parse("i/XY/"), Ok(vec![Op::Insert { s: "XY".to_string() }]));
    assert_eq!(parse("a,x/y,"), Ok(vec![Op::Append { s: "x/y".to_string() }]));
    assert_eq!(parse("A new "), Ok(vec![Op::LineAppend { s: "new".to_string() }]));
    assert_eq!(parse("iiai"), Ok(vec![Op::Insert { s: "a".to_string() }]));
    assert_eq!(parse("i//"), Ok(vec![Op::Insert { s: String::new() }]));
    assert_eq!(parse("i\u{e9}\u{4e16}\u{754c}\u{e9}"), Ok(vec![Op::Insert { s: "\u{4e16}\u{754c}".to_string() }]));
}

#[test]
fn steps_come_in_the_order_written() {
    assert_eq!(
        parse("wdwi/x/$p."),
        Ok(vec![
            Op::Motion(motion(SingleMotion::Word, 1)),
            Op::Delete { motion: motion(SingleMotion::Word, 1) },
            Op::Insert { s: "x".to_string() },
            Op::Motion(motion(SingleMotion::End, 1)),
            Op::Put,
            Op::Repeat,
        ])
    );
}

#[test]
fn unknown_letter_is_refused_where_it_stands() {
    fails("x", ParseErrorKind::UnknownOp, 0);
    fails("lx", ParseErrorKind::UnknownOp, 1);
    fails("12q", ParseErrorKind::UnknownOp, 2);
    fails("i/a/ ", ParseErrorKind::UnknownOp, 4);
}

#[test]
fn delete_and_yank_need_a_motion() {
    fails("d", ParseErrorKind::ExpectedMotionAfterDelete, 1);
    fails("dx", ParseErrorKind::ExpectedMotionAfterDelete, 1);
    fails("d3x", ParseErrorKind::ExpectedMotionAfterDelete, 2);
    fails("dd", ParseErrorKind::ExpectedMotionAfterDelete, 1);
    fails("y", ParseErrorKind::ExpectedMotionAfterYank, 1);
    fails("wyp", ParseErrorKind::ExpectedMotionAfterYank, 2);
}

#[test]
fn command_that_ends_too_early_is_refused() {
    fails("t", ParseErrorKind::UnexpectedEnd, 1);
    fails("lF", ParseErrorKind::UnexpectedEnd, 2);
    fails("i", ParseErrorKind::UnexpectedEnd, 1);
    fails("i/", ParseErrorKind::UnexpectedEnd, 2);
    fails("i/abc", ParseErrorKind::UnexpectedEnd, 5);
    fails("3", ParseErrorKind::UnexpectedEnd, 1);
    fails("d3", ParseErrorKind::UnexpectedEnd, 2);
    fails("df", ParseErrorKind::UnexpectedEnd, 2);
}

#[test]
fn count_beyond_the_limit_is_refused() {
    assert_eq!(MAX_QUANTIFIER, 2147483647);
    fails("2147483648D", ParseErrorKind::QuantifierTooLarge, 10);
    fails("99999999999999999999999l", ParseErrorKind::QuantifierTooLarge, 23);
    assert_eq!(parse("2147483647l"), Ok(vec![Op::Motion(motion(SingleMotion::Right, 2147483647))]));
}

#[test]
fn count_of_inner_motion_beyond_what_it_can_hold_counts_as_one() {
    assert_eq!(MAX_REPEAT, u32::MAX);
    assert_eq!(
        parse("d4294967295w"),
        Ok(vec![Op::Delete { motion: motion(SingleMotion::Word, u32::MAX) }])
    );
    assert_eq!(
        parse("d4294967296w"),
        Ok(vec![Op::Delete { motion: motion(SingleMotion::Word, 1) }])
    );
}

#[test]
fn no_step_comes_out_of_a_wrong_command() {
    assert!(parse("dwdwx").is_err());
}

#[test]
fn reader_walks_through_the_command() {
    let mut cmd = Cmd::new(&"ab".to_string());
    assert_eq!(cmd.len(), 2);
    assert_eq!(cmd.consumed, 0);
    assert_eq!(cmd.first(), Ok('a'));
    assert_eq!(cmd.len(), 2);
    assert_eq!(cmd.consume(), Ok('a'));
    assert_eq!(cmd.len(), 1);
    assert_eq!(cmd.consume(), Ok('b'));
    assert_eq!(cmd.len(), 0);
    assert_eq!(cmd.consumed, 2);
    let end = ParseError { kind: ParseErrorKind::UnexpectedEnd, at: 2 };
    assert_eq!(cmd.first(), Err(end));
    assert_eq!(cmd.consume(), Err(end));
    assert_eq!(cmd.consumed, 2);
    assert_eq!(cmd.err(ParseErrorKind::UnknownOp), ParseError { kind: ParseErrorKind::UnknownOp, at: 2 });
}

#[test]
fn reader_counts_characters_not_bytes() {
    let mut cmd = Cmd::new(&"\u{e9}x".to_string());
    assert_eq!(cmd.len(), 2);
    assert_eq!(cmd.consume(), Ok('\u{e9}'));
    assert_eq!(cmd.first(), Ok('x'));
}

#[test]
fn parse_command_reads_from_where_the_reader_stands() {
    let mut cmd = Cmd::new(&"lD".to_string());
    assert_eq!(cmd.consume(), Ok('l'));
    assert_eq!(parse_command(&mut cmd), Ok(vec![Op::DeleteToEnd]));
    assert_eq!(cmd.len(), 0);
    let mut bad = Cmd::new(&"lq".to_string());
    assert_eq!(parse_command(&mut bad), Err(ParseError { kind: ParseErrorKind::UnknownOp, at: 1 }));
    assert_eq!(bad.consumed, 1);
}

#[test]
fn parse_motion_leaves_what_is_no_motion() {
    let mut cmd = Cmd::new(&"3wp".to_string());
    assert_eq!(parse_motion(&mut cmd), Ok(Some(motion(SingleMotion::Word, 3))));
    assert_eq!(cmd.consumed, 2);
    assert_eq!(parse_motion(&mut cmd), Ok(None));
    assert_eq!(cmd.consumed, 2);
}

#[test]
fn messages_name_the_failure() {
    assert_eq!(ParseErrorKind::UnknownOp.message(), "unknown op");
    assert_eq!(ParseErrorKind::ExpectedMotionAfterDelete.message(), "expected motion after delete");
    assert_eq!(ParseErrorKind::ExpectedMotionAfterYank.message(), "expected motion after yank");
    assert_eq!(ParseErrorKind::UnexpectedEnd.message(), "unexpected end of command input");
    assert_eq!(ParseErrorKind::QuantifierTooLarge.message(), "quantifier too large");
}

#[test]
fn marker_points_at_the_failure() {
    let e = ParseError { kind: ParseErrorKind::UnknownOp, at: 2 };
    assert_eq!(e.marker(5), "~~^~~");
    assert_eq!(e.marker(3), "~~^");
    assert_eq!(e.marker(2), "~~^");
    assert_eq!(e.marker(0), "~~^");
    let start = ParseError { kind: ParseErrorKind::UnknownOp, at: 0 };
    assert_eq!(start.marker(1), "^");
    assert_eq!(start.marker(4), "^~~~");
}

#[test]
fn every_parsed_motion_is_applied_at_least_once() {
    for command in ["w", "3w", "dw", "d2w", "y;", "2y3fx", "10l0$", "d4294967296w"] {
        for op in parse(command).unwrap() {
            match op {
                Op::Motion(m) => assert!(m.repeat >= 1),
                Op::Delete { motion } => assert!(motion.repeat >= 1),
                Op::Yank { motion } => assert!(motion.repeat >= 1),
                _ => {}
            }
        }
    }
}
