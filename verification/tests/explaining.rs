use norm::op::{Motion, Op, SingleMotion};
use norm::parse::parse;

fn m(mot: SingleMotion, repeat: u32) -> Motion {
    Motion { mot, repeat }
}

#[test]
fn single_motions_explain_themselves() {
    assert_eq!(SingleMotion::Beg.explain(1), "to beginning of line");
    assert_eq!(SingleMotion::End.explain(1), "to end of line");
    assert_eq!(SingleMotion::Left.explain(1), "left");
    assert_eq!(SingleMotion::Right.explain(1), "right");
    assert_eq!(SingleMotion::Word.explain(1), "forward word");
    assert_eq!(SingleMotion::Back.explain(1), "backward word");
    assert_eq!(SingleMotion::Till { c: 'x' }.explain(1), "forward until character 'x'");
    assert_eq!(SingleMotion::BackTill { c: 'x' }.explain(1), "backward until character 'x'");
    assert_eq!(SingleMotion::Find { c: 'x' }.explain(1), "forward to character 'x'");
    assert_eq!(SingleMotion::BackFind { c: 'x' }.explain(1), "backward to character 'x'");
    assert_eq!(
        SingleMotion::FindNext.explain(1),
        "to next occurance of target from previous 't/T' or 'f/F' command"
    );
}

#[test]
fn repeated_motions_explain_their_count() {
    assert_eq!(SingleMotion::Beg.explain(3), "to beginning of line");
    assert_eq!(SingleMotion::End.explain(3), "to end of line");
    assert_eq!(SingleMotion::Left.explain(3), "left 3");
    assert_eq!(SingleMotion::Right.explain(12), "right 12");
    assert_eq!(SingleMotion::Word.explain(2), "forward 2 words");
    assert_eq!(SingleMotion::Back.explain(40), "backward 40 words");
    assert_eq!(
        SingleMotion::Till { c: 'x' }.explain(2),
        "forward until 2 occurances of character 'x'"
    );
    assert_eq!(
        SingleMotion::BackTill { c: 'y' }.explain(105),
        "backward until 105 occurances of character 'y'"
    );
    assert_eq!(SingleMotion::Find { c: 'z' }.explain(0), "forward to 0 occurances of character 'z'");
    assert_eq!(
        SingleMotion::BackFind { c: '\u{e9}' }.explain(4294967295),
        "backward to 4294967295 occurances of character '\u{e9}'"
    );
    assert_eq!(
        SingleMotion::FindNext.explain(2),
        "to 2 next occurances of target from previous 't' or 'f' command "
    );
}

#[test]
fn motion_explains_as_its_kind_and_count() {
    assert_eq!(m(SingleMotion::Word, 1).explain(), "forward word");
    assert_eq!(m(SingleMotion::Word, 7).explain(), "forward 7 words");
}

#[test]
fn steps_explain_themselves() {
    assert_eq!(Op::Motion(m(SingleMotion::Left, 1)).explain(), "- go left");
    assert_eq!(
        Op::Insert { s: "ab".to_string() }.explain(),
        "- insert 'ab' at the current cursor location"
    );
    assert_eq!(
        Op::Append { s: "ab".to_string() }.explain(),
        "- append 'ab' after the current cursor location"
    );
    assert_eq!(
        Op::LineAppend { s: "".to_string() }.explain(),
        "- append '' at the end of the line"
    );
    assert_eq!(
        Op::Delete { motion: m(SingleMotion::Word, 2) }.explain(),
        "- delete forward 2 words"
    );
    assert_eq!(
        Op::DeleteToEnd.explain(),
        "- delete from current cursor position to the end of the line"
    );
    assert_eq!(
        Op::Yank { motion: m(SingleMotion::Find { c: ',' }, 1) }.explain(),
        "- yank forward to character ','"
    );
    assert_eq!(Op::Put.explain(), "- put yanked text at the current cursor location");
    assert_eq!(Op::Repeat.explain(), "- repeat last non-motion action");
}

#[test]
fn explanation_follows_the_steps_in_order() {
    let ops = parse("2wdt,p").unwrap();
    let lines: Vec<String> = ops.iter().map(|op| op.explain()).collect();
    assert_eq!(
        lines,
        vec![
            "- go forward 2 words".to_string(),
            "- delete forward until character ','".to_string(),
            "- put yanked text at the current cursor location".to_string(),
        ]
    );
}

#[test]
fn getters_hand_out_the_parts() {
    let go = Op::Motion(m(SingleMotion::Till { c: 'q' }, 4));
    assert_eq!(go.get_motion(), &m(SingleMotion::Till { c: 'q' }, 4));
    assert_eq!(go.get_repeat(), 4);
    assert_eq!(go.get_c(), 'q');
    assert_eq!(Op::Motion(m(SingleMotion::BackTill { c: 'a' }, 1)).get_c(), 'a');
    assert_eq!(Op::Motion(m(SingleMotion::Find { c: 'b' }, 1)).get_c(), 'b');
    assert_eq!(Op::Motion(m(SingleMotion::BackFind { c: 'c' }, 1)).get_c(), 'c');
    assert_eq!(Op::Insert { s: "one".to_string() }.get_s(), "one");
    assert_eq!(Op::Append { s: "two".to_string() }.get_s(), "two");
    assert_eq!(Op::LineAppend { s: "three".to_string() }.get_s(), "three");
}

#[test]
fn seeking_is_told_apart() {
    assert!(SingleMotion::Till { c: 'x' }.is_seeking());
    assert!(SingleMotion::BackTill { c: 'x' }.is_seeking());
    assert!(SingleMotion::Find { c: 'x' }.is_seeking());
    assert!(SingleMotion::BackFind { c: 'x' }.is_seeking());
    assert!(!SingleMotion::FindNext.is_seeking());
    assert!(!SingleMotion::Word.is_seeking());
}

#[test]
fn clone_of_a_step_is_equal_to_it() {
    let ops = parse("3li/ab/a/c/A/d/dwDytxp.").unwrap();
    for op in ops.iter() {
        assert_eq!(&op.clone(), op);
    }
}
