use norm::line::{
    apply_single, back, back_over_gap, back_over_run, classify, run_motion, run_motion_recalling,
    seek_back_find, seek_back_till, seek_find, seek_till, skip_run, word, CharClass,
};
use norm::op::{Motion, SingleMotion};
use norm::text::{
    copy_range, extend_from, find_from, from_chars, push_decimal, remove_range, rfind_before, splice,
    to_chars,
};

fn chars(s: &str) -> Vec<char> {
    s.chars().collect()
}

#[test]
fn strings_and_characters_convert_both_ways() {
    assert_eq!(to_chars("ab\u{e9}\u{4e16}"), vec!['a', 'b', '\u{e9}', '\u{4e16}']);
    assert_eq!(to_chars(""), Vec::<char>::new());
    assert_eq!(from_chars(&vec!['x', '\u{1f600}', 'y']), "x\u{1f600}y");
    assert_eq!(from_chars(&vec![]), "");
    assert_eq!(from_chars(&to_chars("round trip")), "round trip");
}

#[test]
fn find_from_gives_first_place_or_length() {
    let v = chars("abcabc");
    assert_eq!(find_from(&v, 'b', 0), 1);
    assert_eq!(find_from(&v, 'b', 1), 1);
    assert_eq!(find_from(&v, 'b', 2), 4);
    assert_eq!(find_from(&v, 'b', 5), 6);
    assert_eq!(find_from(&v, 'x', 0), 6);
    assert_eq!(find_from(&v, 'a', 9), 6);
}

#[test]
fn rfind_before_gives_last_place_if_any() {
    let v = chars("abcabc");
    assert_eq!(rfind_before(&v, 'b', 6), Some(4));
    assert_eq!(rfind_before(&v, 'b', 4), Some(1));
    assert_eq!(rfind_before(&v, 'b', 1), None);
    assert_eq!(rfind_before(&v, 'x', 6), None);
    assert_eq!(rfind_before(&v, 'c', 9), Some(5));
    assert_eq!(rfind_before(&v, 'a', 0), None);
}

#[test]
fn splicing_and_cutting() {
    let v = chars("abcd");
    assert_eq!(splice(&v, 0, &chars("XY")), chars("XYabcd"));
    assert_eq!(splice(&v, 2, &chars("XY")), chars("abXYcd"));
    assert_eq!(splice(&v, 4, &chars("XY")), chars("abcdXY"));
    assert_eq!(splice(&v, 1, &chars("")), chars("abcd"));
    assert_eq!(remove_range(&v, 1, 3), chars("ad"));
    assert_eq!(remove_range(&v, 0, 4), chars(""));
    assert_eq!(remove_range(&v, 2, 2), chars("abcd"));
    assert_eq!(copy_range(&v, 1, 3), chars("bc"));
    assert_eq!(copy_range(&v, 4, 4), chars(""));
    let mut out = chars("z");
    extend_from(&mut out, &v, 1, 4);
    assert_eq!(out, chars("zbcd"));
}

#[test]
fn numbers_are_written_in_base_ten() {
    for (n, text) in [(0u32, "0"), (7, "7"), (10, "10"), (909, "909"), (4294967295, "4294967295")] {
        let mut s = String::from("n=");
        push_decimal(&mut s, n);
        assert_eq!(s, format!("n={}", text));
    }
}

#[test]
fn characters_fall_into_three_kinds() {
    for c in ['a', 'Z', '0', '9', '_', '\u{e9}', '\u{4e16}', '\u{663}'] {
        assert_eq!(classify(c), CharClass::Word);
    }
    for c in [' ', '\t', '\n', '\u{a0}', '\u{3000}'] {
        assert_eq!(classify(c), CharClass::Space);
    }
    for c in ['!', '-', ',', '.', '\'', '\u{1f600}', '\0'] {
        assert_eq!(classify(c), CharClass::Other);
    }
}

#[test]
fn runs_are_walked_to_their_ends() {
    let v = chars("ab  !!cd");
    assert_eq!(skip_run(&v, CharClass::Word, 0), 2);
    assert_eq!(skip_run(&v, CharClass::Space, 0), 0);
    assert_eq!(skip_run(&v, CharClass::Space, 2), 4);
    assert_eq!(skip_run(&v, CharClass::Other, 4), 6);
    assert_eq!(skip_run(&v, CharClass::Word, 6), 8);
    assert_eq!(skip_run(&v, CharClass::Word, 8), 8);
    assert_eq!(skip_run(&v, CharClass::Word, 20), 20);
    assert_eq!(back_over_run(&v, CharClass::Word, 8), 6);
    assert_eq!(back_over_run(&v, CharClass::Other, 6), 4);
    assert_eq!(back_over_run(&v, CharClass::Word, 2), 0);
    assert_eq!(back_over_run(&v, CharClass::Word, 0), 0);
    assert_eq!(back_over_run(&v, CharClass::Word, 20), 20);
    assert_eq!(back_over_gap(&v, 6), 2);
    assert_eq!(back_over_gap(&v, 8), 8);
    assert_eq!(back_over_gap(&chars("  !"), 3), 0);
}

#[test]
fn word_motions_on_a_line() {
    let v = chars("foo, bar");
    assert_eq!(word(&v, 0), 3);
    assert_eq!(word(&v, 3), 5);
    assert_eq!(word(&v, 5), 8);
    assert_eq!(word(&v, 8), 8);
    assert_eq!(back(&v, 8), 5);
    assert_eq!(back(&v, 5), 4);
    assert_eq!(back(&v, 3), 0);
    assert_eq!(back(&v, 0), 0);
    assert_eq!(back(&v, 4), 3);
}

#[test]
fn seeking_on_a_line() {
    let v = chars("abcabc");
    assert_eq!(seek_find(&v, 0, 'c'), 2);
    assert_eq!(seek_find(&v, 2, 'c'), 5);
    assert_eq!(seek_find(&v, 5, 'c'), 5);
    assert_eq!(seek_find(&v, 0, 'a'), 3);
    assert_eq!(seek_find(&v, 6, 'a'), 6);
    assert_eq!(seek_till(&v, 0, 'c'), 1);
    assert_eq!(seek_till(&v, 1, 'c'), 4);
    assert_eq!(seek_till(&v, 4, 'c'), 4);
    assert_eq!(seek_till(&v, 0, 'b'), 3);
    assert_eq!(seek_till(&v, 5, 'a'), 5);
    assert_eq!(seek_back_find(&v, 5, 'a'), 3);
    assert_eq!(seek_back_find(&v, 3, 'a'), 0);
    assert_eq!(seek_back_find(&v, 0, 'a'), 0);
    assert_eq!(seek_back_till(&v, 5, 'a'), 4);
    assert_eq!(seek_back_till(&v, 4, 'a'), 4);
    assert_eq!(seek_back_till(&v, 3, 'a'), 1);
    assert_eq!(seek_back_till(&v, 2, 'x'), 2);
}

#[test]
fn single_applications() {
    let v = chars("abc");
    assert_eq!(apply_single(&v, 2, SingleMotion::Beg), 0);
    assert_eq!(apply_single(&v, 0, SingleMotion::End), 2);
    assert_eq!(apply_single(&v, 1, SingleMotion::Left), 0);
    assert_eq!(apply_single(&v, 0, SingleMotion::Left), 0);
    assert_eq!(apply_single(&v, 1, SingleMotion::Right), 2);
    assert_eq!(apply_single(&v, 2, SingleMotion::Right), 2);
    assert_eq!(apply_single(&v, 0, SingleMotion::Find { c: 'c' }), 2);
    assert_eq!(apply_single(&v, 0, SingleMotion::FindNext), 0);
    assert_eq!(apply_single(&chars(""), 0, SingleMotion::End), 0);
    assert_eq!(apply_single(&chars(""), 0, SingleMotion::Right), 0);
}

#[test]
fn whole_motions_are_all_or_nothing() {
    let v = chars("abcdef");
    let right = |repeat| Motion { mot: SingleMotion::Right, repeat };
    assert_eq!(run_motion(&v, 0, right(0)), 0);
    assert_eq!(run_motion(&v, 0, right(5)), 5);
    assert_eq!(run_motion(&v, 0, right(6)), 0);
    assert_eq!(run_motion(&v, 3, right(2)), 5);
    assert_eq!(run_motion(&v, 3, right(3)), 3);
    assert_eq!(run_motion(&v, 3, right(u32::MAX)), 3);
    assert_eq!(run_motion(&v, 4, Motion { mot: SingleMotion::Beg, repeat: 1 }), 0);
    assert_eq!(run_motion(&v, 4, Motion { mot: SingleMotion::Beg, repeat: 2 }), 4);
    assert_eq!(run_motion(&v, 0, Motion { mot: SingleMotion::FindNext, repeat: 1 }), 0);
}

#[test]
fn recalling_carries_out_the_remembered_motion() {
    let v = chars("a1a2a3a4");
    let again = |repeat| Motion { mot: SingleMotion::FindNext, repeat };
    let last = Some(Motion { mot: SingleMotion::Find { c: 'a' }, repeat: 2 });
    assert_eq!(run_motion_recalling(&v, 0, again(1), None), 0);
    assert_eq!(run_motion_recalling(&v, 0, again(1), last), 4);
    assert_eq!(run_motion_recalling(&v, 2, again(1), last), 6);
    assert_eq!(run_motion_recalling(&v, 4, again(1), last), 4);
    assert_eq!(run_motion_recalling(&v, 0, again(2), last), 0);
    assert_eq!(
        run_motion_recalling(&v, 0, again(3), Some(Motion { mot: SingleMotion::Find { c: 'a' }, repeat: 1 })),
        6
    );
    assert_eq!(
        run_motion_recalling(&v, 0, Motion { mot: SingleMotion::Right, repeat: 2 }, last),
        2
    );
    assert_eq!(run_motion_recalling(&v, 0, again(1), Some(again(1))), 0);
}
