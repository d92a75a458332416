use norm::exec::{execute, execute_paged, Manager, Outputer, Worker};
use norm::parse::parse;

fn lines(items: &[&str]) -> Vec<String> {
    items.iter().map(|s| s.to_string()).collect()
}

fn groups_of(input: &[&str], page: usize) -> Vec<Vec<String>> {
    let mut manager = Manager::new();
    manager.distribute(&lines(input), page);
    assert_eq!(manager.count, manager.workers.len());
    for (place, worker) in manager.workers.iter().enumerate() {
        assert_eq!(worker.pos, place);
        assert!(!worker.lines.is_empty());
    }
    manager.workers.iter().map(|w| w.lines.clone()).collect()
}

#[test]
fn empty_command_gives_the_input_back() {
    let input = lines(&["one", "", "three 3", "  "]);
    assert_eq!(execute(input.clone(), parse("").unwrap()), input);
    assert_eq!(execute_paged(&input, &vec![], 4), input);
}

#[test]
fn no_lines_in_no_lines_out() {
    assert_eq!(execute(vec![], parse("dw").unwrap()), Vec::<String>::new());
}

#[test]
fn every_line_is_transformed() {
    let input = lines(&["hello world", "foo bar", "x", ""]);
    let out = execute(input, parse("dw").unwrap());
    assert_eq!(out, lines(&["world", "bar", "", ""]));
}

#[test]
fn output_has_one_line_per_input_line_in_order() {
    let input: Vec<String> = (0..200).map(|i| format!("line {}", i)).collect();
    let ops = parse("A/!/").unwrap();
    for page in [0, 1, 7, 16, 100, 4096, usize::MAX] {
        let out = execute_paged(&input, &ops, page);
        assert_eq!(out.len(), input.len());
        for (i, line) in out.iter().enumerate() {
            assert_eq!(line, &format!("line {}!", i));
        }
    }
    let out = execute(input.clone(), ops);
    assert_eq!(out.len(), 200);
    assert_eq!(out[199], "line 199!");
}

#[test]
fn lines_are_grouped_up_to_a_page() {
    assert_eq!(
        groups_of(&["aaaaa", "bbbbb", "ccccc", "dddddddddddddddddddd", "eee"], 10),
        vec![lines(&["aaaaa", "bbbbb"]), lines(&["ccccc"]), lines(&["dddddddddddddddddddd"]), lines(&["eee"])]
    );
    assert_eq!(groups_of(&["a", "b", "c"], 100), vec![lines(&["a", "b", "c"])]);
    assert_eq!(groups_of(&["aa", "bb", "cc"], 4), vec![lines(&["aa", "bb"]), lines(&["cc"])]);
    assert_eq!(groups_of(&["aa", "bb", "cc"], 3), vec![lines(&["aa"]), lines(&["bb"]), lines(&["cc"])]);
    assert_eq!(groups_of(&[], 10), Vec::<Vec<String>>::new());
}

#[test]
fn line_of_a_page_or_more_is_a_group_of_its_own() {
    assert_eq!(
        groups_of(&["a", "0123456789", "b"], 10),
        vec![lines(&["a"]), lines(&["0123456789"]), lines(&["b"])]
    );
    assert_eq!(groups_of(&["a", "b"], 1), vec![lines(&["a"]), lines(&["b"])]);
    assert_eq!(groups_of(&["", ""], 0), vec![lines(&[""]), lines(&[""])]);
    assert_eq!(groups_of(&["", "", "x"], 1), vec![lines(&["", ""]), lines(&["x"])]);
}

#[test]
fn size_of_a_line_is_counted_in_bytes() {
    assert_eq!(
        groups_of(&["\u{e9}\u{e9}", "ab"], 4),
        vec![lines(&["\u{e9}\u{e9}"]), lines(&["ab"])]
    );
    assert_eq!(groups_of(&["\u{e9}", "ab"], 4), vec![lines(&["\u{e9}", "ab"])]);
}

#[test]
fn worker_remembers_across_the_lines_of_its_group() {
    let input = lines(&["abab", "abab"]);
    let ops = parse(";fbD").unwrap();
    assert_eq!(execute_paged(&input, &ops, 4096), lines(&["a", "aba"]));
    assert_eq!(execute_paged(&input, &ops, 1), lines(&["a", "a"]));
}

#[test]
fn worker_recalls_the_last_edit_of_the_line_before() {
    let input = lines(&["a b", "c d"]);
    let ops = parse(".dw").unwrap();
    assert_eq!(execute_paged(&input, &ops, 4096), lines(&["b", ""]));
    assert_eq!(execute_paged(&input, &ops, 1), lines(&["b", "d"]));
}

#[test]
fn register_is_empty_at_the_start_of_each_line() {
    let input = lines(&["ab", "cd"]);
    let ops = parse("pyl").unwrap();
    assert_eq!(execute_paged(&input, &ops, 4096), input);
}

#[test]
fn worker_works_through_its_lines_in_place() {
    let mut worker = Worker::new(3, lines(&["hello world", "a b"]));
    worker.execute(&parse("wD").unwrap());
    assert_eq!(worker.pos, 3);
    assert_eq!(worker.lines, lines(&["hello ", "a "]));
}

#[test]
fn manager_adds_workers_in_order() {
    let mut manager = Manager::new();
    assert_eq!(manager.count, 0);
    manager.add_worker(lines(&["a"]));
    manager.add_worker(lines(&["b", "c"]));
    assert_eq!(manager.count, 2);
    assert_eq!(manager.workers[0].pos, 0);
    assert_eq!(manager.workers[1].pos, 1);
    assert_eq!(manager.workers[1].lines, lines(&["b", "c"]));
    let out = manager.start(&parse("A/./").unwrap());
    assert_eq!(out, lines(&["a.", "b.", "c."]));
    assert_eq!(manager.count, 2);
    assert_eq!(manager.workers[1].lines, lines(&["b.", "c."]));
}

#[test]
fn outputer_takes_lines_only_in_turn() {
    let mut out = Outputer::new();
    assert_eq!(out.allow, 0);
    assert!(!out.offer(1, &lines(&["late"])));
    assert_eq!(out.allow, 0);
    assert!(out.buf_wr.is_empty());
    assert!(out.offer(0, &lines(&["first", "second"])));
    assert_eq!(out.allow, 1);
    assert!(!out.offer(0, &lines(&["again"])));
    assert!(out.offer(1, &lines(&[])));
    assert!(out.offer(2, &lines(&["third"])));
    assert_eq!(out.allow, 3);
    assert_eq!(out.buf_wr, lines(&["first", "second", "third"]));
}

#[test]
fn grouping_makes_no_difference_without_recall() {
    let input = lines(&["hello world", "foo, bar baz", "", "x", "one two three"]);
    let ops = parse("wdwA/./0i/>/").unwrap();
    let whole = execute_paged(&input, &ops, usize::MAX);
    assert_eq!(whole, lines(&[">hello .", ">foobar baz.", ">.", ">.", ">one three."]));
    for page in [0, 1, 5, 12, 13, 25, 64] {
        assert_eq!(execute_paged(&input, &ops, page), whole);
    }
}
