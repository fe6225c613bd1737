use xargs::parser::{is_separator, split_into_batches, Parser};

/// Feeds `input` to a parser with budget `max_len` and returns the batches as
/// lines of arguments.
fn run(max_len: usize, input: &[u8]) -> Vec<Vec<String>> {
    let mut lines = Vec::<Vec<String>>::new();
    let mut p = Parser::new(max_len);
    let mut push = |batches: Vec<Vec<Vec<u8>>>, lines: &mut Vec<Vec<String>>| {
        for batch in batches {
            lines.push(batch.into_iter().map(|a| String::from_utf8(a).unwrap()).collect());
        }
    };
    for b in input {
        push(p.handle_byte(*b), &mut lines);
    }
    push(p.handle_eof(), &mut lines);
    lines
}

#[test]
fn empty() {
    assert_eq!(run(42, b""), Vec::<Vec<String>>::new());
}

#[test]
fn minimal_input() {
    assert_eq!(run(42, b"x"), [["x"]]);
}

#[test]
fn all_args_fit_in_single_line() {
    assert_eq!(run(3, b"x y"), [["x", "y"]]);
    assert_eq!(run(3, b"x y "), [["x", "y"]]);
}

#[test]
fn break_down_needed() {
    assert_eq!(run(3, b"x yz"), [["x"], ["yz"]]);
}

#[test]
fn every_token_kept_in_order() {
    let input = b"  alpha\tbeta\n\ngamma \r\x0cdelta  e ";
    let lines = run(11, input);
    let flat: Vec<String> = lines.iter().flatten().cloned().collect();
    assert_eq!(flat, ["alpha", "beta", "gamma", "delta", "e"]);
    // "alpha beta" takes 10 bytes; adding "gamma" would take 16.
    assert_eq!(lines, vec![vec!["alpha", "beta"], vec!["gamma", "delta"], vec!["e"]]);
}

#[test]
fn batches_stay_within_budget() {
    let lines = run(7, b"a bb ccc dddd e f g h");
    assert_eq!(
        lines,
        vec![vec!["a", "bb"], vec!["ccc"], vec!["dddd", "e"], vec!["f", "g", "h"]]
    );
    for line in &lines {
        let size: usize = line.iter().map(|a| a.len()).sum::<usize>() + line.len() - 1;
        assert!(size <= 7);
    }
}

#[test]
fn oversized_token_goes_alone() {
    assert_eq!(run(3, b"ab toolong c"), [vec!["ab"], vec!["toolong"], vec!["c"]]);
    assert_eq!(run(2, b"abcdef"), [["abcdef"]]);
}

#[test]
fn end_of_stream_twice_hands_out_nothing_more() {
    let mut p = Parser::new(10);
    for b in b"x y" {
        assert!(p.handle_byte(*b).is_empty());
    }
    assert_eq!(p.handle_eof(), vec![vec![b"x".to_vec(), b"y".to_vec()]]);
    assert!(p.handle_eof().is_empty());
}

#[test]
fn end_of_stream_may_flush_twice() {
    let mut p = Parser::new(3);
    for b in b"x yz" {
        p.handle_byte(*b);
    }
    assert_eq!(
        p.handle_eof(),
        vec![vec![b"x".to_vec()], vec![b"yz".to_vec()]]
    );
}

#[test]
fn only_whitespace_gives_no_batch() {
    assert_eq!(run(5, b" \t\n\r\x0c "), Vec::<Vec<String>>::new());
}

#[test]
fn vertical_tab_is_not_a_separator() {
    assert!(!is_separator(0x0b));
    assert!(is_separator(b' '));
    assert!(is_separator(b'\t'));
    assert!(is_separator(b'\n'));
    assert!(is_separator(b'\r'));
    assert!(is_separator(0x0c));
    assert!(!is_separator(b'a'));
    assert_eq!(run(10, b"a\x0bb"), [["a\x0bb"]]);
}

#[test]
fn bytes_round_trip() {
    let input: &[u8] = &[0xff, 0x80, b' ', 0x00, 0x01];
    assert_eq!(
        split_into_batches(1, input),
        vec![vec![vec![0xff, 0x80]], vec![vec![0x00, 0x01]]]
    );
}

#[test]
fn split_into_batches_matches_parser() {
    assert_eq!(
        split_into_batches(3, b"x yz"),
        vec![vec![b"x".to_vec()], vec![b"yz".to_vec()]]
    );
    assert!(split_into_batches(42, b"").is_empty());
}
