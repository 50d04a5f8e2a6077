use balancebeam::debugger::{
    classify_breakpoint_target, parse_address, parse_line_number, BreakpointTarget, DebuggerState,
};
use balancebeam::hangman::{find_next_word_pos, replace_char};
use balancebeam::rdiff::{diff_lines, lcs, Grid};
use balancebeam::rwc::count_words_characters;

#[test]
fn test_lcs() {
    let mut expected = Grid::new(5, 4);
    expected.set(1, 1, 1).unwrap();
    expected.set(1, 2, 1).unwrap();
    expected.set(1, 3, 1).unwrap();
    expected.set(2, 1, 1).unwrap();
    expected.set(2, 2, 1).unwrap();
    expected.set(2, 3, 2).unwrap();
    expected.set(3, 1, 1).unwrap();
    expected.set(3, 2, 1).unwrap();
    expected.set(3, 3, 2).unwrap();
    expected.set(4, 1, 1).unwrap();
    expected.set(4, 2, 2).unwrap();
    expected.set(4, 3, 2).unwrap();

    println!("Expected:");
    let result = lcs(
        &"abcd".chars().map(|c| c.to_string()).collect(),
        &"adb".chars().map(|c| c.to_string()).collect(),
    );
    println!("Got:");
    assert_eq!(result.size(), expected.size());
    for row in 0..expected.size().0 {
        for col in 0..expected.size().1 {
            assert_eq!(result.get(row, col), expected.get(row, col));
        }
    }
}

#[test]
fn grid_rejects_out_of_bounds() {
    let mut g = Grid::new(2, 3);
    assert_eq!(g.get(1, 2), Some(0));
    assert_eq!(g.get(2, 0), None);
    assert_eq!(g.get(0, 3), None);
    assert!(g.set(0, 0, 7).is_ok());
    assert_eq!(g.get(0, 0), Some(7));
    assert!(g.set(2, 0, 7).is_err());
    assert!(g.set(0, 3, 7).is_err());
}

#[test]
fn diff_lines_walks_the_table() {
    let lines1: Vec<String> = "abcd".chars().map(|c| c.to_string()).collect();
    let lines2: Vec<String> = "adb".chars().map(|c| c.to_string()).collect();
    let table = lcs(&lines1, &lines2);
    let out = diff_lines(&table, &lines1, &lines2, lines1.len(), lines2.len());
    let got: Vec<(char, &str)> = out.iter().map(|p| (p.0, p.1.as_str())).collect();
    assert_eq!(
        got,
        vec![(' ', "a"), ('<', "b"), ('<', "c"), (' ', "d"), ('>', "b")]
    );
}

#[test]
fn diff_of_equal_files_keeps_every_line() {
    let lines: Vec<String> = vec!["one".to_string(), "two".to_string()];
    let table = lcs(&lines, &lines);
    let out = diff_lines(&table, &lines, &lines, 2, 2);
    let got: Vec<(char, &str)> = out.iter().map(|p| (p.0, p.1.as_str())).collect();
    assert_eq!(got, vec![(' ', "one"), (' ', "two")]);
}

#[test]
fn find_next_word_pos_scans_from_start() {
    let word: Vec<char> = "banana".chars().collect();
    assert_eq!(find_next_word_pos(&word, &'a', 0), Some(1));
    assert_eq!(find_next_word_pos(&word, &'a', 2), Some(3));
    assert_eq!(find_next_word_pos(&word, &'a', 6), None);
    assert_eq!(find_next_word_pos(&word, &'z', 0), None);
    assert_eq!(find_next_word_pos(&word, &'b', 1), None);
}

#[test]
fn replace_char_overwrites_one_position() {
    let mut s = "-----".to_string();
    replace_char(&mut s, &'a', 1);
    assert_eq!(s, "-a---");
    replace_char(&mut s, &'z', 5);
    assert_eq!(s, "-a---");
    replace_char(&mut s, &'b', 4);
    assert_eq!(s, "-a--b");
}

#[test]
fn count_words_characters_counts_words_and_nonspace_bytes() {
    let lines: Vec<String> = vec![
        "hello world".to_string(),
        "".to_string(),
        "  a  bc   def ".to_string(),
    ];
    let (words, chars) = count_words_characters(&lines);
    assert_eq!(words, 5);
    assert_eq!(chars, 16);
}

#[test]
fn count_words_characters_counts_bytes_not_chars() {
    // "café" is four characters but five bytes; "é" alone is two bytes.
    let lines: Vec<String> = vec!["café au lait".to_string(), "é".to_string()];
    let (words, chars) = count_words_characters(&lines);
    assert_eq!(words, 4);
    assert_eq!(chars, 13);
}

#[test]
fn parse_address_reads_hex_with_optional_prefix() {
    assert_eq!(parse_address("0x1A"), Some(26));
    assert_eq!(parse_address("0X10"), Some(16));
    assert_eq!(parse_address("ff"), Some(255));
    assert_eq!(parse_address("0"), Some(0));
    assert_eq!(parse_address("0x+3"), Some(3));
    assert_eq!(parse_address(""), None);
    assert_eq!(parse_address("0x"), None);
    assert_eq!(parse_address("zz"), None);
    assert_eq!(parse_address("12g4"), None);
    assert_eq!(parse_address("-4"), None);
    // Seventeen hex digits overflow a 64-bit usize.
    assert_eq!(parse_address("1ffffffffffffffff"), None);
    assert_eq!(parse_address("ffffffffffffffff"), Some(usize::MAX));
}

#[test]
fn parse_line_number_reads_decimal() {
    assert_eq!(parse_line_number("0"), Some(0));
    assert_eq!(parse_line_number("120"), Some(120));
    assert_eq!(parse_line_number(""), None);
    assert_eq!(parse_line_number("12a"), None);
    assert_eq!(parse_line_number("18446744073709551615"), Some(usize::MAX));
    // One past usize::MAX overflows.
    assert_eq!(parse_line_number("18446744073709551616"), None);
}

#[test]
fn breakpoint_targets_dispatch_on_their_shape() {
    assert!(matches!(
        classify_breakpoint_target("0x400abc"),
        Some(BreakpointTarget::Address { addr: 0x400abc })
    ));
    assert!(matches!(
        classify_breakpoint_target("0Xff"),
        Some(BreakpointTarget::Address { addr: 255 })
    ));
    assert!(classify_breakpoint_target("0xzz").is_none());
    assert!(matches!(
        classify_breakpoint_target("42"),
        Some(BreakpointTarget::Line { line: 42 })
    ));
    assert!(classify_breakpoint_target("99999999999999999999999").is_none());
    assert!(matches!(
        classify_breakpoint_target("main"),
        Some(BreakpointTarget::Function)
    ));
    assert!(matches!(
        classify_breakpoint_target("_start2"),
        Some(BreakpointTarget::Function)
    ));
    // An empty argument is all digits vacuously, and no line number.
    assert!(classify_breakpoint_target("").is_none());
}

#[test]
fn breakpoints_are_numbered_in_order() {
    let mut st = DebuggerState::new();
    assert_eq!(st.record_breakpoint(0x1000), 0);
    assert_eq!(st.record_breakpoint(0x2000), 1);
    assert_eq!(st.breakpoint_count, 2);
    assert_eq!(st.breakpoints.len(), 2);
    assert_eq!(st.breakpoints[0].id, 0);
    assert_eq!(st.breakpoints[0].addr, 0x1000);
    assert_eq!(st.breakpoints[1].id, 1);
    assert_eq!(st.breakpoints[1].addr, 0x2000);
}
