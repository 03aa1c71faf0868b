use faux_unix_system::cowsay::{bubble, cow_speech};
use faux_unix_system::filters::{count_lines, find_display, grep_lines, head_lines, rev_line, sed_lines, tail_text};
use faux_unix_system::fortune::{contains_text, fortune_fits, fortune_list};
use faux_unix_system::sort::{sort_lines, text_less};
use faux_unix_system::test_cmd::TestError;

fn strings(v: &[&str]) -> Vec<String> {
    v.iter().map(|s| s.to_string()).collect()
}

#[test]
fn rev_reverses_characters() {
    assert_eq!(rev_line("abc"), "cba");
    assert_eq!(rev_line("héllo"), "olléh");
    assert_eq!(rev_line(""), "");
}

#[test]
fn head_takes_first_lines() {
    let lines = strings(&["a", "b", "c"]);
    assert_eq!(head_lines(&lines, 2), strings(&["a", "b"]));
    assert_eq!(head_lines(&lines, 10), lines);
    assert!(head_lines(&lines, 0).is_empty());
}

#[test]
fn tail_keeps_last_lines() {
    assert_eq!(tail_text("1\n2\n3\n4\n", 2), "3\n4\n");
    assert_eq!(tail_text("1\n2\n3", 2), "1\n2\n3");
    assert_eq!(tail_text("1\n2\n3", 1), "2\n3");
    assert_eq!(tail_text("1\n2", 10), "1\n2");
    assert_eq!(tail_text("", 3), "");
    assert_eq!(tail_text("a\nb\n", usize::MAX), "a\nb\n");
}

#[test]
fn grep_filters_lines() {
    let lines = strings(&["apple", "Banana", "cherry"]);
    assert_eq!(grep_lines("an", &lines, false, false), Ok(strings(&["Banana"])));
    assert_eq!(grep_lines("an", &lines, true, false), Ok(strings(&["apple", "cherry"])));
    assert_eq!(grep_lines("^b", &lines, false, true), Ok(strings(&["Banana"])));
    assert_eq!(grep_lines("(", &lines, false, false), Err(TestError::BadPattern));
}

#[test]
fn sort_orders_lines() {
    let lines = strings(&["pear", "apple", "pear", "Zebra", "app"]);
    assert_eq!(sort_lines(&lines, false, false), strings(&["Zebra", "app", "apple", "pear", "pear"]));
    assert_eq!(sort_lines(&lines, false, true), strings(&["Zebra", "app", "apple", "pear"]));
    assert_eq!(sort_lines(&lines, true, true), strings(&["pear", "apple", "app", "Zebra"]));
    assert!(sort_lines(&Vec::new(), false, false).is_empty());
}

#[test]
fn text_order_is_code_order() {
    assert!(text_less("a", "b"));
    assert!(text_less("ab", "abc"));
    assert!(!text_less("abc", "abc"));
    assert!(text_less("Z", "a"));
    assert!(text_less("z", "é"));
}

#[test]
fn wc_counts_lines_words_bytes() {
    let c = count_lines(&strings(&["hello world", "  é  ", ""]));
    assert_eq!((c.lines, c.words, c.bytes), (3, 3, 17));
    let c = count_lines(&Vec::new());
    assert_eq!((c.lines, c.words, c.bytes), (0, 0, 0));
}

#[test]
fn sed_substitutes_each_line() {
    let lines = strings(&["aaa", "xa"]);
    assert_eq!(sed_lines("s/a/b/g", &lines), Some(strings(&["bbb", "xb"])));
    assert_eq!(sed_lines("s/a/b/", &lines), Some(strings(&["baa", "xb"])));
    assert_eq!(sed_lines("s/(/x/", &lines), None);
}

#[test]
fn cow_bubble_single_line() {
    assert_eq!(cow_speech("  hello \n").unwrap(), " _______\n< hello >\n -------\n");
}

#[test]
fn cow_bubble_several_lines() {
    let text = bubble(&strings(&["one", "three", "five!"])).unwrap();
    assert_eq!(
        text,
        " _______\n/ one   \\\n| three |\n\\ five! /\n -------\n"
    );
    let long = "The quick brown fox jumps over the lazy dog and keeps on running";
    let said = cow_speech(long).unwrap();
    let lines: Vec<&str> = said.lines().collect();
    assert_eq!(lines.len(), 4);
    assert!(lines[1].starts_with("/ The quick"));
    assert!(lines[2].starts_with("\\ "));
    assert!(lines.iter().all(|l| l.len() <= 44));
}

#[test]
fn fortunes_are_split_at_blank_lines() {
    assert_eq!(fortune_list("  a\nb\n\nc\n\n\nd \n"), strings(&["a\nb", "c", "\nd"]));
    assert_eq!(fortune_list(""), strings(&[""]));
}

#[test]
fn fortune_selection_rules() {
    assert!(contains_text("xxabcxx", "abc"));
    assert!(!contains_text("ab", "abc"));
    assert!(contains_text("", ""));
    assert!(!fortune_fits("abc", "xxabcxx", 0, false));
    assert!(fortune_fits("abc", "xxabcxx", 5, false));
    let long = "x".repeat(80);
    assert!(!fortune_fits(&long, "", 0, true));
    assert!(fortune_fits(&long, "", 0, false));
    assert!(fortune_fits(&"x".repeat(79), "", 0, true));
}

#[test]
fn find_shows_paths_as_written() {
    assert_eq!(find_display("/root/a/b", "/root", "."), "./a/b");
    assert_eq!(find_display("/usr", "", "/"), "/usr");
    assert_eq!(find_display("/root/x", "/root", "~/"), "~/x");
    assert_eq!(find_display("/elsewhere", "/root", "."), "/elsewhere");
}

#[test]
fn unique_reverse_sort_drops_duplicates() {
    let lines = strings(&["b", "a", "b", "c"]);
    assert_eq!(sort_lines(&lines, true, true), strings(&["c", "b", "a"]));
}
