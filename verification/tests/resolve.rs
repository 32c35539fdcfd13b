use rwc::counter::CountResult;
use rwc::flags::DisplayFlags;
use rwc::format::render_report;
use rwc::input::{is_stdin_name, parse_stdin, read_error, record_read};

#[test]
fn stdin_name_is_a_single_hyphen() {
    assert!(is_stdin_name("-"));
    assert!(!is_stdin_name(""));
    assert!(!is_stdin_name("--"));
    assert!(!is_stdin_name("a"));
    assert!(!is_stdin_name("-a"));
    assert!(!is_stdin_name("\u{2010}"));
}

#[test]
fn stdin_is_counted_under_its_name() {
    let result = parse_stdin("one two\nthree");
    assert_eq!(result.name, "-");
    assert_eq!(result.lines, 2);
    assert_eq!(result.words, 3);
    assert_eq!(result.bytes, 13);
}

#[test]
fn read_error_names_the_path() {
    assert_eq!(read_error("nope.txt"), "Error reading file: nope.txt");
    assert_eq!(read_error(""), "Error reading file: ");
}

#[test]
fn a_text_that_was_read_adds_a_result() {
    let mut results: Vec<CountResult> = Vec::new();
    let diagnostic = record_read(&mut results, "a.txt", Some("hello world\n"));
    assert_eq!(diagnostic, None);
    assert_eq!(results.len(), 1);
    assert_eq!(results[0].name, "a.txt");
    assert_eq!((results[0].lines, results[0].words, results[0].bytes), (1, 2, 12));
}

#[test]
fn a_failed_read_adds_no_result() {
    let mut results: Vec<CountResult> = Vec::new();
    record_read(&mut results, "a.txt", Some("x"));
    let before = results.clone();
    let diagnostic = record_read(&mut results, "missing.txt", None);
    assert_eq!(diagnostic, Some(String::from("Error reading file: missing.txt")));
    assert_eq!(results, before);
}

#[test]
fn a_missing_file_among_two_valid_files() {
    let mut results: Vec<CountResult> = Vec::new();
    let mut diagnostics: Vec<String> = Vec::new();
    let reads = [
        ("a.txt", Some("hello world\n")),
        ("missing.txt", None),
        ("b.txt", Some("one\ntwo\nthree\n")),
    ];
    for (path, content) in reads {
        if let Some(message) = record_read(&mut results, path, content) {
            diagnostics.push(message);
        }
    }
    assert_eq!(diagnostics, vec!["Error reading file: missing.txt"]);
    assert_eq!(results.len(), 2);
    assert_eq!(results[0].name, "a.txt");
    assert_eq!(results[1].name, "b.txt");
    let none = DisplayFlags { show_lines: false, show_words: false, show_bytes: false };
    let rows = render_report(&results, none, reads.len());
    assert_eq!(rows, vec![" 1  2 12 a.txt", " 3  3 14 b.txt", " 4  5 26 total"]);
}
