use jsx::cli::{process_document, process_line, scan_args, text_is, Command, Config};
use jsx::output::{
    decimal_text, format_result, list_indices, list_keys, strip_outer_quotes, Flags,
};
use jsx::segment::Segment;
use serde_json::Value;

fn doc(text: &str) -> Value {
    serde_json::from_str(text).unwrap()
}

fn none() -> Flags {
    Flags { count: false, print_keys: false, keep_invalid: false, remove_quotes: false }
}

fn config(args: &[&str]) -> Config {
    match scan_args(&args.iter().map(|a| a.to_string()).collect()) {
        Command::Run(c) => c,
        Command::Help => panic!("help"),
    }
}

fn run(args: &[&str], lines: &[&str]) -> Vec<String> {
    let c = config(args);
    lines.iter().filter_map(|l| process_line(l, &c)).collect()
}

#[test]
fn decimal_values() {
    assert_eq!(decimal_text(0), "0");
    assert_eq!(decimal_text(9), "9");
    assert_eq!(decimal_text(10), "10");
    assert_eq!(decimal_text(12345), "12345");
    assert_eq!(decimal_text(1000000), "1000000");
    assert_eq!(decimal_text(usize::MAX), usize::MAX.to_string());
}

#[test]
fn index_lists() {
    assert_eq!(list_indices(0), "");
    assert_eq!(list_indices(1), "0");
    assert_eq!(list_indices(3), "0, 1, 2");
    assert_eq!(list_indices(12), "0, 1, 2, 3, 4, 5, 6, 7, 8, 9, 10, 11");
}

#[test]
fn key_lists() {
    assert_eq!(list_keys(&Vec::new()), "");
    assert_eq!(list_keys(&vec![("only".to_string(), Value::Null)]), "only");
    assert_eq!(
        list_keys(&vec![
            ("x".to_string(), doc("1")),
            ("".to_string(), doc("2")),
            ("a, b".to_string(), doc("3")),
        ]),
        "x, , a, b"
    );
}

#[test]
fn outer_quotes() {
    assert_eq!(strip_outer_quotes("\"abc\""), "abc");
    assert_eq!(strip_outer_quotes("\"\""), "");
    assert_eq!(strip_outer_quotes("\""), "\"");
    assert_eq!(strip_outer_quotes(""), "");
    assert_eq!(strip_outer_quotes("abc"), "abc");
    assert_eq!(strip_outer_quotes("\"abc"), "\"abc");
    assert_eq!(strip_outer_quotes("abc\""), "abc\"");
    assert_eq!(strip_outer_quotes("\"\"abc\"\""), "\"abc\"");
    assert_eq!(strip_outer_quotes("\"a\\\"b\""), "a\\\"b");
    assert_eq!(strip_outer_quotes("\"é€\""), "é€");
}

#[test]
fn no_outcome() {
    assert_eq!(format_result(None, &none()), None);
    assert_eq!(format_result(None, &Flags { keep_invalid: true, ..none() }), Some(String::new()));
    let all = Flags { count: true, print_keys: true, keep_invalid: true, remove_quotes: true };
    assert_eq!(format_result(None, &all), Some(String::new()));
    assert_eq!(format_result(None, &Flags { keep_invalid: false, ..all }), None);
}

#[test]
fn arrays() {
    let count = Flags { count: true, ..none() };
    let keys = Flags { print_keys: true, ..none() };
    let both = Flags { count: true, print_keys: true, ..none() };
    assert_eq!(format_result(Some(doc("[5,6,7]")), &count), Some("3".to_string()));
    assert_eq!(format_result(Some(doc("[]")), &count), Some("0".to_string()));
    assert_eq!(format_result(Some(doc("[5,6,7]")), &both), Some("3".to_string()));
    assert_eq!(format_result(Some(doc("[]")), &both), Some("0".to_string()));
    assert_eq!(format_result(Some(doc("[5,6,7]")), &keys), Some("0, 1, 2".to_string()));
    assert_eq!(format_result(Some(doc("[]")), &keys), None);
    assert_eq!(format_result(Some(doc("[5, \"a\", [ ] ]")), &none()), Some("[5,\"a\",[]]".to_string()));
    assert_eq!(format_result(Some(doc("[]")), &none()), Some("[]".to_string()));
}

#[test]
fn objects() {
    let count = Flags { count: true, ..none() };
    let keys = Flags { print_keys: true, ..none() };
    let both = Flags { count: true, print_keys: true, ..none() };
    let text = "{\"x\": 1, \"y\": {\"z\": 2}}";
    assert_eq!(format_result(Some(doc(text)), &count), Some("2".to_string()));
    assert_eq!(format_result(Some(doc(text)), &both), Some("2".to_string()));
    assert_eq!(format_result(Some(doc("{}")), &count), Some("0".to_string()));
    assert_eq!(format_result(Some(doc(text)), &keys), Some("x, y".to_string()));
    assert_eq!(format_result(Some(doc("{}")), &keys), None);
    assert_eq!(format_result(Some(doc(text)), &none()), Some("{\"x\":1,\"y\":{\"z\":2}}".to_string()));
    assert_eq!(format_result(Some(doc("{}")), &none()), Some("{}".to_string()));
}

#[test]
fn keys_come_in_stored_order() {
    let keys = Flags { print_keys: true, ..none() };
    assert_eq!(
        format_result(Some(doc("{\"b\":1,\"a\":2,\"c\":3}")), &keys),
        Some("b, a, c".to_string())
    );
    assert_eq!(
        format_result(Some(doc("{\"b\":1,\"a\":2}")), &none()),
        Some("{\"b\":1,\"a\":2}".to_string())
    );
}

#[test]
fn strings() {
    let quotes = Flags { remove_quotes: true, ..none() };
    assert_eq!(format_result(Some(doc("\"zero\"")), &none()), Some("\"zero\"".to_string()));
    assert_eq!(format_result(Some(doc("\"zero\"")), &quotes), Some("zero".to_string()));
    assert_eq!(format_result(Some(doc("\"\"")), &quotes), Some("".to_string()));
    assert_eq!(format_result(Some(doc("\"a\\\"b\"")), &quotes), Some("a\\\"b".to_string()));
    assert_eq!(format_result(Some(doc("\"\\\"q\\\"\"")), &quotes), Some("\\\"q\\\"".to_string()));
    assert_eq!(format_result(Some(doc("\"a\\nb\"")), &quotes), Some("a\\nb".to_string()));
    let all = Flags { count: true, print_keys: true, keep_invalid: true, remove_quotes: true };
    assert_eq!(format_result(Some(doc("\"s\"")), &all), Some("s".to_string()));
    assert_eq!(
        format_result(Some(doc("\"s\"")), &Flags { remove_quotes: false, ..all }),
        Some("\"s\"".to_string())
    );
}

#[test]
fn other_scalars() {
    let all = Flags { count: true, print_keys: true, keep_invalid: true, remove_quotes: true };
    for flags in [none(), all] {
        assert_eq!(format_result(Some(doc("null")), &flags), Some("null".to_string()));
        assert_eq!(format_result(Some(doc("true")), &flags), Some("true".to_string()));
        assert_eq!(format_result(Some(doc("false")), &flags), Some("false".to_string()));
        assert_eq!(format_result(Some(doc("17")), &flags), Some("17".to_string()));
        assert_eq!(format_result(Some(doc("-2.5")), &flags), Some("-2.5".to_string()));
    }
}

#[test]
fn quotes_flag_leaves_containers_alone() {
    let quotes = Flags { remove_quotes: true, ..none() };
    assert_eq!(format_result(Some(doc("[\"a\"]")), &quotes), Some("[\"a\"]".to_string()));
    assert_eq!(format_result(Some(doc("{\"a\":\"b\"}")), &quotes), Some("{\"a\":\"b\"}".to_string()));
}

#[test]
fn flags_are_read_anywhere() {
    let c = config(&["a", "-c", "0", "--keys", "b", "-q", "--keep-invalid"]);
    assert_eq!(
        c.flags,
        Flags { count: true, print_keys: true, keep_invalid: true, remove_quotes: true }
    );
    assert_eq!(
        c.path,
        vec![
            Segment::Key("a".to_string()),
            Segment::Index("0".to_string(), 0),
            Segment::Key("b".to_string()),
        ]
    );
    let c = config(&[]);
    assert_eq!(c.flags, none());
    assert!(c.path.is_empty());
}

#[test]
fn each_flag_alone() {
    assert_eq!(config(&["-c"]).flags, Flags { count: true, ..none() });
    assert_eq!(config(&["--count"]).flags, Flags { count: true, ..none() });
    assert_eq!(config(&["-k"]).flags, Flags { print_keys: true, ..none() });
    assert_eq!(config(&["--keys"]).flags, Flags { print_keys: true, ..none() });
    assert_eq!(config(&["-i"]).flags, Flags { keep_invalid: true, ..none() });
    assert_eq!(config(&["--keep-invalid"]).flags, Flags { keep_invalid: true, ..none() });
    assert_eq!(config(&["-q"]).flags, Flags { remove_quotes: true, ..none() });
    assert_eq!(config(&["--remove-quotes"]).flags, Flags { remove_quotes: true, ..none() });
    let c = config(&["-x", "--Count", "-c "]);
    assert_eq!(c.flags, none());
    assert_eq!(c.path.len(), 3);
}

#[test]
fn help_wins() {
    for args in [vec!["-h"], vec!["--help"], vec!["a", "-c", "-h", "b"], vec!["x", "--help"]] {
        let args: Vec<String> = args.iter().map(|a| a.to_string()).collect();
        assert!(matches!(scan_args(&args), Command::Help));
    }
}

#[test]
fn same_text() {
    assert!(text_is("", ""));
    assert!(text_is("-c", "-c"));
    assert!(!text_is("-c", "-k"));
    assert!(!text_is("-c", "-cc"));
    assert!(!text_is("--keys", "--keep"));
    assert!(text_is("é", "é"));
}

#[test]
fn invalid_line() {
    assert_eq!(run(&["-i"], &["{not json"]), vec![String::new()]);
    assert_eq!(run(&[], &["{not json"]), Vec::<String>::new());
    assert_eq!(run(&["a", "-i"], &["", "   ", "[1,", "nul"]), vec![String::new(); 4]);
}

#[test]
fn keys_of_two_lines() {
    assert_eq!(
        run(&["a", "-k"], &["{\"a\":[1,2,3]}", "{\"a\":{\"x\":1,\"y\":2}}"]),
        vec!["0, 1, 2".to_string(), "x, y".to_string()]
    );
}

#[test]
fn numeric_key_end_to_end() {
    assert_eq!(run(&["0"], &["{\"0\":\"zero\"}"]), vec!["\"zero\"".to_string()]);
    assert_eq!(run(&["0", "-q"], &["{\"0\":\"zero\"}"]), vec!["zero".to_string()]);
}

#[test]
fn index_past_the_end_end_to_end() {
    assert_eq!(run(&["5", "-i"], &["[10,20,30]"]), vec![String::new()]);
    assert_eq!(run(&["5"], &["[10,20,30]"]), Vec::<String>::new());
}

#[test]
fn line_with_its_line_end() {
    assert_eq!(run(&["a"], &["{\"a\": [1, 2]}\n"]), vec!["[1,2]".to_string()]);
    assert_eq!(run(&["-c"], &["[1, 2]\r\n"]), vec!["2".to_string()]);
}

#[test]
fn empty_containers_with_keys_print_no_line() {
    assert_eq!(run(&["-k"], &["[]", "{}", "[1]"]), vec!["0".to_string()]);
    assert_eq!(run(&["-k", "-i"], &["[]", "{}"]), Vec::<String>::new());
}

#[test]
fn document_given_directly() {
    let c = config(&["a", "1"]);
    assert_eq!(process_document(Some(doc("{\"a\":[1,{\"b\":2}]}")), &c), Some("{\"b\":2}".to_string()));
    assert_eq!(process_document(Some(doc("{\"a\":[1]}")), &c), None);
    assert_eq!(process_document(None, &c), None);
    let c = config(&["a", "1", "-i"]);
    assert_eq!(process_document(None, &c), Some(String::new()));
    assert_eq!(process_document(Some(doc("3")), &c), Some(String::new()));
}

#[test]
fn repeated_key_keeps_last_value() {
    assert_eq!(run(&["a"], &["{\"a\":1,\"b\":2,\"a\":3}"]), vec!["3".to_string()]);
    assert_eq!(run(&["-k"], &["{\"a\":1,\"b\":2,\"a\":3}"]), vec!["a, b".to_string()]);
}
