use sortlist::grep::search;
use sortlist::grep::search_case_insensitive;
use sortlist::grep::str_contains;
use sortlist::grep::str_eq_str;
use sortlist::grep::Config;

#[test]
fn one_result() {
    let query = "duct";
    let contents = "\
Rust:
safe, fast, productive.
Pick three.";
    assert_eq!(vec!["safe, fast, productive."], search(query, contents));
}

#[test]
fn case_insensitive() {
    let query = "rUsT";
    let contents = "\
Rust:
safe, fast, productive.
Pick three.
Trust me.";
    assert_eq!(vec!["Rust:", "Trust me."], search_case_insensitive(query, contents));
}

#[test]
fn search_no_match() {
    let res = search("zebra", "one\ntwo\nthree");
    assert!(res.is_empty());
}

#[test]
fn search_keeps_order_and_duplicates() {
    let res = search("a", "cat\ndog\nbat\nowl");
    assert_eq!(vec!["cat", "bat"], res);
}

#[test]
fn search_strips_carriage_return_before_line_feed() {
    let res = search("a", "cat\r\nbat\r\ndog");
    assert_eq!(vec!["cat", "bat"], res);
}

#[test]
fn search_empty_contents() {
    let res = search("a", "");
    assert!(res.is_empty());
}

#[test]
fn str_contains_cases() {
    assert!(str_contains("hello", "ell"));
    assert!(str_contains("hello", ""));
    assert!(!str_contains("hello", "xyz"));
    assert!(!str_contains("ab", "abc"));
}

#[test]
fn str_eq_cases() {
    assert!(str_eq_str("1", "1"));
    assert!(!str_eq_str("1", "2"));
    assert!(!str_eq_str("1", "12"));
}

#[test]
fn config_too_few_arguments() {
    let args = vec![String::from("prog"), String::from("query")];
    let res = Config::new(&args, None);
    assert_eq!(res.err(), Some("Not enough arguments"));
}

#[test]
fn config_env_turns_case_folding_on() {
    let args = vec![
        String::from("prog"),
        String::from("needle"),
        String::from("file.txt"),
    ];
    let cfg = Config::new(&args, Some(String::from("1"))).unwrap();
    assert_eq!(cfg.query, "needle");
    assert_eq!(cfg.file_path, "file.txt");
    assert!(cfg.ignore_case);
}

#[test]
fn config_flag_argument_decides_when_env_differs() {
    let args = vec![
        String::from("prog"),
        String::from("needle"),
        String::from("file.txt"),
        String::from("1"),
    ];
    let cfg = Config::new(&args, Some(String::from("0"))).unwrap();
    assert!(cfg.ignore_case);
}

#[test]
fn config_defaults_to_case_sensitive() {
    let args = vec![
        String::from("prog"),
        String::from("needle"),
        String::from("file.txt"),
    ];
    let cfg = Config::new(&args, None).unwrap();
    assert!(!cfg.ignore_case);
}
