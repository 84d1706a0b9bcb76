use exercises::grep::{search, search_case_insensitive, Config};

#[test]
fn case_sensitive() {
    let expected = vec!["safe, fast, productive."];
    let query = "duct";
    let contents = "\
Rust:
safe, fast, productive.
Pick three.
Duct tape.";

    let result = search(query, contents);
    assert_eq!(expected, result);
}

#[test]
fn case_insensitive() {
    let expected = vec!["Rust:", "Trust me."];
    let query = "rUsT";
    let contents = "\
Rust:
safe, fast, productive.
Pick three.
Trust me.";
    let result = search_case_insensitive(query, contents);
    assert_eq!(expected, result);
}

#[test]
fn flag_true_when_known() {
    let expected = true;
    let args = vec![
        "target/debug/minigrep".to_string(),
        "-i".to_string(),
        "to".to_string(),
        "poem.txt".to_string(),
    ];
    let config = Config::build(&args, false);
    let result = config.unwrap().ignore_case;

    assert_eq!(expected, result);

    let args = vec![
        "target/debug/minigrep".to_string(),
        "--ignore-case".to_string(),
        "to".to_string(),
        "poem.txt".to_string(),
    ];
    let config = Config::build(&args, false);
    let result = config.unwrap().ignore_case;

    assert_eq!(expected, result);
}

#[test]
fn flag_false_when_unknown() {
    let expected = false;
    let args = vec![
        "target/debug/minigrep".to_string(),
        "-a".to_string(),
        "to".to_string(),
        "poem.txt".to_string(),
    ];
    let config = Config::build(&args, false);
    let result = config.unwrap().ignore_case;

    assert_eq!(expected, result);

    let args = vec![
        "target/debug/minigrep".to_string(),
        "--abc".to_string(),
        "to".to_string(),
        "poem.txt".to_string(),
    ];
    let config = Config::build(&args, false);
    let result = config.unwrap().ignore_case;

    assert_eq!(expected, result);
}

#[test]
fn flag_false_when_none() {
    let expected = false;
    let args = vec![
        "target/debug/minigrep".to_string(),
        "to".to_string(),
        "poem.txt".to_string(),
    ];
    let config = Config::build(&args, false);
    let result = config.unwrap().ignore_case;
    assert_eq!(expected, result);
}

#[test]
fn flag_from_environment() {
    let args = vec![
        "target/debug/minigrep".to_string(),
        "to".to_string(),
        "poem.txt".to_string(),
    ];
    let config = Config::build(&args, true).unwrap();
    assert!(config.ignore_case);
    assert_eq!(config.query, "to");
    assert_eq!(config.file_path, "poem.txt");
}

#[test]
fn build_rejects_short_argument_lists() {
    let args = vec!["target/debug/minigrep".to_string(), "to".to_string()];
    assert!(matches!(Config::build(&args, false), Err("not enough arguments")));
}

#[test]
fn build_with_flag_takes_later_words() {
    let args = vec![
        "target/debug/minigrep".to_string(),
        "-i".to_string(),
        "to".to_string(),
        "poem.txt".to_string(),
    ];
    let config = Config::build(&args, false).unwrap();
    assert_eq!(config.query, "to");
    assert_eq!(config.file_path, "poem.txt");
}

#[test]
fn search_no_match_is_empty() {
    let result = search("zzz", "one\ntwo\nthree");
    assert!(result.is_empty());
}
