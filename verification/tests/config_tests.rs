use minigrep::matching_lines;
use minigrep::Config;
use minigrep::ConfigError;

fn tokens(toks: &[&str]) -> Vec<String> {
    toks.iter().map(|t| t.to_string()).collect()
}

#[test]
fn new_config() {
    let config = Config::new(
        &[String::from(""), String::from("query"), String::from("filename")],
        false,
    )
    .unwrap();
    assert_eq!(String::from("query"), config.query);
    assert_eq!(String::from("filename"), config.filename);
}

#[test]
#[should_panic]
fn not_enough_args_panics() {
    Config::new(&[String::from("")], false).unwrap();
}

#[test]
fn default_is_case_sensitive() {
    let config = Config::new(&tokens(&["", "query", "filename"]), false).unwrap();
    assert!(config.case_sensitive);
}

#[test]
fn too_few_tokens_is_an_error() {
    assert!(matches!(
        Config::new(&tokens(&[""]), false),
        Err(ConfigError::InsufficientArguments)
    ));
    assert!(matches!(
        Config::new(&tokens(&["prog", "query"]), false),
        Err(ConfigError::InsufficientArguments)
    ));
    assert!(matches!(Config::new(&[], false), Err(ConfigError::InsufficientArguments)));
}

#[test]
fn environment_variable_selects_insensitive() {
    let config = Config::new(&tokens(&["prog", "query", "file"]), true).unwrap();
    assert!(!config.case_sensitive);
    assert_eq!("query", config.query);
    assert_eq!("file", config.filename);
}

#[test]
fn short_flag_flips_mode_and_shifts_tokens() {
    let config = Config::new(&tokens(&["prog", "-i", "query", "file"]), false).unwrap();
    assert!(!config.case_sensitive);
    assert_eq!("query", config.query);
    assert_eq!("file", config.filename);
}

#[test]
fn long_flag_flips_mode() {
    let config = Config::new(&tokens(&["prog", "query", "file", "--ignore-case"]), false)
        .unwrap();
    assert!(!config.case_sensitive);
    assert_eq!("query", config.query);
    assert_eq!("file", config.filename);
}

#[test]
fn flag_is_not_removed_when_environment_already_insensitive() {
    let config = Config::new(&tokens(&["prog", "-i", "query", "file"]), true).unwrap();
    assert!(!config.case_sensitive);
    assert_eq!("-i", config.query);
    assert_eq!("query", config.filename);
}

#[test]
fn only_the_first_flag_is_removed() {
    let config = Config::new(&tokens(&["prog", "-i", "query", "--ignore-case"]), false)
        .unwrap();
    assert!(!config.case_sensitive);
    assert_eq!("query", config.query);
    assert_eq!("--ignore-case", config.filename);
}

#[test]
fn matching_lines_follows_the_configured_mode() {
    let contents = "Rust:\nsafe, fast, productive.\nPick three.\nTrust me.";
    let sensitive = Config::new(&tokens(&["prog", "rUsT", "file"]), false).unwrap();
    assert_eq!(Vec::<&str>::new(), matching_lines(&sensitive, contents));
    let insensitive = Config::new(&tokens(&["prog", "rUsT", "file", "-i"]), false).unwrap();
    assert_eq!(vec!["Rust:", "Trust me."], matching_lines(&insensitive, contents));
}
