use minigrep::{run, Config};

fn args(words: &[&str]) -> Vec<String> {
    words.iter().map(|word| word.to_string()).collect()
}

#[test]
fn query_and_file_name_follow_the_program_name() {
    match Config::new(args(&["minigrep", "needle", "haystack.txt"]), true) {
        Ok(config) => {
            assert_eq!(config.query, "needle");
            assert_eq!(config.filename, "haystack.txt");
            assert!(config.case_sensitive);
        }
        Err(message) => panic!("{}", message),
    }
}

#[test]
fn toggle_decides_case_sensitivity() {
    let set = Config::new(args(&["minigrep", "q", "f"]), true).ok();
    assert!(matches!(set, Some(ref config) if config.case_sensitive));
    let unset = Config::new(args(&["minigrep", "q", "f"]), false).ok();
    assert!(matches!(unset, Some(ref config) if !config.case_sensitive));
}

#[test]
fn further_arguments_are_ignored() {
    match Config::new(args(&["minigrep", "q", "f", "more", "and more"]), false) {
        Ok(config) => {
            assert_eq!(config.query, "q");
            assert_eq!(config.filename, "f");
            assert!(!config.case_sensitive);
        }
        Err(message) => panic!("{}", message),
    }
}

#[test]
fn missing_query_is_reported() {
    assert_eq!(Config::new(args(&["minigrep"]), true).err(), Some("Didn't get a query string"));
    assert_eq!(Config::new(args(&[]), false).err(), Some("Didn't get a query string"));
    assert_eq!(minigrep::config::MISSING_QUERY, "Didn't get a query string");
}

#[test]
fn missing_file_name_is_reported() {
    assert_eq!(Config::new(args(&["minigrep", "needle"]), true).err(), Some("Didn't get a file name"));
    assert_eq!(minigrep::config::MISSING_FILENAME, "Didn't get a file name");
}

#[test]
fn run_searches_exactly_when_case_sensitive() {
    let config = Config {
        query: String::from("duct"),
        filename: String::from("poem.txt"),
        case_sensitive: true,
    };
    let contents = "Rust:\nsafe, fast, productive.\nPick three.\nDuct tape.";
    assert_eq!(run(&config, contents), vec!["safe, fast, productive."]);
}

#[test]
fn run_disregards_case_otherwise() {
    let config = Config {
        query: String::from("duct"),
        filename: String::from("poem.txt"),
        case_sensitive: false,
    };
    let contents = "Rust:\nsafe, fast, productive.\nPick three.\nDuct tape.";
    assert_eq!(run(&config, contents), vec!["safe, fast, productive.", "Duct tape."]);
}
