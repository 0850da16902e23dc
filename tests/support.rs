use uf::{
    chars_of, config_path, eq_ignore_ascii_case, is_space_char, split_words, trim_text, Cli,
    Error, Invocation, MimeType, CONFIG_FILE,
};

fn args(a: &[&str]) -> Vec<String> {
    a.iter().map(|s| s.to_string()).collect()
}

#[test]
fn detector_output_is_trimmed_and_split() {
    let m = MimeType::from_output("text/plain\n").unwrap();
    assert_eq!(m.supertype(), "text");
    assert_eq!(m.subtype(), "plain");
    assert_eq!(m.to_string(), "text/plain");
    let m = MimeType::from_output("  image/svg+xml  ").unwrap();
    assert_eq!(m.to_string(), "image/svg+xml");
    let m = MimeType::from_output("a/b/c").unwrap();
    assert_eq!(m.supertype(), "a");
    assert_eq!(m.subtype(), "b/c");
    assert_eq!(
        MimeType::from_output("cannot open file\n").unwrap_err(),
        Error::DetectionFailed("cannot open file\n".to_string())
    );
}

#[test]
fn whitespace_agrees_with_std() {
    for c in (0u32..=0x10ffff).filter_map(char::from_u32) {
        assert_eq!(is_space_char(c), c.is_whitespace(), "{:x}", c as u32);
    }
}

#[test]
fn text_helpers_agree_with_std() {
    for s in ["", "  a b\tc  ", "\u{3000}x\u{a0}y\n", "one", " \u{2029} "] {
        let words: Vec<String> = s.split_whitespace().map(str::to_string).collect();
        assert_eq!(split_words(s), words);
        assert_eq!(trim_text(s), s.trim());
        assert_eq!(chars_of(s), s.chars().collect::<Vec<_>>());
    }
    assert!(eq_ignore_ascii_case("Text/PLAIN", "text/plain"));
    assert!(!eq_ignore_ascii_case("é", "É"));
    assert!(!eq_ignore_ascii_case("ab", "abc"));
}

#[test]
fn config_file_lives_in_the_home_directory() {
    assert_eq!(CONFIG_FILE, ".config/uf.conf");
    assert_eq!(config_path(Some("/home/u")).unwrap(), "/home/u/.config/uf.conf");
    assert_eq!(config_path(Some("/home/u/")).unwrap(), "/home/u/.config/uf.conf");
    assert_eq!(config_path(Some("/")).unwrap(), "/.config/uf.conf");
    assert_eq!(config_path(None).unwrap_err(), Error::NoHomeDirectory);
}

#[test]
fn command_line_is_read() {
    assert!(matches!(Cli::parse(&args(&["uf"])), Invocation::Usage));
    assert!(matches!(Cli::parse(&args(&["uf", "-h"])), Invocation::Help));
    assert!(matches!(Cli::parse(&args(&["uf", "--help", "x"])), Invocation::Help));
    assert!(matches!(Cli::parse(&args(&["uf", "-v"])), Invocation::Version));
    assert!(matches!(Cli::parse(&args(&["uf", "--version"])), Invocation::Version));
    assert!(matches!(Cli::parse(&args(&["uf", "a", "b"])), Invocation::Usage));
    match Cli::parse(&args(&["uf", "notes.txt"])) {
        Invocation::Open(cli) => assert_eq!(cli.file(), "notes.txt"),
        other => panic!("unexpected {other:?}"),
    }
}
