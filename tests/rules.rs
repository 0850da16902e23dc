use uf::{Config, Error, Mapping, MimeType, MimeTypeKey};

fn lines(text: &[&str]) -> Vec<Option<String>> {
    text.iter().map(|l| Some(l.to_string())).collect()
}

fn config(text: &[&str]) -> Config {
    Config::parse(&lines(text)).expect("valid configuration")
}

#[test]
fn ext_line_gives_one_extension_rule() {
    let c = config(&["ext txt edit"]);
    assert_eq!(c.mappings().len(), 1);
    match &c.mappings()[0] {
        Mapping::Extension { extension, program } => {
            assert_eq!(extension, "txt");
            assert_eq!(program, "edit");
        }
        other => panic!("unexpected rule {other:?}"),
    }
}

#[test]
fn mime_line_gives_one_mime_rule() {
    let c = config(&["mime text/plain view"]);
    assert_eq!(c.mappings().len(), 1);
    match &c.mappings()[0] {
        Mapping::Mime { mime, program } => {
            assert_eq!(mime.supertype(), "text");
            assert_eq!(mime.subtype(), Some("plain"));
            assert_eq!(program, "view");
        }
        other => panic!("unexpected rule {other:?}"),
    }
}

#[test]
fn wildcard_key_has_no_subtype() {
    let key = MimeTypeKey::from_str("image/*").unwrap();
    assert_eq!(key.supertype(), "image");
    assert_eq!(key.subtype(), None);
}

#[test]
fn words_may_be_separated_by_tabs_and_runs_of_spaces() {
    let c = config(&["  ext\t\tpdf   zathura  "]);
    match &c.mappings()[0] {
        Mapping::Extension { extension, program } => {
            assert_eq!(extension, "pdf");
            assert_eq!(program, "zathura");
        }
        other => panic!("unexpected rule {other:?}"),
    }
}

#[test]
fn blank_and_comment_lines_give_no_rule() {
    assert!(matches!(Mapping::parse_line("", 1), Ok(None)));
    assert!(matches!(Mapping::parse_line("   \t ", 1), Ok(None)));
    assert!(matches!(Mapping::parse_line("  # just a comment", 1), Ok(None)));
    assert!(matches!(Mapping::parse_line("#ext txt edit", 1), Ok(None)));
    let c = config(&["", "# header", "   "]);
    assert!(c.mappings().is_empty());
}

#[test]
fn trailing_comment_is_ignored() {
    let with = Mapping::parse_line("ext txt edit  # trailing", 3).unwrap().unwrap();
    let without = Mapping::parse_line("ext txt edit", 3).unwrap().unwrap();
    match (&with, &without) {
        (
            Mapping::Extension { extension: ext_a, program: prog_a },
            Mapping::Extension { extension: ext_b, program: prog_b },
        ) => {
            assert_eq!(ext_a, ext_b);
            assert_eq!(prog_a, prog_b);
            assert_eq!(ext_a, "txt");
            assert_eq!(prog_a, "edit");
        }
        _ => panic!("expected two extension rules"),
    }
    let glued = Mapping::parse_line("ext txt edit#no space", 1).unwrap().unwrap();
    assert!(matches!(glued, Mapping::Extension { ref program, .. } if program == "edit"));
}

#[test]
fn first_matching_rule_wins() {
    let c = config(&["mime text/* A", "ext txt B"]);
    let mime = MimeType::new("text", "plain");
    assert_eq!(c.get_program("notes.txt", &mime).unwrap(), "A");
    let c = config(&["ext txt B", "mime text/* A"]);
    assert_eq!(c.get_program("notes.txt", &mime).unwrap(), "B");
}

#[test]
fn wildcard_matches_any_subtype() {
    let key = MimeTypeKey::from_str("image/*").unwrap();
    assert!(key.matches(&MimeType::new("image", "png")));
    assert!(key.matches(&MimeType::new("image", "jpeg")));
    assert!(!key.matches(&MimeType::new("application", "png")));
}

#[test]
fn mime_matching_ignores_case() {
    let key = MimeTypeKey::from_str("Text/Plain").unwrap();
    assert!(key.matches(&MimeType::new("text", "plain")));
    assert!(key.matches(&MimeType::new("TEXT", "PLAIN")));
    assert!(!key.matches(&MimeType::new("text", "html")));
    assert!(!key.matches(&MimeType::new("text", "plai")));
}

#[test]
fn extension_matching_is_exact() {
    let c = config(&["ext txt edit"]);
    let mime = MimeType::new("text", "plain");
    assert_eq!(c.get_program("a.txt", &mime).unwrap(), "edit");
    match c.get_program("A.TXT", &mime) {
        Err(Error::NoProgramFound { extension, .. }) => {
            assert_eq!(extension.as_deref(), Some("TXT"))
        }
        other => panic!("unexpected {other:?}"),
    }
}

#[test]
fn malformed_lines_are_rejected() {
    assert_eq!(
        Mapping::parse_line("ext", 1).unwrap_err(),
        Error::InvalidLine(1, "ext".to_string())
    );
    assert_eq!(
        Mapping::parse_line("foo a b", 2).unwrap_err(),
        Error::InvalidLine(2, "foo a b".to_string())
    );
    assert_eq!(
        Mapping::parse_line("mime bad a", 3).unwrap_err(),
        Error::InvalidMimeType("bad".to_string())
    );
    assert_eq!(
        Mapping::parse_line("mime /sub a", 4).unwrap_err(),
        Error::InvalidMimeType("/sub".to_string())
    );
    assert_eq!(
        Mapping::parse_line("ext a b c", 5).unwrap_err(),
        Error::InvalidLine(5, "ext a b c".to_string())
    );
}

#[test]
fn malformed_mime_keys_are_rejected() {
    for key in ["text/", "/plain", "text", "te xt/plain", "text/pl*in", "*/plain", "text/a/b"] {
        assert_eq!(
            MimeTypeKey::from_str(key).unwrap_err(),
            Error::InvalidMimeType(key.to_string()),
            "{key}"
        );
    }
    for key in ["application/vnd.ms-excel", "image/svg+xml", "x_1/y.2"] {
        assert!(MimeTypeKey::from_str(key).is_ok(), "{key}");
    }
}

#[test]
fn first_bad_line_fails_the_file_with_its_number() {
    let err = Config::parse(&lines(&["ext txt edit", "", "bogus line"])).unwrap_err();
    assert_eq!(err, Error::InvalidLine(3, "bogus line".to_string()));
    let mut ls = lines(&["ext txt edit", "mime x/y z"]);
    ls.push(None);
    ls.push(Some("bad".to_string()));
    assert_eq!(Config::parse(&ls).unwrap_err(), Error::LineReadError(3));
    let mut ls = lines(&["bad"]);
    ls.push(None);
    assert_eq!(
        Config::parse(&ls).unwrap_err(),
        Error::InvalidLine(1, "bad".to_string())
    );
}

#[test]
fn no_matching_rule_reports_type_and_extension() {
    let c = config(&["ext txt A"]);
    let mime = MimeType::new("image", "png");
    match c.get_program("photo.png", &mime) {
        Err(Error::NoProgramFound { mime, extension }) => {
            assert_eq!(mime.to_string(), "image/png");
            assert_eq!(extension.as_deref(), Some("png"));
        }
        other => panic!("unexpected {other:?}"),
    }
    match c.get_program("README", &mime) {
        Err(Error::NoProgramFound { extension, .. }) => assert_eq!(extension, None),
        other => panic!("unexpected {other:?}"),
    }
}

#[test]
fn parsing_twice_gives_the_same_rules() {
    let text = lines(&["mime text/* A", "ext txt B", "# c", "mime image/png C"]);
    let a = Config::parse(&text).unwrap();
    let b = Config::parse(&text).unwrap();
    assert_eq!(format!("{a:?}"), format!("{b:?}"));
    for (file, sup, sub) in [("x.txt", "text", "plain"), ("y.png", "image", "png"), ("z", "a", "b")] {
        let mime = MimeType::new(sup, sub);
        assert_eq!(
            format!("{:?}", a.get_program(file, &mime)),
            format!("{:?}", b.get_program(file, &mime))
        );
    }
}

#[test]
fn extension_is_taken_from_the_file_name() {
    let c = config(&["ext gz unpack", "ext bashrc shell"]);
    let mime = MimeType::new("application", "gzip");
    assert_eq!(c.get_program("dir.d/archive.tar.gz", &mime).unwrap(), "unpack");
    assert!(c.get_program(".bashrc", &mime).is_err());
    assert!(c.get_program("dir.gz/file", &mime).is_err());
}

#[test]
fn resolve_takes_the_extension_as_given() {
    let c = config(&["ext md edit", "mime text/* view"]);
    let mime = MimeType::new("text", "markdown");
    assert_eq!(c.resolve(&mime, Some("md")).unwrap(), "edit");
    assert_eq!(c.resolve(&mime, None).unwrap(), "view");
    let other = MimeType::new("image", "png");
    assert_eq!(
        c.resolve(&other, Some("png")).unwrap_err(),
        Error::NoProgramFound {
            mime: MimeType::new("image", "png"),
            extension: Some("png".to_string())
        }
    );
}
