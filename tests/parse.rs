use nix_config_parser::{interpret_line, ConfigParser, Line, NixConfig, ParseError};

/// Parses `text`, reading the files that its directives name from `files`
/// (path, contents); a path missing from `files` cannot be read.
fn parse_with(
    text: &str,
    origin: Option<String>,
    files: &[(&str, &str)],
) -> Result<NixConfig, ParseError> {
    let mut parser = ConfigParser::new(text, origin);
    while let Some(path) = parser.next_directive()? {
        let child = files
            .iter()
            .find(|(name, _)| *name == path)
            .and_then(|(name, body)| parse_with(body, Some(name.to_string()), files).ok());
        parser.resolve(child)?;
    }
    Ok(parser.into_config())
}

fn parse_string(text: &str, origin: Option<String>) -> Result<NixConfig, ParseError> {
    parse_with(text, origin, &[])
}

fn pairs(config: &NixConfig) -> Vec<(String, String)> {
    config
        .settings()
        .iter()
        .map(|(k, v)| (k.clone(), v.clone()))
        .collect()
}

fn owned(items: &[(&str, &str)]) -> Vec<(String, String)> {
    items
        .iter()
        .map(|(k, v)| (k.to_string(), v.to_string()))
        .collect()
}

#[test]
fn parses_config_from_string() {
    // Leading space of ` cores = 4242` is intentional and exercises an edge case.
    let res = parse_string(
        " cores = 4242\nexperimental-features = flakes nix-command\n # some comment\n# another comment\n#anotha one",
        None,
    );

    assert!(res.is_ok());

    let map = res.unwrap();

    assert_eq!(map.settings().get("cores"), Some(&"4242".into()));
    assert_eq!(
        map.settings().get("experimental-features"),
        Some(&"flakes nix-command".into())
    );
}

#[test]
fn errors_on_invalid_config() {
    let test_file = "/nonexistent-nix-config-dir/does-not-exist";

    match parse_string("bad config", None) {
        Err(ParseError::IllegalConfiguration(_, _)) => (),
        _ => assert!(
            false,
            "bad config should have returned ParseError::IllegalConfiguration"
        ),
    }

    match parse_string(&format!("include {}", test_file), None) {
        Err(ParseError::IncludedFileNotFound(path, _)) => assert_eq!(path, test_file),
        _ => assert!(
            false,
            "nonexistent include path should have returned ParseError::IncludedFileNotFound"
        ),
    }
}

#[test]
fn handles_consecutive_whitespace() {
    let res = parse_string(
        "substituters        = https://hydra.iohk.io https://iohk.cachix.org https://cache.nixos.org/",
        None,
    );

    assert!(res.is_ok());

    let map = res.unwrap();

    assert_eq!(
        map.settings().get("substituters"),
        Some(&"https://hydra.iohk.io https://iohk.cachix.org https://cache.nixos.org/".into())
    );
}

#[test]
fn returns_the_same_order() {
    let res = parse_string(
        r#"
                cores = 32
                experimental-features = flakes nix-command
                max-jobs = 16
            "#,
        None,
    );

    assert!(res.is_ok());

    let map = res.unwrap();

    // Ensure it's not just luck that it's the same order...
    for _ in 0..10 {
        let settings = map.settings();

        let mut settings_order = settings.into_iter();
        assert_eq!(settings_order.next(), Some((&"cores".into(), &"32".into())),);
        assert_eq!(
            settings_order.next(),
            Some((
                &"experimental-features".into(),
                &"flakes nix-command".into()
            )),
        );
        assert_eq!(
            settings_order.next(),
            Some((&"max-jobs".into(), &"16".into())),
        );
    }
}

#[test]
fn parsing_twice_gives_equal_settings() {
    let text = "a = 1\nb = x y\n# note\nc =\n";
    let first = parse_string(text, None).unwrap();
    let second = parse_string(text, None).unwrap();
    assert_eq!(first, second);
    assert_eq!(pairs(&first), pairs(&second));
}

#[test]
fn reassignment_keeps_first_position() {
    let map = parse_string("a = 1\nb = 2\na = 3\nc = 4\nb = 5", None).unwrap();
    assert_eq!(pairs(&map), owned(&[("a", "3"), ("b", "5"), ("c", "4")]));
}

#[test]
fn directive_settings_merge_in_encounter_order() {
    let files = [
        ("/etc/one.conf", "b = from-one\nx = 1\n"),
        ("/etc/two.conf", "y = 2\na = from-two\n"),
    ];
    let text = "a = 0\ninclude /etc/one.conf\nz = 9\n!include /etc/two.conf\nb = last";
    let map = parse_with(text, None, &files).unwrap();
    assert_eq!(
        pairs(&map),
        owned(&[
            ("a", "from-two"),
            ("b", "last"),
            ("x", "1"),
            ("z", "9"),
            ("y", "2"),
        ])
    );
}

#[test]
fn nested_directives_are_read_depth_first() {
    let files = [
        ("/a.conf", "p = 1\ninclude /b.conf\nq = 2"),
        ("/b.conf", "r = 3\np = 4"),
    ];
    let map = parse_with("include /a.conf\ns = 5", None, &files).unwrap();
    assert_eq!(
        pairs(&map),
        owned(&[("p", "4"), ("r", "3"), ("q", "2"), ("s", "5")])
    );
}

#[test]
fn blank_lines_and_comments_give_no_settings() {
    let map = parse_string("\n   \n\t# comment\n#\n \r\n# a = b\n", None).unwrap();
    assert!(map.settings().is_empty());
    let empty = parse_string("", None).unwrap();
    assert!(empty.settings().is_empty());
}

#[test]
fn separator_runs_act_as_one_space() {
    let wide = parse_string("k \t  =\t\ta    b \t c", None).unwrap();
    let narrow = parse_string("k = a b c", None).unwrap();
    assert_eq!(wide, narrow);
    assert_eq!(wide.settings().get("k"), Some(&"a b c".into()));
}

#[test]
fn value_has_single_spaces_and_no_outer_whitespace() {
    let map = parse_string("  opts   =   one\ttwo   three  \r\n", None).unwrap();
    assert_eq!(map.settings().get("opts"), Some(&"one two three".into()));
}

#[test]
fn comment_ends_a_value() {
    let map = parse_string("key = value # trailing = words\nother = a#b c", None).unwrap();
    assert_eq!(map.settings().get("key"), Some(&"value".into()));
    assert_eq!(map.settings().get("other"), Some(&"a".into()));
    for (k, v) in map.settings() {
        assert!(!k.contains('#'));
        assert!(!v.contains('#'));
    }
}

#[test]
fn key_without_value_is_empty() {
    let map = parse_string("key =", None).unwrap();
    assert_eq!(map.settings().get("key"), Some(&"".into()));
}

#[test]
fn key_alone_is_illegal() {
    assert_eq!(
        parse_string("key", None),
        Err(ParseError::IllegalConfiguration("key".into(), None))
    );
}

#[test]
fn missing_equals_is_illegal() {
    assert_eq!(
        parse_string("key value", Some("/etc/nix/nix.conf".into())),
        Err(ParseError::IllegalConfiguration(
            "key value".into(),
            Some("/etc/nix/nix.conf".into())
        ))
    );
}

#[test]
fn bare_directive_is_illegal() {
    assert_eq!(
        parse_string("  include  # nothing", None),
        Err(ParseError::IllegalConfiguration("include".into(), None))
    );
}

#[test]
fn directive_with_two_paths_is_illegal() {
    assert_eq!(
        parse_string("include a b", None),
        Err(ParseError::IllegalConfiguration("include a b".into(), None))
    );
}

#[test]
fn optional_missing_file_is_passed_over() {
    let map = parse_string("!include /tmp/does-not-exist\nkey = v", None).unwrap();
    assert_eq!(pairs(&map), owned(&[("key", "v")]));
}

#[test]
fn required_missing_file_is_an_error() {
    assert_eq!(
        parse_string("include /tmp/does-not-exist-xyz", None),
        Err(ParseError::IncludedFileNotFound(
            "/tmp/does-not-exist-xyz".into(),
            None
        ))
    );
    assert_eq!(
        parse_string("a = 1\ninclude /x.conf\nb = 2", Some("/main.conf".into())),
        Err(ParseError::IncludedFileNotFound(
            "/x.conf".into(),
            Some("/main.conf".into())
        ))
    );
}

#[test]
fn broken_file_behind_directive_counts_as_missing() {
    let files = [("/bad.conf", "oops")];
    assert_eq!(
        parse_with("include /bad.conf", None, &files),
        Err(ParseError::IncludedFileNotFound("/bad.conf".into(), None))
    );
    let map = parse_with("!include /bad.conf\nk = v", None, &files).unwrap();
    assert_eq!(pairs(&map), owned(&[("k", "v")]));
}

#[test]
fn first_malformed_line_stops_parsing() {
    assert_eq!(
        parse_string("a = 1\nfirst bad\nsecond bad\n", None),
        Err(ParseError::IllegalConfiguration("first bad".into(), None))
    );
}

#[test]
fn lines_are_classified() {
    assert_eq!(interpret_line("   # only a comment"), Line::Blank);
    assert_eq!(interpret_line(""), Line::Blank);
    assert_eq!(
        interpret_line("\tk =  v1   v2 # c"),
        Line::Setting("k".into(), "v1 v2".into())
    );
    assert_eq!(
        interpret_line("include /etc/x.conf"),
        Line::Directive("/etc/x.conf".into(), false)
    );
    assert_eq!(
        interpret_line("!include relative/path"),
        Line::Directive("relative/path".into(), true)
    );
    assert_eq!(
        interpret_line("  a  b  # c"),
        Line::Illegal("a  b".into())
    );
    assert_eq!(interpret_line("k == v"), Line::Illegal("k == v".into()));
    assert_eq!(
        interpret_line("héllo = wörld ✓"),
        Line::Setting("héllo".into(), "wörld ✓".into())
    );
}

#[test]
fn error_messages() {
    assert_eq!(
        ParseError::FileNotFound("/x".into()).message(),
        "file '/x' not found"
    );
    assert_eq!(
        ParseError::IncludedFileNotFound("/y".into(), None).message(),
        "file '/y' included from '<unknown>' not found"
    );
    assert_eq!(
        ParseError::IncludedFileNotFound("/y".into(), Some("/z".into())).message(),
        "file '/y' included from '/z' not found"
    );
    assert_eq!(
        ParseError::IllegalConfiguration("bad line".into(), None).message(),
        "illegal configuration line 'bad line' in '<unknown>'"
    );
    assert_eq!(
        ParseError::IllegalConfiguration("bad".into(), Some("/n.conf".into())).message(),
        "illegal configuration line 'bad' in '/n.conf'"
    );
    assert_eq!(
        ParseError::FailedToReadFile("/d".into(), "Is a directory (os error 21)".into())
            .message(),
        "failed to read contents of '/d': Is a directory (os error 21)"
    );
}

#[test]
fn config_accessors() {
    let mut config = NixConfig::new();
    assert!(config.settings().is_empty());
    config.insert_setting("a".into(), "1".into());
    config.insert_setting("b".into(), "2".into());
    config.insert_setting("a".into(), "3".into());
    config
        .settings_mut()
        .insert("c".to_string(), "4".to_string());
    let mut other = NixConfig::default();
    other.insert_setting("b".into(), "5".into());
    other.insert_setting("d".into(), "6".into());
    config.merge(other);
    assert_eq!(
        pairs(&config),
        owned(&[("a", "3"), ("b", "5"), ("c", "4"), ("d", "6")])
    );
    let settings = config.into_settings();
    assert_eq!(settings.len(), 4);
}
