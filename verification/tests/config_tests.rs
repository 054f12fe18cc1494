use linear_client::config::{emit_config, parse_config, Config};

fn config(api_key: &str, team_name: &str, current_issue: Option<&str>) -> Config {
    Config {
        api_key: api_key.to_string(),
        team_name: team_name.to_string(),
        current_issue: current_issue.map(|s| s.to_string()),
    }
}

fn assert_round_trip(cfg: Config) {
    let text = emit_config(&cfg);
    let back = parse_config(&text).expect("the emitted document must parse");
    assert_eq!(back.api_key, cfg.api_key);
    assert_eq!(back.team_name, cfg.team_name);
    assert_eq!(back.current_issue, cfg.current_issue);
}

#[test]
fn round_trip_without_current_issue() {
    assert_round_trip(config("lin_api_0123456789", "Engineering", None));
}

#[test]
fn round_trip_with_current_issue() {
    assert_round_trip(config("k", "team", Some("ENG-42")));
}

#[test]
fn round_trip_with_awkward_characters() {
    assert_round_trip(config(
        "quote \" backslash \\ newline \n tab \t",
        "bell \u{7} return \r delete \u{7f} null \u{0}",
        Some("unicode \u{e9}\u{4e16}\u{1f600} feed \u{c} backspace \u{8}"),
    ));
    assert_round_trip(config("", "", Some("")));
}

#[test]
fn emitted_document_is_plain_toml() {
    // The emitted document must be readable as ordinary TOML with the
    // same field values.
    let cfg = config("key \"quoted\"", "team\nname", Some("ENG-7"));
    let text = emit_config(&cfg);
    let value: toml::Value = toml::from_str(&text).expect("the document must be valid TOML");
    assert_eq!(value.get("api_key").unwrap().as_str().unwrap(), cfg.api_key);
    assert_eq!(value.get("team_name").unwrap().as_str().unwrap(), cfg.team_name);
    assert_eq!(
        value.get("current_issue").unwrap().as_str().unwrap(),
        cfg.current_issue.as_deref().unwrap()
    );
}

#[test]
fn parses_the_canonical_document() {
    let text = "api_key = \"k1\"\nteam_name = \"Ops\"\ncurrent_issue = \"OPS-9\"\n";
    let cfg = parse_config(text).unwrap();
    assert_eq!(cfg.api_key, "k1");
    assert_eq!(cfg.team_name, "Ops");
    assert_eq!(cfg.current_issue.as_deref(), Some("OPS-9"));
}

#[test]
fn parses_escapes_back_to_their_characters() {
    // Exercises the escape decoding, including hexadecimal escapes: the
    // parsed value holds the denoted characters, not the escapes' text.
    let text = "api_key = \"\\u0007\\n\\\"\\\\\\u0041\"\nteam_name = \"t\"\n";
    let cfg = parse_config(text).unwrap();
    assert_eq!(cfg.api_key, "\u{7}\n\"\\A");
    assert_eq!(cfg.current_issue, None);
}

#[test]
fn reads_keys_in_any_order_with_free_spacing() {
    let text = "current_issue=\"OPS-9\"\nteam_name =\t\"Ops\"\n  api_key\t= \"k1\"  \n";
    let cfg = parse_config(text).unwrap();
    assert_eq!(cfg.api_key, "k1");
    assert_eq!(cfg.team_name, "Ops");
    assert_eq!(cfg.current_issue.as_deref(), Some("OPS-9"));
}

#[test]
fn skips_comments_and_blank_lines() {
    let text = "# the client's settings\n\napi_key = \"k\" # secret\n\t\nteam_name = \"t\"";
    let cfg = parse_config(text).unwrap();
    assert_eq!(cfg.api_key, "k");
    assert_eq!(cfg.team_name, "t");
    assert_eq!(cfg.current_issue, None);
}

#[test]
fn agrees_with_a_toml_reader_on_a_hand_written_document() {
    let text = "# settings\nteam_name = \"Ops\"\napi_key = \"k \\u0041\" # key\n";
    let cfg = parse_config(text).unwrap();
    let value: toml::Value = toml::from_str(text).unwrap();
    assert_eq!(value.get("api_key").unwrap().as_str().unwrap(), cfg.api_key);
    assert_eq!(value.get("team_name").unwrap().as_str().unwrap(), cfg.team_name);
}

#[test]
fn rejects_malformed_documents() {
    assert!(parse_config("").is_none());
    assert!(parse_config("api_key = \"k\"\n").is_none());
    assert!(parse_config("team_name = \"t\"\n").is_none());
    assert!(parse_config("api_key = \"k\"\nteam_name = \"t\"\nextra = \"x\"\n").is_none());
    assert!(parse_config("api_key = \"k\nteam_name = \"t\"\n").is_none());
    assert!(parse_config("api_key = \"k\" junk\nteam_name = \"t\"\n").is_none());
    assert!(parse_config("api_key \"k\"\nteam_name = \"t\"\n").is_none());
    assert!(parse_config("api_key = \"\\q\"\nteam_name = \"t\"\n").is_none());
    assert!(parse_config("api_key = \"\\uD800\"\nteam_name = \"t\"\n").is_none());
    assert!(
        parse_config("api_key = \"k\"\napi_key = \"k2\"\nteam_name = \"t\"\n").is_none()
    );
}
