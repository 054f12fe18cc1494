use linear_client::identifier::{parse_identifier, ParseError};

#[test]
fn parses_simple_identifier() {
    let id = parse_identifier("ENG-42").unwrap();
    assert_eq!(id.prefix, "ENG");
    assert_eq!(id.number_text, "42");
    let number: f64 = id.number_text.parse().unwrap();
    assert_eq!(number, 42.0);
}

#[test]
fn parses_lowercase_prefix_and_fractional_number() {
    let id = parse_identifier("ops-12.5").unwrap();
    assert_eq!(id.prefix, "ops");
    assert_eq!(id.number_text, "12.5");
    assert_eq!(id.number_text.parse::<f64>().unwrap(), 12.5);
}

#[test]
fn missing_dash_is_malformed() {
    assert_eq!(parse_identifier("ENG42"), Err(ParseError::MalformedIdentifier));
    assert_eq!(parse_identifier(""), Err(ParseError::MalformedIdentifier));
    assert_eq!(parse_identifier("abc"), Err(ParseError::MalformedIdentifier));
}

#[test]
fn non_numeric_suffix_is_a_numeric_parse_error() {
    assert_eq!(parse_identifier("ABC-xyz"), Err(ParseError::NumericParseError));
    assert_eq!(parse_identifier("ABC-"), Err(ParseError::NumericParseError));
    assert_eq!(parse_identifier("ABC-12x"), Err(ParseError::NumericParseError));
}

#[test]
fn splits_on_the_first_dash() {
    // The suffix after the first dash is "-7": a signed numeral.
    let id = parse_identifier("A--7").unwrap();
    assert_eq!(id.prefix, "A");
    assert_eq!(id.number_text, "-7");
    assert_eq!(id.number_text.parse::<f64>().unwrap(), -7.0);
}

#[test]
fn suffix_acceptance_agrees_with_the_float_parser() {
    // The identifier suffix is accepted exactly when the standard float
    // parser accepts it, since the remote schema's numeric type is built
    // from it by that parser.
    let suffixes = [
        "42", "0", "007", "12.5", "5.", ".5", "1e3", "1E3", "1e+3", "1e-3", "2.5e2", "6.e2",
        ".5e1", "inf", "INF", "Inf", "infinity", "Infinity", "nan", "NaN", "NAN", "+42", "-42",
        "+inf", "-nan", "", ".", "+", "-", "e5", "1e", "1e+", "5..", "..5", "1.2.3", "0x10",
        " 42", "42 ", "4 2", "--5", "++5", "1e5e5", "infx", "nanan", "in", "na",
    ];
    for suffix in suffixes {
        let identifier = format!("ENG-{}", suffix);
        let parsed = parse_identifier(&identifier);
        let std_ok = suffix.parse::<f64>().is_ok();
        assert_eq!(
            parsed.is_ok(),
            std_ok,
            "suffix {:?}: library said {:?}, float parser said {}",
            suffix,
            parsed,
            std_ok
        );
    }
}
