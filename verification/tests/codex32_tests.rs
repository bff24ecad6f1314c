use codex32::field::Error as FieldError;
use codex32::Case;
use codex32::Codex32String;
use codex32::Engine;
use codex32::Error;

#[test]
fn valid_share_parses() {
    // A share whose final 13 characters complete the checksum.
    let s = Codex32String::from_string("ms1testsecretke0zk00t20y5y".to_string()).unwrap();
    assert_eq!(s.as_str(), "ms1testsecretke0zk00t20y5y");
    // The shortest valid string under the HRP `ms`: an empty message
    // followed by its checksum.
    let t = Codex32String::from_string("ms18th3aw83x3psq".to_string()).unwrap();
    assert_eq!(t.as_str(), "ms18th3aw83x3psq");
}

#[test]
fn engine_validates_valid_share() {
    // Re-running the engine over the HRP and data of a valid string ends
    // in the target residue, which renders as the tag itself.
    let mut engine = Engine::new_codex32_short();
    engine.input_hrp("ms").unwrap();
    engine.input_data_str("testsecretke0zk00t20y5y").unwrap();
    assert!(engine.is_valid());
    let residue = engine.into_residue();
    let chars: String = residue.iter().map(|f| f.to_char()).collect();
    assert_eq!(chars, "secretshare32");
}

#[test]
fn single_error_is_detected() {
    // Change one character of a valid string to a different bech32
    // character: the checksum must fail.
    match Codex32String::from_string("ms1sestsecretke0zk00t20y5y".to_string()) {
        Err(Error::InvalidChecksum { checksum, string }) => {
            assert_eq!(checksum, "short");
            assert_eq!(string, "ms1sestsecretke0zk00t20y5y");
        },
        other => panic!("expected InvalidChecksum, got {:?}", other),
    }
    // A change in the checksum part is caught just as well.
    assert!(matches!(
        Codex32String::from_string("ms1testsecretke0zk00t20y5l".to_string()),
        Err(Error::InvalidChecksum { .. })
    ));
}

#[test]
fn mixed_case_is_rejected() {
    // Uppercase HRP followed by lowercase data characters.
    match Codex32String::from_string("MS1qqqqqqqqqqqqq".to_string()) {
        Err(Error::InvalidCase(Case::Upper, c)) => assert_eq!(c, 'q'),
        other => panic!("expected InvalidCase, got {:?}", other),
    }
}

#[test]
fn length_bounds_are_enforced() {
    assert!(matches!(
        Codex32String::from_string(String::new()),
        Err(Error::InvalidLength(0))
    ));
    let s94: String = "m".repeat(94);
    assert!(matches!(
        Codex32String::from_string(s94),
        Err(Error::InvalidLength(94))
    ));
    let s95: String = "m".repeat(95);
    assert!(matches!(
        Codex32String::from_string(s95),
        Err(Error::InvalidLength(95))
    ));
    let s125: String = "m".repeat(125);
    assert!(matches!(
        Codex32String::from_string(s125),
        Err(Error::InvalidLength(125))
    ));
    // The in-range boundaries reach the checksum rather than the length
    // check.
    assert!(matches!(
        Codex32String::from_string("q".to_string()),
        Err(Error::InvalidChecksum { checksum: "short", .. })
    ));
    assert!(matches!(
        Codex32String::from_string("m".repeat(96)),
        Err(Error::InvalidChecksum { checksum: "long", .. })
    ));
}

#[test]
fn unchecksummed_appends_residue() {
    // The constructor appends the residue of the message, one lowercase
    // character per element, and keeps the message untouched.
    let built = Codex32String::from_unchecksummed_string("ms1testsecret".to_string()).unwrap();
    assert_eq!(built.as_str(), "ms1testsecretmf2s6nshw0rr4");
    assert_eq!(built.as_str().len(), "ms1testsecret".len() + 13);
    // An empty input gets the rendering of the initial residue.
    let empty = Codex32String::from_unchecksummed_string(String::new()).unwrap();
    assert_eq!(empty.as_str(), "qqqqqqqqqqqqp");
}

#[test]
fn unchecksummed_rejects_bad_chars() {
    assert!(matches!(
        Codex32String::from_unchecksummed_string("ms1testb".to_string()),
        Err(Error::Field(FieldError::InvalidChar('b')))
    ));
    assert!(matches!(
        Codex32String::from_unchecksummed_string("ms1QQQQ".to_string()),
        Err(Error::InvalidCase(Case::Lower, 'Q'))
    ));
}

#[test]
fn bad_alphabet_char_in_data() {
    match Codex32String::from_string("ms1qqqqqqqqqbqqq".to_string()) {
        Err(Error::Field(FieldError::InvalidChar(c))) => assert_eq!(c, 'b'),
        other => panic!("expected field InvalidChar, got {:?}", other),
    }
}

#[test]
fn non_ascii_is_rejected() {
    match Codex32String::from_string("més1qqqqqqqqqqqq".to_string()) {
        Err(Error::InvalidChar(c)) => assert_eq!(c, 'é'),
        other => panic!("expected InvalidChar, got {:?}", other),
    }
}

#[test]
fn long_strings_use_the_long_checksum() {
    // A 98-character string whose final 15 characters complete the long
    // checksum.
    let valid = format!("ms1{}jcwcddt6d5vs5fq", "q".repeat(80));
    let s = Codex32String::from_string(valid.clone()).unwrap();
    assert_eq!(s.as_str(), valid);
    // A string in the long range with a bad checksum names the long
    // variant in its error.
    match Codex32String::from_string("m".repeat(100)) {
        Err(Error::InvalidChecksum { checksum, .. }) => assert_eq!(checksum, "long"),
        other => panic!("expected InvalidChecksum, got {:?}", other),
    }
}

#[test]
fn force_residue_to_zero_gives_zero_syndrome() {
    // With a zeroed residue and all-zero input, the syndrome stays zero.
    let mut engine = Engine::new_codex32_short();
    engine.force_residue_to_zero();
    for _ in 0..45 {
        engine.input_fe(codex32::Fe::from_int(0).unwrap());
    }
    let residue = engine.into_residue();
    assert!(residue.iter().all(|f| f.value() == 0));
}
