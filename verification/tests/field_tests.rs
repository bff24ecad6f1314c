use codex32::field::Error as FieldError;
use codex32::Case;
use codex32::Fe;

#[test]
fn translation_wheel() {
    // 1. Produce the translation wheel by multiplying
    let logbase = Fe::from_int(20).unwrap();
    let mut init = Fe::from_int(1).unwrap();
    let mut s = String::new();
    for _ in 0..31 {
        s.push(init.to_char());
        init = init.mul(logbase);
    }
    // Can be verified against the multiplication disk, starting with P and
    // moving clockwise
    assert_eq!(s, "p529kt3uw8hlmecvxr470na6djfsgyz");

    // 2. By dividing
    let logbase = Fe::from_int(20).unwrap();
    let mut init = Fe::from_int(1).unwrap();
    let mut s = String::new();
    for _ in 0..31 {
        s.push(init.to_char());
        init = init.div(logbase);
    }
    // Same deal, but counterclockwise
    assert_eq!(s, "pzygsfjd6an074rxvcemlh8wu3tk925");
}

#[test]
fn recovery_wheel() {
    // The recovery wheel is the multiplication wheel with a different log
    // base and with every element offset by S.
    let logbase = Fe::from_int(10).unwrap();
    let mut init = Fe::from_int(1).unwrap();
    let mut s = String::new();
    for _ in 0..31 {
        s.push(init.add(Fe::from_int(16).unwrap()).to_char());
        init = init.mul(logbase);
    }
    // To verify, start with 3 and move clockwise on the Recovery Wheel
    assert_eq!(s, "36xp78tgk9ldaecjy4mvh0funwr2zq5");
}

#[test]
fn add_is_xor() {
    // Addition laws on concrete values: commutative, self-inverse,
    // associative.
    let a = Fe::from_int(13).unwrap();
    let b = Fe::from_int(27).unwrap();
    let c = Fe::from_int(6).unwrap();
    assert_eq!(a.add(b).value(), 13 ^ 27);
    assert_eq!(a.add(b).value(), b.add(a).value());
    assert_eq!(a.add(a).value(), 0);
    assert_eq!(a.add(b).add(c).value(), a.add(b.add(c)).value());
    assert_eq!(a.sub(b).value(), a.add(b).value());
}

#[test]
fn mul_laws_spot_checks() {
    // z * z = y (alpha^2 = 4), and distributivity on a concrete triple.
    let z = Fe::from_int(2).unwrap();
    assert_eq!(z.mul(z).to_char(), 'y');
    let a = Fe::from_int(9).unwrap();
    let b = Fe::from_int(21).unwrap();
    let c = Fe::from_int(30).unwrap();
    assert_eq!(a.mul(b).value(), b.mul(a).value());
    assert_eq!(a.mul(b).mul(c).value(), a.mul(b.mul(c)).value());
    assert_eq!(
        a.mul(b.add(c)).value(),
        a.mul(b).add(a.mul(c)).value()
    );
}

#[test]
fn div_inverts_mul() {
    // a * (P / a) == P and a / a == P for every nonzero a.
    let p = Fe::from_int(1).unwrap();
    for v in 1..32 {
        let a = Fe::from_int(v).unwrap();
        assert_eq!(a.mul(p.div(a)).value(), 1);
        assert_eq!(a.div(a).value(), 1);
        // Zero divided by anything nonzero is zero.
        assert_eq!(Fe::from_int(0).unwrap().div(a).value(), 0);
    }
}

#[test]
fn char_round_trip() {
    // Every alphabet character decodes, and re-encoding gives its
    // lowercase form.
    for c in "qpzry9x8gf2tvdw0s3jn54khce6mua7l".chars() {
        let fe = Fe::from_char(c).unwrap();
        assert_eq!(fe.to_char(), c);
        let upper = c.to_ascii_uppercase();
        let fe2 = Fe::from_char(upper).unwrap();
        assert_eq!(fe2.to_char().to_ascii_lowercase(), c);
        assert_eq!(fe2.to_char_case(Case::Upper), upper);
    }
}

#[test]
fn invalid_char_rejected() {
    // 'b' is not in the bech32 alphabet.
    match Fe::from_char('b') {
        Err(FieldError::InvalidChar(c)) => assert_eq!(c, 'b'),
        other => panic!("expected InvalidChar, got {:?}", other),
    }
    assert!(matches!(Fe::from_char('i'), Err(FieldError::InvalidChar('i'))));
    assert!(matches!(Fe::from_char('é'), Err(FieldError::InvalidChar('é'))));
}

#[test]
fn from_char_case_checks_case() {
    assert_eq!(Fe::from_char_case('a', Case::Lower).unwrap().value(), 29);
    assert!(matches!(
        Fe::from_char_case('a', Case::Upper),
        Err(FieldError::InvalidCase(Case::Upper, 'a'))
    ));
    assert!(matches!(
        Fe::from_char_case('A', Case::Lower),
        Err(FieldError::InvalidCase(Case::Lower, 'A'))
    ));
    // Digits carry no case.
    assert_eq!(Fe::from_char_case('2', Case::Upper).unwrap().value(), 10);
    // Invalid characters are reported before their case is looked at.
    assert!(matches!(
        Fe::from_char_case('B', Case::Lower),
        Err(FieldError::InvalidChar('B'))
    ));
}

#[test]
fn from_int_bounds() {
    assert_eq!(Fe::from_int(31).unwrap().to_char(), 'l');
    assert!(matches!(Fe::from_int(32), Err(FieldError::InvalidByte(32))));
    assert!(matches!(Fe::from_int(255), Err(FieldError::InvalidByte(255))));
    assert!(matches!(Fe::from_int(256), Err(FieldError::NotAByte)));
}

#[test]
fn from_str_single_char() {
    assert_eq!(Fe::from_str("q").unwrap().value(), 0);
    assert!(matches!(Fe::from_str(""), Err(FieldError::EmptyString)));
    assert!(matches!(Fe::from_str("qp"), Err(FieldError::ExtraChar('p'))));
    assert!(matches!(Fe::from_str("b"), Err(FieldError::InvalidChar('b'))));
}

#[test]
fn iter_alpha_covers_field() {
    let all = Fe::iter_alpha();
    assert_eq!(all.len(), 32);
    for (i, fe) in all.iter().enumerate() {
        assert_eq!(fe.value() as usize, i);
    }
}
