use airfoil_panels::error::GeometryError;
use airfoil_panels::naca::{generate_naca_4, parse_naca4, NacaDigits};

fn fractions(d: NacaDigits) -> (f64, f64, f64) {
    (d.camber as f64 / 100.0, d.position as f64 / 10.0, d.thickness as f64 / 100.0)
}

#[test]
fn test_parse_naca4() {
    assert_eq!((0.0, 0.0, 0.12), fractions(parse_naca4(&String::from("0012")).unwrap()));
    assert_eq!((0.02, 0.4, 0.12), fractions(parse_naca4(&String::from("2412")).unwrap()));
}

#[test]
fn test_naca4_gen() {
    let actual = generate_naca_4("2412".to_string(), 100).unwrap();
    assert_eq!(actual.name, "NACA_2412");
    assert!(generate_naca_4("12345".to_string(), 100).is_err());
    assert!(generate_naca_4("123".to_string(), 100).is_err());
}

#[test]
fn generated_section_carries_digits_and_samples() {
    let s = generate_naca_4("2412".to_string(), 100).unwrap();
    assert_eq!(s.digits, NacaDigits { camber: 2, position: 4, thickness: 12 });
    assert_eq!(s.samples, 100);
    let z = generate_naca_4("0000".to_string(), 0).unwrap();
    assert_eq!(z.name, "NACA_0000");
    assert_eq!(z.samples, 0);
}

#[test]
fn digits_are_read_in_place() {
    assert_eq!(
        parse_naca4("9876").unwrap(),
        NacaDigits { camber: 9, position: 8, thickness: 76 }
    );
    assert_eq!(
        parse_naca4("0099").unwrap(),
        NacaDigits { camber: 0, position: 0, thickness: 99 }
    );
}

#[test]
fn wrong_length_is_invalid_specification() {
    assert_eq!(parse_naca4("12345"), Err(GeometryError::InvalidSpecification));
    assert_eq!(parse_naca4("123"), Err(GeometryError::InvalidSpecification));
    assert_eq!(parse_naca4(""), Err(GeometryError::InvalidSpecification));
    assert_eq!(
        generate_naca_4("12345".to_string(), 100).unwrap_err(),
        GeometryError::InvalidSpecification
    );
    assert_eq!(
        generate_naca_4("123".to_string(), 100).unwrap_err(),
        GeometryError::InvalidSpecification
    );
}

#[test]
fn non_digits_are_invalid_specification() {
    assert_eq!(parse_naca4("24a2"), Err(GeometryError::InvalidSpecification));
    assert_eq!(parse_naca4("001."), Err(GeometryError::InvalidSpecification));
    assert_eq!(parse_naca4("+012"), Err(GeometryError::InvalidSpecification));
    assert_eq!(parse_naca4("00 2"), Err(GeometryError::InvalidSpecification));
    assert_eq!(parse_naca4("/012"), Err(GeometryError::InvalidSpecification));
    assert_eq!(parse_naca4("001:"), Err(GeometryError::InvalidSpecification));
    // two bytes, one character: four bytes in all, none of them a digit pair
    assert_eq!(parse_naca4("12\u{e9}"), Err(GeometryError::InvalidSpecification));
}

#[test]
fn symmetric_sections_have_no_camber_line() {
    assert!(!parse_naca4("0012").unwrap().is_cambered());
    assert!(!parse_naca4("0412").unwrap().is_cambered());
    assert!(!parse_naca4("2012").unwrap().is_cambered());
    assert!(parse_naca4("2412").unwrap().is_cambered());
}

#[test]
fn only_parse_errors_carry_a_line() {
    assert_eq!(GeometryError::InvalidSpecification.line(), 0);
    assert_eq!(GeometryError::DegenerateGeometry.line(), 0);
    assert_eq!(GeometryError::ParseError { line: 7 }.line(), 7);
}
