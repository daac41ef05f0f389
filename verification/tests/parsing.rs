use csv2vviz::num::parse_scalar;
use csv2vviz::ident::extract_agent_id;
use csv2vviz::transform::parse_triple;
use csv2vviz::ConvertError;

fn bytes(s: &str) -> Vec<u8> {
    s.as_bytes().to_vec()
}

#[test]
fn scalar_whole_number() {
    assert_eq!(parse_scalar(&bytes("1")), Some(1_000_000));
    assert_eq!(parse_scalar(&bytes("42")), Some(42_000_000));
    assert_eq!(parse_scalar(&bytes("0")), Some(0));
}

#[test]
fn scalar_signed() {
    assert_eq!(parse_scalar(&bytes("-12.5")), Some(-12_500_000));
    assert_eq!(parse_scalar(&bytes("+3")), Some(3_000_000));
    assert_eq!(parse_scalar(&bytes("-0.000001")), Some(-1));
}

#[test]
fn scalar_fraction_edges() {
    assert_eq!(parse_scalar(&bytes(".5")), Some(500_000));
    assert_eq!(parse_scalar(&bytes("5.")), Some(5_000_000));
    assert_eq!(parse_scalar(&bytes("0.000001")), Some(1));
    // Fraction digits beyond the sixth are dropped.
    assert_eq!(parse_scalar(&bytes("1.2345678")), Some(1_234_567));
}

#[test]
fn scalar_rejects_malformed() {
    assert_eq!(parse_scalar(&bytes("")), None);
    assert_eq!(parse_scalar(&bytes("-")), None);
    assert_eq!(parse_scalar(&bytes(".")), None);
    assert_eq!(parse_scalar(&bytes("1.2.3")), None);
    assert_eq!(parse_scalar(&bytes("1e5")), None);
    assert_eq!(parse_scalar(&bytes("abc")), None);
    assert_eq!(parse_scalar(&bytes("--1")), None);
    assert_eq!(parse_scalar(&bytes("1 2")), None);
}

#[test]
fn scalar_rejects_oversized_integer_part() {
    assert_eq!(parse_scalar(&bytes("999999999999")), Some(999_999_999_999_000_000));
    assert_eq!(parse_scalar(&bytes("1000000000000")), None);
}

#[test]
fn agent_id_from_matching_name() {
    assert_eq!(extract_agent_id(&bytes("Drone 1")), Ok(0));
    assert_eq!(extract_agent_id(&bytes("Drone 3")), Ok(2));
    assert_eq!(extract_agent_id(&bytes("Drone 12.csv")), Ok(11));
}

#[test]
fn agent_id_rejects_non_matching_name() {
    assert_eq!(extract_agent_id(&bytes("Sensor 1")), Err(ConvertError::EntryName));
    assert_eq!(extract_agent_id(&bytes("Drone x")), Err(ConvertError::EntryName));
    assert_eq!(extract_agent_id(&bytes("Drone")), Err(ConvertError::EntryName));
    assert_eq!(extract_agent_id(&bytes("Drone  1")), Err(ConvertError::EntryName));
    assert_eq!(extract_agent_id(&bytes("drone 1")), Err(ConvertError::EntryName));
}

#[test]
fn agent_id_rejects_zero() {
    assert_eq!(extract_agent_id(&bytes("Drone 0")), Err(ConvertError::IdOutOfRange));
    assert_eq!(extract_agent_id(&bytes("Drone 000")), Err(ConvertError::IdOutOfRange));
}

#[test]
fn triple_parses_three_numbers() {
    let t = parse_triple(&bytes("1 2 3")).unwrap();
    assert_eq!((t.x, t.y, t.z), (1_000_000, 2_000_000, 3_000_000));
    let t = parse_triple(&bytes("0.5 -1 2")).unwrap();
    assert_eq!((t.x, t.y, t.z), (500_000, -1_000_000, 2_000_000));
}

#[test]
fn triple_rejects_malformed() {
    assert_eq!(parse_triple(&bytes("1 2")), Err(ConvertError::TripleFormat));
    assert_eq!(parse_triple(&bytes("1  2 3")), Err(ConvertError::TripleFormat));
    assert_eq!(parse_triple(&bytes("a b c")), Err(ConvertError::TripleFormat));
    assert_eq!(parse_triple(&bytes("1 2 3 4")), Err(ConvertError::TripleFormat));
    assert_eq!(parse_triple(&bytes("")), Err(ConvertError::TripleFormat));
}
