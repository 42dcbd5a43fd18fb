use applib::digest::{create_hash, simulate_cpu};
use applib::text::{i32_to_decimal, parse_i16, u64_to_decimal};

#[test]
fn hash_of_empty_document_is_empty() {
    assert_eq!(create_hash(""), "");
}

#[test]
fn hash_is_lower_case_hex_sha256() {
    assert_eq!(create_hash("abc"), "ba7816bf8f01cfea414140de5dae2223b00361a396177a9cb410ff61f20015ad");
    let h = create_hash("<Hotels></Hotels>");
    assert_eq!(h.len(), 64);
    assert!(h.chars().all(|c| c.is_ascii_digit() || ('a'..='f').contains(&c)));
}

#[test]
fn hash_is_deterministic() {
    assert_eq!(create_hash("é<x/>"), create_hash("é<x/>"));
    assert_ne!(create_hash("a"), create_hash("b"));
}

#[test]
fn simulate_cpu_runs_on_any_document() {
    simulate_cpu(&"<a/>".to_string(), 3, 1);
    simulate_cpu(&String::new(), 2, 0);
}

#[test]
fn decimal_of_unsigned_numbers() {
    assert_eq!(u64_to_decimal(0), "0");
    assert_eq!(u64_to_decimal(7), "7");
    assert_eq!(u64_to_decimal(1234567890), "1234567890");
    assert_eq!(u64_to_decimal(u64::MAX), "18446744073709551615");
}

#[test]
fn decimal_of_signed_numbers() {
    assert_eq!(i32_to_decimal(0), "0");
    assert_eq!(i32_to_decimal(10), "10");
    assert_eq!(i32_to_decimal(-42), "-42");
    assert_eq!(i32_to_decimal(i32::MIN), "-2147483648");
    assert_eq!(i32_to_decimal(i32::MAX), "2147483647");
}

#[test]
fn parse_i16_like_std() {
    for s in ["0", "12", "-1", "+5", "-32768", "32767", "007", "", "-", "+", "1a", " 1", "32768", "-32769", "99999999999", "--1"] {
        assert_eq!(parse_i16(s), s.parse::<i16>().ok(), "input {:?}", s);
    }
}
