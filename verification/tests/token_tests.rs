use assinador_livre::token::{
    format_x509_name, is_all_hex, needs_certificate_name, parse_dn_bytes, thumbprint_text, NameEntry,
};

fn entry(oid: &str, value: Option<&str>) -> NameEntry {
    NameEntry { oid: oid.to_string(), value: value.map(|v| v.to_string()) }
}

#[test]
fn printable_names_are_kept_as_text() {
    assert_eq!(parse_dn_bytes(b"CN=Fulano"), "CN=Fulano");
    assert_eq!(parse_dn_bytes(b""), "");
}

#[test]
fn binary_names_are_shown_in_hex() {
    assert_eq!(parse_dn_bytes(&[0x30, 0x0a, 0xff]), "0x300aff");
    assert_eq!(parse_dn_bytes(b"abc\x7f"), "0x6162637f");
}

#[test]
fn hex_only_names_are_recognised() {
    assert!(is_all_hex("0x30ab"));
    assert!(is_all_hex("DEADbeef"));
    assert!(!is_all_hex("0x"));
    assert!(!is_all_hex(""));
    assert!(!is_all_hex("CN=x"));
}

#[test]
fn short_or_hex_names_fall_back_to_the_certificate() {
    assert!(needs_certificate_name(""));
    assert!(needs_certificate_name("CN=abc"));
    assert!(needs_certificate_name("0x3082010a0282"));
    assert!(!needs_certificate_name("CN=Fulano de Tal"));
}

#[test]
fn certificate_names_use_short_labels() {
    let entries = vec![
        entry("commonName", Some("Fulano")),
        entry("organizationName", Some("ICP-Brasil")),
        entry("serialNumber", Some("123")),
        entry("countryName", None),
        entry("localityName", Some("Recife")),
    ];
    assert_eq!(format_x509_name(&entries), "CN=Fulano, O=ICP-Brasil, serialNumber=123, L=Recife");
    assert_eq!(format_x509_name(&vec![entry("commonName", None)]), "Unknown");
    assert_eq!(format_x509_name(&Vec::new()), "Unknown");
}

#[test]
fn thumbprints_are_upper_case_hex() {
    assert_eq!(thumbprint_text(&[0xab, 0x01, 0x9f]), "AB019F");
}
