use assinador_livre::envelope::{digest_info_sha256, signed_data_der, signing_input};
use assinador_livre::token::token_certificate;
use cms::content_info::{CmsVersion, ContentInfo};
use cms::signed_data::{SignedData, SignerIdentifier};
use der::{Decode, Encode};
use openssl::asn1::Asn1Time;
use openssl::bn::BigNum;
use openssl::hash::MessageDigest;
use openssl::pkey::PKey;
use openssl::rsa::Rsa;
use openssl::x509::{X509Builder, X509NameBuilder, X509};

fn make_cert() -> Vec<u8> {
    let key = PKey::from_rsa(Rsa::generate(2048).unwrap()).unwrap();
    let mut name = X509NameBuilder::new().unwrap();
    name.append_entry_by_text("CN", "Fulano de Tal").unwrap();
    name.append_entry_by_text("O", "ICP-Brasil").unwrap();
    let name = name.build();
    let mut b = X509Builder::new().unwrap();
    b.set_version(2).unwrap();
    b.set_subject_name(&name).unwrap();
    b.set_issuer_name(&name).unwrap();
    b.set_pubkey(&key).unwrap();
    let serial = BigNum::from_u32(4660).unwrap().to_asn1_integer().unwrap();
    b.set_serial_number(&serial).unwrap();
    b.set_not_before(&Asn1Time::days_from_now(0).unwrap()).unwrap();
    b.set_not_after(&Asn1Time::days_from_now(365).unwrap()).unwrap();
    b.sign(&key, MessageDigest::sha256()).unwrap();
    b.build().to_der().unwrap()
}

#[test]
fn digest_info_is_the_fixed_prefix_and_the_digest() {
    let digest = [0xABu8; 32];
    let v = digest_info_sha256(&digest);
    assert_eq!(v.len(), 51);
    assert_eq!(
        &v[..19],
        &[0x30, 0x31, 0x30, 0x0d, 0x06, 0x09, 0x60, 0x86, 0x48, 0x01, 0x65, 0x03, 0x04, 0x02, 0x01, 0x05, 0x00, 0x04, 0x20]
    );
    assert_eq!(&v[19..], &digest);
}

#[test]
fn signing_input_is_the_digest_info_of_the_sha256() {
    let data = b"bytes covered by the byte range";
    let v = signing_input(data).unwrap();
    let expected = openssl::sha::sha256(data);
    assert_eq!(v, digest_info_sha256(&expected));
    assert_eq!(&signing_input(b"abc").unwrap()[19..23], &[0xba, 0x78, 0x16, 0xbf]);
}

#[test]
fn signed_data_carries_certificate_and_signature() {
    let cert = make_cert();
    let signature = vec![7u8; 256];
    let der = signed_data_der(&cert, &signature).unwrap();
    let ci = ContentInfo::from_der(&der).unwrap();
    assert_eq!(ci.content_type.to_string(), "1.2.840.113549.1.7.2");
    let sd: SignedData = ci.content.decode_as().unwrap();
    assert_eq!(sd.version, CmsVersion::V1);
    assert_eq!(sd.encap_content_info.econtent_type.to_string(), "1.2.840.113549.1.7.1");
    assert!(sd.encap_content_info.econtent.is_none());
    assert_eq!(sd.digest_algorithms.len(), 1);
    assert_eq!(sd.certificates.as_ref().unwrap().0.len(), 1);
    let infos: Vec<_> = sd.signer_infos.0.iter().collect();
    assert_eq!(infos.len(), 1);
    assert_eq!(infos[0].signature.as_bytes(), &signature[..]);
    assert_eq!(infos[0].digest_alg.oid.to_string(), "2.16.840.1.101.3.4.2.1");
    assert_eq!(infos[0].signature_algorithm.oid.to_string(), "1.2.840.113549.1.1.1");
    match &infos[0].sid {
        SignerIdentifier::IssuerAndSerialNumber(ias) => {
            assert_eq!(ias.serial_number.as_bytes(), &[0x12, 0x34]);
            let parsed = x509_cert::Certificate::from_der(&cert).unwrap();
            assert_eq!(ias.issuer.to_der().unwrap(), parsed.tbs_certificate.issuer.to_der().unwrap());
        }
        _ => panic!("signer identified otherwise"),
    }
}

#[test]
fn signed_data_needs_a_certificate() {
    assert!(signed_data_der(b"not a certificate", &[1, 2, 3]).is_none());
}

#[test]
fn token_certificate_reads_thumbprint_and_names() {
    let der = make_cert();
    let c = token_certificate(&der, b"", b"CN=Autoridade Certificadora X", "/usr/lib/opensc-pkcs11.so".to_string(), "Slot 1".to_string()).unwrap();
    let digest = X509::from_der(&der).unwrap().digest(MessageDigest::sha1()).unwrap();
    let expected: String = digest.iter().map(|b| format!("{b:02X}")).collect();
    assert_eq!(c.thumbprint, expected);
    assert_eq!(c.thumbprint.len(), 40);
    assert_eq!(c.subject, "CN=Fulano de Tal, O=ICP-Brasil");
    assert_eq!(c.issuer, "CN=Autoridade Certificadora X");
    assert_eq!(c.key_provider_name, "/usr/lib/opensc-pkcs11.so");
    assert_eq!(c.key_container_name, "Slot 1");
    assert!(c.valid_now && c.supports_digital_signature && c.is_hardware_token);
    assert_eq!((c.key_provider_type, c.key_spec), (0, 0));
}

#[test]
fn token_names_in_hex_are_replaced_by_the_certificates() {
    let der = make_cert();
    let c = token_certificate(&der, &[0x30, 0x0a, 0xff], b"short", String::new(), String::new()).unwrap();
    assert_eq!(c.subject, "CN=Fulano de Tal, O=ICP-Brasil");
    assert_eq!(c.issuer, "CN=Fulano de Tal, O=ICP-Brasil");
}

#[test]
fn token_certificate_needs_a_value_that_parses() {
    assert!(token_certificate(b"", b"CN=Fulano de Tal", b"CN=AC", String::new(), String::new()).is_none());
    assert!(token_certificate(b"garbage", b"CN=Fulano de Tal", b"CN=AC", String::new(), String::new()).is_none());
}
