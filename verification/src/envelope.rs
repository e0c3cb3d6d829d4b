//! The detached CMS signature of the signed bytes: the SHA-256 `DigestInfo`
//! that the token signs, and the `SignedData` that carries the token's
//! signature and certificate.
use vstd::prelude::*;
use cms::cert::{CertificateChoices, IssuerAndSerialNumber};
use cms::content_info::{CmsVersion, ContentInfo};
use cms::revocation::RevocationInfoChoices;
use cms::signed_data::{
    CertificateSet, EncapsulatedContentInfo, SignedData, SignerIdentifier, SignerInfo, SignerInfos,
};
use const_oid::ObjectIdentifier;
use der::asn1::{OctetString, SetOfVec};
use der::{Any, Decode, Encode};
use openssl::hash::{hash, MessageDigest};
use x509_cert::spki::AlgorithmIdentifierOwned;
use x509_cert::Certificate;

verus! {

/// The SHA-256 digest of `data`.
pub uninterp spec fn sha256_digest(data: Seq<u8>) -> Seq<u8>;

/// The DER of the `IssuerAndSerialNumber` of the certificate `cert`, when it
/// parses.
pub uninterp spec fn x509_issuer_and_serial(cert: Seq<u8>) -> Option<Seq<u8>>;

/// The DER of an `AlgorithmIdentifier` for the algorithm `oid` with the DER
/// `parameters`.
pub uninterp spec fn x509_algorithm_identifier(oid: Seq<char>, parameters: Seq<u8>) -> Option<Seq<u8>>;

/// The DER of a `SignerInfo` of CMS version `version` for the signer
/// `issuer_and_serial`: the digest algorithm `digest_algorithm` (DER), the
/// DER `signed_attributes` when there are any, the signature algorithm
/// `signature_algorithm` (DER), `signature` as its octet string, and the
/// DER `unsigned_attributes` when there are any.
pub uninterp spec fn cms_signer_info(
    issuer_and_serial: Seq<u8>,
    version: u8,
    digest_algorithm: Seq<u8>,
    signed_attributes: Option<Seq<u8>>,
    signature_algorithm: Seq<u8>,
    signature: Seq<u8>,
    unsigned_attributes: Option<Seq<u8>>,
) -> Option<Seq<u8>>;

/// The DER of a `SignedData` of CMS version `version`: the single digest
/// algorithm `digest_algorithm` (DER), content of type `content_oid`
/// carrying the DER `content` when there is any (none for a detached
/// signature), the certificate `cert`, the DER set of revocation
/// information `crls` when there is any, and the single signer
/// `signer_info`.
pub uninterp spec fn cms_signed_data(
    version: u8,
    digest_algorithm: Seq<u8>,
    content_oid: Seq<char>,
    content: Option<Seq<u8>>,
    cert: Seq<u8>,
    crls: Option<Seq<u8>>,
    signer_info: Seq<u8>,
) -> Option<Seq<u8>>;

/// The DER of the `ContentInfo` of type `content_type` around the DER
/// value `content`.
pub uninterp spec fn cms_content_info(content_type: Seq<char>, content: Seq<u8>) -> Option<Seq<u8>>;

/// `openssl::hash::hash` with SHA-256, whose digest is 32 bytes long.
#[verifier::external_body]
fn sha256(data: &[u8]) -> (r: Option<Vec<u8>>)
    ensures
        r matches Some(d) ==> d@ == sha256_digest(data@) && d@.len() == 32,
{
    hash(MessageDigest::sha256(), data).ok().map(|d| d.to_vec())
}

/// `Certificate::from_der`, then its issuer and serial number as an
/// `IssuerAndSerialNumber`, encoded with `to_der`.
#[verifier::external_body]
fn issuer_and_serial(cert_der: &[u8]) -> (r: Option<Vec<u8>>)
    ensures
        match r {
            Some(v) => x509_issuer_and_serial(cert_der@) == Some(v@),
            None => x509_issuer_and_serial(cert_der@) is None,
        },
{
    let tbs = Certificate::from_der(cert_der).ok()?.tbs_certificate;
    IssuerAndSerialNumber { issuer: tbs.issuer, serial_number: tbs.serial_number }.to_der().ok()
}

pub open spec fn opt_bytes(o: Option<&[u8]>) -> Option<Seq<u8>> {
    match o {
        Some(b) => Some(b@),
        None => None,
    }
}

/// An `AlgorithmIdentifier` of `ObjectIdentifier::new(oid)` with
/// `Any::from_der(parameters)`; encoded with `to_der`.
#[verifier::external_body]
fn algorithm_identifier(oid: &str, parameters: &[u8]) -> (r: Option<Vec<u8>>)
    ensures
        match r {
            Some(v) => x509_algorithm_identifier(oid@, parameters@) == Some(v@),
            None => x509_algorithm_identifier(oid@, parameters@) is None,
        },
{
    AlgorithmIdentifierOwned { oid: ObjectIdentifier::new(oid).ok()?, parameters: Some(Any::from_der(parameters).ok()?) }
        .to_der()
        .ok()
}

/// A `SignerInfo`: `CmsVersion::try_from(version)`, the decoded
/// `issuer_and_serial` as its signer, the decoded algorithms, the
/// attributes decoded with `SetOfVec::from_der`, and `OctetString::new` of
/// `signature`; encoded with `to_der`.
#[verifier::external_body]
fn signer_info(
    issuer_and_serial: &[u8],
    version: u8,
    digest_algorithm: &[u8],
    signed_attributes: Option<&[u8]>,
    signature_algorithm: &[u8],
    signature: &[u8],
    unsigned_attributes: Option<&[u8]>,
) -> (r: Option<Vec<u8>>)
    ensures
        ({
            let named = cms_signer_info(issuer_and_serial@, version, digest_algorithm@, opt_bytes(signed_attributes),
                signature_algorithm@, signature@, opt_bytes(unsigned_attributes));
            match r {
                Some(v) => named == Some(v@),
                None => named is None,
            }
        }),
{
    SignerInfo {
        version: CmsVersion::try_from(version).ok()?,
        sid: SignerIdentifier::IssuerAndSerialNumber(IssuerAndSerialNumber::from_der(issuer_and_serial).ok()?),
        digest_alg: AlgorithmIdentifierOwned::from_der(digest_algorithm).ok()?,
        signed_attrs: signed_attributes.map(SetOfVec::from_der).transpose().ok()?,
        signature_algorithm: AlgorithmIdentifierOwned::from_der(signature_algorithm).ok()?,
        signature: OctetString::new(signature).ok()?,
        unsigned_attrs: unsigned_attributes.map(SetOfVec::from_der).transpose().ok()?,
    }.to_der().ok()
}

/// A `SignedData`: `CmsVersion::try_from(version)`, the one decoded digest
/// algorithm, content of type `content_oid` with `Any::from_der` of
/// `content` when given, the decoded certificate, the revocation
/// information decoded with `SetOfVec::from_der` when given, and the
/// decoded signer; encoded with `to_der`.
#[verifier::external_body]
fn signed_data(
    version: u8,
    digest_algorithm: &[u8],
    content: (&str, Option<&[u8]>),
    cert_der: &[u8],
    crls: Option<&[u8]>,
    signer: &[u8],
) -> (r: Option<Vec<u8>>)
    ensures
        ({
            let named = cms_signed_data(version, digest_algorithm@, content.0@, opt_bytes(content.1), cert_der@,
                opt_bytes(crls), signer@);
            match r {
                Some(v) => named == Some(v@),
                None => named is None,
            }
        }),
{
    let cert = CertificateChoices::Certificate(Certificate::from_der(cert_der).ok()?);
    SignedData {
        version: CmsVersion::try_from(version).ok()?,
        digest_algorithms: SetOfVec::try_from(vec![AlgorithmIdentifierOwned::from_der(digest_algorithm).ok()?]).ok()?,
        encap_content_info: EncapsulatedContentInfo { econtent_type: ObjectIdentifier::new(content.0).ok()?, econtent: content.1.map(Any::from_der).transpose().ok()? },
        certificates: Some(CertificateSet(SetOfVec::try_from(vec![cert]).ok()?)),
        crls: crls.map(SetOfVec::from_der).transpose().ok()?.map(RevocationInfoChoices),
        signer_infos: SignerInfos(SetOfVec::try_from(vec![SignerInfo::from_der(signer).ok()?]).ok()?),
    }.to_der().ok()
}

/// A `ContentInfo` of type `ObjectIdentifier::new(content_type)` whose
/// content is `Any::from_der(content)`; encoded with `to_der`.
#[verifier::external_body]
fn content_info(content_type: &str, content: &[u8]) -> (r: Option<Vec<u8>>)
    ensures
        match r {
            Some(v) => cms_content_info(content_type@, content@) == Some(v@),
            None => cms_content_info(content_type@, content@) is None,
        },
{
    ContentInfo { content_type: ObjectIdentifier::new(content_type).ok()?, content: Any::from_der(content).ok()? }.to_der().ok()
}

/// The DER of a SHA-256 `DigestInfo` up to its 32-byte digest: the
/// algorithm `2.16.840.1.101.3.4.2.1` with NULL parameters, then the
/// octet string's tag and length.
pub open spec fn digest_info_prefix() -> Seq<u8> {
    seq![
        0x30u8, 0x31, 0x30, 0x0d, 0x06, 0x09, 0x60, 0x86, 0x48, 0x01, 0x65, 0x03, 0x04, 0x02,
        0x01, 0x05, 0x00, 0x04, 0x20,
    ]
}

/// The DER of the SHA-256 `DigestInfo` of a 32-byte `digest`.
pub fn digest_info_sha256(digest: &[u8]) -> (r: Vec<u8>)
    requires
        digest@.len() == 32,
    ensures
        r@ == digest_info_prefix() + digest@,
{
    let mut out: Vec<u8> = vec![
        0x30u8, 0x31, 0x30, 0x0d, 0x06, 0x09, 0x60, 0x86, 0x48, 0x01, 0x65, 0x03, 0x04, 0x02,
        0x01, 0x05, 0x00, 0x04, 0x20,
    ];
    assert(out@ == digest_info_prefix());
    let mut i: usize = 0;
    while i < digest.len()
        invariant
            i <= digest@.len(),
            out@ == digest_info_prefix() + digest@.subrange(0, i as int),
        decreases digest.len() - i,
    {
        out.push(digest[i]);
        i = i + 1;
        assert(digest@.subrange(0, i as int) == digest@.subrange(0, i - 1).push(digest@[i - 1]));
    }
    assert(digest@.subrange(0, digest@.len() as int) == digest@);
    out
}

/// What the token signs for `signed_bytes`: the `DigestInfo` of their
/// SHA-256 digest. There is none only where openssl cannot compute the
/// digest.
pub fn signing_input(signed_bytes: &[u8]) -> (r: Option<Vec<u8>>)
    ensures
        r matches Some(v) ==> v@ == digest_info_prefix() + sha256_digest(signed_bytes@),
{
    match sha256(signed_bytes) {
        Some(d) => Some(digest_info_sha256(d.as_slice())),
        None => None,
    }
}

/// SHA-256.
pub open spec fn sha256_oid() -> Seq<char> {
    "2.16.840.1.101.3.4.2.1"@
}

/// RSA encryption, the algorithm of a PKCS #1 v1.5 signature.
pub open spec fn rsa_encryption_oid() -> Seq<char> {
    "1.2.840.113549.1.1.1"@
}

/// The content type of plain data.
pub open spec fn data_oid() -> Seq<char> {
    "1.2.840.113549.1.7.1"@
}

/// The content type of signed data.
pub open spec fn signed_data_oid() -> Seq<char> {
    "1.2.840.113549.1.7.2"@
}

/// The DER of NULL, the parameters of both algorithms.
pub open spec fn null_parameters() -> Seq<u8> {
    seq![0x05u8, 0x00]
}

/// The detached CMS signature for the certificate `cert` and the token's
/// `signature`: a signer of version 1 identified by the certificate's issuer
/// and serial number, with SHA-256 and RSA encryption, NULL parameters and no
/// attributes; a signed data of version 1 with that one digest algorithm,
/// detached plain data, the certificate, no revocation information and that
/// signer; and the content info of type signed data around it.
pub open spec fn cms_envelope(cert: Seq<u8>, signature: Seq<u8>) -> Option<Seq<u8>> {
    match (
        x509_issuer_and_serial(cert),
        x509_algorithm_identifier(sha256_oid(), null_parameters()),
        x509_algorithm_identifier(rsa_encryption_oid(), null_parameters()),
    ) {
        (Some(ias), Some(digest), Some(rsa)) => match cms_signer_info(ias, 1, digest, None, rsa, signature, None) {
            Some(info) => match cms_signed_data(1, digest, data_oid(), None, cert, None, info) {
                Some(data) => cms_content_info(signed_data_oid(), data),
                None => None,
            },
            None => None,
        },
        _ => None,
    }
}

/// The signer of the certificate `cert_der`: the DER of its issuer and
/// serial number, or none where the certificate does not parse.
pub fn certificate_signer(cert_der: &[u8]) -> (r: Option<Vec<u8>>)
    ensures
        match r {
            Some(v) => x509_issuer_and_serial(cert_der@) == Some(v@),
            None => x509_issuer_and_serial(cert_der@) is None,
        },
{
    issuer_and_serial(cert_der)
}

/// The detached CMS signature that the PDF embeds: a `ContentInfo` around a
/// `SignedData` that carries the certificate `cert_der` and one signer,
/// identified by the certificate's issuer and serial number, whose RSA
/// signature over the SHA-256 `DigestInfo` is `signature`.
pub fn signed_data_der(cert_der: &[u8], signature: &[u8]) -> (r: Option<Vec<u8>>)
    ensures
        match r {
            Some(v) => cms_envelope(cert_der@, signature@) == Some(v@),
            None => cms_envelope(cert_der@, signature@) is None,
        },
{
    let null: [u8; 2] = [0x05, 0x00];
    assert(null@ == null_parameters());
    let ias = match issuer_and_serial(cert_der) {
        Some(v) => v,
        None => return None,
    };
    let digest = match algorithm_identifier("2.16.840.1.101.3.4.2.1", &null) {
        Some(v) => v,
        None => return None,
    };
    let rsa = match algorithm_identifier("1.2.840.113549.1.1.1", &null) {
        Some(v) => v,
        None => return None,
    };
    let info = match signer_info(ias.as_slice(), 1, digest.as_slice(), None, rsa.as_slice(), signature, None) {
        Some(v) => v,
        None => return None,
    };
    let data = match signed_data(
        1,
        digest.as_slice(),
        ("1.2.840.113549.1.7.1", None),
        cert_der,
        None,
        info.as_slice(),
    ) {
        Some(v) => v,
        None => return None,
    };
    content_info("1.2.840.113549.1.7.2", data.as_slice())
}

/// The detached CMS signature is built from one signer of CMS version 1,
/// identified by the certificate's issuer and serial number, with SHA-256
/// (`2.16.840.1.101.3.4.2.1`) and RSA encryption (`1.2.840.113549.1.1.1`),
/// both with NULL parameters, the token's signature and no attributes; one
/// signed data of version 1 over detached plain data
/// (`1.2.840.113549.1.7.1`) carrying the certificate and no revocation
/// information; and the content info of type signed data
/// (`1.2.840.113549.1.7.2`) around it.
pub proof fn envelope_is_version_1_rsa_sha256(cert: Seq<u8>, signature: Seq<u8>)
    ensures
        cms_envelope(cert, signature) matches Some(v) ==> exists|ias: Seq<u8>, digest: Seq<u8>, rsa: Seq<u8>, info: Seq<u8>, data: Seq<u8>|
            #![trigger cms_signer_info(ias, 1u8, digest, None, rsa, signature, None), cms_signed_data(1u8, digest, "1.2.840.113549.1.7.1"@, None, cert, None, info), cms_content_info("1.2.840.113549.1.7.2"@, data)]
            {
                &&& x509_issuer_and_serial(cert) == Some(ias)
                &&& x509_algorithm_identifier("2.16.840.1.101.3.4.2.1"@, seq![0x05u8, 0x00u8]) == Some(digest)
                &&& x509_algorithm_identifier("1.2.840.113549.1.1.1"@, seq![0x05u8, 0x00u8]) == Some(rsa)
                &&& cms_signer_info(ias, 1u8, digest, None, rsa, signature, None) == Some(info)
                &&& cms_signed_data(1u8, digest, "1.2.840.113549.1.7.1"@, None, cert, None, info) == Some(data)
                &&& cms_content_info("1.2.840.113549.1.7.2"@, data) == Some(v)
            },
{
    if let Some(v) = cms_envelope(cert, signature) {
        let ias = x509_issuer_and_serial(cert)->0;
        let digest = x509_algorithm_identifier(sha256_oid(), null_parameters())->0;
        let rsa = x509_algorithm_identifier(rsa_encryption_oid(), null_parameters())->0;
        let info = cms_signer_info(ias, 1u8, digest, None, rsa, signature, None)->0;
        let data = cms_signed_data(1u8, digest, data_oid(), None, cert, None, info)->0;
        assert(null_parameters() =~= seq![0x05u8, 0x00u8]);
        assert(cms_content_info("1.2.840.113549.1.7.2"@, data) == Some(v));
    }
}

} // verus!
