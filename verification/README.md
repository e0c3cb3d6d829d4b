# assinador_livre

The verified core of a desktop PDF signer for A3 certificates (smart cards
and tokens). It keeps a local WebSocket server for web applications, a tray
entry and a command line mode. The decisions and the byte-level work of the
signer are stated and proved in Verus; where they rest on an outside crate
(lopdf reading the document, openssl and the RustCrypto `cms`/`der` crates
hashing and encoding), the call stands behind a small trusted item whose
contract names what it returns.

- `src/` is the library, checked by Verus:
  - `pdf.rs`: object numbers, the objects of the incremental signature update,
    its cross-reference section and trailer;
  - `pdf_structure.rs`: the catalog, first page, form fields and rewritten
    dictionaries that the update takes from the document, as lopdf reads it;
  - `byte_range.rs`: the `/ByteRange` that leaves the reserved `/Contents`
    out, the bytes that are signed, and embedding the CMS signature;
  - `envelope.rs`: the SHA-256 `DigestInfo` that the token signs and the
    detached CMS `SignedData` around the token's signature;
  - `appearance.rs`: the text and content stream of a visible signature;
  - `certs.rs`, `selection.rs`: certificate scoring and the choice of the
    signing certificate;
  - `token.rs`: the certificates read from a token, their names and
    thumbprints;
  - `session.rs`, `ws.rs`: the WebSocket protocol as a state machine and the
    checks on requests and origins;
  - `tray_flow.rs`: signing from the tray as a state machine, with the log
    line and message of each way it ends;
  - `config.rs`, `contracts.rs`, `desktop.rs`, `logger.rs`, `report.rs`,
    `application.rs`, `text.rs`: configuration, protocol values, desktop
    decisions, log lines, reports and text helpers.
- `tests/` runs the library on concrete values.
- `app/` is the program around it: files, the log, the warp server, the
  PKCS#11 session with the token, the desktop dialogs, and the page geometry
  of a visible signature, which is floating point.
