//! What the signer tells the user and the log: the name of a signed file,
//! the line that records the chosen certificate and the summary of a run.
use vstd::prelude::*;
use crate::certs::OwnedCert;
use crate::contracts::SignReport;
use crate::text::{decimal, decimal_seq, push_all};

verus! {

/// The name under which a signed copy is written: the input's stem and
/// `_assinado.pdf`.
pub fn signed_file_name(stem: &str) -> (r: String)
    ensures
        r@ == stem@ + "_assinado.pdf"@,
{
    let mut name = String::from_str(stem);
    push_all(&mut name, "_assinado.pdf");
    name
}

pub open spec fn bool_text(b: bool) -> Seq<char> {
    if b {
        "true"@
    } else {
        "false"@
    }
}

fn bool_str(b: bool) -> (r: &'static str)
    ensures
        r@ == bool_text(b),
{
    if b {
        "true"
    } else {
        "false"
    }
}

/// The log line that records which certificate was chosen and why.
pub open spec fn selection_line_text(certs: Seq<OwnedCert>, selected: int, source: Seq<char>) -> Seq<char> {
    let c = certs[selected];
    "Certificado selecionado ("@ + source + "): idx="@ + decimal_seq((selected + 1) as nat) + "/"@
        + decimal_seq(certs.len()) + "; subject='"@ + c.subject@ + "'; issuer='"@ + c.issuer@
        + "'; thumbprint="@ + c.thumbprint@ + "; token_hardware="@ + bool_text(c.is_hardware_token)
        + "; provider='"@ + c.key_provider_name@ + "'; container='"@ + c.key_container_name@
        + "'; key_spec="@ + decimal_seq(c.key_spec as nat) + "; prov_type="@ + decimal_seq(
        c.key_provider_type as nat,
    )
}

/// The log line that records which certificate was chosen and why.
pub fn certificate_selection_line(certs: &Vec<OwnedCert>, selected: usize, source: &str) -> (r: String)
    requires
        selected < certs.len(),
    ensures
        r@ == selection_line_text(certs@, selected as int, source@),
{
    let c = &certs[selected];
    let mut t = String::from_str("Certificado selecionado (");
    push_all(&mut t, source);
    push_all(&mut t, "): idx=");
    let position = selected + 1;
    let d = decimal(position as u64);
    push_all(&mut t, d.as_str());
    push_all(&mut t, "/");
    let d = decimal(certs.len() as u64);
    push_all(&mut t, d.as_str());
    push_all(&mut t, "; subject='");
    push_all(&mut t, c.subject.as_str());
    push_all(&mut t, "'; issuer='");
    push_all(&mut t, c.issuer.as_str());
    push_all(&mut t, "'; thumbprint=");
    push_all(&mut t, c.thumbprint.as_str());
    push_all(&mut t, "; token_hardware=");
    push_all(&mut t, bool_str(c.is_hardware_token));
    push_all(&mut t, "; provider='");
    push_all(&mut t, c.key_provider_name.as_str());
    push_all(&mut t, "'; container='");
    push_all(&mut t, c.key_container_name.as_str());
    push_all(&mut t, "'; key_spec=");
    let d = decimal(c.key_spec as u64);
    push_all(&mut t, d.as_str());
    push_all(&mut t, "; prov_type=");
    let d = decimal(c.key_provider_type as u64);
    push_all(&mut t, d.as_str());
    t
}

/// How a failed file is reported: its name and the error.
pub fn file_error_entry(name: &str, error: &str) -> (r: String)
    ensures
        r@ == name@ + ": "@ + error@,
{
    let mut t = String::from_str(name);
    push_all(&mut t, ": ");
    push_all(&mut t, error);
    t
}

/// The lines listing the signed files, each with its output name.
pub open spec fn signed_lines(names: Seq<String>, stems: Seq<String>, k: int) -> Seq<char>
    decreases k,
{
    if k <= 0 {
        Seq::empty()
    } else {
        signed_lines(names, stems, k - 1) + "\n  - "@ + names[k - 1]@ + " -> "@ + stems[k - 1]@
            + "_assinado.pdf"@
    }
}

/// The lines listing the errors.
pub open spec fn error_lines(errors: Seq<String>, k: int) -> Seq<char>
    decreases k,
{
    if k <= 0 {
        Seq::empty()
    } else {
        error_lines(errors, k - 1) + "\n  - "@ + errors[k - 1]@
    }
}

/// The summary shown after signing files picked by the user.
pub open spec fn summary_text(total: nat, report: SignReport, stems: Seq<String>) -> Seq<char> {
    let n = report.signed@.len();
    let e = report.errors@.len();
    "Assinados com sucesso: "@ + decimal_seq(n) + "/"@ + decimal_seq(total) + "\n"@ + (if n > 0 {
        "\nArquivos assinados:"@ + signed_lines(report.signed@, stems, n as int)
    } else {
        Seq::empty()
    }) + (if e > 0 {
        "\n\nErros ("@ + decimal_seq(e) + "):"@ + error_lines(report.errors@, e as int)
    } else {
        Seq::empty()
    })
}

/// The title of the summary.
pub open spec fn summary_title(report: SignReport) -> Seq<char> {
    if report.errors@.len() == 0 {
        "Sucesso!"@
    } else {
        "Concluido com erros"@
    }
}

/// The summary of a run over `total` files: its title, its text, and
/// whether it is a warning. `stems[i]` is the stem of `report.signed[i]`.
pub fn summarize(total: usize, report: &SignReport, stems: &Vec<String>) -> (r: (String, String, bool))
    requires
        stems@.len() == report.signed@.len(),
    ensures
        r.0@ == summary_title(*report),
        r.1@ == summary_text(total as nat, *report, stems@),
        r.2 == (report.errors@.len() > 0),
{
    let mut t = String::from_str("Assinados com sucesso: ");
    let d = decimal(report.signed.len() as u64);
    push_all(&mut t, d.as_str());
    push_all(&mut t, "/");
    let d = decimal(total as u64);
    push_all(&mut t, d.as_str());
    push_all(&mut t, "\n");
    let ghost head = t@;
    if report.signed.len() > 0 {
        push_all(&mut t, "\nArquivos assinados:");
        let ghost start = t@;
        let mut i: usize = 0;
        while i < report.signed.len()
            invariant
                i <= report.signed@.len(),
                stems@.len() == report.signed@.len(),
                t@ == start + signed_lines(report.signed@, stems@, i as int),
            decreases report.signed.len() - i,
        {
            push_all(&mut t, "\n  - ");
            push_all(&mut t, report.signed[i].as_str());
            push_all(&mut t, " -> ");
            push_all(&mut t, stems[i].as_str());
            push_all(&mut t, "_assinado.pdf");
            i = i + 1;
        }
    }
    let ghost middle = t@;
    if report.errors.len() > 0 {
        push_all(&mut t, "\n\nErros (");
        let d = decimal(report.errors.len() as u64);
        push_all(&mut t, d.as_str());
        push_all(&mut t, "):");
        let ghost start = t@;
        let mut i: usize = 0;
        while i < report.errors.len()
            invariant
                i <= report.errors@.len(),
                t@ == start + error_lines(report.errors@, i as int),
            decreases report.errors.len() - i,
        {
            push_all(&mut t, "\n  - ");
            push_all(&mut t, report.errors[i].as_str());
            i = i + 1;
        }
    }
    let warning = report.errors.len() > 0;
    let title = if warning {
        String::from_str("Concluido com erros")
    } else {
        String::from_str("Sucesso!")
    };
    (title, t, warning)
}

} // verus!
