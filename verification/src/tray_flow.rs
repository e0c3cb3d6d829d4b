//! Signing from the tray, one decision at a time: the program performs the
//! action of each stage (taking the signing gate, picking the files, listing
//! the certificates, filtering the candidates, showing the dialog, signing)
//! and hands back what happened; the next stage, the log line and the
//! message shown to the user are decided here.
use vstd::prelude::*;
use crate::desktop::UiMessageLevel;
use crate::logger::LogLevel;
use crate::text::push_all;

verus! {

/// The stage that signing from the tray has reached.
#[derive(Clone, Copy, PartialEq, Eq, Debug, Structural)]
pub enum TrayStage {
    Gate,
    PickPdfs,
    ListCertificates,
    FilterCandidates,
    Dialog,
    Sign,
    Done,
}

/// An error of the signing service: as written in the log and as shown to
/// the user.
pub struct ServiceErrorText {
    pub logged: String,
    pub shown: String,
}

/// How the certificate dialog ended.
pub enum DialogOutcome {
    Failed { text: String },
    Cancelled,
    Chosen,
}

/// What happened when the program performed a stage's action.
pub enum TrayEvent {
    /// The signing gate, free or not.
    Gate { acquired: bool },
    /// How many files were picked.
    PdfsPicked { count: usize },
    /// The certificates were listed, or the listing failed.
    CertificatesListed { error: Option<ServiceErrorText> },
    /// How many candidates are left for a manual choice in `mode`.
    CandidatesFiltered { count: usize, mode: String },
    /// How the dialog ended.
    DialogClosed { outcome: DialogOutcome },
    /// The files were signed, or signing failed.
    Signed { error: Option<ServiceErrorText> },
}

/// What to do after an event: the next stage, a line for the log and a
/// message for the user.
pub struct TrayStep {
    pub next: TrayStage,
    pub log: Option<(LogLevel, String)>,
    pub message: Option<(UiMessageLevel, String, String)>,
}

pub type StepView = (TrayStage, Option<(LogLevel, Seq<char>)>, Option<(UiMessageLevel, Seq<char>, Seq<char>)>);

pub open spec fn step_view(s: TrayStep) -> StepView {
    (
        s.next,
        match s.log {
            Some((level, line)) => Some((level, line@)),
            None => None,
        },
        match s.message {
            Some((level, title, text)) => Some((level, title@, text@)),
            None => None,
        },
    )
}

pub open spec fn quiet(next: TrayStage) -> StepView {
    (next, None, None)
}

pub open spec fn selection_error_title() -> Seq<char> {
    "Erro na selecao de certificado"@
}

/// The decision after `event` at `stage`. An event that does not answer the
/// stage's action ends the flow without a word.
pub open spec fn tray_step_spec(stage: TrayStage, event: TrayEvent) -> StepView {
    match event {
        TrayEvent::Gate { acquired } => if stage != TrayStage::Gate {
            quiet(TrayStage::Done)
        } else if acquired {
            quiet(TrayStage::PickPdfs)
        } else {
            (
                TrayStage::Done,
                Some((LogLevel::Warn, "Assinatura ignorada: app ocupado"@)),
                Some((
                    UiMessageLevel::Warning,
                    "Assinatura em andamento"@,
                    "Ja existe uma assinatura em andamento. Tente novamente em instantes."@,
                )),
            )
        },
        TrayEvent::PdfsPicked { count } => if stage != TrayStage::PickPdfs {
            quiet(TrayStage::Done)
        } else if count == 0 {
            (TrayStage::Done, Some((LogLevel::Info, "Assinatura via bandeja cancelada: nenhum PDF selecionado"@)), None)
        } else {
            quiet(TrayStage::ListCertificates)
        },
        TrayEvent::CertificatesListed { error } => if stage != TrayStage::ListCertificates {
            quiet(TrayStage::Done)
        } else {
            match error {
                None => quiet(TrayStage::FilterCandidates),
                Some(e) => (
                    TrayStage::Done,
                    Some((LogLevel::Error, "Falha ao listar certificados: "@ + e.logged@)),
                    Some((UiMessageLevel::Error, selection_error_title(), e.shown@)),
                ),
            }
        },
        TrayEvent::CandidatesFiltered { count, mode } => if stage != TrayStage::FilterCandidates {
            quiet(TrayStage::Done)
        } else if count == 0 {
            (
                TrayStage::Done,
                None,
                Some((
                    UiMessageLevel::Error,
                    selection_error_title(),
                    "Nenhum certificado elegivel para selecao manual no modo '"@ + mode@ + "'."@,
                )),
            )
        } else {
            quiet(TrayStage::Dialog)
        },
        TrayEvent::DialogClosed { outcome } => if stage != TrayStage::Dialog {
            quiet(TrayStage::Done)
        } else {
            match outcome {
                DialogOutcome::Failed { text } => (
                    TrayStage::Done,
                    Some((LogLevel::Error, "Falha na selecao de certificado via bandeja: "@ + text@)),
                    Some((UiMessageLevel::Error, selection_error_title(), text@)),
                ),
                DialogOutcome::Cancelled => (
                    TrayStage::Done,
                    Some((LogLevel::Info, "Assinatura via bandeja cancelada pelo usuario"@)),
                    None,
                ),
                DialogOutcome::Chosen => (
                    TrayStage::Sign,
                    Some((LogLevel::Info, "Assinatura iniciada via bandeja"@)),
                    None,
                ),
            }
        },
        TrayEvent::Signed { error } => if stage != TrayStage::Sign {
            quiet(TrayStage::Done)
        } else {
            match error {
                None => quiet(TrayStage::Done),
                Some(e) => (
                    TrayStage::Done,
                    Some((LogLevel::Error, "Falha na assinatura via bandeja: "@ + e.logged@)),
                    Some((UiMessageLevel::Error, "Erro na assinatura"@, e.shown@)),
                ),
            }
        },
    }
}

fn quiet_step(next: TrayStage) -> (r: TrayStep)
    ensures
        step_view(r) == quiet(next),
{
    TrayStep { next, log: None, message: None }
}

fn prefixed(prefix: &str, text: &str) -> (r: String)
    ensures
        r@ == prefix@ + text@,
{
    let mut s = String::from_str(prefix);
    push_all(&mut s, text);
    s
}

/// The decision after `event` at `stage`: the next stage, the log line and
/// the message for the user.
pub fn tray_step(stage: TrayStage, event: TrayEvent) -> (r: TrayStep)
    ensures
        step_view(r) == tray_step_spec(stage, event),
{
    match event {
        TrayEvent::Gate { acquired } => {
            if stage != TrayStage::Gate {
                quiet_step(TrayStage::Done)
            } else if acquired {
                quiet_step(TrayStage::PickPdfs)
            } else {
                TrayStep {
                    next: TrayStage::Done,
                    log: Some((LogLevel::Warn, String::from_str("Assinatura ignorada: app ocupado"))),
                    message: Some((
                        UiMessageLevel::Warning,
                        String::from_str("Assinatura em andamento"),
                        String::from_str("Ja existe uma assinatura em andamento. Tente novamente em instantes."),
                    )),
                }
            }
        },
        TrayEvent::PdfsPicked { count } => {
            if stage != TrayStage::PickPdfs {
                quiet_step(TrayStage::Done)
            } else if count == 0 {
                TrayStep {
                    next: TrayStage::Done,
                    log: Some((
                        LogLevel::Info,
                        String::from_str("Assinatura via bandeja cancelada: nenhum PDF selecionado"),
                    )),
                    message: None,
                }
            } else {
                quiet_step(TrayStage::ListCertificates)
            }
        },
        TrayEvent::CertificatesListed { error } => {
            if stage != TrayStage::ListCertificates {
                quiet_step(TrayStage::Done)
            } else {
                match error {
                    None => quiet_step(TrayStage::FilterCandidates),
                    Some(e) => TrayStep {
                        next: TrayStage::Done,
                        log: Some((
                            LogLevel::Error,
                            prefixed("Falha ao listar certificados: ", e.logged.as_str()),
                        )),
                        message: Some((
                            UiMessageLevel::Error,
                            String::from_str("Erro na selecao de certificado"),
                            e.shown,
                        )),
                    },
                }
            }
        },
        TrayEvent::CandidatesFiltered { count, mode } => {
            if stage != TrayStage::FilterCandidates {
                quiet_step(TrayStage::Done)
            } else if count == 0 {
                let mut text = prefixed("Nenhum certificado elegivel para selecao manual no modo '", mode.as_str());
                push_all(&mut text, "'.");
                TrayStep {
                    next: TrayStage::Done,
                    log: None,
                    message: Some((UiMessageLevel::Error, String::from_str("Erro na selecao de certificado"), text)),
                }
            } else {
                quiet_step(TrayStage::Dialog)
            }
        },
        TrayEvent::DialogClosed { outcome } => {
            if stage != TrayStage::Dialog {
                quiet_step(TrayStage::Done)
            } else {
                match outcome {
                    DialogOutcome::Failed { text } => TrayStep {
                        next: TrayStage::Done,
                        log: Some((
                            LogLevel::Error,
                            prefixed("Falha na selecao de certificado via bandeja: ", text.as_str()),
                        )),
                        message: Some((
                            UiMessageLevel::Error,
                            String::from_str("Erro na selecao de certificado"),
                            text,
                        )),
                    },
                    DialogOutcome::Cancelled => TrayStep {
                        next: TrayStage::Done,
                        log: Some((LogLevel::Info, String::from_str("Assinatura via bandeja cancelada pelo usuario"))),
                        message: None,
                    },
                    DialogOutcome::Chosen => TrayStep {
                        next: TrayStage::Sign,
                        log: Some((LogLevel::Info, String::from_str("Assinatura iniciada via bandeja"))),
                        message: None,
                    },
                }
            }
        },
        TrayEvent::Signed { error } => {
            if stage != TrayStage::Sign {
                quiet_step(TrayStage::Done)
            } else {
                match error {
                    None => quiet_step(TrayStage::Done),
                    Some(e) => TrayStep {
                        next: TrayStage::Done,
                        log: Some((
                            LogLevel::Error,
                            prefixed("Falha na assinatura via bandeja: ", e.logged.as_str()),
                        )),
                        message: Some((UiMessageLevel::Error, String::from_str("Erro na assinatura"), e.shown)),
                    },
                }
            }
        },
    }
}

} // verus!
