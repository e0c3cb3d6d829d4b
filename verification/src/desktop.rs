//! The desktop side of the application: command-line flags, the runtimes
//! of each platform, the tray's commands, the certificates offered for a
//! manual choice and the options of the signature dialog.
use vstd::prelude::*;
use crate::config::AppConfig;
use crate::contracts::{
    placement_is_vertical, placement_named, CertSelectionRequest, CertificateSummary,
    VisibleSignaturePlacement,
};
use crate::text::{decimal, decimal_seq, equals, push_all};

verus! {

/// The name of the lock that keeps a second instance from starting.
pub const INSTANCE_MUTEX_NAME: &'static str = "Global\\AssinadorLivreMutex";

/// The flags given on the command line.
pub struct CliArgs {
    /// `--sign-now`: pick PDFs, sign them and exit.
    pub sign_now: bool,
    /// `--print-config-path`: print where the configuration lives and exit.
    pub print_config_path: bool,
    /// `--verbose` or `-v`: echo the log on the console.
    pub verbose: bool,
}

/// `a` is among `args`.
pub open spec fn has_arg(args: Seq<String>, a: Seq<char>) -> bool {
    exists|i: int| 0 <= i < args.len() && #[trigger] args[i]@ == a
}

proof fn lemma_has_arg_step(args: Seq<String>, a: Seq<char>, i: int)
    requires
        0 <= i < args.len(),
    ensures
        has_arg(args.take(i + 1), a) == (has_arg(args.take(i), a) || args[i]@ == a),
{
    if has_arg(args.take(i + 1), a) {
        let j = choose|j: int| 0 <= j < i + 1 && #[trigger] args.take(i + 1)[j]@ == a;
        if j < i {
            assert(args.take(i)[j] == args.take(i + 1)[j]);
        }
    }
    if has_arg(args.take(i), a) {
        let j = choose|j: int| 0 <= j < i && #[trigger] args.take(i)[j]@ == a;
        assert(args.take(i + 1)[j] == args.take(i)[j]);
    }
    if args[i]@ == a {
        assert(args.take(i + 1)[i] == args[i]);
    }
}

/// Reads the flags from the arguments that follow the program's name;
/// other arguments are ignored.
pub fn parse_args(args: &Vec<String>) -> (r: CliArgs)
    ensures
        r.sign_now == has_arg(args@, "--sign-now"@),
        r.print_config_path == has_arg(args@, "--print-config-path"@),
        r.verbose == (has_arg(args@, "--verbose"@) || has_arg(args@, "-v"@)),
{
    let mut r = CliArgs { sign_now: false, print_config_path: false, verbose: false };
    let mut i: usize = 0;
    while i < args.len()
        invariant
            i <= args@.len(),
            r.sign_now == has_arg(args@.take(i as int), "--sign-now"@),
            r.print_config_path == has_arg(args@.take(i as int), "--print-config-path"@),
            r.verbose == (has_arg(args@.take(i as int), "--verbose"@) || has_arg(
                args@.take(i as int),
                "-v"@,
            )),
        decreases args.len() - i,
    {
        proof {
            reveal_strlit("--sign-now");
            reveal_strlit("--print-config-path");
            reveal_strlit("--verbose");
            reveal_strlit("-v");
            lemma_has_arg_step(args@, "--sign-now"@, i as int);
            lemma_has_arg_step(args@, "--print-config-path"@, i as int);
            lemma_has_arg_step(args@, "--verbose"@, i as int);
            lemma_has_arg_step(args@, "-v"@, i as int);
        }
        let a = args[i].as_str();
        assert(a@ == args@[i as int]@);
        assert("--sign-now"@.len() != "--print-config-path"@.len());
        assert("--sign-now"@.len() != "--verbose"@.len());
        assert("--sign-now"@.len() != "-v"@.len());
        assert("--print-config-path"@.len() != "--verbose"@.len());
        assert("--print-config-path"@.len() != "-v"@.len());
        if equals(a, "--sign-now") {
            r.sign_now = true;
        } else if equals(a, "--print-config-path") {
            r.print_config_path = true;
        } else if equals(a, "--verbose") || equals(a, "-v") {
            r.verbose = true;
        }
        i = i + 1;
    }
    assert(args@.take(i as int) =~= args@);
    r
}

/// The address of the playground page served next to the WebSocket.
pub open spec fn playground_url_text(config: AppConfig) -> Seq<char> {
    "http://"@ + config.ws_host@ + ":"@ + decimal_seq(config.ws_port as nat) + "/playground"@
}

/// The address of the playground page served next to the WebSocket.
pub fn playground_url(config: &AppConfig) -> (r: String)
    ensures
        r@ == playground_url_text(*config),
{
    let mut url = String::from_str("http://");
    push_all(&mut url, config.ws_host.as_str());
    push_all(&mut url, ":");
    let port = decimal(config.ws_port as u64);
    push_all(&mut url, port.as_str());
    push_all(&mut url, "/playground");
    url
}

/// The severity of a message shown to the user.
#[derive(Clone, Copy, PartialEq, Eq, Debug, Structural)]
pub enum UiMessageLevel {
    Warning,
    Error,
}

/// The desktop runtime of the platform the application was built for.
pub struct DefaultRuntime;

/// The desktop runtime of this platform.
pub fn create_default_runtime() -> (r: DefaultRuntime) {
    DefaultRuntime
}

/// The desktop runtime of Linux and macOS.
pub struct UnixRuntime;

impl UnixRuntime {
    pub fn new() -> (r: UnixRuntime) {
        UnixRuntime
    }
}

/// The desktop runtime of Windows.
pub struct WindowsRuntime;

impl WindowsRuntime {
    pub fn new() -> (r: WindowsRuntime) {
        WindowsRuntime
    }
}

/// What the tray menu asks for.
#[derive(Clone, Copy, PartialEq, Eq, Debug, Structural)]
pub enum TrayCommand {
    SignDocumentQuick,
    SignDocument,
    OpenPlayground,
    Exit,
}

/// The certificates offered for a manual choice, in their order: only the
/// hardware tokens in `token_only` mode, all of them otherwise.
pub open spec fn offered(certs: Seq<CertificateSummary>, tokens_only: bool) -> Seq<CertificateSummary>
    decreases certs.len(),
{
    if certs.len() == 0 {
        Seq::empty()
    } else {
        let rest = offered(certs.drop_first(), tokens_only);
        if !tokens_only || certs[0].is_hardware_token {
            seq![certs[0]] + rest
        } else {
            rest
        }
    }
}

/// The certificates offered for a manual choice under the certificate mode `mode`.
pub fn tray_candidates(certs: Vec<CertificateSummary>, mode: &str) -> (r: Vec<CertificateSummary>)
    ensures
        r@ == offered(certs@, mode@ == "token_only"@),
{
    let tokens_only = equals(mode, "token_only");
    let ghost all = certs@;
    let mut rest = certs;
    let mut kept: Vec<CertificateSummary> = Vec::new();
    while rest.len() > 0
        invariant
            rest@ == all.take(rest@.len() as int),
            kept@ == offered(all.skip(rest@.len() as int), tokens_only),
            rest@.len() <= all.len(),
        decreases rest.len(),
    {
        let ghost k = rest@.len() as int;
        let c = rest.pop().unwrap();
        assert(all.skip(k - 1).drop_first() =~= all.skip(k));
        assert(all.skip(k - 1)[0] == c);
        assert(rest@ =~= all.take(k - 1));
        if !tokens_only || c.is_hardware_token {
            kept.insert(0, c);
            assert(kept@ =~= seq![c] + offered(all.skip(k), tokens_only));
        }
    }
    assert(all.skip(0) =~= all);
    kept
}

/// The first position whose certificate has the 1-based `index`.
pub open spec fn first_with_index(certs: Seq<CertificateSummary>, index: usize) -> Option<int> {
    if exists|i: int| 0 <= i < certs.len() && #[trigger] certs[i].index == index {
        Some(
            choose|i: int|
                0 <= i < certs.len() && #[trigger] certs[i].index == index && forall|j: int|
                    0 <= j < i ==> #[trigger] certs[j].index != index,
        )
    } else {
        None
    }
}

/// Where the dialog starts: the recommended certificate's position among
/// the offered ones, or the first.
pub fn preselected_position(candidates: &Vec<CertificateSummary>, recommended: Option<usize>) -> (r: usize)
    ensures
        match recommended {
            Some(idx) => {
                (r < candidates@.len() && candidates@[r as int].index == idx && forall|j: int|
                    0 <= j < r ==> #[trigger] candidates@[j].index != idx) || (r == 0 && forall|j: int|
                    0 <= j < candidates@.len() ==> #[trigger] candidates@[j].index != idx)
            },
            None => r == 0,
        },
{
    match recommended {
        None => 0,
        Some(idx) => {
            let mut i: usize = 0;
            while i < candidates.len()
                invariant
                    recommended == Some(idx),
                    i <= candidates@.len(),
                    forall|j: int| 0 <= j < i ==> #[trigger] candidates@[j].index != idx,
                decreases candidates.len() - i,
            {
                if candidates[i].index == idx {
                    assert(candidates@[i as int].index == idx);
                    return i;
                }
                i = i + 1;
            }
            0
        },
    }
}

/// What the dialog shows about an unavailable preview.
pub const PREVIEW_FALLBACK_HINT: &'static str = "A assinatura visivel continua disponivel via posicao predefinida.";

/// The label of the manual placement, the entry after the predefined ones.
pub const MANUAL_PLACEMENT_LABEL: &'static str = "Manual (arrastar no preview)";

/// A predefined placement offered by the signature dialog.
pub struct PlacementOption {
    pub ui_label: &'static str,
    pub value: VisibleSignaturePlacement,
    pub vertical: bool,
}

/// The predefined placements, in the dialog's order.
pub open spec fn placement_at(i: int) -> VisibleSignaturePlacement {
    if i == 0 {
        VisibleSignaturePlacement::TopLeftHorizontal
    } else if i == 1 {
        VisibleSignaturePlacement::TopLeftVertical
    } else if i == 2 {
        VisibleSignaturePlacement::TopRightHorizontal
    } else if i == 3 {
        VisibleSignaturePlacement::TopRightVertical
    } else if i == 4 {
        VisibleSignaturePlacement::BottomLeftHorizontal
    } else if i == 5 {
        VisibleSignaturePlacement::BottomLeftVertical
    } else if i == 6 {
        VisibleSignaturePlacement::BottomRightHorizontal
    } else if i == 7 {
        VisibleSignaturePlacement::BottomRightVertical
    } else if i == 8 {
        VisibleSignaturePlacement::BottomCenterHorizontal
    } else if i == 9 {
        VisibleSignaturePlacement::BottomCenterVertical
    } else if i == 10 {
        VisibleSignaturePlacement::CenterHorizontal
    } else {
        VisibleSignaturePlacement::CenterVertical
    }
}

/// The number of predefined placements.
pub const PLACEMENT_COUNT: usize = 12;

/// The dialog's label for a placement.
pub open spec fn placement_label(p: VisibleSignaturePlacement) -> Seq<char> {
    match p {
        VisibleSignaturePlacement::TopLeftHorizontal => "Superior esquerda (horizontal)"@,
        VisibleSignaturePlacement::TopLeftVertical => "Superior esquerda (vertical)"@,
        VisibleSignaturePlacement::TopRightHorizontal => "Superior direita (horizontal)"@,
        VisibleSignaturePlacement::TopRightVertical => "Superior direita (vertical)"@,
        VisibleSignaturePlacement::BottomLeftHorizontal => "Inferior esquerda (horizontal)"@,
        VisibleSignaturePlacement::BottomLeftVertical => "Inferior esquerda (vertical)"@,
        VisibleSignaturePlacement::BottomRightHorizontal => "Inferior direita (horizontal)"@,
        VisibleSignaturePlacement::BottomRightVertical => "Inferior direita (vertical)"@,
        VisibleSignaturePlacement::BottomCenterHorizontal => "Inferior centro (horizontal)"@,
        VisibleSignaturePlacement::BottomCenterVertical => "Inferior centro (vertical)"@,
        VisibleSignaturePlacement::CenterHorizontal => "Centro (horizontal)"@,
        VisibleSignaturePlacement::CenterVertical => "Centro (vertical)"@,
    }
}

fn placement_option(p: VisibleSignaturePlacement) -> (r: PlacementOption)
    ensures
        r.value == p,
        r.ui_label@ == placement_label(p),
        r.vertical == placement_is_vertical(p),
{
    let ui_label = match p {
        VisibleSignaturePlacement::TopLeftHorizontal => "Superior esquerda (horizontal)",
        VisibleSignaturePlacement::TopLeftVertical => "Superior esquerda (vertical)",
        VisibleSignaturePlacement::TopRightHorizontal => "Superior direita (horizontal)",
        VisibleSignaturePlacement::TopRightVertical => "Superior direita (vertical)",
        VisibleSignaturePlacement::BottomLeftHorizontal => "Inferior esquerda (horizontal)",
        VisibleSignaturePlacement::BottomLeftVertical => "Inferior esquerda (vertical)",
        VisibleSignaturePlacement::BottomRightHorizontal => "Inferior direita (horizontal)",
        VisibleSignaturePlacement::BottomRightVertical => "Inferior direita (vertical)",
        VisibleSignaturePlacement::BottomCenterHorizontal => "Inferior centro (horizontal)",
        VisibleSignaturePlacement::BottomCenterVertical => "Inferior centro (vertical)",
        VisibleSignaturePlacement::CenterHorizontal => "Centro (horizontal)",
        VisibleSignaturePlacement::CenterVertical => "Centro (vertical)",
    };
    PlacementOption { ui_label, value: p, vertical: p.is_vertical() }
}

/// The predefined placements of the signature dialog, in order.
pub fn placement_options() -> (r: Vec<PlacementOption>)
    ensures
        r@.len() == PLACEMENT_COUNT,
        forall|i: int|
            0 <= i < r@.len() ==> (#[trigger] r@[i]).value == placement_at(i) && r@[i].ui_label@
                == placement_label(r@[i].value) && r@[i].vertical == placement_is_vertical(r@[i].value),
{
    let mut v: Vec<PlacementOption> = Vec::new();
    v.push(placement_option(VisibleSignaturePlacement::TopLeftHorizontal));
    v.push(placement_option(VisibleSignaturePlacement::TopLeftVertical));
    v.push(placement_option(VisibleSignaturePlacement::TopRightHorizontal));
    v.push(placement_option(VisibleSignaturePlacement::TopRightVertical));
    v.push(placement_option(VisibleSignaturePlacement::BottomLeftHorizontal));
    v.push(placement_option(VisibleSignaturePlacement::BottomLeftVertical));
    v.push(placement_option(VisibleSignaturePlacement::BottomRightHorizontal));
    v.push(placement_option(VisibleSignaturePlacement::BottomRightVertical));
    v.push(placement_option(VisibleSignaturePlacement::BottomCenterHorizontal));
    v.push(placement_option(VisibleSignaturePlacement::BottomCenterVertical));
    v.push(placement_option(VisibleSignaturePlacement::CenterHorizontal));
    v.push(placement_option(VisibleSignaturePlacement::CenterVertical));
    v
}

/// The placement preselected in the dialog.
pub const DEFAULT_VISIBLE_SIGNATURE_PLACEMENT: VisibleSignaturePlacement =
    VisibleSignaturePlacement::BottomCenterHorizontal;

/// The position of the default placement among the predefined ones.
pub fn default_placement_index() -> (r: usize)
    ensures
        r < PLACEMENT_COUNT,
        placement_at(r as int) == DEFAULT_VISIBLE_SIGNATURE_PLACEMENT,
        forall|j: int| 0 <= j < r ==> placement_at(j) != DEFAULT_VISIBLE_SIGNATURE_PLACEMENT,
{
    let options = placement_options();
    let mut i: usize = 0;
    while i < options.len()
        invariant
            i <= options@.len(),
            options@.len() == PLACEMENT_COUNT,
            forall|k: int| 0 <= k < options@.len() ==> (#[trigger] options@[k]).value == placement_at(k),
            forall|j: int| 0 <= j < i ==> placement_at(j) != DEFAULT_VISIBLE_SIGNATURE_PLACEMENT,
        decreases options.len() - i,
    {
        assert(options@[i as int].value == placement_at(i as int));
        if options[i].value == DEFAULT_VISIBLE_SIGNATURE_PLACEMENT {
            return i;
        }
        i = i + 1;
    }
    assert(placement_at(8) == DEFAULT_VISIBLE_SIGNATURE_PLACEMENT);
    0
}

/// The entry after the predefined placements is the manual one, offered
/// only with a preview.
pub fn is_manual_placement_index(index: usize, preview_available: bool) -> (r: bool)
    ensures
        r == (preview_available && index == PLACEMENT_COUNT),
{
    preview_available && index == PLACEMENT_COUNT
}

/// What the dialog shows when the preview cannot be drawn.
pub fn preview_unavailable_status(reason: &str) -> (r: String)
    ensures
        r@ == "Preview indisponivel: "@ + reason@ + ". "@ + PREVIEW_FALLBACK_HINT@,
{
    let mut s = String::from_str("Preview indisponivel: ");
    push_all(&mut s, reason);
    push_all(&mut s, ". ");
    push_all(&mut s, PREVIEW_FALLBACK_HINT);
    s
}

/// The certificate asked for by the dialog: nothing in automatic mode,
/// else the candidate at `selected`, by thumbprint and index.
pub fn dialog_cert_selection(candidates: &Vec<CertificateSummary>, use_auto: bool, selected: usize) -> (r:
    Result<Option<CertSelectionRequest>, String>)
    ensures
        use_auto ==> r matches Ok(None),
        !use_auto && selected >= candidates@.len() ==> (r matches Err(m) && m@
            == "Indice selecionado fora da faixa: "@ + decimal_seq(selected as nat) + " (max "@
            + decimal_seq(if candidates@.len() == 0 { 0nat } else { (candidates@.len() - 1) as nat })
            + ")"@),
        !use_auto && selected < candidates@.len() ==> (r matches Ok(Some(sel))
            && sel.thumbprint matches Some(t) && t@ == candidates@[selected as int].thumbprint@
            && sel.index == Some(candidates@[selected as int].index)),
{
    if use_auto {
        return Ok(None);
    }
    if selected >= candidates.len() {
        let max = if candidates.len() == 0 {
            0
        } else {
            candidates.len() - 1
        };
        let mut m = String::from_str("Indice selecionado fora da faixa: ");
        let d = decimal(selected as u64);
        push_all(&mut m, d.as_str());
        push_all(&mut m, " (max ");
        let d = decimal(max as u64);
        push_all(&mut m, d.as_str());
        push_all(&mut m, ")");
        return Err(m);
    }
    let cert = &candidates[selected];
    Ok(Some(CertSelectionRequest { thumbprint: Some(cert.thumbprint.clone()), index: Some(cert.index) }))
}

/// The placement name that the dialog stands for: its own, or without one
/// the centre when the box was drawn by hand, else the bottom centre.
pub open spec fn dialog_placement_name(placement: Option<Seq<char>>, manual_rect: bool) -> Seq<char> {
    match placement {
        Some(p) => p,
        None => if manual_rect {
            "center_horizontal"@
        } else {
            "bottom_center_horizontal"@
        },
    }
}

/// The placement chosen in the dialog, read by its name.
pub fn dialog_placement(placement: Option<&str>, manual_rect: bool) -> (r: Result<VisibleSignaturePlacement, String>)
    ensures
        ({
            let raw = dialog_placement_name(
                match placement {
                    Some(p) => Some(p@),
                    None => None,
                },
                manual_rect,
            );
            match placement_named(raw) {
                Some(p) => r == Ok::<VisibleSignaturePlacement, String>(p),
                None => r matches Err(m) && m@ == "Posicao de assinatura visivel invalida retornada pelo dialogo: '"@
                    + raw + "'"@,
            }
        }),
{
    let raw: &str = match placement {
        Some(p) => p,
        None => if manual_rect {
            "center_horizontal"
        } else {
            "bottom_center_horizontal"
        },
    };
    match VisibleSignaturePlacement::from_name(raw) {
        Some(p) => Ok(p),
        None => {
            let mut m = String::from_str("Posicao de assinatura visivel invalida retornada pelo dialogo: '");
            push_all(&mut m, raw);
            push_all(&mut m, "'");
            Err(m)
        },
    }
}

} // verus!
