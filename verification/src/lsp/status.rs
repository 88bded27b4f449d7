//! Status of configured language servers within a run, and the reports of
//! their health checks.

use vstd::prelude::*;

use crate::json::opt_view;
use crate::lsp::config::{backend_text, LspServerConfig};
use crate::lsp::resolve::ends_with;
use crate::text::{chars_of, copy_strings, push_str, str_eq, strs};

verus! {

/// File name of the status sidecar inside the index directory.
pub const STATUS_FILE: &'static str = "lsp_status.json";

/// One language's entry in the status sidecar.
#[derive(Debug)]
pub struct LspStatusEntry {
    /// Language key of the configuration block.
    pub language: String,
    /// Configured server command.
    pub command: String,
    /// Configured backend (`tree-sitter` | `lsp` | `hybrid`).
    pub backend: String,
    /// `healthy`, `failed`, or `idle` (configured but never needed).
    pub state: String,
    /// Failure reason when the state is `failed`.
    pub reason: Option<String>,
    /// Server-reported name.
    pub server_name: Option<String>,
    /// Server-reported version.
    pub server_version: Option<String>,
    /// Negotiated capability names.
    pub capabilities: Vec<String>,
}

/// Result of probing one configured server.
#[derive(Debug)]
pub struct LspHealthReport {
    pub language: String,
    pub command: String,
    pub backend: String,
    /// The command resolves to an executable.
    pub binary_found: bool,
    /// Where the binary was found, when it was.
    pub binary_path: Option<String>,
    /// Which configured root markers exist under the project root.
    pub root_markers_found: Vec<String>,
    /// Spawn and `initialize` handshake succeeded.
    pub handshake_ok: bool,
    pub server_name: Option<String>,
    pub server_version: Option<String>,
    /// Capability keys negotiated during the probe.
    pub negotiated_capabilities: Vec<String>,
    /// Configured capabilities the server did not negotiate.
    pub missing_capabilities: Vec<String>,
    /// Last stderr lines captured from the probe process.
    pub stderr: Vec<String>,
    /// Spawn or handshake error, when any.
    pub error: Option<String>,
}

/// The `ServerCapabilities` key of a user-facing capability name:
/// `documentSymbol` becomes `documentSymbolProvider`; full provider keys and
/// `textDocumentSync` are kept.
pub open spec fn capability_key_of(name: Seq<char>) -> Seq<char> {
    if ends_with(name, "Provider"@) || name == "textDocumentSync"@ {
        name
    } else {
        name + "Provider"@
    }
}

/// Map a user-facing capability name to the `ServerCapabilities` key.
pub fn capability_key(name: &str) -> (r: String)
    ensures
        r@ == capability_key_of(name@),
{
    let cs = chars_of(name);
    let provider = vec!['P', 'r', 'o', 'v', 'i', 'd', 'e', 'r'];
    proof {
        reveal_strlit("Provider");
        assert(provider@ =~= "Provider"@);
    }
    let mut out = String::new();
    push_str(&mut out, name);
    let keep = if provider.len() <= cs.len() {
        let start = cs.len() - provider.len();
        let tail = crate::text::slice_range(cs.as_slice(), start, cs.len());
        assert(tail@ =~= name@.skip(start as int));
        crate::text::chars_eq(tail.as_slice(), provider.as_slice())
    } else {
        false
    } || str_eq(name, "textDocumentSync");
    if !keep {
        push_str(&mut out, "Provider");
    }
    out
}

/// The report of a probe before any spawn: what the configuration and the
/// executable lookup say. When the binary was not found the report is
/// final: every configured capability is missing and the error names the
/// command.
pub fn probe_report(
    language: &str,
    cfg: &LspServerConfig,
    binary_path: Option<String>,
    root_markers_found: Vec<String>,
) -> (r: LspHealthReport)
    ensures
        r.language@ == language@,
        r.command@ == cfg.command@,
        r.backend@ == backend_text(cfg.backend),
        r.binary_found == binary_path is Some,
        opt_view(r.binary_path) == opt_view(binary_path),
        strs(r.root_markers_found@) == strs(root_markers_found@),
        !r.handshake_ok,
        r.server_name is None,
        r.server_version is None,
        r.negotiated_capabilities@.len() == 0,
        r.stderr@.len() == 0,
        strs(r.missing_capabilities@) == if binary_path is Some {
            Seq::<Seq<char>>::empty()
        } else {
            strs(cfg.capabilities@)
        },
        opt_view(r.error) == if binary_path is Some {
            None
        } else {
            Some("`"@ + cfg.command@ + "` not found on PATH"@)
        },
{
    let found = binary_path.is_some();
    let mut report = LspHealthReport {
        language: language.to_string(),
        command: cfg.command.clone(),
        backend: cfg.backend.as_str().to_string(),
        binary_found: found,
        binary_path,
        root_markers_found,
        handshake_ok: false,
        server_name: None,
        server_version: None,
        negotiated_capabilities: Vec::new(),
        missing_capabilities: Vec::new(),
        stderr: Vec::new(),
        error: None,
    };
    assert(strs(report.missing_capabilities@) =~= Seq::<Seq<char>>::empty());
    if !found {
        let mut e = String::new();
        push_str(&mut e, "`");
        push_str(&mut e, cfg.command.as_str());
        push_str(&mut e, "` not found on PATH");
        report.error = Some(e);
        report.missing_capabilities = copy_strings(&cfg.capabilities);
    }
    report
}


/// The configured capabilities whose key the server did not negotiate.
pub open spec fn missing_of(configured: Seq<Seq<char>>, negotiated: Seq<Seq<char>>) -> Seq<Seq<char>>
    decreases configured.len(),
{
    if configured.len() == 0 {
        seq![]
    } else {
        let c = configured.last();
        missing_of(configured.drop_last(), negotiated) + if negotiated.contains(capability_key_of(c)) {
            seq![]
        } else {
            seq![c]
        }
    }
}

/// Whether `key` is one of `names`.
fn contains_name(names: &Vec<String>, key: &str) -> (r: bool)
    ensures
        r == strs(names@).contains(key@),
{
    let mut i: usize = 0;
    while i < names.len()
        invariant
            i <= names@.len(),
            forall|k: int| 0 <= k < i ==> strs(names@)[k] != key@,
        decreases names@.len() - i,
    {
        if str_eq(names[i].as_str(), key) {
            assert(strs(names@)[i as int] == key@);
            return true;
        }
        i = i + 1;
    }
    false
}

/// The configured capabilities (user-facing names) that the server did not
/// negotiate, given the names of the capabilities it did.
pub fn missing_capabilities(configured: &Vec<String>, negotiated: &Vec<String>) -> (r: Vec<String>)
    ensures
        strs(r@) == missing_of(strs(configured@), strs(negotiated@)),
{
    let ghost cv = strs(configured@);
    let ghost nv = strs(negotiated@);
    let mut out: Vec<String> = Vec::new();
    let mut i: usize = 0;
    while i < configured.len()
        invariant
            i <= configured@.len(),
            cv == strs(configured@),
            nv == strs(negotiated@),
            strs(out@) == missing_of(cv.take(i as int), nv),
        decreases configured@.len() - i,
    {
        assert(cv.take(i + 1).drop_last() =~= cv.take(i as int));
        assert(cv.take(i + 1).last() == configured@[i as int]@);
        let key = capability_key(configured[i].as_str());
        let ghost before = strs(out@);
        if !contains_name(negotiated, key.as_str()) {
            out.push(configured[i].clone());
            assert(strs(out@) =~= before.push(configured@[i as int]@));
        } else {
            assert(strs(out@) =~= before + Seq::<Seq<char>>::empty());
        }
        i = i + 1;
    }
    assert(cv.take(i as int) =~= cv);
    out
}

/// How the spawn and handshake of a probed server went.
#[derive(Debug)]
pub enum Handshake {
    /// The server started; what it reported, and its last stderr lines.
    Done {
        server_name: Option<String>,
        server_version: Option<String>,
        capability_names: Vec<String>,
        stderr: Vec<String>,
    },
    /// The server could not be started; why, and its last stderr lines.
    Failed { reason: String, stderr: Vec<String> },
}

/// Complete a probe report with the handshake's outcome: on success the
/// server's identity, its negotiated capabilities and the configured ones it
/// lacks; on failure the reason, with every configured capability missing.
pub fn complete_report(report: LspHealthReport, cfg: &LspServerConfig, handshake: Handshake) -> (r:
    LspHealthReport)
    ensures
        r.language == report.language,
        r.command == report.command,
        r.backend == report.backend,
        r.binary_found == report.binary_found,
        r.binary_path == report.binary_path,
        r.root_markers_found == report.root_markers_found,
        match handshake {
            Handshake::Done { server_name, server_version, capability_names, stderr } => {
                &&& r.handshake_ok
                &&& opt_view(r.server_name) == opt_view(server_name)
                &&& opt_view(r.server_version) == opt_view(server_version)
                &&& strs(r.negotiated_capabilities@) == strs(capability_names@)
                &&& strs(r.missing_capabilities@) == missing_of(
                    strs(cfg.capabilities@),
                    strs(capability_names@),
                )
                &&& strs(r.stderr@) == strs(stderr@)
                &&& r.error == report.error
            },
            Handshake::Failed { reason, stderr } => {
                &&& r.handshake_ok == report.handshake_ok
                &&& r.server_name == report.server_name
                &&& r.server_version == report.server_version
                &&& r.negotiated_capabilities == report.negotiated_capabilities
                &&& strs(r.missing_capabilities@) == strs(cfg.capabilities@)
                &&& strs(r.stderr@) == strs(stderr@)
                &&& opt_view(r.error) == Some(reason@)
            },
        },
{
    let mut report = report;
    match handshake {
        Handshake::Done { server_name, server_version, capability_names, stderr } => {
            report.handshake_ok = true;
            report.server_name = server_name;
            report.server_version = server_version;
            report.missing_capabilities = missing_capabilities(&cfg.capabilities, &capability_names);
            report.negotiated_capabilities = capability_names;
            report.stderr = stderr;
        },
        Handshake::Failed { reason, stderr } => {
            report.error = Some(reason);
            report.stderr = stderr;
            report.missing_capabilities = copy_strings(&cfg.capabilities);
        },
    }
    report
}

/// What is known of one language's client at the end of a run.
#[derive(Debug)]
pub enum ClientStatus {
    /// Never started.
    Idle,
    /// Could not be started, or was declared unusable earlier.
    Failed(String),
    /// Started: the failure declared since (if any), the identity it
    /// reported, and its negotiated capability names.
    Ready {
        failure: Option<String>,
        server_name: Option<String>,
        server_version: Option<String>,
        capabilities: Vec<String>,
    },
}

/// The state a client status is recorded with.
pub open spec fn state_of(client: ClientStatus) -> Seq<char> {
    match client {
        ClientStatus::Idle => "idle"@,
        ClientStatus::Failed(_) => "failed"@,
        ClientStatus::Ready { failure, .. } => if failure is Some {
            "failed"@
        } else {
            "healthy"@
        },
    }
}

/// The sidecar entry of one configured language: its configuration, its
/// state (`idle`, `failed` with the reason, or `healthy`), and what a
/// started server reported.
pub fn status_entry(language: &str, cfg: &LspServerConfig, client: ClientStatus) -> (r:
    LspStatusEntry)
    ensures
        r.language@ == language@,
        r.command@ == cfg.command@,
        r.backend@ == backend_text(cfg.backend),
        r.state@ == state_of(client),
        match client {
            ClientStatus::Idle => r.reason is None && r.server_name is None && r.server_version is None
                && r.capabilities@.len() == 0,
            ClientStatus::Failed(reason) => opt_view(r.reason) == Some(reason@) && r.server_name is None
                && r.server_version is None && r.capabilities@.len() == 0,
            ClientStatus::Ready { failure, server_name, server_version, capabilities } => {
                &&& opt_view(r.reason) == opt_view(failure)
                &&& opt_view(r.server_name) == opt_view(server_name)
                &&& opt_view(r.server_version) == opt_view(server_version)
                &&& strs(r.capabilities@) == strs(capabilities@)
            },
        },
{
    let ghost c = client;
    let (state, reason, server_name, server_version, capabilities) = match client {
        ClientStatus::Idle => ("idle", None, None, None, Vec::new()),
        ClientStatus::Failed(reason) => ("failed", Some(reason), None, None, Vec::new()),
        ClientStatus::Ready { failure, server_name, server_version, capabilities } => {
            let state = if failure.is_some() {
                "failed"
            } else {
                "healthy"
            };
            (state, failure, server_name, server_version, capabilities)
        },
    };
    LspStatusEntry {
        language: language.to_string(),
        command: cfg.command.clone(),
        backend: cfg.backend.as_str().to_string(),
        state: state.to_string(),
        reason,
        server_name,
        server_version,
        capabilities,
    }
}

} // verus!
