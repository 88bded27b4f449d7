//! Integration diagnostics over a project root.
//!
//! The checks are independent and never cascade: a missing index is a
//! finding (with a hint), not an operational error, and the remaining checks
//! still run. Severity semantics:
//!
//! - `error` / `warning`: something needs fixing (exit code 1 at the CLI)
//! - `info`: informational only
//!
//! What the checks read from disk is gathered into a [`DoctorFacts`] value;
//! [`run_doctor_checks`] decides the findings from it.

use vstd::prelude::*;

use crate::harness::templates::CTX_VERSION;
use crate::rules::{as_strs, compile_failure, join, join_strs, CompiledRules, RulesFile, DEFAULT_RULES_PATH};
use crate::text::{
    chars_of, find_sub, find_sub_from, i64_text, int_text, matches_at, nat_text, occurs_at,
    push_chars, push_str, slice_range, str_eq, string_from, strs, trim, trim_str, u64_text,
};

verus! {

/// The rules file the doctor validates.
pub const RULES_PATH: &'static str = DEFAULT_RULES_PATH;

/// Where a local Codex scaffold keeps its hook scripts.
pub const CODEX_LOCAL_HOOKS_DIR: &'static str = ".codex/hooks/ctx";

/// Where a plugin scaffold keeps its hook scripts.
pub const PLUGIN_HOOKS_DIR: &'static str = "hooks";

/// Severity of a doctor finding.
#[derive(Debug, Clone, Copy, PartialEq, Eq, Structural)]
pub enum Severity {
    Error,
    Warning,
    Info,
}

/// One doctor finding.
#[derive(Debug)]
pub struct Finding {
    pub severity: Severity,
    /// Stable machine-readable identifier (e.g. `index_missing`).
    pub code: &'static str,
    pub message: String,
    pub hint: Option<String>,
}

/// The abstract value of a [`Finding`].
pub struct FindingView {
    pub severity: Severity,
    pub code: Seq<char>,
    pub message: Seq<char>,
    pub hint: Option<Seq<char>>,
}

impl View for Finding {
    type V = FindingView;

    open spec fn view(&self) -> FindingView {
        FindingView {
            severity: self.severity,
            code: self.code@,
            message: self.message@,
            hint: crate::json::opt_view(self.hint),
        }
    }
}

/// The abstract values of a list of findings.
pub open spec fn findings_view(v: Seq<Finding>) -> Seq<FindingView> {
    v.map_values(|f: Finding| f@)
}

/// A finding with the given parts.
pub open spec fn finding(
    severity: Severity,
    code: Seq<char>,
    message: Seq<char>,
    hint: Seq<char>,
) -> FindingView {
    FindingView { severity, code, message, hint: Some(hint) }
}

impl Finding {
    /// A finding; `hint`, when given, is copied.
    pub fn new(severity: Severity, code: &'static str, message: String, hint: Option<&str>) -> (r:
        Finding)
        ensures
            r@ == (FindingView {
                severity,
                code: code@,
                message: message@,
                hint: match hint {
                    Some(h) => Some(h@),
                    None => None,
                },
            }),
    {
        let hint = match hint {
            Some(h) => Some(h.to_string()),
            None => None,
        };
        Finding { severity, code, message, hint }
    }
}

/// True when no finding is an error or a warning.
pub fn is_healthy(findings: &[Finding]) -> (r: bool)
    ensures
        r <==> forall|i: int| 0 <= i < findings@.len() ==> #[trigger] findings@[i].severity == Severity::Info,
{
    let mut i: usize = 0;
    while i < findings.len()
        invariant
            i <= findings@.len(),
            forall|k: int| 0 <= k < i ==> #[trigger] findings@[k].severity == Severity::Info,
        decreases findings@.len() - i,
    {
        if findings[i].severity != Severity::Info {
            return false;
        }
        i = i + 1;
    }
    true
}

// ---------------------------------------------------------------------------
// What the checks read
// ---------------------------------------------------------------------------

/// One entry of the generated-files manifest.
#[derive(Debug)]
pub struct LockEntry {
    /// Path of the generated file, relative to the root.
    pub rel: String,
    /// The ctx version that generated it.
    pub ctx_version: String,
    /// Its recorded checksum (possibly prefixed with `sha256:`).
    pub checksum: String,
    /// Whether the file exists.
    pub present: bool,
}

/// What could be read of a hook script.
#[derive(Debug)]
pub struct HookContent {
    /// Checksum of the file's bytes.
    pub checksum: String,
    /// The checksum recorded in the file's header, when the file is text
    /// and has one.
    pub recorded: Option<String>,
    /// The generating version recorded in the file's header, when the file
    /// is text and has one.
    pub generated_version: Option<String>,
}

/// A hook script path and what could be read of it (`None`: unreadable).
#[derive(Debug)]
pub struct HookScript {
    pub rel: String,
    pub content: Option<HookContent>,
}

/// The state of the code-intelligence index.
#[derive(Debug)]
pub enum IndexFacts {
    /// No index file.
    Missing,
    /// The index file could not be opened; the error text.
    Unopenable(String),
    /// The index opened.
    Opened {
        /// Its schema version (`-1` when unreadable).
        user_version: i64,
        /// The newest indexing time (seconds since the epoch), if any file
        /// was indexed.
        last_indexed: Option<i64>,
        /// Modification times (seconds since the epoch) of the discovered
        /// source files, `None` where unknown; `None` when discovery failed.
        modified: Option<Vec<Option<i64>>>,
    },
}

/// The state of the rules file.
#[derive(Debug)]
pub enum RulesFacts {
    /// No readable rules file.
    Missing,
    /// The file is not a valid rules document; the parse error text.
    Unparsable(String),
    /// The parsed document.
    Parsed(RulesFile),
}

/// Where the primary agent's harness lives.
#[derive(Debug)]
pub struct AgentLayout {
    /// The agent's name as `ctx harness init --target` takes it.
    pub target: String,
    /// The directory of its local hook scripts, relative to the root.
    pub hooks_dir: String,
    /// Its settings file, which must reference the hook scripts.
    pub settings_file: String,
}

/// Everything the doctor checks look at.
#[derive(Debug)]
pub struct DoctorFacts {
    /// Whether this build serves MCP.
    pub mcp_feature: bool,
    /// The index schema version this build writes.
    pub expected_schema: i64,
    /// The primary agent's layout.
    pub agent: AgentLayout,
    /// The agent's hooks directory is a directory.
    pub local_scaffold: bool,
    /// The agent's plugin manifest exists.
    pub plugin_scaffold: bool,
    /// `.codex/hooks/ctx` is a directory.
    pub codex_local_scaffold: bool,
    /// `.codex-plugin/plugin.json` exists.
    pub codex_plugin_scaffold: bool,
    /// The generated-files manifest, when readable.
    pub lock: Option<Vec<LockEntry>>,
    /// The hook scripts under each hooks directory.
    pub hook_scripts: Vec<HookScript>,
    pub index: IndexFacts,
    pub rules: RulesFacts,
    /// Content of the agent's settings file, when readable.
    pub agent_settings: Option<String>,
    /// Content of `.codex/hooks.json`, when readable.
    pub codex_hooks: Option<String>,
    /// Content of `.mcp.json`, when readable.
    pub mcp_json: Option<String>,
}

// ---------------------------------------------------------------------------
// Helpers
// ---------------------------------------------------------------------------

/// Whether `p` occurs in `s`.
pub open spec fn has_sub(s: Seq<char>, p: Seq<char>) -> bool {
    find_sub(s, p) >= 0
}

/// Whether `p` occurs in `s` (executable).
fn contains_text(s: &str, p: &str) -> (r: bool)
    ensures
        r == has_sub(s@, p@),
{
    let cs = chars_of(s);
    let ps = chars_of(p);
    assert(cs@.skip(0) =~= cs@);
    find_sub_from(cs.as_slice(), ps.as_slice(), 0).is_some()
}

/// `prefix` followed by `s`.
fn concat(prefix: &str, s: &str) -> (r: String)
    ensures
        r@ == prefix@ + s@,
{
    let mut out = String::new();
    push_str(&mut out, prefix);
    push_str(&mut out, s);
    assert(out@ =~= prefix@ + s@);
    out
}

// ---------------------------------------------------------------------------
// serde_json
// ---------------------------------------------------------------------------

/// Whether `serde_json` parses `s` as a JSON value.
pub uninterp spec fn json_parses(s: Seq<char>) -> bool;

/// Whether `s` parses as JSON (`serde_json::from_str::<serde_json::Value>`
/// succeeds). The result is named, not stated: what counts as valid JSON
/// is the parser's.
#[verifier::external_body]
fn is_json(s: &str) -> (r: bool)
    ensures
        r == json_parses(s@),
{
    serde_json::from_str::<serde_json::Value>(s).is_ok()
}

// ---------------------------------------------------------------------------
// binary version, scaffold
// ---------------------------------------------------------------------------

/// The version finding.
pub open spec fn version_findings(facts: DoctorFacts) -> Seq<FindingView> {
    seq![
        FindingView {
            severity: Severity::Info,
            code: "binary_version"@,
            message: "ctx v"@ + CTX_VERSION@ + " (mcp feature: "@ + (if facts.mcp_feature {
                "compiled in"@
            } else {
                "not compiled in"@
            }) + ")"@,
            hint: None,
        },
    ]
}

fn check_binary_version(facts: &DoctorFacts, findings: &mut Vec<Finding>)
    ensures
        findings_view(final(findings)@) == findings_view(old(findings)@) + version_findings(*facts),
{
    let mut message = concat("ctx v", CTX_VERSION);
    push_str(&mut message, " (mcp feature: ");
    if facts.mcp_feature {
        push_str(&mut message, "compiled in");
    } else {
        push_str(&mut message, "not compiled in");
    }
    push_str(&mut message, ")");
    let ghost before = findings_view(findings@);
    let f = Finding::new(Severity::Info, "binary_version", message, None);
    findings.push(f);
    assert(findings_view(findings@) =~= before + version_findings(*facts));
}

/// Whether nothing was scaffolded.
pub open spec fn nothing_scaffolded(facts: DoctorFacts) -> bool {
    !facts.local_scaffold && !facts.plugin_scaffold && !facts.codex_local_scaffold
        && !facts.codex_plugin_scaffold && facts.lock is None
}

/// The scaffold finding.
pub open spec fn scaffold_findings(facts: DoctorFacts) -> Seq<FindingView> {
    if nothing_scaffolded(facts) {
        seq![
            finding(
                Severity::Info,
                "harness_not_initialized"@,
                "no harness files found (nothing scaffolded)"@,
                "run 'ctx harness init --target "@ + facts.agent.target@
                    + "|codex' to wire ctx into an agent"@,
            ),
        ]
    } else {
        seq![]
    }
}

fn check_scaffold(facts: &DoctorFacts, findings: &mut Vec<Finding>)
    ensures
        findings_view(final(findings)@) == findings_view(old(findings)@) + scaffold_findings(*facts),
{
    let ghost before = findings_view(findings@);
    if !facts.local_scaffold && !facts.plugin_scaffold && !facts.codex_local_scaffold
        && !facts.codex_plugin_scaffold && facts.lock.is_none() {
        let mut hint = concat("run 'ctx harness init --target ", facts.agent.target.as_str());
        push_str(&mut hint, "|codex' to wire ctx into an agent");
        findings.push(
            Finding::new(
                Severity::Info,
                "harness_not_initialized",
                "no harness files found (nothing scaffolded)".to_string(),
                Some(hint.as_str()),
            ),
        );
    }
    assert(findings_view(findings@) =~= before + scaffold_findings(*facts));
}

// ---------------------------------------------------------------------------
// index
// ---------------------------------------------------------------------------

/// How many known modification times are later than `last`.
pub open spec fn count_newer(ts: Seq<Option<i64>>, last: i64) -> nat
    decreases ts.len(),
{
    if ts.len() == 0 {
        0
    } else {
        count_newer(ts.drop_last(), last) + match ts.last() {
            Some(t) => if t > last {
                1nat
            } else {
                0nat
            },
            None => 0nat,
        }
    }
}

/// The hint of the schema findings.
pub open spec fn rebuild_hint() -> Seq<char> {
    "run 'ctx index --force' to rebuild the index"@
}

/// The index findings.
pub open spec fn index_findings(facts: DoctorFacts) -> Seq<FindingView> {
    match facts.index {
        IndexFacts::Missing => seq![
            finding(
                Severity::Warning,
                "index_missing"@,
                "no code intelligence index (.ctx/codebase.sqlite)"@,
                "run 'ctx index' to build it"@,
            ),
        ],
        IndexFacts::Unopenable(e) => seq![
            finding(
                Severity::Error,
                "index_schema"@,
                "cannot open .ctx/codebase.sqlite: "@ + e@,
                rebuild_hint(),
            ),
        ],
        IndexFacts::Opened { user_version, last_indexed, modified } => if user_version
            != facts.expected_schema {
            seq![
                finding(
                    Severity::Error,
                    "index_schema"@,
                    "index schema version is "@ + int_text(user_version as int)
                        + ", this ctx expects "@ + int_text(facts.expected_schema as int),
                    rebuild_hint(),
                ),
            ]
        } else {
            match (last_indexed, modified) {
                (Some(last), Some(ts)) => {
                    let n = count_newer(ts@, last);
                    if n > 0 {
                        seq![
                            finding(
                                Severity::Warning,
                                "index_stale"@,
                                nat_text(n) + " file"@ + (if n == 1 {
                                    ""@
                                } else {
                                    "s"@
                                }) + " modified after the last index update"@,
                                "run 'ctx index' to refresh"@,
                            ),
                        ]
                    } else {
                        seq![]
                    }
                },
                _ => seq![],
            }
        },
    }
}

/// Count the modification times later than `last`.
fn newer_count(ts: &Vec<Option<i64>>, last: i64) -> (r: u64)
    ensures
        r == count_newer(ts@, last),
{
    let mut n: u64 = 0;
    let mut i: usize = 0;
    while i < ts.len()
        invariant
            i <= ts@.len(),
            n == count_newer(ts@.take(i as int), last),
            n <= i,
        decreases ts@.len() - i,
    {
        assert(ts@.take(i + 1).drop_last() =~= ts@.take(i as int));
        match ts[i] {
            Some(t) => if t > last {
                n = n + 1;
            },
            None => {},
        }
        i = i + 1;
    }
    assert(ts@.take(i as int) =~= ts@);
    n
}

fn check_index(facts: &DoctorFacts, findings: &mut Vec<Finding>)
    ensures
        findings_view(final(findings)@) == findings_view(old(findings)@) + index_findings(*facts),
{
    let ghost before = findings_view(findings@);
    match &facts.index {
        IndexFacts::Missing => {
            findings.push(
                Finding::new(
                    Severity::Warning,
                    "index_missing",
                    "no code intelligence index (.ctx/codebase.sqlite)".to_string(),
                    Some("run 'ctx index' to build it"),
                ),
            );
        },
        IndexFacts::Unopenable(e) => {
            findings.push(
                Finding::new(
                    Severity::Error,
                    "index_schema",
                    concat("cannot open .ctx/codebase.sqlite: ", e.as_str()),
                    Some("run 'ctx index --force' to rebuild the index"),
                ),
            );
        },
        IndexFacts::Opened { user_version, last_indexed, modified } => {
            if *user_version != facts.expected_schema {
                let mut message = String::new();
                push_str(&mut message, "index schema version is ");
                let found = i64_text(*user_version);
                push_chars(&mut message, found.as_slice());
                push_str(&mut message, ", this ctx expects ");
                let expected = i64_text(facts.expected_schema);
                push_chars(&mut message, expected.as_slice());
                findings.push(
                    Finding::new(
                        Severity::Error,
                        "index_schema",
                        message,
                        Some("run 'ctx index --force' to rebuild the index"),
                    ),
                );
            } else {
                match (last_indexed, modified) {
                    (Some(last), Some(ts)) => {
                        let n = newer_count(ts, *last);
                        if n > 0 {
                            let digits = u64_text(n);
                            let mut message = String::new();
                            push_chars(&mut message, digits.as_slice());
                            push_str(&mut message, " file");
                            if n == 1 {
                                push_str(&mut message, "");
                            } else {
                                push_str(&mut message, "s");
                            }
                            push_str(&mut message, " modified after the last index update");
                            findings.push(
                                Finding::new(
                                    Severity::Warning,
                                    "index_stale",
                                    message,
                                    Some("run 'ctx index' to refresh"),
                                ),
                            );
                        }
                    },
                    _ => {},
                }
            }
        },
    }
    assert(findings_view(findings@) =~= before + index_findings(*facts));
}


// ---------------------------------------------------------------------------
// rules
// ---------------------------------------------------------------------------

/// The finding of an invalid rules file with error text `e`.
pub open spec fn rules_invalid(e: Seq<char>) -> FindingView {
    finding(
        Severity::Error,
        "rules_invalid"@,
        RULES_PATH@ + " is invalid: "@ + trim(e),
        "fix the rules file; 'ctx check --help' documents the format"@,
    )
}

/// The rules findings.
pub open spec fn rules_findings(rules: RulesFacts) -> Seq<FindingView> {
    match rules {
        RulesFacts::Missing => seq![
            finding(
                Severity::Info,
                "rules_missing"@,
                "no rules file ("@ + RULES_PATH@ + ")"@,
                "'ctx harness init' writes a commented starter; see 'ctx check --help'"@,
            ),
        ],
        RulesFacts::Unparsable(e) => seq![rules_invalid(e@)],
        RulesFacts::Parsed(file) => match compile_failure(file) {
            Some(e) => seq![rules_invalid(e)],
            None => seq![],
        },
    }
}

fn invalid_rules_finding(e: &str) -> (r: Finding)
    ensures
        r@ == rules_invalid(e@),
{
    let mut message = concat(RULES_PATH, " is invalid: ");
    let t = trim_str(e);
    push_str(&mut message, t.as_str());
    Finding::new(
        Severity::Error,
        "rules_invalid",
        message,
        Some("fix the rules file; 'ctx check --help' documents the format"),
    )
}

fn check_rules(rules: RulesFacts, findings: &mut Vec<Finding>)
    ensures
        findings_view(final(findings)@) == findings_view(old(findings)@) + rules_findings(rules),
{
    let ghost before = findings_view(findings@);
    let ghost r = rules;
    match rules {
        RulesFacts::Missing => {
            let mut message = concat("no rules file (", RULES_PATH);
            push_str(&mut message, ")");
            findings.push(
                Finding::new(
                    Severity::Info,
                    "rules_missing",
                    message,
                    Some("'ctx harness init' writes a commented starter; see 'ctx check --help'"),
                ),
            );
        },
        RulesFacts::Unparsable(e) => {
            findings.push(invalid_rules_finding(e.as_str()));
        },
        RulesFacts::Parsed(file) => {
            match CompiledRules::compile(file) {
                Ok(_) => {},
                Err(e) => {
                    let m = e.message();
                    findings.push(invalid_rules_finding(m.as_str()));
                },
            }
        },
    }
    assert(findings_view(findings@) =~= before + rules_findings(r));
}

// ---------------------------------------------------------------------------
// hook scripts
// ---------------------------------------------------------------------------

/// The path of hook `name` under `dir`.
pub open spec fn hook_rel(dir: Seq<char>, name: Seq<char>) -> Seq<char> {
    dir + "/"@ + name + ".sh"@
}

/// The paths of the hook scripts under `dir`, in hook order
/// (`session-start`, `post-tool-use`, `stop`).
pub open spec fn dir_rels(dir: Seq<char>) -> Seq<Seq<char>> {
    seq![
        hook_rel(dir, "session-start"@),
        hook_rel(dir, "post-tool-use"@),
        hook_rel(dir, "stop"@),
    ]
}

/// Append the hook script paths under `dir`.
fn push_dir_rels(dir: &str, out: &mut Vec<String>)
    ensures
        strs(final(out)@) == strs(old(out)@) + dir_rels(dir@),
{
    let ghost before = strs(out@);
    let mut a = concat(dir, "/");
    push_str(&mut a, "session-start");
    push_str(&mut a, ".sh");
    let mut b = concat(dir, "/");
    push_str(&mut b, "post-tool-use");
    push_str(&mut b, ".sh");
    let mut c = concat(dir, "/");
    push_str(&mut c, "stop");
    push_str(&mut c, ".sh");
    out.push(a);
    out.push(b);
    out.push(c);
    assert(strs(out@) =~= before + dir_rels(dir@));
}

/// What was read of the first hook script with path `rel` (`None` when
/// there is none or it was unreadable).
pub open spec fn script_for(scripts: Seq<HookScript>, rel: Seq<char>) -> Option<HookContent>
    decreases scripts.len(),
{
    if scripts.len() == 0 {
        None
    } else if scripts[0].rel@ == rel {
        scripts[0].content
    } else {
        script_for(scripts.drop_first(), rel)
    }
}

/// Executable [`script_for`].
fn find_script<'a>(scripts: &'a Vec<HookScript>, rel: &str) -> (r: Option<&'a HookContent>)
    ensures
        match r {
            Some(c) => script_for(scripts@, rel@) == Some(*c),
            None => script_for(scripts@, rel@) is None,
        },
{
    let mut i: usize = 0;
    assert(scripts@.skip(0) =~= scripts@);
    while i < scripts.len()
        invariant
            i <= scripts@.len(),
            script_for(scripts@, rel@) == script_for(scripts@.skip(i as int), rel@),
        decreases scripts@.len() - i,
    {
        assert(scripts@.skip(i as int)[0] == scripts@[i as int]);
        if str_eq(scripts[i].rel.as_str(), rel) {
            return match &scripts[i].content {
                Some(c) => Some(c),
                None => None,
            };
        }
        assert(scripts@.skip(i as int).drop_first() =~= scripts@.skip(i + 1));
        i = i + 1;
    }
    None
}

// ---------------------------------------------------------------------------
// stale templates
// ---------------------------------------------------------------------------

/// How a stale file is listed.
pub open spec fn stale_note(rel: Seq<char>, version: Seq<char>) -> Seq<char> {
    rel + " (v"@ + version + ")"@
}

/// Manifest entries generated by another version whose files exist.
pub open spec fn lock_stale(entries: Seq<LockEntry>) -> Seq<Seq<char>>
    decreases entries.len(),
{
    if entries.len() == 0 {
        seq![]
    } else {
        let e = entries.last();
        lock_stale(entries.drop_last()) + if e.ctx_version@ != CTX_VERSION@ && e.present {
            seq![stale_note(e.rel@, e.ctx_version@)]
        } else {
            seq![]
        }
    }
}

/// Whether some listed entry starts with `rel`.
pub open spec fn listed(stale: Seq<Seq<char>>, rel: Seq<char>) -> bool {
    exists|i: int| 0 <= i < stale.len() && occurs_at(#[trigger] stale[i], rel, 0)
}

/// The stale list after looking at the header of the hook script `rel`.
pub open spec fn stale_step(stale: Seq<Seq<char>>, rel: Seq<char>, scripts: Seq<HookScript>) -> Seq<
    Seq<char>,
> {
    if listed(stale, rel) {
        stale
    } else {
        match script_for(scripts, rel) {
            Some(c) => match c.generated_version {
                Some(v) => if v@ != CTX_VERSION@ {
                    stale.push(stale_note(rel, v@))
                } else {
                    stale
                },
                None => stale,
            },
            None => stale,
        }
    }
}

/// [`stale_step`] over the paths `rels`, in order.
pub open spec fn stale_fold(stale: Seq<Seq<char>>, rels: Seq<Seq<char>>, scripts: Seq<HookScript>) -> Seq<
    Seq<char>,
>
    decreases rels.len(),
{
    if rels.len() == 0 {
        stale
    } else {
        stale_fold(stale_step(stale, rels[0], scripts), rels.drop_first(), scripts)
    }
}

/// The hook script paths whose headers are looked at.
pub open spec fn header_rels(facts: DoctorFacts) -> Seq<Seq<char>> {
    dir_rels(facts.agent.hooks_dir@) + dir_rels(CODEX_LOCAL_HOOKS_DIR@) + dir_rels(PLUGIN_HOOKS_DIR@)
}

/// The generated files from another version: manifest entries first, then
/// hook headers not already listed.
pub open spec fn stale_list(facts: DoctorFacts) -> Seq<Seq<char>> {
    stale_fold(
        match facts.lock {
            Some(l) => lock_stale(l@),
            None => seq![],
        },
        header_rels(facts),
        facts.hook_scripts@,
    )
}

/// The stale-templates finding.
pub open spec fn stale_findings(facts: DoctorFacts) -> Seq<FindingView> {
    let stale = stale_list(facts);
    if stale.len() > 0 {
        seq![
            finding(
                Severity::Warning,
                "templates_stale"@,
                "generated files are from a different ctx version than v"@ + CTX_VERSION@ + ": "@
                    + join(stale, ", "@),
                "rerun 'ctx harness init' to regenerate them"@,
            ),
        ]
    } else {
        seq![]
    }
}

/// Executable [`listed`].
fn is_listed(stale: &Vec<String>, rel: &str) -> (r: bool)
    ensures
        r == listed(strs(stale@), rel@),
{
    let ghost sv = strs(stale@);
    let rc = chars_of(rel);
    let mut i: usize = 0;
    while i < stale.len()
        invariant
            i <= stale@.len(),
            sv == strs(stale@),
            rc@ == rel@,
            forall|k: int| 0 <= k < i ==> !occurs_at(#[trigger] sv[k], rel@, 0),
        decreases stale@.len() - i,
    {
        let sc = chars_of(stale[i].as_str());
        if matches_at(sc.as_slice(), rc.as_slice(), 0) {
            assert(occurs_at(sv[i as int], rel@, 0));
            return true;
        }
        i = i + 1;
    }
    false
}

/// `rel (vversion)`.
fn note(rel: &str, version: &str) -> (r: String)
    ensures
        r@ == stale_note(rel@, version@),
{
    let mut out = concat(rel, " (v");
    push_str(&mut out, version);
    push_str(&mut out, ")");
    out
}

fn check_templates_stale(facts: &DoctorFacts, findings: &mut Vec<Finding>)
    ensures
        findings_view(final(findings)@) == findings_view(old(findings)@) + stale_findings(*facts),
{
    let mut stale: Vec<String> = Vec::new();
    match &facts.lock {
        Some(entries) => {
            let mut i: usize = 0;
            while i < entries.len()
                invariant
                    i <= entries@.len(),
                    strs(stale@) == lock_stale(entries@.take(i as int)),
                decreases entries@.len() - i,
            {
                let e = &entries[i];
                let ghost before = strs(stale@);
                assert(entries@.take(i + 1).drop_last() =~= entries@.take(i as int));
                if !str_eq(e.ctx_version.as_str(), CTX_VERSION) && e.present {
                    stale.push(note(e.rel.as_str(), e.ctx_version.as_str()));
                }
                assert(strs(stale@) =~= lock_stale(entries@.take(i + 1)));
                i = i + 1;
            }
            assert(entries@.take(i as int) =~= entries@);
        },
        None => {
            assert(strs(stale@) =~= Seq::<Seq<char>>::empty());
        },
    }
    assert(strs(stale@) == match facts.lock {
        Some(l) => lock_stale(l@),
        None => seq![],
    });
    let mut rels: Vec<String> = Vec::new();
    push_dir_rels(facts.agent.hooks_dir.as_str(), &mut rels);
    push_dir_rels(CODEX_LOCAL_HOOKS_DIR, &mut rels);
    push_dir_rels(PLUGIN_HOOKS_DIR, &mut rels);
    let ghost rv = strs(rels@);
    let ghost scripts = facts.hook_scripts@;
    assert(rv =~= header_rels(*facts));
    assert(rv.skip(0) =~= rv);
    let ghost goal = stale_list(*facts);
    let mut j: usize = 0;
    while j < rels.len()
        invariant
            j <= rv.len(),
            rv == strs(rels@),
            scripts == facts.hook_scripts@,
            goal == stale_fold(strs(stale@), rv.skip(j as int), scripts),
        decreases rv.len() - j,
    {
        let rel = rels[j].as_str();
        let ghost s0 = strs(stale@);
        assert(rv.skip(j as int)[0] == rv[j as int]);
        assert(rv.skip(j as int).drop_first() =~= rv.skip(j + 1));
        if !is_listed(&stale, rel) {
            match find_script(&facts.hook_scripts, rel) {
                Some(c) => match &c.generated_version {
                    Some(v) => {
                        if !str_eq(v.as_str(), CTX_VERSION) {
                            stale.push(note(rel, v.as_str()));
                            assert(strs(stale@) =~= s0.push(stale_note(rel@, v@)));
                        }
                    },
                    None => {},
                },
                None => {},
            }
        }
        assert(strs(stale@) == stale_step(s0, rv[j as int], scripts));
        j = j + 1;
    }
    assert(strs(stale@) == goal);
    let ghost before = findings_view(findings@);
    if stale.len() > 0 {
        let mut message = concat("generated files are from a different ctx version than v", CTX_VERSION);
        push_str(&mut message, ": ");
        let parts = as_strs(&stale);
        let joined = join_strs(&parts, ", ");
        push_str(&mut message, joined.as_str());
        findings.push(
            Finding::new(
                Severity::Warning,
                "templates_stale",
                message,
                Some("rerun 'ctx harness init' to regenerate them"),
            ),
        );
    }
    assert(findings_view(findings@) =~= before + stale_findings(*facts));
}


// ---------------------------------------------------------------------------
// hooks
// ---------------------------------------------------------------------------

/// The hook script paths checked for each scaffold present.
pub open spec fn checked_rels(facts: DoctorFacts) -> Seq<Seq<char>> {
    (if facts.local_scaffold {
        dir_rels(facts.agent.hooks_dir@)
    } else {
        seq![]
    }) + (if facts.plugin_scaffold {
        dir_rels(PLUGIN_HOOKS_DIR@)
    } else {
        seq![]
    }) + (if facts.codex_local_scaffold {
        dir_rels(CODEX_LOCAL_HOOKS_DIR@)
    } else {
        seq![]
    }) + (if facts.codex_plugin_scaffold && !facts.plugin_scaffold {
        dir_rels(PLUGIN_HOOKS_DIR@)
    } else {
        seq![]
    })
}

/// `s` without one leading `p`.
pub open spec fn strip_once(s: Seq<char>, p: Seq<char>) -> Seq<char> {
    if occurs_at(s, p, 0) {
        s.skip(p.len() as int)
    } else {
        s
    }
}

/// The checksum the manifest records for `rel` (its first entry).
pub open spec fn lock_checksum(entries: Seq<LockEntry>, rel: Seq<char>) -> Option<Seq<char>>
    decreases entries.len(),
{
    if entries.len() == 0 {
        None
    } else if entries[0].rel@ == rel {
        Some(entries[0].checksum@)
    } else {
        lock_checksum(entries.drop_first(), rel)
    }
}

/// The checksum a hook script should have: the manifest's (without a
/// `sha256:` prefix), else the one recorded in its header.
pub open spec fn expected_checksum(lock: Option<Vec<LockEntry>>, rel: Seq<char>, c: HookContent) -> Option<
    Seq<char>,
> {
    match match lock {
        Some(l) => lock_checksum(l@, rel),
        None => None,
    } {
        Some(ck) => Some(strip_once(ck, "sha256:"@)),
        None => crate::json::opt_view(c.recorded),
    }
}

/// The unreadable hook scripts among `rels`, in order.
pub open spec fn missing_hooks(rels: Seq<Seq<char>>, scripts: Seq<HookScript>) -> Seq<Seq<char>>
    decreases rels.len(),
{
    if rels.len() == 0 {
        seq![]
    } else {
        missing_hooks(rels.drop_last(), scripts) + if script_for(scripts, rels.last()) is None {
            seq![rels.last()]
        } else {
            seq![]
        }
    }
}

/// The readable hook scripts among `rels` whose checksum is not the
/// expected one, in order.
pub open spec fn modified_hooks(
    rels: Seq<Seq<char>>,
    scripts: Seq<HookScript>,
    lock: Option<Vec<LockEntry>>,
) -> Seq<Seq<char>>
    decreases rels.len(),
{
    if rels.len() == 0 {
        seq![]
    } else {
        modified_hooks(rels.drop_last(), scripts, lock) + match script_for(scripts, rels.last()) {
            Some(c) => if expected_checksum(lock, rels.last(), c) == Some(c.checksum@) {
                seq![]
            } else {
                seq![rels.last()]
            },
            None => seq![],
        }
    }
}

/// The hook findings.
pub open spec fn hooks_findings(facts: DoctorFacts) -> Seq<FindingView> {
    let rels = checked_rels(facts);
    let missing = missing_hooks(rels, facts.hook_scripts@);
    let modified = modified_hooks(rels, facts.hook_scripts@, facts.lock);
    (if missing.len() > 0 {
        seq![
            finding(
                Severity::Warning,
                "hooks_missing"@,
                "hook scripts missing: "@ + join(missing, ", "@),
                "rerun 'ctx harness init' to regenerate them"@,
            ),
        ]
    } else {
        seq![]
    }) + (if modified.len() > 0 {
        seq![
            finding(
                Severity::Warning,
                "hooks_modified"@,
                "hook scripts modified since generation (checksum mismatch): "@ + join(
                    modified,
                    ", "@,
                ),
                "rerun 'ctx harness init --force' to restore them"@,
            ),
        ]
    } else {
        seq![]
    })
}

/// Executable [`strip_once`].
fn strip_once_exec(s: &str, p: &str) -> (r: String)
    ensures
        r@ == strip_once(s@, p@),
{
    let sc = chars_of(s);
    let pc = chars_of(p);
    if matches_at(sc.as_slice(), pc.as_slice(), 0) {
        let rest = slice_range(sc.as_slice(), pc.len(), sc.len());
        assert(rest@ =~= s@.skip(p@.len() as int));
        string_from(rest.as_slice())
    } else {
        let out = string_from(sc.as_slice());
        out
    }
}

/// Executable [`lock_checksum`].
fn find_lock_checksum<'a>(entries: &'a Vec<LockEntry>, rel: &str) -> (r: Option<&'a str>)
    ensures
        match r {
            Some(c) => lock_checksum(entries@, rel@) == Some(c@),
            None => lock_checksum(entries@, rel@) is None,
        },
{
    let mut i: usize = 0;
    assert(entries@.skip(0) =~= entries@);
    while i < entries.len()
        invariant
            i <= entries@.len(),
            lock_checksum(entries@, rel@) == lock_checksum(entries@.skip(i as int), rel@),
        decreases entries@.len() - i,
    {
        assert(entries@.skip(i as int)[0] == entries@[i as int]);
        if str_eq(entries[i].rel.as_str(), rel) {
            return Some(entries[i].checksum.as_str());
        }
        assert(entries@.skip(i as int).drop_first() =~= entries@.skip(i + 1));
        i = i + 1;
    }
    None
}

/// Whether a readable hook script has the expected checksum.
fn checksum_matches(lock: &Option<Vec<LockEntry>>, rel: &str, c: &HookContent) -> (r: bool)
    ensures
        r == (expected_checksum(*lock, rel@, *c) == Some(c.checksum@)),
{
    let recorded: Option<&str> = match lock {
        Some(l) => find_lock_checksum(l, rel),
        None => None,
    };
    match recorded {
        Some(ck) => {
            let expected = strip_once_exec(ck, "sha256:");
            str_eq(expected.as_str(), c.checksum.as_str())
        },
        None => match &c.recorded {
            Some(r) => str_eq(r.as_str(), c.checksum.as_str()),
            None => false,
        },
    }
}

fn check_hooks(facts: &DoctorFacts, findings: &mut Vec<Finding>)
    ensures
        findings_view(final(findings)@) == findings_view(old(findings)@) + hooks_findings(*facts),
{
    let mut rels: Vec<String> = Vec::new();
    let ghost r0 = strs(rels@);
    if facts.local_scaffold {
        push_dir_rels(facts.agent.hooks_dir.as_str(), &mut rels);
    }
    let ghost r1 = strs(rels@);
    if facts.plugin_scaffold {
        push_dir_rels(PLUGIN_HOOKS_DIR, &mut rels);
    }
    let ghost r2 = strs(rels@);
    if facts.codex_local_scaffold {
        push_dir_rels(CODEX_LOCAL_HOOKS_DIR, &mut rels);
    }
    let ghost r3 = strs(rels@);
    if facts.codex_plugin_scaffold && !facts.plugin_scaffold {
        push_dir_rels(PLUGIN_HOOKS_DIR, &mut rels);
    }
    let ghost rv = strs(rels@);
    assert(r0 =~= Seq::<Seq<char>>::empty());
    assert(rv =~= checked_rels(*facts));
    let ghost scripts = facts.hook_scripts@;
    let mut missing: Vec<String> = Vec::new();
    let mut modified: Vec<String> = Vec::new();
    let mut i: usize = 0;
    while i < rels.len()
        invariant
            i <= rv.len(),
            rv == strs(rels@),
            scripts == facts.hook_scripts@,
            strs(missing@) == missing_hooks(rv.take(i as int), scripts),
            strs(modified@) == modified_hooks(rv.take(i as int), scripts, facts.lock),
        decreases rv.len() - i,
    {
        let rel = rels[i].as_str();
        let ghost m0 = strs(missing@);
        let ghost d0 = strs(modified@);
        assert(rv.take(i + 1).drop_last() =~= rv.take(i as int));
        assert(rv.take(i + 1).last() == rel@);
        match find_script(&facts.hook_scripts, rel) {
            None => {
                missing.push(rel.to_string());
                assert(strs(missing@) =~= m0.push(rel@));
                assert(strs(modified@) =~= d0 + Seq::<Seq<char>>::empty());
            },
            Some(c) => {
                if !checksum_matches(&facts.lock, rel, c) {
                    modified.push(rel.to_string());
                    assert(strs(modified@) =~= d0.push(rel@));
                } else {
                    assert(strs(modified@) =~= d0 + Seq::<Seq<char>>::empty());
                }
                assert(strs(missing@) =~= m0 + Seq::<Seq<char>>::empty());
            },
        }
        i = i + 1;
    }
    assert(rv.take(i as int) =~= rv);
    let ghost before = findings_view(findings@);
    if missing.len() > 0 {
        let parts = as_strs(&missing);
        let joined = join_strs(&parts, ", ");
        findings.push(
            Finding::new(
                Severity::Warning,
                "hooks_missing",
                concat("hook scripts missing: ", joined.as_str()),
                Some("rerun 'ctx harness init' to regenerate them"),
            ),
        );
    }
    let ghost mid = findings_view(findings@);
    if modified.len() > 0 {
        let parts = as_strs(&modified);
        let joined = join_strs(&parts, ", ");
        findings.push(
            Finding::new(
                Severity::Warning,
                "hooks_modified",
                concat(
                    "hook scripts modified since generation (checksum mismatch): ",
                    joined.as_str(),
                ),
                Some("rerun 'ctx harness init --force' to restore them"),
            ),
        );
    }
    assert(findings_view(findings@) =~= before + hooks_findings(*facts));
}

// ---------------------------------------------------------------------------
// settings wiring, MCP
// ---------------------------------------------------------------------------

/// The Codex hooks-wiring finding.
pub open spec fn codex_wiring_findings(facts: DoctorFacts) -> Seq<FindingView> {
    let wired = match facts.codex_hooks {
        Some(c) => json_parses(c@) && has_sub(c@, ".codex/hooks/ctx/"@),
        None => false,
    };
    if facts.codex_local_scaffold && !wired {
        seq![
            finding(
                Severity::Warning,
                "codex_hooks_not_wired"@,
                ".codex/hooks.json is missing, invalid, or does not reference .codex/hooks/ctx/"@,
                "rerun 'ctx harness init --target codex' to regenerate it"@,
            ),
        ]
    } else {
        seq![]
    }
}

/// The agent settings-wiring finding.
pub open spec fn agent_wiring_findings(facts: DoctorFacts) -> Seq<FindingView> {
    let hooks = facts.agent.hooks_dir@ + "/"@;
    let wired = match facts.agent_settings {
        Some(c) => has_sub(c@, hooks),
        None => false,
    };
    if facts.local_scaffold && !wired {
        seq![
            finding(
                Severity::Warning,
                "settings_not_wired"@,
                facts.agent.settings_file@ + " does not reference the generated hooks under "@
                    + hooks,
                "add the settings snippet printed by 'ctx harness init' to "@
                    + facts.agent.settings_file@,
            ),
        ]
    } else {
        seq![]
    }
}

/// The settings-wiring findings (Codex first, then the agent's).
pub open spec fn settings_findings(facts: DoctorFacts) -> Seq<FindingView> {
    codex_wiring_findings(facts) + agent_wiring_findings(facts)
}

fn check_codex_wiring(facts: &DoctorFacts, findings: &mut Vec<Finding>)
    ensures
        findings_view(final(findings)@) == findings_view(old(findings)@) + codex_wiring_findings(
            *facts,
        ),
{
    let ghost before = findings_view(findings@);
    if facts.codex_local_scaffold {
        let wired = match &facts.codex_hooks {
            Some(c) => is_json(c.as_str()) && contains_text(c.as_str(), ".codex/hooks/ctx/"),
            None => false,
        };
        if !wired {
            findings.push(
                Finding::new(
                    Severity::Warning,
                    "codex_hooks_not_wired",
                    ".codex/hooks.json is missing, invalid, or does not reference .codex/hooks/ctx/".to_string(),
                    Some("rerun 'ctx harness init --target codex' to regenerate it"),
                ),
            );
        }
    }
    assert(findings_view(findings@) =~= before + codex_wiring_findings(*facts));
}

fn check_settings_wiring(facts: &DoctorFacts, findings: &mut Vec<Finding>)
    ensures
        findings_view(final(findings)@) == findings_view(old(findings)@) + settings_findings(*facts),
{
    check_codex_wiring(facts, findings);
    let ghost mid = findings_view(findings@);
    if facts.local_scaffold {
        let hooks = concat(facts.agent.hooks_dir.as_str(), "/");
        let wired = match &facts.agent_settings {
            Some(c) => contains_text(c.as_str(), hooks.as_str()),
            None => false,
        };
        if !wired {
            let mut message = concat(
                facts.agent.settings_file.as_str(),
                " does not reference the generated hooks under ",
            );
            push_str(&mut message, hooks.as_str());
            let hint = concat(
                "add the settings snippet printed by 'ctx harness init' to ",
                facts.agent.settings_file.as_str(),
            );
            findings.push(
                Finding::new(Severity::Warning, "settings_not_wired", message, Some(hint.as_str())),
            );
        }
    }
    assert(findings_view(findings@) =~= mid + agent_wiring_findings(*facts));
    assert(findings_view(findings@) =~= findings_view(old(findings)@) + settings_findings(*facts));
}

/// Whether `.mcp.json` wires `ctx serve --mcp`.
pub open spec fn wires_ctx_serve(facts: DoctorFacts) -> bool {
    match facts.mcp_json {
        Some(c) => has_sub(c@, "\"ctx\""@) && has_sub(c@, "--mcp"@),
        None => false,
    }
}

/// The MCP findings.
pub open spec fn mcp_findings(facts: DoctorFacts) -> Seq<FindingView> {
    (if wires_ctx_serve(facts) && !facts.mcp_feature {
        seq![
            finding(
                Severity::Warning,
                "mcp_unavailable"@,
                ".mcp.json wires 'ctx serve --mcp' but this binary lacks the mcp feature"@,
                "install a build with MCP: cargo install agentis-ctx --features mcp"@,
            ),
        ]
    } else {
        seq![]
    }) + (if facts.mcp_feature && (facts.plugin_scaffold || facts.codex_plugin_scaffold)
        && facts.mcp_json is None {
        seq![
            finding(
                Severity::Info,
                "mcp_not_wired"@,
                "this binary has the mcp feature, but the plugin scaffold has no .mcp.json"@,
                "rerun 'ctx harness init --mode plugin' to generate it"@,
            ),
        ]
    } else {
        seq![]
    })
}

fn check_mcp(facts: &DoctorFacts, findings: &mut Vec<Finding>)
    ensures
        findings_view(final(findings)@) == findings_view(old(findings)@) + mcp_findings(*facts),
{
    let ghost before = findings_view(findings@);
    let wires = match &facts.mcp_json {
        Some(c) => contains_text(c.as_str(), "\"ctx\"") && contains_text(c.as_str(), "--mcp"),
        None => false,
    };
    if wires && !facts.mcp_feature {
        findings.push(
            Finding::new(
                Severity::Warning,
                "mcp_unavailable",
                ".mcp.json wires 'ctx serve --mcp' but this binary lacks the mcp feature".to_string(),
                Some("install a build with MCP: cargo install agentis-ctx --features mcp"),
            ),
        );
    }
    if facts.mcp_feature && (facts.plugin_scaffold || facts.codex_plugin_scaffold)
        && facts.mcp_json.is_none() {
        findings.push(
            Finding::new(
                Severity::Info,
                "mcp_not_wired",
                "this binary has the mcp feature, but the plugin scaffold has no .mcp.json".to_string(),
                Some("rerun 'ctx harness init --mode plugin' to generate it"),
            ),
        );
    }
    assert(findings_view(findings@) =~= before + mcp_findings(*facts));
}

// ---------------------------------------------------------------------------
// all checks
// ---------------------------------------------------------------------------

/// Every finding, check by check: version, scaffold, stale templates,
/// index, rules, hooks, settings wiring, MCP.
pub open spec fn doctor_findings(facts: DoctorFacts) -> Seq<FindingView> {
    version_findings(facts) + scaffold_findings(facts) + stale_findings(facts) + index_findings(
        facts,
    ) + rules_findings(facts.rules) + hooks_findings(facts) + settings_findings(facts)
        + mcp_findings(facts)
}

/// Run every doctor check over what was read of the project and collect the
/// findings.
pub fn run_doctor_checks(facts: DoctorFacts) -> (r: Vec<Finding>)
    ensures
        findings_view(r@) == doctor_findings(facts),
{
    let ghost original = facts;
    let mut facts = facts;
    let mut findings: Vec<Finding> = Vec::new();
    check_binary_version(&facts, &mut findings);
    check_scaffold(&facts, &mut findings);
    check_templates_stale(&facts, &mut findings);
    check_index(&facts, &mut findings);
    let mut rules = RulesFacts::Missing;
    std::mem::swap(&mut rules, &mut facts.rules);
    check_rules(rules, &mut findings);
    check_hooks(&facts, &mut findings);
    check_settings_wiring(&facts, &mut findings);
    check_mcp(&facts, &mut findings);
    assert(findings_view(findings@) =~= doctor_findings(original));
    findings
}


/// The checks never cascade: whatever the index, the scaffold or the hooks
/// look like, every finding of the index check and every finding of the
/// rules check is reported, and the version finding always comes first.
pub proof fn law_checks_never_cascade(facts: DoctorFacts)
    ensures
        doctor_findings(facts).len() > 0,
        doctor_findings(facts)[0].code == "binary_version"@,
        doctor_findings(facts)[0].severity == Severity::Info,
        forall|k: int|
            0 <= k < index_findings(facts).len() ==> doctor_findings(facts).contains(
                #[trigger] index_findings(facts)[k],
            ),
        forall|k: int|
            0 <= k < rules_findings(facts.rules).len() ==> doctor_findings(facts).contains(
                #[trigger] rules_findings(facts.rules)[k],
            ),
{
    let a = version_findings(facts) + scaffold_findings(facts) + stale_findings(facts);
    let i = index_findings(facts);
    let r = rules_findings(facts.rules);
    let rest = hooks_findings(facts) + settings_findings(facts) + mcp_findings(facts);
    let all = doctor_findings(facts);
    assert(all =~= a + i + r + rest);
    assert forall|k: int| 0 <= k < i.len() implies all.contains(#[trigger] i[k]) by {
        assert(all[a.len() + k] == i[k]);
    }
    assert forall|k: int| 0 <= k < r.len() implies all.contains(#[trigger] r[k]) by {
        assert(all[a.len() + i.len() + k] == r[k]);
    }
}

/// A missing index and an unparsable rules file are both reported, with
/// distinct codes, in one run, and the run is not healthy.
pub proof fn law_missing_index_and_invalid_rules_reported_together(facts: DoctorFacts)
    requires
        facts.index is Missing,
        facts.rules is Unparsable,
    ensures
        exists|k: int|
            0 <= k < doctor_findings(facts).len() && (#[trigger] doctor_findings(facts)[k]).code
                == "index_missing"@ && doctor_findings(facts)[k].severity == Severity::Warning,
        exists|k: int|
            0 <= k < doctor_findings(facts).len() && (#[trigger] doctor_findings(facts)[k]).code
                == "rules_invalid"@ && doctor_findings(facts)[k].severity == Severity::Error,
        exists|k: int|
            0 <= k < doctor_findings(facts).len() && (#[trigger] doctor_findings(facts)[k]).severity
                != Severity::Info,
{
    law_checks_never_cascade(facts);
    let all = doctor_findings(facts);
    let i = index_findings(facts);
    let r = rules_findings(facts.rules);
    assert(i.len() == 1);
    assert(r.len() == 1);
    assert(all.contains(i[0]));
    assert(all.contains(r[0]));
    let ki = choose|k: int| 0 <= k < all.len() && all[k] == i[0];
    let kr = choose|k: int| 0 <= k < all.len() && all[k] == r[0];
    assert(all[ki].code == "index_missing"@);
    assert(all[kr].code == "rules_invalid"@);
}

} // verus!
