//! Language-server support: per-file backend selection, `file://` URIs,
//! configuration validation, reference resolution guards and health status.
//!
//! Per language the backend is selectable: `tree-sitter` (builtin grammars),
//! `lsp` (symbols and call edges from the language server) or `hybrid`
//! (tree-sitter extracts, the language server resolves cross-file
//! references). Without any configured block nothing changes.

pub mod client;
pub mod config;
pub mod extract;
pub mod mock;
pub mod resolve;
pub mod status;
pub mod transport;
pub mod uri;

pub use config::{LspBackend, LspConfig, LspServerConfig};
pub use uri::{path_to_uri, strip_uri_drive_slash, strip_verbatim, uri_to_path, is_uri_path_byte};

use vstd::prelude::*;

use crate::paths::{extension, path_extension};
use crate::parser::{has_builtin_grammar, language_of_extension, CodeParser};
use crate::text::{ascii_lower_str, chars_of, str_eq, string_from, to_ascii_lower};
use config::{
    blocks_view, claim_of, claims_view, find_claim, servers_view, validate, validated_claims,
    validated_servers, LspServerConfigView,
};

verus! {

/// How a file should be extracted.
#[derive(Debug, Clone, PartialEq, Eq)]
pub enum FileBackend {
    /// Builtin tree-sitter extraction (also the fallback when no
    /// configuration block claims the file's extension).
    TreeSitter,
    /// Extract with the language server registered for this language.
    Lsp(String),
    /// Extract with tree-sitter, resolve leftover cross-file references with
    /// the language server for this language.
    Hybrid(String),
    /// Neither a builtin grammar nor a registration covers this file.
    Unsupported,
}

/// The abstract value of a [`FileBackend`].
pub enum FileBackendView {
    TreeSitter,
    Lsp(Seq<char>),
    Hybrid(Seq<char>),
    Unsupported,
}

impl View for FileBackend {
    type V = FileBackendView;

    open spec fn view(&self) -> FileBackendView {
        match self {
            FileBackend::TreeSitter => FileBackendView::TreeSitter,
            FileBackend::Lsp(l) => FileBackendView::Lsp(l@),
            FileBackend::Hybrid(l) => FileBackendView::Hybrid(l@),
            FileBackend::Unsupported => FileBackendView::Unsupported,
        }
    }
}

/// The configuration of `language` among validated servers, if any.
pub open spec fn server_of(servers: Seq<(Seq<char>, LspServerConfigView)>, language: Seq<char>) -> Option<
    LspServerConfigView,
>
    decreases servers.len(),
{
    if servers.len() == 0 {
        None
    } else if servers[0].0 == language {
        Some(servers[0].1)
    } else {
        server_of(servers.skip(1), language)
    }
}

/// The backend for `path`: the claim of its (lowercased) extension decides,
/// degrading to tree-sitter or to unsupported where no builtin grammar
/// exists.
pub open spec fn backend_decision(
    servers: Seq<(Seq<char>, LspServerConfigView)>,
    claims: Seq<(Seq<char>, Seq<char>)>,
    path: Seq<char>,
) -> FileBackendView {
    let builtin = has_builtin_grammar(language_of_extension(extension(path)));
    let claimed = match extension(path) {
        Some(e) => claim_of(claims, ascii_lower_str(e)),
        None => None,
    };
    match claimed {
        None => if builtin {
            FileBackendView::TreeSitter
        } else {
            FileBackendView::Unsupported
        },
        Some(language) => match server_of(servers, language)->0.backend {
            LspBackend::TreeSitter => if builtin {
                FileBackendView::TreeSitter
            } else {
                FileBackendView::Unsupported
            },
            LspBackend::Lsp => FileBackendView::Lsp(language),
            LspBackend::Hybrid => if builtin {
                FileBackendView::Hybrid(language)
            } else {
                FileBackendView::Lsp(language)
            },
        },
    }
}

/// Per-run registry of configured language servers and extension claims.
pub struct LspManager {
    root: String,
    verbose: bool,
    servers: Vec<(String, LspServerConfig)>,
    /// Extension (lowercase, no dot) and the language claiming it; the first
    /// configuration block wins.
    extension_claims: Vec<(String, String)>,
    /// Languages whose fallback was already reported.
    warned: Vec<String>,
    /// What is known of each language's client in this run.
    clients: Vec<(String, ClientSlot)>,
}

/// What is known of a language's client during a run: started and usable,
/// or unusable (it failed to start, or declared a failure) for a reason.
#[derive(Debug)]
pub enum ClientSlot {
    Ready,
    Failed(String),
}

/// The abstract value of a [`ClientSlot`].
pub enum ClientSlotView {
    Ready,
    Failed(Seq<char>),
}

impl View for ClientSlot {
    type V = ClientSlotView;

    open spec fn view(&self) -> ClientSlotView {
        match self {
            ClientSlot::Ready => ClientSlotView::Ready,
            ClientSlot::Failed(r) => ClientSlotView::Failed(r@),
        }
    }
}

/// How a request for a language's client is served: by the running
/// client, by starting one, or not at all (the builtin parser takes over).
#[derive(Debug, Clone, Copy, PartialEq, Eq, Structural)]
pub enum ClientAccess {
    Use,
    Start,
    Unavailable,
}

/// The abstract value of the client table.
pub open spec fn slots_view(v: Seq<(String, ClientSlot)>) -> Seq<(Seq<char>, ClientSlotView)> {
    v.map_values(|e: (String, ClientSlot)| (e.0@, e.1@))
}

/// What is known of `language`'s client (the first entry for it).
pub open spec fn slot_of(slots: Seq<(Seq<char>, ClientSlotView)>, language: Seq<char>) -> Option<
    ClientSlotView,
>
    decreases slots.len(),
{
    if slots.len() == 0 {
        None
    } else if slots[0].0 == language {
        Some(slots[0].1)
    } else {
        slot_of(slots.drop_first(), language)
    }
}

/// The effect of the fallback warning for `language`: the first time, the
/// warning is given and the language remembered; later, nothing.
pub open spec fn fallback_step(
    before: Seq<Seq<char>>,
    after: Seq<Seq<char>>,
    command: Seq<char>,
    language: Seq<char>,
    reason: Seq<char>,
    warning: Option<Seq<char>>,
) -> bool {
    if before.contains(language) {
        warning is None && after == before
    } else {
        warning == Some(fallback_warning(command, language, reason)) && after == before.push(language)
    }
}

proof fn lemma_claim_all_languages(
    claims: Seq<(Seq<char>, Seq<char>)>,
    exts: Seq<Seq<char>>,
    language: Seq<char>,
)
    ensures
        forall|i: int|
            0 <= i < config::claim_all(claims, exts, language).len() ==> ((
            #[trigger] config::claim_all(claims, exts, language)[i]).1 == language || exists|j: int|
                0 <= j < claims.len() && claims[j].1 == config::claim_all(
                    claims,
                    exts,
                    language,
                )[i].1),
    decreases exts.len(),
{
    let r = config::claim_all(claims, exts, language);
    if exts.len() > 0 {
        lemma_claim_all_languages(claims, exts.drop_last(), language);
        let c = config::claim_all(claims, exts.drop_last(), language);
        assert forall|i: int| 0 <= i < r.len() implies ((#[trigger] r[i]).1 == language || exists|
            j: int,
        | 0 <= j < claims.len() && claims[j].1 == r[i].1) by {
            if i < c.len() {
                assert(r[i] == c[i]);
            }
        }
    } else {
        assert forall|i: int| 0 <= i < r.len() implies ((#[trigger] r[i]).1 == language || exists|
            j: int,
        | 0 <= j < claims.len() && claims[j].1 == r[i].1) by {
            assert(claims[i].1 == r[i].1);
        }
    }
}

proof fn lemma_server_of_found(servers: Seq<(Seq<char>, LspServerConfigView)>, j: int)
    requires
        0 <= j < servers.len(),
    ensures
        server_of(servers, servers[j].0) is Some,
    decreases j,
{
    if j > 0 && servers[0].0 != servers[j].0 {
        lemma_server_of_found(servers.skip(1), j - 1);
        assert(servers.skip(1)[j - 1] == servers[j]);
    }
}

/// Whether `language` is the name of one of `servers`.
pub open spec fn has_server(servers: Seq<(Seq<char>, LspServerConfigView)>, language: Seq<char>) -> bool {
    exists|j: int| 0 <= j < servers.len() && #[trigger] servers[j].0 == language
}

/// Every claim of validated blocks names a validated server.
proof fn lemma_claims_have_servers(blocks: Seq<(Seq<char>, LspServerConfigView)>)
    ensures
        forall|i: int|
            0 <= i < validated_claims(blocks).len() ==> has_server(
                validated_servers(blocks),
                (#[trigger] validated_claims(blocks)[i]).1,
            ),
    decreases blocks.len(),
{
    if blocks.len() > 0 {
        let prev = blocks.drop_last();
        lemma_claims_have_servers(prev);
        let b = blocks.last();
        let pc = validated_claims(prev);
        let ps = validated_servers(prev);
        if config::block_accepted(b.0, b.1) {
            let exts = config::effective_exts(b.0, b.1)->0;
            lemma_claim_all_languages(pc, exts, b.0);
            let s = validated_servers(blocks);
            assert(s == ps.push((b.0, config::normalized_block(b.0, b.1))));
            assert(validated_claims(blocks) == config::claim_all(pc, exts, b.0));
            assert forall|i: int| 0 <= i < validated_claims(blocks).len() implies has_server(
                s,
                (#[trigger] validated_claims(blocks)[i]).1,
            ) by {
                let c = validated_claims(blocks)[i];
                if c.1 == b.0 {
                    assert(s[s.len() - 1].0 == b.0);
                } else {
                    let k = choose|k: int| 0 <= k < pc.len() && pc[k].1 == c.1;
                    assert(has_server(ps, pc[k].1));
                    let j = choose|j: int| 0 <= j < ps.len() && #[trigger] ps[j].0 == pc[k].1;
                    assert(s[j] == ps[j]);
                }
            }
        }
    }
}

/// The warning that `language`'s server (`command`) is unusable for
/// `reason`.
pub open spec fn fallback_warning(command: Seq<char>, language: Seq<char>, reason: Seq<char>) -> Seq<
    char,
> {
    "Warning: LSP server '"@ + command + "' for "@ + language + " "@ + reason
        + "; falling back to tree-sitter"@
}

/// A language is warned about once: after its warning it is remembered, so
/// a later call gives none.
pub proof fn law_fallback_warning_given_once(warned: Seq<Seq<char>>, language: Seq<char>)
    ensures
        warned.push(language).contains(language),
{
    assert(warned.push(language)[warned.len() as int] == language);
}

impl LspManager {
    /// Every claimed language has a validated server.
    pub closed spec fn wf(&self) -> bool {
        forall|i: int|
            0 <= i < self.extension_claims@.len() ==> server_of(
                servers_view(self.servers@),
                (#[trigger] self.extension_claims@[i]).1@,
            ) is Some
    }

    /// The validated servers.
    pub closed spec fn servers_spec(&self) -> Seq<(Seq<char>, LspServerConfigView)> {
        servers_view(self.servers@)
    }

    /// The extension claims.
    pub closed spec fn claims_spec(&self) -> Seq<(Seq<char>, Seq<char>)> {
        claims_view(self.extension_claims@)
    }

    /// The project root the servers run in.
    pub closed spec fn root_spec(&self) -> Seq<char> {
        self.root@
    }

    /// Whether diagnostics are printed.
    pub closed spec fn verbose_spec(&self) -> bool {
        self.verbose
    }

    /// The languages whose fallback was already reported.
    pub closed spec fn warned_spec(&self) -> Seq<Seq<char>> {
        crate::text::strs(self.warned@)
    }

    /// What is known of each language's client.
    pub closed spec fn slots_spec(&self) -> Seq<(Seq<char>, ClientSlotView)> {
        slots_view(self.clients@)
    }

    /// Build a manager from the configuration. `None` when no block exists
    /// or none survives validation: the subsystem then stays inert.
    pub fn from_config(root: &str, lsp_config: &LspConfig, verbose: bool) -> (r: Option<LspManager>)
        requires
            crate::lsp::resolve::keys_ascending(blocks_view(lsp_config.lsp@)),
        ensures
            match r {
                Some(m) => {
                    &&& m.wf()
                    &&& validated_servers(blocks_view(lsp_config.lsp@)).len() > 0
                    &&& m.servers_spec() == validated_servers(blocks_view(lsp_config.lsp@))
                    &&& m.claims_spec() == validated_claims(blocks_view(lsp_config.lsp@))
                    &&& m.root_spec() == root@
                    &&& m.verbose_spec() == verbose
                    &&& crate::lsp::resolve::keys_ascending(m.servers_spec())
                    &&& m.warned_spec().len() == 0
                    &&& forall|l: Seq<char>| slot_of(m.slots_spec(), l) is None
                },
                None => validated_servers(blocks_view(lsp_config.lsp@)).len() == 0,
            },
    {
        if lsp_config.lsp.len() == 0 {
            assert(blocks_view(lsp_config.lsp@) =~= Seq::<(Seq<char>, LspServerConfigView)>::empty());
            return None;
        }
        let (servers, extension_claims) = validate(&lsp_config.lsp);
        if servers.len() == 0 {
            return None;
        }
        proof {
            let bs = blocks_view(lsp_config.lsp@);
            lemma_claims_have_servers(bs);
            assert forall|i: int| 0 <= i < extension_claims@.len() implies server_of(
                servers_view(servers@),
                (#[trigger] extension_claims@[i]).1@,
            ) is Some by {
                assert(claims_view(extension_claims@)[i] == (
                extension_claims@[i].0@,
                extension_claims@[i].1@,
                ));
                assert(has_server(validated_servers(bs), validated_claims(bs)[i].1));
                let j = choose|j: int|
                    0 <= j < validated_servers(bs).len() && #[trigger] validated_servers(bs)[j].0
                        == validated_claims(bs)[i].1;
                lemma_server_of_found(servers_view(servers@), j);
            }
        }
        Some(
            LspManager {
                root: string_from(chars_of(root).as_slice()),
                verbose,
                servers,
                extension_claims,
                warned: Vec::new(),
                clients: Vec::new(),
            },
        )
    }

    /// Project root the servers run in.
    pub fn root(&self) -> (r: &str)
        ensures
            r@ == self.root_spec(),
    {
        self.root.as_str()
    }

    /// Whether diagnostics are printed.
    pub fn verbose(&self) -> (r: bool)
        ensures
            r == self.verbose_spec(),
    {
        self.verbose
    }

    /// The validated server blocks.
    pub fn servers(&self) -> (r: &Vec<(String, LspServerConfig)>)
        ensures
            servers_view(r@) == self.servers_spec(),
    {
        &self.servers
    }

    /// The configuration block of `language`, if it is registered.
    pub fn server(&self, language: &str) -> (r: Option<&LspServerConfig>)
        ensures
            match r {
                Some(c) => server_of(self.servers_spec(), language@) == Some(c@),
                None => server_of(self.servers_spec(), language@) is None,
            },
    {
        let ghost sv = servers_view(self.servers@);
        let mut i: usize = 0;
        assert(sv.skip(0) =~= sv);
        while i < self.servers.len()
            invariant
                i <= self.servers@.len(),
                sv == servers_view(self.servers@),
                server_of(sv, language@) == server_of(sv.skip(i as int), language@),
            decreases self.servers@.len() - i,
        {
            assert(sv.skip(i as int)[0] == (self.servers@[i as int].0@, self.servers@[i as int].1@));
            if str_eq(self.servers[i].0.as_str(), language) {
                return Some(&self.servers[i].1);
            }
            assert(sv.skip(i as int).skip(1) =~= sv.skip(i + 1));
            i = i + 1;
        }
        None
    }

    /// The configured server command for a language (empty when the
    /// language is not registered).
    pub fn command_for(&self, language: &str) -> (r: String)
        ensures
            r@ == match server_of(self.servers_spec(), language@) {
                Some(c) => c.command,
                None => Seq::<char>::empty(),
            },
    {
        match self.server(language) {
            Some(c) => c.command.clone(),
            None => String::new(),
        }
    }

    /// The warning that `language`'s server is unusable (`reason`) and the
    /// builtin parser takes over: given the first time per language only.
    pub fn warn_fallback(&mut self, language: &str, reason: &str) -> (r: Option<String>)
        ensures
            final(self).servers_spec() == old(self).servers_spec(),
            final(self).slots_spec() == old(self).slots_spec(),
            final(self).claims_spec() == old(self).claims_spec(),
            final(self).root_spec() == old(self).root_spec(),
            final(self).verbose_spec() == old(self).verbose_spec(),
            old(self).wf() ==> final(self).wf(),
            match r {
                Some(m) => {
                    &&& !old(self).warned_spec().contains(language@)
                    &&& final(self).warned_spec() == old(self).warned_spec().push(language@)
                    &&& m@ == fallback_warning(
                        match server_of(old(self).servers_spec(), language@) {
                            Some(c) => c.command,
                            None => Seq::<char>::empty(),
                        },
                        language@,
                        reason@,
                    )
                },
                None => old(self).warned_spec().contains(language@) && final(self).warned_spec()
                    == old(self).warned_spec(),
            },
    {
        let ghost before = self.warned_spec();
        let mut i: usize = 0;
        while i < self.warned.len()
            invariant
                i <= self.warned@.len(),
                before == crate::text::strs(self.warned@),
                forall|k: int| 0 <= k < i ==> before[k] != language@,
            decreases self.warned@.len() - i,
        {
            if str_eq(self.warned[i].as_str(), language) {
                assert(before[i as int] == language@);
                return None;
            }
            i = i + 1;
        }
        let command = self.command_for(language);
        let mut m = String::new();
        crate::text::push_str(&mut m, "Warning: LSP server '");
        crate::text::push_str(&mut m, command.as_str());
        crate::text::push_str(&mut m, "' for ");
        crate::text::push_str(&mut m, language);
        crate::text::push_str(&mut m, " ");
        crate::text::push_str(&mut m, reason);
        crate::text::push_str(&mut m, "; falling back to tree-sitter");
        self.warned.push(language.to_string());
        assert(self.warned_spec() =~= before.push(language@));
        Some(m)
    }

    /// Decide the extraction backend for a path.
    pub fn backend_for(&self, path: &str) -> (r: FileBackend)
        requires
            self.wf(),
        ensures
            r@ == backend_decision(self.servers_spec(), self.claims_spec(), path@),
    {
        let builtin = CodeParser::is_supported_static(path);
        let claimed = match path_extension(path) {
            Some(e) => {
                let lower = string_from(to_ascii_lower(chars_of(e.as_str()).as_slice()).as_slice());
                find_claim(&self.extension_claims, lower.as_str())
            },
            None => None,
        };
        let language = match claimed {
            None => {
                return if builtin {
                    FileBackend::TreeSitter
                } else {
                    FileBackend::Unsupported
                };
            },
            Some(l) => l,
        };
        proof {
            let cv = claims_view(self.extension_claims@);
            lemma_claim_of_member(cv, ascii_lower_str(extension(path@)->0));
            let k = choose|k: int| 0 <= k < cv.len() && cv[k] == (
                ascii_lower_str(extension(path@)->0),
                language@,
            );
            assert(cv[k] == (self.extension_claims@[k].0@, self.extension_claims@[k].1@));
            assert(server_of(servers_view(self.servers@), self.extension_claims@[k].1@) is Some);
        }
        let cfg = match self.server(language.as_str()) {
            Some(c) => c,
            None => {
                return FileBackend::Unsupported;
            },
        };
        match cfg.backend {
            LspBackend::TreeSitter => {
                if builtin {
                    FileBackend::TreeSitter
                } else {
                    FileBackend::Unsupported
                }
            },
            LspBackend::Lsp => FileBackend::Lsp(language.clone()),
            LspBackend::Hybrid => {
                if builtin {
                    FileBackend::Hybrid(language.clone())
                } else {
                    FileBackend::Lsp(language.clone())
                }
            },
        }
    }

    /// Whether reference resolution by the language server applies to files
    /// of this backend.
    pub fn wants_stage_b(&self, backend: &FileBackend) -> (r: bool)
        ensures
            r == (backend@ is Lsp || backend@ is Hybrid),
    {
        match backend {
            FileBackend::Lsp(_) | FileBackend::Hybrid(_) => true,
            _ => false,
        }
    }
}

/// A claim found by lookup is one of the claims.
proof fn lemma_claim_of_member(claims: Seq<(Seq<char>, Seq<char>)>, ext: Seq<char>)
    ensures
        claim_of(claims, ext) matches Some(l) ==> exists|k: int|
            0 <= k < claims.len() && claims[k] == (ext, l),
    decreases claims.len(),
{
    if claims.len() > 0 && claims[0].0 != ext {
        lemma_claim_of_member(claims.skip(1), ext);
        if claim_of(claims, ext) is Some {
            let l = claim_of(claims, ext)->0;
            let k = choose|k: int| 0 <= k < claims.skip(1).len() && claims.skip(1)[k] == (ext, l);
            assert(claims[k + 1] == (ext, l));
        }
    } else if claims.len() > 0 {
        assert(claims[0] == (ext, claims[0].1));
    }
}

proof fn lemma_slot_at(slots: Seq<(Seq<char>, ClientSlotView)>, i: int, language: Seq<char>)
    requires
        0 <= i < slots.len(),
        slots[i].0 == language,
        forall|j: int| 0 <= j < i ==> slots[j].0 != language,
    ensures
        slot_of(slots, language) == Some(slots[i].1),
    decreases i,
{
    if i > 0 {
        lemma_slot_at(slots.drop_first(), i - 1, language);
    }
}

proof fn lemma_slot_absent(slots: Seq<(Seq<char>, ClientSlotView)>, language: Seq<char>)
    requires
        forall|j: int| 0 <= j < slots.len() ==> slots[j].0 != language,
    ensures
        slot_of(slots, language) is None,
    decreases slots.len(),
{
    if slots.len() > 0 {
        lemma_slot_absent(slots.drop_first(), language);
    }
}

proof fn lemma_slot_update(
    slots: Seq<(Seq<char>, ClientSlotView)>,
    i: int,
    language: Seq<char>,
    state: ClientSlotView,
    other: Seq<char>,
)
    requires
        0 <= i < slots.len(),
        slots[i].0 == language,
        forall|j: int| 0 <= j < i ==> slots[j].0 != language,
    ensures
        slot_of(slots.update(i, (language, state)), other) == if other == language {
            Some(state)
        } else {
            slot_of(slots, other)
        },
    decreases i,
{
    let u = slots.update(i, (language, state));
    if i == 0 {
        assert(u.drop_first() =~= slots.drop_first());
    } else {
        assert(u.drop_first() =~= slots.drop_first().update(i - 1, (language, state)));
        lemma_slot_update(slots.drop_first(), i - 1, language, state, other);
    }
}

proof fn lemma_slot_push(
    slots: Seq<(Seq<char>, ClientSlotView)>,
    language: Seq<char>,
    state: ClientSlotView,
    other: Seq<char>,
)
    requires
        forall|j: int| 0 <= j < slots.len() ==> slots[j].0 != language,
    ensures
        slot_of(slots.push((language, state)), other) == if other == language {
            Some(state)
        } else {
            slot_of(slots, other)
        },
    decreases slots.len(),
{
    let p = slots.push((language, state));
    if slots.len() > 0 {
        assert(p[0] == slots[0]);
        assert(p.drop_first() =~= slots.drop_first().push((language, state)));
        lemma_slot_push(slots.drop_first(), language, state, other);
    } else {
        assert(p.drop_first() =~= slots);
    }
}

impl LspManager {
    /// The entry of `language` in the client table, if any.
    fn slot_index(&self, language: &str) -> (r: Option<usize>)
        ensures
            match r {
                Some(i) => {
                    &&& i < self.clients@.len()
                    &&& self.clients@[i as int].0@ == language@
                    &&& forall|j: int| 0 <= j < i ==> self.clients@[j].0@ != language@
                    &&& slot_of(self.slots_spec(), language@) == Some(self.clients@[i as int].1@)
                },
                None => {
                    &&& forall|j: int| 0 <= j < self.clients@.len() ==> self.clients@[j].0@ != language@
                    &&& slot_of(self.slots_spec(), language@) is None
                },
            },
    {
        let ghost sv = self.slots_spec();
        let mut i: usize = 0;
        while i < self.clients.len()
            invariant
                i <= self.clients@.len(),
                sv == slots_view(self.clients@),
                forall|j: int| 0 <= j < i ==> self.clients@[j].0@ != language@,
            decreases self.clients@.len() - i,
        {
            if str_eq(self.clients[i].0.as_str(), language) {
                proof {
                    assert forall|j: int| 0 <= j < i implies sv[j].0 != language@ by {
                        assert(sv[j].0 == self.clients@[j].0@);
                    }
                    assert(sv[i as int] == (self.clients@[i as int].0@, self.clients@[i as int].1@));
                    lemma_slot_at(sv, i as int, language@);
                }
                return Some(i);
            }
            i = i + 1;
        }
        proof {
            assert forall|j: int| 0 <= j < sv.len() implies sv[j].0 != language@ by {
                assert(sv[j].0 == self.clients@[j].0@);
            }
            lemma_slot_absent(sv, language@);
        }
        None
    }

    /// Record what is known of `language`'s client.
    fn set_slot(&mut self, language: &str, state: ClientSlot)
        ensures
            final(self).servers_spec() == old(self).servers_spec(),
            final(self).claims_spec() == old(self).claims_spec(),
            final(self).root_spec() == old(self).root_spec(),
            final(self).verbose_spec() == old(self).verbose_spec(),
            final(self).warned_spec() == old(self).warned_spec(),
            old(self).wf() ==> final(self).wf(),
            forall|l: Seq<char>|
                #[trigger] slot_of(final(self).slots_spec(), l) == if l == language@ {
                    Some(state@)
                } else {
                    slot_of(old(self).slots_spec(), l)
                },
    {
        let ghost sv = self.slots_spec();
        let ghost st = state@;
        match self.slot_index(language) {
            Some(i) => {
                self.clients.set(i, (language.to_string(), state));
                proof {
                    assert forall|j: int| 0 <= j < i implies sv[j].0 != language@ by {
                        assert(sv[j].0 == old(self).clients@[j].0@);
                    }
                    assert(self.slots_spec() =~= sv.update(i as int, (language@, st)));
                    assert forall|l: Seq<char>| #[trigger] slot_of(self.slots_spec(), l) == if l == language@ {
                        Some(st)
                    } else {
                        slot_of(sv, l)
                    } by {
                        lemma_slot_update(sv, i as int, language@, st, l);
                    }
                }
            },
            None => {
                self.clients.push((language.to_string(), state));
                proof {
                    assert forall|j: int| 0 <= j < sv.len() implies sv[j].0 != language@ by {
                        assert(sv[j].0 == old(self).clients@[j].0@);
                    }
                    assert(self.slots_spec() =~= sv.push((language@, st)));
                    assert forall|l: Seq<char>| #[trigger] slot_of(self.slots_spec(), l) == if l == language@ {
                        Some(st)
                    } else {
                        slot_of(sv, l)
                    } by {
                        lemma_slot_push(sv, language@, st, l);
                    }
                }
            },
        }
    }

    /// What is known of `language`'s client in this run.
    pub fn client_slot(&self, language: &str) -> (r: Option<&ClientSlot>)
        ensures
            match r {
                Some(s) => slot_of(self.slots_spec(), language@) == Some(s@),
                None => slot_of(self.slots_spec(), language@) is None,
            },
    {
        match self.slot_index(language) {
            Some(i) => Some(&self.clients[i].1),
            None => None,
        }
    }

    /// Decide how to serve a request for `language`'s client, given the
    /// failure its running client declared (if it runs and declared one).
    /// An unusable client is never retried; a running one that declared a
    /// failure becomes unusable (with the one-time fallback warning); one
    /// never started is started when the language has a server.
    pub fn client_access(&mut self, language: &str, live_failure: Option<&str>) -> (r: (
        ClientAccess,
        Option<String>,
    ))
        ensures
            final(self).servers_spec() == old(self).servers_spec(),
            final(self).claims_spec() == old(self).claims_spec(),
            final(self).root_spec() == old(self).root_spec(),
            final(self).verbose_spec() == old(self).verbose_spec(),
            old(self).wf() ==> final(self).wf(),
            match slot_of(old(self).slots_spec(), language@) {
                Some(ClientSlotView::Failed(_)) => {
                    &&& r.0 == ClientAccess::Unavailable
                    &&& r.1 is None
                    &&& final(self).slots_spec() == old(self).slots_spec()
                    &&& final(self).warned_spec() == old(self).warned_spec()
                },
                Some(ClientSlotView::Ready) => match live_failure {
                    Some(reason) => {
                        &&& r.0 == ClientAccess::Unavailable
                        &&& forall|l: Seq<char>|
                            #[trigger] slot_of(final(self).slots_spec(), l) == if l == language@ {
                                Some(ClientSlotView::Failed(reason@))
                            } else {
                                slot_of(old(self).slots_spec(), l)
                            }
                        &&& fallback_step(
                            old(self).warned_spec(),
                            final(self).warned_spec(),
                            match server_of(old(self).servers_spec(), language@) {
                                Some(c) => c.command,
                                None => Seq::<char>::empty(),
                            },
                            language@,
                            reason@,
                            opt_string_view(r.1),
                        )
                    },
                    None => {
                        &&& r.0 == ClientAccess::Use
                        &&& r.1 is None
                        &&& final(self).slots_spec() == old(self).slots_spec()
                        &&& final(self).warned_spec() == old(self).warned_spec()
                    },
                },
                None => {
                    &&& r.0 == if server_of(old(self).servers_spec(), language@) is Some {
                        ClientAccess::Start
                    } else {
                        ClientAccess::Unavailable
                    }
                    &&& r.1 is None
                    &&& final(self).slots_spec() == old(self).slots_spec()
                    &&& final(self).warned_spec() == old(self).warned_spec()
                },
            },
    {
        match self.slot_index(language) {
            Some(i) => {
                match &self.clients[i].1 {
                    ClientSlot::Failed(_) => (ClientAccess::Unavailable, None),
                    ClientSlot::Ready => match live_failure {
                        Some(reason) => {
                            self.set_slot(language, ClientSlot::Failed(reason.to_string()));
                            let w = self.warn_fallback(language, reason);
                            (ClientAccess::Unavailable, w)
                        },
                        None => (ClientAccess::Use, None),
                    },
                }
            },
            None => {
                if self.server(language).is_some() {
                    (ClientAccess::Start, None)
                } else {
                    (ClientAccess::Unavailable, None)
                }
            },
        }
    }

    /// Record the outcome of starting `language`'s client: usable, or
    /// unusable for the failure's reason (with the one-time fallback
    /// warning).
    pub fn record_start(&mut self, language: &str, outcome: Result<(), String>) -> (r: Option<String>)
        ensures
            final(self).servers_spec() == old(self).servers_spec(),
            final(self).claims_spec() == old(self).claims_spec(),
            final(self).root_spec() == old(self).root_spec(),
            final(self).verbose_spec() == old(self).verbose_spec(),
            old(self).wf() ==> final(self).wf(),
            forall|l: Seq<char>|
                #[trigger] slot_of(final(self).slots_spec(), l) == if l == language@ {
                    Some(
                        match outcome {
                            Ok(_) => ClientSlotView::Ready,
                            Err(reason) => ClientSlotView::Failed(reason@),
                        },
                    )
                } else {
                    slot_of(old(self).slots_spec(), l)
                },
            match outcome {
                Ok(_) => r is None && final(self).warned_spec() == old(self).warned_spec(),
                Err(reason) => fallback_step(
                    old(self).warned_spec(),
                    final(self).warned_spec(),
                    match server_of(old(self).servers_spec(), language@) {
                        Some(c) => c.command,
                        None => Seq::<char>::empty(),
                    },
                    language@,
                    reason@,
                    opt_string_view(r),
                ),
            },
    {
        match outcome {
            Ok(()) => {
                self.set_slot(language, ClientSlot::Ready);
                None
            },
            Err(reason) => {
                let ghost rv = reason@;
                self.set_slot(language, ClientSlot::Failed(reason.clone()));
                self.warn_fallback(language, reason.as_str())
            },
        }
    }

    /// Record a failure that `language`'s running client declared (if it
    /// runs and declared one): the client becomes unusable, with the
    /// one-time fallback warning. Otherwise nothing changes.
    pub fn note_failure_if_any(&mut self, language: &str, live_failure: Option<&str>) -> (r: Option<
        String,
    >)
        ensures
            final(self).servers_spec() == old(self).servers_spec(),
            final(self).claims_spec() == old(self).claims_spec(),
            final(self).root_spec() == old(self).root_spec(),
            final(self).verbose_spec() == old(self).verbose_spec(),
            old(self).wf() ==> final(self).wf(),
            match (slot_of(old(self).slots_spec(), language@), live_failure) {
                (Some(ClientSlotView::Ready), Some(reason)) => {
                    &&& forall|l: Seq<char>|
                        #[trigger] slot_of(final(self).slots_spec(), l) == if l == language@ {
                            Some(ClientSlotView::Failed(reason@))
                        } else {
                            slot_of(old(self).slots_spec(), l)
                        }
                    &&& fallback_step(
                        old(self).warned_spec(),
                        final(self).warned_spec(),
                        match server_of(old(self).servers_spec(), language@) {
                            Some(c) => c.command,
                            None => Seq::<char>::empty(),
                        },
                        language@,
                        reason@,
                        opt_string_view(r),
                    )
                },
                _ => {
                    &&& r is None
                    &&& final(self).slots_spec() == old(self).slots_spec()
                    &&& final(self).warned_spec() == old(self).warned_spec()
                },
            },
    {
        match self.slot_index(language) {
            Some(i) => match (&self.clients[i].1, live_failure) {
                (ClientSlot::Ready, Some(reason)) => {
                    self.set_slot(language, ClientSlot::Failed(reason.to_string()));
                    self.warn_fallback(language, reason)
                },
                _ => None,
            },
            None => None,
        }
    }
}

/// The abstract value of an optional string.
pub open spec fn opt_string_view(o: Option<String>) -> Option<Seq<char>> {
    match o {
        Some(s) => Some(s@),
        None => None,
    }
}

} // verus!
