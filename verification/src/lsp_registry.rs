//! The community language-server registry: its manifest model, lookups and
//! the invariants checked beyond what the manifest format enforces.
//!
//! The registry serves `{base}/index.toml` (the language index) and
//! `{base}/registry/{lang}.toml` (one entry per language) from a pinned
//! branch. The base URL can be overridden by an environment variable.

use vstd::prelude::*;

use crate::error::CtxError;
use crate::text::{chars_of, nat_text, push_chars, push_str, str_eq, strs, trim, trim_str, u64_text, strip_suffixes, strip_suffixes_exec, string_from};
use crate::rules::join_strs;

verus! {

/// Raw-file base URL of the pinned branch of the registry repository.
pub const DEFAULT_REGISTRY_BASE_URL: &'static str = "https://raw.githubusercontent.com/agentis-tools/ctx-lsp-registry/v1";

/// The registry manifest schema version this build understands.
pub const SUPPORTED_SCHEMA_VERSION: u32 = 1;

/// The registry base URL: the override when it is not blank, else the
/// default.
pub open spec fn base_url_of(env_override: Option<Seq<char>>) -> Seq<char> {
    match env_override {
        Some(url) => if trim(url).len() > 0 {
            url
        } else {
            DEFAULT_REGISTRY_BASE_URL@
        },
        None => DEFAULT_REGISTRY_BASE_URL@,
    }
}

/// Resolve the registry base URL from an optional override.
pub fn resolve_base_url(env_override: Option<String>) -> (r: String)
    ensures
        r@ == base_url_of(match env_override {
            Some(u) => Some(u@),
            None => None,
        }),
{
    match env_override {
        Some(url) => {
            let t = trim_str(url.as_str());
            if t.as_str().is_empty() {
                DEFAULT_REGISTRY_BASE_URL.to_string()
            } else {
                url
            }
        },
        None => DEFAULT_REGISTRY_BASE_URL.to_string(),
    }
}

/// The URL of the language index under `base` (trailing slashes of `base`
/// dropped).
pub open spec fn index_url_of(base: Seq<char>) -> Seq<char> {
    crate::text::strip_suffixes(base, seq!['/']) + "/index.toml"@
}

/// The URL of the language index under `base`.
pub fn index_url(base: &str) -> (r: String)
    ensures
        r@ == index_url_of(base@),
{
    let cs = chars_of(base);
    let slash = vec!['/'];
    assert(slash@ =~= seq!['/']);
    let trimmed = strip_suffixes_exec(cs.as_slice(), slash.as_slice());
    let mut out = string_from(trimmed.as_slice());
    push_str(&mut out, "/index.toml");
    out
}

/// The URL of one language entry under `base`.
pub open spec fn language_url_of(base: Seq<char>, lang: Seq<char>) -> Seq<char> {
    crate::text::strip_suffixes(base, seq!['/']) + "/registry/"@ + lang + ".toml"@
}

/// The URL of one language entry under `base`.
pub fn language_url(base: &str, lang: &str) -> (r: String)
    ensures
        r@ == language_url_of(base@, lang@),
{
    let cs = chars_of(base);
    let slash = vec!['/'];
    assert(slash@ =~= seq!['/']);
    let trimmed = strip_suffixes_exec(cs.as_slice(), slash.as_slice());
    let mut out = string_from(trimmed.as_slice());
    push_str(&mut out, "/registry/");
    push_str(&mut out, lang);
    push_str(&mut out, ".toml");
    out
}

/// Whether an HTTP status code reports success (2xx).
pub open spec fn is_success_status(code: u16) -> bool {
    200 <= code <= 299
}

/// Why fetching `what` from `url` failed, given the answer's status code
/// and the text the status is shown by: none on success.
pub open spec fn fetch_failure_of(code: u16, status: Seq<char>, url: Seq<char>, what: Seq<char>) -> Option<
    Seq<char>,
> {
    if is_success_status(code) {
        None
    } else {
        Some(what + " fetch failed: "@ + url + " returned HTTP "@ + status)
    }
}

/// The error of a fetch of `what` from `url` answered with status `code`
/// (shown as `status`), if it failed (see [`fetch_failure_of`]).
pub fn fetch_failure(code: u16, status: &str, url: &str, what: &str) -> (r: Option<CtxError>)
    ensures
        match r {
            Some(e) => fetch_failure_of(code, status@, url@, what@) == Some(e.text()),
            None => fetch_failure_of(code, status@, url@, what@) is None,
        },
{
    if 200 <= code && code <= 299 {
        None
    } else {
        let mut m = String::new();
        push_str(&mut m, what);
        push_str(&mut m, " fetch failed: ");
        push_str(&mut m, url);
        push_str(&mut m, " returned HTTP ");
        push_str(&mut m, status);
        Some(CtxError::Other(m))
    }
}

/// Why fetching the entry of `lang` from `url` failed: a 404 names the
/// language as unknown to the registry; another status outside 2xx is a
/// failed fetch; none on success.
pub open spec fn language_fetch_failure_of(code: u16, status: Seq<char>, url: Seq<char>, lang: Seq<char>) -> Option<
    Seq<char>,
> {
    if code == 404 {
        Some(
            "language '"@ + lang + "' is unknown to the LSP registry ("@ + url
                + " returned HTTP 404); run against the registry index to list available languages"@,
        )
    } else if !is_success_status(code) {
        Some("LSP registry fetch failed: "@ + url + " returned HTTP "@ + status)
    } else {
        None
    }
}

/// The error of fetching the entry of `lang` from `url` answered with
/// status `code` (shown as `status`), if it failed (see
/// [`language_fetch_failure_of`]).
pub fn language_fetch_failure(code: u16, status: &str, url: &str, lang: &str) -> (r: Option<CtxError>)
    ensures
        match r {
            Some(e) => language_fetch_failure_of(code, status@, url@, lang@) == Some(e.text()),
            None => language_fetch_failure_of(code, status@, url@, lang@) is None,
        },
{
    if code == 404 {
        let mut m = String::new();
        push_str(&mut m, "language '");
        push_str(&mut m, lang);
        push_str(&mut m, "' is unknown to the LSP registry (");
        push_str(&mut m, url);
        push_str(
            &mut m,
            " returned HTTP 404); run against the registry index to list available languages",
        );
        Some(CtxError::Other(m))
    } else if !(200 <= code && code <= 299) {
        let mut m = String::new();
        push_str(&mut m, "LSP registry fetch failed: ");
        push_str(&mut m, url);
        push_str(&mut m, " returned HTTP ");
        push_str(&mut m, status);
        Some(CtxError::Other(m))
    } else {
        None
    }
}

/// `index.toml`: the languages the registry covers.
#[derive(Debug)]
pub struct RegistryIndex {
    pub schema_version: u32,
    /// Language name and summary, in ascending name order.
    pub languages: Vec<(String, IndexLanguage)>,
}

/// One language row of the index.
#[derive(Debug)]
pub struct IndexLanguage {
    /// Name of the recommended server.
    pub recommended: String,
    /// All server names available in the language entry.
    pub servers: Vec<String>,
}

/// `registry/<lang>.toml`: the full entry for one language.
#[derive(Debug)]
pub struct LanguageEntry {
    pub schema_version: u32,
    pub language: String,
    pub extensions: Vec<String>,
    pub root_markers: Vec<String>,
    /// Available servers; exactly one must be recommended.
    pub servers: Vec<ServerSpec>,
}

/// One server block of a language entry.
#[derive(Debug)]
pub struct ServerSpec {
    pub name: String,
    pub recommended: bool,
    pub command: String,
    pub args: Vec<String>,
    pub capabilities: Vec<String>,
    pub homepage: Option<String>,
    pub notes: Option<String>,
    pub install: Option<InstallHints>,
}

/// Per-OS install commands falling back to `default`.
#[derive(Debug)]
pub struct InstallHints {
    pub default: String,
    pub macos: Option<String>,
    pub linux: Option<String>,
    pub windows: Option<String>,
}

/// The names of servers, in order.
pub open spec fn server_names_of(servers: Seq<ServerSpec>) -> Seq<Seq<char>> {
    servers.map_values(|s: ServerSpec| s.name@)
}

/// Index of the first server satisfying `named`/`recommended` selection, or -1.
pub open spec fn find_server(servers: Seq<ServerSpec>, name: Option<Seq<char>>) -> int
    decreases servers.len(),
{
    if servers.len() == 0 {
        -1
    } else if (match name {
        Some(n) => servers[0].name@ == n,
        None => servers[0].recommended,
    }) {
        0
    } else {
        let r = find_server(servers.skip(1), name);
        if r < 0 {
            -1
        } else {
            r + 1
        }
    }
}

/// The error when no server is selected.
pub open spec fn server_error(e: LanguageEntry, name: Option<Seq<char>>) -> Seq<char> {
    match name {
        Some(n) => "language '"@ + e.language@ + "' has no server named '"@ + n
            + "' in the LSP registry (available: "@ + crate::rules::join(
            server_names_of(e.servers@),
            ", "@,
        ) + ")"@,
        None => "registry entry for '"@ + e.language@ + "' has no recommended server"@,
    }
}

/// The schema-version error for `found` in `what`.
pub open spec fn schema_error(found: u32, what: Seq<char>) -> Seq<char> {
    what + " uses registry schema_version "@ + nat_text(found as nat)
        + ", but this ctx build supports version 1; the registry entry requires a newer ctx \u{2014} upgrade ctx or pin the registry to a compatible branch"@
}

/// Fail unless `found` is the supported schema version.
pub fn validate_schema_version(found: u32, what: &str) -> (r: Result<(), CtxError>)
    ensures
        match r {
            Ok(_) => found == 1,
            Err(e) => found != 1 && e.text() == schema_error(found, what@),
        },
{
    if found != SUPPORTED_SCHEMA_VERSION {
        let mut m = String::new();
        push_str(&mut m, what);
        push_str(&mut m, " uses registry schema_version ");
        let t = u64_text(found as u64);
        push_chars(&mut m, t.as_slice());
        push_str(
            &mut m,
            ", but this ctx build supports version 1; the registry entry requires a newer ctx \u{2014} upgrade ctx or pin the registry to a compatible branch",
        );
        return Err(CtxError::Other(m));
    }
    Ok(())
}

/// Number of recommended servers.
pub open spec fn recommended_count(servers: Seq<ServerSpec>) -> nat
    decreases servers.len(),
{
    if servers.len() == 0 {
        0
    } else {
        recommended_count(servers.drop_last()) + if servers.last().recommended {
            1nat
        } else {
            0nat
        }
    }
}

/// The error of one server block, if any: a blank name, then a blank
/// command.
pub open spec fn server_block_error(s: ServerSpec, what: Seq<char>) -> Option<Seq<char>> {
    if trim(s.name@).len() == 0 {
        Some(what + " contains a server with an empty name"@)
    } else if trim(s.command@).len() == 0 {
        Some(what + ": server '"@ + s.name@ + "' has an empty command"@)
    } else {
        None
    }
}

/// Why a language entry is invalid, if it is: schema version, then the
/// number of recommended servers, then the first bad server block.
pub open spec fn entry_error(e: LanguageEntry, what: Seq<char>) -> Option<Seq<char>> {
    if e.schema_version != 1 {
        Some(schema_error(e.schema_version, what))
    } else if recommended_count(e.servers@) != 1 {
        Some(
            what + " must mark exactly one server as recommended, found "@ + nat_text(
                recommended_count(e.servers@),
            ),
        )
    } else {
        crate::rules::first_error(
            e.servers@.map_values(|s: ServerSpec| server_block_error(s, what)),
        )
    }
}

impl LanguageEntry {
    /// Select a server by name, or the recommended one when `name` is `None`.
    pub fn server(&self, name: Option<&str>) -> (r: Result<&ServerSpec, CtxError>)
        ensures
            match r {
                Ok(s) => {
                    let i = find_server(
                        self.servers@,
                        match name {
                            Some(n) => Some(n@),
                            None => None,
                        },
                    );
                    0 <= i < self.servers@.len() && *s == self.servers@[i]
                },
                Err(e) => find_server(
                    self.servers@,
                    match name {
                        Some(n) => Some(n@),
                        None => None,
                    },
                ) < 0 && e.text() == server_error(
                    *self,
                    match name {
                        Some(n) => Some(n@),
                        None => None,
                    },
                ),
            },
    {
        let ghost sel = match name {
            Some(n) => Some(n@),
            None => None,
        };
        let ghost ss = self.servers@;
        let mut i: usize = 0;
        assert(ss.skip(0) =~= ss);
        while i < self.servers.len()
            invariant
                i <= ss.len(),
                ss == self.servers@,
                sel == (match name {
                    Some(n) => Some(n@),
                    None => None::<Seq<char>>,
                }),
                find_server(ss, sel) == (if find_server(ss.skip(i as int), sel) < 0 {
                    -1
                } else {
                    find_server(ss.skip(i as int), sel) + i
                }),
            decreases ss.len() - i,
        {
            assert(ss.skip(i as int)[0] == ss[i as int]);
            let hit = match name {
                Some(n) => str_eq(self.servers[i].name.as_str(), n),
                None => self.servers[i].recommended,
            };
            if hit {
                return Ok(&self.servers[i]);
            }
            assert(ss.skip(i as int).skip(1) =~= ss.skip(i + 1));
            i = i + 1;
        }
        let mut m = String::new();
        match name {
            Some(n) => {
                push_str(&mut m, "language '");
                push_str(&mut m, self.language.as_str());
                push_str(&mut m, "' has no server named '");
                push_str(&mut m, n);
                push_str(&mut m, "' in the LSP registry (available: ");
                let names = self.server_names();
                let joined = join_strs(&names, ", ");
                push_str(&mut m, joined.as_str());
                push_str(&mut m, ")");
            },
            None => {
                push_str(&mut m, "registry entry for '");
                push_str(&mut m, self.language.as_str());
                push_str(&mut m, "' has no recommended server");
            },
        }
        Err(CtxError::Other(m))
    }

    /// The names of the servers, in order.
    pub fn server_names(&self) -> (r: Vec<&str>)
        ensures
            r@.map_values(|n: &str| n@) == server_names_of(self.servers@),
    {
        let mut out: Vec<&str> = Vec::new();
        let mut i: usize = 0;
        while i < self.servers.len()
            invariant
                i <= self.servers@.len(),
                out@.map_values(|n: &str| n@) == server_names_of(self.servers@).take(i as int),
            decreases self.servers@.len() - i,
        {
            let ghost before = out@;
            out.push(self.servers[i].name.as_str());
            assert(out@.map_values(|n: &str| n@) =~= before.map_values(|n: &str| n@).push(
                self.servers@[i as int].name@,
            ));
            assert(server_names_of(self.servers@).take(i + 1) =~= server_names_of(
                self.servers@,
            ).take(i as int).push(self.servers@[i as int].name@));
            i = i + 1;
        }
        assert(server_names_of(self.servers@).take(i as int) =~= server_names_of(self.servers@));
        out
    }

    /// Check the invariants beyond what the manifest format enforces:
    /// schema version, exactly one recommended server, and non-blank names
    /// and commands.
    pub fn validate(&self, what: &str) -> (r: Result<(), CtxError>)
        ensures
            match r {
                Ok(_) => entry_error(*self, what@) is None,
                Err(e) => entry_error(*self, what@) == Some(e.text()),
            },
    {
        validate_schema_version(self.schema_version, what)?;
        let mut count: usize = 0;
        let mut i: usize = 0;
        while i < self.servers.len()
            invariant
                i <= self.servers@.len(),
                count == recommended_count(self.servers@.take(i as int)),
                count <= i,
            decreases self.servers@.len() - i,
        {
            assert(self.servers@.take(i + 1).drop_last() =~= self.servers@.take(i as int));
            if self.servers[i].recommended {
                count = count + 1;
            }
            i = i + 1;
        }
        assert(self.servers@.take(i as int) =~= self.servers@);
        if count != 1 {
            let mut m = String::new();
            push_str(&mut m, what);
            push_str(&mut m, " must mark exactly one server as recommended, found ");
            let t = u64_text(count as u64);
            push_chars(&mut m, t.as_slice());
            return Err(CtxError::Other(m));
        }
        let ghost errs = self.servers@.map_values(|s: ServerSpec| server_block_error(s, what@));
        let mut k: usize = 0;
        while k < self.servers.len()
            invariant
                k <= self.servers@.len(),
                self.schema_version == 1,
                recommended_count(self.servers@) == 1,
                errs == self.servers@.map_values(|s: ServerSpec| server_block_error(s, what@)),
                forall|q: int| 0 <= q < k ==> (#[trigger] errs[q]) is None,
            decreases self.servers@.len() - k,
        {
            let server = &self.servers[k];
            assert(errs[k as int] == server_block_error(*server, what@));
            let name = trim_str(server.name.as_str());
            if name.as_str().is_empty() {
                let mut m = String::new();
                push_str(&mut m, what);
                push_str(&mut m, " contains a server with an empty name");
                proof {
                    crate::rules::lemma_first_error_skip(errs, k as int);
                    assert(errs.skip(k as int)[0] == errs[k as int]);
                }
                return Err(CtxError::Other(m));
            }
            let command = trim_str(server.command.as_str());
            if command.as_str().is_empty() {
                let mut m = String::new();
                push_str(&mut m, what);
                push_str(&mut m, ": server '");
                push_str(&mut m, server.name.as_str());
                push_str(&mut m, "' has an empty command");
                proof {
                    crate::rules::lemma_first_error_skip(errs, k as int);
                    assert(errs.skip(k as int)[0] == errs[k as int]);
                }
                return Err(CtxError::Other(m));
            }
            k = k + 1;
        }
        proof {
            crate::rules::lemma_first_error_skip(errs, k as int);
            assert(errs.skip(k as int).len() == 0);
        }
        Ok(())
    }
}

/// The install hint for `os` (`macos`, `linux` or `windows`), falling back
/// to the default; `None` without an install section.
pub open spec fn install_hint_of(server: ServerSpec, os: Seq<char>) -> Option<Seq<char>> {
    match server.install {
        None => None,
        Some(h) => {
            let specific = if os == "macos"@ {
                h.macos
            } else if os == "linux"@ {
                h.linux
            } else if os == "windows"@ {
                h.windows
            } else {
                None
            };
            match specific {
                Some(x) => Some(x@),
                None => Some(h.default@),
            }
        },
    }
}

/// The install hint matching `os`, falling back to `default`.
pub fn install_hint_for_os<'a>(server: &'a ServerSpec, os: &str) -> (r: Option<&'a str>)
    ensures
        match r {
            Some(h) => install_hint_of(*server, os@) == Some(h@),
            None => install_hint_of(*server, os@) is None,
        },
{
    let install = match &server.install {
        Some(i) => i,
        None => return None,
    };
    let specific = if str_eq(os, "macos") {
        &install.macos
    } else if str_eq(os, "linux") {
        &install.linux
    } else if str_eq(os, "windows") {
        &install.windows
    } else {
        return Some(install.default.as_str());
    };
    match specific {
        Some(x) => Some(x.as_str()),
        None => Some(install.default.as_str()),
    }
}


/// Validate a parsed `index.toml`: a parse failure (its message `e`) is
/// reported as a malformed index; otherwise the schema version is checked.
pub fn parse_index(parsed: Result<RegistryIndex, String>) -> (r: Result<RegistryIndex, CtxError>)
    ensures
        match parsed {
            Err(e) => r matches Err(err) && err.text() == "malformed registry index.toml: "@ + e@,
            Ok(index) => match r {
                Ok(i) => index.schema_version == 1 && i == index,
                Err(err) => index.schema_version != 1 && err.text() == schema_error(
                    index.schema_version,
                    "registry index.toml"@,
                ),
            },
        },
{
    match parsed {
        Err(e) => {
            let mut m = String::new();
            push_str(&mut m, "malformed registry index.toml: ");
            push_str(&mut m, e.as_str());
            Err(CtxError::Other(m))
        },
        Ok(index) => {
            match validate_schema_version(index.schema_version, "registry index.toml") {
                Ok(_) => Ok(index),
                Err(e) => Err(e),
            }
        },
    }
}

/// How a language entry is named in messages.
pub open spec fn entry_what(lang: Seq<char>) -> Seq<char> {
    "registry entry for '"@ + lang + "'"@
}

/// Validate a parsed `registry/<lang>.toml`: a parse failure (its message
/// `e`) is reported as a malformed entry; otherwise the entry's invariants
/// are checked.
pub fn parse_language(parsed: Result<LanguageEntry, String>, lang: &str) -> (r: Result<
    LanguageEntry,
    CtxError,
>)
    ensures
        match parsed {
            Err(e) => r matches Err(err) && err.text() == "malformed "@ + entry_what(lang@) + ": "@
                + e@,
            Ok(entry) => match r {
                Ok(v) => entry_error(entry, entry_what(lang@)) is None && v == entry,
                Err(err) => entry_error(entry, entry_what(lang@)) == Some(err.text()),
            },
        },
{
    let mut what = String::new();
    push_str(&mut what, "registry entry for '");
    push_str(&mut what, lang);
    push_str(&mut what, "'");
    match parsed {
        Err(e) => {
            let mut m = String::new();
            push_str(&mut m, "malformed ");
            push_str(&mut m, what.as_str());
            push_str(&mut m, ": ");
            push_str(&mut m, e.as_str());
            Err(CtxError::Other(m))
        },
        Ok(entry) => {
            match entry.validate(what.as_str()) {
                Ok(_) => Ok(entry),
                Err(e) => Err(e),
            }
        },
    }
}

} // verus!
