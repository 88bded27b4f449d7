//! Declarative language-server registration (`[lsp.<language>]` blocks).
//!
//! Configuration is never fatal: invalid blocks are skipped so indexing
//! keeps working with the remaining (or builtin) backends.

use vstd::prelude::*;

use crate::json::{copy_opt, opt_view};
use crate::lsp::resolve::keys_ascending;
use crate::text::{
    chars_of, copy_strings, pieces_view, str_eq, string_from, strip_prefixes, strip_prefixes_exec,
    strs, to_ascii_lower, ascii_lower_str, trim, trim_range, slice_range,
};

verus! {

/// Per-language extraction backend selection (`hybrid` when a block names
/// none).
#[derive(Debug, Clone, Copy, PartialEq, Eq, Structural)]
pub enum LspBackend {
    /// Extract with tree-sitter only.
    TreeSitter,
    /// Extract symbols and call edges with the language server.
    Lsp,
    /// Extract with tree-sitter, then resolve leftover cross-file references
    /// with the language server.
    Hybrid,
}

/// The configuration spelling of a backend.
pub open spec fn backend_text(b: LspBackend) -> Seq<char> {
    match b {
        LspBackend::TreeSitter => "tree-sitter"@,
        LspBackend::Lsp => "lsp"@,
        LspBackend::Hybrid => "hybrid"@,
    }
}

impl LspBackend {
    /// Stable string form (the kebab-case configuration spelling).
    pub fn as_str(&self) -> (r: &'static str)
        ensures
            r@ == backend_text(*self),
    {
        match self {
            LspBackend::TreeSitter => "tree-sitter",
            LspBackend::Lsp => "lsp",
            LspBackend::Hybrid => "hybrid",
        }
    }
}

/// One `[lsp.<language>]` block.
#[derive(Debug)]
pub struct LspServerConfig {
    /// Executable to spawn.
    pub command: String,
    /// Arguments passed to the server.
    pub args: Vec<String>,
    /// File extensions (without the dot) this server claims.
    pub extensions: Vec<String>,
    /// Marker files identifying a workspace root.
    pub root_markers: Vec<String>,
    /// Capabilities the user expects the server to provide.
    pub capabilities: Vec<String>,
    /// Extraction backend for files claimed by this block.
    pub backend: LspBackend,
    /// `initializationOptions`, as JSON text.
    pub initialization_options: Option<String>,
    /// Extra environment variables for the server process.
    pub env: Vec<(String, String)>,
    /// Per-request timeout in milliseconds.
    pub timeout_ms: Option<u64>,
    /// Provenance metadata (accepted and ignored).
    pub source: Option<String>,
    /// Provenance metadata (accepted and ignored).
    pub source_server: Option<String>,
}

/// The abstract value of an [`LspServerConfig`].
pub struct LspServerConfigView {
    pub command: Seq<char>,
    pub args: Seq<Seq<char>>,
    pub extensions: Seq<Seq<char>>,
    pub root_markers: Seq<Seq<char>>,
    pub capabilities: Seq<Seq<char>>,
    pub backend: LspBackend,
    pub initialization_options: Option<Seq<char>>,
    pub env: Seq<(Seq<char>, Seq<char>)>,
    pub timeout_ms: Option<u64>,
    pub source: Option<Seq<char>>,
    pub source_server: Option<Seq<char>>,
}

/// The character sequences of string pairs.
pub open spec fn pairs_view(v: Seq<(String, String)>) -> Seq<(Seq<char>, Seq<char>)> {
    v.map_values(|p: (String, String)| (p.0@, p.1@))
}

impl View for LspServerConfig {
    type V = LspServerConfigView;

    open spec fn view(&self) -> LspServerConfigView {
        LspServerConfigView {
            command: self.command@,
            args: strs(self.args@),
            extensions: strs(self.extensions@),
            root_markers: strs(self.root_markers@),
            capabilities: strs(self.capabilities@),
            backend: self.backend,
            initialization_options: opt_view(self.initialization_options),
            env: pairs_view(self.env@),
            timeout_ms: self.timeout_ms,
            source: opt_view(self.source),
            source_server: opt_view(self.source_server),
        }
    }
}

/// A copy of a list of string pairs.
fn copy_pairs(v: &Vec<(String, String)>) -> (r: Vec<(String, String)>)
    ensures
        pairs_view(r@) == pairs_view(v@),
{
    let mut out: Vec<(String, String)> = Vec::new();
    let mut i: usize = 0;
    while i < v.len()
        invariant
            i <= v@.len(),
            pairs_view(out@) == pairs_view(v@).take(i as int),
        decreases v@.len() - i,
    {
        let ghost before = out@;
        out.push((v[i].0.clone(), v[i].1.clone()));
        assert(pairs_view(out@) =~= pairs_view(before).push((v@[i as int].0@, v@[i as int].1@)));
        assert(pairs_view(v@).take(i + 1) =~= pairs_view(v@).take(i as int).push(
            (v@[i as int].0@, v@[i as int].1@),
        ));
        i = i + 1;
    }
    assert(pairs_view(v@).take(i as int) =~= pairs_view(v@));
    out
}

impl LspServerConfig {
    /// A field-by-field copy.
    pub fn copy(&self) -> (r: LspServerConfig)
        ensures
            r@ == self@,
    {
        LspServerConfig {
            command: self.command.clone(),
            args: copy_strings(&self.args),
            extensions: copy_strings(&self.extensions),
            root_markers: copy_strings(&self.root_markers),
            capabilities: copy_strings(&self.capabilities),
            backend: self.backend,
            initialization_options: copy_opt(&self.initialization_options),
            env: copy_pairs(&self.env),
            timeout_ms: self.timeout_ms,
            source: copy_opt(&self.source),
            source_server: copy_opt(&self.source_server),
        }
    }
}

/// The `[lsp.*]` sections of the configuration file, keyed by language
/// name in ascending order.
#[derive(Debug)]
pub struct LspConfig {
    pub lsp: Vec<(String, LspServerConfig)>,
}

/// Builtin extension sets, keyed by builtin language name.
pub open spec fn builtin_exts(language: Seq<char>) -> Option<Seq<Seq<char>>> {
    if language == "rust"@ {
        Some(seq!["rs"@])
    } else if language == "typescript"@ {
        Some(seq!["ts"@])
    } else if language == "tsx"@ {
        Some(seq!["tsx"@])
    } else if language == "javascript"@ {
        Some(seq!["js"@, "mjs"@, "cjs"@])
    } else if language == "jsx"@ {
        Some(seq!["jsx"@])
    } else if language == "python"@ {
        Some(seq!["py"@, "pyi"@])
    } else if language == "go"@ {
        Some(seq!["go"@])
    } else if language == "solidity"@ {
        Some(seq!["sol"@])
    } else if language == "yaml"@ {
        Some(seq!["yaml"@, "yml"@])
    } else {
        None
    }
}

/// A list holding the given literals.
fn literal_list(a: &str, b: &str, c: &str, n: usize) -> (r: Vec<String>)
    requires
        1 <= n <= 3,
    ensures
        strs(r@) == (if n == 1 {
            seq![a@]
        } else if n == 2 {
            seq![a@, b@]
        } else {
            seq![a@, b@, c@]
        }),
{
    let mut v: Vec<String> = Vec::new();
    v.push(a.to_string());
    if n >= 2 {
        v.push(b.to_string());
    }
    if n >= 3 {
        v.push(c.to_string());
    }
    assert(strs(v@) =~= (if n == 1 {
        seq![a@]
    } else if n == 2 {
        seq![a@, b@]
    } else {
        seq![a@, b@, c@]
    }));
    v
}

/// Builtin extension set of a builtin language name.
pub fn builtin_extensions(language: &str) -> (r: Option<Vec<String>>)
    ensures
        match r {
            Some(v) => builtin_exts(language@) == Some(strs(v@)),
            None => builtin_exts(language@) is None,
        },
{
    if str_eq(language, "rust") {
        Some(literal_list("rs", "", "", 1))
    } else if str_eq(language, "typescript") {
        Some(literal_list("ts", "", "", 1))
    } else if str_eq(language, "tsx") {
        Some(literal_list("tsx", "", "", 1))
    } else if str_eq(language, "javascript") {
        Some(literal_list("js", "mjs", "cjs", 3))
    } else if str_eq(language, "jsx") {
        Some(literal_list("jsx", "", "", 1))
    } else if str_eq(language, "python") {
        Some(literal_list("py", "pyi", "", 2))
    } else if str_eq(language, "go") {
        Some(literal_list("go", "", "", 1))
    } else if str_eq(language, "solidity") {
        Some(literal_list("sol", "", "", 1))
    } else if str_eq(language, "yaml") {
        Some(literal_list("yaml", "yml", "", 2))
    } else {
        None
    }
}

/// One configured extension, normalized: trimmed, without leading dots,
/// ASCII-lowercased.
pub open spec fn normalize_ext(e: Seq<char>) -> Seq<char> {
    ascii_lower_str(strip_prefixes(trim(e), seq!['.']))
}

/// The normalized, non-empty configured extensions, in order.
pub open spec fn normalized_exts(exts: Seq<Seq<char>>) -> Seq<Seq<char>>
    decreases exts.len(),
{
    if exts.len() == 0 {
        seq![]
    } else {
        let prev = normalized_exts(exts.drop_last());
        let n = normalize_ext(exts.last());
        if n.len() == 0 {
            prev
        } else {
            prev.push(n)
        }
    }
}

/// The extensions a block claims: its normalized extensions, or the builtin
/// set of its language when it lists none (`None` when there is neither).
pub open spec fn effective_exts(language: Seq<char>, cfg: LspServerConfigView) -> Option<
    Seq<Seq<char>>,
> {
    let n = normalized_exts(cfg.extensions);
    if n.len() > 0 {
        Some(n)
    } else {
        builtin_exts(language)
    }
}

/// Whether a block survives validation: a non-blank command and some
/// extensions to claim.
pub open spec fn block_accepted(language: Seq<char>, cfg: LspServerConfigView) -> bool {
    trim(cfg.command).len() > 0 && effective_exts(language, cfg) is Some
}

/// The normalized form of an accepted block: its effective extensions, and
/// a zero timeout treated as unset.
pub open spec fn normalized_block(language: Seq<char>, cfg: LspServerConfigView) -> LspServerConfigView {
    LspServerConfigView {
        extensions: effective_exts(language, cfg)->0,
        timeout_ms: if cfg.timeout_ms == Some(0u64) {
            None
        } else {
            cfg.timeout_ms
        },
        ..cfg
    }
}

/// The abstract values of the blocks of a configuration.
pub open spec fn blocks_view(blocks: Seq<(String, LspServerConfig)>) -> Seq<
    (Seq<char>, LspServerConfigView),
> {
    blocks.map_values(|b: (String, LspServerConfig)| (b.0@, b.1@))
}

/// Each accepted block keeps its language; so blocks keyed by languages
/// in ascending order (as a map iterates) stay so.
pub proof fn lemma_validated_keys(bs: Seq<(Seq<char>, LspServerConfigView)>)
    ensures
        forall|k: int|
            0 <= k < validated_servers(bs).len() ==> exists|j: int|
                0 <= j < bs.len() && bs[j].0 == (#[trigger] validated_servers(bs)[k]).0,
        keys_ascending(bs) ==> keys_ascending(validated_servers(bs)),
    decreases bs.len(),
{
    if bs.len() > 0 {
        let prev = validated_servers(bs.drop_last());
        lemma_validated_keys(bs.drop_last());
        let v = validated_servers(bs);
        assert forall|k: int| 0 <= k < v.len() implies exists|j: int|
            0 <= j < bs.len() && bs[j].0 == (#[trigger] v[k]).0 by {
            if k < prev.len() {
                assert(v[k] == prev[k]);
                let j = choose|j: int| 0 <= j < bs.drop_last().len() && bs.drop_last()[j].0 == prev[k].0;
                assert(bs[j] == bs.drop_last()[j]);
            } else {
                assert(v[k].0 == bs[bs.len() - 1].0);
            }
        }
        if keys_ascending(bs) {
            assert(keys_ascending(bs.drop_last())) by {
                assert forall|i: int, j: int| 0 <= i < j < bs.drop_last().len() implies crate::rules::str_lt(
                    #[trigger] bs.drop_last()[i].0,
                    #[trigger] bs.drop_last()[j].0,
                ) by {
                    assert(bs.drop_last()[i] == bs[i]);
                    assert(bs.drop_last()[j] == bs[j]);
                }
            }
            assert forall|i: int, j: int| 0 <= i < j < v.len() implies crate::rules::str_lt(
                #[trigger] v[i].0,
                #[trigger] v[j].0,
            ) by {
                if j < prev.len() {
                    assert(v[i] == prev[i]);
                    assert(v[j] == prev[j]);
                } else {
                    assert(v[i] == prev[i]);
                    assert(v[j].0 == bs[bs.len() - 1].0);
                    let t = choose|t: int| 0 <= t < bs.drop_last().len() && bs.drop_last()[t].0 == prev[i].0;
                    assert(bs[t] == bs.drop_last()[t]);
                }
            }
        }
    }
}

/// The accepted blocks, normalized, in order.
pub open spec fn validated_servers(blocks: Seq<(Seq<char>, LspServerConfigView)>) -> Seq<
    (Seq<char>, LspServerConfigView),
>
    decreases blocks.len(),
{
    if blocks.len() == 0 {
        seq![]
    } else {
        let prev = validated_servers(blocks.drop_last());
        let b = blocks.last();
        if block_accepted(b.0, b.1) {
            prev.push((b.0, normalized_block(b.0, b.1)))
        } else {
            prev
        }
    }
}

/// The language claiming extension `ext` in a claim list, if any.
pub open spec fn claim_of(claims: Seq<(Seq<char>, Seq<char>)>, ext: Seq<char>) -> Option<Seq<char>>
    decreases claims.len(),
{
    if claims.len() == 0 {
        None
    } else if claims[0].0 == ext {
        Some(claims[0].1)
    } else {
        claim_of(claims.skip(1), ext)
    }
}

/// `claims` extended by `language` claiming each of `exts` not yet claimed.
pub open spec fn claim_all(
    claims: Seq<(Seq<char>, Seq<char>)>,
    exts: Seq<Seq<char>>,
    language: Seq<char>,
) -> Seq<(Seq<char>, Seq<char>)>
    decreases exts.len(),
{
    if exts.len() == 0 {
        claims
    } else {
        let c = claim_all(claims, exts.drop_last(), language);
        if claim_of(c, exts.last()) is Some {
            c
        } else {
            c.push((exts.last(), language))
        }
    }
}

/// The extension claims of the accepted blocks, in claim order.
pub open spec fn validated_claims(blocks: Seq<(Seq<char>, LspServerConfigView)>) -> Seq<
    (Seq<char>, Seq<char>),
>
    decreases blocks.len(),
{
    if blocks.len() == 0 {
        seq![]
    } else {
        let c = validated_claims(blocks.drop_last());
        let b = blocks.last();
        if block_accepted(b.0, b.1) {
            claim_all(c, effective_exts(b.0, b.1)->0, b.0)
        } else {
            c
        }
    }
}

/// The first accepted block (in order) whose extensions include `ext`.
pub open spec fn first_claimant(blocks: Seq<(Seq<char>, LspServerConfigView)>, ext: Seq<char>) -> Option<
    Seq<char>,
>
    decreases blocks.len(),
{
    if blocks.len() == 0 {
        None
    } else {
        let earlier = first_claimant(blocks.drop_last(), ext);
        let b = blocks.last();
        if earlier is Some {
            earlier
        } else if block_accepted(b.0, b.1) && effective_exts(b.0, b.1)->0.contains(ext) {
            Some(b.0)
        } else {
            None
        }
    }
}

/// The abstract value of claim pairs.
pub open spec fn claims_view(v: Seq<(String, String)>) -> Seq<(Seq<char>, Seq<char>)> {
    pairs_view(v)
}

/// The abstract value of server blocks.
pub open spec fn servers_view(v: Seq<(String, LspServerConfig)>) -> Seq<
    (Seq<char>, LspServerConfigView),
> {
    blocks_view(v)
}

/// Normalize one configured extension.
fn normalize_extension(e: &str) -> (r: Vec<char>)
    ensures
        r@ == normalize_ext(e@),
{
    let cs = chars_of(e);
    let (a, b) = trim_range(cs.as_slice(), 0, cs.len());
    assert(cs@.subrange(0, cs@.len() as int) =~= cs@);
    let t = slice_range(cs.as_slice(), a, b);
    let dot = vec!['.'];
    assert(dot@ =~= seq!['.']);
    let u = strip_prefixes_exec(t.as_slice(), dot.as_slice());
    to_ascii_lower(u.as_slice())
}

/// The language claiming `ext`, if any.
pub fn find_claim<'a>(claims: &'a Vec<(String, String)>, ext: &str) -> (r: Option<&'a String>)
    ensures
        match r {
            Some(l) => claim_of(claims_view(claims@), ext@) == Some(l@),
            None => claim_of(claims_view(claims@), ext@) is None,
        },
{
    let ghost cv = claims_view(claims@);
    let mut i: usize = 0;
    assert(cv.skip(0) =~= cv);
    while i < claims.len()
        invariant
            i <= claims@.len(),
            cv == claims_view(claims@),
            claim_of(cv, ext@) == claim_of(cv.skip(i as int), ext@),
        decreases claims@.len() - i,
    {
        assert(cv.skip(i as int)[0] == (claims@[i as int].0@, claims@[i as int].1@));
        if str_eq(claims[i].0.as_str(), ext) {
            return Some(&claims[i].1);
        }
        assert(cv.skip(i as int).skip(1) =~= cv.skip(i + 1));
        i = i + 1;
    }
    None
}

/// Validate and normalize the raw `[lsp.*]` blocks.
///
/// Blocks with a blank command, or without extensions for a language that
/// has no builtin set, are dropped. Returns the surviving blocks and the
/// extension claims (the first block claiming an extension, in block
/// order, wins).
pub fn validate(lsp: &Vec<(String, LspServerConfig)>) -> (r: (
    Vec<(String, LspServerConfig)>,
    Vec<(String, String)>,
))
    requires
        keys_ascending(blocks_view(lsp@)),
    ensures
        servers_view(r.0@) == validated_servers(blocks_view(lsp@)),
        keys_ascending(servers_view(r.0@)),
        claims_view(r.1@) == validated_claims(blocks_view(lsp@)),
{
    let ghost bs = blocks_view(lsp@);
    proof {
        lemma_validated_keys(bs);
    }
    let mut servers: Vec<(String, LspServerConfig)> = Vec::new();
    let mut claims: Vec<(String, String)> = Vec::new();
    let mut i: usize = 0;
    while i < lsp.len()
        invariant
            i <= lsp@.len(),
            bs == blocks_view(lsp@),
            servers_view(servers@) == validated_servers(bs.take(i as int)),
            claims_view(claims@) == validated_claims(bs.take(i as int)),
        decreases lsp@.len() - i,
    {
        assert(bs.take(i + 1).drop_last() =~= bs.take(i as int));
        assert(bs[i as int] == (lsp@[i as int].0@, lsp@[i as int].1@));
        let language = &lsp[i].0;
        let raw = &lsp[i].1;
        let command = crate::text::trim_str(raw.command.as_str());
        if command.as_str().is_empty() {
            i = i + 1;
            continue;
        }
        let mut normalized: Vec<String> = Vec::new();
        let mut k: usize = 0;
        while k < raw.extensions.len()
            invariant
                k <= raw.extensions@.len(),
                strs(normalized@) == normalized_exts(strs(raw.extensions@).take(k as int)),
            decreases raw.extensions@.len() - k,
        {
            assert(strs(raw.extensions@).take(k + 1).drop_last() =~= strs(raw.extensions@).take(
                k as int,
            ));
            let n = normalize_extension(raw.extensions[k].as_str());
            if n.len() > 0 {
                let ghost before = strs(normalized@);
                let s = string_from(n.as_slice());
                normalized.push(s);
                assert(strs(normalized@) =~= before.push(n@));
            }
            k = k + 1;
        }
        assert(strs(raw.extensions@).take(k as int) =~= strs(raw.extensions@));
        let exts = if normalized.len() > 0 {
            normalized
        } else {
            match builtin_extensions(language.as_str()) {
                Some(d) => d,
                None => {
                    i = i + 1;
                    continue;
                },
            }
        };
        assert(strs(exts@) == effective_exts(language@, raw@)->0);
        let ghost c0 = claims_view(claims@);
        let mut j: usize = 0;
        while j < exts.len()
            invariant
                j <= exts@.len(),
                claims_view(claims@) == claim_all(c0, strs(exts@).take(j as int), language@),
            decreases exts@.len() - j,
        {
            assert(strs(exts@).take(j + 1).drop_last() =~= strs(exts@).take(j as int));
            match find_claim(&claims, exts[j].as_str()) {
                Some(_) => {},
                None => {
                    let ghost before = claims_view(claims@);
                    claims.push((exts[j].clone(), language.clone()));
                    assert(claims_view(claims@) =~= before.push((exts@[j as int]@, language@)));
                },
            }
            j = j + 1;
        }
        assert(strs(exts@).take(j as int) =~= strs(exts@));
        let cfg = LspServerConfig {
            command: raw.command.clone(),
            args: copy_strings(&raw.args),
            extensions: exts,
            root_markers: copy_strings(&raw.root_markers),
            capabilities: copy_strings(&raw.capabilities),
            backend: raw.backend,
            initialization_options: copy_opt(&raw.initialization_options),
            env: copy_pairs(&raw.env),
            timeout_ms: match raw.timeout_ms {
                Some(0) => None,
                other => other,
            },
            source: copy_opt(&raw.source),
            source_server: copy_opt(&raw.source_server),
        };
        let ghost before = servers_view(servers@);
        let ghost cv = cfg@;
        servers.push((language.clone(), cfg));
        assert(cv == normalized_block(language@, raw@));
        assert(servers_view(servers@) =~= before.push((language@, cv)));
        i = i + 1;
    }
    assert(bs.take(i as int) =~= bs);
    (servers, claims)
}

/// What one claim list extension says about a lookup.
proof fn lemma_claim_of_push(
    claims: Seq<(Seq<char>, Seq<char>)>,
    e: (Seq<char>, Seq<char>),
    ext: Seq<char>,
)
    ensures
        claim_of(claims.push(e), ext) == if claim_of(claims, ext) is Some {
            claim_of(claims, ext)
        } else if e.0 == ext {
            Some(e.1)
        } else {
            None
        },
    decreases claims.len(),
{
    if claims.len() > 0 {
        assert(claims.push(e)[0] == claims[0]);
        assert(claims.push(e).skip(1) =~= claims.skip(1).push(e));
        lemma_claim_of_push(claims.skip(1), e, ext);
    } else {
        assert(claims.push(e)[0] == e);
        assert(claims.push(e).skip(1) =~= Seq::<(Seq<char>, Seq<char>)>::empty());
        assert(claim_of(Seq::<(Seq<char>, Seq<char>)>::empty(), ext) is None);
        assert(claim_of(claims, ext) is None);
    }
}

proof fn lemma_claim_all(
    claims: Seq<(Seq<char>, Seq<char>)>,
    exts: Seq<Seq<char>>,
    language: Seq<char>,
    ext: Seq<char>,
)
    ensures
        claim_of(claim_all(claims, exts, language), ext) == if claim_of(claims, ext) is Some {
            claim_of(claims, ext)
        } else if exts.contains(ext) {
            Some(language)
        } else {
            None
        },
    decreases exts.len(),
{
    if exts.len() > 0 {
        lemma_claim_all(claims, exts.drop_last(), language, ext);
        let c = claim_all(claims, exts.drop_last(), language);
        if claim_of(c, exts.last()) is None {
            lemma_claim_of_push(c, (exts.last(), language), ext);
        }
        if exts.drop_last().contains(ext) {
            let k = choose|k: int| 0 <= k < exts.drop_last().len() && exts.drop_last()[k] == ext;
            assert(exts[k] == ext);
        }
        if exts.contains(ext) && !exts.drop_last().contains(ext) {
            let k = choose|k: int| 0 <= k < exts.len() && exts[k] == ext;
            if k < exts.len() - 1 {
                assert(exts.drop_last()[k] == ext);
            }
            assert(exts.last() == ext);
        }
    }
}

/// The extension claims give each extension to the first accepted block, in
/// block order, whose extensions include it ("first claim wins").
pub proof fn law_first_claim_wins(blocks: Seq<(Seq<char>, LspServerConfigView)>, ext: Seq<char>)
    ensures
        claim_of(validated_claims(blocks), ext) == first_claimant(blocks, ext),
    decreases blocks.len(),
{
    if blocks.len() > 0 {
        law_first_claim_wins(blocks.drop_last(), ext);
        let b = blocks.last();
        if block_accepted(b.0, b.1) {
            lemma_claim_all(
                validated_claims(blocks.drop_last()),
                effective_exts(b.0, b.1)->0,
                b.0,
                ext,
            );
        }
    }
}

/// The builtin extension sets and language detection agree: every
/// extension in a language's builtin set is detected as that language, and
/// every extension detected as a language is in its builtin set.
pub proof fn law_builtin_extensions_match_detection(l: crate::parser::Language, e: Seq<char>)
    ensures
        (builtin_exts(crate::parser::language_text(l)) matches Some(es) && es.contains(e))
            ==> crate::parser::language_of_extension(Some(e)) == l,
        (crate::parser::language_of_extension(Some(e)) == l && l != crate::parser::Language::Unknown)
            ==> (builtin_exts(crate::parser::language_text(l)) matches Some(es) && es.contains(e)),
{
    reveal_strlit("cjs");
    reveal_strlit("go");
    reveal_strlit("javascript");
    reveal_strlit("js");
    reveal_strlit("jsx");
    reveal_strlit("mjs");
    reveal_strlit("py");
    reveal_strlit("pyi");
    reveal_strlit("python");
    reveal_strlit("rs");
    reveal_strlit("rust");
    reveal_strlit("sol");
    reveal_strlit("solidity");
    reveal_strlit("ts");
    reveal_strlit("tsx");
    reveal_strlit("typescript");
    reveal_strlit("unknown");
    reveal_strlit("yaml");
    reveal_strlit("yml");
    match l {
        crate::parser::Language::Rust => {
            assert(crate::parser::language_text(l) == "rust"@);
            let es = seq!["rs"@];
            assert(builtin_exts("rust"@) == Some(es));
            assert(builtin_exts(crate::parser::language_text(l)) == Some(es));
            assert(es.contains(e) ==> e == "rs"@);
            if es.contains(e) {
                let k = choose|k: int| 0 <= k < es.len() && es[k] == e;
                assert(0 <= k < es.len() && es[k] == e);
                if k == 0 {
                    assert(e == "rs"@);
                }
                assert(e == "rs"@);
                assert(crate::parser::language_of_extension(Some(e)) == crate::parser::Language::Rust);
                assert(crate::parser::language_of_extension(Some(e)) == l);
            }
            if crate::parser::language_of_extension(Some(e)) == l {
                assert(e == "rs"@);
                if e == "rs"@ {
                    assert(es[0] == e);
                }
            }
        },
        crate::parser::Language::TypeScript => {
            assert(crate::parser::language_text(l) == "typescript"@);
            let es = seq!["ts"@];
            assert(builtin_exts("typescript"@) == Some(es));
            if es.contains(e) {
                let k = choose|k: int| 0 <= k < es.len() && es[k] == e;
                assert(0 <= k < es.len() && es[k] == e);
                if k == 0 {
                    assert(e == "ts"@);
                }
                assert("ts"@ != "rs"@) by {
                    assert("ts"@[0] != "rs"@[0]);
                }
                assert(crate::parser::language_of_extension(Some(e)) == l);
            }
            if crate::parser::language_of_extension(Some(e)) == l {
                assert(e == "ts"@);
                if e == "ts"@ {
                    assert(es[0] == e);
                }
            }
        },
        crate::parser::Language::Tsx => {
            assert(crate::parser::language_text(l) == "tsx"@);
            let es = seq!["tsx"@];
            assert(builtin_exts("tsx"@) == Some(es));
            if es.contains(e) {
                let k = choose|k: int| 0 <= k < es.len() && es[k] == e;
                assert(0 <= k < es.len() && es[k] == e);
                if k == 0 {
                    assert(e == "tsx"@);
                }
                assert("tsx"@ != "rs"@) by {
                    assert("tsx"@.len() != "rs"@.len());
                }
                assert("tsx"@ != "ts"@) by {
                    assert("tsx"@.len() != "ts"@.len());
                }
                assert(crate::parser::language_of_extension(Some(e)) == l);
            }
            if crate::parser::language_of_extension(Some(e)) == l {
                assert(e == "tsx"@);
                if e == "tsx"@ {
                    assert(es[0] == e);
                }
            }
        },
        crate::parser::Language::JavaScript => {
            assert(crate::parser::language_text(l) == "javascript"@);
            let es = seq!["js"@, "mjs"@, "cjs"@];
            assert("javascript"@ != "rust"@) by {
                assert("javascript"@.len() != "rust"@.len() || "javascript"@[0] != "rust"@[0] || "javascript"@[1] != "rust"@[1]);
            }
            assert("javascript"@ != "typescript"@) by {
                assert("javascript"@.len() != "typescript"@.len() || "javascript"@[0] != "typescript"@[0] || "javascript"@[1] != "typescript"@[1]);
            }
            assert("javascript"@ != "tsx"@) by {
                assert("javascript"@.len() != "tsx"@.len() || "javascript"@[0] != "tsx"@[0] || "javascript"@[1] != "tsx"@[1]);
            }
            assert(builtin_exts("javascript"@)->0 =~= es);
            if es.contains(e) {
                let k = choose|k: int| 0 <= k < es.len() && es[k] == e;
                assert(0 <= k < es.len() && es[k] == e);
                if k == 0 {
                    assert(e == "js"@);
                }
                if k == 1 {
                    assert(e == "mjs"@);
                }
                if k == 2 {
                    assert(e == "cjs"@);
                }
                assert("js"@ != "rs"@) by {
                    assert("js"@[0] != "rs"@[0]);
                }
                assert("js"@ != "ts"@) by {
                    assert("js"@[0] != "ts"@[0]);
                }
                assert("js"@ != "tsx"@) by {
                    assert("js"@.len() != "tsx"@.len());
                }
                assert("mjs"@ != "rs"@) by {
                    assert("mjs"@.len() != "rs"@.len());
                }
                assert("mjs"@ != "ts"@) by {
                    assert("mjs"@.len() != "ts"@.len());
                }
                assert("mjs"@ != "tsx"@) by {
                    assert("mjs"@[0] != "tsx"@[0]);
                }
                assert("mjs"@ != "js"@) by {
                    assert("mjs"@.len() != "js"@.len());
                }
                assert("cjs"@ != "rs"@) by {
                    assert("cjs"@.len() != "rs"@.len());
                }
                assert("cjs"@ != "ts"@) by {
                    assert("cjs"@.len() != "ts"@.len());
                }
                assert("cjs"@ != "tsx"@) by {
                    assert("cjs"@[0] != "tsx"@[0]);
                }
                assert("cjs"@ != "js"@) by {
                    assert("cjs"@.len() != "js"@.len());
                }
                assert("cjs"@ != "mjs"@) by {
                    assert("cjs"@[0] != "mjs"@[0]);
                }
                assert(crate::parser::language_of_extension(Some(e)) == l);
            }
            if crate::parser::language_of_extension(Some(e)) == l {
                assert(e == "js"@ || e == "mjs"@ || e == "cjs"@);
                if e == "js"@ {
                    assert(es[0] == e);
                }
                if e == "mjs"@ {
                    assert(es[1] == e);
                }
                if e == "cjs"@ {
                    assert(es[2] == e);
                }
            }
        },
        crate::parser::Language::Jsx => {
            assert(crate::parser::language_text(l) == "jsx"@);
            let es = seq!["jsx"@];
            assert(builtin_exts("jsx"@) == Some(es));
            if es.contains(e) {
                let k = choose|k: int| 0 <= k < es.len() && es[k] == e;
                assert(0 <= k < es.len() && es[k] == e);
                if k == 0 {
                    assert(e == "jsx"@);
                }
                assert("jsx"@ != "rs"@) by {
                    assert("jsx"@.len() != "rs"@.len());
                }
                assert("jsx"@ != "ts"@) by {
                    assert("jsx"@.len() != "ts"@.len());
                }
                assert("jsx"@ != "tsx"@) by {
                    assert("jsx"@[0] != "tsx"@[0]);
                }
                assert("jsx"@ != "js"@) by {
                    assert("jsx"@.len() != "js"@.len());
                }
                assert("jsx"@ != "mjs"@) by {
                    assert("jsx"@[0] != "mjs"@[0]);
                }
                assert("jsx"@ != "cjs"@) by {
                    assert("jsx"@[0] != "cjs"@[0]);
                }
                assert(crate::parser::language_of_extension(Some(e)) == l);
            }
            if crate::parser::language_of_extension(Some(e)) == l {
                assert(e == "jsx"@);
                if e == "jsx"@ {
                    assert(es[0] == e);
                }
            }
        },
        crate::parser::Language::Python => {
            assert(crate::parser::language_text(l) == "python"@);
            let es = seq!["py"@, "pyi"@];
            assert(builtin_exts("python"@) == Some(es));
            if es.contains(e) {
                let k = choose|k: int| 0 <= k < es.len() && es[k] == e;
                assert(0 <= k < es.len() && es[k] == e);
                if k == 0 {
                    assert(e == "py"@);
                }
                if k == 1 {
                    assert(e == "pyi"@);
                }
                assert("py"@ != "rs"@) by {
                    assert("py"@[0] != "rs"@[0]);
                }
                assert("py"@ != "ts"@) by {
                    assert("py"@[0] != "ts"@[0]);
                }
                assert("py"@ != "tsx"@) by {
                    assert("py"@.len() != "tsx"@.len());
                }
                assert("py"@ != "js"@) by {
                    assert("py"@[0] != "js"@[0]);
                }
                assert("py"@ != "mjs"@) by {
                    assert("py"@.len() != "mjs"@.len());
                }
                assert("py"@ != "cjs"@) by {
                    assert("py"@.len() != "cjs"@.len());
                }
                assert("py"@ != "jsx"@) by {
                    assert("py"@.len() != "jsx"@.len());
                }
                assert("pyi"@ != "rs"@) by {
                    assert("pyi"@.len() != "rs"@.len());
                }
                assert("pyi"@ != "ts"@) by {
                    assert("pyi"@.len() != "ts"@.len());
                }
                assert("pyi"@ != "tsx"@) by {
                    assert("pyi"@[0] != "tsx"@[0]);
                }
                assert("pyi"@ != "js"@) by {
                    assert("pyi"@.len() != "js"@.len());
                }
                assert("pyi"@ != "mjs"@) by {
                    assert("pyi"@[0] != "mjs"@[0]);
                }
                assert("pyi"@ != "cjs"@) by {
                    assert("pyi"@[0] != "cjs"@[0]);
                }
                assert("pyi"@ != "jsx"@) by {
                    assert("pyi"@[0] != "jsx"@[0]);
                }
                assert("pyi"@ != "py"@) by {
                    assert("pyi"@.len() != "py"@.len());
                }
                assert(crate::parser::language_of_extension(Some(e)) == l);
            }
            if crate::parser::language_of_extension(Some(e)) == l {
                assert(e == "py"@ || e == "pyi"@);
                if e == "py"@ {
                    assert(es[0] == e);
                }
                if e == "pyi"@ {
                    assert(es[1] == e);
                }
            }
        },
        crate::parser::Language::Go => {
            assert(crate::parser::language_text(l) == "go"@);
            let es = seq!["go"@];
            assert(builtin_exts("go"@) == Some(es));
            if es.contains(e) {
                let k = choose|k: int| 0 <= k < es.len() && es[k] == e;
                assert(0 <= k < es.len() && es[k] == e);
                if k == 0 {
                    assert(e == "go"@);
                }
                assert("go"@ != "rs"@) by {
                    assert("go"@[0] != "rs"@[0]);
                }
                assert("go"@ != "ts"@) by {
                    assert("go"@[0] != "ts"@[0]);
                }
                assert("go"@ != "tsx"@) by {
                    assert("go"@.len() != "tsx"@.len());
                }
                assert("go"@ != "js"@) by {
                    assert("go"@[0] != "js"@[0]);
                }
                assert("go"@ != "mjs"@) by {
                    assert("go"@.len() != "mjs"@.len());
                }
                assert("go"@ != "cjs"@) by {
                    assert("go"@.len() != "cjs"@.len());
                }
                assert("go"@ != "jsx"@) by {
                    assert("go"@.len() != "jsx"@.len());
                }
                assert("go"@ != "py"@) by {
                    assert("go"@[0] != "py"@[0]);
                }
                assert("go"@ != "pyi"@) by {
                    assert("go"@.len() != "pyi"@.len());
                }
                assert(crate::parser::language_of_extension(Some(e)) == l);
            }
            if crate::parser::language_of_extension(Some(e)) == l {
                assert(e == "go"@);
                if e == "go"@ {
                    assert(es[0] == e);
                }
            }
        },
        crate::parser::Language::Solidity => {
            assert(crate::parser::language_text(l) == "solidity"@);
            let es = seq!["sol"@];
            assert(builtin_exts("solidity"@) == Some(es));
            if es.contains(e) {
                let k = choose|k: int| 0 <= k < es.len() && es[k] == e;
                assert(0 <= k < es.len() && es[k] == e);
                if k == 0 {
                    assert(e == "sol"@);
                }
                assert("sol"@ != "rs"@) by {
                    assert("sol"@.len() != "rs"@.len());
                }
                assert("sol"@ != "ts"@) by {
                    assert("sol"@.len() != "ts"@.len());
                }
                assert("sol"@ != "tsx"@) by {
                    assert("sol"@[0] != "tsx"@[0]);
                }
                assert("sol"@ != "js"@) by {
                    assert("sol"@.len() != "js"@.len());
                }
                assert("sol"@ != "mjs"@) by {
                    assert("sol"@[0] != "mjs"@[0]);
                }
                assert("sol"@ != "cjs"@) by {
                    assert("sol"@[0] != "cjs"@[0]);
                }
                assert("sol"@ != "jsx"@) by {
                    assert("sol"@[0] != "jsx"@[0]);
                }
                assert("sol"@ != "py"@) by {
                    assert("sol"@.len() != "py"@.len());
                }
                assert("sol"@ != "pyi"@) by {
                    assert("sol"@[0] != "pyi"@[0]);
                }
                assert("sol"@ != "go"@) by {
                    assert("sol"@.len() != "go"@.len());
                }
                assert(crate::parser::language_of_extension(Some(e)) == l);
            }
            if crate::parser::language_of_extension(Some(e)) == l {
                assert(e == "sol"@);
                if e == "sol"@ {
                    assert(es[0] == e);
                }
            }
        },
        crate::parser::Language::Yaml => {
            assert(crate::parser::language_text(l) == "yaml"@);
            let es = seq!["yaml"@, "yml"@];
            assert("yaml"@ != "rust"@) by {
                assert("yaml"@.len() != "rust"@.len() || "yaml"@[0] != "rust"@[0] || "yaml"@[1] != "rust"@[1]);
            }
            assert("yaml"@ != "typescript"@) by {
                assert("yaml"@.len() != "typescript"@.len() || "yaml"@[0] != "typescript"@[0] || "yaml"@[1] != "typescript"@[1]);
            }
            assert("yaml"@ != "tsx"@) by {
                assert("yaml"@.len() != "tsx"@.len() || "yaml"@[0] != "tsx"@[0] || "yaml"@[1] != "tsx"@[1]);
            }
            assert("yaml"@ != "javascript"@) by {
                assert("yaml"@.len() != "javascript"@.len() || "yaml"@[0] != "javascript"@[0] || "yaml"@[1] != "javascript"@[1]);
            }
            assert("yaml"@ != "jsx"@) by {
                assert("yaml"@.len() != "jsx"@.len() || "yaml"@[0] != "jsx"@[0] || "yaml"@[1] != "jsx"@[1]);
            }
            assert("yaml"@ != "python"@) by {
                assert("yaml"@.len() != "python"@.len() || "yaml"@[0] != "python"@[0] || "yaml"@[1] != "python"@[1]);
            }
            assert("yaml"@ != "go"@) by {
                assert("yaml"@.len() != "go"@.len() || "yaml"@[0] != "go"@[0] || "yaml"@[1] != "go"@[1]);
            }
            assert("yaml"@ != "solidity"@) by {
                assert("yaml"@.len() != "solidity"@.len() || "yaml"@[0] != "solidity"@[0] || "yaml"@[1] != "solidity"@[1]);
            }
            assert(builtin_exts("yaml"@)->0 =~= es);
            if es.contains(e) {
                let k = choose|k: int| 0 <= k < es.len() && es[k] == e;
                assert(0 <= k < es.len() && es[k] == e);
                if k == 0 {
                    assert(e == "yaml"@);
                }
                if k == 1 {
                    assert(e == "yml"@);
                }
                assert("yaml"@ != "rs"@) by {
                    assert("yaml"@.len() != "rs"@.len());
                }
                assert("yaml"@ != "ts"@) by {
                    assert("yaml"@.len() != "ts"@.len());
                }
                assert("yaml"@ != "tsx"@) by {
                    assert("yaml"@.len() != "tsx"@.len());
                }
                assert("yaml"@ != "js"@) by {
                    assert("yaml"@.len() != "js"@.len());
                }
                assert("yaml"@ != "mjs"@) by {
                    assert("yaml"@.len() != "mjs"@.len());
                }
                assert("yaml"@ != "cjs"@) by {
                    assert("yaml"@.len() != "cjs"@.len());
                }
                assert("yaml"@ != "jsx"@) by {
                    assert("yaml"@.len() != "jsx"@.len());
                }
                assert("yaml"@ != "py"@) by {
                    assert("yaml"@.len() != "py"@.len());
                }
                assert("yaml"@ != "pyi"@) by {
                    assert("yaml"@.len() != "pyi"@.len());
                }
                assert("yaml"@ != "go"@) by {
                    assert("yaml"@.len() != "go"@.len());
                }
                assert("yaml"@ != "sol"@) by {
                    assert("yaml"@.len() != "sol"@.len());
                }
                assert("yml"@ != "rs"@) by {
                    assert("yml"@.len() != "rs"@.len());
                }
                assert("yml"@ != "ts"@) by {
                    assert("yml"@.len() != "ts"@.len());
                }
                assert("yml"@ != "tsx"@) by {
                    assert("yml"@[0] != "tsx"@[0]);
                }
                assert("yml"@ != "js"@) by {
                    assert("yml"@.len() != "js"@.len());
                }
                assert("yml"@ != "mjs"@) by {
                    assert("yml"@[0] != "mjs"@[0]);
                }
                assert("yml"@ != "cjs"@) by {
                    assert("yml"@[0] != "cjs"@[0]);
                }
                assert("yml"@ != "jsx"@) by {
                    assert("yml"@[0] != "jsx"@[0]);
                }
                assert("yml"@ != "py"@) by {
                    assert("yml"@.len() != "py"@.len());
                }
                assert("yml"@ != "pyi"@) by {
                    assert("yml"@[0] != "pyi"@[0]);
                }
                assert("yml"@ != "go"@) by {
                    assert("yml"@.len() != "go"@.len());
                }
                assert("yml"@ != "sol"@) by {
                    assert("yml"@[0] != "sol"@[0]);
                }
                assert("yml"@ != "yaml"@) by {
                    assert("yml"@.len() != "yaml"@.len());
                }
                assert(crate::parser::language_of_extension(Some(e)) == l);
            }
            if crate::parser::language_of_extension(Some(e)) == l {
                assert(e == "yaml"@ || e == "yml"@);
                if e == "yaml"@ {
                    assert(es[0] == e);
                }
                if e == "yml"@ {
                    assert(es[1] == e);
                }
            }
        },
        crate::parser::Language::Unknown => {
            assert(crate::parser::language_text(l) == "unknown"@);
            assert("unknown"@.len() != "rust"@.len());
            assert("unknown"@.len() != "typescript"@.len());
            assert("unknown"@.len() != "tsx"@.len());
            assert("unknown"@.len() != "javascript"@.len());
            assert("unknown"@.len() != "jsx"@.len());
            assert("unknown"@.len() != "python"@.len());
            assert("unknown"@.len() != "go"@.len());
            assert("unknown"@.len() != "solidity"@.len());
            assert("unknown"@.len() != "yaml"@.len());
            assert(builtin_exts("unknown"@) is None);
        },
    }
}

} // verus!
