//! Architecture rules.
//!
//! A rules file declares named *layers* (glob patterns over indexed file
//! paths) plus four kinds of rules:
//!
//! - `forbidden`: layer A must not depend on layer B
//! - `allowed_dependents`: only the listed layers may depend on a layer
//! - `limit`: metric thresholds (fan-in, fan-out, complexity, file symbols)
//! - `no_new_dependents`: frozen paths that must not gain callers
//!
//! Glob matching is done by `globset`; everything else (compilation order,
//! validation, evaluation over dependencies and metrics) is specified here
//! over the patterns, and what a pattern matches is the one thing left to
//! the outside crate.

use vstd::prelude::*;

use globset::{Glob, GlobSet};

use crate::error::CtxError;
use crate::json::{copy_opt, opt_view, SymbolRef, SymbolRefView};
use crate::text::{i64_text, int_text, nat_text, push_chars, push_str, str_eq, strs, u64_text};

verus! {

/// Default location of the rules file, relative to the project root.
pub const DEFAULT_RULES_PATH: &'static str = ".ctx/rules.toml";

/// The rules file format version this build understands.
pub const SUPPORTED_VERSION: u32 = 1;

// ---------------------------------------------------------------------------
// globset
// ---------------------------------------------------------------------------

#[verifier::external_type_specification]
#[verifier::external_body]
pub struct ExGlob(Glob);

#[verifier::external_type_specification]
#[verifier::external_body]
pub struct ExGlobSet(GlobSet);

/// The message `globset::Glob::new` fails with on `pattern`
/// (`None` when the pattern parses).
pub uninterp spec fn glob_error(pattern: Seq<char>) -> Option<Seq<char>>;

/// The pattern a `globset::Glob` holds (what `Glob::glob` gives back).
pub uninterp spec fn glob_source(g: Glob) -> Seq<char>;

/// The patterns a `globset::GlobSet` was built from, in order.
pub uninterp spec fn set_patterns(s: GlobSet) -> Seq<Seq<char>>;

/// The message `globset::GlobSet::new` fails with on globs holding
/// `patterns` (`None` when the set builds).
pub uninterp spec fn set_error(patterns: Seq<Seq<char>>) -> Option<Seq<char>>;

/// Whether the glob `pattern`, built with default options, matches `path`.
pub uninterp spec fn glob_matches(pattern: Seq<char>, path: Seq<char>) -> bool;

/// The patterns held by a sequence of globs.
pub open spec fn glob_sources(gs: Seq<Glob>) -> Seq<Seq<char>> {
    gs.map_values(|g: Glob| glob_source(g))
}

/// Whether any of `patterns` matches `path`.
pub open spec fn any_glob_matches(patterns: Seq<Seq<char>>, path: Seq<char>) -> bool {
    exists|i: int| 0 <= i < patterns.len() && glob_matches(#[trigger] patterns[i], path)
}

/// `globset::Glob::new`: parses `pattern`; on success the glob holds the
/// pattern, on failure the error's `Display` text is returned. Which
/// patterns parse, and the text, are left to the name `glob_error`.
#[verifier::external_body]
fn new_glob(pattern: &str) -> (r: Result<Glob, String>)
    ensures
        match r {
            Ok(g) => glob_error(pattern@) is None && glob_source(g) == pattern@,
            Err(e) => glob_error(pattern@) == Some(e@),
        },
{
    match Glob::new(pattern) {
        Ok(g) => Ok(g),
        Err(e) => Err(e.to_string()),
    }
}

/// `globset::GlobSet::new` (what `GlobSetBuilder::build` calls): builds one
/// matcher from `globs`; the set holds their patterns in order. Whether the
/// build fails, and the text, are left to the name `set_error`.
#[verifier::external_body]
fn new_glob_set(globs: &Vec<Glob>) -> (r: Result<GlobSet, String>)
    ensures
        match r {
            Ok(s) => set_error(glob_sources(globs@)) is None && set_patterns(s) == glob_sources(
                globs@,
            ),
            Err(e) => set_error(glob_sources(globs@)) == Some(e@),
        },
{
    match GlobSet::new(globs.iter()) {
        Ok(s) => Ok(s),
        Err(e) => Err(e.to_string()),
    }
}

/// `globset::GlobSet::is_match`: true exactly when some glob of the set
/// matches `path` (on Unix, where paths are matched as given). What one
/// glob matches is left to the name `glob_matches`.
#[verifier::external_body]
fn set_matches(set: &GlobSet, path: &str) -> (r: bool)
    ensures
        r == (exists|i: int|
            0 <= i < set_patterns(*set).len() && glob_matches(
                #[trigger] set_patterns(*set)[i],
                path@,
            )),
{
    set.is_match(path)
}

// ---------------------------------------------------------------------------
// The rules file
// ---------------------------------------------------------------------------

/// A parsed rules file.
#[derive(Debug)]
pub struct RulesFile {
    /// Format version (currently always `1`).
    pub version: u32,
    /// Layer name and glob patterns over indexed file paths, in ascending
    /// name order, each name once.
    pub layers: Vec<(String, Vec<String>)>,
    /// The rule groups.
    pub rules: RuleGroups,
}

/// The `[rules]` table.
#[derive(Debug)]
pub struct RuleGroups {
    pub forbidden: Vec<ForbiddenRule>,
    pub allowed_dependents: Vec<AllowedDependentsRule>,
    pub limit: Vec<LimitRule>,
    pub no_new_dependents: Vec<NoNewDependentsRule>,
}

/// Dependencies from layer `from` to layer `to` are violations.
#[derive(Debug)]
pub struct ForbiddenRule {
    pub from: String,
    pub to: String,
    pub reason: Option<String>,
}

/// Only layers in `only` may depend on `layer`.
///
/// Files that belong to no layer are exempt, and a layer may always depend
/// on itself.
#[derive(Debug)]
pub struct AllowedDependentsRule {
    pub layer: String,
    pub only: Vec<String>,
    pub reason: Option<String>,
}

/// A metric threshold over symbols or files.
#[derive(Debug)]
pub struct LimitRule {
    pub metric: Metric,
    pub scope: Scope,
    pub max: i64,
    pub exclude: Vec<String>,
}

/// Frozen paths that must not gain dependents.
#[derive(Debug)]
pub struct NoNewDependentsRule {
    pub paths: Vec<String>,
    pub reason: Option<String>,
}

/// Metric checked by a limit rule.
#[derive(Debug, Clone, Copy, PartialEq, Eq, Structural)]
pub enum Metric {
    FanIn,
    FanOut,
    Complexity,
    FileSymbols,
}

/// The name of a metric in rules files and reports.
pub open spec fn metric_text(m: Metric) -> Seq<char> {
    match m {
        Metric::FanIn => "fan_in"@,
        Metric::FanOut => "fan_out"@,
        Metric::Complexity => "complexity"@,
        Metric::FileSymbols => "file_symbols"@,
    }
}

impl Metric {
    pub fn as_str(self) -> (r: &'static str)
        ensures
            r@ == metric_text(self),
    {
        match self {
            Metric::FanIn => "fan_in",
            Metric::FanOut => "fan_out",
            Metric::Complexity => "complexity",
            Metric::FileSymbols => "file_symbols",
        }
    }
}

/// Scope of a limit rule (symbol scope when a rules file names none).
#[derive(Debug, Clone, Copy, PartialEq, Eq, Structural)]
pub enum Scope {
    Symbol,
    File,
}

/// The name of a scope in rules files and reports.
pub open spec fn scope_text(s: Scope) -> Seq<char> {
    match s {
        Scope::Symbol => "symbol"@,
        Scope::File => "file"@,
    }
}

impl Scope {
    pub fn as_str(self) -> (r: &'static str)
        ensures
            r@ == scope_text(self),
    {
        match self {
            Scope::Symbol => "symbol",
            Scope::File => "file",
        }
    }
}

// ---------------------------------------------------------------------------
// Compilation
// ---------------------------------------------------------------------------

/// Layer names with their patterns, as character sequences.
pub open spec fn layer_table(layers: Seq<(String, Vec<String>)>) -> Seq<(Seq<char>, Seq<Seq<char>>)> {
    layers.map_values(|l: (String, Vec<String>)| (l.0@, strs(l.1@)))
}

/// The names of the layers, in table order, whose patterns match `path`.
pub open spec fn layers_matching(table: Seq<(Seq<char>, Seq<Seq<char>>)>, path: Seq<char>) -> Seq<
    Seq<char>,
>
    decreases table.len(),
{
    if table.len() == 0 {
        seq![]
    } else {
        let prev = layers_matching(table.drop_last(), path);
        if any_glob_matches(table.last().1, path) {
            prev.push(table.last().0)
        } else {
            prev
        }
    }
}

/// The first layer whose patterns match `path`, if any.
pub open spec fn layer_of_path(table: Seq<(Seq<char>, Seq<Seq<char>>)>, path: Seq<char>) -> Option<
    Seq<char>,
> {
    let m = layers_matching(table, path);
    if m.len() > 0 {
        Some(m[0])
    } else {
        None
    }
}

/// Matching layers of a concatenated table are those of each part, in order.
pub proof fn lemma_layers_matching_append(
    a: Seq<(Seq<char>, Seq<Seq<char>>)>,
    b: Seq<(Seq<char>, Seq<Seq<char>>)>,
    path: Seq<char>,
)
    ensures
        layers_matching(a + b, path) == layers_matching(a, path) + layers_matching(b, path),
    decreases b.len(),
{
    if b.len() == 0 {
        assert(a + b =~= a);
        assert(layers_matching(a, path) + layers_matching(b, path) =~= layers_matching(a, path));
    } else {
        lemma_layers_matching_append(a, b.drop_last(), path);
        assert((a + b).drop_last() =~= a + b.drop_last());
        assert((a + b).last() == b.last());
        if any_glob_matches(b.last().1, path) {
            assert(layers_matching(a, path) + layers_matching(b.drop_last(), path).push(b.last().0)
                =~= (layers_matching(a, path) + layers_matching(b.drop_last(), path)).push(
                b.last().0,
            ));
        }
    }
}

/// The first error in a list of outcomes, if any.
pub open spec fn first_error(errs: Seq<Option<Seq<char>>>) -> Option<Seq<char>>
    decreases errs.len(),
{
    if errs.len() == 0 {
        None
    } else if errs[0] is Some {
        errs[0]
    } else {
        first_error(errs.skip(1))
    }
}

/// Outcomes that are all successes up to `i` do not decide the first error.
pub proof fn lemma_first_error_skip(errs: Seq<Option<Seq<char>>>, i: int)
    requires
        0 <= i <= errs.len(),
        forall|k: int| 0 <= k < i ==> (#[trigger] errs[k]) is None,
    ensures
        first_error(errs) == first_error(errs.skip(i)),
    decreases i,
{
    if i > 0 {
        assert(errs[0] is None);
        let rest = errs.skip(1);
        assert forall|k: int| 0 <= k < i - 1 implies (#[trigger] rest[k]) is None by {
            assert(rest[k] == errs[k + 1]);
        }
        lemma_first_error_skip(rest, i - 1);
        assert(rest.skip(i - 1) =~= errs.skip(i));
    } else {
        assert(errs.skip(0) =~= errs);
    }
}

/// The error for one invalid pattern of a glob group.
pub open spec fn pattern_error(pattern: Seq<char>, what: Seq<char>) -> Option<Seq<char>> {
    match glob_error(pattern) {
        Some(e) => Some("invalid glob '"@ + pattern + "' in "@ + what + ": "@ + e),
        None => None,
    }
}

/// Why the patterns of one group (named `what` in messages) do not compile,
/// if they do not: the first pattern that does not parse, else the set.
pub open spec fn group_error(patterns: Seq<Seq<char>>, what: Seq<char>) -> Option<Seq<char>> {
    let per_pattern = patterns.map_values(|p: Seq<char>| pattern_error(p, what));
    match first_error(per_pattern) {
        Some(m) => Some(m),
        None => match set_error(patterns) {
            Some(e) => Some("failed to build globs for "@ + what + ": "@ + e),
            None => None,
        },
    }
}

/// How a layer's glob group is named in messages.
pub open spec fn layer_what(name: Seq<char>) -> Seq<char> {
    "layer '"@ + name + "'"@
}

/// How the exclude globs of the `i`-th limit rule are named in messages.
pub open spec fn limit_what(i: nat) -> Seq<char> {
    "rules.limit["@ + nat_text(i) + "].exclude"@
}

/// How the paths of the `i`-th frozen-paths rule are named in messages.
pub open spec fn frozen_what(i: nat) -> Seq<char> {
    "rules.no_new_dependents["@ + nat_text(i) + "].paths"@
}

/// Compile outcome of each glob group, in compilation order: layers,
/// limit excludes, frozen paths.
pub open spec fn group_errors(file: RulesFile) -> Seq<Option<Seq<char>>> {
    let layers = file.layers@;
    let limits = file.rules.limit@;
    let frozen = file.rules.no_new_dependents@;
    Seq::new(layers.len(), |i: int| group_error(strs(layers[i].1@), layer_what(layers[i].0@)))
        + Seq::new(limits.len(), |i: int| group_error(strs(limits[i].exclude@), limit_what(i as nat)))
        + Seq::new(frozen.len(), |i: int| group_error(strs(frozen[i].paths@), frozen_what(i as nat)))
}

/// The message for an unsupported format version.
pub open spec fn version_error(v: u32) -> Seq<char> {
    "unsupported rules version "@ + nat_text(v as nat) + " (this build supports version 1)"@
}

/// Whether layer names are listed once each, in ascending order (as the
/// keys of a map are).
pub open spec fn layers_ascending(layers: Seq<(String, Vec<String>)>) -> bool {
    forall|i: int, j: int| 0 <= i < j < layers.len() ==> str_lt(#[trigger] layers[i].0@, #[trigger] layers[j].0@)
}

/// The message for layers not listed once each in ascending name order.
pub open spec fn layer_order_error() -> Seq<char> {
    "layers must be listed once each, in ascending name order"@
}

/// Why `file` does not compile, if it does not: an unsupported version,
/// layers out of order, or the first glob group that does not compile.
pub open spec fn compile_failure(file: RulesFile) -> Option<Seq<char>> {
    if file.version != 1 {
        Some(version_error(file.version))
    } else if !layers_ascending(file.layers@) {
        Some(layer_order_error())
    } else {
        first_error(group_errors(file))
    }
}

/// Whether layer names are listed once each in ascending order (see
/// [`layers_ascending`]).
fn check_layer_order(layers: &Vec<(String, Vec<String>)>) -> (r: bool)
    ensures
        r == layers_ascending(layers@),
{
    let n = layers.len();
    if n == 0 {
        return true;
    }
    let mut i: usize = 1;
    while i < n
        invariant
            1 <= i <= n,
            n == layers@.len(),
            forall|a: int, b: int| 0 <= a < b < i ==> str_lt(#[trigger] layers@[a].0@, #[trigger] layers@[b].0@),
        decreases n - i,
    {
        if !str_less(layers[i - 1].0.as_str(), layers[i].0.as_str()) {
            return false;
        }
        proof {
            assert forall|a: int, b: int| 0 <= a < b < i + 1 implies str_lt(
                #[trigger] layers@[a].0@,
                #[trigger] layers@[b].0@,
            ) by {
                if b == i && a < i - 1 {
                    crate::rank::lemma_str_lt_transitive(layers@[a].0@, layers@[i - 1].0@, layers@[b].0@);
                }
            }
        }
        i = i + 1;
    }
    true
}

/// A [`RulesFile`] with all glob patterns compiled.
#[derive(Debug)]
pub struct CompiledRules {
    pub file: RulesFile,
    /// Layer name and compiled globs, parallel to `file.layers`.
    layer_globs: Vec<(String, GlobSet)>,
    /// Compiled `exclude` globs, parallel to `file.rules.limit`.
    limit_excludes: Vec<GlobSet>,
    /// Compiled `paths` globs, parallel to `file.rules.no_new_dependents`.
    frozen_paths: Vec<GlobSet>,
}

impl CompiledRules {
    /// The rules file these rules were compiled from.
    pub closed spec fn source(&self) -> RulesFile {
        self.file
    }

    /// Every compiled glob set holds exactly the patterns of the rules file
    /// entry it stands for.
    pub closed spec fn wf(&self) -> bool {
        let layers = self.file.layers@;
        let limits = self.file.rules.limit@;
        let frozen = self.file.rules.no_new_dependents@;
        &&& self.layer_globs@.len() == layers.len()
        &&& forall|i: int|
            0 <= i < layers.len() ==> {
                &&& (#[trigger] self.layer_globs@[i]).0@ == layers[i].0@
                &&& set_patterns(self.layer_globs@[i].1) == strs(layers[i].1@)
            }
        &&& self.limit_excludes@.len() == limits.len()
        &&& forall|i: int|
            0 <= i < limits.len() ==> set_patterns(#[trigger] self.limit_excludes@[i]) == strs(
                limits[i].exclude@,
            )
        &&& self.frozen_paths@.len() == frozen.len()
        &&& forall|i: int|
            0 <= i < frozen.len() ==> set_patterns(#[trigger] self.frozen_paths@[i]) == strs(
                frozen[i].paths@,
            )
    }

    /// Compile all glob patterns in `file`.
    ///
    /// Fails on an unsupported version, then on layers not listed once each
    /// in ascending name order, then on the first glob group (in the order
    /// layers, limit excludes, frozen paths) that does not compile.
    pub fn compile(file: RulesFile) -> (r: Result<CompiledRules, CtxError>)
        ensures
            match r {
                Ok(c) => compile_failure(file) is None && c.wf() && c.source() == file,
                Err(e) => compile_failure(file) == Some(e.text()),
            },
    {
        if file.version != SUPPORTED_VERSION {
            let mut m = String::new();
            push_str(&mut m, "unsupported rules version ");
            let v = u64_text(file.version as u64);
            push_chars(&mut m, v.as_slice());
            push_str(&mut m, " (this build supports version 1)");
            return Err(CtxError::Other(m));
        }
        if !check_layer_order(&file.layers) {
            return Err(CtxError::Other(
                "layers must be listed once each, in ascending name order".to_string(),
            ));
        }
        let ghost errs = group_errors(file);
        let ghost nl = file.layers@.len();
        let ghost nx = file.rules.limit@.len();
        let mut layer_globs: Vec<(String, GlobSet)> = Vec::new();
        let mut i: usize = 0;
        while i < file.layers.len()
            invariant
                i <= nl,
                nl == file.layers@.len(),
                errs == group_errors(file),
                file.version == 1,
                layers_ascending(file.layers@),
                errs.len() == nl + nx + file.rules.no_new_dependents@.len(),
                forall|k: int| 0 <= k < i ==> (#[trigger] errs[k]) is None,
                layer_globs@.len() == i,
                forall|k: int|
                    0 <= k < i ==> {
                        &&& (#[trigger] layer_globs@[k]).0@ == file.layers@[k].0@
                        &&& set_patterns(layer_globs@[k].1) == strs(file.layers@[k].1@)
                    },
            decreases nl - i,
        {
            let mut what = String::new();
            push_str(&mut what, "layer '");
            push_str(&mut what, file.layers[i].0.as_str());
            push_str(&mut what, "'");
            assert(errs[i as int] == group_error(strs(file.layers@[i as int].1@), what@));
            match build_globset(&file.layers[i].1, &what) {
                Ok(set) => {
                    layer_globs.push((file.layers[i].0.clone(), set));
                },
                Err(e) => {
                    proof {
                        lemma_first_error_skip(errs, i as int);
                        assert(errs.skip(i as int)[0] == errs[i as int]);
                    }
                    return Err(e);
                },
            }
            i = i + 1;
        }
        let mut limit_excludes: Vec<GlobSet> = Vec::new();
        let mut j: usize = 0;
        while j < file.rules.limit.len()
            invariant
                j <= nx,
                nl == file.layers@.len(),
                nx == file.rules.limit@.len(),
                errs == group_errors(file),
                file.version == 1,
                layers_ascending(file.layers@),
                errs.len() == nl + nx + file.rules.no_new_dependents@.len(),
                forall|k: int| 0 <= k < nl + j ==> (#[trigger] errs[k]) is None,
                limit_excludes@.len() == j,
                forall|k: int|
                    0 <= k < j ==> set_patterns(#[trigger] limit_excludes@[k]) == strs(
                        file.rules.limit@[k].exclude@,
                    ),
            decreases nx - j,
        {
            let mut what = String::new();
            push_str(&mut what, "rules.limit[");
            let n = u64_text(j as u64);
            push_chars(&mut what, n.as_slice());
            push_str(&mut what, "].exclude");
            assert(errs[nl + j] == group_error(
                strs(file.rules.limit@[j as int].exclude@),
                what@,
            ));
            match build_globset(&file.rules.limit[j].exclude, &what) {
                Ok(set) => {
                    limit_excludes.push(set);
                },
                Err(e) => {
                    proof {
                        lemma_first_error_skip(errs, nl + j);
                        assert(errs.skip(nl + j)[0] == errs[nl + j]);
                    }
                    return Err(e);
                },
            }
            j = j + 1;
        }
        let mut frozen_paths: Vec<GlobSet> = Vec::new();
        let mut q: usize = 0;
        while q < file.rules.no_new_dependents.len()
            invariant
                q <= file.rules.no_new_dependents@.len(),
                nl == file.layers@.len(),
                nx == file.rules.limit@.len(),
                errs == group_errors(file),
                file.version == 1,
                layers_ascending(file.layers@),
                errs.len() == nl + nx + file.rules.no_new_dependents@.len(),
                forall|k: int| 0 <= k < nl + nx + q ==> (#[trigger] errs[k]) is None,
                frozen_paths@.len() == q,
                forall|k: int|
                    0 <= k < q ==> set_patterns(#[trigger] frozen_paths@[k]) == strs(
                        file.rules.no_new_dependents@[k].paths@,
                    ),
            decreases file.rules.no_new_dependents@.len() - q,
        {
            let mut what = String::new();
            push_str(&mut what, "rules.no_new_dependents[");
            let n = u64_text(q as u64);
            push_chars(&mut what, n.as_slice());
            push_str(&mut what, "].paths");
            assert(errs[nl + nx + q] == group_error(
                strs(file.rules.no_new_dependents@[q as int].paths@),
                what@,
            ));
            match build_globset(&file.rules.no_new_dependents[q].paths, &what) {
                Ok(set) => {
                    frozen_paths.push(set);
                },
                Err(e) => {
                    proof {
                        lemma_first_error_skip(errs, nl + nx + q);
                        assert(errs.skip(nl + nx + q)[0] == errs[nl + nx + q]);
                    }
                    return Err(e);
                },
            }
            q = q + 1;
        }
        proof {
            lemma_first_error_skip(errs, errs.len() as int);
            assert(errs.skip(errs.len() as int).len() == 0);
        }
        Ok(CompiledRules { file, layer_globs, limit_excludes, frozen_paths })
    }
}

/// Compile one glob group (named `what` in messages).
fn build_globset(patterns: &Vec<String>, what: &String) -> (r: Result<GlobSet, CtxError>)
    ensures
        match r {
            Ok(s) => group_error(strs(patterns@), what@) is None && set_patterns(s) == strs(
                patterns@,
            ),
            Err(e) => group_error(strs(patterns@), what@) == Some(e.text()),
        },
{
    let ghost ps = strs(patterns@);
    let ghost per = ps.map_values(|p: Seq<char>| pattern_error(p, what@));
    let mut globs: Vec<Glob> = Vec::new();
    let mut i: usize = 0;
    while i < patterns.len()
        invariant
            i <= patterns@.len(),
            ps == strs(patterns@),
            per == ps.map_values(|p: Seq<char>| pattern_error(p, what@)),
            forall|k: int| 0 <= k < i ==> (#[trigger] per[k]) is None,
            glob_sources(globs@) == ps.take(i as int),
        decreases patterns@.len() - i,
    {
        match new_glob(patterns[i].as_str()) {
            Ok(g) => {
                let ghost before = globs@;
                let ghost gg = g;
                globs.push(g);
                assert(ps.take(i + 1) =~= ps.take(i as int).push(ps[i as int]));
                assert(glob_sources(globs@) =~= glob_sources(before).push(glob_source(gg)));
            },
            Err(e) => {
                let mut m = String::new();
                push_str(&mut m, "invalid glob '");
                push_str(&mut m, patterns[i].as_str());
                push_str(&mut m, "' in ");
                push_str(&mut m, what.as_str());
                push_str(&mut m, ": ");
                push_str(&mut m, e.as_str());
                proof {
                    lemma_first_error_skip(per, i as int);
                    assert(per[i as int] == Some(m@));
                }
                return Err(CtxError::Other(m));
            },
        }
        i = i + 1;
    }
    proof {
        lemma_first_error_skip(per, i as int);
        assert(per.skip(i as int).len() == 0);
        assert(ps.take(i as int) =~= ps);
    }
    match new_glob_set(&globs) {
        Ok(s) => Ok(s),
        Err(e) => {
            let mut m = String::new();
            push_str(&mut m, "failed to build globs for ");
            push_str(&mut m, what.as_str());
            push_str(&mut m, ": ");
            push_str(&mut m, e.as_str());
            Err(CtxError::Other(m))
        },
    }
}


// ---------------------------------------------------------------------------
// Layer lookup and validation
// ---------------------------------------------------------------------------

/// Texts joined with a separator.
pub open spec fn join(parts: Seq<Seq<char>>, sep: Seq<char>) -> Seq<char>
    decreases parts.len(),
{
    if parts.len() == 0 {
        seq![]
    } else if parts.len() == 1 {
        parts[0]
    } else {
        join(parts.drop_last(), sep) + sep + parts.last()
    }
}

/// `parts` joined with `sep`, as `slice::join` does.
pub fn join_strs(parts: &Vec<&str>, sep: &str) -> (r: String)
    ensures
        r@ == join(parts@.map_values(|p: &str| p@), sep@),
{
    let ghost ps = parts@.map_values(|p: &str| p@);
    let mut out = String::new();
    let mut i: usize = 0;
    while i < parts.len()
        invariant
            i <= parts@.len(),
            ps == parts@.map_values(|p: &str| p@),
            out@ == join(ps.take(i as int), sep@),
        decreases parts@.len() - i,
    {
        if i > 0 {
            push_str(&mut out, sep);
        }
        push_str(&mut out, parts[i]);
        proof {
            assert(ps.take(i + 1).drop_last() =~= ps.take(i as int));
            if i == 0 {
                assert(ps.take(0) =~= Seq::<Seq<char>>::empty());
            }
        }
        i = i + 1;
    }
    assert(ps.take(i as int) =~= ps);
    out
}

/// The declared layer names, in table order.
pub open spec fn layer_names(table: Seq<(Seq<char>, Seq<Seq<char>>)>) -> Seq<Seq<char>> {
    table.map_values(|l: (Seq<char>, Seq<Seq<char>>)| l.0)
}

/// The error for a reference (in `context`) to a layer name that is not
/// declared.
pub open spec fn unknown_layer(names: Seq<Seq<char>>, name: Seq<char>, context: Seq<char>) -> Option<
    Seq<char>,
> {
    if names.contains(name) {
        None
    } else {
        Some(
            context + ": unknown layer '"@ + name + "' (declared layers: ["@ + join(names, ", "@)
                + "])"@,
        )
    }
}

/// The first undeclared layer a forbidden rule names (`from` before `to`).
pub open spec fn forbidden_rule_error(names: Seq<Seq<char>>, r: ForbiddenRule) -> Option<Seq<char>> {
    match unknown_layer(names, r.from@, "rules.forbidden.from"@) {
        Some(m) => Some(m),
        None => unknown_layer(names, r.to@, "rules.forbidden.to"@),
    }
}

/// Outcome of each `only` entry of an allowed-dependents rule.
pub open spec fn only_errors(names: Seq<Seq<char>>, only: Seq<Seq<char>>) -> Seq<Option<Seq<char>>> {
    only.map_values(|o: Seq<char>| unknown_layer(names, o, "rules.allowed_dependents.only"@))
}

/// Outcome of each forbidden rule.
pub open spec fn forbidden_errors(names: Seq<Seq<char>>, rules: Seq<ForbiddenRule>) -> Seq<
    Option<Seq<char>>,
> {
    rules.map_values(|r: ForbiddenRule| forbidden_rule_error(names, r))
}

/// Outcome of each allowed-dependents rule.
pub open spec fn allowed_errors(names: Seq<Seq<char>>, rules: Seq<AllowedDependentsRule>) -> Seq<
    Option<Seq<char>>,
> {
    rules.map_values(|r: AllowedDependentsRule| allowed_rule_error(names, r))
}

/// Outcome of each indexed file's layer membership.
pub open spec fn overlap_errors(table: Seq<(Seq<char>, Seq<Seq<char>>)>, files: Seq<Seq<char>>) -> Seq<
    Option<Seq<char>>,
> {
    files.map_values(|p: Seq<char>| overlap_error(table, p))
}

/// The first undeclared layer an allowed-dependents rule names (`layer`
/// before the entries of `only`).
pub open spec fn allowed_rule_error(names: Seq<Seq<char>>, r: AllowedDependentsRule) -> Option<
    Seq<char>,
> {
    match unknown_layer(names, r.layer@, "rules.allowed_dependents.layer"@) {
        Some(m) => Some(m),
        None => first_error(only_errors(names, strs(r.only@))),
    }
}

/// The message for a file-symbols limit in symbol scope.
pub open spec fn file_symbols_scope_error() -> Seq<char> {
    "rules.limit: metric \"file_symbols\" requires scope = \"file\" (it counts symbols per file and has no per-symbol value)"@
}

/// Whether a limit rule asks for a per-symbol value of a per-file metric.
pub open spec fn bad_limit(r: LimitRule) -> bool {
    r.metric == Metric::FileSymbols && r.scope == Scope::Symbol
}

/// The error for an indexed file that matches two or more layers.
pub open spec fn overlap_error(table: Seq<(Seq<char>, Seq<Seq<char>>)>, path: Seq<char>) -> Option<
    Seq<char>,
> {
    let ls = layers_matching(table, path);
    if ls.len() >= 2 {
        Some(
            "layer overlap: file '"@ + path + "' matches layers ["@ + join(ls, ", "@)
                + "]; each file may belong to at most one layer"@,
        )
    } else {
        None
    }
}

/// Why `file` is not valid against the indexed files, if it is not:
/// undeclared layer names (forbidden rules, then allowed-dependents rules),
/// then a file-symbols limit in symbol scope, then overlapping layers.
pub open spec fn validation_error(file: RulesFile, indexed: Seq<Seq<char>>) -> Option<Seq<char>> {
    let table = layer_table(file.layers@);
    let names = layer_names(table);
    let forbidden = first_error(forbidden_errors(names, file.rules.forbidden@));
    let allowed = first_error(allowed_errors(names, file.rules.allowed_dependents@));
    if forbidden is Some {
        forbidden
    } else if allowed is Some {
        allowed
    } else if exists|i: int| 0 <= i < file.rules.limit@.len() && bad_limit(#[trigger] file.rules.limit@[i]) {
        Some(file_symbols_scope_error())
    } else {
        first_error(overlap_errors(table, indexed))
    }
}

/// How many of `files` some pattern of `patterns` matches.
pub open spec fn match_count(patterns: Seq<Seq<char>>, files: Seq<Seq<char>>) -> nat
    decreases files.len(),
{
    if files.len() == 0 {
        0
    } else {
        match_count(patterns, files.drop_last()) + if any_glob_matches(patterns, files.last()) {
            1nat
        } else {
            0nat
        }
    }
}

impl CompiledRules {
    /// The layer table of the compiled rules.
    pub open spec fn table(&self) -> Seq<(Seq<char>, Seq<Seq<char>>)> {
        layer_table(self.source().layers@)
    }

    proof fn lemma_wf_table(&self, i: int)
        requires
            self.wf(),
            0 <= i < self.layer_globs@.len(),
        ensures
            self.layer_globs@.len() == self.table().len(),
            self.layer_globs@[i].0@ == self.table()[i].0,
            set_patterns(self.layer_globs@[i].1) == self.table()[i].1,
    {
    }

    /// The layer `path` belongs to (the first whose patterns match), or
    /// `None` when it matches no layer.
    pub fn layer_of(&self, path: &str) -> (r: Option<&str>)
        requires
            self.wf(),
        ensures
            match r {
                Some(n) => layer_of_path(self.table(), path@) == Some(n@),
                None => layer_of_path(self.table(), path@) is None,
            },
    {
        let ghost table = self.table();
        let mut i: usize = 0;
        while i < self.layer_globs.len()
            invariant
                self.wf(),
                table == self.table(),
                i <= self.layer_globs@.len(),
                self.layer_globs@.len() == table.len(),
                layers_matching(table.take(i as int), path@).len() == 0,
            decreases self.layer_globs@.len() - i,
        {
            proof {
                self.lemma_wf_table(i as int);
                assert(table.take(i + 1).drop_last() =~= table.take(i as int));
                lemma_layers_matching_append(table.take(i + 1), table.skip(i + 1), path@);
                assert(table.take(i + 1) + table.skip(i + 1) =~= table);
            }
            if set_matches(&self.layer_globs[i].1, path) {
                return Some(self.layer_globs[i].0.as_str());
            }
            i = i + 1;
        }
        assert(table.take(i as int) =~= table);
        None
    }

    /// All layers `path` belongs to, in table order.
    pub fn layers_of(&self, path: &str) -> (r: Vec<&str>)
        requires
            self.wf(),
        ensures
            r@.map_values(|n: &str| n@) == layers_matching(self.table(), path@),
    {
        let ghost table = self.table();
        let mut out: Vec<&str> = Vec::new();
        let mut i: usize = 0;
        while i < self.layer_globs.len()
            invariant
                self.wf(),
                table == self.table(),
                i <= self.layer_globs@.len(),
                self.layer_globs@.len() == table.len(),
                out@.map_values(|n: &str| n@) == layers_matching(table.take(i as int), path@),
            decreases self.layer_globs@.len() - i,
        {
            proof {
                self.lemma_wf_table(i as int);
                assert(table.take(i + 1).drop_last() =~= table.take(i as int));
            }
            if set_matches(&self.layer_globs[i].1, path) {
                let ghost before = out@;
                out.push(self.layer_globs[i].0.as_str());
                assert(out@.map_values(|n: &str| n@) =~= before.map_values(|n: &str| n@).push(
                    table[i as int].0,
                ));
            }
            i = i + 1;
        }
        assert(table.take(i as int) =~= table);
        out
    }

    /// The declared layer names, in table order.
    fn names(&self) -> (r: Vec<&str>)
        requires
            self.wf(),
        ensures
            r@.map_values(|n: &str| n@) == layer_names(self.table()),
    {
        let ghost table = self.table();
        let mut out: Vec<&str> = Vec::new();
        let mut i: usize = 0;
        while i < self.layer_globs.len()
            invariant
                self.wf(),
                table == self.table(),
                i <= self.layer_globs@.len(),
                self.layer_globs@.len() == table.len(),
                out@.map_values(|n: &str| n@) == layer_names(table).take(i as int),
            decreases self.layer_globs@.len() - i,
        {
            proof {
                self.lemma_wf_table(i as int);
            }
            let ghost before = out@;
            out.push(self.layer_globs[i].0.as_str());
            assert(layer_names(table).take(i + 1) =~= layer_names(table).take(i as int).push(
                table[i as int].0,
            ));
            assert(out@.map_values(|n: &str| n@) =~= before.map_values(|n: &str| n@).push(
                table[i as int].0,
            ));
            i = i + 1;
        }
        assert(layer_names(table).take(i as int) =~= layer_names(table));
        out
    }

    /// Fails when `name` (referenced in `context`) is not a declared layer.
    fn require_layer(&self, name: &str, context: &str) -> (r: Result<(), CtxError>)
        requires
            self.wf(),
        ensures
            match r {
                Ok(_) => unknown_layer(layer_names(self.table()), name@, context@) is None,
                Err(e) => unknown_layer(layer_names(self.table()), name@, context@) == Some(
                    e.text(),
                ),
            },
    {
        let names = self.names();
        let ghost ns = names@.map_values(|n: &str| n@);
        let mut i: usize = 0;
        while i < names.len()
            invariant
                i <= names@.len(),
                ns == names@.map_values(|n: &str| n@),
                ns == layer_names(self.table()),
                forall|k: int| 0 <= k < i ==> ns[k] != name@,
            decreases names@.len() - i,
        {
            if str_eq(names[i], name) {
                assert(ns[i as int] == name@);
                assert(ns.contains(name@));
                return Ok(());
            }
            i = i + 1;
        }
        let mut m = String::new();
        push_str(&mut m, context);
        push_str(&mut m, ": unknown layer '");
        push_str(&mut m, name);
        push_str(&mut m, "' (declared layers: [");
        let joined = join_strs(&names, ", ");
        push_str(&mut m, joined.as_str());
        push_str(&mut m, "])");
        Err(CtxError::Other(m))
    }

    /// Validate the rules against the indexed files.
    ///
    /// Fails on rules naming undeclared layers, on a `file_symbols` limit in
    /// symbol scope, and on an indexed file that matches two or more layers.
    pub fn validate(&self, indexed_files: &Vec<String>) -> (r: Result<(), CtxError>)
        requires
            self.wf(),
        ensures
            match r {
                Ok(_) => validation_error(self.source(), strs(indexed_files@)) is None,
                Err(e) => validation_error(self.source(), strs(indexed_files@)) == Some(e.text()),
            },
    {
        let ghost table = self.table();
        let ghost names = layer_names(table);
        let ghost ferrs = forbidden_errors(names, self.file.rules.forbidden@);
        let mut i: usize = 0;
        while i < self.file.rules.forbidden.len()
            invariant
                self.wf(),
                table == self.table(),
                names == layer_names(table),
                ferrs == forbidden_errors(names, self.file.rules.forbidden@),
                i <= ferrs.len(),
                forall|k: int| 0 <= k < i ==> (#[trigger] ferrs[k]) is None,
            decreases ferrs.len() - i,
        {
            let rule = &self.file.rules.forbidden[i];
            match self.require_layer(rule.from.as_str(), "rules.forbidden.from") {
                Ok(_) => {},
                Err(e) => {
                    proof {
                        lemma_first_error_skip(ferrs, i as int);
                        assert(ferrs.skip(i as int)[0] == ferrs[i as int]);
                    }
                    return Err(e);
                },
            }
            match self.require_layer(rule.to.as_str(), "rules.forbidden.to") {
                Ok(_) => {},
                Err(e) => {
                    proof {
                        lemma_first_error_skip(ferrs, i as int);
                        assert(ferrs.skip(i as int)[0] == ferrs[i as int]);
                    }
                    return Err(e);
                },
            }
            i = i + 1;
        }
        proof {
            lemma_first_error_skip(ferrs, i as int);
            assert(ferrs.skip(i as int).len() == 0);
        }
        let ghost aerrs = allowed_errors(names, self.file.rules.allowed_dependents@);
        let mut j: usize = 0;
        while j < self.file.rules.allowed_dependents.len()
            invariant
                self.wf(),
                table == self.table(),
                names == layer_names(table),
                first_error(ferrs) is None,
                ferrs == forbidden_errors(names, self.file.rules.forbidden@),
                aerrs == allowed_errors(names, self.file.rules.allowed_dependents@),
                j <= aerrs.len(),
                forall|k: int| 0 <= k < j ==> (#[trigger] aerrs[k]) is None,
            decreases aerrs.len() - j,
        {
            let rule = &self.file.rules.allowed_dependents[j];
            match self.require_layer(rule.layer.as_str(), "rules.allowed_dependents.layer") {
                Ok(_) => {},
                Err(e) => {
                    proof {
                        lemma_first_error_skip(aerrs, j as int);
                        assert(aerrs.skip(j as int)[0] == aerrs[j as int]);
                    }
                    return Err(e);
                },
            }
            let ghost oerrs = only_errors(names, strs(rule.only@));
            let mut k: usize = 0;
            while k < rule.only.len()
                invariant
                    self.wf(),
                    table == self.table(),
                    names == layer_names(table),
                    rule == self.file.rules.allowed_dependents@[j as int],
                    j < aerrs.len(),
                    first_error(ferrs) is None,
                    ferrs == forbidden_errors(names, self.file.rules.forbidden@),
                    aerrs == allowed_errors(names, self.file.rules.allowed_dependents@),
                    forall|q: int| 0 <= q < j ==> (#[trigger] aerrs[q]) is None,
                    unknown_layer(names, rule.layer@, "rules.allowed_dependents.layer"@) is None,
                    oerrs == only_errors(names, strs(rule.only@)),
                    k <= oerrs.len(),
                    forall|q: int| 0 <= q < k ==> (#[trigger] oerrs[q]) is None,
                decreases oerrs.len() - k,
            {
                match self.require_layer(rule.only[k].as_str(), "rules.allowed_dependents.only") {
                    Ok(_) => {},
                    Err(e) => {
                        proof {
                            lemma_first_error_skip(oerrs, k as int);
                            assert(oerrs.skip(k as int)[0] == oerrs[k as int]);
                            assert(oerrs[k as int] == Some(e.text()));
                            assert(first_error(oerrs) == Some(e.text()));
                            assert(aerrs[j as int] == allowed_rule_error(names, *rule));
                            assert(aerrs[j as int] == Some(e.text()));
                            lemma_first_error_skip(aerrs, j as int);
                            assert(aerrs.skip(j as int)[0] == aerrs[j as int]);
                            assert(first_error(aerrs) == Some(e.text()));
                        }
                        return Err(e);
                    },
                }
                k = k + 1;
            }
            proof {
                lemma_first_error_skip(oerrs, k as int);
                assert(oerrs.skip(k as int).len() == 0);
            }
            j = j + 1;
        }
        proof {
            lemma_first_error_skip(aerrs, j as int);
            assert(aerrs.skip(j as int).len() == 0);
        }
        let mut q: usize = 0;
        while q < self.file.rules.limit.len()
            invariant
                table == self.table(),
                names == layer_names(table),
                first_error(forbidden_errors(names, self.file.rules.forbidden@)) is None,
                first_error(allowed_errors(names, self.file.rules.allowed_dependents@)) is None,
                q <= self.file.rules.limit@.len(),
                forall|k: int| 0 <= k < q ==> !bad_limit(#[trigger] self.file.rules.limit@[k]),
            decreases self.file.rules.limit@.len() - q,
        {
            let rule = &self.file.rules.limit[q];
            if rule.metric == Metric::FileSymbols && rule.scope == Scope::Symbol {
                assert(bad_limit(self.file.rules.limit@[q as int]));
                let mut m = String::new();
                push_str(
                    &mut m,
                    "rules.limit: metric \"file_symbols\" requires scope = \"file\" (it counts symbols per file and has no per-symbol value)",
                );
                return Err(CtxError::Other(m));
            }
            q = q + 1;
        }
        let ghost oerrs = overlap_errors(table, strs(indexed_files@));
        let mut f: usize = 0;
        while f < indexed_files.len()
            invariant
                self.wf(),
                table == self.table(),
                oerrs == overlap_errors(table, strs(indexed_files@)),
                names == layer_names(table),
                first_error(forbidden_errors(names, self.file.rules.forbidden@)) is None,
                first_error(allowed_errors(names, self.file.rules.allowed_dependents@)) is None,
                forall|k: int|
                    0 <= k < self.file.rules.limit@.len() ==> !bad_limit(
                        #[trigger] self.file.rules.limit@[k],
                    ),
                f <= oerrs.len(),
                forall|k: int| 0 <= k < f ==> (#[trigger] oerrs[k]) is None,
            decreases oerrs.len() - f,
        {
            let layers = self.layers_of(indexed_files[f].as_str());
            if layers.len() >= 2 {
                let mut m = String::new();
                push_str(&mut m, "layer overlap: file '");
                push_str(&mut m, indexed_files[f].as_str());
                push_str(&mut m, "' matches layers [");
                let joined = join_strs(&layers, ", ");
                push_str(&mut m, joined.as_str());
                push_str(&mut m, "]; each file may belong to at most one layer");
                proof {
                    lemma_first_error_skip(oerrs, f as int);
                    assert(oerrs.skip(f as int)[0] == oerrs[f as int]);
                }
                return Err(CtxError::Other(m));
            }
            f = f + 1;
        }
        proof {
            lemma_first_error_skip(oerrs, f as int);
            assert(oerrs.skip(f as int).len() == 0);
        }
        Ok(())
    }

    /// Compiled `exclude` globs of the `i`-th limit rule.
    pub fn limit_exclude(&self, i: usize) -> (r: &GlobSet)
        requires
            self.wf(),
            i < self.source().rules.limit@.len(),
        ensures
            set_patterns(*r) == strs(self.source().rules.limit@[i as int].exclude@),
    {
        &self.limit_excludes[i]
    }

    /// Compiled `paths` globs of the `i`-th frozen-paths rule.
    pub fn frozen_path(&self, i: usize) -> (r: &GlobSet)
        requires
            self.wf(),
            i < self.source().rules.no_new_dependents@.len(),
        ensures
            set_patterns(*r) == strs(self.source().rules.no_new_dependents@[i as int].paths@),
    {
        &self.frozen_paths[i]
    }

    /// Number of indexed files per layer, in table order.
    pub fn layer_file_counts(&self, indexed_files: &Vec<String>) -> (r: Vec<(String, usize)>)
        requires
            self.wf(),
        ensures
            r@.len() == self.table().len(),
            forall|i: int|
                0 <= i < r@.len() ==> {
                    &&& (#[trigger] r@[i]).0@ == self.table()[i].0
                    &&& r@[i].1 == match_count(self.table()[i].1, strs(indexed_files@))
                },
    {
        let ghost table = self.table();
        let ghost files = strs(indexed_files@);
        let mut out: Vec<(String, usize)> = Vec::new();
        let mut i: usize = 0;
        while i < self.layer_globs.len()
            invariant
                self.wf(),
                table == self.table(),
                files == strs(indexed_files@),
                i <= self.layer_globs@.len(),
                self.layer_globs@.len() == table.len(),
                out@.len() == i,
                forall|k: int|
                    0 <= k < i ==> {
                        &&& (#[trigger] out@[k]).0@ == table[k].0
                        &&& out@[k].1 == match_count(table[k].1, files)
                    },
            decreases self.layer_globs@.len() - i,
        {
            proof {
                self.lemma_wf_table(i as int);
            }
            let set = &self.layer_globs[i].1;
            let mut n: usize = 0;
            let mut f: usize = 0;
            while f < indexed_files.len()
                invariant
                    f <= indexed_files@.len(),
                    files == strs(indexed_files@),
                    set_patterns(*set) == table[i as int].1,
                    n == match_count(table[i as int].1, files.take(f as int)),
                    n <= f,
                decreases indexed_files@.len() - f,
            {
                assert(files.take(f + 1).drop_last() =~= files.take(f as int));
                if set_matches(set, indexed_files[f].as_str()) {
                    n = n + 1;
                }
                f = f + 1;
            }
            assert(files.take(f as int) =~= files);
            out.push((self.layer_globs[i].0.clone(), n));
            i = i + 1;
        }
        out
    }
}


// ---------------------------------------------------------------------------
// Dependencies, metrics and violations
// ---------------------------------------------------------------------------

/// One end of a dependency: a resolved symbol or a whole file (file-level
/// endpoints come from import resolution).
#[derive(Debug)]
pub enum Endpoint {
    Symbol(SymbolRef),
    File { file: String },
}

/// The abstract value of an [`Endpoint`].
pub enum EndpointView {
    Symbol(SymbolRefView),
    File(Seq<char>),
}

impl View for Endpoint {
    type V = EndpointView;

    open spec fn view(&self) -> EndpointView {
        match self {
            Endpoint::Symbol(s) => EndpointView::Symbol(s@),
            Endpoint::File { file } => EndpointView::File(file@),
        }
    }
}

/// The file an endpoint lives in.
pub open spec fn endpoint_file(e: EndpointView) -> Seq<char> {
    match e {
        EndpointView::Symbol(s) => s.file,
        EndpointView::File(f) => f,
    }
}

/// The abstract value of an optional endpoint.
pub open spec fn opt_endpoint(e: Option<Endpoint>) -> Option<EndpointView> {
    match e {
        Some(x) => Some(x@),
        None => None,
    }
}

impl Endpoint {
    /// The file this endpoint lives in.
    pub fn file(&self) -> (r: &str)
        ensures
            r@ == endpoint_file(self@),
    {
        match self {
            Endpoint::Symbol(s) => s.file.as_str(),
            Endpoint::File { file } => file.as_str(),
        }
    }

    /// A copy of this endpoint.
    pub fn copy(&self) -> (r: Endpoint)
        ensures
            r@ == self@,
    {
        match self {
            Endpoint::Symbol(s) => Endpoint::Symbol(s.copy()),
            Endpoint::File { file } => Endpoint::File { file: file.clone() },
        }
    }
}

/// A cross-file dependency (call, implements, extends or uses edge, or a
/// resolved import).
#[derive(Debug)]
pub struct FileDep {
    pub from: Endpoint,
    pub to: Endpoint,
    /// Edge kind (`calls`, `implements`, `extends`, `uses`) or `import`.
    pub kind: String,
    /// Line in the `from` file where the dependency occurs, when known.
    pub line: Option<i64>,
}

/// The abstract value of a [`FileDep`].
pub struct FileDepView {
    pub from: EndpointView,
    pub to: EndpointView,
    pub kind: Seq<char>,
    pub line: Option<i64>,
}

impl View for FileDep {
    type V = FileDepView;

    open spec fn view(&self) -> FileDepView {
        FileDepView { from: self.from@, to: self.to@, kind: self.kind@, line: self.line }
    }
}

/// The abstract values of a list of dependencies.
pub open spec fn deps_view(deps: Seq<FileDep>) -> Seq<FileDepView> {
    deps.map_values(|d: FileDep| d@)
}

/// Per-symbol metrics of an indexed function or method.
#[derive(Debug)]
pub struct SymbolMetrics {
    pub id: String,
    pub name: String,
    pub qualified_name: Option<String>,
    pub kind: String,
    pub file_path: String,
    pub line_start: i64,
    pub line_end: i64,
    pub fan_in: i64,
    pub fan_out: i64,
    pub complexity: i64,
}

/// The abstract value of [`SymbolMetrics`].
pub struct SymbolMetricsView {
    pub id: Seq<char>,
    pub name: Seq<char>,
    pub qualified_name: Option<Seq<char>>,
    pub kind: Seq<char>,
    pub file_path: Seq<char>,
    pub line_start: i64,
    pub line_end: i64,
    pub fan_in: i64,
    pub fan_out: i64,
    pub complexity: i64,
}

impl View for SymbolMetrics {
    type V = SymbolMetricsView;

    open spec fn view(&self) -> SymbolMetricsView {
        SymbolMetricsView {
            id: self.id@,
            name: self.name@,
            qualified_name: opt_view(self.qualified_name),
            kind: self.kind@,
            file_path: self.file_path@,
            line_start: self.line_start,
            line_end: self.line_end,
            fan_in: self.fan_in,
            fan_out: self.fan_out,
            complexity: self.complexity,
        }
    }
}

/// The abstract values of a list of symbol metrics.
pub open spec fn metrics_view(ms: Seq<SymbolMetrics>) -> Seq<SymbolMetricsView> {
    ms.map_values(|m: SymbolMetrics| m@)
}

/// Per-file totals of an indexed file.
#[derive(Debug)]
pub struct FileComplexity {
    pub file_path: String,
    pub complexity: i64,
    pub fan_out: i64,
    pub symbol_count: i64,
}

/// The abstract values of a list of per-file totals: path and symbol count.
pub open spec fn counts_view(fc: Seq<FileComplexity>) -> Seq<(Seq<char>, i64)> {
    fc.map_values(|f: FileComplexity| (f.file_path@, f.symbol_count))
}

/// Which rule group a violation belongs to.
#[derive(Debug, Clone, Copy, PartialEq, Eq, Structural)]
pub enum RuleKind {
    Forbidden,
    AllowedDependents,
    Limit,
    NoNewDependents,
}

/// The name of a rule group.
pub open spec fn rule_kind_text(k: RuleKind) -> Seq<char> {
    match k {
        RuleKind::Forbidden => "forbidden"@,
        RuleKind::AllowedDependents => "allowed_dependents"@,
        RuleKind::Limit => "limit"@,
        RuleKind::NoNewDependents => "no_new_dependents"@,
    }
}

impl RuleKind {
    pub fn as_str(self) -> (r: &'static str)
        ensures
            r@ == rule_kind_text(self),
    {
        match self {
            RuleKind::Forbidden => "forbidden",
            RuleKind::AllowedDependents => "allowed_dependents",
            RuleKind::Limit => "limit",
            RuleKind::NoNewDependents => "no_new_dependents",
        }
    }
}

/// One rule violation.
///
/// Dependency violations carry `from` and `to` endpoints; limit violations
/// carry a `subject` plus the metric fields.
#[derive(Debug)]
pub struct Violation {
    pub rule: RuleKind,
    /// Identifier of the rule instance, used for grouping.
    pub rule_id: String,
    pub reason: String,
    /// One-line description of the violating dependency or metric.
    pub message: String,
    /// Primary file (`from` side for dependency rules, subject for limits).
    pub file: String,
    pub line: Option<i64>,
    pub from: Option<Endpoint>,
    pub to: Option<Endpoint>,
    pub subject: Option<Endpoint>,
    pub metric: Option<Metric>,
    pub scope: Option<Scope>,
    pub value: Option<i64>,
    pub max: Option<i64>,
}

/// The abstract value of a [`Violation`].
pub struct ViolationView {
    pub rule: RuleKind,
    pub rule_id: Seq<char>,
    pub reason: Seq<char>,
    pub message: Seq<char>,
    pub file: Seq<char>,
    pub line: Option<i64>,
    pub from: Option<EndpointView>,
    pub to: Option<EndpointView>,
    pub subject: Option<EndpointView>,
    pub metric: Option<Metric>,
    pub scope: Option<Scope>,
    pub value: Option<i64>,
    pub max: Option<i64>,
}

impl View for Violation {
    type V = ViolationView;

    open spec fn view(&self) -> ViolationView {
        ViolationView {
            rule: self.rule,
            rule_id: self.rule_id@,
            reason: self.reason@,
            message: self.message@,
            file: self.file@,
            line: self.line,
            from: opt_endpoint(self.from),
            to: opt_endpoint(self.to),
            subject: opt_endpoint(self.subject),
            metric: self.metric,
            scope: self.scope,
            value: self.value,
            max: self.max,
        }
    }
}

/// The abstract values of a list of violations.
pub open spec fn violations_view(vs: Seq<Violation>) -> Seq<ViolationView> {
    vs.map_values(|v: Violation| v@)
}

/// Where a dependency occurs: `file:line`, or the file when the line is
/// unknown.
pub open spec fn dep_location(d: FileDepView) -> Seq<char> {
    match d.line {
        Some(l) => endpoint_file(d.from) + ":"@ + int_text(l as int),
        None => endpoint_file(d.from),
    }
}

/// What a dependency points at: `file [kind name]` for a symbol,
/// `file [kind]` for a file.
pub open spec fn dep_target(d: FileDepView) -> Seq<char> {
    match d.to {
        EndpointView::Symbol(s) => s.file + " ["@ + d.kind + " "@ + s.name + "]"@,
        EndpointView::File(f) => f + " ["@ + d.kind + "]"@,
    }
}

/// The violation reported for dependency `d` under a dependency rule.
pub open spec fn dep_violation(
    rule: RuleKind,
    rule_id: Seq<char>,
    reason: Seq<char>,
    d: FileDepView,
) -> ViolationView {
    ViolationView {
        rule,
        rule_id,
        reason,
        message: dep_location(d) + " -> "@ + dep_target(d),
        file: endpoint_file(d.from),
        line: d.line,
        from: Some(d.from),
        to: Some(d.to),
        subject: None,
        metric: None,
        scope: None,
        value: None,
        max: None,
    }
}

/// The files a violation refers to: its primary file, then the files of
/// its endpoints.
pub open spec fn endpoint_files(v: ViolationView) -> Seq<Seq<char>> {
    let a = seq![v.file];
    let b = match v.from {
        Some(e) => a.push(endpoint_file(e)),
        None => a,
    };
    let c = match v.to {
        Some(e) => b.push(endpoint_file(e)),
        None => b,
    };
    match v.subject {
        Some(e) => c.push(endpoint_file(e)),
        None => c,
    }
}

impl Violation {
    /// The violation for dependency `dep` under a dependency rule.
    fn dep(rule: RuleKind, rule_id: String, reason: String, dep: &FileDep) -> (v: Violation)
        ensures
            v@ == dep_violation(rule, rule_id@, reason@, dep@),
    {
        let mut message = String::new();
        push_str(&mut message, dep.from.file());
        match dep.line {
            Some(line) => {
                push_str(&mut message, ":");
                let t = i64_text(line);
                push_chars(&mut message, t.as_slice());
            },
            None => {},
        }
        assert(message@ == dep_location(dep@));
        let ghost loc = message@;
        push_str(&mut message, " -> ");
        match &dep.to {
            Endpoint::Symbol(s) => {
                push_str(&mut message, s.file.as_str());
                push_str(&mut message, " [");
                push_str(&mut message, dep.kind.as_str());
                push_str(&mut message, " ");
                push_str(&mut message, s.name.as_str());
                push_str(&mut message, "]");
            },
            Endpoint::File { file } => {
                push_str(&mut message, file.as_str());
                push_str(&mut message, " [");
                push_str(&mut message, dep.kind.as_str());
                push_str(&mut message, "]");
            },
        }
        assert(message@ =~= loc + " -> "@ + dep_target(dep@));
        let mut file = String::new();
        push_str(&mut file, dep.from.file());
        Violation {
            rule,
            rule_id,
            reason,
            message,
            file,
            line: dep.line,
            from: Some(dep.from.copy()),
            to: Some(dep.to.copy()),
            subject: None,
            metric: None,
            scope: None,
            value: None,
            max: None,
        }
    }

    /// The files this violation refers to (its primary file, then the files
    /// of its endpoints).
    pub fn endpoint_files(&self) -> (r: Vec<&str>)
        ensures
            r@.map_values(|f: &str| f@) == endpoint_files(self@),
    {
        let mut files: Vec<&str> = Vec::new();
        files.push(self.file.as_str());
        let ghost a = files@.map_values(|f: &str| f@);
        assert(a =~= seq![self.file@]);
        match &self.from {
            Some(e) => {
                files.push(e.file());
            },
            None => {},
        }
        let ghost b = files@.map_values(|f: &str| f@);
        assert(b =~= match self@.from {
            Some(e) => a.push(endpoint_file(e)),
            None => a,
        });
        match &self.to {
            Some(e) => {
                files.push(e.file());
            },
            None => {},
        }
        let ghost c = files@.map_values(|f: &str| f@);
        assert(c =~= match self@.to {
            Some(e) => b.push(endpoint_file(e)),
            None => b,
        });
        match &self.subject {
            Some(e) => {
                files.push(e.file());
            },
            None => {},
        }
        assert(files@.map_values(|f: &str| f@) =~= match self@.subject {
            Some(e) => c.push(endpoint_file(e)),
            None => c,
        });
        files
    }
}


// ---------------------------------------------------------------------------
// Dependency rules
// ---------------------------------------------------------------------------

/// The grouping identifier of a forbidden rule.
pub open spec fn forbidden_rule_id(r: ForbiddenRule) -> Seq<char> {
    "forbidden: "@ + r.from@ + " -> "@ + r.to@
}

/// The reason reported for a forbidden rule.
pub open spec fn forbidden_reason(r: ForbiddenRule) -> Seq<char> {
    match opt_view(r.reason) {
        Some(x) => x,
        None => "layer '"@ + r.from@ + "' must not depend on '"@ + r.to@ + "'"@,
    }
}

/// Whether dependency `d` goes from layer `r.from` into layer `r.to`.
pub open spec fn forbidden_hit(
    table: Seq<(Seq<char>, Seq<Seq<char>>)>,
    r: ForbiddenRule,
    d: FileDepView,
) -> bool {
    &&& layer_of_path(table, endpoint_file(d.from)) == Some(r.from@)
    &&& layer_of_path(table, endpoint_file(d.to)) == Some(r.to@)
}

/// Violations of one forbidden rule, in dependency order.
pub open spec fn forbidden_rule_violations(
    table: Seq<(Seq<char>, Seq<Seq<char>>)>,
    r: ForbiddenRule,
    deps: Seq<FileDepView>,
) -> Seq<ViolationView>
    decreases deps.len(),
{
    if deps.len() == 0 {
        seq![]
    } else {
        let prev = forbidden_rule_violations(table, r, deps.drop_last());
        if forbidden_hit(table, r, deps.last()) {
            prev.push(
                dep_violation(
                    RuleKind::Forbidden,
                    forbidden_rule_id(r),
                    forbidden_reason(r),
                    deps.last(),
                ),
            )
        } else {
            prev
        }
    }
}

/// Violations of the forbidden rules, rule by rule.
pub open spec fn forbidden_violations(
    table: Seq<(Seq<char>, Seq<Seq<char>>)>,
    rules: Seq<ForbiddenRule>,
    deps: Seq<FileDepView>,
) -> Seq<ViolationView>
    decreases rules.len(),
{
    if rules.len() == 0 {
        seq![]
    } else {
        forbidden_violations(table, rules.drop_last(), deps) + forbidden_rule_violations(
            table,
            rules.last(),
            deps,
        )
    }
}

/// The grouping identifier of an allowed-dependents rule.
pub open spec fn allowed_rule_id(r: AllowedDependentsRule) -> Seq<char> {
    "allowed_dependents: "@ + r.layer@ + " only ["@ + join(strs(r.only@), ", "@) + "]"@
}

/// The reason of an allowed-dependents rule.
pub open spec fn allowed_reason(r: AllowedDependentsRule) -> Seq<char> {
    match opt_view(r.reason) {
        Some(x) => x,
        None => "only ["@ + join(strs(r.only@), ", "@) + "] may depend on layer '"@ + r.layer@
            + "'"@,
    }
}

/// The layer that dependency `d` comes from when it breaks rule `r`: it
/// goes into `r.layer` from a layered file whose layer is neither
/// `r.layer` nor listed in `r.only`.
pub open spec fn allowed_offender(
    table: Seq<(Seq<char>, Seq<Seq<char>>)>,
    r: AllowedDependentsRule,
    d: FileDepView,
) -> Option<Seq<char>> {
    if layer_of_path(table, endpoint_file(d.to)) != Some(r.layer@) {
        None
    } else {
        match layer_of_path(table, endpoint_file(d.from)) {
            None => None,
            Some(fl) => if fl == r.layer@ || strs(r.only@).contains(fl) {
                None
            } else {
                Some(fl)
            },
        }
    }
}

/// Violations of one allowed-dependents rule, in dependency order.
pub open spec fn allowed_rule_violations(
    table: Seq<(Seq<char>, Seq<Seq<char>>)>,
    r: AllowedDependentsRule,
    deps: Seq<FileDepView>,
) -> Seq<ViolationView>
    decreases deps.len(),
{
    if deps.len() == 0 {
        seq![]
    } else {
        let prev = allowed_rule_violations(table, r, deps.drop_last());
        match allowed_offender(table, r, deps.last()) {
            Some(fl) => prev.push(
                dep_violation(
                    RuleKind::AllowedDependents,
                    allowed_rule_id(r),
                    allowed_reason(r) + " (found dependent in layer '"@ + fl + "')"@,
                    deps.last(),
                ),
            ),
            None => prev,
        }
    }
}

/// Violations of the allowed-dependents rules, rule by rule.
pub open spec fn allowed_violations(
    table: Seq<(Seq<char>, Seq<Seq<char>>)>,
    rules: Seq<AllowedDependentsRule>,
    deps: Seq<FileDepView>,
) -> Seq<ViolationView>
    decreases rules.len(),
{
    if rules.len() == 0 {
        seq![]
    } else {
        allowed_violations(table, rules.drop_last(), deps) + allowed_rule_violations(
            table,
            rules.last(),
            deps,
        )
    }
}

/// The grouping identifier of a frozen-paths rule.
pub open spec fn frozen_rule_id(r: NoNewDependentsRule) -> Seq<char> {
    "no_new_dependents: ["@ + join(strs(r.paths@), ", "@) + "]"@
}

/// The reason of a frozen-paths rule.
pub open spec fn frozen_reason(r: NoNewDependentsRule) -> Seq<char> {
    match opt_view(r.reason) {
        Some(x) => x,
        None => "["@ + join(strs(r.paths@), ", "@) + "] must not gain new dependents"@,
    }
}

/// Whether dependency `d` enters the frozen paths of `r` from outside them
/// and, with a change set, comes from a changed file.
pub open spec fn frozen_hit(
    r: NoNewDependentsRule,
    changed: Option<Seq<Seq<char>>>,
    d: FileDepView,
) -> bool {
    &&& any_glob_matches(strs(r.paths@), endpoint_file(d.to))
    &&& !any_glob_matches(strs(r.paths@), endpoint_file(d.from))
    &&& match changed {
        Some(c) => c.contains(endpoint_file(d.from)),
        None => true,
    }
}

/// Violations of one frozen-paths rule, in dependency order.
pub open spec fn frozen_rule_violations(
    r: NoNewDependentsRule,
    changed: Option<Seq<Seq<char>>>,
    deps: Seq<FileDepView>,
) -> Seq<ViolationView>
    decreases deps.len(),
{
    if deps.len() == 0 {
        seq![]
    } else {
        let prev = frozen_rule_violations(r, changed, deps.drop_last());
        if frozen_hit(r, changed, deps.last()) {
            prev.push(
                dep_violation(
                    RuleKind::NoNewDependents,
                    frozen_rule_id(r),
                    frozen_reason(r),
                    deps.last(),
                ),
            )
        } else {
            prev
        }
    }
}

/// Violations of the frozen-paths rules, rule by rule.
pub open spec fn frozen_violations(
    rules: Seq<NoNewDependentsRule>,
    changed: Option<Seq<Seq<char>>>,
    deps: Seq<FileDepView>,
) -> Seq<ViolationView>
    decreases rules.len(),
{
    if rules.len() == 0 {
        seq![]
    } else {
        frozen_violations(rules.drop_last(), changed, deps) + frozen_rule_violations(
            rules.last(),
            changed,
            deps,
        )
    }
}

/// The view of an optional change set.
pub open spec fn changed_view(changed: Option<&Vec<String>>) -> Option<Seq<Seq<char>>> {
    match changed {
        Some(c) => Some(strs(c@)),
        None => None,
    }
}

/// Whether `layer` (if any) is `name`.
fn layer_is(layer: Option<&str>, name: &str) -> (r: bool)
    ensures
        r == (match layer {
            Some(l) => l@ == name@,
            None => false,
        }),
{
    match layer {
        Some(l) => str_eq(l, name),
        None => false,
    }
}

/// Whether `s` holds a string equal to `x`.
fn contains_str(s: &Vec<String>, x: &str) -> (r: bool)
    ensures
        r == strs(s@).contains(x@),
{
    let ghost v = strs(s@);
    let mut i: usize = 0;
    while i < s.len()
        invariant
            i <= s@.len(),
            v == strs(s@),
            forall|k: int| 0 <= k < i ==> v[k] != x@,
        decreases s@.len() - i,
    {
        if str_eq(s[i].as_str(), x) {
            assert(v[i as int] == x@);
            return true;
        }
        i = i + 1;
    }
    false
}

/// A copy of a list of strings as string slices.
pub(crate) fn as_strs(v: &Vec<String>) -> (r: Vec<&str>)
    ensures
        r@.map_values(|p: &str| p@) == strs(v@),
{
    let mut out: Vec<&str> = Vec::new();
    let mut i: usize = 0;
    while i < v.len()
        invariant
            i <= v@.len(),
            out@.map_values(|p: &str| p@) == strs(v@).take(i as int),
        decreases v@.len() - i,
    {
        let ghost before = out@;
        out.push(v[i].as_str());
        assert(out@.map_values(|p: &str| p@) =~= before.map_values(|p: &str| p@).push(v@[i as int]@));
        assert(strs(v@).take(i + 1) =~= strs(v@).take(i as int).push(v@[i as int]@));
        i = i + 1;
    }
    assert(strs(v@).take(i as int) =~= strs(v@));
    out
}

/// A copy of an optional string, or the given default.
fn reason_or(reason: &Option<String>, default: String) -> (r: String)
    ensures
        r@ == match opt_view(*reason) {
            Some(x) => x,
            None => default@,
        },
{
    match reason {
        Some(x) => x.clone(),
        None => default,
    }
}

/// Dependency edges from `from`-layer files into `to`-layer files.
pub fn eval_forbidden(compiled: &CompiledRules, deps: &Vec<FileDep>) -> (r: Vec<Violation>)
    requires
        compiled.wf(),
    ensures
        violations_view(r@) == forbidden_violations(
            compiled.table(),
            compiled.source().rules.forbidden@,
            deps_view(deps@),
        ),
{
    let ghost table = compiled.table();
    let ghost rules = compiled.source().rules.forbidden@;
    let ghost ds = deps_view(deps@);
    let mut out: Vec<Violation> = Vec::new();
    let mut i: usize = 0;
    while i < compiled.file.rules.forbidden.len()
        invariant
            compiled.wf(),
            table == compiled.table(),
            rules == compiled.source().rules.forbidden@,
            rules == compiled.file.rules.forbidden@,
            ds == deps_view(deps@),
            i <= rules.len(),
            violations_view(out@) == forbidden_violations(table, rules.take(i as int), ds),
        decreases rules.len() - i,
    {
        let rule = &compiled.file.rules.forbidden[i];
        let mut rule_id = String::new();
        push_str(&mut rule_id, "forbidden: ");
        push_str(&mut rule_id, rule.from.as_str());
        push_str(&mut rule_id, " -> ");
        push_str(&mut rule_id, rule.to.as_str());
        let mut default = String::new();
        push_str(&mut default, "layer '");
        push_str(&mut default, rule.from.as_str());
        push_str(&mut default, "' must not depend on '");
        push_str(&mut default, rule.to.as_str());
        push_str(&mut default, "'");
        let reason = reason_or(&rule.reason, default);
        let ghost base = violations_view(out@);
        let mut j: usize = 0;
        while j < deps.len()
            invariant
                compiled.wf(),
                table == compiled.table(),
                ds == deps_view(deps@),
                *rule == rules[i as int],
                rule_id@ == forbidden_rule_id(*rule),
                reason@ == forbidden_reason(*rule),
                j <= deps@.len(),
                violations_view(out@) == base + forbidden_rule_violations(
                    table,
                    *rule,
                    ds.take(j as int),
                ),
            decreases deps@.len() - j,
        {
            let dep = &deps[j];
            assert(ds.take(j + 1).drop_last() =~= ds.take(j as int));
            assert(ds[j as int] == dep@);
            let from_ok = layer_is(compiled.layer_of(dep.from.file()), rule.from.as_str());
            let to_ok = layer_is(compiled.layer_of(dep.to.file()), rule.to.as_str());
            if from_ok && to_ok {
                let ghost before = violations_view(out@);
                let v = Violation::dep(RuleKind::Forbidden, rule_id.clone(), reason.clone(), dep);
                out.push(v);
                assert(violations_view(out@) =~= before.push(v@));
            }
            j = j + 1;
        }
        assert(ds.take(j as int) =~= ds);
        assert(rules.take(i + 1).drop_last() =~= rules.take(i as int));
        i = i + 1;
    }
    assert(rules.take(i as int) =~= rules);
    out
}

/// Inbound dependencies into `layer` from a layered file whose layer is not
/// in `only` (unlayered files are unconstrained, and a layer may always
/// depend on itself).
pub fn eval_allowed_dependents(compiled: &CompiledRules, deps: &Vec<FileDep>) -> (r: Vec<
    Violation,
>)
    requires
        compiled.wf(),
    ensures
        violations_view(r@) == allowed_violations(
            compiled.table(),
            compiled.source().rules.allowed_dependents@,
            deps_view(deps@),
        ),
{
    let ghost table = compiled.table();
    let ghost rules = compiled.source().rules.allowed_dependents@;
    let ghost ds = deps_view(deps@);
    let mut out: Vec<Violation> = Vec::new();
    let mut i: usize = 0;
    while i < compiled.file.rules.allowed_dependents.len()
        invariant
            compiled.wf(),
            table == compiled.table(),
            rules == compiled.source().rules.allowed_dependents@,
            rules == compiled.file.rules.allowed_dependents@,
            ds == deps_view(deps@),
            i <= rules.len(),
            violations_view(out@) == allowed_violations(table, rules.take(i as int), ds),
        decreases rules.len() - i,
    {
        let rule = &compiled.file.rules.allowed_dependents[i];
        let only = as_strs(&rule.only);
        let joined = join_strs(&only, ", ");
        let mut rule_id = String::new();
        push_str(&mut rule_id, "allowed_dependents: ");
        push_str(&mut rule_id, rule.layer.as_str());
        push_str(&mut rule_id, " only [");
        push_str(&mut rule_id, joined.as_str());
        push_str(&mut rule_id, "]");
        let mut default = String::new();
        push_str(&mut default, "only [");
        push_str(&mut default, joined.as_str());
        push_str(&mut default, "] may depend on layer '");
        push_str(&mut default, rule.layer.as_str());
        push_str(&mut default, "'");
        let reason = reason_or(&rule.reason, default);
        let ghost base = violations_view(out@);
        let mut j: usize = 0;
        while j < deps.len()
            invariant
                compiled.wf(),
                table == compiled.table(),
                ds == deps_view(deps@),
                *rule == rules[i as int],
                rule_id@ == allowed_rule_id(*rule),
                reason@ == allowed_reason(*rule),
                j <= deps@.len(),
                violations_view(out@) == base + allowed_rule_violations(
                    table,
                    *rule,
                    ds.take(j as int),
                ),
            decreases deps@.len() - j,
        {
            let dep = &deps[j];
            assert(ds.take(j + 1).drop_last() =~= ds.take(j as int));
            assert(ds[j as int] == dep@);
            let to_ok = layer_is(compiled.layer_of(dep.to.file()), rule.layer.as_str());
            if to_ok {
                match compiled.layer_of(dep.from.file()) {
                    None => {},
                    Some(from_layer) => {
                        if !str_eq(from_layer, rule.layer.as_str()) && !contains_str(
                            &rule.only,
                            from_layer,
                        ) {
                            let mut why = reason.clone();
                            push_str(&mut why, " (found dependent in layer '");
                            push_str(&mut why, from_layer);
                            push_str(&mut why, "')");
                            let ghost before = violations_view(out@);
                            let v = Violation::dep(
                                RuleKind::AllowedDependents,
                                rule_id.clone(),
                                why,
                                dep,
                            );
                            out.push(v);
                            assert(violations_view(out@) =~= before.push(v@));
                        }
                    },
                }
            }
            j = j + 1;
        }
        assert(ds.take(j as int) =~= ds);
        assert(rules.take(i + 1).drop_last() =~= rules.take(i as int));
        i = i + 1;
    }
    assert(rules.take(i as int) =~= rules);
    out
}

/// Inbound dependencies into frozen paths from outside them; with a change
/// set, only those whose source file changed ("new dependents").
pub fn eval_no_new_dependents(
    compiled: &CompiledRules,
    deps: &Vec<FileDep>,
    changed: Option<&Vec<String>>,
) -> (r: Vec<Violation>)
    requires
        compiled.wf(),
    ensures
        violations_view(r@) == frozen_violations(
            compiled.source().rules.no_new_dependents@,
            changed_view(changed),
            deps_view(deps@),
        ),
{
    let ghost rules = compiled.source().rules.no_new_dependents@;
    let ghost ds = deps_view(deps@);
    let ghost ch = changed_view(changed);
    let mut out: Vec<Violation> = Vec::new();
    let mut i: usize = 0;
    while i < compiled.file.rules.no_new_dependents.len()
        invariant
            compiled.wf(),
            rules == compiled.source().rules.no_new_dependents@,
            rules == compiled.file.rules.no_new_dependents@,
            ds == deps_view(deps@),
            ch == changed_view(changed),
            i <= rules.len(),
            violations_view(out@) == frozen_violations(rules.take(i as int), ch, ds),
        decreases rules.len() - i,
    {
        let rule = &compiled.file.rules.no_new_dependents[i];
        let paths = compiled.frozen_path(i);
        let listed = as_strs(&rule.paths);
        let joined = join_strs(&listed, ", ");
        let mut rule_id = String::new();
        push_str(&mut rule_id, "no_new_dependents: [");
        push_str(&mut rule_id, joined.as_str());
        push_str(&mut rule_id, "]");
        let mut default = String::new();
        push_str(&mut default, "[");
        push_str(&mut default, joined.as_str());
        push_str(&mut default, "] must not gain new dependents");
        let reason = reason_or(&rule.reason, default);
        let ghost base = violations_view(out@);
        let mut j: usize = 0;
        while j < deps.len()
            invariant
                ds == deps_view(deps@),
                ch == changed_view(changed),
                *rule == rules[i as int],
                set_patterns(*paths) == strs(rule.paths@),
                rule_id@ == frozen_rule_id(*rule),
                reason@ == frozen_reason(*rule),
                j <= deps@.len(),
                violations_view(out@) == base + frozen_rule_violations(*rule, ch, ds.take(j as int)),
            decreases deps@.len() - j,
        {
            let dep = &deps[j];
            assert(ds.take(j + 1).drop_last() =~= ds.take(j as int));
            assert(ds[j as int] == dep@);
            let into = set_matches(paths, dep.to.file());
            let inside = set_matches(paths, dep.from.file());
            let counted = match changed {
                Some(c) => contains_str(c, dep.from.file()),
                None => true,
            };
            if into && !inside && counted {
                let ghost before = violations_view(out@);
                let v = Violation::dep(
                    RuleKind::NoNewDependents,
                    rule_id.clone(),
                    reason.clone(),
                    dep,
                );
                out.push(v);
                assert(violations_view(out@) =~= before.push(v@));
            }
            j = j + 1;
        }
        assert(ds.take(j as int) =~= ds);
        assert(rules.take(i + 1).drop_last() =~= rules.take(i as int));
        i = i + 1;
    }
    assert(rules.take(i as int) =~= rules);
    out
}


// ---------------------------------------------------------------------------
// Limit rules
// ---------------------------------------------------------------------------

/// Code-point order on texts (the order of Rust's `str`, whose byte-wise
/// comparison of UTF-8 agrees with it).
pub open spec fn str_lt(a: Seq<char>, b: Seq<char>) -> bool
    decreases a.len(),
{
    if a.len() == 0 {
        b.len() > 0
    } else if b.len() == 0 {
        false
    } else if a[0] != b[0] {
        (a[0] as u32) < (b[0] as u32)
    } else {
        str_lt(a.skip(1), b.skip(1))
    }
}

/// Whether `a` sorts before `b`.
pub fn str_less(a: &str, b: &str) -> (r: bool)
    ensures
        r == str_lt(a@, b@),
{
    let ca = crate::text::chars_of(a);
    let cb = crate::text::chars_of(b);
    let mut i: usize = 0;
    assert(a@.skip(0) =~= a@);
    assert(b@.skip(0) =~= b@);
    while i < ca.len() && i < cb.len()
        invariant
            ca@ == a@,
            cb@ == b@,
            i <= ca@.len(),
            i <= cb@.len(),
            str_lt(a@, b@) == str_lt(a@.skip(i as int), b@.skip(i as int)),
        decreases ca@.len() - i,
    {
        assert(a@.skip(i as int)[0] == ca@[i as int]);
        assert(b@.skip(i as int)[0] == cb@[i as int]);
        if ca[i] != cb[i] {
            return (ca[i] as u32) < (cb[i] as u32);
        }
        assert(a@.skip(i as int).skip(1) =~= a@.skip(i + 1));
        assert(b@.skip(i as int).skip(1) =~= b@.skip(i + 1));
        i = i + 1;
    }
    i == ca.len() && i < cb.len()
}

/// Insert `(k, v)` into a table kept in ascending key order; an existing
/// entry for `k` becomes `old + v` when `add`, else `v`.
pub open spec fn upsert(t: Seq<(Seq<char>, int)>, k: Seq<char>, v: int, add: bool) -> Seq<
    (Seq<char>, int),
>
    decreases t.len(),
{
    if t.len() == 0 {
        seq![(k, v)]
    } else if t[0].0 == k {
        seq![
            (k, if add {
                t[0].1 + v
            } else {
                v
            }),
        ] + t.skip(1)
    } else if str_lt(k, t[0].0) {
        seq![(k, v)] + t
    } else {
        seq![t[0]] + upsert(t.skip(1), k, v, add)
    }
}

/// Whether every value of a table fits in an `i64`.
pub open spec fn table_fits(t: Seq<(Seq<char>, int)>) -> bool {
    forall|i: int| 0 <= i < t.len() ==> i64::MIN <= (#[trigger] t[i]).1 <= i64::MAX
}

/// The value of `metric` for one symbol (0 for the per-file metric).
pub open spec fn symbol_metric_value(metric: Metric, m: SymbolMetricsView) -> i64 {
    match metric {
        Metric::FanIn => m.fan_in,
        Metric::FanOut => m.fan_out,
        Metric::Complexity => m.complexity,
        Metric::FileSymbols => 0,
    }
}

/// Per-file sums of `metric`, in ascending path order.
pub open spec fn sum_table(metric: Metric, ms: Seq<SymbolMetricsView>) -> Seq<(Seq<char>, int)>
    decreases ms.len(),
{
    if ms.len() == 0 {
        seq![]
    } else {
        upsert(
            sum_table(metric, ms.drop_last()),
            ms.last().file_path,
            symbol_metric_value(metric, ms.last()) as int,
            true,
        )
    }
}

/// Per-file symbol counts (the last entry for a path wins), in ascending
/// path order.
pub open spec fn count_table(fc: Seq<(Seq<char>, i64)>) -> Seq<(Seq<char>, int)>
    decreases fc.len(),
{
    if fc.len() == 0 {
        seq![]
    } else {
        upsert(count_table(fc.drop_last()), fc.last().0, fc.last().1 as int, false)
    }
}

/// The per-file values a file-scope limit on `metric` checks.
pub open spec fn file_table(
    metric: Metric,
    ms: Seq<SymbolMetricsView>,
    fc: Seq<(Seq<char>, i64)>,
) -> Seq<(Seq<char>, int)> {
    if metric == Metric::FileSymbols {
        count_table(fc)
    } else {
        sum_table(metric, ms)
    }
}

/// Whether no running per-file sum of `metric` leaves the `i64` range.
pub open spec fn sums_fit(metric: Metric, ms: Seq<SymbolMetricsView>) -> bool {
    forall|n: int| 0 <= n <= ms.len() ==> table_fits(#[trigger] sum_table(metric, ms.take(n)))
}

/// Whether the file-scope limit rules can sum their metric without
/// overflow.
pub open spec fn limit_sums_fit(rules: Seq<LimitRule>, ms: Seq<SymbolMetricsView>) -> bool {
    forall|i: int|
        0 <= i < rules.len() && (#[trigger] rules[i]).scope == Scope::File && rules[i].metric
            != Metric::FileSymbols ==> sums_fit(rules[i].metric, ms)
}

/// The grouping identifier of a limit rule.
pub open spec fn limit_rule_id(r: LimitRule) -> Seq<char> {
    "limit: "@ + metric_text(r.metric) + " <= "@ + int_text(r.max as int) + " ("@ + scope_text(
        r.scope,
    ) + ")"@
}

/// The violation of limit rule `r` by `subject` with `value`.
pub open spec fn limit_violation_view(
    r: LimitRule,
    subject: EndpointView,
    location: Seq<char>,
    file: Seq<char>,
    line: Option<i64>,
    name: Option<Seq<char>>,
    value: i64,
) -> ViolationView {
    let what = match name {
        Some(n) => location + " ("@ + n + ")"@,
        None => location,
    };
    let reason = metric_text(r.metric) + " "@ + int_text(value as int) + " exceeds max "@
        + int_text(r.max as int);
    ViolationView {
        rule: RuleKind::Limit,
        rule_id: limit_rule_id(r),
        reason,
        message: what + ": "@ + reason,
        file,
        line,
        from: None,
        to: None,
        subject: Some(subject),
        metric: Some(r.metric),
        scope: Some(r.scope),
        value: Some(value),
        max: Some(r.max),
    }
}

/// The symbol reference of a metrics row.
pub open spec fn metrics_symbol(m: SymbolMetricsView) -> SymbolRefView {
    SymbolRefView {
        name: m.name,
        qualified_name: m.qualified_name,
        kind: m.kind,
        file: m.file_path,
        line_start: m.line_start,
        line_end: m.line_end,
    }
}

/// Violations of a symbol-scope limit rule, in metrics order.
pub open spec fn symbol_limit_violations(r: LimitRule, ms: Seq<SymbolMetricsView>) -> Seq<
    ViolationView,
>
    decreases ms.len(),
{
    if ms.len() == 0 {
        seq![]
    } else {
        let prev = symbol_limit_violations(r, ms.drop_last());
        let m = ms.last();
        let value = symbol_metric_value(r.metric, m);
        if any_glob_matches(strs(r.exclude@), m.file_path) || value <= r.max {
            prev
        } else {
            prev.push(
                limit_violation_view(
                    r,
                    EndpointView::Symbol(metrics_symbol(m)),
                    m.file_path + ":"@ + int_text(m.line_start as int),
                    m.file_path,
                    Some(m.line_start),
                    Some(m.name),
                    value,
                ),
            )
        }
    }
}

/// Violations of a file-scope limit rule over per-file values, in table
/// order.
pub open spec fn file_limit_violations(r: LimitRule, t: Seq<(Seq<char>, int)>) -> Seq<
    ViolationView,
>
    decreases t.len(),
{
    if t.len() == 0 {
        seq![]
    } else {
        let prev = file_limit_violations(r, t.drop_last());
        let e = t.last();
        if any_glob_matches(strs(r.exclude@), e.0) || e.1 <= r.max {
            prev
        } else {
            prev.push(
                limit_violation_view(
                    r,
                    EndpointView::File(e.0),
                    e.0,
                    e.0,
                    None,
                    None,
                    e.1 as i64,
                ),
            )
        }
    }
}

/// Violations of one limit rule.
pub open spec fn limit_rule_violations(
    r: LimitRule,
    ms: Seq<SymbolMetricsView>,
    fc: Seq<(Seq<char>, i64)>,
) -> Seq<ViolationView> {
    match r.scope {
        Scope::Symbol => symbol_limit_violations(r, ms),
        Scope::File => file_limit_violations(r, file_table(r.metric, ms, fc)),
    }
}

/// Violations of the limit rules, rule by rule.
pub open spec fn limit_violations(
    rules: Seq<LimitRule>,
    ms: Seq<SymbolMetricsView>,
    fc: Seq<(Seq<char>, i64)>,
) -> Seq<ViolationView>
    decreases rules.len(),
{
    if rules.len() == 0 {
        seq![]
    } else {
        limit_violations(rules.drop_last(), ms, fc) + limit_rule_violations(rules.last(), ms, fc)
    }
}

/// The abstract value of an exec table.
pub open spec fn table_view(t: Seq<(String, i64)>) -> Seq<(Seq<char>, int)> {
    t.map_values(|e: (String, i64)| (e.0@, e.1 as int))
}

/// Replacing values keeps a table within the `i64` range.
proof fn lemma_upsert_replace_fits(t: Seq<(Seq<char>, int)>, k: Seq<char>, v: i64)
    requires
        table_fits(t),
    ensures
        table_fits(upsert(t, k, v as int, false)),
    decreases t.len(),
{
    if t.len() > 0 && t[0].0 != k && !str_lt(k, t[0].0) {
        let rest = t.skip(1);
        assert forall|i: int| 0 <= i < rest.len() implies i64::MIN <= (#[trigger] rest[i]).1
            <= i64::MAX by {
            assert(rest[i] == t[i + 1]);
        }
        lemma_upsert_replace_fits(rest, k, v);
        let u = upsert(t, k, v as int, false);
        assert forall|i: int| 0 <= i < u.len() implies i64::MIN <= (#[trigger] u[i]).1
            <= i64::MAX by {
            if i > 0 {
                assert(u[i] == upsert(rest, k, v as int, false)[i - 1]);
            }
        }
    } else if t.len() > 0 {
        let u = upsert(t, k, v as int, false);
        assert forall|i: int| 0 <= i < u.len() implies i64::MIN <= (#[trigger] u[i]).1
            <= i64::MAX by {
            if t[0].0 == k {
                if i > 0 {
                    assert(u[i] == t[i]);
                }
            } else if i > 0 {
                assert(u[i] == t[i - 1]);
            }
        }
    }
}

/// Count tables stay within the `i64` range.
proof fn lemma_count_table_fits(fc: Seq<(Seq<char>, i64)>)
    ensures
        table_fits(count_table(fc)),
    decreases fc.len(),
{
    if fc.len() > 0 {
        lemma_count_table_fits(fc.drop_last());
        lemma_upsert_replace_fits(count_table(fc.drop_last()), fc.last().0, fc.last().1);
    }
}

/// Insert `(k, v)` into the ascending table `t` (see [`upsert`]).
fn upsert_exec(t: &mut Vec<(String, i64)>, k: &str, v: i64, add: bool)
    requires
        table_fits(upsert(table_view(old(t)@), k@, v as int, add)),
    ensures
        table_view(final(t)@) == upsert(table_view(old(t)@), k@, v as int, add),
{
    let ghost t0 = table_view(t@);
    let ghost target = upsert(t0, k@, v as int, add);
    let mut i: usize = 0;
    assert(t0.skip(0) =~= t0);
    assert(t0.take(0) + t0.skip(0) =~= t0.skip(0));
    while i < t.len()
        invariant
            t0 == table_view(t@),
            t@ == old(t)@,
            target == upsert(t0, k@, v as int, add),
            table_fits(target),
            i <= t@.len(),
            target == t0.take(i as int) + upsert(t0.skip(i as int), k@, v as int, add),
        decreases t@.len() - i,
    {
        let ghost rest = t0.skip(i as int);
        assert(rest[0] == t0[i as int]);
        assert(t0[i as int] == (t@[i as int].0@, t@[i as int].1 as int));
        if str_eq(t[i].0.as_str(), k) {
            let ghost u = upsert(rest, k@, v as int, add);
            assert(target[i as int] == u[0]);
            assert(i64::MIN <= target[i as int].1 <= i64::MAX);
            let nv: i64 = if add {
                t[i].1 + v
            } else {
                v
            };
            let key = t[i].0.clone();
            t.set(i, (key, nv));
            assert(table_view(t@) =~= target) by {
                assert(rest.skip(1) =~= t0.skip(i + 1));
            }
            return ;
        }
        if str_less(k, t[i].0.as_str()) {
            let key = k.to_string();
            t.insert(i, (key, v));
            assert(table_view(t@) =~= target) by {
                assert(t0.take(i as int) + (seq![(k@, v as int)] + rest) =~= target);
            }
            return ;
        }
        assert(rest.skip(1) =~= t0.skip(i + 1));
        assert(t0.take(i + 1) =~= t0.take(i as int).push(t0[i as int]));
        assert(target =~= t0.take(i + 1) + upsert(t0.skip(i + 1), k@, v as int, add));
        i = i + 1;
    }
    let key = k.to_string();
    t.push((key, v));
    assert(t0.skip(i as int) =~= Seq::<(Seq<char>, int)>::empty());
    assert(t0.take(i as int) =~= t0);
    assert(table_view(t@) =~= target);
}

/// The per-file values a file-scope limit on `metric` checks, in ascending
/// path order.
fn per_file_values(
    metric: Metric,
    symbol_metrics: &Vec<SymbolMetrics>,
    file_complexity: &Vec<FileComplexity>,
) -> (r: Vec<(String, i64)>)
    requires
        metric != Metric::FileSymbols ==> sums_fit(metric, metrics_view(symbol_metrics@)),
    ensures
        table_view(r@) == file_table(
            metric,
            metrics_view(symbol_metrics@),
            counts_view(file_complexity@),
        ),
{
    let mut t: Vec<(String, i64)> = Vec::new();
    if metric == Metric::FileSymbols {
        let ghost fc = counts_view(file_complexity@);
        let mut i: usize = 0;
        while i < file_complexity.len()
            invariant
                fc == counts_view(file_complexity@),
                i <= fc.len(),
                table_view(t@) == count_table(fc.take(i as int)),
            decreases fc.len() - i,
        {
            let f = &file_complexity[i];
            proof {
                assert(fc.take(i + 1).drop_last() =~= fc.take(i as int));
                assert(fc[i as int] == (f.file_path@, f.symbol_count));
                lemma_count_table_fits(fc.take(i + 1));
            }
            upsert_exec(&mut t, f.file_path.as_str(), f.symbol_count, false);
            i = i + 1;
        }
        assert(fc.take(i as int) =~= fc);
    } else {
        let ghost ms = metrics_view(symbol_metrics@);
        let mut i: usize = 0;
        while i < symbol_metrics.len()
            invariant
                metric != Metric::FileSymbols,
                ms == metrics_view(symbol_metrics@),
                sums_fit(metric, ms),
                i <= ms.len(),
                table_view(t@) == sum_table(metric, ms.take(i as int)),
            decreases ms.len() - i,
        {
            let m = &symbol_metrics[i];
            let value = symbol_value(metric, m);
            proof {
                assert(ms.take(i + 1).drop_last() =~= ms.take(i as int));
                assert(ms[i as int] == m@);
                assert(table_fits(sum_table(metric, ms.take(i + 1))));
            }
            upsert_exec(&mut t, m.file_path.as_str(), value, true);
            i = i + 1;
        }
        assert(ms.take(i as int) =~= ms);
    }
    t
}

/// The value of `metric` for one symbol.
fn symbol_value(metric: Metric, m: &SymbolMetrics) -> (r: i64)
    ensures
        r == symbol_metric_value(metric, m@),
{
    match metric {
        Metric::FanIn => m.fan_in,
        Metric::FanOut => m.fan_out,
        Metric::Complexity => m.complexity,
        Metric::FileSymbols => 0,
    }
}

/// The symbol reference of a metrics row.
fn symbol_ref_of(m: &SymbolMetrics) -> (r: SymbolRef)
    ensures
        r@ == metrics_symbol(m@),
{
    SymbolRef {
        name: m.name.clone(),
        qualified_name: copy_opt(&m.qualified_name),
        kind: m.kind.clone(),
        file: m.file_path.clone(),
        line_start: m.line_start,
        line_end: m.line_end,
    }
}

/// The violation of limit rule `rule` by `subject` with `value`.
fn limit_violation(
    rule: &LimitRule,
    rule_id: String,
    subject: Endpoint,
    location: String,
    file: String,
    line: Option<i64>,
    name: Option<&str>,
    value: i64,
) -> (v: Violation)
    requires
        rule_id@ == limit_rule_id(*rule),
    ensures
        v@ == limit_violation_view(
            *rule,
            subject@,
            location@,
            file@,
            line,
            match name {
                Some(n) => Some(n@),
                None => None,
            },
            value,
        ),
{
    let mut what = location;
    match name {
        Some(n) => {
            push_str(&mut what, " (");
            push_str(&mut what, n);
            push_str(&mut what, ")");
        },
        None => {},
    }
    let mut reason = String::new();
    push_str(&mut reason, rule.metric.as_str());
    push_str(&mut reason, " ");
    let vt = i64_text(value);
    push_chars(&mut reason, vt.as_slice());
    push_str(&mut reason, " exceeds max ");
    let mt = i64_text(rule.max);
    push_chars(&mut reason, mt.as_slice());
    let mut message = what;
    push_str(&mut message, ": ");
    push_str(&mut message, reason.as_str());
    assert(message@ =~= what@ + ": "@ + reason@);
    Violation {
        rule: RuleKind::Limit,
        rule_id,
        reason,
        message,
        file,
        line,
        from: None,
        to: None,
        subject: Some(subject),
        metric: Some(rule.metric),
        scope: Some(rule.scope),
        value: Some(value),
        max: Some(rule.max),
    }
}

/// Metric thresholds over symbols or files.
pub fn eval_limits(
    compiled: &CompiledRules,
    symbol_metrics: &Vec<SymbolMetrics>,
    file_complexity: &Vec<FileComplexity>,
) -> (r: Vec<Violation>)
    requires
        compiled.wf(),
        limit_sums_fit(compiled.source().rules.limit@, metrics_view(symbol_metrics@)),
    ensures
        violations_view(r@) == limit_violations(
            compiled.source().rules.limit@,
            metrics_view(symbol_metrics@),
            counts_view(file_complexity@),
        ),
{
    let ghost rules = compiled.source().rules.limit@;
    let ghost ms = metrics_view(symbol_metrics@);
    let ghost fc = counts_view(file_complexity@);
    let mut out: Vec<Violation> = Vec::new();
    let mut i: usize = 0;
    while i < compiled.file.rules.limit.len()
        invariant
            compiled.wf(),
            rules == compiled.source().rules.limit@,
            rules == compiled.file.rules.limit@,
            ms == metrics_view(symbol_metrics@),
            fc == counts_view(file_complexity@),
            limit_sums_fit(rules, ms),
            i <= rules.len(),
            violations_view(out@) == limit_violations(rules.take(i as int), ms, fc),
        decreases rules.len() - i,
    {
        let rule = &compiled.file.rules.limit[i];
        let exclude = compiled.limit_exclude(i);
        let mut rule_id = String::new();
        push_str(&mut rule_id, "limit: ");
        push_str(&mut rule_id, rule.metric.as_str());
        push_str(&mut rule_id, " <= ");
        let mt = i64_text(rule.max);
        push_chars(&mut rule_id, mt.as_slice());
        push_str(&mut rule_id, " (");
        push_str(&mut rule_id, rule.scope.as_str());
        push_str(&mut rule_id, ")");
        let ghost base = violations_view(out@);
        match rule.scope {
            Scope::Symbol => {
                let mut j: usize = 0;
                while j < symbol_metrics.len()
                    invariant
                        ms == metrics_view(symbol_metrics@),
                        *rule == rules[i as int],
                        rule.scope == Scope::Symbol,
                        set_patterns(*exclude) == strs(rule.exclude@),
                        rule_id@ == limit_rule_id(*rule),
                        j <= ms.len(),
                        violations_view(out@) == base + symbol_limit_violations(
                            *rule,
                            ms.take(j as int),
                        ),
                    decreases ms.len() - j,
                {
                    let m = &symbol_metrics[j];
                    assert(ms.take(j + 1).drop_last() =~= ms.take(j as int));
                    assert(ms[j as int] == m@);
                    if !set_matches(exclude, m.file_path.as_str()) {
                        let value = symbol_value(rule.metric, m);
                        if value > rule.max {
                            let mut location = m.file_path.clone();
                            push_str(&mut location, ":");
                            let lt = i64_text(m.line_start);
                            push_chars(&mut location, lt.as_slice());
                            let ghost before = violations_view(out@);
                            let v = limit_violation(
                                rule,
                                rule_id.clone(),
                                Endpoint::Symbol(symbol_ref_of(m)),
                                location,
                                m.file_path.clone(),
                                Some(m.line_start),
                                Some(m.name.as_str()),
                                value,
                            );
                            out.push(v);
                            assert(violations_view(out@) =~= before.push(v@));
                        }
                    }
                    j = j + 1;
                }
                assert(ms.take(j as int) =~= ms);
            },
            Scope::File => {
                proof {
                    assert(rules[i as int] == *rule);
                }
                let per_file = per_file_values(rule.metric, symbol_metrics, file_complexity);
                let ghost t = table_view(per_file@);
                let mut j: usize = 0;
                while j < per_file.len()
                    invariant
                        t == table_view(per_file@),
                        *rule == rules[i as int],
                        set_patterns(*exclude) == strs(rule.exclude@),
                        rule_id@ == limit_rule_id(*rule),
                        j <= t.len(),
                        violations_view(out@) == base + file_limit_violations(
                            *rule,
                            t.take(j as int),
                        ),
                    decreases t.len() - j,
                {
                    let entry = &per_file[j];
                    assert(t.take(j + 1).drop_last() =~= t.take(j as int));
                    assert(t[j as int] == (entry.0@, entry.1 as int));
                    if !set_matches(exclude, entry.0.as_str()) && entry.1 > rule.max {
                        let ghost before = violations_view(out@);
                        let v = limit_violation(
                            rule,
                            rule_id.clone(),
                            Endpoint::File { file: entry.0.clone() },
                            entry.0.clone(),
                            entry.0.clone(),
                            None,
                            None,
                            entry.1,
                        );
                        out.push(v);
                        assert(violations_view(out@) =~= before.push(v@));
                    }
                    j = j + 1;
                }
                assert(t.take(j as int) =~= t);
            },
        }
        assert(rules.take(i + 1).drop_last() =~= rules.take(i as int));
        i = i + 1;
    }
    assert(rules.take(i as int) =~= rules);
    out
}


// ---------------------------------------------------------------------------
// Evaluation
// ---------------------------------------------------------------------------

/// Whether a violation is kept under change set `changed`: frozen-path
/// violations already applied their own filter; others are kept when one of
/// their files changed.
pub open spec fn kept_under(v: ViolationView, changed: Seq<Seq<char>>) -> bool {
    v.rule == RuleKind::NoNewDependents || exists|i: int|
        0 <= i < endpoint_files(v).len() && changed.contains(#[trigger] endpoint_files(v)[i])
}

/// The violations kept under change set `changed`, in order.
pub open spec fn keep_changed(vs: Seq<ViolationView>, changed: Seq<Seq<char>>) -> Seq<
    ViolationView,
>
    decreases vs.len(),
{
    if vs.len() == 0 {
        seq![]
    } else {
        let prev = keep_changed(vs.drop_last(), changed);
        if kept_under(vs.last(), changed) {
            prev.push(vs.last())
        } else {
            prev
        }
    }
}

/// All violations of `file`: forbidden, allowed-dependents, limit and
/// frozen-path rules in that order; with a change set, filtered by it.
pub open spec fn evaluation(
    file: RulesFile,
    deps: Seq<FileDepView>,
    ms: Seq<SymbolMetricsView>,
    fc: Seq<(Seq<char>, i64)>,
    changed: Option<Seq<Seq<char>>>,
) -> Seq<ViolationView> {
    let table = layer_table(file.layers@);
    let all = forbidden_violations(table, file.rules.forbidden@, deps) + allowed_violations(
        table,
        file.rules.allowed_dependents@,
        deps,
    ) + limit_violations(file.rules.limit@, ms, fc) + frozen_violations(
        file.rules.no_new_dependents@,
        changed,
        deps,
    );
    match changed {
        Some(c) => keep_changed(all, c),
        None => all,
    }
}

/// Whether violation `v` is kept under change set `changed`.
fn is_kept(v: &Violation, changed: &Vec<String>) -> (r: bool)
    ensures
        r == kept_under(v@, strs(changed@)),
{
    if v.rule == RuleKind::NoNewDependents {
        return true;
    }
    let files = v.endpoint_files();
    let ghost fs = files@.map_values(|f: &str| f@);
    let mut i: usize = 0;
    while i < files.len()
        invariant
            fs == files@.map_values(|f: &str| f@),
            fs == endpoint_files(v@),
            v.rule != RuleKind::NoNewDependents,
            i <= fs.len(),
            forall|k: int| 0 <= k < i ==> !strs(changed@).contains(#[trigger] fs[k]),
        decreases fs.len() - i,
    {
        if contains_str(changed, files[i]) {
            assert(strs(changed@).contains(fs[i as int]));
            return true;
        }
        i = i + 1;
    }
    false
}

/// Evaluate all rules and return the violations.
///
/// `changed` is a change set. When present it filters the result:
/// frozen-path rules only count dependencies whose source file changed
/// (what "new dependent" means); every other violation is kept when at least
/// one of its files is in the change set. Without a change set everything is
/// reported.
pub fn evaluate(
    compiled: &CompiledRules,
    deps: &Vec<FileDep>,
    symbol_metrics: &Vec<SymbolMetrics>,
    file_complexity: &Vec<FileComplexity>,
    changed: Option<&Vec<String>>,
) -> (r: Vec<Violation>)
    requires
        compiled.wf(),
        limit_sums_fit(compiled.source().rules.limit@, metrics_view(symbol_metrics@)),
    ensures
        violations_view(r@) == evaluation(
            compiled.source(),
            deps_view(deps@),
            metrics_view(symbol_metrics@),
            counts_view(file_complexity@),
            changed_view(changed),
        ),
{
    let mut violations = eval_forbidden(compiled, deps);
    let mut allowed = eval_allowed_dependents(compiled, deps);
    let mut limits = eval_limits(compiled, symbol_metrics, file_complexity);
    let mut frozen = eval_no_new_dependents(compiled, deps, changed);
    let ghost (a, b, c, d) = (violations@, allowed@, limits@, frozen@);
    violations.append(&mut allowed);
    violations.append(&mut limits);
    violations.append(&mut frozen);
    assert(violations@ == a + b + c + d);
    assert(violations_view(violations@) =~= violations_view(a) + violations_view(b)
        + violations_view(c) + violations_view(d));
    match changed {
        None => violations,
        Some(ch) => {
            let ghost all = violations@;
            let ghost cv = strs(ch@);
            let mut kept: Vec<Violation> = Vec::new();
            for v in it: violations.into_iter()
                invariant
                    all == it.seq(),
                    cv == strs(ch@),
                    violations_view(kept@) == keep_changed(
                        violations_view(it.seq().take(it.index() as int)),
                        cv,
                    ),
            {
                let ghost idx = it.index() as int;
                assert(violations_view(all.take(idx + 1)).drop_last() =~= violations_view(
                    all.take(idx),
                ));
                assert(all[idx] == v);
                if is_kept(&v, ch) {
                    let ghost before = violations_view(kept@);
                    let ghost vv = v@;
                    kept.push(v);
                    assert(violations_view(kept@) =~= before.push(vv));
                }
            }
            assert(all.take(all.len() as int) =~= all);
            kept
        },
    }
}


// ---------------------------------------------------------------------------
// Laws
// ---------------------------------------------------------------------------

/// When the first error of a list is absent, every outcome is a success.
pub proof fn lemma_first_error_none(errs: Seq<Option<Seq<char>>>, k: int)
    requires
        first_error(errs) is None,
        0 <= k < errs.len(),
    ensures
        errs[k] is None,
    decreases k,
{
    if k > 0 {
        lemma_first_error_none(errs.skip(1), k - 1);
        assert(errs.skip(1)[k - 1] == errs[k]);
    }
}

/// Rules that validate against a set of indexed files put each of those
/// files in at most one layer, so the layer a file belongs to is
/// unambiguous.
pub proof fn law_validated_files_have_at_most_one_layer(
    file: RulesFile,
    indexed: Seq<Seq<char>>,
    i: int,
)
    requires
        validation_error(file, indexed) is None,
        0 <= i < indexed.len(),
    ensures
        layers_matching(layer_table(file.layers@), indexed[i]).len() <= 1,
{
    let table = layer_table(file.layers@);
    lemma_first_error_none(overlap_errors(table, indexed), i);
    assert(overlap_errors(table, indexed)[i] == overlap_error(table, indexed[i]));
}

proof fn lemma_forbidden_rule_kinds(
    table: Seq<(Seq<char>, Seq<Seq<char>>)>,
    r: ForbiddenRule,
    deps: Seq<FileDepView>,
)
    ensures
        forall|k: int|
            0 <= k < forbidden_rule_violations(table, r, deps).len() ==> (
            #[trigger] forbidden_rule_violations(table, r, deps)[k]).rule == RuleKind::Forbidden,
    decreases deps.len(),
{
    if deps.len() > 0 {
        lemma_forbidden_rule_kinds(table, r, deps.drop_last());
    }
}

proof fn lemma_forbidden_kinds(
    table: Seq<(Seq<char>, Seq<Seq<char>>)>,
    rules: Seq<ForbiddenRule>,
    deps: Seq<FileDepView>,
)
    ensures
        forall|k: int|
            0 <= k < forbidden_violations(table, rules, deps).len() ==> (
            #[trigger] forbidden_violations(table, rules, deps)[k]).rule == RuleKind::Forbidden,
    decreases rules.len(),
{
    if rules.len() > 0 {
        lemma_forbidden_kinds(table, rules.drop_last(), deps);
        lemma_forbidden_rule_kinds(table, rules.last(), deps);
        let a = forbidden_violations(table, rules.drop_last(), deps);
        let b = forbidden_rule_violations(table, rules.last(), deps);
        assert forall|k: int| 0 <= k < (a + b).len() implies (#[trigger] (a + b)[k]).rule
            == RuleKind::Forbidden by {
            if k >= a.len() {
                assert((a + b)[k] == b[k - a.len()]);
            }
        }
    }
}

proof fn lemma_allowed_rule_kinds(
    table: Seq<(Seq<char>, Seq<Seq<char>>)>,
    r: AllowedDependentsRule,
    deps: Seq<FileDepView>,
)
    ensures
        forall|k: int|
            0 <= k < allowed_rule_violations(table, r, deps).len() ==> (
            #[trigger] allowed_rule_violations(table, r, deps)[k]).rule
                == RuleKind::AllowedDependents,
    decreases deps.len(),
{
    if deps.len() > 0 {
        lemma_allowed_rule_kinds(table, r, deps.drop_last());
    }
}

proof fn lemma_allowed_kinds(
    table: Seq<(Seq<char>, Seq<Seq<char>>)>,
    rules: Seq<AllowedDependentsRule>,
    deps: Seq<FileDepView>,
)
    ensures
        forall|k: int|
            0 <= k < allowed_violations(table, rules, deps).len() ==> (
            #[trigger] allowed_violations(table, rules, deps)[k]).rule
                == RuleKind::AllowedDependents,
    decreases rules.len(),
{
    if rules.len() > 0 {
        lemma_allowed_kinds(table, rules.drop_last(), deps);
        lemma_allowed_rule_kinds(table, rules.last(), deps);
        let a = allowed_violations(table, rules.drop_last(), deps);
        let b = allowed_rule_violations(table, rules.last(), deps);
        assert forall|k: int| 0 <= k < (a + b).len() implies (#[trigger] (a + b)[k]).rule
            == RuleKind::AllowedDependents by {
            if k >= a.len() {
                assert((a + b)[k] == b[k - a.len()]);
            }
        }
    }
}

proof fn lemma_symbol_limit_kinds(r: LimitRule, ms: Seq<SymbolMetricsView>)
    ensures
        forall|k: int|
            0 <= k < symbol_limit_violations(r, ms).len() ==> (#[trigger] symbol_limit_violations(
                r,
                ms,
            )[k]).rule == RuleKind::Limit,
    decreases ms.len(),
{
    if ms.len() > 0 {
        lemma_symbol_limit_kinds(r, ms.drop_last());
    }
}

proof fn lemma_file_limit_kinds(r: LimitRule, t: Seq<(Seq<char>, int)>)
    ensures
        forall|k: int|
            0 <= k < file_limit_violations(r, t).len() ==> (#[trigger] file_limit_violations(
                r,
                t,
            )[k]).rule == RuleKind::Limit,
    decreases t.len(),
{
    if t.len() > 0 {
        lemma_file_limit_kinds(r, t.drop_last());
    }
}

proof fn lemma_limit_kinds(
    rules: Seq<LimitRule>,
    ms: Seq<SymbolMetricsView>,
    fc: Seq<(Seq<char>, i64)>,
)
    ensures
        forall|k: int|
            0 <= k < limit_violations(rules, ms, fc).len() ==> (#[trigger] limit_violations(
                rules,
                ms,
                fc,
            )[k]).rule == RuleKind::Limit,
    decreases rules.len(),
{
    if rules.len() > 0 {
        let r = rules.last();
        lemma_limit_kinds(rules.drop_last(), ms, fc);
        lemma_symbol_limit_kinds(r, ms);
        lemma_file_limit_kinds(r, file_table(r.metric, ms, fc));
        let a = limit_violations(rules.drop_last(), ms, fc);
        let b = limit_rule_violations(r, ms, fc);
        assert forall|k: int| 0 <= k < (a + b).len() implies (#[trigger] (a + b)[k]).rule
            == RuleKind::Limit by {
            if k >= a.len() {
                assert((a + b)[k] == b[k - a.len()]);
            }
        }
    }
}

proof fn lemma_frozen_rule_changed(
    r: NoNewDependentsRule,
    c: Seq<Seq<char>>,
    deps: Seq<FileDepView>,
)
    ensures
        forall|k: int|
            0 <= k < frozen_rule_violations(r, Some(c), deps).len() ==> c.contains(
                (#[trigger] frozen_rule_violations(r, Some(c), deps)[k]).file,
            ),
    decreases deps.len(),
{
    if deps.len() > 0 {
        lemma_frozen_rule_changed(r, c, deps.drop_last());
    }
}

proof fn lemma_frozen_changed(
    rules: Seq<NoNewDependentsRule>,
    c: Seq<Seq<char>>,
    deps: Seq<FileDepView>,
)
    ensures
        forall|k: int|
            0 <= k < frozen_violations(rules, Some(c), deps).len() ==> c.contains(
                (#[trigger] frozen_violations(rules, Some(c), deps)[k]).file,
            ),
    decreases rules.len(),
{
    if rules.len() > 0 {
        lemma_frozen_changed(rules.drop_last(), c, deps);
        lemma_frozen_rule_changed(rules.last(), c, deps);
        let a = frozen_violations(rules.drop_last(), Some(c), deps);
        let b = frozen_rule_violations(rules.last(), Some(c), deps);
        assert forall|k: int| 0 <= k < (a + b).len() implies c.contains((#[trigger] (a + b)[k]).file) by {
            if k >= a.len() {
                assert((a + b)[k] == b[k - a.len()]);
            }
        }
    }
}

proof fn lemma_keep_changed(vs: Seq<ViolationView>, c: Seq<Seq<char>>)
    ensures
        forall|k: int|
            0 <= k < keep_changed(vs, c).len() ==> kept_under(
                #[trigger] keep_changed(vs, c)[k],
                c,
            ) && exists|j: int| 0 <= j < vs.len() && vs[j] == keep_changed(vs, c)[k],
    decreases vs.len(),
{
    if vs.len() > 0 {
        let prev = keep_changed(vs.drop_last(), c);
        lemma_keep_changed(vs.drop_last(), c);
        assert forall|k: int| 0 <= k < keep_changed(vs, c).len() implies kept_under(
            #[trigger] keep_changed(vs, c)[k],
            c,
        ) && exists|j: int| 0 <= j < vs.len() && vs[j] == keep_changed(vs, c)[k] by {
            if k < prev.len() {
                assert(keep_changed(vs, c)[k] == prev[k]);
                let j = choose|j: int| 0 <= j < vs.drop_last().len() && vs.drop_last()[j] == prev[k];
                assert(vs[j] == vs.drop_last()[j]);
            } else {
                assert(keep_changed(vs, c)[k] == vs.last());
                assert(vs[vs.len() - 1] == vs.last());
            }
        }
    }
}

/// Whether one of the files a violation refers to is in `changed`.
pub open spec fn touches(v: ViolationView, changed: Seq<Seq<char>>) -> bool {
    exists|i: int| 0 <= i < endpoint_files(v).len() && changed.contains(#[trigger] endpoint_files(v)[i])
}

/// With a change set, every reported violation refers to a changed file:
/// frozen-path violations through their (changed) source file, all others
/// through at least one of their files.
pub proof fn law_change_set_violations_touch_changed_files(
    file: RulesFile,
    deps: Seq<FileDepView>,
    ms: Seq<SymbolMetricsView>,
    fc: Seq<(Seq<char>, i64)>,
    changed: Seq<Seq<char>>,
)
    ensures
        forall|k: int|
            0 <= k < evaluation(file, deps, ms, fc, Some(changed)).len() ==> touches(
                #[trigger] evaluation(file, deps, ms, fc, Some(changed))[k],
                changed,
            ),
{
    let table = layer_table(file.layers@);
    let a = forbidden_violations(table, file.rules.forbidden@, deps);
    let b = allowed_violations(table, file.rules.allowed_dependents@, deps);
    let l = limit_violations(file.rules.limit@, ms, fc);
    let d = frozen_violations(file.rules.no_new_dependents@, Some(changed), deps);
    let all = a + b + l + d;
    let ev = evaluation(file, deps, ms, fc, Some(changed));
    assert(ev == keep_changed(all, changed));
    lemma_forbidden_kinds(table, file.rules.forbidden@, deps);
    lemma_allowed_kinds(table, file.rules.allowed_dependents@, deps);
    lemma_limit_kinds(file.rules.limit@, ms, fc);
    lemma_frozen_changed(file.rules.no_new_dependents@, changed, deps);
    lemma_keep_changed(all, changed);
    assert forall|k: int| 0 <= k < ev.len() implies touches(#[trigger] ev[k], changed) by {
        let v = ev[k];
        assert(kept_under(v, changed));
        if v.rule == RuleKind::NoNewDependents {
            let j = choose|j: int| 0 <= j < all.len() && all[j] == v;
            if j < a.len() {
                assert(all[j] == a[j]);
            } else if j < a.len() + b.len() {
                assert(all[j] == b[j - a.len()]);
            } else if j < a.len() + b.len() + l.len() {
                assert(all[j] == l[j - a.len() - b.len()]);
            } else {
                assert(all[j] == d[j - a.len() - b.len() - l.len()]);
                assert(changed.contains(v.file));
                assert(endpoint_files(v)[0] == v.file);
            }
        }
    }
}

/// The violations of rules other than frozen paths, in order.
pub open spec fn non_frozen(vs: Seq<ViolationView>) -> Seq<ViolationView>
    decreases vs.len(),
{
    if vs.len() == 0 {
        seq![]
    } else {
        non_frozen(vs.drop_last()) + if vs.last().rule != RuleKind::NoNewDependents {
            seq![vs.last()]
        } else {
            seq![]
        }
    }
}

/// The violations of rules other than frozen paths that refer to a file
/// of `changed`, in order.
pub open spec fn touching_non_frozen(vs: Seq<ViolationView>, changed: Seq<Seq<char>>) -> Seq<
    ViolationView,
>
    decreases vs.len(),
{
    if vs.len() == 0 {
        seq![]
    } else {
        touching_non_frozen(vs.drop_last(), changed) + if vs.last().rule
            != RuleKind::NoNewDependents && touches(vs.last(), changed) {
            seq![vs.last()]
        } else {
            seq![]
        }
    }
}

proof fn lemma_non_frozen_kept(vs: Seq<ViolationView>, c: Seq<Seq<char>>)
    ensures
        non_frozen(keep_changed(vs, c)) == touching_non_frozen(vs, c),
    decreases vs.len(),
{
    if vs.len() > 0 {
        lemma_non_frozen_kept(vs.drop_last(), c);
        let prev = keep_changed(vs.drop_last(), c);
        if kept_under(vs.last(), c) {
            assert(prev.push(vs.last()).drop_last() =~= prev);
        }
    }
}

proof fn lemma_touching_append(s: Seq<ViolationView>, t: Seq<ViolationView>, c: Seq<Seq<char>>)
    ensures
        touching_non_frozen(s + t, c) == touching_non_frozen(s, c) + touching_non_frozen(t, c),
    decreases t.len(),
{
    if t.len() == 0 {
        assert(s + t =~= s);
    } else {
        lemma_touching_append(s, t.drop_last(), c);
        assert((s + t).drop_last() =~= s + t.drop_last());
        assert((s + t).last() == t.last());
    }
}

proof fn lemma_touching_frozen_only(vs: Seq<ViolationView>, c: Seq<Seq<char>>)
    requires
        forall|k: int| 0 <= k < vs.len() ==> (#[trigger] vs[k]).rule == RuleKind::NoNewDependents,
    ensures
        touching_non_frozen(vs, c) == Seq::<ViolationView>::empty(),
    decreases vs.len(),
{
    if vs.len() > 0 {
        assert(vs.last() == vs[vs.len() - 1]);
        assert forall|k: int| 0 <= k < vs.drop_last().len() implies (#[trigger] vs.drop_last()[k]).rule
            == RuleKind::NoNewDependents by {
            assert(vs.drop_last()[k] == vs[k]);
        }
        lemma_touching_frozen_only(vs.drop_last(), c);
    }
}

proof fn lemma_frozen_rule_kinds(
    r: NoNewDependentsRule,
    changed: Option<Seq<Seq<char>>>,
    deps: Seq<FileDepView>,
)
    ensures
        forall|k: int|
            0 <= k < frozen_rule_violations(r, changed, deps).len() ==> (
            #[trigger] frozen_rule_violations(r, changed, deps)[k]).rule == RuleKind::NoNewDependents,
    decreases deps.len(),
{
    if deps.len() > 0 {
        lemma_frozen_rule_kinds(r, changed, deps.drop_last());
    }
}

proof fn lemma_frozen_kinds(
    rules: Seq<NoNewDependentsRule>,
    changed: Option<Seq<Seq<char>>>,
    deps: Seq<FileDepView>,
)
    ensures
        forall|k: int|
            0 <= k < frozen_violations(rules, changed, deps).len() ==> (
            #[trigger] frozen_violations(rules, changed, deps)[k]).rule == RuleKind::NoNewDependents,
    decreases rules.len(),
{
    if rules.len() > 0 {
        lemma_frozen_kinds(rules.drop_last(), changed, deps);
        lemma_frozen_rule_kinds(rules.last(), changed, deps);
        let a = frozen_violations(rules.drop_last(), changed, deps);
        let b = frozen_rule_violations(rules.last(), changed, deps);
        assert forall|k: int| 0 <= k < (a + b).len() implies (#[trigger] (a + b)[k]).rule
            == RuleKind::NoNewDependents by {
            if k >= a.len() {
                assert((a + b)[k] == b[k - a.len()]);
            }
        }
    }
}

/// With a change set, evaluation keeps exactly the violations of the
/// other rules that refer to a changed file, in the order of the full
/// evaluation; its frozen-path violations come from changed files.
pub proof fn law_change_set_keeps_exactly_the_touching_violations(
    file: RulesFile,
    deps: Seq<FileDepView>,
    ms: Seq<SymbolMetricsView>,
    fc: Seq<(Seq<char>, i64)>,
    changed: Seq<Seq<char>>,
)
    ensures
        non_frozen(evaluation(file, deps, ms, fc, Some(changed))) == touching_non_frozen(
            evaluation(file, deps, ms, fc, None),
            changed,
        ),
        forall|k: int|
            0 <= k < evaluation(file, deps, ms, fc, Some(changed)).len() && (
            #[trigger] evaluation(file, deps, ms, fc, Some(changed))[k]).rule
                == RuleKind::NoNewDependents ==> changed.contains(
                evaluation(file, deps, ms, fc, Some(changed))[k].file,
            ),
{
    let table = layer_table(file.layers@);
    let abl = forbidden_violations(table, file.rules.forbidden@, deps) + allowed_violations(
        table,
        file.rules.allowed_dependents@,
        deps,
    ) + limit_violations(file.rules.limit@, ms, fc);
    let fr = file.rules.no_new_dependents@;
    let d_some = frozen_violations(fr, Some(changed), deps);
    let d_none = frozen_violations(fr, None, deps);
    let ev = evaluation(file, deps, ms, fc, Some(changed));
    assert(ev == keep_changed(abl + d_some, changed));
    assert(evaluation(file, deps, ms, fc, None) == abl + d_none);
    lemma_non_frozen_kept(abl + d_some, changed);
    lemma_touching_append(abl, d_some, changed);
    lemma_touching_append(abl, d_none, changed);
    lemma_frozen_kinds(fr, Some(changed), deps);
    lemma_frozen_kinds(fr, None, deps);
    lemma_touching_frozen_only(d_some, changed);
    lemma_touching_frozen_only(d_none, changed);
    assert(touching_non_frozen(abl, changed) + Seq::<ViolationView>::empty() =~= touching_non_frozen(
        abl,
        changed,
    ));
    // The frozen-path violations kept come from changed files.
    lemma_keep_changed(abl + d_some, changed);
    lemma_frozen_changed(fr, changed, deps);
    lemma_forbidden_kinds(table, file.rules.forbidden@, deps);
    lemma_allowed_kinds(table, file.rules.allowed_dependents@, deps);
    lemma_limit_kinds(file.rules.limit@, ms, fc);
    let a = forbidden_violations(table, file.rules.forbidden@, deps);
    let b = allowed_violations(table, file.rules.allowed_dependents@, deps);
    let l = limit_violations(file.rules.limit@, ms, fc);
    let all = abl + d_some;
    assert forall|k: int| 0 <= k < ev.len() && (#[trigger] ev[k]).rule == RuleKind::NoNewDependents implies changed.contains(ev[k].file) by {
        let v = ev[k];
        let j = choose|j: int| 0 <= j < all.len() && all[j] == v;
        if j < a.len() {
            assert(all[j] == a[j]);
        } else if j < a.len() + b.len() {
            assert(all[j] == b[j - a.len()]);
        } else if j < a.len() + b.len() + l.len() {
            assert(all[j] == l[j - a.len() - b.len()]);
        } else {
            assert(all[j] == d_some[j - a.len() - b.len() - l.len()]);
        }
    }
}

/// Every violation of an allowed-dependents rule is a dependency into the
/// rule's layer from a file that belongs to a layer other than that layer
/// and those listed as allowed: unlayered files and the layer itself are
/// never reported.
pub proof fn law_allowed_dependents_offenders(
    table: Seq<(Seq<char>, Seq<Seq<char>>)>,
    r: AllowedDependentsRule,
    deps: Seq<FileDepView>,
)
    ensures
        forall|k: int|
            0 <= k < allowed_rule_violations(table, r, deps).len() ==> {
                let v = #[trigger] allowed_rule_violations(table, r, deps)[k];
                &&& v.from is Some
                &&& v.to is Some
                &&& layer_of_path(table, endpoint_file(v.to->0)) == Some(r.layer@)
                &&& layer_of_path(table, endpoint_file(v.from->0)) is Some
                &&& layer_of_path(table, endpoint_file(v.from->0))->0 != r.layer@
                &&& !strs(r.only@).contains(layer_of_path(table, endpoint_file(v.from->0))->0)
            },
    decreases deps.len(),
{
    if deps.len() > 0 {
        law_allowed_dependents_offenders(table, r, deps.drop_last());
    }
}

/// Every violation of a forbidden rule is a dependency from a file of the
/// rule's `from` layer into a file of its `to` layer.
pub proof fn law_forbidden_violations_cross_the_layers(
    table: Seq<(Seq<char>, Seq<Seq<char>>)>,
    r: ForbiddenRule,
    deps: Seq<FileDepView>,
)
    ensures
        forall|k: int|
            0 <= k < forbidden_rule_violations(table, r, deps).len() ==> {
                let v = #[trigger] forbidden_rule_violations(table, r, deps)[k];
                &&& v.from is Some
                &&& v.to is Some
                &&& layer_of_path(table, endpoint_file(v.from->0)) == Some(r.from@)
                &&& layer_of_path(table, endpoint_file(v.to->0)) == Some(r.to@)
            },
    decreases deps.len(),
{
    if deps.len() > 0 {
        law_forbidden_violations_cross_the_layers(table, r, deps.drop_last());
    }
}

/// Every violation of a symbol-scope limit rule reports a value above the
/// rule's maximum, for a symbol outside the excluded paths.
pub proof fn law_symbol_limit_violations_exceed_max(r: LimitRule, ms: Seq<SymbolMetricsView>)
    ensures
        forall|k: int|
            0 <= k < symbol_limit_violations(r, ms).len() ==> {
                let v = #[trigger] symbol_limit_violations(r, ms)[k];
                &&& v.value is Some
                &&& v.value->0 > r.max
                &&& v.max == Some(r.max)
                &&& !any_glob_matches(strs(r.exclude@), v.file)
            },
    decreases ms.len(),
{
    if ms.len() > 0 {
        law_symbol_limit_violations_exceed_max(r, ms.drop_last());
    }
}

/// Every violation of a file-scope limit rule over per-file values that fit
/// in an `i64` reports a value above the rule's maximum, for a file outside
/// the excluded paths.
pub proof fn law_file_limit_violations_exceed_max(r: LimitRule, t: Seq<(Seq<char>, int)>)
    requires
        table_fits(t),
    ensures
        forall|k: int|
            0 <= k < file_limit_violations(r, t).len() ==> {
                let v = #[trigger] file_limit_violations(r, t)[k];
                &&& v.value is Some
                &&& v.value->0 > r.max
                &&& v.max == Some(r.max)
                &&& !any_glob_matches(strs(r.exclude@), v.file)
            },
    decreases t.len(),
{
    if t.len() > 0 {
        assert(table_fits(t.drop_last())) by {
            assert forall|i: int| 0 <= i < t.drop_last().len() implies i64::MIN <= (
            #[trigger] t.drop_last()[i]).1 <= i64::MAX by {
                assert(t.drop_last()[i] == t[i]);
            }
        }
        law_file_limit_violations_exceed_max(r, t.drop_last());
        assert(t.last() == t[t.len() - 1]);
    }
}

/// Whether `name` is the name of a declared layer of `file`.
pub open spec fn declares_layer(file: RulesFile, name: Seq<char>) -> bool {
    exists|k: int| 0 <= k < file.layers@.len() && (#[trigger] file.layers@[k]).0@ == name
}

proof fn lemma_known_name(file: RulesFile, name: Seq<char>)
    requires
        layer_names(layer_table(file.layers@)).contains(name),
    ensures
        declares_layer(file, name),
{
    let names = layer_names(layer_table(file.layers@));
    let k = choose|k: int| 0 <= k < names.len() && names[k] == name;
    assert(names[k] == file.layers@[k].0@);
}

/// A rules file passes validation only when every layer its rules name is
/// declared: both ends of each forbidden rule, and the layer and every
/// allowed dependent of each allowed-dependents rule.
pub proof fn law_valid_rules_name_declared_layers(file: RulesFile, indexed: Seq<Seq<char>>)
    requires
        validation_error(file, indexed) is None,
    ensures
        forall|i: int|
            0 <= i < file.rules.forbidden@.len() ==> declares_layer(
                file,
                (#[trigger] file.rules.forbidden@[i]).from@,
            ) && declares_layer(file, file.rules.forbidden@[i].to@),
        forall|i: int|
            0 <= i < file.rules.allowed_dependents@.len() ==> declares_layer(
                file,
                (#[trigger] file.rules.allowed_dependents@[i]).layer@,
            ),
        forall|i: int, j: int|
            0 <= i < file.rules.allowed_dependents@.len() && 0 <= j
                < file.rules.allowed_dependents@[i].only@.len() ==> declares_layer(
                file,
                (#[trigger] file.rules.allowed_dependents@[i].only@[j])@,
            ),
{
    let table = layer_table(file.layers@);
    let names = layer_names(table);
    let ferrs = forbidden_errors(names, file.rules.forbidden@);
    let aerrs = allowed_errors(names, file.rules.allowed_dependents@);
    assert(first_error(ferrs) is None);
    assert(first_error(aerrs) is None);
    assert forall|i: int| 0 <= i < file.rules.forbidden@.len() implies declares_layer(
        file,
        (#[trigger] file.rules.forbidden@[i]).from@,
    ) && declares_layer(file, file.rules.forbidden@[i].to@) by {
        let r = file.rules.forbidden@[i];
        lemma_first_error_none(ferrs, i);
        assert(ferrs[i] is None);
        assert(forbidden_rule_error(names, r) is None);
        lemma_known_name(file, r.from@);
        lemma_known_name(file, r.to@);
    }
    assert forall|i: int| 0 <= i < file.rules.allowed_dependents@.len() implies declares_layer(
        file,
        (#[trigger] file.rules.allowed_dependents@[i]).layer@,
    ) by {
        let r = file.rules.allowed_dependents@[i];
        lemma_first_error_none(aerrs, i);
        assert(aerrs[i] is None);
        lemma_known_name(file, r.layer@);
    }
    assert forall|i: int, j: int|
        0 <= i < file.rules.allowed_dependents@.len() && 0 <= j
            < file.rules.allowed_dependents@[i].only@.len() implies declares_layer(
        file,
        (#[trigger] file.rules.allowed_dependents@[i].only@[j])@,
    ) by {
        let r = file.rules.allowed_dependents@[i];
        lemma_first_error_none(aerrs, i);
        assert(aerrs[i] is None);
        assert(allowed_rule_error(names, r) is None);
        let oe = only_errors(names, strs(r.only@));
        lemma_first_error_none(oe, j);
        assert(oe[j] is None);
        assert(strs(r.only@)[j] == r.only@[j]@);
        lemma_known_name(file, r.only@[j]@);
    }
}

} // verus!
