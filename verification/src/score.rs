//! Quality scorecard for the changes between a reference and the working
//! tree: per-side complexity metrics, their deltas, and `--fail-on` gates.
//!
//! Per-function complexity is `2 * fan_out + same_file_fan_in`; fan-in is
//! counted over same-file callers on both sides so deltas compare like with
//! like.

use vstd::prelude::*;

use crate::error::CtxError;
use crate::model::{is_callable_kind, EdgeKind, ParseResult, Symbol, SymbolKind};

use crate::text::{
    chars_of, debug_render, debug_str, find_char_from, find_sub, find_sub_from, i64_text, index_of,
    int_text, lemma_index_of, parse_i64, parse_i64_spec, push_chars, push_str, slice_range,
    split_char, str_eq, string_from, trim, trim_range, after_last, after_last_exec, chars_eq,
};
use crate::text::{
    is_digit, is_ws, lemma_find_sub_absent, lemma_find_sub_first, lemma_index_of_absent,
    lemma_index_of_first, lemma_parse_int_text, lemma_trim_unchanged, occurs_at, trim_end,
    trim_start,
};

verus! {

/// The flat metric set of a score run. Field names are the metric names
/// accepted by `--fail-on`.
#[derive(Debug, Clone, Copy, PartialEq, Eq, Structural)]
pub struct Metrics {
    pub complexity_delta: i64,
    pub fan_out_delta: i64,
    pub new_duplication: i64,
    pub check_violations: i64,
    pub symbols_added: i64,
    pub symbols_removed: i64,
    pub files_changed: i64,
}

impl Default for Metrics {
    fn default() -> (r: Metrics)
        ensures
            r == zero_metrics(),
    {
        Metrics {
            complexity_delta: 0,
            fan_out_delta: 0,
            new_duplication: 0,
            check_violations: 0,
            symbols_added: 0,
            symbols_removed: 0,
            files_changed: 0,
        }
    }
}

/// All metrics zero.
pub open spec fn zero_metrics() -> Metrics {
    Metrics {
        complexity_delta: 0,
        fan_out_delta: 0,
        new_duplication: 0,
        check_violations: 0,
        symbols_added: 0,
        symbols_removed: 0,
        files_changed: 0,
    }
}

/// The valid metric names, in scorecard order.
pub open spec fn metric_names() -> Seq<Seq<char>> {
    seq![
        "complexity_delta"@,
        "fan_out_delta"@,
        "new_duplication"@,
        "check_violations"@,
        "symbols_added"@,
        "symbols_removed"@,
        "files_changed"@,
    ]
}

/// The metric names joined by `", "`.
pub open spec fn metric_names_joined() -> Seq<char> {
    "complexity_delta, fan_out_delta, new_duplication, check_violations, symbols_added, symbols_removed, files_changed"@
}

/// The value of the metric called `name`, if it is a metric name.
pub open spec fn metric_value(m: Metrics, name: Seq<char>) -> Option<i64> {
    if name == "complexity_delta"@ {
        Some(m.complexity_delta)
    } else if name == "fan_out_delta"@ {
        Some(m.fan_out_delta)
    } else if name == "new_duplication"@ {
        Some(m.new_duplication)
    } else if name == "check_violations"@ {
        Some(m.check_violations)
    } else if name == "symbols_added"@ {
        Some(m.symbols_added)
    } else if name == "symbols_removed"@ {
        Some(m.symbols_removed)
    } else if name == "files_changed"@ {
        Some(m.files_changed)
    } else {
        None
    }
}

/// A name has a metric value exactly when it is one of [`metric_names`].
pub proof fn lemma_metric_value_defined(m: Metrics, name: Seq<char>)
    ensures
        metric_value(m, name).is_some() <==> metric_names().contains(name),
{
    if metric_names().contains(name) {
        let k = choose|k: int| 0 <= k < metric_names().len() && metric_names()[k] == name;
        assert(0 <= k < 7);
    } else {
        assert(metric_names()[0] == "complexity_delta"@);
        assert(metric_names()[1] == "fan_out_delta"@);
        assert(metric_names()[2] == "new_duplication"@);
        assert(metric_names()[3] == "check_violations"@);
        assert(metric_names()[4] == "symbols_added"@);
        assert(metric_names()[5] == "symbols_removed"@);
        assert(metric_names()[6] == "files_changed"@);
    }
}

impl Metrics {
    /// Look up a metric by its `--fail-on` name.
    pub fn get(&self, name: &str) -> (r: Option<i64>)
        ensures
            r == metric_value(*self, name@),
    {
        if str_eq(name, "complexity_delta") {
            Some(self.complexity_delta)
        } else if str_eq(name, "fan_out_delta") {
            Some(self.fan_out_delta)
        } else if str_eq(name, "new_duplication") {
            Some(self.new_duplication)
        } else if str_eq(name, "check_violations") {
            Some(self.check_violations)
        } else if str_eq(name, "symbols_added") {
            Some(self.symbols_added)
        } else if str_eq(name, "symbols_removed") {
            Some(self.symbols_removed)
        } else if str_eq(name, "files_changed") {
            Some(self.files_changed)
        } else {
            None
        }
    }
}

/// Comparison operator of a `--fail-on` condition.
#[derive(Debug, Clone, Copy, PartialEq, Eq, Structural)]
pub enum Op {
    Ge,
    Le,
    Gt,
    Lt,
}

/// Text of an operator.
pub open spec fn op_text(op: Op) -> Seq<char> {
    match op {
        Op::Ge => ">="@,
        Op::Le => "<="@,
        Op::Gt => ">"@,
        Op::Lt => "<"@,
    }
}

/// Whether `lhs op rhs` holds.
pub open spec fn op_holds(op: Op, lhs: int, rhs: int) -> bool {
    match op {
        Op::Ge => lhs >= rhs,
        Op::Le => lhs <= rhs,
        Op::Gt => lhs > rhs,
        Op::Lt => lhs < rhs,
    }
}

impl Op {
    /// The operator's text (`">="`, `"<="`, `">"`, `"<"`).
    pub fn as_str(self) -> (r: &'static str)
        ensures
            r@ == op_text(self),
    {
        match self {
            Op::Ge => ">=",
            Op::Le => "<=",
            Op::Gt => ">",
            Op::Lt => "<",
        }
    }

    /// Whether `lhs self rhs` holds.
    pub fn holds(self, lhs: i64, rhs: i64) -> (r: bool)
        ensures
            r == op_holds(self, lhs as int, rhs as int),
    {
        match self {
            Op::Ge => lhs >= rhs,
            Op::Le => lhs <= rhs,
            Op::Gt => lhs > rhs,
            Op::Lt => lhs < rhs,
        }
    }
}

/// One parsed `--fail-on` condition (`metric OP value`).
#[derive(Debug)]
pub struct FailCondition {
    pub metric: String,
    pub op: Op,
    pub value: i64,
}

impl View for FailCondition {
    type V = (Seq<char>, Op, i64);

    open spec fn view(&self) -> (Seq<char>, Op, i64) {
        (self.metric@, self.op, self.value)
    }
}

/// Whether a condition (metric, op, value) trips the `--fail-on` threshold for `m`.
pub open spec fn condition_holds(c: (Seq<char>, Op, i64), m: Metrics) -> bool {
    match metric_value(m, c.0) {
        Some(actual) => op_holds(c.1, actual as int, c.2 as int),
        None => false,
    }
}

/// The text form `"metric OP value"` of a condition.
pub open spec fn condition_text(c: (Seq<char>, Op, i64)) -> Seq<char> {
    c.0 + " "@ + op_text(c.1) + " "@ + int_text(c.2 as int)
}

impl FailCondition {
    /// Whether this condition is satisfied (the threshold trips) for `metrics`.
    pub fn holds(&self, metrics: &Metrics) -> (r: bool)
        ensures
            r == condition_holds(self@, *metrics),
    {
        match metrics.get(self.metric.as_str()) {
            Some(actual) => self.op.holds(actual, self.value),
            None => false,
        }
    }

    /// The condition as text: `"metric OP value"` (its `Display` form).
    pub fn to_text(&self) -> (r: String)
        ensures
            r@ == condition_text(self@),
    {
        let mut out = String::new();
        push_str(&mut out, self.metric.as_str());
        push_str(&mut out, " ");
        push_str(&mut out, self.op.as_str());
        push_str(&mut out, " ");
        let digits = i64_text(self.value);
        push_chars(&mut out, digits.as_slice());
        out
    }

    /// A copy of this condition.
    pub fn duplicate(&self) -> (r: FailCondition)
        ensures
            r@ == self@,
    {
        FailCondition { metric: self.metric.clone(), op: self.op, value: self.value }
    }
}

/// The operator found in a trimmed condition, its index and its length.
/// Two-character operators are tried first.
pub open spec fn detect_op(p: Seq<char>) -> Option<(Op, int, int)> {
    if find_sub(p, ">="@) >= 0 {
        Some((Op::Ge, find_sub(p, ">="@), 2))
    } else if find_sub(p, "<="@) >= 0 {
        Some((Op::Le, find_sub(p, "<="@), 2))
    } else if index_of(p, '>') >= 0 {
        Some((Op::Gt, index_of(p, '>'), 1))
    } else if index_of(p, '<') >= 0 {
        Some((Op::Lt, index_of(p, '<'), 1))
    } else {
        None
    }
}

/// Parse one comma-separated piece of the `--fail-on` expression `expr`:
/// the condition, or the error message.
pub open spec fn parse_condition_spec(part: Seq<char>, expr: Seq<char>) -> Result<(Seq<char>, Op, i64), Seq<char>> {
    let p = trim(part);
    if p.len() == 0 {
        Err("invalid --fail-on expression "@ + debug_render(expr) + ": empty condition"@)
    } else {
        match detect_op(p) {
            None => Err("invalid --fail-on condition "@ + debug_render(p)
                + ": expected `metric OP value` with OP one of >=, <=, >, <"@),
            Some((op, idx, len)) => {
                let metric = trim(p.take(idx));
                if !metric_names().contains(metric) {
                    Err("unknown --fail-on metric "@ + debug_render(metric) + " (valid metrics: "@
                        + metric_names_joined() + ")"@)
                } else {
                    let v = trim(p.skip(idx + len));
                    match parse_i64_spec(v) {
                        Some(x) => Ok((metric, op, x)),
                        None => Err("invalid --fail-on condition "@ + debug_render(p) + ": "@
                            + debug_render(v) + " is not an integer"@),
                    }
                }
            },
        }
    }
}

/// Parse every piece in order; the first failing piece decides the error.
pub open spec fn parse_conditions_spec(parts: Seq<Seq<char>>, expr: Seq<char>) -> Result<Seq<(Seq<char>, Op, i64)>, Seq<char>>
    decreases parts.len(),
{
    if parts.len() == 0 {
        Ok(seq![])
    } else {
        match parse_condition_spec(parts[0], expr) {
            Err(m) => Err(m),
            Ok(c) => match parse_conditions_spec(parts.drop_first(), expr) {
                Err(m) => Err(m),
                Ok(cs) => Ok(seq![c] + cs),
            },
        }
    }
}

/// The result of `parse_fail_on(expr)`: conditions, or the error message.
pub open spec fn fail_on_spec(expr: Seq<char>) -> Result<Seq<(Seq<char>, Op, i64)>, Seq<char>> {
    parse_conditions_spec(split_char(expr, ','), expr)
}

spec fn prepend_ok(
    done: Seq<(Seq<char>, Op, i64)>,
    rest: Result<Seq<(Seq<char>, Op, i64)>, Seq<char>>,
) -> Result<Seq<(Seq<char>, Op, i64)>, Seq<char>> {
    match rest {
        Ok(cs) => Ok(done + cs),
        Err(m) => Err(m),
    }
}

fn is_metric_name(s: &[char]) -> (r: bool)
    ensures
        r == metric_names().contains(s@),
{
    let z = Metrics::default();
    proof {
        lemma_metric_value_defined(z, s@);
    }
    let name = string_from(s);
    z.get(name.as_str()).is_some()
}

/// Parse one trimmed-or-not piece of the expression.
fn parse_condition(part: &[char], expr: &str) -> (r: Result<FailCondition, String>)
    ensures
        match r {
            Ok(c) => parse_condition_spec(part@, expr@) == Ok::<(Seq<char>, Op, i64), Seq<char>>(c@),
            Err(m) => parse_condition_spec(part@, expr@) == Err::<(Seq<char>, Op, i64), Seq<char>>(m@),
        },
{
    let (a, b) = trim_range(part, 0, part.len());
    assert(part@.subrange(0, part@.len() as int) == part@);
    let p = slice_range(part, a, b);
    if p.len() == 0 {
        let mut m = String::new();
        push_str(&mut m, "invalid --fail-on expression ");
        let d = debug_str(expr);
        push_str(&mut m, d.as_str());
        push_str(&mut m, ": empty condition");
        return Err(m);
    }
    let ge: Vec<char> = vec!['>', '='];
    let le: Vec<char> = vec!['<', '='];
    let found_ge = find_sub_from(p.as_slice(), ge.as_slice(), 0);
    let found_le = find_sub_from(p.as_slice(), le.as_slice(), 0);
    let found_gt = find_char_from(p.as_slice(), '>', 0);
    let found_lt = find_char_from(p.as_slice(), '<', 0);
    assert(p@.skip(0) == p@);
    proof {
        reveal_strlit(">=");
        reveal_strlit("<=");
        assert(ge@ == ">="@);
        assert(le@ == "<="@);
    }
    let (op, idx, len): (Op, usize, usize) = if let Some(i) = found_ge {
        (Op::Ge, i, 2)
    } else if let Some(i) = found_le {
        (Op::Le, i, 2)
    } else if let Some(i) = found_gt {
        (Op::Gt, i, 1)
    } else if let Some(i) = found_lt {
        (Op::Lt, i, 1)
    } else {
        let mut m = String::new();
        push_str(&mut m, "invalid --fail-on condition ");
        let ptext = string_from(p.as_slice());
        let d = debug_str(ptext.as_str());
        push_str(&mut m, d.as_str());
        push_str(&mut m, ": expected `metric OP value` with OP one of >=, <=, >, <");
        return Err(m);
    };
    assert(detect_op(p@) == Some((op, idx as int, len as int)));
    let (ma, mb) = trim_range(p.as_slice(), 0, idx);
    assert(p@.subrange(0, idx as int) == p@.take(idx as int));
    let metric = slice_range(p.as_slice(), ma, mb);
    if !is_metric_name(metric.as_slice()) {
        let mut m = String::new();
        push_str(&mut m, "unknown --fail-on metric ");
        let mtext = string_from(metric.as_slice());
        let d = debug_str(mtext.as_str());
        push_str(&mut m, d.as_str());
        push_str(&mut m, " (valid metrics: ");
        push_str(&mut m, "complexity_delta, fan_out_delta, new_duplication, check_violations, symbols_added, symbols_removed, files_changed");
        push_str(&mut m, ")");
        return Err(m);
    }
    let (va, vb) = trim_range(p.as_slice(), idx + len, p.len());
    assert(p@.subrange(idx + len, p@.len() as int) == p@.skip(idx + len));
    let v = slice_range(p.as_slice(), va, vb);
    match parse_i64(v.as_slice()) {
        Some(x) => Ok(FailCondition { metric: string_from(metric.as_slice()), op, value: x }),
        None => {
            let mut m = String::new();
            push_str(&mut m, "invalid --fail-on condition ");
            let ptext = string_from(p.as_slice());
            let d = debug_str(ptext.as_str());
            push_str(&mut m, d.as_str());
            push_str(&mut m, ": ");
            let vtext = string_from(v.as_slice());
            let d2 = debug_str(vtext.as_str());
            push_str(&mut m, d2.as_str());
            push_str(&mut m, " is not an integer");
            Err(m)
        },
    }
}

/// Parse a comma-separated `--fail-on` expression such as
/// `"new_duplication>0, complexity_delta >= 10"`. Unknown metrics and
/// malformed conditions are errors; one bad condition fails the whole
/// expression.
pub fn parse_fail_on(expr: &str) -> (r: Result<Vec<FailCondition>, CtxError>)
    ensures
        match r {
            Ok(v) => fail_on_spec(expr@) == Ok::<Seq<(Seq<char>, Op, i64)>, Seq<char>>(
                v@.map_values(|c: FailCondition| c@),
            ),
            Err(CtxError::Other(m)) => fail_on_spec(expr@) == Err::<Seq<(Seq<char>, Op, i64)>, Seq<char>>(m@),
        },
{
    let cs = chars_of(expr);
    let mut out: Vec<FailCondition> = Vec::new();
    let mut start: usize = 0;
    assert(cs@.skip(0) == cs@);
    loop
        invariant
            start <= cs@.len(),
            cs@.len() == cs.len(),
            cs@ == expr@,
            fail_on_spec(expr@) == prepend_ok(
                out@.map_values(|c: FailCondition| c@),
                parse_conditions_spec(split_char(cs@.skip(start as int), ','), expr@),
            ),
        decreases cs@.len() - start,
    {
        let ghost rest = cs@.skip(start as int);
        let found = find_char_from(cs.as_slice(), ',', start);
        let end = match found {
            Some(j) => j,
            None => cs.len(),
        };
        let part = slice_range(cs.as_slice(), start, end);
        proof {
            lemma_index_of(rest, ',');
            match found {
                Some(j) => {
                    assert(rest.take(j - start) == part@);
                    assert(rest.skip(j - start + 1) == cs@.skip(j + 1));
                    assert(split_char(rest, ',') == seq![part@] + split_char(cs@.skip(j + 1), ','));
                },
                None => {
                    assert(rest == part@);
                    assert(split_char(rest, ',') == seq![part@]);
                },
            }
            assert(split_char(rest, ',')[0] == part@);
        }
        match parse_condition(part.as_slice(), expr) {
            Err(m) => {
                return Err(CtxError::Other(m));
            },
            Ok(c) => {
                let ghost before = out@.map_values(|c: FailCondition| c@);
                out.push(c);
                assert(out@.map_values(|c: FailCondition| c@) == before.push(c@));
                match found {
                    Some(j) => {
                        assert(split_char(rest, ',').drop_first() == split_char(cs@.skip(j + 1), ','));
                        proof {
                            let parts = split_char(rest, ',');
                            assert(parts.len() > 0);
                            assert(parse_condition_spec(parts[0], expr@) == Ok::<(Seq<char>, Op, i64), Seq<char>>(c@));
                            let tail = parse_conditions_spec(parts.drop_first(), expr@);
                            match tail {
                                Ok(cs2) => {
                                    assert(parse_conditions_spec(parts, expr@) == Ok::<Seq<(Seq<char>, Op, i64)>, Seq<char>>(seq![c@] + cs2));
                                    assert(before + (seq![c@] + cs2) == before.push(c@) + cs2);
                                },
                                Err(m) => {
                                    assert(parse_conditions_spec(parts, expr@) == Err::<Seq<(Seq<char>, Op, i64)>, Seq<char>>(m));
                                },
                            }
                        }
                        start = j + 1;
                    },
                    None => {
                        assert(split_char(rest, ',').drop_first() == Seq::<Seq<char>>::empty());
                        assert(parse_conditions_spec(Seq::<Seq<char>>::empty(), expr@) == Ok::<Seq<(Seq<char>, Op, i64)>, Seq<char>>(seq![]));
                        assert(out@.map_values(|c: FailCondition| c@) == before + seq![c@] + Seq::<(Seq<char>, Op, i64)>::empty());
                        return Ok(out);
                    },
                }
            },
        }
    }
}

/// The conditions satisfied by `metrics`, in order (each one trips its threshold).
pub fn failed_conditions(conditions: &[FailCondition], metrics: &Metrics) -> (r: Vec<FailCondition>)
    ensures
        r@.map_values(|c: FailCondition| c@) == conditions@.map_values(|c: FailCondition| c@).filter(
            |c: (Seq<char>, Op, i64)| condition_holds(c, *metrics),
        ),
{
    let mut out: Vec<FailCondition> = Vec::new();
    let ghost all = conditions@.map_values(|c: FailCondition| c@);
    let ghost pred = |c: (Seq<char>, Op, i64)| condition_holds(c, *metrics);
    let mut i: usize = 0;
    while i < conditions.len()
        invariant
            i <= conditions@.len(),
            all == conditions@.map_values(|c: FailCondition| c@),
            pred == (|c: (Seq<char>, Op, i64)| condition_holds(c, *metrics)),
            out@.map_values(|c: FailCondition| c@) == all.take(i as int).filter(pred),
        decreases conditions@.len() - i,
    {
        let ghost before = out@.map_values(|c: FailCondition| c@);
        assert(all.take(i + 1).drop_last() == all.take(i as int));
        reveal_with_fuel(Seq::filter, 1);
        if conditions[i].holds(metrics) {
            out.push(conditions[i].duplicate());
            assert(out@.map_values(|c: FailCondition| c@) == before.push(all[i as int]));
        }
        i = i + 1;
    }
    assert(all.take(conditions@.len() as int) == all);
    out
}


// ---------------------------------------------------------------------------
// Per-side metrics
// ---------------------------------------------------------------------------

/// A symbol's matching key: `(parent_name, name)` view.
pub type KeyView = (Option<Seq<char>>, Seq<char>);

/// The simple name of a parent id: its last `::` segment.
pub open spec fn parent_name_spec(parent_id: Option<Seq<char>>) -> Option<Seq<char>> {
    match parent_id {
        Some(p) => Some(after_last(p, "::"@)),
        None => None,
    }
}

/// The key by which a symbol is matched across the two sides. Symbol ids
/// are never used: they embed line numbers, which shift.
pub open spec fn symbol_key_spec(s: Symbol) -> KeyView {
    (parent_name_spec(match s.parent_id { Some(p) => Some(p@), None => None }), s.name@)
}

/// Number of call edges whose source is `id`.
pub open spec fn count_sources(edges: Seq<(Seq<char>, Seq<char>)>, id: Seq<char>) -> nat
    decreases edges.len(),
{
    if edges.len() == 0 {
        0
    } else {
        count_sources(edges.drop_last(), id) + if edges.last().0 == id { 1nat } else { 0nat }
    }
}

/// Number of call edges whose target name is `name`.
pub open spec fn count_targets(edges: Seq<(Seq<char>, Seq<char>)>, name: Seq<char>) -> nat
    decreases edges.len(),
{
    if edges.len() == 0 {
        0
    } else {
        count_targets(edges.drop_last(), name) + if edges.last().1 == name { 1nat } else { 0nat }
    }
}

/// Complexity contributed by one symbol: `2 * fan_out + same_file_fan_in`
/// for functions and methods, nothing for other kinds.
pub open spec fn symbol_complexity(s: Symbol, edges: Seq<(Seq<char>, Seq<char>)>) -> int {
    if is_callable_kind(s.kind) {
        (2 * count_sources(edges, s.id@) + count_targets(edges, s.name@)) as int
    } else {
        0
    }
}

/// Summed complexity of all symbols of one side.
pub open spec fn side_complexity(syms: Seq<Symbol>, edges: Seq<(Seq<char>, Seq<char>)>) -> int
    decreases syms.len(),
{
    if syms.len() == 0 {
        0
    } else {
        side_complexity(syms.drop_last(), edges) + symbol_complexity(syms.last(), edges)
    }
}

/// The `(source_id, target_name)` views of call edges.
pub open spec fn call_edges_view(edges: Seq<(String, String)>) -> Seq<(Seq<char>, Seq<char>)> {
    edges.map_values(|e: (String, String)| (e.0@, e.1@))
}

/// Views of a list of keys.
pub open spec fn keys_view(keys: Seq<(Option<String>, String)>) -> Seq<KeyView> {
    keys.map_values(|k: (Option<String>, String)| (match k.0 { Some(p) => Some(p@), None => None }, k.1@))
}

/// One side (baseline or current) of a changed file's metrics.
#[derive(Debug)]
pub struct Side {
    pub complexity: i64,
    pub fan_out: i64,
    /// The `(parent_name, symbol_name)` keys of the file's symbols, each once.
    pub keys: Vec<(Option<String>, String)>,
}

/// A side with nothing in it (a file absent on that side).
pub open spec fn is_empty_side(s: Side) -> bool {
    s.complexity == 0 && s.fan_out == 0 && s.keys@.len() == 0
}

impl Side {
    /// The side of a file that does not exist there.
    pub fn empty() -> (r: Side)
        ensures
            is_empty_side(r),
    {
        Side { complexity: 0, fan_out: 0, keys: Vec::new() }
    }
}

/// Last `::` segment of a symbol's parent id (the parent's simple name).
pub fn parent_name(parent_id: Option<&str>) -> (r: Option<String>)
    ensures
        match r {
            Some(n) => parent_id.is_some() && n@ == after_last(parent_id.unwrap()@, "::"@),
            None => parent_id.is_none(),
        },
{
    match parent_id {
        Some(p) => {
            let cs = chars_of(p);
            let sep: Vec<char> = vec![':', ':'];
            proof {
                reveal_strlit("::");
                assert(sep@ == "::"@);
            }
            let tail = after_last_exec(cs.as_slice(), sep.as_slice());
            Some(string_from(tail.as_slice()))
        },
        None => None,
    }
}

/// The `(parent_name, name)` key used to match symbols across sides.
pub fn symbol_key(symbol: &Symbol) -> (r: (Option<String>, String))
    ensures
        (match r.0 { Some(p) => Some(p@), None => None::<Seq<char>> }, r.1@) == symbol_key_spec(*symbol),
{
    let parent = match &symbol.parent_id {
        Some(p) => parent_name(Some(p.as_str())),
        None => None,
    };
    (parent, symbol.name.clone())
}

fn key_eq(a: &(Option<String>, String), b: &(Option<String>, String)) -> (r: bool)
    ensures
        r == (keys_view(seq![*a])[0] == keys_view(seq![*b])[0]),
{
    let same_parent = match (&a.0, &b.0) {
        (Some(x), Some(y)) => str_eq(x.as_str(), y.as_str()),
        (None, None) => true,
        _ => false,
    };
    same_parent && str_eq(a.1.as_str(), b.1.as_str())
}

fn keys_contain(keys: &Vec<(Option<String>, String)>, k: &(Option<String>, String)) -> (r: bool)
    ensures
        r == keys_view(keys@).contains(keys_view(seq![*k])[0]),
{
    let ghost kv = keys_view(seq![*k])[0];
    let mut i: usize = 0;
    while i < keys.len()
        invariant
            i <= keys@.len(),
            kv == keys_view(seq![*k])[0],
            forall|t: int| 0 <= t < i ==> keys_view(keys@)[t] != kv,
        decreases keys@.len() - i,
    {
        if key_eq(&keys[i], k) {
            assert(keys_view(seq![keys@[i as int]])[0] == keys_view(keys@)[i as int]);
            assert(keys_view(keys@)[i as int] == kv);
            return true;
        }
        assert(keys_view(seq![keys@[i as int]])[0] == keys_view(keys@)[i as int]);
        i = i + 1;
    }
    false
}

fn count_calls(call_edges: &[(String, String)], id: &str, name: &str) -> (r: (u64, u64))
    ensures
        r.0 == count_sources(call_edges_view(call_edges@), id@),
        r.1 == count_targets(call_edges_view(call_edges@), name@),
{
    let ghost ev = call_edges_view(call_edges@);
    let mut out_n: u64 = 0;
    let mut in_n: u64 = 0;
    let mut i: usize = 0;
    while i < call_edges.len()
        invariant
            i <= call_edges@.len(),
            ev == call_edges_view(call_edges@),
            out_n == count_sources(ev.take(i as int), id@),
            in_n == count_targets(ev.take(i as int), name@),
            out_n <= i,
            in_n <= i,
        decreases call_edges@.len() - i,
    {
        assert(ev.take(i + 1).drop_last() == ev.take(i as int));
        assert(ev.take(i + 1).last() == (call_edges@[i as int].0@, call_edges@[i as int].1@));
        if str_eq(call_edges[i].0.as_str(), id) {
            out_n = out_n + 1;
        }
        if str_eq(call_edges[i].1.as_str(), name) {
            in_n = in_n + 1;
        }
        i = i + 1;
    }
    assert(ev.take(call_edges@.len() as int) == ev);
    (out_n, in_n)
}

/// Metrics for one side from its symbols and the `calls` edges sourced in
/// the file, as `(source_symbol_id, target_name)` pairs. Used identically
/// for both sides so that deltas are honest.
pub fn side_metrics(symbols: &[Symbol], call_edges: &[(String, String)]) -> (r: Side)
    requires
        side_complexity(symbols@, call_edges_view(call_edges@)) <= i64::MAX,
        call_edges@.len() <= i64::MAX,
    ensures
        r.complexity == side_complexity(symbols@, call_edges_view(call_edges@)),
        r.fan_out == call_edges@.len(),
        keys_view(r.keys@).no_duplicates(),
        forall|k: KeyView| keys_view(r.keys@).contains(k) <==> exists|i: int|
            0 <= i < symbols@.len() && #[trigger] symbol_key_spec(symbols@[i]) == k,
{
    let ghost ev = call_edges_view(call_edges@);
    let mut complexity: i64 = 0;
    let mut keys: Vec<(Option<String>, String)> = Vec::new();
    let mut i: usize = 0;
    while i < symbols.len()
        invariant
            i <= symbols@.len(),
            side_complexity(symbols@, ev) <= i64::MAX,
            call_edges@.len() <= i64::MAX,
            ev == call_edges_view(call_edges@),
            complexity == side_complexity(symbols@.take(i as int), ev),
            0 <= complexity,
            keys_view(keys@).no_duplicates(),
            forall|k: KeyView| keys_view(keys@).contains(k) <==> exists|j: int|
                0 <= j < i && #[trigger] symbol_key_spec(symbols@[j]) == k,
        decreases symbols@.len() - i,
    {
        let sym = &symbols[i];
        let key = symbol_key(sym);
        let ghost kv = symbol_key_spec(symbols@[i as int]);
        let ghost before = keys_view(keys@);
        assert(keys_view(seq![key])[0] == kv);
        if !keys_contain(&keys, &key) {
            keys.push(key);
            assert(keys_view(keys@) == before.push(kv));
        }
        assert forall|k: KeyView| keys_view(keys@).contains(k) <==> exists|j: int|
            0 <= j < i + 1 && #[trigger] symbol_key_spec(symbols@[j]) == k by {
            if keys_view(keys@).contains(k) && k != kv {
                assert(before.contains(k));
            }
            if exists|j: int| 0 <= j < i + 1 && #[trigger] symbol_key_spec(symbols@[j]) == k {
                if k != kv {
                    let j = choose|j: int| 0 <= j < i + 1 && #[trigger] symbol_key_spec(symbols@[j]) == k;
                    assert(j < i);
                    assert(before.contains(k));
                    let t = choose|t: int| 0 <= t < before.len() && before[t] == k;
                    assert(keys_view(keys@)[t] == k);
                } else if before.contains(kv) {
                    let t = choose|t: int| 0 <= t < before.len() && before[t] == kv;
                    assert(keys_view(keys@)[t] == k);
                } else {
                    assert(keys_view(keys@)[keys_view(keys@).len() - 1] == kv);
                }
            }
        }
        assert(symbols@.take(i + 1).drop_last() == symbols@.take(i as int));
        assert(symbols@.take(i + 1).last() == symbols@[i as int]);
        match sym.kind {
            SymbolKind::Function | SymbolKind::Method => {
                let (out_n, in_n) = count_calls(call_edges, sym.id.as_str(), sym.name.as_str());
                assert(out_n <= call_edges@.len()) by {
                    lemma_count_sources_bound(ev, sym.id@);
                }
                assert(in_n <= call_edges@.len()) by {
                    lemma_count_targets_bound(ev, sym.name@);
                }
                assert(side_complexity(symbols@.take(i + 1), ev) <= side_complexity(symbols@, ev)) by {
                    lemma_prefix_complexity(symbols@, ev, i + 1);
                }
                complexity = complexity + 2 * (out_n as i64) + (in_n as i64);
            },
            _ => {},
        }
        i = i + 1;
    }
    assert(symbols@.take(symbols@.len() as int) == symbols@);
    Side { complexity, fan_out: call_edges.len() as i64, keys }
}

/// The complexity of a prefix of the symbols is at most that of all of
/// them: each symbol adds a nonnegative amount.
proof fn lemma_prefix_complexity(syms: Seq<Symbol>, edges: Seq<(Seq<char>, Seq<char>)>, i: int)
    requires
        0 <= i <= syms.len(),
    ensures
        0 <= side_complexity(syms.take(i), edges) <= side_complexity(syms, edges),
    decreases syms.len(),
{
    if syms.len() > 0 {
        if i == syms.len() {
            assert(syms.take(i) =~= syms);
            lemma_prefix_complexity(syms.drop_last(), edges, i - 1);
            assert(syms.drop_last().take(i - 1) =~= syms.drop_last());
        } else {
            lemma_prefix_complexity(syms.drop_last(), edges, i);
            assert(syms.drop_last().take(i) =~= syms.take(i));
        }
    } else {
        assert(syms.take(i) =~= syms);
    }
}

proof fn lemma_count_sources_bound(edges: Seq<(Seq<char>, Seq<char>)>, id: Seq<char>)
    ensures
        count_sources(edges, id) <= edges.len(),
    decreases edges.len(),
{
    if edges.len() > 0 {
        lemma_count_sources_bound(edges.drop_last(), id);
    }
}

proof fn lemma_count_targets_bound(edges: Seq<(Seq<char>, Seq<char>)>, name: Seq<char>)
    ensures
        count_targets(edges, name) <= edges.len(),
    decreases edges.len(),
{
    if edges.len() > 0 {
        lemma_count_targets_bound(edges.drop_last(), name);
    }
}


/// The `calls` edges of a parse result as `(source_id, target_name)` views.
pub open spec fn parse_call_edges(edges: Seq<crate::model::Edge>) -> Seq<(Seq<char>, Seq<char>)>
    decreases edges.len(),
{
    if edges.len() == 0 {
        seq![]
    } else {
        let e = edges.last();
        parse_call_edges(edges.drop_last()) + if e.kind == EdgeKind::Calls {
            seq![(e.source_id@, e.target_name@)]
        } else {
            seq![]
        }
    }
}

/// [`side_metrics`] over an in-memory parse result (the baseline side).
pub fn parse_side_metrics(parse: &ParseResult) -> (r: Side)
    requires
        side_complexity(parse.symbols@, parse_call_edges(parse.edges@)) <= i64::MAX,
        parse.edges@.len() <= i64::MAX,
    ensures
        r.complexity == side_complexity(parse.symbols@, parse_call_edges(parse.edges@)),
        r.fan_out == parse_call_edges(parse.edges@).len(),
        keys_view(r.keys@).no_duplicates(),
        forall|k: KeyView| keys_view(r.keys@).contains(k) <==> exists|i: int|
            0 <= i < parse.symbols@.len() && #[trigger] symbol_key_spec(parse.symbols@[i]) == k,
{
    let mut calls: Vec<(String, String)> = Vec::new();
    let mut i: usize = 0;
    while i < parse.edges.len()
        invariant
            i <= parse.edges@.len(),
            calls@.len() <= i,
            call_edges_view(calls@) == parse_call_edges(parse.edges@.take(i as int)),
        decreases parse.edges@.len() - i,
    {
        let e = &parse.edges[i];
        let ghost before = call_edges_view(calls@);
        assert(parse.edges@.take(i + 1).drop_last() == parse.edges@.take(i as int));
        if e.kind == EdgeKind::Calls {
            calls.push((e.source_id.clone(), e.target_name.clone()));
            assert(call_edges_view(calls@) == before.push((e.source_id@, e.target_name@)));
        } else {
            assert(call_edges_view(calls@) == before + Seq::<(Seq<char>, Seq<char>)>::empty());
        }
        i = i + 1;
    }
    assert(parse.edges@.take(parse.edges@.len() as int) == parse.edges@);
    side_metrics(parse.symbols.as_slice(), calls.as_slice())
}

/// Per-changed-file breakdown (both sides of the delta metrics).
#[derive(Debug)]
pub struct FileScore {
    pub path: String,
    pub complexity_baseline: i64,
    pub complexity_current: i64,
    pub fan_out_baseline: i64,
    pub fan_out_current: i64,
    pub symbols_added: i64,
    pub symbols_removed: i64,
}

/// Number of keys of `a` that `b` lacks.
pub open spec fn keys_missing_from(a: Seq<KeyView>, b: Seq<KeyView>) -> nat {
    a.filter(|k: KeyView| !b.contains(k)).len()
}

fn count_missing(a: &Vec<(Option<String>, String)>, b: &Vec<(Option<String>, String)>) -> (r: i64)
    requires
        a@.len() <= i64::MAX,
    ensures
        r == keys_missing_from(keys_view(a@), keys_view(b@)),
{
    let ghost av = keys_view(a@);
    let ghost bv = keys_view(b@);
    let ghost pred = |k: KeyView| !bv.contains(k);
    let mut n: i64 = 0;
    let mut i: usize = 0;
    while i < a.len()
        invariant
            i <= a@.len(),
            a@.len() <= i64::MAX,
            av == keys_view(a@),
            bv == keys_view(b@),
            pred == (|k: KeyView| !bv.contains(k)),
            n == av.take(i as int).filter(pred).len(),
            n <= i,
        decreases a@.len() - i,
    {
        assert(av.take(i + 1).drop_last() == av.take(i as int));
        reveal_with_fuel(Seq::filter, 1);
        assert(keys_view(seq![a@[i as int]])[0] == av[i as int]);
        if !keys_contain(b, &a[i]) {
            n = n + 1;
        }
        assert(av.take(i as int).filter(pred).len() <= i) by {
            av.take(i as int).filter_lemma(pred);
        }
        i = i + 1;
    }
    assert(av.take(a@.len() as int) == av);
    n
}

/// Combine the two sides of a changed file. Symbols are matched by their
/// `(parent_name, name)` keys.
pub fn score_file(path: &str, current: &Side, baseline: &Side) -> (r: FileScore)
    requires
        current.keys@.len() <= i64::MAX,
        baseline.keys@.len() <= i64::MAX,
    ensures
        r.path@ == path@,
        r.complexity_baseline == baseline.complexity,
        r.complexity_current == current.complexity,
        r.fan_out_baseline == baseline.fan_out,
        r.fan_out_current == current.fan_out,
        r.symbols_added == keys_missing_from(keys_view(current.keys@), keys_view(baseline.keys@)),
        r.symbols_removed == keys_missing_from(keys_view(baseline.keys@), keys_view(current.keys@)),
{
    FileScore {
        path: path.to_owned(),
        complexity_baseline: baseline.complexity,
        complexity_current: current.complexity,
        fan_out_baseline: baseline.fan_out,
        fan_out_current: current.fan_out,
        symbols_added: count_missing(&current.keys, &baseline.keys),
        symbols_removed: count_missing(&baseline.keys, &current.keys),
    }
}


/// Note attached whenever complexity deltas are reported.
pub const FAN_IN_NOTE: &'static str = "fan_in approximated as same-file callers for baseline comparability";

/// Note attached when the rules file does not exist.
pub const NO_RULES_NOTE: &'static str = "no rules file";

/// Minimum normalized token count for the `new_duplication` metric.
pub const DUP_MIN_TOKENS: i64 = 50;

/// The complete result of a score run.
#[derive(Debug)]
pub struct ScoreReport {
    /// The git reference the working tree was compared against.
    pub against: String,
    /// How many files the incremental index refresh reindexed.
    pub files_reindexed: usize,
    pub complexity_baseline: i64,
    pub complexity_current: i64,
    pub fan_out_baseline: i64,
    pub fan_out_current: i64,
    pub metrics: Metrics,
    pub per_file: Vec<FileScore>,
    /// Set when `check_violations` is 0 because no rules file exists.
    pub check_violations_note: Option<String>,
    /// Caveats surfaced in both human and machine output.
    pub notes: Vec<String>,
}

/// Sum of one field over the per-file scores.
pub open spec fn sum_scores(fs: Seq<FileScore>, f: spec_fn(FileScore) -> int) -> int
    decreases fs.len(),
{
    if fs.len() == 0 {
        0
    } else {
        sum_scores(fs.drop_last(), f) + f(fs.last())
    }
}

/// Every running sum of the field stays within `i64`.
pub open spec fn sums_fit(fs: Seq<FileScore>, f: spec_fn(FileScore) -> int) -> bool {
    forall|k: int| 0 <= k <= fs.len() ==> i64::MIN <= #[trigger] sum_scores(fs.take(k), f) <= i64::MAX
}

pub open spec fn f_cb(x: FileScore) -> int { x.complexity_baseline as int }
pub open spec fn f_cc(x: FileScore) -> int { x.complexity_current as int }
pub open spec fn f_fb(x: FileScore) -> int { x.fan_out_baseline as int }
pub open spec fn f_fc(x: FileScore) -> int { x.fan_out_current as int }
pub open spec fn f_sa(x: FileScore) -> int { x.symbols_added as int }
pub open spec fn f_sr(x: FileScore) -> int { x.symbols_removed as int }

/// The notes of a report: the fan-in caveat, plus the missing-rules note.
pub open spec fn report_notes(rules_present: bool) -> Seq<Seq<char>> {
    if rules_present {
        seq![FAN_IN_NOTE@]
    } else {
        seq![FAN_IN_NOTE@, "check_violations: no rules file (.ctx/rules.toml)"@]
    }
}

/// Aggregate the per-file scores of the changed files into the report.
///
/// `check_violations` is the number of rule violations when a rules file
/// exists, `None` when it does not (then the metric is 0 and a note says so).
pub fn compute_score(
    reference: &str,
    files_reindexed: usize,
    per_file: Vec<FileScore>,
    new_duplication: i64,
    check_violations: Option<i64>,
) -> (r: ScoreReport)
    requires
        per_file@.len() <= i64::MAX,
        sums_fit(per_file@, |x: FileScore| f_cb(x)),
        sums_fit(per_file@, |x: FileScore| f_cc(x)),
        sums_fit(per_file@, |x: FileScore| f_fb(x)),
        sums_fit(per_file@, |x: FileScore| f_fc(x)),
        sums_fit(per_file@, |x: FileScore| f_sa(x)),
        sums_fit(per_file@, |x: FileScore| f_sr(x)),
        i64::MIN <= sum_scores(per_file@, |x: FileScore| f_cc(x)) - sum_scores(per_file@, |x: FileScore| f_cb(x)) <= i64::MAX,
        i64::MIN <= sum_scores(per_file@, |x: FileScore| f_fc(x)) - sum_scores(per_file@, |x: FileScore| f_fb(x)) <= i64::MAX,
    ensures
        r.against@ == reference@,
        r.files_reindexed == files_reindexed,
        r.complexity_baseline == sum_scores(per_file@, |x: FileScore| f_cb(x)),
        r.complexity_current == sum_scores(per_file@, |x: FileScore| f_cc(x)),
        r.fan_out_baseline == sum_scores(per_file@, |x: FileScore| f_fb(x)),
        r.fan_out_current == sum_scores(per_file@, |x: FileScore| f_fc(x)),
        r.metrics.complexity_delta == r.complexity_current - r.complexity_baseline,
        r.metrics.fan_out_delta == r.fan_out_current - r.fan_out_baseline,
        r.metrics.new_duplication == new_duplication,
        r.metrics.check_violations == match check_violations { Some(n) => n, None => 0 },
        r.metrics.symbols_added == sum_scores(per_file@, |x: FileScore| f_sa(x)),
        r.metrics.symbols_removed == sum_scores(per_file@, |x: FileScore| f_sr(x)),
        r.metrics.files_changed == per_file@.len(),
        r.per_file@ == per_file@,
        match r.check_violations_note {
            Some(n) => check_violations.is_none() && n@ == NO_RULES_NOTE@,
            None => check_violations.is_some(),
        },
        r.notes@.map_values(|n: String| n@) == report_notes(check_violations.is_some()),
{
    let ghost fs = per_file@;
    let mut cb: i64 = 0;
    let mut cc: i64 = 0;
    let mut fb: i64 = 0;
    let mut fc: i64 = 0;
    let mut sa: i64 = 0;
    let mut sr: i64 = 0;
    let mut i: usize = 0;
    while i < per_file.len()
        invariant
            i <= fs.len(),
            fs == per_file@,
            sums_fit(fs, |x: FileScore| f_cb(x)),
            sums_fit(fs, |x: FileScore| f_cc(x)),
            sums_fit(fs, |x: FileScore| f_fb(x)),
            sums_fit(fs, |x: FileScore| f_fc(x)),
            sums_fit(fs, |x: FileScore| f_sa(x)),
            sums_fit(fs, |x: FileScore| f_sr(x)),
            cb == sum_scores(fs.take(i as int), |x: FileScore| f_cb(x)),
            cc == sum_scores(fs.take(i as int), |x: FileScore| f_cc(x)),
            fb == sum_scores(fs.take(i as int), |x: FileScore| f_fb(x)),
            fc == sum_scores(fs.take(i as int), |x: FileScore| f_fc(x)),
            sa == sum_scores(fs.take(i as int), |x: FileScore| f_sa(x)),
            sr == sum_scores(fs.take(i as int), |x: FileScore| f_sr(x)),
        decreases fs.len() - i,
    {
        let f = &per_file[i];
        let ghost next = fs.take(i + 1);
        assert(next.drop_last() == fs.take(i as int));
        assert(next.last() == fs[i as int]);
        assert(i64::MIN <= sum_scores(next, |x: FileScore| f_cb(x)) <= i64::MAX);
        assert(i64::MIN <= sum_scores(next, |x: FileScore| f_cc(x)) <= i64::MAX);
        assert(i64::MIN <= sum_scores(next, |x: FileScore| f_fb(x)) <= i64::MAX);
        assert(i64::MIN <= sum_scores(next, |x: FileScore| f_fc(x)) <= i64::MAX);
        assert(i64::MIN <= sum_scores(next, |x: FileScore| f_sa(x)) <= i64::MAX);
        assert(i64::MIN <= sum_scores(next, |x: FileScore| f_sr(x)) <= i64::MAX);
        cb = cb + f.complexity_baseline;
        cc = cc + f.complexity_current;
        fb = fb + f.fan_out_baseline;
        fc = fc + f.fan_out_current;
        sa = sa + f.symbols_added;
        sr = sr + f.symbols_removed;
        i = i + 1;
    }
    assert(fs.take(fs.len() as int) == fs);
    let files_changed = per_file.len() as i64;
    let metrics = Metrics {
        complexity_delta: cc - cb,
        fan_out_delta: fc - fb,
        new_duplication,
        check_violations: match check_violations {
            Some(n) => n,
            None => 0,
        },
        symbols_added: sa,
        symbols_removed: sr,
        files_changed,
    };
    let mut notes: Vec<String> = Vec::new();
    notes.push(FAN_IN_NOTE.to_owned());
    let note = match check_violations {
        Some(_) => None,
        None => {
            notes.push("check_violations: no rules file (.ctx/rules.toml)".to_owned());
            Some(NO_RULES_NOTE.to_owned())
        },
    };
    ScoreReport {
        against: reference.to_owned(),
        files_reindexed,
        complexity_baseline: cb,
        complexity_current: cc,
        fan_out_baseline: fb,
        fan_out_current: fc,
        metrics,
        per_file,
        check_violations_note: note,
        notes,
    }
}

// ---------------------------------------------------------------------------
// Conditions read back from their text
// ---------------------------------------------------------------------------

/// Conditions as text, joined by commas (`a >= 1,b < 2`).
pub open spec fn conditions_text(cs: Seq<(Seq<char>, Op, i64)>) -> Seq<char>
    decreases cs.len(),
{
    if cs.len() == 0 {
        seq![]
    } else if cs.len() == 1 {
        condition_text(cs[0])
    } else {
        condition_text(cs[0]) + seq![','] + conditions_text(cs.drop_first())
    }
}

/// The characters metric names are made of.
pub open spec fn name_char(c: char) -> bool {
    ('a' <= c && c <= 'z') || c == '_'
}

proof fn lemma_metric_name_chars(m: Seq<char>)
    requires
        metric_names().contains(m),
    ensures
        m.len() > 0,
        forall|k: int| 0 <= k < m.len() ==> name_char(#[trigger] m[k]),
{
    reveal_strlit("complexity_delta");
    reveal_strlit("fan_out_delta");
    reveal_strlit("new_duplication");
    reveal_strlit("check_violations");
    reveal_strlit("symbols_added");
    reveal_strlit("symbols_removed");
    reveal_strlit("files_changed");
    let i = choose|i: int| 0 <= i < metric_names().len() && metric_names()[i] == m;
    assert(metric_names()[i] == m);
}

/// Where each character of a condition's text comes from: the metric
/// name, a space, the operator, a space, the value's digits (with a sign).
proof fn lemma_condition_text_chars(c: (Seq<char>, Op, i64))
    requires
        metric_names().contains(c.0),
    ensures
        ({
            let t = condition_text(c);
            let a = c.0.len() as int;
            let o = op_text(c.1);
            &&& t.len() > a + 2 + o.len()
            &&& t.take(a + 1) == c.0 + seq![' ']
            &&& t.skip(a + 1 + o.len()) == seq![' '] + int_text(c.2 as int)
            &&& forall|k: int| 0 <= k < t.len() ==> {
                ||| (k < a && name_char(#[trigger] t[k]))
                ||| (k == a && t[k] == ' ')
                ||| (a < k <= a + o.len() && t[k] == o[k - a - 1])
                ||| (k == a + 1 + o.len() && t[k] == ' ')
                ||| (k > a + 1 + o.len() && (is_digit(t[k]) || t[k] == '-'))
            }
        }),
{
    reveal_strlit(" ");
    lemma_metric_name_chars(c.0);
    lemma_parse_int_text(c.2 as int);
    let m = c.0;
    let o = op_text(c.1);
    let d = int_text(c.2 as int);
    let t = condition_text(c);
    let a = m.len() as int;
    assert(t =~= m + seq![' '] + o + seq![' '] + d);
    assert(t.take(a + 1) =~= m + seq![' ']);
    assert(t.skip(a + 1 + o.len()) =~= seq![' '] + d);
    assert forall|k: int| 0 <= k < t.len() implies {
        ||| (k < a && name_char(#[trigger] t[k]))
        ||| (k == a && t[k] == ' ')
        ||| (a < k <= a + o.len() && t[k] == o[k - a - 1])
        ||| (k == a + 1 + o.len() && t[k] == ' ')
        ||| (k > a + 1 + o.len() && (is_digit(t[k]) || t[k] == '-'))
    } by {
        if k < a {
            assert(t[k] == m[k]);
        } else if k > a + 1 + o.len() {
            assert(t[k] == d[k - a - 2 - o.len()]);
        }
    }
}

/// Parsing one condition's text gives the condition back.
proof fn lemma_condition_parses_back(c: (Seq<char>, Op, i64), expr: Seq<char>)
    requires
        metric_names().contains(c.0),
    ensures
        parse_condition_spec(condition_text(c), expr) == Ok::<(Seq<char>, Op, i64), Seq<char>>(c),
        forall|k: int| 0 <= k < condition_text(c).len() ==> #[trigger] condition_text(c)[k] != ',',
{
    reveal_strlit(">=");
    reveal_strlit("<=");
    reveal_strlit(">");
    reveal_strlit("<");
    lemma_condition_text_chars(c);
    lemma_metric_name_chars(c.0);
    lemma_parse_int_text(c.2 as int);
    let m = c.0;
    let o = op_text(c.1);
    let d = int_text(c.2 as int);
    let t = condition_text(c);
    let a = m.len() as int;
    let ge = seq!['>', '='];
    let le = seq!['<', '='];
    assert(">="@ == ge);
    assert("<="@ == le);
    // The trimmed text is the text.
    assert(t[0] == m[0]);
    assert(t.last() == d.last()) by {
        assert(t[t.len() - 1] == d[d.len() - 1]);
    }
    lemma_trim_unchanged(t);
    // A pattern starting with `>` or `<` can occur only at the operator.
    assert forall|j: int| 0 <= j < t.len() && j != a + 1 implies t[j] != '>' && t[j] != '<' by {
        assert(0 <= j < t.len());
    }
    assert forall|j: int| 0 <= j < t.len() && j != a + 1 && #[trigger] occurs_at(t, ge, j) implies false by {
        assert(t.subrange(j, j + 2)[0] == t[j]);
    }
    assert forall|j: int| 0 <= j < t.len() && j != a + 1 && #[trigger] occurs_at(t, le, j) implies false by {
        assert(t.subrange(j, j + 2)[0] == t[j]);
    }
    let idx = a + 1;
    match c.1 {
        Op::Ge => {
            assert(t.subrange(a + 1, a + 3) =~= ge);
            lemma_find_sub_first(t, ge, a + 1);
        },
        Op::Le => {
            assert forall|j: int| 0 <= j < t.len() implies !occurs_at(t, ge, j) by {
                if j == a + 1 {
                    assert(t.subrange(j, j + 2)[0] == t[j]);
                }
            }
            lemma_find_sub_absent(t, ge);
            assert(t.subrange(a + 1, a + 3) =~= le);
            lemma_find_sub_first(t, le, a + 1);
        },
        Op::Gt => {
            assert forall|j: int| 0 <= j < t.len() implies !occurs_at(t, ge, j) by {
                if j == a + 1 {
                    assert(t.subrange(j, j + 2)[1] == t[j + 1]);
                }
            }
            assert forall|j: int| 0 <= j < t.len() implies !occurs_at(t, le, j) by {
                if j == a + 1 {
                    assert(t.subrange(j, j + 2)[0] == t[j]);
                }
            }
            lemma_find_sub_absent(t, ge);
            lemma_find_sub_absent(t, le);
            lemma_index_of_first(t, '>', a + 1);
        },
        Op::Lt => {
            assert forall|j: int| 0 <= j < t.len() implies !occurs_at(t, ge, j) by {
                if j == a + 1 {
                    assert(t.subrange(j, j + 2)[0] == t[j]);
                }
            }
            assert forall|j: int| 0 <= j < t.len() implies !occurs_at(t, le, j) by {
                if j == a + 1 {
                    assert(t.subrange(j, j + 2)[1] == t[j + 1]);
                }
            }
            lemma_find_sub_absent(t, ge);
            lemma_find_sub_absent(t, le);
            assert forall|j: int| 0 <= j < t.len() implies t[j] != '>' by {
                assert(0 <= j < t.len());
            }
            lemma_index_of_absent(t, '>');
            lemma_index_of_first(t, '<', a + 1);
        },
    }
    assert(detect_op(t) == Some((c.1, idx, o.len() as int)));
    // The metric: the name and its trailing space, trimmed.
    let head = t.take(idx);
    assert(head.drop_last() =~= m);
    assert(trim_start(head) == head);
    assert(trim_end(head) == trim_end(m));
    lemma_trim_unchanged(m);
    assert(trim(head) == m);
    // The value: its leading space and digits, trimmed.
    let tail = t.skip(idx + o.len());
    assert(tail.drop_first() =~= d);
    assert(trim_start(tail) == trim_start(d));
    lemma_trim_unchanged(d);
    assert(trim(tail) == d);
    assert(parse_i64_spec(d) == Some(c.2));
}

/// Splitting conditions' text at its commas gives each condition's text.
proof fn lemma_split_conditions(cs: Seq<(Seq<char>, Op, i64)>)
    requires
        cs.len() > 0,
        forall|i: int| 0 <= i < cs.len() ==> metric_names().contains(#[trigger] cs[i].0),
    ensures
        split_char(conditions_text(cs), ',') == cs.map_values(|c: (Seq<char>, Op, i64)| condition_text(c)),
    decreases cs.len(),
{
    let t0 = condition_text(cs[0]);
    assert(metric_names().contains(cs[0].0));
    lemma_condition_parses_back(cs[0], seq![]);
    if cs.len() == 1 {
        lemma_index_of_absent(t0, ',');
        assert(split_char(t0, ',') =~= seq![t0]);
        assert(cs.map_values(|c: (Seq<char>, Op, i64)| condition_text(c)) =~= seq![t0]);
    } else {
        let rest = cs.drop_first();
        assert forall|i: int| 0 <= i < rest.len() implies metric_names().contains(#[trigger] rest[i].0) by {
            assert(rest[i] == cs[i + 1]);
        }
        lemma_split_conditions(rest);
        let t = conditions_text(cs);
        let n = t0.len() as int;
        assert(t == t0 + seq![','] + conditions_text(rest));
        assert forall|j: int| 0 <= j < n implies t[j] != ',' by {
            assert(t[j] == t0[j]);
        }
        lemma_index_of_first(t, ',', n);
        assert(t.take(n) =~= t0);
        assert(t.skip(n + 1) =~= conditions_text(rest));
        assert(cs.map_values(|c: (Seq<char>, Op, i64)| condition_text(c)) =~= seq![t0]
            + rest.map_values(|c: (Seq<char>, Op, i64)| condition_text(c)));
    }
}

proof fn lemma_parse_condition_texts(cs: Seq<(Seq<char>, Op, i64)>, expr: Seq<char>)
    requires
        forall|i: int| 0 <= i < cs.len() ==> metric_names().contains(#[trigger] cs[i].0),
    ensures
        parse_conditions_spec(cs.map_values(|c: (Seq<char>, Op, i64)| condition_text(c)), expr)
            == Ok::<Seq<(Seq<char>, Op, i64)>, Seq<char>>(cs),
    decreases cs.len(),
{
    let ts = cs.map_values(|c: (Seq<char>, Op, i64)| condition_text(c));
    if cs.len() > 0 {
        let rest = cs.drop_first();
        assert forall|i: int| 0 <= i < rest.len() implies metric_names().contains(#[trigger] rest[i].0) by {
            assert(rest[i] == cs[i + 1]);
        }
        lemma_parse_condition_texts(rest, expr);
        assert(metric_names().contains(cs[0].0));
        lemma_condition_parses_back(cs[0], expr);
        assert(ts.drop_first() =~= rest.map_values(|c: (Seq<char>, Op, i64)| condition_text(c)));
        assert(ts[0] == condition_text(cs[0]));
        assert(seq![cs[0]] + rest =~= cs);
        assert(parse_conditions_spec(ts, expr) == Ok::<Seq<(Seq<char>, Op, i64)>, Seq<char>>(
            seq![cs[0]] + rest,
        ));
    } else {
        assert(ts =~= Seq::<Seq<char>>::empty());
        assert(cs =~= Seq::<(Seq<char>, Op, i64)>::empty());
    }
}

/// A condition's text (`FailCondition::to_text`) parses back to that
/// condition; so do several conditions' texts joined by commas, each in
/// its place.
pub proof fn law_fail_on_text_parses_back(c: (Seq<char>, Op, i64), cs: Seq<(Seq<char>, Op, i64)>)
    requires
        metric_names().contains(c.0),
        cs.len() > 0,
        forall|i: int| 0 <= i < cs.len() ==> metric_names().contains(#[trigger] cs[i].0),
    ensures
        fail_on_spec(condition_text(c)) == Ok::<Seq<(Seq<char>, Op, i64)>, Seq<char>>(seq![c]),
        fail_on_spec(conditions_text(cs)) == Ok::<Seq<(Seq<char>, Op, i64)>, Seq<char>>(cs),
{
    lemma_split_conditions(cs);
    lemma_parse_condition_texts(cs, conditions_text(cs));
    let one = seq![c];
    assert(one[0] == c);
    lemma_split_conditions(one);
    assert(conditions_text(one) == condition_text(c));
    lemma_parse_condition_texts(one, condition_text(c));
}

// ---------------------------------------------------------------------------
// What the complexity counts, and what the operators compare
// ---------------------------------------------------------------------------

/// The call edges leaving `id`.
pub open spec fn calls_from(edges: Seq<(Seq<char>, Seq<char>)>, id: Seq<char>) -> Seq<(Seq<char>, Seq<char>)> {
    edges.filter(|e: (Seq<char>, Seq<char>)| e.0 == id)
}

/// The call edges aimed at the name `name`.
pub open spec fn calls_to(edges: Seq<(Seq<char>, Seq<char>)>, name: Seq<char>) -> Seq<(Seq<char>, Seq<char>)> {
    edges.filter(|e: (Seq<char>, Seq<char>)| e.1 == name)
}

proof fn lemma_counts_are_filters(edges: Seq<(Seq<char>, Seq<char>)>, id: Seq<char>, name: Seq<char>)
    ensures
        count_sources(edges, id) == calls_from(edges, id).len(),
        count_targets(edges, name) == calls_to(edges, name).len(),
    decreases edges.len(),
{
    reveal_with_fuel(Seq::filter, 1);
    if edges.len() > 0 {
        lemma_counts_are_filters(edges.drop_last(), id, name);
    }
}

/// A side's complexity is the sum over its symbols, each function or
/// method adding twice the number of call edges leaving it (its fan-out)
/// plus the number of call edges aimed at its name (its same-file
/// callers), and every other symbol adding nothing; a side without
/// symbols has complexity 0.
pub proof fn law_complexity_is_twice_fan_out_plus_fan_in(
    syms: Seq<Symbol>,
    s: Symbol,
    edges: Seq<(Seq<char>, Seq<char>)>,
)
    ensures
        side_complexity(Seq::<Symbol>::empty(), edges) == 0,
        side_complexity(syms.push(s), edges) == side_complexity(syms, edges) + if s.kind
            == SymbolKind::Function || s.kind == SymbolKind::Method {
            2 * calls_from(edges, s.id@).len() + calls_to(edges, s.name@).len()
        } else {
            0
        },
{
    lemma_counts_are_filters(edges, s.id@, s.name@);
    assert(syms.push(s).drop_last() =~= syms);
}

/// The comparison operators of `--fail-on` conditions compare as their
/// symbols say: `>=` holds when the left side is at least the right (equal
/// values included), `>` when it is larger, `<=` and `<` the other way
/// round; `>=` and `<` are each other's negation, as are `<=` and `>`.
pub proof fn law_operators_compare(a: int, b: int)
    ensures
        op_holds(Op::Ge, a, b) <==> a >= b,
        op_holds(Op::Gt, a, b) <==> a > b,
        op_holds(Op::Le, a, b) <==> a <= b,
        op_holds(Op::Lt, a, b) <==> a < b,
        op_holds(Op::Ge, a, a),
        op_holds(Op::Le, a, a),
        !op_holds(Op::Gt, a, a),
        !op_holds(Op::Lt, a, a),
        op_holds(Op::Ge, a, b) != op_holds(Op::Lt, a, b),
        op_holds(Op::Le, a, b) != op_holds(Op::Gt, a, b),
        op_holds(Op::Ge, a, b) == op_holds(Op::Le, b, a),
        op_holds(Op::Gt, a, b) == op_holds(Op::Lt, b, a),
{
}

/// A condition on a metric trips exactly as its operator compares the
/// metric's value with the threshold: a `>=` or `<=` condition whose
/// threshold equals the value trips, a `>` or `<` one does not; a
/// condition on an unknown metric never trips.
pub proof fn law_conditions_trip_by_comparison(c: (Seq<char>, Op, i64), m: Metrics)
    ensures
        metric_names().contains(c.0) ==> metric_value(m, c.0) is Some,
        (metric_value(m, c.0) matches Some(v) && v == c.2) ==> (condition_holds(c, m) <==> (c.1
            == Op::Ge || c.1 == Op::Le)),
        (metric_value(m, c.0) matches Some(v) && v > c.2) ==> (condition_holds(c, m) <==> (c.1
            == Op::Ge || c.1 == Op::Gt)),
        (metric_value(m, c.0) matches Some(v) && v < c.2) ==> (condition_holds(c, m) <==> (c.1
            == Op::Le || c.1 == Op::Lt)),
        metric_value(m, c.0) is None ==> !condition_holds(c, m),
{
    lemma_metric_value_defined(m, c.0);
}

} // verus!
