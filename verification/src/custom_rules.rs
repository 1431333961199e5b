//! User-defined lint rules expressed as mq queries.
//!
//! A [`CustomRule`]'s `query` is evaluated against the document with mq's own query engine;
//! every result that is a Markdown node with a source position becomes one diagnostic at that
//! position, with the rule's configured `message` and `severity`. A rule may also carry a `fix`
//! expression, evaluated with the matched node as its input, whose result replaces the node's
//! span. A query (or fix expression) that fails to parse or evaluate is an error, not a rule
//! that quietly never fires.
use crate::rules::key_le;
use crate::{fix_view, Fix, Range, Severity};
use vstd::prelude::*;

verus! {

/// One `[[custom_rules]]` entry of the configuration file.
#[derive(Debug, Clone, PartialEq)]
pub struct CustomRule {
    /// A stable identifier, shown as the diagnostic's rule id.
    pub id: String,
    /// The mq query run against the document.
    pub query: String,
    /// The diagnostic text shown for every match.
    pub message: String,
    pub severity: Severity,
    /// An optional mq expression producing the replacement text for a matched node.
    pub fix: Option<String>,
}

/// A finding from a [`CustomRule`].
#[derive(Debug, Clone, PartialEq)]
pub struct CustomDiagnostic {
    pub rule_id: String,
    pub message: String,
    pub severity: Severity,
    pub range: Option<Range>,
    pub fix: Option<Fix>,
}

/// Error evaluating a custom rule's query: most commonly a syntax mistake in hand-written mq.
#[derive(Debug, Clone, PartialEq)]
pub struct CustomRuleError {
    pub rule_id: String,
    pub reason: String,
}

impl CustomRuleError {
    pub open spec fn spec_text(&self) -> Seq<char> {
        "custom rule `"@ + self.rule_id@ + "`: "@ + self.reason@
    }

    /// The error message: `custom rule `<id>`: <reason>`.
    pub fn text(&self) -> (r: String)
        ensures
            r@ == self.spec_text(),
    {
        let mut r = String::from_str("custom rule `");
        r.append(self.rule_id.as_str());
        r.append("`: ");
        r.append(self.reason.as_str());
        r
    }
}

/// A node a rule's query matched: its position, and, when the rule has a fix expression, what
/// evaluating it on the node gave (the replacement text, or the engine's error message).
pub struct QueryMatch {
    pub range: Range,
    pub fix: Option<Result<String, String>>,
}

/// The index of the first match whose fix expression failed, if any.
pub open spec fn first_fix_error(matches: Seq<QueryMatch>) -> Option<int>
    decreases matches.len(),
{
    if matches.len() == 0 {
        None
    } else if matches[0].fix matches Some(Err(_)) {
        Some(0)
    } else {
        match first_fix_error(matches.drop_first()) {
            Some(i) => Some(i + 1),
            None => None,
        }
    }
}

/// The fix a match carries, as values.
pub open spec fn match_fix(m: QueryMatch) -> Option<(Range, Seq<char>)> {
    match m.fix {
        Some(Ok(t)) => Some((m.range, t@)),
        _ => None,
    }
}

/// Whether `d` is the diagnostic rule `rule` reports for match `m`.
pub open spec fn reports(rule: CustomRule, m: QueryMatch, d: CustomDiagnostic) -> bool {
    &&& d.rule_id@ == rule.id@
    &&& d.message@ == rule.message@
    &&& d.severity == rule.severity
    &&& d.range == Some(m.range)
    &&& fix_view(d.fix) == match_fix(m)
}

/// The diagnostics of `rule` for the nodes its query matched: one per match, in order, unless
/// a fix expression failed, which makes the first such failure the rule's error.
pub fn rule_diagnostics(rule: &CustomRule, matches: &Vec<QueryMatch>) -> (r: Result<
    Vec<CustomDiagnostic>,
    CustomRuleError,
>)
    ensures
        match first_fix_error(matches@) {
            Some(k) => r matches Err(e) && e.rule_id@ == rule.id@ && (
            matches@[k].fix matches Some(Err(reason)) && e.reason@ == "fix: "@ + reason@),
            None => r matches Ok(ds) && ds@.len() == matches@.len() && forall|i: int|
                0 <= i < ds@.len() ==> reports(*rule, matches@[i], #[trigger] ds@[i]),
        },
{
    let mut out: Vec<CustomDiagnostic> = Vec::new();
    let mut i: usize = 0;
    proof {
        assert(matches@.skip(0) =~= matches@);
    }
    while i < matches.len()
        invariant
            i <= matches@.len(),
            first_fix_error(matches@) == match first_fix_error(matches@.skip(i as int)) {
                Some(k) => Some(k + i),
                None => None,
            },
            out@.len() == i,
            forall|j: int| 0 <= j < i ==> reports(*rule, matches@[j], #[trigger] out@[j]),
        decreases matches@.len() - i,
    {
        let m = &matches[i];
        proof {
            assert(matches@.skip(i as int)[0] == matches@[i as int]);
            assert(matches@.skip(i as int).drop_first() =~= matches@.skip(i + 1));
        }
        let fix = match &m.fix {
            None => None,
            Some(Ok(t)) => Some(Fix { range: m.range, replacement: t.clone() }),
            Some(Err(e)) => {
                let mut reason = String::from_str("fix: ");
                reason.append(e.as_str());
                return Err(CustomRuleError { rule_id: rule.id.clone(), reason });
            },
        };
        out.push(
            CustomDiagnostic {
                rule_id: rule.id.clone(),
                message: rule.message.clone(),
                severity: rule.severity,
                range: Some(m.range),
                fix,
            },
        );
        i = i + 1;
    }
    proof {
        assert(matches@.skip(i as int).len() == 0);
    }
    Ok(out)
}

/// That mq-lang's engine, evaluating `query` on a document, gave `outcome`: how many non-empty
/// results, or its error message. Nothing else is known of it: a query may read the time or
/// draw random numbers, so the same query need not give the same outcome twice.
pub uninterp spec fn query_gave(query: Seq<char>, outcome: Result<nat, Seq<char>>) -> bool;

/// That mq-lang's engine, evaluating fix expression `fix` on a node, gave `outcome`: its
/// non-empty results as text, or its error message.
pub uninterp spec fn fix_gave(fix: Seq<char>, outcome: Result<Seq<Seq<char>>, Seq<char>>) -> bool;

/// Evaluates mq `query` on the top-level nodes of `doc` (`Engine::eval`, builtin module
/// loaded), giving each non-empty result's node when it is a Markdown node, or the engine's
/// error message. The engine runs sandboxed (no file, network or environment access, and an
/// empty standard input), with at most 10 seconds per evaluation and a call depth of at most
/// 1000, past which it reports an error; a single builtin call is not interrupted. What the
/// engine computes is not stated beyond `query_gave`.
#[verifier::external_body]
fn eval_query(query: &str, doc: &mq_markdown::Markdown) -> (r: Result<Vec<Option<mq_markdown::Node>>, String>)
    ensures
        query_gave(query@, match r { Ok(found) => Ok(found@.len()), Err(e) => Err(e@) }),
{
    let io = mq_lang::Shared::new(mq_lang::SandboxedIo::new(mq_lang::MemIo::default().capture_console()));
    let mut engine = mq_lang::Engine::with_default_io(io);
    engine.load_builtin_module();
    engine.set_timeout(std::time::Duration::from_secs(10));
    engine.set_max_call_stack_depth(1000);
    match engine.eval(query, doc.nodes.iter().cloned().map(mq_lang::RuntimeValue::from)) {
        Ok(values) => Ok(values.compact().into_iter().map(|v| match v {
            mq_lang::RuntimeValue::Markdown(node, _) => Some((*node).clone()),
            _ => None,
        }).collect()),
        Err(e) => Err(e.to_string()),
    }
}

/// Evaluates mq expression `fix_query` with `node` as its sole input (`Engine::eval`, builtin
/// module loaded), giving each non-empty result as text (`ToString`), or the engine's error
/// message. The engine is sandboxed and limited as for [`eval_query`]. What it computes is not
/// stated beyond `fix_gave`.
#[verifier::external_body]
fn eval_fix(fix_query: &str, node: &mq_markdown::Node) -> (r: Result<Vec<String>, String>)
    ensures
        fix_gave(fix_query@, match r { Ok(parts) => Ok(parts@.map_values(|p: String| p@)), Err(e) => Err(e@) }),
{
    let io = mq_lang::Shared::new(mq_lang::SandboxedIo::new(mq_lang::MemIo::default().capture_console()));
    let mut engine = mq_lang::Engine::with_default_io(io);
    engine.load_builtin_module();
    engine.set_timeout(std::time::Duration::from_secs(10));
    engine.set_max_call_stack_depth(1000);
    match engine.eval(fix_query, std::iter::once(mq_lang::RuntimeValue::from(node.clone()))) {
        Ok(values) => Ok(values.compact().iter().map(|v| v.to_string()).collect()),
        Err(e) => Err(e.to_string()),
    }
}

/// The concatenation of `parts`.
fn concat_all(parts: &Vec<String>) -> (r: String)
    ensures
        r@ == parts@.map_values(|p: String| p@).fold_left(Seq::<char>::empty(), |acc: Seq<char>, p: Seq<char>| acc + p),
{
    let mut r = String::new();
    let mut i: usize = 0;
    proof {
        assert(parts@.map_values(|p: String| p@).take(0) =~= Seq::<Seq<char>>::empty());
    }
    while i < parts.len()
        invariant
            i <= parts@.len(),
            r@ == parts@.map_values(|p: String| p@).take(i as int).fold_left(Seq::<char>::empty(), |acc: Seq<char>, p: Seq<char>| acc + p),
        decreases parts@.len() - i,
    {
        let ghost ps = parts@.map_values(|p: String| p@);
        proof {
            assert(ps.take(i + 1).drop_last() =~= ps.take(i as int));
        }
        r.append(parts[i].as_str());
        i = i + 1;
    }
    proof {
        assert(parts@.map_values(|p: String| p@).take(parts@.len() as int) =~= parts@.map_values(|p: String| p@));
    }
    r
}

/// Whether `d` is a diagnostic one of `rules` could report: its rule's id, message and
/// severity, at a known position.
pub open spec fn from_some_rule(rules: Seq<CustomRule>, d: CustomDiagnostic) -> bool {
    exists|j: int|
        0 <= j < rules.len() && (#[trigger] rules[j]).id@ == d.rule_id@ && rules[j].message@
            == d.message@ && rules[j].severity == d.severity && d.range is Some
}

/// Whether `d` is a diagnostic one of `rules` reports: its rule's id, message and severity, at
/// a known position, with a fix at that position exactly when the rule has a fix expression.
pub open spec fn reported_by(rules: Seq<CustomRule>, d: CustomDiagnostic) -> bool {
    exists|j: int|
        0 <= j < rules.len() && (#[trigger] rules[j]).id@ == d.rule_id@ && rules[j].message@
            == d.message@ && rules[j].severity == d.severity && d.range is Some && (match rules[j].fix {
            Some(_) => d.fix matches Some(f) && d.range == Some(f.range),
            None => d.fix is None,
        })
}

proof fn lemma_reported_by_some_rule(rules: Seq<CustomRule>, d: CustomDiagnostic)
    requires
        reported_by(rules, d),
    ensures
        from_some_rule(rules, d),
{
    let j = choose|j: int|
        0 <= j < rules.len() && (#[trigger] rules[j]).id@ == d.rule_id@ && rules[j].message@
            == d.message@ && rules[j].severity == d.severity && d.range is Some && (match rules[j].fix {
            Some(_) => d.fix matches Some(f) && d.range == Some(f.range),
            None => d.fix is None,
        });
    assert(rules[j].id@ == d.rule_id@);
}

proof fn lemma_no_fix_error(ms: Seq<QueryMatch>, i: int)
    requires
        first_fix_error(ms) is None,
        0 <= i < ms.len(),
    ensures
        !(ms[i].fix matches Some(Err(_))),
    decreases ms.len(),
{
    if i > 0 {
        assert(ms.drop_first()[i - 1] == ms[i]);
        lemma_no_fix_error(ms.drop_first(), i - 1);
    }
}

/// A custom finding as values: rule id, message, severity, position and fix.
pub type CustomView = (Seq<char>, Seq<char>, Severity, Option<Range>, Option<(Range, Seq<char>)>);

/// The values of a custom finding.
pub open spec fn custom_view(d: CustomDiagnostic) -> CustomView {
    (d.rule_id@, d.message@, d.severity, d.range, fix_view(d.fix))
}

/// The values of a list of custom findings.
pub open spec fn custom_views(ds: Seq<CustomDiagnostic>) -> Seq<CustomView> {
    ds.map_values(|d: CustomDiagnostic| custom_view(d))
}

/// The finding `rule` reports for match `m`, as values.
pub open spec fn match_view(rule: CustomRule, m: QueryMatch) -> CustomView {
    (rule.id@, rule.message@, rule.severity, Some(m.range), match_fix(m))
}

/// The findings of `rule` for its matches `ms`, in order, or the reason of its first failed
/// fix expression.
pub open spec fn rule_findings(rule: CustomRule, ms: Seq<QueryMatch>) -> Result<Seq<CustomView>, Seq<char>> {
    match first_fix_error(ms) {
        Some(k) => match ms[k].fix {
            Some(Err(reason)) => Err("fix: "@ + reason@),
            _ => Err(Seq::empty()),
        },
        None => Ok(ms.map_values(|m: QueryMatch| match_view(rule, m))),
    }
}

/// The findings of the rules, rule by rule, for what their queries gave (`outcomes[j]` for
/// `rules[j]`): their matches, or the engine's error. The first rule whose query or fix
/// expression failed gives the error, as its id and the reason.
pub open spec fn combined_findings(
    rules: Seq<CustomRule>,
    outcomes: Seq<Result<Vec<QueryMatch>, String>>,
) -> Result<Seq<CustomView>, (Seq<char>, Seq<char>)>
    decreases outcomes.len(),
{
    if outcomes.len() == 0 {
        Ok(Seq::empty())
    } else {
        let j = outcomes.len() - 1;
        match combined_findings(rules, outcomes.drop_last()) {
            Err(e) => Err(e),
            Ok(before) => match outcomes[j] {
                Err(msg) => Err((rules[j].id@, msg@)),
                Ok(ms) => match rule_findings(rules[j], ms@) {
                    Err(reason) => Err((rules[j].id@, reason)),
                    Ok(found) => Ok(before + found),
                },
            },
        }
    }
}

/// Where `d` goes among the sorted `out`: after every entry whose position sorts no later.
pub open spec fn insert_pos(out: Seq<CustomView>, d: CustomView) -> nat
    decreases out.len(),
{
    if out.len() == 0 {
        0
    } else if key_le(out[0].3, d.3) {
        1 + insert_pos(out.drop_first(), d)
    } else {
        0
    }
}

/// `vs` sorted by position, stably: each in turn inserted after the entries that sort no
/// later.
pub open spec fn sorted_views(vs: Seq<CustomView>) -> Seq<CustomView>
    decreases vs.len(),
{
    if vs.len() == 0 {
        vs
    } else {
        let out = sorted_views(vs.drop_last());
        out.insert(insert_pos(out, vs.last()) as int, vs.last())
    }
}

/// Whether `r` is what the combined findings `c` give: their sorted values, or the error of
/// the rule that failed.
pub open spec fn agrees(
    r: Result<Vec<CustomDiagnostic>, CustomRuleError>,
    c: Result<Seq<CustomView>, (Seq<char>, Seq<char>)>,
) -> bool {
    match (r, c) {
        (Ok(ds), Ok(vs)) => custom_views(ds@) == sorted_views(vs),
        (Err(e), Err((id, reason))) => e.rule_id@ == id && e.reason@ == reason,
        _ => false,
    }
}

/// Whether a query outcome's matches carry a fix outcome exactly when `rule` has a fix
/// expression.
pub open spec fn outcome_fits(rule: CustomRule, o: Result<Vec<QueryMatch>, String>) -> bool {
    match o {
        Ok(ms) => forall|i: int|
            0 <= i < ms@.len() ==> match rule.fix {
                Some(_) => (#[trigger] ms@[i]).fix is Some,
                None => ms@[i].fix is None,
            },
        Err(_) => true,
    }
}

/// Whether `outcomes` are what the queries of the first rules of `rules` can give.
pub open spec fn outcomes_fit(rules: Seq<CustomRule>, outcomes: Seq<Result<Vec<QueryMatch>, String>>) -> bool {
    &&& outcomes.len() <= rules.len()
    &&& forall|j: int| 0 <= j < outcomes.len() ==> outcome_fits(rules[j], #[trigger] outcomes[j])
}

/// Once the findings of some first outcomes fail, so do those of all of them, with the same
/// error.
proof fn lemma_combined_failure_stays(
    rules: Seq<CustomRule>,
    outcomes: Seq<Result<Vec<QueryMatch>, String>>,
    m: int,
)
    requires
        0 <= m <= outcomes.len(),
        combined_findings(rules, outcomes.take(m)) is Err,
    ensures
        combined_findings(rules, outcomes) == combined_findings(rules, outcomes.take(m)),
    decreases outcomes.len() - m,
{
    if m < outcomes.len() {
        let next = outcomes.take(m + 1);
        assert(next.drop_last() =~= outcomes.take(m));
        lemma_combined_failure_stays(rules, outcomes, m + 1);
    } else {
        assert(outcomes.take(m) =~= outcomes);
    }
}

/// The error of the combined findings names one of the rules.
proof fn lemma_combined_failure_names_a_rule(
    rules: Seq<CustomRule>,
    outcomes: Seq<Result<Vec<QueryMatch>, String>>,
)
    requires
        outcomes.len() <= rules.len(),
    ensures
        combined_findings(rules, outcomes) matches Err((id, _)) ==> exists|j: int|
            0 <= j < rules.len() && (#[trigger] rules[j]).id@ == id,
    decreases outcomes.len(),
{
    if outcomes.len() > 0 {
        let j = outcomes.len() - 1;
        lemma_combined_failure_names_a_rule(rules, outcomes.drop_last());
        assert(rules[j].id@ == rules[j].id@);
    }
}

/// Whether some match's fix expression failed.
fn has_fix_error(ms: &Vec<QueryMatch>) -> (r: bool)
    ensures
        r == first_fix_error(ms@) is Some,
{
    let mut i: usize = 0;
    proof {
        assert(ms@.skip(0) =~= ms@);
    }
    while i < ms.len()
        invariant
            i <= ms@.len(),
            first_fix_error(ms@) == match first_fix_error(ms@.skip(i as int)) {
                Some(k) => Some(k + i),
                None => None,
            },
        decreases ms@.len() - i,
    {
        proof {
            assert(ms@.skip(i as int)[0] == ms@[i as int]);
            assert(ms@.skip(i as int).drop_first() =~= ms@.skip(i + 1));
        }
        match &ms[i].fix {
            Some(Err(_)) => {
                return true;
            },
            _ => {},
        }
        i = i + 1;
    }
    proof {
        assert(ms@.skip(i as int).len() == 0);
    }
    false
}

/// The findings of `rules` for what their queries gave (`outcomes[j]` for `rules[j]`: the
/// matched nodes, or the engine's error), sorted by position, stably; or the error of the first
/// rule whose query or fix expression failed.
pub fn combine(rules: &Vec<CustomRule>, outcomes: &Vec<Result<Vec<QueryMatch>, String>>) -> (r: Result<
    Vec<CustomDiagnostic>,
    CustomRuleError,
>)
    requires
        outcomes_fit(rules@, outcomes@),
    ensures
        agrees(r, combined_findings(rules@, outcomes@)),
        r matches Ok(ds) ==> forall|i: int| 0 <= i < ds@.len() ==> reported_by(rules@, #[trigger] ds@[i]),
        r matches Ok(ds) ==> by_position(ds@),
{
    let mut all: Vec<CustomDiagnostic> = Vec::new();
    let mut j: usize = 0;
    proof {
        assert(outcomes@.take(0) =~= Seq::<Result<Vec<QueryMatch>, String>>::empty());
        assert(custom_views(all@) =~= Seq::<CustomView>::empty());
        assert(combined_findings(rules@, Seq::<Result<Vec<QueryMatch>, String>>::empty()) == Ok::<Seq<CustomView>, (Seq<char>, Seq<char>)>(Seq::<CustomView>::empty()));
    }
    while j < outcomes.len()
        invariant
            j <= outcomes@.len(),
            outcomes_fit(rules@, outcomes@),
            combined_findings(rules@, outcomes@.take(j as int)) == Ok::<Seq<CustomView>, (Seq<char>, Seq<char>)>(custom_views(all@)),
            forall|i: int| 0 <= i < all@.len() ==> reported_by(rules@, #[trigger] all@[i]),
        decreases outcomes@.len() - j,
    {
        let rule = &rules[j];
        let ghost prefix = outcomes@.take(j + 1);
        proof {
            assert(prefix.drop_last() =~= outcomes@.take(j as int));
            assert(prefix[j as int] == outcomes@[j as int]);
            assert(outcome_fits(rules@[j as int], outcomes@[j as int]));
        }
        match &outcomes[j] {
            Err(msg) => {
                let e = CustomRuleError { rule_id: rule.id.clone(), reason: msg.clone() };
                proof {
                    lemma_combined_failure_stays(rules@, outcomes@, j + 1);
                }
                return Err(e);
            },
            Ok(ms) => match rule_diagnostics(rule, ms) {
                Ok(ds) => {
                    let mut ds = ds;
                    let ghost before = all@;
                    let ghost dsv = ds@;
                    proof {
                        assert(custom_views(dsv) =~= ms@.map_values(|m: QueryMatch| match_view(*rule, m))) by {
                            assert forall|i: int| 0 <= i < dsv.len() implies custom_views(dsv)[i] == ms@.map_values(|m: QueryMatch| match_view(*rule, m))[i] by {
                                assert(reports(*rule, ms@[i], dsv[i]));
                            }
                        }
                        assert forall|i: int| 0 <= i < dsv.len() implies reported_by(rules@, #[trigger] dsv[i]) by {
                            assert(rules@[j as int] == *rule);
                            assert(reports(*rule, ms@[i], dsv[i]));
                            lemma_no_fix_error(ms@, i);
                        }
                    }
                    all.append(&mut ds);
                    proof {
                        assert(custom_views(all@) =~= custom_views(before) + custom_views(dsv));
                        assert forall|i: int| 0 <= i < all@.len() implies reported_by(rules@, #[trigger] all@[i]) by {
                            if i < before.len() {
                                assert(all@[i] == before[i]);
                            } else {
                                assert(all@[i] == dsv[i - before.len()]);
                            }
                        }
                    }
                },
                Err(e) => {
                    proof {
                        lemma_combined_failure_stays(rules@, outcomes@, j + 1);
                    }
                    return Err(e);
                },
            },
        }
        j = j + 1;
    }
    proof {
        assert(outcomes@.take(j as int) =~= outcomes@);
    }
    let sorted = sort_custom(all, Ghost(rules@));
    Ok(sorted)
}

/// The concatenation of `parts`.
pub open spec fn joined(parts: Seq<Seq<char>>) -> Seq<char> {
    parts.fold_left(Seq::<char>::empty(), |acc: Seq<char>, p: Seq<char>| acc + p)
}

/// Whether match `m`'s fix outcome is what evaluating `rule`'s fix expression gave: its results
/// joined, or its error.
pub open spec fn match_from(rule: CustomRule, m: QueryMatch) -> bool {
    match (rule.fix, m.fix) {
        (Some(q), Some(Ok(t))) => exists|parts: Seq<Seq<char>>|
            #[trigger] fix_gave(q@, Ok(parts)) && t@ == joined(parts),
        (Some(q), Some(Err(e))) => fix_gave(q@, Err(e@)),
        _ => true,
    }
}

/// Whether outcome `o` is what evaluating `rule`'s query gave: the engine's error, or matches
/// no more numerous than its results, each with what its fix expression gave.
pub open spec fn outcome_from(rule: CustomRule, o: Result<Vec<QueryMatch>, String>) -> bool {
    match o {
        Err(e) => query_gave(rule.query@, Err(e@)),
        Ok(ms) => (exists|n: nat| ms@.len() <= n && #[trigger] query_gave(rule.query@, Ok(n)))
            && forall|i: int| 0 <= i < ms@.len() ==> match_from(rule, #[trigger] ms@[i]),
    }
}

/// Whether each outcome is what the query (and fix expression) of the rule at its index gave.
pub open spec fn outcomes_from(rules: Seq<CustomRule>, outcomes: Seq<Result<Vec<QueryMatch>, String>>) -> bool {
    forall|j: int| 0 <= j < outcomes.len() && j < rules.len() ==> outcome_from(rules[j], #[trigger] outcomes[j])
}

/// Runs every rule of `rules` against `doc`, returning the diagnostics sorted by position
/// (stably), or the first rule's error: the findings [`combine`] gives for what each rule's
/// query (and fix expression) gave. Which nodes a query matches is up to the mq engine; the
/// rules after one whose query or fix expression failed are not run.
pub fn run(rules: &Vec<CustomRule>, doc: &mq_markdown::Markdown) -> (r: Result<
    Vec<CustomDiagnostic>,
    CustomRuleError,
>)
    ensures
        exists|outcomes: Seq<Result<Vec<QueryMatch>, String>>|
            #[trigger] outcomes_fit(rules@, outcomes) && outcomes_from(rules@, outcomes) && (outcomes.len() < rules@.len()
                ==> combined_findings(rules@, outcomes) is Err) && agrees(r, combined_findings(rules@, outcomes)),
        r matches Ok(ds) ==> forall|i: int| 0 <= i < ds@.len() ==> from_some_rule(rules@, #[trigger] ds@[i]),
        r matches Ok(ds) ==> forall|i: int| 0 <= i < ds@.len() ==> reported_by(rules@, #[trigger] ds@[i]),
        r matches Ok(ds) ==> by_position(ds@),
        r matches Err(e) ==> exists|j: int| 0 <= j < rules@.len() && (#[trigger] rules@[j]).id@ == e.rule_id@,
        rules@.len() == 0 ==> (r matches Ok(ds) && ds@.len() == 0),
{
    let mut outcomes: Vec<Result<Vec<QueryMatch>, String>> = Vec::new();
    let mut j: usize = 0;
    let mut stop = false;
    while j < rules.len() && !stop
        invariant
            j <= rules@.len(),
            outcomes_fit(rules@, outcomes@),
            outcomes_from(rules@, outcomes@),
            outcomes@.len() <= j,
            !stop ==> outcomes@.len() == j && combined_findings(rules@, outcomes@) is Ok,
            stop ==> combined_findings(rules@, outcomes@) is Err,
        decreases rules@.len() - j,
    {
        let rule = &rules[j];
        let ghost before = outcomes@;
        match eval_query(rule.query.as_str(), doc) {
            Err(e) => {
                outcomes.push(Err(e));
                stop = true;
                proof {
                    assert(outcomes@.drop_last() =~= before);
                    assert(outcomes@[j as int] == outcomes@.last());
                    assert forall|k: int| 0 <= k < outcomes@.len() implies outcome_fits(rules@[k], #[trigger] outcomes@[k]) by {
                        if k < before.len() {
                            assert(outcomes@[k] == before[k]);
                        }
                    }
                    assert forall|k: int| 0 <= k < outcomes@.len() && k < rules@.len() implies outcome_from(rules@[k], #[trigger] outcomes@[k]) by {
                        if k < before.len() {
                            assert(outcomes@[k] == before[k]);
                        }
                    }
                }
            },
            Ok(found) => {
                let mut matches: Vec<QueryMatch> = Vec::new();
                let mut k: usize = 0;
                while k < found.len()
                    invariant
                        k <= found@.len(),
                        matches@.len() <= k,
                        forall|i: int| 0 <= i < matches@.len() ==> match_from(*rule, #[trigger] matches@[i]),
                        forall|i: int| 0 <= i < matches@.len() ==> (match rule.fix {
                            Some(_) => (#[trigger] matches@[i]).fix is Some,
                            None => matches@[i].fix is None,
                        }),
                    decreases found@.len() - k,
                {
                    match &found[k] {
                        Some(node) => match crate::doc::node_position(node) {
                            Some(range) => {
                                let fix = match &rule.fix {
                                    Some(q) => match eval_fix(q.as_str(), node) {
                                        Ok(parts) => Some(Ok(concat_all(&parts))),
                                        Err(e) => Some(Err(e)),
                                    },
                                    None => None,
                                };
                                matches.push(QueryMatch { range, fix });
                            },
                            None => {},
                        },
                        None => {},
                    }
                    k = k + 1;
                }
                let failed = has_fix_error(&matches);
                let ghost mv = matches@;
                outcomes.push(Ok(matches));
                proof {
                    assert(outcomes@.drop_last() =~= before);
                    assert(outcomes@[j as int] == outcomes@.last());
                    assert(mv.len() <= found@.len());
                    assert(outcome_from(*rule, Ok::<Vec<QueryMatch>, String>(matches)));
                    assert forall|k: int| 0 <= k < outcomes@.len() && k < rules@.len() implies outcome_from(rules@[k], #[trigger] outcomes@[k]) by {
                        if k < before.len() {
                            assert(outcomes@[k] == before[k]);
                        } else {
                            assert(outcomes@[k] == Ok::<Vec<QueryMatch>, String>(matches));
                        }
                    }
                    assert forall|k: int| 0 <= k < outcomes@.len() implies outcome_fits(rules@[k], #[trigger] outcomes@[k]) by {
                        if k < before.len() {
                            assert(outcomes@[k] == before[k]);
                        } else {
                            assert(outcomes@[k] == Ok::<Vec<QueryMatch>, String>(matches));
                        }
                    }
                }
                if failed {
                    stop = true;
                }
            },
        }
        j = j + 1;
    }
    proof {
        lemma_combined_failure_names_a_rule(rules@, outcomes@);
    }
    combine(rules, &outcomes)
}

/// Whether `ds` is ordered by position.
pub open spec fn by_position(ds: Seq<CustomDiagnostic>) -> bool {
    forall|a: int, b: int| 0 <= a < b < ds.len() ==> key_le(#[trigger] ds[a].range, #[trigger] ds[b].range)
}

/// Sorts diagnostics stably by position.
fn sort_custom(ds: Vec<CustomDiagnostic>, rules: Ghost<Seq<CustomRule>>) -> (r: Vec<CustomDiagnostic>)
    requires
        forall|i: int| 0 <= i < ds@.len() ==> reported_by(rules@, #[trigger] ds@[i]),
    ensures
        forall|i: int| 0 <= i < r@.len() ==> reported_by(rules@, #[trigger] r@[i]),
        r@.len() == ds@.len(),
        by_position(r@),
        custom_views(r@) == sorted_views(custom_views(ds@)),
{
    let ghost n = ds@.len();
    let ghost orig = custom_views(ds@);
    let mut ds = ds;
    let mut out: Vec<CustomDiagnostic> = Vec::new();
    proof {
        assert(orig.take(0) =~= Seq::<CustomView>::empty());
        assert(custom_views(ds@) =~= orig.skip(0));
    }
    while ds.len() > 0
        invariant
            forall|i: int| 0 <= i < ds@.len() ==> reported_by(rules@, #[trigger] ds@[i]),
            forall|i: int| 0 <= i < out@.len() ==> reported_by(rules@, #[trigger] out@[i]),
            out@.len() + ds@.len() == n,
            orig.len() == n,
            by_position(out@),
            custom_views(ds@) == orig.skip(out@.len() as int),
            custom_views(out@) == sorted_views(orig.take(out@.len() as int)),
        decreases ds@.len(),
    {
        let ghost rest = ds@;
        let ghost k = out@.len() as int;
        let d = ds.remove(0);
        proof {
            assert(custom_views(rest)[0] == custom_view(d));
            assert(orig.skip(k)[0] == orig[k]);
            assert forall|i: int| 0 <= i < ds@.len() implies custom_views(ds@)[i] == orig.skip(k + 1)[i] by {
                assert(ds@[i] == rest[i + 1]);
                assert(custom_views(rest)[i + 1] == orig.skip(k)[i + 1]);
            }
            assert(custom_views(ds@) =~= orig.skip(k + 1));
        }
        proof {
            assert(reported_by(rules@, rest[0]));
            assert forall|i: int| 0 <= i < ds@.len() implies reported_by(rules@, #[trigger] ds@[i]) by {
                assert(ds@[i] == rest[i + 1]);
            }
        }
        let mut p: usize = 0;
        let ghost ov = custom_views(out@);
        let ghost dv = custom_view(d);
        proof {
            assert(ov.skip(0) =~= ov);
        }
        while p < out.len() && crate::rules::position_le(out[p].range, d.range)
            invariant
                p <= out@.len(),
                ov == custom_views(out@),
                dv == custom_view(d),
                forall|j: int| 0 <= j < p ==> key_le((#[trigger] out@[j]).range, d.range),
                insert_pos(ov, dv) == p + insert_pos(ov.skip(p as int), dv),
            decreases out@.len() - p,
        {
            proof {
                assert(ov.skip(p as int)[0] == ov[p as int]);
                assert(ov.skip(p as int).drop_first() =~= ov.skip(p + 1));
            }
            p = p + 1;
        }
        proof {
            if p < out@.len() {
                assert(ov.skip(p as int)[0] == ov[p as int]);
            }
            assert(insert_pos(ov, dv) == p);
            assert(orig.take(k + 1).drop_last() =~= orig.take(k));
            assert(orig.take(k + 1).last() == orig[k]);
        }
        let ghost prev = out@;
        out.insert(p, d);
        proof {
            assert(custom_views(out@) =~= ov.insert(p as int, dv));
            assert(custom_views(out@) == sorted_views(orig.take(k + 1)));
            assert forall|i: int| 0 <= i < out@.len() implies reported_by(rules@, #[trigger] out@[i]) by {
                if i < p {
                    assert(out@[i] == prev[i]);
                } else if i > p {
                    assert(out@[i] == prev[i - 1]);
                }
            }
            assert forall|a: int, b: int| 0 <= a < b < out@.len() implies key_le(
                #[trigger] out@[a].range,
                #[trigger] out@[b].range,
            ) by {
                if b == p {
                    assert(out@[a] == prev[a]);
                } else if a == p {
                    assert(out@[b] == prev[b - 1]);
                    crate::laws::lemma_key_le_total(prev[p as int].range, d.range);
                    if b - 1 > p {
                        assert(key_le(prev[p as int].range, prev[b - 1].range));
                        crate::laws::lemma_key_le_transitive(d.range, prev[p as int].range, prev[b - 1].range);
                    }
                } else if a < p && b < p {
                    assert(out@[a] == prev[a] && out@[b] == prev[b]);
                } else if a < p {
                    assert(out@[a] == prev[a] && out@[b] == prev[b - 1]);
                } else {
                    assert(out@[a] == prev[a - 1] && out@[b] == prev[b - 1]);
                }
            }
        }
    }
    proof {
        assert(orig.take(n as int) =~= orig);
    }
    out
}

} // verus!
