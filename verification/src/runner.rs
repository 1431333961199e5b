//! Linting one text end to end: parse it, run the built-in and custom rules, filter what is
//! reported by severity, and apply fixes pass after pass until the text stops changing.
use crate::custom_rules::{from_some_rule, CustomDiagnostic, CustomRuleError};
use crate::doc::{document_of, markdown_parse_error, parse_markdown, Document};
use crate::fix::{apply_fixes, fix_views, spec_apply_fixes};
use crate::report_item::{item_views, lint, spec_merge, ItemView, ReportItem};
use crate::text::{char_count, str_eq};
use crate::{spec_run, Fix, LintConfig, Linter, Range, Severity};
use vstd::prelude::*;

verus! {

/// How many lint-and-fix passes `fix_source` makes at most: fixing one finding occasionally
/// exposes another, so one pass does not always reach a fully fixed text.
pub const MAX_FIX_PASSES: usize = 10;

/// Why a text could not be linted.
#[derive(Debug, Clone, PartialEq)]
pub enum LintFailure {
    /// `mq-markdown` rejected the text; its message.
    Parse(String),
    /// A custom rule's query or fix expression failed.
    CustomRule(CustomRuleError),
}

impl LintFailure {
    pub open spec fn spec_text(&self) -> Seq<char> {
        match self {
            LintFailure::Parse(m) => m@,
            LintFailure::CustomRule(e) => e.spec_text(),
        }
    }

    /// The failure's message.
    pub fn text(&self) -> (r: String)
        ensures
            r@ == self.spec_text(),
    {
        match self {
            LintFailure::Parse(m) => m.clone(),
            LintFailure::CustomRule(e) => e.text(),
        }
    }
}

/// Whether `items` is what linting `text` can give: the findings of `linter`'s rules on a
/// well-formed parse of `text`, and findings of `config`'s custom rules, merged by position,
/// less what the text's disable comments suppress.
pub open spec fn lints_to(linter: Linter, config: LintConfig, text: Seq<char>, items: Seq<ItemView>) -> bool {
    exists|doc: Document, custom: Seq<CustomDiagnostic>|
        #![trigger spec_merge(spec_run(linter.rules(), doc, text, config), custom, text)]
        doc.wf() && (forall|i: int|
            0 <= i < custom.len() ==> from_some_rule(config.custom_rules@, #[trigger] custom[i]))
            && items == spec_merge(spec_run(linter.rules(), doc, text, config), custom, text)
}

/// Parses `content` and gives every built-in and custom-rule finding, merged and sorted by
/// position, whatever its severity; or why it could not.
pub fn lint_items(content: &str, linter: &Linter, config: &LintConfig) -> (r: Result<
    Vec<ReportItem>,
    LintFailure,
>)
    ensures
        r matches Ok(items) ==> lints_to(*linter, *config, content@, item_views(items@)),
        r matches Err(LintFailure::CustomRule(e)) ==> exists|j: int|
            0 <= j < config.custom_rules@.len() && (#[trigger] config.custom_rules@[j]).id@
                == e.rule_id@,
        markdown_parse_error(content@) is Some <==> r matches Err(LintFailure::Parse(_)),
        r matches Err(LintFailure::Parse(m)) ==> markdown_parse_error(content@) == Some(m@),
        config.custom_rules@.len() == 0 && markdown_parse_error(content@) is None ==> r is Ok,
{
    let _count = char_count(content);
    let markdown = match parse_markdown(content) {
        Ok(m) => m,
        Err(e) => {
            return Err(LintFailure::Parse(e));
        },
    };
    let doc = document_of(&markdown, content);
    match lint(&doc, &markdown, content, linter, config) {
        Ok(items) => {
            proof {
                let custom = choose|custom: Seq<CustomDiagnostic>|
                    (forall|i: int|
                        0 <= i < custom.len() ==> from_some_rule(
                            config.custom_rules@,
                            #[trigger] custom[i],
                        )) && item_views(items@) == spec_merge(
                        spec_run(linter.rules(), doc, content@, *config),
                        custom,
                        content@,
                    );
                assert(item_views(items@) == spec_merge(
                    spec_run(linter.rules(), doc, content@, *config),
                    custom,
                    content@,
                ));
            }
            Ok(items)
        },
        Err(e) => Err(LintFailure::CustomRule(e)),
    }
}

/// The items of `vs` at or above severity `min`, in order.
pub open spec fn at_or_above(vs: Seq<ItemView>, min: Severity) -> Seq<ItemView>
    decreases vs.len(),
{
    if vs.len() == 0 {
        vs
    } else if vs.last().severity.rank() >= min.rank() {
        at_or_above(vs.drop_last(), min).push(vs.last())
    } else {
        at_or_above(vs.drop_last(), min)
    }
}

/// What gets reported for `content`: the findings of [`lint_items`] at or above `min_severity`.
pub fn lint_content(
    content: &str,
    linter: &Linter,
    config: &LintConfig,
    min_severity: Severity,
) -> (r: Result<Vec<ReportItem>, LintFailure>)
    ensures
        r matches Ok(items) ==> exists|all: Seq<ItemView>|
            lints_to(*linter, *config, content@, all) && item_views(items@) == #[trigger] at_or_above(
                all,
                min_severity,
            ),
        r matches Err(LintFailure::CustomRule(e)) ==> exists|j: int|
            0 <= j < config.custom_rules@.len() && (#[trigger] config.custom_rules@[j]).id@
                == e.rule_id@,
        markdown_parse_error(content@) is Some <==> r matches Err(LintFailure::Parse(_)),
        r matches Err(LintFailure::Parse(m)) ==> markdown_parse_error(content@) == Some(m@),
        config.custom_rules@.len() == 0 && markdown_parse_error(content@) is None ==> r is Ok,
{
    let items = lint_items(content, linter, config)?;
    let ghost all = item_views(items@);
    let kept = keep_at_or_above(items, min_severity);
    proof {
        assert(lints_to(*linter, *config, content@, all));
    }
    Ok(kept)
}

/// The fixes the items carry, in order.
pub open spec fn item_fixes(vs: Seq<ItemView>) -> Seq<(Range, Seq<char>)>
    decreases vs.len(),
{
    if vs.len() == 0 {
        Seq::empty()
    } else {
        match vs.last().fix {
            Some(f) => item_fixes(vs.drop_last()).push(f),
            None => item_fixes(vs.drop_last()),
        }
    }
}

/// `text` with every fix of `vs` applied.
pub open spec fn fixed_text(text: Seq<char>, vs: Seq<ItemView>) -> Seq<char> {
    spec_apply_fixes(text, item_fixes(vs))
}

/// The fixes of `items`, each copied.
fn collect_fixes(items: &Vec<ReportItem>) -> (r: Vec<Fix>)
    ensures
        fix_views(r@) == item_fixes(item_views(items@)),
{
    let mut out: Vec<Fix> = Vec::new();
    let mut i: usize = 0;
    proof {
        assert(fix_views(out@) =~= item_fixes(item_views(items@).take(0)));
    }
    while i < items.len()
        invariant
            i <= items@.len(),
            fix_views(out@) == item_fixes(item_views(items@).take(i as int)),
        decreases items@.len() - i,
    {
        let ghost vs = item_views(items@);
        proof {
            assert(vs.take(i + 1).drop_last() =~= vs.take(i as int));
            assert(vs.take(i + 1).last() == items@[i as int]@);
        }
        match items[i].fix() {
            Some(f) => {
                let ghost before = fix_views(out@);
                out.push(Fix { range: f.range, replacement: f.replacement.clone() });
                proof {
                    assert(fix_views(out@) =~= before.push((f.range, f.replacement@)));
                }
            },
            None => {},
        }
        i = i + 1;
    }
    proof {
        assert(item_views(items@).take(items@.len() as int) =~= item_views(items@));
    }
    out
}

/// One lint-and-fix pass: the findings of `content` and the text with all their fixes applied.
pub fn fix_source_once(content: &str, linter: &Linter, config: &LintConfig) -> (r: Result<
    (String, Vec<ReportItem>),
    LintFailure,
>)
    ensures
        r matches Ok((fixed, items)) ==> lints_to(*linter, *config, content@, item_views(items@))
            && fixed@ == fixed_text(content@, item_views(items@)),
        r matches Err(LintFailure::CustomRule(e)) ==> exists|j: int|
            0 <= j < config.custom_rules@.len() && (#[trigger] config.custom_rules@[j]).id@
                == e.rule_id@,
        markdown_parse_error(content@) is Some <==> r matches Err(LintFailure::Parse(_)),
        r matches Err(LintFailure::Parse(m)) ==> markdown_parse_error(content@) == Some(m@),
        config.custom_rules@.len() == 0 && markdown_parse_error(content@) is None ==> r is Ok,
{
    let items = lint_items(content, linter, config)?;
    let fixes = collect_fixes(&items);
    let fixed = apply_fixes(content, fixes.as_slice());
    Ok((fixed, items))
}

/// How many of the items carry a fix.
pub open spec fn fix_count(vs: Seq<ItemView>) -> nat
    decreases vs.len(),
{
    if vs.len() == 0 {
        0
    } else {
        fix_count(vs.drop_last()) + if vs.last().fix is Some {
            1nat
        } else {
            0nat
        }
    }
}

fn count_fixes(items: &Vec<ReportItem>) -> (r: usize)
    ensures
        r == fix_count(item_views(items@)),
{
    let mut n: usize = 0;
    let mut i: usize = 0;
    while i < items.len()
        invariant
            i <= items@.len(),
            n <= i,
            n == fix_count(item_views(items@).take(i as int)),
        decreases items@.len() - i,
    {
        let ghost vs = item_views(items@);
        proof {
            assert(vs.take(i + 1).drop_last() =~= vs.take(i as int));
            assert(vs.take(i + 1).last() == items@[i as int]@);
        }
        if items[i].fix().is_some() {
            n = n + 1;
        }
        i = i + 1;
    }
    proof {
        assert(item_views(items@).take(items@.len() as int) =~= item_views(items@));
    }
    n
}

/// A run of fix passes: `texts[0]` is linted to `passes[0]`, whose fixes give `texts[1]`, and
/// so on; each pass had fixes and changed the text.
pub open spec fn fix_passes(
    linter: Linter,
    config: LintConfig,
    texts: Seq<Seq<char>>,
    passes: Seq<Seq<ItemView>>,
) -> bool {
    &&& texts.len() == passes.len() + 1
    &&& forall|i: int|
        0 <= i < passes.len() ==> {
            &&& lints_to(linter, config, texts[i], #[trigger] passes[i])
            &&& fix_count(passes[i]) > 0
            &&& texts[i + 1] == fixed_text(texts[i], passes[i])
            &&& texts[i + 1] != texts[i]
        }
}

/// The fixes applied over a run of passes.
pub open spec fn total_fixes(passes: Seq<Seq<ItemView>>) -> nat
    decreases passes.len(),
{
    if passes.len() == 0 {
        0
    } else {
        total_fixes(passes.drop_last()) + fix_count(passes.last())
    }
}

/// `n`, or `usize::MAX` where `n` is larger.
pub open spec fn capped_count(n: nat) -> nat {
    if n > usize::MAX {
        usize::MAX as nat
    } else {
        n
    }
}

/// Whether fixing `content` can end in `text` after fixes totalling `total` (capped at
/// `usize::MAX`), with `items` the findings of `text`: a run of at most [`MAX_FIX_PASSES`]
/// passes, each of which had fixes and changed the text, that either stopped early because
/// the last text has no fix or its fixes change nothing, or used up its passes.
pub open spec fn fixes_to(
    linter: Linter,
    config: LintConfig,
    content: Seq<char>,
    text: Seq<char>,
    total: nat,
    items: Seq<ItemView>,
) -> bool {
    exists|texts: Seq<Seq<char>>, passes: Seq<Seq<ItemView>>|
        #![trigger fix_passes(linter, config, texts, passes)]
        {
            &&& fix_passes(linter, config, texts, passes)
            &&& texts[0] == content
            &&& texts.last() == text
            &&& passes.len() <= MAX_FIX_PASSES
            &&& total == capped_count(total_fixes(passes))
            &&& lints_to(linter, config, text, items)
            &&& passes.len() < MAX_FIX_PASSES ==> (fix_count(items) == 0 || fixed_text(text, items)
                == text)
        }
}

/// Whether fixing `content` can reach `text`: a run of at most [`MAX_FIX_PASSES`] passes from
/// `content` to `text`, each of which had fixes and changed the text.
pub open spec fn reaches(linter: Linter, config: LintConfig, content: Seq<char>, text: Seq<char>) -> bool {
    exists|texts: Seq<Seq<char>>, passes: Seq<Seq<ItemView>>|
        #![trigger fix_passes(linter, config, texts, passes)]
        {
            &&& fix_passes(linter, config, texts, passes)
            &&& texts[0] == content
            &&& texts.last() == text
            &&& passes.len() <= MAX_FIX_PASSES
        }
}

/// Fixing reaches the text it starts from.
pub proof fn lemma_reaches_start(linter: Linter, config: LintConfig, content: Seq<char>)
    ensures
        reaches(linter, config, content, content),
{
    let texts = seq![content];
    let passes = Seq::<Seq<ItemView>>::empty();
    assert(fix_passes(linter, config, texts, passes));
}

/// Applies every finding's fix (built-in or custom) to `content`, pass after pass, until a pass
/// has no fix or changes nothing, for at most [`MAX_FIX_PASSES`] passes. Gives the final text,
/// the number of fixes the passes that changed the text applied, and the findings of the final
/// text.
pub fn fix_source(content: &str, linter: &Linter, config: &LintConfig) -> (r: Result<
    (String, usize, Vec<ReportItem>),
    LintFailure,
>)
    ensures
        r matches Ok((text, total, items)) ==> fixes_to(
            *linter,
            *config,
            content@,
            text@,
            total as nat,
            item_views(items@),
        ),
        r matches Err(LintFailure::CustomRule(e)) ==> exists|j: int|
            0 <= j < config.custom_rules@.len() && (#[trigger] config.custom_rules@[j]).id@
                == e.rule_id@,
        markdown_parse_error(content@) is Some ==> (r matches Err(LintFailure::Parse(m))
            && markdown_parse_error(content@) == Some(m@)),
        r matches Err(LintFailure::Parse(m)) ==> exists|t: Seq<char>|
            reaches(*linter, *config, content@, t) && #[trigger] markdown_parse_error(t) == Some(m@),
        config.custom_rules@.len() == 0 && (forall|t: Seq<char>|
            reaches(*linter, *config, content@, t) ==> #[trigger] markdown_parse_error(t) is None)
            ==> r is Ok,
{
    let mut current = String::from_str(content);
    let mut total: usize = 0;
    let mut pass: usize = 0;
    let ghost mut texts: Seq<Seq<char>> = seq![content@];
    let ghost mut passes: Seq<Seq<ItemView>> = Seq::empty();
    while pass < MAX_FIX_PASSES
        invariant
            pass <= MAX_FIX_PASSES,
            passes.len() == pass,
            fix_passes(*linter, *config, texts, passes),
            texts[0] == content@,
            texts.last() == current@,
            total == capped_count(total_fixes(passes)),
            pass == 0 ==> current@ == content@,
            pass > 0 ==> markdown_parse_error(content@) is None,
        decreases MAX_FIX_PASSES - pass,
    {
        proof {
            assert(fix_passes(*linter, *config, texts, passes));
            assert(reaches(*linter, *config, content@, current@));
        }
        let (fixed, items) = match fix_source_once(current.as_str(), linter, config) {
            Ok(x) => x,
            Err(e) => {
                return Err(e);
            },
        };
        let count = count_fixes(&items);
        if count == 0 || str_eq(fixed.as_str(), current.as_str()) {
            proof {
                assert(fix_passes(*linter, *config, texts, passes));
            }
            return Ok((current, total, items));
        }
        let ghost vs = item_views(items@);
        proof {
            let t2 = texts.push(fixed@);
            let p2 = passes.push(vs);
            assert(p2.drop_last() =~= passes);
            assert forall|i: int| 0 <= i < p2.len() implies {
                &&& lints_to(*linter, *config, t2[i], #[trigger] p2[i])
                &&& fix_count(p2[i]) > 0
                &&& t2[i + 1] == fixed_text(t2[i], p2[i])
                &&& t2[i + 1] != t2[i]
            } by {
                if i < passes.len() {
                    assert(p2[i] == passes[i]);
                    assert(t2[i] == texts[i] && t2[i + 1] == texts[i + 1]);
                } else {
                    assert(t2[i] == current@);
                }
            }
            texts = t2;
            passes = p2;
        }
        if total > usize::MAX - count {
            total = usize::MAX;
        } else {
            total = total + count;
        }
        current = fixed;
        pass = pass + 1;
    }
    proof {
        assert(fix_passes(*linter, *config, texts, passes));
        assert(reaches(*linter, *config, content@, current@));
    }
    let items = match lint_items(current.as_str(), linter, config) {
        Ok(items) => items,
        Err(e) => {
            return Err(e);
        },
    };
    proof {
        assert(fix_passes(*linter, *config, texts, passes));
    }
    Ok((current, total, items))
}

/// What `similar` renders as the unified line diff from `old` to `new` under the file headers
/// `old_header` and `new_header`.
pub uninterp spec fn unified_diff(old_header: Seq<char>, new_header: Seq<char>, old: Seq<char>, new: Seq<char>) -> Seq<char>;

/// The unified line diff from `old` to `new` (`similar::TextDiff::from_lines`, rendered with
/// `unified_diff().header(..)`). The result is named `unified_diff` of the four texts; of equal
/// texts there is no hunk, and the rendering is empty.
#[verifier::external_body]
fn diff_lines(old_header: &str, new_header: &str, old: &str, new: &str) -> (r: String)
    ensures
        r@ == unified_diff(old_header@, new_header@, old@, new@),
        old@ == new@ ==> r@.len() == 0,
{
    similar::TextDiff::from_lines(old, new).unified_diff().header(old_header, new_header).to_string()
}

/// A unified diff from `old` to `new`, headered `a/<label>` and `b/<label>` as `git diff`
/// heads its output; empty where the texts are equal.
pub fn compute_diff(label: &str, old: &str, new: &str) -> (r: String)
    ensures
        r@ == unified_diff("a/"@ + label@, "b/"@ + label@, old@, new@),
        old@ == new@ ==> r@.len() == 0,
{
    let mut a = String::from_str("a/");
    a.append(label);
    let mut b = String::from_str("b/");
    b.append(label);
    diff_lines(a.as_str(), b.as_str(), old, new)
}

/// One file's outcome: its findings to report; when fixing changed it, how many fixes were
/// applied and the text to write back; when previewing fixes, the diff they would make.
pub struct FileOutcome {
    pub label: String,
    pub diagnostics: Vec<ReportItem>,
    pub fix_count: Option<usize>,
    pub diff: Option<String>,
    pub rewrite: Option<String>,
}

/// Keeps the items at or above severity `min`, in order.
fn keep_at_or_above(items: Vec<ReportItem>, min: Severity) -> (r: Vec<ReportItem>)
    ensures
        item_views(r@) == at_or_above(item_views(items@), min),
{
    let n = items.len();
    let ghost orig = items@;
    let ghost all = item_views(items@);
    let mut rest = items;
    let mut kept: Vec<ReportItem> = Vec::new();
    let mut k: usize = 0;
    proof {
        assert(all.take(0) =~= Seq::<ItemView>::empty());
        assert(item_views(kept@) =~= at_or_above(all.take(0), min));
        assert(orig.skip(0) =~= orig);
    }
    while rest.len() > 0
        invariant
            k <= orig.len(),
            orig.len() == n,
            all == item_views(orig),
            rest@ == orig.skip(k as int),
            item_views(kept@) == at_or_above(all.take(k as int), min),
        decreases rest@.len(),
    {
        let item = rest.remove(0);
        proof {
            assert(orig.skip(k as int)[0] == orig[k as int]);
            assert(orig.skip(k as int).remove(0) =~= orig.skip(k + 1));
            assert(all.take(k + 1).drop_last() =~= all.take(k as int));
            assert(all.take(k + 1).last() == item@);
        }
        if item.severity().at_least(min) {
            let ghost before = item_views(kept@);
            kept.push(item);
            proof {
                assert(item_views(kept@) =~= before.push(item@));
            }
        }
        k = k + 1;
    }
    proof {
        assert(all.take(k as int) =~= all);
    }
    kept
}

/// Lints (and, with `fix`, fixes; with `diff`, previews the fixes of) the text `content` of
/// the file labelled `label`. Previewing wins over fixing: it reports no findings and writes
/// nothing, giving the diff where fixing would change the text. Fixing gives the fixed text to
/// write back and the fix count where the text changed, and reports the findings of the fixed
/// text; plain linting reports the findings of the text. Reported findings are those at or
/// above `min_severity`.
pub fn process_text(
    label: &str,
    content: &str,
    linter: &Linter,
    config: &LintConfig,
    min_severity: Severity,
    fix: bool,
    diff: bool,
) -> (r: Result<FileOutcome, LintFailure>)
    ensures
        r matches Ok(o) ==> o.label@ == label@,
        r matches Ok(o) ==> (diff ==> exists|text: Seq<char>, total: nat, items: Seq<ItemView>|
            fixes_to(*linter, *config, content@, text, total, items) && o.diagnostics@.len() == 0
                && o.fix_count is None && o.rewrite is None && match o.diff {
                Some(d) => text != content@ && d@ == unified_diff(
                    "a/"@ + label@,
                    "b/"@ + label@,
                    content@,
                    text,
                ),
                None => text == content@,
            }),
        r matches Ok(o) ==> (!diff && fix ==> exists|text: Seq<char>, total: nat, items: Seq<ItemView>|
            fixes_to(*linter, *config, content@, text, total, items) && o.diff is None
                && item_views(o.diagnostics@) == at_or_above(items, min_severity) && match o.rewrite {
                Some(t) => t@ == text && text != content@ && o.fix_count == Some(total as usize),
                None => text == content@ && o.fix_count is None,
            }),
        r matches Ok(o) ==> (!diff && !fix ==> exists|items: Seq<ItemView>|
            lints_to(*linter, *config, content@, items) && o.diff is None && o.fix_count is None
                && o.rewrite is None && item_views(o.diagnostics@) == at_or_above(items, min_severity)),
        r matches Err(LintFailure::CustomRule(e)) ==> exists|j: int|
            0 <= j < config.custom_rules@.len() && (#[trigger] config.custom_rules@[j]).id@
                == e.rule_id@,
        markdown_parse_error(content@) is Some ==> (r matches Err(LintFailure::Parse(m))
            && markdown_parse_error(content@) == Some(m@)),
        r matches Err(LintFailure::Parse(m)) ==> exists|t: Seq<char>|
            reaches(*linter, *config, content@, t) && #[trigger] markdown_parse_error(t) == Some(m@),
        config.custom_rules@.len() == 0 && (forall|t: Seq<char>|
            reaches(*linter, *config, content@, t) ==> #[trigger] markdown_parse_error(t) is None)
            ==> r is Ok,
{
    proof {
        lemma_reaches_start(*linter, *config, content@);
    }
    let name = String::from_str(label);
    if diff {
        let (text, total, items) = fix_source(content, linter, config)?;
        let ghost tv = text@;
        let ghost iv = item_views(items@);
        let d = if str_eq(text.as_str(), content) {
            None
        } else {
            Some(compute_diff(label, content, text.as_str()))
        };
        let outcome = FileOutcome {
            label: name,
            diagnostics: Vec::new(),
            fix_count: None,
            diff: d,
            rewrite: None,
        };
        proof {
            assert(fixes_to(*linter, *config, content@, tv, total as nat, iv));
        }
        return Ok(outcome);
    }
    if fix {
        let (text, count, items) = fix_source(content, linter, config)?;
        let ghost tv = text@;
        let ghost iv = item_views(items@);
        proof {
            assert(fixes_to(*linter, *config, content@, tv, count as nat, iv));
        }
        let diagnostics = keep_at_or_above(items, min_severity);
        if str_eq(text.as_str(), content) {
            return Ok(FileOutcome { label: name, diagnostics, fix_count: None, diff: None, rewrite: None });
        }
        return Ok(
            FileOutcome {
                label: name,
                diagnostics,
                fix_count: Some(count),
                diff: None,
                rewrite: Some(text),
            },
        );
    }
    let items = match lint_items(content, linter, config) {
        Ok(items) => items,
        Err(e) => {
            return Err(e);
        },
    };
    let ghost iv = item_views(items@);
    let diagnostics = keep_at_or_above(items, min_severity);
    proof {
        assert(lints_to(*linter, *config, content@, iv));
    }
    Ok(FileOutcome { label: name, diagnostics, fix_count: None, diff: None, rewrite: None })
}

} // verus!
