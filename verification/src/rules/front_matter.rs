//! `missing_front_matter_key`: the document's YAML or TOML front matter must set every key the
//! configuration's `front_matter.required_keys` lists. With no required keys the rule reports
//! nothing.
use crate::config::LintConfig;
use crate::doc::{DocNode, Document, NodeKind};
use crate::message::{LintMessage, RuleId};
use crate::rules::{concat_upto, finding_of, spec_default_severity};
use crate::text::str_eq;
use crate::{diag_views, DiagView, Diagnostic, Range};
use vstd::prelude::*;

verus! {

/// What parsing front matter gave, as values: the keys of a mapping (each key that is a
/// string, `None` for any other key), a document that is not a mapping, or the parser's error.
pub enum KeysView {
    Keys(Seq<Option<Seq<char>>>),
    NotAMapping,
    Invalid(Seq<char>),
}

/// What parsing front matter gave.
pub enum ParsedKeys {
    Keys(Vec<Option<String>>),
    NotAMapping,
    Invalid(String),
}

pub open spec fn keys_view(p: ParsedKeys) -> KeysView {
    match p {
        ParsedKeys::Keys(ks) => KeysView::Keys(ks@.map_values(|k: Option<String>| match k {
            Some(s) => Some(s@),
            None => None,
        })),
        ParsedKeys::NotAMapping => KeysView::NotAMapping,
        ParsedKeys::Invalid(e) => KeysView::Invalid(e@),
    }
}

/// What `serde_yaml` makes of front matter text `text`.
pub uninterp spec fn yaml_keys(text: Seq<char>) -> KeysView;

/// What `toml` makes of front matter text `text`.
pub uninterp spec fn toml_keys(text: Seq<char>) -> KeysView;

/// Parses YAML front matter (`serde_yaml::from_str::<serde_yaml::Value>`): a mapping gives its
/// keys (`Value::as_str` of each), another value gives `NotAMapping`, a parse error its text.
/// The result is named `yaml_keys` of the text; nothing more is stated of it.
#[verifier::external_body]
fn parse_yaml_keys(text: &str) -> (r: ParsedKeys)
    ensures
        keys_view(r) == yaml_keys(text@),
{
    match serde_yaml::from_str::<serde_yaml::Value>(text) {
        Ok(serde_yaml::Value::Mapping(m)) => ParsedKeys::Keys(m.keys().map(|k| k.as_str().map(|s| s.to_string())).collect()),
        Ok(_) => ParsedKeys::NotAMapping,
        Err(e) => ParsedKeys::Invalid(e.to_string()),
    }
}

/// Parses TOML front matter (`toml::from_str::<toml::Value>`): a table gives its keys, another
/// value gives `NotAMapping`, a parse error its text. The result is named `toml_keys` of the
/// text; nothing more is stated of it.
#[verifier::external_body]
fn parse_toml_keys(text: &str) -> (r: ParsedKeys)
    ensures
        keys_view(r) == toml_keys(text@),
{
    match toml::from_str::<toml::Value>(text) {
        Ok(toml::Value::Table(t)) => ParsedKeys::Keys(t.keys().map(|k| Some(k.clone())).collect()),
        Ok(_) => ParsedKeys::NotAMapping,
        Err(e) => ParsedKeys::Invalid(e.to_string()),
    }
}

/// The index of the first top-level YAML or TOML node.
pub open spec fn first_front_matter(top: Seq<DocNode>, k: int) -> Option<int>
    decreases top.len() - k,
{
    if k < 0 || k >= top.len() {
        None
    } else if top[k].kind == NodeKind::Yaml || top[k].kind == NodeKind::Toml {
        Some(k)
    } else {
        first_front_matter(top, k + 1)
    }
}

/// The string keys among `ks`.
pub open spec fn string_keys(ks: Seq<Option<Seq<char>>>) -> Seq<Seq<char>>
    decreases ks.len(),
{
    if ks.len() == 0 {
        Seq::empty()
    } else {
        let r = string_keys(ks.drop_last());
        match ks.last() {
            Some(k) => r.push(k),
            None => r,
        }
    }
}

/// The document's front matter: absent, unparsable (where, and why), or present (where, and
/// its keys).
pub enum FrontMatter {
    Absent,
    Invalid(Option<Range>, Seq<char>),
    Present(Option<Range>, Seq<Seq<char>>),
}

/// The front matter of a document with top-level nodes `top`: its first YAML or TOML node.
pub open spec fn spec_front_matter(top: Seq<DocNode>) -> FrontMatter {
    match first_front_matter(top, 0) {
        None => FrontMatter::Absent,
        Some(i) => {
            let node = top[i];
            let parsed = if node.kind == NodeKind::Yaml {
                yaml_keys(node.value@)
            } else {
                toml_keys(node.value@)
            };
            match parsed {
                KeysView::Invalid(reason) => FrontMatter::Invalid(node.position, reason),
                KeysView::Keys(ks) => FrontMatter::Present(node.position, string_keys(ks)),
                KeysView::NotAMapping => FrontMatter::Present(node.position, Seq::empty()),
            }
        },
    }
}

/// The text of a missing-key finding.
pub open spec fn missing_key_text(key: Seq<char>, present: bool) -> Seq<char> {
    if present {
        "front matter is missing required key `"@ + key + "`"@
    } else {
        "document has no front matter block (required key `"@ + key + "` is missing)"@
    }
}

pub open spec fn missing_key_finding(key: Seq<char>, present: bool, at: Option<Range>) -> DiagView {
    DiagView {
        rule: RuleId::MissingFrontMatterKey,
        text: missing_key_text(key, present),
        severity: spec_default_severity(RuleId::MissingFrontMatterKey),
        range: at,
        fix: None,
    }
}

pub open spec fn missing_key_each(required: Seq<String>, front: FrontMatter) -> spec_fn(int) -> Seq<
    DiagView,
> {
    |j: int|
        match front {
            FrontMatter::Absent => seq![missing_key_finding(required[j]@, false, None)],
            FrontMatter::Present(at, keys) => if keys.contains(required[j]@) {
                Seq::empty()
            } else {
                seq![missing_key_finding(required[j]@, true, at)]
            },
            FrontMatter::Invalid(_, _) => Seq::empty(),
        }
}

/// With required keys: one finding per required key when there is no front matter, one per
/// required key the front matter lacks, or a single finding when it does not parse.
pub open spec fn spec_missing_front_matter_key(top: Seq<DocNode>, required: Seq<String>) -> Seq<
    DiagView,
> {
    if required.len() == 0 {
        Seq::empty()
    } else {
        match spec_front_matter(top) {
            FrontMatter::Invalid(at, reason) => seq![
                DiagView {
                    rule: RuleId::MissingFrontMatterKey,
                    text: "front matter could not be parsed: "@ + reason,
                    severity: spec_default_severity(RuleId::MissingFrontMatterKey),
                    range: at,
                    fix: None,
                },
            ],
            front => concat_upto(required.len() as int, missing_key_each(required, front)),
        }
    }
}

/// The string keys of `ks`, owned.
fn collect_string_keys(ks: Vec<Option<String>>) -> (r: Vec<String>)
    ensures
        r@.map_values(|s: String| s@) == string_keys(
            ks@.map_values(
                |k: Option<String>|
                    match k {
                        Some(s) => Some(s@),
                        None => None,
                    },
            ),
        ),
{
    let mut ks = ks;
    let ghost orig = ks@;
    let total = ks.len();
    let mut out: Vec<String> = Vec::new();
    let mut k: usize = 0;
    let ghost view = orig.map_values(
        |k: Option<String>|
            match k {
                Some(s) => Some(s@),
                None => None,
            },
    );
    proof {
        assert(view.take(0) =~= Seq::<Option<Seq<char>>>::empty());
        assert(out@.map_values(|s: String| s@) =~= Seq::<Seq<char>>::empty());
    }
    while ks.len() > 0
        invariant
            k <= orig.len(),
            orig.len() <= usize::MAX,
            ks@ == orig.skip(k as int),
            view == orig.map_values(
                |k: Option<String>|
                    match k {
                        Some(s) => Some(s@),
                        None => None,
                    },
            ),
            out@.map_values(|s: String| s@) == string_keys(view.take(k as int)),
        decreases ks@.len(),
    {
        let item = ks.remove(0);
        proof {
            assert(orig.skip(k as int)[0] == orig[k as int]);
            assert(orig.skip(k as int).remove(0) =~= orig.skip(k + 1));
            assert(view.take(k + 1).drop_last() =~= view.take(k as int));
        }
        let ghost before = out@.map_values(|s: String| s@);
        match item {
            Some(s) => {
                out.push(s);
                proof {
                    assert(out@.map_values(|s: String| s@) =~= before.push(view[k as int]->0));
                }
            },
            None => {},
        }
        k = k + 1;
    }
    proof {
        assert(view.take(k as int) =~= view);
    }
    out
}

fn contains_string(v: &Vec<String>, s: &String) -> (r: bool)
    ensures
        r == v@.map_values(|x: String| x@).contains(s@),
{
    let mut i: usize = 0;
    while i < v.len()
        invariant
            i <= v@.len(),
            forall|j: int| 0 <= j < i ==> v@[j]@ != s@,
        decreases v@.len() - i,
    {
        if str_eq(v[i].as_str(), s.as_str()) {
            proof {
                assert(v@.map_values(|x: String| x@)[i as int] == s@);
            }
            return true;
        }
        i = i + 1;
    }
    proof {
        let vs = v@.map_values(|x: String| x@);
        if vs.contains(s@) {
            let j = choose|j: int| 0 <= j < vs.len() && #[trigger] vs[j] == s@;
            assert(v@[j]@ == s@);
        }
    }
    false
}

/// Flags each required front matter key the document's front matter lacks (or every one, when
/// it has none), or front matter that does not parse.
pub fn missing_front_matter_key(doc: &Document, config: &LintConfig) -> (r: Vec<Diagnostic>)
    ensures
        diag_views(r@) == spec_missing_front_matter_key(doc.top@, config.required_front_matter_keys@),
{
    let required = &config.required_front_matter_keys;
    let mut out: Vec<Diagnostic> = Vec::new();
    if required.len() == 0 {
        proof {
            assert(diag_views(out@) =~= Seq::<DiagView>::empty());
        }
        return out;
    }
    let top = &doc.top;
    let mut i: usize = 0;
    while i < top.len() && top[i].kind != NodeKind::Yaml && top[i].kind != NodeKind::Toml
        invariant
            i <= top@.len(),
            first_front_matter(top@, 0) == first_front_matter(top@, i as int),
        decreases top@.len() - i,
    {
        i = i + 1;
    }
    let ghost front = spec_front_matter(top@);
    let (present, at, keys): (bool, Option<Range>, Vec<String>) = if i < top.len() {
        let node = &top[i];
        let parsed = if node.kind == NodeKind::Yaml {
            parse_yaml_keys(node.value.as_str())
        } else {
            parse_toml_keys(node.value.as_str())
        };
        match parsed {
            ParsedKeys::Invalid(reason) => {
                proof {
                    assert(first_front_matter(top@, i as int) == Some(i as int));
                }
                let message_reason = reason;
                out.push(
                    finding_of(
                        LintMessage::InvalidFrontMatter { reason: message_reason },
                        node.position,
                        None,
                    ),
                );
                proof {
                    assert(diag_views(out@) =~= spec_missing_front_matter_key(
                        top@,
                        required@,
                    ));
                }
                return out;
            },
            ParsedKeys::NotAMapping => {
                let keys: Vec<String> = Vec::new();
                proof {
                    assert(first_front_matter(top@, i as int) == Some(i as int));
                    assert(keys@.map_values(|s: String| s@) =~= Seq::<Seq<char>>::empty());
                    assert(front == FrontMatter::Present(node.position, keys@.map_values(|s: String| s@)));
                }
                (true, node.position, keys)
            },
            ParsedKeys::Keys(ks) => {
                let ghost kv = keys_view(ParsedKeys::Keys(ks));
                let keys = collect_string_keys(ks);
                proof {
                    assert(first_front_matter(top@, i as int) == Some(i as int));
                    assert(front == FrontMatter::Present(node.position, keys@.map_values(|s: String| s@)));
                }
                (true, node.position, keys)
            },
        }
    } else {
        (false, None, Vec::new())
    };
    proof {
        if !present {
            assert(front == FrontMatter::Absent);
        }
    }
    let mut j: usize = 0;
    proof {
        assert(diag_views(out@) =~= Seq::<DiagView>::empty());
    }
    while j < required.len()
        invariant
            j <= required@.len(),
            required@.len() > 0,
            present ==> front == FrontMatter::Present(at, keys@.map_values(|s: String| s@)),
            !present ==> front == FrontMatter::Absent,
            front == spec_front_matter(top@),
            diag_views(out@) == concat_upto(j as int, missing_key_each(required@, front)),
        decreases required@.len() - j,
    {
        let ghost before = diag_views(out@);
        let key = &required[j];
        if !present {
            out.push(
                finding_of(
                    LintMessage::MissingFrontMatterKey { key: key.clone(), front_matter_present: false },
                    None,
                    None,
                ),
            );
        } else if !contains_string(&keys, key) {
            out.push(
                finding_of(
                    LintMessage::MissingFrontMatterKey { key: key.clone(), front_matter_present: true },
                    at,
                    None,
                ),
            );
        }
        proof {
            assert(diag_views(out@) =~= before + missing_key_each(required@, front)(j as int));
        }
        j = j + 1;
    }
    out
}

} // verus!
