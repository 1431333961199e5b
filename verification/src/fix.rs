//! Textual auto-fixes: mapping a [`Range`] onto the source and applying [`Fix`]es to it.
//!
//! Edits are applied from the end of the source towards the start, so earlier offsets stay
//! valid. If two edits overlap, the one starting later wins and any edit whose span reaches
//! into an already-rewritten region is dropped; among edits with the same start, the one
//! supplied first is applied first.
use vstd::prelude::*;
use crate::text::{spec_offset, offset_of, lemma_offset_bound, copy_range};
use crate::{Fix, Range};

verus! {

/// The offsets `range` covers in `src`: `None` unless both ends exist and the start does not
/// come after the end.
pub open spec fn range_span(src: Seq<char>, range: Range) -> Option<(int, int)> {
    match (
        spec_offset(src, range.start_line as int, range.start_column as int),
        spec_offset(src, range.end_line as int, range.end_column as int),
    ) {
        (Some(s), Some(e)) => if s <= e {
            Some((s, e))
        } else {
            None
        },
        _ => None,
    }
}

/// The offsets `range` covers in `src`, if it maps onto it.
pub fn range_to_span(src: &Vec<char>, range: Range) -> (r: Option<(usize, usize)>)
    ensures
        r matches Some((s, e)) ==> range_span(src@, range) == Some((s as int, e as int)) && e
            <= src@.len(),
        r is None ==> range_span(src@, range) is None,
{
    let start = offset_of(src, range.start_line, range.start_column);
    let end = offset_of(src, range.end_line, range.end_column);
    proof {
        lemma_offset_bound(src@, range.end_line as int, range.end_column as int);
    }
    match (start, end) {
        (Some(s), Some(e)) => if s <= e {
            Some((s, e))
        } else {
            None
        },
        _ => None,
    }
}

/// The characters of `src` that `range` spans, if it maps onto the source.
pub fn slice(src: &Vec<char>, range: Range) -> (r: Option<Vec<char>>)
    ensures
        r matches Some(v) ==> (range_span(src@, range) matches Some((s, e)) && v@ == src@.subrange(
            s,
            e,
        )),
        r is None ==> range_span(src@, range) is None,
{
    match range_to_span(src, range) {
        Some((s, e)) => Some(copy_range(src, s, e)),
        None => None,
    }
}

/// The edits that `fixes` make to `src`, in order: the span each fix covers and its
/// replacement text, leaving out fixes whose range does not map onto the source.
pub open spec fn spans_of(src: Seq<char>, fixes: Seq<(Range, Seq<char>)>) -> Seq<(int, int, Seq<char>)>
    decreases fixes.len(),
{
    if fixes.len() == 0 {
        Seq::empty()
    } else {
        let rest = spans_of(src, fixes.drop_last());
        match range_span(src, fixes.last().0) {
            Some((s, e)) => rest.push((s, e, fixes.last().1)),
            None => rest,
        }
    }
}

/// Fixes as values: each one's range and replacement text.
pub open spec fn fix_views(fixes: Seq<Fix>) -> Seq<(Range, Seq<char>)> {
    fixes.map_values(|f: Fix| (f.range, f.replacement@))
}

/// The index of the first edit among the first `n` with the largest start.
pub open spec fn first_latest(spans: Seq<(int, int, Seq<char>)>, n: nat) -> nat
    decreases n,
{
    if n <= 1 {
        0
    } else {
        let best = first_latest(spans, (n - 1) as nat);
        if spans[n - 1].0 > spans[best as int].0 {
            (n - 1) as nat
        } else {
            best
        }
    }
}

/// `text` with `[s, e)` replaced by `rep`.
pub open spec fn splice(text: Seq<char>, s: int, e: int, rep: Seq<char>) -> Seq<char> {
    text.take(s) + rep + text.skip(e)
}

/// Applies `spans` latest-start first (the first supplied among equal starts), skipping any
/// edit that ends after the start of the last edit applied (`bound`).
pub open spec fn apply_spans(text: Seq<char>, spans: Seq<(int, int, Seq<char>)>, bound: int) -> Seq<
    char,
>
    decreases spans.len(),
{
    if spans.len() == 0 {
        text
    } else {
        let k = first_latest(spans, spans.len()) as int;
        proof {
            lemma_first_latest_bound(spans, spans.len());
        }
        let (s, e, rep) = spans[k];
        let rest = spans.remove(k);
        if e > bound {
            apply_spans(text, rest, bound)
        } else {
            apply_spans(splice(text, s, e, rep), rest, s)
        }
    }
}

/// `source` with every fix applied, as the module docs describe.
pub open spec fn spec_apply_fixes(source: Seq<char>, fixes: Seq<(Range, Seq<char>)>) -> Seq<char> {
    apply_spans(source, spans_of(source, fixes), usize::MAX as int)
}

pub proof fn lemma_first_latest_bound(spans: Seq<(int, int, Seq<char>)>, n: nat)
    ensures
        n >= 1 ==> first_latest(spans, n) < n,
    decreases n,
{
    if n > 1 {
        lemma_first_latest_bound(spans, (n - 1) as nat);
    }
}

struct Edit {
    start: usize,
    end: usize,
    text: Vec<char>,
}

spec fn edits_view(v: Seq<Edit>) -> Seq<(int, int, Seq<char>)> {
    v.map_values(|x: Edit| (x.start as int, x.end as int, x.text@))
}

fn splice_exec(text: &Vec<char>, s: usize, e: usize, rep: &Vec<char>) -> (r: Vec<char>)
    requires
        s <= e <= text@.len(),
    ensures
        r@ == splice(text@, s as int, e as int, rep@),
{
    let mut out = copy_range(text, 0, s);
    let mut i: usize = 0;
    while i < rep.len()
        invariant
            s <= e <= text@.len(),
            i <= rep@.len(),
            out@ == text@.take(s as int) + rep@.take(i as int),
        decreases rep@.len() - i,
    {
        out.push(rep[i]);
        proof {
            assert(out@ =~= text@.take(s as int) + rep@.take(i + 1));
        }
        i = i + 1;
    }
    let mut j = e;
    while j < text.len()
        invariant
            s <= e <= j <= text@.len(),
            out@ == text@.take(s as int) + rep@ + text@.subrange(e as int, j as int),
        decreases text@.len() - j,
    {
        proof {
            assert(rep@.take(rep@.len() as int) =~= rep@);
        }
        out.push(text[j]);
        proof {
            assert(out@ =~= text@.take(s as int) + rep@ + text@.subrange(e as int, j + 1));
        }
        j = j + 1;
    }
    proof {
        assert(rep@.take(rep@.len() as int) =~= rep@);
        assert(text@.subrange(e as int, text@.len() as int) =~= text@.skip(e as int));
    }
    out
}

/// Applies `fixes` to `source`, returning the rewritten text.
pub fn apply_fixes(source: &str, fixes: &[Fix]) -> (r: String)
    ensures
        r@ == spec_apply_fixes(source@, fix_views(fixes@)),
{
    let src = crate::text::chars_of(source);
    let mut edits: Vec<Edit> = Vec::new();
    let mut i: usize = 0;
    while i < fixes.len()
        invariant
            src@ == source@,
            i <= fixes@.len(),
            edits_view(edits@) == spans_of(source@, fix_views(fixes@).take(i as int)),
            forall|k: int|
                0 <= k < edits@.len() ==> (#[trigger] edits@[k]).start <= edits@[k].end
                    <= src@.len(),
        decreases fixes@.len() - i,
    {
        let fix = &fixes[i];
        proof {
            assert(fix_views(fixes@).take(i + 1).drop_last() =~= fix_views(fixes@).take(i as int));
            assert(fix_views(fixes@).take(i + 1).last() == (fix.range, fix.replacement@));
        }
        match range_to_span(&src, fix.range) {
            Some((s, e)) => {
                let ghost before = edits@;
                edits.push(Edit { start: s, end: e, text: crate::text::chars_of(fix.replacement.as_str()) });
                proof {
                    assert(edits_view(edits@) =~= edits_view(before).push(
                        (s as int, e as int, fix.replacement@),
                    ));
                }
            },
            None => {},
        }
        i = i + 1;
    }
    proof {
        assert(fix_views(fixes@).take(fixes@.len() as int) =~= fix_views(fixes@));
    }
    let mut text = src;
    let mut bound: usize = usize::MAX;
    let mut applied = false;
    let ghost mut pending = edits_view(edits@);
    while edits.len() > 0
        invariant
            pending == edits_view(edits@),
            apply_spans(text@, pending, bound as int) == spec_apply_fixes(source@, fix_views(fixes@)),
            forall|k: int|
                0 <= k < edits@.len() ==> (#[trigger] edits@[k]).start <= edits@[k].end
                    <= source@.len(),
            !applied ==> bound == usize::MAX && text@ == source@,
            applied ==> bound <= text@.len(),
        decreases edits@.len(),
    {
        let n = edits.len();
        let mut best: usize = 0;
        let mut j: usize = 1;
        while j < n
            invariant
                n == edits@.len(),
                1 <= j <= n,
                best < j,
                best as nat == first_latest(edits_view(edits@), j as nat),
            decreases n - j,
        {
            if edits[j].start > edits[best].start {
                best = j;
            }
            j = j + 1;
        }
        let ghost view_before = edits_view(edits@);
        let edit = edits.remove(best);
        proof {
            assert(edits_view(edits@) =~= view_before.remove(best as int));
            assert(view_before[best as int] == (edit.start as int, edit.end as int, edit.text@));
        }
        if edit.end > bound {
        } else {
            text = splice_exec(&text, edit.start, edit.end, &edit.text);
            bound = edit.start;
            applied = true;
        }
        proof {
            pending = edits_view(edits@);
        }
    }
    crate::text::string_of(&text)
}

} // verus!
