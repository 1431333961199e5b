//! The lint cache: the findings of each file, kept under the file's key with a hash of the
//! content they were computed from, and reused while the content (and the configuration the
//! cache was made under) stays the same.
use crate::report_item::{item_help, CachedDiagnostic, ItemView, ReportItem};
use crate::text::str_eq;
use crate::{fix_view, Fix, Range};
use std::collections::hash_map::DefaultHasher;
use std::hash::Hasher;
use vstd::prelude::*;
use vstd::std_specs::hash::DefaultHasherAdditionalSpecFns;
use vstd::string::StringSliceAdditionalSpecFns;

verus! {

/// The hash of a file's content: `DefaultHasher` fed the content's UTF-8 bytes and then the
/// `0xff` byte that ends a string.
pub open spec fn content_hash(content: &str) -> u64 {
    DefaultHasher::spec_finish(seq![content.spec_bytes(), seq![0xffu8]])
}

/// Hashes a file's content.
pub fn hash_content(content: &str) -> (r: u64)
    ensures
        r == content_hash(content),
{
    let mut hasher = DefaultHasher::new();
    let bytes = content.as_bytes();
    hasher.write(bytes);
    let end: Vec<u8> = vec![0xffu8];
    let tail = end.as_slice();
    proof {
        assert(tail@ =~= seq![0xffu8]);
    }
    hasher.write(tail);
    proof {
        assert(hasher@ =~= seq![content.spec_bytes(), seq![0xffu8]]);
    }
    hasher.finish()
}

/// What the cache keeps of a finding: what a report shows of it, and its help.
pub open spec fn kept(item: ReportItem) -> (ItemView, Option<Seq<char>>) {
    (item@, item_help(item))
}

pub open spec fn kept_all(items: Seq<ReportItem>) -> Seq<(ItemView, Option<Seq<char>>)> {
    items.map_values(|i: ReportItem| kept(i))
}

/// What the cache keeps of a cached finding.
pub open spec fn kept_cached(d: CachedDiagnostic) -> (ItemView, Option<Seq<char>>) {
    kept(ReportItem::Cached(d))
}

pub open spec fn kept_cached_all(ds: Seq<CachedDiagnostic>) -> Seq<(ItemView, Option<Seq<char>>)> {
    ds.map_values(|d: CachedDiagnostic| kept_cached(d))
}

/// A copy of `f`.
fn copy_fix(f: &Fix) -> (r: Fix)
    ensures
        fix_view(Some(r)) == fix_view(Some(*f)),
{
    Fix { range: f.range, replacement: f.replacement.clone() }
}

fn copy_opt_fix(f: Option<&Fix>) -> (r: Option<Fix>)
    ensures
        fix_view(r) == fix_view(
            match f {
                Some(x) => Some(*x),
                None => None,
            },
        ),
{
    match f {
        Some(x) => Some(copy_fix(x)),
        None => None,
    }
}

impl CachedDiagnostic {
    /// What the cache keeps of `item`.
    pub fn of(item: &ReportItem) -> (r: CachedDiagnostic)
        ensures
            kept_cached(r) == kept(*item),
    {
        CachedDiagnostic {
            rule_id: String::from_str(item.rule_id()),
            severity: item.severity(),
            message: item.text(),
            help: item.help(),
            range: item.range(),
            fix: copy_opt_fix(item.fix()),
        }
    }

    /// A copy of this finding.
    pub fn copy(&self) -> (r: CachedDiagnostic)
        ensures
            kept_cached(r) == kept_cached(*self),
    {
        CachedDiagnostic {
            rule_id: self.rule_id.clone(),
            severity: self.severity,
            message: self.message.clone(),
            help: match &self.help {
                Some(h) => Some(h.clone()),
                None => None,
            },
            range: self.range,
            fix: match &self.fix {
                Some(f) => Some(copy_fix(f)),
                None => None,
            },
        }
    }
}

/// The findings kept for one file, and the hash of the content they were computed from.
pub struct CacheEntry {
    pub content_hash: u64,
    pub diagnostics: Vec<CachedDiagnostic>,
}

/// A cache as stored: the tool version and configuration fingerprint it was made under, and
/// its entries by file key.
pub struct StoredCache {
    pub tool_version: String,
    pub config_fingerprint: u64,
    pub entries: Vec<(String, CacheEntry)>,
}

/// The entries of a stored list as a map; a later entry for a key replaces an earlier one.
pub open spec fn entries_map(es: Seq<(String, CacheEntry)>) -> Map<
    Seq<char>,
    (u64, Seq<(ItemView, Option<Seq<char>>)>),
>
    decreases es.len(),
{
    if es.len() == 0 {
        Map::empty()
    } else {
        entries_map(es.drop_last()).insert(
            es.last().0@,
            (es.last().1.content_hash, kept_cached_all(es.last().1.diagnostics@)),
        )
    }
}

/// Whether no key occurs twice in `es`.
pub open spec fn distinct_keys(es: Seq<(String, CacheEntry)>) -> bool {
    forall|i: int, j: int| 0 <= i < j < es.len() ==> (#[trigger] es[i]).0@ != (#[trigger] es[j]).0@
}

/// The findings of `m` for `key` where they were computed from content with hash `hash`.
pub open spec fn lookup(
    m: Map<Seq<char>, (u64, Seq<(ItemView, Option<Seq<char>>)>)>,
    key: Seq<char>,
    hash: u64,
) -> Option<Seq<(ItemView, Option<Seq<char>>)>> {
    if m.contains_key(key) && m[key].0 == hash {
        Some(m[key].1)
    } else {
        None
    }
}

/// The cache of a run: its entries (one per file key), the version and fingerprint it belongs
/// to, and whether it changed since it was loaded.
pub struct LintCache {
    path: String,
    tool_version: String,
    config_fingerprint: u64,
    entries: Vec<(String, CacheEntry)>,
    dirty: bool,
}

impl LintCache {
    #[verifier::type_invariant]
    spec fn keys_distinct(self) -> bool {
        distinct_keys(self.entries@)
    }

    /// The findings kept per file key, with the hash of the content they belong to.
    pub closed spec fn contents(self) -> Map<Seq<char>, (u64, Seq<(ItemView, Option<Seq<char>>)>)> {
        entries_map(self.entries@)
    }

    /// Whether the cache changed since it was loaded.
    pub closed spec fn spec_dirty(self) -> bool {
        self.dirty
    }

    /// Where the cache is stored.
    pub closed spec fn spec_path(self) -> Seq<char> {
        self.path@
    }

    /// Where the cache is stored.
    pub fn path(&self) -> (r: &str)
        ensures
            r@ == self.spec_path(),
    {
        self.path.as_str()
    }

    pub closed spec fn spec_version(self) -> Seq<char> {
        self.tool_version@
    }

    pub closed spec fn spec_fingerprint(self) -> u64 {
        self.config_fingerprint
    }

    /// An empty cache for tool version `tool_version` and configuration fingerprint
    /// `config_fingerprint`, stored at `path`.
    pub fn new(path: String, tool_version: String, config_fingerprint: u64) -> (r: LintCache)
        ensures
            r.contents() == Map::<Seq<char>, (u64, Seq<(ItemView, Option<Seq<char>>)>)>::empty(),
            !r.spec_dirty(),
            r.spec_path() == path@,
            r.spec_version() == tool_version@,
            r.spec_fingerprint() == config_fingerprint,
    {
        LintCache { path, tool_version, config_fingerprint, entries: Vec::new(), dirty: false }
    }

    /// The cache loaded from `stored`: its entries when it was made under the same tool
    /// version and configuration fingerprint, else none (an out-of-date cache is discarded).
    pub fn restore(path: String, tool_version: String, config_fingerprint: u64, stored: Option<StoredCache>) -> (r:
        LintCache)
        ensures
            r.contents() == match stored {
                Some(s) => if s.tool_version@ == tool_version@ && s.config_fingerprint
                    == config_fingerprint {
                    entries_map(s.entries@)
                } else {
                    Map::empty()
                },
                None => Map::empty(),
            },
            !r.spec_dirty(),
            r.spec_path() == path@,
            r.spec_version() == tool_version@,
            r.spec_fingerprint() == config_fingerprint,
    {
        let mut cache = LintCache::new(path, tool_version, config_fingerprint);
        match stored {
            Some(s) => {
                if str_eq(s.tool_version.as_str(), cache.tool_version.as_str())
                    && s.config_fingerprint == config_fingerprint {
                    let mut es = s.entries;
                    let n = es.len();
                    let ghost orig = es@;
                    let mut k: usize = 0;
                    proof {
                        assert(orig.take(0) =~= Seq::<(String, CacheEntry)>::empty());
                        assert(orig.skip(0) =~= orig);
                    }
                    while es.len() > 0
                        invariant
                            k <= orig.len(),
                            orig.len() == n,
                            es@ == orig.skip(k as int),
                            cache.contents() == entries_map(orig.take(k as int)),
                            !cache.spec_dirty(),
                            cache.spec_path() == path@,
                            cache.spec_version() == tool_version@,
                            cache.spec_fingerprint() == config_fingerprint,
                        decreases es@.len(),
                    {
                        let (key, entry) = es.remove(0);
                        proof {
                            assert(orig.skip(k as int)[0] == (key, entry));
                            assert(orig.skip(k as int).remove(0) =~= orig.skip(k + 1));
                            assert(orig.take(k + 1).drop_last() =~= orig.take(k as int));
                        }
                        cache.put(key, entry);
                        k = k + 1;
                    }
                    proof {
                        assert(orig.take(k as int) =~= orig);
                    }
                }
                cache
            },
            None => cache,
        }
    }

    /// The position of `key` among the entries, if it has one.
    fn find(&self, key: &str) -> (r: Option<usize>)
        ensures
            match r {
                Some(i) => i < self.entries@.len() && self.entries@[i as int].0@ == key@,
                None => !self.contents().contains_key(key@),
            },
    {
        let mut i: usize = 0;
        while i < self.entries.len()
            invariant
                i <= self.entries@.len(),
                forall|j: int| 0 <= j < i ==> (#[trigger] self.entries@[j]).0@ != key@,
            decreases self.entries@.len() - i,
        {
            if str_eq(self.entries[i].0.as_str(), key) {
                return Some(i);
            }
            i = i + 1;
        }
        proof {
            lemma_entries_keys(self.entries@, key@);
        }
        None
    }

    /// Sets the entry for `key`, keeping the cache clean.
    fn put(&mut self, key: String, entry: CacheEntry)
        ensures
            final(self).contents() == old(self).contents().insert(
                key@,
                (entry.content_hash, kept_cached_all(entry.diagnostics@)),
            ),
            final(self).dirty == old(self).dirty,
            final(self).spec_path() == old(self).spec_path(),
            final(self).spec_version() == old(self).spec_version(),
            final(self).spec_fingerprint() == old(self).spec_fingerprint(),
    {
        proof {
            use_type_invariant(&*self);
        }
        let ghost kv = key@;
        let ghost val = (entry.content_hash, kept_cached_all(entry.diagnostics@));
        match self.find(key.as_str()) {
            Some(i) => {
                let ghost before = self.entries@;
                let mut es: Vec<(String, CacheEntry)> = Vec::new();
                std::mem::swap(&mut es, &mut self.entries);
                es.set(i, (key, entry));
                proof {
                    lemma_entries_replace(before, i as int, es@[i as int]);
                    assert(es@ =~= before.update(i as int, es@[i as int]));
                    assert forall|a: int, b: int| 0 <= a < b < es@.len() implies (#[trigger] es@[a]).0@
                        != (#[trigger] es@[b]).0@ by {
                        if a != i && b != i {
                            assert(es@[a] == before[a] && es@[b] == before[b]);
                        } else if a == i {
                            assert(es@[b] == before[b]);
                            assert(before[a].0@ != before[b].0@);
                        } else {
                            assert(es@[a] == before[a]);
                            assert(before[a].0@ != before[b].0@);
                        }
                    }
                }
                self.entries = es;
            },
            None => {
                let ghost before = self.entries@;
                let mut es: Vec<(String, CacheEntry)> = Vec::new();
                std::mem::swap(&mut es, &mut self.entries);
                es.push((key, entry));
                proof {
                    assert(es@.drop_last() =~= before);
                    assert forall|a: int, b: int| 0 <= a < b < es@.len() implies (#[trigger] es@[a]).0@
                        != (#[trigger] es@[b]).0@ by {
                        if b < before.len() {
                            assert(es@[a] == before[a] && es@[b] == before[b]);
                        } else {
                            assert(es@[a] == before[a]);
                            lemma_entries_key_of(before, a);
                        }
                    }
                }
                self.entries = es;
            },
        }
    }

    /// The findings kept for `key`, restored, when they were computed from content with hash
    /// `hash`.
    pub fn get_hashed(&self, key: &str, hash: u64) -> (r: Option<Vec<ReportItem>>)
        ensures
            match r {
                Some(items) => lookup(self.contents(), key@, hash) == Some(kept_all(items@)),
                None => lookup(self.contents(), key@, hash) is None,
            },
    {
        proof {
            use_type_invariant(self);
        }
        match self.find(key) {
            Some(i) => {
                let entry = &self.entries[i].1;
                proof {
                    lemma_entries_at(self.entries@, i as int);
                }
                if entry.content_hash != hash {
                    return None;
                }
                let mut items: Vec<ReportItem> = Vec::new();
                let mut j: usize = 0;
                while j < entry.diagnostics.len()
                    invariant
                        j <= entry.diagnostics@.len(),
                        kept_all(items@) == kept_cached_all(entry.diagnostics@).take(j as int),
                    decreases entry.diagnostics@.len() - j,
                {
                    let c = entry.diagnostics[j].copy();
                    let ghost before = items@;
                    items.push(ReportItem::Cached(c));
                    proof {
                        assert(kept(ReportItem::Cached(c)) == kept_cached(entry.diagnostics@[j as int]));
                        assert(kept_all(items@) =~= kept_all(before).push(kept(ReportItem::Cached(c))));
                        assert(kept_cached_all(entry.diagnostics@).take(j + 1) =~= kept_cached_all(
                            entry.diagnostics@,
                        ).take(j as int).push(kept_cached_all(entry.diagnostics@)[j as int]));
                        assert(kept_all(items@) =~= kept_cached_all(entry.diagnostics@).take(j + 1));
                    }
                    j = j + 1;
                }
                proof {
                    assert(kept_cached_all(entry.diagnostics@).take(j as int) =~= kept_cached_all(
                        entry.diagnostics@,
                    ));
                }
                Some(items)
            },
            None => None,
        }
    }

    /// The findings kept for the file under `key`, restored, when its current `content` is the
    /// content they were computed from (by hash).
    pub fn get(&self, key: &str, content: &str) -> (r: Option<Vec<ReportItem>>)
        ensures
            match r {
                Some(items) => lookup(self.contents(), key@, content_hash(content)) == Some(
                    kept_all(items@),
                ),
                None => lookup(self.contents(), key@, content_hash(content)) is None,
            },
    {
        self.get_hashed(key, hash_content(content))
    }

    /// Keeps `items` for `key` as computed from content with hash `hash`. Where the cache
    /// already holds exactly that, it stays as it is and does not become dirty.
    pub fn set_hashed(&mut self, key: &str, hash: u64, items: &Vec<ReportItem>)
        ensures
            final(self).contents() == old(self).contents().insert(key@, (hash, kept_all(items@))),
            final(self).spec_dirty() == (old(self).spec_dirty() || lookup(old(self).contents(), key@, hash)
                != Some(kept_all(items@))),
            final(self).spec_path() == old(self).spec_path(),
            final(self).spec_version() == old(self).spec_version(),
            final(self).spec_fingerprint() == old(self).spec_fingerprint(),
    {
        proof {
            use_type_invariant(&*self);
        }
        let mut diagnostics: Vec<CachedDiagnostic> = Vec::new();
        let mut j: usize = 0;
        while j < items.len()
            invariant
                j <= items@.len(),
                kept_cached_all(diagnostics@) == kept_all(items@).take(j as int),
            decreases items@.len() - j,
        {
            let c = CachedDiagnostic::of(&items[j]);
            let ghost before = diagnostics@;
            diagnostics.push(c);
            proof {
                assert(kept_cached_all(diagnostics@) =~= kept_cached_all(before).push(kept_cached(c)));
                assert(kept_all(items@).take(j + 1) =~= kept_all(items@).take(j as int).push(
                    kept_all(items@)[j as int],
                ));
                assert(kept_cached_all(diagnostics@) =~= kept_all(items@).take(j + 1));
            }
            j = j + 1;
        }
        proof {
            assert(kept_all(items@).take(j as int) =~= kept_all(items@));
        }
        let same = match self.find(key) {
            Some(i) => {
                proof {
                    lemma_entries_at(self.entries@, i as int);
                }
                self.entries[i].1.content_hash == hash && same_findings(
                    &self.entries[i].1.diagnostics,
                    &diagnostics,
                )
            },
            None => false,
        };
        if same {
            proof {
                assert(old(self).contents().insert(key@, (hash, kept_all(items@))) =~= old(
                    self,
                ).contents());
            }
            return;
        }
        self.put(String::from_str(key), CacheEntry { content_hash: hash, diagnostics });
        proof {
            use_type_invariant(&*self);
        }
        self.dirty = true;
    }

    /// Keeps `items` for the file under `key` whose content is `content`; a no-op (the cache
    /// stays clean) where that is already what it holds.
    pub fn set(&mut self, key: &str, content: &str, items: &Vec<ReportItem>)
        ensures
            final(self).contents() == old(self).contents().insert(
                key@,
                (content_hash(content), kept_all(items@)),
            ),
            final(self).spec_dirty() == (old(self).spec_dirty() || lookup(
                old(self).contents(),
                key@,
                content_hash(content),
            ) != Some(kept_all(items@))),
            final(self).spec_path() == old(self).spec_path(),
            final(self).spec_version() == old(self).spec_version(),
            final(self).spec_fingerprint() == old(self).spec_fingerprint(),
    {
        let h = hash_content(content);
        self.set_hashed(key, h, items);
    }

    /// Whether the cache changed since it was loaded, and so needs saving.
    pub fn is_dirty(&self) -> (r: bool)
        ensures
            r == self.spec_dirty(),
    {
        self.dirty
    }

    /// The cache as it is to be stored.
    pub fn to_stored(&self) -> (r: StoredCache)
        ensures
            r.tool_version@ == self.spec_version(),
            r.config_fingerprint == self.spec_fingerprint(),
            entries_map(r.entries@) == self.contents(),
    {
        let mut entries: Vec<(String, CacheEntry)> = Vec::new();
        let mut i: usize = 0;
        while i < self.entries.len()
            invariant
                i <= self.entries@.len(),
                entries_map(entries@) == entries_map(self.entries@.take(i as int)),
            decreases self.entries@.len() - i,
        {
            let (key, entry) = &self.entries[i];
            let mut ds: Vec<CachedDiagnostic> = Vec::new();
            let mut j: usize = 0;
            while j < entry.diagnostics.len()
                invariant
                    j <= entry.diagnostics@.len(),
                    kept_cached_all(ds@) == kept_cached_all(entry.diagnostics@).take(j as int),
                decreases entry.diagnostics@.len() - j,
            {
                let c = entry.diagnostics[j].copy();
                let ghost before = ds@;
                ds.push(c);
                proof {
                    assert(kept_cached_all(ds@) =~= kept_cached_all(before).push(kept_cached(c)));
                    assert(kept_cached_all(entry.diagnostics@).take(j + 1) =~= kept_cached_all(
                        entry.diagnostics@,
                    ).take(j as int).push(kept_cached_all(entry.diagnostics@)[j as int]));
                    assert(kept_cached_all(ds@) =~= kept_cached_all(entry.diagnostics@).take(j + 1));
                }
                j = j + 1;
            }
            proof {
                assert(kept_cached_all(entry.diagnostics@).take(j as int) =~= kept_cached_all(
                    entry.diagnostics@,
                ));
            }
            let ghost before = entries@;
            entries.push((key.clone(), CacheEntry { content_hash: entry.content_hash, diagnostics: ds }));
            proof {
                assert(entries@.drop_last() =~= before);
                assert(self.entries@.take(i + 1).drop_last() =~= self.entries@.take(i as int));
            }
            i = i + 1;
        }
        proof {
            assert(self.entries@.take(i as int) =~= self.entries@);
        }
        StoredCache {
            tool_version: self.tool_version.clone(),
            config_fingerprint: self.config_fingerprint,
            entries,
        }
    }
}

/// Whether two lists of cached findings keep the same things.
fn same_findings(a: &Vec<CachedDiagnostic>, b: &Vec<CachedDiagnostic>) -> (r: bool)
    ensures
        r == (kept_cached_all(a@) == kept_cached_all(b@)),
{
    if a.len() != b.len() {
        proof {
            assert(kept_cached_all(a@).len() != kept_cached_all(b@).len());
        }
        return false;
    }
    let mut i: usize = 0;
    while i < a.len()
        invariant
            i <= a@.len(),
            a@.len() == b@.len(),
            forall|j: int| 0 <= j < i ==> kept_cached(#[trigger] a@[j]) == kept_cached(b@[j]),
        decreases a@.len() - i,
    {
        if !same_finding(&a[i], &b[i]) {
            proof {
                assert(kept_cached_all(a@)[i as int] != kept_cached_all(b@)[i as int]);
            }
            return false;
        }
        i = i + 1;
    }
    proof {
        assert(kept_cached_all(a@) =~= kept_cached_all(b@));
    }
    true
}

fn same_text(a: &Option<String>, b: &Option<String>) -> (r: bool)
    ensures
        r == (match (a, b) {
            (Some(x), Some(y)) => x@ == y@,
            (None, None) => true,
            _ => false,
        }),
{
    match (a, b) {
        (Some(x), Some(y)) => str_eq(x.as_str(), y.as_str()),
        (None, None) => true,
        _ => false,
    }
}

fn same_range(a: Option<Range>, b: Option<Range>) -> (r: bool)
    ensures
        r == (a == b),
{
    match (a, b) {
        (Some(x), Some(y)) => x.start_line == y.start_line && x.start_column == y.start_column
            && x.end_line == y.end_line && x.end_column == y.end_column,
        (None, None) => true,
        _ => false,
    }
}

fn same_finding(a: &CachedDiagnostic, b: &CachedDiagnostic) -> (r: bool)
    ensures
        r == (kept_cached(*a) == kept_cached(*b)),
{
    let fixes = match (&a.fix, &b.fix) {
        (Some(x), Some(y)) => same_range(Some(x.range), Some(y.range)) && str_eq(
            x.replacement.as_str(),
            y.replacement.as_str(),
        ),
        (None, None) => true,
        _ => false,
    };
    str_eq(a.rule_id.as_str(), b.rule_id.as_str()) && str_eq(a.message.as_str(), b.message.as_str())
        && a.severity == b.severity && same_range(a.range, b.range) && fixes && same_text(
        &a.help,
        &b.help,
    )
}

proof fn lemma_entries_keys(es: Seq<(String, CacheEntry)>, key: Seq<char>)
    requires
        forall|j: int| 0 <= j < es.len() ==> (#[trigger] es[j]).0@ != key,
    ensures
        !entries_map(es).contains_key(key),
    decreases es.len(),
{
    if es.len() > 0 {
        lemma_entries_keys(es.drop_last(), key);
    }
}

proof fn lemma_entries_key_of(es: Seq<(String, CacheEntry)>, a: int)
    requires
        0 <= a < es.len(),
    ensures
        entries_map(es).contains_key(es[a].0@),
    decreases es.len(),
{
    if a < es.len() - 1 {
        lemma_entries_key_of(es.drop_last(), a);
    }
}

/// With distinct keys, an entry's key maps to that entry.
proof fn lemma_entries_at(es: Seq<(String, CacheEntry)>, i: int)
    requires
        0 <= i < es.len(),
        distinct_keys(es),
    ensures
        entries_map(es).contains_key(es[i].0@),
        entries_map(es)[es[i].0@] == (es[i].1.content_hash, kept_cached_all(es[i].1.diagnostics@)),
    decreases es.len(),
{
    if i < es.len() - 1 {
        let d = es.drop_last();
        assert(distinct_keys(d)) by {
            assert forall|a: int, b: int| 0 <= a < b < d.len() implies (#[trigger] d[a]).0@ != (
            #[trigger] d[b]).0@ by {
                assert(d[a] == es[a] && d[b] == es[b]);
            }
        }
        lemma_entries_at(d, i);
        assert(es[i] == d[i]);
        assert(es.last().0@ != es[i].0@);
    }
}

/// Replacing the entry at `i` by one with the same key replaces that key's value.
proof fn lemma_entries_replace(es: Seq<(String, CacheEntry)>, i: int, e: (String, CacheEntry))
    requires
        0 <= i < es.len(),
        distinct_keys(es),
        e.0@ == es[i].0@,
    ensures
        entries_map(es.update(i, e)) == entries_map(es).insert(
            e.0@,
            (e.1.content_hash, kept_cached_all(e.1.diagnostics@)),
        ),
    decreases es.len(),
{
    let u = es.update(i, e);
    let d = es.drop_last();
    if i == es.len() - 1 {
        assert(u.drop_last() =~= d);
        assert(entries_map(u) =~= entries_map(d).insert(e.0@, (e.1.content_hash, kept_cached_all(e.1.diagnostics@))));
        assert(entries_map(es) == entries_map(d).insert(es[i].0@, (es[i].1.content_hash, kept_cached_all(es[i].1.diagnostics@))));
        assert(entries_map(u) =~= entries_map(es).insert(e.0@, (e.1.content_hash, kept_cached_all(e.1.diagnostics@))));
    } else {
        assert(distinct_keys(d)) by {
            assert forall|a: int, b: int| 0 <= a < b < d.len() implies (#[trigger] d[a]).0@ != (
            #[trigger] d[b]).0@ by {
                assert(d[a] == es[a] && d[b] == es[b]);
            }
        }
        lemma_entries_replace(d, i, e);
        assert(u.drop_last() =~= d.update(i, e));
        assert(u.last() == es.last());
        assert(es.last().0@ != es[i].0@);
        assert(entries_map(u) =~= entries_map(es).insert(e.0@, (e.1.content_hash, kept_cached_all(e.1.diagnostics@))));
    }
}

} // verus!
