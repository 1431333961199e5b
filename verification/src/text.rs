//! Character-level helpers shared by the rules: whitespace classes, run lengths, line
//! splitting (with the semantics of `str::lines`), and translating a 1-based
//! line/column pair into an offset into the source.
use vstd::prelude::*;
use vstd::std_specs::iter::IteratorSpec;

verus! {

/// Unicode `White_Space`, the set `char::is_whitespace` tests.
pub open spec fn is_ws(c: char) -> bool {
    ||| c == ' '
    ||| ('\t' <= c && c <= '\r')
    ||| c == '\u{85}'
    ||| c == '\u{a0}'
    ||| c == '\u{1680}'
    ||| ('\u{2000}' <= c && c <= '\u{200a}')
    ||| c == '\u{2028}'
    ||| c == '\u{2029}'
    ||| c == '\u{202f}'
    ||| c == '\u{205f}'
    ||| c == '\u{3000}'
}

/// Same result as `char::is_whitespace`.
pub fn is_whitespace(c: char) -> (r: bool)
    ensures
        r == is_ws(c),
{
    c == ' ' || ('\t' <= c && c <= '\r') || c == '\u{85}' || c == '\u{a0}' || c == '\u{1680}'
        || ('\u{2000}' <= c && c <= '\u{200a}') || c == '\u{2028}' || c == '\u{2029}' || c
        == '\u{202f}' || c == '\u{205f}' || c == '\u{3000}'
}

/// A class of characters whose runs the rules measure.
#[derive(Clone, Copy)]
pub enum CharClass {
    /// `char::is_whitespace`.
    Whitespace,
    /// One given character.
    Exactly(char),
    /// A space or a tab.
    SpaceOrTab,
    /// `0`..=`9`.
    AsciiDigit,
    /// Anything but a line feed.
    NotNewline,
    /// Anything but one given character.
    Not(char),
    /// Anything `char::is_whitespace` rejects.
    NotWhitespace,
    /// Anything but either of two given characters.
    NotEither(char, char),
    /// What a bare URL runs over: anything but whitespace, `>` and `)`.
    UrlBody,
}

pub open spec fn in_class(c: char, k: CharClass) -> bool {
    match k {
        CharClass::Whitespace => is_ws(c),
        CharClass::Exactly(x) => c == x,
        CharClass::SpaceOrTab => c == ' ' || c == '\t',
        CharClass::AsciiDigit => '0' <= c && c <= '9',
        CharClass::NotNewline => c != '\n',
        CharClass::Not(x) => c != x,
        CharClass::NotWhitespace => !is_ws(c),
        CharClass::NotEither(x, y) => c != x && c != y,
        CharClass::UrlBody => !is_ws(c) && c != '>' && c != ')',
    }
}

pub fn class_has(c: char, k: CharClass) -> (r: bool)
    ensures
        r == in_class(c, k),
{
    match k {
        CharClass::Whitespace => is_whitespace(c),
        CharClass::Exactly(x) => c == x,
        CharClass::SpaceOrTab => c == ' ' || c == '\t',
        CharClass::AsciiDigit => '0' <= c && c <= '9',
        CharClass::NotNewline => c != '\n',
        CharClass::Not(x) => c != x,
        CharClass::NotWhitespace => !is_whitespace(c),
        CharClass::NotEither(x, y) => c != x && c != y,
        CharClass::UrlBody => !is_whitespace(c) && c != '>' && c != ')',
    }
}

/// Length of the longest prefix of `s` made of characters of class `k`.
pub open spec fn count_while(s: Seq<char>, k: CharClass) -> nat
    decreases s.len(),
{
    if s.len() > 0 && in_class(s[0], k) {
        1 + count_while(s.drop_first(), k)
    } else {
        0
    }
}

/// Length of the longest suffix of `s` made of characters of class `k`.
pub open spec fn count_while_rev(s: Seq<char>, k: CharClass) -> nat
    decreases s.len(),
{
    if s.len() > 0 && in_class(s.last(), k) {
        1 + count_while_rev(s.drop_last(), k)
    } else {
        0
    }
}

pub proof fn lemma_count_while_bounds(s: Seq<char>, k: CharClass)
    ensures
        count_while(s, k) <= s.len(),
        forall|j: int| 0 <= j < count_while(s, k) ==> in_class(#[trigger] s[j], k),
        count_while(s, k) < s.len() ==> !in_class(s[count_while(s, k) as int], k),
    decreases s.len(),
{
    if s.len() > 0 && in_class(s[0], k) {
        lemma_count_while_bounds(s.drop_first(), k);
        assert forall|j: int| 0 <= j < count_while(s, k) implies in_class(#[trigger] s[j], k) by {
            if j > 0 {
                assert(s[j] == s.drop_first()[j - 1]);
            }
        }
    }
}

/// A run length is pinned down by where the class first fails.
pub proof fn lemma_count_while_is(s: Seq<char>, k: CharClass, n: int)
    requires
        0 <= n <= s.len(),
        forall|j: int| 0 <= j < n ==> in_class(#[trigger] s[j], k),
        n == s.len() || !in_class(s[n], k),
    ensures
        count_while(s, k) == n,
    decreases n,
{
    if n > 0 {
        let t = s.drop_first();
        assert forall|j: int| 0 <= j < n - 1 implies in_class(#[trigger] t[j], k) by {
            assert(t[j] == s[j + 1]);
        }
        if n < s.len() {
            assert(t[n - 1] == s[n]);
        }
        lemma_count_while_is(t, k, n - 1);
    }
}

pub proof fn lemma_count_while_rev_is(s: Seq<char>, k: CharClass, n: int)
    requires
        0 <= n <= s.len(),
        forall|j: int| s.len() - n <= j < s.len() ==> in_class(#[trigger] s[j], k),
        n == s.len() || !in_class(s[s.len() - n - 1], k),
    ensures
        count_while_rev(s, k) == n,
    decreases n,
{
    if n > 0 {
        let t = s.drop_last();
        assert forall|j: int| t.len() - (n - 1) <= j < t.len() implies in_class(#[trigger] t[j], k) by {
            assert(t[j] == s[j]);
        }
        if n < s.len() {
            assert(t[t.len() - (n - 1) - 1] == s[s.len() - n - 1]);
        }
        lemma_count_while_rev_is(t, k, n - 1);
    }
}

pub proof fn lemma_count_while_rev_bounds(s: Seq<char>, k: CharClass)
    ensures
        count_while_rev(s, k) <= s.len(),
        forall|j: int|
            s.len() - count_while_rev(s, k) <= j < s.len() ==> in_class(#[trigger] s[j], k),
    decreases s.len(),
{
    if s.len() > 0 && in_class(s.last(), k) {
        lemma_count_while_rev_bounds(s.drop_last(), k);
        assert forall|j: int| s.len() - count_while_rev(s, k) <= j < s.len() implies in_class(
            #[trigger] s[j],
            k,
        ) by {
            if j < s.len() - 1 {
                assert(s[j] == s.drop_last()[j]);
            }
        }
    }
}

/// Number of characters of class `k` starting at `start`.
pub fn run_from(s: &Vec<char>, start: usize, k: CharClass) -> (r: usize)
    requires
        start <= s@.len(),
    ensures
        r == count_while(s@.skip(start as int), k),
        start + r <= s@.len(),
{
    let mut i = start;
    while i < s.len() && class_has(s[i], k)
        invariant
            start <= i <= s@.len(),
            forall|j: int| start <= j < i ==> in_class(#[trigger] s@[j], k),
        decreases s@.len() - i,
    {
        i = i + 1;
    }
    proof {
        let t = s@.skip(start as int);
        assert forall|j: int| 0 <= j < i - start implies in_class(#[trigger] t[j], k) by {
            assert(t[j] == s@[start + j]);
        }
        if i < s@.len() {
            assert(t[i - start] == s@[i as int]);
        }
        lemma_count_while_is(t, k, i - start);
    }
    i - start
}

/// Number of characters of class `k` immediately before `end`.
pub fn run_before(s: &Vec<char>, end: usize, k: CharClass) -> (r: usize)
    requires
        end <= s@.len(),
    ensures
        r == count_while_rev(s@.take(end as int), k),
        r <= end,
{
    let mut i = end;
    while i > 0 && class_has(s[i - 1], k)
        invariant
            i <= end <= s@.len(),
            forall|j: int| i <= j < end ==> in_class(#[trigger] s@[j], k),
        decreases i,
    {
        i = i - 1;
    }
    proof {
        let t = s@.take(end as int);
        assert forall|j: int| t.len() - (end - i) <= j < t.len() implies in_class(
            #[trigger] t[j],
            k,
        ) by {
            assert(t[j] == s@[j]);
        }
        if i > 0 {
            assert(t[t.len() - (end - i) - 1] == s@[i - 1]);
        }
        lemma_count_while_rev_is(t, k, (end - i) as int);
    }
    end - i
}

/// The characters of `s`, in order.
pub fn chars_of(s: &str) -> (r: Vec<char>)
    ensures
        r@ == s@,
{
    let mut out: Vec<char> = Vec::new();
    broadcast use vstd::string::group_string_axioms;

    let mut it = s.chars();
    loop
        invariant
            out@ + it.remaining() == s@,
            it.decrease() is Some,
        ensures
            out@ == s@,
        decreases it.decrease()->0,
    {
        let ghost before = it.remaining();
        match it.next() {
            Some(c) => {
                proof {
                    assert(before.len() > 0);
                    assert(out@.push(c) + it.remaining() =~= out@ + before);
                }
                out.push(c);
            },
            None => {
                proof {
                    assert(out@ =~= s@);
                }
                break ;
            },
        }
    }
    out
}

/// A copy of `s[from..to]`.
pub fn copy_range(s: &Vec<char>, from: usize, to: usize) -> (r: Vec<char>)
    requires
        from <= to <= s@.len(),
    ensures
        r@ == s@.subrange(from as int, to as int),
{
    let mut out: Vec<char> = Vec::new();
    let mut i = from;
    while i < to
        invariant
            from <= i <= to <= s@.len(),
            out@ == s@.subrange(from as int, i as int),
        decreases to - i,
    {
        out.push(s[i]);
        i = i + 1;
    }
    out
}

/// `line` without one trailing carriage return.
pub open spec fn strip_cr(line: Seq<char>) -> Seq<char> {
    if line.len() > 0 && line.last() == '\r' {
        line.drop_last()
    } else {
        line
    }
}

/// The lines of `s` as `str::lines` yields them: split at each `\n`, a `\r` just before the
/// `\n` dropped, and no empty line after a final `\n`.
pub open spec fn spec_lines(s: Seq<char>) -> Seq<Seq<char>>
    decreases s.len(),
{
    if s.len() == 0 {
        Seq::empty()
    } else {
        let k = count_while(s, CharClass::NotNewline) as int;
        if k >= s.len() {
            seq![s]
        } else {
            seq![strip_cr(s.take(k))] + spec_lines(s.skip(k + 1))
        }
    }
}

proof fn lemma_lines_step(s: Seq<char>, start: int, i: int)
    requires
        0 <= start <= i < s.len(),
        s[i] == '\n',
        forall|j: int| start <= j < i ==> s[j] != '\n',
    ensures
        spec_lines(s.skip(start)) == seq![strip_cr(s.subrange(start, i))] + spec_lines(
            s.skip(i + 1),
        ),
{
    let t = s.skip(start);
    assert forall|j: int| 0 <= j < i - start implies in_class(
        #[trigger] t[j],
        CharClass::NotNewline,
    ) by {
        assert(t[j] == s[start + j]);
    }
    assert(t[i - start] == s[i]);
    lemma_count_while_is(t, CharClass::NotNewline, i - start);
    assert(t.take(i - start) =~= s.subrange(start, i));
    assert(t.skip(i - start + 1) =~= s.skip(i + 1));
}

proof fn lemma_lines_last(s: Seq<char>, start: int)
    requires
        0 <= start < s.len(),
        forall|j: int| start <= j < s.len() ==> s[j] != '\n',
    ensures
        spec_lines(s.skip(start)) == seq![s.skip(start)],
{
    let t = s.skip(start);
    assert forall|j: int| 0 <= j < t.len() implies in_class(
        #[trigger] t[j],
        CharClass::NotNewline,
    ) by {
        assert(t[j] == s[start + j]);
    }
    lemma_count_while_is(t, CharClass::NotNewline, t.len() as int);
}

/// Drops one trailing `\r` from `line`.
fn strip_cr_exec(line: Vec<char>) -> (r: Vec<char>)
    ensures
        r@ == strip_cr(line@),
{
    let mut line = line;
    if line.len() > 0 && line[line.len() - 1] == '\r' {
        line.pop();
    }
    line
}

/// The character sequences held by a vector of lines.
pub open spec fn lines_view(v: Seq<Vec<char>>) -> Seq<Seq<char>> {
    v.map_values(|l: Vec<char>| l@)
}

/// The lines of `s`, as `str::lines` splits them.
pub fn split_lines(s: &Vec<char>) -> (r: Vec<Vec<char>>)
    ensures
        lines_view(r@) == spec_lines(s@),
{
    let mut out: Vec<Vec<char>> = Vec::new();
    let mut start: usize = 0;
    let mut i: usize = 0;
    proof {
        assert(s@.skip(0) =~= s@);
    }
    while i < s.len()
        invariant
            start <= i <= s@.len(),
            forall|j: int| start <= j < i ==> s@[j] != '\n',
            lines_view(out@) + spec_lines(s@.skip(start as int)) == spec_lines(s@),
        decreases s@.len() - i,
    {
        if s[i] == '\n' {
            let line = strip_cr_exec(copy_range(s, start, i));
            let ghost before = lines_view(out@);
            proof {
                lemma_lines_step(s@, start as int, i as int);
                assert(before.push(line@) + spec_lines(s@.skip(i + 1)) =~= before + spec_lines(
                    s@.skip(start as int),
                ));
            }
            out.push(line);
            proof {
                assert(lines_view(out@) =~= before.push(line@));
            }
            start = i + 1;
        }
        i = i + 1;
    }
    if start < s.len() {
        let line = copy_range(s, start, s.len());
        proof {
            lemma_lines_last(s@, start as int);
            assert(line@ =~= s@.skip(start as int));
        }
        let ghost before = lines_view(out@);
        out.push(line);
        proof {
            assert(lines_view(out@) =~= before.push(line@));
        }
    } else {
        proof {
            assert(s@.skip(start as int) =~= Seq::<char>::empty());
        }
    }
    out
}

/// No more lines than characters, and no line longer than the text.
pub proof fn lemma_lines_bounds(s: Seq<char>)
    ensures
        spec_lines(s).len() <= s.len(),
        forall|i: int| 0 <= i < spec_lines(s).len() ==> (#[trigger] spec_lines(s)[i]).len() <= s.len(),
    decreases s.len(),
{
    if s.len() > 0 {
        lemma_count_while_bounds(s, CharClass::NotNewline);
        let k = count_while(s, CharClass::NotNewline) as int;
        if k < s.len() {
            let rest = s.skip(k + 1);
            lemma_lines_bounds(rest);
            let ls = spec_lines(s);
            assert forall|i: int| 0 <= i < ls.len() implies (#[trigger] ls[i]).len() <= s.len() by {
                if i > 0 {
                    assert(ls[i] == spec_lines(rest)[i - 1]);
                }
            }
        }
    }
}

/// The offset into `s` of 1-based `line`, 1-based `col`: line 1 spans the characters before
/// the first `\n` and may be addressed one past its last character; each later line starts
/// just after the previous line's `\n`. `None` when the line does not exist or the column
/// lies beyond its end.
pub open spec fn spec_offset(s: Seq<char>, line: int, col: int) -> Option<int>
    decreases s.len(),
{
    if line < 1 || col < 1 {
        None
    } else {
        let k = count_while(s, CharClass::NotNewline) as int;
        if line == 1 {
            if col - 1 <= k {
                Some(col - 1)
            } else {
                None
            }
        } else if k >= s.len() {
            None
        } else {
            match spec_offset(s.skip(k + 1), line - 1, col) {
                Some(o) => Some(o + k + 1),
                None => None,
            }
        }
    }
}

pub proof fn lemma_offset_bound(s: Seq<char>, line: int, col: int)
    ensures
        spec_offset(s, line, col) matches Some(o) ==> 0 <= o <= s.len(),
    decreases s.len(),
{
    lemma_count_while_bounds(s, CharClass::NotNewline);
    let k = count_while(s, CharClass::NotNewline) as int;
    if line >= 1 && col >= 1 && line != 1 && k < s.len() {
        lemma_offset_bound(s.skip(k + 1), line - 1, col);
    }
}

/// The offset of `line`/`col` in `s` (see `spec_offset`).
pub fn offset_of(s: &Vec<char>, line: usize, col: usize) -> (r: Option<usize>)
    ensures
        r matches Some(o) ==> spec_offset(s@, line as int, col as int) == Some(o as int),
        r is None ==> spec_offset(s@, line as int, col as int) is None,
{
    if line < 1 || col < 1 {
        return None;
    }
    let mut base: usize = 0;
    let mut remaining = line;
    proof {
        assert(s@.skip(0) =~= s@);
    }
    let n = s.len();
    loop
        invariant
            n == s@.len(),
            base <= s@.len(),
            1 <= remaining <= line,
            col >= 1,
            spec_offset(s@, line as int, col as int) == (match spec_offset(
                s@.skip(base as int),
                remaining as int,
                col as int,
            ) {
                Some(o) => Some(o + base),
                None => None,
            }),
        decreases remaining,
    {
        let k = run_from(s, base, CharClass::NotNewline);
        proof {
            lemma_count_while_bounds(s@.skip(base as int), CharClass::NotNewline);
            assert(base + k <= s@.len());
        }
        if remaining == 1 {
            if col - 1 <= k {
                return Some(base + (col - 1));
            } else {
                return None;
            }
        }
        if k >= s.len() - base {
            return None;
        }
        proof {
            assert(s@.skip(base as int).skip(k + 1) =~= s@.skip(base + k + 1));
        }
        base = base + k + 1;
        remaining = remaining - 1;
    }
}

/// Appends `c` to `s` (`String::push`).
#[verifier::external_body]
pub(crate) fn push_char(s: &mut String, c: char)
    ensures
        final(s)@ == old(s)@.push(c),
{
    s.push(c);
}

/// The number of characters in `s`. It is below `usize::MAX`: the `Vec<char>` that holds them
/// takes one more.
pub fn char_count(s: &str) -> (n: usize)
    ensures
        n == s@.len(),
        n < usize::MAX,
{
    let mut v = chars_of(s);
    let n = v.len();
    v.push('\0');
    let grown = v.len();
    assert(grown == n + 1);
    n
}

/// The string made of the characters `v[from..to]`.
pub fn string_of_range(v: &Vec<char>, from: usize, to: usize) -> (r: String)
    requires
        from <= to <= v@.len(),
    ensures
        r@ == v@.subrange(from as int, to as int),
{
    let mut out = String::new();
    let mut i = from;
    while i < to
        invariant
            from <= i <= to <= v@.len(),
            out@ == v@.subrange(from as int, i as int),
        decreases to - i,
    {
        push_char(&mut out, v[i]);
        i = i + 1;
    }
    out
}

/// The string made of the characters of `v`.
pub fn string_of(v: &Vec<char>) -> (r: String)
    ensures
        r@ == v@,
{
    let r = string_of_range(v, 0, v.len());
    proof {
        assert(v@.subrange(0, v@.len() as int) =~= v@);
    }
    r
}

/// Appends the characters of `v` to `s`.
pub fn push_chars(s: &mut String, v: &Vec<char>)
    ensures
        final(s)@ == old(s)@ + v@,
{
    let mut i: usize = 0;
    while i < v.len()
        invariant
            i <= v@.len(),
            s@ == old(s)@ + v@.take(i as int),
        decreases v@.len() - i,
    {
        let ghost before = s@;
        push_char(s, v[i]);
        proof {
            assert(s@ =~= old(s)@ + v@.take(i + 1));
        }
        i = i + 1;
    }
    proof {
        assert(v@.take(v@.len() as int) =~= v@);
    }
}

/// Whether two strings hold the same characters.
pub fn str_eq(a: &str, b: &str) -> (r: bool)
    ensures
        r == (a@ == b@),
{
    let x = chars_of(a);
    let y = chars_of(b);
    chars_eq(&x, &y)
}

/// Whether two character vectors are equal.
pub fn chars_eq(x: &Vec<char>, y: &Vec<char>) -> (r: bool)
    ensures
        r == (x@ == y@),
{
    if x.len() != y.len() {
        return false;
    }
    let mut i: usize = 0;
    while i < x.len()
        invariant
            x@.len() == y@.len(),
            i <= x@.len(),
            forall|j: int| 0 <= j < i ==> x@[j] == y@[j],
        decreases x@.len() - i,
    {
        if x[i] != y[i] {
            return false;
        }
        i = i + 1;
    }
    proof {
        assert(x@ =~= y@);
    }
    true
}

/// The decimal digit for `d` (`0 <= d < 10`).
pub open spec fn digit_char(d: nat) -> char {
    if d == 0 { '0' } else if d == 1 { '1' } else if d == 2 { '2' } else if d == 3 { '3' }
    else if d == 4 { '4' } else if d == 5 { '5' } else if d == 6 { '6' } else if d == 7 { '7' }
    else if d == 8 { '8' } else { '9' }
}

/// The decimal representation of `n`, without leading zeros.
pub open spec fn dec(n: nat) -> Seq<char>
    decreases n,
{
    if n < 10 {
        seq![digit_char(n)]
    } else {
        dec(n / 10).push(digit_char(n % 10))
    }
}

fn digit_exec(d: usize) -> (c: char)
    requires
        d < 10,
    ensures
        c == digit_char(d as nat),
{
    if d == 0 { '0' } else if d == 1 { '1' } else if d == 2 { '2' } else if d == 3 { '3' }
    else if d == 4 { '4' } else if d == 5 { '5' } else if d == 6 { '6' } else if d == 7 { '7' }
    else if d == 8 { '8' } else { '9' }
}

/// `n` written in decimal, as `format!("{n}")` writes it.
pub fn fmt_usize(n: usize) -> (r: String)
    ensures
        r@ == dec(n as nat),
    decreases n,
{
    if n < 10 {
        let mut r = String::new();
        push_char(&mut r, digit_exec(n));
        proof {
            assert(r@ =~= seq![digit_char(n as nat)]);
        }
        r
    } else {
        let mut r = fmt_usize(n / 10);
        push_char(&mut r, digit_exec(n % 10));
        r
    }
}

/// `s` without leading whitespace.
pub open spec fn trim_start(s: Seq<char>) -> Seq<char> {
    s.skip(count_while(s, CharClass::Whitespace) as int)
}

/// `s` without trailing whitespace.
pub open spec fn trim_end(s: Seq<char>) -> Seq<char> {
    s.take(s.len() - count_while_rev(s, CharClass::Whitespace))
}

/// `s` without leading or trailing whitespace (`str::trim`).
pub open spec fn trim(s: Seq<char>) -> Seq<char> {
    trim_end(trim_start(s))
}

/// `s` without leading or trailing whitespace.
pub fn trim_chars(s: &Vec<char>) -> (r: Vec<char>)
    ensures
        r@ == trim(s@),
{
    let a = run_from(s, 0, CharClass::Whitespace);
    let t = copy_range(s, a, s.len());
    proof {
        assert(s@.skip(0) =~= s@);
        assert(t@ =~= trim_start(s@));
    }
    let b = run_before(&t, t.len(), CharClass::Whitespace);
    let r = copy_range(&t, 0, t.len() - b);
    proof {
        assert(t@.take(t@.len() as int) =~= t@);
        assert(r@ =~= trim_end(t@));
    }
    r
}

/// `s` without leading whitespace.
pub fn trim_start_chars(s: &Vec<char>) -> (r: Vec<char>)
    ensures
        r@ == trim_start(s@),
{
    let a = run_from(s, 0, CharClass::Whitespace);
    let t = copy_range(s, a, s.len());
    proof {
        assert(s@.skip(0) =~= s@);
        assert(t@ =~= trim_start(s@));
    }
    t
}

/// `s` without trailing whitespace.
pub fn trim_end_chars(s: &Vec<char>) -> (r: Vec<char>)
    ensures
        r@ == trim_end(s@),
{
    let b = run_before(s, s.len(), CharClass::Whitespace);
    let r = copy_range(s, 0, s.len() - b);
    proof {
        assert(s@.take(s@.len() as int) =~= s@);
        assert(r@ =~= trim_end(s@));
    }
    r
}

/// Whether `s` is empty after trimming whitespace.
pub fn is_blank(s: &Vec<char>) -> (r: bool)
    ensures
        r == (trim(s@).len() == 0),
        r == (forall|j: int| 0 <= j < s@.len() ==> is_ws(#[trigger] s@[j])),
{
    let a = run_from(s, 0, CharClass::Whitespace);
    proof {
        assert(s@.skip(0) =~= s@);
        lemma_count_while_bounds(s@, CharClass::Whitespace);
        lemma_trim_empty(s@);
    }
    a == s.len()
}

pub proof fn lemma_trim_empty(s: Seq<char>)
    ensures
        (trim(s).len() == 0) == (count_while(s, CharClass::Whitespace) == s.len()),
        (count_while(s, CharClass::Whitespace) == s.len()) == (forall|j: int|
            0 <= j < s.len() ==> is_ws(#[trigger] s[j])),
{
    lemma_count_while_bounds(s, CharClass::Whitespace);
    let t = trim_start(s);
    lemma_count_while_rev_bounds(t, CharClass::Whitespace);
    if count_while(s, CharClass::Whitespace) < s.len() {
        let a = count_while(s, CharClass::Whitespace) as int;
        assert(t[0] == s[a]);
        assert(!is_ws(t[0]));
        if count_while_rev(t, CharClass::Whitespace) == t.len() {
            assert(is_ws(t[0]));
        }
    } else {
        assert(t.len() == 0);
    }
    if forall|j: int| 0 <= j < s.len() ==> is_ws(#[trigger] s[j]) {
        lemma_count_while_is(s, CharClass::Whitespace, s.len() as int);
    }
}

/// Whether `s` begins with `prefix`.
pub open spec fn starts_with(s: Seq<char>, prefix: Seq<char>) -> bool {
    prefix.len() <= s.len() && s.take(prefix.len() as int) == prefix
}

/// Whether `s` ends with `suffix`.
pub open spec fn ends_with(s: Seq<char>, suffix: Seq<char>) -> bool {
    suffix.len() <= s.len() && s.skip(s.len() - suffix.len()) == suffix
}

/// Whether `s[at..]` begins with `prefix`.
pub fn has_prefix_at(s: &Vec<char>, at: usize, prefix: &str) -> (r: bool)
    requires
        at <= s@.len(),
    ensures
        r == starts_with(s@.skip(at as int), prefix@),
{
    let p = chars_of(prefix);
    if p.len() > s.len() - at {
        return false;
    }
    let n = s.len();
    let mut i: usize = 0;
    while i < p.len()
        invariant
            n == s@.len(),
            p@ == prefix@,
            at + p@.len() <= s@.len(),
            i <= p@.len(),
            forall|j: int| 0 <= j < i ==> s@[at + j] == p@[j],
        decreases p@.len() - i,
    {
        if s[at + i] != p[i] {
            proof {
                assert(s@.skip(at as int).take(p@.len() as int)[i as int] != p@[i as int]);
                assert(s@.skip(at as int).take(p@.len() as int) != p@);
                assert(p@ == prefix@);
            }
            return false;
        }
        i = i + 1;
    }
    proof {
        assert(s@.skip(at as int).take(p@.len() as int) =~= p@);
    }
    true
}

/// Whether `s[..end]` ends with `suffix`.
pub fn has_suffix_at(s: &Vec<char>, end: usize, suffix: &str) -> (r: bool)
    requires
        end <= s@.len(),
    ensures
        r == ends_with(s@.take(end as int), suffix@),
{
    let p = chars_of(suffix);
    if p.len() > end {
        return false;
    }
    let start = end - p.len();
    let mut i: usize = 0;
    while i < p.len()
        invariant
            start + p@.len() == end <= s@.len(),
            p@ == suffix@,
            i <= p@.len(),
            forall|j: int| 0 <= j < i ==> s@[start + j] == p@[j],
        decreases p@.len() - i,
    {
        if s[start + i] != p[i] {
            proof {
                assert(s@.take(end as int).skip(start as int)[i as int] != p@[i as int]);
                assert(s@.take(end as int).skip(start as int) != p@);
                assert(p@ == suffix@);
            }
            return false;
        }
        i = i + 1;
    }
    proof {
        assert(s@.take(end as int).skip(start as int) =~= p@);
    }
    true
}

/// `s` split at every `sep` (`str::split`): one more piece than there are `sep`s.
pub open spec fn split_at_char(s: Seq<char>, sep: char) -> Seq<Seq<char>>
    decreases s.len(),
{
    if s.len() == 0 {
        seq![Seq::<char>::empty()]
    } else {
        let rest = split_at_char(s.drop_first(), sep);
        if s[0] == sep {
            seq![Seq::<char>::empty()] + rest
        } else {
            rest.update(0, seq![s[0]] + rest[0])
        }
    }
}

pub proof fn lemma_split_nonempty(s: Seq<char>, sep: char)
    ensures
        split_at_char(s, sep).len() >= 1,
    decreases s.len(),
{
    if s.len() > 0 {
        lemma_split_nonempty(s.drop_first(), sep);
    }
}

/// Without a separator, `s` is a single piece.
pub proof fn lemma_split_whole(s: Seq<char>, sep: char)
    requires
        forall|j: int| 0 <= j < s.len() ==> s[j] != sep,
    ensures
        split_at_char(s, sep) == seq![s],
    decreases s.len(),
{
    if s.len() > 0 {
        let t = s.drop_first();
        assert forall|j: int| 0 <= j < t.len() implies t[j] != sep by {
            assert(t[j] == s[j + 1]);
        }
        lemma_split_whole(t, sep);
        assert(seq![s[0]] + t =~= s);
        assert(seq![t].update(0, seq![s[0]] + t) =~= seq![s]);
    } else {
        assert(s =~= Seq::<char>::empty());
    }
}

/// The first separator of `s`, at `k`, ends the first piece.
pub proof fn lemma_split_at(s: Seq<char>, sep: char, k: int)
    requires
        0 <= k < s.len(),
        s[k] == sep,
        forall|j: int| 0 <= j < k ==> s[j] != sep,
    ensures
        split_at_char(s, sep) == seq![s.take(k)] + split_at_char(s.skip(k + 1), sep),
    decreases k,
{
    let t = s.drop_first();
    if k == 0 {
        assert(s.take(0) =~= Seq::<char>::empty());
        assert(s.skip(1) =~= t);
    } else {
        assert forall|j: int| 0 <= j < k - 1 implies t[j] != sep by {
            assert(t[j] == s[j + 1]);
        }
        assert(t[k - 1] == s[k]);
        lemma_split_at(t, sep, k - 1);
        lemma_split_nonempty(t.skip(k), sep);
        assert(seq![s[0]] + t.take(k - 1) =~= s.take(k));
        assert(t.skip(k) =~= s.skip(k + 1));
        let rest = split_at_char(t, sep);
        assert(rest.update(0, seq![s[0]] + rest[0]) =~= seq![s.take(k)] + split_at_char(
            s.skip(k + 1),
            sep,
        ));
    }
}

/// `s` split at every `sep`.
pub fn split_char(s: &Vec<char>, sep: char) -> (r: Vec<Vec<char>>)
    ensures
        lines_view(r@) == split_at_char(s@, sep),
{
    let mut out: Vec<Vec<char>> = Vec::new();
    let mut start: usize = 0;
    let n = s.len();
    proof {
        assert(s@.skip(0) =~= s@);
        assert(lines_view(out@) =~= Seq::<Seq<char>>::empty());
    }
    loop
        invariant
            n == s@.len(),
            start <= s@.len(),
            lines_view(out@) + split_at_char(s@.skip(start as int), sep) == split_at_char(
                s@,
                sep,
            ),
        decreases s@.len() - start,
    {
        let k = run_from(s, start, CharClass::Not(sep));
        let piece = copy_range(s, start, start + k);
        let ghost t = s@.skip(start as int);
        let ghost before = lines_view(out@);
        proof {
            lemma_count_while_bounds(t, CharClass::Not(sep));
            assert(piece@ =~= t.take(k as int));
        }
        out.push(piece);
        proof {
            assert(lines_view(out@) =~= before.push(piece@));
        }
        if start + k >= n {
            proof {
                assert forall|j: int| 0 <= j < t.len() implies t[j] != sep by {
                    assert(in_class(t[j], CharClass::Not(sep)));
                }
                lemma_split_whole(t, sep);
                assert(t.take(k as int) =~= t);
                assert(before.push(piece@) =~= before + seq![t]);
            }
            return out;
        }
        proof {
            assert forall|j: int| 0 <= j < k implies t[j] != sep by {
                assert(in_class(t[j], CharClass::Not(sep)));
            }
            assert(!in_class(t[k as int], CharClass::Not(sep)));
            lemma_split_at(t, sep, k as int);
            assert(t.skip(k + 1) =~= s@.skip(start + k + 1));
            assert(before.push(piece@) + split_at_char(s@.skip(start + k + 1), sep) =~= before
                + split_at_char(t, sep));
        }
        start = start + k + 1;
    }
}

/// What `str::to_lowercase` gives for `s`.
pub uninterp spec fn lowercased(s: Seq<char>) -> Seq<char>;

/// `s` in lowercase (`str::to_lowercase`, Unicode's default case mapping). The result is
/// named `lowercased` of `s`; nothing more is stated of it.
#[verifier::external_body]
pub(crate) fn to_lowercase(s: &str) -> (r: String)
    ensures
        r@ == lowercased(s@),
{
    s.to_lowercase()
}

/// What `char::is_alphanumeric` says of `c`.
pub uninterp spec fn alphanumeric(c: char) -> bool;

/// Whether `c` is alphabetic or numeric (`char::is_alphanumeric`, by Unicode's tables). The
/// result is named `alphanumeric` of `c`.
#[verifier::external_body]
pub(crate) fn is_alphanumeric(c: char) -> (r: bool)
    ensures
        r == alphanumeric(c),
{
    c.is_alphanumeric()
}

/// What `char::to_lowercase` gives for `c`, as a sequence.
pub uninterp spec fn char_lowered(c: char) -> Seq<char>;

/// `c` in lowercase (`char::to_lowercase`, collected): one or more characters. The result is
/// named `char_lowered` of `c`.
#[verifier::external_body]
pub(crate) fn char_to_lowercase(c: char) -> (r: String)
    ensures
        r@ == char_lowered(c),
{
    c.to_lowercase().collect()
}

/// The bytes `c` takes in UTF-8.
pub open spec fn utf8_width(c: char) -> nat {
    if (c as u32) < 0x80 {
        1
    } else if (c as u32) < 0x800 {
        2
    } else if (c as u32) < 0x10000 {
        3
    } else {
        4
    }
}

/// The bytes `c` takes in UTF-8.
pub fn utf8_width_exec(c: char) -> (r: usize)
    ensures
        r == utf8_width(c),
{
    let v = c as u32;
    if v < 0x80 {
        1
    } else if v < 0x800 {
        2
    } else if v < 0x10000 {
        3
    } else {
        4
    }
}

/// The UTF-16 code units `c` takes: two outside the basic multilingual plane, else one.
pub open spec fn utf16_width(c: char) -> nat {
    if (c as u32) < 0x10000 {
        1
    } else {
        2
    }
}

fn utf16_width_exec(c: char) -> (r: usize)
    ensures
        r == utf16_width(c),
{
    if (c as u32) < 0x10000 {
        1
    } else {
        2
    }
}

/// The number of characters of `t` that its first `u` UTF-16 code units hold, where those
/// units end at a character boundary.
pub open spec fn char_index_at_unit(t: Seq<char>, u: int) -> Option<int>
    decreases t.len(),
{
    if u == 0 {
        Some(0)
    } else if u < 0 || t.len() == 0 {
        None
    } else {
        match char_index_at_unit(t.drop_first(), u - utf16_width(t[0])) {
            Some(i) => Some(i + 1),
            None => None,
        }
    }
}

/// Line `line` (1-based) of `s` as it stands between line feeds.
pub open spec fn raw_line(s: Seq<char>, line: int) -> Option<Seq<char>> {
    match spec_offset(s, line, 1) {
        Some(o) => Some(s.skip(o).take(count_while(s.skip(o), CharClass::NotNewline) as int)),
        None => None,
    }
}

/// The character column (1-based) that column `col` of line `line` of `s`, counted in UTF-16
/// code units as the parser counts them (both 1-based), falls on, where it falls on a
/// character boundary of the line.
pub open spec fn char_column(s: Seq<char>, line: int, col: int) -> Option<int> {
    match raw_line(s, line) {
        Some(t) => match char_index_at_unit(t, col - 1) {
            Some(i) => Some(i + 1),
            None => None,
        },
        None => None,
    }
}

/// The character column of UTF-16 column `col` on line `line` of `s`.
pub fn char_column_exec(s: &Vec<char>, line: usize, col: usize) -> (r: Option<usize>)
    requires
        s@.len() < usize::MAX,
    ensures
        r matches Some(c) ==> char_column(s@, line as int, col as int) == Some(c as int),
        r is None ==> char_column(s@, line as int, col as int) is None,
{
    if col == 0 {
        return None;
    }
    let o = match offset_of(s, line, 1) {
        Some(o) => o,
        None => {
            return None;
        },
    };
    proof {
        lemma_offset_bound(s@, line as int, 1);
    }
    let k = run_from(s, o, CharClass::NotNewline);
    let ghost t = s@.skip(o as int).take(k as int);
    let mut i: usize = o;
    let mut b: usize = col - 1;
    proof {
        assert(t.skip(0) =~= t);
    }
    loop
        invariant
            o <= i <= o + k,
            o + k <= s@.len(),
            s@.len() < usize::MAX,
            t == s@.skip(o as int).take(k as int),
            raw_line(s@, line as int) == Some(t),
            col >= 1,
            char_index_at_unit(t, (col - 1) as int) == match char_index_at_unit(t.skip(i - o), b as int) {
                Some(j) => Some(j + (i - o)),
                None => None,
            },
        decreases o + k - i,
    {
        if b == 0 {
            proof {
                assert(char_index_at_unit(t.skip(i - o), 0) == Some(0int));
            }
            return Some(i - o + 1);
        }
        if i >= o + k {
            proof {
                assert(t.skip(i - o).len() == 0);
            }
            return None;
        }
        let w = utf16_width_exec(s[i]);
        proof {
            assert(t.skip(i - o)[0] == s@[i as int]);
            assert(t.skip(i - o).drop_first() =~= t.skip(i - o + 1));
        }
        if w > b {
            proof {
                assert(char_index_at_unit(t.skip(i - o + 1), b - w) is None) by {
                    assert(b - w < 0);
                    if t.skip(i - o + 1).len() > 0 || b - w != 0 {
                    }
                }
            }
            return None;
        }
        b = b - w;
        i = i + 1;
    }
}

} // verus!
