//! GNU-style dependency lists, as the driver writes them beside an object.
use vstd::prelude::*;
use crate::cc::reason::{CcBypassReason, BypassView};
use crate::cc::invocation::strings_view;
use crate::path::{split_all, split_all_chars};
use crate::text::{chars_of, concat_chars, copy_chars, lit, skip, slice, string_of, views};

verus! {

/// `s` without one trailing carriage return.
pub open spec fn strip_cr(s: Seq<char>) -> Seq<char> {
    if s.len() > 0 && s.last() == '\r' { s.drop_last() } else { s }
}

/// The `\n`-separated pieces of `s`, without the empty piece a final line
/// ending leaves.
pub open spec fn raw_lines(s: Seq<char>) -> Seq<Seq<char>> {
    let parts = split_all(s, '\n');
    if parts.len() > 0 && parts.last().len() == 0 { parts.drop_last() } else { parts }
}

/// The lines of `s` as `str::lines` yields them: a line ended by `\r\n`
/// loses its carriage return, an unterminated last line keeps it.
pub open spec fn line_of(s: Seq<char>, k: int) -> Seq<char> {
    if k + 1 < split_all(s, '\n').len() { strip_cr(raw_lines(s)[k]) } else { raw_lines(s)[k] }
}

/// `t` without its trailing tabs.
pub open spec fn trim_tabs(t: Seq<char>) -> Seq<char>
    decreases t.len(),
{
    if t.len() > 0 && t.last() == '\t' { trim_tabs(t.drop_last()) } else { t }
}

/// The first `n` physical lines of `s` joined into logical lines, and
/// whether the last of them ends in a continuation.
///
/// A line ending in a backslash continues on the next, which is appended
/// after a single space; trailing tabs are dropped from each piece, and
/// every completed logical line ends in `\n`.
pub open spec fn joined_lines(s: Seq<char>, n: int) -> (Seq<char>, bool)
    decreases n,
{
    if n <= 0 {
        (Seq::empty(), false)
    } else {
        let (acc, continued) = joined_lines(s, n - 1);
        let t = strip_cr(line_of(s, n - 1));
        let continues = t.len() > 0 && t.last() == '\\';
        let text = if continues { t.drop_last() } else { t };
        let spaced = if continued { acc.push(' ') } else { acc };
        let body = spaced + trim_tabs(text);
        (if continues { body } else { body.push('\n') }, continues)
    }
}

/// Physical lines joined where the compiler wrapped them with a trailing
/// backslash; a continuation with no line after it is malformed.
pub open spec fn join_continuations(s: Seq<char>) -> Result<Seq<char>, BypassView> {
    let (joined, continued) = joined_lines(s, raw_lines(s).len() as int);
    if continued {
        Err(BypassView::MalformedDepfile("unterminated line continuation"@))
    } else {
        Ok(joined)
    }
}

fn strip_cr_chars(s: &[char]) -> (r: Vec<char>)
    ensures
        r@ == strip_cr(s@),
{
    if s.len() > 0 && s[s.len() - 1] == '\r' {
        slice(s, 0, s.len() - 1)
    } else {
        copy_chars(s)
    }
}

fn trim_tabs_chars(t: &[char]) -> (r: Vec<char>)
    ensures
        r@ == trim_tabs(t@),
{
    let mut n = t.len();
    assert(t@.take(n as int) =~= t@);
    while n > 0 && t[n - 1] == '\t'
        invariant
            n <= t.len(),
            trim_tabs(t@.take(n as int)) == trim_tabs(t@),
        decreases n,
    {
        assert(t@.take(n as int).drop_last() =~= t@.take(n - 1));
        n = n - 1;
    }
    assert(trim_tabs(t@.take(n as int)) == t@.take(n as int));
    slice(t, 0, n)
}

/// The physical lines of `s`, each as `str::lines` yields it.
fn lines_of(s: &[char]) -> (r: Vec<Vec<char>>)
    ensures
        r@.len() == raw_lines(s@).len(),
        forall|k: int| 0 <= k < r@.len() ==> #[trigger] r@[k]@ == line_of(s@, k),
{
    let parts = split_all_chars(s, '\n');
    let ghost all = views(parts@);
    assert(all.len() == parts@.len());
    let count = if parts.len() > 0 && parts[parts.len() - 1].len() == 0 { parts.len() - 1 } else { parts.len() };
    assert(count == raw_lines(s@).len());
    let mut r: Vec<Vec<char>> = Vec::new();
    let mut k: usize = 0;
    while k < count
        invariant
            k <= count,
            count <= parts.len(),
            all == views(parts@),
            all == split_all(s@, '\n'),
            all.len() == parts@.len(),
            count == raw_lines(s@).len(),
            r@.len() == k,
            forall|j: int| 0 <= j < k ==> #[trigger] r@[j]@ == line_of(s@, j),
        decreases count - k,
    {
        assert(raw_lines(s@)[k as int] == all[k as int]);
        if k + 1 < parts.len() {
            r.push(strip_cr_chars(parts[k].as_slice()));
        } else {
            r.push(copy_chars(parts[k].as_slice()));
        }
        k = k + 1;
    }
    r
}

/// Join physical lines the compiler wrapped with a trailing backslash.
pub fn join_continuations_chars(s: &[char]) -> (r: Result<Vec<char>, CcBypassReason>)
    ensures
        match join_continuations(s@) {
            Ok(j) => r matches Ok(x) && x@ == j,
            Err(e) => r matches Err(x) && x@ == e,
        },
{
    let lines = lines_of(s);
    let mut joined: Vec<char> = Vec::new();
    let mut continued = false;
    let mut k: usize = 0;
    while k < lines.len()
        invariant
            k <= lines.len(),
            lines@.len() == raw_lines(s@).len(),
            forall|j: int| 0 <= j < lines@.len() ==> #[trigger] lines@[j]@ == line_of(s@, j),
            joined_lines(s@, k as int) == (joined@, continued),
        decreases lines.len() - k,
    {
        let t = strip_cr_chars(lines[k].as_slice());
        assert(t@ == strip_cr(line_of(s@, k as int)));
        let continues = t.len() > 0 && t[t.len() - 1] == '\\';
        let text = if continues { slice(t.as_slice(), 0, t.len() - 1) } else { copy_chars(t.as_slice()) };
        if continued {
            joined.push(' ');
        }
        let trimmed = trim_tabs_chars(text.as_slice());
        joined = concat_chars(joined.as_slice(), trimmed.as_slice());
        if !continues {
            joined.push('\n');
        }
        continued = continues;
        k = k + 1;
    }
    if continued {
        return Err(CcBypassReason::MalformedDepfile(String::from_str("unterminated line continuation")));
    }
    Ok(joined)
}

/// Where `pat` first occurs in `s`.
pub open spec fn first_occurrence(s: Seq<char>, pat: Seq<char>) -> Option<int> {
    if exists|i: int| 0 <= i <= s.len() - pat.len() && #[trigger] s.subrange(i, i + pat.len()) == pat {
        Some(choose|i: int| 0 <= i <= s.len() - pat.len() && #[trigger] s.subrange(i, i + pat.len()) == pat
            && forall|j: int| 0 <= j < i ==> #[trigger] s.subrange(j, j + pat.len()) != pat)
    } else {
        None
    }
}

/// What follows the first rule separator `": "` on the first line that has
/// one, from line `k` on.
pub open spec fn rule_from(joined: Seq<char>, k: int) -> Option<Seq<char>>
    decreases raw_lines(joined).len() - k,
{
    if k < 0 || k >= raw_lines(joined).len() {
        None
    } else {
        let line = line_of(joined, k);
        match first_occurrence(line, ": "@) {
            Some(i) => Some(line.skip(i + ": "@.len())),
            None => rule_from(joined, k + 1),
        }
    }
}

/// Split a prerequisite list from index `i` on, honoring exactly the escapes
/// make defines: `\ `, `\#` and `$$`. Anything else escaped is a spelling
/// this model does not cover, and is refused rather than guessed at.
pub open spec fn scan_prerequisites(v: Seq<char>, i: int, current: Seq<char>, files: Seq<Seq<char>>) -> Result<Seq<Seq<char>>, BypassView>
    decreases v.len() - i,
{
    if i < 0 || i >= v.len() {
        Ok(if current.len() > 0 { files.push(current) } else { files })
    } else {
        let c = v[i];
        if c == ' ' || c == '\t' {
            scan_prerequisites(v, i + 1, Seq::empty(), if current.len() > 0 { files.push(current) } else { files })
        } else if c == '\\' {
            if i + 1 >= v.len() {
                Err(BypassView::MalformedDepfile("trailing escape character"@))
            } else if v[i + 1] == ' ' || v[i + 1] == '#' {
                scan_prerequisites(v, i + 2, current.push(v[i + 1]), files)
            } else {
                Err(BypassView::MalformedDepfile("unmodeled escape \\"@.push(v[i + 1])))
            }
        } else if c == '$' {
            if i + 1 >= v.len() {
                Err(BypassView::MalformedDepfile("trailing variable reference"@))
            } else if v[i + 1] == '$' {
                scan_prerequisites(v, i + 2, current.push('$'), files)
            } else {
                Err(BypassView::MalformedDepfile("unmodeled variable reference $"@.push(v[i + 1])))
            }
        } else {
            scan_prerequisites(v, i + 1, current.push(c), files)
        }
    }
}

proof fn lemma_scan_words(v: Seq<char>, i: int, current: Seq<char>, files: Seq<Seq<char>>)
    requires
        0 <= i,
        forall|k: int| 0 <= k < files.len() ==> (#[trigger] files[k]).len() > 0,
    ensures
        scan_prerequisites(v, i, current, files) matches Ok(r) ==> forall|k: int| 0 <= k < r.len() ==> (#[trigger] r[k]).len() > 0,
        (forall|k: int| i <= k < v.len() ==> v[k] != '\\' && v[k] != '$') ==> scan_prerequisites(v, i, current, files) is Ok,
    decreases v.len() - i,
{
    if i >= v.len() {
        if current.len() > 0 {
            assert forall|k: int| 0 <= k < files.push(current).len() implies (#[trigger] files.push(current)[k]).len() > 0 by {
                if k < files.len() {
                    assert(files.push(current)[k] == files[k]);
                }
            }
        }
    } else {
        let c = v[i];
        if c == ' ' || c == '\t' {
            let next = if current.len() > 0 { files.push(current) } else { files };
            assert forall|k: int| 0 <= k < next.len() implies (#[trigger] next[k]).len() > 0 by {
                if k < files.len() {
                    assert(next[k] == files[k]);
                }
            }
            lemma_scan_words(v, i + 1, Seq::empty(), next);
        } else if c == '\\' {
            if i + 1 < v.len() && (v[i + 1] == ' ' || v[i + 1] == '#') {
                lemma_scan_words(v, i + 2, current.push(v[i + 1]), files);
            }
        } else if c == '$' {
            if i + 1 < v.len() && v[i + 1] == '$' {
                lemma_scan_words(v, i + 2, current.push('$'), files);
            }
        } else {
            lemma_scan_words(v, i + 1, current.push(c), files);
        }
    }
}

/// Whether `c` separates prerequisites.
pub open spec fn is_blank(c: char) -> bool {
    c == ' ' || c == '\t'
}

/// The blank-separated words of `v`, in order, with no empty ones.
pub open spec fn blank_words(v: Seq<char>) -> Seq<Seq<char>>
    decreases v.len(),
{
    if v.len() == 0 {
        Seq::empty()
    } else {
        let w = blank_words(v.drop_last());
        let c = v.last();
        if is_blank(c) {
            w
        } else if v.len() > 1 && !is_blank(v[v.len() - 2]) {
            w.drop_last().push(w.last().push(c))
        } else {
            w.push(seq![c])
        }
    }
}

proof fn lemma_scan_plain(v: Seq<char>, i: int, current: Seq<char>, files: Seq<Seq<char>>)
    requires
        0 <= i <= v.len(),
        forall|k: int| 0 <= k < v.len() ==> v[k] != '\\' && v[k] != '$',
        current.len() > 0 ==> blank_words(v.take(i)) == files.push(current) && i > 0 && !is_blank(v[i - 1]),
        current.len() == 0 ==> blank_words(v.take(i)) == files && (i == 0 || is_blank(v[i - 1])),
    ensures
        scan_prerequisites(v, i, current, files) == Ok::<Seq<Seq<char>>, BypassView>(blank_words(v)),
    decreases v.len() - i,
{
    if i == v.len() {
        assert(v.take(i) == v);
    } else {
        let c = v[i];
        let t = v.take(i + 1);
        assert(t.drop_last() == v.take(i));
        assert(t.last() == c);
        if i > 0 {
            assert(t[t.len() - 2] == v[i - 1]);
        }
        if is_blank(c) {
            let next = if current.len() > 0 { files.push(current) } else { files };
            lemma_scan_plain(v, i + 1, Seq::empty(), next);
        } else {
            if current.len() > 0 {
                let pre = blank_words(v.take(i));
                assert(pre.drop_last() == files);
                assert(pre.last() == current);
                assert(blank_words(t) == files.push(current.push(c)));
            } else {
                assert(Seq::<char>::empty().push(c) =~= seq![c]);
                assert(current =~= Seq::<char>::empty());
                assert(blank_words(t) == files.push(seq![c]));
            }
            assert(current.push(c).len() > 0);
            assert(v.take(i + 1) == t);
            assert(blank_words(v.take(i + 1)) == files.push(current.push(c)));
            assert(!is_blank(v[(i + 1) - 1]));
            lemma_scan_plain(v, i + 1, current.push(c), files);
        }
    }
}

/// A prerequisite list without escapes or variable references splits into
/// exactly its blank-separated words.
pub proof fn lemma_plain_prerequisites_split_on_blanks(v: Seq<char>)
    requires
        forall|k: int| 0 <= k < v.len() ==> v[k] != '\\' && v[k] != '$',
    ensures
        scan_prerequisites(v, 0, Seq::empty(), Seq::empty()) == Ok::<Seq<Seq<char>>, BypassView>(blank_words(v)),
{
    assert(v.take(0) == Seq::<char>::empty());
    lemma_scan_plain(v, 0, Seq::empty(), Seq::empty());
}

/// Every name a prerequisite list splits into is non-empty, and a list
/// without escapes or variable references always splits.
pub proof fn lemma_prerequisites_are_words(v: Seq<char>)
    ensures
        scan_prerequisites(v, 0, Seq::empty(), Seq::empty()) matches Ok(r) ==> forall|k: int| 0 <= k < r.len() ==> (#[trigger] r[k]).len() > 0,
        (forall|k: int| 0 <= k < v.len() ==> v[k] != '\\' && v[k] != '$') ==> scan_prerequisites(v, 0, Seq::empty(), Seq::empty()) is Ok,
{
    lemma_scan_words(v, 0, Seq::empty(), Seq::empty());
}

/// The prerequisites named by the first rule of a dependency list.
///
/// Only the first rule is read. The adapter never passes `-MP`, so a
/// well-formed file the adapter asked for has exactly one rule, and anything
/// further is ignored rather than guessed at.
pub open spec fn parse_depfile(contents: Seq<char>) -> Result<Seq<Seq<char>>, BypassView> {
    match join_continuations(contents) {
        Err(e) => Err(e),
        Ok(joined) => match rule_from(joined, 0) {
            None => Err(BypassView::MalformedDepfile("no dependency rule"@)),
            Some(prerequisites) => scan_prerequisites(prerequisites, 0, Seq::empty(), Seq::empty()),
        },
    }
}

fn find_pair(s: &[char], a: char, b: char) -> (r: Option<usize>)
    ensures
        ({
            let pat = seq![a, b];
            match r {
                Some(i) => first_occurrence(s@, pat) == Some(i as int) && i + 2 <= s.len(),
                None => first_occurrence(s@, pat) is None,
            }
        }),
{
    let ghost pat = seq![a, b];
    if s.len() < 2 {
        assert(!(exists|i: int| 0 <= i <= s@.len() - pat.len() && #[trigger] s@.subrange(i, i + pat.len()) == pat));
        return None;
    }
    let mut i: usize = 0;
    while i + 1 < s.len()
        invariant
            s.len() >= 2,
            i + 1 <= s.len(),
            pat == seq![a, b],
            forall|j: int| 0 <= j < i ==> #[trigger] s@.subrange(j, j + pat.len()) != pat,
        decreases s.len() - i,
    {
        if s[i] == a && s[i + 1] == b {
            assert(s@.subrange(i as int, i + 2) =~= pat);
            let ghost k = choose|k: int| 0 <= k <= s@.len() - pat.len() && #[trigger] s@.subrange(k, k + pat.len()) == pat
                && forall|j: int| 0 <= j < k ==> #[trigger] s@.subrange(j, j + pat.len()) != pat;
            assert(k == i) by {
                if k > i { assert(s@.subrange(i as int, i + pat.len()) != pat); }
                if k < i { assert(s@.subrange(k, k + pat.len()) != pat); }
            }
            return Some(i);
        }
        assert(s@.subrange(i as int, i + 2) != pat) by {
            if s[i as int] != a { assert(s@.subrange(i as int, i + 2)[0] != pat[0]); }
            else { assert(s@.subrange(i as int, i + 2)[1] != pat[1]); }
        }
        i = i + 1;
    }
    assert(!(exists|k: int| 0 <= k <= s@.len() - pat.len() && #[trigger] s@.subrange(k, k + pat.len()) == pat)) by {
        if exists|k: int| 0 <= k <= s@.len() - pat.len() && #[trigger] s@.subrange(k, k + pat.len()) == pat {
            let k = choose|k: int| 0 <= k <= s@.len() - pat.len() && #[trigger] s@.subrange(k, k + pat.len()) == pat;
            assert(s@.subrange(k, k + pat.len()) != pat);
        }
    }
    None
}

fn rule_of(joined: &[char]) -> (r: Option<Vec<char>>)
    ensures
        match rule_from(joined@, 0) {
            Some(p) => r matches Some(x) && x@ == p,
            None => r is None,
        },
{
    let lines = lines_of(joined);
    assert(": "@ =~= seq![':', ' ']) by { reveal_strlit(": "); }
    let mut k: usize = 0;
    while k < lines.len()
        invariant
            k <= lines.len(),
            lines@.len() == raw_lines(joined@).len(),
            forall|j: int| 0 <= j < lines@.len() ==> #[trigger] lines@[j]@ == line_of(joined@, j),
            ": "@ == seq![':', ' '],
            rule_from(joined@, k as int) == rule_from(joined@, 0),
        decreases lines.len() - k,
    {
        let line = lines[k].as_slice();
        assert(line@ == line_of(joined@, k as int));
        match find_pair(line, ':', ' ') {
            Some(i) => {
                return Some(skip(line, i + 2));
            },
            None => {},
        }
        k = k + 1;
    }
    None
}

fn split_prerequisites(v: &[char]) -> (r: Result<Vec<String>, CcBypassReason>)
    ensures
        match scan_prerequisites(v@, 0, Seq::empty(), Seq::empty()) {
            Ok(files) => r matches Ok(x) && strings_view(x@) == files,
            Err(e) => r matches Err(x) && x@ == e,
        },
{
    let mut files: Vec<String> = Vec::new();
    let mut current: Vec<char> = Vec::new();
    assert(strings_view(files@) =~= Seq::<Seq<char>>::empty());
    let mut i: usize = 0;
    while i < v.len()
        invariant
            i <= v.len(),
            scan_prerequisites(v@, i as int, current@, strings_view(files@))
                == scan_prerequisites(v@, 0, Seq::empty(), Seq::empty()),
        decreases v.len() - i,
    {
        let c = v[i];
        if c == ' ' || c == '\t' {
            if current.len() > 0 {
                let f = string_of(current.as_slice());
                let ghost before = files@;
                files.push(f);
                assert(strings_view(files@) =~= strings_view(before).push(current@));
            }
            current = Vec::new();
            i = i + 1;
        } else if c == '\\' {
            if i + 1 >= v.len() {
                return Err(CcBypassReason::MalformedDepfile(String::from_str("trailing escape character")));
            }
            let next = v[i + 1];
            if next == ' ' || next == '#' {
                current.push(next);
                i = i + 2;
            } else {
                let mut m = lit("unmodeled escape \\");
                m.push(next);
                return Err(CcBypassReason::MalformedDepfile(string_of(m.as_slice())));
            }
        } else if c == '$' {
            if i + 1 >= v.len() {
                return Err(CcBypassReason::MalformedDepfile(String::from_str("trailing variable reference")));
            }
            let next = v[i + 1];
            if next == '$' {
                current.push('$');
                i = i + 2;
            } else {
                let mut m = lit("unmodeled variable reference $");
                m.push(next);
                return Err(CcBypassReason::MalformedDepfile(string_of(m.as_slice())));
            }
        } else {
            current.push(c);
            i = i + 1;
        }
    }
    if current.len() > 0 {
        let f = string_of(current.as_slice());
        let ghost before = files@;
        files.push(f);
        assert(strings_view(files@) =~= strings_view(before).push(current@));
    }
    Ok(files)
}

/// A parsed GNU-style dependency list.
#[derive(Debug, Clone)]
pub struct CcDepfile {
    /// Prerequisite files named by the first rule.
    pub files: Vec<String>,
}

impl CcDepfile {
    /// Parse a GNU-style dependency list.
    ///
    /// Only the first rule is read. The adapter never passes `-MP`, so a
    /// well-formed file the adapter asked for has exactly one rule, and
    /// anything further is ignored rather than guessed at.
    pub fn parse(contents: &str) -> (r: Result<CcDepfile, CcBypassReason>)
        ensures
            match parse_depfile(contents@) {
                Ok(files) => r matches Ok(x) && strings_view(x.files@) == files,
                Err(e) => r matches Err(x) && x@ == e,
            },
    {
        let text = chars_of(contents);
        let joined = join_continuations_chars(text.as_slice())?;
        let prerequisites = match rule_of(joined.as_slice()) {
            Some(p) => p,
            None => return Err(CcBypassReason::MalformedDepfile(String::from_str("no dependency rule"))),
        };
        let files = split_prerequisites(prerequisites.as_slice())?;
        Ok(CcDepfile { files })
    }
}

} // verus!
