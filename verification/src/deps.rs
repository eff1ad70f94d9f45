//! Finding dependency tuples in a line of `mix.exs`: what the user is typing
//! in front of the cursor, and what the cursor points at.

use crate::lists::{cap, distinct, holds, lemma_distinct, lemma_texts_push, texts};
use crate::pattern::{
    all_report, all_space, are_groups_of, are_successive, captures, captures_iter,
    comma_then_quote, is_leftmost, is_match, is_name, is_name_char, is_name_start, is_space,
    is_unquoted, opens, reports, search_start, Group, Pattern, Span, HOVER_PKG_PATTERN,
    PKG_PATTERN, VERSION_HOVER_PATTERN, VERSION_PATTERN,
};
use crate::text::{
    byte_offset, find_char, lemma_byte_offset_increases, lemma_find_char, lemma_find_char_unique,
};
use vstd::prelude::*;

verus! {

/// What the user is typing in front of the cursor.
pub enum CompletionContext {
    /// The cursor is after `{:`: a package name. Holds the part typed so far,
    /// which may be empty.
    PackageName(String),
    /// The cursor is inside the version string of a dependency tuple. Holds
    /// the package name and the part of the version typed so far.
    Version(String, String),
}

/// A `CompletionContext` over characters.
pub enum ContextView {
    PackageName(Seq<char>),
    Version(Seq<char>, Seq<char>),
}

impl View for CompletionContext {
    type V = ContextView;

    open spec fn view(&self) -> ContextView {
        match self {
            CompletionContext::PackageName(partial) => ContextView::PackageName(partial@),
            CompletionContext::Version(pkg, partial) => ContextView::Version(pkg@, partial@),
        }
    }
}

/// The end of the white space that begins at `i`.
pub open spec fn skip_space(t: Seq<char>, i: int) -> int
    decreases t.len() - i,
{
    if 0 <= i < t.len() && is_space(t[i]) {
        skip_space(t, i + 1)
    } else {
        i
    }
}

/// The end of the name characters that begin at `i`.
pub open spec fn skip_name(t: Seq<char>, i: int) -> int
    decreases t.len() - i,
{
    if 0 <= i < t.len() && is_name_char(t[i]) {
        skip_name(t, i + 1)
    } else {
        i
    }
}

/// The end of the letters and underscores that begin at `i`.
pub open spec fn skip_letters(t: Seq<char>, i: int) -> int
    decreases t.len() - i,
{
    if 0 <= i < t.len() && is_name_start(t[i]) {
        skip_letters(t, i + 1)
    } else {
        i
    }
}

/// The tuple that opens at `s` with a name and an opening quote: the end of
/// the name and the position of the quote.
pub open spec fn head_at(t: Seq<char>, s: int) -> Option<(int, int)> {
    let name_end = skip_name(t, s + 2);
    let comma = skip_space(t, name_end);
    let quote = skip_space(t, comma + 1);
    if opens(t, s) && s + 2 < t.len() && is_name_start(t[s + 2]) && comma < t.len() && t[comma]
        == ',' && quote < t.len() && t[quote] == '"' {
        Some((name_end, quote))
    } else {
        None
    }
}

/// The tuple that opens at `s` and whose version string is not closed: the
/// spans of the name and of the version.
pub open spec fn open_version_at(t: Seq<char>, s: int) -> Option<(Span, Span)> {
    match head_at(t, s) {
        Some((name_end, quote)) => if find_char(t, '"', quote + 1) == t.len() {
            Some(((s + 2, name_end), (quote + 1, t.len() as int)))
        } else {
            None
        },
        None => None,
    }
}

/// The tuple that opens at `s` and whose version string is closed: the spans
/// of the name and of the version.
pub open spec fn closed_version_at(t: Seq<char>, s: int) -> Option<(Span, Span)> {
    match head_at(t, s) {
        Some((name_end, quote)) => if find_char(t, '"', quote + 1) < t.len() {
            Some(((s + 2, name_end), (quote + 1, find_char(t, '"', quote + 1))))
        } else {
            None
        },
        None => None,
    }
}

/// The tuple that opens at `s` and whose name reaches to the end of the text:
/// the span of the name, which may be empty.
pub open spec fn open_name_at(t: Seq<char>, s: int) -> Option<Span> {
    let start = skip_space(t, s + 2);
    if opens(t, s) && skip_letters(t, start) == t.len() {
        Some((start, t.len() as int))
    } else {
        None
    }
}

/// The tuple that opens at `s`: the span of its name.
pub open spec fn name_at(t: Seq<char>, s: int) -> Option<Span> {
    let start = skip_space(t, s + 2);
    if opens(t, s) && start < t.len() && is_name_start(t[start]) {
        Some((start, skip_name(t, start)))
    } else {
        None
    }
}

/// The leftmost tuple at or after `s` with an open version string: the name
/// and the partial version.
pub open spec fn open_version(t: Seq<char>, s: int) -> Option<(Seq<char>, Seq<char>)>
    decreases t.len() - s,
{
    if s < 0 || s >= t.len() {
        None
    } else {
        match open_version_at(t, s) {
            Some((n, v)) => Some((t.subrange(n.0, n.1), t.subrange(v.0, v.1))),
            None => open_version(t, s + 1),
        }
    }
}

/// The leftmost tuple at or after `s` with an open name: the partial name.
pub open spec fn open_name(t: Seq<char>, s: int) -> Option<Seq<char>>
    decreases t.len() - s,
{
    if s < 0 || s >= t.len() {
        None
    } else {
        match open_name_at(t, s) {
            Some(n) => Some(t.subrange(n.0, n.1)),
            None => open_name(t, s + 1),
        }
    }
}

/// What is being typed at the end of the text. An open version string goes
/// before an open name.
pub open spec fn context_of(t: Seq<char>) -> Option<ContextView> {
    match open_version(t, 0) {
        Some((pkg, partial)) => Some(ContextView::Version(pkg, partial)),
        None => match open_name(t, 0) {
            Some(partial) => Some(ContextView::PackageName(partial)),
            None => None,
        },
    }
}

/// The names of the tuples that open at or after `s`, in order.
pub open spec fn names_from(t: Seq<char>, s: int) -> Seq<Seq<char>>
    decreases t.len() - s,
{
    if s < 0 || s >= t.len() {
        Seq::empty()
    } else {
        match name_at(t, s) {
            Some(n) => seq![t.subrange(n.0, n.1)] + names_from(t, s + 1),
            None => names_from(t, s + 1),
        }
    }
}

/// The cursor, `column` bytes into the line, is on a character of the span.
pub open spec fn on_span(t: Seq<char>, n: Span, column: int) -> bool {
    byte_offset(t, n.0) <= column < byte_offset(t, n.1)
}

/// The name under the cursor, among the tuples that open at or after `s`.
pub open spec fn name_under(t: Seq<char>, s: int, column: int) -> Option<Seq<char>>
    decreases t.len() - s,
{
    if s < 0 || s >= t.len() {
        None
    } else {
        match name_at(t, s) {
            Some(n) => if on_span(t, n, column) {
                Some(t.subrange(n.0, n.1))
            } else {
                name_under(t, s + 1, column)
            },
            None => name_under(t, s + 1, column),
        }
    }
}

/// The cursor is on the quoted version, from the opening quote to the closing
/// one.
pub open spec fn on_quoted(t: Seq<char>, v: Span, column: int) -> bool {
    byte_offset(t, v.0) - 1 <= column <= byte_offset(t, v.1)
}

/// The name of the tuple whose quoted version is under the cursor. Tuples are
/// read from left to right, from `s` on, and the next one is looked for behind
/// the closing quote of the one before.
pub open spec fn version_under(t: Seq<char>, s: int, column: int) -> Option<Seq<char>>
    decreases t.len() - s,
{
    if s < 0 || s >= t.len() {
        None
    } else {
        match closed_version_at(t, s) {
            Some((n, v)) => if on_quoted(t, v, column) {
                Some(t.subrange(n.0, n.1))
            } else if s <= v.1 {
                version_under(t, v.1 + 1, column)
            } else {
                None
            },
            None => version_under(t, s + 1, column),
        }
    }
}

pub proof fn lemma_skip_space(t: Seq<char>, i: int)
    requires
        0 <= i <= t.len(),
    ensures
        i <= skip_space(t, i) <= t.len(),
        all_space(t, i, skip_space(t, i)),
        skip_space(t, i) < t.len() ==> !is_space(t[skip_space(t, i)]),
    decreases t.len() - i,
{
    if i < t.len() && is_space(t[i]) {
        lemma_skip_space(t, i + 1);
    }
}

pub proof fn lemma_skip_space_unique(t: Seq<char>, i: int, j: int)
    requires
        0 <= i <= j <= t.len(),
        all_space(t, i, j),
        j < t.len() ==> !is_space(t[j]),
    ensures
        skip_space(t, i) == j,
{
    lemma_skip_space(t, i);
    let k = skip_space(t, i);
    if k < j {
        assert(is_space(t[k]));
    } else if j < k {
        assert(is_space(t[j]));
    }
}

pub proof fn lemma_skip_name(t: Seq<char>, i: int)
    requires
        0 <= i <= t.len(),
    ensures
        i <= skip_name(t, i) <= t.len(),
        forall|j: int| i <= j < skip_name(t, i) ==> is_name_char(#[trigger] t[j]),
        skip_name(t, i) < t.len() ==> !is_name_char(t[skip_name(t, i)]),
    decreases t.len() - i,
{
    if i < t.len() && is_name_char(t[i]) {
        lemma_skip_name(t, i + 1);
    }
}

pub proof fn lemma_skip_name_unique(t: Seq<char>, i: int, j: int)
    requires
        0 <= i <= j <= t.len(),
        forall|k: int| i <= k < j ==> is_name_char(#[trigger] t[k]),
        j < t.len() ==> !is_name_char(t[j]),
    ensures
        skip_name(t, i) == j,
{
    lemma_skip_name(t, i);
    let k = skip_name(t, i);
    if k < j {
        assert(is_name_char(t[k]));
    } else if j < k {
        assert(is_name_char(t[j]));
    }
}

pub proof fn lemma_skip_letters(t: Seq<char>, i: int)
    requires
        0 <= i <= t.len(),
    ensures
        i <= skip_letters(t, i) <= t.len(),
        forall|j: int| i <= j < skip_letters(t, i) ==> is_name_start(#[trigger] t[j]),
        skip_letters(t, i) < t.len() ==> !is_name_start(t[skip_letters(t, i)]),
    decreases t.len() - i,
{
    if i < t.len() && is_name_start(t[i]) {
        lemma_skip_letters(t, i + 1);
    }
}

/// A name, a comma and a quote in a row are what `head_at` finds.
pub proof fn lemma_head_found(t: Seq<char>, s: int, name_end: int, quote: int)
    requires
        opens(t, s),
        is_name(t, (s + 2, name_end)),
        comma_then_quote(t, name_end, quote),
    ensures
        head_at(t, s) == Some((name_end, quote)),
{
    let c = choose|c: int|
        #![trigger t[c]]
        {
            &&& name_end <= c < quote < t.len()
            &&& all_space(t, name_end, c)
            &&& t[c] == ','
            &&& all_space(t, c + 1, quote)
            &&& t[quote] == '"'
        };
    if name_end < c {
        assert(is_space(t[name_end]));
    }
    lemma_skip_name_unique(t, s + 2, name_end);
    lemma_skip_space_unique(t, name_end, c);
    lemma_skip_space_unique(t, c + 1, quote);
}

/// What `head_at` finds is a name, a comma and a quote in a row.
pub proof fn lemma_head_matches(t: Seq<char>, s: int)
    requires
        head_at(t, s) is Some,
    ensures
        ({
            let (name_end, quote) = head_at(t, s).unwrap();
            &&& opens(t, s)
            &&& is_name(t, (s + 2, name_end))
            &&& comma_then_quote(t, name_end, quote)
            &&& s + 2 < name_end < quote < t.len()
        }),
{
    let (name_end, quote) = head_at(t, s).unwrap();
    lemma_skip_name(t, s + 2);
    lemma_skip_space(t, name_end);
    let comma = skip_space(t, name_end);
    lemma_skip_space(t, comma + 1);
    assert(t[comma] == ',');
}

/// A match of the version pattern is a tuple with an open version string.
proof fn lemma_version_matches(t: Seq<char>, g: Seq<Span>)
    ensures
        is_match(Pattern::Version, t, g) ==> g.len() == 3 && 0 <= g[0].0 < t.len()
            && open_version_at(t, g[0].0) == Some((g[1], g[2])),
{
    if is_match(Pattern::Version, t, g) {
        lemma_head_found(t, g[0].0, g[1].1, g[2].0 - 1);
        lemma_find_char_unique(t, '"', g[2].0, t.len() as int);
    }
}

proof fn lemma_open_version_matches(t: Seq<char>, s: int) -> (g: Seq<Span>)
    requires
        open_version_at(t, s) is Some,
    ensures
        is_match(Pattern::Version, t, g),
        g[0].0 == s,
{
    let (n, v) = open_version_at(t, s).unwrap();
    lemma_head_matches(t, s);
    lemma_find_char(t, '"', v.0);
    let g: Seq<Span> = seq![(s, t.len() as int), n, v];
    assert(is_unquoted(t, v));
    g
}

proof fn lemma_package_matches(t: Seq<char>, g: Seq<Span>)
    ensures
        is_match(Pattern::Package, t, g) ==> g.len() == 2 && 0 <= g[0].0 < t.len()
            && open_name_at(t, g[0].0) == Some(g[1]),
{
    if is_match(Pattern::Package, t, g) {
        let s = g[0].0;
        let a = g[1].0;
        if a < t.len() {
            assert(is_name_start(t[a]));
        }
        lemma_skip_space_unique(t, s + 2, a);
        lemma_skip_letters(t, a);
        let b = skip_letters(t, a);
        if b < t.len() {
            assert(is_name_start(t[b]));
        }
    }
}

proof fn lemma_open_name_matches(t: Seq<char>, s: int) -> (g: Seq<Span>)
    requires
        open_name_at(t, s) is Some,
    ensures
        is_match(Pattern::Package, t, g),
        g[0].0 == s,
{
    let n = open_name_at(t, s).unwrap();
    lemma_skip_space(t, s + 2);
    lemma_skip_letters(t, n.0);
    seq![(s, t.len() as int), n]
}

proof fn lemma_name_matches(t: Seq<char>, s: int) -> (g: Seq<Span>)
    requires
        name_at(t, s) is Some,
    ensures
        is_match(Pattern::Name, t, g),
        g[0].0 == s,
        g[1] == name_at(t, s).unwrap(),
{
    let n = name_at(t, s).unwrap();
    lemma_skip_space(t, s + 2);
    lemma_skip_name(t, n.0);
    assert(is_name_char(t[n.0]));
    seq![(s, n.1), n]
}

/// A leftmost match of the name pattern is the name of the tuple there.
proof fn lemma_leftmost_name(t: Seq<char>, from: int, g: Seq<Span>)
    requires
        is_leftmost(Pattern::Name, t, from, g),
    ensures
        g.len() == 2,
        0 <= g[0].0 < g[0].1 <= t.len(),
        name_at(t, g[0].0) == Some(g[1]),
        g[0].1 == g[1].1,
        forall|i: int| g[0].0 < i < g[0].1 ==> #[trigger] t[i] != '{',
{
    let s = g[0].0;
    let a = g[1].0;
    lemma_skip_space_unique(t, s + 2, a);
    let h = lemma_name_matches(t, s);
    lemma_skip_name(t, a);
    if g[1].1 < skip_name(t, a) {
        assert(h[0].1 <= g[0].1);
    }
    if skip_name(t, a) < g[1].1 {
        assert(is_name_char(t[skip_name(t, a)]));
    }
    assert forall|i: int| g[0].0 < i < g[0].1 implies #[trigger] t[i] != '{' by {
        if i > s + 1 {
            assert(is_space(t[i]) || is_name_char(t[i]));
        }
    }
}

proof fn lemma_quoted_matches(t: Seq<char>, g: Seq<Span>)
    ensures
        is_match(Pattern::Quoted, t, g) ==> g.len() == 3 && 0 <= g[0].0 < g[0].1 <= t.len()
            && closed_version_at(t, g[0].0) == Some((g[1], g[2])) && g[0].1 == g[2].1 + 1,
{
    if is_match(Pattern::Quoted, t, g) {
        lemma_head_found(t, g[0].0, g[1].1, g[2].0 - 1);
        lemma_find_char_unique(t, '"', g[2].0, g[2].1);
    }
}

proof fn lemma_closed_version_matches(t: Seq<char>, s: int) -> (g: Seq<Span>)
    requires
        closed_version_at(t, s) is Some,
    ensures
        is_match(Pattern::Quoted, t, g),
        g[0].0 == s,
{
    let (n, v) = closed_version_at(t, s).unwrap();
    lemma_head_matches(t, s);
    lemma_find_char(t, '"', v.0);
    let g: Seq<Span> = seq![(s, v.1 + 1), n, v];
    assert(is_unquoted(t, v));
    g
}

/// Positions without an open version string may be passed over.
proof fn lemma_open_version_from(t: Seq<char>, a: int, b: int)
    requires
        0 <= a <= b <= t.len(),
        forall|i: int| a <= i < b ==> #[trigger] open_version_at(t, i) is None,
    ensures
        open_version(t, a) == open_version(t, b),
    decreases b - a,
{
    if a < b {
        assert(open_version_at(t, a) is None);
        lemma_open_version_from(t, a + 1, b);
    }
}

proof fn lemma_open_name_from(t: Seq<char>, a: int, b: int)
    requires
        0 <= a <= b <= t.len(),
        forall|i: int| a <= i < b ==> #[trigger] open_name_at(t, i) is None,
    ensures
        open_name(t, a) == open_name(t, b),
    decreases b - a,
{
    if a < b {
        assert(open_name_at(t, a) is None);
        lemma_open_name_from(t, a + 1, b);
    }
}

pub proof fn lemma_name_from(t: Seq<char>, a: int, b: int, column: int)
    requires
        0 <= a <= b <= t.len(),
        forall|i: int| a <= i < b ==> #[trigger] name_at(t, i) is None,
    ensures
        names_from(t, a) == names_from(t, b),
        name_under(t, a, column) == name_under(t, b, column),
    decreases b - a,
{
    if a < b {
        assert(name_at(t, a) is None);
        lemma_name_from(t, a + 1, b, column);
    }
}

pub proof fn lemma_version_from(t: Seq<char>, a: int, b: int, column: int)
    requires
        0 <= a <= b <= t.len(),
        forall|i: int| a <= i < b ==> #[trigger] closed_version_at(t, i) is None,
    ensures
        version_under(t, a, column) == version_under(t, b, column),
    decreases b - a,
{
    if a < b {
        assert(closed_version_at(t, a) is None);
        lemma_version_from(t, a + 1, b, column);
    }
}

/// The text of a group that took part in the match.
fn group_text(
    groups: &Vec<Option<Group>>,
    i: usize,
    Ghost(t): Ghost<Seq<char>>,
    Ghost(g): Ghost<Seq<Span>>,
) -> (r: String)
    requires
        all_report(groups@, t, g),
        i < g.len(),
    ensures
        r@ == t.subrange(g[i as int].0, g[i as int].1),
{
    assert(reports(groups@[i as int], t, g[i as int]));
    match &groups[i] {
        Some(group) => group.text.clone(),
        None => String::new(),
    }
}

/// Decides what kind of completion to offer, from the text on the current line
/// up to the cursor.
pub fn detect_context(text_before: &str) -> (r: Option<CompletionContext>)
    ensures
        match r {
            Some(context) => context_of(text_before@) == Some(context@),
            None => context_of(text_before@) is None,
        },
{
    let ghost t = text_before@;
    // The version context is the more specific one.
    match captures(VERSION_PATTERN, text_before) {
        Some(groups) => {
            let ghost g = choose|g: Seq<Span>| #[trigger]
                is_leftmost(Pattern::Version, t, 0, g) && all_report(groups@, t, g);
            proof {
                lemma_version_matches(t, g);
                assert forall|i: int| 0 <= i < g[0].0 implies #[trigger] open_version_at(
                    t,
                    i,
                ) is None by {
                    if open_version_at(t, i) is Some {
                        let h = lemma_open_version_matches(t, i);
                    }
                }
                lemma_open_version_from(t, 0, g[0].0);
            }
            let pkg: String = group_text(&groups, 1, Ghost(t), Ghost(g));
            let partial: String = group_text(&groups, 2, Ghost(t), Ghost(g));
            return Some(CompletionContext::Version(pkg, partial));
        },
        None => {},
    }
    proof {
        assert forall|i: int| 0 <= i < t.len() implies #[trigger] open_version_at(t, i) is None by {
            if open_version_at(t, i) is Some {
                let h = lemma_open_version_matches(t, i);
            }
        }
        lemma_open_version_from(t, 0, t.len() as int);
    }
    match captures(PKG_PATTERN, text_before) {
        Some(groups) => {
            let ghost g = choose|g: Seq<Span>| #[trigger]
                is_leftmost(Pattern::Package, t, 0, g) && all_report(groups@, t, g);
            proof {
                lemma_package_matches(t, g);
                assert forall|i: int| 0 <= i < g[0].0 implies #[trigger] open_name_at(t, i) is None by {
                    if open_name_at(t, i) is Some {
                        let h = lemma_open_name_matches(t, i);
                    }
                }
                lemma_open_name_from(t, 0, g[0].0);
            }
            let partial: String = group_text(&groups, 1, Ghost(t), Ghost(g));
            return Some(CompletionContext::PackageName(partial));
        },
        None => {},
    }
    proof {
        assert forall|i: int| 0 <= i < t.len() implies #[trigger] open_name_at(t, i) is None by {
            if open_name_at(t, i) is Some {
                let h = lemma_open_name_matches(t, i);
            }
        }
        lemma_open_name_from(t, 0, t.len() as int);
    }
    None
}

/// Between two successive matches of the name pattern no tuple opens.
proof fn lemma_names_step(t: Seq<char>, ms: Seq<Seq<Span>>, k: int, column: int)
    requires
        are_successive(Pattern::Name, t, ms),
        0 <= k < ms.len(),
        0 <= search_start(ms, k) <= t.len(),
    ensures
        0 <= search_start(ms, k + 1) <= t.len(),
        ms[k].len() == 2,
        name_at(t, ms[k][0].0) == Some(ms[k][1]),
        0 <= ms[k][1].0 <= ms[k][1].1 <= t.len(),
        names_from(t, search_start(ms, k)) == seq![t.subrange(ms[k][1].0, ms[k][1].1)] + names_from(
            t,
            search_start(ms, k + 1),
        ),
        name_under(t, search_start(ms, k), column) == (if on_span(t, ms[k][1], column) {
            Some(t.subrange(ms[k][1].0, ms[k][1].1))
        } else {
            name_under(t, search_start(ms, k + 1), column)
        }),
{
    let from = search_start(ms, k);
    let g = ms[k];
    assert(is_leftmost(Pattern::Name, t, from, g));
    lemma_leftmost_name(t, from, g);
    assert forall|i: int| from <= i < g[0].0 implies #[trigger] name_at(t, i) is None by {
        if name_at(t, i) is Some {
            let h = lemma_name_matches(t, i);
        }
    }
    lemma_name_from(t, from, g[0].0, column);
    assert forall|i: int| g[0].0 + 1 <= i < g[0].1 implies #[trigger] name_at(t, i) is None by {
        assert(t[i] != '{');
    }
    lemma_name_from(t, g[0].0 + 1, g[0].1, column);
}

/// Behind the last match no tuple opens.
proof fn lemma_names_end(t: Seq<char>, ms: Seq<Seq<Span>>, column: int)
    requires
        are_successive(Pattern::Name, t, ms),
        0 <= search_start(ms, ms.len() as int) <= t.len(),
    ensures
        names_from(t, search_start(ms, ms.len() as int)) == Seq::<Seq<char>>::empty(),
        name_under(t, search_start(ms, ms.len() as int), column) is None,
{
    let from = search_start(ms, ms.len() as int);
    assert forall|i: int| from <= i < t.len() implies #[trigger] name_at(t, i) is None by {
        if name_at(t, i) is Some {
            let h = lemma_name_matches(t, i);
        }
    }
    lemma_name_from(t, from, t.len() as int, column);
}

/// The package name if the cursor sits inside the name atom of a dependency
/// tuple like `{:phoenix, "~> 1.7"}`. `char_idx` counts bytes.
pub fn package_name_at_cursor(line: &str, char_idx: usize) -> (r: Option<String>)
    ensures
        match r {
            Some(name) => name_under(line@, 0, char_idx as int) == Some(name@),
            None => name_under(line@, 0, char_idx as int) is None,
        },
{
    let found: Vec<Vec<Option<Group>>> = captures_iter(HOVER_PKG_PATTERN, line);
    let ghost t = line@;
    let ghost ms = choose|ms: Seq<Seq<Span>>| are_groups_of(Pattern::Name, t, found@, ms);
    let mut k: usize = 0;
    while k < found.len()
        invariant
            k <= found.len(),
            t == line@,
            are_groups_of(Pattern::Name, t, found@, ms),
            0 <= search_start(ms, k as int) <= t.len(),
            name_under(t, 0, char_idx as int) == name_under(
                t,
                search_start(ms, k as int),
                char_idx as int,
            ),
        decreases found.len() - k,
    {
        proof {
            lemma_names_step(t, ms, k as int, char_idx as int);
            assert(all_report(found@[k as int]@, t, ms[k as int]));
            assert(reports(found@[k as int]@[1], t, ms[k as int][1]));
        }
        match &found[k][1] {
            Some(group) => {
                // The end is exclusive: the character behind the name is not on it.
                if char_idx >= group.start && char_idx < group.end {
                    return Some(group.text.clone());
                }
            },
            None => {},
        }
        k += 1;
    }
    proof {
        lemma_names_end(t, ms, char_idx as int);
    }
    None
}

/// The package name if the cursor sits on the quoted version string of a
/// dependency tuple, the quotes included. `char_idx` counts bytes.
pub fn version_pkg_at_cursor(line: &str, char_idx: usize) -> (r: Option<String>)
    ensures
        match r {
            Some(name) => version_under(line@, 0, char_idx as int) == Some(name@),
            None => version_under(line@, 0, char_idx as int) is None,
        },
{
    let found: Vec<Vec<Option<Group>>> = captures_iter(VERSION_HOVER_PATTERN, line);
    let ghost t = line@;
    let ghost ms = choose|ms: Seq<Seq<Span>>| are_groups_of(Pattern::Quoted, t, found@, ms);
    let mut k: usize = 0;
    while k < found.len()
        invariant
            k <= found.len(),
            t == line@,
            are_groups_of(Pattern::Quoted, t, found@, ms),
            0 <= search_start(ms, k as int) <= t.len(),
            version_under(t, 0, char_idx as int) == version_under(
                t,
                search_start(ms, k as int),
                char_idx as int,
            ),
        decreases found.len() - k,
    {
        proof {
            let from = search_start(ms, k as int);
            let g = ms[k as int];
            assert(is_leftmost(Pattern::Quoted, t, from, g));
            lemma_quoted_matches(t, g);
            assert forall|i: int| from <= i < g[0].0 implies #[trigger] closed_version_at(
                t,
                i,
            ) is None by {
                if closed_version_at(t, i) is Some {
                    let h = lemma_closed_version_matches(t, i);
                }
            }
            lemma_version_from(t, from, g[0].0, char_idx as int);
            assert(all_report(found@[k as int]@, t, g));
            assert(reports(found@[k as int]@[1], t, g[1]));
            assert(reports(found@[k as int]@[2], t, g[2]));
            lemma_byte_offset_increases(t, 0, g[2].0);
            assert(search_start(ms, k + 1) == g[2].1 + 1);
        }
        match (&found[k][1], &found[k][2]) {
            (Some(pkg), Some(version)) => {
                // The opening quote is the byte in front of the version, the
                // closing one sits at its end.
                let quote_open: usize = version.start - 1;
                let quote_close: usize = version.end;
                if char_idx >= quote_open && char_idx <= quote_close {
                    return Some(pkg.text.clone());
                }
            },
            _ => {},
        }
        k += 1;
    }
    proof {
        let from = search_start(ms, ms.len() as int);
        assert forall|i: int| from <= i < t.len() implies #[trigger] closed_version_at(t, i) is None by {
            if closed_version_at(t, i) is Some {
                let h = lemma_closed_version_matches(t, i);
            }
        }
        lemma_version_from(t, from, t.len() as int, char_idx as int);
    }
    None
}

/// What `open_version` finds ends the text and has no quote in it.
proof fn lemma_open_version_suffix(t: Seq<char>, s: int)
    requires
        0 <= s,
    ensures
        match open_version(t, s) {
            Some((pkg, partial)) => {
                &&& partial.len() < t.len()
                &&& t == t.take(t.len() - partial.len()) + partial
                &&& !partial.contains('"')
                &&& t[t.len() - partial.len() - 1] == '"'
                &&& is_name(pkg, (0, pkg.len() as int))
            },
            None => true,
        },
    decreases t.len() - s,
{
    if s < t.len() {
        match open_version_at(t, s) {
            Some((n, v)) => {
                lemma_head_matches(t, s);
                lemma_find_char(t, '"', v.0);
                let partial = t.subrange(v.0, v.1);
                let pkg = t.subrange(n.0, n.1);
                assert(t =~= t.take(v.0) + partial);
                assert(t.len() - partial.len() == v.0);
                assert forall|i: int| 0 <= i < pkg.len() implies is_name_char(#[trigger] pkg[i]) by {
                    assert(pkg[i] == t[n.0 + i]);
                }
                if partial.contains('"') {
                    let i = choose|i: int| 0 <= i < partial.len() && partial[i] == '"';
                    assert(t[v.0 + i] == '"');
                }
            },
            None => lemma_open_version_suffix(t, s + 1),
        }
    }
}

/// What `open_name` finds ends the text and holds letters and underscores.
proof fn lemma_open_name_suffix(t: Seq<char>, s: int)
    requires
        0 <= s,
    ensures
        match open_name(t, s) {
            Some(partial) => {
                &&& partial.len() < t.len()
                &&& t == t.take(t.len() - partial.len()) + partial
                &&& forall|i: int| 0 <= i < partial.len() ==> is_name_start(#[trigger] partial[i])
            },
            None => true,
        },
    decreases t.len() - s,
{
    if s < t.len() {
        match open_name_at(t, s) {
            Some(n) => {
                lemma_skip_space(t, s + 2);
                lemma_skip_letters(t, n.0);
                let partial = t.subrange(n.0, n.1);
                assert(t =~= t.take(n.0) + partial);
                assert forall|i: int| 0 <= i < partial.len() implies is_name_start(
                    #[trigger] partial[i],
                ) by {
                    assert(partial[i] == t[n.0 + i]);
                }
            },
            None => lemma_open_name_suffix(t, s + 1),
        }
    }
}

/// Whatever is being typed stands at the end of the text. A partial version
/// follows its opening quote and has no quote in it, so there is nothing left
/// to complete once the string is closed, and its package has a proper name. A
/// partial package name is made of lower-case letters and underscores.
pub proof fn law_context_ends_the_text(t: Seq<char>)
    ensures
        match context_of(t) {
            Some(ContextView::Version(pkg, partial)) => {
                &&& partial.len() < t.len()
                &&& t == t.take(t.len() - partial.len()) + partial
                &&& t[t.len() - partial.len() - 1] == '"'
                &&& !partial.contains('"')
                &&& is_name(pkg, (0, pkg.len() as int))
            },
            Some(ContextView::PackageName(partial)) => {
                &&& partial.len() < t.len()
                &&& t == t.take(t.len() - partial.len()) + partial
                &&& forall|i: int| 0 <= i < partial.len() ==> is_name_start(#[trigger] partial[i])
            },
            None => true,
        },
{
    lemma_open_version_suffix(t, 0);
    lemma_open_name_suffix(t, 0);
}

/// How many packages of one document are fetched ahead at most, so as not to
/// hammer the registry.
pub const PREFETCH_LIMIT: usize = 30;

/// The packages that a document mentions, each once, in the order in which
/// they first occur, up to the limit.
pub open spec fn prefetched(t: Seq<char>) -> Seq<Seq<char>> {
    cap(distinct(names_from(t, 0)), PREFETCH_LIMIT as int)
}

/// One more text in front of the cap.
proof fn lemma_distinct_step(names: Seq<Seq<char>>, k: int)
    requires
        0 <= k < names.len(),
    ensures
        distinct(names.take(k + 1)) == (if distinct(names.take(k)).contains(names[k]) {
            distinct(names.take(k))
        } else {
            distinct(names.take(k)).push(names[k])
        }),
{
    assert(names.take(k + 1).drop_last() =~= names.take(k));
}

/// The packages to fetch ahead for a document: those it mentions, each once,
/// in the order in which they first occur, up to the limit.
pub fn prefetch_packages(text: &str) -> (r: Vec<String>)
    ensures
        texts(r@) == prefetched(text@),
{
    let found: Vec<Vec<Option<Group>>> = captures_iter(HOVER_PKG_PATTERN, text);
    let ghost t = text@;
    let ghost ms = choose|ms: Seq<Seq<Span>>| are_groups_of(Pattern::Name, t, found@, ms);
    let ghost names = names_from(t, 0);
    let mut out: Vec<String> = Vec::new();
    let mut k: usize = 0;
    proof {
        assert(texts(out@) =~= Seq::<Seq<char>>::empty());
        assert(names.take(0) =~= Seq::<Seq<char>>::empty());
        assert(names.skip(0) =~= names);
    }
    while k < found.len()
        invariant
            k <= found.len(),
            t == text@,
            are_groups_of(Pattern::Name, t, found@, ms),
            0 <= search_start(ms, k as int) <= t.len(),
            names == names_from(t, 0),
            k <= names.len(),
            names_from(t, search_start(ms, k as int)) == names.skip(k as int),
            texts(out@) == cap(distinct(names.take(k as int)), PREFETCH_LIMIT as int),
        decreases found.len() - k,
    {
        let ghost before = distinct(names.take(k as int));
        proof {
            lemma_names_step(t, ms, k as int, 0);
            assert(all_report(found@[k as int]@, t, ms[k as int]));
            assert(reports(found@[k as int]@[1], t, ms[k as int][1]));
            let rest = names.skip(k as int);
            assert(rest == names_from(t, search_start(ms, k as int)));
            assert(rest.len() > 0);
            assert(rest[0] == names[k as int]);
            assert(rest.skip(1) =~= names.skip(k + 1));
            assert(rest.skip(1) =~= names_from(t, search_start(ms, k + 1)));
            lemma_distinct_step(names, k as int);
        }
        match &found[k][1] {
            Some(group) => {
                if out.len() < PREFETCH_LIMIT && !holds(&out, group.text.as_str()) {
                    let name: String = group.text.clone();
                    proof {
                        lemma_texts_push(out@, name);
                    }
                    out.push(name);
                } else if out.len() >= PREFETCH_LIMIT {
                    assert(cap(before.push(names[k as int]), PREFETCH_LIMIT as int) =~= cap(
                        before,
                        PREFETCH_LIMIT as int,
                    ));
                }
            },
            None => {},
        }
        k += 1;
    }
    proof {
        lemma_names_end(t, ms, 0);
        assert(names.skip(k as int).len() == 0);
        assert(names.take(k as int) =~= names);
    }
    out
}

/// Up to its opening quote a tuple holds no second brace.
proof fn lemma_head_has_one_brace(t: Seq<char>, s: int, i: int)
    requires
        head_at(t, s) matches Some((_, quote)) && s < i <= quote,
    ensures
        t[i] != '{',
{
    let (name_end, quote) = head_at(t, s).unwrap();
    lemma_skip_name(t, s + 2);
    let comma = skip_space(t, name_end);
    lemma_skip_space(t, name_end);
    lemma_skip_space(t, comma + 1);
    if s + 2 <= i < name_end {
        assert(is_name_char(t[i]));
    } else if name_end <= i < comma {
        assert(is_space(t[i]));
    } else if comma < i < quote {
        assert(is_space(t[i]));
    }
}

/// Once the version string of the last tuple is closed, there is nothing to
/// complete.
pub proof fn law_closed_string_offers_nothing(t: Seq<char>, s: int)
    requires
        closed_version_at(t, s) is Some,
        forall|i: int| s < i < t.len() ==> #[trigger] t[i] != '{',
    ensures
        context_of(t) is None,
{
    let (n, v) = closed_version_at(t, s).unwrap();
    lemma_head_matches(t, s);
    lemma_find_char(t, '"', v.0);
    assert(t[v.1] == '"');
    assert forall|i: int| 0 <= i < t.len() implies #[trigger] open_version_at(t, i) is None by {
        if open_version_at(t, i) is Some {
            lemma_head_matches(t, i);
            let quote = head_at(t, i).unwrap().1;
            lemma_find_char(t, '"', quote + 1);
            if i > s {
                assert(t[i] != '{');
            } else if i < s && s <= quote {
                lemma_head_has_one_brace(t, i, s);
            }
        }
    }
    lemma_open_version_from(t, 0, t.len() as int);
    assert forall|i: int| 0 <= i < t.len() implies #[trigger] open_name_at(t, i) is None by {
        if open_name_at(t, i) is Some {
            if i > s {
                assert(t[i] != '{');
            }
            let a = skip_space(t, i + 2);
            lemma_skip_space(t, i + 2);
            lemma_skip_letters(t, a);
            if v.1 < a {
                assert(is_space(t[v.1]));
            } else {
                assert(is_name_start(t[v.1]));
            }
        }
    }
    lemma_open_name_from(t, 0, t.len() as int);
}

/// The span of a name ends before the next tuple opens.
proof fn lemma_names_are_apart(t: Seq<char>, s1: int, s2: int)
    requires
        0 <= s1 < s2,
        name_at(t, s1) is Some,
        name_at(t, s2) is Some,
    ensures
        name_at(t, s1).unwrap().0 < name_at(t, s1).unwrap().1 <= s2 < name_at(t, s2).unwrap().0
            < name_at(t, s2).unwrap().1 <= t.len(),
{
    let n1 = name_at(t, s1).unwrap();
    let n2 = name_at(t, s2).unwrap();
    lemma_skip_space(t, s1 + 2);
    lemma_skip_name(t, n1.0);
    lemma_skip_space(t, s2 + 2);
    lemma_skip_name(t, n2.0);
    assert(is_name_char(t[n1.0]));
    assert(is_name_char(t[n2.0]));
    if s2 < n1.1 {
        if s2 >= n1.0 {
            assert(is_name_char(t[s2]));
        } else if s2 >= s1 + 2 {
            assert(is_space(t[s2]));
        }
    }
}

proof fn lemma_name_under(t: Seq<char>, s: int, column: int)
    requires
        0 <= s,
    ensures
        match name_under(t, s, column) {
            Some(name) => exists|i: int|
                s <= i < t.len() && (#[trigger] name_at(t, i) matches Some(n) && on_span(
                    t,
                    n,
                    column,
                ) && name == t.subrange(n.0, n.1)),
            None => forall|i: int|
                s <= i < t.len() ==> (#[trigger] name_at(t, i) matches Some(n) ==> !on_span(
                    t,
                    n,
                    column,
                )),
        },
    decreases t.len() - s,
{
    if s < t.len() {
        lemma_name_under(t, s + 1, column);
        assert(name_at(t, s) is Some || name_at(t, s) is None);
    }
}

/// The cursor is on a package name if and only if that name is found, and it
/// is on at most one.
pub proof fn law_name_under_the_cursor(t: Seq<char>, column: int)
    ensures
        match name_under(t, 0, column) {
            Some(name) => exists|i: int|
                0 <= i < t.len() && (#[trigger] name_at(t, i) matches Some(n) && on_span(
                    t,
                    n,
                    column,
                ) && name == t.subrange(n.0, n.1)),
            None => forall|i: int|
                0 <= i < t.len() ==> (#[trigger] name_at(t, i) matches Some(n) ==> !on_span(
                    t,
                    n,
                    column,
                )),
        },
        forall|i: int, j: int|
            0 <= i < t.len() && 0 <= j < t.len() && (#[trigger] name_at(t, i) matches Some(n)
                && on_span(t, n, column)) && (#[trigger] name_at(t, j) matches Some(m) && on_span(
                t,
                m,
                column,
            )) ==> i == j,
{
    lemma_name_under(t, 0, column);
    assert forall|i: int, j: int|
        0 <= i < t.len() && 0 <= j < t.len() && (#[trigger] name_at(t, i) matches Some(n)
            && on_span(t, n, column)) && (#[trigger] name_at(t, j) matches Some(m) && on_span(
            t,
            m,
            column,
        )) implies i == j by {
        if i < j {
            lemma_names_are_apart(t, i, j);
            lemma_byte_offset_increases(t, name_at(t, i).unwrap().1, name_at(t, j).unwrap().0);
        } else if j < i {
            lemma_names_are_apart(t, j, i);
            lemma_byte_offset_increases(t, name_at(t, j).unwrap().1, name_at(t, i).unwrap().0);
        }
    }
}

proof fn lemma_names_are_names(t: Seq<char>, s: int, k: int)
    requires
        0 <= s,
        0 <= k < names_from(t, s).len(),
    ensures
        is_name(names_from(t, s)[k], (0, names_from(t, s)[k].len() as int)),
    decreases t.len() - s,
{
    match name_at(t, s) {
        Some(n) => {
            if k == 0 {
                lemma_skip_space(t, s + 2);
                lemma_skip_name(t, n.0);
                assert(is_name_char(t[n.0]));
                let name = t.subrange(n.0, n.1);
                assert forall|i: int| 0 <= i < name.len() implies is_name_char(
                    #[trigger] name[i],
                ) by {
                    assert(name[i] == t[n.0 + i]);
                }
            } else {
                lemma_names_are_names(t, s + 1, k - 1);
            }
        },
        None => lemma_names_are_names(t, s + 1, k),
    }
}

/// What is fetched ahead for a document are package names that it mentions:
/// none twice, none more than the limit, and all of them if they do not exceed
/// it.
pub proof fn law_prefetch_is_bounded_and_distinct(t: Seq<char>)
    ensures
        prefetched(t).len() <= PREFETCH_LIMIT,
        prefetched(t).no_duplicates(),
        forall|name: Seq<char>| #[trigger]
            prefetched(t).contains(name) ==> names_from(t, 0).contains(name) && is_name(
                name,
                (0, name.len() as int),
            ),
        distinct(names_from(t, 0)).len() <= PREFETCH_LIMIT ==> forall|name: Seq<char>| #[trigger]
            names_from(t, 0).contains(name) ==> prefetched(t).contains(name),
{
    let names = names_from(t, 0);
    lemma_distinct(names);
    assert forall|name: Seq<char>| #[trigger] prefetched(t).contains(name) implies names.contains(
        name,
    ) && is_name(name, (0, name.len() as int)) by {
        let i = choose|i: int| 0 <= i < prefetched(t).len() && prefetched(t)[i] == name;
        assert(distinct(names)[i] == name);
        assert(distinct(names).contains(name));
        let k = choose|k: int| 0 <= k < names.len() && names[k] == name;
        lemma_names_are_names(t, 0, k);
    }
}

/// A tuple on a line is a tuple of the document: what follows the line cannot
/// be part of a name.
proof fn lemma_name_in_document(t: Seq<char>, a: int, b: int, s: int)
    requires
        0 <= a <= b <= t.len(),
        b < t.len() ==> !is_name_char(t[b]),
        name_at(t.subrange(a, b), s) is Some,
    ensures
        ({
            let n = name_at(t.subrange(a, b), s).unwrap();
            name_at(t, a + s) == Some((a + n.0, a + n.1))
        }),
        0 <= s < t.len(),
{
    let line = t.subrange(a, b);
    let n = name_at(line, s).unwrap();
    lemma_skip_space(line, s + 2);
    lemma_skip_name(line, n.0);
    assert(line[s] == t[a + s] && line[s + 1] == t[a + s + 1]);
    assert forall|i: int| a + s + 2 <= i < a + n.0 implies is_space(#[trigger] t[i]) by {
        assert(is_space(line[i - a]));
    }
    assert(t[a + n.0] == line[n.0]);
    lemma_skip_space_unique(t, a + s + 2, a + n.0);
    assert forall|i: int| a + n.0 <= i < a + n.1 implies is_name_char(#[trigger] t[i]) by {
        assert(is_name_char(line[i - a]));
    }
    if n.1 < line.len() {
        assert(t[a + n.1] == line[n.1]);
    }
    lemma_skip_name_unique(t, a + n.0, a + n.1);
}

/// Every tuple's name is among the names of the text.
proof fn lemma_names_contain(t: Seq<char>, s: int, i: int)
    requires
        0 <= s <= i < t.len(),
        name_at(t, i) is Some,
    ensures
        names_from(t, s).contains(
            t.subrange(name_at(t, i).unwrap().0, name_at(t, i).unwrap().1),
        ),
    decreases i - s,
{
    let name = t.subrange(name_at(t, i).unwrap().0, name_at(t, i).unwrap().1);
    if s == i {
        assert(names_from(t, s)[0] == name);
    } else {
        lemma_names_contain(t, s + 1, i);
        let rest = names_from(t, s + 1);
        let k = choose|k: int| 0 <= k < rest.len() && rest[k] == name;
        if name_at(t, s) is Some {
            assert(names_from(t, s)[k + 1] == name);
        }
    }
}

/// A quoted version stands behind the name of its tuple.
proof fn lemma_version_under_is_name(t: Seq<char>, s: int, column: int) -> (i: int)
    requires
        0 <= s,
        version_under(t, s, column) is Some,
    ensures
        0 <= i < t.len(),
        name_at(t, i) matches Some(n) && version_under(t, s, column) == Some(t.subrange(n.0, n.1)),
    decreases t.len() - s,
{
    match closed_version_at(t, s) {
        Some((n, v)) => {
            lemma_head_matches(t, s);
            lemma_find_char(t, '"', v.0);
            if on_quoted(t, v, column) {
                lemma_skip_space_unique(t, s + 2, s + 2);
                s
            } else {
                lemma_version_under_is_name(t, v.1 + 1, column)
            }
        },
        None => lemma_version_under_is_name(t, s + 1, column),
    }
}

/// What the cursor points at on a line, a package name or a version, belongs
/// to a package that the document mentions.
pub proof fn lemma_hovered_is_mentioned(t: Seq<char>, a: int, b: int, column: int)
    requires
        0 <= a <= b <= t.len(),
        b < t.len() ==> !is_name_char(t[b]),
    ensures
        name_under(t.subrange(a, b), 0, column) matches Some(name) ==> names_from(t, 0).contains(
            name,
        ),
        version_under(t.subrange(a, b), 0, column) matches Some(name) ==> names_from(
            t,
            0,
        ).contains(name),
{
    let line = t.subrange(a, b);
    if name_under(line, 0, column) is Some {
        law_name_under_the_cursor(line, column);
        let i = choose|i: int|
            0 <= i < line.len() && (#[trigger] name_at(line, i) matches Some(n) && on_span(
                line,
                n,
                column,
            ) && name_under(line, 0, column) == Some(line.subrange(n.0, n.1)));
        lemma_line_name_is_mentioned(t, a, b, i);
    }
    if version_under(line, 0, column) is Some {
        let i = lemma_version_under_is_name(line, 0, column);
        lemma_line_name_is_mentioned(t, a, b, i);
    }
}

proof fn lemma_line_name_is_mentioned(t: Seq<char>, a: int, b: int, i: int)
    requires
        0 <= a <= b <= t.len(),
        b < t.len() ==> !is_name_char(t[b]),
        0 <= i,
        name_at(t.subrange(a, b), i) is Some,
    ensures
        ({
            let n = name_at(t.subrange(a, b), i).unwrap();
            names_from(t, 0).contains(t.subrange(a, b).subrange(n.0, n.1))
        }),
{
    let line = t.subrange(a, b);
    let n = name_at(line, i).unwrap();
    lemma_skip_space(line, i + 2);
    lemma_skip_name(line, n.0);
    lemma_name_in_document(t, a, b, i);
    lemma_names_contain(t, 0, a + i);
    assert(line.subrange(n.0, n.1) =~= t.subrange(a + n.0, a + n.1));
}

/// The tuples with a closed version string, read from left to right from `s`
/// on: each is the leftmost one behind the closing quote of the one before it.
/// Gives the spans of name and version.
pub open spec fn closed_tuples(t: Seq<char>, s: int) -> Seq<(Span, Span)>
    decreases t.len() - s,
{
    if s < 0 || s >= t.len() {
        Seq::empty()
    } else {
        match closed_version_at(t, s) {
            Some((n, v)) => if s <= v.1 {
                seq![(n, v)] + closed_tuples(t, v.1 + 1)
            } else {
                Seq::empty()
            },
            None => closed_tuples(t, s + 1),
        }
    }
}

/// The tuples lie behind `s` and apart from each other: the next one opens
/// behind the closing quote of the one before it.
proof fn lemma_closed_tuples_are_apart(t: Seq<char>, s: int)
    requires
        0 <= s,
    ensures
        forall|k: int|
            0 <= k < closed_tuples(t, s).len() ==> {
                let (n, v) = #[trigger] closed_tuples(t, s)[k];
                s + 2 <= n.0 < n.1 < v.0 <= v.1 < t.len() && closed_version_at(t, n.0 - 2) == Some(
                    (n, v),
                )
            },
        forall|k: int, l: int|
            0 <= k < l < closed_tuples(t, s).len() ==> (#[trigger] closed_tuples(t, s)[k]).1.1 + 3
                <= (#[trigger] closed_tuples(t, s)[l]).0.0,
    decreases t.len() - s,
{
    if s < t.len() {
        match closed_version_at(t, s) {
            Some((n, v)) => {
                lemma_head_matches(t, s);
                lemma_find_char(t, '"', v.0);
                let rest = closed_tuples(t, v.1 + 1);
                lemma_closed_tuples_are_apart(t, v.1 + 1);
                let all = closed_tuples(t, s);
                assert(forall|k: int| 1 <= k < all.len() ==> #[trigger] all[k] == rest[k - 1]);
            },
            None => lemma_closed_tuples_are_apart(t, s + 1),
        }
    }
}

/// `found` is the name of the tuple among `tuples` whose quoted version is under
/// the cursor, and `None` if and only if there is no such tuple.
pub open spec fn is_quoted_under(
    t: Seq<char>,
    tuples: Seq<(Span, Span)>,
    column: int,
    found: Option<Seq<char>>,
) -> bool {
    match found {
        Some(name) => exists|k: int|
            0 <= k < tuples.len() && on_quoted(t, (#[trigger] tuples[k]).1, column) && name
                == t.subrange(tuples[k].0.0, tuples[k].0.1),
        None => forall|k: int|
            0 <= k < tuples.len() ==> !on_quoted(t, (#[trigger] tuples[k]).1, column),
    }
}

/// `version_under` finds the tuple whose quoted version is under the cursor.
proof fn lemma_version_under(t: Seq<char>, s: int, column: int)
    requires
        0 <= s,
    ensures
        is_quoted_under(t, closed_tuples(t, s), column, version_under(t, s, column)),
    decreases t.len() - s,
{
    if s < t.len() {
        match closed_version_at(t, s) {
            Some((n, v)) => {
                lemma_head_matches(t, s);
                lemma_find_char(t, '"', v.0);
                let rest = closed_tuples(t, v.1 + 1);
                let all = closed_tuples(t, s);
                let found = version_under(t, s, column);
                assert(all[0] == (n, v));
                if !on_quoted(t, v, column) {
                    lemma_version_under(t, v.1 + 1, column);
                    assert(is_quoted_under(t, rest, column, found));
                    if found is Some {
                        let k = choose|k: int|
                            0 <= k < rest.len() && on_quoted(t, (#[trigger] rest[k]).1, column)
                                && found.unwrap() == t.subrange(rest[k].0.0, rest[k].0.1);
                        assert(all[k + 1] == rest[k]);
                    } else {
                        assert forall|k: int| 0 <= k < all.len() implies !on_quoted(
                            t,
                            (#[trigger] all[k]).1,
                            column,
                        ) by {
                            if k > 0 {
                                assert(all[k] == rest[k - 1]);
                            }
                        }
                    }
                }
                assert(is_quoted_under(t, all, column, found));
            },
            None => lemma_version_under(t, s + 1, column),
        }
    }
}

/// The cursor is on the quoted version of one of the tuples with a closed
/// version string, read from left to right, if and only if the name of that
/// tuple is found, and it is on at most one. Each of them is a tuple of the
/// text, and they do not overlap.
pub proof fn law_version_under_the_cursor(t: Seq<char>, column: int)
    ensures
        is_quoted_under(t, closed_tuples(t, 0), column, version_under(t, 0, column)),
        forall|k: int, l: int|
            0 <= k < closed_tuples(t, 0).len() && 0 <= l < closed_tuples(t, 0).len() && on_quoted(
                t,
                (#[trigger] closed_tuples(t, 0)[k]).1,
                column,
            ) && on_quoted(t, (#[trigger] closed_tuples(t, 0)[l]).1, column) ==> k == l,
        forall|k: int|
            0 <= k < closed_tuples(t, 0).len() ==> {
                let (n, v) = #[trigger] closed_tuples(t, 0)[k];
                closed_version_at(t, n.0 - 2) == Some((n, v))
            },
        forall|k: int, l: int|
            0 <= k < l < closed_tuples(t, 0).len() ==> (#[trigger] closed_tuples(t, 0)[k]).1.1 < (
            #[trigger] closed_tuples(t, 0)[l]).0.0,
{
    lemma_version_under(t, 0, column);
    lemma_closed_tuples_are_apart(t, 0);
    let all = closed_tuples(t, 0);
    assert forall|k: int, l: int|
        0 <= k < all.len() && 0 <= l < all.len() && on_quoted(t, (#[trigger] all[k]).1, column)
            && on_quoted(t, (#[trigger] all[l]).1, column) implies k == l by {
        if k < l {
            lemma_quotes_are_apart(t, all[k].1, all[l].1);
        } else if l < k {
            lemma_quotes_are_apart(t, all[l].1, all[k].1);
        }
    }
}

/// Two quoted versions with a character between them.
proof fn lemma_quotes_are_apart(t: Seq<char>, v: Span, w: Span)
    requires
        0 <= v.1,
        v.1 + 1 < w.0 <= t.len(),
    ensures
        byte_offset(t, v.1) < byte_offset(t, w.0) - 1,
{
    lemma_byte_offset_increases(t, v.1, v.1 + 1);
    lemma_byte_offset_increases(t, v.1 + 1, w.0);
}

/// On a line with one brace, the name of its tuple is found if and only if the
/// cursor is on its quoted version.
pub proof fn law_single_version_under_the_cursor(t: Seq<char>, s: int, column: int)
    requires
        closed_version_at(t, s) is Some,
        forall|i: int| 0 <= i < t.len() && i != s ==> #[trigger] t[i] != '{',
    ensures
        ({
            let (n, v) = closed_version_at(t, s).unwrap();
            version_under(t, 0, column) == (if on_quoted(t, v, column) {
                Some(t.subrange(n.0, n.1))
            } else {
                None
            })
        }),
{
    let (n, v) = closed_version_at(t, s).unwrap();
    lemma_head_matches(t, s);
    lemma_find_char(t, '"', v.0);
    assert forall|i: int| 0 <= i < t.len() && i != s implies #[trigger] closed_version_at(
        t,
        i,
    ) is None by {
        assert(t[i] != '{');
    }
    lemma_version_from(t, 0, s, column);
    lemma_version_from(t, v.1 + 1, t.len() as int, column);
}

} // verus!
