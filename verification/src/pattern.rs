//! The patterns that recognise dependency tuples, and searching a text for
//! them with the `regex` crate.
//!
//! A dependency tuple looks like `{:phoenix, "~> 1.7"}`: an atom that names
//! the package, a comma and a quoted version requirement.

use crate::text::byte_offset;
use regex::Regex;
use vstd::prelude::*;

verus! {

/// A tuple whose version string is still open at the end of the text.
/// Captures the package name and the partial version.
pub const VERSION_PATTERN: &'static str = r#"\{:([a-z_][a-z_0-9]*)\s*,\s*"([^"]*)$"#;

/// A tuple whose package name is still being typed at the end of the text.
/// Captures the partial name, which may be empty.
pub const PKG_PATTERN: &'static str = r"\{:\s*([a-z_]*)$";

/// A package name anywhere in the text. Captures the name.
pub const HOVER_PKG_PATTERN: &'static str = r"\{:\s*([a-z_][a-z_0-9]*)";

/// A tuple with a complete version string. Captures the package name and the
/// version between the quotes.
pub const VERSION_HOVER_PATTERN: &'static str = r#"\{:([a-z_][a-z_0-9]*)\s*,\s*"([^"]*)""#;

/// The four patterns, as contracts speak of them.
pub enum Pattern {
    /// `VERSION_PATTERN`
    Version,
    /// `PKG_PATTERN`
    Package,
    /// `HOVER_PKG_PATTERN`
    Name,
    /// `VERSION_HOVER_PATTERN`
    Quoted,
}

/// A capture group of a match: where it lies in the text, in bytes, and the
/// text it holds. Group 0 is the whole match.
pub struct Group {
    pub start: usize,
    pub end: usize,
    pub text: String,
}

/// A part of a text: the positions of its first character and of the
/// character behind it.
pub type Span = (int, int);

/// White space: what `\s` matches, the Unicode property `White_Space`.
pub open spec fn is_space(c: char) -> bool {
    ||| '\t' <= c <= '\r'
    ||| c == ' '
    ||| c == '\u{85}'
    ||| c == '\u{a0}'
    ||| c == '\u{1680}'
    ||| '\u{2000}' <= c <= '\u{200a}'
    ||| '\u{2028}' <= c <= '\u{2029}'
    ||| c == '\u{202f}'
    ||| c == '\u{205f}'
    ||| c == '\u{3000}'
}

/// What a package name may begin with: `[a-z_]`.
pub open spec fn is_name_start(c: char) -> bool {
    'a' <= c <= 'z' || c == '_'
}

/// What a package name may go on with: `[a-z_0-9]`.
pub open spec fn is_name_char(c: char) -> bool {
    is_name_start(c) || '0' <= c <= '9'
}

/// Only white space from `a` up to `b`.
pub open spec fn all_space(t: Seq<char>, a: int, b: int) -> bool {
    forall|i: int| a <= i < b ==> is_space(#[trigger] t[i])
}

/// `{:` stands at `s`.
pub open spec fn opens(t: Seq<char>, s: int) -> bool {
    0 <= s && s + 2 <= t.len() && t[s] == '{' && t[s + 1] == ':'
}

/// `[a-z_][a-z_0-9]*` matches the span.
pub open spec fn is_name(t: Seq<char>, n: Span) -> bool {
    &&& 0 <= n.0 < n.1 <= t.len()
    &&& is_name_start(t[n.0])
    &&& forall|i: int| n.0 <= i < n.1 ==> is_name_char(#[trigger] t[i])
}

/// `\s*,\s*"` matches from `n` up to a quote at `q`.
pub open spec fn comma_then_quote(t: Seq<char>, n: int, q: int) -> bool {
    exists|c: int|
        #![trigger t[c]]
        {
            &&& n <= c < q < t.len()
            &&& all_space(t, n, c)
            &&& t[c] == ','
            &&& all_space(t, c + 1, q)
            &&& t[q] == '"'
        }
}

/// `[^"]*` matches the span.
pub open spec fn is_unquoted(t: Seq<char>, v: Span) -> bool {
    &&& 0 <= v.0 <= v.1 <= t.len()
    &&& forall|i: int| v.0 <= i < v.1 ==> #[trigger] t[i] != '"'
}

/// The pattern matches the text with the groups `g`: `g[0]` is the span of
/// the whole match, the others are those of the capture groups.
pub open spec fn is_match(p: Pattern, t: Seq<char>, g: Seq<Span>) -> bool {
    match p {
        Pattern::Version => {
            &&& g.len() == 3
            &&& opens(t, g[0].0)
            &&& g[1].0 == g[0].0 + 2
            &&& is_name(t, g[1])
            &&& comma_then_quote(t, g[1].1, g[2].0 - 1)
            &&& is_unquoted(t, g[2])
            &&& g[2].1 == g[0].1 == t.len()
        },
        Pattern::Package => {
            &&& g.len() == 2
            &&& opens(t, g[0].0)
            &&& g[0].0 + 2 <= g[1].0 <= g[1].1
            &&& all_space(t, g[0].0 + 2, g[1].0)
            &&& forall|i: int| g[1].0 <= i < g[1].1 ==> is_name_start(#[trigger] t[i])
            &&& g[1].1 == g[0].1 == t.len()
        },
        Pattern::Name => {
            &&& g.len() == 2
            &&& opens(t, g[0].0)
            &&& g[0].0 + 2 <= g[1].0
            &&& all_space(t, g[0].0 + 2, g[1].0)
            &&& is_name(t, g[1])
            &&& g[0].1 == g[1].1
        },
        Pattern::Quoted => {
            &&& g.len() == 3
            &&& opens(t, g[0].0)
            &&& g[1].0 == g[0].0 + 2
            &&& is_name(t, g[1])
            &&& comma_then_quote(t, g[1].1, g[2].0 - 1)
            &&& is_unquoted(t, g[2])
            &&& g[2].1 < t.len()
            &&& t[g[2].1] == '"'
            &&& g[0].1 == g[2].1 + 1
        },
    }
}

/// The match that a search from position `from` on reports: no match begins
/// further left, and of those that begin there none is longer.
pub open spec fn is_leftmost(p: Pattern, t: Seq<char>, from: int, g: Seq<Span>) -> bool {
    &&& is_match(p, t, g)
    &&& from <= g[0].0
    &&& forall|h: Seq<Span>| #[trigger]
        is_match(p, t, h) && from <= h[0].0 ==> g[0].0 < h[0].0 || (g[0].0 == h[0].0 && h[0].1
            <= g[0].1)
}

/// Where the search for the match with index `i` begins: behind the one before
/// it.
pub open spec fn search_start(ms: Seq<Seq<Span>>, i: int) -> int {
    if i <= 0 {
        0
    } else {
        ms[i - 1][0].1
    }
}

/// The matches that do not overlap, from left to right: each is the leftmost
/// one behind the one before it, and none is left behind the last.
pub open spec fn are_successive(p: Pattern, t: Seq<char>, ms: Seq<Seq<Span>>) -> bool {
    &&& forall|i: int|
        0 <= i < ms.len() ==> #[trigger] is_leftmost(p, t, search_start(ms, i), ms[i])
    &&& forall|h: Seq<Span>| #[trigger]
        is_match(p, t, h) ==> h[0].0 < search_start(ms, ms.len() as int)
}

/// The group reports the span.
pub open spec fn reports(group: Option<Group>, t: Seq<char>, s: Span) -> bool {
    match group {
        Some(g) => {
            &&& 0 <= s.0 <= s.1 <= t.len()
            &&& g.start == byte_offset(t, s.0)
            &&& g.end == byte_offset(t, s.1)
            &&& g.text@ == t.subrange(s.0, s.1)
        },
        None => false,
    }
}

/// The groups report the spans, one for one.
pub open spec fn all_report(groups: Seq<Option<Group>>, t: Seq<char>, g: Seq<Span>) -> bool {
    &&& groups.len() == g.len()
    &&& forall|i: int| 0 <= i < g.len() ==> reports(#[trigger] groups[i], t, g[i])
}

/// What a search for the first match gives: its groups, or nothing where the
/// pattern does not match.
pub open spec fn is_first_capture(
    p: Pattern,
    t: Seq<char>,
    r: Option<Vec<Option<Group>>>,
) -> bool {
    match r {
        Some(groups) => exists|g: Seq<Span>| #[trigger]
            is_leftmost(p, t, 0, g) && all_report(groups@, t, g),
        None => forall|g: Seq<Span>| !is_match(p, t, g),
    }
}

/// The groups are those of the successive matches `ms`.
pub open spec fn are_groups_of(
    p: Pattern,
    t: Seq<char>,
    r: Seq<Vec<Option<Group>>>,
    ms: Seq<Seq<Span>>,
) -> bool {
    &&& are_successive(p, t, ms)
    &&& r.len() == ms.len()
    &&& forall|i: int| 0 <= i < ms.len() ==> all_report(#[trigger] r[i]@, t, ms[i])
}

/// What a search for all matches gives: the groups of each, in order.
pub open spec fn are_captures(p: Pattern, t: Seq<char>, r: Seq<Vec<Option<Group>>>) -> bool {
    exists|ms: Seq<Seq<Span>>| are_groups_of(p, t, r, ms)
}

/// The groups of the first match of a pattern in the text.
///
/// Calls `regex::Regex::new` and `regex::Regex::captures`. Trusted: the two
/// patterns are valid; the match is the leftmost one, with every repetition
/// greedy; the groups are numbered by their opening parentheses, with the
/// whole match as group 0; and each group carries its byte offsets and its
/// text.
#[verifier::external_body]
pub(crate) fn captures(pattern: &str, text: &str) -> (r: Option<Vec<Option<Group>>>)
    requires
        pattern@ == VERSION_PATTERN@ || pattern@ == PKG_PATTERN@,
    ensures
        pattern@ == VERSION_PATTERN@ ==> is_first_capture(Pattern::Version, text@, r),
        pattern@ == PKG_PATTERN@ ==> is_first_capture(Pattern::Package, text@, r),
{
    Regex::new(pattern).unwrap().captures(text).map(|found| {
        found.iter().map(|group| group.map(|m| Group {
            start: m.start(),
            end: m.end(),
            text: m.as_str().to_string(),
        })).collect()
    })
}

/// The groups of every match of a pattern in the text, from left to right.
///
/// Calls `regex::Regex::new` and `regex::Regex::captures_iter`. Trusted: the
/// two patterns are valid; the matches are the successive ones that do not
/// overlap, each the leftmost behind the one before it, with every repetition
/// greedy; and the groups of each are as those of `captures`.
#[verifier::external_body]
pub(crate) fn captures_iter(pattern: &str, text: &str) -> (r: Vec<Vec<Option<Group>>>)
    requires
        pattern@ == HOVER_PKG_PATTERN@ || pattern@ == VERSION_HOVER_PATTERN@,
    ensures
        pattern@ == HOVER_PKG_PATTERN@ ==> are_captures(Pattern::Name, text@, r@),
        pattern@ == VERSION_HOVER_PATTERN@ ==> are_captures(Pattern::Quoted, text@, r@),
{
    Regex::new(pattern).unwrap().captures_iter(text).map(|found| {
        found.iter().map(|group| group.map(|m| Group {
            start: m.start(),
            end: m.end(),
            text: m.as_str().to_string(),
        })).collect()
    }).collect()
}

} // verus!
