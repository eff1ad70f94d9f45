//! What is recognised in a line: what is being typed, and what the cursor is
//! on.

use crate::deps::{
    closed_version_at, context_of, head_at, law_name_under_the_cursor, lemma_head_found,
    lemma_head_matches, lemma_name_from, lemma_skip_letters, lemma_skip_name,
    lemma_skip_name_unique, lemma_skip_space, lemma_skip_space_unique, lemma_version_from, name_at,
    name_under, names_from, on_span, open_name, open_name_at, open_version, open_version_at,
    prefetched, skip_letters, skip_name, skip_space, version_under, ContextView,
};
use crate::lists::distinct;
use crate::pattern::{
    comma_then_quote, is_name_char, is_name_start, is_space, HOVER_PKG_PATTERN, PKG_PATTERN,
    VERSION_HOVER_PATTERN, VERSION_PATTERN,
};
use crate::text::{
    byte_offset, find_char, lemma_byte_len_add, lemma_find_char, lemma_find_char_unique,
};
use vstd::prelude::*;
use vstd::string::*;
use vstd::utf8::*;

verus! {

/// The white space that may stand in a tuple.
pub open spec fn blanks() -> Seq<char> {
    seq![
        '\t', '\n', '\u{b}', '\u{c}', '\r', ' ', '\u{85}', '\u{a0}', '\u{1680}', '\u{2000}',
        '\u{2001}', '\u{2002}', '\u{2003}', '\u{2004}', '\u{2005}', '\u{2006}', '\u{2007}',
        '\u{2008}', '\u{2009}', '\u{200a}', '\u{2028}', '\u{2029}', '\u{202f}', '\u{205f}',
        '\u{3000}',
    ]
}

/// Which characters make up the names and the white space of a tuple.
pub proof fn law_characters_of_a_tuple(c: char)
    ensures
        is_name_start(c) <==> "abcdefghijklmnopqrstuvwxyz_"@.contains(c),
        is_name_char(c) <==> "abcdefghijklmnopqrstuvwxyz_"@.contains(c)
            || "0123456789"@.contains(c),
        is_space(c) <==> blanks().contains(c),
{
    let letters = "abcdefghijklmnopqrstuvwxyz_"@;
    let digits = "0123456789"@;
    reveal_strlit("abcdefghijklmnopqrstuvwxyz_");
    reveal_strlit("0123456789");
    if 'a' <= c <= 'z' {
        assert(letters[c as int - 97] == c);
    }
    if c == '_' {
        assert(letters[26] == c);
    }
    if '0' <= c <= '9' {
        assert(digits[c as int - 48] == c);
    }
    if is_space(c) {
        let b = blanks();
        if '\t' <= c <= '\r' {
            assert(b[c as int - 9] == c);
        } else if '\u{2000}' <= c <= '\u{200a}' {
            assert(b[c as int - 0x2000 + 9] == c);
        } else {
            assert(c == b[5] || c == b[6] || c == b[7] || c == b[8] || c == b[20] || c == b[21]
                || c == b[22] || c == b[23] || c == b[24]);
        }
    }
}

/// White space, and nothing else.
pub open spec fn blank(w: Seq<char>) -> bool {
    forall|i: int| 0 <= i < w.len() ==> is_space(#[trigger] w[i])
}

/// A package name.
pub open spec fn package_name(n: Seq<char>) -> bool {
    n.len() > 0 && is_name_start(n[0]) && forall|i: int|
        0 <= i < n.len() ==> is_name_char(#[trigger] n[i])
}

/// What may be typed of a package name.
pub open spec fn begun_name(p: Seq<char>) -> bool {
    forall|i: int| 0 <= i < p.len() ==> is_name_start(#[trigger] p[i])
}

/// Everything in front of the quoted version of a tuple, quote included.
pub open spec fn head(
    pre: Seq<char>,
    pkg: Seq<char>,
    w1: Seq<char>,
    w2: Seq<char>,
) -> Seq<char> {
    pre + "{:"@ + pkg + w1 + ","@ + w2 + "\""@
}

/// The text ends in a tuple whose version string is open.
pub open spec fn opens_version(
    t: Seq<char>,
    pre: Seq<char>,
    pkg: Seq<char>,
    w1: Seq<char>,
    w2: Seq<char>,
    partial: Seq<char>,
) -> bool {
    &&& t == head(pre, pkg, w1, w2) + partial
    &&& package_name(pkg)
    &&& blank(w1)
    &&& blank(w2)
    &&& !partial.contains('"')
}

/// The text ends in a tuple whose version string is open, and no such tuple
/// begins further left.
pub open spec fn opens_leftmost_version(
    t: Seq<char>,
    pre: Seq<char>,
    pkg: Seq<char>,
    w1: Seq<char>,
    w2: Seq<char>,
    partial: Seq<char>,
) -> bool {
    &&& opens_version(t, pre, pkg, w1, w2, partial)
    &&& forall|
        pre2: Seq<char>,
        pkg2: Seq<char>,
        v1: Seq<char>,
        v2: Seq<char>,
        partial2: Seq<char>,
    | #[trigger]
        opens_version(t, pre2, pkg2, v1, v2, partial2) ==> pre.len() <= pre2.len()
}

/// The text ends in a tuple whose name is being typed.
pub open spec fn opens_name(
    t: Seq<char>,
    pre: Seq<char>,
    w: Seq<char>,
    partial: Seq<char>,
) -> bool {
    &&& t == pre + "{:"@ + w + partial
    &&& blank(w)
    &&& begun_name(partial)
}

/// The text holds a tuple with a version between quotes.
pub open spec fn closes_version(
    t: Seq<char>,
    pre: Seq<char>,
    pkg: Seq<char>,
    w1: Seq<char>,
    w2: Seq<char>,
    version: Seq<char>,
    post: Seq<char>,
) -> bool {
    &&& t == head(pre, pkg, w1, w2) + version + "\""@ + post
    &&& package_name(pkg)
    &&& blank(w1)
    &&& blank(w2)
    &&& !version.contains('"')
}

/// The text holds a tuple with a package name.
pub open spec fn has_name(
    t: Seq<char>,
    pre: Seq<char>,
    w: Seq<char>,
    name: Seq<char>,
    post: Seq<char>,
) -> bool {
    &&& t == pre + "{:"@ + w + name + post
    &&& blank(w)
    &&& package_name(name)
    &&& post.len() == 0 || !is_name_char(post[0])
}

/// A head, written out, is what `head_at` finds.
proof fn lemma_head_written(
    t: Seq<char>,
    pre: Seq<char>,
    pkg: Seq<char>,
    w1: Seq<char>,
    w2: Seq<char>,
    rest: Seq<char>,
)
    requires
        t == head(pre, pkg, w1, w2) + rest,
        package_name(pkg),
        blank(w1),
        blank(w2),
    ensures
        ({
            let s = pre.len() as int;
            let name_end = s + 2 + pkg.len();
            let quote = name_end + w1.len() + 1 + w2.len();
            &&& head_at(t, s) == Some((name_end, quote))
            &&& t.subrange(s + 2, name_end) == pkg
            &&& t.subrange(quote + 1, t.len() as int) == rest
            &&& head(pre, pkg, w1, w2).len() == quote + 1
            &&& quote < t.len()
        }),
{
    reveal_strlit("{:");
    reveal_strlit(",");
    reveal_strlit("\"");
    let s = pre.len() as int;
    let name_end = s + 2 + pkg.len();
    let comma = name_end + w1.len();
    let quote = comma + 1 + w2.len();
    assert(t[s] == '{' && t[s + 1] == ':');
    assert(t.subrange(s + 2, name_end) =~= pkg);
    assert forall|i: int| s + 2 <= i < name_end implies is_name_char(#[trigger] t[i]) by {
        assert(t[i] == pkg[i - s - 2]);
    }
    assert(t[s + 2] == pkg[0]);
    assert forall|i: int| name_end <= i < comma implies is_space(#[trigger] t[i]) by {
        assert(t[i] == w1[i - name_end]);
    }
    assert(t[comma] == ',');
    assert forall|i: int| comma + 1 <= i < quote implies is_space(#[trigger] t[i]) by {
        assert(t[i] == w2[i - comma - 1]);
    }
    assert(t[quote] == '"');
    assert(comma_then_quote(t, name_end, quote));
    lemma_head_found(t, s, name_end, quote);
    assert(t.subrange(quote + 1, t.len() as int) =~= rest);
}

/// What `head_at` finds is a head.
proof fn lemma_head_read(t: Seq<char>, s: int) -> (w: (Seq<char>, Seq<char>))
    requires
        head_at(t, s) is Some,
    ensures
        ({
            let (name_end, quote) = head_at(t, s).unwrap();
            let pkg = t.subrange(s + 2, name_end);
            &&& 0 <= s
            &&& t.take(quote + 1) == head(t.take(s), pkg, w.0, w.1)
            &&& package_name(pkg)
            &&& blank(w.0)
            &&& blank(w.1)
            &&& s + 2 < name_end < quote < t.len()
        }),
{
    reveal_strlit("{:");
    reveal_strlit(",");
    reveal_strlit("\"");
    let (name_end, quote) = head_at(t, s).unwrap();
    lemma_head_matches(t, s);
    lemma_skip_name(t, s + 2);
    lemma_skip_space(t, name_end);
    let comma = skip_space(t, name_end);
    lemma_skip_space(t, comma + 1);
    let pkg = t.subrange(s + 2, name_end);
    let w1 = t.subrange(name_end, comma);
    let w2 = t.subrange(comma + 1, quote);
    assert forall|i: int| 0 <= i < pkg.len() implies is_name_char(#[trigger] pkg[i]) by {
        assert(pkg[i] == t[s + 2 + i]);
    }
    assert forall|i: int| 0 <= i < w1.len() implies is_space(#[trigger] w1[i]) by {
        assert(w1[i] == t[name_end + i]);
    }
    assert forall|i: int| 0 <= i < w2.len() implies is_space(#[trigger] w2[i]) by {
        assert(w2[i] == t[comma + 1 + i]);
    }
    assert(t.take(quote + 1) =~= head(t.take(s), pkg, w1, w2));
    (w1, w2)
}

proof fn lemma_opens_version(
    t: Seq<char>,
    pre: Seq<char>,
    pkg: Seq<char>,
    w1: Seq<char>,
    w2: Seq<char>,
    partial: Seq<char>,
)
    requires
        opens_version(t, pre, pkg, w1, w2, partial),
    ensures
        pre.len() < t.len(),
        open_version_at(t, pre.len() as int) matches Some((n, v)) && t.subrange(n.0, n.1) == pkg
            && t.subrange(v.0, v.1) == partial,
{
    lemma_head_written(t, pre, pkg, w1, w2, partial);
    let quote = pre.len() as int + 2 + pkg.len() + w1.len() + 1 + w2.len();
    assert forall|i: int| quote + 1 <= i < t.len() implies t[i] != '"' by {
        assert(t.subrange(quote + 1, t.len() as int)[i - quote - 1] == partial[i - quote - 1]);
        assert(partial.contains(partial[i - quote - 1]));
    }
    lemma_find_char_unique(t, '"', quote + 1, t.len() as int);
}

proof fn lemma_version_opened(t: Seq<char>, s: int) -> (w: (Seq<char>, Seq<char>))
    requires
        open_version_at(t, s) is Some,
    ensures
        ({
            let (n, v) = open_version_at(t, s).unwrap();
            0 <= s < t.len() && opens_version(
                t,
                t.take(s),
                t.subrange(n.0, n.1),
                w.0,
                w.1,
                t.subrange(v.0, v.1),
            )
        }),
{
    let (n, v) = open_version_at(t, s).unwrap();
    let w = lemma_head_read(t, s);
    lemma_find_char(t, '"', v.0);
    let partial = t.subrange(v.0, v.1);
    assert(t =~= t.take(v.0) + partial);
    if partial.contains('"') {
        let i = choose|i: int| 0 <= i < partial.len() && partial[i] == '"';
        assert(t[v.0 + i] == '"');
    }
    w
}

proof fn lemma_open_version_is_leftmost(t: Seq<char>, s: int)
    requires
        0 <= s,
    ensures
        match open_version(t, s) {
            Some(found) => exists|i: int|
                s <= i < t.len() && (#[trigger] open_version_at(t, i) matches Some((n, v))
                    && found == (t.subrange(n.0, n.1), t.subrange(v.0, v.1))) && forall|j: int|
                    s <= j < i ==> #[trigger] open_version_at(t, j) is None,
            None => forall|j: int| s <= j < t.len() ==> #[trigger] open_version_at(t, j) is None,
        },
    decreases t.len() - s,
{
    if s < t.len() {
        if open_version_at(t, s) is None {
            lemma_open_version_is_leftmost(t, s + 1);
            match open_version(t, s) {
                Some(found) => {
                    let i = choose|i: int|
                        s + 1 <= i < t.len() && (#[trigger] open_version_at(t, i) matches Some(
                            (n, v),
                        ) && found == (t.subrange(n.0, n.1), t.subrange(v.0, v.1))) && forall|
                            j: int,
                        |
                            s + 1 <= j < i ==> #[trigger] open_version_at(t, j) is None;
                    assert forall|j: int| s <= j < i implies #[trigger] open_version_at(
                        t,
                        j,
                    ) is None by {
                        if j > s {
                            assert(s + 1 <= j);
                        }
                    }
                    assert(open_version_at(t, i) is Some);
                },
                None => {
                    assert forall|j: int| s <= j < t.len() implies #[trigger] open_version_at(
                        t,
                        j,
                    ) is None by {
                        if j > s {
                            assert(s + 1 <= j);
                        }
                    }
                },
            }
        } else {
            assert(open_version_at(t, s) is Some);
        }
    }
}

proof fn lemma_opens_name(t: Seq<char>, pre: Seq<char>, w: Seq<char>, partial: Seq<char>)
    requires
        opens_name(t, pre, w, partial),
    ensures
        pre.len() < t.len(),
        open_name_at(t, pre.len() as int) matches Some(n) && t.subrange(n.0, n.1) == partial,
{
    reveal_strlit("{:");
    let s = pre.len() as int;
    let a = s + 2 + w.len();
    assert(t[s] == '{' && t[s + 1] == ':');
    assert forall|i: int| s + 2 <= i < a implies is_space(#[trigger] t[i]) by {
        assert(t[i] == w[i - s - 2]);
    }
    assert forall|i: int| a <= i < t.len() implies is_name_start(#[trigger] t[i]) by {
        assert(t[i] == partial[i - a]);
    }
    if a < t.len() {
        assert(is_name_start(t[a]));
    }
    lemma_skip_space_unique(t, s + 2, a);
    lemma_skip_letters(t, a);
    let b = skip_letters(t, a);
    if b < t.len() {
        assert(is_name_start(t[b]));
    }
    assert(t.subrange(a, t.len() as int) =~= partial);
}

proof fn lemma_name_opened(t: Seq<char>, s: int) -> (w: Seq<char>)
    requires
        open_name_at(t, s) is Some,
    ensures
        ({
            let n = open_name_at(t, s).unwrap();
            0 <= s < t.len() && opens_name(t, t.take(s), w, t.subrange(n.0, n.1))
        }),
{
    reveal_strlit("{:");
    let n = open_name_at(t, s).unwrap();
    lemma_skip_space(t, s + 2);
    lemma_skip_letters(t, n.0);
    let w = t.subrange(s + 2, n.0);
    let partial = t.subrange(n.0, n.1);
    assert forall|i: int| 0 <= i < w.len() implies is_space(#[trigger] w[i]) by {
        assert(w[i] == t[s + 2 + i]);
    }
    assert forall|i: int| 0 <= i < partial.len() implies is_name_start(#[trigger] partial[i]) by {
        assert(partial[i] == t[n.0 + i]);
    }
    assert(t =~= t.take(s) + "{:"@ + w + partial);
    w
}

proof fn lemma_open_name_found(t: Seq<char>, s: int)
    requires
        0 <= s,
    ensures
        match open_name(t, s) {
            Some(found) => exists|i: int|
                s <= i < t.len() && (#[trigger] open_name_at(t, i) matches Some(n) && found
                    == t.subrange(n.0, n.1)),
            None => forall|j: int| s <= j < t.len() ==> #[trigger] open_name_at(t, j) is None,
        },
    decreases t.len() - s,
{
    if s < t.len() {
        assert(open_name_at(t, s) is Some || open_name_at(t, s) is None);
        lemma_open_name_found(t, s + 1);
    }
}

/// The text ends in no tuple with an open version string.
pub open spec fn opens_no_version(t: Seq<char>) -> bool {
    forall|pre: Seq<char>, pkg: Seq<char>, w1: Seq<char>, w2: Seq<char>, p: Seq<char>|
        !opens_version(t, pre, pkg, w1, w2, p)
}

/// The text ends in no tuple with an open name.
pub open spec fn opens_no_name(t: Seq<char>) -> bool {
    forall|pre: Seq<char>, w: Seq<char>, p: Seq<char>| !opens_name(t, pre, w, p)
}

proof fn lemma_typed_version(t: Seq<char>)
    ensures
        match open_version(t, 0) {
            Some(found) => exists|pre: Seq<char>, w1: Seq<char>, w2: Seq<char>|
                opens_leftmost_version(t, pre, found.0, w1, w2, found.1),
            None => opens_no_version(t),
        },
{
    lemma_open_version_is_leftmost(t, 0);
    match open_version(t, 0) {
        Some(found) => {
            let i = choose|i: int|
                0 <= i < t.len() && (#[trigger] open_version_at(t, i) matches Some((n, v))
                    && found == (t.subrange(n.0, n.1), t.subrange(v.0, v.1))) && forall|j: int|
                    0 <= j < i ==> #[trigger] open_version_at(t, j) is None;
            let w = lemma_version_opened(t, i);
            assert forall|
                pre2: Seq<char>,
                pkg2: Seq<char>,
                v1: Seq<char>,
                v2: Seq<char>,
                partial2: Seq<char>,
            | #[trigger] opens_version(t, pre2, pkg2, v1, v2, partial2) implies i <= pre2.len() by {
                lemma_opens_version(t, pre2, pkg2, v1, v2, partial2);
            }
            assert(opens_leftmost_version(t, t.take(i), found.0, w.0, w.1, found.1));
        },
        None => {
            assert forall|
                pre: Seq<char>,
                pkg: Seq<char>,
                w1: Seq<char>,
                w2: Seq<char>,
                p: Seq<char>,
            | !opens_version(t, pre, pkg, w1, w2, p) by {
                if opens_version(t, pre, pkg, w1, w2, p) {
                    lemma_opens_version(t, pre, pkg, w1, w2, p);
                }
            }
        },
    }
}

proof fn lemma_typed_name(t: Seq<char>)
    ensures
        match open_name(t, 0) {
            Some(partial) => exists|pre: Seq<char>, w: Seq<char>| opens_name(t, pre, w, partial),
            None => opens_no_name(t),
        },
{
    lemma_open_name_found(t, 0);
    match open_name(t, 0) {
        Some(partial) => {
            let i = choose|i: int|
                0 <= i < t.len() && (#[trigger] open_name_at(t, i) matches Some(n) && partial
                    == t.subrange(n.0, n.1));
            let w = lemma_name_opened(t, i);
            assert(opens_name(t, t.take(i), w, partial));
        },
        None => {
            assert forall|pre: Seq<char>, w: Seq<char>, p: Seq<char>| !opens_name(t, pre, w, p) by {
                if opens_name(t, pre, w, p) {
                    lemma_opens_name(t, pre, w, p);
                }
            }
        },
    }
}

/// What is being typed at the end of a text. If the text ends in a tuple with an
/// open version string, it is the version of the leftmost such tuple. Else, if
/// it ends in a tuple with an open name, it is that name. Else it is nothing.
pub proof fn law_what_is_typed_is_recognised(t: Seq<char>, pkg: Seq<char>, partial: Seq<char>)
    ensures
        context_of(t) == Some(ContextView::Version(pkg, partial)) ==> exists|
            pre: Seq<char>,
            w1: Seq<char>,
            w2: Seq<char>,
        | opens_leftmost_version(t, pre, pkg, w1, w2, partial),
        context_of(t) == Some(ContextView::PackageName(partial)) ==> opens_no_version(t) && exists|
            pre: Seq<char>,
            w: Seq<char>,
        | opens_name(t, pre, w, partial),
        context_of(t) is None ==> opens_no_version(t) && opens_no_name(t),
{
    lemma_typed_version(t);
    lemma_typed_name(t);
    match open_version(t, 0) {
        Some((pkg, partial)) => {
            assert(context_of(t) == Some(ContextView::Version(pkg, partial)));
            let (pre, w1, w2) = choose|pre: Seq<char>, w1: Seq<char>, w2: Seq<char>|
                opens_leftmost_version(t, pre, pkg, w1, w2, partial);
            assert(opens_leftmost_version(t, pre, pkg, w1, w2, partial));
        },
        None => match open_name(t, 0) {
            Some(partial) => {
                assert(context_of(t) == Some(ContextView::PackageName(partial)));
                let (pre, w) = choose|pre: Seq<char>, w: Seq<char>| opens_name(t, pre, w, partial);
                assert(opens_name(t, pre, w, partial));
            },
            None => {},
        },
    }
}

proof fn lemma_has_name(
    t: Seq<char>,
    pre: Seq<char>,
    w: Seq<char>,
    name: Seq<char>,
    post: Seq<char>,
)
    requires
        has_name(t, pre, w, name, post),
    ensures
        pre.len() < t.len(),
        ({
            let a = pre.len() + 2 + w.len();
            let b = a + name.len();
            &&& name_at(t, pre.len() as int) == Some((a as int, b as int))
            &&& t.subrange(a as int, b as int) == name
            &&& t.take(a as int) == pre + "{:"@ + w
            &&& t.take(b as int) == pre + "{:"@ + w + name
        }),
{
    reveal_strlit("{:");
    let s = pre.len() as int;
    let a = s + 2 + w.len();
    let b = a + name.len();
    assert(t[s] == '{' && t[s + 1] == ':');
    assert forall|i: int| s + 2 <= i < a implies is_space(#[trigger] t[i]) by {
        assert(t[i] == w[i - s - 2]);
    }
    assert forall|i: int| a <= i < b implies is_name_char(#[trigger] t[i]) by {
        assert(t[i] == name[i - a]);
    }
    assert(t[a] == name[0]);
    if b < t.len() {
        assert(t[b] == post[0]);
    }
    lemma_skip_space_unique(t, s + 2, a);
    lemma_skip_name_unique(t, a, b);
    assert(t.subrange(a, b) =~= name);
    assert(t.take(a) =~= pre + "{:"@ + w);
    assert(t.take(b) =~= pre + "{:"@ + w + name);
}

proof fn lemma_name_read(t: Seq<char>, s: int)
    requires
        name_at(t, s) is Some,
    ensures
        ({
            let n = name_at(t, s).unwrap();
            &&& 0 <= s < t.len()
            &&& n.1 <= t.len()
            &&& has_name(
                t,
                t.take(s),
                t.subrange(s + 2, n.0),
                t.subrange(n.0, n.1),
                t.skip(n.1),
            )
        }),
{
    reveal_strlit("{:");
    let n = name_at(t, s).unwrap();
    lemma_skip_space(t, s + 2);
    lemma_skip_name(t, n.0);
    assert(is_name_char(t[n.0]));
    let w = t.subrange(s + 2, n.0);
    let name = t.subrange(n.0, n.1);
    assert forall|i: int| 0 <= i < w.len() implies is_space(#[trigger] w[i]) by {
        assert(w[i] == t[s + 2 + i]);
    }
    assert forall|i: int| 0 <= i < name.len() implies is_name_char(#[trigger] name[i]) by {
        assert(name[i] == t[n.0 + i]);
    }
    assert(t =~= t.take(s) + "{:"@ + w + name + t.skip(n.1));
}

/// The bytes of a text.
pub open spec fn bytes(t: Seq<char>) -> int {
    encode_utf8(t).len() as int
}

/// The name of a tuple is under the cursor if and only if the cursor is on one
/// of its bytes.
pub proof fn law_a_name_is_found_under_the_cursor(t: Seq<char>, column: int, name: Seq<char>)
    ensures
        name_under(t, 0, column) == Some(name) <==> exists|
            pre: Seq<char>,
            w: Seq<char>,
            post: Seq<char>,
        | #[trigger]
            has_name(t, pre, w, name, post) && bytes(pre + "{:"@ + w) <= column < bytes(
                pre + "{:"@ + w + name,
            ),
{
    law_name_under_the_cursor(t, column);
    if name_under(t, 0, column) == Some(name) {
        let i = choose|i: int|
            0 <= i < t.len() && (#[trigger] name_at(t, i) matches Some(n) && on_span(t, n, column)
                && name == t.subrange(n.0, n.1));
        let n = name_at(t, i).unwrap();
        lemma_name_read(t, i);
        lemma_has_name(t, t.take(i), t.subrange(i + 2, n.0), name, t.skip(n.1));
    }
    if exists|pre: Seq<char>, w: Seq<char>, post: Seq<char>| #[trigger]
        has_name(t, pre, w, name, post) && bytes(pre + "{:"@ + w) <= column < bytes(
            pre + "{:"@ + w + name,
        ) {
        let (pre, w, post) = choose|pre: Seq<char>, w: Seq<char>, post: Seq<char>| #[trigger]
            has_name(t, pre, w, name, post) && bytes(pre + "{:"@ + w) <= column < bytes(
                pre + "{:"@ + w + name,
            );
        lemma_has_name(t, pre, w, name, post);
        let n = name_at(t, pre.len() as int).unwrap();
        assert(on_span(t, n, column));
    }
}

proof fn lemma_skip_in_front(a: Seq<char>, b: Seq<char>, k: int)
    requires
        b.len() > 0,
        b[0] == '{',
        0 <= k <= a.len(),
    ensures
        skip_space(a + b, k) == skip_space(a, k),
        skip_name(a + b, k) == skip_name(a, k),
        k <= skip_space(a, k) <= a.len(),
    decreases a.len() - k,
{
    let t = a + b;
    if k < a.len() {
        assert(t[k] == a[k]);
        lemma_skip_in_front(a, b, k + 1);
    } else {
        assert(t[k] == b[0]);
    }
}

proof fn lemma_skip_behind(a: Seq<char>, b: Seq<char>, k: int)
    requires
        0 <= k,
    ensures
        skip_space(a + b, a.len() + k) == a.len() + skip_space(b, k),
        skip_name(a + b, a.len() + k) == a.len() + skip_name(b, k),
        find_char(a + b, '"', a.len() + k) == a.len() + find_char(b, '"', k),
    decreases b.len() - k,
{
    let t = a + b;
    if k < b.len() {
        assert(t[a.len() + k] == b[k]);
        lemma_skip_behind(a, b, k + 1);
    }
}

proof fn lemma_name_in_front(a: Seq<char>, b: Seq<char>, i: int)
    requires
        b.len() > 0,
        b[0] == '{',
        0 <= i < a.len(),
    ensures
        name_at(a + b, i) == name_at(a, i),
        name_at(a, i) matches Some(n) ==> 0 <= n.0 <= n.1 <= a.len(),
{
    let t = a + b;
    assert(t[i] == a[i]);
    if i + 1 < a.len() {
        assert(t[i + 1] == a[i + 1]);
        lemma_skip_in_front(a, b, i + 2);
        let k = skip_space(a, i + 2);
        if k < a.len() {
            assert(t[k] == a[k]);
            lemma_skip_in_front(a, b, k);
            lemma_skip_name(a, k);
        } else {
            assert(t[k] == b[0]);
        }
    } else {
        assert(t[i + 1] == b[0]);
    }
}

proof fn lemma_name_behind(a: Seq<char>, b: Seq<char>, i: int)
    requires
        0 <= i < b.len(),
    ensures
        name_at(a + b, a.len() + i) == (match name_at(b, i) {
            Some(n) => Some((a.len() + n.0, a.len() + n.1)),
            None => None,
        }),
        name_at(b, i) matches Some(n) ==> 0 <= n.0 <= n.1 <= b.len(),
{
    let t = a + b;
    assert(t[a.len() + i] == b[i]);
    if i + 1 < b.len() {
        assert(t[a.len() + i + 1] == b[i + 1]);
        lemma_skip_behind(a, b, i + 2);
        lemma_skip_space(b, i + 2);
        let k = skip_space(b, i + 2);
        if k < b.len() {
            assert(t[a.len() + k] == b[k]);
            lemma_skip_behind(a, b, k);
            lemma_skip_name(b, k);
        }
    }
}

proof fn lemma_names_behind(a: Seq<char>, b: Seq<char>, j: int)
    requires
        0 <= j <= b.len(),
    ensures
        names_from(a + b, a.len() + j) == names_from(b, j),
    decreases b.len() - j,
{
    let t = a + b;
    if j < b.len() {
        lemma_names_behind(a, b, j + 1);
        lemma_name_behind(a, b, j);
        match name_at(b, j) {
            Some(n) => {
                assert(t.subrange(a.len() + n.0, a.len() + n.1) =~= b.subrange(n.0, n.1));
            },
            None => {},
        }
    }
}

proof fn lemma_names_add(a: Seq<char>, b: Seq<char>, s: int)
    requires
        b.len() > 0,
        b[0] == '{',
        0 <= s <= a.len(),
    ensures
        names_from(a + b, s) == names_from(a, s) + names_from(b, 0),
    decreases a.len() - s,
{
    let t = a + b;
    if s == a.len() {
        lemma_names_behind(a, b, 0);
        assert(names_from(a, s) + names_from(b, 0) =~= names_from(b, 0));
    } else {
        lemma_names_add(a, b, s + 1);
        lemma_name_in_front(a, b, s);
        match name_at(a, s) {
            Some(n) => {
                assert(t.subrange(n.0, n.1) =~= a.subrange(n.0, n.1));
                assert(names_from(t, s) =~= names_from(a, s) + names_from(b, 0));
            },
            None => {},
        }
    }
}

proof fn lemma_no_names(t: Seq<char>, s: int)
    requires
        0 <= s <= t.len(),
        forall|i: int| s <= i < t.len() ==> #[trigger] name_at(t, i) is None,
    ensures
        names_from(t, s) == Seq::<Seq<char>>::empty(),
{
    lemma_name_from(t, s, t.len() as int, 0);
}

/// The packages that a document mentions are read brace by brace: what stands in
/// front of a brace and what begins with it are read apart.
pub proof fn law_names_are_read_brace_by_brace(a: Seq<char>, b: Seq<char>)
    requires
        b.len() > 0,
        b[0] == '{',
    ensures
        names_from(a + b, 0) == names_from(a, 0) + names_from(b, 0),
{
    lemma_names_add(a, b, 0);
}

/// A text without a brace mentions no package. One that begins with its only
/// brace mentions the package whose tuple begins there, if one does.
pub proof fn law_a_brace_opens_one_name(t: Seq<char>, rest: Seq<char>)
    requires
        !rest.contains('{'),
    ensures
        names_from(rest, 0).len() == 0,
        t == seq!['{'] + rest ==> {
            &&& forall|w: Seq<char>, name: Seq<char>, post: Seq<char>| #[trigger]
                has_name(t, Seq::empty(), w, name, post) ==> names_from(t, 0) == seq![name]
            &&& (forall|w: Seq<char>, name: Seq<char>, post: Seq<char>|
                !has_name(t, Seq::empty(), w, name, post)) ==> names_from(t, 0).len() == 0
        },
{
    assert forall|i: int| 0 <= i < rest.len() implies #[trigger] name_at(rest, i) is None by {
        assert(rest.contains(rest[i]));
    }
    lemma_no_names(rest, 0);
    if t == seq!['{'] + rest {
        assert forall|i: int| 1 <= i < t.len() implies #[trigger] name_at(t, i) is None by {
            assert(t[i] == rest[i - 1]);
            assert(rest.contains(rest[i - 1]));
        }
        lemma_no_names(t, 1);
        assert forall|w: Seq<char>, name: Seq<char>, post: Seq<char>| #[trigger]
            has_name(t, Seq::empty(), w, name, post) implies names_from(t, 0) == seq![name] by {
            lemma_has_name(t, Seq::empty(), w, name, post);
            assert(names_from(t, 0) =~= seq![name]);
        }
        if name_at(t, 0) is Some {
            let n = name_at(t, 0).unwrap();
            lemma_name_read(t, 0);
            assert(t.take(0) =~= Seq::<char>::empty());
            assert(has_name(
                t,
                Seq::empty(),
                t.subrange(2, n.0),
                t.subrange(n.0, n.1),
                t.skip(n.1),
            ));
        }
    }
}

/// The first thirty packages that a document mentions are fetched ahead, or all
/// of them if there are fewer.
pub proof fn law_the_first_packages_are_fetched_ahead(t: Seq<char>)
    ensures
        ({
            let all = distinct(names_from(t, 0));
            &&& all.len() <= 30 ==> prefetched(t) == all
            &&& all.len() > 30 ==> prefetched(t) == all.take(30)
        }),
{
}

proof fn lemma_closes_version(
    t: Seq<char>,
    pre: Seq<char>,
    pkg: Seq<char>,
    w1: Seq<char>,
    w2: Seq<char>,
    version: Seq<char>,
    post: Seq<char>,
)
    requires
        closes_version(t, pre, pkg, w1, w2, version, post),
    ensures
        pre.len() < t.len(),
        ({
            let q = head(pre, pkg, w1, w2).len() as int;
            let e = q + version.len();
            &&& closed_version_at(t, pre.len() as int) matches Some((n, v)) && t.subrange(
                n.0,
                n.1,
            ) == pkg && v == (q, e)
            &&& t.take(q) == head(pre, pkg, w1, w2)
            &&& t.take(e) == head(pre, pkg, w1, w2) + version
            &&& t.skip(e + 1) == post
            &&& t.take(e + 1) == head(pre, pkg, w1, w2) + version + "\""@
            &&& e < t.len()
        }),
{
    reveal_strlit("\"");
    let h = head(pre, pkg, w1, w2);
    let rest = version + "\""@ + post;
    assert(t =~= h + rest);
    lemma_head_written(t, pre, pkg, w1, w2, rest);
    let q = h.len() as int;
    let e = q + version.len();
    assert(t[e] == '"');
    assert forall|i: int| q <= i < e implies t[i] != '"' by {
        assert(t[i] == version[i - q]);
        assert(version.contains(version[i - q]));
    }
    lemma_find_char_unique(t, '"', q, e);
    assert(t.take(q) =~= h);
    assert(t.take(e) =~= h + version);
    assert(t.skip(e + 1) =~= post);
    assert(t.take(e + 1) =~= h + version + "\""@);
}

proof fn lemma_version_closed(t: Seq<char>, s: int) -> (w: (Seq<char>, Seq<char>))
    requires
        closed_version_at(t, s) is Some,
    ensures
        ({
            let (n, v) = closed_version_at(t, s).unwrap();
            0 <= s < t.len() && closes_version(
                t,
                t.take(s),
                t.subrange(n.0, n.1),
                w.0,
                w.1,
                t.subrange(v.0, v.1),
                t.skip(v.1 + 1),
            )
        }),
{
    reveal_strlit("\"");
    let (n, v) = closed_version_at(t, s).unwrap();
    let w = lemma_head_read(t, s);
    lemma_find_char(t, '"', v.0);
    let version = t.subrange(v.0, v.1);
    assert(t =~= t.take(v.0) + version + "\""@ + t.skip(v.1 + 1));
    if version.contains('"') {
        let i = choose|i: int| 0 <= i < version.len() && version[i] == '"';
        assert(t[v.0 + i] == '"');
    }
    w
}

proof fn lemma_closed_behind(a: Seq<char>, b: Seq<char>, i: int)
    requires
        0 <= i < b.len(),
    ensures
        closed_version_at(a + b, a.len() + i) == (match closed_version_at(b, i) {
            Some((n, v)) => Some(
                ((a.len() + n.0, a.len() + n.1), (a.len() + v.0, a.len() + v.1)),
            ),
            None => None,
        }),
        closed_version_at(b, i) matches Some((n, v)) ==> 0 <= i < n.0 <= n.1 <= v.0 <= v.1
            < b.len(),
{
    let t = a + b;
    let k = a.len() as int;
    assert(t[k + i] == b[i]);
    if i + 1 < b.len() {
        assert(t[k + i + 1] == b[i + 1]);
        if i + 2 < b.len() {
            assert(t[k + i + 2] == b[i + 2]);
            lemma_skip_behind(a, b, i + 2);
            lemma_skip_name(b, i + 2);
            let name_end = skip_name(b, i + 2);
            lemma_skip_behind(a, b, name_end);
            lemma_skip_space(b, name_end);
            let comma = skip_space(b, name_end);
            if comma < b.len() {
                assert(t[k + comma] == b[comma]);
                lemma_skip_behind(a, b, comma + 1);
                lemma_skip_space(b, comma + 1);
                let quote = skip_space(b, comma + 1);
                if quote < b.len() {
                    assert(t[k + quote] == b[quote]);
                    lemma_skip_behind(a, b, quote + 1);
                    lemma_find_char(b, '"', quote + 1);
                }
            }
        }
    }
}

proof fn lemma_offset_behind(a: Seq<char>, b: Seq<char>, i: int)
    requires
        0 <= i <= b.len(),
    ensures
        byte_offset(a + b, a.len() + i) == bytes(a) + byte_offset(b, i),
{
    assert((a + b).take(a.len() + i) =~= a + b.take(i));
    lemma_byte_len_add(a, b.take(i));
}

proof fn lemma_version_behind(a: Seq<char>, b: Seq<char>, s: int, column: int)
    requires
        0 <= s <= b.len(),
    ensures
        version_under(a + b, a.len() + s, column) == version_under(b, s, column - bytes(a)),
    decreases b.len() - s,
{
    let t = a + b;
    if s < b.len() {
        lemma_closed_behind(a, b, s);
        match closed_version_at(b, s) {
            Some((n, v)) => {
                lemma_offset_behind(a, b, v.0);
                lemma_offset_behind(a, b, v.1);
                assert(t.subrange(a.len() + n.0, a.len() + n.1) =~= b.subrange(n.0, n.1));
                lemma_version_behind(a, b, v.1 + 1, column);
            },
            None => {
                lemma_version_behind(a, b, s + 1, column);
            },
        }
    }
}

/// The text holds a tuple with a version between quotes, and no such tuple
/// begins further left.
pub open spec fn closes_leftmost_version(
    t: Seq<char>,
    pre: Seq<char>,
    pkg: Seq<char>,
    w1: Seq<char>,
    w2: Seq<char>,
    version: Seq<char>,
    post: Seq<char>,
) -> bool {
    &&& closes_version(t, pre, pkg, w1, w2, version, post)
    &&& forall|
        pre2: Seq<char>,
        pkg2: Seq<char>,
        v1: Seq<char>,
        v2: Seq<char>,
        version2: Seq<char>,
        post2: Seq<char>,
    | #[trigger]
        closes_version(t, pre2, pkg2, v1, v2, version2, post2) ==> pre.len() <= pre2.len()
}

/// The text holds no tuple with a version between quotes.
pub open spec fn closes_no_version(t: Seq<char>) -> bool {
    forall|
        pre: Seq<char>,
        pkg: Seq<char>,
        w1: Seq<char>,
        w2: Seq<char>,
        version: Seq<char>,
        post: Seq<char>,
    | !closes_version(t, pre, pkg, w1, w2, version, post)
}

proof fn lemma_nothing_closed_before(
    t: Seq<char>,
    pre: Seq<char>,
    pkg: Seq<char>,
    w1: Seq<char>,
    w2: Seq<char>,
    version: Seq<char>,
    post: Seq<char>,
    i: int,
)
    requires
        closes_leftmost_version(t, pre, pkg, w1, w2, version, post),
        0 <= i < pre.len(),
    ensures
        closed_version_at(t, i) is None,
{
    if closed_version_at(t, i) is Some {
        let w = lemma_version_closed(t, i);
        let (n, v) = closed_version_at(t, i).unwrap();
        assert(closes_version(
            t,
            t.take(i),
            t.subrange(n.0, n.1),
            w.0,
            w.1,
            t.subrange(v.0, v.1),
            t.skip(v.1 + 1),
        ));
    }
}

/// A line without a tuple with a version between quotes has no version to find.
pub proof fn law_without_a_version_none_is_found(t: Seq<char>, column: int)
    requires
        closes_no_version(t),
    ensures
        version_under(t, 0, column) is None,
{
    assert forall|i: int| 0 <= i < t.len() implies #[trigger] closed_version_at(t, i) is None by {
        if closed_version_at(t, i) is Some {
            let w = lemma_version_closed(t, i);
        }
    }
    lemma_version_from(t, 0, t.len() as int, column);
}

/// The versions of a line are read from left to right. The leftmost tuple with a
/// version between quotes is found if the cursor is on one of its two quotes or
/// between them. Otherwise the cursor is looked for in what follows.
pub proof fn law_versions_are_read_from_left_to_right(
    t: Seq<char>,
    pre: Seq<char>,
    pkg: Seq<char>,
    w1: Seq<char>,
    w2: Seq<char>,
    version: Seq<char>,
    post: Seq<char>,
    column: int,
)
    requires
        closes_leftmost_version(t, pre, pkg, w1, w2, version, post),
    ensures
        ({
            let first = bytes(head(pre, pkg, w1, w2)) - 1;
            let last = bytes(head(pre, pkg, w1, w2) + version);
            version_under(t, 0, column) == (if first <= column <= last {
                Some(pkg)
            } else {
                version_under(post, 0, column - bytes(head(pre, pkg, w1, w2) + version + "\""@))
            })
        }),
{
    let s = pre.len() as int;
    lemma_closes_version(t, pre, pkg, w1, w2, version, post);
    assert forall|i: int| 0 <= i < s implies #[trigger] closed_version_at(t, i) is None by {
        lemma_nothing_closed_before(t, pre, pkg, w1, w2, version, post, i);
    }
    lemma_version_from(t, 0, s, column);
    let h = head(pre, pkg, w1, w2);
    let e = h.len() as int + version.len();
    let front = t.take(e + 1);
    assert(t =~= front + post);
    lemma_version_behind(front, post, 0, column);
}

/// How the patterns are spelled. What is trusted of the `regex` crate is said of
/// these.
pub proof fn law_patterns_are_spelled_so()
    ensures
        VERSION_PATTERN@ == r#"\{:([a-z_][a-z_0-9]*)\s*,\s*"([^"]*)$"#@,
        PKG_PATTERN@ == r"\{:\s*([a-z_]*)$"@,
        HOVER_PKG_PATTERN@ == r"\{:\s*([a-z_][a-z_0-9]*)"@,
        VERSION_HOVER_PATTERN@ == r#"\{:([a-z_][a-z_0-9]*)\s*,\s*"([^"]*)""#@,
{
}

} // verus!
