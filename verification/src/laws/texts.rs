//! What is shown about packages and versions.

use crate::hover::{
    licenses_of, link, links_in, links_of, package_markdown, series_line, series_lines, series_list,
    shown_series, shown_version, strings_in, versions_markdown,
};
use crate::json::{elements_of, field, field2, fields_of, text_of, text_or_empty, Json};
use crate::laws::offers::{
    law_members_are_the_versions_of_the_series, law_series_are_those_of_the_versions,
    law_versions_are_those_of_the_releases,
};
use crate::lists::{distinct, joined};
use crate::server::{answer_to, QueryView, ReplyView};
use crate::text::decimal;
use crate::version::{members, series_of, versions_of};
use vstd::prelude::*;
use vstd::string::*;

verus! {

/// `part` occurs in the text.
pub open spec fn occurs_in(part: Seq<char>, t: Seq<char>) -> bool {
    exists|i: int|
        0 <= i <= t.len() - part.len() && #[trigger] t.subrange(i, i + part.len()) == part
}

proof fn lemma_occurs(a: Seq<char>, part: Seq<char>, b: Seq<char>)
    ensures
        occurs_in(part, a + part + b),
{
    let t = a + part + b;
    let i = a.len() as int;
    assert(t.subrange(i, i + part.len()) =~= part);
}

proof fn lemma_occurs_within(part: Seq<char>, a: Seq<char>, t: Seq<char>, b: Seq<char>)
    requires
        occurs_in(part, t),
    ensures
        occurs_in(part, a + t + b),
{
    let whole = a + t + b;
    let i = choose|i: int|
        0 <= i <= t.len() - part.len() && #[trigger] t.subrange(i, i + part.len()) == part;
    let k = a.len() + i;
    assert(whole.subrange(k, k + part.len()) =~= t.subrange(i, i + part.len()));
}

/// The strings of a list of values, in order.
pub open spec fn strings(v: Seq<Json>) -> Seq<Seq<char>> {
    v.filter_map(|j: Json| text_of(Some(j)))
}

proof fn lemma_strings(v: Seq<Json>, f: spec_fn(Json) -> Option<Seq<char>>)
    requires
        forall|j: Json| #[trigger] f(j) == text_of(Some(j)),
    ensures
        strings_in(v) == v.filter_map(f),
    decreases v.len(),
{
    if v.len() > 0 {
        lemma_strings(v.drop_last(), f);
        let front = v.drop_last().filter_map(f);
        match f(v.last()) {
            Some(s) => {
                assert(front.push(s) =~= front + seq![s]);
            },
            None => {},
        }
    }
}

/// A link in Markdown.
pub open spec fn markdown_link(name: Seq<char>, href: Seq<char>) -> Seq<char> {
    "["@ + name + "]("@ + href + ")"@
}

/// The links of an object whose fields hold addresses.
pub open spec fn own_links(fields: Seq<(String, Json)>) -> Seq<Seq<char>> {
    fields.filter_map(
        |f: (String, Json)|
            match text_of(Some(f.1)) {
                Some(href) => Some(markdown_link(f.0@, href)),
                None => None,
            },
    )
}

proof fn lemma_links(
    fields: Seq<(String, Json)>,
    f: spec_fn((String, Json)) -> Option<Seq<char>>,
)
    requires
        forall|x: (String, Json)| #[trigger]
            f(x) == (match text_of(Some(x.1)) {
                Some(href) => Some(markdown_link(x.0@, href)),
                None => None,
            }),
    ensures
        links_in(fields) == fields.filter_map(f),
    decreases fields.len(),
{
    if fields.len() > 0 {
        lemma_links(fields.drop_last(), f);
        let front = fields.drop_last().filter_map(f);
        let last = fields.last();
        assert(f(last) == (match text_of(Some(last.1)) {
            Some(href) => Some(markdown_link(last.0@, href)),
            None => None,
        }));
        match f(last) {
            Some(s) => {
                assert(front.push(s) =~= front + seq![s]);
            },
            None => {},
        }
    }
}

/// The text about a package, over what the registry gives about it: it begins
/// with the name and the version. What is there of description, licences and
/// links follows in that order, and nothing else.
pub proof fn law_package_text_is_made_of_its_parts(pkg: Seq<char>, d: Json)
    ensures
        ({
            let stable = text_of(field(d, "latest_stable_version"@));
            let latest = text_of(field(d, "latest_version"@));
            let version = if stable is Some {
                stable.unwrap()
            } else if latest is Some {
                latest.unwrap()
            } else {
                "unknown"@
            };
            let description = text_or_empty(field2(d, "meta"@, "description"@));
            let licenses = match elements_of(field2(d, "meta"@, "licenses"@)) {
                Some(v) => strings(v),
                None => Seq::empty(),
            };
            let links = package_links(d);
            answer_to(QueryView::PackageInfo { pkg }, Some(d)) matches ReplyView::Hover(
                Some(text),
            ) && text == "### "@ + pkg + " `"@ + version + "`\n\n"@ + (if description.len() == 0 {
                Seq::empty()
            } else {
                description + "\n\n"@
            }) + (if licenses.len() == 0 {
                Seq::empty()
            } else {
                "**License:** "@ + joined(licenses, ", "@) + "\n\n"@
            }) + (if links.len() == 0 {
                Seq::empty()
            } else {
                joined(links, " \u{00b7} "@) + "\n"@
            })
        }),
        answer_to(QueryView::PackageInfo { pkg }, Some(d)) == ReplyView::Hover(
            Some(package_markdown(pkg, d)),
        ),
        answer_to(QueryView::PackageInfo { pkg }, None) == ReplyView::Hover(None),
{
    lemma_parts(d);
}

/// The links of a package: to its documentation, to its page in the registry
/// and to where it says itself.
pub open spec fn package_links(d: Json) -> Seq<Seq<char>> {
    let docs = text_or_empty(field(d, "docs_html_url"@));
    let page = text_or_empty(field(d, "html_url"@));
    (if docs.len() == 0 {
        Seq::empty()
    } else {
        seq![markdown_link("HexDocs"@, docs)]
    }) + (if page.len() == 0 {
        Seq::empty()
    } else {
        seq![markdown_link("Hex.pm"@, page)]
    }) + (match fields_of(field2(d, "meta"@, "links"@)) {
        Some(fields) => own_links(fields),
        None => Seq::empty(),
    })
}

proof fn lemma_parts(d: Json)
    ensures
        licenses_of(d) == (match elements_of(field2(d, "meta"@, "licenses"@)) {
            Some(v) => strings(v),
            None => Seq::empty(),
        }),
        links_of(d) == package_links(d),
{
    match elements_of(field2(d, "meta"@, "licenses"@)) {
        Some(v) => {
            lemma_strings(v, |j: Json| text_of(Some(j)));
        },
        None => {},
    }
    match fields_of(field2(d, "meta"@, "links"@)) {
        Some(fields) => {
            lemma_links(
                fields,
                |f: (String, Json)|
                    match text_of(Some(f.1)) {
                        Some(href) => Some(markdown_link(f.0@, href)),
                        None => None,
                    },
            );
        },
        None => {},
    }
    assert(links_of(d) =~= package_links(d));
}

/// Whatever the registry tells about a package is shown: the latest stable
/// version, the description, all licences, and every link.
pub proof fn law_package_text_shows_what_is_known(pkg: Seq<char>, d: Json)
    ensures
        answer_to(QueryView::PackageInfo { pkg }, Some(d)) matches ReplyView::Hover(Some(text)) && {
            &&& text_of(field(d, "latest_stable_version"@)) matches Some(v) ==> ("### "@ + pkg
                + " `"@ + v + "`\n\n"@).is_prefix_of(text)
            &&& occurs_in(text_or_empty(field2(d, "meta"@, "description"@)), text)
            &&& elements_of(field2(d, "meta"@, "licenses"@)) matches Some(v) ==> strings(v).len()
                > 0 ==> occurs_in("**License:** "@ + joined(strings(v), ", "@), text)
            &&& package_links(d).len() > 0 ==> occurs_in(
                joined(package_links(d), " \u{00b7} "@),
                text,
            )
        },
{
    law_package_text_is_made_of_its_parts(pkg, d);
    lemma_parts(d);
    let head = "### "@ + pkg + " `"@ + shown_version(d) + "`\n\n"@;
    let description = text_or_empty(field2(d, "meta"@, "description"@));
    let part1 = if description.len() == 0 {
        Seq::empty()
    } else {
        description + "\n\n"@
    };
    let licenses = licenses_of(d);
    let license_line = "**License:** "@ + joined(licenses, ", "@);
    let part2 = if licenses.len() == 0 {
        Seq::empty()
    } else {
        license_line + "\n\n"@
    };
    let links = joined(package_links(d), " \u{00b7} "@);
    let part3 = if package_links(d).len() == 0 {
        Seq::empty()
    } else {
        links + "\n"@
    };
    assert(package_markdown(pkg, d) == head + part1 + part2 + part3);
    lemma_four_parts(head, part1, part2, part3, description, license_line, links);
}

/// What stands at the front of one of four parts occurs in the whole.
proof fn lemma_four_parts(
    a: Seq<char>,
    b: Seq<char>,
    c: Seq<char>,
    d: Seq<char>,
    x: Seq<char>,
    y: Seq<char>,
    z: Seq<char>,
)
    ensures
        a.is_prefix_of(a + b + c + d),
        x.len() == 0 || x.is_prefix_of(b) ==> occurs_in(x, a + b + c + d),
        y.is_prefix_of(c) ==> occurs_in(y, a + b + c + d),
        z.is_prefix_of(d) ==> occurs_in(z, a + b + c + d),
{
    let t = a + b + c + d;
    assert(t.subrange(0, a.len() as int) =~= a);
    let i = a.len() as int;
    if x.len() == 0 || x.is_prefix_of(b) {
        assert(t.subrange(i, i + x.len()) =~= x);
    }
    let j = i + b.len();
    if y.is_prefix_of(c) {
        assert(t.subrange(j, j + y.len()) =~= y);
    }
    let k = j + c.len();
    if z.is_prefix_of(d) {
        assert(t.subrange(k, k + z.len()) =~= z);
    }
}

/// The line for a series: its first five versions, and an ellipsis if and only
/// if it has more.
pub open spec fn line_for(own: Seq<Seq<char>>, key: Seq<char>) -> Seq<char> {
    if own.len() <= 5 {
        "**~> "@ + key + "** &nbsp; "@ + joined(own, " \u{00b7} "@) + "\n\n"@
    } else {
        "**~> "@ + key + "** &nbsp; "@ + joined(own.take(5), " \u{00b7} "@) + " \u{2026}"@ + "\n\n"@
    }
}

/// All versions that a package has.
pub open spec fn every_version(releases: Seq<Json>) -> Seq<Seq<char>> {
    releases.filter_map(|r: Json| text_of(field(r, "version"@)))
}

/// The series of a list of versions, each once, in order.
pub open spec fn every_series(versions: Seq<Seq<char>>) -> Seq<Seq<char>> {
    distinct(versions.filter_map(|v: Seq<char>| series_of(v)))
}

/// The lines for the first `n` series.
pub open spec fn lines_for(versions: Seq<Seq<char>>, n: nat) -> Seq<Seq<char>> {
    Seq::new(
        n,
        |k: int|
            line_for(
                versions.filter(|v: Seq<char>| series_of(v) == Some(every_series(versions)[k])),
                every_series(versions)[k],
            ),
    )
}

proof fn lemma_line(versions: Seq<Seq<char>>, key: Seq<char>)
    ensures
        series_line(versions, key) == line_for(
            versions.filter(|v: Seq<char>| series_of(v) == Some(key)),
            key,
        ),
{
    law_members_are_the_versions_of_the_series(versions, key);
    let own = members(versions, key);
    assert(series_line(versions, key) =~= line_for(own, key));
}

proof fn lemma_lines(versions: Seq<Seq<char>>, keys: Seq<Seq<char>>, n: int)
    requires
        0 <= n <= keys.len() <= every_series(versions).len(),
        forall|k: int| 0 <= k < keys.len() ==> #[trigger] keys[k] == every_series(versions)[k],
    ensures
        series_lines(versions, keys, n) == lines_for(versions, n as nat).flatten_alt(),
    decreases n,
{
    let lines = lines_for(versions, n as nat);
    if n > 0 {
        lemma_lines(versions, keys, n - 1);
        lemma_line(versions, keys[n - 1]);
        assert(lines.drop_last() =~= lines_for(versions, (n - 1) as nat));
        assert(lines.last() == series_line(versions, keys[n - 1]));
    }
}

/// The text about the versions of a package: a heading, a line for each of the
/// first eight series, and, if there are more, a line that says how many. All
/// releases count. There is no text if and only if no version has a series.
pub proof fn law_versions_text_is_made_of_its_parts(
    pkg: Seq<char>,
    d: Json,
    releases: Seq<Json>,
)
    requires
        elements_of(field(d, "releases"@)) == Some(releases),
    ensures
        ({
            let versions = every_version(releases);
            let n = every_series(versions).len();
            let page = text_of(field(d, "html_url"@));
            let reply = answer_to(QueryView::VersionList { pkg }, Some(d));
            &&& reply == ReplyView::Hover(versions_markdown(pkg, d))
            &&& n == 0 ==> reply == ReplyView::Hover(None)
            &&& 0 < n <= 8 ==> reply == ReplyView::Hover(
                Some(
                    "### "@ + pkg + " \u{2014} available versions\n\n"@ + lines_for(
                        versions,
                        n,
                    ).flatten_alt(),
                ),
            )
            &&& 8 < n ==> reply == ReplyView::Hover(
                Some(
                    "### "@ + pkg + " \u{2014} available versions\n\n"@ + lines_for(
                        versions,
                        8,
                    ).flatten_alt() + ("_"@ + decimal((n - 8) as nat)
                        + " more minor version(s) \u{2014} see [Hex.pm]("@ + (if page is Some {
                        page.unwrap()
                    } else {
                        "https://hex.pm"@
                    }) + ")_\n"@),
                ),
            )
        }),
{
    law_versions_are_those_of_the_releases(releases);
    let versions = versions_of(releases);
    assert(versions == every_version(releases));
    law_series_are_those_of_the_versions(versions);
    let keys = series_list(versions);
    assert(keys == every_series(versions));
    let shown = shown_series(versions);
    lemma_lines(versions, shown, shown.len() as int);
    let head = "### "@ + pkg + " \u{2014} available versions\n\n"@;
    let lines = series_lines(versions, shown, shown.len() as int);
    assert(head + lines + Seq::<char>::empty() =~= head + lines);
}

/// Without releases, or without an answer, there is no text about versions.
pub proof fn law_no_releases_show_no_versions(pkg: Seq<char>, data: Option<Json>)
    requires
        data matches Some(d) ==> elements_of(field(d, "releases"@)) is None,
    ensures
        answer_to(QueryView::VersionList { pkg }, data) == ReplyView::Hover(None),
        data matches Some(d) ==> versions_markdown(pkg, d) is None,
{
}

proof fn lemma_line_occurs(lines: Seq<Seq<char>>, k: int)
    requires
        0 <= k < lines.len(),
    ensures
        occurs_in(lines[k], lines.flatten_alt()),
    decreases lines.len(),
{
    let front = lines.drop_last();
    let before = front.flatten_alt();
    if k == lines.len() - 1 {
        lemma_occurs(before, lines[k], Seq::empty());
        assert(before + lines[k] + Seq::<char>::empty() =~= lines.flatten_alt());
    } else {
        assert(front[k] == lines[k]);
        lemma_line_occurs(front, k);
        lemma_occurs_within(lines[k], Seq::empty(), before, lines.last());
        assert(Seq::<char>::empty() + before + lines.last() =~= lines.flatten_alt());
    }
}

/// Each of the first eight series is shown with its versions: all of them if
/// there are no more than five, else the first five and an ellipsis.
pub proof fn law_versions_text_shows_each_series(
    pkg: Seq<char>,
    d: Json,
    releases: Seq<Json>,
    k: int,
)
    requires
        elements_of(field(d, "releases"@)) == Some(releases),
        0 <= k < 8,
        k < every_series(every_version(releases)).len(),
    ensures
        ({
            let versions = every_version(releases);
            let key = every_series(versions)[k];
            let own = versions.filter(|v: Seq<char>| series_of(v) == Some(key));
            answer_to(QueryView::VersionList { pkg }, Some(d)) matches ReplyView::Hover(Some(text))
                && {
                &&& own.len() <= 5 ==> occurs_in(
                    "**~> "@ + key + "** &nbsp; "@ + joined(own, " \u{00b7} "@) + "\n\n"@,
                    text,
                )
                &&& own.len() > 5 ==> occurs_in(
                    "**~> "@ + key + "** &nbsp; "@ + joined(own.take(5), " \u{00b7} "@)
                        + " \u{2026}"@ + "\n\n"@,
                    text,
                )
            }
        }),
{
    law_versions_text_is_made_of_its_parts(pkg, d, releases);
    let versions = every_version(releases);
    let n = every_series(versions).len();
    let m = if n <= 8 {
        n
    } else {
        8
    };
    let lines = lines_for(versions, m);
    let key = every_series(versions)[k];
    let own = versions.filter(|v: Seq<char>| series_of(v) == Some(key));
    assert(lines[k] == line_for(own, key));
    lemma_line_occurs(lines, k);
    let head = "### "@ + pkg + " \u{2014} available versions\n\n"@;
    let page = text_of(field(d, "html_url"@));
    let tail = if n <= 8 {
        Seq::empty()
    } else {
        "_"@ + decimal((n - 8) as nat) + " more minor version(s) \u{2014} see [Hex.pm]("@ + (
        if page is Some {
            page.unwrap()
        } else {
            "https://hex.pm"@
        }) + ")_\n"@
    };
    lemma_occurs_within(lines[k], head, lines.flatten_alt(), tail);
    assert(head + lines.flatten_alt() + Seq::<char>::empty() =~= head + lines.flatten_alt());
}

} // verus!
