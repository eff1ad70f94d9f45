//! The texts that the editor shows for a package and for its versions.

use crate::json::{
    as_array, as_object, as_text, as_text_or_empty, elements_of, field, field2, fields_of,
    text_of, text_or_empty, Json,
};
use crate::lists::{cap, distinct, join, joined, lemma_texts_push, texts};
use crate::text::{cat3, decimal, decimal_text};
use crate::version::{
    all_series, all_versions, law_versions_are_grouped_by_series, members, minor_series,
    series_members, series_of, versions_of,
};
use vstd::prelude::*;
use vstd::string::*;

verus! {

/// A text in Markdown for the editor to show.
pub struct Hover {
    pub value: String,
}

/// The strings among the elements of an array, in order.
pub open spec fn strings_in(v: Seq<Json>) -> Seq<Seq<char>>
    decreases v.len(),
{
    if v.len() == 0 {
        Seq::empty()
    } else {
        let front = strings_in(v.drop_last());
        match text_of(Some(v.last())) {
            Some(s) => front.push(s),
            None => front,
        }
    }
}

/// A link in Markdown.
pub open spec fn link(name: Seq<char>, href: Seq<char>) -> Seq<char> {
    "["@ + name + "]("@ + href + ")"@
}

/// The links of an object whose fields hold addresses, in order. A field that
/// is no string is passed over.
pub open spec fn links_in(fields: Seq<(String, Json)>) -> Seq<Seq<char>>
    decreases fields.len(),
{
    if fields.len() == 0 {
        Seq::empty()
    } else {
        let front = links_in(fields.drop_last());
        match text_of(Some(fields.last().1)) {
            Some(href) => front.push(link(fields.last().0@, href)),
            None => front,
        }
    }
}

/// The version that a package is shown with: the latest stable one, else the
/// latest one.
pub open spec fn shown_version(d: Json) -> Seq<char> {
    match text_of(field(d, "latest_stable_version"@)) {
        Some(v) => v,
        None => match text_of(field(d, "latest_version"@)) {
            Some(v) => v,
            None => "unknown"@,
        },
    }
}

/// The licences of a package.
pub open spec fn licenses_of(d: Json) -> Seq<Seq<char>> {
    match elements_of(field2(d, "meta"@, "licenses"@)) {
        Some(v) => strings_in(v),
        None => Seq::empty(),
    }
}

/// The links of a package: its documentation, its page in the registry and
/// those that it gives itself.
pub open spec fn links_of(d: Json) -> Seq<Seq<char>> {
    let docs = text_or_empty(field(d, "docs_html_url"@));
    let page = text_or_empty(field(d, "html_url"@));
    let own = match fields_of(field2(d, "meta"@, "links"@)) {
        Some(fields) => links_in(fields),
        None => Seq::empty(),
    };
    (if docs.len() > 0 {
        seq![link("HexDocs"@, docs)]
    } else {
        Seq::empty()
    }) + (if page.len() > 0 {
        seq![link("Hex.pm"@, page)]
    } else {
        Seq::empty()
    }) + own
}

/// The text about a package: name and version, description, licences, links.
/// What the registry does not give is left out.
pub open spec fn package_markdown(pkg: Seq<char>, d: Json) -> Seq<char> {
    let description = text_or_empty(field2(d, "meta"@, "description"@));
    let licenses = licenses_of(d);
    let links = links_of(d);
    "### "@ + pkg + " `"@ + shown_version(d) + "`\n\n"@ + (if description.len() > 0 {
        description + "\n\n"@
    } else {
        Seq::empty()
    }) + (if licenses.len() > 0 {
        "**License:** "@ + joined(licenses, ", "@) + "\n\n"@
    } else {
        Seq::empty()
    }) + (if links.len() > 0 {
        joined(links, " \u{00b7} "@) + "\n"@
    } else {
        Seq::empty()
    })
}

/// How many series the list of versions shows.
pub const LISTED_SERIES: usize = 8;

/// How many versions of a series the list shows.
pub const LISTED_VERSIONS: usize = 5;

/// The versions that the list covers: those of all releases. `None` where the
/// registry lists no releases.
pub open spec fn listed_versions(d: Json) -> Option<Seq<Seq<char>>> {
    match elements_of(field(d, "releases"@)) {
        Some(releases) => Some(versions_of(releases)),
        None => None,
    }
}

/// The series of a list of versions, each once, newest first.
pub open spec fn series_list(versions: Seq<Seq<char>>) -> Seq<Seq<char>> {
    distinct(all_series(versions))
}

/// The series that are shown, each with a line of its own.
pub open spec fn shown_series(versions: Seq<Seq<char>>) -> Seq<Seq<char>> {
    cap(series_list(versions), LISTED_SERIES as int)
}

/// How many series are not shown, only counted.
pub open spec fn hidden_series(versions: Seq<Seq<char>>) -> nat {
    if series_list(versions).len() > LISTED_SERIES {
        (series_list(versions).len() - LISTED_SERIES) as nat
    } else {
        0
    }
}

/// The line for one series: its first versions, and an ellipsis where there
/// are more.
pub open spec fn series_line(versions: Seq<Seq<char>>, key: Seq<char>) -> Seq<char> {
    let own = members(versions, key);
    "**~> "@ + key + "** &nbsp; "@ + joined(cap(own, LISTED_VERSIONS as int), " \u{00b7} "@) + (
    if own.len() > LISTED_VERSIONS {
        " \u{2026}"@
    } else {
        Seq::empty()
    }) + "\n\n"@
}

/// The lines for the first `n` series.
pub open spec fn series_lines(versions: Seq<Seq<char>>, keys: Seq<Seq<char>>, n: int) -> Seq<char>
    decreases n,
{
    if n <= 0 {
        Seq::empty()
    } else {
        series_lines(versions, keys, n - 1) + series_line(versions, keys[n - 1])
    }
}

/// Where the rest of the versions can be seen.
pub open spec fn registry_page(d: Json) -> Seq<char> {
    match text_of(field(d, "html_url"@)) {
        Some(url) => url,
        None => "https://hex.pm"@,
    }
}

/// The last line, where not all series are shown.
pub open spec fn more_line(hidden: nat, page: Seq<char>) -> Seq<char> {
    "_"@ + decimal(hidden) + " more minor version(s) \u{2014} see [Hex.pm]("@ + page + ")_\n"@
}

/// The text about the versions of a package, or `None` where there is no
/// version to show.
pub open spec fn versions_markdown(pkg: Seq<char>, d: Json) -> Option<Seq<char>> {
    match listed_versions(d) {
        Some(versions) => {
            let shown = shown_series(versions);
            let hidden = hidden_series(versions);
            if shown.len() == 0 {
                None
            } else {
                Some(
                    "### "@ + pkg + " \u{2014} available versions\n\n"@ + series_lines(
                        versions,
                        shown,
                        shown.len() as int,
                    ) + (if hidden > 0 {
                        more_line(hidden, registry_page(d))
                    } else {
                        Seq::empty()
                    }),
                )
            }
        },
        None => None,
    }
}

/// The strings among the elements of an array.
fn collect_strings(v: &Vec<Json>) -> (r: Vec<String>)
    ensures
        texts(r@) == strings_in(v@),
{
    let mut out: Vec<String> = Vec::new();
    let mut i: usize = 0;
    assert(texts(out@) =~= Seq::<Seq<char>>::empty());
    assert(v@.take(0) =~= Seq::<Json>::empty());
    while i < v.len()
        invariant
            i <= v.len(),
            texts(out@) == strings_in(v@.take(i as int)),
        decreases v.len() - i,
    {
        assert(v@.take(i + 1).drop_last() =~= v@.take(i as int));
        match as_text(Some(&v[i])) {
            Some(s) => {
                let s: String = s.to_owned();
                proof {
                    lemma_texts_push(out@, s);
                }
                out.push(s);
            },
            None => {},
        }
        i += 1;
    }
    assert(v@.take(v.len() as int) =~= v@);
    out
}

/// A link in Markdown.
fn link_text(name: &str, href: &str) -> (r: String)
    ensures
        r@ == link(name@, href@),
{
    let mut s: String = cat3("[", name, "](");
    s.append(href);
    s.append(")");
    s
}

/// The links of a package.
fn collect_links(d: &Json) -> (r: Vec<String>)
    ensures
        texts(r@) == links_of(*d),
{
    let docs: &str = as_text_or_empty(d.get("docs_html_url"));
    let page: &str = as_text_or_empty(d.get("html_url"));
    let mut links: Vec<String> = Vec::new();
    assert(texts(links@) =~= Seq::<Seq<char>>::empty());
    if !docs.is_empty() {
        let l: String = link_text("HexDocs", docs);
        proof {
            lemma_texts_push(links@, l);
        }
        links.push(l);
    }
    if !page.is_empty() {
        let l: String = link_text("Hex.pm", page);
        proof {
            lemma_texts_push(links@, l);
        }
        links.push(l);
    }
    let ghost front = texts(links@);
    match as_object(d.get2("meta", "links")) {
        Some(fields) => {
            let mut i: usize = 0;
            assert(fields@.take(0) =~= Seq::<(String, Json)>::empty());
            assert(front + links_in(fields@.take(0)) =~= front);
            while i < fields.len()
                invariant
                    i <= fields.len(),
                    texts(links@) == front + links_in(fields@.take(i as int)),
                decreases fields.len() - i,
            {
                assert(fields@.take(i + 1).drop_last() =~= fields@.take(i as int));
                match as_text(Some(&fields[i].1)) {
                    Some(href) => {
                        let l: String = link_text(fields[i].0.as_str(), href);
                        proof {
                            lemma_texts_push(links@, l);
                            assert((front + links_in(fields@.take(i as int))).push(l@) =~= front
                                + links_in(fields@.take(i as int)).push(l@));
                        }
                        links.push(l);
                    },
                    None => {},
                }
                i += 1;
            }
            assert(fields@.take(fields.len() as int) =~= fields@);
        },
        None => {},
    }
    assert(texts(links@) =~= links_of(*d));
    links
}

/// The text about a package: description, latest version, licences and links.
/// There is none where the registry gave no answer.
pub fn hover_package_info(pkg_name: &str, data: Option<&Json>) -> (r: Option<Hover>)
    ensures
        match data {
            Some(d) => r is Some && r.unwrap().value@ == package_markdown(pkg_name@, *d),
            None => r is None,
        },
{
    let d: &Json = match data {
        Some(d) => d,
        None => {
            return None;
        },
    };
    let version: &str = match as_text(d.get("latest_stable_version")) {
        Some(v) => v,
        None => match as_text(d.get("latest_version")) {
            Some(v) => v,
            None => "unknown",
        },
    };
    let description: &str = as_text_or_empty(d.get2("meta", "description"));
    let licenses: Vec<String> = match as_array(d.get2("meta", "licenses")) {
        Some(v) => collect_strings(v),
        None => Vec::new(),
    };
    assert(texts(licenses@) =~= licenses_of(*d));
    let links: Vec<String> = collect_links(d);
    let mut md: String = cat3("### ", pkg_name, " `");
    md.append(version);
    md.append("`\n\n");
    let ghost head = md@;
    if !description.is_empty() {
        md.append(description);
        md.append("\n\n");
    }
    let ghost described = md@;
    if licenses.len() > 0 {
        md.append("**License:** ");
        md.append(join(&licenses, ", ").as_str());
        md.append("\n\n");
    }
    let ghost licensed = md@;
    if links.len() > 0 {
        md.append(join(&links, " \u{00b7} ").as_str());
        md.append("\n");
    }
    proof {
        let part1 = if description@.len() > 0 {
            description@ + "\n\n"@
        } else {
            Seq::empty()
        };
        let part2 = if licenses_of(*d).len() > 0 {
            "**License:** "@ + joined(licenses_of(*d), ", "@) + "\n\n"@
        } else {
            Seq::empty()
        };
        let part3 = if links_of(*d).len() > 0 {
            joined(links_of(*d), " \u{00b7} "@) + "\n"@
        } else {
            Seq::empty()
        };
        assert(described =~= head + part1);
        assert(licensed =~= described + part2);
        assert(md@ =~= licensed + part3);
    }
    Some(Hover { value: md })
}

/// The first elements of a list.
fn first_strings(v: &Vec<String>, n: usize) -> (r: Vec<String>)
    ensures
        texts(r@) == cap(texts(v@), n as int),
{
    let mut out: Vec<String> = Vec::new();
    let mut i: usize = 0;
    assert(texts(out@) =~= texts(v@).take(0));
    while i < v.len() && i < n
        invariant
            i <= v.len(),
            i <= n,
            texts(out@) == texts(v@).take(i as int),
        decreases v.len() - i,
    {
        let s: String = v[i].clone();
        proof {
            lemma_texts_push(out@, s);
            assert(texts(v@).take(i as int).push(s@) =~= texts(v@).take(i + 1));
        }
        out.push(s);
        i += 1;
    }
    assert(texts(v@).take(i as int) =~= cap(texts(v@), n as int));
    out
}

/// The line for one series.
fn series_text(versions: &Vec<String>, key: &str) -> (r: String)
    ensures
        r@ == series_line(texts(versions@), key@),
{
    let own: Vec<String> = series_members(versions, key);
    let shown: Vec<String> = first_strings(&own, LISTED_VERSIONS);
    let mut s: String = cat3("**~> ", key, "** &nbsp; ");
    s.append(join(&shown, " \u{00b7} ").as_str());
    let ghost listed = s@;
    if own.len() > LISTED_VERSIONS {
        s.append(" \u{2026}");
    } else {
        assert(listed + Seq::<char>::empty() =~= listed);
    }
    s.append("\n\n");
    s
}

/// The text about the versions of a package, grouped by minor series. There is
/// none where the registry gave no answer or lists no version.
pub fn hover_version_list(pkg_name: &str, data: Option<&Json>) -> (r: Option<Hover>)
    ensures
        match data {
            Some(d) => match versions_markdown(pkg_name@, *d) {
                Some(md) => r is Some && r.unwrap().value@ == md,
                None => r is None,
            },
            None => r is None,
        },
{
    let d: &Json = match data {
        Some(d) => d,
        None => {
            return None;
        },
    };
    let releases: &Vec<Json> = match as_array(d.get("releases")) {
        Some(releases) => releases,
        None => {
            return None;
        },
    };
    let versions: Vec<String> = all_versions(releases);
    let minors: Vec<String> = minor_series(&versions);
    let ghost all = texts(versions@);
    let ghost keys = series_list(all);
    if minors.len() == 0 {
        assert(keys.len() == 0);
        return None;
    }
    assert(keys.len() == minors.len());
    let mut md: String = cat3("### ", pkg_name, " \u{2014} available versions\n\n");
    let ghost head = md@;
    let shown: Vec<String> = first_strings(&minors, LISTED_SERIES);
    let mut i: usize = 0;
    assert(head + series_lines(all, texts(shown@), 0) =~= head);
    while i < shown.len()
        invariant
            i <= shown.len(),
            all == texts(versions@),
            md@ == head + series_lines(all, texts(shown@), i as int),
        decreases shown.len() - i,
    {
        assert(texts(shown@)[i as int] == shown@[i as int]@);
        md.append(series_text(&versions, shown[i].as_str()).as_str());
        assert(md@ =~= head + series_lines(all, texts(shown@), i + 1));
        i += 1;
    }
    let ghost listed = md@;
    if minors.len() > LISTED_SERIES {
        let page: &str = match as_text(d.get("html_url")) {
            Some(url) => url,
            None => "https://hex.pm",
        };
        let count: String = decimal_text(minors.len() - LISTED_SERIES);
        md.append("_");
        md.append(count.as_str());
        md.append(" more minor version(s) \u{2014} see [Hex.pm](");
        md.append(page);
        md.append(")_\n");
        assert(md@ =~= listed + more_line(hidden_series(all), registry_page(*d)));
    } else {
        assert(listed + Seq::<char>::empty() =~= listed);
    }
    Some(Hover { value: md })
}

/// No series is lost: those that are shown and those that are counted in the
/// last line make up the series of all releases, and none is shown twice. Every
/// release with a series belongs to one of them.
pub proof fn law_every_series_is_shown_or_counted(d: Json, releases: Seq<Json>)
    requires
        elements_of(field(d, "releases"@)) == Some(releases),
    ensures
        listed_versions(d) == Some(versions_of(releases)),
        shown_series(versions_of(releases)).len() + hidden_series(versions_of(releases))
            == distinct(all_series(versions_of(releases))).len(),
        shown_series(versions_of(releases)).no_duplicates(),
        shown_series(versions_of(releases)).len() <= LISTED_SERIES,
        forall|i: int|
            0 <= i < versions_of(releases).len() && series_of(
                #[trigger] versions_of(releases)[i],
            ) is Some ==> distinct(all_series(versions_of(releases))).contains(
                series_of(versions_of(releases)[i]).unwrap(),
            ),
{
    law_versions_are_grouped_by_series(versions_of(releases));
}

/// There is a text about the versions of a package if and only if one of its
/// releases has a series.
pub proof fn law_versions_are_shown_if_there_are_any(pkg: Seq<char>, d: Json, releases: Seq<Json>)
    requires
        elements_of(field(d, "releases"@)) == Some(releases),
    ensures
        versions_markdown(pkg, d) is Some <==> exists|i: int|
            0 <= i < versions_of(releases).len() && series_of(
                #[trigger] versions_of(releases)[i],
            ) is Some,
{
    let versions = versions_of(releases);
    law_versions_are_grouped_by_series(versions);
    if versions_markdown(pkg, d) is Some {
        let key = shown_series(versions)[0];
        assert(distinct(all_series(versions)).contains(key));
        let v = members(versions, key)[0];
        assert(members(versions, key).contains(v));
        let i = choose|i: int| 0 <= i < versions.len() && versions[i] == v;
        assert(series_of(versions[i]) is Some);
    }
}

} // verus!
