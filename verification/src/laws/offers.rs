//! What is offered for completion.

use crate::completion::{
    items_of_version, mix_config, narrowed, offered_versions, package_completions, package_item,
    package_items, version_completions, version_items, with_prefix, CompletionItemKind, EditView,
    ItemView,
};
use crate::json::{elements_of, field, field2, text_of, text_or_empty, Json};
use crate::server::{answer_to, QueryView, ReplyView};
use crate::version::{
    all_series, latest_of, law_each_series_is_opened_once, lemma_latest_of_keys, members,
    opens_series, series_of, versions_of,
};
use vstd::prelude::*;
use vstd::string::*;

verus! {

/// The versions of a list of releases are the version strings of its elements,
/// all of them, in order.
pub proof fn law_versions_are_those_of_the_releases(releases: Seq<Json>)
    ensures
        versions_of(releases) == releases.filter_map(|r: Json| text_of(field(r, "version"@))),
{
    lemma_versions(releases, |r: Json| text_of(field(r, "version"@)));
}

proof fn lemma_versions(releases: Seq<Json>, f: spec_fn(Json) -> Option<Seq<char>>)
    requires
        forall|r: Json| #[trigger] f(r) == text_of(field(r, "version"@)),
    ensures
        versions_of(releases) == releases.filter_map(f),
    decreases releases.len(),
{
    if releases.len() > 0 {
        lemma_versions(releases.drop_last(), f);
        let front = releases.drop_last().filter_map(f);
        match f(releases.last()) {
            Some(v) => {
                assert(front.push(v) =~= front + seq![v]);
            },
            None => {},
        }
    }
}

/// The series of a list of versions are those of its elements, in order.
pub proof fn law_series_are_those_of_the_versions(versions: Seq<Seq<char>>)
    ensures
        all_series(versions) == versions.filter_map(|v: Seq<char>| series_of(v)),
{
    lemma_series(versions, |v: Seq<char>| series_of(v));
}

proof fn lemma_series(versions: Seq<Seq<char>>, f: spec_fn(Seq<char>) -> Option<Seq<char>>)
    requires
        forall|v: Seq<char>| #[trigger] f(v) == series_of(v),
    ensures
        all_series(versions) == versions.filter_map(f),
    decreases versions.len(),
{
    if versions.len() > 0 {
        lemma_series(versions.drop_last(), f);
        let front = versions.drop_last().filter_map(f);
        match f(versions.last()) {
            Some(v) => {
                assert(front.push(v) =~= front + seq![v]);
            },
            None => {},
        }
    }
}

/// The members of a series are the versions that have it, all of them, in
/// order.
pub proof fn law_members_are_the_versions_of_the_series(versions: Seq<Seq<char>>, key: Seq<char>)
    ensures
        members(versions, key) == versions.filter(|v: Seq<char>| series_of(v) == Some(key)),
{
    lemma_members(versions, key, |v: Seq<char>| series_of(v) == Some(key));
}

proof fn lemma_members(versions: Seq<Seq<char>>, key: Seq<char>, p: spec_fn(Seq<char>) -> bool)
    requires
        forall|v: Seq<char>| #[trigger] p(v) == (series_of(v) == Some(key)),
    ensures
        members(versions, key) == versions.filter(p),
    decreases versions.len(),
{
    reveal(Seq::filter);
    if versions.len() > 0 {
        lemma_members(versions.drop_last(), key, p);
        assert(p(versions.last()) == (series_of(versions.last()) == Some(key)));
    }
}

/// A series has a latest version if and only if one of the versions has it, and
/// that is the first one that does.
pub proof fn law_the_first_of_a_series_is_its_latest(versions: Seq<Seq<char>>, key: Seq<char>)
    ensures
        latest_of(versions, versions.len() as int).contains_key(key) <==> exists|i: int|
            0 <= i < versions.len() && series_of(#[trigger] versions[i]) == Some(key),
        forall|i: int|
            0 <= i < versions.len() && series_of(#[trigger] versions[i]) == Some(key) && (forall|
                j: int,
            |
                0 <= j < i ==> series_of(#[trigger] versions[j]) != Some(key)) ==> latest_of(
                versions,
                versions.len() as int,
            )[key] == versions[i],
{
    lemma_latest_of_keys(versions, versions.len() as int, key);
    assert forall|i: int|
        0 <= i < versions.len() && series_of(#[trigger] versions[i]) == Some(key) && (forall|
            j: int,
        |
            0 <= j < i ==> series_of(#[trigger] versions[j]) != Some(key)) implies latest_of(
        versions,
        versions.len() as int,
    )[key] == versions[i] by {
        law_each_series_is_opened_once(versions, i);
    }
}

/// The item for a package, from its name and description.
pub open spec fn offered_package(name: Seq<char>, description: Seq<char>) -> ItemView {
    ItemView {
        label: name,
        kind: CompletionItemKind::Module,
        detail: if description.len() == 0 {
            None
        } else if description.len() <= 100 {
            Some(description)
        } else {
            Some(description.take(100))
        },
        insert_text: name,
        preselect: false,
        text_edit: None,
    }
}

/// A search for packages is answered with one item for each package of the
/// registry's list that has a name, in the order of the list. The item shows
/// and inserts the name, and its detail is the beginning of the description, up
/// to a hundred characters.
pub proof fn law_every_named_package_is_offered(packages: Vec<Json>)
    ensures
        answer_to(QueryView::PackageNames, Some(Json::Array(packages))) == ReplyView::Completions(
            packages@.filter_map(
                |p: Json|
                    match text_of(field(p, "name"@)) {
                        Some(name) => Some(
                            offered_package(
                                name,
                                text_or_empty(field2(p, "meta"@, "description"@)),
                            ),
                        ),
                        None => None,
                    },
            ),
        ),
        package_completions(Some(Json::Array(packages))).map_values(|i: ItemView| i.label)
            == packages@.filter_map(|p: Json| text_of(field(p, "name"@))),
        package_completions(Some(Json::Array(packages))).map_values(|i: ItemView| i.insert_text)
            == packages@.filter_map(|p: Json| text_of(field(p, "name"@))),
{
    let f = |p: Json|
        match text_of(field(p, "name"@)) {
            Some(name) => Some(
                offered_package(name, text_or_empty(field2(p, "meta"@, "description"@))),
            ),
            None => None,
        };
    let g = |p: Json| text_of(field(p, "name"@));
    assert forall|p: Json| #[trigger] f(p) == package_item(p) by {}
    lemma_package_items(packages@, f, g);
    assert(package_completions(Some(Json::Array(packages))) == package_items(packages@));
}

proof fn lemma_package_items(
    packages: Seq<Json>,
    f: spec_fn(Json) -> Option<ItemView>,
    g: spec_fn(Json) -> Option<Seq<char>>,
)
    requires
        forall|p: Json| #[trigger] f(p) == package_item(p),
        forall|p: Json| #[trigger] g(p) == text_of(field(p, "name"@)),
    ensures
        package_items(packages) == packages.filter_map(f),
        package_items(packages).map_values(|i: ItemView| i.label) == packages.filter_map(g),
        package_items(packages).map_values(|i: ItemView| i.insert_text) == packages.filter_map(g),
    decreases packages.len(),
{
    let items = package_items(packages);
    if packages.len() > 0 {
        let rest = packages.drop_last();
        let last = packages.last();
        lemma_package_items(rest, f, g);
        let front = package_items(rest);
        assert(f(last) == package_item(last));
        assert(g(last) == text_of(field(last, "name"@)));
        match package_item(last) {
            Some(item) => {
                assert(items =~= front + seq![item]);
                assert(items.map_values(|i: ItemView| i.label) =~= front.map_values(
                    |i: ItemView| i.label,
                ) + seq![item.label]);
                assert(items.map_values(|i: ItemView| i.insert_text) =~= front.map_values(
                    |i: ItemView| i.insert_text,
                ) + seq![item.insert_text]);
            },
            None => {},
        }
    } else {
        assert(items.map_values(|i: ItemView| i.label) =~= Seq::<Seq<char>>::empty());
        assert(items.map_values(|i: ItemView| i.insert_text) =~= Seq::<Seq<char>>::empty());
    }
}

/// Whatever is no list of packages offers nothing.
pub proof fn law_no_list_offers_no_package(data: Option<Json>)
    requires
        !(data matches Some(Json::Array(_))),
    ensures
        answer_to(QueryView::PackageNames, data) == ReplyView::Completions(Seq::empty()),
        package_completions(data).len() == 0,
{
}

/// A version requirement that is offered: it inserts what it shows.
pub open spec fn requirement(label: Seq<char>, detail: Option<Seq<char>>) -> ItemView {
    ItemView {
        label,
        kind: CompletionItemKind::Value,
        detail,
        insert_text: label,
        preselect: false,
        text_edit: None,
    }
}

/// No version before `i` has the series of the one at `i`.
pub open spec fn is_new_series(versions: Seq<Seq<char>>, i: int) -> bool {
    series_of(versions[i]) is Some && !(exists|j: int|
        0 <= j < i && series_of(#[trigger] versions[j]) == series_of(versions[i]))
}

/// The requirements that the version at `i` brings: `~> X.Y` if its series is
/// new, `>= X.Y.Z` and `X.Y.Z`.
pub open spec fn requirements_at(
    versions: Seq<Seq<char>>,
    i: int,
    snippet: Seq<char>,
) -> Seq<ItemView> {
    let v = versions[i];
    let own = seq![
        requirement(">= "@ + v, Some("Minimum version "@ + v)),
        requirement(v, if snippet.len() == 0 { None } else { Some(snippet) }),
    ];
    if is_new_series(versions, i) {
        let series = series_of(v).unwrap();
        seq![requirement("~> "@ + series, Some("Semver-compatible with "@ + series + ".x"@))] + own
    } else {
        own
    }
}

/// The newest versions of a list of releases, twenty at most.
pub open spec fn newest(releases: Seq<Json>) -> Seq<Seq<char>> {
    let all = releases.filter_map(|r: Json| text_of(field(r, "version"@)));
    if all.len() <= 20 {
        all
    } else {
        all.take(20)
    }
}

/// All requirements that a list of releases brings, in order.
pub open spec fn requirements(releases: Seq<Json>, snippet: Seq<char>) -> Seq<ItemView> {
    let vs = newest(releases);
    Seq::new(vs.len(), |i: int| requirements_at(vs, i, snippet)).flatten_alt()
}

proof fn lemma_requirements(versions: Seq<Seq<char>>, n: int, snippet: Seq<char>)
    requires
        0 <= n <= versions.len(),
    ensures
        version_items(versions, n, snippet) == Seq::new(
            n as nat,
            |i: int| requirements_at(versions, i, snippet),
        ).flatten_alt(),
    decreases n,
{
    let parts = Seq::new(n as nat, |i: int| requirements_at(versions, i, snippet));
    if n > 0 {
        lemma_requirements(versions, n - 1, snippet);
        let front = Seq::new((n - 1) as nat, |i: int| requirements_at(versions, i, snippet));
        assert(parts.drop_last() =~= front);
        assert(opens_series(versions, n - 1) == is_new_series(versions, n - 1));
        assert(parts.last() =~= items_of_version(versions, n - 1, snippet));
    }
}

/// The releases of a package bring their requirements: of the newest twenty
/// versions each is offered as a minimum and as a pin, and each series once, in
/// front of its first version.
pub proof fn law_the_newest_versions_are_offered(d: Json, releases: Seq<Json>)
    requires
        elements_of(field(d, "releases"@)) == Some(releases),
    ensures
        version_completions(Some(d)) == requirements(
            releases,
            text_or_empty(field2(d, "configs"@, "mix.exs"@)),
        ),
        offered_versions(Some(d)) == Some(newest(releases)),
        mix_config(Some(d)) == text_or_empty(field2(d, "configs"@, "mix.exs"@)),
{
    law_versions_are_those_of_the_releases(releases);
    let vs = newest(releases);
    lemma_requirements(vs, vs.len() as int, mix_config(Some(d)));
}

proof fn lemma_with_prefix_is_filter(
    items: Seq<ItemView>,
    partial: Seq<char>,
    p: spec_fn(ItemView) -> bool,
)
    requires
        forall|i: ItemView| #[trigger] p(i) == partial.is_prefix_of(i.label),
    ensures
        with_prefix(items, partial) == items.filter(p),
    decreases items.len(),
{
    reveal(Seq::filter);
    if items.len() > 0 {
        lemma_with_prefix_is_filter(items.drop_last(), partial, p);
        assert(p(items.last()) == partial.is_prefix_of(items.last().label));
    }
}

/// The items whose label begins with what has been typed.
pub open spec fn matching(items: Seq<ItemView>, partial: Seq<char>) -> Seq<ItemView> {
    items.filter(|i: ItemView| partial.is_prefix_of(i.label))
}

/// A query for versions is answered with exactly the requirements of the newest
/// versions that begin with what has been typed, in their order. Each replaces
/// what has been typed, and the first one alone is preselected.
pub proof fn law_versions_are_answered_exactly(
    d: Json,
    releases: Seq<Json>,
    partial: Seq<char>,
    line: u32,
    start: u32,
    end: u32,
)
    requires
        elements_of(field(d, "releases"@)) == Some(releases),
    ensures
        ({
            let snippet = text_or_empty(field2(d, "configs"@, "mix.exs"@));
            let kept = matching(requirements(releases, snippet), partial);
            answer_to(QueryView::Versions { partial, line, start, end }, Some(d)) matches
                ReplyView::IncompleteCompletions(r) && r.len() == kept.len() && forall|k: int|
                    0 <= k < r.len() ==> #[trigger] r[k] == (ItemView {
                        preselect: k == 0,
                        text_edit: Some(
                            EditView { line, start, end, new_text: kept[k].label },
                        ),
                        ..kept[k]
                    })
        }),
{
    let snippet = text_or_empty(field2(d, "configs"@, "mix.exs"@));
    let all = requirements(releases, snippet);
    law_the_newest_versions_are_offered(d, releases);
    lemma_with_prefix_is_filter(all, partial, |i: ItemView| partial.is_prefix_of(i.label));
    let kept = matching(all, partial);
    let r = narrowed(version_completions(Some(d)), partial, line, start, end);
    assert(with_prefix(all, partial) == kept);
    assert forall|k: int| 0 <= k < r.len() implies kept[k].insert_text == kept[k].label by {
        assert(kept.contains(kept[k]));
        all.lemma_filter_contains_rev(|i: ItemView| partial.is_prefix_of(i.label), kept[k]);
        let a = choose|a: int| 0 <= a < all.len() && all[a] == kept[k];
        let vs = newest(releases);
        lemma_requirements_insert_their_label(vs, vs.len() as int, snippet, a);
    }
}

proof fn lemma_requirements_insert_their_label(
    versions: Seq<Seq<char>>,
    n: int,
    snippet: Seq<char>,
    a: int,
)
    requires
        0 <= n <= versions.len(),
        0 <= a < Seq::new(
            n as nat,
            |i: int| requirements_at(versions, i, snippet),
        ).flatten_alt().len(),
    ensures
        ({
            let item = Seq::new(
                n as nat,
                |i: int| requirements_at(versions, i, snippet),
            ).flatten_alt()[a];
            item.insert_text == item.label
        }),
    decreases n,
{
    let parts = Seq::new(n as nat, |i: int| requirements_at(versions, i, snippet));
    if n > 0 {
        let front = Seq::new((n - 1) as nat, |i: int| requirements_at(versions, i, snippet));
        assert(parts.drop_last() =~= front);
        if a < front.flatten_alt().len() {
            lemma_requirements_insert_their_label(versions, n - 1, snippet, a);
        }
    }
}

/// Where the registry lists no releases, or gave no answer, no version is
/// offered.
pub proof fn law_no_releases_offer_no_version(
    data: Option<Json>,
    partial: Seq<char>,
    line: u32,
    start: u32,
    end: u32,
)
    requires
        data matches Some(d) ==> elements_of(field(d, "releases"@)) is None,
    ensures
        answer_to(QueryView::Versions { partial, line, start, end }, data)
            == ReplyView::IncompleteCompletions(Seq::empty()),
        version_completions(data).len() == 0,
{
    assert(narrowed(Seq::empty(), partial, line, start, end) =~= Seq::<ItemView>::empty());
}

/// A label is shown by one of the items.
pub open spec fn shows(items: Seq<ItemView>, label: Seq<char>) -> bool {
    exists|k: int| 0 <= k < items.len() && (#[trigger] items[k]).label == label
}

/// The label is one of the three formats of a version.
pub open spec fn is_format_of(label: Seq<char>, v: Seq<char>) -> bool {
    ||| label == ">= "@ + v
    ||| label == v
    ||| series_of(v) is Some && label == "~> "@ + series_of(v).unwrap()
}

/// Every format of every one of the newest versions is offered, as soon as it
/// begins with what has been typed, and nothing else is. With nothing typed all
/// of them are.
pub proof fn law_every_format_that_matches_is_offered(
    d: Json,
    releases: Seq<Json>,
    partial: Seq<char>,
    line: u32,
    start: u32,
    end: u32,
    label: Seq<char>,
)
    requires
        elements_of(field(d, "releases"@)) == Some(releases),
    ensures
        answer_to(QueryView::Versions { partial, line, start, end }, Some(d)) matches
            ReplyView::IncompleteCompletions(r) && (shows(r, label) <==> partial.is_prefix_of(
            label,
        ) && exists|i: int|
            0 <= i < newest(releases).len() && is_format_of(label, #[trigger] newest(releases)[i])),
        partial.len() == 0 ==> partial.is_prefix_of(label),
{
    let snippet = text_or_empty(field2(d, "configs"@, "mix.exs"@));
    let all = requirements(releases, snippet);
    let vs = newest(releases);
    let p = |i: ItemView| partial.is_prefix_of(i.label);
    let kept = matching(all, partial);
    law_versions_are_answered_exactly(d, releases, partial, line, start, end);
    let r = narrowed(version_completions(Some(d)), partial, line, start, end);
    lemma_requirement_labels(vs, vs.len() as int, snippet, label);
    if shows(r, label) {
        let k = choose|k: int| 0 <= k < r.len() && (#[trigger] r[k]).label == label;
        assert(kept[k].label == label);
        assert(kept.contains(kept[k]));
        all.lemma_filter_contains_rev(p, kept[k]);
        all.lemma_filter_pred(p, k);
        assert(p(kept[k]));
        let a = choose|a: int| 0 <= a < all.len() && all[a] == kept[k];
        assert(shows(all, label));
    }
    if partial.is_prefix_of(label) && shows(all, label) {
        let a = choose|a: int| 0 <= a < all.len() && (#[trigger] all[a]).label == label;
        assert(p(all[a]));
        all.lemma_filter_contains(p, a);
        assert(kept.contains(all[a]));
        let k = choose|k: int| 0 <= k < kept.len() && kept[k] == all[a];
        assert(r[k].label == label);
    }
    if partial.len() == 0 {
        assert(label.subrange(0, 0) =~= partial);
    }
}

proof fn lemma_requirement_labels(
    versions: Seq<Seq<char>>,
    n: int,
    snippet: Seq<char>,
    label: Seq<char>,
)
    requires
        0 <= n <= versions.len(),
    ensures
        shows(
            Seq::new(n as nat, |i: int| requirements_at(versions, i, snippet)).flatten_alt(),
            label,
        ) <==> exists|i: int| 0 <= i < n && is_format_of(label, #[trigger] versions[i]),
    decreases n,
{
    let parts = Seq::new(n as nat, |i: int| requirements_at(versions, i, snippet));
    let all = parts.flatten_alt();
    if n > 0 {
        lemma_requirement_labels(versions, n - 1, snippet, label);
        let front = Seq::new((n - 1) as nat, |i: int| requirements_at(versions, i, snippet));
        let before = front.flatten_alt();
        let own = requirements_at(versions, n - 1, snippet);
        assert(parts.drop_last() =~= front);
        assert(parts.last() == own);
        assert(all == before + own);
        if shows(all, label) {
            let k = choose|k: int| 0 <= k < all.len() && (#[trigger] all[k]).label == label;
            if k < before.len() {
                assert(before[k].label == label);
            } else {
                assert(own[k - before.len()].label == label);
                assert(is_format_of(label, versions[n - 1]));
            }
        }
        if exists|i: int| 0 <= i < n && is_format_of(label, #[trigger] versions[i]) {
            let i = choose|i: int| 0 <= i < n && is_format_of(label, #[trigger] versions[i]);
            if i < n - 1 {
                let k = choose|k: int| 0 <= k < before.len() && (#[trigger] before[k]).label == label;
                assert(all[k].label == label);
            } else {
                let m = own.len() as int;
                assert(own[m - 2].label == ">= "@ + versions[i]);
                assert(own[m - 1].label == versions[i]);
                assert(all[before.len() + m - 2].label == ">= "@ + versions[i]);
                assert(all[before.len() + m - 1].label == versions[i]);
                if label != ">= "@ + versions[i] && label != versions[i] {
                    if is_new_series(versions, i) {
                        assert(own[0].label == label);
                        assert(all[before.len() as int].label == label);
                    } else {
                        let j = choose|j: int|
                            0 <= j < i && series_of(#[trigger] versions[j]) == series_of(
                                versions[i],
                            );
                        assert(is_format_of(label, versions[j]));
                        let k = choose|k: int|
                            0 <= k < before.len() && (#[trigger] before[k]).label == label;
                        assert(all[k].label == label);
                    }
                }
            }
        }
    }
}

/// Any list is narrowed down to the items that match what has been typed, in
/// their order. Each keeps what it shows and replaces what has been typed by
/// what it inserts, and the first one alone is preselected.
pub proof fn law_any_list_is_narrowed_to_what_matches(
    items: Seq<ItemView>,
    partial: Seq<char>,
    line: u32,
    start: u32,
    end: u32,
)
    ensures
        ({
            let kept = matching(items, partial);
            let r = narrowed(items, partial, line, start, end);
            r.len() == kept.len() && forall|k: int|
                0 <= k < r.len() ==> #[trigger] r[k] == (ItemView {
                    preselect: k == 0,
                    text_edit: Some(
                        EditView { line, start, end, new_text: kept[k].insert_text },
                    ),
                    ..kept[k]
                })
        }),
{
    lemma_with_prefix_is_filter(items, partial, |i: ItemView| partial.is_prefix_of(i.label));
}

} // verus!
