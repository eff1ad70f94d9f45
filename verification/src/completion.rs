//! Completion items for package names and for versions.

use crate::json::{
    as_array, as_text, as_text_or_empty, elements_of, field, field2, found, text_of, text_or_empty,
    Json,
};
use crate::lists::{cap, distinct, lemma_distinct, text_map, texts};
use crate::text::{cat, cat3, same_text, starts_with};
use crate::version::{
    all_series, latest_of, latest_patch_for_minor, law_each_series_is_opened_once, lemma_latest_of,
    lemma_latest_of_keys, lemma_opens_series, minor_key, opens_series, release_versions, series_of,
    versions_of,
};
use vstd::hash_map::StringHashMap;
use vstd::prelude::*;
use vstd::string::*;

verus! {

/// What a completion item stands for.
#[derive(Clone, Copy, Debug, PartialEq, Eq, Structural)]
pub enum CompletionItemKind {
    /// A package.
    Module,
    /// A version requirement.
    Value,
}

/// A replacement of a part of a line, from byte `start` up to byte `end`.
pub struct TextEdit {
    pub line: u32,
    pub start: u32,
    pub end: u32,
    pub new_text: String,
}

/// One entry of the list that the editor offers.
pub struct CompletionItem {
    pub label: String,
    pub kind: CompletionItemKind,
    pub detail: Option<String>,
    pub insert_text: String,
    pub preselect: bool,
    pub text_edit: Option<TextEdit>,
}

/// A `TextEdit` over characters.
pub struct EditView {
    pub line: u32,
    pub start: u32,
    pub end: u32,
    pub new_text: Seq<char>,
}

/// A `CompletionItem` over characters.
pub struct ItemView {
    pub label: Seq<char>,
    pub kind: CompletionItemKind,
    pub detail: Option<Seq<char>>,
    pub insert_text: Seq<char>,
    pub preselect: bool,
    pub text_edit: Option<EditView>,
}

impl View for TextEdit {
    type V = EditView;

    open spec fn view(&self) -> EditView {
        EditView { line: self.line, start: self.start, end: self.end, new_text: self.new_text@ }
    }
}

impl View for CompletionItem {
    type V = ItemView;

    open spec fn view(&self) -> ItemView {
        ItemView {
            label: self.label@,
            kind: self.kind,
            detail: match self.detail {
                Some(s) => Some(s@),
                None => None,
            },
            insert_text: self.insert_text@,
            preselect: self.preselect,
            text_edit: match self.text_edit {
                Some(e) => Some(e@),
                None => None,
            },
        }
    }
}

/// The items of a list, over characters.
pub open spec fn item_views(items: Seq<CompletionItem>) -> Seq<ItemView> {
    items.map_values(|i: CompletionItem| i@)
}

/// An item that inserts its own label.
pub open spec fn plain_item(
    label: Seq<char>,
    kind: CompletionItemKind,
    detail: Option<Seq<char>>,
) -> ItemView {
    ItemView { label, kind, detail, insert_text: label, preselect: false, text_edit: None }
}

/// The text, unless it is empty.
pub open spec fn if_any(t: Seq<char>) -> Option<Seq<char>> {
    if t.len() == 0 {
        None
    } else {
        Some(t)
    }
}

/// How many characters of a package description an item shows.
pub const DESCRIPTION_LIMIT: usize = 100;

/// How many releases the version completions cover.
pub const RELEASE_LIMIT: usize = 20;

/// The item for a package that the registry lists. One without a name gives
/// none.
pub open spec fn package_item(pkg: Json) -> Option<ItemView> {
    match text_of(field(pkg, "name"@)) {
        Some(name) => Some(
            plain_item(
                name,
                CompletionItemKind::Module,
                if_any(
                    cap(
                        text_or_empty(field2(pkg, "meta"@, "description"@)),
                        DESCRIPTION_LIMIT as int,
                    ),
                ),
            ),
        ),
        None => None,
    }
}

/// The items for the packages that the registry lists, in its order.
pub open spec fn package_items(packages: Seq<Json>) -> Seq<ItemView>
    decreases packages.len(),
{
    if packages.len() == 0 {
        Seq::empty()
    } else {
        let front = package_items(packages.drop_last());
        match package_item(packages.last()) {
            Some(item) => front.push(item),
            None => front,
        }
    }
}

/// The items for the registry's answer to a package search.
pub open spec fn package_completions(data: Option<Json>) -> Seq<ItemView> {
    match elements_of(data) {
        Some(packages) => package_items(packages),
        None => Seq::empty(),
    }
}

/// `~> X.Y`
pub open spec fn tilde_item(series: Seq<char>) -> ItemView {
    plain_item(
        "~> "@ + series,
        CompletionItemKind::Value,
        Some("Semver-compatible with "@ + series + ".x"@),
    )
}

/// `>= X.Y.Z`
pub open spec fn minimum_item(version: Seq<char>) -> ItemView {
    plain_item(
        ">= "@ + version,
        CompletionItemKind::Value,
        Some("Minimum version "@ + version),
    )
}

/// `X.Y.Z`
pub open spec fn exact_item(version: Seq<char>, config: Seq<char>) -> ItemView {
    plain_item(version, CompletionItemKind::Value, if_any(config))
}

/// The items for the version at `i`: the requirement on its series where it is
/// the first of it, the minimum version and the exact version.
pub open spec fn items_of_version(
    versions: Seq<Seq<char>>,
    i: int,
    config: Seq<char>,
) -> Seq<ItemView> {
    let rest = seq![minimum_item(versions[i]), exact_item(versions[i], config)];
    if opens_series(versions, i) {
        seq![tilde_item(series_of(versions[i]).unwrap())] + rest
    } else {
        rest
    }
}

/// The items for the first `n` versions.
pub open spec fn version_items(
    versions: Seq<Seq<char>>,
    n: int,
    config: Seq<char>,
) -> Seq<ItemView>
    decreases n,
{
    if n <= 0 {
        Seq::empty()
    } else {
        version_items(versions, n - 1, config) + items_of_version(versions, n - 1, config)
    }
}

/// The versions that completions offer for the registry's answer about a
/// package, or `None` where the answer lists no releases.
pub open spec fn offered_versions(data: Option<Json>) -> Option<Seq<Seq<char>>> {
    match data {
        Some(d) => match elements_of(field(d, "releases"@)) {
            Some(releases) => Some(cap(versions_of(releases), RELEASE_LIMIT as int)),
            None => None,
        },
        None => None,
    }
}

/// The dependency snippet that the registry gives for `mix.exs`.
pub open spec fn mix_config(data: Option<Json>) -> Seq<char> {
    match data {
        Some(d) => text_or_empty(field2(d, "configs"@, "mix.exs"@)),
        None => Seq::empty(),
    }
}

/// The items for the registry's answer about a package.
pub open spec fn version_completions(data: Option<Json>) -> Seq<ItemView> {
    match offered_versions(data) {
        Some(versions) => version_items(versions, versions.len() as int, mix_config(data)),
        None => Seq::empty(),
    }
}

proof fn lemma_item_views_push(v: Seq<CompletionItem>, i: CompletionItem)
    ensures
        item_views(v.push(i)) == item_views(v).push(i@),
{
    assert(item_views(v.push(i)) =~= item_views(v).push(i@));
}

/// An item that inserts its own label.
fn new_item(label: String, kind: CompletionItemKind, detail: Option<String>) -> (r: CompletionItem)
    ensures
        r@ == plain_item(
            label@,
            kind,
            match detail {
                Some(s) => Some(s@),
                None => None,
            },
        ),
{
    CompletionItem { insert_text: label.clone(), label, kind, detail, preselect: false, text_edit: None }
}

/// The text, unless it is empty.
fn detail_if_any(t: &str) -> (r: Option<String>)
    ensures
        match r {
            Some(s) => if_any(t@) == Some(s@),
            None => if_any(t@) is None,
        },
{
    if t.is_empty() {
        None
    } else {
        Some(t.to_owned())
    }
}

/// The item for a package that the registry lists.
fn package_entry(pkg: &Json) -> (r: Option<CompletionItem>)
    ensures
        match r {
            Some(item) => package_item(*pkg) == Some(item@),
            None => package_item(*pkg) is None,
        },
{
    match as_text(pkg.get("name")) {
        Some(name) => {
            let description: &str = as_text_or_empty(pkg.get2("meta", "description"));
            let shown: &str = if description.unicode_len() > DESCRIPTION_LIMIT {
                assert(description@.subrange(0, DESCRIPTION_LIMIT as int) =~= description@.take(
                    DESCRIPTION_LIMIT as int,
                ));
                description.substring_char(0, DESCRIPTION_LIMIT)
            } else {
                description
            };
            Some(new_item(name.to_owned(), CompletionItemKind::Module, detail_if_any(shown)))
        },
        None => None,
    }
}

/// The package-name completions for the registry's answer to a search, or for
/// no answer at all.
pub fn complete_package_names(data: Option<&Json>) -> (r: Vec<CompletionItem>)
    ensures
        item_views(r@) == package_completions(found(data)),
{
    let mut items: Vec<CompletionItem> = Vec::new();
    assert(item_views(items@) =~= Seq::<ItemView>::empty());
    match as_array(data) {
        Some(packages) => {
            let mut i: usize = 0;
            assert(packages@.take(0) =~= Seq::<Json>::empty());
            while i < packages.len()
                invariant
                    i <= packages.len(),
                    item_views(items@) == package_items(packages@.take(i as int)),
                decreases packages.len() - i,
            {
                assert(packages@.take(i + 1).drop_last() =~= packages@.take(i as int));
                match package_entry(&packages[i]) {
                    Some(item) => {
                        proof {
                            lemma_item_views_push(items@, item);
                        }
                        items.push(item);
                    },
                    None => {},
                }
                i += 1;
            }
            assert(packages@.take(packages.len() as int) =~= packages@);
        },
        None => {},
    }
    items
}

/// A series has been offered once its first version has been passed.
proof fn lemma_offered(versions: Seq<Seq<char>>, i: int)
    requires
        0 <= i < versions.len(),
        series_of(versions[i]) is Some,
    ensures
        opens_series(versions, i) <==> !latest_of(versions, i).contains_key(
            series_of(versions[i]).unwrap(),
        ),
{
    lemma_latest_of_keys(versions, i, series_of(versions[i]).unwrap());
}

/// The version completions for the registry's answer about a package, or for
/// no answer at all. The versions come newest first.
pub fn complete_versions(data: Option<&Json>) -> (r: Vec<CompletionItem>)
    ensures
        item_views(r@) == version_completions(found(data)),
{
    let mut items: Vec<CompletionItem> = Vec::new();
    assert(item_views(items@) =~= Seq::<ItemView>::empty());
    let d: &Json = match data {
        Some(d) => d,
        None => {
            return items;
        },
    };
    let releases: &Vec<Json> = match as_array(d.get("releases")) {
        Some(releases) => releases,
        None => {
            return items;
        },
    };
    // The canonical dependency snippet makes a useful detail line.
    let config: &str = as_text_or_empty(d.get2("configs", "mix.exs"));
    let versions: Vec<String> = release_versions(releases, RELEASE_LIMIT);
    let latest: StringHashMap<String> = latest_patch_for_minor(&versions);
    let mut emitted: StringHashMap<()> = StringHashMap::new();
    let ghost all = texts(versions@);
    let mut i: usize = 0;
    while i < versions.len()
        invariant
            i <= versions.len(),
            all == texts(versions@),
            text_map(latest@) == latest_of(all, all.len() as int),
            emitted@.dom() == latest_of(all, i as int).dom(),
            item_views(items@) == version_items(all, i as int, config@),
        decreases versions.len() - i,
    {
        let version: &str = versions[i].as_str();
        let ghost before = items@;
        let ghost done = emitted@;
        assert(all[i as int] == version@);
        // One requirement per series, where its latest patch stands.
        match minor_key(version) {
            Some(series) => {
                proof {
                    lemma_offered(all, i as int);
                    if opens_series(all, i as int) {
                        lemma_latest_of(all, all.len() as int, i as int);
                        assert(text_map(latest@).contains_key(series@));
                    }
                }
                let is_latest: bool = match latest.get(series.as_str()) {
                    Some(first) => {
                        assert(text_map(latest@)[series@] == first@);
                        same_text(first.as_str(), version)
                    },
                    None => false,
                };
                if is_latest && !emitted.contains_key(series.as_str()) {
                    let item: CompletionItem = new_item(
                        cat("~> ", series.as_str()),
                        CompletionItemKind::Value,
                        Some(cat3("Semver-compatible with ", series.as_str(), ".x")),
                    );
                    proof {
                        lemma_item_views_push(items@, item);
                        assert(item@ == tilde_item(series@));
                    }
                    items.push(item);
                    emitted.insert(series, ());
                }
                assert(emitted@.dom() =~= latest_of(all, i + 1).dom());
            },
            None => {},
        }
        let minimum: CompletionItem = new_item(
            cat(">= ", version),
            CompletionItemKind::Value,
            Some(cat("Minimum version ", version)),
        );
        proof {
            lemma_item_views_push(items@, minimum);
        }
        items.push(minimum);
        let exact: CompletionItem = new_item(
            version.to_owned(),
            CompletionItemKind::Value,
            detail_if_any(config),
        );
        proof {
            lemma_item_views_push(items@, exact);
        }
        items.push(exact);
        assert(item_views(items@) =~= item_views(before) + items_of_version(all, i as int, config@));
        i += 1;
    }
    items
}

/// The items whose label begins with the text typed so far.
pub open spec fn with_prefix(items: Seq<ItemView>, partial: Seq<char>) -> Seq<ItemView>
    decreases items.len(),
{
    if items.len() == 0 {
        Seq::empty()
    } else {
        let front = with_prefix(items.drop_last(), partial);
        if partial.is_prefix_of(items.last().label) {
            front.push(items.last())
        } else {
            front
        }
    }
}

/// The item, set up to replace a part of the line.
pub open spec fn placed(item: ItemView, first: bool, line: u32, start: u32, end: u32) -> ItemView {
    ItemView {
        preselect: first,
        text_edit: Some(EditView { line, start, end, new_text: item.insert_text }),
        ..item
    }
}

/// The list for a partial version: the items whose label begins with it, each
/// replacing the whole of it, the first one preselected.
pub open spec fn narrowed(
    items: Seq<ItemView>,
    partial: Seq<char>,
    line: u32,
    start: u32,
    end: u32,
) -> Seq<ItemView> {
    let kept = with_prefix(items, partial);
    Seq::new(kept.len(), |i: int| placed(kept[i], i == 0, line, start, end))
}

/// Narrows a list of items down to those whose label begins with the text
/// typed so far. Each replaces that text, which stands from byte `start` up to
/// byte `end` of the line, and the first one is preselected.
pub fn narrow(
    items: &Vec<CompletionItem>,
    partial: &str,
    line: u32,
    start: u32,
    end: u32,
) -> (r: Vec<CompletionItem>)
    ensures
        item_views(r@) == narrowed(item_views(items@), partial@, line, start, end),
{
    let mut out: Vec<CompletionItem> = Vec::new();
    let mut i: usize = 0;
    let ghost all = item_views(items@);
    assert(all.take(0) =~= Seq::<ItemView>::empty());
    while i < items.len()
        invariant
            i <= items.len(),
            all == item_views(items@),
            item_views(out@) =~= narrowed(all.take(i as int), partial@, line, start, end),
        decreases items.len() - i,
    {
        assert(all.take(i + 1).drop_last() =~= all.take(i as int));
        assert(all[i as int] == items@[i as int]@);
        if starts_with(items[i].label.as_str(), partial) {
            let item: CompletionItem = CompletionItem {
                label: items[i].label.clone(),
                kind: items[i].kind,
                detail: items[i].detail.clone(),
                insert_text: items[i].insert_text.clone(),
                preselect: out.len() == 0,
                text_edit: Some(TextEdit { line, start, end, new_text: items[i].insert_text.clone() }),
            };
            proof {
                lemma_item_views_push(out@, item);
            }
            out.push(item);
        }
        i += 1;
    }
    assert(all.take(items.len() as int) =~= all);
    out
}

/// Each version is offered as a minimum and as an exact version, and each
/// series once: the items are two for every version and one for every series.
pub proof fn law_items_per_version_and_series(versions: Seq<Seq<char>>, n: int, config: Seq<char>)
    requires
        0 <= n <= versions.len(),
    ensures
        version_items(versions, n, config).len() == 2 * n + distinct(
            all_series(versions.take(n)),
        ).len(),
    decreases n,
{
    if n > 0 {
        law_items_per_version_and_series(versions, n - 1, config);
        assert(versions.take(n).drop_last() =~= versions.take(n - 1));
        if series_of(versions[n - 1]) is Some {
            lemma_opens_series(versions, n - 1);
            let before = all_series(versions.take(n - 1));
            let key = series_of(versions[n - 1]).unwrap();
            assert(before.push(key).drop_last() =~= before);
        }
    } else {
        assert(versions.take(0) =~= Seq::<Seq<char>>::empty());
    }
}

/// For every version the list holds its minimum requirement and its exact pin,
/// and the requirement on its series if it has one.
pub proof fn law_every_version_is_offered(versions: Seq<Seq<char>>, config: Seq<char>, i: int)
    requires
        0 <= i < versions.len(),
    ensures
        ({
            let items = version_items(versions, versions.len() as int, config);
            &&& items.contains(minimum_item(versions[i]))
            &&& items.contains(exact_item(versions[i], config))
            &&& series_of(versions[i]) matches Some(key) ==> items.contains(tilde_item(key))
        }),
{
    lemma_version_items_contain(versions, versions.len() as int, config, i);
    let own = items_of_version(versions, i, config);
    let k = own.len() as int;
    assert(own[k - 2] == minimum_item(versions[i]));
    assert(own[k - 1] == exact_item(versions[i], config));
    if series_of(versions[i]) is Some {
        law_each_series_is_opened_once(versions, i);
        let j = choose|j: int|
            0 <= j <= i && #[trigger] opens_series(versions, j) && series_of(versions[j])
                == series_of(versions[i]);
        lemma_version_items_contain(versions, versions.len() as int, config, j);
        assert(items_of_version(versions, j, config)[0] == tilde_item(
            series_of(versions[i]).unwrap(),
        ));
    }
}

proof fn lemma_version_items_contain(
    versions: Seq<Seq<char>>,
    n: int,
    config: Seq<char>,
    i: int,
)
    requires
        0 <= i < n <= versions.len(),
    ensures
        forall|k: int|
            0 <= k < items_of_version(versions, i, config).len() ==> version_items(
                versions,
                n,
                config,
            ).contains(#[trigger] items_of_version(versions, i, config)[k]),
    decreases n,
{
    let own = items_of_version(versions, i, config);
    let all = version_items(versions, n, config);
    let front = version_items(versions, n - 1, config);
    assert forall|k: int| 0 <= k < own.len() implies all.contains(#[trigger] own[k]) by {
        if i == n - 1 {
            assert(all[front.len() + k] == own[k]);
        } else {
            lemma_version_items_contain(versions, n - 1, config, i);
            assert(front.contains(own[k]));
            let a = choose|a: int| 0 <= a < front.len() && front[a] == own[k];
            assert(all[a] == own[k]);
        }
    }
}

/// The completions cover at most the twenty latest releases.
pub proof fn law_version_list_is_bounded(data: Option<Json>)
    ensures
        offered_versions(data) matches Some(versions) ==> versions.len() <= RELEASE_LIMIT,
        version_completions(data).len() <= 3 * RELEASE_LIMIT,
{
    match offered_versions(data) {
        Some(versions) => {
            let n = versions.len() as int;
            law_items_per_version_and_series(versions, n, mix_config(data));
            lemma_distinct(all_series(versions.take(n)));
            lemma_all_series_len(versions.take(n));
        },
        None => {},
    }
}

proof fn lemma_all_series_len(versions: Seq<Seq<char>>)
    ensures
        all_series(versions).len() <= versions.len(),
    decreases versions.len(),
{
    if versions.len() > 0 {
        lemma_all_series_len(versions.drop_last());
    }
}

/// Every version item inserts what it shows.
pub proof fn law_version_items_insert_their_label(
    versions: Seq<Seq<char>>,
    n: int,
    config: Seq<char>,
    k: int,
)
    requires
        0 <= n <= versions.len(),
        0 <= k < version_items(versions, n, config).len(),
    ensures
        version_items(versions, n, config)[k].insert_text == version_items(
            versions,
            n,
            config,
        )[k].label,
    decreases n,
{
    if n > 0 {
        let front = version_items(versions, n - 1, config);
        if k < front.len() {
            law_version_items_insert_their_label(versions, n - 1, config, k);
        }
    }
}

/// A narrowed list holds the items whose label begins with the text typed so
/// far, all of them and no others. Each replaces exactly that text, and the
/// first one alone is preselected.
pub proof fn law_narrowing_keeps_what_matches(
    items: Seq<ItemView>,
    partial: Seq<char>,
    line: u32,
    start: u32,
    end: u32,
)
    ensures
        ({
            let kept = with_prefix(items, partial);
            let r = narrowed(items, partial, line, start, end);
            &&& r.len() == kept.len()
            &&& forall|item: ItemView| #[trigger]
                kept.contains(item) <==> items.contains(item) && partial.is_prefix_of(item.label)
            &&& forall|i: int|
                0 <= i < r.len() ==> {
                    let item = #[trigger] r[i];
                    &&& item.label == kept[i].label
                    &&& partial.is_prefix_of(item.label)
                    &&& item.preselect == (i == 0)
                    &&& item.text_edit == Some(
                        EditView { line, start, end, new_text: kept[i].insert_text },
                    )
                }
        }),
{
    let kept = with_prefix(items, partial);
    let r = narrowed(items, partial, line, start, end);
    assert forall|item: ItemView| #[trigger] kept.contains(item) <==> items.contains(item)
        && partial.is_prefix_of(item.label) by {
        lemma_with_prefix(items, partial, item);
    }
    assert forall|i: int| 0 <= i < r.len() implies partial.is_prefix_of((#[trigger] r[i]).label) by {
        assert(kept.contains(kept[i]));
    }
}

proof fn lemma_with_prefix(items: Seq<ItemView>, partial: Seq<char>, item: ItemView)
    ensures
        with_prefix(items, partial).contains(item) <==> items.contains(item)
            && partial.is_prefix_of(item.label),
    decreases items.len(),
{
    if items.len() > 0 {
        let front = items.drop_last();
        let kept = with_prefix(front, partial);
        lemma_with_prefix(front, partial, item);
        if with_prefix(items, partial).contains(item) {
            let a = choose|a: int|
                0 <= a < with_prefix(items, partial).len() && with_prefix(items, partial)[a] == item;
            if a < kept.len() {
                assert(kept[a] == item);
                let b = choose|b: int| 0 <= b < front.len() && front[b] == item;
                assert(items[b] == item);
            } else {
                assert(items[items.len() - 1] == item);
            }
        }
        if items.contains(item) && partial.is_prefix_of(item.label) {
            let b = choose|b: int| 0 <= b < items.len() && items[b] == item;
            if b < front.len() {
                assert(front[b] == item);
                let a = choose|a: int| 0 <= a < kept.len() && kept[a] == item;
                assert(with_prefix(items, partial)[a] == item);
            } else {
                assert(with_prefix(items, partial)[kept.len() as int] == item);
            }
        }
    }
}

/// Where nothing has been typed yet, every item is offered.
pub proof fn law_nothing_typed_keeps_all(items: Seq<ItemView>)
    ensures
        with_prefix(items, Seq::empty()) == items,
    decreases items.len(),
{
    if items.len() > 0 {
        law_nothing_typed_keeps_all(items.drop_last());
        assert(Seq::<char>::empty().is_prefix_of(items.last().label)) by {
            assert(items.last().label.subrange(0, 0) =~= Seq::<char>::empty());
        }
        assert(items.drop_last().push(items.last()) =~= items);
    }
}

/// A package item inserts the bare name that it shows, and its detail is a
/// description of at most a hundred characters, never an empty one.
pub proof fn law_package_items_are_short(pkg: Json)
    ensures
        package_item(pkg) matches Some(item) ==> {
            &&& text_of(field(pkg, "name"@)) == Some(item.label)
            &&& item.insert_text == item.label
            &&& item.detail matches Some(d) ==> 0 < d.len() <= DESCRIPTION_LIMIT && d.is_prefix_of(
                text_or_empty(field2(pkg, "meta"@, "description"@)),
            )
        },
{
    let d = text_or_empty(field2(pkg, "meta"@, "description"@));
    assert(cap(d, DESCRIPTION_LIMIT as int).is_prefix_of(d)) by {
        assert(d.take(d.len() as int) =~= d);
    }
}

/// Every package that the registry lists with a name is offered, and nothing
/// else.
pub proof fn law_named_packages_are_offered(packages: Seq<Json>)
    ensures
        package_items(packages).len() <= packages.len(),
        forall|item: ItemView| #[trigger]
            package_items(packages).contains(item) <==> exists|i: int|
                0 <= i < packages.len() && package_item(#[trigger] packages[i]) == Some(item),
    decreases packages.len(),
{
    if packages.len() > 0 {
        let front = packages.drop_last();
        let items = package_items(front);
        law_named_packages_are_offered(front);
        assert forall|item: ItemView| #[trigger]
            package_items(packages).contains(item) <==> exists|i: int|
                0 <= i < packages.len() && package_item(#[trigger] packages[i]) == Some(item) by {
            if package_items(packages).contains(item) {
                let a = choose|a: int|
                    0 <= a < package_items(packages).len() && package_items(packages)[a] == item;
                if a < items.len() {
                    assert(items[a] == item);
                    assert(items.contains(item));
                    let i = choose|i: int|
                        0 <= i < front.len() && package_item(#[trigger] front[i]) == Some(item);
                    assert(package_item(packages[i]) == Some(item));
                } else {
                    assert(package_item(packages[packages.len() - 1]) == Some(item));
                }
            }
            if exists|i: int|
                0 <= i < packages.len() && package_item(#[trigger] packages[i]) == Some(item) {
                let i = choose|i: int|
                    0 <= i < packages.len() && package_item(#[trigger] packages[i]) == Some(item);
                if i < front.len() {
                    assert(package_item(front[i]) == Some(item));
                    assert(items.contains(item));
                    let a = choose|a: int| 0 <= a < items.len() && items[a] == item;
                    assert(package_items(packages)[a] == item);
                } else {
                    assert(package_items(packages)[items.len() as int] == item);
                }
            }
        }
    }
}

/// Packages are offered in the registry's order: those listed first come first.
pub proof fn law_package_items_keep_the_order(first: Seq<Json>, more: Seq<Json>)
    ensures
        package_items(first + more) == package_items(first) + package_items(more),
    decreases more.len(),
{
    if more.len() == 0 {
        assert(first + more =~= first);
    } else {
        law_package_items_keep_the_order(first, more.drop_last());
        assert((first + more).drop_last() =~= first + more.drop_last());
    }
}

/// Narrowing keeps the items in their order.
pub proof fn law_narrowing_keeps_the_order(
    first: Seq<ItemView>,
    more: Seq<ItemView>,
    partial: Seq<char>,
)
    ensures
        with_prefix(first + more, partial) == with_prefix(first, partial) + with_prefix(
            more,
            partial,
        ),
    decreases more.len(),
{
    if more.len() == 0 {
        assert(first + more =~= first);
    } else {
        law_narrowing_keeps_the_order(first, more.drop_last(), partial);
        assert((first + more).drop_last() =~= first + more.drop_last());
    }
}

} // verus!
