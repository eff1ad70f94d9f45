//! Release versions and the minor series they belong to.

use crate::json::{as_text, field, text_of, Json};
use crate::lists::{cap, distinct, holds, lemma_distinct, lemma_texts_push, text_map, texts};
use crate::text::{chars_of, find, find_char, lemma_find_char, same_text};
use vstd::hash_map::StringHashMap;
use vstd::prelude::*;
use vstd::string::*;

verus! {

/// The minor series `X.Y` of a version such as `1.7.3`: what stands in front
/// of the second dot, if there is a first one.
pub open spec fn series_of(v: Seq<char>) -> Option<Seq<char>> {
    let dot = find_char(v, '.', 0);
    if dot < v.len() {
        Some(v.take(find_char(v, '.', dot + 1)))
    } else {
        None
    }
}

/// The versions of a list of releases, in order. A release without a version
/// string is passed over.
pub open spec fn versions_of(releases: Seq<Json>) -> Seq<Seq<char>>
    decreases releases.len(),
{
    if releases.len() == 0 {
        Seq::empty()
    } else {
        let front = versions_of(releases.drop_last());
        match text_of(field(releases.last(), "version"@)) {
            Some(v) => front.push(v),
            None => front,
        }
    }
}

/// The version at `i` is the first of its series.
pub open spec fn opens_series(versions: Seq<Seq<char>>, i: int) -> bool {
    &&& series_of(versions[i]) is Some
    &&& forall|j: int| 0 <= j < i ==> series_of(#[trigger] versions[j]) != series_of(versions[i])
}

/// The minor series "X.Y" of a version string such as "1.7.3", or `None` if
/// the version does not have two parts.
pub fn minor_key(version: &str) -> (r: Option<String>)
    ensures
        match r {
            Some(key) => series_of(version@) == Some(key@),
            None => series_of(version@) is None,
        },
{
    let t: Vec<char> = chars_of(version);
    let dot: usize = find(&t, '.', 0);
    if dot == t.len() {
        return None;
    }
    let end: usize = find(&t, '.', dot + 1);
    assert(version@.subrange(0, end as int) =~= version@.take(end as int));
    Some(version.substring_char(0, end).to_owned())
}

/// The first `limit` versions of a list of releases.
pub fn release_versions(releases: &Vec<Json>, limit: usize) -> (r: Vec<String>)
    ensures
        texts(r@) == cap(versions_of(releases@), limit as int),
{
    let mut out: Vec<String> = Vec::new();
    let mut i: usize = 0;
    assert(texts(out@) =~= Seq::<Seq<char>>::empty());
    assert(releases@.take(0) =~= Seq::<Json>::empty());
    while i < releases.len()
        invariant
            i <= releases.len(),
            texts(out@) == cap(versions_of(releases@.take(i as int)), limit as int),
        decreases releases.len() - i,
    {
        let ghost before = versions_of(releases@.take(i as int));
        assert(releases@.take(i + 1).drop_last() =~= releases@.take(i as int));
        match as_text(releases[i].get("version")) {
            Some(v) => {
                if out.len() < limit {
                    let v: String = v.to_owned();
                    proof {
                        lemma_texts_push(out@, v);
                    }
                    out.push(v);
                } else {
                    assert(before.push(v@).take(limit as int) =~= cap(before, limit as int));
                }
            },
            None => {},
        }
        i += 1;
    }
    assert(releases@.take(releases.len() as int) =~= releases@);
    out
}

/// A release has one version at most.
proof fn lemma_versions_of_len(releases: Seq<Json>)
    ensures
        versions_of(releases).len() <= releases.len(),
    decreases releases.len(),
{
    if releases.len() > 0 {
        lemma_versions_of_len(releases.drop_last());
    }
}

/// The versions of a list of releases.
pub fn all_versions(releases: &Vec<Json>) -> (r: Vec<String>)
    ensures
        texts(r@) == versions_of(releases@),
{
    proof {
        lemma_versions_of_len(releases@);
    }
    release_versions(releases, releases.len())
}

/// The series of the versions, in order, with repetitions. A version that
/// belongs to none is passed over.
pub open spec fn all_series(versions: Seq<Seq<char>>) -> Seq<Seq<char>>
    decreases versions.len(),
{
    if versions.len() == 0 {
        Seq::empty()
    } else {
        let front = all_series(versions.drop_last());
        match series_of(versions.last()) {
            Some(key) => front.push(key),
            None => front,
        }
    }
}

/// The versions that belong to a series, in order.
pub open spec fn members(versions: Seq<Seq<char>>, key: Seq<char>) -> Seq<Seq<char>>
    decreases versions.len(),
{
    if versions.len() == 0 {
        Seq::empty()
    } else {
        let front = members(versions.drop_last(), key);
        if series_of(versions.last()) == Some(key) {
            front.push(versions.last())
        } else {
            front
        }
    }
}

/// The series of the versions, each once, in the order in which they first
/// occur.
pub fn minor_series(versions: &Vec<String>) -> (r: Vec<String>)
    ensures
        texts(r@) == distinct(all_series(texts(versions@))),
{
    let mut out: Vec<String> = Vec::new();
    let mut i: usize = 0;
    let ghost all = texts(versions@);
    assert(texts(out@) =~= Seq::<Seq<char>>::empty());
    assert(all.take(0) =~= Seq::<Seq<char>>::empty());
    while i < versions.len()
        invariant
            i <= versions.len(),
            all == texts(versions@),
            texts(out@) == distinct(all_series(all.take(i as int))),
        decreases versions.len() - i,
    {
        let ghost before = all_series(all.take(i as int));
        assert(all.take(i + 1).drop_last() =~= all.take(i as int));
        assert(all[i as int] == versions@[i as int]@);
        match minor_key(versions[i].as_str()) {
            Some(key) => {
                assert(before.push(key@).drop_last() =~= before);
                if !holds(&out, key.as_str()) {
                    proof {
                        lemma_texts_push(out@, key);
                    }
                    out.push(key);
                }
            },
            None => {},
        }
        i += 1;
    }
    assert(all.take(all.len() as int) =~= all);
    out
}

/// The versions that belong to a series, in order.
pub fn series_members(versions: &Vec<String>, key: &str) -> (r: Vec<String>)
    ensures
        texts(r@) == members(texts(versions@), key@),
{
    let mut out: Vec<String> = Vec::new();
    let mut i: usize = 0;
    let ghost all = texts(versions@);
    assert(texts(out@) =~= Seq::<Seq<char>>::empty());
    assert(all.take(0) =~= Seq::<Seq<char>>::empty());
    while i < versions.len()
        invariant
            i <= versions.len(),
            all == texts(versions@),
            texts(out@) == members(all.take(i as int), key@),
        decreases versions.len() - i,
    {
        assert(all.take(i + 1).drop_last() =~= all.take(i as int));
        assert(all[i as int] == versions@[i as int]@);
        match minor_key(versions[i].as_str()) {
            Some(own) => {
                if same_text(own.as_str(), key) {
                    let v: String = versions[i].clone();
                    proof {
                        lemma_texts_push(out@, v);
                    }
                    out.push(v);
                }
            },
            None => {},
        }
        i += 1;
    }
    assert(all.take(all.len() as int) =~= all);
    out
}

/// The series among the first `n` versions, each with its first version.
pub open spec fn latest_of(versions: Seq<Seq<char>>, n: int) -> Map<Seq<char>, Seq<char>>
    decreases n,
{
    if n <= 0 {
        Map::empty()
    } else {
        let m = latest_of(versions, n - 1);
        match series_of(versions[n - 1]) {
            Some(key) => if m.contains_key(key) {
                m
            } else {
                m.insert(key, versions[n - 1])
            },
            None => m,
        }
    }
}

/// The latest version of each series. The versions are listed newest first, so
/// it is the first one.
pub fn latest_patch_for_minor(versions: &Vec<String>) -> (r: StringHashMap<String>)
    ensures
        text_map(r@) == latest_of(texts(versions@), versions.len() as int),
{
    let mut m: StringHashMap<String> = StringHashMap::new();
    let mut i: usize = 0;
    assert(text_map(m@) =~= Map::<Seq<char>, Seq<char>>::empty());
    while i < versions.len()
        invariant
            i <= versions.len(),
            text_map(m@) == latest_of(texts(versions@), i as int),
        decreases versions.len() - i,
    {
        assert(texts(versions@)[i as int] == versions@[i as int]@);
        match minor_key(versions[i].as_str()) {
            Some(key) => {
                if !m.contains_key(key.as_str()) {
                    assert(text_map(m@.insert(key@, versions@[i as int])) =~= text_map(m@).insert(
                        key@,
                        versions@[i as int]@,
                    ));
                    m.insert(key, versions[i].clone());
                }
            },
            None => {},
        }
        i += 1;
    }
    m
}

/// The latest version of a series is the first one of it.
pub proof fn lemma_latest_of(versions: Seq<Seq<char>>, n: int, i: int)
    requires
        0 <= i < n <= versions.len(),
        opens_series(versions, i),
    ensures
        latest_of(versions, n).contains_key(series_of(versions[i]).unwrap()),
        latest_of(versions, n)[series_of(versions[i]).unwrap()] == versions[i],
    decreases n,
{
    let key = series_of(versions[i]).unwrap();
    if n == i + 1 {
        lemma_latest_of_keys(versions, i, key);
    } else {
        lemma_latest_of(versions, n - 1, i);
    }
}

/// The series that have a latest version are those of the versions.
pub proof fn lemma_latest_of_keys(versions: Seq<Seq<char>>, n: int, key: Seq<char>)
    requires
        0 <= n <= versions.len(),
    ensures
        latest_of(versions, n).contains_key(key) <==> exists|j: int|
            0 <= j < n && series_of(#[trigger] versions[j]) == Some(key),
    decreases n,
{
    if n > 0 {
        lemma_latest_of_keys(versions, n - 1, key);
        assert(versions[n - 1] == versions[n - 1]);
    }
}

/// A version has a series if and only if it has a dot. The series is the
/// version itself or what stands in front of its second dot.
pub proof fn law_series_is_major_and_minor(v: Seq<char>)
    ensures
        series_of(v) is Some <==> v.contains('.'),
        series_of(v) matches Some(key) ==> {
            &&& key.is_prefix_of(v)
            &&& key.len() < v.len() ==> v[key.len() as int] == '.'
            &&& exists|d: int|
                0 <= d < key.len() && key[d] == '.' && forall|i: int|
                    0 <= i < key.len() && i != d ==> #[trigger] key[i] != '.'
        },
{
    let dot = find_char(v, '.', 0);
    lemma_find_char(v, '.', 0);
    if dot < v.len() {
        assert(v[dot] == '.');
        let end = find_char(v, '.', dot + 1);
        lemma_find_char(v, '.', dot + 1);
        let key = v.take(end);
        assert(key[dot] == '.');
        assert forall|i: int| 0 <= i < key.len() && i != dot implies #[trigger] key[i] != '.' by {
            assert(key[i] == v[i]);
        }
    }
}

/// Every version that has a series belongs to exactly one of the listed series,
/// which are listed once each. The members of a series are the versions that
/// have it, and no others.
pub proof fn law_versions_are_grouped_by_series(versions: Seq<Seq<char>>)
    ensures
        distinct(all_series(versions)).no_duplicates(),
        forall|i: int|
            0 <= i < versions.len() && series_of(#[trigger] versions[i]) is Some ==> distinct(
                all_series(versions),
            ).contains(series_of(versions[i]).unwrap()) && members(
                versions,
                series_of(versions[i]).unwrap(),
            ).contains(versions[i]),
        forall|key: Seq<char>, v: Seq<char>| #[trigger]
            members(versions, key).contains(v) ==> versions.contains(v) && series_of(v) == Some(
                key,
            ),
        forall|key: Seq<char>| #[trigger]
            distinct(all_series(versions)).contains(key) ==> members(versions, key).len() > 0,
{
    lemma_distinct(all_series(versions));
    assert forall|i: int|
        0 <= i < versions.len() && series_of(#[trigger] versions[i]) is Some implies distinct(
        all_series(versions),
    ).contains(series_of(versions[i]).unwrap()) && members(
        versions,
        series_of(versions[i]).unwrap(),
    ).contains(versions[i]) by {
        lemma_member(versions, i);
    }
    assert forall|key: Seq<char>, v: Seq<char>| #[trigger]
        members(versions, key).contains(v) implies versions.contains(v) && series_of(v) == Some(
        key,
    ) by {
        lemma_members_have_the_series(versions, key, v);
    }
    assert forall|key: Seq<char>| #[trigger]
        distinct(all_series(versions)).contains(key) implies members(versions, key).len() > 0 by {
        let i = lemma_series_has_a_version(versions, key);
        lemma_member(versions, i);
    }
}

proof fn lemma_member(versions: Seq<Seq<char>>, i: int)
    requires
        0 <= i < versions.len(),
        series_of(versions[i]) is Some,
    ensures
        all_series(versions).contains(series_of(versions[i]).unwrap()),
        members(versions, series_of(versions[i]).unwrap()).contains(versions[i]),
    decreases versions.len(),
{
    let key = series_of(versions[i]).unwrap();
    let front = versions.drop_last();
    if i < versions.len() - 1 {
        assert(front[i] == versions[i]);
        lemma_member(front, i);
        let a = choose|a: int| 0 <= a < all_series(front).len() && all_series(front)[a] == key;
        assert(all_series(versions)[a] == key);
        let b = choose|b: int|
            0 <= b < members(front, key).len() && members(front, key)[b] == versions[i];
        assert(members(versions, key)[b] == versions[i]);
    } else {
        assert(all_series(versions)[all_series(front).len() as int] == key);
        assert(members(versions, key)[members(front, key).len() as int] == versions[i]);
    }
}

proof fn lemma_members_have_the_series(versions: Seq<Seq<char>>, key: Seq<char>, v: Seq<char>)
    requires
        members(versions, key).contains(v),
    ensures
        versions.contains(v),
        series_of(v) == Some(key),
    decreases versions.len(),
{
    if versions.len() > 0 {
        let front = versions.drop_last();
        let b = choose|b: int|
            0 <= b < members(versions, key).len() && members(versions, key)[b] == v;
        if b < members(front, key).len() {
            assert(members(front, key)[b] == v);
            lemma_members_have_the_series(front, key, v);
            let i = choose|i: int| 0 <= i < front.len() && front[i] == v;
            assert(versions[i] == v);
        } else {
            assert(versions[versions.len() - 1] == v);
        }
    }
}

proof fn lemma_series_has_a_version(versions: Seq<Seq<char>>, key: Seq<char>) -> (i: int)
    requires
        all_series(versions).contains(key),
    ensures
        0 <= i < versions.len(),
        series_of(versions[i]) == Some(key),
    decreases versions.len(),
{
    let front = versions.drop_last();
    let a = choose|a: int| 0 <= a < all_series(versions).len() && all_series(versions)[a] == key;
    if versions.len() > 0 && a < all_series(front).len() {
        assert(all_series(front)[a] == key);
        lemma_series_has_a_version(front, key)
    } else {
        versions.len() - 1
    }
}

/// Of the versions of a series exactly one comes first, and it is the one that
/// counts as the latest.
pub proof fn law_each_series_is_opened_once(versions: Seq<Seq<char>>, i: int)
    requires
        0 <= i < versions.len(),
        series_of(versions[i]) is Some,
    ensures
        exists|j: int|
            0 <= j <= i && #[trigger] opens_series(versions, j) && series_of(versions[j])
                == series_of(versions[i]) && latest_of(
                versions,
                versions.len() as int,
            )[series_of(versions[i]).unwrap()] == versions[j],
        forall|j: int, k: int|
            0 <= j < versions.len() && 0 <= k < versions.len() && #[trigger] opens_series(
                versions,
                j,
            ) && #[trigger] opens_series(versions, k) && series_of(versions[j]) == series_of(
                versions[k],
            ) ==> j == k,
    decreases i,
{
    if opens_series(versions, i) {
        lemma_latest_of(versions, versions.len() as int, i);
    } else {
        let j = choose|j: int|
            0 <= j < i && series_of(#[trigger] versions[j]) == series_of(versions[i]);
        law_each_series_is_opened_once(versions, j);
    }
    assert forall|j: int, k: int|
        0 <= j < versions.len() && 0 <= k < versions.len() && #[trigger] opens_series(versions, j)
            && #[trigger] opens_series(versions, k) && series_of(versions[j]) == series_of(
            versions[k],
        ) implies j == k by {
        if j < k {
            assert(series_of(versions[j]) != series_of(versions[k]));
        } else if k < j {
            assert(series_of(versions[k]) != series_of(versions[j]));
        }
    }
}

/// The version at `i` opens its series if and only if none before it has it.
pub proof fn lemma_opens_series(versions: Seq<Seq<char>>, i: int)
    requires
        0 <= i < versions.len(),
        series_of(versions[i]) is Some,
    ensures
        opens_series(versions, i) <==> !distinct(all_series(versions.take(i))).contains(
            series_of(versions[i]).unwrap(),
        ),
{
    let key = series_of(versions[i]).unwrap();
    let front = versions.take(i);
    lemma_distinct(all_series(front));
    if distinct(all_series(front)).contains(key) {
        let j = lemma_series_has_a_version(front, key);
        assert(versions[j] == front[j]);
    }
    if !opens_series(versions, i) {
        let j = choose|j: int|
            0 <= j < i && series_of(#[trigger] versions[j]) == series_of(versions[i]);
        assert(front[j] == versions[j]);
        lemma_member(front, j);
    }
}

} // verus!
