//! What the server remembers: the open documents and the registry's answers.

use crate::json::Json;
use crate::lists::text_map;
use vstd::hash_map::StringHashMap;
use vstd::prelude::*;

verus! {

/// How long an answer of the registry is good for, in nanoseconds: five
/// minutes.
pub const CACHE_TTL: u128 = 300_000_000_000;

/// An answer of the registry and the time at which it came, in nanoseconds.
pub struct CacheEntry {
    pub stored_at: u128,
    pub value: Json,
}

/// The open documents by their addresses, and the registry's answers by the
/// addresses they were fetched from.
pub struct ServerState {
    documents: StringHashMap<String>,
    cache: StringHashMap<CacheEntry>,
}

/// A `ServerState` as maps.
pub struct StateView {
    /// Address to document text.
    pub documents: Map<Seq<char>, Seq<char>>,
    /// Address to answer.
    pub cache: Map<Seq<char>, CacheEntry>,
}

impl View for ServerState {
    type V = StateView;

    closed spec fn view(&self) -> StateView {
        StateView { documents: text_map(self.documents@), cache: self.cache@ }
    }
}

/// How old something is that was stored at one time and is looked at at
/// another. A clock that went backwards counts as no time at all.
pub open spec fn age(stored_at: u128, now: u128) -> int {
    if stored_at <= now {
        now - stored_at
    } else {
        0
    }
}

/// The answer that the cache gives for an address: the stored one, as long as
/// it is good.
pub open spec fn fresh(cache: Map<Seq<char>, CacheEntry>, url: Seq<char>, now: u128) -> Option<Json> {
    if cache.contains_key(url) && age(cache[url].stored_at, now) < CACHE_TTL {
        Some(cache[url].value)
    } else {
        None
    }
}

impl ServerState {
    /// A server that remembers nothing yet.
    pub fn new() -> (r: Self)
        ensures
            r@ == (StateView { documents: Map::empty(), cache: Map::empty() }),
    {
        let r = ServerState { documents: StringHashMap::new(), cache: StringHashMap::new() };
        assert(text_map(r.documents@) =~= Map::<Seq<char>, Seq<char>>::empty());
        r
    }

    /// The answer that is stored for an address, as long as it is good.
    pub fn get_cached(&self, url: &str, now: u128) -> (r: Option<&Json>)
        ensures
            match r {
                Some(val) => fresh(self@.cache, url@, now) == Some(*val),
                None => fresh(self@.cache, url@, now) is None,
            },
    {
        match self.cache.get(url) {
            Some(entry) => {
                let elapsed: u128 = if entry.stored_at <= now {
                    now - entry.stored_at
                } else {
                    0
                };
                if elapsed < CACHE_TTL {
                    Some(&entry.value)
                } else {
                    None
                }
            },
            None => None,
        }
    }

    /// Stores an answer.
    pub fn insert_cache(&mut self, url: String, val: Json, now: u128)
        ensures
            final(self)@.documents == old(self)@.documents,
            final(self)@.cache == old(self)@.cache.insert(
                url@,
                (CacheEntry { stored_at: now, value: val }),
            ),
    {
        self.cache.insert(url, CacheEntry { stored_at: now, value: val });
    }

    /// The text of an open document.
    pub fn document(&self, uri: &str) -> (r: Option<&str>)
        ensures
            match r {
                Some(text) => self@.documents.contains_key(uri@) && self@.documents[uri@] == text@,
                None => !self@.documents.contains_key(uri@),
            },
    {
        match self.documents.get(uri) {
            Some(text) => {
                assert(text_map(self.documents@)[uri@] == text@);
                Some(text.as_str())
            },
            None => {
                assert(!text_map(self.documents@).contains_key(uri@));
                None
            },
        }
    }

    /// Remembers the text of a document.
    pub fn set_document(&mut self, uri: String, text: String)
        ensures
            final(self)@.cache == old(self)@.cache,
            final(self)@.documents == old(self)@.documents.insert(uri@, text@),
    {
        let ghost before = self.documents@;
        let ghost key = uri@;
        self.documents.insert(uri, text);
        assert(text_map(before.insert(key, text)) =~= text_map(before).insert(key, text@));
    }

    /// Forgets a document.
    pub fn remove_document(&mut self, uri: &str)
        ensures
            final(self)@.cache == old(self)@.cache,
            final(self)@.documents == old(self)@.documents.remove(uri@),
    {
        let ghost before = self.documents@;
        self.documents.remove(uri);
        assert(text_map(before.remove(uri@)) =~= text_map(before).remove(uri@));
    }
}

/// What was stored for an address is what the cache gives for it, for five
/// minutes and no longer. For every other address nothing changes.
pub proof fn law_cache_gives_back_what_was_stored(
    cache: Map<Seq<char>, CacheEntry>,
    url: Seq<char>,
    stored_at: u128,
    value: Json,
    other: Seq<char>,
    now: u128,
)
    ensures
        ({
            let after = cache.insert(url, CacheEntry { stored_at, value });
            &&& fresh(after, url, now) == (if age(stored_at, now) < CACHE_TTL {
                Some(value)
            } else {
                None
            })
            &&& other != url ==> fresh(after, other, now) == fresh(cache, other, now)
        }),
{
}

/// What came of fetching an address: the answer, or nothing where the fetch
/// failed, and when it came.
pub struct Fetched {
    pub url: Seq<char>,
    pub data: Option<Json>,
    pub at: u128,
}

/// The cache after a fetch. A failed one changes nothing.
pub open spec fn after_fetch(cache: Map<Seq<char>, CacheEntry>, f: Fetched) -> Map<
    Seq<char>,
    CacheEntry,
> {
    match f.data {
        Some(value) => cache.insert(f.url, CacheEntry { stored_at: f.at, value }),
        None => cache,
    }
}

/// The cache after some fetches, one after the other.
pub open spec fn after_fetches(cache: Map<Seq<char>, CacheEntry>, fetches: Seq<Fetched>) -> Map<
    Seq<char>,
    CacheEntry,
>
    decreases fetches.len(),
{
    if fetches.len() == 0 {
        cache
    } else {
        after_fetch(after_fetches(cache, fetches.drop_last()), fetches.last())
    }
}

/// The fetch at `i` is the last one that brought an answer from its address.
pub open spec fn brought_last(fetches: Seq<Fetched>, i: int) -> bool {
    &&& 0 <= i < fetches.len()
    &&& fetches[i].data is Some
    &&& forall|j: int|
        i < j < fetches.len() && (#[trigger] fetches[j]).url == fetches[i].url
            ==> fetches[j].data is None
}

/// After any number of fetches the cache holds, for every address, the last
/// answer that came from it, and gives it for five minutes from then. A fetch
/// that failed takes nothing away and stops no other: an address from which no
/// answer came, or that was not fetched at all, keeps what it had.
pub proof fn law_cache_holds_the_last_answers(
    cache: Map<Seq<char>, CacheEntry>,
    fetches: Seq<Fetched>,
)
    ensures
        forall|i: int| #[trigger]
            brought_last(fetches, i) ==> {
                &&& after_fetches(cache, fetches).contains_key(fetches[i].url)
                &&& after_fetches(cache, fetches)[fetches[i].url] == (CacheEntry {
                    stored_at: fetches[i].at,
                    value: fetches[i].data.unwrap(),
                })
            },
        forall|i: int, now: u128|
            brought_last(fetches, i) ==> #[trigger] fresh(
                after_fetches(cache, fetches),
                fetches[i].url,
                now,
            ) == (if age(fetches[i].at, now) < CACHE_TTL {
                Some(fetches[i].data.unwrap())
            } else {
                None
            }),
        forall|url: Seq<char>|
            (forall|j: int|
                0 <= j < fetches.len() && (#[trigger] fetches[j]).url == url
                    ==> fetches[j].data is None) ==> {
                &&& #[trigger] after_fetches(cache, fetches).contains_key(url)
                    == cache.contains_key(url)
                &&& cache.contains_key(url) ==> after_fetches(cache, fetches)[url] == cache[url]
            },
{
    assert forall|i: int| #[trigger] brought_last(fetches, i) implies {
        &&& after_fetches(cache, fetches).contains_key(fetches[i].url)
        &&& after_fetches(cache, fetches)[fetches[i].url] == (CacheEntry {
            stored_at: fetches[i].at,
            value: fetches[i].data.unwrap(),
        })
    } by {
        lemma_last_answer(cache, fetches, i);
    }
    assert forall|i: int, now: u128| brought_last(fetches, i) implies #[trigger] fresh(
        after_fetches(cache, fetches),
        fetches[i].url,
        now,
    ) == (if age(fetches[i].at, now) < CACHE_TTL {
        Some(fetches[i].data.unwrap())
    } else {
        None
    }) by {
        lemma_last_answer(cache, fetches, i);
    }
    assert forall|url: Seq<char>|
        (forall|j: int|
            0 <= j < fetches.len() && (#[trigger] fetches[j]).url == url
                ==> fetches[j].data is None) implies {
        &&& #[trigger] after_fetches(cache, fetches).contains_key(url) == cache.contains_key(url)
        &&& cache.contains_key(url) ==> after_fetches(cache, fetches)[url] == cache[url]
    } by {
        lemma_no_answer(cache, fetches, url);
    }
}

proof fn lemma_last_answer(cache: Map<Seq<char>, CacheEntry>, fetches: Seq<Fetched>, i: int)
    requires
        brought_last(fetches, i),
    ensures
        after_fetches(cache, fetches).contains_key(fetches[i].url),
        after_fetches(cache, fetches)[fetches[i].url] == (CacheEntry {
            stored_at: fetches[i].at,
            value: fetches[i].data.unwrap(),
        }),
    decreases fetches.len(),
{
    if i < fetches.len() - 1 {
        let front = fetches.drop_last();
        assert forall|j: int|
            i < j < front.len() && (#[trigger] front[j]).url
                == front[i].url implies front[j].data is None by {
            assert(fetches[j].url == fetches[i].url);
        }
        lemma_last_answer(cache, front, i);
        let last = fetches[fetches.len() - 1];
        assert(last.url == fetches[i].url ==> last.data is None);
    }
}

proof fn lemma_no_answer(
    cache: Map<Seq<char>, CacheEntry>,
    fetches: Seq<Fetched>,
    url: Seq<char>,
)
    requires
        forall|j: int|
            0 <= j < fetches.len() && (#[trigger] fetches[j]).url == url
                ==> fetches[j].data is None,
    ensures
        after_fetches(cache, fetches).contains_key(url) == cache.contains_key(url),
        cache.contains_key(url) ==> after_fetches(cache, fetches)[url] == cache[url],
    decreases fetches.len(),
{
    if fetches.len() > 0 {
        let front = fetches.drop_last();
        assert forall|j: int|
            0 <= j < front.len() && (#[trigger] front[j]).url
                == url implies front[j].data is None by {
            assert(fetches[j].url == url);
        }
        lemma_no_answer(cache, front, url);
        let last = fetches[fetches.len() - 1];
        assert(last.url == url ==> last.data is None);
    }
}

} // verus!
