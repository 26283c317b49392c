//! Sharing decoded PCM stores across sessions, keyed by source identity.
//!
//! A [`PcmCache`] maps a source key — typically a file path — to a
//! shared, reference-counted [`Pcm`] store, holding at most one store per
//! key. Decoding itself is the caller's collaborator: the caller looks a
//! key up, decodes only on a miss, and inserts the result, so the cache
//! never decodes the same source twice on its own account. Clearing the
//! cache drops only the cache's share of each store; sessions holding a
//! reference keep their store alive.

use std::sync::Arc;

use vstd::map::*;
use vstd::prelude::*;

use crate::pcm::Pcm;
use crate::pcm::PcmModel;

verus! {

/// No two entries carry the same key.
spec fn unique_keys<S>(s: Seq<(String, Arc<Pcm<S>>)>) -> bool {
    forall|i: int, j: int|
        0 <= i < s.len() && 0 <= j < s.len() && i != j ==> (#[trigger] s[i]).0@ != (
        #[trigger] s[j]).0@
}

/// Whether some entry carries key `k`.
spec fn has_key<S>(s: Seq<(String, Arc<Pcm<S>>)>, k: Seq<char>) -> bool {
    exists|i: int| 0 <= i < s.len() && (#[trigger] s[i]).0@ == k
}

/// The position of the entry carrying key `k`, where one exists.
spec fn key_index<S>(s: Seq<(String, Arc<Pcm<S>>)>, k: Seq<char>) -> int {
    choose|i: int| 0 <= i < s.len() && (#[trigger] s[i]).0@ == k
}

/// An entry that carries `k` at position `i` is the one `key_index`
/// names, keys being unique.
proof fn lemma_key_at<S>(s: Seq<(String, Arc<Pcm<S>>)>, k: Seq<char>, i: int)
    requires
        unique_keys(s),
        0 <= i < s.len(),
        s[i].0@ == k,
    ensures
        has_key(s, k),
        key_index(s, k) == i,
{
    assert(has_key(s, k));
    let j = key_index(s, k);
    assert(0 <= j < s.len() && s[j].0@ == k);
}

/// A mapping from source key to a shared decoded store, with at most one
/// store per key at any time.
///
/// The caller serializes access (the lookup-decode-insert sequence is the
/// caller's; no lock is held while decoding), so two concurrent first
/// requests for one key may both decode and the later insert simply
/// replaces the earlier store — a bounded duplicate cost, not corruption.
pub struct PcmCache<S> {
    entries: Vec<(String, Arc<Pcm<S>>)>,
}

impl<S> View for PcmCache<S> {
    type V = Map<Seq<char>, PcmModel<S>>;

    closed spec fn view(&self) -> Map<Seq<char>, PcmModel<S>> {
        Map::new(
            |k: Seq<char>| has_key(self.entries@, k),
            |k: Seq<char>| self.entries@[key_index(self.entries@, k)].1@,
        )
    }
}

impl<S> PcmCache<S> {
    /// Internal validity: entry keys are pairwise distinct.
    pub closed spec fn inv(self) -> bool {
        unique_keys(self.entries@)
    }

    /// An empty cache.
    pub fn new() -> (r: PcmCache<S>)
        ensures
            r.inv(),
            r@ == Map::<Seq<char>, PcmModel<S>>::empty(),
    {
        let r = PcmCache { entries: Vec::new() };
        proof {
            assert(r@ =~= Map::<Seq<char>, PcmModel<S>>::empty());
        }
        r
    }

    /// Looks `key` up: the stored share for a key that is present,
    /// nothing for one that is not. Never decodes.
    pub fn get(&self, key: &String) -> (r: Option<&Arc<Pcm<S>>>)
        requires
            self.inv(),
        ensures
            match r {
                Some(store) => self@.contains_key(key@) && store@ == self@[key@],
                None => !self@.contains_key(key@),
            },
    {
        let n = self.entries.len();
        let mut i: usize = 0;
        while i < n
            invariant
                self.inv(),
                n == self.entries@.len(),
                i <= n,
                forall|j: int| 0 <= j < i ==> (#[trigger] self.entries@[j]).0@ != key@,
            decreases n - i,
        {
            let entry = &self.entries[i];
            if key.eq(&entry.0) {
                proof {
                    lemma_key_at(self.entries@, key@, i as int);
                }
                return Some(&entry.1);
            }
            i = i + 1;
        }
        None
    }

    /// Binds `key` to `store`, replacing any store the key held before.
    #[verifier::loop_isolation(false)]
    pub fn insert(&mut self, key: String, store: Arc<Pcm<S>>)
        requires
            old(self).inv(),
        ensures
            final(self).inv(),
            final(self)@ == old(self)@.insert(key@, store@),
    {
        let ghost pre = self.entries@;
        let n = self.entries.len();
        let mut i: usize = 0;
        while i < n
            invariant
                self.inv(),
                self.entries@ == pre,
                n == pre.len(),
                i <= n,
                forall|j: int| 0 <= j < i ==> (#[trigger] pre[j]).0@ != key@,
            decreases n - i,
        {
            let entry = &self.entries[i];
            if key.eq(&entry.0) {
                proof {
                    lemma_key_at(pre, key@, i as int);
                }
                self.entries[i].1 = store;
                proof {
                    lemma_replaced(pre, self.entries@, key@, i as int);
                    let post = self.entries@;
                    assert_maps_equal!(self@, old(self)@.insert(key@, store@), k2 => {
                        assert(has_key(post, k2) <==> has_key(pre, k2));
                        if k2 == key@ {
                            assert(key_index(post, k2) == i);
                            assert(post[i as int].1 == store);
                            assert(self@.contains_key(k2));
                            assert(self@[k2] == post[i as int].1@);
                            assert(old(self)@.insert(key@, store@)[k2] == store@);
                        } else {
                            assert(self@.contains_key(k2) == has_key(post, k2));
                            assert(old(self)@.contains_key(k2) == has_key(pre, k2));
                            if has_key(pre, k2) {
                                assert(key_index(post, k2) == key_index(pre, k2)
                                    && post[key_index(post, k2)] == pre[key_index(pre, k2)]);
                                assert(self@[k2] == post[key_index(post, k2)].1@);
                                assert(old(self)@[k2] == pre[key_index(pre, k2)].1@);
                            }
                        }
                    });
                }
                return ;
            }
            i = i + 1;
        }
        self.entries.push((key, store));
        proof {
            lemma_appended(pre, self.entries@, key@);
            let post = self.entries@;
            assert_maps_equal!(self@, old(self)@.insert(key@, store@), k2 => {
                if k2 == key@ {
                    assert(has_key(post, k2) && key_index(post, k2) == pre.len());
                    assert(post[pre.len() as int].1 == store);
                } else {
                    assert(has_key(post, k2) <==> has_key(pre, k2));
                    if has_key(pre, k2) {
                        assert(key_index(post, k2) == key_index(pre, k2)
                            && post[key_index(post, k2)] == pre[key_index(pre, k2)]);
                    }
                }
            });
        }
    }

    /// Removes every entry, releasing the cache's share of each store.
    pub fn clear(&mut self)
        ensures
            final(self).inv(),
            final(self)@ == Map::<Seq<char>, PcmModel<S>>::empty(),
    {
        self.entries.clear();
        proof {
            assert(self@ =~= Map::<Seq<char>, PcmModel<S>>::empty());
        }
    }
}

/// Replacing the store at the position of key `k` keeps keys unique and
/// leaves every other key's lookup unchanged.
proof fn lemma_replaced<S>(
    pre: Seq<(String, Arc<Pcm<S>>)>,
    post: Seq<(String, Arc<Pcm<S>>)>,
    k: Seq<char>,
    i: int,
)
    requires
        unique_keys(pre),
        0 <= i < pre.len(),
        pre[i].0@ == k,
        post.len() == pre.len(),
        post[i].0@ == k,
        forall|j: int| 0 <= j < pre.len() && j != i ==> post[j] == pre[j],
    ensures
        unique_keys(post),
        forall|k2: Seq<char>| has_key(post, k2) <==> has_key(pre, k2),
        has_key(post, k) && key_index(post, k) == i,
        forall|k2: Seq<char>|
            has_key(pre, k2) && k2 != k ==> #[trigger] key_index(post, k2) == key_index(pre, k2)
                && post[key_index(post, k2)] == pre[key_index(pre, k2)],
{
    assert forall|a: int, b: int|
        0 <= a < post.len() && 0 <= b < post.len() && a != b implies (#[trigger] post[a]).0@ != (
    #[trigger] post[b]).0@ by {
        assert(post[a].0@ == pre[a].0@);
        assert(post[b].0@ == pre[b].0@);
    }
    assert forall|k2: Seq<char>| has_key(post, k2) implies has_key(pre, k2) by {
        let j = choose|j: int| 0 <= j < post.len() && (#[trigger] post[j]).0@ == k2;
        assert(pre[j].0@ == k2);
    }
    assert forall|k2: Seq<char>| has_key(pre, k2) implies has_key(post, k2) by {
        let j = choose|j: int| 0 <= j < pre.len() && (#[trigger] pre[j]).0@ == k2;
        assert(post[j].0@ == k2);
    }
    lemma_key_at(post, k, i);
    assert forall|k2: Seq<char>| has_key(pre, k2) && k2 != k implies #[trigger] key_index(post, k2)
        == key_index(pre, k2) && post[key_index(post, k2)] == pre[key_index(pre, k2)] by {
        let j = key_index(pre, k2);
        assert(0 <= j < pre.len() && pre[j].0@ == k2);
        assert(j != i);
        assert(post[j].0@ == k2);
        lemma_key_at(post, k2, j);
    }
}

/// Appending an entry with a fresh key keeps keys unique, adds that key,
/// and leaves every other key's lookup unchanged.
proof fn lemma_appended<S>(
    pre: Seq<(String, Arc<Pcm<S>>)>,
    post: Seq<(String, Arc<Pcm<S>>)>,
    k: Seq<char>,
)
    requires
        unique_keys(pre),
        forall|j: int| 0 <= j < pre.len() ==> (#[trigger] pre[j]).0@ != k,
        post.len() == pre.len() + 1,
        post[pre.len() as int].0@ == k,
        forall|j: int| 0 <= j < pre.len() ==> post[j] == pre[j],
    ensures
        unique_keys(post),
        has_key(post, k) && key_index(post, k) == pre.len(),
        forall|k2: Seq<char>| k2 != k ==> (has_key(post, k2) <==> has_key(pre, k2)),
        forall|k2: Seq<char>|
            has_key(pre, k2) && k2 != k ==> #[trigger] key_index(post, k2) == key_index(pre, k2)
                && post[key_index(post, k2)] == pre[key_index(pre, k2)],
{
    let n = pre.len() as int;
    assert forall|a: int, b: int|
        0 <= a < post.len() && 0 <= b < post.len() && a != b implies (#[trigger] post[a]).0@ != (
    #[trigger] post[b]).0@ by {
        if a < n && b < n {
            assert(post[a] == pre[a]);
            assert(post[b] == pre[b]);
        } else if a < n {
            assert(post[a] == pre[a]);
            assert(post[b].0@ == k);
        } else {
            assert(post[b] == pre[b]);
            assert(post[a].0@ == k);
        }
    }
    lemma_key_at(post, k, n);
    assert forall|k2: Seq<char>| k2 != k && has_key(post, k2) implies has_key(pre, k2) by {
        let j = choose|j: int| 0 <= j < post.len() && (#[trigger] post[j]).0@ == k2;
        assert(j != n);
        assert(pre[j].0@ == k2);
    }
    assert forall|k2: Seq<char>| k2 != k && has_key(pre, k2) implies has_key(post, k2) by {
        let j = choose|j: int| 0 <= j < pre.len() && (#[trigger] pre[j]).0@ == k2;
        assert(post[j].0@ == k2);
    }
    assert forall|k2: Seq<char>| has_key(pre, k2) && k2 != k implies #[trigger] key_index(post, k2)
        == key_index(pre, k2) && post[key_index(post, k2)] == pre[key_index(pre, k2)] by {
        let j = key_index(pre, k2);
        assert(0 <= j < pre.len() && pre[j].0@ == k2);
        assert(post[j].0@ == k2);
        lemma_key_at(post, k2, j);
    }
}

} // verus!
