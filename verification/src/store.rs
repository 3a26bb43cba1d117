//! The keyed map of sessions: one session per key, created on first
//! reference, with get-or-create semantics.
//!
//! The store itself is sequential value-level logic; the surrounding
//! program serialises access to it (and to each session) with whatever
//! locking its concurrency model calls for, so that commands against one
//! key are applied one at a time.

use vstd::prelude::*;
use vstd::pervasive::VecAdditionalExecFns;

use crate::game::Game;
use crate::game::GameError;
use crate::game::Player;
use crate::game::callback_post;
use crate::game::token_view;

verus! {

/// One session filed under its key.
pub struct StoreEntry {
    pub key: Vec<u8>,
    pub game: Game,
}

/// The map from session key to session. Invariant: at most one session
/// per key, and every session well formed.
pub struct SessionStore {
    pub entries: Vec<StoreEntry>,
}

impl SessionStore {
    /// At most one entry per key; every session well formed.
    pub open spec fn wf(self) -> bool {
        &&& forall|i: int, j: int|
            0 <= i < j < self.entries@.len() ==> self.entries@[i].key@ != self.entries@[j].key@
        &&& forall|i: int|
            0 <= i < self.entries@.len() ==> (#[trigger] self.entries@[i]).game.wf()
    }

    /// Some entry is filed under `k`.
    pub open spec fn has_key(self, k: Seq<u8>) -> bool {
        exists|i: int| 0 <= i < self.entries@.len() && self.entries@[i].key@ == k
    }

    /// The position of the entry filed under `k`.
    pub open spec fn index_of(self, k: Seq<u8>) -> int
        recommends
            self.has_key(k),
    {
        choose|i: int| 0 <= i < self.entries@.len() && self.entries@[i].key@ == k
    }

    /// The session filed under `k`.
    pub open spec fn session_of(self, k: Seq<u8>) -> Game
        recommends
            self.has_key(k),
    {
        self.entries@[self.index_of(k)].game
    }

    /// An empty store.
    pub fn new() -> (r: SessionStore)
        ensures
            r.wf(),
            r.entries@.len() == 0,
    {
        SessionStore { entries: Vec::new() }
    }

    /// The position of the entry filed under `key`, if any.
    fn find(&self, key: &Vec<u8>) -> (r: Option<usize>)
        ensures
            match r {
                Some(i) => i < self.entries@.len() && self.entries@[i as int].key@ == key@,
                None => !self.has_key(key@),
            },
    {
        let mut i: usize = 0;
        while i < self.entries.len()
            invariant
                i <= self.entries@.len(),
                forall|j: int| 0 <= j < i ==> self.entries@[j].key@ != key@,
            decreases self.entries@.len() - i,
        {
            if bytes_eq(&self.entries[i].key, key) {
                return Some(i);
            }
            i = i + 1;
        }
        None
    }

    /// Non-creating lookup.
    pub fn get(&self, key: &Vec<u8>) -> (r: Option<&Game>)
        requires
            self.wf(),
        ensures
            match r {
                Some(g) => self.has_key(key@) && *g == self.session_of(key@),
                None => !self.has_key(key@),
            },
    {
        match self.find(key) {
            Some(i) => {
                proof {
                    lemma_key_index_unique(*self, i as int, key@);
                }
                Some(&self.entries[i].game)
            },
            None => None,
        }
    }

    /// Resolves `key`, filing a fresh session under it first if none is
    /// there, and returns the entry's position. A key that is already
    /// present leaves the store exactly as it was: two resolutions of one
    /// key always land on the one session.
    pub fn get_or_default(&mut self, key: &Vec<u8>) -> (i: usize)
        requires
            old(self).wf(),
        ensures
            final(self).wf(),
            i < final(self).entries@.len(),
            final(self).entries@[i as int].key@ == key@,
            final(self).has_key(key@),
            final(self).index_of(key@) == i,
            old(self).has_key(key@) ==> *final(self) == *old(self),
            !old(self).has_key(key@) ==> i == old(self).entries@.len()
                && final(self).entries@.len() == old(self).entries@.len() + 1
                && final(self).entries@.subrange(0, i as int) == old(self).entries@
                && final(self).entries@[i as int].game.is_fresh(),
    {
        let r = self.find(key);
        match r {
            Some(i) => {
                proof {
                    lemma_key_index_unique(*self, i as int, key@);
                }
                i
            },
            None => {
                let k2 = copy_bytes(key);
                self.entries.push(StoreEntry { key: k2, game: Game::default() });
                let i = self.entries.len() - 1;
                proof {
                    lemma_key_index_unique(*self, i as int, key@);
                    assert(self.entries@.subrange(0, i as int) =~= old(self).entries@);
                }
                i
            },
        }
    }

    /// Resolves `key` (creating the session on first reference) and
    /// applies one command to the session under it, as
    /// [`callback_post`] lays down; every other key's session is left
    /// exactly as it was.
    pub fn process_command(&mut self, key: &Vec<u8>, from: &Player, data: Option<&Vec<u8>>) -> (r:
        Result<(), GameError>)
        requires
            old(self).wf(),
        ensures
            final(self).wf(),
            final(self).has_key(key@),
            forall|k2: Seq<u8>|
                k2 != key@ ==> (final(self).has_key(k2) <==> old(self).has_key(k2)),
            forall|k2: Seq<u8>|
                k2 != key@ && old(self).has_key(k2) ==> final(self).session_of(k2) == old(
                    self,
                ).session_of(k2),
            old(self).has_key(key@) ==> callback_post(
                old(self).session_of(key@),
                final(self).session_of(key@),
                *from,
                token_view(data),
                r,
            ),
            !old(self).has_key(key@) ==> exists|g0: Game|
                g0.is_fresh() && callback_post(
                    g0,
                    final(self).session_of(key@),
                    *from,
                    token_view(data),
                    r,
                ),
    {
        let i = self.get_or_default(key);
        let ghost mid = *self;
        let mut tmp = StoreEntry { key: Vec::new(), game: Game::default() };
        self.entries.set_and_swap(i, &mut tmp);
        let r = tmp.game.process_callback(from, data);
        self.entries.set_and_swap(i, &mut tmp);
        proof {
            let fin = *self;
            assert(fin.entries@ =~= mid.entries@.update(i as int, fin.entries@[i as int]));
            assert(fin.entries@[i as int].key@ == key@);
            assert forall|j: int|
                0 <= j < fin.entries@.len() && j != i implies fin.entries@[j]
                == mid.entries@[j] by {}
            lemma_key_index_unique(fin, i as int, key@);
            assert(fin.session_of(key@) == fin.entries@[i as int].game);

            assert forall|k2: Seq<u8>| k2 != key@ implies (fin.has_key(k2) <==> old(
                self,
            ).has_key(k2)) by {
                if fin.has_key(k2) {
                    let w = choose|w: int|
                        0 <= w < fin.entries@.len() && fin.entries@[w].key@ == k2;
                    assert(w != i);
                    assert(mid.entries@[w].key@ == k2);
                    assert(w < old(self).entries@.len());
                    assert(old(self).entries@[w].key@ == k2);
                }
                if old(self).has_key(k2) {
                    let w = choose|w: int|
                        0 <= w < old(self).entries@.len() && old(self).entries@[w].key@ == k2;
                    assert(mid.entries@[w].key@ == k2);
                    assert(w != i);
                    assert(fin.entries@[w].key@ == k2);
                }
            }
            assert forall|k2: Seq<u8>| k2 != key@ && old(self).has_key(k2) implies fin.session_of(
                k2,
            ) == old(self).session_of(k2) by {
                let w = choose|w: int|
                    0 <= w < old(self).entries@.len() && old(self).entries@[w].key@ == k2;
                lemma_key_index_unique(*old(self), w, k2);
                assert(mid.entries@[w] == old(self).entries@[w]);
                assert(w != i);
                assert(fin.entries@[w] == mid.entries@[w]);
                lemma_key_index_unique(fin, w, k2);
            }
        }
        r
    }
}

/// In a store with unique keys, any position holding `k` is the position
/// the key resolves to.
proof fn lemma_key_index_unique(s: SessionStore, i: int, k: Seq<u8>)
    requires
        forall|a: int, b: int|
            0 <= a < b < s.entries@.len() ==> s.entries@[a].key@ != s.entries@[b].key@,
        0 <= i < s.entries@.len(),
        s.entries@[i].key@ == k,
    ensures
        s.has_key(k),
        s.index_of(k) == i,
        s.session_of(k) == s.entries@[i].game,
{
    assert(s.has_key(k));
    let j = s.index_of(k);
    if i < j {
        assert(s.entries@[i].key@ != s.entries@[j].key@);
    } else if j < i {
        assert(s.entries@[j].key@ != s.entries@[i].key@);
    }
}

/// Byte-for-byte equality of two keys or tokens.
fn bytes_eq(a: &Vec<u8>, b: &Vec<u8>) -> (r: bool)
    ensures
        r == (a@ == b@),
{
    if a.len() != b.len() {
        return false;
    }
    let mut i: usize = 0;
    while i < a.len()
        invariant
            a@.len() == b@.len(),
            i <= a@.len(),
            forall|j: int| 0 <= j < i ==> a@[j] == b@[j],
        decreases a@.len() - i,
    {
        if a[i] != b[i] {
            return false;
        }
        i = i + 1;
    }
    proof {
        assert(a@ =~= b@);
    }
    true
}

/// An exact copy of a key.
fn copy_bytes(a: &Vec<u8>) -> (r: Vec<u8>)
    ensures
        r@ == a@,
{
    let mut r: Vec<u8> = Vec::new();
    let mut i: usize = 0;
    while i < a.len()
        invariant
            i <= a@.len(),
            r@ == a@.subrange(0, i as int),
        decreases a@.len() - i,
    {
        r.push(a[i]);
        proof {
            assert(r@ =~= a@.subrange(0, i + 1));
        }
        i = i + 1;
    }
    proof {
        assert(a@.subrange(0, a@.len() as int) =~= a@);
    }
    r
}

} // verus!
