use vstd::prelude::*;

use crate::codec::{decode_token, encode_token, spec_dec_token, spec_enc_token, lemma_token_round_trip};
use crate::errors::BrokerError;
use crate::token::{Token, TokenView};

verus! {

/// The map from session identities to serialized token blobs that a list of
/// entries represents; a later entry for the same identity wins.
pub open spec fn entries_map(ids: Seq<String>, blobs: Seq<String>) -> Map<Seq<char>, Seq<char>>
    decreases ids.len(),
{
    if ids.len() == 0 || blobs.len() == 0 {
        Map::empty()
    } else {
        entries_map(ids.drop_last(), blobs.drop_last()).insert(ids.last()@, blobs.last()@)
    }
}

pub open spec fn ids_distinct(ids: Seq<String>) -> bool {
    forall|i: int, j: int| 0 <= i < j < ids.len() ==> ids[i]@ != ids[j]@
}

proof fn lemma_entries_contains(ids: Seq<String>, blobs: Seq<String>, k: Seq<char>)
    requires
        ids.len() == blobs.len(),
    ensures
        entries_map(ids, blobs).contains_key(k) <==> exists|i: int|
            0 <= i < ids.len() && ids[i]@ == k,
    decreases ids.len(),
{
    if ids.len() > 0 {
        lemma_entries_contains(ids.drop_last(), blobs.drop_last(), k);
        if ids.last()@ == k {
            assert(ids[ids.len() - 1]@ == k);
        } else if entries_map(ids, blobs).contains_key(k) {
            let i = choose|i: int| 0 <= i < ids.len() - 1 && ids.drop_last()[i]@ == k;
            assert(ids[i]@ == k);
        } else {
            assert forall|i: int| 0 <= i < ids.len() implies ids[i]@ != k by {
                if i < ids.len() - 1 {
                    assert(ids.drop_last()[i]@ != k);
                }
            }
        }
    }
}

proof fn lemma_entries_index(ids: Seq<String>, blobs: Seq<String>, i: int)
    requires
        ids.len() == blobs.len(),
        ids_distinct(ids),
        0 <= i < ids.len(),
    ensures
        entries_map(ids, blobs)[ids[i]@] == blobs[i]@,
    decreases ids.len(),
{
    if i == ids.len() - 1 {
    } else {
        assert(ids.drop_last()[i] == ids[i] && blobs.drop_last()[i] == blobs[i]);
        lemma_entries_index(ids.drop_last(), blobs.drop_last(), i);
        assert(ids.last()@ != ids[i]@);
    }
}

proof fn lemma_entries_update(ids: Seq<String>, blobs: Seq<String>, i: int, b: String)
    requires
        ids.len() == blobs.len(),
        ids_distinct(ids),
        0 <= i < ids.len(),
    ensures
        entries_map(ids, blobs.update(i, b)) == entries_map(ids, blobs).insert(ids[i]@, b@),
    decreases ids.len(),
{
    let upd = blobs.update(i, b);
    if i == ids.len() - 1 {
        assert(upd.drop_last() =~= blobs.drop_last());
        assert(upd.last() == b);
        assert(entries_map(ids.drop_last(), blobs.drop_last()).insert(ids.last()@, b@)
            =~= entries_map(ids.drop_last(), blobs.drop_last()).insert(
            ids.last()@,
            blobs.last()@,
        ).insert(ids.last()@, b@));
    } else {
        assert(upd.drop_last() =~= blobs.drop_last().update(i, b));
        assert(upd.last() == blobs.last());
        assert(ids.drop_last()[i] == ids[i]);
        lemma_entries_update(ids.drop_last(), blobs.drop_last(), i, b);
        assert(ids.last()@ != ids[i]@);
        assert(entries_map(ids.drop_last(), blobs.drop_last()).insert(ids[i]@, b@).insert(
            ids.last()@,
            blobs.last()@,
        ) =~= entries_map(ids.drop_last(), blobs.drop_last()).insert(
            ids.last()@,
            blobs.last()@,
        ).insert(ids[i]@, b@));
    }
}

/// A durable key-value mapping from session identity to the serialized
/// provider token of that session.
///
/// The store is the process-wide authority on cache entries: at most one
/// entry per identity, absent until a successful exchange writes it. The
/// surrounding program persists each blob under `path_for` of its identity
/// and restores entries through `restore` at startup.
pub struct TokenCacheStore {
    root: String,
    ids: Vec<String>,
    blobs: Vec<String>,
}

impl View for TokenCacheStore {
    type V = Map<Seq<char>, Seq<char>>;

    closed spec fn view(&self) -> Map<Seq<char>, Seq<char>> {
        entries_map(self.ids@, self.blobs@)
    }
}

impl TokenCacheStore {
    /// One entry per identity.
    pub closed spec fn wf(&self) -> bool {
        self.ids@.len() == self.blobs@.len() && ids_distinct(self.ids@)
    }

    /// The configured cache root directory.
    pub closed spec fn root_view(&self) -> Seq<char> {
        self.root@
    }

    /// An empty store over the given cache root.
    pub fn new(root: String) -> (s: Self)
        ensures
            s.wf(),
            s@ == Map::<Seq<char>, Seq<char>>::empty(),
            s.root_view() == root@,
    {
        TokenCacheStore { root, ids: Vec::new(), blobs: Vec::new() }
    }

    fn find(&self, id: &String) -> (r: Option<usize>)
        requires
            self.wf(),
        ensures
            match r {
                Some(i) => i < self.ids@.len() && self.ids@[i as int]@ == id@,
                None => forall|i: int| 0 <= i < self.ids@.len() ==> self.ids@[i]@ != id@,
            },
    {
        let n = self.ids.len();
        let mut i: usize = 0;
        while i < n
            invariant
                i <= n == self.ids@.len(),
                forall|k: int| 0 <= k < i ==> self.ids@[k]@ != id@,
            decreases n - i,
        {
            if self.ids[i].eq(id) {
                return Some(i);
            }
            i = i + 1;
        }
        None
    }

    /// Whether a cache entry exists for the identity: the authorization gate.
    pub fn has_entry(&self, id: &String) -> (r: bool)
        requires
            self.wf(),
        ensures
            r == self@.contains_key(id@),
    {
        proof {
            lemma_entries_contains(self.ids@, self.blobs@, id@);
        }
        match self.find(id) {
            Some(_) => true,
            None => false,
        }
    }

    /// The deserialized token of the identity's entry; `NotFound` where no
    /// entry exists, `CorruptEntry` where one exists but cannot be parsed.
    pub fn read(&self, id: &String) -> (r: Result<Token, BrokerError>)
        requires
            self.wf(),
        ensures
            !self@.contains_key(id@) ==> r == Err::<Token, BrokerError>(BrokerError::NotFound),
            self@.contains_key(id@) ==> match spec_dec_token(self@[id@]) {
                Some(tv) => r matches Ok(t) && t@ == tv,
                None => r == Err::<Token, BrokerError>(BrokerError::CorruptEntry),
            },
    {
        proof {
            lemma_entries_contains(self.ids@, self.blobs@, id@);
        }
        match self.find(id) {
            None => Err(BrokerError::NotFound),
            Some(i) => {
                proof {
                    lemma_entries_index(self.ids@, self.blobs@, i as int);
                }
                match decode_token(self.blobs[i].as_str()) {
                    Some(t) => Ok(t),
                    None => Err(BrokerError::CorruptEntry),
                }
            },
        }
    }

    fn put(&mut self, id: &String, blob: String)
        requires
            old(self).wf(),
        ensures
            final(self).wf(),
            final(self)@ == old(self)@.insert(id@, blob@),
            final(self).root_view() == old(self).root_view(),
    {
        proof {
            lemma_entries_contains(self.ids@, self.blobs@, id@);
        }
        match self.find(id) {
            Some(i) => {
                proof {
                    lemma_entries_update(self.ids@, self.blobs@, i as int, blob);
                }
                self.blobs.set(i, blob);
            },
            None => {
                self.ids.push(id.clone());
                self.blobs.push(blob);
                proof {
                    assert(self.ids@.drop_last() =~= old(self).ids@);
                    assert(self.blobs@.drop_last() =~= old(self).blobs@);
                    assert(ids_distinct(self.ids@)) by {
                        assert forall|i: int, j: int|
                            0 <= i < j < self.ids@.len() implies self.ids@[i]@
                            != self.ids@[j]@ by {
                            if j < self.ids@.len() - 1 {
                                assert(old(self).ids@[i]@ != old(self).ids@[j]@);
                            } else {
                                assert(old(self).ids@[i]@ != id@);
                            }
                        }
                    }
                }
            },
        }
    }

    /// Persists the token for the identity, replacing any previous entry.
    /// Returns the serialized blob, which the surrounding program writes
    /// durably (atomically, write-to-temp-then-rename) under `path_for`.
    pub fn write(&mut self, id: &String, t: &Token) -> (blob: String)
        requires
            old(self).wf(),
        ensures
            final(self).wf(),
            final(self)@ == old(self)@.insert(id@, spec_enc_token(t@)),
            final(self).root_view() == old(self).root_view(),
            blob@ == spec_enc_token(t@),
    {
        let blob = encode_token(t);
        self.put(id, blob.clone());
        blob
    }

    /// Restores a persisted entry, as read back from durable storage.
    pub fn restore(&mut self, id: &String, blob: String)
        requires
            old(self).wf(),
        ensures
            final(self).wf(),
            final(self)@ == old(self)@.insert(id@, blob@),
            final(self).root_view() == old(self).root_view(),
    {
        self.put(id, blob);
    }

    /// The deterministic storage path of an identity's entry: the cache root,
    /// a separator, the identity. Pure; no I/O.
    pub fn path_for(&self, id: &String) -> (p: String)
        ensures
            p@ == self.root_view() + seq!['/'] + id@,
    {
        proof {
            reveal_strlit("/");
        }
        let mut p = self.root.clone();
        p.append("/");
        p.append(id.as_str());
        assert(p@ =~= self.root_view() + seq!['/'] + id@);
        p
    }
}

/// Storage paths are injective in the session identity: for one cache root,
/// no two distinct identities resolve to the same path.
pub proof fn lemma_path_injective(root: Seq<char>, a: Seq<char>, b: Seq<char>)
    requires
        root + seq!['/'] + a == root + seq!['/'] + b,
    ensures
        a == b,
{
    let pa = root + seq!['/'] + a;
    let pb = root + seq!['/'] + b;
    assert(pa.len() == pb.len());
    assert(a =~= b) by {
        assert forall|k: int| 0 <= k < a.len() implies a[k] == b[k] by {
            assert(pa[root.len() + 1 + k] == a[k]);
            assert(pb[root.len() + 1 + k] == b[k]);
        }
    }
}

/// An identity has no cache entry before any write of it, and has one
/// immediately after a write of that identity, whatever was stored before.
pub proof fn lemma_entry_appears_on_write(
    cache: Map<Seq<char>, Seq<char>>,
    id: Seq<char>,
    t: TokenView,
)
    ensures
        !Map::<Seq<char>, Seq<char>>::empty().contains_key(id),
        cache.insert(id, spec_enc_token(t)).contains_key(id),
{
}

/// A write immediately followed by a read of the same identity observes the
/// just-written token: the entry exists and decodes to the written model.
pub proof fn lemma_write_read_round_trip(
    cache: Map<Seq<char>, Seq<char>>,
    id: Seq<char>,
    t: TokenView,
)
    ensures
        cache.insert(id, spec_enc_token(t)).contains_key(id),
        spec_dec_token(cache.insert(id, spec_enc_token(t))[id]) == Some(t),
{
    lemma_token_round_trip(t);
}

} // verus!
