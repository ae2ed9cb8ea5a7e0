//! The connection-scoped prepared-statement cache: statement text to
//! the opaque prepared id the node answered with.
//!
//! Ids are connection-scoped: identical text may yield different ids
//! on different nodes, so each connection owns its own cache. A
//! duplicate prepare of the same text overwrites with an equal id;
//! the newest entry shadows older ones, so the last write wins.

use vstd::prelude::*;

verus! {

/// What the cache answers for a statement text: the id recorded by
/// the most recent insertion under that text, if any.
pub open spec fn cache_lookup(entries: Seq<(Vec<u8>, Vec<u8>)>, text: Seq<u8>) -> Option<Seq<u8>>
    decreases entries.len(),
{
    if entries.len() == 0 {
        None
    } else if entries[0].0@ == text {
        Some(entries[0].1@)
    } else {
        cache_lookup(entries.drop_first(), text)
    }
}

/// One connection's map from statement text to prepared id.
#[derive(Debug)]
pub struct PreparedCache {
    pub entries: Vec<(Vec<u8>, Vec<u8>)>,
}

/// Byte-for-byte equality of two buffers.
fn bytes_eq(a: &Vec<u8>, b: &Vec<u8>) -> (r: bool)
    ensures
        r == (a@ == b@),
{
    if a.len() != b.len() {
        return false;
    }
    let n = a.len();
    let mut i: usize = 0;
    while i < n
        invariant
            i <= n,
            a@.len() == n == b@.len(),
            forall|j: int| 0 <= j < i ==> a@[j] == b@[j],
        decreases n - i,
    {
        if a[i] != b[i] {
            return false;
        }
        i = i + 1;
    }
    proof {
        assert(a@ =~= b@);
    }
    true
}

impl PreparedCache {
    /// An empty cache.
    pub fn new() -> (r: PreparedCache)
        ensures
            r.entries@.len() == 0,
    {
        PreparedCache { entries: Vec::new() }
    }

    /// Returns the cached prepared id for this text, if one was
    /// recorded: the caller skips the round trip exactly then.
    pub fn lookup(&self, text: &Vec<u8>) -> (r: Option<Vec<u8>>)
        ensures
            r matches Some(id) ==> cache_lookup(self.entries@, text@) == Some(id@),
            r is None ==> cache_lookup(self.entries@, text@) is None,
    {
        proof {
            assert(self.entries@.skip(0) =~= self.entries@);
        }
        self.lookup_from(text, 0)
    }

    fn lookup_from(&self, text: &Vec<u8>, from: usize) -> (r: Option<Vec<u8>>)
        requires
            from <= self.entries@.len(),
        ensures
            r matches Some(id) ==> cache_lookup(self.entries@.skip(from as int), text@) == Some(
                id@,
            ),
            r is None ==> cache_lookup(self.entries@.skip(from as int), text@) is None,
        decreases self.entries@.len() - from,
    {
        let ghost tail = self.entries@.skip(from as int);
        if from == self.entries.len() {
            return None;
        }
        proof {
            assert(tail[0] == self.entries@[from as int]);
            assert(tail.drop_first() =~= self.entries@.skip(from as int + 1));
        }
        if bytes_eq(&self.entries[from].0, text) {
            let id = clone_bytes(&self.entries[from].1);
            Some(id)
        } else {
            self.lookup_from(text, from + 1)
        }
    }

    /// Records the id a node answered a prepare with. Afterwards
    /// this text answers with exactly this id, and every other text
    /// answers as before.
    pub fn record(&mut self, text: Vec<u8>, id: Vec<u8>)
        ensures
            cache_lookup(final(self).entries@, text@) == Some(id@),
            forall|other: Seq<u8>| other != text@ ==> cache_lookup(final(self).entries@, other)
                == cache_lookup(old(self).entries@, other),
    {
        let ghost t = text@;
        let ghost old_entries = self.entries@;
        self.entries.insert(0, (text, id));
        proof {
            assert(self.entries@[0].0@ == t);
            assert(self.entries@.drop_first() =~= old_entries);
        }
    }

    /// Drops every recorded id for this text: the next prepare of
    /// it goes back to the node. Used when an execute comes back
    /// unprepared because the node evicted the id.
    pub fn invalidate(&mut self, text: &Vec<u8>)
        ensures
            cache_lookup(final(self).entries@, text@) is None,
            forall|other: Seq<u8>| other != text@ ==> cache_lookup(final(self).entries@, other)
                == cache_lookup(old(self).entries@, other),
    {
        let n = self.entries.len();
        let mut kept: Vec<(Vec<u8>, Vec<u8>)> = Vec::new();
        let mut i: usize = n;
        while i > 0
            invariant
                i <= n == old(self).entries@.len(),
                self.entries@ == old(self).entries@,
                cache_lookup(kept@, text@) is None,
                forall|other: Seq<u8>| other != text@ ==> cache_lookup(kept@, other)
                    == cache_lookup(self.entries@.skip(i as int), other),
            decreases i,
        {
            i = i - 1;
            let ghost before = kept@;
            if !bytes_eq(&self.entries[i].0, text) {
                let e = &self.entries[i];
                let kt = clone_bytes(&e.0);
                let kid = clone_bytes(&e.1);
                kept.insert(0, (kt, kid));
                proof {
                    assert(kept@[0].0@ == self.entries@[i as int].0@);
                    assert(kept@[0].1@ == self.entries@[i as int].1@);
                    assert(kept@.drop_first() =~= before);
                    assert(self.entries@.skip(i as int)[0] == self.entries@[i as int]);
                    assert(self.entries@.skip(i as int).drop_first() =~= self.entries@.skip(
                        i as int + 1,
                    ));
                    assert(cache_lookup(kept@, text@) == cache_lookup(before, text@));
                    assert forall|other: Seq<u8>| other != text@ implies cache_lookup(kept@, other)
                        == cache_lookup(self.entries@.skip(i as int), other) by {
                        if self.entries@[i as int].0@ != other {
                            assert(cache_lookup(kept@, other) == cache_lookup(before, other));
                            assert(cache_lookup(self.entries@.skip(i as int), other)
                                == cache_lookup(self.entries@.skip(i as int + 1), other));
                        }
                    }
                }
            } else {
                proof {
                    assert(self.entries@.skip(i as int)[0] == self.entries@[i as int]);
                    assert(self.entries@.skip(i as int).drop_first() =~= self.entries@.skip(
                        i as int + 1,
                    ));
                    assert forall|other: Seq<u8>| other != text@ implies cache_lookup(kept@, other)
                        == cache_lookup(self.entries@.skip(i as int), other) by {
                        assert(cache_lookup(self.entries@.skip(i as int), other)
                            == cache_lookup(self.entries@.skip(i as int + 1), other));
                    }
                }
            }
        }
        proof {
            assert(self.entries@.skip(0) =~= self.entries@);
        }
        self.entries = kept;
    }
}

/// Copies a byte buffer.
fn clone_bytes(b: &Vec<u8>) -> (r: Vec<u8>)
    ensures
        r@ == b@,
{
    let n = b.len();
    let mut out: Vec<u8> = Vec::new();
    let mut i: usize = 0;
    while i < n
        invariant
            i <= n == b@.len(),
            out@ == b@.subrange(0, i as int),
        decreases n - i,
    {
        out.push(b[i]);
        proof {
            assert(out@ =~= b@.subrange(0, i as int + 1));
        }
        i = i + 1;
    }
    proof {
        assert(out@ =~= b@);
    }
    out
}

/// Preparing identical text twice is idempotent: recording the same
/// id under the same text a second time changes no answer the cache
/// gives, for any text asked.
pub proof fn lemma_prepare_idempotent(
    entries: Seq<(Vec<u8>, Vec<u8>)>,
    entry: (Vec<u8>, Vec<u8>),
    asked: Seq<u8>,
)
    ensures
        cache_lookup(entries.insert(0, entry).insert(0, entry), asked) == cache_lookup(
            entries.insert(0, entry),
            asked,
        ),
{
    let once = entries.insert(0, entry);
    let twice = once.insert(0, entry);
    assert(twice[0] == entry);
    assert(once[0] == entry);
    assert(twice.drop_first() =~= once);
    if entry.0@ == asked {
    } else {
        assert(cache_lookup(twice, asked) == cache_lookup(once, asked));
    }
}

} // verus!
