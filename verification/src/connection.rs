//! Per-connection state: negotiated parameters and the stream-id
//! table that multiplexes concurrent in-flight requests.
//!
//! Each request is assigned an unused stream id out of a bounded
//! range; the response bearing that id releases the slot and is
//! handed to exactly that request's waiter. The dispatcher routes
//! purely by stream id, never by submission order, so responses may
//! arrive in any order.

use vstd::prelude::*;

verus! {

/// A negotiated block-compression codec for frame bodies.
#[derive(Debug, Clone, Copy, PartialEq, Eq, Structural)]
pub enum Compression {
    Lz4,
    Snappy,
}

/// Custom connection parameters.
#[derive(Debug, Clone, Copy, PartialEq, Eq, Structural)]
pub struct ConnectionParams {
    pub compression: Option<Compression>,
}

impl Default for ConnectionParams {
    /// By default no compression is negotiated.
    fn default() -> (r: Self)
        ensures
            r.compression is None,
    {
        ConnectionParams { compression: None }
    }
}

impl From<Option<Compression>> for ConnectionParams {
    fn from(compression: Option<Compression>) -> (r: ConnectionParams) {
        ConnectionParams { compression }
    }
}

impl vstd::std_specs::convert::FromSpecImpl<Option<Compression>> for ConnectionParams {
    open spec fn obeys_from_spec() -> bool {
        true
    }

    open spec fn from_spec(compression: Option<Compression>) -> Self {
        ConnectionParams { compression }
    }
}

/// The stream-id table of one connection: slot `i` holds the waiter
/// tag of the in-flight request using stream id `i`, or nothing. The
/// slot count is the protocol version's stream-id bound.
#[derive(Debug)]
pub struct StreamTable {
    pub slots: Vec<Option<u64>>,
}

impl StreamTable {
    /// A table with `limit` free stream ids.
    pub fn new(limit: u16) -> (r: StreamTable)
        ensures
            r.slots@.len() == limit,
            forall|i: int| 0 <= i < limit ==> r.slots@[i] is None,
    {
        let mut slots: Vec<Option<u64>> = Vec::new();
        let mut i: usize = 0;
        while i < limit as usize
            invariant
                i <= limit,
                slots@.len() == i,
                forall|j: int| 0 <= j < i ==> slots@[j] is None,
            decreases limit as usize - i,
        {
            slots.push(None);
            i = i + 1;
        }
        StreamTable { slots }
    }

    /// Registers a waiter under the lowest free stream id; fails
    /// only when every id in the bounded range is in flight. A
    /// granted id was free before and maps to this waiter after;
    /// no other slot changes.
    pub fn register(&mut self, waiter: u64) -> (r: Option<u16>)
        requires
            old(self).slots@.len() <= 0x10000,
        ensures
            final(self).slots@.len() == old(self).slots@.len(),
            r matches Some(id) ==> {
                &&& (id as int) < old(self).slots@.len()
                &&& old(self).slots@[id as int] is None
                &&& final(self).slots@ == old(self).slots@.update(
                    id as int,
                    Some(waiter),
                )
            },
            r is None ==> {
                &&& final(self).slots@ == old(self).slots@
                &&& forall|j: int| 0 <= j < old(self).slots@.len() ==> old(self).slots@[j] is Some
            },
    {
        let n = self.slots.len();
        let mut i: usize = 0;
        while i < n
            invariant
                i <= n == self.slots@.len() <= 0x10000,
                self.slots@ == old(self).slots@,
                forall|j: int| 0 <= j < i ==> self.slots@[j] is Some,
            decreases n - i,
        {
            if self.slots[i].is_none() {
                self.slots.set(i, Some(waiter));
                return Some(i as u16);
            }
            i = i + 1;
        }
        None
    }

    /// Delivers the response bearing `id`: hands back the waiter
    /// registered under that id, freeing the slot; an id out of
    /// range or with no waiter yields nothing and changes nothing.
    pub fn take(&mut self, id: u16) -> (r: Option<u64>)
        ensures
            final(self).slots@.len() == old(self).slots@.len(),
            (id as int) < old(self).slots@.len() ==> {
                &&& r == old(self).slots@[id as int]
                &&& final(self).slots@ == old(self).slots@.update(id as int, None)
            },
            (id as int) >= old(self).slots@.len() ==> r is None && final(self).slots@ == old(
                self,
            ).slots@,
    {
        let idx = id as usize;
        if idx < self.slots.len() {
            let w = self.slots[idx];
            self.slots.set(idx, None);
            w
        } else {
            proof {
                assert(final(self).slots@ == old(self).slots@);
            }
            None
        }
    }
}

/// Responses are routed purely by stream id: delivering the response
/// for one stream id leaves every other stream's waiter in place, so
/// two in-flight requests with distinct ids each receive their own
/// response whichever arrives first.
pub proof fn lemma_multiplexing_independent(slots: Seq<Option<u64>>, id1: int, id2: int)
    requires
        0 <= id1 < slots.len(),
        0 <= id2 < slots.len(),
        id1 != id2,
    ensures
        slots.update(id2, None)[id1] == slots[id1],
        slots.update(id1, None)[id2] == slots[id2],
{
}

} // verus!
