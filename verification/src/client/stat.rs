//! What is recorded of each stream.
use std::collections::BTreeMap;
use std::time::Instant;

use vstd::prelude::*;

use crate::clock;

verus! {

/// The record of one stream. Times are nanoseconds on the monotonic clock, counted from the start
/// of the run.
#[derive(Debug, Clone, Copy)]
pub struct Stat {
    pub sid: u64,
    pub tag: &'static str,
    pub urgency: u8,
    pub incremental: bool,
    /// Body bytes received so far.
    pub bytes: u64,
    /// When the request was sent.
    pub t_sent: u128,
    /// When the first of the response arrived.
    pub t_first: Option<u128>,
    /// When the response was complete.
    pub t_fin: Option<u128>,
}

/// The records of a run, ordered by stream.
pub struct MultiResult {
    pub rows: Vec<Stat>,
}

/// The record of a stream on which nothing has arrived yet.
pub open spec fn fresh_stat(
    sid: u64,
    tag: &'static str,
    urgency: u8,
    incremental: bool,
    t_sent: u128,
) -> Stat {
    Stat { sid, tag, urgency, incremental, bytes: 0, t_sent, t_first: None, t_fin: None }
}

impl Stat {
    /// A new record for a request sent just now; `origin` is the start of the run.
    pub fn new(
        sid: u64,
        tag: &'static str,
        urgency: u8,
        incremental: bool,
        origin: &Instant,
    ) -> (s: Self)
        ensures
            s == fresh_stat(sid, tag, urgency, incremental, s.t_sent),
    {
        let now = clock::nanos_since(origin);
        Stat::sent_at(sid, tag, urgency, incremental, now)
    }

    /// A new record for a request sent at the given time.
    pub fn sent_at(
        sid: u64,
        tag: &'static str,
        urgency: u8,
        incremental: bool,
        t_sent: u128,
    ) -> (s: Self)
        ensures
            s == fresh_stat(sid, tag, urgency, incremental, t_sent),
    {
        Stat { sid, tag, urgency, incremental, bytes: 0, t_sent, t_first: None, t_fin: None }
    }

    /// The record once something of the response has arrived.
    pub open spec fn touched(self, now: u128) -> Stat {
        Stat { t_first: if self.t_first is Some { self.t_first } else { Some(now) }, ..self }
    }

    /// The record once `n` more body bytes have arrived.
    pub open spec fn with_bytes(self, n: nat, now: u128) -> Stat {
        Stat { bytes: (self.bytes + n) as u64, ..self.touched(now) }
    }

    /// The record once the response is complete.
    pub open spec fn finished(self, now: u128) -> Stat {
        Stat { t_fin: Some(now), ..self }
    }
}

/// The records of a run by stream.
pub struct StatTable {
    map: BTreeMap<u64, Stat>,
}

impl View for StatTable {
    type V = Map<u64, Stat>;

    closed spec fn view(&self) -> Map<u64, Stat> {
        self.map@
    }
}

/// Whether every record is filed under its stream.
pub open spec fn filed(m: Map<u64, Stat>) -> bool {
    forall|sid: u64| #[trigger] m.contains_key(sid) ==> m[sid].sid == sid
}

/// Whether every recorded stream is complete.
pub open spec fn all_finished(m: Map<u64, Stat>) -> bool {
    forall|sid: u64| #[trigger] m.contains_key(sid) ==> m[sid].t_fin is Some
}

/// Whether `rows` holds the records of `m`, each once, ordered by stream.
pub open spec fn lists(m: Map<u64, Stat>, rows: Seq<Stat>) -> bool {
    &&& forall|i: int, j: int| 0 <= i < j < rows.len() ==> rows[i].sid < rows[j].sid
    &&& forall|i: int|
        0 <= i < rows.len() ==> m.contains_key((#[trigger] rows[i]).sid) && m[rows[i].sid]
            == rows[i]
    &&& forall|sid: u64|
        #[trigger] m.contains_key(sid) ==> exists|i: int|
            0 <= i < rows.len() && (#[trigger] rows[i]).sid == sid
}

proof fn lemma_ascending(keys: Seq<u64>)
    requires
        vstd::std_specs::btree::increasing_seq(keys),
    ensures
        forall|i: int, j: int| 0 <= i < j < keys.len() ==> keys[i] < keys[j],
{
    assert forall|i: int, j: int| 0 <= i < j < keys.len() implies keys[i] < keys[j] by {
        assert(vstd::std_specs::cmp::OrdSpec::cmp_spec(&keys[i], &keys[j]) is Less);
    }
}

impl StatTable {
    pub fn new() -> (t: StatTable)
        ensures
            t@ == Map::<u64, Stat>::empty(),
    {
        StatTable { map: BTreeMap::new() }
    }

    /// Files a record under its stream, replacing one that is there.
    pub fn insert(&mut self, stat: Stat)
        ensures
            final(self)@ == old(self)@.insert(stat.sid, stat),
    {
        self.map.insert(stat.sid, stat);
    }

    /// Whether no stream is recorded.
    pub fn is_empty(&self) -> (r: bool)
        ensures
            r <==> (forall|sid: u64| !(#[trigger] self@.contains_key(sid))),
    {
        let r = self.map.is_empty();
        assert(r == (self@ =~= Map::<u64, Stat>::empty()));
        r
    }

    /// The record of a stream.
    pub fn get(&self, sid: u64) -> (r: Option<Stat>)
        ensures
            r == if self@.contains_key(sid) {
                Some(self@[sid])
            } else {
                None
            },
    {
        match self.map.get(&sid) {
            Some(s) => Some(*s),
            None => None,
        }
    }

    /// The recorded streams in ascending order.
    fn streams(&self) -> (r: Vec<u64>)
        ensures
            forall|i: int, j: int| 0 <= i < j < r@.len() ==> r@[i] < r@[j],
            forall|i: int| 0 <= i < r@.len() ==> self@.contains_key(#[trigger] r@[i]),
            forall|sid: u64| #[trigger] self@.contains_key(sid) ==> r@.contains(sid),
    {
        let mut out: Vec<u64> = Vec::new();
        let entries = self.map.iter();
        let ghost pairs = vstd::std_specs::iter::IteratorSpec::remaining(&entries);
        let ghost keys = pairs.map_values(|kv: (&u64, &Stat)| *kv.0);
        for kv in it: entries
            invariant
                it.seq() == pairs,
                keys == pairs.map_values(|kv: (&u64, &Stat)| *kv.0),
                out@ == keys.take(it.index() as int),
        {
            out.push(*kv.0);
            assert(out@ =~= keys.take(it.index() + 1));
        }
        assert(out@ =~= keys);
        proof {
            lemma_ascending(keys);
        }
        assert forall|sid: u64| #[trigger] self@.contains_key(sid) implies out@.contains(sid) by {
            assert(pairs.contains((&sid, &self.map@[sid])));
            let k = pairs.index_of((&sid, &self.map@[sid]));
            assert(keys[k] == sid);
        }
        assert forall|i: int| 0 <= i < out@.len() implies self@.contains_key(#[trigger] out@[i]) by {
            assert(self.map@.contains_key(*pairs[i].0));
        }
        out
    }

    /// Whether every recorded stream is complete.
    pub fn all_finished(&self) -> (r: bool)
        ensures
            r == all_finished(self@),
    {
        let streams = self.streams();
        for i in 0..streams.len()
            invariant
                forall|k: int| 0 <= k < streams@.len() ==> self@.contains_key(#[trigger] streams@[k]),
                forall|k: int| 0 <= k < i ==> self@[#[trigger] streams@[k]].t_fin is Some,
        {
            assert(self@.contains_key(streams@[i as int]));
            if let Some(s) = self.get(streams[i]) {
                if s.t_fin.is_none() {
                    return false;
                }
            }
        }
        assert forall|sid: u64| #[trigger] self@.contains_key(sid) implies self@[sid].t_fin is Some by {
            let k = streams@.index_of(sid);
            assert(streams@[k] == sid);
        }
        true
    }

    /// The records, ordered by stream.
    pub fn rows(&self) -> (r: Vec<Stat>)
        requires
            filed(self@),
        ensures
            lists(self@, r@),
    {
        let streams = self.streams();
        let mut out: Vec<Stat> = Vec::new();
        for i in 0..streams.len()
            invariant
                forall|k: int| 0 <= k < streams@.len() ==> self@.contains_key(#[trigger] streams@[k]),
                out@.len() == i,
                forall|k: int| 0 <= k < i ==> #[trigger] out@[k] == self@[streams@[k]],
        {
            assert(self@.contains_key(streams@[i as int]));
            if let Some(s) = self.get(streams[i]) {
                out.push(s);
            }
        }
        assert forall|k: int| 0 <= k < out@.len() implies (#[trigger] out@[k]).sid == streams@[k] by {
            assert(self@.contains_key(streams@[k]));
        }
        assert forall|sid: u64| #[trigger] self@.contains_key(sid) implies exists|i: int|
            0 <= i < out@.len() && (#[trigger] out@[i]).sid == sid by {
            let k = streams@.index_of(sid);
            assert(streams@[k] == sid);
            assert(out@[k].sid == sid);
        }
        out
    }
}

} // verus!
