//! Request lifecycle vocabulary: handles, states, raw and enriched events,
//! targets, terminal results, and per-node timing.

use vstd::prelude::*;
use crate::hash::ProofStep;

verus! {

/// Lifecycle phase of one in-flight request. Transitions are one-directional:
/// `NotStarted` to `Active` to `Terminated`, never backwards.
#[derive(Clone, Copy, Debug, PartialEq, Eq, Structural)]
pub enum RequestState {
    NotStarted,
    Active,
    Terminated,
}

/// Rank of a state along the one-way lifecycle; used to state monotonicity.
pub open spec fn state_rank(s: RequestState) -> int {
    match s {
        RequestState::NotStarted => 0,
        RequestState::Active => 1,
        RequestState::Terminated => 2,
    }
}

impl RequestState {
    /// Human-readable name of the state.
    pub fn as_str(&self) -> (r: &'static str)
        ensures
            *self == RequestState::NotStarted ==> r@ == "NotStarted"@,
            *self == RequestState::Active ==> r@ == "Active"@,
            *self == RequestState::Terminated ==> r@ == "Terminated"@,
    {
        match self {
            RequestState::NotStarted => "NotStarted",
            RequestState::Active => "Active",
            RequestState::Terminated => "Terminated",
        }
    }
}

/// What went wrong with a request or an API call against one.
#[derive(Clone, Copy, Debug, PartialEq, Eq, Structural)]
pub enum VdrError {
    /// A node could not be reached; recorded per node, never fatal to the
    /// whole request.
    Transport,
    /// An explicit API call against an unknown or terminated request.
    InvalidState,
    /// No content reached quorum before exhaustion or the deadline.
    Consensus,
    /// A reply's embedded Merkle proof did not recompute the trusted root.
    Verification,
    /// A malformed input was rejected before a request was created.
    Validation,
    /// The request was cancelled from outside.
    Cancelled,
}

/// Identifier of one in-flight request; value 0 is reserved as invalid.
#[derive(Clone, Copy, Debug, PartialEq, Eq, PartialOrd, Ord, Hash, Structural)]
pub struct RequestHandle(pub usize);

impl RequestHandle {
    /// The reserved unallocated handle.
    pub fn invalid() -> (h: RequestHandle)
        ensures
            h.0 == 0,
    {
        RequestHandle(0)
    }
}

/// Source of fresh request handles: a monotonically increasing counter with
/// one logical owner per process. Handles it hands out are never 0 and never
/// repeat, so a handle is never reused across requests.
pub struct HandleAllocator {
    counter: usize,
}

impl HandleAllocator {
    /// How many handles have been allocated so far.
    pub closed spec fn spec_counter(&self) -> int {
        self.counter as int
    }

    /// A fresh allocator; the first handle it hands out is 1.
    pub fn new() -> (r: HandleAllocator)
        ensures
            r.spec_counter() == 0,
    {
        HandleAllocator { counter: 0 }
    }

    /// How many handles have been handed out so far.
    pub fn allocated(&self) -> (r: usize)
        ensures
            r == self.spec_counter(),
    {
        self.counter
    }

    /// The next handle: strictly larger than every handle allocated before,
    /// and never the invalid handle 0.
    pub fn next(&mut self) -> (h: RequestHandle)
        requires
            old(self).spec_counter() < usize::MAX,
        ensures
            h.0 == old(self).spec_counter() + 1,
            final(self).spec_counter() == old(self).spec_counter() + 1,
            h.0 != 0,
    {
        self.counter = self.counter + 1;
        RequestHandle(self.counter)
    }
}

/// An inclusion proof embedded in a reply: the sibling path from the reply's
/// content up to the pool's trusted Merkle root.
pub struct MerkleProof {
    pub path: Vec<ProofStep>,
}

/// A parsed node reply: the normalized content by which replies are grouped
/// for consensus, and an optional inclusion proof for that content.
pub struct Message {
    pub content: Vec<u8>,
    pub proof: Option<MerkleProof>,
}

/// Raw signal from the transport collaborator, consumed exactly once.
pub enum RequestEvent {
    Received(
        String,  // node alias
        String,  // message
        Message,  // parsed
    ),
    Timeout(
        String,  // node alias
    ),
}

/// Engine-internal, append-only enrichment of a raw event, kept for audit
/// and timing. Timestamps are milliseconds of the process clock.
pub enum RequestExtEvent {
    Init,
    Sent(
        String,  // node alias
        u64,  // send time
    ),
    Received(
        String,  // node alias
        String,  // message
        Message,  // parsed
        u64,  // received time
    ),
    Timeout(
        String,  // node alias
    ),
}

/// Terminal outcome of a request, produced exactly once.
pub enum RequestResult<T> {
    Reply(T),
    Failed(VdrError),
}

impl<T> RequestResult<T> {
    /// Maps the reply of a successful result, keeping a failure as it is.
    pub fn map_result<F, R>(self, f: F) -> (r: Result<RequestResult<R>, VdrError>) where
        F: FnOnce(T) -> Result<R, VdrError>,

        requires
            self matches RequestResult::Reply(t) ==> call_requires(f, (t,)),
        ensures
            self matches RequestResult::Failed(e) ==> r == Ok::<RequestResult<R>, VdrError>(
                RequestResult::Failed(e),
            ),
            self matches RequestResult::Reply(t) ==> (match r {
                Ok(RequestResult::Reply(x)) => call_ensures(f, (t,), Ok(x)),
                Err(e2) => call_ensures(f, (t,), Err(e2)),
                _ => false,
            }),
    {
        match self {
            RequestResult::Reply(reply) => match f(reply) {
                Ok(x) => Ok(RequestResult::Reply(x)),
                Err(e) => Err(e),
            },
            RequestResult::Failed(err) => Ok(RequestResult::Failed(err)),
        }
    }
}

/// How the caller picks the nodes a request goes to: the pool's default
/// policy, or an explicit node list and timeout.
pub enum RequestTarget {
    Default,
    Full(
        Option<Vec<String>>,  // nodes to send
        Option<i64>,  // timeout
    ),
}

/// Per-node round-trip times in milliseconds; `-1` means awaiting a reply.
pub type TimingResult = Vec<(String, i64)>;

/// One per-node timing record: when the request went out and how long the
/// round trip took (`-1` until a reply arrives).
struct TimingEntry {
    node_alias: String,
    send_time: u64,
    round_trip: i64,
}

/// Position of the first entry for `alias`, or `-1` if there is none.
pub open spec fn find_alias(s: Seq<(Seq<char>, u64, i64)>, alias: Seq<char>) -> int
    decreases s.len(),
{
    if s.len() == 0 {
        -1
    } else if s[0].0 == alias {
        0
    } else if find_alias(s.drop_first(), alias) < 0 {
        -1
    } else {
        find_alias(s.drop_first(), alias) + 1
    }
}

pub proof fn lemma_find_alias_at(s: Seq<(Seq<char>, u64, i64)>, alias: Seq<char>, i: int)
    requires
        0 <= i < s.len(),
        s[i].0 == alias,
        forall|j: int| 0 <= j < i ==> s[j].0 != alias,
    ensures
        find_alias(s, alias) == i,
    decreases i,
{
    if i > 0 {
        lemma_find_alias_at(s.drop_first(), alias, i - 1);
    }
}

pub proof fn lemma_find_alias_none(s: Seq<(Seq<char>, u64, i64)>, alias: Seq<char>)
    requires
        forall|j: int| 0 <= j < s.len() ==> s[j].0 != alias,
    ensures
        find_alias(s, alias) == -1,
    decreases s.len(),
{
    if s.len() > 0 {
        lemma_find_alias_none(s.drop_first(), alias);
    }
}

/// Round trip in milliseconds, clamped to 0 when the clock went backwards
/// and saturated at `i64::MAX`.
pub open spec fn spec_elapsed(send: u64, recv: u64) -> i64 {
    if recv <= send {
        0
    } else if recv - send > i64::MAX {
        i64::MAX
    } else {
        (recv - send) as i64
    }
}

/// The timing table after a send was recorded: the entry for `alias` is
/// created or overwritten with send time `t` and the awaiting-reply marker.
pub open spec fn spec_sent(s: Seq<(Seq<char>, u64, i64)>, alias: Seq<char>, t: u64) -> Seq<
    (Seq<char>, u64, i64),
> {
    let i = find_alias(s, alias);
    if i < 0 {
        s.push((alias, t, -1i64))
    } else {
        s.update(i, (alias, t, -1i64))
    }
}

/// The timing table after a receive was recorded: a no-op unless a send was
/// recorded for `alias`, whose round trip then becomes the clamped elapsed
/// time.
pub open spec fn spec_received(s: Seq<(Seq<char>, u64, i64)>, alias: Seq<char>, t: u64) -> Seq<
    (Seq<char>, u64, i64),
> {
    let i = find_alias(s, alias);
    if i < 0 {
        s
    } else {
        s.update(i, (s[i].0, s[i].1, spec_elapsed(s[i].1, t)))
    }
}

/// Per-node latency instrumentation: node alias to send time and round trip.
pub struct RequestTiming {
    replies: Vec<TimingEntry>,
}

impl RequestTiming {
    /// Abstract contents: one `(alias, send time, round trip)` triple per
    /// node written to, in first-write order.
    pub closed spec fn entries(&self) -> Seq<(Seq<char>, u64, i64)> {
        self.replies@.map_values(|e: TimingEntry| (e.node_alias@, e.send_time, e.round_trip))
    }

    /// An empty timing table.
    pub fn new() -> (r: RequestTiming)
        ensures
            r.entries() == Seq::<(Seq<char>, u64, i64)>::empty(),
    {
        let r = RequestTiming { replies: Vec::new() };
        proof {
            assert(r.entries() =~= Seq::<(Seq<char>, u64, i64)>::empty());
        }
        r
    }

    /// Index of the entry for `alias`, if one exists.
    fn find(&self, alias: &str) -> (r: Option<usize>)
        ensures
            r matches Some(i) ==> i < self.entries().len() && find_alias(self.entries(), alias@)
                == i,
            r is None ==> find_alias(self.entries(), alias@) == -1,
    {
        let mut i: usize = 0;
        while i < self.replies.len()
            invariant
                i <= self.replies@.len(),
                forall|j: int| 0 <= j < i ==> self.entries()[j].0 != alias@,
            decreases self.replies@.len() - i,
        {
            if crate::bytes::str_eq(self.replies[i].node_alias.as_str(), alias) {
                proof {
                    assert(self.entries()[i as int].0 == alias@);
                    lemma_find_alias_at(self.entries(), alias@, i as int);
                }
                return Some(i);
            }
            proof {
                assert(self.entries()[i as int].0 != alias@);
            }
            i += 1;
        }
        proof {
            lemma_find_alias_none(self.entries(), alias@);
        }
        None
    }

    /// Records that the request went out to `node_alias` at `send_time`,
    /// overwriting any earlier record for that alias.
    pub fn sent(&mut self, node_alias: &str, send_time: u64)
        ensures
            final(self).entries() == spec_sent(old(self).entries(), node_alias@, send_time),
    {
        let entry = TimingEntry {
            node_alias: node_alias.to_owned(),
            send_time,
            round_trip: -1i64,
        };
        match self.find(node_alias) {
            Some(i) => {
                self.replies[i] = entry;
                proof {
                    assert(final(self).entries() =~= spec_sent(
                        old(self).entries(),
                        node_alias@,
                        send_time,
                    ));
                }
            },
            None => {
                self.replies.push(entry);
                proof {
                    assert(final(self).entries() =~= spec_sent(
                        old(self).entries(),
                        node_alias@,
                        send_time,
                    ));
                }
            },
        }
    }

    /// Records a reply from `node_alias` at `recv_time`: a no-op unless a
    /// send was recorded for that alias, whose round trip then becomes the
    /// elapsed time, clamped to 0 if the clock went backwards.
    pub fn received(&mut self, node_alias: &str, recv_time: u64)
        ensures
            final(self).entries() == spec_received(old(self).entries(), node_alias@, recv_time),
    {
        match self.find(node_alias) {
            Some(i) => {
                let send = self.replies[i].send_time;
                let elapsed: i64 = if recv_time <= send {
                    0
                } else {
                    let d = recv_time - send;
                    if d > i64::MAX as u64 {
                        i64::MAX
                    } else {
                        d as i64
                    }
                };
                let alias_owned = self.replies[i].node_alias.clone();
                self.replies[i] = TimingEntry {
                    node_alias: alias_owned,
                    send_time: send,
                    round_trip: elapsed,
                };
                proof {
                    assert(elapsed == spec_elapsed(old(self).entries()[i as int].1, recv_time));
                    assert(final(self).entries() =~= spec_received(
                        old(self).entries(),
                        node_alias@,
                        recv_time,
                    ));
                }
            },
            None => {},
        }
    }

    /// Snapshot of the table: each written-to alias with its round trip;
    /// unanswered nodes report `-1`.
    pub fn result(&self) -> (r: Option<TimingResult>)
        ensures
            r is Some,
            r matches Some(v) ==> v@.len() == self.entries().len() && (forall|i: int|
                0 <= i < v@.len() ==> v@[i].0@ == self.entries()[i].0 && v@[i].1
                    == self.entries()[i].2),
    {
        let mut out: TimingResult = Vec::new();
        let mut i: usize = 0;
        while i < self.replies.len()
            invariant
                i <= self.replies@.len(),
                out@.len() == i,
                forall|j: int|
                    0 <= j < i ==> out@[j].0@ == self.entries()[j].0 && out@[j].1
                        == self.entries()[j].2,
            decreases self.replies@.len() - i,
        {
            out.push((self.replies[i].node_alias.clone(), self.replies[i].round_trip));
            i += 1;
        }
        Some(out)
    }
}

} // verus!
