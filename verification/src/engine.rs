//! The request lifecycle engine: drives one query from creation to a single
//! terminal result, folding node replies and timeouts into a quorum
//! predicate and verifying embedded Merkle proofs before counting a reply.

use vstd::prelude::*;
use crate::bytes::{bytes_eq, copy_bytes, str_eq};
use crate::hash::{leaf_hash_of, path_view, root_from, verify_inclusion};
use crate::requests::{
    spec_received, spec_sent, Message, MerkleProof, RequestEvent, RequestExtEvent, RequestHandle,
    RequestResult, RequestState, RequestTarget, RequestTiming, TimingResult, VdrError, state_rank,
};

verus! {

/// How one targeted node has resolved so far.
pub enum NodeOutcome {
    /// Neither a reply nor a timeout yet.
    Pending,
    /// A verified reply with this normalized content.
    Replied(Vec<u8>),
    /// The node is treated as permanently non-responsive.
    TimedOut,
    /// The transport could not reach the node at send time.
    Unreachable,
}

/// Abstract value of a node outcome.
pub enum OutcomeView {
    Pending,
    Replied(Seq<u8>),
    TimedOut,
    Unreachable,
}

/// Abstract value of a parsed reply.
pub struct MessageView {
    pub content: Seq<u8>,
    pub proof: Option<Seq<(bool, Seq<u8>)>>,
}

/// Abstract value of a terminal result.
pub enum ResultView {
    Replied(Seq<u8>),
    Failed(VdrError),
}

/// Abstract value of one audit-history entry.
pub enum ExtEventView {
    Init,
    Sent(Seq<char>, u64),
    Received(Seq<char>, Seq<char>, MessageView, u64),
    Timeout(Seq<char>),
}

pub open spec fn outcome_view(o: NodeOutcome) -> OutcomeView {
    match o {
        NodeOutcome::Pending => OutcomeView::Pending,
        NodeOutcome::Replied(c) => OutcomeView::Replied(c@),
        NodeOutcome::TimedOut => OutcomeView::TimedOut,
        NodeOutcome::Unreachable => OutcomeView::Unreachable,
    }
}

pub open spec fn message_view(m: Message) -> MessageView {
    MessageView {
        content: m.content@,
        proof: match m.proof {
            Some(p) => Some(path_view(p.path@)),
            None => None,
        },
    }
}

pub open spec fn ext_event_view(e: RequestExtEvent) -> ExtEventView {
    match e {
        RequestExtEvent::Init => ExtEventView::Init,
        RequestExtEvent::Sent(n, t) => ExtEventView::Sent(n@, t),
        RequestExtEvent::Received(n, raw, m, t) => ExtEventView::Received(
            n@,
            raw@,
            message_view(m),
            t,
        ),
        RequestExtEvent::Timeout(n) => ExtEventView::Timeout(n@),
    }
}

/// Position of the first node named `alias`, or `-1` if none is.
pub open spec fn find_node(nodes: Seq<Seq<char>>, alias: Seq<char>) -> int
    decreases nodes.len(),
{
    if nodes.len() == 0 {
        -1
    } else if nodes[0] == alias {
        0
    } else if find_node(nodes.drop_first(), alias) < 0 {
        -1
    } else {
        find_node(nodes.drop_first(), alias) + 1
    }
}

pub proof fn lemma_find_node_at(nodes: Seq<Seq<char>>, alias: Seq<char>, i: int)
    requires
        0 <= i < nodes.len(),
        nodes[i] == alias,
        forall|j: int| 0 <= j < i ==> nodes[j] != alias,
    ensures
        find_node(nodes, alias) == i,
    decreases i,
{
    if i > 0 {
        lemma_find_node_at(nodes.drop_first(), alias, i - 1);
    }
}

pub proof fn lemma_find_node_none(nodes: Seq<Seq<char>>, alias: Seq<char>)
    requires
        forall|j: int| 0 <= j < nodes.len() ==> nodes[j] != alias,
    ensures
        find_node(nodes, alias) == -1,
    decreases nodes.len(),
{
    if nodes.len() > 0 {
        lemma_find_node_none(nodes.drop_first(), alias);
    }
}

/// How many nodes have returned a verified reply with exactly content `c`.
pub open spec fn count_matching(s: Seq<OutcomeView>, c: Seq<u8>) -> int
    decreases s.len(),
{
    if s.len() == 0 {
        0
    } else {
        count_matching(s.drop_last(), c) + if s.last() == OutcomeView::Replied(c) {
            1int
        } else {
            0int
        }
    }
}

/// Whether every targeted node has replied, timed out, or was unreachable.
pub open spec fn all_resolved(s: Seq<OutcomeView>) -> bool {
    forall|i: int| 0 <= i < s.len() ==> !(s[i] is Pending)
}

/// Whether some content value has been returned by at least `threshold`
/// distinct nodes.
pub open spec fn has_quorum(s: Seq<OutcomeView>, threshold: int) -> bool {
    exists|c: Seq<u8>| count_matching(s, c) >= threshold
}

pub proof fn lemma_count_update(s: Seq<OutcomeView>, i: int, v: OutcomeView, c: Seq<u8>)
    requires
        0 <= i < s.len(),
    ensures
        count_matching(s.update(i, v), c) == count_matching(s, c) + (if v == OutcomeView::Replied(
            c,
        ) {
            1int
        } else {
            0int
        }) - (if s[i] == OutcomeView::Replied(c) {
            1int
        } else {
            0int
        }),
    decreases s.len(),
{
    let su = s.update(i, v);
    if i == s.len() - 1 {
        assert(su.drop_last() =~= s.drop_last());
        assert(su.last() == v);
    } else {
        assert(su.drop_last() =~= s.drop_last().update(i, v));
        assert(su.last() == s.last());
        lemma_count_update(s.drop_last(), i, v, c);
    }
}

pub proof fn lemma_count_no_replies(s: Seq<OutcomeView>, c: Seq<u8>)
    requires
        forall|i: int| 0 <= i < s.len() ==> !(s[i] is Replied),
    ensures
        count_matching(s, c) == 0,
    decreases s.len(),
{
    if s.len() > 0 {
        lemma_count_no_replies(s.drop_last(), c);
    }
}

/// Whether a reply may be counted: a reply without a proof, or one whose
/// inclusion proof recomputes the trusted root, counts; when no root is
/// pinned yet, proofs are not checked.
pub open spec fn spec_reply_verified(m: MessageView, root: Option<Seq<u8>>) -> bool {
    match m.proof {
        None => true,
        Some(p) => match root {
            None => true,
            Some(rt) => root_from(leaf_hash_of(m.content), p) == rt,
        },
    }
}

/// One in-flight query: owns its state, resolved targets, timing table,
/// audit history, per-node outcomes and terminal result.
pub struct PoolRequest {
    handle: RequestHandle,
    state: RequestState,
    nodes: Vec<String>,
    threshold: usize,
    deadline: u64,
    trusted_root: Option<Vec<u8>>,
    timing: RequestTiming,
    events: Vec<RequestExtEvent>,
    outcomes: Vec<NodeOutcome>,
    result: Option<RequestResult<Vec<u8>>>,
}

impl PoolRequest {
    pub closed spec fn spec_handle(&self) -> RequestHandle {
        self.handle
    }

    pub closed spec fn spec_state(&self) -> RequestState {
        self.state
    }

    pub closed spec fn nodes_view(&self) -> Seq<Seq<char>> {
        self.nodes@.map_values(|n: String| n@)
    }

    pub closed spec fn spec_threshold(&self) -> int {
        self.threshold as int
    }

    pub closed spec fn spec_deadline(&self) -> u64 {
        self.deadline
    }

    pub closed spec fn root_view(&self) -> Option<Seq<u8>> {
        match self.trusted_root {
            Some(r) => Some(r@),
            None => None,
        }
    }

    pub closed spec fn outcomes_vw(&self) -> Seq<OutcomeView> {
        self.outcomes@.map_values(|o: NodeOutcome| outcome_view(o))
    }

    pub closed spec fn timing_entries(&self) -> Seq<(Seq<char>, u64, i64)> {
        self.timing.entries()
    }

    pub closed spec fn events_view(&self) -> Seq<ExtEventView> {
        self.events@.map_values(|e: RequestExtEvent| ext_event_view(e))
    }

    pub closed spec fn result_view(&self) -> Option<ResultView> {
        match self.result {
            None => None,
            Some(RequestResult::Reply(v)) => Some(ResultView::Replied(v@)),
            Some(RequestResult::Failed(e)) => Some(ResultView::Failed(e)),
        }
    }

    /// Internal consistency of a request, preserved by every operation:
    /// one outcome slot per targeted node, a meaningful threshold, a result
    /// exactly when terminated, and no quorum hiding in a live request.
    pub open spec fn wf(&self) -> bool {
        &&& self.nodes_view().len() >= 1
        &&& self.outcomes_vw().len() == self.nodes_view().len()
        &&& self.spec_threshold() >= 1
        &&& (self.result_view() is Some <==> self.spec_state() == RequestState::Terminated)
        &&& (self.spec_state() == RequestState::NotStarted ==> forall|i: int|
            0 <= i < self.outcomes_vw().len() ==> self.outcomes_vw()[i] is Pending)
        &&& (self.spec_state() != RequestState::Terminated ==> !has_quorum(
            self.outcomes_vw(),
            self.spec_threshold(),
        ))
        &&& (self.spec_state() == RequestState::Active ==> !all_resolved(self.outcomes_vw()))
    }

    /// Fields that no event or call may change after creation.
    pub open spec fn same_config(&self, other: &PoolRequest) -> bool {
        &&& self.spec_handle() == other.spec_handle()
        &&& self.nodes_view() == other.nodes_view()
        &&& self.spec_threshold() == other.spec_threshold()
        &&& self.spec_deadline() == other.spec_deadline()
        &&& self.root_view() == other.root_view()
    }
}

/// The per-node outcomes after a `Received` event for `alias` carrying `m`:
/// updated only if the alias is targeted, still pending, and the reply
/// verifies against the trusted root.
pub open spec fn received_accepted(pre: PoolRequest, alias: Seq<char>, m: MessageView) -> bool {
    let i = find_node(pre.nodes_view(), alias);
    &&& i >= 0
    &&& pre.outcomes_vw()[i] is Pending
    &&& spec_reply_verified(m, pre.root_view())
}

pub open spec fn outcomes_after_received(pre: PoolRequest, alias: Seq<char>, m: MessageView) -> Seq<
    OutcomeView,
> {
    if received_accepted(pre, alias, m) {
        pre.outcomes_vw().update(find_node(pre.nodes_view(), alias), OutcomeView::Replied(m.content))
    } else {
        pre.outcomes_vw()
    }
}

/// Whether this reply completes a quorum on its content.
pub open spec fn quorum_after_received(pre: PoolRequest, alias: Seq<char>, m: MessageView) -> bool {
    &&& received_accepted(pre, alias, m)
    &&& count_matching(outcomes_after_received(pre, alias, m), m.content) >= pre.spec_threshold()
}

/// Whether the request terminates on this reply: quorum, exhaustion of all
/// targeted nodes, or the global deadline.
pub open spec fn done_after_received(
    pre: PoolRequest,
    alias: Seq<char>,
    m: MessageView,
    now: u64,
) -> bool {
    ||| quorum_after_received(pre, alias, m)
    ||| all_resolved(outcomes_after_received(pre, alias, m))
    ||| now >= pre.spec_deadline()
}

/// Whether a `Timeout` event for `alias` marks a node: it must be targeted
/// and still pending.
pub open spec fn timeout_marked(pre: PoolRequest, alias: Seq<char>) -> bool {
    let i = find_node(pre.nodes_view(), alias);
    i >= 0 && pre.outcomes_vw()[i] is Pending
}

pub open spec fn outcomes_after_timeout(pre: PoolRequest, alias: Seq<char>) -> Seq<OutcomeView> {
    if timeout_marked(pre, alias) {
        pre.outcomes_vw().update(find_node(pre.nodes_view(), alias), OutcomeView::TimedOut)
    } else {
        pre.outcomes_vw()
    }
}

pub open spec fn done_after_timeout(pre: PoolRequest, alias: Seq<char>, now: u64) -> bool {
    all_resolved(outcomes_after_timeout(pre, alias)) || now >= pre.spec_deadline()
}

/// The outcomes after the transport reported that `alias` cannot be reached.
pub open spec fn outcomes_after_unreachable(pre: PoolRequest, alias: Seq<char>) -> Seq<
    OutcomeView,
> {
    if timeout_marked(pre, alias) {
        pre.outcomes_vw().update(find_node(pre.nodes_view(), alias), OutcomeView::Unreachable)
    } else {
        pre.outcomes_vw()
    }
}

/// The timing table after a send was recorded for each alias in turn.
pub open spec fn spec_sent_all(
    entries: Seq<(Seq<char>, u64, i64)>,
    aliases: Seq<Seq<char>>,
    t: u64,
) -> Seq<(Seq<char>, u64, i64)>
    decreases aliases.len(),
{
    if aliases.len() == 0 {
        entries
    } else {
        spec_sent_all(spec_sent(entries, aliases[0], t), aliases.drop_first(), t)
    }
}

pub proof fn lemma_sent_all_push(
    entries: Seq<(Seq<char>, u64, i64)>,
    aliases: Seq<Seq<char>>,
    x: Seq<char>,
    t: u64,
)
    ensures
        spec_sent_all(entries, aliases.push(x), t) == spec_sent(
            spec_sent_all(entries, aliases, t),
            x,
            t,
        ),
    decreases aliases.len(),
{
    if aliases.len() == 0 {
        assert(aliases.push(x).drop_first() =~= Seq::<Seq<char>>::empty());
        assert(aliases.push(x)[0] == x);
        assert(spec_sent_all(spec_sent(entries, x, t), Seq::<Seq<char>>::empty(), t) == spec_sent(
            entries,
            x,
            t,
        ));
        assert(spec_sent_all(entries, aliases.push(x), t) == spec_sent(entries, x, t));
        assert(spec_sent_all(entries, aliases, t) == entries);
    } else {
        assert(aliases.push(x).drop_first() =~= aliases.drop_first().push(x));
        assert(aliases.push(x)[0] == aliases[0]);
        lemma_sent_all_push(spec_sent(entries, aliases[0], t), aliases.drop_first(), x, t);
        assert(spec_sent_all(entries, aliases.push(x), t) == spec_sent_all(
            spec_sent(entries, aliases[0], t),
            aliases.drop_first().push(x),
            t,
        ));
        assert(spec_sent_all(entries, aliases, t) == spec_sent_all(
            spec_sent(entries, aliases[0], t),
            aliases.drop_first(),
            t,
        ));
    }
}

/// The audit entries appended when the request goes out to each alias.
pub open spec fn sent_events(aliases: Seq<Seq<char>>, t: u64) -> Seq<ExtEventView> {
    aliases.map_values(|a: Seq<char>| ExtEventView::Sent(a, t))
}

impl PoolRequest {
    /// A new request over an already-resolved target: the node aliases to
    /// query, the quorum threshold, the absolute deadline in milliseconds,
    /// and the Merkle root the caller currently trusts (if any).
    pub fn create(
        handle: RequestHandle,
        nodes: Vec<String>,
        threshold: usize,
        deadline: u64,
        trusted_root: Option<Vec<u8>>,
    ) -> (r: PoolRequest)
        requires
            nodes@.len() >= 1,
            threshold >= 1,
        ensures
            r.wf(),
            r.spec_state() == RequestState::NotStarted,
            r.spec_handle() == handle,
            r.nodes_view() == nodes@.map_values(|n: String| n@),
            r.spec_threshold() == threshold,
            r.spec_deadline() == deadline,
            r.root_view() == (match trusted_root {
                Some(rt) => Some(rt@),
                None => None::<Seq<u8>>,
            }),
            r.events_view() == seq![ExtEventView::Init],
            r.timing_entries() == Seq::<(Seq<char>, u64, i64)>::empty(),
            r.outcomes_vw() == Seq::new(nodes@.len(), |i: int| OutcomeView::Pending),
            r.result_view() is None,
    {
        let mut outcomes: Vec<NodeOutcome> = Vec::new();
        let mut i: usize = 0;
        while i < nodes.len()
            invariant
                i <= nodes@.len(),
                outcomes@.len() == i,
                forall|j: int| 0 <= j < i ==> outcomes@[j] is Pending,
            decreases nodes@.len() - i,
        {
            outcomes.push(NodeOutcome::Pending);
            i += 1;
        }
        let mut events: Vec<RequestExtEvent> = Vec::new();
        events.push(RequestExtEvent::Init);
        let r = PoolRequest {
            handle,
            state: RequestState::NotStarted,
            nodes,
            threshold,
            deadline,
            trusted_root,
            timing: RequestTiming::new(),
            events,
            outcomes,
            result: None,
        };
        proof {
            assert(r.events_view() =~= seq![ExtEventView::Init]);
            assert(r.outcomes_vw() =~= Seq::new(r.nodes@.len(), |i: int| OutcomeView::Pending));
            assert forall|c: Seq<u8>| count_matching(r.outcomes_vw(), c) < r.spec_threshold() by {
                lemma_count_no_replies(r.outcomes_vw(), c);
            }
        }
        r
    }

    /// Index of the targeted node named `alias`, if it is targeted.
    fn find_node_idx(&self, alias: &str) -> (r: Option<usize>)
        ensures
            r matches Some(i) ==> i < self.nodes_view().len() && find_node(
                self.nodes_view(),
                alias@,
            ) == i,
            r is None ==> find_node(self.nodes_view(), alias@) == -1,
    {
        let mut i: usize = 0;
        while i < self.nodes.len()
            invariant
                i <= self.nodes@.len(),
                forall|j: int| 0 <= j < i ==> self.nodes_view()[j] != alias@,
            decreases self.nodes@.len() - i,
        {
            if str_eq(self.nodes[i].as_str(), alias) {
                proof {
                    assert(self.nodes_view()[i as int] == alias@);
                    lemma_find_node_at(self.nodes_view(), alias@, i as int);
                }
                return Some(i);
            }
            proof {
                assert(self.nodes_view()[i as int] != alias@);
            }
            i += 1;
        }
        proof {
            lemma_find_node_none(self.nodes_view(), alias@);
        }
        None
    }

    /// How many nodes so far returned a verified reply with this content.
    fn count_replies(&self, content: &Vec<u8>) -> (r: usize)
        ensures
            r == count_matching(self.outcomes_vw(), content@),
    {
        let mut cnt: usize = 0;
        let mut i: usize = 0;
        while i < self.outcomes.len()
            invariant
                i <= self.outcomes@.len(),
                cnt <= i,
                cnt == count_matching(self.outcomes_vw().take(i as int), content@),
            decreases self.outcomes@.len() - i,
        {
            proof {
                assert(self.outcomes_vw().take(i as int + 1).drop_last() =~= self.outcomes_vw()
                    .take(i as int));
                assert(self.outcomes_vw().take(i as int + 1).last() == self.outcomes_vw()[i as int]);
            }
            match &self.outcomes[i] {
                NodeOutcome::Replied(c) => {
                    if bytes_eq(c, content) {
                        cnt = cnt + 1;
                    }
                },
                _ => {},
            }
            i += 1;
        }
        proof {
            assert(self.outcomes_vw().take(self.outcomes@.len() as int) =~= self.outcomes_vw());
        }
        cnt
    }

    /// Whether every targeted node has replied, timed out or was unreachable.
    fn all_resolved_now(&self) -> (r: bool)
        ensures
            r == all_resolved(self.outcomes_vw()),
    {
        let mut i: usize = 0;
        while i < self.outcomes.len()
            invariant
                i <= self.outcomes@.len(),
                forall|j: int| 0 <= j < i ==> !(self.outcomes_vw()[j] is Pending),
            decreases self.outcomes@.len() - i,
        {
            match &self.outcomes[i] {
                NodeOutcome::Pending => {
                    proof {
                        assert(self.outcomes_vw()[i as int] is Pending);
                    }
                    return false;
                },
                _ => {},
            }
            i += 1;
        }
        true
    }
}


impl PoolRequest {
    /// Starts the request: transitions from `NotStarted` to `Active` and
    /// hands back the aliases the transport must now send to, recording a
    /// `Sent` audit entry and a timing-start entry for each. Any other
    /// state fails with `InvalidState` and changes nothing.
    pub fn send(&mut self, now: u64) -> (r: Result<Vec<String>, VdrError>)
        requires
            old(self).wf(),
        ensures
            final(self).wf(),
            final(self).same_config(old(self)),
            state_rank(old(self).spec_state()) <= state_rank(final(self).spec_state()),
            old(self).spec_state() != RequestState::NotStarted ==> r == Err::<
                Vec<String>,
                VdrError,
            >(VdrError::InvalidState) && *final(self) == *old(self),
            old(self).spec_state() == RequestState::NotStarted ==> ({
                &&& final(self).spec_state() == RequestState::Active
                &&& r matches Ok(v) && v@.map_values(|n: String| n@) == old(self).nodes_view()
                &&& final(self).outcomes_vw() == old(self).outcomes_vw()
                &&& final(self).result_view() is None
                &&& final(self).timing_entries() == spec_sent_all(
                    old(self).timing_entries(),
                    old(self).nodes_view(),
                    now,
                )
                &&& final(self).events_view() == old(self).events_view() + sent_events(
                    old(self).nodes_view(),
                    now,
                )
            }),
    {
        match self.state {
            RequestState::NotStarted => {},
            _ => {
                return Err(VdrError::InvalidState);
            },
        }
        self.state = RequestState::Active;
        let mut out: Vec<String> = Vec::new();
        let mut i: usize = 0;
        proof {
            assert(old(self).nodes_view().take(0) =~= Seq::<Seq<char>>::empty());
            assert(sent_events(Seq::<Seq<char>>::empty(), now) =~= Seq::<ExtEventView>::empty());
            assert(self.events_view() =~= old(self).events_view() + sent_events(
                old(self).nodes_view().take(0),
                now,
            ));
        }
        while i < self.nodes.len()
            invariant
                i <= self.nodes@.len(),
                self.handle == old(self).handle,
                self.state == RequestState::Active,
                self.nodes == old(self).nodes,
                self.threshold == old(self).threshold,
                self.deadline == old(self).deadline,
                self.trusted_root == old(self).trusted_root,
                self.outcomes == old(self).outcomes,
                self.result == old(self).result,
                out@.len() == i,
                forall|j: int| 0 <= j < i ==> out@[j] == self.nodes@[j],
                self.timing.entries() == spec_sent_all(
                    old(self).timing_entries(),
                    old(self).nodes_view().take(i as int),
                    now,
                ),
                self.events_view() == old(self).events_view() + sent_events(
                    old(self).nodes_view().take(i as int),
                    now,
                ),
            decreases self.nodes@.len() - i,
        {
            let alias = self.nodes[i].clone();
            proof {
                assert(alias@ == old(self).nodes_view()[i as int]);
            }
            let ghost pre_events = self.events_view();
            self.timing.sent(alias.as_str(), now);
            self.events.push(RequestExtEvent::Sent(alias.clone(), now));
            out.push(alias);
            proof {
                assert(old(self).nodes_view().take(i as int + 1) =~= old(self).nodes_view().take(
                    i as int,
                ).push(old(self).nodes_view()[i as int]));
                lemma_sent_all_push(
                    old(self).timing_entries(),
                    old(self).nodes_view().take(i as int),
                    old(self).nodes_view()[i as int],
                    now,
                );
                assert(self.events_view() =~= pre_events.push(
                    ExtEventView::Sent(old(self).nodes_view()[i as int], now),
                ));
                assert(sent_events(old(self).nodes_view().take(i as int + 1), now) =~= sent_events(
                    old(self).nodes_view().take(i as int),
                    now,
                ).push(ExtEventView::Sent(old(self).nodes_view()[i as int], now)));
                assert(self.events_view() =~= old(self).events_view() + sent_events(
                    old(self).nodes_view().take(i as int + 1),
                    now,
                ));
            }
            i += 1;
        }
        proof {
            assert(old(self).nodes_view().take(old(self).nodes@.len() as int) =~= old(self).nodes_view());
            assert(out@.map_values(|n: String| n@) =~= old(self).nodes_view());
            assert(self.outcomes_vw()[0] is Pending);
        }
        Ok(out)
    }

    /// Records that the transport could not reach `node_alias` at send time:
    /// the node is marked unreachable and no longer awaited, but the request
    /// goes on with the remaining nodes; it terminates with `Consensus`
    /// failure only if no node is left pending. A no-op unless `Active`.
    pub fn send_failed(&mut self, node_alias: &str)
        requires
            old(self).wf(),
        ensures
            final(self).wf(),
            final(self).same_config(old(self)),
            state_rank(old(self).spec_state()) <= state_rank(final(self).spec_state()),
            old(self).spec_state() != RequestState::Active ==> *final(self) == *old(self),
            old(self).spec_state() == RequestState::Active ==> ({
                &&& final(self).outcomes_vw() == outcomes_after_unreachable(
                    *old(self),
                    node_alias@,
                )
                &&& final(self).timing_entries() == old(self).timing_entries()
                &&& final(self).events_view() == old(self).events_view()
                &&& final(self).spec_state() == (if all_resolved(
                    outcomes_after_unreachable(*old(self), node_alias@),
                ) {
                    RequestState::Terminated
                } else {
                    RequestState::Active
                })
                &&& (all_resolved(outcomes_after_unreachable(*old(self), node_alias@)) ==> final(self).result_view() == Some(ResultView::Failed(VdrError::Consensus)))
                &&& (!all_resolved(outcomes_after_unreachable(*old(self), node_alias@)) ==> final(self).result_view() is None)
            }),
    {
        match self.state {
            RequestState::Active => {},
            _ => {
                return;
            },
        }
        match self.find_node_idx(node_alias) {
            Some(i) => {
                let pending = match &self.outcomes[i] {
                    NodeOutcome::Pending => true,
                    _ => false,
                };
                if pending {
                    self.outcomes[i] = NodeOutcome::Unreachable;
                    proof {
                        assert(find_node(old(self).nodes_view(), node_alias@) == i as int);
                        assert(self.outcomes_vw() =~= old(self).outcomes_vw().update(
                            i as int,
                            OutcomeView::Unreachable,
                        ));
                        assert(self.outcomes_vw() == outcomes_after_unreachable(
                            *old(self),
                            node_alias@,
                        ));
                        assert forall|d: Seq<u8>|
                            count_matching(self.outcomes_vw(), d) < self.spec_threshold() by {
                            lemma_count_update(
                                old(self).outcomes_vw(),
                                find_node(old(self).nodes_view(), node_alias@),
                                OutcomeView::Unreachable,
                                d,
                            );
                        }
                    }
                    if self.all_resolved_now() {
                        self.state = RequestState::Terminated;
                        self.result = Some(RequestResult::Failed(VdrError::Consensus));
                    }
                } else {
                    proof {
                        assert(self.outcomes_vw() =~= outcomes_after_unreachable(
                            *old(self),
                            node_alias@,
                        ));
                    }
                }
            },
            None => {
                proof {
                    assert(self.outcomes_vw() =~= outcomes_after_unreachable(
                        *old(self),
                        node_alias@,
                    ));
                }
            },
        }
    }

    /// Forces immediate termination with a `Cancelled` result, whatever the
    /// progress so far; fails with `InvalidState` if already terminated.
    pub fn cancel(&mut self) -> (r: Result<(), VdrError>)
        requires
            old(self).wf(),
        ensures
            final(self).wf(),
            final(self).same_config(old(self)),
            state_rank(old(self).spec_state()) <= state_rank(final(self).spec_state()),
            old(self).spec_state() == RequestState::Terminated ==> r == Err::<(), VdrError>(
                VdrError::InvalidState,
            ) && *final(self) == *old(self),
            old(self).spec_state() != RequestState::Terminated ==> ({
                &&& r == Ok::<(), VdrError>(())
                &&& final(self).spec_state() == RequestState::Terminated
                &&& final(self).result_view() == Some(ResultView::Failed(VdrError::Cancelled))
                &&& final(self).outcomes_vw() == old(self).outcomes_vw()
                &&& final(self).timing_entries() == old(self).timing_entries()
                &&& final(self).events_view() == old(self).events_view()
            }),
    {
        match self.state {
            RequestState::Terminated => Err(VdrError::InvalidState),
            _ => {
                self.state = RequestState::Terminated;
                self.result = Some(RequestResult::Failed(VdrError::Cancelled));
                Ok(())
            },
        }
    }

    /// The terminal result, once there is one: `None` while the request is
    /// not yet terminated, and after termination a copy of the single
    /// terminal result.
    pub fn result(&self) -> (r: Option<RequestResult<Vec<u8>>>)
        requires
            self.wf(),
        ensures
            r is Some <==> self.spec_state() == RequestState::Terminated,
            r is None <==> self.result_view() is None,
            r matches Some(RequestResult::Reply(v)) ==> self.result_view() == Some(
                ResultView::Replied(v@),
            ),
            r matches Some(RequestResult::Failed(e)) ==> self.result_view() == Some(
                ResultView::Failed(e),
            ),
    {
        match &self.result {
            None => None,
            Some(RequestResult::Reply(v)) => Some(RequestResult::Reply(copy_bytes(v))),
            Some(RequestResult::Failed(e)) => Some(RequestResult::Failed(*e)),
        }
    }

    /// The current lifecycle state.
    pub fn state(&self) -> (r: RequestState)
        ensures
            r == self.spec_state(),
    {
        self.state
    }

    /// The handle this request answers to.
    pub fn handle(&self) -> (r: RequestHandle)
        ensures
            r == self.spec_handle(),
    {
        self.handle
    }

    /// Snapshot of the per-node round-trip times in milliseconds; nodes
    /// still awaiting a reply report `-1`.
    pub fn get_timing(&self) -> (r: Option<TimingResult>)
        ensures
            r is Some,
            r matches Some(v) ==> v@.len() == self.timing_entries().len() && (forall|i: int|
                0 <= i < v@.len() ==> v@[i].0@ == self.timing_entries()[i].0 && v@[i].1
                    == self.timing_entries()[i].2),
    {
        self.timing.result()
    }

    /// Feeds one raw transport event into the request, valid only while
    /// `Active`; events for a not-yet-started or terminated request are
    /// silently dropped. A verified reply from a pending targeted node is
    /// recorded and the consensus predicate re-evaluated: quorum on the
    /// reply content terminates with that content; exhaustion of all nodes
    /// or the deadline terminates with a `Consensus` failure. A reply whose
    /// embedded proof does not recompute the trusted root, a duplicate
    /// reply, and a reply from an untargeted node are not counted.
    pub fn on_event(&mut self, event: RequestEvent, now: u64)
        requires
            old(self).wf(),
        ensures
            final(self).wf(),
            final(self).same_config(old(self)),
            state_rank(old(self).spec_state()) <= state_rank(final(self).spec_state()),
            old(self).spec_state() != RequestState::Active ==> *final(self) == *old(self),
            old(self).spec_state() == RequestState::Active ==> (match event {
                RequestEvent::Received(alias, raw, msg) => ({
                    &&& final(self).outcomes_vw() == outcomes_after_received(
                        *old(self),
                        alias@,
                        message_view(msg),
                    )
                    &&& final(self).timing_entries() == spec_received(
                        old(self).timing_entries(),
                        alias@,
                        now,
                    )
                    &&& final(self).events_view() == (if received_accepted(
                        *old(self),
                        alias@,
                        message_view(msg),
                    ) {
                        old(self).events_view().push(
                            ExtEventView::Received(alias@, raw@, message_view(msg), now),
                        )
                    } else {
                        old(self).events_view()
                    })
                    &&& final(self).spec_state() == (if done_after_received(
                        *old(self),
                        alias@,
                        message_view(msg),
                        now,
                    ) {
                        RequestState::Terminated
                    } else {
                        RequestState::Active
                    })
                    &&& (quorum_after_received(*old(self), alias@, message_view(msg)) ==> final(self).result_view() == Some(ResultView::Replied(message_view(msg).content)))
                    &&& (done_after_received(*old(self), alias@, message_view(msg), now)
                        && !quorum_after_received(*old(self), alias@, message_view(msg)) ==> final(self).result_view() == Some(ResultView::Failed(VdrError::Consensus)))
                    &&& (!done_after_received(*old(self), alias@, message_view(msg), now) ==> final(self).result_view() is None)
                }),
                RequestEvent::Timeout(alias) => ({
                    &&& final(self).outcomes_vw() == outcomes_after_timeout(*old(self), alias@)
                    &&& final(self).timing_entries() == old(self).timing_entries()
                    &&& final(self).events_view() == (if timeout_marked(*old(self), alias@) {
                        old(self).events_view().push(ExtEventView::Timeout(alias@))
                    } else {
                        old(self).events_view()
                    })
                    &&& final(self).spec_state() == (if done_after_timeout(
                        *old(self),
                        alias@,
                        now,
                    ) {
                        RequestState::Terminated
                    } else {
                        RequestState::Active
                    })
                    &&& (done_after_timeout(*old(self), alias@, now) ==> final(self).result_view()
                        == Some(ResultView::Failed(VdrError::Consensus)))
                    &&& (!done_after_timeout(*old(self), alias@, now) ==> final(self).result_view() is None)
                }),
            }),
    {
        match self.state {
            RequestState::Active => {},
            _ => {
                return;
            },
        }
        match event {
            RequestEvent::Received(alias, raw, msg) => {
                let ghost msg_v = message_view(msg);
                let ghost alias_v = alias@;
                let ghost raw_v = raw@;
                let idx_opt = self.find_node_idx(alias.as_str());
                self.timing.received(alias.as_str(), now);
                match idx_opt {
                    Some(i) => {
                        let pending = match &self.outcomes[i] {
                            NodeOutcome::Pending => true,
                            _ => false,
                        };
                        if pending {
                            let verified = match (&msg.proof, &self.trusted_root) {
                                (Some(p), Some(rt)) => verify_inclusion(&msg.content, &p.path, rt),
                                _ => true,
                            };
                            if verified {
                                proof {
                                    assert(received_accepted(*old(self), alias@, msg_v));
                                }
                                let content_for_count = copy_bytes(&msg.content);
                                let ghost pre_events = self.events_view();
                                self.outcomes[i] = NodeOutcome::Replied(copy_bytes(&msg.content));
                                self.events.push(RequestExtEvent::Received(alias, raw, msg, now));
                                proof {
                                    assert(find_node(old(self).nodes_view(), alias_v) == i as int);
                                    assert(self.outcomes_vw() =~= old(self).outcomes_vw().update(
                                        i as int,
                                        OutcomeView::Replied(msg_v.content),
                                    ));
                                    assert(self.outcomes_vw() == outcomes_after_received(
                                        *old(self),
                                        alias_v,
                                        msg_v,
                                    ));
                                    assert(self.events_view() =~= pre_events.push(
                                        ExtEventView::Received(alias_v, raw_v, msg_v, now),
                                    ));
                                }
                                let cnt = self.count_replies(&content_for_count);
                                if cnt >= self.threshold {
                                    self.state = RequestState::Terminated;
                                    self.result = Some(RequestResult::Reply(content_for_count));
                                } else {
                                    proof {
                                        assert forall|d: Seq<u8>|
                                            count_matching(self.outcomes_vw(), d)
                                                < self.spec_threshold() by {
                                            lemma_count_update(
                                                old(self).outcomes_vw(),
                                                i as int,
                                                OutcomeView::Replied(msg_v.content),
                                                d,
                                            );
                                        }
                                    }
                                    if self.all_resolved_now() {
                                        self.state = RequestState::Terminated;
                                        self.result = Some(
                                            RequestResult::Failed(VdrError::Consensus),
                                        );
                                    } else if now >= self.deadline {
                                        self.state = RequestState::Terminated;
                                        self.result = Some(
                                            RequestResult::Failed(VdrError::Consensus),
                                        );
                                    }
                                }
                            } else {
                                if now >= self.deadline {
                                    self.state = RequestState::Terminated;
                                    self.result = Some(RequestResult::Failed(VdrError::Consensus));
                                }
                            }
                        } else {
                            if now >= self.deadline {
                                self.state = RequestState::Terminated;
                                self.result = Some(RequestResult::Failed(VdrError::Consensus));
                            }
                        }
                    },
                    None => {
                        if now >= self.deadline {
                            self.state = RequestState::Terminated;
                            self.result = Some(RequestResult::Failed(VdrError::Consensus));
                        }
                    },
                }
            },
            RequestEvent::Timeout(alias) => {
                let ghost alias_v = alias@;
                let idx_opt = self.find_node_idx(alias.as_str());
                match idx_opt {
                    Some(i) => {
                        let pending = match &self.outcomes[i] {
                            NodeOutcome::Pending => true,
                            _ => false,
                        };
                        if pending {
                            let ghost pre_events = self.events_view();
                            self.outcomes[i] = NodeOutcome::TimedOut;
                            self.events.push(RequestExtEvent::Timeout(alias));
                            proof {
                                assert(find_node(old(self).nodes_view(), alias_v) == i as int);
                                assert(self.outcomes_vw() =~= old(self).outcomes_vw().update(
                                    i as int,
                                    OutcomeView::TimedOut,
                                ));
                                assert(self.outcomes_vw() == outcomes_after_timeout(
                                    *old(self),
                                    alias_v,
                                ));
                                assert(self.events_view() =~= pre_events.push(
                                    ExtEventView::Timeout(alias_v),
                                ));
                                assert forall|d: Seq<u8>|
                                    count_matching(self.outcomes_vw(), d)
                                        < self.spec_threshold() by {
                                    lemma_count_update(
                                        old(self).outcomes_vw(),
                                        i as int,
                                        OutcomeView::TimedOut,
                                        d,
                                    );
                                }
                            }
                            if self.all_resolved_now() {
                                self.state = RequestState::Terminated;
                                self.result = Some(RequestResult::Failed(VdrError::Consensus));
                            } else if now >= self.deadline {
                                self.state = RequestState::Terminated;
                                self.result = Some(RequestResult::Failed(VdrError::Consensus));
                            }
                        } else {
                            if now >= self.deadline {
                                self.state = RequestState::Terminated;
                                self.result = Some(RequestResult::Failed(VdrError::Consensus));
                            }
                        }
                    },
                    None => {
                        if now >= self.deadline {
                            self.state = RequestState::Terminated;
                            self.result = Some(RequestResult::Failed(VdrError::Consensus));
                        }
                    },
                }
            },
        }
    }
}

/// Deduplication is per node, not per event: a `Received` event for a node
/// whose outcome is already recorded changes no outcome, and so leaves every
/// quorum count exactly as it was.
pub proof fn lemma_duplicate_received_not_counted(
    pre: PoolRequest,
    alias: Seq<char>,
    m: MessageView,
)
    requires
        find_node(pre.nodes_view(), alias) >= 0,
        !(pre.outcomes_vw()[find_node(pre.nodes_view(), alias)] is Pending),
    ensures
        outcomes_after_received(pre, alias, m) == pre.outcomes_vw(),
        forall|c: Seq<u8>|
            count_matching(outcomes_after_received(pre, alias, m), c) == count_matching(
                pre.outcomes_vw(),
                c,
            ),
{
}

/// Tamper rejection at the consensus layer: a reply whose inclusion proof
/// does not recompute the pinned trusted root is treated as if it never
/// arrived — it changes no outcome and contributes to no quorum count.
pub proof fn lemma_unverified_reply_excluded(pre: PoolRequest, alias: Seq<char>, m: MessageView)
    requires
        pre.root_view() matches Some(rt) && m.proof matches Some(p) && root_from(
            leaf_hash_of(m.content),
            p,
        ) != rt,
    ensures
        outcomes_after_received(pre, alias, m) == pre.outcomes_vw(),
        forall|c: Seq<u8>|
            count_matching(outcomes_after_received(pre, alias, m), c) == count_matching(
                pre.outcomes_vw(),
                c,
            ),
{
}

/// Resolves a caller's target specification into a concrete node list and a
/// timeout, falling back to the policy-supplied defaults.
pub fn resolve_target(
    target: RequestTarget,
    default_nodes: &Vec<String>,
    default_timeout: i64,
) -> (r: (Vec<String>, i64))
    ensures
        target matches RequestTarget::Default ==> r.0@ == default_nodes@ && r.1 == default_timeout,
        target matches RequestTarget::Full(nodes_opt, timeout_opt) ==> ({
            &&& (nodes_opt matches Some(ns) ==> r.0@ == ns@)
            &&& (nodes_opt is None ==> r.0@ == default_nodes@)
            &&& (timeout_opt matches Some(t) ==> r.1 == t)
            &&& (timeout_opt is None ==> r.1 == default_timeout)
        }),
{
    match target {
        RequestTarget::Default => (clone_aliases(default_nodes), default_timeout),
        RequestTarget::Full(nodes_opt, timeout_opt) => {
            let nodes = match nodes_opt {
                Some(ns) => ns,
                None => clone_aliases(default_nodes),
            };
            let timeout = match timeout_opt {
                Some(t) => t,
                None => default_timeout,
            };
            (nodes, timeout)
        },
    }
}

/// A fresh copy of a node-alias list.
fn clone_aliases(nodes: &Vec<String>) -> (r: Vec<String>)
    ensures
        r@ == nodes@,
{
    let mut out: Vec<String> = Vec::new();
    let mut i: usize = 0;
    while i < nodes.len()
        invariant
            i <= nodes@.len(),
            out@ == nodes@.subrange(0, i as int),
        decreases nodes@.len() - i,
    {
        out.push(nodes[i].clone());
        proof {
            assert(out@ =~= nodes@.subrange(0, i as int + 1));
        }
        i += 1;
    }
    proof {
        assert(nodes@.subrange(0, nodes@.len() as int) =~= nodes@);
    }
    out
}

} // verus!
