//! Presence: agents register as active by an edge under a well-known root,
//! count as active while that edge is fresh, and are notified one by one,
//! whatever becomes of the single notifications.

use crate::order::reversed;
use crate::path::{address_of, chatters_components, chatters_path, path_entry_hash};
use crate::time::whole_hours;
use crate::types::{copy_bytes, is_agent_key, Address, AgentId, ChatError, Edge, Timestamp};
use vstd::prelude::*;

verus! {

/// The hours for which a registration counts.
pub const CHATTER_REFRESH_HOURS: i64 = 2;

/// What became of a broadcast: the presence edges seen, the agents among
/// them that are active and not the sender, and the notifications that were
/// delivered without an error.
#[derive(Clone, Copy, Debug, PartialEq, Eq, Structural)]
pub struct SigResults {
    pub total: usize,
    pub active: usize,
    pub sent: usize,
}

/// Whether a presence edge counts at `now`: fewer than `window` whole hours
/// have passed since it was made, and its tag holds an agent's key.
pub open spec fn is_present(edge: Edge, now: Timestamp, window: i64) -> bool {
    &&& whole_hours(now.micros - edge.timestamp.micros) < window
    &&& is_agent_key(edge.tag@)
}

/// The keys of the agents that are active, each once, in the order in which
/// they first occur.
pub open spec fn active_keys(edges: Seq<Edge>, now: Timestamp, window: i64) -> Seq<Seq<u8>>
    decreases edges.len(),
{
    if edges.len() == 0 {
        Seq::empty()
    } else {
        let before = active_keys(edges.drop_last(), now, window);
        let last = edges.last();
        if is_present(last, now, window) && !before.contains(last.tag@) {
            before.push(last.tag@)
        } else {
            before
        }
    }
}

/// The keys of the agents to notify: the active ones but for the sender.
pub open spec fn recipient_keys(edges: Seq<Edge>, me: Seq<u8>, now: Timestamp, window: i64) -> Seq<
    Seq<u8>,
> {
    active_keys(edges, now, window).filter(|key: Seq<u8>| key != me)
}

/// How many of the first `limit` notifications went out without an error.
pub open spec fn delivered_count(delivered: Seq<Result<(), ChatError>>, limit: int) -> int
    decreases limit,
{
    if limit <= 0 || limit > delivered.len() {
        0
    } else {
        delivered_count(delivered, limit - 1) + if delivered[limit - 1] is Ok {
            1int
        } else {
            0int
        }
    }
}

/// The keys of a sequence of agents.
pub open spec fn agent_views(agents: Seq<AgentId>) -> Seq<Seq<u8>> {
    agents.map_values(|agent: AgentId| agent@)
}

#[verifier::external_type_specification]
#[verifier::external_body]
pub struct ExHoloHashError(hdk::prelude::holo_hash::HoloHashError);

/// `holo_hash::HoloHash::try_from_raw_39` for an agent's key, and then
/// `into_inner`: it accepts exactly the 39 bytes that begin with the prefix
/// of an agent's key, and the key holds the bytes it was made from.
#[verifier::external_body]
fn agent_key_from_raw_39(raw: Vec<u8>) -> (key: Result<
    Vec<u8>,
    hdk::prelude::holo_hash::HoloHashError,
>)
    ensures
        key is Ok <==> is_agent_key(raw@),
        key matches Ok(bytes) ==> bytes@ == raw@,
{
    match hdk::prelude::AgentPubKey::try_from_raw_39(raw) {
        Ok(key) => Ok(key.into_inner()),
        Err(error) => Err(error),
    }
}

/// The tag under which an agent registers: the bytes of its key.
pub fn agent_to_tag(agent: &AgentId) -> (tag: Vec<u8>)
    ensures
        tag@ == agent@,
        is_agent_key(tag@),
{
    copy_bytes(agent.as_bytes())
}

/// The agent that a presence tag names. A tag that does not hold an agent's
/// key names none.
pub fn tag_to_agent(tag: &Vec<u8>) -> (agent: Result<AgentId, ChatError>)
    ensures
        is_agent_key(tag@) <==> agent is Ok,
        agent matches Ok(named) ==> named@ == tag@,
        agent matches Err(error) ==> error == ChatError::MalformedPresenceTag,
{
    match agent_key_from_raw_39(copy_bytes(tag)) {
        Ok(bytes) => Ok(AgentId::from_key_bytes(bytes)),
        Err(_) => Err(ChatError::MalformedPresenceTag),
    }
}

/// The active keys are distinct, there are no more of them than edges, and a
/// key is among them exactly if an edge that counts carries it.
pub proof fn lemma_active_keys(edges: Seq<Edge>, now: Timestamp, window: i64)
    ensures
        active_keys(edges, now, window).no_duplicates(),
        active_keys(edges, now, window).len() <= edges.len(),
        forall|key: Seq<u8>| #[trigger]
            active_keys(edges, now, window).contains(key) <==> exists|k: int|
                0 <= k < edges.len() && is_present(#[trigger] edges[k], now, window)
                    && edges[k].tag@ == key,
    decreases edges.len(),
{
    if edges.len() > 0 {
        let rest = edges.drop_last();
        let last = edges.last();
        let before = active_keys(rest, now, window);
        let keys = active_keys(edges, now, window);
        lemma_active_keys(rest, now, window);
        assert forall|key: Seq<u8>| #[trigger]
            keys.contains(key) <==> exists|k: int|
                0 <= k < edges.len() && is_present(#[trigger] edges[k], now, window)
                    && edges[k].tag@ == key by {
            if keys.contains(key) {
                if before.contains(key) {
                    let k = choose|k: int|
                        0 <= k < rest.len() && is_present(#[trigger] rest[k], now, window)
                            && rest[k].tag@ == key;
                    assert(edges[k] == rest[k]);
                } else {
                    let at = choose|at: int| 0 <= at < keys.len() && keys[at] == key;
                    assert(at == before.len());
                    assert(edges[edges.len() - 1] == last);
                }
            }
            if exists|k: int|
                0 <= k < edges.len() && is_present(#[trigger] edges[k], now, window)
                    && edges[k].tag@ == key {
                let k = choose|k: int|
                    0 <= k < edges.len() && is_present(#[trigger] edges[k], now, window)
                        && edges[k].tag@ == key;
                if k < rest.len() {
                    assert(rest[k] == edges[k]);
                    assert(before.contains(key));
                    let at = choose|at: int| 0 <= at < before.len() && before[at] == key;
                    assert(keys[at] == key);
                } else if before.contains(key) {
                    let at = choose|at: int| 0 <= at < before.len() && before[at] == key;
                    assert(keys[at] == key);
                } else {
                    assert(keys[before.len() as int] == key);
                }
            }
        }
    }
}

/// An agent that registered is active for as long as its edge is fresh.
pub proof fn lemma_present_is_active(edges: Seq<Edge>, k: int, now: Timestamp, window: i64)
    requires
        0 <= k < edges.len(),
        is_present(edges[k], now, window),
    ensures
        active_keys(edges, now, window).contains(edges[k].tag@),
{
    lemma_active_keys(edges, now, window);
}

/// An agent that has just registered is active, whatever window of an hour
/// or more is asked for.
pub proof fn lemma_refreshed_is_active(edges: Seq<Edge>, k: int, now: Timestamp, window: i64)
    requires
        0 <= k < edges.len(),
        is_agent_key(edges[k].tag@),
        edges[k].timestamp == now,
        window >= 1,
    ensures
        active_keys(edges, now, window).contains(edges[k].tag@),
{
    lemma_present_is_active(edges, k, now, window);
}

/// A wider window never shows fewer active agents.
pub proof fn lemma_window_monotone(edges: Seq<Edge>, now: Timestamp, narrow: i64, wide: i64)
    requires
        narrow <= wide,
    ensures
        active_keys(edges, now, narrow).len() <= active_keys(edges, now, wide).len(),
{
    let few = active_keys(edges, now, narrow);
    let many = active_keys(edges, now, wide);
    lemma_active_keys(edges, now, narrow);
    lemma_active_keys(edges, now, wide);
    few.unique_seq_to_set();
    many.unique_seq_to_set();
    assert forall|key: Seq<u8>| few.to_set().contains(key) implies many.to_set().contains(key) by {
        assert(few.contains(key));
        let k = choose|k: int|
            0 <= k < edges.len() && is_present(#[trigger] edges[k], now, narrow) && edges[k].tag@
                == key;
        assert(is_present(edges[k], now, wide));
        assert(many.contains(key));
    }
    vstd::set_lib::lemma_len_subset(few.to_set(), many.to_set());
}

/// There are no more recipients than active agents, and so no more than
/// presence edges.
pub proof fn lemma_recipients_bounded(edges: Seq<Edge>, me: Seq<u8>, now: Timestamp, window: i64)
    ensures
        recipient_keys(edges, me, now, window).len() <= active_keys(edges, now, window).len(),
        recipient_keys(edges, me, now, window).len() <= edges.len(),
        !recipient_keys(edges, me, now, window).contains(me),
{
    let keys = active_keys(edges, now, window);
    let others = |key: Seq<u8>| key != me;
    lemma_active_keys(edges, now, window);
    keys.lemma_filter_len(others);
    if keys.filter(others).contains(me) {
        let at = choose|at: int| 0 <= at < keys.filter(others).len() && keys.filter(others)[at]
            == me;
        keys.lemma_filter_pred(others, at);
    }
}

/// Whether the agent is among the agents.
pub fn contains_agent(agents: &Vec<AgentId>, agent: &AgentId) -> (found: bool)
    ensures
        found == agent_views(agents@).contains(agent@),
{
    let mut at: usize = 0;
    while at < agents.len()
        invariant
            at <= agents.len(),
            forall|k: int| 0 <= k < at ==> agent_views(agents@)[k] != agent@,
        decreases agents.len() - at,
    {
        if agents[at].same_as(agent) {
            assert(agent_views(agents@)[at as int] == agent@);
            return true;
        }
        at += 1;
    }
    false
}

/// The agents that are active at `now`: those named by a presence edge that
/// is less than `window` whole hours old. Each agent is listed once, in the
/// order of its first edge; an edge whose tag names no agent is passed over.
pub fn active_agents(edges: &Vec<Edge>, now: Timestamp, window: i64) -> (agents: Vec<AgentId>)
    ensures
        agent_views(agents@) == active_keys(edges@, now, window),
        agents.len() <= edges.len(),
{
    let mut agents: Vec<AgentId> = Vec::new();
    let mut at: usize = 0;
    while at < edges.len()
        invariant
            at <= edges.len(),
            agent_views(agents@) == active_keys(edges@.take(at as int), now, window),
        decreases edges.len() - at,
    {
        assert(edges@.take(at + 1).drop_last() =~= edges@.take(at as int));
        let edge = &edges[at];
        if now.within_hours(edge.timestamp, window) {
            match tag_to_agent(&edge.tag) {
                Ok(agent) => {
                    if !contains_agent(&agents, &agent) {
                        agents.push(agent);
                    }
                },
                Err(_) => {},
            }
        }
        at += 1;
    }
    assert(edges@.take(edges.len() as int) =~= edges@);
    proof {
        lemma_active_keys(edges@, now, window);
    }
    agents
}

/// A broadcast that is under way: how many presence edges were seen, and
/// the agents to notify.
#[derive(Debug, PartialEq, Eq)]
pub struct Broadcast {
    total: usize,
    recipients: Vec<AgentId>,
}

impl Broadcast {
    #[verifier::type_invariant]
    spec fn well_formed(self) -> bool {
        self.recipients@.len() <= self.total
    }

    /// The number of presence edges that were seen.
    pub closed spec fn seen(self) -> nat {
        self.total as nat
    }

    /// The keys of the agents to notify.
    pub closed spec fn keys(self) -> Seq<Seq<u8>> {
        agent_views(self.recipients@)
    }

    /// The number of presence edges that were seen.
    pub fn total(&self) -> (total: usize)
        ensures
            total == self.seen(),
    {
        self.total
    }

    /// The agents to notify, in the order in which to report on them.
    pub fn recipients(&self) -> (recipients: &Vec<AgentId>)
        ensures
            agent_views(recipients@) == self.keys(),
            recipients.len() <= self.seen(),
    {
        proof {
            use_type_invariant(self);
        }
        &self.recipients
    }

    /// Sums up the broadcast. `delivered` holds for each recipient in turn
    /// what its notification came back with; a recipient that it holds
    /// nothing for counts as not reached.
    pub fn results(&self, delivered: &Vec<Result<(), ChatError>>) -> (results: SigResults)
        ensures
            results.total == self.seen(),
            results.active == self.keys().len(),
            results.sent == delivered_count(
                delivered@,
                if delivered@.len() <= self.keys().len() {
                    delivered@.len() as int
                } else {
                    self.keys().len() as int
                },
            ),
            results.sent <= results.active <= results.total,
    {
        proof {
            use_type_invariant(self);
        }
        let active: usize = self.recipients.len();
        let limit: usize = if delivered.len() <= active {
            delivered.len()
        } else {
            active
        };
        let mut sent: usize = 0;
        let mut at: usize = 0;
        while at < limit
            invariant
                at <= limit <= delivered.len(),
                sent == delivered_count(delivered@, at as int),
                sent <= at,
            decreases limit - at,
        {
            if delivered[at].is_ok() {
                sent += 1;
            }
            at += 1;
        }
        SigResults { total: self.total, active, sent }
    }
}

/// The agents but for the given one, in their order.
pub fn without_agent(agents: Vec<AgentId>, me: &AgentId) -> (others: Vec<AgentId>)
    ensures
        agent_views(others@) == agent_views(agents@).filter(|key: Seq<u8>| key != me@),
{
    let ghost all = agent_views(agents@);
    let ghost other = |key: Seq<u8>| key != me@;
    let mut pending = reversed(agents);
    let mut others: Vec<AgentId> = Vec::new();
    let ghost mut done: int = 0;
    proof {
        reveal(Seq::filter);
    }
    while pending.len() > 0
        invariant
            0 <= done,
            pending@.len() + done == all.len(),
            forall|k: int| 0 <= k < pending@.len() ==> pending@[k]@ == all[all.len() - 1 - k],
            agent_views(others@) == all.take(done).filter(other),
            other == |key: Seq<u8>| key != me@,
        decreases pending.len(),
    {
        let agent = pending.pop().unwrap();
        proof {
            reveal(Seq::filter);
            assert(all.take(done + 1).drop_last() =~= all.take(done));
        }
        if !agent.same_as(me) {
            others.push(agent);
        }
        proof {
            done = done + 1;
        }
    }
    assert(all.take(done) =~= all);
    others
}

/// Plans a broadcast: counts the presence edges and picks the agents to
/// notify, which are the active ones but for the sender.
pub fn signal_chatters(chatters: &Vec<Edge>, me: &AgentId, now: Timestamp, window: i64) -> (plan:
    Broadcast)
    ensures
        plan.seen() == chatters.len(),
        plan.keys() == recipient_keys(chatters@, me@, now, window),
{
    let recipients = without_agent(active_agents(chatters, now, window), me);
    proof {
        lemma_recipients_bounded(chatters@, me@, now, window);
    }
    Broadcast { total: chatters.len(), recipients }
}

/// The edge by which an agent registers as active: from the presence root
/// to the agent, tagged with the agent's key.
pub fn presence_edge(root: Address, me: &AgentId, now: Timestamp) -> (edge: Edge)
    ensures
        edge.source == root,
        edge.target@ == me@,
        edge.tag@ == me@,
        edge.timestamp == now,
        forall|window: i64| window >= 1 ==> is_present(edge, now, window),
{
    let edge = Edge {
        source: root,
        target: copy_bytes(me.as_bytes()),
        tag: agent_to_tag(me),
        timestamp: now,
    };
    edge
}

/// Registers an agent as active, or refreshes its registration: says which
/// edge to add to the store. Fails exactly where the presence root has no
/// address.
pub fn refresh_chatter(me: &AgentId, now: Timestamp) -> (edge: Result<Edge, ChatError>)
    ensures
        edge is Ok <==> path_entry_hash(chatters_components()) is Some,
        edge matches Ok(added) ==> {
            &&& path_entry_hash(chatters_components()) == Some(added.source@)
            &&& added.target@ == me@
            &&& added.tag@ == me@
            &&& added.timestamp == now
            &&& forall|window: i64| window >= 1 ==> is_present(added, now, window)
        },
        edge matches Err(error) ==> error == ChatError::Address,
{
    match address_of(&chatters_path()) {
        Ok(root) => Ok(presence_edge(root, me, now)),
        Err(error) => Err(error),
    }
}

} // verus!
