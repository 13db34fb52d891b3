use vstd::prelude::*;
use std::collections::HashSet;
use vstd::std_specs::iter::IteratorSpec;
use rand::seq::IndexedRandom;
use crate::message::{Body, Event, Init, Message, Node};

verus! {

/// The payloads a broadcast node exchanges.
pub enum BroadcastPayload {
    Broadcast(Broadcast),
    BroadcastOk,
    Read,
    ReadOk(ReadOk),
    Topology(Topology),
    TopologyOk,
    Gossip(Gossip),
}

/// A message value to broadcast to the cluster.
pub struct Broadcast {
    pub message: usize,
}

/// The message values a node has received.
pub struct ReadOk {
    pub messages: Vec<usize>,
}

/// The neighbours of each node, as pairs of a node and its neighbours.
pub struct Topology {
    pub topology: Vec<(String, Vec<String>)>,
}

/// Message values passed on from one node to another.
pub struct Gossip {
    pub messages: Vec<usize>,
}

/// The abstract state of a broadcast node.
pub struct BroadcastState {
    pub id: Seq<char>,
    /// Id of the next reply this node sends.
    pub msg_id: usize,
    /// Message values that have been broadcast or gossiped to this node.
    pub messages: Set<usize>,
    /// The message values each other node is known to have.
    pub seen: Map<Seq<char>, Set<usize>>,
    /// Other known nodes in the topology.
    pub nodes: Set<Seq<char>>,
}

/// A node that spreads broadcast message values through the cluster by gossip.
pub struct BroadcastNode {
    id: String,
    msg_id: usize,
    messages: HashSet<usize>,
    seen: Vec<(String, HashSet<usize>)>,
    nodes: Vec<String>,
}

broadcast use {vstd::std_specs::hash::group_hash_axioms, Seq::lemma_push_to_set_commute};

/// The messages of `known` that are not in `except`, each once.
fn set_difference(known: &HashSet<usize>, except: &HashSet<usize>) -> (v: Vec<usize>)
    ensures
        v@.no_duplicates(),
        v@.to_set() == known@.difference(except@),
{
    let mut v: Vec<usize> = Vec::new();
    let ghost all = known.iter().remaining().unref();
    assert(all.take(0).to_set() =~= Set::<usize>::empty());
    assert(v@.to_set() =~= Set::<usize>::empty());
    for x in it: known.iter()
        invariant
            it.seq().unref() == all,
            all.no_duplicates(),
            all.to_set() == known@,
            v@.no_duplicates(),
            v@.to_set() == all.take(it.index()).to_set().difference(except@),
    {
        let ghost idx = it.index();
        let ghost old_v = v@;
        assert(*x == all[idx]);
        assert(all.take(idx + 1) =~= all.take(idx).push(all[idx]));
        assert(!all.take(idx).contains(all[idx])) by {
            if all.take(idx).contains(all[idx]) {
                let j = choose|j: int| 0 <= j < idx && all.take(idx)[j] == all[idx];
                assert(all[j] == all[idx]);
            }
        }
        if !except.contains(x) {
            v.push(*x);
            proof {
                assert(!old_v.contains(*x)) by {
                    if old_v.contains(*x) {
                        assert(old_v.to_set().contains(*x));
                    }
                }
                assert(v@.to_set() =~= old_v.to_set().insert(*x));
            }
        }
        assert(v@.to_set() =~= all.take(idx + 1).to_set().difference(except@));
    }
    assert(all.take(all.len() as int) =~= all);
    v
}


/// The names of the peers in `v`, in order.
pub open spec fn peer_names(v: Seq<(String, HashSet<usize>)>) -> Seq<Seq<char>> {
    v.map_values(|e: (String, HashSet<usize>)| e.0@)
}

/// The messages each peer of `v` is known to have seen, by name.
pub open spec fn seen_map(v: Seq<(String, HashSet<usize>)>) -> Map<Seq<char>, Set<usize>> {
    Map::new(
        |k: Seq<char>| peer_names(v).contains(k),
        |k: Seq<char>| v[peer_names(v).index_of(k)].1@,
    )
}

/// With names each once, the entry at `i` is what the map holds under its name.
proof fn lemma_seen_entry(v: Seq<(String, HashSet<usize>)>, i: int)
    requires
        peer_names(v).no_duplicates(),
        0 <= i < v.len(),
    ensures
        seen_map(v).contains_key(v[i].0@),
        seen_map(v)[v[i].0@] == v[i].1@,
{
    assert(peer_names(v)[i] == v[i].0@);
    let j = peer_names(v).index_of(v[i].0@);
    assert(peer_names(v)[j] == peer_names(v)[i]);
}

/// Replacing the set of the entry at `i` replaces it in the map.
proof fn lemma_seen_update(v: Seq<(String, HashSet<usize>)>, i: int, e: (String, HashSet<usize>))
    requires
        peer_names(v).no_duplicates(),
        0 <= i < v.len(),
        e.0@ == v[i].0@,
    ensures
        peer_names(v.update(i, e)) == peer_names(v),
        seen_map(v.update(i, e)) == seen_map(v).insert(e.0@, e.1@),
{
    let w = v.update(i, e);
    assert(peer_names(w) =~= peer_names(v));
    assert(peer_names(v)[i] == e.0@);
    assert forall|k: Seq<char>| #[trigger] seen_map(w).contains_key(k) implies seen_map(w)[k]
        == seen_map(v).insert(e.0@, e.1@)[k] by {
        let j = peer_names(w).index_of(k);
        assert(peer_names(w)[j] == k);
        assert(w[j].0@ == k);
        lemma_seen_entry(w, j);
        if j != i {
            lemma_seen_entry(v, j);
        }
    }
    assert(seen_map(w) =~= seen_map(v).insert(e.0@, e.1@));
}

/// Adding an entry under a new name adds it to the map.
proof fn lemma_seen_push(v: Seq<(String, HashSet<usize>)>, e: (String, HashSet<usize>))
    requires
        peer_names(v).no_duplicates(),
        !peer_names(v).contains(e.0@),
    ensures
        peer_names(v.push(e)) == peer_names(v).push(e.0@),
        peer_names(v.push(e)).no_duplicates(),
        seen_map(v.push(e)) == seen_map(v).insert(e.0@, e.1@),
{
    let w = v.push(e);
    assert(peer_names(w) =~= peer_names(v).push(e.0@));
    assert(peer_names(w)[v.len() as int] == e.0@);
    assert forall|k: Seq<char>| peer_names(w).contains(k) <==> (peer_names(v).contains(k) || k
        == e.0@) by {
        if peer_names(v).contains(k) {
            let j = peer_names(v).index_of(k);
            assert(peer_names(w)[j] == k);
        }
    }
    assert forall|k: Seq<char>| #[trigger] seen_map(w).contains_key(k) implies seen_map(w)[k]
        == seen_map(v).insert(e.0@, e.1@)[k] by {
        let j = peer_names(w).index_of(k);
        assert(peer_names(w)[j] == k);
        assert(w[j].0@ == k);
        lemma_seen_entry(w, j);
        if j != v.len() {
            lemma_seen_entry(v, j);
        }
    }
    assert(seen_map(w) =~= seen_map(v).insert(e.0@, e.1@));
}

/// Finds the entry of the peer called `name`.
fn find_peer(seen: &Vec<(String, HashSet<usize>)>, name: &String) -> (res: Option<usize>)
    ensures
        res matches Some(i) ==> i < seen@.len() && seen@[i as int].0@ == name@,
        res is None ==> !peer_names(seen@).contains(name@),
{
    let mut i: usize = 0;
    while i < seen.len()
        invariant
            i <= seen@.len(),
            forall|j: int| 0 <= j < i ==> seen@[j].0@ != name@,
        decreases seen@.len() - i,
    {
        if seen[i].0 == *name {
            return Some(i);
        }
        i = i + 1;
    }
    assert forall|j: int| 0 <= j < seen@.len() implies peer_names(seen@)[j] != name@ by {
        assert(seen@[j].0@ != name@);
    }
    None
}

/// Records that the peer called `name` has seen nothing.
fn reset_seen(seen: &mut Vec<(String, HashSet<usize>)>, name: String)
    requires
        peer_names(old(seen)@).no_duplicates(),
    ensures
        peer_names(final(seen)@).no_duplicates(),
        seen_map(final(seen)@) == seen_map(old(seen)@).insert(name@, Set::empty()),
{
    match find_peer(seen, &name) {
        Some(i) => {
            let ghost v = seen@;
            seen[i].1 = HashSet::new();
            proof {
                assert(seen@ == v.update(i as int, (v[i as int].0, seen@[i as int].1)));
                lemma_seen_update(v, i as int, seen@[i as int]);
            }
        },
        None => {
            let ghost v = seen@;
            seen.push((name, HashSet::new()));
            proof {
                lemma_seen_push(v, seen@[v.len() as int]);
            }
        },
    }
}


/// What the peer called `name` is known to have seen: nothing when it is unknown.
pub open spec fn known_by(seen: Map<Seq<char>, Set<usize>>, name: Seq<char>) -> Set<usize> {
    if seen.contains_key(name) {
        seen[name]
    } else {
        Set::empty()
    }
}

/// Adds every element of `msgs` to `set`.
fn insert_all(set: &mut HashSet<usize>, msgs: &Vec<usize>)
    ensures
        final(set)@ == old(set)@.union(msgs@.to_set()),
{
    let ghost start = set@;
    let mut i: usize = 0;
    while i < msgs.len()
        invariant
            i <= msgs@.len(),
            set@ == start.union(msgs@.take(i as int).to_set()),
        decreases msgs@.len() - i,
    {
        assert(msgs@.take(i + 1) =~= msgs@.take(i as int).push(msgs@[i as int]));
        set.insert(msgs[i]);
        assert(set@ =~= start.union(msgs@.take(i + 1).to_set()));
        i = i + 1;
    }
    assert(msgs@.take(msgs@.len() as int) =~= msgs@);
}

/// Records that the peer called `name` has seen the messages `msgs`.
fn record_seen(seen: &mut Vec<(String, HashSet<usize>)>, name: String, msgs: &Vec<usize>)
    requires
        peer_names(old(seen)@).no_duplicates(),
    ensures
        peer_names(final(seen)@).no_duplicates(),
        seen_map(final(seen)@) == seen_map(old(seen)@).insert(
            name@,
            known_by(seen_map(old(seen)@), name@).union(msgs@.to_set()),
        ),
{
    match find_peer(seen, &name) {
        Some(i) => {
            let ghost v = seen@;
            proof {
                lemma_seen_entry(v, i as int);
            }
            insert_all(&mut seen[i].1, msgs);
            proof {
                assert(seen@ == v.update(i as int, (v[i as int].0, seen@[i as int].1)));
                lemma_seen_update(v, i as int, seen@[i as int]);
            }
        },
        None => {
            let ghost v = seen@;
            let mut set = HashSet::new();
            insert_all(&mut set, msgs);
            seen.push((name, set));
            proof {
                lemma_seen_push(v, seen@[v.len() as int]);
                assert(Set::<usize>::empty().union(msgs@.to_set()) =~= msgs@.to_set());
            }
        },
    }
}

/// Adds `name` to `nodes`, keeping each name once.
fn add_name(nodes: &mut Vec<String>, name: &String)
    requires
        old(nodes).deep_view().no_duplicates(),
    ensures
        final(nodes).deep_view().no_duplicates(),
        final(nodes).deep_view().to_set() == old(nodes).deep_view().to_set().insert(name@),
{
    let mut i: usize = 0;
    while i < nodes.len()
        invariant
            i <= nodes@.len(),
            forall|j: int| 0 <= j < i ==> nodes.deep_view()[j] != name@,
            nodes.deep_view().no_duplicates(),
            nodes.deep_view() == old(nodes).deep_view(),
        decreases nodes@.len() - i,
    {
        if nodes[i] == *name {
            proof {
                assert(nodes.deep_view()[i as int] == name@);
                assert(nodes.deep_view().to_set() =~= nodes.deep_view().to_set().insert(name@));
            }
            return;
        }
        i = i + 1;
    }
    let ghost v = nodes.deep_view();
    nodes.push(name.clone());
    proof {
        assert(nodes.deep_view() =~= v.push(name@));
        assert(!v.contains(name@));
    }
}


/// Whether the entry at `i` of a topology names `k`, as the node or as a neighbour.
pub open spec fn mentions(t: Seq<(String, Vec<String>)>, i: int, k: Seq<char>) -> bool {
    t[i].0@ == k || t[i].1.deep_view().contains(k)
}

/// Every name that a topology mentions, as a node or as a neighbour.
pub open spec fn topology_names(t: Seq<(String, Vec<String>)>) -> Set<Seq<char>> {
    Set::new(|k: Seq<char>| exists|i: int| 0 <= i < t.len() && #[trigger] mentions(t, i, k))
}

/// `seen` where every peer named in `names` is known to have seen nothing.
pub open spec fn reset_peers(seen: Map<Seq<char>, Set<usize>>, names: Set<Seq<char>>) -> Map<
    Seq<char>,
    Set<usize>,
> {
    Map::new(
        |k: Seq<char>| seen.contains_key(k) || names.contains(k),
        |k: Seq<char>|
            if names.contains(k) {
                Set::empty()
            } else {
                seen[k]
            },
    )
}

/// Whether `picked` is made of entries of `from`, each taken from its own position.
pub open spec fn is_selection(picked: Seq<Seq<char>>, from: Seq<Seq<char>>) -> bool {
    exists|idx: Seq<int>|
        {
            &&& idx.len() == picked.len()
            &&& idx.no_duplicates()
            &&& forall|i: int|
                0 <= i < idx.len() ==> 0 <= #[trigger] idx[i] < from.len() && picked[i]
                    == from[idx[i]]
        }
}

/// Picks `amount` entries of `candidates` at random, each from its own position.
///
/// Calls `rand::seq::IndexedRandom::choose_multiple` with the thread-local
/// generator of `rand::rng()` and clones what it picks. The rand source shows
/// that it yields `min(amount, len)` elements taken from distinct positions of
/// the slice, in random order; which ones it takes is left open here, as is
/// the case, outside any input, where `rand::rng()` cannot seed its generator
/// from the operating system and panics.
#[verifier::external_body]
fn choose_multiple(candidates: &Vec<String>, amount: usize) -> (picked: Vec<String>)
    ensures
        picked@.len() == if amount < candidates@.len() {
            amount as int
        } else {
            candidates@.len() as int
        },
        is_selection(picked.deep_view(), candidates.deep_view()),
{
    let mut rng = rand::rng();
    candidates.choose_multiple(&mut rng, amount).cloned().collect()
}

/// Entries picked from a list that holds each name once are themselves distinct.
proof fn lemma_selection_distinct(picked: Seq<Seq<char>>, from: Seq<Seq<char>>)
    requires
        is_selection(picked, from),
        from.no_duplicates(),
    ensures
        picked.no_duplicates(),
        forall|i: int| 0 <= i < picked.len() ==> from.contains(#[trigger] picked[i]),
{
    let idx = choose|idx: Seq<int>|
        {
            &&& idx.len() == picked.len()
            &&& idx.no_duplicates()
            &&& forall|i: int|
                0 <= i < idx.len() ==> 0 <= #[trigger] idx[i] < from.len() && picked[i]
                    == from[idx[i]]
        };
    assert forall|i: int, j: int| 0 <= i < picked.len() && 0 <= j < picked.len() && i != j implies
        picked[i] != picked[j] by {
        assert(idx[i] != idx[j]);
    }
    assert forall|i: int| 0 <= i < picked.len() implies from.contains(#[trigger] picked[i]) by {
        assert(from[idx[i]] == picked[i]);
    }
}

/// A reply of a broadcast node in state `s` to `m`.
pub open spec fn is_reply(s: BroadcastState, m: Message<BroadcastPayload>, r: Message<BroadcastPayload>) -> bool {
    &&& r.src == m.dst
    &&& r.dst == m.src
    &&& r.body.id == Some(s.msg_id)
    &&& r.body.in_reply_to == m.body.id
}

/// The gossip that a node in state `s` sends to `target`: the values it has that
/// `target` is not known to have.
pub open spec fn is_gossip_to(s: BroadcastState, target: Seq<char>, m: Message<BroadcastPayload>) -> bool {
    &&& m.src@ == s.id
    &&& m.dst@ == target
    &&& m.body.id is None
    &&& m.body.in_reply_to is None
    &&& m.body.payload matches BroadcastPayload::Gossip(g) && g.messages@.no_duplicates()
        && g.messages@.to_set() == s.messages.difference(known_by(s.seen, target))
}

/// The nodes a node in state `s` gossips to.
pub open spec fn gossip_candidates(s: BroadcastState) -> Set<Seq<char>> {
    s.nodes.remove(s.id)
}

/// What a broadcast node does on `input`, from state `old` to state `new`, sending `out`.
pub open spec fn broadcast_step(
    old: BroadcastState,
    new: BroadcastState,
    input: Event<BroadcastPayload>,
    out: Seq<Message<BroadcastPayload>>,
) -> bool {
    match input {
        Event::Message(m) => {
            &&& new.id == old.id
            &&& new.msg_id == old.msg_id + 1
            &&& match m.body.payload {
                BroadcastPayload::Broadcast(b) => {
                    &&& new.messages == old.messages.insert(b.message)
                    &&& new.seen == old.seen
                    &&& new.nodes == old.nodes
                    &&& out.len() == 1
                    &&& is_reply(old, m, out[0])
                    &&& out[0].body.payload is BroadcastOk
                },
                BroadcastPayload::Read => {
                    &&& new.messages == old.messages
                    &&& new.seen == old.seen
                    &&& new.nodes == old.nodes
                    &&& out.len() == 1
                    &&& is_reply(old, m, out[0])
                    &&& out[0].body.payload matches BroadcastPayload::ReadOk(r)
                        && r.messages@.no_duplicates() && r.messages@.to_set() == old.messages
                },
                BroadcastPayload::Topology(t) => {
                    &&& new.messages == old.messages
                    &&& new.nodes == old.nodes.union(topology_names(t.topology@))
                    &&& new.seen == reset_peers(old.seen, topology_names(t.topology@))
                    &&& out.len() == 1
                    &&& is_reply(old, m, out[0])
                    &&& out[0].body.payload is TopologyOk
                },
                BroadcastPayload::Gossip(g) => {
                    &&& new.messages == old.messages.union(g.messages@.to_set())
                    &&& new.seen == old.seen.insert(
                        m.src@,
                        known_by(old.seen, m.src@).union(g.messages@.to_set()),
                    )
                    &&& new.nodes == old.nodes
                    &&& out.len() == 0
                },
                _ => {
                    &&& new.messages == old.messages
                    &&& new.seen == old.seen
                    &&& new.nodes == old.nodes
                    &&& out.len() == 0
                },
            }
        },
        Event::Interval => {
            let candidates = gossip_candidates(old);
            &&& new == old
            &&& out.len() == if candidates.len() < 3 {
                candidates.len()
            } else {
                3
            }
            &&& forall|i: int|
                0 <= i < out.len() ==> candidates.contains(#[trigger] out[i].dst@)
                    && is_gossip_to(old, out[i].dst@, out[i])
            &&& forall|i: int, j: int|
                0 <= i < out.len() && 0 <= j < out.len() && i != j ==> out[i].dst@ != out[j].dst@
        },
        Event::EOF => new == old && out.len() == 0,
    }
}

impl View for BroadcastNode {
    type V = BroadcastState;

    closed spec fn view(&self) -> BroadcastState {
        BroadcastState {
            id: self.id@,
            msg_id: self.msg_id,
            messages: self.messages@,
            seen: seen_map(self.seen@),
            nodes: self.nodes.deep_view().to_set(),
        }
    }
}

impl BroadcastNode {
    #[verifier::type_invariant]
    spec fn inv(&self) -> bool {
        &&& self.nodes.deep_view().no_duplicates()
        &&& peer_names(self.seen@).no_duplicates()
    }

    /// The gossip this node sends to each of `targets`, in order.
    pub fn gossip_messages(&self, targets: &Vec<String>) -> (out: Vec<Message<BroadcastPayload>>)
        ensures
            out@.len() == targets@.len(),
            forall|i: int|
                0 <= i < targets@.len() ==> #[trigger] out@[i].dst == targets@[i]
                    && is_gossip_to(self@, targets@[i]@, out@[i]),
    {
        proof {
            use_type_invariant(self);
        }
        let mut out: Vec<Message<BroadcastPayload>> = Vec::new();
        let empty: HashSet<usize> = HashSet::new();
        let mut i: usize = 0;
        while i < targets.len()
            invariant
                i <= targets@.len(),
                out@.len() == i,
                empty@ == Set::<usize>::empty(),
                peer_names(self.seen@).no_duplicates(),
                forall|j: int|
                    0 <= j < i ==> #[trigger] out@[j].dst == targets@[j] && is_gossip_to(
                        self@,
                        targets@[j]@,
                        out@[j],
                    ),
            decreases targets@.len() - i,
        {
            let target = &targets[i];
            let not_seen = match find_peer(&self.seen, target) {
                Some(k) => {
                    proof {
                        lemma_seen_entry(self.seen@, k as int);
                    }
                    set_difference(&self.messages, &self.seen[k].1)
                },
                None => {
                    assert(!seen_map(self.seen@).contains_key(target@));
                    set_difference(&self.messages, &empty)
                },
            };
            assert(not_seen@.to_set() == self@.messages.difference(known_by(self@.seen, target@)));
            let ghost old_out = out@;
            out.push(
                Message {
                    src: self.id.clone(),
                    dst: target.clone(),
                    body: Body {
                        id: None,
                        in_reply_to: None,
                        payload: BroadcastPayload::Gossip(Gossip { messages: not_seen }),
                    },
                },
            );
            assert(out@ == old_out.push(out@[i as int]));
            assert(is_gossip_to(self@, targets@[i as int]@, out@[i as int]));
            i = i + 1;
        }
        out
    }

    /// The nodes this node knows of, other than itself, each once.
    fn candidates(&self) -> (c: Vec<String>)
        ensures
            c.deep_view().no_duplicates(),
            c.deep_view().to_set() == gossip_candidates(self@),
    {
        proof {
            use_type_invariant(self);
        }
        let mut c: Vec<String> = Vec::new();
        let ghost all = self.nodes.deep_view();
        let mut i: usize = 0;
        assert(all.take(0).to_set() =~= Set::<Seq<char>>::empty());
        assert(c.deep_view().to_set() =~= Set::<Seq<char>>::empty());
        while i < self.nodes.len()
            invariant
                i <= all.len(),
                all == self.nodes.deep_view(),
                all.no_duplicates(),
                c.deep_view().no_duplicates(),
                c.deep_view().to_set() == all.take(i as int).to_set().remove(self.id@),
            decreases all.len() - i,
        {
            let ghost old_c = c.deep_view();
            assert(all.take(i + 1) =~= all.take(i as int).push(all[i as int]));
            assert(!all.take(i as int).contains(all[i as int])) by {
                if all.take(i as int).contains(all[i as int]) {
                    let j = choose|j: int| 0 <= j < i && all.take(i as int)[j] == all[i as int];
                    assert(all[j] == all[i as int]);
                }
            }
            if self.nodes[i] != self.id {
                c.push(self.nodes[i].clone());
                proof {
                    assert(c.deep_view() =~= old_c.push(all[i as int]));
                    assert(!old_c.contains(all[i as int])) by {
                        if old_c.contains(all[i as int]) {
                            assert(old_c.to_set().contains(all[i as int]));
                        }
                    }
                }
            }
            assert(c.deep_view().to_set() =~= all.take(i + 1).to_set().remove(self.id@));
            i = i + 1;
        }
        assert(all.take(all.len() as int) =~= all);
        c
    }
}


impl BroadcastNode {
    /// Marks every node that `topology` mentions as known and as having seen nothing.
    fn apply_topology(
        nodes: &mut Vec<String>,
        seen: &mut Vec<(String, HashSet<usize>)>,
        topology: &Vec<(String, Vec<String>)>,
    )
        requires
            old(nodes).deep_view().no_duplicates(),
            peer_names(old(seen)@).no_duplicates(),
        ensures
            final(nodes).deep_view().no_duplicates(),
            peer_names(final(seen)@).no_duplicates(),
            final(nodes).deep_view().to_set() == old(nodes).deep_view().to_set().union(
                topology_names(topology@),
            ),
            seen_map(final(seen)@) == reset_peers(seen_map(old(seen)@), topology_names(topology@)),
    {
        let ghost nodes0 = nodes.deep_view().to_set();
        let ghost seen0 = seen_map(seen@);
        let ghost t = topology@;
        let mut i: usize = 0;
        assert(topology_names(t.take(0)) =~= Set::<Seq<char>>::empty());
        assert(nodes.deep_view().to_set() =~= nodes0.union(Set::<Seq<char>>::empty()));
        assert(seen_map(seen@) =~= reset_peers(seen0, Set::<Seq<char>>::empty()));
        while i < topology.len()
            invariant
                i <= t.len(),
                t == topology@,
                nodes.deep_view().no_duplicates(),
                peer_names(seen@).no_duplicates(),
                nodes.deep_view().to_set() == nodes0.union(topology_names(t.take(i as int))),
                seen_map(seen@) == reset_peers(seen0, topology_names(t.take(i as int))),
            decreases t.len() - i,
        {
            let ghost before = topology_names(t.take(i as int));
            let entry = &topology[i];
            add_name(nodes, &entry.0);
            reset_seen(seen, entry.0.clone());
            let ghost mid = before.insert(entry.0@);
            assert(nodes.deep_view().to_set() =~= nodes0.union(mid));
            assert(seen_map(seen@) =~= reset_peers(seen0, mid));
            let neighbours = &entry.1;
            let mut j: usize = 0;
            assert(neighbours.deep_view().take(0).to_set() =~= Set::<Seq<char>>::empty());
            assert(mid =~= mid.union(neighbours.deep_view().take(0).to_set()));
            while j < neighbours.len()
                invariant
                    j <= neighbours@.len(),
                    nodes.deep_view().no_duplicates(),
                    peer_names(seen@).no_duplicates(),
                    nodes.deep_view().to_set() == nodes0.union(
                        mid.union(neighbours.deep_view().take(j as int).to_set()),
                    ),
                    seen_map(seen@) == reset_peers(
                        seen0,
                        mid.union(neighbours.deep_view().take(j as int).to_set()),
                    ),
                decreases neighbours@.len() - j,
            {
                let ghost sofar = mid.union(neighbours.deep_view().take(j as int).to_set());
                assert(neighbours.deep_view().take(j + 1) =~= neighbours.deep_view().take(
                    j as int,
                ).push(neighbours.deep_view()[j as int]));
                add_name(nodes, &neighbours[j]);
                reset_seen(seen, neighbours[j].clone());
                let ghost after = mid.union(neighbours.deep_view().take(j + 1).to_set());
                assert(after =~= sofar.insert(neighbours.deep_view()[j as int]));
                assert(nodes.deep_view().to_set() =~= nodes0.union(after));
                assert(seen_map(seen@) =~= reset_peers(seen0, after));
                j = j + 1;
            }
            assert(neighbours.deep_view().take(neighbours@.len() as int) =~= neighbours.deep_view());
            assert(topology_names(t.take(i + 1)) =~= mid.union(neighbours.deep_view().to_set())) by {
                assert forall|k: Seq<char>| #[trigger] topology_names(t.take(i + 1)).contains(k)
                    implies mid.union(neighbours.deep_view().to_set()).contains(k) by {
                    let w = choose|w: int|
                        0 <= w < t.take(i + 1).len() && #[trigger] mentions(t.take(i + 1), w, k);
                    if w < i {
                        assert(t.take(i as int)[w] == t.take(i + 1)[w]);
                        assert(mentions(t.take(i as int), w, k));
                        assert(before.contains(k));
                    } else {
                        assert(t.take(i + 1)[w] == t[i as int]);
                    }
                }
                assert forall|k: Seq<char>| mid.union(neighbours.deep_view().to_set()).contains(k)
                    implies #[trigger] topology_names(t.take(i + 1)).contains(k) by {
                    if before.contains(k) {
                        let w = choose|w: int|
                            0 <= w < t.take(i as int).len() && #[trigger] mentions(
                                t.take(i as int),
                                w,
                                k,
                            );
                        assert(t.take(i + 1)[w] == t.take(i as int)[w]);
                        assert(mentions(t.take(i + 1), w, k));
                    } else {
                        assert(t.take(i + 1)[i as int] == t[i as int]);
                        assert(mentions(t.take(i + 1), i as int, k));
                    }
                }
            }
            i = i + 1;
        }
        assert(t.take(t.len() as int) =~= t);
    }
}

impl Node<BroadcastPayload> for BroadcastNode {
    type Output = Message<BroadcastPayload>;

    open spec fn steppable(&self, input: &Event<BroadcastPayload>) -> bool {
        input is Message ==> self@.msg_id < usize::MAX
    }

    fn from_init(init: Init) -> (node: Self)
        ensures
            node@.id == init.node_id@,
            node@.msg_id == 0,
            node@.messages == Set::<usize>::empty(),
            node@.seen == Map::<Seq<char>, Set<usize>>::empty(),
            node@.nodes == Set::<Seq<char>>::empty(),
    {
        let node = BroadcastNode {
            id: init.node_id,
            msg_id: 0,
            messages: HashSet::new(),
            seen: Vec::new(),
            nodes: Vec::new(),
        };
        assert(seen_map(node.seen@) =~= Map::<Seq<char>, Set<usize>>::empty());
        assert(node.nodes.deep_view().to_set() =~= Set::<Seq<char>>::empty());
        node
    }

    fn can_step(&self, input: &Event<BroadcastPayload>) -> (ok: bool) {
        match input {
            Event::Message(_) => self.msg_id < usize::MAX,
            _ => true,
        }
    }

    fn step(&mut self, input: Event<BroadcastPayload>) -> (out: Vec<Message<BroadcastPayload>>)
        ensures
            broadcast_step(old(self)@, final(self)@, input, out@),
    {
        proof {
            use_type_invariant(&*self);
        }
        let mut out: Vec<Message<BroadcastPayload>> = Vec::new();
        match input {
            Event::Message(m) => {
                let mut counter = self.msg_id;
                let reply = m.into_reply(Some(&mut counter));
                self.msg_id = counter;
                let Message { src, dst, body } = reply;
                let Body { id, in_reply_to, payload } = body;
                match payload {
                    BroadcastPayload::Broadcast(broadcast) => {
                        let mut messages = HashSet::new();
                        std::mem::swap(&mut messages, &mut self.messages);
                        messages.insert(broadcast.message);
                        self.messages = messages;
                        out.push(
                            Message {
                                src,
                                dst,
                                body: Body { id, in_reply_to, payload: BroadcastPayload::BroadcastOk },
                            },
                        );
                    },
                    BroadcastPayload::Read => {
                        let empty: HashSet<usize> = HashSet::new();
                        let messages = set_difference(&self.messages, &empty);
                        assert(self.messages@.difference(empty@) =~= self.messages@);
                        out.push(
                            Message {
                                src,
                                dst,
                                body: Body {
                                    id,
                                    in_reply_to,
                                    payload: BroadcastPayload::ReadOk(ReadOk { messages }),
                                },
                            },
                        );
                    },
                    BroadcastPayload::Topology(topology) => {
                        let mut nodes = Vec::new();
                        let mut seen = Vec::new();
                        std::mem::swap(&mut nodes, &mut self.nodes);
                        std::mem::swap(&mut seen, &mut self.seen);
                        Self::apply_topology(&mut nodes, &mut seen, &topology.topology);
                        self.nodes = nodes;
                        self.seen = seen;
                        out.push(
                            Message {
                                src,
                                dst,
                                body: Body { id, in_reply_to, payload: BroadcastPayload::TopologyOk },
                            },
                        );
                    },
                    BroadcastPayload::Gossip(gossip) => {
                        let mut seen = Vec::new();
                        std::mem::swap(&mut seen, &mut self.seen);
                        record_seen(&mut seen, dst, &gossip.messages);
                        self.seen = seen;
                        let mut messages = HashSet::new();
                        std::mem::swap(&mut messages, &mut self.messages);
                        insert_all(&mut messages, &gossip.messages);
                        self.messages = messages;
                    },
                    BroadcastPayload::BroadcastOk => {},
                    BroadcastPayload::ReadOk(_) => {},
                    BroadcastPayload::TopologyOk => {},
                }
            },
            Event::Interval => {
                let candidates = self.candidates();
                let amount = if candidates.len() < 3 {
                    candidates.len()
                } else {
                    3
                };
                let targets = choose_multiple(&candidates, amount);
                proof {
                    lemma_selection_distinct(targets.deep_view(), candidates.deep_view());
                    candidates.deep_view().unique_seq_to_set();
                    assert forall|i: int| 0 <= i < targets@.len() implies #[trigger] targets@[i]@
                        == targets.deep_view()[i] by {}
                }
                out = self.gossip_messages(&targets);
                proof {
                    assert forall|i: int| 0 <= i < out@.len() implies gossip_candidates(
                        self@,
                    ).contains(#[trigger] out@[i].dst@) by {
                        assert(targets.deep_view()[i] == targets@[i]@);
                        assert(candidates.deep_view().contains(targets.deep_view()[i]));
                    }
                    assert forall|i: int, j: int|
                        0 <= i < out@.len() && 0 <= j < out@.len() && i != j implies out@[i].dst@
                        != out@[j].dst@ by {
                        assert(targets.deep_view()[i] == targets@[i]@);
                        assert(targets.deep_view()[j] == targets@[j]@);
                    }
                }
            },
            Event::EOF => {},
        }
        out
    }
}


/// No step loses a message value or forgets a node: the values and the nodes a
/// broadcast node knows only grow.
pub proof fn lemma_knowledge_only_grows(
    old: BroadcastState,
    new: BroadcastState,
    input: Event<BroadcastPayload>,
    out: Seq<Message<BroadcastPayload>>,
)
    requires
        broadcast_step(old, new, input, out),
    ensures
        old.messages.subset_of(new.messages),
        old.nodes.subset_of(new.nodes),
        new.id == old.id,
        new.msg_id >= old.msg_id,
{
}

/// A read answers with every value that was broadcast to the node before it, as
/// long as the values kept in between only grew (as every step ensures).
pub proof fn lemma_read_after_broadcast(
    s0: BroadcastState,
    s1: BroadcastState,
    broadcast: Event<BroadcastPayload>,
    broadcast_out: Seq<Message<BroadcastPayload>>,
    value: usize,
    s2: BroadcastState,
    s3: BroadcastState,
    read: Event<BroadcastPayload>,
    read_out: Seq<Message<BroadcastPayload>>,
)
    requires
        broadcast_step(s0, s1, broadcast, broadcast_out),
        broadcast matches Event::Message(m) && m.body.payload matches BroadcastPayload::Broadcast(b)
            && b.message == value,
        s1.messages.subset_of(s2.messages),
        broadcast_step(s2, s3, read, read_out),
        read matches Event::Message(m) && m.body.payload is Read,
    ensures
        read_out.len() == 1,
        read_out[0].body.payload matches BroadcastPayload::ReadOk(r) && r.messages@.contains(value),
{
    let r = read_out[0].body.payload->ReadOk_0;
    assert(r.messages@.to_set().contains(value));
}

/// Once a node has heard gossip from `peer`, it does not gossip those values back
/// to `peer`, as long as what it knows `peer` has seen only grew in between.
pub proof fn lemma_gossip_not_sent_back(
    s0: BroadcastState,
    s1: BroadcastState,
    heard: Event<BroadcastPayload>,
    heard_out: Seq<Message<BroadcastPayload>>,
    value: usize,
    s2: BroadcastState,
    sent: Message<BroadcastPayload>,
)
    requires
        broadcast_step(s0, s1, heard, heard_out),
        heard matches Event::Message(m) && m.body.payload matches BroadcastPayload::Gossip(g)
            && g.messages@.contains(value),
        known_by(s1.seen, heard->Message_0.src@).subset_of(known_by(s2.seen, heard->Message_0.src@)),
        is_gossip_to(s2, heard->Message_0.src@, sent),
    ensures
        sent.body.payload matches BroadcastPayload::Gossip(g) && !g.messages@.contains(value),
{
    let m = heard->Message_0;
    let g = m.body.payload->Gossip_0;
    assert(g.messages@.to_set().contains(value));
    assert(known_by(s1.seen, m.src@).contains(value));
    let g2 = sent.body.payload->Gossip_0;
    if g2.messages@.contains(value) {
        assert(g2.messages@.to_set().contains(value));
    }
}

/// A broadcast, read or topology request is answered once, back to whoever sent
/// it, from the node it was sent to, under the node's counter, which moves on by
/// one, and in reply to the request's own id: a broadcast with `broadcast_ok`, a
/// read with every value the node holds, each once, and a topology with
/// `topology_ok`.
pub proof fn lemma_requests_are_answered_to_the_requester(
    old: BroadcastState,
    new: BroadcastState,
    input: Event<BroadcastPayload>,
    out: Seq<Message<BroadcastPayload>>,
)
    requires
        broadcast_step(old, new, input, out),
        input matches Event::Message(m) && (m.body.payload is Broadcast || m.body.payload is Read
            || m.body.payload is Topology),
    ensures
        out.len() == 1,
        out[0].src == input->Message_0.dst,
        out[0].dst == input->Message_0.src,
        out[0].body.id == Some(old.msg_id),
        out[0].body.in_reply_to == input->Message_0.body.id,
        new.msg_id == old.msg_id + 1,
        input->Message_0.body.payload is Broadcast ==> out[0].body.payload is BroadcastOk,
        input->Message_0.body.payload is Topology ==> out[0].body.payload is TopologyOk,
        input->Message_0.body.payload is Read ==> (out[0].body.payload matches BroadcastPayload::ReadOk(
            r,
        ) && r.messages@.no_duplicates() && forall|v: usize|
            r.messages@.contains(v) <==> old.messages.contains(v)),
{
    let m = input->Message_0;
    if m.body.payload is Read {
        let r = out[0].body.payload->ReadOk_0;
        assert forall|v: usize| r.messages@.contains(v) <==> old.messages.contains(v) by {
            if r.messages@.contains(v) {
                assert(r.messages@.to_set().contains(v));
            }
            if old.messages.contains(v) {
                assert(r.messages@.to_set().contains(v));
            }
        }
    }
}

/// A timer tick changes nothing and sends gossip to at most three known nodes,
/// to three whenever three are known besides the node itself, never to the node
/// itself and never twice to one node; to each it sends exactly the values the
/// node holds that the target is not known to have, each once.
pub proof fn lemma_tick_gossips_what_peers_lack(
    old: BroadcastState,
    new: BroadcastState,
    out: Seq<Message<BroadcastPayload>>,
)
    requires
        broadcast_step(old, new, Event::Interval, out),
    ensures
        new == old,
        out.len() <= 3,
        out.len() <= old.nodes.remove(old.id).len(),
        old.nodes.remove(old.id).len() >= 3 ==> out.len() == 3,
        forall|i: int|
            0 <= i < out.len() ==> {
                &&& old.nodes.contains(#[trigger] out[i].dst@)
                &&& out[i].dst@ != old.id
                &&& out[i].src@ == old.id
                &&& out[i].body.id is None
                &&& out[i].body.in_reply_to is None
                &&& out[i].body.payload is Gossip
                &&& out[i].body.payload->Gossip_0.messages@.no_duplicates()
            },
        forall|i: int, v: usize|
            0 <= i < out.len() ==> (#[trigger] out[i].body.payload->Gossip_0.messages@.contains(v)
                <==> (old.messages.contains(v) && !(old.seen.contains_key(out[i].dst@)
                && old.seen[out[i].dst@].contains(v)))),
        forall|i: int, j: int|
            0 <= i < out.len() && 0 <= j < out.len() && i != j ==> out[i].dst@ != out[j].dst@,
{
    assert forall|i: int| 0 <= i < out.len() implies {
        &&& old.nodes.contains(#[trigger] out[i].dst@)
        &&& out[i].dst@ != old.id
        &&& out[i].src@ == old.id
        &&& out[i].body.id is None
        &&& out[i].body.in_reply_to is None
        &&& out[i].body.payload is Gossip
        &&& out[i].body.payload->Gossip_0.messages@.no_duplicates()
    } by {
        assert(gossip_candidates(old).contains(out[i].dst@));
        assert(is_gossip_to(old, out[i].dst@, out[i]));
    }
    assert forall|i: int, v: usize| 0 <= i < out.len() implies (
    #[trigger] out[i].body.payload->Gossip_0.messages@.contains(v) <==> (old.messages.contains(v)
        && !(old.seen.contains_key(out[i].dst@) && old.seen[out[i].dst@].contains(v)))) by {
        assert(is_gossip_to(old, out[i].dst@, out[i]));
        let g = out[i].body.payload->Gossip_0;
        if g.messages@.contains(v) {
            assert(g.messages@.to_set().contains(v));
        }
        if old.messages.contains(v) && !(old.seen.contains_key(out[i].dst@)
            && old.seen[out[i].dst@].contains(v)) {
            assert(g.messages@.to_set().contains(v));
        }
    }
}

/// Gossip from a peer is kept: afterwards the node holds every value it carried,
/// knows the peer has them, sends nothing, and forgets nothing else.
pub proof fn lemma_gossip_is_kept(
    old: BroadcastState,
    new: BroadcastState,
    input: Event<BroadcastPayload>,
    out: Seq<Message<BroadcastPayload>>,
)
    requires
        broadcast_step(old, new, input, out),
        input matches Event::Message(m) && m.body.payload is Gossip,
    ensures
        out.len() == 0,
        forall|v: usize|
            new.messages.contains(v) <==> (old.messages.contains(v)
                || input->Message_0.body.payload->Gossip_0.messages@.contains(v)),
        new.seen.contains_key(input->Message_0.src@),
        forall|v: usize|
            input->Message_0.body.payload->Gossip_0.messages@.contains(v) ==> new.seen[input->Message_0.src@].contains(v),
        forall|v: usize|
            old.seen.contains_key(input->Message_0.src@) && old.seen[input->Message_0.src@].contains(v)
                ==> new.seen[input->Message_0.src@].contains(v),
        forall|n: Seq<char>|
            n != input->Message_0.src@ && old.seen.contains_key(n) ==> new.seen.contains_key(n)
                && new.seen[n] == old.seen[n],
        new.nodes == old.nodes,
{
    let g = input->Message_0.body.payload->Gossip_0;
    assert forall|v: usize| g.messages@.contains(v) implies g.messages@.to_set().contains(v) by {}
    assert forall|v: usize| g.messages@.to_set().contains(v) implies g.messages@.contains(v) by {}
}

/// A topology makes the node know every node it names, as a node and as a
/// neighbour, and forget what each of them has seen; other peers keep theirs.
pub proof fn lemma_topology_is_learned(
    old: BroadcastState,
    new: BroadcastState,
    input: Event<BroadcastPayload>,
    out: Seq<Message<BroadcastPayload>>,
)
    requires
        broadcast_step(old, new, input, out),
        input matches Event::Message(m) && m.body.payload is Topology,
    ensures
        new.messages == old.messages,
        forall|i: int|
            0 <= i < input->Message_0.body.payload->Topology_0.topology@.len() ==> {
                let (n, ns) = #[trigger] input->Message_0.body.payload->Topology_0.topology@[i];
                &&& new.nodes.contains(n@)
                &&& new.seen.contains_key(n@)
                &&& new.seen[n@] == Set::<usize>::empty()
                &&& forall|j: int|
                    0 <= j < ns@.len() ==> new.nodes.contains(#[trigger] ns@[j]@)
                        && new.seen.contains_key(ns@[j]@) && new.seen[ns@[j]@]
                        == Set::<usize>::empty()
            },
        forall|n: Seq<char>| old.nodes.contains(n) ==> new.nodes.contains(n),
{
    let t = input->Message_0.body.payload->Topology_0.topology@;
    assert forall|i: int| 0 <= i < t.len() implies {
        let (n, ns) = #[trigger] t[i];
        &&& new.nodes.contains(n@)
        &&& new.seen.contains_key(n@)
        &&& new.seen[n@] == Set::<usize>::empty()
        &&& forall|j: int|
            0 <= j < ns@.len() ==> new.nodes.contains(#[trigger] ns@[j]@) && new.seen.contains_key(
                ns@[j]@,
            ) && new.seen[ns@[j]@] == Set::<usize>::empty()
    } by {
        let (n, ns) = t[i];
        assert(mentions(t, i, n@));
        assert forall|j: int| 0 <= j < ns@.len() implies new.nodes.contains(#[trigger] ns@[j]@)
            && new.seen.contains_key(ns@[j]@) && new.seen[ns@[j]@] == Set::<usize>::empty() by {
            assert(ns.deep_view()[j] == ns@[j]@);
            assert(mentions(t, i, ns@[j]@));
        }
    }
}

} // verus!
