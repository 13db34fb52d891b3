use gossip_glomers::broadcast::{Broadcast, BroadcastNode, BroadcastPayload, Gossip, Topology};
use gossip_glomers::{Body, Event, Init, Message, Node};
use std::collections::HashSet;

fn node(name: &str) -> BroadcastNode {
    BroadcastNode::from_init(Init { node_id: name.to_string(), node_ids: vec![] })
}

fn from(src: &str, id: Option<usize>, payload: BroadcastPayload) -> Event<BroadcastPayload> {
    Event::Message(Message {
        src: src.to_string(),
        dst: "n1".to_string(),
        body: Body { id, in_reply_to: None, payload },
    })
}

fn read(n: &mut BroadcastNode) -> Vec<usize> {
    let out = n.step(from("c1", Some(99), BroadcastPayload::Read));
    assert_eq!(out.len(), 1);
    match &out[0].body.payload {
        BroadcastPayload::ReadOk(r) => {
            let mut v = r.messages.clone();
            v.sort();
            v
        }
        _ => panic!("expected read_ok"),
    }
}

fn topology(pairs: &[(&str, &[&str])]) -> BroadcastPayload {
    BroadcastPayload::Topology(Topology {
        topology: pairs
            .iter()
            .map(|(n, ns)| (n.to_string(), ns.iter().map(|s| s.to_string()).collect()))
            .collect(),
    })
}

fn gossip_targets(out: &[Message<BroadcastPayload>]) -> Vec<String> {
    out.iter().map(|m| m.dst.clone()).collect()
}

#[test]
fn broadcast_is_acknowledged_and_read_back() {
    let mut n = node("n1");
    let out = n.step(from("c1", Some(1), BroadcastPayload::Broadcast(Broadcast { message: 5 })));
    assert_eq!(out.len(), 1);
    assert!(matches!(out[0].body.payload, BroadcastPayload::BroadcastOk));
    assert_eq!(out[0].body.id, Some(0));
    assert_eq!(out[0].body.in_reply_to, Some(1));
    assert_eq!(out[0].src, "n1");
    assert_eq!(out[0].dst, "c1");
    n.step(from("c1", Some(2), BroadcastPayload::Broadcast(Broadcast { message: 3 })));
    n.step(from("c1", Some(3), BroadcastPayload::Broadcast(Broadcast { message: 5 })));
    assert_eq!(read(&mut n), vec![3, 5]);
}

#[test]
fn read_of_fresh_node_is_empty() {
    let mut n = node("n1");
    assert_eq!(read(&mut n), Vec::<usize>::new());
}

#[test]
fn topology_is_acknowledged_and_gossip_goes_to_other_nodes() {
    let mut n = node("n1");
    let out = n.step(from("c1", Some(1), topology(&[("n1", &["n2", "n3"]), ("n2", &["n1"])])));
    assert_eq!(out.len(), 1);
    assert!(matches!(out[0].body.payload, BroadcastPayload::TopologyOk));
    n.step(from("c1", Some(2), BroadcastPayload::Broadcast(Broadcast { message: 8 })));
    let out = n.step(Event::Interval);
    let targets: HashSet<String> = gossip_targets(&out).into_iter().collect();
    assert_eq!(out.len(), 2);
    assert_eq!(targets, ["n2".to_string(), "n3".to_string()].into_iter().collect());
    for m in &out {
        assert_eq!(m.src, "n1");
        assert_eq!(m.body.id, None);
        assert_eq!(m.body.in_reply_to, None);
        match &m.body.payload {
            BroadcastPayload::Gossip(g) => assert_eq!(g.messages, vec![8]),
            _ => panic!("expected gossip"),
        }
    }
}

#[test]
fn gossip_picks_three_distinct_nodes_at_most() {
    let mut n = node("n1");
    n.step(from("c1", Some(1), topology(&[("n1", &["n2", "n3", "n4", "n5", "n6"])])));
    for _ in 0..20 {
        let out = n.step(Event::Interval);
        let targets = gossip_targets(&out);
        assert_eq!(targets.len(), 3);
        let distinct: HashSet<&String> = targets.iter().collect();
        assert_eq!(distinct.len(), 3);
        assert!(!targets.contains(&"n1".to_string()));
    }
}

#[test]
fn gossip_received_is_kept_and_not_sent_back() {
    let mut n = node("n1");
    n.step(from("c1", Some(1), topology(&[("n1", &["n2"])])));
    n.step(from("c1", Some(2), BroadcastPayload::Broadcast(Broadcast { message: 1 })));
    let out = n.step(from("n2", None, BroadcastPayload::Gossip(Gossip { messages: vec![2, 3] })));
    assert!(out.is_empty());
    assert_eq!(read(&mut n), vec![1, 2, 3]);
    let out = n.step(Event::Interval);
    assert_eq!(out.len(), 1);
    assert_eq!(out[0].dst, "n2");
    match &out[0].body.payload {
        BroadcastPayload::Gossip(g) => assert_eq!(g.messages, vec![1]),
        _ => panic!("expected gossip"),
    }
}

#[test]
fn topology_forgets_what_peers_have_seen() {
    let mut n = node("n1");
    n.step(from("c1", Some(1), topology(&[("n1", &["n2"])])));
    n.step(from("n2", None, BroadcastPayload::Gossip(Gossip { messages: vec![4] })));
    n.step(from("c1", Some(2), topology(&[("n1", &["n2"])])));
    let out = n.step(Event::Interval);
    match &out[0].body.payload {
        BroadcastPayload::Gossip(g) => assert_eq!(g.messages, vec![4]),
        _ => panic!("expected gossip"),
    }
}

#[test]
fn gossip_from_unknown_node_is_not_a_target() {
    let mut n = node("n1");
    n.step(from("n9", None, BroadcastPayload::Gossip(Gossip { messages: vec![7] })));
    assert_eq!(read(&mut n), vec![7]);
    assert!(n.step(Event::Interval).is_empty());
}

#[test]
fn acknowledgements_and_end_are_ignored() {
    let mut n = node("n1");
    assert!(n.step(from("c1", Some(1), BroadcastPayload::BroadcastOk)).is_empty());
    assert!(n.step(from("c1", Some(2), BroadcastPayload::TopologyOk)).is_empty());
    assert!(n.step(Event::EOF).is_empty());
    assert!(n.can_step(&Event::Interval));
    // each message moved the reply counter on
    let out = n.step(from("c1", Some(3), BroadcastPayload::Broadcast(Broadcast { message: 1 })));
    assert_eq!(out[0].body.id, Some(2));
}
