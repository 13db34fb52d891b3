use gossip_glomers::decimal::format_decimal;
use gossip_glomers::unique_id::{GenerateOk, UniqueIdNode, UniqueIdPayload};
use gossip_glomers::{Body, Event, Init, Message, Node};
use std::collections::HashSet;

fn init(name: &str) -> Init {
    Init { node_id: name.to_string(), node_ids: vec!["n1".to_string(), "n2".to_string()] }
}

fn generate(id: usize) -> Event<UniqueIdPayload> {
    Event::Message(Message {
        src: "c1".to_string(),
        dst: "n1".to_string(),
        body: Body { id: Some(id), in_reply_to: None, payload: UniqueIdPayload::Generate },
    })
}

fn generated(out: &[Message<UniqueIdPayload>]) -> String {
    assert_eq!(out.len(), 1);
    match &out[0].body.payload {
        UniqueIdPayload::GenerateOk(g) => g.id.clone(),
        _ => panic!("expected generate_ok"),
    }
}

#[test]
fn generate_names_node_and_counter() {
    let mut node = UniqueIdNode::from_init(init("n1"));
    let out = node.step(generate(9));
    assert_eq!(generated(&out), "n1-1");
    assert_eq!(out[0].body.id, Some(0));
    assert_eq!(out[0].body.in_reply_to, Some(9));
    assert_eq!(out[0].dst, "c1");
    let out = node.step(generate(10));
    assert_eq!(generated(&out), "n1-2");
}

#[test]
fn generated_ids_are_unique_across_nodes() {
    let mut a = UniqueIdNode::from_init(init("n1"));
    let mut b = UniqueIdNode::from_init(init("n11"));
    let mut ids = HashSet::new();
    for i in 0..50 {
        assert!(ids.insert(generated(&a.step(generate(i)))));
        assert!(ids.insert(generated(&b.step(generate(i)))));
    }
    assert_eq!(ids.len(), 100);
}

#[test]
fn generate_ok_is_not_answered() {
    let mut node = UniqueIdNode::from_init(init("n1"));
    let input = Event::Message(Message {
        src: "c1".to_string(),
        dst: "n1".to_string(),
        body: Body { id: Some(1), in_reply_to: None, payload: UniqueIdPayload::GenerateOk(GenerateOk { id: "x".to_string() }) },
    });
    assert!(node.step(input).is_empty());
    assert_eq!(generated(&node.step(generate(2))), "n1-2");
}

#[test]
fn unique_id_node_cannot_act_on_timer() {
    let node = UniqueIdNode::from_init(init("n1"));
    assert!(!node.can_step(&Event::Interval));
    assert!(!node.can_step(&Event::EOF));
    assert!(node.can_step(&generate(1)));
}

#[test]
fn decimal_formatting() {
    assert_eq!(format_decimal(0), "0");
    assert_eq!(format_decimal(7), "7");
    assert_eq!(format_decimal(10), "10");
    assert_eq!(format_decimal(1234), "1234");
    assert_eq!(format_decimal(usize::MAX), usize::MAX.to_string());
}
