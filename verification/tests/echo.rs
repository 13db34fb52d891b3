use gossip_glomers::echo::{Echo, EchoNode, EchoPayload};
use gossip_glomers::{Body, Event, Init, Message, Node};

fn init() -> Init {
    Init { node_id: "n1".to_string(), node_ids: vec!["n1".to_string()] }
}

fn echo(text: &str, id: usize) -> Event<EchoPayload> {
    Event::Message(Message {
        src: "c1".to_string(),
        dst: "n1".to_string(),
        body: Body { id: Some(id), in_reply_to: None, payload: EchoPayload::Echo(Echo { echo: text.to_string() }) },
    })
}

#[test]
fn echo_answers_with_the_same_text() {
    let mut node = EchoNode::from_init(init());
    let input = echo("hello", 4);
    assert!(node.can_step(&input));
    let out = node.step(input);
    assert_eq!(out.len(), 1);
    assert_eq!(out[0].src, "n1");
    assert_eq!(out[0].dst, "c1");
    assert_eq!(out[0].body.id, Some(1));
    assert_eq!(out[0].body.in_reply_to, Some(4));
    match &out[0].body.payload {
        EchoPayload::EchoOk(e) => assert_eq!(e.echo, "hello"),
        _ => panic!("expected echo_ok"),
    }
    let out = node.step(echo("again", 5));
    assert_eq!(out[0].body.id, Some(2));
}

#[test]
fn echo_ok_is_not_answered_but_uses_an_id() {
    let mut node = EchoNode::from_init(init());
    let input = Event::Message(Message {
        src: "c1".to_string(),
        dst: "n1".to_string(),
        body: Body { id: Some(1), in_reply_to: None, payload: EchoPayload::EchoOk(Echo { echo: "x".to_string() }) },
    });
    assert!(node.step(input).is_empty());
    let out = node.step(echo("y", 2));
    assert_eq!(out[0].body.id, Some(2));
}

#[test]
fn echo_node_cannot_act_on_timer_or_end() {
    let node = EchoNode::from_init(init());
    assert!(!node.can_step(&Event::Interval));
    assert!(!node.can_step(&Event::EOF));
}
