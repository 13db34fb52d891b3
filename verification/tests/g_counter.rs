use gossip_glomers::g_counter::{
    Add, Error, GCounterNode, GCounterOutput, GCounterPayload, ReadOk, SeqKvPayload,
};
use gossip_glomers::{Body, Event, Init, Message, Node};

fn node() -> GCounterNode {
    GCounterNode::from_init(Init { node_id: "n1".to_string(), node_ids: vec!["n1".to_string()] })
}

fn msg(src: &str, id: Option<usize>, in_reply_to: Option<usize>, payload: GCounterPayload) -> Event<GCounterPayload> {
    Event::Message(Message {
        src: src.to_string(),
        dst: "n1".to_string(),
        body: Body { id, in_reply_to, payload },
    })
}

fn kv(out: &[GCounterOutput]) -> &Message<SeqKvPayload> {
    assert_eq!(out.len(), 1);
    match &out[0] {
        GCounterOutput::SeqKv(m) => m,
        _ => panic!("expected a message to seq-kv"),
    }
}

fn client(out: &[GCounterOutput]) -> &Message<GCounterPayload> {
    assert_eq!(out.len(), 1);
    match &out[0] {
        GCounterOutput::Client(m) => m,
        _ => panic!("expected a message to a client"),
    }
}

#[test]
fn add_reads_then_compares_and_sets() {
    let mut n = node();
    let out = n.step(msg("c1", Some(7), None, GCounterPayload::Add(Add { delta: 5 })));
    let read = kv(&out);
    assert_eq!(read.src, "n1");
    assert_eq!(read.dst, "seq-kv");
    assert_eq!(read.body.id, Some(1));
    assert_eq!(read.body.in_reply_to, Some(7));
    match &read.body.payload {
        SeqKvPayload::Read(r) => assert_eq!(r.key, "counter"),
        _ => panic!("expected read"),
    }
    let answer = msg("seq-kv", Some(100), Some(1), GCounterPayload::ReadOk(ReadOk { value: 10 }));
    assert!(n.can_step(&answer));
    let out = n.step(answer);
    let cas = kv(&out);
    assert_eq!(cas.body.id, Some(2));
    assert_eq!(cas.body.in_reply_to, Some(100));
    match &cas.body.payload {
        SeqKvPayload::Cas(c) => {
            assert_eq!(c.key, "counter");
            assert_eq!(c.from, 10);
            assert_eq!(c.to, 15);
            assert!(!c.put);
        }
        _ => panic!("expected cas"),
    }
    let out = n.step(msg("seq-kv", Some(101), Some(2), GCounterPayload::CasOk));
    let ok = client(&out);
    assert!(matches!(ok.body.payload, GCounterPayload::AddOk));
    assert_eq!(ok.body.id, Some(3));
    assert_eq!(ok.body.in_reply_to, Some(2));
    // the acknowledgement goes to whoever the operation was recorded for
    assert_eq!(ok.dst, "seq-kv");
}

#[test]
fn second_cas_ok_is_ignored() {
    let mut n = node();
    n.step(msg("c1", Some(7), None, GCounterPayload::Add(Add { delta: 1 })));
    n.step(msg("seq-kv", Some(1), Some(1), GCounterPayload::ReadOk(ReadOk { value: 0 })));
    assert_eq!(n.step(msg("seq-kv", Some(2), Some(2), GCounterPayload::CasOk)).len(), 1);
    assert!(n.step(msg("seq-kv", Some(3), Some(2), GCounterPayload::CasOk)).is_empty());
}

#[test]
fn read_returns_value_to_client() {
    let mut n = node();
    let out = n.step(msg("c2", Some(3), None, GCounterPayload::Read));
    assert_eq!(kv(&out).body.id, Some(1));
    let out = n.step(msg("seq-kv", Some(50), Some(1), GCounterPayload::ReadOk(ReadOk { value: 42 })));
    let reply = client(&out);
    assert_eq!(reply.dst, "c2");
    assert_eq!(reply.src, "n1");
    assert_eq!(reply.body.id, Some(2));
    assert_eq!(reply.body.in_reply_to, Some(1));
    match &reply.body.payload {
        GCounterPayload::ReadOk(r) => assert_eq!(r.value, 42),
        _ => panic!("expected read_ok"),
    }
}

#[test]
fn missing_key_reads_as_zero() {
    let mut n = node();
    n.step(msg("c2", Some(3), None, GCounterPayload::Read));
    let err = GCounterPayload::Error(Error { code: 20, text: "key does not exist".to_string() });
    let out = n.step(msg("seq-kv", Some(51), Some(1), err));
    match &client(&out).body.payload {
        GCounterPayload::ReadOk(r) => assert_eq!(r.value, 0),
        _ => panic!("expected read_ok"),
    }
}

#[test]
fn missing_key_on_add_creates_it() {
    let mut n = node();
    n.step(msg("c1", Some(3), None, GCounterPayload::Add(Add { delta: 4 })));
    let err = GCounterPayload::Error(Error { code: 20, text: "key does not exist".to_string() });
    let out = n.step(msg("seq-kv", Some(51), Some(1), err));
    let cas = kv(&out);
    assert_eq!(cas.body.in_reply_to, Some(1));
    assert_eq!(cas.body.id, Some(2));
    match &cas.body.payload {
        SeqKvPayload::Cas(c) => {
            assert_eq!(c.from, 0);
            assert_eq!(c.to, 4);
            assert!(c.put);
        }
        _ => panic!("expected cas"),
    }
}

#[test]
fn unknown_answers_and_timer_change_nothing() {
    let mut n = node();
    assert!(n.step(msg("seq-kv", Some(1), Some(40), GCounterPayload::CasOk)).is_empty());
    let err = GCounterPayload::Error(Error { code: 1, text: String::new() });
    assert!(n.step(msg("seq-kv", Some(1), Some(40), err)).is_empty());
    assert!(n.step(msg("c1", Some(1), None, GCounterPayload::AddOk)).is_empty());
    assert!(n.step(Event::Interval).is_empty());
    assert!(n.step(Event::EOF).is_empty());
    let out = n.step(msg("c1", Some(1), None, GCounterPayload::Read));
    assert_eq!(kv(&out).body.id, Some(1));
}

#[test]
fn inputs_the_node_cannot_act_on_are_refused() {
    let mut n = node();
    assert!(!n.can_step(&msg("c1", None, None, GCounterPayload::Add(Add { delta: 1 }))));
    assert!(!n.can_step(&msg("c1", None, None, GCounterPayload::Read)));
    assert!(!n.can_step(&msg("seq-kv", Some(1), Some(1), GCounterPayload::ReadOk(ReadOk { value: 1 }))));
    assert!(!n.can_step(&msg("seq-kv", Some(1), None, GCounterPayload::CasOk)));
    n.step(msg("c1", Some(1), None, GCounterPayload::Read));
    assert!(!n.can_step(&msg("lin-kv", Some(1), Some(1), GCounterPayload::ReadOk(ReadOk { value: 1 }))));
    assert!(n.can_step(&msg("seq-kv", Some(1), Some(1), GCounterPayload::ReadOk(ReadOk { value: 1 }))));
    // a read operation cannot be acknowledged as a compare-and-set
    assert!(!n.can_step(&msg("seq-kv", Some(1), Some(1), GCounterPayload::CasOk)));
    n.step(msg("c1", Some(2), None, GCounterPayload::Add(Add { delta: usize::MAX })));
    assert!(!n.can_step(&msg("seq-kv", Some(3), Some(2), GCounterPayload::ReadOk(ReadOk { value: 1 }))));
    assert!(n.can_step(&msg("seq-kv", Some(3), Some(2), GCounterPayload::ReadOk(ReadOk { value: 0 }))));
}
