use gossip_glomers::message::{frame_line, init_reply, Error, InitPayload};
use gossip_glomers::{Body, Init, Message};

fn msg<P>(src: &str, dst: &str, id: Option<usize>, payload: P) -> Message<P> {
    Message {
        src: src.to_string(),
        dst: dst.to_string(),
        body: Body { id, in_reply_to: None, payload },
    }
}

#[test]
fn into_reply_swaps_addresses_and_takes_counter() {
    let mut counter: usize = 7;
    let reply = msg("c1", "n1", Some(3), 42u32).into_reply(Some(&mut counter));
    assert_eq!(reply.src, "n1");
    assert_eq!(reply.dst, "c1");
    assert_eq!(reply.body.id, Some(7));
    assert_eq!(reply.body.in_reply_to, Some(3));
    assert_eq!(reply.body.payload, 42);
    assert_eq!(counter, 8);
}

#[test]
fn into_reply_without_counter_has_no_id() {
    let reply = msg("c1", "n1", None, "x").into_reply(None);
    assert_eq!(reply.body.id, None);
    assert_eq!(reply.body.in_reply_to, None);
    assert_eq!(reply.src, "n1");
    assert_eq!(reply.dst, "c1");
}

#[test]
fn reply_of_reply_goes_back_to_the_original_addresses() {
    let mut counter: usize = 0;
    let first = msg("a", "b", Some(10), ()).into_reply(Some(&mut counter));
    let second = first.into_reply(Some(&mut counter));
    assert_eq!(second.src, "a");
    assert_eq!(second.dst, "b");
    assert_eq!(second.body.in_reply_to, Some(0));
    assert_eq!(second.body.id, Some(1));
    assert_eq!(counter, 2);
}

#[test]
fn init_reply_acknowledges_init() {
    let init = Init { node_id: "n1".to_string(), node_ids: vec!["n1".to_string(), "n2".to_string()] };
    let m = msg("c0", "n1", Some(5), InitPayload::Init(init));
    let (init, reply) = init_reply(m).expect("init is answered");
    assert_eq!(init.node_id, "n1");
    assert_eq!(init.node_ids, vec!["n1".to_string(), "n2".to_string()]);
    assert_eq!(reply.src, "n1");
    assert_eq!(reply.dst, "c0");
    assert_eq!(reply.body.id, Some(0));
    assert_eq!(reply.body.in_reply_to, Some(5));
    assert!(matches!(reply.body.payload, InitPayload::InitOk));
}

#[test]
fn init_reply_refuses_other_first_messages() {
    assert!(init_reply(msg("c0", "n1", Some(1), InitPayload::InitOk)).is_none());
    let err = InitPayload::Error(Error { code: 10, text: "bad".to_string() });
    assert!(init_reply(msg("c0", "n1", Some(1), err)).is_none());
}

#[test]
fn frame_line_appends_newline() {
    assert_eq!(frame_line(b"{\"a\":1}"), b"{\"a\":1}\n".to_vec());
    assert_eq!(frame_line(b""), b"\n".to_vec());
}
