use vstd::prelude::*;

verus! {

/// A message exchanged between nodes: who sent it, who it is for, and its body.
pub struct Message<Payload> {
    pub src: String,
    pub dst: String,
    pub body: Body<Payload>,
}

/// The body of a message: its own id, the id of the message it answers, and the payload.
pub struct Body<Payload> {
    pub id: Option<usize>,
    pub in_reply_to: Option<usize>,
    pub payload: Payload,
}

/// What the first message tells a node: its own id and the ids of all nodes.
pub struct Init {
    pub node_id: String,
    pub node_ids: Vec<String>,
}

/// What a node is handed to act upon.
pub enum Event<Payload> {
    Message(Message<Payload>),
    Interval,
    EOF,
}

/// The payloads of the handshake that starts a node.
pub enum InitPayload {
    Init(Init),
    InitOk,
    Error(Error),
}

/// An error reported in place of the handshake's answer.
pub struct Error {
    pub code: usize,
    pub text: String,
}

/// Answers the first message a node receives, which must be an init: gives back
/// the init it carries and the acknowledgement to send, or nothing where the
/// message is no init.
pub fn init_reply(msg: Message<InitPayload>) -> (res: Option<(Init, Message<InitPayload>)>)
    ensures
        res is Some <==> msg.body.payload is Init,
        res matches Some((init, reply)) ==> {
            &&& msg.body.payload == InitPayload::Init(init)
            &&& reply.src == msg.dst
            &&& reply.dst == msg.src
            &&& reply.body.id == Some(0usize)
            &&& reply.body.in_reply_to == msg.body.id
            &&& reply.body.payload is InitOk
        },
{
    let Message { src, dst, body } = msg;
    match body.payload {
        InitPayload::Init(init) => {
            let reply = Message {
                src: dst,
                dst: src,
                body: Body { id: Some(0), in_reply_to: body.id, payload: InitPayload::InitOk },
            };
            Some((init, reply))
        },
        _ => None,
    }
}

/// Frames one serialised message as a line of output: the bytes, then a newline.
pub fn frame_line(json: &[u8]) -> (line: Vec<u8>)
    ensures
        line@ == json@.push(10u8),
{
    let mut line: Vec<u8> = Vec::new();
    let mut i: usize = 0;
    while i < json.len()
        invariant
            i <= json@.len(),
            line@ == json@.take(i as int),
        decreases json@.len() - i,
    {
        line.push(json[i]);
        assert(json@.take(i + 1) =~= json@.take(i as int).push(json@[i as int]));
        i = i + 1;
    }
    line.push(10u8);
    assert(json@.take(json@.len() as int) =~= json@);
    line
}

impl<Payload> Message<Payload> {
    /// Converts an incoming message into a reply message with a new id.
    ///
    /// The reply goes back to the sender, answers the incoming message's id and
    /// keeps its payload. Where a counter is given, the reply takes its value as
    /// id and the counter moves on by one.
    pub fn into_reply(self, msg_id: Option<&mut usize>) -> (res: Self)
        requires
            msg_id matches Some(c) ==> *c < usize::MAX,
        ensures
            res.src == self.dst,
            res.dst == self.src,
            res.body.in_reply_to == self.body.id,
            res.body.payload == self.body.payload,
            msg_id matches Some(c) ==> res.body.id == Some(*c) && *final(c) == *c + 1,
            msg_id is None ==> res.body.id is None,
    {
        let id = match msg_id {
            Some(c) => {
                let mid = *c;
                *c = *c + 1;
                Some(mid)
            },
            None => None,
        };
        Message {
            src: self.dst,
            dst: self.src,
            body: Body { id, in_reply_to: self.body.id, payload: self.body.payload },
        }
    }
}

/// A node of the cluster: made from the init message, it then consumes events
/// one at a time and answers each with the messages it sends.
pub trait Node<Payload>: Sized {
    /// What the node sends out.
    type Output;

    /// Whether the node can act upon `input` in its current state.
    spec fn steppable(&self, input: &Event<Payload>) -> bool;

    /// Initialises a node based on an init message.
    fn from_init(init: Init) -> Self;

    /// Tells whether the node can act upon `input`.
    fn can_step(&self, input: &Event<Payload>) -> (ok: bool)
        ensures
            ok == self.steppable(input),
    ;

    /// Consumes an event and acts upon it, returning the messages to send.
    fn step(&mut self, input: Event<Payload>) -> (out: Vec<Self::Output>)
        requires
            old(self).steppable(&input),
    ;
}

} // verus!
