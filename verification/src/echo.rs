use vstd::prelude::*;
use crate::message::{Body, Event, Init, Message, Node};

verus! {

/// The payloads an echo node exchanges.
pub enum EchoPayload {
    Echo(Echo),
    EchoOk(Echo),
}

/// A text to echo back.
pub struct Echo {
    pub echo: String,
}

/// A node that echoes back what it is sent.
pub struct EchoNode {
    id: usize,
}

/// What an echo node does on `input` with its counter going from `old_id` to
/// `new_id`, sending `out`.
pub open spec fn echo_step(
    old_id: usize,
    new_id: usize,
    input: Event<EchoPayload>,
    out: Seq<Message<EchoPayload>>,
) -> bool {
    &&& input matches Event::Message(m)
    &&& new_id == old_id + 1
    &&& match m.body.payload {
        EchoPayload::Echo(e) => {
            &&& out.len() == 1
            &&& out[0].src == m.dst
            &&& out[0].dst == m.src
            &&& out[0].body.id == Some(old_id)
            &&& out[0].body.in_reply_to == m.body.id
            &&& out[0].body.payload == EchoPayload::EchoOk(e)
        },
        EchoPayload::EchoOk(_) => out.len() == 0,
    }
}

impl EchoNode {
    /// The id the next reply of this node takes.
    pub closed spec fn next_id(&self) -> usize {
        self.id
    }
}

impl Node<EchoPayload> for EchoNode {
    type Output = Message<EchoPayload>;

    open spec fn steppable(&self, input: &Event<EchoPayload>) -> bool {
        input is Message && self.next_id() < usize::MAX
    }

    fn from_init(init: Init) -> (node: Self)
        ensures
            node.next_id() == 1,
    {
        EchoNode { id: 1 }
    }

    fn can_step(&self, input: &Event<EchoPayload>) -> (ok: bool) {
        match input {
            Event::Message(_) => self.id < usize::MAX,
            _ => false,
        }
    }

    fn step(&mut self, input: Event<EchoPayload>) -> (out: Vec<Message<EchoPayload>>)
        ensures
            echo_step(old(self).next_id(), final(self).next_id(), input, out@),
    {
        let mut out: Vec<Message<EchoPayload>> = Vec::new();
        if let Event::Message(m) = input {
            let reply = m.into_reply(Some(&mut self.id));
            let Message { src, dst, body } = reply;
            let Body { id, in_reply_to, payload } = body;
            match payload {
                EchoPayload::Echo(echo) => {
                    out.push(
                        Message {
                            src,
                            dst,
                            body: Body { id, in_reply_to, payload: EchoPayload::EchoOk(echo) },
                        },
                    );
                },
                EchoPayload::EchoOk(_) => {},
            }
        }
        out
    }
}

/// An echo is answered once, back to whoever sent it, from the node it was sent
/// to, with the very text it carried, under the node's counter, in reply to the
/// echo's own id; the counter moves on by one on every message.
pub proof fn lemma_echo_returns_the_text(
    old_id: usize,
    new_id: usize,
    input: Event<EchoPayload>,
    out: Seq<Message<EchoPayload>>,
)
    requires
        echo_step(old_id, new_id, input, out),
    ensures
        new_id == old_id + 1,
        input->Message_0.body.payload matches EchoPayload::Echo(e) ==> {
            &&& out.len() == 1
            &&& out[0].src == input->Message_0.dst
            &&& out[0].dst == input->Message_0.src
            &&& out[0].body.id == Some(old_id)
            &&& out[0].body.in_reply_to == input->Message_0.body.id
            &&& out[0].body.payload matches EchoPayload::EchoOk(r) && r.echo == e.echo
        },
        input->Message_0.body.payload is EchoOk ==> out.len() == 0,
{
}

} // verus!
