use vstd::prelude::*;
use crate::decimal::{decimal, format_decimal, lemma_decimal_injective, lemma_decimal_shape};
use crate::message::{Body, Event, Init, Message, Node};

verus! {

/// The payloads a unique-id node exchanges.
pub enum UniqueIdPayload {
    Generate,
    GenerateOk(GenerateOk),
}

/// A generated id.
pub struct GenerateOk {
    pub id: String,
}

/// The abstract state of a unique-id node.
pub struct UniqueIdState {
    pub id: Seq<char>,
    pub msg_id: usize,
}

/// A node that hands out ids unique across the cluster.
pub struct UniqueIdNode {
    id: String,
    msg_id: usize,
}

/// The id that node `node` hands out when its counter stands at `n`: the node's
/// name, a hyphen and the counter in decimal.
pub open spec fn unique_id(node: Seq<char>, n: nat) -> Seq<char> {
    node + "-"@ + decimal(n)
}

/// Different nodes, or different counter values, give different ids.
pub proof fn lemma_unique_ids(a: Seq<char>, n: nat, b: Seq<char>, m: nat)
    requires
        a != b || n != m,
    ensures
        unique_id(a, n) != unique_id(b, m),
{
    if unique_id(a, n) == unique_id(b, m) {
        reveal_strlit("-");
        let s = unique_id(a, n);
        lemma_decimal_shape(n);
        lemma_decimal_shape(m);
        assert(s == a + seq!['-'] + decimal(n));
        assert(s == b + seq!['-'] + decimal(m));
        if a.len() < b.len() {
            assert(s[b.len() as int] == '-');
            assert(decimal(n)[b.len() - a.len() - 1] == s[b.len() as int]);
        } else if b.len() < a.len() {
            assert(s[a.len() as int] == '-');
            assert(decimal(m)[a.len() - b.len() - 1] == s[a.len() as int]);
        } else {
            assert(a =~= s.take(a.len() as int));
            assert(b =~= s.take(b.len() as int));
            assert(decimal(n) =~= s.skip(a.len() as int + 1));
            assert(decimal(m) =~= s.skip(b.len() as int + 1));
            lemma_decimal_injective(n, m);
        }
    }
}

/// What a unique-id node does on `input`, from state `old` to state `new`, sending `out`.
pub open spec fn unique_id_step(
    old: UniqueIdState,
    new: UniqueIdState,
    input: Event<UniqueIdPayload>,
    out: Seq<Message<UniqueIdPayload>>,
) -> bool {
    &&& input matches Event::Message(m)
    &&& new.id == old.id
    &&& new.msg_id == old.msg_id + 1
    &&& match m.body.payload {
        UniqueIdPayload::Generate => {
            &&& out.len() == 1
            &&& out[0].src == m.dst
            &&& out[0].dst == m.src
            &&& out[0].body.id == Some(old.msg_id)
            &&& out[0].body.in_reply_to == m.body.id
            &&& out[0].body.payload matches UniqueIdPayload::GenerateOk(g) && g.id@ == unique_id(
                old.id,
                new.msg_id as nat,
            )
        },
        UniqueIdPayload::GenerateOk(_) => out.len() == 0,
    }
}

impl View for UniqueIdNode {
    type V = UniqueIdState;

    closed spec fn view(&self) -> UniqueIdState {
        UniqueIdState { id: self.id@, msg_id: self.msg_id }
    }
}

impl Node<UniqueIdPayload> for UniqueIdNode {
    type Output = Message<UniqueIdPayload>;

    open spec fn steppable(&self, input: &Event<UniqueIdPayload>) -> bool {
        input is Message && self@.msg_id < usize::MAX
    }

    fn from_init(init: Init) -> (node: Self)
        ensures
            node@.id == init.node_id@,
            node@.msg_id == 0,
    {
        UniqueIdNode { id: init.node_id, msg_id: 0 }
    }

    fn can_step(&self, input: &Event<UniqueIdPayload>) -> (ok: bool) {
        match input {
            Event::Message(_) => self.msg_id < usize::MAX,
            _ => false,
        }
    }

    fn step(&mut self, input: Event<UniqueIdPayload>) -> (out: Vec<Message<UniqueIdPayload>>)
        ensures
            unique_id_step(old(self)@, final(self)@, input, out@),
    {
        let mut out: Vec<Message<UniqueIdPayload>> = Vec::new();
        if let Event::Message(m) = input {
            let reply = m.into_reply(Some(&mut self.msg_id));
            let Message { src, dst, body } = reply;
            let Body { id, in_reply_to, payload } = body;
            match payload {
                UniqueIdPayload::Generate => {
                    let mut generated = self.id.clone();
                    generated.append("-");
                    let counter = format_decimal(self.msg_id);
                    generated.append(counter.as_str());
                    out.push(
                        Message {
                            src,
                            dst,
                            body: Body {
                                id,
                                in_reply_to,
                                payload: UniqueIdPayload::GenerateOk(GenerateOk { id: generated }),
                            },
                        },
                    );
                },
                UniqueIdPayload::GenerateOk(_) => {},
            }
        }
        out
    }
}


/// Two ids handed out from states that differ in the node's name or in its
/// counter differ; since every step moves the counter on, a node never hands out
/// the same id twice, and two nodes with different names never hand out the same id.
pub proof fn lemma_generated_ids_differ(
    old1: UniqueIdState,
    new1: UniqueIdState,
    in1: Event<UniqueIdPayload>,
    out1: Seq<Message<UniqueIdPayload>>,
    old2: UniqueIdState,
    new2: UniqueIdState,
    in2: Event<UniqueIdPayload>,
    out2: Seq<Message<UniqueIdPayload>>,
)
    requires
        unique_id_step(old1, new1, in1, out1),
        unique_id_step(old2, new2, in2, out2),
        in1->Message_0.body.payload is Generate,
        in2->Message_0.body.payload is Generate,
        old1.id != old2.id || old1.msg_id != old2.msg_id,
    ensures
        out1[0].body.payload->GenerateOk_0.id@ != out2[0].body.payload->GenerateOk_0.id@,
{
    lemma_unique_ids(old1.id, new1.msg_id as nat, old2.id, new2.msg_id as nat);
}

/// A request for an id is answered once, back to whoever sent it, from the node
/// it was sent to, under the node's counter and in reply to the request's id, with
/// the node's name, a hyphen and the moved-on counter in decimal; the counter
/// moves on by one on every message.
pub proof fn lemma_generate_answers_the_requester(
    old: UniqueIdState,
    new: UniqueIdState,
    input: Event<UniqueIdPayload>,
    out: Seq<Message<UniqueIdPayload>>,
)
    requires
        unique_id_step(old, new, input, out),
    ensures
        new.msg_id == old.msg_id + 1,
        new.id == old.id,
        input->Message_0.body.payload is Generate ==> {
            &&& out.len() == 1
            &&& out[0].src == input->Message_0.dst
            &&& out[0].dst == input->Message_0.src
            &&& out[0].body.id == Some(old.msg_id)
            &&& out[0].body.in_reply_to == input->Message_0.body.id
            &&& out[0].body.payload matches UniqueIdPayload::GenerateOk(g) && g.id@ == old.id
                + seq!['-'] + decimal((old.msg_id + 1) as nat)
        },
        input->Message_0.body.payload is GenerateOk ==> out.len() == 0,
{
    reveal_strlit("-");
}

} // verus!
