use vstd::prelude::*;
use std::collections::HashMap;
use crate::message::{Body, Event, Init, Message, Node};

verus! {

broadcast use vstd::std_specs::hash::group_hash_axioms;

/// The payloads a grow-only counter node exchanges with its clients.
pub enum GCounterPayload {
    Add(Add),
    AddOk,
    Read,
    ReadOk(ReadOk),
    CasOk,
    Error(Error),
}

/// A request to add `delta` to the counter.
pub struct Add {
    pub delta: usize,
}

/// The value of the counter.
pub struct ReadOk {
    pub value: usize,
}

/// An error reported by the key-value service.
pub struct Error {
    pub code: usize,
    pub text: String,
}

/// The payloads of the sequentially consistent key-value service.
pub enum SeqKvPayload {
    Read(SeqKvRead),
    ReadOk(SeqKvReadOk),
    Write(SeqKvWrite),
    WriteOk,
    Cas(SeqKvCas),
    CasOk,
}

pub struct SeqKvRead {
    pub key: String,
}

pub struct SeqKvReadOk {
    pub value: String,
}

pub struct SeqKvWrite {
    pub key: String,
    pub value: usize,
}

pub struct SeqKvCas {
    pub key: String,
    /// Current value of the key.
    pub from: usize,
    /// New value of the key.
    pub to: usize,
    /// Whether the key should be created if it does not already exist (upsert).
    pub put: bool,
}

/// What a request to the key-value service was made for.
pub enum OperationType {
    Read,
    Write(OperationWrite),
    Cas,
}

pub struct OperationWrite {
    pub value: usize,
}

/// A request to the key-value service that waits for its answer, with the
/// node that the answer is owed to.
pub struct PendingOperation {
    pub src: String,
    pub op_type: OperationType,
}

/// What a counter node sends: a message to a client or one to the key-value service.
pub enum GCounterOutput {
    Client(Message<GCounterPayload>),
    SeqKv(Message<SeqKvPayload>),
}

/// The abstract state of a counter node.
pub struct GCounterState {
    pub id: Seq<char>,
    pub msg_id: usize,
    pub pending: Map<usize, PendingOperation>,
}

/// A node that keeps a grow-only counter in the key-value service.
pub struct GCounterNode {
    id: String,
    msg_id: usize,
    pending_ops: HashMap<usize, PendingOperation>,
}

/// The key under which the counter is kept.
pub open spec fn counter_key() -> Seq<char> {
    "counter"@
}

/// The name of the key-value service.
pub open spec fn seq_kv_name() -> Seq<char> {
    "seq-kv"@
}

fn counter_key_string() -> (s: String)
    ensures
        s@ == counter_key(),
{
    "counter".to_string()
}

fn seq_kv_string() -> (s: String)
    ensures
        s@ == seq_kv_name(),
{
    "seq-kv".to_string()
}

impl View for GCounterNode {
    type V = GCounterState;

    closed spec fn view(&self) -> GCounterState {
        GCounterState { id: self.id@, msg_id: self.msg_id, pending: self.pending_ops@ }
    }
}

impl GCounterNode {
    #[verifier::type_invariant]
    spec fn inv(&self) -> bool {
        forall|k: usize| self.pending_ops@.contains_key(k) ==> k <= self.msg_id
    }

    /// Sends a request to the key-value service under a fresh message id and
    /// remembers what it was made for.
    pub fn send_seq_kv_request(
        &mut self,
        payload: SeqKvPayload,
        in_reply_to: usize,
        src: String,
        op_type: OperationType,
    ) -> (out: Message<SeqKvPayload>)
        requires
            old(self)@.msg_id < usize::MAX,
        ensures
            final(self)@.id == old(self)@.id,
            final(self)@.msg_id == old(self)@.msg_id + 1,
            !old(self)@.pending.contains_key(final(self)@.msg_id),
            final(self)@.pending == old(self)@.pending.insert(
                final(self)@.msg_id,
                PendingOperation { src, op_type },
            ),
            out.src@ == old(self)@.id,
            out.dst@ == seq_kv_name(),
            out.body.id == Some(final(self)@.msg_id),
            out.body.in_reply_to == Some(in_reply_to),
            out.body.payload == payload,
    {
        proof {
            use_type_invariant(&*self);
        }
        self.msg_id = self.msg_id + 1;
        let out = Message {
            src: self.id.clone(),
            dst: seq_kv_string(),
            body: Body { id: Some(self.msg_id), in_reply_to: Some(in_reply_to), payload },
        };
        let mut ops = HashMap::new();
        std::mem::swap(&mut ops, &mut self.pending_ops);
        ops.insert(self.msg_id, PendingOperation { src, op_type });
        self.pending_ops = ops;
        out
    }
}


/// The same state with the pending operation under `k` taken out.
pub open spec fn without_pending(s: GCounterState, k: usize) -> GCounterState {
    GCounterState { id: s.id, msg_id: s.msg_id, pending: s.pending.remove(k) }
}

/// Whether `p` is a read of the counter's key.
pub open spec fn is_counter_read(p: SeqKvPayload) -> bool {
    p matches SeqKvPayload::Read(r) && r.key@ == counter_key()
}

/// Whether `p` is a compare-and-set of the counter's key from `from` to `to`.
pub open spec fn is_counter_cas(p: SeqKvPayload, from: usize, to: usize, put: bool) -> bool {
    p matches SeqKvPayload::Cas(c) && c.key@ == counter_key() && c.from == from && c.to == to
        && c.put == put
}

/// The payload of the single message to the key-value service in `out`.
pub open spec fn kv_payload(out: Seq<GCounterOutput>) -> SeqKvPayload {
    match out[0] {
        GCounterOutput::SeqKv(m) => m.body.payload,
        GCounterOutput::Client(_) => arbitrary(),
    }
}

/// The payload of the single message to a client in `out`.
pub open spec fn client_payload(out: Seq<GCounterOutput>) -> GCounterPayload {
    match out[0] {
        GCounterOutput::Client(m) => m.body.payload,
        GCounterOutput::SeqKv(_) => arbitrary(),
    }
}

/// From `old` to `new` the node sent one request to the key-value service,
/// under its next message id, answering `in_reply_to`, and remembered that the
/// answer is owed to `src` for an operation of type `op_type`.
pub open spec fn kv_request(
    old: GCounterState,
    new: GCounterState,
    out: Seq<GCounterOutput>,
    in_reply_to: usize,
    src: String,
    op_type: OperationType,
) -> bool {
    &&& new.id == old.id
    &&& new.msg_id == old.msg_id + 1
    &&& !old.pending.contains_key(new.msg_id)
    &&& new.pending == old.pending.insert(new.msg_id, PendingOperation { src, op_type })
    &&& out.len() == 1
    &&& out[0] matches GCounterOutput::SeqKv(m) && m.src@ == old.id && m.dst@ == seq_kv_name()
        && m.body.id == Some(new.msg_id) && m.body.in_reply_to == Some(in_reply_to)
}

/// From `old` to `new` the node sent one message to the client `dst`, under its
/// next message id, answering `in_reply_to`.
pub open spec fn client_reply(
    old: GCounterState,
    new: GCounterState,
    out: Seq<GCounterOutput>,
    dst: String,
    in_reply_to: Option<usize>,
) -> bool {
    &&& new.id == old.id
    &&& new.msg_id == old.msg_id + 1
    &&& new.pending == old.pending
    &&& out.len() == 1
    &&& out[0] matches GCounterOutput::Client(m) && m.src@ == old.id && m.dst == dst
        && m.body.id == Some(new.msg_id) && m.body.in_reply_to == in_reply_to
}

/// Whether a counter node in state `s` can act upon `input`: the inputs on
/// which it would fail are left out.
pub open spec fn gcounter_steppable(s: GCounterState, input: &Event<GCounterPayload>) -> bool {
    match input {
        Event::Message(m) => match m.body.payload {
            GCounterPayload::Add(_) => m.body.id is Some && s.msg_id < usize::MAX,
            GCounterPayload::Read => m.body.id is Some && s.msg_id < usize::MAX,
            GCounterPayload::AddOk => true,
            GCounterPayload::ReadOk(r) => {
                &&& m.src@ == seq_kv_name()
                &&& m.body.in_reply_to matches Some(k)
                &&& s.pending.contains_key(k)
                &&& s.msg_id < usize::MAX
                &&& match s.pending[k].op_type {
                    OperationType::Read => true,
                    OperationType::Write(w) => m.body.id is Some && r.value + w.value
                        <= usize::MAX,
                    OperationType::Cas => false,
                }
            },
            GCounterPayload::CasOk => m.body.in_reply_to matches Some(k) && (
            s.pending.contains_key(k) ==> (s.pending[k].op_type is Cas && s.msg_id
                < usize::MAX)),
            GCounterPayload::Error(_) => m.body.in_reply_to matches Some(k) && (
            s.pending.contains_key(k) ==> (!(s.pending[k].op_type is Cas) && s.msg_id
                < usize::MAX)),
        },
        _ => true,
    }
}

/// What a counter node does on `input`, from state `old` to state `new`, sending `out`.
pub open spec fn gcounter_step(
    old: GCounterState,
    new: GCounterState,
    input: Event<GCounterPayload>,
    out: Seq<GCounterOutput>,
) -> bool {
    match input {
        Event::Message(m) => match m.body.payload {
            GCounterPayload::Add(a) => kv_request(
                old,
                new,
                out,
                m.body.id->0,
                m.src,
                OperationType::Write(OperationWrite { value: a.delta }),
            ) && is_counter_read(kv_payload(out)),
            GCounterPayload::Read => kv_request(
                old,
                new,
                out,
                m.body.id->0,
                m.src,
                OperationType::Read,
            ) && is_counter_read(kv_payload(out)),
            GCounterPayload::ReadOk(r) => {
                let k = m.body.in_reply_to->0;
                let p = old.pending[k];
                let mid = without_pending(old, k);
                match p.op_type {
                    OperationType::Read => client_reply(mid, new, out, p.src, m.body.in_reply_to)
                        && (client_payload(out) matches GCounterPayload::ReadOk(v) && v.value
                        == r.value),
                    OperationType::Write(w) => kv_request(
                        mid,
                        new,
                        out,
                        m.body.id->0,
                        m.src,
                        OperationType::Cas,
                    ) && is_counter_cas(kv_payload(out), r.value, (r.value + w.value) as usize, false),
                    OperationType::Cas => false,
                }
            },
            GCounterPayload::CasOk => {
                let k = m.body.in_reply_to->0;
                if old.pending.contains_key(k) {
                    let p = old.pending[k];
                    client_reply(without_pending(old, k), new, out, p.src, m.body.in_reply_to)
                        && client_payload(out) is AddOk
                } else {
                    new == old && out.len() == 0
                }
            },
            GCounterPayload::Error(_) => {
                let k = m.body.in_reply_to->0;
                if old.pending.contains_key(k) {
                    let p = old.pending[k];
                    let mid = without_pending(old, k);
                    match p.op_type {
                        OperationType::Read => client_reply(
                            mid,
                            new,
                            out,
                            p.src,
                            m.body.in_reply_to,
                        ) && (client_payload(out) matches GCounterPayload::ReadOk(v) && v.value
                            == 0),
                        OperationType::Write(w) => kv_request(
                            mid,
                            new,
                            out,
                            k,
                            m.src,
                            OperationType::Cas,
                        ) && is_counter_cas(kv_payload(out), 0, w.value, true),
                        OperationType::Cas => false,
                    }
                } else {
                    new == old && out.len() == 0
                }
            },
            GCounterPayload::AddOk => new == old && out.len() == 0,
        },
        _ => new == old && out.len() == 0,
    }
}

impl GCounterNode {
    /// Takes out the pending operation under `k`, if there is one.
    fn take_pending(&mut self, k: usize) -> (res: Option<PendingOperation>)
        ensures
            final(self)@ == without_pending(old(self)@, k),
            !old(self)@.pending.contains_key(k) ==> final(self)@ == old(self)@,
            res == (if old(self)@.pending.contains_key(k) {
                Some(old(self)@.pending[k])
            } else {
                None::<PendingOperation>
            }),
    {
        proof {
            use_type_invariant(&*self);
        }
        let mut ops = HashMap::new();
        std::mem::swap(&mut ops, &mut self.pending_ops);
        let res = ops.remove(&k);
        self.pending_ops = ops;
        assert(!old(self)@.pending.contains_key(k) ==> old(self)@.pending.remove(k)
            =~= old(self)@.pending);
        res
    }

    /// Sends `payload` to the client `dst` under the next message id.
    fn reply_to_client(
        &mut self,
        dst: String,
        in_reply_to: Option<usize>,
        payload: GCounterPayload,
    ) -> (out: Message<GCounterPayload>)
        requires
            old(self)@.msg_id < usize::MAX,
        ensures
            final(self)@.id == old(self)@.id,
            final(self)@.msg_id == old(self)@.msg_id + 1,
            final(self)@.pending == old(self)@.pending,
            out.src@ == old(self)@.id,
            out.dst == dst,
            out.body.id == Some(final(self)@.msg_id),
            out.body.in_reply_to == in_reply_to,
            out.body.payload == payload,
    {
        proof {
            use_type_invariant(&*self);
        }
        self.msg_id = self.msg_id + 1;
        Message {
            src: self.id.clone(),
            dst,
            body: Body { id: Some(self.msg_id), in_reply_to, payload },
        }
    }
}

impl Node<GCounterPayload> for GCounterNode {
    type Output = GCounterOutput;

    open spec fn steppable(&self, input: &Event<GCounterPayload>) -> bool {
        gcounter_steppable(self@, input)
    }

    fn from_init(init: Init) -> (node: Self)
        ensures
            node@.id == init.node_id@,
            node@.msg_id == 0,
            node@.pending == Map::<usize, PendingOperation>::empty(),
    {
        GCounterNode { id: init.node_id, msg_id: 0, pending_ops: HashMap::new() }
    }

    fn can_step(&self, input: &Event<GCounterPayload>) -> (ok: bool) {
        match input {
            Event::Message(m) => match &m.body.payload {
                GCounterPayload::Add(_) => m.body.id.is_some() && self.msg_id < usize::MAX,
                GCounterPayload::Read => m.body.id.is_some() && self.msg_id < usize::MAX,
                GCounterPayload::AddOk => true,
                GCounterPayload::ReadOk(r) => {
                    if m.src != seq_kv_string() || self.msg_id == usize::MAX {
                        return false;
                    }
                    match m.body.in_reply_to {
                        None => false,
                        Some(k) => match self.pending_ops.get(&k) {
                            None => false,
                            Some(p) => match &p.op_type {
                                OperationType::Read => true,
                                OperationType::Write(w) => m.body.id.is_some() && r.value
                                    <= usize::MAX - w.value,
                                OperationType::Cas => false,
                            },
                        },
                    }
                },
                GCounterPayload::CasOk => match m.body.in_reply_to {
                    None => false,
                    Some(k) => match self.pending_ops.get(&k) {
                        None => true,
                        Some(p) => match &p.op_type {
                            OperationType::Cas => self.msg_id < usize::MAX,
                            _ => false,
                        },
                    },
                },
                GCounterPayload::Error(_) => match m.body.in_reply_to {
                    None => false,
                    Some(k) => match self.pending_ops.get(&k) {
                        None => true,
                        Some(p) => match &p.op_type {
                            OperationType::Cas => false,
                            _ => self.msg_id < usize::MAX,
                        },
                    },
                },
            },
            _ => true,
        }
    }

    fn step(&mut self, input: Event<GCounterPayload>) -> (out: Vec<GCounterOutput>)
        ensures
            gcounter_step(old(self)@, final(self)@, input, out@),
            forall|k: usize| #[trigger] final(self)@.pending.contains_key(k) ==> k <= final(self)@.msg_id,
    {
        proof {
            use_type_invariant(&*self);
        }
        let mut out: Vec<GCounterOutput> = Vec::new();
        match input {
            Event::Message(m) => {
                let Message { src, dst: _, body } = m;
                let Body { id, in_reply_to, payload } = body;
                match payload {
                    GCounterPayload::Add(add) => {
                        let req = self.send_seq_kv_request(
                            SeqKvPayload::Read(SeqKvRead { key: counter_key_string() }),
                            id.unwrap(),
                            src,
                            OperationType::Write(OperationWrite { value: add.delta }),
                        );
                        out.push(GCounterOutput::SeqKv(req));
                    },
                    GCounterPayload::AddOk => {},
                    GCounterPayload::Read => {
                        let req = self.send_seq_kv_request(
                            SeqKvPayload::Read(SeqKvRead { key: counter_key_string() }),
                            id.unwrap(),
                            src,
                            OperationType::Read,
                        );
                        out.push(GCounterOutput::SeqKv(req));
                    },
                    GCounterPayload::ReadOk(read) => {
                        let k = in_reply_to.unwrap();
                        let pending_op = self.take_pending(k).unwrap();
                        match pending_op.op_type {
                            OperationType::Read => {
                                let reply = self.reply_to_client(
                                    pending_op.src,
                                    in_reply_to,
                                    GCounterPayload::ReadOk(ReadOk { value: read.value }),
                                );
                                out.push(GCounterOutput::Client(reply));
                            },
                            OperationType::Write(write) => {
                                let req = self.send_seq_kv_request(
                                    SeqKvPayload::Cas(
                                        SeqKvCas {
                                            key: counter_key_string(),
                                            from: read.value,
                                            to: read.value + write.value,
                                            put: false,
                                        },
                                    ),
                                    id.unwrap(),
                                    src,
                                    OperationType::Cas,
                                );
                                out.push(GCounterOutput::SeqKv(req));
                            },
                            OperationType::Cas => {},
                        }
                    },
                    GCounterPayload::CasOk => {
                        let k = in_reply_to.unwrap();
                        if let Some(pending_op) = self.take_pending(k) {
                            let reply = self.reply_to_client(
                                pending_op.src,
                                in_reply_to,
                                GCounterPayload::AddOk,
                            );
                            out.push(GCounterOutput::Client(reply));
                        }
                    },
                    GCounterPayload::Error(_) => {
                        let k = in_reply_to.unwrap();
                        if let Some(pending_op) = self.take_pending(k) {
                            match pending_op.op_type {
                                OperationType::Read => {
                                    let reply = self.reply_to_client(
                                        pending_op.src,
                                        in_reply_to,
                                        GCounterPayload::ReadOk(ReadOk { value: 0 }),
                                    );
                                    out.push(GCounterOutput::Client(reply));
                                },
                                OperationType::Write(write) => {
                                    let req = self.send_seq_kv_request(
                                        SeqKvPayload::Cas(
                                            SeqKvCas {
                                                key: counter_key_string(),
                                                from: 0,
                                                to: write.value,
                                                put: true,
                                            },
                                        ),
                                        k,
                                        src,
                                        OperationType::Cas,
                                    );
                                    out.push(GCounterOutput::SeqKv(req));
                                },
                                OperationType::Cas => {},
                            }
                        }
                    },
                }
            },
            Event::Interval => {},
            Event::EOF => {},
        }
        proof {
            use_type_invariant(&*self);
        }
        out
    }
}


/// The message id of an output.
pub open spec fn output_id(o: GCounterOutput) -> Option<usize> {
    match o {
        GCounterOutput::Client(m) => m.body.id,
        GCounterOutput::SeqKv(m) => m.body.id,
    }
}

/// Every message a counter node sends carries an id above every id it used
/// before, and no step lowers its counter.
pub proof fn lemma_gcounter_fresh_ids(
    old: GCounterState,
    new: GCounterState,
    input: Event<GCounterPayload>,
    out: Seq<GCounterOutput>,
)
    requires
        gcounter_steppable(old, &input),
        gcounter_step(old, new, input, out),
    ensures
        new.msg_id >= old.msg_id,
        forall|i: int|
            0 <= i < out.len() ==> output_id(#[trigger] out[i]) == Some(new.msg_id) && new.msg_id
                > old.msg_id,
{
}

/// An operation is answered once: after the acknowledgement of a compare-and-set
/// has been passed on, a second acknowledgement for it changes nothing and sends
/// nothing.
pub proof fn lemma_cas_answered_once(
    s0: GCounterState,
    s1: GCounterState,
    first: Event<GCounterPayload>,
    first_out: Seq<GCounterOutput>,
    s2: GCounterState,
    second: Event<GCounterPayload>,
    second_out: Seq<GCounterOutput>,
    k: usize,
)
    requires
        gcounter_step(s0, s1, first, first_out),
        first matches Event::Message(m) && m.body.payload is CasOk && m.body.in_reply_to == Some(k),
        gcounter_step(s1, s2, second, second_out),
        second matches Event::Message(m) && m.body.payload is CasOk && m.body.in_reply_to == Some(
            k,
        ),
    ensures
        s2 == s1,
        second_out.len() == 0,
{
    if s0.pending.contains_key(k) {
        assert(!s1.pending.contains_key(k));
    }
}

/// An add or a read from a client is passed on to the key-value service as one
/// read of the counter's key, under the node's next id and in reply to the
/// client's request; the node remembers, under that id, that the answer is owed
/// to the client and what for (the add's delta, or a read), and forgets nothing.
pub proof fn lemma_client_requests_read_the_counter(
    old: GCounterState,
    new: GCounterState,
    input: Event<GCounterPayload>,
    out: Seq<GCounterOutput>,
)
    requires
        gcounter_steppable(old, &input),
        gcounter_step(old, new, input, out),
        input matches Event::Message(m) && (m.body.payload is Add || m.body.payload is Read),
    ensures
        out.len() == 1,
        out[0] matches GCounterOutput::SeqKv(q) && q.src@ == old.id && q.dst@ == "seq-kv"@
            && q.body.id == Some((old.msg_id + 1) as usize) && q.body.in_reply_to
            == input->Message_0.body.id && (q.body.payload matches SeqKvPayload::Read(r) && r.key@
            == "counter"@),
        new.msg_id == old.msg_id + 1,
        new.pending.contains_key(new.msg_id),
        new.pending[new.msg_id].src == input->Message_0.src,
        input->Message_0.body.payload matches GCounterPayload::Add(a) ==> (
        new.pending[new.msg_id].op_type matches OperationType::Write(w) && w.value == a.delta),
        input->Message_0.body.payload is Read ==> new.pending[new.msg_id].op_type is Read,
        forall|k: usize| old.pending.contains_key(k) ==> new.pending.contains_key(k) && new.pending[k]
            == old.pending[k],
{
}

/// An answer of the key-value service to a pending operation settles it: the
/// operation is forgotten, and what follows goes where the operation says.
/// A read answers its client (the node recorded for it) with the value read, or
/// with 0 where the key is missing; a compare-and-set acknowledged answers its
/// client with `add_ok`; a value read for an add is compared and set to that value
/// plus the add's delta, and a missing key for an add is created with the delta.
pub proof fn lemma_answers_reach_the_recorded_node(
    old: GCounterState,
    new: GCounterState,
    input: Event<GCounterPayload>,
    out: Seq<GCounterOutput>,
)
    requires
        gcounter_steppable(old, &input),
        gcounter_step(old, new, input, out),
        input matches Event::Message(m) && (m.body.payload is ReadOk || m.body.payload is CasOk
            || m.body.payload is Error),
        input->Message_0.body.in_reply_to is Some,
        old.pending.contains_key(input->Message_0.body.in_reply_to->0),
        forall|j: usize| #[trigger] old.pending.contains_key(j) ==> j <= old.msg_id,
    ensures
        ({
            let m = input->Message_0;
            let k = m.body.in_reply_to->0;
            let p = old.pending[k];
            &&& out.len() == 1
            &&& !new.pending.contains_key(k)
            &&& new.msg_id == old.msg_id + 1
            &&& p.op_type is Read ==> (out[0] matches GCounterOutput::Client(c) && c.dst == p.src
                && c.src@ == old.id && c.body.id == Some(new.msg_id) && (c.body.payload matches GCounterPayload::ReadOk(v)
                && v.value == (if m.body.payload is ReadOk {
                m.body.payload->ReadOk_0.value
            } else {
                0
            })))
            &&& p.op_type is Cas ==> (m.body.payload is CasOk && (out[0] matches GCounterOutput::Client(c)
                && c.dst == p.src && c.src@ == old.id && c.body.id == Some(new.msg_id)
                && c.body.payload is AddOk))
            &&& p.op_type matches OperationType::Write(w) ==> (out[0] matches GCounterOutput::SeqKv(q)
                && q.dst@ == "seq-kv"@ && q.body.id == Some(new.msg_id) && new.pending[new.msg_id].op_type is Cas
                && (q.body.payload matches SeqKvPayload::Cas(c) && c.key@ == "counter"@ && (
            if m.body.payload is ReadOk {
                c.from == m.body.payload->ReadOk_0.value && c.to == m.body.payload->ReadOk_0.value
                    + w.value && !c.put
            } else {
                c.from == 0 && c.to == w.value && c.put
            })))
        }),
{
    let m = input->Message_0;
    let k = m.body.in_reply_to->0;
    let p = old.pending[k];
    assert(k <= old.msg_id);
    match p.op_type {
        OperationType::Read => {
            assert(client_reply(without_pending(old, k), new, out, p.src, m.body.in_reply_to));
        },
        OperationType::Cas => {
            assert(client_reply(without_pending(old, k), new, out, p.src, m.body.in_reply_to));
        },
        OperationType::Write(w) => {
            if m.body.payload is ReadOk {
                assert(kv_request(without_pending(old, k), new, out, m.body.id->0, m.src, OperationType::Cas));
            } else {
                assert(kv_request(without_pending(old, k), new, out, k, m.src, OperationType::Cas));
            }
        },
    }
}

} // verus!
