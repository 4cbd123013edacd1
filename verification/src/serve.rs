//! The server's side of a connection: answering requests on its streams.

use vstd::prelude::*;

use crate::pacing::{initial_burst, MAX_BUF_SIZE};
use crate::response::{
    after_first_send, after_send, body_spec, response_body, rest_of, taken, PartialResponse,
    ResponseQueue, SendOutcome,
};

verus! {

/// A QUIC connection. The library only passes it on to the transport.
#[verifier::external_type_specification]
#[verifier::external_body]
pub struct ExConnection(quiche::Connection);

/// One write to a stream: what was offered to it, whether the end of the stream was
/// to follow, and what became of the write.
pub struct Offer {
    pub stream_id: u64,
    pub bytes: Seq<u8>,
    pub fin: bool,
    pub outcome: SendOutcome,
}

/// A connection, with the writes that the library has made to its streams.
pub struct Transport {
    pub conn: quiche::Connection,
    /// The writes so far, the latest one last.
    pub offered: Ghost<Seq<Offer>>,
}

/// A peer and what is under way to it.
pub struct Client {
    pub transport: Transport,
    /// The responses that its streams have not taken completely.
    pub responses: ResponseQueue,
    /// The most bytes to send in one burst.
    pub max_send_burst: usize,
}

/// A peer as a mathematical value.
#[verifier::ext_equal]
pub struct ClientView {
    pub offered: Seq<Offer>,
    pub responses: Map<u64, PartialResponse>,
    pub max_send_burst: usize,
}

impl View for Client {
    type V = ClientView;

    open spec fn view(&self) -> ClientView {
        ClientView {
            offered: self.transport.offered@,
            responses: self.responses@,
            max_send_burst: self.max_send_burst,
        }
    }
}

impl ClientView {
    /// Every response that is kept has something left to send.
    pub open spec fn wf(self) -> bool {
        forall|id: u64| #[trigger] self.responses.contains_key(id) ==> self.responses[id].open()
    }
}

impl Client {
    pub open spec fn wf(&self) -> bool {
        self.responses.wf()
    }

    /// A peer to which nothing was sent yet.
    pub fn new(conn: quiche::Connection) -> (client: Client)
        ensures
            client.wf(),
            client.transport.conn == conn,
            client.transport.offered@.len() == 0,
            client.responses@.dom() =~= Set::<u64>::empty(),
            client.max_send_burst == 49130,
            client@ == (ClientView {
                offered: Seq::empty(),
                responses: Map::empty(),
                max_send_burst: (MAX_BUF_SIZE * 75 / 100) as usize,
            }),
    {
        Client {
            transport: Transport { conn, offered: Ghost(Seq::empty()) },
            responses: ResponseQueue::new(),
            max_send_burst: initial_burst(),
        }
    }
}

/// `quiche::Connection::stream_send`: offers `buf` to a stream, with the end of
/// the stream after it where `fin` is set. The write is noted, with these arguments
/// and its outcome. On success it returns the number of bytes taken, which is at
/// most the length of `buf`, and zero only for an empty `buf`. How many bytes are
/// taken, and whether any, depends on what the peer has allowed so far; nothing is
/// said of that, nor of the connection afterwards.
#[verifier::external_body]
fn stream_send(transport: &mut Transport, stream_id: u64, buf: &[u8], fin: bool) -> (outcome:
    SendOutcome)
    ensures
        final(transport).offered@ == old(transport).offered@.push(
            (Offer { stream_id, bytes: buf@, fin, outcome }),
        ),
        taken(outcome) <= buf@.len(),
        outcome == SendOutcome::Written(0) ==> buf@.len() == 0,
{
    match transport.conn.stream_send(stream_id, buf, fin) {
        Ok(n) => SendOutcome::Written(n),
        Err(quiche::Error::Done) => SendOutcome::Blocked,
        Err(_) => SendOutcome::Failed,
    }
}

/// One write was made: `bytes` to a stream, with the end of the stream after them.
pub open spec fn offers(
    before: ClientView,
    after: ClientView,
    stream_id: u64,
    bytes: Seq<u8>,
    outcome: SendOutcome,
) -> bool {
    &&& after.offered == before.offered.push((Offer { stream_id, bytes, fin: true, outcome }))
    &&& taken(outcome) <= bytes.len()
    &&& outcome == SendOutcome::Written(0) ==> bytes.len() == 0
}

/// A response was started: the whole of `body` was offered to the stream once, with
/// the end of the stream after it; what the stream did not take is kept, unless the
/// write failed; `n` bytes were taken.
pub open spec fn starts_response(
    before: ClientView,
    after: ClientView,
    stream_id: u64,
    body: Seq<u8>,
    n: usize,
) -> bool {
    let outcome = after.offered.last().outcome;
    &&& offers(before, after, stream_id, body, outcome)
    &&& n == taken(outcome)
    &&& exists|v: Vec<u8>|
        v@ == body && after.responses == #[trigger] after_first_send(
            before.responses,
            stream_id,
            v,
            outcome,
        )
    &&& after.max_send_burst == before.max_send_burst
}

/// A response was continued: all that was left of it was offered to the stream once,
/// with the end of the stream after it; it stays kept until all of it is taken or a
/// write fails; `n` bytes were taken. Where none was kept, nothing happened.
pub open spec fn continues_response(
    before: ClientView,
    after: ClientView,
    stream_id: u64,
    n: usize,
) -> bool {
    let outcome = after.offered.last().outcome;
    if before.responses.contains_key(stream_id) {
        &&& offers(before, after, stream_id, before.responses[stream_id].rest(), outcome)
        &&& n == taken(outcome)
        &&& after.responses == after_send(before.responses, stream_id, outcome)
        &&& after.max_send_burst == before.max_send_burst
    } else {
        after == before && n == 0
    }
}

/// Answers a request: writes the file that was asked for, or a notice that there
/// is none, to the stream, and keeps what the stream does not take. Returns the
/// number of bytes taken.
pub fn respond(client: &mut Client, stream_id: u64, file: Option<Vec<u8>>) -> (n: usize)
    requires
        old(client).wf(),
    ensures
        final(client).wf(),
        starts_response(
            old(client)@,
            final(client)@,
            stream_id,
            body_spec(
                match file {
                    Some(content) => Some(content@),
                    None => None,
                },
            ),
            n,
        ),
        final(client).transport.offered@.len() == old(client).transport.offered@.len() + 1,
        ({
            let offer = final(client).transport.offered@.last();
            &&& offer.stream_id == stream_id
            &&& offer.fin
            &&& file matches Some(content) ==> offer.bytes == content@
            &&& file is None ==> offer.bytes == vstd::utf8::encode_utf8("Not Found!\r\n"@)
        }),
        final(client).max_send_burst == old(client).max_send_burst,
{
    let body: Vec<u8> = response_body(file);
    let outcome: SendOutcome = stream_send(
        &mut client.transport,
        stream_id,
        body.as_slice(),
        true,
    );
    let n: usize = client.responses.record_first_send(stream_id, body, outcome);
    assert(client@.offered.last().outcome == outcome);
    assert(client@.responses == after_first_send(old(client)@.responses, stream_id, body, outcome));
    n
}

/// Goes on with the response of a stream that has become writable. Returns the
/// number of bytes that the stream took.
pub fn handle_writable(client: &mut Client, stream_id: u64) -> (n: usize)
    requires
        old(client).wf(),
    ensures
        final(client).wf(),
        continues_response(old(client)@, final(client)@, stream_id, n),
        !old(client).responses@.contains_key(stream_id) ==> n == 0 && *final(client) == *old(client),
        old(client).responses@.contains_key(stream_id) ==> {
            let offer = final(client).transport.offered@.last();
            let kept = old(client).responses@[stream_id];
            &&& final(client).transport.offered@.len() == old(client).transport.offered@.len() + 1
            &&& offer.stream_id == stream_id
            &&& offer.fin
            &&& offer.bytes == kept.body@.skip(kept.written as int)
        },
        final(client).max_send_burst == old(client).max_send_burst,
{
    let outcome: SendOutcome = match client.responses.pending(stream_id) {
        Some(chunk) => stream_send(&mut client.transport, stream_id, chunk, true),
        None => {
            return 0;
        },
    };
    client.responses.record_send(stream_id, outcome)
}

/// The bytes that a stream took, over a series of writes.
pub open spec fn accepted(offered: Seq<Offer>, stream_id: u64) -> Seq<u8>
    decreases offered.len(),
{
    if offered.len() == 0 {
        Seq::empty()
    } else {
        let offer = offered.last();
        accepted(offered.drop_last(), stream_id) + if offer.stream_id == stream_id {
            offer.bytes.take(taken(offer.outcome) as int)
        } else {
            Seq::empty()
        }
    }
}

/// A call of the server on a peer.
pub enum Call {
    /// `respond`, with a file or a notice as the body.
    Respond { stream_id: u64, body: Seq<u8> },
    /// `handle_writable`.
    HandleWritable { stream_id: u64 },
}

impl Call {
    /// The stream that the call is about.
    pub open spec fn stream(self) -> u64 {
        match self {
            Call::Respond { stream_id, body } => stream_id,
            Call::HandleWritable { stream_id } => stream_id,
        }
    }

    /// The call leads from one state of the peer to another and returns `n`.
    pub open spec fn leads(self, before: ClientView, after: ClientView, n: usize) -> bool {
        match self {
            Call::Respond { stream_id, body } => starts_response(before, after, stream_id, body, n),
            Call::HandleWritable { stream_id } => continues_response(before, after, stream_id, n),
        }
    }
}

/// A series of calls, with the states of the peer before, between and after them and
/// with what they return.
pub open spec fn is_run(states: Seq<ClientView>, calls: Seq<Call>, counts: Seq<usize>) -> bool {
    &&& states.len() == calls.len() + 1
    &&& counts.len() == calls.len()
    &&& forall|i: int|
        0 <= i < calls.len() ==> (#[trigger] calls[i]).leads(states[i], states[i + 1], counts[i])
}

/// What the calls on a stream return, added up.
pub open spec fn returned(calls: Seq<Call>, counts: Seq<usize>, stream_id: u64) -> int
    decreases calls.len(),
{
    if calls.len() == 0 {
        0
    } else {
        returned(calls.drop_last(), counts.drop_last(), stream_id) + if calls.last().stream()
            == stream_id {
            counts.last() as int
        } else {
            0
        }
    }
}

/// No write of the series to the stream failed.
pub open spec fn none_failed(offered: Seq<Offer>, stream_id: u64) -> bool {
    forall|j: int|
        0 <= j < offered.len() && (#[trigger] offered[j]).stream_id == stream_id
            ==> !(offered[j].outcome is Failed)
}

/// One call keeps the responses well-formed and the earlier writes in place.
proof fn lemma_call_wf(call: Call, before: ClientView, after: ClientView, n: usize)
    requires
        call.leads(before, after, n),
        before.wf(),
    ensures
        after.wf(),
        before.offered.is_prefix_of(after.offered),
{
    let id = call.stream();
    assert(before.offered =~= after.offered.take(before.offered.len() as int));
    assert forall|k: u64| #[trigger]
        after.responses.contains_key(k) implies after.responses[k].open() by {
        if k != id {
            assert(before.responses.contains_key(k));
        } else if before.responses.contains_key(k) {
            vstd::std_specs::vec::axiom_spec_len(&before.responses[k].body);
        }
    }
}

/// One call splits what it is to send to a stream into what the stream takes and what
/// is kept, and leaves other streams alone.
proof fn lemma_call(
    call: Call,
    before: ClientView,
    after: ClientView,
    n: usize,
    start: int,
    stream_id: u64,
)
    requires
        call.leads(before, after, n),
        before.wf(),
        0 <= start <= before.offered.len(),
        none_failed(after.offered.skip(start), stream_id),
    ensures
        none_failed(before.offered.skip(start), stream_id),
        call.stream() != stream_id ==> {
            &&& accepted(after.offered.skip(start), stream_id) == accepted(
                before.offered.skip(start),
                stream_id,
            )
            &&& rest_of(after.responses, stream_id) == rest_of(before.responses, stream_id)
        },
        call == (Call::HandleWritable { stream_id }) ==> {
            &&& accepted(after.offered.skip(start), stream_id).len() == accepted(
                before.offered.skip(start),
                stream_id,
            ).len() + n
            &&& accepted(after.offered.skip(start), stream_id) + rest_of(after.responses, stream_id)
                == accepted(before.offered.skip(start), stream_id) + rest_of(
                before.responses,
                stream_id,
            )
        },
        call matches Call::Respond { stream_id: id, body } ==> id == stream_id && (
        before.responses.contains_key(stream_id) ==> n < body.len()) ==> {
            &&& accepted(after.offered.skip(start), stream_id).len() == accepted(
                before.offered.skip(start),
                stream_id,
            ).len() + n
            &&& accepted(after.offered.skip(start), stream_id) + rest_of(after.responses, stream_id)
                == accepted(before.offered.skip(start), stream_id) + body
        },
{
    let old_part = before.offered.skip(start);
    let new_part = after.offered.skip(start);
    let id = call.stream();
    if call is Respond || before.responses.contains_key(id) {
        let offer = after.offered.last();
        assert(after.offered.drop_last() =~= before.offered);
        assert(new_part.drop_last() =~= old_part);
        assert(new_part.last() == offer);
        assert forall|j: int|
            0 <= j < old_part.len() && (#[trigger] old_part[j]).stream_id == stream_id implies !(
        old_part[j].outcome is Failed) by {
            assert(new_part[j] == old_part[j]);
        }
        assert(accepted(old_part, stream_id) + Seq::<u8>::empty() =~= accepted(old_part, stream_id));
        let m = taken(offer.outcome) as int;
        let bytes = offer.bytes;
        assert(bytes.take(m) + bytes.skip(m) =~= bytes);
        if id == stream_id {
            assert(new_part[new_part.len() - 1] == offer);
            assert(!(offer.outcome is Failed));
            let rest = rest_of(after.responses, stream_id);
            if call is HandleWritable {
                let r = before.responses[id];
                vstd::std_specs::vec::axiom_spec_len(&r.body);
                assert(rest =~= bytes.skip(m));
            } else if before.responses.contains_key(stream_id) ==> n < bytes.len() {
                assert(rest =~= bytes.skip(m));
            }
            assert(rest == bytes.skip(m) ==> accepted(new_part, stream_id) + rest =~= accepted(
                old_part,
                stream_id,
            ) + bytes);
        }
    }
}

/// However the calls on several streams follow each other, a stream is sent the body
/// of its response in order: what it has taken is the front of the body, as long as
/// what the calls on it have returned, with no byte skipped or repeated. The response
/// is kept exactly until all of it is taken; after that further calls return zero and
/// send nothing. This holds of a response none of whose writes fails and that no
/// other one follows on its stream; one that follows a kept response must not be
/// taken at once.
pub proof fn law_body_is_sent_in_order(
    states: Seq<ClientView>,
    calls: Seq<Call>,
    counts: Seq<usize>,
    stream_id: u64,
    body: Seq<u8>,
)
    requires
        is_run(states, calls, counts),
        states[0].wf(),
        calls.len() > 0,
        calls[0] == (Call::Respond { stream_id, body }),
        forall|i: int|
            1 <= i < calls.len() && (#[trigger] calls[i]).stream() == stream_id
                ==> calls[i] is HandleWritable,
        states[0].responses.contains_key(stream_id) ==> counts[0] < body.len(),
        none_failed(states.last().offered.skip(states[0].offered.len() as int), stream_id),
    ensures
        states[0].offered.is_prefix_of(states.last().offered),
        states.last().wf(),
        0 <= returned(calls, counts, stream_id) <= body.len(),
        accepted(states.last().offered.skip(states[0].offered.len() as int), stream_id)
            == body.take(returned(calls, counts, stream_id)),
        states.last().responses.contains_key(stream_id) <==> returned(calls, counts, stream_id)
            < body.len(),
        rest_of(states.last().responses, stream_id) == body.skip(
            returned(calls, counts, stream_id),
        ),
        forall|i: int|
            1 <= i < calls.len() && (#[trigger] calls[i]).stream() == stream_id
                && !states[i].responses.contains_key(stream_id) ==> counts[i] == 0 && states[i + 1]
                == states[i],
    decreases calls.len(),
{
    let start = states[0].offered.len() as int;
    let last = calls.len() - 1;
    let before = states[last];
    let after = states.last();
    let n = counts.last();
    assert(calls[last].leads(before, after, n));
    assert(states.drop_last().last() == before);
    let front = calls.drop_last();
    assert forall|i: int| 0 <= i < front.len() implies (#[trigger] front[i]).leads(
        states.drop_last()[i],
        states.drop_last()[i + 1],
        counts.drop_last()[i],
    ) by {
        assert(front[i] == calls[i]);
    }
    assert(is_run(states.drop_last(), front, counts.drop_last()));
    lemma_run_grows(states.drop_last(), front, counts.drop_last());
    lemma_call_wf(calls[last], before, after, n);
    if calls.len() == 1 {
        assert(before.offered.skip(start) =~= Seq::<Offer>::empty());
        lemma_call(calls[last], before, after, n, start, stream_id);
        assert(accepted(before.offered.skip(start), stream_id) + body =~= body);
        assert(returned(front, counts.drop_last(), stream_id) == 0);
    } else {
        lemma_call(calls[last], before, after, n, start, stream_id);
        assert forall|i: int|
            1 <= i < front.len() && (#[trigger] front[i]).stream() == stream_id implies front[i]
            is HandleWritable by {
            assert(front[i] == calls[i]);
        }
        law_body_is_sent_in_order(states.drop_last(), front, counts.drop_last(), stream_id, body);
        assert(states[0].offered =~= before.offered.take(start));
        assert(before.offered == after.offered.take(before.offered.len() as int));
        assert(after.offered.take(before.offered.len() as int).take(start)
            =~= after.offered.take(start));
        assert forall|i: int|
            1 <= i < calls.len() && (#[trigger] calls[i]).stream() == stream_id
                && !states[i].responses.contains_key(stream_id) implies counts[i] == 0 && states[i + 1]
            == states[i] by {
            if i < last {
                assert(front[i] == calls[i]);
            } else {
                assert(calls[i] == (Call::HandleWritable { stream_id }));
            }
        }
        let t = returned(front, counts.drop_last(), stream_id);
        assert(body.take(t) + body.skip(t) =~= body);
        if calls[last].stream() == stream_id {
            assert(calls[last] == (Call::HandleWritable { stream_id }));
        }
    }
    let got = accepted(after.offered.skip(start), stream_id);
    let rest = rest_of(after.responses, stream_id);
    let t = returned(calls, counts, stream_id);
    assert(got + rest == body);
    assert(got.len() == t);
    assert(got =~= (got + rest).take(t));
    assert(rest =~= (got + rest).skip(t));
}

/// The writes of a run only grow, and the responses stay well-formed.
proof fn lemma_run_grows(states: Seq<ClientView>, calls: Seq<Call>, counts: Seq<usize>)
    requires
        is_run(states, calls, counts),
        states[0].wf(),
    ensures
        states.last().wf(),
        states[0].offered.len() <= states.last().offered.len(),
    decreases calls.len(),
{
    if calls.len() > 0 {
        let last = calls.len() - 1;
        let front = calls.drop_last();
        assert forall|i: int| 0 <= i < front.len() implies (#[trigger] front[i]).leads(
            states.drop_last()[i],
            states.drop_last()[i + 1],
            counts.drop_last()[i],
        ) by {
            assert(front[i] == calls[i]);
        }
        lemma_run_grows(states.drop_last(), front, counts.drop_last());
        let before = states[last];
        assert(states.drop_last().last() == before);
        assert(calls[last].leads(before, states.last(), counts.last()));
        lemma_call_wf(calls[last], before, states.last(), counts.last());
    }
}

/// Starting a response makes one write and no other: the whole body, to its stream,
/// with the end of the stream after it. The earlier writes stay, and so does what a
/// burst may hold.
pub proof fn law_start_writes_whole_body(
    before: ClientView,
    after: ClientView,
    stream_id: u64,
    body: Seq<u8>,
    n: usize,
)
    requires
        starts_response(before, after, stream_id, body, n),
    ensures
        after.offered.len() == before.offered.len() + 1,
        after.offered.drop_last() == before.offered,
        after.offered.last().stream_id == stream_id,
        after.offered.last().bytes == body,
        after.offered.last().fin,
        after.offered.last().outcome matches SendOutcome::Written(k) ==> n == k && k <= body.len()
            && (k == 0 ==> body.len() == 0),
        !(after.offered.last().outcome is Written) ==> n == 0,
        after.max_send_burst == before.max_send_burst,
        forall|other: u64|
            other != stream_id ==> rest_of(after.responses, other) == #[trigger] rest_of(
                before.responses,
                other,
            ),
{
    assert(after.offered.drop_last() =~= before.offered);
}

/// Going on with a response makes one write and no other: all that is left of it, to
/// its stream, with the end of the stream after it. Where none is kept, none is made.
pub proof fn law_going_on_writes_the_rest(
    before: ClientView,
    after: ClientView,
    stream_id: u64,
    n: usize,
)
    requires
        continues_response(before, after, stream_id, n),
    ensures
        !before.responses.contains_key(stream_id) ==> after == before && n == 0,
        before.responses.contains_key(stream_id) ==> {
            let kept = before.responses[stream_id];
            &&& after.offered.len() == before.offered.len() + 1
            &&& after.offered.drop_last() == before.offered
            &&& after.offered.last().stream_id == stream_id
            &&& after.offered.last().bytes == kept.body@.skip(kept.written as int)
            &&& after.offered.last().fin
            &&& after.offered.last().outcome matches SendOutcome::Written(k) ==> n == k && k
                <= after.offered.last().bytes.len()
            &&& !(after.offered.last().outcome is Written) ==> n == 0
        },
        after.max_send_burst == before.max_send_burst,
        forall|other: u64|
            other != stream_id ==> rest_of(after.responses, other) == #[trigger] rest_of(
                before.responses,
                other,
            ),
{
    if before.responses.contains_key(stream_id) {
        assert(after.offered.drop_last() =~= before.offered);
    }
}

/// Every write to the stream of a response offers all that is left of the body, from
/// the byte after the last one taken, with the end of the stream after it. So once all
/// of the body is taken, the stream was ended by the write that took its last byte.
/// This holds of the responses of which `law_body_is_sent_in_order` speaks.
pub proof fn law_response_ends_its_stream(
    states: Seq<ClientView>,
    calls: Seq<Call>,
    counts: Seq<usize>,
    stream_id: u64,
    body: Seq<u8>,
)
    requires
        is_run(states, calls, counts),
        states[0].wf(),
        calls.len() > 0,
        calls[0] == (Call::Respond { stream_id, body }),
        forall|i: int|
            1 <= i < calls.len() && (#[trigger] calls[i]).stream() == stream_id
                ==> calls[i] is HandleWritable,
        states[0].responses.contains_key(stream_id) ==> counts[0] < body.len(),
        none_failed(states.last().offered.skip(states[0].offered.len() as int), stream_id),
    ensures
        ({
            let sent = states.last().offered.skip(states[0].offered.len() as int);
            &&& forall|j: int|
                0 <= j < sent.len() && (#[trigger] sent[j]).stream_id == stream_id ==> sent[j].fin
                    && sent[j].bytes == body.skip(accepted(sent.take(j), stream_id).len() as int)
            &&& returned(calls, counts, stream_id) == body.len() ==> exists|j: int|
                0 <= j < sent.len() && (#[trigger] sent[j]).stream_id == stream_id && sent[j].fin
                    && taken(sent[j].outcome) == sent[j].bytes.len()
        }),
    decreases calls.len(),
{
    let start = states[0].offered.len() as int;
    let last = calls.len() - 1;
    let call = calls[last];
    let before = states[last];
    let after = states.last();
    let n = counts.last();
    let front = calls.drop_last();
    assert(call.leads(before, after, n));
    assert(states.drop_last().last() == before);
    assert forall|i: int| 0 <= i < front.len() implies (#[trigger] front[i]).leads(
        states.drop_last()[i],
        states.drop_last()[i + 1],
        counts.drop_last()[i],
    ) by {
        assert(front[i] == calls[i]);
    }
    assert(is_run(states.drop_last(), front, counts.drop_last()));
    lemma_run_grows(states.drop_last(), front, counts.drop_last());
    let part = before.offered.skip(start);
    let sent = after.offered.skip(start);
    lemma_call(call, before, after, n, start, stream_id);
    if calls.len() == 1 {
        assert(part =~= Seq::<Offer>::empty());
        assert(returned(front, counts.drop_last(), stream_id) == 0);
        assert(body.skip(0) =~= body);
    } else {
        assert forall|i: int|
            1 <= i < front.len() && (#[trigger] front[i]).stream() == stream_id implies front[i]
            is HandleWritable by {
            assert(front[i] == calls[i]);
        }
        law_response_ends_its_stream(states.drop_last(), front, counts.drop_last(), stream_id, body);
        law_body_is_sent_in_order(states.drop_last(), front, counts.drop_last(), stream_id, body);
        if call.stream() == stream_id {
            assert(call == (Call::HandleWritable { stream_id }));
        }
    }
    if call is Respond || before.responses.contains_key(call.stream()) {
        assert(sent =~= part.push(after.offered.last()));
        assert forall|j: int|
            0 <= j < sent.len() && (#[trigger] sent[j]).stream_id == stream_id implies sent[j].fin
            && sent[j].bytes == body.skip(accepted(sent.take(j), stream_id).len() as int) by {
            if j < part.len() {
                assert(sent[j] == part[j]);
                assert(sent.take(j) =~= part.take(j));
            } else {
                assert(sent.take(j) =~= part);
            }
        }
    } else {
        assert(sent =~= part);
    }
    if returned(calls, counts, stream_id) == body.len() {
        let t = returned(front, counts.drop_last(), stream_id);
        if calls.len() > 1 && t == body.len() {
            let j = choose|j: int|
                0 <= j < part.len() && (#[trigger] part[j]).stream_id == stream_id && part[j].fin
                    && taken(part[j].outcome) == part[j].bytes.len();
            assert(sent[j] == part[j]);
        } else {
            assert(call.stream() == stream_id);
            assert(sent[part.len() as int] == after.offered.last());
        }
    }
}

} // verus!
