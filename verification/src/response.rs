//! Responses on their way to the peer: what a stream could not take at once is
//! kept and sent on as the stream becomes writable.

use std::collections::HashMap;
use vstd::prelude::*;
use vstd::slice::slice_subrange;
use vstd::string::*;
use vstd::utf8::encode_utf8;

verus! {

broadcast use vstd::std_specs::hash::group_hash_axioms;

/// A response and how much of it the stream has taken.
#[derive(Debug)]
pub struct PartialResponse {
    pub body: Vec<u8>,
    pub written: usize,
}

/// What became of a write to a stream.
#[derive(Clone, Copy, Debug, PartialEq, Eq, Structural)]
pub enum SendOutcome {
    /// The stream took this many bytes.
    Written(usize),
    /// The stream has no room now.
    Blocked,
    /// The stream is of no further use.
    Failed,
}

/// The responses that are not sent completely, by stream.
pub struct ResponseQueue {
    pub entries: HashMap<u64, PartialResponse>,
}

impl PartialResponse {
    /// The bytes that are still to be sent.
    pub open spec fn rest(self) -> Seq<u8> {
        self.body@.skip(self.written as int)
    }

    /// Something is still to be sent.
    pub open spec fn open(self) -> bool {
        self.written < self.body@.len()
    }
}

/// The bytes of a stream that are still to be sent.
pub open spec fn rest_of(entries: Map<u64, PartialResponse>, stream_id: u64) -> Seq<u8> {
    if entries.contains_key(stream_id) {
        entries[stream_id].rest()
    } else {
        Seq::empty()
    }
}

/// The number of bytes that an outcome accounts for.
pub open spec fn taken(outcome: SendOutcome) -> usize {
    match outcome {
        SendOutcome::Written(n) => n,
        SendOutcome::Blocked => 0,
        SendOutcome::Failed => 0,
    }
}

/// The responses after the first write of `body` to a stream.
pub open spec fn after_first_send(
    entries: Map<u64, PartialResponse>,
    stream_id: u64,
    body: Vec<u8>,
    outcome: SendOutcome,
) -> Map<u64, PartialResponse> {
    if outcome is Failed || taken(outcome) >= body@.len() {
        entries
    } else {
        entries.insert(stream_id, PartialResponse { body, written: taken(outcome) })
    }
}

/// The responses after a further write of the rest of a stream's response.
pub open spec fn after_send(
    entries: Map<u64, PartialResponse>,
    stream_id: u64,
    outcome: SendOutcome,
) -> Map<u64, PartialResponse> {
    if !entries.contains_key(stream_id) {
        entries
    } else if outcome is Failed || taken(outcome) >= entries[stream_id].rest().len() {
        entries.remove(stream_id)
    } else {
        let r = entries[stream_id];
        entries.insert(
            stream_id,
            PartialResponse { body: r.body, written: (r.written + taken(outcome)) as usize },
        )
    }
}

/// The body to send for a file that was read, or for one that could not be.
pub open spec fn body_spec(file: Option<Seq<u8>>) -> Seq<u8> {
    match file {
        Some(content) => content,
        None => encode_utf8("Not Found!\r\n"@),
    }
}

/// The body to send for a file that was read, or for one that could not be.
pub fn response_body(file: Option<Vec<u8>>) -> (body: Vec<u8>)
    ensures
        body@ == body_spec(
            match file {
                Some(content) => Some(content@),
                None => None,
            },
        ),
        file matches Some(content) ==> body@ == content@,
        file is None ==> body@ == encode_utf8("Not Found!\r\n"@),
{
    match file {
        Some(content) => content,
        None => "Not Found!\r\n".as_bytes_vec(),
    }
}

impl ResponseQueue {
    /// The responses by stream.
    pub open spec fn view(&self) -> Map<u64, PartialResponse> {
        self.entries@
    }

    /// Every response that is kept has something left to send.
    pub open spec fn wf(&self) -> bool {
        forall|id: u64| #[trigger] self@.contains_key(id) ==> self@[id].open()
    }

    /// A queue without responses.
    pub fn new() -> (q: ResponseQueue)
        ensures
            q.wf(),
            q@ == Map::<u64, PartialResponse>::empty(),
    {
        ResponseQueue { entries: HashMap::new() }
    }

    /// Takes note of the first write of a response: what the stream did not take
    /// is kept, unless the write failed. Returns the number of bytes taken.
    pub fn record_first_send(&mut self, stream_id: u64, body: Vec<u8>, outcome: SendOutcome) -> (n:
        usize)
        requires
            old(self).wf(),
        ensures
            final(self).wf(),
            final(self)@ == after_first_send(old(self)@, stream_id, body, outcome),
            n == taken(outcome),
            outcome matches SendOutcome::Written(k) ==> n == k,
            !(outcome is Written) ==> n == 0,
    {
        let written: usize = match outcome {
            SendOutcome::Written(n) => n,
            SendOutcome::Blocked => 0,
            SendOutcome::Failed => {
                return 0;
            },
        };
        if written < body.len() {
            self.entries.insert(stream_id, PartialResponse { body, written });
            assert forall|id: u64| #[trigger] self@.contains_key(id) implies self@[id].open() by {
                if id != stream_id {
                    assert(old(self)@.contains_key(id));
                }
            }
        }
        written
    }

    /// The bytes to write to a stream next, if a response is kept for it.
    pub fn pending(&self, stream_id: u64) -> (chunk: Option<&[u8]>)
        requires
            self.wf(),
        ensures
            match chunk {
                Some(bytes) => {
                    &&& self@.contains_key(stream_id)
                    &&& bytes@ == self@[stream_id].rest()
                    &&& bytes@ == self@[stream_id].body@.subrange(
                        self@[stream_id].written as int,
                        self@[stream_id].body@.len() as int,
                    )
                    &&& bytes@.len() > 0
                },
                None => !self@.contains_key(stream_id),
            },
    {
        match self.entries.get(&stream_id) {
            Some(r) => {
                assert(self@.contains_key(stream_id));
                Some(slice_subrange(r.body.as_slice(), r.written, r.body.len()))
            },
            None => None,
        }
    }

    /// Takes note of a further write of a kept response. It leaves once all of
    /// it is written or the write failed. Returns the number of bytes taken.
    pub fn record_send(&mut self, stream_id: u64, outcome: SendOutcome) -> (n: usize)
        requires
            old(self).wf(),
            old(self)@.contains_key(stream_id) ==> taken(outcome)
                <= old(self)@[stream_id].rest().len(),
        ensures
            final(self).wf(),
            final(self)@ == after_send(old(self)@, stream_id, outcome),
            n == if old(self)@.contains_key(stream_id) {
                taken(outcome)
            } else {
                0
            },
    {
        match self.entries.remove(&stream_id) {
            Some(r) => {
                let written: usize = match outcome {
                    SendOutcome::Written(n) => n,
                    SendOutcome::Blocked => 0,
                    SendOutcome::Failed => {
                        return 0;
                    },
                };
                assert(old(self)@.contains_key(stream_id) && r == old(self)@[stream_id]);
                let len: usize = r.body.len();
                let total: usize = r.written + written;
                if total < len {
                    self.entries.insert(stream_id, PartialResponse { body: r.body, written: total });
                }
                assert(self@ =~= after_send(old(self)@, stream_id, outcome));
                assert forall|id: u64| #[trigger]
                    self@.contains_key(id) implies self@[id].open() by {
                    if id != stream_id {
                        assert(old(self)@.contains_key(id));
                    }
                }
                written
            },
            None => {
                assert(self@ =~= old(self)@);
                0
            },
        }
    }
}

/// A count of each response, added up.
pub open spec fn total(
    entries: Map<u64, PartialResponse>,
    count: spec_fn(PartialResponse) -> nat,
) -> nat
    decreases entries.dom().len(),
    when entries.dom().finite()
{
    if entries.dom().len() == 0 {
        0
    } else {
        let id = entries.dom().choose();
        count(entries[id]) + total(entries.remove(id), count)
    }
}

/// The order in which responses are added up does not matter: any of them can be
/// counted first.
proof fn lemma_total_remove(
    entries: Map<u64, PartialResponse>,
    count: spec_fn(PartialResponse) -> nat,
    id: u64,
)
    requires
        entries.dom().finite(),
        entries.contains_key(id),
    ensures
        total(entries, count) == count(entries[id]) + total(entries.remove(id), count),
    decreases entries.dom().len(),
{
    let first = entries.dom().choose();
    assert(entries.dom().contains(id));
    assert(entries.dom().len() > 0);
    if first != id {
        let less = entries.remove(first);
        assert(entries.remove(first).remove(id) =~= entries.remove(id).remove(first));
        lemma_total_remove(less, count, id);
        lemma_total_remove(entries.remove(id), count, first);
    }
}

/// The bytes of a response that were written.
pub open spec fn written_count() -> spec_fn(PartialResponse) -> nat {
    |r: PartialResponse| r.written as nat
}

/// The bytes of a response that are still to be written.
pub open spec fn pending_count() -> spec_fn(PartialResponse) -> nat {
    |r: PartialResponse| r.rest().len()
}

impl ResponseQueue {
    /// The bytes written, and the bytes still to be written, of all the responses
    /// that are kept. There is no answer where a machine word cannot hold one of
    /// the two counts.
    pub fn totals(&self) -> (sums: Option<(usize, usize)>)
        requires
            self.wf(),
        ensures
            match sums {
                Some((written, pending)) => {
                    &&& written == total(self@, written_count())
                    &&& pending == total(self@, pending_count())
                },
                None => {
                    ||| total(self@, written_count()) > usize::MAX
                    ||| total(self@, pending_count()) > usize::MAX
                },
            },
    {
        let mut written: usize = 0;
        let mut pending: usize = 0;
        let ghost mut left: Map<u64, PartialResponse> = self@;
        let ghost w = written_count();
        let ghost p = pending_count();
        for pair in it: self.entries.iter()
            invariant
                self.wf(),
                w == written_count(),
                p == pending_count(),
                it.seq().no_duplicates(),
                left.dom().finite(),
                written + total(left, w) == total(self@, w),
                pending + total(left, p) == total(self@, p),
                forall|id: u64| #[trigger]
                    left.contains_key(id) <==> self@.contains_key(id) && forall|j: int|
                        0 <= j < it.index() ==> *(#[trigger] it.seq()[j]).0 != id,
                forall|id: u64| #[trigger] left.contains_key(id) ==> left[id] == self@[id],
        {
            let r: &PartialResponse = pair.1;
            proof {
                let id = *pair.0;
                let i = it.index() as int;
                assert(it.seq()[i] == pair);
                assert(self@.contains_key(id));
                assert forall|j: int| 0 <= j < i implies *(#[trigger] it.seq()[j]).0 != id by {
                    assert(self@[*it.seq()[j].0] == *it.seq()[j].1);
                    assert(self@[*it.seq()[i].0] == *it.seq()[i].1);
                    if *it.seq()[j].0 == id {
                        assert(it.seq()[j] == it.seq()[i]);
                    }
                }
                assert(left.contains_key(id));
                lemma_total_remove(left, w, id);
                lemma_total_remove(left, p, id);
                left = left.remove(id);
            }
            match (written.checked_add(r.written), pending.checked_add(r.body.len() - r.written)) {
                (Some(a), Some(b)) => {
                    written = a;
                    pending = b;
                },
                _ => {
                    return None;
                },
            }
        }
        proof {
            assert(left.dom() =~= Set::empty());
        }
        Some((written, pending))
    }
}

/// The responses after a series of further writes to one stream with these outcomes.
pub open spec fn after_sends(
    entries: Map<u64, PartialResponse>,
    stream_id: u64,
    outcomes: Seq<SendOutcome>,
) -> Map<u64, PartialResponse>
    decreases outcomes.len(),
{
    if outcomes.len() == 0 {
        entries
    } else {
        after_send(
            after_sends(entries, stream_id, outcomes.drop_last()),
            stream_id,
            outcomes.last(),
        )
    }
}

/// The bytes that a stream takes over a series of writes, each of which offers
/// what is left at the time.
pub open spec fn bytes_taken(
    entries: Map<u64, PartialResponse>,
    stream_id: u64,
    outcomes: Seq<SendOutcome>,
) -> Seq<u8>
    decreases outcomes.len(),
{
    if outcomes.len() == 0 {
        Seq::empty()
    } else {
        bytes_taken(entries, stream_id, outcomes.drop_last()) + rest_of(
            after_sends(entries, stream_id, outcomes.drop_last()),
            stream_id,
        ).take(taken(outcomes.last()) as int)
    }
}

/// No write of the series fails or takes more than it is offered.
pub open spec fn outcomes_fit(
    entries: Map<u64, PartialResponse>,
    stream_id: u64,
    outcomes: Seq<SendOutcome>,
) -> bool
    decreases outcomes.len(),
{
    outcomes.len() > 0 ==> {
        &&& outcomes_fit(entries, stream_id, outcomes.drop_last())
        &&& !(outcomes.last() is Failed)
        &&& taken(outcomes.last()) <= rest_of(
            after_sends(entries, stream_id, outcomes.drop_last()),
            stream_id,
        ).len()
    }
}

/// However a stream takes a response in pieces, with writes in between that it has
/// no room for, the pieces and what is left of it are together exactly what was left
/// before: no byte is lost, repeated or reordered. Other streams are not touched.
pub proof fn law_responses_arrive_in_order(
    entries: Map<u64, PartialResponse>,
    stream_id: u64,
    outcomes: Seq<SendOutcome>,
)
    requires
        forall|id: u64| #[trigger] entries.contains_key(id) ==> entries[id].open(),
        outcomes_fit(entries, stream_id, outcomes),
    ensures
        bytes_taken(entries, stream_id, outcomes) + rest_of(
            after_sends(entries, stream_id, outcomes),
            stream_id,
        ) == rest_of(entries, stream_id),
        forall|id: u64| #[trigger]
            after_sends(entries, stream_id, outcomes).contains_key(id) ==> after_sends(
                entries,
                stream_id,
                outcomes,
            )[id].open(),
        after_sends(entries, stream_id, outcomes).remove(stream_id) == entries.remove(stream_id),
    decreases outcomes.len(),
{
    if outcomes.len() == 0 {
        assert(bytes_taken(entries, stream_id, outcomes) + rest_of(entries, stream_id) =~= rest_of(
            entries,
            stream_id,
        ));
    } else {
        let front = outcomes.drop_last();
        law_responses_arrive_in_order(entries, stream_id, front);
        let before = after_sends(entries, stream_id, front);
        let after = after_sends(entries, stream_id, outcomes);
        let n = taken(outcomes.last()) as int;
        let rest = rest_of(before, stream_id);
        if before.contains_key(stream_id) {
            let r = before[stream_id];
            assert(r.open());
            assert(r.body@.len() <= usize::MAX) by {
                vstd::std_specs::vec::axiom_spec_len(&r.body);
            }
            assert(rest_of(after, stream_id) =~= rest.skip(n));
        } else {
            assert(rest_of(after, stream_id) =~= rest.skip(n));
        }
        assert(rest.take(n) + rest.skip(n) =~= rest);
        assert(bytes_taken(entries, stream_id, outcomes) + rest_of(after, stream_id) =~= bytes_taken(
            entries,
            stream_id,
            front,
        ) + rest);
        assert(after.remove(stream_id) =~= before.remove(stream_id));
        assert forall|id: u64| #[trigger] after.contains_key(id) implies after[id].open() by {
            if id != stream_id {
                assert(before.contains_key(id));
            }
        }
    }
}

/// What a stream takes of a response at once, and what is kept of it, are together
/// the whole response. A response that is taken at once must not follow, on its
/// stream, another one that is still kept.
pub proof fn law_first_write_splits_response(
    entries: Map<u64, PartialResponse>,
    stream_id: u64,
    body: Vec<u8>,
    outcome: SendOutcome,
)
    requires
        !(outcome is Failed),
        taken(outcome) <= body@.len(),
        entries.contains_key(stream_id) ==> taken(outcome) < body@.len(),
    ensures
        body@.take(taken(outcome) as int) + rest_of(
            after_first_send(entries, stream_id, body, outcome),
            stream_id,
        ) == body@,
        after_first_send(entries, stream_id, body, outcome).remove(stream_id) == entries.remove(
            stream_id,
        ),
{
    let after = after_first_send(entries, stream_id, body, outcome);
    assert(body@.take(taken(outcome) as int) + rest_of(after, stream_id) =~= body@);
    assert(after.remove(stream_id) =~= entries.remove(stream_id));
}

/// The body of a response is the file, byte for byte, however long it is, and the
/// notice where there is no file.
pub proof fn law_body_is_the_file(content: Seq<u8>)
    ensures
        body_spec(Some(content)) == content,
        body_spec(None) == encode_utf8("Not Found!\r\n"@),
{
}

/// An outcome accounts for the bytes that were taken, and for none where the stream had
/// no room or failed.
pub proof fn law_taken(n: usize)
    ensures
        taken(SendOutcome::Written(n)) == n,
        taken(SendOutcome::Blocked) == 0,
        taken(SendOutcome::Failed) == 0,
{
}

/// What is left of a response is its body without as many bytes in front as were
/// written; where none is kept, nothing is left.
pub proof fn law_rest(entries: Map<u64, PartialResponse>, stream_id: u64)
    ensures
        !entries.contains_key(stream_id) ==> rest_of(entries, stream_id) == Seq::<u8>::empty(),
        entries.contains_key(stream_id) && entries[stream_id].written
            <= entries[stream_id].body@.len() ==> entries[stream_id].body@.take(
            entries[stream_id].written as int,
        ) + rest_of(entries, stream_id) == entries[stream_id].body@,
{
    if entries.contains_key(stream_id) && entries[stream_id].written
        <= entries[stream_id].body@.len() {
        let r = entries[stream_id];
        assert(r.body@.take(r.written as int) + r.rest() =~= r.body@);
    }
}

/// A first write that fails keeps nothing, and nothing changes; one that does not fail
/// keeps the response exactly where the stream did not take all of it, whole and with
/// the count of what was taken.
pub proof fn law_first_write(
    entries: Map<u64, PartialResponse>,
    stream_id: u64,
    body: Vec<u8>,
    outcome: SendOutcome,
    other: u64,
)
    ensures
        ({
            let after = after_first_send(entries, stream_id, body, outcome);
            &&& outcome is Failed ==> after == entries
            &&& outcome matches SendOutcome::Written(n) ==> n >= body@.len() ==> after == entries
            &&& outcome matches SendOutcome::Written(n) ==> n < body@.len() ==> after.contains_key(
                stream_id,
            ) && after[stream_id] == (PartialResponse { body, written: n })
            &&& outcome is Blocked && body@.len() > 0 ==> after.contains_key(stream_id)
                && after[stream_id] == (PartialResponse { body, written: 0 })
            &&& outcome is Blocked && body@.len() == 0 ==> after == entries
            &&& other != stream_id ==> (after.contains_key(other) <==> entries.contains_key(other))
            &&& other != stream_id && entries.contains_key(other) ==> after[other]
                == entries[other]
        }),
{
}

/// A further write of a kept response forgets it exactly where all that was left is
/// taken or the write fails; otherwise its count grows by what was taken. Where no
/// response is kept nothing changes, and other streams are never touched.
pub proof fn law_further_write(
    entries: Map<u64, PartialResponse>,
    stream_id: u64,
    outcome: SendOutcome,
    n: usize,
    other: u64,
)
    requires
        outcome matches SendOutcome::Written(k) ==> k == n,
        !(outcome is Written) ==> n == 0,
        entries.contains_key(stream_id) ==> entries[stream_id].open()
            && entries[stream_id].written + n <= entries[stream_id].body@.len(),
    ensures
        ({
            let after = after_send(entries, stream_id, outcome);
            let r = entries[stream_id];
            &&& !entries.contains_key(stream_id) ==> after == entries
            &&& entries.contains_key(stream_id) ==> (after.contains_key(stream_id) <==> !(outcome
                is Failed) && r.written + n < r.body@.len())
            &&& after.contains_key(stream_id) ==> after[stream_id].body == r.body
                && after[stream_id].written == r.written + n
            &&& other != stream_id ==> (after.contains_key(other) <==> entries.contains_key(other))
            &&& other != stream_id && entries.contains_key(other) ==> after[other]
                == entries[other]
        }),
{
    if entries.contains_key(stream_id) {
        vstd::std_specs::vec::axiom_spec_len(&entries[stream_id].body);
    }
}

/// The totals of the queue grow, with each response, by the bytes of it that were
/// written and by those that are still to be written.
pub proof fn law_totals_add_up(entries: Map<u64, PartialResponse>, id: u64)
    requires
        entries.dom().finite(),
        entries.contains_key(id),
        entries[id].written <= entries[id].body@.len(),
    ensures
        total(Map::empty(), written_count()) == 0,
        total(Map::empty(), pending_count()) == 0,
        total(entries, written_count()) == total(entries.remove(id), written_count())
            + entries[id].written,
        total(entries, pending_count()) == total(entries.remove(id), pending_count())
            + entries[id].body@.len() - entries[id].written,
{
    lemma_total_remove(entries, written_count(), id);
    lemma_total_remove(entries, pending_count(), id);
    assert(Map::<u64, PartialResponse>::empty().dom() =~= Set::empty());
}

} // verus!
