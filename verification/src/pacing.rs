//! How much the server sends at a time.

use vstd::prelude::*;

verus! {

/// The size of the buffer that a burst is measured against.
pub const MAX_BUF_SIZE: usize = 65507;

/// A burst is never cut below this many datagrams.
pub const MIN_BURST_DATAGRAMS: usize = 10;

/// The burst that a new connection may send: three quarters of the buffer.
pub fn initial_burst() -> (burst: usize)
    ensures
        burst == MAX_BUF_SIZE * 75 / 100,
        burst == 49130,
{
    MAX_BUF_SIZE * 75 / 100
}

/// A burst after losses have grown: a quarter less, but no fewer than ten
/// datagrams.
pub open spec fn reduced_burst_spec(burst: int, datagram: int) -> int {
    let cut = burst / 4 * 3;
    let floor = datagram * MIN_BURST_DATAGRAMS;
    if cut < floor {
        floor
    } else {
        cut
    }
}

/// Cuts a burst after losses have grown.
pub fn reduced_burst(burst: usize, datagram: usize) -> (cut: usize)
    requires
        datagram * MIN_BURST_DATAGRAMS <= usize::MAX,
    ensures
        cut == reduced_burst_spec(burst as int, datagram as int),
{
    let cut: usize = burst / 4 * 3;
    let floor: usize = datagram * MIN_BURST_DATAGRAMS;
    if cut < floor {
        floor
    } else {
        cut
    }
}

/// Cutting leaves at least ten datagrams, and never enlarges a burst that was at
/// least that large.
pub proof fn law_reduced_burst_bounds(burst: int, datagram: int)
    requires
        0 <= burst,
        0 <= datagram,
    ensures
        reduced_burst_spec(burst, datagram) >= datagram * MIN_BURST_DATAGRAMS,
        burst >= datagram * MIN_BURST_DATAGRAMS ==> reduced_burst_spec(burst, datagram) <= burst,
{
}

/// The bytes that may be sent now: what the congestion controller and the burst
/// allow, in whole datagrams.
pub open spec fn budget_spec(quantum: int, burst: int, datagram: int) -> int {
    (if quantum < burst {
        quantum
    } else {
        burst
    }) / datagram * datagram
}

/// The bytes that may be sent now.
pub fn send_budget(quantum: usize, burst: usize, datagram: usize) -> (budget: usize)
    requires
        datagram > 0,
    ensures
        budget == budget_spec(quantum as int, burst as int, datagram as int),
{
    let least: usize = if quantum < burst {
        quantum
    } else {
        burst
    };
    proof {
        lemma_whole_datagrams(least as int, datagram as int);
    }
    least / datagram * datagram
}

proof fn lemma_whole_datagrams(x: int, datagram: int)
    requires
        0 <= x,
        0 < datagram,
    ensures
        0 <= x / datagram * datagram <= x,
        x - datagram < x / datagram * datagram,
        (x / datagram * datagram) % datagram == 0,
{
    vstd::arithmetic::div_mod::lemma_fundamental_div_mod(x, datagram);
    vstd::arithmetic::div_mod::lemma_mod_bound(x, datagram);
    vstd::arithmetic::div_mod::lemma_div_pos_is_pos(x, datagram);
    vstd::arithmetic::mul::lemma_mul_is_commutative(x / datagram, datagram);
    vstd::arithmetic::mul::lemma_mul_nonnegative(datagram, x / datagram);
    vstd::arithmetic::div_mod::lemma_mod_multiples_basic(x / datagram, datagram);
}

/// What may be sent is a whole number of datagrams, stays within both limits, and
/// wastes less than one datagram of the tighter one.
pub proof fn law_budget_is_tight(quantum: int, burst: int, datagram: int)
    requires
        0 <= quantum,
        0 <= burst,
        0 < datagram,
    ensures
        budget_spec(quantum, burst, datagram) % datagram == 0,
        0 <= budget_spec(quantum, burst, datagram) <= quantum,
        budget_spec(quantum, burst, datagram) <= burst,
        budget_spec(quantum, burst, datagram) + datagram > quantum || budget_spec(
            quantum,
            burst,
            datagram,
        ) + datagram > burst,
{
    lemma_whole_datagrams(
        if quantum < burst {
            quantum
        } else {
            burst
        },
        datagram,
    );
}

/// Prepares a burst: cuts what a burst may hold where losses have grown, and starts
/// one within what the congestion controller allows. Returns what a burst may hold
/// from now on, and the burst.
pub fn plan_burst(burst: usize, losses_grew: bool, quantum: usize, datagram: usize) -> (plan: (
    usize,
    SendRound,
))
    requires
        datagram > 0,
        losses_grew ==> datagram * MIN_BURST_DATAGRAMS <= usize::MAX,
    ensures
        plan.0 == if losses_grew {
            reduced_burst_spec(burst as int, datagram as int)
        } else {
            burst as int
        },
        plan.1.budget == budget_spec(quantum as int, plan.0 as int, datagram as int),
        plan.1.total == 0,
        !plan.1.continue_write,
{
    let burst: usize = if losses_grew {
        reduced_burst(burst, datagram)
    } else {
        burst
    };
    (burst, SendRound::new(send_budget(quantum, burst, datagram)))
}

/// How long to wait for datagrams, in nanoseconds: not at all while there is more
/// to send, else for as long as the connection allows, or without end.
pub fn poll_timeout(continue_write: bool, conn_timeout: Option<u128>) -> (timeout: Option<u128>)
    ensures
        timeout == if continue_write {
            Some(0)
        } else {
            conn_timeout
        },
{
    if continue_write {
        Some(0)
    } else {
        conn_timeout
    }
}

/// Whether a wait that brought no datagrams means that a timer of the connection
/// has expired. It does not where the server only looked in between two bursts.
pub fn timer_expired(no_events: bool, continue_write: bool) -> (b: bool)
    ensures
        b == (no_events && !continue_write),
{
    no_events && !continue_write
}

/// A burst in progress.
#[derive(Clone, Copy, Debug, PartialEq, Eq)]
pub struct SendRound {
    /// The bytes that the burst may hold.
    pub budget: usize,
    /// The bytes sent so far.
    pub total: usize,
    /// Whether the burst ended for want of budget rather than of packets.
    pub continue_write: bool,
}

/// What happened to a burst.
#[derive(Clone, Copy, Debug, PartialEq, Eq, Structural)]
pub enum SendEvent {
    /// The scheduler names no path.
    NoPath,
    /// The transport has no packet for the path.
    Done,
    /// The transport cannot make a packet.
    Failed,
    /// The transport made a packet of this size.
    Packet(usize),
    /// The socket took the packet.
    Taken,
    /// The socket has no room for the packet, which is lost.
    WouldBlock,
}

/// What to do next in a burst.
#[derive(Clone, Copy, Debug, PartialEq, Eq, Structural)]
pub enum SendStep {
    /// Ask the scheduler for a path and the transport for a packet.
    NextPacket,
    /// Hand the packet to the socket.
    Transmit,
    /// End the burst.
    Stop,
    /// Close the connection and end the burst.
    CloseAndStop,
}

impl SendRound {
    /// A burst that goes on has not run out of budget.
    pub open spec fn wf(&self) -> bool {
        self.continue_write ==> self.total >= self.budget
    }

    /// Whether budget is left.
    pub open spec fn open(&self) -> bool {
        self.total < self.budget
    }

    /// The step that follows an event.
    pub open spec fn step_spec(&self, event: SendEvent) -> SendStep {
        match event {
            SendEvent::NoPath => SendStep::Stop,
            SendEvent::Done => SendStep::Stop,
            SendEvent::Failed => SendStep::CloseAndStop,
            SendEvent::Packet(_) => SendStep::Transmit,
            SendEvent::Taken | SendEvent::WouldBlock => if self.open() {
                SendStep::NextPacket
            } else {
                SendStep::Stop
            },
        }
    }

    /// The burst after an event.
    pub open spec fn after(&self, event: SendEvent) -> SendRound {
        match event {
            SendEvent::Packet(n) => SendRound { total: (self.total + n) as usize, ..*self },
            SendEvent::Taken => SendRound {
                continue_write: self.continue_write || !self.open(),
                ..*self
            },
            _ => *self,
        }
    }

    /// Starts a burst.
    pub fn new(budget: usize) -> (round: SendRound)
        ensures
            round == (SendRound { budget, total: 0, continue_write: false }),
            round.wf(),
    {
        SendRound { budget, total: 0, continue_write: false }
    }

    /// The first step of a burst.
    pub fn first_step(&self) -> (step: SendStep)
        ensures
            step == if self.open() {
                SendStep::NextPacket
            } else {
                SendStep::Stop
            },
            step is NextPacket <==> self.total < self.budget,
            step is Stop <==> self.total >= self.budget,
    {
        if self.total < self.budget {
            SendStep::NextPacket
        } else {
            SendStep::Stop
        }
    }

    /// Takes note of an event, and says what to do next.
    pub fn on_event(&mut self, event: SendEvent) -> (step: SendStep)
        requires
            old(self).wf(),
            event matches SendEvent::Packet(n) ==> old(self).total + n <= usize::MAX,
        ensures
            final(self).wf(),
            *final(self) == old(self).after(event),
            step == old(self).step_spec(event),
            final(self).budget == old(self).budget,
            event matches SendEvent::Packet(n) ==> final(self).total == old(self).total + n,
            !(event is Packet) ==> final(self).total == old(self).total,
            final(self).continue_write <==> old(self).continue_write || (event is Taken
                && old(self).total >= old(self).budget),
            step is Transmit <==> event is Packet,
            step is CloseAndStop <==> event is Failed,
            step is NextPacket <==> (event is Taken || event is WouldBlock) && old(self).total
                < old(self).budget,
    {
        match event {
            SendEvent::NoPath => SendStep::Stop,
            SendEvent::Done => SendStep::Stop,
            SendEvent::Failed => SendStep::CloseAndStop,
            SendEvent::Packet(n) => {
                self.total = self.total + n;
                SendStep::Transmit
            },
            SendEvent::Taken => {
                if self.total >= self.budget {
                    self.continue_write = true;
                }
                self.first_step()
            },
            SendEvent::WouldBlock => self.first_step(),
        }
    }
}

/// The burst after a series of packets, each with its size and whether the socket
/// took it.
pub open spec fn after_packets(round: SendRound, packets: Seq<(usize, bool)>) -> SendRound
    decreases packets.len(),
{
    if packets.len() == 0 {
        round
    } else {
        let (n, taken) = packets.last();
        after_packets(round, packets.drop_last()).after(SendEvent::Packet(n)).after(
            if taken {
                SendEvent::Taken
            } else {
                SendEvent::WouldBlock
            },
        )
    }
}

/// The burst had budget left before each of the packets, and can count them all.
pub open spec fn packets_allowed(round: SendRound, packets: Seq<(usize, bool)>) -> bool
    decreases packets.len(),
{
    packets.len() > 0 ==> {
        &&& packets_allowed(round, packets.drop_last())
        &&& after_packets(round, packets.drop_last()).open()
        &&& after_packets(round, packets.drop_last()).total + packets.last().0 <= usize::MAX
    }
}

/// The bytes of a series of packets.
pub open spec fn packet_bytes(packets: Seq<(usize, bool)>) -> nat
    decreases packets.len(),
{
    if packets.len() == 0 {
        0
    } else {
        packet_bytes(packets.drop_last()) + packets.last().0 as nat
    }
}

/// A burst counts every packet, goes over its budget by less than its last packet,
/// and is to be continued exactly where the budget is used up and the socket took
/// the last packet.
pub proof fn law_burst_keeps_to_budget(budget: usize, packets: Seq<(usize, bool)>)
    requires
        packets_allowed((SendRound { budget, total: 0, continue_write: false }), packets),
    ensures
        ({
            let end = after_packets(
                (SendRound { budget, total: 0, continue_write: false }),
                packets,
            );
            &&& end.budget == budget
            &&& end.total == packet_bytes(packets)
            &&& packets.len() > 0 ==> end.total < budget + packets.last().0
            &&& end.continue_write == (packets.len() > 0 && packets.last().1 && end.total >= budget)
        }),
    decreases packets.len(),
{
    if packets.len() > 0 {
        law_burst_keeps_to_budget(budget, packets.drop_last());
    }
}

/// A cut burst is the larger of three quarters of the burst, its quarter being rounded
/// down, and ten datagrams.
pub proof fn law_reduced_burst_is_the_larger(quarter: int, rest: int, datagram: int)
    requires
        0 <= quarter,
        0 <= rest < 4,
        0 <= datagram,
    ensures
        reduced_burst_spec(4 * quarter + rest, datagram) >= 3 * quarter,
        reduced_burst_spec(4 * quarter + rest, datagram) >= 10 * datagram,
        reduced_burst_spec(4 * quarter + rest, datagram) == 3 * quarter || reduced_burst_spec(
            4 * quarter + rest,
            datagram,
        ) == 10 * datagram,
{
    assert((4 * quarter + rest) / 4 == quarter);
}

/// What may be sent is the largest whole number of datagrams within both limits.
pub proof fn law_budget_is_the_largest(quantum: int, burst: int, datagram: int, k: int)
    requires
        0 <= quantum,
        0 <= burst,
        0 < datagram,
        0 <= k,
        k * datagram <= quantum,
        k * datagram <= burst,
    ensures
        k * datagram <= budget_spec(quantum, burst, datagram),
        budget_spec(quantum, burst, datagram) <= quantum,
        budget_spec(quantum, burst, datagram) <= burst,
        budget_spec(quantum, burst, datagram) % datagram == 0,
{
    law_budget_is_tight(quantum, burst, datagram);
    let least = if quantum < burst {
        quantum
    } else {
        burst
    };
    vstd::arithmetic::div_mod::lemma_fundamental_div_mod(least, datagram);
    vstd::arithmetic::div_mod::lemma_mod_bound(least, datagram);
    vstd::arithmetic::mul::lemma_mul_is_commutative(least / datagram, datagram);
    let q = least / datagram;
    assert(k <= q) by (nonlinear_arith)
        requires
            k * datagram <= least,
            least == datagram * q + least % datagram,
            least % datagram < datagram,
            0 < datagram,
    ;
    assert(k * datagram <= q * datagram) by (nonlinear_arith)
        requires
            k <= q,
            0 < datagram,
    ;
}

/// A burst ends for want of a path, for want of a packet and for a failure, of which
/// only the last closes the connection. It goes on after a packet, taken or not,
/// exactly while budget is left, and only packets count against the budget.
pub proof fn law_burst_steps(round: SendRound, event: SendEvent, n: usize)
    requires
        event matches SendEvent::Packet(k) ==> k == n && round.total + n <= usize::MAX,
    ensures
        event is NoPath || event is Done ==> round.step_spec(event) is Stop && round.after(event)
            == round,
        event is Failed ==> round.step_spec(event) is CloseAndStop && round.after(event) == round,
        event is Packet ==> round.step_spec(event) is Transmit && round.after(event)
            == (SendRound { budget: round.budget, total: (round.total + n) as usize, continue_write:
            round.continue_write }),
        event is Taken || event is WouldBlock ==> (round.step_spec(event) is NextPacket
            <==> round.total < round.budget),
        event is Taken || event is WouldBlock ==> (round.step_spec(event) is Stop <==> round.total
            >= round.budget),
        event is WouldBlock ==> round.after(event) == round,
        event is Taken ==> round.after(event).total == round.total && round.after(event).budget
            == round.budget && (round.after(event).continue_write <==> round.continue_write
            || round.total >= round.budget),
{
}

} // verus!
