//! Channels for inter-task communication: a bounded FIFO buffer plus the
//! queues of tasks parked on it.
use std::collections::VecDeque;
use vstd::prelude::*;

use crate::text::{count_text, decimal, u64_text};
use crate::value::Value;

verus! {

/// Identifies a channel slot within one scheduler.
#[derive(Debug, Clone, Copy, PartialEq, Eq, Hash, Structural)]
pub struct ChannelId(pub usize);

/// Identifies a task of the scheduler.
#[derive(Debug, Clone, Copy, PartialEq, Eq, Hash, Structural)]
pub struct TaskId(pub u64);

/// Generation-tracked channel handle handed to user code: a stale handle
/// of a recycled slot differs from the live one by its generation.
#[derive(Debug, Clone, Copy, PartialEq, Eq, Hash, Structural)]
pub struct ChannelHandle {
    pub id: ChannelId,
    pub generation: u64,
}

/// Result of a synchronous (non-suspending) channel operation.
#[derive(Debug)]
pub enum TryResult<T> {
    /// The operation completed with this value.
    Ready(T),
    /// The operation could not complete without blocking.
    WouldBlock,
    /// The channel is closed.
    Closed,
}

/// One channel slot. `capacity == 0` means synchronous: a value can only be
/// handed from a parked sender to a receiver or the other way round.
/// `sender_waiters[i]` is the i-th parked sender and
/// `sender_waiter_values[i]` the value it wants to send.
#[derive(Debug)]
pub struct Channel {
    pub id: ChannelId,
    pub generation: u64,
    pub capacity: usize,
    pub buf: VecDeque<Value>,
    pub closed: bool,
    pub sender_waiters: Vec<TaskId>,
    pub sender_waiter_values: Vec<Value>,
    pub receiver_waiters: Vec<TaskId>,
}

/// The abstract state of a channel.
pub struct ChannelState {
    pub id: ChannelId,
    pub generation: u64,
    pub capacity: nat,
    pub buf: Seq<Value>,
    pub closed: bool,
    pub senders: Seq<TaskId>,
    pub sender_values: Seq<Value>,
    pub receivers: Seq<TaskId>,
}

impl View for Channel {
    type V = ChannelState;

    open spec fn view(&self) -> ChannelState {
        ChannelState {
            id: self.id,
            generation: self.generation,
            capacity: self.capacity as nat,
            buf: self.buf@,
            closed: self.closed,
            senders: self.sender_waiters@,
            sender_values: self.sender_waiter_values@,
            receivers: self.receiver_waiters@,
        }
    }
}

impl ChannelState {
    /// The parked senders and their values are paired one to one.
    pub open spec fn wf(self) -> bool {
        self.senders.len() == self.sender_values.len()
    }

    /// A fresh, open channel with nothing buffered or parked.
    pub open spec fn fresh(id: ChannelId, generation: u64, capacity: nat) -> Self {
        ChannelState {
            id,
            generation,
            capacity,
            buf: Seq::empty(),
            closed: false,
            senders: Seq::empty(),
            sender_values: Seq::empty(),
            receivers: Seq::empty(),
        }
    }

    pub open spec fn has_room(self) -> bool {
        self.buf.len() < self.capacity
    }

    /// SEND without blocking: refused on a closed channel, buffered when
    /// there is room, otherwise it would block.
    pub open spec fn send(self, v: Value) -> (Self, TryResult<()>) {
        if self.closed {
            (self, TryResult::Closed)
        } else if self.has_room() {
            (ChannelState { buf: self.buf.push(v), ..self }, TryResult::Ready(()))
        } else {
            (self, TryResult::WouldBlock)
        }
    }

    /// RECV without blocking: the oldest buffered value; `Closed` once the
    /// channel is closed and drained.
    pub open spec fn recv(self) -> (Self, TryResult<Value>) {
        if self.closed && self.buf.len() == 0 {
            (self, TryResult::Closed)
        } else if self.buf.len() > 0 {
            (ChannelState { buf: self.buf.drop_first(), ..self }, TryResult::Ready(self.buf[0]))
        } else {
            (self, TryResult::WouldBlock)
        }
    }

    /// Close: the first close wakes every parked receiver; later closes do
    /// nothing.
    pub open spec fn close(self) -> (Self, Seq<TaskId>) {
        if self.closed {
            (self, Seq::empty())
        } else {
            (ChannelState { closed: true, receivers: Seq::empty(), ..self }, self.receivers)
        }
    }

    /// Hand-off on a synchronous channel: when a receiver is parked, the
    /// value is buffered for it and the oldest receiver is woken.
    pub open spec fn pair_send(self, v: Value) -> (Self, Option<TaskId>) {
        if !self.closed && self.capacity == 0 && self.receivers.len() > 0 {
            (
                ChannelState {
                    buf: self.buf.push(v),
                    receivers: self.receivers.drop_first(),
                    ..self
                },
                Some(self.receivers[0]),
            )
        } else {
            (self, None)
        }
    }

    /// Wake the oldest parked sender, with the value it parked.
    pub open spec fn pop_sender(self) -> (Self, Option<(TaskId, Value)>) {
        if self.senders.len() == 0 {
            (self, None)
        } else {
            (
                ChannelState {
                    senders: self.senders.drop_first(),
                    sender_values: self.sender_values.drop_first(),
                    ..self
                },
                Some((self.senders[0], self.sender_values[0])),
            )
        }
    }

    /// Hand-off on the receiving side: take a parked sender's value unless
    /// the channel is closed.
    pub open spec fn pair_recv(self) -> (Self, Option<(TaskId, Value)>) {
        if self.closed {
            (self, None)
        } else {
            self.pop_sender()
        }
    }

    /// Wake the oldest parked receiver.
    pub open spec fn pop_receiver(self) -> (Self, Option<TaskId>) {
        if self.receivers.len() == 0 {
            (self, None)
        } else {
            (ChannelState { receivers: self.receivers.drop_first(), ..self }, Some(self.receivers[0]))
        }
    }

    /// Send each value of `vs` in turn; the results are dropped.
    pub open spec fn send_all(self, vs: Seq<Value>) -> Self
        decreases vs.len(),
    {
        if vs.len() == 0 {
            self
        } else {
            self.send_all(vs.drop_last()).send(vs.last()).0
        }
    }

    /// Receive `n` times; the values received, in order.
    pub open spec fn recv_n(self, n: nat) -> Seq<Value>
        decreases n,
    {
        if n == 0 {
            Seq::empty()
        } else {
            match self.recv() {
                (next, TryResult::Ready(v)) => seq![v] + next.recv_n((n - 1) as nat),
                _ => Seq::empty(),
            }
        }
    }
}

/// The text a closed-channel error gives for the handle of slot `id` at
/// `generation`.
pub open spec fn channel_repr(id: nat, generation: nat) -> Seq<char> {
    "<channel handle id="@ + decimal(id as int) + " gen="@ + decimal(generation as int) + ">"@
}

/// `v` is a STRING whose text is `t`.
pub open spec fn text_value(v: Value, t: Seq<char>) -> bool {
    v matches Value::String(s) && s@ == t
}

/// `r` is `ERR(["kind": "ChannelClosed", "channel": repr])` for the
/// handle of slot `id` at `generation`.
pub open spec fn is_closed_err(r: Value, id: nat, generation: nat) -> bool {
    r matches Value::ErrValue(p) && *p matches Value::Dict(entries) && entries@.len() == 2
        && text_value(entries@[0].0, "kind"@) && text_value(entries@[0].1, "ChannelClosed"@)
        && text_value(entries@[1].0, "channel"@) && text_value(entries@[1].1, channel_repr(id, generation))
}

impl Channel {
    /// A fresh channel with the given buffer capacity (`0`: synchronous).
    pub fn new(id: ChannelId, generation: u64, capacity: usize) -> (c: Self)
        ensures
            c@ == ChannelState::fresh(id, generation, capacity as nat),
    {
        Channel {
            id,
            generation,
            capacity,
            buf: VecDeque::with_capacity(capacity),
            closed: false,
            sender_waiters: Vec::new(),
            sender_waiter_values: Vec::new(),
            receiver_waiters: Vec::new(),
        }
    }

    /// The handle that user code receives for this channel.
    pub fn handle(&self) -> (h: ChannelHandle)
        ensures
            h == (ChannelHandle { id: self.id, generation: self.generation }),
    {
        ChannelHandle { id: self.id, generation: self.generation }
    }

    /// Number of values currently buffered.
    pub fn len(&self) -> (n: usize)
        ensures
            n == self@.buf.len(),
    {
        self.buf.len()
    }

    /// True when nothing is buffered.
    pub fn is_empty(&self) -> (b: bool)
        ensures
            b == (self@.buf.len() == 0),
    {
        self.buf.len() == 0
    }

    /// The configured buffer capacity (`0` for a synchronous channel).
    pub fn cap(&self) -> (n: usize)
        ensures
            n == self.capacity,
    {
        self.capacity
    }

    /// True when a SEND could buffer its value without blocking.
    pub fn has_room(&self) -> (b: bool)
        ensures
            b == self@.has_room(),
    {
        self.buf.len() < self.capacity
    }

    /// SEND without blocking.
    pub fn try_send(&mut self, v: Value) -> (r: TryResult<()>)
        ensures
            (final(self)@, r) == old(self)@.send(v),
    {
        if self.closed {
            return TryResult::Closed;
        }
        if self.has_room() {
            self.buf.push_back(v);
            return TryResult::Ready(());
        }
        TryResult::WouldBlock
    }

    /// SEND hand-off on a synchronous channel: when a receiver is parked,
    /// buffer the value for it and return the receiver to wake.
    pub fn try_pair_send(&mut self, value: Value) -> (r: Option<TaskId>)
        ensures
            (final(self)@, r) == old(self)@.pair_send(value),
    {
        if self.closed {
            return None;
        }
        if self.capacity == 0 && self.has_receiver_waiter() {
            self.buf.push_back(value);
            return self.pop_receiver_waiter();
        }
        None
    }

    /// RECV hand-off: take the value of the oldest parked sender.
    pub fn try_pair_recv(&mut self) -> (r: Option<(TaskId, Value)>)
        requires
            old(self)@.wf(),
        ensures
            (final(self)@, r) == old(self)@.pair_recv(),
            final(self)@.wf(),
    {
        if self.closed {
            return None;
        }
        if self.sender_waiters.len() != 0 {
            return self.pop_sender_waiter_with_value();
        }
        None
    }

    /// RECV without blocking.
    pub fn try_recv(&mut self) -> (r: TryResult<Value>)
        ensures
            (final(self)@, r) == old(self)@.recv(),
    {
        if self.closed && self.buf.len() == 0 {
            return TryResult::Closed;
        }
        match self.buf.pop_front() {
            Some(v) => TryResult::Ready(v),
            None => TryResult::WouldBlock,
        }
    }

    /// The value that RECV gives back once the channel is closed and
    /// drained: `ERR(["kind": "ChannelClosed", "channel": <repr>])`, where
    /// the representation names the handle's slot and generation.
    pub fn recv_closed_err(&self) -> (r: Value)
        ensures
            is_closed_err(r, self.id.0 as nat, self.generation as nat),
    {
        let mut repr = String::from_str("<channel handle id=");
        repr.append(count_text(self.id.0).as_str());
        repr.append(" gen=");
        repr.append(u64_text(self.generation).as_str());
        repr.append(">");
        let entries = vec![
            (Value::String(String::from_str("kind")), Value::String(String::from_str("ChannelClosed"))),
            (Value::String(String::from_str("channel")), Value::String(repr)),
        ];
        Value::ErrValue(Box::new(Value::Dict(entries)))
    }

    /// Mark the channel closed; returns the receivers that were parked, for
    /// the caller to wake. Idempotent.
    pub fn close(&mut self) -> (woken: Vec<TaskId>)
        ensures
            (final(self)@, woken@) == old(self)@.close(),
    {
        if self.closed {
            return Vec::new();
        }
        self.closed = true;
        let mut woken = Vec::new();
        std::mem::swap(&mut woken, &mut self.receiver_waiters);
        woken
    }

    /// Wake the oldest parked sender; its value is dropped.
    pub fn pop_sender_waiter(&mut self) -> (r: Option<TaskId>)
        requires
            old(self)@.wf(),
        ensures
            final(self)@ == old(self)@.pop_sender().0,
            r == match old(self)@.pop_sender().1 {
                Some(p) => Some(p.0),
                None => None::<TaskId>,
            },
            final(self)@.wf(),
    {
        if self.sender_waiters.len() == 0 {
            None
        } else {
            self.sender_waiter_values.remove(0);
            Some(self.sender_waiters.remove(0))
        }
    }

    /// Wake the oldest parked sender and return the value it parked with.
    pub fn pop_sender_waiter_with_value(&mut self) -> (r: Option<(TaskId, Value)>)
        requires
            old(self)@.wf(),
        ensures
            (final(self)@, r) == old(self)@.pop_sender(),
            final(self)@.wf(),
    {
        if self.sender_waiters.len() == 0 {
            None
        } else {
            let v = self.sender_waiter_values.remove(0);
            let tid = self.sender_waiters.remove(0);
            Some((tid, v))
        }
    }

    /// Wake the oldest parked receiver.
    pub fn pop_receiver_waiter(&mut self) -> (r: Option<TaskId>)
        ensures
            (final(self)@, r) == old(self)@.pop_receiver(),
    {
        if self.receiver_waiters.len() == 0 {
            None
        } else {
            Some(self.receiver_waiters.remove(0))
        }
    }

    /// Park `task` as a sender that wants to send `value`.
    pub fn push_sender_waiter(&mut self, task: TaskId, value: Value)
        ensures
            final(self)@ == (ChannelState {
                senders: old(self)@.senders.push(task),
                sender_values: old(self)@.sender_values.push(value),
                ..old(self)@
            }),
    {
        self.sender_waiters.push(task);
        self.sender_waiter_values.push(value);
    }

    /// Park `task` as a receiver waiting for a value.
    pub fn push_receiver_waiter(&mut self, task: TaskId)
        ensures
            final(self)@ == (ChannelState { receivers: old(self)@.receivers.push(task), ..old(self)@ }),
    {
        self.receiver_waiters.push(task);
    }

    /// True iff at least one receiver is parked.
    pub fn has_receiver_waiter(&self) -> (b: bool)
        ensures
            b == (self@.receivers.len() > 0),
    {
        self.receiver_waiters.len() != 0
    }
}


/// Sending values into an open channel with room for all of them buffers
/// them after what was already buffered, in order.
pub proof fn law_send_appends(s: ChannelState, vs: Seq<Value>)
    requires
        !s.closed,
        s.buf.len() + vs.len() <= s.capacity,
    ensures
        s.send_all(vs).buf == s.buf + vs,
        s.send_all(vs).closed == s.closed,
        s.send_all(vs).capacity == s.capacity,
    decreases vs.len(),
{
    if vs.len() > 0 {
        law_send_appends(s, vs.drop_last());
        assert(s.buf + vs.drop_last() + seq![vs.last()] =~= s.buf + vs);
    }
}

/// Receiving from a channel that holds `buf` (open or closed) gives back
/// the buffered values in the order they were buffered.
pub proof fn law_recv_drains_in_order(s: ChannelState)
    ensures
        s.recv_n(s.buf.len()) == s.buf,
    decreases s.buf.len(),
{
    if s.buf.len() > 0 {
        let next = ChannelState { buf: s.buf.drop_first(), ..s };
        law_recv_drains_in_order(next);
        assert(s.recv() == (next, TryResult::Ready(s.buf[0])));
        assert(seq![s.buf[0]] + s.buf.drop_first() =~= s.buf);
    }
}

/// First in, first out: values sent into an empty open channel with room
/// for them are received in the order they were sent.
pub proof fn law_fifo(s: ChannelState, vs: Seq<Value>)
    requires
        !s.closed,
        s.buf.len() == 0,
        vs.len() <= s.capacity,
    ensures
        s.send_all(vs).recv_n(vs.len()) == vs,
{
    law_send_appends(s, vs);
    assert(s.buf + vs =~= vs);
    law_recv_drains_in_order(s.send_all(vs));
}

/// `s` with `t` parked as a sender of `v` behind the senders already
/// parked (what `Channel::push_sender_waiter` does).
pub open spec fn park_sender(s: ChannelState, t: TaskId, v: Value) -> ChannelState {
    ChannelState { senders: s.senders.push(t), sender_values: s.sender_values.push(v), ..s }
}

/// Parked senders are served first in, first out: a sender parked where
/// no other sender waits is the next one served, with the value it
/// parked; one parked behind others changes neither who is served next
/// nor with what, and waits at the back.
pub proof fn law_parked_senders_fifo(s: ChannelState, t: TaskId, v: Value)
    requires
        s.wf(),
    ensures
        s.senders.len() == 0 ==> park_sender(s, t, v).pop_sender().1 == Some((t, v)),
        s.senders.len() == 0 ==> park_sender(s, t, v).pop_sender().0 == s,
        s.senders.len() > 0 ==> park_sender(s, t, v).pop_sender().1 == s.pop_sender().1,
        s.senders.len() > 0 ==> park_sender(s, t, v).pop_sender().0 == park_sender(s.pop_sender().0, t, v),
{
    let s2 = park_sender(s, t, v);
    if s.senders.len() == 0 {
        assert(s2.senders.drop_first() =~= s.senders);
        assert(s2.sender_values.drop_first() =~= s.sender_values);
    } else {
        assert(s2.senders.drop_first() =~= s.senders.drop_first().push(t));
        assert(s2.sender_values.drop_first() =~= s.sender_values.drop_first().push(v));
    }
}

/// On an open channel, two senders parked one after the other hand over
/// their values in that order: the first `RECV` hand-off takes the first
/// sender and its value, the next one the second.
pub proof fn law_pair_recv_takes_senders_in_order(s: ChannelState, t1: TaskId, v1: Value, t2: TaskId, v2: Value)
    requires
        s.wf(),
        !s.closed,
        s.senders.len() == 0,
    ensures
        park_sender(park_sender(s, t1, v1), t2, v2).pair_recv().1 == Some((t1, v1)),
        park_sender(park_sender(s, t1, v1), t2, v2).pair_recv().0.pair_recv().1 == Some((t2, v2)),
{
    let s1 = park_sender(s, t1, v1);
    law_parked_senders_fifo(s, t1, v1);
    law_parked_senders_fifo(s1, t2, v2);
    law_parked_senders_fifo(s1.pop_sender().0, t2, v2);
}

/// `s` with `t` parked as a receiver behind the receivers already parked
/// (what `Channel::push_receiver_waiter` does).
pub open spec fn park_receiver(s: ChannelState, t: TaskId) -> ChannelState {
    ChannelState { receivers: s.receivers.push(t), ..s }
}

/// Parked receivers are woken first in, first out: one parked where no
/// other receiver waits is the next one woken; one parked behind others
/// changes neither who is woken next nor the order after.
pub proof fn law_parked_receivers_fifo(s: ChannelState, t: TaskId)
    ensures
        s.receivers.len() == 0 ==> park_receiver(s, t).pop_receiver() == (s, Some(t)),
        s.receivers.len() > 0 ==> park_receiver(s, t).pop_receiver().1 == s.pop_receiver().1,
        s.receivers.len() > 0 ==> park_receiver(s, t).pop_receiver().0 == park_receiver(s.pop_receiver().0, t),
{
    let s2 = park_receiver(s, t);
    if s.receivers.len() == 0 {
        assert(s2.receivers.drop_first() =~= s.receivers);
    } else {
        assert(s2.receivers.drop_first() =~= s.receivers.drop_first().push(t));
    }
}

/// On an open synchronous channel, a `SEND` hand-off buffers the value for
/// the oldest parked receiver and wakes that receiver.
pub proof fn law_pair_send_wakes_oldest_receiver(s: ChannelState, t1: TaskId, t2: TaskId, v: Value)
    requires
        !s.closed,
        s.capacity == 0,
        s.receivers.len() == 0,
    ensures
        park_receiver(park_receiver(s, t1), t2).pair_send(v).1 == Some(t1),
        park_receiver(park_receiver(s, t1), t2).pair_send(v).0.buf == s.buf.push(v),
        park_receiver(park_receiver(s, t1), t2).pair_send(v).0.receivers == seq![t2],
{
    let s2 = park_receiver(park_receiver(s, t1), t2);
    assert(s2.receivers =~= seq![t1, t2]);
    assert(s2.receivers.drop_first() =~= seq![t2]);
}

/// Closing an open channel wakes every parked receiver, in the order they
/// parked, and leaves none parked.
pub proof fn law_close_wakes_all_receivers(s: ChannelState)
    requires
        !s.closed,
    ensures
        s.close().1 == s.receivers,
        s.close().0.receivers.len() == 0,
        s.close().0.closed,
{
}

/// Closing twice is the same as closing once; the second close wakes nobody.
pub proof fn law_close_idempotent(s: ChannelState)
    ensures
        s.close().0.close() == (s.close().0, Seq::<TaskId>::empty()),
        s.close().0.closed,
{
}

/// A closed channel refuses every send and stays unchanged.
pub proof fn law_closed_refuses_send(s: ChannelState, v: Value)
    ensures
        s.close().0.send(v) == (s.close().0, TryResult::<()>::Closed),
{
}

/// After close, receivers still get every buffered value, in order, and
/// then `Closed`.
pub proof fn law_close_then_drain(s: ChannelState)
    ensures
        s.close().0.recv_n(s.buf.len()) == s.buf,
        ({
            let drained = ChannelState { buf: Seq::<Value>::empty(), ..s.close().0 };
            drained.recv() == (drained, TryResult::<Value>::Closed)
        }),
{
    law_recv_drains_in_order(s.close().0);
}

/// Sending never makes the buffer hold more than the capacity.
pub proof fn law_send_within_capacity(s: ChannelState, v: Value)
    requires
        s.buf.len() <= s.capacity,
    ensures
        s.send(v).0.buf.len() <= s.capacity,
{
}

} // verus!
