//! The virtual pointer: the operations a caller asks for, the wire requests
//! each one becomes, and the session state that decides when a batch is
//! aborted, which buttons must be released, and how far delivery got.
use vstd::prelude::*;
use std::sync::mpsc::Sender;
use crate::handoff::{Guard, REPLY_TIMEOUT_SECS, open_channel, receive_within, send_message};
use crate::held::{ticks, with_code, without_code, insert_code, remove_code};

verus! {

/// evdev button codes used by Hyprland dispatchers and the pointer protocol.
pub const BTN_LEFT: u32 = 272;
pub const BTN_RIGHT: u32 = 273;

/// Longest pause a single `Wait` may request, in milliseconds.
pub const WAIT_CAP_MS: u32 = 2000;

#[derive(Debug)]
pub enum PointerOp {
    /// Absolute position + frame extents for this dispatch.
    Move { x: u32, y: u32, x_extent: u32, y_extent: u32 },
    Button { code: u32, pressed: bool },
    /// Signed wheel steps; axis 0 = vertical, 1 = horizontal.
    Scroll { axis: u8, steps: i32 },
    /// Pause between events so clients see a drag gesture, not a jump.
    Wait { ms: u32 },
    Frame,
}

/// How far the compositor got, for the caller-visible `effect` field.
#[derive(Debug, PartialEq, Eq, Structural)]
pub enum Delivery {
    /// Nothing was dispatched.
    Nothing,
    Completed,
    /// Some ops dispatched, then transport failed.
    Partial,
    /// All ops dispatched but the sync roundtrip failed.
    Unknown,
}

/// One request on the virtual-pointer connection, in the order the session
/// must issue it.
#[derive(Debug, PartialEq, Eq, Structural)]
pub enum PointerRequest {
    MotionAbsolute { time: u32, x: u32, y: u32, x_extent: u32, y_extent: u32 },
    Button { time: u32, code: u32, pressed: bool },
    /// Marks the following axis events as coming from a wheel.
    AxisSourceWheel,
    /// Discrete wheel steps together with the equivalent smooth value.
    AxisDiscrete { time: u32, horizontal: bool, value: i64, discrete: i32 },
    /// Smooth axis motion.
    Axis { time: u32, horizontal: bool, value: i64 },
    /// Push queued requests onto the wire (errors ignored).
    Flush,
    /// Pause the session for this many milliseconds.
    Sleep { ms: u32 },
    Frame,
}

/// The smooth-axis value that stands for `steps` wheel steps.
pub open spec fn wheel_value(steps: i32) -> i64 {
    (steps * 120) as i64
}

/// The wire requests for one operation, stamped with time `t`.
pub open spec fn op_requests(op: PointerOp, t: u32) -> Seq<PointerRequest> {
    match op {
        PointerOp::Move { x, y, x_extent, y_extent } => seq![
            PointerRequest::MotionAbsolute { time: t, x, y, x_extent, y_extent },
        ],
        PointerOp::Button { code, pressed } => seq![PointerRequest::Button { time: t, code, pressed }],
        PointerOp::Scroll { axis, steps } => seq![
            PointerRequest::AxisSourceWheel,
            PointerRequest::AxisDiscrete {
                time: t,
                horizontal: axis == 1,
                value: wheel_value(steps),
                discrete: steps,
            },
            PointerRequest::Axis { time: t, horizontal: axis == 1, value: wheel_value(steps) },
        ],
        PointerOp::Wait { ms } => seq![
            PointerRequest::Flush,
            PointerRequest::Sleep { ms: if ms < WAIT_CAP_MS { ms } else { WAIT_CAP_MS } },
        ],
        PointerOp::Frame => seq![PointerRequest::Frame],
    }
}

/// Held buttons after `op`.
pub open spec fn held_after_op(held: Seq<u32>, op: PointerOp) -> Seq<u32> {
    match op {
        PointerOp::Button { code, pressed } => if pressed {
            with_code(held, code)
        } else {
            without_code(held, code)
        },
        _ => held,
    }
}

/// Event clock after `op`: one tick, plus the slept time for `Wait`.
pub open spec fn time_after_op(t: u32, op: PointerOp) -> u32 {
    match op {
        PointerOp::Wait { ms } => ticks(t, 1).wrapping_add(
            if ms < WAIT_CAP_MS { ms } else { WAIT_CAP_MS },
        ),
        _ => ticks(t, 1),
    }
}

/// Releases of every held button, one tick apart, then a frame and a flush.
pub open spec fn pointer_release_requests(held: Seq<u32>, t: u32) -> Seq<PointerRequest> {
    Seq::new(
        held.len(),
        |i: int| PointerRequest::Button { time: ticks(t, (i + 1) as nat), code: held[i], pressed: false },
    ) + seq![PointerRequest::Frame, PointerRequest::Flush]
}

/// What a stopped batch reports: `Partial` once anything was dispatched.
pub open spec fn stopped_delivery(sent: bool) -> Delivery {
    if sent {
        Delivery::Partial
    } else {
        Delivery::Nothing
    }
}

/// Total time, in milliseconds, that a list of requests sleeps.
pub open spec fn slept_ms(reqs: Seq<PointerRequest>) -> int
    decreases reqs.len(),
{
    if reqs.len() == 0 {
        0
    } else {
        slept_ms(reqs.drop_last()) + match reqs.last() {
            PointerRequest::Sleep { ms } => ms as int,
            _ => 0,
        }
    }
}

/// Timing of one operation: a `Wait` of `ms` pauses for `ms` milliseconds,
/// at most `WAIT_CAP_MS`, and no other operation pauses; the event clock
/// moves on by one tick plus the pause (modulo 2^32), so clients see the
/// real gesture timing.
pub proof fn lemma_op_timing(op: PointerOp, t: u32)
    ensures
        slept_ms(op_requests(op, t)) == (match op {
            PointerOp::Wait { ms } => if ms <= WAIT_CAP_MS {
                ms as int
            } else {
                WAIT_CAP_MS as int
            },
            _ => 0,
        }),
        time_after_op(t, op) as int == (t as int + 1 + slept_ms(op_requests(op, t))) % 0x1_0000_0000,
{
    reveal_with_fuel(ticks, 2);
    reveal_with_fuel(slept_ms, 4);
    let r = op_requests(op, t);
    match op {
        PointerOp::Scroll { .. } => {
            assert(r.drop_last().drop_last().drop_last() =~= Seq::<PointerRequest>::empty());
            assert(r.drop_last().drop_last().last() == PointerRequest::AxisSourceWheel);
        },
        PointerOp::Wait { .. } => {
            assert(r.drop_last().drop_last() =~= Seq::<PointerRequest>::empty());
            assert(r.drop_last().last() == PointerRequest::Flush);
        },
        _ => {
            assert(r.drop_last() =~= Seq::<PointerRequest>::empty());
        },
    }
}

/// State of one virtual-pointer connection: held buttons, the event clock,
/// whether the current batch has dispatched anything, and whether the
/// connection must be replaced.
pub struct Session {
    held: Vec<u32>,
    time_ms: u32,
    sent: bool,
    broken: bool,
}

impl Session {
    #[verifier::type_invariant]
    spec fn held_distinct(self) -> bool {
        self.held@.no_duplicates()
    }

    /// A code is never recorded as held twice, so each held code is
    /// released exactly once.
    pub fn held_codes_distinct(&self)
        ensures
            self.held_buttons().no_duplicates(),
    {
        proof {
            use_type_invariant(self);
        }
    }

    pub closed spec fn held_buttons(&self) -> Seq<u32> {
        self.held@
    }

    pub closed spec fn clock(&self) -> u32 {
        self.time_ms
    }

    pub closed spec fn batch_sent(&self) -> bool {
        self.sent
    }

    pub closed spec fn is_broken(&self) -> bool {
        self.broken
    }

    /// A fresh connection: nothing held, clock at zero.
    pub fn new() -> (s: Self)
        ensures
            s.held_buttons() == Seq::<u32>::empty(),
            s.clock() == 0,
            !s.batch_sent(),
            !s.is_broken(),
    {
        Session { held: Vec::new(), time_ms: 0, sent: false, broken: false }
    }

    /// The connection failed and must be replaced.
    pub fn broken(&self) -> (b: bool)
        ensures
            b == self.is_broken(),
    {
        self.broken
    }

    /// Some button is still held (a dropped session releases them).
    pub fn holds_input(&self) -> (b: bool)
        ensures
            b == (self.held_buttons().len() > 0),
    {
        self.held.len() > 0
    }

    fn tick(&mut self) -> (t: u32)
        ensures
            t == ticks(old(self).time_ms, 1),
            t == old(self).time_ms.wrapping_add(1),
            final(self).time_ms == t,
            final(self).held == old(self).held,
            final(self).sent == old(self).sent,
            final(self).broken == old(self).broken,
    {
        proof {
            use_type_invariant(&*self);
        }
        proof {
            reveal_with_fuel(ticks, 2);
        }
        self.time_ms = self.time_ms.wrapping_add(1);
        self.time_ms
    }

    /// Starts a new batch of operations.
    pub fn begin_batch(&mut self)
        ensures
            final(self).held_buttons() == old(self).held_buttons(),
            final(self).clock() == old(self).clock(),
            !final(self).batch_sent(),
            final(self).is_broken() == old(self).is_broken(),
    {
        proof {
            use_type_invariant(&*self);
        }
        self.sent = false;
    }

    /// Best-effort release of every held button.
    pub fn release_all(&mut self) -> (reqs: Vec<PointerRequest>)
        ensures
            reqs@ == pointer_release_requests(old(self).held_buttons(), old(self).clock()),
            final(self).held_buttons() == Seq::<u32>::empty(),
            final(self).clock() == ticks(old(self).clock(), old(self).held_buttons().len()),
            final(self).batch_sent() == old(self).batch_sent(),
            final(self).is_broken() == old(self).is_broken(),
    {
        proof {
            use_type_invariant(&*self);
        }
        let ghost t0 = self.time_ms;
        let ghost h = self.held@;
        let mut reqs: Vec<PointerRequest> = Vec::new();
        let mut i: usize = 0;
        while i < self.held.len()
            invariant
                0 <= i <= self.held@.len(),
                self.held@ == h,
                self.time_ms == ticks(t0, i as nat),
                self.sent == old(self).sent,
                self.broken == old(self).broken,
                reqs@ == Seq::new(
                    i as nat,
                    |k: int| PointerRequest::Button { time: ticks(t0, (k + 1) as nat), code: h[k], pressed: false },
                ),
            decreases self.held@.len() - i,
        {
            let code = self.held[i];
            let t = self.tick();
            assert(ticks(t0, (i + 1) as nat) == ticks(t0, i as nat).wrapping_add(1));
            assert(t == ticks(t0, (i + 1) as nat));
            reqs.push(PointerRequest::Button { time: t, code, pressed: false });
            i = i + 1;
            assert(reqs@ =~= Seq::new(
                i as nat,
                |k: int| PointerRequest::Button { time: ticks(t0, (k + 1) as nat), code: h[k], pressed: false },
            ));
        }
        self.held = Vec::new();
        reqs.push(PointerRequest::Frame);
        reqs.push(PointerRequest::Flush);
        assert(reqs@ =~= pointer_release_requests(h, t0));
        reqs
    }

    /// Called before each operation of a batch with whether the display
    /// generation still has the value the batch was validated against.  When
    /// it has moved on, the remaining operations are skipped: held buttons are
    /// released and the batch ends as `Partial` (or `Nothing` if nothing was
    /// dispatched yet).
    pub fn check_guard(&mut self, current: bool) -> (r: Option<(Vec<PointerRequest>, Delivery)>)
        ensures
            current ==> r is None && final(self).held_buttons() == old(self).held_buttons()
                && final(self).clock() == old(self).clock(),
            !current ==> {
                &&& r is Some
                &&& r.unwrap().0@ == pointer_release_requests(
                    old(self).held_buttons(),
                    old(self).clock(),
                )
                &&& r.unwrap().1 == stopped_delivery(old(self).batch_sent())
                &&& final(self).held_buttons() == Seq::<u32>::empty()
                &&& final(self).clock() == ticks(old(self).clock(), old(self).held_buttons().len())
            },
            final(self).batch_sent() == old(self).batch_sent(),
            final(self).is_broken() == old(self).is_broken(),
    {
        proof {
            use_type_invariant(&*self);
        }
        if current {
            None
        } else {
            let sent = self.sent;
            let reqs = self.release_all();
            Some((reqs, if sent { Delivery::Partial } else { Delivery::Nothing }))
        }
    }

    /// Dispatches one operation: the requests to issue, with the held set and
    /// event clock updated accordingly.
    pub fn dispatch(&mut self, op: &PointerOp) -> (reqs: Vec<PointerRequest>)
        ensures
            reqs@ == op_requests(*op, ticks(old(self).clock(), 1)),
            final(self).held_buttons() == held_after_op(old(self).held_buttons(), *op),
            final(self).clock() == time_after_op(old(self).clock(), *op),
            final(self).batch_sent(),
            final(self).is_broken() == old(self).is_broken(),
    {
        proof {
            use_type_invariant(&*self);
        }
        let t = self.tick();
        let mut reqs: Vec<PointerRequest> = Vec::new();
        match op {
            PointerOp::Move { x, y, x_extent, y_extent } => {
                reqs.push(
                    PointerRequest::MotionAbsolute {
                        time: t,
                        x: *x,
                        y: *y,
                        x_extent: *x_extent,
                        y_extent: *y_extent,
                    },
                );
            },
            PointerOp::Button { code, pressed } => {
                reqs.push(PointerRequest::Button { time: t, code: *code, pressed: *pressed });
                let mut held: Vec<u32> = Vec::new();
                std::mem::swap(&mut held, &mut self.held);
                if *pressed {
                    insert_code(&mut held, *code);
                } else {
                    remove_code(&mut held, *code);
                }
                self.held = held;
            },
            PointerOp::Scroll { axis, steps } => {
                let value = (*steps as i64) * 120;
                let horizontal = *axis == 1;
                reqs.push(PointerRequest::AxisSourceWheel);
                reqs.push(PointerRequest::AxisDiscrete { time: t, horizontal, value, discrete: *steps });
                reqs.push(PointerRequest::Axis { time: t, horizontal, value });
            },
            PointerOp::Wait { ms } => {
                let ms = if *ms < WAIT_CAP_MS { *ms } else { WAIT_CAP_MS };
                reqs.push(PointerRequest::Flush);
                reqs.push(PointerRequest::Sleep { ms });
                self.time_ms = self.time_ms.wrapping_add(ms);
            },
            PointerOp::Frame => {
                reqs.push(PointerRequest::Frame);
            },
        }
        self.sent = true;
        assert(reqs@ =~= op_requests(*op, t));
        reqs
    }

    /// After the batch's final flush.  A failed flush breaks the connection:
    /// held buttons are released and the batch ends as `Partial` (or `Nothing`).
    pub fn after_flush(&mut self, flushed: bool) -> (r: Option<(Vec<PointerRequest>, Delivery)>)
        ensures
            flushed ==> r is None && final(self).held_buttons() == old(self).held_buttons()
                && final(self).clock() == old(self).clock() && final(self).is_broken()
                == old(self).is_broken(),
            !flushed ==> {
                &&& r is Some
                &&& r.unwrap().0@ == pointer_release_requests(
                    old(self).held_buttons(),
                    old(self).clock(),
                )
                &&& r.unwrap().1 == stopped_delivery(old(self).batch_sent())
                &&& final(self).held_buttons() == Seq::<u32>::empty()
                &&& final(self).is_broken()
            },
            final(self).batch_sent() == old(self).batch_sent(),
    {
        proof {
            use_type_invariant(&*self);
        }
        if flushed {
            None
        } else {
            let sent = self.sent;
            let reqs = self.release_all();
            self.broken = true;
            Some((reqs, if sent { Delivery::Partial } else { Delivery::Nothing }))
        }
    }

    /// After the sync roundtrip that confirms the batch.  Success means
    /// `Completed`; failure breaks the connection, releases held buttons, and
    /// reports `Unknown`.
    pub fn after_roundtrip(&mut self, synced: bool) -> (r: (Vec<PointerRequest>, Delivery))
        ensures
            synced ==> r.0@ == Seq::<PointerRequest>::empty() && r.1 == Delivery::Completed
                && final(self).held_buttons() == old(self).held_buttons() && final(self).clock()
                == old(self).clock() && final(self).is_broken() == old(self).is_broken(),
            !synced ==> r.0@ == pointer_release_requests(
                old(self).held_buttons(),
                old(self).clock(),
            ) && r.1 == Delivery::Unknown && final(self).held_buttons() == Seq::<u32>::empty()
                && final(self).is_broken(),
            final(self).batch_sent() == old(self).batch_sent(),
    {
        proof {
            use_type_invariant(&*self);
        }
        if synced {
            (Vec::new(), Delivery::Completed)
        } else {
            let reqs = self.release_all();
            self.broken = true;
            (reqs, Delivery::Unknown)
        }
    }
}

} // verus!

verus! {

/// Handle to the thread that owns the virtual-pointer connection.
pub struct Pointer {
    tx: Sender<(Vec<PointerOp>, Guard, Sender<Delivery>)>,
}

/// The answer the input thread gave, or the timeout's default.
pub open spec fn pointer_reply_spec(reply: Option<Delivery>) -> Delivery {
    match reply {
        Some(d) => d,
        None => Delivery::Unknown,
    }
}

/// The answer a caller reports: what the input thread sent back, or
/// `Unknown` when nothing came back in time.
pub fn pointer_reply(reply: Option<Delivery>) -> (r: Delivery)
    ensures
        r == pointer_reply_spec(reply),
{
    match reply {
        Some(d) => d,
        None => Delivery::Unknown,
    }
}

/// What `Pointer::apply` reports: `Nothing` when the request could not be
/// handed to the pointer thread (it is gone, so no event was sent), else the
/// thread's answer, or `Unknown` when none came back in time.
pub fn pointer_outcome(sent: bool, reply: Option<Delivery>) -> (r: Delivery)
    ensures
        !sent ==> r == Delivery::Nothing,
        sent ==> r == pointer_reply_spec(reply),
{
    if !sent {
        Delivery::Nothing
    } else {
        pointer_reply(reply)
    }
}

impl Pointer {
    /// The request queue of the input thread this handle sends to.
    pub closed spec fn requests(&self) -> Sender<(Vec<PointerOp>, Guard, Sender<Delivery>)> {
        self.tx
    }

    /// Wraps the sending end of the pointer thread's request queue.
    pub fn new(tx: Sender<(Vec<PointerOp>, Guard, Sender<Delivery>)>) -> (h: Self)
        ensures
            h.requests() == tx,
    {
        Pointer { tx }
    }

    /// Blocks until the op list is delivered or fails. Call from spawn_blocking.
    /// `guard` is (generation counter, expected value): when the generation
    /// has moved on (display change mid-action), remaining ops are skipped and
    /// held inputs released before returning Partial.  Returns `Nothing` when
    /// the pointer thread is gone and `Unknown` when it does not answer within
    /// the reply timeout.
    pub fn apply(&self, ops: Vec<PointerOp>, guard: Guard) -> Delivery {
        let (reply, rx) = open_channel::<Delivery>();
        let sent = send_message(&self.tx, (ops, guard, reply));
        let answer = if sent { receive_within(&rx, REPLY_TIMEOUT_SECS) } else { None };
        pointer_outcome(sent, answer)
    }
}

} // verus!
