//! What is counted and decided while two connections are relayed to each other.
use vstd::prelude::*;

use crate::console::Control;
use crate::usage::Usage;

verus! {

/// Speeds are looked at once in this many milliseconds at most.
pub const CHECK_MILLIS: usize = 1_000;

/// After more than this many seconds without anything received, relaying is given up.
pub const IDLE_SECONDS: u64 = 30;

/// The account of one pair of connections.
#[derive(Clone, Copy, Debug, PartialEq, Eq, Structural)]
pub struct Session {
    /// For how long the pair has been looked at, in milliseconds.
    pub elapsed: usize,
    /// What went through, in bits.
    pub total: usize,
    /// What went through since the last look, in bits.
    pub recent: usize,
    /// The highest speed seen, in bits per millisecond.
    pub highest: usize,
    /// Whether the pair was slowed down for good.
    pub downgraded: bool,
    /// Whether the address was on the blacklist at the last look.
    pub blacked: bool,
    /// The average speed above which a pair is slowed down, in bits per millisecond.
    pub threshold: usize,
}

/// The two connections of a pair.
#[derive(Clone, Copy, Debug, PartialEq, Eq, Structural)]
pub enum Side {
    /// The one that came second, and found the other waiting.
    Stream,
    /// The one that was waiting.
    Peer,
}

impl Side {
    /// The other connection.
    pub open spec fn other(self) -> Side {
        match self {
            Side::Stream => Side::Peer,
            Side::Peer => Side::Stream,
        }
    }
}

/// What happens to a pair.
#[derive(Debug, PartialEq, Eq)]
pub enum Event {
    /// One side sent these bytes.
    Received { from: Side, bytes: Vec<u8> },
    /// One side is gone.
    Ended,
    /// The clock has ticked, this many seconds after anything was received.
    Tick(u64),
}

/// What happens to a pair, as contracts speak of it.
pub enum EventView {
    Received { from: Side, bytes: Seq<u8> },
    Ended,
    Tick(u64),
}

impl View for Event {
    type V = EventView;

    open spec fn view(&self) -> EventView {
        match self {
            Event::Received { from, bytes } => EventView::Received { from: *from, bytes: bytes@ },
            Event::Ended => EventView::Ended,
            Event::Tick(idle) => EventView::Tick(*idle),
        }
    }
}

/// Bytes on their way to one side.
#[derive(Debug, PartialEq, Eq)]
pub struct Delivery {
    pub to: Side,
    pub bytes: Vec<u8>,
}

/// Bytes on their way to one side, as contracts speak of them.
pub struct DeliveryView {
    pub to: Side,
    pub bytes: Seq<u8>,
}

impl View for Delivery {
    type V = DeliveryView;

    open spec fn view(&self) -> DeliveryView {
        DeliveryView { to: self.to, bytes: self.bytes@ }
    }
}

/// What is to be done about it.
#[derive(Debug, PartialEq, Eq)]
pub enum Step {
    /// Wait until this many bits may pass, at the speed for slow pairs or at the normal one, and
    /// send what there is to send.
    Pass { bits: usize, slow: bool, send: Option<Delivery> },
    /// Stop relaying.
    Finish,
    /// Stop relaying: nothing was received for too long.
    TimedOut,
    /// Go on.
    Proceed,
}

/// What is to be done, as contracts speak of it.
pub enum StepView {
    Pass { bits: nat, slow: bool, send: Option<DeliveryView> },
    Finish,
    TimedOut,
    Proceed,
}

impl View for Step {
    type V = StepView;

    open spec fn view(&self) -> StepView {
        match self {
            Step::Pass { bits, slow, send } => StepView::Pass {
                bits: *bits as nat,
                slow: *slow,
                send: match send {
                    Some(d) => Some(d@),
                    None => None,
                },
            },
            Step::Finish => StepView::Finish,
            Step::TimedOut => StepView::TimedOut,
            Step::Proceed => StepView::Proceed,
        }
    }
}

/// What a look at a pair comes to.
#[derive(Clone, Copy, Debug, PartialEq, Eq, Structural)]
pub enum Check {
    /// It is not yet time.
    Early,
    /// Stop relaying: the address is turned away.
    Blocked,
    /// Go on. The flag says whether the pair was slowed down just now.
    Counted { usage: Usage, slowed_down: bool },
}

impl Session {
    /// What went through lately is part of what went through.
    pub open spec fn wf(self) -> bool {
        self.recent <= self.total
    }

    /// Whether the bits of this many bytes can be counted.
    pub open spec fn can_count(self, len: nat) -> bool {
        self.total + len * 8 <= usize::MAX
    }

    /// The account after this many bytes.
    pub open spec fn counted(self, len: nat) -> Session {
        Session {
            total: (self.total + len * 8) as usize,
            recent: (self.recent + len * 8) as usize,
            ..self
        }
    }

    /// The account after an event.
    pub open spec fn after(self, event: EventView) -> Session {
        match event {
            EventView::Received { from, bytes } => self.counted(bytes.len()),
            _ => self,
        }
    }

    /// What is to be done about an event: bytes that one side sent go to the other, unless there
    /// are none.
    pub open spec fn step(self, event: EventView) -> StepView {
        match event {
            EventView::Received { from, bytes } => StepView::Pass {
                bits: bytes.len() * 8,
                slow: self.blacked || self.downgraded,
                send: if bytes.len() > 0 {
                    Some(DeliveryView { to: from.other(), bytes })
                } else {
                    None
                },
            },
            EventView::Ended => StepView::Finish,
            EventView::Tick(idle) => if idle > IDLE_SECONDS {
                StepView::TimedOut
            } else {
                StepView::Proceed
            },
        }
    }

    /// Whether a look after `millis` can be taken into account: the time fits, and so does what
    /// would be too much for it, where that is asked for.
    pub open spec fn can_check(self, millis: nat, start_check: nat) -> bool {
        &&& self.elapsed + millis <= usize::MAX
        &&& self.elapsed + millis > start_check && !self.downgraded ==> (self.elapsed + millis)
            * self.threshold <= usize::MAX
    }

    /// The speed since the last look.
    pub open spec fn speed(self, millis: nat) -> int {
        self.recent as int / millis as int
    }

    /// Whether a look after `millis` slows the pair down: it has been relayed for longer than
    /// `start_check`, and faster than the threshold.
    pub open spec fn slows_down(self, millis: nat, start_check: nat) -> bool {
        &&& self.elapsed + millis > start_check
        &&& !self.downgraded
        &&& self.total > (self.elapsed + millis) * self.threshold
    }

    /// The account after a look that counts.
    pub open spec fn checked(self, millis: nat, black: bool, start_check: nat) -> Session {
        Session {
            elapsed: (self.elapsed + millis) as usize,
            recent: 0,
            highest: if self.speed(millis) > self.highest {
                self.speed(millis) as usize
            } else {
                self.highest
            },
            downgraded: self.downgraded || self.slows_down(millis, start_check),
            blacked: black,
            ..self
        }
    }

    /// What a look that counts reports.
    pub open spec fn report(self, millis: nat, black: bool, start_check: nat) -> Usage {
        let after = self.checked(millis, black, start_check);
        Usage {
            elapsed: after.elapsed,
            total: after.total,
            highest: after.highest,
            speed: self.speed(millis) as usize,
        }
    }

    /// The account of a pair that was made just now.
    pub fn new(threshold: usize) -> (s: Session)
        ensures
            s.wf(),
            s == (Session {
                elapsed: 0,
                total: 0,
                recent: 0,
                highest: 0,
                downgraded: false,
                blacked: false,
                threshold,
            }),
    {
        Session {
            elapsed: 0,
            total: 0,
            recent: 0,
            highest: 0,
            downgraded: false,
            blacked: false,
            threshold,
        }
    }

    /// Whether the bits of this many bytes can be counted.
    pub fn has_room_for(&self, len: usize) -> (r: bool)
        ensures
            r == self.can_count(len as nat),
    {
        len <= (usize::MAX - self.total) / 8
    }

    /// Takes an event into account.
    pub fn on_event(&mut self, event: Event) -> (step: Step)
        requires
            old(self).wf(),
            event@ matches EventView::Received { bytes, .. } ==> old(self).can_count(bytes.len()),
        ensures
            final(self).wf(),
            *final(self) == old(self).after(event@),
            step@ == old(self).step(event@),
            event matches Event::Tick(idle) ==> (step is TimedOut <==> idle > 30) && (step
                is Proceed <==> idle <= 30) && *final(self) == *old(self),
            event is Ended ==> step is Finish && *final(self) == *old(self),
            event matches Event::Received { from, bytes } ==> (step matches Step::Pass {
                bits,
                slow,
                send,
            } && bits == 8 * bytes@.len() && (slow <==> old(self).blacked || old(self).downgraded)
                && (send is Some <==> bytes@.len() > 0) && (send matches Some(d) ==> d.to != from
                && d.bytes@ == bytes@) && *final(self) == (Session {
                total: (old(self).total + bits) as usize,
                recent: (old(self).recent + bits) as usize,
                ..*old(self)
            })),
    {
        match event {
            Event::Received { from, bytes } => {
                let len: usize = bytes.len();
                let bits: usize = len * 8;
                let slow = self.blacked || self.downgraded;
                self.total = self.total + bits;
                self.recent = self.recent + bits;
                let send = if len > 0 {
                    let to = match from {
                        Side::Stream => Side::Peer,
                        Side::Peer => Side::Stream,
                    };
                    Some(Delivery { to, bytes })
                } else {
                    None
                };
                Step::Pass { bits, slow, send }
            },
            Event::Ended => Step::Finish,
            Event::Tick(idle) => {
                if idle > IDLE_SECONDS {
                    Step::TimedOut
                } else {
                    Step::Proceed
                }
            },
        }
    }

    /// Whether a look at the pair can be taken into account.
    pub fn is_countable(&self, millis: usize, ip: &str, control: &Control) -> (r: bool)
        ensures
            r == (millis >= CHECK_MILLIS && !control@.blocklist.contains(ip@) ==> self.can_check(
                millis as nat,
                control.settings.downgrade_start_check as nat,
            )),
    {
        if millis < CHECK_MILLIS || control.blocklist.contains(ip) {
            return true;
        }
        match self.elapsed.checked_add(millis) {
            Some(elapsed) => {
                if elapsed > control.settings.downgrade_start_check && !self.downgraded {
                    elapsed.checked_mul(self.threshold).is_some()
                } else {
                    true
                }
            },
            None => false,
        }
    }

    /// Looks at the pair, `millis` after it was last looked at. The address is looked up in the
    /// lists, and what was used is put under `id` into the usage table.
    pub fn checkpoint(&mut self, millis: usize, ip: &str, id: &str, control: &mut Control) -> (check:
        Check)
        requires
            old(self).wf(),
            old(control).wf(),
            millis >= CHECK_MILLIS && !old(control)@.blocklist.contains(ip@) ==> old(
                self,
            ).can_check(
                millis as nat,
                old(control).settings.downgrade_start_check as nat,
            ),
        ensures
            final(self).wf(),
            final(control).wf(),
            ({
                let start_check = old(control).settings.downgrade_start_check as nat;
                let black = old(control)@.blacklist.contains(ip@);
                if millis < CHECK_MILLIS {
                    &&& check == Check::Early
                    &&& *final(self) == *old(self)
                    &&& final(control)@ == old(control)@
                } else if old(control)@.blocklist.contains(ip@) {
                    &&& check == Check::Blocked
                    &&& *final(self) == *old(self)
                    &&& final(control)@ == old(control)@
                } else {
                    let usage = old(self).report(millis as nat, black, start_check);
                    &&& check == (Check::Counted {
                        usage,
                        slowed_down: old(self).slows_down(millis as nat, start_check),
                    })
                    &&& *final(self) == old(self).checked(millis as nat, black, start_check)
                    &&& final(control)@ == old(control)@.with_usage(id@, usage)
                }
            }),
            check is Early <==> millis < 1000,
            check is Blocked <==> millis >= 1000 && old(control)@.blocklist.contains(ip@),
            check is Counted <==> millis >= 1000 && !old(control)@.blocklist.contains(ip@),
            check matches Check::Counted { usage, slowed_down } ==> usage.elapsed == old(
                self,
            ).elapsed + millis && usage.total == old(self).total && final(self).blacked == old(
                control,
            )@.blacklist.contains(ip@) && (slowed_down <==> final(self).downgraded && !old(
                self,
            ).downgraded) && final(control)@.usage[id@] == usage,
    {
        if millis < CHECK_MILLIS {
            return Check::Early;
        }
        if control.blocklist.contains(ip) {
            return Check::Blocked;
        }
        self.blacked = control.blacklist.contains(ip);
        let speed: usize = self.recent / millis;
        if speed > self.highest {
            self.highest = speed;
        }
        self.elapsed = self.elapsed + millis;
        let usage = Usage {
            elapsed: self.elapsed,
            total: self.total,
            highest: self.highest,
            speed,
        };
        control.usage.insert(id.to_owned(), usage);
        self.recent = 0;
        let mut slowed_down = false;
        if self.elapsed > control.settings.downgrade_start_check && !self.downgraded {
            if self.total > self.elapsed * self.threshold {
                self.downgraded = true;
                slowed_down = true;
            }
        }
        Check::Counted { usage, slowed_down }
    }
}

/// What changes the account of a pair.
pub enum Happening {
    /// An event.
    Event(EventView),
    /// A look that counts.
    Look { millis: usize, black: bool, start_check: usize },
}

/// All bits of the messages.
pub open spec fn bits_in(run: Seq<Happening>) -> nat
    decreases run.len(),
{
    if run.len() == 0 {
        0
    } else {
        bits_in(run.drop_last()) + (match run.last() {
            Happening::Event(EventView::Received { bytes, .. }) => bytes.len() * 8,
            _ => 0nat,
        })
    }
}

/// All milliseconds between the looks.
pub open spec fn millis_in(run: Seq<Happening>) -> nat
    decreases run.len(),
{
    if run.len() == 0 {
        0
    } else {
        millis_in(run.drop_last()) + (match run.last() {
            Happening::Event(_) => 0nat,
            Happening::Look { millis, .. } => millis as nat,
        })
    }
}

/// The account after all that.
pub open spec fn after_run(s: Session, run: Seq<Happening>) -> Session
    decreases run.len(),
{
    if run.len() == 0 {
        s
    } else {
        let before = after_run(s, run.drop_last());
        match run.last() {
            Happening::Event(event) => before.after(event),
            Happening::Look { millis, black, start_check } => before.checked(
                millis as nat,
                black,
                start_check as nat,
            ),
        }
    }
}

/// Whether no look came before its time.
pub open spec fn looks_are_due(run: Seq<Happening>) -> bool
    decreases run.len(),
{
    run.len() > 0 ==> looks_are_due(run.drop_last()) && (run.last() matches Happening::Look {
        millis,
        ..
    } ==> millis >= CHECK_MILLIS)
}

/// What was sent to one side, in the order in which it was sent.
pub open spec fn sent_to(s: Session, run: Seq<Happening>, to: Side) -> Seq<Seq<u8>>
    decreases run.len(),
{
    if run.len() == 0 {
        seq![]
    } else {
        let sent = sent_to(s, run.drop_last(), to);
        match run.last() {
            Happening::Event(event) => match after_run(s, run.drop_last()).step(event) {
                StepView::Pass { send: Some(d), .. } => if d.to == to {
                    sent.push(d.bytes)
                } else {
                    sent
                },
                _ => sent,
            },
            Happening::Look { .. } => sent,
        }
    }
}

/// What one side has sent, in the order in which it came, without messages that have no bytes.
pub open spec fn received_from(run: Seq<Happening>, side: Side) -> Seq<Seq<u8>>
    decreases run.len(),
{
    if run.len() == 0 {
        seq![]
    } else {
        let received = received_from(run.drop_last(), side);
        match run.last() {
            Happening::Event(EventView::Received { from, bytes }) => if from == side && bytes.len()
                > 0 {
                received.push(bytes)
            } else {
                received
            },
            _ => received,
        }
    }
}

/// What the looks have reported, in turn.
pub open spec fn reports_in(s: Session, run: Seq<Happening>) -> Seq<Usage>
    decreases run.len(),
{
    if run.len() == 0 {
        seq![]
    } else {
        let reports = reports_in(s, run.drop_last());
        match run.last() {
            Happening::Event(_) => reports,
            Happening::Look { millis, black, start_check } => reports.push(
                after_run(s, run.drop_last()).report(millis as nat, black, start_check as nat),
            ),
        }
    }
}

/// Whatever happens to a pair, in whatever order: each side is sent what the other one has sent,
/// byte for byte, in the same order and each message once, and nothing goes back to the side that
/// it came from. Messages without bytes are not sent on.
pub proof fn bytes_go_across(s: Session, run: Seq<Happening>, side: Side)
    ensures
        sent_to(s, run, side) == received_from(run, side.other()),
    decreases run.len(),
{
    if run.len() > 0 {
        bytes_go_across(s, run.drop_last(), side);
    }
}

/// Whatever happens to a pair, in whatever order: what went through is the bits of all messages,
/// the time is that between the looks, a pair that is slowed down stays so, and the highest speed
/// does not decrease; as long as the bits and the time fit.
pub proof fn the_account_is_right(s: Session, run: Seq<Happening>)
    requires
        s.wf(),
        s.total + bits_in(run) <= usize::MAX,
        s.elapsed + millis_in(run) <= usize::MAX,
        looks_are_due(run),
    ensures
        after_run(s, run).wf(),
        after_run(s, run).total == s.total + bits_in(run),
        after_run(s, run).elapsed == s.elapsed + millis_in(run),
        after_run(s, run).threshold == s.threshold,
        s.downgraded ==> after_run(s, run).downgraded,
        s.highest <= after_run(s, run).highest,
    decreases run.len(),
{
    if run.len() > 0 {
        the_account_is_right(s, run.drop_last());
        let before = after_run(s, run.drop_last());
        match run.last() {
            Happening::Event(event) => {},
            Happening::Look { millis, black, start_check } => {
                lemma_speed(before.recent as int, millis as int);
            },
        }
    }
}

proof fn lemma_speed(bits: int, millis: int)
    requires
        bits >= 0,
        millis >= 1000,
    ensures
        0 <= bits / millis <= bits,
        (bits / millis) * millis <= bits,
{
    let q = bits / millis;
    assert(0 <= q <= bits && q * millis <= bits) by (nonlinear_arith)
        requires
            q == bits / millis,
            millis >= 1000,
            bits >= 0,
    ;
}

/// Whether a report is one that may come next after these.
pub open spec fn is_next_report(earlier: Seq<Usage>, usage: Usage) -> bool {
    &&& usage.elapsed >= CHECK_MILLIS
    &&& usage.speed <= usage.highest
    &&& usage.total as int / usage.elapsed as int <= usage.highest
    &&& forall|k: int| 0 <= k < earlier.len() ==> (#[trigger] earlier[k]).speed <= usage.highest
    &&& usage.highest == usage.speed || exists|k: int|
        0 <= k < earlier.len() && (#[trigger] earlier[k]).speed == usage.highest
    &&& earlier.len() > 0 ==> {
        &&& usage.elapsed >= earlier.last().elapsed + CHECK_MILLIS
        &&& usage.total >= earlier.last().total
        &&& usage.highest >= earlier.last().highest
    }
}

/// What went through up to the last look would not have taken that long at a speed above the
/// highest one.
spec fn keeps_below(s: Session) -> bool {
    if s.elapsed == 0 {
        s.total == s.recent
    } else {
        s.total - s.recent < (s.highest + 1) * s.elapsed
    }
}

/// One look does not raise the average above the highest speed.
proof fn lemma_average(s: Session, millis: nat, black: bool, start_check: nat)
    requires
        s.wf(),
        keeps_below(s),
        millis >= CHECK_MILLIS,
        s.elapsed + millis <= usize::MAX,
    ensures
        keeps_below(s.checked(millis, black, start_check)),
        ({
            let usage = s.report(millis, black, start_check);
            usage.total as int / usage.elapsed as int <= usage.highest
        }),
{
    lemma_speed(s.recent as int, millis as int);
    let after = s.checked(millis, black, start_check);
    let old_bits = s.total - s.recent;
    let bits = s.recent as int;
    let m = millis as int;
    let e = s.elapsed as int;
    let speed = bits / m;
    let low = s.highest as int;
    let high = after.highest as int;
    let total = s.total as int;
    assert(bits < (speed + 1) * m) by (nonlinear_arith)
        requires
            speed == bits / m,
            m >= 1000,
    ;
    assert((speed + 1) * m <= (high + 1) * m) by (nonlinear_arith)
        requires
            speed <= high,
            m >= 1000,
    ;
    assert((low + 1) * e <= (high + 1) * e) by (nonlinear_arith)
        requires
            low <= high,
            e >= 0,
    ;
    assert((high + 1) * (e + m) == (high + 1) * e + (high + 1) * m) by (nonlinear_arith);
    assert((high + 1) * e >= 0) by (nonlinear_arith)
        requires
            high >= 0,
            e >= 0,
    ;
    assert(total < (high + 1) * (e + m));
    let q = total / (e + m);
    assert(q <= high) by (nonlinear_arith)
        requires
            q == total / (e + m),
            e + m >= 1000,
            total < (high + 1) * (e + m),
    ;
}

/// What holds of the account and the reports after any run of a new pair.
proof fn lemma_reports(s: Session, run: Seq<Happening>)
    requires
        s.elapsed == 0 && s.total == 0 && s.recent == 0 && s.highest == 0,
        bits_in(run) <= usize::MAX,
        millis_in(run) <= usize::MAX,
        looks_are_due(run),
    ensures
        ({
            let after = after_run(s, run);
            let reports = reports_in(s, run);
            &&& keeps_below(after)
            &&& forall|k: int| 0 <= k < reports.len() ==> (#[trigger] reports[k]).speed
                <= after.highest
            &&& reports.len() == 0 ==> after.highest == 0 && after.elapsed == 0
            &&& reports.len() > 0 ==> {
                &&& exists|k: int|
                    0 <= k < reports.len() && (#[trigger] reports[k]).speed == after.highest
                &&& reports.last().elapsed == after.elapsed
                &&& reports.last().highest == after.highest
                &&& reports.last().total <= after.total
            }
            &&& run.len() > 0 && run.last() is Look ==> is_next_report(
                reports.drop_last(),
                reports.last(),
            )
        }),
    decreases run.len(),
{
    if run.len() > 0 {
        let rest = run.drop_last();
        lemma_reports(s, rest);
        the_account_is_right(s, rest);
        the_account_is_right(s, run);
        let before = after_run(s, rest);
        let after = after_run(s, run);
        let earlier = reports_in(s, rest);
        let reports = reports_in(s, run);
        match run.last() {
            Happening::Event(event) => {},
            Happening::Look { millis, black, start_check } => {
                let m = millis as nat;
                let c = start_check as nat;
                let usage = before.report(m, black, c);
                lemma_average(before, m, black, c);
                reports_only_grow(before, m, black, c);
                assert(reports == earlier.push(usage));
                assert(reports.drop_last() =~= earlier);
                assert(reports[earlier.len() as int] == usage);
                assert forall|k: int| 0 <= k < reports.len() implies (#[trigger] reports[k]).speed
                    <= after.highest by {
                    if k < earlier.len() {
                        assert(reports[k] == earlier[k]);
                    }
                }
                if usage.highest != usage.speed {
                    let k = choose|k: int|
                        0 <= k < earlier.len() && (#[trigger] earlier[k]).speed == before.highest;
                    assert(reports[k].speed == after.highest);
                    assert(earlier[k].speed == usage.highest);
                }
            },
        }
    }
}

/// Every report on a new pair, whatever happened before it and in whatever order: the last one
/// gives all bits of the messages and all milliseconds between the looks so far; the speed and the
/// average speed are not above the highest one, and the highest one is the largest of all speeds
/// reported so far; and from one report to the next the time grows by what lies between two looks
/// at least, while what went through and the highest speed never decrease. All this as long as the
/// bits and the time fit.
pub proof fn every_report_is_right(s: Session, run: Seq<Happening>)
    requires
        s.elapsed == 0 && s.total == 0 && s.recent == 0 && s.highest == 0,
        bits_in(run) <= usize::MAX,
        millis_in(run) <= usize::MAX,
        looks_are_due(run),
    ensures
        ({
            let reports = reports_in(s, run);
            &&& run.len() > 0 && run.last() is Look ==> reports.len() > 0 && reports.last().total
                == bits_in(run) && reports.last().elapsed == millis_in(run)
            &&& forall|i: int|
                0 <= i < reports.len() ==> is_next_report(reports.take(i), #[trigger] reports[i])
        }),
    decreases run.len(),
{
    if run.len() > 0 {
        let rest = run.drop_last();
        let earlier = reports_in(s, rest);
        let reports = reports_in(s, run);
        every_report_is_right(s, rest);
        lemma_reports(s, run);
        the_account_is_right(s, run);
        assert forall|i: int| 0 <= i < reports.len() implies is_next_report(
            reports.take(i),
            #[trigger] reports[i],
        ) by {
            if i < earlier.len() {
                assert(reports.take(i) =~= earlier.take(i));
                assert(reports[i] == earlier[i]);
            } else {
                assert(reports.take(i) =~= reports.drop_last());
            }
        }
    }
}

/// A pair that was slowed down for good stays so, and its messages pass at the slow speed.
pub proof fn downgrade_is_for_good(
    s: Session,
    event: EventView,
    millis: nat,
    black: bool,
    start_check: nat,
    from: Side,
    bytes: Seq<u8>,
)
    requires
        s.downgraded,
    ensures
        s.after(event).downgraded,
        s.checked(millis, black, start_check).downgraded,
        !s.slows_down(millis, start_check),
        s.step(EventView::Received { from, bytes }) matches StepView::Pass { slow, .. } && slow,
{
}

/// A look at a pair that has not been relayed for longer than `start_check` does not slow it down
/// for good: unless its address is on the blacklist, its messages pass at the normal speed.
pub proof fn young_pairs_are_left_alone(
    s: Session,
    millis: nat,
    start_check: nat,
    from: Side,
    bytes: Seq<u8>,
)
    requires
        !s.downgraded,
        s.elapsed + millis <= start_check,
    ensures
        ({
            let after = s.checked(millis, false, start_check);
            &&& !after.downgraded
            &&& after.step(EventView::Received { from, bytes }) matches StepView::Pass {
                slow,
                ..
            } && !slow
        }),
{
}

/// An address on the blacklist has its messages pass at the slow speed from the next look on; one
/// that is not on it any more has them pass at the normal speed again, unless it was slowed down
/// for good.
pub proof fn the_blacklist_slows_down(
    s: Session,
    millis: nat,
    start_check: nat,
    from: Side,
    bytes: Seq<u8>,
)
    ensures
        s.checked(millis, true, start_check).step(
            EventView::Received { from, bytes },
        ) matches StepView::Pass { slow, .. } && slow,
        s.checked(millis, false, start_check).step(
            EventView::Received { from, bytes },
        ) matches StepView::Pass { slow, .. } && slow == (s.downgraded || s.slows_down(millis, start_check)),
{
}

/// Every look reports a speed that is not above the highest one, and the highest one, the time
/// and what went through never decrease.
pub proof fn reports_only_grow(s: Session, millis: nat, black: bool, start_check: nat)
    requires
        s.wf(),
        millis >= CHECK_MILLIS,
        s.elapsed + millis <= usize::MAX,
    ensures
        ({
            let after = s.checked(millis, black, start_check);
            let usage = s.report(millis, black, start_check);
            &&& usage.speed <= usage.highest
            &&& usage.speed * millis <= s.recent
            &&& s.highest <= after.highest
            &&& s.elapsed < after.elapsed
            &&& after.total == s.total
            &&& after.wf()
        }),
{
    lemma_speed(s.recent as int, millis as int);
}

/// After whatever has happened to a pair, a tick of the clock ends relaying with a timeout exactly
/// where nothing was received for more than 30 seconds; otherwise relaying goes on. It does not
/// matter what was relayed before, at which speed, or what the lists say, and the account of the
/// pair stays as it is.
pub proof fn only_silence_times_out(s: Session, run: Seq<Happening>, idle: u64)
    ensures
        after_run(s, run).step(EventView::Tick(idle)) is TimedOut <==> idle > 30,
        after_run(s, run).step(EventView::Tick(idle)) is Proceed <==> idle <= 30,
        after_run(s, run).after(EventView::Tick(idle)) == after_run(s, run),
{
}

/// Relaying ends without a timeout exactly where one side is gone, and something passes exactly
/// where something was received: eight bits for each byte, all of it to the other side, and slowly
/// exactly where the pair is slowed down for good or was on the blacklist at the last look. What
/// passes is what is counted, and nothing else in the account changes.
pub proof fn every_event_is_answered(s: Session, run: Seq<Happening>, event: EventView)
    requires
        s.wf(),
        looks_are_due(run),
        s.total + bits_in(run.push(Happening::Event(event))) <= usize::MAX,
        s.elapsed + millis_in(run) <= usize::MAX,
    ensures
        ({
            let now = after_run(s, run);
            let next = now.after(event);
            &&& now.step(event) is Finish <==> event is Ended
            &&& now.step(event) is Pass <==> event is Received
            &&& event matches EventView::Received { from, bytes } ==> {
                &&& now.step(event) matches StepView::Pass { bits, slow, send } && bits == 8
                    * bytes.len() && (slow <==> now.blacked || now.downgraded) && (send is None
                    <==> bytes.len() == 0) && (send matches Some(d) ==> d.to != from && d.bytes
                    == bytes)
                &&& next.total == now.total + 8 * bytes.len()
                &&& next.recent == now.recent + 8 * bytes.len()
            }
            &&& next.elapsed == now.elapsed && next.highest == now.highest
            &&& next.downgraded == now.downgraded && next.blacked == now.blacked
            &&& next.threshold == now.threshold
            &&& !(event is Received) ==> next == now
        }),
{
    let all = run.push(Happening::Event(event));
    assert(all.drop_last() =~= run);
    the_account_is_right(s, run);
}

/// What a look that counts comes to: the time goes on by what has passed, what went through since
/// the last look is set back, and the speed is that of the bits since then, rounded down. A pair
/// is slowed down for good exactly where it was already, or has now been relayed for longer than
/// `start_check` and, over all that time, faster than the threshold.
pub proof fn a_look_is_right(s: Session, millis: nat, black: bool, start_check: nat)
    requires
        s.wf(),
        millis >= 1000,
        s.elapsed + millis <= usize::MAX,
    ensures
        ({
            let after = s.checked(millis, black, start_check);
            let usage = s.report(millis, black, start_check);
            &&& after.elapsed == s.elapsed + millis
            &&& after.total == s.total
            &&& after.recent == 0
            &&& after.threshold == s.threshold
            &&& after.blacked == black
            &&& after.downgraded <==> s.downgraded || (s.elapsed + millis > start_check && s.total
                > (s.elapsed + millis) * s.threshold)
            &&& s.slows_down(millis, start_check) <==> after.downgraded && !s.downgraded
            &&& usage.speed * millis <= s.recent < (usage.speed + 1) * millis
            &&& after.highest >= s.highest && after.highest >= usage.speed
            &&& after.highest == s.highest || after.highest == usage.speed
            &&& usage.elapsed == after.elapsed && usage.total == s.total && usage.highest
                == after.highest
        }),
{
    lemma_speed(s.recent as int, millis as int);
    let bits = s.recent as int;
    let m = millis as int;
    let speed = bits / m;
    assert(bits < (speed + 1) * m) by (nonlinear_arith)
        requires
            speed == bits / m,
            m >= 1000,
    ;
}

/// Bits are counted as long as their number fits, and a look is taken into account as long as the
/// time fits and, where a pair might be slowed down, what the threshold comes to over that time.
pub proof fn there_is_room_for_all_that_fits(
    s: Session,
    len: nat,
    millis: nat,
    start_check: nat,
)
    ensures
        s.can_count(len) <==> s.total + 8 * len <= usize::MAX,
        s.can_check(millis, start_check) <==> s.elapsed + millis <= usize::MAX && (s.downgraded
            || s.elapsed + millis <= start_check || (s.elapsed + millis) * s.threshold
            <= usize::MAX),
{
}

} // verus!
