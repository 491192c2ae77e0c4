//! `Msk144Controller`: MSK144, the meteor-scatter mode, receive only.
//!
//! Slotted like FT8, but the slot is hunted rather than read at a fixed offset:
//! an operator transmits through the whole 15-second period, so the decoder
//! slides a window across it looking for the short bursts a meteor trail
//! leaves. There is no QSO sequencer and no transmit.
//!
//! The controller decides and the caller acts. A full-slot scan is far from
//! free, so it runs on a worker: [`Msk144Controller::poll`] hands out the slot
//! to decode and takes the answers. One slot is in flight at a time: a machine
//! that cannot keep up must drop a slot rather than fall a slot further behind
//! every fifteen seconds.
use std::sync::Arc;
use vstd::prelude::*;
use crate::fixed::ONE;
use crate::modem::{decode_views, Decode, DecodeView, Mode};

verus! {

/// Seconds in a slot.
pub const SLOT_S: i64 = 15;

/// Samples in a slot, at 12 kHz.
pub const SLOT_SAMPLES: usize = 180_000;

/// How many samples of a slot are kept.
pub const SLOT_CAP: usize = 202_500;

/// How many samples a slot has to have: half of it. Less than that is a stream
/// hiccup, not a transmission.
pub const MIN_SAMPLES: usize = 90_000;

/// The lowest position of the audio cursor: 200 Hz.
pub const AUDIO_LOW: i64 = 858_993_459_200;

/// The highest position of the audio cursor: 3500 Hz.
pub const AUDIO_HIGH: i64 = 15_032_385_536_000;

/// Where the audio cursor starts: 1500 Hz up from the dial, MSK144's usual
/// working frequency.
pub const AUDIO_USUAL: i64 = 6_442_450_944_000;

/// One slot of audio for the decode worker.
#[derive(Debug)]
pub struct DecodeJob {
    /// The slot's audio, at 12 kHz.
    pub audio: Vec<i16>,
    /// The audio cursor when the slot ended: the centre the decoder searches.
    pub audio_hz: i64,
    /// When the slot began, in seconds since 1970.
    pub slot_utc: i64,
}

/// What a slot hands to the worker, over its samples.
pub struct Job {
    pub audio: Seq<i16>,
    pub audio_hz: int,
    pub slot_utc: int,
}

/// How far a contact has got.
#[derive(Debug, Clone, Copy, PartialEq, Eq, Structural)]
pub enum QsoStep {
    /// No contact is under way, which is all a receiver without a sequencer
    /// ever says.
    Idle,
}

/// What the panel shows of the receiver.
#[derive(Debug)]
pub struct DigiStatus<C> {
    /// The configuration in force.
    pub config: Arc<C>,
    pub mode: Mode,
    pub step: QsoStep,
    /// Where the audio cursor is.
    pub audio_hz: i64,
}

/// What the caller is to do.
#[derive(Debug)]
pub enum DigiAction<C> {
    /// Show these decodes.
    Decodes(Vec<Decode>),
    /// Show this status.
    Status(DigiStatus<C>),
}

/// What the panel shows of the receiver, over integers.
#[verifier::ext_equal]
pub struct StatusView<C> {
    pub config: C,
    pub mode: Mode,
    pub step: QsoStep,
    pub audio_hz: int,
}

impl<C> View for DigiStatus<C> {
    type V = StatusView<C>;

    open spec fn view(&self) -> StatusView<C> {
        StatusView {
            config: *self.config,
            mode: self.mode,
            step: self.step,
            audio_hz: self.audio_hz as int,
        }
    }
}

/// What the caller is to do, over the decodes.
pub enum Action<C> {
    Decodes(Seq<DecodeView>),
    Status(StatusView<C>),
}

impl<C> View for DigiAction<C> {
    type V = Action<C>;

    open spec fn view(&self) -> Action<C> {
        match self {
            DigiAction::Decodes(ds) => Action::Decodes(decode_views(ds@)),
            DigiAction::Status(status) => Action::Status(status@),
        }
    }
}

/// The actions of a list, over their decodes.
pub open spec fn action_views<C>(v: Seq<DigiAction<C>>) -> Seq<Action<C>> {
    v.map_values(|a: DigiAction<C>| a@)
}

/// The decodes of each of a list of answers.
pub open spec fn reply_views(v: Seq<Vec<Decode>>) -> Seq<Seq<DecodeView>> {
    v.map_values(|ds: Vec<Decode>| decode_views(ds@))
}

/// What a controller remembers.
#[verifier::ext_equal]
pub struct State<C> {
    /// The configuration.
    pub config: C,
    /// The audio of the slot in progress.
    pub buf: Seq<i16>,
    /// Whether that audio began at a slot boundary.
    pub aligned: bool,
    /// The slot of the last look at the clock.
    pub slot: Option<int>,
    /// The audio cursor.
    pub audio_hz: int,
    /// Whether a slot is with the worker.
    pub pending: bool,
    /// How many decodes the last slot gave.
    pub count: u32,
    /// Whether the status is to be shown again.
    pub dirty: bool,
}

/// A state as a controller can be in: no more audio than is kept, and the audio
/// cursor in its range.
pub open spec fn in_order<C>(s: State<C>) -> bool {
    s.buf.len() <= SLOT_CAP && AUDIO_LOW <= s.audio_hz <= AUDIO_HIGH
}

/// The state of a new controller.
pub open spec fn fresh<C>(config: C) -> State<C> {
    State {
        config,
        buf: seq![],
        aligned: false,
        slot: None,
        audio_hz: AUDIO_USUAL as int,
        pending: false,
        count: 0,
        dirty: true,
    }
}

/// `buf` with as much of `more` as there is room for.
pub open spec fn filled(buf: Seq<i16>, more: Seq<i16>) -> Seq<i16> {
    let room = SLOT_CAP - buf.len();
    if room <= 0 {
        buf
    } else if more.len() <= room {
        buf + more
    } else {
        buf + more.take(room)
    }
}

/// A state after the worker's answers, and the news that it is gone. Without a
/// worker no answer is coming, so the slot it had is released: holding on to it
/// would stop every later slot being handed out.
pub open spec fn answered<C>(s: State<C>, replies: Seq<Seq<DecodeView>>, gone: bool) -> State<C> {
    State {
        pending: s.pending && replies.len() == 0 && !gone,
        count: if replies.len() > 0 {
            replies.last().len() as u32
        } else {
            s.count
        },
        dirty: s.dirty || replies.len() > 0,
        ..s
    }
}

/// The answers that have anything in them, to be shown.
pub open spec fn shown<C>(replies: Seq<Seq<DecodeView>>) -> Seq<Action<C>>
    decreases replies.len(),
{
    if replies.len() == 0 {
        seq![]
    } else {
        let before = shown::<C>(replies.drop_last());
        if replies.last().len() > 0 {
            before.push(Action::Decodes(replies.last()))
        } else {
            before
        }
    }
}

/// Which slot a moment lies in.
pub open spec fn slot_index(now: int) -> int {
    now / SLOT_S as int
}

/// Whether a slot is handed out: it ended just now, its audio began on its own
/// boundary and is long enough, and no other slot is with the worker.
pub open spec fn hands_out<C>(s: State<C>, now: int) -> bool {
    &&& s.slot != Some(slot_index(now))
    &&& s.aligned
    &&& s.buf.len() >= MIN_SAMPLES
    &&& !s.pending
}

/// The slot that is handed out: the one before this boundary.
pub open spec fn job_of<C>(s: State<C>, now: int) -> Option<Job> {
    if hands_out(s, now) {
        Some(
            Job {
                audio: s.buf,
                audio_hz: s.audio_hz,
                slot_utc: (slot_index(now) - 1) * SLOT_S,
            },
        )
    } else {
        None
    }
}

/// A state after a look at the clock. The very first look is not a boundary
/// crossing, only the first look, part-way through a slot.
pub open spec fn clocked<C>(s: State<C>, now: int) -> State<C> {
    if s.slot != Some(slot_index(now)) {
        State {
            buf: seq![],
            aligned: s.slot is Some,
            slot: Some(slot_index(now)),
            pending: s.pending || hands_out(s, now),
            ..s
        }
    } else {
        s
    }
}

/// The status: an idle MSK144 receiver with its configuration and its cursor.
pub open spec fn status_of<C>(s: State<C>) -> StatusView<C> {
    StatusView {
        config: s.config,
        mode: Mode::Msk144,
        step: QsoStep::Idle,
        audio_hz: s.audio_hz,
    }
}

/// The status, where it is to be shown again.
pub open spec fn status_shown<C>(s: State<C>) -> Seq<Action<C>> {
    if s.dirty {
        seq![Action::Status(status_of(s))]
    } else {
        seq![]
    }
}

/// A state after received audio, as far as there is room for it.
pub open spec fn received<C>(s: State<C>, tap: Seq<i16>) -> State<C> {
    State { buf: filled(s.buf, tap), ..s }
}

/// A state after the worker did not take a slot.
pub open spec fn untaken<C>(s: State<C>) -> State<C> {
    State { pending: false, ..s }
}

/// A state after a reset.
pub open spec fn aborted<C>(s: State<C>) -> State<C> {
    State { buf: seq![], aligned: false, dirty: true, ..s }
}

/// A state after the last slot's decodes are forgotten.
pub open spec fn cleared<C>(s: State<C>) -> State<C> {
    State { count: 0, dirty: true, ..s }
}

/// A state after a move of the audio cursor.
pub open spec fn moved<C>(s: State<C>, hz: int) -> State<C> {
    State { audio_hz: cursor(hz), dirty: true, ..s }
}

/// What the caller is to do after a turn.
pub open spec fn turn_actions<C>(
    s: State<C>,
    replies: Seq<Seq<DecodeView>>,
    gone: bool,
) -> Seq<Action<C>> {
    shown::<C>(replies) + status_shown(answered(s, replies, gone))
}

/// The slot that a turn hands out.
pub open spec fn turn_job<C>(
    s: State<C>,
    replies: Seq<Seq<DecodeView>>,
    gone: bool,
    now: int,
) -> Option<Job> {
    job_of(answered(s, replies, gone), now)
}

/// A state after a turn.
pub open spec fn after_turn<C>(
    s: State<C>,
    replies: Seq<Seq<DecodeView>>,
    gone: bool,
    now: int,
) -> State<C> {
    State { dirty: false, ..clocked(answered(s, replies, gone), now) }
}

/// A state after a change of configuration. The slot in progress no longer
/// counts as begun on its boundary.
pub open spec fn configured<C>(s: State<C>, config: C) -> State<C> {
    State { config, aligned: false, dirty: true, ..s }
}

/// A position of the audio cursor, held within its range.
pub open spec fn cursor(hz: int) -> int {
    if hz < AUDIO_LOW {
        AUDIO_LOW as int
    } else if hz > AUDIO_HIGH {
        AUDIO_HIGH as int
    } else {
        hz
    }
}

/// The same job, over its samples.
pub open spec fn same_job(j: Option<DecodeJob>, k: Option<Job>) -> bool {
    match j {
        Some(j) => k is Some && j.audio@ == k->0.audio && j.audio_hz == k->0.audio_hz && j.slot_utc
            == k->0.slot_utc,
        None => k is None,
    }
}

/// The MSK144 receiver.
pub struct Msk144Controller<C> {
    cfg: Arc<C>,
    /// 12 kHz audio accumulated for the slot in progress.
    slot_buf: Vec<i16>,
    /// Whether `slot_buf` began at a slot boundary. It does not after a start,
    /// a reset or a config change part-way through a slot, and a buffer that
    /// began mid-slot puts every burst at the wrong time into it, so such a slot
    /// is dropped rather than decoded.
    buf_aligned: bool,
    last_slot_idx: Option<i64>,
    /// Where the operator's audio cursor sits: the centre the decoder searches,
    /// the readout and the passband marker.
    audio_hz: i64,
    /// A slot dispatched but not yet answered.
    pending: bool,
    /// How many decodes the last completed slot gave.
    last_count: u32,
    status_dirty: bool,
}

impl<C> View for Msk144Controller<C> {
    type V = State<C>;

    closed spec fn view(&self) -> State<C> {
        State {
            config: *self.cfg,
            buf: self.slot_buf@,
            aligned: self.buf_aligned,
            slot: match self.last_slot_idx {
                Some(i) => Some(i as int),
                None => None,
            },
            audio_hz: self.audio_hz as int,
            pending: self.pending,
            count: self.last_count,
            dirty: self.status_dirty,
        }
    }
}

impl<C> Msk144Controller<C> {
    /// A controller that has not looked at the clock yet.
    pub fn new(cfg: C) -> (r: Self)
        ensures
            r@ == fresh(cfg),
    {
        let r = Msk144Controller {
            cfg: Arc::new(cfg),
            slot_buf: Vec::new(),
            buf_aligned: false,
            last_slot_idx: None,
            audio_hz: AUDIO_USUAL,
            pending: false,
            last_count: 0,
            status_dirty: true,
        };
        assert(r@ =~= fresh(cfg));
        r
    }

    /// The controller's mode.
    pub fn mode(&self) -> (r: Mode)
        ensures
            r == Mode::Msk144,
    {
        Mode::Msk144
    }

    /// Samples in a slot.
    pub fn slot_samples(&self) -> (r: usize)
        ensures
            r == SLOT_SAMPLES,
    {
        SLOT_SAMPLES
    }

    /// Take in received audio, as far as the slot in progress has room.
    pub fn on_rx_audio(&mut self, tap: &[i16])
        ensures
            final(self)@ == received(old(self)@, tap@),
    {
        let cap: usize = self.slot_samples() + self.slot_samples() / 8;
        let ghost start = self@;
        let mut i: usize = 0;
        while i < tap.len() && self.slot_buf.len() < cap
            invariant
                cap == SLOT_CAP,
                i <= tap@.len(),
                i > 0 ==> start.buf.len() + i <= SLOT_CAP,
                self@ == (State { buf: start.buf + tap@.take(i as int), ..start }),
            decreases tap@.len() - i,
        {
            self.slot_buf.push(tap[i]);
            i = i + 1;
            assert(self@.buf =~= start.buf + tap@.take(i as int));
        }
        assert(tap@.take(tap@.len() as int) =~= tap@);
        assert(start.buf + tap@.take(0) =~= start.buf);
        assert(self@.buf =~= filled(start.buf, tap@));
    }

    /// One turn: take the worker's answers, and hand out the slot that just
    /// ended if it is worth decoding. `now` is the time in seconds since 1970.
    ///
    /// The caller carries out the actions and gives the job to the worker, and
    /// calls [`Msk144Controller::on_send_failed`] if that fails.
    pub fn poll(&mut self, replies: Vec<Vec<Decode>>, gone: bool, now: i64) -> (r: (
        Vec<DigiAction<C>>,
        Option<DecodeJob>,
    ))
        requires
            now >= i64::MIN + 2 * SLOT_S,
        ensures
            action_views(r.0@) == turn_actions(old(self)@, reply_views(replies@), gone),
            same_job(r.1, turn_job(old(self)@, reply_views(replies@), gone, now as int)),
            final(self)@ == after_turn(old(self)@, reply_views(replies@), gone, now as int),
    {
        let ghost start = self@;
        let ghost s = answered(start, reply_views(replies@), gone);
        // 1. Drain the worker.
        let mut actions: Vec<DigiAction<C>> = self.take_answers(replies);
        if gone {
            self.pending = false;
        }
        assert(self@ =~= s);

        // 2. Slot boundary: hand out the completed slot.
        let idx: i64 = floor_slot(now);
        let mut job: Option<DecodeJob> = None;
        let boundary: bool = match self.last_slot_idx {
            Some(last) => idx != last,
            None => true,
        };
        if boundary {
            let mut ended: Vec<i16> = Vec::new();
            std::mem::swap(&mut ended, &mut self.slot_buf);
            if self.buf_aligned && ended.len() >= self.slot_samples() / 2 && !self.pending {
                // The slot that just ended is the one before this boundary.
                job = Some(
                    DecodeJob {
                        audio: ended,
                        audio_hz: self.audio_hz,
                        slot_utc: (idx - 1) * SLOT_S,
                    },
                );
                self.pending = true;
            }
            self.buf_aligned = self.last_slot_idx.is_some();
            self.last_slot_idx = Some(idx);
        }
        assert(self@ =~= clocked(s, now as int));
        if self.status_dirty {
            self.status_dirty = false;
            let ghost before = actions@;
            actions.push(DigiAction::Status(self.status()));
            assert(action_views(actions@) =~= action_views(before) + status_shown(s));
        } else {
            assert(action_views(actions@) =~= action_views(actions@) + status_shown(s));
        }
        assert(self@ =~= (State { dirty: false, ..clocked(s, now as int) }));
        (actions, job)
    }

    /// Take the worker's answers.
    fn take_answers(&mut self, replies: Vec<Vec<Decode>>) -> (r: Vec<DigiAction<C>>)
        ensures
            action_views(r@) == shown::<C>(reply_views(replies@)),
            final(self)@ == answered(old(self)@, reply_views(replies@), false),
    {
        let ghost start = self@;
        let ghost rs = reply_views(replies@);
        let ghost n = replies@.len() as int;
        let mut actions: Vec<DigiAction<C>> = Vec::new();
        assert(action_views(actions@) =~= seq![]);
        assert(self@ =~= answered(start, rs.take(0), false));
        for decodes in it: replies
            invariant
                it.seq().len() == n,
                reply_views(it.seq()) == rs,
                action_views(actions@) == shown::<C>(rs.take(it.index() as int)),
                self@ == answered(start, rs.take(it.index() as int), false),
        {
            let ghost i = it.index() as int;
            let ghost before = actions@;
            assert(rs.take(i + 1).drop_last() =~= rs.take(i));
            assert(rs[i] == decode_views(decodes@));
            self.pending = false;
            self.last_count = decodes.len() as u32;
            self.status_dirty = true;
            if decodes.len() > 0 {
                actions.push(DigiAction::Decodes(decodes));
                assert(action_views(actions@) =~= action_views(before).push(
                    Action::Decodes(rs[i]),
                ));
            }
            assert(self@ =~= answered(start, rs.take(i + 1), false));
        }
        assert(rs.take(n) =~= rs);
        actions
    }

    /// The worker did not take the slot that was handed out.
    pub fn on_send_failed(&mut self)
        ensures
            final(self)@ == untaken(old(self)@),
    {
        self.pending = false;
        assert(self@ =~= (State { pending: false, ..old(self)@ }));
    }

    /// Whether a slot is with the worker.
    pub fn pending(&self) -> (r: bool)
        ensures
            r == self@.pending,
    {
        self.pending
    }

    /// How many decodes the last completed slot gave.
    pub fn last_count(&self) -> (r: u32)
        ensures
            r == self@.count,
    {
        self.last_count
    }

    /// There is no transmission.
    pub fn tx_burst_active(&self) -> (r: bool)
        ensures
            !r,
    {
        false
    }

    /// Forget the slot in progress.
    pub fn abort(&mut self)
        ensures
            final(self)@ == aborted(old(self)@),
    {
        self.slot_buf.clear();
        self.buf_aligned = false;
        self.status_dirty = true;
        assert(self@ =~= (State { buf: seq![], aligned: false, dirty: true, ..old(self)@ }));
    }

    /// Take a new configuration. The slot in progress is not decoded.
    pub fn set_config(&mut self, cfg: C)
        ensures
            final(self)@ == configured(old(self)@, cfg),
    {
        self.cfg = Arc::new(cfg);
        self.buf_aligned = false;
        self.status_dirty = true;
        assert(self@ =~= configured(old(self)@, cfg));
    }

    /// What the panel shows of the receiver.
    pub fn status(&self) -> (r: DigiStatus<C>)
        ensures
            r@ == status_of(self@),
    {
        DigiStatus {
            config: self.cfg.clone(),
            mode: Mode::Msk144,
            step: QsoStep::Idle,
            audio_hz: self.audio_hz,
        }
    }

    /// Forget the last slot's decodes.
    pub fn clear_rx(&mut self)
        ensures
            final(self)@ == cleared(old(self)@),
    {
        self.last_count = 0;
        self.status_dirty = true;
        assert(self@ =~= (State { count: 0, dirty: true, ..old(self)@ }));
    }

    /// Move the audio cursor, within its range.
    pub fn set_audio_hz(&mut self, hz: i64)
        ensures
            final(self)@ == moved(old(self)@, hz as int),
    {
        self.audio_hz = if hz < AUDIO_LOW {
            AUDIO_LOW
        } else if hz > AUDIO_HIGH {
            AUDIO_HIGH
        } else {
            hz
        };
        self.status_dirty = true;
        assert(self@ =~= (State { audio_hz: self.audio_hz as int, dirty: true, ..old(self)@ }));
    }

    /// Where the audio cursor is.
    pub fn audio_hz(&self) -> (r: i64)
        ensures
            r == self@.audio_hz,
    {
        self.audio_hz
    }
}

/// Which slot a moment lies in, rounding towards the past.
fn floor_slot(now: i64) -> (r: i64)
    requires
        now >= i64::MIN + 2 * SLOT_S,
    ensures
        r == slot_index(now as int),
        (r - 1) * SLOT_S >= i64::MIN,
{
    if now >= 0 {
        now / SLOT_S
    } else {
        -((-(now + 1)) / SLOT_S) - 1
    }
}

// ── What holds of the whole ─────────────────────────────────────────────────

/// A new controller is in order, and everything that happens to it keeps it so:
/// audio, a turn, a slot that was not taken, a reset, a change of configuration,
/// a cleared list, and a move of the cursor.
pub proof fn law_a_controller_stays_in_order<C>(
    s: State<C>,
    config: C,
    tap: Seq<i16>,
    replies: Seq<Seq<DecodeView>>,
    gone: bool,
    now: int,
    hz: int,
)
    requires
        in_order(s),
    ensures
        in_order(fresh(config)),
        in_order(received(s, tap)),
        in_order(after_turn(s, replies, gone, now)),
        in_order(untaken(s)),
        in_order(aborted(s)),
        in_order(configured(s, config)),
        in_order(cleared(s)),
        in_order(moved(s, hz)),
{
}

/// A slot is handed out only when its audio began on the slot's own boundary,
/// half of it or more is there, and the worker has nothing else: one slot is in
/// flight at a time.
pub proof fn law_only_whole_aligned_slots_are_handed_out<C>(s: State<C>, now: int)
    requires
        job_of(s, now) is Some,
    ensures
        s.aligned,
        s.buf.len() >= MIN_SAMPLES,
        !s.pending,
        clocked(s, now).pending,
        job_of(s, now)->0.audio == s.buf,
{
}

/// A slot that ends while the worker is busy is dropped, not kept for later.
pub proof fn law_a_busy_worker_drops_the_slot<C>(s: State<C>, now: int)
    requires
        s.pending,
        s.slot != Some(slot_index(now)),
    ensures
        job_of(s, now) is None,
        clocked(s, now).buf.len() == 0,
        clocked(s, now).pending,
{
}

/// The slot handed out is the one that ended last: it lies one period before
/// the moment's own.
pub proof fn law_the_slot_handed_out_just_ended<C>(s: State<C>, now: int)
    requires
        job_of(s, now) is Some,
    ensures
        job_of(s, now)->0.slot_utc + SLOT_S <= now < job_of(s, now)->0.slot_utc + 2 * SLOT_S,
        job_of(s, now)->0.slot_utc % SLOT_S as int == 0,
{
    let q = slot_index(now);
    assert(now == q * 15 + now % 15);
    assert((q - 1) * 15 % 15 == 0) by {
        vstd::arithmetic::div_mod::lemma_mod_multiples_basic(q - 1, 15);
    }
}

/// A period that a controller started, was reset or was configured in is not
/// handed out at its end, however much of it was heard.
pub proof fn law_a_partial_first_period_is_not_handed_out<C>(
    s: State<C>,
    config: C,
    tap: Seq<i16>,
    now: int,
)
    ensures
        job_of(received(fresh(config), tap), now) is None,
        job_of(received(clocked(State { slot: None, ..s }, now), tap), now + SLOT_S) is None,
        job_of(received(aborted(s), tap), now) is None,
        job_of(configured(s, config), now) is None,
        job_of(received(configured(s, config), tap), now) is None,
{
}

/// The configuration shown is the last one given, whatever else happens.
pub proof fn law_the_status_carries_the_configuration<C>(
    s: State<C>,
    config: C,
    replies: Seq<Seq<DecodeView>>,
    gone: bool,
    now: int,
)
    ensures
        status_of(fresh(config)).config == config,
        status_of(configured(s, config)).config == config,
        status_of(after_turn(s, replies, gone, now)).config == s.config,
{
}

/// A period heard from its boundary on is handed out at its end, if half of it
/// or more was heard and the worker is free.
pub proof fn law_a_whole_period_is_handed_out<C>(s: State<C>, now: int, tap: Seq<i16>)
    requires
        s.slot is Some,
        s.slot != Some(slot_index(now)),
        tap.len() >= MIN_SAMPLES,
        !clocked(s, now).pending,
    ensures
        ({
            let t = received(clocked(s, now), tap);
            &&& job_of(t, now + SLOT_S) is Some
            &&& job_of(t, now + SLOT_S)->0.slot_utc == slot_index(now) * SLOT_S
        }),
{
    assert(slot_index(now + SLOT_S) == slot_index(now) + 1);
}

/// A look at the clock within the same slot changes nothing.
pub proof fn law_within_a_slot_nothing_happens<C>(s: State<C>, now: int)
    requires
        s.slot == Some(slot_index(now)),
    ensures
        clocked(s, now) == s,
        job_of(s, now) is None,
{
}

/// Received audio is kept sample for sample: after what was there come the samples
/// given, in order, the whole of them where there is room and as many as fit
/// where there is not. Nothing else changes.
pub proof fn law_audio_is_kept_sample_for_sample<C>(s: State<C>, tap: Seq<i16>)
    requires
        in_order(s),
    ensures
        ({
            let t = received(s, tap);
            &&& s.buf.len() + tap.len() <= 202_500 ==> t.buf.len() == s.buf.len() + tap.len()
            &&& s.buf.len() + tap.len() > 202_500 ==> t.buf.len() == 202_500
            &&& forall|i: int| 0 <= i < s.buf.len() ==> #[trigger] t.buf[i] == s.buf[i]
            &&& forall|i: int|
                s.buf.len() <= i < t.buf.len() ==> #[trigger] t.buf[i] == tap[i - s.buf.len()]
            &&& t.config == s.config && t.aligned == s.aligned && t.slot == s.slot
            &&& t.audio_hz == s.audio_hz && t.pending == s.pending
            &&& t.count == s.count && t.dirty == s.dirty
        }),
{
}

/// A period heard from its boundary on is handed out as the samples that were
/// received in it, in order, from the moment it began and with the cursor where
/// it is.
pub proof fn law_the_audio_handed_out_is_the_audio_received<C>(
    s: State<C>,
    earlier: Seq<Seq<DecodeView>>,
    replies: Seq<Seq<DecodeView>>,
    gone: bool,
    now: int,
    later: int,
    a: Seq<i16>,
    b: Seq<i16>,
)
    requires
        s.slot is Some,
        !(s.slot->0 * 15 <= now < s.slot->0 * 15 + 15),
        now / 15 * 15 + 15 <= later < now / 15 * 15 + 30,
        90_000 <= a.len() + b.len() <= 202_500,
        replies.len() > 0 || gone || !after_turn(s, earlier, false, now).pending,
    ensures
        ({
            let t = received(received(after_turn(s, earlier, false, now), a), b);
            let job = turn_job(t, replies, gone, later);
            &&& job is Some
            &&& job->0.audio == a + b
            &&& job->0.slot_utc == now / 15 * 15
            &&& job->0.audio_hz == s.audio_hz
        }),
{
    let q = now / 15;
    assert(now == q * 15 + now % 15);
    assert(slot_index(later) == q + 1) by {
        assert(later == (q + 1) * 15 + (later - (q + 1) * 15));
        vstd::arithmetic::div_mod::lemma_fundamental_div_mod_converse(
            later,
            15,
            q + 1,
            later - (q + 1) * 15,
        );
    }
    let t = received(received(after_turn(s, earlier, false, now), a), b);
    assert(t.buf =~= a + b);
    assert(q * 15 == 15 * q);
}

/// A turn hands out a slot only at a boundary, and only one that began on its own,
/// of which half or more was heard, while the worker has no other; otherwise it
/// hands out none. A boundary is a look at the clock in another period of fifteen
/// seconds than the last look.
pub proof fn law_when_a_slot_is_handed_out<C>(
    s: State<C>,
    replies: Seq<Seq<DecodeView>>,
    gone: bool,
    now: int,
)
    ensures
        turn_job(s, replies, gone, now) is Some <==> {
            &&& s.slot is None || !(s.slot->0 * 15 <= now < s.slot->0 * 15 + 15)
            &&& s.aligned
            &&& s.buf.len() >= 90_000
            &&& !s.pending || replies.len() > 0 || gone
        },
        turn_job(s, replies, gone, now) is Some ==> {
            let job = turn_job(s, replies, gone, now)->0;
            &&& job.audio == s.buf
            &&& job.audio_hz == s.audio_hz
            &&& job.slot_utc % 15 == 0
            &&& job.slot_utc + 15 <= now < job.slot_utc + 30
        },
{
    let q = slot_index(now);
    assert(now == q * 15 + now % 15);
    if s.slot is Some {
        let p = s.slot->0;
        if p * 15 <= now < p * 15 + 15 {
            vstd::arithmetic::div_mod::lemma_fundamental_div_mod_converse(
                now,
                15,
                p,
                now - p * 15,
            );
        }
    }
    assert((q - 1) * 15 % 15 == 0) by {
        vstd::arithmetic::div_mod::lemma_mod_multiples_basic(q - 1, 15);
    }
}

/// A turn leaves the slot of the moment remembered and the status shown. At a
/// boundary the audio starts afresh, aligned unless it was the first look at the
/// clock; within a period it is left alone. The worker is busy afterwards where a
/// slot was handed out or no answer came for an earlier one.
pub proof fn law_what_a_turn_leaves<C>(
    s: State<C>,
    replies: Seq<Seq<DecodeView>>,
    gone: bool,
    now: int,
)
    ensures
        ({
            let t = after_turn(s, replies, gone, now);
            let within = s.slot is Some && s.slot->0 * 15 <= now < s.slot->0 * 15 + 15;
            &&& t.slot is Some && t.slot->0 * 15 <= now < t.slot->0 * 15 + 15
            &&& t.pending <==> turn_job(s, replies, gone, now) is Some || (s.pending
                && replies.len() == 0 && !gone)
            &&& within ==> t.buf == s.buf && t.aligned == s.aligned
            &&& !within ==> t.buf.len() == 0 && t.aligned == (s.slot is Some)
            &&& !t.dirty
            &&& t.config == s.config && t.audio_hz == s.audio_hz
            &&& replies.len() == 0 ==> t.count == s.count
            &&& replies.len() > 0 && replies.last().len() <= u32::MAX ==> t.count
                == replies.last().len()
        }),
{
    let q = slot_index(now);
    assert(now == q * 15 + now % 15);
    if s.slot is Some {
        let p = s.slot->0;
        if p * 15 <= now < p * 15 + 15 {
            vstd::arithmetic::div_mod::lemma_fundamental_div_mod_converse(
                now,
                15,
                p,
                now - p * 15,
            );
        }
    }
}

/// Answers are shown in the order they came, each as it is, the empty ones left
/// out; the status comes last, where an answer came or something had changed.
pub proof fn law_answers_are_shown_in_order<C>(
    s: State<C>,
    replies: Seq<Seq<DecodeView>>,
    last: Seq<DecodeView>,
    gone: bool,
)
    ensures
        turn_actions(State { dirty: false, ..s }, seq![], gone).len() == 0,
        turn_actions(State { dirty: true, ..s }, seq![], gone) == seq![
            Action::Status(status_of(s)),
        ],
        last.len() == 0 ==> turn_actions(s, replies.push(last), gone) == turn_actions(
            State { dirty: true, ..s },
            replies,
            gone,
        ),
        last.len() > 0 ==> ({
            let all = turn_actions(s, replies.push(last), gone);
            let before = turn_actions(State { dirty: true, ..s }, replies, gone);
            &&& all.len() == before.len() + 1
            &&& all.last() == before.last()
            &&& all[all.len() - 2] == Action::<C>::Decodes(last)
            &&& forall|i: int| 0 <= i < all.len() - 2 ==> #[trigger] all[i] == before[i]
        }),
{
    assert(replies.push(last).drop_last() =~= replies);
    assert(shown::<C>(seq![]) =~= seq![]);
    assert(turn_actions(State { dirty: false, ..s }, seq![], gone) =~= seq![]);
    assert(turn_actions(State { dirty: true, ..s }, seq![], gone) =~= seq![
        Action::Status(status_of(s)),
    ]);
}

/// The cursor is where it was put, where that is from 200 to 3500 Hz, and at the
/// nearer end of that range otherwise; nothing but the cursor moves. A new
/// controller's is at 1500 Hz.
pub proof fn law_the_cursor_is_where_it_was_put<C>(s: State<C>, config: C, hz: int)
    ensures
        ({
            let t = moved(s, hz);
            &&& 200 * ONE <= hz <= 3500 * ONE ==> t.audio_hz == hz
            &&& hz < 200 * ONE ==> t.audio_hz == 200 * ONE
            &&& hz > 3500 * ONE ==> t.audio_hz == 3500 * ONE
            &&& t.buf == s.buf && t.aligned == s.aligned && t.slot == s.slot
            &&& t.config == s.config && t.pending == s.pending && t.count == s.count
            &&& t.dirty
        }),
        fresh(config).audio_hz == 1500 * ONE,
        status_of(s).audio_hz == s.audio_hz,
        status_of(s).config == s.config,
        status_of(s).mode == Mode::Msk144,
{
}

/// A reset forgets the audio of the slot in progress, a change of configuration
/// replaces the configuration, a cleared list forgets the count, and a slot that
/// was not taken frees the worker. Each changes nothing else but what follows:
/// the slot in progress no longer counts as begun on its boundary, and the status
/// is shown again.
pub proof fn law_what_each_request_changes<C>(s: State<C>, config: C)
    ensures
        aborted(s).buf.len() == 0 && !aborted(s).aligned && aborted(s).dirty,
        aborted(s).slot == s.slot && aborted(s).audio_hz == s.audio_hz,
        aborted(s).pending == s.pending && aborted(s).count == s.count,
        aborted(s).config == s.config,
        configured(s, config).config == config && configured(s, config).dirty,
        !configured(s, config).aligned && configured(s, config).slot == s.slot,
        configured(s, config).audio_hz == s.audio_hz && configured(s, config).count == s.count,
        configured(s, config).pending == s.pending && configured(s, config).buf == s.buf,
        cleared(s).count == 0 && cleared(s).dirty && cleared(s).buf == s.buf,
        cleared(s).aligned == s.aligned && cleared(s).slot == s.slot,
        cleared(s).audio_hz == s.audio_hz && cleared(s).pending == s.pending,
        cleared(s).config == s.config,
        !untaken(s).pending && untaken(s).buf == s.buf && untaken(s).aligned == s.aligned,
        untaken(s).slot == s.slot && untaken(s).audio_hz == s.audio_hz,
        untaken(s).count == s.count && untaken(s).dirty == s.dirty,
        untaken(s).config == s.config,
        fresh(config).buf.len() == 0 && !fresh(config).aligned && fresh(config).slot is None,
        !fresh(config).pending && fresh(config).count == 0 && fresh(config).dirty,
{
}

/// A job is the slot that was to be handed out, its samples, its cursor and its
/// time; and none is handed out where none was to be.
pub proof fn law_a_job_is_the_slot_handed_out(j: Option<DecodeJob>, k: Option<Job>)
    requires
        same_job(j, k),
    ensures
        j is Some <==> k is Some,
        j is Some ==> j->0.audio@ == k->0.audio && j->0.audio_hz == k->0.audio_hz
            && j->0.slot_utc == k->0.slot_utc,
{
}

/// What is said of an action over its decodes is what it holds.
pub proof fn law_an_action_is_seen_as_it_is<C>(actions: Seq<DigiAction<C>>, i: int)
    requires
        0 <= i < actions.len(),
    ensures
        action_views(actions).len() == actions.len(),
        actions[i] matches DigiAction::Decodes(ds) ==> action_views(actions)[i]
            == Action::<C>::Decodes(decode_views(ds@)),
        actions[i] matches DigiAction::Status(status) ==> ({
            let v = action_views(actions)[i]->Status_0;
            &&& action_views(actions)[i] is Status
            &&& v.config == *status.config && v.mode == status.mode
            &&& v.step == status.step && v.audio_hz == status.audio_hz
        }),
{
}

/// What is said of the worker's answers over their decodes is what they hold.
pub proof fn law_answers_are_seen_as_they_are(replies: Seq<Vec<Decode>>, i: int)
    requires
        0 <= i < replies.len(),
    ensures
        reply_views(replies).len() == replies.len(),
        reply_views(replies)[i] == decode_views(replies[i]@),
{
}

} // verus!
