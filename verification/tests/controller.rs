//! The MSK144 controller's turns.
use sdroxide::fixed::ONE;
use sdroxide::modem::{Decode, Mode};
use sdroxide::msk144_controller::{DigiAction, Msk144Controller, QsoStep};

const T0: i64 = 1_800_000_000;

fn second() -> Vec<i16> {
    vec![0i16; 12_000]
}

fn decode_of(message: &str) -> Decode {
    Decode {
        slot_utc: 0,
        snr_db: 0,
        dt: 0,
        audio_hz: 0,
        message: message.to_string(),
        to: None,
        from: None,
        grid: None,
        is_cq: false,
        cq_to: None,
        free_text: false,
        rr73_to: None,
    }
}

/// A slot is decoded only when its audio began on the slot's own boundary.
/// Starting part-way through a period must not hand the decoder a buffer whose
/// start is not the period's start: every burst in it would carry the wrong
/// time into the slot.
#[test]
fn only_a_slot_that_began_on_its_boundary_is_decoded() {
    let mut c = Msk144Controller::new("default");

    // Start 5 s into a period and hear the rest of it.
    c.poll(Vec::new(), false, T0 + 5);
    for _ in 0..10 {
        c.on_rx_audio(&second());
    }
    let (_, job) = c.poll(Vec::new(), false, T0 + 15);
    assert!(job.is_none() && !c.pending(), "the partial first period was dispatched");

    // The next period is heard from its boundary, so it is decoded.
    for _ in 0..15 {
        c.on_rx_audio(&second());
    }
    let (_, job) = c.poll(Vec::new(), false, T0 + 30);
    assert!(c.pending(), "a whole, aligned period was not dispatched");
    let job = job.expect("a job");
    assert_eq!((job.audio.len(), job.slot_utc, job.audio_hz), (180_000, T0 + 15, 1500 * ONE));
}

/// A controller that is ready to hand out the period that ends at `T0 + 30`.
fn ready() -> Msk144Controller<&'static str> {
    let mut c = Msk144Controller::new("default");
    c.poll(Vec::new(), false, T0);
    c.poll(Vec::new(), false, T0 + 15);
    for _ in 0..15 {
        c.on_rx_audio(&second());
    }
    c
}

/// One slot is in flight at a time, until the worker answers or is gone, or did
/// not take the slot.
#[test]
fn one_slot_is_in_flight_at_a_time() {
    let fill = |c: &mut Msk144Controller<&'static str>| {
        for _ in 0..15 {
            c.on_rx_audio(&second());
        }
    };
    let mut c = ready();
    assert!(c.poll(Vec::new(), false, T0 + 30).1.is_some());
    fill(&mut c);
    assert!(c.poll(Vec::new(), false, T0 + 45).1.is_none(), "the worker is still busy");
    assert!(c.pending());
    fill(&mut c);
    assert!(c.poll(vec![Vec::new()], false, T0 + 60).1.is_some(), "an answer frees it");
    fill(&mut c);
    assert!(c.poll(Vec::new(), true, T0 + 75).1.is_some(), "a worker that is gone frees it");
    c.on_send_failed();
    assert!(!c.pending());
    fill(&mut c);
    assert!(c.poll(Vec::new(), false, T0 + 90).1.is_some());
}

/// Half a slot is enough, less is not, and no more than a slot and an eighth is
/// kept.
#[test]
fn half_a_slot_is_the_floor() {
    for (samples, dispatched) in [(89_999, None), (90_000, Some(90_000)), (300_000, Some(202_500))] {
        let mut c = Msk144Controller::new("default");
        c.poll(Vec::new(), false, T0);
        c.poll(Vec::new(), false, T0 + 15);
        c.on_rx_audio(&vec![7i16; samples]);
        let (_, job) = c.poll(Vec::new(), false, T0 + 30);
        assert_eq!(job.map(|j| j.audio.len()), dispatched);
    }
}

/// A reset part-way through a period spoils it, and only it.
#[test]
fn a_reset_spoils_the_period_in_progress() {
    let mut c = ready();
    c.abort();
    c.on_rx_audio(&vec![0i16; 100_000]);
    assert!(c.poll(Vec::new(), false, T0 + 30).1.is_none());
    c.on_rx_audio(&vec![0i16; 100_000]);
    assert!(c.poll(Vec::new(), false, T0 + 45).1.is_some());
}

/// A change of configuration part-way through a period spoils it, and only it.
#[test]
fn a_config_change_spoils_the_period_in_progress() {
    let mut c = ready();
    c.set_config("changed");
    c.on_rx_audio(&second());
    assert!(c.poll(Vec::new(), false, T0 + 30).1.is_none());
    assert!(!c.pending());
    c.on_rx_audio(&vec![0i16; 100_000]);
    let (_, job) = c.poll(Vec::new(), false, T0 + 45);
    assert_eq!(job.map(|j| (j.audio.len(), j.slot_utc)), Some((100_000, T0 + 30)));
}

/// The status carries the configuration in force.
#[test]
fn the_status_carries_the_configuration() {
    let mut c = Msk144Controller::new(7u32);
    let s = c.status();
    assert_eq!((*s.config, s.mode, s.step, s.audio_hz), (7, Mode::Msk144, QsoStep::Idle, 1500 * ONE));
    c.poll(Vec::new(), false, T0);
    c.set_config(9);
    c.set_audio_hz(700 * ONE);
    assert_eq!((*c.status().config, c.status().audio_hz), (9, 700 * ONE));
    let (actions, _) = c.poll(Vec::new(), false, T0 + 1);
    assert!(matches!(actions[..], [DigiAction::Status(ref s)] if *s.config == 9));
    c.abort();
    c.clear_rx();
    assert_eq!(*c.status().config, 9);
}

/// Answers are shown, empty ones are not, and the status is shown when
/// something changed.
#[test]
fn answers_and_status_are_shown() {
    let mut c = Msk144Controller::new("default");
    assert_eq!(c.mode(), Mode::Msk144);
    assert!(!c.tx_burst_active());
    let (actions, _) = c.poll(Vec::new(), false, T0);
    assert!(matches!(actions[..], [DigiAction::Status(ref s)] if s.audio_hz == 1500 * ONE));
    let (actions, _) = c.poll(Vec::new(), false, T0 + 1);
    assert!(actions.is_empty());

    let replies = vec![vec![decode_of("A"), decode_of("B")], Vec::new(), vec![decode_of("C")]];
    let (actions, _) = c.poll(replies, false, T0 + 2);
    assert_eq!(actions.len(), 3);
    assert!(matches!(&actions[0], DigiAction::Decodes(ds) if ds.len() == 2));
    assert!(matches!(&actions[1], DigiAction::Decodes(ds) if ds[0].message == "C"));
    assert!(matches!(&actions[2], DigiAction::Status(_)));
    assert_eq!(c.last_count(), 1);

    c.clear_rx();
    assert_eq!(c.last_count(), 0);
    assert_eq!(c.poll(Vec::new(), false, T0 + 3).0.len(), 1);
    c.set_config("changed");
    assert_eq!(c.poll(Vec::new(), false, T0 + 4).0.len(), 1);
}

/// The audio cursor stays in its range.
#[test]
fn the_audio_cursor_stays_in_range() {
    let mut c = Msk144Controller::new("default");
    for (hz, kept) in [(100, 200), (200, 200), (1650, 1650), (3500, 3500), (9000, 3500)] {
        c.set_audio_hz(hz * ONE);
        assert_eq!(c.audio_hz(), kept * ONE);
        let (actions, _) = c.poll(Vec::new(), false, T0);
        assert!(matches!(actions[..], [DigiAction::Status(ref s)] if s.audio_hz == kept * ONE));
    }
}

/// Periods are counted towards the past before 1970, too.
#[test]
fn periods_before_the_epoch_have_their_boundaries() {
    let mut c = Msk144Controller::new("default");
    c.poll(Vec::new(), false, -31);
    c.poll(Vec::new(), false, -30);
    c.on_rx_audio(&vec![0i16; 100_000]);
    assert!(c.poll(Vec::new(), false, -16).1.is_none());
    let (_, job) = c.poll(Vec::new(), false, -15);
    assert_eq!(job.map(|j| j.slot_utc), Some(-30));
}
