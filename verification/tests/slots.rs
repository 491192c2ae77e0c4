//! The other slotted modes, through `mfsk-core`'s decoders.
use mfsk_core::engine::dsp::gfsk::GfskCfg;
use mfsk_core::engine::{FrameLayout, ModulationParams};
use mfsk_core::msg::decode_request::{DecodeRequest, FrameDecodable};
use mfsk_core::msg::Jt72Message;
use mfsk_core::FecCodec;
use sdroxide::fixed::ONE;
use sdroxide::modem::{Decode, Found, Mode};
use sdroxide::slots::{
    decode_fsk441_slot, decode_fst4_slot, decode_jt_slot, decode_msk144_slot, decode_q65_slot,
    JtFound, JtMessage, Q65Mode, TextFound,
};

fn fixed(x: f32) -> i64 {
    (f64::from(x) * ONE as f64).round() as i64
}

fn seconds(x: i64) -> f32 {
    (x as f64 / ONE as f64) as f32
}

fn jt_message(m: Jt72Message) -> JtMessage {
    match m {
        Jt72Message::Standard { call1, call2, grid_or_report } => {
            JtMessage::Standard { call1, call2, grid_or_report }
        }
        Jt72Message::Unsupported { .. } => JtMessage::Unsupported,
    }
}

/// Scan a JT slot as the receiver does, over the whole passband. The receiver
/// looks further off the nominal start for JT65, and gives more candidates a
/// decode attempt; an on-time signal is the best candidate.
fn jt_slot(audio_12k: &[i16], mode: Mode) -> Vec<Decode> {
    let audio: Vec<f32> = audio_12k.iter().map(|&s| f32::from(s) / 28_000.0).collect();
    let found: Vec<JtFound> = match mode {
        Mode::Jt65 => {
            let params = mfsk_core::jt65::search::SearchParams {
                freq_min_hz: 200.0,
                freq_max_hz: 3500.0 - 180.0,
                time_tolerance_sec: 1.0,
                max_candidates: 1,
                ..Default::default()
            };
            mfsk_core::jt65::decode_scan(&audio, 12_000, 12_000, &params)
                .into_iter()
                .map(|r| JtFound {
                    message: jt_message(r.message),
                    snr_db: r.snr_db.round() as i16,
                    start: fixed(r.dt_sec),
                    audio_hz: fixed(r.freq_hz),
                })
                .collect()
        }
        _ => mfsk_core::jt9::decode_scan(
            &audio,
            12_000,
            12_000,
            &mfsk_core::jt9::search::SearchParams::default(),
        )
        .into_iter()
        .map(|r| JtFound {
            message: jt_message(r.message),
            snr_db: r.snr_db.round() as i16,
            start: r.start_sample as i64 * ONE / 12_000,
            audio_hz: fixed(r.freq_hz),
        })
        .collect(),
    };
    decode_jt_slot(&found, mode, 0)
}

/// A synthesized JT65 and JT9 message decodes back to the same
/// `<to> <from> <grid>`, with the DT of an on-time station, about zero.
#[test]
fn jt_messages_round_trip() {
    for (mode, hz) in [(Mode::Jt65, 1000.0), (Mode::Jt65, 600.0), (Mode::Jt9, 1000.0)] {
        let synth = match mode {
            Mode::Jt65 => {
                mfsk_core::jt65::tx::synthesize_standard("CQ", "K1ABC", "FN42", 12_000, hz, 0.3)
            }
            _ => mfsk_core::jt9::tx::synthesize_standard("CQ", "K1ABC", "FN42", 12_000, hz, 0.3),
        }
        .expect("synthesize");
        // The scan wants a whole 60-second slot; pad the burst into one.
        let mut slot = vec![0.0f32; 12_000]; // the one-second TX offset
        slot.extend_from_slice(&synth);
        slot.resize(60 * 12_000, 0.0);
        let i16buf: Vec<i16> = slot.iter().map(|&s| (s * 20_000.0) as i16).collect();

        let decodes = jt_slot(&i16buf, mode);
        let best =
            decodes.first().unwrap_or_else(|| panic!("{mode:?} at {hz} Hz: nothing decoded"));
        assert_eq!(best.from.as_deref(), Some("K1ABC"), "{mode:?}: {decodes:?}");
        assert!(best.is_cq, "{mode:?}: {decodes:?}");
        assert_eq!(best.grid.as_deref(), Some("FN42"), "{mode:?}: {decodes:?}");
        let dt = seconds(best.dt);
        assert!(dt.abs() < 0.3, "{mode:?}: an on-time signal read DT {dt}");
    }
}

/// Noise alone decodes to nothing. Several deterministic seeds, so a marginal
/// gate shows up here rather than as an invented callsign on an empty band.
fn jt_noise_decodes_nothing(mode: Mode) {
    for seed in 1..=3u32 {
        let mut rng = seed.wrapping_mul(0x9e37_79b9);
        let noise: Vec<i16> = (0..60 * 12_000)
            .map(|_| {
                rng ^= rng << 13;
                rng ^= rng >> 17;
                rng ^= rng << 5;
                ((rng as i32 as f32 / i32::MAX as f32) * 6_000.0) as i16
            })
            .collect();
        let decodes = jt_slot(&noise, mode);
        assert!(decodes.is_empty(), "{mode:?} seed {seed}: noise decoded as {decodes:?}");
    }
}

#[test]
fn jt65_noise_alone_decodes_nothing() {
    jt_noise_decodes_nothing(Mode::Jt65);
}

#[test]
fn jt9_noise_alone_decodes_nothing() {
    jt_noise_decodes_nothing(Mode::Jt9);
}

/// Only the two JT modes are decoded here, what is not unpacked is skipped, and
/// the start is counted from one second in.
#[test]
fn jt_rows_are_mapped_one_by_one() {
    let row = |message: JtMessage| JtFound { message, snr_db: -20, start: 0, audio_hz: 900 * ONE };
    let rows = vec![
        row(JtMessage::Unsupported),
        row(JtMessage::Standard {
            call1: "W9XYZ".into(),
            call2: "AB1CD".into(),
            grid_or_report: "FN42".into(),
        }),
    ];
    let got = decode_jt_slot(&rows, Mode::Jt9, 60);
    assert_eq!(got.len(), 1);
    assert_eq!(got[0].message, "W9XYZ AB1CD FN42");
    assert_eq!(got[0].to.as_deref(), Some("W9XYZ"));
    assert_eq!(got[0].grid.as_deref(), Some("FN42"));
    assert_eq!((got[0].slot_utc, got[0].snr_db, got[0].dt), (60, -20, -ONE));
    assert!(decode_jt_slot(&rows, Mode::Ft8, 60).is_empty());
}

/// Hunt an MSK144 slot as the receiver does.
fn msk144_slot(audio: &[i16], hz: f32) -> Vec<Decode> {
    let found: Vec<TextFound> = mfsk_core::msk144::decode::decode_slot(
        audio,
        hz,
        200.0,
        mfsk_core::msk144::decode::Depth::Deep,
    )
    .into_iter()
    .map(|r| TextFound {
        text: r.message,
        snr_db: r.snr_db as i16,
        start: fixed(r.tsec),
        audio_hz: fixed(r.freq_hz),
    })
    .collect();
    decode_msk144_slot(&found, 0)
}

/// A synthesized MSK144 frame decodes back to its message. The waveform is a
/// reference binary-FSK one, so a decode here is the decoder working and not a
/// modulator agreeing with itself.
#[test]
fn msk144_frame_round_trips() {
    const FS: f32 = 12_000.0;
    // A single frame, continuous phase, 2000 baud, tone spacing = baud.
    let frame_itone = |call1: &str, call2: &str, report: &str| -> [u8; 144] {
        let msg = mfsk_core::msg::wsjt77::pack77(call1, call2, report).expect("pack77");
        let mut info = [0u8; 90];
        info[..77].copy_from_slice(&msg);
        let mut bytes = [0u8; 12];
        for (i, &b) in info[..77].iter().enumerate() {
            bytes[i / 8] |= (b & 1) << (7 - (i % 8));
        }
        let crc = mfsk_core::fec::ldpc_128_90::crc13(&bytes);
        for i in 0..13 {
            info[77 + i] = ((crc >> (12 - i)) & 1) as u8;
        }
        let mut codeword = [0u8; 128];
        mfsk_core::fec::Ldpc128_90.encode(&info, &mut codeword);
        let bitseq = mfsk_core::engine::dsp::msk::build_bitseq(&codeword);
        let mut bp = [0i8; 144];
        for i in 0..144 {
            bp[i] = 2 * bitseq[i] as i8 - 1;
        }
        let mut i4 = [0i8; 144];
        for i in 1..=72usize {
            i4[2 * i - 2] = (bp[2 * i - 1] * bp[2 * i - 2] + 1) / 2;
            i4[2 * i - 1] = -((bp[2 * i - 1] * bp[(2 * i) % 144] - 1) / 2);
        }
        let mut t = [0u8; 144];
        for i in 0..144 {
            t[i] = (-i4[i] + 1) as u8;
        }
        t
    };
    let wave = |itone: &[u8; 144], freq: f32| -> Vec<i16> {
        let twopi = 2.0 * std::f32::consts::PI;
        let baud = 2000.0f32;
        let d0 = twopi * (freq - 0.25 * baud) / FS;
        let d1 = twopi * (freq + 0.25 * baud) / FS;
        let mut phi = 0.0f32;
        let mut out = Vec::with_capacity(144 * 6);
        for &tone in itone {
            let d = if tone == 0 { d0 } else { d1 };
            for _ in 0..6 {
                out.push((phi.cos() * 12_000.0) as i16);
                phi += d;
                if phi >= twopi {
                    phi -= twopi;
                }
            }
        }
        out
    };

    let itone = frame_itone("K1ABC", "W9XYZ", "EN37");
    // A meteor ping per second through a 15 s slot: the frame plays
    // continuously but is enveloped by the ionised trail's decay.
    let one = wave(&itone, 1500.0);
    let npts = 15 * FS as usize;
    let mut carrier = Vec::with_capacity(npts);
    while carrier.len() < npts {
        carrier.extend_from_slice(&one);
    }
    carrier.truncate(npts);
    let mut slot = Vec::with_capacity(npts);
    for (i, &s) in carrier.iter().enumerate() {
        let iping = (i / FS as usize).max(1).min(14);
        let t = (i as f32 / FS - iping as f32) / 0.2;
        let env = if (0.0..=10.0).contains(&t) { 2.718 * t * (-t).exp() } else { 0.0 };
        slot.push((s as f32 * env) as i16);
    }
    let decodes = msk144_slot(&slot, 1500.0);
    assert!(
        decodes.iter().any(|d| d.message == "K1ABC W9XYZ EN37"),
        "MSK144 did not round-trip: {decodes:?}"
    );
    // A station a little off the cursor is still inside the search...
    let decodes = msk144_slot(&slot, 1650.0);
    assert!(
        decodes.iter().any(|d| d.message == "K1ABC W9XYZ EN37"),
        "150 Hz off the cursor was not found: {decodes:?}"
    );
    // ...and one well outside it is not searched for. The first ping tells: it
    // is enough to decode on the cursor.
    let decodes = msk144_slot(&slot[..18_000], 1500.0);
    assert!(
        decodes.iter().any(|d| d.message == "K1ABC W9XYZ EN37"),
        "the first ping did not decode: {decodes:?}"
    );
    let decodes = msk144_slot(&slot[..18_000], 2100.0);
    assert!(decodes.is_empty(), "600 Hz off the cursor still decoded: {decodes:?}");
}

/// Synthesize a `CQ K1ABC FN42` at an FST4 period, pad it into a whole slot at
/// the period's own TX offset, and assert it decodes back on time. The receiver
/// gives more candidates a decode attempt; the best ones are what counts here.
fn fst4_round_trip<P>(cfg: &GfskCfg)
where
    P: FrameDecodable<DecodeResult = mfsk_core::engine::pipeline::DecodeResult> + FrameLayout,
{
    let msg77 = mfsk_core::msg::wsjt77::pack77("CQ", "K1ABC", "FN42").expect("pack77");
    let itone = mfsk_core::fst4::encode::message_to_tones(&msg77);
    let burst = mfsk_core::fst4::encode::tones_to_f32_with_gfsk(&itone, 1000.0, 0.3, cfg);
    let mut slot = vec![0.0f32; (P::TX_START_OFFSET_S * 12_000.0).round() as usize];
    slot.extend_from_slice(&burst);
    slot.resize((P::T_SLOT_S * 12_000.0) as usize, 0.0);
    let i16buf: Vec<i16> = slot.iter().map(|&s| (s * 20_000.0) as i16).collect();

    let found: Vec<Found> = DecodeRequest::<P>::new(&i16buf, 200.0, 3500.0, 0.8, 2)
        .decode()
        .results
        .into_iter()
        .map(|r| Found {
            bits: r.message77().to_vec(),
            snr_db: r.snr_db.round() as i16,
            dt: fixed(r.dt_sec),
            audio_hz: fixed(r.freq_hz),
        })
        .collect();
    let decodes = decode_fst4_slot(&found, 0);
    let best = decodes
        .iter()
        .find(|d| d.from.as_deref() == Some("K1ABC"))
        .unwrap_or_else(|| panic!("FST4-{}: nothing decoded: {decodes:?}", P::T_SLOT_S));
    assert!(best.is_cq, "FST4-{}: {decodes:?}", P::T_SLOT_S);
    assert_eq!(best.grid.as_deref(), Some("FN42"), "FST4-{}", P::T_SLOT_S);
    // Keyed at the period's own offset, it is on time.
    let dt = seconds(best.dt);
    assert!(dt.abs() < 0.3, "FST4-{}: DT {dt}", P::T_SLOT_S);
}

/// A synthesized FST4 message decodes back at the short periods.
#[test]
fn fst4_messages_round_trip_at_the_short_periods() {
    fst4_round_trip::<mfsk_core::fst4::Fst4s15>(&mfsk_core::fst4::encode::FST4_15_GFSK);
    fst4_round_trip::<mfsk_core::fst4::Fst4s30>(&mfsk_core::fst4::encode::FST4_30_GFSK);
    fst4_round_trip::<mfsk_core::fst4::Fst4s60>(&mfsk_core::fst4::encode::FST4_60A_GFSK);
}

/// A synthesized FST4 message decodes back at two minutes.
#[test]
fn fst4_messages_round_trip_at_two_minutes() {
    fst4_round_trip::<mfsk_core::fst4::Fst4s120>(&mfsk_core::fst4::encode::FST4_120_GFSK);
}

/// A synthesized FST4 message decodes back at five minutes.
#[test]
fn fst4_messages_round_trip_at_five_minutes() {
    fst4_round_trip::<mfsk_core::fst4::Fst4s300>(&mfsk_core::fst4::encode::FST4_300_GFSK);
}

/// FST4 keeps no callsigns from one slot to the next, so a hashed one reads as
/// the placeholder.
#[test]
fn fst4_resolves_no_hash() {
    let row = |text: &str| Found {
        bits: sdroxide::pack::pack_message(text).expect("packs").0.to_vec(),
        snr_db: 0,
        dt: 0,
        audio_hz: 0,
    };
    let got = decode_fst4_slot(&vec![row("CQ R7KJG/QRP"), row("R7KJG/QRP F4CYH R-12")], 0);
    assert_eq!(got[0].message, "CQ R7KJG/QRP");
    assert_eq!(got[1].message, "<...> F4CYH R-12");
}

/// Synthesize a `CQ K1ABC FN42` at a sub-mode, pad it into a whole slot at the
/// sub-mode's own TX offset, and assert it decodes back on time.
fn q65_round_trip<P>(m: Q65Mode, slot_s: f64)
where
    P: ModulationParams + mfsk_core::q65::Q65SubMode,
{
    let burst = mfsk_core::q65::tx::synthesize_standard_for::<P>(
        "CQ", "K1ABC", "FN42", 12_000, 1000.0, 0.3,
    )
    .expect("synthesize");
    let start_delay_s = m.start_delay() as f64 / ONE as f64;
    let nominal_start = (start_delay_s * 12_000.0).round() as usize;
    let mut slot = vec![0.0f32; nominal_start];
    slot.extend_from_slice(&burst);
    slot.resize((slot_s * 12_000.0) as usize, 0.0);
    let i16buf: Vec<i16> = slot.iter().map(|&s| (s * 20_000.0) as i16).collect();

    let audio: Vec<f32> = i16buf.iter().map(|&s| f32::from(s) / 28_000.0).collect();
    let params = mfsk_core::q65::search::SearchParams::default();
    let found: Vec<TextFound> =
        mfsk_core::q65::DecodeRequest::<P>::new(&audio, 12_000, nominal_start, params)
            .decode()
            .into_iter()
            .map(|r| TextFound {
                text: r.message,
                snr_db: r.snr_db.round() as i16,
                start: fixed(r.dt_sec),
                audio_hz: fixed(r.freq_hz),
            })
            .collect();
    let decodes = decode_q65_slot(&found, m, 0);
    let best = decodes
        .iter()
        .find(|d| d.from.as_deref() == Some("K1ABC"))
        .unwrap_or_else(|| panic!("Q65 {m:?}: nothing decoded: {decodes:?}"));
    assert!(best.is_cq, "Q65 {m:?}: {decodes:?}");
    assert_eq!(best.grid.as_deref(), Some("FN42"), "Q65 {m:?}");
    // "On time" is to half a symbol for the long sub-modes; the short ones are
    // held to 0.3 s.
    let half_symbol = P::NSPS as f32 / 12_000.0 / 2.0;
    let dt = seconds(best.dt);
    assert!(dt.abs() <= 0.3f32.max(half_symbol), "Q65 {m:?}: DT {dt}");
}

/// The Q65 round trip at the cheapest sub-mode.
#[test]
fn q65_message_round_trips() {
    q65_round_trip::<mfsk_core::q65::Q65a15>(Q65Mode::A15, 15.0);
}

/// The short sub-modes key half a second in, the rest a second.
#[test]
fn q65_sub_modes_key_where_they_should() {
    for m in [Q65Mode::A15, Q65Mode::A30] {
        assert_eq!(m.start_delay(), ONE / 2);
    }
    for m in [Q65Mode::A60, Q65Mode::B60, Q65Mode::C60, Q65Mode::D60, Q65Mode::E60] {
        assert_eq!(m.start_delay(), ONE);
    }
    for m in [Q65Mode::D120, Q65Mode::E120, Q65Mode::A300] {
        assert_eq!(m.start_delay(), ONE);
    }
    let row = TextFound { text: "TNX 73 GL".into(), snr_db: 1, start: ONE, audio_hz: 1000 * ONE };
    let got = decode_q65_slot(&vec![row], Q65Mode::A30, 30);
    assert_eq!(got[0].dt, ONE / 2);
    assert!(got[0].free_text && got[0].from.is_none());
}

/// The text-only modes tell the start as it was found, and only FSK441 tells
/// whose contact a message closes.
#[test]
fn text_rows_are_mapped_one_by_one() {
    let rows = || {
        vec![
            TextFound {
                text: "W1ABC W9XYZ FN42".into(),
                snr_db: 3,
                start: 7 * ONE,
                audio_hz: 882 * ONE,
            },
            TextFound {
                text: "K1ABC RR73; W9XYZ <DX1FOX> +03".into(),
                snr_db: 3,
                start: i64::MIN,
                audio_hz: 0,
            },
        ]
    };
    let fsk = decode_fsk441_slot(&rows(), 30);
    assert_eq!(fsk[0].to.as_deref(), Some("W1ABC"));
    assert_eq!(fsk[0].from.as_deref(), Some("W9XYZ"));
    assert_eq!(fsk[0].grid.as_deref(), Some("FN42"));
    assert_eq!((fsk[0].dt, fsk[0].audio_hz, fsk[0].slot_utc), (7 * ONE, 882 * ONE, 30));
    assert_eq!(fsk[1].rr73_to.as_deref(), Some("K1ABC"));
    let msk = decode_msk144_slot(&rows(), 30);
    assert_eq!(msk[1].rr73_to, None);
    assert_eq!(msk[1].from.as_deref(), Some("DX1FOX"));
    // A start that cannot be moved any further back stays where it is.
    assert_eq!(decode_q65_slot(&rows(), Q65Mode::A60, 0)[1].dt, i64::MIN);
}
