//! The round trip every on-air message makes, through `mfsk-core`'s decoders.
use mfsk_core::msg::decode_request::DecodeRequest;
use sdroxide::fixed::ONE;
use sdroxide::hints::ApHints;
use sdroxide::modem::{same_signal, Burst, Decode, Found, Ft8Modem, Mode};

const MIN_HZ: f32 = 200.0;
const MAX_HZ: f32 = 3500.0;
const SYNC_MIN: f32 = 1.5;
const MAX_CAND: usize = 600;

fn fixed(x: f32) -> i64 {
    (f64::from(x) * ONE as f64).round() as i64
}

fn found(bits: &[u8], snr_db: f32, dt: f32, hz: f32) -> Found {
    Found {
        bits: bits.to_vec(),
        snr_db: snr_db.round() as i16,
        dt: fixed(dt),
        audio_hz: fixed(hz),
    }
}

/// Encode a message into burst audio.
fn burst(modem: &Ft8Modem, text: &str, hz: f32, amplitude: f32) -> (Vec<f32>, String) {
    let (burst, sent) = modem.encode_burst_12k(text).expect("encode");
    let audio = match burst {
        Burst::Ft8(tones) => {
            let tones: [u8; 79] = tones.try_into().expect("79 tones");
            mfsk_core::ft8::wave_gen::tones_to_f32(&tones, hz, amplitude)
        }
        Burst::Ft4(tones) => mfsk_core::ft4::encode::tones_to_f32(&tones, hz, amplitude),
        Burst::Ft2(_) => panic!("no FT2 modulator here"),
    };
    (audio, sent)
}

/// The energy of each 6.25 Hz bin of one symbol's audio, from `bins.start` on.
fn spectrum(symbol: &[i16], bins: std::ops::Range<usize>) -> Vec<f32> {
    bins.map(|bin| {
        let coefficient = 2.0 * (std::f32::consts::TAU * bin as f32 / 1920.0).cos();
        let (mut s1, mut s2) = (0.0f32, 0.0f32);
        for &x in symbol {
            (s1, s2) = (f32::from(x) / 32_768.0 + coefficient * s1 - s2, s1);
        }
        s1 * s1 + s2 * s2 - coefficient * s1 * s2
    })
    .collect()
}

/// A search for the contest exchange alone, good for the clean signals of these
/// tests: they begin half a second into the slot, on a multiple of the tone
/// spacing. Whatever of it has the sync tones in place, and encodes back to the
/// tones that were heard, is a message.
fn contest_search(audio: &[i16]) -> Vec<Found> {
    const COSTAS: [usize; 7] = [3, 1, 4, 0, 6, 5, 2];
    const GRAY: [u8; 8] = [0, 1, 3, 2, 5, 6, 4, 7];
    let (low, high) = (32usize, 552usize);
    let symbols: Vec<Vec<f32>> =
        audio[6_000..].chunks_exact(1920).take(79).map(|c| spectrum(c, low..high + 8)).collect();
    let mut rows = Vec::new();
    for base in 0..high - low {
        let tones: Vec<u8> = symbols
            .iter()
            .map(|s| {
                let mut best = 0;
                for t in 1..8 {
                    if s[base + t] > s[base + best] {
                        best = t;
                    }
                }
                best as u8
            })
            .collect();
        let in_sync = [0, 36, 72]
            .iter()
            .all(|&at| (0..7).all(|i| usize::from(tones[at + i]) == COSTAS[i]));
        if !in_sync {
            continue;
        }
        let mut bits: Vec<u8> = Vec::new();
        for &tone in tones[7..36].iter().chain(&tones[43..72]) {
            let value = GRAY.iter().position(|&g| g == tone).expect("a tone") as u8;
            bits.extend([value >> 2 & 1, value >> 1 & 1, value & 1]);
        }
        bits.truncate(77);
        if mfsk_core::ft8::wave_gen::message_to_tones(&bits)[..] != tones[..] {
            continue;
        }
        if bits[74..77] == [1, 0, 1] {
            rows.push(found(&bits, 0.0, 0.0, (low + base) as f32 * 6.25));
        }
    }
    rows
}

/// Run the passes that a slot is worth, and decode what they find.
fn decode(modem: &mut Ft8Modem, audio: &[i16], ap: &ApHints, listening_hz: f32) -> Vec<Decode> {
    let passes = modem.passes(ap);
    let wide: Vec<Found> = match modem.mode() {
        Mode::Ft4 => DecodeRequest::<mfsk_core::Ft4>::new(audio, MIN_HZ, MAX_HZ, SYNC_MIN, MAX_CAND)
            .osd(true)
            .sic_rounds(2)
            .decode()
            .results
            .into_iter()
            .map(|r| found(r.message77(), r.snr_db, r.dt_sec, r.freq_hz))
            .collect(),
        _ => {
            let req =
                DecodeRequest::<mfsk_core::Ft8>::new(audio, MIN_HZ, MAX_HZ, SYNC_MIN, MAX_CAND)
                    .osd(true);
            let req = match passes.wide_hint.as_ref() {
                Some(h) => req.ap_hint(h),
                None => req,
            };
            req.decode()
                .results
                .into_iter()
                .map(|r| found(r.message77(), r.snr_db, r.dt_sec, r.freq_hz))
                .collect()
        }
    };
    let targeted: Vec<Found> = match passes.targeted.as_ref() {
        Some(hint) => DecodeRequest::<mfsk_core::Ft4>::sniper(audio, listening_hz, MAX_CAND)
            .sync_min(0.5)
            .osd(true)
            .eq_mode(mfsk_core::engine::equalize::EqMode::Off)
            .ap_hint(hint)
            .decode()
            .results
            .into_iter()
            .map(|r| found(r.message77(), r.snr_db, r.dt_sec, r.freq_hz))
            .collect(),
        None => Vec::new(),
    };
    let rescued: Vec<Found> = if passes.rescue { contest_search(audio) } else { Vec::new() };
    modem.decode_slot(&wide, &targeted, &rescued, 0, ap)
}

/// Encode a message, pad it into a full slot, and decode it back.
fn round_trip(mode: Mode, text: &str) -> (String, Vec<Decode>) {
    let mut modem = Ft8Modem::new(mode);
    let (burst, sent) = burst(&modem, text, 1500.0, 0.5);
    let slot_s = if mode == Mode::Ft4 { 7.5 } else { 15.0 };
    let mut slot = vec![0.0f32; (0.5 * 12_000.0) as usize];
    slot.extend_from_slice(&burst);
    slot.resize((slot_s * 12_000.0) as usize, 0.0);
    let i16buf: Vec<i16> = slot.iter().map(|&s| (s * 20_000.0) as i16).collect();
    (sent, decode(&mut modem, &i16buf, &ApHints::default(), 1500.0))
}

/// A burst half a second into an FT8 slot.
fn ft8_slot(burst: &[f32], scale: f32) -> Vec<i16> {
    let mut slot = vec![0.0f32; 6_000];
    slot.extend_from_slice(burst);
    slot.resize(15 * 12_000, 0.0);
    slot.iter().map(|&s| (s * scale) as i16).collect()
}

#[test]
fn a_directed_cq_goes_out_as_one() {
    // "CQ EU" is a single packed token, not a fourth field, so the message
    // still fits the everyday layout.
    let (sent, decodes) = round_trip(Mode::Ft8, "CQ EU AB1CD FN42");
    assert_eq!(sent, "CQ EU AB1CD FN42");
    let d = decodes.iter().find(|d| d.is_cq).expect("decoded");
    assert_eq!(d.message, "CQ EU AB1CD FN42");
    assert_eq!(d.cq_to.as_deref(), Some("EU"));
    assert_eq!(d.from.as_deref(), Some("AB1CD"));
}

#[test]
fn a_fox_message_round_trips() {
    // One transmission closing K1ABC's contact and reporting to W9XYZ. The
    // fox's own call travels as a 10-bit hash, so a receiver that has heard it
    // resolves the name and one that hasn't sees `<...>`.
    let mut modem = Ft8Modem::new(Mode::Ft8);
    modem.seed_hashes(&["DX1FOX".to_string()]);
    let (burst, sent) = burst(&modem, "K1ABC RR73; W9XYZ DX1FOX +03", 1500.0, 0.5);
    assert_eq!(sent, "K1ABC RR73; W9XYZ <DX1FOX> +02", "the layout carries 2 dB steps");

    let buf = ft8_slot(&burst, 20_000.0);
    let d = decode(&mut modem, &buf, &ApHints::default(), 1500.0)
        .into_iter()
        .find(|d| d.message.contains("RR73;"))
        .expect("decoded");
    assert_eq!(d.message, "K1ABC RR73; W9XYZ <DX1FOX> +02");
    assert_eq!(d.rr73_to.as_deref(), Some("K1ABC"));
    assert_eq!(d.to.as_deref(), Some("W9XYZ"));
    assert_eq!(d.from.as_deref(), Some("DX1FOX"));
    assert!(!d.free_text);
}

#[test]
fn ft8_encode_decode_round_trip() {
    let (sent, decodes) = round_trip(Mode::Ft8, "CQ AB1CD FN42");
    assert_eq!(sent, "CQ AB1CD FN42");
    assert!(
        decodes.iter().any(|d| d.message == "CQ AB1CD FN42" && !d.free_text),
        "got {:?}",
        decodes.iter().map(|d| &d.message).collect::<Vec<_>>()
    );
}

#[test]
fn ft4_encode_decode_round_trip() {
    let (_, decodes) = round_trip(Mode::Ft4, "CQ AB1CD FN42");
    assert!(
        decodes.iter().any(|d| d.message == "CQ AB1CD FN42"),
        "got {:?}",
        decodes.iter().map(|d| &d.message).collect::<Vec<_>>()
    );
}

/// A weak FT4 signal buried under a strong one at the same audio offset must
/// still decode: only subtraction of the strong decode exposes it.
#[test]
fn a_masked_ft4_signal_is_recovered_by_subtraction() {
    let modem = Ft8Modem::new(Mode::Ft4);
    let strong = "CQ AB1CD FN42";
    let weak = "CQ EF2GH JO22";
    let pad = (0.5 * 12_000.0) as usize;
    let (sb, _) = burst(&modem, strong, 1500.0, 0.5);
    let (wb, _) = burst(&modem, weak, 1500.0, 0.03);
    let mut slot = vec![0.0f32; (7.5 * 12_000.0) as usize - pad];
    for (i, &s) in sb.iter().enumerate() {
        if i < slot.len() {
            slot[i] += s;
        }
    }
    for (i, &s) in wb.iter().enumerate() {
        if i < slot.len() {
            slot[i] += s;
        }
    }
    let mut rng: u32 = 0x9e37_79b9;
    for s in slot.iter_mut() {
        rng ^= rng << 13;
        rng ^= rng >> 17;
        rng ^= rng << 5;
        *s += (rng as i32 as f32 / i32::MAX as f32) * 0.005;
    }
    let mut padded = vec![0.0f32; pad];
    padded.extend_from_slice(&slot);
    let buf: Vec<i16> = padded.iter().map(|&s| (s * 20_000.0) as i16).collect();

    let mut rx = Ft8Modem::new(Mode::Ft4);
    let got = decode(&mut rx, &buf, &ApHints::default(), 1500.0);
    let messages: Vec<&str> = got.iter().map(|d| d.message.as_str()).collect();
    assert!(messages.contains(&strong), "the strong signal decoded: {messages:?}");
    assert!(
        messages.contains(&weak),
        "the weak signal under it did not survive subtraction: {messages:?}",
    );
}

/// Noise alone must not decode. Several deterministic seeds, so a marginal floor
/// shows up here rather than on the air.
#[test]
fn ft4_noise_alone_decodes_nothing() {
    let n = (7.5 * 12_000.0) as usize;
    for seed in 1..=8u32 {
        let mut rng = seed.wrapping_mul(0x9e37_79b9);
        let buf: Vec<i16> = (0..n)
            .map(|_| {
                rng ^= rng << 13;
                rng ^= rng >> 17;
                rng ^= rng << 5;
                ((rng as i32 as f32 / i32::MAX as f32) * 6_000.0) as i16
            })
            .collect();
        let mut rx = Ft8Modem::new(Mode::Ft4);
        let got = decode(&mut rx, &buf, &ApHints::default(), 1500.0);
        let messages: Vec<&str> = got.iter().map(|d| d.message.as_str()).collect();
        assert!(messages.is_empty(), "seed {seed}: noise decoded as {messages:?}");
    }
}

#[test]
fn an_a_priori_hint_only_ever_adds_decodes() {
    // The hint is a fallback, so at any noise level the hinted pass finds
    // everything the plain one does, which is what makes it safe to leave on
    // all the time.
    let ap =
        ApHints { my_call: "AB1CD".into(), dx_call: Some("W9XYZ".into()), ..Default::default() };
    let mut rng: u32 = 0x1234_5678;
    let mut noise = || {
        // xorshift32, so the comparison runs on identical audio each time.
        rng ^= rng << 13;
        rng ^= rng >> 17;
        rng ^= rng << 5;
        (rng as i32 as f32) / (i32::MAX as f32)
    };
    for &level in &[0.05f32, 0.2, 0.5] {
        let modem = Ft8Modem::new(Mode::Ft8);
        let (burst, _) = burst(&modem, "AB1CD W9XYZ -13", 1500.0, 0.5);
        let mut slot = vec![0.0f32; 6_000];
        slot.extend_from_slice(&burst);
        slot.resize(15 * 12_000, 0.0);
        let buf: Vec<i16> =
            slot.iter().map(|&s| ((s + level * noise()) * 12_000.0) as i16).collect();

        let plain = decode(&mut Ft8Modem::new(Mode::Ft8), &buf, &ApHints::default(), 1500.0);
        let hinted = decode(&mut Ft8Modem::new(Mode::Ft8), &buf, &ap, 1500.0);
        for d in &plain {
            assert!(
                hinted.iter().any(|h| h.message == d.message),
                "noise {level}: the hinted pass lost {:?}",
                d.message
            );
        }
    }
}

/// The exchange has to survive the air in FT8, not merely a round trip through
/// the packer. The wide search drops the layout, so without the contest pass
/// nothing at all comes back.
#[test]
fn an_ft8_contest_exchange_survives_being_transmitted() {
    let modem = Ft8Modem::new(Mode::Ft8);
    let sent = "<PA9XYZ> <G4ABC/P> R 590003 IO91NP";
    let (burst, as_sent) = burst(&modem, sent, 1500.0, 0.5);
    assert_eq!(as_sent, sent, "the exchange goes out as written");
    let buf = ft8_slot(&burst, 12_000.0);

    // Both callsigns spelled out already, as the two ordinary messages ahead of
    // a real exchange would have done: the layout carries hashes, so without
    // them the decode reads `<...>` however well it worked.
    let mut rx = Ft8Modem::new(Mode::Ft8);
    rx.seed_hashes(&["PA9XYZ".into(), "G4ABC/P".into()]);

    let off = decode(&mut rx, &buf, &ApHints::default(), 1500.0);
    assert!(!off.iter().any(|d| d.message.contains("590003")), "the wide search drops the layout");

    let ap = ApHints { eu_vhf: true, ..Default::default() };
    let got = decode(&mut rx, &buf, &ap, 1500.0);
    let d = got
        .iter()
        .find(|d| d.message.contains("590003"))
        .unwrap_or_else(|| panic!("the exchange did not decode; got {got:?}"));
    assert_eq!(d.message, "<PA9XYZ> <G4ABC/P> R 590003 IO91NP");
    assert_eq!(d.to.as_deref(), Some("PA9XYZ"), "and it is addressed to the right station");
    assert_eq!(d.from.as_deref(), Some("G4ABC/P"));
    assert!((d.audio_hz - 1500 * ONE).abs() < 5 * ONE, "at the offset it was sent on");
}

/// The contest pass may only ever *add* the one layout the primary decode
/// cannot return. An ordinary message must come back exactly once, and come
/// back whether or not the contest is selected.
#[test]
fn the_contest_pass_does_not_disturb_ordinary_decodes() {
    let modem = Ft8Modem::new(Mode::Ft8);
    let (burst, _) = burst(&modem, "AB1CD W9XYZ -13", 1500.0, 0.5);
    let buf = ft8_slot(&burst, 12_000.0);

    let plain = decode(&mut Ft8Modem::new(Mode::Ft8), &buf, &ApHints::default(), 1500.0);
    let ap = ApHints { eu_vhf: true, ..Default::default() };
    let contest = decode(&mut Ft8Modem::new(Mode::Ft8), &buf, &ap, 1500.0);
    assert_eq!(
        plain.iter().filter(|d| d.message == "AB1CD W9XYZ -13").count(),
        1,
        "got {plain:?}",
    );
    assert_eq!(
        contest.iter().filter(|d| d.message == "AB1CD W9XYZ -13").count(),
        1,
        "the second pass must not report an ordinary message a second time",
    );
}

/// FT4's hint takes the other path: a targeted decode aimed where we are
/// listening, run *after* the wide pass and merged into it. The wide pass's
/// decodes must all survive.
#[test]
fn an_ft4_a_priori_hint_only_ever_adds_decodes() {
    let ap =
        ApHints { my_call: "AB1CD".into(), dx_call: Some("W9XYZ".into()), ..Default::default() };
    let mut rng: u32 = 0x1234_5678;
    let mut noise = || {
        rng ^= rng << 13;
        rng ^= rng >> 17;
        rng ^= rng << 5;
        (rng as i32 as f32) / (i32::MAX as f32)
    };
    for &level in &[0.05f32, 0.2, 0.5] {
        let modem = Ft8Modem::new(Mode::Ft4);
        let (burst, _) = burst(&modem, "AB1CD W9XYZ -13", 1500.0, 0.5);
        let mut slot = vec![0.0f32; 6_000];
        slot.extend_from_slice(&burst);
        slot.resize((7.5 * 12_000.0) as usize, 0.0);
        let buf: Vec<i16> =
            slot.iter().map(|&s| ((s + level * noise()) * 12_000.0) as i16).collect();

        let plain = decode(&mut Ft8Modem::new(Mode::Ft4), &buf, &ApHints::default(), 1500.0);
        let hinted = decode(&mut Ft8Modem::new(Mode::Ft4), &buf, &ap, 1500.0);
        for d in &plain {
            assert!(
                hinted.iter().any(|h| h.message == d.message),
                "noise {level}: the hinted pass lost {:?}",
                d.message
            );
        }
    }
}

#[test]
fn a_compound_call_is_addressable() {
    // The everyday layout can't hold "DL/W1AW", so the message degrades to the
    // non-standard form: our call travels as a hash, and the returned text says
    // exactly what went out.
    let (sent, decodes) = round_trip(Mode::Ft8, "DL/W1AW AB1CD RR73");
    assert_eq!(sent, "DL/W1AW <AB1CD> RR73");
    let d = decodes.iter().find(|d| d.message.contains("DL/W1AW")).expect("decoded");
    assert_eq!(d.to.as_deref(), Some("DL/W1AW"), "the compound call is the addressee");
    assert_eq!(d.from, None, "our call is hashed, and this receiver has never heard it");

    // A receiver that has heard us resolves the hash to our callsign.
    let mut modem = Ft8Modem::new(Mode::Ft8);
    modem.seed_hashes(&["AB1CD".to_string()]);
    let (burst, _) = burst(&modem, "DL/W1AW AB1CD RR73", 1500.0, 0.5);
    let buf = ft8_slot(&burst, 20_000.0);
    let d = decode(&mut modem, &buf, &ApHints::default(), 1500.0)
        .into_iter()
        .find(|d| d.message.contains("DL/W1AW"))
        .expect("decoded");
    assert_eq!(d.from.as_deref(), Some("AB1CD"));
    assert_eq!(d.message, "DL/W1AW <AB1CD> RR73");
}

/// Answering a non-standard callsign has to carry the report, which the
/// non-standard layout has no room for. It goes out as an ordinary message with
/// that callsign hashed instead.
#[test]
fn a_report_to_a_compound_call_is_carried_by_hashing_it() {
    let mut modem = Ft8Modem::new(Mode::Ft8);
    // Both ends of a real contact know the callsign: the far end because it is
    // its own, this end because the CQ that opened it spelled it out.
    modem.seed_hashes(&["R7KJG/QRP".to_string()]);
    let (burst, sent) = burst(&modem, "R7KJG/QRP F4CYH R-12", 1500.0, 0.5);
    assert_eq!(sent, "<R7KJG/QRP> F4CYH R-12");

    let buf = ft8_slot(&burst, 20_000.0);
    let d = decode(&mut modem, &buf, &ApHints::default(), 1500.0)
        .into_iter()
        .find(|d| d.message.contains("F4CYH"))
        .expect("decoded");
    assert_eq!(d.message, "<R7KJG/QRP> F4CYH R-12");
    assert_eq!(d.to.as_deref(), Some("R7KJG/QRP"), "the compound call is the addressee");
    assert_eq!(d.from.as_deref(), Some("F4CYH"));
}

#[test]
fn a_compound_call_can_call_cq() {
    let (sent, decodes) = round_trip(Mode::Ft8, "CQ DL/W1AW");
    assert_eq!(sent, "CQ DL/W1AW");
    let d = decodes.iter().find(|d| d.message.contains("DL/W1AW")).expect("decoded");
    assert!(d.is_cq);
    assert_eq!(d.from.as_deref(), Some("DL/W1AW"));
}

/// The bits of a message.
fn bits_of(text: &str) -> Vec<u8> {
    sdroxide::pack::pack_message(text).expect("packs").0.to_vec()
}

/// A detection of a message at a place in the passband.
fn at(text: &str, hz: i64) -> Found {
    Found { bits: bits_of(text), snr_db: -10, dt: 0, audio_hz: hz * ONE }
}

/// The same text from the same place is one transmission, a few hertz apart or
/// not; from another place it is another station.
#[test]
fn one_transmission_is_reported_once() {
    let ap = ApHints { my_call: "AB1CD".into(), dx_call: None, eu_vhf: true };
    let messages = |ds: &[Decode]| ds.iter().map(|d| d.audio_hz / ONE).collect::<Vec<_>>();

    // The targeted pass keeps what the wide pass missed, copies of its own
    // among it.
    let mut ft4 = Ft8Modem::new(Mode::Ft4);
    let wide = vec![at("AB1CD W9XYZ -13", 1500)];
    let targeted = vec![
        at("AB1CD W9XYZ -13", 1504),
        at("AB1CD W9XYZ -13", 1505),
        at("AB1CD W9XYZ -13", 1506),
    ];
    let got = ft4.decode_slot(&wide, &targeted, &targeted, 0, &ap);
    assert_eq!(messages(&got), [1500, 1505, 1506]);
    assert!(same_signal(&got[1], &got[2]) && !same_signal(&got[0], &got[1]));

    // Without a hint there is no targeted pass.
    let got = ft4.decode_slot(&wide, &targeted, &targeted, 0, &ApHints::default());
    assert_eq!(messages(&got), [1500]);

    // The contest pass adds one by one, and nothing but contest exchanges.
    let mut ft8 = Ft8Modem::new(Mode::Ft8);
    let exchange = "<PA9XYZ> <G4ABC/P> 590003 IO91NP";
    let wide = vec![at("AB1CD W9XYZ -13", 1500), at(exchange, 1500)];
    let rescued = vec![
        at(exchange, 1504),
        at("AB1CD W9XYZ -13", 1600),
        at(exchange, 1505),
        at(exchange, 1506),
    ];
    let got = ft8.decode_slot(&wide, &targeted, &rescued, 0, &ap);
    assert_eq!(messages(&got), [1500, 1500, 1505]);
    let got = ft8.decode_slot(&wide, &targeted, &rescued, 0, &ApHints::default());
    assert_eq!(messages(&got), [1500, 1500]);
}

/// A contest exchange that the rescue pass found is read with the callsigns the
/// receiver knows.
#[test]
fn a_rescued_contest_exchange_is_addressed() {
    let mut rx = Ft8Modem::new(Mode::Ft8);
    rx.seed_hashes(&["PA9XYZ".into(), "".into(), "G4ABC/P".into()]);
    let rescued = vec![at("<PA9XYZ> <G4ABC/P> R 590003 IO91NP", 1500)];
    let ap = ApHints { eu_vhf: true, ..Default::default() };
    let got = rx.decode_slot(&Vec::new(), &Vec::new(), &rescued, 0, &ap);
    assert_eq!(got[0].message, "<PA9XYZ> <G4ABC/P> R 590003 IO91NP");
    assert_eq!(got[0].to.as_deref(), Some("PA9XYZ"));
    assert_eq!(got[0].from.as_deref(), Some("G4ABC/P"));
}

/// A callsign heard in one slot resolves a hash in the next, and what does not
/// hold 77 bits is passed over.
#[test]
fn a_callsign_heard_resolves_in_the_next_slot() {
    let mut rx = Ft8Modem::new(Mode::Ft8);
    assert_eq!(rx.mode(), Mode::Ft8);
    let none: Vec<Found> = Vec::new();
    let ap = ApHints::default();
    let hashed = vec![at("R7KJG/QRP F4CYH R-12", 1000)];
    let got = rx.decode_slot(&hashed, &none, &none, 15, &ap);
    assert_eq!(got[0].message, "<...> F4CYH R-12");
    assert_eq!(got[0].slot_utc, 15);
    let opening = vec![
        at("CQ R7KJG/QRP", 1000),
        Found { bits: vec![0u8; 76], snr_db: 0, dt: 0, audio_hz: 0 },
    ];
    assert_eq!(rx.decode_slot(&opening, &none, &none, 30, &ap).len(), 1);
    let got = rx.decode_slot(&hashed, &none, &none, 45, &ap);
    assert_eq!(got[0].message, "<R7KJG/QRP> F4CYH R-12");
}

/// An FT2 burst carries the message's bits.
#[test]
fn an_ft2_burst_carries_the_bits() {
    let (burst, sent) = Ft8Modem::new(Mode::Ft2).encode_burst_12k("CQ AB1CD FN42").expect("packs");
    assert_eq!(sent, "CQ AB1CD FN42");
    assert!(matches!(burst, Burst::Ft2(bits) if bits.to_vec() == bits_of("CQ AB1CD FN42")));
    assert!(Ft8Modem::new(Mode::Ft8).encode_burst_12k("").is_none());
}
