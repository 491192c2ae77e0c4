//! The other slotted modes: what their detections decode to.
//!
//! JT65 and JT9 share a 72-bit message with no hashed-callsign layout. FST4
//! carries the 77-bit message of the FT8 family. MSK144, Q65 and FSK441 come as
//! text alone.
use vstd::prelude::*;
use mfsk_core::msg::hash_table::CallsignHashTable;
use crate::eu_vhf::Hashes;
use crate::fixed::{difference, minus, ONE};
use crate::message::{
    addressing, parse_message, parse_text_decode, text_addressing, Addressing, MsgKind, Parsed,
};
use crate::modem::{
    decode_all, decode_views, decode_with, decoded_all, is_decode_of, received_text, tables, Decode,
    DecodeView, Found, Mode,
};
use crate::reader::unheard;

verus! {

/// A 72-bit message.
#[derive(Debug)]
pub enum JtMessage {
    /// The everyday message.
    Standard { call1: String, call2: String, grid_or_report: String },
    /// A compound callsign or free text, which is not unpacked.
    Unsupported,
}

/// One detection of a JT mode.
#[derive(Debug)]
pub struct JtFound {
    pub message: JtMessage,
    pub snr_db: i16,
    /// Where in the slot the signal began.
    pub start: i64,
    pub audio_hz: i64,
}

/// The text of a 72-bit message.
pub open spec fn jt_text(call1: Seq<char>, call2: Seq<char>, grid_or_report: Seq<char>) -> Seq<
    char,
> {
    call1 + seq![' '] + call2 + seq![' '] + grid_or_report
}

/// JT65 and JT9 key one second into their 60-second slot.
pub const JT_TX_OFFSET: i64 = 4_294_967_296;

/// What a detection of a JT mode decodes to.
pub open spec fn jt_decoded(f: JtFound, slot_utc: int) -> Option<DecodeView> {
    match f.message {
        JtMessage::Standard { call1, call2, grid_or_report } => {
            let text = jt_text(call1@, call2@, grid_or_report@);
            Some(
                DecodeView {
                    slot_utc,
                    snr_db: f.snr_db as int,
                    dt: difference(f.start as int, JT_TX_OFFSET as int),
                    audio_hz: f.audio_hz as int,
                    message: text,
                    who: Addressing { rr73_to: None, ..addressing(text, MsgKind::Standard) },
                },
            )
        },
        JtMessage::Unsupported => None,
    }
}

/// What a list of detections of a JT mode decodes to, in order.
pub open spec fn jt_decoded_all(fs: Seq<JtFound>, slot_utc: int) -> Seq<DecodeView>
    decreases fs.len(),
{
    if fs.len() == 0 {
        seq![]
    } else {
        let before = jt_decoded_all(fs.drop_last(), slot_utc);
        match jt_decoded(fs.last(), slot_utc) {
            Some(d) => before.push(d),
            None => before,
        }
    }
}

/// Map one JT message onto a [`Decode`].
///
/// A compound callsign or free text is skipped rather than shown as a row of
/// hex, because a decode list a listener cannot read is worse than a shorter
/// one. `dt` is reported from the one-second transmit offset both modes use: an
/// on-time station reads about 0.
pub fn jt_decode(f: &JtFound, slot_utc: i64) -> (r: Option<Decode>)
    ensures
        match r {
            Some(d) => jt_decoded(*f, slot_utc as int) == Some(d@),
            None => jt_decoded(*f, slot_utc as int) is None,
        },
{
    match &f.message {
        JtMessage::Standard { call1, call2, grid_or_report } => {
            let mut text: String = String::new();
            text.append(call1.as_str());
            text.push(' ');
            text.append(call2.as_str());
            text.push(' ');
            text.append(grid_or_report.as_str());
            assert(text@ =~= jt_text(call1@, call2@, grid_or_report@));
            let p: Parsed = parse_message(text.as_str(), MsgKind::Standard);
            Some(
                decode_with(
                    slot_utc,
                    f.snr_db,
                    minus(f.start, JT_TX_OFFSET),
                    f.audio_hz,
                    text,
                    Parsed { rr73_to: None, ..p },
                ),
            )
        },
        JtMessage::Unsupported => None,
    }
}

/// What a JT slot decodes to. Only the two JT modes have one.
pub open spec fn jt_heard(fs: Seq<JtFound>, mode: Mode, slot_utc: int) -> Seq<DecodeView> {
    if mode == Mode::Jt65 || mode == Mode::Jt9 {
        jt_decoded_all(fs, slot_utc)
    } else {
        seq![]
    }
}

/// Decode one full 60-second JT65 or JT9 slot, given its detections. Any other
/// mode has nothing to decode here.
///
/// A JT decode carries **no CRC** (72 bits, no checksum), so what stands
/// between noise and an invented message is the detector itself. Every row it
/// returns that can be read is shown.
pub fn decode_jt_slot(found: &Vec<JtFound>, mode: Mode, slot_utc: i64) -> (r: Vec<Decode>)
    ensures
        decode_views(r@) == jt_heard(found@, mode, slot_utc as int),
{
    let mut r: Vec<Decode> = Vec::new();
    assert(decode_views(r@) =~= seq![]);
    if !(mode == Mode::Jt65 || mode == Mode::Jt9) {
        return r;
    }
    let mut i: usize = 0;
    while i < found.len()
        invariant
            i <= found@.len(),
            decode_views(r@) == jt_decoded_all(found@.take(i as int), slot_utc as int),
        decreases found@.len() - i,
    {
        let ghost before = r@;
        assert(found@.take(i + 1).drop_last() =~= found@.take(i as int));
        if let Some(d) = jt_decode(&found[i], slot_utc) {
            r.push(d);
            assert(decode_views(r@) =~= decode_views(before).push(d@));
        }
        i = i + 1;
    }
    assert(found@.take(i as int) =~= found@);
    r
}

/// One detection that comes as text.
#[derive(Debug)]
pub struct TextFound {
    pub text: String,
    pub snr_db: i16,
    /// Where in the slot the signal began.
    pub start: i64,
    pub audio_hz: i64,
}

/// What a detection that comes as text decodes to, its start counted from
/// `nominal`; `closing` says whether the contact it closes is told.
pub open spec fn text_decoded(
    f: TextFound,
    slot_utc: int,
    nominal: int,
    closing: bool,
) -> DecodeView {
    let p = text_addressing(f.text@);
    DecodeView {
        slot_utc,
        snr_db: f.snr_db as int,
        dt: difference(f.start as int, nominal),
        audio_hz: f.audio_hz as int,
        message: f.text@,
        who: if closing {
            p
        } else {
            Addressing { rr73_to: None, ..p }
        },
    }
}

/// What a list of detections that come as text decodes to, one for one.
pub open spec fn text_decoded_all(
    fs: Seq<TextFound>,
    slot_utc: int,
    nominal: int,
    closing: bool,
) -> Seq<DecodeView> {
    fs.map_values(|f: TextFound| text_decoded(f, slot_utc, nominal, closing))
}

/// Decode detections that come as text.
fn decode_texts(found: &Vec<TextFound>, slot_utc: i64, nominal: i64, closing: bool) -> (r: Vec<
    Decode,
>)
    ensures
        decode_views(r@) == text_decoded_all(
            found@,
            slot_utc as int,
            nominal as int,
            closing,
        ),
{
    let mut r: Vec<Decode> = Vec::new();
    let mut i: usize = 0;
    while i < found.len()
        invariant
            i <= found@.len(),
            r@.len() == i,
            forall|k: int|
                0 <= k < i ==> (#[trigger] r@[k])@ == text_decoded(
                    found@[k],
                    slot_utc as int,
                    nominal as int,
                    closing,
                ),
        decreases found@.len() - i,
    {
        let f: &TextFound = &found[i];
        let p: Parsed = parse_text_decode(f.text.as_str());
        let q: Parsed = if closing {
            p
        } else {
            Parsed { rr73_to: None, ..p }
        };
        let d: Decode = decode_with(
            slot_utc,
            f.snr_db,
            minus(f.start, nominal),
            f.audio_hz,
            f.text.as_str().to_owned(),
            q,
        );
        r.push(d);
        i = i + 1;
    }
    assert(decode_views(r@) =~= text_decoded_all(
        found@,
        slot_utc as int,
        nominal as int,
        closing,
    ));
    r
}

/// What an MSK144 slot decodes to.
pub open spec fn msk144_heard(fs: Seq<TextFound>, slot_utc: int) -> Seq<DecodeView> {
    text_decoded_all(fs, slot_utc, 0, false)
}

/// What a Q65 slot decodes to.
pub open spec fn q65_heard(fs: Seq<TextFound>, mode: Q65Mode, slot_utc: int) -> Seq<DecodeView> {
    text_decoded_all(fs, slot_utc, q65_start(mode), false)
}

/// What an FSK441 slot decodes to.
pub open spec fn fsk441_heard(fs: Seq<TextFound>, slot_utc: int) -> Seq<DecodeView> {
    text_decoded_all(fs, slot_utc, 0, true)
}

/// What an FST4 slot decodes to.
pub open spec fn fst4_heard(fs: Seq<Found>, slot_utc: int) -> Seq<DecodeView> {
    decoded_all(fs, slot_utc, unheard())
}

/// Decode one 15-second MSK144 slot, given its detections.
///
/// MSK144 is not a frame at a fixed offset: the operator transmits through the
/// whole period and the detector slides a window across the slot looking for
/// meteor-trail bursts, so `dt` is the time *into* the slot a burst was found
/// at.
pub fn decode_msk144_slot(found: &Vec<TextFound>, slot_utc: i64) -> (r: Vec<Decode>)
    ensures
        decode_views(r@) == msk144_heard(found@, slot_utc as int),
{
    decode_texts(found, slot_utc, 0, false)
}

/// The Q65 sub-modes.
#[derive(Debug, Clone, Copy, PartialEq, Eq, Structural)]
pub enum Q65Mode {
    A15,
    A30,
    A60,
    B60,
    C60,
    D60,
    E60,
    D120,
    E120,
    A300,
}

/// Where in its slot a Q65 sub-mode keys: half a second in for 15A and 30A, one
/// second for the rest.
pub open spec fn q65_start(mode: Q65Mode) -> int {
    match mode {
        Q65Mode::A15 | Q65Mode::A30 => ONE / 2,
        _ => ONE as int,
    }
}

impl Q65Mode {
    /// Where in its slot the sub-mode keys.
    pub fn start_delay(self) -> (r: i64)
        ensures
            r == q65_start(self),
    {
        match self {
            Q65Mode::A15 | Q65Mode::A30 => ONE / 2,
            _ => ONE,
        }
    }
}

/// Decode one full Q65 slot at the chosen sub-mode, given its detections.
///
/// The detector reports each frame's start from the start of the slot, so the
/// sub-mode's nominal start comes off it to give `dt`.
pub fn decode_q65_slot(found: &Vec<TextFound>, mode: Q65Mode, slot_utc: i64) -> (r: Vec<Decode>)
    ensures
        decode_views(r@) == q65_heard(found@, mode, slot_utc as int),
{
    decode_texts(found, slot_utc, mode.start_delay(), false)
}

/// Decode one FSK441 slot, given its pings.
///
/// FSK441 is a meteor-scatter mode: the operator transmits the message over and
/// over through the whole period and the receiver hears only the short
/// reflections off ionised trails. Each ping carries the time into the slot it
/// was found at, which becomes `dt`.
pub fn decode_fsk441_slot(found: &Vec<TextFound>, slot_utc: i64) -> (r: Vec<Decode>)
    ensures
        decode_views(r@) == fsk441_heard(found@, slot_utc as int),
{
    decode_texts(found, slot_utc, 0, true)
}

/// Decode one full FST4 slot, given its detections.
///
/// FST4 carries the same 77-bit message as FT8, hashed-callsign layouts
/// included. No session hash table is kept for it, so a hashed callsign reads
/// as `<...>` rather than being resolved.
pub fn decode_fst4_slot(found: &Vec<Found>, slot_utc: i64) -> (r: Vec<Decode>)
    ensures
        decode_views(r@) == fst4_heard(found@, slot_utc as int),
{
    let hashes: CallsignHashTable = CallsignHashTable::new();
    let eu_hashes: Hashes = Hashes::default();
    assert(tables(hashes, eu_hashes) =~= unheard());
    decode_all(found, slot_utc, &hashes, &eu_hashes)
}

// ── What holds of the whole ─────────────────────────────────────────────────

/// A text-only mode shows every detection, in order, and names only what looks
/// like a callsign.
pub proof fn law_text_modes_show_every_detection(
    fs: Seq<TextFound>,
    slot_utc: int,
    nominal: int,
    closing: bool,
    k: int,
)
    requires
        0 <= k < fs.len(),
    ensures
        text_decoded_all(fs, slot_utc, nominal, closing).len() == fs.len(),
        text_decoded_all(fs, slot_utc, nominal, closing)[k].message == fs[k].text@,
        crate::message::missing_or_callish(
            text_decoded_all(fs, slot_utc, nominal, closing)[k].who.from,
        ),
        crate::message::missing_or_callish(
            text_decoded_all(fs, slot_utc, nominal, closing)[k].who.to,
        ),
{
}

/// Whether a decode is that of a detection of a JT mode: where and how strongly
/// it was found, its text the three words of the message, its start counted from
/// one second in.
pub open spec fn is_jt_decode_of(d: DecodeView, f: JtFound, slot_utc: int) -> bool {
    &&& d.slot_utc == slot_utc
    &&& d.snr_db == f.snr_db
    &&& d.audio_hz == f.audio_hz
    &&& i64::MIN <= f.start - ONE ==> d.dt + ONE == f.start
    &&& match f.message {
        JtMessage::Standard { call1, call2, grid_or_report } => d.message == call1@ + seq![' ']
            + call2@ + seq![' '] + grid_or_report@,
        JtMessage::Unsupported => false,
    }
    &&& !d.who.free_text && d.who.rr73_to is None
    &&& d.who.to == addressing(d.message, MsgKind::Standard).to
    &&& d.who.from == addressing(d.message, MsgKind::Standard).from
    &&& d.who.grid == addressing(d.message, MsgKind::Standard).grid
    &&& d.who.is_cq == addressing(d.message, MsgKind::Standard).is_cq
    &&& d.who.cq_to == addressing(d.message, MsgKind::Standard).cq_to
}

/// A JT slot decodes to its readable detections, one after the other: a longer
/// list to what its parts decode to, a readable detection to its own decode, and
/// an unreadable one to nothing.
pub proof fn law_jt_detections_decode_in_order(
    fs: Seq<JtFound>,
    gs: Seq<JtFound>,
    f: JtFound,
    slot_utc: int,
)
    ensures
        jt_decoded_all(fs + gs, slot_utc) == jt_decoded_all(fs, slot_utc) + jt_decoded_all(
            gs,
            slot_utc,
        ),
        f.message is Standard ==> jt_decoded_all(seq![f], slot_utc).len() == 1 && is_jt_decode_of(
            jt_decoded_all(seq![f], slot_utc)[0],
            f,
            slot_utc,
        ),
        f.message is Unsupported ==> jt_decoded_all(seq![f], slot_utc).len() == 0,
    decreases gs.len(),
{
    reveal_with_fuel(jt_decoded_all, 2);
    assert(seq![f].drop_last() =~= seq![]);
    assert(seq![f].last() == f);
    if gs.len() == 0 {
        assert(fs + gs =~= fs);
    } else {
        law_jt_detections_decode_in_order(fs, gs.drop_last(), f, slot_utc);
        assert((fs + gs).drop_last() =~= fs + gs.drop_last());
        assert((fs + gs).last() == gs.last());
    }
    assert(jt_decoded_all(fs + gs, slot_utc) =~= jt_decoded_all(fs, slot_utc) + jt_decoded_all(
        gs,
        slot_utc,
    ));
}

/// Every decode of a JT slot stands where one of its detections was found.
pub proof fn law_every_jt_decode_is_of_a_detection(fs: Seq<JtFound>, slot_utc: int, i: int)
    requires
        0 <= i < jt_decoded_all(fs, slot_utc).len(),
    ensures
        exists|k: int|
            0 <= k < fs.len() && is_jt_decode_of(
                jt_decoded_all(fs, slot_utc)[i],
                #[trigger] fs[k],
                slot_utc,
            ),
    decreases fs.len(),
{
    let front = fs.drop_last();
    let before = jt_decoded_all(front, slot_utc);
    let d = jt_decoded_all(fs, slot_utc)[i];
    if i < before.len() {
        law_every_jt_decode_is_of_a_detection(front, slot_utc, i);
        let k = choose|k: int|
            0 <= k < front.len() && is_jt_decode_of(d, #[trigger] front[k], slot_utc);
        assert(is_jt_decode_of(d, fs[k], slot_utc));
    } else {
        assert(is_jt_decode_of(d, fs[fs.len() - 1], slot_utc));
    }
}

/// A detection that comes as text is shown where and as strongly as it was found,
/// its start counted from the nominal one, with whom its text names.
pub proof fn law_a_text_decode_stands_where_it_was_found(
    fs: Seq<TextFound>,
    slot_utc: int,
    nominal: int,
    closing: bool,
    k: int,
)
    requires
        0 <= k < fs.len(),
        i64::MIN <= fs[k].start - nominal <= i64::MAX,
    ensures
        ({
            let d = text_decoded_all(fs, slot_utc, nominal, closing)[k];
            let p = text_addressing(fs[k].text@);
            &&& d.slot_utc == slot_utc
            &&& d.snr_db == fs[k].snr_db
            &&& d.audio_hz == fs[k].audio_hz
            &&& d.dt + nominal == fs[k].start
            &&& d.message == fs[k].text@
            &&& d.who.to == p.to && d.who.from == p.from && d.who.grid == p.grid
            &&& d.who.is_cq == p.is_cq && d.who.cq_to == p.cq_to && d.who.free_text == p.free_text
            &&& closing ==> d.who.rr73_to == p.rr73_to
            &&& !closing ==> d.who.rr73_to is None
        }),
{
}

/// The short Q65 sub-modes key half a second into their slot, the others a whole
/// one.
pub proof fn law_q65_keys_half_a_second_or_one_in(mode: Q65Mode)
    ensures
        mode == Q65Mode::A15 || mode == Q65Mode::A30 ==> 2 * q65_start(mode) == ONE,
        mode != Q65Mode::A15 && mode != Q65Mode::A30 ==> q65_start(mode) == ONE,
{
}

/// The meteor-scatter modes tell how far into the slot each burst was found, and
/// Q65 how far off its nominal start: half a second in for 15A and 30A, a second
/// for the rest. Each shows every detection, in order, and only FSK441 tells
/// whose contact a message closes.
pub proof fn law_each_mode_tells_the_start_its_own_way(
    fs: Seq<TextFound>,
    mode: Q65Mode,
    slot_utc: int,
    k: int,
)
    requires
        0 <= k < fs.len(),
    ensures
        msk144_heard(fs, slot_utc).len() == fs.len(),
        msk144_heard(fs, slot_utc)[k].dt == fs[k].start,
        msk144_heard(fs, slot_utc)[k].message == fs[k].text@,
        msk144_heard(fs, slot_utc)[k].audio_hz == fs[k].audio_hz,
        msk144_heard(fs, slot_utc)[k].snr_db == fs[k].snr_db,
        msk144_heard(fs, slot_utc)[k].slot_utc == slot_utc,
        msk144_heard(fs, slot_utc)[k].who.from == text_addressing(fs[k].text@).from,
        msk144_heard(fs, slot_utc)[k].who.to == text_addressing(fs[k].text@).to,
        msk144_heard(fs, slot_utc)[k].who.rr73_to is None,
        fsk441_heard(fs, slot_utc).len() == fs.len(),
        fsk441_heard(fs, slot_utc)[k].dt == fs[k].start,
        fsk441_heard(fs, slot_utc)[k].message == fs[k].text@,
        fsk441_heard(fs, slot_utc)[k].audio_hz == fs[k].audio_hz,
        fsk441_heard(fs, slot_utc)[k].snr_db == fs[k].snr_db,
        fsk441_heard(fs, slot_utc)[k].slot_utc == slot_utc,
        fsk441_heard(fs, slot_utc)[k].who == text_addressing(fs[k].text@),
        q65_heard(fs, mode, slot_utc).len() == fs.len(),
        mode == Q65Mode::A15 || mode == Q65Mode::A30 ==> i64::MIN + ONE <= fs[k].start ==> 2 * (
        fs[k].start - q65_heard(fs, mode, slot_utc)[k].dt) == ONE,
        mode != Q65Mode::A15 && mode != Q65Mode::A30 ==> i64::MIN + ONE <= fs[k].start ==> fs[k].start
            - q65_heard(fs, mode, slot_utc)[k].dt == ONE,
        q65_heard(fs, mode, slot_utc)[k].message == fs[k].text@,
        q65_heard(fs, mode, slot_utc)[k].audio_hz == fs[k].audio_hz,
        q65_heard(fs, mode, slot_utc)[k].snr_db == fs[k].snr_db,
        q65_heard(fs, mode, slot_utc)[k].slot_utc == slot_utc,
        q65_heard(fs, mode, slot_utc)[k].who.from == text_addressing(fs[k].text@).from,
        q65_heard(fs, mode, slot_utc)[k].who.to == text_addressing(fs[k].text@).to,
        q65_heard(fs, mode, slot_utc)[k].who.rr73_to is None,
{
}

/// The two JT modes decode alike, and no other mode decodes here.
pub proof fn law_only_the_jt_modes_decode_here(fs: Seq<JtFound>, f: JtFound, mode: Mode, slot_utc: int)
    ensures
        jt_heard(fs, Mode::Jt65, slot_utc) == jt_heard(fs, Mode::Jt9, slot_utc),
        mode != Mode::Jt65 && mode != Mode::Jt9 ==> jt_heard(fs, mode, slot_utc).len() == 0,
        f.message is Standard ==> jt_heard(fs.push(f), Mode::Jt9, slot_utc).len() == jt_heard(
            fs,
            Mode::Jt9,
            slot_utc,
        ).len() + 1 && is_jt_decode_of(
            jt_heard(fs.push(f), Mode::Jt9, slot_utc).last(),
            f,
            slot_utc,
        ),
        f.message is Unsupported ==> jt_heard(fs.push(f), Mode::Jt9, slot_utc) == jt_heard(
            fs,
            Mode::Jt9,
            slot_utc,
        ),
{
    assert(fs.push(f).drop_last() =~= fs);
}

/// An FST4 decode is that of a detection as a station reads it that has heard
/// nobody.
pub proof fn law_every_fst4_decode_is_of_a_detection(fs: Seq<Found>, f: Found, slot_utc: int)
    ensures
        f.bits@.len() == 77 && received_text(f.bits@, unheard()) is Some ==> fst4_heard(
            fs.push(f),
            slot_utc,
        ).len() == fst4_heard(fs, slot_utc).len() + 1 && is_decode_of(
            fst4_heard(fs.push(f), slot_utc).last(),
            f,
            slot_utc,
            unheard(),
        ),
        forall|i: int|
            0 <= i < fst4_heard(fs, slot_utc).len() ==> #[trigger] fst4_heard(
                fs.push(f),
                slot_utc,
            )[i] == fst4_heard(fs, slot_utc)[i],
        fst4_heard(fs.push(f), slot_utc).len() <= fst4_heard(fs, slot_utc).len() + 1,
        fst4_heard(seq![], slot_utc).len() == 0,
{
    assert(fs.push(f).drop_last() =~= fs);
}

} // verus!
