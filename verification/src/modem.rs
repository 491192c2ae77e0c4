//! The FT8 family: what a receive slot's detections decode to, and what a
//! message goes out as.
//!
//! The signal processing is `mfsk-core`'s. It hands over the 77 bits of every
//! detection, and takes the tones of every message.
//!
//! Seconds and hertz are fixed-point numbers here, [`ONE`] to the unit.
use vstd::prelude::*;
use mfsk_core::msg::ApHint;
use mfsk_core::msg::hash_table::CallsignHashTable;
use mfsk_core::msg::wsjt77;
use crate::eu_vhf;
use crate::eu_vhf::{heard_call, not_a_call, unpacked, Hashes};
use crate::fixed::ONE;
use crate::hints::ApHints;
use crate::message::{addressing, kind_of_bits, msg_kind, parse_message, Addressing, MsgKind, Parsed};
use crate::mfsk::{
    callsign_hash, ft4_tones, ft8_tones, table_call, table_heard, table_ignores, table_recent, tones_of_ft4,
    tones_of_ft8, unpack77_text,
};
use crate::pack::{arrives, outgoing, pack_message, packed};
use crate::reader::{
    law_a_callsign_heard_is_filed_under_its_hashes, law_a_callsign_heard_resolves,
    lemma_resolved_is_spelled, read_by, reader_after, resolves,
    resolves_all, shown_all, unheard, Hashed, Reader,
};
use crate::text::{opt_view, same, views};

verus! {

/// The digital modes.
#[derive(Debug, Clone, Copy, PartialEq, Eq, Structural)]
pub enum Mode {
    Ft8,
    Ft4,
    Ft2,
    Jt65,
    Jt9,
    Fst4,
    Q65,
    Msk144,
    Fsk441,
}

/// The FT8 family's protocols.
#[derive(Debug, Clone, Copy, PartialEq, Eq, Structural)]
pub enum Protocol {
    Ft8,
    Ft4,
    Ft2,
}

/// Which protocol a modem for a mode speaks.
pub open spec fn protocol_of(mode: Mode) -> Protocol {
    match mode {
        Mode::Ft4 => Protocol::Ft4,
        Mode::Ft2 => Protocol::Ft2,
        _ => Protocol::Ft8,
    }
}

/// One decoded message.
#[derive(Debug)]
pub struct Decode {
    /// When the slot began, in seconds since 1970.
    pub slot_utc: i64,
    /// Signal-to-noise ratio.
    pub snr_db: i16,
    /// How far off the nominal start the signal began.
    pub dt: i64,
    /// Where in the passband it was.
    pub audio_hz: i64,
    /// The message as it reads.
    pub message: String,
    /// Who it is for.
    pub to: Option<String>,
    /// Who sent it.
    pub from: Option<String>,
    /// Where the sender is.
    pub grid: Option<String>,
    /// Whether the sender calls anyone who hears.
    pub is_cq: bool,
    /// Who such a call is aimed at, if not at everyone.
    pub cq_to: Option<String>,
    /// Whether the message is free text, which names nobody.
    pub free_text: bool,
    /// Whose contact the message closes beside the one it opens.
    pub rr73_to: Option<String>,
}

/// One decoded message, over its characters.
#[verifier::ext_equal]
pub struct DecodeView {
    pub slot_utc: int,
    pub snr_db: int,
    pub dt: int,
    pub audio_hz: int,
    pub message: Seq<char>,
    pub who: Addressing,
}

impl View for Decode {
    type V = DecodeView;

    open spec fn view(&self) -> DecodeView {
        DecodeView {
            slot_utc: self.slot_utc as int,
            snr_db: self.snr_db as int,
            dt: self.dt as int,
            audio_hz: self.audio_hz as int,
            message: self.message@,
            who: Addressing {
                to: opt_view(self.to),
                from: opt_view(self.from),
                grid: opt_view(self.grid),
                is_cq: self.is_cq,
                cq_to: opt_view(self.cq_to),
                free_text: self.free_text,
                rr73_to: opt_view(self.rr73_to),
            },
        }
    }
}

/// A list of decodes, over their characters.
pub open spec fn decode_views(ds: Seq<Decode>) -> Seq<DecodeView> {
    ds.map_values(|d: Decode| d@)
}

/// A decode of one text.
pub fn decode_with(
    slot_utc: i64,
    snr_db: i16,
    dt: i64,
    audio_hz: i64,
    message: String,
    p: Parsed,
) -> (r: Decode)
    ensures
        r@ == (DecodeView {
            slot_utc: slot_utc as int,
            snr_db: snr_db as int,
            dt: dt as int,
            audio_hz: audio_hz as int,
            message: message@,
            who: p@,
        }),
{
    Decode {
        slot_utc,
        snr_db,
        dt,
        audio_hz,
        message,
        to: p.to,
        from: p.from,
        grid: p.grid,
        is_cq: p.is_cq,
        cq_to: p.cq_to,
        free_text: p.free_text,
        rr73_to: p.rr73_to,
    }
}

/// One detection: the bits of a message, and where they were found.
#[derive(Debug)]
pub struct Found {
    /// The message, one bit to the byte.
    pub bits: Vec<u8>,
    /// Signal-to-noise ratio.
    pub snr_db: i16,
    /// How far off the nominal start the signal began.
    pub dt: i64,
    /// Where in the passband it was.
    pub audio_hz: i64,
}

/// What the two tables of callsigns heard amount to.
pub open spec fn tables(hashes: CallsignHashTable, eu_hashes: Hashes) -> Reader {
    Reader { heard: table_heard(hashes), recent: table_recent(hashes), calls: eu_hashes@ }
}

/// What a message's bits read as.
pub open spec fn received_text(bits: Seq<u8>, reader: Reader) -> Option<Seq<char>> {
    if kind_of_bits(bits) == MsgKind::EuVhf {
        unpacked(bits, reader.calls)
    } else {
        unpack77_text(bits, reader.heard, reader.recent)
    }
}

/// What a detection decodes to: nothing, where it does not hold 77 bits or they
/// cannot be read.
pub open spec fn decoded(f: Found, slot_utc: int, reader: Reader) -> Option<DecodeView> {
    match received_text(f.bits@, reader) {
        Some(text) => if f.bits@.len() == 77 {
            Some(
                DecodeView {
                    slot_utc,
                    snr_db: f.snr_db as int,
                    dt: f.dt as int,
                    audio_hz: f.audio_hz as int,
                    message: text,
                    who: addressing(text, kind_of_bits(f.bits@)),
                },
            )
        } else {
            None
        },
        None => None,
    }
}

/// What a list of detections decodes to, in order.
pub open spec fn decoded_all(fs: Seq<Found>, slot_utc: int, reader: Reader) -> Seq<DecodeView>
    decreases fs.len(),
{
    if fs.len() == 0 {
        seq![]
    } else {
        let before = decoded_all(fs.drop_last(), slot_utc, reader);
        match decoded(fs.last(), slot_utc, reader) {
            Some(d) => before.push(d),
            None => before,
        }
    }
}

/// What a detection of the contest pass decodes to: nothing, where it is not in
/// the contest layout.
pub open spec fn rescued(f: Found, slot_utc: int, reader: Reader) -> Option<DecodeView> {
    if kind_of_bits(f.bits@) == MsgKind::EuVhf {
        decoded(f, slot_utc, reader)
    } else {
        None
    }
}

/// What the detections of the contest pass decode to, in order.
pub open spec fn rescued_all(fs: Seq<Found>, slot_utc: int, reader: Reader) -> Seq<DecodeView>
    decreases fs.len(),
{
    if fs.len() == 0 {
        seq![]
    } else {
        let before = rescued_all(fs.drop_last(), slot_utc, reader);
        match rescued(fs.last(), slot_utc, reader) {
            Some(d) => before.push(d),
            None => before,
        }
    }
}

/// Unpack 77 message bits and build a [`Decode`], or `None` if unpacking fails.
/// `hashes` resolves the `<...>` placeholders of hashed callsigns, and
/// `eu_hashes` the ones the EU VHF contest layout uses.
pub fn build_decode(
    bits77: &[u8; 77],
    snr_db: i16,
    dt: i64,
    audio_hz: i64,
    slot_utc: i64,
    hashes: &CallsignHashTable,
    eu_hashes: &Hashes,
) -> (r: Option<Decode>)
    ensures
        match r {
            Some(d) => received_text(bits77@, tables(*hashes, *eu_hashes)) == Some(d.message@)
                && d@ == (DecodeView {
                slot_utc: slot_utc as int,
                snr_db: snr_db as int,
                dt: dt as int,
                audio_hz: audio_hz as int,
                message: d.message@,
                who: addressing(d.message@, kind_of_bits(bits77@)),
            }),
            None => received_text(bits77@, tables(*hashes, *eu_hashes)) is None,
        },
        read_by(
            bits77@,
            tables(*hashes, *eu_hashes),
            match r {
                Some(d) => Some(d.message@),
                None => None,
            },
        ),
{
    let kind: MsgKind = msg_kind(bits77);
    let read: Option<String> = if kind == MsgKind::EuVhf {
        eu_vhf::unpack(bits77, eu_hashes)
    } else {
        wsjt77::unpack77_with_hash(bits77, hashes)
    };
    match read {
        Some(text) => {
            let p: Parsed = parse_message(text.as_str(), kind);
            Some(decode_with(slot_utc, snr_db, dt, audio_hz, text, p))
        },
        None => None,
    }
}

/// The 77 bits of a detection, if it holds that many.
fn bits77_of(bits: &Vec<u8>) -> (r: Option<[u8; 77]>)
    ensures
        match r {
            Some(m) => m@ == bits@,
            None => bits@.len() != 77,
        },
{
    if bits.len() != 77 {
        return None;
    }
    let mut m: [u8; 77] = [0u8; 77];
    let mut i: usize = 0;
    while i < 77
        invariant
            i <= 77,
            bits@.len() == 77,
            m@.len() == 77,
            forall|k: int| 0 <= k < i ==> m@[k] == bits@[k],
        decreases 77 - i,
    {
        m[i] = bits[i];
        i = i + 1;
    }
    assert(m@ =~= bits@);
    Some(m)
}

/// Decode one detection.
fn decode_found(
    f: &Found,
    slot_utc: i64,
    hashes: &CallsignHashTable,
    eu_hashes: &Hashes,
) -> (r: Option<Decode>)
    ensures
        match r {
            Some(d) => decoded(*f, slot_utc as int, tables(*hashes, *eu_hashes)) == Some(d@),
            None => decoded(*f, slot_utc as int, tables(*hashes, *eu_hashes)) is None,
        },
{
    match bits77_of(&f.bits) {
        Some(m) => build_decode(&m, f.snr_db, f.dt, f.audio_hz, slot_utc, hashes, eu_hashes),
        None => None,
    }
}

/// Decode a list of detections, in order.
pub fn decode_all(
    found: &Vec<Found>,
    slot_utc: i64,
    hashes: &CallsignHashTable,
    eu_hashes: &Hashes,
) -> (r: Vec<Decode>)
    ensures
        decode_views(r@) == decoded_all(found@, slot_utc as int, tables(*hashes, *eu_hashes)),
{
    let ghost reader = tables(*hashes, *eu_hashes);
    let mut r: Vec<Decode> = Vec::new();
    let mut i: usize = 0;
    assert(decode_views(r@) =~= seq![]);
    while i < found.len()
        invariant
            i <= found@.len(),
            reader == tables(*hashes, *eu_hashes),
            decode_views(r@) == decoded_all(found@.take(i as int), slot_utc as int, reader),
        decreases found@.len() - i,
    {
        let ghost before = r@;
        assert(found@.take(i + 1).drop_last() =~= found@.take(i as int));
        if let Some(d) = decode_found(&found[i], slot_utc, hashes, eu_hashes) {
            r.push(d);
            assert(decode_views(r@) =~= decode_views(before).push(d@));
        }
        i = i + 1;
    }
    assert(found@.take(i as int) =~= found@);
    r
}

/// Decode one detection of the contest pass.
fn decode_rescued(
    f: &Found,
    slot_utc: i64,
    hashes: &CallsignHashTable,
    eu_hashes: &Hashes,
) -> (r: Option<Decode>)
    ensures
        match r {
            Some(d) => rescued(*f, slot_utc as int, tables(*hashes, *eu_hashes)) == Some(d@),
            None => rescued(*f, slot_utc as int, tables(*hashes, *eu_hashes)) is None,
        },
{
    match bits77_of(&f.bits) {
        Some(m) => if msg_kind(&m) == MsgKind::EuVhf {
            build_decode(&m, f.snr_db, f.dt, f.audio_hz, slot_utc, hashes, eu_hashes)
        } else {
            None
        },
        None => None,
    }
}

/// Decode the detections of the contest pass, in order. The pass is made for
/// that one layout, and nothing else is taken from it.
fn decode_contest(
    found: &Vec<Found>,
    slot_utc: i64,
    hashes: &CallsignHashTable,
    eu_hashes: &Hashes,
) -> (r: Vec<Decode>)
    ensures
        decode_views(r@) == rescued_all(found@, slot_utc as int, tables(*hashes, *eu_hashes)),
{
    let ghost reader = tables(*hashes, *eu_hashes);
    let mut r: Vec<Decode> = Vec::new();
    let mut i: usize = 0;
    assert(decode_views(r@) =~= seq![]);
    while i < found.len()
        invariant
            i <= found@.len(),
            reader == tables(*hashes, *eu_hashes),
            decode_views(r@) == rescued_all(found@.take(i as int), slot_utc as int, reader),
        decreases found@.len() - i,
    {
        let ghost before = r@;
        assert(found@.take(i + 1).drop_last() =~= found@.take(i as int));
        if let Some(d) = decode_rescued(&found[i], slot_utc, hashes, eu_hashes) {
            r.push(d);
            assert(decode_views(r@) =~= decode_views(before).push(d@));
        }
        i = i + 1;
    }
    assert(found@.take(i as int) =~= found@);
    r
}

/// The distance of two positions in the passband.
pub open spec fn apart(a: int, b: int) -> int {
    if a < b {
        b - a
    } else {
        a - b
    }
}

/// Whether two decodes are the same transmission.
pub open spec fn is_same_signal(a: DecodeView, b: DecodeView) -> bool {
    a.message == b.message && apart(a.audio_hz, b.audio_hz) < 5 * ONE
}

/// True when two decodes are the same transmission seen by two passes: same
/// text from the same place in the passband. The tolerance is a few Hz, so two
/// stations sending identical text at different offsets stay distinct.
pub fn same_signal(a: &Decode, b: &Decode) -> (r: bool)
    ensures
        r == is_same_signal(a@, b@),
{
    let d: i128 = if a.audio_hz < b.audio_hz {
        b.audio_hz as i128 - a.audio_hz as i128
    } else {
        a.audio_hz as i128 - b.audio_hz as i128
    };
    same(a.message.as_str(), b.message.as_str()) && d < 5 * ONE as i128
}

/// Whether one of `ds` is the same transmission as `d`.
pub open spec fn among(ds: Seq<DecodeView>, d: DecodeView) -> bool {
    exists|i: int| 0 <= i < ds.len() && is_same_signal(#[trigger] ds[i], d)
}

/// Whether one of `ds` is the same transmission as `d`.
fn is_among(ds: &Vec<Decode>, d: &Decode) -> (r: bool)
    ensures
        r == among(decode_views(ds@), d@),
{
    let ghost vs = decode_views(ds@);
    let mut i: usize = 0;
    while i < ds.len()
        invariant
            i <= ds@.len(),
            vs == decode_views(ds@),
            forall|k: int| 0 <= k < i ==> !is_same_signal(#[trigger] vs[k], d@),
        decreases ds@.len() - i,
    {
        assert(vs[i as int] == ds@[i as int]@);
        if same_signal(&ds[i], d) {
            return true;
        }
        i = i + 1;
    }
    false
}

/// Those of `extra` that are not among `heard`, in order.
pub open spec fn not_among(heard: Seq<DecodeView>, extra: Seq<DecodeView>) -> Seq<DecodeView>
    decreases extra.len(),
{
    if extra.len() == 0 {
        seq![]
    } else {
        let before = not_among(heard, extra.drop_last());
        if among(heard, extra.last()) {
            before
        } else {
            before.push(extra.last())
        }
    }
}

/// `heard` with each of `extra` that it does not hold yet, one after the other.
pub open spec fn added_one_by_one(heard: Seq<DecodeView>, extra: Seq<DecodeView>) -> Seq<DecodeView>
    decreases extra.len(),
{
    if extra.len() == 0 {
        heard
    } else {
        let before = added_one_by_one(heard, extra.drop_last());
        if among(before, extra.last()) {
            before
        } else {
            before.push(extra.last())
        }
    }
}

/// The decodes of a slot, given what each pass found. A targeted pass is made
/// for FT4 where there is something to hint with, and keeps what the wide pass
/// missed. The contest pass is made for FT8 where the contest is selected, and
/// keeps what is not there yet.
pub open spec fn slot_decodes(
    protocol: Protocol,
    hinted: bool,
    contest: bool,
    wide: Seq<DecodeView>,
    targeted: Seq<DecodeView>,
    rescued: Seq<DecodeView>,
) -> Seq<DecodeView> {
    let first = if protocol == Protocol::Ft4 && hinted {
        wide + not_among(wide, targeted)
    } else {
        wide
    };
    if protocol == Protocol::Ft8 && contest {
        added_one_by_one(first, rescued)
    } else {
        first
    }
}

/// The decodes of a slot, given what each pass detected and what is known of the
/// message.
pub open spec fn slot_heard(
    mode: Mode,
    ap: ApHints,
    wide: Seq<Found>,
    targeted: Seq<Found>,
    rescued: Seq<Found>,
    slot_utc: int,
    reader: Reader,
) -> Seq<DecodeView> {
    slot_decodes(
        protocol_of(mode),
        ap.me() is Some,
        ap.eu_vhf,
        decoded_all(wide, slot_utc, reader),
        decoded_all(targeted, slot_utc, reader),
        rescued_all(rescued, slot_utc, reader),
    )
}

/// What a station has heard after a callsign that may be missing.
pub open spec fn reader_after_opt(reader: Reader, call: Option<Seq<char>>) -> Reader {
    match call {
        Some(c) => reader_after(reader, c),
        None => reader,
    }
}

/// What a station has heard after a list of decodes: of each, the addressee and
/// then the sender.
pub open spec fn learned(reader: Reader, ds: Seq<DecodeView>) -> Reader
    decreases ds.len(),
{
    if ds.len() == 0 {
        reader
    } else {
        let before = learned(reader, ds.drop_last());
        reader_after_opt(reader_after_opt(before, ds.last().who.to), ds.last().who.from)
    }
}

/// What a station has heard after a list of callsigns, the empty ones left out.
pub open spec fn seeded(reader: Reader, calls: Seq<Seq<char>>) -> Reader
    decreases calls.len(),
{
    if calls.len() == 0 {
        reader
    } else {
        let before = seeded(reader, calls.drop_last());
        if calls.last().len() > 0 {
            reader_after(before, calls.last())
        } else {
            before
        }
    }
}

/// The passes a slot is worth.
pub struct Passes {
    /// Which protocol to search the whole passband for.
    pub wide: Protocol,
    /// The hint to give that search.
    pub wide_hint: Option<ApHint>,
    /// The hint for a second search where we are listening, if there is to be
    /// one.
    pub targeted: Option<ApHint>,
    /// Whether to search for the contest exchange, which the first search
    /// cannot return.
    pub rescue: bool,
}

/// A message ready for its tones to be played.
#[derive(Debug)]
pub enum Burst {
    /// The tones of an FT8 message.
    Ft8(Vec<u8>),
    /// The tones of an FT4 message.
    Ft4(Vec<u8>),
    /// The bits of an FT2 message.
    Ft2([u8; 77]),
}

/// Whether a burst is a message's in a protocol.
pub open spec fn is_burst(b: Burst, protocol: Protocol, bits: Seq<u8>) -> bool {
    match b {
        Burst::Ft8(tones) => protocol == Protocol::Ft8 && tones@ == ft8_tones(bits),
        Burst::Ft4(tones) => protocol == Protocol::Ft4 && tones@ == ft4_tones(bits),
        Burst::Ft2(m) => protocol == Protocol::Ft2 && m@ == bits,
    }
}

/// Encode/decode engine for one digital mode.
pub struct Ft8Modem {
    mode: Mode,
    /// Callsigns heard this session, so the `<...>` placeholders in
    /// non-standard-callsign and DXpedition messages resolve to real calls.
    hashes: CallsignHashTable,
    /// The same callsigns again, hashed the way the EU VHF contest layout
    /// needs them.
    eu_hashes: Hashes,
}

impl View for Ft8Modem {
    type V = Reader;

    /// The callsigns heard.
    closed spec fn view(&self) -> Reader {
        tables(self.hashes, self.eu_hashes)
    }
}

impl Ft8Modem {
    /// The mode the modem is for.
    pub closed spec fn tuned(&self) -> Mode {
        self.mode
    }

    /// A modem that has heard nobody.
    pub fn new(mode: Mode) -> (r: Self)
        ensures
            r.tuned() == mode,
            r@ == unheard(),
    {
        let r = Ft8Modem {
            mode,
            hashes: CallsignHashTable::new(),
            eu_hashes: Hashes::default(),
        };
        assert(r@ =~= unheard());
        r
    }

    /// The mode the modem is for.
    pub fn mode(&self) -> (r: Mode)
        ensures
            r == self.tuned(),
    {
        self.mode
    }

    /// The protocol the modem speaks.
    pub fn protocol(&self) -> (r: Protocol)
        ensures
            r == protocol_of(self.tuned()),
    {
        match self.mode {
            Mode::Ft4 => Protocol::Ft4,
            Mode::Ft2 => Protocol::Ft2,
            _ => Protocol::Ft8,
        }
    }

    /// Remember one callsign.
    fn hear(&mut self, call: &str)
        ensures
            final(self)@ == reader_after(old(self)@, call@),
            final(self).tuned() == old(self).tuned(),
    {
        self.hashes.insert(call);
        self.eu_hashes.insert(call);
    }

    /// Register callsigns we already know (ours, and the station we're
    /// working), so the first hashed message naming them resolves instead of
    /// showing `<...>`.
    pub fn seed_hashes(&mut self, calls: &[String])
        ensures
            final(self)@ == seeded(old(self)@, views(calls@)),
            final(self).tuned() == old(self).tuned(),
    {
        let ghost start = self@;
        let ghost mode = self.tuned();
        let mut i: usize = 0;
        while i < calls.len()
            invariant
                i <= calls@.len(),
                self@ == seeded(start, views(calls@).take(i as int)),
                self.tuned() == mode,
            decreases calls@.len() - i,
        {
            assert(views(calls@).take(i + 1).drop_last() =~= views(calls@).take(i as int));
            if calls[i].as_str().unicode_len() > 0 {
                self.hear(calls[i].as_str());
            }
            i = i + 1;
        }
        assert(views(calls@).take(i as int) =~= views(calls@));
    }

    /// Which passes a slot is worth, given what is known of the message.
    ///
    /// FT8 and FT4 take different routes: only FT8 has a wide-band a-priori
    /// pass, so FT4's is aimed where we are listening. The contest exchange is
    /// dropped inside the FT8 decoder, so with the contest selected the slot is
    /// searched once more for that layout alone; FT4 and FT2 never drop it.
    pub fn passes(&self, ap: &ApHints) -> (r: Passes)
        ensures
            r.wide == protocol_of(self.tuned()),
            if r.wide == Protocol::Ft8 {
                ap.hinted(r.wide_hint)
            } else {
                r.wide_hint is None
            },
            if r.wide == Protocol::Ft4 {
                ap.hinted(r.targeted)
            } else {
                r.targeted is None
            },
            r.rescue == (ap.eu_vhf && r.wide == Protocol::Ft8),
    {
        match self.protocol() {
            Protocol::Ft8 => Passes {
                wide: Protocol::Ft8,
                wide_hint: ap.ft8(),
                targeted: None,
                rescue: ap.eu_vhf,
            },
            Protocol::Ft4 => Passes {
                wide: Protocol::Ft4,
                wide_hint: None,
                targeted: ap.ft4(),
                rescue: false,
            },
            Protocol::Ft2 => Passes {
                wide: Protocol::Ft2,
                wide_hint: None,
                targeted: None,
                rescue: false,
            },
        }
    }

    /// Decode one full receive slot, given the detections of each pass that
    /// [`Ft8Modem::passes`] calls for.
    ///
    /// A later pass only ever adds what the passes before it missed, and the
    /// contest pass only exchanges in the contest layout. Every callsign heard is
    /// then remembered, which is what lets a later `<...>` message name a real
    /// station.
    pub fn decode_slot(
        &mut self,
        wide: &Vec<Found>,
        targeted: &Vec<Found>,
        rescued: &Vec<Found>,
        slot_utc: i64,
        ap: &ApHints,
    ) -> (r: Vec<Decode>)
        ensures
            decode_views(r@) == slot_heard(
                old(self).tuned(),
                *ap,
                wide@,
                targeted@,
                rescued@,
                slot_utc as int,
                old(self)@,
            ),
            final(self)@ == learned(old(self)@, decode_views(r@)),
            final(self).tuned() == old(self).tuned(),
    {
        let passes: Passes = self.passes(ap);
        let mut decodes: Vec<Decode> = decode_all(wide, slot_utc, &self.hashes, &self.eu_hashes);
        // The targeted pass, aimed where we are listening: keep whatever it
        // found that the wide pass missed.
        if passes.targeted.is_some() {
            let mut extra: Vec<Decode> = keep_new(
                &decodes,
                decode_all(targeted, slot_utc, &self.hashes, &self.eu_hashes),
            );
            let ghost before = decodes@;
            let ghost added = extra@;
            decodes.append(&mut extra);
            assert(decode_views(decodes@) =~= decode_views(before) + decode_views(added));
        }
        // The contest exchange, which can only be the layout that the first
        // pass is structurally unable to produce.
        if passes.rescue {
            decodes = add_new(
                decodes,
                decode_contest(rescued, slot_utc, &self.hashes, &self.eu_hashes),
            );
        }
        // Remember who we heard, for the next slot's hashed messages.
        self.learn(&decodes);
        decodes
    }

    /// Remember the addressee and the sender of each decode.
    fn learn(&mut self, decodes: &Vec<Decode>)
        ensures
            final(self)@ == learned(old(self)@, decode_views(decodes@)),
            final(self).tuned() == old(self).tuned(),
    {
        let ghost start = self@;
        let ghost mode = self.tuned();
        let ghost vs = decode_views(decodes@);
        let mut i: usize = 0;
        while i < decodes.len()
            invariant
                i <= decodes@.len(),
                vs == decode_views(decodes@),
                self@ == learned(start, vs.take(i as int)),
                self.tuned() == mode,
            decreases decodes@.len() - i,
        {
            assert(vs.take(i + 1).drop_last() =~= vs.take(i as int));
            let d: &Decode = &decodes[i];
            assert(vs[i as int] == d@);
            if let Some(call) = &d.to {
                self.hear(call.as_str());
            }
            if let Some(call) = &d.from {
                self.hear(call.as_str());
            }
            i = i + 1;
        }
        assert(vs.take(i as int) =~= vs);
    }

    /// Turn a message into the tones of a burst. Returns them with the message
    /// *as it will be received*: a form the protocol can't carry in full (a
    /// report to a compound call, an over-long free-text line) is degraded
    /// rather than dropped, and the caller logs what actually went out. `None`
    /// if nothing can be packed.
    pub fn encode_burst_12k(&self, text: &str) -> (r: Option<(Burst, String)>)
        ensures
            match r {
                Some((burst, sent)) => packed(text@) is Some && is_burst(
                    burst,
                    protocol_of(self.tuned()),
                    packed(text@)->0.bits,
                ) && sent@ == packed(text@)->0.sent && arrives(packed(text@)->0) && outgoing(text@)
                    == Some((packed(text@)->0.kind, sent@)),
                None => packed(text@) is None && outgoing(text@) is None,
            },
    {
        match pack_message(text) {
            Some((msg77, sent)) => {
                let burst: Burst = match self.protocol() {
                    Protocol::Ft8 => Burst::Ft8(tones_of_ft8(&msg77)),
                    Protocol::Ft4 => Burst::Ft4(tones_of_ft4(&msg77)),
                    Protocol::Ft2 => Burst::Ft2(msg77),
                };
                Some((burst, sent))
            },
            None => None,
        }
    }
}

/// Those of `extra` that are not among `heard`, in order.
fn keep_new(heard: &Vec<Decode>, extra: Vec<Decode>) -> (r: Vec<Decode>)
    ensures
        decode_views(r@) == not_among(decode_views(heard@), decode_views(extra@)),
{
    let ghost vs = decode_views(extra@);
    let ghost n = extra@.len() as int;
    let mut r: Vec<Decode> = Vec::new();
    assert(decode_views(r@) =~= seq![]);
    for d in it: extra
        invariant
            it.seq().len() == n,
            decode_views(it.seq()) == vs,
            decode_views(r@) == not_among(decode_views(heard@), vs.take(it.index() as int)),
    {
        let ghost i = it.index() as int;
        let ghost before = r@;
        assert(vs.take(i + 1).drop_last() =~= vs.take(i));
        assert(vs[i] == d@);
        if !is_among(heard, &d) {
            r.push(d);
            assert(decode_views(r@) =~= decode_views(before).push(d@));
        }
    }
    assert(vs.take(n) =~= vs);
    r
}

/// `heard` with each of `extra` that it does not hold yet.
fn add_new(heard: Vec<Decode>, extra: Vec<Decode>) -> (r: Vec<Decode>)
    ensures
        decode_views(r@) == added_one_by_one(decode_views(heard@), decode_views(extra@)),
{
    let ghost hs = decode_views(heard@);
    let ghost vs = decode_views(extra@);
    let ghost n = extra@.len() as int;
    let mut r: Vec<Decode> = heard;
    for d in it: extra
        invariant
            it.seq().len() == n,
            decode_views(it.seq()) == vs,
            decode_views(r@) == added_one_by_one(hs, vs.take(it.index() as int)),
    {
        let ghost i = it.index() as int;
        let ghost before = r@;
        assert(vs.take(i + 1).drop_last() =~= vs.take(i));
        assert(vs[i] == d@);
        if !is_among(&r, &d) {
            r.push(d);
            assert(decode_views(r@) =~= decode_views(before).push(d@));
        }
    }
    assert(vs.take(n) =~= vs);
    r
}

// ── What holds of the whole ─────────────────────────────────────────────────

/// What is kept of the targeted pass is new, and nothing it found is lost.
proof fn lemma_not_among(heard: Seq<DecodeView>, extra: Seq<DecodeView>)
    ensures
        forall|i: int|
            0 <= i < not_among(heard, extra).len() ==> !among(
                heard,
                #[trigger] not_among(heard, extra)[i],
            ),
        forall|k: int|
            0 <= k < extra.len() ==> among(heard, #[trigger] extra[k]) || not_among(
                heard,
                extra,
            ).contains(extra[k]),
    decreases extra.len(),
{
    if extra.len() > 0 {
        let front = extra.drop_last();
        let before = not_among(heard, front);
        let all = not_among(heard, extra);
        lemma_not_among(heard, front);
        assert forall|k: int| 0 <= k < extra.len() implies among(heard, #[trigger] extra[k])
            || all.contains(extra[k]) by {
            if k < extra.len() - 1 {
                assert(front[k] == extra[k]);
                if !among(heard, extra[k]) {
                    let j = choose|j: int| 0 <= j < before.len() && before[j] == extra[k];
                    assert(all[j] == extra[k]);
                }
            } else if !among(heard, extra[k]) {
                assert(all[all.len() - 1] == extra[k]);
            }
        }
    }
}

/// What the contest pass adds comes after what was there, repeats nothing, and
/// nothing it found is lost.
proof fn lemma_added_one_by_one(heard: Seq<DecodeView>, extra: Seq<DecodeView>)
    ensures
        heard.len() <= added_one_by_one(heard, extra).len(),
        forall|i: int|
            0 <= i < heard.len() ==> #[trigger] added_one_by_one(heard, extra)[i] == heard[i],
        forall|i: int, j: int|
            heard.len() <= i < added_one_by_one(heard, extra).len() && 0 <= j < i
                ==> !is_same_signal(
                #[trigger] added_one_by_one(heard, extra)[j],
                #[trigger] added_one_by_one(heard, extra)[i],
            ),
        forall|k: int|
            0 <= k < extra.len() ==> among(added_one_by_one(heard, extra), #[trigger] extra[k]),
    decreases extra.len(),
{
    if extra.len() > 0 {
        let front = extra.drop_last();
        let before = added_one_by_one(heard, front);
        let all = added_one_by_one(heard, extra);
        lemma_added_one_by_one(heard, front);
        assert forall|i: int, j: int| heard.len() <= i < all.len() && 0 <= j < i implies
            !is_same_signal(#[trigger] all[j], #[trigger] all[i]) by {
            assert(all[j] == before[j]);
            if i < before.len() {
                assert(all[i] == before[i]);
            }
        }
        assert forall|k: int| 0 <= k < extra.len() implies among(all, #[trigger] extra[k]) by {
            if k < extra.len() - 1 {
                assert(front[k] == extra[k]);
                assert(among(before, front[k]));
                let j = choose|j: int|
                    0 <= j < before.len() && is_same_signal(#[trigger] before[j], extra[k]);
                assert(all[j] == before[j]);
            } else if !among(before, extra[k]) {
                assert(is_same_signal(all[all.len() - 1], extra[k]));
            }
        }
    }
}

/// A decode is the same transmission as itself, whichever of two is asked about
/// the other; and the same text from five hertz away or more is another
/// station's.
pub proof fn law_the_same_text_elsewhere_is_another_station(a: DecodeView, b: DecodeView)
    ensures
        is_same_signal(a, a),
        is_same_signal(a, b) == is_same_signal(b, a),
        apart(a.audio_hz, b.audio_hz) >= 5 * ONE ==> !is_same_signal(a, b),
        a.message != b.message ==> !is_same_signal(a, b),
{
}

/// A later pass only ever adds: the wide pass's decodes are all there, first
/// and in order, and whatever follows is no transmission that it had.
pub proof fn law_later_passes_only_add(
    protocol: Protocol,
    hinted: bool,
    contest: bool,
    wide: Seq<DecodeView>,
    targeted: Seq<DecodeView>,
    rescued: Seq<DecodeView>,
)
    ensures
        ({
            let all = slot_decodes(protocol, hinted, contest, wide, targeted, rescued);
            &&& wide.len() <= all.len()
            &&& forall|i: int| 0 <= i < wide.len() ==> #[trigger] all[i] == wide[i]
            &&& forall|i: int|
                wide.len() <= i < all.len() ==> !among(wide, #[trigger] all[i])
        }),
{
    let all = slot_decodes(protocol, hinted, contest, wide, targeted, rescued);
    lemma_not_among(wide, targeted);
    if protocol == Protocol::Ft8 && contest {
        lemma_added_one_by_one(wide, rescued);
        assert forall|i: int| wide.len() <= i < all.len() implies !among(
            wide,
            #[trigger] all[i],
        ) by {
            assert forall|j: int| 0 <= j < wide.len() implies !is_same_signal(
                #[trigger] wide[j],
                all[i],
            ) by {
                assert(all[j] == wide[j]);
            }
        }
    } else if protocol == Protocol::Ft4 && hinted {
        assert forall|i: int| wide.len() <= i < all.len() implies !among(
            wide,
            #[trigger] all[i],
        ) by {
            assert(all[i] == not_among(wide, targeted)[i - wide.len()]);
        }
    }
}

/// The contest pass reports nothing twice: no decode it adds is a transmission
/// that comes before it.
pub proof fn law_contest_pass_repeats_nothing(
    hinted: bool,
    wide: Seq<DecodeView>,
    targeted: Seq<DecodeView>,
    rescued: Seq<DecodeView>,
    i: int,
    j: int,
)
    requires
        wide.len() <= i < slot_decodes(
            Protocol::Ft8,
            hinted,
            true,
            wide,
            targeted,
            rescued,
        ).len(),
        0 <= j < i,
    ensures
        ({
            let all = slot_decodes(Protocol::Ft8, hinted, true, wide, targeted, rescued);
            !is_same_signal(all[j], all[i])
        }),
{
    lemma_added_one_by_one(wide, rescued);
}

/// Whether a decode is that of a detection in the contest layout.
pub open spec fn is_contest_exchange(
    d: DecodeView,
    found: Seq<Found>,
    slot_utc: int,
    reader: Reader,
) -> bool {
    exists|k: int|
        0 <= k < found.len() && kind_of_bits((#[trigger] found[k]).bits@) == MsgKind::EuVhf
            && decoded(found[k], slot_utc, reader) == Some(d)
}

/// What the contest pass adds is one of its own decodes.
proof fn lemma_added_comes_from_extra(heard: Seq<DecodeView>, extra: Seq<DecodeView>, i: int)
    requires
        heard.len() <= i < added_one_by_one(heard, extra).len(),
    ensures
        extra.contains(added_one_by_one(heard, extra)[i]),
    decreases extra.len(),
{
    let front = extra.drop_last();
    let before = added_one_by_one(heard, front);
    let d = added_one_by_one(heard, extra)[i];
    if i < before.len() {
        lemma_added_comes_from_extra(heard, front, i);
        let k = choose|k: int| 0 <= k < front.len() && front[k] == d;
        assert(extra[k] == d);
    } else {
        assert(extra[extra.len() - 1] == d);
    }
}

/// What the contest pass decodes to is all contest exchanges.
proof fn lemma_rescued_is_contest(fs: Seq<Found>, slot_utc: int, reader: Reader, d: DecodeView)
    requires
        rescued_all(fs, slot_utc, reader).contains(d),
    ensures
        is_contest_exchange(d, fs, slot_utc, reader),
    decreases fs.len(),
{
    let front = fs.drop_last();
    if rescued(fs.last(), slot_utc, reader) == Some(d) {
        assert(kind_of_bits(fs[fs.len() - 1].bits@) == MsgKind::EuVhf);
    } else {
        let all = rescued_all(fs, slot_utc, reader);
        let before = rescued_all(front, slot_utc, reader);
        let i = choose|i: int| 0 <= i < all.len() && all[i] == d;
        assert(before[i] == d);
        lemma_rescued_is_contest(front, slot_utc, reader, d);
        let k = choose|k: int|
            0 <= k < front.len() && kind_of_bits((#[trigger] front[k]).bits@) == MsgKind::EuVhf
                && decoded(front[k], slot_utc, reader) == Some(d);
        assert(fs[k] == front[k]);
    }
}

/// The contest pass does not disturb ordinary decodes. With the contest selected
/// a slot decodes to what it does without, and then only to contest exchanges,
/// none of them a transmission that comes before it. In FT4 and FT2 it adds
/// nothing.
pub proof fn law_the_contest_pass_adds_only_contest_exchanges(
    mode: Mode,
    ap: ApHints,
    ap2: ApHints,
    wide: Seq<Found>,
    targeted: Seq<Found>,
    detections: Seq<Found>,
    slot_utc: int,
    reader: Reader,
)
    requires
        !ap.eu_vhf,
        ap2 == (ApHints { eu_vhf: true, ..ap }),
    ensures
        ({
            let without = slot_heard(mode, ap, wide, targeted, detections, slot_utc, reader);
            let with = slot_heard(mode, ap2, wide, targeted, detections, slot_utc, reader);
            &&& without.len() <= with.len()
            &&& forall|i: int| 0 <= i < without.len() ==> #[trigger] with[i] == without[i]
            &&& forall|i: int|
                without.len() <= i < with.len() ==> is_contest_exchange(
                    #[trigger] with[i],
                    detections,
                    slot_utc,
                    reader,
                )
            &&& forall|i: int, j: int|
                without.len() <= i < with.len() && 0 <= j < i ==> !is_same_signal(
                    #[trigger] with[j],
                    #[trigger] with[i],
                )
            &&& mode == Mode::Ft4 || mode == Mode::Ft2 ==> with == without
        }),
{
    let first = decoded_all(wide, slot_utc, reader);
    let found = rescued_all(detections, slot_utc, reader);
    let with = slot_heard(mode, ap2, wide, targeted, detections, slot_utc, reader);
    if protocol_of(mode) == Protocol::Ft8 {
        lemma_added_one_by_one(first, found);
        assert forall|i: int| first.len() <= i < with.len() implies is_contest_exchange(
            #[trigger] with[i],
            detections,
            slot_utc,
            reader,
        ) by {
            lemma_added_comes_from_extra(first, found, i);
            lemma_rescued_is_contest(detections, slot_utc, reader, with[i]);
        }
    }
}

/// Nothing that a pass found is lost: each of its decodes is among the slot's,
/// itself or as the same transmission.
pub proof fn law_nothing_found_is_lost(
    protocol: Protocol,
    wide: Seq<DecodeView>,
    targeted: Seq<DecodeView>,
    rescued: Seq<DecodeView>,
    k: int,
)
    ensures
        protocol == Protocol::Ft4 && 0 <= k < targeted.len() ==> among(
            slot_decodes(protocol, true, true, wide, targeted, rescued),
            targeted[k],
        ),
        protocol == Protocol::Ft8 && 0 <= k < rescued.len() ==> among(
            slot_decodes(protocol, true, true, wide, targeted, rescued),
            rescued[k],
        ),
{
    let all = slot_decodes(protocol, true, true, wide, targeted, rescued);
    lemma_added_one_by_one(wide, rescued);
    if protocol == Protocol::Ft4 && 0 <= k < targeted.len() {
        lemma_not_among(wide, targeted);
        let d = targeted[k];
        if among(wide, d) {
            let j = choose|j: int| 0 <= j < wide.len() && is_same_signal(#[trigger] wide[j], d);
            assert(all[j] == wide[j]);
        } else {
            let new = not_among(wide, targeted);
            let j = choose|j: int| 0 <= j < new.len() && new[j] == d;
            assert(all[wide.len() + j] == d);
            assert(is_same_signal(all[wide.len() + j], d));
        }
    }
}

/// A message that went out is decoded by every station, each hash in it as what
/// it resolves to there, and as it was reported by those who resolve all of
/// them.
pub proof fn law_a_packed_message_decodes_as_sent(
    text: Seq<char>,
    f: Found,
    slot: int,
    reader: Reader,
)
    requires
        packed(text) is Some,
        arrives(packed(text)->0),
        f.bits@ == packed(text)->0.bits,
        f.bits@.len() == 77,
        read_by(f.bits@, reader, received_text(f.bits@, reader)),
    ensures
        ({
            let p = packed(text)->0;
            let read = (p.read_as)(shown_all(reader, p.hashed));
            &&& decoded(f, slot, reader) is Some
            &&& (decoded(f, slot, reader)->0).message == read
            &&& (decoded(f, slot, reader)->0).who == addressing(read, p.kind)
            &&& resolves_all(reader, p.hashed) ==> read == p.sent
        }),
{
    let p = packed(text)->0;
    if resolves_all(reader, p.hashed) {
        lemma_resolved_is_spelled(reader, p.hashed);
    }
}

/// A callsign that is seeded is heard last, after those before it.
pub proof fn law_a_seeded_callsign_is_heard(reader: Reader, calls: Seq<Seq<char>>, call: Seq<char>)
    requires
        call.len() > 0,
    ensures
        seeded(reader, calls.push(call)) == reader_after(seeded(reader, calls), call),
{
    assert(calls.push(call).drop_last() =~= calls);
}

/// Whether a decode is that of a detection: its own signal-to-noise ratio, start
/// and place in the passband, the slot's time, the text that its 77 bits read
/// as, and whom that text names.
pub open spec fn is_decode_of(d: DecodeView, f: Found, slot_utc: int, reader: Reader) -> bool {
    &&& f.bits@.len() == 77
    &&& d.slot_utc == slot_utc
    &&& d.snr_db == f.snr_db
    &&& d.dt == f.dt
    &&& d.audio_hz == f.audio_hz
    &&& received_text(f.bits@, reader) == Some(d.message)
    &&& d.who == addressing(d.message, kind_of_bits(f.bits@))
}

/// A detection of 77 bits that can be read decodes to itself, and nothing else
/// decodes.
pub proof fn law_a_detection_decodes_to_itself(f: Found, slot_utc: int, reader: Reader)
    ensures
        decoded(f, slot_utc, reader) is Some <==> f.bits@.len() == 77 && received_text(
            f.bits@,
            reader,
        ) is Some,
        decoded(f, slot_utc, reader) is Some ==> is_decode_of(
            decoded(f, slot_utc, reader)->0,
            f,
            slot_utc,
            reader,
        ),
        rescued(f, slot_utc, reader) is Some <==> decoded(f, slot_utc, reader) is Some
            && kind_of_bits(f.bits@) == MsgKind::EuVhf,
        rescued(f, slot_utc, reader) is Some ==> is_decode_of(
            rescued(f, slot_utc, reader)->0,
            f,
            slot_utc,
            reader,
        ),
{
}

/// Whether one of a list of detections is the one a decode came from.
pub open spec fn is_from(d: DecodeView, fs: Seq<Found>, slot_utc: int, reader: Reader) -> bool {
    exists|k: int| 0 <= k < fs.len() && is_decode_of(d, #[trigger] fs[k], slot_utc, reader)
}

/// Detections decode one after the other, each to itself, in the order they were
/// found: those of a longer list to what its parts decode to, those of one to
/// that one's decode if it has one.
pub proof fn law_detections_decode_in_order(
    fs: Seq<Found>,
    gs: Seq<Found>,
    f: Found,
    slot_utc: int,
    reader: Reader,
)
    ensures
        decoded_all(fs + gs, slot_utc, reader) == decoded_all(fs, slot_utc, reader) + decoded_all(
            gs,
            slot_utc,
            reader,
        ),
        rescued_all(fs + gs, slot_utc, reader) == rescued_all(fs, slot_utc, reader) + rescued_all(
            gs,
            slot_utc,
            reader,
        ),
        f.bits@.len() == 77 && received_text(f.bits@, reader) is Some ==> decoded_all(
            seq![f],
            slot_utc,
            reader,
        ).len() == 1 && is_decode_of(decoded_all(seq![f], slot_utc, reader)[0], f, slot_utc, reader),
        f.bits@.len() != 77 || received_text(f.bits@, reader) is None ==> decoded_all(
            seq![f],
            slot_utc,
            reader,
        ).len() == 0,
        f.bits@.len() == 77 && received_text(f.bits@, reader) is Some && kind_of_bits(f.bits@)
            == MsgKind::EuVhf ==> rescued_all(seq![f], slot_utc, reader).len() == 1
            && is_decode_of(rescued_all(seq![f], slot_utc, reader)[0], f, slot_utc, reader),
    decreases gs.len(),
{
    reveal_with_fuel(decoded_all, 2);
    reveal_with_fuel(rescued_all, 2);
    assert(seq![f].drop_last() =~= seq![]);
    assert(seq![f].last() == f);
    if gs.len() == 0 {
        assert(fs + gs =~= fs);
        assert(decoded_all(fs + gs, slot_utc, reader) =~= decoded_all(fs, slot_utc, reader)
            + decoded_all(gs, slot_utc, reader));
        assert(rescued_all(fs + gs, slot_utc, reader) =~= rescued_all(fs, slot_utc, reader)
            + rescued_all(gs, slot_utc, reader));
    } else {
        let front = gs.drop_last();
        law_detections_decode_in_order(fs, front, f, slot_utc, reader);
        assert((fs + gs).drop_last() =~= fs + front);
        assert((fs + gs).last() == gs.last());
        assert(decoded_all(fs + gs, slot_utc, reader) =~= decoded_all(fs, slot_utc, reader)
            + decoded_all(gs, slot_utc, reader));
        assert(rescued_all(fs + gs, slot_utc, reader) =~= rescued_all(fs, slot_utc, reader)
            + rescued_all(gs, slot_utc, reader));
    }
}

/// What a list of detections decodes to comes from them, and each that can be
/// read is there.
proof fn lemma_decoded_all(fs: Seq<Found>, slot_utc: int, reader: Reader)
    ensures
        forall|i: int|
            0 <= i < decoded_all(fs, slot_utc, reader).len() ==> is_from(
                #[trigger] decoded_all(fs, slot_utc, reader)[i],
                fs,
                slot_utc,
                reader,
            ),
        forall|k: int|
            0 <= k < fs.len() && decoded(#[trigger] fs[k], slot_utc, reader) is Some
                ==> decoded_all(fs, slot_utc, reader).contains(decoded(fs[k], slot_utc, reader)->0),
    decreases fs.len(),
{
    if fs.len() > 0 {
        let front = fs.drop_last();
        let before = decoded_all(front, slot_utc, reader);
        let all = decoded_all(fs, slot_utc, reader);
        lemma_decoded_all(front, slot_utc, reader);
        assert forall|i: int| 0 <= i < all.len() implies is_from(
            #[trigger] all[i],
            fs,
            slot_utc,
            reader,
        ) by {
            if i < before.len() {
                assert(all[i] == before[i]);
                assert(is_from(before[i], front, slot_utc, reader));
                let k = choose|k: int|
                    0 <= k < front.len() && is_decode_of(
                        before[i],
                        #[trigger] front[k],
                        slot_utc,
                        reader,
                    );
                assert(is_decode_of(all[i], fs[k], slot_utc, reader));
            } else {
                assert(is_decode_of(all[i], fs[fs.len() - 1], slot_utc, reader));
            }
        }
        assert forall|k: int|
            0 <= k < fs.len() && decoded(#[trigger] fs[k], slot_utc, reader) is Some implies all.contains(
            decoded(fs[k], slot_utc, reader)->0,
        ) by {
            let d = decoded(fs[k], slot_utc, reader)->0;
            if k < front.len() {
                assert(front[k] == fs[k]);
                assert(before.contains(d));
                let i = choose|i: int| 0 <= i < before.len() && before[i] == d;
                assert(all[i] == d);
            } else {
                assert(all[all.len() - 1] == d);
            }
        }
    }
}

/// What the contest pass decodes to comes from its detections.
proof fn lemma_rescued_all(fs: Seq<Found>, slot_utc: int, reader: Reader)
    ensures
        forall|i: int|
            0 <= i < rescued_all(fs, slot_utc, reader).len() ==> is_from(
                #[trigger] rescued_all(fs, slot_utc, reader)[i],
                fs,
                slot_utc,
                reader,
            ),
    decreases fs.len(),
{
    if fs.len() > 0 {
        let front = fs.drop_last();
        let before = rescued_all(front, slot_utc, reader);
        let all = rescued_all(fs, slot_utc, reader);
        lemma_rescued_all(front, slot_utc, reader);
        assert forall|i: int| 0 <= i < all.len() implies is_from(
            #[trigger] all[i],
            fs,
            slot_utc,
            reader,
        ) by {
            if i < before.len() {
                assert(all[i] == before[i]);
                assert(is_from(before[i], front, slot_utc, reader));
                let k = choose|k: int|
                    0 <= k < front.len() && is_decode_of(
                        before[i],
                        #[trigger] front[k],
                        slot_utc,
                        reader,
                    );
                assert(is_decode_of(all[i], fs[k], slot_utc, reader));
            } else {
                assert(is_decode_of(all[i], fs[fs.len() - 1], slot_utc, reader));
            }
        }
    }
}

/// What the targeted pass adds is one of its own decodes.
proof fn lemma_kept_comes_from_extra(heard: Seq<DecodeView>, extra: Seq<DecodeView>, i: int)
    requires
        0 <= i < not_among(heard, extra).len(),
    ensures
        extra.contains(not_among(heard, extra)[i]),
    decreases extra.len(),
{
    let front = extra.drop_last();
    let before = not_among(heard, front);
    let d = not_among(heard, extra)[i];
    if i < before.len() {
        lemma_kept_comes_from_extra(heard, front, i);
        let k = choose|k: int| 0 <= k < front.len() && front[k] == d;
        assert(extra[k] == d);
    } else {
        assert(extra[extra.len() - 1] == d);
    }
}

/// Every decode of a slot is that of one of its detections, with the detection's
/// own numbers and the slot's time. And no detection of the wide pass that can
/// be read is left out.
pub proof fn law_every_decode_is_of_a_detection(
    mode: Mode,
    ap: ApHints,
    wide: Seq<Found>,
    targeted: Seq<Found>,
    detections: Seq<Found>,
    slot_utc: int,
    reader: Reader,
)
    ensures
        ({
            let all = slot_heard(mode, ap, wide, targeted, detections, slot_utc, reader);
            &&& forall|i: int|
                0 <= i < all.len() ==> is_from(#[trigger] all[i], wide, slot_utc, reader)
                    || is_from(all[i], targeted, slot_utc, reader) || is_from(
                    all[i],
                    detections,
                    slot_utc,
                    reader,
                )
            &&& forall|k: int|
                0 <= k < wide.len() && (#[trigger] wide[k]).bits@.len() == 77 && received_text(
                    wide[k].bits@,
                    reader,
                ) is Some ==> exists|i: int|
                    0 <= i < all.len() && is_decode_of(
                        #[trigger] all[i],
                        wide[k],
                        slot_utc,
                        reader,
                    )
        }),
{
    let all = slot_heard(mode, ap, wide, targeted, detections, slot_utc, reader);
    let w = decoded_all(wide, slot_utc, reader);
    let t = decoded_all(targeted, slot_utc, reader);
    let r = rescued_all(detections, slot_utc, reader);
    lemma_decoded_all(wide, slot_utc, reader);
    lemma_decoded_all(targeted, slot_utc, reader);
    lemma_rescued_all(detections, slot_utc, reader);
    law_later_passes_only_add(protocol_of(mode), ap.me() is Some, ap.eu_vhf, w, t, r);
    assert forall|i: int| 0 <= i < all.len() implies is_from(
        #[trigger] all[i],
        wide,
        slot_utc,
        reader,
    ) || is_from(all[i], targeted, slot_utc, reader) || is_from(
        all[i],
        detections,
        slot_utc,
        reader,
    ) by {
        if i < w.len() {
            assert(all[i] == w[i]);
        } else if protocol_of(mode) == Protocol::Ft8 {
            lemma_added_comes_from_extra(w, r, i);
            let k = choose|k: int| 0 <= k < r.len() && r[k] == all[i];
            assert(is_from(r[k], detections, slot_utc, reader));
        } else {
            lemma_kept_comes_from_extra(w, t, i - w.len());
            assert(all[i] == not_among(w, t)[i - w.len()]);
            let k = choose|k: int| 0 <= k < t.len() && t[k] == all[i];
            assert(is_from(t[k], targeted, slot_utc, reader));
        }
    }
    assert forall|k: int|
        0 <= k < wide.len() && (#[trigger] wide[k]).bits@.len() == 77 && received_text(
            wide[k].bits@,
            reader,
        ) is Some implies exists|i: int|
        0 <= i < all.len() && is_decode_of(#[trigger] all[i], wide[k], slot_utc, reader) by {
        let d = decoded(wide[k], slot_utc, reader)->0;
        assert(w.contains(d));
        let i = choose|i: int| 0 <= i < w.len() && w[i] == d;
        assert(all[i] == w[i]);
        assert(is_decode_of(all[i], wide[k], slot_utc, reader));
    }
}

/// Whom a slot heard is known to the next one: after a decode its sender's hashes
/// resolve, or its addressee's where it has no sender.
pub proof fn law_who_was_heard_resolves(
    reader: Reader,
    ds: Seq<DecodeView>,
    d: DecodeView,
    call: Seq<char>,
)
    requires
        d.who.from == Some(call) || (d.who.from is None && d.who.to == Some(call)),
        heard_call(call) == call && !not_a_call(call),
    ensures
        resolves(learned(reader, ds.push(d)), Hashed::ContestTo(call)),
        resolves(learned(reader, ds.push(d)), Hashed::ContestFrom(call)),
        table_call(call) == call && !table_ignores(call) ==> resolves(
            learned(reader, ds.push(d)),
            Hashed::Ten(call),
        ) && resolves(learned(reader, ds.push(d)), Hashed::Twelve(call)),
{
    assert(ds.push(d).drop_last() =~= ds);
    let before = learned(reader, ds);
    let middle = reader_after_opt(before, d.who.to);
    if d.who.from == Some(call) {
        law_a_callsign_heard_resolves(middle, call);
    } else {
        law_a_callsign_heard_resolves(before, call);
    }
}

/// A decode that names nobody teaches nothing, and nothing is forgotten between
/// slots: what is learned of two lists is what is learned of one and then the
/// other.
pub proof fn law_learning_goes_on_from_slot_to_slot(
    reader: Reader,
    a: Seq<DecodeView>,
    b: Seq<DecodeView>,
)
    ensures
        learned(reader, a + b) == learned(learned(reader, a), b),
        (forall|i: int| 0 <= i < a.len() ==> (#[trigger] a[i]).who.to is None && a[i].who.from is None)
            ==> learned(reader, a) == reader,
    decreases a.len() + b.len(),
{
    if b.len() == 0 {
        assert(a + b =~= a);
        if a.len() > 0 {
            law_learning_goes_on_from_slot_to_slot(reader, a.drop_last(), b);
            if forall|i: int|
                0 <= i < a.len() ==> (#[trigger] a[i]).who.to is None && a[i].who.from is None {
                assert forall|i: int| 0 <= i < a.drop_last().len() implies (
                #[trigger] a.drop_last()[i]).who.to is None && a.drop_last()[i].who.from is None by {
                    assert(a.drop_last()[i] == a[i]);
                }
                assert(a[a.len() - 1].who.to is None);
            }
        }
    } else {
        law_learning_goes_on_from_slot_to_slot(reader, a, b.drop_last());
        assert((a + b).drop_last() =~= a + b.drop_last());
        assert((a + b).last() == b.last());
    }
}

/// The same text less than five hertz away is the same transmission.
pub proof fn law_the_same_text_nearby_is_one_transmission(a: DecodeView, b: DecodeView)
    requires
        a.message == b.message,
        -5 * ONE < a.audio_hz - b.audio_hz < 5 * ONE,
    ensures
        is_same_signal(a, b),
{
}

/// FT4 and FT2 are spoken in their own modes, and FT8 in every other.
pub proof fn law_each_mode_speaks_its_protocol(mode: Mode)
    ensures
        protocol_of(mode) == Protocol::Ft4 <==> mode == Mode::Ft4,
        protocol_of(mode) == Protocol::Ft2 <==> mode == Mode::Ft2,
        protocol_of(mode) == Protocol::Ft8 <==> mode != Mode::Ft4 && mode != Mode::Ft2,
{
}

/// Both stations that a decode names are remembered, the addressee beside the
/// sender.
pub proof fn law_both_stations_are_remembered(
    reader: Reader,
    ds: Seq<DecodeView>,
    d: DecodeView,
    to: Seq<char>,
)
    requires
        d.who.to == Some(to),
    ensures
        !not_a_call(heard_call(to)) ==> learned(reader, ds.push(d)).calls.contains(heard_call(to)),
        !table_ignores(table_call(to)) ==> learned(reader, ds.push(d)).heard.contains_key(
            (12, callsign_hash(table_call(to), 12)),
        ) && learned(reader, ds.push(d)).heard.contains_key(
            (10, callsign_hash(table_call(to), 10)),
        ),
{
    assert(ds.push(d).drop_last() =~= ds);
    let before = learned(reader, ds);
    let middle = reader_after(before, to);
    let after = learned(reader, ds.push(d));
    let c = heard_call(to);
    if !not_a_call(c) {
        assert(middle.calls[0] == c);
        match d.who.from {
            Some(from) => {
                let f = heard_call(from);
                if !not_a_call(f) {
                    if f == c {
                        assert(after.calls[0] == c);
                    } else {
                        assert(after.calls[1] == c);
                    }
                } else {
                    assert(after.calls[0] == c);
                }
            },
            None => {
                assert(after.calls[0] == c);
            },
        }
    }
}

/// A pass that is not called for adds nothing: without the contest selected and
/// without a hint, and in FT2 whatever is known, a slot decodes to what the wide
/// pass found.
pub proof fn law_a_pass_not_called_for_adds_nothing(
    mode: Mode,
    ap: ApHints,
    wide: Seq<Found>,
    targeted: Seq<Found>,
    detections: Seq<Found>,
    slot_utc: int,
    reader: Reader,
)
    ensures
        ({
            let all = slot_heard(mode, ap, wide, targeted, detections, slot_utc, reader);
            &&& mode == Mode::Ft2 ==> all == decoded_all(wide, slot_utc, reader)
            &&& mode == Mode::Ft4 && ap.me() is None ==> all == decoded_all(wide, slot_utc, reader)
            &&& mode != Mode::Ft4 && !ap.eu_vhf ==> all == decoded_all(wide, slot_utc, reader)
        }),
{
}

/// A slot's second pass is heard: every decode of the targeted pass in FT4 where
/// we have a callsign, and every one of the contest pass in FT8 where the contest
/// is selected, is among the slot's, itself or as the same transmission.
pub proof fn law_a_pass_called_for_is_heard(
    mode: Mode,
    ap: ApHints,
    wide: Seq<Found>,
    targeted: Seq<Found>,
    detections: Seq<Found>,
    slot_utc: int,
    reader: Reader,
    k: int,
)
    ensures
        ({
            let all = slot_heard(mode, ap, wide, targeted, detections, slot_utc, reader);
            let t = decoded_all(targeted, slot_utc, reader);
            let r = rescued_all(detections, slot_utc, reader);
            &&& mode == Mode::Ft4 && ap.me() is Some && 0 <= k < t.len() ==> among(all, t[k])
            &&& mode != Mode::Ft4 && mode != Mode::Ft2 && ap.eu_vhf && 0 <= k < r.len() ==> among(
                all,
                r[k],
            )
        }),
{
    let w = decoded_all(wide, slot_utc, reader);
    let t = decoded_all(targeted, slot_utc, reader);
    let r = rescued_all(detections, slot_utc, reader);
    if mode == Mode::Ft4 && ap.me() is Some {
        law_nothing_found_is_lost(Protocol::Ft4, w, t, r, k);
    } else if mode != Mode::Ft4 && mode != Mode::Ft2 && ap.eu_vhf {
        law_nothing_found_is_lost(Protocol::Ft8, w, t, r, k);
    }
}

/// A burst carries its own message, in the protocol spoken: its tones in FT8 and
/// FT4, and its bits in FT2.
pub proof fn law_a_burst_carries_its_message(b: Burst, protocol: Protocol, bits: Seq<u8>)
    requires
        is_burst(b, protocol, bits),
    ensures
        protocol == Protocol::Ft8 <==> b is Ft8,
        protocol == Protocol::Ft4 <==> b is Ft4,
        protocol == Protocol::Ft2 <==> b is Ft2,
        b matches Burst::Ft8(tones) ==> tones@ == ft8_tones(bits),
        b matches Burst::Ft4(tones) ==> tones@ == ft4_tones(bits),
        b matches Burst::Ft2(m) ==> m@ == bits,
{
}

/// An empty callsign is not seeded, and no callsigns seed nothing.
pub proof fn law_nothing_is_seeded_of_nothing(reader: Reader, calls: Seq<Seq<char>>)
    ensures
        seeded(reader, seq![]) == reader,
        seeded(reader, calls.push(seq![])) == seeded(reader, calls),
{
    assert(calls.push(Seq::<char>::empty()).drop_last() =~= calls);
}

/// The sender of the last decode is the station heard last, whatever was heard
/// before.
pub proof fn law_the_last_sender_is_heard_last(
    reader: Reader,
    ds: Seq<DecodeView>,
    d: DecodeView,
    from: Seq<char>,
)
    requires
        d.who.from == Some(from),
    ensures
        !not_a_call(heard_call(from)) ==> learned(reader, ds.push(d)).calls.len() > 0 && learned(
            reader,
            ds.push(d),
        ).calls[0] == heard_call(from),
        !table_ignores(table_call(from)) ==> learned(reader, ds.push(d)).heard.contains_key(
            (12, callsign_hash(table_call(from), 12)),
        ) && learned(reader, ds.push(d)).heard[(12, callsign_hash(table_call(from), 12))]
            == table_call(from) && learned(reader, ds.push(d)).recent.len() > 0 && learned(
            reader,
            ds.push(d),
        ).recent[0].0 == callsign_hash(table_call(from), 22),
        learned(reader, seq![]) == reader,
{
    assert(ds.push(d).drop_last() =~= ds);
    let middle = reader_after_opt(learned(reader, ds), d.who.to);
    law_a_callsign_heard_is_filed_under_its_hashes(middle, from);
}

/// What is said of a decode over its characters is what it holds.
pub proof fn law_a_decode_is_seen_as_it_is(ds: Seq<Decode>, i: int)
    requires
        0 <= i < ds.len(),
    ensures
        ({
            let d = ds[i];
            let v = decode_views(ds)[i];
            &&& decode_views(ds).len() == ds.len()
            &&& v.slot_utc == d.slot_utc && v.snr_db == d.snr_db
            &&& v.dt == d.dt && v.audio_hz == d.audio_hz
            &&& v.message == d.message@
            &&& v.who.to == opt_view(d.to) && v.who.from == opt_view(d.from)
            &&& v.who.grid == opt_view(d.grid) && v.who.cq_to == opt_view(d.cq_to)
            &&& v.who.is_cq == d.is_cq && v.who.free_text == d.free_text
            &&& v.who.rr73_to == opt_view(d.rr73_to)
        }),
{
}

/// Each decode of the targeted pass is judged by the wide pass alone, and each of
/// the contest pass by all that is there before it: one that is there already, the
/// same text less than five hertz away, adds nothing, and any other comes last.
pub proof fn law_each_later_decode_is_judged_by_what_is_there(
    wide: Seq<DecodeView>,
    later: Seq<DecodeView>,
    other: Seq<DecodeView>,
    d: DecodeView,
)
    ensures
        ({
            let before = slot_decodes(Protocol::Ft4, true, false, wide, later, other);
            let after = slot_decodes(Protocol::Ft4, true, false, wide, later.push(d), other);
            let there = exists|i: int|
                0 <= i < wide.len() && (#[trigger] wide[i]).message == d.message && -5 * ONE
                    < wide[i].audio_hz - d.audio_hz < 5 * ONE;
            &&& there ==> after == before
            &&& !there ==> after == before.push(d)
        }),
        ({
            let before = slot_decodes(Protocol::Ft8, true, true, wide, other, later);
            let after = slot_decodes(Protocol::Ft8, true, true, wide, other, later.push(d));
            let there = exists|i: int|
                0 <= i < before.len() && (#[trigger] before[i]).message == d.message && -5 * ONE
                    < before[i].audio_hz - d.audio_hz < 5 * ONE;
            &&& there ==> after == before
            &&& !there ==> after == before.push(d)
        }),
        slot_decodes(Protocol::Ft4, true, false, wide, seq![], other) == wide,
        slot_decodes(Protocol::Ft8, true, true, wide, other, seq![]) == wide,
{
    assert(later.push(d).drop_last() =~= later);
    lemma_among(wide, d);
    lemma_among(slot_decodes(Protocol::Ft8, true, true, wide, other, later), d);
    assert(wide + not_among(wide, later).push(d) =~= (wide + not_among(wide, later)).push(d));
    assert(wide + not_among(wide, seq![]) =~= wide);
}

/// A transmission is among others where one has its text less than five hertz
/// away.
proof fn lemma_among(ds: Seq<DecodeView>, d: DecodeView)
    ensures
        among(ds, d) <==> exists|i: int|
            0 <= i < ds.len() && (#[trigger] ds[i]).message == d.message && -5 * ONE
                < ds[i].audio_hz - d.audio_hz < 5 * ONE,
{
    if among(ds, d) {
        let i = choose|i: int| 0 <= i < ds.len() && is_same_signal(#[trigger] ds[i], d);
        assert(ds[i].message == d.message);
    }
    if exists|i: int|
        0 <= i < ds.len() && (#[trigger] ds[i]).message == d.message && -5 * ONE < ds[i].audio_hz
            - d.audio_hz < 5 * ONE {
        let i = choose|i: int|
            0 <= i < ds.len() && (#[trigger] ds[i]).message == d.message && -5 * ONE
                < ds[i].audio_hz - d.audio_hz < 5 * ONE;
        assert(is_same_signal(ds[i], d));
    }
}

} // verus!
