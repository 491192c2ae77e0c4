//! How the far end reads a message: the callsigns it has heard, what a hash
//! resolves to for it, and which texts a message's bits can read as.
use vstd::prelude::*;
use crate::eu_vhf::{
    after_hearing, first_hashing_to, heard_call, law_last_heard_wins, name_of, not_a_call, unpacked,
};
use crate::message::{kind_of_bits, MsgKind};
use crate::mfsk::{
    bracketed, callsign_hash, heard_after, nobody, placeholder, position22, reads77, recent_after, resolved, resolved22,
    table_call, table_ignores,
};

verus! {

/// The callsigns a station has heard: by ten- and twelve-bit hash, by 22-bit
/// hash, and for the contest layout.
#[verifier::ext_equal]
pub struct Reader {
    pub heard: Map<(nat, nat), Seq<char>>,
    pub recent: Seq<(nat, Seq<char>)>,
    pub calls: Seq<Seq<char>>,
}

/// A station that has heard nobody.
pub open spec fn unheard() -> Reader {
    Reader { heard: nobody(), recent: seq![], calls: seq![] }
}

/// Whether a message's bits read as `got` for a station.
pub open spec fn read_by(bits: Seq<u8>, reader: Reader, got: Option<Seq<char>>) -> bool {
    if kind_of_bits(bits) == MsgKind::EuVhf {
        got == unpacked(bits, reader.calls)
    } else {
        reads77(bits, reader.heard, reader.recent, got)
    }
}

/// A callsign that travels as a hash, and which hash that is.
pub enum Hashed {
    /// Ten bits, in a DXpedition message.
    Ten(Seq<char>),
    /// Twelve bits, beside a callsign spelled out.
    Twelve(Seq<char>),
    /// Twenty-two bits, in place of a spelled-out callsign.
    TwentyTwo(Seq<char>),
    /// Twelve bits, the addressee of a contest exchange.
    ContestTo(Seq<char>),
    /// Twenty-two bits, the sender of a contest exchange.
    ContestFrom(Seq<char>),
}

/// The callsign that a hash was made from.
pub open spec fn spelled(h: Hashed) -> Seq<char> {
    match h {
        Hashed::Ten(c) => c,
        Hashed::Twelve(c) => c,
        Hashed::TwentyTwo(c) => c,
        Hashed::ContestTo(c) => c,
        Hashed::ContestFrom(c) => c,
    }
}

/// What a hash reads as: the callsign that holds its number, in brackets, or
/// the placeholder.
pub open spec fn shown(reader: Reader, h: Hashed) -> Seq<char> {
    match h {
        Hashed::Ten(c) => resolved(reader.heard, 10, callsign_hash(c, 10)),
        Hashed::Twelve(c) => resolved(reader.heard, 12, callsign_hash(c, 12)),
        Hashed::TwentyTwo(c) => resolved22(reader.recent, callsign_hash(c, 22)),
        Hashed::ContestTo(c) => name_of(
            first_hashing_to(reader.calls, callsign_hash(c, 12), 12),
        ),
        Hashed::ContestFrom(c) => name_of(
            first_hashing_to(reader.calls, callsign_hash(c, 22), 22),
        ),
    }
}

/// What a message's hashes read as.
pub open spec fn shown_all(reader: Reader, hashed: Seq<Hashed>) -> Seq<Seq<char>> {
    hashed.map_values(|h: Hashed| shown(reader, h))
}

/// What a message's hashes read as where every one of them resolves.
pub open spec fn spelled_all(hashed: Seq<Hashed>) -> Seq<Seq<char>> {
    hashed.map_values(|h: Hashed| bracketed(spelled(h)))
}

/// Whether a hash reads as the callsign it was made from.
pub open spec fn resolves(reader: Reader, h: Hashed) -> bool {
    shown(reader, h) == bracketed(spelled(h))
}

/// Whether every one of a message's hashes reads as its callsign.
pub open spec fn resolves_all(reader: Reader, hashed: Seq<Hashed>) -> bool {
    forall|i: int| 0 <= i < hashed.len() ==> resolves(reader, #[trigger] hashed[i])
}

/// Hashes that all resolve read as the callsigns they were made from.
pub proof fn lemma_resolved_is_spelled(reader: Reader, hashed: Seq<Hashed>)
    requires
        resolves_all(reader, hashed),
    ensures
        shown_all(reader, hashed) == spelled_all(hashed),
{
    assert forall|i: int| 0 <= i < hashed.len() implies shown_all(reader, hashed)[i]
        == spelled_all(hashed)[i] by {
        assert(resolves(reader, hashed[i]));
    }
    assert(shown_all(reader, hashed) =~= spelled_all(hashed));
}

/// A station that has heard nobody reads every hash as the placeholder.
pub proof fn law_who_has_heard_nobody_resolves_nothing(h: Hashed)
    ensures
        shown(unheard(), h) == placeholder(),
{
}

/// A station after it has heard a callsign spelled out.
pub open spec fn reader_after(reader: Reader, call: Seq<char>) -> Reader {
    let base = table_call(call);
    Reader {
        heard: if table_ignores(base) {
            reader.heard
        } else {
            heard_after(reader.heard, base)
        },
        recent: if table_ignores(base) {
            reader.recent
        } else {
            recent_after(reader.recent, base)
        },
        calls: after_hearing(reader.calls, call),
    }
}

/// A station that has just heard a callsign spelled out resolves every hash of
/// it: the ten- and twelve-bit ones in place of whatever held their number
/// before, the 22-bit one where no other callsign holds its number, and the
/// contest layout's. The shared table keeps a callsign without its `/R` or
/// `/P`, so only a callsign without one resolves there.
pub proof fn law_a_callsign_heard_resolves(reader: Reader, call: Seq<char>)
    ensures
        table_call(call) == call && !table_ignores(call) ==> resolves(
            reader_after(reader, call),
            Hashed::Ten(call),
        ) && resolves(reader_after(reader, call), Hashed::Twelve(call)),
        table_call(call) == call && !table_ignores(call) && position22(
            reader.recent,
            callsign_hash(call, 22),
        ) >= reader.recent.len() ==> resolves(reader_after(reader, call), Hashed::TwentyTwo(call)),
        heard_call(call) == call && !not_a_call(call) ==> resolves(
            reader_after(reader, call),
            Hashed::ContestTo(call),
        ) && resolves(reader_after(reader, call), Hashed::ContestFrom(call)),
{
    let after = reader_after(reader, call);
    if table_call(call) == call && !table_ignores(call) {
        assert(after.heard.contains_key((10, callsign_hash(call, 10))));
        assert(after.heard[(10, callsign_hash(call, 10))] == call);
        assert(after.heard.contains_key((12, callsign_hash(call, 12))));
        if position22(reader.recent, callsign_hash(call, 22)) >= reader.recent.len() {
            assert(after.recent[0] == (callsign_hash(call, 22), call));
        }
    }
    if heard_call(call) == call && !not_a_call(call) {
        law_last_heard_wins(reader.calls, call, 12);
        law_last_heard_wins(reader.calls, call, 22);
    }
}

/// A callsign heard is filed whole for the contest layout, and without a `/R` or
/// `/P` under its ten-, twelve- and 22-bit hashes, the last at the front; what is
/// no callsign is filed nowhere.
pub proof fn law_a_callsign_heard_is_filed_under_its_hashes(reader: Reader, call: Seq<char>)
    ensures
        ({
            let base = table_call(call);
            let after = reader_after(reader, call);
            &&& !table_ignores(base) ==> after.heard.contains_key((10, callsign_hash(base, 10)))
                && after.heard[(10, callsign_hash(base, 10))] == base
            &&& !table_ignores(base) ==> after.heard.contains_key((12, callsign_hash(base, 12)))
                && after.heard[(12, callsign_hash(base, 12))] == base
            &&& !table_ignores(base) ==> after.recent.len() > 0 && after.recent[0].0
                == callsign_hash(base, 22)
            &&& table_ignores(base) ==> after.heard == reader.heard && after.recent == reader.recent
            &&& !not_a_call(heard_call(call)) ==> after.calls.len() > 0 && after.calls[0]
                == heard_call(call)
            &&& not_a_call(heard_call(call)) ==> after.calls == reader.calls
        }),
{
    let base = table_call(call);
    let after = reader_after(reader, call);
    if !table_ignores(base) {
        assert(after.heard.contains_key((10, callsign_hash(base, 10))));
        assert(after.heard.contains_key((12, callsign_hash(base, 12))));
        lemma_position22(reader.recent, callsign_hash(base, 22));
    }
}

/// The position of a hash is where it stands, if it stands anywhere.
proof fn lemma_position22(recent: Seq<(nat, Seq<char>)>, h: nat)
    ensures
        position22(recent, h) < recent.len() ==> recent[position22(recent, h) as int].0 == h,
    decreases recent.len(),
{
    if recent.len() > 0 && recent[0].0 != h {
        lemma_position22(recent.skip(1), h);
    }
}

} // verus!
