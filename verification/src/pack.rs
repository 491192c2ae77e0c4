//! Writing a message into 77 bits, in the first of a ladder of layouts that
//! carries it, together with the text the far end will read.
use vstd::prelude::*;
use vstd::arithmetic::power::pow;
use vstd::arithmetic::power2::{lemma2_to64, lemma2_to64_rest, lemma_pow2_adds, pow2};
use mfsk_core::msg::hash_table::ihashcall;
use mfsk_core::msg::wsjt77;
use crate::bits::{
    bit, blank, field, lemma_field_kept, lemma_field_written, lemma_small, write_bits, written,
};
use crate::eu_vhf;
use crate::eu_vhf::{
    bare, bare_spec, exchange_bits, exchange_message, grid6, grid6_value,
    exchange_text, law_exchange_is_read_as_sent, law_exchange_round_trips,
    law_written_exchange_round_trips, lemma_hash_bound, lemma_padded,
    lemma_three_digits, lemma_two_digits, parse_exchange, parsed_exchange,
};
use crate::message::{kind_of_bits, lemma_words_joined, token_is, MsgKind};
use crate::mfsk::{
    ack_field, ack_text, aimed_cq, base38_digit, base38_number, base42, base42_digit, bracketed,
    callsign_hash, ends_in_r_or_p, fox_text, free_text_bits, grid4, held28, in_base38, in_base42, is_hashed, joined2,
    joined3, last_digit_at,
    nonstandard_bits, pack28_value, pack77_bits, pack77_type4_bits, payload_field, payload_kept,
    reads28, report_text, spellable, standard_bits, standard_call, standard_prefix, valid_call, without_first,
    NTOKENS,
};
use crate::reader::{
    lemma_resolved_is_spelled, read_by, resolves_all, shown, shown_all, spelled_all, Hashed, Reader,
};
use crate::text::{
    all_digits, chars_of, digits_value, law_padding_keeps_the_number, is_digit, is_upper, is_white, lemma_trimmed, lemma_trimmed_unbroken, lemma_upper_char, lemma_upper_part,
    lemma_words, lemma_words_first, opt_view, padded, parse_i32, parsed_i32, same, split_words, string_of, to_padded, to_upper, trim,
    trim_end, trim_right, trimmed, unbroken, upper, upper_char, views, words,
};

verus! {

/// A message as it goes out.
pub struct Packed {
    /// Its 77 bits.
    pub bits: Seq<u8>,
    /// The layout it went out in.
    pub kind: MsgKind,
    /// The text that those who resolve its hashes read.
    pub sent: Seq<char>,
    /// The callsigns that travel as hashes.
    pub hashed: Seq<Hashed>,
    /// The text that a station reads, given what the hashes read as.
    pub read_as: spec_fn(Seq<Seq<char>>) -> Seq<char>,
}

/// Whether a message's bits say its layout, and every station reads it as it was
/// sent, each hash as what it resolves to there.
pub open spec fn arrives(p: Packed) -> bool {
    &&& kind_of_bits(p.bits) == p.kind
    &&& p.sent == (p.read_as)(spelled_all(p.hashed))
    &&& forall|reader: Reader, got: Option<Seq<char>>| #[trigger]
        read_by(p.bits, reader, got) ==> got == Some((p.read_as)(shown_all(reader, p.hashed)))
}

/// A message that arrives reads as it was sent for every station that resolves
/// the callsigns sent as hashes.
pub proof fn law_those_who_resolve_read_what_was_sent(
    p: Packed,
    reader: Reader,
    got: Option<Seq<char>>,
)
    requires
        arrives(p),
        resolves_all(reader, p.hashed),
        read_by(p.bits, reader, got),
    ensures
        got == Some(p.sent),
{
    lemma_resolved_is_spelled(reader, p.hashed);
}

/// Whether a packed message is the one that was asked for, and arrives.
pub open spec fn made(r: Option<([u8; 77], String)>, p: Option<Packed>) -> bool {
    match r {
        Some((m, sent)) => p is Some && m@ == p->0.bits && sent@ == p->0.sent && arrives(p->0),
        None => p is None,
    }
}

/// Token `i` of a message, or nothing.
pub open spec fn token(toks: Seq<Seq<char>>, i: int) -> Seq<char> {
    if i < toks.len() {
        toks[i]
    } else {
        seq![]
    }
}

/// Whether a payload is a bare acknowledgement.
pub open spec fn is_ack(p: Seq<char>) -> bool {
    p == "RRR"@ || p == "RR73"@ || p == "73"@
}

// ── DXpedition ──────────────────────────────────────────────────────────────

/// `s` without the plus signs it starts with.
pub open spec fn without_plus(s: Seq<char>) -> Seq<char>
    decreases s.len(),
{
    if s.len() > 0 && s[0] == '+' {
        without_plus(s.skip(1))
    } else {
        s
    }
}

/// A report in the two-decibel steps of the five-bit field.
pub open spec fn fox_steps(db: int) -> nat {
    if db < -30 {
        0
    } else if db > 32 {
        31
    } else {
        ((db + 30) / 2) as nat
    }
}

/// The DXpedition layout: two 28-bit words, a ten-bit hash and a report.
pub open spec fn fox_bits(a: nat, b: nat, fox: Seq<char>, n5: nat) -> Seq<u8> {
    let m1 = written(blank(), 0, 28, a);
    let m2 = written(m1, 28, 28, b);
    let m3 = written(m2, 56, 10, callsign_hash(fox, 10));
    let m4 = written(m3, 66, 5, n5);
    let m5 = written(m4, 71, 3, 1);
    written(m5, 74, 3, 0)
}

/// A DXpedition message: the bits, and the report as far as the field holds it.
pub open spec fn fox_packed(
    rr73_call: Seq<char>,
    work_call: Seq<char>,
    fox_call: Seq<char>,
    report: Seq<char>,
) -> Option<(Seq<u8>, Seq<char>)> {
    match (pack28_value(rr73_call), pack28_value(work_call), parsed_i32(without_plus(report))) {
        (Some(a), Some(b), Some(db)) => if standard_call(rr73_call) && spellable(rr73_call)
            && standard_call(work_call) && spellable(work_call) {
            Some(
                (
                    fox_bits(a as nat, b as nat, fox_call, fox_steps(db)),
                    report_text(2 * fox_steps(db) - 30),
                ),
            )
        } else {
            None
        },
        _ => None,
    }
}

/// Whether the DXpedition layout carries a message: `CALL1 RR73; CALL2 FOXCALL
/// REPORT`, with two callsigns that can be spelled and a number for the report.
pub open spec fn fox_carries(toks: Seq<Seq<char>>) -> bool {
    &&& token_is(toks, 1, "RR73;"@) && toks.len() == 5
    &&& standard_call(toks[0]) && held28(toks[0])
    &&& standard_call(toks[2]) && held28(toks[2])
    &&& parsed_i32(without_plus(toks[4])) is Some
}

/// A DXpedition message as it is read: the fox in brackets, and the report as
/// far as the field holds it.
pub open spec fn fox_sent(toks: Seq<Seq<char>>) -> Seq<char> {
    fox_text(
        toks[0],
        toks[2],
        bracketed(toks[3]),
        report_text(2 * fox_steps(parsed_i32(without_plus(toks[4]))->0) - 30),
    )
}

/// `CALL1 RR73; CALL2 FOXCALL REPORT`, which closes one contact and reports to
/// the next.
pub open spec fn fox_rung(toks: Seq<Seq<char>>) -> Option<Packed> {
    if token_is(toks, 1, "RR73;"@) && toks.len() == 5 {
        match fox_packed(toks[0], toks[2], toks[3], toks[4]) {
            Some((bits, report)) => Some(
                Packed {
                    bits,
                    kind: MsgKind::Fox,
                    sent: fox_sent(toks),
                    hashed: seq![Hashed::Ten(toks[3])],
                    read_as: |names: Seq<Seq<char>>| fox_text(toks[0], toks[2], names[0], report),
                },
            ),
            None => None,
        }
    } else {
        None
    }
}

/// A word reads back from the 28-bit field it was packed into.
proof fn lemma_reads28(w: Seq<char>, n: nat, recent: Seq<(nat, Seq<char>)>)
    requires
        spellable(w),
        pack28_value(w) is Some,
        n == pack28_value(w)->0 as nat % pow2(28),
        !is_hashed(n),
    ensures
        reads28(n, recent, w),
{
}

/// Each field of a DXpedition message reads back as what was written into it.
proof fn lemma_fox_fields(a: nat, b: nat, fox: Seq<char>, n5: nat)
    requires
        n5 < 32,
    ensures
        ({
            let m = fox_bits(a, b, fox, n5);
            &&& m.len() == 77
            &&& field(m, 0, 28) == a % pow2(28)
            &&& field(m, 28, 28) == b % pow2(28)
            &&& field(m, 56, 10) == callsign_hash(fox, 10)
            &&& field(m, 66, 5) == n5
            &&& field(m, 71, 3) == 1
            &&& field(m, 74, 3) == 0
        }),
{
    let h = callsign_hash(fox, 10);
    let m1 = written(blank(), 0, 28, a);
    let m2 = written(m1, 28, 28, b);
    let m3 = written(m2, 56, 10, h);
    let m4 = written(m3, 66, 5, n5);
    let m5 = written(m4, 71, 3, 1);
    lemma2_to64();
    lemma_hash_bound(fox, 10);
    lemma_field_written(blank(), 0, 28, a);
    lemma_field_kept(m1, 28, 28, b, 0, 28);
    lemma_field_kept(m2, 56, 10, h, 0, 28);
    lemma_field_kept(m3, 66, 5, n5, 0, 28);
    lemma_field_kept(m4, 71, 3, 1, 0, 28);
    lemma_field_kept(m5, 74, 3, 0, 0, 28);
    lemma_field_written(m1, 28, 28, b);
    lemma_field_kept(m2, 56, 10, h, 28, 28);
    lemma_field_kept(m3, 66, 5, n5, 28, 28);
    lemma_field_kept(m4, 71, 3, 1, 28, 28);
    lemma_field_kept(m5, 74, 3, 0, 28, 28);
    lemma_field_written(m2, 56, 10, h);
    lemma_small(h, 10);
    lemma_field_kept(m3, 66, 5, n5, 56, 10);
    lemma_field_kept(m4, 71, 3, 1, 56, 10);
    lemma_field_kept(m5, 74, 3, 0, 56, 10);
    lemma_field_written(m3, 66, 5, n5);
    lemma_small(n5, 5);
    lemma_field_kept(m4, 71, 3, 1, 66, 5);
    lemma_field_kept(m5, 74, 3, 0, 66, 5);
    lemma_field_written(m4, 71, 3, 1);
    lemma_small(1, 3);
    lemma_field_kept(m5, 74, 3, 0, 71, 3);
    lemma_field_written(m5, 74, 3, 0);
    lemma_small(0, 3);
}

/// A DXpedition message arrives.
proof fn lemma_fox_arrives(toks: Seq<Seq<char>>)
    requires
        fox_rung(toks) is Some,
        pack28_value(toks[0])->0 < pow2(28) && !is_hashed(pack28_value(toks[0])->0 as nat),
        pack28_value(toks[2])->0 < pow2(28) && !is_hashed(pack28_value(toks[2])->0 as nat),
    ensures
        arrives(fox_rung(toks)->0),
{
    let p = fox_rung(toks)->0;
    let a = pack28_value(toks[0])->0 as nat;
    let b = pack28_value(toks[2])->0 as nat;
    let n5 = fox_steps(parsed_i32(without_plus(toks[4]))->0);
    lemma_fox_fields(a, b, toks[3], n5);
    lemma_small(a, 28);
    lemma_small(b, 28);
    assert forall|reader: Reader, got: Option<Seq<char>>| #[trigger]
        read_by(p.bits, reader, got) implies got == Some(
        (p.read_as)(shown_all(reader, p.hashed)),
    ) by {
        assert(shown_all(reader, p.hashed)[0] == shown(reader, p.hashed[0]));
        lemma_reads28(toks[0], field(p.bits, 0, 28), reader.recent);
        lemma_reads28(toks[2], field(p.bits, 28, 28), reader.recent);
    }
}

/// The signed two-digit form of a report.
pub fn fmt_report(v: i16) -> (r: String)
    ensures
        r@ == report_text(v as int),
{
    let mut r: String = String::new();
    if v < 0 {
        r.push('-');
        r.append(to_padded((-(v as i32)) as u32, 2).as_str());
    } else {
        r.push('+');
        r.append(to_padded(v as u32, 2).as_str());
    }
    assert(r@ =~= report_text(v as int));
    r
}

/// `s` without the plus signs it starts with.
fn strip_plus(s: &str) -> (r: &str)
    ensures
        r@ == without_plus(s@),
{
    let v: Vec<char> = chars_of(s);
    let mut i: usize = 0;
    assert(s@.skip(0) =~= s@);
    while i < v.len() && v[i] == '+'
        invariant
            v@ == s@,
            i <= v@.len(),
            without_plus(s@) == without_plus(s@.skip(i as int)),
        decreases v@.len() - i,
    {
        assert(s@.skip(i as int).skip(1) =~= s@.skip(i + 1));
        i = i + 1;
    }
    let n: usize = v.len();
    assert(s@.skip(i as int) =~= s@.subrange(i as int, n as int));
    s.substring_char(i, n)
}

/// Pack the DXpedition (Fox) layout:
/// `[c28 rr73_call][c28 work_call][h10 fox_call][r5 report]`, then the type
/// bits.
///
/// The report field is 5 bits in 2 dB steps (`report = 2·n5 − 30`), so an odd
/// value lands on the nearest even one: that is the layout's resolution. The
/// quantised report is returned alongside the bits, because it is what the far
/// end will read.
fn pack77_fox(rr73_call: &str, work_call: &str, fox_call: &str, report: &str) -> (r: Option<
    ([u8; 77], String),
>)
    ensures
        match r {
            Some((m, rpt)) => fox_packed(rr73_call@, work_call@, fox_call@, report@) == Some(
                (m@, rpt@),
            ),
            None => fox_packed(rr73_call@, work_call@, fox_call@, report@) is None,
        },
        r is Some ==> pack28_value(rr73_call@)->0 < pow2(28) && !is_hashed(
            pack28_value(rr73_call@)->0 as nat,
        ),
        r is Some ==> pack28_value(work_call@)->0 < pow2(28) && !is_hashed(
            pack28_value(work_call@)->0 as nat,
        ),
        r is Some <==> standard_call(rr73_call@) && held28(rr73_call@) && standard_call(work_call@)
            && held28(work_call@) && parsed_i32(without_plus(report@)) is Some,
{
    let n28a: u32 = match wsjt77::pack28(rr73_call) {
        Some(n) => n,
        None => {
            return None;
        },
    };
    let n28b: u32 = match wsjt77::pack28(work_call) {
        Some(n) => n,
        None => {
            return None;
        },
    };
    if !wsjt77::is_standard_callsign(rr73_call) || !is_spellable(rr73_call) {
        return None;
    }
    if !wsjt77::is_standard_callsign(work_call) || !is_spellable(work_call) {
        return None;
    }
    let db: i32 = match parse_i32(strip_plus(report)) {
        Some(v) => v,
        None => {
            return None;
        },
    };
    let n5: u32 = if db < -30 {
        0
    } else if db > 32 {
        31
    } else {
        ((db + 30) / 2) as u32
    };
    let mut msg: [u8; 77] = [0u8; 77];
    assert(msg@ =~= blank());
    write_bits(&mut msg, 0, 28, n28a);
    write_bits(&mut msg, 28, 28, n28b);
    write_bits(&mut msg, 56, 10, ihashcall(fox_call, 10));
    write_bits(&mut msg, 66, 5, n5);
    write_bits(&mut msg, 71, 3, 1);
    write_bits(&mut msg, 74, 3, 0);
    Some((msg, fmt_report(2 * n5 as i16 - 30)))
}

/// The DXpedition rung of the ladder.
fn try_fox(toks: &Vec<String>) -> (r: Option<([u8; 77], String)>)
    ensures
        made(r, fox_rung(views(toks@))),
        r is Some <==> fox_carries(views(toks@)),
{
    if toks.len() != 5 || !same(toks[1].as_str(), "RR73;") {
        return None;
    }
    let (c1, c2, fox, rpt) = (
        toks[0].as_str(),
        toks[2].as_str(),
        toks[3].as_str(),
        toks[4].as_str(),
    );
    match pack77_fox(c1, c2, fox, rpt) {
        Some((m, report)) => {
            let mut sent: String = String::new();
            sent.append(c1);
            sent.append(" RR73; ");
            sent.append(c2);
            sent.push(' ');
            sent.push('<');
            sent.append(fox);
            sent.push('>');
            sent.push(' ');
            sent.append(report.as_str());
            proof {
                assert(sent@ =~= fox_text(c1@, c2@, bracketed(fox@), report@));
                lemma_fox_arrives(views(toks@));
            }
            Some((m, sent))
        },
        None => None,
    }
}

// ── Contest exchange ────────────────────────────────────────────────────────

/// Whether a token starts with an angle bracket.
pub open spec fn opens_bracket(tok: Seq<char>) -> bool {
    tok.len() > 0 && tok[0] == '<'
}

/// `<TO> <FROM> [R] 590003 JO22DB`. A serial number past what the field holds
/// goes out as the largest that it does, and is reported so.
pub open spec fn contest_rung(toks: Seq<Seq<char>>) -> Option<Packed> {
    if (toks.len() == 4 || toks.len() == 5) && opens_bracket(toks[0]) && opens_bracket(toks[1]) {
        let rogered = toks[2] == "R"@;
        let rest = toks.skip(
            if rogered {
                3
            } else {
                2
            },
        );
        if rest.len() == 2 && parsed_exchange(rest[0]) is Some && grid6(rest[1]) {
            let (rs, serial) = parsed_exchange(rest[0])->0;
            Some(
                Packed {
                    bits: exchange_bits(
                        bare_spec(toks[0]),
                        bare_spec(toks[1]),
                        rogered,
                        rs,
                        serial,
                        grid6_value(rest[1]),
                    ),
                    kind: MsgKind::EuVhf,
                    sent: exchange_message(
                        bracketed(bare_spec(toks[0])),
                        bracketed(bare_spec(toks[1])),
                        rogered,
                        exchange_text(rs, serial),
                        rest[1],
                    ),
                    hashed: seq![
                        Hashed::ContestTo(bare_spec(toks[0])),
                        Hashed::ContestFrom(bare_spec(toks[1])),
                    ],
                    read_as: |names: Seq<Seq<char>>|
                        exchange_message(
                            names[0],
                            names[1],
                            rogered,
                            exchange_text(rs, serial),
                            rest[1],
                        ),
                },
            )
        } else {
            None
        }
    } else {
        None
    }
}

/// A contest exchange arrives.
proof fn lemma_contest_arrives(toks: Seq<Seq<char>>)
    requires
        contest_rung(toks) is Some,
    ensures
        arrives(contest_rung(toks)->0),
{
    let p = contest_rung(toks)->0;
    let rogered = toks[2] == "R"@;
    let rest = toks.skip(
        if rogered {
            3
        } else {
            2
        },
    );
    let (rs, serial) = parsed_exchange(rest[0])->0;
    let to = bare_spec(toks[0]);
    let from = bare_spec(toks[1]);
    law_exchange_is_read_as_sent(to, from, rogered, rs, serial, rest[1], seq![]);
    assert forall|reader: Reader, got: Option<Seq<char>>| #[trigger]
        read_by(p.bits, reader, got) implies got == Some(
        (p.read_as)(shown_all(reader, p.hashed)),
    ) by {
        assert(shown_all(reader, p.hashed)[0] == shown(reader, p.hashed[0]));
        assert(shown_all(reader, p.hashed)[1] == shown(reader, p.hashed[1]));
        law_exchange_is_read_as_sent(to, from, rogered, rs, serial, rest[1], reader.calls);
    }
}

/// Whether a token starts with an angle bracket.
fn is_bracket_open(tok: &str) -> (r: bool)
    ensures
        r == opens_bracket(tok@),
{
    tok.unicode_len() > 0 && tok.get_char(0) == '<'
}

/// The contest rung of the ladder.
fn try_contest(toks: &Vec<String>) -> (r: Option<([u8; 77], String)>)
    ensures
        made(r, contest_rung(views(toks@))),
{
    let n: usize = toks.len();
    if !(n == 4 || n == 5) || !is_bracket_open(toks[0].as_str()) || !is_bracket_open(
        toks[1].as_str(),
    ) {
        return None;
    }
    let rogered: bool = same(toks[2].as_str(), "R");
    let at: usize = if rogered {
        3
    } else {
        2
    };
    let ghost rest = views(toks@).skip(at as int);
    if n != at + 2 {
        return None;
    }
    let c1: &str = bare(toks[0].as_str());
    let c2: &str = bare(toks[1].as_str());
    let exch: &str = toks[at].as_str();
    let grid6: &str = toks[at + 1].as_str();
    assert(rest[0] == exch@ && rest[1] == grid6@);
    match parse_exchange(exch) {
        Some((rs, serial)) => {
            match eu_vhf::pack(c1, c2, rogered, rs, serial, grid6) {
                Some(m) => {
                    let mut sent: String = String::new();
                    sent.append(read_form(c1, true).as_str());
                    sent.push(' ');
                    sent.append(read_form(c2, true).as_str());
                    sent.push(' ');
                    if rogered {
                        sent.push('R');
                        sent.push(' ');
                    }
                    sent.append(eu_vhf::exchange(rs, serial).as_str());
                    sent.push(' ');
                    sent.append(grid6);
                    proof {
                        assert(sent@ =~= exchange_message(
                            bracketed(c1@),
                            bracketed(c2@),
                            rogered,
                            exchange_text(rs as nat, serial as nat),
                            grid6@,
                        ));
                        lemma_contest_arrives(views(toks@));
                    }
                    Some((m, sent))
                },
                None => None,
            }
        },
        None => None,
    }
}

// ── The everyday message ────────────────────────────────────────────────────

/// A payload as its field holds it: none, an acknowledgement, a locator, or a
/// report with its sign and two digits. A report of -35 to -31 dB would be read
/// as another payload, and is not held.
pub open spec fn held(p: Seq<char>) -> Option<Seq<char>> {
    if p.len() == 0 || is_ack(p) {
        Some(p)
    } else if grid4(p) {
        Some(upper(p))
    } else {
        match parsed_i32(without_first(p, 'R')) {
            Some(v) => if -50 <= v < -35 || -31 < v <= 49 {
                Some(
                    if p[0] == 'R' {
                        seq!['R'] + report_text(v)
                    } else {
                        report_text(v)
                    },
                )
            } else {
                None
            },
            None => None,
        }
    }
}

/// Where a CQ is directed, as the field holds it: a number in three digits, or
/// the letters.
pub open spec fn held_direction(m: Seq<char>) -> Seq<char> {
    match parsed_i32(m) {
        Some(v) => if m[0] != '-' && 0 <= v <= 999 {
            padded(v as nat, 3)
        } else {
            m
        },
        None => m,
    }
}

/// Whether the everyday layout carries two words and a payload: its fields hold
/// all three.
pub open spec fn everyday_carries(c1: Seq<char>, c2: Seq<char>, payload: Seq<char>) -> bool {
    held28(c1) && held28(c2) && held(payload) is Some
}

/// An everyday message of two words and a payload, where the fields hold all
/// three.
pub open spec fn everyday(c1: Seq<char>, c2: Seq<char>, payload: Seq<char>) -> Option<Packed> {
    match held(payload) {
        Some(q) => match pack77_bits(c1, c2, q) {
            Some(bits) => if spellable(c1) && spellable(c2) {
                Some(
                    Packed {
                        bits,
                        kind: MsgKind::Standard,
                        sent: joined3(c1, c2, q),
                        hashed: seq![],
                        read_as: |names: Seq<Seq<char>>| joined3(c1, c2, q),
                    },
                )
            } else {
                None
            },
            None => None,
        },
        None => None,
    }
}

/// The first word of a directed CQ.
pub open spec fn directed_word(toks: Seq<Seq<char>>) -> Seq<char> {
    "CQ "@ + held_direction(toks[1])
}

/// A directed CQ: `CQ EU AB1CD FN42`. The modifier is not a fourth field, since
/// `CQ EU` packs as one word.
pub open spec fn directed_rung(toks: Seq<Seq<char>>) -> Option<Packed> {
    if token_is(toks, 0, "CQ"@) && toks.len() == 4 {
        everyday(directed_word(toks), toks[2], toks[3])
    } else {
        None
    }
}

/// Whether the everyday layout carries a directed CQ.
pub open spec fn directed_carries(toks: Seq<Seq<char>>) -> bool {
    token_is(toks, 0, "CQ"@) && toks.len() == 4 && everyday_carries(
        directed_word(toks),
        toks[2],
        toks[3],
    )
}

/// The everyday message, where both callsigns are standard.
pub open spec fn everyday_rung(toks: Seq<Seq<char>>) -> Option<Packed> {
    if toks.len() <= 3 {
        everyday(token(toks, 0), token(toks, 1), token(toks, 2))
    } else {
        None
    }
}

/// What a field holds of a payload, it gives back.
proof fn lemma_held_is_kept(p: Seq<char>)
    requires
        held(p) is Some,
    ensures
        payload_kept(held(p)->0),
{
    let q = held(p)->0;
    if p.len() > 0 && !is_ack(p) {
        if grid4(p) {
            assert(q[0] == upper_char(p[0]) && q[1] == upper_char(p[1]));
            assert(q[2] == p[2] && q[3] == p[3]);
        } else {
            let v = parsed_i32(without_first(p, 'R'))->0;
            assert(q == report_text(v) || q == seq!['R'] + report_text(v));
        }
    }
}

/// A report is read back from its text.
proof fn lemma_report_parses(v: int)
    requires
        -50 <= v <= 49,
    ensures
        report_text(v).len() == 3,
        unbroken(report_text(v)),
        parsed_i32(report_text(v)) == Some(v),
{
    let t = report_text(v);
    let n: nat = if v < 0 {
        (-v) as nat
    } else {
        v as nat
    };
    lemma_padded(n);
    let d = padded(n, 2);
    assert(d.len() == 2 && is_digit(d[0]) && is_digit(d[1]));
    lemma_two_digits(d);
    assert(t.skip(1) =~= d);
}

/// What the field holds of a payload, the layout packs.
proof fn lemma_held_packs(p: Seq<char>)
    requires
        held(p) is Some,
    ensures
        payload_field(held(p)->0) is Some,
{
    reveal_strlit("RRR");
    reveal_strlit("RR73");
    reveal_strlit("73");
    let q = held(p)->0;
    if p.len() > 0 && !is_ack(p) {
        if grid4(p) {
            assert forall|i: int| 0 <= i < q.len() implies !is_white(#[trigger] q[i]) by {
                assert(q[i] == upper_char(p[i]));
            }
            lemma_trimmed_unbroken(q);
            assert(q[0] == upper_char(p[0]) && q[1] == upper_char(p[1]));
            assert(q[2] == p[2] && q[3] == p[3]);
        } else {
            let v = parsed_i32(without_first(p, 'R'))->0;
            let t = report_text(v);
            lemma_report_parses(v);
            assert(q == t || q =~= seq!['R'] + t);
            assert forall|i: int| 0 <= i < q.len() implies !is_white(#[trigger] q[i]) by {
                if q != t && i > 0 {
                    assert(q[i] == t[i - 1]);
                }
            }
            lemma_trimmed_unbroken(q);
            assert(without_first(q, 'R') =~= t);
        }
    } else {
        lemma_trimmed_unbroken(q);
    }
}

/// A payload goes out in the bits that it was typed for, however its field
/// spells it. Of the payloads that the layout packs, only a report of -35 to
/// -31 dB is not held: its number is that of another payload.
pub proof fn law_a_payload_is_held_as_it_packs(p: Seq<char>)
    requires
        is_token(p),
    ensures
        held(p) is Some ==> payload_field(held(p)->0) == payload_field(p),
        held(p) is None && payload_field(p) is Some ==> ({
            let v = parsed_i32(without_first(p, 'R'));
            v is Some && -35 <= v->0 <= -31
        }),
{
    reveal_strlit("RRR");
    reveal_strlit("RR73");
    reveal_strlit("73");
    lemma_trimmed_unbroken(p);
    if held(p) is Some && p.len() > 0 && !is_ack(p) && !grid4(p) {
        let q = held(p)->0;
        let v = parsed_i32(without_first(p, 'R'))->0;
        lemma_report_parses(v);
        let t = report_text(v);
        assert(q == t || q =~= seq!['R'] + t);
        assert forall|i: int| 0 <= i < q.len() implies !is_white(#[trigger] q[i]) by {
            if q != t && i > 0 {
                assert(q[i] == t[i - 1]);
            }
        }
        lemma_trimmed_unbroken(q);
        assert(without_first(q, 'R') =~= t);
    }
}

/// What a payload is packed into fits its fields.
proof fn lemma_payload_fits(p: Seq<char>)
    requires
        payload_field(p) is Some,
    ensures
        (payload_field(p)->0).0 < pow2(15),
        (payload_field(p)->0).1 < pow2(1),
{
    lemma2_to64();
}

/// Each field of an everyday message reads back as what was written into it.
proof fn lemma_standard_fields(a: nat, b: nat, g: nat, ir: nat)
    requires
        g < pow2(15),
        ir < pow2(1),
    ensures
        ({
            let m = standard_bits(a, b, g, ir);
            &&& m.len() == 77
            &&& field(m, 0, 28) == a % pow2(28)
            &&& field(m, 28, 1) == 0
            &&& field(m, 29, 28) == b % pow2(28)
            &&& field(m, 57, 1) == 0
            &&& field(m, 58, 1) == ir
            &&& field(m, 59, 15) == g
            &&& field(m, 74, 3) == 1
        }),
{
    let m1 = written(blank(), 0, 28, a);
    let m2 = written(m1, 29, 28, b);
    let m3 = written(m2, 58, 1, ir);
    let m4 = written(m3, 59, 15, g);
    let m5 = written(m4, 74, 3, 1);
    lemma2_to64();
    lemma_field_written(blank(), 0, 28, a);
    lemma_field_kept(m1, 29, 28, b, 0, 28);
    lemma_field_kept(m2, 58, 1, ir, 0, 28);
    lemma_field_kept(m3, 59, 15, g, 0, 28);
    lemma_field_kept(m4, 74, 3, 1, 0, 28);
    reveal_with_fuel(field, 2);
    assert(m5[28] == 0);
    assert(m5[57] == 0);
    lemma_field_written(m1, 29, 28, b);
    lemma_field_kept(m2, 58, 1, ir, 29, 28);
    lemma_field_kept(m3, 59, 15, g, 29, 28);
    lemma_field_kept(m4, 74, 3, 1, 29, 28);
    lemma_field_written(m2, 58, 1, ir);
    lemma_small(ir, 1);
    lemma_field_kept(m3, 59, 15, g, 58, 1);
    lemma_field_kept(m4, 74, 3, 1, 58, 1);
    lemma_field_written(m3, 59, 15, g);
    lemma_small(g, 15);
    lemma_field_kept(m4, 74, 3, 1, 59, 15);
    lemma_field_written(m4, 74, 3, 1);
    lemma_small(1, 3);
}

/// An everyday message arrives.
proof fn lemma_everyday_arrives(c1: Seq<char>, c2: Seq<char>, payload: Seq<char>)
    requires
        everyday(c1, c2, payload) is Some,
        !is_hashed(field(everyday(c1, c2, payload)->0.bits, 0, 28)),
        !is_hashed(field(everyday(c1, c2, payload)->0.bits, 29, 28)),
    ensures
        arrives(everyday(c1, c2, payload)->0),
{
    let p = everyday(c1, c2, payload)->0;
    let a = pack28_value(c1)->0 as nat;
    let b = pack28_value(c2)->0 as nat;
    let q = held(payload)->0;
    let (g, ir) = payload_field(q)->0;
    lemma_held_is_kept(payload);
    lemma_payload_fits(q);
    lemma_standard_fields(a, b, g, ir);
    assert forall|reader: Reader, got: Option<Seq<char>>| #[trigger]
        read_by(p.bits, reader, got) implies got == Some(
        (p.read_as)(shown_all(reader, p.hashed)),
    ) by {
        lemma_reads28(c1, field(p.bits, 0, 28), reader.recent);
        lemma_reads28(c2, field(p.bits, 29, 28), reader.recent);
        assert(payload_kept(q));
    }
}

/// Two words with a space between, or the one that is not empty.
fn join2(a: &str, b: &str) -> (r: String)
    ensures
        r@ == joined2(a@, b@),
{
    let mut r: String = String::new();
    r.append(a);
    if a.unicode_len() > 0 && b.unicode_len() > 0 {
        r.push(' ');
    }
    r.append(b);
    assert(r@ =~= joined2(a@, b@));
    r
}

/// Join up to three message tokens, dropping the empty ones.
pub fn join3(a: &str, b: &str, c: &str) -> (r: String)
    ensures
        r@ == joined3(a@, b@, c@),
{
    join2(join2(a, b).as_str(), c)
}

/// Whether a 28-bit field gives a word back as it was written.
fn is_spellable(w: &str) -> (r: bool)
    ensures
        r == spellable(w@),
{
    let v: Vec<char> = chars_of(w);
    let n: usize = v.len();
    let cq: bool = 4 <= n && n <= 7 && v[0] == 'C' && v[1] == 'Q' && v[2] == ' ';
    assert(n >= 4 ==> cq == (n <= 7 && w@.take(3) =~= seq!['C', 'Q', ' ']));
    let from: usize = if cq {
        3
    } else {
        0
    };
    let mut letters: bool = true;
    let mut digits: bool = true;
    let mut either: bool = true;
    let mut i: usize = from;
    while i < n
        invariant
            v@ == w@,
            n == v@.len(),
            from <= i <= n,
            letters == forall|k: int| from <= k < i ==> is_upper(#[trigger] w@[k]),
            digits == forall|k: int| from <= k < i ==> is_digit(#[trigger] w@[k]),
            either == forall|k: int| from <= k < i ==> is_digit(#[trigger] w@[k]) || is_upper(w@[k]),
        decreases n - i,
    {
        let c: char = v[i];
        let letter: bool = 'A' <= c && c <= 'Z';
        let digit: bool = '0' <= c && c <= '9';
        letters = letters && letter;
        digits = digits && digit;
        either = either && (letter || digit);
        i = i + 1;
    }
    if cq {
        assert(!is_digit(w@[2]) && !is_upper(w@[2]));
        letters || (n == 6 && digits)
    } else {
        n > 0 && either && (n != 6 || ('0' <= v[2] && v[2] <= '9'))
    }
}

/// A payload as its field holds it, if it does.
fn hold(p: &str) -> (r: Option<String>)
    ensures
        opt_view(r) == held(p@),
{
    let v: Vec<char> = chars_of(p);
    let n: usize = v.len();
    if n == 0 || is_acknowledgement(p) {
        return Some(p.to_owned());
    }
    let up: String = to_upper(p);
    let u: Vec<char> = chars_of(up.as_str());
    if n == 4 && 'A' <= u[0] && u[0] <= 'R' && 'A' <= u[1] && u[1] <= 'R' && '0' <= v[2] && v[2]
        <= '9' && '0' <= v[3] && v[3] <= '9' {
        return Some(up);
    }
    let rogered: bool = v[0] == 'R';
    let number: &str = if rogered {
        p.substring_char(1, n)
    } else {
        p
    };
    match parse_i32(number) {
        Some(db) => if (-50 <= db && db < -35) || (-31 < db && db <= 49) {
            let mut q: String = String::new();
            if rogered {
                q.push('R');
            }
            q.append(fmt_report(db as i16).as_str());
            Some(q)
        } else {
            None
        },
        None => None,
    }
}

/// Where a CQ is directed, as the field holds it.
fn hold_direction(m: &str) -> (r: String)
    ensures
        r@ == held_direction(m@),
{
    match parse_i32(m) {
        Some(n) => if m.get_char(0) != '-' && 0 <= n && n <= 999 {
            to_padded(n as u32, 3)
        } else {
            m.to_owned()
        },
        None => m.to_owned(),
    }
}

/// An everyday message, if the layout carries it.
fn try_pack77(c1: &str, c2: &str, payload: &str) -> (r: Option<([u8; 77], String)>)
    ensures
        made(r, everyday(c1@, c2@, payload@)),
        r is Some <==> everyday_carries(c1@, c2@, payload@),
{
    let held: String = match hold(payload) {
        Some(q) => q,
        None => {
            return None;
        },
    };
    if !is_spellable(c1) || !is_spellable(c2) {
        return None;
    }
    proof {
        lemma_held_packs(payload@);
    }
    match wsjt77::pack77(c1, c2, held.as_str()) {
        Some(m) => {
            proof {
                lemma_everyday_arrives(c1@, c2@, payload@);
            }
            Some((m, join3(c1, c2, held.as_str())))
        },
        None => None,
    }
}

/// Token `i`, or nothing.
fn token_or_empty(toks: &Vec<String>, i: usize) -> (r: &str)
    ensures
        r@ == token(views(toks@), i as int),
{
    if i < toks.len() {
        toks[i].as_str()
    } else {
        proof {
            reveal_strlit("");
            assert(""@ =~= seq![]);
        }
        ""
    }
}

/// The directed rung of the ladder.
fn try_directed(toks: &Vec<String>) -> (r: Option<([u8; 77], String)>)
    ensures
        made(r, directed_rung(views(toks@))),
        r is Some <==> directed_carries(views(toks@)),
{
    if toks.len() != 4 || !same(toks[0].as_str(), "CQ") {
        return None;
    }
    let mut directed: String = String::new();
    directed.append("CQ ");
    directed.append(hold_direction(toks[1].as_str()).as_str());
    assert(directed@ =~= directed_word(views(toks@)));
    try_pack77(directed.as_str(), toks[2].as_str(), toks[3].as_str())
}

/// The everyday rung of the ladder.
fn try_everyday(toks: &Vec<String>) -> (r: Option<([u8; 77], String)>)
    ensures
        made(r, everyday_rung(views(toks@))),
        r is Some <==> toks@.len() <= 3 && everyday_carries(
            token(views(toks@), 0),
            token(views(toks@), 1),
            token(views(toks@), 2),
        ),
{
    if toks.len() > 3 {
        return None;
    }
    try_pack77(token_or_empty(toks, 0), token_or_empty(toks, 1), token_or_empty(toks, 2))
}

// ── A hashed callsign in the everyday layout ────────────────────────────────

/// Whether a callsign has to travel as its hash: the operator wrote it in
/// brackets, or the 28-bit field cannot spell it.
pub open spec fn wants_hash(tok: Seq<char>) -> bool {
    let b = bare_spec(tok);
    b.len() > 0 && b != "CQ"@ && (opens_bracket(tok) || !standard_call(b))
}

/// A callsign as the far end reads it: in brackets where it was hashed.
pub open spec fn as_read(call: Seq<char>, hashed: bool) -> Seq<char> {
    if hashed {
        bracketed(call)
    } else {
        call
    }
}

/// Whether the everyday layout carries a message with one callsign as its hash:
/// a payload that is no bare acknowledgement, one callsign that has to travel as
/// its hash, and one that can be spelled.
pub open spec fn hashed_carries(c1: Seq<char>, c2: Seq<char>, payload: Seq<char>) -> bool {
    let (hashed, spelled) = if wants_hash(c1) {
        (bare_spec(c1), bare_spec(c2))
    } else {
        (bare_spec(c2), bare_spec(c1))
    };
    &&& payload.len() > 0 && !is_ack(payload) && held(payload) is Some
    &&& wants_hash(c1) != wants_hash(c2)
    &&& valid_call(hashed)
    &&& standard_call(spelled) && held28(spelled)
}

/// A message with one callsign hashed as it is read.
pub open spec fn hashed_sent(c1: Seq<char>, c2: Seq<char>, payload: Seq<char>) -> Seq<char> {
    joined3(
        as_read(bare_spec(c1), wants_hash(c1)),
        as_read(bare_spec(c2), wants_hash(c2)),
        held(payload)->0,
    )
}

/// The everyday layout with one callsign carried as its 22-bit hash.
pub open spec fn hashed_rung(c1: Seq<char>, c2: Seq<char>, payload: Seq<char>) -> Option<Packed> {
    let b1 = bare_spec(c1);
    let b2 = bare_spec(c2);
    let h1 = wants_hash(c1);
    let h2 = wants_hash(c2);
    let hashed = if h1 {
        b1
    } else {
        b2
    };
    let spelled = if h1 {
        b2
    } else {
        b1
    };
    if payload.len() == 0 || is_ack(payload) || held(payload) is None || h1 == h2 || !valid_call(
        hashed,
    ) || !standard_call(spelled) || !spellable(spelled) {
        None
    } else {
        let q = held(payload)->0;
        match pack77_bits(
            if h1 {
                "K1ABC"@
            } else {
                b1
            },
            if h2 {
                "K1ABC"@
            } else {
                b2
            },
            q,
        ) {
            Some(m) => Some(
                Packed {
                    bits: written(
                        m,
                        if h1 {
                            0
                        } else {
                            29
                        },
                        28,
                        NTOKENS as nat + callsign_hash(hashed, 22),
                    ),
                    kind: MsgKind::Standard,
                    sent: hashed_sent(c1, c2, payload),
                    hashed: seq![Hashed::TwentyTwo(hashed)],
                    read_as: |names: Seq<Seq<char>>|
                        if h1 {
                            joined3(names[0], b2, q)
                        } else {
                            joined3(b1, names[0], q)
                        },
                },
            ),
            None => None,
        }
    }
}

/// A message with a hashed callsign arrives.
proof fn lemma_hashed_arrives(c1: Seq<char>, c2: Seq<char>, payload: Seq<char>)
    requires
        hashed_rung(c1, c2, payload) is Some,
        wants_hash(c1) ==> !is_hashed(
            field(pack77_bits("K1ABC"@, bare_spec(c2), held(payload)->0)->0, 29, 28),
        ),
        wants_hash(c2) ==> !is_hashed(
            field(pack77_bits(bare_spec(c1), "K1ABC"@, held(payload)->0)->0, 0, 28),
        ),
    ensures
        arrives(hashed_rung(c1, c2, payload)->0),
{
    let p = hashed_rung(c1, c2, payload)->0;
    let b1 = bare_spec(c1);
    let b2 = bare_spec(c2);
    let h1 = wants_hash(c1);
    let hashed = if h1 {
        b1
    } else {
        b2
    };
    let w1 = if h1 {
        "K1ABC"@
    } else {
        b1
    };
    let w2 = if h1 {
        b2
    } else {
        "K1ABC"@
    };
    let q = held(payload)->0;
    let m = pack77_bits(w1, w2, q)->0;
    let n = NTOKENS as nat + callsign_hash(hashed, 22);
    let at: int = if h1 {
        0
    } else {
        29
    };
    let (g, ir) = payload_field(q)->0;
    lemma_held_is_kept(payload);
    lemma_payload_fits(q);
    lemma_standard_fields(pack28_value(w1)->0 as nat, pack28_value(w2)->0 as nat, g, ir);
    lemma2_to64();
    lemma_hash_bound(hashed, 22);
    lemma_small(n, 28);
    lemma_field_written(m, at, 28, n);
    lemma_field_kept(m, at, 28, n, 28, 1);
    lemma_field_kept(m, at, 28, n, 57, 1);
    lemma_field_kept(m, at, 28, n, 58, 1);
    lemma_field_kept(m, at, 28, n, 59, 15);
    lemma_field_kept(m, at, 28, n, 74, 3);
    lemma_field_kept(m, at, 28, n, 29 - at, 28);
    assert forall|reader: Reader, got: Option<Seq<char>>| #[trigger]
        read_by(p.bits, reader, got) implies got == Some(
        (p.read_as)(shown_all(reader, p.hashed)),
    ) by {
        assert(shown_all(reader, p.hashed)[0] == shown(reader, p.hashed[0]));
        if h1 {
            assert(reads28(field(p.bits, 0, 28), reader.recent, shown(reader, p.hashed[0])));
            lemma_reads28(b2, field(p.bits, 29, 28), reader.recent);
        } else {
            lemma_reads28(b1, field(p.bits, 0, 28), reader.recent);
            assert(reads28(field(p.bits, 29, 28), reader.recent, shown(reader, p.hashed[0])));
        }
        assert(payload_kept(q));
    }
}

/// The field holds the stand-in.
proof fn lemma_stand_in_is_held()
    ensures
        held28("K1ABC"@),
{
    reveal_strlit("K1ABC");
    assert(last_digit_at("K1ABC"@, 1));
}

/// Whether a callsign has to travel as its hash.
fn must_hash(tok: &str) -> (r: bool)
    ensures
        r == wants_hash(tok@),
{
    let b: &str = bare(tok);
    b.unicode_len() > 0 && !same(b, "CQ") && (is_bracket_open(tok)
        || !wsjt77::is_standard_callsign(b))
}

/// A callsign as the far end reads it.
fn read_form(call: &str, hashed: bool) -> (r: String)
    ensures
        r@ == as_read(call@, hashed),
{
    let mut r: String = String::new();
    if hashed {
        r.push('<');
        r.append(call);
        r.push('>');
    } else {
        r.append(call);
    }
    assert(r@ =~= as_read(call@, hashed));
    r
}

/// Whether a payload is a bare acknowledgement.
fn is_acknowledgement(p: &str) -> (r: bool)
    ensures
        r == is_ack(p@),
{
    same(p, "RRR") || same(p, "RR73") || same(p, "73")
}

/// The everyday layout with one callsign carried as its 22-bit hash rather
/// than spelled out, which is the only way to send a report or a grid to a
/// station whose callsign the 28-bit field cannot hold.
///
/// The non-standard layout spells such a callsign out in full, but it spends 58
/// of its 77 bits doing so and has room left for nothing but a bare `RRR`,
/// `RR73` or `73`. So `<R7KJG/QRP> F4CYH R-12` goes out as an ordinary message
/// whose first callsign field holds `NTOKENS + hash22`. Both ends resolve it:
/// the far end because the hash is of its own callsign, and this one because
/// the contact opened with a message that spelled the callsign out.
///
/// `None` for anything that layout should not carry:
///
/// * A bare `RRR`, `RR73` or `73`, and an empty payload. Those fit the
///   non-standard layout whole, and spelling the callsign out is worth more
///   than the hash saves.
/// * Both callsigns non-standard, or neither. Hashing both would leave a
///   message that only a station which had already heard *both* spell
///   themselves out could read, and the everyday packer already handles
///   neither.
/// * A payload that the field does not hold.
fn pack77_hashed(c1: &str, c2: &str, payload: &str) -> (r: Option<([u8; 77], String)>)
    ensures
        made(r, hashed_rung(c1@, c2@, payload@)),
        r is Some <==> hashed_carries(c1@, c2@, payload@),
{
    if payload.unicode_len() == 0 || is_acknowledgement(payload) {
        return None;
    }
    let held: String = match hold(payload) {
        Some(q) => q,
        None => {
            return None;
        },
    };
    let b1: &str = bare(c1);
    let b2: &str = bare(c2);
    let h1: bool = must_hash(c1);
    let h2: bool = must_hash(c2);
    if h1 == h2 {
        return None;
    }
    let (hashed, spelled) = if h1 {
        (b1, b2)
    } else {
        (b2, b1)
    };
    if !wsjt77::is_valid_callsign(hashed) || !wsjt77::is_standard_callsign(spelled)
        || !is_spellable(spelled) {
        return None;
    }
    // Packed with a stand-in where the hash goes and then overwritten: only the
    // one field that the everyday packer cannot write is written here.
    let stand_in: &str = "K1ABC";
    proof {
        lemma_stand_in_is_held();
        lemma_held_packs(payload@);
    }
    match wsjt77::pack77(
        if h1 {
            stand_in
        } else {
            b1
        },
        if h2 {
            stand_in
        } else {
            b2
        },
        held.as_str(),
    ) {
        Some(m) => {
            let mut msg: [u8; 77] = m;
            proof {
                lemma2_to64();
                lemma_hash_bound(hashed@, 22);
            }
            // The callsign is hashed whole, `/QRP` and all.
            let n28: u32 = NTOKENS + ihashcall(hashed, 22);
            write_bits(
                &mut msg,
                if h1 {
                    0
                } else {
                    29
                },
                28,
                n28,
            );
            proof {
                lemma_hashed_arrives(c1@, c2@, payload@);
            }
            let (r1, r2) = (read_form(b1, h1), read_form(b2, h2));
            Some((msg, join3(r1.as_str(), r2.as_str(), held.as_str())))
        },
        None => None,
    }
}

/// A bare acknowledgement, or nothing at all, never has its callsign hashed: it
/// fits a layout that spells the callsign out. And one callsign is hashed, never
/// both: the other is spelled.
pub proof fn law_one_callsign_is_hashed_and_the_other_spelled(
    c1: Seq<char>,
    c2: Seq<char>,
    payload: Seq<char>,
)
    ensures
        payload.len() == 0 || is_ack(payload) ==> hashed_rung(c1, c2, payload) is None,
        hashed_rung(c1, c2, payload) is Some ==> hashed_rung(c1, c2, payload)->0.hashed.len() == 1
            && (standard_call(bare_spec(c1)) || standard_call(bare_spec(c2))),
{
}

// ── A callsign spelled out beside a hashed one ──────────────────────────────

/// Whether a non-standard callsign calls CQ.
pub open spec fn compound_cq(toks: Seq<Seq<char>>) -> bool {
    token_is(toks, 0, "CQ"@) && token(toks, 1).len() > 0 && !standard_call(token(toks, 1))
}

/// A CQ by a non-standard callsign.
pub open spec fn compound_cq_rung(toks: Seq<Seq<char>>) -> Option<Packed> {
    if compound_cq(toks) {
        match pack77_type4_bits(token(toks, 1), seq![], seq![], true) {
            Some(bits) => Some(
                Packed {
                    bits,
                    kind: MsgKind::NonStandard,
                    sent: "CQ "@ + token(toks, 1),
                    hashed: seq![],
                    read_as: |names: Seq<Seq<char>>| "CQ "@ + token(toks, 1),
                },
            ),
            None => None,
        }
    } else {
        None
    }
}

/// One compound callsign, spelled out, and a hashed one. Only a bare
/// acknowledgement fits alongside: a grid or report is lost, and the text says
/// so.
pub open spec fn compound_rung(toks: Seq<Seq<char>>) -> Option<Packed> {
    let c1 = token(toks, 0);
    let c2 = token(toks, 1);
    let rpt = if is_ack(token(toks, 2)) {
        token(toks, 2)
    } else {
        seq![]
    };
    let first = c1.len() > 0 && !standard_call(c1) && c1 != "CQ"@;
    let second = c2.len() > 0 && !standard_call(c2);
    let nonstd = if first {
        c1
    } else {
        c2
    };
    let std_call = if first {
        c2
    } else {
        c1
    };
    if first != second && valid_call(nonstd) && standard_call(std_call) {
        match pack77_type4_bits(nonstd, std_call, rpt, false) {
            Some(m) => Some(
                Packed {
                    bits: m.update(
                        70,
                        if first {
                            1
                        } else {
                            0
                        },
                    ),
                    kind: MsgKind::NonStandard,
                    sent: if first {
                        joined3(nonstd, bracketed(std_call), rpt)
                    } else {
                        joined3(bracketed(std_call), nonstd, rpt)
                    },
                    hashed: seq![Hashed::Twelve(std_call)],
                    read_as: |names: Seq<Seq<char>>|
                        if first {
                            joined3(nonstd, names[0], rpt)
                        } else {
                            joined3(names[0], nonstd, rpt)
                        },
                },
            ),
            None => None,
        }
    } else {
        None
    }
}

/// A word of the non-standard layout's alphabet has a number below a power of
/// its base.
proof fn lemma_base38_number(s: Seq<char>)
    requires
        in_base38(s),
    ensures
        base38_number(s) < pow(38, s.len()),
    decreases s.len(),
{
    reveal(pow);
    if s.len() > 0 {
        lemma_base38_number(s.drop_last());
        assert(base38_digit(s.last() as u8) < 38);
        assert(pow(38, s.len()) == 38 * pow(38, (s.len() - 1) as nat));
    }
}

/// A callsign of eleven characters fits the 58-bit field.
proof fn lemma_base38_fits(s: Seq<char>)
    requires
        in_base38(s),
        s.len() <= 11,
    ensures
        base38_number(s) < pow2(58),
{
    lemma_base38_number(s);
    lemma2_to64_rest();
    vstd::arithmetic::power::lemma_pow_increases(38, s.len(), 11);
    assert(pow(38, 11) == 238_572_050_223_552_512) by {
        reveal_with_fuel(pow, 12);
    }
}

/// Each field of a message in the non-standard layout reads back as what was
/// written into it, whatever then says which callsign comes first.
proof fn lemma_nonstandard_fields(h: nat, call: nat, f0: nat, ack: nat, cq: nat, flip: u8)
    requires
        h < pow2(12),
        call < pow2(58),
        ack < 4,
        cq < 2,
        flip < 2,
    ensures
        ({
            let m = nonstandard_bits(h, call, f0, ack, cq).update(70, flip);
            &&& m.len() == 77
            &&& field(m, 0, 12) == h
            &&& field(m, 12, 58) == call
            &&& field(m, 70, 1) == flip
            &&& field(m, 71, 2) == ack
            &&& field(m, 73, 1) == cq
            &&& field(m, 74, 3) == 4
        }),
{
    let m1 = written(blank(), 0, 12, h);
    let m2 = written(m1, 12, 58, call);
    let m3 = written(m2, 70, 1, f0);
    let m4 = written(m3, 71, 2, ack);
    let m5 = written(m4, 73, 1, cq);
    let m6 = written(m5, 74, 3, 4);
    let m7 = written(m6, 70, 1, flip as nat);
    lemma2_to64();
    assert(bit(flip as nat, 0) == flip as nat);
    assert(m7 =~= m6.update(70, flip));
    lemma_field_written(blank(), 0, 12, h);
    lemma_small(h, 12);
    lemma_field_kept(m1, 12, 58, call, 0, 12);
    lemma_field_kept(m2, 70, 1, f0, 0, 12);
    lemma_field_kept(m3, 71, 2, ack, 0, 12);
    lemma_field_kept(m4, 73, 1, cq, 0, 12);
    lemma_field_kept(m5, 74, 3, 4, 0, 12);
    lemma_field_kept(m6, 70, 1, flip as nat, 0, 12);
    lemma_field_written(m1, 12, 58, call);
    lemma_small(call, 58);
    lemma_field_kept(m2, 70, 1, f0, 12, 58);
    lemma_field_kept(m3, 71, 2, ack, 12, 58);
    lemma_field_kept(m4, 73, 1, cq, 12, 58);
    lemma_field_kept(m5, 74, 3, 4, 12, 58);
    lemma_field_kept(m6, 70, 1, flip as nat, 12, 58);
    lemma_field_written(m6, 70, 1, flip as nat);
    lemma_small(flip as nat, 1);
    lemma_field_written(m3, 71, 2, ack);
    lemma_small(ack, 2);
    lemma_field_kept(m4, 73, 1, cq, 71, 2);
    lemma_field_kept(m5, 74, 3, 4, 71, 2);
    lemma_field_kept(m6, 70, 1, flip as nat, 71, 2);
    lemma_field_written(m4, 73, 1, cq);
    lemma_small(cq, 1);
    lemma_field_kept(m5, 74, 3, 4, 73, 1);
    lemma_field_kept(m6, 70, 1, flip as nat, 73, 1);
    lemma_field_written(m5, 74, 3, 4);
    lemma_small(4, 3);
    lemma_field_kept(m6, 70, 1, flip as nat, 74, 3);
}

/// Whether a token is as the ladder sees one: without whitespace, in upper
/// case.
pub open spec fn is_token(tok: Seq<char>) -> bool {
    unbroken(tok) && upper(tok) == tok
}

/// A CQ by a non-standard callsign arrives.
proof fn lemma_compound_cq_arrives(toks: Seq<Seq<char>>)
    requires
        compound_cq_rung(toks) is Some,
        is_token(token(toks, 1)),
    ensures
        arrives(compound_cq_rung(toks)->0),
{
    let p = compound_cq_rung(toks)->0;
    let ns = token(toks, 1);
    lemma_trimmed_unbroken(ns);
    lemma_trimmed_unbroken(seq![]);
    lemma2_to64();
    lemma_base38_fits(ns);
    let m = nonstandard_bits(0, base38_number(ns), 0, 0, 1);
    assert(p.bits == m);
    assert(m[70] == 0) by {
        assert(bit(0, 0) == 0);
    }
    assert(m.update(70, 0) =~= m);
    lemma_nonstandard_fields(0, base38_number(ns), 0, 0, 1, 0);
    assert forall|reader: Reader, got: Option<Seq<char>>| #[trigger]
        read_by(p.bits, reader, got) implies got == Some(
            (p.read_as)(shown_all(reader, p.hashed)),
        ) by {
        assert(!ns.contains(' '));
        assert(base38_number(ns) == field(p.bits, 12, 58));
    }
}

/// A message with a callsign spelled out arrives.
proof fn lemma_compound_arrives(toks: Seq<Seq<char>>)
    requires
        compound_rung(toks) is Some,
        is_token(token(toks, 0)),
        is_token(token(toks, 1)),
        is_token(token(toks, 2)),
    ensures
        arrives(compound_rung(toks)->0),
{
    let p = compound_rung(toks)->0;
    let c1 = token(toks, 0);
    let c2 = token(toks, 1);
    let rpt: Seq<char> = if is_ack(token(toks, 2)) {
        token(toks, 2)
    } else {
        seq![]
    };
    let first = c1.len() > 0 && !standard_call(c1) && c1 != "CQ"@;
    let ns = if first {
        c1
    } else {
        c2
    };
    let std_call = if first {
        c2
    } else {
        c1
    };
    reveal_strlit("RRR");
    reveal_strlit("RR73");
    reveal_strlit("73");
    lemma_trimmed_unbroken(ns);
    lemma_trimmed_unbroken(rpt);
    lemma2_to64();
    lemma_base38_fits(ns);
    lemma_hash_bound(std_call, 12);
    let ack = ack_field(rpt)->0;
    assert(ack_text(ack) =~= rpt);
    let f0: nat = if pack28_value(std_call) is Some {
        0
    } else {
        1
    };
    let flip: u8 = if first {
        1
    } else {
        0
    };
    lemma_nonstandard_fields(callsign_hash(std_call, 12), base38_number(ns), f0, ack, 0, flip);
    assert(p.bits == nonstandard_bits(
        callsign_hash(std_call, 12),
        base38_number(ns),
        f0,
        ack,
        0,
    ).update(70, flip));
    assert forall|reader: Reader, got: Option<Seq<char>>| #[trigger]
        read_by(p.bits, reader, got) implies got == Some(
            (p.read_as)(shown_all(reader, p.hashed)),
        ) by {
        assert(shown_all(reader, p.hashed)[0] == shown(reader, p.hashed[0]));
        assert(!ns.contains(' '));
        assert(base38_number(ns) == field(p.bits, 12, 58));
    }
}

/// The compound-CQ rung of the ladder.
fn try_compound_cq(toks: &Vec<String>) -> (r: Option<([u8; 77], String)>)
    requires
        is_token(token(views(toks@), 1)),
    ensures
        made(r, compound_cq_rung(views(toks@))),
{
    let c2: &str = token_or_empty(toks, 1);
    if !same(token_or_empty(toks, 0), "CQ") || c2.unicode_len() == 0
        || wsjt77::is_standard_callsign(c2) {
        proof {
            reveal_strlit("CQ");
        }
        return None;
    }
    proof {
        reveal_strlit("");
        assert(""@ =~= seq![]);
    }
    match wsjt77::pack77_type4(c2, "", "", true) {
        Some(m) => {
            let mut sent: String = String::new();
            sent.append("CQ ");
            sent.append(c2);
            proof {
                assert(sent@ =~= "CQ "@ + c2@);
                lemma_compound_cq_arrives(views(toks@));
            }
            Some((m, sent))
        },
        None => None,
    }
}

/// The compound rung of the ladder.
fn try_compound(toks: &Vec<String>) -> (r: Option<([u8; 77], String)>)
    requires
        is_token(token(views(toks@), 0)),
        is_token(token(views(toks@), 1)),
        is_token(token(views(toks@), 2)),
    ensures
        made(r, compound_rung(views(toks@))),
{
    let c1: &str = token_or_empty(toks, 0);
    let c2: &str = token_or_empty(toks, 1);
    let payload: &str = token_or_empty(toks, 2);
    let rpt: &str = if is_acknowledgement(payload) {
        payload
    } else {
        ""
    };
    proof {
        reveal_strlit("");
        assert(""@ =~= seq![]);
    }
    let first: bool = c1.unicode_len() > 0 && !wsjt77::is_standard_callsign(c1) && !same(c1, "CQ");
    let second: bool = c2.unicode_len() > 0 && !wsjt77::is_standard_callsign(c2);
    if first == second {
        return None;
    }
    let (nonstd, std_call) = if first {
        (c1, c2)
    } else {
        (c2, c1)
    };
    if !wsjt77::is_valid_callsign(nonstd) || !wsjt77::is_standard_callsign(std_call) {
        return None;
    }
    match wsjt77::pack77_type4(nonstd, std_call, rpt, false) {
        Some(m) => {
            // Bit 70 decides which call is read first. The packer always puts
            // the hash first, which is the layout for *being* the non-standard
            // station; addressing one needs the other order.
            let mut msg: [u8; 77] = m;
            msg[70] = if first {
                1
            } else {
                0
            };
            let hashed: String = read_form(std_call, true);
            let sent: String = if first {
                join3(nonstd, hashed.as_str(), rpt)
            } else {
                join3(hashed.as_str(), nonstd, rpt)
            };
            proof {
                lemma_compound_arrives(views(toks@));
            }
            Some((msg, sent))
        },
        None => None,
    }
}

// ── Free text ───────────────────────────────────────────────────────────────

/// Up to thirteen characters of a text, without the whitespace they end in.
pub open spec fn cut(t: Seq<char>) -> Seq<char> {
    trim_end(
        t.take(
            if t.len() < 13 {
                t.len() as int
            } else {
                13
            },
        ),
    )
}

/// Free text: thirteen characters, from a restricted alphabet.
pub open spec fn free_text_rung(t: Seq<char>) -> Option<Packed> {
    match free_text_bits(cut(t)) {
        Some(bits) => Some(
            Packed {
                bits,
                kind: MsgKind::FreeText,
                sent: cut(t),
                hashed: seq![],
                read_as: |names: Seq<Seq<char>>| cut(t),
            },
        ),
        None => None,
    }
}

/// A free text fits the 71-bit field.
proof fn lemma_base42_fits(s: Seq<char>)
    requires
        in_base42(s),
        s.len() <= 13,
    ensures
        base42(s, 13) < pow2(71),
{
    lemma_base42(s, 13);
    lemma2_to64();
    lemma_pow2_adds(64, 7);
    assert(pow(42, 13) == 1_265_437_718_438_866_624_512) by {
        reveal_with_fuel(pow, 14);
    }
}

/// A free text has a number below a power of its base.
proof fn lemma_base42(s: Seq<char>, n: nat)
    requires
        in_base42(s),
    ensures
        base42(s, n) < pow(42, n),
    decreases n,
{
    reveal(pow);
    if n > 0 {
        lemma_base42(s, (n - 1) as nat);
        if n - 1 < s.len() {
            assert(base42_digit(s[n - 1]) is Some);
        }
        assert(pow(42, n) == 42 * pow(42, (n - 1) as nat));
    }
}

/// A free text arrives.
proof fn lemma_free_text_arrives(t: Seq<char>)
    requires
        free_text_rung(t) is Some,
        t.len() > 0 ==> !is_white(t[0]),
        upper(t) == t,
    ensures
        arrives(free_text_rung(t)->0),
{
    let p = free_text_rung(t)->0;
    let n: int = if t.len() < 13 {
        t.len() as int
    } else {
        13
    };
    let f = cut(t);
    lemma_trimmed(t.take(n));
    lemma_trim_end_prefix(t.take(n));
    assert forall|i: int| 0 <= i < f.len() implies upper_char(#[trigger] f[i]) == f[i] by {
        assert(f[i] == t[i]);
        assert(upper(t)[i] == upper_char(t[i]));
    }
    assert(upper(f) =~= f);
    assert(f[0] == t[0]);
    lemma_base42_fits(f);
    lemma_small(base42(f, 13), 71);
    lemma_field_written(blank(), 0, 71, base42(f, 13));
    lemma_field_kept(blank(), 0, 71, base42(f, 13), 71, 3);
    lemma_field_kept(blank(), 0, 71, base42(f, 13), 74, 3);
    reveal_with_fuel(field, 4);
    assert forall|reader: Reader, got: Option<Seq<char>>| #[trigger]
        read_by(p.bits, reader, got) implies got == Some(
            (p.read_as)(shown_all(reader, p.hashed)),
        ) by {
        assert(field(p.bits, 0, 71) == base42(f, 13));
    }
}

/// `trim_end` leaves something of a text that starts with a character.
proof fn lemma_trim_end_keeps(s: Seq<char>)
    requires
        s.len() > 0,
        !is_white(s[0]),
    ensures
        trim_end(s).len() > 0,
    decreases s.len(),
{
    if is_white(s.last()) {
        assert(s.drop_last()[0] == s[0]);
        lemma_trim_end_keeps(s.drop_last());
    }
}

/// What `trim_end` leaves is a beginning of the text.
proof fn lemma_trim_end_prefix(s: Seq<char>)
    ensures
        trim_end(s).len() <= s.len(),
        forall|i: int| 0 <= i < trim_end(s).len() ==> #[trigger] trim_end(s)[i] == s[i],
    decreases s.len(),
{
    if s.len() > 0 && is_white(s.last()) {
        lemma_trim_end_prefix(s.drop_last());
    }
}

/// The free-text rung of the ladder.
fn try_free_text(text: &str) -> (r: Option<([u8; 77], String)>)
    requires
        text@.len() > 0 ==> !is_white(text@[0]),
        upper(text@) == text@,
    ensures
        made(r, free_text_rung(text@)),
{
    let v: Vec<char> = chars_of(text);
    let n: usize = if v.len() < 13 {
        v.len()
    } else {
        13
    };
    let first: String = string_of(&v, 0, n);
    assert(first@ =~= text@.take(n as int));
    let free: &str = trim_right(first.as_str());
    match wsjt77::pack77_free_text(free) {
        Some(m) => {
            proof {
                lemma_free_text_arrives(text@);
            }
            Some((m, free.to_owned()))
        },
        None => None,
    }
}

// ── The ladder ──────────────────────────────────────────────────────────────

/// What a text goes out as: the first rung of the ladder that carries it.
pub open spec fn packed(text: Seq<char>) -> Option<Packed> {
    let t = upper(trimmed(text));
    let toks = words(t);
    if fox_rung(toks) is Some {
        fox_rung(toks)
    } else if contest_rung(toks) is Some {
        contest_rung(toks)
    } else if directed_rung(toks) is Some {
        directed_rung(toks)
    } else if everyday_rung(toks) is Some {
        everyday_rung(toks)
    } else if hashed_rung(token(toks, 0), token(toks, 1), token(toks, 2)) is Some {
        hashed_rung(token(toks, 0), token(toks, 1), token(toks, 2))
    } else if compound_cq_rung(toks) is Some {
        compound_cq_rung(toks)
    } else if compound_rung(toks) is Some {
        compound_rung(toks)
    } else {
        free_text_rung(t)
    }
}

/// The layout that a text goes out in, and how it is read by those who resolve
/// its hashes.
pub open spec fn outgoing(text: Seq<char>) -> Option<(MsgKind, Seq<char>)> {
    let t = upper(trimmed(text));
    let toks = words(t);
    let (c1, c2, payload) = (token(toks, 0), token(toks, 1), token(toks, 2));
    if fox_carries(toks) {
        Some((MsgKind::Fox, fox_sent(toks)))
    } else if contest_rung(toks) is Some {
        Some((MsgKind::EuVhf, contest_rung(toks)->0.sent))
    } else if directed_carries(toks) {
        Some((MsgKind::Standard, joined3(directed_word(toks), toks[2], held(toks[3])->0)))
    } else if toks.len() <= 3 && everyday_carries(c1, c2, payload) {
        Some((MsgKind::Standard, joined3(c1, c2, held(payload)->0)))
    } else if hashed_carries(c1, c2, payload) {
        Some((MsgKind::Standard, hashed_sent(c1, c2, payload)))
    } else if compound_cq_rung(toks) is Some {
        Some((MsgKind::NonStandard, compound_cq_rung(toks)->0.sent))
    } else if compound_rung(toks) is Some {
        Some((MsgKind::NonStandard, compound_rung(toks)->0.sent))
    } else if free_text_rung(t) is Some {
        Some((MsgKind::FreeText, free_text_rung(t)->0.sent))
    } else {
        None
    }
}

/// A text in upper case with no whitespace around it is packed as it stands.
proof fn lemma_typed(text: Seq<char>)
    requires
        text.len() > 0,
        !is_white(text[0]),
        !is_white(text.last()),
        upper(text) == text,
    ensures
        upper(trimmed(text)) == text,
{
}

/// Words in upper case with a space between are in upper case.
proof fn lemma_joined_upper(a: Seq<char>, b: Seq<char>, c: Seq<char>)
    requires
        upper(a) == a,
        upper(b) == b,
        upper(c) == c,
    ensures
        upper(joined3(a, b, c)) == joined3(a, b, c),
{
    let t = joined3(a, b, c);
    assert forall|i: int| 0 <= i < t.len() implies upper_char(#[trigger] t[i]) == t[i] by {
        assert(t[i] == ' ' || a.contains(t[i]) || b.contains(t[i]) || c.contains(t[i]));
        if a.contains(t[i]) {
            let k = choose|k: int| 0 <= k < a.len() && a[k] == t[i];
            assert(upper(a)[k] == upper_char(a[k]));
        } else if b.contains(t[i]) {
            let k = choose|k: int| 0 <= k < b.len() && b[k] == t[i];
            assert(upper(b)[k] == upper_char(b[k]));
        } else if c.contains(t[i]) {
            let k = choose|k: int| 0 <= k < c.len() && c[k] == t[i];
            assert(upper(c)[k] == upper_char(c[k]));
        }
    }
    assert(upper(t) =~= t);
}

/// The 28-bit field holds every standard callsign that has a character before
/// its last digit and no `/R` or `/P`.
pub proof fn law_standard_callsigns_are_held(call: Seq<char>)
    requires
        is_token(call),
        standard_call(call),
        !ends_in_r_or_p(call),
        !last_digit_at(call, 0),
    ensures
        held28(call),
{
    lemma_trimmed_unbroken(call);
    let k = choose|k: int| #[trigger]
        last_digit_at(call, k) && call.len() - k <= 4 && standard_prefix(call.take(k));
    assert forall|i: int| 0 <= i < call.len() implies is_digit(#[trigger] call[i]) || is_upper(
        call[i],
    ) by {
        if i < k {
            assert(call.take(k)[i] == call[i]);
        }
    }
    assert(call.take(k).len() == k);
}

/// An everyday message goes out whole, as it was typed, in the standard layout:
/// two words that the 28-bit field holds, standard callsigns among them, and a
/// payload in the form that its field gives back.
pub proof fn law_an_everyday_message_goes_out_as_typed(
    a: Seq<char>,
    b: Seq<char>,
    payload: Seq<char>,
)
    requires
        is_token(a) && held28(a),
        is_token(b) && held28(b),
        is_token(payload) && held(payload) == Some(payload),
    ensures
        outgoing(joined3(a, b, payload)) == Some((MsgKind::Standard, joined3(a, b, payload))),
{
    let text = joined3(a, b, payload);
    lemma_words_joined(a, b, payload);
    lemma_joined_upper(a, b, payload);
    assert(text[0] == a[0]);
    assert(text.last() == (if payload.len() > 0 {
        payload.last()
    } else {
        b.last()
    }));
    lemma_typed(text);
    let toks = words(text);
    assert(token(toks, 0) == a && token(toks, 1) == b);
    assert(token(toks, 2) =~= payload);
}

/// Where a CQ is directed reads back as it was written.
proof fn lemma_direction_is_held(m: Seq<char>)
    requires
        aimed_cq("CQ "@ + m),
    ensures
        held_direction(m) == m,
        m.len() > 0,
{
    reveal_strlit("CQ ");
    let w = "CQ "@ + m;
    assert forall|i: int| 0 <= i < m.len() implies m[i] == #[trigger] w[i + 3] by {}
    if is_upper(w[3]) {
        assert(m[0] == w[3]);
        assert(!is_digit(m[0]));
    } else {
        assert forall|i: int| 0 <= i < m.len() implies is_digit(#[trigger] m[i]) by {
            assert(is_digit(w[i + 3]));
        }
        lemma_three_digits(m);
        lemma_padded(digits_value(m));
        assert(padded(digits_value(m), 3) =~= m);
    }
}

/// The words of a directed CQ.
proof fn lemma_directed_words(m: Seq<char>, b: Seq<char>, payload: Seq<char>)
    requires
        is_token(m) && m.len() > 0,
        is_token(b) && b.len() > 0,
        is_token(payload) && payload.len() > 0,
    ensures
        words(joined3("CQ "@ + m, b, payload)) == seq!["CQ"@, m, b, payload],
        upper(trimmed(joined3("CQ "@ + m, b, payload))) == joined3("CQ "@ + m, b, payload),
{
    reveal_strlit("CQ");
    reveal_strlit("CQ ");
    let w = "CQ "@ + m;
    let text = joined3(w, b, payload);
    let rest = joined3(m, b, payload);
    assert(words(text) == seq!["CQ"@, m, b, payload]) by {
        lemma_words_joined(m, b, payload);
        assert(text =~= "CQ"@ + seq![' '] + rest);
        lemma_words_first("CQ"@, rest);
        assert(words(text) =~= seq!["CQ"@, m, b, payload]);
    }
    assert(upper(w) == w) by {
        assert forall|i: int| 0 <= i < w.len() implies upper_char(#[trigger] w[i]) == w[i] by {
            if i >= 3 {
                assert(upper(m)[i - 3] == upper_char(m[i - 3]));
            }
        }
        assert(upper(w) =~= w);
    }
    lemma_joined_upper(w, b, payload);
    assert(text[0] == 'C');
    assert(text.last() == payload.last());
    lemma_typed(text);
}

/// A directed CQ goes out whole, as it was typed, in the standard layout: one to
/// four letters or three digits after the `CQ`, a word that the 28-bit field
/// holds, and a payload in the form that its field gives back.
pub proof fn law_a_directed_cq_goes_out_as_typed(m: Seq<char>, b: Seq<char>, payload: Seq<char>)
    requires
        is_token(m) && aimed_cq("CQ "@ + m),
        is_token(b) && held28(b),
        is_token(payload) && payload.len() > 0 && held(payload) == Some(payload),
    ensures
        outgoing(joined3("CQ "@ + m, b, payload)) == Some(
            (MsgKind::Standard, joined3("CQ "@ + m, b, payload)),
        ),
{
    let toks = seq!["CQ"@, m, b, payload];
    lemma_direction_is_held(m);
    lemma_directed_words(m, b, payload);
    assert(contest_rung(toks) is None) by {
        reveal_strlit("CQ");
        assert(!opens_bracket(toks[0]));
    }
    assert(directed_word(toks) == "CQ "@ + m);
    assert(directed_carries(toks));
}

/// A message is degraded rather than dropped: nothing is refused but what every
/// layout refuses, so a text whose first thirteen characters are of the
/// free-text alphabet always goes out.
pub proof fn law_only_what_no_layout_carries_is_refused(text: Seq<char>)
    ensures
        ({
            let t = upper(trimmed(text));
            let toks = words(t);
            packed(text) is None <==> fox_rung(toks) is None && contest_rung(toks) is None
                && directed_rung(toks) is None && everyday_rung(toks) is None && hashed_rung(
                token(toks, 0),
                token(toks, 1),
                token(toks, 2),
            ) is None && compound_cq_rung(toks) is None && compound_rung(toks) is None
                && free_text_rung(t) is None
        }),
        ({
            let t = upper(trimmed(text));
            t.len() > 0 && in_base42(cut(t)) ==> packed(text) is Some && outgoing(text) is Some
        }),
{
    let t = upper(trimmed(text));
    if t.len() > 0 && in_base42(cut(t)) {
        let n: int = if t.len() < 13 {
            t.len() as int
        } else {
            13
        };
        lemma_trimmed(text);
        lemma_upper_char(trimmed(text)[0]);
        lemma_trim_end_keeps(t.take(n));
        lemma_trim_end_prefix(t.take(n));
        let f = cut(t);
        assert forall|i: int| 0 <= i < f.len() implies upper_char(#[trigger] f[i]) == f[i] by {
            assert(f[i] == t[i]);
            lemma_upper_char(trimmed(text)[i]);
        }
        assert(upper(f) =~= f);
    }
}

/// The tokens of a text in upper case are as the ladder sees them.
proof fn lemma_tokens(s: Seq<char>, i: int)
    requires
        0 <= i,
    ensures
        is_token(token(words(upper(s)), i)),
{
    let toks = words(upper(s));
    lemma_words(upper(s));
    if i < toks.len() {
        assert forall|j: int| 0 <= j < toks[i].len() implies upper(s).contains(
            #[trigger] toks[i][j],
        ) by {}
        lemma_upper_part(s, toks[i]);
    } else {
        assert(upper(seq![]) =~= seq![]);
    }
}

/// Pack `text` into a 77-bit message, degrading to the nearest layout that can
/// carry it, and report the message as the far end will read it.
///
/// The ladder is: the DXpedition (Fox) layout when the text is written as one,
/// then the EU VHF contest exchange, then a directed CQ, then the standard
/// exchange, then that same exchange with a non-standard callsign carried as
/// its hash ([`pack77_hashed`]), then the non-standard-callsign layout (which
/// spells the callsign out but can only carry `RRR`, `RR73` or `73` beside
/// it), then 13 characters of free text.
///
/// What is reported is what arrives: every station that resolves the callsigns
/// sent as hashes reads the message as that text.
pub fn pack_message(text: &str) -> (r: Option<([u8; 77], String)>)
    ensures
        made(r, packed(text@)),
        match r {
            Some((m, sent)) => outgoing(text@) == Some((kind_of_bits(m@), sent@)),
            None => outgoing(text@) is None,
        },
{
    let bare_text: &str = trim(text);
    let t: String = to_upper(bare_text);
    let toks: Vec<String> = split_words(t.as_str());
    if let Some(m) = try_fox(&toks) {
        return Some(m);
    }
    if let Some(m) = try_contest(&toks) {
        return Some(m);
    }
    if let Some(m) = try_directed(&toks) {
        return Some(m);
    }
    if let Some(m) = try_everyday(&toks) {
        return Some(m);
    }
    let c1: &str = token_or_empty(&toks, 0);
    let c2: &str = token_or_empty(&toks, 1);
    if let Some(m) = pack77_hashed(c1, c2, token_or_empty(&toks, 2)) {
        return Some(m);
    }
    proof {
        lemma_tokens(bare_text@, 0);
        lemma_tokens(bare_text@, 1);
        lemma_tokens(bare_text@, 2);
    }
    if let Some(m) = try_compound_cq(&toks) {
        return Some(m);
    }
    if let Some(m) = try_compound(&toks) {
        return Some(m);
    }
    proof {
        lemma_trimmed(text@);
        if t@.len() > 0 {
            lemma_upper_char(bare_text@[0]);
        }
        assert(upper(t@) =~= t@) by {
            assert forall|i: int| 0 <= i < t@.len() implies upper_char(#[trigger] t@[i]) == t@[i] by {
                lemma_upper_char(bare_text@[i]);
            }
        }
    }
    try_free_text(t.as_str())
}

// ── What goes out of what was typed ─────────────────────────────────────────

/// Plus signs in front of a text are dropped, all of them, and nothing else.
pub proof fn law_only_the_plus_signs_in_front_are_dropped(n: nat, rest: Seq<char>)
    requires
        rest.len() == 0 || rest[0] != '+',
    ensures
        without_plus(Seq::new(n, |i: int| '+') + rest) == rest,
    decreases n,
{
    let s = Seq::new(n, |i: int| '+') + rest;
    if n == 0 {
        assert(s =~= rest);
    } else {
        assert(s.skip(1) =~= Seq::new((n - 1) as nat, |i: int| '+') + rest);
        law_only_the_plus_signs_in_front_are_dropped((n - 1) as nat, rest);
    }
}

/// The report that a DXpedition message carries is the typed one to within the
/// two decibels of its field: it is even, and either the typed number or the
/// one below it. What lies below the field's range goes out as its lower end,
/// -30 dB, and what lies above as its upper, +32 dB.
pub proof fn law_a_fox_report_keeps_to_two_decibels(
    call1: Seq<char>,
    call2: Seq<char>,
    fox: Seq<char>,
    pluses: nat,
    number: Seq<char>,
    db: int,
)
    requires
        number.len() == 0 || number[0] != '+',
        parsed_i32(number) == Some(db),
        standard_call(call1) && spellable(call1) && pack28_value(call1) is Some,
        standard_call(call2) && spellable(call2) && pack28_value(call2) is Some,
    ensures
        ({
            let p = fox_packed(call1, call2, fox, Seq::new(pluses, |i: int| '+') + number);
            exists|v: int|
                {
                    &&& p is Some && (p->0).1 == #[trigger] report_text(v)
                    &&& 2 * field((p->0).0, 66, 5) - 30 == v
                    &&& v % 2 == 0
                    &&& -30 <= db <= 32 ==> db - 2 < v <= db
                    &&& db < -30 ==> v == -30
                    &&& db > 32 ==> v == 32
                }
        }),
{
    law_only_the_plus_signs_in_front_are_dropped(pluses, number);
    let n5 = fox_steps(db);
    lemma_fox_fields(
        pack28_value(call1)->0 as nat,
        pack28_value(call2)->0 as nat,
        fox,
        n5,
    );
    let v = 2 * n5 - 30;
    let p = fox_packed(call1, call2, fox, Seq::new(pluses, |i: int| '+') + number);
    assert((p->0).1 == report_text(v));
}

/// A DXpedition message goes out with the two callsigns typed, the fox in
/// brackets, and the typed report to within the two decibels of its field: even,
/// and either the typed number or the one below it, or the nearer end of the
/// field's range of -30 to +32 dB.
pub proof fn law_a_fox_message_goes_out_as_typed(
    text: Seq<char>,
    call1: Seq<char>,
    call2: Seq<char>,
    fox: Seq<char>,
    pluses: nat,
    number: Seq<char>,
    db: int,
)
    requires
        words(upper(trimmed(text))) == seq![
            call1,
            "RR73;"@,
            call2,
            fox,
            Seq::new(pluses, |i: int| '+') + number,
        ],
        number.len() == 0 || number[0] != '+',
        parsed_i32(number) == Some(db),
        standard_call(call1) && held28(call1),
        standard_call(call2) && held28(call2),
    ensures
        exists|v: int|
            {
                &&& outgoing(text) == Some(
                    (
                        MsgKind::Fox,
                        call1 + " RR73; "@ + call2 + seq![' ', '<'] + fox + seq!['>', ' ']
                            + #[trigger] report_text(v),
                    ),
                )
                &&& v % 2 == 0
                &&& -30 <= db <= 32 ==> db - 2 < v <= db
                &&& db < -30 ==> v == -30
                &&& db > 32 ==> v == 32
            },
        pack28_value(call1) is Some && pack28_value(call2) is Some ==> ({
            let p = packed(text);
            &&& p is Some && p->0.kind == MsgKind::Fox
            &&& field(p->0.bits, 0, 28) == pack28_value(call1)->0 as nat % pow2(28)
            &&& field(p->0.bits, 28, 28) == pack28_value(call2)->0 as nat % pow2(28)
            &&& field(p->0.bits, 56, 10) == callsign_hash(fox, 10)
            &&& -30 <= db <= 32 ==> db - 2 < 2 * field(p->0.bits, 66, 5) - 30 <= db
            &&& db < -30 ==> field(p->0.bits, 66, 5) == 0
            &&& db > 32 ==> field(p->0.bits, 66, 5) == 31
        }),
{
    law_only_the_plus_signs_in_front_are_dropped(pluses, number);
    let toks = words(upper(trimmed(text)));
    let v = 2 * fox_steps(db) - 30;
    assert(fox_carries(toks));
    assert(fox_sent(toks) =~= call1 + " RR73; "@ + call2 + seq![' ', '<'] + fox + seq!['>', ' ']
        + report_text(v));
    if pack28_value(call1) is Some && pack28_value(call2) is Some {
        lemma_fox_fields(
            pack28_value(call1)->0 as nat,
            pack28_value(call2)->0 as nat,
            fox,
            fox_steps(db),
        );
        assert(fox_rung(toks) is Some);
    }
}

/// A contest exchange goes out with both callsigns in brackets, the roger, the
/// report and the locator typed, and the serial number typed, or the largest that
/// the field holds where it is past that.
pub proof fn law_a_contest_exchange_goes_out_as_typed(
    text: Seq<char>,
    to: Seq<char>,
    from: Seq<char>,
    rogered: bool,
    exchange: Seq<char>,
    grid: Seq<char>,
)
    requires
        words(upper(trimmed(text))) == seq![bracketed(to), bracketed(from)] + (if rogered {
            seq!["R"@]
        } else {
            seq![]
        }) + seq![exchange, grid],
        exchange.len() == 6 && all_digits(exchange),
        exchange[0] == '5' && exchange[1] >= '2',
        grid6(grid),
    ensures
        exists|out: Seq<char>|
            {
                &&& outgoing(text) == Some(
                    (
                        MsgKind::EuVhf,
                        seq!['<'] + to + seq!['>', ' ', '<'] + from + seq!['>', ' '] + (if rogered {
                            seq!['R', ' ']
                        } else {
                            seq![]
                        }) + out + seq![' '] + grid,
                    ),
                )
                &&& out.len() == 6 && #[trigger] all_digits(out)
                &&& out.take(2) == exchange.take(2)
                &&& digits_value(exchange.skip(2)) <= 2047 ==> out == exchange
                &&& digits_value(exchange.skip(2)) > 2047 ==> digits_value(out.skip(2)) == 2047
            },
{
    reveal_strlit("R");
    reveal_strlit("RR73;");
    let toks = words(upper(trimmed(text)));
    assert(toks[0] == bracketed(to) && toks[1] == bracketed(from));
    assert(opens_bracket(toks[0]) && opens_bracket(toks[1]));
    assert(!fox_carries(toks)) by {
        assert(toks[1][0] != "RR73;"@[0]);
    }
    assert(bare_spec(toks[0]) =~= to);
    assert(bare_spec(toks[1]) =~= from);
    assert((toks[2] == "R"@) == rogered);
    let rest = toks.skip(
        if rogered {
            3
        } else {
            2
        },
    );
    assert(rest =~= seq![exchange, grid]);
    let rs = digits_value(exchange.take(2));
    let serial = digits_value(exchange.skip(2));
    assert forall|i: int| 0 <= i < 6 implies is_digit(#[trigger] exchange[i]) by {}
    assert(all_digits(exchange.take(2)));
    assert(all_digits(exchange.skip(2)));
    lemma_two_digits(exchange.take(2));
    let out = exchange_text(rs, serial);
    assert(parsed_exchange(exchange) == Some((rs, serial)));
    law_exchange_round_trips(rs, serial);
    assert(all_digits(out) && out.len() == 6);
    assert forall|i: int| 0 <= i < 6 implies is_digit(#[trigger] out[i]) by {}
    assert(all_digits(out.take(2)));
    lemma_two_digits(out.take(2));
    assert(out.take(2) =~= exchange.take(2));
    if serial <= 2047 {
        law_written_exchange_round_trips(exchange);
    }
    assert(exchange_message(bracketed(to), bracketed(from), rogered, out, grid) =~= seq!['<'] + to
        + seq!['>', ' ', '<'] + from + seq!['>', ' '] + (if rogered {
        seq!['R', ' ']
    } else {
        seq![]
    }) + out + seq![' '] + grid);
}

/// A callsign that the 28-bit field cannot spell goes out in brackets beside one
/// that it can, whichever comes first and whether or not the brackets were
/// typed, with the payload as its field holds it.
#[verifier::rlimit(40)]
pub proof fn law_a_hashed_callsign_goes_out_in_brackets(
    text: Seq<char>,
    hashed: Seq<char>,
    typed: Seq<char>,
    other: Seq<char>,
    payload: Seq<char>,
    first: bool,
)
    requires
        words(upper(trimmed(text))) == (if first {
            seq![typed, other, payload]
        } else {
            seq![other, typed, payload]
        }),
        typed == bracketed(hashed) || typed == hashed && !standard_call(hashed) && !held28(hashed)
            && hashed[0] != '<',
        valid_call(hashed) && hashed.len() > 0 && hashed != "CQ"@,
        standard_call(other) && held28(other),
        payload.len() > 0 && held(payload) is Some && !is_ack(payload),
    ensures
        outgoing(text) == Some(
            (
                MsgKind::Standard,
                if first {
                    seq!['<'] + hashed + seq!['>', ' '] + other + seq![' '] + held(payload)->0
                } else {
                    other + seq![' ', '<'] + hashed + seq!['>', ' '] + held(payload)->0
                },
            ),
        ),
{
    let toks = words(upper(trimmed(text)));
    assert(toks.len() == 3);
    lemma_travels_hashed(hashed, typed);
    lemma_travels_spelled(other);
    lemma_hashed_goes_out(text);
    lemma_held_is_something(payload);
    lemma_bracketed_in_front(hashed, other, held(payload)->0);
    lemma_bracketed_behind(hashed, other, held(payload)->0);
    if first {
        assert(toks[0] == typed && toks[1] == other && toks[2] == payload);
        assert(hashed_carries(typed, other, payload));
    } else {
        assert(toks[0] == other && toks[1] == typed && toks[2] == payload);
        assert(hashed_carries(other, typed, payload));
    }
}

/// A callsign in brackets, another, and a payload, with a space between.
proof fn lemma_bracketed_in_front(hashed: Seq<char>, other: Seq<char>, payload: Seq<char>)
    requires
        other.len() > 0,
    ensures
        payload.len() > 0 ==> joined3(bracketed(hashed), other, payload) == seq!['<'] + hashed
            + seq!['>', ' '] + other + seq![' '] + payload,
        joined3(bracketed(hashed), other, seq![]) == seq!['<'] + hashed + seq!['>', ' '] + other,
{
    if payload.len() > 0 {
        assert(joined3(bracketed(hashed), other, payload) =~= seq!['<'] + hashed + seq!['>', ' ']
            + other + seq![' '] + payload);
    }
    assert(joined3(bracketed(hashed), other, seq![]) =~= seq!['<'] + hashed + seq!['>', ' ']
        + other);
}

/// A callsign, another in brackets, and a payload, with a space between.
proof fn lemma_bracketed_behind(hashed: Seq<char>, other: Seq<char>, payload: Seq<char>)
    requires
        other.len() > 0,
    ensures
        payload.len() > 0 ==> joined3(other, bracketed(hashed), payload) == other + seq![' ', '<']
            + hashed + seq!['>', ' '] + payload,
        joined3(other, bracketed(hashed), seq![]) == other + seq![' ', '<'] + hashed + seq!['>'],
{
    if payload.len() > 0 {
        assert(joined3(other, bracketed(hashed), payload) =~= other + seq![' ', '<'] + hashed
            + seq!['>', ' '] + payload);
    }
    assert(joined3(other, bracketed(hashed), seq![]) =~= other + seq![' ', '<'] + hashed + seq![
        '>',
    ]);
}

/// Three words with one callsign hashed go out so where no earlier layout carries
/// them.
proof fn lemma_hashed_goes_out(text: Seq<char>)
    ensures
        ({
            let toks = words(upper(trimmed(text)));
            let (c1, c2, payload) = (token(toks, 0), token(toks, 1), token(toks, 2));
            toks.len() == 3 && !(held28(c1) && held28(c2)) && hashed_carries(c1, c2, payload)
                ==> outgoing(text) == Some((MsgKind::Standard, hashed_sent(c1, c2, payload)))
        }),
{
}

/// A callsign typed in brackets, or one that the field cannot spell, travels as
/// its hash.
proof fn lemma_travels_hashed(hashed: Seq<char>, typed: Seq<char>)
    requires
        hashed.len() > 0 && hashed != "CQ"@,
        typed == bracketed(hashed) || typed == hashed && !standard_call(hashed) && !held28(hashed)
            && hashed[0] != '<',
    ensures
        bare_spec(typed) == hashed,
        wants_hash(typed),
        !held28(typed),
{
    if typed == bracketed(hashed) {
        assert(typed[0] == '<');
        lemma_bracket_is_not_spelled(typed);
        assert(bare_spec(typed) =~= hashed);
    }
}

/// A standard callsign that the field spells does not travel as its hash.
proof fn lemma_travels_spelled(call: Seq<char>)
    requires
        standard_call(call) && held28(call),
    ensures
        bare_spec(call) == call,
        !wants_hash(call),
        call != "CQ"@,
        call.len() > 0,
{
    lemma_no_bracket(call);
    lemma_not_cq(call);
}

/// A word that the field spells has no bracket.
proof fn lemma_no_bracket(w: Seq<char>)
    requires
        spellable(w),
    ensures
        w.len() > 0 && w[0] != '<',
        bare_spec(w) == w,
{
    if aimed_cq(w) {
        assert(w.take(3)[0] == w[0]);
    }
    assert(w[0] != '<') by {
        if w[0] == '<' {
            assert(!is_digit(w[0]) && !is_upper(w[0]));
        }
    }
}

/// A word in brackets is not spelled.
proof fn lemma_bracket_is_not_spelled(w: Seq<char>)
    requires
        w.len() > 0 && w[0] == '<',
    ensures
        !spellable(w),
{
    if spellable(w) {
        lemma_no_bracket(w);
    }
}

/// A callsign that the everyday layout has no room for is spelled out beside one
/// that goes out as a hash, in the order typed, with a bare acknowledgement and
/// with no other payload.
#[verifier::rlimit(40)]
pub proof fn law_a_compound_callsign_goes_out_spelled(
    text: Seq<char>,
    call: Seq<char>,
    other: Seq<char>,
    payload: Seq<char>,
    first: bool,
)
    requires
        words(upper(trimmed(text))) == (if first {
            seq![call, other]
        } else {
            seq![other, call]
        }) + (if payload.len() > 0 {
            seq![payload]
        } else {
            seq![]
        }),
        valid_call(call) && !standard_call(call) && !held28(call) && call != "CQ"@,
        call.len() <= 11 && in_base38(call) && call.len() > 0,
        standard_call(other),
        payload.len() == 0 || is_ack(payload) || held(payload) is None,
    ensures
        outgoing(text) == Some(
            (
                MsgKind::NonStandard,
                match (first, is_ack(payload)) {
                    (true, true) => call + seq![' ', '<'] + other + seq!['>', ' '] + payload,
                    (true, false) => call + seq![' ', '<'] + other + seq!['>'],
                    (false, true) => seq!['<'] + other + seq!['>', ' '] + call + seq![' ']
                        + payload,
                    (false, false) => seq!['<'] + other + seq!['>', ' '] + call,
                },
            ),
        ),
{
    let toks = words(upper(trimmed(text)));
    assert(toks.len() == (if payload.len() > 0 {
        3int
    } else {
        2
    }));
    assert(toks[0] == (if first {
        call
    } else {
        other
    }) && toks[1] == (if first {
        other
    } else {
        call
    }));
    assert(token(toks, 2) =~= payload);
    lemma_tokens(
        trimmed(text),
        if first {
            0
        } else {
            1
        },
    );
    lemma_tokens(
        trimmed(text),
        if first {
            1
        } else {
            0
        },
    );
    lemma_trimmed_unbroken(other);
    lemma_not_cq(other);
    lemma_compound_packs(call, other, payload);
    lemma_compound_goes_out(text);
    lemma_bracketed_behind(other, call, payload);
    lemma_bracketed_in_front(other, call, payload);
}

/// The non-standard layout packs a callsign of its alphabet beside any other, with
/// an acknowledgement or none.
proof fn lemma_compound_packs(call: Seq<char>, other: Seq<char>, payload: Seq<char>)
    requires
        is_token(call) && 0 < call.len() <= 11 && in_base38(call),
    ensures
        is_ack(payload) ==> payload.len() > 0 && pack77_type4_bits(call, other, payload, false)
            is Some,
        pack77_type4_bits(call, other, seq![], false) is Some,
{
    reveal_strlit("RRR");
    reveal_strlit("RR73");
    reveal_strlit("73");
    lemma_trimmed_unbroken(call);
    lemma_trimmed_unbroken(seq![]);
    if is_ack(payload) {
        lemma_trimmed_unbroken(payload);
    }
}

/// Two or three words go out in the non-standard layout where no earlier one
/// carries them.
proof fn lemma_compound_goes_out(text: Seq<char>)
    ensures
        ({
            let toks = words(upper(trimmed(text)));
            let (c1, c2, payload) = (token(toks, 0), token(toks, 1), token(toks, 2));
            toks.len() <= 3 && !(held28(c1) && held28(c2)) && (payload.len() == 0 || is_ack(payload)
                || held(payload) is None) && !compound_cq(toks) && compound_rung(toks) is Some
                ==> outgoing(text) == Some((MsgKind::NonStandard, compound_rung(toks)->0.sent))
        }),
{
}

/// A standard callsign is no `CQ`.
proof fn lemma_not_cq(call: Seq<char>)
    requires
        standard_call(call),
    ensures
        call != "CQ"@,
{
    reveal_strlit("CQ");
    if call == "CQ"@ {
        assert(unbroken(call));
        lemma_trimmed_unbroken(call);
        let k = choose|k: int| #[trigger]
            last_digit_at(call, k) && call.len() - k <= 4 && standard_prefix(call.take(k));
        assert(is_digit(call[k]));
    }
}

/// A CQ by a callsign that the everyday layout has no room for goes out with the
/// callsign spelled out, and without the locator.
pub proof fn law_a_compound_cq_goes_out_spelled(
    text: Seq<char>,
    call: Seq<char>,
    locator: Option<Seq<char>>,
)
    requires
        words(upper(trimmed(text))) == (match locator {
            Some(g) => seq!["CQ"@, call, g],
            None => seq!["CQ"@, call],
        }),
        call.len() <= 11 && in_base38(call),
        !standard_call(call) && !held28(call),
    ensures
        outgoing(text) == Some((MsgKind::NonStandard, seq!['C', 'Q', ' '] + call)),
{
    reveal_strlit("CQ");
    reveal_strlit("CQ ");
    let toks = words(upper(trimmed(text)));
    lemma_tokens(trimmed(text), 1);
    lemma_words(upper(trimmed(text)));
    assert(toks[0] == "CQ"@ && toks[1] == call);
    assert(call.len() > 0);
    lemma_trimmed_unbroken(call);
    lemma_trimmed_unbroken(seq![]);
    assert(!wants_hash(toks[0])) by {
        assert(bare_spec("CQ"@) == "CQ"@);
    }
    assert(!standard_call("CQ"@)) by {
        if standard_call("CQ"@) {
            lemma_not_cq("CQ"@);
        }
    }
    assert(pack77_type4_bits(call, seq![], seq![], true) is Some);
    assert(compound_cq_rung(toks)->0.sent =~= seq!['C', 'Q', ' '] + call);
}

/// Free text goes out as it was typed as far as thirteen characters of it go:
/// nothing is left out before them, and of them only whitespace at the end.
pub proof fn law_free_text_goes_out_from_its_start(text: Seq<char>)
    ensures
        ({
            let t = upper(trimmed(text));
            let sent = (outgoing(text)->0).1;
            outgoing(text) is Some && (outgoing(text)->0).0 == MsgKind::FreeText ==> {
                &&& 0 < sent.len() <= 13
                &&& sent.is_prefix_of(t)
                &&& !is_white(sent.last())
                &&& forall|i: int|
                    sent.len() <= i < t.len() && i < 13 ==> is_white(#[trigger] t[i])
                &&& t.len() <= 13 ==> sent == t
            }
        }),
{
    let t = upper(trimmed(text));
    let n: int = if t.len() < 13 {
        t.len() as int
    } else {
        13
    };
    let s = cut(t);
    lemma_trimmed(t.take(n));
    lemma_trim_end_prefix(t.take(n));
    lemma_trim_end_takes_whitespace(t.take(n));
    assert forall|i: int| s.len() <= i < t.len() && i < 13 implies is_white(#[trigger] t[i]) by {
        assert(t.take(n)[i] == t[i]);
    }
    assert(s =~= t.take(s.len() as int));
    lemma_trimmed(text);
    if t.len() > 0 {
        lemma_upper_char(trimmed(text).last());
        assert(!is_white(t.last()));
    }
    if t.len() <= 13 {
        if s.len() < t.len() {
            assert(is_white(t[t.len() - 1]));
        }
        assert(s =~= t);
    }
}

/// What `trim_end` takes off is whitespace.
proof fn lemma_trim_end_takes_whitespace(s: Seq<char>)
    ensures
        forall|i: int| trim_end(s).len() <= i < s.len() ==> is_white(#[trigger] s[i]),
    decreases s.len(),
{
    if s.len() > 0 && is_white(s.last()) {
        lemma_trim_end_takes_whitespace(s.drop_last());
        assert forall|i: int| trim_end(s).len() <= i < s.len() implies is_white(
            #[trigger] s[i],
        ) by {
            if i < s.len() - 1 {
                assert(s.drop_last()[i] == s[i]);
            }
        }
    }
}

/// A payload is held as typed where it is an acknowledgement, a locator in upper
/// case or a report in its sign and two digits; any other report goes out as the
/// same number of decibels, rogered where the typed one was.
pub proof fn law_a_payload_is_held_for_what_it_says(p: Seq<char>)
    requires
        is_token(p),
    ensures
        p.len() == 0 || p == "RRR"@ || p == "RR73"@ || p == "73"@ ==> held(p) == Some(p),
        grid4(p) ==> held(p) == Some(p),
        forall|v: int|
            -50 <= v < -35 || -31 < v <= 49 ==> held(#[trigger] report_text(v)) == Some(
                report_text(v),
            ) && held(seq!['R'] + report_text(v)) == Some(seq!['R'] + report_text(v)),
        p.len() > 0 && !is_ack(p) && !grid4(p) && held(p) is Some ==> {
            let q = held(p)->0;
            &&& q.len() > 0 && (q[0] == 'R') == (p[0] == 'R')
            &&& parsed_i32(without_first(q, 'R')) == parsed_i32(without_first(p, 'R'))
            &&& parsed_i32(without_first(p, 'R')) is Some
        },
{
    reveal_strlit("RRR");
    reveal_strlit("RR73");
    reveal_strlit("73");
    if grid4(p) && p != "RR73"@ {
        assert(upper(p) == p);
    }
    assert forall|v: int| -50 <= v < -35 || -31 < v <= 49 implies held(#[trigger] report_text(v))
        == Some(report_text(v)) && held(seq!['R'] + report_text(v)) == Some(
        seq!['R'] + report_text(v),
    ) by {
        lemma_report_parses(v);
        let t = report_text(v);
        let r = seq!['R'] + t;
        assert(r.skip(1) =~= t);
        assert(t[0] == '-' || t[0] == '+');
        assert(r[1] == t[0]);
        assert(!is_upper(r[1]));
        assert(r.len() == 4);
    }
    if p.len() > 0 && !is_ack(p) && !grid4(p) && held(p) is Some {
        let v = parsed_i32(without_first(p, 'R'))->0;
        lemma_report_parses(v);
        let t = report_text(v);
        assert((seq!['R'] + t).skip(1) =~= t);
    }
}

/// What comes back of packing is the message asked for: its bits and its text, and
/// nothing where there is none.
pub proof fn law_what_is_made_is_what_was_asked_for(
    r: Option<([u8; 77], String)>,
    p: Option<Packed>,
)
    requires
        made(r, p),
    ensures
        r is Some <==> p is Some,
        r is Some ==> (r->0).0@ == p->0.bits && (r->0).1@ == p->0.sent && arrives(p->0),
{
}

/// A message goes out the same in either case and with whitespace around it or
/// not.
pub proof fn law_case_and_whitespace_around_do_not_matter(text: Seq<char>, other: Seq<char>)
    requires
        upper(trimmed(text)) == upper(trimmed(other)),
    ensures
        outgoing(text) == outgoing(other),
        packed(text) == packed(other),
{
}

/// A CQ directed at a number from 0 to 999 goes out directed at that number, in
/// three digits.
pub proof fn law_a_cq_directed_at_a_number_goes_out_in_three_digits(
    text: Seq<char>,
    number: Seq<char>,
    n: nat,
    call: Seq<char>,
    payload: Seq<char>,
)
    requires
        words(upper(trimmed(text))) == seq!["CQ"@, number, call, payload],
        parsed_i32(number) == Some(n as int) && number[0] != '-' && n <= 999,
        held28(call),
        held(payload) == Some(payload),
    ensures
        exists|digits: Seq<char>|
            digits.len() == 3 && #[trigger] all_digits(digits) && digits_value(digits) == n
                && outgoing(text) == Some(
                (
                    MsgKind::Standard,
                    joined3(seq!['C', 'Q', ' '] + digits, call, payload),
                ),
            ),
{
    reveal_strlit("CQ");
    reveal_strlit("CQ ");
    let toks = words(upper(trimmed(text)));
    let digits = padded(n, 3);
    law_padding_keeps_the_number(n, 3);
    lemma_padded(n);
    assert(digits.len() == 3);
    assert(toks[0] == "CQ"@ && toks[1] == number && toks[2] == call && toks[3] == payload);
    assert(held_direction(number) == digits);
    let w = directed_word(toks);
    assert(w =~= seq!['C', 'Q', ' '] + digits);
    assert(aimed_cq(w)) by {
        assert(w.take(3) =~= seq!['C', 'Q', ' ']);
        assert forall|i: int| 3 <= i < w.len() implies is_digit(#[trigger] w[i]) by {
            assert(w[i] == digits[i - 3]);
        }
    }
    assert(contest_rung(toks) is None) by {
        assert(!opens_bracket(toks[0]));
    }
    assert(directed_carries(toks));
}

/// The bare acknowledgements are `RRR`, `RR73` and `73`, and no other payload is
/// one.
pub proof fn law_the_bare_acknowledgements(p: Seq<char>)
    ensures
        is_ack(p) <==> p == seq!['R', 'R', 'R'] || p == seq!['R', 'R', '7', '3'] || p == seq![
            '7',
            '3',
        ],
{
    reveal_strlit("RRR");
    reveal_strlit("RR73");
    reveal_strlit("73");
    assert("RRR"@ =~= seq!['R', 'R', 'R']);
    assert("RR73"@ =~= seq!['R', 'R', '7', '3']);
    assert("73"@ =~= seq!['7', '3']);
}

/// A CQ may be aimed at one to four letters or at three digits, whichever they
/// are, or at nobody; the 28-bit field holds each.
pub proof fn law_a_cq_may_be_aimed_at_letters_or_digits(m: Seq<char>)
    ensures
        1 <= m.len() <= 4 && (forall|i: int| 0 <= i < m.len() ==> 'A' <= #[trigger] m[i] <= 'Z')
            ==> held28(seq!['C', 'Q', ' '] + m),
        m.len() == 3 && (forall|i: int| 0 <= i < m.len() ==> '0' <= #[trigger] m[i] <= '9')
            ==> held28(seq!['C', 'Q', ' '] + m),
        held28(seq!['C', 'Q']),
        held28(seq!['D', 'E']),
        held28(seq!['Q', 'R', 'Z']),
{
    reveal_strlit("CQ");
    reveal_strlit("DE");
    reveal_strlit("QRZ");
    assert("CQ"@ =~= seq!['C', 'Q']);
    assert("DE"@ =~= seq!['D', 'E']);
    assert("QRZ"@ =~= seq!['Q', 'R', 'Z']);
    let w = seq!['C', 'Q', ' '] + m;
    assert(w.take(3) =~= seq!['C', 'Q', ' ']);
    assert forall|i: int| 3 <= i < w.len() implies #[trigger] w[i] == m[i - 3] by {}
}

/// What the field holds of a payload is not nothing.
proof fn lemma_held_is_something(p: Seq<char>)
    requires
        p.len() > 0,
        held(p) is Some,
    ensures
        held(p)->0.len() > 0,
{
    if !is_ack(p) && grid4(p) {
        assert(upper(p).len() == p.len());
    }
}

/// An everyday message goes out in the standard layout, its two words as typed and
/// its payload as the field holds it, directed or not.
pub proof fn law_an_everyday_message_goes_out_with_its_payload_as_held(
    text: Seq<char>,
    a: Seq<char>,
    b: Seq<char>,
    payload: Seq<char>,
)
    requires
        held28(b),
        held(payload) is Some,
    ensures
        held28(a) && words(upper(trimmed(text))) == seq![a, b] + (if payload.len() > 0 {
            seq![payload]
        } else {
            seq![]
        }) ==> outgoing(text) == Some((MsgKind::Standard, joined3(a, b, held(payload)->0))),
        1 <= a.len() <= 4 && (forall|i: int| 0 <= i < a.len() ==> 'A' <= #[trigger] a[i] <= 'Z')
            && words(upper(trimmed(text))) == seq!["CQ"@, a, b, payload] ==> outgoing(text) == Some(
            (MsgKind::Standard, joined3(seq!['C', 'Q', ' '] + a, b, held(payload)->0)),
        ),
{
    reveal_strlit("CQ");
    reveal_strlit("CQ ");
    let toks = words(upper(trimmed(text)));
    if held28(a) && toks == seq![a, b] + (if payload.len() > 0 {
        seq![payload]
    } else {
        seq![]
    }) {
        assert(toks.len() <= 3 && toks[0] == a && toks[1] == b);
        assert(token(toks, 2) =~= payload);
    }
    if 1 <= a.len() <= 4 && (forall|i: int| 0 <= i < a.len() ==> 'A' <= #[trigger] a[i] <= 'Z')
        && toks == seq!["CQ"@, a, b, payload] {
        law_a_cq_may_be_aimed_at_letters_or_digits(a);
        assert(toks[0] == "CQ"@ && toks[1] == a && toks[2] == b && toks[3] == payload);
        assert(!is_digit(a[0]));
        assert(held_direction(a) == a);
        assert(directed_word(toks) =~= seq!['C', 'Q', ' '] + a);
        assert(contest_rung(toks) is None) by {
            assert(!opens_bracket(toks[0]));
        }
        assert(directed_carries(toks));
    }
}

/// A message goes out in a layout only where it is written as that layout's: five
/// words with `RR73;` second, two callsigns and a number for a DXpedition's; two
/// words in brackets, an exchange and a six-character locator for a contest's; and
/// for the non-standard one a CQ by a callsign that is not standard, or one such
/// callsign, a valid one, beside one that is standard.
#[verifier::rlimit(40)]
pub proof fn law_each_layout_carries_its_own_messages(text: Seq<char>)
    requires
        outgoing(text) is Some,
    ensures
        ({
            let kind = (outgoing(text)->0).0;
            let toks = words(upper(trimmed(text)));
            let n = toks.len() as int;
            &&& kind == MsgKind::Fox ==> {
                &&& n == 5 && toks[1] == "RR73;"@
                &&& standard_call(toks[0]) && held28(toks[0])
                &&& standard_call(toks[2]) && held28(toks[2])
                &&& parsed_i32(without_plus(toks[4])) is Some
            }
            &&& kind == MsgKind::EuVhf ==> {
                &&& n == 4 || n == 5
                &&& n == 5 <==> toks[2] == "R"@
                &&& toks[0].len() > 0 && toks[0][0] == '<'
                &&& toks[1].len() > 0 && toks[1][0] == '<'
                &&& parsed_exchange(toks[n - 2]) is Some
                &&& grid6(toks[n - 1])
            }
            &&& kind == MsgKind::NonStandard ==> {
                &&& n >= 2
                &&& toks[0] == "CQ"@ && !standard_call(toks[1]) || !standard_call(toks[0])
                    && valid_call(toks[0]) && standard_call(toks[1]) || standard_call(toks[0])
                    && valid_call(toks[1]) && !standard_call(toks[1])
            }
            &&& kind == MsgKind::Fox || kind == MsgKind::EuVhf || kind == MsgKind::Standard || kind
                == MsgKind::NonStandard || kind == MsgKind::FreeText
        }),
{
    let toks = words(upper(trimmed(text)));
    lemma_no_callsign_is_empty();
    if toks.len() == 0 {
        assert(token(toks, 0).len() == 0);
    }
}

/// Nothing is no callsign.
proof fn lemma_no_callsign_is_empty()
    ensures
        !standard_call(seq![]),
        !valid_call(seq![]),
{
    lemma_trimmed_unbroken(seq![]);
}

/// A message goes out in the everyday layout only where that holds it: two words
/// that the 28-bit field holds, or a directed CQ and one such word, or one valid
/// callsign that goes out as its hash beside a standard one that the field holds;
/// with a payload that its field holds, and beside a hash never a bare
/// acknowledgement.
#[verifier::rlimit(40)]
pub proof fn law_the_everyday_layout_carries_what_it_holds(text: Seq<char>)
    requires
        outgoing(text) is Some,
        (outgoing(text)->0).0 == MsgKind::Standard,
    ensures
        ({
            let toks = words(upper(trimmed(text)));
            let (a, b, p) = (token(toks, 0), token(toks, 1), token(toks, 2));
            ||| toks.len() == 4 && a == "CQ"@ && held28("CQ "@ + held_direction(b)) && held28(p)
                && held(toks[3]) is Some
            ||| toks.len() <= 3 && held28(a) && held28(b) && held(p) is Some
            ||| p.len() > 0 && !is_ack(p) && held(p) is Some && valid_call(bare_spec(a))
                && standard_call(bare_spec(b)) && held28(bare_spec(b))
            ||| p.len() > 0 && !is_ack(p) && held(p) is Some && valid_call(bare_spec(b))
                && standard_call(bare_spec(a)) && held28(bare_spec(a))
        }),
{
}

} // verus!
