//! What the library relies on of `mfsk-core`: the 77-bit packers and readers,
//! the callsign hash, and the table that resolves hashed callsigns.
//!
//! Every contract in this file is taken on trust.
use vstd::prelude::*;
use vstd::arithmetic::power2::pow2;
use vstd::utf8::encode_utf8;
use mfsk_core::msg::hash_table::CallsignHashTable;
use mfsk_core::msg::ApHint;
use crate::bits::{blank, field, written};
use crate::text::{
    is_digit, is_letter, is_upper, opt_view, padded, parsed_i32, trimmed, upper, upper_char,
};

verus! {

/// `mfsk-core`'s table of the callsigns heard.
#[verifier::external_type_specification]
#[verifier::external_body]
pub struct ExCallsignHashTable(CallsignHashTable);

/// `mfsk-core`'s a-priori hint: what is already known of a message.
#[verifier::external_type_specification]
pub struct ExApHint(ApHint);

/// The callsigns a table resolves its ten- and twelve-bit hashes to, by width
/// and hash.
pub uninterp spec fn table_heard(t: CallsignHashTable) -> Map<(nat, nat), Seq<char>>;

/// The callsigns a table resolves its 22-bit hashes to, each after its hash,
/// the most recent first.
pub uninterp spec fn table_recent(t: CallsignHashTable) -> Seq<(nat, Seq<char>)>;

// ── The callsign hash ───────────────────────────────────────────────────────

/// The digit a byte stands for in base 38: space, `0` to `9`, `A` to `Z`, `/`.
/// Any other byte counts as a space.
pub open spec fn base38_digit(b: u8) -> nat {
    if 48 <= b <= 57 {
        (b - 47) as nat
    } else if 65 <= b <= 90 {
        (b - 54) as nat
    } else if b == 47 {
        37
    } else {
        0
    }
}

/// The base-38 number of the first `n` bytes, filled up with spaces.
pub open spec fn base38(bytes: Seq<u8>, n: nat) -> nat
    decreases n,
{
    if n == 0 {
        0
    } else {
        base38(bytes, (n - 1) as nat) * 38 + (if n - 1 < bytes.len() {
            base38_digit(bytes[n - 1])
        } else {
            0
        })
    }
}

/// The `bits`-wide hash of a callsign: its first eleven characters, as a
/// base-38 number, times a fixed multiplier, of which the top bits of 64 are
/// kept.
pub open spec fn callsign_hash(call: Seq<char>, bits: nat) -> nat {
    let n = base38(encode_utf8(upper(call)), 11);
    ((n * 47_055_833_459) % pow2(64)) / pow2((64 - bits) as nat) % pow2(32)
}

/// `mfsk_core::msg::hash_table::ihashcall`: the hash of a callsign at a given
/// width. It shifts by 64 less the width, so a width of zero or past 64 is
/// left out.
pub assume_specification[ mfsk_core::msg::hash_table::ihashcall ](call: &str, m: u32) -> (r: u32)
    requires
        1 <= m <= 64,
    ensures
        r == callsign_hash(call@, m as nat),
;

// ── The table of callsigns heard ────────────────────────────────────────────

/// `s` without a `c` at its start.
pub open spec fn without_first(s: Seq<char>, c: char) -> Seq<char> {
    if s.len() > 0 && s[0] == c {
        s.skip(1)
    } else {
        s
    }
}

/// `s` without a `c` at its end.
pub open spec fn without_last(s: Seq<char>, c: char) -> Seq<char> {
    if s.len() > 0 && s.last() == c {
        s.drop_last()
    } else {
        s
    }
}

/// Whether `s` ends in `/R` or `/P`.
pub open spec fn ends_in_r_or_p(s: Seq<char>) -> bool {
    s.len() >= 2 && s[s.len() - 2] == '/' && (s.last() == 'R' || s.last() == 'P')
}

/// A callsign without the `/R` or `/P` it may end in.
pub open spec fn base_call(s: Seq<char>) -> Seq<char> {
    if ends_in_r_or_p(s) {
        s.take(s.len() - 2)
    } else {
        s
    }
}

/// What a table keeps of a callsign: trimmed, without brackets, and without a
/// `/R` or `/P`.
pub open spec fn table_call(call: Seq<char>) -> Seq<char> {
    base_call(without_last(without_first(trimmed(call), '<'), '>'))
}

/// What a table does not keep: less than two bytes, the unresolved
/// placeholder, and whatever starts with `CQ`.
pub open spec fn table_ignores(base: Seq<char>) -> bool {
    ||| encode_utf8(base).len() < 2
    ||| base == seq!['.', '.', '.']
    ||| base.len() >= 2 && base[0] == 'C' && base[1] == 'Q'
}

/// Where the 22-bit hash `h` first stands in `recent`, or its length.
pub open spec fn position22(recent: Seq<(nat, Seq<char>)>, h: nat) -> nat
    decreases recent.len(),
{
    if recent.len() == 0 || recent[0].0 == h {
        0
    } else {
        1 + position22(recent.skip(1), h)
    }
}

/// `recent` after `base` was heard: a hash already there moves to the front as
/// it is, a new one is put in front, and a thousand are kept.
pub open spec fn recent_after(recent: Seq<(nat, Seq<char>)>, base: Seq<char>) -> Seq<
    (nat, Seq<char>),
> {
    let h = callsign_hash(base, 22);
    let pos = position22(recent, h) as int;
    if pos < recent.len() {
        seq![recent[pos]] + recent.remove(pos)
    } else {
        (seq![(h, base)] + recent).take(
            if recent.len() < 1000 {
                recent.len() as int + 1
            } else {
                1000
            },
        )
    }
}

/// `heard` after `base` was heard.
pub open spec fn heard_after(heard: Map<(nat, nat), Seq<char>>, base: Seq<char>) -> Map<
    (nat, nat),
    Seq<char>,
> {
    heard.insert((10, callsign_hash(base, 10)), base).insert((12, callsign_hash(base, 12)), base)
}

/// No callsign under any hash.
pub open spec fn nobody() -> Map<(nat, nat), Seq<char>> {
    Map::empty()
}

/// `CallsignHashTable::new`: a table that has heard nobody.
pub assume_specification[ CallsignHashTable::new ]() -> (t: CallsignHashTable)
    ensures
        table_heard(t) == nobody(),
        table_recent(t).len() == 0,
;

/// `CallsignHashTable::insert`: remembers a callsign under its three hashes,
/// or leaves the table alone where the text is no callsign.
pub assume_specification[ CallsignHashTable::insert ](t: &mut CallsignHashTable, call: &str)
    ensures
        table_heard(*final(t)) == (if table_ignores(table_call(call@)) {
            table_heard(*old(t))
        } else {
            heard_after(table_heard(*old(t)), table_call(call@))
        }),
        table_recent(*final(t)) == (if table_ignores(table_call(call@)) {
            table_recent(*old(t))
        } else {
            recent_after(table_recent(*old(t)), table_call(call@))
        }),
;

// ── Callsigns ───────────────────────────────────────────────────────────────

/// Whether `part` may stand before the last digit of a standard callsign.
pub open spec fn standard_prefix(part: Seq<char>) -> bool {
    ||| part.len() == 0
    ||| part.len() == 1 && (is_upper(part[0]) || is_digit(part[0]))
    ||| part.len() == 2 && is_upper(part[0]) && (is_upper(part[1]) || is_digit(part[1]))
    ||| part.len() == 2 && is_digit(part[0]) && is_upper(part[1])
}

/// Whether position `k` of `s` holds a digit that only upper-case letters
/// follow.
pub open spec fn last_digit_at(s: Seq<char>, k: int) -> bool {
    &&& 0 <= k < s.len()
    &&& is_digit(s[k])
    &&& forall|i: int| k < i < s.len() ==> is_upper(#[trigger] s[i])
}

/// A standard callsign: a prefix, a digit and up to three letters, six
/// characters at the most, then perhaps `/R` or `/P`.
pub open spec fn standard_call(call: Seq<char>) -> bool {
    let b = base_call(trimmed(call));
    &&& 1 <= b.len() <= 6
    &&& exists|k: int| #[trigger]
        last_digit_at(b, k) && b.len() - k <= 4 && standard_prefix(b.take(k))
}

/// `wsjt77::is_standard_callsign`: whether the 28-bit field can spell the
/// callsign out.
pub assume_specification[ mfsk_core::msg::wsjt77::is_standard_callsign ](call: &str) -> (r: bool)
    ensures
        r == standard_call(call@),
;

/// An ASCII letter or digit.
pub open spec fn is_alnum(c: char) -> bool {
    is_letter(c) || is_digit(c)
}

/// A callsign without modifiers: a prefix of one to three letters and digits
/// with a letter among them, a digit, and one to four upper-case letters.
pub open spec fn unmodified_call(s: Seq<char>) -> bool {
    &&& 2 <= s.len() <= 7
    &&& exists|k: int| #[trigger]
        last_digit_at(s, k) && 1 <= k <= 3 && 1 <= s.len() - k - 1 <= 4 && (forall|i: int|
            0 <= i < k ==> is_alnum(#[trigger] s[i])) && (exists|i: int|
            0 <= i < k && is_letter(#[trigger] s[i]))
}

/// A modifier beside a callsign: one to three letters and digits.
pub open spec fn call_modifier(s: Seq<char>) -> bool {
    1 <= s.len() <= 3 && forall|i: int| 0 <= i < s.len() ==> is_alnum(#[trigger] s[i])
}

/// A callsign that can be sent at all: a standard one, one without modifiers,
/// or two parts around a single `/` of which one is a callsign and the other
/// a callsign or a modifier.
pub open spec fn valid_call(call: Seq<char>) -> bool {
    ||| standard_call(call)
    ||| !call.contains('/') && unmodified_call(call)
    ||| exists|i: int|
        0 <= i < call.len() && #[trigger] call[i] == '/' && !call.take(i).contains('/')
            && !call.skip(i + 1).contains('/') && two_part_call(call.take(i), call.skip(i + 1))
}

/// Whether `a/b` is a callsign with a modifier, or two callsigns.
pub open spec fn two_part_call(a: Seq<char>, b: Seq<char>) -> bool {
    ||| unmodified_call(a) && call_modifier(b)
    ||| call_modifier(a) && unmodified_call(b)
    ||| unmodified_call(a) && unmodified_call(b)
}

/// `wsjt77::is_valid_callsign`: whether the text is a callsign, standard or
/// compound.
pub assume_specification[ mfsk_core::msg::wsjt77::is_valid_callsign ](call: &str) -> (r: bool)
    ensures
        r == valid_call(call@),
;

/// Where the 28-bit field stops holding fixed words and starts holding 22-bit
/// hashes; spelled-out callsigns lie above those.
pub const NTOKENS: u32 = 2_063_592;

/// A `CQ` aimed at one to four letters or at three digits.
pub open spec fn aimed_cq(w: Seq<char>) -> bool {
    ||| 4 <= w.len() <= 7 && w.take(3) == seq!['C', 'Q', ' '] && forall|i: int|
        3 <= i < w.len() ==> is_upper(#[trigger] w[i])
    ||| w.len() == 6 && w.take(3) == seq!['C', 'Q', ' '] && forall|i: int|
        3 <= i < w.len() ==> is_digit(#[trigger] w[i])
}

/// A word that the 28-bit field gives back as it was written: upper-case
/// letters and digits, six of them only where the third is a digit, or a `CQ`
/// aimed at one to four letters or at three digits.
pub open spec fn spellable(w: Seq<char>) -> bool {
    ||| w.len() > 0 && (w.len() == 6 ==> is_digit(w[2])) && forall|i: int|
        0 <= i < w.len() ==> is_digit(#[trigger] w[i]) || is_upper(w[i])
    ||| aimed_cq(w)
}

/// A word that the 28-bit field holds and gives back: `DE`, `QRZ` and `CQ`, a
/// `CQ` aimed at one to four letters or at three digits, and one or two letters
/// or digits, then a digit, then up to three letters. Every standard callsign
/// that does not start with its last digit and has no `/R` or `/P` is one of
/// these.
pub open spec fn held28(w: Seq<char>) -> bool {
    &&& spellable(w)
    &&& {
        ||| w == "DE"@
        ||| w == "QRZ"@
        ||| w == "CQ"@
        ||| aimed_cq(w)
        ||| exists|k: int| 1 <= k <= 2 && #[trigger] last_digit_at(w, k) && w.len() - k <= 4
    }
}

/// Whether the number of a 28-bit field stands for a 22-bit hash.
pub open spec fn is_hashed(n: nat) -> bool {
    NTOKENS <= n < NTOKENS + pow2(22)
}

/// What `wsjt77::pack28` makes of a word: the number of its 28-bit field, if
/// the field can hold it.
pub uninterp spec fn pack28_value(call: Seq<char>) -> Option<u32>;

/// `wsjt77::pack28`: the 28-bit field of a callsign or a fixed word. Of the words
/// that can be spelled, those that the field holds have one and the others have
/// none; it fits the 28 bits, and never lands among the hashes.
pub assume_specification[ mfsk_core::msg::wsjt77::pack28 ](call: &str) -> (r: Option<u32>)
    ensures
        r == pack28_value(call@),
        spellable(call@) ==> r is Some == held28(call@),
        r is Some && spellable(call@) ==> r->0 < pow2(28) && !is_hashed(r->0 as nat),
;

// ── The packers ─────────────────────────────────────────────────────────────

/// The view of a packed message that may be missing.
pub open spec fn bits_view(o: Option<[u8; 77]>) -> Option<Seq<u8>> {
    match o {
        Some(m) => Some(m@),
        None => None,
    }
}

/// A four-character locator, in letters of either case.
pub open spec fn grid4(s: Seq<char>) -> bool {
    &&& s.len() == 4
    &&& 'A' <= upper_char(s[0]) <= 'R'
    &&& 'A' <= upper_char(s[1]) <= 'R'
    &&& is_digit(s[2])
    &&& is_digit(s[3])
}

/// The number of a four-character locator.
pub open spec fn grid4_value(s: Seq<char>) -> nat {
    ((((upper_char(s[0]) as u8 - 65) * 18 + (upper_char(s[1]) as u8 - 65)) * 10 + (s[2] as u8
        - 48)) * 10 + (s[3] as u8 - 48)) as nat
}

/// What the everyday layout holds of a payload: the 15-bit field, and the bit
/// that says it is rogered.
pub open spec fn payload_field(report: Seq<char>) -> Option<(nat, nat)> {
    let p = trimmed(report);
    if p.len() == 0 {
        Some((32_401, 0))
    } else if p == "RRR"@ {
        Some((32_402, 0))
    } else if p == "RR73"@ {
        Some((32_403, 0))
    } else if p == "73"@ {
        Some((32_404, 0))
    } else if grid4(p) {
        Some((grid4_value(p), 0))
    } else {
        match parsed_i32(without_first(p, 'R')) {
            Some(v) => if -50 <= v <= 49 {
                Some(
                    (
                        (32_400 + (if v < -35 {
                            v + 136
                        } else {
                            v + 35
                        })) as nat,
                        if p[0] == 'R' {
                            1
                        } else {
                            0
                        },
                    ),
                )
            } else {
                None
            },
            None => None,
        }
    }
}

/// The everyday layout: two 28-bit words, the rogered bit and the payload.
pub open spec fn standard_bits(a: nat, b: nat, g: nat, ir: nat) -> Seq<u8> {
    written(
        written(
            written(written(written(blank(), 0, 28, a), 29, 28, b), 58, 1, ir),
            59,
            15,
            g,
        ),
        74,
        3,
        1,
    )
}

/// What `wsjt77::pack77` makes of two words and a payload.
pub open spec fn pack77_bits(c1: Seq<char>, c2: Seq<char>, report: Seq<char>) -> Option<Seq<u8>> {
    match (pack28_value(c1), pack28_value(c2), payload_field(report)) {
        (Some(a), Some(b), Some((g, ir))) => Some(standard_bits(a as nat, b as nat, g, ir)),
        _ => None,
    }
}

/// `wsjt77::pack77`: the everyday message, if both words fit a 28-bit field
/// and the payload is one the layout carries. It takes the words' fields from
/// `wsjt77::pack28`, so of the words that can be spelled it packs those that the
/// field holds, and never lands one among the hashes.
pub assume_specification[ mfsk_core::msg::wsjt77::pack77 ](
    call1: &str,
    call2: &str,
    report: &str,
) -> (r: Option<[u8; 77]>)
    ensures
        bits_view(r) == pack77_bits(call1@, call2@, report@),
        spellable(call1@) && spellable(call2@) ==> r is Some == (held28(call1@) && held28(call2@)
            && payload_field(report@) is Some),
        r is Some && spellable(call1@) ==> !is_hashed(field(r->0@, 0, 28)),
        r is Some && spellable(call2@) ==> !is_hashed(field(r->0@, 29, 28)),
;

/// Whether `s` is made of the non-standard layout's alphabet.
pub open spec fn in_base38(s: Seq<char>) -> bool {
    forall|i: int|
        0 <= i < s.len() ==> ({
            let c = #[trigger] s[i];
            c == ' ' || c == '/' || is_digit(c) || is_upper(c)
        })
}

/// The base-38 number of a word in the non-standard layout's alphabet.
pub open spec fn base38_number(s: Seq<char>) -> nat
    decreases s.len(),
{
    if s.len() == 0 {
        0
    } else {
        base38_number(s.drop_last()) * 38 + base38_digit(s.last() as u8)
    }
}

/// The two-bit field of the acknowledgements.
pub open spec fn ack_field(report: Seq<char>) -> Option<nat> {
    if report.len() == 0 {
        Some(0)
    } else if report == "RRR"@ {
        Some(1)
    } else if report == "RR73"@ {
        Some(2)
    } else if report == "73"@ {
        Some(3)
    } else {
        None
    }
}

/// What `wsjt77::pack77_type4` makes of a call spelled out and one hashed.
pub open spec fn pack77_type4_bits(
    nonstd: Seq<char>,
    std_call: Seq<char>,
    report: Seq<char>,
    is_cq: bool,
) -> Option<Seq<u8>> {
    let ns = upper(trimmed(nonstd));
    match ack_field(trimmed(report)) {
        Some(ack) => if 1 <= ns.len() <= 11 && in_base38(ns) {
            Some(
                nonstandard_bits(
                    if is_cq {
                        0
                    } else {
                        callsign_hash(std_call, 12)
                    },
                    base38_number(ns),
                    if is_cq || pack28_value(std_call) is Some {
                        0
                    } else {
                        1
                    },
                    ack,
                    if is_cq {
                        1
                    } else {
                        0
                    },
                ),
            )
        } else {
            None
        },
        None => None,
    }
}

/// The non-standard layout: a twelve-bit hash, a callsign spelled out, which of
/// the two comes first, the acknowledgement, and whether it is a CQ.
pub open spec fn nonstandard_bits(hash: nat, call: nat, flip: nat, ack: nat, cq: nat) -> Seq<u8> {
    written(
        written(
            written(
                written(written(written(blank(), 0, 12, hash), 12, 58, call), 70, 1, flip),
                71,
                2,
                ack,
            ),
            73,
            1,
            cq,
        ),
        74,
        3,
        4,
    )
}

/// `wsjt77::pack77_type4`: one callsign spelled out beside a hashed one, or a
/// CQ by a non-standard callsign.
pub assume_specification[ mfsk_core::msg::wsjt77::pack77_type4 ](
    nonstd: &str,
    std_call: &str,
    report: &str,
    is_cq: bool,
) -> (r: Option<[u8; 77]>)
    ensures
        bits_view(r) == pack77_type4_bits(nonstd@, std_call@, report@, is_cq),
;

/// The digit of a character in the free-text alphabet: space, `0` to `9`, `A`
/// to `Z`, then `+ - . / ?`.
pub open spec fn base42_digit(c: char) -> Option<nat> {
    if c == ' ' {
        Some(0)
    } else if is_digit(c) {
        Some((c as u8 - 47) as nat)
    } else if is_upper(c) {
        Some((c as u8 - 54) as nat)
    } else if c == '+' {
        Some(37)
    } else if c == '-' {
        Some(38)
    } else if c == '.' {
        Some(39)
    } else if c == '/' {
        Some(40)
    } else if c == '?' {
        Some(41)
    } else {
        None
    }
}

/// Whether `s` is made of the free-text alphabet.
pub open spec fn in_base42(s: Seq<char>) -> bool {
    forall|i: int| 0 <= i < s.len() ==> base42_digit(#[trigger] s[i]) is Some
}

/// The base-42 number of the first `n` characters, filled up with spaces.
pub open spec fn base42(s: Seq<char>, n: nat) -> nat
    decreases n,
{
    if n == 0 {
        0
    } else {
        base42(s, (n - 1) as nat) * 42 + (if n - 1 < s.len() {
            base42_digit(s[n - 1])->0
        } else {
            0
        })
    }
}

/// What `wsjt77::pack77_free_text` makes of a text.
pub open spec fn free_text_bits(text: Seq<char>) -> Option<Seq<u8>> {
    let t = upper(text);
    if 1 <= t.len() <= 13 && in_base42(t) {
        Some(written(blank(), 0, 71, base42(t, 13)))
    } else {
        None
    }
}

/// `wsjt77::pack77_free_text`: up to thirteen characters of the free-text
/// alphabet.
pub assume_specification[ mfsk_core::msg::wsjt77::pack77_free_text ](text: &str) -> (r: Option<
    [u8; 77],
>)
    ensures
        bits_view(r) == free_text_bits(text@),
;

// ── The reader ──────────────────────────────────────────────────────────────

/// What `wsjt77::unpack77_with_hash` reads from 77 bits, given the callsigns
/// its table has heard.
pub uninterp spec fn unpack77_text(
    bits: Seq<u8>,
    heard: Map<(nat, nat), Seq<char>>,
    recent: Seq<(nat, Seq<char>)>,
) -> Option<Seq<char>>;

/// A callsign between angle brackets.
pub open spec fn bracketed(call: Seq<char>) -> Seq<char> {
    seq!['<'] + call + seq!['>']
}

/// A hash nobody has spelled out.
pub open spec fn placeholder() -> Seq<char> {
    seq!['<', '.', '.', '.', '>']
}

/// How a ten- or twelve-bit hash reads.
pub open spec fn resolved(heard: Map<(nat, nat), Seq<char>>, width: nat, h: nat) -> Seq<char> {
    if heard.contains_key((width, h)) {
        bracketed(heard[(width, h)])
    } else {
        placeholder()
    }
}

/// How a 22-bit hash reads.
pub open spec fn resolved22(recent: Seq<(nat, Seq<char>)>, h: nat) -> Seq<char> {
    let pos = position22(recent, h) as int;
    if pos < recent.len() {
        bracketed(recent[pos].1)
    } else {
        placeholder()
    }
}

/// Whether the 28-bit field `n` reads as the word `w`.
pub open spec fn reads28(n: nat, recent: Seq<(nat, Seq<char>)>, w: Seq<char>) -> bool {
    if is_hashed(n) {
        w == resolved22(recent, (n - NTOKENS) as nat)
    } else {
        spellable(w) && pack28_value(w) is Some && pack28_value(w)->0 as nat % pow2(28) == n
    }
}

/// A signal report: its sign, then two digits.
pub open spec fn report_text(v: int) -> Seq<char> {
    if v < 0 {
        seq!['-'] + padded((-v) as nat, 2)
    } else {
        seq!['+'] + padded(v as nat, 2)
    }
}

/// A payload that the everyday layout gives back as it was written: none, an
/// acknowledgement, a locator in upper case, or a report from -50 to 49 dB in
/// two digits, rogered or not. Reports of -35 to -31 dB share their numbers
/// with the acknowledgements and are not among them.
pub open spec fn payload_kept(p: Seq<char>) -> bool {
    ||| p.len() == 0
    ||| p == "RRR"@
    ||| p == "RR73"@
    ||| p == "73"@
    ||| grid4(p) && is_upper(p[0]) && is_upper(p[1])
    ||| exists|v: int|
        (-50 <= v < -35 || -31 < v <= 49) && (p == #[trigger] report_text(v) || p == seq!['R']
            + report_text(v))
}

/// Up to three words with a space between, the empty ones left out.
pub open spec fn joined3(a: Seq<char>, b: Seq<char>, c: Seq<char>) -> Seq<char> {
    joined2(joined2(a, b), c)
}

/// Two words with a space between, or the one that is not empty.
pub open spec fn joined2(a: Seq<char>, b: Seq<char>) -> Seq<char> {
    if a.len() == 0 {
        b
    } else if b.len() == 0 {
        a
    } else {
        a + seq![' '] + b
    }
}

/// What the two-bit acknowledgement field reads as.
pub open spec fn ack_text(n: nat) -> Seq<char> {
    if n == 0 {
        seq![]
    } else if n == 1 {
        "RRR"@
    } else if n == 2 {
        "RR73"@
    } else {
        "73"@
    }
}

/// An everyday message without suffix bits reads as its two words and its
/// payload.
pub open spec fn reads_standard(
    bits: Seq<u8>,
    recent: Seq<(nat, Seq<char>)>,
    r: Option<Seq<char>>,
) -> bool {
    (field(bits, 74, 3) == 1 && field(bits, 28, 1) == 0 && field(bits, 57, 1) == 0) ==> forall|
        a: Seq<char>,
        b: Seq<char>,
        p: Seq<char>,
    |
        #![trigger reads28(field(bits, 0, 28), recent, a), reads28(field(bits, 29, 28), recent, b), payload_kept(p)]
        reads28(field(bits, 0, 28), recent, a) && reads28(field(bits, 29, 28), recent, b)
            && payload_kept(p) && payload_field(p) == Some((field(bits, 59, 15), field(bits, 58, 1)))
            ==> r == Some(joined3(a, b, p))
}

/// A free text reads as what was written, where that neither starts nor ends
/// in a space.
pub open spec fn reads_free_text(bits: Seq<u8>, r: Option<Seq<char>>) -> bool {
    (field(bits, 74, 3) == 0 && field(bits, 71, 3) == 0) ==> forall|t: Seq<char>|
        #![trigger base42(t, 13)]
        1 <= t.len() <= 13 && in_base42(t) && t[0] != ' ' && t.last() != ' ' && field(bits, 0, 71)
            == base42(t, 13) ==> r == Some(t)
}

/// A DXpedition message reads as its two words, the caller's ten-bit hash and
/// the report.
pub open spec fn reads_fox(
    bits: Seq<u8>,
    heard: Map<(nat, nat), Seq<char>>,
    recent: Seq<(nat, Seq<char>)>,
    r: Option<Seq<char>>,
) -> bool {
    (field(bits, 74, 3) == 0 && field(bits, 71, 3) == 1) ==> forall|a: Seq<char>, b: Seq<char>|
        #![trigger reads28(field(bits, 0, 28), recent, a), reads28(field(bits, 28, 28), recent, b)]
        reads28(field(bits, 0, 28), recent, a) && reads28(field(bits, 28, 28), recent, b) ==> r
            == Some(
            fox_text(
                a,
                b,
                resolved(heard, 10, field(bits, 56, 10)),
                report_text(2 * field(bits, 66, 5) - 30),
            ),
        )
}

/// The text of a DXpedition message.
pub open spec fn fox_text(
    rr73_call: Seq<char>,
    work_call: Seq<char>,
    fox: Seq<char>,
    report: Seq<char>,
) -> Seq<char> {
    rr73_call + " RR73; "@ + work_call + seq![' '] + fox + seq![' '] + report
}

/// A message with a callsign spelled out reads as that callsign beside the
/// hashed one, or as its CQ.
pub open spec fn reads_nonstandard(
    bits: Seq<u8>,
    heard: Map<(nat, nat), Seq<char>>,
    r: Option<Seq<char>>,
) -> bool {
    field(bits, 74, 3) == 4 ==> forall|ns: Seq<char>|
        #![trigger base38_number(ns)]
        1 <= ns.len() <= 11 && in_base38(ns) && !ns.contains(' ') && field(bits, 12, 58)
            == base38_number(ns) ==> r == Some(
            nonstandard_text(
                ns,
                resolved(heard, 12, field(bits, 0, 12)),
                field(bits, 70, 1),
                field(bits, 71, 2),
                field(bits, 73, 1),
            ),
        )
}

/// The text of a message with a callsign spelled out.
pub open spec fn nonstandard_text(
    ns: Seq<char>,
    hashed: Seq<char>,
    flip: nat,
    ack: nat,
    cq: nat,
) -> Seq<char> {
    if cq == 1 {
        "CQ "@ + ns
    } else if flip == 0 {
        joined3(hashed, ns, ack_text(ack))
    } else {
        joined3(ns, hashed, ack_text(ack))
    }
}

/// What holds of the text read from 77 bits.
pub open spec fn reads77(
    bits: Seq<u8>,
    heard: Map<(nat, nat), Seq<char>>,
    recent: Seq<(nat, Seq<char>)>,
    r: Option<Seq<char>>,
) -> bool {
    &&& reads_standard(bits, recent, r)
    &&& reads_free_text(bits, r)
    &&& reads_fox(bits, heard, recent, r)
    &&& reads_nonstandard(bits, heard, r)
}

/// `wsjt77::unpack77_with_hash`: the text of a message, its hashed callsigns
/// resolved where the table knows them. The text is a function of the bits and
/// the table; for the layouts that this library writes, it gives back the
/// words they were written from.
pub assume_specification[ mfsk_core::msg::wsjt77::unpack77_with_hash ](
    msg: &[u8],
    ht: &CallsignHashTable,
) -> (r: Option<String>)
    requires
        msg@.len() >= 77,
    ensures
        opt_view(r) == unpack77_text(msg@, table_heard(*ht), table_recent(*ht)),
        reads77(msg@, table_heard(*ht), table_recent(*ht), opt_view(r)),
;

// ── Tones and hints ─────────────────────────────────────────────────────────

/// The tones of an FT8 message, by `mfsk_core::ft8::wave_gen::message_to_tones`.
pub uninterp spec fn ft8_tones(bits: Seq<u8>) -> Seq<u8>;

/// The tones of an FT4 message, by `mfsk_core::ft4::encode::message_to_tones`.
pub uninterp spec fn ft4_tones(bits: Seq<u8>) -> Seq<u8>;

/// `mfsk_core::ft8::wave_gen::message_to_tones`: the 79 tones of a message.
#[verifier::external_body]
pub(crate) fn tones_of_ft8(bits: &[u8; 77]) -> (r: Vec<u8>)
    ensures
        r@ == ft8_tones(bits@),
        r@.len() == 79,
{
    mfsk_core::ft8::wave_gen::message_to_tones(bits).to_vec()
}

/// `mfsk_core::ft4::encode::message_to_tones`: the 103 tones of a message.
#[verifier::external_body]
pub(crate) fn tones_of_ft4(bits: &[u8; 77]) -> (r: Vec<u8>)
    ensures
        r@ == ft4_tones(bits@),
        r@.len() == 103,
{
    mfsk_core::ft4::encode::message_to_tones(bits)
}

/// `ApHint::new`: a hint that knows nothing.
pub assume_specification[ ApHint::new ]() -> (h: ApHint)
    ensures
        h.call1 is None && h.call2 is None && h.grid is None && h.report is None,
;

/// `ApHint::with_call1`: the hint with the addressee filled in.
pub assume_specification[ ApHint::with_call1 ](h: ApHint, call: &str) -> (r: ApHint)
    ensures
        opt_view(r.call1) == Some(call@),
        r.call2 == h.call2 && r.grid == h.grid && r.report == h.report,
;

/// `ApHint::with_call2`: the hint with the sender filled in.
pub assume_specification[ ApHint::with_call2 ](h: ApHint, call: &str) -> (r: ApHint)
    ensures
        opt_view(r.call2) == Some(call@),
        r.call1 == h.call1 && r.grid == h.grid && r.report == h.report,
;

} // verus!
