//! The EU VHF contest layout:
//! `[h12 to][h22 from][r1 rogered][s3 report][s11 serial][g25 grid6]`, then the
//! type bits. Both callsigns travel as hashes, twelve bits for the addressee
//! and twenty-two for the sender, which is what buys the room for a
//! six-character locator and a serial number in the same 77 bits.
//!
//! A hash is not reversible: the far end reads `<...>` for any station it has
//! not heard spell its callsign out.
use std::collections::VecDeque;
use vstd::prelude::*;
use vstd::arithmetic::div_mod::{lemma_fundamental_div_mod_converse, lemma_mod_bound};
use vstd::arithmetic::power2::{
    lemma2_to64, lemma_pow2_adds, lemma_pow2_pos, lemma_pow2_strictly_increases, pow2,
};
use vstd::utf8::encode_utf8;
use mfsk_core::msg::hash_table::ihashcall;
use crate::bits::{
    blank, field, lemma_field_bound, lemma_field_kept, lemma_field_written, lemma_small, read_bits,
    write_bits, written,
};
use crate::mfsk::{base38, bracketed, callsign_hash, placeholder};
use crate::text::{
    all_digits, chars_of, decimal, digit_char, digits_value, is_digit, is_white,
    law_trimming_twice_is_trimming_once, lemma_trimmed_unbroken, opt_view, padded, same, to_padded, to_upper, trim, trimmed, unbroken,
    upper,
};

verus! {

/// A token without the angle brackets a hashed callsign is written with.
pub open spec fn bare_spec(tok: Seq<char>) -> Seq<char> {
    if tok.len() >= 2 && tok[0] == '<' && tok.last() == '>' {
        tok.subrange(1, tok.len() - 1)
    } else {
        tok
    }
}

/// Strip the angle brackets a hashed callsign is written with.
pub fn bare(tok: &str) -> (r: &str)
    ensures
        r@ == bare_spec(tok@),
{
    let n: usize = tok.unicode_len();
    if n >= 2 && tok.get_char(0) == '<' && tok.get_char(n - 1) == '>' {
        tok.substring_char(1, n - 1)
    } else {
        tok
    }
}

/// How many callsigns to keep.
pub const MAX_CALLS: usize = 1000;

/// The callsigns heard, for resolving the hashes this layout travels as.
///
/// A callsign is hashed whole, `/P` and all: a portable station is the typical
/// entrant in a European VHF contest, and hashing its base call would put it on
/// a number that no other program computes. Newest first, so the most recently
/// heard station wins a collision.
#[derive(Debug, Clone)]
pub struct Hashes {
    calls: VecDeque<String>,
}

/// What is remembered of a callsign: trimmed, without brackets, in upper case.
pub open spec fn heard_call(call: Seq<char>) -> Seq<char> {
    upper(bare_spec(trimmed(call)))
}

/// What is not remembered: less than three bytes, the unresolved placeholder,
/// and whatever starts with `CQ`.
pub open spec fn not_a_call(call: Seq<char>) -> bool {
    ||| encode_utf8(call).len() < 3
    ||| call == "..."@
    ||| call.len() >= 2 && call[0] == 'C' && call[1] == 'Q'
}

/// Where `call` first stands in `calls`, or its length.
pub open spec fn position(calls: Seq<Seq<char>>, call: Seq<char>) -> nat
    decreases calls.len(),
{
    if calls.len() == 0 || calls[0] == call {
        0
    } else {
        1 + position(calls.skip(1), call)
    }
}

/// The first `MAX_CALLS` of `calls`.
pub open spec fn newest(calls: Seq<Seq<char>>) -> Seq<Seq<char>> {
    if calls.len() > MAX_CALLS {
        calls.take(MAX_CALLS as int)
    } else {
        calls
    }
}

/// `calls` after `call` was heard: in front, and nowhere else.
pub open spec fn after_hearing(calls: Seq<Seq<char>>, call: Seq<char>) -> Seq<Seq<char>> {
    let c = heard_call(call);
    let pos = position(calls, c) as int;
    if not_a_call(c) {
        calls
    } else if pos < calls.len() {
        newest(seq![c] + calls.remove(pos))
    } else {
        newest(seq![c] + calls)
    }
}

/// The first of `calls` whose `bits`-wide hash is `n`.
pub open spec fn first_hashing_to(calls: Seq<Seq<char>>, n: nat, bits: nat) -> Option<Seq<char>>
    decreases calls.len(),
{
    if calls.len() == 0 {
        None
    } else if callsign_hash(calls[0], bits) == n {
        Some(calls[0])
    } else {
        first_hashing_to(calls.skip(1), n, bits)
    }
}

/// A list of callsigns as the table keeps one: no callsign twice, and no more
/// than it has room for.
pub open spec fn well_kept(calls: Seq<Seq<char>>) -> bool {
    calls.no_duplicates() && calls.len() <= MAX_CALLS
}

impl View for Hashes {
    type V = Seq<Seq<char>>;

    /// The callsigns, newest first.
    closed spec fn view(&self) -> Seq<Seq<char>> {
        self.calls@.map_values(|s: String| s@)
    }
}

/// The first position is before the end exactly when the call is there.
proof fn lemma_position(calls: Seq<Seq<char>>, call: Seq<char>)
    ensures
        position(calls, call) <= calls.len(),
        position(calls, call) < calls.len() ==> calls[position(calls, call) as int] == call,
        forall|i: int| 0 <= i < position(calls, call) ==> #[trigger] calls[i] != call,
    decreases calls.len(),
{
    if calls.len() > 0 && calls[0] != call {
        lemma_position(calls.skip(1), call);
        assert forall|i: int| 0 <= i < position(calls, call) implies #[trigger] calls[i] != call by {
            if i > 0 {
                assert(calls[i] == calls.skip(1)[i - 1]);
            }
        }
    }
}

/// A first position that is known is the one that is found.
proof fn lemma_position_is(calls: Seq<Seq<char>>, call: Seq<char>, n: nat)
    requires
        n <= calls.len(),
        n < calls.len() ==> calls[n as int] == call,
        forall|i: int| 0 <= i < n ==> #[trigger] calls[i] != call,
    ensures
        position(calls, call) == n,
{
    lemma_position(calls, call);
    let p = position(calls, call);
    if p < n {
        assert(calls[p as int] != call);
    } else if n < p {
        assert(calls[n as int] != call);
    }
}

/// The search passes over the calls that hash to something else.
proof fn lemma_first_hashing_to(calls: Seq<Seq<char>>, n: nat, bits: nat, k: int)
    requires
        0 <= k <= calls.len(),
        forall|i: int| 0 <= i < k ==> callsign_hash(#[trigger] calls[i], bits) != n,
    ensures
        first_hashing_to(calls, n, bits) == first_hashing_to(calls.skip(k), n, bits),
    decreases k,
{
    if k == 0 {
        assert(calls.skip(0) =~= calls);
    } else {
        assert(callsign_hash(calls[0], bits) != n);
        lemma_first_hashing_to(calls.skip(1), n, bits, k - 1);
        assert(calls.skip(1).skip(k - 1) =~= calls.skip(k));
    }
}

impl Default for Hashes {
    /// A table that has heard nobody.
    fn default() -> (r: Self)
        ensures
            r@ == Seq::<Seq<char>>::empty(),
            well_kept(r@),
    {
        let r = Hashes { calls: VecDeque::new() };
        assert(r@ =~= Seq::<Seq<char>>::empty());
        r
    }
}

impl Hashes {
    /// Remember a callsign, brackets and all if it has them. A placeholder
    /// nobody resolved, a token too short to be a call, and `CQ` are not
    /// callsigns and are dropped.
    pub fn insert(&mut self, call: &str)
        ensures
            final(self)@ == after_hearing(old(self)@, call@),
            well_kept(old(self)@) ==> well_kept(final(self)@),
    {
        let ghost before = self@;
        proof {
            if well_kept(before) {
                law_hearing_keeps_order(before, call@);
            }
        }
        let c: String = to_upper(bare(trim(call)));
        let n: usize = c.as_str().unicode_len();
        if c.as_str().as_bytes().len() < 3 || same(c.as_str(), "...") || (n >= 2 && c.as_str().get_char(0)
            == 'C' && c.as_str().get_char(1) == 'Q') {
            return ;
        }
        let mut i: usize = 0;
        while i < self.calls.len() && !same(self.calls[i].as_str(), c.as_str())
            invariant
                self@ == before,
                i <= self.calls@.len(),
                forall|k: int| 0 <= k < i ==> #[trigger] before[k] != c@,
            decreases self.calls@.len() - i,
        {
            i = i + 1;
        }
        proof {
            lemma_position_is(before, c@, i as nat);
        }
        if i < self.calls.len() {
            let _ = self.calls.remove(i);
            assert(self@ =~= before.remove(i as int));
        }
        let ghost rest = self@;
        self.calls.push_front(c);
        assert(self@ =~= seq![c@] + rest);
        self.calls.truncate(MAX_CALLS);
        assert(self@ =~= newest(seq![c@] + rest));
    }

    /// The callsign whose `bits`-wide hash is `n`, if one has been heard.
    pub fn lookup(&self, n: u32, bits: u32) -> (r: Option<&str>)
        requires
            self@.len() > 0 ==> 1 <= bits <= 64,
        ensures
            match r {
                Some(c) => first_hashing_to(self@, n as nat, bits as nat) == Some(c@),
                None => first_hashing_to(self@, n as nat, bits as nat) is None,
            },
    {
        let mut i: usize = 0;
        while i < self.calls.len()
            invariant
                i <= self.calls@.len(),
                self@.len() > 0 ==> 1 <= bits <= 64,
                forall|k: int| 0 <= k < i ==> callsign_hash(#[trigger] self@[k], bits as nat) != n,
            decreases self.calls@.len() - i,
        {
            let c: &str = self.calls[i].as_str();
            assert(c@ == self@[i as int]);
            if ihashcall(c, bits) == n {
                proof {
                    lemma_first_hashing_to(self@, n as nat, bits as nat, i as int);
                }
                return Some(c);
            }
            i = i + 1;
        }
        proof {
            lemma_first_hashing_to(self@, n as nat, bits as nat, i as int);
        }
        None
    }
}

/// Serial numbers past this do not fit the eleven-bit field.
pub const MAX_SERIAL: u32 = 2047;

/// A serial number as far as the field can hold it.
pub open spec fn kept_serial(serial: nat) -> nat {
    if serial > MAX_SERIAL {
        MAX_SERIAL as nat
    } else {
        serial
    }
}

/// The exchange as it appears in a message.
pub open spec fn exchange_text(rs: nat, serial: nat) -> Seq<char> {
    padded(rs, 2) + padded(kept_serial(serial), 4)
}

/// The exchange as it appears in a message: an RS of `5x` glued to a
/// four-digit serial, e.g. `590003`.
pub fn exchange(rs: u8, serial: u32) -> (r: String)
    ensures
        r@ == exchange_text(rs as nat, serial as nat),
{
    let kept: u32 = if serial > MAX_SERIAL {
        MAX_SERIAL
    } else {
        serial
    };
    let mut r: String = to_padded(rs as u32, 2);
    r.append(to_padded(kept, 4).as_str());
    r
}

/// What an exchange token says: six digits, the first two an RS that the
/// three-bit field can carry.
pub open spec fn parsed_exchange(tok: Seq<char>) -> Option<(nat, nat)> {
    if tok.len() == 6 && all_digits(tok) && 52 <= digits_value(tok.take(2)) <= 59 {
        Some((digits_value(tok.take(2)), digits_value(tok.skip(2))))
    } else {
        None
    }
}

/// The number that two digits write.
pub proof fn lemma_two_digits(s: Seq<char>)
    requires
        s.len() == 2,
        all_digits(s),
    ensures
        digits_value(s) == (s[0] as u8 - 48) * 10 + (s[1] as u8 - 48),
{
    assert(is_digit(s[0]) && is_digit(s[1]));
    reveal_with_fuel(digits_value, 3);
}

/// The number that three digits write.
pub proof fn lemma_three_digits(s: Seq<char>)
    requires
        s.len() == 3,
        all_digits(s),
    ensures
        digits_value(s) == (s[0] as u8 - 48) * 100 + (s[1] as u8 - 48) * 10 + (s[2] as u8 - 48),
{
    assert(is_digit(s[0]) && is_digit(s[1]) && is_digit(s[2]));
    reveal_with_fuel(digits_value, 4);
}

/// The number that four digits write.
proof fn lemma_four_digits(s: Seq<char>)
    requires
        s.len() == 4,
        all_digits(s),
    ensures
        digits_value(s) == (s[0] as u8 - 48) * 1000 + (s[1] as u8 - 48) * 100 + (s[2] as u8 - 48)
            * 10 + (s[3] as u8 - 48),
{
    assert(is_digit(s[0]) && is_digit(s[1]) && is_digit(s[2]) && is_digit(s[3]));
    reveal_with_fuel(digits_value, 5);
}

/// Split `590003` back into `(59, 3)`. `None` for anything that is not six
/// digits with an RS the three-bit field can carry.
pub fn parse_exchange(tok: &str) -> (r: Option<(u8, u32)>)
    ensures
        match r {
            Some((rs, serial)) => parsed_exchange(tok@) == Some((rs as nat, serial as nat)),
            None => parsed_exchange(tok@) is None,
        },
{
    let v: Vec<char> = chars_of(tok);
    if v.len() != 6 {
        return None;
    }
    let mut i: usize = 0;
    while i < 6
        invariant
            i <= 6,
            v@ == tok@,
            v@.len() == 6,
            forall|k: int| 0 <= k < i ==> is_digit(#[trigger] tok@[k]),
        decreases 6 - i,
    {
        let c: char = v[i];
        if !('0' <= c && c <= '9') {
            assert(!is_digit(tok@[i as int]));
            return None;
        }
        i = i + 1;
    }
    proof {
        lemma_two_digits(tok@.take(2));
        lemma_four_digits(tok@.skip(2));
    }
    assert(is_digit(v@[0]) && is_digit(v@[1]) && is_digit(v@[2]) && is_digit(v@[3]) && is_digit(
        v@[4],
    ) && is_digit(v@[5]));
    let rs: u8 = (v[0] as u8 - 48) * 10 + (v[1] as u8 - 48);
    let serial: u32 = (v[2] as u8 - 48) as u32 * 1000 + (v[3] as u8 - 48) as u32 * 100 + (v[4] as u8
        - 48) as u32 * 10 + (v[5] as u8 - 48) as u32;
    if 52 <= rs && rs <= 59 {
        Some((rs, serial))
    } else {
        None
    }
}

/// A six-character locator in the alphabet of this layout: fields A to R,
/// digits, sub-squares A to X.
pub open spec fn grid6(g: Seq<char>) -> bool {
    &&& g.len() == 6
    &&& 'A' <= g[0] <= 'R'
    &&& 'A' <= g[1] <= 'R'
    &&& is_digit(g[2])
    &&& is_digit(g[3])
    &&& 'A' <= g[4] <= 'X'
    &&& 'A' <= g[5] <= 'X'
}

/// A six-character locator, in the narrower alphabet this layout allows: the
/// sub-square letters run A..X, not A..Y as a bare Maidenhead locator would.
/// Twenty-five bits hold exactly 18·18·10·10·24·24 of them.
pub fn is_grid6(g: &str) -> (r: bool)
    ensures
        r == grid6(g@),
{
    let b: Vec<char> = chars_of(g);
    b.len() == 6 && 'A' <= b[0] && b[0] <= 'R' && 'A' <= b[1] && b[1] <= 'R' && '0' <= b[2] && b[2]
        <= '9' && '0' <= b[3] && b[3] <= '9' && 'A' <= b[4] && b[4] <= 'X' && 'A' <= b[5] && b[5]
        <= 'X'
}

/// How many locators there are.
pub const GRIDS: u32 = 18_662_400;

/// The number of a locator: its six places, the first the most significant.
pub open spec fn grid6_value(g: Seq<char>) -> nat {
    ((g[0] as u8 - 65) * 1_036_800 + (g[1] as u8 - 65) * 57_600 + (g[2] as u8 - 48) * 5_760 + (
    g[3] as u8 - 48) * 576 + (g[4] as u8 - 65) * 24 + (g[5] as u8 - 65)) as nat
}

/// Pack a locator into the 25-bit field.
pub fn pack_grid6(g: &str) -> (r: Option<u32>)
    ensures
        match r {
            Some(n) => grid6(g@) && n == grid6_value(g@),
            None => !grid6(g@),
        },
{
    if !is_grid6(g) {
        return None;
    }
    let b: Vec<char> = chars_of(g);
    let d0: u32 = (b[0] as u8 - 65) as u32;
    let d1: u32 = (b[1] as u8 - 65) as u32;
    let d2: u32 = (b[2] as u8 - 48) as u32;
    let d3: u32 = (b[3] as u8 - 48) as u32;
    let d4: u32 = (b[4] as u8 - 65) as u32;
    let d5: u32 = (b[5] as u8 - 65) as u32;
    Some(d0 * 1_036_800 + d1 * 57_600 + d2 * 5_760 + d3 * 576 + d4 * 24 + d5)
}

/// The letter `d` places after `A`.
pub open spec fn letter_char(d: int) -> char {
    ((65 + d) as u8) as char
}

/// The locator whose number is `n`.
pub open spec fn grid6_text(n: nat) -> Option<Seq<char>> {
    if n < GRIDS {
        Some(
            seq![
                letter_char((n / 1_036_800) as int),
                letter_char(((n % 1_036_800) / 57_600) as int),
                digit_char(((n % 57_600) / 5_760) as int),
                digit_char(((n % 5_760) / 576) as int),
                letter_char(((n % 576) / 24) as int),
                letter_char((n % 24) as int),
            ],
        )
    } else {
        None
    }
}

/// The inverse of [`pack_grid6`]. `None` for a value outside the field's
/// 18·18·10·10·24·24 range, which is a message that did not come from a packer
/// following the standard.
pub fn unpack_grid6(n: u32) -> (r: Option<String>)
    ensures
        opt_view(r) == grid6_text(n as nat),
{
    if n >= GRIDS {
        return None;
    }
    let mut s: String = String::new();
    s.push((65 + (n / 1_036_800) as u8) as char);
    s.push((65 + ((n % 1_036_800) / 57_600) as u8) as char);
    s.push((48 + ((n % 57_600) / 5_760) as u8) as char);
    s.push((48 + ((n % 5_760) / 576) as u8) as char);
    s.push((65 + ((n % 576) / 24) as u8) as char);
    s.push((65 + (n % 24) as u8) as char);
    assert(s@ =~= grid6_text(n as nat)->0);
    Some(s)
}

/// The bits of a contest exchange.
pub open spec fn exchange_bits(
    to: Seq<char>,
    from: Seq<char>,
    rogered: bool,
    rs: nat,
    serial: nat,
    grid: nat,
) -> Seq<u8> {
    let m1 = written(blank(), 0, 12, callsign_hash(to, 12));
    let m2 = written(m1, 12, 22, callsign_hash(from, 22));
    let m3 = written(
        m2,
        34,
        1,
        if rogered {
            1
        } else {
            0
        },
    );
    let m4 = written(m3, 35, 3, (rs - 52) as nat);
    let m5 = written(m4, 38, 11, kept_serial(serial));
    let m6 = written(m5, 49, 25, grid);
    written(m6, 74, 3, 5)
}

/// Pack `<to> <from> [R] RSNNNN GRID6` into 77 bits.
///
/// The callsigns are taken bare: the angle brackets the message is written
/// with are the *rendering* of a hash, not part of the callsign.
pub fn pack(
    to: &str,
    from: &str,
    rogered: bool,
    rs: u8,
    serial: u32,
    grid6: &str,
) -> (r: Option<[u8; 77]>)
    ensures
        match r {
            Some(m) => 52 <= rs <= 59 && self::grid6(grid6@) && m@ == exchange_bits(
                to@,
                from@,
                rogered,
                rs as nat,
                serial as nat,
                grid6_value(grid6@),
            ),
            None => !(52 <= rs <= 59 && self::grid6(grid6@)),
        },
{
    if rs < 52 || rs > 59 {
        return None;
    }
    match pack_grid6(grid6) {
        None => None,
        Some(igrid) => {
            let mut msg: [u8; 77] = [0u8; 77];
            assert(msg@ =~= blank());
            let kept: u32 = if serial > MAX_SERIAL {
                MAX_SERIAL
            } else {
                serial
            };
            write_bits(&mut msg, 0, 12, ihashcall(to, 12));
            write_bits(&mut msg, 12, 22, ihashcall(from, 22));
            write_bits(
                &mut msg,
                34,
                1,
                if rogered {
                    1
                } else {
                    0
                },
            );
            write_bits(&mut msg, 35, 3, (rs - 52) as u32);
            write_bits(&mut msg, 38, 11, kept);
            write_bits(&mut msg, 49, 25, igrid);
            write_bits(&mut msg, 74, 3, 5);
            Some(msg)
        },
    }
}

/// How a callsign looked up by its hash is written.
pub open spec fn name_of(found: Option<Seq<char>>) -> Seq<char> {
    match found {
        Some(c) => bracketed(c),
        None => placeholder(),
    }
}

/// The text of a contest exchange.
pub open spec fn exchange_message(
    to: Seq<char>,
    from: Seq<char>,
    rogered: bool,
    exchange: Seq<char>,
    grid: Seq<char>,
) -> Seq<char> {
    to + seq![' '] + from + seq![' '] + (if rogered {
        seq!['R', ' ']
    } else {
        seq![]
    }) + exchange + seq![' '] + grid
}

/// What the bits of a contest exchange read as, given the callsigns heard.
pub open spec fn unpacked(bits: Seq<u8>, calls: Seq<Seq<char>>) -> Option<Seq<char>> {
    match grid6_text(field(bits, 49, 25)) {
        Some(grid) => Some(
            exchange_message(
                name_of(first_hashing_to(calls, field(bits, 0, 12), 12)),
                name_of(first_hashing_to(calls, field(bits, 12, 22), 22)),
                field(bits, 34, 1) == 1,
                exchange_text(52 + field(bits, 35, 3), field(bits, 38, 11)),
                grid,
            ),
        ),
        None => None,
    }
}

/// A callsign in brackets, or the placeholder.
fn bracket_name(found: Option<&str>) -> (r: String)
    ensures
        r@ == name_of(
            match found {
                Some(c) => Some(c@),
                None => None,
            },
        ),
{
    let mut r: String = String::new();
    r.push('<');
    match found {
        Some(c) => {
            r.append(c);
        },
        None => {
            r.append("...");
            proof {
                reveal_strlit("...");
            }
        },
    }
    r.push('>');
    proof {
        match found {
            Some(c) => {
                assert(r@ =~= bracketed(c@));
            },
            None => {
                assert(r@ =~= placeholder());
            },
        }
    }
    r
}

/// Read a contest exchange back, resolving both hashes where the table knows
/// them.
pub fn unpack(bits: &[u8; 77], hashes: &Hashes) -> (r: Option<String>)
    ensures
        opt_view(r) == unpacked(bits@, hashes@),
{
    let n12: u32 = read_bits(bits, 0, 12);
    let n22: u32 = read_bits(bits, 12, 22);
    let rogered: bool = read_bits(bits, 34, 1) == 1;
    proof {
        lemma_field_bound(bits@, 35, 3);
        lemma2_to64();
    }
    let rs: u8 = 52 + read_bits(bits, 35, 3) as u8;
    let serial: u32 = read_bits(bits, 38, 11);
    match unpack_grid6(read_bits(bits, 49, 25)) {
        None => None,
        Some(grid6) => {
            let to: String = bracket_name(hashes.lookup(n12, 12));
            let from: String = bracket_name(hashes.lookup(n22, 22));
            let exch: String = exchange(rs, serial);
            let mut s: String = String::new();
            s.append(to.as_str());
            s.push(' ');
            s.append(from.as_str());
            s.push(' ');
            if rogered {
                s.push('R');
                s.push(' ');
            }
            s.append(exch.as_str());
            s.push(' ');
            s.append(grid6.as_str());
            assert(s@ =~= exchange_message(to@, from@, rogered, exch@, grid6@));
            Some(s)
        },
    }
}

// ── What holds of the whole ─────────────────────────────────────────────────

/// The places of a number written in the locators' mixed base.
proof fn lemma_places(d0: int, d1: int, d2: int, d3: int, d4: int, d5: int)
    requires
        0 <= d0,
        0 <= d1 < 18,
        0 <= d2 < 10,
        0 <= d3 < 10,
        0 <= d4 < 24,
        0 <= d5 < 24,
    ensures
        ({
            let n = d0 * 1_036_800 + d1 * 57_600 + d2 * 5_760 + d3 * 576 + d4 * 24 + d5;
            &&& n / 1_036_800 == d0
            &&& (n % 1_036_800) / 57_600 == d1
            &&& (n % 57_600) / 5_760 == d2
            &&& (n % 5_760) / 576 == d3
            &&& (n % 576) / 24 == d4
            &&& n % 24 == d5
        }),
{
    let r4 = d4 * 24 + d5;
    let r3 = d3 * 576 + r4;
    let r2 = d2 * 5_760 + r3;
    let r1 = d1 * 57_600 + r2;
    let n = d0 * 1_036_800 + r1;
    lemma_fundamental_div_mod_converse(n, 1_036_800, d0, r1);
    lemma_fundamental_div_mod_converse(r1, 57_600, d1, r2);
    lemma_fundamental_div_mod_converse(n, 57_600, d0 * 18 + d1, r2);
    lemma_fundamental_div_mod_converse(r2, 5_760, d2, r3);
    lemma_fundamental_div_mod_converse(n, 5_760, d0 * 180 + d1 * 10 + d2, r3);
    lemma_fundamental_div_mod_converse(r3, 576, d3, r4);
    lemma_fundamental_div_mod_converse(n, 576, d0 * 1800 + d1 * 100 + d2 * 10 + d3, r4);
    lemma_fundamental_div_mod_converse(r4, 24, d4, d5);
    lemma_fundamental_div_mod_converse(
        n,
        24,
        d0 * 43_200 + d1 * 2400 + d2 * 240 + d3 * 24 + d4,
        d5,
    );
}

/// A locator's number is one of the field's, and reads back as the locator.
pub proof fn law_locator_round_trips(g: Seq<char>)
    requires
        grid6(g),
    ensures
        grid6_value(g) < GRIDS,
        grid6_text(grid6_value(g)) == Some(g),
{
    lemma_places(
        g[0] as u8 - 65,
        g[1] as u8 - 65,
        g[2] as u8 - 48,
        g[3] as u8 - 48,
        g[4] as u8 - 65,
        g[5] as u8 - 65,
    );
    assert(grid6_text(grid6_value(g))->0 =~= g);
}

/// Each of the field's numbers is the number of the locator it reads as.
pub proof fn law_locator_number_round_trips(n: nat)
    requires
        n < GRIDS,
    ensures
        grid6_text(n) is Some,
        grid6(grid6_text(n)->0),
        grid6_value(grid6_text(n)->0) == n,
{
    let d0 = (n / 1_036_800) as int;
    let r1 = (n % 1_036_800) as int;
    let d1 = r1 / 57_600;
    let r2 = r1 % 57_600;
    let d2 = r2 / 5_760;
    let r3 = r2 % 5_760;
    let d3 = r3 / 576;
    let r4 = r3 % 576;
    let d4 = r4 / 24;
    let d5 = r4 % 24;
    lemma_places(d0, d1, d2, d3, d4, d5);
    assert(n == d0 * 1_036_800 + d1 * 57_600 + d2 * 5_760 + d3 * 576 + d4 * 24 + d5);
    let g = grid6_text(n)->0;
    assert(g == seq![
        letter_char(d0),
        letter_char(d1),
        digit_char(d2),
        digit_char(d3),
        letter_char(d4),
        letter_char(d5),
    ]);
}

/// How numbers below ten thousand are padded.
pub proof fn lemma_padded(n: nat)
    ensures
        n < 100 ==> padded(n, 2) == seq![digit_char((n / 10) as int), digit_char((n % 10) as int)],
        n < 1000 ==> padded(n, 3) == seq![
            digit_char((n / 100) as int),
            digit_char((n / 10 % 10) as int),
            digit_char((n % 10) as int),
        ],
        n < 10_000 ==> padded(n, 4) == seq![
            digit_char((n / 1000) as int),
            digit_char((n / 100 % 10) as int),
            digit_char((n / 10 % 10) as int),
            digit_char((n % 10) as int),
        ],
{
    reveal_with_fuel(decimal, 5);
    if n < 100 {
        assert(padded(n, 2) =~= seq![digit_char((n / 10) as int), digit_char((n % 10) as int)]);
    }
    if n < 1000 {
        assert(padded(n, 3) =~= seq![
            digit_char((n / 100) as int),
            digit_char((n / 10 % 10) as int),
            digit_char((n % 10) as int),
        ]);
    }
    if n < 10_000 {
        assert(padded(n, 4) =~= seq![
            digit_char((n / 1000) as int),
            digit_char((n / 100 % 10) as int),
            digit_char((n / 10 % 10) as int),
            digit_char((n % 10) as int),
        ]);
    }
}

/// An exchange that is written is read back: the same report, and the serial
/// number as far as the field holds it.
pub proof fn law_exchange_round_trips(rs: nat, serial: nat)
    requires
        52 <= rs <= 59,
    ensures
        parsed_exchange(exchange_text(rs, serial)) == Some((rs, kept_serial(serial))),
{
    let t = exchange_text(rs, serial);
    lemma_padded(rs);
    lemma_padded(kept_serial(serial));
    assert(t.len() == 6);
    assert forall|i: int| 0 <= i < t.len() implies is_digit(#[trigger] t[i]) by {}
    assert(all_digits(t.take(2)));
    assert(all_digits(t.skip(2)));
    lemma_two_digits(t.take(2));
    lemma_four_digits(t.skip(2));
}

/// An exchange that is read is written back as it was, where its serial number
/// fits the field.
pub proof fn law_written_exchange_round_trips(tok: Seq<char>)
    requires
        parsed_exchange(tok) is Some,
        (parsed_exchange(tok)->0).1 <= MAX_SERIAL,
    ensures
        exchange_text((parsed_exchange(tok)->0).0, (parsed_exchange(tok)->0).1) == tok,
{
    let (rs, serial) = parsed_exchange(tok)->0;
    assert forall|i: int| 0 <= i < 6 implies is_digit(#[trigger] tok[i]) by {}
    assert(all_digits(tok.take(2)));
    assert(all_digits(tok.skip(2)));
    lemma_two_digits(tok.take(2));
    lemma_four_digits(tok.skip(2));
    lemma_padded(rs);
    lemma_padded(serial);
    assert(exchange_text(rs, serial) =~= tok);
}

/// A hash fits its width.
pub proof fn lemma_hash_bound(call: Seq<char>, bits: nat)
    requires
        bits <= 32,
    ensures
        callsign_hash(call, bits) < pow2(bits),
{
    let x = (base38(encode_utf8(upper(call)), 11) * 47_055_833_459) % pow2(64);
    let d = pow2((64 - bits) as nat);
    lemma_pow2_pos(64);
    lemma_pow2_pos(32);
    lemma_pow2_pos((64 - bits) as nat);
    lemma_pow2_adds(bits, (64 - bits) as nat);
    lemma_mod_bound((base38(encode_utf8(upper(call)), 11) * 47_055_833_459) as int, pow2(64) as int);
    assert(x / d < pow2(bits)) by (nonlinear_arith)
        requires
            x < pow2(bits) * d,
            d > 0,
    ;
    if bits < 32 {
        lemma_pow2_strictly_increases(bits, 32);
    }
    lemma_small((x / d) as nat, 32);
}

/// Each field of an exchange reads back as what was written into it.
proof fn lemma_exchange_fields(
    to: Seq<char>,
    from: Seq<char>,
    rogered: bool,
    rs: nat,
    serial: nat,
    grid: nat,
)
    requires
        52 <= rs <= 59,
        grid < GRIDS,
    ensures
        ({
            let m = exchange_bits(to, from, rogered, rs, serial, grid);
            &&& m.len() == 77
            &&& field(m, 0, 12) == callsign_hash(to, 12)
            &&& field(m, 12, 22) == callsign_hash(from, 22)
            &&& field(m, 34, 1) == (if rogered {
                1nat
            } else {
                0
            })
            &&& field(m, 35, 3) == rs - 52
            &&& field(m, 38, 11) == kept_serial(serial)
            &&& field(m, 49, 25) == grid
            &&& field(m, 74, 3) == 5
        }),
{
    let m1 = written(blank(), 0, 12, callsign_hash(to, 12));
    let m2 = written(m1, 12, 22, callsign_hash(from, 22));
    let r: nat = if rogered {
        1
    } else {
        0
    };
    let m3 = written(m2, 34, 1, r);
    let m4 = written(m3, 35, 3, (rs - 52) as nat);
    let m5 = written(m4, 38, 11, kept_serial(serial));
    let m6 = written(m5, 49, 25, grid);
    let m7 = written(m6, 74, 3, 5);
    lemma2_to64();
    lemma_hash_bound(to, 12);
    lemma_hash_bound(from, 22);
    lemma_field_written(blank(), 0, 12, callsign_hash(to, 12));
    lemma_small(callsign_hash(to, 12), 12);
    lemma_field_kept(m1, 12, 22, callsign_hash(from, 22), 0, 12);
    lemma_field_kept(m2, 34, 1, r, 0, 12);
    lemma_field_kept(m3, 35, 3, (rs - 52) as nat, 0, 12);
    lemma_field_kept(m4, 38, 11, kept_serial(serial), 0, 12);
    lemma_field_kept(m5, 49, 25, grid, 0, 12);
    lemma_field_kept(m6, 74, 3, 5, 0, 12);
    lemma_field_written(m1, 12, 22, callsign_hash(from, 22));
    lemma_small(callsign_hash(from, 22), 22);
    lemma_field_kept(m2, 34, 1, r, 12, 22);
    lemma_field_kept(m3, 35, 3, (rs - 52) as nat, 12, 22);
    lemma_field_kept(m4, 38, 11, kept_serial(serial), 12, 22);
    lemma_field_kept(m5, 49, 25, grid, 12, 22);
    lemma_field_kept(m6, 74, 3, 5, 12, 22);
    lemma_field_written(m2, 34, 1, r);
    lemma_small(r, 1);
    lemma_field_kept(m3, 35, 3, (rs - 52) as nat, 34, 1);
    lemma_field_kept(m4, 38, 11, kept_serial(serial), 34, 1);
    lemma_field_kept(m5, 49, 25, grid, 34, 1);
    lemma_field_kept(m6, 74, 3, 5, 34, 1);
    lemma_field_written(m3, 35, 3, (rs - 52) as nat);
    lemma_small((rs - 52) as nat, 3);
    lemma_field_kept(m4, 38, 11, kept_serial(serial), 35, 3);
    lemma_field_kept(m5, 49, 25, grid, 35, 3);
    lemma_field_kept(m6, 74, 3, 5, 35, 3);
    lemma_field_written(m4, 38, 11, kept_serial(serial));
    lemma_small(kept_serial(serial), 11);
    lemma_field_kept(m5, 49, 25, grid, 38, 11);
    lemma_field_kept(m6, 74, 3, 5, 38, 11);
    lemma_field_written(m5, 49, 25, grid);
    lemma_small(grid, 25);
    lemma_field_kept(m6, 74, 3, 5, 49, 25);
    lemma_field_written(m6, 74, 3, 5);
    lemma_small(5, 3);
}

/// A packed exchange is read back as it was sent, whatever the reader has
/// heard: both callsigns by the name their hashes resolve to, the roger, the
/// report, the serial number as far as the field holds it, and the locator.
pub proof fn law_exchange_is_read_as_sent(
    to: Seq<char>,
    from: Seq<char>,
    rogered: bool,
    rs: nat,
    serial: nat,
    grid: Seq<char>,
    calls: Seq<Seq<char>>,
)
    requires
        52 <= rs <= 59,
        grid6(grid),
    ensures
        unpacked(exchange_bits(to, from, rogered, rs, serial, grid6_value(grid)), calls) == Some(
            exchange_message(
                name_of(first_hashing_to(calls, callsign_hash(to, 12), 12)),
                name_of(first_hashing_to(calls, callsign_hash(from, 22), 22)),
                rogered,
                exchange_text(rs, serial),
                grid,
            ),
        ),
        field(exchange_bits(to, from, rogered, rs, serial, grid6_value(grid)), 74, 3) == 5,
{
    law_locator_round_trips(grid);
    lemma_exchange_fields(to, from, rogered, rs, serial, grid6_value(grid));
}

/// A callsign just heard is the one its hashes resolve to: the most recently
/// heard station wins a collision.
pub proof fn law_last_heard_wins(calls: Seq<Seq<char>>, call: Seq<char>, bits: nat)
    requires
        !not_a_call(heard_call(call)),
    ensures
        first_hashing_to(
            after_hearing(calls, call),
            callsign_hash(heard_call(call), bits),
            bits,
        ) == Some(heard_call(call)),
{
    assert(after_hearing(calls, call)[0] == heard_call(call));
}

/// Hearing a callsign keeps the table in order: no callsign twice, and no more
/// than it has room for.
pub proof fn law_hearing_keeps_order(calls: Seq<Seq<char>>, call: Seq<char>)
    requires
        well_kept(calls),
    ensures
        well_kept(after_hearing(calls, call)),
{
    let c = heard_call(call);
    let pos = position(calls, c) as int;
    lemma_position(calls, c);
    if !not_a_call(c) {
        let rest = if pos < calls.len() {
            calls.remove(pos)
        } else {
            calls
        };
        assert forall|i: int| 0 <= i < rest.len() implies #[trigger] rest[i] != c by {
            if pos < calls.len() {
                if i < pos {
                    assert(rest[i] == calls[i]);
                } else {
                    assert(rest[i] == calls[i + 1]);
                    assert(calls[i + 1] != calls[pos]);
                }
            }
        }
        assert(rest.no_duplicates());
        assert((seq![c] + rest).no_duplicates());
    }
}

/// Leaving out a call that hashes to something else changes no search.
proof fn lemma_first_hashing_without(calls: Seq<Seq<char>>, pos: int, n: nat, bits: nat)
    requires
        0 <= pos < calls.len(),
        callsign_hash(calls[pos], bits) != n,
    ensures
        first_hashing_to(calls.remove(pos), n, bits) == first_hashing_to(calls, n, bits),
    decreases calls.len(),
{
    if pos == 0 {
        assert(calls.remove(0) =~= calls.skip(1));
    } else {
        assert(calls.remove(pos).skip(1) =~= calls.skip(1).remove(pos - 1));
        if callsign_hash(calls[0], bits) != n {
            lemma_first_hashing_without(calls.skip(1), pos - 1, n, bits);
        }
    }
}

/// Hearing a callsign changes nothing for a hash that is not its own, as long
/// as the table has room.
pub proof fn law_hearing_keeps_the_others(
    calls: Seq<Seq<char>>,
    call: Seq<char>,
    n: nat,
    bits: nat,
)
    requires
        calls.len() < MAX_CALLS,
        callsign_hash(heard_call(call), bits) != n,
    ensures
        first_hashing_to(after_hearing(calls, call), n, bits) == first_hashing_to(calls, n, bits),
{
    let c = heard_call(call);
    let pos = position(calls, c) as int;
    lemma_position(calls, c);
    if !not_a_call(c) {
        if pos < calls.len() {
            lemma_first_hashing_without(calls, pos, n, bits);
            assert((seq![c] + calls.remove(pos)).skip(1) =~= calls.remove(pos));
        } else {
            assert((seq![c] + calls).skip(1) =~= calls);
        }
    }
}

/// Where each part of an exchange stands in its bits: the addressee's hash first,
/// then the sender's, the roger, the report above 52, the serial number or 2047
/// where it is past that, the locator and the type.
pub proof fn law_where_each_part_of_an_exchange_stands(
    to: Seq<char>,
    from: Seq<char>,
    rogered: bool,
    rs: nat,
    serial: nat,
    grid: Seq<char>,
)
    requires
        52 <= rs <= 59,
        grid6(grid),
    ensures
        ({
            let m = exchange_bits(to, from, rogered, rs, serial, grid6_value(grid));
            &&& m.len() == 77
            &&& field(m, 0, 12) == callsign_hash(to, 12)
            &&& field(m, 12, 22) == callsign_hash(from, 22)
            &&& field(m, 34, 1) == 1 <==> rogered
            &&& 52 + field(m, 35, 3) == rs
            &&& serial <= 2047 ==> field(m, 38, 11) == serial
            &&& serial > 2047 ==> field(m, 38, 11) == 2047
            &&& field(m, 49, 25) == grid6_value(grid)
            &&& field(m, 74, 3) == 5
        }),
{
    law_locator_round_trips(grid);
    lemma_exchange_fields(to, from, rogered, rs, serial, grid6_value(grid));
}

/// Locators are numbered in order, letter by letter from AA00AA on and without a
/// gap: a step in the last place counts one, and a step in any other place as
/// many as all that follow it can take.
pub proof fn law_locators_are_numbered_in_order(g: Seq<char>, h: Seq<char>, i: int)
    requires
        grid6(g) && grid6(h),
        0 <= i < 6,
        h[i] as int == g[i] as int + 1,
        forall|k: int| 0 <= k < 6 && k != i ==> #[trigger] g[k] == h[k],
    ensures
        i == 5 ==> grid6_value(h) == grid6_value(g) + 1,
        i == 4 ==> grid6_value(h) == grid6_value(g) + 24,
        i == 3 ==> grid6_value(h) == grid6_value(g) + 24 * 24,
        i == 2 ==> grid6_value(h) == grid6_value(g) + 10 * 24 * 24,
        i == 1 ==> grid6_value(h) == grid6_value(g) + 10 * 10 * 24 * 24,
        i == 0 ==> grid6_value(h) == grid6_value(g) + 18 * 10 * 10 * 24 * 24,
        grid6_value(seq!['A', 'A', '0', '0', 'A', 'A']) == 0,
        GRIDS == 18 * 18 * 10 * 10 * 24 * 24,
{
    assert(g[0] == h[0] || i == 0);
    assert(g[1] == h[1] || i == 1);
    assert(g[2] == h[2] || i == 2);
    assert(g[3] == h[3] || i == 3);
    assert(g[4] == h[4] || i == 4);
    assert(g[5] == h[5] || i == 5);
}

/// A hash finds a callsign that has it, the newest of those heard, and finds
/// nothing only where no callsign heard has it.
pub proof fn law_a_hash_finds_the_newest_callsign_that_has_it(
    calls: Seq<Seq<char>>,
    n: nat,
    bits: nat,
)
    ensures
        match first_hashing_to(calls, n, bits) {
            Some(c) => exists|i: int|
                0 <= i < calls.len() && #[trigger] calls[i] == c && callsign_hash(c, bits) == n
                    && forall|k: int|
                    0 <= k < i ==> callsign_hash(#[trigger] calls[k], bits) != n,
            None => forall|i: int|
                0 <= i < calls.len() ==> callsign_hash(#[trigger] calls[i], bits) != n,
        },
    decreases calls.len(),
{
    if calls.len() > 0 {
        if callsign_hash(calls[0], bits) == n {
            assert(calls[0] == first_hashing_to(calls, n, bits)->0);
        } else {
            let rest = calls.skip(1);
            law_a_hash_finds_the_newest_callsign_that_has_it(rest, n, bits);
            match first_hashing_to(rest, n, bits) {
                Some(c) => {
                    let i = choose|i: int|
                        0 <= i < rest.len() && #[trigger] rest[i] == c && callsign_hash(c, bits)
                            == n && forall|k: int|
                            0 <= k < i ==> callsign_hash(#[trigger] rest[k], bits) != n;
                    assert(calls[i + 1] == c);
                    assert forall|k: int| 0 <= k < i + 1 implies callsign_hash(
                        #[trigger] calls[k],
                        bits,
                    ) != n by {
                        if k > 0 {
                            assert(rest[k - 1] == calls[k]);
                        }
                    }
                },
                None => {
                    assert forall|i: int| 0 <= i < calls.len() implies callsign_hash(
                        #[trigger] calls[i],
                        bits,
                    ) != n by {
                        if i > 0 {
                            assert(rest[i - 1] == calls[i]);
                        }
                    }
                },
            }
        }
    }
}

/// Brackets come off as a pair, one pair at the most, and nothing else does.
pub proof fn law_brackets_come_off_in_pairs(call: Seq<char>)
    ensures
        bare_spec(seq!['<'] + call + seq!['>']) == call,
        call.len() < 2 || call[0] != '<' || call.last() != '>' ==> bare_spec(call) == call,
{
    let b = seq!['<'] + call + seq!['>'];
    assert(b.subrange(1, b.len() - 1) =~= call);
}

/// A callsign is remembered in upper case, and the same whether it was written in
/// brackets or not.
pub proof fn law_a_callsign_is_remembered_however_it_is_written(call: Seq<char>)
    requires
        unbroken(call),
        call.len() > 0,
        call[0] != '<',
    ensures
        heard_call(call) == upper(call),
        heard_call(seq!['<'] + call + seq!['>']) == upper(call),
{
    let b = seq!['<'] + call + seq!['>'];
    assert forall|i: int| 0 <= i < b.len() implies !is_white(#[trigger] b[i]) by {
        if 0 < i < b.len() - 1 {
            assert(b[i] == call[i - 1]);
        }
    }
    lemma_trimmed_unbroken(call);
    lemma_trimmed_unbroken(b);
    law_brackets_come_off_in_pairs(call);
}

/// A callsign heard goes to the front of the table, the others stay in their
/// order behind it, and of more than a thousand the oldest is forgotten. What is
/// no callsign changes nothing.
pub proof fn law_a_callsign_heard_goes_to_the_front(calls: Seq<Seq<char>>, call: Seq<char>, k: int)
    requires
        well_kept(calls),
    ensures
        ({
            let c = heard_call(call);
            let after = after_hearing(calls, call);
            &&& c == "..."@ || c.len() >= 2 && c[0] == 'C' && c[1] == 'Q' || encode_utf8(c).len() < 3
                ==> after == calls
            &&& !(c == "..."@ || c.len() >= 2 && c[0] == 'C' && c[1] == 'Q' || encode_utf8(c).len()
                < 3) ==> {
                &&& 0 <= k < calls.len() && calls[k] == c ==> after == seq![c] + calls.take(k)
                    + calls.skip(k + 1)
                &&& !calls.contains(c) && calls.len() < 1000 ==> after == seq![c] + calls
                &&& !calls.contains(c) && calls.len() >= 1000 ==> after == seq![c] + calls.take(999)
            }
        }),
{
    let c = heard_call(call);
    let pos = position(calls, c) as int;
    let after = after_hearing(calls, call);
    lemma_position(calls, c);
    if !not_a_call(c) {
        if 0 <= k < calls.len() && calls[k] == c {
            assert(pos <= k) by {
                if k < pos {
                    assert(calls[k] != c);
                }
            }
            assert(calls[pos] == calls[k]);
            assert(pos == k);
            assert(after =~= seq![c] + calls.take(k) + calls.skip(k + 1));
        }
        if !calls.contains(c) {
            if pos < calls.len() {
                assert(calls.contains(calls[pos]));
            }
            if calls.len() < 1000 {
                assert(after =~= seq![c] + calls);
            } else {
                assert(after =~= seq![c] + calls.take(999));
            }
        }
    }
}

/// A callsign is remembered the same with whitespace around it and without.
pub proof fn law_whitespace_around_a_callsign_is_not_remembered(call: Seq<char>)
    ensures
        heard_call(call) == heard_call(trimmed(call)),
        heard_call(call) == upper(bare_spec(trimmed(call))),
{
    law_trimming_twice_is_trimming_once(call);
}

/// An exchange is read wherever its locator's number is one of the locators', and
/// nowhere else, whoever was heard; and what was heard changes only the names in
/// front.
pub proof fn law_an_exchange_is_read_where_its_locator_is_one(
    bits: Seq<u8>,
    calls: Seq<Seq<char>>,
    others: Seq<Seq<char>>,
)
    ensures
        unpacked(bits, calls) is Some <==> field(bits, 49, 25) < 18 * 18 * 10 * 10 * 24 * 24,
        unpacked(bits, calls) is Some ==> exists|to: Seq<char>, from: Seq<char>, rest: Seq<char>|
            unpacked(bits, calls)->0 == #[trigger] (to + seq![' '] + from + rest)
                && to == name_of(first_hashing_to(calls, field(bits, 0, 12), 12))
                && from == name_of(first_hashing_to(calls, field(bits, 12, 22), 22))
                && unpacked(bits, others)->0 == name_of(
                first_hashing_to(others, field(bits, 0, 12), 12),
            ) + seq![' '] + name_of(first_hashing_to(others, field(bits, 12, 22), 22)) + rest,
{
    if field(bits, 49, 25) < GRIDS {
        let to = name_of(first_hashing_to(calls, field(bits, 0, 12), 12));
        let from = name_of(first_hashing_to(calls, field(bits, 12, 22), 22));
        let to2 = name_of(first_hashing_to(others, field(bits, 0, 12), 12));
        let from2 = name_of(first_hashing_to(others, field(bits, 12, 22), 22));
        let rogered = field(bits, 34, 1) == 1;
        let exchange = exchange_text(52 + field(bits, 35, 3), field(bits, 38, 11));
        let grid = grid6_text(field(bits, 49, 25))->0;
        let rest = seq![' '] + (if rogered {
            seq!['R', ' ']
        } else {
            seq![]
        }) + exchange + seq![' '] + grid;
        assert(exchange_message(to, from, rogered, exchange, grid) =~= to + seq![' '] + from + rest);
        assert(exchange_message(to2, from2, rogered, exchange, grid) =~= to2 + seq![' '] + from2
            + rest);
    }
}

/// An exchange is six digits, of which the first two are a report from 52 to 59 and
/// the others the serial number.
pub proof fn law_an_exchange_is_six_digits(tok: Seq<char>)
    ensures
        parsed_exchange(tok) is Some <==> tok.len() == 6 && all_digits(tok) && tok[0] == '5'
            && tok[1] >= '2',
        parsed_exchange(tok) is Some ==> (parsed_exchange(tok)->0).0 == 50 + (tok[1] as int
            - '0' as int),
        parsed_exchange(tok) is Some ==> (parsed_exchange(tok)->0).1 == 1000 * (tok[2] as int
            - '0' as int) + 100 * (tok[3] as int - '0' as int) + 10 * (tok[4] as int - '0' as int)
            + (tok[5] as int - '0' as int),
{
    if tok.len() == 6 && all_digits(tok) {
        assert forall|i: int| 0 <= i < 6 implies is_digit(#[trigger] tok[i]) by {}
        assert(all_digits(tok.take(2)));
        assert(all_digits(tok.skip(2)));
        lemma_two_digits(tok.take(2));
        lemma_four_digits(tok.skip(2));
        assert(is_digit(tok[0]) && is_digit(tok[1]) && is_digit(tok[2]) && is_digit(tok[3])
            && is_digit(tok[4]) && is_digit(tok[5]));
    }
}

} // verus!
