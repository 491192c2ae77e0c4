//! What a received message says: which of the 77-bit layouts it came in, and
//! who it names.
use vstd::prelude::*;
use crate::bits::{field, read_bits};
use crate::eu_vhf::{bare, bare_spec, exchange_message, grid6, is_grid6};
use crate::mfsk::{bracketed, fox_text, grid4, is_alnum, joined3, placeholder};
use crate::text::{
    chars_of, is_digit, is_letter, is_white, lemma_words_first, lemma_words_one, opt_view, same,
    split_words, to_upper, unbroken, upper, upper_char, views, words,
};

verus! {

/// Which of the 77-bit message layouts a decode came from, read straight from
/// the type bits. Guessing this from the text can't work: free text is allowed
/// to look exactly like a standard message ("W1AW RR73" is both a valid
/// free-text string and a valid exchange), so the bits decide.
#[derive(Debug, Clone, Copy, PartialEq, Eq, Structural)]
pub enum MsgKind {
    /// 13 characters of arbitrary text: no addressee, no sender.
    FreeText,
    /// DXpedition (Fox): `CALL1 RR73; CALL2 <fox> REPORT`.
    Fox,
    /// ARRL Field Day: `CALL1 CALL2 [FD]`.
    FieldDay,
    /// The everyday exchange: `<to> <from> <grid|report|RRR|RR73|73>`.
    Standard,
    /// ARRL RTTY Roundup: `[TU; ]<to> <from> [R] RST <state|serial>`.
    RttyRu,
    /// One non-standard (compound or long) callsign plus one hashed one.
    NonStandard,
    /// EU VHF contest: `<to> <from> [R] RSNNNN GRID6`, both calls hashed.
    EuVhf,
    /// A layout that is not read here.
    Other,
}

/// The layout that the two type fields stand for.
pub open spec fn kind_of(i3: nat, n3: nat) -> MsgKind {
    if i3 == 0 && n3 == 0 {
        MsgKind::FreeText
    } else if i3 == 0 && n3 == 1 {
        MsgKind::Fox
    } else if i3 == 0 && (n3 == 3 || n3 == 4) {
        MsgKind::FieldDay
    } else if i3 == 1 || i3 == 2 {
        MsgKind::Standard
    } else if i3 == 3 {
        MsgKind::RttyRu
    } else if i3 == 4 {
        MsgKind::NonStandard
    } else if i3 == 5 {
        MsgKind::EuVhf
    } else {
        MsgKind::Other
    }
}

/// The layout of a message's bits.
pub open spec fn kind_of_bits(bits: Seq<u8>) -> MsgKind {
    kind_of(field(bits, 74, 3), field(bits, 71, 3))
}

/// Read the message-type fields: `i3` from bits 74 to 76 and `n3` from bits 71
/// to 73.
pub fn msg_kind(bits77: &[u8; 77]) -> (r: MsgKind)
    ensures
        r == kind_of_bits(bits77@),
{
    let i3: u32 = read_bits(bits77, 74, 3);
    let n3: u32 = read_bits(bits77, 71, 3);
    if i3 == 0 {
        if n3 == 0 {
            MsgKind::FreeText
        } else if n3 == 1 {
            MsgKind::Fox
        } else if n3 == 3 || n3 == 4 {
            MsgKind::FieldDay
        } else {
            MsgKind::Other
        }
    } else if i3 <= 2 {
        MsgKind::Standard
    } else if i3 == 3 {
        MsgKind::RttyRu
    } else if i3 == 4 {
        MsgKind::NonStandard
    } else if i3 == 5 {
        MsgKind::EuVhf
    } else {
        MsgKind::Other
    }
}

/// The callsign a message token names, if any.
pub open spec fn named_call(tok: Seq<char>) -> Option<Seq<char>> {
    let inner = bare_spec(tok);
    if inner.len() == 0 || inner == "..."@ {
        None
    } else {
        Some(inner)
    }
}

/// The callsign a message token names: `<...>` is a hash nobody has resolved
/// (no callsign at all), `<W1AW>` is a resolved one, anything else is itself.
pub fn call_of(tok: &str) -> (r: Option<String>)
    ensures
        opt_view(r) == named_call(tok@),
{
    let inner: &str = bare(tok);
    if inner.unicode_len() == 0 || same(inner, "...") {
        None
    } else {
        Some(inner.to_owned())
    }
}

/// A four-character locator, which the sign-off `RR73` is not.
pub open spec fn locator(t: Seq<char>) -> bool {
    t != "RR73"@ && grid4(t)
}

/// Whether a token is a four-character locator.
///
/// "RR73" is a sign-off, not a locator, though it is syntactically a valid
/// grid (and would plot at about 83°N/175°E). It is never a position.
pub fn is_grid(t: &str) -> (r: bool)
    ensures
        r == locator(t@),
{
    if same(t, "RR73") {
        return false;
    }
    let u: String = to_upper(t);
    let b: Vec<char> = chars_of(u.as_str());
    proof {
        if t@.len() == 4 {
            assert(b@[0] == upper_char(t@[0]));
            assert(b@[1] == upper_char(t@[1]));
            assert(b@[2] == upper_char(t@[2]));
            assert(b@[3] == upper_char(t@[3]));
        }
    }
    b.len() == 4 && 'A' <= b[0] && b[0] <= 'R' && 'A' <= b[1] && b[1] <= 'R' && '0' <= b[2] && b[2]
        <= '9' && '0' <= b[3] && b[3] <= '9'
}

/// What looks like a callsign: three characters or more, letters, digits and
/// slashes, with a letter and a digit among them.
pub open spec fn callish(t: Seq<char>) -> bool {
    let b = bare_spec(t);
    &&& b.len() >= 3
    &&& exists|i: int| 0 <= i < b.len() && is_digit(#[trigger] b[i])
    &&& exists|i: int| 0 <= i < b.len() && is_letter(#[trigger] b[i])
    &&& forall|i: int| 0 <= i < b.len() ==> is_alnum(#[trigger] b[i]) || b[i] == '/'
}

/// Whether a token looks like a callsign, in brackets or not.
///
/// Letters *and* a digit: a numeric CQ modifier ("CQ 001") is all digits and
/// would otherwise be read as the calling station.
pub fn is_callish(t: &str) -> (r: bool)
    ensures
        r == callish(t@),
{
    let b: Vec<char> = chars_of(bare(t));
    let mut digit: bool = false;
    let mut letter: bool = false;
    let mut i: usize = 0;
    while i < b.len()
        invariant
            i <= b@.len(),
            b@ == bare_spec(t@),
            digit == (exists|k: int| 0 <= k < i && is_digit(#[trigger] b@[k])),
            letter == (exists|k: int| 0 <= k < i && is_letter(#[trigger] b@[k])),
            forall|k: int| 0 <= k < i ==> is_alnum(#[trigger] b@[k]) || b@[k] == '/',
        decreases b@.len() - i,
    {
        let c: char = b[i];
        if '0' <= c && c <= '9' {
            digit = true;
            assert(is_digit(b@[i as int]));
        } else if ('A' <= c && c <= 'Z') || ('a' <= c && c <= 'z') {
            letter = true;
            assert(is_letter(b@[i as int]));
        } else if c != '/' {
            assert(!(is_alnum(b@[i as int]) || b@[i as int] == '/'));
            return false;
        }
        i = i + 1;
    }
    b.len() >= 3 && digit && letter
}

/// The addressing a decoded message carries.
#[derive(Debug, PartialEq)]
pub struct Parsed {
    /// Who the message is for.
    pub to: Option<String>,
    /// Who sent it.
    pub from: Option<String>,
    /// Where the sender is.
    pub grid: Option<String>,
    /// Whether the sender calls anyone who hears.
    pub is_cq: bool,
    /// Who such a call is aimed at, if not at everyone.
    pub cq_to: Option<String>,
    /// Whether the message is free text, which names nobody.
    pub free_text: bool,
    /// Whose contact the message closes beside the one it opens.
    pub rr73_to: Option<String>,
}

/// The addressing a message carries, over its characters.
#[verifier::ext_equal]
pub struct Addressing {
    pub to: Option<Seq<char>>,
    pub from: Option<Seq<char>>,
    pub grid: Option<Seq<char>>,
    pub is_cq: bool,
    pub cq_to: Option<Seq<char>>,
    pub free_text: bool,
    pub rr73_to: Option<Seq<char>>,
}

impl View for Parsed {
    type V = Addressing;

    open spec fn view(&self) -> Addressing {
        Addressing {
            to: opt_view(self.to),
            from: opt_view(self.from),
            grid: opt_view(self.grid),
            is_cq: self.is_cq,
            cq_to: opt_view(self.cq_to),
            free_text: self.free_text,
            rr73_to: opt_view(self.rr73_to),
        }
    }
}

/// A message that names nobody.
pub open spec fn no_addressing() -> Addressing {
    Addressing {
        to: None,
        from: None,
        grid: None,
        is_cq: false,
        cq_to: None,
        free_text: false,
        rr73_to: None,
    }
}

/// Free text, which names nobody.
pub open spec fn free_text_addressing() -> Addressing {
    Addressing { free_text: true, ..no_addressing() }
}

/// The callsign that token `i` names, if there is one.
pub open spec fn call_at(toks: Seq<Seq<char>>, i: int) -> Option<Seq<char>> {
    if i < toks.len() {
        named_call(toks[i])
    } else {
        None
    }
}

/// Token `i`, where it is a four-character locator.
pub open spec fn locator_at(toks: Seq<Seq<char>>, i: int) -> Option<Seq<char>> {
    if 0 <= i < toks.len() && locator(toks[i]) {
        Some(toks[i])
    } else {
        None
    }
}

/// Whether token `i` is the word `w`.
pub open spec fn token_is(toks: Seq<Seq<char>>, i: int, w: Seq<char>) -> bool {
    i < toks.len() && toks[i] == w
}

/// Whether a token is a hash nobody has resolved: it stands for a callsign, and
/// names nobody.
pub open spec fn unresolved(tok: Seq<char>) -> bool {
    tok == placeholder()
}

/// Whether a token stands where a callsign does: one that looks like a callsign,
/// or a hash nobody has resolved.
pub open spec fn stands_for_call(tok: Seq<char>) -> bool {
    callish(tok) || unresolved(tok)
}

/// The first token from `from` on that stands for a callsign, or the number of
/// tokens.
pub open spec fn first_call(toks: Seq<Seq<char>>, from: nat) -> nat
    decreases toks.len() - from,
{
    if from >= toks.len() || stands_for_call(toks[from as int]) {
        from
    } else {
        first_call(toks, from + 1)
    }
}

/// A message's tokens, without the `TU;` that opens an RTTY Roundup exchange.
pub open spec fn message_tokens(text: Seq<char>) -> Seq<Seq<char>> {
    let toks = words(text);
    if token_is(toks, 0, "TU;"@) {
        toks.skip(1)
    } else {
        toks
    }
}

/// A call to anyone: the first token that stands for a callsign is the sender's,
/// and whatever stands right after `CQ` and does not is who it is aimed at.
pub open spec fn cq_addressing(toks: Seq<Seq<char>>) -> Addressing {
    Addressing {
        from: call_at(toks, first_call(toks, 1) as int),
        grid: locator_at(toks, toks.len() - 1),
        is_cq: true,
        cq_to: if toks.len() > 1 && !stands_for_call(toks[1]) {
            Some(upper(toks[1]))
        } else {
            None
        },
        ..no_addressing()
    }
}

/// A DXpedition message: the fox works the third word, and closes the contact
/// with the first.
pub open spec fn fox_addressing(toks: Seq<Seq<char>>) -> Addressing {
    Addressing {
        to: call_at(toks, 2),
        from: call_at(toks, 3),
        rr73_to: call_at(toks, 0),
        ..no_addressing()
    }
}

/// A contest exchange: its locator has six characters and comes last.
pub open spec fn eu_vhf_addressing(toks: Seq<Seq<char>>) -> Addressing {
    Addressing {
        to: call_at(toks, 0),
        from: call_at(toks, 1),
        grid: if grid6(toks.last()) {
            Some(toks.last())
        } else {
            None
        },
        ..no_addressing()
    }
}

/// The everyday message: addressee, sender, then perhaps a locator, which may
/// be rogered.
pub open spec fn plain_addressing(toks: Seq<Seq<char>>) -> Addressing {
    Addressing {
        to: call_at(toks, 0),
        from: call_at(toks, 1),
        grid: if token_is(toks, 2, "R"@) {
            locator_at(toks, 3)
        } else {
            locator_at(toks, 2)
        },
        ..no_addressing()
    }
}

/// Who a message of a given layout names.
pub open spec fn addressing(text: Seq<char>, kind: MsgKind) -> Addressing {
    let toks = message_tokens(text);
    if kind == MsgKind::FreeText {
        free_text_addressing()
    } else if toks.len() == 0 {
        no_addressing()
    } else if toks[0] == "CQ"@ {
        cq_addressing(toks)
    } else if token_is(toks, 1, "RR73;"@) {
        fox_addressing(toks)
    } else if kind == MsgKind::EuVhf {
        eu_vhf_addressing(toks)
    } else {
        plain_addressing(toks)
    }
}

impl Default for Parsed {
    /// A message that names nobody.
    fn default() -> (r: Self)
        ensures
            r@ == no_addressing(),
    {
        Parsed {
            to: None,
            from: None,
            grid: None,
            is_cq: false,
            cq_to: None,
            free_text: false,
            rr73_to: None,
        }
    }
}

/// The callsign that token `i` names, if there is one.
fn call_of_token(toks: &Vec<String>, i: usize) -> (r: Option<String>)
    ensures
        opt_view(r) == call_at(views(toks@), i as int),
{
    if i < toks.len() {
        call_of(toks[i].as_str())
    } else {
        None
    }
}

/// Token `i`, where it is a four-character locator.
fn grid_of_token(toks: &Vec<String>, i: usize) -> (r: Option<String>)
    ensures
        opt_view(r) == locator_at(views(toks@), i as int),
{
    if i < toks.len() && is_grid(toks[i].as_str()) {
        Some(toks[i].as_str().to_owned())
    } else {
        None
    }
}

/// Whether token `i` is the word `w`.
fn is_token(toks: &Vec<String>, i: usize, w: &str) -> (r: bool)
    ensures
        r == token_is(views(toks@), i as int, w@),
{
    i < toks.len() && same(toks[i].as_str(), w)
}

/// Whether a token stands where a callsign does.
fn is_call_token(tok: &str) -> (r: bool)
    ensures
        r == stands_for_call(tok@),
{
    proof {
        reveal_strlit("<...>");
        assert("<...>"@ =~= placeholder());
    }
    is_callish(tok) || same(tok, "<...>")
}

/// The sender of a CQ: the first token after it that stands for a callsign, if
/// that names one.
fn cq_sender(toks: &Vec<String>) -> (r: Option<String>)
    requires
        toks@.len() > 0,
    ensures
        opt_view(r) == call_at(views(toks@), first_call(views(toks@), 1) as int),
{
    let mut i: usize = 1;
    while i < toks.len() && !is_call_token(toks[i].as_str())
        invariant
            1 <= i <= toks@.len(),
            first_call(views(toks@), 1) == first_call(views(toks@), i as nat),
        decreases toks@.len() - i,
    {
        i = i + 1;
    }
    call_of_token(toks, i)
}

/// Pull the addressee, sender and grid out of a decoded message.
///
/// Every layout except free text is `<to> <from> [payload…]` once its
/// decorations are stripped; the kind (from the type bits, never guessed from
/// the text) decides which decorations to strip and whether there is any
/// addressing at all.
pub fn parse_message(text: &str, kind: MsgKind) -> (r: Parsed)
    ensures
        r@ == addressing(text@, kind),
{
    // Free text carries no addressing, however much it may look like it does.
    if kind == MsgKind::FreeText {
        return Parsed { free_text: true, ..Parsed::default() };
    }
    let mut toks: Vec<String> = split_words(text);
    // "TU; " opens an ARRL RTTY Roundup exchange; the rest is ordinary.
    if is_token(&toks, 0, "TU;") {
        let ghost all = toks@;
        let _ = toks.remove(0);
        assert(views(toks@) =~= views(all).skip(1));
    }
    assert(views(toks@) == message_tokens(text@));
    if toks.len() == 0 {
        return Parsed::default();
    }
    let n: usize = toks.len();

    // A CQ names only its sender: "CQ [DX|EU|JA|POTA…] <from> [grid]". A hash
    // nobody has resolved is in the sender's place, and is no modifier.
    if is_token(&toks, 0, "CQ") {
        return Parsed {
            from: cq_sender(&toks),
            grid: grid_of_token(&toks, n - 1),
            is_cq: true,
            cq_to: if n > 1 && !is_call_token(toks[1].as_str()) {
                Some(to_upper(toks[1].as_str()))
            } else {
                None
            },
            ..Parsed::default()
        };
    }

    // DXpedition (Fox): "CALL1 RR73; CALL2 <fox> REPORT". Read it as the fox
    // addressing CALL2, and carry CALL1's RR73 alongside: it is the only thing
    // that tells a Hound its own contact just completed.
    if is_token(&toks, 1, "RR73;") {
        return Parsed {
            to: call_of_token(&toks, 2),
            from: call_of_token(&toks, 3),
            rr73_to: call_of_token(&toks, 0),
            ..Parsed::default()
        };
    }

    // The EU VHF contest exchange: "<TO> <FROM> [R] 590003 JO22DB". Its locator
    // is the six-character one and sits at the end.
    if kind == MsgKind::EuVhf {
        let last: &String = &toks[n - 1];
        return Parsed {
            to: call_of_token(&toks, 0),
            from: call_of_token(&toks, 1),
            grid: if is_grid6(last.as_str()) {
                Some(last.as_str().to_owned())
            } else {
                None
            },
            ..Parsed::default()
        };
    }

    // The other layouts put the addressee first and the sender second. A grid
    // can arrive bare ("FN42") or rogered ("R FN42").
    Parsed {
        to: call_of_token(&toks, 0),
        from: call_of_token(&toks, 1),
        grid: if is_token(&toks, 2, "R") {
            grid_of_token(&toks, 3)
        } else {
            grid_of_token(&toks, 2)
        },
        ..Parsed::default()
    }
}

/// Whether a callsign that may be missing looks like one.
pub open spec fn missing_or_callish(c: Option<Seq<char>>) -> bool {
    c is Some ==> callish(c->0)
}

/// Who a message that comes as text alone names.
pub open spec fn text_addressing(text: Seq<char>) -> Addressing {
    let p = addressing(text, MsgKind::Standard);
    if missing_or_callish(p.to) && missing_or_callish(p.from) {
        p
    } else {
        free_text_addressing()
    }
}

/// Whether a callsign that may be missing looks like one.
fn names_a_station(c: &Option<String>) -> (r: bool)
    ensures
        r == missing_or_callish(opt_view(*c)),
{
    match c {
        Some(s) => is_callish(s.as_str()),
        None => true,
    }
}

/// Addressing for a decode that arrives as text alone.
///
/// Without message-type bits there is nothing to say whether a row is a
/// standard `<to> <from> <grid|report>` or free text. It is read as a standard
/// message and kept as one only when the addressee and the sender it names look
/// like callsigns; anything else is free text and names nobody. Without that,
/// `TNX 73 GL` reads as a message from "73", which goes on the map as a station
/// heard.
pub fn parse_text_decode(text: &str) -> (r: Parsed)
    ensures
        r@ == text_addressing(text@),
{
    let p: Parsed = parse_message(text, MsgKind::Standard);
    if names_a_station(&p.to) && names_a_station(&p.from) {
        p
    } else {
        Parsed { free_text: true, ..Parsed::default() }
    }
}

// ── What holds of the whole ─────────────────────────────────────────────────

/// Free text names nobody, whatever it looks like; and no other layout is read
/// as free text.
pub proof fn law_free_text_names_nobody(text: Seq<char>, kind: MsgKind)
    ensures
        addressing(text, kind).free_text == (kind == MsgKind::FreeText),
        kind == MsgKind::FreeText ==> addressing(text, kind) == free_text_addressing(),
{
}

/// A message that comes as text alone is to and from nothing but what looks like
/// a callsign, and where it is taken for free text it names nobody at all.
pub proof fn law_text_alone_names_only_callsigns(text: Seq<char>)
    ensures
        missing_or_callish(text_addressing(text).to),
        missing_or_callish(text_addressing(text).from),
        text_addressing(text).free_text ==> text_addressing(text) == free_text_addressing(),
{
}

/// A sign-off is never a position, and an unresolved hash never a station: no
/// message of any layout gives `RR73` as the sender's locator, `...` as a
/// callsign, or `<...>` as who a call is aimed at.
pub proof fn law_no_message_names_a_placeholder(text: Seq<char>, kind: MsgKind)
    ensures
        addressing(text, kind).grid != Some("RR73"@),
        addressing(text, kind).to != Some("..."@),
        addressing(text, kind).from != Some("..."@),
        addressing(text, kind).rr73_to != Some("..."@),
        addressing(text, kind).cq_to != Some(placeholder()),
{
    reveal_strlit("RR73");
    reveal_strlit("...");
    let toks = message_tokens(text);
    if addressing(text, kind).cq_to is Some {
        lemma_upper_keeps_placeholder(toks[1]);
    }
}

/// Making a token upper-case makes no placeholder of it.
proof fn lemma_upper_keeps_placeholder(tok: Seq<char>)
    requires
        !unresolved(tok),
    ensures
        upper(tok) != placeholder(),
{
    assert(upper(tok).len() == tok.len());
    assert forall|i: int| 0 <= i < tok.len() implies upper(tok)[i] == upper_char(
        #[trigger] tok[i],
    ) by {}
    if upper(tok) == placeholder() {
        assert(upper_char(tok[0]) == '<' && upper_char(tok[1]) == '.' && upper_char(tok[2]) == '.'
            && upper_char(tok[3]) == '.' && upper_char(tok[4]) == '>');
        assert(tok =~= placeholder());
    }
}

/// An unresolved hash names nobody, and a resolved one the callsign in it.
pub proof fn law_an_unresolved_hash_names_nobody(call: Seq<char>)
    ensures
        named_call(placeholder()) is None,
        call.len() > 0 && call != "..."@ ==> named_call(bracketed(call)) == Some(call),
{
    reveal_strlit("...");
    assert(bare_spec(placeholder()) =~= "..."@);
    assert(bare_spec(bracketed(call)) =~= call);
}

/// A call to anyone has no addressee.
pub proof fn law_cq_has_no_addressee(text: Seq<char>, kind: MsgKind)
    ensures
        addressing(text, kind).is_cq ==> addressing(text, kind).to is None,
{
}

/// A contest exchange names both stations and the six-character locator, where
/// the callsigns it was written with are single words.
pub proof fn law_exchange_names_both_stations(
    to: Seq<char>,
    from: Seq<char>,
    rogered: bool,
    exchange: Seq<char>,
    grid: Seq<char>,
)
    requires
        forall|i: int| 0 <= i < to.len() ==> !is_white(#[trigger] to[i]),
        forall|i: int| 0 <= i < from.len() ==> !is_white(#[trigger] from[i]),
        forall|i: int| 0 <= i < exchange.len() ==> !is_white(#[trigger] exchange[i]),
        to.len() > 0 && to != "..."@,
        from.len() > 0 && from != "..."@,
        exchange.len() > 0,
        grid6(grid),
    ensures
        addressing(
            exchange_message(bracketed(to), bracketed(from), rogered, exchange, grid),
            MsgKind::EuVhf,
        ) == (Addressing {
            to: Some(to),
            from: Some(from),
            grid: Some(grid),
            ..no_addressing()
        }),
{
    let text = exchange_message(bracketed(to), bracketed(from), rogered, exchange, grid);
    let tail = exchange + seq![' '] + grid;
    let mid = if rogered {
        seq!['R'] + seq![' '] + tail
    } else {
        tail
    };
    let rest = bracketed(from) + seq![' '] + mid;
    assert(text =~= bracketed(to) + seq![' '] + rest);
    lemma_words_first(bracketed(to), rest);
    lemma_words_first(bracketed(from), mid);
    if rogered {
        lemma_words_first(seq!['R'], tail);
    }
    lemma_words_first(exchange, grid);
    lemma_words_one(grid);
    reveal_strlit("TU;");
    reveal_strlit("CQ");
    reveal_strlit("RR73;");
    assert(bare_spec(bracketed(to)) =~= to);
    assert(bare_spec(bracketed(from)) =~= from);
    let toks = words(text);
    assert(toks[0] == bracketed(to));
    assert(toks[1] == bracketed(from));
    assert(toks.last() == grid);
}

/// One word of a message: not empty, and without whitespace.
pub open spec fn is_word(w: Seq<char>) -> bool {
    w.len() > 0 && unbroken(w)
}

/// The words of two or three joined with spaces.
pub proof fn lemma_words_joined(a: Seq<char>, b: Seq<char>, c: Seq<char>)
    requires
        is_word(a),
        is_word(b),
        unbroken(c),
    ensures
        words(joined3(a, b, c)) == (if c.len() > 0 {
            seq![a, b, c]
        } else {
            seq![a, b]
        }),
{
    lemma_words_one(b);
    if c.len() > 0 {
        lemma_words_one(c);
        lemma_words_first(b, c);
        lemma_words_first(a, b + seq![' '] + c);
        assert(joined3(a, b, c) =~= a + seq![' '] + (b + seq![' '] + c));
        assert(words(joined3(a, b, c)) =~= seq![a, b, c]);
    } else {
        lemma_words_first(a, b);
        assert(words(joined3(a, b, c)) =~= seq![a, b]);
    }
}

/// An everyday message names its addressee first and its sender second, and its
/// payload is where the sender is, where it is a locator.
pub proof fn law_an_everyday_message_names_both_stations(
    to: Seq<char>,
    from: Seq<char>,
    payload: Seq<char>,
    kind: MsgKind,
)
    requires
        is_word(to),
        is_word(from),
        unbroken(payload),
        to != "CQ"@ && to != "TU;"@,
        from != "RR73;"@,
        payload != "R"@,
        kind == MsgKind::Standard || kind == MsgKind::NonStandard,
    ensures
        addressing(joined3(to, from, payload), kind) == (Addressing {
            to: named_call(to),
            from: named_call(from),
            grid: if locator(payload) {
                Some(payload)
            } else {
                None
            },
            ..no_addressing()
        }),
{
    lemma_words_joined(to, from, payload);
}

/// A CQ names its sender, and who it is aimed at where it is aimed at anyone.
pub proof fn law_a_cq_names_its_sender(
    modifier: Option<Seq<char>>,
    call: Seq<char>,
    payload: Seq<char>,
    kind: MsgKind,
)
    requires
        is_word(call),
        callish(call),
        unbroken(payload),
        modifier is Some ==> is_word(modifier->0) && !stands_for_call(modifier->0),
        kind != MsgKind::FreeText,
    ensures
        addressing(
            joined3(
                match modifier {
                    Some(m) => "CQ "@ + m,
                    None => "CQ"@,
                },
                call,
                payload,
            ),
            kind,
        ) == (Addressing {
            from: named_call(call),
            is_cq: true,
            cq_to: match modifier {
                Some(m) => Some(upper(m)),
                None => None,
            },
            grid: if locator(payload) {
                Some(payload)
            } else if payload.len() == 0 && locator(call) {
                Some(call)
            } else {
                None
            },
            ..no_addressing()
        }),
{
    reveal_strlit("CQ");
    reveal_strlit("CQ ");
    reveal_strlit("TU;");
    reveal_with_fuel(first_call, 3);
    match modifier {
        Some(m) => {
            let text = joined3("CQ "@ + m, call, payload);
            let rest = joined3(m, call, payload);
            lemma_words_joined(m, call, payload);
            assert(text =~= "CQ"@ + seq![' '] + rest);
            lemma_words_first("CQ"@, rest);
            assert(words(text) =~= seq!["CQ"@] + words(rest));
        },
        None => {
            lemma_words_joined("CQ"@, call, payload);
        },
    }
}

/// A CQ by a hash that nobody has resolved names no sender, whatever follows it,
/// and is aimed at nobody but its modifier.
pub proof fn law_a_cq_by_an_unresolved_hash_has_no_sender(
    modifier: Option<Seq<char>>,
    payload: Seq<char>,
    kind: MsgKind,
)
    requires
        unbroken(payload),
        modifier is Some ==> is_word(modifier->0) && !stands_for_call(modifier->0),
        kind != MsgKind::FreeText,
    ensures
        addressing(
            joined3(
                match modifier {
                    Some(m) => "CQ "@ + m,
                    None => "CQ"@,
                },
                placeholder(),
                payload,
            ),
            kind,
        ) == (Addressing {
            is_cq: true,
            cq_to: match modifier {
                Some(m) => Some(upper(m)),
                None => None,
            },
            grid: if locator(payload) {
                Some(payload)
            } else {
                None
            },
            ..no_addressing()
        }),
{
    reveal_strlit("CQ");
    reveal_strlit("CQ ");
    reveal_strlit("TU;");
    reveal_strlit("...");
    reveal_with_fuel(first_call, 3);
    assert(bare_spec(placeholder()) =~= "..."@);
    match modifier {
        Some(m) => {
            let text = joined3("CQ "@ + m, placeholder(), payload);
            let rest = joined3(m, placeholder(), payload);
            lemma_words_joined(m, placeholder(), payload);
            assert(text =~= "CQ"@ + seq![' '] + rest);
            lemma_words_first("CQ"@, rest);
            assert(words(text) =~= seq!["CQ"@] + words(rest));
        },
        None => {
            lemma_words_joined("CQ"@, placeholder(), payload);
        },
    }
}

/// A DXpedition message names the fox as its sender, the station it works as
/// its addressee, and the station whose contact it closes.
pub proof fn law_a_fox_message_names_three_stations(
    rr73_call: Seq<char>,
    work_call: Seq<char>,
    fox: Seq<char>,
    report: Seq<char>,
)
    requires
        is_word(rr73_call),
        is_word(work_call),
        is_word(fox) && fox != "..."@,
        is_word(report),
        rr73_call != "CQ"@ && rr73_call != "TU;"@,
    ensures
        addressing(fox_text(rr73_call, work_call, bracketed(fox), report), MsgKind::Fox) == (
        Addressing {
            to: named_call(work_call),
            from: Some(fox),
            rr73_to: named_call(rr73_call),
            ..no_addressing()
        }),
{
    reveal_strlit(" RR73; ");
    reveal_strlit("RR73;");
    let text = fox_text(rr73_call, work_call, bracketed(fox), report);
    let t3 = bracketed(fox) + seq![' '] + report;
    let t2 = work_call + seq![' '] + t3;
    let t1 = "RR73;"@ + seq![' '] + t2;
    assert(text =~= rr73_call + seq![' '] + t1);
    lemma_words_first(rr73_call, t1);
    lemma_words_first("RR73;"@, t2);
    lemma_words_first(work_call, t3);
    lemma_words_first(bracketed(fox), report);
    lemma_words_one(report);
    assert(bare_spec(bracketed(fox)) =~= fox);
    let toks = words(text);
    assert(toks[0] == rr73_call);
    assert(toks[1] == "RR73;"@);
    assert(toks[2] == work_call);
    assert(toks[3] == bracketed(fox));
}

/// The type bits say the layout, each its own.
pub proof fn law_the_type_bits_say_the_layout(bits: Seq<u8>)
    ensures
        ({
            let k = kind_of_bits(bits);
            let i3 = field(bits, 74, 3);
            let n3 = field(bits, 71, 3);
            &&& k == MsgKind::FreeText <==> i3 == 0 && n3 == 0
            &&& k == MsgKind::Fox <==> i3 == 0 && n3 == 1
            &&& k == MsgKind::FieldDay <==> i3 == 0 && (n3 == 3 || n3 == 4)
            &&& k == MsgKind::Standard <==> i3 == 1 || i3 == 2
            &&& k == MsgKind::RttyRu <==> i3 == 3
            &&& k == MsgKind::NonStandard <==> i3 == 4
            &&& k == MsgKind::EuVhf <==> i3 == 5
        }),
{
}

/// A word without brackets names itself, unless it is the dots of a hash that
/// nobody has resolved.
pub proof fn law_a_word_names_itself(w: Seq<char>)
    requires
        w.len() > 0,
        w[0] != '<' || w.last() != '>',
    ensures
        w != "..."@ ==> named_call(w) == Some(w),
        w == "..."@ ==> named_call(w) is None,
{
}

/// What looks like a callsign: at least three letters, digits and slashes, of
/// which at least one is a letter and one a digit, in brackets or not.
pub proof fn law_what_looks_like_a_callsign(w: Seq<char>, i: int, j: int)
    requires
        0 <= i < w.len() && '0' <= w[i] <= '9',
        0 <= j < w.len() && ('A' <= w[j] <= 'Z' || 'a' <= w[j] <= 'z'),
        w[0] != '<',
    ensures
        callish(bracketed(w)) == callish(w),
        callish(w) <==> w.len() >= 3 && forall|k: int|
            0 <= k < w.len() ==> {
                let c = #[trigger] w[k];
                'A' <= c <= 'Z' || 'a' <= c <= 'z' || '0' <= c <= '9' || c == '/'
            },
{
    assert(is_digit(w[i]) && is_letter(w[j]));
    assert(bare_spec(bracketed(w)) =~= w);
    assert(bare_spec(w) == w);
}

/// What has no letter, or no digit, is no callsign.
pub proof fn law_a_callsign_has_a_letter_and_a_digit(w: Seq<char>)
    requires
        callish(w),
    ensures
        exists|i: int| 0 <= i < w.len() && '0' <= #[trigger] w[i] <= '9',
        exists|i: int|
            0 <= i < w.len() && ('A' <= #[trigger] w[i] <= 'Z' || 'a' <= w[i] <= 'z'),
{
    let b = bare_spec(w);
    let i = choose|i: int| 0 <= i < b.len() && is_digit(#[trigger] b[i]);
    let j = choose|i: int| 0 <= i < b.len() && is_letter(#[trigger] b[i]);
    if b == w {
        assert('0' <= w[i] <= '9');
        assert('A' <= w[j] <= 'Z' || 'a' <= w[j] <= 'z');
    } else {
        assert('0' <= w[i + 1] <= '9');
        assert('A' <= w[j + 1] <= 'Z' || 'a' <= w[j + 1] <= 'z');
    }
}

/// Every four-character locator is one but the sign-off, whatever the case of its
/// letters.
pub proof fn law_every_locator_is_one_but_the_sign_off(t: Seq<char>)
    ensures
        locator(t) <==> t.len() == 4 && ('A' <= t[0] <= 'R' || 'a' <= t[0] <= 'r') && ('A' <= t[1]
            <= 'R' || 'a' <= t[1] <= 'r') && '0' <= t[2] <= '9' && '0' <= t[3] <= '9' && t
            != "RR73"@,
{
}

/// The `TU;` in front of a message changes nothing of what it says.
pub proof fn law_thanks_in_front_change_nothing(text: Seq<char>, thanked: Seq<char>, kind: MsgKind)
    requires
        words(thanked) == seq!["TU;"@] + words(text),
        words(text).len() == 0 || words(text)[0] != "TU;"@,
    ensures
        addressing(thanked, kind) == addressing(text, kind),
{
    assert(words(thanked).skip(1) =~= words(text));
}

/// A message of any layout but free text, which is no CQ and closes no other
/// contact, names its addressee first and its sender second, whatever follows;
/// and the sender's locator right after them, or after the `R` that rogers it,
/// where the layout is not the contest exchange's.
pub proof fn law_every_layout_names_its_stations_in_order(
    text: Seq<char>,
    kind: MsgKind,
    toks: Seq<Seq<char>>,
)
    requires
        words(text) == toks,
        toks.len() > 0 && toks[0] != "CQ"@ && toks[0] != "TU;"@,
        toks.len() > 1 ==> toks[1] != "RR73;"@,
        kind != MsgKind::FreeText,
    ensures
        ({
            let a = addressing(text, kind);
            &&& a.to == named_call(toks[0])
            &&& toks.len() > 1 ==> a.from == named_call(toks[1])
            &&& toks.len() == 1 ==> a.from is None
            &&& !a.is_cq && !a.free_text && a.cq_to is None && a.rr73_to is None
            &&& kind != MsgKind::EuVhf && toks.len() <= 2 ==> a.grid is None
            &&& kind != MsgKind::EuVhf && toks.len() == 3 && toks[2] == "R"@ ==> a.grid is None
            &&& kind != MsgKind::EuVhf && toks.len() >= 3 && toks[2] != "R"@ ==> a.grid == (
            if locator(toks[2]) {
                Some(toks[2])
            } else {
                None
            })
            &&& kind != MsgKind::EuVhf && toks.len() >= 4 && toks[2] == "R"@ ==> a.grid == (
            if locator(toks[3]) {
                Some(toks[3])
            } else {
                None
            })
            &&& kind == MsgKind::EuVhf ==> a.grid == (if grid6(toks.last()) {
                Some(toks.last())
            } else {
                None
            })
        }),
{
}

/// A CQ names as its sender the first word after `CQ` that stands for a callsign,
/// however many come before it, as who it is aimed at the word right after `CQ`
/// where that is none, and as its locator the last word where that is one.
pub proof fn law_a_cq_is_by_the_first_callsign_in_it(
    text: Seq<char>,
    kind: MsgKind,
    toks: Seq<Seq<char>>,
    k: int,
)
    requires
        words(text) == toks,
        1 <= k < toks.len() && toks[0] == "CQ"@,
        callish(toks[k]) || toks[k] == placeholder(),
        forall|j: int| 1 <= j < k ==> !callish(#[trigger] toks[j]) && toks[j] != placeholder(),
        kind != MsgKind::FreeText,
    ensures
        ({
            let a = addressing(text, kind);
            &&& a.is_cq && a.to is None && a.rr73_to is None && !a.free_text
            &&& a.from == named_call(toks[k])
            &&& k == 1 ==> a.cq_to is None
            &&& k > 1 ==> a.cq_to == Some(upper(toks[1]))
            &&& a.grid == (if locator(toks.last()) {
                Some(toks.last())
            } else {
                None
            })
        }),
{
    reveal_strlit("CQ");
    reveal_strlit("TU;");
    assert(toks[0][0] != "TU;"@[0]);
    lemma_first_call(toks, 1, k as nat);
}

/// The first word that stands for a callsign is the one that is found.
proof fn lemma_first_call(toks: Seq<Seq<char>>, from: nat, k: nat)
    requires
        from <= k < toks.len(),
        stands_for_call(toks[k as int]),
        forall|j: int| from <= j < k ==> !stands_for_call(#[trigger] toks[j]),
    ensures
        first_call(toks, from) == k,
    decreases k - from,
{
    if from < k {
        lemma_first_call(toks, from + 1, k);
    }
}

/// A DXpedition message is to the station it works, from the fox, and closes the
/// contact with the first, in whatever layout it comes but free text.
pub proof fn law_a_closing_message_is_told_by_its_second_word(
    text: Seq<char>,
    kind: MsgKind,
    toks: Seq<Seq<char>>,
)
    requires
        words(text) == toks,
        toks.len() >= 2 && toks[1] == "RR73;"@ && toks[0] != "CQ"@ && toks[0] != "TU;"@,
        kind != MsgKind::FreeText,
    ensures
        ({
            let a = addressing(text, kind);
            &&& a.rr73_to == named_call(toks[0])
            &&& toks.len() > 2 ==> a.to == named_call(toks[2])
            &&& toks.len() > 3 ==> a.from == named_call(toks[3])
            &&& toks.len() <= 2 ==> a.to is None
            &&& toks.len() <= 3 ==> a.from is None
            &&& !a.is_cq && a.grid is None && a.cq_to is None
        }),
{
}

/// A message that comes as text alone is read as an everyday one where the
/// addressee and the sender that it names look like callsigns, and is free text
/// where either does not.
pub proof fn law_text_alone_is_kept_where_it_names_callsigns(text: Seq<char>)
    ensures
        ({
            let a = addressing(text, MsgKind::Standard);
            let named = (a.to is None || callish(a.to->0)) && (a.from is None || callish(
                a.from->0,
            ));
            &&& named ==> text_addressing(text) == a
            &&& !named ==> text_addressing(text).free_text && text_addressing(text).to is None
                && text_addressing(text).from is None && text_addressing(text).grid is None
                && !text_addressing(text).is_cq
        }),
{
}

/// What is said of a parsed message over its characters is what it holds.
pub proof fn law_a_parsed_message_is_seen_as_it_is(p: Parsed)
    ensures
        p@.to == opt_view(p.to) && p@.from == opt_view(p.from) && p@.grid == opt_view(p.grid),
        p@.cq_to == opt_view(p.cq_to) && p@.rr73_to == opt_view(p.rr73_to),
        p@.is_cq == p.is_cq && p@.free_text == p.free_text,
        no_addressing().to is None && no_addressing().from is None && no_addressing().grid is None,
        !no_addressing().is_cq && !no_addressing().free_text && no_addressing().cq_to is None,
        no_addressing().rr73_to is None,
        free_text_addressing() == (Addressing { free_text: true, ..no_addressing() }),
{
}

/// A CQ that names no callsign has no sender, and is aimed at the word right after
/// `CQ`, if there is one; a message without a word names nobody.
pub proof fn law_a_cq_without_a_callsign_has_no_sender(
    text: Seq<char>,
    kind: MsgKind,
    toks: Seq<Seq<char>>,
)
    requires
        words(text) == toks,
        toks.len() > 0 ==> toks[0] == "CQ"@,
        forall|j: int| 1 <= j < toks.len() ==> !callish(#[trigger] toks[j]) && toks[j]
            != placeholder(),
        kind != MsgKind::FreeText,
    ensures
        ({
            let a = addressing(text, kind);
            &&& a.from is None && a.to is None && a.rr73_to is None && !a.free_text
            &&& a.is_cq <==> toks.len() > 0
            &&& toks.len() <= 1 ==> a.cq_to is None && a.grid is None
            &&& toks.len() > 1 ==> a.cq_to == Some(upper(toks[1]))
            &&& toks.len() > 1 ==> a.grid == (if locator(toks.last()) {
                Some(toks.last())
            } else {
                None
            })
        }),
{
    reveal_strlit("CQ");
    reveal_strlit("TU;");
    if toks.len() > 0 {
        assert(toks[0][0] != "TU;"@[0]);
        lemma_no_call(toks, 1);
    }
}

/// Where no word stands for a callsign, none is found.
proof fn lemma_no_call(toks: Seq<Seq<char>>, from: nat)
    requires
        forall|j: int| from <= j < toks.len() ==> !stands_for_call(#[trigger] toks[j]),
    ensures
        first_call(toks, from) >= toks.len(),
    decreases toks.len() - from,
{
    if from < toks.len() {
        lemma_no_call(toks, from + 1);
    }
}

} // verus!
