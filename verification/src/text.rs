//! Text as the message layouts read it: whitespace, words, ASCII case and
//! decimal numbers, each stated over the characters of a string.
use vstd::prelude::*;

verus! {

/// Appending a character to a `String` puts it after what was there
/// (`std::string::String::push`).
pub assume_specification[ String::push ](s: &mut String, c: char)
    ensures
        final(s)@ == old(s)@.push(c),
;

/// The characters with Unicode's `White_Space` property, which is what
/// `trim` and `split_whitespace` go by.
pub open spec fn is_white_spec(c: char) -> bool {
    ||| '\u{9}' <= c <= '\u{d}'
    ||| c == ' '
    ||| c == '\u{85}'
    ||| c == '\u{a0}'
    ||| c == '\u{1680}'
    ||| '\u{2000}' <= c <= '\u{200a}'
    ||| c == '\u{2028}'
    ||| c == '\u{2029}'
    ||| c == '\u{202f}'
    ||| c == '\u{205f}'
    ||| c == '\u{3000}'
}

/// Whether `c` separates words.
#[verifier::when_used_as_spec(is_white_spec)]
pub fn is_white(c: char) -> (r: bool)
    ensures
        r == is_white_spec(c),
{
    ('\u{9}' <= c && c <= '\u{d}') || c == ' ' || c == '\u{85}' || c == '\u{a0}' || c == '\u{1680}'
        || ('\u{2000}' <= c && c <= '\u{200a}') || c == '\u{2028}' || c == '\u{2029}' || c
        == '\u{202f}' || c == '\u{205f}' || c == '\u{3000}'
}

/// `0` to `9`.
pub open spec fn is_digit(c: char) -> bool {
    '0' <= c <= '9'
}

/// `A` to `Z`.
pub open spec fn is_upper(c: char) -> bool {
    'A' <= c <= 'Z'
}

/// `a` to `z`.
pub open spec fn is_lower(c: char) -> bool {
    'a' <= c <= 'z'
}

/// An ASCII letter of either case.
pub open spec fn is_letter(c: char) -> bool {
    is_upper(c) || is_lower(c)
}

/// `c` with an ASCII lower-case letter made upper-case.
pub open spec fn upper_char(c: char) -> char {
    if is_lower(c) {
        ((c as u8 - 32) as u8) as char
    } else {
        c
    }
}

/// Every ASCII lower-case letter of `s` made upper-case, the rest kept.
pub open spec fn upper(s: Seq<char>) -> Seq<char> {
    s.map_values(|c: char| upper_char(c))
}

/// `s` without the whitespace it starts with.
pub open spec fn trim_start(s: Seq<char>) -> Seq<char>
    decreases s.len(),
{
    if s.len() > 0 && is_white(s[0]) {
        trim_start(s.skip(1))
    } else {
        s
    }
}

/// `s` without the whitespace it ends in.
pub open spec fn trim_end(s: Seq<char>) -> Seq<char>
    decreases s.len(),
{
    if s.len() > 0 && is_white(s.last()) {
        trim_end(s.drop_last())
    } else {
        s
    }
}

/// `s` without the whitespace at either end.
pub open spec fn trimmed(s: Seq<char>) -> Seq<char> {
    trim_end(trim_start(s))
}

/// How many characters stand before the first whitespace.
pub open spec fn word_len(s: Seq<char>) -> nat
    decreases s.len(),
{
    if s.len() == 0 || is_white(s[0]) {
        0
    } else {
        1 + word_len(s.skip(1))
    }
}

/// The words of `s`: its longest runs without whitespace, in order.
pub open spec fn words(s: Seq<char>) -> Seq<Seq<char>>
    decreases s.len(),
{
    if s.len() == 0 {
        Seq::empty()
    } else if is_white(s[0]) {
        words(s.skip(1))
    } else {
        proof {
            lemma_word_len(s);
        }
        seq![s.take(word_len(s) as int)] + words(s.skip(word_len(s) as int))
    }
}

/// The first word ends inside the text, and is a run without whitespace that
/// whitespace or the end of the text follows.
pub proof fn lemma_word_len(s: Seq<char>)
    ensures
        word_len(s) <= s.len(),
        forall|i: int| 0 <= i < word_len(s) ==> !is_white(#[trigger] s[i]),
        word_len(s) < s.len() ==> is_white(s[word_len(s) as int]),
    decreases s.len(),
{
    if s.len() > 0 && !is_white(s[0]) {
        lemma_word_len(s.skip(1));
        assert forall|i: int| 0 <= i < word_len(s) implies !is_white(#[trigger] s[i]) by {
            if i > 0 {
                assert(s[i] == s.skip(1)[i - 1]);
            }
        }
    }
}

/// A first word that is known is the one that is found.
proof fn lemma_word_len_is(s: Seq<char>, n: nat)
    requires
        n <= s.len(),
        forall|i: int| 0 <= i < n ==> !is_white(#[trigger] s[i]),
        n < s.len() ==> is_white(s[n as int]),
    ensures
        word_len(s) == n,
{
    lemma_word_len(s);
    let w = word_len(s);
    if w < n {
        assert(!is_white(s[w as int]));
    } else if n < w {
        assert(!is_white(s[n as int]));
    }
}

/// A text that is one word.
pub proof fn lemma_words_one(w: Seq<char>)
    requires
        w.len() > 0,
        forall|i: int| 0 <= i < w.len() ==> !is_white(#[trigger] w[i]),
    ensures
        words(w) == seq![w],
{
    lemma_word_len_is(w, w.len());
    assert(w.take(w.len() as int) =~= w);
    assert(w.skip(w.len() as int) =~= Seq::empty());
    assert(words(w.skip(w.len() as int)) =~= Seq::empty());
    assert(words(w) =~= seq![w]);
}

/// A word, a space and more text: the word comes first.
pub proof fn lemma_words_first(w: Seq<char>, rest: Seq<char>)
    requires
        w.len() > 0,
        forall|i: int| 0 <= i < w.len() ==> !is_white(#[trigger] w[i]),
    ensures
        words(w + seq![' '] + rest) == seq![w] + words(rest),
{
    let s = w + seq![' '] + rest;
    assert forall|i: int| 0 <= i < w.len() implies !is_white(#[trigger] s[i]) by {
        assert(s[i] == w[i]);
    }
    assert(!is_white(s[0]));
    lemma_word_len_is(s, w.len());
    assert(s.take(w.len() as int) =~= w);
    let t = s.skip(w.len() as int);
    assert(t =~= seq![' '] + rest);
    assert(t[0] == ' ');
    assert(t.skip(1) =~= rest);
    assert(words(t) == words(rest));
}

/// Whether `s` is free of whitespace.
pub open spec fn unbroken(s: Seq<char>) -> bool {
    forall|i: int| 0 <= i < s.len() ==> !is_white(#[trigger] s[i])
}

/// The words of a text are not empty, hold no whitespace, and are made of the
/// text's characters.
pub proof fn lemma_words(s: Seq<char>)
    ensures
        forall|i: int| 0 <= i < words(s).len() ==> (#[trigger] words(s)[i]).len() > 0,
        forall|i: int| 0 <= i < words(s).len() ==> unbroken(#[trigger] words(s)[i]),
        forall|i: int, j: int|
            0 <= i < words(s).len() && 0 <= j < words(s)[i].len() ==> s.contains(
                #[trigger] words(s)[i][j],
            ),
    decreases s.len(),
{
    if s.len() > 0 {
        lemma_word_len(s);
        let n: int = if is_white(s[0]) {
            1
        } else {
            word_len(s) as int
        };
        let rest = s.skip(n);
        lemma_words(rest);
        let all = words(s);
        let shift: int = all.len() - words(rest).len();
        assert forall|i: int| 0 <= i < all.len() implies (#[trigger] all[i]).len() > 0 && unbroken(
            all[i],
        ) && forall|j: int| 0 <= j < all[i].len() ==> s.contains(#[trigger] all[i][j]) by {
            if i >= shift {
                let w = words(rest)[i - shift];
                assert(all[i] == w);
                assert forall|j: int| 0 <= j < all[i].len() implies s.contains(
                    #[trigger] all[i][j],
                ) by {
                    assert(rest.contains(w[j]));
                    let k = choose|k: int| 0 <= k < rest.len() && rest[k] == w[j];
                    assert(s[k + n] == w[j]);
                }
            } else {
                assert(all[i] == s.take(n));
                assert forall|j: int| 0 <= j < all[i].len() implies s.contains(
                    #[trigger] all[i][j],
                ) by {
                    assert(s[j] == all[i][j]);
                }
            }
        }
    }
}

/// Nothing is trimmed off a text without whitespace.
pub proof fn lemma_trimmed_unbroken(s: Seq<char>)
    requires
        unbroken(s),
    ensures
        trimmed(s) == s,
        trim_end(s) == s,
{
    if s.len() > 0 {
        assert(!is_white(s[0]));
        assert(!is_white(s[s.len() - 1]));
    }
}

/// What is trimmed neither starts nor ends in whitespace.
pub proof fn lemma_trimmed(s: Seq<char>)
    ensures
        trim_end(s).len() > 0 ==> !is_white(trim_end(s).last()) && trim_end(s)[0] == s[0],
        trimmed(s).len() > 0 ==> !is_white(trimmed(s).last()) && !is_white(trimmed(s)[0]),
    decreases s.len(),
{
    lemma_trim_end_ends(s);
    lemma_trim_start_starts(s);
    lemma_trim_end_ends(trim_start(s));
}

/// What `trim_end` leaves starts as before and does not end in whitespace.
proof fn lemma_trim_end_ends(s: Seq<char>)
    ensures
        trim_end(s).len() > 0 ==> !is_white(trim_end(s).last()) && trim_end(s)[0] == s[0],
    decreases s.len(),
{
    if s.len() > 0 && is_white(s.last()) {
        lemma_trim_end_ends(s.drop_last());
    }
}

/// What `trim_start` leaves does not start with whitespace.
proof fn lemma_trim_start_starts(s: Seq<char>)
    ensures
        trim_start(s).len() > 0 ==> !is_white(trim_start(s)[0]),
    decreases s.len(),
{
    if s.len() > 0 && is_white(s[0]) {
        lemma_trim_start_starts(s.skip(1));
    }
}

/// Making upper-case what is upper-case already changes nothing, and never
/// makes or takes away whitespace.
pub proof fn lemma_upper_char(c: char)
    ensures
        upper_char(upper_char(c)) == upper_char(c),
        is_white(upper_char(c)) == is_white(c),
{
}

/// A text made of characters of an upper-case text is upper-case.
pub proof fn lemma_upper_part(s: Seq<char>, w: Seq<char>)
    requires
        forall|j: int| 0 <= j < w.len() ==> upper(s).contains(#[trigger] w[j]),
    ensures
        upper(w) == w,
{
    assert forall|j: int| 0 <= j < w.len() implies upper_char(#[trigger] w[j]) == w[j] by {
        assert(upper(s).contains(w[j]));
        let k = choose|k: int| 0 <= k < upper(s).len() && upper(s)[k] == w[j];
        lemma_upper_char(s[k]);
    }
    assert(upper(w) =~= w);
}

/// The views of a list of strings.
pub open spec fn views(v: Seq<String>) -> Seq<Seq<char>> {
    v.map_values(|s: String| s@)
}

/// The view of a string that may be missing.
pub open spec fn opt_view(o: Option<String>) -> Option<Seq<char>> {
    match o {
        Some(s) => Some(s@),
        None => None,
    }
}

/// The characters of `s`, one by one.
pub fn chars_of(s: &str) -> (v: Vec<char>)
    ensures
        v@ == s@,
{
    let mut v: Vec<char> = Vec::new();
    for c in it: s.chars()
        invariant
            v@ == it.seq().take(it.index() as int),
            it.seq() == s@,
    {
        v.push(c);
    }
    v
}

/// The characters of `v` from `from` up to `to`, as a string.
pub fn string_of(v: &Vec<char>, from: usize, to: usize) -> (s: String)
    requires
        from <= to <= v@.len(),
    ensures
        s@ == v@.subrange(from as int, to as int),
{
    let mut s: String = String::new();
    let mut i: usize = from;
    while i < to
        invariant
            from <= i <= to <= v@.len(),
            s@ == v@.subrange(from as int, i as int),
        decreases to - i,
    {
        s.push(v[i]);
        i = i + 1;
        assert(v@.subrange(from as int, i as int) == v@.subrange(from as int, i - 1).push(v@[i - 1]));
    }
    s
}

/// Whether two strings hold the same characters.
pub fn same(a: &str, b: &str) -> (r: bool)
    ensures
        r == (a@ == b@),
{
    let va: Vec<char> = chars_of(a);
    let vb: Vec<char> = chars_of(b);
    if va.len() != vb.len() {
        return false;
    }
    let mut i: usize = 0;
    while i < va.len()
        invariant
            i <= va@.len(),
            va@.len() == vb@.len(),
            va@ == a@,
            vb@ == b@,
            forall|k: int| 0 <= k < i ==> va@[k] == vb@[k],
        decreases va@.len() - i,
    {
        if va[i] != vb[i] {
            return false;
        }
        i = i + 1;
    }
    assert(a@ =~= b@);
    true
}

/// `s` with its ASCII letters made upper-case.
pub fn to_upper(s: &str) -> (r: String)
    ensures
        r@ == upper(s@),
{
    let v: Vec<char> = chars_of(s);
    let mut r: String = String::new();
    let mut i: usize = 0;
    while i < v.len()
        invariant
            i <= v@.len(),
            v@ == s@,
            r@ == upper(s@.take(i as int)),
        decreases v@.len() - i,
    {
        let c: char = v[i];
        if 'a' <= c && c <= 'z' {
            r.push((c as u8 - 32) as char);
        } else {
            r.push(c);
        }
        i = i + 1;
        assert(upper(s@.take(i as int)) =~= upper(s@.take(i - 1)).push(upper_char(s@[i - 1])));
    }
    assert(s@.take(i as int) =~= s@);
    r
}

/// What `trim_start` leaves is what follows the leading whitespace.
pub proof fn lemma_trim_start(s: Seq<char>, n: int)
    requires
        0 <= n <= s.len(),
        forall|i: int| 0 <= i < n ==> is_white(#[trigger] s[i]),
        n < s.len() ==> !is_white(s[n]),
    ensures
        trim_start(s) == s.skip(n),
    decreases n,
{
    if n == 0 {
        assert(s.skip(0) =~= s);
    } else {
        assert(is_white(s[0]));
        lemma_trim_start(s.skip(1), n - 1);
        assert(s.skip(1).skip(n - 1) =~= s.skip(n));
    }
}

/// What `trim_end` leaves is what stands before the trailing whitespace.
pub proof fn lemma_trim_end(s: Seq<char>, n: int)
    requires
        0 <= n <= s.len(),
        forall|i: int| n <= i < s.len() ==> is_white(#[trigger] s[i]),
        n > 0 ==> !is_white(s[n - 1]),
    ensures
        trim_end(s) == s.take(n),
    decreases s.len() - n,
{
    if n == s.len() {
        assert(s.take(n) =~= s);
    } else {
        assert(is_white(s[s.len() - 1]));
        lemma_trim_end(s.drop_last(), n);
        assert(s.drop_last().take(n) =~= s.take(n));
    }
}

/// `s` without the whitespace at either end.
pub fn trim(s: &str) -> (r: &str)
    ensures
        r@ == trimmed(s@),
{
    let v: Vec<char> = chars_of(s);
    let mut from: usize = 0;
    while from < v.len() && is_white(v[from])
        invariant
            from <= v@.len(),
            forall|i: int| 0 <= i < from ==> is_white(#[trigger] v@[i]),
        decreases v@.len() - from,
    {
        from = from + 1;
    }
    let mut to: usize = v.len();
    while to > from && is_white(v[to - 1])
        invariant
            from <= to <= v@.len(),
            forall|i: int| to <= i < v@.len() ==> is_white(#[trigger] v@[i]),
        decreases to,
    {
        to = to - 1;
    }
    proof {
        lemma_trim_start(s@, from as int);
        let t = s@.skip(from as int);
        assert forall|i: int| to - from <= i < t.len() implies is_white(#[trigger] t[i]) by {
            assert(is_white(v@[i + from]));
        }
        lemma_trim_end(t, to - from);
        assert(t.take(to - from) =~= s@.subrange(from as int, to as int));
    }
    s.substring_char(from, to)
}

/// `s` without the whitespace it ends in.
pub fn trim_right(s: &str) -> (r: &str)
    ensures
        r@ == trim_end(s@),
{
    let v: Vec<char> = chars_of(s);
    let mut to: usize = v.len();
    while to > 0 && is_white(v[to - 1])
        invariant
            to <= v@.len(),
            forall|i: int| to <= i < v@.len() ==> is_white(#[trigger] v@[i]),
        decreases to,
    {
        to = to - 1;
    }
    proof {
        lemma_trim_end(s@, to as int);
        assert(s@.take(to as int) =~= s@.subrange(0, to as int));
    }
    s.substring_char(0, to)
}

/// The words of `s`, in order.
pub fn split_words(s: &str) -> (r: Vec<String>)
    ensures
        views(r@) == words(s@),
{
    let v: Vec<char> = chars_of(s);
    let mut r: Vec<String> = Vec::new();
    let mut i: usize = 0;
    assert(s@.skip(0) =~= s@);
    assert(views(r@) + words(s@) =~= words(s@));
    while i < v.len()
        invariant
            i <= v@.len(),
            v@ == s@,
            views(r@) + words(s@.skip(i as int)) == words(s@),
        decreases v@.len() - i,
    {
        let ghost rest = s@.skip(i as int);
        if is_white(v[i]) {
            assert(rest.skip(1) =~= s@.skip(i + 1));
            i = i + 1;
        } else {
            let from: usize = i;
            while i < v.len() && !is_white(v[i])
                invariant
                    from <= i <= v@.len(),
                    forall|k: int| from <= k < i ==> !is_white(#[trigger] v@[k]),
                decreases v@.len() - i,
            {
                i = i + 1;
            }
            let w: String = string_of(&v, from, i);
            proof {
                let n = (i - from) as nat;
                assert(rest[0] == v@[from as int]);
                assert forall|k: int| 0 <= k < n implies !is_white(#[trigger] rest[k]) by {
                    assert(!is_white(v@[k + from]));
                }
                lemma_word_len_is(rest, n);
                assert(rest.take(n as int) =~= w@);
                assert(rest.skip(n as int) =~= s@.skip(i as int));
                assert(words(rest) == seq![w@] + words(s@.skip(i as int)));
                assert(views(r@.push(w)) =~= views(r@).push(w@));
                assert(views(r@.push(w)) + words(s@.skip(i as int)) =~= views(r@) + words(rest));
            }
            r.push(w);
        }
    }
    assert(s@.skip(i as int).len() == 0);
    assert(views(r@) + words(s@.skip(i as int)) =~= views(r@));
    r
}

/// The character of the decimal digit `d`.
pub open spec fn digit_char(d: int) -> char {
    ((48 + d) as u8) as char
}

/// The number `n` in decimal, without leading zeros.
pub open spec fn decimal(n: nat) -> Seq<char>
    decreases n,
{
    if n < 10 {
        seq![digit_char(n as int)]
    } else {
        decimal(n / 10).push(digit_char((n % 10) as int))
    }
}

/// `w` zeros.
pub open spec fn zeros(w: nat) -> Seq<char> {
    Seq::new(w, |i: int| '0')
}

/// The number `n` in decimal, with zeros before it up to `w` characters.
pub open spec fn padded(n: nat, w: nat) -> Seq<char> {
    let d = decimal(n);
    if d.len() < w {
        zeros((w - d.len()) as nat) + d
    } else {
        d
    }
}

/// `n` in decimal.
pub fn to_decimal(n: u32) -> (r: String)
    ensures
        r@ == decimal(n as nat),
    decreases n,
{
    let mut r: String = if n < 10 {
        String::new()
    } else {
        to_decimal(n / 10)
    };
    let d: u32 = n % 10;
    r.push((48 + d as u8) as char);
    assert(r@ =~= decimal(n as nat));
    r
}

/// `n` in decimal, with zeros before it up to `w` characters.
pub fn to_padded(n: u32, w: usize) -> (r: String)
    ensures
        r@ == padded(n as nat, w as nat),
{
    let d: String = to_decimal(n);
    let len: usize = d.as_str().unicode_len();
    let mut r: String = String::new();
    let mut i: usize = len;
    while i < w
        invariant
            len <= i,
            i <= w || i == len,
            r@ == zeros((i - len) as nat),
        decreases w - i,
    {
        r.push('0');
        i = i + 1;
        assert(zeros((i - len) as nat) =~= zeros((i - 1 - len) as nat).push('0'));
    }
    r.append(d.as_str());
    assert(len >= w ==> r@ =~= d@);
    r
}

/// Whether every character of `s` is a decimal digit.
pub open spec fn all_digits(s: Seq<char>) -> bool {
    forall|i: int| 0 <= i < s.len() ==> is_digit(#[trigger] s[i])
}

/// The number that the decimal digits of `s` write.
pub open spec fn digits_value(s: Seq<char>) -> nat
    decreases s.len(),
{
    if s.len() == 0 {
        0
    } else {
        digits_value(s.drop_last()) * 10 + (s.last() as u8 - 48) as nat
    }
}

/// The signed 32-bit number that `s` writes in decimal: an optional sign, then
/// at least one digit and nothing else, as `str::parse` reads one.
pub open spec fn parsed_i32(s: Seq<char>) -> Option<int> {
    let signed = s.len() > 0 && (s[0] == '-' || s[0] == '+');
    let digits = if signed {
        s.skip(1)
    } else {
        s
    };
    let value = if signed && s[0] == '-' {
        -(digits_value(digits) as int)
    } else {
        digits_value(digits) as int
    };
    if digits.len() > 0 && all_digits(digits) && i32::MIN <= value <= i32::MAX {
        Some(value)
    } else {
        None
    }
}

/// More digits never write a smaller number.
proof fn lemma_digits_value_grows(s: Seq<char>, n: int)
    requires
        0 <= n <= s.len(),
        all_digits(s),
    ensures
        digits_value(s.take(n)) <= digits_value(s),
    decreases s.len() - n,
{
    if n == s.len() {
        assert(s.take(n) =~= s);
    } else {
        lemma_digits_value_grows(s.drop_last(), n);
        assert(s.drop_last().take(n) =~= s.take(n));
        assert(is_digit(s[s.len() - 1]));
    }
}

/// The signed number that `s` writes in decimal, if it writes one that fits.
pub fn parse_i32(s: &str) -> (r: Option<i32>)
    ensures
        match r {
            Some(n) => parsed_i32(s@) == Some(n as int),
            None => parsed_i32(s@) is None,
        },
{
    let v: Vec<char> = chars_of(s);
    let signed: bool = v.len() > 0 && (v[0] == '-' || v[0] == '+');
    let minus: bool = signed && v[0] == '-';
    let from: usize = if signed {
        1
    } else {
        0
    };
    let ghost digits = s@.skip(from as int);
    assert(!signed ==> digits =~= s@);
    if v.len() == from {
        return None;
    }
    let limit: i64 = if minus {
        2147483648
    } else {
        2147483647
    };
    let mut value: i64 = 0;
    let mut i: usize = from;
    assert(digits.take(0) =~= Seq::<char>::empty());
    while i < v.len()
        invariant
            v@ == s@,
            digits == s@.skip(from as int),
            from <= i <= v@.len(),
            all_digits(digits.take(i - from)),
            value == digits_value(digits.take(i - from)),
            0 <= value <= limit <= 2147483648,
            minus ==> limit == 2147483648,
            !minus ==> limit == 2147483647,
            signed == (s@.len() > 0 && (s@[0] == '-' || s@[0] == '+')),
            minus == (signed && s@[0] == '-'),
            from == (if signed { 1int } else { 0int }),
            !signed ==> digits == s@,
        decreases v@.len() - i,
    {
        let c: char = v[i];
        assert(digits[i - from] == c);
        if !('0' <= c && c <= '9') {
            assert(!all_digits(digits)) by {
                assert(!is_digit(digits[i - from]));
            }
            return None;
        }
        let next: i64 = value * 10 + (c as u8 - 48) as i64;
        proof {
            let now = digits.take(i + 1 - from);
            assert(now.drop_last() =~= digits.take(i - from));
            assert(now.last() == c);
            assert forall|k: int| 0 <= k < now.len() implies is_digit(#[trigger] now[k]) by {
                if k < i - from {
                    assert(is_digit(digits.take(i - from)[k]));
                }
            }
        }
        if next > limit {
            proof {
                if all_digits(digits) {
                    lemma_digits_value_grows(digits, i + 1 - from);
                }
            }
            return None;
        }
        value = next;
        i = i + 1;
    }
    assert(digits.take(i - from) =~= digits);
    if minus {
        Some((-value) as i32)
    } else {
        Some(value as i32)
    }
}

// ── What holds of the whole ─────────────────────────────────────────────────

/// Where a text starts that is trimmed in front.
proof fn lemma_starts_at(s: Seq<char>) -> (n: int)
    ensures
        0 <= n <= s.len(),
        forall|i: int| 0 <= i < n ==> is_white(#[trigger] s[i]),
        n < s.len() ==> !is_white(s[n]),
        trim_start(s) == s.skip(n),
    decreases s.len(),
{
    if s.len() > 0 && is_white(s[0]) {
        let n = lemma_starts_at(s.skip(1));
        assert forall|i: int| 0 <= i < n + 1 implies is_white(#[trigger] s[i]) by {
            if i > 0 {
                assert(s[i] == s.skip(1)[i - 1]);
            }
        }
        assert(s.skip(1).skip(n) =~= s.skip(n + 1));
        n + 1
    } else {
        assert(s.skip(0) =~= s);
        0
    }
}

/// Where a text ends that is trimmed behind.
proof fn lemma_ends_at(s: Seq<char>) -> (n: int)
    ensures
        0 <= n <= s.len(),
        forall|i: int| n <= i < s.len() ==> is_white(#[trigger] s[i]),
        n > 0 ==> !is_white(s[n - 1]),
        trim_end(s) == s.take(n),
    decreases s.len(),
{
    if s.len() > 0 && is_white(s.last()) {
        let n = lemma_ends_at(s.drop_last());
        assert forall|i: int| n <= i < s.len() implies is_white(#[trigger] s[i]) by {
            if i < s.len() - 1 {
                assert(s[i] == s.drop_last()[i]);
            }
        }
        assert(s.drop_last().take(n) =~= s.take(n));
        n
    } else {
        assert(s.take(s.len() as int) =~= s);
        s.len() as int
    }
}

/// Trimming takes away whitespace at the two ends, all of it, and nothing else.
pub proof fn law_trimming_takes_only_the_whitespace_around(s: Seq<char>)
    ensures
        exists|i: int, j: int|
            0 <= i <= j <= s.len() && #[trigger] s.subrange(i, j) == trimmed(s) && (forall|k: int|
                0 <= k < i || j <= k < s.len() ==> is_white(#[trigger] s[k])) && (i < j ==> !is_white(
                s[i],
            ) && !is_white(s[j - 1])),
{
    let i = lemma_starts_at(s);
    let t = s.skip(i);
    let n = lemma_ends_at(t);
    let j = i + n;
    assert(s.subrange(i, j) =~= t.take(n));
    assert forall|k: int| 0 <= k < i || j <= k < s.len() implies is_white(#[trigger] s[k]) by {
        if k >= j {
            assert(t[k - i] == s[k]);
        }
    }
    if i < j {
        assert(t[n - 1] == s[j - 1]);
    }
}

/// Every ASCII letter is made upper-case where it stands, and every other
/// character is left alone.
pub proof fn law_upper_case_changes_letters_alone(s: Seq<char>, i: int)
    requires
        0 <= i < s.len(),
    ensures
        upper(s).len() == s.len(),
        'a' <= s[i] <= 'z' ==> upper(s)[i] as int + 32 == s[i] as int && 'A' <= upper(s)[i] <= 'Z',
        !('a' <= s[i] <= 'z') ==> upper(s)[i] == s[i],
{
}

/// A number in decimal is made of digits, has no zero in front unless it is one,
/// and reads back as the number.
pub proof fn law_decimal_reads_back(n: nat)
    ensures
        decimal(n).len() > 0,
        all_digits(decimal(n)),
        digits_value(decimal(n)) == n,
        n > 0 ==> decimal(n)[0] != '0',
    decreases n,
{
    let d = decimal(n);
    if n < 10 {
        assert(d.drop_last() =~= seq![]);
        reveal_with_fuel(digits_value, 2);
    } else {
        law_decimal_reads_back(n / 10);
        let front = decimal(n / 10);
        assert(d.drop_last() =~= front);
        assert forall|i: int| 0 <= i < d.len() implies is_digit(#[trigger] d[i]) by {
            if i < d.len() - 1 {
                assert(d[i] == front[i]);
            }
        }
        assert(d[0] == front[0]);
    }
}

/// Zeros in front do not change what digits write.
proof fn lemma_zeros_in_front(k: nat, d: Seq<char>)
    requires
        all_digits(d),
    ensures
        all_digits(zeros(k) + d),
        digits_value(zeros(k) + d) == digits_value(d),
    decreases d.len() + k,
{
    let s = zeros(k) + d;
    assert forall|i: int| 0 <= i < s.len() implies is_digit(#[trigger] s[i]) by {
        if i >= k {
            assert(s[i] == d[i - k]);
        }
    }
    if d.len() > 0 {
        let front = d.drop_last();
        assert forall|i: int| 0 <= i < front.len() implies is_digit(#[trigger] front[i]) by {
            assert(front[i] == d[i]);
        }
        lemma_zeros_in_front(k, front);
        assert(s.drop_last() =~= zeros(k) + front);
    } else if k > 0 {
        lemma_zeros_in_front((k - 1) as nat, d);
        assert(s.drop_last() =~= zeros((k - 1) as nat) + d);
        assert(s.last() == '0');
    } else {
        assert(s =~= d);
    }
}

/// A padded number is at least as wide as was asked, no wider than it has to be,
/// and reads back as the number.
pub proof fn law_padding_keeps_the_number(n: nat, w: nat)
    ensures
        all_digits(padded(n, w)),
        digits_value(padded(n, w)) == n,
        padded(n, w).len() >= w,
        padded(n, w).len() > w && w > 0 ==> padded(n, w)[0] != '0',
        padded(n, w).len() > 0,
{
    law_decimal_reads_back(n);
    let d = decimal(n);
    if d.len() < w {
        lemma_zeros_in_front((w - d.len()) as nat, d);
    }
}

/// A signed number reads back, with its sign or without one, and zeros in front
/// of its digits do not matter.
pub proof fn law_signed_numbers_read_back(n: nat, w: nat)
    requires
        n <= i32::MAX,
    ensures
        parsed_i32(padded(n, w)) == Some(n as int),
        parsed_i32(seq!['+'] + padded(n, w)) == Some(n as int),
        parsed_i32(seq!['-'] + padded(n, w)) == Some(-(n as int)),
{
    law_padding_keeps_the_number(n, w);
    let d = padded(n, w);
    assert(is_digit(d[0]));
    assert((seq!['+'] + d).skip(1) =~= d);
    assert((seq!['-'] + d).skip(1) =~= d);
}

/// Nothing but an optional sign and digits is a number.
pub proof fn law_only_digits_are_a_number(s: Seq<char>, i: int)
    requires
        parsed_i32(s) is Some,
        0 <= i < s.len(),
    ensures
        is_digit(s[i]) || (i == 0 && (s[i] == '+' || s[i] == '-')),
        s[0] == '-' ==> parsed_i32(s)->0 <= 0,
        s[0] != '-' ==> parsed_i32(s)->0 >= 0,
{
    let signed = s.len() > 0 && (s[0] == '-' || s[0] == '+');
    if signed && i > 0 {
        assert(s.skip(1)[i - 1] == s[i]);
        assert(is_digit(s.skip(1)[i - 1]));
    } else if !signed {
        assert(is_digit(s[i]));
    }
}

/// A text's words are the runs between its whitespace: whitespace in front is
/// passed over, and a run that whitespace follows is the first word, before those
/// of the rest.
pub proof fn law_words_are_the_runs_between_whitespace(w: Seq<char>, gap: char, rest: Seq<char>)
    requires
        is_white(gap),
        w.len() > 0 && unbroken(w),
    ensures
        words(seq![gap] + rest) == words(rest),
        words(w + seq![gap] + rest) == seq![w] + words(rest),
        words(w) == seq![w],
        words(seq![]).len() == 0,
{
    let t = seq![gap] + rest;
    assert(t[0] == gap);
    assert(t.skip(1) =~= rest);
    lemma_words_one(w);
    let s = w + seq![gap] + rest;
    assert forall|i: int| 0 <= i < w.len() implies !is_white(#[trigger] s[i]) by {
        assert(s[i] == w[i]);
    }
    lemma_word_len_is(s, w.len());
    assert(s.take(w.len() as int) =~= w);
    assert(s.skip(w.len() as int) =~= t);
}

/// Each digit counts ten times the one after it.
pub proof fn law_each_digit_counts_ten_times_the_next(s: Seq<char>, c: char)
    requires
        is_digit(c),
    ensures
        digits_value(s.push(c)) == 10 * digits_value(s) + (c as int - '0' as int),
        digits_value(seq![]) == 0,
{
    assert(s.push(c).drop_last() =~= s);
}

/// A number is read where 32 bits hold it, down to the last, and none is where
/// they do not.
pub proof fn law_a_number_is_read_where_it_fits(d: Seq<char>)
    requires
        d.len() > 0,
        all_digits(d),
    ensures
        parsed_i32(d) is Some <==> digits_value(d) <= 2_147_483_647,
        parsed_i32(seq!['+'] + d) == parsed_i32(d),
        parsed_i32(seq!['-'] + d) is Some <==> digits_value(d) <= 2_147_483_648,
        parsed_i32(d) is Some ==> parsed_i32(d)->0 == digits_value(d),
        parsed_i32(seq!['-'] + d) is Some ==> parsed_i32(seq!['-'] + d)->0 + digits_value(d) == 0,
{
    assert(is_digit(d[0]));
    assert((seq!['+'] + d).skip(1) =~= d);
    assert((seq!['-'] + d).skip(1) =~= d);
}

/// Whitespace is what Unicode says it is, by number.
pub proof fn law_whitespace_is_unicodes(c: char)
    ensures
        is_white(c) <==> {
            let n = c as int;
            ||| 9 <= n <= 13
            ||| n == 0x20 || n == 0x85 || n == 0xa0 || n == 0x1680
            ||| 0x2000 <= n <= 0x200a
            ||| n == 0x2028 || n == 0x2029 || n == 0x202f || n == 0x205f || n == 0x3000
        },
{
}

/// Trimming what is trimmed changes nothing.
pub proof fn law_trimming_twice_is_trimming_once(s: Seq<char>)
    ensures
        trimmed(trimmed(s)) == trimmed(s),
{
    lemma_trimmed(s);
}

/// A list is seen string by string, and a string that may be missing where it is
/// there.
pub proof fn law_strings_are_seen_as_they_are(v: Seq<String>, o: Option<String>, i: int)
    requires
        0 <= i < v.len(),
    ensures
        views(v).len() == v.len(),
        views(v)[i] == v[i]@,
        o is Some <==> opt_view(o) is Some,
        o is Some ==> opt_view(o)->0 == o->0@,
{
}

} // verus!
