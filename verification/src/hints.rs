//! What is known of a message before it arrives.
use vstd::prelude::*;
use mfsk_core::msg::ApHint;
use crate::text::{
    is_white, law_trimming_takes_only_the_whitespace_around, opt_view, trim, trimmed, views,
};

verus! {

/// What we already know about the message we are hoping to decode.
///
/// Every message that advances a QSO is addressed to us, and once we are
/// working someone it comes from them as well, so 58 of the 77 bits are known
/// before the signal arrives. Handing them to the decoder as *a-priori* bits
/// lets it treat them as given instead of solving for them, which is worth
/// several dB on the one message we most want to hear.
#[derive(Debug, Clone, PartialEq)]
pub struct ApHints {
    /// Our own callsign: the addressee of everything we are waiting for.
    pub my_call: String,
    /// The station we are working, if any.
    pub dx_call: Option<String>,
    /// The operator has the EU VHF contest selected, so the slot is worth a
    /// second pass for the contest exchange.
    pub eu_vhf: bool,
}

/// A callsign without the whitespace around it, unless nothing is left.
pub open spec fn given(call: Seq<char>) -> Option<Seq<char>> {
    if trimmed(call).len() > 0 {
        Some(trimmed(call))
    } else {
        None
    }
}

/// A list of the callsign there is, if there is one.
pub open spec fn listed(call: Option<Seq<char>>) -> Seq<Seq<char>> {
    match call {
        Some(c) => seq![c],
        None => seq![],
    }
}

impl Default for ApHints {
    /// A station that knows nothing to hint with.
    fn default() -> (r: Self)
        ensures
            r.my_call@.len() == 0,
            r.dx_call is None,
            !r.eu_vhf,
    {
        ApHints { my_call: String::new(), dx_call: None, eu_vhf: false }
    }
}

/// A callsign without the whitespace around it, unless nothing is left.
fn given_call(call: &str) -> (r: Option<&str>)
    ensures
        match r {
            Some(c) => given(call@) == Some(c@),
            None => given(call@) is None,
        },
{
    let t: &str = trim(call);
    if t.unicode_len() == 0 {
        None
    } else {
        Some(t)
    }
}

impl ApHints {
    /// Our callsign.
    pub open spec fn me(&self) -> Option<Seq<char>> {
        given(self.my_call@)
    }

    /// The callsign of the station we are working.
    pub open spec fn dx(&self) -> Option<Seq<char>> {
        match self.dx_call {
            Some(c) => given(c@),
            None => None,
        }
    }

    /// Whether a hint names our callsign as the addressee and the other as the
    /// sender, and says nothing else.
    pub open spec fn hinted(&self, h: Option<ApHint>) -> bool {
        match h {
            Some(h) => opt_view(h.call1) == self.me() && self.me() is Some && opt_view(h.call2)
                == self.dx() && h.grid is None && h.report is None,
            None => self.me() is None,
        }
    }

    /// The callsigns to seed the hash table with, so a hashed `<...>` naming
    /// either of them resolves on first sight.
    pub fn calls(&self) -> (r: Vec<String>)
        ensures
            views(r@) == listed(self.me()) + listed(self.dx()),
    {
        let mut r: Vec<String> = Vec::new();
        if let Some(c) = given_call(self.my_call.as_str()) {
            r.push(c.to_owned());
        }
        assert(views(r@) =~= listed(self.me()));
        if let Some(dx) = &self.dx_call {
            if let Some(c) = given_call(dx.as_str()) {
                r.push(c.to_owned());
            }
        }
        assert(views(r@) =~= listed(self.me()) + listed(self.dx()));
        r
    }

    /// `(call1, call2)` for the message layout: `<to> <from> …`, so our call is
    /// first and the station we're working second. `None` when we don't even
    /// know our own callsign, which is the only case with nothing to say.
    pub fn calls_for_hint(&self) -> (r: Option<(&str, Option<&str>)>)
        ensures
            match r {
                Some((me, Some(dx))) => self.me() == Some(me@) && self.dx() == Some(dx@),
                Some((me, None)) => self.me() == Some(me@) && self.dx() is None,
                None => self.me() is None,
            },
    {
        match given_call(self.my_call.as_str()) {
            Some(me) => match &self.dx_call {
                Some(dx) => Some((me, given_call(dx.as_str()))),
                None => Some((me, None)),
            },
            None => None,
        }
    }

    /// The hint for the FT8 decoder, if there is anything to hint with.
    pub fn ft8(&self) -> (r: Option<ApHint>)
        ensures
            self.hinted(r),
    {
        match self.calls_for_hint() {
            Some((me, Some(dx))) => Some(ApHint::new().with_call1(me).with_call2(dx)),
            Some((me, None)) => Some(ApHint::new().with_call1(me)),
            None => None,
        }
    }

    /// The hint for the FT4 decoder, if there is anything to hint with.
    pub fn ft4(&self) -> (r: Option<ApHint>)
        ensures
            self.hinted(r),
    {
        self.ft8()
    }
}

// ── What holds of the whole ─────────────────────────────────────────────────

/// A callsign is given without the whitespace around it, and none is where
/// nothing but whitespace was.
pub proof fn law_a_blank_callsign_is_none(call: Seq<char>)
    ensures
        given(call) is None <==> forall|i: int|
            0 <= i < call.len() ==> is_white(#[trigger] call[i]),
        given(call) is Some ==> exists|i: int, j: int|
            0 <= i < j <= call.len() && #[trigger] call.subrange(i, j) == given(call)->0 && (forall|
                k: int,
            |
                0 <= k < i || j <= k < call.len() ==> is_white(#[trigger] call[k])) && !is_white(
                call[i],
            ) && !is_white(call[j - 1]),
{
    law_trimming_takes_only_the_whitespace_around(call);
    let (i, j) = choose|i: int, j: int|
        0 <= i <= j <= call.len() && #[trigger] call.subrange(i, j) == trimmed(call) && (forall|
            k: int,
        |
            0 <= k < i || j <= k < call.len() ==> is_white(#[trigger] call[k])) && (i < j
            ==> !is_white(call[i]) && !is_white(call[j - 1]));
    assert(call.subrange(i, j).len() == j - i);
    if i < j {
        assert(call.subrange(i, j) == given(call)->0);
    } else {
        assert forall|k: int| 0 <= k < call.len() implies is_white(#[trigger] call[k]) by {}
    }
}

/// A hint is of a message to us from the station worked, each callsign as it was
/// given without the whitespace around it; there is none only where we have no
/// callsign.
pub proof fn law_a_hint_is_to_us_from_the_station_worked(hints: ApHints, h: Option<ApHint>)
    requires
        hints.hinted(h),
    ensures
        h is None <==> trimmed(hints.my_call@).len() == 0,
        h is Some ==> opt_view(h->0.call1) == Some(trimmed(hints.my_call@)),
        h is Some && hints.dx_call is Some && trimmed(hints.dx_call->0@).len() > 0 ==> opt_view(
            h->0.call2,
        ) == Some(trimmed(hints.dx_call->0@)),
        h is Some && (hints.dx_call is None || trimmed(hints.dx_call->0@).len() == 0)
            ==> h->0.call2 is None,
        h is Some ==> h->0.grid is None && h->0.report is None,
{
}

/// The callsigns to listen for are ours first and the other station's second, as
/// far as there are any.
pub proof fn law_the_callsigns_to_listen_for(hints: ApHints)
    ensures
        ({
            let us = trimmed(hints.my_call@);
            let them = match hints.dx_call {
                Some(c) => trimmed(c@),
                None => seq![],
            };
            let calls = listed(hints.me()) + listed(hints.dx());
            &&& us.len() > 0 && them.len() > 0 ==> calls == seq![us, them]
            &&& us.len() > 0 && them.len() == 0 ==> calls == seq![us]
            &&& us.len() == 0 && them.len() > 0 ==> calls == seq![them]
            &&& us.len() == 0 && them.len() == 0 ==> calls.len() == 0
        }),
{
    let us = trimmed(hints.my_call@);
    let them = match hints.dx_call {
        Some(c) => trimmed(c@),
        None => seq![],
    };
    let calls = listed(hints.me()) + listed(hints.dx());
    if us.len() > 0 && them.len() > 0 {
        assert(calls =~= seq![us, them]);
    } else if us.len() > 0 {
        assert(calls =~= seq![us]);
    } else if them.len() > 0 {
        assert(calls =~= seq![them]);
    }
}

} // verus!
