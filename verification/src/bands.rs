//! What each band is doing: the published forecast beside the measured field.
//!
//! Two answers to one question, and they are not the same answer.
//!
//! * **CONDX** is a calculated forecast: one word per band group per half of the
//!   day, computed globally from the solar indices. It says nothing about this
//!   station, this antenna or any particular path.
//! * **PATHS**, **REACH** and **BEST** come from the propagation field: real
//!   receptions. That is a measurement.
//!
//! PATHS and REACH are both shown because either alone misleads: a contest
//! pile-up on one bearing is a great many paths through a very small piece of
//! sky, and a band that is quietly open everywhere is the reverse.
//!
//! The empty cell is load-bearing throughout. A band with no verdict has none
//! published; a band with no paths was either shut or unattended, and the table
//! does not claim to know which.
//!
//! What is said is decided here; how it is drawn is the caller's.
use vstd::prelude::*;
use crate::fixed::{difference, minus};
use crate::text::{decimal, opt_view, to_decimal};

verus! {

/// A published verdict on a band.
#[derive(Debug, Clone, Copy, PartialEq, Eq, Structural)]
pub enum BandRating {
    Good,
    Fair,
    Poor,
    Closed,
    /// A wording that is not recognised.
    Unknown,
}

/// What a cell is written in.
#[derive(Debug, Clone, Copy, PartialEq, Eq, Structural)]
pub enum Ink {
    /// The neutral text colour.
    Plain,
    /// For what the reader is not meant to look at first.
    Dim,
    Green,
    Yellow,
    Pink,
}

/// The ink a verdict is shown in, if it has one of its own.
pub open spec fn ink_of(r: BandRating) -> Option<Ink> {
    match r {
        BandRating::Good => Some(Ink::Green),
        BandRating::Fair => Some(Ink::Yellow),
        BandRating::Poor => Some(Ink::Pink),
        BandRating::Closed => Some(Ink::Dim),
        BandRating::Unknown => None,
    }
}

/// The colour a verdict is shown in.
///
/// `None` for a wording that is not recognised: the neutral text colour is the
/// honest one, and the words are printed either way.
pub fn rating_color(r: BandRating) -> (c: Option<Ink>)
    ensures
        c == ink_of(r),
{
    match r {
        BandRating::Good => Some(Ink::Green),
        BandRating::Fair => Some(Ink::Yellow),
        BandRating::Poor => Some(Ink::Pink),
        BandRating::Closed => Some(Ink::Dim),
        BandRating::Unknown => None,
    }
}

/// How old verdicts observed at a time are, if they were observed at all.
pub open spec fn age_of(observed: Option<i64>, now: int) -> Option<int> {
    match observed {
        Some(t) => if t > 0 {
            Some(difference(now, t as int))
        } else {
            None
        },
        None => None,
    }
}

/// How old the verdicts are, in seconds, or `None` if there are none.
pub fn conditions_age(observed_unix: Option<i64>, now_unix: i64) -> (r: Option<i64>)
    ensures
        match r {
            Some(a) => age_of(observed_unix, now_unix as int) == Some(a as int),
            None => age_of(observed_unix, now_unix as int) is None,
        },
{
    match observed_unix {
        Some(t) => if t > 0 {
            Some(minus(now_unix, t))
        } else {
            None
        },
        None => None,
    }
}

/// The line above the table: which half of the day it is.
pub open spec fn daylight_label(daylight: bool) -> Seq<char> {
    if daylight {
        "☀ DAYLIGHT"@
    } else {
        "☾ NIGHT"@
    }
}

/// Which half of the day it is.
pub fn daylight_text(daylight: bool) -> (r: &'static str)
    ensures
        r@ == daylight_label(daylight),
{
    if daylight {
        "☀ DAYLIGHT"
    } else {
        "☾ NIGHT"
    }
}

/// The line above the table: how old the forecast is, in words.
pub open spec fn forecast_label(age: Option<Seq<char>>) -> Seq<char> {
    match age {
        Some(a) => "· forecast from HAMQSL.com, "@ + a + " old"@,
        None => "· no forecast yet — fetching from HAMQSL.com"@,
    }
}

/// How old the forecast is, given its age in words.
pub fn forecast_text(age: Option<String>) -> (r: String)
    ensures
        r@ == forecast_label(opt_view(age)),
{
    let mut r: String = String::new();
    match age {
        Some(a) => {
            r.append("· forecast from HAMQSL.com, ");
            r.append(a.as_str());
            r.append(" old");
            assert(r@ =~= "· forecast from HAMQSL.com, "@ + a@ + " old"@);
        },
        None => {
            r.append("· no forecast yet — fetching from HAMQSL.com");
            assert(r@ =~= "· no forecast yet — fetching from HAMQSL.com"@);
        },
    }
    r
}

/// One cell of the table.
#[derive(Debug)]
pub struct Cell {
    pub text: String,
    pub ink: Ink,
}

/// One cell of the table, over its characters.
#[verifier::ext_equal]
pub struct CellView {
    pub text: Seq<char>,
    pub ink: Ink,
}

impl View for Cell {
    type V = CellView;

    open spec fn view(&self) -> CellView {
        CellView { text: self.text@, ink: self.ink }
    }
}

/// The empty cell.
pub open spec fn dash() -> CellView {
    CellView { text: "—"@, ink: Ink::Dim }
}

/// A cell in the neutral colour.
pub open spec fn plain(text: Seq<char>) -> CellView {
    CellView { text, ink: Ink::Plain }
}

/// A cell holding a text.
fn cell(text: &str, ink: Ink) -> (r: Cell)
    ensures
        r@ == (CellView { text: text@, ink }),
{
    Cell { text: text.to_owned(), ink }
}

/// What a band's plane of the propagation field holds, each number as it is
/// printed.
#[derive(Debug)]
pub struct Evidence {
    /// Whether the plane holds no paths at all.
    pub empty: bool,
    /// How many paths.
    pub paths: String,
    /// How much of the sky they cover.
    pub reach: String,
    /// The best margin, if any of them came with a report. A logged contact
    /// alone has none: an RST is not an SNR.
    pub best: Option<String>,
}

/// What is known of a band.
#[derive(Debug)]
pub struct BandFacts {
    pub label: String,
    /// Whether this is the general-coverage entry, which is no band.
    pub general: bool,
    /// The published verdict, and what it amounts to.
    pub verdict: Option<(String, BandRating)>,
    /// What the field holds of the band, if it has a plane for it.
    pub evidence: Option<Evidence>,
}

/// One row of the table.
#[derive(Debug)]
pub struct BandRow {
    pub label: String,
    pub condx: Cell,
    pub paths: Cell,
    pub reach: Cell,
    pub best: Cell,
}

/// One row of the table, over its characters.
#[verifier::ext_equal]
pub struct RowView {
    pub label: Seq<char>,
    pub condx: CellView,
    pub paths: CellView,
    pub reach: CellView,
    pub best: CellView,
}

impl View for BandRow {
    type V = RowView;

    open spec fn view(&self) -> RowView {
        RowView {
            label: self.label@,
            condx: self.condx@,
            paths: self.paths@,
            reach: self.reach@,
            best: self.best@,
        }
    }
}

/// What has been heard on a band, if anything has: an empty plane counts as
/// nothing heard, as no plane does.
pub open spec fn heard_on(b: BandFacts) -> Option<Evidence> {
    match b.evidence {
        Some(e) => if e.empty {
            None
        } else {
            Some(e)
        },
        None => None,
    }
}

/// The row of a band: the forecast where one is published, and what has been
/// heard where anything has.
pub open spec fn row_of(b: BandFacts) -> RowView {
    RowView {
        label: b.label@,
        condx: match b.verdict {
            Some((v, rating)) => CellView {
                text: v@,
                ink: match ink_of(rating) {
                    Some(ink) => ink,
                    None => Ink::Plain,
                },
            },
            None => dash(),
        },
        paths: match heard_on(b) {
            Some(e) => plain(e.paths@),
            None => dash(),
        },
        reach: match heard_on(b) {
            Some(e) => plain(e.reach@),
            None => dash(),
        },
        best: match heard_on(b) {
            Some(e) => match e.best {
                Some(m) => plain(m@),
                None => dash(),
            },
            None => dash(),
        },
    }
}

/// The rows of the table: one for each band, in order.
pub open spec fn rows_of(bands: Seq<BandFacts>) -> Seq<RowView>
    decreases bands.len(),
{
    if bands.len() == 0 {
        seq![]
    } else {
        let before = rows_of(bands.drop_last());
        if bands.last().general {
            before
        } else {
            before.push(row_of(bands.last()))
        }
    }
}

/// The rows of a list, over their characters.
pub open spec fn row_views(v: Seq<BandRow>) -> Seq<RowView> {
    v.map_values(|r: BandRow| r@)
}

/// The row of a band.
fn band_row(b: &BandFacts) -> (r: BandRow)
    ensures
        r@ == row_of(*b),
{
    // The forecast. Blank where none is published.
    let condx: Cell = match &b.verdict {
        Some((v, rating)) => cell(
            v.as_str(),
            match rating_color(*rating) {
                Some(ink) => ink,
                None => Ink::Plain,
            },
        ),
        None => cell("—", Ink::Dim),
    };
    // The evidence. Where there is none the band is not "closed": nothing was
    // heard, and nobody may have been transmitting. The two look identical from
    // here and must not be conflated.
    let (paths, reach, best) = match &b.evidence {
        Some(e) if !e.empty => (
            cell(e.paths.as_str(), Ink::Plain),
            cell(e.reach.as_str(), Ink::Plain),
            match &e.best {
                Some(m) => cell(m.as_str(), Ink::Plain),
                None => cell("—", Ink::Dim),
            },
        ),
        _ => (cell("—", Ink::Dim), cell("—", Ink::Dim), cell("—", Ink::Dim)),
    };
    BandRow { label: b.label.as_str().to_owned(), condx, paths, reach, best }
}

/// The rows of the BANDS window: one per band, forecast beside evidence.
pub fn bands_body(bands: &Vec<BandFacts>) -> (r: Vec<BandRow>)
    ensures
        row_views(r@) == rows_of(bands@),
{
    let mut rows: Vec<BandRow> = Vec::new();
    assert(row_views(rows@) =~= seq![]);
    let mut i: usize = 0;
    while i < bands.len()
        invariant
            i <= bands@.len(),
            row_views(rows@) == rows_of(bands@.take(i as int)),
        decreases bands@.len() - i,
    {
        let ghost before = rows@;
        assert(bands@.take(i + 1).drop_last() =~= bands@.take(i as int));
        if !bands[i].general {
            rows.push(band_row(&bands[i]));
            assert(row_views(rows@) =~= row_views(before).push(row_of(bands@[i as int])));
        }
        i = i + 1;
    }
    assert(bands@.take(i as int) =~= bands@);
    rows
}

// ── Beacons ─────────────────────────────────────────────────────────────────

/// One beacon on the air, each number as it is printed.
#[derive(Debug)]
pub struct BeaconFacts {
    pub band: String,
    pub freq: String,
    pub callsign: String,
    pub location: String,
    /// Which way it lies, as a compass word, if this station knows where it is.
    pub bearing: Option<String>,
    /// How far it is.
    pub distance_km: Option<String>,
}

/// One line of the beacon list.
#[derive(Debug)]
pub struct BeaconRow {
    pub band: String,
    pub freq: String,
    pub callsign: String,
    pub location: String,
    /// Which way and how far.
    pub path: Option<String>,
    pub hover: String,
}

/// The line above the beacon list.
pub open spec fn ibp_label(seconds_left: nat) -> Seq<char> {
    "NCDXF/IARU · next beacon in "@ + decimal(seconds_left) + " s"@
}

/// The line above the beacon list: how long until the next one.
pub fn ibp_caption(seconds_left: u32) -> (r: String)
    ensures
        r@ == ibp_label(seconds_left as nat),
{
    let mut r: String = String::new();
    r.append("NCDXF/IARU · next beacon in ");
    r.append(to_decimal(seconds_left).as_str());
    r.append(" s");
    assert(r@ =~= ibp_label(seconds_left as nat));
    r
}

/// Which way and how far a beacon is, where both are known.
pub open spec fn path_label(bearing: Option<Seq<char>>, distance_km: Option<Seq<char>>) -> Option<
    Seq<char>,
> {
    match (bearing, distance_km) {
        (Some(b), Some(d)) => Some(b + " · "@ + d + " km"@),
        _ => None,
    }
}

/// What is said when the pointer rests on a beacon.
pub open spec fn beacon_hover(callsign: Seq<char>, location: Seq<char>, band: Seq<char>) -> Seq<
    char,
> {
    callsign + " at "@ + location + " — hearing it means the "@ + band
        + " path is open. Each beacon steps up a band every 10 s, so this row changes every slot."@
}

/// Whether a line says what is known of a beacon.
pub open spec fn is_beacon_row(r: BeaconRow, b: BeaconFacts) -> bool {
    &&& r.band@ == b.band@
    &&& r.freq@ == b.freq@ + " MHz"@
    &&& r.callsign@ == b.callsign@
    &&& r.location@ == b.location@
    &&& opt_view(r.path) == path_label(opt_view(b.bearing), opt_view(b.distance_km))
    &&& r.hover@ == beacon_hover(b.callsign@, b.location@, b.band@)
}

/// One line of the beacon list.
fn beacon_row(b: &BeaconFacts) -> (r: BeaconRow)
    ensures
        is_beacon_row(r, *b),
{
    let mut freq: String = String::new();
    freq.append(b.freq.as_str());
    freq.append(" MHz");
    assert(freq@ =~= b.freq@ + " MHz"@);
    let path: Option<String> = match (&b.bearing, &b.distance_km) {
        (Some(way), Some(far)) => {
            let mut p: String = String::new();
            p.append(way.as_str());
            p.append(" · ");
            p.append(far.as_str());
            p.append(" km");
            assert(p@ =~= way@ + " · "@ + far@ + " km"@);
            Some(p)
        },
        _ => None,
    };
    let mut hover: String = String::new();
    hover.append(b.callsign.as_str());
    hover.append(" at ");
    hover.append(b.location.as_str());
    hover.append(" — hearing it means the ");
    hover.append(b.band.as_str());
    hover.append(
        " path is open. Each beacon steps up a band every 10 s, so this row changes every slot.",
    );
    assert(hover@ =~= beacon_hover(b.callsign@, b.location@, b.band@));
    BeaconRow {
        band: b.band.as_str().to_owned(),
        freq,
        callsign: b.callsign.as_str().to_owned(),
        location: b.location.as_str().to_owned(),
        path,
        hover,
    }
}

/// The beacon list at the foot of the BANDS window.
///
/// The schedule is deterministic: eighteen beacons, five bands, a three-minute
/// cycle. A beacon you can hear is a path that is open, measured rather than
/// forecast.
pub fn ibp_section(active: &Vec<BeaconFacts>) -> (r: Vec<BeaconRow>)
    ensures
        r@.len() == active@.len(),
        forall|i: int| 0 <= i < r@.len() ==> is_beacon_row(#[trigger] r@[i], active@[i]),
{
    let mut rows: Vec<BeaconRow> = Vec::new();
    let mut i: usize = 0;
    while i < active.len()
        invariant
            i <= active@.len(),
            rows@.len() == i,
            forall|k: int| 0 <= k < i ==> is_beacon_row(#[trigger] rows@[k], active@[k]),
        decreases active@.len() - i,
    {
        rows.push(beacon_row(&active[i]));
        i = i + 1;
    }
    rows
}

// ── Meteor showers ──────────────────────────────────────────────────────────

/// One active shower, each number as it is printed.
#[derive(Debug)]
pub struct ShowerFacts {
    pub name: String,
    pub code: String,
    pub zhr: String,
    pub velocity_kms: String,
    pub parent: String,
    /// Month and day of the peak.
    pub peak: (u32, u32),
    pub at_peak: bool,
    /// Whether the radiant is above this station's horizon.
    pub radiant_up: bool,
    /// The radiant's altitude, in degrees.
    pub alt_deg: String,
    /// Which way the radiant lies, as a compass word.
    pub azimuth: String,
}

/// One line of the shower list.
#[derive(Debug)]
pub struct ShowerRow {
    pub name: String,
    pub code: String,
    pub zhr: String,
    /// Whether to say that the shower is at its peak.
    pub peak: bool,
    pub radiant: Cell,
    pub hover: String,
}

/// The name of a month, counted from one. What comes before the first is taken
/// for it.
pub open spec fn month_name(month: nat) -> Seq<char> {
    if month <= 1 {
        "Jan"@
    } else if month == 2 {
        "Feb"@
    } else if month == 3 {
        "Mar"@
    } else if month == 4 {
        "Apr"@
    } else if month == 5 {
        "May"@
    } else if month == 6 {
        "Jun"@
    } else if month == 7 {
        "Jul"@
    } else if month == 8 {
        "Aug"@
    } else if month == 9 {
        "Sep"@
    } else if month == 10 {
        "Oct"@
    } else if month == 11 {
        "Nov"@
    } else if month == 12 {
        "Dec"@
    } else {
        "?"@
    }
}

/// The day of a shower's peak: `3 Jan`.
pub open spec fn peak_text(peak: (u32, u32)) -> Seq<char> {
    decimal(peak.1 as nat) + " "@ + month_name(peak.0 as nat)
}

/// "3 Jan" from a `(month, day)` pair, for the hover.
pub fn peak_label(peak: (u32, u32)) -> (r: String)
    ensures
        r@ == peak_text(peak),
{
    let name: &str = if peak.0 <= 1 {
        "Jan"
    } else if peak.0 == 2 {
        "Feb"
    } else if peak.0 == 3 {
        "Mar"
    } else if peak.0 == 4 {
        "Apr"
    } else if peak.0 == 5 {
        "May"
    } else if peak.0 == 6 {
        "Jun"
    } else if peak.0 == 7 {
        "Jul"
    } else if peak.0 == 8 {
        "Aug"
    } else if peak.0 == 9 {
        "Sep"
    } else if peak.0 == 10 {
        "Oct"
    } else if peak.0 == 11 {
        "Nov"
    } else if peak.0 == 12 {
        "Dec"
    } else {
        "?"
    };
    let mut r: String = to_decimal(peak.1);
    r.append(" ");
    r.append(name);
    r
}

/// Where a shower's radiant stands: how high and which way, or how far down.
pub open spec fn radiant_cell(up: bool, alt: Seq<char>, azimuth: Seq<char>) -> CellView {
    if up {
        plain("radiant "@ + alt + "° "@ + azimuth)
    } else {
        CellView { text: "radiant down ("@ + alt + "°)"@, ink: Ink::Dim }
    }
}

/// What is said when the pointer rests on a shower.
pub open spec fn shower_hover(s: ShowerFacts) -> Seq<char> {
    s.name@ + " ("@ + s.code@ + ") — "@ + s.velocity_kms@ + " km/s, parent "@ + s.parent@
        + ". Peak rate ZHR "@ + s.zhr@ + " around "@ + peak_text(s.peak) + SHOWER_NOTE@
}

/// What a radiant means for the station.
pub const SHOWER_NOTE: &'static str =
    ".\n\nA radiant above the horizon means the trails can reach you; a fast shower leaves longer-lived ionised trails for meteor scatter on 6 m and 2 m, and the brief 10 m openings.";

/// Whether a line says what is known of a shower.
pub open spec fn is_shower_row(r: ShowerRow, s: ShowerFacts) -> bool {
    &&& r.name@ == s.name@
    &&& r.code@ == s.code@
    &&& r.zhr@ == "ZHR "@ + s.zhr@
    &&& r.peak == s.at_peak
    &&& r.radiant@ == radiant_cell(s.radiant_up, s.alt_deg@, s.azimuth@)
    &&& r.hover@ == shower_hover(s)
}

/// One line of the shower list.
fn shower_row(s: &ShowerFacts) -> (r: ShowerRow)
    ensures
        is_shower_row(r, *s),
{
    let mut zhr: String = String::new();
    zhr.append("ZHR ");
    zhr.append(s.zhr.as_str());
    assert(zhr@ =~= "ZHR "@ + s.zhr@);
    let mut at: String = String::new();
    let ink: Ink = if s.radiant_up {
        at.append("radiant ");
        at.append(s.alt_deg.as_str());
        at.append("° ");
        at.append(s.azimuth.as_str());
        assert(at@ =~= "radiant "@ + s.alt_deg@ + "° "@ + s.azimuth@);
        Ink::Plain
    } else {
        at.append("radiant down (");
        at.append(s.alt_deg.as_str());
        at.append("°)");
        assert(at@ =~= "radiant down ("@ + s.alt_deg@ + "°)"@);
        Ink::Dim
    };
    let mut hover: String = String::new();
    hover.append(s.name.as_str());
    hover.append(" (");
    hover.append(s.code.as_str());
    hover.append(") — ");
    hover.append(s.velocity_kms.as_str());
    hover.append(" km/s, parent ");
    hover.append(s.parent.as_str());
    hover.append(". Peak rate ZHR ");
    hover.append(s.zhr.as_str());
    hover.append(" around ");
    hover.append(peak_label(s.peak).as_str());
    hover.append(SHOWER_NOTE);
    assert(hover@ =~= shower_hover(*s));
    ShowerRow {
        name: s.name.as_str().to_owned(),
        code: s.code.as_str().to_owned(),
        zhr,
        peak: s.at_peak,
        radiant: Cell { text: at, ink },
        hover,
    }
}

/// The meteor-shower list at the foot of the BANDS window: nothing at all where
/// this station's place is not known, or no shower is active.
///
/// The one propagation forecast that has nothing to do with the ionosphere: a
/// shower's radiant and its date window are fixed, so what is shown is whether
/// it is active now, how strong its peak is, and whether the radiant is above
/// this station's horizon.
pub fn meteor_section(placed: bool, active: &Vec<ShowerFacts>) -> (r: Option<Vec<ShowerRow>>)
    ensures
        match r {
            Some(rows) => placed && active@.len() > 0 && rows@.len() == active@.len() && forall|
                i: int,
            |
                0 <= i < rows@.len() ==> is_shower_row(#[trigger] rows@[i], active@[i]),
            None => !placed || active@.len() == 0,
        },
{
    if !placed || active.len() == 0 {
        return None;
    }
    let mut rows: Vec<ShowerRow> = Vec::new();
    let mut i: usize = 0;
    while i < active.len()
        invariant
            i <= active@.len(),
            rows@.len() == i,
            forall|k: int| 0 <= k < i ==> is_shower_row(#[trigger] rows@[k], active@[k]),
        decreases active@.len() - i,
    {
        rows.push(shower_row(&active[i]));
        i = i + 1;
    }
    Some(rows)
}

/// The line above the shower list, given the station's place as it is printed.
pub open spec fn meteor_label(lat: Seq<char>, lon: Seq<char>) -> Seq<char> {
    "radiants placed for "@ + lat + "°, "@ + lon + "°"@
}

/// The line above the shower list.
pub fn meteor_caption(lat: &str, lon: &str) -> (r: String)
    ensures
        r@ == meteor_label(lat@, lon@),
{
    let mut r: String = String::new();
    r.append("radiants placed for ");
    r.append(lat);
    r.append("°, ");
    r.append(lon);
    r.append("°");
    assert(r@ =~= meteor_label(lat@, lon@));
    r
}

// ── What holds of the whole ─────────────────────────────────────────────────

/// The forecast and the evidence are never reconciled: what is heard does not
/// change what is forecast, and the other way round.
pub proof fn law_forecast_and_evidence_stand_apart(a: BandFacts, b: BandFacts)
    ensures
        a.verdict == b.verdict ==> row_of(a).condx == row_of(b).condx,
        a.evidence == b.evidence ==> row_of(a).paths == row_of(b).paths && row_of(a).reach
            == row_of(b).reach && row_of(a).best == row_of(b).best,
{
}

/// The empty cell is shown where nothing is known: a band without a verdict has
/// none, and a band where nothing was heard, for want of a plane or of paths in
/// it, is given no word for why.
pub proof fn law_nothing_known_shows_an_empty_cell(b: BandFacts)
    ensures
        b.verdict is None ==> row_of(b).condx == dash(),
        b.evidence is None || b.evidence->0.empty ==> row_of(b).paths == dash() && row_of(b).reach == dash() && row_of(
            b,
        ).best == dash(),
{
}

/// Every band has its row, and only bands have one: in order, one for one.
pub proof fn law_every_band_has_a_row(bands: Seq<BandFacts>, more: Seq<BandFacts>, b: BandFacts)
    ensures
        b.general ==> rows_of(bands.push(b)) == rows_of(bands),
        !b.general ==> rows_of(bands.push(b)) == rows_of(bands).push(row_of(b)),
        rows_of(bands + more).len() == rows_of(bands).len() + rows_of(more).len(),
    decreases more.len(),
{
    assert(bands.push(b).drop_last() =~= bands);
    if more.len() == 0 {
        assert(bands + more =~= bands);
    } else {
        assert((bands + more).drop_last() =~= bands + more.drop_last());
        law_every_band_has_a_row(bands, more.drop_last(), b);
    }
}

/// Each cell shows its own fact, as it is printed: the verdict in the colour of
/// its rating, and the evidence, where there is any, in the neutral one.
pub proof fn law_each_cell_shows_its_own_fact(b: BandFacts)
    ensures
        row_of(b).label == b.label@,
        b.verdict matches Some((v, rating)) ==> row_of(b).condx.text == v@ && (rating
            == BandRating::Good <==> row_of(b).condx.ink == Ink::Green) && (rating
            == BandRating::Fair <==> row_of(b).condx.ink == Ink::Yellow) && (rating
            == BandRating::Poor <==> row_of(b).condx.ink == Ink::Pink) && (rating
            == BandRating::Closed <==> row_of(b).condx.ink == Ink::Dim) && (rating
            == BandRating::Unknown <==> row_of(b).condx.ink == Ink::Plain),
        b.evidence matches Some(e) ==> (!e.empty ==> row_of(b).paths.text == e.paths@ && row_of(
            b,
        ).reach.text == e.reach@ && (e.best matches Some(m) ==> row_of(b).best.text == m@
            && row_of(b).best.ink == Ink::Plain) && (e.best is None ==> row_of(b).best == (
        CellView { text: "—"@, ink: Ink::Dim })) && row_of(b).paths.ink == Ink::Plain && row_of(
            b,
        ).reach.ink == Ink::Plain),
{
}

/// The age of a forecast and the time of its observation add up to now, where it
/// was observed at all and the sum is a time.
pub proof fn law_age_and_observation_add_up(observed: Option<i64>, now: i64)
    ensures
        age_of(observed, now as int) is Some <==> observed is Some && observed->0 > 0,
        age_of(observed, now as int) is Some && now - observed->0 >= i64::MIN ==> age_of(
            observed,
            now as int,
        )->0 + observed->0 == now,
        age_of(observed, now as int) is Some && now - observed->0 < i64::MIN ==> age_of(
            observed,
            now as int,
        )->0 == i64::MIN,
{
}

/// The lines above the lists name what they were given: the age of the forecast,
/// the seconds left, and the place, latitude first.
pub proof fn law_the_captions_name_what_they_are_given(
    age: Seq<char>,
    seconds_left: nat,
    lat: Seq<char>,
    lon: Seq<char>,
)
    ensures
        forecast_label(Some(age)) == "· forecast from HAMQSL.com, "@ + age + " old"@,
        ibp_label(seconds_left) == "NCDXF/IARU · next beacon in "@ + decimal(seconds_left) + " s"@,
        meteor_label(lat, lon) == "radiants placed for "@ + lat + "°, "@ + lon + "°"@,
{
}

/// A beacon's line says what is known of it: its band, its frequency in megahertz,
/// its callsign, where it is, and the way and the kilometres to it where both are
/// known.
pub proof fn law_a_beacon_line_says_what_is_known(r: BeaconRow, b: BeaconFacts)
    requires
        is_beacon_row(r, b),
    ensures
        r.band@ == b.band@,
        r.freq@ == b.freq@ + " MHz"@,
        r.callsign@ == b.callsign@,
        r.location@ == b.location@,
        r.path is Some <==> b.bearing is Some && b.distance_km is Some,
        r.path is Some ==> r.path->0@ == b.bearing->0@ + " · "@ + b.distance_km->0@ + " km"@,
        r.hover@ == b.callsign@ + " at "@ + b.location@ + " — hearing it means the "@ + b.band@
            + " path is open. Each beacon steps up a band every 10 s, so this row changes every slot."@,
{
}

/// A shower's line says what is known of it: its name, its code, its rate, whether
/// it is at its peak, and how high its radiant stands, with the way it lies where
/// that is above the horizon.
pub proof fn law_a_shower_line_says_what_is_known(r: ShowerRow, s: ShowerFacts)
    requires
        is_shower_row(r, s),
    ensures
        r.name@ == s.name@,
        r.code@ == s.code@,
        r.zhr@ == "ZHR "@ + s.zhr@,
        r.peak == s.at_peak,
        s.radiant_up ==> r.radiant.ink == Ink::Plain && r.radiant.text@ == "radiant "@ + s.alt_deg@
            + "° "@ + s.azimuth@,
        !s.radiant_up ==> r.radiant.ink == Ink::Dim && r.radiant.text@ == "radiant down ("@
            + s.alt_deg@ + "°)"@,
        r.hover@ == s.name@ + " ("@ + s.code@ + ") — "@ + s.velocity_kms@ + " km/s, parent "@
            + s.parent@ + ". Peak rate ZHR "@ + s.zhr@ + " around "@ + decimal(s.peak.1 as nat)
            + " "@ + month_name(s.peak.0 as nat) + SHOWER_NOTE@,
{
    assert(r.radiant@.text == r.radiant.text@);
    let a = s.name@ + " ("@ + s.code@ + ") — "@ + s.velocity_kms@ + " km/s, parent "@ + s.parent@
        + ". Peak rate ZHR "@ + s.zhr@ + " around "@;
    assert(a + peak_text(s.peak) + SHOWER_NOTE@ =~= a + decimal(s.peak.1 as nat) + " "@
        + month_name(s.peak.0 as nat) + SHOWER_NOTE@);
}

/// A peak is told as its day, then its month; no two months share a name.
pub proof fn law_a_peak_is_told_as_day_and_month(peak: (u32, u32), other: nat)
    ensures
        peak_text(peak) == decimal(peak.1 as nat) + " "@ + month_name(peak.0 as nat),
        1 <= peak.0 <= 12 ==> month_name(peak.0 as nat).len() == 3,
        1 <= peak.0 <= 12 && 1 <= other && other != peak.0 ==> month_name(peak.0 as nat)
            != month_name(other),
{
    reveal_strlit("Jan");
    reveal_strlit("Feb");
    reveal_strlit("Mar");
    reveal_strlit("Apr");
    reveal_strlit("May");
    reveal_strlit("Jun");
    reveal_strlit("Jul");
    reveal_strlit("Aug");
    reveal_strlit("Sep");
    reveal_strlit("Oct");
    reveal_strlit("Nov");
    reveal_strlit("Dec");
    reveal_strlit("?");
    let a = month_name(peak.0 as nat);
    let b = month_name(other);
    if 1 <= peak.0 <= 12 && 1 <= other && other != peak.0 {
        assert(a.len() != b.len() || a[0] != b[0] || a[1] != b[1] || a[2] != b[2]);
    }
}

/// What is said of a row over its characters is what it holds.
pub proof fn law_a_row_is_seen_as_it_is(rows: Seq<BandRow>, i: int, r: BandRow)
    requires
        0 <= i < rows.len(),
    ensures
        row_views(rows).len() == rows.len(),
        row_views(rows)[i] == rows[i]@,
        r@.label == r.label@,
        r@.condx.text == r.condx.text@ && r@.condx.ink == r.condx.ink,
        r@.paths.text == r.paths.text@ && r@.paths.ink == r.paths.ink,
        r@.reach.text == r.reach.text@ && r@.reach.ink == r.reach.ink,
        r@.best.text == r.best.text@ && r@.best.ink == r.best.ink,
{
}

} // verus!
