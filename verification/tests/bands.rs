//! What each band is doing.
use sdroxide::bands::{
    bands_body, conditions_age, daylight_text, forecast_text, ibp_caption, ibp_section,
    meteor_caption, meteor_section, peak_label, rating_color, BandFacts, BandRating, BeaconFacts,
    Evidence, Ink, ShowerFacts,
};

#[test]
fn a_rating_has_its_colour() {
    assert_eq!(rating_color(BandRating::Good), Some(Ink::Green));
    assert_eq!(rating_color(BandRating::Fair), Some(Ink::Yellow));
    assert_eq!(rating_color(BandRating::Poor), Some(Ink::Pink));
    assert_eq!(rating_color(BandRating::Closed), Some(Ink::Dim));
    assert_eq!(rating_color(BandRating::Unknown), None);
}

#[test]
fn a_forecast_has_an_age_once_it_was_observed() {
    assert_eq!(conditions_age(Some(1_000), 4_600), Some(3_600));
    assert_eq!(conditions_age(Some(0), 4_600), None);
    assert_eq!(conditions_age(Some(-5), 4_600), None);
    assert_eq!(conditions_age(None, 4_600), None);
    assert_eq!(conditions_age(Some(5), i64::MIN), Some(i64::MIN));
    assert_eq!(forecast_text(Some("2 h".into())), "· forecast from HAMQSL.com, 2 h old");
    assert_eq!(forecast_text(None), "· no forecast yet — fetching from HAMQSL.com");
    assert_eq!(daylight_text(true), "☀ DAYLIGHT");
    assert_eq!(daylight_text(false), "☾ NIGHT");
}

fn band(label: &str) -> BandFacts {
    BandFacts { label: label.into(), general: false, verdict: None, evidence: None }
}

/// One row per band, and the empty cell where nothing is known.
#[test]
fn every_band_has_a_row() {
    let heard = |best: Option<String>| {
        Some(Evidence { empty: false, paths: "12".into(), reach: "34%".into(), best })
    };
    let rows = bands_body(&vec![
        BandFacts { general: true, ..band("GEN") },
        band("160m"),
        BandFacts {
            verdict: Some(("Good".into(), BandRating::Good)),
            evidence: heard(Some("+9 dB".into())),
            ..band("20m")
        },
        BandFacts {
            verdict: Some(("Spotty".into(), BandRating::Unknown)),
            evidence: heard(None),
            ..band("10m")
        },
        BandFacts {
            verdict: Some(("Closed".into(), BandRating::Closed)),
            evidence: heard(Some("+9 dB".into())).map(|e| Evidence { empty: true, ..e }),
            ..band("6m")
        },
    ]);
    let cells: Vec<Vec<(&str, Ink)>> = rows
        .iter()
        .map(|r| {
            [&r.condx, &r.paths, &r.reach, &r.best].map(|c| (c.text.as_str(), c.ink)).to_vec()
        })
        .collect();
    let labels: Vec<&str> = rows.iter().map(|r| r.label.as_str()).collect();
    assert_eq!(labels, ["160m", "20m", "10m", "6m"]);
    assert_eq!(cells[0], [("—", Ink::Dim); 4]);
    assert_eq!(
        cells[1],
        [("Good", Ink::Green), ("12", Ink::Plain), ("34%", Ink::Plain), ("+9 dB", Ink::Plain)]
    );
    assert_eq!(
        cells[2],
        [("Spotty", Ink::Plain), ("12", Ink::Plain), ("34%", Ink::Plain), ("—", Ink::Dim)]
    );
    // A plane without paths is nothing heard, whatever its numbers say.
    assert_eq!(
        cells[3],
        [("Closed", Ink::Dim), ("—", Ink::Dim), ("—", Ink::Dim), ("—", Ink::Dim)]
    );
}

#[test]
fn a_beacon_is_told_with_its_path() {
    assert_eq!(ibp_caption(7), "NCDXF/IARU · next beacon in 7 s");
    let beacon = |bearing: Option<&str>, distance_km: Option<&str>| BeaconFacts {
        band: "20m".into(),
        freq: "14.100".into(),
        callsign: "4U1UN".into(),
        location: "New York".into(),
        bearing: bearing.map(String::from),
        distance_km: distance_km.map(String::from),
    };
    let rows = ibp_section(&vec![
        beacon(Some("NW"), Some("6800")),
        beacon(Some("NW"), None),
        beacon(None, Some("6800")),
    ]);
    assert_eq!(rows[0].path.as_deref(), Some("NW · 6800 km"));
    assert_eq!((rows[1].path.as_deref(), rows[2].path.as_deref()), (None, None));
    assert_eq!(rows[0].freq, "14.100 MHz");
    assert_eq!((rows[0].band.as_str(), rows[0].callsign.as_str()), ("20m", "4U1UN"));
    assert_eq!(rows[0].location, "New York");
    assert_eq!(
        rows[0].hover,
        "4U1UN at New York — hearing it means the 20m path is open. Each beacon steps up a band \
         every 10 s, so this row changes every slot."
    );
}

fn shower(radiant_up: bool) -> ShowerFacts {
    ShowerFacts {
        name: "Quadrantids".into(),
        code: "QUA".into(),
        zhr: "110".into(),
        velocity_kms: "41".into(),
        parent: "2003 EH1".into(),
        peak: (1, 3),
        at_peak: radiant_up,
        radiant_up,
        alt_deg: "42".into(),
        azimuth: "NE".into(),
    }
}

#[test]
fn a_shower_is_told_with_its_radiant() {
    assert!(meteor_section(false, &vec![shower(true)]).is_none());
    assert!(meteor_section(true, &Vec::new()).is_none());
    let rows = meteor_section(true, &vec![shower(true), shower(false)]).expect("rows");
    assert_eq!((rows[0].name.as_str(), rows[0].code.as_str()), ("Quadrantids", "QUA"));
    assert_eq!((rows[0].zhr.as_str(), rows[0].peak, rows[1].peak), ("ZHR 110", true, false));
    assert_eq!((rows[0].radiant.text.as_str(), rows[0].radiant.ink), ("radiant 42° NE", Ink::Plain));
    assert_eq!(
        (rows[1].radiant.text.as_str(), rows[1].radiant.ink),
        ("radiant down (42°)", Ink::Dim)
    );
    assert_eq!(
        rows[0].hover,
        "Quadrantids (QUA) — 41 km/s, parent 2003 EH1. Peak rate ZHR 110 around 3 Jan.\n\nA \
         radiant above the horizon means the trails can reach you; a fast shower leaves \
         longer-lived ionised trails for meteor scatter on 6 m and 2 m, and the brief 10 m \
         openings."
    );
    assert_eq!(meteor_caption("48", "-16"), "radiants placed for 48°, -16°");
}

#[test]
fn a_peak_is_told_as_day_and_month() {
    assert_eq!(peak_label((1, 3)), "3 Jan");
    assert_eq!(peak_label((12, 14)), "14 Dec");
    assert_eq!(peak_label((8, 12)), "12 Aug");
    // What comes before the first month is taken for it; past the last there is
    // no name.
    assert_eq!(peak_label((0, 5)), "5 Jan");
    assert_eq!(peak_label((13, 5)), "5 ?");
    let names: Vec<String> = (1..=12).map(|m| peak_label((m, 1))).collect();
    assert_eq!(
        names,
        [
            "1 Jan", "1 Feb", "1 Mar", "1 Apr", "1 May", "1 Jun", "1 Jul", "1 Aug", "1 Sep",
            "1 Oct", "1 Nov", "1 Dec"
        ]
    );
}
