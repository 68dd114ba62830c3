use adsb_xgps::callsign::submit_callsign;
use adsb_xgps::decimal::Decimal;
use adsb_xgps::html::escape_html;
use adsb_xgps::link::{next_step, LinkAction, LinkEvent, LinkState, RETRY_DELAY_MS};

#[test]
fn escape_html_special_chars() {
    assert_eq!(escape_html("<script>"), "&lt;script&gt;");
    assert_eq!(escape_html("a&b"), "a&amp;b");
    assert_eq!(escape_html(r#"he said "hi""#), "he said &quot;hi&quot;");
    assert_eq!(escape_html("plain"), "plain");
}

#[test]
fn empty_submission_keeps_callsign() {
    let mut cell = "KEEP".to_string();
    assert!(!submit_callsign(&mut cell, ""));
    assert_eq!(cell, "KEEP");
    assert!(!submit_callsign(&mut cell, "  \t "));
    assert_eq!(cell, "KEEP");
}

#[test]
fn submission_is_trimmed() {
    let mut cell = "OLD".to_string();
    assert!(submit_callsign(&mut cell, "  NEW123 "));
    assert_eq!(cell, "NEW123");
}

#[test]
fn decimal_grammar() {
    let d = Decimal::parse("-6.456").unwrap();
    assert_eq!((d.mantissa, d.scale), (-6456, 3));
    let d = Decimal::parse(" +35000 ").unwrap();
    assert_eq!((d.mantissa, d.scale), (35000, 0));
    assert_eq!(Decimal::parse(".5").map(|d| (d.mantissa, d.scale)), Some((5, 1)));
    assert_eq!(Decimal::parse("5.").map(|d| (d.mantissa, d.scale)), Some((5, 0)));
    assert!(Decimal::parse("").is_none());
    assert!(Decimal::parse(".").is_none());
    assert!(Decimal::parse("-").is_none());
    assert!(Decimal::parse("1.2.3").is_none());
    assert!(Decimal::parse("12a").is_none());
    assert!(Decimal::parse("1e5").is_none());
    assert!(Decimal::parse("123456789012345678").is_some());
    assert!(Decimal::parse("1234567890123456789").is_none());
}

#[test]
fn decimal_text() {
    assert_eq!(Decimal::parse("40.0").unwrap().to_text(), "40");
    assert_eq!(Decimal::parse("-0.460").unwrap().to_text(), "-0.46");
    assert_eq!(Decimal::parse("0.000").unwrap().to_text(), "0");
    assert_eq!(Decimal::parse("51.47").unwrap().to_fixed(5), "51.47000");
    assert_eq!(Decimal::parse("0.05").unwrap().to_fixed(1), "0.1");
    assert_eq!(Decimal::parse("-0.04").unwrap().to_fixed(1), "-0.0");
    assert_eq!(Decimal::parse("35000").unwrap().to_fixed(0), "35000");
    assert_eq!(Decimal::parse("179.5").unwrap().to_fixed(0), "180");
}

#[test]
fn link_reconnects_forever() {
    let (s, a) = next_step(LinkState::Disconnected, LinkEvent::Ready);
    assert_eq!((s, a), (LinkState::Connecting, LinkAction::Connect));
    let (s, a) = next_step(s, LinkEvent::ConnectFailed);
    assert_eq!((s, a), (LinkState::Disconnected, LinkAction::Wait(RETRY_DELAY_MS)));
    assert_eq!(RETRY_DELAY_MS, 1000);
    let (s, _) = next_step(s, LinkEvent::Ready);
    let (s, a) = next_step(s, LinkEvent::Connected);
    assert_eq!((s, a), (LinkState::Streaming, LinkAction::ReadLine));
    let (s, a) = next_step(s, LinkEvent::LineReceived);
    assert_eq!((s, a), (LinkState::Streaming, LinkAction::ReadLine));
    let (s, a) = next_step(s, LinkEvent::StreamEnded);
    assert_eq!((s, a), (LinkState::Disconnected, LinkAction::Wait(RETRY_DELAY_MS)));
}

#[test]
fn well_formed_decimals() {
    assert!(Decimal::parse("-999999999999999999").unwrap().is_well_formed());
    let d = Decimal { mantissa: i64::MAX, scale: 0 };
    assert!(!d.is_well_formed());
    let d = Decimal { mantissa: 1, scale: 19 };
    assert!(!d.is_well_formed());
}
