use psa_ret::bus::can::{
    periodicity_from_text, yaml_message_readable, BusType, CanMessage, Periodicity, Signal, SignalNumber,
    Translation,
};
use psa_ret::yaml::YamlValue;

fn s(text: &str) -> String {
    text.to_string()
}

fn ystr(text: &str) -> YamlValue {
    YamlValue::String(s(text))
}

fn read(text: &str) -> CanMessage {
    CanMessage::from_yaml_str(text)
        .expect("readable description")
        .expect("valid YAML")
}

const FULL_MESSAGE: &str = "\
id: 0x1A0
name: DASHBOARD
alt_names: [DASH, 42, CLUSTER]
length: 8
comment:
  en: Dashboard status
  fr: Etat du combine
type: can
periodicity: 100 ms
senders: [BSI]
receivers: [CMB, BSM]
signals:
  SPEED:
    bits: \"1.0-2.7\"
    type: uint
    signed: false
    factor: 0.01
    offset: -40
    units: km/h
    comment:
      en: Vehicle speed
    values:
      0: {en: stopped}
      1: {en: moving}
    unused: true
  LIGHTS:
    bits: \"3.0\"
";

#[test]
fn translation_get_selects_language() {
    let t = Translation { en: Some(s("Hello")), fr: Some(s("Bonjour")), de: None };
    assert_eq!(t.get("en"), "Hello");
    assert_eq!(t.get("fr"), "Bonjour");
    assert_eq!(t.get("de"), "");
    assert_eq!(t.get("it"), "Hello");
    let empty = Translation::default();
    assert_eq!(empty.get("en"), "");
    assert_eq!(empty.get("fr"), "");
}

#[test]
fn translation_from_yaml_mapping() {
    let node = YamlValue::Hash(vec![
        (ystr("en"), ystr("Speed")),
        (ystr("de"), ystr("Geschwindigkeit")),
        (ystr("it"), ystr("Velocita")),
        (YamlValue::Integer(3), ystr("ignored")),
        (ystr("fr"), YamlValue::Integer(7)),
    ]);
    let t = Translation::from_yaml(&node).unwrap();
    assert_eq!(t, Translation { en: Some(s("Speed")), fr: None, de: Some(s("Geschwindigkeit")) });
    assert_eq!(Translation::from_yaml(&ystr("Speed")), None);
    assert_eq!(Translation::from_yaml(&YamlValue::Hash(vec![])), Some(Translation::default()));
}

#[test]
fn full_message_is_read() {
    let m = read(FULL_MESSAGE);
    assert_eq!(m.id, Some(s("0x1A0")));
    assert_eq!(m.name, Some(s("DASHBOARD")));
    assert_eq!(m.alt_names, Some(vec![s("DASH"), s("CLUSTER")]));
    assert_eq!(m.length, Some(8));
    assert_eq!(
        m.comment,
        Some(Translation { en: Some(s("Dashboard status")), fr: Some(s("Etat du combine")), de: None })
    );
    assert_eq!(m.bus_type, BusType::CAN);
    assert_eq!(m.periodicity, Periodicity::Ms(100));
    assert_eq!(m.senders, vec![s("BSI")]);
    assert_eq!(m.receivers, vec![s("CMB"), s("BSM")]);
    assert_eq!(m.signals.len(), 2);
    let (name, speed) = &m.signals[0];
    assert_eq!(name, "SPEED");
    assert_eq!(speed.bits, Some(s("1.0-2.7")));
    assert_eq!(speed.data_type, Some(s("uint")));
    assert_eq!(speed.signed, Some(false));
    assert_eq!(speed.factor, Some(SignalNumber::Real(s("0.01"))));
    assert_eq!(speed.offset, Some(SignalNumber::Integer(-40)));
    assert_eq!(speed.min, None);
    assert_eq!(speed.units, Some(s("km/h")));
    assert_eq!(speed.comment, Some(Translation { en: Some(s("Vehicle speed")), fr: None, de: None }));
    assert_eq!(speed.values.len(), 2);
    assert_eq!(speed.values[0].0, 0);
    assert_eq!(speed.values[1], (1, Some(Translation { en: Some(s("moving")), fr: None, de: None })));
    assert_eq!(speed.unused, Some(true));
    assert_eq!(m.signals[1].0, "LIGHTS");
    assert_eq!(m.signals[1].1.bits, Some(s("3.0")));
    assert_eq!(m.signals[1].1.values, vec![]);
}

#[test]
fn message_ids() {
    assert_eq!(read("id: 416").id, Some(s("0x1A0")));
    assert_eq!(read("id: 0").id, Some(s("0x0")));
    assert_eq!(read("id: -1").id, Some(s("0xFFFFFFFFFFFFFFFF")));
    assert_eq!(read("id: '1A0'").id, Some(s("1A0")));
    assert_eq!(read("id: true").id, None);
    assert_eq!(read("id: 12\nid2: 3").id, Some(s("0xC")));
}

#[test]
fn message_periodicities() {
    assert_eq!(read("periodicity: 200").periodicity, Periodicity::Ms(200));
    assert_eq!(read("periodicity: 100 ms").periodicity, Periodicity::Ms(100));
    assert_eq!(read("periodicity: 50ms").periodicity, Periodicity::Ms(50));
    assert_eq!(read("periodicity: 10 ms ms").periodicity, Periodicity::Ms(10));
    assert_eq!(read("periodicity: -5ms").periodicity, Periodicity::Ms(-5));
    assert_eq!(read("periodicity: trigger").periodicity, Periodicity::Trigger);
    assert_eq!(read("periodicity: sometimes").periodicity, Periodicity::Error);
    assert_eq!(read("periodicity: [1]").periodicity, Periodicity::NA);
    assert_eq!(read("name: X").periodicity, Periodicity::NA);
}

#[test]
fn unreadable_periodicity_is_refused() {
    assert!(CanMessage::from_yaml_str("periodicity: fast ms").is_none());
    assert!(CanMessage::from_yaml_str("periodicity: ms").is_none());
    assert!(CanMessage::from_yaml_str("periodicity: 99999999999999999999ms").is_none());
}

#[test]
fn empty_and_invalid_texts() {
    assert!(CanMessage::from_yaml_str("").is_none());
    assert_eq!(
        CanMessage::from_yaml_str("a: [1, 2").unwrap().unwrap_err(),
        "Can't parse YAML tree."
    );
}

#[test]
fn bus_types_and_unknown_entries() {
    assert_eq!(read("type: can").bus_type, BusType::CAN);
    assert_eq!(read("type: van").bus_type, BusType::Error);
    assert_eq!(read("type: 3").bus_type, BusType::NA);
    let m = read("colour: red\nlength: eight\n7: x");
    assert_eq!(m.length, None);
    assert_eq!(m.bus_type, BusType::NA);
    let plain = read("just text");
    assert_eq!(plain.name, None);
    assert!(plain.signals.is_empty());
}

#[test]
fn lists_are_appended_and_alt_names_need_strings() {
    let m = read("senders: [A]\nreceivers: [B, 3]\nalt_names: [1, 2]\nsignals: {S: 1, 5: {bits: x}}");
    assert_eq!(m.senders, vec![s("A")]);
    assert_eq!(m.receivers, vec![s("B")]);
    assert_eq!(m.alt_names, None);
    assert_eq!(m.signals.len(), 1);
    assert_eq!(m.signals[0].0, "S");
    assert_eq!(m.signals[0].1.bits, None);
}

#[test]
fn signal_from_yaml_directly() {
    let node = YamlValue::Hash(vec![
        (ystr("factor"), YamlValue::Real(s("0.5"))),
        (ystr("min"), YamlValue::Integer(-3)),
        (ystr("max"), ystr("high")),
        (ystr("alt_names"), YamlValue::Array(vec![ystr("A"), YamlValue::Null, ystr("B")])),
        (ystr("values"), YamlValue::Hash(vec![(YamlValue::Integer(2), ystr("two"))])),
    ]);
    let sig: Signal = Signal::from_yaml(&node);
    assert_eq!(sig.factor, Some(SignalNumber::Real(s("0.5"))));
    assert_eq!(sig.min, Some(SignalNumber::Integer(-3)));
    assert_eq!(sig.max, None);
    assert_eq!(sig.alt_names, Some(vec![s("A"), s("B")]));
    assert_eq!(sig.values, vec![(2, None)]);
    let empty = Signal::from_yaml(&YamlValue::Null);
    assert_eq!(empty.bits, None);
    assert!(empty.values.is_empty());
}

#[test]
fn periodicity_display_texts() {
    assert_eq!(Periodicity::Ms(100).to_string(), " 100ms");
    assert_eq!(Periodicity::Ms(5).to_string(), "   5ms");
    assert_eq!(Periodicity::Ms(-12).to_string(), " -12ms");
    assert_eq!(Periodicity::Ms(123456).to_string(), "123456ms");
    assert_eq!(Periodicity::TriggerOrMs(42).to_string(), "T   42");
    assert_eq!(Periodicity::Trigger.to_string(), " Trig ");
    assert_eq!(Periodicity::Error.to_string(), "Error ");
    assert_eq!(Periodicity::NA.to_string(), "N/A   ");
    assert_eq!(Periodicity::default(), Periodicity::NA);
}

#[test]
fn bus_type_display_texts() {
    assert_eq!(BusType::CAN.to_string(), "CAN");
    assert_eq!(BusType::VAN.to_string(), "VAN");
    assert_eq!(BusType::Kline.to_string(), "K-L");
    assert_eq!(BusType::Error.to_string(), "Err");
    assert_eq!(BusType::NA.to_string(), "N/A");
    assert_eq!(BusType::default(), BusType::NA);
}

#[test]
fn table_cells_of_messages() {
    let m = read(FULL_MESSAGE);
    assert_eq!(
        m.table_cells(),
        vec![s("0x1A0"), s("DASHBOARD"), s(" 100ms"), s("8"), s("Dashboard status"), s("CAN")]
    );
    let bare = read("name: X");
    assert_eq!(bare.table_cells(), vec![s(""), s("X"), s("N/A   "), s("0"), s(""), s("N/A")]);
}

#[test]
fn periodicity_written_in_ms_reads_back() {
    for n in [0i64, 7, -7, 1234, i64::MAX, i64::MIN] {
        let spaced = format!("periodicity: \"{} ms\"", n);
        let plain = format!("periodicity: \"{}ms\"", n);
        assert_eq!(read(&spaced).periodicity, Periodicity::Ms(n));
        assert_eq!(read(&plain).periodicity, Periodicity::Ms(n));
    }
}

#[test]
fn message_from_loaded_documents() {
    let doc = YamlValue::Hash(vec![(ystr("name"), ystr("A")), (ystr("length"), YamlValue::Integer(2))]);
    let m = CanMessage::from_yaml_documents(Some(vec![doc, YamlValue::Null])).unwrap();
    assert_eq!(m.name, Some(s("A")));
    assert_eq!(m.length, Some(2));
    assert_eq!(CanMessage::from_yaml_documents(None).unwrap_err(), "Can't parse YAML tree.");
}

#[test]
fn periodicity_texts_and_readability() {
    assert_eq!(periodicity_from_text("trigger"), Periodicity::Trigger);
    assert_eq!(periodicity_from_text("+20 ms"), Periodicity::Ms(20));
    assert_eq!(periodicity_from_text("20 s"), Periodicity::Error);
    let bad = YamlValue::Hash(vec![(ystr("periodicity"), ystr("x ms"))]);
    let good = YamlValue::Hash(vec![(ystr("periodicity"), ystr("x s")), (ystr("name"), ystr("x ms"))]);
    assert!(!yaml_message_readable(&bad));
    assert!(yaml_message_readable(&good));
    assert!(yaml_message_readable(&ystr("periodicity: x ms")));
}

#[test]
fn periodicity_texts_are_six_wide_in_range() {
    for ms in [-999i64, -1, 0, 42, 9999] {
        assert_eq!(Periodicity::Ms(ms).to_string().chars().count(), 6);
    }
    for ms in [-9999i64, 0, 99999] {
        assert_eq!(Periodicity::TriggerOrMs(ms).to_string().chars().count(), 6);
    }
    assert_eq!(Periodicity::Ms(10000).to_string(), "10000ms");
}
