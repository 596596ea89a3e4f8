use physim::elements::{
    bpm_mode_property, integrator_message_line, BpmMode, BpmSchedule, CsvSink, DebugTransform,
    IdTransmute, MessageDebug, MessageDebugMode, RandSynth, SolarSystem,
};
use physim::messages::{Message, MessagePriority};
use physim::pipeline::parse_element_description;
use physim::plugin::Element;
use physim::properties::Properties;

fn props(desc: &str) -> Properties {
    match parse_element_description(desc) {
        Ok(d) => d.properties,
        Err(_) => panic!("bad description"),
    }
}

fn message(topic: &str, body: &str) -> Message {
    Message {
        priority: MessagePriority::Low,
        topic: topic.to_string(),
        message: body.to_string(),
        sender_id: 3,
    }
}

#[test]
fn randsynth_toggles_on_t() {
    let mut s = RandSynth::create_element();
    assert!(!s.active);
    s.recv_message(&message("keyboard.press", "t"));
    assert!(s.active);
    s.recv_message(&message("keyboard.press", "x"));
    assert!(s.active);
    s.recv_message(&message("keyboard.press", "t"));
    assert!(!s.active);
}

#[test]
fn message_printer_lines() {
    let v = MessageDebug::create_element(&props("msgdebug"));
    assert_eq!(v.mode, MessageDebugMode::Verbose);
    assert_eq!(
        v.recv_message(&message("a", "b")),
        "[MSGDEBUG] Priority: Low - topic a - message: b"
    );
    let b = MessageDebug::create_element(&props("msgdebug mode=brief"));
    assert_eq!(b.mode, MessageDebugMode::Brief);
    assert_eq!(b.recv_message(&message("a", "b")), "[MSGDEBUG] Priority: Low - topic a");
    assert_eq!(
        integrator_message_line(&message("t", "m")),
        "[FINTEGRATE] Priority: Low - topic t"
    );
}

#[test]
fn ids_are_given_in_order() {
    let mut t = IdTransmute::create_element();
    let mut ids = vec![0, 7, 0, 0];
    t.transmute(&mut ids);
    assert_eq!(ids, vec![1, 7, 2, 3]);
    let mut more = vec![0];
    t.transmute(&mut more);
    assert_eq!(more, vec![4]);
    assert_eq!(t.current_id, 5);
}

#[test]
fn bpm_schedule() {
    let mut s = BpmSchedule::create_element(&props("bpm n=3"));
    assert_eq!(s.n, 3);
    assert!(!s.tick());
    assert!(!s.tick());
    assert!(s.tick());
    assert_eq!(BpmSchedule::create_element(&props("bpm")).n, 1);
    assert_eq!(bpm_mode_property(&props("bpm mode=exclude")), BpmMode::Exclude);
    assert_eq!(bpm_mode_property(&props("bpm mode=other")), BpmMode::Always);
}

#[test]
fn csv_sink_settings() {
    let c = CsvSink::create_element(&props("csvsink print_n=2 file=out.csv"));
    assert_eq!(c.print_n, 2);
    assert_eq!(c.file, "out.csv");
    assert!(c.should_print(4));
    assert!(!c.should_print(5));
    let d = CsvSink::create_element(&props("csvsink"));
    assert_eq!(d.print_n, 1);
    assert_eq!(d.file, "csvsink.csv");
}

#[test]
fn solar_system_settings() {
    let s = SolarSystem::create_element(&props("solar seed=4 planets=8"));
    assert_eq!((s.seed, s.planets, s.asteroids), (4, 8, 0));
}

#[test]
fn debug_transform_reports() {
    let d = DebugTransform::new();
    let m = d.transformed_message(11);
    assert_eq!(m.topic, "debugplugin");
    assert_eq!(m.message, "transformed");
    assert_eq!(m.priority, MessagePriority::Low);
    assert!(d.get_property_descriptions().is_empty());
}

#[test]
fn elements_describe_their_properties() {
    let sink = CsvSink::create_element(&props("csvsink"));
    assert_eq!(
        sink.get_property_descriptions(),
        Ok(vec![("print_n".to_string(), "print every n iterations".to_string())])
    );
    let ids = IdTransmute::create_element();
    assert_eq!(ids.get_property_descriptions(), Ok(vec![]));
}

#[test]
fn cloud_settings_default_and_override() {
    let s = physim::elements::CloudSettings::from_properties(&props("cube"));
    assert_eq!((s.n, s.seed, s.id), (100000, 0, 0));
    let s = physim::elements::CloudSettings::from_properties(&props("cube n=10 seed=3 id=7 size=2.5"));
    assert_eq!((s.n, s.seed, s.id), (10, 3, 7));
}
