use physim::messages::{Message, MessagePriority};
use physim::pipeline::{
    line_of_offset, next_step, parse_element_description, split_pipeline_description,
    BuildError, DescriptionError, PipelineBuilder, PipelineMessageClient, SimulationStep,
};
use physim::pipeline::{global_iterations, resolve_element, AddTarget};
use physim::plugin::discover::{element_db, RegisteredElement};
use physim::plugin::meta::ElementMeta;
use physim::plugin::ElementKind;
use serde_json::Value;

#[test]
fn test_parse() {}

#[test]
fn parses_name_and_properties() {
    let d = match parse_element_description("  star mass=100000.0 radius=0.1 z=0.5 name=sun ") {
        Ok(d) => d,
        Err(_) => panic!("should parse"),
    };
    assert_eq!(d.name, "star");
    let props = d.properties;
    assert_eq!(props.get("z"), Some(&Value::from(0.5f64)));
    assert_eq!(props.get("name"), Some(&Value::String("sun".to_string())));
    assert_eq!(props.get_u64("mass"), None);
    assert_eq!(props.get_str("name"), Some("sun"));
    assert_eq!(props.get("missing"), None);
}

#[test]
fn bare_name_has_no_properties() {
    let d = match parse_element_description(" verlet ") {
        Ok(d) => d,
        Err(_) => panic!("should parse"),
    };
    assert_eq!(d.name, "verlet");
    assert!(d.properties.into_entries().is_empty());
}

#[test]
fn later_property_wins() {
    let d = match parse_element_description("cube n=1 n=2") {
        Ok(d) => d,
        Err(_) => panic!("should parse"),
    };
    assert_eq!(d.properties.get_u64("n"), Some(2));
    assert_eq!(d.properties.into_entries().len(), 1);
}

#[test]
fn part_without_equals_is_missing_value() {
    match parse_element_description("cube n=1 seed") {
        Err(DescriptionError::MissingValue { name, part }) => {
            assert_eq!(name, "cube");
            assert_eq!(part, "seed");
        }
        _ => panic!("expected a missing value"),
    }
}

#[test]
fn blank_key_or_value_is_invalid() {
    match parse_element_description("cube =3") {
        Err(DescriptionError::InvalidProperty { name, part }) => {
            assert_eq!(name, "cube");
            assert_eq!(part, "=3");
        }
        _ => panic!("expected an invalid property"),
    }
    match parse_element_description("cube n=") {
        Err(DescriptionError::InvalidProperty { part, .. }) => assert_eq!(part, "n="),
        _ => panic!("expected an invalid property"),
    }
}

#[test]
fn splits_pipeline_description() {
    let parts = split_pipeline_description("cube n=1 ! astro ! verlet !");
    assert_eq!(parts, vec!["cube n=1 ", " astro ", " verlet "]);
    assert!(split_pipeline_description("").is_empty());
    assert_eq!(split_pipeline_description("a!!b"), vec!["a", "", "b"]);
}

fn message(topic: &str, body: &str) -> Message {
    Message {
        priority: MessagePriority::High,
        topic: topic.to_string(),
        message: body.to_string(),
        sender_id: 1,
    }
}

#[test]
fn pipeline_client_pauses_and_quits() {
    let mut c = PipelineMessageClient::new();
    assert!(!c.paused && !c.quit);
    c.recv_message(&message("pipeline", "pause_toggle"));
    assert!(c.paused);
    c.recv_message(&message("pipeline", "pause_toggle"));
    assert!(!c.paused);
    c.recv_message(&message("other", "quit"));
    assert!(!c.quit);
    c.recv_message(&message("pipeline", "quit"));
    assert!(c.quit);
}

#[test]
fn simulation_steps() {
    assert_eq!(next_step(0, 10, false, false), SimulationStep::Advance);
    assert_eq!(next_step(0, 10, true, false), SimulationStep::Wait);
    assert_eq!(next_step(0, 10, true, true), SimulationStep::Stop);
    assert_eq!(next_step(10, 10, false, false), SimulationStep::Stop);
}

#[test]
fn builder_requires_integrator_renderer_and_transform() {
    let b: PipelineBuilder<u32> = PipelineBuilder::new();
    assert_eq!(b.build().err(), Some(BuildError::NoIntegrator));

    let mut b: PipelineBuilder<u32> = PipelineBuilder::new();
    b.add(ElementKind::Integrator, 1);
    assert_eq!(b.build().err(), Some(BuildError::NoRenderer));

    let mut b: PipelineBuilder<u32> = PipelineBuilder::new();
    b.add(ElementKind::Integrator, 1);
    b.add(ElementKind::Render, 2);
    assert_eq!(b.build().err(), Some(BuildError::NoTransforms));
    assert_eq!(BuildError::NoTransforms.message(), "No transforms defined in pipeline");

    let mut b: PipelineBuilder<u32> = PipelineBuilder::new();
    b.add(ElementKind::Integrator, 1);
    b.add(ElementKind::Render, 2);
    b.add(ElementKind::Render, 3);
    b.add(ElementKind::Transmute, 4);
    b.add(ElementKind::Synth, 5);
    b.add(ElementKind::Synth, 6);
    b.add(ElementKind::Initialiser, 7);
    let p = match b.build() {
        Ok(p) => p,
        Err(_) => panic!("should build"),
    };
    assert_eq!(p.render, 3);
    assert_eq!(p.integrator, 1);
    assert_eq!(p.transmutes, vec![4]);
    assert_eq!(p.synths, Some(vec![5, 6]));
    assert_eq!(p.initialisers, vec![7]);
    assert!(p.transforms.is_empty());
}

#[test]
fn error_lines_count_from_one() {
    let text = "[global]\ndt = 1\nbad = ?\n";
    assert_eq!(line_of_offset(text, 0), 1);
    assert_eq!(line_of_offset(text, 9), 2);
    assert_eq!(line_of_offset(text, 22), 3);
    assert_eq!(line_of_offset("é\nx", 3), 2);
}

#[test]
fn load_failure_messages() {
    assert_eq!(
        physim::pipeline::load_failure_message(ElementKind::Synth),
        "Failed to load synth element"
    );
    assert_eq!(
        physim::pipeline::load_failure_message(ElementKind::Render),
        "Failed to load transform element"
    );
}

#[test]
fn quit_stays_after_any_message() {
    let mut c = PipelineMessageClient::new();
    c.recv_message(&message("pipeline", "quit"));
    c.recv_message(&message("pipeline", "pause_toggle"));
    c.recv_message(&message("pipeline", "resume"));
    assert!(c.quit);
    assert!(c.paused);
}

#[test]
fn names_resolve_to_global_or_elements() {
    let m = ElementMeta::new(ElementKind::Integrator, "verlet", "core", "0.1", "MIT", "me", "b", "r");
    let db = element_db(vec![RegisteredElement::new(m, "/v.so", vec![])]);
    assert!(matches!(resolve_element(&db, "global"), Ok(AddTarget::Global)));
    match resolve_element(&db, "verlet") {
        Ok(AddTarget::Element(e)) => assert_eq!(e.get_lib_path(), "/v.so"),
        _ => panic!("verlet is registered"),
    }
    match resolve_element(&db, "euler") {
        Err(e) => assert_eq!(e, "euler is not a registered element"),
        _ => panic!("euler is not registered"),
    }
}

#[test]
fn global_settings_set_iterations() {
    let d = match parse_element_description("global iterations=500 dt=0.1") {
        Ok(d) => d,
        Err(_) => panic!("should parse"),
    };
    assert_eq!(global_iterations(&d.properties, 10000), 500);
    let d = match parse_element_description("global iterations=-3") {
        Ok(d) => d,
        Err(_) => panic!("should parse"),
    };
    assert_eq!(global_iterations(&d.properties, 10000), 10000);
}
