use physim::messages::{Message, MessagePriority};
use physim::pipeline::parse_element_description;
use physim::properties::Properties;
use physim::render::{control_message, PipelineKey};
use physim::render::{
    buffer_property, capture_frame_property, frame_action, is_finished_message, keypress_message,
    resolution_property, shader_property, FrameAction, FrameBuffer, RenderPipelineShader,
};

fn props(desc: &str) -> Properties {
    match parse_element_description(desc) {
        Ok(d) => d.properties,
        Err(_) => panic!("bad description"),
    }
}

#[test]
fn shader_names_in_any_case() {
    assert_eq!(RenderPipelineShader::from_str("Velocity"), Ok(RenderPipelineShader::Velocity));
    assert_eq!(RenderPipelineShader::from_str("YELLOW-BLUE"), Ok(RenderPipelineShader::YellowBlue));
    assert_eq!(RenderPipelineShader::from_str("rgb-velocity"), Ok(RenderPipelineShader::RgbVelocity));
    assert_eq!(RenderPipelineShader::from_str("plaid"), Err(()));
    assert_eq!(
        RenderPipelineShader::Id.get_shader(),
        ("id/rgb.vert", "id/shader.geom", "id/shader.frag")
    );
}

#[test]
fn renderer_properties() {
    let p = props("stdout resolution=4k shader=hot buffer_size=5 frame=50");
    assert_eq!(resolution_property(&p), (3840, 2160));
    assert_eq!(shader_property(&p), RenderPipelineShader::Hot);
    assert_eq!(buffer_property(&p), 5);
    assert_eq!(capture_frame_property(&p), Some(50));
    let q = props("glrender resolution=8k shader=plaid");
    assert_eq!(resolution_property(&q), (1920, 1080));
    assert_eq!(shader_property(&q), RenderPipelineShader::YellowBlue);
    assert_eq!(buffer_property(&q), 30);
    assert_eq!(capture_frame_property(&q), None);
    let r = props("glrender resolution=720p");
    assert_eq!(resolution_property(&r), (1280, 720));
}

#[test]
fn frame_buffer_flushes_when_full() {
    let mut fb = FrameBuffer::new(2);
    assert_eq!(fb.push(&[1, 2]), None);
    assert_eq!(fb.push(&[3]), Some(vec![1, 2, 3]));
    assert_eq!(fb.push(&[4]), None);
    assert_eq!(fb.push(&[5]), Some(vec![4, 5]));
    assert_eq!(fb.push(&[6]), None);
    assert_eq!(fb.take(), vec![6]);
}

#[test]
fn captured_frame_decisions() {
    assert_eq!(frame_action(None, 3), FrameAction::Draw);
    assert_eq!(frame_action(Some(3), 2), FrameAction::Skip);
    assert_eq!(frame_action(Some(3), 3), FrameAction::DrawAndStop);
}

#[test]
fn renderer_messages() {
    let m = Message {
        priority: MessagePriority::RealTime,
        topic: "pipeline".to_string(),
        message: "finished".to_string(),
        sender_id: 1,
    };
    assert!(is_finished_message(&m));
    let k = keypress_message(Some("q".to_string()), 9).unwrap();
    assert_eq!(k.topic, "keyboard.press");
    assert_eq!(k.message, "q");
    assert_eq!(k.priority, MessagePriority::Normal);
    assert_eq!(k.sender_id, 9);
    assert!(keypress_message(None, 9).is_none());
}

#[test]
fn buffer_size_property_is_read() {
    assert_eq!(buffer_property(&props("stdout buffer=5")), 30);
    assert_eq!(buffer_property(&props("stdout buffer_size=7")), 7);
}

#[test]
fn steering_keys_post_urgent_pipeline_messages() {
    let p = control_message(PipelineKey::Pause, 4).unwrap();
    assert_eq!((p.topic.as_str(), p.message.as_str(), p.sender_id), ("pipeline", "pause_toggle", 4));
    assert_eq!(p.priority, MessagePriority::High);
    let q = control_message(PipelineKey::Quit, 4).unwrap();
    assert_eq!(q.message, "quit");
    assert!(control_message(PipelineKey::Other, 4).is_none());
}
