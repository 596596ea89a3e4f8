//! The decisions of the renderers: which shaders to use, the size of the
//! image, when buffered frames are written out and which frames are drawn.

use vstd::prelude::*;

use crate::messages::{Message, MessagePriority};
use crate::properties::{str_property, u64_property, Properties};
use crate::text::str_eq;

verus! {

/// Lower case as `str::to_lowercase` gives it: Unicode's full lower-case
/// mapping of each character, with the final-sigma rule.
pub uninterp spec fn lowercase(s: Seq<char>) -> Seq<char>;

/// `str::to_lowercase`. The contract names the result as a function of the
/// text alone.
#[verifier::external_body]
fn to_lowercase(s: &str) -> (r: String)
    ensures
        r@ == lowercase(s@),
{
    s.to_lowercase()
}

/// The colour schemes a renderer can draw with.
#[derive(Clone, Copy, Debug, PartialEq, Eq, Structural)]
pub enum RenderPipelineShader {
    YellowBlue,
    Velocity,
    RgbVelocity,
    OrangeBlue,
    Hot,
    Smoke,
    Twinkle,
    Id,
}

/// The shader named by lower-case text, if it names one.
pub open spec fn shader_named(name: Seq<char>) -> Option<RenderPipelineShader> {
    if name == "yellowblue"@ || name == "yellow-blue"@ {
        Some(RenderPipelineShader::YellowBlue)
    } else if name == "velocity"@ {
        Some(RenderPipelineShader::Velocity)
    } else if name == "orange-blue"@ {
        Some(RenderPipelineShader::OrangeBlue)
    } else if name == "hot"@ {
        Some(RenderPipelineShader::Hot)
    } else if name == "rgbvelocity"@ || name == "rgb-velocity"@ {
        Some(RenderPipelineShader::RgbVelocity)
    } else if name == "smoke"@ {
        Some(RenderPipelineShader::Smoke)
    } else if name == "twinkle"@ {
        Some(RenderPipelineShader::Twinkle)
    } else if name == "id"@ {
        Some(RenderPipelineShader::Id)
    } else {
        None
    }
}

/// The name the renderers' documentation gives each shader.
pub open spec fn shader_doc_name(v: RenderPipelineShader) -> Seq<char> {
    match v {
        RenderPipelineShader::YellowBlue => "yellowblue"@,
        RenderPipelineShader::Velocity => "velocity"@,
        RenderPipelineShader::RgbVelocity => "rgb-velocity"@,
        RenderPipelineShader::OrangeBlue => "orange-blue"@,
        RenderPipelineShader::Hot => "hot"@,
        RenderPipelineShader::Smoke => "smoke"@,
        RenderPipelineShader::Twinkle => "twinkle"@,
        RenderPipelineShader::Id => "id"@,
    }
}

/// Each shader's documented name chooses that very shader, so no two
/// documented names choose the same shader.
pub proof fn lemma_shader_names(v: RenderPipelineShader, w: RenderPipelineShader)
    ensures
        shader_named(shader_doc_name(v)) == Some(v),
        v != w ==> shader_doc_name(v) != shader_doc_name(w),
        v != w ==> shader_named(shader_doc_name(v)) != shader_named(shader_doc_name(w)),
{
    reveal_strlit("yellowblue");
    reveal_strlit("yellow-blue");
    reveal_strlit("velocity");
    reveal_strlit("orange-blue");
    reveal_strlit("hot");
    reveal_strlit("rgbvelocity");
    reveal_strlit("rgb-velocity");
    reveal_strlit("smoke");
    reveal_strlit("twinkle");
    reveal_strlit("id");
    assert("yellowblue"@.len() == 10 && "yellow-blue"@.len() == 11 && "velocity"@.len() == 8);
    assert("orange-blue"@.len() == 11 && "hot"@.len() == 3 && "rgbvelocity"@.len() == 11);
    assert("rgb-velocity"@.len() == 12 && "smoke"@.len() == 5 && "twinkle"@.len() == 7);
    assert("id"@.len() == 2);
    assert("yellow-blue"@[0] == 'y' && "orange-blue"@[0] == 'o' && "rgbvelocity"@[0] == 'r');
}

/// The source files of each shader's vertex, geometry and fragment stages,
/// relative to the renderer's sources.
pub open spec fn shader_files(s: RenderPipelineShader) -> (Seq<char>, Seq<char>, Seq<char>) {
    match s {
        RenderPipelineShader::YellowBlue => (
            "yellowblue/shader.vert"@,
            "yellowblue/shader.geom"@,
            "yellowblue/shader.frag"@,
        ),
        RenderPipelineShader::Velocity => (
            "velocity/blue-green.vert"@,
            "velocity/shader.geom"@,
            "velocity/shader.frag"@,
        ),
        RenderPipelineShader::RgbVelocity => (
            "velocity/rgb-velocity.vert"@,
            "velocity/shader.geom"@,
            "velocity/shader.frag"@,
        ),
        RenderPipelineShader::Smoke => (
            "velocity/smoke.vert"@,
            "velocity/shader.geom"@,
            "velocity/shader.frag"@,
        ),
        RenderPipelineShader::Twinkle => (
            "velocity/twinkle.vert"@,
            "velocity/shader.geom"@,
            "velocity/shader.frag"@,
        ),
        RenderPipelineShader::Id => ("id/rgb.vert"@, "id/shader.geom"@, "id/shader.frag"@),
        RenderPipelineShader::OrangeBlue => (
            "velocity/orange-blue.vert"@,
            "velocity/shader.geom"@,
            "velocity/shader.frag"@,
        ),
        RenderPipelineShader::Hot => (
            "velocity/hot.vert"@,
            "velocity/shader.geom"@,
            "velocity/shader.frag"@,
        ),
    }
}

impl RenderPipelineShader {
    /// The shader named by `name` once it is in lower case.
    pub fn from_lowercase(name: &str) -> (r: Option<Self>)
        ensures
            r == shader_named(name@),
    {
        if str_eq(name, "yellowblue") || str_eq(name, "yellow-blue") {
            Some(RenderPipelineShader::YellowBlue)
        } else if str_eq(name, "velocity") {
            Some(RenderPipelineShader::Velocity)
        } else if str_eq(name, "orange-blue") {
            Some(RenderPipelineShader::OrangeBlue)
        } else if str_eq(name, "hot") {
            Some(RenderPipelineShader::Hot)
        } else if str_eq(name, "rgbvelocity") || str_eq(name, "rgb-velocity") {
            Some(RenderPipelineShader::RgbVelocity)
        } else if str_eq(name, "smoke") {
            Some(RenderPipelineShader::Smoke)
        } else if str_eq(name, "twinkle") {
            Some(RenderPipelineShader::Twinkle)
        } else if str_eq(name, "id") {
            Some(RenderPipelineShader::Id)
        } else {
            None
        }
    }

    /// The shader named by `s`, in any case.
    pub fn from_str(s: &str) -> (r: Result<Self, ()>)
        ensures
            match shader_named(lowercase(s@)) {
                Some(v) => r == Ok::<Self, ()>(v),
                None => r is Err,
            },
    {
        let lower = to_lowercase(s);
        match Self::from_lowercase(lower.as_str()) {
            Some(v) => Ok(v),
            None => Err(()),
        }
    }

    /// The shader used where none is chosen.
    pub fn default() -> (r: Self)
        ensures
            r == RenderPipelineShader::YellowBlue,
    {
        RenderPipelineShader::YellowBlue
    }

    /// The files of the shader's vertex, geometry and fragment stages.
    pub fn get_shader(&self) -> (r: (&'static str, &'static str, &'static str))
        ensures
            (r.0@, r.1@, r.2@) == shader_files(*self),
    {
        match self {
            Self::YellowBlue => (
                "yellowblue/shader.vert",
                "yellowblue/shader.geom",
                "yellowblue/shader.frag",
            ),
            Self::Velocity => (
                "velocity/blue-green.vert",
                "velocity/shader.geom",
                "velocity/shader.frag",
            ),
            Self::RgbVelocity => (
                "velocity/rgb-velocity.vert",
                "velocity/shader.geom",
                "velocity/shader.frag",
            ),
            Self::Smoke => ("velocity/smoke.vert", "velocity/shader.geom", "velocity/shader.frag"),
            Self::Twinkle => (
                "velocity/twinkle.vert",
                "velocity/shader.geom",
                "velocity/shader.frag",
            ),
            Self::Id => ("id/rgb.vert", "id/shader.geom", "id/shader.frag"),
            Self::OrangeBlue => (
                "velocity/orange-blue.vert",
                "velocity/shader.geom",
                "velocity/shader.frag",
            ),
            Self::Hot => ("velocity/hot.vert", "velocity/shader.geom", "velocity/shader.frag"),
        }
    }
}

/// The shader a renderer's `shader` property chooses: the named one, or the
/// default where the property is missing or names none.
pub fn shader_property(props: &Properties) -> (r: RenderPipelineShader)
    ensures
        r == match str_property(props.view(), "shader"@) {
            Some(t) => match shader_named(lowercase(t)) {
                Some(v) => v,
                None => RenderPipelineShader::YellowBlue,
            },
            None => RenderPipelineShader::YellowBlue,
        },
{
    match props.get_str("shader") {
        Some(name) => match RenderPipelineShader::from_str(name) {
            Ok(v) => v,
            Err(()) => RenderPipelineShader::default(),
        },
        None => RenderPipelineShader::default(),
    }
}

/// The image size that a resolution's name stands for; 1080p where it names
/// none.
pub open spec fn resolution_named(name: Option<Seq<char>>) -> (u64, u64) {
    match name {
        Some(n) => if n == "720p"@ {
            (1280, 720)
        } else if n == "4k"@ {
            (3840, 2160)
        } else {
            (1920, 1080)
        },
        None => (1920, 1080),
    }
}

/// The image size a renderer's `resolution` property chooses.
pub fn resolution_property(props: &Properties) -> (r: (u64, u64))
    ensures
        r == resolution_named(str_property(props.view(), "resolution"@)),
{
    proof {
        reveal_strlit("1080p");
        reveal_strlit("720p");
        reveal_strlit("4k");
        assert("1080p"@.len() == 5 && "720p"@.len() == 4 && "4k"@.len() == 2);
    }
    match props.get_str("resolution") {
        Some(s) => if str_eq(s, "1080p") {
            (1920, 1080)
        } else if str_eq(s, "720p") {
            (1280, 720)
        } else if str_eq(s, "4k") {
            (3840, 2160)
        } else {
            (1920, 1080)
        },
        None => (1920, 1080),
    }
}

/// How many frames the `stdout` renderer buffers before writing them out:
/// the `buffer_size` property, 30 where it is not set to a `u64`.
pub fn buffer_property(props: &Properties) -> (r: u64)
    ensures
        r == match u64_property(props.view(), "buffer_size"@) {
            Some(n) => n,
            None => 30,
        },
{
    match props.get_u64("buffer_size") {
        Some(n) => n,
        None => 30,
    }
}

/// The only frame the `stdout` renderer draws, where its `frame` property
/// chooses one.
pub fn capture_frame_property(props: &Properties) -> (r: Option<u64>)
    ensures
        r == u64_property(props.view(), "frame"@),
{
    props.get_u64("frame")
}

/// Whether the message tells a renderer that the simulation has finished.
pub fn is_finished_message(message: &Message) -> (r: bool)
    ensures
        r == (message.topic@ == "pipeline"@ && message.message@ == "finished"@),
{
    str_eq(message.topic.as_str(), "pipeline") && str_eq(message.message.as_str(), "finished")
}

/// The message a renderer posts for a key press with text, sent as
/// `sender_id`; none for a key without text.
pub fn keypress_message(text: Option<String>, sender_id: usize) -> (r: Option<Message>)
    ensures
        match text {
            Some(t) => r == Some(
                Message {
                    priority: MessagePriority::Normal,
                    topic: r->0.topic,
                    message: t,
                    sender_id,
                },
            ) && r->0.topic@ == "keyboard.press"@,
            None => r is None,
        },
{
    match text {
        Some(t) => Some(
            Message {
                priority: MessagePriority::Normal,
                topic: "keyboard.press".to_owned(),
                message: t,
                sender_id,
            },
        ),
        None => None,
    }
}

/// The keys of a renderer's window that steer the pipeline.
#[derive(Clone, Copy, Debug, PartialEq, Eq, Structural)]
pub enum PipelineKey {
    /// `P` or the space bar.
    Pause,
    /// `Q`.
    Quit,
    /// Any other key.
    Other,
}

/// The message a renderer posts, sent as `sender_id`, when a key that steers
/// the pipeline is pressed: an urgent `pause_toggle` or `quit` on the topic
/// `pipeline`; none for any other key.
pub fn control_message(key: PipelineKey, sender_id: usize) -> (r: Option<Message>)
    ensures
        key == PipelineKey::Other ==> r is None,
        key != PipelineKey::Other ==> (r matches Some(m) && m.priority == MessagePriority::High
            && m.topic@ == "pipeline"@ && m.sender_id == sender_id && m.message@ == (if key
            == PipelineKey::Pause {
            "pause_toggle"@
        } else {
            "quit"@
        })),
{
    match key {
        PipelineKey::Pause => Some(
            Message {
                priority: MessagePriority::High,
                topic: "pipeline".to_owned(),
                message: "pause_toggle".to_owned(),
                sender_id,
            },
        ),
        PipelineKey::Quit => Some(
            Message {
                priority: MessagePriority::High,
                topic: "pipeline".to_owned(),
                message: "quit".to_owned(),
                sender_id,
            },
        ),
        PipelineKey::Other => None,
    }
}

/// Frames waiting to be written out together.
pub struct FrameBuffer {
    buffer: Vec<u8>,
    buffered_frames: usize,
    max_frames: usize,
}

impl FrameBuffer {
    /// The bytes of the buffered frames.
    pub closed spec fn bytes(&self) -> Seq<u8> {
        self.buffer@
    }

    /// How many frames are buffered.
    pub closed spec fn count(&self) -> nat {
        self.buffered_frames as nat
    }

    /// How many frames are written out together.
    pub closed spec fn capacity(&self) -> nat {
        self.max_frames as nat
    }

    /// An empty buffer that writes out every `frames` frames.
    pub fn new(frames: usize) -> (r: Self)
        ensures
            r.bytes() == Seq::<u8>::empty(),
            r.count() == 0,
            r.capacity() == frames,
    {
        FrameBuffer { buffer: Vec::new(), buffered_frames: 0, max_frames: frames }
    }

    /// Adds a frame. The frame that fills the buffer hands back every
    /// buffered byte to be written out, and leaves the buffer empty with no
    /// frame counted; any other frame is kept.
    pub fn push(&mut self, data: &[u8]) -> (r: Option<Vec<u8>>)
        requires
            old(self).count() < usize::MAX,
        ensures
            final(self).capacity() == old(self).capacity(),
            old(self).count() + 1 == old(self).capacity() ==> {
                &&& r matches Some(out) && out@ == old(self).bytes() + data@
                &&& final(self).bytes() == Seq::<u8>::empty()
                &&& final(self).count() == 0
            },
            old(self).count() + 1 != old(self).capacity() ==> {
                &&& r is None
                &&& final(self).bytes() == old(self).bytes() + data@
                &&& final(self).count() == old(self).count() + 1
            },
    {
        let mut i: usize = 0;
        let ghost start = self.buffer@;
        while i < data.len()
            invariant
                i <= data@.len(),
                self.buffer@ == start + data@.take(i as int),
                self.buffered_frames == old(self).buffered_frames,
                self.max_frames == old(self).max_frames,
            decreases data@.len() - i,
        {
            self.buffer.push(data[i]);
            assert(data@.take(i + 1) =~= data@.take(i as int).push(data@[i as int]));
            i = i + 1;
        }
        assert(data@.take(i as int) =~= data@);
        self.buffered_frames = self.buffered_frames + 1;
        if self.buffered_frames == self.max_frames {
            Some(self.take())
        } else {
            None
        }
    }

    /// Takes the buffered bytes to write them out, and empties the buffer.
    pub fn take(&mut self) -> (r: Vec<u8>)
        ensures
            r@ == old(self).bytes(),
            final(self).bytes() == Seq::<u8>::empty(),
            final(self).count() == 0,
            final(self).capacity() == old(self).capacity(),
    {
        let mut out = Vec::new();
        std::mem::swap(&mut out, &mut self.buffer);
        self.buffered_frames = 0;
        out
    }
}

/// What the `stdout` renderer does with a frame.
#[derive(Clone, Copy, Debug, PartialEq, Eq, Structural)]
pub enum FrameAction {
    /// Leave the frame out.
    Skip,
    /// Draw the frame and go on.
    Draw,
    /// Draw the frame, write it out, and stop.
    DrawAndStop,
}

/// What becomes of frame `current` when the renderer was asked for `capture`
/// alone, or for every frame.
pub fn frame_action(capture: Option<u64>, current: u64) -> (r: FrameAction)
    ensures
        r == match capture {
            None => FrameAction::Draw,
            Some(f) => if f == current {
                FrameAction::DrawAndStop
            } else {
                FrameAction::Skip
            },
        },
{
    match capture {
        None => FrameAction::Draw,
        Some(f) => if f == current {
            FrameAction::DrawAndStop
        } else {
            FrameAction::Skip
        },
    }
}

} // verus!
