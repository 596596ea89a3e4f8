//! Reading pipeline descriptions, assembling the elements of a pipeline,
//! and the decisions the running pipeline makes.

use vstd::prelude::*;
use vstd::string::*;
use vstd::utf8::*;

use serde_json::Value;

use crate::messages::Message;
use crate::plugin::discover::{ElementDb, RegisteredElement};
use crate::plugin::ElementKind;
use crate::properties::{
    json_string, parse_json, parsed_json, property_value, property_value_of, u64_property,
    Properties,
};
use crate::text::{
    split_once, split_once_seq, split_terminator, split_terminator_seq, split_whitespace,
    str_concat, str_eq, trim, trim_seq, views_of, words_seq,
};

verus! {

/// The value a property written as `v` takes: its trimmed text read as
/// JSON, or else the text itself as a JSON string.
pub open spec fn property_of_text(v: Seq<char>) -> Value {
    property_value_of(parsed_json(trim_seq(v)), v)
}

/// The properties that the `key=value` parts `parts` add to `acc`, or the
/// first part that is not such a pair: `(true, part)` where it has no `=`,
/// `(false, part)` where its key or value is blank.
pub open spec fn props_from(parts: Seq<Seq<char>>, acc: Map<Seq<char>, Value>) -> Result<
    Map<Seq<char>, Value>,
    (bool, Seq<char>),
>
    decreases parts.len(),
{
    if parts.len() == 0 {
        Ok(acc)
    } else {
        match split_once_seq(parts[0], '=') {
            None => Err((true, parts[0])),
            Some((k, v)) => if trim_seq(k).len() == 0 || trim_seq(v).len() == 0 {
                Err((false, parts[0]))
            } else {
                props_from(parts.drop_first(), acc.insert(trim_seq(k), property_of_text(v)))
            },
        }
    }
}

/// The trimmed key of a `key=value` part, `None` for a part without `=`.
pub open spec fn part_key(part: Seq<char>) -> Option<Seq<char>> {
    match split_once_seq(part, '=') {
        Some((k, _)) => Some(trim_seq(k)),
        None => None,
    }
}

/// Reading parts that do not name `key` leaves what `acc` holds under `key`.
pub proof fn lemma_props_keep(parts: Seq<Seq<char>>, acc: Map<Seq<char>, Value>, key: Seq<char>)
    requires
        forall|j: int| 0 <= j < parts.len() ==> part_key(#[trigger] parts[j]) != Some(key),
        props_from(parts, acc) is Ok,
    ensures
        acc.contains_key(key) ==> props_from(parts, acc)->Ok_0.contains_key(key)
            && props_from(parts, acc)->Ok_0[key] == acc[key],
    decreases parts.len(),
{
    if parts.len() > 0 {
        let (k, v) = split_once_seq(parts[0], '=')->Some_0;
        let rest = parts.drop_first();
        assert(part_key(parts[0]) != Some(key));
        assert forall|j: int| 0 <= j < rest.len() implies part_key(#[trigger] rest[j]) != Some(
            key,
        ) by {
            assert(rest[j] == parts[j + 1]);
        }
        lemma_props_keep(rest, acc.insert(trim_seq(k), property_of_text(v)), key);
    }
}

/// Where a description gives a key more than once, the last value given
/// for it is the one kept.
pub proof fn lemma_props_last_wins(
    parts: Seq<Seq<char>>,
    acc: Map<Seq<char>, Value>,
    i: int,
    key: Seq<char>,
    value: Seq<char>,
)
    requires
        0 <= i < parts.len(),
        split_once_seq(parts[i], '=') == Some((key, value)),
        forall|j: int| i < j < parts.len() ==> part_key(#[trigger] parts[j]) != Some(trim_seq(key)),
        props_from(parts, acc) is Ok,
    ensures
        props_from(parts, acc)->Ok_0.contains_key(trim_seq(key)),
        props_from(parts, acc)->Ok_0[trim_seq(key)] == property_of_text(value),
    decreases parts.len(),
{
    let (k, v) = split_once_seq(parts[0], '=')->Some_0;
    let rest = parts.drop_first();
    let next = acc.insert(trim_seq(k), property_of_text(v));
    if i == 0 {
        assert forall|j: int| 0 <= j < rest.len() implies part_key(#[trigger] rest[j]) != Some(
            trim_seq(key),
        ) by {
            assert(rest[j] == parts[j + 1]);
        }
        lemma_props_keep(rest, next, trim_seq(key));
    } else {
        assert(rest[i - 1] == parts[i]);
        assert forall|j: int| i - 1 < j < rest.len() implies part_key(#[trigger] rest[j])
            != Some(trim_seq(key)) by {
            assert(rest[j] == parts[j + 1]);
        }
        lemma_props_last_wins(rest, next, i - 1, key, value);
    }
}

/// A property's value is what `serde_json` reads from its trimmed text,
/// whenever that text is a JSON document, whatever characters it starts
/// with; only text that is not JSON is kept as a JSON string of the text.
pub proof fn lemma_property_value_is_json(v: Seq<char>)
    ensures
        parsed_json(trim_seq(v)) matches Some(j) ==> property_of_text(v) == j,
        parsed_json(trim_seq(v)) is None ==> property_of_text(v) == json_string(v),
{
}

/// In a description that reads without error, a key given for the last
/// time in a part `key=value` whose trimmed value is a JSON document holds
/// exactly the JSON value `serde_json` reads from it.
pub proof fn lemma_description_json_value(
    d: Seq<char>,
    i: int,
    key: Seq<char>,
    value: Seq<char>,
    j: Value,
)
    requires
        split_once_seq(trim_seq(d), ' ') matches Some((name, rest)) && {
            let parts = words_seq(rest);
            &&& 0 <= i < parts.len()
            &&& split_once_seq(parts[i], '=') == Some((key, value))
            &&& forall|m: int|
                i < m < parts.len() ==> part_key(#[trigger] parts[m]) != Some(trim_seq(key))
        },
        description_result(d) is Ok,
        parsed_json(trim_seq(value)) == Some(j),
    ensures
        description_result(d)->Ok_0.1.contains_key(trim_seq(key)),
        description_result(d)->Ok_0.1[trim_seq(key)] == j,
{
    let (name, rest) = split_once_seq(trim_seq(d), ' ')->Some_0;
    lemma_props_last_wins(words_seq(rest), Map::empty(), i, key, value);
}

/// What an element description `d` stands for: the element's name and
/// properties, or the error `(no '=', name, part)` of its first bad part.
/// The name runs up to the first space of the trimmed description, and the
/// whitespace-separated parts after it are `key=value` pairs.
pub open spec fn description_result(d: Seq<char>) -> Result<
    (Seq<char>, Map<Seq<char>, Value>),
    (bool, Seq<char>, Seq<char>),
> {
    let t = trim_seq(d);
    match split_once_seq(t, ' ') {
        None => Ok((t, Map::empty())),
        Some((name, rest)) => match props_from(words_seq(rest), Map::empty()) {
            Ok(m) => Ok((name, m)),
            Err((missing, part)) => Err((missing, name, part)),
        },
    }
}

/// An element of a pipeline as described: its name and properties.
pub struct ElementDescription {
    pub name: String,
    pub properties: Properties,
}

/// Why an element description could not be read.
pub enum DescriptionError {
    /// A `key=value` part with a blank key or value.
    InvalidProperty { name: String, part: String },
    /// A part without `=`.
    MissingValue { name: String, part: String },
}

impl DescriptionError {
    /// (whether the part lacks `=`, the element's name, the part).
    pub open spec fn view(&self) -> (bool, Seq<char>, Seq<char>) {
        match self {
            DescriptionError::InvalidProperty { name, part } => (false, name@, part@),
            DescriptionError::MissingValue { name, part } => (true, name@, part@),
        }
    }
}

/// Reads one element description, such as `star mass=10 x=0.5`.
pub fn parse_element_description(element_description: &str) -> (r: Result<
    ElementDescription,
    DescriptionError,
>)
    ensures
        match r {
            Ok(d) => description_result(element_description@) == Ok::<
                (Seq<char>, Map<Seq<char>, Value>),
                (bool, Seq<char>, Seq<char>),
            >((d.name@, d.properties.view())),
            Err(e) => description_result(element_description@) == Err::<
                (Seq<char>, Map<Seq<char>, Value>),
                (bool, Seq<char>, Seq<char>),
            >(e.view()),
        },
{
    let d = trim(element_description);
    match split_once(d.as_str(), ' ') {
        None => Ok(ElementDescription { name: d, properties: Properties::new() }),
        Some((name, rest)) => {
            let parts = split_whitespace(rest.as_str());
            let ghost words = views_of(parts@);
            let mut props = Properties::new();
            let mut i: usize = 0;
            assert(words.skip(0) =~= words);
            while i < parts.len()
                invariant
                    i <= parts@.len(),
                    d@ == trim_seq(element_description@),
                    split_once_seq(d@, ' ') == Some((name@, rest@)),
                    words == views_of(parts@),
                    words == words_seq(rest@),
                    props_from(words, Map::empty()) == props_from(words.skip(i as int), props.view()),
                decreases parts@.len() - i,
            {
                let ghost tail = words.skip(i as int);
                assert(tail[0] == parts@[i as int]@);
                assert(tail.drop_first() =~= words.skip(i + 1));
                match split_once(parts[i].as_str(), '=') {
                    None => {
                        return Err(
                            DescriptionError::MissingValue {
                                name: name.clone(),
                                part: parts[i].clone(),
                            },
                        );
                    },
                    Some((k, v)) => {
                        let kt = trim(k.as_str());
                        let vt = trim(v.as_str());
                        if kt.as_str().is_empty() || vt.as_str().is_empty() {
                            return Err(
                                DescriptionError::InvalidProperty {
                                    name: name.clone(),
                                    part: parts[i].clone(),
                                },
                            );
                        }
                        let parsed = parse_json(vt.as_str());
                        let value = property_value(parsed, v);
                        props.insert(kt, value);
                    },
                }
                i = i + 1;
            }
            assert(words.skip(i as int) =~= Seq::<Seq<char>>::empty());
            Ok(ElementDescription { name, properties: props })
        },
    }
}

/// The element descriptions of a pipeline description, which separates them
/// with `!`; a trailing `!` adds no empty description.
pub fn split_pipeline_description(pipeline_description: &str) -> (r: Vec<String>)
    ensures
        views_of(r@) == split_terminator_seq(pipeline_description@, '!'),
{
    split_terminator(pipeline_description, '!')
}

/// The pipeline's own listener on the bus: it pauses and resumes the
/// simulation and asks it to stop.
pub struct PipelineMessageClient {
    pub paused: bool,
    pub quit: bool,
}

/// The effect of `message` on the pipeline's (paused, quit) state: on the
/// topic `pipeline`, `pause_toggle` flips the pause and `quit` asks to stop.
pub open spec fn pipeline_state_after(paused: bool, quit: bool, message: Message) -> (bool, bool) {
    if message.topic@ == "pipeline"@ && message.message@ == "pause_toggle"@ {
        (!paused, quit)
    } else if message.topic@ == "pipeline"@ && message.message@ == "quit"@ {
        (paused, true)
    } else {
        (paused, quit)
    }
}

impl PipelineMessageClient {
    /// Neither paused nor asked to stop.
    pub fn new() -> (r: Self)
        ensures
            !r.paused,
            !r.quit,
    {
        PipelineMessageClient { paused: false, quit: false }
    }

    /// Reacts to a message from the bus.
    pub fn recv_message(&mut self, message: &Message)
        ensures
            (final(self).paused, final(self).quit) == pipeline_state_after(
                old(self).paused,
                old(self).quit,
                *message,
            ),
    {
        if str_eq(message.topic.as_str(), "pipeline") {
            if str_eq(message.message.as_str(), "pause_toggle") {
                self.paused = !self.paused;
            } else if str_eq(message.message.as_str(), "quit") {
                self.quit = true;
            }
        }
    }
}

/// Asking the pipeline to pause twice leaves it as it was.
pub proof fn lemma_pause_toggle_twice(paused: bool, quit: bool, m: Message)
    requires
        m.topic@ == "pipeline"@,
        m.message@ == "pause_toggle"@,
    ensures
        ({
            let (p1, q1) = pipeline_state_after(paused, quit, m);
            pipeline_state_after(p1, q1, m)
        }) == (paused, quit),
{
}

/// Once asked to stop, the pipeline stays asked to stop, whatever message
/// comes next.
pub proof fn lemma_quit_is_final(paused: bool, m: Message)
    ensures
        pipeline_state_after(paused, true, m).1,
{
}

/// What the simulation does next.
#[derive(Clone, Copy, Debug, PartialEq, Eq, Structural)]
pub enum SimulationStep {
    /// Stop: all iterations are done, or a stop was asked for.
    Stop,
    /// Wait while paused, without counting an iteration.
    Wait,
    /// Compute one more iteration.
    Advance,
}

/// The simulation's next step, after `count` of `iterations` iterations.
pub fn next_step(count: u64, iterations: u64, paused: bool, quit: bool) -> (r: SimulationStep)
    ensures
        r == (if count >= iterations || quit {
            SimulationStep::Stop
        } else if paused {
            SimulationStep::Wait
        } else {
            SimulationStep::Advance
        }),
{
    if count >= iterations || quit {
        SimulationStep::Stop
    } else if paused {
        SimulationStep::Wait
    } else {
        SimulationStep::Advance
    }
}

/// Why the elements of a pipeline do not make a pipeline.
#[derive(Clone, Copy, Debug, PartialEq, Eq, Structural)]
pub enum BuildError {
    NoIntegrator,
    NoRenderer,
    NoTransforms,
}

impl BuildError {
    /// The text that explains the error.
    pub fn message(&self) -> (r: &'static str)
        ensures
            r@ == build_error_text(*self),
    {
        match self {
            BuildError::NoIntegrator => "No integrator defined in pipeline",
            BuildError::NoRenderer => "No renderer defined in pipeline",
            BuildError::NoTransforms => "No transforms defined in pipeline",
        }
    }
}

/// The text of each build error.
pub open spec fn build_error_text(e: BuildError) -> Seq<char> {
    match e {
        BuildError::NoIntegrator => "No integrator defined in pipeline"@,
        BuildError::NoRenderer => "No renderer defined in pipeline"@,
        BuildError::NoTransforms => "No transforms defined in pipeline"@,
    }
}

/// The text of the error given when an element of this kind fails to load.
/// A renderer that fails reports a transform, and an integrator a
/// transmute: these are the texts the pipeline has always given, kept so
/// that its error output stays as it was.
pub open spec fn load_failure_text(kind: ElementKind) -> Seq<char> {
    match kind {
        ElementKind::Initialiser => "Failed to load initialiser element"@,
        ElementKind::Transform => "Failed to load transform element"@,
        ElementKind::Render => "Failed to load transform element"@,
        ElementKind::Synth => "Failed to load synth element"@,
        ElementKind::Transmute => "Failed to load transmute element"@,
        ElementKind::Integrator => "Failed to load transmute element"@,
    }
}

/// The error given when an element of this kind fails to load.
pub fn load_failure_message(kind: ElementKind) -> (r: &'static str)
    ensures
        r@ == load_failure_text(kind),
{
    match kind {
        ElementKind::Initialiser => "Failed to load initialiser element",
        ElementKind::Transform => "Failed to load transform element",
        ElementKind::Render => "Failed to load transform element",
        ElementKind::Synth => "Failed to load synth element",
        ElementKind::Transmute => "Failed to load transmute element",
        ElementKind::Integrator => "Failed to load transmute element",
    }
}

/// The loaded elements of a complete pipeline, each held by the caller's
/// handle `H`.
pub struct PipelineElements<H> {
    pub initialisers: Vec<H>,
    pub synths: Option<Vec<H>>,
    pub transforms: Vec<H>,
    pub transmutes: Vec<H>,
    pub render: H,
    pub integrator: H,
}

/// The elements of a pipeline as they are added, by kind.
pub struct PipelineBuilder<H> {
    pub initialisers: Vec<H>,
    pub synths: Option<Vec<H>>,
    pub transforms: Vec<H>,
    pub transmutes: Vec<H>,
    pub render: Option<H>,
    pub integrator: Option<H>,
}

/// The synths gathered so far, none where there is no list yet.
pub open spec fn synth_seq<H>(synths: Option<Vec<H>>) -> Seq<H> {
    match synths {
        Some(v) => v@,
        None => Seq::empty(),
    }
}

/// Whether the elements make a pipeline: one integrator, one renderer, and
/// at least one transform or transmute.
pub open spec fn builds<H>(b: PipelineBuilder<H>) -> bool {
    b.integrator is Some && b.render is Some && (b.transforms@.len() > 0 || b.transmutes@.len()
        > 0)
}

/// The error of a builder that does not make a pipeline, the first missing
/// piece in the order integrator, renderer, transforms.
pub open spec fn build_error_of<H>(b: PipelineBuilder<H>) -> BuildError {
    if b.integrator is None {
        BuildError::NoIntegrator
    } else if b.render is None {
        BuildError::NoRenderer
    } else {
        BuildError::NoTransforms
    }
}

impl<H> PipelineBuilder<H> {
    /// No elements yet.
    pub fn new() -> (r: Self)
        ensures
            r.initialisers@.len() == 0,
            r.synths is None,
            r.transforms@.len() == 0,
            r.transmutes@.len() == 0,
            r.render is None,
            r.integrator is None,
    {
        PipelineBuilder {
            initialisers: Vec::new(),
            synths: None,
            transforms: Vec::new(),
            transmutes: Vec::new(),
            render: None,
            integrator: None,
        }
    }

    /// Adds a loaded element of kind `kind`: initialisers, synths,
    /// transforms and transmutes gather in the order added; a renderer or
    /// integrator takes the place of any added before it.
    pub fn add(&mut self, kind: ElementKind, element: H)
        ensures
            final(self).initialisers@ == (if kind == ElementKind::Initialiser {
                old(self).initialisers@.push(element)
            } else {
                old(self).initialisers@
            }),
            final(self).transforms@ == (if kind == ElementKind::Transform {
                old(self).transforms@.push(element)
            } else {
                old(self).transforms@
            }),
            final(self).transmutes@ == (if kind == ElementKind::Transmute {
                old(self).transmutes@.push(element)
            } else {
                old(self).transmutes@
            }),
            kind == ElementKind::Synth ==> final(self).synths is Some && synth_seq(
                final(self).synths,
            ) == synth_seq(old(self).synths).push(element),
            kind != ElementKind::Synth ==> final(self).synths == old(self).synths,
            final(self).render == (if kind == ElementKind::Render {
                Some(element)
            } else {
                old(self).render
            }),
            final(self).integrator == (if kind == ElementKind::Integrator {
                Some(element)
            } else {
                old(self).integrator
            }),
    {
        match kind {
            ElementKind::Initialiser => self.initialisers.push(element),
            ElementKind::Transform => self.transforms.push(element),
            ElementKind::Render => {
                self.render = Some(element);
            },
            ElementKind::Synth => {
                match self.synths.take() {
                    Some(mut els) => {
                        els.push(element);
                        self.synths = Some(els);
                    },
                    None => {
                        let mut els = Vec::new();
                        els.push(element);
                        self.synths = Some(els);
                    },
                }
            },
            ElementKind::Transmute => self.transmutes.push(element),
            ElementKind::Integrator => {
                self.integrator = Some(element);
            },
        }
    }

    /// The pipeline's elements, or the first piece that is missing.
    pub fn build(self) -> (r: Result<PipelineElements<H>, BuildError>)
        ensures
            builds(self) <==> r is Ok,
            match r {
                Ok(p) => {
                    &&& p.initialisers == self.initialisers
                    &&& p.synths == self.synths
                    &&& p.transforms == self.transforms
                    &&& p.transmutes == self.transmutes
                    &&& self.render == Some(p.render)
                    &&& self.integrator == Some(p.integrator)
                },
                Err(e) => e == build_error_of(self),
            },
    {
        if self.integrator.is_none() {
            Err(BuildError::NoIntegrator)
        } else if self.render.is_none() {
            Err(BuildError::NoRenderer)
        } else if self.transforms.len() == 0 && self.transmutes.len() == 0 {
            Err(BuildError::NoTransforms)
        } else {
            let PipelineBuilder { initialisers, synths, transforms, transmutes, render, integrator } =
                self;
            match (render, integrator) {
                (Some(render), Some(integrator)) => Ok(
                    PipelineElements {
                        initialisers,
                        synths,
                        transforms,
                        transmutes,
                        render,
                        integrator,
                    },
                ),
                _ => Err(BuildError::NoIntegrator),
            }
        }
    }
}

/// What a name in a pipeline description stands for.
pub enum AddTarget<'a> {
    /// The settings of the whole simulation.
    Global,
    /// A registered element.
    Element(&'a RegisteredElement),
}

/// Finds what the name `name` of a pipeline description stands for:
/// `global` names the simulation's settings, any other name a registered
/// element; an unknown name is an error that says so.
pub fn resolve_element<'a>(db: &'a ElementDb, name: &str) -> (r: Result<AddTarget<'a>, String>)
    ensures
        name@ == "global"@ ==> r matches Ok(AddTarget::Global),
        name@ != "global"@ && db.view().contains_key(name@) ==> (r matches Ok(
            AddTarget::Element(e),
        ) && *e == db.view()[name@]),
        name@ != "global"@ && !db.view().contains_key(name@) ==> (r matches Err(s) && s@ == name@
            + " is not a registered element"@),
{
    if str_eq(name, "global") {
        return Ok(AddTarget::Global);
    }
    match db.get(name) {
        Some(e) => Ok(AddTarget::Element(e)),
        None => Err(str_concat(name, " is not a registered element")),
    }
}

/// The number of iterations after the `global` settings `props`: their
/// `iterations` where it is a `u64`, else `current`.
pub fn global_iterations(props: &Properties, current: u64) -> (r: u64)
    ensures
        r == match u64_property(props.view(), "iterations"@) {
            Some(n) => n,
            None => current,
        },
{
    match props.get_u64("iterations") {
        Some(n) => n,
        None => current,
    }
}

/// How many newline characters `s` holds.
pub open spec fn count_newlines(s: Seq<char>) -> nat
    decreases s.len(),
{
    if s.len() == 0 {
        0
    } else {
        count_newlines(s.drop_last()) + if s.last() == '\n' {
            1nat
        } else {
            0nat
        }
    }
}

proof fn lemma_encoding_at_least_as_long(chars: Seq<char>)
    ensures
        encode_utf8(chars).len() >= chars.len(),
    decreases chars.len(),
{
    if chars.len() > 0 {
        lemma_encoding_at_least_as_long(chars.drop_first());
    }
}

/// The line, counted from 1, on which the byte at `offset` of `text` lies:
/// one more than the newlines among the characters before it.
pub fn line_of_offset(text: &str, offset: usize) -> (r: usize)
    requires
        is_char_boundary(text.spec_bytes(), offset as int),
        offset < usize::MAX,
    ensures
        r == 1 + count_newlines(decode_utf8(text.spec_bytes().subrange(0, offset as int))),
{
    broadcast use vstd::string::group_string_axioms;
    proof {
        encode_utf8_valid_utf8(text@);
        assert(offset as int <= text.spec_bytes().len());
    }
    let (prefix, _) = text.split_at(offset);
    proof {
        encode_utf8_decode_utf8(prefix@);
        lemma_encoding_at_least_as_long(prefix@);
        assert(prefix.spec_bytes() =~= text.spec_bytes().subrange(0, offset as int));
    }
    let mut line: usize = 1;
    for c in it: prefix.chars()
        invariant
            it.seq() == prefix@,
            prefix@.len() <= offset,
            offset < usize::MAX,
            line == 1 + count_newlines(it.seq().take(it.index())),
            line <= 1 + it.index(),
    {
        proof {
            assert(it.seq().take(it.index() + 1).drop_last() =~= it.seq().take(it.index()));
        }
        if c == '\n' {
            line = line + 1;
        }
    }
    assert(prefix@.take(prefix@.len() as int) =~= prefix@);
    line
}

} // verus!
