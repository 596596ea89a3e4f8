//! The decisions of elements whose work is otherwise numerical: switches,
//! counters, schedules and the texts they print.

use vstd::prelude::*;

use crate::messages::{priority_name, Message, MessageClient, MessagePriority};
use crate::plugin::Element;
use crate::properties::{str_property, u64_property, Properties};
use crate::text::{str_concat, str_eq};

verus! {

/// The synth that adds random entities while it is switched on.
pub struct RandSynth {
    pub active: bool,
}

impl RandSynth {
    /// Switched off.
    pub fn create_element() -> (r: Self)
        ensures
            !r.active,
    {
        RandSynth { active: false }
    }

    /// The key `t` switches the synth on and off.
    pub fn recv_message(&mut self, message: &Message)
        ensures
            final(self).active == if message.topic@ == "keyboard.press"@ && message.message@
                == "t"@ {
                !old(self).active
            } else {
                old(self).active
            },
    {
        if str_eq(message.topic.as_str(), "keyboard.press") && str_eq(message.message.as_str(), "t") {
            self.active = !self.active;
        }
    }
}

/// How much of each message the message printer shows.
#[derive(Clone, Copy, Debug, PartialEq, Eq, Structural)]
pub enum MessageDebugMode {
    Verbose,
    Brief,
}

/// The element that prints every message it receives.
pub struct MessageDebug {
    pub mode: MessageDebugMode,
}

/// The line the message printer shows for `m`.
pub open spec fn debug_line(mode: MessageDebugMode, m: Message) -> Seq<char> {
    match mode {
        MessageDebugMode::Verbose => "[MSGDEBUG] Priority: "@ + priority_name(m.priority)
            + " - topic "@ + m.topic@ + " - message: "@ + m.message@,
        MessageDebugMode::Brief => "[MSGDEBUG] Priority: "@ + priority_name(m.priority)
            + " - topic "@ + m.topic@,
    }
}

impl MessageDebug {
    /// A printer in the mode its `mode` property names: `brief`, or else
    /// `verbose`.
    pub fn create_element(props: &Properties) -> (r: Self)
        ensures
            r.mode == if str_property(props.view(), "mode"@) == Some("brief"@) {
                MessageDebugMode::Brief
            } else {
                MessageDebugMode::Verbose
            },
    {
        proof {
            reveal_strlit("verbose");
            reveal_strlit("brief");
            assert("verbose"@.len() == 7 && "brief"@.len() == 5);
        }
        let mode = match props.get_str("mode") {
            Some(s) => if str_eq(s, "verbose") {
                MessageDebugMode::Verbose
            } else if str_eq(s, "brief") {
                MessageDebugMode::Brief
            } else {
                MessageDebugMode::Verbose
            },
            None => MessageDebugMode::Verbose,
        };
        MessageDebug { mode }
    }

    /// The line printed for a received message.
    pub fn recv_message(&self, message: &Message) -> (r: String)
        ensures
            r@ == debug_line(self.mode, *message),
    {
        let head = str_concat("[MSGDEBUG] Priority: ", message.priority.name());
        let with_topic = str_concat(str_concat(head.as_str(), " - topic ").as_str(), message.topic.as_str());
        match self.mode {
            MessageDebugMode::Verbose => str_concat(
                str_concat(with_topic.as_str(), " - message: ").as_str(),
                message.message.as_str(),
            ),
            MessageDebugMode::Brief => with_topic,
        }
    }
}

/// The line the do-nothing integrator prints for a received message.
pub open spec fn integrator_line(m: Message) -> Seq<char> {
    "[FINTEGRATE] Priority: "@ + priority_name(m.priority) + " - topic "@ + m.topic@
}

/// The line the do-nothing integrator prints for a received message.
pub fn integrator_message_line(message: &Message) -> (r: String)
    ensures
        r@ == integrator_line(*message),
{
    let head = str_concat("[FINTEGRATE] Priority: ", message.priority.name());
    str_concat(str_concat(head.as_str(), " - topic ").as_str(), message.topic.as_str())
}

/// The ids that `ids[..n]` takes when each zero id is replaced, in order, by
/// the counter starting at `start`, and the counter afterwards.
pub open spec fn assign_ids(ids: Seq<usize>, start: u64, n: nat) -> (Seq<usize>, u64)
    decreases n,
{
    if n == 0 {
        (seq![], start)
    } else {
        let (before, next) = assign_ids(ids, start, (n - 1) as nat);
        if ids[n - 1] == 0 {
            (before.push(next as usize), (if next == u64::MAX { 0 } else { next + 1 }) as u64)
        } else {
            (before.push(ids[n - 1]), next)
        }
    }
}

/// How many of `ids[..n]` are 0.
pub open spec fn zeros_before(ids: Seq<usize>, n: nat) -> nat
    decreases n,
{
    if n == 0 {
        0
    } else {
        zeros_before(ids, (n - 1) as nat) + if ids[n - 1] == 0 {
            1nat
        } else {
            0nat
        }
    }
}

/// Handing out ids from the counter `start` keeps every id that is set,
/// gives the `m`-th unset id (counted from 0) the value `start + m`, and
/// leaves the counter advanced by the number of unset ids; so, with the
/// counter starting above 0 and not running past the largest id, no id is
/// left unset.
pub proof fn lemma_assign_ids(ids: Seq<usize>, start: u64, n: nat)
    requires
        n <= ids.len(),
        start + zeros_before(ids, n) <= u64::MAX,
        start + zeros_before(ids, n) <= usize::MAX + 1,
    ensures
        assign_ids(ids, start, n).0.len() == n,
        assign_ids(ids, start, n).1 == start + zeros_before(ids, n),
        forall|i: int|
            0 <= i < n ==> (ids[i] != 0 ==> #[trigger] assign_ids(ids, start, n).0[i] == ids[i])
                && (ids[i] == 0 ==> assign_ids(ids, start, n).0[i] == start + zeros_before(
                ids,
                i as nat,
            )),
        start > 0 ==> forall|i: int| 0 <= i < n ==> #[trigger] assign_ids(ids, start, n).0[i] != 0,
    decreases n,
{
    if n > 0 {
        let m = (n - 1) as nat;
        lemma_zeros_monotone(ids, m, n);
        lemma_assign_ids(ids, start, m);
        let (before, next) = assign_ids(ids, start, m);
        let after = assign_ids(ids, start, n).0;
        assert forall|i: int| 0 <= i < m implies after[i] == before[i] by {
        }
        assert forall|i: int| 0 <= i < m implies ids[i] == 0 ==> zeros_before(ids, i as nat)
            < zeros_before(ids, m) by {
            if ids[i] == 0 {
                lemma_zeros_monotone(ids, (i + 1) as nat, m);
            }
        }
    }
}

/// Counting zeros over a longer prefix never counts fewer.
proof fn lemma_zeros_monotone(ids: Seq<usize>, a: nat, b: nat)
    requires
        a <= b,
    ensures
        zeros_before(ids, a) <= zeros_before(ids, b),
    decreases b,
{
    if a < b {
        lemma_zeros_monotone(ids, a, (b - 1) as nat);
    }
}

/// The element that gives each entity without an id (id 0) the next id.
pub struct IdTransmute {
    pub current_id: u64,
}

impl IdTransmute {
    /// Ids start at 1.
    pub fn create_element() -> (r: Self)
        ensures
            r.current_id == 1,
    {
        IdTransmute { current_id: 1 }
    }

    /// Gives each zero id the next id, in order; the counter wraps around
    /// after `u64::MAX`.
    pub fn transmute(&mut self, ids: &mut Vec<usize>)
        ensures
            (final(ids)@, final(self).current_id) == assign_ids(
                old(ids)@,
                old(self).current_id,
                old(ids)@.len(),
            ),
    {
        let n = ids.len();
        let mut i: usize = 0;
        let ghost original = ids@;
        while i < n
            invariant
                i <= n == ids@.len() == original.len(),
                original == old(ids)@,
                ids@.take(i as int) == assign_ids(original, old(self).current_id, i as nat).0,
                self.current_id == assign_ids(original, old(self).current_id, i as nat).1,
                forall|m: int| i <= m < n ==> ids@[m] == original[m],
            decreases n - i,
        {
            proof {
                assert(ids@.take(i + 1) =~= ids@.take(i as int).push(ids@[i as int]));
            }
            if ids[i] == 0 {
                let next = self.current_id;
                ids.set(i, next as usize);
                self.current_id = next.wrapping_add(1);
                assert(ids@.take(i + 1) =~= assign_ids(original, old(self).current_id, (i + 1) as nat).0);
            }
            i = i + 1;
        }
        assert(ids@.take(n as int) =~= ids@);
    }
}

impl MessageClient for IdTransmute {
}

impl Element for IdTransmute {
    /// It has no properties.
    fn get_property_descriptions(&self) -> (r: Result<Vec<(String, String)>, String>)
        ensures
            r matches Ok(v) && v@.len() == 0,
    {
        Ok(Vec::new())
    }
}

/// When the entity generator works: always, or only when the entities are
/// spread out.
#[derive(Clone, Copy, Debug, PartialEq, Eq, Structural)]
pub enum BpmMode {
    Always,
    Exclude,
}

/// The mode a `mode` property names: `exclude`, or else `always`.
pub fn bpm_mode_property(props: &Properties) -> (r: BpmMode)
    ensures
        r == if str_property(props.view(), "mode"@) == Some("exclude"@) {
            BpmMode::Exclude
        } else {
            BpmMode::Always
        },
{
    proof {
        reveal_strlit("always");
        reveal_strlit("exclude");
        assert("always"@.len() == 6 && "exclude"@.len() == 7);
    }
    match props.get_str("mode") {
        Some(s) => if str_eq(s, "always") {
            BpmMode::Always
        } else if str_eq(s, "exclude") {
            BpmMode::Exclude
        } else {
            BpmMode::Always
        },
        None => BpmMode::Always,
    }
}

/// The frame count of the entity generator, which works on every `n`-th
/// frame.
pub struct BpmSchedule {
    pub current_frame: u64,
    pub n: u64,
}

impl BpmSchedule {
    /// Works every `n` frames, where `n` is the `n` property, 1 where it is
    /// not set to a `u64`; no frame counted yet.
    pub fn create_element(props: &Properties) -> (r: Self)
        ensures
            r.current_frame == 0,
            r.n == match u64_property(props.view(), "n"@) {
                Some(n) => n,
                None => 1,
            },
    {
        let n = match props.get_u64("n") {
            Some(n) => n,
            None => 1,
        };
        BpmSchedule { current_frame: 0, n }
    }

    /// Counts a frame; says whether the generator works on it.
    pub fn tick(&mut self) -> (r: bool)
        requires
            old(self).n > 0,
            old(self).current_frame < u64::MAX,
        ensures
            final(self).current_frame == old(self).current_frame + 1,
            final(self).n == old(self).n,
            r == (final(self).current_frame % final(self).n == 0),
    {
        self.current_frame = self.current_frame + 1;
        self.current_frame % self.n == 0
    }
}

/// The element that writes positions to a file on every `print_n`-th state.
pub struct CsvSink {
    pub print_n: u64,
    pub file: String,
}

impl CsvSink {
    /// Writes every `print_n` states (1 where the property is not set to a
    /// `u64`) to the file its `file` property names (`csvsink.csv` where it is
    /// not set to a string).
    pub fn create_element(props: &Properties) -> (r: Self)
        ensures
            r.print_n == match u64_property(props.view(), "print_n"@) {
                Some(n) => n,
                None => 1,
            },
            r.file@ == match str_property(props.view(), "file"@) {
                Some(f) => f,
                None => "csvsink.csv"@,
            },
    {
        let print_n = match props.get_u64("print_n") {
            Some(n) => n,
            None => 1,
        };
        let file = match props.get_str("file") {
            Some(f) => f.to_owned(),
            None => "csvsink.csv".to_owned(),
        };
        CsvSink { print_n, file }
    }

    /// Whether the state of iteration `iteration` is written.
    pub fn should_print(&self, iteration: u64) -> (r: bool)
        requires
            self.print_n > 0,
        ensures
            r == (iteration % self.print_n == 0),
    {
        iteration % self.print_n == 0
    }
}

impl MessageClient for CsvSink {
}

impl Element for CsvSink {
    /// Its one property, `print_n`.
    fn get_property_descriptions(&self) -> (r: Result<Vec<(String, String)>, String>)
        ensures
            r matches Ok(v) && v@.len() == 1 && v@[0].0@ == "print_n"@ && v@[0].1@
                == "print every n iterations"@,
    {
        let mut v = Vec::new();
        v.push(("print_n".to_string(), "print every n iterations".to_string()));
        Ok(v)
    }
}

/// A transform that leaves every entity as it is and reports on the bus.
pub struct DebugTransform {}

impl DebugTransform {
    /// The transform; it has no properties.
    pub fn new() -> (r: Self) {
        DebugTransform {  }
    }

    /// The message it posts after each step, sent as `sender_id`.
    pub fn transformed_message(&self, sender_id: usize) -> (r: Message)
        ensures
            r.priority == MessagePriority::Low,
            r.topic@ == "debugplugin"@,
            r.message@ == "transformed"@,
            r.sender_id == sender_id,
    {
        Message {
            priority: MessagePriority::Low,
            topic: "debugplugin".to_owned(),
            message: "transformed".to_owned(),
            sender_id,
        }
    }

    /// Its property descriptions: none.
    pub fn get_property_descriptions(&self) -> (r: Vec<(String, String)>)
        ensures
            r@.len() == 0,
    {
        Vec::new()
    }
}

impl MessageClient for DebugTransform {
}

/// A transform that crashes the pipeline, to test how crashes are handled.
pub struct CrashTransform {}

impl CrashTransform {
    /// The transform; it has no properties.
    pub fn new() -> (r: Self) {
        CrashTransform {  }
    }
}

impl MessageClient for CrashTransform {
}

/// The settings of the toy solar system: the seed of its random numbers
/// and how many planets and asteroids it has.
pub struct SolarSystem {
    pub seed: u64,
    pub planets: u64,
    pub asteroids: u64,
}

impl SolarSystem {
    /// The settings from the `seed`, `planets` and `asteroids` properties,
    /// each 0 where it is not set to a `u64`.
    pub fn create_element(props: &Properties) -> (r: Self)
        ensures
            r.seed == match u64_property(props.view(), "seed"@) {
                Some(n) => n,
                None => 0,
            },
            r.planets == match u64_property(props.view(), "planets"@) {
                Some(n) => n,
                None => 0,
            },
            r.asteroids == match u64_property(props.view(), "asteroids"@) {
                Some(n) => n,
                None => 0,
            },
    {
        let seed = match props.get_u64("seed") {
            Some(n) => n,
            None => 0,
        };
        let planets = match props.get_u64("planets") {
            Some(n) => n,
            None => 0,
        };
        let asteroids = match props.get_u64("asteroids") {
            Some(n) => n,
            None => 0,
        };
        SolarSystem { seed, planets, asteroids }
    }
}

/// The whole-number settings of a generated cloud of entities (the random
/// cube and the Plummer sphere): how many entities, the seed of the random
/// numbers, and the first identity handed out.
pub struct CloudSettings {
    pub n: u64,
    pub seed: u64,
    pub id: u64,
}

impl CloudSettings {
    /// The settings from the `n`, `seed` and `id` properties where each is
    /// set to a `u64`; else 100000 entities, seed 0 and identity 0.
    pub fn from_properties(props: &Properties) -> (r: Self)
        ensures
            r.n == match u64_property(props.view(), "n"@) {
                Some(n) => n,
                None => 100000,
            },
            r.seed == match u64_property(props.view(), "seed"@) {
                Some(n) => n,
                None => 0,
            },
            r.id == match u64_property(props.view(), "id"@) {
                Some(n) => n,
                None => 0,
            },
    {
        let n = match props.get_u64("n") {
            Some(n) => n,
            None => 100000,
        };
        let seed = match props.get_u64("seed") {
            Some(n) => n,
            None => 0,
        };
        let id = match props.get_u64("id") {
            Some(n) => n,
            None => 0,
        };
        CloudSettings { n, seed, id }
    }
}

} // verus!
