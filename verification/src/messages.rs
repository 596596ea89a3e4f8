//! Messages between the elements of a pipeline, and the bus that orders and
//! hands them out.

use vstd::prelude::*;

verus! {

/// How urgent a message is, from the least to the most urgent.
#[derive(Clone, Copy, Debug, PartialEq, Eq, Structural, PartialOrd, Ord)]
pub enum MessagePriority {
    Background,
    Low,
    Normal,
    High,
    RealTime,
    Critical,
}

/// The place of a priority in the order from `Background` (0) to
/// `Critical` (5).
pub open spec fn priority_rank(p: MessagePriority) -> nat {
    match p {
        MessagePriority::Background => 0,
        MessagePriority::Low => 1,
        MessagePriority::Normal => 2,
        MessagePriority::High => 3,
        MessagePriority::RealTime => 4,
        MessagePriority::Critical => 5,
    }
}

impl MessagePriority {
    /// The place of this priority in the order of priorities.
    pub fn rank(&self) -> (r: u8)
        ensures
            r == priority_rank(*self),
    {
        match self {
            MessagePriority::Background => 0,
            MessagePriority::Low => 1,
            MessagePriority::Normal => 2,
            MessagePriority::High => 3,
            MessagePriority::RealTime => 4,
            MessagePriority::Critical => 5,
        }
    }

    /// The variant's name, as `{:?}` writes it.
    pub fn name(&self) -> (r: &'static str)
        ensures
            r@ == priority_name(*self),
    {
        match self {
            MessagePriority::Background => "Background",
            MessagePriority::Low => "Low",
            MessagePriority::Normal => "Normal",
            MessagePriority::High => "High",
            MessagePriority::RealTime => "RealTime",
            MessagePriority::Critical => "Critical",
        }
    }
}

/// The name of a priority's variant.
pub open spec fn priority_name(p: MessagePriority) -> Seq<char> {
    match p {
        MessagePriority::Background => "Background"@,
        MessagePriority::Low => "Low"@,
        MessagePriority::Normal => "Normal"@,
        MessagePriority::High => "High"@,
        MessagePriority::RealTime => "RealTime"@,
        MessagePriority::Critical => "Critical"@,
    }
}

/// A message posted on the bus: a topic, a body, how urgent it is and who
/// sent it.
#[derive(Clone, Debug, PartialEq, Eq)]
pub struct Message {
    pub priority: MessagePriority,
    pub topic: String,
    pub message: String,
    pub sender_id: usize,
}

/// A receiver of the bus's messages. Both methods do nothing unless the
/// client gives them a body.
pub trait MessageClient {
    /// Reacts to a message from the bus.
    fn recv_message(&self, message: &Message) {
    }

    /// Posts the messages that tell the other elements how this one is set
    /// up.
    fn post_configuration_messages(&self) {
    }
}

/// The outcome of comparing two messages by priority.
pub open spec fn rank_order(a: nat, b: nat) -> core::cmp::Ordering {
    if a < b {
        core::cmp::Ordering::Less
    } else if a == b {
        core::cmp::Ordering::Equal
    } else {
        core::cmp::Ordering::Greater
    }
}

impl Message {
    /// A copy of this message with the same fields.
    pub fn duplicate(&self) -> (r: Message)
        ensures
            r == *self,
    {
        Message {
            priority: self.priority,
            topic: self.topic.clone(),
            message: self.message.clone(),
            sender_id: self.sender_id,
        }
    }

    /// Messages are ordered by their priority alone.
    pub fn cmp(&self, other: &Self) -> (r: core::cmp::Ordering)
        ensures
            r == rank_order(priority_rank(self.priority), priority_rank(other.priority)),
    {
        let a = self.priority.rank();
        let b = other.priority.rank();
        if a < b {
            core::cmp::Ordering::Less
        } else if a == b {
            core::cmp::Ordering::Equal
        } else {
            core::cmp::Ordering::Greater
        }
    }

    /// The same order as `cmp`, which is total.
    pub fn partial_cmp(&self, other: &Self) -> (r: Option<core::cmp::Ordering>)
        ensures
            r == Some(rank_order(priority_rank(self.priority), priority_rank(other.priority))),
    {
        Some(self.cmp(other))
    }
}

/// The rank of a message's priority.
pub open spec fn msg_rank(m: Message) -> nat {
    priority_rank(m.priority)
}

/// No message in `q` is more urgent than one before it.
pub open spec fn is_priority_ordered(q: Seq<Message>) -> bool {
    forall|i: int, j: int| 0 <= i < j < q.len() ==> msg_rank(q[j]) <= msg_rank(q[i])
}

/// How many messages at the front of `q` are at least as urgent as rank `r`.
pub open spec fn count_at_least(q: Seq<Message>, r: nat) -> nat
    decreases q.len(),
{
    if q.len() > 0 && msg_rank(q[0]) >= r {
        1 + count_at_least(q.drop_first(), r)
    } else {
        0
    }
}

/// The queue after `m` is posted: `m` goes behind every message that is at
/// least as urgent, and before the rest.
pub open spec fn queue_with(q: Seq<Message>, m: Message) -> Seq<Message> {
    q.insert(count_at_least(q, msg_rank(m)) as int, m)
}

/// One hand-over of a message: the position of the receiving client among
/// the bus's clients, and the message.
pub struct Delivery {
    pub client: usize,
    pub message: Message,
}

/// The hand-overs of `m` to the first `n` clients, skipping the client that
/// sent it.
pub open spec fn deliveries_of(m: Message, clients: Seq<usize>, n: nat) -> Seq<(usize, Message)>
    decreases n,
{
    if n == 0 {
        seq![]
    } else {
        let before = deliveries_of(m, clients, (n - 1) as nat);
        if clients[n - 1] != m.sender_id {
            before.push(((n - 1) as usize, m))
        } else {
            before
        }
    }
}

/// The hand-overs of the first `n` messages of `q`, message by message.
pub open spec fn deliveries_all(q: Seq<Message>, clients: Seq<usize>, n: nat) -> Seq<(usize, Message)>
    decreases n,
{
    if n == 0 {
        seq![]
    } else {
        deliveries_all(q, clients, (n - 1) as nat) + deliveries_of(q[n - 1], clients, clients.len())
    }
}

/// The hand-overs that emptying `q` makes to `clients`.
pub open spec fn deliveries(q: Seq<Message>, clients: Seq<usize>) -> Seq<(usize, Message)> {
    deliveries_all(q, clients, q.len())
}

/// How many messages at the front of `q` are at least as urgent as `r` is
/// at most the length of `q`, and exactly those messages are.
pub proof fn lemma_count_at_least(q: Seq<Message>, r: nat)
    ensures
        count_at_least(q, r) <= q.len(),
        forall|i: int| 0 <= i < count_at_least(q, r) ==> msg_rank(#[trigger] q[i]) >= r,
        count_at_least(q, r) < q.len() ==> msg_rank(q[count_at_least(q, r) as int]) < r,
    decreases q.len(),
{
    if q.len() > 0 && msg_rank(q[0]) >= r {
        let rest = q.drop_first();
        lemma_count_at_least(rest, r);
        assert forall|i: int| 0 <= i < count_at_least(q, r) implies msg_rank(#[trigger] q[i]) >= r by {
            if i > 0 {
                assert(q[i] == rest[i - 1]);
            }
        }
    }
}

/// Putting `m` behind the messages at least as urgent and before the rest
/// keeps a queue in order of urgency.
proof fn lemma_insert_keeps_order(q: Seq<Message>, k: int, m: Message)
    requires
        is_priority_ordered(q),
        k == count_at_least(q, msg_rank(m)),
    ensures
        is_priority_ordered(q.insert(k, m)),
{
    let r = msg_rank(m);
    lemma_count_at_least(q, r);
    let after = q.insert(k, m);
    assert forall|i: int, j: int| 0 <= i < j < after.len() implies msg_rank(after[j]) <= msg_rank(
        after[i],
    ) by {
        if j == k {
            assert(msg_rank(q[i]) >= r);
        } else if i == k {
            assert(after[j] == q[j - 1]);
            if k < q.len() {
                assert(msg_rank(q[k]) < r);
                assert(msg_rank(q[j - 1]) <= msg_rank(q[k]));
            }
        } else if j < k {
            assert(after[i] == q[i] && after[j] == q[j]);
        } else if i < k {
            assert(after[i] == q[i] && after[j] == q[j - 1]);
        } else {
            assert(after[i] == q[i - 1] && after[j] == q[j - 1]);
        }
    }
}

/// Posting a message loses no pending message: the queue afterwards holds
/// the messages it held before and the new one.
pub proof fn lemma_post_keeps_messages(q: Seq<Message>, m: Message)
    ensures
        queue_with(q, m).to_multiset() == q.to_multiset().insert(m),
        queue_with(q, m).len() == q.len() + 1,
{
    lemma_count_at_least(q, msg_rank(m));
    vstd::seq_lib::to_multiset_insert(q, count_at_least(q, msg_rank(m)) as int, m);
}

/// Every hand-over of `m` to the first `n` clients goes to a client other
/// than its sender and carries `m`.
pub proof fn lemma_deliveries_of(m: Message, clients: Seq<usize>, n: nat)
    requires
        n <= clients.len() <= usize::MAX,
    ensures
        forall|k: int|
            0 <= k < deliveries_of(m, clients, n).len() ==> {
                let d = #[trigger] deliveries_of(m, clients, n)[k];
                &&& d.1 == m
                &&& d.0 < n
                &&& clients[d.0 as int] != m.sender_id
            },
    decreases n,
{
    if n > 0 {
        let before = deliveries_of(m, clients, (n - 1) as nat);
        lemma_deliveries_of(m, clients, (n - 1) as nat);
        if clients[n - 1] != m.sender_id {
            let now = before.push(((n - 1) as usize, m));
            assert forall|k: int| 0 <= k < now.len() implies {
                let d = #[trigger] now[k];
                &&& d.1 == m
                &&& d.0 < n
                &&& clients[d.0 as int] != m.sender_id
            } by {
                if k < before.len() {
                    assert(now[k] == before[k]);
                }
            }
        }
    }
}

/// Every hand-over of the first `n` messages of `q` carries one of them and
/// goes to a client other than its sender.
pub proof fn lemma_deliveries_all(q: Seq<Message>, clients: Seq<usize>, n: nat)
    requires
        n <= q.len(),
        clients.len() <= usize::MAX,
    ensures
        forall|k: int|
            0 <= k < deliveries_all(q, clients, n).len() ==> {
                let d = #[trigger] deliveries_all(q, clients, n)[k];
                &&& exists|i: int| 0 <= i < n && d.1 == q[i]
                &&& d.0 < clients.len()
                &&& clients[d.0 as int] != d.1.sender_id
            },
    decreases n,
{
    if n > 0 {
        let before = deliveries_all(q, clients, (n - 1) as nat);
        let last = deliveries_of(q[n - 1], clients, clients.len());
        lemma_deliveries_all(q, clients, (n - 1) as nat);
        lemma_deliveries_of(q[n - 1], clients, clients.len());
        assert forall|k: int| 0 <= k < (before + last).len() implies {
            let d = #[trigger] (before + last)[k];
            &&& exists|i: int| 0 <= i < n && d.1 == q[i]
            &&& d.0 < clients.len()
            &&& clients[d.0 as int] != d.1.sender_id
        } by {
            if k >= before.len() {
                assert(last[k - before.len()] == (before + last)[k]);
                assert(q[n - 1] == last[k - before.len()].1);
            } else {
                assert(before[k] == (before + last)[k]);
                let i = choose|i: int| 0 <= i < n - 1 && before[k].1 == q[i];
                assert(0 <= i < n && before[k].1 == q[i]);
            }
        }
    }
}

/// When `q` is in order of urgency, so are the hand-overs of its first `n`
/// messages: no hand-over carries a message more urgent than one before it.
pub proof fn lemma_deliveries_all_ordered(q: Seq<Message>, clients: Seq<usize>, n: nat)
    requires
        n <= q.len(),
        clients.len() <= usize::MAX,
        is_priority_ordered(q),
    ensures
        forall|a: int, b: int|
            0 <= a < b < deliveries_all(q, clients, n).len() ==> msg_rank(
                (#[trigger] deliveries_all(q, clients, n)[b]).1,
            ) <= msg_rank((#[trigger] deliveries_all(q, clients, n)[a]).1),
    decreases n,
{
    if n > 0 {
        let before = deliveries_all(q, clients, (n - 1) as nat);
        let last = deliveries_of(q[n - 1], clients, clients.len());
        let all = before + last;
        lemma_deliveries_all_ordered(q, clients, (n - 1) as nat);
        lemma_deliveries_all(q, clients, (n - 1) as nat);
        lemma_deliveries_of(q[n - 1], clients, clients.len());
        assert forall|a: int, b: int| 0 <= a < b < all.len() implies msg_rank(
            (#[trigger] all[b]).1,
        ) <= msg_rank((#[trigger] all[a]).1) by {
            if b >= before.len() {
                assert(all[b] == last[b - before.len()]);
                if a >= before.len() {
                    assert(all[a] == last[a - before.len()]);
                } else {
                    assert(all[a] == before[a]);
                    let i = choose|i: int| 0 <= i < n - 1 && before[a].1 == q[i];
                    assert(msg_rank(q[n - 1]) <= msg_rank(q[i]));
                }
            } else {
                assert(all[a] == before[a]);
                assert(all[b] == before[b]);
            }
        }
    }
}

/// `m` is handed to each of the first `n` clients that did not send it.
pub proof fn lemma_deliveries_of_complete(m: Message, clients: Seq<usize>, n: nat, j: int)
    requires
        n <= clients.len() <= usize::MAX,
        0 <= j < n,
        clients[j] != m.sender_id,
    ensures
        deliveries_of(m, clients, n).contains((j as usize, m)),
    decreases n,
{
    let before = deliveries_of(m, clients, (n - 1) as nat);
    if j < n - 1 {
        lemma_deliveries_of_complete(m, clients, (n - 1) as nat, j);
        let k = choose|k: int| 0 <= k < before.len() && before[k] == (j as usize, m);
        if clients[n - 1] != m.sender_id {
            assert(before.push(((n - 1) as usize, m))[k] == (j as usize, m));
        }
    } else {
        assert(before.push(((n - 1) as usize, m))[before.len() as int] == (j as usize, m));
    }
}

/// Each of the first `n` messages of `q` is handed to each client that did
/// not send it.
pub proof fn lemma_deliveries_all_complete(
    q: Seq<Message>,
    clients: Seq<usize>,
    n: nat,
    i: int,
    j: int,
)
    requires
        n <= q.len(),
        clients.len() <= usize::MAX,
        0 <= i < n,
        0 <= j < clients.len(),
        clients[j] != q[i].sender_id,
    ensures
        deliveries_all(q, clients, n).contains((j as usize, q[i])),
    decreases n,
{
    let before = deliveries_all(q, clients, (n - 1) as nat);
    let last = deliveries_of(q[n - 1], clients, clients.len());
    if i < n - 1 {
        lemma_deliveries_all_complete(q, clients, (n - 1) as nat, i, j);
        let k = choose|k: int| 0 <= k < before.len() && before[k] == (j as usize, q[i]);
        assert((before + last)[k] == (j as usize, q[i]));
    } else {
        lemma_deliveries_of_complete(q[n - 1], clients, clients.len(), j);
        let k = choose|k: int| 0 <= k < last.len() && last[k] == (j as usize, q[i]);
        assert((before + last)[before.len() + k] == (j as usize, q[i]));
    }
}

/// Emptying the bus hands every pending message to every client that did
/// not send it.
pub proof fn lemma_pop_reaches_every_client(q: Seq<Message>, clients: Seq<usize>, i: int, j: int)
    requires
        clients.len() <= usize::MAX,
        0 <= i < q.len(),
        0 <= j < clients.len(),
        clients[j] != q[i].sender_id,
    ensures
        deliveries(q, clients).contains((j as usize, q[i])),
{
    lemma_deliveries_all_complete(q, clients, q.len(), i, j);
}

/// Emptying the bus never hands a message back to the client that sent it,
/// hands out only messages that were pending, to clients of the bus, and
/// hands them out the most urgent first.
pub proof fn lemma_pop_deliveries(q: Seq<Message>, clients: Seq<usize>)
    requires
        clients.len() <= usize::MAX,
    ensures
        forall|k: int|
            0 <= k < deliveries(q, clients).len() ==> {
                let d = #[trigger] deliveries(q, clients)[k];
                &&& q.contains(d.1)
                &&& d.0 < clients.len()
                &&& clients[d.0 as int] != d.1.sender_id
            },
        is_priority_ordered(q) ==> forall|a: int, b: int|
            0 <= a < b < deliveries(q, clients).len() ==> msg_rank(
                (#[trigger] deliveries(q, clients)[b]).1,
            ) <= msg_rank((#[trigger] deliveries(q, clients)[a]).1),
{
    lemma_deliveries_all(q, clients, q.len());
    if is_priority_ordered(q) {
        lemma_deliveries_all_ordered(q, clients, q.len());
    }
}

/// The plain values of a list of hand-overs.
pub open spec fn delivery_view(d: Seq<Delivery>) -> Seq<(usize, Message)> {
    d.map_values(|x: Delivery| (x.client, x.message))
}

/// The message bus: a queue of pending messages and the identities of the
/// clients that receive them. A client's identity is the one it sends
/// messages under, so that it does not receive its own.
pub struct MessageBus {
    queue: Vec<Message>,
    clients: Vec<usize>,
}

impl MessageBus {
    /// The pending messages are always in order of urgency.
    #[verifier::type_invariant]
    closed spec fn ordered(&self) -> bool {
        is_priority_ordered(self.queue@)
    }

    /// The pending messages, the most urgent first.
    pub closed spec fn pending(&self) -> Seq<Message> {
        self.queue@
    }

    /// The identities of the clients, in the order they were added.
    pub closed spec fn client_ids(&self) -> Seq<usize> {
        self.clients@
    }

    /// An empty bus with no clients.
    pub fn new() -> (r: Self)
        ensures
            r.pending() == Seq::<Message>::empty(),
            r.client_ids() == Seq::<usize>::empty(),
            is_priority_ordered(r.pending()),
    {
        MessageBus { queue: Vec::new(), clients: Vec::new() }
    }

    /// Adds a client, identified as it identifies the messages it sends.
    pub fn add_client(&mut self, client: usize)
        ensures
            final(self).client_ids() == old(self).client_ids().push(client),
            final(self).pending() == old(self).pending(),
    {
        proof {
            use_type_invariant(&*self);
        }
        let mut clients = Vec::new();
        std::mem::swap(&mut clients, &mut self.clients);
        clients.push(client);
        self.clients = clients;
    }

    /// Puts a message in the queue, behind every message at least as urgent.
    pub fn post_message(&mut self, message: Message)
        ensures
            final(self).pending() == queue_with(old(self).pending(), message),
            is_priority_ordered(final(self).pending()),
            final(self).client_ids() == old(self).client_ids(),
    {
        proof {
            use_type_invariant(&*self);
        }
        let r = message.priority.rank();
        let n = self.queue.len();
        let mut k: usize = 0;
        while k < n && self.queue[k].priority.rank() >= r
            invariant
                k <= n == self.queue@.len(),
                forall|i: int| 0 <= i < k ==> msg_rank(#[trigger] self.queue@[i]) >= r,
            decreases n - k,
        {
            k = k + 1;
        }
        proof {
            let q = self.queue@;
            lemma_count_at_least(q, r as nat);
            let c = count_at_least(q, r as nat);
            if k < c {
                assert(msg_rank(q[k as int]) >= r);
            }
            if c < k {
                assert(msg_rank(q[c as int]) >= r);
            }
            lemma_insert_keeps_order(q, k as int, message);
        }
        let mut queue = Vec::new();
        std::mem::swap(&mut queue, &mut self.queue);
        queue.insert(k, message);
        self.queue = queue;
    }

    /// Empties the queue and lists the hand-overs it makes: each message, the
    /// most urgent first, to every client except the one that sent it.
    pub fn pop_messages(&mut self) -> (r: Vec<Delivery>)
        ensures
            is_priority_ordered(old(self).pending()),
            old(self).client_ids().len() <= usize::MAX,
            delivery_view(r@) == deliveries(old(self).pending(), old(self).client_ids()),
            final(self).pending() == Seq::<Message>::empty(),
            is_priority_ordered(final(self).pending()),
            final(self).client_ids() == old(self).client_ids(),
    {
        proof {
            use_type_invariant(&*self);
        }
        let mut out: Vec<Delivery> = Vec::new();
        let n = self.queue.len();
        let nc = self.clients.len();
        let mut i: usize = 0;
        assert(delivery_view(out@) =~= Seq::<(usize, Message)>::empty());
        while i < n
            invariant
                i <= n == self.queue@.len(),
                nc == self.clients@.len(),
                delivery_view(out@) == deliveries_all(self.queue@, self.clients@, i as nat),
            decreases n - i,
        {
            let ghost prefix = delivery_view(out@);
            let mut j: usize = 0;
            while j < nc
                invariant
                    i < n == self.queue@.len(),
                    j <= nc == self.clients@.len(),
                    delivery_view(out@) == prefix + deliveries_of(
                        self.queue@[i as int],
                        self.clients@,
                        j as nat,
                    ),
                decreases nc - j,
            {
                if self.clients[j] != self.queue[i].sender_id {
                    let m = self.queue[i].duplicate();
                    let ghost before = delivery_view(out@);
                    out.push(Delivery { client: j, message: m });
                    assert(delivery_view(out@) =~= before.push((j, m)));
                }
                j = j + 1;
            }
            i = i + 1;
        }
        self.queue = Vec::new();
        out
    }
}

impl Default for MessageBus {
    fn default() -> (r: Self)
        ensures
            r.pending() == Seq::<Message>::empty(),
            r.client_ids() == Seq::<usize>::empty(),
    {
        Self::new()
    }
}

} // verus!
