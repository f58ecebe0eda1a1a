//! Instances, the per-function idle channels and the directory of busy
//! instances.

use crate::messages::{Meta, MetaView, Slot, SlotView};
use crate::table::Table;
use tokio::time::Instant;
use vstd::prelude::*;

verus! {

/// How many idle instances one function's channel offers at a time.
pub const IDLE_CAPACITY: usize = 5;

/// `tokio::time::Instant`: a reading of tokio's monotonic clock. Its inside
/// is not visible here; the value is only stored and passed on.
#[verifier::external_type_specification]
#[verifier::external_body]
pub struct ExInstant(tokio::time::Instant);

/// Calls `tokio::time::Instant::now`. Nothing is claimed of the instant that
/// comes back.
#[verifier::external_body]
pub(crate) fn now() -> Instant {
    Instant::now()
}

/// A slot that was initialised for one function.
#[derive(Debug, PartialEq, Eq)]
pub struct Instance {
    pub instance_id: String,
    pub slot: Slot,
    pub create_time_ms: u64,
    pub init_duration_ms: u64,
    pub last_idle_time: Instant,
    pub meta: Meta,
}

pub struct InstanceView {
    pub instance_id: Seq<char>,
    pub slot: SlotView,
    pub create_time_ms: u64,
    pub init_duration_ms: u64,
    pub last_idle_time: Instant,
    pub meta: MetaView,
}

impl View for Instance {
    type V = InstanceView;

    open spec fn view(&self) -> InstanceView {
        InstanceView {
            instance_id: self.instance_id@,
            slot: self.slot@,
            create_time_ms: self.create_time_ms,
            init_duration_ms: self.init_duration_ms,
            last_idle_time: self.last_idle_time,
            meta: self.meta@,
        }
    }
}

impl Clone for Instance {
    fn clone(&self) -> (r: Self)
        ensures
            r@ == self@,
    {
        Instance {
            instance_id: self.instance_id.clone(),
            slot: self.slot.clone(),
            create_time_ms: self.create_time_ms,
            init_duration_ms: self.init_duration_ms,
            last_idle_time: self.last_idle_time,
            meta: self.meta.clone(),
        }
    }
}

/// An assign that waits for an instance of its function.
#[derive(Debug, Clone, PartialEq, Eq)]
pub struct Waiter {
    pub ticket: u64,
    pub request_id: String,
}

pub struct WaiterView {
    pub ticket: u64,
    pub request_id: Seq<char>,
}

impl View for Waiter {
    type V = WaiterView;

    open spec fn view(&self) -> WaiterView {
        WaiterView { ticket: self.ticket, request_id: self.request_id@ }
    }
}

/// One function's channel: the instances that were put and not yet taken,
/// oldest first, and the assigns that wait for one, oldest first.
///
/// The first `IDLE_CAPACITY` items are the idle pool of the function. Items
/// behind them are parked: each enters the pool when one before it leaves.
pub struct ChannelView {
    pub items: Seq<InstanceView>,
    pub waiting: Seq<WaiterView>,
}

impl ChannelView {
    pub open spec fn empty() -> ChannelView {
        ChannelView { items: Seq::empty(), waiting: Seq::empty() }
    }

    /// The idle pool of the function: what an assign may be given.
    pub open spec fn idle(self) -> Seq<InstanceView> {
        if self.items.len() <= IDLE_CAPACITY {
            self.items
        } else {
            self.items.subrange(0, IDLE_CAPACITY as int)
        }
    }

    /// Nobody waits while an instance is at hand.
    pub open spec fn inv(self) -> bool {
        self.waiting.len() > 0 ==> self.items.len() == 0
    }

    /// Every item belongs to the function `key`.
    pub open spec fn keyed(self, key: Seq<char>) -> bool {
        forall|i: int| 0 <= i < self.items.len() ==> (#[trigger] self.items[i]).meta.key == key
    }

    /// The channel after its oldest item was taken.
    pub open spec fn take(self) -> ChannelView {
        ChannelView { items: self.items.drop_first(), waiting: self.waiting }
    }

    /// The channel after `inst` was put behind the other items.
    pub open spec fn put(self, inst: InstanceView) -> ChannelView {
        ChannelView { items: self.items.push(inst), waiting: self.waiting }
    }

    /// The channel after `w` joined the waiting assigns.
    pub open spec fn wait(self, w: WaiterView) -> ChannelView {
        ChannelView { items: self.items, waiting: self.waiting.push(w) }
    }

    /// The channel after its longest-waiting assign was served.
    pub open spec fn serve(self) -> ChannelView {
        ChannelView { items: self.items, waiting: self.waiting.drop_first() }
    }

    /// Some item carries the instance id `id`.
    pub open spec fn holds(self, id: Seq<char>) -> bool {
        exists|i: int| 0 <= i < self.items.len() && (#[trigger] self.items[i]).instance_id == id
    }

    /// The waiting assign at position `i` holds `ticket`, and none before it does.
    pub open spec fn first_wait(self, ticket: u64, i: int) -> bool {
        &&& 0 <= i < self.waiting.len()
        &&& self.waiting[i].ticket == ticket
        &&& forall|j: int| 0 <= j < i ==> (#[trigger] self.waiting[j]).ticket != ticket
    }

    /// Some waiting assign holds `ticket`.
    pub open spec fn waits(self, ticket: u64) -> bool {
        exists|i: int| #[trigger] self.first_wait(ticket, i)
    }

    /// The channel after the first waiting assign that holds `ticket` gave up.
    pub open spec fn leave(self, ticket: u64) -> ChannelView {
        if self.waits(ticket) {
            ChannelView {
                items: self.items,
                waiting: self.waiting.remove(choose|i: int| #[trigger] self.first_wait(ticket, i)),
            }
        } else {
            self
        }
    }

    /// The channel after its `n` longest-waiting assigns were served, one
    /// after the other.
    pub open spec fn serve_times(self, n: nat) -> ChannelView
        decreases n,
    {
        if n == 0 {
            self
        } else {
            self.serve().serve_times((n - 1) as nat)
        }
    }

    /// Waiting assigns are served in the order in which they came: the
    /// assign served after `n` others is the one that `n` others came before.
    pub proof fn lemma_fifo(self, n: nat)
        requires
            n < self.waiting.len(),
        ensures
            self.serve_times(n).waiting.len() == self.waiting.len() - n,
            self.serve_times(n).waiting[0] == self.waiting[n as int],
            self.serve_times(n).items == self.items,
        decreases n,
    {
        if n > 0 {
            self.serve().lemma_fifo((n - 1) as nat);
        }
    }

    /// An assign that starts to wait stands behind all that wait already,
    /// and these keep their order.
    pub proof fn lemma_wait_is_last(self, w: WaiterView)
        ensures
            self.wait(w).waiting.len() == self.waiting.len() + 1,
            self.wait(w).waiting[self.waiting.len() as int] == w,
            forall|i: int|
                0 <= i < self.waiting.len() ==> #[trigger] self.wait(w).waiting[i]
                    == self.waiting[i],
    {
    }

    /// The idle pool of a function never holds more than `IDLE_CAPACITY`
    /// instances: it is the front of the channel, cut at that length. That
    /// a put without waiting never makes the channel longer is stated by
    /// `put_post`.
    pub proof fn lemma_capacity(self)
        ensures
            self.idle().len() <= IDLE_CAPACITY,
    {
    }
}

pub struct InstanceChannel {
    items: Vec<Instance>,
    waiting: Vec<Waiter>,
}

impl View for InstanceChannel {
    type V = ChannelView;

    closed spec fn view(&self) -> ChannelView {
        ChannelView {
            items: self.items@.map_values(|i: Instance| i@),
            waiting: self.waiting@.map_values(|w: Waiter| w@),
        }
    }
}

impl InstanceChannel {
    fn new() -> (c: Self)
        ensures
            c@ == ChannelView::empty(),
    {
        let c = InstanceChannel { items: Vec::new(), waiting: Vec::new() };
        assert(c@.items =~= Seq::empty());
        assert(c@.waiting =~= Seq::empty());
        c
    }

    fn item_count(&self) -> (n: usize)
        ensures
            n == self@.items.len(),
    {
        self.items.len()
    }

    fn waiter_count(&self) -> (n: usize)
        ensures
            n == self@.waiting.len(),
    {
        self.waiting.len()
    }

    fn push_item(&mut self, inst: Instance)
        ensures
            final(self)@ == old(self)@.put(inst@),
    {
        self.items.push(inst);
        assert(self@.items =~= old(self)@.items.push(inst@));
    }

    fn pop_item(&mut self) -> (r: Instance)
        requires
            old(self)@.items.len() > 0,
        ensures
            r@ == old(self)@.items[0],
            final(self)@ == old(self)@.take(),
    {
        let r = self.items.remove(0);
        assert(self@.items =~= old(self)@.items.drop_first());
        r
    }

    fn push_waiter(&mut self, w: Waiter)
        ensures
            final(self)@ == old(self)@.wait(w@),
    {
        self.waiting.push(w);
        assert(self@.waiting =~= old(self)@.waiting.push(w@));
    }

    fn pop_waiter(&mut self) -> (w: Waiter)
        requires
            old(self)@.waiting.len() > 0,
        ensures
            w@ == old(self)@.waiting[0],
            final(self)@ == old(self)@.serve(),
    {
        let w = self.waiting.remove(0);
        assert(self@.waiting =~= old(self)@.waiting.drop_first());
        w
    }

    fn drop_waiter(&mut self, ticket: u64) -> (b: bool)
        ensures
            b == old(self)@.waits(ticket),
            final(self)@ == old(self)@.leave(ticket),
    {
        let mut i: usize = 0;
        while i < self.waiting.len()
            invariant
                i <= self.waiting.len(),
                *self == *old(self),
                forall|j: int| 0 <= j < i ==> (#[trigger] self@.waiting[j]).ticket != ticket,
            decreases self.waiting.len() - i,
        {
            if self.waiting[i].ticket == ticket {
                let _ = self.waiting.remove(i);
                proof {
                    let v = old(self)@;
                    assert(v.first_wait(ticket, i as int));
                    let c = choose|c: int| #[trigger] v.first_wait(ticket, c);
                    assert(c == i);
                    assert(self@.waiting =~= v.waiting.remove(i as int));
                    assert(self@.items =~= v.items);
                }
                return true;
            }
            i += 1;
        }
        proof {
            let v = old(self)@;
            assert forall|c: int| !(#[trigger] v.first_wait(ticket, c)) by {}
        }
        false
    }

    fn holds(&self, id: &String) -> (b: bool)
        ensures
            b == self@.holds(id@),
    {
        let mut i: usize = 0;
        while i < self.items.len()
            invariant
                i <= self.items.len(),
                forall|j: int| 0 <= j < i ==> (#[trigger] self@.items[j]).instance_id != id@,
            decreases self.items.len() - i,
        {
            if self.items[i].instance_id == *id {
                assert(self@.items[i as int].instance_id == id@);
                return true;
            }
            i += 1;
        }
        false
    }
}

/// What became of an instance that was put.
#[derive(Debug, PartialEq, Eq)]
pub enum Put {
    /// An assign was waiting: the instance is handed to it and never enters
    /// the channel.
    Delivered(Waiter, Instance),
    /// The instance is now idle in the pool.
    Queued,
    /// The pool is full: the instance is parked behind it.
    Parked,
}

/// What a blocking take found.
#[derive(Debug, PartialEq, Eq)]
pub enum Take {
    Ready(Instance),
    /// Nothing is at hand: the assign now waits in the channel.
    Waiting,
}

#[derive(Debug, Clone, Copy, PartialEq, Eq, Structural)]
pub enum ModelError {
    /// No channel was made for the function yet.
    MissingChannel,
    /// The pool of the function holds `IDLE_CAPACITY` instances.
    Full,
    /// The directory holds no instance of that id.
    InstanceNotFound,
}

/// The channels hold to their rules, each under its own key.
pub open spec fn pool_inv(pool: Map<Seq<char>, ChannelView>) -> bool {
    forall|k: Seq<char>| #[trigger] pool.contains_key(k) ==> pool[k].inv() && pool[k].keyed(k)
}

/// The channel of `k` has an item at position `i`.
pub open spec fn at(pool: Map<Seq<char>, ChannelView>, k: Seq<char>, i: int) -> bool {
    pool.contains_key(k) && 0 <= i < pool[k].items.len()
}

/// The item at position `i` of the channel of `k`.
pub open spec fn item(pool: Map<Seq<char>, ChannelView>, k: Seq<char>, i: int) -> InstanceView {
    pool[k].items[i]
}

/// Some channel holds an item with the instance id `id`, idle or parked.
pub open spec fn pool_holds(pool: Map<Seq<char>, ChannelView>, id: Seq<char>) -> bool {
    exists|k: Seq<char>, i: int| #[trigger] at(pool, k, i) && item(pool, k, i).instance_id == id
}

/// An instance with the id `id` is idle in the pool of some function.
pub open spec fn pool_idle(pool: Map<Seq<char>, ChannelView>, id: Seq<char>) -> bool {
    exists|k: Seq<char>, i: int|
        #[trigger] at(pool, k, i) && i < IDLE_CAPACITY && item(pool, k, i).instance_id == id
}

/// The idle pool: one channel for each function that was asked for.
pub struct IdlePool {
    channels: Table<InstanceChannel>,
}

impl View for IdlePool {
    type V = Map<Seq<char>, ChannelView>;

    closed spec fn view(&self) -> Map<Seq<char>, ChannelView> {
        self.channels@
    }
}

impl IdlePool {
    pub closed spec fn wf(&self) -> bool {
        &&& self.channels.wf()
        &&& pool_inv(self@)
    }

    pub fn new() -> (p: Self)
        ensures
            p.wf(),
            p@ == Map::<Seq<char>, ChannelView>::empty(),
    {
        IdlePool { channels: Table::new() }
    }

    /// What `wf` says of the view.
    pub proof fn lemma_wf(&self)
        requires
            self.wf(),
        ensures
            pool_inv(self@),
    {
    }

    /// How many instances are idle in the pool of `meta_key`.
    pub fn idle_len(&self, meta_key: &String) -> (n: usize)
        requires
            self.wf(),
        ensures
            n == (if self@.contains_key(meta_key@) {
                self@[meta_key@].idle().len()
            } else {
                0
            }),
    {
        match self.channels.get(meta_key) {
            Some(ch) => {
                let n = ch.item_count();
                if n <= IDLE_CAPACITY {
                    n
                } else {
                    IDLE_CAPACITY
                }
            },
            None => 0,
        }
    }

    /// How many instances are parked behind the pool of `meta_key`.
    pub fn parked_len(&self, meta_key: &String) -> (n: usize)
        requires
            self.wf(),
        ensures
            n == (if self@.contains_key(meta_key@) {
                self@[meta_key@].items.len() - self@[meta_key@].idle().len()
            } else {
                0
            }),
    {
        match self.channels.get(meta_key) {
            Some(ch) => {
                let n = ch.item_count();
                if n <= IDLE_CAPACITY {
                    0
                } else {
                    n - IDLE_CAPACITY
                }
            },
            None => 0,
        }
    }

    /// How many assigns wait for an instance of `meta_key`.
    pub fn waiting_len(&self, meta_key: &String) -> (n: usize)
        requires
            self.wf(),
        ensures
            n == (if self@.contains_key(meta_key@) {
                self@[meta_key@].waiting.len()
            } else {
                0
            }),
    {
        match self.channels.get(meta_key) {
            Some(ch) => ch.waiter_count(),
            None => 0,
        }
    }

    /// Whether an instance of id `id` is idle or parked in some channel.
    pub fn holds(&self, id: &String) -> (b: bool)
        requires
            self.wf(),
        ensures
            b == pool_holds(self@, id@),
    {
        let mut i: usize = 0;
        while i < self.channels.len()
            invariant
                self.wf(),
                i <= self.channels.spec_len(),
                forall|j: int|
                    0 <= j < i ==> !self@[#[trigger] self.channels.spec_key(j)].holds(id@),
            decreases self.channels.spec_len() - i,
        {
            let ch = self.channels.value_at(i);
            if ch.holds(id) {
                proof {
                    let k = self.channels.spec_key(i as int);
                    let n = choose|n: int|
                        0 <= n < self@[k].items.len() && (#[trigger] self@[k].items[n]).instance_id
                            == id@;
                    assert(at(self@, k, n));
                }
                return true;
            }
            i += 1;
        }
        proof {
            self.channels.lemma_enumerated();
            assert forall|k: Seq<char>, n: int| #[trigger] at(self@, k, n) implies item(
                self@,
                k,
                n,
            ).instance_id != id@ by {
                let j = choose|j: int|
                    0 <= j < self.channels.spec_len() && #[trigger] self.channels.spec_key(j) == k;
                assert(!self@[self.channels.spec_key(j)].holds(id@));
                assert(self@[k].items[n] == item(self@, k, n));
            }
        }
        false
    }
}

/// What `try_get_idle_instance` does to the pool `before`, and what it hands out.
pub open spec fn try_take_post(
    before: Map<Seq<char>, ChannelView>,
    after: Map<Seq<char>, ChannelView>,
    k: Seq<char>,
    r: Option<Instance>,
) -> bool {
    if !before.contains_key(k) {
        r is None && after == before.insert(k, ChannelView::empty())
    } else if before[k].items.len() == 0 {
        r is None && after == before
    } else {
        r matches Some(i) && i@ == before[k].items[0] && after == before.insert(k, before[k].take())
    }
}

/// What `get_idle_instance` does to the pool `before`, and what it hands out.
pub open spec fn take_post(
    before: Map<Seq<char>, ChannelView>,
    after: Map<Seq<char>, ChannelView>,
    k: Seq<char>,
    w: WaiterView,
    r: Result<Take, ModelError>,
) -> bool {
    if !before.contains_key(k) {
        r matches Err(e) && e == ModelError::MissingChannel && after == before
    } else if before[k].items.len() == 0 {
        r matches Ok(Take::Waiting) && after == before.insert(k, before[k].wait(w))
    } else {
        r matches Ok(Take::Ready(i)) && i@ == before[k].items[0] && after == before.insert(
            k,
            before[k].take(),
        )
    }
}

/// What a put does to the pool `before`, and what it answers. A put that
/// may wait (`blocking`) parks the instance where the pool is full; one that
/// may not is refused there.
pub open spec fn put_post(
    before: Map<Seq<char>, ChannelView>,
    after: Map<Seq<char>, ChannelView>,
    inst: InstanceView,
    blocking: bool,
    r: Result<Put, ModelError>,
) -> bool {
    let k = inst.meta.key;
    if !before.contains_key(k) {
        r matches Err(e) && e == ModelError::MissingChannel && after == before
    } else if before[k].waiting.len() > 0 {
        r matches Ok(Put::Delivered(w, i)) && w@ == before[k].waiting[0] && i@ == inst && after
            == before.insert(k, before[k].serve())
    } else if before[k].items.len() < IDLE_CAPACITY {
        r matches Ok(Put::Queued) && after == before.insert(k, before[k].put(inst))
    } else if blocking {
        r matches Ok(Put::Parked) && after == before.insert(k, before[k].put(inst))
    } else {
        r matches Err(e) && e == ModelError::Full && after == before
    }
}

fn put(pool: &mut IdlePool, instance: Instance, blocking: bool) -> (r: Result<Put, ModelError>)
    requires
        old(pool).wf(),
    ensures
        final(pool).wf(),
        put_post(old(pool)@, final(pool)@, instance@, blocking, r),
{
    let key = instance.meta.key.clone();
    match pool.channels.remove(&key) {
        None => {
            assert(pool@ =~= old(pool)@);
            Err(ModelError::MissingChannel)
        },
        Some(ch) => {
            let mut ch = ch;
            if ch.waiter_count() > 0 {
                let w = ch.pop_waiter();
                pool.channels.insert(key, ch);
                assert(pool@ =~= old(pool)@.insert(key@, old(pool)@[key@].serve()));
                Ok(Put::Delivered(w, instance))
            } else if ch.item_count() < IDLE_CAPACITY {
                ch.push_item(instance);
                pool.channels.insert(key, ch);
                assert(pool@ =~= old(pool)@.insert(key@, old(pool)@[key@].put(instance@)));
                Ok(Put::Queued)
            } else if blocking {
                ch.push_item(instance);
                pool.channels.insert(key, ch);
                assert(pool@ =~= old(pool)@.insert(key@, old(pool)@[key@].put(instance@)));
                Ok(Put::Parked)
            } else {
                pool.channels.insert(key, ch);
                assert(pool@ =~= old(pool)@);
                Err(ModelError::Full)
            }
        },
    }
}

/// Puts `instance` into the pool of its function without waiting: it goes to
/// the longest-waiting assign, or into the pool, or is refused as `Full`.
pub fn try_add_idle_instance(pool: &mut IdlePool, instance: Instance) -> (r: Result<
    Put,
    ModelError,
>)
    requires
        old(pool).wf(),
    ensures
        final(pool).wf(),
        put_post(old(pool)@, final(pool)@, instance@, false, r),
{
    put(pool, instance, false)
}

/// Puts `instance` into the pool of its function, waiting for room: where
/// the pool is full the instance is parked behind it.
pub fn add_idle_instance(pool: &mut IdlePool, instance: Instance) -> (r: Result<Put, ModelError>)
    requires
        old(pool).wf(),
    ensures
        final(pool).wf(),
        put_post(old(pool)@, final(pool)@, instance@, true, r),
{
    put(pool, instance, true)
}

/// Makes the channel of `meta_key` unless there is one.
pub fn insert_instance_channel(pool: &mut IdlePool, meta_key: String)
    requires
        old(pool).wf(),
    ensures
        final(pool).wf(),
        final(pool)@ == (if old(pool)@.contains_key(meta_key@) {
            old(pool)@
        } else {
            old(pool)@.insert(meta_key@, ChannelView::empty())
        }),
{
    if !pool.channels.contains_key(&meta_key) {
        pool.channels.insert(meta_key, InstanceChannel::new());
    }
}

/// Takes the oldest item of `meta_key` or, where there is none, joins the
/// waiting assigns as `waiter`.
pub fn get_idle_instance(pool: &mut IdlePool, meta_key: &String, waiter: Waiter) -> (r: Result<
    Take,
    ModelError,
>)
    requires
        old(pool).wf(),
    ensures
        final(pool).wf(),
        take_post(old(pool)@, final(pool)@, meta_key@, waiter@, r),
{
    match pool.channels.remove(meta_key) {
        None => {
            assert(pool@ =~= old(pool)@);
            Err(ModelError::MissingChannel)
        },
        Some(ch) => {
            let mut ch = ch;
            if ch.item_count() > 0 {
                let inst = ch.pop_item();
                pool.channels.insert(meta_key.clone(), ch);
                assert(pool@ =~= old(pool)@.insert(meta_key@, old(pool)@[meta_key@].take()));
                Ok(Take::Ready(inst))
            } else {
                ch.push_waiter(waiter);
                pool.channels.insert(meta_key.clone(), ch);
                assert(pool@ =~= old(pool)@.insert(meta_key@, old(pool)@[meta_key@].wait(waiter@)));
                Ok(Take::Waiting)
            }
        },
    }
}

/// Takes the oldest item of `meta_key`, where there is one. Makes the
/// channel where there is none yet.
pub fn try_get_idle_instance(pool: &mut IdlePool, meta_key: &String) -> (r: Option<Instance>)
    requires
        old(pool).wf(),
    ensures
        final(pool).wf(),
        try_take_post(old(pool)@, final(pool)@, meta_key@, r),
{
    match pool.channels.remove(meta_key) {
        None => {
            pool.channels.insert(meta_key.clone(), InstanceChannel::new());
            assert(pool@ =~= old(pool)@.insert(meta_key@, ChannelView::empty()));
            None
        },
        Some(ch) => {
            let mut ch = ch;
            if ch.item_count() > 0 {
                let inst = ch.pop_item();
                pool.channels.insert(meta_key.clone(), ch);
                assert(pool@ =~= old(pool)@.insert(meta_key@, old(pool)@[meta_key@].take()));
                Some(inst)
            } else {
                pool.channels.insert(meta_key.clone(), ch);
                assert(pool@ =~= old(pool)@);
                None
            }
        },
    }
}

/// The first assign that waits for `meta_key` under `ticket` gives up. Says
/// whether there was one.
pub fn cancel_idle_wait(pool: &mut IdlePool, meta_key: &String, ticket: u64) -> (b: bool)
    requires
        old(pool).wf(),
    ensures
        final(pool).wf(),
        b == (old(pool)@.contains_key(meta_key@) && old(pool)@[meta_key@].waits(ticket)),
        final(pool)@ == (if b {
            old(pool)@.insert(meta_key@, old(pool)@[meta_key@].leave(ticket))
        } else {
            old(pool)@
        }),
{
    match pool.channels.remove(meta_key) {
        None => {
            assert(pool@ =~= old(pool)@);
            false
        },
        Some(ch) => {
            let mut ch = ch;
            let b = ch.drop_waiter(ticket);
            pool.channels.insert(meta_key.clone(), ch);
            proof {
                let v = old(pool)@[meta_key@];
                assert(pool@ =~= old(pool)@.insert(meta_key@, v.leave(ticket)));
                if !b {
                    assert(pool@ =~= old(pool)@);
                }
                if b {
                    let c = choose|c: int| #[trigger] v.first_wait(ticket, c);
                    assert(v.leave(ticket).waiting.len() == v.waiting.len() - 1);
                }
            }
            b
        },
    }
}

/// Every instance of the directory is stored under its own id.
pub open spec fn instances_keyed(m: Map<Seq<char>, InstanceView>) -> bool {
    forall|id: Seq<char>| #[trigger] m.contains_key(id) ==> m[id].instance_id == id
}

/// The directory of busy instances, keyed by instance id.
pub struct InstanceMap {
    entries: Table<Instance>,
}

impl View for InstanceMap {
    type V = Map<Seq<char>, InstanceView>;

    closed spec fn view(&self) -> Map<Seq<char>, InstanceView> {
        self.entries@
    }
}

impl InstanceMap {
    pub closed spec fn wf(&self) -> bool {
        &&& self.entries.wf()
        &&& instances_keyed(self@)
    }

    pub fn new() -> (m: Self)
        ensures
            m.wf(),
            m@ == Map::<Seq<char>, InstanceView>::empty(),
    {
        InstanceMap { entries: Table::new() }
    }

    /// What `wf` says of the view.
    pub proof fn lemma_wf(&self)
        requires
            self.wf(),
        ensures
            instances_keyed(self@),
    {
    }

    /// A copy of the busy instance of id `id`.
    pub fn get(&self, id: &String) -> (r: Option<Instance>)
        requires
            self.wf(),
        ensures
            match r {
                Some(i) => self@.contains_key(id@) && i@ == self@[id@],
                None => !self@.contains_key(id@),
            },
    {
        match self.entries.get(id) {
            Some(i) => Some(i.clone()),
            None => None,
        }
    }

    /// Whether an instance of id `id` is busy.
    pub fn contains(&self, id: &String) -> (b: bool)
        requires
            self.wf(),
        ensures
            b == self@.contains_key(id@),
    {
        self.entries.contains_key(id)
    }
}

/// Records `instance` as busy, under its id.
pub fn update_instance_map(map: &mut InstanceMap, instance: Instance)
    requires
        old(map).wf(),
    ensures
        final(map).wf(),
        final(map)@ == old(map)@.insert(instance.instance_id@, instance@),
{
    let id = instance.instance_id.clone();
    map.entries.insert(id, instance);
}

/// Takes the busy instance of id `instance_id` out of the directory.
pub fn remove_from_instance_map(map: &mut InstanceMap, instance_id: &String) -> (r: Result<
    Instance,
    ModelError,
>)
    requires
        old(map).wf(),
    ensures
        final(map).wf(),
        match r {
            Ok(i) => old(map)@.contains_key(instance_id@) && i@ == old(map)@[instance_id@]
                && final(map)@ == old(map)@.remove(instance_id@),
            Err(e) => e == ModelError::InstanceNotFound && !old(map)@.contains_key(instance_id@)
                && final(map)@ == old(map)@,
        },
{
    match map.entries.remove(instance_id) {
        Some(i) => Ok(i),
        None => {
            assert(map@ =~= old(map)@);
            Err(ModelError::InstanceNotFound)
        },
    }
}

} // verus!
