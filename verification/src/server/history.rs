//! Histories of the scaler: every state that a run of assigns, idles,
//! commits and cancellations reaches from the start keeps the scaler's
//! rules.

use crate::messages::{AssignRequest, IdleRequest};
use crate::model::instance::{
    at, item, pool_holds, pool_idle, pool_inv, ChannelView, InstanceView, IDLE_CAPACITY,
};
use crate::model::placement::{
    lemma_busy_insert, lemma_busy_remove, lemma_idle_held, lemma_put, lemma_same_items,
    lemma_take,
};
use crate::server::server_impl::{
    assign_post, commit_post, idle_post, AssignStep, Commit, IdleOutcome,
};
use crate::server::{cancel_post, ScalerView, ServerError};
use tokio::time::Instant;
use vstd::prelude::*;

verus! {

/// The scaler at start.
pub open spec fn initial() -> ScalerView {
    ScalerView {
        metas: Map::empty(),
        pool: Map::empty(),
        busy: Map::empty(),
        next_ticket: 0,
        live: Set::empty(),
        commits: 0,
        destroys: 0,
    }
}

/// One operation leads from `before` to `after`.
pub open spec fn step(before: ScalerView, after: ScalerView) -> bool {
    ||| exists|request: AssignRequest, r: Result<AssignStep, ServerError>| #[trigger]
        assign_post(before, after, request, r)
    ||| exists|request: IdleRequest, now: Instant, r: Result<IdleOutcome, ServerError>| #[trigger]
        idle_post(before, after, request, now, r)
    ||| exists|inst: InstanceView, r: Result<Commit, ServerError>| #[trigger]
        commit_post(before, after, inst, r)
    ||| exists|key: Seq<char>, ticket: u64, b: bool| #[trigger]
        cancel_post(before, after, key, ticket, b)
}

/// `h` is a run of the scaler: it begins at the start, and each state
/// comes from the one before it by one operation.
pub open spec fn history(h: Seq<ScalerView>) -> bool {
    &&& h.len() > 0
    &&& h[0] == initial()
    &&& forall|i: int| 0 <= i < h.len() - 1 ==> step(#[trigger] h[i], h[i + 1])
}

/// The start keeps the rules.
pub proof fn lemma_initial_wf()
    ensures
        initial().wf(),
{
    let s = initial();
    assert forall|x: Seq<char>| !pool_idle(s.pool, x) by {}
}

/// A channel keeps its rules where its items stay and it is empty or no
/// further assign waits; so does a new channel without items.
proof fn lemma_channel_kept(pool: Map<Seq<char>, ChannelView>, k: Seq<char>, ch: ChannelView)
    requires
        pool_inv(pool),
        if pool.contains_key(k) {
            ch.items == pool[k].items && (ch.items.len() == 0 || ch.waiting.len()
                <= pool[k].waiting.len())
        } else {
            ch.items.len() == 0
        },
    ensures
        pool_inv(pool.insert(k, ch)),
        forall|k2: Seq<char>| #[trigger]
            pool.contains_key(k2) ==> pool.insert(k, ch).contains_key(k2) && pool.insert(
                k,
                ch,
            )[k2].items == pool[k2].items,
        forall|k2: Seq<char>|
            #[trigger] pool.insert(k, ch).contains_key(k2) && !pool.contains_key(k2)
                ==> pool.insert(k, ch)[k2].items.len() == 0,
{
    let after = pool.insert(k, ch);
    assert forall|k2: Seq<char>| #[trigger] after.contains_key(k2) implies after[k2].inv()
        && after[k2].keyed(k2) by {
        if k2 != k {
            assert(pool.contains_key(k2));
        }
    }
}

/// An assign keeps the rules.
pub proof fn lemma_assign_keeps_wf(
    before: ScalerView,
    after: ScalerView,
    request: AssignRequest,
    r: Result<AssignStep, ServerError>,
)
    requires
        before.wf(),
        assign_post(before, after, request, r),
    ensures
        after.wf(),
{
    if request.meta_data is Some {
        let meta = request.meta_data->0;
        let k = meta.key@;
        if at(before.pool, k, 0) {
            let inst = item(before.pool, k, 0);
            let next = item(before.pool, k, IDLE_CAPACITY as int).instance_id;
            lemma_take(before.pool, before.busy, k);
            assert(inst.meta.key == k);
            assert(!pool_holds(after.pool, inst.instance_id));
            lemma_busy_insert(after.pool, before.busy, inst);
            assert(pool_idle(before.pool, inst.instance_id));
            if at(before.pool, k, IDLE_CAPACITY as int) {
                assert(!before.busy.contains_key(next));
                assert(!pool_idle(before.pool, next)) by {
                    if pool_idle(before.pool, next) {
                        let (k2, i) = choose|k2: Seq<char>, i: int| #[trigger]
                            at(before.pool, k2, i) && i < IDLE_CAPACITY && item(
                                before.pool,
                                k2,
                                i,
                            ).instance_id == next;
                        assert(at(before.pool, k, IDLE_CAPACITY as int));
                    }
                }
            }
        } else {
            let ch = if before.pool.contains_key(k) {
                before.pool[k]
            } else {
                ChannelView::empty()
            };
            let w = crate::model::instance::WaiterView {
                ticket: before.next_ticket,
                request_id: request.request_id@,
            };
            assert(ch.items.len() == 0);
            lemma_channel_kept(before.pool, k, ch.wait(w));
            lemma_same_items(before.pool, after.pool, before.busy);
        }
    }
}

/// An idle keeps the rules.
pub proof fn lemma_idle_keeps_wf(
    before: ScalerView,
    after: ScalerView,
    request: IdleRequest,
    now: Instant,
    r: Result<IdleOutcome, ServerError>,
)
    requires
        before.wf(),
        idle_post(before, after, request, now, r),
    ensures
        after.wf(),
{
    if request.assigment is Some && before.busy.contains_key(request.assigment->0.instance_id@) {
        let id = request.assigment->0.instance_id@;
        let inst = InstanceView { last_idle_time: now, ..before.busy[id] };
        let k = inst.meta.key;
        let busy = before.busy.remove(id);
        let need_destroy = request.result matches Some(res) && res.need_destroy;
        lemma_busy_remove(before.pool, before.busy, id);
        if need_destroy {
        } else if before.pool[k].waiting.len() > 0 {
            lemma_channel_kept(before.pool, k, before.pool[k].serve());
            lemma_same_items(before.pool, after.pool, busy);
            lemma_busy_insert(after.pool, busy, inst);
            assert(busy.insert(id, inst) =~= before.busy.insert(id, inst));
        } else if before.pool[k].items.len() < IDLE_CAPACITY {
            lemma_put(before.pool, busy, inst);
        } else {
        }
    }
}

/// A commit keeps the rules.
pub proof fn lemma_commit_keeps_wf(
    before: ScalerView,
    after: ScalerView,
    inst: InstanceView,
    r: Result<Commit, ServerError>,
)
    requires
        before.wf(),
        commit_post(before, after, inst, r),
    ensures
        after.wf(),
{
    let id = inst.instance_id;
    let k = inst.meta.key;
    if before.busy.contains_key(id) || pool_holds(before.pool, id) {
    } else if !before.pool.contains_key(k) {
    } else {
        if pool_idle(before.pool, id) {
            lemma_idle_held(before.pool, id);
        }
        if before.pool[k].waiting.len() > 0 {
            lemma_channel_kept(before.pool, k, before.pool[k].serve());
            lemma_same_items(before.pool, after.pool, before.busy);
            lemma_busy_insert(after.pool, before.busy, inst);
        } else {
            lemma_put(before.pool, before.busy, inst);
        }
    }
}

/// A cancellation keeps the rules.
pub proof fn lemma_cancel_keeps_wf(
    before: ScalerView,
    after: ScalerView,
    key: Seq<char>,
    ticket: u64,
    b: bool,
)
    requires
        before.wf(),
        cancel_post(before, after, key, ticket, b),
    ensures
        after.wf(),
{
    if b {
        lemma_channel_kept(before.pool, key, before.pool[key].leave(ticket));
        lemma_same_items(before.pool, after.pool, before.busy);
    }
}

/// Every operation keeps the rules.
pub proof fn lemma_step_keeps_wf(before: ScalerView, after: ScalerView)
    requires
        before.wf(),
        step(before, after),
    ensures
        after.wf(),
{
    if exists|request: AssignRequest, r: Result<AssignStep, ServerError>| #[trigger]
        assign_post(before, after, request, r) {
        let (request, r) = choose|request: AssignRequest, r: Result<AssignStep, ServerError>|
            #[trigger] assign_post(before, after, request, r);
        lemma_assign_keeps_wf(before, after, request, r);
    } else if exists|request: IdleRequest, now: Instant, r: Result<IdleOutcome, ServerError>|
     #[trigger] idle_post(before, after, request, now, r) {
        let (request, now, r) = choose|
            request: IdleRequest,
            now: Instant,
            r: Result<IdleOutcome, ServerError>,
        | #[trigger] idle_post(before, after, request, now, r);
        lemma_idle_keeps_wf(before, after, request, now, r);
    } else if exists|inst: InstanceView, r: Result<Commit, ServerError>| #[trigger]
        commit_post(before, after, inst, r) {
        let (inst, r) = choose|inst: InstanceView, r: Result<Commit, ServerError>| #[trigger]
            commit_post(before, after, inst, r);
        lemma_commit_keeps_wf(before, after, inst, r);
    } else {
        let (key, ticket, b) = choose|key: Seq<char>, ticket: u64, b: bool| #[trigger]
            cancel_post(before, after, key, ticket, b);
        lemma_cancel_keeps_wf(before, after, key, ticket, b);
    }
}

/// At every point of every run the scaler keeps its rules. So at every
/// point the live instances are those that are idle in a pool or busy,
/// there are as many of them as were committed and not given up for
/// destruction, none is in a pool and busy at once, and no pool holds more
/// than `IDLE_CAPACITY` instances.
pub proof fn lemma_history(h: Seq<ScalerView>, n: int)
    requires
        history(h),
        0 <= n < h.len(),
    ensures
        h[n].wf(),
        h[n].live.len() == h[n].commits - h[n].destroys,
        forall|x: Seq<char>| #[trigger]
            h[n].live.contains(x) <==> h[n].busy.contains_key(x) || pool_idle(h[n].pool, x),
        forall|x: Seq<char>| !(#[trigger] pool_holds(h[n].pool, x) && h[n].busy.contains_key(x)),
        forall|k: Seq<char>| (#[trigger] h[n].pool[k]).idle().len() <= IDLE_CAPACITY,
    decreases n,
{
    if n == 0 {
        lemma_initial_wf();
    } else {
        lemma_history(h, n - 1);
        assert(step(h[n - 1], h[n - 1 + 1]));
        lemma_step_keeps_wf(h[n - 1], h[n]);
    }
    assert forall|x: Seq<char>| !(#[trigger] pool_holds(h[n].pool, x) && h[n].busy.contains_key(
        x,
    )) by {
        crate::model::placement::lemma_exclusive(h[n].pool, h[n].busy, x);
    }
}

} // verus!
