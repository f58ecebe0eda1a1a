//! The decisions of assign, idle and the pre-warm scheduler. Each function
//! takes the scaler's state and what has happened, changes the state and
//! says what is to be done next; the calls to the platform and the waiting
//! are the caller's.

use crate::messages::{
    opt_str, AssignReply, AssignRequest, Assignment, AssignmentView, CreateSlotReply,
    CreateSlotRequest, DestroySlotRequest, IdleReply, IdleRequest, InitReply, InitRequest, Meta,
    ResourceConfig, Slot, Status,
};
use crate::model::instance::{
    add_idle_instance, at, get_idle_instance, item, now, pool_holds, pool_idle,
    remove_from_instance_map, try_add_idle_instance, try_get_idle_instance, update_instance_map,
    ChannelView, Instance, InstanceView, ModelError, Put, Take, Waiter, WaiterView, IDLE_CAPACITY,
};
use crate::model::meta_data::insert_meta_data;
use crate::model::placement::lemma_busy_remove;
use crate::platform_client::{
    create_slot, create_slot_request, destroy_slot_request, init_request, init_slot_at,
    PlatformError,
};
use crate::server::history::{lemma_assign_keeps_wf, lemma_commit_keeps_wf, lemma_idle_keeps_wf};
use crate::server::{ScalerServerImpl, ScalerView, ServerError};
use tokio::time::Instant;
use vstd::pervasive::unreached;
use vstd::prelude::*;

verus! {

/// An assign that waited is over: `reply` goes to the holder of `ticket`.
#[derive(Debug, Clone, PartialEq, Eq)]
pub struct Wake {
    pub ticket: u64,
    pub reply: AssignReply,
}

/// How an assign goes on.
#[derive(Debug, PartialEq, Eq)]
pub enum AssignStep {
    /// The assign is over, with this reply.
    Assigned(AssignReply),
    /// No instance is at hand. The assign now waits under `ticket`, and a
    /// scheduler is to be started for `request_id` and `meta`.
    Pending { ticket: u64, request_id: String, meta: Meta },
}

/// What an idle leads to.
#[derive(Debug, Clone, PartialEq, Eq)]
pub struct IdleOutcome {
    pub reply: IdleReply,
    /// The slot to destroy, as far as the platform is willing.
    pub destroy: Option<DestroySlotRequest>,
    /// The waiting assign that got the instance.
    pub wake: Option<Wake>,
}

/// What became of an instance that a scheduler built.
#[derive(Debug, Clone, PartialEq, Eq)]
pub enum Commit {
    /// It went to the longest-waiting assign of its function.
    Delivered(Wake),
    /// It is idle in the pool.
    Queued,
    /// The pool is full: it is parked until an instance leaves the pool.
    Parked,
}

/// `reply` says that `request_id` is served by the instance `id` of `key`.
pub open spec fn assigned(
    reply: AssignReply,
    request_id: Seq<char>,
    key: Seq<char>,
    id: Seq<char>,
) -> bool {
    &&& reply.status == Status::Success
    &&& reply.error_message is None
    &&& reply.assigment matches Some(a) && a@ == (AssignmentView {
        request_id,
        meta_key: key,
        instance_id: id,
    })
}

/// `d` asks to destroy the slot `slot_id` on behalf of `request_id`.
pub open spec fn destroys_slot(
    d: Option<DestroySlotRequest>,
    request_id: Seq<char>,
    slot_id: Seq<char>,
    reason: Option<Seq<char>>,
) -> bool {
    d matches Some(q) && q.request_id@ == request_id && q.id@ == slot_id && opt_str(q.reason)
        == reason
}

/// The ticket after `t`.
pub open spec fn ticket_after(t: u64) -> u64 {
    if t == u64::MAX {
        0
    } else {
        (t + 1) as u64
    }
}

/// What an assign does to the scaler `before`, and what it answers.
pub open spec fn assign_post(
    before: ScalerView,
    after: ScalerView,
    request: AssignRequest,
    r: Result<AssignStep, ServerError>,
) -> bool {
    match request.meta_data {
        None => r matches Err(e) && e == ServerError::NoMetaData && after == before,
        Some(meta) => {
            let k = meta.key@;
            let metas = before.metas.insert(k, meta@);
            if at(before.pool, k, 0) {
                let inst = item(before.pool, k, 0);
                let promoted = at(before.pool, k, IDLE_CAPACITY as int);
                let next = item(before.pool, k, IDLE_CAPACITY as int).instance_id;
                &&& r matches Ok(AssignStep::Assigned(reply)) && assigned(
                    reply,
                    request.request_id@,
                    k,
                    inst.instance_id,
                )
                &&& after == (ScalerView {
                    metas,
                    pool: before.pool.insert(k, before.pool[k].take()),
                    busy: before.busy.insert(inst.instance_id, inst),
                    next_ticket: before.next_ticket,
                    live: if promoted {
                        before.live.insert(next)
                    } else {
                        before.live
                    },
                    commits: if promoted {
                        before.commits + 1
                    } else {
                        before.commits
                    },
                    destroys: before.destroys,
                })
            } else {
                let ch = if before.pool.contains_key(k) {
                    before.pool[k]
                } else {
                    ChannelView::empty()
                };
                let w = WaiterView { ticket: before.next_ticket, request_id: request.request_id@ };
                &&& r matches Ok(AssignStep::Pending { ticket, request_id, meta: m }) && ticket
                    == before.next_ticket && request_id@ == request.request_id@ && m@ == meta@
                &&& after == (ScalerView {
                    metas,
                    pool: before.pool.insert(k, ch.wait(w)),
                    next_ticket: ticket_after(before.next_ticket),
                    ..before
                })
            }
        },
    }
}

fn assignment_reply(request_id: String, meta_key: String, instance_id: String) -> (reply:
    AssignReply)
    ensures
        assigned(reply, request_id@, meta_key@, instance_id@),
{
    AssignReply {
        status: Status::Success,
        assigment: Some(Assignment { request_id, meta_key, instance_id }),
        error_message: None,
    }
}

/// Assign: registers the function, then hands out the oldest idle instance
/// of the function or, where there is none, lets the assign wait and asks
/// for a scheduler.
pub fn assign_impl(server: &mut ScalerServerImpl, request: AssignRequest) -> (r: Result<
    AssignStep,
    ServerError,
>)
    requires
        old(server).wf(),
    ensures
        final(server).wf(),
        assign_post(old(server)@, final(server)@, request, r),
{
    let ghost s0 = server@;
    let ghost asked = request;
    let AssignRequest { request_id, timestamp: _, meta_data } = request;
    let meta = match meta_data {
        Some(m) => m,
        None => {
            return Err(ServerError::NoMetaData);
        },
    };
    let ghost k = meta.key@;
    insert_meta_data(&mut server.metas, meta.clone());
    let r = match try_get_idle_instance(&mut server.pool, &meta.key) {
        Some(instance) => {
            let ghost promoted = at(s0.pool, k, IDLE_CAPACITY as int);
            let ghost next = item(s0.pool, k, IDLE_CAPACITY as int).instance_id;
            let reply = assignment_reply(
                request_id,
                meta.key.clone(),
                instance.instance_id.clone(),
            );
            update_instance_map(&mut server.busy, instance);
            server.live = Ghost(
                if promoted {
                    s0.live.insert(next)
                } else {
                    s0.live
                },
            );
            server.commits = Ghost(
                if promoted {
                    s0.commits + 1
                } else {
                    s0.commits
                },
            );
            Ok(AssignStep::Assigned(reply))
        },
        None => {
            let ticket = server.next_ticket;
            server.next_ticket = if ticket == u64::MAX {
                0
            } else {
                ticket + 1
            };
            let waiter = Waiter { ticket, request_id: request_id.clone() };
            let taken = get_idle_instance(&mut server.pool, &meta.key, waiter);
            proof {
                let ch = if s0.pool.contains_key(k) {
                    s0.pool[k]
                } else {
                    ChannelView::empty()
                };
                assert(server@.pool =~= s0.pool.insert(k, ch.wait(waiter@)));
            }
            match taken {
                Ok(Take::Waiting) => Ok(AssignStep::Pending { ticket, request_id, meta }),
                _ => unreached(),
            }
        },
    };
    proof {
        lemma_assign_keeps_wf(s0, server@, asked, r);
    }
    r
}

/// What an idle at the instant `now` does to the scaler `before`, and what
/// it answers.
pub open spec fn idle_post(
    before: ScalerView,
    after: ScalerView,
    request: IdleRequest,
    now: Instant,
    r: Result<IdleOutcome, ServerError>,
) -> bool {
    match request.assigment {
        None => r matches Err(e) && e == ServerError::NoAssignment && after == before,
        Some(a) => {
            let id = a.instance_id@;
            if !before.busy.contains_key(id) {
                r matches Err(e) && e == ServerError::InstanceNotFound && after == before
            } else {
                let inst = InstanceView { last_idle_time: now, ..before.busy[id] };
                let k = inst.meta.key;
                let busy = before.busy.remove(id);
                let need_destroy = request.result matches Some(res) && res.need_destroy;
                let reason = match request.result {
                    Some(res) => opt_str(res.reason),
                    None => None,
                };
                r matches Ok(out) && out.reply.status == Status::Success
                    && out.reply.error_message is None && (if need_destroy {
                    &&& destroys_slot(out.destroy, a.request_id@, inst.slot.id, reason)
                    &&& out.wake is None
                    &&& after == (ScalerView {
                        busy,
                        live: before.live.remove(id),
                        destroys: before.destroys + 1,
                        ..before
                    })
                } else if before.pool[k].waiting.len() > 0 {
                    let w = before.pool[k].waiting[0];
                    &&& out.destroy is None
                    &&& out.wake matches Some(wake) && wake.ticket == w.ticket && assigned(
                        wake.reply,
                        w.request_id,
                        k,
                        id,
                    )
                    &&& after == (ScalerView {
                        pool: before.pool.insert(k, before.pool[k].serve()),
                        busy: before.busy.insert(id, inst),
                        ..before
                    })
                } else if before.pool[k].items.len() < IDLE_CAPACITY {
                    &&& out.destroy is None
                    &&& out.wake is None
                    &&& after == (ScalerView {
                        pool: before.pool.insert(k, before.pool[k].put(inst)),
                        busy,
                        ..before
                    })
                } else {
                    &&& destroys_slot(out.destroy, a.request_id@, inst.slot.id, None)
                    &&& out.wake is None
                    &&& after == (ScalerView {
                        busy,
                        live: before.live.remove(id),
                        destroys: before.destroys + 1,
                        ..before
                    })
                })
            }
        },
    }
}

fn idle_reply() -> (reply: IdleReply)
    ensures
        reply.status == Status::Success,
        reply.error_message is None,
{
    IdleReply { status: Status::Success, error_message: None }
}

/// Idle at the instant `now`: the instance leaves the directory, and is
/// destroyed where the client asks for it or the pool is full, else handed
/// to the longest-waiting assign of its function or put back into the pool.
pub fn idle_impl_at(server: &mut ScalerServerImpl, request: IdleRequest, now: Instant) -> (r:
    Result<IdleOutcome, ServerError>)
    requires
        old(server).wf(),
    ensures
        final(server).wf(),
        idle_post(old(server)@, final(server)@, request, now, r),
{
    let ghost s0 = server@;
    let ghost asked = request;
    let IdleRequest { assigment, result } = request;
    let assignment = match assigment {
        Some(a) => a,
        None => {
            return Err(ServerError::NoAssignment);
        },
    };
    let Assignment { request_id, meta_key: _, instance_id } = assignment;
    let ghost id = instance_id@;
    let removed = remove_from_instance_map(&mut server.busy, &instance_id);
    let mut instance = match removed {
        Ok(i) => i,
        Err(_) => {
            return Err(ServerError::InstanceNotFound);
        },
    };
    instance.last_idle_time = now;
    let ghost inst = instance@;
    proof {
        lemma_busy_remove(s0.pool, s0.busy, id);
        assert(inst == InstanceView { last_idle_time: now, ..s0.busy[id] });
    }
    let (need_destroy, reason) = match result {
        Some(res) => (res.need_destroy, res.reason),
        None => (false, None),
    };
    let slot_id = instance.slot.id.clone();
    let out = if need_destroy {
        server.live = Ghost(s0.live.remove(id));
        server.destroys = Ghost(s0.destroys + 1);
        IdleOutcome {
            reply: idle_reply(),
            destroy: Some(destroy_slot_request(request_id, slot_id, reason)),
            wake: None,
        }
    } else {
        match try_add_idle_instance(&mut server.pool, instance) {
            Ok(Put::Delivered(w, got)) => {
                let Waiter { ticket, request_id: waiting_id } = w;
                let reply = assignment_reply(
                    waiting_id,
                    got.meta.key.clone(),
                    got.instance_id.clone(),
                );
                update_instance_map(&mut server.busy, got);
                assert(server@.busy =~= s0.busy.insert(id, inst));
                IdleOutcome { reply: idle_reply(), destroy: None, wake: Some(Wake { ticket, reply }) }
            },
            Ok(Put::Queued) => IdleOutcome { reply: idle_reply(), destroy: None, wake: None },
            Ok(Put::Parked) => unreached(),
            Err(ModelError::Full) => {
                server.live = Ghost(s0.live.remove(id));
                server.destroys = Ghost(s0.destroys + 1);
                IdleOutcome {
                    reply: idle_reply(),
                    destroy: Some(destroy_slot_request(request_id, slot_id, None)),
                    wake: None,
                }
            },
            Err(_) => unreached(),
        }
    };
    let r = Ok(out);
    proof {
        lemma_idle_keeps_wf(s0, server@, asked, now, r);
    }
    r
}

/// Idle, at the clock's reading. What holds of `idle_impl_at` holds here
/// for some instant.
pub fn idle_impl(server: &mut ScalerServerImpl, request: IdleRequest) -> (r: Result<
    IdleOutcome,
    ServerError,
>)
    requires
        old(server).wf(),
    ensures
        final(server).wf(),
        exists|t: Instant| #[trigger] idle_post(old(server)@, final(server)@, request, t, r),
{
    let t = now();
    idle_impl_at(server, request, t)
}

/// What the commit of a built instance does to the scaler `before`, and
/// what it answers.
pub open spec fn commit_post(
    before: ScalerView,
    after: ScalerView,
    inst: InstanceView,
    r: Result<Commit, ServerError>,
) -> bool {
    let id = inst.instance_id;
    let k = inst.meta.key;
    if before.busy.contains_key(id) || pool_holds(before.pool, id) {
        r matches Err(e) && e == ServerError::DuplicateInstance && after == before
    } else if !before.pool.contains_key(k) {
        r matches Err(e) && e == ServerError::MissingChannel && after == before
    } else if before.pool[k].waiting.len() > 0 {
        let w = before.pool[k].waiting[0];
        &&& r matches Ok(Commit::Delivered(wake)) && wake.ticket == w.ticket && assigned(
            wake.reply,
            w.request_id,
            k,
            id,
        )
        &&& after == (ScalerView {
            pool: before.pool.insert(k, before.pool[k].serve()),
            busy: before.busy.insert(id, inst),
            live: before.live.insert(id),
            commits: before.commits + 1,
            ..before
        })
    } else if before.pool[k].items.len() < IDLE_CAPACITY {
        &&& r matches Ok(Commit::Queued)
        &&& after == (ScalerView {
            pool: before.pool.insert(k, before.pool[k].put(inst)),
            live: before.live.insert(id),
            commits: before.commits + 1,
            ..before
        })
    } else {
        &&& r matches Ok(Commit::Parked)
        &&& after == (ScalerView { pool: before.pool.insert(k, before.pool[k].put(inst)), ..before })
    }
}

/// The commit of an instance that a scheduler built: it goes to the
/// longest-waiting assign of its function, or into the pool, or is parked
/// behind a full pool. An instance whose id is in use is refused.
pub fn commit_instance(server: &mut ScalerServerImpl, instance: Instance) -> (r: Result<
    Commit,
    ServerError,
>)
    requires
        old(server).wf(),
    ensures
        final(server).wf(),
        commit_post(old(server)@, final(server)@, instance@, r),
{
    let ghost s0 = server@;
    let ghost inst = instance@;
    let ghost id = inst.instance_id;
    if server.busy.contains(&instance.instance_id) || server.pool.holds(&instance.instance_id) {
        return Err(ServerError::DuplicateInstance);
    }
    let r = match add_idle_instance(&mut server.pool, instance) {
        Ok(Put::Delivered(w, got)) => {
            let Waiter { ticket, request_id: waiting_id } = w;
            let reply = assignment_reply(waiting_id, got.meta.key.clone(), got.instance_id.clone());
            update_instance_map(&mut server.busy, got);
            server.live = Ghost(s0.live.insert(id));
            server.commits = Ghost(s0.commits + 1);
            Ok(Commit::Delivered(Wake { ticket, reply }))
        },
        Ok(Put::Queued) => {
            server.live = Ghost(s0.live.insert(id));
            server.commits = Ghost(s0.commits + 1);
            Ok(Commit::Queued)
        },
        Ok(Put::Parked) => Ok(Commit::Parked),
        Err(_) => Err(ServerError::MissingChannel),
    };
    proof {
        lemma_commit_keeps_wf(s0, server@, inst, r);
    }
    r
}

/// The idle request that hands back the instance of a reply that nobody
/// took.
pub open spec fn lost_request(wake: Wake) -> IdleRequest {
    IdleRequest { assigment: wake.reply.assigment, result: None }
}

/// The assign that `wake` was meant for has gone away, at the instant
/// `now`: its instance is handed back as by an idle without a verdict. So
/// it goes to the next waiting assign of its function, or into the pool, or
/// is destroyed where the pool is full.
pub fn wake_lost_at(server: &mut ScalerServerImpl, wake: Wake, now: Instant) -> (r: Result<
    IdleOutcome,
    ServerError,
>)
    requires
        old(server).wf(),
    ensures
        final(server).wf(),
        idle_post(old(server)@, final(server)@, lost_request(wake), now, r),
{
    let Wake { ticket: _, reply } = wake;
    let request = IdleRequest { assigment: reply.assigment, result: None };
    idle_impl_at(server, request, now)
}

/// The assign that `wake` was meant for has gone away, now. What holds of
/// `wake_lost_at` holds here for some instant.
pub fn wake_lost(server: &mut ScalerServerImpl, wake: Wake) -> (r: Result<IdleOutcome, ServerError>)
    requires
        old(server).wf(),
    ensures
        final(server).wf(),
        exists|t: Instant| #[trigger]
            idle_post(old(server)@, final(server)@, lost_request(wake), t, r),
{
    let t = now();
    wake_lost_at(server, wake, t)
}

/// What became of an instance at the end of its scheduler.
#[derive(Debug, Clone, PartialEq, Eq)]
pub enum Placement {
    /// The scaler took it.
    Placed(Commit),
    /// The scaler refused it with `error`: its slot is to be destroyed, as
    /// far as the platform is willing.
    Discarded { request: DestroySlotRequest, error: ServerError },
}

/// What a scheduler is told of the commit that the scaler decided as `r`.
pub open spec fn placement_told(
    out: Placement,
    r: Result<Commit, ServerError>,
    request_id: Seq<char>,
    slot_id: Seq<char>,
) -> bool {
    match r {
        Ok(c) => out matches Placement::Placed(c2) && c2 == c,
        Err(e) => out matches Placement::Discarded { request, error } && error == e
            && request.request_id@ == request_id && request.id@ == slot_id && opt_str(
            request.reason,
        ) == Some(e.spec_message()),
    }
}

/// The last step of a scheduler: the instance is committed; one that the
/// scaler refuses is not lost, its slot goes back to the platform.
pub fn commit_or_destroy(server: &mut ScalerServerImpl, request_id: &String, instance: Instance) -> (out:
    Placement)
    requires
        old(server).wf(),
    ensures
        final(server).wf(),
        exists|r: Result<Commit, ServerError>| #[trigger]
            commit_post(old(server)@, final(server)@, instance@, r) && placement_told(
                out,
                r,
                request_id@,
                instance.slot.id@,
            ),
{
    let slot_id = instance.slot.id.clone();
    let r = commit_instance(server, instance);
    let ghost gr = r;
    let out = match r {
        Ok(c) => Placement::Placed(c),
        Err(e) => Placement::Discarded {
            request: destroy_slot_request(request_id.clone(), slot_id, Some(e.message())),
            error: e,
        },
    };
    assert(commit_post(old(server)@, server@, instance@, gr) && placement_told(
        out,
        gr,
        request_id@,
        instance.slot.id@,
    ));
    out
}

/// A digit of lower-case hexadecimal.
pub open spec fn is_lower_hex(c: char) -> bool {
    c == '0' || c == '1' || c == '2' || c == '3' || c == '4' || c == '5' || c == '6' || c == '7'
        || c == '8' || c == '9' || c == 'a' || c == 'b' || c == 'c' || c == 'd' || c == 'e' || c
        == 'f'
}

/// The text of a random UUID: 36 characters, hyphens after the 8th, 12th,
/// 16th and 20th digit, lower-case hexadecimal digits elsewhere, the
/// version digit `4` and a variant digit from `8` to `b`.
pub open spec fn is_uuid_text(s: Seq<char>) -> bool {
    &&& s.len() == 36
    &&& forall|i: int|
        #![trigger s[i]]
        0 <= i < 36 ==> if i == 8 || i == 13 || i == 18 || i == 23 {
            s[i] == '-'
        } else {
            is_lower_hex(s[i])
        }
    &&& s[14] == '4'
    &&& (s[19] == '8' || s[19] == '9' || s[19] == 'a' || s[19] == 'b')
}

/// Calls `uuid::Uuid::new_v4` and writes the id as `Display` for `Uuid`
/// does: the hyphenated form in lower case. `new_v4` sets the version to 4
/// and the two highest bits of the variant to `10`. Which id comes back is
/// left open.
#[verifier::external_body]
fn new_instance_id() -> (id: String)
    ensures
        is_uuid_text(id@),
{
    uuid::Uuid::new_v4().to_string()
}

/// A slot that waits for its initialisation.
#[derive(Debug, PartialEq, Eq)]
pub struct PendingInit {
    pub slot: Slot,
    pub instance_id: String,
    /// What the platform is to be sent.
    pub request: InitRequest,
}

/// How a scheduler ends once the platform has answered `init`.
#[derive(Debug, PartialEq, Eq)]
pub enum ScheduleEnd {
    /// The instance is built: it is to be committed.
    Commit(Instance),
    /// The initialisation failed for `cause`: the slot is to be destroyed,
    /// as far as the platform is willing.
    Destroy { request: DestroySlotRequest, cause: PlatformError },
}

/// The first step of a scheduler: the slot that it asks the platform for
/// has the memory that the function needs.
pub fn schedule_instance(request_id: &String, meta: &Meta) -> (r: CreateSlotRequest)
    ensures
        r.request_id@ == request_id@,
        r.resource_config == Some(ResourceConfig { memory_in_megabytes: meta.memory_in_mb }),
{
    let resource_config = ResourceConfig { memory_in_megabytes: meta.memory_in_mb };
    create_slot_request(request_id.clone(), Some(resource_config))
}

/// `p` holds `slot` under the id `id` and asks to initialise it for `meta`.
pub open spec fn begin_init_post(
    request_id: Seq<char>,
    meta: crate::messages::MetaView,
    slot: crate::messages::SlotView,
    id: Seq<char>,
    p: PendingInit,
) -> bool {
    &&& p.slot@ == slot
    &&& p.instance_id@ == id
    &&& p.request.request_id@ == request_id
    &&& p.request.slot_id@ == slot.id
    &&& p.request.instance_id@ == id
    &&& p.request.meta_data matches Some(m) && m@ == meta
}

/// The second step of a scheduler, for a slot that the platform gave and an
/// id that was drawn for the instance.
pub fn begin_init(request_id: &String, meta: &Meta, slot: Slot, instance_id: String) -> (p:
    PendingInit)
    ensures
        begin_init_post(request_id@, meta@, slot@, instance_id@, p),
{
    let request = init_request(request_id.clone(), &slot, &instance_id, meta);
    PendingInit { slot, instance_id, request }
}

/// How a scheduler goes on once the platform has answered `create_slot`.
pub open spec fn slot_created_post(
    request_id: Seq<char>,
    meta: crate::messages::MetaView,
    reply: Result<CreateSlotReply, String>,
    r: Result<PendingInit, PlatformError>,
) -> bool {
    match reply {
        Err(msg) => r matches Err(PlatformError::Transport(m)) && m@ == msg@,
        Ok(rep) => if rep.status != Status::Success {
            r matches Err(PlatformError::Rejected(s)) && s == rep.status
        } else {
            match rep.slot {
                Some(slot) => r matches Ok(p) && is_uuid_text(p.instance_id@) && begin_init_post(
                    request_id,
                    meta,
                    slot@,
                    p.instance_id@,
                    p,
                ),
                None => r matches Err(PlatformError::MissingSlot),
            }
        },
    }
}

/// The platform has answered `create_slot`. Without a slot the scheduler
/// ends with the error; with one it draws a fresh instance id and asks for
/// the initialisation.
pub fn slot_created(request_id: &String, meta: &Meta, reply: Result<CreateSlotReply, String>) -> (r:
    Result<PendingInit, PlatformError>)
    ensures
        slot_created_post(request_id@, meta@, reply, r),
{
    match create_slot(reply) {
        Ok(slot) => {
            let instance_id = new_instance_id();
            Ok(begin_init(request_id, meta, slot, instance_id))
        },
        Err(e) => Err(e),
    }
}

/// How a scheduler ends once the platform has answered `init`, for an
/// instance born at `born`.
pub open spec fn slot_initialized_post(
    request_id: Seq<char>,
    meta: crate::messages::MetaView,
    pending: PendingInit,
    reply: Result<InitReply, String>,
    born: Instant,
    r: ScheduleEnd,
) -> bool {
    let failed = (r matches ScheduleEnd::Destroy { request, cause: _ } && request.request_id@
        == request_id && request.id@ == pending.slot.id@ && opt_str(request.reason) == Some(
        "init failed"@,
    ));
    match reply {
        Err(msg) => failed && (r matches ScheduleEnd::Destroy {
            request: _,
            cause: PlatformError::Transport(m),
        } && m@ == msg@),
        Ok(rep) => if rep.status != Status::Success {
            failed && (r matches ScheduleEnd::Destroy {
                request: _,
                cause: PlatformError::Rejected(s),
            } && s == rep.status)
        } else {
            r matches ScheduleEnd::Commit(inst) && inst@ == (InstanceView {
                instance_id: pending.instance_id@,
                slot: pending.slot@,
                create_time_ms: rep.create_time,
                init_duration_ms: rep.init_duration_in_ms,
                last_idle_time: born,
                meta,
            })
        },
    }
}

/// The platform has answered `init`, at the instant `born`. On success the
/// instance is built and is to be committed; on failure its slot is to be
/// destroyed.
pub fn slot_initialized_at(
    request_id: &String,
    meta: Meta,
    pending: PendingInit,
    reply: Result<InitReply, String>,
    born: Instant,
) -> (r: ScheduleEnd)
    ensures
        slot_initialized_post(request_id@, meta@, pending, reply, born, r),
{
    let PendingInit { slot, instance_id, request: _ } = pending;
    let slot_id = slot.id.clone();
    match init_slot_at(reply, instance_id, slot, meta, born) {
        Ok(instance) => ScheduleEnd::Commit(instance),
        Err(cause) => {
            let request = destroy_slot_request(
                request_id.clone(),
                slot_id,
                Some("init failed".to_owned()),
            );
            ScheduleEnd::Destroy { request, cause }
        },
    }
}

/// The platform has answered `init`, now. What holds of
/// `slot_initialized_at` holds here for some instant.
pub fn slot_initialized(
    request_id: &String,
    meta: Meta,
    pending: PendingInit,
    reply: Result<InitReply, String>,
) -> (r: ScheduleEnd)
    ensures
        exists|born: Instant| #[trigger]
            slot_initialized_post(request_id@, meta@, pending, reply, born, r),
{
    let born = now();
    slot_initialized_at(request_id, meta, pending, reply, born)
}

/// The instance that an assign hands out was not busy before, and is busy
/// after: no two assigns that are in flight hold the same instance.
pub proof fn lemma_assigned_is_new(
    before: ScalerView,
    after: ScalerView,
    request: AssignRequest,
    r: Result<AssignStep, ServerError>,
)
    requires
        before.wf(),
        assign_post(before, after, request, r),
        r matches Ok(AssignStep::Assigned(_)),
    ensures
        r matches Ok(AssignStep::Assigned(reply)) && (reply.assigment matches Some(a)
            && !before.busy.contains_key(a.instance_id@) && after.busy.contains_key(
            a.instance_id@,
        ) && after.busy[a.instance_id@].instance_id == a.instance_id@),
{
    let k = request.meta_data->0.key@;
    assert(at(before.pool, k, 0));
}

/// An assign with a descriptor that is registered already leaves the
/// registry as it is.
pub proof fn lemma_assign_registers_once(
    before: ScalerView,
    after: ScalerView,
    request: AssignRequest,
    r: Result<AssignStep, ServerError>,
)
    requires
        assign_post(before, after, request, r),
        request.meta_data matches Some(m) && before.metas.contains_key(m.key@) && before.metas[m.key@]
            == m@,
    ensures
        after.metas == before.metas,
{
    let m = request.meta_data->0;
    assert(before.metas.insert(m.key@, m@) =~= before.metas);
}

/// The cold path ends: where nothing is idle and nobody waits for a
/// function, the assign that asks for it waits, and the next instance that
/// is committed for the function goes to this assign and is busy then,
/// while the pool of the function stays empty. The one exception is an
/// instance whose id is in use: it is refused, and the assign waits on.
pub proof fn lemma_cold_path(
    s0: ScalerView,
    s1: ScalerView,
    s2: ScalerView,
    request: AssignRequest,
    r1: Result<AssignStep, ServerError>,
    inst: InstanceView,
    r2: Result<Commit, ServerError>,
)
    requires
        s0.wf(),
        request.meta_data matches Some(m) && m.key@ == inst.meta.key,
        !at(s0.pool, inst.meta.key, 0),
        s0.pool.contains_key(inst.meta.key) ==> s0.pool[inst.meta.key].waiting.len() == 0,
        assign_post(s0, s1, request, r1),
        commit_post(s1, s2, inst, r2),
    ensures
        r1 matches Ok(AssignStep::Pending { ticket, request_id: _, meta: _ }) && (if s1.busy.contains_key(
            inst.instance_id,
        ) || pool_holds(s1.pool, inst.instance_id) {
            r2 matches Err(e) && e == ServerError::DuplicateInstance && s2 == s1
        } else {
            r2 matches Ok(Commit::Delivered(wake)) && wake.ticket == ticket && assigned(
                wake.reply,
                request.request_id@,
                inst.meta.key,
                inst.instance_id,
            ) && s2.busy.contains_key(inst.instance_id) && s2.pool[inst.meta.key].waiting.len() == 0
        }),
        s1.pool[inst.meta.key].waiting.len() == 1,
        s2.pool[inst.meta.key].idle().len() == 0,
{
    let k = inst.meta.key;
    let ch = if s0.pool.contains_key(k) {
        s0.pool[k]
    } else {
        ChannelView::empty()
    };
    assert(ch.items.len() == 0);
    assert(s1.pool[k].waiting.len() == 1);
    assert(s1.pool[k].waiting[0].ticket == s0.next_ticket);
}

/// An idle never parks an instance: where no channel holds more than the
/// pool's capacity before, none does after.
pub proof fn lemma_idle_respects_capacity(
    before: ScalerView,
    after: ScalerView,
    request: IdleRequest,
    now: Instant,
    r: Result<IdleOutcome, ServerError>,
)
    requires
        before.wf(),
        idle_post(before, after, request, now, r),
        forall|k: Seq<char>| #[trigger]
            before.pool.contains_key(k) ==> before.pool[k].items.len() <= IDLE_CAPACITY,
    ensures
        forall|k: Seq<char>| #[trigger]
            after.pool.contains_key(k) ==> after.pool[k].items.len() <= IDLE_CAPACITY,
{
    assert forall|k: Seq<char>| #[trigger] after.pool.contains_key(k) implies after.pool[k].items.len()
        <= IDLE_CAPACITY by {
        if request.assigment is Some && before.busy.contains_key(
            request.assigment->0.instance_id@,
        ) {
            let key = before.busy[request.assigment->0.instance_id@].meta.key;
            assert(before.pool.contains_key(key));
            if k != key {
                assert(before.pool.contains_key(k));
            }
        } else {
            assert(before.pool.contains_key(k));
        }
    }
}

/// The registry only grows: whatever an assign, an idle or a commit does,
/// every function that was registered before is registered after.
pub proof fn lemma_registry_grows(
    before: ScalerView,
    after: ScalerView,
    assign: AssignRequest,
    assign_result: Result<AssignStep, ServerError>,
    idle: IdleRequest,
    now: Instant,
    idle_result: Result<IdleOutcome, ServerError>,
    inst: InstanceView,
    commit_result: Result<Commit, ServerError>,
    key: Seq<char>,
)
    requires
        assign_post(before, after, assign, assign_result) || idle_post(
            before,
            after,
            idle,
            now,
            idle_result,
        ) || commit_post(before, after, inst, commit_result),
        before.metas.contains_key(key),
    ensures
        after.metas.contains_key(key),
{
}

/// Where the platform accepts `create_slot` and `init`, the scheduler ends
/// with an instance to commit: it belongs to the function that was asked
/// for, sits in the slot that the platform gave, and carries the id that
/// was drawn, a UUID text.
pub proof fn lemma_accepted_pair_commits(
    request_id: Seq<char>,
    meta: crate::messages::MetaView,
    created: Result<CreateSlotReply, String>,
    pending: Result<PendingInit, PlatformError>,
    initialized: Result<InitReply, String>,
    born: Instant,
    end: ScheduleEnd,
)
    requires
        created matches Ok(rep) && rep.status == Status::Success && rep.slot is Some,
        initialized matches Ok(rep) && rep.status == Status::Success,
        slot_created_post(request_id, meta, created, pending),
        pending matches Ok(p) ==> slot_initialized_post(request_id, meta, p, initialized, born, end),
    ensures
        pending matches Ok(p) && (end matches ScheduleEnd::Commit(inst) && inst@.meta == meta
            && inst@.instance_id == p.instance_id@ && is_uuid_text(inst@.instance_id)
            && inst@.slot == created->Ok_0.slot->0@ && inst@.last_idle_time == born),
{
}

/// A spare instance sits idle: where nobody waits for its function and
/// the pool has room, an instance that is committed becomes the last of
/// the pool and is not busy, and no assign is told of it. The one exception
/// is an instance whose id is in use: it is refused.
pub proof fn lemma_spare_sits_idle(
    before: ScalerView,
    after: ScalerView,
    inst: InstanceView,
    r: Result<Commit, ServerError>,
)
    requires
        before.wf(),
        commit_post(before, after, inst, r),
        before.pool.contains_key(inst.meta.key),
        before.pool[inst.meta.key].waiting.len() == 0,
        before.pool[inst.meta.key].items.len() < IDLE_CAPACITY,
    ensures
        if before.busy.contains_key(inst.instance_id) || pool_holds(before.pool, inst.instance_id) {
            r matches Err(e) && e == ServerError::DuplicateInstance && after == before
        } else {
            &&& r matches Ok(Commit::Queued)
            &&& after.pool[inst.meta.key].idle().last() == inst
            &&& after.pool[inst.meta.key].idle().len() == before.pool[inst.meta.key].idle().len()
                + 1
            &&& !after.busy.contains_key(inst.instance_id)
            &&& after.live.contains(inst.instance_id)
            &&& after.busy == before.busy
        },
{
}

/// A recycled instance sits idle: where the client does not ask for its
/// destruction, nobody waits for its function and the pool has room, the
/// instance that an idle hands back becomes the last of the pool of its
/// own function and is busy no more. Nothing is asked of the platform.
pub proof fn lemma_recycled_is_idle(
    before: ScalerView,
    after: ScalerView,
    request: IdleRequest,
    now: Instant,
    r: Result<IdleOutcome, ServerError>,
)
    requires
        before.wf(),
        idle_post(before, after, request, now, r),
        request.assigment matches Some(a) && before.busy.contains_key(a.instance_id@)
            && before.pool[before.busy[a.instance_id@].meta.key].waiting.len() == 0
            && before.pool[before.busy[a.instance_id@].meta.key].items.len() < IDLE_CAPACITY,
        !(request.result matches Some(res) && res.need_destroy),
    ensures
        r matches Ok(out) && out.destroy is None && out.wake is None && out.reply.status
            == Status::Success,
        request.assigment matches Some(a) && !after.busy.contains_key(a.instance_id@)
            && after.pool[before.busy[a.instance_id@].meta.key].idle().last() == (InstanceView {
            last_idle_time: now,
            ..before.busy[a.instance_id@]
        }) && pool_idle(after.pool, a.instance_id@),
        after.wf(),
        forall|x: Seq<char>| !(#[trigger] pool_holds(after.pool, x) && after.busy.contains_key(x)),
{
    lemma_idle_keeps_wf(before, after, request, now, r);
    let id = request.assigment->0.instance_id@;
    let inst = InstanceView { last_idle_time: now, ..before.busy[id] };
    let k = inst.meta.key;
    lemma_busy_remove(before.pool, before.busy, id);
    let n = before.pool[k].items.len() as int;
    assert(at(after.pool, k, n) && item(after.pool, k, n).instance_id == id);
    assert forall|x: Seq<char>| !(#[trigger] pool_holds(after.pool, x) && after.busy.contains_key(
        x,
    )) by {
        crate::model::placement::lemma_exclusive(after.pool, after.busy, x);
    }
}

} // verus!
