//! The scaler's state and its two operations as the dispatcher sees them.

pub mod history;
pub mod server_impl;

use crate::messages::{AssignReply, AssignRequest, IdleReply, IdleRequest, Meta, MetaView, Status};
use crate::model::instance::{
    cancel_idle_wait, pool_holds, pool_idle, ChannelView, IdlePool, Instance, InstanceMap,
    InstanceView, IDLE_CAPACITY,
};
use crate::model::meta_data::{get_meta_data, metas_keyed, MetaData};
use crate::model::placement::placed;
use crate::server::server_impl::{assign_impl, idle_impl, AssignStep, IdleOutcome};
use tokio::time::Instant;
use vstd::prelude::*;

verus! {

/// Why an operation was refused.
#[derive(Debug, Clone, Copy, PartialEq, Eq, Structural)]
pub enum ServerError {
    /// An assign request came without a function descriptor.
    NoMetaData,
    /// An idle request came without an assignment.
    NoAssignment,
    /// An idle request names an instance that is not busy.
    InstanceNotFound,
    /// An instance was handed in for a function that nobody asked for yet.
    MissingChannel,
    /// An instance was handed in under an id that is in use.
    DuplicateInstance,
}

/// Whom an error is blamed on.
#[derive(Debug, Clone, Copy, PartialEq, Eq, Structural)]
pub enum ErrorKind {
    InvalidArgument,
    Internal,
}

impl ServerError {
    pub open spec fn spec_kind(self) -> ErrorKind {
        match self {
            ServerError::NoMetaData => ErrorKind::InvalidArgument,
            ServerError::NoAssignment => ErrorKind::InvalidArgument,
            ServerError::InstanceNotFound => ErrorKind::InvalidArgument,
            ServerError::MissingChannel => ErrorKind::Internal,
            ServerError::DuplicateInstance => ErrorKind::Internal,
        }
    }

    pub open spec fn spec_message(self) -> Seq<char> {
        match self {
            ServerError::NoMetaData => "no meta data found"@,
            ServerError::NoAssignment => "no assignment provided"@,
            ServerError::InstanceNotFound => "instance not found"@,
            ServerError::MissingChannel => "should have sender channel"@,
            ServerError::DuplicateInstance => "instance id is in use"@,
        }
    }

    /// A malformed request is the client's fault; the rest is the scaler's.
    pub fn kind(self) -> (k: ErrorKind)
        ensures
            k == self.spec_kind(),
    {
        match self {
            ServerError::NoMetaData => ErrorKind::InvalidArgument,
            ServerError::NoAssignment => ErrorKind::InvalidArgument,
            ServerError::InstanceNotFound => ErrorKind::InvalidArgument,
            ServerError::MissingChannel => ErrorKind::Internal,
            ServerError::DuplicateInstance => ErrorKind::Internal,
        }
    }

    /// The text that the client is sent.
    pub fn message(self) -> (m: String)
        ensures
            m@ == self.spec_message(),
    {
        match self {
            ServerError::NoMetaData => "no meta data found".to_owned(),
            ServerError::NoAssignment => "no assignment provided".to_owned(),
            ServerError::InstanceNotFound => "instance not found".to_owned(),
            ServerError::MissingChannel => "should have sender channel".to_owned(),
            ServerError::DuplicateInstance => "instance id is in use".to_owned(),
        }
    }
}

/// The port on which the scaler listens.
pub const LISTEN_PORT: u16 = 9001;

/// The port of the platform on the local host.
pub const PLATFORM_PORT: u16 = 50051;

/// How many seconds pass between two attempts to reach the platform.
pub const PLATFORM_RETRY_SECS: u64 = 5;

/// How many streams one connection may hold at a time.
pub const MAX_CONCURRENT_STREAMS: u32 = 1000;

/// The seconds after which an idle connection is probed.
pub const TCP_KEEPALIVE_SECS: u64 = 60;

/// How the start goes on after an attempt to reach the platform.
#[derive(Debug, Clone, Copy, PartialEq, Eq, Structural)]
pub enum Connect {
    /// The platform is reached: the scaler can serve.
    Ready,
    /// The attempt failed: the next one is due after so many seconds.
    RetryAfter(u64),
}

/// The start retries until the platform is reached, with no limit on the
/// number of attempts.
pub fn after_connect_attempt(connected: bool) -> (c: Connect)
    ensures
        c == (if connected {
            Connect::Ready
        } else {
            Connect::RetryAfter(PLATFORM_RETRY_SECS)
        }),
{
    if connected {
        Connect::Ready
    } else {
        Connect::RetryAfter(PLATFORM_RETRY_SECS)
    }
}

/// The scaler's state as mathematics.
pub struct ScalerView {
    /// The registry: every function that was ever asked for.
    pub metas: Map<Seq<char>, MetaView>,
    /// The channel of each function.
    pub pool: Map<Seq<char>, ChannelView>,
    /// The directory: the busy instances by id.
    pub busy: Map<Seq<char>, InstanceView>,
    /// The ticket that the next waiting assign gets.
    pub next_ticket: u64,
    /// The ids of the live instances: idle in a pool, or busy.
    pub live: Set<Seq<char>>,
    /// How many instances have entered a pool or gone to a waiting assign.
    pub commits: nat,
    /// How many live instances were given up for destruction.
    pub destroys: nat,
}

impl ScalerView {
    /// Every function with a channel is registered.
    pub open spec fn registered(self) -> bool {
        forall|k: Seq<char>| #[trigger] self.pool.contains_key(k) ==> self.metas.contains_key(k)
    }

    /// `live` is what is idle or busy, and it is what was committed and not
    /// destroyed.
    pub open spec fn counted(self) -> bool {
        &&& forall|x: Seq<char>|
            #![trigger self.live.contains(x)]
            #![trigger self.busy.contains_key(x)]
            #![trigger pool_idle(self.pool, x)]
            self.live.contains(x) <==> self.busy.contains_key(x) || pool_idle(self.pool, x)
        &&& self.live.finite()
        &&& self.live.len() + self.destroys == self.commits
    }

    pub open spec fn wf(self) -> bool {
        &&& placed(self.pool, self.busy)
        &&& metas_keyed(self.metas)
        &&& self.registered()
        &&& self.counted()
    }

    /// Conservation: the live instances are those that are idle in a pool
    /// or busy, and there are as many of them as were committed and not
    /// given up for destruction.
    pub proof fn lemma_conservation(self)
        requires
            self.wf(),
        ensures
            self.live.len() == self.commits - self.destroys,
            forall|x: Seq<char>| #[trigger]
                self.live.contains(x) <==> self.busy.contains_key(x) || pool_idle(self.pool, x),
    {
    }

    /// Exclusivity: no instance is in a channel and in the directory at
    /// once.
    pub proof fn lemma_exclusivity(self, id: Seq<char>)
        requires
            self.wf(),
        ensures
            !(pool_idle(self.pool, id) && self.busy.contains_key(id)),
            !(pool_holds(self.pool, id) && self.busy.contains_key(id)),
    {
        crate::model::placement::lemma_exclusive(self.pool, self.busy, id);
    }

    /// Capacity: the idle pool of a function holds at most `IDLE_CAPACITY`
    /// instances.
    pub proof fn lemma_capacity(self, key: Seq<char>)
        ensures
            self.pool[key].idle().len() <= IDLE_CAPACITY,
    {
    }
}

/// The scaler: the registry, the idle pool and the directory, owned by one
/// value.
pub struct ScalerServerImpl {
    metas: MetaData,
    pool: IdlePool,
    busy: InstanceMap,
    next_ticket: u64,
    live: Ghost<Set<Seq<char>>>,
    commits: Ghost<nat>,
    destroys: Ghost<nat>,
}

impl View for ScalerServerImpl {
    type V = ScalerView;

    closed spec fn view(&self) -> ScalerView {
        ScalerView {
            metas: self.metas@,
            pool: self.pool@,
            busy: self.busy@,
            next_ticket: self.next_ticket,
            live: self.live@,
            commits: self.commits@,
            destroys: self.destroys@,
        }
    }
}

/// What it does to the scaler `before` when the assign that waits for `key`
/// under `ticket` gives up, and whether there was such an assign.
pub open spec fn cancel_post(
    before: ScalerView,
    after: ScalerView,
    key: Seq<char>,
    ticket: u64,
    b: bool,
) -> bool {
    &&& b == (before.pool.contains_key(key) && before.pool[key].waits(ticket))
    &&& after == (if b {
        ScalerView { pool: before.pool.insert(key, before.pool[key].leave(ticket)), ..before }
    } else {
        before
    })
}

/// What a client is told of a request that was malformed: the transport
/// answers it with its code for an invalid argument and this text.
#[derive(Debug, Clone, PartialEq, Eq)]
pub struct InvalidArgument {
    pub message: String,
}

/// The reply that reports `err` to the client of an assign.
pub open spec fn assign_failure(reply: AssignReply, err: ServerError) -> bool {
    &&& reply.status == Status::InternalError
    &&& reply.assigment is None
    &&& reply.error_message matches Some(m) && m@ == err.spec_message()
}

/// The reply that reports `err` to the client of an idle.
pub open spec fn idle_failure(reply: IdleReply, err: ServerError) -> bool {
    &&& reply.status == Status::InternalError
    &&& reply.error_message matches Some(m) && m@ == err.spec_message()
}

/// What the client of an assign is told, where the scaler decided `r`: an
/// error is told by its kind.
pub open spec fn assign_told(
    out: Result<AssignStep, InvalidArgument>,
    r: Result<AssignStep, ServerError>,
) -> bool {
    match r {
        Ok(s) => out matches Ok(o) && o == s,
        Err(e) => match e.spec_kind() {
            ErrorKind::InvalidArgument => out matches Err(a) && a.message@ == e.spec_message(),
            ErrorKind::Internal => out matches Ok(AssignStep::Assigned(reply)) && assign_failure(
                reply,
                e,
            ),
        },
    }
}

/// What the client of an idle is told, where the scaler decided `r`: an
/// error is told by its kind.
pub open spec fn idle_told(
    out: Result<IdleOutcome, InvalidArgument>,
    r: Result<IdleOutcome, ServerError>,
) -> bool {
    match r {
        Ok(o) => out matches Ok(o2) && o2 == o,
        Err(e) => match e.spec_kind() {
            ErrorKind::InvalidArgument => out matches Err(a) && a.message@ == e.spec_message(),
            ErrorKind::Internal => out matches Ok(o) && idle_failure(o.reply, e)
                && o.destroy is None && o.wake is None,
        },
    }
}

impl ScalerServerImpl {
    pub closed spec fn wf(&self) -> bool {
        &&& self.metas.wf()
        &&& self.pool.wf()
        &&& self.busy.wf()
        &&& self@.wf()
    }

    /// What `wf` says of the view.
    pub proof fn lemma_wf(&self)
        requires
            self.wf(),
        ensures
            self@.wf(),
    {
    }

    /// The scaler at start: nothing registered, pooled or busy.
    pub fn new() -> (s: Self)
        ensures
            s.wf(),
            s@ == history::initial(),
    {
        let s = ScalerServerImpl {
            metas: MetaData::new(),
            pool: IdlePool::new(),
            busy: InstanceMap::new(),
            next_ticket: 0,
            live: Ghost(Set::empty()),
            commits: Ghost(0),
            destroys: Ghost(0),
        };
        proof {
            history::lemma_initial_wf();
        }
        s
    }

    /// Whether the instance `instance_id` is busy.
    pub fn is_busy(&self, instance_id: &String) -> (b: bool)
        requires
            self.wf(),
        ensures
            b == self@.busy.contains_key(instance_id@),
    {
        self.busy.contains(instance_id)
    }

    /// A copy of the busy instance `instance_id`.
    pub fn busy_instance(&self, instance_id: &String) -> (r: Option<Instance>)
        requires
            self.wf(),
        ensures
            match r {
                Some(i) => self@.busy.contains_key(instance_id@) && i@ == self@.busy[instance_id@],
                None => !self@.busy.contains_key(instance_id@),
            },
    {
        self.busy.get(instance_id)
    }

    /// How many instances of `meta_key` are idle.
    pub fn idle_count(&self, meta_key: &String) -> (n: usize)
        requires
            self.wf(),
        ensures
            n == (if self@.pool.contains_key(meta_key@) {
                self@.pool[meta_key@].idle().len()
            } else {
                0
            }),
    {
        self.pool.idle_len(meta_key)
    }

    /// How many instances of `meta_key` are parked behind its full pool.
    pub fn parked_count(&self, meta_key: &String) -> (n: usize)
        requires
            self.wf(),
        ensures
            n == (if self@.pool.contains_key(meta_key@) {
                self@.pool[meta_key@].items.len() - self@.pool[meta_key@].idle().len()
            } else {
                0
            }),
    {
        self.pool.parked_len(meta_key)
    }

    /// How many assigns wait for an instance of `meta_key`.
    pub fn waiting_count(&self, meta_key: &String) -> (n: usize)
        requires
            self.wf(),
        ensures
            n == (if self@.pool.contains_key(meta_key@) {
                self@.pool[meta_key@].waiting.len()
            } else {
                0
            }),
    {
        self.pool.waiting_len(meta_key)
    }

    /// The registered descriptor of `meta_key`.
    pub fn meta(&self, meta_key: &String) -> (r: Option<Meta>)
        requires
            self.wf(),
        ensures
            match r {
                Some(m) => self@.metas.contains_key(meta_key@) && m@ == self@.metas[meta_key@],
                None => !self@.metas.contains_key(meta_key@),
            },
    {
        get_meta_data(&self.metas, meta_key)
    }

    /// The assign that waits for `meta_key` under `ticket` gives up. Says
    /// whether it was waiting. Nothing else changes: a scheduler that was
    /// started for it goes on, and its instance will be idle.
    pub fn cancel_wait(&mut self, meta_key: &String, ticket: u64) -> (b: bool)
        requires
            old(self).wf(),
        ensures
            final(self).wf(),
            cancel_post(old(self)@, final(self)@, meta_key@, ticket, b),
    {
        let b = cancel_idle_wait(&mut self.pool, meta_key, ticket);
        proof {
            history::lemma_cancel_keeps_wf(old(self)@, self@, meta_key@, ticket, b);
        }
        b
    }

    /// Assign as the dispatcher sees it. A malformed request is told to the
    /// client as an invalid argument, with the error's text. A fault of the
    /// scaler becomes a reply with the status `InternalError`.
    pub fn assign(&mut self, request: AssignRequest) -> (out: Result<AssignStep, InvalidArgument>)
        requires
            old(self).wf(),
        ensures
            final(self).wf(),
            exists|r: Result<AssignStep, ServerError>| #[trigger]
                server_impl::assign_post(old(self)@, final(self)@, request, r) && assign_told(
                    out,
                    r,
                ),
    {
        let r = assign_impl(self, request);
        let ghost gr = r;
        let out = match r {
            Ok(s) => Ok(s),
            Err(e) => match e.kind() {
                ErrorKind::InvalidArgument => Err(InvalidArgument { message: e.message() }),
                ErrorKind::Internal => Ok(
                    AssignStep::Assigned(
                        AssignReply {
                            status: Status::InternalError,
                            assigment: None,
                            error_message: Some(e.message()),
                        },
                    ),
                ),
            },
        };
        assert(server_impl::assign_post(old(self)@, self@, request, gr) && assign_told(out, gr));
        out
    }

    /// Idle as the dispatcher sees it. A malformed request is told to the
    /// client as an invalid argument, with the error's text. A fault of the
    /// scaler becomes a reply with the status `InternalError`, and nothing
    /// to do.
    pub fn idle(&mut self, request: IdleRequest) -> (out: Result<IdleOutcome, InvalidArgument>)
        requires
            old(self).wf(),
        ensures
            final(self).wf(),
            exists|t: Instant, r: Result<IdleOutcome, ServerError>| #[trigger]
                server_impl::idle_post(old(self)@, final(self)@, request, t, r) && idle_told(
                    out,
                    r,
                ),
    {
        let r = idle_impl(self, request);
        let ghost gr = r;
        let ghost t = choose|t: Instant| #[trigger]
            server_impl::idle_post(old(self)@, self@, request, t, gr);
        let out = match r {
            Ok(o) => Ok(o),
            Err(e) => match e.kind() {
                ErrorKind::InvalidArgument => Err(InvalidArgument { message: e.message() }),
                ErrorKind::Internal => Ok(
                    IdleOutcome {
                        reply: IdleReply {
                            status: Status::InternalError,
                            error_message: Some(e.message()),
                        },
                        destroy: None,
                        wake: None,
                    },
                ),
            },
        };
        assert(server_impl::idle_post(old(self)@, self@, request, t, gr) && idle_told(out, gr));
        out
    }
}

} // verus!
