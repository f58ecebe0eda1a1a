//! The messages exchanged with the dispatcher and with the platform, and
//! their mathematical views.

use vstd::prelude::*;

verus! {

/// Reply status shared by the scaler and the platform.
#[derive(Debug, Clone, Copy, PartialEq, Eq, Structural)]
pub enum Status {
    Success,
    InternalError,
    /// Any other status that the platform reports.
    Platform,
}

impl Status {
    /// The number that stands for this status on the wire.
    pub open spec fn spec_code(self) -> int {
        match self {
            Status::Success => 0,
            Status::InternalError => 1,
            Status::Platform => 2,
        }
    }

    pub fn code(self) -> (c: i32)
        ensures
            c == self.spec_code(),
    {
        match self {
            Status::Success => 0,
            Status::InternalError => 1,
            Status::Platform => 2,
        }
    }

    /// Reads a wire number: `0` is `Success`, `1` is `InternalError`, every other
    /// number is a status of the platform.
    pub fn from_code(c: i32) -> (s: Status)
        ensures
            s == (if c == 0 {
                Status::Success
            } else if c == 1 {
                Status::InternalError
            } else {
                Status::Platform
            }),
    {
        if c == 0 {
            Status::Success
        } else if c == 1 {
            Status::InternalError
        } else {
            Status::Platform
        }
    }
}

/// Descriptor of one function version; `key` is its identity.
#[derive(Debug, PartialEq, Eq)]
pub struct Meta {
    pub key: String,
    pub runtime: String,
    pub timeout_in_secs: u32,
    pub memory_in_mb: u64,
}

pub struct MetaView {
    pub key: Seq<char>,
    pub runtime: Seq<char>,
    pub timeout_in_secs: u32,
    pub memory_in_mb: u64,
}

impl View for Meta {
    type V = MetaView;

    open spec fn view(&self) -> MetaView {
        MetaView {
            key: self.key@,
            runtime: self.runtime@,
            timeout_in_secs: self.timeout_in_secs,
            memory_in_mb: self.memory_in_mb,
        }
    }
}

impl Clone for Meta {
    fn clone(&self) -> (r: Self)
        ensures
            r@ == self@,
    {
        Meta {
            key: self.key.clone(),
            runtime: self.runtime.clone(),
            timeout_in_secs: self.timeout_in_secs,
            memory_in_mb: self.memory_in_mb,
        }
    }
}

/// A container that the platform owns. The scaler passes it on as a token.
#[derive(Debug, PartialEq, Eq)]
pub struct Slot {
    pub id: String,
    pub create_time: u64,
    pub create_duration_in_ms: u64,
}

pub struct SlotView {
    pub id: Seq<char>,
    pub create_time: u64,
    pub create_duration_in_ms: u64,
}

impl View for Slot {
    type V = SlotView;

    open spec fn view(&self) -> SlotView {
        SlotView {
            id: self.id@,
            create_time: self.create_time,
            create_duration_in_ms: self.create_duration_in_ms,
        }
    }
}

impl Clone for Slot {
    fn clone(&self) -> (r: Self)
        ensures
            r@ == self@,
    {
        Slot {
            id: self.id.clone(),
            create_time: self.create_time,
            create_duration_in_ms: self.create_duration_in_ms,
        }
    }
}

/// What a slot is asked to provide.
#[derive(Debug, Clone, Copy, PartialEq, Eq, Structural)]
pub struct ResourceConfig {
    pub memory_in_megabytes: u64,
}

/// The answer to a successful assign: which instance serves which request.
#[derive(Debug, Clone, PartialEq, Eq)]
pub struct Assignment {
    pub request_id: String,
    pub meta_key: String,
    pub instance_id: String,
}

pub struct AssignmentView {
    pub request_id: Seq<char>,
    pub meta_key: Seq<char>,
    pub instance_id: Seq<char>,
}

impl View for Assignment {
    type V = AssignmentView;

    open spec fn view(&self) -> AssignmentView {
        AssignmentView {
            request_id: self.request_id@,
            meta_key: self.meta_key@,
            instance_id: self.instance_id@,
        }
    }
}

#[derive(Debug, Clone, PartialEq, Eq)]
pub struct AssignRequest {
    pub request_id: String,
    pub timestamp: u64,
    pub meta_data: Option<Meta>,
}

#[derive(Debug, Clone, PartialEq, Eq)]
pub struct AssignReply {
    pub status: Status,
    pub assigment: Option<Assignment>,
    pub error_message: Option<String>,
}

/// The client's verdict on the instance that it hands back.
#[derive(Debug, Clone, PartialEq, Eq)]
pub struct IdleResult {
    pub need_destroy: bool,
    pub reason: Option<String>,
}

#[derive(Debug, Clone, PartialEq, Eq)]
pub struct IdleRequest {
    pub assigment: Option<Assignment>,
    pub result: Option<IdleResult>,
}

#[derive(Debug, Clone, PartialEq, Eq)]
pub struct IdleReply {
    pub status: Status,
    pub error_message: Option<String>,
}

#[derive(Debug, Clone, PartialEq, Eq)]
pub struct CreateSlotRequest {
    pub request_id: String,
    pub resource_config: Option<ResourceConfig>,
}

#[derive(Debug, Clone, PartialEq, Eq)]
pub struct CreateSlotReply {
    pub status: Status,
    pub slot: Option<Slot>,
}

#[derive(Debug, Clone, PartialEq, Eq)]
pub struct InitRequest {
    pub request_id: String,
    pub slot_id: String,
    pub instance_id: String,
    pub meta_data: Option<Meta>,
}

#[derive(Debug, Clone, Copy, PartialEq, Eq, Structural)]
pub struct InitReply {
    pub status: Status,
    pub create_time: u64,
    pub init_duration_in_ms: u64,
}

#[derive(Debug, Clone, PartialEq, Eq)]
pub struct DestroySlotRequest {
    pub request_id: String,
    pub id: String,
    pub reason: Option<String>,
}

#[derive(Debug, Clone, Copy, PartialEq, Eq, Structural)]
pub struct DestroySlotReply {
    pub status: Status,
}

/// The view of an optional string: the characters, where there are any.
pub open spec fn opt_str(s: Option<String>) -> Option<Seq<char>> {
    match s {
        Some(t) => Some(t@),
        None => None,
    }
}

} // verus!
