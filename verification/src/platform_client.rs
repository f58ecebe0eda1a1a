//! The platform's three calls: what is sent, and how a reply is read. The
//! call itself is made by the caller, who hands the reply in.

use crate::messages::{
    CreateSlotReply, CreateSlotRequest, DestroySlotReply, DestroySlotRequest, InitReply,
    InitRequest, Meta, MetaView, ResourceConfig, Slot, SlotView, Status,
};
use crate::model::instance::{now, Instance, InstanceView};
use tokio::time::Instant;
use vstd::prelude::*;

verus! {

/// Why a call to the platform counts as failed.
#[derive(Debug, Clone, PartialEq, Eq)]
pub enum PlatformError {
    /// The call did not come back with a reply; the text says why.
    Transport(String),
    /// The platform answered with a status other than `Success`.
    Rejected(Status),
    /// The platform answered `Success` to `create_slot` without a slot.
    MissingSlot,
}

/// The request that asks the platform for a slot.
pub fn create_slot_request(request_id: String, resource_config: Option<ResourceConfig>) -> (r:
    CreateSlotRequest)
    ensures
        r.request_id@ == request_id@,
        r.resource_config == resource_config,
{
    CreateSlotRequest { request_id, resource_config }
}

/// How the outcome of `create_slot` is read.
pub open spec fn create_slot_post(
    reply: Result<CreateSlotReply, String>,
    r: Result<Slot, PlatformError>,
) -> bool {
    match reply {
        Err(msg) => r matches Err(PlatformError::Transport(m)) && m@ == msg@,
        Ok(rep) => if rep.status != Status::Success {
            r matches Err(PlatformError::Rejected(s)) && s == rep.status
        } else {
            match rep.slot {
                Some(slot) => r matches Ok(s) && s@ == slot@,
                None => r matches Err(PlatformError::MissingSlot),
            }
        },
    }
}

/// Reads the outcome of `create_slot`: the slot, where the platform
/// answered `Success` and sent one.
pub fn create_slot(reply: Result<CreateSlotReply, String>) -> (r: Result<Slot, PlatformError>)
    ensures
        create_slot_post(reply, r),
{
    match reply {
        Err(msg) => Err(PlatformError::Transport(msg)),
        Ok(rep) => match rep.status {
            Status::Success => match rep.slot {
                Some(slot) => Ok(slot),
                None => Err(PlatformError::MissingSlot),
            },
            other => Err(PlatformError::Rejected(other)),
        },
    }
}

/// The request that asks the platform to initialise `slot` as the instance
/// `instance_id` of the function `meta`.
pub fn init_request(request_id: String, slot: &Slot, instance_id: &String, meta: &Meta) -> (r:
    InitRequest)
    ensures
        r.request_id@ == request_id@,
        r.slot_id@ == slot.id@,
        r.instance_id@ == instance_id@,
        r.meta_data matches Some(m) && m@ == meta@,
{
    InitRequest {
        request_id,
        slot_id: slot.id.clone(),
        instance_id: instance_id.clone(),
        meta_data: Some(meta.clone()),
    }
}

/// How the outcome of `init` is read, for an instance born at `born`.
pub open spec fn init_slot_post(
    reply: Result<InitReply, String>,
    instance_id: Seq<char>,
    slot: SlotView,
    meta: MetaView,
    born: Instant,
    r: Result<Instance, PlatformError>,
) -> bool {
    match reply {
        Err(msg) => r matches Err(PlatformError::Transport(m)) && m@ == msg@,
        Ok(rep) => if rep.status != Status::Success {
            r matches Err(PlatformError::Rejected(s)) && s == rep.status
        } else {
            r matches Ok(inst) && inst@ == (InstanceView {
                instance_id,
                slot,
                create_time_ms: rep.create_time,
                init_duration_ms: rep.init_duration_in_ms,
                last_idle_time: born,
                meta,
            })
        },
    }
}

/// Reads the outcome of `init` at the instant `born`: the new instance,
/// where the platform answered `Success`.
pub fn init_slot_at(
    reply: Result<InitReply, String>,
    instance_id: String,
    slot: Slot,
    meta_data: Meta,
    born: Instant,
) -> (r: Result<Instance, PlatformError>)
    ensures
        init_slot_post(reply, instance_id@, slot@, meta_data@, born, r),
{
    match reply {
        Err(msg) => Err(PlatformError::Transport(msg)),
        Ok(rep) => match rep.status {
            Status::Success => Ok(
                Instance {
                    instance_id,
                    slot,
                    create_time_ms: rep.create_time,
                    init_duration_ms: rep.init_duration_in_ms,
                    last_idle_time: born,
                    meta: meta_data,
                },
            ),
            other => Err(PlatformError::Rejected(other)),
        },
    }
}

/// Reads the outcome of `init` now. The new instance's `last_idle_time` is
/// the clock's reading, whatever it is.
pub fn init_slot(
    reply: Result<InitReply, String>,
    instance_id: String,
    slot: Slot,
    meta_data: Meta,
) -> (r: Result<Instance, PlatformError>)
    ensures
        exists|born: Instant| #[trigger]
            init_slot_post(reply, instance_id@, slot@, meta_data@, born, r),
{
    let born = now();
    init_slot_at(reply, instance_id, slot, meta_data, born)
}

/// The request that asks the platform to destroy the slot `slot_id`.
pub fn destroy_slot_request(request_id: String, slot_id: String, reason: Option<String>) -> (r:
    DestroySlotRequest)
    ensures
        r.request_id@ == request_id@,
        r.id@ == slot_id@,
        r.reason == reason,
{
    DestroySlotRequest { request_id, id: slot_id, reason }
}

/// How the outcome of `destroy_slot` is read.
pub open spec fn destroy_slot_post(
    reply: Result<DestroySlotReply, String>,
    r: Result<(), PlatformError>,
) -> bool {
    match reply {
        Err(msg) => r matches Err(PlatformError::Transport(m)) && m@ == msg@,
        Ok(rep) => if rep.status != Status::Success {
            r matches Err(PlatformError::Rejected(s)) && s == rep.status
        } else {
            r is Ok
        },
    }
}

/// Reads the outcome of `destroy_slot`.
pub fn destroy_slot(reply: Result<DestroySlotReply, String>) -> (r: Result<(), PlatformError>)
    ensures
        destroy_slot_post(reply, r),
{
    match reply {
        Err(msg) => Err(PlatformError::Transport(msg)),
        Ok(rep) => match rep.status {
            Status::Success => Ok(()),
            other => Err(PlatformError::Rejected(other)),
        },
    }
}

} // verus!
