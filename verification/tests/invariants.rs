use scaler::messages::{
    AssignReply, AssignRequest, Assignment, IdleRequest, IdleResult, Meta, Slot, Status,
};
use scaler::model::instance::{Instance, IDLE_CAPACITY};
use scaler::server::server_impl::{
    assign_impl, commit_instance, commit_or_destroy, idle_impl, wake_lost, wake_lost_at,
    AssignStep, Commit, IdleOutcome, Placement, Wake,
};
use scaler::server::{
    after_connect_attempt, Connect, ErrorKind, InvalidArgument, ScalerServerImpl, ServerError,
    LISTEN_PORT,
    MAX_CONCURRENT_STREAMS, PLATFORM_PORT, PLATFORM_RETRY_SECS, TCP_KEEPALIVE_SECS,
};
use tokio::time::Instant;

fn inv_meta(key: &str, memory_in_mb: u64) -> Meta {
    Meta { key: key.to_string(), runtime: "go".to_string(), timeout_in_secs: 10, memory_in_mb }
}

fn inv_instance(id: &str, key: &str) -> Instance {
    Instance {
        instance_id: id.to_string(),
        slot: Slot { id: format!("slot-{}", id), create_time: 1, create_duration_in_ms: 2 },
        create_time_ms: 3,
        init_duration_ms: 4,
        last_idle_time: Instant::now(),
        meta: inv_meta(key, 256),
    }
}

fn inv_assign(server: &mut ScalerServerImpl, request_id: &str, key: &str) -> AssignStep {
    let request = AssignRequest {
        request_id: request_id.to_string(),
        timestamp: 0,
        meta_data: Some(inv_meta(key, 256)),
    };
    assign_impl(server, request).unwrap()
}

fn inv_idle(server: &mut ScalerServerImpl, id: &str, key: &str, need_destroy: bool) -> IdleOutcome {
    let request = IdleRequest {
        assigment: Some(Assignment {
            request_id: "rq".to_string(),
            meta_key: key.to_string(),
            instance_id: id.to_string(),
        }),
        result: Some(IdleResult { need_destroy, reason: None }),
    };
    idle_impl(server, request).unwrap()
}

fn inv_ticket(step: AssignStep) -> u64 {
    match step {
        AssignStep::Pending { ticket, .. } => ticket,
        AssignStep::Assigned(_) => panic!("expected to wait"),
    }
}

fn inv_id(step: AssignStep) -> String {
    match step {
        AssignStep::Assigned(reply) => reply.assigment.unwrap().instance_id,
        AssignStep::Pending { .. } => panic!("expected an instance"),
    }
}

/// Counts the live instances among `ids`: idle in the pool of `key`, or busy.
fn inv_live(server: &ScalerServerImpl, key: &str, ids: &[&str]) -> usize {
    let busy = ids.iter().filter(|id| server.is_busy(&id.to_string())).count();
    busy + server.idle_count(&key.to_string())
}

#[test]
fn conservation_over_a_trace() {
    let ids = ["a", "b", "c", "d", "e", "f", "g", "h"];
    let key = "f1";
    let mut server = ScalerServerImpl::new();
    let mut commits = 0usize;
    let mut destroys = 0usize;
    assert_eq!(inv_live(&server, key, &ids), 0);
    // One assign waits; the first commit is delivered to it.
    let _ = inv_assign(&mut server, "r0", key);
    assert_eq!(inv_live(&server, key, &ids), commits - destroys);
    for (n, id) in ids.iter().enumerate() {
        match commit_instance(&mut server, inv_instance(id, key)).unwrap() {
            Commit::Delivered(_) => {
                assert_eq!(n, 0);
                commits += 1;
            }
            Commit::Queued => {
                assert!(n >= 1 && n <= IDLE_CAPACITY);
                commits += 1;
            }
            Commit::Parked => assert!(n > IDLE_CAPACITY),
        }
        assert_eq!(inv_live(&server, key, &ids), commits - destroys);
    }
    assert_eq!(commits, 6);
    assert_eq!(server.parked_count(&key.to_string()), 2);
    // Destroying a busy instance lowers the count.
    let out = inv_idle(&mut server, "a", key, true);
    assert!(out.destroy.is_some());
    destroys += 1;
    assert_eq!(inv_live(&server, key, &ids), commits - destroys);
    // An assign takes the oldest idle instance; the first parked one enters the pool.
    assert_eq!(inv_id(inv_assign(&mut server, "r1", key)), "b");
    commits += 1;
    assert_eq!(server.idle_count(&key.to_string()), 5);
    assert_eq!(server.parked_count(&key.to_string()), 1);
    assert_eq!(inv_live(&server, key, &ids), commits - destroys);
    // Recycling into a full pool destroys the instance.
    let out = inv_idle(&mut server, "b", key, false);
    assert_eq!(out.destroy.map(|d| d.id), Some("slot-b".to_string()));
    destroys += 1;
    assert_eq!(inv_live(&server, key, &ids), commits - destroys);
    assert_eq!(inv_live(&server, key, &ids), 5);
}

#[test]
fn exclusivity_over_a_trace() {
    let mut server = ScalerServerImpl::new();
    let key = "f1".to_string();
    let _ = inv_assign(&mut server, "r0", "f1");
    let _ = commit_instance(&mut server, inv_instance("a", "f1")).unwrap();
    assert!(server.is_busy(&"a".to_string()));
    assert_eq!(server.idle_count(&key), 0);
    let _ = inv_idle(&mut server, "a", "f1", false);
    assert!(!server.is_busy(&"a".to_string()));
    assert_eq!(server.idle_count(&key), 1);
    assert_eq!(inv_id(inv_assign(&mut server, "r1", "f1")), "a");
    assert!(server.is_busy(&"a".to_string()));
    assert_eq!(server.idle_count(&key), 0);
}

#[test]
fn capacity_is_five() {
    assert_eq!(IDLE_CAPACITY, 5);
    let mut server = ScalerServerImpl::new();
    let key = "f1".to_string();
    let ticket = inv_ticket(inv_assign(&mut server, "r0", "f1"));
    assert!(server.cancel_wait(&key, ticket));
    for n in 0..9 {
        let got = commit_instance(&mut server, inv_instance(&format!("i{}", n), "f1")).unwrap();
        assert_eq!(got, if n < 5 { Commit::Queued } else { Commit::Parked });
        assert!(server.idle_count(&key) <= 5);
        assert_eq!(server.idle_count(&key), if n < 5 { n + 1 } else { 5 });
    }
    assert_eq!(server.parked_count(&key), 4);
    // Taking one lets one parked instance in; the pool stays at five.
    assert_eq!(inv_id(inv_assign(&mut server, "r1", "f1")), "i0");
    assert_eq!(server.idle_count(&key), 5);
    assert_eq!(server.parked_count(&key), 3);
}

#[test]
fn waiting_assigns_are_served_in_order() {
    let mut server = ScalerServerImpl::new();
    let t0 = inv_ticket(inv_assign(&mut server, "r0", "f1"));
    let t1 = inv_ticket(inv_assign(&mut server, "r1", "f1"));
    let t2 = inv_ticket(inv_assign(&mut server, "r2", "f1"));
    assert_eq!((t0, t1, t2), (0, 1, 2));
    assert_eq!(server.waiting_count(&"f1".to_string()), 3);
    let mut served = Vec::new();
    for id in ["a", "b", "c"] {
        match commit_instance(&mut server, inv_instance(id, "f1")).unwrap() {
            Commit::Delivered(wake) => {
                let a = wake.reply.assigment.unwrap();
                served.push((wake.ticket, a.request_id, a.instance_id));
            }
            other => panic!("expected a delivery, got {:?}", other),
        }
    }
    assert_eq!(
        served,
        vec![
            (0, "r0".to_string(), "a".to_string()),
            (1, "r1".to_string(), "b".to_string()),
            (2, "r2".to_string(), "c".to_string()),
        ]
    );
    assert_eq!(server.waiting_count(&"f1".to_string()), 0);
}

#[test]
fn functions_do_not_share_a_pool() {
    let mut server = ScalerServerImpl::new();
    let t1 = inv_ticket(inv_assign(&mut server, "r1", "f1"));
    let t2 = inv_ticket(inv_assign(&mut server, "r2", "f2"));
    match commit_instance(&mut server, inv_instance("b", "f2")).unwrap() {
        Commit::Delivered(wake) => {
            assert_eq!(wake.ticket, t2);
            assert_eq!(wake.reply.assigment.unwrap().meta_key, "f2");
        }
        other => panic!("expected a delivery, got {:?}", other),
    }
    assert_eq!(server.waiting_count(&"f1".to_string()), 1);
    match commit_instance(&mut server, inv_instance("a", "f1")).unwrap() {
        Commit::Delivered(wake) => assert_eq!(wake.ticket, t1),
        other => panic!("expected a delivery, got {:?}", other),
    }
}

#[test]
fn assigned_ids_are_distinct_among_busy_instances() {
    let mut server = ScalerServerImpl::new();
    let ticket = inv_ticket(inv_assign(&mut server, "r0", "f1"));
    assert!(server.cancel_wait(&"f1".to_string(), ticket));
    for id in ["a", "b", "c"] {
        assert_eq!(commit_instance(&mut server, inv_instance(id, "f1")).unwrap(), Commit::Queued);
    }
    let first = inv_id(inv_assign(&mut server, "r1", "f1"));
    let second = inv_id(inv_assign(&mut server, "r2", "f1"));
    let third = inv_id(inv_assign(&mut server, "r3", "f1"));
    assert_eq!((first.as_str(), second.as_str(), third.as_str()), ("a", "b", "c"));
    assert_ne!(first, second);
    assert_ne!(second, third);
    assert_ne!(first, third);
}

#[test]
fn repeated_assign_keeps_the_registry() {
    let mut server = ScalerServerImpl::new();
    assert_eq!(server.meta(&"f1".to_string()), None);
    let _ = inv_assign(&mut server, "r0", "f1");
    let once = server.meta(&"f1".to_string());
    assert_eq!(once, Some(inv_meta("f1", 256)));
    let _ = inv_assign(&mut server, "r1", "f1");
    let _ = inv_assign(&mut server, "r2", "f1");
    assert_eq!(server.meta(&"f1".to_string()), once);
    // A changed descriptor replaces the old one.
    let request = AssignRequest {
        request_id: "r3".to_string(),
        timestamp: 0,
        meta_data: Some(inv_meta("f1", 512)),
    };
    let _ = assign_impl(&mut server, request).unwrap();
    assert_eq!(server.meta(&"f1".to_string()), Some(inv_meta("f1", 512)));
}

#[test]
fn a_cancelled_assign_leaves_a_warm_spare() {
    let mut server = ScalerServerImpl::new();
    let key = "f1".to_string();
    let t0 = inv_ticket(inv_assign(&mut server, "r0", "f1"));
    let t1 = inv_ticket(inv_assign(&mut server, "r1", "f1"));
    assert!(server.cancel_wait(&key, t0));
    assert!(!server.cancel_wait(&key, t0));
    assert!(!server.cancel_wait(&"f2".to_string(), t1));
    assert_eq!(server.waiting_count(&key), 1);
    // The first instance goes to the assign that still waits, the second sits idle.
    match commit_instance(&mut server, inv_instance("a", "f1")).unwrap() {
        Commit::Delivered(wake) => assert_eq!(wake.ticket, t1),
        other => panic!("expected a delivery, got {:?}", other),
    }
    assert_eq!(commit_instance(&mut server, inv_instance("b", "f1")).unwrap(), Commit::Queued);
    assert_eq!(server.idle_count(&key), 1);
}

#[test]
fn a_malformed_assign_is_told_as_an_invalid_argument() {
    let mut server = ScalerServerImpl::new();
    let request = AssignRequest { request_id: "r1".to_string(), timestamp: 0, meta_data: None };
    assert_eq!(
        server.assign(request),
        Err(InvalidArgument { message: "no meta data found".to_string() })
    );
    // Nothing was registered and nobody waits.
    assert_eq!(server.meta(&"f1".to_string()), None);
    assert_eq!(server.waiting_count(&"f1".to_string()), 0);
    // A good assign passes through unchanged.
    let step = server
        .assign(AssignRequest {
            request_id: "r2".to_string(),
            timestamp: 0,
            meta_data: Some(inv_meta("f1", 256)),
        })
        .unwrap();
    assert_eq!(inv_ticket(step), 0);
}

#[test]
fn a_malformed_idle_is_told_as_an_invalid_argument() {
    let mut server = ScalerServerImpl::new();
    assert_eq!(
        server.idle(IdleRequest { assigment: None, result: None }),
        Err(InvalidArgument { message: "no assignment provided".to_string() })
    );
    let _ = inv_assign(&mut server, "r0", "f1");
    let _ = commit_instance(&mut server, inv_instance("a", "f1")).unwrap();
    let unknown = IdleRequest {
        assigment: Some(Assignment {
            request_id: "r".to_string(),
            meta_key: "f1".to_string(),
            instance_id: "ghost".to_string(),
        }),
        result: None,
    };
    assert_eq!(
        server.idle(unknown),
        Err(InvalidArgument { message: "instance not found".to_string() })
    );
    // The directory and the pool are as they were.
    assert!(server.is_busy(&"a".to_string()));
    assert_eq!(server.idle_count(&"f1".to_string()), 0);
    // A good idle passes through unchanged.
    let out = server
        .idle(IdleRequest {
            assigment: Some(Assignment {
                request_id: "r0".to_string(),
                meta_key: "f1".to_string(),
                instance_id: "a".to_string(),
            }),
            result: Some(IdleResult { need_destroy: true, reason: None }),
        })
        .unwrap();
    assert_eq!(out.reply.status, Status::Success);
    assert_eq!(out.destroy.map(|d| d.id), Some("slot-a".to_string()));
}

#[test]
fn a_recycled_instance_is_last_in_the_pool_of_its_function() {
    let mut server = ScalerServerImpl::new();
    let key = "f1".to_string();
    let _ = inv_assign(&mut server, "r0", "f1");
    let _ = commit_instance(&mut server, inv_instance("a", "f1")).unwrap();
    assert_eq!(commit_instance(&mut server, inv_instance("b", "f1")).unwrap(), Commit::Queued);
    // The assignment names another function: the instance's own function decides.
    let request = IdleRequest {
        assigment: Some(Assignment {
            request_id: "r0".to_string(),
            meta_key: "f2".to_string(),
            instance_id: "a".to_string(),
        }),
        result: None,
    };
    let out = idle_impl(&mut server, request).unwrap();
    assert_eq!(out.destroy, None);
    assert_eq!(out.wake, None);
    assert!(!server.is_busy(&"a".to_string()));
    assert_eq!(server.idle_count(&key), 2);
    assert_eq!(server.idle_count(&"f2".to_string()), 0);
    assert_eq!(inv_id(inv_assign(&mut server, "r1", "f1")), "b");
    assert_eq!(inv_id(inv_assign(&mut server, "r2", "f1")), "a");
}

#[test]
fn a_lost_wake_hands_the_instance_on() {
    let mut server = ScalerServerImpl::new();
    let key = "f1".to_string();
    let t0 = inv_ticket(inv_assign(&mut server, "r0", "f1"));
    let t1 = inv_ticket(inv_assign(&mut server, "r1", "f1"));
    let first = match commit_instance(&mut server, inv_instance("a", "f1")).unwrap() {
        Commit::Delivered(wake) => wake,
        other => panic!("expected a delivery, got {:?}", other),
    };
    assert_eq!(first.ticket, t0);
    // The first assign has gone: the instance goes to the second.
    let out = wake_lost(&mut server, first).unwrap();
    assert_eq!(out.destroy, None);
    let second = out.wake.expect("the next assign is served");
    assert_eq!(second.ticket, t1);
    assert_eq!(second.reply.assigment.as_ref().map(|a| a.instance_id.as_str()), Some("a"));
    assert_eq!(second.reply.assigment.as_ref().map(|a| a.request_id.as_str()), Some("r1"));
    assert!(server.is_busy(&"a".to_string()));
    // The second has gone too: the instance sits idle.
    let now = Instant::now();
    let out = wake_lost_at(&mut server, second, now).unwrap();
    assert_eq!(out.destroy, None);
    assert_eq!(out.wake, None);
    assert!(!server.is_busy(&"a".to_string()));
    assert_eq!(server.idle_count(&key), 1);
    // A wake that names no busy instance is refused.
    let stale = Wake {
        ticket: 9,
        reply: AssignReply {
            status: Status::Success,
            assigment: Some(Assignment {
                request_id: "r".to_string(),
                meta_key: "f1".to_string(),
                instance_id: "a".to_string(),
            }),
            error_message: None,
        },
    };
    assert_eq!(wake_lost(&mut server, stale), Err(ServerError::InstanceNotFound));
    let empty = Wake {
        ticket: 9,
        reply: AssignReply { status: Status::Success, assigment: None, error_message: None },
    };
    assert_eq!(wake_lost(&mut server, empty), Err(ServerError::NoAssignment));
}

#[test]
fn a_refused_instance_is_discarded_with_its_slot() {
    let mut server = ScalerServerImpl::new();
    let rid = "r7".to_string();
    // No channel for the function.
    match commit_or_destroy(&mut server, &rid, inv_instance("a", "f1")) {
        Placement::Discarded { request, error } => {
            assert_eq!(error, ServerError::MissingChannel);
            assert_eq!(request.request_id, "r7");
            assert_eq!(request.id, "slot-a");
            assert_eq!(request.reason, Some("should have sender channel".to_string()));
        }
        other => panic!("expected a refusal, got {:?}", other),
    }
    let ticket = inv_ticket(inv_assign(&mut server, "r0", "f1"));
    match commit_or_destroy(&mut server, &rid, inv_instance("a", "f1")) {
        Placement::Placed(Commit::Delivered(wake)) => assert_eq!(wake.ticket, ticket),
        other => panic!("expected a delivery, got {:?}", other),
    }
    assert_eq!(
        commit_or_destroy(&mut server, &rid, inv_instance("b", "f1")),
        Placement::Placed(Commit::Queued)
    );
    // An id in use: the newcomer is discarded, the holder stays.
    let mut twin = inv_instance("a", "f1");
    twin.slot.id = "slot-twin".to_string();
    match commit_or_destroy(&mut server, &rid, twin) {
        Placement::Discarded { request, error } => {
            assert_eq!(error, ServerError::DuplicateInstance);
            assert_eq!(request.id, "slot-twin");
            assert_eq!(request.reason, Some("instance id is in use".to_string()));
        }
        other => panic!("expected a refusal, got {:?}", other),
    }
    assert!(server.is_busy(&"a".to_string()));
    assert_eq!(server.idle_count(&"f1".to_string()), 1);
}

#[test]
fn error_kinds_and_messages() {
    assert_eq!(ServerError::NoMetaData.kind(), ErrorKind::InvalidArgument);
    assert_eq!(ServerError::NoAssignment.kind(), ErrorKind::InvalidArgument);
    assert_eq!(ServerError::InstanceNotFound.kind(), ErrorKind::InvalidArgument);
    assert_eq!(ServerError::MissingChannel.kind(), ErrorKind::Internal);
    assert_eq!(ServerError::DuplicateInstance.kind(), ErrorKind::Internal);
    assert_eq!(ServerError::NoMetaData.message(), "no meta data found");
    assert_eq!(ServerError::NoAssignment.message(), "no assignment provided");
    assert_eq!(ServerError::InstanceNotFound.message(), "instance not found");
    assert_eq!(ServerError::MissingChannel.message(), "should have sender channel");
    assert_eq!(ServerError::DuplicateInstance.message(), "instance id is in use");
}

#[test]
fn status_codes() {
    assert_eq!(Status::Success.code(), 0);
    assert_eq!(Status::InternalError.code(), 1);
    assert_eq!(Status::Platform.code(), 2);
    assert_eq!(Status::from_code(0), Status::Success);
    assert_eq!(Status::from_code(1), Status::InternalError);
    assert_eq!(Status::from_code(2), Status::Platform);
    assert_eq!(Status::from_code(-3), Status::Platform);
    assert_eq!(Status::from_code(40), Status::Platform);
}

#[test]
fn startup_constants() {
    assert_eq!(LISTEN_PORT, 9001);
    assert_eq!(PLATFORM_PORT, 50051);
    assert_eq!(PLATFORM_RETRY_SECS, 5);
    assert_eq!(MAX_CONCURRENT_STREAMS, 1000);
    assert_eq!(TCP_KEEPALIVE_SECS, 60);
    assert_eq!(after_connect_attempt(true), Connect::Ready);
    assert_eq!(after_connect_attempt(false), Connect::RetryAfter(5));
}
