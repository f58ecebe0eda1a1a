use scaler::messages::{
    CreateSlotReply, DestroySlotReply, InitReply, Meta, ResourceConfig, Slot, Status,
};
use scaler::model::instance::{
    add_idle_instance, cancel_idle_wait, get_idle_instance, insert_instance_channel,
    remove_from_instance_map, try_add_idle_instance, try_get_idle_instance, update_instance_map,
    IdlePool, Instance, InstanceMap, ModelError, Put, Take, Waiter,
};
use scaler::model::meta_data::{get_meta_data, insert_meta_data, MetaData};
use scaler::platform_client::{
    create_slot, create_slot_request, destroy_slot, destroy_slot_request, init_request,
    init_slot, init_slot_at, PlatformError,
};
use scaler::server::server_impl::{
    begin_init, schedule_instance, slot_created, slot_initialized, slot_initialized_at, ScheduleEnd,
};
use scaler::table::Table;
use tokio::time::Instant;

fn co_meta(key: &str) -> Meta {
    Meta { key: key.to_string(), runtime: "rs".to_string(), timeout_in_secs: 5, memory_in_mb: 64 }
}

fn co_slot(id: &str) -> Slot {
    Slot { id: id.to_string(), create_time: 9, create_duration_in_ms: 8 }
}

fn co_instance(id: &str, key: &str) -> Instance {
    Instance {
        instance_id: id.to_string(),
        slot: co_slot(&format!("slot-{}", id)),
        create_time_ms: 1,
        init_duration_ms: 2,
        last_idle_time: Instant::now(),
        meta: co_meta(key),
    }
}

fn co_waiter(ticket: u64) -> Waiter {
    Waiter { ticket, request_id: format!("r{}", ticket) }
}

#[test]
fn table_insert_get_remove() {
    let mut t: Table<Meta> = Table::new();
    assert_eq!(t.len(), 0);
    assert!(!t.contains_key(&"a".to_string()));
    t.insert("a".to_string(), co_meta("a"));
    t.insert("b".to_string(), co_meta("b"));
    assert_eq!(t.len(), 2);
    assert_eq!(t.get(&"a".to_string()), Some(&co_meta("a")));
    assert_eq!(t.get(&"c".to_string()), None);
    // Inserting under a key again replaces the value and adds no entry.
    t.insert("a".to_string(), co_meta("a2"));
    assert_eq!(t.len(), 2);
    assert_eq!(t.get(&"a".to_string()), Some(&co_meta("a2")));
    assert_eq!(t.value_at(1), &co_meta("b"));
    assert_eq!(t.remove(&"a".to_string()), Some(co_meta("a2")));
    assert_eq!(t.remove(&"a".to_string()), None);
    assert_eq!(t.len(), 1);
    assert!(t.contains_key(&"b".to_string()));
}

#[test]
fn registry_last_write_wins() {
    let mut registry = MetaData::new();
    assert_eq!(get_meta_data(&registry, &"f1".to_string()), None);
    insert_meta_data(&mut registry, co_meta("f1"));
    assert_eq!(get_meta_data(&registry, &"f1".to_string()), Some(co_meta("f1")));
    insert_meta_data(&mut registry, co_meta("f1"));
    assert_eq!(get_meta_data(&registry, &"f1".to_string()), Some(co_meta("f1")));
    let mut bigger = co_meta("f1");
    bigger.memory_in_mb = 1024;
    insert_meta_data(&mut registry, bigger.clone());
    assert_eq!(get_meta_data(&registry, &"f1".to_string()), Some(bigger));
    assert_eq!(get_meta_data(&registry, &"f2".to_string()), None);
}

#[test]
fn directory_insert_and_remove() {
    let mut map = InstanceMap::new();
    assert!(!map.contains(&"a".to_string()));
    let a = co_instance("a", "f1");
    update_instance_map(&mut map, a.clone());
    assert!(map.contains(&"a".to_string()));
    assert_eq!(map.get(&"a".to_string()), Some(a.clone()));
    assert_eq!(remove_from_instance_map(&mut map, &"b".to_string()), Err(ModelError::InstanceNotFound));
    assert_eq!(remove_from_instance_map(&mut map, &"a".to_string()), Ok(a));
    assert_eq!(remove_from_instance_map(&mut map, &"a".to_string()), Err(ModelError::InstanceNotFound));
    assert!(!map.contains(&"a".to_string()));
}

#[test]
fn try_take_makes_the_channel() {
    let mut pool = IdlePool::new();
    let key = "f1".to_string();
    assert_eq!(try_add_idle_instance(&mut pool, co_instance("a", "f1")), Err(ModelError::MissingChannel));
    assert_eq!(add_idle_instance(&mut pool, co_instance("a", "f1")), Err(ModelError::MissingChannel));
    assert_eq!(get_idle_instance(&mut pool, &key, co_waiter(0)), Err(ModelError::MissingChannel));
    assert_eq!(try_get_idle_instance(&mut pool, &key), None);
    assert_eq!(try_add_idle_instance(&mut pool, co_instance("a", "f1")), Ok(Put::Queued));
    assert_eq!(pool.idle_len(&key), 1);
    assert!(pool.holds(&"a".to_string()));
    assert!(!pool.holds(&"b".to_string()));
}

#[test]
fn ensure_channel_is_idempotent() {
    let mut pool = IdlePool::new();
    let key = "f1".to_string();
    insert_instance_channel(&mut pool, key.clone());
    assert_eq!(try_add_idle_instance(&mut pool, co_instance("a", "f1")), Ok(Put::Queued));
    insert_instance_channel(&mut pool, key.clone());
    assert_eq!(pool.idle_len(&key), 1);
    assert_eq!(try_get_idle_instance(&mut pool, &key).map(|i| i.instance_id), Some("a".to_string()));
    assert_eq!(try_get_idle_instance(&mut pool, &key), None);
}

#[test]
fn pool_is_first_in_first_out() {
    let mut pool = IdlePool::new();
    let key = "f1".to_string();
    insert_instance_channel(&mut pool, key.clone());
    for id in ["a", "b", "c"] {
        assert_eq!(try_add_idle_instance(&mut pool, co_instance(id, "f1")), Ok(Put::Queued));
    }
    let mut out = Vec::new();
    while let Some(i) = try_get_idle_instance(&mut pool, &key) {
        out.push(i.instance_id);
    }
    assert_eq!(out, vec!["a".to_string(), "b".to_string(), "c".to_string()]);
}

#[test]
fn try_put_is_refused_when_full_and_put_parks() {
    let mut pool = IdlePool::new();
    let key = "f1".to_string();
    insert_instance_channel(&mut pool, key.clone());
    for n in 0..5 {
        assert_eq!(
            try_add_idle_instance(&mut pool, co_instance(&format!("i{}", n), "f1")),
            Ok(Put::Queued)
        );
    }
    assert_eq!(try_add_idle_instance(&mut pool, co_instance("x", "f1")), Err(ModelError::Full));
    assert_eq!(pool.idle_len(&key), 5);
    assert_eq!(pool.parked_len(&key), 0);
    assert!(!pool.holds(&"x".to_string()));
    assert_eq!(add_idle_instance(&mut pool, co_instance("y", "f1")), Ok(Put::Parked));
    assert_eq!(pool.idle_len(&key), 5);
    assert_eq!(pool.parked_len(&key), 1);
    assert!(pool.holds(&"y".to_string()));
    // Still full for a put that may not wait.
    assert_eq!(try_add_idle_instance(&mut pool, co_instance("z", "f1")), Err(ModelError::Full));
    // A take makes room: the parked instance is idle now.
    assert_eq!(try_get_idle_instance(&mut pool, &key).map(|i| i.instance_id), Some("i0".to_string()));
    assert_eq!(pool.idle_len(&key), 5);
    assert_eq!(pool.parked_len(&key), 0);
}

#[test]
fn blocking_take_waits_and_is_served_first() {
    let mut pool = IdlePool::new();
    let key = "f1".to_string();
    insert_instance_channel(&mut pool, key.clone());
    assert_eq!(get_idle_instance(&mut pool, &key, co_waiter(7)), Ok(Take::Waiting));
    assert_eq!(get_idle_instance(&mut pool, &key, co_waiter(8)), Ok(Take::Waiting));
    assert_eq!(pool.waiting_len(&key), 2);
    let a = co_instance("a", "f1");
    assert_eq!(try_add_idle_instance(&mut pool, a.clone()), Ok(Put::Delivered(co_waiter(7), a)));
    let b = co_instance("b", "f1");
    assert_eq!(add_idle_instance(&mut pool, b.clone()), Ok(Put::Delivered(co_waiter(8), b)));
    assert_eq!(pool.waiting_len(&key), 0);
    assert_eq!(pool.idle_len(&key), 0);
    // With an instance at hand a blocking take does not wait.
    let c = co_instance("c", "f1");
    assert_eq!(add_idle_instance(&mut pool, c.clone()), Ok(Put::Queued));
    assert_eq!(get_idle_instance(&mut pool, &key, co_waiter(9)), Ok(Take::Ready(c)));
    assert_eq!(pool.waiting_len(&key), 0);
}

#[test]
fn cancel_removes_the_first_holder_of_the_ticket() {
    let mut pool = IdlePool::new();
    let key = "f1".to_string();
    assert!(!cancel_idle_wait(&mut pool, &key, 1));
    insert_instance_channel(&mut pool, key.clone());
    for t in [1, 2, 3] {
        assert_eq!(get_idle_instance(&mut pool, &key, co_waiter(t)), Ok(Take::Waiting));
    }
    assert!(cancel_idle_wait(&mut pool, &key, 2));
    assert!(!cancel_idle_wait(&mut pool, &key, 2));
    assert_eq!(pool.waiting_len(&key), 2);
    let a = co_instance("a", "f1");
    assert_eq!(try_add_idle_instance(&mut pool, a.clone()), Ok(Put::Delivered(co_waiter(1), a)));
    let b = co_instance("b", "f1");
    assert_eq!(try_add_idle_instance(&mut pool, b.clone()), Ok(Put::Delivered(co_waiter(3), b)));
}

#[test]
fn create_slot_reads_the_reply() {
    let request = create_slot_request("r1".to_string(), Some(ResourceConfig { memory_in_megabytes: 64 }));
    assert_eq!(request.request_id, "r1");
    assert_eq!(request.resource_config, Some(ResourceConfig { memory_in_megabytes: 64 }));
    assert_eq!(create_slot_request("r2".to_string(), None).resource_config, None);
    assert_eq!(
        create_slot(Ok(CreateSlotReply { status: Status::Success, slot: Some(co_slot("s1")) })),
        Ok(co_slot("s1"))
    );
    assert_eq!(
        create_slot(Ok(CreateSlotReply { status: Status::Success, slot: None })),
        Err(PlatformError::MissingSlot)
    );
    assert_eq!(
        create_slot(Ok(CreateSlotReply { status: Status::Platform, slot: Some(co_slot("s1")) })),
        Err(PlatformError::Rejected(Status::Platform))
    );
    assert_eq!(
        create_slot(Ok(CreateSlotReply { status: Status::InternalError, slot: None })),
        Err(PlatformError::Rejected(Status::InternalError))
    );
    assert_eq!(
        create_slot(Err("connection reset".to_string())),
        Err(PlatformError::Transport("connection reset".to_string()))
    );
}

#[test]
fn init_slot_reads_the_reply() {
    let request = init_request("r1".to_string(), &co_slot("s1"), &"i1".to_string(), &co_meta("f1"));
    assert_eq!(request.request_id, "r1");
    assert_eq!(request.slot_id, "s1");
    assert_eq!(request.instance_id, "i1");
    assert_eq!(request.meta_data, Some(co_meta("f1")));
    let born = Instant::now();
    let ok = InitReply { status: Status::Success, create_time: 77, init_duration_in_ms: 13 };
    let built = init_slot_at(Ok(ok), "i1".to_string(), co_slot("s1"), co_meta("f1"), born);
    assert_eq!(
        built,
        Ok(Instance {
            instance_id: "i1".to_string(),
            slot: co_slot("s1"),
            create_time_ms: 77,
            init_duration_ms: 13,
            last_idle_time: born,
            meta: co_meta("f1"),
        })
    );
    let before = Instant::now();
    let built = init_slot(Ok(ok), "i2".to_string(), co_slot("s2"), co_meta("f1")).unwrap();
    assert_eq!(built.instance_id, "i2");
    assert_eq!(built.create_time_ms, 77);
    assert_eq!(built.init_duration_ms, 13);
    assert!(built.last_idle_time >= before);
    let no = InitReply { status: Status::InternalError, create_time: 0, init_duration_in_ms: 0 };
    assert_eq!(
        init_slot(Ok(no), "i3".to_string(), co_slot("s3"), co_meta("f1")),
        Err(PlatformError::Rejected(Status::InternalError))
    );
    assert_eq!(
        init_slot(Err("timed out".to_string()), "i3".to_string(), co_slot("s3"), co_meta("f1")),
        Err(PlatformError::Transport("timed out".to_string()))
    );
}

#[test]
fn destroy_slot_reads_the_reply() {
    let request = destroy_slot_request("r1".to_string(), "s1".to_string(), Some("why".to_string()));
    assert_eq!(request.request_id, "r1");
    assert_eq!(request.id, "s1");
    assert_eq!(request.reason, Some("why".to_string()));
    assert_eq!(destroy_slot(Ok(DestroySlotReply { status: Status::Success })), Ok(()));
    assert_eq!(
        destroy_slot(Ok(DestroySlotReply { status: Status::Platform })),
        Err(PlatformError::Rejected(Status::Platform))
    );
    assert_eq!(
        destroy_slot(Err("gone".to_string())),
        Err(PlatformError::Transport("gone".to_string()))
    );
}

#[test]
fn scheduler_asks_for_the_memory_of_the_function() {
    let mut meta = co_meta("f1");
    meta.memory_in_mb = 4096;
    let request = schedule_instance(&"r9".to_string(), &meta);
    assert_eq!(request.request_id, "r9");
    assert_eq!(request.resource_config, Some(ResourceConfig { memory_in_megabytes: 4096 }));
}

#[test]
fn scheduler_stops_without_a_slot() {
    let rid = "r1".to_string();
    let meta = co_meta("f1");
    assert_eq!(
        slot_created(&rid, &meta, Err("refused".to_string())),
        Err(PlatformError::Transport("refused".to_string()))
    );
    assert_eq!(
        slot_created(&rid, &meta, Ok(CreateSlotReply { status: Status::Platform, slot: None })),
        Err(PlatformError::Rejected(Status::Platform))
    );
    assert_eq!(
        slot_created(&rid, &meta, Ok(CreateSlotReply { status: Status::Success, slot: None })),
        Err(PlatformError::MissingSlot)
    );
}

#[test]
fn scheduler_draws_a_fresh_uuid_for_each_slot() {
    let rid = "r1".to_string();
    let meta = co_meta("f1");
    let reply = CreateSlotReply { status: Status::Success, slot: Some(co_slot("s1")) };
    let first = slot_created(&rid, &meta, Ok(reply.clone())).unwrap();
    let second = slot_created(&rid, &meta, Ok(reply)).unwrap();
    assert_eq!(first.instance_id.chars().count(), 36);
    assert_eq!(second.instance_id.chars().count(), 36);
    assert_ne!(first.instance_id, second.instance_id);
    for (n, c) in first.instance_id.chars().enumerate() {
        if n == 8 || n == 13 || n == 18 || n == 23 {
            assert_eq!(c, '-');
        } else {
            assert!(c.is_ascii_digit() || ('a'..='f').contains(&c));
        }
    }
    assert_eq!(first.instance_id.chars().nth(14), Some('4'));
    assert!(matches!(first.instance_id.chars().nth(19), Some('8' | '9' | 'a' | 'b')));
    let parsed = uuid::Uuid::parse_str(&first.instance_id).unwrap();
    assert_eq!(parsed.get_version_num(), 4);
    assert_eq!(parsed.to_string(), first.instance_id);
    assert_eq!(first.slot, co_slot("s1"));
    assert_eq!(first.request.request_id, "r1");
    assert_eq!(first.request.slot_id, "s1");
    assert_eq!(first.request.instance_id, first.instance_id);
    assert_eq!(first.request.meta_data, Some(co_meta("f1")));
}

#[test]
fn begin_init_keeps_the_given_id() {
    let p = begin_init(&"r1".to_string(), &co_meta("f1"), co_slot("s1"), "my-id".to_string());
    assert_eq!(p.instance_id, "my-id");
    assert_eq!(p.slot, co_slot("s1"));
    assert_eq!(p.request.instance_id, "my-id");
    assert_eq!(p.request.slot_id, "s1");
    assert_eq!(p.request.request_id, "r1");
    assert_eq!(p.request.meta_data, Some(co_meta("f1")));
}

#[test]
fn scheduler_builds_the_instance_at_the_given_instant() {
    let rid = "r1".to_string();
    let born = Instant::now();
    let pending = begin_init(&rid, &co_meta("f1"), co_slot("s1"), "id-1".to_string());
    let ok = InitReply { status: Status::Success, create_time: 41, init_duration_in_ms: 6 };
    assert_eq!(
        slot_initialized_at(&rid, co_meta("f1"), pending, Ok(ok), born),
        ScheduleEnd::Commit(Instance {
            instance_id: "id-1".to_string(),
            slot: co_slot("s1"),
            create_time_ms: 41,
            init_duration_ms: 6,
            last_idle_time: born,
            meta: co_meta("f1"),
        })
    );
    let pending = begin_init(&rid, &co_meta("f1"), co_slot("s2"), "id-2".to_string());
    match slot_initialized_at(&rid, co_meta("f1"), pending, Err("broken pipe".to_string()), born) {
        ScheduleEnd::Destroy { request, cause } => {
            assert_eq!(request.request_id, "r1");
            assert_eq!(request.id, "s2");
            assert_eq!(request.reason, Some("init failed".to_string()));
            assert_eq!(cause, PlatformError::Transport("broken pipe".to_string()));
        }
        ScheduleEnd::Commit(_) => panic!("the call failed"),
    }
    let pending = begin_init(&rid, &co_meta("f1"), co_slot("s3"), "id-3".to_string());
    let before = Instant::now();
    match slot_initialized(&rid, co_meta("f1"), pending, Ok(ok)) {
        ScheduleEnd::Commit(instance) => {
            assert_eq!(instance.instance_id, "id-3");
            assert_eq!(instance.slot, co_slot("s3"));
            assert!(instance.last_idle_time >= before);
        }
        ScheduleEnd::Destroy { .. } => panic!("the platform accepted the init"),
    }
}
