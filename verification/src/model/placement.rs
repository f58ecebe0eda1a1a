//! Where the instances are: the rules that the pool and the directory keep
//! together, and how each step on them preserves the rules.

use crate::model::instance::{
    at, instances_keyed, item, pool_holds, pool_idle, pool_inv, ChannelView, InstanceView,
    IDLE_CAPACITY,
};
use vstd::prelude::*;

verus! {

/// No instance of the pool is busy.
pub open spec fn exclusive(
    pool: Map<Seq<char>, ChannelView>,
    busy: Map<Seq<char>, InstanceView>,
) -> bool {
    forall|k: Seq<char>, i: int| #[trigger]
        at(pool, k, i) ==> !busy.contains_key(item(pool, k, i).instance_id)
}

/// No two items of the pool carry the same instance id.
pub open spec fn distinct(pool: Map<Seq<char>, ChannelView>) -> bool {
    forall|k1: Seq<char>, i1: int, k2: Seq<char>, i2: int|
        #[trigger] at(pool, k1, i1) && #[trigger] at(pool, k2, i2) && item(pool, k1, i1).instance_id
            == item(pool, k2, i2).instance_id ==> k1 == k2 && i1 == i2
}

/// The function of every busy instance has a channel.
pub open spec fn housed(
    pool: Map<Seq<char>, ChannelView>,
    busy: Map<Seq<char>, InstanceView>,
) -> bool {
    forall|id: Seq<char>| #[trigger] busy.contains_key(id) ==> pool.contains_key(busy[id].meta.key)
}

/// The rules of placement: every instance is in one place only.
pub open spec fn placed(
    pool: Map<Seq<char>, ChannelView>,
    busy: Map<Seq<char>, InstanceView>,
) -> bool {
    &&& pool_inv(pool)
    &&& instances_keyed(busy)
    &&& exclusive(pool, busy)
    &&& distinct(pool)
    &&& housed(pool, busy)
}

/// Taking the oldest item of a channel keeps the rules; the ids that the
/// pool holds are the old ones without the taken one, and the item behind
/// the pool, where there is one, becomes idle.
pub proof fn lemma_take(
    pool: Map<Seq<char>, ChannelView>,
    busy: Map<Seq<char>, InstanceView>,
    k: Seq<char>,
)
    requires
        placed(pool, busy),
        at(pool, k, 0),
    ensures
        placed(pool.insert(k, pool[k].take()), busy),
        forall|x: Seq<char>| #[trigger]
            pool_holds(pool.insert(k, pool[k].take()), x) <==> pool_holds(pool, x) && x != item(
                pool,
                k,
                0,
            ).instance_id,
        forall|x: Seq<char>| #[trigger]
            pool_idle(pool.insert(k, pool[k].take()), x) <==> (pool_idle(pool, x) && x != item(
                pool,
                k,
                0,
            ).instance_id) || (at(pool, k, IDLE_CAPACITY as int) && x == item(
                pool,
                k,
                IDLE_CAPACITY as int,
            ).instance_id),
{
    let after = pool.insert(k, pool[k].take());
    let id0 = item(pool, k, 0).instance_id;
    // Every position of `after` comes from one of `pool`.
    assert forall|k2: Seq<char>, i: int| #[trigger] at(after, k2, i) implies at(
        pool,
        k2,
        if k2 == k { i + 1 } else { i },
    ) && item(after, k2, i) == item(pool, k2, if k2 == k { i + 1 } else { i }) by {}
    assert forall|k2: Seq<char>, i: int|
        #[trigger] at(pool, k2, i) && !(k2 == k && i == 0) implies at(
            after,
            k2,
            if k2 == k { i - 1 } else { i },
        ) && item(after, k2, if k2 == k { i - 1 } else { i }) == item(pool, k2, i) by {}
    assert(pool_inv(after)) by {
        assert forall|k2: Seq<char>| #[trigger] after.contains_key(k2) implies after[k2].inv()
            && after[k2].keyed(k2) by {
            assert(pool.contains_key(k2));
            if k2 == k {
                assert forall|i: int| 0 <= i < after[k].items.len() implies (
                #[trigger] after[k].items[i]).meta.key == k by {
                    assert(after[k].items[i] == pool[k].items[i + 1]);
                }
            }
        }
    }
    assert(exclusive(after, busy)) by {
        assert forall|k2: Seq<char>, i: int| #[trigger] at(after, k2, i) implies !busy.contains_key(
            item(after, k2, i).instance_id,
        ) by {
            assert(at(pool, k2, if k2 == k { i + 1 } else { i }));
        }
    }
    assert(distinct(after)) by {
        assert forall|k1: Seq<char>, i1: int, k2: Seq<char>, i2: int|
            #[trigger] at(after, k1, i1) && #[trigger] at(after, k2, i2) && item(
                after,
                k1,
                i1,
            ).instance_id == item(after, k2, i2).instance_id implies k1 == k2 && i1 == i2 by {
            assert(at(pool, k1, if k1 == k { i1 + 1 } else { i1 }));
            assert(at(pool, k2, if k2 == k { i2 + 1 } else { i2 }));
        }
    }
    assert(housed(after, busy)) by {
        assert forall|id: Seq<char>| #[trigger] busy.contains_key(id) implies after.contains_key(
            busy[id].meta.key,
        ) by {
            assert(pool.contains_key(busy[id].meta.key));
        }
    }
    assert forall|x: Seq<char>| pool_holds(after, x) <==> pool_holds(pool, x) && x != id0 by {
        if pool_holds(after, x) {
            let (k2, i) = choose|k2: Seq<char>, i: int| #[trigger]
                at(after, k2, i) && item(after, k2, i).instance_id == x;
            let j = if k2 == k { i + 1 } else { i };
            assert(at(pool, k2, j));
            assert(at(pool, k, 0));
        }
        if pool_holds(pool, x) && x != id0 {
            let (k2, i) = choose|k2: Seq<char>, i: int| #[trigger]
                at(pool, k2, i) && item(pool, k2, i).instance_id == x;
            assert(at(after, k2, if k2 == k { i - 1 } else { i }));
        }
    }
    assert forall|x: Seq<char>|
        pool_idle(after, x) <==> (pool_idle(pool, x) && x != id0) || (at(
            pool,
            k,
            IDLE_CAPACITY as int,
        ) && x == item(pool, k, IDLE_CAPACITY as int).instance_id) by {
        if pool_idle(after, x) {
            let (k2, i) = choose|k2: Seq<char>, i: int| #[trigger]
                at(after, k2, i) && i < IDLE_CAPACITY && item(after, k2, i).instance_id == x;
            let j = if k2 == k { i + 1 } else { i };
            assert(at(pool, k2, j));
            assert(at(pool, k, 0));
        }
        if pool_idle(pool, x) && x != id0 {
            let (k2, i) = choose|k2: Seq<char>, i: int| #[trigger]
                at(pool, k2, i) && i < IDLE_CAPACITY && item(pool, k2, i).instance_id == x;
            assert(at(after, k2, if k2 == k { i - 1 } else { i }));
        }
        if at(pool, k, IDLE_CAPACITY as int) && x == item(pool, k, IDLE_CAPACITY as int).instance_id {
            assert(at(after, k, IDLE_CAPACITY as int - 1));
        }
    }
}

/// Putting an instance that is nowhere yet behind the items of its channel
/// keeps the rules; the pool then holds its id too, and it is idle where the
/// pool had room.
pub proof fn lemma_put(
    pool: Map<Seq<char>, ChannelView>,
    busy: Map<Seq<char>, InstanceView>,
    inst: InstanceView,
)
    requires
        placed(pool, busy),
        pool.contains_key(inst.meta.key),
        pool[inst.meta.key].waiting.len() == 0,
        !pool_holds(pool, inst.instance_id),
        !busy.contains_key(inst.instance_id),
    ensures
        placed(pool.insert(inst.meta.key, pool[inst.meta.key].put(inst)), busy),
        forall|x: Seq<char>| #[trigger]
            pool_holds(pool.insert(inst.meta.key, pool[inst.meta.key].put(inst)), x) <==> pool_holds(
                pool,
                x,
            ) || x == inst.instance_id,
        forall|x: Seq<char>| #[trigger]
            pool_idle(pool.insert(inst.meta.key, pool[inst.meta.key].put(inst)), x) <==> pool_idle(
                pool,
                x,
            ) || (pool[inst.meta.key].items.len() < IDLE_CAPACITY && x == inst.instance_id),
{
    let k = inst.meta.key;
    let n = pool[k].items.len() as int;
    let after = pool.insert(k, pool[k].put(inst));
    assert forall|k2: Seq<char>, i: int| #[trigger] at(after, k2, i) implies (k2 == k && i == n
        && item(after, k2, i) == inst) || (at(pool, k2, i) && item(after, k2, i) == item(
        pool,
        k2,
        i,
    )) by {}
    assert forall|k2: Seq<char>, i: int| #[trigger] at(pool, k2, i) implies at(after, k2, i)
        && item(after, k2, i) == item(pool, k2, i) by {}
    assert(at(after, k, n) && item(after, k, n) == inst);
    assert(pool_inv(after)) by {
        assert forall|k2: Seq<char>| #[trigger] after.contains_key(k2) implies after[k2].inv()
            && after[k2].keyed(k2) by {
            assert(pool.contains_key(k2));
            if k2 == k {
                assert forall|i: int| 0 <= i < after[k].items.len() implies (
                #[trigger] after[k].items[i]).meta.key == k by {
                    if i < n {
                        assert(after[k].items[i] == pool[k].items[i]);
                    }
                }
            }
        }
    }
    assert(exclusive(after, busy)) by {
        assert forall|k2: Seq<char>, i: int| #[trigger] at(after, k2, i) implies !busy.contains_key(
            item(after, k2, i).instance_id,
        ) by {
            if !(k2 == k && i == n) {
                assert(at(pool, k2, i));
            }
        }
    }
    assert(distinct(after)) by {
        assert forall|k1: Seq<char>, i1: int, k2: Seq<char>, i2: int|
            #[trigger] at(after, k1, i1) && #[trigger] at(after, k2, i2) && item(
                after,
                k1,
                i1,
            ).instance_id == item(after, k2, i2).instance_id implies k1 == k2 && i1 == i2 by {
            if !(k1 == k && i1 == n) {
                assert(at(pool, k1, i1));
            }
            if !(k2 == k && i2 == n) {
                assert(at(pool, k2, i2));
            }
        }
    }
    assert(housed(after, busy)) by {
        assert forall|id: Seq<char>| #[trigger] busy.contains_key(id) implies after.contains_key(
            busy[id].meta.key,
        ) by {
            assert(pool.contains_key(busy[id].meta.key));
        }
    }
    assert forall|x: Seq<char>|
        pool_holds(after, x) <==> pool_holds(pool, x) || x == inst.instance_id by {
        if pool_holds(after, x) {
            let (k2, i) = choose|k2: Seq<char>, i: int| #[trigger]
                at(after, k2, i) && item(after, k2, i).instance_id == x;
            if !(k2 == k && i == n) {
                assert(at(pool, k2, i));
            }
        }
        if pool_holds(pool, x) {
            let (k2, i) = choose|k2: Seq<char>, i: int| #[trigger]
                at(pool, k2, i) && item(pool, k2, i).instance_id == x;
            assert(at(after, k2, i));
        }
    }
    assert forall|x: Seq<char>|
        pool_idle(after, x) <==> pool_idle(pool, x) || (n < IDLE_CAPACITY && x
            == inst.instance_id) by {
        if pool_idle(after, x) {
            let (k2, i) = choose|k2: Seq<char>, i: int| #[trigger]
                at(after, k2, i) && i < IDLE_CAPACITY && item(after, k2, i).instance_id == x;
            if !(k2 == k && i == n) {
                assert(at(pool, k2, i));
            }
        }
        if pool_idle(pool, x) {
            let (k2, i) = choose|k2: Seq<char>, i: int| #[trigger]
                at(pool, k2, i) && i < IDLE_CAPACITY && item(pool, k2, i).instance_id == x;
            assert(at(after, k2, i));
        }
    }
}

/// A step that leaves the items of every channel as they were, and makes
/// new channels empty, keeps the rules and what the pool holds.
pub proof fn lemma_same_items(
    pool: Map<Seq<char>, ChannelView>,
    after: Map<Seq<char>, ChannelView>,
    busy: Map<Seq<char>, InstanceView>,
)
    requires
        placed(pool, busy),
        pool_inv(after),
        forall|k: Seq<char>| #[trigger]
            pool.contains_key(k) ==> after.contains_key(k) && after[k].items == pool[k].items,
        forall|k: Seq<char>|
            #[trigger] after.contains_key(k) && !pool.contains_key(k) ==> after[k].items.len() == 0,
    ensures
        placed(after, busy),
        forall|x: Seq<char>| #[trigger] pool_holds(after, x) <==> pool_holds(pool, x),
        forall|x: Seq<char>| #[trigger] pool_idle(after, x) <==> pool_idle(pool, x),
{
    assert forall|k2: Seq<char>, i: int| #[trigger] at(after, k2, i) implies at(pool, k2, i)
        && item(after, k2, i) == item(pool, k2, i) by {
        assert(after.contains_key(k2));
    }
    assert forall|k2: Seq<char>, i: int| #[trigger] at(pool, k2, i) implies at(after, k2, i)
        && item(after, k2, i) == item(pool, k2, i) by {
        assert(pool.contains_key(k2));
    }
    assert(exclusive(after, busy)) by {
        assert forall|k2: Seq<char>, i: int| #[trigger] at(after, k2, i) implies !busy.contains_key(
            item(after, k2, i).instance_id,
        ) by {
            assert(at(pool, k2, i));
        }
    }
    assert(distinct(after)) by {
        assert forall|k1: Seq<char>, i1: int, k2: Seq<char>, i2: int|
            #[trigger] at(after, k1, i1) && #[trigger] at(after, k2, i2) && item(
                after,
                k1,
                i1,
            ).instance_id == item(after, k2, i2).instance_id implies k1 == k2 && i1 == i2 by {
            assert(at(pool, k1, i1));
            assert(at(pool, k2, i2));
        }
    }
    assert(housed(after, busy)) by {
        assert forall|id: Seq<char>| #[trigger] busy.contains_key(id) implies after.contains_key(
            busy[id].meta.key,
        ) by {
            assert(pool.contains_key(busy[id].meta.key));
        }
    }
    assert forall|x: Seq<char>| pool_holds(after, x) <==> pool_holds(pool, x) by {
        if pool_holds(after, x) {
            let (k2, i) = choose|k2: Seq<char>, i: int| #[trigger]
                at(after, k2, i) && item(after, k2, i).instance_id == x;
            assert(at(pool, k2, i));
        }
        if pool_holds(pool, x) {
            let (k2, i) = choose|k2: Seq<char>, i: int| #[trigger]
                at(pool, k2, i) && item(pool, k2, i).instance_id == x;
            assert(at(after, k2, i));
        }
    }
    assert forall|x: Seq<char>| pool_idle(after, x) <==> pool_idle(pool, x) by {
        if pool_idle(after, x) {
            let (k2, i) = choose|k2: Seq<char>, i: int| #[trigger]
                at(after, k2, i) && i < IDLE_CAPACITY && item(after, k2, i).instance_id == x;
            assert(at(pool, k2, i));
        }
        if pool_idle(pool, x) {
            let (k2, i) = choose|k2: Seq<char>, i: int| #[trigger]
                at(pool, k2, i) && i < IDLE_CAPACITY && item(pool, k2, i).instance_id == x;
            assert(at(after, k2, i));
        }
    }
}

/// An instance that the pool does not hold may be recorded as busy.
pub proof fn lemma_busy_insert(
    pool: Map<Seq<char>, ChannelView>,
    busy: Map<Seq<char>, InstanceView>,
    inst: InstanceView,
)
    requires
        placed(pool, busy),
        !pool_holds(pool, inst.instance_id),
        pool.contains_key(inst.meta.key),
    ensures
        placed(pool, busy.insert(inst.instance_id, inst)),
{
    let after = busy.insert(inst.instance_id, inst);
    assert(exclusive(pool, after)) by {
        assert forall|k2: Seq<char>, i: int| #[trigger] at(pool, k2, i) implies !after.contains_key(
            item(pool, k2, i).instance_id,
        ) by {}
    }
}

/// A busy instance may leave the directory; the pool never held it.
pub proof fn lemma_busy_remove(
    pool: Map<Seq<char>, ChannelView>,
    busy: Map<Seq<char>, InstanceView>,
    id: Seq<char>,
)
    requires
        placed(pool, busy),
        busy.contains_key(id),
    ensures
        placed(pool, busy.remove(id)),
        !pool_holds(pool, id),
        !pool_idle(pool, id),
        pool.contains_key(busy[id].meta.key),
        busy[id].instance_id == id,
{
    let after = busy.remove(id);
    assert(exclusive(pool, after)) by {
        assert forall|k2: Seq<char>, i: int| #[trigger] at(pool, k2, i) implies !after.contains_key(
            item(pool, k2, i).instance_id,
        ) by {}
    }
}

/// No instance is in the idle pool and in the directory at once.
pub proof fn lemma_exclusive(
    pool: Map<Seq<char>, ChannelView>,
    busy: Map<Seq<char>, InstanceView>,
    id: Seq<char>,
)
    requires
        placed(pool, busy),
    ensures
        !(pool_holds(pool, id) && busy.contains_key(id)),
        !(pool_idle(pool, id) && busy.contains_key(id)),
{
}

/// What is idle in a pool is held by it.
pub proof fn lemma_idle_held(pool: Map<Seq<char>, ChannelView>, id: Seq<char>)
    requires
        pool_idle(pool, id),
    ensures
        pool_holds(pool, id),
{
    let (k, i) = choose|k: Seq<char>, i: int| #[trigger]
        at(pool, k, i) && i < IDLE_CAPACITY && item(pool, k, i).instance_id == id;
    assert(at(pool, k, i) && item(pool, k, i).instance_id == id);
}

} // verus!
