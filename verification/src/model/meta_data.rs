//! The registry of function descriptors, keyed by `Meta::key`.

use crate::messages::{Meta, MetaView};
use crate::table::Table;
use vstd::prelude::*;

verus! {

/// Every entry is stored under its own key.
pub open spec fn metas_keyed(m: Map<Seq<char>, MetaView>) -> bool {
    forall|k: Seq<char>| #[trigger] m.contains_key(k) ==> m[k].key == k
}

/// The registry: a map from a function's key to its descriptor.
pub struct MetaData {
    entries: Table<Meta>,
}

impl View for MetaData {
    type V = Map<Seq<char>, MetaView>;

    closed spec fn view(&self) -> Map<Seq<char>, MetaView> {
        self.entries@
    }
}

impl MetaData {
    pub closed spec fn wf(&self) -> bool {
        &&& self.entries.wf()
        &&& metas_keyed(self@)
    }

    /// The empty registry.
    pub fn new() -> (r: Self)
        ensures
            r.wf(),
            r@ == Map::<Seq<char>, MetaView>::empty(),
    {
        MetaData { entries: Table::new() }
    }

    /// What `wf` says of the view.
    pub proof fn lemma_wf(&self)
        requires
            self.wf(),
        ensures
            metas_keyed(self@),
    {
    }
}

/// The descriptor stored under `key`, where there is one.
pub fn get_meta_data(registry: &MetaData, key: &String) -> (r: Option<Meta>)
    requires
        registry.wf(),
    ensures
        match r {
            Some(m) => registry@.contains_key(key@) && m@ == registry@[key@],
            None => !registry@.contains_key(key@),
        },
{
    match registry.entries.get(key) {
        Some(m) => Some(m.clone()),
        None => None,
    }
}

/// Stores `meta` under its key. The last write wins.
pub fn insert_meta_data(registry: &mut MetaData, meta: Meta)
    requires
        old(registry).wf(),
    ensures
        final(registry).wf(),
        final(registry)@ == old(registry)@.insert(meta.key@, meta@),
{
    let key = meta.key.clone();
    registry.entries.insert(key, meta);
}

/// Storing the same descriptor a second time changes nothing.
pub proof fn lemma_insert_meta_idempotent(m: Map<Seq<char>, MetaView>, meta: MetaView)
    ensures
        m.insert(meta.key, meta).insert(meta.key, meta) == m.insert(meta.key, meta),
        m.contains_key(meta.key) && m[meta.key] == meta ==> m.insert(meta.key, meta) == m,
{
    assert(m.insert(meta.key, meta).insert(meta.key, meta) =~= m.insert(meta.key, meta));
    if m.contains_key(meta.key) && m[meta.key] == meta {
        assert(m.insert(meta.key, meta) =~= m);
    }
}

} // verus!
