use vstd::prelude::*;
use dashmap::DashMap;
use crate::ids::ProtocolId;

verus! {

/// The concurrent map (`dashmap::DashMap`) that holds the router's
/// subscription table, carried as an opaque value.
#[verifier::external_type_specification]
#[verifier::external_body]
#[verifier::reject_recursive_types(K)]
#[verifier::reject_recursive_types(V)]
#[verifier::reject_recursive_types(S)]
pub struct ExDashMap<K, V, S>(DashMap<K, V, S>);

/// What a subscription table holds: for each notification type, the list of
/// subscribed protocols.
pub uninterp spec fn subscription_table(table: DashMap<u64, Vec<ProtocolId>>) -> Map<
    u64,
    Seq<ProtocolId>,
>;

/// An empty table (`DashMap::new`).
#[verifier::external_body]
pub(crate) fn new_table() -> (fresh: DashMap<u64, Vec<ProtocolId>>)
    ensures
        subscription_table(fresh) =~= Map::empty(),
{
    DashMap::new()
}

/// The list the table holds for `t`, copied out (`DashMap::get`, then a clone
/// of the value behind the returned guard).
#[verifier::external_body]
pub(crate) fn table_get(table: &DashMap<u64, Vec<ProtocolId>>, t: u64) -> (list: Option<
    Vec<ProtocolId>,
>)
    ensures
        match list {
            Some(l) => subscription_table(*table).contains_key(t) && l@ == subscription_table(
                *table,
            )[t],
            None => !subscription_table(*table).contains_key(t),
        },
{
    match table.get(&t) {
        Some(guard) => Some(guard.value().clone()),
        None => None,
    }
}

/// Sets the list for `t` to `list`, handing back the list it replaces
/// (`DashMap::insert`). The map is taken by `&mut`: the caller holds it alone.
#[verifier::external_body]
pub(crate) fn table_insert(table: &mut DashMap<u64, Vec<ProtocolId>>, t: u64, list: Vec<ProtocolId>) -> (replaced: Option<Vec<ProtocolId>>)
    ensures
        subscription_table(*final(table)) == subscription_table(*old(table)).insert(t, list@),
        match replaced {
            Some(l) => subscription_table(*old(table)).contains_key(t) && l@ == subscription_table(
                *old(table),
            )[t],
            None => !subscription_table(*old(table)).contains_key(t),
        },
{
    table.insert(t, list)
}

} // verus!
