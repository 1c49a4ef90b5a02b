//! A map keyed by socket address.
use std::collections::hash_map::Entry;
use std::collections::HashMap;

use vstd::prelude::*;

use crate::addr::{host_key, service_key, SocketAddr};

verus! {

broadcast use vstd::std_specs::hash::group_hash_axioms;

/// A map from endpoints to values: first by the IP part of the endpoint, then
/// by the rest of it.
#[derive(Debug)]
pub struct AddrTable<V> {
    hosts: HashMap<u128, HashMap<u128, V>>,
}

impl<V> View for AddrTable<V> {
    type V = Map<SocketAddr, V>;

    closed spec fn view(&self) -> Map<SocketAddr, V> {
        Map::new(
            |addr: SocketAddr|
                self.hosts@.contains_key(host_key(addr))
                    && self.hosts@[host_key(addr)]@.contains_key(service_key(addr)),
            |addr: SocketAddr| self.hosts@[host_key(addr)]@[service_key(addr)],
        )
    }
}

/// The value stored under `key`, for reading and writing; every other entry is
/// left alone.
fn entry_mut<'a, V>(map: &'a mut HashMap<u128, V>, key: &u128) -> (entry: Option<&'a mut V>)
    ensures
        match entry {
            Some(value) => {
                &&& old(map)@.contains_key(*key)
                &&& *value == old(map)@[*key]
                &&& final(map)@ == old(map)@.insert(*key, *final(value))
            },
            None => {
                &&& !old(map)@.contains_key(*key)
                &&& final(map)@ == old(map)@
            },
        },
{
    let ghost before = map@;
    match map.entry(*key) {
        Entry::Occupied(found) => Some(found.into_mut()),
        Entry::Vacant(_) => {
            assert(before.remove(*key) =~= before);
            None
        },
    }
}

impl<V> AddrTable<V> {
    /// An empty table.
    pub fn new() -> (table: AddrTable<V>)
        ensures
            table@ == Map::<SocketAddr, V>::empty(),
    {
        let table = AddrTable { hosts: HashMap::new() };
        assert(table@ =~= Map::<SocketAddr, V>::empty());
        table
    }

    /// The value stored for `addr`.
    pub fn get(&self, addr: &SocketAddr) -> (value: Option<&V>)
        ensures
            match value {
                Some(value) => self@.contains_key(*addr) && *value == self@[*addr],
                None => !self@.contains_key(*addr),
            },
    {
        match self.hosts.get(&addr.host()) {
            Some(services) => services.get(&addr.service()),
            None => None,
        }
    }

    /// The value stored for `addr`, for reading and writing.
    pub fn get_mut(&mut self, addr: &SocketAddr) -> (value: Option<&mut V>)
        ensures
            match value {
                Some(value) => {
                    &&& old(self)@.contains_key(*addr)
                    &&& *value == old(self)@[*addr]
                    &&& final(self)@ == old(self)@.insert(*addr, *final(value))
                },
                None => {
                    &&& !old(self)@.contains_key(*addr)
                    &&& final(self)@ == old(self)@
                },
            },
    {
        match entry_mut(&mut self.hosts, &addr.host()) {
            Some(services) => entry_mut(services, &addr.service()),
            None => None,
        }
    }

    /// Stores `value` for `addr`, in place of what was stored there.
    pub fn insert(&mut self, addr: SocketAddr, value: V)
        ensures
            final(self)@ == old(self)@.insert(addr, value),
    {
        match entry_mut(&mut self.hosts, &addr.host()) {
            Some(services) => {
                services.insert(addr.service(), value);
            },
            None => {
                let mut services: HashMap<u128, V> = HashMap::new();
                services.insert(addr.service(), value);
                self.hosts.insert(addr.host(), services);
            },
        }
    }
}

} // verus!
