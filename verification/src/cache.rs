//! The lookup cache of one run: project to client, and client to name.
//!
//! A miss tells the caller to fetch. Only a successful fetch is remembered,
//! so a lookup that came back empty is asked again the next time.

use vstd::prelude::*;
use std::collections::HashMap;

verus! {

broadcast use vstd::std_specs::hash::group_hash_axioms;

/// The two mappings that a run has learned so far.
pub struct LookupCache {
    projects: HashMap<i64, i64>,
    clients: HashMap<i64, String>,
}

impl LookupCache {
    /// Project id to client id, as remembered.
    pub closed spec fn projects(&self) -> Map<i64, i64> {
        self.projects@
    }

    /// Client id to client name, as remembered.
    pub closed spec fn clients(&self) -> Map<i64, Seq<char>> {
        self.clients@.map_values(|name: String| name@)
    }

    /// A cache that knows nothing.
    pub fn new() -> (cache: LookupCache)
        ensures
            cache.projects() == Map::<i64, i64>::empty(),
            cache.clients() == Map::<i64, Seq<char>>::empty(),
    {
        let cache = LookupCache { projects: HashMap::new(), clients: HashMap::new() };
        assert(cache.clients() =~= Map::<i64, Seq<char>>::empty());
        cache
    }

    /// The client of `project_id` if it is remembered; `None` asks for a
    /// fetch.
    pub fn resolve_client_id(&self, project_id: i64) -> (found: Option<i64>)
        ensures
            found == (if self.projects().contains_key(project_id) {
                Some(self.projects()[project_id])
            } else {
                None
            }),
    {
        match self.projects.get(&project_id) {
            Some(client_id) => Some(*client_id),
            None => None,
        }
    }

    /// The name of `client_id` if it is remembered; `None` asks for a fetch.
    pub fn resolve_client_name(&self, client_id: i64) -> (found: Option<String>)
        ensures
            found is Some <==> self.clients().contains_key(client_id),
            found matches Some(name) ==> name@ == self.clients()[client_id],
    {
        match self.clients.get(&client_id) {
            Some(name) => Some(name.clone()),
            None => None,
        }
    }

    /// Takes the answer of a project fetch: a client id is remembered, an
    /// answer without one leaves the cache as it was.
    pub fn populate_project(&mut self, project_id: i64, fetched: Option<i64>)
        ensures
            final(self).clients() == old(self).clients(),
            final(self).projects() == (match fetched {
                Some(client_id) => old(self).projects().insert(project_id, client_id),
                None => old(self).projects(),
            }),
    {
        if let Some(client_id) = fetched {
            self.projects.insert(project_id, client_id);
        }
    }

    /// Takes the answer of a client fetch: a name is remembered, an answer
    /// without one leaves the cache as it was.
    pub fn populate_client(&mut self, client_id: i64, fetched: Option<String>)
        ensures
            final(self).projects() == old(self).projects(),
            final(self).clients() == (match fetched {
                Some(name) => old(self).clients().insert(client_id, name@),
                None => old(self).clients(),
            }),
    {
        if let Some(name) = fetched {
            let ghost text = name@;
            self.clients.insert(client_id, name);
            assert(self.clients() =~= old(self).clients().insert(client_id, text));
        }
    }
}

} // verus!
