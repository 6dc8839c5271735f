//! Requests awaiting their response, each with the means to deliver it (a
//! reply channel, chosen by the caller).
use vstd::prelude::*;
use std::collections::HashMap;
use crate::networking::messages::RequestId;

verus! {

broadcast use vstd::std_specs::hash::group_hash_axioms;

/// Pending requests by id, each with what delivers its response.
pub struct RequestMap<T> {
    map: HashMap<RequestId, T>,
}

impl<T> View for RequestMap<T> {
    type V = Map<RequestId, T>;

    closed spec fn view(&self) -> Map<RequestId, T> {
        self.map@
    }
}

impl<T> RequestMap<T> {
    /// No pending request.
    pub fn new() -> (m: RequestMap<T>)
        ensures
            m@ == Map::<RequestId, T>::empty(),
    {
        RequestMap { map: HashMap::new() }
    }

    /// Records a pending request (replacing one with the same id).
    pub fn add_request(&mut self, request_id: RequestId, sender: T)
        ensures
            final(self)@ == old(self)@.insert(request_id, sender),
    {
        self.map.insert(request_id, sender);
    }

    /// Takes the pending request out of the map.
    pub fn take_request(&mut self, request_id: &RequestId) -> (r: Option<T>)
        ensures
            final(self)@ == old(self)@.remove(*request_id),
            r == (if old(self)@.contains_key(*request_id) { Some(old(self)@[*request_id]) } else { None::<T> }),
    {
        self.map.remove(request_id)
    }

    /// Whether the request is pending.
    pub fn contains_request(&self, request_id: &RequestId) -> (b: bool)
        ensures
            b == self@.contains_key(*request_id),
    {
        self.map.contains_key(request_id)
    }

    /// Forgets the pending request.
    pub fn remove_request(&mut self, request_id: &RequestId)
        ensures
            final(self)@ == old(self)@.remove(*request_id),
    {
        self.map.remove(request_id);
    }

    /// What delivers the response with id `request_id`, taken out of the map;
    /// nothing for a response that no pending request awaits (it is dropped).
    pub fn handle_response(&mut self, request_id: RequestId) -> (r: Option<T>)
        ensures
            final(self)@ == old(self)@.remove(request_id),
            r == (if old(self)@.contains_key(request_id) { Some(old(self)@[request_id]) } else { None::<T> }),
    {
        if !self.contains_request(&request_id) {
            return None;
        }
        self.take_request(&request_id)
    }
}

/// A response reaches the request that awaits it: after `add_request(id,
/// sender)`, `handle_response(id)` hands out `sender`, and a second response
/// with the same id finds nothing (it is dropped).
pub proof fn law_response_reaches_its_request<T>(
    pending: Map<RequestId, T>,
    id: RequestId,
    sender: T,
    added: Map<RequestId, T>,
    answered: Map<RequestId, T>,
    first: Option<T>,
    again: Map<RequestId, T>,
    second: Option<T>,
)
    requires
        added == pending.insert(id, sender),
        answered == added.remove(id),
        first == (if added.contains_key(id) { Some(added[id]) } else { None::<T> }),
        again == answered.remove(id),
        second == (if answered.contains_key(id) { Some(answered[id]) } else { None::<T> }),
    ensures
        first == Some(sender),
        second is None,
        again == pending.remove(id),
{
    assert(again =~= pending.remove(id));
}

} // verus!
