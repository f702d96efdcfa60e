//! The queue of resource writes that systems and hooks leave behind.

use vstd::prelude::*;
use crate::resource::{RequestView, ResourceRequest};

verus! {

/// The requests of a sequence, as plain values.
pub open spec fn request_views(requests: Seq<ResourceRequest>) -> Seq<RequestView> {
    Seq::new(requests.len(), |i: int| requests[i]@)
}

/// A first-in, first-out queue of resource writes. Systems and hooks see the
/// world read-only: what they want written they put here, and the world
/// applies it once the changes of the stage have landed.
pub struct ResourceWriter {
    requests: Vec<ResourceRequest>,
}

impl View for ResourceWriter {
    type V = Seq<RequestView>;

    closed spec fn view(&self) -> Seq<RequestView> {
        request_views(self.requests@)
    }
}

impl Clone for ResourceWriter {
    fn clone(&self) -> (copy: Self)
        ensures
            copy@ == self@,
    {
        let mut requests: Vec<ResourceRequest> = Vec::new();
        let mut i: usize = 0;
        while i < self.requests.len()
            invariant
                i <= self.requests.len(),
                requests.len() == i,
                forall|j: int| 0 <= j < i ==> (#[trigger] requests[j])@ == self.requests[j]@,
            decreases self.requests.len() - i,
        {
            requests.push(self.requests[i].clone());
            i += 1;
        }
        let copy = ResourceWriter { requests };
        assert(copy@ =~= self@);
        copy
    }
}

impl ResourceWriter {
    pub fn new() -> (writer: Self)
        ensures
            writer@ == Seq::<RequestView>::empty(),
    {
        let writer = ResourceWriter { requests: Vec::new() };
        assert(writer@ =~= Seq::<RequestView>::empty());
        writer
    }

    /// The queued writes, oldest first.
    pub fn get_resource_writes(self) -> (requests: Vec<ResourceRequest>)
        ensures
            request_views(requests@) == self@,
    {
        self.requests
    }

    /// Queues a write behind those already there.
    pub fn write_resource(&mut self, request: ResourceRequest)
        ensures
            final(self)@ == old(self)@.push(request@),
    {
        self.requests.push(request);
        assert(self@ =~= old(self)@.push(request@));
    }

    /// Queues the writes of `other` behind those already there.
    pub fn append(&mut self, other: ResourceWriter)
        ensures
            final(self)@ == old(self)@ + other@,
    {
        let mut rest = other.requests;
        self.requests.append(&mut rest);
        assert(self@ =~= old(self)@ + other@);
    }

    /// The number of queued writes.
    pub fn len(&self) -> (len: usize)
        ensures
            len == self@.len(),
    {
        self.requests.len()
    }
}

impl Default for ResourceWriter {
    fn default() -> (writer: Self)
        ensures
            writer@ == Seq::<RequestView>::empty(),
    {
        Self::new()
    }
}

} // verus!
