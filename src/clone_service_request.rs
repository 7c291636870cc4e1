//! Shard-creation requests and the append-only ledger that shares them.
use vstd::prelude::*;
use crate::text::{bytes_eq, clone_bytes};

verus! {

/// Everything needed to bring up one shard.  Two requests with the same
/// parameters are the same request.
#[derive(Debug)]
pub struct CloneServiceRequest {
    pub network_seed: String,
    pub properties: Vec<u8>,
    /// Microseconds since the Unix epoch.
    pub origin_time: i64,
    /// Microseconds.
    pub quantum_time: u64,
}

pub struct CloneServiceRequestView {
    pub network_seed: Seq<char>,
    pub properties: Seq<u8>,
    pub origin_time: i64,
    pub quantum_time: u64,
}

impl View for CloneServiceRequest {
    type V = CloneServiceRequestView;

    open spec fn view(&self) -> CloneServiceRequestView {
        CloneServiceRequestView {
            network_seed: self.network_seed@,
            properties: self.properties@,
            origin_time: self.origin_time,
            quantum_time: self.quantum_time,
        }
    }
}

impl PartialEq for CloneServiceRequest {
    fn eq(&self, o: &CloneServiceRequest) -> (r: bool) {
        self.network_seed == o.network_seed && bytes_eq(&self.properties, &o.properties)
            && self.origin_time == o.origin_time && self.quantum_time == o.quantum_time
    }
}

impl vstd::std_specs::cmp::PartialEqSpecImpl for CloneServiceRequest {
    open spec fn obeys_eq_spec() -> bool {
        true
    }

    open spec fn eq_spec(&self, o: &CloneServiceRequest) -> bool {
        self@ == o@
    }
}

impl CloneServiceRequest {
    pub fn duplicate(&self) -> (r: CloneServiceRequest)
        ensures
            r@ == self@,
    {
        CloneServiceRequest {
            network_seed: self.network_seed.clone(),
            properties: clone_bytes(&self.properties),
            origin_time: self.origin_time,
            quantum_time: self.quantum_time,
        }
    }
}

pub open spec fn requests_view(s: Seq<CloneServiceRequest>) -> Seq<CloneServiceRequestView> {
    s.map_values(|r: CloneServiceRequest| r@)
}

pub fn clone_requests(v: &Vec<CloneServiceRequest>) -> (r: Vec<CloneServiceRequest>)
    ensures
        requests_view(r@) == requests_view(v@),
{
    let mut r: Vec<CloneServiceRequest> = Vec::new();
    let mut i: usize = 0;
    while i < v.len()
        invariant
            i <= v.len(),
            requests_view(r@) =~= requests_view(v@.take(i as int)),
        decreases v.len() - i,
    {
        let ghost prev = r@;
        r.push(v[i].duplicate());
        assert(requests_view(r@) =~= requests_view(prev).push(v@[i as int]@));
        assert(requests_view(v@.take(i + 1)) =~= requests_view(v@.take(i as int)).push(v@[i as int]@));
        i = i + 1;
    }
    assert(v@ == v@.take(v.len() as int));
    r
}

/// Whether `r` is among the first `n` requests of `v`.
pub fn contains_request(v: &Vec<CloneServiceRequest>, n: usize, r: &CloneServiceRequest) -> (b: bool)
    requires
        n <= v.len(),
    ensures
        b == requests_view(v@).take(n as int).contains(r@),
{
    let ghost s = requests_view(v@).take(n as int);
    let mut i: usize = 0;
    while i < n
        invariant
            n <= v.len(),
            i <= n,
            s == requests_view(v@).take(n as int),
            forall|j: int| 0 <= j < i ==> s[j] != r@,
        decreases n - i,
    {
        if v[i] == *r {
            assert(s[i as int] == r@);
            return true;
        }
        i = i + 1;
    }
    false
}

/// The shared log of shard-creation requests, as the local replica sees it.
/// Requests are only appended; an id is a request's position in the log.
pub struct CloneServiceRequests {
    requests: Vec<CloneServiceRequest>,
}

impl View for CloneServiceRequests {
    type V = Seq<CloneServiceRequestView>;

    closed spec fn view(&self) -> Seq<CloneServiceRequestView> {
        requests_view(self.requests@)
    }
}

impl CloneServiceRequests {
    pub fn new() -> (r: CloneServiceRequests)
        ensures
            r@.len() == 0,
    {
        let r = CloneServiceRequests { requests: Vec::new() };
        assert(r@ =~= Seq::<CloneServiceRequestView>::empty());
        r
    }

    /// Appends `request` to the log and returns its id.  The log does not
    /// look for an equal request already there.
    pub fn create_clone_service_request(&mut self, request: CloneServiceRequest) -> (id: usize)
        ensures
            final(self)@ == old(self)@.push(request@),
            id == old(self)@.len(),
    {
        let id = self.requests.len();
        let ghost prev = self.requests@;
        self.requests.push(request);
        assert(requests_view(self.requests@) =~= requests_view(prev).push(request@));
        id
    }

    /// The request with id `id`, if the log has it.
    pub fn get_clone_service_request(&self, id: usize) -> (r: Option<CloneServiceRequest>)
        ensures
            match r {
                Some(q) => id < self@.len() && q@ == self@[id as int],
                None => id >= self@.len(),
            },
    {
        if id < self.requests.len() {
            Some(self.requests[id].duplicate())
        } else {
            None
        }
    }

    /// Every request in the log, in the order of appending.
    pub fn get_all_clone_service_requests(&self) -> (r: Vec<CloneServiceRequest>)
        ensures
            requests_view(r@) == self@,
    {
        clone_requests(&self.requests)
    }
}

} // verus!
