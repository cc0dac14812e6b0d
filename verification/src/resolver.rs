use vstd::prelude::*;
use vstd::string::StringExecFns;

verus! {

/// One SRV record: where the service actually lives, and how preferred
/// this record is.
#[derive(Debug, Clone)]
pub struct SrvRecord {
    /// Lower numbers are contacted first.
    pub priority: u16,
    /// Among equal priorities, higher weights win here.
    pub weight: u16,
    /// The host the record points at.
    pub target: String,
    /// The port the record carries; it replaces the requested one.
    pub port: u16,
}

/// Whether record `a` is preferred over record `b`: a lower priority
/// number first, then a higher weight.
pub open spec fn srv_beats(a: SrvRecord, b: SrvRecord) -> bool {
    a.priority < b.priority || (a.priority == b.priority && a.weight > b.weight)
}

/// Pick the SRV record to follow: one that no other record beats; none
/// only when there are no records at all.
pub fn select_srv(records: &Vec<SrvRecord>) -> (r: Option<usize>)
    ensures
        match r {
            Some(i) => i < records@.len() && (forall|j: int|
                0 <= j < records@.len() ==> !srv_beats(
                    #[trigger] records@[j],
                    records@[i as int],
                )),
            None => records@.len() == 0,
        },
{
    if records.len() == 0 {
        return None;
    }
    let mut best: usize = 0;
    let mut i: usize = 1;
    while i < records.len()
        invariant
            best < i <= records@.len(),
            forall|j: int|
                0 <= j < i ==> !srv_beats(#[trigger] records@[j], records@[best as int]),
        decreases records@.len() - i,
    {
        let cand = &records[i];
        let cur = &records[best];
        if cand.priority < cur.priority || (cand.priority == cur.priority && cand.weight
            > cur.weight) {
            best = i;
        }
        i = i + 1;
    }
    Some(best)
}

/// The DNS name whose SRV record redirects a host.
pub fn srv_lookup_name(host: &str) -> (r: String)
    ensures
        r@ == "_minecraft._tcp."@ + host@,
{
    let mut s = "_minecraft._tcp.".to_owned();
    s.append(host);
    s
}

} // verus!
