//! Directory topology: which machines answer resolution requests.
use vstd::prelude::*;

use crate::directory::entry::EndpointBytes;
use crate::text::bytes_eq;

verus! {

/// Directory mode for topic resolution within a composition of machines.
#[derive(Debug, Clone, Copy)]
pub enum DirectoryMode {
    /// Every machine keeps a directory and answers resolution requests.
    Replicated,
    /// One machine, by endpoint identity, is the authority for resolution.
    FrontDoor(EndpointBytes),
}

/// The machines asked to resolve: the front door alone, or every seed.
pub open spec fn targets_of(mode: DirectoryMode, seeds: Seq<EndpointBytes>) -> Seq<EndpointBytes> {
    match mode {
        DirectoryMode::FrontDoor(id) => seq![id],
        DirectoryMode::Replicated => seeds,
    }
}

/// The resolution targets other than `self_id`.
pub open spec fn remote_targets_of(
    mode: DirectoryMode,
    seeds: Seq<EndpointBytes>,
    self_id: EndpointBytes,
) -> Seq<EndpointBytes> {
    targets_of(mode, seeds).filter(|t: EndpointBytes| t@ != self_id@)
}

/// A copy of a list of endpoint identities.
pub fn copy_ids(ids: &Vec<EndpointBytes>) -> (r: Vec<EndpointBytes>)
    ensures
        r@ == ids@,
{
    let mut out: Vec<EndpointBytes> = Vec::new();
    let mut i: usize = 0;
    while i < ids.len()
        invariant
            i <= ids@.len(),
            out@ == ids@.take(i as int),
        decreases ids@.len() - i,
    {
        out.push(ids[i]);
        assert(out@ =~= ids@.take(i + 1));
        i = i + 1;
    }
    assert(ids@.take(ids@.len() as int) =~= ids@);
    out
}

/// The machines asked to resolve a topic in `mode`.
pub fn resolution_targets(mode: &DirectoryMode, seeds: &Vec<EndpointBytes>) -> (r: Vec<
    EndpointBytes,
>)
    ensures
        r@ == targets_of(*mode, seeds@),
{
    match mode {
        DirectoryMode::FrontDoor(id) => {
            let mut v: Vec<EndpointBytes> = Vec::new();
            v.push(*id);
            assert(v@ =~= seq![*id]);
            v
        },
        DirectoryMode::Replicated => copy_ids(seeds),
    }
}

/// The resolution targets other than this machine, in order.
pub fn remote_targets(mode: &DirectoryMode, seeds: &Vec<EndpointBytes>, self_id: &EndpointBytes) -> (r:
    Vec<EndpointBytes>)
    ensures
        r@ == remote_targets_of(*mode, seeds@, *self_id),
{
    let targets = resolution_targets(mode, seeds);
    let ghost t = targets@;
    let ghost keep = |x: EndpointBytes| x@ != self_id@;
    let mut out: Vec<EndpointBytes> = Vec::new();
    let mut i: usize = 0;
    assert(t.take(0) =~= Seq::<EndpointBytes>::empty());
    proof {
        reveal(Seq::filter);
    }
    assert(t.take(0).filter(keep) =~= Seq::<EndpointBytes>::empty());
    while i < targets.len()
        invariant
            i <= targets@.len(),
            t == targets@,
            keep == (|x: EndpointBytes| x@ != self_id@),
            out@ == t.take(i as int).filter(keep),
        decreases targets@.len() - i,
    {
        let x = targets[i];
        proof {
            reveal(Seq::filter);
            assert(t.take(i + 1).drop_last() =~= t.take(i as int));
            assert(t.take(i + 1).last() == x);
        }
        if !bytes_eq(&x, self_id) {
            out.push(x);
        }
        i = i + 1;
    }
    assert(t.take(t.len() as int) =~= t);
    out
}

} // verus!
