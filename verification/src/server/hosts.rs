//! The hosts that the server answers to.
use vstd::prelude::*;

use crate::text;
use crate::text::{chars_of, trim};

verus! {

/// The hosts that a list names: without white space around them, and without those
/// that are blank.
pub open spec fn named_hosts(given: Seq<Seq<char>>) -> Seq<Seq<char>>
    decreases given.len(),
{
    if given.len() == 0 {
        seq![]
    } else {
        let host = text::trimmed(given.last());
        if host.len() > 0 {
            named_hosts(given.drop_last()).push(host)
        } else {
            named_hosts(given.drop_last())
        }
    }
}

/// The hosts that are accepted besides those of the machine itself.
pub fn extra_hosts(allowed: &Vec<String>) -> (r: Vec<String>)
    ensures
        text::texts(r@) == named_hosts(text::texts(allowed@)),
{
    let ghost all = text::texts(allowed@);
    let mut out: Vec<String> = Vec::new();
    let mut i: usize = 0;
    assert(all.take(0) =~= seq![]);
    assert(text::texts(out@) =~= seq![]);
    while i < allowed.len()
        invariant
            i <= allowed@.len(),
            all == text::texts(allowed@),
            text::texts(out@) == named_hosts(all.take(i as int)),
        decreases allowed@.len() - i,
    {
        let host = trim(allowed[i].as_str());
        proof {
            let now = all.take(i + 1);
            assert(now.drop_last() =~= all.take(i as int));
            assert(now.last() == allowed@[i as int]@);
        }
        if chars_of(host.as_str()).len() > 0 {
            let ghost before = text::texts(out@);
            out.push(host);
            assert(text::texts(out@) =~= before.push(host@));
        }
        i += 1;
    }
    assert(all.take(i as int) =~= all);
    out
}

// ---------------------------------------------------------------------------
// Laws
// ---------------------------------------------------------------------------

/// A list that is put together names the hosts of its parts, in that order. A host
/// is named as it is given, without the white space around it, and a blank one is
/// not named.
pub proof fn every_host_is_named(front: Seq<Seq<char>>, host: Seq<char>, back: Seq<Seq<char>>)
    ensures
        named_hosts(front + back) == named_hosts(front) + named_hosts(back),
        named_hosts(seq![host]) == if text::trimmed(host).len() > 0 {
            seq![text::trimmed(host)]
        } else {
            seq![]
        },
    decreases back.len(),
{
    assert(seq![host].drop_last() =~= seq![]);
    assert(named_hosts(seq![host].drop_last()) =~= seq![]);
    if back.len() == 0 {
        assert(front + back =~= front);
        assert(named_hosts(front) + named_hosts(back) =~= named_hosts(front));
    } else {
        assert((front + back).drop_last() =~= front + back.drop_last());
        every_host_is_named(front, host, back.drop_last());
        assert(named_hosts(front + back) =~= named_hosts(front) + named_hosts(back));
    }
}

} // verus!
