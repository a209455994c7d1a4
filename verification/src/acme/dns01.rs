//! DNS-01 challenge records.

use vstd::prelude::*;
use vstd::string::*;

use crate::text::join2;

verus! {

broadcast use vstd::string::group_string_axioms;

/// The name of the challenge record of a host.
pub open spec fn challenge_name(host: Seq<char>) -> Seq<char> {
    "_acme-challenge."@ + host
}

/// The name of the challenge record of a host.
pub fn challenge_fqdn(host: &str) -> (r: String)
    ensures
        r@ == challenge_name(host@),
{
    join2("_acme-challenge.", host)
}

/// Law: the challenge record of a host lies one label below the host.
pub proof fn law_challenge_record_is_below_the_host(host: Seq<char>)
    ensures
        ({
            let name = challenge_name(host);
            &&& name.len() == host.len() + 16
            &&& name.subrange(0, 16) == "_acme-challenge."@
            &&& name.subrange(16, name.len() as int) == host
        }),
{
    reveal_strlit("_acme-challenge.");
    let name = challenge_name(host);
    assert(name.subrange(0, 16) =~= "_acme-challenge."@);
    assert(name.subrange(16, name.len() as int) =~= host);
}

} // verus!
