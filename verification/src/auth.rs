//! The decisions made when the exchange client is set up: how the private key
//! is read, which nonce the API key is derived with, and which chain a host
//! belongs to.

use vstd::prelude::*;
use crate::text::{chars_of, copy_range, string_of, str_contains, contains_seq};

verus! {

/// `s` with every leading `0x` removed, as `str::trim_start_matches("0x")`
/// does.
pub open spec fn without_hex_prefixes(s: Seq<char>) -> Seq<char>
    decreases s.len(),
{
    if s.len() >= 2 && s[0] == '0' && s[1] == 'x' {
        without_hex_prefixes(s.skip(2))
    } else {
        s
    }
}

/// The private key as the client takes it: the hex text without its `0x`
/// prefixes.
pub fn private_key_body(private_key_hex: &str) -> (r: String)
    ensures
        r@ == without_hex_prefixes(private_key_hex@),
{
    let v = chars_of(private_key_hex);
    let mut i: usize = 0;
    proof {
        assert(v@.skip(0) =~= v@);
    }
    while v.len() - i >= 2 && v[i] == '0' && v[i + 1] == 'x'
        invariant
            i <= v.len(),
            v@ == private_key_hex@,
            without_hex_prefixes(v@.skip(i as int)) == without_hex_prefixes(v@),
        decreases v.len() - i,
    {
        proof {
            let s = v@.skip(i as int);
            assert(s[0] == '0' && s[1] == 'x');
            assert(s.skip(2) =~= v@.skip(i + 2));
        }
        i = i + 2;
    }
    proof {
        let s = v@.skip(i as int);
        assert(!(s.len() >= 2 && s[0] == '0' && s[1] == 'x'));
    }
    let rest = copy_range(&v, i, v.len());
    proof {
        assert(rest@ =~= v@.skip(i as int));
    }
    string_of(&rest)
}

/// The nonce the API key is created or derived with: none for zero.
pub fn api_key_nonce(nonce: u64) -> (r: Option<u64>)
    ensures
        r == (if nonce == 0 { None::<u64> } else { Some(nonce) }),
{
    if nonce == 0 {
        None
    } else {
        Some(nonce)
    }
}

/// The chain of the test network, Mumbai.
pub open spec fn mumbai_chain() -> u64 {
    80001
}

/// The chain of the main network, Polygon.
pub open spec fn polygon_chain() -> u64 {
    137
}

/// The chain a host serves: Mumbai where its name holds `mumbai`, else
/// Polygon.
pub fn chain_id_for_host(host: &str) -> (r: u64)
    ensures
        r == (if contains_seq(host@, "mumbai"@) { mumbai_chain() } else { polygon_chain() }),
{
    if str_contains(host, "mumbai") {
        80001
    } else {
        137
    }
}

} // verus!
