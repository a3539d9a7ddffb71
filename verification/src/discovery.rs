//! Payloads of the zero-configuration discovery handshake.
//!
//! A worker broadcasts a fixed token on the discovery port; the host answers
//! with a fixed prefix followed by its advertised `address:port`. Everything
//! here is pure byte logic; the sockets live outside the crate.

use vstd::prelude::*;
use vstd::slice::slice_to_vec;
use vstd::string::StringSliceAdditionalSpecFns;

verus! {

/// The well-known UDP port the host listens on for discovery broadcasts.
pub const DISCOVERY_PORT: u16 = 2901;

/// The token a worker broadcasts to look for a host.
pub open spec fn discovery_token() -> Seq<u8> {
    "KAMBO_HIVE_WORKER_DISCOVERY".spec_bytes()
}

/// The prefix of every host response; the advertised address follows it.
pub open spec fn response_prefix() -> Seq<u8> {
    "KAMBO_HIVE_HOST_RESPONSE:".spec_bytes()
}

/// The discovery token as bytes, ready to broadcast.
pub fn make_discovery_token() -> (r: Vec<u8>)
    ensures
        r@ == discovery_token(),
{
    slice_to_vec("KAMBO_HIVE_WORKER_DISCOVERY".as_bytes())
}

/// Whether `buf` is exactly the discovery token.
pub fn is_discovery_request(buf: &[u8]) -> (r: bool)
    ensures
        r == (buf@ == discovery_token()),
{
    let token = make_discovery_token();
    if buf.len() != token.len() {
        proof {
            assert(buf@ != discovery_token());
        }
        return false;
    }
    let n = token.len();
    let mut i: usize = 0;
    while i < n
        invariant
            i <= n,
            n == token@.len(),
            n == buf@.len(),
            token@ == discovery_token(),
            forall|k: int| 0 <= k < i ==> buf@[k] == token@[k],
        decreases n - i,
    {
        if buf[i] != token[i] {
            proof {
                assert(buf@ != discovery_token());
            }
            return false;
        }
        i = i + 1;
    }
    proof {
        assert(buf@ =~= discovery_token());
    }
    true
}

/// The host's answer to a discovery broadcast: the fixed prefix followed by
/// the advertised address.
pub fn make_discovery_response(advertised_addr: &str) -> (r: Vec<u8>)
    ensures
        r@ == response_prefix() + advertised_addr.spec_bytes(),
{
    let mut out = slice_to_vec("KAMBO_HIVE_HOST_RESPONSE:".as_bytes());
    let addr = advertised_addr.as_bytes();
    let n = addr.len();
    let mut i: usize = 0;
    while i < n
        invariant
            i <= n,
            n == addr@.len(),
            addr@ == advertised_addr.spec_bytes(),
            out@ == response_prefix() + addr@.subrange(0, i as int),
        decreases n - i,
    {
        out.push(addr[i]);
        proof {
            assert(out@ =~= response_prefix() + addr@.subrange(0, i as int + 1));
        }
        i = i + 1;
    }
    proof {
        assert(addr@.subrange(0, n as int) =~= addr@);
    }
    out
}

/// Extracts the advertised address from a host response: `Some` exactly when
/// `buf` starts with the response prefix, carrying everything after it.
pub fn parse_discovery_response(buf: &[u8]) -> (r: Option<Vec<u8>>)
    ensures
        r is Some <==> buf@.len() >= response_prefix().len() && buf@.subrange(
            0,
            response_prefix().len() as int,
        ) == response_prefix(),
        r matches Some(addr) ==> addr@ == buf@.skip(response_prefix().len() as int),
{
    let prefix = slice_to_vec("KAMBO_HIVE_HOST_RESPONSE:".as_bytes());
    let plen = prefix.len();
    if buf.len() < plen {
        proof {
            assert(buf@.len() < response_prefix().len());
        }
        return None;
    }
    let mut i: usize = 0;
    while i < plen
        invariant
            i <= plen,
            plen == prefix@.len(),
            prefix@ == response_prefix(),
            buf@.len() >= plen,
            forall|k: int| 0 <= k < i ==> buf@[k] == prefix@[k],
        decreases plen - i,
    {
        if buf[i] != prefix[i] {
            proof {
                assert(buf@.subrange(0, response_prefix().len() as int)[i as int] != response_prefix()[i as int]);
            }
            return None;
        }
        i = i + 1;
    }
    let n = buf.len();
    let mut addr: Vec<u8> = Vec::new();
    let mut j: usize = plen;
    while j < n
        invariant
            plen <= j <= n,
            n == buf@.len(),
            plen == response_prefix().len(),
            addr@ == buf@.subrange(plen as int, j as int),
        decreases n - j,
    {
        addr.push(buf[j]);
        proof {
            assert(addr@ =~= buf@.subrange(plen as int, j as int + 1));
        }
        j = j + 1;
    }
    proof {
        assert(buf@.subrange(0, plen as int) =~= response_prefix());
        assert(addr@ =~= buf@.skip(plen as int));
    }
    Some(addr)
}

} // verus!
