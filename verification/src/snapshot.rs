//! Versioned framing of actor snapshots: one version byte followed by the
//! payload.  The payload itself is produced and consumed by the host layer;
//! this codec only frames it and dispatches on the version.

use vstd::prelude::*;
use vstd::string::*;

verus! {

pub const SERIALIZATION_VERSION_V1: u8 = 1;

/// Prefix a version-1 payload with its version byte.
pub fn encode_snapshot(payload: &Vec<u8>) -> (r: Vec<u8>)
    ensures
        r@ == seq![SERIALIZATION_VERSION_V1].add(payload@),
{
    let mut out: Vec<u8> = Vec::new();
    out.push(SERIALIZATION_VERSION_V1);
    let n = payload.len();
    let mut i: usize = 0;
    while i < n
        invariant
            i <= n,
            n == payload@.len(),
            out@ == seq![SERIALIZATION_VERSION_V1].add(payload@.subrange(0, i as int)),
        decreases n - i,
    {
        out.push(payload[i]);
        proof {
            assert(out@ =~= seq![SERIALIZATION_VERSION_V1].add(payload@.subrange(0, i + 1)));
        }
        i = i + 1;
    }
    proof {
        assert(payload@.subrange(0, n as int) =~= payload@);
    }
    out
}

/// Strip the version byte: a version-1 envelope yields its payload, any
/// other version is a hard failure.
pub fn decode_snapshot(bytes: &Vec<u8>) -> (r: Result<Vec<u8>, String>)
    requires
        bytes@.len() >= 1,
    ensures
        bytes@[0] == SERIALIZATION_VERSION_V1 ==> r is Ok && r->Ok_0@ == bytes@.skip(1),
        bytes@[0] != SERIALIZATION_VERSION_V1 ==> r is Err && r->Err_0@
            == "Unsupported serialization version"@,
{
    if bytes[0] == SERIALIZATION_VERSION_V1 {
        let n = bytes.len();
        let mut payload: Vec<u8> = Vec::new();
        let mut i: usize = 1;
        while i < n
            invariant
                1 <= i <= n,
                n == bytes@.len(),
                payload@ == bytes@.subrange(1, i as int),
            decreases n - i,
        {
            payload.push(bytes[i]);
            proof {
                assert(payload@ =~= bytes@.subrange(1, i + 1));
            }
            i = i + 1;
        }
        proof {
            assert(bytes@.subrange(1, n as int) =~= bytes@.skip(1));
        }
        Ok(payload)
    } else {
        Err(String::from_str("Unsupported serialization version"))
    }
}

} // verus!
