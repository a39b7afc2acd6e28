//! Script types and the byte-level forms of the standard output scripts that
//! the synthesizer produces.

use vstd::prelude::*;

verus! {

/// A bitcoin output script (`scriptPubkey`), as raw bytes.
#[derive(Clone, Debug, PartialEq, Eq)]
pub struct PubkeyScript(pub Vec<u8>);

/// A redeem/lock script a commitment is embedded into, as raw bytes.
#[derive(Clone, Debug, PartialEq, Eq)]
pub struct LockScript(pub Vec<u8>);

impl View for PubkeyScript {
    type V = Seq<u8>;

    open spec fn view(&self) -> Seq<u8> {
        self.0@
    }
}

impl View for LockScript {
    type V = Seq<u8>;

    open spec fn view(&self) -> Seq<u8> {
        self.0@
    }
}

/// Pay-to-pubkey: a push of the 65-byte uncompressed key, then OP_CHECKSIG.
pub open spec fn p2pk_script(key65: Seq<u8>) -> Seq<u8> {
    seq![0x41u8] + key65 + seq![0xacu8]
}

/// Version-0 pay-to-witness-pubkey-hash: OP_0, then a push of the 20-byte
/// key hash.
pub open spec fn p2wpkh_script(hash20: Seq<u8>) -> Seq<u8> {
    seq![0x00u8, 0x14u8] + hash20
}

/// Version-0 pay-to-witness-script-hash: OP_0, then a push of the 32-byte
/// script hash.
pub open spec fn p2wsh_script(hash32: Seq<u8>) -> Seq<u8> {
    seq![0x00u8, 0x20u8] + hash32
}

/// Data carrier: OP_RETURN, then a push of a 20-byte payload.
pub open spec fn op_return_script(data20: Seq<u8>) -> Seq<u8> {
    seq![0x6au8, 0x14u8] + data20
}

/// Appends all bytes of `v` to `out`.
pub(crate) fn extend_bytes(out: &mut Vec<u8>, v: &Vec<u8>)
    ensures
        final(out)@ == old(out)@ + v@,
{
    let mut i: usize = 0;
    while i < v.len()
        invariant
            i <= v.len(),
            out@ == old(out)@ + v@.take(i as int),
        decreases v.len() - i,
    {
        out.push(v[i]);
        proof {
            assert(out@ =~= old(out)@ + v@.take(i + 1 as int));
        }
        i += 1;
    }
    proof {
        assert(v@.take(v@.len() as int) =~= v@);
    }
}

/// Byte-string equality.
pub(crate) fn bytes_eq(a: &Vec<u8>, b: &Vec<u8>) -> (r: bool)
    ensures
        r == (a@ == b@),
{
    if a.len() != b.len() {
        return false;
    }
    let mut i: usize = 0;
    while i < a.len()
        invariant
            i <= a.len(),
            a@.len() == b@.len(),
            forall|j: int| 0 <= j < i ==> a@[j] == b@[j],
        decreases a.len() - i,
    {
        if a[i] != b[i] {
            return false;
        }
        i += 1;
    }
    proof {
        assert(a@ =~= b@);
    }
    true
}

} // verus!
