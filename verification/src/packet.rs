//! Layout of the outbound ICMP echo-request datagram.

use vstd::prelude::*;
use vstd::pervasive::VecAdditionalExecFns;
use crate::checksum::checksum_of;
use crate::checksum::icmp_checksum;
use crate::checksum::lemma_checksum_self_verifies;

verus! {

/// Builds the fixed 64-byte echo-request datagram: type 8 (echo request),
/// code 0, the one's-complement checksum written big-endian at bytes 2..4,
/// and every other byte zero. The completed packet passes the standard
/// checksum self-verification: summing it checksums to zero.
pub fn build_echo_request() -> (pkt: Vec<u8>)
    ensures
        pkt@.len() == 64,
        pkt@[0] == 8u8,
        pkt@[1] == 0u8,
        forall|i: int| 4 <= i < 64 ==> pkt@[i] == 0u8,
        checksum_of(pkt@) == 0,
{
    let mut pkt: Vec<u8> = Vec::new();
    let mut i: usize = 0;
    while i < 64
        invariant
            pkt@.len() == i,
            i <= 64,
            forall|j: int| 0 <= j < i ==> pkt@[j] == 0u8,
        decreases 64 - i,
    {
        pkt.push(0u8);
        i = i + 1;
    }
    pkt.set(0, 8u8);
    let c: u16 = icmp_checksum(pkt.as_slice());
    proof {
        lemma_checksum_self_verifies(pkt@);
    }
    let hi: u8 = (c / 0x100) as u8;
    let lo: u8 = (c % 0x100) as u8;
    pkt.set(2, hi);
    pkt.set(3, lo);
    pkt
}

} // verus!
