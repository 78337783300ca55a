//! Cutting the serial byte stream into packets.
//!
//! Bytes read from the link are appended to a buffer of fixed capacity. A
//! zero byte ends a packet: after each read, the bytes before the first zero
//! are handed out as a packet and dropped from the buffer together with the
//! zero. A read that does not fit empties the buffer instead.
use vstd::prelude::*;

verus! {

/// Capacity of the receive buffer, in bytes.
pub const PACKET_BUFFER_CAPACITY: usize = 8192;

/// The receive buffer: a `heapless::Vec<u8, PACKET_BUFFER_CAPACITY>`.
#[verifier::external_body]
pub struct PacketBytes {
    bytes: heapless::Vec<u8, PACKET_BUFFER_CAPACITY>,
}

/// The bytes held in a receive buffer.
pub uninterp spec fn packet_bytes(b: PacketBytes) -> Seq<u8>;

/// `heapless::Vec::new`: an empty buffer.
#[verifier::external_body]
pub(crate) fn packet_bytes_new() -> (r: PacketBytes)
    ensures
        packet_bytes(r) == Seq::<u8>::empty(),
{
    PacketBytes { bytes: heapless::Vec::new() }
}

/// `heapless::Vec::extend_from_slice`: appends `s` if the result fits in the
/// capacity; otherwise leaves the buffer as it was. Returns whether it appended.
#[verifier::external_body]
pub(crate) fn packet_bytes_extend(b: &mut PacketBytes, s: &[u8]) -> (r: bool)
    ensures
        r == (packet_bytes(*old(b)).len() + s@.len() <= PACKET_BUFFER_CAPACITY),
        r ==> packet_bytes(*final(b)) == packet_bytes(*old(b)) + s@,
        !r ==> packet_bytes(*final(b)) == packet_bytes(*old(b)),
{
    match b.bytes.extend_from_slice(s) {
        Ok(()) => true,
        Err(_) => false,
    }
}

/// `heapless::Vec::clear`: empties the buffer.
#[verifier::external_body]
pub(crate) fn packet_bytes_clear(b: &mut PacketBytes)
    ensures
        packet_bytes(*final(b)) == Seq::<u8>::empty(),
{
    b.bytes.clear()
}

/// `heapless::Vec::as_slice`: the bytes held.
#[verifier::external_body]
pub(crate) fn packet_bytes_as_slice(b: &PacketBytes) -> (r: &[u8])
    ensures
        r@ == packet_bytes(*b),
{
    b.bytes.as_slice()
}

/// `heapless::Vec::from_slice`: a buffer holding `s`, which fits.
#[verifier::external_body]
pub(crate) fn packet_bytes_from_slice(s: &[u8]) -> (r: PacketBytes)
    requires
        s@.len() <= PACKET_BUFFER_CAPACITY,
    ensures
        packet_bytes(r) == s@,
{
    PacketBytes { bytes: heapless::Vec::from_slice(s).unwrap() }
}

/// Position of the first zero byte of `s`, if it has one.
pub open spec fn first_zero(s: Seq<u8>) -> Option<int>
    decreases s.len(),
{
    if s.len() == 0 {
        None
    } else if s[0] == 0 {
        Some(0)
    } else {
        match first_zero(s.drop_first()) {
            Some(i) => Some(i + 1),
            None => None,
        }
    }
}

proof fn lemma_first_zero_at(s: Seq<u8>, i: int)
    requires
        0 <= i <= s.len(),
        forall|j: int| 0 <= j < i ==> s[j] != 0,
    ensures
        i < s.len() && s[i] == 0 ==> first_zero(s) == Some(i),
        i == s.len() ==> first_zero(s) is None,
    decreases i,
{
    if i > 0 {
        let d = s.drop_first();
        assert forall|j: int| 0 <= j < i - 1 implies d[j] != 0 by {
            assert(d[j] == s[j + 1]);
        }
        lemma_first_zero_at(d, i - 1);
        if i < s.len() {
            assert(d[i - 1] == s[i]);
        }
    }
}

/// What one read from the link produced.
pub enum Received {
    /// The read did not fit in the buffer, which was emptied.
    Overflow,
    /// No packet is complete yet.
    Incomplete,
    /// The bytes of a complete packet, without its closing zero.
    Packet(Vec<u8>),
}

/// The stream state of the receiving side of the serial link.
pub struct PacketAssembler {
    buffer: PacketBytes,
}

impl PacketAssembler {
    /// The bytes received and not yet handed out.
    pub closed spec fn pending(&self) -> Seq<u8> {
        packet_bytes(self.buffer)
    }

    /// The pending bytes fit in the buffer.
    pub open spec fn wf(&self) -> bool {
        self.pending().len() <= PACKET_BUFFER_CAPACITY
    }

    /// Nothing received yet.
    pub fn new() -> (r: PacketAssembler)
        ensures
            r.wf(),
            r.pending() == Seq::<u8>::empty(),
    {
        PacketAssembler { buffer: packet_bytes_new() }
    }

    /// How many bytes are pending.
    pub fn pending_len(&self) -> (r: usize)
        ensures
            r == self.pending().len(),
    {
        packet_bytes_as_slice(&self.buffer).len()
    }

    /// Takes in the bytes of one read: appends them, then hands out the
    /// packet ended by the first zero byte pending, if there is one.
    pub fn receive(&mut self, chunk: &[u8]) -> (r: Received)
        requires
            old(self).wf(),
        ensures
            final(self).wf(),
            old(self).pending().len() + chunk@.len() > PACKET_BUFFER_CAPACITY ==> r is Overflow
                && final(self).pending() == Seq::<u8>::empty(),
            old(self).pending().len() + chunk@.len() <= PACKET_BUFFER_CAPACITY ==> ({
                let all = old(self).pending() + chunk@;
                match first_zero(all) {
                    None => r is Incomplete && final(self).pending() == all,
                    Some(k) => r matches Received::Packet(p) && p@ == all.take(k)
                        && final(self).pending() == all.skip(k + 1),
                }
            }),
    {
        if !packet_bytes_extend(&mut self.buffer, chunk) {
            packet_bytes_clear(&mut self.buffer);
            return Received::Overflow;
        }
        let bytes = packet_bytes_as_slice(&self.buffer);
        let ghost all = bytes@;
        let mut i: usize = 0;
        while i < bytes.len()
            invariant
                bytes@ == all,
                all == old(self).pending() + chunk@,
                self.pending() == all,
                all.len() <= PACKET_BUFFER_CAPACITY,
                i <= all.len(),
                forall|j: int| 0 <= j < i ==> all[j] != 0,
            decreases bytes.len() - i,
        {
            if bytes[i] == 0 {
                proof {
                    lemma_first_zero_at(all, i as int);
                }
                let (head, tail) = bytes.split_at(i + 1);
                let packet = vstd::slice::slice_to_vec(vstd::slice::slice_subrange(head, 0, i));
                assert(packet@ =~= all.take(i as int));
                assert(tail@ =~= all.skip(i + 1));
                self.buffer = packet_bytes_from_slice(tail);
                return Received::Packet(packet);
            }
            i += 1;
        }
        proof {
            lemma_first_zero_at(all, i as int);
        }
        Received::Incomplete
    }
}


/// No byte is lost or added: the pending bytes and the read are the packet
/// handed out, its closing zero, and what stays pending; the packet holds no
/// zero byte.
pub proof fn law_packet_conserves_bytes(all: Seq<u8>)
    requires
        first_zero(all) is Some,
    ensures
        ({
            let k = first_zero(all).unwrap();
            &&& 0 <= k < all.len()
            &&& all == all.take(k) + seq![0u8] + all.skip(k + 1)
            &&& forall|j: int| 0 <= j < k ==> all[j] != 0
        }),
    decreases all.len(),
{
    let k = first_zero(all).unwrap();
    if all[0] != 0 {
        let d = all.drop_first();
        law_packet_conserves_bytes(d);
        let kd = first_zero(d).unwrap();
        assert(kd == k - 1);
        assert((d.take(kd) + seq![0u8] + d.skip(kd + 1))[kd] == 0);
        assert(all[k] == d[kd]);
        assert forall|j: int| 0 <= j < k implies all[j] != 0 by {
            if j > 0 {
                assert(all[j] == d[j - 1]);
            }
        }
    }
    assert(all =~= all.take(k) + seq![0u8] + all.skip(k + 1));
}

/// The pending bytes and the read hold no packet exactly when none of them
/// is zero.
pub proof fn law_no_zero_no_packet(all: Seq<u8>)
    ensures
        (first_zero(all) is None) <==> (forall|j: int| 0 <= j < all.len() ==> all[j] != 0),
    decreases all.len(),
{
    if all.len() > 0 {
        let d = all.drop_first();
        law_no_zero_no_packet(d);
        assert forall|j: int| 0 <= j < d.len() implies #[trigger] d[j] == all[j + 1] by {}
        if forall|j: int| 0 <= j < all.len() ==> all[j] != 0 {
            assert forall|j: int| 0 <= j < d.len() implies d[j] != 0 by {
                assert(all[j + 1] != 0);
            }
        }
        if first_zero(all) is None {
            assert forall|j: int| 0 <= j < all.len() implies all[j] != 0 by {
                if j > 0 {
                    assert(d[j - 1] == all[j]);
                }
            }
        }
    }
}

} // verus!
