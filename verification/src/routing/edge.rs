//! An edge: what two peers have signed about the connection between them.

use vstd::prelude::*;
use vstd::bytes::spec_u128_to_le_bytes;
use vstd::bytes::spec_u64_to_le_bytes;
use vstd::bytes::u128_to_le_bytes;
use vstd::bytes::u64_to_le_bytes;
use vstd::bytes::lemma_auto_spec_u128_to_from_le_bytes;
use vstd::bytes::lemma_auto_spec_u64_to_from_le_bytes;
use vstd::bytes::spec_u128_from_le_bytes;
use vstd::bytes::spec_u64_from_le_bytes;
use crate::peer::PeerId;
use crate::peer::ordered_pair;

verus! {

/// What an edge claims of the connection between its two peers.
#[derive(Clone, Copy, Debug, PartialEq, Eq, Structural, Hash)]
pub enum EdgeType {
    /// The connection exists.
    Added,
    /// The connection was torn down.
    Removed,
}

/// What an edge says, as plain data.
pub ghost struct EdgeView {
    /// The two peers, the lower identifier first.
    pub key: (PeerId, PeerId),
    pub edge_type: EdgeType,
    /// The version of the claim: of two edges for one pair the higher nonce wins.
    pub nonce: u64,
    /// The signature of `key.0` over `signed_message`.
    pub signature_a: Seq<u8>,
    /// The signature of `key.1` over `signed_message`.
    pub signature_b: Seq<u8>,
}

/// The byte that stands for an edge's type in the message its peers sign.
pub open spec fn type_byte(edge_type: EdgeType) -> u8 {
    match edge_type {
        EdgeType::Added => 0,
        EdgeType::Removed => 1,
    }
}

/// The 32 bytes of a peer's identifier in a signed message: each half in
/// little-endian order, the high half first.
pub open spec fn peer_bytes(peer: PeerId) -> Seq<u8> {
    spec_u128_to_le_bytes(peer.hi) + spec_u128_to_le_bytes(peer.lo)
}

/// The message that both peers of an edge sign: the two identifiers, the
/// lower one first, the byte of the type, and the nonce in little-endian
/// order. 73 bytes.
pub open spec fn signed_message(key: (PeerId, PeerId), edge_type: EdgeType, nonce: u64) -> Seq<u8> {
    peer_bytes(key.0) + peer_bytes(key.1) + seq![type_byte(edge_type)] + spec_u64_to_le_bytes(
        nonce,
    )
}

/// A signed claim about the connection between two peers.
#[derive(Debug)]
pub struct Edge {
    key: (PeerId, PeerId),
    edge_type: EdgeType,
    nonce: u64,
    signature_a: Vec<u8>,
    signature_b: Vec<u8>,
}

impl View for Edge {
    type V = EdgeView;

    closed spec fn view(&self) -> EdgeView {
        EdgeView {
            key: self.key,
            edge_type: self.edge_type,
            nonce: self.nonce,
            signature_a: self.signature_a@,
            signature_b: self.signature_b@,
        }
    }
}

impl Edge {
    #[verifier::type_invariant]
    spec fn key_is_ordered(self) -> bool {
        self.key.0.not_above(self.key.1)
    }

    /// The edge between `peer0` and `peer1`, with the signature of each. The
    /// peers may come in either order: the edge files them, and their
    /// signatures with them, lower identifier first.
    pub fn new(
        peer0: PeerId,
        peer1: PeerId,
        edge_type: EdgeType,
        nonce: u64,
        signature0: Vec<u8>,
        signature1: Vec<u8>,
    ) -> (edge: Edge)
        ensures
            edge@.key == ordered_pair(peer0, peer1),
            edge@.edge_type == edge_type,
            edge@.nonce == nonce,
            edge@.signature_a == if peer1.below(peer0) { signature1@ } else { signature0@ },
            edge@.signature_b == if peer1.below(peer0) { signature0@ } else { signature1@ },
    {
        if peer1.is_before(&peer0) {
            Edge {
                key: (peer1, peer0),
                edge_type,
                nonce,
                signature_a: signature1,
                signature_b: signature0,
            }
        } else {
            Edge {
                key: (peer0, peer1),
                edge_type,
                nonce,
                signature_a: signature0,
                signature_b: signature1,
            }
        }
    }

    /// The pair of peers, lower identifier first.
    pub fn key(&self) -> (key: &(PeerId, PeerId))
        ensures
            *key == self@.key,
            key.0.not_above(key.1),
    {
        proof {
            use_type_invariant(self);
        }
        &self.key
    }

    pub fn edge_type(&self) -> (edge_type: EdgeType)
        ensures
            edge_type == self@.edge_type,
    {
        self.edge_type
    }

    pub fn nonce(&self) -> (nonce: u64)
        ensures
            nonce == self@.nonce,
    {
        self.nonce
    }

    pub fn signature_a(&self) -> (signature: &Vec<u8>)
        ensures
            signature@ == self@.signature_a,
    {
        &self.signature_a
    }

    pub fn signature_b(&self) -> (signature: &Vec<u8>)
        ensures
            signature@ == self@.signature_b,
    {
        &self.signature_b
    }

    /// Whether the edge claims that the connection exists.
    pub fn is_added(&self) -> (b: bool)
        ensures
            b == (self@.edge_type == EdgeType::Added),
    {
        match self.edge_type {
            EdgeType::Added => true,
            EdgeType::Removed => false,
        }
    }

    /// The bytes that each of the two signatures has to be valid for.
    pub fn signed_bytes(&self) -> (message: Vec<u8>)
        ensures
            message@ == signed_message(self@.key, self@.edge_type, self@.nonce),
    {
        let mut message: Vec<u8> = u128_to_le_bytes(self.key.0.hi);
        let mut a_lo: Vec<u8> = u128_to_le_bytes(self.key.0.lo);
        let mut b_hi: Vec<u8> = u128_to_le_bytes(self.key.1.hi);
        let mut b_lo: Vec<u8> = u128_to_le_bytes(self.key.1.lo);
        let mut nonce: Vec<u8> = u64_to_le_bytes(self.nonce);
        message.append(&mut a_lo);
        message.append(&mut b_hi);
        message.append(&mut b_lo);
        message.push(
            match self.edge_type {
                EdgeType::Added => 0,
                EdgeType::Removed => 1,
            },
        );
        message.append(&mut nonce);
        assert(message@ =~= signed_message(self@.key, self@.edge_type, self@.nonce));
        message
    }

    /// A copy of the edge.
    pub fn duplicate(&self) -> (edge: Edge)
        ensures
            edge@ == self@,
    {
        proof {
            use_type_invariant(self);
        }
        let signature_a = self.signature_a.clone();
        let signature_b = self.signature_b.clone();
        assert(signature_a@ =~= self.signature_a@);
        assert(signature_b@ =~= self.signature_b@);
        Edge {
            key: self.key,
            edge_type: self.edge_type,
            nonce: self.nonce,
            signature_a,
            signature_b,
        }
    }
}

/// Two edges are signed over the same message only where they agree on the
/// pair, the type and the nonce: a signature for one claim never serves
/// another.
pub proof fn lemma_signed_message_is_injective(
    key1: (PeerId, PeerId),
    type1: EdgeType,
    nonce1: u64,
    key2: (PeerId, PeerId),
    type2: EdgeType,
    nonce2: u64,
)
    requires
        signed_message(key1, type1, nonce1) == signed_message(key2, type2, nonce2),
    ensures
        key1 == key2,
        type1 == type2,
        nonce1 == nonce2,
{
    lemma_auto_spec_u128_to_from_le_bytes();
    lemma_auto_spec_u64_to_from_le_bytes();
    let m1 = signed_message(key1, type1, nonce1);
    let m2 = signed_message(key2, type2, nonce2);
    assert(m1.len() == 73);
    assert(m1.subrange(0, 16) =~= spec_u128_to_le_bytes(key1.0.hi));
    assert(m2.subrange(0, 16) =~= spec_u128_to_le_bytes(key2.0.hi));
    assert(m1.subrange(16, 32) =~= spec_u128_to_le_bytes(key1.0.lo));
    assert(m2.subrange(16, 32) =~= spec_u128_to_le_bytes(key2.0.lo));
    assert(m1.subrange(32, 48) =~= spec_u128_to_le_bytes(key1.1.hi));
    assert(m2.subrange(32, 48) =~= spec_u128_to_le_bytes(key2.1.hi));
    assert(m1.subrange(48, 64) =~= spec_u128_to_le_bytes(key1.1.lo));
    assert(m2.subrange(48, 64) =~= spec_u128_to_le_bytes(key2.1.lo));
    assert(m1[64] == type_byte(type1));
    assert(m2[64] == type_byte(type2));
    assert(m1.subrange(65, 73) =~= spec_u64_to_le_bytes(nonce1));
    assert(m2.subrange(65, 73) =~= spec_u64_to_le_bytes(nonce2));
    assert(spec_u128_from_le_bytes(spec_u128_to_le_bytes(key1.0.hi)) == key1.0.hi);
    assert(spec_u128_from_le_bytes(spec_u128_to_le_bytes(key2.0.hi)) == key2.0.hi);
    assert(spec_u128_from_le_bytes(spec_u128_to_le_bytes(key1.0.lo)) == key1.0.lo);
    assert(spec_u128_from_le_bytes(spec_u128_to_le_bytes(key2.0.lo)) == key2.0.lo);
    assert(spec_u128_from_le_bytes(spec_u128_to_le_bytes(key1.1.hi)) == key1.1.hi);
    assert(spec_u128_from_le_bytes(spec_u128_to_le_bytes(key2.1.hi)) == key2.1.hi);
    assert(spec_u128_from_le_bytes(spec_u128_to_le_bytes(key1.1.lo)) == key1.1.lo);
    assert(spec_u128_from_le_bytes(spec_u128_to_le_bytes(key2.1.lo)) == key2.1.lo);
    assert(spec_u64_from_le_bytes(spec_u64_to_le_bytes(nonce1)) == nonce1);
    assert(spec_u64_from_le_bytes(spec_u64_to_le_bytes(nonce2)) == nonce2);
}

} // verus!
