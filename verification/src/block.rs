use vstd::prelude::*;

verus! {

use vstd::bytes::{spec_u128_to_le_bytes, u128_to_le_bytes};
use vstd::utf8::encode_utf8;
use crate::key::{sha256_digest, sha256_of};

/// The bytes a proof-of-work check hashes: the block identifier's
/// UTF-8 form followed by the candidate nonce, little-endian.
pub open spec fn pow_input(hash: Seq<char>, nonce: u128) -> Seq<u8> {
    encode_utf8(hash) + spec_u128_to_le_bytes(nonce)
}

/// A nonce proves work for a block when the digest of the block
/// identifier and the nonce opens with `difficulty` zero bytes.
pub open spec fn spec_valid_proof(hash: Seq<char>, difficulty: int, nonce: u128) -> bool {
    forall|i: int| 0 <= i < difficulty && i < 32 ==> sha256_of(pow_input(hash, nonce))[i] == 0
}

#[derive(Debug)]
pub struct BlockHeader {
    /// The block's identifier.
    pub hash: String,
    /// Identifier of the block this one extends.
    pub previous_hash: String,
    /// Starting point, and after mining the result, of the nonce search.
    pub nonce: u128,
    /// How many leading zero bytes the proof digest must show.
    pub difficulty: u32,
}

/// The part of a ledger block the mining loop reads: everything else
/// about blocks belongs to the ledger layer, an external collaborator.
#[derive(Debug)]
pub struct Block {
    pub header: BlockHeader,
}

impl Block {
    pub fn new(hash: String, previous_hash: String, nonce: u128, difficulty: u32) -> (r: Block)
        ensures
            r.header.hash@ == hash@,
            r.header.previous_hash@ == previous_hash@,
            r.header.nonce == nonce,
            r.header.difficulty == difficulty,
    {
        Block { header: BlockHeader { hash, previous_hash, nonce, difficulty } }
    }

    /// Whether `nonce` proves work for the block named `hash`.
    pub fn check_proof(hash: &String, difficulty: u32, nonce: u128) -> (r: bool)
        ensures
            r == spec_valid_proof(hash@, difficulty as int, nonce),
    {
        let mut input: Vec<u8> = hash.as_str().as_bytes_vec();
        let mut nb = u128_to_le_bytes(nonce);
        input.append(&mut nb);
        proof {
            assert(input@ =~= pow_input(hash@, nonce));
        }
        let digest = sha256_digest(input.as_slice());
        let lim: usize = if difficulty > 32 {
            32
        } else {
            difficulty as usize
        };
        let mut i: usize = 0;
        while i < lim
            invariant
                0 <= i <= lim <= 32,
                lim == (if difficulty > 32 { 32int } else { difficulty as int }),
                digest@ == sha256_of(pow_input(hash@, nonce)),
                digest@.len() == 32,
                forall|j: int| 0 <= j < i ==> digest@[j] == 0,
            decreases lim - i,
        {
            if digest[i] != 0 {
                proof {
                    assert(0 <= i < difficulty && i < 32);
                    assert(sha256_of(pow_input(hash@, nonce))[i as int] != 0);
                }
                return false;
            }
            i = i + 1;
        }
        proof {
            assert forall|j: int| 0 <= j < difficulty && j < 32 implies sha256_of(
                pow_input(hash@, nonce),
            )[j] == 0 by {
                assert(j < lim);
                assert(digest@[j] == 0);
            }
        }
        true
    }

    /// Whether this block's own nonce proves its work.
    pub fn is_valid(&self) -> (r: bool)
        ensures
            r == spec_valid_proof(
                self.header.hash@,
                self.header.difficulty as int,
                self.header.nonce,
            ),
    {
        Block::check_proof(&self.header.hash, self.header.difficulty, self.header.nonce)
    }
}

} // verus!
