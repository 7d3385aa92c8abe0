use vstd::prelude::*;

verus! {

use crate::block::{Block, spec_valid_proof};

/// Which consensus rule the miner follows.
#[derive(Clone, Copy, Debug, PartialEq, Eq, Structural)]
pub enum ConsensusAlgorithm {
    ProofOfWork,
    DelegatedProofOfStake,
}

/// The mining task the node runs alongside its networking: it consumes
/// a block and produces a nonce. Under proof of work that nonce is the
/// first one from the block's own that proves the work; under
/// delegated proof of stake no search is needed and the block's nonce
/// stands. The identifiers of blocks being mined are kept so the
/// runtime can tell which results are still wanted when answers come
/// in from the network.
#[derive(Debug)]
pub struct Miner {
    pub consensus: ConsensusAlgorithm,
    pub mining_blocks: Vec<String>,
}

impl Miner {
    pub fn new(consensus: ConsensusAlgorithm) -> (r: Miner)
        ensures
            r.consensus == consensus,
            r.mining_blocks@.len() == 0,
    {
        Miner { consensus, mining_blocks: Vec::new() }
    }

    /// Whether `nonce` would make this block valid.
    pub fn valid_proof(&self, block: &Block, nonce: u128) -> (r: bool)
        ensures
            r == spec_valid_proof(block.header.hash@, block.header.difficulty as int, nonce),
    {
        Block::check_proof(&block.header.hash, block.header.difficulty, nonce)
    }

    /// Searches upward from the block's nonce for the first one that
    /// proves the work. The search stops at the end of the nonce
    /// domain instead of spinning forever; a cancellation arriving
    /// from the network is the runtime's affair.
    pub fn proof_of_work(&self, block: Block) -> (nonce: u128)
        ensures
            nonce >= block.header.nonce,
            forall|m: u128|
                block.header.nonce <= m < nonce ==> !spec_valid_proof(
                    block.header.hash@,
                    block.header.difficulty as int,
                    m,
                ),
            nonce < u128::MAX ==> spec_valid_proof(
                block.header.hash@,
                block.header.difficulty as int,
                nonce,
            ),
    {
        let mut nonce: u128 = block.header.nonce;
        while nonce < u128::MAX
            invariant
                nonce >= block.header.nonce,
                forall|m: u128|
                    block.header.nonce <= m < nonce ==> !spec_valid_proof(
                        block.header.hash@,
                        block.header.difficulty as int,
                        m,
                    ),
            decreases u128::MAX - nonce,
        {
            if self.valid_proof(&block, nonce) {
                return nonce;
            }
            nonce = nonce + 1;
        }
        nonce
    }

    /// Delegated proof of stake needs no nonce search.
    pub fn proof_of_stake(&self, block: Block) -> (nonce: u128)
        ensures
            nonce == block.header.nonce,
    {
        block.header.nonce
    }

    /// Records the block's identifier as being mined — so the runtime
    /// can tell which results are still wanted when answers arrive
    /// from the network — and runs the consensus rule.
    pub fn mine_block(&mut self, block: Block) -> (nonce: u128)
        ensures
            final(self).consensus == old(self).consensus,
            final(self).mining_blocks@.len() == old(self).mining_blocks@.len() + 1,
            final(self).mining_blocks@.subrange(0, old(self).mining_blocks@.len() as int)
                == old(self).mining_blocks@,
            final(self).mining_blocks@.last()@ == block.header.hash@,
            old(self).consensus == ConsensusAlgorithm::DelegatedProofOfStake ==> nonce
                == block.header.nonce,
            old(self).consensus == ConsensusAlgorithm::ProofOfWork ==> ({
                &&& nonce >= block.header.nonce
                &&& forall|m: u128|
                    block.header.nonce <= m < nonce ==> !spec_valid_proof(
                        block.header.hash@,
                        block.header.difficulty as int,
                        m,
                    )
                &&& nonce < u128::MAX ==> spec_valid_proof(
                    block.header.hash@,
                    block.header.difficulty as int,
                    nonce,
                )
            }),
    {
        let ghost s0 = self.mining_blocks@;
        self.mining_blocks.push(block.header.hash.clone());
        proof {
            assert(self.mining_blocks@.subrange(0, s0.len() as int) =~= s0);
        }
        match self.consensus {
            ConsensusAlgorithm::ProofOfWork => self.proof_of_work(block),
            ConsensusAlgorithm::DelegatedProofOfStake => self.proof_of_stake(block),
        }
    }
}

} // verus!
