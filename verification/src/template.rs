//! The DOT chain's escrow module: a transfer to the other chain locks the
//! amount in escrow and reports the block whose state proves it.
use vstd::prelude::*;

use crate::dispatch::{ensure_signed, signer_of, AccountId, BlockNumber, DispatchError, Origin};
use crate::storage::StorageMap;

verus! {

/// What the module reports.
#[derive(Clone, Copy, Debug, PartialEq, Eq, Structural)]
pub enum DotEvent {
    /// An account locked an amount at a block; a relayer fetches the proof at that block.
    DotTransferred(AccountId, u128, BlockNumber),
}

/// The state of the escrow module.
#[verifier::ext_equal]
pub struct TemplateView {
    pub escrow: Map<AccountId, u128>,
    pub block_number: BlockNumber,
    pub events: Seq<DotEvent>,
}

/// The escrow module with the block number that the system module keeps.
pub struct TemplateModule {
    escrow: StorageMap<AccountId, u128>,
    block_number: BlockNumber,
    events: Vec<DotEvent>,
}

impl View for TemplateModule {
    type V = TemplateView;

    closed spec fn view(&self) -> TemplateView {
        TemplateView { escrow: self.escrow.view(), block_number: self.block_number, events: self.events@ }
    }
}

impl TemplateModule {
    pub closed spec fn wf(&self) -> bool {
        self.escrow.wf()
    }

    /// An empty escrow at block zero.
    pub fn new() -> (m: Self)
        ensures
            m.wf(),
            m@ == (TemplateView { escrow: Map::empty(), block_number: 0, events: Seq::empty() }),
    {
        let m = TemplateModule { escrow: StorageMap::new(), block_number: 0, events: Vec::new() };
        proof {
            assert(m@ =~= TemplateView { escrow: Map::empty(), block_number: 0, events: Seq::empty() });
        }
        m
    }

    /// The system module starting block `number`.
    pub fn initialize_block(&mut self, number: BlockNumber)
        requires
            old(self).wf(),
        ensures
            final(self).wf(),
            final(self)@ == (TemplateView { block_number: number, ..old(self)@ }),
    {
        self.block_number = number;
        proof {
            assert(self@ =~= TemplateView { block_number: number, ..old(self)@ });
        }
    }

    /// The current block number.
    pub fn block_number(&self) -> (n: BlockNumber)
        ensures
            n == self@.block_number,
    {
        self.block_number
    }

    /// What an account has locked, if anything.
    pub fn escrow_account(&self, who: AccountId) -> (r: Option<u128>)
        requires
            self.wf(),
        ensures
            r == (if self@.escrow.contains_key(who) {
                Some(self@.escrow[who])
            } else {
                None::<u128>
            }),
    {
        match self.escrow.get(&who) {
            Some(v) => Some(*v),
            None => None,
        }
    }

    /// The events deposited so far, oldest first.
    pub fn events(&self) -> (r: &Vec<DotEvent>)
        ensures
            r@ == self@.events,
    {
        &self.events
    }

    /// Starts a transfer of `amount` to the other chain: the amount is locked
    /// in escrow under the signer (replacing what it had locked before) and
    /// the current block is reported, at which a relayer fetches the proof.
    pub fn transfer_dot(&mut self, origin: Origin, amount: u128) -> (r: Result<(), DispatchError>)
        requires
            old(self).wf(),
        ensures
            final(self).wf(),
            match signer_of(origin) {
                Ok(who) => r is Ok && final(self)@ == (TemplateView {
                    escrow: old(self)@.escrow.insert(who, amount),
                    events: old(self)@.events.push(
                        DotEvent::DotTransferred(who, amount, old(self)@.block_number),
                    ),
                    ..old(self)@
                }),
                Err(e) => r == Err::<(), DispatchError>(e) && final(self)@ == old(self)@,
            },
    {
        let who = ensure_signed(origin)?;
        self.escrow.insert(who, amount);
        let proof_height = self.block_number;
        self.events.push(DotEvent::DotTransferred(who, amount, proof_height));
        proof {
            assert(self@ =~= TemplateView {
                escrow: old(self)@.escrow.insert(who, amount),
                events: old(self)@.events.push(DotEvent::DotTransferred(who, amount, old(self)@.block_number)),
                ..old(self)@
            });
        }
        Ok(())
    }
}

} // verus!
