//! A staking pool with per-epoch rewards.
//!
//! Its known weaknesses are kept as they are: `stake` grows storage with no
//! gas check, and `unstake` clears the stake before the withdrawal is
//! confirmed. The reward itself is computed in floating point, outside this
//! library, and handed to `unstake`.
use vstd::prelude::*;
use super::table::Table;

verus! {

pub const TGAS: u64 = 1_000_000_000_000;

/// Epoch length in nanoseconds (about 12 hours).
pub const EPOCH_NS: u64 = 43_200_000_000_000;

#[derive(Clone, Copy, Debug, PartialEq, Eq, Structural)]
pub struct StakerInfo {
    pub balance: u128,
    pub reward_debt: u128,
    pub start_epoch: u64,
}

pub struct StakingPool {
    pub owner_id: String,
    pub total_staked: u128,
    pub stakers: Table<StakerInfo>,
}

/// Why a call is refused.
#[derive(Clone, Copy, Debug, PartialEq, Eq, Structural)]
pub enum StakingError {
    /// `stake` with no attached deposit.
    NothingAttached,
    /// `unstake` by an account that has no stake.
    NotStaked,
    /// A private callback called by another account than the contract.
    PrivateMethod,
}

/// The promises `unstake` creates: the transfer of `amount` to `receiver`,
/// then `on_withdraw(staker, amount)` on the contract itself.
pub struct WithdrawPromise {
    pub receiver: String,
    pub amount: u128,
    pub callback_account: String,
    pub callback_gas: u64,
    pub staker: String,
}

/// The stake of `caller` before staking: its record, or a fresh one that
/// starts at `epoch`.
pub open spec fn stake_base(pool: &StakingPool, caller: Seq<char>, epoch: u64) -> StakerInfo {
    match pool.stakers.get_spec(caller) {
        Some(i) => i,
        None => StakerInfo { balance: 0, reward_debt: 0, start_epoch: epoch },
    }
}

impl StakingPool {
    /// The state the contract starts from when it is used before `new`: owned
    /// by the account that called it.
    pub fn default_for(predecessor: &str) -> (r: StakingPool)
        ensures
            r.owner_id@ == predecessor@,
            r.total_staked == 0,
            r.stakers.wf(),
            forall|k: Seq<char>| r.stakers.get_spec(k) is None,
    {
        StakingPool { owner_id: String::from_str(predecessor), total_staked: 0, stakers: Table::new() }
    }

    pub fn new(owner_id: String) -> (r: StakingPool)
        ensures
            r.owner_id == owner_id,
            r.total_staked == 0,
            r.stakers.wf(),
            forall|k: Seq<char>| r.stakers.get_spec(k) is None,
    {
        StakingPool { owner_id, total_staked: 0, stakers: Table::new() }
    }

    /// Stakes the attached deposit for the caller.
    pub fn stake(&mut self, caller: &str, attached_deposit: u128, block_timestamp: u64) -> (r: Result<(), StakingError>)
        requires
            old(self).stakers.wf(),
            attached_deposit > 0 ==> stake_base(old(self), caller@, block_timestamp / EPOCH_NS).balance
                + attached_deposit <= u128::MAX,
            attached_deposit > 0 ==> old(self).total_staked + attached_deposit <= u128::MAX,
        ensures
            final(self).stakers.wf(),
            final(self).owner_id == old(self).owner_id,
            attached_deposit == 0 ==> r == Err::<(), StakingError>(StakingError::NothingAttached)
                && final(self).total_staked == old(self).total_staked
                && forall|k: Seq<char>| #[trigger] final(self).stakers.get_spec(k) == old(self).stakers.get_spec(k),
            attached_deposit > 0 ==> {
                let base = stake_base(old(self), caller@, block_timestamp / EPOCH_NS);
                &&& r is Ok
                &&& final(self).total_staked == old(self).total_staked + attached_deposit
                &&& forall|k: Seq<char>| #[trigger] final(self).stakers.get_spec(k) == if k == caller@ {
                    Some(StakerInfo { balance: (base.balance + attached_deposit) as u128, ..base })
                } else {
                    old(self).stakers.get_spec(k)
                }
            },
    {
        let amount = attached_deposit;
        if amount == 0 {
            return Err(StakingError::NothingAttached);
        }
        let epoch = block_timestamp / EPOCH_NS;
        let mut info = match self.stakers.get(caller) {
            Some(i) => *i,
            None => StakerInfo { balance: 0, reward_debt: 0, start_epoch: epoch },
        };
        info.balance = info.balance + amount;
        self.stakers.insert(caller, info);
        self.total_staked = self.total_staked + amount;
        Ok(())
    }

    /// Withdraws the caller's whole stake plus `reward`: the stake is
    /// dropped now and the transfer follows as a promise.
    pub fn unstake(&mut self, caller: &str, current_account: &str, reward: u128) -> (r: Result<WithdrawPromise, StakingError>)
        requires
            old(self).stakers.wf(),
            old(self).stakers.get_spec(caller@) matches Some(i) ==> i.balance + reward <= u128::MAX,
        ensures
            final(self).stakers.wf(),
            final(self).owner_id == old(self).owner_id,
            old(self).stakers.get_spec(caller@) is None ==> r == Err::<WithdrawPromise, StakingError>(
                StakingError::NotStaked,
            ) && final(self).total_staked == old(self).total_staked
                && forall|k: Seq<char>| #[trigger] final(self).stakers.get_spec(k) == old(self).stakers.get_spec(k),
            old(self).stakers.get_spec(caller@) matches Some(i) ==> {
                let total = i.balance + reward;
                &&& r matches Ok(w) && w.receiver@ == caller@ && w.amount == total && w.callback_account@
                    == current_account@ && w.callback_gas == 5 * TGAS && w.staker@ == caller@
                &&& final(self).total_staked == old(self).total_staked - if total < old(self).total_staked {
                    total
                } else {
                    old(self).total_staked as int
                }
                &&& forall|k: Seq<char>| #[trigger] final(self).stakers.get_spec(k) == if k == caller@ {
                    None
                } else {
                    old(self).stakers.get_spec(k)
                }
            },
    {
        let info = match self.stakers.get(caller) {
            Some(i) => *i,
            None => {
                return Err(StakingError::NotStaked);
            },
        };
        let total = info.balance + reward;
        self.stakers.remove(caller);
        let taken = if total < self.total_staked {
            total
        } else {
            self.total_staked
        };
        self.total_staked = self.total_staked - taken;
        Ok(WithdrawPromise {
            receiver: String::from_str(caller),
            amount: total,
            callback_account: String::from_str(current_account),
            callback_gas: 5 * TGAS,
            staker: String::from_str(caller),
        })
    }

    /// The withdrawal callback: when the transfer failed, the staker is
    /// credited `amount` again as a fresh stake. Only the contract itself may
    /// call it.
    pub fn on_withdraw(
        &mut self,
        caller: &str,
        current_account: &str,
        staker: &str,
        amount: u128,
        transfer_succeeded: bool,
    ) -> (r: Result<(), StakingError>)
        requires
            old(self).stakers.wf(),
            caller@ == current_account@ && !transfer_succeeded ==> old(self).total_staked + amount <= u128::MAX,
        ensures
            final(self).stakers.wf(),
            final(self).owner_id == old(self).owner_id,
            caller@ != current_account@ ==> r == Err::<(), StakingError>(StakingError::PrivateMethod),
            caller@ == current_account@ ==> r is Ok,
            caller@ != current_account@ || transfer_succeeded ==> final(self).total_staked == old(self).total_staked
                && forall|k: Seq<char>| #[trigger] final(self).stakers.get_spec(k) == old(self).stakers.get_spec(k),
            caller@ == current_account@ && !transfer_succeeded ==> {
                &&& final(self).total_staked == old(self).total_staked + amount
                &&& forall|k: Seq<char>| #[trigger] final(self).stakers.get_spec(k) == if k == staker@ {
                    Some(StakerInfo { balance: amount, reward_debt: 0, start_epoch: 0 })
                } else {
                    old(self).stakers.get_spec(k)
                }
            },
    {
        if !crate::text::str_eq(caller, current_account) {
            return Err(StakingError::PrivateMethod);
        }
        if !transfer_succeeded {
            self.stakers.insert(staker, StakerInfo { balance: amount, reward_debt: 0, start_epoch: 0 });
            self.total_staked = self.total_staked + amount;
        }
        Ok(())
    }

    /// The stake of `staker` (0 for an account with none).
    pub fn get_staked(&self, staker: &str) -> (r: u128)
        requires
            self.stakers.wf(),
        ensures
            r == match self.stakers.get_spec(staker@) {
                Some(i) => i.balance,
                None => 0,
            },
    {
        match self.stakers.get(staker) {
            Some(i) => i.balance,
            None => 0,
        }
    }

    pub fn total_staked(&self) -> (r: u128)
        ensures
            r == self.total_staked,
    {
        self.total_staked
    }
}

} // verus!
