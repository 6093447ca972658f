//! A constant-product AMM (x * y = k).
//!
//! Its known weaknesses are kept as they are: the fee is divided before it is
//! multiplied on even block timestamps, the fee tier depends on the block
//! timestamp, and reserves are only updated in the swap callback.
use vstd::prelude::*;

verus! {

pub const TGAS: u64 = 1_000_000_000_000;

pub const FEE_DENOMINATOR: u128 = 10_000;

pub struct Pool {
    pub token_a: String,
    pub token_b: String,
    pub reserve_a: u128,
    pub reserve_b: u128,
    /// Fee in basis points (30 = 0.30%).
    pub fee_bps: u128,
}

pub struct AmmContract {
    pub owner_id: String,
    pub pools: Vec<Pool>,
}

/// Why a call is refused.
#[derive(Clone, Copy, Debug, PartialEq, Eq, Structural)]
pub enum AmmError {
    /// `create_pool` by another account than the owner.
    OwnerOnly,
    /// The swap would give less than the caller's minimum.
    SlippageExceeded,
    /// A private callback called by another account than the contract.
    PrivateMethod,
}

/// The promises a swap creates: `ft_transfer` of `amount_out` of the output
/// token to the caller, then `on_swap_complete` on the contract itself.
pub struct SwapPromise {
    pub token: String,
    pub receiver: String,
    pub amount_out: u128,
    pub attached_deposit: u128,
    pub transfer_gas: u64,
    pub callback_account: String,
    pub callback_gas: u64,
    pub pool_id: u64,
    pub token_in: String,
    pub amount_in: u128,
}

/// The fee taken from `amount_in`: the fee rate is divided before it is
/// multiplied on even block timestamps, after on odd ones.
pub open spec fn fee_of(fee_bps: u128, amount_in: u128, block_timestamp: u64) -> int {
    if block_timestamp % 2 == 0 {
        (fee_bps / FEE_DENOMINATOR) as int * amount_in
    } else {
        (fee_bps * amount_in) / (FEE_DENOMINATOR as int)
    }
}

/// `amount_in` less the fee, or 0 when the fee is larger.
pub open spec fn after_fee(fee_bps: u128, amount_in: u128, block_timestamp: u64) -> int {
    if amount_in >= fee_of(fee_bps, amount_in, block_timestamp) {
        amount_in - fee_of(fee_bps, amount_in, block_timestamp)
    } else {
        0
    }
}

/// The computation of `get_return` stays within `u128` and divides by a
/// non-zero amount.
pub open spec fn return_defined(p: &Pool, amount_in: u128, block_timestamp: u64) -> bool {
    let a = after_fee(p.fee_bps, amount_in, block_timestamp);
    &&& if block_timestamp % 2 == 0 {
        (p.fee_bps / FEE_DENOMINATOR) as int * amount_in <= u128::MAX
    } else {
        p.fee_bps * amount_in <= u128::MAX
    }
    &&& a * p.reserve_b <= u128::MAX
    &&& p.reserve_a + a <= u128::MAX
    &&& p.reserve_a + a != 0
}

/// The output amount of a swap of `amount_in` against pool `p`.
pub open spec fn return_of(p: &Pool, amount_in: u128, block_timestamp: u64) -> int {
    let a = after_fee(p.fee_bps, amount_in, block_timestamp);
    (a * p.reserve_b) / (p.reserve_a + a)
}

impl AmmContract {
    /// The state the contract starts from when it is used before `new`: owned
    /// by the account that called it.
    pub fn default_for(predecessor: &str) -> (r: AmmContract)
        ensures
            r.owner_id@ == predecessor@,
            r.pools@.len() == 0,
    {
        AmmContract { owner_id: String::from_str(predecessor), pools: Vec::new() }
    }

    pub fn new(owner_id: String) -> (r: AmmContract)
        ensures
            r.owner_id == owner_id,
            r.pools@.len() == 0,
    {
        AmmContract { owner_id, pools: Vec::new() }
    }

    /// Adds an empty pool and returns its id. Only the owner can.
    pub fn create_pool(&mut self, caller: &str, token_a: String, token_b: String, fee_bps: u128) -> (r: Result<u64, AmmError>)
        ensures
            caller@ != old(self).owner_id@ ==> r == Err::<u64, AmmError>(AmmError::OwnerOnly) && *final(self) == *old(self),
            caller@ == old(self).owner_id@ ==> {
                &&& r == Ok::<u64, AmmError>(old(self).pools@.len() as u64)
                &&& final(self).owner_id == old(self).owner_id
                &&& final(self).pools@ == old(self).pools@.push(
                    Pool { token_a, token_b, reserve_a: 0, reserve_b: 0, fee_bps },
                )
            },
    {
        if !crate::text::str_eq(caller, self.owner_id.as_str()) {
            return Err(AmmError::OwnerOnly);
        }
        self.pools.push(Pool { token_a, token_b, reserve_a: 0, reserve_b: 0, fee_bps });
        Ok((self.pools.len() - 1) as u64)
    }

    /// How much of the pool's second token `amount_in` of its first buys.
    pub fn get_return(&self, pool_id: u64, amount_in: u128, block_timestamp: u64) -> (r: u128)
        requires
            pool_id < self.pools@.len(),
            return_defined(&self.pools@[pool_id as int], amount_in, block_timestamp),
        ensures
            r == return_of(&self.pools@[pool_id as int], amount_in, block_timestamp),
    {
        let n = self.pools.len();
        assert(pool_id < n);
        let pool = &self.pools[pool_id as usize];
        let dynamic_fee = if block_timestamp % 2 == 0 {
            pool.fee_bps / FEE_DENOMINATOR * amount_in
        } else {
            pool.fee_bps * amount_in / FEE_DENOMINATOR
        };
        let amount_after_fee = amount_in.saturating_sub(dynamic_fee);
        let numerator = amount_after_fee * pool.reserve_b;
        let denominator = pool.reserve_a + amount_after_fee;
        numerator / denominator
    }

    /// Starts a swap of `amount_in` on pool `pool_id`: the output is sent to
    /// the caller first, and the reserves are updated in the callback.
    pub fn swap(
        &mut self,
        caller: &str,
        current_account: &str,
        pool_id: u64,
        amount_in: u128,
        min_amount_out: u128,
        block_timestamp: u64,
    ) -> (r: Result<SwapPromise, AmmError>)
        requires
            pool_id < old(self).pools@.len(),
            return_defined(&old(self).pools@[pool_id as int], amount_in, block_timestamp),
        ensures
            *final(self) == *old(self),
            ({
                let p = &old(self).pools@[pool_id as int];
                let out = return_of(p, amount_in, block_timestamp);
                match r {
                    Ok(s) => {
                        &&& out >= min_amount_out
                        &&& s.token == p.token_b
                        &&& s.receiver@ == caller@
                        &&& s.amount_out == out
                        &&& s.attached_deposit == 1
                        &&& s.transfer_gas == 30 * TGAS
                        &&& s.callback_account@ == current_account@
                        &&& s.callback_gas == 10 * TGAS
                        &&& s.pool_id == pool_id
                        &&& s.token_in == p.token_a
                        &&& s.amount_in == amount_in
                    },
                    Err(e) => out < min_amount_out && e == AmmError::SlippageExceeded,
                }
            }),
    {
        let amount_out = self.get_return(pool_id, amount_in, block_timestamp);
        if amount_out < min_amount_out {
            return Err(AmmError::SlippageExceeded);
        }
        let n = self.pools.len();
        assert(pool_id < n);
        let pool = &self.pools[pool_id as usize];
        Ok(SwapPromise {
            token: pool.token_b.clone(),
            receiver: String::from_str(caller),
            amount_out,
            attached_deposit: 1,
            transfer_gas: 30 * TGAS,
            callback_account: String::from_str(current_account),
            callback_gas: 10 * TGAS,
            pool_id,
            token_in: pool.token_a.clone(),
            amount_in,
        })
    }

    /// The swap callback: on success the input joins the first reserve and
    /// the output leaves the second. Only the contract itself may call it.
    pub fn on_swap_complete(
        &mut self,
        caller: &str,
        current_account: &str,
        pool_id: u64,
        amount_in: u128,
        amount_out: u128,
        transfer_succeeded: bool,
    ) -> (r: Result<(), AmmError>)
        requires
            caller@ == current_account@ && transfer_succeeded ==> {
                &&& pool_id < old(self).pools@.len()
                &&& old(self).pools@[pool_id as int].reserve_a + amount_in <= u128::MAX
                &&& old(self).pools@[pool_id as int].reserve_b >= amount_out
            },
        ensures
            caller@ != current_account@ ==> r == Err::<(), AmmError>(AmmError::PrivateMethod) && *final(self) == *old(self),
            caller@ == current_account@ ==> r is Ok,
            caller@ == current_account@ && !transfer_succeeded ==> *final(self) == *old(self),
            caller@ == current_account@ && transfer_succeeded ==> {
                let p = old(self).pools@[pool_id as int];
                &&& final(self).owner_id == old(self).owner_id
                &&& final(self).pools@ == old(self).pools@.update(
                    pool_id as int,
                    Pool {
                        token_a: p.token_a,
                        token_b: p.token_b,
                        reserve_a: (p.reserve_a + amount_in) as u128,
                        reserve_b: (p.reserve_b - amount_out) as u128,
                        fee_bps: p.fee_bps,
                    },
                )
            },
    {
        if !crate::text::str_eq(caller, current_account) {
            return Err(AmmError::PrivateMethod);
        }
        if transfer_succeeded {
            let n = self.pools.len();
            assert(pool_id < n);
            let i = pool_id as usize;
            let ra = self.pools[i].reserve_a + amount_in;
            let rb = self.pools[i].reserve_b - amount_out;
            let ghost before = self.pools@;
            self.pools[i].reserve_a = ra;
            self.pools[i].reserve_b = rb;
            assert(self.pools@ =~= before.update(
                i as int,
                Pool {
                    token_a: before[i as int].token_a,
                    token_b: before[i as int].token_b,
                    reserve_a: ra,
                    reserve_b: rb,
                    fee_bps: before[i as int].fee_bps,
                },
            ));
        }
        Ok(())
    }

    /// Adds a balanced deposit to pool `pool_id`.
    pub fn add_liquidity(&mut self, pool_id: u64, amount_a: u128, amount_b: u128)
        requires
            pool_id < old(self).pools@.len(),
            old(self).pools@[pool_id as int].reserve_a + amount_a <= u128::MAX,
            old(self).pools@[pool_id as int].reserve_b + amount_b <= u128::MAX,
        ensures
            ({
                let p = old(self).pools@[pool_id as int];
                &&& final(self).owner_id == old(self).owner_id
                &&& final(self).pools@ == old(self).pools@.update(
                    pool_id as int,
                    Pool {
                        token_a: p.token_a,
                        token_b: p.token_b,
                        reserve_a: (p.reserve_a + amount_a) as u128,
                        reserve_b: (p.reserve_b + amount_b) as u128,
                        fee_bps: p.fee_bps,
                    },
                )
            }),
    {
        let n = self.pools.len();
        assert(pool_id < n);
        let i = pool_id as usize;
        let ra = self.pools[i].reserve_a + amount_a;
        let rb = self.pools[i].reserve_b + amount_b;
        let ghost before = self.pools@;
        self.pools[i].reserve_a = ra;
        self.pools[i].reserve_b = rb;
        assert(self.pools@ =~= before.update(
            i as int,
            Pool {
                token_a: before[i as int].token_a,
                token_b: before[i as int].token_b,
                reserve_a: ra,
                reserve_b: rb,
                fee_bps: before[i as int].fee_bps,
            },
        ));
    }

    /// The reserves of pool `pool_id`.
    pub fn get_pool(&self, pool_id: u64) -> (r: (u128, u128))
        requires
            pool_id < self.pools@.len(),
        ensures
            r == (self.pools@[pool_id as int].reserve_a, self.pools@[pool_id as int].reserve_b),
    {
        let n = self.pools.len();
        assert(pool_id < n);
        let p = &self.pools[pool_id as usize];
        (p.reserve_a, p.reserve_b)
    }
}

} // verus!
