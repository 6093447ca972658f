//! An NFT marketplace: list, buy and delist NFTs for a fixed price in NEAR.
//!
//! Its known weaknesses are kept as they are: `set_fee_rate` pays out with no
//! owner check, `buy` passes no approval id, `delist` requires no attached
//! yoctoNEAR, and `on_nft_transfer` pays the seller without looking at the
//! transfer's outcome.
use vstd::prelude::*;
use super::table::Table;

verus! {

pub const TGAS: u64 = 1_000_000_000_000;

pub struct Listing {
    pub seller: String,
    pub nft_contract: String,
    pub token_id: String,
    pub price: u128,
}

pub struct Marketplace {
    pub owner_id: String,
    /// Fee in basis points (250 = 2.5%).
    pub fee_bps: u32,
    /// Listings by `<nft_contract>:<token_id>`.
    pub listings: Table<Listing>,
}

/// Why a call is refused.
#[derive(Clone, Copy, Debug, PartialEq, Eq, Structural)]
pub enum MarketError {
    /// No listing under the key.
    NotListed,
    /// `delist` by an account that is neither the seller nor the owner.
    NotAuthorized,
    /// `buy` with less attached than the price.
    InsufficientDeposit,
    /// The listing was gone when the sale completed.
    ListingRemoved,
    /// A private callback called by another account than the contract.
    PrivateMethod,
}

/// A transfer of NEAR.
pub struct Transfer {
    pub receiver: String,
    pub amount: u128,
}

/// The promises `buy` creates: `nft_transfer` of the token to the buyer on
/// the NFT contract (no approval id, no memo), then `on_nft_transfer` on the
/// marketplace itself.
pub struct BuyPromise {
    pub nft_contract: String,
    pub attached_deposit: u128,
    pub transfer_gas: u64,
    pub receiver: String,
    pub token_id: String,
    pub approval_id: Option<u64>,
    pub memo: Option<String>,
    pub callback_account: String,
    pub callback_gas: u64,
    pub listing_key: String,
    pub buyer: String,
    pub price: u128,
}

/// The key of a listing: `<nft_contract>:<token_id>`.
pub open spec fn listing_key(nft_contract: Seq<char>, token_id: Seq<char>) -> Seq<char> {
    nft_contract + seq![':'] + token_id
}

/// The key of a listing: `<nft_contract>:<token_id>`.
pub fn key_of(nft_contract: &str, token_id: &str) -> (r: String)
    ensures
        r@ == listing_key(nft_contract@, token_id@),
{
    let mut k = String::from_str(nft_contract);
    k.append(":");
    k.append(token_id);
    proof {
        reveal_strlit(":");
    }
    k
}

impl Marketplace {
    /// The state the contract starts from when it is used before `new`: owned
    /// by the account that called it, with a 2.5% fee.
    pub fn default_for(predecessor: &str) -> (r: Marketplace)
        ensures
            r.owner_id@ == predecessor@,
            r.fee_bps == 250,
            r.listings.wf(),
            forall|k: Seq<char>| r.listings.get_spec(k) is None,
    {
        Marketplace { owner_id: String::from_str(predecessor), fee_bps: 250, listings: Table::new() }
    }

    pub fn new(owner_id: String, fee_bps: u32) -> (r: Marketplace)
        ensures
            r.owner_id == owner_id,
            r.fee_bps == fee_bps,
            r.listings.wf(),
            forall|k: Seq<char>| r.listings.get_spec(k) is None,
    {
        Marketplace { owner_id, fee_bps, listings: Table::new() }
    }

    /// Lists an NFT for sale by the caller, replacing any listing of it.
    pub fn list_nft(&mut self, caller: &str, nft_contract: String, token_id: String, price: u128)
        requires
            old(self).listings.wf(),
        ensures
            final(self).listings.wf(),
            final(self).owner_id == old(self).owner_id,
            final(self).fee_bps == old(self).fee_bps,
            forall|k: Seq<char>| k != listing_key(nft_contract@, token_id@) ==> #[trigger] final(self).listings.get_spec(k)
                == old(self).listings.get_spec(k),
            final(self).listings.get_spec(listing_key(nft_contract@, token_id@)) matches Some(l) && l.seller@ == caller@
                && l.nft_contract == nft_contract && l.token_id == token_id && l.price == price,
    {
        let key = key_of(nft_contract.as_str(), token_id.as_str());
        let seller = String::from_str(caller);
        self.listings.insert(key.as_str(), Listing { seller, nft_contract, token_id, price });
    }

    /// Removes a listing; only its seller or the owner may.
    pub fn delist(&mut self, caller: &str, nft_contract: &str, token_id: &str) -> (r: Result<(), MarketError>)
        requires
            old(self).listings.wf(),
        ensures
            final(self).listings.wf(),
            final(self).owner_id == old(self).owner_id,
            final(self).fee_bps == old(self).fee_bps,
            ({
                let key = listing_key(nft_contract@, token_id@);
                match old(self).listings.get_spec(key) {
                    None => r == Err::<(), MarketError>(MarketError::NotListed)
                        && forall|k: Seq<char>| #[trigger] final(self).listings.get_spec(k) == old(self).listings.get_spec(k),
                    Some(l) => if caller@ == l.seller@ || caller@ == old(self).owner_id@ {
                        &&& r is Ok
                        &&& forall|k: Seq<char>| #[trigger] final(self).listings.get_spec(k) == if k == key {
                            None
                        } else {
                            old(self).listings.get_spec(k)
                        }
                    } else {
                        r == Err::<(), MarketError>(MarketError::NotAuthorized)
                            && forall|k: Seq<char>| #[trigger] final(self).listings.get_spec(k) == old(self).listings.get_spec(k)
                    },
                }
            }),
    {
        let key = key_of(nft_contract, token_id);
        let listing = match self.listings.get(key.as_str()) {
            Some(l) => l,
            None => {
                return Err(MarketError::NotListed);
            },
        };
        if !(crate::text::str_eq(caller, listing.seller.as_str()) || crate::text::str_eq(caller, self.owner_id.as_str())) {
            return Err(MarketError::NotAuthorized);
        }
        self.listings.remove(key.as_str());
        Ok(())
    }

    /// Sets the fee rate and pays a tenth of the contract's balance to the
    /// owner, whoever calls.
    pub fn set_fee_rate(&mut self, new_fee_bps: u32, account_balance: u128) -> (r: Transfer)
        ensures
            final(self).fee_bps == new_fee_bps,
            final(self).owner_id == old(self).owner_id,
            final(self).listings == old(self).listings,
            r.receiver == old(self).owner_id,
            r.amount == account_balance / 10,
    {
        self.fee_bps = new_fee_bps;
        Transfer { receiver: self.owner_id.clone(), amount: account_balance / 10 }
    }

    /// Starts a purchase: the NFT is transferred to the caller, and the sale
    /// completes in the callback.
    pub fn buy(
        &mut self,
        caller: &str,
        current_account: &str,
        nft_contract: &str,
        token_id: &str,
        attached_deposit: u128,
    ) -> (r: Result<BuyPromise, MarketError>)
        requires
            old(self).listings.wf(),
        ensures
            *final(self) == *old(self),
            ({
                let key = listing_key(nft_contract@, token_id@);
                match old(self).listings.get_spec(key) {
                    None => r == Err::<BuyPromise, MarketError>(MarketError::NotListed),
                    Some(l) => if attached_deposit < l.price {
                        r == Err::<BuyPromise, MarketError>(MarketError::InsufficientDeposit)
                    } else {
                        r matches Ok(b) && {
                            &&& b.nft_contract == l.nft_contract
                            &&& b.attached_deposit == 1
                            &&& b.transfer_gas == 30 * TGAS
                            &&& b.receiver@ == caller@
                            &&& b.token_id == l.token_id
                            &&& b.approval_id is None
                            &&& b.memo is None
                            &&& b.callback_account@ == current_account@
                            &&& b.callback_gas == 10 * TGAS
                            &&& b.listing_key@ == key
                            &&& b.buyer@ == caller@
                            &&& b.price == l.price
                        }
                    },
                }
            }),
    {
        let key = key_of(nft_contract, token_id);
        let listing = match self.listings.get(key.as_str()) {
            Some(l) => l,
            None => {
                return Err(MarketError::NotListed);
            },
        };
        if attached_deposit < listing.price {
            return Err(MarketError::InsufficientDeposit);
        }
        Ok(BuyPromise {
            nft_contract: listing.nft_contract.clone(),
            attached_deposit: 1,
            transfer_gas: 30 * TGAS,
            receiver: String::from_str(caller),
            token_id: listing.token_id.clone(),
            approval_id: None,
            memo: None,
            callback_account: String::from_str(current_account),
            callback_gas: 10 * TGAS,
            listing_key: key,
            buyer: String::from_str(caller),
            price: listing.price,
        })
    }

    /// The sale callback: removes the listing and pays the seller the price
    /// less the fee, and the owner the fee, whatever became of the transfer.
    /// Only the contract itself may call it.
    pub fn on_nft_transfer(
        &mut self,
        caller: &str,
        current_account: &str,
        listing_key: &str,
        price: u128,
    ) -> (r: Result<(Transfer, Transfer), MarketError>)
        requires
            old(self).listings.wf(),
            caller@ == current_account@ && old(self).listings.get_spec(listing_key@) is Some ==> price
                * old(self).fee_bps <= u128::MAX && price * old(self).fee_bps / 10_000 <= price,
        ensures
            final(self).listings.wf(),
            final(self).owner_id == old(self).owner_id,
            final(self).fee_bps == old(self).fee_bps,
            caller@ != current_account@ ==> r == Err::<(Transfer, Transfer), MarketError>(MarketError::PrivateMethod)
                && forall|k: Seq<char>| #[trigger] final(self).listings.get_spec(k) == old(self).listings.get_spec(k),
            caller@ == current_account@ ==> forall|k: Seq<char>| #[trigger] final(self).listings.get_spec(k) == if k
                == listing_key@ {
                None
            } else {
                old(self).listings.get_spec(k)
            },
            caller@ == current_account@ ==> match old(self).listings.get_spec(listing_key@) {
                None => r == Err::<(Transfer, Transfer), MarketError>(MarketError::ListingRemoved),
                Some(l) => {
                    let fee = price * old(self).fee_bps / 10_000;
                    r matches Ok((to_seller, to_owner)) && to_seller.receiver == l.seller && to_seller.amount == price
                        - fee && to_owner.receiver == old(self).owner_id && to_owner.amount == fee
                },
            },
    {
        if !crate::text::str_eq(caller, current_account) {
            return Err(MarketError::PrivateMethod);
        }
        let listing = match self.listings.remove(listing_key) {
            Some(l) => l,
            None => {
                return Err(MarketError::ListingRemoved);
            },
        };
        let fee = price * (self.fee_bps as u128) / 10_000;
        let seller_payout = price - fee;
        Ok((
            Transfer { receiver: listing.seller, amount: seller_payout },
            Transfer { receiver: self.owner_id.clone(), amount: fee },
        ))
    }

    /// The price of a listed NFT.
    pub fn get_listing(&self, nft_contract: &str, token_id: &str) -> (r: Option<u128>)
        requires
            self.listings.wf(),
        ensures
            r == match self.listings.get_spec(listing_key(nft_contract@, token_id@)) {
                Some(l) => Some(l.price),
                None => None,
            },
    {
        let key = key_of(nft_contract, token_id);
        match self.listings.get(key.as_str()) {
            Some(l) => Some(l.price),
            None => None,
        }
    }
}

} // verus!
