use rustle::contracts::amm::{AmmContract, AmmError, TGAS};
use rustle::contracts::marketplace::{key_of, MarketError, Marketplace};
use rustle::contracts::staking::{StakerInfo, StakingError, StakingPool};
use rustle::contracts::table::Table;

#[test]
fn table_reads_back_writes() {
    let mut t: Table<u32> = Table::new();
    t.insert("a", 1);
    t.insert("b", 2);
    t.insert("a", 3);
    assert_eq!(t.get("a"), Some(&3));
    assert_eq!(t.get("b"), Some(&2));
    assert_eq!(t.get("c"), None);
    assert_eq!(t.entries.len(), 2);
    assert_eq!(t.remove("a"), Some(3));
    assert_eq!(t.get("a"), None);
    assert_eq!(t.remove("a"), None);
    assert_eq!(t.get("b"), Some(&2));
}

fn amm_with_pool(fee_bps: u128) -> AmmContract {
    let mut c = AmmContract::new("owner.near".to_string());
    assert_eq!(c.create_pool("owner.near", "a.near".to_string(), "b.near".to_string(), fee_bps), Ok(0));
    c.add_liquidity(0, 1_000, 2_000);
    c
}

#[test]
fn amm_owner_creates_pools() {
    let mut c = AmmContract::default_for("owner.near");
    assert_eq!(c.create_pool("mallory.near", "a".to_string(), "b".to_string(), 30), Err(AmmError::OwnerOnly));
    assert_eq!(c.pools.len(), 0);
    assert_eq!(c.create_pool("owner.near", "a".to_string(), "b".to_string(), 30), Ok(0));
    assert_eq!(c.create_pool("owner.near", "c".to_string(), "d".to_string(), 30), Ok(1));
}

#[test]
fn amm_fee_division_order_depends_on_timestamp() {
    let c = amm_with_pool(30);
    // even timestamp: 30 / 10000 == 0, no fee: 100 * 2000 / 1100
    assert_eq!(c.get_return(0, 100, 2), 181);
    // odd timestamp: fee 30 * 100 / 10000 == 0 as well for small amounts
    assert_eq!(c.get_return(0, 100, 3), 181);
    // a larger amount pays a fee on odd timestamps only
    assert_eq!(c.get_return(0, 10_000, 2), 10_000 * 2_000 / 11_000);
    assert_eq!(c.get_return(0, 10_000, 3), 9_970 * 2_000 / 10_970);
}

#[test]
fn amm_swap_and_callback() {
    let mut c = amm_with_pool(30);
    let s = c.swap("alice.near", "amm.near", 0, 100, 100, 2).ok().unwrap();
    assert_eq!(s.token, "b.near");
    assert_eq!(s.receiver, "alice.near");
    assert_eq!(s.amount_out, 181);
    assert_eq!(s.transfer_gas, 30 * TGAS);
    assert_eq!(s.callback_gas, 10 * TGAS);
    assert_eq!(s.token_in, "a.near");
    assert!(matches!(c.swap("alice.near", "amm.near", 0, 100, 182, 2), Err(AmmError::SlippageExceeded)));
    assert_eq!(c.on_swap_complete("alice.near", "amm.near", 0, 100, 181, true), Err(AmmError::PrivateMethod));
    assert_eq!(c.get_pool(0), (1_000, 2_000));
    assert_eq!(c.on_swap_complete("amm.near", "amm.near", 0, 100, 181, false), Ok(()));
    assert_eq!(c.get_pool(0), (1_000, 2_000));
    assert_eq!(c.on_swap_complete("amm.near", "amm.near", 0, 100, 181, true), Ok(()));
    assert_eq!(c.get_pool(0), (1_100, 1_819));
}

#[test]
fn staking_flow() {
    let mut p = StakingPool::new("owner.near".to_string());
    assert_eq!(p.stake("alice.near", 0, 0), Err(StakingError::NothingAttached));
    let day = 43_200_000_000_000u64 * 3;
    assert_eq!(p.stake("alice.near", 500, day), Ok(()));
    assert_eq!(p.stake("alice.near", 250, day * 2), Ok(()));
    assert_eq!(p.get_staked("alice.near"), 750);
    assert_eq!(p.stakers.get("alice.near"), Some(&StakerInfo { balance: 750, reward_debt: 0, start_epoch: 3 }));
    assert_eq!(p.total_staked(), 750);
    assert!(matches!(p.unstake("bob.near", "pool.near", 0), Err(StakingError::NotStaked)));
    let w = p.unstake("alice.near", "pool.near", 50).ok().unwrap();
    assert_eq!(w.receiver, "alice.near");
    assert_eq!(w.amount, 800);
    assert_eq!(p.get_staked("alice.near"), 0);
    assert_eq!(p.total_staked(), 0);
    assert_eq!(p.on_withdraw("alice.near", "pool.near", "alice.near", 800, false), Err(StakingError::PrivateMethod));
    assert_eq!(p.on_withdraw("pool.near", "pool.near", "alice.near", 800, false), Ok(()));
    assert_eq!(p.get_staked("alice.near"), 800);
    assert_eq!(p.total_staked(), 800);
}

#[test]
fn marketplace_flow() {
    let mut m = Marketplace::new("owner.near".to_string(), 250);
    assert_eq!(key_of("nft.near", "7"), "nft.near:7");
    m.list_nft("seller.near", "nft.near".to_string(), "7".to_string(), 1_000);
    assert_eq!(m.get_listing("nft.near", "7"), Some(1_000));
    assert!(matches!(m.buy("bob.near", "market.near", "nft.near", "8", 1_000), Err(MarketError::NotListed)));
    assert!(matches!(m.buy("bob.near", "market.near", "nft.near", "7", 999), Err(MarketError::InsufficientDeposit)));
    let b = m.buy("bob.near", "market.near", "nft.near", "7", 1_000).ok().unwrap();
    assert_eq!(b.listing_key, "nft.near:7");
    assert_eq!(b.approval_id, None);
    assert_eq!(b.receiver, "bob.near");
    let (to_seller, to_owner) = m.on_nft_transfer("market.near", "market.near", "nft.near:7", 1_000).ok().unwrap();
    assert_eq!((to_seller.receiver.as_str(), to_seller.amount), ("seller.near", 975));
    assert_eq!((to_owner.receiver.as_str(), to_owner.amount), ("owner.near", 25));
    assert_eq!(m.get_listing("nft.near", "7"), None);
    assert!(matches!(m.on_nft_transfer("market.near", "market.near", "nft.near:7", 1_000), Err(MarketError::ListingRemoved)));
}

#[test]
fn marketplace_delist_and_fees() {
    let mut m = Marketplace::default_for("owner.near");
    assert_eq!(m.fee_bps, 250);
    m.list_nft("seller.near", "nft.near".to_string(), "1".to_string(), 10);
    assert_eq!(m.delist("mallory.near", "nft.near", "1"), Err(MarketError::NotAuthorized));
    assert_eq!(m.delist("owner.near", "nft.near", "1"), Ok(()));
    assert_eq!(m.delist("owner.near", "nft.near", "1"), Err(MarketError::NotListed));
    let t = m.set_fee_rate(100, 1_000);
    assert_eq!(m.fee_bps, 100);
    assert_eq!((t.receiver.as_str(), t.amount), ("owner.near", 100));
}
