use radix_shardz::amount::{Amount, ATTOS_PER_UNIT};
use radix_shardz::bucket::{Bucket, BucketContents};
use radix_shardz::shardz::{ShardTicket, ShardType, Shardz, ShardzError};

const SHARD: u64 = 1;
const SHARD_TICKET: u64 = 2;
const SHARD_NFT: u64 = 3;
const ADMIN_BADGE: u64 = 4;
const XRD: u64 = 10;

/// One whole unit of 3.23, in attos.
const DEC_3_23: u128 = 3_230_000_000_000_000_000;

fn instantiate() -> (Shardz, Bucket) {
    Shardz::instantiate_shardz(SHARD, SHARD_TICKET, SHARD_NFT, ADMIN_BADGE)
}

fn sorted_ids(bucket: &Bucket) -> Vec<u64> {
    match bucket.contents() {
        BucketContents::NonFungible { ids } => {
            let mut ids = ids.clone();
            ids.sort();
            ids
        },
        BucketContents::Fungible { .. } => panic!("expected a non-fungible bucket"),
    }
}

fn assign_all_eight(engine: &mut Shardz) {
    let types = [
        ShardType::Clear,
        ShardType::Yellow,
        ShardType::Orange,
        ShardType::Blue,
        ShardType::Emerald,
        ShardType::Scrypto,
        ShardType::Radix,
        ShardType::Xian,
    ];
    for (i, t) in types.iter().enumerate() {
        engine
            .set_ticket_shard_type(ADMIN_BADGE, (i + 1) as u64, *t)
            .expect("the designated badge may assign");
    }
}

#[test]
fn test_instantiation() {
    let (engine, initial) = instantiate();

    // Check that the three resource kinds exist and are distinct.
    let _ = &engine;
    assert_ne!(SHARD, SHARD_TICKET);
    assert_ne!(SHARD, SHARD_NFT);
    assert_ne!(SHARD_TICKET, SHARD_NFT);

    // Check that the admin received 1000 Shards.
    assert_eq!(initial.resource_address(), SHARD);
    assert_eq!(initial.amount().as_attos(), 1000 * ATTOS_PER_UNIT);
    assert_eq!(engine.total_supply().as_attos(), 1000 * ATTOS_PER_UNIT);
}

#[test]
fn test_bond() {
    let (mut engine, mut initial) = instantiate();

    let deposit = initial.take(Amount::from_attos(DEC_3_23));
    let (tickets, remainder) = engine.bond(deposit).expect("bonding the fungible succeeds");

    let mut balance = initial;
    balance.put(remainder);
    assert_eq!(balance.amount().as_attos(), 997 * ATTOS_PER_UNIT);
    assert_eq!(engine.shard_count(), 0);

    let shard_tickets = sorted_ids(&tickets);
    assert_eq!(shard_tickets, vec![1, 2, 3]);

    for i in 1..4 {
        let ticket_data = engine.get_ticket(i).expect("the ticket is live");
        assert_eq!(ticket_data, ShardTicket { shard_type: None })
    }
}

#[test]
fn test_bond_xrd_fails() {
    let (mut engine, _initial) = instantiate();

    let foreign = Bucket::new_fungible(XRD, Amount::from_attos(DEC_3_23));
    let (returned, err) = engine.bond(foreign).expect_err("a foreign deposit is refused");
    assert_eq!(err, ShardzError::ResourceMismatch);
    assert_eq!(returned.resource_address(), XRD);
    assert_eq!(returned.amount().as_attos(), DEC_3_23);
}

#[test]
fn test_set_ticket_data() {
    let (mut engine, mut initial) = instantiate();

    let deposit = initial.take(Amount::from_attos(DEC_3_23));
    engine.bond(deposit).expect("bonding the fungible succeeds");

    engine
        .set_ticket_shard_type(ADMIN_BADGE, 1, ShardType::Blue)
        .expect("the designated badge may assign");

    let ticket_data = engine.get_ticket(1).expect("the ticket is live");
    assert_eq!(ticket_data, ShardTicket { shard_type: Some(ShardType::Blue) });
}

#[test]
fn test_random_cannot_set() {
    let (mut engine, mut initial) = instantiate();

    let deposit = initial.take(Amount::from_attos(DEC_3_23));
    engine.bond(deposit).expect("bonding the fungible succeeds");

    let err = engine
        .set_ticket_shard_type(XRD, 1, ShardType::Blue)
        .expect_err("a random credential may not assign");
    assert_eq!(err, ShardzError::UnauthorizedMutation);
}

#[test]
fn test_all_swap_combinations() {
    let (mut engine, mut initial) = instantiate();

    let deposit = initial.take(Amount::from_units(8));
    let (tickets, _remainder) = engine.bond(deposit).expect("bonding the fungible succeeds");

    assign_all_eight(&mut engine);

    let nft_bucket = engine.swap_tickets(tickets, 0).expect("a fully assigned batch swaps");

    assert_eq!(engine.ticket_count(), 0);
    let nft_owned = sorted_ids(&nft_bucket);
    assert_eq!(nft_owned, vec![1, 2, 3, 4, 5, 6, 7, 8]);
    for nft in nft_owned {
        let data = engine.get_shard(nft).expect("the shard is live");
        match nft {
            1 => assert_eq!(data.shard_type, ShardType::Clear),
            2 => assert_eq!(data.shard_type, ShardType::Yellow),
            3 => assert_eq!(data.shard_type, ShardType::Orange),
            4 => assert_eq!(data.shard_type, ShardType::Blue),
            5 => assert_eq!(data.shard_type, ShardType::Emerald),
            6 => assert_eq!(data.shard_type, ShardType::Scrypto),
            7 => assert_eq!(data.shard_type, ShardType::Radix),
            8 => assert_eq!(data.shard_type, ShardType::Xian),
            _ => panic!(),
        }
    }
}

#[test]
fn test_all_swap_combination_and_destroy_fails_reroll() {
    let (mut engine, mut initial) = instantiate();

    let deposit = initial.take(Amount::from_units(8));
    let (tickets, _remainder) = engine.bond(deposit).expect("bonding the fungible succeeds");

    assign_all_eight(&mut engine);

    let nft_bucket = engine.swap_tickets(tickets, 0).expect("a fully assigned batch swaps");

    let (_returned, err) = engine
        .destroy(nft_bucket, 0)
        .expect_err("there is a 4 hour delay between minting and rerolling");
    assert_eq!(err, ShardzError::CooldownNotElapsed);
}

#[test]
fn test_all_swap_combination_and_destroy() {
    let (mut engine, mut initial) = instantiate();

    let deposit = initial.take(Amount::from_units(8));
    let (tickets, _remainder) = engine.bond(deposit).expect("bonding the fungible succeeds");

    assign_all_eight(&mut engine);

    let nft_bucket = engine.swap_tickets(tickets, 0).expect("a fully assigned batch swaps");

    // 4h = 3600*4 s
    let refund = engine.destroy(nft_bucket, 3600 * 4).expect("the cooldown has elapsed");

    let mut balance = initial;
    balance.put(refund);
    assert_eq!(balance.amount().as_attos(), 1000 * ATTOS_PER_UNIT);
    assert_eq!(engine.ticket_count(), 0);
    assert_eq!(engine.shard_count(), 0);
}
