use radix_shardz::amount::{Amount, ATTOS_PER_UNIT};
use radix_shardz::bucket::{Bucket, BucketContents};
use radix_shardz::shardz::{ShardTicket, ShardType, Shardz, ShardzError};

#[test]
fn swap_of_an_empty_batch_mints_nothing() {
    let (mut engine, _initial) = instantiate();
    let empty = Bucket::new_non_fungible(SHARD_TICKET, vec![]);
    let out = engine.swap_tickets(empty, 0).expect("an empty batch is trivially assigned");
    assert!(ids_of(&out).is_empty());
    assert_eq!(engine.shard_count(), 0);
}

#[test]
fn restore_refuses_an_impossible_state() {
    // A ticket with an identifier the counter has not issued yet.
    let r = Shardz::restore(
        SHARD,
        SHARD_TICKET,
        SHARD_NFT,
        ADMIN_BADGE,
        Amount::from_units(0),
        2,
        1,
        vec![(5, ShardTicket { shard_type: None })],
        vec![],
    );
    assert!(r.is_none());

    // A record run that repeats an identifier.
    let r = Shardz::restore(
        SHARD,
        SHARD_TICKET,
        SHARD_NFT,
        ADMIN_BADGE,
        Amount::from_units(0),
        3,
        1,
        vec![
            (1, ShardTicket { shard_type: None }),
            (1, ShardTicket { shard_type: None }),
        ],
        vec![],
    );
    assert!(r.is_none());

    // A sound state comes back with its records intact.
    let engine = Shardz::restore(
        SHARD,
        SHARD_TICKET,
        SHARD_NFT,
        ADMIN_BADGE,
        Amount::from_units(10),
        3,
        1,
        vec![
            (1, ShardTicket { shard_type: None }),
            (2, ShardTicket { shard_type: Some(ShardType::Blue) }),
        ],
        vec![],
    )
    .expect("a sound state restores");
    assert_eq!(engine.ticket_count(), 2);
    assert_eq!(
        engine.get_ticket(2).expect("live"),
        ShardTicket { shard_type: Some(ShardType::Blue) }
    );
    assert_eq!(engine.total_supply().as_attos(), 10 * ATTOS_PER_UNIT);
}

#[test]
fn restored_engine_continues_the_counters() {
    let mut engine = Shardz::restore(
        SHARD,
        SHARD_TICKET,
        SHARD_NFT,
        ADMIN_BADGE,
        Amount::from_units(100),
        7,
        4,
        vec![],
        vec![],
    )
    .expect("a sound state restores");
    let deposit = Bucket::new_fungible(SHARD, Amount::from_units(2));
    let (tickets, _remainder) = engine.bond(deposit).expect("bond");
    assert_eq!(ids_of(&tickets), vec![7, 8]);
}

const SHARD: u64 = 1;
const SHARD_TICKET: u64 = 2;
const SHARD_NFT: u64 = 3;
const ADMIN_BADGE: u64 = 4;
const XRD: u64 = 10;

fn instantiate() -> (Shardz, Bucket) {
    Shardz::instantiate_shardz(SHARD, SHARD_TICKET, SHARD_NFT, ADMIN_BADGE)
}

fn ids_of(bucket: &Bucket) -> Vec<u64> {
    match bucket.contents() {
        BucketContents::NonFungible { ids } => ids.clone(),
        BucketContents::Fungible { .. } => panic!("expected a non-fungible bucket"),
    }
}

#[test]
fn bond_conservation_numbers() {
    // Conservation: bond(5.75) burns exactly 5 units, mints exactly 5
    // tickets, and returns exactly 0.75.
    let (mut engine, mut initial) = instantiate();
    let deposit = initial.take(Amount::from_attos(5_750_000_000_000_000_000));
    let (tickets, remainder) = engine.bond(deposit).expect("bonding succeeds");
    assert_eq!(ids_of(&tickets), vec![1, 2, 3, 4, 5]);
    assert_eq!(remainder.amount().as_attos(), 750_000_000_000_000_000);
    assert_eq!(engine.total_supply().as_attos(), 995 * ATTOS_PER_UNIT);
    assert_eq!(engine.ticket_count(), 5);
}

#[test]
fn bond_below_one_unit_mints_nothing() {
    // Edge case: a deposit below one unit succeeds, mints no ticket, burns
    // nothing and returns the whole deposit.
    let (mut engine, mut initial) = instantiate();
    let deposit = initial.take(Amount::from_attos(999_999_999_999_999_999));
    let (tickets, remainder) = engine.bond(deposit).expect("bonding succeeds");
    assert!(ids_of(&tickets).is_empty());
    assert_eq!(remainder.amount().as_attos(), 999_999_999_999_999_999);
    assert_eq!(engine.total_supply().as_attos(), 1000 * ATTOS_PER_UNIT);
    assert_eq!(engine.ticket_count(), 0);
}

#[test]
fn bond_whole_units_leaves_no_remainder() {
    let (mut engine, mut initial) = instantiate();
    let deposit = initial.take(Amount::from_units(2));
    let (tickets, remainder) = engine.bond(deposit).expect("bonding succeeds");
    assert_eq!(ids_of(&tickets), vec![1, 2]);
    assert_eq!(remainder.amount().as_attos(), 0);
}

#[test]
fn identifiers_are_never_reissued() {
    // Identifier monotonicity: a second bond continues where the first
    // stopped, even after the first batch was swapped away and its shards
    // destroyed.
    let (mut engine, mut initial) = instantiate();
    let (first, _r) = engine.bond(initial.take(Amount::from_units(2))).expect("bond");
    assert_eq!(ids_of(&first), vec![1, 2]);
    engine.set_ticket_shard_type(ADMIN_BADGE, 1, ShardType::Clear).expect("assign");
    engine.set_ticket_shard_type(ADMIN_BADGE, 2, ShardType::Xian).expect("assign");
    let shards = engine.swap_tickets(first, 120).expect("swap");
    assert_eq!(ids_of(&shards), vec![1, 2]);
    let refund = engine.destroy(shards, 120 + 4 * 3600).expect("destroy");
    initial.put(refund);

    // Both counters kept going: nothing is reissued after the burns.
    let (second, _r) = engine.bond(initial.take(Amount::from_units(3))).expect("bond");
    assert_eq!(ids_of(&second), vec![3, 4, 5]);
    engine.set_ticket_shard_type(ADMIN_BADGE, 3, ShardType::Blue).expect("assign");
    engine.set_ticket_shard_type(ADMIN_BADGE, 4, ShardType::Radix).expect("assign");
    engine.set_ticket_shard_type(ADMIN_BADGE, 5, ShardType::Orange).expect("assign");
    let shards = engine.swap_tickets(second, 240).expect("swap");
    assert_eq!(ids_of(&shards), vec![3, 4, 5]);
}

#[test]
fn swap_with_one_unassigned_ticket_changes_nothing() {
    // Swap atomicity: one unassigned ticket in the batch and no shard is
    // minted, no ticket is burned.
    let (mut engine, mut initial) = instantiate();
    let (tickets, _r) = engine.bond(initial.take(Amount::from_units(3))).expect("bond");
    engine.set_ticket_shard_type(ADMIN_BADGE, 1, ShardType::Clear).expect("assign");
    engine.set_ticket_shard_type(ADMIN_BADGE, 3, ShardType::Blue).expect("assign");

    let (returned, err) = engine.swap_tickets(tickets, 0).expect_err("ticket 2 is not drawn");
    assert_eq!(err, ShardzError::IncompleteAssignment);
    assert_eq!(engine.shard_count(), 0);
    assert_eq!(engine.ticket_count(), 3);
    assert_eq!(ids_of(&returned), vec![1, 2, 3]);
    assert_eq!(
        engine.get_ticket(1).expect("still live"),
        ShardTicket { shard_type: Some(ShardType::Clear) }
    );
}

#[test]
fn swap_refuses_foreign_resource() {
    let (mut engine, mut initial) = instantiate();
    let foreign = initial.take(Amount::from_units(1));
    let (_returned, err) = engine.swap_tickets(foreign, 0).expect_err("wrong resource");
    assert_eq!(err, ShardzError::ResourceMismatch);
}

#[test]
fn destroy_refuses_foreign_resource() {
    let (mut engine, mut initial) = instantiate();
    let foreign = initial.take(Amount::from_units(1));
    let (_returned, err) = engine.destroy(foreign, u64::MAX).expect_err("wrong resource");
    assert_eq!(err, ShardzError::ResourceMismatch);
}

#[test]
fn destroy_one_young_shard_blocks_the_batch() {
    // Cooldown atomicity: a batch with one shard younger than 4 hours is
    // refused whole, and nothing changes.
    let (mut engine, mut initial) = instantiate();
    let (tickets, _r) = engine.bond(initial.take(Amount::from_units(1))).expect("bond");
    engine.set_ticket_shard_type(ADMIN_BADGE, 1, ShardType::Emerald).expect("assign");
    let old_shards = engine.swap_tickets(tickets, 0).expect("swap");

    let (tickets, _r) = engine.bond(initial.take(Amount::from_units(1))).expect("bond");
    engine.set_ticket_shard_type(ADMIN_BADGE, 2, ShardType::Scrypto).expect("assign");
    let mut batch = engine.swap_tickets(tickets, 2 * 3600).expect("swap");
    batch.put(old_shards);

    // At 4h the first shard is old enough, the second is not.
    let (returned, err) = engine.destroy(batch, 4 * 3600).expect_err("one shard is young");
    assert_eq!(err, ShardzError::CooldownNotElapsed);
    assert_eq!(engine.shard_count(), 2);
    assert_eq!(engine.total_supply().as_attos(), 998 * ATTOS_PER_UNIT);

    // Two more hours and the whole batch goes through.
    let refund = engine.destroy(returned, 6 * 3600).expect("all old enough");
    assert_eq!(refund.amount().as_attos(), 2 * ATTOS_PER_UNIT);
    assert_eq!(engine.shard_count(), 0);
}

#[test]
fn cooldown_is_compared_at_minute_precision() {
    let (mut engine, mut initial) = instantiate();
    // Minting at 59 s rounds the stamp down to the whole minute 0.
    let (tickets, _r) = engine.bond(initial.take(Amount::from_units(1))).expect("bond");
    engine.set_ticket_shard_type(ADMIN_BADGE, 1, ShardType::Yellow).expect("assign");
    let shards = engine.swap_tickets(tickets, 59).expect("swap");
    let data = engine.get_shard(1).expect("live");
    assert_eq!(data.mint_time, 0);

    // 14,459 s rounds down to 14,400 s: exactly 4 hours after the stamp.
    let refund = engine.destroy(shards, 14_459).expect("4 hours have elapsed");
    assert_eq!(refund.amount().as_attos(), ATTOS_PER_UNIT);
}

#[test]
fn cooldown_not_done_one_rounded_minute_early() {
    let (mut engine, mut initial) = instantiate();
    // Minting at 60 s keeps the stamp at 60.
    let (tickets, _r) = engine.bond(initial.take(Amount::from_units(1))).expect("bond");
    engine.set_ticket_shard_type(ADMIN_BADGE, 1, ShardType::Yellow).expect("assign");
    let shards = engine.swap_tickets(tickets, 60).expect("swap");

    // 14,459 s still rounds down to 14,400 s, short of 60 + 14,400.
    let (_returned, err) = engine.destroy(shards, 14_459).expect_err("one minute short");
    assert_eq!(err, ShardzError::CooldownNotElapsed);
}

#[test]
fn assignment_is_write_once() {
    let (mut engine, mut initial) = instantiate();
    engine.bond(initial.take(Amount::from_units(1))).expect("bond");
    engine.set_ticket_shard_type(ADMIN_BADGE, 1, ShardType::Clear).expect("first write");
    let err = engine
        .set_ticket_shard_type(ADMIN_BADGE, 1, ShardType::Xian)
        .expect_err("the slot is never reset");
    assert_eq!(err, ShardzError::AlreadyAssigned);
    assert_eq!(
        engine.get_ticket(1).expect("live"),
        ShardTicket { shard_type: Some(ShardType::Clear) }
    );
}

#[test]
fn assignment_needs_a_live_ticket() {
    let (mut engine, mut initial) = instantiate();
    engine.bond(initial.take(Amount::from_units(1))).expect("bond");
    let err = engine
        .set_ticket_shard_type(ADMIN_BADGE, 99, ShardType::Clear)
        .expect_err("no such ticket");
    assert_eq!(err, ShardzError::TicketNotFound);
}

#[test]
fn shard_metadata_follows_the_fixed_table() {
    // Every variant has its mapping; spot-check the minted record too.
    let names = [
        (ShardType::Clear, "Clear Shard"),
        (ShardType::Yellow, "Yellow Shard"),
        (ShardType::Orange, "Orange Shard"),
        (ShardType::Blue, "Blue Shard"),
        (ShardType::Emerald, "Emerald Shard"),
        (ShardType::Scrypto, "Scrypto Shard"),
        (ShardType::Radix, "Radix Shard"),
        (ShardType::Xian, "Xian Shard"),
    ];
    for (t, expected) in names {
        assert_eq!(t.name(), expected);
        assert!(t.url().starts_with("https://ipfs.dexteronradix.com/ipfs/"));
    }
    assert_eq!(
        ShardType::Blue.url(),
        "https://ipfs.dexteronradix.com/ipfs/bafybeievssxxue2k54g3eh2p46xuwnlrqkw4tebntyuy5jqdwvle55n2be/"
    );

    let (mut engine, mut initial) = instantiate();
    let (tickets, _r) = engine.bond(initial.take(Amount::from_units(1))).expect("bond");
    engine.set_ticket_shard_type(ADMIN_BADGE, 1, ShardType::Radix).expect("assign");
    engine.swap_tickets(tickets, 3601).expect("swap");
    let data = engine.get_shard(1).expect("live");
    assert_eq!(data.name, "Radix Shard");
    assert_eq!(
        data.key_image_url,
        "https://ipfs.dexteronradix.com/ipfs/bafybeic4j2jv35mtqz2t4hoyaujh4ksknlsu2dfheybyigiwufurvquu2m/"
    );
    assert_eq!(data.shard_type, ShardType::Radix);
    assert_eq!(data.fungible_address, SHARD);
    assert_eq!(data.mint_time, 3600);
}

#[test]
fn full_scenario_restores_the_supply() {
    // Bond 3.23 units: 3 tickets, 0.23 back, supply down by 3.
    let (mut engine, mut initial) = instantiate();
    let deposit = initial.take(Amount::from_attos(3_230_000_000_000_000_000));
    let (tickets, remainder) = engine.bond(deposit).expect("bond");
    assert_eq!(ids_of(&tickets), vec![1, 2, 3]);
    assert_eq!(remainder.amount().as_attos(), 230_000_000_000_000_000);
    assert_eq!(engine.total_supply().as_attos(), 997 * ATTOS_PER_UNIT);
    initial.put(remainder);

    // Assign all three, swap: 3 shards with the matching types, no tickets.
    engine.set_ticket_shard_type(ADMIN_BADGE, 1, ShardType::Clear).expect("assign");
    engine.set_ticket_shard_type(ADMIN_BADGE, 2, ShardType::Emerald).expect("assign");
    engine.set_ticket_shard_type(ADMIN_BADGE, 3, ShardType::Xian).expect("assign");
    let swap_time: u64 = 600;
    let shards = engine.swap_tickets(tickets, swap_time).expect("swap");
    assert_eq!(ids_of(&shards), vec![1, 2, 3]);
    assert_eq!(engine.ticket_count(), 0);
    assert_eq!(engine.get_shard(1).expect("live").shard_type, ShardType::Clear);
    assert_eq!(engine.get_shard(2).expect("live").shard_type, ShardType::Emerald);
    assert_eq!(engine.get_shard(3).expect("live").shard_type, ShardType::Xian);

    // An immediate destroy is refused whole.
    let (shards, err) = engine.destroy(shards, swap_time).expect_err("too young");
    assert_eq!(err, ShardzError::CooldownNotElapsed);

    // After exactly four hours it succeeds and closes the loop.
    let refund = engine.destroy(shards, swap_time + 4 * 3600).expect("old enough");
    assert_eq!(refund.amount().as_attos(), 3 * ATTOS_PER_UNIT);
    initial.put(refund);
    assert_eq!(engine.total_supply().as_attos(), 1000 * ATTOS_PER_UNIT);
    assert_eq!(initial.amount().as_attos(), 1000 * ATTOS_PER_UNIT);
    assert_eq!(engine.ticket_count(), 0);
    assert_eq!(engine.shard_count(), 0);
}

#[test]
fn amount_floor_and_units() {
    let a = Amount::from_attos(7_999_999_999_999_999_999);
    assert_eq!(a.floor().as_attos(), 7 * ATTOS_PER_UNIT);
    assert_eq!(a.to_whole_units(), 7);
    let b = Amount::from_units(3);
    assert_eq!(b.floor().as_attos(), b.as_attos());
    assert!(a.ge(&b));
    assert!(!b.ge(&a));
    assert_eq!(a.minus(&b).as_attos(), 4_999_999_999_999_999_999);
    assert_eq!(b.plus(&b).as_attos(), 6 * ATTOS_PER_UNIT);
}

#[test]
fn bucket_take_and_put_conserve() {
    let mut bucket = Bucket::new_fungible(XRD, Amount::from_units(10));
    let taken = bucket.take(Amount::from_attos(1_500_000_000_000_000_000));
    assert_eq!(bucket.amount().as_attos(), 8_500_000_000_000_000_000);
    assert_eq!(taken.amount().as_attos(), 1_500_000_000_000_000_000);
    bucket.put(taken);
    assert_eq!(bucket.amount().as_attos(), 10 * ATTOS_PER_UNIT);
}
