use vstd::prelude::*;

use std::collections::HashMap;

use crate::amount::{ATTOS_PER_UNIT, Amount};
use crate::bucket::{Bucket, BucketContents, BucketView};

verus! {

broadcast use vstd::std_specs::hash::group_hash_axioms;

/// Seconds a shard must age after minting before destroy will take it back.
pub const COOLDOWN_SECONDS: u64 = 14400;

/// Whole units of the fungible resource minted once, at instantiation.
pub const INITIAL_SUPPLY_UNITS: u64 = 1000;

/// The closed set of shard types an authority can assign to a ticket.
#[derive(Clone, Copy, PartialEq, Eq, Structural, Debug)]
pub enum ShardType {
    Clear,
    Yellow,
    Orange,
    Blue,
    Emerald,
    Scrypto,
    Radix,
    Xian,
}

/// The display name each shard type carries, fixed per variant.
pub open spec fn name_spec(t: ShardType) -> Seq<char> {
    match t {
        ShardType::Clear => "Clear Shard"@,
        ShardType::Yellow => "Yellow Shard"@,
        ShardType::Orange => "Orange Shard"@,
        ShardType::Blue => "Blue Shard"@,
        ShardType::Emerald => "Emerald Shard"@,
        ShardType::Scrypto => "Scrypto Shard"@,
        ShardType::Radix => "Radix Shard"@,
        ShardType::Xian => "Xian Shard"@,
    }
}

/// The media reference each shard type carries, fixed per variant.
pub open spec fn url_spec(t: ShardType) -> Seq<char> {
    match t {
        ShardType::Clear => "https://ipfs.dexteronradix.com/ipfs/bafybeiaqk6nm4mxiziok5kuyi4mimazhq3igltzykptt6xy2gc5smhbssu/"@,
        ShardType::Yellow => "https://ipfs.dexteronradix.com/ipfs/bafybeihytefgkopyfga2z4fj7ebif45agp4miojz2jifpfzn6e7gguw5iq/"@,
        ShardType::Orange => "https://ipfs.dexteronradix.com/ipfs/bafybeighppalg2cdl2ianj7smq3hzy77uxa2pt2ua3diasijpd3xhpk3ay/"@,
        ShardType::Blue => "https://ipfs.dexteronradix.com/ipfs/bafybeievssxxue2k54g3eh2p46xuwnlrqkw4tebntyuy5jqdwvle55n2be/"@,
        ShardType::Emerald => "https://ipfs.dexteronradix.com/ipfs/bafybeibgcuwuofpe4a4537r3gjrpqqukqhmc5w3wpltqsdqtbdvyqmzidq/"@,
        ShardType::Scrypto => "https://ipfs.dexteronradix.com/ipfs/bafybeid2tvh6hy5oqupqjhhn2nbxasube4z22ikgiq4nednkimta6ckdai/"@,
        ShardType::Radix => "https://ipfs.dexteronradix.com/ipfs/bafybeic4j2jv35mtqz2t4hoyaujh4ksknlsu2dfheybyigiwufurvquu2m/"@,
        ShardType::Xian => "https://ipfs.dexteronradix.com/ipfs/bafybeie7ytmrxskdsxr4e2axci6k2756jelfldcgannia5575yqj5pqbci/"@,
    }
}

impl ShardType {
    /// The display name a shard of this type is minted with. The match is
    /// exhaustive, so a variant without a mapping cannot compile.
    pub fn name(&self) -> (r: String)
        ensures
            r@ == name_spec(*self),
    {
        match self {
            ShardType::Clear => "Clear Shard".to_owned(),
            ShardType::Yellow => "Yellow Shard".to_owned(),
            ShardType::Orange => "Orange Shard".to_owned(),
            ShardType::Blue => "Blue Shard".to_owned(),
            ShardType::Emerald => "Emerald Shard".to_owned(),
            ShardType::Scrypto => "Scrypto Shard".to_owned(),
            ShardType::Radix => "Radix Shard".to_owned(),
            ShardType::Xian => "Xian Shard".to_owned(),
        }
    }

    /// The media reference a shard of this type is minted with.
    pub fn url(&self) -> (r: String)
        ensures
            r@ == url_spec(*self),
    {
        match self {
            ShardType::Clear => "https://ipfs.dexteronradix.com/ipfs/bafybeiaqk6nm4mxiziok5kuyi4mimazhq3igltzykptt6xy2gc5smhbssu/".to_owned(),
            ShardType::Yellow => "https://ipfs.dexteronradix.com/ipfs/bafybeihytefgkopyfga2z4fj7ebif45agp4miojz2jifpfzn6e7gguw5iq/".to_owned(),
            ShardType::Orange => "https://ipfs.dexteronradix.com/ipfs/bafybeighppalg2cdl2ianj7smq3hzy77uxa2pt2ua3diasijpd3xhpk3ay/".to_owned(),
            ShardType::Blue => "https://ipfs.dexteronradix.com/ipfs/bafybeievssxxue2k54g3eh2p46xuwnlrqkw4tebntyuy5jqdwvle55n2be/".to_owned(),
            ShardType::Emerald => "https://ipfs.dexteronradix.com/ipfs/bafybeibgcuwuofpe4a4537r3gjrpqqukqhmc5w3wpltqsdqtbdvyqmzidq/".to_owned(),
            ShardType::Scrypto => "https://ipfs.dexteronradix.com/ipfs/bafybeid2tvh6hy5oqupqjhhn2nbxasube4z22ikgiq4nednkimta6ckdai/".to_owned(),
            ShardType::Radix => "https://ipfs.dexteronradix.com/ipfs/bafybeic4j2jv35mtqz2t4hoyaujh4ksknlsu2dfheybyigiwufurvquu2m/".to_owned(),
            ShardType::Xian => "https://ipfs.dexteronradix.com/ipfs/bafybeie7ytmrxskdsxr4e2axci6k2756jelfldcgannia5575yqj5pqbci/".to_owned(),
        }
    }
}

/// A ticket non-fungible's data: one slot for a shard type, unset at mint,
/// written at most once by an external authority, never reset.
#[derive(Clone, Copy, PartialEq, Debug)]
pub struct ShardTicket {
    pub shard_type: Option<ShardType>,
}

/// A shard non-fungible's data, all of it fixed when the shard is minted.
#[derive(Debug)]
pub struct ShardNFT {
    pub name: String,
    pub key_image_url: String,
    pub shard_type: ShardType,
    pub fungible_address: u64,
    pub mint_time: u64,
}

/// Mathematical image of one shard record.
pub struct ShardView {
    pub name: Seq<char>,
    pub key_image_url: Seq<char>,
    pub shard_type: ShardType,
    pub fungible_address: u64,
    pub mint_time: u64,
}

impl View for ShardNFT {
    type V = ShardView;

    open spec fn view(&self) -> ShardView {
        ShardView {
            name: self.name@,
            key_image_url: self.key_image_url@,
            shard_type: self.shard_type,
            fungible_address: self.fungible_address,
            mint_time: self.mint_time,
        }
    }
}

/// Why an operation was refused. Every refusal leaves the engine unchanged.
#[derive(Clone, Copy, PartialEq, Eq, Structural, Debug)]
pub enum ShardzError {
    /// A container of the wrong resource kind was supplied.
    ResourceMismatch,
    /// A ticket in a swap batch has no shard type assigned yet.
    IncompleteAssignment,
    /// A shard in a destroy batch has not aged past the cooldown.
    CooldownNotElapsed,
    /// The presented credential does not authorize the mutation.
    UnauthorizedMutation,
    /// No live ticket carries the given identifier.
    TicketNotFound,
    /// The ticket's slot is already set, and it is never reset.
    AlreadyAssigned,
}

/// Mathematical image of the whole engine: the three resource kinds, the
/// authority credential, the two identifier counters, the fungible supply and
/// the live non-fungible records of both kinds.
pub struct ShardzView {
    pub fungible_address: u64,
    pub ticket_address: u64,
    pub nft_address: u64,
    pub badge_address: u64,
    pub fungible_supply: int,
    pub ticket_counter: u64,
    pub nft_counter: u64,
    pub tickets: Map<u64, Option<ShardType>>,
    pub shards: Map<u64, ShardView>,
}

impl ShardzView {
    /// The engine's invariant: the resource kinds are distinct, both counters
    /// start at one and every live record's identifier was drawn below its
    /// counter, so a future mint can never collide with a live record.
    pub open spec fn wf(self) -> bool {
        &&& self.fungible_address != self.ticket_address
        &&& self.fungible_address != self.nft_address
        &&& self.ticket_address != self.nft_address
        &&& 1 <= self.ticket_counter
        &&& 1 <= self.nft_counter
        &&& 0 <= self.fungible_supply <= u128::MAX
        &&& self.tickets.dom().finite()
        &&& self.shards.dom().finite()
        &&& forall|id: u64| #[trigger] self.tickets.contains_key(id) ==> 1 <= id < self.ticket_counter
        &&& forall|id: u64| #[trigger] self.shards.contains_key(id) ==> 1 <= id < self.nft_counter
    }
}

/// The ledger time in seconds, rounded down to a whole minute.
pub open spec fn to_minutes_spec(t: u64) -> u64 {
    (t - t % 60) as u64
}

/// The identifiers a run of `n` mints draws when the counter stands at
/// `start`: consecutive, ascending, starting at the counter itself.
pub open spec fn minted_ids(start: u64, n: int) -> Seq<u64> {
    Seq::new(n as nat, |i: int| (start + i) as u64)
}

/// The ticket records after `n` fresh unassigned tickets are minted with
/// identifiers `start..start + n`.
pub open spec fn with_fresh_tickets(
    tickets: Map<u64, Option<ShardType>>,
    start: u64,
    n: int,
) -> Map<u64, Option<ShardType>> {
    tickets.union_prefer_right(
        Map::new(|id: u64| start <= id < start + n, |id: u64| None::<ShardType>),
    )
}

/// Every ticket of the batch exists and already carries a shard type.
pub open spec fn all_assigned(tickets: Map<u64, Option<ShardType>>, ids: Seq<u64>) -> bool {
    forall|i: int|
        0 <= i < ids.len() ==> tickets.contains_key(#[trigger] ids[i]) && tickets[ids[i]] is Some
}

/// The record a swap mints for a ticket carrying `t`: name and media
/// reference derived from the type, the fungible kind as back-reference, and
/// the mint time at whole-minute precision.
pub open spec fn minted_shard(t: ShardType, fungible_address: u64, mint_time: u64) -> ShardView {
    ShardView {
        name: name_spec(t),
        key_image_url: url_spec(t),
        shard_type: t,
        fungible_address,
        mint_time,
    }
}

/// The shard records after one shard is minted per batch ticket, in batch
/// order, with identifiers drawn consecutively from the shard counter.
pub open spec fn with_minted_shards(pre: ShardzView, ids: Seq<u64>, mint_time: u64) -> Map<
    u64,
    ShardView,
> {
    pre.shards.union_prefer_right(
        Map::new(
            |id: u64| pre.nft_counter <= id < pre.nft_counter + ids.len(),
            |id: u64|
                minted_shard(
                    pre.tickets[ids[id - pre.nft_counter]]->0,
                    pre.fungible_address,
                    mint_time,
                ),
        ),
    )
}

/// Every shard of the batch has aged past the cooldown at time `now`,
/// compared at whole-minute precision.
pub open spec fn all_eligible(shards: Map<u64, ShardView>, ids: Seq<u64>, now: u64) -> bool {
    forall|i: int|
        0 <= i < ids.len() ==> to_minutes_spec(now) >= shards[#[trigger] ids[i]].mint_time
            + COOLDOWN_SECONDS
}

/// A successful bond: the whole units of the deposit are burned, one fresh
/// unassigned ticket is minted per burned unit, and the fraction comes back.
pub open spec fn bond_ok(
    pre: ShardzView,
    deposit: BucketView,
    post: ShardzView,
    tickets: BucketView,
    remainder: BucketView,
) -> bool {
    let n = deposit.attos() / (ATTOS_PER_UNIT as int);
    &&& deposit.resource == pre.fungible_address
    &&& deposit.contents is Fungible
    &&& 0 <= deposit.attos()
    &&& pre.ticket_counter + n <= u64::MAX
    &&& n * ATTOS_PER_UNIT <= pre.fungible_supply
    &&& tickets.resource == pre.ticket_address
    &&& tickets.contents is NonFungible
    &&& tickets.ids() == minted_ids(pre.ticket_counter, n)
    &&& remainder.resource == pre.fungible_address
    &&& remainder.contents is Fungible
    &&& remainder.attos() == deposit.attos() % (ATTOS_PER_UNIT as int)
    &&& post == (ShardzView {
        ticket_counter: (pre.ticket_counter + n) as u64,
        fungible_supply: pre.fungible_supply - n * ATTOS_PER_UNIT,
        tickets: with_fresh_tickets(pre.tickets, pre.ticket_counter, n),
        ..pre
    })
}

/// Everything a bond call can do: succeed exactly on a deposit of the
/// fungible kind, or refuse a foreign deposit untouched.
pub open spec fn bond_post(
    pre: ShardzView,
    deposit: BucketView,
    post: ShardzView,
    r: Result<(Bucket, Bucket), (Bucket, ShardzError)>,
) -> bool {
    match r {
        Ok((tickets, remainder)) => bond_ok(pre, deposit, post, tickets@, remainder@),
        Err((returned, e)) => {
            &&& deposit.resource != pre.fungible_address
            &&& e == ShardzError::ResourceMismatch
            &&& returned@ == deposit
            &&& post == pre
        },
    }
}

/// A successful assignment: the authority writes a ticket's empty slot.
pub open spec fn assign_ok(
    pre: ShardzView,
    ticket_id: u64,
    shard_type: ShardType,
    post: ShardzView,
) -> bool {
    &&& pre.tickets.contains_key(ticket_id)
    &&& pre.tickets[ticket_id] is None
    &&& post == (ShardzView { tickets: pre.tickets.insert(ticket_id, Some(shard_type)), ..pre })
}

/// Everything an assignment call can do: succeed exactly when the credential
/// is the designated one, the ticket is live and its slot is still empty.
pub open spec fn assign_post(
    pre: ShardzView,
    badge: u64,
    ticket_id: u64,
    shard_type: ShardType,
    post: ShardzView,
    r: Result<(), ShardzError>,
) -> bool {
    match r {
        Ok(_) => badge == pre.badge_address && assign_ok(pre, ticket_id, shard_type, post),
        Err(e) => post == pre && match e {
            ShardzError::UnauthorizedMutation => badge != pre.badge_address,
            ShardzError::TicketNotFound => badge == pre.badge_address
                && !pre.tickets.contains_key(ticket_id),
            ShardzError::AlreadyAssigned => badge == pre.badge_address
                && pre.tickets.contains_key(ticket_id) && pre.tickets[ticket_id] is Some,
            _ => false,
        },
    }
}

/// A successful swap: every batch ticket carries a type, one shard is minted
/// per ticket in batch order, and the whole ticket batch is burned.
pub open spec fn swap_ok(
    pre: ShardzView,
    bucket: BucketView,
    now: u64,
    post: ShardzView,
    out: BucketView,
) -> bool {
    let n = bucket.ids().len() as int;
    &&& bucket.resource == pre.ticket_address
    &&& bucket.contents is NonFungible
    &&& all_assigned(pre.tickets, bucket.ids())
    &&& pre.nft_counter + n <= u64::MAX
    &&& out.resource == pre.nft_address
    &&& out.contents is NonFungible
    &&& out.ids() == minted_ids(pre.nft_counter, n)
    &&& post == (ShardzView {
        nft_counter: (pre.nft_counter + n) as u64,
        tickets: pre.tickets.remove_keys(bucket.ids().to_set()),
        shards: with_minted_shards(pre, bucket.ids(), to_minutes_spec(now)),
        ..pre
    })
}

/// Everything a swap call can do: succeed exactly on a ticket batch whose
/// every member is assigned; otherwise nothing is minted and nothing burned.
pub open spec fn swap_post(
    pre: ShardzView,
    bucket: BucketView,
    now: u64,
    post: ShardzView,
    r: Result<BucketView, ShardzError>,
) -> bool {
    match r {
        Ok(out) => swap_ok(pre, bucket, now, post, out),
        Err(e) => post == pre && match e {
            ShardzError::ResourceMismatch => bucket.resource != pre.ticket_address,
            ShardzError::IncompleteAssignment => bucket.resource == pre.ticket_address
                && !all_assigned(pre.tickets, bucket.ids()),
            _ => false,
        },
    }
}

/// A successful destroy: every batch shard has aged past the cooldown, one
/// whole fungible unit is minted per shard, and the batch is burned.
pub open spec fn destroy_ok(
    pre: ShardzView,
    bucket: BucketView,
    now: u64,
    post: ShardzView,
    out: BucketView,
) -> bool {
    let n = bucket.ids().len() as int;
    &&& bucket.resource == pre.nft_address
    &&& bucket.contents is NonFungible
    &&& (forall|i: int| 0 <= i < n ==> pre.shards.contains_key(#[trigger] bucket.ids()[i]))
    &&& all_eligible(pre.shards, bucket.ids(), now)
    &&& pre.fungible_supply + n * ATTOS_PER_UNIT <= u128::MAX
    &&& out.resource == pre.fungible_address
    &&& out.contents is Fungible
    &&& out.attos() == n * ATTOS_PER_UNIT
    &&& post == (ShardzView {
        fungible_supply: pre.fungible_supply + n * ATTOS_PER_UNIT,
        shards: pre.shards.remove_keys(bucket.ids().to_set()),
        ..pre
    })
}

/// Everything a destroy call can do: succeed exactly on a shard batch whose
/// every member has aged past the cooldown; one young shard blocks the batch.
pub open spec fn destroy_post(
    pre: ShardzView,
    bucket: BucketView,
    now: u64,
    post: ShardzView,
    r: Result<BucketView, ShardzError>,
) -> bool {
    match r {
        Ok(out) => destroy_ok(pre, bucket, now, post, out),
        Err(e) => post == pre && match e {
            ShardzError::ResourceMismatch => bucket.resource != pre.nft_address,
            ShardzError::CooldownNotElapsed => bucket.resource == pre.nft_address
                && !all_eligible(pre.shards, bucket.ids(), now),
            _ => false,
        },
    }
}

/// A run of key-record pairs with no key repeated.
pub open spec fn keys_unique<T>(pairs: Seq<(u64, T)>) -> bool {
    forall|i: int, j: int| 0 <= i < j < pairs.len() ==> pairs[i].0 != pairs[j].0
}

/// Every key of the run was drawn from the counter's history: at least one,
/// strictly below the counter.
pub open spec fn keys_below<T>(pairs: Seq<(u64, T)>, bound: u64) -> bool {
    forall|i: int| 0 <= i < pairs.len() ==> 1 <= #[trigger] pairs[i].0 < bound
}

/// The run as a map, a later pair overriding an earlier one with the same
/// key; under `keys_unique` simply the map of the pairs.
pub open spec fn pairs_map<T>(pairs: Seq<(u64, T)>) -> Map<u64, T>
    decreases pairs.len(),
{
    if pairs.len() == 0 {
        Map::empty()
    } else {
        pairs_map(pairs.drop_last()).insert(pairs.last().0, pairs.last().1)
    }
}

/// A key is in the map of a run exactly when some pair of the run carries it.
proof fn lemma_pairs_map_dom<T>(pairs: Seq<(u64, T)>)
    ensures
        forall|id: u64| #[trigger]
            pairs_map(pairs).contains_key(id) <==> exists|j: int|
                0 <= j < pairs.len() && pairs[j].0 == id,
    decreases pairs.len(),
{
    if pairs.len() > 0 {
        lemma_pairs_map_dom(pairs.drop_last());
        assert forall|id: u64| #[trigger] pairs_map(pairs).contains_key(id) implies exists|j: int|
            0 <= j < pairs.len() && pairs[j].0 == id by {
            if id == pairs.last().0 {
                assert(pairs[pairs.len() - 1].0 == id);
            } else {
                assert(pairs_map(pairs.drop_last()).contains_key(id));
                let j = choose|j: int|
                    0 <= j < pairs.drop_last().len() && pairs.drop_last()[j].0 == id;
                assert(pairs.drop_last()[j] == pairs[j]);
                assert(pairs[j].0 == id);
            }
        }
        assert forall|id: u64| exists|j: int| 0 <= j < pairs.len() && pairs[j].0 == id
            implies #[trigger] pairs_map(pairs).contains_key(id) by {
            let j = choose|j: int| 0 <= j < pairs.len() && pairs[j].0 == id;
            if j < pairs.len() - 1 {
                assert(pairs.drop_last()[j].0 == id);
                assert(pairs_map(pairs.drop_last()).contains_key(id));
            }
        }
    }
}

/// The persisted states the engine can be rebuilt from: distinct resource
/// kinds, counters that start at one, and records whose identifiers are
/// unique and were drawn from their counter's history.
pub open spec fn restorable(
    fungible_address: u64,
    ticket_address: u64,
    nft_address: u64,
    ticket_counter: u64,
    nft_counter: u64,
    tickets: Seq<(u64, ShardTicket)>,
    shards: Seq<(u64, ShardNFT)>,
) -> bool {
    &&& fungible_address != ticket_address
    &&& fungible_address != nft_address
    &&& ticket_address != nft_address
    &&& 1 <= ticket_counter
    &&& 1 <= nft_counter
    &&& keys_unique(tickets)
    &&& keys_below(tickets, ticket_counter)
    &&& keys_unique(shards)
    &&& keys_below(shards, nft_counter)
}

/// Build a record store from a persisted run, refusing a run whose keys
/// repeat or fall outside the counter's history.
fn build_records<T>(pairs: Vec<(u64, T)>, bound: u64) -> (r: Option<HashMap<u64, T>>)
    ensures
        match r {
            Some(m) => {
                &&& keys_unique(pairs@)
                &&& keys_below(pairs@, bound)
                &&& m@ == pairs_map(pairs@)
            },
            None => !(keys_unique(pairs@) && keys_below(pairs@, bound)),
        },
{
    let ghost orig = pairs@;
    let mut pairs = pairs;
    let mut m: HashMap<u64, T> = HashMap::new();
    proof {
        assert(orig.subrange(0, 0) =~= Seq::<(u64, T)>::empty());
        assert(m@ =~= pairs_map(orig.subrange(0, 0)));
        assert(orig.subrange(0, orig.len() as int) =~= orig);
    }
    #[verifier::loop_isolation(false)]
    while pairs.len() > 0
        invariant
            pairs@.len() <= orig.len(),
            pairs@ == orig.subrange(orig.len() - pairs@.len(), orig.len() as int),
            m@ == pairs_map(orig.subrange(0, orig.len() - pairs@.len())),
            keys_unique(orig.subrange(0, orig.len() - pairs@.len())),
            keys_below(orig.subrange(0, orig.len() - pairs@.len()), bound),
        decreases pairs@.len(),
    {
        let ghost k = orig.len() - pairs@.len();
        let ghost prefix = orig.subrange(0, k as int);
        let ghost before = pairs@;
        let pair = pairs.remove(0);
        proof {
            assert(before == orig.subrange(k as int, orig.len() as int));
            assert(orig.subrange(k as int, orig.len() as int)[0] == orig[k as int]);
            assert(pair == orig[k as int]);
            assert forall|i: int|
                0 <= i < pairs@.len() implies pairs@[i] == orig.subrange(
                k + 1,
                orig.len() as int,
            )[i] by {
                assert(pairs@[i] == before.remove(0)[i]);
                assert(before[i + 1] == orig.subrange(k as int, orig.len() as int)[i + 1]);
                assert(orig.subrange(k as int, orig.len() as int)[i + 1] == orig[k + 1 + i]);
                assert(orig.subrange(k + 1, orig.len() as int)[i] == orig[k + 1 + i]);
            }
            assert(pairs@ =~= orig.subrange(k + 1, orig.len() as int));
        }
        if pair.0 < 1 || pair.0 >= bound {
            proof {
                assert(orig[k as int].0 == pair.0);
            }
            return None;
        }
        if m.contains_key(&pair.0) {
            proof {
                lemma_pairs_map_dom(prefix);
                let j = choose|j: int| 0 <= j < prefix.len() && prefix[j].0 == pair.0;
                assert(orig[j].0 == orig[k as int].0);
            }
            return None;
        }
        m.insert(pair.0, pair.1);
        proof {
            let prefix2 = orig.subrange(0, k + 1);
            assert(prefix2.drop_last() =~= prefix);
            assert(prefix2.last() == orig[k as int]);
            assert(m@ == pairs_map(prefix2));
            lemma_pairs_map_dom(prefix);
            assert forall|i: int, j: int| 0 <= i < j < prefix2.len() implies prefix2[i].0
                != prefix2[j].0 by {
                if j == prefix2.len() - 1 {
                    if prefix2[i].0 == prefix2[j].0 {
                        assert(prefix[i].0 == pair.0);
                        assert(pairs_map(prefix).contains_key(pair.0));
                    }
                } else {
                    assert(prefix[i].0 != prefix[j].0);
                }
            }
        }
    }
    proof {
        assert(orig.subrange(0, orig.len() as int) =~= orig);
    }
    Some(m)
}

/// The engine: two monotonic identifier counters, the fungible supply and the
/// live records of both non-fungible kinds, keyed by the three resource
/// addresses fixed at instantiation.
pub struct Shardz {
    fungible_address: u64,
    ticket_address: u64,
    nft_address: u64,
    badge_address: u64,
    fungible_supply: Amount,
    ticket_counter: u64,
    nft_counter: u64,
    tickets: HashMap<u64, ShardTicket>,
    shards: HashMap<u64, ShardNFT>,
}

impl View for Shardz {
    type V = ShardzView;

    closed spec fn view(&self) -> ShardzView {
        ShardzView {
            fungible_address: self.fungible_address,
            ticket_address: self.ticket_address,
            nft_address: self.nft_address,
            badge_address: self.badge_address,
            fungible_supply: self.fungible_supply.attos_spec(),
            ticket_counter: self.ticket_counter,
            nft_counter: self.nft_counter,
            tickets: self.tickets@.map_values(|t: ShardTicket| t.shard_type),
            shards: self.shards@.map_values(|s: ShardNFT| s@),
        }
    }
}

impl Shardz {
    pub open spec fn wf(self) -> bool {
        self@.wf()
    }

    /// Create the engine with its three distinct resource kinds, the
    /// designated assignment credential, both counters at one, and the fixed
    /// initial supply of the fungible unit paid out to the caller.
    pub fn instantiate_shardz(
        fungible_address: u64,
        ticket_address: u64,
        nft_address: u64,
        badge_address: u64,
    ) -> (r: (Shardz, Bucket))
        requires
            fungible_address != ticket_address,
            fungible_address != nft_address,
            ticket_address != nft_address,
        ensures
            r.0.wf(),
            r.0@ == (ShardzView {
                fungible_address,
                ticket_address,
                nft_address,
                badge_address,
                fungible_supply: INITIAL_SUPPLY_UNITS * ATTOS_PER_UNIT,
                ticket_counter: 1,
                nft_counter: 1,
                tickets: Map::empty(),
                shards: Map::empty(),
            }),
            r.1@.resource == fungible_address,
            r.1@.contents is Fungible,
            r.1@.attos() == INITIAL_SUPPLY_UNITS * ATTOS_PER_UNIT,
            r.1@.wf(),
    {
        let supply = Amount::from_units(INITIAL_SUPPLY_UNITS);
        let component = Shardz {
            fungible_address,
            ticket_address,
            nft_address,
            badge_address,
            fungible_supply: supply,
            ticket_counter: 1,
            nft_counter: 1,
            tickets: HashMap::new(),
            shards: HashMap::new(),
        };
        let initial = Bucket::new_fungible(fungible_address, supply);
        proof {
            assert(component@.tickets =~= Map::<u64, Option<ShardType>>::empty());
            assert(component@.shards =~= Map::<u64, ShardView>::empty());
        }
        (component, initial)
    }

    /// Rebuild an engine from persisted plain state, as a host does at each
    /// call. The records are validated against the engine invariant: a state
    /// that the counters' history could not have produced is refused whole.
    pub fn restore(
        fungible_address: u64,
        ticket_address: u64,
        nft_address: u64,
        badge_address: u64,
        fungible_supply: Amount,
        ticket_counter: u64,
        nft_counter: u64,
        tickets: Vec<(u64, ShardTicket)>,
        shards: Vec<(u64, ShardNFT)>,
    ) -> (r: Option<Shardz>)
        ensures
            match r {
                Some(s) => {
                    &&& restorable(
                        fungible_address,
                        ticket_address,
                        nft_address,
                        ticket_counter,
                        nft_counter,
                        tickets@,
                        shards@,
                    )
                    &&& s.wf()
                    &&& s@ == (ShardzView {
                        fungible_address,
                        ticket_address,
                        nft_address,
                        badge_address,
                        fungible_supply: fungible_supply.attos_spec(),
                        ticket_counter,
                        nft_counter,
                        tickets: pairs_map(tickets@).map_values(|t: ShardTicket| t.shard_type),
                        shards: pairs_map(shards@).map_values(|n: ShardNFT| n@),
                    })
                },
                None => !restorable(
                    fungible_address,
                    ticket_address,
                    nft_address,
                    ticket_counter,
                    nft_counter,
                    tickets@,
                    shards@,
                ),
            },
    {
        if fungible_address == ticket_address || fungible_address == nft_address
            || ticket_address == nft_address {
            return None;
        }
        if ticket_counter < 1 || nft_counter < 1 {
            return None;
        }
        let ghost tickets_run = tickets@;
        let ghost shards_run = shards@;
        let tickets_map = match build_records(tickets, ticket_counter) {
            Some(m) => m,
            None => {
                return None;
            },
        };
        let shards_map = match build_records(shards, nft_counter) {
            Some(m) => m,
            None => {
                return None;
            },
        };
        let engine = Shardz {
            fungible_address,
            ticket_address,
            nft_address,
            badge_address,
            fungible_supply,
            ticket_counter,
            nft_counter,
            tickets: tickets_map,
            shards: shards_map,
        };
        proof {
            fungible_supply.lemma_attos_bounds();
            lemma_pairs_map_dom(tickets_run);
            lemma_pairs_map_dom(shards_run);
            assert(engine@.tickets.dom() =~= engine.tickets@.dom());
            assert(engine@.shards.dom() =~= engine.shards@.dom());
            assert(engine@.tickets =~= pairs_map(tickets_run).map_values(
                |t: ShardTicket| t.shard_type,
            ));
            assert(engine@.shards =~= pairs_map(shards_run).map_values(|n: ShardNFT| n@));
            assert forall|id: u64| #[trigger] engine@.tickets.contains_key(id) implies 1 <= id
                < engine@.ticket_counter by {
                let j = choose|j: int| 0 <= j < tickets_run.len() && tickets_run[j].0 == id;
                assert(tickets_run[j].0 == id);
            }
            assert forall|id: u64| #[trigger] engine@.shards.contains_key(id) implies 1 <= id
                < engine@.nft_counter by {
                let j = choose|j: int| 0 <= j < shards_run.len() && shards_run[j].0 == id;
                assert(shards_run[j].0 == id);
            }
        }
        Some(engine)
    }

    /// Convert a deposit of the fungible unit into one fresh unassigned
    /// ticket per whole unit deposited. The whole units are burned; the
    /// fractional part of the deposit is handed back untouched.
    pub fn bond(&mut self, deposit: Bucket) -> (r: Result<(Bucket, Bucket), (Bucket, ShardzError)>)
        requires
            old(self).wf(),
            deposit@.resource == old(self)@.fungible_address ==> {
                &&& deposit@.contents is Fungible
                &&& old(self)@.ticket_counter + deposit@.attos() / (ATTOS_PER_UNIT as int)
                    <= u64::MAX
                &&& (deposit@.attos() / (ATTOS_PER_UNIT as int)) * ATTOS_PER_UNIT <= old(
                    self,
                )@.fungible_supply
            },
        ensures
            final(self).wf(),
            bond_post(old(self)@, deposit@, final(self)@, r),
    {
        if deposit.resource_address() != self.fungible_address {
            return Err((deposit, ShardzError::ResourceMismatch));
        }
        let mut deposit = deposit;
        let amount = deposit.amount();
        let floor = amount.floor();
        let units = amount.to_whole_units();
        let ghost pre = self@;
        let ghost n = amount.whole_units();
        let mut ticket_bucket = Bucket::new_empty_nonfungible(self.ticket_address);
        proof {
            assert(with_fresh_tickets(pre.tickets, pre.ticket_counter, 0) =~= pre.tickets);
            assert(minted_ids(pre.ticket_counter, 0) =~= Seq::<u64>::empty());
        }
        let mut i: u64 = 0;
        while i < units
            invariant
                pre.wf(),
                0 <= i <= units,
                n == units,
                pre.ticket_counter + n <= u64::MAX,
                self@ == (ShardzView {
                    ticket_counter: (pre.ticket_counter + i) as u64,
                    tickets: with_fresh_tickets(pre.tickets, pre.ticket_counter, i as int),
                    ..pre
                }),
                ticket_bucket@.resource == pre.ticket_address,
                ticket_bucket@.contents is NonFungible,
                ticket_bucket@.ids() == minted_ids(pre.ticket_counter, i as int),
            decreases units - i,
        {
            let id = self.ticket_counter;
            let ghost prev = self@;
            self.tickets.insert(id, ShardTicket { shard_type: None });
            ticket_bucket.push_id(id);
            self.ticket_counter = self.ticket_counter + 1;
            i = i + 1;
            proof {
                assert(self@.tickets =~= prev.tickets.insert(id, None::<ShardType>));
                assert(prev.tickets.insert(id, None::<ShardType>) =~= with_fresh_tickets(
                    pre.tickets,
                    pre.ticket_counter,
                    i as int,
                ));
                assert(ticket_bucket@.ids() =~= minted_ids(pre.ticket_counter, i as int));
            }
        }
        let _burned = deposit.take(floor);
        self.fungible_supply = self.fungible_supply.minus(&floor);
        proof {
            assert(self@.tickets.dom() =~= self.tickets@.dom());
            assert(self@.tickets.dom().finite());
            assert forall|id: u64| #[trigger] self@.tickets.contains_key(id) implies 1 <= id
                < self@.ticket_counter by {
                if !pre.tickets.contains_key(id) {
                    assert(pre.ticket_counter <= id < pre.ticket_counter + n);
                }
            }
        }
        Ok((ticket_bucket, deposit))
    }

    /// The assignment gate: the designated external authority writes a
    /// ticket's empty shard-type slot. The slot is written at most once and
    /// never reset; the engine itself never chooses the value.
    pub fn set_ticket_shard_type(
        &mut self,
        badge: u64,
        ticket_id: u64,
        shard_type: ShardType,
    ) -> (r: Result<(), ShardzError>)
        requires
            old(self).wf(),
        ensures
            final(self).wf(),
            assign_post(old(self)@, badge, ticket_id, shard_type, final(self)@, r),
    {
        if badge != self.badge_address {
            return Err(ShardzError::UnauthorizedMutation);
        }
        let found: bool;
        let assigned: bool;
        match self.tickets.get(&ticket_id) {
            None => {
                found = false;
                assigned = false;
            },
            Some(t) => {
                found = true;
                assigned = t.shard_type.is_some();
            },
        }
        if !found {
            return Err(ShardzError::TicketNotFound);
        }
        if assigned {
            return Err(ShardzError::AlreadyAssigned);
        }
        let ghost pre = self@;
        self.tickets.insert(ticket_id, ShardTicket { shard_type: Some(shard_type) });
        proof {
            assert(pre.wf());
            assert(self@.tickets =~= pre.tickets.insert(ticket_id, Some(shard_type)));
            assert(self@.tickets.dom() =~= self.tickets@.dom());
            assert(self@.tickets.dom().finite());
            assert forall|id2: u64| #[trigger] self@.tickets.contains_key(id2) implies 1 <= id2
                < self@.ticket_counter by {
                if id2 != ticket_id {
                    assert(pre.tickets.contains_key(id2));
                } else {
                    assert(pre.tickets.contains_key(ticket_id));
                }
            }
        }
        Ok(())
    }

    /// Consume a batch of tickets: if every ticket of the batch already
    /// carries a shard type, mint one shard per ticket in batch order and
    /// burn the whole batch; if any ticket is still unassigned, mint nothing,
    /// burn nothing and hand the batch back.
    pub fn swap_tickets(&mut self, ticket_bucket: Bucket, now: u64) -> (r: Result<
        Bucket,
        (Bucket, ShardzError),
    >)
        requires
            old(self).wf(),
            ticket_bucket@.wf(),
            ticket_bucket@.resource == old(self)@.ticket_address ==> {
                &&& ticket_bucket@.contents is NonFungible
                &&& (forall|i: int|
                    0 <= i < ticket_bucket@.ids().len() ==> old(self)@.tickets.contains_key(
                        #[trigger] ticket_bucket@.ids()[i],
                    ))
                &&& old(self)@.nft_counter + ticket_bucket@.ids().len() <= u64::MAX
            },
        ensures
            final(self).wf(),
            match r {
                Ok(out) => swap_post(old(self)@, ticket_bucket@, now, final(self)@, Ok(out@)),
                Err((returned, e)) => returned@ == ticket_bucket@ && swap_post(
                    old(self)@,
                    ticket_bucket@,
                    now,
                    final(self)@,
                    Err(e),
                ),
            },
    {
        if ticket_bucket.resource_address() != self.ticket_address {
            return Err((ticket_bucket, ShardzError::ResourceMismatch));
        }
        let ghost pre = self@;
        let ids = match ticket_bucket.contents() {
            BucketContents::NonFungible { ids } => ids,
            BucketContents::Fungible { .. } => {
                proof {
                    assert(false);
                }
                vstd::pervasive::unreached()
            },
        };
        let n = ids.len();
        // First pass: nothing is touched until every ticket is known drawn.
        let mut i: usize = 0;
        let mut complete: bool = true;
        while i < n
            invariant
                n == ids@.len(),
                0 <= i <= n,
                forall|j: int| 0 <= j < n ==> pre.tickets.contains_key(#[trigger] ids@[j]),
                complete ==> forall|j: int| 0 <= j < i ==> pre.tickets[#[trigger] ids@[j]] is Some,
                !complete ==> exists|j: int|
                    0 <= j < n && pre.tickets[#[trigger] ids@[j]] is None,
                self@ == pre,
            decreases n - i,
        {
            let id = ids[i];
            match self.tickets.get(&id) {
                Some(t) => {
                    if t.shard_type.is_none() {
                        complete = false;
                    }
                },
                None => {
                    proof {
                        assert(false);
                    }
                },
            }
            i = i + 1;
        }
        if !complete {
            return Err((ticket_bucket, ShardzError::IncompleteAssignment));
        }
        // Second pass: mint one shard per ticket and retire the tickets.
        let mint_time = round_to_minutes(now);
        let mut out = Bucket::new_empty_nonfungible(self.nft_address);
        proof {
            assert(pre.tickets.remove_keys(ids@.subrange(0, 0).to_set()) =~= pre.tickets);
            assert(with_minted_shards(pre, ids@.subrange(0, 0), to_minutes_spec(now))
                =~= pre.shards);
            assert(minted_ids(pre.nft_counter, 0) =~= Seq::<u64>::empty());
        }
        let mut i: usize = 0;
        while i < n
            invariant
                pre.wf(),
                n == ids@.len(),
                0 <= i <= n,
                ids@.no_duplicates(),
                pre.nft_counter + n <= u64::MAX,
                forall|j: int| 0 <= j < n ==> pre.tickets.contains_key(#[trigger] ids@[j]),
                all_assigned(pre.tickets, ids@),
                self@ == (ShardzView {
                    nft_counter: (pre.nft_counter + i) as u64,
                    tickets: pre.tickets.remove_keys(ids@.subrange(0, i as int).to_set()),
                    shards: with_minted_shards(
                        pre,
                        ids@.subrange(0, i as int),
                        to_minutes_spec(now),
                    ),
                    ..pre
                }),
                out@.resource == pre.nft_address,
                out@.contents is NonFungible,
                out@.ids() == minted_ids(pre.nft_counter, i as int),
                mint_time == to_minutes_spec(now),
            decreases n - i,
        {
            let id = ids[i];
            proof {
                lemma_distinct_prefix_excludes(ids@, i as int);
                assert(self@.tickets.contains_key(id));
                assert(self@.tickets[id] == pre.tickets[id]);
            }
            let t: ShardType = match self.tickets.get(&id) {
                Some(ticket) => match ticket.shard_type {
                    Some(t) => t,
                    None => {
                        proof {
                            assert(false);
                        }
                        vstd::pervasive::unreached()
                    },
                },
                None => {
                    proof {
                        assert(false);
                    }
                    vstd::pervasive::unreached()
                },
            };
            let nft_id = self.nft_counter;
            let data = ShardNFT {
                name: t.name(),
                key_image_url: t.url(),
                shard_type: t,
                fungible_address: self.fungible_address,
                mint_time,
            };
            let ghost prev = self@;
            self.shards.insert(nft_id, data);
            out.push_id(nft_id);
            self.nft_counter = self.nft_counter + 1;
            self.tickets.remove(&id);
            i = i + 1;
            proof {
                lemma_subrange_push_to_set(ids@, i as int);
                assert(self@.tickets =~= prev.tickets.remove(id));
                assert(self@.tickets =~= pre.tickets.remove_keys(
                    ids@.subrange(0, i as int).to_set(),
                ));
                assert(self@.shards =~= prev.shards.insert(
                    nft_id,
                    minted_shard(t, pre.fungible_address, to_minutes_spec(now)),
                ));
                assert(self@.shards =~= with_minted_shards(
                    pre,
                    ids@.subrange(0, i as int),
                    to_minutes_spec(now),
                ));
                assert(out@.ids() =~= minted_ids(pre.nft_counter, i as int));
            }
        }
        proof {
            assert(ids@.subrange(0, n as int) =~= ids@);
            assert(self@.tickets.dom() =~= self.tickets@.dom());
            assert(self@.shards.dom() =~= self.shards@.dom());
            assert forall|id: u64| #[trigger] self@.shards.contains_key(id) implies 1 <= id
                < self@.nft_counter by {
                if !pre.shards.contains_key(id) {
                    assert(pre.nft_counter <= id < pre.nft_counter + n);
                }
            }
            assert forall|id: u64| #[trigger] self@.tickets.contains_key(id) implies 1 <= id
                < self@.ticket_counter by {
                assert(pre.tickets.contains_key(id));
            }
        }
        Ok(out)
    }

    /// Take back a batch of shards: if every shard of the batch has aged
    /// past the cooldown, mint one whole fungible unit per shard and burn
    /// the batch. One shard still too young blocks the whole batch, however
    /// old the others are.
    pub fn destroy(&mut self, nft_bucket: Bucket, now: u64) -> (r: Result<
        Bucket,
        (Bucket, ShardzError),
    >)
        requires
            old(self).wf(),
            nft_bucket@.wf(),
            nft_bucket@.resource == old(self)@.nft_address ==> {
                &&& nft_bucket@.contents is NonFungible
                &&& (forall|i: int|
                    0 <= i < nft_bucket@.ids().len() ==> old(self)@.shards.contains_key(
                        #[trigger] nft_bucket@.ids()[i],
                    ))
                &&& old(self)@.fungible_supply + nft_bucket@.ids().len() * ATTOS_PER_UNIT
                    <= u128::MAX
            },
        ensures
            final(self).wf(),
            match r {
                Ok(out) => destroy_post(old(self)@, nft_bucket@, now, final(self)@, Ok(out@)),
                Err((returned, e)) => returned@ == nft_bucket@ && destroy_post(
                    old(self)@,
                    nft_bucket@,
                    now,
                    final(self)@,
                    Err(e),
                ),
            },
    {
        if nft_bucket.resource_address() != self.nft_address {
            return Err((nft_bucket, ShardzError::ResourceMismatch));
        }
        let ghost pre = self@;
        let ids = match nft_bucket.contents() {
            BucketContents::NonFungible { ids } => ids,
            BucketContents::Fungible { .. } => {
                proof {
                    assert(false);
                }
                vstd::pervasive::unreached()
            },
        };
        let n = ids.len();
        // First pass: the age check reads everything and mutates nothing.
        let rounded = round_to_minutes(now);
        let mut i: usize = 0;
        let mut mature: bool = true;
        while i < n
            invariant
                n == ids@.len(),
                0 <= i <= n,
                rounded == to_minutes_spec(now),
                forall|j: int| 0 <= j < n ==> pre.shards.contains_key(#[trigger] ids@[j]),
                mature ==> forall|j: int|
                    0 <= j < i ==> to_minutes_spec(now) >= pre.shards[#[trigger] ids@[j]].mint_time
                        + COOLDOWN_SECONDS,
                !mature ==> exists|j: int|
                    0 <= j < n && to_minutes_spec(now) < pre.shards[#[trigger] ids@[j]].mint_time
                        + COOLDOWN_SECONDS,
                self@ == pre,
            decreases n - i,
        {
            let id = ids[i];
            let data = match self.shards.get(&id) {
                Some(d) => d,
                None => {
                    proof {
                        assert(false);
                    }
                    vstd::pervasive::unreached()
                },
            };
            if (rounded as u128) < (data.mint_time as u128) + (COOLDOWN_SECONDS as u128) {
                mature = false;
            }
            i = i + 1;
        }
        if !mature {
            return Err((nft_bucket, ShardzError::CooldownNotElapsed));
        }
        // Mint one whole unit per shard, then burn the batch.
        let minted = nft_bucket.amount();
        proof {
            vstd::arithmetic::div_mod::lemma_fundamental_div_mod(
                minted.attos_spec(),
                ATTOS_PER_UNIT as int,
            );
        }
        self.fungible_supply = self.fungible_supply.plus(&minted);
        let out = Bucket::new_fungible(self.fungible_address, minted);
        proof {
            assert(pre.shards.remove_keys(ids@.subrange(0, 0).to_set()) =~= pre.shards);
        }
        let mut i: usize = 0;
        while i < n
            invariant
                pre.wf(),
                n == ids@.len(),
                0 <= i <= n,
                ids@.no_duplicates(),
                forall|j: int| 0 <= j < n ==> pre.shards.contains_key(#[trigger] ids@[j]),
                self@ == (ShardzView {
                    fungible_supply: pre.fungible_supply + n * ATTOS_PER_UNIT,
                    shards: pre.shards.remove_keys(ids@.subrange(0, i as int).to_set()),
                    ..pre
                }),
            decreases n - i,
        {
            let id = ids[i];
            let ghost prev = self@;
            self.shards.remove(&id);
            i = i + 1;
            proof {
                lemma_subrange_push_to_set(ids@, i as int);
                assert(self@.shards =~= prev.shards.remove(id));
                assert(self@.shards =~= pre.shards.remove_keys(
                    ids@.subrange(0, i as int).to_set(),
                ));
            }
        }
        proof {
            assert(ids@.subrange(0, n as int) =~= ids@);
            assert(self@.shards.dom() =~= self.shards@.dom());
            assert forall|id: u64| #[trigger] self@.shards.contains_key(id) implies 1 <= id
                < self@.nft_counter by {
                assert(pre.shards.contains_key(id));
            }
        }
        Ok(out)
    }

    /// The current total supply of the fungible unit.
    pub fn total_supply(&self) -> (r: Amount)
        ensures
            r.attos_spec() == self@.fungible_supply,
    {
        self.fungible_supply
    }

    /// Read a live ticket's record, as anyone can on the ledger.
    pub fn get_ticket(&self, id: u64) -> (r: Option<ShardTicket>)
        ensures
            match r {
                Some(t) => self@.tickets.contains_key(id) && self@.tickets[id] == t.shard_type,
                None => !self@.tickets.contains_key(id),
            },
    {
        match self.tickets.get(&id) {
            Some(t) => Some(*t),
            None => None,
        }
    }

    /// Read a live shard's record.
    pub fn get_shard(&self, id: u64) -> (r: Option<&ShardNFT>)
        ensures
            match r {
                Some(s) => self@.shards.contains_key(id) && self@.shards[id] == s@,
                None => !self@.shards.contains_key(id),
            },
    {
        self.shards.get(&id)
    }

    /// How many tickets are live.
    pub fn ticket_count(&self) -> (r: usize)
        ensures
            r == self@.tickets.dom().len(),
    {
        proof {
            assert(self@.tickets.dom() =~= self.tickets@.dom());
        }
        self.tickets.len()
    }

    /// How many shards are live.
    pub fn shard_count(&self) -> (r: usize)
        ensures
            r == self@.shards.dom().len(),
    {
        proof {
            assert(self@.shards.dom() =~= self.shards@.dom());
        }
        self.shards.len()
    }
}

/// The ledger clock's reading, rounded down to a whole minute.
fn round_to_minutes(now: u64) -> (r: u64)
    ensures
        r == to_minutes_spec(now),
{
    now - now % 60
}

/// Growing a prefix of a sequence by one element grows the matching set by
/// exactly that element.
proof fn lemma_subrange_push_to_set(s: Seq<u64>, i: int)
    requires
        0 < i <= s.len(),
    ensures
        s.subrange(0, i) =~= s.subrange(0, i - 1).push(s[i - 1]),
        s.subrange(0, i).to_set() =~= s.subrange(0, i - 1).to_set().insert(s[i - 1]),
{
    let s_prev = s.subrange(0, i - 1);
    let s_cur = s.subrange(0, i);
    let x_new = s[i - 1];
    assert(s_cur =~= s_prev.push(x_new));
    assert forall|x: u64| s_cur.to_set().contains(x) implies s_prev.to_set().insert(
        x_new,
    ).contains(x) by {
        let j = choose|j: int| 0 <= j < s_cur.len() && s_cur[j] == x;
        if j < i - 1 {
            assert(s_prev[j] == x);
            assert(s_prev.contains(x));
        }
    }
    assert forall|x: u64| s_prev.to_set().insert(x_new).contains(x) implies s_cur.to_set().contains(
        x,
    ) by {
        if x == x_new {
            assert(s_cur[i - 1] == x);
            assert(s_cur.contains(x));
        } else {
            let j = choose|j: int| 0 <= j < s_prev.len() && s_prev[j] == x;
            assert(s_cur[j] == x);
            assert(s_cur.contains(x));
        }
    }
    assert(s_cur.to_set() =~= s_prev.to_set().insert(x_new));
}

/// In a duplicate-free sequence, an element never occurs in the prefix
/// strictly before its own position.
proof fn lemma_distinct_prefix_excludes(s: Seq<u64>, i: int)
    requires
        s.no_duplicates(),
        0 <= i < s.len(),
    ensures
        !s.subrange(0, i).to_set().contains(s[i]),
{
    if s.subrange(0, i).contains(s[i]) {
        let j = choose|j: int| 0 <= j < i && s.subrange(0, i)[j] == s[i];
        assert(s[j] == s[i]);
    }
}

} // verus!
