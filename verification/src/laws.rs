use vstd::prelude::*;

use crate::amount::ATTOS_PER_UNIT;
use crate::bucket::BucketView;
use crate::shardz::{
    all_assigned, all_eligible, assign_ok, bond_ok, destroy_ok, destroy_post, minted_ids, swap_ok,
    swap_post, to_minutes_spec, with_minted_shards, ShardType, ShardzError, ShardzView,
    COOLDOWN_SECONDS,
};

verus! {

broadcast use vstd::seq_lib::seq_to_set_is_finite;

/// The identifiers a mint run draws, as a set: exactly the range from the
/// counter's old value up to, excluding, its new one. In particular a finite
/// set.
proof fn lemma_minted_ids_to_set(start: u64, n: int)
    requires
        0 <= n,
        start + n <= u64::MAX,
    ensures
        minted_ids(start, n).to_set() =~= Set::new(|id: u64| start <= id < start + n),
        minted_ids(start, n).to_set().finite(),
{
    let s = minted_ids(start, n);
    assert forall|id: u64| s.to_set().contains(id) implies start <= id < start + n by {
        let i = choose|i: int| 0 <= i < s.len() && s[i] == id;
        assert(s[i] == start + i);
    }
    assert forall|id: u64| start <= id < start + n implies s.to_set().contains(id) by {
        assert(s[id - start] == id);
        assert(s.contains(id));
    }
    assert(s.to_set() =~= Set::new(|id: u64| start <= id < start + n));
}

/// A successful bond preserves the engine invariant.
pub proof fn lemma_bond_preserves_wf(
    pre: ShardzView,
    deposit: BucketView,
    post: ShardzView,
    tickets: BucketView,
    remainder: BucketView,
)
    requires
        pre.wf(),
        bond_ok(pre, deposit, post, tickets, remainder),
    ensures
        post.wf(),
{
    let n = deposit.attos() / (ATTOS_PER_UNIT as int);
    vstd::arithmetic::div_mod::lemma_div_pos_is_pos(deposit.attos(), ATTOS_PER_UNIT as int);
    lemma_minted_ids_to_set(pre.ticket_counter, n);
    assert(post.tickets.dom() =~= pre.tickets.dom().union(
        minted_ids(pre.ticket_counter, n).to_set(),
    ));
    assert(post.tickets.dom().finite());
    assert forall|id: u64| #[trigger] post.tickets.contains_key(id) implies 1 <= id
        < post.ticket_counter by {
        if !pre.tickets.contains_key(id) {
            assert(pre.ticket_counter <= id < pre.ticket_counter + n);
        }
    }
}

/// A successful assignment preserves the engine invariant.
pub proof fn lemma_assign_preserves_wf(
    pre: ShardzView,
    ticket_id: u64,
    shard_type: ShardType,
    post: ShardzView,
)
    requires
        pre.wf(),
        assign_ok(pre, ticket_id, shard_type, post),
    ensures
        post.wf(),
{
    assert(post.tickets.dom() =~= pre.tickets.dom().insert(ticket_id));
    assert forall|id: u64| #[trigger] post.tickets.contains_key(id) implies 1 <= id
        < post.ticket_counter by {
        assert(pre.tickets.contains_key(id));
    }
}

/// A successful swap preserves the engine invariant.
pub proof fn lemma_swap_preserves_wf(
    pre: ShardzView,
    bucket: BucketView,
    now: u64,
    post: ShardzView,
    out: BucketView,
)
    requires
        pre.wf(),
        swap_ok(pre, bucket, now, post, out),
    ensures
        post.wf(),
{
    let n = bucket.ids().len() as int;
    lemma_minted_ids_to_set(pre.nft_counter, n);
    assert(post.tickets.dom() =~= pre.tickets.dom().difference(bucket.ids().to_set()));
    assert(post.tickets.dom().finite());
    assert(post.shards.dom() =~= pre.shards.dom().union(minted_ids(pre.nft_counter, n).to_set()));
    assert(post.shards.dom().finite());
    assert forall|id: u64| #[trigger] post.tickets.contains_key(id) implies 1 <= id
        < post.ticket_counter by {
        assert(pre.tickets.contains_key(id));
    }
    assert forall|id: u64| #[trigger] post.shards.contains_key(id) implies 1 <= id
        < post.nft_counter by {
        if !pre.shards.contains_key(id) {
            assert(pre.nft_counter <= id < pre.nft_counter + n);
        }
    }
}

/// A successful destroy preserves the engine invariant.
pub proof fn lemma_destroy_preserves_wf(
    pre: ShardzView,
    bucket: BucketView,
    now: u64,
    post: ShardzView,
    out: BucketView,
)
    requires
        pre.wf(),
        destroy_ok(pre, bucket, now, post, out),
    ensures
        post.wf(),
{
    assert(post.shards.dom() =~= pre.shards.dom().difference(bucket.ids().to_set()));
    assert(post.shards.dom().finite());
    assert forall|id: u64| #[trigger] post.shards.contains_key(id) implies 1 <= id
        < post.nft_counter by {
        assert(pre.shards.contains_key(id));
    }
}

/// Conservation: a successful bond advances the ticket counter by exactly the
/// deposit's whole units, mints exactly one ticket per whole unit, destroys
/// exactly that many whole units of fungible supply, and returns exactly the
/// fractional remainder of the deposit.
pub proof fn lemma_bond_conservation(
    pre: ShardzView,
    deposit: BucketView,
    post: ShardzView,
    tickets: BucketView,
    remainder: BucketView,
)
    requires
        bond_ok(pre, deposit, post, tickets, remainder),
    ensures
        post.ticket_counter == pre.ticket_counter + deposit.attos() / (ATTOS_PER_UNIT as int),
        tickets.ids().len() == deposit.attos() / (ATTOS_PER_UNIT as int),
        post.fungible_supply == pre.fungible_supply - (deposit.attos() / (ATTOS_PER_UNIT as int))
            * ATTOS_PER_UNIT,
        remainder.attos() == deposit.attos() - (deposit.attos() / (ATTOS_PER_UNIT as int))
            * ATTOS_PER_UNIT,
        post.nft_counter == pre.nft_counter,
        post.shards == pre.shards,
        deposit.attos() >= ATTOS_PER_UNIT ==> post.ticket_counter > pre.ticket_counter,
{
    vstd::arithmetic::div_mod::lemma_fundamental_div_mod(deposit.attos(), ATTOS_PER_UNIT as int);
    vstd::arithmetic::div_mod::lemma_div_pos_is_pos(deposit.attos(), ATTOS_PER_UNIT as int);
}

/// Swap atomicity: for a ticket batch with at least one member that is not a
/// live, assigned ticket, the swap refuses the batch, mints no shard and
/// burns no ticket.
pub proof fn lemma_swap_atomicity(
    pre: ShardzView,
    bucket: BucketView,
    now: u64,
    post: ShardzView,
    r: Result<BucketView, ShardzError>,
)
    requires
        swap_post(pre, bucket, now, post, r),
        !all_assigned(pre.tickets, bucket.ids()),
    ensures
        r is Err,
        post == pre,
        post.shards == pre.shards,
        post.tickets == pre.tickets,
{
}

/// Swap correctness: for an all-assigned batch, one shard comes out per
/// ticket that went in, each shard carries exactly the type its source ticket
/// carried, and the consumed tickets no longer exist.
pub proof fn lemma_swap_correctness(
    pre: ShardzView,
    bucket: BucketView,
    now: u64,
    post: ShardzView,
    out: BucketView,
)
    requires
        pre.wf(),
        swap_ok(pre, bucket, now, post, out),
    ensures
        out.ids().len() == bucket.ids().len(),
        forall|i: int|
            0 <= i < out.ids().len() ==> post.shards.contains_key(#[trigger] out.ids()[i])
                && post.shards[out.ids()[i]].shard_type == pre.tickets[bucket.ids()[i]]->0,
        forall|i: int|
            0 <= i < bucket.ids().len() ==> !post.tickets.contains_key(#[trigger] bucket.ids()[i]),
        bucket.ids().len() > 0 ==> post.nft_counter > pre.nft_counter,
{
    let n = bucket.ids().len() as int;
    assert forall|i: int| 0 <= i < out.ids().len() implies post.shards.contains_key(
        #[trigger] out.ids()[i],
    ) && post.shards[out.ids()[i]].shard_type == pre.tickets[bucket.ids()[i]]->0 by {
        let id = out.ids()[i];
        assert(id == pre.nft_counter + i);
        assert(post.shards == with_minted_shards(pre, bucket.ids(), to_minutes_spec(now)));
    }
    assert forall|i: int| 0 <= i < bucket.ids().len() implies !post.tickets.contains_key(
        #[trigger] bucket.ids()[i],
    ) by {
        assert(bucket.ids().to_set().contains(bucket.ids()[i]));
    }
}

/// One public operation, as a relation on engine states: a refused call
/// leaves the state as it was, a successful one relates the states as the
/// matching predicate says.
pub open spec fn op_step(pre: ShardzView, post: ShardzView) -> bool {
    ||| post == pre
    ||| exists|deposit: BucketView, tickets: BucketView, remainder: BucketView|
        bond_ok(pre, deposit, post, tickets, remainder)
    ||| exists|ticket_id: u64, shard_type: ShardType| assign_ok(pre, ticket_id, shard_type, post)
    ||| exists|bucket: BucketView, now: u64, out: BucketView| swap_ok(pre, bucket, now, post, out)
    ||| exists|bucket: BucketView, now: u64, out: BucketView|
        destroy_ok(pre, bucket, now, post, out)
}

/// Identifier monotonicity, one step: no operation, successful or refused,
/// ever decreases either counter.
pub proof fn lemma_step_counters_monotone(pre: ShardzView, post: ShardzView)
    requires
        op_step(pre, post),
    ensures
        pre.ticket_counter <= post.ticket_counter,
        pre.nft_counter <= post.nft_counter,
{
    if exists|deposit: BucketView, tickets: BucketView, remainder: BucketView|
        bond_ok(pre, deposit, post, tickets, remainder) {
        let (deposit, tickets, remainder) = choose|
            deposit: BucketView,
            tickets: BucketView,
            remainder: BucketView,
        | bond_ok(pre, deposit, post, tickets, remainder);
        vstd::arithmetic::div_mod::lemma_div_pos_is_pos(deposit.attos(), ATTOS_PER_UNIT as int);
    }
}

/// Identifier monotonicity, whole histories: across any sequence of
/// operations, each counter only ever grows.
pub proof fn lemma_trace_counters_monotone(trace: Seq<ShardzView>, i: int, j: int)
    requires
        forall|k: int| 0 <= k < trace.len() - 1 ==> op_step(#[trigger] trace[k], trace[k + 1]),
        0 <= i <= j < trace.len(),
    ensures
        trace[i].ticket_counter <= trace[j].ticket_counter,
        trace[i].nft_counter <= trace[j].nft_counter,
    decreases j - i,
{
    if i < j {
        lemma_trace_counters_monotone(trace, i, j - 1);
        lemma_step_counters_monotone(trace[j - 1], trace[j]);
    }
}

/// No ticket identifier is ever issued twice: two successful bonds, the
/// second starting from a counter no lower than the first left behind, draw
/// disjoint identifier sets — whatever happened in between, and even though
/// the first batch may long since have been burned.
pub proof fn lemma_ticket_ids_never_reissued(
    pre1: ShardzView,
    deposit1: BucketView,
    post1: ShardzView,
    tickets1: BucketView,
    remainder1: BucketView,
    pre2: ShardzView,
    deposit2: BucketView,
    post2: ShardzView,
    tickets2: BucketView,
    remainder2: BucketView,
)
    requires
        bond_ok(pre1, deposit1, post1, tickets1, remainder1),
        bond_ok(pre2, deposit2, post2, tickets2, remainder2),
        post1.ticket_counter <= pre2.ticket_counter,
    ensures
        forall|i: int, j: int|
            0 <= i < tickets1.ids().len() && 0 <= j < tickets2.ids().len()
                ==> #[trigger] tickets1.ids()[i] != #[trigger] tickets2.ids()[j],
{
    vstd::arithmetic::div_mod::lemma_div_pos_is_pos(deposit1.attos(), ATTOS_PER_UNIT as int);
    vstd::arithmetic::div_mod::lemma_div_pos_is_pos(deposit2.attos(), ATTOS_PER_UNIT as int);
}

/// No shard identifier is ever issued twice: the same, for two successful
/// swaps and the shard counter.
pub proof fn lemma_shard_ids_never_reissued(
    pre1: ShardzView,
    bucket1: BucketView,
    now1: u64,
    post1: ShardzView,
    out1: BucketView,
    pre2: ShardzView,
    bucket2: BucketView,
    now2: u64,
    post2: ShardzView,
    out2: BucketView,
)
    requires
        swap_ok(pre1, bucket1, now1, post1, out1),
        swap_ok(pre2, bucket2, now2, post2, out2),
        post1.nft_counter <= pre2.nft_counter,
    ensures
        forall|i: int, j: int|
            0 <= i < out1.ids().len() && 0 <= j < out2.ids().len()
                ==> #[trigger] out1.ids()[i] != #[trigger] out2.ids()[j],
{
}

/// Cooldown atomicity: for a shard batch with at least one member younger
/// than the cooldown, the destroy refuses the batch, mints no fungible and
/// burns no shard.
pub proof fn lemma_destroy_atomicity(
    pre: ShardzView,
    bucket: BucketView,
    now: u64,
    post: ShardzView,
    r: Result<BucketView, ShardzError>,
)
    requires
        destroy_post(pre, bucket, now, post, r),
        !all_eligible(pre.shards, bucket.ids(), now),
    ensures
        r is Err,
        post == pre,
        post.shards == pre.shards,
        post.fungible_supply == pre.fungible_supply,
{
}

/// The ticket records after the first `m` tickets of a batch have each been
/// assigned their type, in batch order.
spec fn with_assigned(
    tickets: Map<u64, Option<ShardType>>,
    ids: Seq<u64>,
    types: Seq<ShardType>,
    m: int,
) -> Map<u64, Option<ShardType>>
    decreases m,
{
    if m <= 0 {
        tickets
    } else {
        with_assigned(tickets, ids, types, m - 1).insert(ids[m - 1], Some(types[m - 1]))
    }
}

/// A chain of successful assignments, one per batch ticket, leads to the
/// state with exactly those tickets assigned and nothing else changed.
proof fn lemma_assign_chain(states: Seq<ShardzView>, ids: Seq<u64>, types: Seq<ShardType>, m: int)
    requires
        states.len() == ids.len() + 1,
        types.len() == ids.len(),
        forall|k: int|
            0 <= k < ids.len() ==> assign_ok(#[trigger] states[k], ids[k], types[k], states[k + 1]),
        0 <= m <= ids.len(),
    ensures
        states[m] == (ShardzView {
            tickets: with_assigned(states[0].tickets, ids, types, m),
            ..states[0]
        }),
    decreases m,
{
    if m > 0 {
        lemma_assign_chain(states, ids, types, m - 1);
        assert(assign_ok(states[m - 1], ids[m - 1], types[m - 1], states[m]));
    }
}

/// A key no assignment of the batch touches keeps its record.
proof fn lemma_with_assigned_frame(
    tickets: Map<u64, Option<ShardType>>,
    ids: Seq<u64>,
    types: Seq<ShardType>,
    m: int,
    k: u64,
)
    requires
        0 <= m <= ids.len(),
        forall|j: int| 0 <= j < m ==> ids[j] != k,
    ensures
        with_assigned(tickets, ids, types, m).contains_key(k) == tickets.contains_key(k),
        tickets.contains_key(k) ==> with_assigned(tickets, ids, types, m)[k] == tickets[k],
    decreases m,
{
    if m > 0 {
        lemma_with_assigned_frame(tickets, ids, types, m - 1, k);
    }
}

/// Each assigned ticket carries exactly the type it was assigned.
proof fn lemma_with_assigned_at(
    tickets: Map<u64, Option<ShardType>>,
    ids: Seq<u64>,
    types: Seq<ShardType>,
    m: int,
    i: int,
)
    requires
        ids.no_duplicates(),
        0 <= i < m <= ids.len(),
        types.len() == ids.len(),
    ensures
        with_assigned(tickets, ids, types, m).contains_key(ids[i]),
        with_assigned(tickets, ids, types, m)[ids[i]] == Some(types[i]),
    decreases m,
{
    if i < m - 1 {
        lemma_with_assigned_at(tickets, ids, types, m - 1, i);
        assert(ids[m - 1] != ids[i]);
    }
}

/// Round trip: bonding a whole-unit deposit, assigning every minted ticket a
/// type, swapping the whole ticket batch, waiting out the cooldown and
/// destroying the whole shard batch succeeds end to end, returns exactly the
/// deposited quantity, and leaves the records and the fungible supply
/// exactly as they started. Only the counters have moved on: the spent
/// identifiers are retired forever.
pub proof fn lemma_round_trip(
    s0: ShardzView,
    deposit: BucketView,
    s1: ShardzView,
    tickets: BucketView,
    remainder: BucketView,
    states: Seq<ShardzView>,
    types: Seq<ShardType>,
    swap_now: u64,
    s2: ShardzView,
    swap_r: Result<BucketView, ShardzError>,
    destroy_now: u64,
    s3: ShardzView,
    destroy_r: Result<BucketView, ShardzError>,
)
    requires
        s0.wf(),
        deposit.attos() % (ATTOS_PER_UNIT as int) == 0,
        bond_ok(s0, deposit, s1, tickets, remainder),
        states.len() == tickets.ids().len() + 1,
        states[0] == s1,
        types.len() == tickets.ids().len(),
        forall|k: int|
            0 <= k < tickets.ids().len() ==> assign_ok(
                #[trigger] states[k],
                tickets.ids()[k],
                types[k],
                states[k + 1],
            ),
        swap_post(states[states.len() - 1], tickets, swap_now, s2, swap_r),
        to_minutes_spec(destroy_now) >= to_minutes_spec(swap_now) + COOLDOWN_SECONDS,
        swap_r matches Ok(out) ==> destroy_post(s2, out, destroy_now, s3, destroy_r),
    ensures
        swap_r is Ok,
        destroy_r is Ok,
        destroy_r matches Ok(refund) ==> {
            &&& refund.contents is Fungible
            &&& refund.resource == s0.fungible_address
            &&& refund.attos() == deposit.attos()
        },
        s3.tickets == s0.tickets,
        s3.shards == s0.shards,
        s3.fungible_supply == s0.fungible_supply,
        s3.ticket_counter == s0.ticket_counter + tickets.ids().len(),
        s3.nft_counter == s0.nft_counter + tickets.ids().len(),
{
    let ids = tickets.ids();
    let n = ids.len() as int;
    let tc0 = s0.ticket_counter;
    let nc0 = s0.nft_counter;
    let nd = deposit.attos() / (ATTOS_PER_UNIT as int);
    vstd::arithmetic::div_mod::lemma_div_pos_is_pos(deposit.attos(), ATTOS_PER_UNIT as int);
    vstd::arithmetic::div_mod::lemma_fundamental_div_mod(deposit.attos(), ATTOS_PER_UNIT as int);
    assert(ids == minted_ids(tc0, nd));
    assert(n == nd);
    assert(ids.no_duplicates()) by {
        assert forall|i: int, j: int|
            0 <= i < ids.len() && 0 <= j < ids.len() && i != j implies ids[i] != ids[j] by {
            assert(ids[i] == tc0 + i);
            assert(ids[j] == tc0 + j);
        }
    }
    lemma_minted_ids_to_set(tc0, n);

    // After the assignment chain, every batch ticket carries its type and
    // nothing else has changed.
    let sn = states[states.len() - 1];
    lemma_assign_chain(states, ids, types, n);
    assert(sn == (ShardzView { tickets: with_assigned(s1.tickets, ids, types, n), ..s1 }));
    assert forall|i: int| 0 <= i < n implies sn.tickets.contains_key(#[trigger] ids[i])
        && sn.tickets[ids[i]] is Some by {
        lemma_with_assigned_at(s1.tickets, ids, types, n, i);
    }
    assert(all_assigned(sn.tickets, ids));

    // The swap cannot have been refused.
    let out = match swap_r {
        Ok(out) => out,
        Err(e) => {
            assert(tickets.resource == sn.ticket_address);
            proof_from_false()
        },
    };
    assert(swap_ok(sn, tickets, swap_now, s2, out));
    lemma_minted_ids_to_set(nc0, n);

    // The ticket records are back to where they started.
    assert forall|k: u64| #[trigger] s2.tickets.contains_key(k) implies s0.tickets.contains_key(k)
        && s2.tickets[k] == s0.tickets[k] by {
        assert(!ids.to_set().contains(k));
        assert forall|j: int| 0 <= j < n implies ids[j] != k by {
            if ids[j] == k {
                assert(ids.to_set().contains(k));
            }
        }
        lemma_with_assigned_frame(s1.tickets, ids, types, n, k);
    }
    assert forall|k: u64| #[trigger] s0.tickets.contains_key(k) implies s2.tickets.contains_key(
        k,
    ) by {
        assert(k < tc0);
        assert(!ids.to_set().contains(k));
        assert forall|j: int| 0 <= j < n implies ids[j] != k by {
            if ids[j] == k {
                assert(ids.to_set().contains(k));
            }
        }
        lemma_with_assigned_frame(s1.tickets, ids, types, n, k);
    }
    assert(s2.tickets =~= s0.tickets);

    // Every minted shard is old enough by destroy time, so the destroy
    // cannot have been refused either.
    assert forall|i: int| 0 <= i < n implies s2.shards.contains_key(#[trigger] out.ids()[i])
        && s2.shards[out.ids()[i]].mint_time == to_minutes_spec(swap_now) by {
        assert(out.ids()[i] == nc0 + i);
        assert(s2.shards == with_minted_shards(sn, ids, to_minutes_spec(swap_now)));
    }
    assert(all_eligible(s2.shards, out.ids(), destroy_now));
    let refund = match destroy_r {
        Ok(refund) => refund,
        Err(e) => {
            assert(out.resource == s2.nft_address);
            proof_from_false()
        },
    };
    assert(destroy_ok(s2, out, destroy_now, s3, refund));

    // The shard records are back to where they started as well.
    assert forall|k: u64| #[trigger] s3.shards.contains_key(k) implies s0.shards.contains_key(k)
        && s3.shards[k] == s0.shards[k] by {
        assert(!out.ids().to_set().contains(k));
        assert(!(nc0 <= k < nc0 + n));
    }
    assert forall|k: u64| #[trigger] s0.shards.contains_key(k) implies s3.shards.contains_key(
        k,
    ) by {
        assert(k < nc0);
        assert(!out.ids().to_set().contains(k));
    }
    assert(s3.shards =~= s0.shards);
}

} // verus!
