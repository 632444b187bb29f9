use vstd::prelude::*;

use crate::amount::Amount;

verus! {

/// What a bucket holds: a divisible quantity of a fungible resource, or the
/// identifiers of non-fungible records. The records' data lives with the
/// resource definition, not in the bucket.
#[derive(Debug)]
pub enum BucketContents {
    Fungible { amount: Amount },
    NonFungible { ids: Vec<u64> },
}

/// A transient container of one resource, identified by its address. Buckets
/// are linear: they cannot be cloned, and burning one consumes it, so a
/// non-fungible identifier cannot outlive its record through a stale bucket.
#[derive(Debug)]
pub struct Bucket {
    resource: u64,
    contents: BucketContents,
}

pub enum BucketContentsView {
    Fungible { attos: int },
    NonFungible { ids: Seq<u64> },
}

pub struct BucketView {
    pub resource: u64,
    pub contents: BucketContentsView,
}

impl BucketView {
    pub open spec fn is_fungible(self) -> bool {
        self.contents is Fungible
    }

    /// The held quantity, in attos. Meaningful only for a fungible bucket.
    pub open spec fn attos(self) -> int {
        self.contents->attos
    }

    /// The held non-fungible identifiers, in the bucket's iteration order.
    pub open spec fn ids(self) -> Seq<u64> {
        self.contents->ids
    }

    /// A bucket never carries the same non-fungible record twice.
    pub open spec fn wf(self) -> bool {
        self.contents is NonFungible ==> self.ids().no_duplicates()
    }
}

impl View for BucketContents {
    type V = BucketContentsView;

    open spec fn view(&self) -> BucketContentsView {
        match self {
            BucketContents::Fungible { amount } => BucketContentsView::Fungible {
                attos: amount.attos_spec(),
            },
            BucketContents::NonFungible { ids } => BucketContentsView::NonFungible { ids: ids@ },
        }
    }
}

impl View for Bucket {
    type V = BucketView;

    closed spec fn view(&self) -> BucketView {
        BucketView { resource: self.resource, contents: self.contents@ }
    }
}

impl Bucket {
    pub fn new_fungible(resource: u64, amount: Amount) -> (r: Bucket)
        ensures
            r@.resource == resource,
            r@.contents is Fungible,
            r@.attos() == amount.attos_spec(),
            r@.wf(),
    {
        Bucket { resource, contents: BucketContents::Fungible { amount } }
    }

    /// Present a batch of non-fungible records, as a host hands one in. A
    /// batch that repeats an identifier is not well formed, and the engine's
    /// operations do not accept it.
    pub fn new_non_fungible(resource: u64, ids: Vec<u64>) -> (r: Bucket)
        ensures
            r@.resource == resource,
            r@.contents is NonFungible,
            r@.ids() == ids@,
            ids@.no_duplicates() ==> r@.wf(),
    {
        Bucket { resource, contents: BucketContents::NonFungible { ids } }
    }

    pub(crate) fn new_empty_nonfungible(resource: u64) -> (r: Bucket)
        ensures
            r@.resource == resource,
            r@.contents is NonFungible,
            r@.ids() == Seq::<u64>::empty(),
            r@.wf(),
    {
        Bucket { resource, contents: BucketContents::NonFungible { ids: Vec::new() } }
    }

    /// Add one freshly minted non-fungible record to the bucket.
    pub(crate) fn push_id(&mut self, id: u64)
        requires
            old(self)@.contents is NonFungible,
            !old(self)@.ids().contains(id),
        ensures
            final(self)@.resource == old(self)@.resource,
            final(self)@.contents is NonFungible,
            final(self)@.ids() == old(self)@.ids().push(id),
            old(self)@.wf() ==> final(self)@.wf(),
    {
        match &mut self.contents {
            BucketContents::NonFungible { ids } => {
                ids.push(id);
            },
            BucketContents::Fungible { .. } => {
                proof {
                    assert(false);
                }
            },
        }
    }

    pub fn resource_address(&self) -> (r: u64)
        ensures
            r == self@.resource,
    {
        self.resource
    }

    /// The bucket's quantity: for a fungible bucket what it holds, for a
    /// non-fungible bucket one whole unit per record, as the ledger counts it.
    pub fn amount(&self) -> (r: Amount)
        ensures
            self@.is_fungible() ==> r.attos_spec() == self@.attos(),
            !self@.is_fungible() ==> r.whole_units() == self@.ids().len() && r.frac_attos() == 0,
    {
        match &self.contents {
            BucketContents::Fungible { amount } => *amount,
            BucketContents::NonFungible { ids } => {
                let n: u64 = ids.len() as u64;
                let r = Amount::from_units(n);
                proof {
                    vstd::arithmetic::div_mod::lemma_fundamental_div_mod_converse(
                        r.attos_spec(),
                        crate::amount::ATTOS_PER_UNIT as int,
                        n as int,
                        0,
                    );
                }
                r
            },
        }
    }

    pub fn contents(&self) -> (r: &BucketContents)
        ensures
            r@ == self@.contents,
    {
        &self.contents
    }

    /// Split off part of a fungible bucket, as a deposit is prepared.
    pub fn take(&mut self, amount: Amount) -> (r: Bucket)
        requires
            old(self)@.contents is Fungible,
            amount.attos_spec() <= old(self)@.attos(),
        ensures
            final(self)@.resource == old(self)@.resource,
            final(self)@.contents is Fungible,
            final(self)@.attos() == old(self)@.attos() - amount.attos_spec(),
            r@.resource == old(self)@.resource,
            r@.contents is Fungible,
            r@.attos() == amount.attos_spec(),
    {
        let resource = self.resource;
        match &mut self.contents {
            BucketContents::Fungible { amount: held } => {
                let taken = Bucket {
                    resource,
                    contents: BucketContents::Fungible { amount },
                };
                *held = held.minus(&amount);
                taken
            },
            BucketContents::NonFungible { .. } => {
                proof {
                    assert(false);
                }
                vstd::pervasive::unreached()
            },
        }
    }

    /// Pour another bucket of the same resource into this one: quantities
    /// add, non-fungible identifiers are taken over in order.
    pub fn put(&mut self, other: Bucket)
        requires
            other@.resource == old(self)@.resource,
            old(self)@.contents is Fungible <==> other@.contents is Fungible,
            old(self)@.contents is Fungible ==> old(self)@.attos() + other@.attos() <= u128::MAX,
            old(self)@.contents is NonFungible ==> forall|i: int|
                0 <= i < other@.ids().len() ==> !old(self)@.ids().contains(
                    #[trigger] other@.ids()[i],
                ),
        ensures
            final(self)@.resource == old(self)@.resource,
            final(self)@.contents is Fungible <==> old(self)@.contents is Fungible,
            old(self)@.contents is Fungible ==> final(self)@.attos() == old(self)@.attos()
                + other@.attos(),
            old(self)@.contents is NonFungible ==> final(self)@.ids() == old(self)@.ids()
                + other@.ids(),
            old(self)@.wf() && other@.wf() ==> final(self)@.wf(),
    {
        let ghost pre = self@;
        let Bucket { resource: _, contents } = other;
        match &mut self.contents {
            BucketContents::Fungible { amount: held } => {
                match contents {
                    BucketContents::Fungible { amount } => {
                        *held = held.plus(&amount);
                    },
                    BucketContents::NonFungible { .. } => {
                        proof {
                            assert(false);
                        }
                    },
                }
            },
            BucketContents::NonFungible { ids: held } => {
                match contents {
                    BucketContents::NonFungible { ids } => {
                        let mut incoming = ids;
                        held.append(&mut incoming);
                        proof {
                            if pre.wf() && other@.wf() {
                                lemma_disjoint_concat_no_duplicates(pre.ids(), other@.ids());
                            }
                        }
                    },
                    BucketContents::Fungible { .. } => {
                        proof {
                            assert(false);
                        }
                    },
                }
            },
        }
    }
}

/// Two duplicate-free identifier runs with no identifier in common stay
/// duplicate-free laid end to end.
proof fn lemma_disjoint_concat_no_duplicates(a: Seq<u64>, b: Seq<u64>)
    requires
        a.no_duplicates(),
        b.no_duplicates(),
        forall|i: int| 0 <= i < b.len() ==> !a.contains(#[trigger] b[i]),
    ensures
        (a + b).no_duplicates(),
{
    let c = a + b;
    assert forall|i: int, j: int|
        0 <= i < c.len() && 0 <= j < c.len() && i != j implies c[i] != c[j] by {
        if i < a.len() && j < a.len() {
            assert(c[i] == a[i] && c[j] == a[j]);
        } else if i >= a.len() && j >= a.len() {
            assert(c[i] == b[i - a.len()] && c[j] == b[j - a.len()]);
        } else if i < a.len() && j >= a.len() {
            assert(c[i] == a[i] && c[j] == b[j - a.len()]);
            if c[i] == c[j] {
                assert(a.contains(b[j - a.len()]));
            }
        } else {
            assert(c[i] == b[i - a.len()] && c[j] == a[j]);
            if c[i] == c[j] {
                assert(a.contains(b[i - a.len()]));
            }
        }
    }
}

} // verus!
