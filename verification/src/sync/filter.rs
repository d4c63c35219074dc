use vstd::prelude::*;

use rand::rngs::StdRng;
use rand::SeedableRng;
use scalable_cuckoo_filter::{DefaultHasher, ScalableCuckooFilter, ScalableCuckooFilterBuilder};

use crate::address_set::{lemma_take_next, AddressSet};
use crate::db::types::Address;

verus! {

/// `rand::rngs::StdRng`, the generator from which the approximate filter
/// draws when it moves its entries.
#[verifier::external_type_specification]
#[verifier::external_body]
pub struct ExStdRng(StdRng);

/// `scalable_cuckoo_filter::DefaultHasher`, the hasher of the approximate
/// filter.
#[verifier::external_type_specification]
#[verifier::external_body]
pub struct ExDefaultHasher(DefaultHasher);

/// `scalable_cuckoo_filter::ScalableCuckooFilter`.
#[verifier::external_type_specification]
#[verifier::external_body]
#[verifier::reject_recursive_types(T)]
#[verifier::reject_recursive_types(H)]
#[verifier::reject_recursive_types(R)]
pub struct ExScalableCuckooFilter<T: ?Sized, H, R>(ScalableCuckooFilter<T, H, R>);

/// The byte strings that were inserted into the approximate filter.
pub uninterp spec fn approx_items(f: ScalableCuckooFilter<[u8; 20], DefaultHasher, StdRng>) -> Set<
    Seq<u8>,
>;

/// The initial capacity that the approximate filter was built with.
pub uninterp spec fn approx_hint(f: ScalableCuckooFilter<[u8; 20], DefaultHasher, StdRng>) -> nat;

/// The number of entries for which the approximate filter has room in the
/// layers that it has made so far.
pub uninterp spec fn approx_capacity(
    f: ScalableCuckooFilter<[u8; 20], DefaultHasher, StdRng>,
) -> nat;

/// Up to this capacity the approximate layer takes new addresses. Above it
/// the filter answers from the exact layer alone.
pub const APPROX_CAPACITY_LIMIT: usize = 0x4000_0000;

/// `StdRng::try_from_os_rng`: a generator seeded by the operating system, or
/// `None` where the system gave no seed. Nothing is claimed of the
/// generator.
#[verifier::external_body]
fn os_rng() -> (r: Option<StdRng>) {
    StdRng::try_from_os_rng().ok()
}

/// `ScalableCuckooFilterBuilder::new`, `initial_capacity`, `rng` and
/// `finish`, with the builder's own false-positive probability (0.001) and
/// bucket size (4): an empty filter that remembers `hint`.
#[verifier::external_body]
fn approx_new(hint: usize, rng: StdRng) -> (f: ScalableCuckooFilter<
    [u8; 20],
    DefaultHasher,
    StdRng,
>)
    requires
        1 <= hint <= APPROX_CAPACITY_LIMIT,
    ensures
        approx_items(f) == Set::<Seq<u8>>::empty(),
        approx_hint(f) == hint,
{
    ScalableCuckooFilterBuilder::new().initial_capacity(hint).rng(rng).finish()
}

/// `ScalableCuckooFilter::capacity`: the entries of all layers together.
#[verifier::external_body]
fn approx_capacity_of(f: &ScalableCuckooFilter<[u8; 20], DefaultHasher, StdRng>) -> (c: usize)
    ensures
        c == approx_capacity(*f),
{
    f.capacity()
}

/// `ScalableCuckooFilter::insert`: the item is in the filter afterwards, and
/// so is all that was in it.
///
/// The filter adds a layer when its last one cannot place an entry. Layer
/// `k` is made for `hint * 2^k` entries, with fingerprints of `k + 14`
/// bits, and the filter's bit store handles fingerprints of up to 56 bits.
/// The layers have room for at least `hint * (2^n - 1)` entries when there
/// are `n` of them, so with a hint of at least 1 and a capacity below the
/// limit there are at most 30 layers before the call and 31 after it.
#[verifier::external_body]
fn approx_insert(f: &mut ScalableCuckooFilter<[u8; 20], DefaultHasher, StdRng>, item: &[u8; 20])
    requires
        approx_hint(*old(f)) >= 1,
        approx_capacity(*old(f)) < APPROX_CAPACITY_LIMIT,
    ensures
        approx_items(*final(f)) == approx_items(*old(f)).insert(item@),
        approx_hint(*final(f)) == approx_hint(*old(f)),
{
    f.insert(item)
}

/// `ScalableCuckooFilter::contains`: `true` for every item that was
/// inserted. For another item the answer may be either: it depends on the
/// hashes of what is in the filter and on the generator's draws.
#[verifier::external_body]
fn approx_contains(f: &ScalableCuckooFilter<[u8; 20], DefaultHasher, StdRng>, item: &[u8; 20]) -> (r:
    bool)
    ensures
        approx_items(*f).contains(item@) ==> r,
{
    f.contains(item)
}

/// The membership test of a worker: an approximate filter that never misses
/// an address, in front of the exact set of watched addresses.
pub struct AddressFilter {
    /// The approximate layer. `None` where the system gave no seed for it or
    /// it has reached its capacity limit: the exact layer then answers
    /// alone.
    approx: Option<ScalableCuckooFilter<[u8; 20], DefaultHasher, StdRng>>,
    /// The exact layer.
    exact: AddressSet,
}

impl View for AddressFilter {
    type V = Set<Address>;

    closed spec fn view(&self) -> Set<Address> {
        self.exact@
    }
}

/// Every address of `exact` was inserted into `f`, and `f` was built with a
/// capacity of at least 1.
spec fn layered(
    approx: Option<ScalableCuckooFilter<[u8; 20], DefaultHasher, StdRng>>,
    exact: Set<Address>,
) -> bool {
    approx matches Some(f) ==> {
        &&& approx_hint(f) >= 1
        &&& forall|a: Address| #[trigger] exact.contains(a) ==> approx_items(f).contains(a@)
    }
}

/// Adds `a` to the approximate layer, or gives the layer up where it has no
/// room left.
fn approx_add(
    approx: Option<ScalableCuckooFilter<[u8; 20], DefaultHasher, StdRng>>,
    a: &Address,
    Ghost(exact): Ghost<Set<Address>>,
) -> (r: Option<ScalableCuckooFilter<[u8; 20], DefaultHasher, StdRng>>)
    requires
        layered(approx, exact),
    ensures
        layered(r, exact.insert(*a)),
        r is Some <==> (approx matches Some(f) && approx_capacity(f) < APPROX_CAPACITY_LIMIT),
        r matches Some(g) ==> {
            &&& approx_items(g) == approx_items(approx->0).insert(a@)
            &&& approx_hint(g) == approx_hint(approx->0)
        },
{
    match approx {
        Some(mut f) => {
            if approx_capacity_of(&f) < APPROX_CAPACITY_LIMIT {
                approx_insert(&mut f, &a.0);
                Some(f)
            } else {
                None
            }
        },
        None => None,
    }
}

impl AddressFilter {
    #[verifier::type_invariant]
    spec fn inv(self) -> bool {
        layered(self.approx, self.exact@)
    }

    /// A filter for the given addresses. The approximate layer is built for
    /// as many entries as there are addresses, and for one at least.
    pub fn new(addresses: &Vec<Address>) -> (filter: AddressFilter)
        ensures
            filter@ == addresses@.to_set(),
    {
        let mut exact = AddressSet::new();
        let mut i: usize = 0;
        while i < addresses.len()
            invariant
                0 <= i <= addresses@.len(),
                exact@ == addresses@.take(i as int).to_set(),
            decreases addresses@.len() - i,
        {
            exact.insert(addresses[i]);
            proof {
                lemma_take_next(addresses@, i as int);
            }
            i += 1;
        }
        assert(addresses@.take(i as int) =~= addresses@);
        let count = exact.len();
        let hint: usize = if count == 0 {
            1
        } else {
            count
        };
        let mut approx: Option<ScalableCuckooFilter<[u8; 20], DefaultHasher, StdRng>> = None;
        if hint <= APPROX_CAPACITY_LIMIT {
            if let Some(rng) = os_rng() {
                approx = Some(approx_new(hint, rng));
                let ghost mut done: Set<Address> = Set::empty();
                let mut k: usize = 0;
                while k < count
                    invariant
                        count == exact.seq().len(),
                        0 <= k <= count,
                        layered(approx, done),
                        forall|a: Address|
                            #[trigger] done.contains(a) <==> exact.seq().take(k as int).contains(a),
                    decreases count - k,
                {
                    let a = exact.get(k);
                    approx = approx_add(approx, &a, Ghost(done));
                    proof {
                        lemma_take_next(exact.seq(), k as int);
                        let next = done.insert(a);
                        assert(a == exact.seq()[k as int]);
                        assert forall|b: Address| #[trigger]
                            next.contains(b) <==> exact.seq().take(k + 1).contains(b) by {
                            assert(done.contains(b) <==> exact.seq().take(k as int).contains(b));
                        }
                        done = next;
                    }
                    k += 1;
                }
                proof {
                    assert(exact.seq().take(k as int) =~= exact.seq());
                    exact.lemma_view_is_seq();
                    assert forall|a: Address| #[trigger] exact@.contains(a) implies done.contains(
                        a,
                    ) by {
                        assert(exact.seq().contains(a));
                    }
                }
            }
        }
        proof {
            if approx is Some {
                assert(layered(approx, exact@));
            }
        }
        AddressFilter { approx, exact }
    }

    /// The number of watched addresses.
    pub fn len(&self) -> (n: usize)
        ensures
            n == self@.len(),
    {
        self.exact.len()
    }

    /// Whether `a` is watched. The approximate layer is asked first, and the
    /// exact set only where it says yes.
    pub fn contains(&self, a: &Address) -> (r: bool)
        ensures
            r == self@.contains(*a),
    {
        proof {
            use_type_invariant(self);
        }
        match &self.approx {
            Some(f) => {
                if approx_contains(f, &a.0) {
                    self.exact.contains(a)
                } else {
                    false
                }
            },
            None => self.exact.contains(a),
        }
    }

    /// Watches `a` from now on. Both layers take it; an address that is
    /// watched already changes nothing.
    pub fn insert(&mut self, a: Address) -> (added: bool)
        ensures
            final(self)@ == old(self)@.insert(a),
            added == !old(self)@.contains(a),
    {
        proof {
            use_type_invariant(&*self);
        }
        let mut exact = AddressSet::new();
        let mut approx: Option<ScalableCuckooFilter<[u8; 20], DefaultHasher, StdRng>> = None;
        core::mem::swap(&mut self.approx, &mut approx);
        core::mem::swap(&mut self.exact, &mut exact);
        let ghost before = exact@;
        let added = exact.insert(a);
        if added {
            approx = approx_add(approx, &a, Ghost(before));
        } else {
            assert(before.insert(a) =~= before);
        }
        core::mem::swap(&mut self.exact, &mut exact);
        core::mem::swap(&mut self.approx, &mut approx);
        added
    }
}

} // verus!
