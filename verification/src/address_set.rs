use vstd::prelude::*;

use crate::db::types::{addr_lt, lemma_addr_lt_total, lemma_addr_lt_transitive, Address, Order};

verus! {

/// Every item is below every later one, so no address occurs twice.
pub open spec fn sorted_addresses(s: Seq<Address>) -> bool {
    forall|i: int, j: int| 0 <= i < j < s.len() ==> addr_lt(#[trigger] s[i], #[trigger] s[j])
}

/// The addresses of `s` in ascending order.
pub open spec fn sorted_seq(s: Set<Address>) -> Seq<Address> {
    choose|q: Seq<Address>| sorted_addresses(q) && q.to_set() == s
}

/// Two ascending sequences that hold the same addresses are one sequence.
pub proof fn lemma_sorted_unique(p: Seq<Address>, q: Seq<Address>)
    requires
        sorted_addresses(p),
        sorted_addresses(q),
        forall|a: Address| p.contains(a) <==> q.contains(a),
    ensures
        p == q,
    decreases p.len(),
{
    if p.len() == 0 {
        if q.len() > 0 {
            assert(q.contains(q[0]));
        }
        assert(p =~= q);
    } else {
        assert(p.contains(p[0]));
        assert(q.contains(p[0]));
        let k = choose|k: int| 0 <= k < q.len() && q[k] == p[0];
        assert(q.contains(q[0]));
        let i = choose|i: int| 0 <= i < p.len() && p[i] == q[0];
        lemma_addr_lt_total(p[0], q[0]);
        assert(p[0] == q[0]);
        let pt = p.subrange(1, p.len() as int);
        let qt = q.subrange(1, q.len() as int);
        assert forall|a: Address| pt.contains(a) <==> qt.contains(a) by {
            if pt.contains(a) {
                let m = choose|m: int| 0 <= m < pt.len() && pt[m] == a;
                assert(p[m + 1] == a);
                assert(addr_lt(p[0], p[m + 1]));
                assert(p.contains(a));
                let n = choose|n: int| 0 <= n < q.len() && q[n] == a;
                lemma_addr_lt_total(p[0], a);
                assert(n != 0);
                assert(qt[n - 1] == a);
            }
            if qt.contains(a) {
                let m = choose|m: int| 0 <= m < qt.len() && qt[m] == a;
                assert(q[m + 1] == a);
                assert(addr_lt(q[0], q[m + 1]));
                assert(q.contains(a));
                let n = choose|n: int| 0 <= n < p.len() && p[n] == a;
                lemma_addr_lt_total(q[0], a);
                assert(n != 0);
                assert(pt[n - 1] == a);
            }
        }
        assert forall|i: int, j: int| 0 <= i < j < pt.len() implies addr_lt(
            #[trigger] pt[i],
            #[trigger] pt[j],
        ) by {
            assert(addr_lt(p[i + 1], p[j + 1]));
        }
        assert forall|i: int, j: int| 0 <= i < j < qt.len() implies addr_lt(
            #[trigger] qt[i],
            #[trigger] qt[j],
        ) by {
            assert(addr_lt(q[i + 1], q[j + 1]));
        }
        lemma_sorted_unique(pt, qt);
        assert(p =~= seq![p[0]] + pt);
        assert(q =~= seq![q[0]] + qt);
    }
}

/// An ascending sequence is the ascending sequence of its own set.
pub proof fn lemma_sorted_seq_of(q: Seq<Address>)
    requires
        sorted_addresses(q),
    ensures
        sorted_seq(q.to_set()) == q,
{
    let s = q.to_set();
    let p = sorted_seq(s);
    assert(sorted_addresses(q) && q.to_set() == s);
    assert forall|a: Address| p.contains(a) <==> q.contains(a) by {
        assert(p.to_set().contains(a) == s.contains(a));
    }
    lemma_sorted_unique(p, q);
}

/// The ascending `q` with `x` put at its place.
pub open spec fn with_address(q: Seq<Address>, x: Address) -> Seq<Address>
    decreases q.len(),
{
    if q.len() == 0 {
        seq![x]
    } else if addr_lt(q.last(), x) {
        q.push(x)
    } else {
        with_address(q.drop_last(), x).push(q.last())
    }
}

proof fn lemma_with_address(q: Seq<Address>, x: Address)
    requires
        sorted_addresses(q),
        !q.contains(x),
    ensures
        sorted_addresses(with_address(q, x)),
        forall|a: Address| with_address(q, x).contains(a) <==> (q.contains(a) || a == x),
    decreases q.len(),
{
    let w = with_address(q, x);
    if q.len() == 0 {
        assert(w[0] == x);
    } else if addr_lt(q.last(), x) {
        assert forall|i: int, j: int| 0 <= i < j < w.len() implies addr_lt(
            #[trigger] w[i],
            #[trigger] w[j],
        ) by {
            if j < q.len() {
                assert(addr_lt(q[i], q[j]));
            } else if i < q.len() - 1 {
                assert(addr_lt(q[i], q[q.len() - 1]));
                lemma_addr_lt_transitive(q[i], q.last(), x);
            }
        }
        assert forall|a: Address| w.contains(a) <==> (q.contains(a) || a == x) by {
            if w.contains(a) {
                let k = choose|k: int| 0 <= k < w.len() && w[k] == a;
                if k < q.len() {
                    assert(q[k] == a);
                }
            }
            if q.contains(a) {
                let k = choose|k: int| 0 <= k < q.len() && q[k] == a;
                assert(w[k] == a);
            }
            assert(w[q.len() as int] == x);
        }
    } else {
        let rest = q.drop_last();
        let last = q.last();
        assert forall|i: int, j: int| 0 <= i < j < rest.len() implies addr_lt(
            #[trigger] rest[i],
            #[trigger] rest[j],
        ) by {
            assert(addr_lt(q[i], q[j]));
        }
        if rest.contains(x) {
            let k = choose|k: int| 0 <= k < rest.len() && rest[k] == x;
            assert(q[k] == x);
        }
        lemma_with_address(rest, x);
        let v = with_address(rest, x);
        assert(q.contains(last)) by {
            assert(q[q.len() - 1] == last);
        }
        lemma_addr_lt_total(x, last);
        assert forall|i: int, j: int| 0 <= i < j < w.len() implies addr_lt(
            #[trigger] w[i],
            #[trigger] w[j],
        ) by {
            if j < v.len() {
                assert(addr_lt(v[i], v[j]));
            } else {
                assert(v.contains(v[i]));
                if rest.contains(v[i]) {
                    let k = choose|k: int| 0 <= k < rest.len() && rest[k] == v[i];
                    assert(addr_lt(q[k], q[q.len() - 1]));
                }
            }
        }
        assert forall|a: Address| w.contains(a) <==> (q.contains(a) || a == x) by {
            if w.contains(a) {
                let k = choose|k: int| 0 <= k < w.len() && w[k] == a;
                if k < v.len() {
                    assert(v.contains(v[k]));
                    if rest.contains(a) {
                        let m = choose|m: int| 0 <= m < rest.len() && rest[m] == a;
                        assert(q[m] == a);
                    }
                }
            }
            if q.contains(a) {
                let k = choose|k: int| 0 <= k < q.len() && q[k] == a;
                if k < rest.len() {
                    assert(rest[k] == a);
                    assert(rest.contains(a));
                    assert(v.contains(a));
                    let m = choose|m: int| 0 <= m < v.len() && v[m] == a;
                    assert(w[m] == a);
                } else {
                    assert(w[v.len() as int] == a);
                }
            }
            if a == x {
                assert(v.contains(x));
                let m = choose|m: int| 0 <= m < v.len() && v[m] == x;
                assert(w[m] == x);
            }
        }
    }
}

/// Every finite set of addresses has its ascending sequence.
pub proof fn lemma_sorted_seq_exists(s: Set<Address>)
    requires
        s.finite(),
    ensures
        sorted_addresses(sorted_seq(s)),
        sorted_seq(s).to_set() == s,
    decreases s.len(),
{
    if s.len() == 0 {
        let q = Seq::<Address>::empty();
        assert(s =~= Set::<Address>::empty());
        assert(q.to_set() =~= s);
        assert(sorted_addresses(q) && q.to_set() == s);
    } else {
        let x = s.choose();
        let rest = s.remove(x);
        lemma_sorted_seq_exists(rest);
        let q = sorted_seq(rest);
        assert(!q.to_set().contains(x));
        lemma_with_address(q, x);
        let w = with_address(q, x);
        assert(w.to_set() =~= s) by {
            assert forall|a: Address| w.to_set().contains(a) <==> s.contains(a) by {
                assert(q.to_set().contains(a) == rest.contains(a));
            }
        }
        assert(sorted_addresses(w) && w.to_set() == s);
    }
}

/// The first `i + 1` addresses of a sequence are its first `i` and the one
/// at place `i`.
pub proof fn lemma_take_next(s: Seq<Address>, i: int)
    requires
        0 <= i < s.len(),
    ensures
        s.take(i + 1).to_set() == s.take(i).to_set().insert(s[i]),
        forall|a: Address| s.take(i + 1).contains(a) <==> (s.take(i).contains(a) || a == s[i]),
{
    let t0 = s.take(i);
    let t1 = s.take(i + 1);
    assert forall|a: Address| t1.contains(a) <==> (t0.contains(a) || a == s[i]) by {
        if t1.contains(a) {
            let k = choose|k: int| 0 <= k < t1.len() && t1[k] == a;
            if k < i {
                assert(t0[k] == a);
            }
        }
        if t0.contains(a) {
            let k = choose|k: int| 0 <= k < t0.len() && t0[k] == a;
            assert(t1[k] == a);
        }
        assert(t1[i] == s[i]);
    }
    assert(t1.to_set() =~= t0.to_set().insert(s[i]));
}

/// A set of addresses, kept in ascending order.
#[derive(Debug)]
pub struct AddressSet {
    items: Vec<Address>,
}

impl View for AddressSet {
    type V = Set<Address>;

    closed spec fn view(&self) -> Set<Address> {
        self.items@.to_set()
    }
}

impl AddressSet {
    #[verifier::type_invariant]
    spec fn inv(self) -> bool {
        sorted_addresses(self.items@)
    }

    /// The addresses in the order in which the set keeps them.
    pub closed spec fn seq(self) -> Seq<Address> {
        self.items@
    }

    /// The set holds what its sequence holds.
    pub proof fn lemma_view_is_seq(self)
        ensures
            self@ == self.seq().to_set(),
    {
    }

    /// The empty set.
    pub fn new() -> (s: AddressSet)
        ensures
            s@ == Set::<Address>::empty(),
            s.seq() == Seq::<Address>::empty(),
    {
        let s = AddressSet { items: Vec::new() };
        assert(s.items@.to_set() =~= Set::<Address>::empty());
        s
    }

    /// The number of addresses in the set.
    pub fn len(&self) -> (n: usize)
        ensures
            n == self.seq().len(),
            n == self@.len(),
            self.seq() == sorted_seq(self@),
    {
        proof {
            use_type_invariant(self);
            lemma_sorted_no_duplicates(self.items@);
            self.items@.unique_seq_to_set();
            lemma_sorted_seq_of(self.items@);
        }
        self.items.len()
    }

    /// Whether the set holds no address.
    pub fn is_empty(&self) -> (r: bool)
        ensures
            r == (self.seq().len() == 0),
            r == (self@ == Set::<Address>::empty()),
    {
        proof {
            if self.items@.len() == 0 {
                assert(self.items@.to_set() =~= Set::<Address>::empty());
            } else {
                assert(self.items@.contains(self.items@[0]));
                assert(self@.contains(self.items@[0]));
            }
        }
        self.items.len() == 0
    }

    /// The first position whose address is not below `a`.
    fn lower_bound(&self, a: &Address) -> (i: usize)
        ensures
            i <= self.items@.len(),
            forall|j: int| 0 <= j < i ==> addr_lt(#[trigger] self.items@[j], *a),
            forall|j: int| i <= j < self.items@.len() ==> !addr_lt(#[trigger] self.items@[j], *a),
    {
        proof {
            use_type_invariant(self);
        }
        let mut lo: usize = 0;
        let mut hi: usize = self.items.len();
        while lo < hi
            invariant
                sorted_addresses(self.items@),
                0 <= lo <= hi <= self.items@.len(),
                forall|j: int| 0 <= j < lo ==> addr_lt(#[trigger] self.items@[j], *a),
                forall|j: int| hi <= j < self.items@.len() ==> !addr_lt(#[trigger] self.items@[j], *a),
            decreases hi - lo,
        {
            let mid = lo + (hi - lo) / 2;
            match self.items[mid].order(a) {
                Order::Less => {
                    proof {
                        assert forall|j: int| 0 <= j < mid + 1 implies addr_lt(
                            #[trigger] self.items@[j],
                            *a,
                        ) by {
                            if j < mid {
                                assert(addr_lt(self.items@[j], self.items@[mid as int]));
                                lemma_addr_lt_transitive(self.items@[j], self.items@[mid as int], *a);
                            }
                        }
                    }
                    lo = mid + 1;
                },
                _ => {
                    proof {
                        assert forall|j: int| mid <= j < self.items@.len() implies !addr_lt(
                            #[trigger] self.items@[j],
                            *a,
                        ) by {
                            if j > mid && addr_lt(self.items@[j], *a) {
                                assert(addr_lt(self.items@[mid as int], self.items@[j]));
                                lemma_addr_lt_transitive(self.items@[mid as int], self.items@[j], *a);
                            }
                        }
                    }
                    hi = mid;
                },
            }
        }
        lo
    }

    /// Whether `a` is in the set.
    pub fn contains(&self, a: &Address) -> (r: bool)
        ensures
            r == self@.contains(*a),
    {
        proof {
            use_type_invariant(self);
        }
        let i = self.lower_bound(a);
        if i < self.items.len() && self.items[i].same(a) {
            assert(self.items@.contains(*a));
            true
        } else {
            proof {
                if self.items@.contains(*a) {
                    let k = choose|k: int| 0 <= k < self.items@.len() && self.items@[k] == *a;
                    lemma_addr_lt_total(*a, *a);
                    assert(k >= i);
                    if k > i {
                        assert(addr_lt(self.items@[i as int], self.items@[k]));
                    }
                }
            }
            false
        }
    }

    /// Adds `a` to the set; answers whether it was new.
    pub fn insert(&mut self, a: Address) -> (added: bool)
        ensures
            final(self)@ == old(self)@.insert(a),
            added == !old(self)@.contains(a),
    {
        proof {
            use_type_invariant(&*self);
        }
        let i = self.lower_bound(&a);
        if i < self.items.len() && self.items[i].same(&a) {
            assert(self.items@.contains(a));
            assert(self@ =~= self@.insert(a));
            return false;
        }
        proof {
            let s = self.items@;
            let t = s.insert(i as int, a);
            if s.contains(a) {
                let k = choose|k: int| 0 <= k < s.len() && s[k] == a;
                lemma_addr_lt_total(a, a);
                assert(k >= i);
                if k > i {
                    assert(addr_lt(s[i as int], s[k]));
                }
            }
            assert forall|x: int, y: int| 0 <= x < y < t.len() implies addr_lt(
                #[trigger] t[x],
                #[trigger] t[y],
            ) by {
                if y < i {
                    assert(addr_lt(s[x], s[y]));
                } else if y == i {
                    assert(t[x] == s[x]);
                } else if x < i {
                    assert(t[y] == s[y - 1]);
                    assert(addr_lt(s[x], a));
                    lemma_addr_lt_total(s[y - 1], a);
                    if s[y - 1] == a {
                        assert(s.contains(a));
                    }
                    lemma_addr_lt_transitive(s[x], a, s[y - 1]);
                } else if x == i {
                    assert(t[y] == s[y - 1]);
                    lemma_addr_lt_total(s[y - 1], a);
                    if s[y - 1] == a {
                        assert(s.contains(a));
                    }
                } else {
                    assert(t[x] == s[x - 1]);
                    assert(t[y] == s[y - 1]);
                    assert(addr_lt(s[x - 1], s[y - 1]));
                }
            }
            assert(t.to_set() =~= s.to_set().insert(a)) by {
                assert forall|b: Address| t.contains(b) <==> (s.contains(b) || b == a) by {
                    if t.contains(b) {
                        let k = choose|k: int| 0 <= k < t.len() && t[k] == b;
                        if k < i {
                            assert(s[k] == b);
                        } else if k > i {
                            assert(s[k - 1] == b);
                        }
                    }
                    if s.contains(b) {
                        let k = choose|k: int| 0 <= k < s.len() && s[k] == b;
                        if k < i {
                            assert(t[k] == b);
                        } else {
                            assert(t[k + 1] == b);
                        }
                    }
                    if b == a {
                        assert(t[i as int] == a);
                    }
                }
            }
        }
        let mut items: Vec<Address> = Vec::new();
        core::mem::swap(&mut self.items, &mut items);
        items.insert(i, a);
        core::mem::swap(&mut self.items, &mut items);
        true
    }

    /// The addresses in ascending order.
    pub fn to_vec(&self) -> (v: Vec<Address>)
        ensures
            v@ == self.seq(),
            v@ == sorted_seq(self@),
            sorted_addresses(v@),
            v@.to_set() == self@,
    {
        proof {
            use_type_invariant(self);
            lemma_sorted_seq_of(self.items@);
        }
        self.items.clone()
    }

    /// The address at position `i` of the ascending order.
    pub fn get(&self, i: usize) -> (a: Address)
        requires
            i < self.seq().len(),
        ensures
            a == self.seq()[i as int],
            a == sorted_seq(self@)[i as int],
    {
        proof {
            use_type_invariant(self);
            lemma_sorted_seq_of(self.items@);
        }
        self.items[i]
    }
}

/// No address occurs twice in an ascending sequence.
pub proof fn lemma_sorted_no_duplicates(s: Seq<Address>)
    requires
        sorted_addresses(s),
    ensures
        s.no_duplicates(),
{
    assert forall|i: int, j: int| 0 <= i < s.len() && 0 <= j < s.len() && i != j implies s[i]
        != s[j] by {
        lemma_addr_lt_total(s[i], s[j]);
        if i < j {
            assert(addr_lt(s[i], s[j]));
        } else {
            assert(addr_lt(s[j], s[i]));
        }
    }
}

} // verus!
