use vstd::prelude::*;

verus! {

/// A 20-byte account identifier.
#[derive(Clone, Copy, Debug, PartialEq, Eq, Hash)]
pub struct Address(pub [u8; 20]);

/// A 32-byte value: a transaction hash or a log topic.
#[derive(Clone, Copy, Debug, PartialEq, Eq, Hash)]
pub struct B256(pub [u8; 32]);

/// A 256-bit unsigned integer, as 32 big-endian bytes.
#[derive(Clone, Copy, Debug, PartialEq, Eq, Hash)]
pub struct U256(pub [u8; 32]);

/// How two values stand to each other in an order.
#[derive(Clone, Copy, Debug, PartialEq, Eq, Structural)]
pub enum Order {
    Less,
    Equal,
    Greater,
}

impl View for Address {
    type V = Seq<u8>;

    open spec fn view(&self) -> Seq<u8> {
        self.0@
    }
}

impl View for B256 {
    type V = Seq<u8>;

    open spec fn view(&self) -> Seq<u8> {
        self.0@
    }
}

impl View for U256 {
    type V = Seq<u8>;

    open spec fn view(&self) -> Seq<u8> {
        self.0@
    }
}

/// `a` and `b` agree on every position before `i`, and `a` is smaller at `i`.
pub open spec fn bytes_lt_at(a: Seq<u8>, b: Seq<u8>, i: int) -> bool {
    &&& 0 <= i < a.len()
    &&& i < b.len()
    &&& a[i] < b[i]
    &&& forall|j: int| 0 <= j < i ==> a[j] == b[j]
}

/// Lexicographic order on byte strings of one length.
pub open spec fn bytes_lt(a: Seq<u8>, b: Seq<u8>) -> bool {
    exists|i: int| bytes_lt_at(a, b, i)
}

/// The order in which addresses are kept: byte by byte, first byte first.
pub open spec fn addr_lt(a: Address, b: Address) -> bool {
    bytes_lt(a@, b@)
}

/// The numeric order of 256-bit integers: big-endian bytes compare
/// lexicographically.
pub open spec fn u256_lt(a: U256, b: U256) -> bool {
    bytes_lt(a@, b@)
}

/// What `order_bytes` answers for two byte strings of one length.
pub open spec fn bytes_order(a: Seq<u8>, b: Seq<u8>) -> Order {
    if bytes_lt(a, b) {
        Order::Less
    } else if bytes_lt(b, a) {
        Order::Greater
    } else {
        Order::Equal
    }
}

pub proof fn lemma_bytes_lt_irreflexive(a: Seq<u8>)
    ensures
        !bytes_lt(a, a),
{
}

pub proof fn lemma_bytes_lt_asymmetric(a: Seq<u8>, b: Seq<u8>)
    requires
        bytes_lt(a, b),
    ensures
        !bytes_lt(b, a),
{
    let i = choose|i: int| bytes_lt_at(a, b, i);
    if bytes_lt(b, a) {
        let k = choose|k: int| bytes_lt_at(b, a, k);
        if i < k {
            assert(b[i] == a[i]);
        } else if k < i {
            assert(a[k] == b[k]);
        }
    }
}

pub proof fn lemma_bytes_lt_transitive(a: Seq<u8>, b: Seq<u8>, c: Seq<u8>)
    requires
        bytes_lt(a, b),
        bytes_lt(b, c),
    ensures
        bytes_lt(a, c),
{
    let i = choose|i: int| bytes_lt_at(a, b, i);
    let k = choose|k: int| bytes_lt_at(b, c, k);
    if i <= k {
        assert(bytes_lt_at(a, c, i));
    } else {
        assert(bytes_lt_at(a, c, k));
    }
}

/// Two byte strings of one length that agree up to `i` are equal, or one is
/// below the other.
proof fn lemma_bytes_total_from(a: Seq<u8>, b: Seq<u8>, i: int)
    requires
        a.len() == b.len(),
        0 <= i <= a.len(),
        forall|j: int| 0 <= j < i ==> a[j] == b[j],
    ensures
        a == b || bytes_lt(a, b) || bytes_lt(b, a),
    decreases a.len() - i,
{
    if i == a.len() {
        assert(a =~= b);
    } else if a[i] < b[i] {
        assert(bytes_lt_at(a, b, i));
    } else if b[i] < a[i] {
        assert(bytes_lt_at(b, a, i));
    } else {
        lemma_bytes_total_from(a, b, i + 1);
    }
}

pub proof fn lemma_bytes_lt_total(a: Seq<u8>, b: Seq<u8>)
    requires
        a.len() == b.len(),
    ensures
        a == b || bytes_lt(a, b) || bytes_lt(b, a),
{
    lemma_bytes_total_from(a, b, 0);
}

/// The order on addresses is a strict total order.
pub proof fn lemma_addr_lt_total(a: Address, b: Address)
    ensures
        a == b || addr_lt(a, b) || addr_lt(b, a),
        !(addr_lt(a, b) && addr_lt(b, a)),
        !addr_lt(a, a),
{
    lemma_bytes_lt_total(a@, b@);
    if a@ == b@ {
        assert(a.0 =~= b.0);
    }
    if addr_lt(a, b) {
        lemma_bytes_lt_asymmetric(a@, b@);
    }
}

pub proof fn lemma_addr_lt_transitive(a: Address, b: Address, c: Address)
    requires
        addr_lt(a, b),
        addr_lt(b, c),
    ensures
        addr_lt(a, c),
{
    lemma_bytes_lt_transitive(a@, b@, c@);
}

/// Compares two byte slices of one length, first byte first.
fn order_bytes(a: &[u8], b: &[u8]) -> (r: Order)
    requires
        a@.len() == b@.len(),
    ensures
        r == bytes_order(a@, b@),
        r == Order::Equal <==> a@ == b@,
{
    let n = a.len();
    let mut i: usize = 0;
    while i < n
        invariant
            n == a@.len(),
            n == b@.len(),
            0 <= i <= n,
            forall|j: int| 0 <= j < i ==> a@[j] == b@[j],
        decreases n - i,
    {
        if a[i] < b[i] {
            proof {
                assert(bytes_lt_at(a@, b@, i as int));
                lemma_bytes_lt_asymmetric(a@, b@);
            }
            return Order::Less;
        }
        if a[i] > b[i] {
            proof {
                assert(bytes_lt_at(b@, a@, i as int));
                lemma_bytes_lt_asymmetric(b@, a@);
                lemma_bytes_lt_irreflexive(a@);
            }
            return Order::Greater;
        }
        i += 1;
    }
    proof {
        assert(a@ =~= b@);
        lemma_bytes_lt_irreflexive(a@);
    }
    Order::Equal
}

impl Address {
    /// The address whose bytes are all `byte`.
    pub fn repeat_byte(byte: u8) -> (a: Address)
        ensures
            a@ == Seq::new(20, |i: int| byte),
    {
        let a = Address([byte; 20]);
        assert(a@ =~= Seq::new(20, |i: int| byte));
        a
    }

    /// The address made of the 20 bytes of `bytes`; `None` for another length.
    pub fn from_slice(bytes: &[u8]) -> (r: Option<Address>)
        ensures
            bytes@.len() == 20 <==> r is Some,
            r matches Some(a) ==> a@ == bytes@,
    {
        if bytes.len() != 20 {
            return None;
        }
        let mut out = [0u8; 20];
        let mut i: usize = 0;
        while i < 20
            invariant
                bytes@.len() == 20,
                0 <= i <= 20,
                forall|j: int| 0 <= j < i ==> out@[j] == bytes@[j],
            decreases 20 - i,
        {
            out[i] = bytes[i];
            i += 1;
        }
        let a = Address(out);
        assert(a@ =~= bytes@);
        Some(a)
    }

    /// How `self` stands to `other` in the order of addresses.
    pub fn order(&self, other: &Address) -> (r: Order)
        ensures
            r == Order::Less <==> addr_lt(*self, *other),
            r == Order::Greater <==> addr_lt(*other, *self),
            r == Order::Equal <==> *self == *other,
    {
        let r = order_bytes(self.0.as_slice(), other.0.as_slice());
        proof {
            lemma_addr_lt_total(*self, *other);
        }
        r
    }

    /// Whether the two addresses hold the same bytes.
    pub fn same(&self, other: &Address) -> (r: bool)
        ensures
            r == (*self == *other),
    {
        match self.order(other) {
            Order::Equal => true,
            _ => false,
        }
    }
}

impl B256 {
    /// The value whose bytes are all `byte`.
    pub fn repeat_byte(byte: u8) -> (a: B256)
        ensures
            a@ == Seq::new(32, |i: int| byte),
    {
        let a = B256([byte; 32]);
        assert(a@ =~= Seq::new(32, |i: int| byte));
        a
    }
}

impl U256 {
    /// How `self` stands to `other` as a number.
    pub fn order(&self, other: &U256) -> (r: Order)
        ensures
            r == Order::Less <==> u256_lt(*self, *other),
            r == Order::Greater <==> u256_lt(*other, *self),
            r == Order::Equal <==> *self == *other,
    {
        let r = order_bytes(self.0.as_slice(), other.0.as_slice());
        proof {
            lemma_bytes_lt_total(self@, other@);
            if self@ == other@ {
                assert(self.0 =~= other.0);
            }
            if u256_lt(*self, *other) {
                lemma_bytes_lt_asymmetric(self@, other@);
            }
        }
        r
    }
}

} // verus!
