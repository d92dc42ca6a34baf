//! Addresses: the opaque 32-byte identifiers of tokens, vaults, owners and
//! pools.
use vstd::prelude::*;
use vstd::std_specs::cmp::PartialEqSpecImpl;

verus! {

/// A 32-byte identifier. Its view is the sequence of its bytes.
#[derive(Clone, Copy, Debug, Eq)]
pub struct Address {
    pub bytes: [u8; 32],
}

impl View for Address {
    type V = Seq<u8>;

    open spec fn view(&self) -> Seq<u8> {
        self.bytes@
    }
}

/// Lexicographic order on byte strings of one length: `a` comes before `b`
/// when they first differ at a byte that is smaller in `a`.
pub open spec fn precedes(a: Seq<u8>, b: Seq<u8>) -> bool {
    exists|i: int|
        0 <= i < a.len() && i < b.len() && a[i] < b[i] && (forall|j: int|
            0 <= j < i ==> a[j] == b[j])
}

impl PartialEq for Address {
    fn eq(&self, other: &Address) -> (equal: bool) {
        let mut i: usize = 0;
        while i < 32
            invariant
                i <= 32,
                forall|j: int| 0 <= j < i ==> self.bytes@[j] == other.bytes@[j],
            decreases 32 - i,
        {
            if self.bytes[i] != other.bytes[i] {
                return false;
            }
            i = i + 1;
        }
        assert(self.bytes@ =~= other.bytes@);
        true
    }
}

impl PartialEqSpecImpl for Address {
    open spec fn obeys_eq_spec() -> bool {
        true
    }

    open spec fn eq_spec(&self, other: &Address) -> bool {
        self@ == other@
    }
}

impl Default for Address {
    /// The address whose bytes are all zero.
    fn default() -> (zero: Address)
        ensures
            zero@ == Seq::new(32, |i: int| 0u8),
    {
        let zero = Address { bytes: [0u8; 32] };
        assert(zero@ =~= Seq::new(32, |i: int| 0u8));
        zero
    }
}

impl Address {
    /// The address with the given bytes.
    pub fn new(bytes: [u8; 32]) -> (address: Address)
        ensures
            address.bytes == bytes,
    {
        Address { bytes }
    }

    /// The address whose bytes are all zero.
    pub open spec fn zero() -> Seq<u8> {
        Seq::new(32, |i: int| 0u8)
    }

    /// Whether this address sorts strictly before `other`, byte by byte.
    pub fn is_before(&self, other: &Address) -> (before: bool)
        ensures
            before == precedes(self@, other@),
    {
        let mut i: usize = 0;
        while i < 32
            invariant
                i <= 32,
                forall|j: int| 0 <= j < i ==> self.bytes@[j] == other.bytes@[j],
            decreases 32 - i,
        {
            if self.bytes[i] < other.bytes[i] {
                return true;
            }
            if self.bytes[i] > other.bytes[i] {
                assert(!precedes(self@, other@));
                return false;
            }
            i = i + 1;
        }
        false
    }
}

/// No byte string comes before itself, and of two different strings of one
/// length exactly one comes before the other.
pub proof fn lemma_precedes_is_strict_total(a: Seq<u8>, b: Seq<u8>)
    requires
        a.len() == b.len(),
    ensures
        !precedes(a, a),
        a != b ==> (precedes(a, b) <==> !precedes(b, a)),
        a == b ==> !precedes(a, b),
{
    if a != b {
        if precedes(a, b) && precedes(b, a) {
            let i = choose|i: int|
                0 <= i < a.len() && i < b.len() && a[i] < b[i] && (forall|j: int|
                    0 <= j < i ==> a[j] == b[j]);
            let k = choose|k: int|
                0 <= k < b.len() && k < a.len() && b[k] < a[k] && (forall|j: int|
                    0 <= j < k ==> b[j] == a[j]);
            assert(false);
        }
        if !precedes(a, b) && !precedes(b, a) {
            lemma_first_difference(a, b, 0);
        }
    }
}

/// Two strings that agree below `from` and come in neither order are equal.
proof fn lemma_first_difference(a: Seq<u8>, b: Seq<u8>, from: int)
    requires
        a.len() == b.len(),
        0 <= from <= a.len(),
        forall|j: int| 0 <= j < from ==> a[j] == b[j],
        !precedes(a, b),
        !precedes(b, a),
    ensures
        a == b,
    decreases a.len() - from,
{
    if from == a.len() {
        assert(a =~= b);
    } else {
        if a[from] < b[from] {
            assert(precedes(a, b));
        } else if b[from] < a[from] {
            assert(precedes(b, a));
        } else {
            lemma_first_difference(a, b, from + 1);
        }
    }
}

} // verus!
