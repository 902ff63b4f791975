//! Account and contract addresses, with the ledger's total order on them.
//!
//! An address is either an account (an ed25519 public key) or a contract (a
//! contract hash); both carry 32 bytes. Addresses are ordered first by kind
//! (accounts before contracts) and then lexicographically by their bytes.

use vstd::prelude::*;

verus! {

/// Which kind of ledger entity an [`Address`] names.
#[derive(Clone, Copy, Debug, PartialEq, Eq, Structural)]
pub enum AddressKind {
    /// An account, identified by its ed25519 public key.
    Account,
    /// A contract, identified by its contract hash.
    Contract,
}

/// A ledger address: its kind and its 32 identifying bytes.
#[derive(Clone, Copy, Debug, PartialEq, Eq)]
pub struct Address {
    pub kind: AddressKind,
    pub key: [u8; 32],
}

/// Position of a kind in the address order.
pub open spec fn kind_rank(k: AddressKind) -> int {
    match k {
        AddressKind::Account => 0,
        AddressKind::Contract => 1,
    }
}

/// `a` comes strictly before `b` in lexicographic byte order: at the first
/// position where they differ, `a` holds the smaller byte.
pub open spec fn key_lt(a: Seq<u8>, b: Seq<u8>) -> bool {
    exists|i: int|
        0 <= i < a.len() && i < b.len() && a[i] < b[i] && (forall|j: int|
            0 <= j < i ==> a[j] == b[j])
}

/// The strict order on addresses: by kind, then by key bytes.
pub open spec fn addr_lt(a: Address, b: Address) -> bool {
    ||| kind_rank(a.kind) < kind_rank(b.kind)
    ||| (a.kind == b.kind && key_lt(a.key@, b.key@))
}

impl Address {
    /// Builds an address from its kind and key bytes.
    pub fn new(kind: AddressKind, key: [u8; 32]) -> (r: Address)
        ensures
            r.kind == kind,
            r.key == key,
    {
        Address { kind, key }
    }

    /// `true` when `self` and `other` are the same address.
    pub fn same_as(&self, other: &Address) -> (r: bool)
        ensures
            r == (*self == *other),
    {
        if self.kind != other.kind {
            return false;
        }
        let mut i: usize = 0;
        while i < 32
            invariant
                0 <= i <= 32,
                forall|j: int| 0 <= j < i ==> self.key@[j] == other.key@[j],
            decreases 32 - i,
        {
            if self.key[i] != other.key[i] {
                return false;
            }
            i = i + 1;
        }
        assert(self.key == other.key) by {
            broadcast use vstd::array::group_array_axioms;
            assert(self.key@ =~= other.key@);
        }
        true
    }

    /// `true` when `self` comes strictly before `other` in the address order.
    pub fn lt(&self, other: &Address) -> (r: bool)
        ensures
            r == addr_lt(*self, *other),
    {
        if self.kind != other.kind {
            return match self.kind {
                AddressKind::Account => true,
                AddressKind::Contract => false,
            };
        }
        let mut i: usize = 0;
        while i < 32
            invariant
                0 <= i <= 32,
                self.kind == other.kind,
                forall|j: int| 0 <= j < i ==> self.key@[j] == other.key@[j],
            decreases 32 - i,
        {
            let x = self.key[i];
            let y = other.key[i];
            if x != y {
                if x < y {
                    assert(key_lt(self.key@, other.key@)) by {
                        assert(self.key@[i as int] < other.key@[i as int]);
                    }
                    return true;
                } else {
                    assert(!key_lt(self.key@, other.key@)) by {
                        if key_lt(self.key@, other.key@) {
                            let k = choose|k: int|
                                0 <= k < self.key@.len() && k < other.key@.len() && self.key@[k]
                                    < other.key@[k] && (forall|j: int|
                                    0 <= j < k ==> self.key@[j] == other.key@[j]);
                            if k < i {
                            } else if k > i {
                                assert(self.key@[i as int] == other.key@[i as int]);
                            }
                        }
                    }
                    return false;
                }
            }
            i = i + 1;
        }
        assert(!key_lt(self.key@, other.key@));
        false
    }
}

/// Accounts come before contracts; within a kind, the address whose key
/// holds the smaller byte at the first position where the keys differ comes
/// first.
pub proof fn lemma_addr_order_direction(a: Address, b: Address, d: int)
    ensures
        a.kind == AddressKind::Account && b.kind == AddressKind::Contract ==> addr_lt(a, b)
            && !addr_lt(b, a),
        (a.kind == b.kind && 0 <= d < 32 && a.key@[d] < b.key@[d] && forall|j: int|
            0 <= j < d ==> a.key@[j] == b.key@[j]) ==> addr_lt(a, b) && !addr_lt(b, a),
{
    if a.kind == b.kind && 0 <= d < 32 && a.key@[d] < b.key@[d] && forall|j: int|
        0 <= j < d ==> a.key@[j] == b.key@[j] {
        assert(key_lt(a.key@, b.key@));
        if key_lt(b.key@, a.key@) {
            let k = choose|k: int|
                0 <= k < b.key@.len() && k < a.key@.len() && b.key@[k] < a.key@[k] && (forall|
                    j: int,
                | 0 <= j < k ==> b.key@[j] == a.key@[j]);
            if k < d {
            } else if k > d {
                assert(b.key@[d] == a.key@[d]);
            }
        }
    }
}

/// No address comes before itself.
pub proof fn lemma_addr_lt_irreflexive(a: Address)
    ensures
        !addr_lt(a, a),
{
}

/// The address order is transitive.
pub proof fn lemma_addr_lt_transitive(a: Address, b: Address, c: Address)
    requires
        addr_lt(a, b),
        addr_lt(b, c),
    ensures
        addr_lt(a, c),
{
    if a.kind == b.kind && b.kind == c.kind {
        let i = choose|i: int|
            0 <= i < a.key@.len() && i < b.key@.len() && a.key@[i] < b.key@[i] && (forall|j: int|
                0 <= j < i ==> a.key@[j] == b.key@[j]);
        let k = choose|k: int|
            0 <= k < b.key@.len() && k < c.key@.len() && b.key@[k] < c.key@[k] && (forall|j: int|
                0 <= j < k ==> b.key@[j] == c.key@[j]);
        let m = if i < k { i } else { k };
        assert(a.key@[m] < c.key@[m]);
        assert(forall|j: int| 0 <= j < m ==> a.key@[j] == c.key@[j]);
    }
}

/// Of two different addresses, one comes before the other.
pub proof fn lemma_addr_lt_total(a: Address, b: Address)
    requires
        a != b,
    ensures
        addr_lt(a, b) || addr_lt(b, a),
{
    if a.kind == b.kind {
        if a.key@ =~= b.key@ {
            broadcast use vstd::array::group_array_axioms;
            assert(a.key == b.key);
        } else {
            assert(a.key@.len() == 32 && b.key@.len() == 32);
            let d = choose|d: int| 0 <= d < 32 && a.key@[d] != b.key@[d];
            assert(exists|d: int| 0 <= d < 32 && a.key@[d] != b.key@[d]);
            lemma_first_difference(a.key@, b.key@, d);
        }
    }
}

proof fn lemma_first_difference(a: Seq<u8>, b: Seq<u8>, d: int)
    requires
        a.len() == b.len(),
        0 <= d < a.len(),
        a[d] != b[d],
    ensures
        key_lt(a, b) || key_lt(b, a),
    decreases d,
{
    if forall|j: int| 0 <= j < d ==> a[j] == b[j] {
        if a[d] < b[d] {
            assert(key_lt(a, b));
        } else {
            assert(key_lt(b, a));
        }
    } else {
        let e = choose|e: int| 0 <= e < d && a[e] != b[e];
        lemma_first_difference(a, b, e);
    }
}

} // verus!
