//! Keys and values of the two index tables, and the owner-index key
//! encoding.
//!
//! The owner index is keyed by `(owner_address, object_id)` and must be
//! ordered address-major, id-minor, so that all objects of one address
//! form one contiguous key range. The tables key by an integer code; the
//! lemma at the bottom shows the code orders exactly as the semantic key
//! does, so range scans by address prefix are sound.

use vstd::prelude::*;

use crate::types::ObjectRecord;

verus! {

/// One owner-index key: an owning address paired with an object id.
#[derive(Clone, Copy, Debug, PartialEq, Eq, Structural)]
pub struct OwnerIndexKey {
    pub owner: u64,
    pub object_id: u64,
}

/// One owner-index value: what the index records about an object beyond
/// its key. The object id is part of the key and is not repeated here.
#[derive(Clone, Copy, Debug, PartialEq, Eq, Structural)]
pub struct OwnerIndexInfo {
    pub version: u64,
    pub type_: u64,
}

/// One transaction-index value: the checkpoint that included the
/// transaction.
#[derive(Clone, Copy, Debug, PartialEq, Eq, Structural)]
pub struct TransactionInfo {
    pub checkpoint: u64,
}

/// The weight of the address half of an encoded owner-index key: one more
/// than the largest object id, so the address is the major component.
pub const OWNER_KEY_RADIX: u128 = 0x1_0000_0000_0000_0000;

/// The integer code an owner-index key is stored under: address-major,
/// object-id-minor.
pub open spec fn owner_key_code(owner: u64, object_id: u64) -> u128 {
    (owner as int * (OWNER_KEY_RADIX as int) + object_id as int) as u128
}

/// The address half of an encoded owner-index key.
pub open spec fn code_owner(code: u128) -> int {
    (code as int) / (OWNER_KEY_RADIX as int)
}

/// The object-id half of an encoded owner-index key.
pub open spec fn code_object_id(code: u128) -> int {
    (code as int) % (OWNER_KEY_RADIX as int)
}

impl OwnerIndexKey {
    pub fn new(owner: u64, object_id: u64) -> (k: Self)
        ensures k == (OwnerIndexKey { owner, object_id }),
    {
        Self { owner, object_id }
    }

    /// The integer code this key is stored under.
    pub open spec fn spec_code(self) -> u128 {
        owner_key_code(self.owner, self.object_id)
    }

    /// Computes the storage code of this key.
    pub fn code(&self) -> (c: u128)
        ensures c == self.spec_code(),
    {
        self.owner as u128 * OWNER_KEY_RADIX + self.object_id as u128
    }
}

impl OwnerIndexInfo {
    /// The index entry recorded for `object`: its version and type.
    pub fn new(object: &ObjectRecord) -> (i: Self)
        ensures i == (OwnerIndexInfo { version: object.version, type_: object.object_type }),
    {
        Self { version: object.version, type_: object.object_type }
    }
}

/// The key code is injective: the address and the object id can be read
/// back out of it.
pub proof fn lemma_owner_key_code_invertible(owner: u64, object_id: u64)
    ensures
        code_owner(owner_key_code(owner, object_id)) == owner,
        code_object_id(owner_key_code(owner, object_id)) == object_id,
{
    let o = owner as int;
    let i = object_id as int;
    let r = OWNER_KEY_RADIX as int;
    assert(0 <= o * r + i < 0x1_0000_0000_0000_0000_0000_0000_0000_0000) by (nonlinear_arith)
        requires 0 <= i < r, 0 <= o <= 0xffff_ffff_ffff_ffff, r == OWNER_KEY_RADIX as int,
    ;
    assert((o * r + i) / r == o) by (nonlinear_arith)
        requires 0 <= i < r, 0 <= o,
    ;
    assert((o * r + i) % r == i) by (nonlinear_arith)
        requires 0 <= i < r, 0 <= o,
    ;
}

/// Every code decomposes uniquely into an address and an object id, and
/// encoding that pair gives the code back.
pub proof fn lemma_owner_key_code_decompose(k: u128)
    ensures
        0 <= code_owner(k) < OWNER_KEY_RADIX,
        0 <= code_object_id(k) < OWNER_KEY_RADIX,
        owner_key_code(code_owner(k) as u64, code_object_id(k) as u64) == k,
{
    let r = OWNER_KEY_RADIX as int;
    vstd::arithmetic::div_mod::lemma_fundamental_div_mod(k as int, r);
    assert((k as int) / r < r) by (nonlinear_arith)
        requires k as int <= (r * r) - 1, r == OWNER_KEY_RADIX as int,
    ;
}

/// The encoding preserves the semantic key order: codes compare as the
/// keys do, address first, object id second. This is what makes a range
/// scan over one address's code range return exactly that address's
/// entries, in object-id order.
pub proof fn lemma_owner_key_code_order(a: OwnerIndexKey, b: OwnerIndexKey)
    ensures
        a.spec_code() < b.spec_code() <==> (a.owner < b.owner
            || (a.owner == b.owner && a.object_id < b.object_id)),
        a.spec_code() == b.spec_code() <==> (a.owner == b.owner && a.object_id == b.object_id),
{
    lemma_owner_key_code_invertible(a.owner, a.object_id);
    lemma_owner_key_code_invertible(b.owner, b.object_id);
    let r = OWNER_KEY_RADIX as int;
    assert(a.owner < b.owner ==> a.owner as int * r + a.object_id < b.owner as int * r
        + b.object_id) by (nonlinear_arith)
        requires a.object_id < r, 0 <= b.object_id,
    ;
}

} // verus!
