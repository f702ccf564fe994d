use vstd::prelude::*;
use crate::error::Error;

verus! {

/// Balances are 128-bit unsigned amounts.
pub type Balance = u128;

/// Block numbers advance monotonically.
pub type BlockNumber = u64;

/// Compares two 32-byte arrays element by element.
pub fn bytes32_eq(a: &[u8; 32], b: &[u8; 32]) -> (r: bool)
    ensures
        r == (*a == *b),
{
    let mut i: usize = 0;
    while i < 32
        invariant
            0 <= i <= 32,
            forall|j: int| 0 <= j < i ==> a@[j] == b@[j],
        decreases 32 - i,
    {
        if a[i] != b[i] {
            return false;
        }
        i = i + 1;
    }
    proof {
        assert(a@ =~= b@);
        vstd::array::axiom_array_ext_equal(*a, *b);
    }
    true
}

/// Keys of the protocol's ledgers: values whose equality can be decided at run time.
pub trait Key: Copy + Sized {
    fn same(&self, other: &Self) -> (r: bool)
        ensures
            r == (*self == *other),
    ;
}

/// An opaque 32-byte principal.
#[derive(Clone, Copy, Debug)]
pub struct AccountId {
    pub bytes: [u8; 32],
}

impl AccountId {
    pub fn new(bytes: [u8; 32]) -> (r: AccountId)
        ensures
            r.bytes == bytes,
    {
        AccountId { bytes }
    }
}

impl Key for AccountId {
    fn same(&self, other: &Self) -> (r: bool) {
        bytes32_eq(&self.bytes, &other.bytes)
    }
}

impl PartialEq for AccountId {
    fn eq(&self, other: &AccountId) -> (r: bool) {
        bytes32_eq(&self.bytes, &other.bytes)
    }
}

impl vstd::std_specs::cmp::PartialEqSpecImpl for AccountId {
    open spec fn obeys_eq_spec() -> bool {
        true
    }

    open spec fn eq_spec(&self, other: &AccountId) -> bool {
        self.bytes == other.bytes
    }
}

/// A fixed-width 32-byte content hash: the primary key of a claim.
#[derive(Clone, Copy, Debug)]
pub struct H256 {
    pub bytes: [u8; 32],
}

impl H256 {
    pub fn new(bytes: [u8; 32]) -> (r: H256)
        ensures
            r.bytes == bytes,
    {
        H256 { bytes }
    }
}

impl Key for H256 {
    fn same(&self, other: &Self) -> (r: bool) {
        bytes32_eq(&self.bytes, &other.bytes)
    }
}

impl PartialEq for H256 {
    fn eq(&self, other: &H256) -> (r: bool) {
        bytes32_eq(&self.bytes, &other.bytes)
    }
}

impl vstd::std_specs::cmp::PartialEqSpecImpl for H256 {
    open spec fn obeys_eq_spec() -> bool {
        true
    }

    open spec fn eq_spec(&self, other: &H256) -> bool {
        self.bytes == other.bytes
    }
}

/// The bytes of the account that a component tag names: `modl`, the
/// eight-byte tag, then zeros up to 32 bytes.
pub open spec fn tag_account_bytes(tag: Seq<u8>) -> Seq<u8> {
    seq![109u8, 111u8, 100u8, 108u8] + tag + Seq::new(20, |i: int| 0u8)
}

/// The account that a component tag names.
pub fn account_from_tag(tag: &[u8; 8]) -> (r: AccountId)
    ensures
        r.bytes@ == tag_account_bytes(tag@),
{
    let t = tag;
    let bytes: [u8; 32] = [
        109, 111, 100, 108, t[0], t[1], t[2], t[3], t[4], t[5], t[6], t[7],
        0, 0, 0, 0, 0, 0, 0, 0, 0, 0, 0, 0, 0, 0, 0, 0, 0, 0, 0, 0,
    ];
    assert(bytes@ =~= tag_account_bytes(tag@));
    AccountId { bytes }
}

/// Who authorises an operation: governance, or a signed principal.
#[derive(Clone, Copy, Debug)]
pub enum Origin {
    Root,
    Signed(AccountId),
}

/// Accepts the root origin only.
pub fn ensure_root(origin: Origin) -> (r: Result<(), Error>)
    ensures
        r == (if origin is Root { Ok(()) } else { Err(Error::BadOrigin) }),
{
    match origin {
        Origin::Root => Ok(()),
        Origin::Signed(_) => Err(Error::BadOrigin),
    }
}

/// The signer of a signed origin.
pub fn ensure_signed(origin: Origin) -> (r: Result<AccountId, Error>)
    ensures
        r == (match origin {
            Origin::Signed(who) => Ok(who),
            Origin::Root => Err(Error::BadOrigin),
        }),
{
    match origin {
        Origin::Signed(who) => Ok(who),
        Origin::Root => Err(Error::BadOrigin),
    }
}

} // verus!
