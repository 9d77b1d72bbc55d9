//! Fixed-size identifiers and the scalar types of the exchange.

use vstd::prelude::*;
use vstd::string::StrSliceExecFns;
use vstd::string::StringSliceAdditionalSpecFns;

verus! {

/// Number of bytes in a [`FixedString`].
pub const FIXED_STRINGZ_SIZE: usize = 16;

/// A 16-byte inline identifier, right-padded with NUL bytes.
///
/// Used for asset symbols and names, pool ids, farm ids, and NFT class and
/// token ids.  A leading NUL byte marks the empty identifier.
#[derive(Clone, Copy, PartialEq, Eq, Hash, Debug)]
pub struct FixedString(pub [u8; 16]);

impl View for FixedString {
    type V = Seq<u8>;

    open spec fn view(&self) -> Seq<u8> {
        self.0@
    }
}

/// The bytes a [`FixedString`] holds when built from the byte sequence `s`:
/// `s` truncated to 16 bytes and right-padded with NUL.
pub open spec fn spec_fixed_from_bytes(s: Seq<u8>) -> Seq<u8> {
    Seq::new(16, |i: int| if i < s.len() { s[i] } else { 0u8 })
}

/// Relies on `String::push`: appends the character to the end of the string.
#[verifier::external_body]
fn push_char(s: &mut String, c: char)
    ensures
        final(s)@ == old(s)@.push(c),
{
    s.push(c);
}

impl FixedString {
    /// Byte-for-byte equality of two identifiers.
    pub fn eq_bytes(&self, other: &FixedString) -> (r: bool)
        ensures
            r <==> self@ == other@,
    {
        let mut i: usize = 0;
        while i < 16
            invariant
                i <= 16,
                forall|j: int| 0 <= j < i ==> self@[j] == other@[j],
            decreases 16 - i,
        {
            if self.0[i] != other.0[i] {
                return false;
            }
            i += 1;
        }
        proof {
            assert(self@ =~= other@);
        }
        true
    }

    /// The identifier's bytes decoded one character per byte.
    pub fn to_string(&self) -> (r: String)
        ensures
            r@ == self@.map_values(|b: u8| b as char),
    {
        let mut r = String::new();
        let mut i: usize = 0;
        while i < 16
            invariant
                i <= 16,
                r@ == self@.take(i as int).map_values(|b: u8| b as char),
            decreases 16 - i,
        {
            push_char(&mut r, self.0[i] as char);
            i += 1;
            proof {
                assert(r@ =~= self@.take(i as int).map_values(|b: u8| b as char));
            }
        }
        proof {
            assert(self@.take(16) =~= self@);
        }
        r
    }

    /// Whether the identifier is empty, marked by a leading NUL byte.
    pub fn is_empty(&self) -> (r: bool)
        ensures
            r <==> self@[0] == 0,
    {
        self.0[0] == 0
    }

    /// The byte length of every identifier.
    pub fn size(&self) -> (r: usize)
        ensures
            r == 16,
    {
        FIXED_STRINGZ_SIZE
    }

    /// Builds an identifier from a string literal; the same construction as
    /// [`FixedString::from_string`].
    pub fn from_const_string(s: &str) -> (r: FixedString)
        ensures
            r@ == spec_fixed_from_bytes(s.spec_bytes()),
    {
        Self::from_string(s)
    }

    /// Builds an identifier from a string's UTF-8 bytes, truncating to 16
    /// bytes and right-padding with NUL.
    pub fn from_string(s: &str) -> (r: FixedString)
        ensures
            r@ == spec_fixed_from_bytes(s.spec_bytes()),
    {
        let bytes: &[u8] = s.as_bytes();
        let n: usize = bytes.len();
        let mut a: [u8; 16] = [0, 0, 0, 0, 0, 0, 0, 0, 0, 0, 0, 0, 0, 0, 0, 0];
        let mut i: usize = 0;
        while i < 16 && i < n
            invariant
                i <= 16,
                i <= n,
                n == s.spec_bytes().len(),
                bytes@ == s.spec_bytes(),
                a@.len() == 16,
                forall|j: int|
                    0 <= j < 16 ==> a@[j] == (if j < i { s.spec_bytes()[j] } else { 0u8 }),
            decreases 16 - i,
        {
            a[i] = bytes[i];
            i += 1;
        }
        let r = FixedString(a);
        proof {
            assert(r@ == a@);
            assert forall|j: int| 0 <= j < 16 implies r@[j] == spec_fixed_from_bytes(
                s.spec_bytes(),
            )[j] by {
                assert(a@[j] == (if j < i { s.spec_bytes()[j] } else { 0u8 }));
            }
            assert(r@ =~= spec_fixed_from_bytes(s.spec_bytes()));
        }
        r
    }
}

/// An identifier is determined by its bytes: the two constructions
/// [`FixedString::from_string`] and [`FixedString::from_const_string`] both
/// yield `spec_fixed_from_bytes` of the source bytes, so with this lemma
/// they yield equal identifiers for every source string.
pub proof fn lemma_identifier_determined_by_bytes(a: FixedString, b: FixedString)
    requires
        a@ == b@,
    ensures
        a == b,
{
    assert(a.0@ =~= b.0@);
    broadcast use vstd::array::group_array_axioms;

    assert(a.0 == b.0);
}

/// A byte string of arbitrary length, used for free-form descriptions.
#[derive(Clone, PartialEq, Eq, Hash, Debug)]
pub struct StdString(pub Vec<u8>);

impl StdString {
    /// Builds a byte string from an owned string's UTF-8 bytes.
    pub fn from_string(s: &String) -> (r: StdString)
        ensures
            r.0@ == vstd::utf8::encode_utf8(s@),
    {
        StdString(s.as_str().as_bytes_vec())
    }
}

impl Default for StdString {
    fn default() -> (r: Self)
        ensures
            r.0@.len() == 0,
    {
        StdString(Vec::new())
    }
}

/// The kind a pool id is tagged with by the pool manager.
#[derive(Clone, Copy, PartialEq, Eq, Hash, Debug)]
pub enum PoolType {
    /// No pool kind recorded for the id.
    Unset,
    /// The id names a constant-product liquidity pool.
    AmmPool,
}

impl Default for PoolType {
    fn default() -> (r: Self)
        ensures
            r is Unset,
    {
        PoolType::Unset
    }
}

/// An account identity, authenticated by the dispatch layer.
pub type AccountId = FixedString;

/// An asset symbol.
pub type AssetSymbol = FixedString;

/// An asset id; the exchange identifies assets by their symbol.
pub type AssetId = AssetSymbol;

/// An asset's display name.
pub type AssetName = FixedString;

/// An unsigned 128-bit token quantity.
pub type Balance = u128;

/// A signed 128-bit balance delta.
pub type Amount = i128;

/// The number of decimal places of an asset.
pub type BalancePrecision = u8;

/// A liquidity pool id.
pub type PoolId = FixedString;

/// A farm id.
pub type FarmId = FixedString;

/// An NFT class id.
pub type NftClassId = FixedString;

/// An NFT token id.
pub type NftTokenId = FixedString;

/// A block height.
pub type BlockNumber = u64;

/// The identifier reserved as the default asset id and symbol.
pub fn default_id() -> (r: FixedString)
    ensures
        r@ == spec_fixed_from_bytes("DEFAULT".spec_bytes()),
{
    FixedString::from_const_string("DEFAULT")
}

impl FixedString {
    /// The default asset id.
    pub fn get_default_asset_id() -> (r: AssetId)
        ensures
            r@ == spec_fixed_from_bytes("DEFAULT".spec_bytes()),
    {
        default_id()
    }

    /// The default asset symbol.
    pub fn get_default_symbol() -> (r: AssetSymbol)
        ensures
            r@ == spec_fixed_from_bytes("DEFAULT".spec_bytes()),
    {
        default_id()
    }
}

/// Access to the raw 16-byte array behind an identifier.
pub trait ToFixedArray {
    /// The identifier's bytes.
    fn to_fixed_array(self) -> [u8; 16];
}

impl ToFixedArray for FixedString {
    fn to_fixed_array(self) -> (r: [u8; 16])
        ensures
            r@ == self@,
    {
        self.0
    }
}

/// Whether a byte is one of the four punctuation bytes an identifier may
/// contain: `.`, `-`, `_`, NUL.
pub open spec fn spec_is_annotation(b: u8) -> bool {
    b == 46 || b == 45 || b == 95 || b == 0
}

/// Whether a byte is a Latin letter.
pub open spec fn spec_is_letter(b: u8) -> bool {
    (65 <= b <= 90) || (97 <= b <= 122)
}

/// A valid identifier: the first byte is none of `.`, `-`, `_`, NUL, and
/// every byte is a Latin letter or one of those four bytes.
pub open spec fn spec_valid_id(s: Seq<u8>) -> bool {
    &&& !spec_is_annotation(s[0])
    &&& forall|i: int|
        0 <= i < s.len() ==> spec_is_letter(#[trigger] s[i]) || spec_is_annotation(s[i])
}

/// Whether `id` is a valid identifier.
pub fn is_valid_id(id: &FixedString) -> (r: bool)
    ensures
        r <==> spec_valid_id(id@),
{
    let b0 = id.0[0];
    if b0 == 46 || b0 == 45 || b0 == 95 || b0 == 0 {
        return false;
    }
    let mut i: usize = 0;
    while i < 16
        invariant
            i <= 16,
            forall|j: int|
                0 <= j < i ==> spec_is_letter(#[trigger] id@[j]) || spec_is_annotation(id@[j]),
        decreases 16 - i,
    {
        let b = id.0[i];
        let letter = (65 <= b && b <= 90) || (97 <= b && b <= 122);
        let annot = b == 46 || b == 45 || b == 95 || b == 0;
        if !letter && !annot {
            return false;
        }
        i += 1;
    }
    true
}

/// Whether `name` is a valid asset symbol; the same rule as [`is_valid_id`].
pub fn is_valid_symbol(name: &AssetName) -> (r: bool)
    ensures
        r <==> spec_valid_id(name@),
{
    is_valid_id(name)
}

/// Whether `name` is a valid asset name: empty, or a valid identifier.
pub fn is_valid_name(name: &AssetName) -> (r: bool)
    ensures
        r <==> (name@[0] == 0 || spec_valid_id(name@)),
{
    name.is_empty() || is_valid_id(name)
}

} // verus!
