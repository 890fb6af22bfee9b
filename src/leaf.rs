use vstd::prelude::*;
use vstd::utf8::encode_utf8;
use vstd::arithmetic::power2::pow2;
use sha3::Digest;
use ic_web3::ethabi;

verus! {

/// A 32-byte digest: a leaf, an inner node or a root.
pub type Hash32 = [u8; 32];

/// The longest symbol, in UTF-8 bytes, that the ABI encoder is handed.
pub const MAX_SYMBOL_BYTES: usize = 0x1000_0000;

/// One price point of a snapshot.
#[derive(Debug)]
pub struct AssetData {
    pub symbol: String,
    pub price: u64,
    pub timestamp: u64,
    pub decimals: u64,
}

impl AssetData {
    /// A symbol short enough for the ABI encoder.
    pub open spec fn encodable(&self) -> bool {
        encode_utf8(self.symbol@).len() <= MAX_SYMBOL_BYTES
    }

    pub fn copy(&self) -> (r: AssetData)
        ensures
            r == *self,
    {
        AssetData {
            symbol: self.symbol.clone(),
            price: self.price,
            timestamp: self.timestamp,
            decimals: self.decimals,
        }
    }

    /// The leaf that commits to this record.
    pub fn to_leaf(&self) -> (r: Hash32)
        requires
            self.encodable(),
        ensures
            r == leaf_of(*self),
    {
        let encoded = abi_encode_record(&self.symbol, self.price, self.timestamp, self.decimals);
        let inner = keccak256(encoded.as_slice());
        keccak256(inner.as_slice())
    }
}

impl Clone for AssetData {
    fn clone(&self) -> (r: AssetData)
        ensures
            r == *self,
    {
        self.copy()
    }
}

impl PartialEq for AssetData {
    fn eq(&self, o: &AssetData) -> (r: bool) {
        self.symbol == o.symbol && self.price == o.price && self.timestamp == o.timestamp
            && self.decimals == o.decimals
    }
}

impl vstd::std_specs::cmp::PartialEqSpecImpl for AssetData {
    open spec fn obeys_eq_spec() -> bool {
        true
    }

    open spec fn eq_spec(&self, o: &AssetData) -> bool {
        self.symbol@ == o.symbol@ && self.price == o.price && self.timestamp == o.timestamp
            && self.decimals == o.decimals
    }
}

/// The 32-byte big-endian word that holds `v`, as the ABI writes a `uint256`.
pub open spec fn word_of(v: nat) -> Seq<u8> {
    Seq::new(32, |k: int| ((v / pow2((8 * (31 - k)) as nat)) % 256) as u8)
}

/// `b` followed by zero bytes up to the next multiple of 32.
pub open spec fn right_padded(b: Seq<u8>) -> Seq<u8> {
    b + Seq::new(((32 - b.len() % 32) % 32) as nat, |k: int| 0u8)
}

/// The ABI encoding of the tuple `(string, uint256, uint256, uint256)`:
/// four head words (the offset of the string's tail, then the three numbers),
/// then the string's length and its bytes padded to a whole word.
pub open spec fn abi_record(symbol: Seq<u8>, price: u64, timestamp: u64, decimals: u64) -> Seq<u8> {
    word_of(128) + word_of(price as nat) + word_of(timestamp as nat) + word_of(decimals as nat)
        + word_of(symbol.len()) + right_padded(symbol)
}

/// The Keccak-256 digest of a byte string.
pub uninterp spec fn keccak256_of(data: Seq<u8>) -> Hash32;

/// The leaf of a record: Keccak-256 applied twice to its ABI encoding.
pub open spec fn leaf_of(d: AssetData) -> Hash32 {
    keccak256_of(
        keccak256_of(abi_record(encode_utf8(d.symbol@), d.price, d.timestamp, d.decimals))@,
    )
}

/// Relies on sha3's Keccak256 (`Digest::digest`): a pure function of the bytes.
#[verifier::external_body]
pub(crate) fn keccak256(data: &[u8]) -> (r: Hash32)
    ensures
        r == keccak256_of(data@),
{
    sha3::Keccak256::digest(data).into()
}

/// Relies on ethabi::encode (re-exported by ic_web3) on the tokens
/// `[String, Uint, Uint, Uint]`: each `Uint` becomes one big-endian word in the
/// head, the string's head word is the offset of its tail (four words), and its
/// tail is its byte length as a word followed by its UTF-8 bytes padded with
/// zeros to a whole word. The bound keeps ethabi's `u32` word counts exact.
#[verifier::external_body]
fn abi_encode_record(symbol: &String, price: u64, timestamp: u64, decimals: u64) -> (r: Vec<u8>)
    requires
        encode_utf8(symbol@).len() <= MAX_SYMBOL_BYTES,
    ensures
        r@ == abi_record(encode_utf8(symbol@), price, timestamp, decimals),
{
    ethabi::encode(
        &[
            ethabi::Token::String(symbol.clone()),
            ethabi::Token::Uint(ethabi::ethereum_types::U256::from(price)),
            ethabi::Token::Uint(ethabi::ethereum_types::U256::from(timestamp)),
            ethabi::Token::Uint(ethabi::ethereum_types::U256::from(decimals)),
        ],
    )
}

/// The hasher of the tree: Keccak-256.
pub struct Keccak256Algorithm {}

impl Keccak256Algorithm {
    pub fn hash(data: &[u8]) -> (r: Hash32)
        ensures
            r == keccak256_of(data@),
    {
        keccak256(data)
    }
}

} // verus!
