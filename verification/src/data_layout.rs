//! Data structures stored in the ledger, their mathematical views, and the
//! content-hash identity of an owl.

use vstd::prelude::*;

verus! {

use vstd::utf8::encode_utf8;

/// CryptoOwl. The unique identifier of the owl is a content hash of this
/// data structure, see [`owl_id_spec`].
#[derive(Debug)]
pub struct CryptoOwl {
    /// Name (should be unique).
    pub name: String,
    /// DNA.
    pub dna: u32,
}

/// Mathematical view of [`CryptoOwl`].
#[verifier::ext_equal]
pub ghost struct OwlV {
    pub name: Seq<char>,
    pub dna: u32,
}

impl View for CryptoOwl {
    type V = OwlV;

    open spec fn view(&self) -> OwlV {
        OwlV { name: self.name@, dna: self.dna }
    }
}

impl Clone for CryptoOwl {
    fn clone(&self) -> (r: Self)
        ensures
            r@ == self@,
    {
        CryptoOwl { name: self.name.clone(), dna: self.dna }
    }
}

/// Current owl state.
#[derive(Debug)]
pub struct CryptoOwlState {
    /// Owl.
    pub owl: CryptoOwl,
    /// Owner.
    pub owner: u64,
    /// Time of the last breeding.
    pub last_breeding: u64,
}

/// Mathematical view of [`CryptoOwlState`].
#[verifier::ext_equal]
pub ghost struct OwlStateV {
    pub owl: OwlV,
    pub owner: u64,
    pub last_breeding: u64,
}

impl View for CryptoOwlState {
    type V = OwlStateV;

    open spec fn view(&self) -> OwlStateV {
        OwlStateV { owl: self.owl@, owner: self.owner, last_breeding: self.last_breeding }
    }
}

impl Clone for CryptoOwlState {
    fn clone(&self) -> (r: Self)
        ensures
            r@ == self@,
    {
        CryptoOwlState { owl: self.owl.clone(), owner: self.owner, last_breeding: self.last_breeding }
    }
}

/// User.
#[derive(Debug)]
pub struct User {
    /// Identity key, already authenticated by the dispatch layer.
    pub public_key: u64,
    /// Name.
    pub name: String,
    /// Current balance.
    pub balance: u64,
    /// Reserved money that participates in the auction.
    pub reserved: u64,
    /// Time of the last issue of funds.
    pub last_fillup: u64,
}

/// Mathematical view of [`User`].
#[verifier::ext_equal]
pub ghost struct UserV {
    pub public_key: u64,
    pub name: Seq<char>,
    pub balance: u64,
    pub reserved: u64,
    pub last_fillup: u64,
}

impl View for User {
    type V = UserV;

    open spec fn view(&self) -> UserV {
        UserV {
            public_key: self.public_key,
            name: self.name@,
            balance: self.balance,
            reserved: self.reserved,
            last_fillup: self.last_fillup,
        }
    }
}

impl Clone for User {
    fn clone(&self) -> (r: Self)
        ensures
            r@ == self@,
    {
        User {
            public_key: self.public_key,
            name: self.name.clone(),
            balance: self.balance,
            reserved: self.reserved,
            last_fillup: self.last_fillup,
        }
    }
}

/// Auction bid.
#[derive(Clone, Copy, Debug, PartialEq, Eq, Structural)]
pub struct Bid {
    /// Bidder is some participant identified by their key.
    pub public_key: u64,
    /// Value of the bid.
    pub value: u64,
}

/// Information about an auction. Immutable once created.
#[derive(Clone, Copy, Debug, PartialEq, Eq, Structural)]
pub struct Auction {
    /// Participant selling the owl.
    pub public_key: u64,
    /// Owl with this identifier is auctioned.
    pub owl_id: u64,
    /// Start price.
    pub start_price: u64,
    /// Bids run during `duration` seconds starting from `started_at`.
    pub duration: u64,
}

/// Auction state.
#[derive(Clone, Copy, Debug, PartialEq, Eq, Structural)]
pub struct AuctionState {
    /// Auction identifier.
    pub id: u64,
    /// Auction information.
    pub auction: Auction,
    /// Start time of the auction.
    pub started_at: u64,
    /// Content hash of the history of bids. The last bid wins.
    pub bidding_merkle_root: u64,
    /// If closed, no bids are accepted.
    pub closed: bool,
}

impl AuctionState {
    /// The instant the auction stops accepting bids, as a mathematical
    /// integer (never overflows).
    pub open spec fn spec_ends_at(&self) -> int {
        self.started_at + self.auction.duration
    }

    /// Whether the deadline has passed at time `now`.
    pub open spec fn spec_expired(&self, now: u64) -> bool {
        now >= self.spec_ends_at()
    }

    /// The instant the auction stops accepting bids, saturated at the
    /// largest representable time.
    pub fn ends_at(&self) -> (r: u64)
        ensures
            self.spec_ends_at() <= u64::MAX ==> r == self.spec_ends_at(),
            self.spec_ends_at() > u64::MAX ==> r == u64::MAX,
    {
        if self.auction.duration > u64::MAX - self.started_at {
            u64::MAX
        } else {
            self.started_at + self.auction.duration
        }
    }

    /// Whether the deadline has passed at time `now`.
    pub fn expired(&self, now: u64) -> (r: bool)
        ensures
            r == self.spec_expired(now),
    {
        now >= self.started_at && now - self.started_at >= self.auction.duration
    }
}

/// A 32-bit value read from four bytes at offset `i`, big-endian.
pub open spec fn be_u32_spec(bs: Seq<u8>, i: int) -> u32 {
    ((bs[i] as u32) << 24u32) | ((bs[i + 1] as u32) << 16u32) | ((bs[i + 2] as u32) << 8u32) | (bs[i
        + 3] as u32)
}

/// Offset basis of the 64-bit FNV-1a hash.
pub const FNV_OFFSET: u64 = 0xcbf2_9ce4_8422_2325;

/// Multiplier of the 64-bit FNV-1a hash.
pub const FNV_PRIME: u64 = 0x0000_0100_0000_01b3;

/// One step of the FNV-1a hash: fold one byte into the state.
pub open spec fn fnv_step(h: u64, b: u8) -> u64 {
    vstd::wrapping::u64_specs::wrapping_mul(h ^ (b as u64), FNV_PRIME)
}

/// FNV-1a over a byte sequence, starting from state `h`.
pub open spec fn fnv_seq(h: u64, bs: Seq<u8>) -> u64
    decreases bs.len(),
{
    if bs.len() <= 0 {
        h
    } else {
        fnv_seq(fnv_step(h, bs[0]), bs.drop_first())
    }
}

/// Fold the four big-endian bytes of a 32-bit value into the hash state.
pub open spec fn fnv_u32(h: u64, x: u32) -> u64 {
    fnv_step(fnv_step(fnv_step(fnv_step(h, (x >> 24) as u8), (x >> 16) as u8), (x >> 8) as u8), x as u8)
}

/// Fold the eight big-endian bytes of a 64-bit value into the hash state.
pub open spec fn fnv_u64(h: u64, x: u64) -> u64 {
    fnv_u32(fnv_u32(h, (x >> 32) as u32), x as u32)
}

/// Identity of an owl: a content hash of its name and DNA.
pub open spec fn owl_id_spec(o: OwlV) -> u64 {
    fnv_u32(fnv_seq(FNV_OFFSET, encode_utf8(o.name)), o.dna)
}

/// Content hash of a bid history: folding each accepted bid into the root of
/// the bids before it.
pub open spec fn bids_root_spec(bids: Seq<Bid>) -> u64
    decreases bids.len(),
{
    if bids.len() <= 0 {
        0
    } else {
        fnv_u64(fnv_u64(bids_root_spec(bids.drop_last()), bids.last().public_key), bids.last().value)
    }
}

/// One step of the FNV-1a hash.
fn fnv_step_exec(h: u64, b: u8) -> (r: u64)
    ensures
        r == fnv_step(h, b),
{
    (h ^ (b as u64)).wrapping_mul(FNV_PRIME)
}

/// FNV-1a over a byte slice, starting from state `h0`.
fn fnv_bytes(h0: u64, bs: &[u8]) -> (r: u64)
    ensures
        r == fnv_seq(h0, bs@),
{
    let mut h: u64 = h0;
    let mut i: usize = 0;
    proof {
        assert(bs@.skip(0) =~= bs@);
    }
    while i < bs.len()
        invariant
            i <= bs@.len(),
            fnv_seq(h, bs@.skip(i as int)) == fnv_seq(h0, bs@),
        decreases bs@.len() - i,
    {
        proof {
            assert(bs@.skip(i as int)[0] == bs@[i as int]);
            assert(bs@.skip(i as int).drop_first() =~= bs@.skip(i as int + 1));
        }
        h = fnv_step_exec(h, bs[i]);
        i = i + 1;
    }
    proof {
        assert(bs@.skip(bs@.len() as int) =~= Seq::<u8>::empty());
    }
    h
}

/// Fold the four big-endian bytes of a 32-bit value into the hash state.
fn fnv_u32_exec(h: u64, x: u32) -> (r: u64)
    ensures
        r == fnv_u32(h, x),
{
    let h1 = fnv_step_exec(h, (x >> 24) as u8);
    let h2 = fnv_step_exec(h1, (x >> 16) as u8);
    let h3 = fnv_step_exec(h2, (x >> 8) as u8);
    fnv_step_exec(h3, x as u8)
}

/// Fold the eight big-endian bytes of a 64-bit value into the hash state.
fn fnv_u64_exec(h: u64, x: u64) -> (r: u64)
    ensures
        r == fnv_u64(h, x),
{
    let h1 = fnv_u32_exec(h, (x >> 32) as u32);
    fnv_u32_exec(h1, x as u32)
}

impl CryptoOwl {
    /// The owl's identity: a content hash of its name and DNA.
    pub fn id(&self) -> (r: u64)
        ensures
            r == owl_id_spec(self@),
    {
        let h = fnv_bytes(FNV_OFFSET, self.name.as_str().as_bytes());
        fnv_u32_exec(h, self.dna)
    }
}

/// Content hash of a bid history, extended by one accepted bid.
pub(crate) fn extend_bids_root(root: u64, bid: &Bid, Ghost(bids): Ghost<Seq<Bid>>) -> (r: u64)
    requires
        root == bids_root_spec(bids),
    ensures
        r == bids_root_spec(bids.push(*bid)),
{
    let h1 = fnv_u64_exec(root, bid.public_key);
    let r = fnv_u64_exec(h1, bid.value);
    proof {
        assert(bids.push(*bid).drop_last() =~= bids);
        assert(bids.push(*bid).last() == *bid);
    }
    r
}

/// Content hash of a whole bid history.
pub fn bids_root(bids: &Vec<Bid>) -> (r: u64)
    ensures
        r == bids_root_spec(bids@),
{
    let mut root: u64 = 0;
    let mut i: usize = 0;
    while i < bids.len()
        invariant
            i <= bids@.len(),
            root == bids_root_spec(bids@.take(i as int)),
        decreases bids@.len() - i,
    {
        proof {
            assert(bids@.take(i as int).push(bids@[i as int]) =~= bids@.take(i as int + 1));
        }
        root = extend_bids_root(root, &bids[i], Ghost(bids@.take(i as int)));
        i = i + 1;
    }
    proof {
        assert(bids@.take(bids@.len() as int) =~= bids@);
    }
    root
}

} // verus!
