//! Mathematical model of the ledger state: the view of the schema, lookups
//! over its tables, the well-formedness invariant every committed state
//! satisfies, and the reservation accounting that ties each user's reserved
//! funds to their standing bids.

use vstd::prelude::*;

verus! {

use crate::data_layout::{AuctionState, Bid, OwlStateV, OwlV, UserV, bids_root_spec, owl_id_spec};
use crate::rng::{child_dna, seed_words_spec};

/// Mathematical view of the whole ledger state.
#[verifier::ext_equal]
pub ghost struct SchemaV {
    /// Users, in registration order.
    pub users: Seq<UserV>,
    /// Owls and their states, keyed by the owl's content-hash identity.
    pub owls_state: Seq<(u64, OwlStateV)>,
    /// Auctions; the auction with identifier `i` sits at position `i`.
    pub auctions: Seq<AuctionState>,
    /// Bid history of each auction, at the auction's position.
    pub auction_bids: Seq<Seq<Bid>>,
    /// Index from an owl to its open auction, present only while open.
    pub owl_auction: Seq<(u64, u64)>,
    /// Index pairs (owner, owl).
    pub user_owls: Seq<(u64, u64)>,
    /// Index pairs (seller, auction), in creation order.
    pub user_auctions: Seq<(u64, u64)>,
}

// ---------------------------------------------------------------------------
// Lookups.
// ---------------------------------------------------------------------------

/// Whether a user with the given key is registered.
pub open spec fn has_user(users: Seq<UserV>, key: u64) -> bool {
    exists|i: int| 0 <= i < users.len() && users[i].public_key == key
}

/// Position of the user with the given key.
pub open spec fn user_idx(users: Seq<UserV>, key: u64) -> int {
    choose|i: int| 0 <= i < users.len() && users[i].public_key == key
}

/// The registered user with the given key.
pub open spec fn user_at(users: Seq<UserV>, key: u64) -> UserV {
    users[user_idx(users, key)]
}

/// Whether an owl with the given identity exists.
pub open spec fn has_owl(owls: Seq<(u64, OwlStateV)>, id: u64) -> bool {
    exists|i: int| 0 <= i < owls.len() && owls[i].0 == id
}

/// Position of the owl with the given identity.
pub open spec fn owl_idx(owls: Seq<(u64, OwlStateV)>, id: u64) -> int {
    choose|i: int| 0 <= i < owls.len() && owls[i].0 == id
}

/// The state of the owl with the given identity.
pub open spec fn owl_at(owls: Seq<(u64, OwlStateV)>, id: u64) -> OwlStateV {
    owls[owl_idx(owls, id)].1
}

/// Whether the pair sequence holds an entry with the given key.
pub open spec fn pair_has(ps: Seq<(u64, u64)>, key: u64) -> bool {
    exists|i: int| 0 <= i < ps.len() && ps[i].0 == key
}

/// Position of the entry with the given key.
pub open spec fn pair_idx(ps: Seq<(u64, u64)>, key: u64) -> int {
    choose|i: int| 0 <= i < ps.len() && ps[i].0 == key
}

/// The value stored under the given key.
pub open spec fn pair_at(ps: Seq<(u64, u64)>, key: u64) -> u64 {
    ps[pair_idx(ps, key)].1
}

/// Whether the pair sequence holds exactly the pair `(a, b)`.
pub open spec fn pair_mem(ps: Seq<(u64, u64)>, a: u64, b: u64) -> bool {
    exists|i: int| 0 <= i < ps.len() && ps[i] == (a, b)
}

// ---------------------------------------------------------------------------
// Uniqueness.
// ---------------------------------------------------------------------------

/// No two users share a key.
pub open spec fn users_unique(users: Seq<UserV>) -> bool {
    forall|i: int, j: int|
        0 <= i < j < users.len() ==> users[i].public_key != users[j].public_key
}

/// No two owls share an identity.
pub open spec fn owls_unique(owls: Seq<(u64, OwlStateV)>) -> bool {
    forall|i: int, j: int| 0 <= i < j < owls.len() ==> owls[i].0 != owls[j].0
}

/// No two entries share a key.
pub open spec fn pairs_key_unique(ps: Seq<(u64, u64)>) -> bool {
    forall|i: int, j: int| 0 <= i < j < ps.len() ==> ps[i].0 != ps[j].0
}

/// No entry occurs twice.
pub open spec fn pairs_unique(ps: Seq<(u64, u64)>) -> bool {
    forall|i: int, j: int| 0 <= i < j < ps.len() ==> ps[i] != ps[j]
}

// ---------------------------------------------------------------------------
// Reservation accounting.
// ---------------------------------------------------------------------------

/// What auction `i` currently locks up for user `u`: the value of the last
/// bid of an open auction whose last bidder is `u`, and nothing otherwise.
pub open spec fn standing_value(s: SchemaV, i: int, u: u64) -> int {
    if 0 <= i < s.auctions.len() && i < s.auction_bids.len() && !s.auctions[i].closed
        && s.auction_bids[i].len() > 0 && s.auction_bids[i].last().public_key == u {
        s.auction_bids[i].last().value as int
    } else {
        0
    }
}

/// Sum of the standing values of the first `n` auctions for user `u`.
pub open spec fn reserved_upto(s: SchemaV, u: u64, n: int) -> int
    decreases n,
{
    if n <= 0 {
        0
    } else {
        reserved_upto(s, u, n - 1) + standing_value(s, n - 1, u)
    }
}

/// Everything user `u` has locked up in standing bids.
pub open spec fn reserved_total(s: SchemaV, u: u64) -> int {
    reserved_upto(s, u, s.auctions.len() as int)
}

// ---------------------------------------------------------------------------
// Well-formedness.
// ---------------------------------------------------------------------------

/// User table: unique keys, and each user's total wealth representable.
pub open spec fn users_wf(s: SchemaV) -> bool {
    &&& users_unique(s.users)
    &&& forall|i: int|
        0 <= i < s.users.len() ==> s.users[i].balance + s.users[i].reserved <= u64::MAX
}

/// Owl table: unique identities, each consistent with the owl's content.
pub open spec fn owls_wf(s: SchemaV) -> bool {
    &&& owls_unique(s.owls_state)
    &&& forall|i: int|
        0 <= i < s.owls_state.len() ==> s.owls_state[i].0 == owl_id_spec(
            s.owls_state[i].1.owl,
        )
}

/// Auction table: identifiers equal positions, one bid history per auction,
/// sellers registered, auctioned owls existing, bid roots consistent.
pub open spec fn auctions_wf(s: SchemaV) -> bool {
    &&& s.auction_bids.len() == s.auctions.len()
    &&& forall|i: int|
        0 <= i < s.auctions.len() ==> {
            &&& #[trigger] s.auctions[i].id == i
            &&& has_user(s.users, s.auctions[i].auction.public_key)
            &&& has_owl(s.owls_state, s.auctions[i].auction.owl_id)
            &&& s.auctions[i].bidding_merkle_root == bids_root_spec(s.auction_bids[i])
        }
}

/// One auction's bid history: values strictly increasing and above the start
/// price.
pub open spec fn bids_increasing(bids: Seq<Bid>, start_price: u64) -> bool {
    &&& forall|j: int| 0 <= j < bids.len() ==> #[trigger] bids[j].value > start_price
    &&& forall|j: int, k: int| 0 <= j < k < bids.len() ==> bids[j].value < bids[k].value
}

/// All bid histories: increasing values, registered bidders, no seller
/// bidding in their own auction.
pub open spec fn bids_wf(s: SchemaV) -> bool {
    forall|i: int|
        0 <= i < s.auctions.len() ==> {
            &&& bids_increasing(#[trigger] s.auction_bids[i], s.auctions[i].auction.start_price)
            &&& forall|j: int|
                0 <= j < s.auction_bids[i].len() ==> {
                    &&& has_user(s.users, #[trigger] s.auction_bids[i][j].public_key)
                    &&& s.auction_bids[i][j].public_key != s.auctions[i].auction.public_key
                }
        }
}

/// Owl-to-auction index: unique keys, every entry naming an open auction of
/// that owl, every open auction indexed.
pub open spec fn owl_auction_wf(s: SchemaV) -> bool {
    &&& pairs_key_unique(s.owl_auction)
    &&& forall|i: int|
        0 <= i < s.owl_auction.len() ==> {
            &&& (#[trigger] s.owl_auction[i]).1 < s.auctions.len()
            &&& s.auctions[s.owl_auction[i].1 as int].auction.owl_id == s.owl_auction[i].0
            &&& !s.auctions[s.owl_auction[i].1 as int].closed
        }
    &&& forall|i: int|
        0 <= i < s.auctions.len() && !(#[trigger] s.auctions[i]).closed ==> pair_mem(
            s.owl_auction,
            s.auctions[i].auction.owl_id,
            i as u64,
        )
}

/// While an auction is open, its owl still belongs to the seller.
pub open spec fn owner_wf(s: SchemaV) -> bool {
    forall|i: int|
        0 <= i < s.auctions.len() && !(#[trigger] s.auctions[i]).closed ==> owl_at(
            s.owls_state,
            s.auctions[i].auction.owl_id,
        ).owner == s.auctions[i].auction.public_key
}

/// Owner index: a pair `(u, o)` stands exactly for an existing owl `o`
/// owned by `u`, with no duplicates.
pub open spec fn user_owls_wf(s: SchemaV) -> bool {
    &&& pairs_unique(s.user_owls)
    &&& forall|i: int|
        0 <= i < s.user_owls.len() ==> {
            &&& has_owl(s.owls_state, (#[trigger] s.user_owls[i]).1)
            &&& owl_at(s.owls_state, s.user_owls[i].1).owner == s.user_owls[i].0
        }
    &&& forall|i: int|
        0 <= i < s.owls_state.len() ==> pair_mem(
            s.user_owls,
            (#[trigger] s.owls_state[i]).1.owner,
            s.owls_state[i].0,
        )
}

/// Seller index: every entry names an auction of that seller.
pub open spec fn user_auctions_wf(s: SchemaV) -> bool {
    forall|i: int|
        0 <= i < s.user_auctions.len() ==> {
            &&& (#[trigger] s.user_auctions[i]).1 < s.auctions.len()
            &&& s.auctions[s.user_auctions[i].1 as int].auction.public_key == s.user_auctions[i].0
        }
}

/// Each user's reserved funds equal the sum of their standing bids.
pub open spec fn reserves_wf(s: SchemaV) -> bool {
    forall|i: int|
        0 <= i < s.users.len() ==> (#[trigger] s.users[i]).reserved == reserved_total(
            s,
            s.users[i].public_key,
        )
}

/// The invariant of every committed state.
pub open spec fn wf(s: SchemaV) -> bool {
    &&& users_wf(s)
    &&& owls_wf(s)
    &&& auctions_wf(s)
    &&& bids_wf(s)
    &&& owl_auction_wf(s)
    &&& owner_wf(s)
    &&& user_owls_wf(s)
    &&& user_auctions_wf(s)
    &&& reserves_wf(s)
}

// ---------------------------------------------------------------------------
// Table transitions, at the level of the view.
// ---------------------------------------------------------------------------

/// Store an owl state under identity `id`: replace or append.
pub open spec fn put_owl(owls: Seq<(u64, OwlStateV)>, id: u64, st: OwlStateV) -> Seq<
    (u64, OwlStateV),
> {
    if has_owl(owls, id) {
        owls.update(owl_idx(owls, id), (id, st))
    } else {
        owls.push((id, st))
    }
}

/// Add the pair `(a, b)` unless it is already present.
pub open spec fn insert_pair(ps: Seq<(u64, u64)>, a: u64, b: u64) -> Seq<(u64, u64)> {
    if pair_mem(ps, a, b) {
        ps
    } else {
        ps.push((a, b))
    }
}

/// Position of the pair `(a, b)`.
pub open spec fn pair_mem_idx(ps: Seq<(u64, u64)>, a: u64, b: u64) -> int {
    choose|i: int| 0 <= i < ps.len() && ps[i] == (a, b)
}

/// Drop the pair `(a, b)` if present, keeping the order of the rest.
pub open spec fn remove_pair(ps: Seq<(u64, u64)>, a: u64, b: u64) -> Seq<(u64, u64)> {
    if pair_mem(ps, a, b) {
        ps.remove(pair_mem_idx(ps, a, b))
    } else {
        ps
    }
}

/// Drop the entry stored under `key` if present, keeping the order of the
/// rest.
pub open spec fn remove_pair_key(ps: Seq<(u64, u64)>, key: u64) -> Seq<(u64, u64)> {
    if pair_has(ps, key) {
        ps.remove(pair_idx(ps, key))
    } else {
        ps
    }
}

/// The values stored under `key`, in order.
pub open spec fn values_for(ps: Seq<(u64, u64)>, key: u64) -> Seq<u64>
    decreases ps.len(),
{
    if ps.len() == 0 {
        Seq::empty()
    } else if ps[0].0 == key {
        seq![ps[0].1] + values_for(ps.drop_first(), key)
    } else {
        values_for(ps.drop_first(), key)
    }
}

/// The values of all entries, in order.
pub open spec fn pair_values(ps: Seq<(u64, u64)>) -> Seq<u64> {
    ps.map_values(|p: (u64, u64)| p.1)
}

/// Record one owl for `owner`: store its state under its identity and index
/// it to the owner.
pub open spec fn refresh_one(s: SchemaV, owner: u64, o: OwlV, t: u64) -> SchemaV {
    SchemaV {
        owls_state: put_owl(
            s.owls_state,
            owl_id_spec(o),
            OwlStateV { owl: o, owner, last_breeding: t },
        ),
        user_owls: insert_pair(s.user_owls, owner, owl_id_spec(o)),
        ..s
    }
}

/// Record a batch of owls for `owner`, first to last.
pub open spec fn refresh_fold(s: SchemaV, owner: u64, os: Seq<OwlV>, t: u64) -> SchemaV
    decreases os.len(),
{
    if os.len() == 0 {
        s
    } else {
        refresh_fold(refresh_one(s, owner, os[0], t), owner, os.drop_first(), t)
    }
}

/// Closing an expired auction: if a bid stands, the winner's reservation is
/// spent, the seller is credited, and the owl changes owner; either way the
/// owl index entry goes and the auction is marked closed.
pub open spec fn close_tr(s: SchemaV, aid: int) -> SchemaV {
    let st = s.auctions[aid];
    let bids = s.auction_bids[aid];
    let s1 = if bids.len() > 0 {
        let wb = bids.last();
        let winner0 = user_at(s.users, wb.public_key);
        let users1 = s.users.update(
            user_idx(s.users, wb.public_key),
            UserV { reserved: (winner0.reserved - wb.value) as u64, ..winner0 },
        );
        let seller0 = user_at(users1, st.auction.public_key);
        let users2 = users1.update(
            user_idx(users1, st.auction.public_key),
            UserV { balance: (seller0.balance + wb.value) as u64, ..seller0 },
        );
        let oid = st.auction.owl_id;
        let ost = owl_at(s.owls_state, oid);
        SchemaV {
            users: users2,
            owls_state: s.owls_state.update(
                owl_idx(s.owls_state, oid),
                (oid, OwlStateV { owner: wb.public_key, ..ost }),
            ),
            user_owls: insert_pair(remove_pair(s.user_owls, ost.owner, oid), wb.public_key, oid),
            ..s
        }
    } else {
        s
    };
    SchemaV {
        auctions: s1.auctions.update(aid, AuctionState { closed: true, ..st }),
        owl_auction: remove_pair_key(s1.owl_auction, st.auction.owl_id),
        ..s1
    }
}

/// Whether crediting the seller of auction `aid` with the standing bid would
/// stay within the machine's range. States with no standing bid fit
/// trivially.
pub open spec fn close_credit_fits(s: SchemaV, aid: int) -> bool {
    s.auction_bids[aid].len() == 0 || {
        let wb = s.auction_bids[aid].last();
        let seller = user_at(s.users, s.auctions[aid].auction.public_key);
        seller.balance + seller.reserved + wb.value <= u64::MAX
    }
}

/// One step of the sweep: close the auction if it is open, expired, and the
/// settlement credit fits the machine's range.
pub open spec fn sweep_step(s: SchemaV, aid: u64, now: u64) -> SchemaV {
    if aid < s.auctions.len() && !s.auctions[aid as int].closed && s.auctions[
        aid as int
    ].spec_expired(now) && close_credit_fits(s, aid as int) {
        close_tr(s, aid as int)
    } else {
        s
    }
}

/// The whole sweep: process the listed auctions first to last.
pub open spec fn sweep_fold(s: SchemaV, ids: Seq<u64>, now: u64) -> SchemaV
    decreases ids.len(),
{
    if ids.len() == 0 {
        s
    } else {
        sweep_fold(sweep_step(s, ids[0], now), ids.drop_first(), now)
    }
}

// ---------------------------------------------------------------------------
// The deterministic breeding outcome.
// ---------------------------------------------------------------------------

/// The DNA drawn in round `k` is the final one: its owl identity is free,
/// and every earlier round collided.
pub open spec fn uniq_dna_at(
    owls: Seq<(u64, OwlStateV)>,
    g0: u32,
    g1: u32,
    name: Seq<char>,
    seed: Seq<u8>,
    dna: u32,
    k: nat,
) -> bool {
    &&& dna == child_dna(g0, g1, seed_words_spec(seed), k)
    &&& !has_owl(owls, owl_id_spec(OwlV { name, dna }))
    &&& forall|j: nat|
        j < k ==> has_owl(
            owls,
            owl_id_spec(OwlV { name, dna: child_dna(g0, g1, seed_words_spec(seed), j) }),
        )
}

/// `dna` is the child genome that breeding yields for these parents, this
/// name and this seed, against the given owl table: the first draw of the
/// stream, within the draw cap, whose identity is free.
pub open spec fn uniq_dna_ok(
    owls: Seq<(u64, OwlStateV)>,
    g0: u32,
    g1: u32,
    name: Seq<char>,
    seed: Seq<u8>,
    dna: u32,
) -> bool {
    exists|k: nat| k < crate::DNA_DRAW_LIMIT && uniq_dna_at(owls, g0, g1, name, seed, dna, k)
}

/// Breeding these parents under this name and seed runs out of the draw
/// cap: every round up to the cap draws a genome whose identity is already
/// taken. Deterministic in its arguments; no practical state satisfies it.
pub open spec fn dna_exhausted(
    owls: Seq<(u64, OwlStateV)>,
    g0: u32,
    g1: u32,
    name: Seq<char>,
    seed: Seq<u8>,
) -> bool {
    forall|j: nat|
        j < crate::DNA_DRAW_LIMIT ==> has_owl(
            owls,
            owl_id_spec(OwlV { name, dna: child_dna(g0, g1, seed_words_spec(seed), j) }),
        )
}

/// Opening an auction: append its state with an empty bid history and index
/// it to its owl and its seller.
pub open spec fn open_auction_tr(s: SchemaV, st: AuctionState) -> SchemaV {
    SchemaV {
        auctions: s.auctions.push(st),
        auction_bids: s.auction_bids.push(Seq::empty()),
        owl_auction: s.owl_auction.push((st.auction.owl_id, st.id)),
        user_auctions: s.user_auctions.push((st.auction.public_key, st.id)),
        ..s
    }
}

/// Accepting a bid: refund the outbid bidder if one stands, reserve the new
/// bidder's value, and append the bid.
pub open spec fn bid_tr(s: SchemaV, aid: int, bidder: u64, value: u64) -> SchemaV {
    let bids = s.auction_bids[aid];
    let s1 = if bids.len() > 0 {
        let pb = bids.last();
        let pu = user_at(s.users, pb.public_key);
        SchemaV {
            users: s.users.update(
                user_idx(s.users, pb.public_key),
                UserV {
                    balance: (pu.balance + pb.value) as u64,
                    reserved: (pu.reserved - pb.value) as u64,
                    ..pu
                },
            ),
            ..s
        }
    } else {
        s
    };
    let bu = user_at(s1.users, bidder);
    let s2 = SchemaV {
        users: s1.users.update(
            user_idx(s1.users, bidder),
            UserV {
                balance: (bu.balance - value) as u64,
                reserved: (bu.reserved + value) as u64,
                ..bu
            },
        ),
        ..s1
    };
    let nb = Bid { public_key: bidder, value };
    SchemaV {
        auctions: s2.auctions.update(
            aid,
            AuctionState { bidding_merkle_root: bids_root_spec(bids.push(nb)), ..s2.auctions[aid] },
        ),
        auction_bids: s2.auction_bids.update(aid, bids.push(nb)),
        ..s2
    }
}

// ---------------------------------------------------------------------------
// Lemmas about lookups.
// ---------------------------------------------------------------------------

/// With unique keys, the position of a key is the one position that holds it.
pub proof fn lemma_user_idx_is(users: Seq<UserV>, key: u64, i: int)
    requires
        users_unique(users),
        0 <= i < users.len(),
        users[i].public_key == key,
    ensures
        has_user(users, key),
        user_idx(users, key) == i,
        user_at(users, key) == users[i],
{
    assert(has_user(users, key));
    let j = user_idx(users, key);
    assert(0 <= j < users.len() && users[j].public_key == key);
    if i < j {
        assert(users[i].public_key != users[j].public_key);
    } else if j < i {
        assert(users[j].public_key != users[i].public_key);
    }
}

/// With unique identities, the position of an identity is the one position
/// that holds it.
pub proof fn lemma_owl_idx_is(owls: Seq<(u64, OwlStateV)>, id: u64, i: int)
    requires
        owls_unique(owls),
        0 <= i < owls.len(),
        owls[i].0 == id,
    ensures
        has_owl(owls, id),
        owl_idx(owls, id) == i,
        owl_at(owls, id) == owls[i].1,
{
    assert(has_owl(owls, id));
    let j = owl_idx(owls, id);
    assert(0 <= j < owls.len() && owls[j].0 == id);
    if i < j {
        assert(owls[i].0 != owls[j].0);
    } else if j < i {
        assert(owls[j].0 != owls[i].0);
    }
}

/// With unique keys, the position of a key is the one position that holds it.
pub proof fn lemma_pair_idx_is(ps: Seq<(u64, u64)>, key: u64, i: int)
    requires
        pairs_key_unique(ps),
        0 <= i < ps.len(),
        ps[i].0 == key,
    ensures
        pair_has(ps, key),
        pair_idx(ps, key) == i,
        pair_at(ps, key) == ps[i].1,
{
    assert(pair_has(ps, key));
    let j = pair_idx(ps, key);
    assert(0 <= j < ps.len() && ps[j].0 == key);
    if i < j {
        assert(ps[i].0 != ps[j].0);
    } else if j < i {
        assert(ps[j].0 != ps[i].0);
    }
}

/// With no duplicate pairs, the position of a pair is the one position that
/// holds it.
pub proof fn lemma_pair_mem_idx_is(ps: Seq<(u64, u64)>, a: u64, b: u64, i: int)
    requires
        pairs_unique(ps),
        0 <= i < ps.len(),
        ps[i] == (a, b),
    ensures
        pair_mem(ps, a, b),
        pair_mem_idx(ps, a, b) == i,
{
    assert(pair_mem(ps, a, b));
    let j = pair_mem_idx(ps, a, b);
    assert(0 <= j < ps.len() && ps[j] == (a, b));
    if i < j {
        assert(ps[i] != ps[j]);
    } else if j < i {
        assert(ps[j] != ps[i]);
    }
}

/// Recording one owl keeps the key tables duplicate-free.
pub proof fn lemma_refresh_one_keys(s: SchemaV, owner: u64, o: OwlV, t: u64)
    requires
        owls_unique(s.owls_state),
        pairs_unique(s.user_owls),
    ensures
        owls_unique(refresh_one(s, owner, o, t).owls_state),
        pairs_unique(refresh_one(s, owner, o, t).user_owls),
        refresh_one(s, owner, o, t).users == s.users,
        refresh_one(s, owner, o, t).auctions == s.auctions,
        refresh_one(s, owner, o, t).auction_bids == s.auction_bids,
        refresh_one(s, owner, o, t).owl_auction == s.owl_auction,
        refresh_one(s, owner, o, t).user_auctions == s.user_auctions,
{
    let id = owl_id_spec(o);
    let owls2 = refresh_one(s, owner, o, t).owls_state;
    if has_owl(s.owls_state, id) {
        assert(owls_unique(owls2));
    } else {
        assert forall|i: int, j: int| 0 <= i < j < owls2.len() implies owls2[i].0 != owls2[j].0 by {
            if j == owls2.len() - 1 {
                assert(owls2[i] == s.owls_state[i]);
                if owls2[i].0 == id {
                    assert(has_owl(s.owls_state, id));
                }
            }
        }
    }
    let uo2 = refresh_one(s, owner, o, t).user_owls;
    if !pair_mem(s.user_owls, owner, id) {
        assert forall|i: int, j: int| 0 <= i < j < uo2.len() implies uo2[i] != uo2[j] by {
            if j == uo2.len() - 1 {
                assert(uo2[i] == s.user_owls[i]);
                if uo2[i] == (owner, id) {
                    assert(pair_mem(s.user_owls, owner, id));
                }
            }
        }
    }
}

// ---------------------------------------------------------------------------
// Lemmas about the reservation sums.
// ---------------------------------------------------------------------------

/// A partial reservation sum is never negative.
pub proof fn lemma_reserved_upto_nonneg(s: SchemaV, u: u64, n: int)
    ensures
        reserved_upto(s, u, n) >= 0,
    decreases n,
{
    if n > 0 {
        lemma_reserved_upto_nonneg(s, u, n - 1);
    }
}

/// Two states whose standing values agree below `n` have the same partial
/// sum.
pub proof fn lemma_reserved_upto_agree(s1: SchemaV, s2: SchemaV, u: u64, n: int)
    requires
        forall|i: int| 0 <= i < n ==> standing_value(s1, i, u) == standing_value(s2, i, u),
    ensures
        reserved_upto(s1, u, n) == reserved_upto(s2, u, n),
    decreases n,
{
    if n > 0 {
        lemma_reserved_upto_agree(s1, s2, u, n - 1);
    }
}

/// If two states differ in the standing value of one position alone, the
/// partial sums differ by exactly that change.
pub proof fn lemma_reserved_upto_delta(s1: SchemaV, s2: SchemaV, u: u64, pos: int, n: int)
    requires
        0 <= pos < n,
        forall|i: int|
            0 <= i < n && i != pos ==> standing_value(s1, i, u) == standing_value(s2, i, u),
    ensures
        reserved_upto(s2, u, n) == reserved_upto(s1, u, n) + standing_value(s2, pos, u)
            - standing_value(s1, pos, u),
    decreases n,
{
    if pos == n - 1 {
        lemma_reserved_upto_agree(s1, s2, u, n - 1);
    } else {
        lemma_reserved_upto_delta(s1, s2, u, pos, n - 1);
    }
}

/// Every single standing value is at most the whole partial sum.
pub proof fn lemma_standing_le_upto(s: SchemaV, u: u64, pos: int, n: int)
    requires
        0 <= pos < n,
    ensures
        standing_value(s, pos, u) <= reserved_upto(s, u, n),
    decreases n,
{
    if pos == n - 1 {
        lemma_reserved_upto_nonneg(s, u, n - 1);
    } else {
        lemma_standing_le_upto(s, u, pos, n - 1);
    }
}

/// A user with no standing bid below `n` has a zero partial sum.
pub proof fn lemma_reserved_upto_zero(s: SchemaV, u: u64, n: int)
    requires
        forall|i: int| 0 <= i < n ==> standing_value(s, i, u) == 0,
    ensures
        reserved_upto(s, u, n) == 0,
    decreases n,
{
    if n > 0 {
        lemma_reserved_upto_zero(s, u, n - 1);
    }
}

/// Extending the range by one auction adds that auction's standing value.
pub proof fn lemma_reserved_upto_extend(s: SchemaV, u: u64, n: int)
    requires
        n >= 0,
    ensures
        reserved_upto(s, u, n + 1) == reserved_upto(s, u, n) + standing_value(s, n, u),
{
}

/// Removing some other entry keeps a pair in the sequence.
pub proof fn lemma_remove_still_mem(ps: Seq<(u64, u64)>, i: int, a: u64, b: u64)
    requires
        pair_mem(ps, a, b),
        0 <= i < ps.len(),
        ps[i] != (a, b),
    ensures
        pair_mem(ps.remove(i), a, b),
{
    let w = choose|w: int| 0 <= w < ps.len() && ps[w] == (a, b);
    if w < i {
        assert(ps.remove(i)[w] == ps[w]);
    } else {
        assert(ps.remove(i)[w - 1] == ps[w]);
    }
}

// ---------------------------------------------------------------------------
// Preservation of the invariant, transition by transition.
// ---------------------------------------------------------------------------

/// Registering a fresh user with nothing reserved keeps the invariant.
pub proof fn lemma_wf_insert_user(s: SchemaV, u: UserV)
    requires
        wf(s),
        !has_user(s.users, u.public_key),
        u.reserved == 0,
    ensures
        wf(SchemaV { users: s.users.push(u), ..s }),
{
    let s2 = SchemaV { users: s.users.push(u), ..s };
    assert(users_unique(s2.users)) by {
        assert forall|i: int, j: int| 0 <= i < j < s2.users.len() implies s2.users[i].public_key
            != s2.users[j].public_key by {
            if j == s2.users.len() - 1 {
                if s2.users[i].public_key == u.public_key {
                    assert(has_user(s.users, u.public_key));
                }
            }
        }
    }
    assert forall|k: u64| has_user(s.users, k) implies has_user(s2.users, k) by {
        let w = choose|w: int| 0 <= w < s.users.len() && s.users[w].public_key == k;
        assert(s2.users[w].public_key == k);
    }
    assert(auctions_wf(s2));
    assert(bids_wf(s2));
    assert(reserves_wf(s2)) by {
        assert forall|i: int| 0 <= i < s2.users.len() implies (#[trigger] s2.users[i]).reserved
            == reserved_total(s2, s2.users[i].public_key) by {
            if i < s.users.len() {
                assert(s.users[i].reserved == reserved_total(s, s.users[i].public_key));
                assert forall|p: int|
                    0 <= p < s2.auctions.len() implies standing_value(s2, p, s.users[i].public_key)
                    == standing_value(s, p, s.users[i].public_key) by {}
                lemma_reserved_upto_agree(s, s2, s.users[i].public_key, s.auctions.len() as int);
            } else {
                assert(s2.users[i] == u);
                assert forall|p: int| 0 <= p < s2.auctions.len() implies standing_value(
                    s2,
                    p,
                    u.public_key,
                ) == 0 by {
                    if 0 <= p < s.auctions.len() && !s.auctions[p].closed && s.auction_bids[
                        p
                    ].len() > 0 && s.auction_bids[p].last().public_key == u.public_key {
                        assert(has_user(
                            s.users,
                            s.auction_bids[p][s.auction_bids[p].len() - 1].public_key,
                        ));
                    }
                }
                lemma_reserved_upto_zero(s2, u.public_key, s2.auctions.len() as int);
            }
        }
    }
}

/// Opening an auction for an existing, unlisted owl of a registered seller
/// keeps the invariant.
#[verifier::rlimit(50)]
#[verifier::spinoff_prover]
pub proof fn lemma_wf_open_auction(s: SchemaV, st: AuctionState)
    requires
        wf(s),
        has_user(s.users, st.auction.public_key),
        has_owl(s.owls_state, st.auction.owl_id),
        owl_at(s.owls_state, st.auction.owl_id).owner == st.auction.public_key,
        !pair_has(s.owl_auction, st.auction.owl_id),
        st.id == s.auctions.len(),
        !st.closed,
        st.bidding_merkle_root == 0,
    ensures
        wf(open_auction_tr(s, st)),
{
    let s2 = open_auction_tr(s, st);
    let n = s.auctions.len() as int;
    assert(auctions_wf(s2)) by {
        assert forall|i: int| 0 <= i < s2.auctions.len() implies {
            &&& #[trigger] s2.auctions[i].id == i
            &&& has_user(s2.users, s2.auctions[i].auction.public_key)
            &&& has_owl(s2.owls_state, s2.auctions[i].auction.owl_id)
            &&& s2.auctions[i].bidding_merkle_root == bids_root_spec(s2.auction_bids[i])
        } by {
            if i < n {
                assert(s.auctions[i].id == i);
                assert(has_user(s.users, s.auctions[i].auction.public_key));
                assert(has_owl(s.owls_state, s.auctions[i].auction.owl_id));
                assert(s2.auctions[i] == s.auctions[i]);
                assert(s2.auction_bids[i] == s.auction_bids[i]);
            } else {
                assert(s2.auctions[i] == st);
                assert(s2.auction_bids[i] =~= Seq::<Bid>::empty());
            }
        }
    }
    assert(bids_wf(s2)) by {
        assert forall|i: int| 0 <= i < s2.auctions.len() implies {
            &&& bids_increasing(#[trigger] s2.auction_bids[i], s2.auctions[i].auction.start_price)
            &&& forall|j: int|
                0 <= j < s2.auction_bids[i].len() ==> {
                    &&& has_user(s2.users, #[trigger] s2.auction_bids[i][j].public_key)
                    &&& s2.auction_bids[i][j].public_key != s2.auctions[i].auction.public_key
                }
        } by {
            if i < n {
                assert(s2.auctions[i] == s.auctions[i]);
                assert(s2.auction_bids[i] == s.auction_bids[i]);
            } else {
                assert(s2.auction_bids[i] =~= Seq::<Bid>::empty());
            }
        }
    }
    assert(owl_auction_wf(s2)) by {
        assert(pairs_key_unique(s2.owl_auction)) by {
            assert forall|i: int, j: int| 0 <= i < j < s2.owl_auction.len() implies s2.owl_auction[
                i
            ].0 != s2.owl_auction[j].0 by {
                if j == s2.owl_auction.len() - 1 {
                    if s2.owl_auction[i].0 == st.auction.owl_id {
                        assert(pair_has(s.owl_auction, st.auction.owl_id));
                    }
                }
            }
        }
        assert forall|i: int| 0 <= i < s2.auctions.len() && !(#[trigger] s2.auctions[i]).closed
            implies pair_mem(s2.owl_auction, s2.auctions[i].auction.owl_id, i as u64) by {
            if i < n {
                assert(pair_mem(s.owl_auction, s.auctions[i].auction.owl_id, i as u64));
                let w = choose|w: int|
                    0 <= w < s.owl_auction.len() && s.owl_auction[w] == (
                        s.auctions[i].auction.owl_id,
                        i as u64,
                    );
                assert(s2.owl_auction[w] == (s2.auctions[i].auction.owl_id, i as u64));
            } else {
                assert(s2.owl_auction[s.owl_auction.len() as int] == (
                    st.auction.owl_id,
                    st.id,
                ));
                assert(i as u64 == st.id);
            }
        }
    }
    assert(owner_wf(s2)) by {
        assert forall|i: int| 0 <= i < s2.auctions.len() && !(#[trigger] s2.auctions[i]).closed
            implies owl_at(s2.owls_state, s2.auctions[i].auction.owl_id).owner == s2.auctions[
            i
        ].auction.public_key by {
            if i < n {
                assert(s2.auctions[i] == s.auctions[i]);
            } else {
                assert(s2.auctions[i] == st);
            }
        }
    }
    assert(reserves_wf(s2)) by {
        assert forall|j: int| 0 <= j < s2.users.len() implies (#[trigger] s2.users[j]).reserved
            == reserved_total(s2, s2.users[j].public_key) by {
            let k = s2.users[j].public_key;
            assert(s.users[j].reserved == reserved_total(s, s.users[j].public_key));
            assert forall|p: int|
                0 <= p < n implies standing_value(s2, p, k) == standing_value(s, p, k) by {
                assert(s2.auctions[p] == s.auctions[p]);
                assert(s2.auction_bids[p] == s.auction_bids[p]);
            }
            lemma_reserved_upto_agree(s, s2, k, n);
            lemma_reserved_upto_extend(s2, k, n);
            assert(standing_value(s2, n, k) == 0);
        }
    }
}

/// The value a bid must beat: the standing bid, or the start price before
/// any bid stands.
pub open spec fn min_bid_of(s: SchemaV, aid: int) -> u64 {
    if s.auction_bids[aid].len() > 0 {
        s.auction_bids[aid].last().value
    } else {
        s.auctions[aid].auction.start_price
    }
}

/// Accepting a bid above the standing one, from a registered bidder with
/// the funds who is not the seller, keeps the invariant; and the refund of
/// the outbid bidder is safe.
#[verifier::rlimit(100)]
#[verifier::spinoff_prover]
pub proof fn lemma_wf_bid(s: SchemaV, aid: int, bidder: u64, value: u64)
    requires
        wf(s),
        0 <= aid < s.auctions.len(),
        !s.auctions[aid].closed,
        has_user(s.users, bidder),
        bidder != s.auctions[aid].auction.public_key,
        user_at(s.users, bidder).balance >= value,
        value > min_bid_of(s, aid),
    ensures
        wf(bid_tr(s, aid, bidder, value)),
        s.auction_bids[aid].len() > 0 ==> {
            let pb = s.auction_bids[aid].last();
            let pu = user_at(s.users, pb.public_key);
            &&& has_user(s.users, pb.public_key)
            &&& pu.reserved >= pb.value
            &&& pu.balance + pb.value <= u64::MAX
        },
{
    let n = s.auctions.len() as int;
    let bids = s.auction_bids[aid];
    let nb = Bid { public_key: bidder, value };
    let idx_b = user_idx(s.users, bidder);
    lemma_user_idx_is(s.users, bidder, idx_b);

    // Facts about the outbid bidder, and the released state.
    if bids.len() > 0 {
        let pb = bids.last();
        assert(bids[bids.len() - 1].public_key == pb.public_key);
        assert(has_user(s.users, pb.public_key));
        let idx_p = user_idx(s.users, pb.public_key);
        lemma_user_idx_is(s.users, pb.public_key, idx_p);
        let pu = user_at(s.users, pb.public_key);
        assert(pu.reserved == reserved_total(s, pb.public_key));
        assert(standing_value(s, aid, pb.public_key) == pb.value);
        lemma_standing_le_upto(s, pb.public_key, aid, n);
        assert(pu.reserved >= pb.value);
        assert(pu.balance + pu.reserved <= u64::MAX);
    }
    let s1 = if bids.len() > 0 {
        let pb = bids.last();
        let pu = user_at(s.users, pb.public_key);
        SchemaV {
            users: s.users.update(
                user_idx(s.users, pb.public_key),
                UserV {
                    balance: (pu.balance + pb.value) as u64,
                    reserved: (pu.reserved - pb.value) as u64,
                    ..pu
                },
            ),
            ..s
        }
    } else {
        s
    };
    assert(s1.users.len() == s.users.len());
    assert(users_unique(s1.users)) by {
        assert forall|i: int, j: int| 0 <= i < j < s1.users.len() implies s1.users[i].public_key
            != s1.users[j].public_key by {
            assert(s1.users[i].public_key == s.users[i].public_key);
            assert(s1.users[j].public_key == s.users[j].public_key);
        }
    }
    assert(s1.users[idx_b].public_key == bidder);
    lemma_user_idx_is(s1.users, bidder, idx_b);
    let bu = user_at(s1.users, bidder);
    assert(bu.balance >= value) by {
        if bids.len() > 0 && bids.last().public_key == bidder {
            assert(bu.balance == user_at(s.users, bidder).balance + bids.last().value);
        } else {
            assert(bu == user_at(s.users, bidder));
        }
    }
    assert(bu.balance + bu.reserved <= u64::MAX) by {
        let u0 = user_at(s.users, bidder);
        if bids.len() > 0 && bids.last().public_key == bidder {
            assert(bu.balance + bu.reserved == u0.balance + u0.reserved);
        } else {
            assert(bu == u0);
        }
    }
    assert(bu.reserved + value <= u64::MAX);
    let s2 = SchemaV {
        users: s1.users.update(
            idx_b,
            UserV {
                balance: (bu.balance - value) as u64,
                reserved: (bu.reserved + value) as u64,
                ..bu
            },
        ),
        ..s1
    };
    let s3 = SchemaV {
        auctions: s2.auctions.update(
            aid,
            AuctionState { bidding_merkle_root: bids_root_spec(bids.push(nb)), ..s2.auctions[aid] },
        ),
        auction_bids: s2.auction_bids.update(aid, bids.push(nb)),
        ..s2
    };
    assert(s3 == bid_tr(s, aid, bidder, value));

    assert(s3.users.len() == s.users.len());
    assert forall|j: int| 0 <= j < s.users.len() implies s3.users[j].public_key == s.users[
        j
    ].public_key by {}
    assert(users_unique(s3.users));
    assert(users_wf(s3)) by {
        assert forall|j: int| 0 <= j < s3.users.len() implies s3.users[j].balance + s3.users[
            j
        ].reserved <= u64::MAX by {
            if j == idx_b {
            } else if bids.len() > 0 && j == user_idx(s.users, bids.last().public_key) {
            } else {
                assert(s3.users[j] == s.users[j]);
            }
        }
    }
    assert forall|k: u64| has_user(s.users, k) implies has_user(s3.users, k) by {
        let w = choose|w: int| 0 <= w < s.users.len() && s.users[w].public_key == k;
        assert(s3.users[w].public_key == k);
    }
    assert(auctions_wf(s3)) by {
        assert forall|i: int| 0 <= i < s3.auctions.len() implies {
            &&& #[trigger] s3.auctions[i].id == i
            &&& has_user(s3.users, s3.auctions[i].auction.public_key)
            &&& has_owl(s3.owls_state, s3.auctions[i].auction.owl_id)
            &&& s3.auctions[i].bidding_merkle_root == bids_root_spec(s3.auction_bids[i])
        } by {
            assert(s.auctions[i].id == i);
            assert(has_user(s.users, s.auctions[i].auction.public_key));
            assert(has_owl(s.owls_state, s.auctions[i].auction.owl_id));
            if i != aid {
                assert(s3.auctions[i] == s.auctions[i]);
                assert(s3.auction_bids[i] == s.auction_bids[i]);
            } else {
                assert(s3.auctions[i].auction == s.auctions[i].auction);
                assert(s3.auction_bids[i] == bids.push(nb));
            }
        }
    }
    assert(bids_wf(s3)) by {
        assert forall|i: int| 0 <= i < s3.auctions.len() implies {
            &&& bids_increasing(#[trigger] s3.auction_bids[i], s3.auctions[i].auction.start_price)
            &&& forall|j: int|
                0 <= j < s3.auction_bids[i].len() ==> {
                    &&& has_user(s3.users, #[trigger] s3.auction_bids[i][j].public_key)
                    &&& s3.auction_bids[i][j].public_key != s3.auctions[i].auction.public_key
                }
        } by {
            if i != aid {
                assert(s3.auctions[i] == s.auctions[i]);
                assert(s3.auction_bids[i] == s.auction_bids[i]);
                assert(bids_increasing(s.auction_bids[i], s.auctions[i].auction.start_price));
                assert forall|j: int| 0 <= j < s3.auction_bids[i].len() implies {
                    &&& has_user(s3.users, #[trigger] s3.auction_bids[i][j].public_key)
                    &&& s3.auction_bids[i][j].public_key != s3.auctions[i].auction.public_key
                } by {
                    assert(has_user(s.users, s.auction_bids[i][j].public_key));
                }
            } else {
                let b2 = s3.auction_bids[i];
                assert(b2 == bids.push(nb));
                assert(bids_increasing(bids, s.auctions[aid].auction.start_price));
                assert(bids_increasing(b2, s3.auctions[i].auction.start_price)) by {
                    assert forall|j: int| 0 <= j < b2.len() implies #[trigger] b2[j].value > s3.auctions[
                        i
                    ].auction.start_price by {
                        if j < bids.len() {
                            assert(b2[j] == bids[j]);
                        } else {
                            assert(b2[j] == nb);
                            if bids.len() > 0 {
                                assert(bids.last().value > s.auctions[aid].auction.start_price);
                            }
                        }
                    }
                    assert forall|j: int, k2: int| 0 <= j < k2 < b2.len() implies b2[j].value < b2[
                        k2
                    ].value by {
                        if k2 < bids.len() {
                            assert(b2[j] == bids[j] && b2[k2] == bids[k2]);
                        } else {
                            assert(b2[k2] == nb);
                            assert(b2[j] == bids[j]);
                            if j < bids.len() - 1 {
                                assert(bids[j].value < bids[bids.len() - 1].value);
                            }
                        }
                    }
                }
                assert forall|j: int| 0 <= j < b2.len() implies {
                    &&& has_user(s3.users, #[trigger] b2[j].public_key)
                    &&& b2[j].public_key != s3.auctions[i].auction.public_key
                } by {
                    if j < bids.len() {
                        assert(b2[j] == bids[j]);
                        assert(has_user(s.users, s.auction_bids[aid][j].public_key));
                        assert(s.auction_bids[aid][j].public_key != s.auctions[
                            aid
                        ].auction.public_key);
                    } else {
                        assert(b2[j] == nb);
                    }
                }
            }
        }
    }
    assert(owl_auction_wf(s3)) by {
        assert forall|i: int| 0 <= i < s3.owl_auction.len() implies {
            &&& (#[trigger] s3.owl_auction[i]).1 < s3.auctions.len()
            &&& s3.auctions[s3.owl_auction[i].1 as int].auction.owl_id == s3.owl_auction[i].0
            &&& !s3.auctions[s3.owl_auction[i].1 as int].closed
        } by {
            let t = s.owl_auction[i].1 as int;
            if t == aid {
                assert(s3.auctions[t].auction == s.auctions[t].auction);
                assert(s3.auctions[t].closed == s.auctions[t].closed);
            } else {
                assert(s3.auctions[t] == s.auctions[t]);
            }
        }
        assert forall|i: int| 0 <= i < s3.auctions.len() && !(#[trigger] s3.auctions[i]).closed
            implies pair_mem(s3.owl_auction, s3.auctions[i].auction.owl_id, i as u64) by {
            if i == aid {
                assert(s3.auctions[i].auction == s.auctions[i].auction);
                assert(!s.auctions[i].closed);
            } else {
                assert(s3.auctions[i] == s.auctions[i]);
            }
            assert(pair_mem(s.owl_auction, s.auctions[i].auction.owl_id, i as u64));
        }
    }
    assert(owner_wf(s3)) by {
        assert forall|i: int| 0 <= i < s3.auctions.len() && !(#[trigger] s3.auctions[i]).closed
            implies owl_at(s3.owls_state, s3.auctions[i].auction.owl_id).owner == s3.auctions[
            i
        ].auction.public_key by {
            if i == aid {
                assert(s3.auctions[i].auction == s.auctions[i].auction);
                assert(!s.auctions[i].closed);
            } else {
                assert(s3.auctions[i] == s.auctions[i]);
            }
        }
    }
    assert(user_owls_wf(s3));
    assert(user_auctions_wf(s3)) by {
        assert forall|i: int| 0 <= i < s3.user_auctions.len() implies {
            &&& (#[trigger] s3.user_auctions[i]).1 < s3.auctions.len()
            &&& s3.auctions[s3.user_auctions[i].1 as int].auction.public_key == s3.user_auctions[
                i
            ].0
        } by {
            let t = s.user_auctions[i].1 as int;
            if t == aid {
                assert(s3.auctions[t].auction == s.auctions[t].auction);
            } else {
                assert(s3.auctions[t] == s.auctions[t]);
            }
        }
    }
    assert(reserves_wf(s3)) by {
        assert forall|j: int| 0 <= j < s3.users.len() implies (#[trigger] s3.users[j]).reserved
            == reserved_total(s3, s3.users[j].public_key) by {
            let k = s3.users[j].public_key;
            assert(s.users[j].public_key == k);
            assert(s.users[j].reserved == reserved_total(s, k));
            assert forall|p: int|
                0 <= p < n && p != aid implies standing_value(s3, p, k) == standing_value(
                s,
                p,
                k,
            ) by {
                assert(s3.auctions[p] == s.auctions[p]);
                assert(s3.auction_bids[p] == s.auction_bids[p]);
            }
            lemma_reserved_upto_delta(s, s3, k, aid, n);
            assert(s3.auction_bids[aid] == bids.push(nb));
            assert(bids.push(nb).last() == nb);
            assert(s3.auctions[aid].closed == s.auctions[aid].closed);
            let sv_old = standing_value(s, aid, k);
            let sv_new = standing_value(s3, aid, k);
            assert(sv_new == if k == bidder {
                value as int
            } else {
                0
            });
            if bids.len() > 0 {
                let pb = bids.last();
                let idx_p = user_idx(s.users, pb.public_key);
                assert(sv_old == if k == pb.public_key {
                    pb.value as int
                } else {
                    0
                });
                if k == bidder && k == pb.public_key {
                    assert(j == idx_b && idx_b == idx_p);
                    assert(s3.users[j].reserved == user_at(s.users, k).reserved - pb.value
                        + value);
                } else if k == bidder {
                    assert(j == idx_b);
                    assert(s3.users[j].reserved == user_at(s.users, k).reserved + value);
                } else if k == pb.public_key {
                    assert(j == idx_p);
                    assert(s3.users[j].reserved == user_at(s.users, k).reserved - pb.value);
                } else {
                    assert(s3.users[j].reserved == s.users[j].reserved);
                }
            } else {
                assert(sv_old == 0);
                if k == bidder {
                    assert(j == idx_b);
                    assert(s3.users[j].reserved == user_at(s.users, k).reserved + value);
                } else {
                    assert(s3.users[j].reserved == s.users[j].reserved);
                }
            }
        }
    }
}

/// Two open auctions that list the same owl are the same auction: both are
/// indexed under the owl's key, and the index holds each key once.
pub proof fn lemma_open_owl_unique(s: SchemaV, i: int, j: int)
    requires
        wf(s),
        0 <= i < s.auctions.len(),
        0 <= j < s.auctions.len(),
        !s.auctions[i].closed,
        !s.auctions[j].closed,
        s.auctions[i].auction.owl_id == s.auctions[j].auction.owl_id,
    ensures
        i == j,
{
    let oid = s.auctions[i].auction.owl_id;
    assert(s.auctions[i].id == i);
    assert(s.auctions[j].id == j);
    assert(pair_mem(s.owl_auction, oid, i as u64));
    assert(pair_mem(s.owl_auction, oid, j as u64));
    let wi = choose|w: int| 0 <= w < s.owl_auction.len() && s.owl_auction[w] == (oid, i as u64);
    let wj = choose|w: int| 0 <= w < s.owl_auction.len() && s.owl_auction[w] == (oid, j as u64);
    if wi < wj {
        assert(s.owl_auction[wi].0 != s.owl_auction[wj].0);
    } else if wj < wi {
        assert(s.owl_auction[wj].0 != s.owl_auction[wi].0);
    }
    assert(wi == wj);
    assert(i as u64 == j as u64);
}

/// Closing an open auction whose settlement credit fits the machine's range
/// keeps the invariant, and every settlement step stays in range.
#[verifier::rlimit(50)]
pub proof fn lemma_wf_close(s: SchemaV, aid: int)
    requires
        wf(s),
        0 <= aid < s.auctions.len(),
        !s.auctions[aid].closed,
        close_credit_fits(s, aid),
    ensures
        wf(close_tr(s, aid)),
        s.auction_bids[aid].len() > 0 ==> {
            let wb = s.auction_bids[aid].last();
            let wu = user_at(s.users, wb.public_key);
            &&& has_user(s.users, wb.public_key)
            &&& wb.public_key != s.auctions[aid].auction.public_key
            &&& wu.reserved >= wb.value
        },
        has_owl(s.owls_state, s.auctions[aid].auction.owl_id),
        pair_mem(
            s.user_owls,
            owl_at(s.owls_state, s.auctions[aid].auction.owl_id).owner,
            s.auctions[aid].auction.owl_id,
        ),
{
    let n = s.auctions.len() as int;
    let st = s.auctions[aid];
    let bids = s.auction_bids[aid];
    let oid = st.auction.owl_id;
    assert(s.auctions[aid].id == aid);
    assert(has_owl(s.owls_state, oid));
    let ost = owl_at(s.owls_state, oid);
    assert(ost.owner == st.auction.public_key);
    let oi = owl_idx(s.owls_state, oid);
    lemma_owl_idx_is(s.owls_state, oid, oi);
    assert(pair_mem(s.user_owls, s.owls_state[oi].1.owner, s.owls_state[oi].0));
    assert(pair_mem(s.user_owls, ost.owner, oid));

    // No other open auction lists the same owl.
    assert forall|j: int|
        0 <= j < n && !(#[trigger] s.auctions[j]).closed && s.auctions[j].auction.owl_id == oid
        implies j == aid by {
        lemma_open_owl_unique(s, j, aid);
    }

    if bids.len() > 0 {
        let wb = bids.last();
        assert(bids[bids.len() - 1].public_key == wb.public_key);
        assert(has_user(s.users, wb.public_key));
        assert(wb.public_key != st.auction.public_key);
        let iw = user_idx(s.users, wb.public_key);
        lemma_user_idx_is(s.users, wb.public_key, iw);
        assert(user_at(s.users, wb.public_key).reserved == reserved_total(s, wb.public_key));
        assert(standing_value(s, aid, wb.public_key) == wb.value);
        lemma_standing_le_upto(s, wb.public_key, aid, n);
        lemma_wf_close_with_bid(s, aid);
    } else {
        lemma_wf_close_no_bid(s, aid);
    }
}
/// The settling half of [`lemma_wf_close`]: a bid stands.
#[verifier::rlimit(100)]
#[verifier::spinoff_prover]
proof fn lemma_wf_close_with_bid(s: SchemaV, aid: int)
    requires
        wf(s),
        0 <= aid < s.auctions.len(),
        !s.auctions[aid].closed,
        close_credit_fits(s, aid),
        s.auction_bids[aid].len() > 0,
    ensures
        wf(close_tr(s, aid)),
{
    let n = s.auctions.len() as int;
    let st = s.auctions[aid];
    let bids = s.auction_bids[aid];
    let oid = st.auction.owl_id;
    assert(s.auctions[aid].id == aid);
    assert(has_owl(s.owls_state, oid));
    let ost = owl_at(s.owls_state, oid);
    assert(ost.owner == st.auction.public_key);
    let oi = owl_idx(s.owls_state, oid);
    lemma_owl_idx_is(s.owls_state, oid, oi);
    assert(pair_mem(s.user_owls, s.owls_state[oi].1.owner, s.owls_state[oi].0));
    assert(pair_mem(s.user_owls, ost.owner, oid));

    // No other open auction lists the same owl.
    assert forall|j: int|
        0 <= j < n && !(#[trigger] s.auctions[j]).closed && s.auctions[j].auction.owl_id == oid
        implies j == aid by {
        lemma_open_owl_unique(s, j, aid);
    }

    {
        let wb = bids.last();
        assert(bids[bids.len() - 1].public_key == wb.public_key);
        assert(has_user(s.users, wb.public_key));
        assert(wb.public_key != st.auction.public_key);
        let iw = user_idx(s.users, wb.public_key);
        lemma_user_idx_is(s.users, wb.public_key, iw);
        let wu = user_at(s.users, wb.public_key);
        assert(wu.reserved == reserved_total(s, wb.public_key));
        assert(standing_value(s, aid, wb.public_key) == wb.value);
        lemma_standing_le_upto(s, wb.public_key, aid, n);
        assert(wu.reserved >= wb.value);

        let users1 = s.users.update(
            iw,
            UserV { reserved: (wu.reserved - wb.value) as u64, ..wu },
        );
        assert forall|j: int| 0 <= j < s.users.len() implies users1[j].public_key == s.users[
            j
        ].public_key by {}
        assert(users_unique(users1));
        let is_ = user_idx(s.users, st.auction.public_key);
        lemma_user_idx_is(s.users, st.auction.public_key, is_);
        assert(users1[is_].public_key == st.auction.public_key);
        lemma_user_idx_is(users1, st.auction.public_key, is_);
        let seller0 = user_at(users1, st.auction.public_key);
        assert(is_ != iw);
        assert(seller0 == user_at(s.users, st.auction.public_key));
        let users2 = users1.update(
            is_,
            UserV { balance: (seller0.balance + wb.value) as u64, ..seller0 },
        );
        let owls2 = s.owls_state.update(oi, (oid, OwlStateV { owner: wb.public_key, ..ost }));
        let uo1 = remove_pair(s.user_owls, ost.owner, oid);
        let uo2 = insert_pair(uo1, wb.public_key, oid);
        let s1 = SchemaV { users: users2, owls_state: owls2, user_owls: uo2, ..s };
        let s2 = SchemaV {
            auctions: s1.auctions.update(aid, AuctionState { closed: true, ..st }),
            owl_auction: remove_pair_key(s1.owl_auction, oid),
            ..s1
        };
        assert(s2 == close_tr(s, aid));

        // Users.
        assert forall|j: int| 0 <= j < s.users.len() implies users2[j].public_key == s.users[
            j
        ].public_key by {}
        assert(users_unique(users2));
        assert(users_wf(s2)) by {
            assert forall|j: int| 0 <= j < users2.len() implies users2[j].balance + users2[
                j
            ].reserved <= u64::MAX by {
                if j == iw {
                } else if j == is_ {
                    assert(user_at(s.users, st.auction.public_key).balance + user_at(
                        s.users,
                        st.auction.public_key,
                    ).reserved + wb.value <= u64::MAX);
                } else {
                    assert(users2[j] == s.users[j]);
                }
            }
        }
        assert forall|k: u64| has_user(s.users, k) implies has_user(users2, k) by {
            let w = choose|w: int| 0 <= w < s.users.len() && s.users[w].public_key == k;
            assert(users2[w].public_key == k);
        }

        // Owls.
        assert(owls_unique(owls2)) by {
            assert forall|i: int, j: int| 0 <= i < j < owls2.len() implies owls2[i].0 != owls2[
                j
            ].0 by {
                assert(owls2[i].0 == s.owls_state[i].0 && owls2[j].0 == s.owls_state[j].0);
            }
        }
        assert(owls_wf(s2)) by {
            assert forall|i: int| 0 <= i < owls2.len() implies owls2[i].0 == owl_id_spec(
                owls2[i].1.owl,
            ) by {
                if i != oi {
                    assert(owls2[i] == s.owls_state[i]);
                }
            }
        }
        assert forall|o: u64| has_owl(s.owls_state, o) implies has_owl(owls2, o) by {
            let w = choose|w: int| 0 <= w < s.owls_state.len() && s.owls_state[w].0 == o;
            assert(owls2[w].0 == o);
        }
        // Lookup of any other owl is unchanged.
        assert forall|o: u64| #![trigger owl_at(owls2, o)] has_owl(s.owls_state, o) && o != oid
            implies owl_at(owls2, o) == owl_at(s.owls_state, o) by {
            let w = owl_idx(s.owls_state, o);
            lemma_owl_idx_is(s.owls_state, o, w);
            assert(owls2[w].0 == o);
            lemma_owl_idx_is(owls2, o, w);
            assert(w != oi);
            assert(owls2[w] == s.owls_state[w]);
        }
        assert(owl_at(owls2, oid) == OwlStateV { owner: wb.public_key, ..ost }) by {
            assert(owls2[oi].0 == oid);
            lemma_owl_idx_is(owls2, oid, oi);
        }

        // Auctions.
        assert(auctions_wf(s2)) by {
            assert forall|i: int| 0 <= i < s2.auctions.len() implies {
                &&& #[trigger] s2.auctions[i].id == i
                &&& has_user(s2.users, s2.auctions[i].auction.public_key)
                &&& has_owl(s2.owls_state, s2.auctions[i].auction.owl_id)
                &&& s2.auctions[i].bidding_merkle_root == bids_root_spec(s2.auction_bids[i])
            } by {
                assert(s.auctions[i].id == i);
                assert(has_user(s.users, s.auctions[i].auction.public_key));
                assert(has_owl(s.owls_state, s.auctions[i].auction.owl_id));
                if i != aid {
                    assert(s2.auctions[i] == s.auctions[i]);
                } else {
                    assert(s2.auctions[i].auction == st.auction);
                    assert(s2.auctions[i].id == st.id);
                    assert(s2.auctions[i].bidding_merkle_root == st.bidding_merkle_root);
                }
                assert(s2.auction_bids[i] == s.auction_bids[i]);
            }
        }
        assert(bids_wf(s2)) by {
            assert forall|i: int| 0 <= i < s2.auctions.len() implies {
                &&& bids_increasing(
                    #[trigger] s2.auction_bids[i],
                    s2.auctions[i].auction.start_price,
                )
                &&& forall|j: int|
                    0 <= j < s2.auction_bids[i].len() ==> {
                        &&& has_user(s2.users, #[trigger] s2.auction_bids[i][j].public_key)
                        &&& s2.auction_bids[i][j].public_key != s2.auctions[i].auction.public_key
                    }
            } by {
                assert(s2.auction_bids[i] == s.auction_bids[i]);
                assert(s2.auctions[i].auction == s.auctions[i].auction);
                assert(bids_increasing(s.auction_bids[i], s.auctions[i].auction.start_price));
                assert forall|j: int| 0 <= j < s2.auction_bids[i].len() implies {
                    &&& has_user(s2.users, #[trigger] s2.auction_bids[i][j].public_key)
                    &&& s2.auction_bids[i][j].public_key != s2.auctions[i].auction.public_key
                } by {
                    assert(has_user(s.users, s.auction_bids[i][j].public_key));
                }
            }
        }

        // Owl-to-auction index.
        lemma_wf_close_oa(s, aid, s2);

        // Owner during auction.
        assert(owner_wf(s2)) by {
            assert forall|i: int|
                0 <= i < s2.auctions.len() && !(#[trigger] s2.auctions[i]).closed implies owl_at(
                s2.owls_state,
                s2.auctions[i].auction.owl_id,
            ).owner == s2.auctions[i].auction.public_key by {
                assert(i != aid);
                assert(s2.auctions[i] == s.auctions[i]);
                assert(s.auctions[i].id == i);
                assert(has_owl(s.owls_state, s.auctions[i].auction.owl_id));
                assert(s.auctions[i].auction.owl_id != oid);
                assert(owl_at(owls2, s.auctions[i].auction.owl_id) == owl_at(
                    s.owls_state,
                    s.auctions[i].auction.owl_id,
                ));
            }
        }

        // Owner index.
        let rm = pair_mem_idx(s.user_owls, ost.owner, oid);
        assert(0 <= rm < s.user_owls.len() && s.user_owls[rm] == (ost.owner, oid));
        assert(pairs_unique(uo1)) by {
            assert forall|i: int, j: int| 0 <= i < j < uo1.len() implies uo1[i] != uo1[j] by {
                let i0 = if i < rm { i } else { i + 1 };
                let j0 = if j < rm { j } else { j + 1 };
                assert(uo1[i] == s.user_owls[i0]);
                assert(uo1[j] == s.user_owls[j0]);
            }
        }
        assert forall|i: int| 0 <= i < uo1.len() implies uo1[i] != (ost.owner, oid) by {
            let i0 = if i < rm { i } else { i + 1 };
            assert(uo1[i] == s.user_owls[i0]);
            if s.user_owls[i0] == (ost.owner, oid) && i0 != rm {
                assert(s.user_owls[i0] != s.user_owls[rm]);
            }
        }
        assert(user_owls_wf(s2)) by {
            assert(pairs_unique(uo2)) by {
                if !pair_mem(uo1, wb.public_key, oid) {
                    assert forall|i: int, j: int| 0 <= i < j < uo2.len() implies uo2[i] != uo2[
                        j
                    ] by {
                        if j == uo2.len() - 1 {
                            if uo2[i] == (wb.public_key, oid) {
                                assert(pair_mem(uo1, wb.public_key, oid));
                            }
                        }
                    }
                }
            }
            assert forall|i: int| 0 <= i < uo2.len() implies {
                &&& has_owl(s2.owls_state, (#[trigger] uo2[i]).1)
                &&& owl_at(s2.owls_state, uo2[i].1).owner == uo2[i].0
            } by {
                if i < uo1.len() {
                    assert(uo2[i] == uo1[i]);
                    let i0 = if i < rm { i } else { i + 1 };
                    assert(uo1[i] == s.user_owls[i0]);
                    assert(has_owl(s.owls_state, s.user_owls[i0].1));
                    assert(owl_at(s.owls_state, s.user_owls[i0].1).owner == s.user_owls[i0].0);
                    if s.user_owls[i0].1 == oid {
                        assert(s.user_owls[i0].0 == ost.owner);
                        assert(uo1[i] != (ost.owner, oid));
                        assert(false);
                    }
                    assert(owl_at(owls2, uo1[i].1) == owl_at(s.owls_state, uo1[i].1));
                } else {
                    assert(uo2[i] == (wb.public_key, oid));
                }
            }
            assert forall|i: int| 0 <= i < owls2.len() implies pair_mem(
                uo2,
                (#[trigger] owls2[i]).1.owner,
                owls2[i].0,
            ) by {
                if i == oi {
                    assert(owls2[i].1.owner == wb.public_key && owls2[i].0 == oid);
                    if pair_mem(uo1, wb.public_key, oid) {
                        let w = choose|w: int|
                            0 <= w < uo1.len() && uo1[w] == (wb.public_key, oid);
                        assert(uo2[w] == (wb.public_key, oid));
                    } else {
                        assert(uo2[uo1.len() as int] == (wb.public_key, oid));
                    }
                } else {
                    assert(owls2[i] == s.owls_state[i]);
                    assert(pair_mem(s.user_owls, s.owls_state[i].1.owner, s.owls_state[i].0));
                    assert(s.owls_state[i].0 != oid);
                    assert((s.owls_state[i].1.owner, s.owls_state[i].0) != (ost.owner, oid));
                    lemma_remove_still_mem(
                        s.user_owls,
                        rm,
                        s.owls_state[i].1.owner,
                        s.owls_state[i].0,
                    );
                    let w = choose|w: int|
                        0 <= w < uo1.len() && uo1[w] == (
                            s.owls_state[i].1.owner,
                            s.owls_state[i].0,
                        );
                    assert(uo2[w] == (s.owls_state[i].1.owner, s.owls_state[i].0));
                }
            }
        }
        assert(user_auctions_wf(s2)) by {
            assert forall|i: int| 0 <= i < s2.user_auctions.len() implies {
                &&& (#[trigger] s2.user_auctions[i]).1 < s2.auctions.len()
                &&& s2.auctions[s2.user_auctions[i].1 as int].auction.public_key
                    == s2.user_auctions[i].0
            } by {
                let t = s.user_auctions[i].1 as int;
                if t == aid {
                    assert(s2.auctions[t].auction == st.auction);
                } else {
                    assert(s2.auctions[t] == s.auctions[t]);
                }
            }
        }
        assert(reserves_wf(s2)) by {
            assert forall|j: int| 0 <= j < s2.users.len() implies (#[trigger] s2.users[j]).reserved
                == reserved_total(s2, s2.users[j].public_key) by {
                let k = s2.users[j].public_key;
                assert(s.users[j].public_key == k);
                assert(s.users[j].reserved == reserved_total(s, k));
                assert forall|p: int|
                    0 <= p < n && p != aid implies standing_value(s2, p, k) == standing_value(
                    s,
                    p,
                    k,
                ) by {
                    assert(s2.auctions[p] == s.auctions[p]);
                    assert(s2.auction_bids[p] == s.auction_bids[p]);
                }
                lemma_reserved_upto_delta(s, s2, k, aid, n);
                assert(s2.auctions[aid].closed);
                assert(standing_value(s2, aid, k) == 0);
                if k == wb.public_key {
                    assert(j == iw);
                    assert(standing_value(s, aid, k) == wb.value);
                    assert(s2.users[j].reserved == wu.reserved - wb.value);
                } else {
                    assert(standing_value(s, aid, k) == 0);
                    assert(s2.users[j].reserved == s.users[j].reserved);
                }
            }
        }
    }
}

/// The bid-less half of [`lemma_wf_close`].
#[verifier::rlimit(100)]
proof fn lemma_wf_close_no_bid(s: SchemaV, aid: int)
    requires
        wf(s),
        0 <= aid < s.auctions.len(),
        !s.auctions[aid].closed,
        s.auction_bids[aid].len() == 0,
    ensures
        wf(close_tr(s, aid)),
{
    let n = s.auctions.len() as int;
    let st = s.auctions[aid];
    let bids = s.auction_bids[aid];
    let oid = st.auction.owl_id;
    assert(s.auctions[aid].id == aid);
    assert(has_owl(s.owls_state, oid));
    let ost = owl_at(s.owls_state, oid);
    assert(ost.owner == st.auction.public_key);
    let oi = owl_idx(s.owls_state, oid);
    lemma_owl_idx_is(s.owls_state, oid, oi);
    assert(pair_mem(s.user_owls, s.owls_state[oi].1.owner, s.owls_state[oi].0));
    assert(pair_mem(s.user_owls, ost.owner, oid));

    // No other open auction lists the same owl.
    assert forall|j: int|
        0 <= j < n && !(#[trigger] s.auctions[j]).closed && s.auctions[j].auction.owl_id == oid
        implies j == aid by {
        lemma_open_owl_unique(s, j, aid);
    }

    {
        let s2 = SchemaV {
            auctions: s.auctions.update(aid, AuctionState { closed: true, ..st }),
            owl_auction: remove_pair_key(s.owl_auction, oid),
            ..s
        };
        assert(s2 == close_tr(s, aid));
        assert(users_wf(s2));
        assert(owls_wf(s2));
        assert(auctions_wf(s2)) by {
            assert forall|i: int| 0 <= i < s2.auctions.len() implies {
                &&& #[trigger] s2.auctions[i].id == i
                &&& has_user(s2.users, s2.auctions[i].auction.public_key)
                &&& has_owl(s2.owls_state, s2.auctions[i].auction.owl_id)
                &&& s2.auctions[i].bidding_merkle_root == bids_root_spec(s2.auction_bids[i])
            } by {
                assert(s.auctions[i].id == i);
                assert(has_user(s.users, s.auctions[i].auction.public_key));
                assert(has_owl(s.owls_state, s.auctions[i].auction.owl_id));
                if i != aid {
                    assert(s2.auctions[i] == s.auctions[i]);
                } else {
                    assert(s2.auctions[i].auction == st.auction);
                    assert(s2.auctions[i].id == st.id);
                    assert(s2.auctions[i].bidding_merkle_root == st.bidding_merkle_root);
                }
                assert(s2.auction_bids[i] == s.auction_bids[i]);
            }
        }
        assert(bids_wf(s2)) by {
            assert forall|i: int| 0 <= i < s2.auctions.len() implies {
                &&& bids_increasing(
                    #[trigger] s2.auction_bids[i],
                    s2.auctions[i].auction.start_price,
                )
                &&& forall|j: int|
                    0 <= j < s2.auction_bids[i].len() ==> {
                        &&& has_user(s2.users, #[trigger] s2.auction_bids[i][j].public_key)
                        &&& s2.auction_bids[i][j].public_key != s2.auctions[i].auction.public_key
                    }
            } by {
                assert(s2.auction_bids[i] == s.auction_bids[i]);
                assert(s2.auctions[i].auction == s.auctions[i].auction);
                assert(bids_increasing(s.auction_bids[i], s.auctions[i].auction.start_price));
            }
        }
        lemma_wf_close_oa(s, aid, s2);
        assert(owner_wf(s2)) by {
            assert forall|i: int|
                0 <= i < s2.auctions.len() && !(#[trigger] s2.auctions[i]).closed implies owl_at(
                s2.owls_state,
                s2.auctions[i].auction.owl_id,
            ).owner == s2.auctions[i].auction.public_key by {
                assert(i != aid);
                assert(s2.auctions[i] == s.auctions[i]);
            }
        }
        assert(user_owls_wf(s2));
        assert(user_auctions_wf(s2)) by {
            assert forall|i: int| 0 <= i < s2.user_auctions.len() implies {
                &&& (#[trigger] s2.user_auctions[i]).1 < s2.auctions.len()
                &&& s2.auctions[s2.user_auctions[i].1 as int].auction.public_key
                    == s2.user_auctions[i].0
            } by {
                let t = s.user_auctions[i].1 as int;
                if t == aid {
                    assert(s2.auctions[t].auction == st.auction);
                } else {
                    assert(s2.auctions[t] == s.auctions[t]);
                }
            }
        }
        assert(reserves_wf(s2)) by {
            assert forall|j: int| 0 <= j < s2.users.len() implies (#[trigger] s2.users[j]).reserved
                == reserved_total(s2, s2.users[j].public_key) by {
                let k = s2.users[j].public_key;
                assert(s.users[j].reserved == reserved_total(s, k));
                assert forall|p: int|
                    0 <= p < n && p != aid implies standing_value(s2, p, k) == standing_value(
                    s,
                    p,
                    k,
                ) by {
                    assert(s2.auctions[p] == s.auctions[p]);
                    assert(s2.auction_bids[p] == s.auction_bids[p]);
                }
                lemma_reserved_upto_delta(s, s2, k, aid, n);
                assert(standing_value(s2, aid, k) == 0);
                assert(standing_value(s, aid, k) == 0);
            }
        }
    
    }
}


/// The owl index of a state that differs from `s` only outside the
/// owl-to-auction index and closes auction `aid` stays well-formed.
proof fn lemma_wf_close_oa(s: SchemaV, aid: int, s2: SchemaV)
    requires
        wf(s),
        0 <= aid < s.auctions.len(),
        !s.auctions[aid].closed,
        s2.owl_auction == remove_pair_key(s.owl_auction, s.auctions[aid].auction.owl_id),
        s2.auctions.len() == s.auctions.len(),
        s2.auctions[aid].closed,
        forall|i: int| 0 <= i < s.auctions.len() && i != aid ==> s2.auctions[i] == s.auctions[i],
    ensures
        owl_auction_wf(s2),
{
    let oid = s.auctions[aid].auction.owl_id;
    assert(pair_mem(s.owl_auction, oid, aid as u64));
    let wa = choose|w: int| 0 <= w < s.owl_auction.len() && s.owl_auction[w] == (oid, aid as u64);
    assert(pair_has(s.owl_auction, oid));
    let rm = pair_idx(s.owl_auction, oid);
    lemma_pair_idx_is(s.owl_auction, oid, wa);
    assert(rm == wa);
    let oa2 = s2.owl_auction;
    assert(oa2 == s.owl_auction.remove(rm));
    assert(pairs_key_unique(oa2)) by {
        assert forall|i: int, j: int| 0 <= i < j < oa2.len() implies oa2[i].0 != oa2[j].0 by {
            let i0 = if i < rm { i } else { i + 1 };
            let j0 = if j < rm { j } else { j + 1 };
            assert(oa2[i] == s.owl_auction[i0]);
            assert(oa2[j] == s.owl_auction[j0]);
        }
    }
    assert forall|i: int| 0 <= i < oa2.len() implies {
        &&& (#[trigger] oa2[i]).1 < s2.auctions.len()
        &&& s2.auctions[oa2[i].1 as int].auction.owl_id == oa2[i].0
        &&& !s2.auctions[oa2[i].1 as int].closed
    } by {
        let i0 = if i < rm { i } else { i + 1 };
        assert(oa2[i] == s.owl_auction[i0]);
        let t = s.owl_auction[i0].1 as int;
        assert(t < s.auctions.len());
        assert(s.auctions[t].auction.owl_id == s.owl_auction[i0].0);
        if t == aid {
            assert(s.owl_auction[i0].0 == oid);
            assert(s.owl_auction[rm].0 == oid);
            assert(i0 != rm);
            if i0 < rm {
                assert(s.owl_auction[i0].0 != s.owl_auction[rm].0);
            } else {
                assert(rm < i0);
                assert(s.owl_auction[rm].0 != s.owl_auction[i0].0);
            }
            assert(false);
        }
        assert(s2.auctions[t] == s.auctions[t]);
    }
    assert forall|i: int| 0 <= i < s2.auctions.len() && !(#[trigger] s2.auctions[i]).closed
        implies pair_mem(oa2, s2.auctions[i].auction.owl_id, i as u64) by {
        assert(i != aid);
        assert(s2.auctions[i] == s.auctions[i]);
        assert(pair_mem(s.owl_auction, s.auctions[i].auction.owl_id, i as u64));
        assert(s.owl_auction[rm] == (oid, aid as u64));
        if (s.auctions[i].auction.owl_id, i as u64) == (oid, aid as u64) {
            assert(s.auctions[i].id == i);
            assert(s.auctions[aid].id == aid);
            assert(i == aid);
            assert(false);
        }
        lemma_remove_still_mem(s.owl_auction, rm, s.auctions[i].auction.owl_id, i as u64);
    }
}

/// Recording an owl for its present owner — fresh, or already owned by
/// `owner` — keeps the invariant.
#[verifier::rlimit(30)]
pub proof fn lemma_wf_refresh_one(s: SchemaV, owner: u64, o: OwlV, t: u64)
    requires
        wf(s),
        has_user(s.users, owner),
        !has_owl(s.owls_state, owl_id_spec(o)) || owl_at(s.owls_state, owl_id_spec(o)).owner
            == owner,
    ensures
        wf(refresh_one(s, owner, o, t)),
{
    let id = owl_id_spec(o);
    let s2 = refresh_one(s, owner, o, t);
    let owls2 = s2.owls_state;
    let uo2 = s2.user_owls;
    lemma_refresh_one_keys(s, owner, o, t);
    if has_owl(s.owls_state, id) {
        lemma_owl_idx_is(s.owls_state, id, owl_idx(s.owls_state, id));
    }
    assert(has_owl(owls2, id)) by {
        if has_owl(s.owls_state, id) {
            let w = owl_idx(s.owls_state, id);
            assert(owls2[w].0 == id);
        } else {
            assert(owls2[owls2.len() - 1].0 == id);
        }
    }
    assert(owl_at(owls2, id) == OwlStateV { owl: o, owner, last_breeding: t }) by {
        if has_owl(s.owls_state, id) {
            let w = owl_idx(s.owls_state, id);
            assert(owls2[w].0 == id);
            lemma_owl_idx_is(owls2, id, w);
        } else {
            assert(owls2[owls2.len() - 1].0 == id);
            lemma_owl_idx_is(owls2, id, owls2.len() - 1);
        }
    }
    assert forall|q: u64| has_owl(s.owls_state, q) implies has_owl(owls2, q) by {
        let w = choose|w: int| 0 <= w < s.owls_state.len() && s.owls_state[w].0 == q;
        assert(owls2[w].0 == q);
    }
    assert forall|q: u64| #![trigger owl_at(owls2, q)] has_owl(s.owls_state, q) && q != id
        implies owl_at(owls2, q) == owl_at(s.owls_state, q) by {
        let w = owl_idx(s.owls_state, q);
        lemma_owl_idx_is(s.owls_state, q, w);
        assert(owls2[w].0 == q);
        lemma_owl_idx_is(owls2, q, w);
        if has_owl(s.owls_state, id) {
            assert(w != owl_idx(s.owls_state, id));
        }
        assert(owls2[w] == s.owls_state[w]);
    }
    assert(owls_wf(s2)) by {
        assert forall|i: int| 0 <= i < owls2.len() implies owls2[i].0 == owl_id_spec(
            owls2[i].1.owl,
        ) by {
            if i < s.owls_state.len() && (!has_owl(s.owls_state, id) || i != owl_idx(
                s.owls_state,
                id,
            )) {
                assert(owls2[i] == s.owls_state[i]);
            }
        }
    }
    assert(auctions_wf(s2)) by {
        assert forall|i: int| 0 <= i < s2.auctions.len() implies {
            &&& #[trigger] s2.auctions[i].id == i
            &&& has_user(s2.users, s2.auctions[i].auction.public_key)
            &&& has_owl(s2.owls_state, s2.auctions[i].auction.owl_id)
            &&& s2.auctions[i].bidding_merkle_root == bids_root_spec(s2.auction_bids[i])
        } by {
            assert(s.auctions[i].id == i);
            assert(has_owl(s.owls_state, s.auctions[i].auction.owl_id));
        }
    }
    assert(bids_wf(s2));
    assert(owl_auction_wf(s2)) by {
        assert forall|i: int| 0 <= i < s2.auctions.len() && !(#[trigger] s2.auctions[i]).closed
            implies pair_mem(s2.owl_auction, s2.auctions[i].auction.owl_id, i as u64) by {
            assert(pair_mem(s.owl_auction, s.auctions[i].auction.owl_id, i as u64));
        }
    }
    assert(owner_wf(s2)) by {
        assert forall|i: int| 0 <= i < s2.auctions.len() && !(#[trigger] s2.auctions[i]).closed
            implies owl_at(s2.owls_state, s2.auctions[i].auction.owl_id).owner == s2.auctions[
            i
        ].auction.public_key by {
            assert(s.auctions[i].id == i);
            let q = s.auctions[i].auction.owl_id;
            assert(has_owl(s.owls_state, q));
            assert(owl_at(s.owls_state, q).owner == s.auctions[i].auction.public_key);
            if q == id {
                assert(owl_at(s.owls_state, id).owner == owner);
                assert(owl_at(owls2, q).owner == owner);
            } else {
                assert(owl_at(owls2, q) == owl_at(s.owls_state, q));
            }
        }
    }
    assert(user_owls_wf(s2)) by {
        assert forall|i: int| 0 <= i < uo2.len() implies {
            &&& has_owl(s2.owls_state, (#[trigger] uo2[i]).1)
            &&& owl_at(s2.owls_state, uo2[i].1).owner == uo2[i].0
        } by {
            if i < s.user_owls.len() {
                assert(uo2[i] == s.user_owls[i]);
                let q = s.user_owls[i].1;
                assert(has_owl(s.owls_state, q));
                assert(owl_at(s.owls_state, q).owner == s.user_owls[i].0);
                if q == id {
                    assert(owl_at(s.owls_state, id).owner == owner);
                    assert(owl_at(owls2, q).owner == owner);
                } else {
                    assert(owl_at(owls2, q) == owl_at(s.owls_state, q));
                }
            } else {
                assert(uo2[i] == (owner, id));
            }
        }
        assert forall|i: int| 0 <= i < owls2.len() implies pair_mem(
            uo2,
            (#[trigger] owls2[i]).1.owner,
            owls2[i].0,
        ) by {
            let fresh_at = if has_owl(s.owls_state, id) {
                owl_idx(s.owls_state, id)
            } else {
                owls2.len() - 1
            };
            if i == fresh_at {
                assert(owls2[i] == (id, OwlStateV { owl: o, owner, last_breeding: t }));
                if pair_mem(s.user_owls, owner, id) {
                    let w = choose|w: int|
                        0 <= w < s.user_owls.len() && s.user_owls[w] == (owner, id);
                    assert(uo2[w] == (owner, id));
                } else {
                    assert(uo2[uo2.len() - 1] == (owner, id));
                }
            } else {
                assert(owls2[i] == s.owls_state[i]);
                assert(pair_mem(s.user_owls, s.owls_state[i].1.owner, s.owls_state[i].0));
                let w = choose|w: int|
                    0 <= w < s.user_owls.len() && s.user_owls[w] == (
                        s.owls_state[i].1.owner,
                        s.owls_state[i].0,
                    );
                assert(uo2[w] == (s.owls_state[i].1.owner, s.owls_state[i].0));
            }
        }
    }
    assert(user_auctions_wf(s2));
    assert(reserves_wf(s2)) by {
        assert forall|j: int| 0 <= j < s2.users.len() implies (#[trigger] s2.users[j]).reserved
            == reserved_total(s2, s2.users[j].public_key) by {
            let k = s2.users[j].public_key;
            assert(s.users[j].reserved == reserved_total(s, k));
            assert forall|p: int|
                0 <= p < s.auctions.len() implies standing_value(s2, p, k) == standing_value(
                s,
                p,
                k,
            ) by {}
            lemma_reserved_upto_agree(s, s2, k, s.auctions.len() as int);
        }
    }
}

/// Recording one owl: the recorded owl's lookup is the new state.
pub proof fn lemma_refresh_one_at(s: SchemaV, owner: u64, o: OwlV, t: u64)
    requires
        owls_unique(s.owls_state),
    ensures
        has_owl(refresh_one(s, owner, o, t).owls_state, owl_id_spec(o)),
        owl_at(refresh_one(s, owner, o, t).owls_state, owl_id_spec(o)) == (OwlStateV {
            owl: o,
            owner,
            last_breeding: t,
        }),
{
    let s2 = refresh_one(s, owner, o, t);
    let id = owl_id_spec(o);
    let owls2 = s2.owls_state;
    if has_owl(s.owls_state, id) {
        let w = owl_idx(s.owls_state, id);
        lemma_owl_idx_is(s.owls_state, id, w);
        assert(owls_unique(owls2));
        assert(owls2[w].0 == id);
        lemma_owl_idx_is(owls2, id, w);
    } else {
        assert forall|i: int, j: int| 0 <= i < j < owls2.len() implies owls2[i].0 != owls2[j].0 by {
            if j == owls2.len() - 1 {
                assert(owls2[i] == s.owls_state[i]);
                if owls2[i].0 == id {
                    assert(has_owl(s.owls_state, id));
                }
            }
        }
        assert(owls2[owls2.len() - 1].0 == id);
        lemma_owl_idx_is(owls2, id, owls2.len() - 1);
    }
}

/// Recording one owl leaves every other owl's lookup as it was.
pub proof fn lemma_refresh_one_lookup(s: SchemaV, owner: u64, o: OwlV, t: u64, q: u64)
    requires
        owls_unique(s.owls_state),
        has_owl(s.owls_state, q),
        q != owl_id_spec(o),
    ensures
        has_owl(refresh_one(s, owner, o, t).owls_state, q),
        owl_at(refresh_one(s, owner, o, t).owls_state, q) == owl_at(s.owls_state, q),
{
    let s2 = refresh_one(s, owner, o, t);
    let id = owl_id_spec(o);
    let owls2 = s2.owls_state;
    let w = owl_idx(s.owls_state, q);
    lemma_owl_idx_is(s.owls_state, q, w);
    assert(owls2[w].0 == q);
    if has_owl(s.owls_state, id) {
        lemma_owl_idx_is(s.owls_state, id, owl_idx(s.owls_state, id));
        assert(owls_unique(owls2));
        lemma_owl_idx_is(owls2, q, w);
        assert(w != owl_idx(s.owls_state, id));
    } else {
        assert forall|i: int, j: int| 0 <= i < j < owls2.len() implies owls2[i].0 != owls2[j].0 by {
            if j == owls2.len() - 1 {
                assert(owls2[i] == s.owls_state[i]);
                if owls2[i].0 == id {
                    assert(has_owl(s.owls_state, id));
                }
            }
        }
        lemma_owl_idx_is(owls2, q, w);
    }
    assert(owls2[w] == s.owls_state[w]);
}

/// Recording one owl introduces no identity but the recorded one.
pub proof fn lemma_refresh_one_no_new(s: SchemaV, owner: u64, o: OwlV, t: u64, q: u64)
    requires
        owls_unique(s.owls_state),
        has_owl(refresh_one(s, owner, o, t).owls_state, q),
        !has_owl(s.owls_state, q),
    ensures
        q == owl_id_spec(o),
{
    let owls2 = refresh_one(s, owner, o, t).owls_state;
    let w = choose|w: int| 0 <= w < owls2.len() && owls2[w].0 == q;
    if w < s.owls_state.len() {
        if has_owl(s.owls_state, owl_id_spec(o)) && w == owl_idx(s.owls_state, owl_id_spec(o)) {
            assert(owls2[w].0 == owl_id_spec(o));
        } else {
            assert(owls2[w] == s.owls_state[w]);
            assert(has_owl(s.owls_state, q));
        }
    } else {
        assert(owls2[w].0 == owl_id_spec(o));
    }
}

/// Registering a user and then recording the two starter owls, both of
/// whose identities are free, keeps the invariant.
pub proof fn lemma_wf_starter_pack(s: SchemaV, author: u64, u: UserV, adam: OwlV, eve: OwlV, ts: u64)
    requires
        wf(s),
        u.public_key == author,
        u.reserved == 0,
        !has_user(s.users, author),
        !has_owl(s.owls_state, owl_id_spec(adam)),
        !has_owl(s.owls_state, owl_id_spec(eve)),
    ensures
        wf(SchemaV { users: s.users.push(u), ..s }),
        wf(refresh_fold(SchemaV { users: s.users.push(u), ..s }, author, seq![adam, eve], ts)),
{
    let s1 = SchemaV { users: s.users.push(u), ..s };
    lemma_wf_insert_user(s, u);
    assert(s1.users[s1.users.len() - 1].public_key == author);
    assert(has_user(s1.users, author));
    assert(s1.owls_state == s.owls_state);
    lemma_wf_refresh_one(s1, author, adam, ts);
    let s2 = refresh_one(s1, author, adam, ts);
    assert(owls_unique(s2.owls_state)) by {
        lemma_refresh_one_keys(s1, author, adam, ts);
    }
    if has_owl(s2.owls_state, owl_id_spec(eve)) {
        lemma_refresh_one_no_new(s1, author, adam, ts, owl_id_spec(eve));
        assert(owl_id_spec(eve) == owl_id_spec(adam));
        lemma_refresh_one_at(s1, author, adam, ts);
        assert(owl_at(s2.owls_state, owl_id_spec(eve)).owner == author);
    }
    assert(has_user(s2.users, author)) by {
        assert(s2.users == s1.users);
    }
    lemma_wf_refresh_one(s2, author, eve, ts);
    let os = seq![adam, eve];
    assert(os[0] == adam);
    assert(os.drop_first() =~= seq![eve]);
    assert(refresh_fold(s1, author, os, ts) == refresh_fold(s2, author, seq![eve], ts));
    assert(seq![eve][0] == eve);
    assert(seq![eve].drop_first() =~= Seq::<OwlV>::empty());
    let s3 = refresh_one(s2, author, eve, ts);
    assert(refresh_fold(s2, author, seq![eve], ts) == refresh_fold(
        s3,
        author,
        Seq::<OwlV>::empty(),
        ts,
    ));
    assert(refresh_fold(s3, author, Seq::<OwlV>::empty(), ts) == s3);
}

/// Breeding: recording the fresh offspring and re-recording the two
/// parents, all owned by the caller, keeps the invariant; the caller's row
/// is untouched by the recording.
pub proof fn lemma_wf_breed(s: SchemaV, author: u64, son: OwlV, mother_id: u64, father_id: u64, ts: u64)
    requires
        wf(s),
        has_user(s.users, author),
        has_owl(s.owls_state, mother_id),
        has_owl(s.owls_state, father_id),
        mother_id != father_id,
        owl_at(s.owls_state, mother_id).owner == author,
        owl_at(s.owls_state, father_id).owner == author,
        !has_owl(s.owls_state, owl_id_spec(son)),
    ensures
        ({
            let os = seq![
                son,
                owl_at(s.owls_state, mother_id).owl,
                owl_at(s.owls_state, father_id).owl,
            ];
            &&& wf(refresh_fold(s, author, os, ts))
            &&& refresh_fold(s, author, os, ts).users == s.users
        }),
{
    let mo = owl_at(s.owls_state, mother_id).owl;
    let fo = owl_at(s.owls_state, father_id).owl;
    assert(owl_id_spec(mo) == mother_id) by {
        let w = owl_idx(s.owls_state, mother_id);
        lemma_owl_idx_is(s.owls_state, mother_id, w);
        assert(s.owls_state[w].0 == owl_id_spec(s.owls_state[w].1.owl));
    }
    assert(owl_id_spec(fo) == father_id) by {
        let w = owl_idx(s.owls_state, father_id);
        lemma_owl_idx_is(s.owls_state, father_id, w);
        assert(s.owls_state[w].0 == owl_id_spec(s.owls_state[w].1.owl));
    }
    let sid = owl_id_spec(son);
    assert(mother_id != sid && father_id != sid);
    lemma_wf_refresh_one(s, author, son, ts);
    let s1 = refresh_one(s, author, son, ts);
    lemma_refresh_one_keys(s, author, son, ts);
    lemma_refresh_one_lookup(s, author, son, ts, mother_id);
    lemma_refresh_one_lookup(s, author, son, ts, father_id);
    assert(s1.users == s.users);
    lemma_wf_refresh_one(s1, author, mo, ts);
    let s2 = refresh_one(s1, author, mo, ts);
    lemma_refresh_one_keys(s1, author, mo, ts);
    lemma_refresh_one_lookup(s1, author, mo, ts, father_id);
    assert(s2.users == s.users);
    lemma_wf_refresh_one(s2, author, fo, ts);
    let s3 = refresh_one(s2, author, fo, ts);
    assert(s3.users == s.users);
    let os = seq![son, mo, fo];
    assert(os[0] == son);
    assert(os.drop_first() =~= seq![mo, fo]);
    assert(refresh_fold(s, author, os, ts) == refresh_fold(s1, author, seq![mo, fo], ts));
    assert(seq![mo, fo][0] == mo);
    assert(seq![mo, fo].drop_first() =~= seq![fo]);
    assert(refresh_fold(s1, author, seq![mo, fo], ts) == refresh_fold(s2, author, seq![fo], ts));
    assert(seq![fo][0] == fo);
    assert(seq![fo].drop_first() =~= Seq::<OwlV>::empty());
    assert(refresh_fold(s2, author, seq![fo], ts) == refresh_fold(
        s3,
        author,
        Seq::<OwlV>::empty(),
        ts,
    ));
    assert(refresh_fold(s3, author, Seq::<OwlV>::empty(), ts) == s3);
}

/// Rewriting one user's balance and fill-up time alone, within the wealth
/// bound, keeps the invariant.
pub proof fn lemma_wf_user_row(s: SchemaV, i: int, u2: UserV)
    requires
        wf(s),
        0 <= i < s.users.len(),
        u2.public_key == s.users[i].public_key,
        u2.reserved == s.users[i].reserved,
        u2.balance + u2.reserved <= u64::MAX,
    ensures
        wf(SchemaV { users: s.users.update(i, u2), ..s }),
{
    let s2 = SchemaV { users: s.users.update(i, u2), ..s };
    assert(users_unique(s2.users));
    assert forall|k: u64| has_user(s.users, k) implies has_user(s2.users, k) by {
        let w = choose|w: int| 0 <= w < s.users.len() && s.users[w].public_key == k;
        assert(s2.users[w].public_key == k);
    }
    assert(auctions_wf(s2));
    assert(bids_wf(s2));
    assert(reserves_wf(s2)) by {
        assert forall|j: int| 0 <= j < s2.users.len() implies (#[trigger] s2.users[j]).reserved
            == reserved_total(s2, s2.users[j].public_key) by {
            let k = s2.users[j].public_key;
            assert(s2.users[j].reserved == s.users[j].reserved);
            assert(s.users[j].reserved == reserved_total(s, s.users[j].public_key));
            assert(s.users[j].public_key == k);
            assert forall|p: int|
                0 <= p < s2.auctions.len() implies standing_value(s2, p, k) == standing_value(
                s,
                p,
                k,
            ) by {}
            lemma_reserved_upto_agree(s, s2, k, s.auctions.len() as int);
        }
    }
}


/// The whole sweep keeps the invariant.
pub proof fn lemma_sweep_fold_wf(s: SchemaV, ids: Seq<u64>, now: u64)
    requires
        wf(s),
    ensures
        wf(sweep_fold(s, ids, now)),
    decreases ids.len(),
{
    if ids.len() > 0 {
        let s2 = sweep_step(s, ids[0], now);
        assert(wf(s2)) by {
            if ids[0] < s.auctions.len() && !s.auctions[ids[0] as int].closed && s.auctions[
                ids[0] as int
            ].spec_expired(now) && close_credit_fits(s, ids[0] as int) {
                lemma_wf_close(s, ids[0] as int);
            }
        }
        lemma_sweep_fold_wf(s2, ids.drop_first(), now);
    }
}


// ---------------------------------------------------------------------------
// Settlement headroom: enough range for every standing bid to settle.
// ---------------------------------------------------------------------------

/// What auction `i` currently holds in its standing bid: the last bid's
/// value while the auction is open, and nothing otherwise.
pub open spec fn open_bid_value(s: SchemaV, i: int) -> int {
    if 0 <= i < s.auctions.len() && i < s.auction_bids.len() && !s.auctions[i].closed
        && s.auction_bids[i].len() > 0 {
        s.auction_bids[i].last().value as int
    } else {
        0
    }
}

/// Sum of the standing bids of the first `n` auctions.
pub open spec fn open_bids_upto(s: SchemaV, n: int) -> int
    decreases n,
{
    if n <= 0 {
        0
    } else {
        open_bids_upto(s, n - 1) + open_bid_value(s, n - 1)
    }
}

/// Everything standing in open bids.
pub open spec fn open_bids_total(s: SchemaV) -> int {
    open_bids_upto(s, s.auctions.len() as int)
}

/// Settlement headroom: every user's wealth, plus everything standing in
/// open bids, stays within the machine's range — so every settlement credit
/// fits, in any order the sweep may perform them.
pub open spec fn settlement_slack(s: SchemaV) -> bool {
    forall|i: int|
        0 <= i < s.users.len() ==> (#[trigger] s.users[i]).balance + s.users[i].reserved
            + open_bids_total(s) <= u64::MAX
}

/// A partial standing-bid sum is never negative.
pub proof fn lemma_open_bids_upto_nonneg(s: SchemaV, n: int)
    ensures
        open_bids_upto(s, n) >= 0,
    decreases n,
{
    if n > 0 {
        lemma_open_bids_upto_nonneg(s, n - 1);
    }
}

/// Two states whose standing bids agree below `n` have the same partial
/// sum.
pub proof fn lemma_open_bids_upto_agree(s1: SchemaV, s2: SchemaV, n: int)
    requires
        forall|i: int| 0 <= i < n ==> open_bid_value(s1, i) == open_bid_value(s2, i),
    ensures
        open_bids_upto(s1, n) == open_bids_upto(s2, n),
    decreases n,
{
    if n > 0 {
        lemma_open_bids_upto_agree(s1, s2, n - 1);
    }
}

/// If two states differ in the standing bid of one position alone, the
/// partial sums differ by exactly that change.
pub proof fn lemma_open_bids_upto_delta(s1: SchemaV, s2: SchemaV, pos: int, n: int)
    requires
        0 <= pos < n,
        forall|i: int| 0 <= i < n && i != pos ==> open_bid_value(s1, i) == open_bid_value(s2, i),
    ensures
        open_bids_upto(s2, n) == open_bids_upto(s1, n) + open_bid_value(s2, pos) - open_bid_value(
            s1,
            pos,
        ),
    decreases n,
{
    if pos == n - 1 {
        lemma_open_bids_upto_agree(s1, s2, n - 1);
    } else {
        lemma_open_bids_upto_delta(s1, s2, pos, n - 1);
    }
}

/// Every single standing bid is at most the whole partial sum.
pub proof fn lemma_open_bid_le_upto(s: SchemaV, pos: int, n: int)
    requires
        0 <= pos < n,
    ensures
        open_bid_value(s, pos) <= open_bids_upto(s, n),
    decreases n,
{
    if pos == n - 1 {
        lemma_open_bids_upto_nonneg(s, n - 1);
    } else {
        lemma_open_bid_le_upto(s, pos, n - 1);
    }
}

/// Under settlement headroom, closing any open auction fits the machine's
/// range, and the headroom survives the close.
#[verifier::rlimit(100)]
#[verifier::spinoff_prover]
pub proof fn lemma_close_keeps_slack(s: SchemaV, aid: int)
    requires
        wf(s),
        settlement_slack(s),
        0 <= aid < s.auctions.len(),
        !s.auctions[aid].closed,
    ensures
        close_credit_fits(s, aid),
        settlement_slack(close_tr(s, aid)),
{
    let n = s.auctions.len() as int;
    let st = s.auctions[aid];
    let bids = s.auction_bids[aid];
    let s2 = close_tr(s, aid);
    assert(s2.auctions.len() == n);
    assert(s2.auction_bids == s.auction_bids);
    // The standing bid of `aid` leaves the sum; no other changes.
    assert forall|p: int| 0 <= p < n && p != aid implies open_bid_value(s2, p) == open_bid_value(
        s,
        p,
    ) by {
        assert(s2.auctions[p] == s.auctions[p]);
    }
    assert(s2.auctions[aid].closed);
    assert(open_bid_value(s2, aid) == 0);
    lemma_open_bids_upto_delta(s, s2, aid, n);
    lemma_open_bid_le_upto(s, aid, n);
    lemma_open_bids_upto_nonneg(s, n);
    if bids.len() > 0 {
        let wb = bids.last();
        assert(open_bid_value(s, aid) == wb.value);
        // The settlement credit fits: the seller's headroom covers the bid.
        assert(bids[bids.len() - 1].public_key == wb.public_key);
        assert(has_user(s.users, wb.public_key));
        assert(s.auctions[aid].id == aid);
        assert(has_user(s.users, st.auction.public_key));
        let is_ = user_idx(s.users, st.auction.public_key);
        lemma_user_idx_is(s.users, st.auction.public_key, is_);
        assert(s.users[is_].balance + s.users[is_].reserved + open_bids_total(s) <= u64::MAX);
        assert(close_credit_fits(s, aid));
        // Headroom survives: the seller gains exactly what the sum loses,
        // the winner only loses, and nobody else moves.
        crate::laws::lemma_settlement_conservation(s, aid);
        assert forall|j: int| 0 <= j < s2.users.len() implies (#[trigger] s2.users[j]).balance
            + s2.users[j].reserved + open_bids_total(s2) <= u64::MAX by {
            assert(open_bids_total(s2) == open_bids_total(s) - wb.value);
            assert(s2.users.len() == s.users.len());
            assert(s.users[j].balance + s.users[j].reserved + open_bids_total(s) <= u64::MAX);
            assert(s.users[j] == s.users[j]);
        }
    } else {
        assert(close_credit_fits(s, aid));
        assert(open_bid_value(s, aid) == 0);
        assert forall|j: int| 0 <= j < s2.users.len() implies (#[trigger] s2.users[j]).balance
            + s2.users[j].reserved + open_bids_total(s2) <= u64::MAX by {
            assert(open_bids_total(s2) == open_bids_total(s));
            assert(s2.users[j] == s.users[j]);
            assert(s.users[j].balance + s.users[j].reserved + open_bids_total(s) <= u64::MAX);
        }
    }
}

/// A closed auction's state survives any sweep untouched.
pub proof fn lemma_sweep_keeps_closed(s: SchemaV, ids: Seq<u64>, now: u64, i: int)
    requires
        0 <= i < s.auctions.len(),
        s.auctions[i].closed,
    ensures
        sweep_fold(s, ids, now).auctions.len() == s.auctions.len(),
        sweep_fold(s, ids, now).auctions[i] == s.auctions[i],
    decreases ids.len(),
{
    if ids.len() > 0 {
        let s2 = sweep_step(s, ids[0], now);
        assert(s2.auctions.len() == s.auctions.len() && s2.auctions[i] == s.auctions[i]) by {
            if s2 != s {
                assert(!s.auctions[ids[0] as int].closed);
                assert(ids[0] as int != i);
            }
        }
        lemma_sweep_keeps_closed(s2, ids.drop_first(), now, i);
    }
}

/// Under settlement headroom, sweeping a list of distinct open auctions
/// closes every expired one and touches no auction it leaves open.
pub proof fn lemma_sweep_settles(s: SchemaV, ids: Seq<u64>, now: u64)
    requires
        wf(s),
        settlement_slack(s),
        forall|k: int|
            0 <= k < ids.len() ==> (#[trigger] ids[k]) < s.auctions.len() && !s.auctions[
                ids[k] as int
            ].closed,
        forall|k1: int, k2: int| 0 <= k1 < k2 < ids.len() ==> ids[k1] != ids[k2],
    ensures
        wf(sweep_fold(s, ids, now)),
        settlement_slack(sweep_fold(s, ids, now)),
        sweep_fold(s, ids, now).auctions.len() == s.auctions.len(),
        forall|k: int|
            0 <= k < ids.len() && s.auctions[(#[trigger] ids[k]) as int].spec_expired(now)
                ==> sweep_fold(s, ids, now).auctions[ids[k] as int].closed,
        forall|i: int|
            0 <= i < s.auctions.len() && !(#[trigger] sweep_fold(s, ids, now).auctions[i]).closed
                ==> sweep_fold(s, ids, now).auctions[i] == s.auctions[i],
    decreases ids.len(),
{
    if ids.len() > 0 {
        let aid = ids[0];
        let s1 = sweep_step(s, aid, now);
        let rest = ids.drop_first();
        let s2 = sweep_fold(s, ids, now);
        assert(s2 == sweep_fold(s1, rest, now));
        if s.auctions[aid as int].spec_expired(now) {
            lemma_close_keeps_slack(s, aid as int);
            assert(s1 == close_tr(s, aid as int));
            lemma_wf_close(s, aid as int);
            assert(s1.auctions[aid as int].closed);
            assert forall|k: int| 0 <= k < rest.len() implies (#[trigger] rest[k])
                < s1.auctions.len() && !s1.auctions[rest[k] as int].closed by {
                assert(rest[k] == ids[k + 1]);
                assert(ids[0] != ids[k + 1]);
                assert(s1.auctions[rest[k] as int] == s.auctions[rest[k] as int]);
            }
            lemma_sweep_settles(s1, rest, now);
            lemma_sweep_keeps_closed(s1, rest, now, aid as int);
            assert forall|k: int|
                0 <= k < ids.len() && s.auctions[(#[trigger] ids[k]) as int].spec_expired(now)
                implies s2.auctions[ids[k] as int].closed by {
                if k == 0 {
                } else {
                    assert(rest[k - 1] == ids[k]);
                    assert(s1.auctions[ids[k] as int] == s.auctions[ids[k] as int]);
                }
            }
            assert forall|i: int|
                0 <= i < s.auctions.len() && !(#[trigger] s2.auctions[i]).closed implies s2.auctions[i]
                == s.auctions[i] by {
                if i == aid as int {
                    assert(s2.auctions[i].closed);
                } else {
                    assert(s1.auctions[i] == s.auctions[i]);
                }
            }
        } else {
            assert(s1 == s);
            assert forall|k: int| 0 <= k < rest.len() implies (#[trigger] rest[k])
                < s.auctions.len() && !s.auctions[rest[k] as int].closed by {
                assert(rest[k] == ids[k + 1]);
            }
            lemma_sweep_settles(s, rest, now);
            assert forall|k: int|
                0 <= k < ids.len() && s.auctions[(#[trigger] ids[k]) as int].spec_expired(now)
                implies s2.auctions[ids[k] as int].closed by {
                if k > 0 {
                    assert(rest[k - 1] == ids[k]);
                }
            }
        }
    }
}

} // verus!
