//! The library's stated laws: properties that hold of every committed state
//! and of every accepted transition, proved once and for all.

use vstd::prelude::*;

verus! {

use crate::data_layout::OwlStateV;
use crate::model::{
    SchemaV, bid_tr, close_credit_fits, close_tr, has_owl, has_user, lemma_user_idx_is,
    lemma_wf_bid, lemma_wf_close, min_bid_of, uniq_dna_at, uniq_dna_ok, user_at,
    user_idx, wf,
};

/// In every committed state, each user's balance and reserved funds are
/// non-negative. The fields are unsigned, so the law is stated over the
/// integers.
pub proof fn lemma_balances_nonnegative(s: SchemaV, i: int)
    requires
        wf(s),
        0 <= i < s.users.len(),
    ensures
        s.users[i].balance as int >= 0,
        s.users[i].reserved as int >= 0,
{
}

/// Breeding determinism: against one owl table, identical parent genomes,
/// name and seed source always characterize the identical child DNA — the
/// first draw of the seed's stream whose identity is free.
pub proof fn lemma_breeding_deterministic(
    owls: Seq<(u64, OwlStateV)>,
    g0: u32,
    g1: u32,
    name: Seq<char>,
    seed: Seq<u8>,
    dna1: u32,
    dna2: u32,
)
    requires
        uniq_dna_ok(owls, g0, g1, name, seed, dna1),
        uniq_dna_ok(owls, g0, g1, name, seed, dna2),
    ensures
        dna1 == dna2,
{
    let k1 = choose|k: nat| uniq_dna_at(owls, g0, g1, name, seed, dna1, k);
    let k2 = choose|k: nat| uniq_dna_at(owls, g0, g1, name, seed, dna2, k);
    if k1 < k2 {
        assert(has_owl(
            owls,
            crate::data_layout::owl_id_spec(
                crate::data_layout::OwlV {
                    name,
                    dna: crate::rng::child_dna(g0, g1, crate::rng::seed_words_spec(seed), k1),
                },
            ),
        ));
    } else if k2 < k1 {
        assert(has_owl(
            owls,
            crate::data_layout::owl_id_spec(
                crate::data_layout::OwlV {
                    name,
                    dna: crate::rng::child_dna(g0, g1, crate::rng::seed_words_spec(seed), k2),
                },
            ),
        ));
    }
}

/// An owl has at most one open auction at a time: two open auctions that
/// list the same owl are the same auction.
pub proof fn lemma_one_open_auction_per_owl(s: SchemaV, i: int, j: int)
    requires
        wf(s),
        0 <= i < s.auctions.len(),
        0 <= j < s.auctions.len(),
        !s.auctions[i].closed,
        !s.auctions[j].closed,
        s.auctions[i].auction.owl_id == s.auctions[j].auction.owl_id,
    ensures
        i == j,
{
    crate::model::lemma_open_owl_unique(s, i, j);
}

/// Within one auction, the accepted bid values are strictly increasing,
/// and every accepted bid beats the start price.
pub proof fn lemma_bids_strictly_increasing(s: SchemaV, aid: int, i: int, j: int)
    requires
        wf(s),
        0 <= aid < s.auctions.len(),
        0 <= i < j < s.auction_bids[aid].len(),
    ensures
        s.auction_bids[aid][i].value < s.auction_bids[aid][j].value,
        s.auction_bids[aid][i].value > s.auctions[aid].auction.start_price,
{
    assert(crate::model::bids_increasing(
        s.auction_bids[aid],
        s.auctions[aid].auction.start_price,
    ));
    assert(s.auction_bids[aid][i].value > s.auctions[aid].auction.start_price);
}

/// Reservation conservation, first half: accepting a bid returns the outbid
/// bidder's reserved amount to their balance in full.
pub proof fn lemma_outbid_full_refund(s: SchemaV, aid: int, bidder: u64, value: u64)
    requires
        wf(s),
        0 <= aid < s.auctions.len(),
        !s.auctions[aid].closed,
        has_user(s.users, bidder),
        bidder != s.auctions[aid].auction.public_key,
        user_at(s.users, bidder).balance >= value,
        value > min_bid_of(s, aid),
        s.auction_bids[aid].len() > 0,
        s.auction_bids[aid].last().public_key != bidder,
    ensures
        ({
            let pb = s.auction_bids[aid].last();
            let pu0 = user_at(s.users, pb.public_key);
            let pu1 = user_at(bid_tr(s, aid, bidder, value).users, pb.public_key);
            &&& pu1.balance == pu0.balance + pb.value
            &&& pu1.reserved == pu0.reserved - pb.value
        }),
{
    lemma_wf_bid(s, aid, bidder, value);
    let pb = s.auction_bids[aid].last();
    let pu0 = user_at(s.users, pb.public_key);
    let ip = user_idx(s.users, pb.public_key);
    lemma_user_idx_is(s.users, pb.public_key, ip);
    let users1 = s.users.update(
        ip,
        crate::data_layout::UserV {
            balance: (pu0.balance + pb.value) as u64,
            reserved: (pu0.reserved - pb.value) as u64,
            ..pu0
        },
    );
    assert forall|j: int| 0 <= j < s.users.len() implies users1[j].public_key == s.users[
        j
    ].public_key by {}
    assert(crate::model::users_unique(users1));
    let ib = user_idx(s.users, bidder);
    lemma_user_idx_is(s.users, bidder, ib);
    assert(users1[ib].public_key == bidder);
    lemma_user_idx_is(users1, bidder, ib);
    assert(ib != ip);
    let users2 = bid_tr(s, aid, bidder, value).users;
    assert(users2[ip] == users1[ip]);
    assert(users2[ip].public_key == pb.public_key);
    assert(crate::model::users_unique(users2)) by {
        assert forall|j: int| 0 <= j < s.users.len() implies users2[j].public_key == s.users[
            j
        ].public_key by {}
    }
    lemma_user_idx_is(users2, pb.public_key, ip);
}

/// Reservation conservation, second half: settlement converts exactly the
/// winner's reservation into the seller's credit, and touches nobody's
/// balance otherwise.
pub proof fn lemma_settlement_conservation(s: SchemaV, aid: int)
    requires
        wf(s),
        0 <= aid < s.auctions.len(),
        !s.auctions[aid].closed,
        close_credit_fits(s, aid),
        s.auction_bids[aid].len() > 0,
    ensures
        ({
            let wb = s.auction_bids[aid].last();
            let seller_key = s.auctions[aid].auction.public_key;
            let w0 = user_at(s.users, wb.public_key);
            let w1 = user_at(close_tr(s, aid).users, wb.public_key);
            let e0 = user_at(s.users, seller_key);
            let e1 = user_at(close_tr(s, aid).users, seller_key);
            &&& w1.reserved == w0.reserved - wb.value
            &&& w1.balance == w0.balance
            &&& e1.balance == e0.balance + wb.value
            &&& e1.reserved == e0.reserved
        }),
        close_tr(s, aid).users.len() == s.users.len(),
        forall|j: int|
            0 <= j < s.users.len() ==> {
                let wb = s.auction_bids[aid].last();
                let seller_key = s.auctions[aid].auction.public_key;
                let u0 = #[trigger] s.users[j];
                let u1 = close_tr(s, aid).users[j];
                &&& u1.public_key == u0.public_key
                &&& (u0.public_key == wb.public_key ==> u1.balance == u0.balance && u1.reserved
                    == u0.reserved - wb.value)
                &&& (u0.public_key == seller_key ==> u1.balance == u0.balance + wb.value
                    && u1.reserved == u0.reserved)
                &&& (u0.public_key != wb.public_key && u0.public_key != seller_key ==> u1 == u0)
            },
{
    lemma_wf_close(s, aid);
    let wb = s.auction_bids[aid].last();
    let seller_key = s.auctions[aid].auction.public_key;
    let w0 = user_at(s.users, wb.public_key);
    let iw = user_idx(s.users, wb.public_key);
    lemma_user_idx_is(s.users, wb.public_key, iw);
    let users1 = s.users.update(
        iw,
        crate::data_layout::UserV { reserved: (w0.reserved - wb.value) as u64, ..w0 },
    );
    assert forall|j: int| 0 <= j < s.users.len() implies users1[j].public_key == s.users[
        j
    ].public_key by {}
    assert(crate::model::users_unique(users1));
    let is_ = user_idx(s.users, seller_key);
    lemma_user_idx_is(s.users, seller_key, is_);
    assert(users1[is_].public_key == seller_key);
    lemma_user_idx_is(users1, seller_key, is_);
    assert(is_ != iw);
    let users2 = close_tr(s, aid).users;
    assert(users2 == users1.update(
        is_,
        crate::data_layout::UserV {
            balance: (user_at(users1, seller_key).balance + wb.value) as u64,
            ..user_at(users1, seller_key)
        },
    ));
    assert forall|j: int| 0 <= j < s.users.len() implies users2[j].public_key == s.users[
        j
    ].public_key by {}
    assert(crate::model::users_unique(users2));
    lemma_user_idx_is(users2, wb.public_key, iw);
    lemma_user_idx_is(users2, seller_key, is_);
}


/// A sweep whose every step leaves the state alone leaves the state alone.
proof fn lemma_sweep_noop(s: SchemaV, ids: Seq<u64>, now: u64)
    requires
        forall|k: int| 0 <= k < ids.len() ==> crate::model::sweep_step(s, ids[k], now) == s,
    ensures
        crate::model::sweep_fold(s, ids, now) == s,
    decreases ids.len(),
{
    if ids.len() > 0 {
        assert(crate::model::sweep_step(s, ids[0], now) == s);
        lemma_sweep_noop(s, ids.drop_first(), now);
    }
}

/// Sweeping before every open auction's deadline is a no-op.
pub proof fn lemma_sweep_before_deadline_noop(s: SchemaV, now: u64)
    requires
        wf(s),
        forall|i: int|
            0 <= i < s.auctions.len() && !(#[trigger] s.auctions[i]).closed ==> !s.auctions[
                i
            ].spec_expired(now),
    ensures
        crate::model::sweep_fold(s, crate::model::pair_values(s.owl_auction), now) == s,
{
    let ids = crate::model::pair_values(s.owl_auction);
    assert forall|k: int| 0 <= k < ids.len() implies crate::model::sweep_step(s, ids[k], now)
        == s by {
        let aid = s.owl_auction[k].1;
        assert(ids[k] == aid);
        assert(aid < s.auctions.len() && !s.auctions[aid as int].closed);
        assert(!s.auctions[aid as int].spec_expired(now));
    }
    lemma_sweep_noop(s, ids, now);
}

/// An auction closes exactly once, irreversibly: a closed auction's state
/// survives any sweep untouched.
pub proof fn lemma_sweep_keeps_closed(s: SchemaV, ids: Seq<u64>, now: u64, i: int)
    requires
        0 <= i < s.auctions.len(),
        s.auctions[i].closed,
    ensures
        crate::model::sweep_fold(s, ids, now).auctions.len() == s.auctions.len(),
        crate::model::sweep_fold(s, ids, now).auctions[i] == s.auctions[i],
{
    crate::model::lemma_sweep_keeps_closed(s, ids, now, i);
}


/// For a user with an outstanding reservation, the reserved funds equal
/// exactly what their currently-standing bids lock up — and nothing at all
/// once every such bid is outbid or settled.
pub proof fn lemma_reserved_matches_standing_bids(s: SchemaV, i: int)
    requires
        wf(s),
        0 <= i < s.users.len(),
    ensures
        s.users[i].reserved == crate::model::reserved_total(s, s.users[i].public_key),
{
}


/// The sweep is idempotent at one agreed reading: once a sweep has settled
/// every expired auction, a second sweep at the same reading changes
/// nothing. The hypothesis names the one state of affairs the sweep may
/// leave behind: an auction whose settlement credit would not fit the
/// machine's range stays listed, and settling it waits for a later block.
pub proof fn lemma_sweep_idempotent(s: SchemaV, now: u64)
    requires
        wf(s),
        forall|i: int|
            0 <= i < crate::model::sweep_fold(
                s,
                crate::model::pair_values(s.owl_auction),
                now,
            ).auctions.len() && !(#[trigger] crate::model::sweep_fold(
                s,
                crate::model::pair_values(s.owl_auction),
                now,
            ).auctions[i]).closed ==> !crate::model::sweep_fold(
                s,
                crate::model::pair_values(s.owl_auction),
                now,
            ).auctions[i].spec_expired(now),
    ensures
        ({
            let swept = crate::model::sweep_fold(s, crate::model::pair_values(s.owl_auction), now);
            crate::model::sweep_fold(swept, crate::model::pair_values(swept.owl_auction), now)
                == swept
        }),
{
    let swept = crate::model::sweep_fold(s, crate::model::pair_values(s.owl_auction), now);
    crate::model::lemma_sweep_fold_wf(s, crate::model::pair_values(s.owl_auction), now);
    lemma_sweep_before_deadline_noop(swept, now);
}


/// Under settlement headroom — every user's wealth plus everything standing
/// in open bids fits the machine's range — one sweep settles every expired
/// auction, so after it no listed auction is expired and a second sweep at
/// the same agreed reading is a no-op. Headroom is the initial-state
/// condition behind [`lemma_sweep_idempotent`]'s hypothesis.
pub proof fn lemma_sweep_idempotent_under_slack(s: SchemaV, now: u64)
    requires
        wf(s),
        crate::model::settlement_slack(s),
    ensures
        ({
            let swept = crate::model::sweep_fold(s, crate::model::pair_values(s.owl_auction), now);
            &&& forall|i: int|
                0 <= i < swept.auctions.len() && !(#[trigger] swept.auctions[i]).closed
                    ==> !swept.auctions[i].spec_expired(now)
            &&& crate::model::sweep_fold(swept, crate::model::pair_values(swept.owl_auction), now)
                == swept
        }),
{
    let ids = crate::model::pair_values(s.owl_auction);
    assert forall|k: int| 0 <= k < ids.len() implies (#[trigger] ids[k]) < s.auctions.len()
        && !s.auctions[ids[k] as int].closed by {
        assert(ids[k] == s.owl_auction[k].1);
        assert(s.owl_auction[k].1 < s.auctions.len());
    }
    assert forall|k1: int, k2: int| 0 <= k1 < k2 < ids.len() implies ids[k1] != ids[k2] by {
        if ids[k1] == ids[k2] {
            let aid = ids[k1] as int;
            assert(s.auctions[aid].auction.owl_id == s.owl_auction[k1].0);
            assert(s.auctions[aid].auction.owl_id == s.owl_auction[k2].0);
            assert(s.owl_auction[k1].0 != s.owl_auction[k2].0);
        }
    }
    crate::model::lemma_sweep_settles(s, ids, now);
    let swept = crate::model::sweep_fold(s, ids, now);
    assert forall|i: int|
        0 <= i < swept.auctions.len() && !(#[trigger] swept.auctions[i]).closed
        implies !swept.auctions[i].spec_expired(now) by {
        assert(swept.auctions[i] == s.auctions[i]);
        assert(s.auctions[i].id == i);
        assert(crate::model::pair_mem(
            s.owl_auction,
            s.auctions[i].auction.owl_id,
            i as u64,
        ));
        let w = choose|w: int|
            0 <= w < s.owl_auction.len() && s.owl_auction[w] == (
                s.auctions[i].auction.owl_id,
                i as u64,
            );
        assert(ids[w] == i as u64);
        if s.auctions[i].spec_expired(now) {
            assert(swept.auctions[ids[w] as int].closed);
        }
    }
    lemma_sweep_before_deadline_noop(swept, now);
}

} // verus!
