//! The service around the handlers: the per-block sweep that closes expired
//! auctions, and the read-only query surface.

use vstd::prelude::*;

verus! {

use crate::data_layout::{AuctionState, Bid, CryptoOwlState, User};
use crate::model::{
    SchemaV, close_credit_fits, has_owl, has_user, lemma_user_idx_is, owl_at, pair_values,
    sweep_fold, sweep_step, user_at, user_idx, values_for, wf,
};
use crate::schema::CryptoOwlsSchema;

/// The assembled service.
#[derive(Clone, Copy, Debug, Default, PartialEq, Eq, Structural)]
pub struct CryptoOwlsService;

/// Factory for the service.
#[derive(Clone, Copy, Debug, Default, PartialEq, Eq, Structural)]
pub struct CryptoOwlsServiceFactory;

impl CryptoOwlsServiceFactory {
    /// The service's name.
    pub fn service_name(&self) -> (r: &'static str)
        ensures
            r@ == "cryptoowls"@,
    {
        "cryptoowls"
    }

    /// Build the service.
    pub fn make_service(&self) -> CryptoOwlsService {
        CryptoOwlsService
    }
}

impl CryptoOwlsService {
    /// The service's stable identifier.
    pub fn service_id(&self) -> (r: u16)
        ensures
            r == crate::CRYPTOOWLS_SERVICE_ID,
    {
        crate::CRYPTOOWLS_SERVICE_ID
    }

    /// The service's name.
    pub fn service_name(&self) -> (r: &'static str)
        ensures
            r@ == "cryptoowls"@,
    {
        "cryptoowls"
    }

    /// The per-block sweep: walk the open auctions in index order and close
    /// each whose deadline has passed, wherever the settlement credit stays
    /// in the machine's range. Idempotent: a second sweep at the same time
    /// changes nothing, since every auction it would close is closed.
    pub fn before_commit(&self, schema: &mut CryptoOwlsSchema, now: u64)
        requires
            wf(old(schema)@),
        ensures
            wf(final(schema)@),
            final(schema)@ == sweep_fold(
                old(schema)@,
                pair_values(old(schema)@.owl_auction),
                now,
            ),
    {
        let ghost s0 = old(schema)@;
        let ghost ids = pair_values(s0.owl_auction);
        // Snapshot the open auctions: closing one drops its index entry.
        let mut open_auctions: Vec<u64> = Vec::new();
        let n = schema.owl_auction().len();
        let mut i: usize = 0;
        while i < n
            invariant
                i <= n,
                schema@ == s0,
                n == s0.owl_auction.len(),
                open_auctions@ =~= ids.take(i as int),
                ids == pair_values(s0.owl_auction),
            decreases n - i,
        {
            open_auctions.push(schema.owl_auction()[i].1);
            proof {
                assert(ids[i as int] == s0.owl_auction[i as int].1);
                assert(ids.take(i as int).push(ids[i as int]) =~= ids.take(i as int + 1));
            }
            i = i + 1;
        }
        proof {
            assert(open_auctions@ =~= ids);
            assert(ids.skip(0) =~= ids);
        }
        // Close the expired ones.
        let mut k: usize = 0;
        while k < open_auctions.len()
            invariant
                k <= open_auctions@.len(),
                open_auctions@ == ids,
                wf(schema@),
                sweep_fold(s0, ids, now) == sweep_fold(schema@, ids.skip(k as int), now),
            decreases open_auctions@.len() - k,
        {
            let ghost pre = schema@;
            proof {
                assert(ids.skip(k as int)[0] == ids[k as int]);
                assert(ids.skip(k as int).drop_first() =~= ids.skip(k as int + 1));
            }
            let aid = open_auctions[k];
            self.sweep_one(schema, aid, now);
            k = k + 1;
        }
        proof {
            assert(ids.skip(ids.len() as int) =~= Seq::<u64>::empty());
        }
    }

    /// One step of the sweep: close the auction if it is open, expired and
    /// settleable within the machine's range; otherwise leave everything
    /// untouched.
    fn sweep_one(&self, schema: &mut CryptoOwlsSchema, aid: u64, now: u64)
        requires
            wf(old(schema)@),
        ensures
            wf(final(schema)@),
            final(schema)@ == sweep_step(old(schema)@, aid, now),
    {
        let ghost s0 = old(schema)@;
        let st = match schema.get_auction(aid) {
            Some(st) => st,
            None => {
                return ;
            },
        };
        if st.closed {
            return ;
        }
        if !st.expired(now) {
            return ;
        }
        proof {
            assert(s0.auction_bids.len() == s0.auctions.len());
        }
        // Check that crediting the seller stays in range.
        let fits: bool = match schema.last_bid(aid) {
            None => true,
            Some(winner_bid) => {
                proof {
                    assert(s0.auctions[aid as int].id == aid);
                    assert(has_user(s0.users, st.auction.public_key));
                    let i = user_idx(s0.users, st.auction.public_key);
                    lemma_user_idx_is(s0.users, st.auction.public_key, i);
                    assert(s0.users[i].balance + s0.users[i].reserved <= u64::MAX);
                }
                let seller = schema.get_user(st.auction.public_key).unwrap();
                winner_bid.value <= u64::MAX - (seller.balance + seller.reserved)
            },
        };
        if fits {
            proof {
                assert(close_credit_fits(s0, aid as int));
            }
            schema.close_auction(aid, now);
        } else {
            proof {
                assert(!close_credit_fits(s0, aid as int));
            }
        }
    }
}

/// The read-only query surface over the ledger.
#[derive(Clone, Copy, Debug, PartialEq, Eq, Structural)]
pub struct CryptoOwlsApi;

/// Query for one owl.
#[derive(Clone, Copy, Debug, PartialEq, Eq, Structural)]
pub struct OwlQuery {
    /// Owl identity.
    pub id: u64,
}

/// Query for one user.
#[derive(Clone, Copy, Debug, PartialEq, Eq, Structural)]
pub struct UserQuery {
    /// User key.
    pub pub_key: u64,
}

/// Query for one auction.
#[derive(Clone, Copy, Debug, PartialEq, Eq, Structural)]
pub struct AuctionQuery {
    /// Auction identifier.
    pub id: u64,
}

impl CryptoOwlsApi {
    /// User profile.
    pub fn get_user(schema: &CryptoOwlsSchema, query: UserQuery) -> (r: Option<User>)
        requires
            crate::model::users_unique(schema@.users),
        ensures
            r is Some <==> has_user(schema@.users, query.pub_key),
            r is Some ==> r->Some_0@ == user_at(schema@.users, query.pub_key),
    {
        schema.get_user(query.pub_key)
    }

    /// All users, in registration order.
    pub fn get_users(schema: &CryptoOwlsSchema) -> (r: Vec<User>)
        ensures
            r@.len() == schema@.users.len(),
            forall|i: int| 0 <= i < r@.len() ==> (#[trigger] r@[i])@ == schema@.users[i],
    {
        let users = schema.users();
        let mut r: Vec<User> = Vec::new();
        let mut i: usize = 0;
        while i < users.len()
            invariant
                i <= users@.len(),
                users@.len() == schema@.users.len(),
                forall|j: int| 0 <= j < users@.len() ==> (#[trigger] users@[j])@ == schema@.users[j],
                r@.len() == i,
                forall|j: int| 0 <= j < i ==> (#[trigger] r@[j])@ == schema@.users[j],
            decreases users@.len() - i,
        {
            r.push(users[i].clone());
            i = i + 1;
        }
        r
    }

    /// Owl profile.
    pub fn get_owl(schema: &CryptoOwlsSchema, query: OwlQuery) -> (r: Option<CryptoOwlState>)
        requires
            crate::model::owls_unique(schema@.owls_state),
        ensures
            r is Some <==> has_owl(schema@.owls_state, query.id),
            r is Some ==> r->Some_0@ == owl_at(schema@.owls_state, query.id),
    {
        schema.get_owl_state(query.id)
    }

    /// All owls, in recording order.
    pub fn get_owls(schema: &CryptoOwlsSchema) -> (r: Vec<CryptoOwlState>)
        ensures
            r@.len() == schema@.owls_state.len(),
            forall|i: int| 0 <= i < r@.len() ==> (#[trigger] r@[i])@ == schema@.owls_state[i].1,
    {
        let owls = schema.owls_state();
        let mut r: Vec<CryptoOwlState> = Vec::new();
        let mut i: usize = 0;
        while i < owls.len()
            invariant
                i <= owls@.len(),
                owls@.len() == schema@.owls_state.len(),
                forall|j: int|
                    0 <= j < owls@.len() ==> (#[trigger] owls@[j]).1@ == schema@.owls_state[j].1,
                r@.len() == i,
                forall|j: int| 0 <= j < i ==> (#[trigger] r@[j])@ == schema@.owls_state[j].1,
            decreases owls@.len() - i,
        {
            r.push(owls[i].1.clone());
            i = i + 1;
        }
        r
    }

    /// The owls of one user, if registered.
    pub fn get_user_owls(schema: &CryptoOwlsSchema, query: UserQuery) -> (r: Option<
        Vec<CryptoOwlState>,
    >)
        requires
            wf(schema@),
        ensures
            r is Some <==> has_user(schema@.users, query.pub_key),
            r is Some ==> {
                let ids = values_for(schema@.user_owls, query.pub_key);
                &&& r->Some_0@.len() == ids.len()
                &&& forall|i: int|
                    0 <= i < ids.len() ==> (#[trigger] r->Some_0@[i])@ == owl_at(
                        schema@.owls_state,
                        ids[i],
                    )
            },
    {
        if schema.get_user(query.pub_key).is_none() {
            return None;
        }
        let ghost ids = values_for(schema@.user_owls, query.pub_key);
        let owl_ids = schema.user_owls(query.pub_key);
        let mut r: Vec<CryptoOwlState> = Vec::new();
        let mut i: usize = 0;
        while i < owl_ids.len()
            invariant
                wf(schema@),
                i <= owl_ids@.len(),
                owl_ids@ == ids,
                ids == values_for(schema@.user_owls, query.pub_key),
                r@.len() == i,
                forall|j: int|
                    0 <= j < i ==> (#[trigger] r@[j])@ == owl_at(schema@.owls_state, ids[j]),
            decreases owl_ids@.len() - i,
        {
            proof {
                lemma_values_for_has(schema@.user_owls, query.pub_key, i as int);
                let w = choose|w: int|
                    0 <= w < schema@.user_owls.len() && schema@.user_owls[w] == (
                        query.pub_key,
                        ids[i as int],
                    );
                assert(has_owl(schema@.owls_state, schema@.user_owls[w].1));
            }
            let st = schema.get_owl_state(owl_ids[i]).unwrap();
            r.push(st);
            i = i + 1;
        }
        Some(r)
    }

    /// The auctions created by one user, if registered.
    pub fn get_users_auctions(schema: &CryptoOwlsSchema, query: UserQuery) -> (r: Option<
        Vec<AuctionState>,
    >)
        requires
            wf(schema@),
        ensures
            r is Some <==> has_user(schema@.users, query.pub_key),
            r is Some ==> {
                let ids = values_for(schema@.user_auctions, query.pub_key);
                &&& r->Some_0@.len() == ids.len()
                &&& forall|i: int|
                    0 <= i < ids.len() ==> (#[trigger] r->Some_0@[i]) == schema@.auctions[ids[i] as int]
            },
    {
        if schema.get_user(query.pub_key).is_none() {
            return None;
        }
        let ghost ids = values_for(schema@.user_auctions, query.pub_key);
        let auction_ids = schema.user_auctions(query.pub_key);
        let mut r: Vec<AuctionState> = Vec::new();
        let mut i: usize = 0;
        while i < auction_ids.len()
            invariant
                wf(schema@),
                i <= auction_ids@.len(),
                auction_ids@ == ids,
                ids == values_for(schema@.user_auctions, query.pub_key),
                r@.len() == i,
                forall|j: int|
                    0 <= j < i ==> (#[trigger] r@[j]) == schema@.auctions[ids[j] as int],
            decreases auction_ids@.len() - i,
        {
            proof {
                lemma_values_for_valid_auction(schema@, query.pub_key, i as int);
            }
            let st = schema.get_auction(auction_ids[i]).unwrap();
            r.push(st);
            i = i + 1;
        }
        Some(r)
    }

    /// An auction together with its full bid history.
    pub fn get_auction_with_bids(schema: &CryptoOwlsSchema, query: AuctionQuery) -> (r: Option<
        (AuctionState, Vec<Bid>),
    >)
        requires
            schema@.auction_bids.len() == schema@.auctions.len(),
        ensures
            r is Some <==> query.id < schema@.auctions.len(),
            r is Some ==> r->Some_0.0 == schema@.auctions[query.id as int] && r->Some_0.1@
                == schema@.auction_bids[query.id as int],
    {
        match schema.get_auction(query.id) {
            Some(st) => Some((st, schema.auction_bids(query.id))),
            None => None,
        }
    }

    /// The bid history of one auction.
    pub fn get_auction_bids(schema: &CryptoOwlsSchema, query: AuctionQuery) -> (r: Option<
        Vec<Bid>,
    >)
        requires
            schema@.auction_bids.len() == schema@.auctions.len(),
        ensures
            r is Some <==> query.id < schema@.auctions.len(),
            r is Some ==> r->Some_0@ == schema@.auction_bids[query.id as int],
    {
        match schema.get_auction(query.id) {
            Some(_st) => Some(schema.auction_bids(query.id)),
            None => None,
        }
    }

    /// All auctions, in creation order.
    pub fn get_auctions(schema: &CryptoOwlsSchema) -> (r: Vec<AuctionState>)
        ensures
            r@ == schema@.auctions,
    {
        let auctions = schema.auctions();
        let mut r: Vec<AuctionState> = Vec::new();
        let mut i: usize = 0;
        while i < auctions.len()
            invariant
                i <= auctions@.len(),
                auctions@ == schema@.auctions,
                r@ =~= schema@.auctions.take(i as int),
            decreases auctions@.len() - i,
        {
            r.push(auctions[i]);
            proof {
                assert(schema@.auctions.take(i as int).push(schema@.auctions[i as int])
                    =~= schema@.auctions.take(i as int + 1));
            }
            i = i + 1;
        }
        proof {
            assert(schema@.auctions.take(schema@.auctions.len() as int) =~= schema@.auctions);
        }
        r
    }
}

/// Every value listed for a key in the owner index is an existing owl.
proof fn lemma_values_for_has(ps: Seq<(u64, u64)>, key: u64, i: int)
    requires
        0 <= i < values_for(ps, key).len(),
    ensures
        exists|w: int| 0 <= w < ps.len() && ps[w] == (key, values_for(ps, key)[i]),
    decreases ps.len(),
{
    if ps.len() > 0 {
        if ps[0].0 == key {
            if i == 0 {
                assert(ps[0] == (key, values_for(ps, key)[0]));
            } else {
                lemma_values_for_has(ps.drop_first(), key, i - 1);
                let w = choose|w: int|
                    0 <= w < ps.drop_first().len() && ps.drop_first()[w] == (
                        key,
                        values_for(ps.drop_first(), key)[i - 1],
                    );
                assert(ps[w + 1] == (key, values_for(ps, key)[i]));
            }
        } else {
            lemma_values_for_has(ps.drop_first(), key, i);
            let w = choose|w: int|
                0 <= w < ps.drop_first().len() && ps.drop_first()[w] == (
                    key,
                    values_for(ps.drop_first(), key)[i],
                );
            assert(ps[w + 1] == (key, values_for(ps, key)[i]));
        }
    }
}

/// In a well-formed state, every auction listed for a user exists.
proof fn lemma_values_for_valid_auction(s: SchemaV, key: u64, i: int)
    requires
        wf(s),
        0 <= i < values_for(s.user_auctions, key).len(),
    ensures
        values_for(s.user_auctions, key)[i] < s.auctions.len(),
{
    lemma_values_for_has(s.user_auctions, key, i);
    let w = choose|w: int|
        0 <= w < s.user_auctions.len() && s.user_auctions[w] == (
            key,
            values_for(s.user_auctions, key)[i],
        );
    assert(s.user_auctions[w].1 < s.auctions.len());
}

} // verus!
