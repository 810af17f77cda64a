//! The ledger state and the invariant-preserving operations on it: table
//! accessors, the balance/reservation ledger, owl registration, breeding,
//! and auction settlement.

use vstd::prelude::*;

verus! {

use crate::data_layout::{
    AuctionState, Bid, CryptoOwl, CryptoOwlState, OwlStateV, OwlV, User, UserV, bids_root_spec,
    extend_bids_root, owl_id_spec,
};
use crate::model::{
    SchemaV, has_owl, has_user, insert_pair, lemma_owl_idx_is, lemma_pair_idx_is,
    lemma_pair_mem_idx_is, lemma_refresh_one_keys, lemma_user_idx_is, owl_at, owl_idx, pair_has,
    pair_mem, pairs_key_unique, pairs_unique, owls_unique, put_owl, refresh_fold, refresh_one,
    remove_pair, remove_pair_key, uniq_dna_at, uniq_dna_ok, user_at, user_idx, users_unique,
    values_for,
};
use crate::rng::{DnaStream, child_dna, draw_dna, seed_words, seed_words_spec};
use crate::DNA_DRAW_LIMIT;

/// The ledger state: every table the handlers read and write.
pub struct CryptoOwlsSchema {
    users: Vec<User>,
    owls_state: Vec<(u64, CryptoOwlState)>,
    auctions: Vec<AuctionState>,
    auction_bids: Vec<Vec<Bid>>,
    owl_auction: Vec<(u64, u64)>,
    user_owls: Vec<(u64, u64)>,
    user_auctions: Vec<(u64, u64)>,
}

impl View for CryptoOwlsSchema {
    type V = SchemaV;

    closed spec fn view(&self) -> SchemaV {
        SchemaV {
            users: self.users@.map_values(|u: User| u@),
            owls_state: self.owls_state@.map_values(|p: (u64, CryptoOwlState)| (p.0, p.1@)),
            auctions: self.auctions@,
            auction_bids: self.auction_bids@.map_values(|b: Vec<Bid>| b@),
            owl_auction: self.owl_auction@,
            user_owls: self.user_owls@,
            user_auctions: self.user_auctions@,
        }
    }
}

impl CryptoOwlsSchema {
    /// The empty ledger.
    pub fn new() -> (r: Self)
        ensures
            r@.users =~= Seq::<UserV>::empty(),
            r@.owls_state =~= Seq::<(u64, OwlStateV)>::empty(),
            r@.auctions =~= Seq::<AuctionState>::empty(),
            r@.auction_bids =~= Seq::<Seq<Bid>>::empty(),
            r@.owl_auction =~= Seq::<(u64, u64)>::empty(),
            r@.user_owls =~= Seq::<(u64, u64)>::empty(),
            r@.user_auctions =~= Seq::<(u64, u64)>::empty(),
            crate::model::wf(r@),
    {
        let r = CryptoOwlsSchema {
            users: Vec::new(),
            owls_state: Vec::new(),
            auctions: Vec::new(),
            auction_bids: Vec::new(),
            owl_auction: Vec::new(),
            user_owls: Vec::new(),
            user_auctions: Vec::new(),
        };
        r
    }

    // -----------------------------------------------------------------------
    // Read access.
    // -----------------------------------------------------------------------

    /// Position of the user with the given key, if registered.
    fn user_position(&self, key: u64) -> (r: Option<usize>)
        ensures
            match r {
                Some(i) => i < self@.users.len() && self@.users[i as int].public_key == key,
                None => !has_user(self@.users, key),
            },
            r is Some <==> has_user(self@.users, key),
    {
        let mut i: usize = 0;
        while i < self.users.len()
            invariant
                i <= self@.users.len(),
                self@.users.len() == self.users@.len(),
                forall|j: int| 0 <= j < i ==> self@.users[j].public_key != key,
            decreases self.users@.len() - i,
        {
            if self.users[i].public_key == key {
                return Some(i);
            }
            i = i + 1;
        }
        None
    }

    /// Position of the owl with the given identity, if it exists.
    fn owl_position(&self, id: u64) -> (r: Option<usize>)
        ensures
            match r {
                Some(i) => i < self@.owls_state.len() && self@.owls_state[i as int].0 == id,
                None => !has_owl(self@.owls_state, id),
            },
            r is Some <==> has_owl(self@.owls_state, id),
    {
        let mut i: usize = 0;
        while i < self.owls_state.len()
            invariant
                i <= self@.owls_state.len(),
                self@.owls_state.len() == self.owls_state@.len(),
                forall|j: int| 0 <= j < i ==> self@.owls_state[j].0 != id,
            decreases self.owls_state@.len() - i,
        {
            if self.owls_state[i].0 == id {
                return Some(i);
            }
            i = i + 1;
        }
        None
    }

    /// The registered user with the given key.
    pub fn get_user(&self, key: u64) -> (r: Option<User>)
        requires
            users_unique(self@.users),
        ensures
            r is Some <==> has_user(self@.users, key),
            r is Some ==> r->Some_0@ == user_at(self@.users, key),
    {
        match self.user_position(key) {
            Some(i) => {
                proof {
                    lemma_user_idx_is(self@.users, key, i as int);
                }
                Some(self.users[i].clone())
            },
            None => None,
        }
    }

    /// The state of the owl with the given identity.
    pub fn get_owl_state(&self, id: u64) -> (r: Option<CryptoOwlState>)
        requires
            owls_unique(self@.owls_state),
        ensures
            r is Some <==> has_owl(self@.owls_state, id),
            r is Some ==> r->Some_0@ == owl_at(self@.owls_state, id),
    {
        match self.owl_position(id) {
            Some(i) => {
                proof {
                    lemma_owl_idx_is(self@.owls_state, id, i as int);
                }
                Some(self.owls_state[i].1.clone())
            },
            None => None,
        }
    }

    /// Users, in registration order.
    pub fn users(&self) -> (r: &Vec<User>)
        ensures
            r@.len() == self@.users.len(),
            forall|i: int| 0 <= i < r@.len() ==> (#[trigger] r@[i])@ == self@.users[i],
    {
        &self.users
    }

    /// Owls and their states, keyed by identity.
    pub fn owls_state(&self) -> (r: &Vec<(u64, CryptoOwlState)>)
        ensures
            r@.len() == self@.owls_state.len(),
            forall|i: int|
                0 <= i < r@.len() ==> (#[trigger] r@[i]).0 == self@.owls_state[i].0 && r@[i].1@
                    == self@.owls_state[i].1,
    {
        &self.owls_state
    }

    /// Auctions; the auction with identifier `i` sits at position `i`.
    pub fn auctions(&self) -> (r: &Vec<AuctionState>)
        ensures
            r@ == self@.auctions,
    {
        &self.auctions
    }

    /// The auction with the given identifier.
    pub fn get_auction(&self, id: u64) -> (r: Option<AuctionState>)
        ensures
            r is Some <==> id < self@.auctions.len(),
            r is Some ==> r->Some_0 == self@.auctions[id as int],
    {
        if id < self.auctions.len() as u64 {
            Some(self.auctions[id as usize])
        } else {
            None
        }
    }

    /// The bid history of the given auction, oldest first; empty if the
    /// auction does not exist.
    pub fn auction_bids(&self, auction_id: u64) -> (r: Vec<Bid>)
        ensures
            auction_id < self@.auction_bids.len() ==> r@ == self@.auction_bids[auction_id as int],
            auction_id >= self@.auction_bids.len() ==> r@ =~= Seq::<Bid>::empty(),
    {
        let mut r: Vec<Bid> = Vec::new();
        if auction_id >= self.auction_bids.len() as u64 {
            return r;
        }
        let bids = &self.auction_bids[auction_id as usize];
        let mut i: usize = 0;
        while i < bids.len()
            invariant
                i <= bids@.len(),
                r@ == bids@.take(i as int),
            decreases bids@.len() - i,
        {
            r.push(bids[i]);
            proof {
                assert(bids@.take(i as int).push(bids@[i as int]) =~= bids@.take(i as int + 1));
            }
            i = i + 1;
        }
        proof {
            assert(bids@.take(bids@.len() as int) =~= bids@);
            assert(self@.auction_bids[auction_id as int] == bids@);
        }
        r
    }

    /// The standing bid of the given auction: the last accepted one.
    pub fn last_bid(&self, auction_id: u64) -> (r: Option<Bid>)
        requires
            auction_id < self@.auction_bids.len(),
        ensures
            r is Some <==> self@.auction_bids[auction_id as int].len() > 0,
            r is Some ==> r->Some_0 == self@.auction_bids[auction_id as int].last(),
    {
        let n: usize = self.auction_bids.len();
        proof {
            assert(self@.auction_bids.len() == self.auction_bids@.len());
            assert((auction_id as int) < (n as int));
            assert((auction_id as int) <= (usize::MAX as int));
        }
        let idx: usize = auction_id as usize;
        let bids = &self.auction_bids[idx];
        proof {
            assert(idx as int == auction_id as int);
            assert(bids@ == self@.auction_bids[auction_id as int]);
        }
        if bids.len() > 0 {
            Some(bids[bids.len() - 1])
        } else {
            None
        }
    }

    /// The owl-to-open-auction index.
    pub fn owl_auction(&self) -> (r: &Vec<(u64, u64)>)
        ensures
            r@ == self@.owl_auction,
    {
        &self.owl_auction
    }

    /// The open auction of the given owl, if one is listed.
    pub fn open_auction_of(&self, owl_id: u64) -> (r: Option<u64>)
        requires
            pairs_key_unique(self@.owl_auction),
        ensures
            r is Some <==> pair_has(self@.owl_auction, owl_id),
            r is Some ==> r->Some_0 == crate::model::pair_at(self@.owl_auction, owl_id),
    {
        let mut i: usize = 0;
        while i < self.owl_auction.len()
            invariant
                i <= self@.owl_auction.len(),
                self@.owl_auction.len() == self.owl_auction@.len(),
                pairs_key_unique(self@.owl_auction),
                forall|j: int| 0 <= j < i ==> self@.owl_auction[j].0 != owl_id,
            decreases self.owl_auction@.len() - i,
        {
            if self.owl_auction[i].0 == owl_id {
                proof {
                    lemma_pair_idx_is(self@.owl_auction, owl_id, i as int);
                }
                return Some(self.owl_auction[i].1);
            }
            i = i + 1;
        }
        None
    }

    /// The owls of the given user, in indexing order.
    pub fn user_owls(&self, public_key: u64) -> (r: Vec<u64>)
        ensures
            r@ == values_for(self@.user_owls, public_key),
    {
        let mut r: Vec<u64> = Vec::new();
        let mut i: usize = 0;
        proof {
            assert(self@.user_owls.skip(0) =~= self@.user_owls);
        }
        while i < self.user_owls.len()
            invariant
                i <= self@.user_owls.len(),
                self@.user_owls.len() == self.user_owls@.len(),
                values_for(self@.user_owls, public_key) == r@ + values_for(
                    self@.user_owls.skip(i as int),
                    public_key,
                ),
            decreases self.user_owls@.len() - i,
        {
            proof {
                assert(self@.user_owls.skip(i as int)[0] == self@.user_owls[i as int]);
                assert(self@.user_owls.skip(i as int).drop_first() =~= self@.user_owls.skip(
                    i as int + 1,
                ));
            }
            if self.user_owls[i].0 == public_key {
                r.push(self.user_owls[i].1);
            }
            i = i + 1;
        }
        proof {
            assert(self@.user_owls.skip(self@.user_owls.len() as int) =~= Seq::<(u64, u64)>::empty());
            assert(r@ + Seq::<u64>::empty() =~= r@);
        }
        r
    }

    /// The auctions created by the given user, in creation order.
    pub fn user_auctions(&self, public_key: u64) -> (r: Vec<u64>)
        ensures
            r@ == values_for(self@.user_auctions, public_key),
    {
        let mut r: Vec<u64> = Vec::new();
        let mut i: usize = 0;
        proof {
            assert(self@.user_auctions.skip(0) =~= self@.user_auctions);
        }
        while i < self.user_auctions.len()
            invariant
                i <= self@.user_auctions.len(),
                self@.user_auctions.len() == self.user_auctions@.len(),
                values_for(self@.user_auctions, public_key) == r@ + values_for(
                    self@.user_auctions.skip(i as int),
                    public_key,
                ),
            decreases self.user_auctions@.len() - i,
        {
            proof {
                assert(self@.user_auctions.skip(i as int)[0] == self@.user_auctions[i as int]);
                assert(self@.user_auctions.skip(i as int).drop_first() =~= self@.user_auctions.skip(
                    i as int + 1,
                ));
            }
            if self.user_auctions[i].0 == public_key {
                r.push(self.user_auctions[i].1);
            }
            i = i + 1;
        }
        proof {
            assert(self@.user_auctions.skip(self@.user_auctions.len() as int) =~= Seq::<
                (u64, u64),
            >::empty());
            assert(r@ + Seq::<u64>::empty() =~= r@);
        }
        r
    }

    // -----------------------------------------------------------------------
    // User table updates.
    // -----------------------------------------------------------------------

    /// Register a user. The caller has checked that the key is free.
    pub(crate) fn insert_user(&mut self, u: User)
        requires
            !has_user(old(self)@.users, u@.public_key),
        ensures
            final(self)@ == (SchemaV { users: old(self)@.users.push(u@), ..old(self)@ }),
    {
        let ghost u_v = u@;
        self.users.push(u);
        proof {
            assert(self@.users =~= old(self)@.users.push(u_v));
            assert(self@ == (SchemaV { users: old(self)@.users.push(u_v), ..old(self)@ }));
        }
    }

    /// Replace the registered user under `u`'s key.
    fn store_user(&mut self, u: User)
        requires
            users_unique(old(self)@.users),
            has_user(old(self)@.users, u@.public_key),
        ensures
            final(self)@ == (SchemaV {
                users: old(self)@.users.update(user_idx(old(self)@.users, u@.public_key), u@),
                ..old(self)@
            }),
    {
        let ghost u_v = u@;
        let pos = self.user_position(u.public_key);
        match pos {
            Some(i) => {
                proof {
                    lemma_user_idx_is(self@.users, u_v.public_key, i as int);
                }
                self.users[i] = u;
                proof {
                    assert(self@.users =~= old(self)@.users.update(
                        user_idx(old(self)@.users, u_v.public_key),
                        u_v,
                    ));
                }
            },
            None => {
                proof {
                    assert(false);
                }
            },
        }
    }

    // -----------------------------------------------------------------------
    // The balance/reservation ledger. Each operation requires the target
    // user to be registered and rewrites that user's row alone.
    // -----------------------------------------------------------------------

    /// Credit `balance` to the user, refreshing the fill-up time if a new
    /// reading is given.
    pub fn increase_user_balance(&mut self, user_id: u64, balance: u64, last_fillup: Option<u64>)
        requires
            users_unique(old(self)@.users),
            has_user(old(self)@.users, user_id),
            user_at(old(self)@.users, user_id).balance + balance + user_at(
                old(self)@.users,
                user_id,
            ).reserved <= u64::MAX,
        ensures
            final(self)@ == (SchemaV {
                users: old(self)@.users.update(
                    user_idx(old(self)@.users, user_id),
                    UserV {
                        balance: (user_at(old(self)@.users, user_id).balance + balance) as u64,
                        last_fillup: match last_fillup {
                            Some(t) => t,
                            None => user_at(old(self)@.users, user_id).last_fillup,
                        },
                        ..user_at(old(self)@.users, user_id)
                    },
                ),
                ..old(self)@
            }),
    {
        let user = self.get_user(user_id).unwrap();
        let t = match last_fillup {
            Some(t) => t,
            None => user.last_fillup,
        };
        let updated = User {
            public_key: user.public_key,
            name: user.name,
            balance: user.balance + balance,
            reserved: user.reserved,
            last_fillup: t,
        };
        self.store_user(updated);
    }

    /// Debit `balance` from the user. The caller has checked sufficiency.
    pub fn decrease_user_balance(&mut self, user_id: u64, balance: u64)
        requires
            users_unique(old(self)@.users),
            has_user(old(self)@.users, user_id),
            user_at(old(self)@.users, user_id).balance >= balance,
        ensures
            final(self)@ == (SchemaV {
                users: old(self)@.users.update(
                    user_idx(old(self)@.users, user_id),
                    UserV {
                        balance: (user_at(old(self)@.users, user_id).balance - balance) as u64,
                        ..user_at(old(self)@.users, user_id)
                    },
                ),
                ..old(self)@
            }),
    {
        let user = self.get_user(user_id).unwrap();
        let updated = User {
            public_key: user.public_key,
            name: user.name,
            balance: user.balance - balance,
            reserved: user.reserved,
            last_fillup: user.last_fillup,
        };
        self.store_user(updated);
    }

    /// Move `reserve` from the user's balance into their reservation. The
    /// caller has checked sufficiency.
    pub fn reserve_user_balance(&mut self, user_id: u64, reserve: u64)
        requires
            users_unique(old(self)@.users),
            has_user(old(self)@.users, user_id),
            user_at(old(self)@.users, user_id).balance >= reserve,
            user_at(old(self)@.users, user_id).reserved + reserve <= u64::MAX,
        ensures
            final(self)@ == (SchemaV {
                users: old(self)@.users.update(
                    user_idx(old(self)@.users, user_id),
                    UserV {
                        balance: (user_at(old(self)@.users, user_id).balance - reserve) as u64,
                        reserved: (user_at(old(self)@.users, user_id).reserved + reserve) as u64,
                        ..user_at(old(self)@.users, user_id)
                    },
                ),
                ..old(self)@
            }),
    {
        let user = self.get_user(user_id).unwrap();
        let updated = User {
            public_key: user.public_key,
            name: user.name,
            balance: user.balance - reserve,
            reserved: user.reserved + reserve,
            last_fillup: user.last_fillup,
        };
        self.store_user(updated);
    }

    /// Return `reserve` from the user's reservation to their balance: the
    /// outbid refund.
    pub fn release_user_balance(&mut self, user_id: u64, reserve: u64)
        requires
            users_unique(old(self)@.users),
            has_user(old(self)@.users, user_id),
            user_at(old(self)@.users, user_id).reserved >= reserve,
            user_at(old(self)@.users, user_id).balance + reserve <= u64::MAX,
        ensures
            final(self)@ == (SchemaV {
                users: old(self)@.users.update(
                    user_idx(old(self)@.users, user_id),
                    UserV {
                        balance: (user_at(old(self)@.users, user_id).balance + reserve) as u64,
                        reserved: (user_at(old(self)@.users, user_id).reserved - reserve) as u64,
                        ..user_at(old(self)@.users, user_id)
                    },
                ),
                ..old(self)@
            }),
    {
        let user = self.get_user(user_id).unwrap();
        let updated = User {
            public_key: user.public_key,
            name: user.name,
            balance: user.balance + reserve,
            reserved: user.reserved - reserve,
            last_fillup: user.last_fillup,
        };
        self.store_user(updated);
    }

    /// Spend `bid_value` out of the user's reservation: the winning bid is
    /// paid, the funds left the balance when they were reserved.
    pub fn confirm_user_bid(&mut self, user_id: u64, bid_value: u64)
        requires
            users_unique(old(self)@.users),
            has_user(old(self)@.users, user_id),
            user_at(old(self)@.users, user_id).reserved >= bid_value,
        ensures
            final(self)@ == (SchemaV {
                users: old(self)@.users.update(
                    user_idx(old(self)@.users, user_id),
                    UserV {
                        reserved: (user_at(old(self)@.users, user_id).reserved - bid_value) as u64,
                        ..user_at(old(self)@.users, user_id)
                    },
                ),
                ..old(self)@
            }),
    {
        let user = self.get_user(user_id).unwrap();
        let updated = User {
            public_key: user.public_key,
            name: user.name,
            balance: user.balance,
            reserved: user.reserved - bid_value,
            last_fillup: user.last_fillup,
        };
        self.store_user(updated);
    }

    // -----------------------------------------------------------------------
    // Owl registration and breeding.
    // -----------------------------------------------------------------------

    /// Whether the owner index holds the pair `(owner, owl)`.
    fn user_owl_mem(&self, owner_key: u64, owl_id: u64) -> (r: bool)
        ensures
            r == pair_mem(self@.user_owls, owner_key, owl_id),
    {
        let mut i: usize = 0;
        while i < self.user_owls.len()
            invariant
                i <= self@.user_owls.len(),
                self@.user_owls.len() == self.user_owls@.len(),
                forall|j: int| 0 <= j < i ==> self@.user_owls[j] != (owner_key, owl_id),
            decreases self.user_owls@.len() - i,
        {
            if self.user_owls[i].0 == owner_key && self.user_owls[i].1 == owl_id {
                proof {
                    assert(self@.user_owls[i as int] == (owner_key, owl_id));
                }
                return true;
            }
            i = i + 1;
        }
        false
    }

    /// Record one owl for `owner_key`: store its state under its identity
    /// and index it to the owner.
    fn refresh_single(&mut self, owner_key: u64, owl: CryptoOwl, last_breeding: u64)
        requires
            owls_unique(old(self)@.owls_state),
        ensures
            final(self)@ == refresh_one(old(self)@, owner_key, owl@, last_breeding),
    {
        let ghost o_v = owl@;
        let id = owl.id();
        let st = CryptoOwlState { owl, owner: owner_key, last_breeding };
        let ghost st_v = st@;
        match self.owl_position(id) {
            Some(i) => {
                proof {
                    lemma_owl_idx_is(self@.owls_state, id, i as int);
                }
                self.owls_state[i] = (id, st);
                proof {
                    assert(self@.owls_state =~= put_owl(old(self)@.owls_state, id, st_v));
                }
            },
            None => {
                self.owls_state.push((id, st));
                proof {
                    assert(self@.owls_state =~= put_owl(old(self)@.owls_state, id, st_v));
                }
            },
        }
        if !self.user_owl_mem(owner_key, id) {
            self.user_owls.push((owner_key, id));
        }
        proof {
            assert(self@.user_owls =~= insert_pair(old(self)@.user_owls, owner_key, id));
            assert(final(self)@ =~= refresh_one(old(self)@, owner_key, o_v, last_breeding));
        }
    }

    /// Record a batch of owls for `owner_key` after breeding or creation,
    /// first to last: each owl's state is stored under its identity and
    /// indexed to the owner, with the breeding time refreshed.
    pub fn refresh_owls(&mut self, owner_key: u64, owls: Vec<CryptoOwl>, last_breeding: u64)
        requires
            owls_unique(old(self)@.owls_state),
            pairs_unique(old(self)@.user_owls),
        ensures
            final(self)@ == refresh_fold(
                old(self)@,
                owner_key,
                owls@.map_values(|o: CryptoOwl| o@),
                last_breeding,
            ),
    {
        let ghost os = owls@.map_values(|o: CryptoOwl| o@);
        let mut rest = owls;
        let mut i: usize = 0;
        proof {
            assert(os.skip(0) =~= os);
        }
        while i < rest.len()
            invariant
                i <= rest@.len(),
                os == rest@.map_values(|o: CryptoOwl| o@),
                owls_unique(self@.owls_state),
                pairs_unique(self@.user_owls),
                refresh_fold(old(self)@, owner_key, os, last_breeding) == refresh_fold(
                    self@,
                    owner_key,
                    os.skip(i as int),
                    last_breeding,
                ),
            decreases rest@.len() - i,
        {
            let ghost pre = self@;
            let o = rest[i].clone();
            proof {
                assert(os.skip(i as int)[0] == os[i as int]);
                assert(os.skip(i as int).drop_first() =~= os.skip(i as int + 1));
                lemma_refresh_one_keys(pre, owner_key, o@, last_breeding);
            }
            self.refresh_single(owner_key, o, last_breeding);
            i = i + 1;
        }
        proof {
            assert(os.skip(os.len() as int) =~= Seq::<crate::data_layout::OwlV>::empty());
        }
    }

    /// Generate a new unique owl: draw genomes from the agreed seed's stream
    /// until one's identity is free. The result is a function of the
    /// arguments and the owl table alone: an owl comes back exactly when
    /// some draw below the cap finds a free identity, and no practical
    /// state exhausts the cap.
    pub fn make_uniq_owl(&self, genes: (u32, u32), name: &str, hash_seed: &[u8; 32]) -> (r: Option<
        CryptoOwl,
    >)
        requires
            owls_unique(self@.owls_state),
        ensures
            r is Some <==> !crate::model::dna_exhausted(
                self@.owls_state,
                genes.0,
                genes.1,
                name@,
                hash_seed@,
            ),
            r is Some ==> r->Some_0@.name == name@ && uniq_dna_ok(
                self@.owls_state,
                genes.0,
                genes.1,
                name@,
                hash_seed@,
                r->Some_0@.dna,
            ),
    {
        let words = seed_words(hash_seed);
        let mut stream = DnaStream::from_seed_words(&words);
        let mut k: u64 = 0;
        while k < DNA_DRAW_LIMIT
            invariant
                k <= DNA_DRAW_LIMIT,
                owls_unique(self@.owls_state),
                stream.seed() == seed_words_spec(hash_seed@),
                stream.pos() == k * 32,
                forall|j: nat|
                    j < k ==> has_owl(
                        self@.owls_state,
                        owl_id_spec(
                            OwlV {
                                name: name@,
                                dna: child_dna(
                                    genes.0,
                                    genes.1,
                                    seed_words_spec(hash_seed@),
                                    j,
                                ),
                            },
                        ),
                    ),
            decreases DNA_DRAW_LIMIT - k,
        {
            let dna = draw_dna(&mut stream, genes.0, genes.1, Ghost(k as nat));
            let newborn = CryptoOwl { name: name.to_owned(), dna };
            let id = newborn.id();
            match self.owl_position(id) {
                None => {
                    proof {
                        assert(uniq_dna_at(
                            self@.owls_state,
                            genes.0,
                            genes.1,
                            name@,
                            hash_seed@,
                            dna,
                            k as nat,
                        ));
                        // Round `k` found a free identity, so the cap is
                        // not exhausted.
                        assert(!crate::model::dna_exhausted(
                            self@.owls_state,
                            genes.0,
                            genes.1,
                            name@,
                            hash_seed@,
                        )) by {
                            if crate::model::dna_exhausted(
                                self@.owls_state,
                                genes.0,
                                genes.1,
                                name@,
                                hash_seed@,
                            ) {
                                assert(has_owl(
                                    self@.owls_state,
                                    owl_id_spec(
                                        OwlV {
                                            name: name@,
                                            dna: child_dna(
                                                genes.0,
                                                genes.1,
                                                seed_words_spec(hash_seed@),
                                                k as nat,
                                            ),
                                        },
                                    ),
                                ));
                            }
                        }
                    }
                    return Some(newborn);
                },
                Some(i) => {
                    proof {
                        assert(self@.owls_state[i as int].0 == id);
                        assert(has_owl(self@.owls_state, id));
                    }
                },
            }
            k = k + 1;
        }
        None
    }

    // -----------------------------------------------------------------------
    // Auction table updates.
    // -----------------------------------------------------------------------

    /// Append a new auction with its empty bid history.
    pub(crate) fn push_auction_state(&mut self, st: AuctionState)
        ensures
            final(self)@ == (SchemaV {
                auctions: old(self)@.auctions.push(st),
                auction_bids: old(self)@.auction_bids.push(Seq::empty()),
                ..old(self)@
            }),
    {
        self.auctions.push(st);
        let empty: Vec<Bid> = Vec::new();
        self.auction_bids.push(empty);
        proof {
            assert(self@.auctions =~= old(self)@.auctions.push(st));
            assert(self@.auction_bids =~= old(self)@.auction_bids.push(Seq::empty()));
        }
    }

    /// Index an owl to its newly opened auction.
    pub(crate) fn insert_owl_auction(&mut self, owl_id: u64, auction_id: u64)
        ensures
            final(self)@ == (SchemaV {
                owl_auction: old(self)@.owl_auction.push((owl_id, auction_id)),
                ..old(self)@
            }),
    {
        self.owl_auction.push((owl_id, auction_id));
        proof {
            assert(self@.owl_auction =~= old(self)@.owl_auction.push((owl_id, auction_id)));
        }
    }

    /// Record an auction under its seller.
    pub(crate) fn push_user_auction(&mut self, public_key: u64, auction_id: u64)
        ensures
            final(self)@ == (SchemaV {
                user_auctions: old(self)@.user_auctions.push((public_key, auction_id)),
                ..old(self)@
            }),
    {
        self.user_auctions.push((public_key, auction_id));
        proof {
            assert(self@.user_auctions =~= old(self)@.user_auctions.push(
                (public_key, auction_id),
            ));
        }
    }

    /// Append an accepted bid to an auction's history and refresh the stored
    /// root of that history.
    pub(crate) fn append_bid(&mut self, auction_id: u64, bid: Bid)
        requires
            auction_id < old(self)@.auctions.len(),
            old(self)@.auction_bids.len() == old(self)@.auctions.len(),
            old(self)@.auctions[auction_id as int].bidding_merkle_root == bids_root_spec(
                old(self)@.auction_bids[auction_id as int],
            ),
        ensures
            final(self)@ == (SchemaV {
                auctions: old(self)@.auctions.update(
                    auction_id as int,
                    AuctionState {
                        bidding_merkle_root: bids_root_spec(
                            old(self)@.auction_bids[auction_id as int].push(bid),
                        ),
                        ..old(self)@.auctions[auction_id as int]
                    },
                ),
                auction_bids: old(self)@.auction_bids.update(
                    auction_id as int,
                    old(self)@.auction_bids[auction_id as int].push(bid),
                ),
                ..old(self)@
            }),
    {
        let n: usize = self.auctions.len();
        proof {
            assert(self@.auctions.len() == self.auctions@.len());
            assert(self@.auction_bids.len() == self.auction_bids@.len());
            assert((auction_id as int) < (n as int));
        }
        let idx: usize = auction_id as usize;
        proof {
            assert(idx as int == auction_id as int);
        }
        let ghost old_bids = self@.auction_bids[auction_id as int];
        let st = self.auctions[idx];
        let root = extend_bids_root(st.bidding_merkle_root, &bid, Ghost(old_bids));
        self.auction_bids[idx].push(bid);
        proof {
            assert(self@.auction_bids =~= old(self)@.auction_bids.update(
                auction_id as int,
                old_bids.push(bid),
            ));
        }
        self.auctions[idx] = AuctionState {
            id: st.id,
            auction: st.auction,
            started_at: st.started_at,
            bidding_merkle_root: root,
            closed: st.closed,
        };
        proof {
            assert(self@.auctions =~= old(self)@.auctions.update(
                auction_id as int,
                AuctionState {
                    bidding_merkle_root: bids_root_spec(old_bids.push(bid)),
                    ..old(self)@.auctions[auction_id as int]
                },
            ));
        }
    }

    /// Drop the owl's entry from the owl-to-auction index.
    pub(crate) fn remove_owl_auction(&mut self, owl_id: u64)
        requires
            pairs_key_unique(old(self)@.owl_auction),
        ensures
            final(self)@ == (SchemaV {
                owl_auction: remove_pair_key(old(self)@.owl_auction, owl_id),
                ..old(self)@
            }),
    {
        let mut i: usize = 0;
        while i < self.owl_auction.len()
            invariant
                i <= self@.owl_auction.len(),
                self@.owl_auction.len() == self.owl_auction@.len(),
                pairs_key_unique(self@.owl_auction),
                self@ == old(self)@,
                forall|j: int| 0 <= j < i ==> self@.owl_auction[j].0 != owl_id,
            decreases self.owl_auction@.len() - i,
        {
            if self.owl_auction[i].0 == owl_id {
                proof {
                    lemma_pair_idx_is(self@.owl_auction, owl_id, i as int);
                }
                self.owl_auction.remove(i);
                proof {
                    assert(self@.owl_auction =~= remove_pair_key(old(self)@.owl_auction, owl_id));
                    assert(final(self)@ =~= (SchemaV {
                        owl_auction: remove_pair_key(old(self)@.owl_auction, owl_id),
                        ..old(self)@
                    }));
                }
                return ;
            }
            i = i + 1;
        }
        proof {
            assert(!pair_has(self@.owl_auction, owl_id));
        }
    }

    /// Hand an owl to a new owner: rewrite its state and move its entry in
    /// the owner index.
    pub(crate) fn transfer_owl(&mut self, id: u64, to: u64)
        requires
            owls_unique(old(self)@.owls_state),
            pairs_unique(old(self)@.user_owls),
            has_owl(old(self)@.owls_state, id),
        ensures
            final(self)@ == (SchemaV {
                owls_state: old(self)@.owls_state.update(
                    owl_idx(old(self)@.owls_state, id),
                    (id, OwlStateV { owner: to, ..owl_at(old(self)@.owls_state, id) }),
                ),
                user_owls: insert_pair(
                    remove_pair(
                        old(self)@.user_owls,
                        owl_at(old(self)@.owls_state, id).owner,
                        id,
                    ),
                    to,
                    id,
                ),
                ..old(self)@
            }),
    {
        let i = self.owl_position(id).unwrap();
        proof {
            lemma_owl_idx_is(self@.owls_state, id, i as int);
        }
        let prev_owner = self.owls_state[i].1.owner;
        let owl = self.owls_state[i].1.owl.clone();
        let last_breeding = self.owls_state[i].1.last_breeding;
        self.owls_state[i] = (id, CryptoOwlState { owl, owner: to, last_breeding });
        proof {
            assert(self@.owls_state =~= old(self)@.owls_state.update(
                owl_idx(old(self)@.owls_state, id),
                (id, OwlStateV { owner: to, ..owl_at(old(self)@.owls_state, id) }),
            ));
        }
        let ghost mid = self@;
        let mut j: usize = 0;
        let mut removed: bool = false;
        while j < self.user_owls.len() && !removed
            invariant
                j <= self@.user_owls.len(),
                self@.user_owls.len() == self.user_owls@.len(),
                mid.owls_state == self@.owls_state,
                mid.users == self@.users,
                mid.auctions == self@.auctions,
                mid.auction_bids == self@.auction_bids,
                mid.owl_auction == self@.owl_auction,
                mid.user_auctions == self@.user_auctions,
                !removed ==> self@.user_owls == mid.user_owls,
                !removed ==> forall|l: int|
                    0 <= l < j ==> self@.user_owls[l] != (prev_owner, id),
                removed ==> self@.user_owls == remove_pair(mid.user_owls, prev_owner, id),
                pairs_unique(mid.user_owls),
            decreases self.user_owls@.len() - j,
        {
            if self.user_owls[j].0 == prev_owner && self.user_owls[j].1 == id {
                proof {
                    assert(self@.user_owls[j as int] == (prev_owner, id));
                    lemma_pair_mem_idx_is(mid.user_owls, prev_owner, id, j as int);
                }
                self.user_owls.remove(j);
                removed = true;
                proof {
                    assert(self@.user_owls =~= remove_pair(mid.user_owls, prev_owner, id));
                }
            } else {
                j = j + 1;
            }
        }
        proof {
            if !removed {
                assert(!pair_mem(mid.user_owls, prev_owner, id));
                assert(self@.user_owls == remove_pair(mid.user_owls, prev_owner, id));
            }
        }
        if !self.user_owl_mem(to, id) {
            self.user_owls.push((to, id));
        }
        proof {
            assert(self@.user_owls =~= insert_pair(
                remove_pair(mid.user_owls, prev_owner, id),
                to,
                id,
            ));
            assert(final(self)@ =~= (SchemaV {
                owls_state: old(self)@.owls_state.update(
                    owl_idx(old(self)@.owls_state, id),
                    (id, OwlStateV { owner: to, ..owl_at(old(self)@.owls_state, id) }),
                ),
                user_owls: insert_pair(
                    remove_pair(
                        old(self)@.user_owls,
                        owl_at(old(self)@.owls_state, id).owner,
                        id,
                    ),
                    to,
                    id,
                ),
                ..old(self)@
            }));
        }
    }

    /// Close an expired open auction. If a bid stands, the winner's
    /// reservation is spent, the seller is credited the winning value, and
    /// the owl changes owner; either way the owl's index entry is dropped
    /// and the auction is irreversibly marked closed.
    ///
    /// The preconditions are the sweep's to establish: the auction is open,
    /// its deadline has passed, and the settlement credit stays in range.
    pub fn close_auction(&mut self, auction_id: u64, now: u64)
        requires
            crate::model::wf(old(self)@),
            auction_id < old(self)@.auctions.len(),
            !old(self)@.auctions[auction_id as int].closed,
            old(self)@.auctions[auction_id as int].spec_expired(now),
            crate::model::close_credit_fits(old(self)@, auction_id as int),
        ensures
            final(self)@ == crate::model::close_tr(old(self)@, auction_id as int),
            crate::model::wf(final(self)@),
            final(self)@.auctions.len() == old(self)@.auctions.len(),
            final(self)@.auctions[auction_id as int].closed,
            final(self)@.auction_bids == old(self)@.auction_bids,
    {
        let ghost s0 = self@;
        let ghost aid = auction_id as int;
        proof {
            crate::model::lemma_wf_close(s0, aid);
        }
        let st = self.get_auction(auction_id).unwrap();
        proof {
            assert(st == s0.auctions[aid]);
            assert(s0.auction_bids.len() == s0.auctions.len());
        }
        let standing = self.last_bid(auction_id);
        match standing {
            Some(winner_bid) => {
                let ghost wb = s0.auction_bids[aid].last();
                proof {
                    assert(winner_bid == wb);
                    assert(users_unique(s0.users));
                }
                self.confirm_user_bid(winner_bid.public_key, winner_bid.value);
                let ghost s1 = self@;
                proof {
                    let iw = user_idx(s0.users, wb.public_key);
                    lemma_user_idx_is(s0.users, wb.public_key, iw);
                    assert(s1.users == s0.users.update(
                        iw,
                        UserV {
                            reserved: (user_at(s0.users, wb.public_key).reserved
                                - wb.value) as u64,
                            ..user_at(s0.users, wb.public_key)
                        },
                    ));
                    assert forall|j: int| 0 <= j < s0.users.len() implies s1.users[j].public_key
                        == s0.users[j].public_key by {}
                    assert(users_unique(s1.users));
                    let is_ = user_idx(s0.users, st.auction.public_key);
                    lemma_user_idx_is(s0.users, st.auction.public_key, is_);
                    assert(s1.users[is_].public_key == st.auction.public_key);
                    lemma_user_idx_is(s1.users, st.auction.public_key, is_);
                    assert(is_ != iw);
                    assert(user_at(s1.users, st.auction.public_key) == user_at(
                        s0.users,
                        st.auction.public_key,
                    ));
                }
                self.increase_user_balance(st.auction.public_key, winner_bid.value, None);
                proof {
                    assert(self@.owls_state == s0.owls_state);
                    assert(self@.user_owls == s0.user_owls);
                    assert(has_owl(self@.owls_state, st.auction.owl_id));
                }
                self.transfer_owl(st.auction.owl_id, winner_bid.public_key);
            },
            None => {},
        }
        proof {
            assert(self@.owl_auction == s0.owl_auction);
            assert(pairs_key_unique(self@.owl_auction));
        }
        self.remove_owl_auction(st.auction.owl_id);
        self.set_auction_closed(auction_id);
        proof {
            assert(final(self)@ =~= crate::model::close_tr(s0, aid));
        }
    }

    /// Mark an auction closed.
    pub(crate) fn set_auction_closed(&mut self, auction_id: u64)
        requires
            auction_id < old(self)@.auctions.len(),
        ensures
            final(self)@ == (SchemaV {
                auctions: old(self)@.auctions.update(
                    auction_id as int,
                    AuctionState { closed: true, ..old(self)@.auctions[auction_id as int] },
                ),
                ..old(self)@
            }),
    {
        let n: usize = self.auctions.len();
        proof {
            assert(self@.auctions.len() == self.auctions@.len());
            assert((auction_id as int) < (n as int));
        }
        let idx: usize = auction_id as usize;
        let st = self.auctions[idx];
        self.auctions[idx] = AuctionState {
            id: st.id,
            auction: st.auction,
            started_at: st.started_at,
            bidding_merkle_root: st.bidding_merkle_root,
            closed: true,
        };
        proof {
            assert(self@.auctions =~= old(self)@.auctions.update(
                auction_id as int,
                AuctionState { closed: true, ..old(self)@.auctions[auction_id as int] },
            ));
        }
    }
}

} // verus!
