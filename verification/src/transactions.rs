//! The state-transition handlers: one per authored command. Each handler
//! validates its preconditions against the current state and either applies
//! a consistent set of table updates or fails with one typed error and no
//! partial effect.

use vstd::prelude::*;

verus! {

use crate::data_layout::{AuctionState, Bid, CryptoOwl, OwlV, UserV, User, owl_id_spec};
use crate::model::{
    SchemaV, bid_tr, has_owl, has_user, lemma_user_idx_is, lemma_wf_bid, lemma_wf_open_auction,
    lemma_wf_user_row, min_bid_of, open_auction_tr, owl_at, pair_has, refresh_fold, uniq_dna_ok,
    user_at, user_idx, wf,
};
use crate::schema::CryptoOwlsSchema;
use crate::{BREEDING_PRICE, BREEDING_TIMEOUT, ISSUE_AMOUNT, ISSUE_TIMEOUT};
use vstd::string::StringExecFns;

/// Crypto owls transactions: the typed payload of one authored command.
#[derive(Clone, Debug)]
pub enum Transactions {
    /// Create user transaction.
    CreateUser(CreateUser),
    /// Create auction transaction.
    CreateAuction(CreateAuction),
    /// Make new owl transaction.
    MakeOwl(MakeOwl),
    /// Make new bid transaction.
    MakeBid(MakeBid),
    /// Issue transaction.
    Issue(Issue),
}

/// One typed failure per rejected command.
#[derive(Clone, Copy, Debug, PartialEq, Eq, Structural)]
pub enum ErrorKind {
    /// Too early for breeding.
    EarlyBreeding,
    /// Too early for balance refill.
    EarlyIssue,
    /// Insufficient funds.
    InsufficientFunds,
    /// Not your property.
    AccessViolation,
    /// You need two different owls.
    SelfBreeding,
    /// User is already registered.
    UserAlreadyRegistered,
    /// Participant is not registered.
    UserIsNotRegistered,
    /// Owl does not exist.
    OwlNotFound,
    /// You do not own the item.
    OwlNotOwned,
    /// Owl is already auctioned.
    OwlAlreadyAuctioned,
    /// Auction does not exist.
    AuctionNotFound,
    /// Auction is closed.
    AuctionClosed,
    /// Bid is below the current highest bid.
    BidTooLow,
    /// Transaction is not authorized.
    UnauthorizedTransaction,
    /// You may not bid on your own item.
    NoSelfBidding,
    /// The draw cap on fresh genomes was reached. The construction redraws
    /// from the agreed stream on an identity collision; no practical state
    /// brings this about.
    DnaExhausted,
}

impl ErrorKind {
    /// Converts the error to its stable raw code.
    pub fn as_code(&self) -> (r: u8)
        ensures
            r == error_code(*self),
    {
        match self {
            ErrorKind::EarlyBreeding => 1,
            ErrorKind::EarlyIssue => 2,
            ErrorKind::InsufficientFunds => 3,
            ErrorKind::AccessViolation => 4,
            ErrorKind::SelfBreeding => 5,
            ErrorKind::UserAlreadyRegistered => 6,
            ErrorKind::UserIsNotRegistered => 7,
            ErrorKind::OwlNotFound => 8,
            ErrorKind::OwlNotOwned => 9,
            ErrorKind::OwlAlreadyAuctioned => 10,
            ErrorKind::AuctionNotFound => 11,
            ErrorKind::AuctionClosed => 12,
            ErrorKind::BidTooLow => 13,
            ErrorKind::UnauthorizedTransaction => 14,
            ErrorKind::NoSelfBidding => 15,
            ErrorKind::DnaExhausted => 16,
        }
    }
}

/// The stable small-integer code of each error.
pub open spec fn error_code(e: ErrorKind) -> u8 {
    match e {
        ErrorKind::EarlyBreeding => 1,
        ErrorKind::EarlyIssue => 2,
        ErrorKind::InsufficientFunds => 3,
        ErrorKind::AccessViolation => 4,
        ErrorKind::SelfBreeding => 5,
        ErrorKind::UserAlreadyRegistered => 6,
        ErrorKind::UserIsNotRegistered => 7,
        ErrorKind::OwlNotFound => 8,
        ErrorKind::OwlNotOwned => 9,
        ErrorKind::OwlAlreadyAuctioned => 10,
        ErrorKind::AuctionNotFound => 11,
        ErrorKind::AuctionClosed => 12,
        ErrorKind::BidTooLow => 13,
        ErrorKind::UnauthorizedTransaction => 14,
        ErrorKind::NoSelfBidding => 15,
        ErrorKind::DnaExhausted => 16,
    }
}

/// Whether a cooldown of `timeout` seconds has elapsed between `last` and
/// `now`.
pub open spec fn cooldown_elapsed(now: u64, last: u64, timeout: u64) -> bool {
    now >= last + timeout
}

/// Name of a new user's first starter owl.
pub open spec fn adam_name(name: Seq<char>) -> Seq<char> {
    name + "'s Adam"@
}

/// Name of a new user's second starter owl.
pub open spec fn eve_name(name: Seq<char>) -> Seq<char> {
    name + "'s Eve"@
}

/// Transaction to create a new user.
#[derive(Clone, Debug)]
pub struct CreateUser {
    /// Name.
    pub name: String,
}

/// Whether registering under `name` would run out of the draw cap on
/// either starter owl. Deterministic in the owl table, the name and the
/// two agreed seeds; no practical state satisfies it.
pub open spec fn create_user_exhausted(
    s: SchemaV,
    name: Seq<char>,
    state_hash: Seq<u8>,
    author_hash: Seq<u8>,
) -> bool {
    ||| crate::model::dna_exhausted(s.owls_state, 1, 0, adam_name(name), state_hash)
    ||| crate::model::dna_exhausted(s.owls_state, 1, 100042, eve_name(name), author_hash)
}

/// How a registration command is decided against state `s`, the draw cap
/// included: a duplicate key is rejected first, then the cap is the only
/// other way to fail.
pub open spec fn create_user_decision(
    s: SchemaV,
    author: u64,
    name: Seq<char>,
    state_hash: Seq<u8>,
    author_hash: Seq<u8>,
) -> Option<ErrorKind> {
    if has_user(s.users, author) {
        Some(ErrorKind::UserAlreadyRegistered)
    } else if create_user_exhausted(s, name, state_hash, author_hash) {
        Some(ErrorKind::DnaExhausted)
    } else {
        None
    }
}

impl CreateUser {
    /// Register a fresh identity with the initial stipend and breed its two
    /// starter owls from two distinct agreed seeds: the aggregate state
    /// root, and a hash of the new identity.
    #[verifier::rlimit(60)]
    pub fn execute(
        &self,
        schema: &mut CryptoOwlsSchema,
        author: u64,
        ts: u64,
        state_hash: &[u8; 32],
        author_hash: &[u8; 32],
    ) -> (r: Result<(), ErrorKind>)
        requires
            wf(old(schema)@),
        ensures
            wf(final(schema)@),
            r is Ok <==> create_user_decision(
                old(schema)@,
                author,
                self.name@,
                state_hash@,
                author_hash@,
            ) is None,
            r is Err ==> final(schema)@ == old(schema)@ && r == Result::<(), ErrorKind>::Err(
                create_user_decision(
                    old(schema)@,
                    author,
                    self.name@,
                    state_hash@,
                    author_hash@,
                )->Some_0,
            ),
            r is Ok ==> exists|d1: u32, d2: u32|
                #![trigger uniq_dna_ok(old(schema)@.owls_state, 1, 0, adam_name(self.name@), state_hash@, d1), uniq_dna_ok(old(schema)@.owls_state, 1, 100042, eve_name(self.name@), author_hash@, d2)]
                {
                    let s0 = old(schema)@;
                    let started = SchemaV {
                        users: s0.users.push(
                            UserV {
                                public_key: author,
                                name: self.name@,
                                balance: ISSUE_AMOUNT,
                                reserved: 0,
                                last_fillup: ts,
                            },
                        ),
                        ..s0
                    };
                    &&& uniq_dna_ok(s0.owls_state, 1, 0, adam_name(self.name@), state_hash@, d1)
                    &&& uniq_dna_ok(s0.owls_state, 1, 100042, eve_name(self.name@), author_hash@, d2)
                    &&& final(schema)@ == refresh_fold(
                        started,
                        author,
                        seq![
                            OwlV { name: adam_name(self.name@), dna: d1 },
                            OwlV { name: eve_name(self.name@), dna: d2 },
                        ],
                        ts,
                    )
                },
    {
        let ghost s0 = old(schema)@;
        // Reject the command if a user with the same key already exists.
        if schema.get_user(author).is_some() {
            return Err(ErrorKind::UserAlreadyRegistered);
        }
        // New user gets two starter owls with distinct seeds.
        let first_name = self.name.clone().concat("'s Adam");
        let adam = match schema.make_uniq_owl((1, 0), first_name.as_str(), state_hash) {
            Some(o) => o,
            None => {
                proof {
                    assert(first_name@ == adam_name(self.name@));
                    assert(create_user_exhausted(s0, self.name@, state_hash@, author_hash@));
                }
                return Err(ErrorKind::DnaExhausted);
            },
        };
        let second_name = self.name.clone().concat("'s Eve");
        let eve = match schema.make_uniq_owl((1, 100042), second_name.as_str(), author_hash) {
            Some(o) => o,
            None => {
                proof {
                    assert(second_name@ == eve_name(self.name@));
                    assert(create_user_exhausted(s0, self.name@, state_hash@, author_hash@));
                }
                return Err(ErrorKind::DnaExhausted);
            },
        };
        proof {
            assert(first_name@ == adam_name(self.name@));
            assert(second_name@ == eve_name(self.name@));
            assert(!create_user_exhausted(s0, self.name@, state_hash@, author_hash@));
        }
        let user = User {
            public_key: author,
            name: self.name.clone(),
            balance: ISSUE_AMOUNT,
            reserved: 0,
            last_fillup: ts,
        };
        let ghost d1 = adam@.dna;
        let ghost d2 = eve@.dna;
        proof {
            assert(adam@ == OwlV { name: adam_name(self.name@), dna: d1 });
            assert(eve@ == OwlV { name: eve_name(self.name@), dna: d2 });
            // Both starter identities are free in the current owl table.
            let k1 = choose|k: nat|
                crate::model::uniq_dna_at(
                    s0.owls_state,
                    1,
                    0,
                    adam_name(self.name@),
                    state_hash@,
                    d1,
                    k,
                );
            let k2 = choose|k: nat|
                crate::model::uniq_dna_at(
                    s0.owls_state,
                    1,
                    100042,
                    eve_name(self.name@),
                    author_hash@,
                    d2,
                    k,
                );
            assert(!has_owl(s0.owls_state, owl_id_spec(adam@)));
            assert(!has_owl(s0.owls_state, owl_id_spec(eve@)));
            crate::model::lemma_wf_starter_pack(s0, author, user@, adam@, eve@, ts);
        }
        schema.insert_user(user);
        let owls = vec![adam, eve];
        proof {
            assert(owls@.map_values(|o: CryptoOwl| o@) =~= seq![adam@, eve@]);
        }
        schema.refresh_owls(author, owls, ts);
        Ok(())
    }
}

/// Transaction to create an owl by breeding two parents.
#[derive(Clone, Debug)]
pub struct MakeOwl {
    /// Owl name.
    pub name: String,
    /// Father identifier.
    pub father_id: u64,
    /// Mother identifier.
    pub mother_id: u64,
    /// Nonce so that otherwise-identical commands hash distinctly.
    pub seed: u64,
}

/// How a breeding command is decided against state `s`, in the order the
/// checks run. The author must be registered.
pub open spec fn make_owl_outcome(
    s: SchemaV,
    author: u64,
    father_id: u64,
    mother_id: u64,
    ts: u64,
) -> Option<ErrorKind> {
    if !has_owl(s.owls_state, mother_id) || !has_owl(s.owls_state, father_id) {
        Some(ErrorKind::OwlNotFound)
    } else if owl_at(s.owls_state, mother_id).owner != author || owl_at(
        s.owls_state,
        father_id,
    ).owner != author {
        Some(ErrorKind::AccessViolation)
    } else if mother_id == father_id {
        Some(ErrorKind::SelfBreeding)
    } else if user_at(s.users, author).balance < BREEDING_PRICE {
        Some(ErrorKind::InsufficientFunds)
    } else if !cooldown_elapsed(ts, owl_at(s.owls_state, mother_id).last_breeding, BREEDING_TIMEOUT)
        || !cooldown_elapsed(ts, owl_at(s.owls_state, father_id).last_breeding, BREEDING_TIMEOUT) {
        Some(ErrorKind::EarlyBreeding)
    } else {
        None
    }
}

/// How a breeding command is decided, the draw cap included: after every
/// business check passes, the cap is the only other way to fail.
pub open spec fn make_owl_decision(
    s: SchemaV,
    author: u64,
    name: Seq<char>,
    father_id: u64,
    mother_id: u64,
    ts: u64,
    state_hash: Seq<u8>,
) -> Option<ErrorKind> {
    match make_owl_outcome(s, author, father_id, mother_id, ts) {
        Some(e) => Some(e),
        None => if crate::model::dna_exhausted(
            s.owls_state,
            owl_at(s.owls_state, father_id).owl.dna,
            owl_at(s.owls_state, mother_id).owl.dna,
            name,
            state_hash,
        ) {
            Some(ErrorKind::DnaExhausted)
        } else {
            None
        },
    }
}

/// The state a successful breeding leaves: offspring and parents recorded
/// with the breeding time refreshed, and the fee debited.
pub open spec fn make_owl_result(
    s: SchemaV,
    author: u64,
    name: Seq<char>,
    dna: u32,
    mother_id: u64,
    father_id: u64,
    ts: u64,
) -> SchemaV {
    let os = seq![
        OwlV { name, dna },
        owl_at(s.owls_state, mother_id).owl,
        owl_at(s.owls_state, father_id).owl,
    ];
    let s1 = refresh_fold(s, author, os, ts);
    SchemaV {
        users: s1.users.update(
            user_idx(s1.users, author),
            UserV {
                balance: (user_at(s1.users, author).balance - BREEDING_PRICE) as u64,
                ..user_at(s1.users, author)
            },
        ),
        ..s1
    }
}

impl MakeOwl {
    /// Breed a new owl from two distinct parents owned by the author, after
    /// both parents' cooldown: the offspring is generated deterministically
    /// from the agreed seed, and the breeding fee is debited.
    #[verifier::rlimit(60)]
    pub fn execute(
        &self,
        schema: &mut CryptoOwlsSchema,
        author: u64,
        ts: u64,
        state_hash: &[u8; 32],
    ) -> (r: Result<(), ErrorKind>)
        requires
            wf(old(schema)@),
            has_user(old(schema)@.users, author),
        ensures
            wf(final(schema)@),
            r is Ok <==> make_owl_decision(
                old(schema)@,
                author,
                self.name@,
                self.father_id,
                self.mother_id,
                ts,
                state_hash@,
            ) is None,
            r is Err ==> final(schema)@ == old(schema)@ && r == Result::<(), ErrorKind>::Err(
                make_owl_decision(
                    old(schema)@,
                    author,
                    self.name@,
                    self.father_id,
                    self.mother_id,
                    ts,
                    state_hash@,
                )->Some_0,
            ),
            r is Ok ==> exists|dna: u32|
                #![trigger uniq_dna_ok(
                    old(schema)@.owls_state,
                    owl_at(old(schema)@.owls_state, self.father_id).owl.dna,
                    owl_at(old(schema)@.owls_state, self.mother_id).owl.dna,
                    self.name@,
                    state_hash@,
                    dna,
                )]
                {
                    &&& uniq_dna_ok(
                        old(schema)@.owls_state,
                        owl_at(old(schema)@.owls_state, self.father_id).owl.dna,
                        owl_at(old(schema)@.owls_state, self.mother_id).owl.dna,
                        self.name@,
                        state_hash@,
                        dna,
                    )
                    &&& final(schema)@ == make_owl_result(
                        old(schema)@,
                        author,
                        self.name@,
                        dna,
                        self.mother_id,
                        self.father_id,
                        ts,
                    )
                },
    {
        let ghost s0 = old(schema)@;
        // Find mother and father; reject the command if either is missing.
        let mother = match schema.get_owl_state(self.mother_id) {
            Some(o) => o,
            None => {
                return Err(ErrorKind::OwlNotFound);
            },
        };
        let father = match schema.get_owl_state(self.father_id) {
            Some(o) => o,
            None => {
                return Err(ErrorKind::OwlNotFound);
            },
        };
        let user = schema.get_user(author).unwrap();
        // Check that the user owns these owls.
        if mother.owner != user.public_key || father.owner != user.public_key {
            return Err(ErrorKind::AccessViolation);
        }
        // The same owl cannot be mother and father at the same time.
        if self.mother_id == self.father_id {
            return Err(ErrorKind::SelfBreeding);
        }
        // Check that the user has enough funds for breeding.
        if user.balance < BREEDING_PRICE {
            return Err(ErrorKind::InsufficientFunds);
        }
        // Check the last breeding time of each parent.
        if !(ts >= mother.last_breeding && ts - mother.last_breeding >= BREEDING_TIMEOUT)
            || !(ts >= father.last_breeding && ts - father.last_breeding >= BREEDING_TIMEOUT) {
            return Err(ErrorKind::EarlyBreeding);
        }
        // All conditions are fulfilled: start breeding.
        proof {
            assert(user_at(s0.users, author).public_key == author);
            assert(make_owl_outcome(s0, author, self.father_id, self.mother_id, ts) is None);
        }
        let son = match schema.make_uniq_owl(
            (father.owl.dna, mother.owl.dna),
            self.name.as_str(),
            state_hash,
        ) {
            Some(o) => o,
            None => {
                proof {
                    assert(crate::model::dna_exhausted(
                        s0.owls_state,
                        owl_at(s0.owls_state, self.father_id).owl.dna,
                        owl_at(s0.owls_state, self.mother_id).owl.dna,
                        self.name@,
                        state_hash@,
                    ));
                }
                return Err(ErrorKind::DnaExhausted);
            },
        };
        proof {
            assert(!crate::model::dna_exhausted(
                s0.owls_state,
                owl_at(s0.owls_state, self.father_id).owl.dna,
                owl_at(s0.owls_state, self.mother_id).owl.dna,
                self.name@,
                state_hash@,
            ));
        }
        let ghost dna = son@.dna;
        proof {
            assert(son@ == OwlV { name: self.name@, dna });
            let k = choose|k: nat|
                crate::model::uniq_dna_at(
                    s0.owls_state,
                    father.owl@.dna,
                    mother.owl@.dna,
                    self.name@,
                    state_hash@,
                    dna,
                    k,
                );
            assert(!has_owl(s0.owls_state, owl_id_spec(son@)));
            crate::model::lemma_wf_breed(s0, author, son@, self.mother_id, self.father_id, ts);
        }
        let owls_to_update = vec![son, mother.owl, father.owl];
        proof {
            assert(owls_to_update@.map_values(|o: CryptoOwl| o@) =~= seq![
                OwlV { name: self.name@, dna },
                owl_at(s0.owls_state, self.mother_id).owl,
                owl_at(s0.owls_state, self.father_id).owl,
            ]);
        }
        schema.refresh_owls(author, owls_to_update, ts);
        proof {
            assert(schema@.users == s0.users);
            let i = user_idx(s0.users, author);
            lemma_user_idx_is(s0.users, author, i);
            lemma_wf_user_row(
                schema@,
                i,
                UserV {
                    balance: (user_at(s0.users, author).balance - BREEDING_PRICE) as u64,
                    ..user_at(s0.users, author)
                },
            );
        }
        schema.decrease_user_balance(author, BREEDING_PRICE);
        Ok(())
    }
}

/// Transaction to issue funds.
#[derive(Clone, Debug, PartialEq, Eq, Structural)]
pub struct Issue {
    /// Nonce so that otherwise-identical commands hash distinctly.
    pub seed: u64,
}

/// How an issue command is decided against state `s`: too early, or
/// accepted. The author must be registered.
pub open spec fn issue_outcome(s: SchemaV, author: u64, ts: u64) -> Option<ErrorKind> {
    if !cooldown_elapsed(ts, user_at(s.users, author).last_fillup, ISSUE_TIMEOUT) {
        Some(ErrorKind::EarlyIssue)
    } else {
        None
    }
}

impl Issue {
    /// Credit the author the fixed stipend, once per cooldown period.
    pub fn execute(&self, schema: &mut CryptoOwlsSchema, author: u64, ts: u64) -> (r: Result<
        (),
        ErrorKind,
    >)
        requires
            wf(old(schema)@),
            has_user(old(schema)@.users, author),
            issue_outcome(old(schema)@, author, ts) is None ==> user_at(
                old(schema)@.users,
                author,
            ).balance + ISSUE_AMOUNT + user_at(old(schema)@.users, author).reserved <= u64::MAX,
        ensures
            wf(final(schema)@),
            r is Ok <==> issue_outcome(old(schema)@, author, ts) is None,
            r is Err ==> r == Result::<(), ErrorKind>::Err(
                issue_outcome(old(schema)@, author, ts)->Some_0,
            ) && final(schema)@ == old(schema)@,
            r is Ok ==> final(schema)@ == (SchemaV {
                users: old(schema)@.users.update(
                    user_idx(old(schema)@.users, author),
                    UserV {
                        balance: (user_at(old(schema)@.users, author).balance
                            + ISSUE_AMOUNT) as u64,
                        last_fillup: ts,
                        ..user_at(old(schema)@.users, author)
                    },
                ),
                ..old(schema)@
            }),
    {
        let user = schema.get_user(author).unwrap();
        if !(ts >= user.last_fillup && ts - user.last_fillup >= ISSUE_TIMEOUT) {
            // Issue timeout is not expired.
            return Err(ErrorKind::EarlyIssue);
        }
        schema.increase_user_balance(author, ISSUE_AMOUNT, Some(ts));
        proof {
            let i = user_idx(old(schema)@.users, author);
            lemma_user_idx_is(old(schema)@.users, author, i);
            lemma_wf_user_row(
                old(schema)@,
                i,
                UserV {
                    balance: (user_at(old(schema)@.users, author).balance + ISSUE_AMOUNT) as u64,
                    last_fillup: ts,
                    ..user_at(old(schema)@.users, author)
                },
            );
        }
        Ok(())
    }
}

/// Transaction to put an owl up for auction.
#[derive(Clone, Copy, Debug, PartialEq, Eq, Structural)]
pub struct CreateAuction {
    /// Owl with this identifier is auctioned.
    pub owl_id: u64,
    /// Start price.
    pub start_price: u64,
    /// Bids run during `duration` seconds starting from the start time.
    pub duration: u64,
}

/// How a listing command is decided against state `s`.
pub open spec fn create_auction_outcome(s: SchemaV, author: u64, owl_id: u64) -> Option<
    ErrorKind,
> {
    if !has_user(s.users, author) {
        Some(ErrorKind::UserIsNotRegistered)
    } else if !has_owl(s.owls_state, owl_id) {
        Some(ErrorKind::OwlNotFound)
    } else if owl_at(s.owls_state, owl_id).owner != author {
        Some(ErrorKind::OwlNotOwned)
    } else if pair_has(s.owl_auction, owl_id) {
        Some(ErrorKind::OwlAlreadyAuctioned)
    } else {
        None
    }
}

impl CreateAuction {
    /// The auction state a successful listing appends.
    pub open spec fn spec_new_state(&self, s: SchemaV, author: u64, ts: u64) -> AuctionState {
        AuctionState {
            id: s.auctions.len() as u64,
            auction: crate::data_layout::Auction {
                public_key: author,
                owl_id: self.owl_id,
                start_price: self.start_price,
                duration: self.duration,
            },
            started_at: ts,
            bidding_merkle_root: 0,
            closed: false,
        }
    }

    /// List an owned, unlisted owl: append a fresh open auction and index
    /// it to the owl and the seller.
    pub fn execute(&self, schema: &mut CryptoOwlsSchema, author: u64, ts: u64) -> (r: Result<
        (),
        ErrorKind,
    >)
        requires
            wf(old(schema)@),
            old(schema)@.auctions.len() < u64::MAX,
        ensures
            wf(final(schema)@),
            r is Ok <==> create_auction_outcome(old(schema)@, author, self.owl_id) is None,
            r is Err ==> r == Result::<(), ErrorKind>::Err(
                create_auction_outcome(old(schema)@, author, self.owl_id)->Some_0,
            ) && final(schema)@ == old(schema)@,
            r is Ok ==> final(schema)@ == open_auction_tr(
                old(schema)@,
                self.spec_new_state(old(schema)@, author, ts),
            ),
    {
        // Check if the user is registered.
        let user = match schema.get_user(author) {
            Some(u) => u,
            None => {
                return Err(ErrorKind::UserIsNotRegistered);
            },
        };
        // Check if the owl exists.
        let owl = match schema.get_owl_state(self.owl_id) {
            Some(o) => o,
            None => {
                return Err(ErrorKind::OwlNotFound);
            },
        };
        // Check if the user owns the owl.
        if owl.owner != user.public_key {
            return Err(ErrorKind::OwlNotOwned);
        }
        // Check if the owl isn't auctioned already.
        if schema.open_auction_of(self.owl_id).is_some() {
            return Err(ErrorKind::OwlAlreadyAuctioned);
        }
        // Establish a new auction.
        let auction_id = schema.auctions().len() as u64;
        let state = AuctionState {
            id: auction_id,
            auction: crate::data_layout::Auction {
                public_key: author,
                owl_id: self.owl_id,
                start_price: self.start_price,
                duration: self.duration,
            },
            started_at: ts,
            bidding_merkle_root: 0,
            closed: false,
        };
        proof {
            lemma_wf_open_auction(old(schema)@, state);
        }
        schema.push_auction_state(state);
        schema.insert_owl_auction(self.owl_id, auction_id);
        schema.push_user_auction(author, auction_id);
        proof {
            assert(final(schema)@ =~= open_auction_tr(
                old(schema)@,
                self.spec_new_state(old(schema)@, author, ts),
            ));
        }
        Ok(())
    }
}

/// Transaction to bid in an open auction.
#[derive(Clone, Copy, Debug, PartialEq, Eq, Structural)]
pub struct MakeBid {
    /// Auction in which a bid is made.
    pub auction_id: u64,
    /// Bid value.
    pub value: u64,
}

/// How a bid command is decided against state `s`, in the order the checks
/// run.
pub open spec fn make_bid_outcome(s: SchemaV, author: u64, auction_id: u64, value: u64) -> Option<
    ErrorKind,
> {
    if !has_user(s.users, author) {
        Some(ErrorKind::UserIsNotRegistered)
    } else if auction_id >= s.auctions.len() {
        Some(ErrorKind::AuctionNotFound)
    } else if s.auctions[auction_id as int].closed {
        Some(ErrorKind::AuctionClosed)
    } else if user_at(s.users, author).balance < value {
        Some(ErrorKind::InsufficientFunds)
    } else if author == s.auctions[auction_id as int].auction.public_key {
        Some(ErrorKind::NoSelfBidding)
    } else if min_bid_of(s, auction_id as int) >= value {
        Some(ErrorKind::BidTooLow)
    } else {
        None
    }
}

impl MakeBid {
    /// Bid in an open auction: the standing bidder, if any, is refunded in
    /// full, and the new bidder's value moves from balance to reservation.
    pub fn execute(&self, schema: &mut CryptoOwlsSchema, author: u64) -> (r: Result<
        (),
        ErrorKind,
    >)
        requires
            wf(old(schema)@),
        ensures
            wf(final(schema)@),
            r is Ok <==> make_bid_outcome(old(schema)@, author, self.auction_id, self.value)
                is None,
            r is Err ==> r == Result::<(), ErrorKind>::Err(
                make_bid_outcome(old(schema)@, author, self.auction_id, self.value)->Some_0,
            ) && final(schema)@ == old(schema)@,
            r is Ok ==> final(schema)@ == bid_tr(
                old(schema)@,
                self.auction_id as int,
                author,
                self.value,
            ),
    {
        let ghost s0 = old(schema)@;
        let ghost aid = self.auction_id as int;
        // Check if the user is registered.
        let user = match schema.get_user(author) {
            Some(u) => u,
            None => {
                return Err(ErrorKind::UserIsNotRegistered);
            },
        };
        // Check if the auction exists.
        let auction_state = match schema.get_auction(self.auction_id) {
            Some(a) => a,
            None => {
                return Err(ErrorKind::AuctionNotFound);
            },
        };
        // Check if the auction is open.
        if auction_state.closed {
            return Err(ErrorKind::AuctionClosed);
        }
        // Check if the user has enough funds.
        if user.balance < self.value {
            return Err(ErrorKind::InsufficientFunds);
        }
        // Bidding in one's own auction is prohibited.
        if user.public_key == auction_state.auction.public_key {
            return Err(ErrorKind::NoSelfBidding);
        }
        // Get the bid to beat.
        proof {
            assert(s0.auction_bids.len() == s0.auctions.len());
        }
        let min_bid = match schema.last_bid(self.auction_id) {
            Some(bid) => bid.value,
            None => auction_state.auction.start_price,
        };
        // Check if the bid is higher than the bid to beat.
        if min_bid >= self.value {
            return Err(ErrorKind::BidTooLow);
        }
        proof {
            assert(min_bid == min_bid_of(s0, aid));
            lemma_wf_bid(s0, aid, author, self.value);
        }
        // Release the balance of the previous bidder, if any.
        let prev = schema.last_bid(self.auction_id);
        match prev {
            Some(b) => {
                self.release_and_reserve(schema, author, b, Ghost(s0));
            },
            None => {
                schema.reserve_user_balance(author, self.value);
            },
        }
        // Make the bid and refresh the stored root of the bid history.
        let bid = Bid { public_key: author, value: self.value };
        schema.append_bid(self.auction_id, bid);
        proof {
            assert(final(schema)@ =~= bid_tr(s0, aid, author, self.value));
        }
        Ok(())
    }

    /// Refund the outbid bidder, then reserve the new bidder's value.
    fn release_and_reserve(
        &self,
        schema: &mut CryptoOwlsSchema,
        author: u64,
        b: Bid,
        Ghost(s0): Ghost<SchemaV>,
    )
        requires
            wf(s0),
            old(schema)@ == s0,
            0 <= self.auction_id < s0.auctions.len(),
            s0.auction_bids.len() == s0.auctions.len(),
            !s0.auctions[self.auction_id as int].closed,
            s0.auction_bids[self.auction_id as int].len() > 0,
            b == s0.auction_bids[self.auction_id as int].last(),
            has_user(s0.users, author),
            author != s0.auctions[self.auction_id as int].auction.public_key,
            user_at(s0.users, author).balance >= self.value,
            self.value > min_bid_of(s0, self.auction_id as int),
        ensures
            ({
                let pu = user_at(s0.users, b.public_key);
                let users1 = s0.users.update(
                    user_idx(s0.users, b.public_key),
                    UserV {
                        balance: (pu.balance + b.value) as u64,
                        reserved: (pu.reserved - b.value) as u64,
                        ..pu
                    },
                );
                let bu = user_at(users1, author);
                final(schema)@ == (SchemaV {
                    users: users1.update(
                        user_idx(users1, author),
                        UserV {
                            balance: (bu.balance - self.value) as u64,
                            reserved: (bu.reserved + self.value) as u64,
                            ..bu
                        },
                    ),
                    ..s0
                })
            }),
    {
        let ghost aid = self.auction_id as int;
        proof {
            lemma_wf_bid(s0, aid, author, self.value);
            assert(has_user(s0.users, b.public_key)) by {
                assert(s0.auction_bids[aid][s0.auction_bids[aid].len() - 1].public_key
                    == b.public_key);
            }
        }
        schema.release_user_balance(b.public_key, b.value);
        let ghost s1 = schema@;
        proof {
            let ip = user_idx(s0.users, b.public_key);
            lemma_user_idx_is(s0.users, b.public_key, ip);
            assert forall|j: int| 0 <= j < s0.users.len() implies s1.users[j].public_key
                == s0.users[j].public_key by {}
            assert(crate::model::users_unique(s1.users));
            let ib = user_idx(s0.users, author);
            lemma_user_idx_is(s0.users, author, ib);
            assert(s1.users[ib].public_key == author);
            lemma_user_idx_is(s1.users, author, ib);
            let bu = user_at(s1.users, author);
            assert(bu.balance >= self.value && bu.reserved + self.value <= u64::MAX) by {
                let u0 = user_at(s0.users, author);
                assert(u0.balance + u0.reserved <= u64::MAX);
                assert(user_at(s0.users, b.public_key).reserved >= b.value);
                if b.public_key == author {
                    assert(bu.balance == u0.balance + b.value);
                    assert(bu.balance + bu.reserved == u0.balance + u0.reserved);
                } else {
                    assert(bu == u0);
                }
            }
        }
        schema.reserve_user_balance(author, self.value);
    }
}

} // verus!
