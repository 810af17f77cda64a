//! Property checks on concrete values: determinism of breeding, the auction
//! invariants, the reservation accounting, and the content hashes.

use cryptoowls::data_layout::{AuctionState, Auction, Bid, CryptoOwl, bids_root};
use cryptoowls::rng::seed_words;
use cryptoowls::schema::CryptoOwlsSchema;
use cryptoowls::service::CryptoOwlsService;
use cryptoowls::transactions::{CreateAuction, CreateUser, ErrorKind, MakeBid, MakeOwl};
use cryptoowls::{BREEDING_PRICE, ISSUE_AMOUNT};

fn seed(b: u8) -> [u8; 32] {
    [b; 32]
}

fn register(schema: &mut CryptoOwlsSchema, name: &str, pk: u64, ts: u64, tag: u8) {
    let r = CreateUser { name: name.to_owned() }.execute(schema, pk, ts, &seed(tag), &seed(tag + 1));
    assert!(r.is_ok());
}

#[test]
fn test_duplicate_registration() {
    let mut schema = CryptoOwlsSchema::new();
    register(&mut schema, "Alice", 1, 1_000, 20);
    let r = CreateUser { name: "Alice".to_owned() }
        .execute(&mut schema, 1, 1_100, &seed(22), &seed(23));
    assert_eq!(r, Err(ErrorKind::UserAlreadyRegistered));
    // The two starter owls differ in DNA.
    let owls = schema.user_owls(1);
    assert_eq!(owls.len(), 2);
    let a = schema.get_owl_state(owls[0]).unwrap();
    let b = schema.get_owl_state(owls[1]).unwrap();
    assert_ne!(a.owl.dna, b.owl.dna);
}

#[test]
fn test_breeding_determinism() {
    // Two nodes replaying the same commands from the same state reach the
    // identical genomes.
    let mut node_a = CryptoOwlsSchema::new();
    let mut node_b = CryptoOwlsSchema::new();
    for node in [&mut node_a, &mut node_b] {
        register(node, "Alice", 1, 1_000, 30);
        let owls = node.user_owls(1);
        let r = MakeOwl { name: "Abel".to_owned(), father_id: owls[0], mother_id: owls[1], seed: 7 }
            .execute(node, 1, 1_200, &seed(33));
        assert!(r.is_ok());
    }
    let owls_a: Vec<u32> = node_a
        .user_owls(1)
        .iter()
        .map(|id| node_a.get_owl_state(*id).unwrap().owl.dna)
        .collect();
    let owls_b: Vec<u32> = node_b
        .user_owls(1)
        .iter()
        .map(|id| node_b.get_owl_state(*id).unwrap().owl.dna)
        .collect();
    assert_eq!(owls_a, owls_b);

    // The generator itself is a function of its arguments alone.
    let schema = CryptoOwlsSchema::new();
    let o1 = schema.make_uniq_owl((17, 42), "Twin", &seed(35)).unwrap();
    let o2 = schema.make_uniq_owl((17, 42), "Twin", &seed(35)).unwrap();
    assert_eq!(o1.dna, o2.dna);
    assert_eq!(o1.name, o2.name);
}

#[test]
fn test_breeding_fee_and_offspring() {
    let mut schema = CryptoOwlsSchema::new();
    register(&mut schema, "Alice", 1, 1_000, 36);
    let owls = schema.user_owls(1);
    let father = schema.get_owl_state(owls[0]).unwrap().owl.dna;
    let mother = schema.get_owl_state(owls[1]).unwrap().owl.dna;
    let r = MakeOwl { name: "Abel".to_owned(), father_id: owls[0], mother_id: owls[1], seed: 9 }
        .execute(&mut schema, 1, 1_200, &seed(38));
    assert!(r.is_ok());
    let user = schema.get_user(1).unwrap();
    assert_eq!(user.balance, ISSUE_AMOUNT - BREEDING_PRICE);
    let now = schema.user_owls(1);
    let child_id = now.iter().copied().find(|id| !owls.contains(id)).unwrap();
    let child = schema.get_owl_state(child_id).unwrap();
    assert_ne!(child.owl.dna, father);
    assert_ne!(child.owl.dna, mother);
}

#[test]
fn test_breeding_by_stranger() {
    let mut schema = CryptoOwlsSchema::new();
    register(&mut schema, "Alice", 1, 1_000, 40);
    register(&mut schema, "Bob", 2, 1_000, 42);
    let owls = schema.user_owls(1);
    let r = MakeOwl { name: "Theft".to_owned(), father_id: owls[0], mother_id: owls[1], seed: 1 }
        .execute(&mut schema, 2, 1_200, &seed(44));
    assert_eq!(r, Err(ErrorKind::AccessViolation));
}

#[test]
fn test_single_open_auction_per_owl() {
    let mut schema = CryptoOwlsSchema::new();
    register(&mut schema, "Alice", 1, 1_000, 46);
    register(&mut schema, "Bob", 2, 1_000, 48);
    let owl = schema.user_owls(1)[0];
    let r = CreateAuction { owl_id: owl, start_price: 10, duration: 100 }
        .execute(&mut schema, 1, 1_000);
    assert!(r.is_ok());
    // While the auction is open, the owl cannot be listed again.
    let r = CreateAuction { owl_id: owl, start_price: 5, duration: 100 }
        .execute(&mut schema, 1, 1_010);
    assert_eq!(r, Err(ErrorKind::OwlAlreadyAuctioned));
    // After settlement, the new owner may list it afresh.
    let r = MakeBid { auction_id: 0, value: 15 }.execute(&mut schema, 2);
    assert!(r.is_ok());
    CryptoOwlsService.before_commit(&mut schema, 1_100);
    assert!(schema.get_auction(0).unwrap().closed);
    assert_eq!(schema.get_owl_state(owl).unwrap().owner, 2);
    let r = CreateAuction { owl_id: owl, start_price: 1, duration: 50 }
        .execute(&mut schema, 2, 1_200);
    assert!(r.is_ok());
    assert_eq!(schema.open_auction_of(owl), Some(1));
}

#[test]
fn test_bid_rules() {
    let mut schema = CryptoOwlsSchema::new();
    register(&mut schema, "Alice", 1, 1_000, 50);
    register(&mut schema, "Bob", 2, 1_000, 52);
    let owl = schema.user_owls(1)[0];
    let r = CreateAuction { owl_id: owl, start_price: 10, duration: 1_000 }
        .execute(&mut schema, 1, 1_000);
    assert!(r.is_ok());
    // A seller bidding on their own auction is rejected.
    let r = MakeBid { auction_id: 0, value: 20 }.execute(&mut schema, 1);
    assert_eq!(r, Err(ErrorKind::NoSelfBidding));
    // A bid at the start price is rejected.
    let r = MakeBid { auction_id: 0, value: 10 }.execute(&mut schema, 2);
    assert_eq!(r, Err(ErrorKind::BidTooLow));
    // A bid beyond the bidder's balance is rejected.
    let r = MakeBid { auction_id: 0, value: 150 }.execute(&mut schema, 2);
    assert_eq!(r, Err(ErrorKind::InsufficientFunds));
    // A bid above the start price is accepted; matching it again is not.
    let r = MakeBid { auction_id: 0, value: 20 }.execute(&mut schema, 2);
    assert!(r.is_ok());
    let r = MakeBid { auction_id: 0, value: 20 }.execute(&mut schema, 2);
    assert_eq!(r, Err(ErrorKind::BidTooLow));
    // The history is strictly increasing.
    let bids = schema.auction_bids(0);
    for w in bids.windows(2) {
        assert!(w[0].value < w[1].value);
    }
    // An unregistered participant cannot bid.
    let r = MakeBid { auction_id: 0, value: 30 }.execute(&mut schema, 99);
    assert_eq!(r, Err(ErrorKind::UserIsNotRegistered));
}

#[test]
fn test_sweep_timing() {
    let mut schema = CryptoOwlsSchema::new();
    register(&mut schema, "Alice", 1, 1_000, 54);
    register(&mut schema, "Bob", 2, 1_000, 56);
    let owl = schema.user_owls(1)[0];
    let r = CreateAuction { owl_id: owl, start_price: 10, duration: 1_000 }
        .execute(&mut schema, 1, 1_000);
    assert!(r.is_ok());
    let r = MakeBid { auction_id: 0, value: 20 }.execute(&mut schema, 2);
    assert!(r.is_ok());
    // Sweeping before the deadline is a no-op.
    CryptoOwlsService.before_commit(&mut schema, 1_999);
    assert!(!schema.get_auction(0).unwrap().closed);
    assert_eq!(schema.get_user(2).unwrap().reserved, 20);
    // At the deadline the auction settles.
    CryptoOwlsService.before_commit(&mut schema, 2_000);
    assert!(schema.get_auction(0).unwrap().closed);
    assert_eq!(schema.get_user(1).unwrap().balance, ISSUE_AMOUNT + 20);
    assert_eq!(schema.get_user(2).unwrap().reserved, 0);
    assert_eq!(schema.get_owl_state(owl).unwrap().owner, 2);
    // A repeated sweep changes nothing.
    let alice_before = schema.get_user(1).unwrap();
    CryptoOwlsService.before_commit(&mut schema, 2_100);
    let alice_after = schema.get_user(1).unwrap();
    assert_eq!(alice_before.balance, alice_after.balance);
    assert_eq!(alice_before.reserved, alice_after.reserved);
    assert!(schema.get_auction(0).unwrap().closed);
    // Bidding on the closed auction is rejected.
    let r = MakeBid { auction_id: 0, value: 40 }.execute(&mut schema, 2);
    assert_eq!(r, Err(ErrorKind::AuctionClosed));
}

#[test]
fn test_listing_rules() {
    let mut schema = CryptoOwlsSchema::new();
    register(&mut schema, "Alice", 1, 1_000, 58);
    register(&mut schema, "Bob", 2, 1_000, 60);
    let alice_owl = schema.user_owls(1)[0];
    // A stranger cannot list someone else's owl.
    let r = CreateAuction { owl_id: alice_owl, start_price: 10, duration: 100 }
        .execute(&mut schema, 2, 1_000);
    assert_eq!(r, Err(ErrorKind::OwlNotOwned));
    // An unregistered seller is rejected.
    let r = CreateAuction { owl_id: alice_owl, start_price: 10, duration: 100 }
        .execute(&mut schema, 99, 1_000);
    assert_eq!(r, Err(ErrorKind::UserIsNotRegistered));
}

#[test]
fn test_owl_identity_hash() {
    let empty = CryptoOwl { name: String::new(), dna: 0 };
    assert_eq!(empty.id(), 5558979605539197941u64);
    let a5 = CryptoOwl { name: "A".to_owned(), dna: 5 };
    assert_eq!(a5.id(), 271962337042698899u64);
    // Identity depends on the name as well as on the genome.
    let b5 = CryptoOwl { name: "B".to_owned(), dna: 5 };
    assert_ne!(a5.id(), b5.id());
    let a6 = CryptoOwl { name: "A".to_owned(), dna: 6 };
    assert_ne!(a5.id(), a6.id());
}

#[test]
fn test_bids_root_hash() {
    assert_eq!(bids_root(&vec![]), 0);
    let one = vec![Bid { public_key: 2, value: 20 }];
    assert_eq!(bids_root(&one), 2798070979563490850u64);
    let two = vec![Bid { public_key: 2, value: 20 }, Bid { public_key: 3, value: 30 }];
    assert_eq!(bids_root(&two), 14340819181849264017u64);
}

#[test]
fn test_seed_words_big_endian() {
    let mut s = [0u8; 32];
    for (i, b) in s.iter_mut().enumerate() {
        *b = (i + 1) as u8;
    }
    let words = seed_words(&s);
    assert_eq!(words, [0x01020304, 0x05060708, 0x090a0b0c, 0x0d0e0f10]);
}

#[test]
fn test_seed_decides_genome() {
    // The same seed draws the same genome; a different seed draws another.
    let schema = CryptoOwlsSchema::new();
    let a = schema.make_uniq_owl((17, 42), "Twin", &seed(90)).unwrap();
    let b = schema.make_uniq_owl((17, 42), "Twin", &seed(90)).unwrap();
    let c = schema.make_uniq_owl((17, 42), "Twin", &seed(91)).unwrap();
    assert_eq!(a.dna, b.dna);
    assert_ne!(a.dna, c.dna);
}

#[test]
fn test_auction_deadline() {
    let st = AuctionState {
        id: 0,
        auction: Auction { public_key: 1, owl_id: 2, start_price: 10, duration: 1_000 },
        started_at: 5_000,
        bidding_merkle_root: 0,
        closed: false,
    };
    assert_eq!(st.ends_at(), 6_000);
    assert!(!st.expired(5_999));
    assert!(st.expired(6_000));
    let late = AuctionState { started_at: u64::MAX - 5, ..st };
    assert_eq!(late.ends_at(), u64::MAX);
}
