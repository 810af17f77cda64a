//! End-to-end exercises of the transaction handlers on an in-memory ledger.

use cryptoowls::data_layout::bids_root;
use cryptoowls::schema::CryptoOwlsSchema;
use cryptoowls::service::{CryptoOwlsApi, CryptoOwlsService};
use cryptoowls::transactions::{CreateAuction, CreateUser, ErrorKind, Issue, MakeBid, MakeOwl};
use cryptoowls::ISSUE_AMOUNT;

fn seed(b: u8) -> [u8; 32] {
    [b; 32]
}

fn register(schema: &mut CryptoOwlsSchema, name: &str, pk: u64, ts: u64, tag: u8) {
    let r = CreateUser { name: name.to_owned() }.execute(schema, pk, ts, &seed(tag), &seed(tag + 1));
    assert!(r.is_ok());
}

#[test]
fn test_create_user() {
    let mut schema = CryptoOwlsSchema::new();
    let pk: u64 = 11;
    register(&mut schema, "Alice", pk, 1_000, 40);

    let user = schema.get_user(pk).expect("No user persisted");

    let owl_states = CryptoOwlsApi::get_owls(&schema);
    let user_owls = schema.user_owls(pk);

    assert_eq!(user_owls.len(), 2);
    assert_ne!(owl_states[0].owl.dna, owl_states[1].owl.dna);

    for state in &owl_states {
        assert!(user_owls.contains(&state.owl.id()));
        assert_eq!(state.owner, pk);
    }

    // The starter owls carry the owner's name.
    let names: Vec<&str> = owl_states.iter().map(|s| s.owl.name.as_str()).collect();
    assert!(names.contains(&"Alice's Adam"));
    assert!(names.contains(&"Alice's Eve"));

    assert_eq!(user.public_key, pk);
    assert_eq!(user.name, "Alice");
    assert_eq!(user.balance, 100);
}

#[test]
fn test_issue() {
    let mut schema = CryptoOwlsSchema::new();
    let pk: u64 = 21;
    register(&mut schema, "Scott", pk, 1_000, 50);

    // It is impossible to issue right after the creation of the user.
    let r = Issue { seed: 1 }.execute(&mut schema, pk, 1_000);
    assert_eq!(r, Err(ErrorKind::EarlyIssue));

    let user = schema.get_user(pk).expect("No user persisted");
    assert_eq!(user.balance, 100);

    // Move into the future.
    let r = Issue { seed: 2 }.execute(&mut schema, pk, 1_200);
    assert!(r.is_ok());

    let user = schema.get_user(pk).expect("No user persisted");
    assert_eq!(user.balance, 200);
}

#[test]
fn test_breeding() {
    let mut schema = CryptoOwlsSchema::new();
    let pk: u64 = 31;
    register(&mut schema, "Alice", pk, 1_000, 60);

    let old_states = CryptoOwlsApi::get_owls(&schema);
    let user_owls = schema.user_owls(pk);

    // Newborns cannot breed yet.
    let r = MakeOwl {
        name: "Abel".to_owned(),
        father_id: user_owls[0],
        mother_id: user_owls[1],
        seed: 1,
    }
    .execute(&mut schema, pk, 1_000, &seed(62));
    assert_eq!(r, Err(ErrorKind::EarlyBreeding));
    assert_eq!(schema.user_owls(pk).len(), 2);

    // Some time passes; now they have grown up enough to breed.
    let r = MakeOwl {
        name: "Abel".to_owned(),
        father_id: user_owls[0],
        mother_id: user_owls[1],
        seed: 2,
    }
    .execute(&mut schema, pk, 1_200, &seed(63));
    assert!(r.is_ok());

    let user_owls_now = schema.user_owls(pk);
    assert_eq!(user_owls_now.len(), 3);

    let new_owl_states = CryptoOwlsApi::get_owls(&schema);
    for owl_state in &new_owl_states {
        let id = owl_state.owl.id();
        if let Some(old_state) = old_states.iter().find(|o| o.owl.id() == id) {
            assert!(old_state.last_breeding < owl_state.last_breeding);
        } else {
            assert_eq!(owl_state.owl.name, "Abel");
            // The DNA should not be the same as the parents have.
            assert_ne!(owl_state.owl.dna, 0u32);
            assert_eq!(owl_state.owner, pk);
        }
    }

    // An owl cannot be made from one parent.
    let r = MakeOwl {
        name: "Bastard".to_owned(),
        father_id: user_owls[0],
        mother_id: user_owls[0],
        seed: 3,
    }
    .execute(&mut schema, pk, 1_400, &seed(64));
    assert_eq!(r, Err(ErrorKind::SelfBreeding));
    // Same as before.
    assert_eq!(schema.user_owls(pk).len(), 3);
}

#[test]
fn test_sell_owl() {
    let mut schema = CryptoOwlsSchema::new();
    let alice: u64 = 41;
    let bob: u64 = 42;
    let jane: u64 = 43;
    register(&mut schema, "Alice", alice, 1_000, 70);
    register(&mut schema, "Bob", bob, 1_000, 72);
    register(&mut schema, "Jane", jane, 1_000, 74);

    let alice_owl = schema.user_owls(alice)[0];

    // Create the auction.
    let r = CreateAuction { owl_id: alice_owl, start_price: 10, duration: 1_000 }
        .execute(&mut schema, alice, 1_000);
    assert!(r.is_ok());

    // Make bids.
    let r = MakeBid { auction_id: 0, value: 20 }.execute(&mut schema, bob);
    assert!(r.is_ok());
    let r = MakeBid { auction_id: 0, value: 30 }.execute(&mut schema, jane);
    assert!(r.is_ok());

    // Check the reserved balances.
    {
        let auction = schema.get_auction(0).unwrap();
        let bob_user = schema.get_user(bob).unwrap();
        let jane_user = schema.get_user(jane).unwrap();

        assert_eq!(bob_user.balance, ISSUE_AMOUNT);
        assert_eq!(bob_user.reserved, 0);
        assert_eq!(jane_user.balance, ISSUE_AMOUNT - 30);
        assert_eq!(jane_user.reserved, 30);

        assert!(!auction.closed);
        assert_eq!(auction.bidding_merkle_root, bids_root(&schema.auction_bids(0)));
        assert_eq!(schema.open_auction_of(alice_owl), Some(0));

        // The standing bid is Jane's 30.
        let bids = schema.auction_bids(0);
        assert_eq!(bids.last().unwrap().value, 30);
        assert_eq!(bids.last().unwrap().public_key, jane);
    }

    // Some time passes; the sweep closes the expired auction.
    CryptoOwlsService.before_commit(&mut schema, 2_001);

    // Check the results.
    {
        let auction = schema.get_auction(0).unwrap();
        let alice_user = schema.get_user(alice).unwrap();
        let bob_user = schema.get_user(bob).unwrap();
        let jane_user = schema.get_user(jane).unwrap();

        assert_eq!(bob_user.balance, ISSUE_AMOUNT);
        assert_eq!(bob_user.reserved, 0);
        assert_eq!(jane_user.balance, ISSUE_AMOUNT - 30);
        assert_eq!(jane_user.reserved, 0);
        assert_eq!(alice_user.balance, ISSUE_AMOUNT + 30);
        assert_eq!(alice_user.reserved, 0);

        assert!(auction.closed);
        assert_eq!(schema.open_auction_of(alice_owl), None);
        assert!(schema.user_owls(jane).contains(&alice_owl));
        assert!(!schema.user_owls(alice).contains(&alice_owl));
        assert_eq!(schema.get_owl_state(alice_owl).unwrap().owner, jane);
    }
}

#[test]
fn test_two_bids_same_user() {
    let mut schema = CryptoOwlsSchema::new();
    let bob: u64 = 51;
    let jane: u64 = 52;
    register(&mut schema, "Bob", bob, 1_000, 80);
    register(&mut schema, "Jane", jane, 1_000, 82);

    let bob_owl = schema.user_owls(bob)[0];

    // Create the auction.
    let r = CreateAuction { owl_id: bob_owl, start_price: 10, duration: 1_000 }
        .execute(&mut schema, bob, 1_000);
    assert!(r.is_ok());

    // Jane outbids herself.
    let r = MakeBid { auction_id: 0, value: 20 }.execute(&mut schema, jane);
    assert!(r.is_ok());
    let r = MakeBid { auction_id: 0, value: 30 }.execute(&mut schema, jane);
    assert!(r.is_ok());

    // Check the reserved balance.
    let jane_user = schema.get_user(jane).unwrap();
    assert_eq!(jane_user.balance, ISSUE_AMOUNT - 30);
    assert_eq!(jane_user.reserved, 30);
}
