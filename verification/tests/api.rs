//! The commands as a client would submit them: one transaction value per
//! test, built with the same payloads and handed to the engine.

use cryptoowls::schema::CryptoOwlsSchema;
use cryptoowls::transactions::{CreateAuction, CreateUser, ErrorKind, Issue, MakeBid, MakeOwl};

fn seed(b: u8) -> [u8; 32] {
    [b; 32]
}

#[test]
fn test_tx_create_user() {
    let mut schema = CryptoOwlsSchema::new();
    let keypair: u64 = 101;
    let tx = CreateUser { name: "Alice".to_owned() };
    let r = tx.execute(&mut schema, keypair, 1_000, &seed(1), &seed(2));
    assert!(r.is_ok());
}

#[test]
fn test_tx_make_owl() {
    let mut schema = CryptoOwlsSchema::new();
    let keypair: u64 = 102;
    let r = CreateUser { name: "Breeder".to_owned() }
        .execute(&mut schema, keypair, 1_000, &seed(3), &seed(4));
    assert!(r.is_ok());
    // Zero identifiers name no existing owls.
    let tx = MakeOwl { name: "owl".to_owned(), father_id: 0, mother_id: 0, seed: 1_000 };
    let r = tx.execute(&mut schema, keypair, 1_100, &seed(5));
    assert_eq!(r, Err(ErrorKind::OwlNotFound));
}

#[test]
fn test_tx_issue() {
    let mut schema = CryptoOwlsSchema::new();
    let keypair: u64 = 103;
    let r = CreateUser { name: "Client".to_owned() }
        .execute(&mut schema, keypair, 1_000, &seed(6), &seed(7));
    assert!(r.is_ok());
    let tx = Issue { seed: 1_000 };
    let r = tx.execute(&mut schema, keypair, 1_000);
    assert_eq!(r, Err(ErrorKind::EarlyIssue));
}

#[test]
fn test_tx_create_auction() {
    let mut schema = CryptoOwlsSchema::new();
    let keypair: u64 = 104;
    let r = CreateUser { name: "Seller".to_owned() }
        .execute(&mut schema, keypair, 1_000, &seed(8), &seed(9));
    assert!(r.is_ok());
    // A zero identifier names no existing owl.
    let tx = CreateAuction { owl_id: 0, start_price: 0, duration: 10 };
    let r = tx.execute(&mut schema, keypair, 1_000);
    assert_eq!(r, Err(ErrorKind::OwlNotFound));
}

#[test]
fn test_tx_make_bid() {
    let mut schema = CryptoOwlsSchema::new();
    let keypair: u64 = 105;
    let r = CreateUser { name: "Bidder".to_owned() }
        .execute(&mut schema, keypair, 1_000, &seed(10), &seed(11));
    assert!(r.is_ok());
    // No auction exists yet.
    let tx = MakeBid { auction_id: 0, value: 1 };
    let r = tx.execute(&mut schema, keypair);
    assert_eq!(r, Err(ErrorKind::AuctionNotFound));
}
