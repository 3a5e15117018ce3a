use crypto_tran::{get_prev_hash, verify_chain, zero_hash, Ledger, Transaction};

fn signed(id: &str, amount: u64, ts: i64) -> Transaction {
    let mut t = Transaction::with_id_and_time(id.to_string(), "A".to_string(), "B".to_string(), amount, ts);
    t.signature = Some("c2lnbmF0dXJl".to_string());
    t
}

#[test]
fn sentinel_is_sixty_four_zeros() {
    assert_eq!(zero_hash(), "0".repeat(64));
    assert_eq!(get_prev_hash(None), "0".repeat(64));
}

#[test]
fn prev_hash_follows_the_last_entry() {
    let mut t = signed("t", 1, 1);
    assert_eq!(get_prev_hash(Some(&t)), "0".repeat(64));
    t.current_hash = Some("ab".repeat(32));
    assert_eq!(get_prev_hash(Some(&t)), "ab".repeat(32));
}

#[test]
fn current_hash_is_sha256_hex_of_link_text() {
    let mut t = Transaction::with_id_and_time(
        "tx-1".to_string(),
        "A".to_string(),
        "B".to_string(),
        10000,
        1700000000,
    );
    t.prev_hash = Some("0".repeat(64));
    assert_eq!(
        t.calculate_current_hash(),
        "3dcf38bb10d870c325b96b664e8bc81887a5ee692153351ad0250fc9b2869d17"
    );
    let mut other = t.clone();
    other.signature = Some("c2ln".to_string());
    assert_eq!(other.calculate_current_hash(), t.calculate_current_hash());
    assert_eq!(t.calculate_current_hash().len(), 64);
}

#[test]
fn appended_entries_link_to_their_predecessor() {
    let mut ledger = Ledger::new();
    let first = ledger.append(signed("t1", 100, 1));
    let second = ledger.append(signed("t2", 200, 2));
    let third = ledger.append(signed("t3", 300, 3));
    assert_eq!(first.prev_hash, Some("0".repeat(64)));
    assert_eq!(second.prev_hash, first.current_hash);
    assert_eq!(third.prev_hash, second.current_hash);
    assert_eq!(ledger.len(), 3);
    assert_eq!(Some(ledger.tail_hash()), third.current_hash);
    assert!(ledger.verify());
    assert!(verify_chain(ledger.entries()));
}

#[test]
fn changing_a_stored_amount_breaks_the_chain() {
    let mut ledger = Ledger::new();
    let first = ledger.append(signed("t1", 10000, 1));
    let mut t2 = signed("t2", 500, 2);
    t2.prev_hash = first.current_hash.clone();
    ledger.append(t2);
    assert!(ledger.verify());
    let mut entries = ledger.into_entries();
    assert!(verify_chain(&entries));
    entries[0].amount = 10001;
    assert!(!verify_chain(&entries));
}

#[test]
fn broken_links_are_found() {
    let mut ledger = Ledger::new();
    ledger.append(signed("t1", 1, 1));
    ledger.append(signed("t2", 2, 2));
    let mut entries = ledger.into_entries();
    entries[1].prev_hash = Some("1".repeat(64));
    assert!(!verify_chain(&entries));
    let mut unsigned = entries.clone();
    unsigned[0].signature = None;
    assert!(!verify_chain(&unsigned[..1]));
    assert!(verify_chain(&[]));
}
