use anchor_lang::solana_program::hash::hash;
use anchor_lang::solana_program::pubkey::Pubkey;
use journal_crud::address::derive_address;
use journal_crud::layout::ACCOUNT_SPACE;
use journal_crud::store::{
    create_entry_at, create_journal_entry, delete_entry_at, delete_journal_entry, update_entry_at,
    update_journal_entry, CreateJournalEntry, DeleteJournalEntry, ErrorCode, JournalEntry, Ledger, Signer, UpdateJournalEntry,
};

const PROGRAM: [u8; 32] = [7u8; 32];
const K1: [u8; 32] = [1u8; 32];
const K2: [u8; 32] = [2u8; 32];

fn signed(key: [u8; 32]) -> Signer {
    Signer { key, is_signer: true }
}

fn create_ctx(key: [u8; 32]) -> CreateJournalEntry {
    CreateJournalEntry { owner: signed(key) }
}

fn update_ctx(owner: [u8; 32], caller: [u8; 32]) -> UpdateJournalEntry {
    UpdateJournalEntry { owner, caller: signed(caller) }
}

fn delete_ctx(owner: [u8; 32], caller: [u8; 32]) -> DeleteJournalEntry {
    DeleteJournalEntry { owner, caller: signed(caller) }
}

fn addr(owner: [u8; 32], title: &str) -> [u8; 32] {
    derive_address(&PROGRAM, &owner, title).unwrap()
}

fn content_of(ledger: &Ledger, owner: [u8; 32], title: &str) -> Option<String> {
    ledger.entry(&addr(owner, title)).map(|e| e.content.clone())
}

#[test]
fn diary_scenario() {
    let mut ledger = Ledger::new(PROGRAM);
    assert_eq!(create_journal_entry(&mut ledger, &create_ctx(K1), "Diary".to_string(), "Day 1".to_string()), Ok(()));
    let e = ledger.entry(&addr(K1, "Diary")).unwrap();
    assert_eq!(e.owner, K1);
    assert_eq!(e.title, "Diary");
    assert_eq!(e.content, "Day 1");
    assert_eq!(
        update_journal_entry(&mut ledger, &update_ctx(K1, K2), "Diary".to_string(), "Hacked".to_string()),
        Err(ErrorCode::Unauthorized)
    );
    assert_eq!(content_of(&ledger, K1, "Diary"), Some("Day 1".to_string()));
    assert_eq!(
        update_journal_entry(&mut ledger, &update_ctx(K1, K1), "Diary".to_string(), "Day 2".to_string()),
        Ok(())
    );
    assert_eq!(content_of(&ledger, K1, "Diary"), Some("Day 2".to_string()));
    assert_eq!(delete_journal_entry(&mut ledger, &delete_ctx(K1, K1), "Diary".to_string()), Ok(()));
    assert!(ledger.entry(&addr(K1, "Diary")).is_none());
    assert_eq!(ledger.len(), 0);
}

#[test]
fn lifecycle_round_trip() {
    let mut ledger = Ledger::new(PROGRAM);
    assert_eq!(create_journal_entry(&mut ledger, &create_ctx(K1), "t".to_string(), "c1".to_string()), Ok(()));
    assert_eq!(update_journal_entry(&mut ledger, &update_ctx(K1, K1), "t".to_string(), "c2".to_string()), Ok(()));
    let e = ledger.entry(&addr(K1, "t")).unwrap();
    assert_eq!((e.owner, e.title.as_str(), e.content.as_str()), (K1, "t", "c2"));
    assert_eq!(delete_journal_entry(&mut ledger, &delete_ctx(K1, K1), "t".to_string()), Ok(()));
    assert!(ledger.entry(&addr(K1, "t")).is_none());
    assert_eq!(create_journal_entry(&mut ledger, &create_ctx(K1), "t".to_string(), "c3".to_string()), Ok(()));
    assert_eq!(content_of(&ledger, K1, "t"), Some("c3".to_string()));
}

#[test]
fn create_does_not_overwrite() {
    let mut ledger = Ledger::new(PROGRAM);
    assert_eq!(create_journal_entry(&mut ledger, &create_ctx(K1), "t".to_string(), "first".to_string()), Ok(()));
    assert_eq!(
        create_journal_entry(&mut ledger, &create_ctx(K1), "t".to_string(), "second".to_string()),
        Err(ErrorCode::AddressInUse)
    );
    assert_eq!(content_of(&ledger, K1, "t"), Some("first".to_string()));
    assert_eq!(ledger.len(), 1);
}

#[test]
fn other_caller_cannot_delete() {
    let mut ledger = Ledger::new(PROGRAM);
    create_journal_entry(&mut ledger, &create_ctx(K1), "t".to_string(), "mine".to_string()).unwrap();
    assert_eq!(
        delete_journal_entry(&mut ledger, &delete_ctx(K1, K2), "t".to_string()),
        Err(ErrorCode::Unauthorized)
    );
    assert_eq!(content_of(&ledger, K1, "t"), Some("mine".to_string()));
}

#[test]
fn missing_entry_is_not_found() {
    let mut ledger = Ledger::new(PROGRAM);
    assert_eq!(
        update_journal_entry(&mut ledger, &update_ctx(K1, K1), "t".to_string(), "x".to_string()),
        Err(ErrorCode::NotFound)
    );
    assert_eq!(delete_journal_entry(&mut ledger, &delete_ctx(K1, K1), "t".to_string()), Err(ErrorCode::NotFound));
    create_journal_entry(&mut ledger, &create_ctx(K1), "t".to_string(), "x".to_string()).unwrap();
    // Another owner's binding derives another address.
    assert_eq!(
        update_journal_entry(&mut ledger, &update_ctx(K2, K2), "t".to_string(), "y".to_string()),
        Err(ErrorCode::NotFound)
    );
    // A different title derives another address too.
    assert_eq!(
        update_journal_entry(&mut ledger, &update_ctx(K1, K1), "u".to_string(), "y".to_string()),
        Err(ErrorCode::NotFound)
    );
}

#[test]
fn unsigned_requests_are_unauthenticated() {
    let mut ledger = Ledger::new(PROGRAM);
    let unsigned = Signer { key: K1, is_signer: false };
    assert_eq!(
        create_journal_entry(&mut ledger, &CreateJournalEntry { owner: unsigned }, "t".to_string(), "x".to_string()),
        Err(ErrorCode::Unauthenticated)
    );
    assert_eq!(ledger.len(), 0);
    create_journal_entry(&mut ledger, &create_ctx(K1), "t".to_string(), "x".to_string()).unwrap();
    assert_eq!(
        update_journal_entry(
            &mut ledger,
            &UpdateJournalEntry { owner: K1, caller: unsigned },
            "t".to_string(),
            "y".to_string()
        ),
        Err(ErrorCode::Unauthenticated)
    );
    assert_eq!(
        delete_journal_entry(&mut ledger, &DeleteJournalEntry { owner: K1, caller: unsigned }, "t".to_string()),
        Err(ErrorCode::Unauthenticated)
    );
    assert_eq!(content_of(&ledger, K1, "t"), Some("x".to_string()));
}

#[test]
fn content_cap_boundaries() {
    let mut ledger = Ledger::new(PROGRAM);
    assert_eq!(
        create_journal_entry(&mut ledger, &create_ctx(K1), "t".to_string(), "a".repeat(257)),
        Err(ErrorCode::FieldTooLong)
    );
    assert_eq!(ledger.len(), 0);
    assert_eq!(create_journal_entry(&mut ledger, &create_ctx(K1), "t".to_string(), "a".repeat(256)), Ok(()));
    assert_eq!(
        update_journal_entry(&mut ledger, &update_ctx(K1, K1), "t".to_string(), "b".repeat(257)),
        Err(ErrorCode::FieldTooLong)
    );
    assert_eq!(content_of(&ledger, K1, "t"), Some("a".repeat(256)));
    assert_eq!(update_journal_entry(&mut ledger, &update_ctx(K1, K1), "t".to_string(), "b".repeat(256)), Ok(()));
    assert_eq!(content_of(&ledger, K1, "t"), Some("b".repeat(256)));
}

#[test]
fn content_cap_counts_utf8_bytes() {
    let mut ledger = Ledger::new(PROGRAM);
    // 129 two-byte characters make 258 bytes.
    assert_eq!(
        create_journal_entry(&mut ledger, &create_ctx(K1), "t".to_string(), "é".repeat(129)),
        Err(ErrorCode::FieldTooLong)
    );
    assert_eq!(create_journal_entry(&mut ledger, &create_ctx(K1), "t".to_string(), "é".repeat(128)), Ok(()));
}

#[test]
fn title_cap_boundaries() {
    let mut ledger = Ledger::new(PROGRAM);
    assert_eq!(
        create_journal_entry(&mut ledger, &create_ctx(K1), "t".repeat(65), "x".to_string()),
        Err(ErrorCode::FieldTooLong)
    );
    assert_eq!(ledger.len(), 0);
    assert_eq!(create_journal_entry(&mut ledger, &create_ctx(K1), "a".repeat(64), "c".repeat(256)), Ok(()));
    let e = ledger.entry(&addr(K1, &"a".repeat(64))).unwrap();
    assert_eq!((e.owner, e.title.clone(), e.content.clone()), (K1, "a".repeat(64), "c".repeat(256)));
    assert_eq!(create_journal_entry(&mut ledger, &create_ctx(K1), "t".repeat(33), "x".to_string()), Ok(()));
    assert_eq!(create_journal_entry(&mut ledger, &create_ctx(K1), "t".repeat(32), "x".to_string()), Ok(()));
    assert_eq!(ledger.len(), 3);
    assert_eq!(
        update_journal_entry(&mut ledger, &update_ctx(K1, K1), "a".repeat(64), "d".to_string()),
        Ok(())
    );
    assert_eq!(content_of(&ledger, K1, &"a".repeat(64)), Some("d".to_string()));
}

#[test]
fn title_over_cap_names_no_entry() {
    let mut ledger = Ledger::new(PROGRAM);
    assert_eq!(
        update_journal_entry(&mut ledger, &update_ctx(K1, K1), "t".repeat(65), "x".to_string()),
        Err(ErrorCode::NotFound)
    );
    assert_eq!(
        delete_journal_entry(&mut ledger, &delete_ctx(K1, K1), "t".repeat(65)),
        Err(ErrorCode::NotFound)
    );
}

#[test]
fn owner_is_checked_before_content_length() {
    let mut ledger = Ledger::new(PROGRAM);
    create_journal_entry(&mut ledger, &create_ctx(K1), "t".to_string(), "x".to_string()).unwrap();
    assert_eq!(
        update_journal_entry(&mut ledger, &update_ctx(K1, K2), "t".to_string(), "b".repeat(257)),
        Err(ErrorCode::Unauthorized)
    );
    assert_eq!(
        update_journal_entry(&mut ledger, &update_ctx(K1, K1), "t".to_string(), "b".repeat(257)),
        Err(ErrorCode::FieldTooLong)
    );
    assert_eq!(content_of(&ledger, K1, "t"), Some("x".to_string()));
}

#[test]
fn occupied_address_is_checked_before_content_length() {
    let mut ledger = Ledger::new(PROGRAM);
    create_journal_entry(&mut ledger, &create_ctx(K1), "t".to_string(), "x".to_string()).unwrap();
    assert_eq!(
        create_journal_entry(&mut ledger, &create_ctx(K1), "t".to_string(), "b".repeat(257)),
        Err(ErrorCode::AddressInUse)
    );
    assert_eq!(content_of(&ledger, K1, "t"), Some("x".to_string()));
}

#[test]
fn loading_existing_entries() {
    let mut ledger = Ledger::new(PROGRAM);
    let entry = JournalEntry { owner: K1, title: "Diary".to_string(), content: "Day 1".to_string() };
    assert_eq!(ledger.load_entry(entry), Ok(()));
    let again = JournalEntry { owner: K1, title: "Diary".to_string(), content: "other".to_string() };
    assert_eq!(ledger.load_entry(again), Err(ErrorCode::AddressInUse));
    let long = JournalEntry { owner: K2, title: "x".to_string(), content: "c".repeat(257) };
    assert_eq!(ledger.load_entry(long), Err(ErrorCode::FieldTooLong));
    assert_eq!(ledger.len(), 1);
    assert_eq!(
        update_journal_entry(&mut ledger, &update_ctx(K1, K1), "Diary".to_string(), "Day 2".to_string()),
        Ok(())
    );
    assert_eq!(content_of(&ledger, K1, "Diary"), Some("Day 2".to_string()));
}

#[test]
fn address_is_deterministic_and_ignores_content() {
    assert_eq!(derive_address(&PROGRAM, &K1, "Diary"), derive_address(&PROGRAM, &K1, "Diary"));
    let mut first = Ledger::new(PROGRAM);
    let mut second = Ledger::new(PROGRAM);
    create_journal_entry(&mut first, &create_ctx(K1), "Diary".to_string(), "one".to_string()).unwrap();
    create_journal_entry(&mut second, &create_ctx(K1), "Diary".to_string(), "another".to_string()).unwrap();
    let a = addr(K1, "Diary");
    assert!(first.entry(&a).is_some());
    assert!(second.entry(&a).is_some());
}

#[test]
fn address_matches_program_derived_address() {
    let program = Pubkey::new_from_array(PROGRAM);
    let owner = Pubkey::new_from_array(K1);
    let (expected, _bump) =
        Pubkey::find_program_address(&[b"journal_entry", owner.as_ref(), "Diary".as_bytes()], &program);
    let a = addr(K1, "Diary");
    assert_eq!(a, expected.to_bytes());
    assert_ne!(a, K1);
    assert_ne!(a, addr(K2, "Diary"));
    assert_ne!(a, addr(K1, "Notes"));
    let long = "L".repeat(40);
    let (split, _bump) = Pubkey::find_program_address(
        &[b"journal_entry", owner.as_ref(), &long.as_bytes()[..32], &long.as_bytes()[32..]],
        &program,
    );
    assert_eq!(addr(K1, &long), split.to_bytes());
    assert_ne!(addr(K1, &long), addr(K1, &"L".repeat(39)));
}

#[test]
fn account_bytes_layout() {
    let mut ledger = Ledger::new(PROGRAM);
    create_journal_entry(&mut ledger, &create_ctx(K1), "ab".to_string(), "xyz".to_string()).unwrap();
    let data = ledger.account_data(&addr(K1, "ab")).unwrap().clone();
    assert_eq!(data.len(), ACCOUNT_SPACE);
    assert_eq!(ACCOUNT_SPACE, 8 + 32 + 4 + 64 + 4 + 256);
    let digest = hash(b"account:JournalEntry").to_bytes();
    assert_eq!(&data[0..8], &digest[0..8]);
    assert_eq!(&data[8..40], &K1[..]);
    assert_eq!(&data[40..44], &[2u8, 0, 0, 0]);
    assert_eq!(&data[44..46], b"ab");
    assert_eq!(&data[46..50], &[3u8, 0, 0, 0]);
    assert_eq!(&data[50..53], b"xyz");
    assert!(data[53..].iter().all(|b| *b == 0));
}

#[test]
fn shrinking_update_zeroes_old_bytes() {
    let mut ledger = Ledger::new(PROGRAM);
    create_journal_entry(&mut ledger, &create_ctx(K1), "t".to_string(), "a much longer first entry".to_string())
        .unwrap();
    update_journal_entry(&mut ledger, &update_ctx(K1, K1), "t".to_string(), "short".to_string()).unwrap();
    let data = ledger.account_data(&addr(K1, "t")).unwrap().clone();
    assert_eq!(data.len(), ACCOUNT_SPACE);
    assert_eq!(&data[45..49], &[5u8, 0, 0, 0]);
    assert_eq!(&data[49..54], b"short");
    assert!(data[54..].iter().all(|b| *b == 0));
}

#[test]
fn growing_update_keeps_footprint() {
    let mut ledger = Ledger::new(PROGRAM);
    create_journal_entry(&mut ledger, &create_ctx(K1), "t".to_string(), "s".to_string()).unwrap();
    update_journal_entry(&mut ledger, &update_ctx(K1, K1), "t".to_string(), "z".repeat(200)).unwrap();
    let data = ledger.account_data(&addr(K1, "t")).unwrap().clone();
    assert_eq!(data.len(), ACCOUNT_SPACE);
    assert_eq!(&data[45..49], &[200u8, 0, 0, 0]);
    assert!(data[49..249].iter().all(|b| *b == b'z'));
    assert!(data[249..].iter().all(|b| *b == 0));
}

#[test]
fn operations_at_a_given_address() {
    let mut ledger = Ledger::new(PROGRAM);
    let a = derive_address(&PROGRAM, &K1, "t");
    assert_eq!(create_entry_at(&mut ledger, &create_ctx(K1), "t".to_string(), "x".to_string(), a), Ok(()));
    assert_eq!(
        create_entry_at(&mut ledger, &create_ctx(K1), "t".to_string(), "y".to_string(), a),
        Err(ErrorCode::AddressInUse)
    );
    assert_eq!(
        create_entry_at(&mut ledger, &create_ctx(K1), "t".to_string(), "y".to_string(), None),
        Err(ErrorCode::NoAddress)
    );
    assert_eq!(update_entry_at(&mut ledger, &update_ctx(K1, K1), "t".to_string(), "y".to_string(), a), Ok(()));
    assert_eq!(content_of(&ledger, K1, "t"), Some("y".to_string()));
    assert_eq!(delete_entry_at(&mut ledger, &delete_ctx(K1, K2), "t".to_string(), a), Err(ErrorCode::Unauthorized));
    assert_eq!(delete_entry_at(&mut ledger, &delete_ctx(K1, K1), "t".to_string(), a), Ok(()));
    assert_eq!(ledger.len(), 0);
    assert_eq!(ledger.program_id(), PROGRAM);
}

#[test]
fn entries_of_two_owners_are_separate() {
    let mut ledger = Ledger::new(PROGRAM);
    create_journal_entry(&mut ledger, &create_ctx(K1), "Diary".to_string(), "one".to_string()).unwrap();
    create_journal_entry(&mut ledger, &create_ctx(K2), "Diary".to_string(), "two".to_string()).unwrap();
    assert_eq!(ledger.len(), 2);
    delete_journal_entry(&mut ledger, &delete_ctx(K1, K1), "Diary".to_string()).unwrap();
    assert_eq!(content_of(&ledger, K2, "Diary"), Some("two".to_string()));
    assert!(ledger.entry(&addr(K1, "Diary")).is_none());
}
