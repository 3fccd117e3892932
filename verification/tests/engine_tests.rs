use poll_maker::address::{address_to_base58, global_seeds, poll_seeds, try_find_pda, vote_seeds};
use poll_maker::errors::PollError;
use poll_maker::instruction::{CreatePollPayload, VoteOnPollPayload};
use poll_maker::ledger::Ledger;
use poll_maker::processor::{create_poll, process_instruction, vote_on_poll, AccountMeta};
use poll_maker::codec::{write_string, write_string_vec, write_u64};
use poll_maker::state::{decode_global, decode_poll, decode_vote, PollState};

const PROGRAM_ID: [u8; 32] = [7u8; 32];
const ADDR_X: [u8; 32] = [11u8; 32];
const ADDR_Y: [u8; 32] = [12u8; 32];

fn signer(address: Vec<u8>) -> AccountMeta {
    AccountMeta { address, is_signer: true, is_writable: true }
}

fn writable(address: Vec<u8>) -> AccountMeta {
    AccountMeta { address, is_signer: false, is_writable: true }
}

fn readonly(address: Vec<u8>) -> AccountMeta {
    AccountMeta { address, is_signer: false, is_writable: false }
}

fn allocator() -> AccountMeta {
    readonly(vec![0u8; 32])
}

fn pid() -> Vec<u8> {
    PROGRAM_ID.to_vec()
}

fn global_address() -> Vec<u8> {
    try_find_pda(&global_seeds(), &pid()).unwrap().0
}

fn poll_address(id: u64) -> Vec<u8> {
    try_find_pda(&poll_seeds(id), &pid()).unwrap().0
}

fn vote_address(voter: &[u8; 32], poll_id: u64) -> Vec<u8> {
    try_find_pda(&vote_seeds(&voter.to_vec(), poll_id), &pid()).unwrap().0
}

fn payload(options: &[&str], authorized: &[&str]) -> CreatePollPayload {
    CreatePollPayload {
        title: "T".to_string(),
        description: "D".to_string(),
        ends_at: 2_000_000_000,
        options: options.iter().map(|s| s.to_string()).collect(),
        authorized_addresses: authorized.iter().map(|s| s.to_string()).collect(),
    }
}

fn create_first_poll(ledger: &mut Ledger) {
    let x_b58 = address_to_base58(&ADDR_X.to_vec());
    let r = create_poll(
        ledger,
        &pid(),
        &signer(ADDR_X.to_vec()),
        &writable(global_address()),
        &writable(poll_address(1)),
        &allocator(),
        &payload(&["A", "B"], &[&x_b58]),
    );
    assert!(r.is_ok());
}

fn cast_vote(ledger: &mut Ledger, voter: &[u8; 32], poll_id: u64, option: &str, now: u64) -> Result<(), PollError> {
    vote_on_poll(
        ledger,
        &pid(),
        &signer(voter.to_vec()),
        &readonly(poll_address(poll_id)),
        &writable(vote_address(voter, poll_id)),
        &allocator(),
        &VoteOnPollPayload { poll_id, option: option.to_string() },
        now,
    )
}

#[test]
fn creating_a_poll_from_an_empty_counter_gives_id_one_and_counter_two() {
    let mut ledger = Ledger::new();
    create_first_poll(&mut ledger);

    let g = decode_global(&ledger.read(&global_address()).unwrap().data).unwrap();
    assert_eq!(g.discriminator, "global");
    assert!(g.is_initialized);
    assert_eq!(g.id_counter, 2);

    let p = decode_poll(&ledger.read(&poll_address(1)).unwrap().data).unwrap();
    assert_eq!(p.discriminator, "poll");
    assert!(p.is_initialized);
    assert_eq!(p.id, 1);
    assert_eq!(p.creator_address, address_to_base58(&ADDR_X.to_vec()));
    assert_eq!(p.title, "T");
    assert_eq!(p.description, "D");
    assert_eq!(p.ends_at, 2_000_000_000);
    assert_eq!(p.options, vec!["A".to_string(), "B".to_string()]);
    assert_eq!(
        p.authorized_addresses,
        vec![address_to_base58(&ADDR_X.to_vec())]
    );
}

#[test]
fn n_creations_leave_the_counter_at_n_plus_one_with_sequential_ids() {
    let mut ledger = Ledger::new();
    let x_b58 = address_to_base58(&ADDR_X.to_vec());
    for expected_id in 1u64..=5 {
        let r = create_poll(
            &mut ledger,
            &pid(),
            &signer(ADDR_X.to_vec()),
            &writable(global_address()),
            &writable(poll_address(expected_id)),
            &allocator(),
            &payload(&["A"], &[&x_b58]),
        );
        assert!(r.is_ok());
        let p = decode_poll(&ledger.read(&poll_address(expected_id)).unwrap().data).unwrap();
        assert_eq!(p.id, expected_id);
    }
    let g = decode_global(&ledger.read(&global_address()).unwrap().data).unwrap();
    assert_eq!(g.id_counter, 6);
}

#[test]
fn a_stale_poll_account_is_rejected() {
    let mut ledger = Ledger::new();
    create_first_poll(&mut ledger);
    // the counter now points at poll 2, but hand in poll 1's account again
    let x_b58 = address_to_base58(&ADDR_X.to_vec());
    let r = create_poll(
        &mut ledger,
        &pid(),
        &signer(ADDR_X.to_vec()),
        &writable(global_address()),
        &writable(poll_address(1)),
        &allocator(),
        &payload(&["A"], &[&x_b58]),
    );
    assert_eq!(r, Err(PollError::AddressMismatch));
}

#[test]
fn creation_rejects_a_wrong_poll_account() {
    let mut ledger = Ledger::new();
    let x_b58 = address_to_base58(&ADDR_X.to_vec());
    let r = create_poll(
        &mut ledger,
        &pid(),
        &signer(ADDR_X.to_vec()),
        &writable(global_address()),
        &writable(vec![5u8; 32]),
        &allocator(),
        &payload(&["A"], &[&x_b58]),
    );
    assert_eq!(r, Err(PollError::AddressMismatch));
    assert!(!ledger.contains(&global_address()));
}

#[test]
fn creation_rejects_a_missing_signer() {
    let mut ledger = Ledger::new();
    let x_b58 = address_to_base58(&ADDR_X.to_vec());
    let r = create_poll(
        &mut ledger,
        &pid(),
        &writable(ADDR_X.to_vec()),
        &writable(global_address()),
        &writable(poll_address(1)),
        &allocator(),
        &payload(&["A"], &[&x_b58]),
    );
    assert_eq!(r, Err(PollError::AuthorizationError));
}

#[test]
fn creation_rejects_a_wrong_allocator() {
    let mut ledger = Ledger::new();
    let x_b58 = address_to_base58(&ADDR_X.to_vec());
    let r = create_poll(
        &mut ledger,
        &pid(),
        &signer(ADDR_X.to_vec()),
        &writable(global_address()),
        &writable(poll_address(1)),
        &readonly(vec![1u8; 32]),
        &payload(&["A"], &[&x_b58]),
    );
    assert_eq!(r, Err(PollError::AuthorizationError));
}

#[test]
fn poll_size_boundary_is_enforced() {
    // measure the record the engine would build with an empty description
    let creator = address_to_base58(&ADDR_X.to_vec());
    let base = PollState {
        discriminator: "poll".to_string(),
        is_initialized: true,
        id: 1,
        creator_address: creator.clone(),
        title: "T".to_string(),
        description: String::new(),
        ends_at: 2_000_000_000,
        options: vec!["A".to_string(), "B".to_string()],
        authorized_addresses: vec![creator.clone()],
    }
    .get_account_size();

    // a description that makes the record exactly reach the ceiling fails
    let mut ledger = Ledger::new();
    let mut too_large = payload(&["A", "B"], &[&creator]);
    too_large.description = "x".repeat(100000 - base);
    let r = create_poll(
        &mut ledger,
        &pid(),
        &signer(ADDR_X.to_vec()),
        &writable(global_address()),
        &writable(poll_address(1)),
        &allocator(),
        &too_large,
    );
    assert_eq!(r, Err(PollError::RecordTooLarge));
    assert!(!ledger.contains(&global_address()));

    // one byte under the ceiling succeeds
    let mut just_fits = payload(&["A", "B"], &[&creator]);
    just_fits.description = "x".repeat(100000 - base - 1);
    let r = create_poll(
        &mut ledger,
        &pid(),
        &signer(ADDR_X.to_vec()),
        &writable(global_address()),
        &writable(poll_address(1)),
        &allocator(),
        &just_fits,
    );
    assert!(r.is_ok());
    let p = decode_poll(&ledger.read(&poll_address(1)).unwrap().data).unwrap();
    assert_eq!(p.description.len(), 100000 - base - 1);
}

#[test]
fn voting_follows_the_poll_rules() {
    let mut ledger = Ledger::new();
    create_first_poll(&mut ledger);

    // an option the poll does not offer
    assert_eq!(
        cast_vote(&mut ledger, &ADDR_X, 1, "C", 1_999_999_999),
        Err(PollError::InvalidOption)
    );
    // a vote at or past the closing time
    assert_eq!(
        cast_vote(&mut ledger, &ADDR_X, 1, "A", 2_000_000_000),
        Err(PollError::PollExpired)
    );
    // a voter outside the authorized set
    assert_eq!(
        cast_vote(&mut ledger, &ADDR_Y, 1, "A", 1_999_999_999),
        Err(PollError::AuthorizationError)
    );
    // the authorized voter, in time, with an offered option
    assert_eq!(cast_vote(&mut ledger, &ADDR_X, 1, "A", 1_999_999_999), Ok(()));
    let v = decode_vote(&ledger.read(&vote_address(&ADDR_X, 1)).unwrap().data).unwrap();
    assert_eq!(v.discriminator, "vote");
    assert!(v.is_initialized);
    assert_eq!(v.poll_id, 1);
    assert_eq!(v.voter_address, address_to_base58(&ADDR_X.to_vec()));
    assert_eq!(v.option, "A");
    // the same vote a second time
    assert_eq!(
        cast_vote(&mut ledger, &ADDR_X, 1, "A", 1_999_999_999),
        Err(PollError::AllocationConflict)
    );
}

#[test]
fn voting_rejects_a_wrong_vote_account() {
    let mut ledger = Ledger::new();
    create_first_poll(&mut ledger);
    let r = vote_on_poll(
        &mut ledger,
        &pid(),
        &signer(ADDR_X.to_vec()),
        &readonly(poll_address(1)),
        &writable(vote_address(&ADDR_Y, 1)),
        &allocator(),
        &VoteOnPollPayload { poll_id: 1, option: "A".to_string() },
        1_999_999_999,
    );
    assert_eq!(r, Err(PollError::AddressMismatch));
}

#[test]
fn voting_rejects_a_poll_account_not_owned_by_the_module() {
    let mut ledger = Ledger::new();
    create_first_poll(&mut ledger);
    // an account at the right address but never written by this module
    let mut other = Ledger::new();
    let _ = other.allocate(&poll_address(1), 8, &vec![9u8; 32]);
    let r = vote_on_poll(
        &mut other,
        &pid(),
        &signer(ADDR_X.to_vec()),
        &readonly(poll_address(1)),
        &writable(vote_address(&ADDR_X, 1)),
        &allocator(),
        &VoteOnPollPayload { poll_id: 1, option: "A".to_string() },
        1_999_999_999,
    );
    assert_eq!(r, Err(PollError::AuthorizationError));
}

#[test]
fn process_instruction_dispatches_both_commands() {
    let mut ledger = Ledger::new();
    let x_b58 = address_to_base58(&ADDR_X.to_vec());

    let mut create = vec![0u8];
    write_string(&mut create, "T");
    write_string(&mut create, "D");
    write_u64(&mut create, 2_000_000_000);
    write_string_vec(&mut create, &vec!["A".to_string(), "B".to_string()]);
    write_string_vec(&mut create, &vec![x_b58.clone()]);
    let accounts = vec![
        signer(ADDR_X.to_vec()),
        writable(global_address()),
        writable(poll_address(1)),
        allocator(),
    ];
    let r = process_instruction(&mut ledger, &pid(), &accounts, &create, 0);
    assert!(r.is_ok());

    let mut vote = vec![1u8];
    write_u64(&mut vote, 1);
    write_string(&mut vote, "A");
    let accounts = vec![
        signer(ADDR_X.to_vec()),
        readonly(poll_address(1)),
        writable(vote_address(&ADDR_X, 1)),
        allocator(),
    ];
    let r = process_instruction(&mut ledger, &pid(), &accounts, &vote, 1_999_999_999);
    assert!(r.is_ok());
    let v = decode_vote(&ledger.read(&vote_address(&ADDR_X, 1)).unwrap().data).unwrap();
    assert_eq!(v.option, "A");

    assert_eq!(
        process_instruction(&mut ledger, &pid(), &accounts, &[9], 0),
        Err(PollError::DecodeError)
    );
}
