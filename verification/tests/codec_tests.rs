use poll_maker::state::{
    decode_global, decode_poll, decode_vote, encode_global, encode_poll, encode_vote, GlobalState,
    PollState, VoteState,
};

fn sample_poll() -> PollState {
    PollState {
        discriminator: "poll".to_string(),
        is_initialized: true,
        id: 42,
        creator_address: "CreatorAddressBase58".to_string(),
        title: "Favourite colour?".to_string(),
        description: "Pick one.".to_string(),
        ends_at: 2_000_000_000,
        options: vec!["red".to_string(), "blue".to_string(), "blue".to_string()],
        authorized_addresses: vec!["VoterOne".to_string(), "VoterTwo".to_string()],
    }
}

#[test]
fn global_record_round_trips() {
    let g = GlobalState {
        discriminator: "global".to_string(),
        is_initialized: true,
        id_counter: 7,
    };
    let bytes = encode_global(&g);
    assert_eq!(bytes.len(), 19);
    let back = decode_global(&bytes).expect("valid encoding");
    assert_eq!(back.discriminator, "global");
    assert_eq!(back.is_initialized, true);
    assert_eq!(back.id_counter, 7);
}

#[test]
fn poll_record_round_trips_field_for_field() {
    let p = sample_poll();
    let bytes = encode_poll(&p);
    assert_eq!(bytes.len(), p.get_account_size());
    let back = decode_poll(&bytes).expect("valid encoding");
    assert_eq!(back.discriminator, p.discriminator);
    assert_eq!(back.is_initialized, p.is_initialized);
    assert_eq!(back.id, p.id);
    assert_eq!(back.creator_address, p.creator_address);
    assert_eq!(back.title, p.title);
    assert_eq!(back.description, p.description);
    assert_eq!(back.ends_at, p.ends_at);
    assert_eq!(back.options, p.options);
    assert_eq!(back.authorized_addresses, p.authorized_addresses);
}

#[test]
fn vote_record_round_trips_field_for_field() {
    let v = VoteState {
        discriminator: "vote".to_string(),
        is_initialized: true,
        poll_id: 42,
        voter_address: "VoterOne".to_string(),
        option: "blue".to_string(),
    };
    let bytes = encode_vote(&v);
    assert_eq!(bytes.len(), v.get_account_size());
    let back = decode_vote(&bytes).expect("valid encoding");
    assert_eq!(back.discriminator, v.discriminator);
    assert_eq!(back.is_initialized, v.is_initialized);
    assert_eq!(back.poll_id, v.poll_id);
    assert_eq!(back.voter_address, v.voter_address);
    assert_eq!(back.option, v.option);
}

#[test]
fn record_decoding_ignores_trailing_bytes() {
    let g = GlobalState {
        discriminator: "global".to_string(),
        is_initialized: true,
        id_counter: 3,
    };
    let mut bytes = encode_global(&g);
    bytes.extend_from_slice(&[0, 0, 0, 0, 0, 0]);
    let back = decode_global(&bytes).expect("trailing bytes are ignored");
    assert_eq!(back.id_counter, 3);
}

#[test]
fn zero_filled_account_decodes_uninitialized() {
    let zeros = vec![0u8; 19];
    let back = decode_global(&zeros).expect("zeroed storage parses");
    assert_eq!(back.discriminator, "");
    assert_eq!(back.is_initialized, false);
    assert_eq!(back.id_counter, 0);
}

#[test]
fn truncated_record_fails_to_decode() {
    let g = GlobalState {
        discriminator: "global".to_string(),
        is_initialized: true,
        id_counter: 3,
    };
    let bytes = encode_global(&g);
    assert!(decode_global(&bytes[..bytes.len() - 1]).is_none());
}

#[test]
fn record_encoding_matches_borsh() {
    let g = GlobalState {
        discriminator: "global".to_string(),
        is_initialized: true,
        id_counter: 9,
    };
    let expected = borsh::to_vec(&("global".to_string(), true, 9u64)).unwrap();
    assert_eq!(encode_global(&g), expected);

    let p = sample_poll();
    let expected = borsh::to_vec(&(
        p.discriminator.clone(),
        p.is_initialized,
        p.id,
        p.creator_address.clone(),
        p.title.clone(),
        p.description.clone(),
        p.ends_at,
        p.options.clone(),
        p.authorized_addresses.clone(),
    ))
    .unwrap();
    assert_eq!(encode_poll(&p), expected);
}

#[test]
fn vote_account_size_is_exact() {
    let v = VoteState {
        discriminator: "vote".to_string(),
        is_initialized: true,
        poll_id: 1,
        voter_address: "abcd".to_string(),
        option: "xy".to_string(),
    };
    // tag prefix and text, flag, id, then two length-prefixed strings
    assert_eq!(v.get_account_size(), 8 + 1 + 8 + (4 + 4) + (4 + 2));
}
