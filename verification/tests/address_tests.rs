use poll_maker::address::{
    address_to_base58, global_seeds, is_system_allocator, poll_seeds, try_find_pda, u64_to_decimal,
    vote_seeds,
};
use solana_program::pubkey::Pubkey;

#[test]
fn decimal_rendering_matches_formatting() {
    for n in [0u64, 1, 9, 10, 42, 99, 100, 12345, u64::MAX] {
        assert_eq!(u64_to_decimal(n), n.to_string().into_bytes());
    }
}

#[test]
fn derivation_is_deterministic() {
    let pid = vec![7u8; 32];
    let a = try_find_pda(&global_seeds(), &pid).unwrap();
    let b = try_find_pda(&global_seeds(), &pid).unwrap();
    assert_eq!(a.0, b.0);
    assert_eq!(a.1, b.1);
}

#[test]
fn derivation_matches_the_host_scheme() {
    let pid_bytes = [7u8; 32];
    let pid = Pubkey::new_from_array(pid_bytes);
    let (expected, bump) = Pubkey::find_program_address(&[b"poll", b"1"], &pid);
    let got = try_find_pda(&poll_seeds(1), &pid_bytes.to_vec()).unwrap();
    assert_eq!(got.0, expected.to_bytes().to_vec());
    assert_eq!(got.1, bump);

    let voter = [9u8; 32];
    let (expected, _) = Pubkey::find_program_address(&[b"vote", &voter, b"12"], &pid);
    let got = try_find_pda(&vote_seeds(&voter.to_vec(), 12), &pid_bytes.to_vec()).unwrap();
    assert_eq!(got.0, expected.to_bytes().to_vec());
}

#[test]
fn distinct_logical_keys_derive_distinct_addresses() {
    let pid = vec![7u8; 32];
    let g = try_find_pda(&global_seeds(), &pid).unwrap().0;
    let p1 = try_find_pda(&poll_seeds(1), &pid).unwrap().0;
    let p2 = try_find_pda(&poll_seeds(2), &pid).unwrap().0;
    let v = try_find_pda(&vote_seeds(&vec![9u8; 32], 1), &pid).unwrap().0;
    assert_ne!(g, p1);
    assert_ne!(p1, p2);
    assert_ne!(p1, v);
}

#[test]
fn base58_matches_the_host_rendering() {
    let bytes = [3u8; 32];
    let s = address_to_base58(&bytes.to_vec());
    assert_eq!(s, Pubkey::new_from_array(bytes).to_string());
    assert_eq!(
        address_to_base58(&vec![0u8; 32]),
        "11111111111111111111111111111111"
    );
}

#[test]
fn system_allocator_is_the_all_zero_address() {
    assert!(is_system_allocator(&vec![0u8; 32]));
    assert!(!is_system_allocator(&vec![1u8; 32]));
    let mut almost = vec![0u8; 32];
    almost[31] = 1;
    assert!(!is_system_allocator(&almost));
}
