//! Deterministic address derivation.  Every record's storage address is a
//! pure function of its logical key: a kind tag plus key components, turned
//! into a seed list and hashed by the host's program-derived-address scheme.
//! The module also carries the base-58 rendering of raw addresses and the
//! identity of the recognized system allocator.

use vstd::prelude::*;
use vstd::slice::slice_to_vec;
use vstd::string::StrSliceExecFns;
use vstd::utf8::encode_utf8;

verus! {

// ---------------------------------------------------------------------------
// Decimal rendering of poll identifiers, used as a key component
// ---------------------------------------------------------------------------

/// The ASCII decimal digits of `n`, most significant first.
pub open spec fn spec_dec_digits(n: u64) -> Seq<u8>
    decreases n,
{
    if n < 10 {
        seq![(48 + n) as u8]
    } else {
        spec_dec_digits(n / 10) + seq![(48 + n % 10) as u8]
    }
}

pub proof fn lemma_dec_digits_shape(n: u64)
    ensures
        spec_dec_digits(n).len() >= 1,
        spec_dec_digits(n).last() == (48 + n % 10) as u8,
        n < 10 ==> spec_dec_digits(n).len() == 1,
        n >= 10 ==> spec_dec_digits(n).len() >= 2 && spec_dec_digits(n).drop_last()
            == spec_dec_digits(n / 10),
    decreases n,
{
    if n < 10 {
        assert(n % 10 == n);
    } else {
        lemma_dec_digits_shape(n / 10);
        assert(spec_dec_digits(n).drop_last() =~= spec_dec_digits(n / 10));
    }
}

/// Distinct numbers have distinct decimal renderings.
pub proof fn lemma_dec_digits_injective(a: u64, b: u64)
    requires
        spec_dec_digits(a) == spec_dec_digits(b),
    ensures
        a == b,
    decreases a,
{
    lemma_dec_digits_shape(a);
    lemma_dec_digits_shape(b);
    if a < 10 && b < 10 {
        assert(spec_dec_digits(a)[0] == spec_dec_digits(b)[0]);
    } else if a >= 10 && b >= 10 {
        lemma_dec_digits_injective(a / 10, b / 10);
        vstd::arithmetic::div_mod::lemma_fundamental_div_mod(a as int, 10);
        vstd::arithmetic::div_mod::lemma_fundamental_div_mod(b as int, 10);
    }
}

/// Reversal written as an index map, matching how digits are collected.
spec fn rev_bytes(s: Seq<u8>) -> Seq<u8> {
    Seq::new(s.len(), |j: int| s[s.len() - 1 - j])
}

/// Renders `n` in decimal, as the host does when it strings a poll
/// identifier into a seed.
pub fn u64_to_decimal(n: u64) -> (r: Vec<u8>)
    ensures
        r@ == spec_dec_digits(n),
{
    let mut digits: Vec<u8> = Vec::new();
    let mut m = n;
    while m >= 10
        invariant
            spec_dec_digits(n) == spec_dec_digits(m) + rev_bytes(digits@),
        decreases m,
    {
        let d: u8 = 48 + (m % 10) as u8;
        proof {
            assert(rev_bytes(digits@.push(d)) =~= seq![d] + rev_bytes(digits@));
            assert(spec_dec_digits(m / 10) + (seq![d] + rev_bytes(digits@)) =~= (spec_dec_digits(
                m / 10,
            ) + seq![d]) + rev_bytes(digits@));
        }
        digits.push(d);
        m = m / 10;
    }
    let last: u8 = 48 + m as u8;
    proof {
        assert(rev_bytes(digits@.push(last)) =~= seq![last] + rev_bytes(digits@));
        assert(spec_dec_digits(m) =~= seq![last]);
    }
    digits.push(last);
    let k = digits.len();
    let mut r: Vec<u8> = Vec::new();
    let mut i: usize = 0;
    while i < k
        invariant
            k == digits@.len(),
            i <= k,
            r@ =~= rev_bytes(digits@).take(i as int),
        decreases k - i,
    {
        r.push(digits[k - 1 - i]);
        proof {
            assert(r@ =~= rev_bytes(digits@).take(i + 1));
        }
        i = i + 1;
    }
    proof {
        assert(rev_bytes(digits@).take(k as int) =~= rev_bytes(digits@));
    }
    r
}

// ---------------------------------------------------------------------------
// Seed lists: the logical keys of the three record kinds
// ---------------------------------------------------------------------------

/// The seed list of the singleton counter record.
pub open spec fn spec_global_seeds() -> Seq<Seq<u8>> {
    seq![encode_utf8("global"@)]
}

/// The seed list of the poll record with identifier `id`.
pub open spec fn spec_poll_seeds(id: u64) -> Seq<Seq<u8>> {
    seq![encode_utf8("poll"@), spec_dec_digits(id)]
}

/// The seed list of the vote record for `voter` on poll `poll_id`.
pub open spec fn spec_vote_seeds(voter: Seq<u8>, poll_id: u64) -> Seq<Seq<u8>> {
    seq![encode_utf8("vote"@), voter, spec_dec_digits(poll_id)]
}

pub fn global_seeds() -> (r: Vec<Vec<u8>>)
    ensures
        r.deep_view() == spec_global_seeds(),
{
    let mut r: Vec<Vec<u8>> = Vec::new();
    r.push(("global").as_bytes_vec());
    proof {
        assert(r.deep_view() =~~= spec_global_seeds());
    }
    r
}

pub fn poll_seeds(id: u64) -> (r: Vec<Vec<u8>>)
    ensures
        r.deep_view() == spec_poll_seeds(id),
{
    let mut r: Vec<Vec<u8>> = Vec::new();
    r.push(("poll").as_bytes_vec());
    r.push(u64_to_decimal(id));
    proof {
        assert(r.deep_view() =~~= spec_poll_seeds(id));
    }
    r
}

pub fn vote_seeds(voter: &Vec<u8>, poll_id: u64) -> (r: Vec<Vec<u8>>)
    ensures
        r.deep_view() == spec_vote_seeds(voter@, poll_id),
{
    let mut r: Vec<Vec<u8>> = Vec::new();
    r.push(("vote").as_bytes_vec());
    r.push(slice_to_vec(voter.as_slice()));
    r.push(u64_to_decimal(poll_id));
    proof {
        assert(r.deep_view() =~~= spec_vote_seeds(voter@, poll_id));
    }
    r
}

// ---------------------------------------------------------------------------
// Derivation is deterministic and logical keys are injective into seeds
// ---------------------------------------------------------------------------

/// Equal logical keys always derive the same address: derivation is a pure
/// function of the seed list and the program id.
pub proof fn lemma_derivation_deterministic(
    seeds1: Seq<Seq<u8>>,
    seeds2: Seq<Seq<u8>>,
    program_id1: Seq<u8>,
    program_id2: Seq<u8>,
)
    requires
        seeds1 == seeds2,
        program_id1 == program_id2,
    ensures
        find_pda(seeds1, program_id1) == find_pda(seeds2, program_id2),
{
}

/// Distinct logical keys build distinct seed lists: the three kinds use
/// seed lists of different lengths, distinct poll identifiers render to
/// distinct decimal strings, and distinct (voter, poll) pairs differ in a
/// seed component.  That the hash then separates distinct seed lists is the
/// host scheme's collision resistance, which is assumed, not proved.
pub proof fn lemma_seed_lists_injective(
    voter1: Seq<u8>,
    voter2: Seq<u8>,
    id1: u64,
    id2: u64,
)
    ensures
        spec_global_seeds() != spec_poll_seeds(id1),
        spec_global_seeds() != spec_vote_seeds(voter1, id1),
        spec_poll_seeds(id1) != spec_vote_seeds(voter1, id2),
        id1 != id2 ==> spec_poll_seeds(id1) != spec_poll_seeds(id2),
        voter1 != voter2 || id1 != id2 ==> spec_vote_seeds(voter1, id1) != spec_vote_seeds(
            voter2,
            id2,
        ),
{
    assert(spec_global_seeds().len() == 1);
    assert(spec_poll_seeds(id1).len() == 2);
    assert(spec_poll_seeds(id2).len() == 2);
    assert(spec_vote_seeds(voter1, id1).len() == 3);
    assert(spec_vote_seeds(voter2, id2).len() == 3);
    if id1 != id2 && spec_poll_seeds(id1) == spec_poll_seeds(id2) {
        assert(spec_poll_seeds(id1)[1] == spec_poll_seeds(id2)[1]);
        lemma_dec_digits_injective(id1, id2);
    }
    if (voter1 != voter2 || id1 != id2) && spec_vote_seeds(voter1, id1) == spec_vote_seeds(
        voter2,
        id2,
    ) {
        assert(spec_vote_seeds(voter1, id1)[1] == spec_vote_seeds(voter2, id2)[1]);
        assert(spec_vote_seeds(voter1, id1)[2] == spec_vote_seeds(voter2, id2)[2]);
        lemma_dec_digits_injective(id1, id2);
    }
}

// ---------------------------------------------------------------------------
// The host's derivation scheme, named but not interpreted
// ---------------------------------------------------------------------------

/// What the host's program-derived-address search returns for a seed list
/// and program id: the address and its bump salt, or nothing in the
/// statistically improbable event that no bump yields a valid address.
pub uninterp spec fn find_pda(seeds: Seq<Seq<u8>>, program_id: Seq<u8>) -> Option<(Seq<u8>, u8)>;

/// The derived address, when derivation succeeds.
pub open spec fn pda_address(seeds: Seq<Seq<u8>>, program_id: Seq<u8>) -> Seq<u8> {
    find_pda(seeds, program_id).unwrap().0
}

/// Relies on solana_program's `Pubkey::try_find_program_address`: the result
/// is computed from the seed byte strings and the program id alone, and a
/// returned address is 32 bytes.  `None` means the search found no valid
/// address: no bump seed yields one, or the seed list falls outside the
/// scheme's limits on seed count and length.
#[verifier::external_body]
pub fn try_find_pda(seeds: &Vec<Vec<u8>>, program_id: &Vec<u8>) -> (r: Option<(Vec<u8>, u8)>)
    requires
        program_id@.len() == 32,
    ensures
        match r {
            Some(p) => find_pda(seeds.deep_view(), program_id@) == Some((p.0@, p.1))
                && p.0@.len() == 32,
            None => find_pda(seeds.deep_view(), program_id@) is None,
        },
{
    let seed_refs: Vec<&[u8]> = seeds.iter().map(|s| s.as_slice()).collect();
    let pid = solana_program::pubkey::Pubkey::new_from_array(
        program_id.as_slice().try_into().unwrap(),
    );
    solana_program::pubkey::Pubkey::try_find_program_address(&seed_refs, &pid).map(
        |p: (solana_program::pubkey::Pubkey, u8)| (p.0.to_bytes().to_vec(), p.1),
    )
}

/// The base-58 text of a 32-byte address.
pub uninterp spec fn base58_of(address: Seq<u8>) -> Seq<char>;

/// Relies on the base-58 `Display` of solana_program's `Pubkey`: the text
/// depends on the 32 address bytes alone, is ASCII, and is at most 44
/// characters long.
#[verifier::external_body]
pub fn address_to_base58(address: &Vec<u8>) -> (r: String)
    requires
        address@.len() == 32,
    ensures
        r@ == base58_of(address@),
        vstd::utf8::is_ascii_chars(r@),
        r@.len() <= 44,
{
    solana_program::pubkey::Pubkey::new_from_array(address.as_slice().try_into().unwrap())
        .to_string()
}

/// The address of the recognized system allocator: the all-zero address.
pub open spec fn spec_system_allocator_id() -> Seq<u8> {
    Seq::new(32, |i: int| 0u8)
}

/// Relies on solana_system_interface's `program::check_id`: it recognizes
/// exactly the system program's id, whose base-58 text of thirty-two `1`s
/// decodes to the all-zero 32-byte address.
#[verifier::external_body]
pub fn is_system_allocator(address: &Vec<u8>) -> (r: bool)
    requires
        address@.len() == 32,
    ensures
        r == (address@ == spec_system_allocator_id()),
{
    let key = solana_program::pubkey::Pubkey::new_from_array(
        address.as_slice().try_into().unwrap(),
    );
    solana_system_interface::program::check_id(&key)
}

} // verus!
