//! The transition engine.  Each command validates authorization, derives
//! and checks the storage addresses it touches, and then either changes
//! nothing and reports one error, or commits all of its writes.  The whole
//! outcome is pinned down by a specification-level transition function over
//! the ledger's map model.

use crate::address::{
    base58_of, find_pda, global_seeds, is_system_allocator, pda_address, poll_seeds,
    spec_global_seeds, spec_poll_seeds, spec_system_allocator_id, spec_vote_seeds,
    address_to_base58, try_find_pda, vote_seeds,
};
use crate::codec::string_encodable;
use crate::errors::PollError;
use crate::instruction::{
    spec_unpack, CreatePollModel, CreatePollPayload, InstructionModel, VoteOnPollModel,
    VoteOnPollPayload,
};
use crate::ledger::{AccountModel, Ledger};
use crate::state::{
    encode_global, encode_poll, encode_vote, global_encodable, lemma_global_encoded_len,
    lemma_strings_size_elem, lemma_strings_size_lower, lemma_strings_size_nonneg,
    lemma_strings_size_take_succ, lemma_tag_bytes, poll_encodable,
    spec_decode_global, spec_decode_poll, spec_encode_global, spec_encode_poll, spec_encode_vote,
    spec_poll_size, spec_strings_size, spec_vote_size, vote_encodable, GlobalModel, GlobalState,
    PollModel, PollState, VoteModel, VoteState, GLOBAL_STATE_SIZE,
};
use vstd::prelude::*;
use vstd::string::StringExecFns;
use vstd::utf8::encode_utf8;

verus! {

/// The serialized poll record must stay under this many bytes.
pub const POLL_SIZE_CEILING: usize = 100000;

/// What a transition knows about one account the caller handed it: its
/// address and the instruction's signer and writable flags for it.
pub struct AccountMeta {
    pub address: Vec<u8>,
    pub is_signer: bool,
    pub is_writable: bool,
}

#[verifier::ext_equal]
pub ghost struct AccountMetaModel {
    pub address: Seq<u8>,
    pub is_signer: bool,
    pub is_writable: bool,
}

impl View for AccountMeta {
    type V = AccountMetaModel;

    open spec fn view(&self) -> AccountMetaModel {
        AccountMetaModel {
            address: self.address@,
            is_signer: self.is_signer,
            is_writable: self.is_writable,
        }
    }
}

// ---------------------------------------------------------------------------
// The specification-level transitions
// ---------------------------------------------------------------------------

/// The global counter a creation observes: a fresh initial record when the
/// counter account is not yet allocated, else the stored record decoded.
pub open spec fn spec_effective_global(
    pre: Map<Seq<u8>, AccountModel>,
    global_address: Seq<u8>,
) -> Option<GlobalModel> {
    if !pre.contains_key(global_address) {
        Some(GlobalModel { discriminator: "global"@, is_initialized: true, id_counter: 1u64 })
    } else {
        spec_decode_global(pre[global_address].data)
    }
}

/// Machine limit: the next poll identifier must still fit its word.
pub open spec fn spec_counter_has_room(
    pre: Map<Seq<u8>, AccountModel>,
    global_address: Seq<u8>,
) -> bool {
    match spec_effective_global(pre, global_address) {
        Some(g) => g.id_counter < u64::MAX,
        None => true,
    }
}

/// The flag and allocator checks a creation command must pass.
pub open spec fn spec_create_authorized(
    initiator: AccountMetaModel,
    global_acct: AccountMetaModel,
    poll_acct: AccountMetaModel,
    allocator: AccountMetaModel,
) -> bool {
    &&& initiator.is_signer
    &&& initiator.is_writable
    &&& global_acct.is_writable
    &&& poll_acct.is_writable
    &&& allocator.address == spec_system_allocator_id()
}

/// The poll record a creation command assembles: tagged with the observed
/// counter value and the initiator as creator.
pub open spec fn spec_new_poll_record(
    id: u64,
    creator: Seq<u8>,
    payload: CreatePollModel,
) -> PollModel {
    PollModel {
        discriminator: "poll"@,
        is_initialized: true,
        id: id,
        creator_address: base58_of(creator),
        title: payload.title,
        description: payload.description,
        ends_at: payload.ends_at,
        options: payload.options,
        authorized_addresses: payload.authorized_addresses,
    }
}

/// What a poll-creation command does to the ledger, or the one error it
/// reports while leaving the ledger unchanged.
pub open spec fn spec_create_poll(
    pre: Map<Seq<u8>, AccountModel>,
    program_id: Seq<u8>,
    initiator: AccountMetaModel,
    global_acct: AccountMetaModel,
    poll_acct: AccountMetaModel,
    allocator: AccountMetaModel,
    payload: CreatePollModel,
) -> Result<Map<Seq<u8>, AccountModel>, PollError> {
    if !spec_create_authorized(initiator, global_acct, poll_acct, allocator) {
        Err(PollError::AuthorizationError)
    } else if find_pda(spec_global_seeds(), program_id) is None {
        Err(PollError::AddressMismatch)
    } else if global_acct.address != pda_address(spec_global_seeds(), program_id) {
        Err(PollError::AddressMismatch)
    } else {
        match spec_effective_global(pre, global_acct.address) {
            None => Err(PollError::DecodeError),
            Some(g) => {
                if find_pda(spec_poll_seeds(g.id_counter), program_id) is None {
                    Err(PollError::AddressMismatch)
                } else if poll_acct.address != pda_address(
                    spec_poll_seeds(g.id_counter),
                    program_id,
                ) {
                    Err(PollError::AddressMismatch)
                } else {
                    let record = spec_new_poll_record(g.id_counter, initiator.address, payload);
                    if spec_poll_size(record) >= POLL_SIZE_CEILING {
                        Err(PollError::RecordTooLarge)
                    } else if pre.contains_key(poll_acct.address) {
                        Err(PollError::AllocationConflict)
                    } else {
                        let global_owner = if pre.contains_key(global_acct.address) {
                            pre[global_acct.address].owner
                        } else {
                            program_id
                        };
                        let g2 = GlobalModel {
                            discriminator: g.discriminator,
                            is_initialized: g.is_initialized,
                            id_counter: (g.id_counter + 1) as u64,
                        };
                        Ok(
                            pre.insert(
                                global_acct.address,
                                AccountModel { owner: global_owner, data: spec_encode_global(g2) },
                            ).insert(
                                poll_acct.address,
                                AccountModel { owner: program_id, data: spec_encode_poll(record) },
                            ),
                        )
                    }
                }
            },
        }
    }
}

/// Machine limit: each text field individually fits the machine word, as
/// any string held in memory does.
pub open spec fn spec_payload_fields_fit(payload: CreatePollModel) -> bool {
    &&& encode_utf8(payload.title).len() <= usize::MAX
    &&& encode_utf8(payload.description).len() <= usize::MAX
    &&& forall|i: int|
        0 <= i < payload.options.len() ==> encode_utf8(#[trigger] payload.options[i]).len()
            <= usize::MAX
    &&& forall|i: int|
        0 <= i < payload.authorized_addresses.len() ==> encode_utf8(
            #[trigger] payload.authorized_addresses[i],
        ).len() <= usize::MAX
}

/// Machine limit: each text field of a poll record fits the machine word.
pub open spec fn spec_poll_fields_fit(p: PollModel) -> bool {
    &&& encode_utf8(p.creator_address).len() <= usize::MAX
    &&& encode_utf8(p.title).len() <= usize::MAX
    &&& encode_utf8(p.description).len() <= usize::MAX
    &&& forall|i: int|
        0 <= i < p.options.len() ==> encode_utf8(#[trigger] p.options[i]).len() <= usize::MAX
    &&& forall|i: int|
        0 <= i < p.authorized_addresses.len() ==> encode_utf8(
            #[trigger] p.authorized_addresses[i],
        ).len() <= usize::MAX
}

// ---------------------------------------------------------------------------
// Helpers
// ---------------------------------------------------------------------------

/// A fresh copy of a string list.
fn clone_string_vec(v: &Vec<String>) -> (r: Vec<String>)
    ensures
        r.deep_view() == v.deep_view(),
{
    let n = v.len();
    let mut r: Vec<String> = Vec::new();
    let mut i: usize = 0;
    while i < n
        invariant
            n == v@.len(),
            i <= n,
            r@.len() == i,
            forall|j: int| 0 <= j < i ==> #[trigger] r@[j]@ == v@[j]@,
        decreases n - i,
    {
        let s = v[i].clone();
        proof {
            assert(s@ == v@[i as int]@);
        }
        r.push(s);
        i = i + 1;
    }
    proof {
        assert forall|j: int| 0 <= j < n implies r.deep_view()[j] == v.deep_view()[j] by {
            assert(r@[j]@ == v@[j]@);
        }
        assert(r.deep_view() =~= v.deep_view());
    }
    r
}

/// The saturated serialized size of a poll record: the exact size when it
/// fits the machine word, the word's maximum otherwise.  Either way the
/// comparison against the record-size ceiling comes out the same.
fn poll_size_saturating(p: &PollState) -> (r: usize)
    requires
        spec_poll_fields_fit(p@),
    ensures
        r as int == if spec_poll_size(p@) <= usize::MAX as int {
            spec_poll_size(p@)
        } else {
            usize::MAX as int
        },
{
    proof {
        lemma_strings_size_nonneg(p@.options);
        lemma_strings_size_nonneg(p@.authorized_addresses);
    }
    let mut len: usize = (4 + 4) + 1 + 8;
    len = len.saturating_add(4).saturating_add(p.creator_address.as_str().len());
    len = len.saturating_add(4).saturating_add(p.title.as_str().len());
    len = len.saturating_add(4).saturating_add(p.description.as_str().len());
    len = len.saturating_add(8 + 4 + 4);
    proof {
        assert(p@.options.take(0) =~= Seq::<Seq<char>>::empty());
        assert(spec_strings_size(p@.options.take(0)) == 0);
    }
    let ghost base: int = 45 + encode_utf8(p@.creator_address).len() as int + encode_utf8(
        p@.title,
    ).len() as int + encode_utf8(p@.description).len() as int;
    let n_opt = p.options.len();
    let mut i: usize = 0;
    while i < n_opt
        invariant
            n_opt == p.options@.len(),
            i <= n_opt,
            spec_poll_fields_fit(p@),
            base == 45 + encode_utf8(p@.creator_address).len() as int + encode_utf8(
                p@.title,
            ).len() as int + encode_utf8(p@.description).len() as int,
            len as int == if base + spec_strings_size(p@.options.take(i as int)) <= usize::MAX
                as int {
                base + spec_strings_size(p@.options.take(i as int))
            } else {
                usize::MAX as int
            },
        decreases n_opt - i,
    {
        proof {
            lemma_strings_size_take_succ(p@.options, i as int);
            lemma_strings_size_nonneg(p@.options.take(i as int));
            assert(p@.options[i as int] == p.options@[i as int]@);
        }
        len = len.saturating_add(4).saturating_add(p.options[i].as_str().len());
        i = i + 1;
    }
    proof {
        assert(p@.options.take(n_opt as int) =~= p@.options);
    }
    let ghost base2: int = base + spec_strings_size(p@.options);
    proof {
        assert(p@.authorized_addresses.take(0) =~= Seq::<Seq<char>>::empty());
        assert(spec_strings_size(p@.authorized_addresses.take(0)) == 0);
    }
    let n_auth = p.authorized_addresses.len();
    let mut j: usize = 0;
    while j < n_auth
        invariant
            n_auth == p.authorized_addresses@.len(),
            j <= n_auth,
            spec_poll_fields_fit(p@),
            base2 == 45 + encode_utf8(p@.creator_address).len() as int + encode_utf8(
                p@.title,
            ).len() as int + encode_utf8(p@.description).len() as int + spec_strings_size(
                p@.options,
            ),
            len as int == if base2 + spec_strings_size(
                p@.authorized_addresses.take(j as int),
            ) <= usize::MAX as int {
                base2 + spec_strings_size(p@.authorized_addresses.take(j as int))
            } else {
                usize::MAX as int
            },
        decreases n_auth - j,
    {
        proof {
            lemma_strings_size_take_succ(p@.authorized_addresses, j as int);
            lemma_strings_size_nonneg(p@.authorized_addresses.take(j as int));
            assert(p@.authorized_addresses[j as int] == p.authorized_addresses@[j as int]@);
        }
        len = len.saturating_add(4).saturating_add(p.authorized_addresses[j].as_str().len());
        j = j + 1;
    }
    proof {
        assert(p@.authorized_addresses.take(n_auth as int) =~= p@.authorized_addresses);
    }
    len
}

/// A poll record under the size ceiling can be encoded: every piece fits
/// its length prefix.
pub proof fn lemma_small_poll_encodable(record: PollModel)
    requires
        record.discriminator == "poll"@,
        spec_poll_size(record) < POLL_SIZE_CEILING,
    ensures
        poll_encodable(record),
{
    lemma_tag_bytes();
    lemma_strings_size_nonneg(record.options);
    lemma_strings_size_nonneg(record.authorized_addresses);
    lemma_strings_size_lower(record.options);
    lemma_strings_size_lower(record.authorized_addresses);
    assert forall|i: int| 0 <= i < record.options.len() implies string_encodable(
        #[trigger] record.options[i],
    ) by {
        lemma_strings_size_elem(record.options, i);
    }
    assert forall|i: int| 0 <= i < record.authorized_addresses.len() implies string_encodable(
        #[trigger] record.authorized_addresses[i],
    ) by {
        lemma_strings_size_elem(record.authorized_addresses, i);
    }
}

// ---------------------------------------------------------------------------
// The poll-creation transition
// ---------------------------------------------------------------------------

/// Creates a poll: lazily initializes the global counter, takes the
/// counter value as the poll's identifier, persists the poll record at its
/// derived address, and advances the counter — or changes nothing and
/// reports exactly the error of the specification transition.
///
/// The counter-room premise is a machine limit: the next identifier must
/// fit a 64-bit word.
#[verifier::rlimit(100)]
pub fn create_poll(
    ledger: &mut Ledger,
    program_id: &Vec<u8>,
    initiator: &AccountMeta,
    global_account: &AccountMeta,
    poll_account: &AccountMeta,
    allocator: &AccountMeta,
    payload: &CreatePollPayload,
) -> (r: Result<(), PollError>)
    requires
        old(ledger).wf(),
        program_id@.len() == 32,
        initiator.address@.len() == 32,
        spec_counter_has_room(old(ledger)@, global_account.address@),
        spec_payload_fields_fit(payload@),
    ensures
        final(ledger).wf(),
        ({
            let s = spec_create_poll(
                old(ledger)@,
                program_id@,
                initiator@,
                global_account@,
                poll_account@,
                allocator@,
                payload@,
            );
            match r {
                Ok(u) => s is Ok && final(ledger)@ == s.unwrap(),
                Err(e) => s == Err::<Map<Seq<u8>, AccountModel>, PollError>(e) && final(ledger)@
                    == old(ledger)@,
            }
        }),
{
    // Authorization: flags and the recognized allocator.
    if !(initiator.is_signer && initiator.is_writable && global_account.is_writable
        && poll_account.is_writable) {
        return Err(PollError::AuthorizationError);
    }
    if allocator.address.len() != 32 {
        proof {
            assert(allocator.address@ != spec_system_allocator_id());
        }
        return Err(PollError::AuthorizationError);
    }
    if !is_system_allocator(&allocator.address) {
        return Err(PollError::AuthorizationError);
    }
    // The counter account must sit at its derived address.
    let gseeds = global_seeds();
    let gpda = match try_find_pda(&gseeds, program_id) {
        Some(p) => p,
        None => {
            return Err(PollError::AddressMismatch);
        },
    };
    if !crate::ledger::bytes_eq(global_account.address.as_slice(), gpda.0.as_slice()) {
        return Err(PollError::AddressMismatch);
    }
    // Observe the counter, initializing it lazily.
    let mut fresh_global = false;
    let gstate: GlobalState = match ledger.read(&global_account.address) {
        None => {
            fresh_global = true;
            GlobalState::new()
        },
        Some(e) => match crate::state::decode_global(e.data.as_slice()) {
            Some(g) => g,
            None => {
                return Err(PollError::DecodeError);
            },
        },
    };
    proof {
        assert(spec_effective_global(old(ledger)@, global_account.address@) == Some(gstate@));
    }
    let counter = gstate.id_counter;
    // The poll account must sit at the address derived from the counter.
    let pseeds = poll_seeds(counter);
    let ppda = match try_find_pda(&pseeds, program_id) {
        Some(p) => p,
        None => {
            return Err(PollError::AddressMismatch);
        },
    };
    if !crate::ledger::bytes_eq(poll_account.address.as_slice(), ppda.0.as_slice()) {
        return Err(PollError::AddressMismatch);
    }
    // Assemble the record and hold it to the size ceiling.
    let creator = address_to_base58(&initiator.address);
    let record = PollState {
        discriminator: String::from_str("poll"),
        is_initialized: true,
        id: counter,
        creator_address: creator,
        title: payload.title.clone(),
        description: payload.description.clone(),
        ends_at: payload.ends_at,
        options: clone_string_vec(&payload.options),
        authorized_addresses: clone_string_vec(&payload.authorized_addresses),
    };
    let ghost spec_record = spec_new_poll_record(counter, initiator.address@, payload@);
    proof {
        assert(record@ =~= spec_record);
        vstd::utf8::is_ascii_chars_encode_utf8(record@.creator_address);
        assert(spec_poll_fields_fit(record@));
    }
    let size = poll_size_saturating(&record);
    if size >= POLL_SIZE_CEILING {
        return Err(PollError::RecordTooLarge);
    }
    if ledger.contains(&poll_account.address) {
        return Err(PollError::AllocationConflict);
    }
    // All validations passed: commit the writes.
    proof {
        lemma_small_poll_encodable(spec_record);
        lemma_tag_bytes();
        if !fresh_global {
            crate::codec::lemma_read_string_encodable(
                old(ledger)@[global_account.address@].data,
            );
        }
    }
    if fresh_global {
        match ledger.allocate(&global_account.address, GLOBAL_STATE_SIZE, program_id) {
            Ok(u) => {},
            Err(e) => {
                proof {
                    assert(false);
                }
                return Err(e);
            },
        }
    }
    let g2 = GlobalState {
        discriminator: gstate.discriminator,
        is_initialized: gstate.is_initialized,
        id_counter: counter + 1,
    };
    let gbytes = encode_global(&g2);
    proof {
        if fresh_global {
            lemma_global_encoded_len(g2@);
            assert(gbytes@.len() == GLOBAL_STATE_SIZE);
        }
    }
    ledger.write(&global_account.address, gbytes);
    // A fresh allocation is zero-filled, and a zero-filled buffer decodes
    // as an uninitialized record (state::lemma_zeroed_account_is_uninitialized),
    // so a freshly allocated poll account can never already carry the
    // initialized mark.
    if !ledger.contains(&poll_account.address) {
        match ledger.allocate(&poll_account.address, size, program_id) {
            Ok(u) => {},
            Err(e) => {
                proof {
                    assert(false);
                }
                return Err(e);
            },
        }
    }
    let pbytes = encode_poll(&record);
    proof {
        crate::state::lemma_poll_encoded_len(record@);
        assert(pbytes@.len() == size);
    }
    ledger.write(&poll_account.address, pbytes);
    proof {
        let s = spec_create_poll(
            old(ledger)@,
            program_id@,
            initiator@,
            global_account@,
            poll_account@,
            allocator@,
            payload@,
        );
        assert(s is Ok);
        assert(final(ledger)@ =~= s.unwrap());
    }
    Ok(())
}

// ---------------------------------------------------------------------------
// The vote-casting transition
// ---------------------------------------------------------------------------

/// The flag, ownership and allocator checks a vote command must pass.
pub open spec fn spec_vote_authorized(
    pre: Map<Seq<u8>, AccountModel>,
    program_id: Seq<u8>,
    initiator: AccountMetaModel,
    poll_acct: AccountMetaModel,
    vote_acct: AccountMetaModel,
    allocator: AccountMetaModel,
) -> bool {
    &&& initiator.is_signer
    &&& initiator.is_writable
    &&& vote_acct.is_writable
    &&& pre.contains_key(poll_acct.address)
    &&& pre[poll_acct.address].owner == program_id
    &&& allocator.address == spec_system_allocator_id()
}

/// The vote record a vote command persists.
pub open spec fn spec_new_vote_record(
    poll_id: u64,
    voter: Seq<u8>,
    option: Seq<char>,
) -> VoteModel {
    VoteModel {
        discriminator: "vote"@,
        is_initialized: true,
        poll_id: poll_id,
        voter_address: base58_of(voter),
        option: option,
    }
}

/// What a vote-casting command does to the ledger, or the one error it
/// reports while leaving the ledger unchanged.  An account that does not
/// hold an initialized poll record cannot be read as one, so both a
/// malformed buffer and a never-written record fail with `DecodeError`.
pub open spec fn spec_vote_on_poll(
    pre: Map<Seq<u8>, AccountModel>,
    program_id: Seq<u8>,
    initiator: AccountMetaModel,
    poll_acct: AccountMetaModel,
    vote_acct: AccountMetaModel,
    allocator: AccountMetaModel,
    payload: VoteOnPollModel,
    now: u64,
) -> Result<Map<Seq<u8>, AccountModel>, PollError> {
    if !spec_vote_authorized(pre, program_id, initiator, poll_acct, vote_acct, allocator) {
        Err(PollError::AuthorizationError)
    } else if find_pda(spec_poll_seeds(payload.poll_id), program_id) is None {
        Err(PollError::AddressMismatch)
    } else if poll_acct.address != pda_address(spec_poll_seeds(payload.poll_id), program_id) {
        Err(PollError::AddressMismatch)
    } else {
        match spec_decode_poll(pre[poll_acct.address].data) {
            None => Err(PollError::DecodeError),
            Some(poll) => {
                if !poll.is_initialized {
                    Err(PollError::DecodeError)
                } else if now >= poll.ends_at {
                    Err(PollError::PollExpired)
                } else if !poll.authorized_addresses.contains(base58_of(initiator.address)) {
                    Err(PollError::AuthorizationError)
                } else if !poll.options.contains(payload.option) {
                    Err(PollError::InvalidOption)
                } else if find_pda(
                    spec_vote_seeds(initiator.address, payload.poll_id),
                    program_id,
                ) is None {
                    Err(PollError::AddressMismatch)
                } else if vote_acct.address != pda_address(
                    spec_vote_seeds(initiator.address, payload.poll_id),
                    program_id,
                ) {
                    Err(PollError::AddressMismatch)
                } else if pre.contains_key(vote_acct.address) {
                    Err(PollError::AllocationConflict)
                } else {
                    let record = spec_new_vote_record(
                        payload.poll_id,
                        initiator.address,
                        payload.option,
                    );
                    Ok(
                        pre.insert(
                            vote_acct.address,
                            AccountModel { owner: program_id, data: spec_encode_vote(record) },
                        ),
                    )
                }
            },
        }
    }
}

/// Whether the list holds a string equal to `s`.
fn string_vec_contains(v: &Vec<String>, s: &String) -> (r: bool)
    ensures
        r == v.deep_view().contains(s@),
{
    let n = v.len();
    let mut i: usize = 0;
    while i < n
        invariant
            n == v@.len(),
            i <= n,
            forall|j: int| 0 <= j < i ==> #[trigger] v@[j]@ != s@,
        decreases n - i,
    {
        if v[i].eq(s) {
            proof {
                assert(v.deep_view()[i as int] == s@);
            }
            return true;
        }
        i = i + 1;
    }
    proof {
        assert forall|j: int| 0 <= j < v.deep_view().len() implies v.deep_view()[j] != s@ by {
            assert(v@[j]@ != s@);
        }
    }
    false
}

/// Casts a vote: requires an open poll that authorizes the voter and
/// offers the chosen option, persists the vote record at the address
/// derived from (voter, poll), and rejects a second vote for the same
/// pair through the allocation conflict at that address — or changes
/// nothing and reports exactly the error of the specification transition.
///
/// The premise on the option's length is a machine limit.
#[verifier::rlimit(100)]
pub fn vote_on_poll(
    ledger: &mut Ledger,
    program_id: &Vec<u8>,
    initiator: &AccountMeta,
    poll_account: &AccountMeta,
    vote_account: &AccountMeta,
    allocator: &AccountMeta,
    payload: &VoteOnPollPayload,
    now: u64,
) -> (r: Result<(), PollError>)
    requires
        old(ledger).wf(),
        program_id@.len() == 32,
        initiator.address@.len() == 32,
        encode_utf8(payload.option@).len() <= u32::MAX,
        encode_utf8(payload.option@).len() + 73 <= usize::MAX,
    ensures
        final(ledger).wf(),
        ({
            let s = spec_vote_on_poll(
                old(ledger)@,
                program_id@,
                initiator@,
                poll_account@,
                vote_account@,
                allocator@,
                payload@,
                now,
            );
            match r {
                Ok(u) => s is Ok && final(ledger)@ == s.unwrap(),
                Err(e) => s == Err::<Map<Seq<u8>, AccountModel>, PollError>(e) && final(ledger)@
                    == old(ledger)@,
            }
        }),
{
    // Authorization: flags, poll ownership, and the recognized allocator.
    if !(initiator.is_signer && initiator.is_writable && vote_account.is_writable) {
        return Err(PollError::AuthorizationError);
    }
    let owner_ok = match ledger.read(&poll_account.address) {
        Some(e) => crate::ledger::bytes_eq(e.owner.as_slice(), program_id.as_slice()),
        None => false,
    };
    if !owner_ok {
        return Err(PollError::AuthorizationError);
    }
    if allocator.address.len() != 32 {
        proof {
            assert(allocator.address@ != spec_system_allocator_id());
        }
        return Err(PollError::AuthorizationError);
    }
    if !is_system_allocator(&allocator.address) {
        return Err(PollError::AuthorizationError);
    }
    // The poll account must sit at the address derived from the claimed id.
    let pseeds = poll_seeds(payload.poll_id);
    let ppda = match try_find_pda(&pseeds, program_id) {
        Some(p) => p,
        None => {
            return Err(PollError::AddressMismatch);
        },
    };
    if !crate::ledger::bytes_eq(poll_account.address.as_slice(), ppda.0.as_slice()) {
        return Err(PollError::AddressMismatch);
    }
    // Read the poll record and apply its rules.
    let poll: PollState = {
        let e = match ledger.read(&poll_account.address) {
            Some(e) => e,
            None => {
                proof {
                    assert(false);
                }
                return Err(PollError::AuthorizationError);
            },
        };
        match crate::state::decode_poll(e.data.as_slice()) {
            Some(p) => p,
            None => {
                return Err(PollError::DecodeError);
            },
        }
    };
    if !poll.is_initialized {
        return Err(PollError::DecodeError);
    }
    if now >= poll.ends_at {
        return Err(PollError::PollExpired);
    }
    let voter_b58 = address_to_base58(&initiator.address);
    if !string_vec_contains(&poll.authorized_addresses, &voter_b58) {
        return Err(PollError::AuthorizationError);
    }
    if !string_vec_contains(&poll.options, &payload.option) {
        return Err(PollError::InvalidOption);
    }
    // The vote account must sit at the address derived from (voter, poll).
    let vseeds = vote_seeds(&initiator.address, payload.poll_id);
    let vpda = match try_find_pda(&vseeds, program_id) {
        Some(p) => p,
        None => {
            return Err(PollError::AddressMismatch);
        },
    };
    if !crate::ledger::bytes_eq(vote_account.address.as_slice(), vpda.0.as_slice()) {
        return Err(PollError::AddressMismatch);
    }
    if ledger.contains(&vote_account.address) {
        return Err(PollError::AllocationConflict);
    }
    // All validations passed: persist the vote.
    let record = VoteState {
        discriminator: String::from_str("vote"),
        is_initialized: true,
        poll_id: payload.poll_id,
        voter_address: voter_b58,
        option: payload.option.clone(),
    };
    // As with poll creation, the fresh allocation below is zero-filled and
    // so cannot already carry the initialized mark.
    let ghost spec_record = spec_new_vote_record(
        payload.poll_id,
        initiator.address@,
        payload.option@,
    );
    proof {
        assert(record@ =~= spec_record);
        lemma_tag_bytes();
        vstd::utf8::is_ascii_chars_encode_utf8(record@.voter_address);
        assert(vote_encodable(record@));
        assert(spec_vote_size(record@) <= usize::MAX);
    }
    let size = record.get_account_size();
    match ledger.allocate(&vote_account.address, size, program_id) {
        Ok(u) => {},
        Err(e) => {
            proof {
                assert(false);
            }
            return Err(e);
        },
    }
    let vbytes = encode_vote(&record);
    proof {
        crate::state::lemma_vote_encoded_len(record@);
        assert(vbytes@.len() == size);
    }
    ledger.write(&vote_account.address, vbytes);
    proof {
        let s = spec_vote_on_poll(
            old(ledger)@,
            program_id@,
            initiator@,
            poll_account@,
            vote_account@,
            allocator@,
            payload@,
            now,
        );
        assert(s is Ok);
        assert(final(ledger)@ =~= s.unwrap());
    }
    Ok(())
}


// ---------------------------------------------------------------------------
// Laws of the transitions
// ---------------------------------------------------------------------------

/// A vote succeeds exactly when, with the framework checks passing (flags,
/// ownership, allocator, derived addresses, an initialized poll record),
/// the poll is still open, the voter is authorized, the chosen option is
/// offered, and no vote record occupies the derived vote address.
pub proof fn lemma_vote_success_iff(
    pre: Map<Seq<u8>, AccountModel>,
    program_id: Seq<u8>,
    initiator: AccountMetaModel,
    poll_acct: AccountMetaModel,
    vote_acct: AccountMetaModel,
    allocator: AccountMetaModel,
    payload: VoteOnPollModel,
    now: u64,
)
    requires
        spec_vote_authorized(pre, program_id, initiator, poll_acct, vote_acct, allocator),
        find_pda(spec_poll_seeds(payload.poll_id), program_id) is Some,
        poll_acct.address == pda_address(spec_poll_seeds(payload.poll_id), program_id),
        spec_decode_poll(pre[poll_acct.address].data) is Some,
        spec_decode_poll(pre[poll_acct.address].data).unwrap().is_initialized,
        find_pda(spec_vote_seeds(initiator.address, payload.poll_id), program_id) is Some,
        vote_acct.address == pda_address(
            spec_vote_seeds(initiator.address, payload.poll_id),
            program_id,
        ),
    ensures
        ({
            let poll = spec_decode_poll(pre[poll_acct.address].data).unwrap();
            spec_vote_on_poll(
                pre,
                program_id,
                initiator,
                poll_acct,
                vote_acct,
                allocator,
                payload,
                now,
            ) is Ok <==> {
                &&& now < poll.ends_at
                &&& poll.authorized_addresses.contains(base58_of(initiator.address))
                &&& poll.options.contains(payload.option)
                &&& !pre.contains_key(vote_acct.address)
            }
        }),
{
}

/// Submitting the same vote command twice: after the first succeeds, the
/// second fails with `AllocationConflict`.  The premise that the derived
/// vote address differs from the poll account's address rules out a hash
/// collision between two distinct logical keys, which the host's scheme is
/// assumed not to produce.
pub proof fn lemma_double_vote_rejected(
    pre: Map<Seq<u8>, AccountModel>,
    program_id: Seq<u8>,
    initiator: AccountMetaModel,
    poll_acct: AccountMetaModel,
    vote_acct: AccountMetaModel,
    allocator: AccountMetaModel,
    payload: VoteOnPollModel,
    now: u64,
)
    requires
        spec_vote_on_poll(
            pre,
            program_id,
            initiator,
            poll_acct,
            vote_acct,
            allocator,
            payload,
            now,
        ) is Ok,
        vote_acct.address != poll_acct.address,
    ensures
        spec_vote_on_poll(
            spec_vote_on_poll(
                pre,
                program_id,
                initiator,
                poll_acct,
                vote_acct,
                allocator,
                payload,
                now,
            ).unwrap(),
            program_id,
            initiator,
            poll_acct,
            vote_acct,
            allocator,
            payload,
            now,
        ) == Err::<Map<Seq<u8>, AccountModel>, PollError>(PollError::AllocationConflict),
{
    let post = spec_vote_on_poll(
        pre,
        program_id,
        initiator,
        poll_acct,
        vote_acct,
        allocator,
        payload,
        now,
    ).unwrap();
    assert(post[poll_acct.address] == pre[poll_acct.address]);
    assert(post.contains_key(vote_acct.address));
}

/// One successful creation advances the counter by exactly one, and the
/// new poll record carries the counter value observed before the
/// increment as its identifier.  The premise that the two derived
/// addresses differ rules out a hash collision between distinct logical
/// keys, which the host's scheme is assumed not to produce.
pub proof fn lemma_create_poll_increments(
    pre: Map<Seq<u8>, AccountModel>,
    program_id: Seq<u8>,
    initiator: AccountMetaModel,
    global_acct: AccountMetaModel,
    poll_acct: AccountMetaModel,
    allocator: AccountMetaModel,
    payload: CreatePollModel,
)
    requires
        spec_create_poll(
            pre,
            program_id,
            initiator,
            global_acct,
            poll_acct,
            allocator,
            payload,
        ) is Ok,
        spec_counter_has_room(pre, global_acct.address),
        global_acct.address != poll_acct.address,
    ensures
        ({
            let g = spec_effective_global(pre, global_acct.address).unwrap();
            let post = spec_create_poll(
                pre,
                program_id,
                initiator,
                global_acct,
                poll_acct,
                allocator,
                payload,
            ).unwrap();
            &&& spec_effective_global(post, global_acct.address) matches Some(g2)
                && g2.id_counter == g.id_counter + 1
            &&& spec_decode_poll(post[poll_acct.address].data) matches Some(p) && p.id
                == g.id_counter && p.ends_at == payload.ends_at && p.options == payload.options
                && p.authorized_addresses == payload.authorized_addresses
        }),
{
    let g = spec_effective_global(pre, global_acct.address).unwrap();
    let post = spec_create_poll(
        pre,
        program_id,
        initiator,
        global_acct,
        poll_acct,
        allocator,
        payload,
    ).unwrap();
    let record = spec_new_poll_record(g.id_counter, initiator.address, payload);
    let g2 = GlobalModel {
        discriminator: g.discriminator,
        is_initialized: g.is_initialized,
        id_counter: (g.id_counter + 1) as u64,
    };
    lemma_tag_bytes();
    if pre.contains_key(global_acct.address) {
        crate::codec::lemma_read_string_encodable(pre[global_acct.address].data);
    }
    assert(global_encodable(g2));
    crate::state::lemma_global_roundtrip(g2, Seq::empty());
    assert(spec_encode_global(g2) + Seq::<u8>::empty() =~= spec_encode_global(g2));
    assert(post[global_acct.address].data == spec_encode_global(g2));
    lemma_small_poll_encodable(record);
    crate::state::lemma_poll_roundtrip(record, Seq::empty());
    assert(spec_encode_poll(record) + Seq::<u8>::empty() =~= spec_encode_poll(record));
    assert(post[poll_acct.address].data == spec_encode_poll(record));
}

/// From an empty counter, a run of successful creations leaves the counter
/// at one past the number of polls created, and the k-th created poll
/// (counting from one) carries identifier k.  The premises are exactly what
/// each single creation guarantees: the counter starts at its initial value
/// and each step stamps the observed counter and advances it by one.
pub proof fn lemma_counter_trajectory(counters: Seq<u64>, ids: Seq<u64>)
    requires
        counters.len() == ids.len() + 1,
        counters[0] == 1,
        forall|k: int| 0 <= k < ids.len() ==> #[trigger] counters[k + 1] == counters[k] + 1,
        forall|k: int| 0 <= k < ids.len() ==> #[trigger] ids[k] == counters[k],
    ensures
        counters[ids.len() as int] == ids.len() + 1,
        forall|k: int| 0 <= k < ids.len() ==> #[trigger] ids[k] == k + 1,
    decreases ids.len(),
{
    if ids.len() > 0 {
        let n = ids.len() as int;
        lemma_counter_trajectory(counters.drop_last(), ids.drop_last());
        assert(counters[n - 1] == n);
        assert(counters[n] == counters[n - 1] + 1);
        assert forall|k: int| 0 <= k < n implies ids[k] == k + 1 by {
            if k < n - 1 {
                assert(ids.drop_last()[k] == k + 1);
            } else {
                assert(ids[n - 1] == counters[n - 1]);
            }
        }
    }
}


// ---------------------------------------------------------------------------
// The instruction entry point
// ---------------------------------------------------------------------------

impl DeepView for AccountMeta {
    type V = AccountMetaModel;

    open spec fn deep_view(&self) -> AccountMetaModel {
        self.view()
    }
}

/// What one raw instruction does to the ledger: decode the command, then
/// apply its transition to the positional account list for that command.
/// Both commands take four accounts; a shorter list cannot carry the
/// required signer and is rejected as unauthorized.
pub open spec fn spec_process_instruction(
    pre: Map<Seq<u8>, AccountModel>,
    program_id: Seq<u8>,
    accounts: Seq<AccountMetaModel>,
    data: Seq<u8>,
    now: u64,
) -> Result<Map<Seq<u8>, AccountModel>, PollError> {
    match spec_unpack(data) {
        Err(e) => Err(e),
        Ok(ins) => if accounts.len() < 4 {
            Err(PollError::AuthorizationError)
        } else {
            match ins {
                InstructionModel::CreatePoll(p) => spec_create_poll(
                    pre,
                    program_id,
                    accounts[0],
                    accounts[1],
                    accounts[2],
                    accounts[3],
                    p,
                ),
                InstructionModel::VoteOnPoll(p) => spec_vote_on_poll(
                    pre,
                    program_id,
                    accounts[0],
                    accounts[1],
                    accounts[2],
                    accounts[3],
                    p,
                    now,
                ),
            }
        },
    }
}

/// Decodes and applies one instruction.  The premises beyond well-formed
/// inputs restate the machine limits of the two transitions for whichever
/// command the buffer decodes to.
pub fn process_instruction(
    ledger: &mut Ledger,
    program_id: &Vec<u8>,
    accounts: &Vec<AccountMeta>,
    data: &[u8],
    now: u64,
) -> (r: Result<(), PollError>)
    requires
        old(ledger).wf(),
        program_id@.len() == 32,
        accounts@.len() > 0 ==> accounts@[0].address@.len() == 32,
        match spec_unpack(data@) {
            Ok(InstructionModel::CreatePoll(p)) => accounts@.len() >= 4
                ==> spec_counter_has_room(old(ledger)@, accounts@[1].address@)
                && spec_payload_fields_fit(p),
            Ok(InstructionModel::VoteOnPoll(p)) => encode_utf8(p.option).len() <= u32::MAX
                && encode_utf8(p.option).len() + 73 <= usize::MAX,
            Err(e) => true,
        },
    ensures
        final(ledger).wf(),
        ({
            let s = spec_process_instruction(
                old(ledger)@,
                program_id@,
                accounts.deep_view(),
                data@,
                now,
            );
            match r {
                Ok(u) => s is Ok && final(ledger)@ == s.unwrap(),
                Err(e) => s == Err::<Map<Seq<u8>, AccountModel>, PollError>(e) && final(ledger)@
                    == old(ledger)@,
            }
        }),
{
    let ins = match crate::instruction::PollMakerInstruction::unpack(data) {
        Ok(i) => i,
        Err(e) => {
            return Err(e);
        },
    };
    if accounts.len() < 4 {
        return Err(PollError::AuthorizationError);
    }
    proof {
        assert(accounts.deep_view().len() == accounts@.len());
        assert(accounts.deep_view()[0] == accounts@[0]@);
        assert(accounts.deep_view()[1] == accounts@[1]@);
        assert(accounts.deep_view()[2] == accounts@[2]@);
        assert(accounts.deep_view()[3] == accounts@[3]@);
    }
    match ins {
        crate::instruction::PollMakerInstruction::CreatePoll(p) => create_poll(
            ledger,
            program_id,
            &accounts[0],
            &accounts[1],
            &accounts[2],
            &accounts[3],
            &p,
        ),
        crate::instruction::PollMakerInstruction::VoteOnPoll(p) => vote_on_poll(
            ledger,
            program_id,
            &accounts[0],
            &accounts[1],
            &accounts[2],
            &accounts[3],
            &p,
            now,
        ),
    }
}

} // verus!
