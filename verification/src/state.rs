//! The three persisted record kinds: the singleton poll counter, one record
//! per poll, and one record per (poll, voter) pair.  Each record is stored as
//! its length-prefixed kind tag, a one-byte initialized flag, and its typed
//! fields, all in the shared encoding of [`crate::codec`].

use crate::codec::{
    spec_encode_bool, spec_encode_string, spec_encode_string_vec, spec_encode_strings, spec_le64,
    spec_read_bool, spec_read_string, spec_read_string_vec, spec_read_u64, string_encodable,
    strings_encodable, read_bool, read_string, read_string_vec, read_u64, write_bool,
    write_string, write_string_vec, write_u64,
};
use vstd::prelude::*;
use vstd::string::StringExecFns;
use vstd::utf8::encode_utf8;

verus! {

/// The byte length of an encoded global counter record:
/// tag prefix and text (4 + 6), flag (1), counter (8).
pub const GLOBAL_STATE_SIZE: usize = 19;

// ---------------------------------------------------------------------------
// Record types and their mathematical models
// ---------------------------------------------------------------------------

/// The singleton record holding the next poll identifier.
pub struct GlobalState {
    pub discriminator: String,
    pub is_initialized: bool,
    pub id_counter: u64,
}

#[verifier::ext_equal]
pub ghost struct GlobalModel {
    pub discriminator: Seq<char>,
    pub is_initialized: bool,
    pub id_counter: u64,
}

impl View for GlobalState {
    type V = GlobalModel;

    open spec fn view(&self) -> GlobalModel {
        GlobalModel {
            discriminator: self.discriminator@,
            is_initialized: self.is_initialized,
            id_counter: self.id_counter,
        }
    }
}

/// One record per poll, immutable once written.
pub struct PollState {
    pub discriminator: String,
    pub is_initialized: bool,
    pub id: u64,
    pub creator_address: String,
    pub title: String,
    pub description: String,
    pub ends_at: u64,
    pub options: Vec<String>,
    pub authorized_addresses: Vec<String>,
}

#[verifier::ext_equal]
pub ghost struct PollModel {
    pub discriminator: Seq<char>,
    pub is_initialized: bool,
    pub id: u64,
    pub creator_address: Seq<char>,
    pub title: Seq<char>,
    pub description: Seq<char>,
    pub ends_at: u64,
    pub options: Seq<Seq<char>>,
    pub authorized_addresses: Seq<Seq<char>>,
}

impl View for PollState {
    type V = PollModel;

    open spec fn view(&self) -> PollModel {
        PollModel {
            discriminator: self.discriminator@,
            is_initialized: self.is_initialized,
            id: self.id,
            creator_address: self.creator_address@,
            title: self.title@,
            description: self.description@,
            ends_at: self.ends_at,
            options: self.options.deep_view(),
            authorized_addresses: self.authorized_addresses.deep_view(),
        }
    }
}

/// One record per (poll, voter) pair, immutable once written.
pub struct VoteState {
    pub discriminator: String,
    pub is_initialized: bool,
    pub poll_id: u64,
    pub voter_address: String,
    pub option: String,
}

#[verifier::ext_equal]
pub ghost struct VoteModel {
    pub discriminator: Seq<char>,
    pub is_initialized: bool,
    pub poll_id: u64,
    pub voter_address: Seq<char>,
    pub option: Seq<char>,
}

impl View for VoteState {
    type V = VoteModel;

    open spec fn view(&self) -> VoteModel {
        VoteModel {
            discriminator: self.discriminator@,
            is_initialized: self.is_initialized,
            poll_id: self.poll_id,
            voter_address: self.voter_address@,
            option: self.option@,
        }
    }
}

impl GlobalState {
    /// Whether the record has been written.
    pub fn is_initialized(&self) -> (r: bool)
        ensures
            r == self@.is_initialized,
    {
        self.is_initialized
    }

    /// The state a freshly allocated global counter is initialized to:
    /// the first poll will take identifier 1.
    pub fn new() -> (r: Self)
        ensures
            r@ == (GlobalModel {
                discriminator: "global"@,
                is_initialized: true,
                id_counter: 1u64,
            }),
    {
        GlobalState {
            discriminator: String::from_str("global"),
            is_initialized: true,
            id_counter: 1,
        }
    }
}

impl PollState {
    /// Whether the record has been written.
    pub fn is_initialized(&self) -> (r: bool)
        ensures
            r == self@.is_initialized,
    {
        self.is_initialized
    }
}

impl VoteState {
    /// Whether the record has been written.
    pub fn is_initialized(&self) -> (r: bool)
        ensures
            r == self@.is_initialized,
    {
        self.is_initialized
    }
}

// ---------------------------------------------------------------------------
// Record encodings
// ---------------------------------------------------------------------------

pub open spec fn spec_encode_global(g: GlobalModel) -> Seq<u8> {
    spec_encode_string(g.discriminator) + spec_encode_bool(g.is_initialized) + spec_le64(
        g.id_counter,
    )
}

pub open spec fn spec_encode_poll(p: PollModel) -> Seq<u8> {
    spec_encode_string(p.discriminator) + spec_encode_bool(p.is_initialized) + spec_le64(p.id)
        + spec_encode_string(p.creator_address) + spec_encode_string(p.title)
        + spec_encode_string(p.description) + spec_le64(p.ends_at) + spec_encode_string_vec(
        p.options,
    ) + spec_encode_string_vec(p.authorized_addresses)
}

pub open spec fn spec_encode_vote(v: VoteModel) -> Seq<u8> {
    spec_encode_string(v.discriminator) + spec_encode_bool(v.is_initialized) + spec_le64(v.poll_id)
        + spec_encode_string(v.voter_address) + spec_encode_string(v.option)
}

pub open spec fn global_encodable(g: GlobalModel) -> bool {
    string_encodable(g.discriminator)
}

pub open spec fn poll_encodable(p: PollModel) -> bool {
    &&& string_encodable(p.discriminator)
    &&& string_encodable(p.creator_address)
    &&& string_encodable(p.title)
    &&& string_encodable(p.description)
    &&& strings_encodable(p.options)
    &&& strings_encodable(p.authorized_addresses)
}

pub open spec fn vote_encodable(v: VoteModel) -> bool {
    &&& string_encodable(v.discriminator)
    &&& string_encodable(v.voter_address)
    &&& string_encodable(v.option)
}

// ---------------------------------------------------------------------------
// Record decodings.  A record is read from the front of its account buffer;
// trailing bytes are ignored, so a freshly zero-filled account decodes as an
// uninitialized record.
// ---------------------------------------------------------------------------

pub open spec fn spec_decode_global(b: Seq<u8>) -> Option<GlobalModel> {
    match spec_read_string(b) {
        Some(d) => match spec_read_bool(b.skip(d.1)) {
            Some(f) => match spec_read_u64(b.skip(d.1 + f.1)) {
                Some(c) => Some(
                    GlobalModel { discriminator: d.0, is_initialized: f.0, id_counter: c.0 },
                ),
                None => None,
            },
            None => None,
        },
        None => None,
    }
}

pub open spec fn spec_decode_poll(b: Seq<u8>) -> Option<PollModel> {
    match spec_read_string(b) {
        Some(d) => match spec_read_bool(b.skip(d.1)) {
            Some(f) => match spec_read_u64(b.skip(d.1 + f.1)) {
                Some(id) => match spec_read_string(b.skip(d.1 + f.1 + id.1)) {
                    Some(cr) => match spec_read_string(b.skip(d.1 + f.1 + id.1 + cr.1)) {
                        Some(ti) => match spec_read_string(
                            b.skip(d.1 + f.1 + id.1 + cr.1 + ti.1),
                        ) {
                            Some(de) => match spec_read_u64(
                                b.skip(d.1 + f.1 + id.1 + cr.1 + ti.1 + de.1),
                            ) {
                                Some(en) => match spec_read_string_vec(
                                    b.skip(d.1 + f.1 + id.1 + cr.1 + ti.1 + de.1 + en.1),
                                ) {
                                    Some(op) => match spec_read_string_vec(
                                        b.skip(
                                            d.1 + f.1 + id.1 + cr.1 + ti.1 + de.1 + en.1 + op.1,
                                        ),
                                    ) {
                                        Some(au) => Some(
                                            PollModel {
                                                discriminator: d.0,
                                                is_initialized: f.0,
                                                id: id.0,
                                                creator_address: cr.0,
                                                title: ti.0,
                                                description: de.0,
                                                ends_at: en.0,
                                                options: op.0,
                                                authorized_addresses: au.0,
                                            },
                                        ),
                                        None => None,
                                    },
                                    None => None,
                                },
                                None => None,
                            },
                            None => None,
                        },
                        None => None,
                    },
                    None => None,
                },
                None => None,
            },
            None => None,
        },
        None => None,
    }
}

pub open spec fn spec_decode_vote(b: Seq<u8>) -> Option<VoteModel> {
    match spec_read_string(b) {
        Some(d) => match spec_read_bool(b.skip(d.1)) {
            Some(f) => match spec_read_u64(b.skip(d.1 + f.1)) {
                Some(id) => match spec_read_string(b.skip(d.1 + f.1 + id.1)) {
                    Some(vo) => match spec_read_string(b.skip(d.1 + f.1 + id.1 + vo.1)) {
                        Some(op) => Some(
                            VoteModel {
                                discriminator: d.0,
                                is_initialized: f.0,
                                poll_id: id.0,
                                voter_address: vo.0,
                                option: op.0,
                            },
                        ),
                        None => None,
                    },
                    None => None,
                },
                None => None,
            },
            None => None,
        },
        None => None,
    }
}

// ---------------------------------------------------------------------------
// Executable encoders and decoders
// ---------------------------------------------------------------------------

pub fn encode_global(g: &GlobalState) -> (r: Vec<u8>)
    requires
        global_encodable(g@),
    ensures
        r@ == spec_encode_global(g@),
{
    let mut out: Vec<u8> = Vec::new();
    write_string(&mut out, g.discriminator.as_str());
    write_bool(&mut out, g.is_initialized);
    write_u64(&mut out, g.id_counter);
    proof {
        assert(out@ =~= spec_encode_global(g@));
    }
    out
}

pub fn encode_poll(p: &PollState) -> (r: Vec<u8>)
    requires
        poll_encodable(p@),
    ensures
        r@ == spec_encode_poll(p@),
{
    let mut out: Vec<u8> = Vec::new();
    write_string(&mut out, p.discriminator.as_str());
    write_bool(&mut out, p.is_initialized);
    write_u64(&mut out, p.id);
    write_string(&mut out, p.creator_address.as_str());
    write_string(&mut out, p.title.as_str());
    write_string(&mut out, p.description.as_str());
    write_u64(&mut out, p.ends_at);
    write_string_vec(&mut out, &p.options);
    write_string_vec(&mut out, &p.authorized_addresses);
    proof {
        assert(out@ =~= spec_encode_poll(p@));
    }
    out
}

pub fn encode_vote(v: &VoteState) -> (r: Vec<u8>)
    requires
        vote_encodable(v@),
    ensures
        r@ == spec_encode_vote(v@),
{
    let mut out: Vec<u8> = Vec::new();
    write_string(&mut out, v.discriminator.as_str());
    write_bool(&mut out, v.is_initialized);
    write_u64(&mut out, v.poll_id);
    write_string(&mut out, v.voter_address.as_str());
    write_string(&mut out, v.option.as_str());
    proof {
        assert(out@ =~= spec_encode_vote(v@));
    }
    out
}

pub fn decode_global(input: &[u8]) -> (r: Option<GlobalState>)
    ensures
        match r {
            Some(g) => spec_decode_global(input@) == Some(g@),
            None => spec_decode_global(input@) is None,
        },
{
    proof {
        assert(input@.skip(0) =~= input@);
    }
    match read_string(input, 0) {
        Some(d) => match read_bool(input, d.1) {
            Some(f) => match read_u64(input, f.1) {
                Some(c) => Some(
                    GlobalState { discriminator: d.0, is_initialized: f.0, id_counter: c.0 },
                ),
                None => None,
            },
            None => None,
        },
        None => None,
    }
}

#[verifier::rlimit(100)]
#[verifier::spinoff_prover]
pub fn decode_poll(input: &[u8]) -> (r: Option<PollState>)
    ensures
        match r {
            Some(p) => spec_decode_poll(input@) == Some(p@),
            None => spec_decode_poll(input@) is None,
        },
{
    proof {
        assert(input@.skip(0) =~= input@);
    }
    match read_string(input, 0) {
        Some(d) => match read_bool(input, d.1) {
            Some(f) => match read_u64(input, f.1) {
                Some(id) => match read_string(input, id.1) {
                    Some(cr) => match read_string(input, cr.1) {
                        Some(ti) => match read_string(input, ti.1) {
                            Some(de) => match read_u64(input, de.1) {
                                Some(en) => match read_string_vec(input, en.1) {
                                    Some(op) => match read_string_vec(input, op.1) {
                                        Some(au) => Some(
                                            PollState {
                                                discriminator: d.0,
                                                is_initialized: f.0,
                                                id: id.0,
                                                creator_address: cr.0,
                                                title: ti.0,
                                                description: de.0,
                                                ends_at: en.0,
                                                options: op.0,
                                                authorized_addresses: au.0,
                                            },
                                        ),
                                        None => None,
                                    },
                                    None => None,
                                },
                                None => None,
                            },
                            None => None,
                        },
                        None => None,
                    },
                    None => None,
                },
                None => None,
            },
            None => None,
        },
        None => None,
    }
}

pub fn decode_vote(input: &[u8]) -> (r: Option<VoteState>)
    ensures
        match r {
            Some(v) => spec_decode_vote(input@) == Some(v@),
            None => spec_decode_vote(input@) is None,
        },
{
    proof {
        assert(input@.skip(0) =~= input@);
    }
    match read_string(input, 0) {
        Some(d) => match read_bool(input, d.1) {
            Some(f) => match read_u64(input, f.1) {
                Some(id) => match read_string(input, id.1) {
                    Some(vo) => match read_string(input, vo.1) {
                        Some(op) => Some(
                            VoteState {
                                discriminator: d.0,
                                is_initialized: f.0,
                                poll_id: id.0,
                                voter_address: vo.0,
                                option: op.0,
                            },
                        ),
                        None => None,
                    },
                    None => None,
                },
                None => None,
            },
            None => None,
        },
        None => None,
    }
}

// ---------------------------------------------------------------------------
// Serialized sizes.  Each record's storage is allocated to exactly the byte
// length of its encoding; the poll size is also what the record-size ceiling
// is checked against.
// ---------------------------------------------------------------------------

/// The bytes contributed by a string sequence: a 4-byte prefix and the
/// UTF-8 text of each element, without the element count itself.
pub open spec fn spec_strings_size(v: Seq<Seq<char>>) -> int
    decreases v.len(),
{
    if v.len() == 0 {
        0
    } else {
        4 + encode_utf8(v[0]).len() as int + spec_strings_size(v.drop_first())
    }
}

/// The byte length of an encoded poll record whose kind tag is `"poll"`.
pub open spec fn spec_poll_size(p: PollModel) -> int {
    8 + 1 + 8 + (4 + encode_utf8(p.creator_address).len() as int) + (4 + encode_utf8(
        p.title,
    ).len() as int) + (4 + encode_utf8(p.description).len() as int) + 8 + 4 + 4
        + spec_strings_size(p.options) + spec_strings_size(p.authorized_addresses)
}

/// The byte length of an encoded vote record whose kind tag is `"vote"`.
pub open spec fn spec_vote_size(v: VoteModel) -> int {
    8 + 1 + 8 + (4 + encode_utf8(v.voter_address).len() as int) + (4 + encode_utf8(
        v.option,
    ).len() as int)
}

pub proof fn lemma_strings_size_nonneg(v: Seq<Seq<char>>)
    ensures
        0 <= spec_strings_size(v),
    decreases v.len(),
{
    if v.len() > 0 {
        lemma_strings_size_nonneg(v.drop_first());
    }
}

pub proof fn lemma_strings_size_push(v: Seq<Seq<char>>, s: Seq<char>)
    ensures
        spec_strings_size(v.push(s)) == spec_strings_size(v) + 4 + encode_utf8(s).len(),
    decreases v.len(),
{
    if v.len() == 0 {
        assert(v.push(s)[0] == s);
        assert(v.push(s).drop_first() =~= Seq::<Seq<char>>::empty());
        assert(spec_strings_size(Seq::<Seq<char>>::empty()) == 0);
        assert(spec_strings_size(v) == 0);
    } else {
        assert(v.push(s)[0] == v[0]);
        assert(v.push(s).drop_first() =~= v.drop_first().push(s));
        lemma_strings_size_push(v.drop_first(), s);
        assert(spec_strings_size(v.push(s)) == 4 + encode_utf8(v[0]).len() as int
            + spec_strings_size(v.drop_first().push(s)));
    }
}

pub proof fn lemma_strings_size_take_succ(v: Seq<Seq<char>>, i: int)
    requires
        0 <= i < v.len(),
    ensures
        spec_strings_size(v.take(i + 1)) == spec_strings_size(v.take(i)) + 4 + encode_utf8(
            v[i],
        ).len(),
{
    assert(v.take(i + 1) =~= v.take(i).push(v[i]));
    lemma_strings_size_push(v.take(i), v[i]);
}

pub proof fn lemma_strings_size_take_le(v: Seq<Seq<char>>, i: int)
    requires
        0 <= i <= v.len(),
    ensures
        spec_strings_size(v.take(i)) <= spec_strings_size(v),
    decreases v.len() - i,
{
    if i == v.len() {
        assert(v.take(i) =~= v);
    } else {
        lemma_strings_size_take_succ(v, i);
        lemma_strings_size_take_le(v, i + 1);
    }
}

/// Each element's prefixed length is part of the whole.
pub proof fn lemma_strings_size_elem(v: Seq<Seq<char>>, i: int)
    requires
        0 <= i < v.len(),
    ensures
        4 + encode_utf8(v[i]).len() <= spec_strings_size(v),
    decreases v.len(),
{
    lemma_strings_size_nonneg(v.drop_first());
    if i == 0 {
    } else {
        lemma_strings_size_elem(v.drop_first(), i - 1);
    }
}

/// Every element contributes at least its 4-byte prefix.
pub proof fn lemma_strings_size_lower(v: Seq<Seq<char>>)
    ensures
        spec_strings_size(v) >= 4 * v.len(),
    decreases v.len(),
{
    if v.len() > 0 {
        lemma_strings_size_lower(v.drop_first());
    }
}

/// The concatenated string encodings occupy exactly their counted size.
pub proof fn lemma_encode_strings_len(v: Seq<Seq<char>>)
    ensures
        spec_encode_strings(v).len() == spec_strings_size(v),
    decreases v.len(),
{
    if v.len() > 0 {
        lemma_encode_strings_len(v.drop_first());
    }
}

/// The byte lengths of the three kind tags.
pub proof fn lemma_tag_bytes()
    ensures
        encode_utf8("global"@).len() == 6,
        encode_utf8("poll"@).len() == 4,
        encode_utf8("vote"@).len() == 4,
{
    reveal_strlit("global");
    reveal_strlit("poll");
    reveal_strlit("vote");
    assert(vstd::utf8::is_ascii_chars("global"@));
    assert(vstd::utf8::is_ascii_chars("poll"@));
    assert(vstd::utf8::is_ascii_chars("vote"@));
    vstd::utf8::is_ascii_chars_encode_utf8("global"@);
    vstd::utf8::is_ascii_chars_encode_utf8("poll"@);
    vstd::utf8::is_ascii_chars_encode_utf8("vote"@);
}

/// An encoded global counter record is always `GLOBAL_STATE_SIZE` bytes.
pub proof fn lemma_global_encoded_len(g: GlobalModel)
    requires
        g.discriminator == "global"@,
    ensures
        spec_encode_global(g).len() == GLOBAL_STATE_SIZE,
{
    lemma_tag_bytes();
}

/// A poll record tagged `"poll"` encodes to exactly its account size.
pub proof fn lemma_poll_encoded_len(p: PollModel)
    requires
        p.discriminator == "poll"@,
    ensures
        spec_encode_poll(p).len() == spec_poll_size(p),
{
    lemma_tag_bytes();
    lemma_encode_strings_len(p.options);
    lemma_encode_strings_len(p.authorized_addresses);
}

/// A vote record tagged `"vote"` encodes to exactly its account size.
pub proof fn lemma_vote_encoded_len(v: VoteModel)
    requires
        v.discriminator == "vote"@,
    ensures
        spec_encode_vote(v).len() == spec_vote_size(v),
{
    lemma_tag_bytes();
}


/// A freshly allocated account is zero-filled, and a zero-filled buffer
/// large enough to parse decodes as an uninitialized record: every record
/// begins life with its initialized flag off, and only its first write
/// turns the flag on.
pub proof fn lemma_zeroed_account_is_uninitialized(n: nat)
    requires
        n >= 13,
    ensures
        spec_decode_global(Seq::new(n, |i: int| 0u8)) matches Some(g) && !g.is_initialized,
{
    let z = Seq::new(n, |i: int| 0u8);
    assert(z.take(4)[0] == 0 && z.take(4)[1] == 0 && z.take(4)[2] == 0 && z.take(4)[3] == 0);
    assert(((0u8 as u32) | ((0u8 as u32) << 8) | ((0u8 as u32) << 16) | ((0u8 as u32) << 24))
        == 0) by (bit_vector);
    assert(crate::codec::spec_le32_value(z.take(4)) == 0);
    assert(z.subrange(4, 4) =~= Seq::<u8>::empty());
    assert(vstd::utf8::valid_utf8(Seq::<u8>::empty()));
    assert(spec_read_string(z) == Some((vstd::utf8::decode_utf8(Seq::<u8>::empty()), 4int)));
    assert(z.skip(4)[0] == 0);
    assert(spec_read_bool(z.skip(4)) == Some((false, 1int)));
    assert(z.skip(5).len() >= 8);
}

// ---------------------------------------------------------------------------
// Round trips: any encoded record, with any trailing bytes, decodes back to
// the record it came from, field for field.
// ---------------------------------------------------------------------------

/// Dropping a concatenation's first part leaves its second.
pub proof fn lemma_drop_prefix(a: Seq<u8>, b: Seq<u8>)
    ensures
        (a + b).skip(a.len() as int) == b,
{
    assert((a + b).skip(a.len() as int) =~= b);
}

/// Two successive skips collapse into one.
pub proof fn lemma_skip_skip(s: Seq<u8>, a: int, b: int)
    requires
        0 <= a,
        0 <= b,
        a + b <= s.len(),
    ensures
        s.skip(a).skip(b) == s.skip(a + b),
{
    assert(s.skip(a).skip(b) =~= s.skip(a + b));
}

pub proof fn lemma_global_roundtrip(g: GlobalModel, t: Seq<u8>)
    requires
        global_encodable(g),
    ensures
        spec_decode_global(spec_encode_global(g) + t) == Some(g),
{
    let e1 = spec_encode_string(g.discriminator);
    let e2 = spec_encode_bool(g.is_initialized);
    let e3 = spec_le64(g.id_counter);
    let t3 = e3 + t;
    let t2 = e2 + t3;
    let w = e1 + t2;
    assert(spec_encode_global(g) + t =~= w);
    crate::codec::lemma_read_string_of_encode(g.discriminator, t2);
    let c1 = e1.len() as int;
    lemma_drop_prefix(e1, t2);
    crate::codec::lemma_read_bool_of_encode(g.is_initialized, t3);
    lemma_drop_prefix(e2, t3);
    lemma_skip_skip(w, c1, 1);
    crate::codec::lemma_read_u64_of_encode(g.id_counter, t);
    lemma_drop_prefix(e3, t);
    lemma_skip_skip(w, c1 + 1, 8);
}

#[verifier::rlimit(100)]
pub proof fn lemma_poll_roundtrip(p: PollModel, t: Seq<u8>)
    requires
        poll_encodable(p),
    ensures
        spec_decode_poll(spec_encode_poll(p) + t) == Some(p),
{
    let e1 = spec_encode_string(p.discriminator);
    let e2 = spec_encode_bool(p.is_initialized);
    let e3 = spec_le64(p.id);
    let e4 = spec_encode_string(p.creator_address);
    let e5 = spec_encode_string(p.title);
    let e6 = spec_encode_string(p.description);
    let e7 = spec_le64(p.ends_at);
    let e8 = spec_encode_string_vec(p.options);
    let e9 = spec_encode_string_vec(p.authorized_addresses);
    let t9 = e9 + t;
    let t8 = e8 + t9;
    let t7 = e7 + t8;
    let t6 = e6 + t7;
    let t5 = e5 + t6;
    let t4 = e4 + t5;
    let t3 = e3 + t4;
    let t2 = e2 + t3;
    let w = e1 + t2;
    assert(spec_encode_poll(p) + t =~= w);
    crate::codec::lemma_read_string_of_encode(p.discriminator, t2);
    let c1 = e1.len() as int;
    lemma_drop_prefix(e1, t2);
    crate::codec::lemma_read_bool_of_encode(p.is_initialized, t3);
    let c2 = c1 + 1;
    lemma_drop_prefix(e2, t3);
    lemma_skip_skip(w, c1, 1);
    crate::codec::lemma_read_u64_of_encode(p.id, t4);
    let c3 = c2 + 8;
    lemma_drop_prefix(e3, t4);
    lemma_skip_skip(w, c2, 8);
    crate::codec::lemma_read_string_of_encode(p.creator_address, t5);
    let c4 = c3 + e4.len() as int;
    lemma_drop_prefix(e4, t5);
    lemma_skip_skip(w, c3, e4.len() as int);
    crate::codec::lemma_read_string_of_encode(p.title, t6);
    let c5 = c4 + e5.len() as int;
    lemma_drop_prefix(e5, t6);
    lemma_skip_skip(w, c4, e5.len() as int);
    crate::codec::lemma_read_string_of_encode(p.description, t7);
    let c6 = c5 + e6.len() as int;
    lemma_drop_prefix(e6, t7);
    lemma_skip_skip(w, c5, e6.len() as int);
    crate::codec::lemma_read_u64_of_encode(p.ends_at, t8);
    let c7 = c6 + 8;
    lemma_drop_prefix(e7, t8);
    lemma_skip_skip(w, c6, 8);
    crate::codec::lemma_read_string_vec_of_encode(p.options, t9);
    let c8 = c7 + e8.len() as int;
    lemma_drop_prefix(e8, t9);
    lemma_skip_skip(w, c7, e8.len() as int);
    crate::codec::lemma_read_string_vec_of_encode(p.authorized_addresses, t);
    lemma_drop_prefix(e9, t);
    lemma_skip_skip(w, c8, e9.len() as int);
}

pub proof fn lemma_vote_roundtrip(v: VoteModel, t: Seq<u8>)
    requires
        vote_encodable(v),
    ensures
        spec_decode_vote(spec_encode_vote(v) + t) == Some(v),
{
    let e1 = spec_encode_string(v.discriminator);
    let e2 = spec_encode_bool(v.is_initialized);
    let e3 = spec_le64(v.poll_id);
    let e4 = spec_encode_string(v.voter_address);
    let e5 = spec_encode_string(v.option);
    let t5 = e5 + t;
    let t4 = e4 + t5;
    let t3 = e3 + t4;
    let t2 = e2 + t3;
    let w = e1 + t2;
    assert(spec_encode_vote(v) + t =~= w);
    crate::codec::lemma_read_string_of_encode(v.discriminator, t2);
    let c1 = e1.len() as int;
    lemma_drop_prefix(e1, t2);
    crate::codec::lemma_read_bool_of_encode(v.is_initialized, t3);
    let c2 = c1 + 1;
    lemma_drop_prefix(e2, t3);
    lemma_skip_skip(w, c1, 1);
    crate::codec::lemma_read_u64_of_encode(v.poll_id, t4);
    let c3 = c2 + 8;
    lemma_drop_prefix(e3, t4);
    lemma_skip_skip(w, c2, 8);
    crate::codec::lemma_read_string_of_encode(v.voter_address, t5);
    let c4 = c3 + e4.len() as int;
    lemma_drop_prefix(e4, t5);
    lemma_skip_skip(w, c3, e4.len() as int);
    crate::codec::lemma_read_string_of_encode(v.option, t);
    lemma_drop_prefix(e5, t);
    lemma_skip_skip(w, c4, e5.len() as int);
}

// ---------------------------------------------------------------------------
// Executable account sizes
// ---------------------------------------------------------------------------

impl PollState {
    /// The exact byte length this record occupies once serialized.
    pub fn get_account_size(&self) -> (r: usize)
        requires
            spec_poll_size(self@) <= usize::MAX,
        ensures
            r == spec_poll_size(self@),
    {
        proof {
            lemma_strings_size_nonneg(self@.options);
            lemma_strings_size_nonneg(self@.authorized_addresses);
        }
        let mut len: usize = (4 + 4) + 1 + 8;
        len = len + 4 + self.creator_address.as_str().len();
        len = len + 4 + self.title.as_str().len();
        len = len + 4 + self.description.as_str().len();
        len = len + 8 + 4 + 4;
        let ghost base: int = len as int;
        let n_opt = self.options.len();
        let mut i: usize = 0;
        while i < n_opt
            invariant
                n_opt == self.options@.len(),
                i <= n_opt,
                spec_poll_size(self@) <= usize::MAX,
                base == 45 + encode_utf8(self@.creator_address).len() + encode_utf8(
                    self@.title,
                ).len() + encode_utf8(self@.description).len(),
                len as int == base + spec_strings_size(self@.options.take(i as int)),
            decreases n_opt - i,
        {
            proof {
                lemma_strings_size_take_succ(self@.options, i as int);
                lemma_strings_size_take_le(self@.options, i as int + 1);
                lemma_strings_size_nonneg(self@.authorized_addresses);
                assert(self@.options[i as int] == self.options@[i as int]@);
            }
            len = len + 4 + self.options[i].as_str().len();
            i = i + 1;
        }
        proof {
            assert(self@.options.take(n_opt as int) =~= self@.options);
        }
        let ghost base2: int = len as int;
        let n_auth = self.authorized_addresses.len();
        let mut j: usize = 0;
        while j < n_auth
            invariant
                n_auth == self.authorized_addresses@.len(),
                j <= n_auth,
                spec_poll_size(self@) <= usize::MAX,
                base2 == 45 + encode_utf8(self@.creator_address).len() + encode_utf8(
                    self@.title,
                ).len() + encode_utf8(self@.description).len() + spec_strings_size(self@.options),
                len as int == base2 + spec_strings_size(
                    self@.authorized_addresses.take(j as int),
                ),
            decreases n_auth - j,
        {
            proof {
                lemma_strings_size_take_succ(self@.authorized_addresses, j as int);
                lemma_strings_size_take_le(self@.authorized_addresses, j as int + 1);
                assert(self@.authorized_addresses[j as int]
                    == self.authorized_addresses@[j as int]@);
            }
            len = len + 4 + self.authorized_addresses[j].as_str().len();
            j = j + 1;
        }
        proof {
            assert(self@.authorized_addresses.take(n_auth as int) =~= self@.authorized_addresses);
        }
        len
    }
}

impl VoteState {
    /// The exact byte length this record occupies once serialized.
    pub fn get_account_size(&self) -> (r: usize)
        requires
            spec_vote_size(self@) <= usize::MAX,
        ensures
            r == spec_vote_size(self@),
    {
        (4 + 4) + 1 + 8 + (4 + self.voter_address.as_str().len()) + (4 + self.option.as_str().len())
    }
}

} // verus!
