//! Kitties: tokens whose payload is a genome of sixteen bytes, and the
//! breeding of two of them into a third.

use crate::nfts::{TokenLedger, NFTS};
use crate::state::{issued_list, LedgerState};
use crate::types::{AccountId, Error, TokenId};
use vstd::bytes::{spec_u32_to_le_bytes, spec_u64_to_le_bytes};
use vstd::prelude::*;

verus! {

/// A kitty, known by its genome.
#[derive(Clone, Copy, Debug, PartialEq, Eq)]
pub struct Kitty(pub [u8; 16]);

/// One byte of a child: each bit comes from `dna1` where the bit of
/// `selector` is set, and from `dna2` where it is not.
pub open spec fn combine(dna1: u8, dna2: u8, selector: u8) -> u8 {
    (selector & dna1) | (!selector & dna2)
}

/// The genome of a child, byte for byte.
pub open spec fn mix(dna1: Seq<u8>, dna2: Seq<u8>, selector: Seq<u8>) -> Seq<u8> {
    Seq::new(16, |i: int| combine(dna1[i], dna2[i], selector[i]))
}

/// The genome that a payload stands for: its first sixteen bytes, with
/// zeros where the payload ends before.
pub open spec fn dna_of_uri(uri: Seq<u8>) -> Seq<u8> {
    Seq::new(
        16,
        |i: int|
            if i < uri.len() {
                uri[i]
            } else {
                0u8
            },
    )
}

/// Each bit of a child's byte is the first parent's where the selector's
/// bit is set, and the second parent's where it is not.
pub proof fn lemma_combine_bits(dna1: u8, dna2: u8, selector: u8, bit: u8)
    by (bit_vector)
    requires
        bit < 8,
    ensures
        (combine(dna1, dna2, selector) >> bit) & 1 == if (selector >> bit) & 1 == 1 {
            (dna1 >> bit) & 1
        } else {
            (dna2 >> bit) & 1
        },
{
}

/// A genome that was stored as a payload is read back unchanged.
pub proof fn lemma_dna_round_trip(dna: Seq<u8>)
    requires
        dna.len() == 16,
    ensures
        dna_of_uri(dna) == dna,
{
    assert(dna_of_uri(dna) =~= dna);
}

/// What the selector of a call is hashed from: the chain's seed, then the
/// caller, the index of the call in its block and the block's number, each
/// number with its low byte first, the index behind a byte that says
/// whether there is one.
pub open spec fn selector_input(
    seed: Seq<u8>,
    sender: AccountId,
    extrinsic_index: Option<u32>,
    block_number: u64,
) -> Seq<u8> {
    seed + spec_u64_to_le_bytes(sender) + (match extrinsic_index {
        Some(index) => seq![1u8] + spec_u32_to_le_bytes(index),
        None => seq![0u8],
    }) + spec_u64_to_le_bytes(block_number)
}

/// The BLAKE2b digest of sixteen bytes that `sp_crypto_hashing::blake2_128`
/// computes of `data`.
pub uninterp spec fn blake2_128_digest(data: Seq<u8>) -> Seq<u8>;

/// Calls `parity_scale_codec::Encode::encode` on the tuple of the four
/// values. The codec writes a tuple as its fields one after the other, a
/// byte array as its bytes, an unsigned number of fixed width with its low
/// byte first, and an option as the byte 0, or the byte 1 and the value.
#[verifier::external_body]
fn encode_selector_input(
    seed: &[u8; 32],
    sender: AccountId,
    extrinsic_index: Option<u32>,
    block_number: u64,
) -> (bytes: Vec<u8>)
    ensures
        bytes@ == selector_input(seed@, sender, extrinsic_index, block_number),
{
    parity_scale_codec::Encode::encode(&(*seed, sender, extrinsic_index, block_number))
}

/// Calls `sp_crypto_hashing::blake2_128`, which returns the same sixteen
/// bytes for the same data; nothing more is claimed of them.
#[verifier::external_body]
fn blake2_128(data: &[u8]) -> (digest: [u8; 16])
    ensures
        digest@ == blake2_128_digest(data@),
{
    sp_crypto_hashing::blake2_128(data)
}

/// One byte of a child from the bytes of its parents and of the selector.
pub fn combine_dna(dna1: u8, dna2: u8, selector: u8) -> (child: u8)
    ensures
        child == combine(dna1, dna2, selector),
{
    (selector & dna1) | (!selector & dna2)
}

/// The genome that the payload `uri` stands for.
pub fn get_mock_uri_dna_data(uri: Vec<u8>) -> (dna: [u8; 16])
    ensures
        dna@ == dna_of_uri(uri@),
{
    let mut dna: [u8; 16] = [0u8; 16];
    let mut i: usize = 0;
    while i < 16 && i < uri.len()
        invariant
            i <= 16,
            i <= uri.len(),
            forall|j: int| 0 <= j < i ==> dna@[j] == uri@[j],
            forall|j: int| i <= j < 16 ==> dna@[j] == 0u8,
        decreases 16 - i,
    {
        dna[i] = uri[i];
        i += 1;
    }
    assert(dna@ =~= dna_of_uri(uri@));
    dna
}

/// The payload that stands for the genome `value`: its sixteen bytes.
pub fn set_mock_uri_dna_data(value: [u8; 16]) -> (uri: Vec<u8>)
    ensures
        uri@ == value@,
{
    let mut uri: Vec<u8> = Vec::new();
    let mut i: usize = 0;
    while i < 16
        invariant
            i <= 16,
            uri@ == value@.subrange(0, i as int),
        decreases 16 - i,
    {
        uri.push(value[i]);
        i += 1;
        assert(uri@ =~= value@.subrange(0, i as int));
    }
    assert(uri@ =~= value@);
    uri
}

/// The selector of one call: the digest of the chain's seed, the caller,
/// the index of the call in its block and the block's number.
pub fn random_value(
    seed: &[u8; 32],
    sender: &AccountId,
    extrinsic_index: Option<u32>,
    block_number: u64,
) -> (selector: [u8; 16])
    ensures
        selector@ == blake2_128_digest(
            selector_input(seed@, *sender, extrinsic_index, block_number),
        ),
{
    let payload = encode_selector_input(seed, *sender, extrinsic_index, block_number);
    blake2_128(payload.as_slice())
}

/// Whether a kitty can be issued to `sender`, and under which id. The id
/// counter is looked at before anything else: where no id is left, that is
/// the answer, whatever else stands in the way of an issue.
pub open spec fn create_outcome(s: LedgerState, sender: AccountId) -> Result<TokenId, Error> {
    if s.total_supply >= s.id_bound {
        Err(Error::IdCounterExhausted)
    } else {
        s.issue_outcome(sender)
    }
}

/// Whether `sender` can breed the two kitties, and under which id the child
/// would come. The checks come in this order: both parents live, they are
/// two, `sender` owns both, an id is left, and a token can be issued to
/// `sender`.
pub open spec fn breed_outcome(
    s: LedgerState,
    sender: AccountId,
    kitty_id_1: TokenId,
    kitty_id_2: TokenId,
) -> Result<TokenId, Error> {
    if !s.owners.contains_key(kitty_id_1) || !s.owners.contains_key(kitty_id_2) {
        Err(Error::InvalidParent)
    } else if kitty_id_1 == kitty_id_2 {
        Err(Error::IdenticalParents)
    } else if s.owners[kitty_id_1] != sender || s.owners[kitty_id_2] != sender {
        Err(Error::NotOwner)
    } else {
        create_outcome(s, sender)
    }
}

/// The genome of the child of the two kitties under `selector`.
pub open spec fn child_dna(
    s: LedgerState,
    kitty_id_1: TokenId,
    kitty_id_2: TokenId,
    selector: Seq<u8>,
) -> Seq<u8> {
    mix(dna_of_uri(s.token_uri(kitty_id_1)), dna_of_uri(s.token_uri(kitty_id_2)), selector)
}

impl TokenLedger {
    /// The id of the kitty that comes next, unless none is left.
    pub fn next_kitty_id(&self) -> (r: Result<TokenId, Error>)
        ensures
            self@.inv(),
            r == if self@.total_supply >= self@.id_bound {
                Err::<TokenId, Error>(Error::IdCounterExhausted)
            } else {
                Ok::<TokenId, Error>(self@.total_supply)
            },
    {
        let kitty_id = self.total_supply();
        if kitty_id >= self.id_bound() {
            return Err(Error::IdCounterExhausted);
        }
        Ok(kitty_id)
    }

    /// The kitty under `kitty_id`, if that token lives.
    pub fn kitty(&self, kitty_id: TokenId) -> (kitty: Option<Kitty>)
        ensures
            self@.inv(),
            match kitty {
                Some(Kitty(dna)) => self@.owners.contains_key(kitty_id) && dna@ == dna_of_uri(
                    self@.token_uri(kitty_id),
                ),
                None => !self@.owners.contains_key(kitty_id),
            },
    {
        match self.owner_of(kitty_id) {
            Some(_) => Some(Kitty(get_mock_uri_dna_data(self.token_uri(kitty_id)))),
            None => None,
        }
    }

    /// Issues a kitty with genome `dna` to `sender` and returns its id. It
    /// asks for the next id first, so where none is left that is the answer.
    pub fn create(&mut self, sender: &AccountId, dna: [u8; 16]) -> (r: Result<TokenId, Error>)
        ensures
            r == create_outcome(old(self)@, *sender),
            r is Ok <==> old(self)@.total_supply < old(self)@.id_bound && old(self)@.owner_of(
                old(self)@.total_supply,
            ) is None,
            r is Ok ==> final(self)@.get_approved(old(self)@.total_supply) is None,
            r is Ok ==> final(self)@ == old(self)@.issued(*sender, dna@),
            r is Ok ==> dna_of_uri(final(self)@.token_uri(old(self)@.total_supply)) == dna@,
            r is Err ==> final(self)@ == old(self)@,
            old(self)@.inv(),
            final(self)@.inv(),
            r is Ok ==> forall|a: AccountId| #[trigger]
                final(self)@.tokens_of(a) == issued_list(old(self)@, *sender, a),
    {
        match self.next_kitty_id() {
            Ok(_) => {},
            Err(e) => {
                return Err(e);
            },
        }
        proof {
            lemma_dna_round_trip(dna@);
        }
        self._issue_with_uri(sender, set_mock_uri_dna_data(dna))
    }

    /// Breeds two kitties of `sender` and issues the child to `sender`.
    /// Each bit of the child's genome comes from the first parent where the
    /// bit of `selector` is set, and from the second where it is not.
    pub fn do_breed(
        &mut self,
        sender: &AccountId,
        kitty_id_1: TokenId,
        kitty_id_2: TokenId,
        selector: [u8; 16],
    ) -> (r: Result<TokenId, Error>)
        ensures
            r == breed_outcome(old(self)@, *sender, kitty_id_1, kitty_id_2),
            r is Ok ==> final(self)@ == old(self)@.issued(
                *sender,
                child_dna(old(self)@, kitty_id_1, kitty_id_2, selector@),
            ),
            r is Ok ==> dna_of_uri(final(self)@.token_uri(old(self)@.total_supply)) == child_dna(
                old(self)@,
                kitty_id_1,
                kitty_id_2,
                selector@,
            ),
            r is Ok ==> final(self)@.get_approved(old(self)@.total_supply) is None,
            r is Err ==> final(self)@ == old(self)@,
            kitty_id_1 == kitty_id_2 ==> r is Err,
            kitty_id_1 == kitty_id_2 && old(self)@.owners.contains_key(kitty_id_1) ==> r == Err::<
                TokenId,
                Error,
            >(Error::IdenticalParents),
            old(self)@.inv(),
            final(self)@.inv(),
            r is Ok ==> forall|a: AccountId| #[trigger]
                final(self)@.tokens_of(a) == issued_list(old(self)@, *sender, a),
    {
        let kitty1 = match self.kitty(kitty_id_1) {
            Some(kitty) => kitty,
            None => {
                return Err(Error::InvalidParent);
            },
        };
        let kitty2 = match self.kitty(kitty_id_2) {
            Some(kitty) => kitty,
            None => {
                return Err(Error::InvalidParent);
            },
        };
        if kitty_id_1 == kitty_id_2 {
            return Err(Error::IdenticalParents);
        }
        match self.owner_of(kitty_id_1) {
            Some(owner) => {
                if owner != *sender {
                    return Err(Error::NotOwner);
                }
            },
            None => {
                return Err(Error::NotOwner);
            },
        }
        match self.owner_of(kitty_id_2) {
            Some(owner) => {
                if owner != *sender {
                    return Err(Error::NotOwner);
                }
            },
            None => {
                return Err(Error::NotOwner);
            },
        }
        match self.next_kitty_id() {
            Ok(_) => {},
            Err(e) => {
                return Err(e);
            },
        }
        let kitty1_dna = kitty1.0;
        let kitty2_dna = kitty2.0;
        let mut new_dna: [u8; 16] = [0u8; 16];
        let mut i: usize = 0;
        while i < 16
            invariant
                i <= 16,
                forall|j: int|
                    0 <= j < i ==> new_dna@[j] == combine(
                        kitty1_dna@[j],
                        kitty2_dna@[j],
                        selector@[j],
                    ),
            decreases 16 - i,
        {
            new_dna[i] = combine_dna(kitty1_dna[i], kitty2_dna[i], selector[i]);
            i += 1;
        }
        assert(new_dna@ =~= child_dna(old(self)@, kitty_id_1, kitty_id_2, selector@));
        proof {
            lemma_dna_round_trip(new_dna@);
        }
        self._issue_with_uri(sender, set_mock_uri_dna_data(new_dna))
    }
}

} // verus!
