//! Addresses of entry accounts, derived from a fixed tag, the owner's key
//! and the title.
use vstd::prelude::*;
use crate::layout::{utf8, MAX_TITLE_LEN};

verus! {

/// Longest seed that address derivation takes, in bytes.
pub const MAX_SEED_LEN: usize = 32;

/// The program address derived from `seeds` under `program_id`, if any.
pub uninterp spec fn program_address_of(seeds: Seq<Seq<u8>>, program_id: Seq<u8>) -> Option<Seq<u8>>;

/// The tag that opens the seeds of every entry address: `journal_entry`.
pub open spec fn entry_tag() -> Seq<u8> {
    seq![106u8, 111u8, 117u8, 114u8, 110u8, 97u8, 108u8, 95u8, 101u8, 110u8, 116u8, 114u8, 121u8]
}

/// The title's UTF-8 bytes as two seeds: its first `MAX_SEED_LEN` bytes,
/// then the rest. Seeds are hashed one after the other, so a title of at most
/// `MAX_SEED_LEN` bytes gets the address it would get as a single seed.
pub open spec fn title_seeds(title: Seq<u8>) -> (Seq<u8>, Seq<u8>) {
    if title.len() <= MAX_SEED_LEN {
        (title, Seq::empty())
    } else {
        (title.subrange(0, MAX_SEED_LEN as int), title.subrange(MAX_SEED_LEN as int, title.len() as int))
    }
}

/// The address of the entry that `owner` keeps under `title`, if one can be
/// derived. The content takes no part in it.
pub open spec fn entry_address(program_id: Seq<u8>, owner: Seq<u8>, title: Seq<char>) -> Option<Seq<u8>> {
    let (head, tail) = title_seeds(utf8(title));
    program_address_of(seq![entry_tag(), owner, head, tail], program_id)
}

/// The view of an optional key.
pub open spec fn key_view(k: Option<[u8; 32]>) -> Option<Seq<u8>> {
    match k {
        Some(a) => Some(a@),
        None => None,
    }
}

/// Relies on solana_program's `Pubkey::try_find_program_address`: the address
/// it finds, if any, is a function of the seeds and the program id alone.
#[verifier::external_body]
fn find_program_address(
    tag: &[u8],
    owner: &[u8; 32],
    head: &[u8],
    tail: &[u8],
    program_id: &[u8; 32],
) -> (r: Option<[u8; 32]>)
    ensures
        key_view(r) == program_address_of(seq![tag@, owner@, head@, tail@], program_id@),
{
    let program = anchor_lang::solana_program::pubkey::Pubkey::new_from_array(*program_id);
    anchor_lang::solana_program::pubkey::Pubkey::try_find_program_address(&[tag, owner.as_slice(), head, tail], &program)
        .map(|(address, _bump)| address.to_bytes())
}

/// Derives the address of the entry that `owner` keeps under `title`, a
/// title within its cap. `None` only where no bump seed gives an address.
pub fn derive_address(program_id: &[u8; 32], owner: &[u8; 32], title: &str) -> (r: Option<[u8; 32]>)
    requires
        utf8(title@).len() <= MAX_TITLE_LEN,
    ensures
        key_view(r) == entry_address(program_id@, owner@, title@),
{
    let tag: [u8; 13] = [106u8, 111u8, 117u8, 114u8, 110u8, 97u8, 108u8, 95u8, 101u8, 110u8, 116u8, 114u8, 121u8];
    assert(tag@ =~= entry_tag());
    let bytes = title.as_bytes();
    let mid: usize = if bytes.len() <= MAX_SEED_LEN { bytes.len() } else { MAX_SEED_LEN };
    let (head, tail) = bytes.split_at(mid);
    assert(head@ =~= title_seeds(utf8(title@)).0);
    assert(tail@ =~= title_seeds(utf8(title@)).1);
    find_program_address(tag.as_slice(), owner, head, tail, program_id)
}

} // verus!
