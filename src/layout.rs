//! The byte image of a journal entry inside its account.
//!
//! An account holds an 8-byte discriminator, the owner's 32-byte key, the
//! title and the content each as a little-endian `u32` length followed by
//! UTF-8 bytes, and zeros up to the fixed account size.
use vstd::prelude::*;
use vstd::utf8::encode_utf8;

verus! {

/// Byte length of the discriminator that opens every entry account.
pub const DISCRIMINATOR_LEN: usize = 8;

/// Byte length of an owner key.
pub const KEY_LEN: usize = 32;

/// Largest encoded title, in bytes.
pub const MAX_TITLE_LEN: usize = 64;

/// Largest encoded content, in bytes.
pub const MAX_CONTENT_LEN: usize = 256;

/// Byte length of the length prefix of a string.
pub const LEN_PREFIX: usize = 4;

/// Size of an entry account: header, key, and both strings at their caps.
pub const ACCOUNT_SPACE: usize = 368;

/// The discriminator of an entry account: the first eight bytes of the
/// SHA-256 digest of `account:JournalEntry`.
pub open spec fn discriminator() -> Seq<u8> {
    seq![255u8, 74u8, 177u8, 178u8, 227u8, 112u8, 46u8, 152u8]
}

/// UTF-8 bytes of a string.
pub open spec fn utf8(s: Seq<char>) -> Seq<u8> {
    encode_utf8(s)
}

/// Little-endian bytes of a 32-bit length.
pub open spec fn le32(n: nat) -> Seq<u8> {
    seq![(n % 256) as u8, ((n / 256) % 256) as u8, ((n / 65536) % 256) as u8, ((n / 16777216) % 256) as u8]
}

/// A string as stored: its length prefix, then its bytes.
pub open spec fn prefixed(b: Seq<u8>) -> Seq<u8> {
    le32(b.len()) + b
}

/// The fields of an entry, in their encoded form.
pub open spec fn encode_fields(owner: Seq<u8>, title: Seq<u8>, content: Seq<u8>) -> Seq<u8> {
    discriminator() + owner + prefixed(title) + prefixed(content)
}

/// Where the encoded fields end and the zero padding starts.
pub open spec fn fields_end(title: Seq<u8>, content: Seq<u8>) -> nat {
    (DISCRIMINATOR_LEN + KEY_LEN + LEN_PREFIX + title.len() + LEN_PREFIX + content.len()) as nat
}

/// The whole account image: the encoded fields padded with zeros to
/// `ACCOUNT_SPACE` bytes.
pub open spec fn account_image(owner: Seq<u8>, title: Seq<u8>, content: Seq<u8>) -> Seq<u8> {
    let f = encode_fields(owner, title, content);
    f + Seq::new((ACCOUNT_SPACE - f.len()) as nat, |i: int| 0u8)
}

/// Fields that fit an entry account.
pub open spec fn fits(owner: Seq<u8>, title: Seq<u8>, content: Seq<u8>) -> bool {
    &&& owner.len() == KEY_LEN
    &&& title.len() <= MAX_TITLE_LEN
    &&& content.len() <= MAX_CONTENT_LEN
}

/// Writes `src` into `data` from position `at`, leaving the other bytes.
fn write_at(data: &mut Vec<u8>, at: usize, src: &[u8])
    requires
        at + src@.len() <= old(data)@.len(),
    ensures
        final(data)@.len() == old(data)@.len(),
        forall|k: int| 0 <= k < at ==> final(data)@[k] == old(data)@[k],
        forall|k: int| 0 <= k < src@.len() ==> final(data)@[at + k] == src@[k],
        forall|k: int| at + src@.len() <= k < old(data)@.len() ==> final(data)@[k] == old(data)@[k],
{
    let n: usize = data.len();
    let mut j: usize = 0;
    while j < src.len()
        invariant
            j <= src@.len(),
            at + src@.len() <= old(data)@.len(),
            old(data)@.len() == n,
            data@.len() == old(data)@.len(),
            forall|k: int| 0 <= k < at ==> data@[k] == old(data)@[k],
            forall|k: int| 0 <= k < j ==> data@[at + k] == src@[k],
            forall|k: int| at + j <= k < old(data)@.len() ==> data@[k] == old(data)@[k],
        decreases src@.len() - j,
    {
        data.set(at + j, src[j]);
        j = j + 1;
    }
}

/// Little-endian bytes of a length.
fn le32_bytes(n: usize) -> (r: [u8; 4])
    requires
        n <= u32::MAX,
    ensures
        r@ == le32(n as nat),
{
    let r = [(n % 256) as u8, ((n / 256) % 256) as u8, ((n / 65536) % 256) as u8, ((n / 16777216) % 256) as u8];
    assert(r@ =~= le32(n as nat));
    r
}

/// Rewrites an account buffer in place so that it holds exactly the image of
/// the given fields. The buffer is first resized to `ACCOUNT_SPACE`, new bytes
/// zeroed, and everything past the encoded fields is zeroed again, so no byte
/// of an earlier, longer value survives.
pub fn store_image(data: &mut Vec<u8>, owner: &[u8; 32], title: &[u8], content: &[u8])
    requires
        fits(owner@, title@, content@),
    ensures
        final(data)@ == account_image(owner@, title@, content@),
{
    data.resize(ACCOUNT_SPACE, 0u8);
    let ghost sized = data@;
    let tl = title.len();
    let cl = content.len();
    let disc: [u8; 8] = [255u8, 74u8, 177u8, 178u8, 227u8, 112u8, 46u8, 152u8];
    write_at(data, 0, disc.as_slice());
    write_at(data, DISCRIMINATOR_LEN, owner.as_slice());
    let tp = le32_bytes(tl);
    write_at(data, 40, tp.as_slice());
    write_at(data, 44, title);
    let cp = le32_bytes(cl);
    write_at(data, 44 + tl, cp.as_slice());
    write_at(data, 48 + tl, content);
    let end = 48 + tl + cl;
    let mut k: usize = end;
    while k < ACCOUNT_SPACE
        invariant
            end <= k <= ACCOUNT_SPACE,
            tl == title@.len(),
            cl == content@.len(),
            tl <= MAX_TITLE_LEN,
            cl <= MAX_CONTENT_LEN,
            end == 48 + tl + cl,
            data@.len() == ACCOUNT_SPACE,
            forall|m: int| 0 <= m < 8 ==> data@[m] == disc@[m],
            forall|m: int| 0 <= m < 32 ==> data@[8 + m] == owner@[m],
            forall|m: int| 0 <= m < 4 ==> data@[40 + m] == tp@[m],
            forall|m: int| 0 <= m < tl ==> data@[44 + m] == title@[m],
            forall|m: int| 0 <= m < 4 ==> data@[44 + tl + m] == cp@[m],
            forall|m: int| 0 <= m < cl ==> data@[48 + tl + m] == content@[m],
            forall|m: int| end <= m < k ==> data@[m] == 0u8,
        decreases ACCOUNT_SPACE - k,
    {
        data.set(k, 0u8);
        k = k + 1;
    }
    assert(data@ =~= account_image(owner@, title@, content@));
}

} // verus!
