//! Content digests. The digest is SHA-512 in lower-case hexadecimal, computed by
//! the `sha2` crate; what is hashed is laid out here.

use vstd::prelude::*;
use vstd::utf8::encode_utf8;
use sha2::{Digest, Sha512};

verus! {

/// The SHA-512 digest of `data`, as `sha2` computes it, in lower-case
/// hexadecimal digits.
pub uninterp spec fn sha512_hex(data: Seq<u8>) -> Seq<char>;

/// The character is one of `0` to `9` or `a` to `f`.
pub open spec fn is_lower_hex(c: char) -> bool {
    ('0' <= c <= '9') || ('a' <= c <= 'f')
}

/// The text has the form of a digest: 128 hexadecimal digits in lower case.
pub open spec fn is_digest(text: Seq<char>) -> bool {
    text.len() == 128 && forall|i: int| 0 <= i < text.len() ==> is_lower_hex(#[trigger] text[i])
}

/// `n` in decimal digits, without leading zeros.
pub open spec fn decimal(n: nat) -> Seq<u8>
    decreases n,
{
    if n < 10 {
        seq![(48 + n) as u8]
    } else {
        decimal(n / 10).push((48 + n % 10) as u8)
    }
}

/// Content between its own length, written before and after it:
/// `<len>:<content>;<len>`. With the length on both sides, no content can be
/// mistaken for another one with something added.
pub open spec fn framed(content: Seq<u8>) -> Seq<u8> {
    decimal(content.len()) + seq![58u8] + content + seq![59u8] + decimal(content.len())
}

/// One line per file, `<path>:<hash>` and a line feed, in the order given.
pub open spec fn listing_bytes(files: Seq<(String, String)>) -> Seq<u8>
    decreases files.len(),
{
    if files.len() == 0 {
        Seq::empty()
    } else {
        listing_bytes(files.drop_last()) + encode_utf8(files.last().0@) + seq![58u8] + encode_utf8(
            files.last().1@,
        ) + seq![10u8]
    }
}

/// `Digest::digest` of `sha2` for `Sha512`, formatted with `{:x}`: the digest
/// of exactly the bytes given, as text. The claim is that the text depends on
/// nothing but those bytes, and that it is the 64 bytes of a SHA-512 digest
/// written as two lower-case hexadecimal digits each.
#[verifier::external_body]
fn digest_hex(data: &[u8]) -> (r: String)
    ensures
        r@ == sha512_hex(data@),
        is_digest(r@),
{
    format!("{:x}", Sha512::digest(data))
}

/// Appends `n` in decimal digits.
fn push_decimal(out: &mut Vec<u8>, n: usize)
    ensures
        final(out)@ == old(out)@ + decimal(n as nat),
    decreases n,
{
    if n >= 10 {
        push_decimal(out, n / 10);
    }
    out.push(48 + (n % 10) as u8);
}

/// Appends the bytes of `src`.
fn push_bytes(out: &mut Vec<u8>, src: &[u8])
    ensures
        final(out)@ == old(out)@ + src@,
{
    let mut i: usize = 0;
    while i < src.len()
        invariant
            i <= src@.len(),
            out@ == old(out)@ + src@.take(i as int),
        decreases src@.len() - i,
    {
        out.push(src[i]);
        i += 1;
    }
}

/// `bytes` between their length, as they are hashed.
pub fn frame(bytes: &[u8]) -> (data: Vec<u8>)
    ensures
        data@ == framed(bytes@),
{
    let mut data: Vec<u8> = Vec::new();
    push_decimal(&mut data, bytes.len());
    data.push(58);
    push_bytes(&mut data, bytes);
    data.push(59);
    push_decimal(&mut data, bytes.len());
    data
}

/// The digest of `bytes` framed by their length.
pub fn hash_bytes(bytes: &[u8]) -> (r: String)
    ensures
        r@ == sha512_hex(framed(bytes@)),
        is_digest(r@),
{
    digest_hex(frame(bytes).as_slice())
}

/// The lines of a set of files, as they are hashed into a content id.
pub fn listing(file_hashes: &[(String, String)]) -> (data: Vec<u8>)
    ensures
        data@ == listing_bytes(file_hashes@),
{
    let mut data: Vec<u8> = Vec::new();
    let mut i: usize = 0;
    while i < file_hashes.len()
        invariant
            i <= file_hashes@.len(),
            data@ == listing_bytes(file_hashes@.take(i as int)),
        decreases file_hashes@.len() - i,
    {
        push_bytes(&mut data, file_hashes[i].0.as_str().as_bytes());
        data.push(58);
        push_bytes(&mut data, file_hashes[i].1.as_str().as_bytes());
        data.push(10);
        proof {
            let next = file_hashes@.take(i + 1);
            assert(next.drop_last() =~= file_hashes@.take(i as int));
        }
        i += 1;
    }
    assert(file_hashes@.take(file_hashes@.len() as int) =~= file_hashes@);
    data
}

/// The content id of a set of files: the digest of their paths and hashes, one
/// line each, in the order given.
pub fn calculate_content_id(file_hashes: &[(String, String)]) -> (r: String)
    ensures
        r@ == sha512_hex(listing_bytes(file_hashes@)),
        is_digest(r@),
{
    digest_hex(listing(file_hashes).as_slice())
}

} // verus!
