//! Stream encryption: track keys, stream paths and the striped stream format.

use vstd::prelude::*;

use aes::cipher::{Array, BlockCipherEncrypt, KeyInit};
use aes::Aes128;
use blowfish::Blowfish;
use cbc::cipher::{BlockModeDecrypt, KeyIvInit};
use md5::{Digest, Md5};

use crate::text;

verus! {

/// Bytes of one stripe of an encrypted stream.
pub const STRIPE: usize = 6144;

/// Bytes at the head of each full enough stripe that are encrypted.
pub const STRIPE_HEAD: usize = 2048;

/// The lower-case hexadecimal digit of `n`.
pub open spec fn hex_digit(n: int) -> char {
    if n < 10 {
        (('0' as int) + n) as char
    } else {
        (('a' as int) + n - 10) as char
    }
}

/// Two lower-case hexadecimal digits for each byte, the high half first.
pub open spec fn hex_text(data: Seq<u8>) -> Seq<char> {
    Seq::new(
        2 * data.len(),
        |i: int|
            if i % 2 == 0 {
                hex_digit(data[i / 2] as int / 16)
            } else {
                hex_digit(data[i / 2] as int % 16)
            },
    )
}

/// The MD5 digest of some bytes.
pub uninterp spec fn md5_digest(data: Seq<u8>) -> Seq<u8>;

/// One 16-byte block encrypted with AES under a 128-bit key.
pub uninterp spec fn aes128_block(key: Seq<u8>, block: Seq<u8>) -> Seq<u8>;

/// One 8-byte block decrypted with Blowfish (big-endian) under a key.
pub uninterp spec fn blowfish_block(key: Seq<u8>, block: Seq<u8>) -> Seq<u8>;

/// `md5::Md5`: hashes the bytes in one update. The result is the digest of the
/// bytes alone, and a digest has 16 bytes.
#[verifier::external_body]
fn md5_of(data: &[u8]) -> (r: Vec<u8>)
    ensures
        r@ == md5_digest(data@),
        r@.len() == 16,
{
    let mut hasher = Md5::new();
    hasher.update(data);
    hasher.finalize().to_vec()
}

/// `hex::encode`: writes each byte as two lower-case hexadecimal digits.
#[verifier::external_body]
fn hex_encode(data: &[u8]) -> (r: String)
    ensures
        r@ == hex_text(data@),
{
    hex::encode(data)
}

/// `aes::Aes128::encrypt_block`: encrypts one block under the key. The result
/// depends on the key and the block alone and has 16 bytes. A key of another
/// length is refused by `new_from_slice`.
#[verifier::external_body]
fn aes128_encrypt_block(key: &[u8], block: &[u8]) -> (r: Vec<u8>)
    requires
        key@.len() == 16,
        block@.len() == 16,
    ensures
        r@ == aes128_block(key@, block@),
        r@.len() == 16,
{
    let cipher = Aes128::new_from_slice(key).expect("Invalid AES key length");
    let bytes: [u8; 16] = block.try_into().expect("chunk must be 16 bytes");
    let mut block = Array::from(bytes);
    cipher.encrypt_block(&mut block);
    block.to_vec()
}

/// `cbc::Decryptor::<Blowfish>::decrypt_blocks`: decrypts whole blocks in cipher
/// block chaining. Each plain block is the Blowfish decryption of its cipher
/// block, combined by exclusive or with the cipher block before it, or with the
/// initial vector for the first. `new_from_slices` refuses a key shorter than 4
/// or longer than 56 bytes and an initial vector that has not 8.
#[verifier::external_body]
fn blowfish_cbc_decrypt(key: &[u8], iv: &[u8], data: &[u8]) -> (r: Vec<u8>)
    requires
        4 <= key@.len() <= 56,
        iv@.len() == 8,
        data@.len() % 8 == 0,
    ensures
        r@.len() == data@.len(),
        forall|i: int| 0 <= i < data@.len() ==> #[trigger] r@[i] == blowfish_block(
            key@,
            data@.subrange(i / 8 * 8, i / 8 * 8 + 8),
        )[i % 8] ^ (if i < 8 {
            iv@[i]
        } else {
            data@[i - 8]
        }),
{
    let mut buf = data.to_vec();
    let mut decryptor = cbc::Decryptor::<Blowfish>::new_from_slices(key, iv).expect(
        "Invalid blowfish key/iv length",
    );
    let (blocks, _) = Array::slice_as_chunks_mut(&mut buf);
    decryptor.decrypt_blocks(blocks);
    buf
}

/// Blocks decrypted in cipher block chaining.
pub open spec fn cbc_plain(key: Seq<u8>, iv: Seq<u8>, data: Seq<u8>) -> Seq<u8> {
    Seq::new(
        data.len(),
        |i: int|
            blowfish_block(key, data.subrange(i / 8 * 8, i / 8 * 8 + 8))[i % 8] ^ (if i < 8 {
                iv[i]
            } else {
                data[i - 8]
            }),
    )
}

/// The initial vector of every encrypted stripe head.
pub open spec fn stream_iv() -> Seq<u8> {
    Seq::new(8, |i: int| i as u8)
}

/// A chunk with its whole blocks decrypted and a partial last block untouched.
pub open spec fn chunk_plain(key: Seq<u8>, chunk: Seq<u8>) -> Seq<u8> {
    let whole = chunk.len() - chunk.len() % 8;
    cbc_plain(key, stream_iv(), chunk.take(whole)) + chunk.skip(whole)
}

/// Whether the byte at `i` of a stream of `len` bytes lies in the encrypted
/// head of its stripe: a stripe too short to fill its head is plain.
pub open spec fn in_encrypted_head(i: int, len: int) -> bool {
    i % 6144 < 2048 && i - i % 6144 + 2048 <= len
}

/// A stream with the head of each full enough stripe decrypted.
pub open spec fn stream_plain(key: Seq<u8>, data: Seq<u8>) -> Seq<u8> {
    Seq::new(
        data.len(),
        |i: int|
            if in_encrypted_head(i, data.len() as int) {
                chunk_plain(key, data.subrange(i - i % 6144, i - i % 6144 + 2048))[i % 6144]
            } else {
                data[i]
            },
    )
}

/// Blocks encrypted one by one, each on its own.
pub open spec fn ecb(key: Seq<u8>, data: Seq<u8>) -> Seq<u8> {
    Seq::new(
        data.len(),
        |i: int| aes128_block(key, data.subrange(i / 16 * 16, i / 16 * 16 + 16))[i % 16],
    )
}

/// The hexadecimal MD5 digest of some bytes.
pub open spec fn md5_text(data: Seq<u8>) -> Seq<char> {
    hex_text(md5_digest(data))
}

/// The Blowfish key of a track: the two halves of the hexadecimal MD5 digest of
/// its ID and a fixed secret, combined by exclusive or.
pub open spec fn track_key(track_id: Seq<char>) -> Seq<u8> {
    let digest = md5_text(vstd::utf8::encode_utf8(track_id));
    Seq::new(
        16,
        |i: int| (digest[i] as u8) ^ (digest[i + 16] as u8) ^ ("g4el58wc0zvf9na1"@[i] as u8),
    )
}

/// The four identifying parts of a stream, joined by the currency sign.
pub open spec fn stream_parts(
    sng_id: Seq<char>,
    md5: Seq<char>,
    media_version: Seq<char>,
    format: nat,
) -> Seq<char> {
    md5 + "\u{00a4}"@ + text::decimal(format) + "\u{00a4}"@ + sng_id + "\u{00a4}"@ + media_version
}

/// Bytes filled up with dots to a multiple of 16.
pub open spec fn dotted(data: Seq<u8>) -> Seq<u8> {
    data + Seq::new(((16 - data.len() % 16) % 16) as nat, |i: int| '.' as u8)
}

/// The encrypted path under which a stream is served.
pub open spec fn stream_path(
    sng_id: Seq<char>,
    md5: Seq<char>,
    media_version: Seq<char>,
    format: nat,
) -> Seq<char> {
    let parts = stream_parts(sng_id, md5, media_version, format);
    let marked = md5_text(vstd::utf8::encode_utf8(parts)) + "\u{00a4}"@ + parts + "\u{00a4}"@;
    hex_text(ecb(vstd::utf8::encode_utf8("jo6aey6haid2Teih"@), dotted(vstd::utf8::encode_utf8(marked))))
}

/// The URL of a stream: the proxy host carries the first character of the MD5,
/// or `0` where there is none.
pub open spec fn stream_url(
    sng_id: Seq<char>,
    md5: Seq<char>,
    media_version: Seq<char>,
    format: nat,
) -> Seq<char> {
    "https://e-cdns-proxy-"@ + seq![
        if md5.len() > 0 {
            md5[0]
        } else {
            '0'
        },
    ] + ".dzcdn.net/mobile/1/"@ + stream_path(sng_id, md5, media_version, format)
}

/// The hexadecimal MD5 digest of `data`.
pub fn md5_hex(data: &[u8]) -> (r: String)
    ensures
        r@ == md5_text(data@),
        r@.len() == 32,
{
    let digest = md5_of(data);
    hex_encode(digest.as_slice())
}

/// Encrypts whole AES blocks one by one and writes the result in hexadecimal.
pub fn aes_ecb_encrypt(key: &[u8], data: &[u8]) -> (r: String)
    requires
        key@.len() == 16,
        data@.len() % 16 == 0,
    ensures
        r@ == hex_text(ecb(key@, data@)),
{
    let mut result: Vec<u8> = Vec::new();
    let mut offset: usize = 0;
    while offset < data.len()
        invariant
            key@.len() == 16,
            data@.len() % 16 == 0,
            offset % 16 == 0,
            offset <= data@.len(),
            result@ == ecb(key@, data@).take(offset as int),
        decreases data@.len() - offset,
    {
        let block = vstd::slice::slice_subrange(data, offset, offset + 16);
        let mut sealed = aes128_encrypt_block(key, block);
        proof {
            assert(result@ + sealed@ =~= ecb(key@, data@).take(offset as int + 16));
        }
        result.append(&mut sealed);
        offset = offset + 16;
    }
    proof {
        assert(ecb(key@, data@).take(data@.len() as int) =~= ecb(key@, data@));
    }
    hex_encode(result.as_slice())
}

/// Derives the Blowfish key of a track from its ID.
pub fn generate_blowfish_key(track_id: &str) -> (r: Vec<u8>)
    ensures
        r@ == track_key(track_id@),
        r@.len() == 16,
{
    let id_md5 = md5_hex(track_id.as_bytes());
    let digits = text::chars_of(id_md5.as_str());
    let secret = text::chars_of("g4el58wc0zvf9na1");
    proof {
        reveal_strlit("g4el58wc0zvf9na1");
    }
    let mut key: Vec<u8> = Vec::new();
    let mut i: usize = 0;
    while i < 16
        invariant
            i <= 16,
            digits@ == md5_text(vstd::utf8::encode_utf8(track_id@)),
            digits@.len() == 32,
            secret@ == "g4el58wc0zvf9na1"@,
            secret@.len() == 16,
            key@ == track_key(track_id@).take(i as int),
        decreases 16 - i,
    {
        let byte: u8 = (digits[i] as u8) ^ (digits[i + 16] as u8) ^ (secret[i] as u8);
        key.push(byte);
        i = i + 1;
        proof {
            assert(key@ =~= track_key(track_id@).take(i as int));
        }
    }
    proof {
        assert(track_key(track_id@).take(16) =~= track_key(track_id@));
    }
    key
}

fn iv_bytes() -> (r: Vec<u8>)
    ensures
        r@ == stream_iv(),
{
    let r: Vec<u8> = vec![0u8, 1u8, 2u8, 3u8, 4u8, 5u8, 6u8, 7u8];
    proof {
        assert(r@ =~= stream_iv());
    }
    r
}

/// Decrypts the whole blocks of a chunk; a partial last block stays as it is.
pub fn decrypt_chunk(chunk: &[u8], blowfish_key: &[u8]) -> (r: Vec<u8>)
    requires
        4 <= blowfish_key@.len() <= 56,
    ensures
        r@ == chunk_plain(blowfish_key@, chunk@),
        r@.len() == chunk@.len(),
{
    let iv = iv_bytes();
    let whole: usize = chunk.len() - chunk.len() % 8;
    let blocks = vstd::slice::slice_subrange(chunk, 0, whole);
    let mut out = blowfish_cbc_decrypt(blowfish_key, iv.as_slice(), blocks);
    proof {
        assert(out@ =~= cbc_plain(blowfish_key@, stream_iv(), chunk@.take(whole as int)));
    }
    out.extend_from_slice(vstd::slice::slice_subrange(chunk, whole, chunk.len()));
    proof {
        assert(out@ =~= chunk_plain(blowfish_key@, chunk@));
    }
    out
}

/// The encrypted path of a stream.
pub fn generate_stream_path(sng_id: &str, md5: &str, media_version: &str, format: u32) -> (r:
    String)
    ensures
        r@ == stream_path(sng_id@, md5@, media_version@, format as nat),
{
    let format_digits = text::decimal_text(format as u64);
    let mut parts = md5.to_owned();
    parts.append("\u{00a4}");
    parts.append(format_digits.as_str());
    parts.append("\u{00a4}");
    parts.append(sng_id);
    parts.append("\u{00a4}");
    parts.append(media_version);
    let mut marked = md5_hex(parts.as_str().as_bytes());
    marked.append("\u{00a4}");
    marked.append(parts.as_str());
    marked.append("\u{00a4}");
    let mut padded: Vec<u8> = Vec::new();
    padded.extend_from_slice(marked.as_str().as_bytes());
    let ghost raw = padded@;
    proof {
        let all = stream_parts(sng_id@, md5@, media_version@, format as nat);
        assert(parts@ =~= all);
        assert(marked@ =~= md5_text(vstd::utf8::encode_utf8(all)) + "\u{00a4}"@ + all
            + "\u{00a4}"@);
        assert(raw =~= vstd::utf8::encode_utf8(marked@));
    }
    let pad_len: usize = 16 - padded.len() % 16;
    if pad_len < 16 {
        let mut i: usize = 0;
        while i < pad_len
            invariant
                i <= pad_len,
                padded@ == raw + Seq::new(i as nat, |k: int| '.' as u8),
            decreases pad_len - i,
        {
            padded.push(46u8);
            i = i + 1;
            proof {
                assert(padded@ =~= raw + Seq::new(i as nat, |k: int| '.' as u8));
            }
        }
    }
    proof {
        assert(padded@ =~= dotted(raw));
        reveal_strlit("jo6aey6haid2Teih");
        vstd::utf8::is_ascii_chars_encode_utf8("jo6aey6haid2Teih"@);
    }
    aes_ecb_encrypt("jo6aey6haid2Teih".as_bytes(), padded.as_slice())
}

/// The URL under which a stream is served.
pub fn generate_crypted_stream_url(
    sng_id: &str,
    md5: &str,
    media_version: &str,
    format: u32,
) -> (r: String)
    ensures
        r@ == stream_url(sng_id@, md5@, media_version@, format as nat),
{
    let path = generate_stream_path(sng_id, md5, media_version, format);
    let letters = text::chars_of(md5);
    let mut url = "https://e-cdns-proxy-".to_owned();
    if letters.len() > 0 {
        url.push(letters[0]);
    } else {
        url.push('0');
    }
    url.append(".dzcdn.net/mobile/1/");
    url.append(path.as_str());
    proof {
        assert(url@ =~= stream_url(sng_id@, md5@, media_version@, format as nat));
    }
    url
}

/// Decrypts a downloaded stream: the first 2048 bytes of each 6144-byte stripe
/// are decrypted, where the stripe has that many, and all others are copied.
pub fn decrypt_stream(encrypted: &[u8], blowfish_key: &[u8]) -> (r: Vec<u8>)
    requires
        encrypted@.len() >= 2048 ==> 4 <= blowfish_key@.len() <= 56,
    ensures
        r@ == stream_plain(blowfish_key@, encrypted@),
        r@.len() == encrypted@.len(),
{
    let mut output: Vec<u8> = Vec::new();
    let mut offset: usize = 0;
    while offset < encrypted.len()
        invariant
            encrypted@.len() >= 2048 ==> 4 <= blowfish_key@.len() <= 56,
            offset <= encrypted@.len(),
            offset < encrypted@.len() ==> offset % 6144 == 0,
            output@ == stream_plain(blowfish_key@, encrypted@).take(offset as int),
        decreases encrypted@.len() - offset,
    {
        let ghost before = output@;
        let remaining: usize = encrypted.len() - offset;
        let size: usize = if remaining < STRIPE {
            remaining
        } else {
            STRIPE
        };
        let chunk = vstd::slice::slice_subrange(encrypted, offset, offset + size);
        if size >= STRIPE_HEAD {
            let head = vstd::slice::slice_subrange(chunk, 0, STRIPE_HEAD);
            let mut decrypted = decrypt_chunk(head, blowfish_key);
            proof {
                assert(head@ =~= encrypted@.subrange(offset as int, offset + 2048));
            }
            output.append(&mut decrypted);
            output.extend_from_slice(vstd::slice::slice_subrange(chunk, STRIPE_HEAD, size));
        } else {
            output.extend_from_slice(chunk);
        }
        proof {
            let want = stream_plain(blowfish_key@, encrypted@).take(offset + size);
            assert forall|i: int| offset <= i < offset + size implies output@[i] == want[i] by {
                assert(i % 6144 == i - offset);
            }
            assert(output@ =~= want);
        }
        offset = offset + size;
    }
    proof {
        assert(stream_plain(blowfish_key@, encrypted@).take(encrypted@.len() as int)
            =~= stream_plain(blowfish_key@, encrypted@));
    }
    output
}

/// Two 8-byte blocks combined by exclusive or.
pub open spec fn xor_block(a: Seq<u8>, b: Seq<u8>) -> Seq<u8> {
    Seq::new(8, |i: int| a[i] ^ b[i])
}

/// Whole blocks encrypted in cipher block chaining with the block cipher `enc`.
pub open spec fn cbc_sealed(
    enc: spec_fn(Seq<u8>) -> Seq<u8>,
    iv: Seq<u8>,
    plain: Seq<u8>,
) -> Seq<u8>
    decreases plain.len(),
{
    if plain.len() < 8 {
        Seq::empty()
    } else {
        let first = enc(xor_block(plain.take(8), iv));
        first + cbc_sealed(enc, first, plain.skip(8))
    }
}

/// A stream with the head of each full enough stripe encrypted with `enc`.
pub open spec fn stream_sealed(enc: spec_fn(Seq<u8>) -> Seq<u8>, plain: Seq<u8>) -> Seq<u8> {
    Seq::new(
        plain.len(),
        |i: int|
            if in_encrypted_head(i, plain.len() as int) {
                cbc_sealed(
                    enc,
                    stream_iv(),
                    plain.subrange(i - i % 6144, i - i % 6144 + 2048),
                )[i % 6144]
            } else {
                plain[i]
            },
    )
}

/// Whether `enc` is the block encryption that Blowfish decryption undoes.
pub open spec fn undone_by_blowfish(enc: spec_fn(Seq<u8>) -> Seq<u8>, key: Seq<u8>) -> bool {
    forall|b: Seq<u8>|
        b.len() == 8 ==> #[trigger] enc(b).len() == 8 && blowfish_block(key, enc(b)) == b
}

/// Decrypting in cipher block chaining undoes encrypting in cipher block
/// chaining, for whole blocks and any initial vector.
pub proof fn cbc_roundtrip(
    enc: spec_fn(Seq<u8>) -> Seq<u8>,
    key: Seq<u8>,
    iv: Seq<u8>,
    plain: Seq<u8>,
)
    requires
        undone_by_blowfish(enc, key),
        plain.len() % 8 == 0,
    ensures
        cbc_sealed(enc, iv, plain).len() == plain.len(),
        cbc_plain(key, iv, cbc_sealed(enc, iv, plain)) == plain,
    decreases plain.len(),
{
    let sealed = cbc_sealed(enc, iv, plain);
    if plain.len() >= 8 {
        let mixed = xor_block(plain.take(8), iv);
        let first = enc(mixed);
        let rest = cbc_sealed(enc, first, plain.skip(8));
        cbc_roundtrip(enc, key, first, plain.skip(8));
        assert(first.len() == 8 && blowfish_block(key, first) == mixed);
        assert(sealed == first + rest);
        let back = cbc_plain(key, iv, sealed);
        let rest_back = cbc_plain(key, first, rest);
        assert(rest_back == plain.skip(8));
        assert forall|i: int| 0 <= i < plain.len() implies back[i] == plain[i] by {
            if i < 8 {
                assert(sealed.subrange(0, 8) =~= first);
                let p = plain[i];
                let v = iv[i];
                assert((p ^ v) ^ v == p) by (bit_vector);
                assert(i / 8 * 8 == 0 && i % 8 == i);
                assert(back[i] == (p ^ v) ^ v);
            } else {
                let j = i - 8;
                assert(i / 8 * 8 == j / 8 * 8 + 8 && i % 8 == j % 8);
                assert(sealed.subrange(i / 8 * 8, i / 8 * 8 + 8) =~= rest.subrange(
                    j / 8 * 8,
                    j / 8 * 8 + 8,
                ));
                assert(back[i] == rest_back[j]);
                assert(plain[i] == plain.skip(8)[j]);
            }
        }
        assert(back =~= plain);
    } else {
        assert(cbc_plain(key, iv, sealed) =~= plain);
    }
}

/// Decrypting a stream gives back what was encrypted in the striped format, for
/// every plain stream and every block encryption that the track key undoes.
pub proof fn decrypting_reverses_the_stream_format(
    enc: spec_fn(Seq<u8>) -> Seq<u8>,
    key: Seq<u8>,
    plain: Seq<u8>,
)
    requires
        undone_by_blowfish(enc, key),
    ensures
        stream_sealed(enc, plain).len() == plain.len(),
        stream_plain(key, stream_sealed(enc, plain)) == plain,
{
    let sealed = stream_sealed(enc, plain);
    let back = stream_plain(key, sealed);
    assert forall|i: int| 0 <= i < plain.len() implies back[i] == plain[i] by {
        if in_encrypted_head(i, plain.len() as int) {
            let from = i - i % 6144;
            let head = plain.subrange(from, from + 2048);
            let head_sealed = cbc_sealed(enc, stream_iv(), head);
            cbc_roundtrip(enc, key, stream_iv(), head);
            assert(sealed.subrange(from, from + 2048) =~= head_sealed) by {
                assert forall|j: int| 0 <= j < 2048 implies sealed[from + j] == head_sealed[j] by {
                    assert((from + j) % 6144 == j);
                }
            }
            assert(head_sealed.take(2048) =~= head_sealed);
            assert(chunk_plain(key, head_sealed) =~= head);
        }
    }
    assert(back =~= plain);
}

/// A stream shorter than one stripe head is never encrypted.
pub proof fn short_streams_are_plain(key: Seq<u8>, data: Seq<u8>)
    requires
        data.len() < 2048,
    ensures
        stream_plain(key, data) == data,
{
    assert(stream_plain(key, data) =~= data);
}

/// AES blocks are encrypted independently: the text of two runs of whole blocks
/// is the text of the first followed by the text of the second.
pub proof fn aes_blocks_are_independent(key: Seq<u8>, a: Seq<u8>, b: Seq<u8>)
    requires
        a.len() % 16 == 0,
        b.len() % 16 == 0,
    ensures
        hex_text(ecb(key, a + b)) == hex_text(ecb(key, a)) + hex_text(ecb(key, b)),
{
    let both = ecb(key, a + b);
    assert forall|i: int| 0 <= i < both.len() implies both[i] == (ecb(key, a) + ecb(key, b))[i] by {
        if i < a.len() {
            assert((a + b).subrange(i / 16 * 16, i / 16 * 16 + 16) =~= a.subrange(
                i / 16 * 16,
                i / 16 * 16 + 16,
            ));
        } else {
            let j = i - a.len();
            assert(i / 16 * 16 == a.len() + j / 16 * 16 && i % 16 == j % 16);
            assert((a + b).subrange(i / 16 * 16, i / 16 * 16 + 16) =~= b.subrange(
                j / 16 * 16,
                j / 16 * 16 + 16,
            ));
        }
    }
    assert(both =~= ecb(key, a) + ecb(key, b));
    assert(hex_text(both) =~= hex_text(ecb(key, a)) + hex_text(ecb(key, b)));
}

/// Every stripe of 6144 bytes whose first 2048 bytes are all there opens with
/// 2048 bytes in cipher block chaining: each block is decrypted, and combined by
/// exclusive or with the block before it, the first one with the numbers from 0
/// to 7. It is so for every stripe, not for the first alone.
pub proof fn every_stripe_head_is_decrypted(key: Seq<u8>, data: Seq<u8>, k: nat, j: int)
    requires
        6144 * k + 2048 <= data.len(),
        0 <= j < 2048,
    ensures
        stream_plain(key, data)[6144 * k + j] == blowfish_block(
            key,
            data.subrange(6144 * k + j / 8 * 8, 6144 * k + j / 8 * 8 + 8),
        )[j % 8] ^ (if j < 8 {
            j as u8
        } else {
            data[6144 * k + j - 8]
        }),
{
    let from = 6144 * k as int;
    let i = from + j;
    assert(i % 6144 == j && i - i % 6144 == from);
    let head = data.subrange(from, from + 2048);
    assert(head.take(2048) =~= head);
    assert(head.subrange(j / 8 * 8, j / 8 * 8 + 8) =~= data.subrange(
        from + j / 8 * 8,
        from + j / 8 * 8 + 8,
    ));
}

/// All other bytes are served as they are: those from the 2049th of a stripe of
/// 6144 bytes on, and those of a stripe that ends before its 2048th byte.
pub proof fn bytes_outside_stripe_heads_are_kept(key: Seq<u8>, data: Seq<u8>, k: nat, j: int)
    requires
        0 <= j < 6144,
        6144 * k + j < data.len(),
        j >= 2048 || data.len() < 6144 * k + 2048,
    ensures
        stream_plain(key, data).len() == data.len(),
        stream_plain(key, data)[6144 * k + j] == data[6144 * k + j],
{
    let i = 6144 * k + j;
    assert(i % 6144 == j);
}

/// Stripes are decrypted one by one: what stands behind a whole stripe of 6144
/// bytes is decrypted as if it stood alone, whatever the stripe holds.
pub proof fn stripes_are_decrypted_one_by_one(key: Seq<u8>, stripe: Seq<u8>, rest: Seq<u8>)
    requires
        stripe.len() == 6144,
    ensures
        stream_plain(key, stripe + rest) == stream_plain(key, stripe) + stream_plain(key, rest),
{
    let both = stripe + rest;
    assert forall|i: int| 0 <= i < both.len() implies stream_plain(key, both)[i] == (stream_plain(
        key,
        stripe,
    ) + stream_plain(key, rest))[i] by {
        if i < 6144 {
            assert(i % 6144 == i);
            assert(both.subrange(0, 2048) =~= stripe.subrange(0, 2048));
        } else {
            let j = i - 6144;
            let from = j - j % 6144;
            assert(i % 6144 == j % 6144);
            if from + 2048 <= rest.len() {
                assert(both.subrange(6144 + from, 6144 + from + 2048) =~= rest.subrange(
                    from,
                    from + 2048,
                ));
            }
        }
    }
    assert(stream_plain(key, both) =~= stream_plain(key, stripe) + stream_plain(key, rest));
}

/// A single chunk is decrypted like a stripe head, whatever its length: whole
/// blocks of 8 bytes in cipher block chaining from the numbers 0 to 7, and the
/// bytes behind the last whole block as they are.
pub proof fn chunks_are_decrypted_by_whole_blocks(key: Seq<u8>, chunk: Seq<u8>, j: int)
    requires
        0 <= j < chunk.len(),
    ensures
        chunk_plain(key, chunk).len() == chunk.len(),
        j / 8 * 8 + 8 > chunk.len() ==> chunk_plain(key, chunk)[j] == chunk[j],
        j / 8 * 8 + 8 <= chunk.len() ==> chunk_plain(key, chunk)[j] == blowfish_block(
            key,
            chunk.subrange(j / 8 * 8, j / 8 * 8 + 8),
        )[j % 8] ^ (if j < 8 {
            j as u8
        } else {
            chunk[j - 8]
        }),
{
    let whole = chunk.len() - chunk.len() % 8;
    if j < whole {
        assert(chunk.take(whole).subrange(j / 8 * 8, j / 8 * 8 + 8) =~= chunk.subrange(
            j / 8 * 8,
            j / 8 * 8 + 8,
        ));
    }
}

/// The key of a track has 16 bytes. Combined by exclusive or with the characters
/// of both halves of the hexadecimal digest of the track's ID it spells one
/// secret, the same for every track.
pub proof fn track_keys_share_one_secret(track_id: Seq<char>, i: int)
    requires
        0 <= i < 16,
    ensures
        track_key(track_id).len() == 16,
        track_key(track_id)[i] ^ (hex_text(
            md5_digest(vstd::utf8::encode_utf8(track_id)),
        )[i] as u8) ^ (hex_text(md5_digest(vstd::utf8::encode_utf8(track_id)))[i + 16] as u8) == (
        seq!['g', '4', 'e', 'l', '5', '8', 'w', 'c', '0', 'z', 'v', 'f', '9', 'n', 'a', '1'][i] as u8),
{
    reveal_strlit("g4el58wc0zvf9na1");
    let digest = hex_text(md5_digest(vstd::utf8::encode_utf8(track_id)));
    let a = digest[i] as u8;
    let b = digest[i + 16] as u8;
    let c = "g4el58wc0zvf9na1"@[i] as u8;
    assert((a ^ b ^ c) ^ a ^ b == c) by (bit_vector);
    assert("g4el58wc0zvf9na1"@ =~= seq![
        'g', '4', 'e', 'l', '5', '8', 'w', 'c', '0', 'z', 'v', 'f', '9', 'n', 'a', '1',
    ]);
}

/// The number that a lower-case hexadecimal digit stands for.
pub open spec fn hex_value(c: char) -> int {
    if '0' <= c && c <= '9' {
        c as int - 48
    } else {
        c as int - 87
    }
}

/// Hexadecimal text can be read back: each byte is written as two digits from 0
/// to 9 and a to f, and they give the byte again, the first one counting 16.
pub proof fn hex_text_reads_back(data: Seq<u8>, i: int)
    requires
        0 <= i < data.len(),
    ensures
        hex_text(data).len() == 2 * data.len(),
        16 * hex_value(hex_text(data)[2 * i]) + hex_value(hex_text(data)[2 * i + 1]) == data[i],
        0 <= hex_value(hex_text(data)[2 * i]) < 16,
        0 <= hex_value(hex_text(data)[2 * i + 1]) < 16,
{
    let n = data[i] as int;
    assert((2 * i) / 2 == i && (2 * i + 1) / 2 == i && (2 * i + 1) % 2 == 1);
}

/// Filling up adds fewer than 16 dots behind the data, and none where whole
/// blocks of 16 bytes are there already.
pub proof fn fills_are_shorter_than_a_block(data: Seq<u8>)
    ensures
        dotted(data).len() % 16 == 0,
        dotted(data).len() < data.len() + 16,
        dotted(data).take(data.len() as int) == data,
        forall|i: int| data.len() <= i < dotted(data).len() ==> #[trigger] dotted(data)[i] == 46,
{
    assert(dotted(data).take(data.len() as int) =~= data);
}

/// The path of a stream is the hexadecimal text of AES blocks under one fixed
/// key. Behind the digest of the parts they hold the parts themselves, each
/// closed by the currency sign: the MD5, the format, the ID and the version.
pub proof fn stream_paths_seal_the_parts(
    sng_id: Seq<char>,
    md5: Seq<char>,
    media_version: Seq<char>,
    format: nat,
    i: int,
)
    ensures
        ({
            let parts = md5.push('\u{a4}') + text::decimal(format).push('\u{a4}') + sng_id.push(
                '\u{a4}',
            ) + media_version;
            let sealed = vstd::utf8::encode_utf8(
                hex_text(md5_digest(vstd::utf8::encode_utf8(parts))).push('\u{a4}') + parts.push(
                    '\u{a4}',
                ),
            );
            let key = vstd::utf8::encode_utf8(
                seq!['j', 'o', '6', 'a', 'e', 'y', '6', 'h', 'a', 'i', 'd', '2', 'T', 'e', 'i', 'h'],
            );
            let path = stream_path(sng_id, md5, media_version, format);
            &&& path.len() % 32 == 0
            &&& 2 * sealed.len() <= path.len() < 2 * sealed.len() + 32
            &&& (0 <= i && 16 * i + 16 <= sealed.len()) ==> path.subrange(32 * i, 32 * i + 32)
                == hex_text(
                Seq::new(
                    16,
                    |j: int| aes128_block(key, sealed.subrange(16 * i, 16 * i + 16))[j],
                ),
            )
        }),
{
    let parts = md5.push('\u{a4}') + text::decimal(format).push('\u{a4}') + sng_id.push('\u{a4}')
        + media_version;
    reveal_strlit("\u{00a4}");
    reveal_strlit("jo6aey6haid2Teih");
    assert("jo6aey6haid2Teih"@ =~= seq![
        'j', 'o', '6', 'a', 'e', 'y', '6', 'h', 'a', 'i', 'd', '2', 'T', 'e', 'i', 'h',
    ]);
    let own = stream_parts(sng_id, md5, media_version, format);
    assert(own =~= parts);
    let marked = md5_text(vstd::utf8::encode_utf8(parts)) + "\u{00a4}"@ + parts + "\u{00a4}"@;
    assert(marked =~= hex_text(md5_digest(vstd::utf8::encode_utf8(parts))).push('\u{a4}')
        + parts.push('\u{a4}'));
    let sealed = vstd::utf8::encode_utf8(marked);
    let key = vstd::utf8::encode_utf8("jo6aey6haid2Teih"@);
    let all = dotted(sealed);
    let path = stream_path(sng_id, md5, media_version, format);
    fills_are_shorter_than_a_block(sealed);
    if 0 <= i && 16 * i + 16 <= sealed.len() {
        let block = Seq::new(16, |j: int| aes128_block(key, sealed.subrange(16 * i, 16 * i + 16))[j]);
        assert forall|j: int| 0 <= j < 32 implies path[32 * i + j] == hex_text(block)[j] by {
            let at = 32 * i + j;
            assert(at / 2 == 16 * i + j / 2 && at % 2 == j % 2);
            let b = at / 2;
            assert(b / 16 * 16 == 16 * i && b % 16 == j / 2);
            assert(all.subrange(16 * i, 16 * i + 16) =~= sealed.subrange(16 * i, 16 * i + 16));
        }
        assert(path.subrange(32 * i, 32 * i + 32) =~= hex_text(block));
    }
}

/// A stream is served over HTTPS by the proxy that the first character of its
/// MD5 names, `0` where it has none, under its sealed path.
pub proof fn stream_urls_name_the_proxy(
    sng_id: Seq<char>,
    md5: Seq<char>,
    media_version: Seq<char>,
    format: nat,
)
    ensures
        ({
            let url = stream_url(sng_id, md5, media_version, format);
            let path = stream_path(sng_id, md5, media_version, format);
            &&& url.len() == 42 + path.len()
            &&& url.take(21) == "https://e-cdns-proxy-"@
            &&& url[21] == (if md5.len() == 0 {
                '0'
            } else {
                md5.first()
            })
            &&& url.subrange(22, 42) == ".dzcdn.net/mobile/1/"@
            &&& url.skip(42) == path
        }),
{
    reveal_strlit("https://e-cdns-proxy-");
    reveal_strlit(".dzcdn.net/mobile/1/");
    let url = stream_url(sng_id, md5, media_version, format);
    assert(url.take(21) =~= "https://e-cdns-proxy-"@);
    assert(url.subrange(22, 42) =~= ".dzcdn.net/mobile/1/"@);
    assert(url.skip(42) =~= stream_path(sng_id, md5, media_version, format));
}

} // verus!
