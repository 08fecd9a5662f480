use vstd::prelude::*;

use aes_soft::Aes128;
use block_modes::{block_padding, BlockMode, Cbc};

verus! {

/// Why a decryption failed.
#[derive(Debug, Clone, Copy, PartialEq, Eq)]
pub enum CryptError {
    /// The key or the initialization vector is not 16 bytes long.
    InvalidKeyIvLength,
    /// The data is not made of whole 16-byte blocks.
    BlockMode,
}

/// The plain text of `data` under AES-128 in CBC mode without padding, with `key` and `iv`.
pub uninterp spec fn aes128_cbc_plain(key: Seq<u8>, iv: Seq<u8>, data: Seq<u8>) -> Seq<u8>;

/// Decrypts with `block_modes::Cbc<aes_soft::Aes128, NoPadding>`: `new_var` refuses a key or
/// an initialization vector that is not 16 bytes long, `decrypt_vec` refuses data that is not
/// made of whole 16-byte blocks and, without padding to take off, gives as many bytes as it got.
/// The plain text itself is named, not restated.
#[verifier::external_body]
fn decrypt_cbc(key: &[u8], iv: &[u8], data: &[u8]) -> (r: Result<Vec<u8>, CryptError>)
    ensures
        match r {
            Ok(v) => key.len() == 16 && iv.len() == 16 && data.len() % 16 == 0
                && v@ == aes128_cbc_plain(key@, iv@, data@) && v@.len() == data.len(),
            Err(e) => !(key.len() == 16 && iv.len() == 16 && data.len() % 16 == 0)
                && e == (if key.len() != 16 || iv.len() != 16 { CryptError::InvalidKeyIvLength } else { CryptError::BlockMode }),
        },
{
    let cipher = match Cbc::<Aes128, block_padding::NoPadding>::new_var(key, iv) {
        Ok(c) => c,
        Err(_) => return Err(CryptError::InvalidKeyIvLength),
    };
    cipher.decrypt_vec(data).map_err(|_| CryptError::BlockMode)
}

/// The lowercase hexadecimal digit of a value below sixteen.
pub open spec fn hex_digit(d: int) -> char {
    if d < 10 {
        (d + ('0' as int)) as char
    } else {
        (d - 10 + ('a' as int)) as char
    }
}

/// Each byte as two lowercase hexadecimal digits, high one first, as `hex::encode` writes.
pub open spec fn hex_of(bytes: Seq<u8>) -> Seq<char>
    decreases bytes.len(),
{
    if bytes.len() == 0 {
        Seq::<char>::empty()
    } else {
        hex_of(bytes.drop_last()) + seq![hex_digit(bytes.last() as int / 16), hex_digit(bytes.last() as int % 16)]
    }
}

/// `hex::encode`: each byte as two lowercase hexadecimal digits.
#[verifier::external_body]
fn hex_encode(bytes: &[u8]) -> (r: String)
    ensures
        r@ == hex_of(bytes@),
{
    hex::encode(bytes)
}

/// Decrypts `data` with AES-128 in CBC mode, without padding, and writes the plain text in
/// hexadecimal.
pub fn encode(key: &[u8], iv: &[u8], data: &[u8]) -> (r: Result<String, CryptError>)
    ensures
        (key.len() != 16 || iv.len() != 16) ==> r == Err::<String, CryptError>(CryptError::InvalidKeyIvLength),
        (key.len() == 16 && iv.len() == 16 && data.len() % 16 != 0) ==> r == Err::<String, CryptError>(CryptError::BlockMode),
        (key.len() == 16 && iv.len() == 16 && data.len() % 16 == 0) ==> (r matches Ok(s)
            && s@ == hex_of(aes128_cbc_plain(key@, iv@, data@)) && s@.len() == 2 * data.len()),
{
    match decrypt_cbc(key, iv, data) {
        Ok(plain) => {
            proof {
                lemma_hex_len(plain@);
            }
            Ok(hex_encode(plain.as_slice()))
        },
        Err(e) => Err(e),
    }
}

proof fn lemma_hex_len(bytes: Seq<u8>)
    ensures
        hex_of(bytes).len() == 2 * bytes.len(),
    decreases bytes.len(),
{
    if bytes.len() > 0 {
        lemma_hex_len(bytes.drop_last());
    }
}

} // verus!
