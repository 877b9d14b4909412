//! Fresh randomness: salts, nonces, generated passwords and entry
//! identifiers.  Nothing is assumed about the values that come back, only
//! about their shape; callers state what holds of every outcome.

use vstd::prelude::*;

use crate::models::SALT_LEN;
use crate::strutil::ascii_bytes_to_string;

verus! {

/// Relies on `rand::rngs::OsRng` (`RngCore::try_fill_bytes`, crate `rand`):
/// fills the buffer with operating-system randomness or reports failure;
/// nothing is assumed of the values, only the length is stated.
#[verifier::external_body]
pub(crate) fn os_random_bytes(n: usize) -> (r: Option<Vec<u8>>)
    ensures
        match r {
            Some(v) => v@.len() == n,
            None => true,
        },
{
    let mut buf = vec![0u8; n];
    match rand::RngCore::try_fill_bytes(&mut rand::rngs::OsRng, &mut buf) {
        Ok(()) => Some(buf),
        Err(_) => None,
    }
}

/// A fresh salt: `SALT_LEN` bytes of operating-system randomness, generated
/// once per vault at creation and never regenerated afterwards.  Returns
/// nothing when the randomness source is unavailable.
pub fn gen_salt() -> (r: Option<Vec<u8>>)
    ensures
        match r {
            Some(v) => v@.len() == SALT_LEN,
            None => true,
        },
{
    os_random_bytes(SALT_LEN)
}

/// Whether a byte is one the password generator may emit: a letter, a
/// digit, or one of the eight symbols.
pub open spec fn pwd_byte_ok(b: u8) -> bool {
    (97 <= b <= 122) || (65 <= b <= 90) || (48 <= b <= 57) || b == 33 || b == 64 || b == 35 || b
        == 36 || b == 37 || b == 94 || b == 38 || b == 42
}

/// Whether a character is one the password generator may emit.
pub open spec fn pwd_char_ok(c: char) -> bool {
    (c as u32) < 128 && pwd_byte_ok(c as u8)
}

/// The generator's alphabet has 70 symbols.
pub const PWD_CHARSET_LEN: usize = 70;

/// The `i`-th symbol of the generator's alphabet: the lower-case letters,
/// the upper-case letters, the digits, then the eight symbols.
fn charset_byte(i: usize) -> (b: u8)
    requires
        i < PWD_CHARSET_LEN,
    ensures
        pwd_byte_ok(b),
{
    if i < 26 {
        97 + i as u8
    } else if i < 52 {
        65 + (i - 26) as u8
    } else if i < 62 {
        48 + (i - 52) as u8
    } else if i == 62 {
        33
    } else if i == 63 {
        64
    } else if i == 64 {
        35
    } else if i == 65 {
        36
    } else if i == 66 {
        37
    } else if i == 67 {
        94
    } else if i == 68 {
        38
    } else {
        42
    }
}

/// Generates a random password of the given length over the fixed
/// alphabet.  Returns nothing when the randomness source is unavailable.
pub fn gen_pwd(len: usize) -> (r: Option<String>)
    ensures
        match r {
            Some(s) => s@.len() == len && forall|i: int|
                0 <= i < s@.len() ==> pwd_char_ok(#[trigger] s@[i]),
            None => true,
        },
{
    let raw = match os_random_bytes(len) {
        Some(v) => v,
        None => {
            return None;
        },
    };
    let mut bytes: Vec<u8> = Vec::new();
    let mut i: usize = 0;
    while i < raw.len()
        invariant
            i <= raw@.len(),
            bytes@.len() == i,
            forall|j: int| 0 <= j < i ==> pwd_byte_ok(#[trigger] bytes@[j]),
        decreases raw@.len() - i,
    {
        let idx = (raw[i] % 70) as usize;
        bytes.push(charset_byte(idx));
        i = i + 1;
    }
    proof {
        assert(forall|j: int| 0 <= j < bytes@.len() ==> #[trigger] bytes@[j] < 128);
    }
    let s = ascii_bytes_to_string(bytes);
    proof {
        assert forall|j: int| 0 <= j < s@.len() implies pwd_char_ok(#[trigger] s@[j]) by {
            assert(s@[j] == bytes@[j] as char);
            assert(pwd_byte_ok(bytes@[j]));
        }
    }
    Some(s)
}

/// The hexadecimal digits of a number, most significant first, without
/// leading zeros, as bytes of ASCII text.
pub open spec fn spec_hex_bytes(x: u128) -> Seq<u8>
    decreases x,
{
    if x < 16 {
        seq![spec_hex_digit((x % 16) as u8)]
    } else {
        spec_hex_bytes(x / 16).push(spec_hex_digit((x % 16) as u8))
    }
}

/// The ASCII byte of one hexadecimal digit, lower case.
pub open spec fn spec_hex_digit(d: u8) -> u8 {
    if d < 10 {
        (48 + d) as u8
    } else {
        (87 + d) as u8
    }
}

/// Appends the hexadecimal digits of `x`.
fn push_hex(x: u128, out: &mut Vec<u8>)
    ensures
        final(out)@ == old(out)@ + spec_hex_bytes(x),
    decreases x,
{
    if x < 16 {
        let d = (x % 16) as u8;
        out.push(if d < 10 {
            48 + d
        } else {
            87 + d
        });
        proof {
            assert(out@ =~= old(out)@ + spec_hex_bytes(x));
        }
    } else {
        push_hex(x / 16, out);
        let d = (x % 16) as u8;
        out.push(if d < 10 {
            48 + d
        } else {
            87 + d
        });
        proof {
            assert(out@ =~= old(out)@ + spec_hex_bytes(x));
        }
    }
}

/// Every hex digit byte is printable ASCII.
proof fn lemma_hex_bytes_ascii(x: u128)
    ensures
        spec_hex_bytes(x).len() >= 1,
        forall|i: int| 0 <= i < spec_hex_bytes(x).len() ==> #[trigger] spec_hex_bytes(x)[i] < 128,
    decreases x,
{
    if x < 16 {
    } else {
        lemma_hex_bytes_ascii(x / 16);
    }
}

/// A fresh entry identifier: the hexadecimal form of 128 random bits.
/// Returns nothing when the randomness source is unavailable.
pub fn generate_uuid() -> (r: Option<String>)
    ensures
        match r {
            Some(s) => s@.len() >= 1 && (exists|x: u128| s@ == spec_hex_chars(x)),
            None => true,
        },
{
    let raw = match os_random_bytes(16) {
        Some(v) => v,
        None => {
            return None;
        },
    };
    let x = vstd::bytes::u128_from_le_bytes(raw.as_slice());
    Some(u128_to_hex(x))
}

/// The hexadecimal digits of a number, as characters.
pub open spec fn spec_hex_chars(x: u128) -> Seq<char> {
    spec_hex_bytes(x).map_values(|b: u8| b as char)
}

/// The hexadecimal form of a number, lower case, without leading zeros.
pub fn u128_to_hex(x: u128) -> (r: String)
    ensures
        r@ == spec_hex_chars(x),
        r@.len() >= 1,
{
    let mut bytes: Vec<u8> = Vec::new();
    push_hex(x, &mut bytes);
    proof {
        lemma_hex_bytes_ascii(x);
        assert(bytes@ =~= spec_hex_bytes(x));
    }
    let s = ascii_bytes_to_string(bytes);
    proof {
        assert(s@ =~= spec_hex_chars(x));
    }
    s
}

} // verus!
