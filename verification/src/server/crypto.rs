//! The server's shared key: the configured one, the one stored in the key
//! file, or a fresh one.  Reading and writing the file is the
//! application's, which then does what the returned plan says.

use crate::protocol::encoding::{hex_encode, hex_text, random_bytes};
use crate::text::{chars_of, sub_string, trim, trim_bounds};
use vstd::prelude::*;

verus! {

broadcast use vstd::string::group_string_axioms;

/// The key to use, and whether it must be written to the key file.
#[derive(Debug)]
pub struct AuthKey {
    pub key: String,
    pub write: bool,
}

/// Picks the shared key.  A configured key (`provided`) wins, and is stored
/// when the key file does not exist yet; otherwise the trimmed contents of an
/// existing key file, unless blank; otherwise 32 random bytes in hex, to be
/// stored.  `contents` is read only when `provided` is empty and the file
/// exists.
pub fn load_or_create_auth_key(provided: &str, file_exists: bool, contents: &str) -> (k: AuthKey)
    ensures
        provided@.len() > 0 ==> k.key@ == provided@ && k.write == !file_exists,
        provided@.len() == 0 && file_exists && trim(contents@).len() > 0 ==> k.key@ == trim(
            contents@,
        ) && !k.write,
        provided@.len() == 0 && !(file_exists && trim(contents@).len() > 0) ==> k.write && exists|
            b: Seq<u8>,
        | b.len() == 32 && k.key@ == hex_text(b),
{
    if !provided.is_empty() {
        return AuthKey { key: provided.to_string(), write: !file_exists };
    }
    if file_exists {
        let c = chars_of(contents);
        proof {
            assert(c@.subrange(0, c@.len() as int) == c@);
        }
        let (a, b) = trim_bounds(c.as_slice(), 0, c.len());
        if a < b {
            return AuthKey { key: sub_string(c.as_slice(), a, b), write: false };
        }
    }
    let bytes = random_bytes(32);
    AuthKey { key: hex_encode(bytes.as_slice()), write: true }
}

} // verus!
