//! Where the store is reached, and under which key it keeps a session.

use vstd::prelude::*;
use vstd::string::StringExecFns;

use crate::session::SessionId;
use crate::text::{decimal_chars, decimal_text, digits_value, lemma_decimal_chars_are_digits};

verus! {

/// The configuration key that holds the address of the store.
pub const REDIS_ADDRESS_CONFIG_KEY: &'static str = "redis_connection_address";

/// The address of the store where the configuration gives none.
pub const REDIS_DEFAULT_ADDRESS: &'static str = "redis://localhost";

/// What the key of every session starts with.
pub const SESSION_KEY_PREFIX: &'static str = "todos:";

/// The address at which to reach the store: the configured one, or the default
/// where none is configured.
pub fn store_address<'a>(configured: Option<&'a str>) -> (address: &'a str)
    ensures
        address@ == match configured {
            Some(text) => text@,
            None => REDIS_DEFAULT_ADDRESS@,
        },
{
    match configured {
        Some(text) => text,
        None => REDIS_DEFAULT_ADDRESS,
    }
}

/// The key under which the store keeps the items of a session.
pub open spec fn session_key_chars(id: SessionId) -> Seq<char> {
    SESSION_KEY_PREFIX@ + decimal_chars(id.0 as nat)
}

/// The key under which the store keeps the items of a session.
pub fn session_key(id: SessionId) -> (key: String)
    ensures
        key@ == session_key_chars(id),
{
    let mut key = SESSION_KEY_PREFIX.to_owned();
    let number = decimal_text(id.0);
    key.append(number.as_str());
    key
}

/// Two sessions never share a key.
pub proof fn lemma_session_keys_differ(a: SessionId, b: SessionId)
    requires
        a != b,
    ensures
        session_key_chars(a) != session_key_chars(b),
{
    let prefix = SESSION_KEY_PREFIX@;
    let x = decimal_chars(a.0 as nat);
    let y = decimal_chars(b.0 as nat);
    if prefix + x == prefix + y {
        assert((prefix + x).subrange(prefix.len() as int, (prefix + x).len() as int) =~= x);
        assert((prefix + y).subrange(prefix.len() as int, (prefix + y).len() as int) =~= y);
        lemma_decimal_chars_are_digits(a.0 as nat);
        lemma_decimal_chars_are_digits(b.0 as nat);
        assert(digits_value(x.map_values(|c: char| c as u8)) == a.0);
    }
}

} // verus!
