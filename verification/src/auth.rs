//! The authorization gate: a request passes when its device class is
//! recognized and the shared-secret key embedded in its claimed-version
//! string is in the valid key set. The key set is the lines of the API-key
//! file, loaded fresh per check by the caller and handed in as text.

use vstd::prelude::*;

use crate::errors::AuthError;
use crate::headers::{extract_firmware_string, extract_mac_addr_string, Headers};
use crate::text::{lines_of, spec_lines, spec_split, split_on, str_eq, views};

verus! {

/// The key a claimed-version string presents: its second `?`-separated
/// field, or nothing when the string has no `?`.
pub open spec fn spec_key_of(version: Seq<char>) -> Option<Seq<char>> {
    let p = spec_split(version, '?');
    if p.len() >= 2 {
        Some(p[1])
    } else {
        None
    }
}

/// Extracts the presented API key from a claimed-version string.
pub fn presented_key(version: &str) -> (r: Option<String>)
    ensures
        match r {
            Some(k) => spec_key_of(version@) == Some(k@),
            None => spec_key_of(version@) is None,
        },
{
    let parts = split_on(version, '?');
    if parts.len() >= 2 {
        Some(parts[1].clone())
    } else {
        None
    }
}

/// Whether `key` is one of the lines of the API-key file.
pub open spec fn key_valid(keys_file: Seq<char>, key: Seq<char>) -> bool {
    spec_lines(keys_file).contains(key)
}

/// Whether the text `key` is among the lines of `keys_file`.
pub fn key_in_file(keys_file: &str, key: &str) -> (r: bool)
    ensures
        r == key_valid(keys_file@, key@),
{
    let keys = lines_of(keys_file);
    let ghost kv = views(keys@);
    let n = keys.len();
    let mut i: usize = 0;
    while i < n
        invariant
            i <= n,
            n == keys@.len(),
            kv == views(keys@),
            kv == spec_lines(keys_file@),
            forall|j: int| 0 <= j < i ==> kv[j] != key@,
        decreases n - i,
    {
        if str_eq(keys[i].as_str(), key) {
            proof {
                assert(kv[i as int] == key@);
            }
            return true;
        }
        i = i + 1;
    }
    false
}

/// Whether the request presents a key that is in the valid key set: a
/// class-specific version header exists, carries a `?`-separated key, and
/// the key is one of the lines of the API-key file.
pub open spec fn spec_key_check(h: Headers, keys_file: Seq<char>) -> bool {
    match h.spec_version() {
        Some(v) => match spec_key_of(v) {
            Some(k) => key_valid(keys_file, k),
            None => false,
        },
        None => false,
    }
}

/// Validates the API key a request presents against the key file's lines.
pub fn validate_api_key(headers: &Headers, keys_file: &str) -> (r: bool)
    ensures
        r == spec_key_check(*headers, keys_file@),
{
    match extract_firmware_string(headers) {
        Ok(v) => match presented_key(v.as_str()) {
            Some(k) => key_in_file(keys_file, k.as_str()),
            None => false,
        },
        Err(_) => false,
    }
}

/// What authorizing a request yields: the device identity and the full
/// claimed-version string, or the first failure in gate order — device class
/// first, then the key.
pub open spec fn spec_authorize(h: Headers, keys_file: Seq<char>) -> Result<
    (Seq<char>, Seq<char>),
    AuthError,
> {
    match h.spec_mac() {
        None => Err(AuthError::DeviceTypeUnrecognized),
        Some(mac) => match h.spec_version() {
            None => Err(AuthError::DeviceTypeUnrecognized),
            Some(v) => if spec_key_of(v) is Some && key_valid(keys_file, spec_key_of(v).unwrap()) {
                Ok((mac, v))
            } else {
                Err(AuthError::InvalidApiKey)
            },
        },
    }
}

/// The authorization gate: device class recognized, version header present,
/// presented key valid. Returns the device identity and the claimed-version
/// string, which still carries its key suffix; the timestamp decoder ignores
/// that suffix.
pub fn authorize(headers: &Headers, keys_file: &str) -> (r: Result<(String, String), AuthError>)
    ensures
        match r {
            Ok(ok) => spec_authorize(*headers, keys_file@) == Ok::<_, AuthError>((ok.0@, ok.1@)),
            Err(e) => spec_authorize(*headers, keys_file@) == Err::<(Seq<char>, Seq<char>), _>(e),
        },
{
    let mac = match extract_mac_addr_string(headers) {
        Ok(m) => m,
        Err(e) => {
            return Err(e);
        },
    };
    let version = match extract_firmware_string(headers) {
        Ok(v) => v,
        Err(e) => {
            return Err(e);
        },
    };
    match presented_key(version.as_str()) {
        Some(k) => {
            if key_in_file(keys_file, k.as_str()) {
                Ok((mac, version))
            } else {
                Err(AuthError::InvalidApiKey)
            }
        },
        None => Err(AuthError::InvalidApiKey),
    }
}

} // verus!
