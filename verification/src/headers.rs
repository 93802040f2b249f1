//! The header extractor: pulls device identity, claimed firmware version and
//! diagnostic values out of a request's header set, and classifies the device
//! class from which class-specific header is present.
//!
//! A header set is a list of name/value pairs with lowercase names, as the
//! hosting HTTP layer delivers them; a lookup returns the first pair with the
//! requested name.

use vstd::prelude::*;

use crate::errors::AuthError;
use crate::text::str_eq;

verus! {

/// An immutable set of request headers: name/value pairs, names lowercase.
pub struct Headers {
    pub entries: Vec<(String, String)>,
}

/// The value of the first pair in `s` whose name is `name`.
pub open spec fn lookup_pairs(s: Seq<(String, String)>, name: Seq<char>) -> Option<Seq<char>>
    decreases s.len(),
{
    if s.len() == 0 {
        None
    } else if s[0].0@ == name {
        Some(s[0].1@)
    } else {
        lookup_pairs(s.drop_first(), name)
    }
}

proof fn lemma_lookup_pairs_skip(s: Seq<(String, String)>, name: Seq<char>, i: int)
    requires
        0 <= i <= s.len(),
        forall|j: int| 0 <= j < i ==> s[j].0@ != name,
    ensures
        lookup_pairs(s, name) == lookup_pairs(s.skip(i), name),
    decreases i,
{
    if i > 0 {
        lemma_lookup_pairs_skip(s.drop_first(), name, i - 1);
        assert(s.drop_first().skip(i - 1) =~= s.skip(i));
    } else {
        assert(s.skip(0) =~= s);
    }
}

/// The two supported microcontroller families, identified by which
/// class-specific station-MAC header a request carries.
#[derive(Clone, Copy, PartialEq, Eq, Structural, Debug)]
pub enum DeviceClass {
    Esp8266,
    Esp32,
}

impl Headers {
    /// The value of the first header named `name`, if any.
    pub open spec fn lookup(self, name: Seq<char>) -> Option<Seq<char>> {
        lookup_pairs(self.entries@, name)
    }

    /// Executable lookup by header name.
    pub fn get(&self, name: &str) -> (r: Option<&String>)
        ensures
            match r {
                Some(v) => self.lookup(name@) == Some(v@),
                None => self.lookup(name@) is None,
            },
    {
        let n = self.entries.len();
        let mut i: usize = 0;
        while i < n
            invariant
                i <= n,
                n == self.entries@.len(),
                forall|j: int| 0 <= j < i ==> self.entries@[j].0@ != name@,
            decreases n - i,
        {
            let pair = &self.entries[i];
            if str_eq(pair.0.as_str(), name) {
                proof {
                    lemma_lookup_pairs_skip(self.entries@, name@, i as int);
                    assert(self.entries@.skip(i as int)[0] == self.entries@[i as int]);
                }
                return Some(&pair.1);
            }
            i = i + 1;
        }
        proof {
            lemma_lookup_pairs_skip(self.entries@, name@, n as int);
            assert(self.entries@.skip(n as int) =~= Seq::<(String, String)>::empty());
        }
        None
    }

    /// Device class, from which class-specific station-MAC header is present.
    pub open spec fn spec_device_class(self) -> Option<DeviceClass> {
        if self.lookup("x-esp8266-sta-mac"@) is Some {
            Some(DeviceClass::Esp8266)
        } else if self.lookup("x-esp32-sta-mac"@) is Some {
            Some(DeviceClass::Esp32)
        } else {
            None
        }
    }

    /// The device identity: the MAC value from whichever class-specific
    /// header is present, the ESP8266 one first.
    pub open spec fn spec_mac(self) -> Option<Seq<char>> {
        if self.lookup("x-esp8266-sta-mac"@) is Some {
            self.lookup("x-esp8266-sta-mac"@)
        } else {
            self.lookup("x-esp32-sta-mac"@)
        }
    }

    /// The claimed firmware version string: the value of whichever
    /// class-specific version header is present, the ESP8266 one first. The
    /// value carries an API key suffix after a `?` separator.
    pub open spec fn spec_version(self) -> Option<Seq<char>> {
        if self.lookup("x-esp8266-version"@) is Some {
            self.lookup("x-esp8266-version"@)
        } else {
            self.lookup("x-esp32-version"@)
        }
    }

    /// Executable form of [`Headers::spec_device_class`].
    pub fn device_class(&self) -> (r: Option<DeviceClass>)
        ensures
            r == self.spec_device_class(),
    {
        if self.get("x-esp8266-sta-mac").is_some() {
            Some(DeviceClass::Esp8266)
        } else if self.get("x-esp32-sta-mac").is_some() {
            Some(DeviceClass::Esp32)
        } else {
            None
        }
    }
}

/// Whether the request identifies a recognized device class.
pub fn check_device_is_allowed(headers: &Headers) -> (r: bool)
    ensures
        r == (headers.spec_device_class() is Some),
{
    headers.device_class().is_some()
}

/// Extracts the device identity from the class-specific station-MAC header;
/// with neither class header present the device type is unrecognized.
pub fn extract_mac_addr_string(headers: &Headers) -> (r: Result<String, AuthError>)
    ensures
        match r {
            Ok(mac) => headers.spec_mac() == Some(mac@),
            Err(e) => headers.spec_mac() is None && e == AuthError::DeviceTypeUnrecognized,
        },
{
    match headers.get("x-esp8266-sta-mac") {
        Some(v) => Ok(v.clone()),
        None => match headers.get("x-esp32-sta-mac") {
            Some(v) => Ok(v.clone()),
            None => Err(AuthError::DeviceTypeUnrecognized),
        },
    }
}

/// Extracts the claimed firmware version string from the class-specific
/// version header; with neither present the device type is unrecognized.
pub fn extract_firmware_string(headers: &Headers) -> (r: Result<String, AuthError>)
    ensures
        match r {
            Ok(v) => headers.spec_version() == Some(v@),
            Err(e) => headers.spec_version() is None && e == AuthError::DeviceTypeUnrecognized,
        },
{
    match headers.get("x-esp8266-version") {
        Some(v) => Ok(v.clone()),
        None => match headers.get("x-esp32-version") {
            Some(v) => Ok(v.clone()),
            None => Err(AuthError::DeviceTypeUnrecognized),
        },
    }
}

/// Whether the client declared an encrypted transport in
/// `x-forwarded-proto`. Absence of the header counts as unencrypted, the
/// worst case; the answer only drives a warning, never control flow.
pub fn client_using_https(headers: &Headers) -> (r: bool)
    ensures
        r == (headers.lookup("x-forwarded-proto"@) == Some("https"@)),
{
    match headers.get("x-forwarded-proto") {
        Some(v) => str_eq(v.as_str(), "https"),
        None => false,
    }
}

} // verus!
