//! Volume addressing: the user-facing volume name and the server-side
//! volume identifier.
//!
//! The name `fsshare` denotes the shared root, which the server addresses
//! by one fixed opaque resource identifier.  Any other accepted name
//! begins with `fs` and carries a token as the third `/`-separated
//! component; it is addressed as `fs/<token>`.

use crate::text::concat_chars;
use crate::text::from_chars;
use crate::text::split_char;
use crate::text::split_chars;
use crate::text::str_eq;
use crate::text::to_chars;
use vstd::prelude::*;

verus! {

/// A resolved volume: the shared root, or a named `fs/<token>` volume.
#[derive(Debug, Clone)]
pub enum VolumeID {
    FSShare,
    FS(String),
}

/// Why a volume name was rejected.
#[derive(Debug, Clone)]
pub enum VolumeError {
    /// The name begins with `fs` but has no `fs/<token>` third component.
    MissingToken,
    /// The name belongs to no known volume family; carries the name.
    NoSuchVolume(String),
}

/// The name begins with the `fs` family prefix.
pub open spec fn starts_with_fs(s: Seq<char>) -> bool {
    s.len() >= 2 && s[0] == 'f' && s[1] == 's'
}

/// The third `/`-separated component of the name, when there is one.
pub open spec fn volume_token(s: Seq<char>) -> Option<Seq<char>> {
    let parts = split_char(s, '/');
    if parts.len() > 2 {
        Some(parts[2])
    } else {
        None
    }
}

/// What a successful parse of `name` must return.
pub open spec fn parse_volume_ok(name: Seq<char>, v: VolumeID) -> bool {
    if name == "fsshare"@ {
        v == VolumeID::FSShare
    } else {
        &&& starts_with_fs(name)
        &&& volume_token(name) is Some
        &&& v matches VolumeID::FS(s) && s@ == "fs/"@ + volume_token(name)->Some_0
    }
}

/// What a failed parse of `name` must return.
pub open spec fn parse_volume_err(name: Seq<char>, e: VolumeError) -> bool {
    if name == "fsshare"@ {
        false
    } else if starts_with_fs(name) {
        volume_token(name) is None && e == VolumeError::MissingToken
    } else {
        e matches VolumeError::NoSuchVolume(n) && n@ == name
    }
}

impl VolumeID {
    /// The string the server expects for this volume in listing and
    /// download requests.
    pub open spec fn spec_str(self) -> Seq<char> {
        match self {
            VolumeID::FSShare => "resource_1423533946.487706.3"@,
            VolumeID::FS(s) => s@,
        }
    }

    /// Resolves a user-facing volume name: exactly `fsshare` is the shared
    /// root; a name beginning `fs` must carry a third `/`-separated
    /// component `token` and resolves to `fs/<token>`; anything else is
    /// rejected.
    pub fn from_str(name: &str) -> (r: Result<VolumeID, VolumeError>)
        ensures
            match r {
                Ok(v) => parse_volume_ok(name@, v),
                Err(e) => parse_volume_err(name@, e),
            },
    {
        if str_eq(name, "fsshare") {
            return Ok(VolumeID::FSShare);
        }
        let cs = to_chars(name);
        if cs.len() >= 2 && cs[0] == 'f' && cs[1] == 's' {
            let parts = split_chars(&cs, '/');
            if parts.len() > 2 {
                proof {
                    assert(parts.deep_view()[2] == parts@[2].deep_view());
                    assert(parts@[2].deep_view() =~= parts@[2]@);
                }
                let prefix = to_chars("fs/");
                let full = concat_chars(&prefix, &parts[2]);
                Ok(VolumeID::FS(from_chars(&full)))
            } else {
                proof {
                    assert(parts.deep_view().len() == parts@.len());
                }
                Err(VolumeError::MissingToken)
            }
        } else {
            Err(VolumeError::NoSuchVolume(name.to_owned()))
        }
    }

    /// The server-side string for this volume: the fixed resource
    /// identifier for the shared root, the `fs/<token>` form otherwise.
    pub fn format(&self) -> (r: String)
        ensures
            r@ == self.spec_str(),
    {
        match self {
            VolumeID::FSShare => {
                let s = String::from_str("resource_1423533946.487706.3");
                s
            },
            VolumeID::FS(s) => s.clone(),
        }
    }
}

/// Round trip of volume addressing: whatever name a volume was parsed
/// from, formatting it recovers the token.  A name in the `fs` family
/// formats back to `fs/<token>` with the token the name carried, and any
/// alias of the shared root formats to the one fixed resource identifier.
pub proof fn lemma_volume_round_trip(name: Seq<char>, v: VolumeID)
    requires
        parse_volume_ok(name, v),
    ensures
        name == "fsshare"@ ==> v.spec_str() == "resource_1423533946.487706.3"@,
        name != "fsshare"@ ==> v.spec_str() == "fs/"@ + volume_token(name)->Some_0,
{
}

} // verus!
