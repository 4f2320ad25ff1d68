//! The engine's session directory and the checks that keep it consistent
//! with magneto's own records across restarts.

use vstd::prelude::*;
use crate::config::{join, join_path};
use crate::text::lower_seq;
use vstd::string::StringSliceAdditionalSpecFns;

verus! {

/// The engine's session directory under the data directory.
pub open spec fn spec_session_dir(data_dir: Seq<char>) -> Seq<char> {
    join_path(data_dir, "session"@)
}

pub fn session_dir(data_dir: &str) -> (r: String)
    ensures
        r@ == spec_session_dir(data_dir@),
{
    join(data_dir, "session")
}

/// An ASCII hex digit.
pub open spec fn is_hex_byte(b: u8) -> bool {
    (0x30 <= b && b <= 0x39) || (0x61 <= b && b <= 0x66) || (0x41 <= b && b <= 0x46)
}

/// A session row names a torrent by forty hex digits.
pub open spec fn spec_is_hex_info_hash(bytes: Seq<u8>) -> bool {
    bytes.len() == 40 && forall|i: int| 0 <= i < bytes.len() ==> is_hex_byte(#[trigger] bytes[i])
}

pub fn is_hex_info_hash(info_hash: &str) -> (r: bool)
    ensures
        r == spec_is_hex_info_hash(info_hash.spec_bytes()),
{
    let b = info_hash.as_bytes();
    if b.len() != 40 {
        return false;
    }
    let mut i: usize = 0;
    while i < b.len()
        invariant
            i <= b@.len(),
            b@ == info_hash.spec_bytes(),
            b@.len() == 40,
            forall|k: int| 0 <= k < i ==> is_hex_byte(#[trigger] b@[k]),
        decreases b@.len() - i,
    {
        let c = b[i];
        if !((0x30 <= c && c <= 0x39) || (0x61 <= c && c <= 0x66) || (0x41 <= c && c <= 0x46)) {
            return false;
        }
        i += 1;
    }
    true
}

/// A fastresume bitfield that claims no piece at all: present, non-empty,
/// every byte zero. Trusting it while the files hold data would re-download
/// them, so it is dropped and the engine re-checks instead.
pub open spec fn spec_claims_nothing(bytes: Seq<u8>) -> bool {
    bytes.len() > 0 && forall|i: int| 0 <= i < bytes.len() ==> #[trigger] bytes[i] == 0
}

pub fn claims_nothing(bytes: &[u8]) -> (r: bool)
    ensures
        r == spec_claims_nothing(bytes@),
{
    if bytes.len() == 0 {
        return false;
    }
    let mut i: usize = 0;
    while i < bytes.len()
        invariant
            i <= bytes@.len(),
            forall|k: int| 0 <= k < i ==> #[trigger] bytes@[k] == 0,
        decreases bytes@.len() - i,
    {
        if bytes[i] != 0 {
            return false;
        }
        i += 1;
    }
    true
}

/// How the two copies of a torrent's metainfo are brought in line: the
/// engine's session copy and magneto's own.
#[derive(Debug, Clone, Copy, PartialEq, Eq, Structural)]
pub enum MetainfoSync {
    /// Both copies are usable.
    Keep,
    /// Only the session copy is: restore magneto's copy from it.
    RestoreOwn,
    /// Only magneto's copy is: restore the session copy from it (the row
    /// stays if that restore succeeds).
    RestoreSession,
    /// Neither is: the row goes.
    Drop,
}

pub open spec fn spec_metainfo_sync(session_usable: bool, own_usable: bool) -> MetainfoSync {
    if session_usable && own_usable {
        MetainfoSync::Keep
    } else if session_usable {
        MetainfoSync::RestoreOwn
    } else if own_usable {
        MetainfoSync::RestoreSession
    } else {
        MetainfoSync::Drop
    }
}

pub fn metainfo_sync(session_usable: bool, own_usable: bool) -> (r: MetainfoSync)
    ensures
        r == spec_metainfo_sync(session_usable, own_usable),
{
    match (session_usable, own_usable) {
        (true, true) => MetainfoSync::Keep,
        (true, false) => MetainfoSync::RestoreOwn,
        (false, true) => MetainfoSync::RestoreSession,
        (false, false) => MetainfoSync::Drop,
    }
}

/// A metainfo copy is usable for `info_hash` when it parses and names the
/// same hash, ignoring ASCII case.
pub open spec fn spec_hash_matches(parsed: Seq<char>, info_hash: Seq<char>) -> bool {
    lower_seq(parsed) == lower_seq(info_hash)
}

pub fn hash_matches(parsed: &str, info_hash: &str) -> (r: bool)
    ensures
        r == spec_hash_matches(parsed@, info_hash@),
{
    let a = crate::text::lower_vec(crate::text::chars_of(parsed).as_slice());
    let b = crate::text::lower_vec(crate::text::chars_of(info_hash).as_slice());
    crate::text::eq_chars(a.as_slice(), b.as_slice())
}

} // verus!
