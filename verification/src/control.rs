//! Authentication of the control WebSocket.

use vstd::prelude::*;
use vstd::string::StringSliceAdditionalSpecFns;
use vstd::utf8::{encode_utf8, encode_utf8_decode_utf8};

verus! {

/// Length-aware comparison whose running time does not depend on where the
/// first difference lies, so a wrong token cannot be recovered by timing.
/// The token length is fixed and not secret, so the early length check is
/// fine.
pub fn constant_time_eq(a: &[u8], b: &[u8]) -> (eq: bool)
    ensures
        eq == (a@ == b@),
{
    if a.len() != b.len() {
        return false;
    }
    let mut diff: u8 = 0;
    let n = a.len();
    let mut i: usize = 0;
    assert(a@.subrange(0, 0) =~= b@.subrange(0, 0));
    while i < n
        invariant
            n == a@.len(),
            n == b@.len(),
            i <= n,
            (diff == 0) == (a@.subrange(0, i as int) == b@.subrange(0, i as int)),
        decreases n - i,
    {
        let x = a[i];
        let y = b[i];
        let next = diff | (x ^ y);
        assert((next == 0) == (diff == 0 && x == y)) by (bit_vector)
            requires
                next == diff | (x ^ y),
        ;
        assert(a@.subrange(0, i + 1) == a@.subrange(0, i as int).push(x));
        assert(b@.subrange(0, i + 1) == b@.subrange(0, i as int).push(y));
        proof {
            if a@.subrange(0, i as int) == b@.subrange(0, i as int) && x == y {
                assert(a@.subrange(0, i + 1) =~= b@.subrange(0, i + 1));
            }
            if a@.subrange(0, i + 1) == b@.subrange(0, i + 1) {
                assert(a@.subrange(0, i + 1)[i as int] == x);
                assert(a@.subrange(0, i as int) =~= a@.subrange(0, i + 1).drop_last());
                assert(b@.subrange(0, i as int) =~= b@.subrange(0, i + 1).drop_last());
            }
        }
        diff = next;
        i += 1;
    }
    assert(a@.subrange(0, n as int) =~= a@);
    assert(b@.subrange(0, n as int) =~= b@);
    diff == 0
}

/// Whether a connection may upgrade: the `token` query parameter it
/// presented (none counts as empty) must be the daemon's token exactly.
pub fn authorized(provided: Option<&str>, token: &str) -> (ok: bool)
    ensures
        ok == ((match provided {
            Some(p) => p@,
            None => Seq::<char>::empty(),
        }) == token@),
{
    let p: &str = match provided {
        Some(p) => p,
        None => "",
    };
    proof {
        reveal_strlit("");
        assert("".view() =~= Seq::<char>::empty());
        assert(p.spec_bytes() == encode_utf8(p@));
        assert(token.spec_bytes() == encode_utf8(token@));
        encode_utf8_decode_utf8(p@);
        encode_utf8_decode_utf8(token@);
    }
    constant_time_eq(p.as_bytes(), token.as_bytes())
}

} // verus!
