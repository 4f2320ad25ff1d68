//! The DLNA media library: the shared torrents as a tree of containers and
//! items with stable numeric ids, browsed by TVs on the LAN.

use vstd::prelude::*;
use vstd::utf8::{encode_utf8, is_char_boundary};
use vstd::string::StringSliceAdditionalSpecFns;
use crate::text::has_prefix;
use crate::paths::{Order, chars_order, order_chars};

verus! {

/// The id of the library's root container.
pub const ROOT_ID: u64 = 0;

/// Container ids keep to 31 bits.
pub const ID_MASK_31: u64 = 0x7FFF_FFFF;

/// The value of one ASCII hex digit.
pub open spec fn hex_digit_value(b: u8) -> Option<nat> {
    if 0x30 <= b && b <= 0x39 {
        Some((b - 0x30) as nat)
    } else if 0x61 <= b && b <= 0x66 {
        Some((b - 0x61 + 10) as nat)
    } else if 0x41 <= b && b <= 0x46 {
        Some((b - 0x41 + 10) as nat)
    } else {
        None
    }
}

/// The value of a run of hex digits, most significant first.
pub open spec fn hex_value(bs: Seq<u8>) -> Option<nat>
    decreases bs.len(),
{
    if bs.len() == 0 {
        Some(0)
    } else {
        match (hex_value(bs.drop_last()), hex_digit_value(bs.last())) {
            (Some(v), Some(d)) => Some(v * 16 + d),
            _ => None,
        }
    }
}

/// `u32::from_str_radix(s, 16)` on the bytes of `s`: an optional `+`, then
/// at least one hex digit, within `u32`.
pub open spec fn parse_hex_u32(bs: Seq<u8>) -> Option<u32> {
    let digits = if bs.len() > 0 && bs[0] == 0x2b {
        bs.drop_first()
    } else {
        bs
    };
    if digits.len() == 0 {
        None
    } else {
        match hex_value(digits) {
            Some(v) => if v <= u32::MAX {
                Some(v as u32)
            } else {
                None
            },
            None => None,
        }
    }
}

/// The number an info hash's first eight bytes spell in hex (0 when they
/// do not).
pub open spec fn spec_torrent_part(h: Seq<char>) -> u32 {
    let bs = encode_utf8(h);
    if bs.len() >= 8 && is_char_boundary(bs, 8) {
        match parse_hex_u32(bs.subrange(0, 8)) {
            Some(v) => v,
            None => 0,
        }
    } else {
        0
    }
}

proof fn lemma_hex_value_bound(bs: Seq<u8>)
    ensures
        hex_value(bs) matches Some(v) ==> v < pow16(bs.len()),
    decreases bs.len(),
{
    if bs.len() > 0 {
        lemma_hex_value_bound(bs.drop_last());
        if let Some(v) = hex_value(bs) {
            let w = hex_value(bs.drop_last()).unwrap();
            let d = hex_digit_value(bs.last()).unwrap();
            assert(w * 16 + d < pow16(bs.len())) by (nonlinear_arith)
                requires
                    w < pow16((bs.len() - 1) as nat),
                    d < 16,
                    pow16(bs.len()) == 16 * pow16((bs.len() - 1) as nat),
            ;
        }
    }
}

/// 16 to the power `n`.
pub open spec fn pow16(n: nat) -> nat
    decreases n,
{
    if n == 0 {
        1
    } else {
        16 * pow16((n - 1) as nat)
    }
}

/// Parse a run of at most eight bytes as `from_str_radix(.., 16)` does.
fn parse_hex_bytes(bs: &[u8]) -> (r: Option<u32>)
    requires
        bs@.len() <= 8,
    ensures
        r == parse_hex_u32(bs@),
{
    let mut start: usize = 0;
    if bs.len() > 0 && bs[0] == 0x2b {
        start = 1;
    }
    let ghost digits = if bs@.len() > 0 && bs@[0] == 0x2b {
        bs@.drop_first()
    } else {
        bs@
    };
    assert(digits =~= bs@.subrange(start as int, bs@.len() as int));
    if start == bs.len() {
        return None;
    }
    let mut v: u64 = 0;
    let mut i: usize = start;
    while i < bs.len()
        invariant
            start <= i <= bs@.len(),
            bs@.len() <= 8,
            digits == bs@.subrange(start as int, bs@.len() as int),
            digits == (if bs@.len() > 0 && bs@[0] == 0x2b {
                bs@.drop_first()
            } else {
                bs@
            }),
            start < bs@.len(),
            hex_value(bs@.subrange(start as int, i as int)) == Some(v as nat),
            v < pow16((i - start) as nat),
        decreases bs@.len() - i,
    {
        let b = bs[i];
        let d: u64 = if 0x30 <= b && b <= 0x39 {
            (b - 0x30) as u64
        } else if 0x61 <= b && b <= 0x66 {
            (b - 0x61 + 10) as u64
        } else if 0x41 <= b && b <= 0x46 {
            (b - 0x41 + 10) as u64
        } else {
            proof {
                assert(bs@.subrange(start as int, i + 1).drop_last() =~= bs@.subrange(start as int, i as int));
                assert(bs@.subrange(start as int, i + 1).last() == b);
                assert(hex_value(bs@.subrange(start as int, i + 1)) is None);
                assert(bs@.subrange(start as int, i + 1) =~= bs@.subrange(start as int, bs@.len() as int).subrange(
                    0,
                    (i + 1 - start) as int,
                ));
                lemma_hex_none_extends(bs@.subrange(start as int, i + 1), bs@.subrange(start as int, bs@.len() as int));
            }
            return None;
        };
        proof {
            lemma_pow16_8();
            lemma_pow16_mono((i - start) as nat, 8);
            assert(bs@.subrange(start as int, i + 1).drop_last() =~= bs@.subrange(start as int, i as int));
            assert(pow16((i + 1 - start) as nat) == 16 * pow16((i - start) as nat));
            assert(v * 16 + d < pow16((i + 1 - start) as nat)) by (nonlinear_arith)
                requires
                    v < pow16((i - start) as nat),
                    d < 16,
                    pow16((i + 1 - start) as nat) == 16 * pow16((i - start) as nat),
            ;
        }
        v = v * 16 + d;
        i += 1;
    }
    assert(bs@.subrange(start as int, bs@.len() as int) == digits);
    proof {
        lemma_pow16_mono((bs@.len() - start) as nat, 8);
        lemma_pow16_8();
    }
    Some(v as u32)
}

proof fn lemma_pow16_8()
    ensures
        pow16(8) == 0x1_0000_0000,
{
    reveal_with_fuel(pow16, 9);
}

proof fn lemma_pow16_mono(a: nat, b: nat)
    requires
        a <= b,
    ensures
        pow16(a) <= pow16(b),
    decreases b,
{
    if a < b {
        lemma_pow16_mono(a, (b - 1) as nat);
    }
}

/// A prefix that is not all hex digits makes the whole run fail.
proof fn lemma_hex_none_extends(prefix: Seq<u8>, all: Seq<u8>)
    requires
        prefix.len() <= all.len(),
        prefix == all.subrange(0, prefix.len() as int),
        hex_value(prefix) is None,
    ensures
        hex_value(all) is None,
    decreases all.len(),
{
    if all.len() > prefix.len() {
        assert(all.drop_last().subrange(0, prefix.len() as int) =~= prefix);
        lemma_hex_none_extends(prefix, all.drop_last());
    } else {
        assert(all =~= prefix);
    }
}

/// The hex number at the head of an info hash, from which node ids derive.
pub fn torrent_part(info_hash: &str) -> (r: u32)
    ensures
        r == spec_torrent_part(info_hash@),
{
    proof {
        assert(info_hash.spec_bytes() == encode_utf8(info_hash@));
    }
    let all = info_hash.as_bytes();
    if all.len() >= 8 && info_hash.is_char_boundary(8) {
        let (head, _) = info_hash.split_at(8);
        let bytes = head.as_bytes();
        match parse_hex_bytes(bytes) {
            Some(v) => v,
            None => 0,
        }
    } else {
        0
    }
}

/// The id of a torrent's container.
pub open spec fn spec_torrent_node_id(h: Seq<char>) -> u64 {
    (spec_torrent_part(h) as u64) & ID_MASK_31
}

pub fn torrent_node_id(info_hash: &str) -> (r: u64)
    ensures
        r == spec_torrent_node_id(info_hash@),
{
    (torrent_part(info_hash) as u64) & ID_MASK_31
}

/// 32-bit FNV-1a of `bytes`.
pub open spec fn spec_fnv1a_32(bytes: Seq<u8>) -> u32
    decreases bytes.len(),
{
    if bytes.len() == 0 {
        0x811c9dc5
    } else {
        let h = spec_fnv1a_32(bytes.drop_last()) ^ (bytes.last() as u32);
        ((h as nat * 0x01000193) % 0x1_0000_0000) as u32
    }
}

pub fn fnv1a_32(bytes: &[u8]) -> (r: u32)
    ensures
        r == spec_fnv1a_32(bytes@),
{
    let mut h: u32 = 0x811c9dc5;
    let mut i: usize = 0;
    while i < bytes.len()
        invariant
            i <= bytes@.len(),
            h == spec_fnv1a_32(bytes@.subrange(0, i as int)),
        decreases bytes@.len() - i,
    {
        proof {
            assert(bytes@.subrange(0, i + 1).drop_last() =~= bytes@.subrange(0, i as int));
        }
        h ^= bytes[i] as u32;
        h = h.wrapping_mul(0x01000193);
        i += 1;
    }
    assert(bytes@.subrange(0, bytes@.len() as int) =~= bytes@);
    h
}

/// The id of a folder's container: its torrent's number mixed with the hash
/// of the folder's path.
pub open spec fn spec_folder_node_id(h: Seq<char>, folder: Seq<char>) -> u64 {
    ((spec_torrent_part(h) ^ spec_fnv1a_32(encode_utf8(folder))) as u64) & ID_MASK_31
}

pub fn folder_node_id(info_hash: &str, folder_path: &str) -> (r: u64)
    ensures
        r == spec_folder_node_id(info_hash@, folder_path@),
{
    let t = torrent_part(info_hash);
    let f = fnv1a_32(folder_path.as_bytes());
    ((t ^ f) as u64) & ID_MASK_31
}

/// The id of a file's item: its torrent's number above the file index.
pub open spec fn spec_file_node_id(h: Seq<char>, file_index: u32) -> u64 {
    ((spec_torrent_part(h) as u64) * 0x1_0000_0000 + file_index as u64) as u64
}

pub fn file_node_id(info_hash: &str, file_index: u32) -> (r: u64)
    ensures
        r == spec_file_node_id(info_hash@, file_index),
{
    let t = torrent_part(info_hash) as u64;
    let r = (t << 32u64) | (file_index as u64);
    proof {
        let i = file_index as u64;
        assert((t << 32u64) | i == t * 0x1_0000_0000 + i) by (bit_vector)
            requires
                t < 0x1_0000_0000,
                i < 0x1_0000_0000,
        ;
    }
    r
}

/// Whether `s` is a decimal `u16` as `str::parse::<u16>` reads it: an
/// optional `+`, then at least one digit.
pub open spec fn parses_as_u16(s: Seq<char>) -> bool {
    match crate::range::parse_u64(s) {
        Some(v) => v <= u16::MAX,
        None => false,
    }
}

/// A host already naming its port: not a bracketed IPv6 literal, and
/// ending in `:` and a port number.
pub open spec fn spec_host_has_port(host: Seq<char>) -> bool {
    !has_prefix(host, "["@) && match crate::text::last_index(host, ':') {
        Some(i) => parses_as_u16(host.subrange(i + 1, host.len() as int)),
        None => false,
    }
}

pub fn host_has_port(hostname: &str) -> (r: bool)
    ensures
        r == spec_host_has_port(hostname@),
{
    let v = crate::text::chars_of(hostname);
    proof {
        reveal_strlit("[");
    }
    if v.len() > 0 && v[0] == '[' {
        assert(v@.subrange(0, 1) =~= "["@);
        return false;
    }
    assert(!has_prefix(v@, "["@)) by {
        if has_prefix(v@, "["@) {
            assert(v@.subrange(0, 1)[0] == '[');
        }
    }
    proof {
        crate::text::lemma_last_index(v@, ':');
    }
    match crate::text::find_last(v.as_slice(), ':') {
        Some(i) => {
            let tail = crate::text::slice_vec(v.as_slice(), i + 1, v.len());
            match crate::range::parse_u64_chars(tail.as_slice()) {
                Some(p) => p <= 65535,
                None => false,
            }
        },
        None => false,
    }
}

/// A byte `urlencoding` passes through: ASCII alphanumerics and `-._~`.
pub open spec fn unreserved(b: u8) -> bool {
    (0x30 <= b && b <= 0x39) || (0x41 <= b && b <= 0x5a) || (0x61 <= b && b <= 0x7a) || b == 0x2d
        || b == 0x2e || b == 0x5f || b == 0x7e
}

/// An uppercase hex digit.
pub open spec fn hex_upper(d: u8) -> char {
    if d < 10 {
        ((0x30 + d) as u32) as char
    } else {
        ((0x41 - 10 + d) as u32) as char
    }
}

/// Percent-encoding of `bytes`: unreserved bytes as themselves, every
/// other byte as `%` and two uppercase hex digits.
pub open spec fn percent_encoded(bytes: Seq<u8>) -> Seq<char>
    decreases bytes.len(),
{
    if bytes.len() == 0 {
        Seq::empty()
    } else {
        let b = bytes.last();
        percent_encoded(bytes.drop_last()) + if unreserved(b) {
            seq![(b as u32) as char]
        } else {
            seq!['%', hex_upper(b / 16), hex_upper(b % 16)]
        }
    }
}

/// `urlencoding::encode`: the UTF-8 bytes of `s`, percent-encoded.
#[verifier::external_body]
pub(crate) fn url_encode(s: &str) -> (r: String)
    ensures
        r@ == percent_encoded(encode_utf8(s@)),
{
    urlencoding::encode(s).into_owned()
}

/// The lowercase mapping `char::to_lowercase` yields for `c`.
pub uninterp spec fn char_lowercase(c: char) -> Seq<char>;

/// `char::to_lowercase`, collected.
#[verifier::external_body]
fn lowercase_of(c: char) -> (r: Vec<char>)
    ensures
        r@ == char_lowercase(c),
{
    c.to_lowercase().collect()
}

/// What `mime_guess::from_path(name).first()` guesses from a file name:
/// the media type's top-level name and its full text.
pub uninterp spec fn mime_guess_first(name: Seq<char>) -> Option<(Seq<char>, Seq<char>)>;

/// `mime_guess::from_path(name).first()`, as its type name and its text.
#[verifier::external_body]
fn guess_mime(name: &str) -> (r: Option<(String, String)>)
    ensures
        mime_guess_first(name@) == match r {
            Some(p) => Some((p.0@, p.1@)),
            None => None::<(Seq<char>, Seq<char>)>,
        },
{
    mime_guess::from_path(name).first().map(|m| (m.type_().as_str().to_owned(), m.to_string()))
}

/// The text of the media type `Mime::from_str` parses from `s`, if it does.
pub uninterp spec fn mime_parsed(s: Seq<char>) -> Option<Seq<char>>;

/// `mime_guess::Mime::from_str`, as the parsed type's text.
#[verifier::external_body]
fn parse_mime(s: &str) -> (r: Option<String>)
    ensures
        mime_parsed(s@) == match r {
            Some(m) => Some(m@),
            None => None::<Seq<char>>,
        },
{
    <mime_guess::Mime as std::str::FromStr>::from_str(s).ok().map(|m| m.to_string())
}

/// The media type a DLNA item announces for a file: the curated video
/// type, else a guessed video type, else `video/x-unknown`.
pub open spec fn spec_item_mime_type(name: Seq<char>) -> Option<Seq<char>> {
    let curated = crate::media::spec_mime_for(name);
    if has_prefix(curated, "video/"@) && mime_parsed(curated) is Some {
        mime_parsed(curated)
    } else {
        match mime_guess_first(name) {
            Some((t, m)) => if crate::text::lower_seq(t) == "video"@ {
                Some(m)
            } else {
                mime_parsed("video/x-unknown"@)
            },
            None => mime_parsed("video/x-unknown"@),
        }
    }
}

pub fn item_mime_type(filename: &str) -> (r: Option<String>)
    ensures
        spec_item_mime_type(filename@) == match r {
            Some(m) => Some(m@),
            None => None::<Seq<char>>,
        },
{
    let curated = crate::media::mime_for(filename);
    let cv = crate::text::chars_of(curated);
    if crate::text::starts_with_str(cv.as_slice(), "video/") {
        if let Some(m) = parse_mime(curated) {
            return Some(m);
        }
    }
    if let Some((t, m)) = guess_mime(filename) {
        let lt = crate::text::lower_vec(crate::text::chars_of(t.as_str()).as_slice());
        if crate::text::eq_str(lt.as_slice(), "video") {
            return Some(m);
        }
    }
    parse_mime("video/x-unknown")
}

/// The decimal digit for `d < 10`.
pub open spec fn digit_char(d: nat) -> char {
    if d == 0 {
        '0'
    } else if d == 1 {
        '1'
    } else if d == 2 {
        '2'
    } else if d == 3 {
        '3'
    } else if d == 4 {
        '4'
    } else if d == 5 {
        '5'
    } else if d == 6 {
        '6'
    } else if d == 7 {
        '7'
    } else if d == 8 {
        '8'
    } else {
        '9'
    }
}

/// The decimal digits of `n`, as `format!("{n}")` writes them.
pub open spec fn decimal(n: nat) -> Seq<char>
    decreases n,
{
    if n < 10 {
        seq![digit_char(n)]
    } else {
        decimal(n / 10).push(digit_char(n % 10))
    }
}

fn digit_of(d: u64) -> (c: char)
    requires
        d < 10,
    ensures
        c == digit_char(d as nat),
{
    if d == 0 {
        '0'
    } else if d == 1 {
        '1'
    } else if d == 2 {
        '2'
    } else if d == 3 {
        '3'
    } else if d == 4 {
        '4'
    } else if d == 5 {
        '5'
    } else if d == 6 {
        '6'
    } else if d == 7 {
        '7'
    } else if d == 8 {
        '8'
    } else {
        '9'
    }
}

/// Append the decimal digits of `n` to `out`.
pub fn push_decimal(out: &mut Vec<char>, n: u64)
    ensures
        final(out)@ == old(out)@ + decimal(n as nat),
    decreases n,
{
    if n >= 10 {
        push_decimal(out, n / 10);
    }
    out.push(digit_of(n % 10));
    proof {
        if n >= 10 {
            assert(final(out)@ =~= old(out)@ + decimal(n as nat));
        } else {
            assert(final(out)@ =~= old(out)@ + decimal(n as nat));
        }
    }
}

/// Append the characters of `s` to `out`.
pub fn push_str_chars(out: &mut Vec<char>, s: &str)
    ensures
        final(out)@ == old(out)@ + s@,
{
    let v = crate::text::chars_of(s);
    let ghost start = out@;
    let mut i: usize = 0;
    while i < v.len()
        invariant
            i <= v@.len(),
            v@ == s@,
            out@ == start + v@.subrange(0, i as int),
        decreases v@.len() - i,
    {
        out.push(v[i]);
        i += 1;
        assert(out@ =~= start + v@.subrange(0, i as int));
    }
    assert(v@.subrange(0, v@.len() as int) =~= v@);
}

/// One shared file of a torrent: its index, its path as the engine lists
/// its components, and its length.
#[derive(Debug, Clone)]
pub struct SharedFile {
    pub index: u32,
    pub path: Vec<String>,
    pub size: u64,
}

/// A torrent the library lists: shared, loaded, with at least one shared
/// file. `single_file` says the torrent holds one file in all.
#[derive(Debug, Clone)]
pub struct SharedTorrent {
    pub info_hash: String,
    pub title: String,
    pub single_file: bool,
    pub files: Vec<SharedFile>,
}

/// One entry of the library: a container (the root's children, a torrent,
/// a folder) or a playable item.
#[derive(Debug, Clone, PartialEq)]
pub enum TreeNode {
    Container { id: u64, parent_id: Option<u64>, title: String, children_count: Option<usize> },
    Item { id: u64, parent_id: u64, title: String, mime_type: Option<String>, url: String, size: u64 },
}

/// A library entry as plain values.
pub struct NodeV {
    pub container: bool,
    pub id: u64,
    pub parent: Option<u64>,
    pub title: Seq<char>,
    pub count: Option<usize>,
    pub mime: Option<Seq<char>>,
    pub url: Seq<char>,
    pub size: u64,
}

pub open spec fn opt_chars(o: Option<String>) -> Option<Seq<char>> {
    match o {
        Some(s) => Some(s@),
        None => None,
    }
}

impl TreeNode {
    pub open spec fn view(self) -> NodeV {
        match self {
            TreeNode::Container { id, parent_id, title, children_count } => NodeV {
                container: true,
                id,
                parent: parent_id,
                title: title@,
                count: children_count,
                mime: None,
                url: Seq::empty(),
                size: 0,
            },
            TreeNode::Item { id, parent_id, title, mime_type, url, size } => NodeV {
                container: false,
                id,
                parent: Some(parent_id),
                title: title@,
                count: None,
                mime: opt_chars(mime_type),
                url: url@,
                size,
            },
        }
    }
}

/// The views of a list of entries.
pub open spec fn nodes_view(v: Seq<TreeNode>) -> Seq<NodeV> {
    v.map_values(|n: TreeNode| n.view())
}

/// A path's components as character sequences.
pub open spec fn segs(path: Seq<String>) -> Seq<Seq<char>> {
    path.map_values(|c: String| c@)
}

/// Components joined with `/`, as the path's text.
pub open spec fn segs_str(p: Seq<Seq<char>>) -> Seq<char>
    decreases p.len(),
{
    if p.len() == 0 {
        Seq::empty()
    } else if p.len() == 1 {
        p[0]
    } else {
        segs_str(p.drop_last()) + seq!['/'] + p.last()
    }
}

/// A path order on component lists: component by component, a prefix first.
pub open spec fn segs_order(a: Seq<Seq<char>>, b: Seq<Seq<char>>) -> Order
    decreases a.len(),
{
    if a.len() == 0 {
        if b.len() == 0 {
            Order::Equal
        } else {
            Order::Less
        }
    } else if b.len() == 0 {
        Order::Greater
    } else {
        match chars_order(a[0], b[0]) {
            Order::Equal => segs_order(a.drop_first(), b.drop_first()),
            o => o,
        }
    }
}

/// The Unicode lowercase of every character of `s`.
pub open spec fn lower_all(s: Seq<char>) -> Seq<char>
    decreases s.len(),
{
    if s.len() == 0 {
        Seq::empty()
    } else {
        lower_all(s.drop_last()) + char_lowercase(s.last())
    }
}

/// Names collate case-insensitively, ties broken by the names themselves.
pub open spec fn title_order(a: Seq<char>, b: Seq<char>) -> Order {
    match chars_order(lower_all(a), lower_all(b)) {
        Order::Equal => chars_order(a, b),
        o => o,
    }
}

/// The first position from `k` on whose index sorts after, per `after_i`.
pub open spec fn first_after(s: Seq<int>, after_i: spec_fn(int) -> bool, k: int) -> int
    decreases s.len() - k,
{
    if k >= s.len() || k < 0 {
        s.len() as int
    } else if after_i(s[k]) {
        k
    } else {
        first_after(s, after_i, k + 1)
    }
}

/// The indices `0..n` in stable sorted order, where `after(a, b)` says that
/// `a` sorts strictly after `b`: each index goes in after every earlier one
/// that does not sort after it.
pub open spec fn stable_sorted(n: nat, after: spec_fn(int, int) -> bool) -> Seq<int>
    decreases n,
{
    if n == 0 {
        Seq::empty()
    } else {
        let s = stable_sorted((n - 1) as nat, after);
        let i = n - 1;
        s.insert(first_after(s, |j: int| after(j, i), 0), i)
    }
}

/// Sorting by name.
pub open spec fn after_title(names: Seq<Seq<char>>) -> spec_fn(int, int) -> bool {
    |a: int, b: int| title_order(names[a], names[b]) == Order::Greater
}

/// Sorting folders: by name, then by path.
pub open spec fn after_folder(folders: Seq<Seq<Seq<char>>>) -> spec_fn(int, int) -> bool {
    |a: int, b: int|
        match title_order(folders[a].last(), folders[b].last()) {
            Order::Greater => true,
            Order::Equal => segs_order(folders[a], folders[b]) == Order::Greater,
            Order::Less => false,
        }
}

/// Ids of an exec index list.
pub open spec fn ints(v: Seq<usize>) -> Seq<int> {
    v.map_values(|x: usize| x as int)
}

/// Lowercase every character of `v`.
fn lower_all_vec(v: &[char]) -> (r: Vec<char>)
    ensures
        r@ == lower_all(v@),
{
    let mut r: Vec<char> = Vec::new();
    let mut i: usize = 0;
    while i < v.len()
        invariant
            i <= v@.len(),
            r@ == lower_all(v@.subrange(0, i as int)),
        decreases v@.len() - i,
    {
        let l = lowercase_of(v[i]);
        let ghost before = r@;
        let mut k: usize = 0;
        while k < l.len()
            invariant
                k <= l@.len(),
                r@ == before + l@.subrange(0, k as int),
            decreases l@.len() - k,
        {
            r.push(l[k]);
            k += 1;
            assert(r@ =~= before + l@.subrange(0, k as int));
        }
        assert(l@.subrange(0, l@.len() as int) =~= l@);
        assert(v@.subrange(0, i + 1).drop_last() =~= v@.subrange(0, i as int));
        i += 1;
    }
    assert(v@.subrange(0, v@.len() as int) =~= v@);
    r
}

/// `title_order` of two names, given their lowercase forms.
fn order_titles(la: &[char], a: &[char], lb: &[char], b: &[char]) -> (r: Order)
    requires
        la@ == lower_all(a@),
        lb@ == lower_all(b@),
    ensures
        r == title_order(a@, b@),
{
    match order_chars(la, lb) {
        Order::Equal => order_chars(a, b),
        o => o,
    }
}

/// The stable order of `names` by title.
fn sort_by_title(lowers: &Vec<Vec<char>>, names: &Vec<Vec<char>>) -> (r: Vec<usize>)
    requires
        lowers@.len() == names@.len(),
        forall|i: int| 0 <= i < names@.len() ==> #[trigger] lowers@[i]@ == lower_all(names@[i]@),
    ensures
        ints(r@) == stable_sorted(names@.len() as nat, after_title(names@.map_values(|v: Vec<char>| v@))),
        forall|k: int| 0 <= k < r@.len() ==> r@[k] < names@.len(),
{
    let ghost nv = names@.map_values(|v: Vec<char>| v@);
    let ghost after = after_title(nv);
    let mut ord: Vec<usize> = Vec::new();
    let mut i: usize = 0;
    while i < names.len()
        invariant
            i <= names@.len(),
            lowers@.len() == names@.len(),
            forall|j: int| 0 <= j < names@.len() ==> #[trigger] lowers@[j]@ == lower_all(names@[j]@),
            nv == names@.map_values(|v: Vec<char>| v@),
            after == after_title(nv),
            ints(ord@) == stable_sorted(i as nat, after),
            forall|k: int| 0 <= k < ord@.len() ==> ord@[k] < i,
        decreases names@.len() - i,
    {
        let ghost s = ints(ord@);
        let ghost after_i = |j: int| after(j, i as int);
        let mut p: usize = 0;
        loop
            invariant
                p <= ord@.len(),
                i < names@.len(),
                lowers@.len() == names@.len(),
                forall|j: int| 0 <= j < names@.len() ==> #[trigger] lowers@[j]@ == lower_all(names@[j]@),
                nv == names@.map_values(|v: Vec<char>| v@),
                after == after_title(nv),
                s == ints(ord@),
                after_i == (|j: int| after(j, i as int)),
                forall|k: int| 0 <= k < ord@.len() ==> ord@[k] < i,
                first_after(s, after_i, 0) == first_after(s, after_i, p as int),
            ensures
                p <= ord@.len(),
                first_after(s, after_i, 0) == p,
            decreases ord@.len() - p,
        {
            if p == ord.len() {
                break;
            }
            let j = ord[p];
            let o = order_titles(lowers[j].as_slice(), names[j].as_slice(), lowers[i].as_slice(), names[i].as_slice());
            proof {
                assert(s[p as int] == j as int);
                assert(nv[j as int] == names@[j as int]@);
                assert(nv[i as int] == names@[i as int]@);
            }
            if let Order::Greater = o {
                break;
            }
            p += 1;
        }
        ord.insert(p, i);
        proof {
            assert(ints(ord@) =~= s.insert(p as int, i as int));
        }
        i += 1;
    }
    ord
}

/// The folders a path lies in, deepest first: its proper non-empty
/// prefixes.
pub open spec fn ancestors(p: Seq<Seq<char>>) -> Seq<Seq<Seq<char>>> {
    if p.len() <= 1 {
        Seq::empty()
    } else {
        Seq::new((p.len() - 1) as nat, |k: int| p.subrange(0, p.len() - 1 - k))
    }
}

/// `l` with `x` appended unless already listed.
pub open spec fn add_new(l: Seq<Seq<Seq<char>>>, x: Seq<Seq<char>>) -> Seq<Seq<Seq<char>>> {
    if l.contains(x) {
        l
    } else {
        l.push(x)
    }
}

/// `l` with each of `xs` appended unless already listed.
pub open spec fn add_all(l: Seq<Seq<Seq<char>>>, xs: Seq<Seq<Seq<char>>>) -> Seq<Seq<Seq<char>>>
    decreases xs.len(),
{
    if xs.len() == 0 {
        l
    } else {
        add_new(add_all(l, xs.drop_last()), xs.last())
    }
}

/// Every folder the files lie in, once each, in the order first met.
pub open spec fn folder_list(paths: Seq<Seq<Seq<char>>>) -> Seq<Seq<Seq<char>>>
    decreases paths.len(),
{
    if paths.len() == 0 {
        Seq::empty()
    } else {
        add_all(folder_list(paths.drop_last()), ancestors(paths.last()))
    }
}

/// The component lists of the files of a torrent.
pub open spec fn file_segs(files: Seq<SharedFile>) -> Seq<Seq<Seq<char>>> {
    files.map_values(|f: SharedFile| segs(f.path@))
}

/// The component lists of exec folders.
pub open spec fn folder_segs(v: Seq<Vec<String>>) -> Seq<Seq<Seq<char>>> {
    v.map_values(|f: Vec<String>| segs(f@))
}

/// Whether two component lists are equal.
fn same_segs(a: &[String], b: &[String]) -> (r: bool)
    ensures
        r == (segs(a@) == segs(b@)),
{
    if a.len() != b.len() {
        proof {
            assert(segs(a@).len() != segs(b@).len());
        }
        return false;
    }
    let mut i: usize = 0;
    while i < a.len()
        invariant
            a@.len() == b@.len(),
            i <= a@.len(),
            forall|k: int| 0 <= k < i ==> a@[k]@ == b@[k]@,
        decreases a@.len() - i,
    {
        if a[i] != b[i] {
            proof {
                assert(segs(a@)[i as int] != segs(b@)[i as int]);
            }
            return false;
        }
        i += 1;
    }
    assert(segs(a@) =~= segs(b@));
    true
}

/// The first `n` components of `p`, copied.
fn prefix_of(p: &[String], n: usize) -> (r: Vec<String>)
    requires
        n <= p@.len(),
    ensures
        segs(r@) == segs(p@).subrange(0, n as int),
{
    let mut r: Vec<String> = Vec::new();
    let mut i: usize = 0;
    while i < n
        invariant
            i <= n <= p@.len(),
            r@.len() == i,
            segs(r@) == segs(p@).subrange(0, i as int),
        decreases n - i,
    {
        let c = p[i].clone();
        let ghost before = r@;
        r.push(c);
        proof {
            assert(c@ == p@[i as int]@);
            assert(r@ == before.push(c));
        }
        i += 1;
        proof {
            assert forall|k: int| 0 <= k < i implies #[trigger] segs(r@)[k] == segs(p@).subrange(0, i as int)[k] by {
                if k < i - 1 {
                    assert(r@[k] == before[k]);
                    assert(segs(before)[k] == segs(p@).subrange(0, i - 1)[k]);
                }
            }
        }
        assert(segs(r@) =~= segs(p@).subrange(0, i as int));
    }
    r
}

/// Append `x` to `out` unless already listed.
fn push_new_folder(out: &mut Vec<Vec<String>>, x: Vec<String>)
    ensures
        folder_segs(final(out)@) == add_new(folder_segs(old(out)@), segs(x@)),
{
    let mut i: usize = 0;
    while i < out.len()
        invariant
            i <= out@.len(),
            forall|k: int| 0 <= k < i ==> segs(out@[k]@) != segs(x@),
        decreases out@.len() - i,
    {
        if same_segs(out[i].as_slice(), x.as_slice()) {
            proof {
                assert(folder_segs(out@)[i as int] == segs(x@));
                assert(folder_segs(out@).contains(segs(x@)));
            }
            return;
        }
        i += 1;
    }
    proof {
        assert(!folder_segs(out@).contains(segs(x@))) by {
            if folder_segs(out@).contains(segs(x@)) {
                let k = choose|k: int| 0 <= k < folder_segs(out@).len() && folder_segs(out@)[k] == segs(x@);
                assert(segs(out@[k]@) == segs(x@));
            }
        }
    }
    let ghost before = out@;
    out.push(x);
    assert(folder_segs(out@) =~= folder_segs(before).push(segs(x@)));
}

/// Every folder the files lie in, once each.
fn collect_folders(files: &[SharedFile]) -> (r: Vec<Vec<String>>)
    ensures
        folder_segs(r@) == folder_list(file_segs(files@)),
{
    let mut out: Vec<Vec<String>> = Vec::new();
    let mut i: usize = 0;
    while i < files.len()
        invariant
            i <= files@.len(),
            folder_segs(out@) == folder_list(file_segs(files@.subrange(0, i as int))),
        decreases files@.len() - i,
    {
        let path = files[i].path.as_slice();
        let ghost anc = ancestors(segs(path@));
        let ghost base = folder_segs(out@);
        let n = path.len();
        if n >= 2 {
            let mut k: usize = 0;
            while k < n - 1
                invariant
                    n == path@.len(),
                    n >= 2,
                    k <= n - 1,
                    anc == ancestors(segs(path@)),
                    folder_segs(out@) == add_all(base, anc.subrange(0, k as int)),
                decreases n - 1 - k,
            {
                let x = prefix_of(path, n - 1 - k);
                proof {
                    assert(anc.subrange(0, k + 1).drop_last() =~= anc.subrange(0, k as int));
                    assert(anc[k as int] == segs(path@).subrange(0, n - 1 - k));
                }
                push_new_folder(&mut out, x);
                k += 1;
            }
            assert(anc.subrange(0, anc.len() as int) =~= anc);
        } else {
            assert(anc =~= Seq::<Seq<Seq<char>>>::empty());
        }
        proof {
            assert(file_segs(files@.subrange(0, i + 1)).drop_last() =~= file_segs(files@.subrange(0, i as int)));
            assert(file_segs(files@.subrange(0, i + 1)).last() == segs(path@));
        }
        i += 1;
    }
    assert(files@.subrange(0, files@.len() as int) =~= files@);
    out
}

/// `segs_order` of two component lists.
fn order_segs(a: &[String], b: &[String]) -> (r: Order)
    ensures
        r == segs_order(segs(a@), segs(b@)),
{
    let mut i: usize = 0;
    assert(segs(a@).subrange(0, a@.len() as int) =~= segs(a@));
    assert(segs(b@).subrange(0, b@.len() as int) =~= segs(b@));
    while i < a.len() && i < b.len()
        invariant
            i <= a@.len(),
            i <= b@.len(),
            segs_order(segs(a@), segs(b@)) == segs_order(segs(a@).subrange(i as int, a@.len() as int), segs(b@).subrange(i as int, b@.len() as int)),
        decreases a@.len() - i,
    {
        let ac = crate::text::chars_of(a[i].as_str());
        let bc = crate::text::chars_of(b[i].as_str());
        let o = order_chars(ac.as_slice(), bc.as_slice());
        proof {
            let sa = segs(a@).subrange(i as int, a@.len() as int);
            let sb = segs(b@).subrange(i as int, b@.len() as int);
            assert(sa[0] == a@[i as int]@);
            assert(sb[0] == b@[i as int]@);
            assert(sa.drop_first() =~= segs(a@).subrange(i + 1, a@.len() as int));
            assert(sb.drop_first() =~= segs(b@).subrange(i + 1, b@.len() as int));
        }
        match o {
            Order::Equal => {
                i += 1;
            },
            other => {
                return other;
            },
        }
    }
    if i == a.len() {
        if i == b.len() {
            Order::Equal
        } else {
            Order::Less
        }
    } else {
        Order::Greater
    }
}

/// The folders' stable order: by name, then by path.
fn sort_folders(lowers: &Vec<Vec<char>>, names: &Vec<Vec<char>>, folders: &Vec<Vec<String>>) -> (r: Vec<usize>)
    requires
        lowers@.len() == names@.len(),
        folders@.len() == names@.len(),
        forall|i: int| 0 <= i < names@.len() ==> #[trigger] lowers@[i]@ == lower_all(names@[i]@),
        forall|i: int| 0 <= i < names@.len() ==> #[trigger] names@[i]@ == folder_segs(folders@)[i].last(),
    ensures
        ints(r@) == stable_sorted(folders@.len() as nat, after_folder(folder_segs(folders@))),
        forall|k: int| 0 <= k < r@.len() ==> r@[k] < folders@.len(),
{
    let ghost fv = folder_segs(folders@);
    let ghost after = after_folder(fv);
    let mut ord: Vec<usize> = Vec::new();
    let mut i: usize = 0;
    while i < names.len()
        invariant
            i <= names@.len(),
            lowers@.len() == names@.len(),
            folders@.len() == names@.len(),
            forall|j: int| 0 <= j < names@.len() ==> #[trigger] lowers@[j]@ == lower_all(names@[j]@),
            forall|j: int| 0 <= j < names@.len() ==> #[trigger] names@[j]@ == fv[j].last(),
            fv == folder_segs(folders@),
            after == after_folder(fv),
            ints(ord@) == stable_sorted(i as nat, after),
            forall|k: int| 0 <= k < ord@.len() ==> ord@[k] < i,
        decreases names@.len() - i,
    {
        let ghost s = ints(ord@);
        let ghost after_i = |j: int| after(j, i as int);
        let mut p: usize = 0;
        loop
            invariant
                p <= ord@.len(),
                i < names@.len(),
                lowers@.len() == names@.len(),
                folders@.len() == names@.len(),
                forall|j: int| 0 <= j < names@.len() ==> #[trigger] lowers@[j]@ == lower_all(names@[j]@),
                forall|j: int| 0 <= j < names@.len() ==> #[trigger] names@[j]@ == fv[j].last(),
                fv == folder_segs(folders@),
                after == after_folder(fv),
                s == ints(ord@),
                after_i == (|j: int| after(j, i as int)),
                forall|k: int| 0 <= k < ord@.len() ==> ord@[k] < i,
                first_after(s, after_i, 0) == first_after(s, after_i, p as int),
            ensures
                p <= ord@.len(),
                first_after(s, after_i, 0) == p,
            decreases ord@.len() - p,
        {
            if p == ord.len() {
                break;
            }
            let j = ord[p];
            let o = order_titles(lowers[j].as_slice(), names[j].as_slice(), lowers[i].as_slice(), names[i].as_slice());
            let gt = match o {
                Order::Greater => true,
                Order::Equal => {
                    match order_segs(folders[j].as_slice(), folders[i].as_slice()) {
                        Order::Greater => true,
                        _ => false,
                    }
                },
                Order::Less => false,
            };
            proof {
                assert(s[p as int] == j as int);
                assert(fv[j as int] == segs(folders@[j as int]@));
                assert(fv[i as int] == segs(folders@[i as int]@));
            }
            if gt {
                break;
            }
            p += 1;
        }
        ord.insert(p, i);
        proof {
            assert(ints(ord@) =~= s.insert(p as int, i as int));
        }
        i += 1;
    }
    ord
}

/// The name a file shows under: its last path component, or `file-` and
/// its index when the path has none.
pub open spec fn spec_file_name(f: SharedFile) -> Seq<char> {
    if f.path@.len() > 0 {
        f.path@.last()@
    } else {
        "file-"@ + decimal(f.index as nat)
    }
}

/// The container an entry at path `p` hangs under: the folder holding it,
/// or the torrent's container at the top.
pub open spec fn spec_parent_id(h: Seq<char>, p: Seq<Seq<char>>, torrent_id: u64) -> u64 {
    if p.len() >= 2 {
        spec_folder_node_id(h, segs_str(p.drop_last()))
    } else {
        torrent_id
    }
}

/// The URL a TV streams a file from: the host as the TV reached it (with
/// the LAN port added unless it names one), then the stream path with the
/// file name percent-encoded.
pub open spec fn spec_stream_url(host: Seq<char>, lan_port: u16, h: Seq<char>, index: u32, name: Seq<char>) -> Seq<char> {
    let hp = if spec_host_has_port(host) {
        host
    } else {
        host + seq![':'] + decimal(lan_port as nat)
    };
    "http://"@ + hp + "/stream/"@ + h + seq!['/'] + decimal(index as nat) + seq!['/'] + percent_encoded(
        encode_utf8(name),
    )
}

/// A container entry.
pub open spec fn container_view(id: u64, parent: u64, title: Seq<char>) -> NodeV {
    NodeV {
        container: true,
        id,
        parent: Some(parent),
        title,
        count: None,
        mime: None,
        url: Seq::empty(),
        size: 0,
    }
}

/// The item entry of a file.
pub open spec fn item_view(h: Seq<char>, f: SharedFile, parent: u64, title: Seq<char>, host: Seq<char>, lan_port: u16) -> NodeV {
    let name = spec_file_name(f);
    NodeV {
        container: false,
        id: spec_file_node_id(h, f.index),
        parent: Some(parent),
        title,
        count: None,
        mime: spec_item_mime_type(name),
        url: spec_stream_url(host, lan_port, h, f.index, name),
        size: f.size,
    }
}

/// The container entry of a folder.
pub open spec fn folder_view(h: Seq<char>, f: Seq<Seq<char>>, torrent_id: u64) -> NodeV {
    container_view(spec_folder_node_id(h, segs_str(f)), spec_parent_id(h, f, torrent_id), f.last())
}

/// The entries of one torrent. A single-file torrent is one item at the
/// root; any other is a container at the root, then its folders by name,
/// then its files by name.
pub open spec fn torrent_block(t: SharedTorrent, host: Seq<char>, lan_port: u16) -> Seq<NodeV> {
    let h = t.info_hash@;
    if t.single_file {
        seq![item_view(h, t.files@[0], ROOT_ID, t.title@, host, lan_port)]
    } else {
        let tid = spec_torrent_node_id(h);
        let fl = folder_list(file_segs(t.files@));
        let names = t.files@.map_values(|f: SharedFile| spec_file_name(f));
        seq![container_view(tid, ROOT_ID, t.title@)]
            + stable_sorted(fl.len(), after_folder(fl)).map_values(|j: int| folder_view(h, fl[j], tid))
            + stable_sorted(t.files@.len(), after_title(names)).map_values(
            |j: int| item_view(h, t.files@[j], spec_parent_id(h, segs(t.files@[j].path@), tid), names[j], host, lan_port),
        )
    }
}

/// The sequences of `ss`, one after another.
pub open spec fn concat_all(ss: Seq<Seq<NodeV>>) -> Seq<NodeV>
    decreases ss.len(),
{
    if ss.len() == 0 {
        Seq::empty()
    } else {
        concat_all(ss.drop_last()) + ss.last()
    }
}

/// The entries of all torrents, the torrents in title order.
pub open spec fn raw_tree(ts: Seq<SharedTorrent>, host: Seq<char>, lan_port: u16) -> Seq<NodeV> {
    let titles = ts.map_values(|t: SharedTorrent| t.title@);
    concat_all(
        stable_sorted(ts.len(), after_title(titles)).map_values(|i: int| torrent_block(ts[i], host, lan_port)),
    )
}

/// How many entries hang directly under `id`.
pub open spec fn count_children(nodes: Seq<NodeV>, id: u64) -> nat {
    nodes.filter(|n: NodeV| n.parent == Some(id)).len()
}

/// Every container with its child count filled in.
pub open spec fn with_counts(nodes: Seq<NodeV>) -> Seq<NodeV> {
    nodes.map_values(
        |n: NodeV|
            if n.container {
                NodeV { count: Some(count_children(nodes, n.id) as usize), ..n }
            } else {
                n
            },
    )
}

/// The library tree of the shared torrents.
pub open spec fn spec_tree(ts: Seq<SharedTorrent>, host: Seq<char>, lan_port: u16) -> Seq<NodeV> {
    with_counts(raw_tree(ts, host, lan_port))
}

/// The name a file shows under.
pub fn file_name(f: &SharedFile) -> (r: String)
    ensures
        r@ == spec_file_name(*f),
{
    if f.path.len() > 0 {
        f.path[f.path.len() - 1].clone()
    } else {
        let mut out: Vec<char> = Vec::new();
        push_str_chars(&mut out, "file-");
        push_decimal(&mut out, f.index as u64);
        crate::text::string_of(out.as_slice())
    }
}

/// The path text of a component list.
fn segs_string(p: &[String]) -> (r: String)
    ensures
        r@ == segs_str(segs(p@)),
{
    let mut out: Vec<char> = Vec::new();
    let mut i: usize = 0;
    while i < p.len()
        invariant
            i <= p@.len(),
            out@ == segs_str(segs(p@).subrange(0, i as int)),
        decreases p@.len() - i,
    {
        if i > 0 {
            out.push('/');
        }
        push_str_chars(&mut out, p[i].as_str());
        proof {
            let sub = segs(p@).subrange(0, i + 1);
            assert(sub.drop_last() =~= segs(p@).subrange(0, i as int));
            if i == 0 {
                assert(out@ =~= sub[0]);
            } else {
                assert(out@ =~= segs_str(sub.drop_last()) + seq!['/'] + sub.last());
            }
        }
        i += 1;
    }
    assert(segs(p@).subrange(0, p@.len() as int) =~= segs(p@));
    crate::text::string_of(out.as_slice())
}

/// The id of the container an entry at `p` hangs under.
pub fn parent_node_id(info_hash: &str, p: &[String], torrent_id: u64) -> (r: u64)
    ensures
        r == spec_parent_id(info_hash@, segs(p@), torrent_id),
{
    if p.len() >= 2 {
        let up = prefix_of(p, p.len() - 1);
        proof {
            assert(segs(up@) =~= segs(p@).drop_last());
        }
        let text = segs_string(up.as_slice());
        folder_node_id(info_hash, text.as_str())
    } else {
        torrent_id
    }
}

/// The URL a TV streams a file from.
pub fn stream_url(hostname: &str, lan_port: u16, info_hash: &str, file_index: u32, filename: &str) -> (r: String)
    ensures
        r@ == spec_stream_url(hostname@, lan_port, info_hash@, file_index, filename@),
{
    let mut out: Vec<char> = Vec::new();
    push_str_chars(&mut out, "http://");
    push_str_chars(&mut out, hostname);
    if !host_has_port(hostname) {
        out.push(':');
        push_decimal(&mut out, lan_port as u64);
    }
    push_str_chars(&mut out, "/stream/");
    push_str_chars(&mut out, info_hash);
    out.push('/');
    push_decimal(&mut out, file_index as u64);
    out.push('/');
    let encoded = url_encode(filename);
    push_str_chars(&mut out, encoded.as_str());
    proof {
        let hp = if spec_host_has_port(hostname@) {
            hostname@
        } else {
            hostname@ + seq![':'] + decimal(lan_port as nat)
        };
        assert(out@ =~= "http://"@ + hp + "/stream/"@ + info_hash@ + seq!['/'] + decimal(file_index as nat)
            + seq!['/'] + percent_encoded(encode_utf8(filename@)));
    }
    crate::text::string_of(out.as_slice())
}

/// The item entry of a file.
fn item_node(info_hash: &str, f: &SharedFile, parent: u64, title: String, hostname: &str, lan_port: u16) -> (r: TreeNode)
    ensures
        r.view() == item_view(info_hash@, *f, parent, title@, hostname@, lan_port),
{
    let name = file_name(f);
    let url = stream_url(hostname, lan_port, info_hash, f.index, name.as_str());
    let mime = item_mime_type(name.as_str());
    TreeNode::Item {
        id: file_node_id(info_hash, f.index),
        parent_id: parent,
        title,
        mime_type: mime,
        url,
        size: f.size,
    }
}

proof fn lemma_first_after_range(s: Seq<int>, after_i: spec_fn(int) -> bool, k: int)
    requires
        0 <= k <= s.len(),
    ensures
        k <= first_after(s, after_i, k) <= s.len(),
    decreases s.len() - k,
{
    if k < s.len() && !after_i(s[k]) {
        lemma_first_after_range(s, after_i, k + 1);
    }
}

proof fn lemma_stable_sorted_len(n: nat, after: spec_fn(int, int) -> bool)
    ensures
        stable_sorted(n, after).len() == n,
    decreases n,
{
    if n > 0 {
        lemma_stable_sorted_len((n - 1) as nat, after);
        let s = stable_sorted((n - 1) as nat, after);
        lemma_first_after_range(s, |j: int| after(j, n - 1), 0);
    }
}

proof fn lemma_add_all_nonempty(l: Seq<Seq<Seq<char>>>, xs: Seq<Seq<Seq<char>>>)
    requires
        forall|i: int| 0 <= i < l.len() ==> #[trigger] l[i].len() >= 1,
        forall|i: int| 0 <= i < xs.len() ==> #[trigger] xs[i].len() >= 1,
    ensures
        forall|i: int| 0 <= i < add_all(l, xs).len() ==> #[trigger] add_all(l, xs)[i].len() >= 1,
    decreases xs.len(),
{
    if xs.len() > 0 {
        lemma_add_all_nonempty(l, xs.drop_last());
        assert(xs.last() == xs[xs.len() - 1]);
        let prev = add_all(l, xs.drop_last());
        if !prev.contains(xs.last()) {
            assert forall|i: int| 0 <= i < prev.push(xs.last()).len() implies #[trigger] prev.push(
                xs.last(),
            )[i].len() >= 1 by {
                if i < prev.len() {
                    assert(prev.push(xs.last())[i] == prev[i]);
                }
            }
        }
    }
}

proof fn lemma_folder_list_nonempty(paths: Seq<Seq<Seq<char>>>)
    ensures
        forall|i: int| 0 <= i < folder_list(paths).len() ==> #[trigger] folder_list(paths)[i].len() >= 1,
    decreases paths.len(),
{
    if paths.len() > 0 {
        lemma_folder_list_nonempty(paths.drop_last());
        let a = ancestors(paths.last());
        assert forall|i: int| 0 <= i < a.len() implies #[trigger] a[i].len() >= 1 by {}
        lemma_add_all_nonempty(folder_list(paths.drop_last()), a);
    }
}

/// Append the entries of one torrent.
pub fn push_torrent(nodes: &mut Vec<TreeNode>, torrent: &SharedTorrent, hostname: &str, lan_port: u16)
    requires
        torrent.single_file ==> torrent.files@.len() > 0,
    ensures
        nodes_view(final(nodes)@) == nodes_view(old(nodes)@) + torrent_block(*torrent, hostname@, lan_port),
{
    let ghost base = nodes_view(nodes@);
    let h = torrent.info_hash.as_str();
    if torrent.single_file {
        let n = item_node(h, &torrent.files[0], ROOT_ID, torrent.title.clone(), hostname, lan_port);
        nodes.push(n);
        assert(nodes_view(nodes@) =~= base + torrent_block(*torrent, hostname@, lan_port));
        return;
    }
    let tid = torrent_node_id(h);
    nodes.push(
        TreeNode::Container { id: tid, parent_id: Some(ROOT_ID), title: torrent.title.clone(), children_count: None },
    );
    let ghost head = base + seq![container_view(tid, ROOT_ID, torrent.title@)];
    assert(nodes_view(nodes@) =~= head);

    // Folders, by name.
    let folders = collect_folders(torrent.files.as_slice());
    let ghost fl = folder_list(file_segs(torrent.files@));
    proof {
        lemma_folder_list_nonempty(file_segs(torrent.files@));
    }
    let mut fnames: Vec<Vec<char>> = Vec::new();
    let mut flowers: Vec<Vec<char>> = Vec::new();
    let mut i: usize = 0;
    while i < folders.len()
        invariant
            i <= folders@.len(),
            folder_segs(folders@) == fl,
            forall|k: int| 0 <= k < fl.len() ==> #[trigger] fl[k].len() >= 1,
            fnames@.len() == i,
            flowers@.len() == i,
            forall|k: int| 0 <= k < i ==> #[trigger] fnames@[k]@ == fl[k].last(),
            forall|k: int| 0 <= k < i ==> #[trigger] flowers@[k]@ == lower_all(fnames@[k]@),
        decreases folders@.len() - i,
    {
        let f = &folders[i];
        proof {
            assert(fl[i as int] == segs(f@));
            assert(fl[i as int].len() >= 1);
        }
        let name = crate::text::chars_of(f[f.len() - 1].as_str());
        let lower = lower_all_vec(name.as_slice());
        fnames.push(name);
        flowers.push(lower);
        i += 1;
    }
    let fo = sort_folders(&flowers, &fnames, &folders);
    let ghost forder = stable_sorted(fl.len(), after_folder(fl));
    let ghost fblock = forder.map_values(|j: int| folder_view(torrent.info_hash@, fl[j], tid));
    proof {
        lemma_stable_sorted_len(fl.len(), after_folder(fl));
    }
    let mut k: usize = 0;
    while k < fo.len()
        invariant
            k <= fo@.len(),
            fo@.len() == fl.len(),
            ints(fo@) == forder,
            forall|a: int| 0 <= a < fo@.len() ==> fo@[a] < folders@.len(),
            folder_segs(folders@) == fl,
            forall|a: int| 0 <= a < fl.len() ==> #[trigger] fl[a].len() >= 1,
            h@ == torrent.info_hash@,
            tid == spec_torrent_node_id(h@),
            fblock == forder.map_values(|j: int| folder_view(torrent.info_hash@, fl[j], tid)),
            nodes_view(nodes@) == head + fblock.subrange(0, k as int),
        decreases fo@.len() - k,
    {
        let j = fo[k];
        let f = &folders[j];
        proof {
            assert(forder[k as int] == j as int);
            assert(fl[j as int] == segs(f@));
        }
        let text = segs_string(f.as_slice());
        let id = folder_node_id(h, text.as_str());
        let parent = parent_node_id(h, f.as_slice(), tid);
        let title = f[f.len() - 1].clone();
        let ghost before = nodes_view(nodes@);
        nodes.push(TreeNode::Container { id, parent_id: Some(parent), title, children_count: None });
        proof {
            assert(segs(f@).drop_last() =~= segs(f@).drop_last());
            assert(fblock[k as int] == folder_view(torrent.info_hash@, fl[j as int], tid));
            assert(nodes_view(nodes@) =~= before.push(fblock[k as int]));
        }
        k += 1;
        assert(nodes_view(nodes@) =~= head + fblock.subrange(0, k as int));
    }
    assert(fblock.subrange(0, fblock.len() as int) =~= fblock);
    let ghost mid = head + fblock;

    // Files, by name.
    let files = &torrent.files;
    let ghost names_spec = files@.map_values(|f: SharedFile| spec_file_name(f));
    let mut names: Vec<String> = Vec::new();
    let mut ncs: Vec<Vec<char>> = Vec::new();
    let mut lowers: Vec<Vec<char>> = Vec::new();
    let mut m: usize = 0;
    while m < files.len()
        invariant
            m <= files@.len(),
            names_spec == files@.map_values(|f: SharedFile| spec_file_name(f)),
            names@.len() == m,
            ncs@.len() == m,
            lowers@.len() == m,
            forall|a: int| 0 <= a < m ==> #[trigger] names@[a]@ == names_spec[a],
            forall|a: int| 0 <= a < m ==> #[trigger] ncs@[a]@ == names_spec[a],
            forall|a: int| 0 <= a < m ==> #[trigger] lowers@[a]@ == lower_all(ncs@[a]@),
        decreases files@.len() - m,
    {
        let n = file_name(&files[m]);
        let nc = crate::text::chars_of(n.as_str());
        let lower = lower_all_vec(nc.as_slice());
        names.push(n);
        ncs.push(nc);
        lowers.push(lower);
        m += 1;
    }
    assert(ncs@.map_values(|v: Vec<char>| v@) =~= names_spec);
    let mo = sort_by_title(&lowers, &ncs);
    let ghost morder = stable_sorted(files@.len(), after_title(names_spec));
    let ghost mblock = morder.map_values(
        |j: int|
            item_view(
                torrent.info_hash@,
                files@[j],
                spec_parent_id(torrent.info_hash@, segs(files@[j].path@), tid),
                names_spec[j],
                hostname@,
                lan_port,
            ),
    );
    proof {
        lemma_stable_sorted_len(files@.len() as nat, after_title(names_spec));
    }
    let mut q: usize = 0;
    while q < mo.len()
        invariant
            q <= mo@.len(),
            mo@.len() == files@.len(),
            ints(mo@) == morder,
            forall|a: int| 0 <= a < mo@.len() ==> mo@[a] < files@.len(),
            names@.len() == files@.len(),
            forall|a: int| 0 <= a < files@.len() ==> #[trigger] names@[a]@ == names_spec[a],
            h@ == torrent.info_hash@,
            files == &torrent.files,
            tid == spec_torrent_node_id(h@),
            mblock == morder.map_values(
                |j: int|
                    item_view(
                        torrent.info_hash@,
                        files@[j],
                        spec_parent_id(torrent.info_hash@, segs(files@[j].path@), tid),
                        names_spec[j],
                        hostname@,
                        lan_port,
                    ),
            ),
            nodes_view(nodes@) == mid + mblock.subrange(0, q as int),
        decreases mo@.len() - q,
    {
        let j = mo[q];
        let f = &files[j];
        proof {
            assert(morder[q as int] == j as int);
        }
        let parent = parent_node_id(h, f.path.as_slice(), tid);
        let n = item_node(h, f, parent, names[j].clone(), hostname, lan_port);
        let ghost before = nodes_view(nodes@);
        nodes.push(n);
        proof {
            assert(mblock[q as int] == n.view());
            assert(nodes_view(nodes@) =~= before.push(mblock[q as int]));
        }
        q += 1;
        assert(nodes_view(nodes@) =~= mid + mblock.subrange(0, q as int));
    }
    assert(mblock.subrange(0, mblock.len() as int) =~= mblock);
    proof {
        assert(nodes_view(nodes@) =~= base + torrent_block(*torrent, hostname@, lan_port));
    }
}

/// How many entries hang directly under `id`.
fn count_under(nodes: &Vec<TreeNode>, id: u64) -> (r: usize)
    ensures
        r == count_children(nodes_view(nodes@), id),
{
    let ghost nv = nodes_view(nodes@);
    let ghost pred = |n: NodeV| n.parent == Some(id);
    let mut c: usize = 0;
    let mut i: usize = 0;
    while i < nodes.len()
        invariant
            i <= nodes@.len(),
            nv == nodes_view(nodes@),
            pred == (|n: NodeV| n.parent == Some(id)),
            c == nv.subrange(0, i as int).filter(pred).len(),
            c <= i,
        decreases nodes@.len() - i,
    {
        proof {
            reveal(Seq::filter);
            assert(nv.subrange(0, i + 1).drop_last() =~= nv.subrange(0, i as int));
            assert(nv[i as int] == nodes@[i as int].view());
        }
        let under = match &nodes[i] {
            TreeNode::Container { parent_id, .. } => match parent_id {
                Some(p) => *p == id,
                None => false,
            },
            TreeNode::Item { parent_id, .. } => *parent_id == id,
        };
        if under {
            c += 1;
        }
        i += 1;
    }
    assert(nv.subrange(0, nv.len() as int) =~= nv);
    c
}

/// The library tree: the torrents in title order, each as `torrent_block`
/// lays it out, and every container with its child count.
pub fn build_tree(torrents: Vec<SharedTorrent>, hostname: &str, lan_port: u16) -> (r: Vec<TreeNode>)
    requires
        forall|i: int| 0 <= i < torrents@.len() ==> #[trigger] torrents@[i].single_file ==> torrents@[i].files@.len() > 0,
    ensures
        nodes_view(r@) == spec_tree(torrents@, hostname@, lan_port),
        ids_clear_of_root(torrents@) ==> count_children(nodes_view(r@), ROOT_ID) == torrents@.len(),
        forall|k: int|
            0 <= k < nodes_view(r@).len() && (#[trigger] nodes_view(r@)[k]).container ==> nodes_view(r@)[k].count
                == Some(count_children(nodes_view(r@), nodes_view(r@)[k].id) as usize),
        forall|k: int|
            0 <= k < nodes_view(r@).len() && !(#[trigger] nodes_view(r@)[k]).container ==> exists|i: int, j: int|
                0 <= i < torrents@.len() && item_of_file(nodes_view(r@)[k], torrents@[i], j),
{
    proof {
        lemma_items_carry_file_sizes(torrents@, hostname@, lan_port);
        if ids_clear_of_root(torrents@) {
            lemma_root_children(torrents@, hostname@, lan_port);
        }
        lemma_container_counts(torrents@, hostname@, lan_port);
    }
    let ghost titles = torrents@.map_values(|t: SharedTorrent| t.title@);
    let mut tnames: Vec<Vec<char>> = Vec::new();
    let mut tlowers: Vec<Vec<char>> = Vec::new();
    let mut i: usize = 0;
    while i < torrents.len()
        invariant
            i <= torrents@.len(),
            titles == torrents@.map_values(|t: SharedTorrent| t.title@),
            tnames@.len() == i,
            tlowers@.len() == i,
            forall|a: int| 0 <= a < i ==> #[trigger] tnames@[a]@ == titles[a],
            forall|a: int| 0 <= a < i ==> #[trigger] tlowers@[a]@ == lower_all(tnames@[a]@),
        decreases torrents@.len() - i,
    {
        let name = crate::text::chars_of(torrents[i].title.as_str());
        let lower = lower_all_vec(name.as_slice());
        tnames.push(name);
        tlowers.push(lower);
        i += 1;
    }
    assert(tnames@.map_values(|v: Vec<char>| v@) =~= titles);
    let order = sort_by_title(&tlowers, &tnames);
    let ghost sorted = stable_sorted(torrents@.len() as nat, after_title(titles));
    let ghost blocks = sorted.map_values(|i: int| torrent_block(torrents@[i], hostname@, lan_port));
    proof {
        lemma_stable_sorted_len(torrents@.len() as nat, after_title(titles));
    }
    let mut nodes: Vec<TreeNode> = Vec::new();
    let mut k: usize = 0;
    while k < order.len()
        invariant
            k <= order@.len(),
            order@.len() == torrents@.len(),
            ints(order@) == sorted,
            forall|a: int| 0 <= a < order@.len() ==> order@[a] < torrents@.len(),
            forall|a: int| 0 <= a < torrents@.len() ==> #[trigger] torrents@[a].single_file ==> torrents@[a].files@.len() > 0,
            blocks == sorted.map_values(|i: int| torrent_block(torrents@[i], hostname@, lan_port)),
            nodes_view(nodes@) == concat_all(blocks.subrange(0, k as int)),
        decreases order@.len() - k,
    {
        let j = order[k];
        proof {
            assert(sorted[k as int] == j as int);
            assert(blocks.subrange(0, k + 1).drop_last() =~= blocks.subrange(0, k as int));
        }
        push_torrent(&mut nodes, &torrents[j], hostname, lan_port);
        k += 1;
    }
    assert(blocks.subrange(0, blocks.len() as int) =~= blocks);
    let ghost raw = nodes_view(nodes@);
    assert(raw == raw_tree(torrents@, hostname@, lan_port));

    let mut out: Vec<TreeNode> = Vec::new();
    let mut m: usize = 0;
    while m < nodes.len()
        invariant
            m <= nodes@.len(),
            raw == nodes_view(nodes@),
            nodes_view(out@) == with_counts(raw).subrange(0, m as int),
        decreases nodes@.len() - m,
    {
        let n = match &nodes[m] {
            TreeNode::Container { id, parent_id, title, .. } => {
                let c = count_under(&nodes, *id);
                TreeNode::Container { id: *id, parent_id: *parent_id, title: title.clone(), children_count: Some(c) }
            },
            TreeNode::Item { id, parent_id, title, mime_type, url, size } => {
                let mime = match mime_type {
                    Some(t) => Some(t.clone()),
                    None => None,
                };
                TreeNode::Item {
                    id: *id,
                    parent_id: *parent_id,
                    title: title.clone(),
                    mime_type: mime,
                    url: url.clone(),
                    size: *size,
                }
            },
        };
        let ghost before = nodes_view(out@);
        out.push(n);
        proof {
            assert(raw[m as int] == nodes@[m as int].view());
            assert(with_counts(raw)[m as int] == n.view());
            assert(nodes_view(out@) =~= before.push(n.view()));
        }
        m += 1;
        assert(nodes_view(out@) =~= with_counts(raw).subrange(0, m as int));
    }
    assert(with_counts(raw).subrange(0, raw.len() as int) =~= with_counts(raw));
    out
}

/// No entry of a torrent hangs under the root by accident: the torrent's
/// container id and the id of every folder its files lie in differ from
/// the root's.
pub open spec fn ids_clear_of_root(ts: Seq<SharedTorrent>) -> bool {
    forall|i: int|
        0 <= i < ts.len() && !(#[trigger] ts[i]).single_file ==> {
            &&& spec_torrent_node_id(ts[i].info_hash@) != ROOT_ID
            &&& forall|j: int, l: int|
                0 <= j < ts[i].files@.len() && 1 <= l < ts[i].files@[j].path@.len() ==> spec_folder_node_id(
                    ts[i].info_hash@,
                    #[trigger] segs_str(segs(ts[i].files@[j].path@).subrange(0, l)),
                ) != ROOT_ID
        }
}

proof fn lemma_count_concat(a: Seq<NodeV>, b: Seq<NodeV>, id: u64)
    ensures
        count_children(a + b, id) == count_children(a, id) + count_children(b, id),
{
    Seq::filter_distributes_over_add(a, b, |n: NodeV| n.parent == Some(id));
}

proof fn lemma_count_none(s: Seq<NodeV>, id: u64)
    requires
        forall|k: int| 0 <= k < s.len() ==> (#[trigger] s[k]).parent != Some(id),
    ensures
        count_children(s, id) == 0,
    decreases s.len(),
{
    reveal(Seq::filter);
    if s.len() > 0 {
        lemma_count_none(s.drop_last(), id);
    }
}

proof fn lemma_count_kept(s: Seq<NodeV>, f: spec_fn(NodeV) -> NodeV, id: u64)
    requires
        forall|n: NodeV| (#[trigger] f(n)).parent == n.parent,
    ensures
        count_children(s.map_values(f), id) == count_children(s, id),
    decreases s.len(),
{
    reveal(Seq::filter);
    if s.len() > 0 {
        lemma_count_kept(s.drop_last(), f, id);
        assert(s.map_values(f).drop_last() =~= s.drop_last().map_values(f));
        assert(f(s.last()).parent == s.last().parent);
    }
}

/// `f` is a folder one of the paths lies in.
pub open spec fn is_folder_of(paths: Seq<Seq<Seq<char>>>, f: Seq<Seq<char>>) -> bool {
    exists|j: int, l: int| 0 <= j < paths.len() && 1 <= l < paths[j].len() && f == paths[j].subrange(0, l)
}

/// Every folder of `folder_list` is a proper non-empty prefix of some path.
proof fn lemma_folder_list_prefixes(paths: Seq<Seq<Seq<char>>>)
    ensures
        forall|k: int| 0 <= k < folder_list(paths).len() ==> is_folder_of(paths, #[trigger] folder_list(paths)[k]),
    decreases paths.len(),
{
    if paths.len() > 0 {
        let prev = paths.drop_last();
        lemma_folder_list_prefixes(prev);
        let l0 = folder_list(prev);
        assert forall|k: int| 0 <= k < l0.len() implies is_folder_of(paths, #[trigger] l0[k]) by {
            assert(is_folder_of(prev, l0[k]));
            let (j, l) = choose|j: int, l: int| 0 <= j < prev.len() && 1 <= l < prev[j].len() && l0[k] == prev[j].subrange(0, l);
            assert(paths[j] == prev[j]);
        }
        let a = ancestors(paths.last());
        assert forall|k: int| 0 <= k < a.len() implies is_folder_of(paths, #[trigger] a[k]) by {
            let last = paths.len() - 1;
            assert(a[k] == paths[last].subrange(0, paths[last].len() - 1 - k));
        }
        lemma_add_all_keeps(l0, a, paths);
    }
}

proof fn lemma_add_all_keeps(l0: Seq<Seq<Seq<char>>>, xs: Seq<Seq<Seq<char>>>, paths: Seq<Seq<Seq<char>>>)
    requires
        forall|k: int| 0 <= k < l0.len() ==> is_folder_of(paths, #[trigger] l0[k]),
        forall|k: int| 0 <= k < xs.len() ==> is_folder_of(paths, #[trigger] xs[k]),
    ensures
        forall|k: int| 0 <= k < add_all(l0, xs).len() ==> is_folder_of(paths, #[trigger] add_all(l0, xs)[k]),
    decreases xs.len(),
{
    if xs.len() > 0 {
        let rest = xs.drop_last();
        assert forall|k: int| 0 <= k < rest.len() implies is_folder_of(paths, #[trigger] rest[k]) by {
            assert(rest[k] == xs[k]);
        }
        lemma_add_all_keeps(l0, rest, paths);
        let prev = add_all(l0, rest);
        assert(is_folder_of(paths, xs[xs.len() - 1]));
        if !prev.contains(xs.last()) {
            assert forall|k: int| 0 <= k < prev.push(xs.last()).len() implies is_folder_of(
                paths,
                #[trigger] prev.push(xs.last())[k],
            ) by {
                if k < prev.len() {
                    assert(prev.push(xs.last())[k] == prev[k]);
                }
            }
        }
    }
}

proof fn lemma_block_one_root_child(t: SharedTorrent, host: Seq<char>, lan_port: u16)
    requires
        t.single_file ==> t.files@.len() > 0,
        !t.single_file ==> spec_torrent_node_id(t.info_hash@) != ROOT_ID,
        !t.single_file ==> forall|j: int, l: int|
            0 <= j < t.files@.len() && 1 <= l < t.files@[j].path@.len() ==> spec_folder_node_id(
                t.info_hash@,
                #[trigger] segs_str(segs(t.files@[j].path@).subrange(0, l)),
            ) != ROOT_ID,
    ensures
        count_children(torrent_block(t, host, lan_port), ROOT_ID) == 1,
{
    reveal(Seq::filter);
    let b = torrent_block(t, host, lan_port);
    let h = t.info_hash@;
    if t.single_file {
        assert(b.drop_last() =~= Seq::<NodeV>::empty());
    } else {
        let tid = spec_torrent_node_id(h);
        let paths = file_segs(t.files@);
        let fl = folder_list(paths);
        let names = t.files@.map_values(|f: SharedFile| spec_file_name(f));
        let fb = stable_sorted(fl.len(), after_folder(fl)).map_values(|j: int| folder_view(h, fl[j], tid));
        let mb = stable_sorted(t.files@.len(), after_title(names)).map_values(
            |j: int| item_view(h, t.files@[j], spec_parent_id(h, segs(t.files@[j].path@), tid), names[j], host, lan_port),
        );
        let head = seq![container_view(tid, ROOT_ID, t.title@)];
        assert(b == head + fb + mb);
        lemma_folder_list_prefixes(paths);
        lemma_stable_sorted_in_range(fl.len(), after_folder(fl));
        lemma_stable_sorted_in_range(t.files@.len() as nat, after_title(names));
        assert forall|k: int| 0 <= k < fb.len() implies (#[trigger] fb[k]).parent != Some(ROOT_ID) by {
            let j = stable_sorted(fl.len(), after_folder(fl))[k];
            assert(0 <= j < fl.len());
            let f = fl[j];
            assert(is_folder_of(paths, fl[j]));
            let (fi, l) = choose|fi: int, l: int|
                0 <= fi < paths.len() && 1 <= l < paths[fi].len() && fl[j] == paths[fi].subrange(0, l);
            assert(paths[fi] == segs(t.files@[fi].path@));
            if f.len() >= 2 {
                assert(f.drop_last() =~= segs(t.files@[fi].path@).subrange(0, l - 1));
            }
        }
        assert forall|k: int| 0 <= k < mb.len() implies (#[trigger] mb[k]).parent != Some(ROOT_ID) by {
            let j = stable_sorted(t.files@.len() as nat, after_title(names))[k];
            assert(0 <= j < t.files@.len());
            let p = segs(t.files@[j].path@);
            if p.len() >= 2 {
                assert(p.drop_last() =~= segs(t.files@[j].path@).subrange(0, p.len() - 1));
            }
        }
        lemma_count_none(fb, ROOT_ID);
        lemma_count_none(mb, ROOT_ID);
        lemma_count_concat(head, fb, ROOT_ID);
        lemma_count_concat(head + fb, mb, ROOT_ID);
        assert(head.drop_last() =~= Seq::<NodeV>::empty());
    }
}

proof fn lemma_stable_sorted_in_range(n: nat, after: spec_fn(int, int) -> bool)
    ensures
        forall|k: int| 0 <= k < stable_sorted(n, after).len() ==> 0 <= #[trigger] stable_sorted(n, after)[k] < n,
    decreases n,
{
    if n > 0 {
        lemma_stable_sorted_in_range((n - 1) as nat, after);
        let s = stable_sorted((n - 1) as nat, after);
        let p = first_after(s, |j: int| after(j, n - 1), 0);
        lemma_first_after_range(s, |j: int| after(j, n - 1), 0);
        assert forall|k: int| 0 <= k < s.insert(p, n - 1).len() implies 0 <= #[trigger] s.insert(p, n - 1)[k] < n by {
            if k < p {
                assert(s.insert(p, n - 1)[k] == s[k]);
            } else if k > p {
                assert(s.insert(p, n - 1)[k] == s[k - 1]);
            }
        }
    }
}

proof fn lemma_concat_root_children(blocks: Seq<Seq<NodeV>>)
    requires
        forall|k: int| 0 <= k < blocks.len() ==> count_children(#[trigger] blocks[k], ROOT_ID) == 1,
    ensures
        count_children(concat_all(blocks), ROOT_ID) == blocks.len(),
    decreases blocks.len(),
{
    reveal(Seq::filter);
    if blocks.len() > 0 {
        lemma_concat_root_children(blocks.drop_last());
        lemma_count_concat(concat_all(blocks.drop_last()), blocks.last(), ROOT_ID);
        assert(count_children(blocks[blocks.len() - 1], ROOT_ID) == 1);
    }
}

/// Every listed torrent is exactly one child of the library's root, so the
/// root's child count is the number of shared torrents (when no torrent's
/// or folder's id collides with the root's).
pub proof fn lemma_root_children(ts: Seq<SharedTorrent>, host: Seq<char>, lan_port: u16)
    requires
        forall|i: int| 0 <= i < ts.len() ==> #[trigger] ts[i].single_file ==> ts[i].files@.len() > 0,
        ids_clear_of_root(ts),
    ensures
        count_children(spec_tree(ts, host, lan_port), ROOT_ID) == ts.len(),
{
    let titles = ts.map_values(|t: SharedTorrent| t.title@);
    let order = stable_sorted(ts.len(), after_title(titles));
    let blocks = order.map_values(|i: int| torrent_block(ts[i], host, lan_port));
    lemma_stable_sorted_len(ts.len(), after_title(titles));
    lemma_stable_sorted_in_range(ts.len(), after_title(titles));
    assert forall|k: int| 0 <= k < blocks.len() implies count_children(#[trigger] blocks[k], ROOT_ID) == 1 by {
        let i = order[k];
        assert(0 <= i < ts.len());
        assert(ts[i].single_file ==> ts[i].files@.len() > 0);
        lemma_block_one_root_child(ts[i], host, lan_port);
    }
    lemma_concat_root_children(blocks);
    let raw = raw_tree(ts, host, lan_port);
    lemma_count_kept(
        raw,
        |n: NodeV|
            if n.container {
                NodeV { count: Some(count_children(raw, n.id) as usize), ..n }
            } else {
                n
            },
        ROOT_ID,
    );
}

/// Every container of the library tree carries the number of entries that
/// hang directly under it in that tree.
pub proof fn lemma_container_counts(ts: Seq<SharedTorrent>, host: Seq<char>, lan_port: u16)
    ensures
        forall|k: int|
            0 <= k < spec_tree(ts, host, lan_port).len() && (#[trigger] spec_tree(ts, host, lan_port)[k]).container
                ==> spec_tree(ts, host, lan_port)[k].count == Some(
                count_children(spec_tree(ts, host, lan_port), spec_tree(ts, host, lan_port)[k].id) as usize,
            ),
{
    let raw = raw_tree(ts, host, lan_port);
    let f = |n: NodeV|
        if n.container {
            NodeV { count: Some(count_children(raw, n.id) as usize), ..n }
        } else {
            n
        };
    let tree = spec_tree(ts, host, lan_port);
    assert(tree == raw.map_values(f));
    assert forall|k: int| 0 <= k < tree.len() && (#[trigger] tree[k]).container implies tree[k].count == Some(
        count_children(tree, tree[k].id) as usize,
    ) by {
        lemma_count_kept(raw, f, tree[k].id);
        assert(tree[k] == f(raw[k]));
    }
}

/// Whether `n` stands for file `j` of torrent `t`: it bears that file's
/// node id and its size.
pub open spec fn item_of_file(n: NodeV, t: SharedTorrent, j: int) -> bool {
    &&& 0 <= j < t.files@.len()
    &&& n.id == spec_file_node_id(t.info_hash@, t.files@[j].index)
    &&& n.size == t.files@[j].size
}

proof fn lemma_block_items(t: SharedTorrent, host: Seq<char>, lan_port: u16)
    requires
        t.single_file ==> t.files@.len() > 0,
    ensures
        forall|k: int|
            0 <= k < torrent_block(t, host, lan_port).len() && !(#[trigger] torrent_block(t, host, lan_port)[k]).container
                ==> exists|j: int| item_of_file(torrent_block(t, host, lan_port)[k], t, j),
{
    let b = torrent_block(t, host, lan_port);
    let h = t.info_hash@;
    if t.single_file {
        assert forall|k: int| 0 <= k < b.len() && !(#[trigger] b[k]).container implies exists|j: int|
            item_of_file(b[k], t, j) by {
            assert(item_of_file(b[k], t, 0));
        }
    } else {
        let tid = spec_torrent_node_id(h);
        let paths = file_segs(t.files@);
        let fl = folder_list(paths);
        let names = t.files@.map_values(|f: SharedFile| spec_file_name(f));
        let order = stable_sorted(t.files@.len() as nat, after_title(names));
        let fb = stable_sorted(fl.len(), after_folder(fl)).map_values(|j: int| folder_view(h, fl[j], tid));
        let mb = order.map_values(
            |j: int| item_view(h, t.files@[j], spec_parent_id(h, segs(t.files@[j].path@), tid), names[j], host, lan_port),
        );
        let head = seq![container_view(tid, ROOT_ID, t.title@)];
        assert(b == head + fb + mb);
        lemma_stable_sorted_in_range(t.files@.len() as nat, after_title(names));
        assert forall|k: int| 0 <= k < b.len() && !(#[trigger] b[k]).container implies exists|j: int|
            item_of_file(b[k], t, j) by {
            if k < head.len() + fb.len() {
                if k < 1 {
                    assert(b[k] == head[k]);
                } else {
                    assert(b[k] == fb[k - 1]);
                }
            } else {
                let m = k - head.len() - fb.len();
                assert(b[k] == mb[m]);
                let j = order[m];
                assert(0 <= j < t.files@.len());
                assert(item_of_file(b[k], t, j));
            }
        }
    }
}

proof fn lemma_concat_member(bs: Seq<Seq<NodeV>>, k: int)
    requires
        0 <= k < concat_all(bs).len(),
    ensures
        exists|b: int, m: int| 0 <= b < bs.len() && 0 <= m < bs[b].len() && concat_all(bs)[k] == bs[b][m],
    decreases bs.len(),
{
    if bs.len() > 0 {
        let pre = concat_all(bs.drop_last());
        if k < pre.len() {
            lemma_concat_member(bs.drop_last(), k);
            let (b, m) = choose|b: int, m: int|
                0 <= b < bs.drop_last().len() && 0 <= m < bs.drop_last()[b].len() && pre[k] == bs.drop_last()[b][m];
            assert(concat_all(bs)[k] == bs[b][m]);
        } else {
            let m = k - pre.len();
            assert(concat_all(bs)[k] == bs[bs.len() - 1][m]);
        }
    }
}

/// Every item of the library tree stands for one shared file: it bears that
/// file's node id and carries its size.
pub proof fn lemma_items_carry_file_sizes(ts: Seq<SharedTorrent>, host: Seq<char>, lan_port: u16)
    requires
        forall|i: int| 0 <= i < ts.len() ==> #[trigger] ts[i].single_file ==> ts[i].files@.len() > 0,
    ensures
        forall|k: int|
            0 <= k < spec_tree(ts, host, lan_port).len() && !(#[trigger] spec_tree(ts, host, lan_port)[k]).container
                ==> exists|i: int, j: int| 0 <= i < ts.len() && item_of_file(spec_tree(ts, host, lan_port)[k], ts[i], j),
{
    let titles = ts.map_values(|t: SharedTorrent| t.title@);
    let order = stable_sorted(ts.len(), after_title(titles));
    let blocks = order.map_values(|i: int| torrent_block(ts[i], host, lan_port));
    let raw = raw_tree(ts, host, lan_port);
    let tree = spec_tree(ts, host, lan_port);
    lemma_stable_sorted_in_range(ts.len(), after_title(titles));
    assert(raw == concat_all(blocks));
    assert forall|k: int| 0 <= k < tree.len() && !(#[trigger] tree[k]).container implies exists|i: int, j: int|
        0 <= i < ts.len() && item_of_file(tree[k], ts[i], j) by {
        assert(tree[k] == raw[k]);
        lemma_concat_member(blocks, k);
        let (b, m) = choose|b: int, m: int|
            0 <= b < blocks.len() && 0 <= m < blocks[b].len() && concat_all(blocks)[k] == blocks[b][m];
        let i = order[b];
        assert(0 <= i < ts.len());
        assert(ts[i].single_file ==> ts[i].files@.len() > 0);
        lemma_block_items(ts[i], host, lan_port);
        assert(blocks[b] == torrent_block(ts[i], host, lan_port));
        assert(!torrent_block(ts[i], host, lan_port)[m].container);
        let j = choose|j: int| item_of_file(torrent_block(ts[i], host, lan_port)[m], ts[i], j);
        assert(item_of_file(tree[k], ts[i], j));
    }
}

} // verus!
