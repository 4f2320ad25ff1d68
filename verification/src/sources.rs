//! Add sources handed over by the operating system: magnet links and
//! `.torrent` files from the command line, a forwarded second launch, or an
//! open event. They wait in a queue until the frontend drains it.

use vstd::prelude::*;
use crate::paths::{extension, extension_chars};
use crate::protocol::{spec_is_direct_source, is_direct_source};
use crate::text::{chars_of, lower_seq, lower_vec, eq_str, has_prefix, starts_with_str, string_views};
use crate::config::{join, join_path};
use crate::requests::{base64_encode, base64_encoded};

verus! {

/// A `.torrent` file path: its extension is `torrent`, in any ASCII case.
pub open spec fn spec_is_torrent_file(path: Seq<char>) -> bool {
    match extension(path) {
        Some(e) => lower_seq(e) == "torrent"@,
        None => false,
    }
}

pub fn is_torrent_file(path: &str) -> (r: bool)
    ensures
        r == spec_is_torrent_file(path@),
{
    match extension_chars(chars_of(path).as_slice()) {
        Some(e) => {
            let l = lower_vec(e.as_slice());
            eq_str(l.as_slice(), "torrent")
        },
        None => false,
    }
}

/// Whether `arg` is a `file://` URL (scheme in any ASCII case).
pub open spec fn is_file_url(arg: Seq<char>) -> bool {
    has_prefix(lower_seq(arg), "file://"@)
}

/// The add source an argument stands for, given what a `file://` URL
/// converts to (`file_path`): flags go, magnet and HTTP(S) sources pass
/// verbatim, a `file://` URL counts as its local path, and a bare path
/// counts when it names a `.torrent` file.
pub open spec fn spec_normalize(arg: Seq<char>, file_path: Option<Seq<char>>) -> Option<Seq<char>> {
    if arg.len() > 0 && arg[0] == '-' {
        None
    } else if spec_is_direct_source(arg) {
        Some(arg)
    } else if is_file_url(arg) {
        match file_path {
            Some(p) => if spec_is_torrent_file(p) {
                Some(p)
            } else {
                None
            },
            None => None,
        }
    } else if spec_is_torrent_file(arg) {
        Some(arg)
    } else {
        None
    }
}

/// The local path a `file://` URL names, as the `url` crate converts it:
/// `None` when the text does not parse as a URL or does not convert to a
/// path (a host other than `localhost`, say); on Unix the path is the
/// percent-decoded path of the URL.
pub uninterp spec fn file_url_to_path(url: Seq<char>) -> Option<Seq<char>>;

/// `url::Url::parse` and then `Url::to_file_path`. The result is taken to be
/// `file_url_to_path` of the argument, which the URL text alone decides.
#[verifier::external_body]
fn file_url_path(arg: &str) -> (r: Option<String>)
    ensures
        match r {
            Some(p) => file_url_to_path(arg@) == Some(p@),
            None => file_url_to_path(arg@) is None,
        },
{
    let url = url::Url::parse(arg).ok()?;
    let path = url.to_file_path().ok()?;
    Some(path.to_string_lossy().into_owned())
}

/// `normalize` with the `file://` conversion already made.
pub fn normalize_with(arg: &str, file_path: Option<String>) -> (r: Option<String>)
    ensures
        match r {
            Some(s) => spec_normalize(arg@, match file_path {
                Some(p) => Some(p@),
                None => None,
            }) == Some(s@),
            None => spec_normalize(arg@, match file_path {
                Some(p) => Some(p@),
                None => None,
            }) is None,
        },
{
    let v = chars_of(arg);
    if v.len() > 0 && v[0] == '-' {
        return None;
    }
    if is_direct_source(arg) {
        return Some(arg.to_owned());
    }
    let lower = lower_vec(v.as_slice());
    if starts_with_str(lower.as_slice(), "file://") {
        return match file_path {
            Some(p) => if is_torrent_file(p.as_str()) {
                Some(p)
            } else {
                None
            },
            None => None,
        };
    }
    if is_torrent_file(arg) {
        Some(arg.to_owned())
    } else {
        None
    }
}

/// The add source one argument stands for (see `spec_normalize`), a
/// `file://` URL counting as the path it converts to.
pub fn normalize(arg: &str) -> (r: Option<String>)
    ensures
        opt_view(r) == spec_normalize(arg@, file_url_to_path(arg@)),
{
    let v = chars_of(arg);
    let lower = lower_vec(v.as_slice());
    let needs_url = starts_with_str(lower.as_slice(), "file://") && !(v.len() > 0 && v[0] == '-')
        && !is_direct_source(arg);
    let file_path = if needs_url {
        file_url_path(arg)
    } else {
        None
    };
    normalize_with(arg, file_path)
}

/// An optional string as characters.
pub open spec fn opt_view(o: Option<String>) -> Option<Seq<char>> {
    match o {
        Some(s) => Some(s@),
        None => None,
    }
}

/// The sources among `outs`, in order.
pub open spec fn somes(outs: Seq<Option<Seq<char>>>) -> Seq<Seq<char>>
    decreases outs.len(),
{
    if outs.len() == 0 {
        Seq::empty()
    } else {
        let r = somes(outs.drop_last());
        match outs.last() {
            Some(s) => r.push(s),
            None => r,
        }
    }
}

/// What one argument stands for, a `file://` URL counting as its path.
pub open spec fn spec_normalize_arg(a: Seq<char>) -> Option<Seq<char>> {
    spec_normalize(a, file_url_to_path(a))
}

/// The add sources among the arguments, in order.
pub open spec fn spec_parse_args(args: Seq<Seq<char>>) -> Seq<Seq<char>> {
    somes(args.map_values(|a: Seq<char>| spec_normalize_arg(a)))
}

/// The sources of two lists of outcomes, one after the other, are the
/// sources of each list in turn.
pub proof fn lemma_somes_concat(a: Seq<Option<Seq<char>>>, b: Seq<Option<Seq<char>>>)
    ensures
        somes(a + b) == somes(a) + somes(b),
    decreases b.len(),
{
    if b.len() == 0 {
        assert(a + b =~= a);
        assert(somes(a) + somes(b) =~= somes(a));
    } else {
        lemma_somes_concat(a, b.drop_last());
        assert((a + b).drop_last() =~= a + b.drop_last());
        assert((a + b).last() == b.last());
        match b.last() {
            Some(x) => {
                assert(somes(a) + somes(b) =~= (somes(a) + somes(b.drop_last())).push(x));
            },
            None => {},
        }
    }
}

/// Parsing two argument lists one after the other gives the sources of the
/// first, then those of the second.
pub proof fn lemma_parse_args_concat(a: Seq<Seq<char>>, b: Seq<Seq<char>>)
    ensures
        spec_parse_args(a + b) == spec_parse_args(a) + spec_parse_args(b),
{
    let f = |x: Seq<char>| spec_normalize_arg(x);
    assert((a + b).map_values(f) =~= a.map_values(f) + b.map_values(f));
    lemma_somes_concat(a.map_values(f), b.map_values(f));
}

/// The add sources among raw process arguments, in order: each argument
/// as `normalize` takes it.
pub fn parse_args(args: Vec<String>) -> (r: Vec<String>)
    ensures
        string_views(r@) == spec_parse_args(string_views(args@)),
{
    let mut out: Vec<String> = Vec::new();
    let ghost outs_all = string_views(args@).map_values(|a: Seq<char>| spec_normalize_arg(a));
    let mut i: usize = 0;
    while i < args.len()
        invariant
            i <= args@.len(),
            outs_all == string_views(args@).map_values(|a: Seq<char>| spec_normalize_arg(a)),
            string_views(out@) == somes(outs_all.subrange(0, i as int)),
        decreases args@.len() - i,
    {
        let n = normalize(args[i].as_str());
        let ghost before = out@;
        proof {
            assert(outs_all.subrange(0, i as int + 1).drop_last() =~= outs_all.subrange(0, i as int));
            assert(outs_all[i as int] == opt_view(n));
        }
        match n {
            Some(s) => {
                out.push(s);
                proof {
                    assert(string_views(out@) =~= string_views(before).push(s@));
                }
            },
            None => {},
        }
        i += 1;
    }
    proof {
        assert(outs_all.subrange(0, args@.len() as int) =~= outs_all);
    }
    out
}

/// `Path::is_absolute` on Unix.
pub open spec fn is_absolute(path: Seq<char>) -> bool {
    path.len() > 0 && path[0] == '/'
}

/// A relative `.torrent` path from a second launch, resolved against that
/// launch's working directory; direct sources and absolute paths pass.
pub open spec fn spec_absolutize(source: Seq<char>, cwd: Seq<char>) -> Seq<char> {
    if spec_is_direct_source(source) || is_absolute(source) {
        source
    } else {
        join_path(cwd, source)
    }
}

pub fn absolutize(source: String, cwd: &str) -> (r: String)
    ensures
        r@ == spec_absolutize(source@, cwd@),
{
    if is_direct_source(source.as_str()) {
        return source;
    }
    let v = chars_of(source.as_str());
    if v.len() > 0 && v[0] == '/' {
        source
    } else {
        join(cwd, source.as_str())
    }
}

/// The sources waiting for the frontend, oldest first.
pub struct Pending {
    pub sources: Vec<String>,
}

impl Pending {
    pub fn new() -> (r: Pending)
        ensures
            r.sources@.len() == 0,
    {
        Pending { sources: Vec::new() }
    }

    /// Queue sources behind those already waiting.
    pub fn queue(&mut self, sources: Vec<String>)
        ensures
            string_views(final(self).sources@) == string_views(old(self).sources@) + string_views(sources@),
    {
        let ghost start = string_views(self.sources@);
        let ghost added = string_views(sources@);
        let mut rest = sources;
        let n = rest.len();
        let mut k: usize = 0;
        while k < n
            invariant
                k <= n,
                rest@.len() == n - k,
                added.len() == n,
                forall|j: int| 0 <= j < rest@.len() ==> #[trigger] rest@[j]@ == added[k + j],
                string_views(self.sources@) == start + added.subrange(0, k as int),
            decreases n - k,
        {
            let s = rest.remove(0);
            proof {
                assert(s@ == added[k as int]);
            }
            let ghost before = self.sources@;
            self.sources.push(s);
            proof {
                assert(string_views(self.sources@) =~= string_views(before).push(s@));
            }
            k += 1;
            assert(string_views(self.sources@) =~= start + added.subrange(0, k as int));
            proof {
                assert forall|j: int| 0 <= j < rest@.len() implies #[trigger] rest@[j]@ == added[k + j] by {}
            }
        }
        assert(added.subrange(0, n as int) =~= added);
    }

    /// Hand every waiting source over, oldest first, and empty the queue.
    pub fn take(&mut self) -> (r: Vec<String>)
        ensures
            r@ == old(self).sources@,
            final(self).sources@.len() == 0,
    {
        let mut out: Vec<String> = Vec::new();
        std::mem::swap(&mut out, &mut self.sources);
        out
    }
}

/// The largest torrent file read for an add.
pub const MAX_TORRENT_BYTES: u64 = 10485760;

/// Why a dropped file is not read as a torrent.
#[derive(Debug, Clone, Copy, PartialEq, Eq, Structural)]
pub enum TorrentReadRefusal {
    NotTorrent,
    TooLarge,
    NotBencode,
}

impl TorrentReadRefusal {
    /// The error text the frontend gets.
    pub fn message(&self) -> (r: String)
        ensures
            r@ == match *self {
                TorrentReadRefusal::NotTorrent => "not a .torrent file"@,
                TorrentReadRefusal::TooLarge => "torrent file too large"@,
                TorrentReadRefusal::NotBencode => "not a valid torrent file"@,
            },
    {
        match self {
            TorrentReadRefusal::NotTorrent => "not a .torrent file".to_owned(),
            TorrentReadRefusal::TooLarge => "torrent file too large".to_owned(),
            TorrentReadRefusal::NotBencode => "not a valid torrent file".to_owned(),
        }
    }
}

/// Reading a file for an add is fenced to the one shape it needs, before
/// any byte is read: a `.torrent` name and at most `MAX_TORRENT_BYTES`.
pub fn check_torrent_read(path: &str, size: u64) -> (r: Result<(), TorrentReadRefusal>)
    ensures
        r == if !spec_is_torrent_file(path@) {
            Err(TorrentReadRefusal::NotTorrent)
        } else if size > MAX_TORRENT_BYTES {
            Err(TorrentReadRefusal::TooLarge)
        } else {
            Ok(())
        },
{
    if !is_torrent_file(path) {
        return Err(TorrentReadRefusal::NotTorrent);
    }
    if size > MAX_TORRENT_BYTES {
        return Err(TorrentReadRefusal::TooLarge);
    }
    Ok(())
}

/// A torrent file's bytes as an add source: base64, once they start as a
/// bencoded dictionary (`d`).
pub fn torrent_payload(bytes: &[u8]) -> (r: Result<String, TorrentReadRefusal>)
    requires
        bytes@.len() <= 3 * ((usize::MAX - 4) / 4),
    ensures
        match r {
            Ok(s) => bytes@.len() > 0 && bytes@[0] == 0x64u8 && s@ == base64_encoded(bytes@),
            Err(e) => e == TorrentReadRefusal::NotBencode && !(bytes@.len() > 0 && bytes@[0] == 0x64u8),
        },
{
    if bytes.len() == 0 || bytes[0] != 0x64u8 {
        return Err(TorrentReadRefusal::NotBencode);
    }
    Ok(base64_encode(bytes))
}

} // verus!
