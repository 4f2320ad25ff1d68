//! Starting the daemon: the per-run control token, the configurations tried
//! in turn (the desired one, then the last one that started), where the
//! last good one is kept, and the checks each configuration must pass.

use vstd::prelude::*;
use rand::RngCore;
use crate::config::{Config, join, join_path};
use crate::paths::{path_eq, paths_equal};
use crate::text::{chars_of, eq_chars, string_of, string_views};

verus! {

/// The lowercase hex digits, by value.
pub open spec fn hex_digits() -> Seq<char> {
    seq!['0', '1', '2', '3', '4', '5', '6', '7', '8', '9', 'a', 'b', 'c', 'd', 'e', 'f']
}

/// The lowercase hex digit of `n` (below 16).
pub open spec fn hex_lower(n: u8) -> char {
    hex_digits()[n as int]
}

/// Bytes as lowercase hex, two digits each.
pub open spec fn hex_text(bytes: Seq<u8>) -> Seq<char>
    decreases bytes.len(),
{
    if bytes.len() == 0 {
        Seq::empty()
    } else {
        let b = bytes.last();
        hex_text(bytes.drop_last()) + seq![hex_lower(b / 16), hex_lower(b % 16)]
    }
}

fn hex_digit(n: u8) -> (c: char)
    requires
        n < 16,
    ensures
        c == hex_lower(n),
{
    let table: [char; 16] = ['0', '1', '2', '3', '4', '5', '6', '7', '8', '9', 'a', 'b', 'c', 'd', 'e', 'f'];
    assert(table@ =~= hex_digits());
    table[n as usize]
}

/// `bytes` as lowercase hex.
pub fn hex_encode(bytes: &[u8]) -> (r: String)
    ensures
        r@ == hex_text(bytes@),
{
    let mut out: Vec<char> = Vec::new();
    let mut i: usize = 0;
    while i < bytes.len()
        invariant
            i <= bytes@.len(),
            out@ == hex_text(bytes@.subrange(0, i as int)),
        decreases bytes@.len() - i,
    {
        let b = bytes[i];
        out.push(hex_digit(b / 16));
        out.push(hex_digit(b % 16));
        proof {
            let s = bytes@.subrange(0, i as int + 1);
            assert(s.drop_last() =~= bytes@.subrange(0, i as int));
            assert(out@ =~= hex_text(s));
        }
        i += 1;
    }
    assert(bytes@.subrange(0, bytes@.len() as int) =~= bytes@);
    string_of(out.as_slice())
}

/// Thirty-two bytes from the thread's cryptographic generator
/// (`rand::rng().fill_bytes`). They are random: only their number is
/// stated.
#[verifier::external_body]
fn random_bytes() -> (r: Vec<u8>)
    ensures
        r@.len() == 32,
{
    let mut bytes = [0u8; 32];
    rand::rng().fill_bytes(&mut bytes);
    bytes.to_vec()
}

/// A fresh control token: 256 random bits as 64 lowercase hex digits.
pub fn generate_token() -> (r: String)
    ensures
        exists|bytes: Seq<u8>| bytes.len() == 32 && r@ == hex_text(bytes),
{
    let bytes = random_bytes();
    hex_encode(bytes.as_slice())
}

/// Two configurations with the same settings.
pub open spec fn same_config(a: Config, b: Config) -> bool {
    &&& a.network.control_port == b.network.control_port
    &&& a.network.lan_port == b.network.lan_port
    &&& a.network.upnp_enabled == b.network.upnp_enabled
    &&& a.network.server_name@ == b.network.server_name@
    &&& path_eq(a.downloads.dir@, b.downloads.dir@)
    &&& a.downloads.fallback_app@ == b.downloads.fallback_app@
    &&& string_views(a.downloads.fallback_args@) == string_views(b.downloads.fallback_args@)
    &&& a.downloads.auto_download == b.downloads.auto_download
    &&& a.downloads.persist_by_default == b.downloads.persist_by_default
    &&& a.downloads.share_by_default == b.downloads.share_by_default
    &&& a.downloads.autoplay == b.downloads.autoplay
    &&& string_views(a.media.extensions@) == string_views(b.media.extensions@)
    &&& a.player.command@ == b.player.command@
    &&& string_views(a.player.args@) == string_views(b.player.args@)
}

pub(crate) fn same_text(a: &String, b: &String) -> (r: bool)
    ensures
        r == (a@ == b@),
{
    let av = chars_of(a.as_str());
    let bv = chars_of(b.as_str());
    eq_chars(av.as_slice(), bv.as_slice())
}

fn same_texts(a: &Vec<String>, b: &Vec<String>) -> (r: bool)
    ensures
        r == (string_views(a@) == string_views(b@)),
{
    if a.len() != b.len() {
        assert(string_views(a@).len() != string_views(b@).len());
        return false;
    }
    let mut i: usize = 0;
    while i < a.len()
        invariant
            i <= a@.len(),
            a@.len() == b@.len(),
            forall|j: int| 0 <= j < i ==> a@[j]@ == b@[j]@,
        decreases a@.len() - i,
    {
        if !same_text(&a[i], &b[i]) {
            assert(string_views(a@)[i as int] != string_views(b@)[i as int]);
            return false;
        }
        i += 1;
    }
    assert(string_views(a@) =~= string_views(b@));
    true
}

/// Whether two configurations hold the same settings.
pub fn configs_equal(a: &Config, b: &Config) -> (r: bool)
    ensures
        r == same_config(*a, *b),
{
    a.network.control_port == b.network.control_port && a.network.lan_port == b.network.lan_port
        && a.network.upnp_enabled == b.network.upnp_enabled && same_text(
        &a.network.server_name,
        &b.network.server_name,
    ) && paths_equal(a.downloads.dir.as_str(), b.downloads.dir.as_str()) && same_text(
        &a.downloads.fallback_app,
        &b.downloads.fallback_app,
    ) && same_texts(&a.downloads.fallback_args, &b.downloads.fallback_args) && a.downloads.auto_download
        == b.downloads.auto_download && a.downloads.persist_by_default == b.downloads.persist_by_default
        && a.downloads.share_by_default == b.downloads.share_by_default && a.downloads.autoplay
        == b.downloads.autoplay && same_texts(&a.media.extensions, &b.media.extensions) && same_text(
        &a.player.command,
        &b.player.command,
    ) && same_texts(&a.player.args, &b.player.args)
}

/// The configurations a start tries, in order: the desired one, then the
/// last one that started, unless it is the same.
pub fn candidate_configs(desired: Config, last_good: Option<Config>) -> (r: Vec<Config>)
    ensures
        r@.len() >= 1,
        r@[0] == desired,
        match last_good {
            Some(g) => if same_config(g, desired) {
                r@.len() == 1
            } else {
                r@.len() == 2 && r@[1] == g
            },
            None => r@.len() == 1,
        },
{
    match last_good {
        Some(g) => {
            if configs_equal(&g, &desired) {
                vec![desired]
            } else {
                vec![desired, g]
            }
        },
        None => vec![desired],
    }
}

/// Where the last configuration that started is kept.
pub fn last_good_path(data_dir: &str) -> (r: String)
    ensures
        r@ == join_path(data_dir@, "config.last-good.toml"@),
{
    join(data_dir, "config.last-good.toml")
}

/// A check a configuration must pass before the daemon owns anything.
#[derive(Debug, Clone, PartialEq, Eq)]
pub enum Probe {
    /// The control port binds on the loopback address.
    ControlPort(u16),
    /// The LAN port binds on every address.
    LanPort(u16),
    /// The downloads directory can be written.
    DownloadsDir(String),
}

/// The checks a configuration passes before a start: its control port, then
/// its downloads directory.
pub fn start_probes(config: &Config) -> (r: Vec<Probe>)
    ensures
        r@.len() == 2,
        r@[0] == Probe::ControlPort(config.network.control_port),
        r@[1] matches Probe::DownloadsDir(d) && d@ == config.downloads.dir@,
{
    vec![Probe::ControlPort(config.network.control_port), Probe::DownloadsDir(config.downloads.dir.clone())]
}

/// The checks a settings change passes before it is saved: a
/// restart-required field is checked only when the change moves it away both
/// from what was saved and from what runs, so saving a value already in
/// effect is never refused (the LAN port only while DLNA is on).
pub open spec fn set_config_probe_views(merged: Config, saved: Config, running: Config) -> Seq<(int, Seq<char>)> {
    let c = if merged.network.control_port != saved.network.control_port && merged.network.control_port
        != running.network.control_port {
        seq![(0int, Seq::<char>::empty())]
    } else {
        Seq::empty()
    };
    let l = if merged.network.upnp_enabled && merged.network.lan_port != saved.network.lan_port
        && merged.network.lan_port != running.network.lan_port {
        seq![(1int, Seq::<char>::empty())]
    } else {
        Seq::empty()
    };
    let d = if !path_eq(merged.downloads.dir@, saved.downloads.dir@) && !path_eq(merged.downloads.dir@, running.downloads.dir@) {
        seq![(2int, merged.downloads.dir@)]
    } else {
        Seq::empty()
    };
    c + l + d
}

/// A probe as (kind, directory): 0 control port, 1 LAN port, 2 directory.
pub open spec fn probe_view(p: Probe) -> (int, Seq<char>) {
    match p {
        Probe::ControlPort(_) => (0, Seq::empty()),
        Probe::LanPort(_) => (1, Seq::empty()),
        Probe::DownloadsDir(d) => (2, d@),
    }
}

pub fn set_config_probes(merged: &Config, saved: &Config, running: &Config) -> (r: Vec<Probe>)
    ensures
        r@.map_values(|p: Probe| probe_view(p)) == set_config_probe_views(*merged, *saved, *running),
        forall|i: int|
            0 <= i < r@.len() ==> match #[trigger] r@[i] {
                Probe::ControlPort(p) => p == merged.network.control_port,
                Probe::LanPort(p) => p == merged.network.lan_port,
                Probe::DownloadsDir(_) => true,
            },
{
    let mut out: Vec<Probe> = Vec::new();
    if merged.network.control_port != saved.network.control_port && merged.network.control_port
        != running.network.control_port {
        out.push(Probe::ControlPort(merged.network.control_port));
    }
    let ghost after_c = out@;
    if merged.network.upnp_enabled && merged.network.lan_port != saved.network.lan_port && merged.network.lan_port
        != running.network.lan_port {
        out.push(Probe::LanPort(merged.network.lan_port));
    }
    let ghost after_l = out@;
    if !paths_equal(merged.downloads.dir.as_str(), saved.downloads.dir.as_str()) && !paths_equal(
        merged.downloads.dir.as_str(),
        running.downloads.dir.as_str(),
    ) {
        out.push(Probe::DownloadsDir(merged.downloads.dir.clone()));
    }
    assert(out@.map_values(|p: Probe| probe_view(p)) =~= set_config_probe_views(*merged, *saved, *running));
    out
}

} // verus!
