//! The settings in their protocol form: a JSON object with one object per
//! section, and a settings change, which merges a patch into that object
//! and reads the settings back.

use vstd::prelude::*;
use crate::config::{Config, ConfigDiff, ConfigError, DownloadsConfig, MediaConfig, NetworkConfig, PlayerConfig,
    config_valid, validation_error_matches, spec_expand_tilde};
use crate::json::{Json, JsonV, jv, ev, key_pos, first_key, find_key, lemma_jv_object, merge_v, apply_patch};
use crate::range::{is_digit, decimal_value, parse_u64_chars};
use crate::library::{decimal, push_decimal};
use crate::text::{chars_of, string_of, string_views};

verus! {

/// The network section as plain values.
pub struct NetworkV {
    pub control_port: u16,
    pub lan_port: u16,
    pub upnp_enabled: bool,
    pub server_name: Seq<char>,
}

/// The downloads section as plain values.
pub struct DownloadsV {
    pub dir: Seq<char>,
    pub fallback_app: Seq<char>,
    pub fallback_args: Seq<Seq<char>>,
    pub auto_download: bool,
    pub persist_by_default: bool,
    pub share_by_default: bool,
    pub autoplay: bool,
}

/// The player section as plain values.
pub struct PlayerV {
    pub command: Seq<char>,
    pub args: Seq<Seq<char>>,
}

/// A configuration as plain values.
pub struct ConfigV {
    pub network: NetworkV,
    pub downloads: DownloadsV,
    pub extensions: Seq<Seq<char>>,
    pub player: PlayerV,
}

pub open spec fn config_v(c: Config) -> ConfigV {
    ConfigV {
        network: NetworkV {
            control_port: c.network.control_port,
            lan_port: c.network.lan_port,
            upnp_enabled: c.network.upnp_enabled,
            server_name: c.network.server_name@,
        },
        downloads: DownloadsV {
            dir: c.downloads.dir@,
            fallback_app: c.downloads.fallback_app@,
            fallback_args: string_views(c.downloads.fallback_args@),
            auto_download: c.downloads.auto_download,
            persist_by_default: c.downloads.persist_by_default,
            share_by_default: c.downloads.share_by_default,
            autoplay: c.downloads.autoplay,
        },
        extensions: string_views(c.media.extensions@),
        player: PlayerV { command: c.player.command@, args: string_views(c.player.args@) },
    }
}

/// A port read from JSON: a number written as decimal digits alone (a
/// non-negative integer) whose value fits in 16 bits.
pub open spec fn port_v(v: JsonV) -> Option<u16> {
    match v {
        JsonV::Number(t) => if t.len() > 0 && (forall|i: int| 0 <= i < t.len() ==> is_digit(#[trigger] t[i]))
            && decimal_value(t) <= u16::MAX {
            Some(decimal_value(t) as u16)
        } else {
            None
        },
        _ => None,
    }
}

pub open spec fn flag_v(v: JsonV) -> Option<bool> {
    match v {
        JsonV::Bool(b) => Some(b),
        _ => None,
    }
}

pub open spec fn text_v(v: JsonV) -> Option<Seq<char>> {
    match v {
        JsonV::Str(s) => Some(s),
        _ => None,
    }
}

/// A list of strings: an array whose items are all strings.
pub open spec fn texts_v(v: JsonV) -> Option<Seq<Seq<char>>> {
    match v {
        JsonV::Array(items) => if forall|i: int| 0 <= i < items.len() ==> (#[trigger] items[i]) is Str {
            Some(Seq::new(items.len(), |i: int| items[i]->Str_0))
        } else {
            None
        },
        _ => None,
    }
}

/// Field `name`, the `i`-th of a section's `n` fields: looked up by name
/// in an object (its first entry with that key), or by position in an
/// array of exactly `n` items.
pub open spec fn field_v(s: JsonV, name: Seq<char>, i: int, n: nat) -> Option<JsonV> {
    match s {
        JsonV::Object(b) => {
            let p = key_pos(b, name);
            if p >= 0 {
                Some(b[p].1)
            } else {
                None
            }
        },
        JsonV::Array(a) => if a.len() == n && 0 <= i < n {
            Some(a[i])
        } else {
            None
        },
        _ => None,
    }
}

pub open spec fn port_at(s: JsonV, name: Seq<char>, i: int, n: nat) -> Option<u16> {
    match field_v(s, name, i, n) {
        Some(v) => port_v(v),
        None => None,
    }
}

pub open spec fn flag_at(s: JsonV, name: Seq<char>, i: int, n: nat) -> Option<bool> {
    match field_v(s, name, i, n) {
        Some(v) => flag_v(v),
        None => None,
    }
}

pub open spec fn text_at(s: JsonV, name: Seq<char>, i: int, n: nat) -> Option<Seq<char>> {
    match field_v(s, name, i, n) {
        Some(v) => text_v(v),
        None => None,
    }
}

pub open spec fn texts_at(s: JsonV, name: Seq<char>, i: int, n: nat) -> Option<Seq<Seq<char>>> {
    match field_v(s, name, i, n) {
        Some(v) => texts_v(v),
        None => None,
    }
}

pub open spec fn network_from(s: JsonV) -> Option<NetworkV> {
    match (
        port_at(s, "control_port"@, 0, 4),
        port_at(s, "lan_port"@, 1, 4),
        flag_at(s, "upnp_enabled"@, 2, 4),
        text_at(s, "server_name"@, 3, 4),
    ) {
        (Some(a), Some(b), Some(c), Some(d)) => Some(
            NetworkV { control_port: a, lan_port: b, upnp_enabled: c, server_name: d },
        ),
        _ => None,
    }
}

pub open spec fn downloads_from(s: JsonV) -> Option<DownloadsV> {
    match (
        text_at(s, "dir"@, 0, 7),
        text_at(s, "fallback_app"@, 1, 7),
        texts_at(s, "fallback_args"@, 2, 7),
        flag_at(s, "auto_download"@, 3, 7),
        flag_at(s, "persist_by_default"@, 4, 7),
        flag_at(s, "share_by_default"@, 5, 7),
        flag_at(s, "autoplay"@, 6, 7),
    ) {
        (Some(a), Some(b), Some(c), Some(d), Some(e), Some(f), Some(g)) => Some(
            DownloadsV {
                dir: a,
                fallback_app: b,
                fallback_args: c,
                auto_download: d,
                persist_by_default: e,
                share_by_default: f,
                autoplay: g,
            },
        ),
        _ => None,
    }
}

pub open spec fn player_from(s: JsonV) -> Option<PlayerV> {
    match (text_at(s, "command"@, 0, 2), texts_at(s, "args"@, 1, 2)) {
        (Some(a), Some(b)) => Some(PlayerV { command: a, args: b }),
        _ => None,
    }
}

/// The settings read back from their protocol form, or `None` when a
/// section or field is missing or holds a value of the wrong type. Fields
/// a section does not have are ignored.
pub open spec fn config_from_v(j: JsonV) -> Option<ConfigV> {
    match (field_v(j, "network"@, 0, 4), field_v(j, "downloads"@, 1, 4), field_v(j, "media"@, 2, 4), field_v(
        j,
        "player"@,
        3,
        4,
    )) {
        (Some(n), Some(d), Some(m), Some(p)) => match (
            network_from(n),
            downloads_from(d),
            texts_at(m, "extensions"@, 0, 1),
            player_from(p),
        ) {
            (Some(nv), Some(dv), Some(ev), Some(pv)) => Some(
                ConfigV { network: nv, downloads: dv, extensions: ev, player: pv },
            ),
            _ => None,
        },
        _ => None,
    }
}

/// Field `name` of the section `s` (see `field_v`).
fn field_at<'a>(s: &'a Json, name: &str, i: usize, n: usize) -> (r: Option<&'a Json>)
    ensures
        match r {
            Some(v) => field_v(jv(*s), name@, i as int, n as nat) == Some(jv(*v)),
            None => field_v(jv(*s), name@, i as int, n as nat) is None,
        },
{
    match s {
        Json::Object(entries) => {
            proof {
                lemma_jv_object(*entries);
            }
            let k = String::from_str(name);
            match find_key(entries, &k) {
                Some(j) => {
                    proof {
                        assert(first_key(ev(entries@), name@, j as int));
                        assert(key_pos(ev(entries@), name@) == j as int);
                    }
                    Some(&entries[j].1)
                },
                None => {
                    proof {
                        assert(!exists|j: int| first_key(ev(entries@), name@, j));
                    }
                    None
                },
            }
        },
        Json::Array(items) => {
            if items.len() == n && i < n {
                Some(&items[i])
            } else {
                None
            }
        },
        _ => None,
    }
}

fn port_of(v: &Json) -> (r: Option<u16>)
    ensures
        r == port_v(jv(*v)),
{
    match v {
        Json::Number(t) => {
            let cs = chars_of(t.as_str());
            if cs.len() == 0 || cs[0] == '+' {
                return None;
            }
            proof {
                assert(cs@ == t@);
                assert(crate::range::unsigned_digits(cs@) == cs@);
            }
            let parsed = parse_u64_chars(cs.as_slice());
            match parsed {
                Some(x) => {
                    if x <= 65535 {
                        Some(x as u16)
                    } else {
                        None
                    }
                },
                None => None,
            }
        },
        _ => None,
    }
}

fn flag_of(v: &Json) -> (r: Option<bool>)
    ensures
        r == flag_v(jv(*v)),
{
    match v {
        Json::Bool(b) => Some(*b),
        _ => None,
    }
}

fn text_of(v: &Json) -> (r: Option<String>)
    ensures
        match r {
            Some(s) => text_v(jv(*v)) == Some(s@),
            None => text_v(jv(*v)) is None,
        },
{
    match v {
        Json::Str(s) => Some(s.clone()),
        _ => None,
    }
}

fn texts_of(v: &Json) -> (r: Option<Vec<String>>)
    ensures
        match r {
            Some(s) => texts_v(jv(*v)) == Some(string_views(s@)),
            None => texts_v(jv(*v)) is None,
        },
{
    match v {
        Json::Array(items) => {
            let ghost iv = jv(*v)->Array_0;
            let mut out: Vec<String> = Vec::new();
            let mut i: usize = 0;
            while i < items.len()
                invariant
                    i <= items@.len(),
                    iv == jv(*v)->Array_0,
                    jv(*v) == jv(Json::Array(*items)),
                    iv.len() == items@.len(),
                    forall|x: int| 0 <= x < items@.len() ==> iv[x] == jv(#[trigger] items@[x]),
                    out@.len() == i,
                    forall|x: int| 0 <= x < i ==> (#[trigger] iv[x]) is Str && iv[x]->Str_0 == out@[x]@,
                decreases items@.len() - i,
            {
                match &items[i] {
                    Json::Str(s) => {
                        out.push(s.clone());
                    },
                    _ => {
                        assert(!(iv[i as int] is Str));
                        return None;
                    },
                }
                i += 1;
            }
            proof {
                assert(string_views(out@) =~= Seq::new(iv.len(), |x: int| iv[x]->Str_0));
            }
            Some(out)
        },
        _ => None,
    }
}

/// The settings read back from their protocol form (see `config_from_v`).
pub fn config_from_json(j: &Json) -> (r: Option<Config>)
    ensures
        match r {
            Some(c) => config_from_v(jv(*j)) == Some(config_v(c)),
            None => config_from_v(jv(*j)) is None,
        },
{
    let n = field_at(j, "network", 0, 4)?;
    let d = field_at(j, "downloads", 1, 4)?;
    let m = field_at(j, "media", 2, 4)?;
    let p = field_at(j, "player", 3, 4)?;
    let control_port = port_of(field_at(n, "control_port", 0, 4)?)?;
    let lan_port = port_of(field_at(n, "lan_port", 1, 4)?)?;
    let upnp_enabled = flag_of(field_at(n, "upnp_enabled", 2, 4)?)?;
    let server_name = text_of(field_at(n, "server_name", 3, 4)?)?;
    let dir = text_of(field_at(d, "dir", 0, 7)?)?;
    let fallback_app = text_of(field_at(d, "fallback_app", 1, 7)?)?;
    let fallback_args = texts_of(field_at(d, "fallback_args", 2, 7)?)?;
    let auto_download = flag_of(field_at(d, "auto_download", 3, 7)?)?;
    let persist_by_default = flag_of(field_at(d, "persist_by_default", 4, 7)?)?;
    let share_by_default = flag_of(field_at(d, "share_by_default", 5, 7)?)?;
    let autoplay = flag_of(field_at(d, "autoplay", 6, 7)?)?;
    let extensions = texts_of(field_at(m, "extensions", 0, 1)?)?;
    let command = text_of(field_at(p, "command", 0, 2)?)?;
    let args = texts_of(field_at(p, "args", 1, 2)?)?;
    Some(
        Config {
            network: NetworkConfig { control_port, lan_port, upnp_enabled, server_name },
            downloads: DownloadsConfig {
                dir,
                fallback_app,
                fallback_args,
                auto_download,
                persist_by_default,
                share_by_default,
                autoplay,
            },
            media: MediaConfig { extensions },
            player: PlayerConfig { command, args },
        },
    )
}

pub open spec fn port_json(p: u16) -> JsonV {
    JsonV::Number(decimal(p as nat))
}

pub open spec fn texts_json(v: Seq<Seq<char>>) -> JsonV {
    JsonV::Array(Seq::new(v.len(), |i: int| JsonV::Str(v[i])))
}

/// The protocol form of the settings: one object per section, each field
/// under its own name, ports as decimal numbers, lists as arrays of strings.
pub open spec fn spec_config_json(c: ConfigV) -> JsonV {
    JsonV::Object(
        seq![
            ("network"@, JsonV::Object(seq![
                ("control_port"@, port_json(c.network.control_port)),
                ("lan_port"@, port_json(c.network.lan_port)),
                ("upnp_enabled"@, JsonV::Bool(c.network.upnp_enabled)),
                ("server_name"@, JsonV::Str(c.network.server_name)),
            ])),
            ("downloads"@, JsonV::Object(seq![
                ("dir"@, JsonV::Str(c.downloads.dir)),
                ("fallback_app"@, JsonV::Str(c.downloads.fallback_app)),
                ("fallback_args"@, texts_json(c.downloads.fallback_args)),
                ("auto_download"@, JsonV::Bool(c.downloads.auto_download)),
                ("persist_by_default"@, JsonV::Bool(c.downloads.persist_by_default)),
                ("share_by_default"@, JsonV::Bool(c.downloads.share_by_default)),
                ("autoplay"@, JsonV::Bool(c.downloads.autoplay)),
            ])),
            ("media"@, JsonV::Object(seq![("extensions"@, texts_json(c.extensions))])),
            ("player"@, JsonV::Object(seq![
                ("command"@, JsonV::Str(c.player.command)),
                ("args"@, texts_json(c.player.args)),
            ])),
        ],
    )
}

fn entry(k: &str, v: Json) -> (r: (String, Json))
    ensures
        r.0@ == k@,
        r.1 == v,
{
    (String::from_str(k), v)
}

fn object(entries: Vec<(String, Json)>) -> (r: Json)
    ensures
        jv(r) == JsonV::Object(ev(entries@)),
{
    proof {
        lemma_jv_object(entries);
    }
    Json::Object(entries)
}

fn port_json_of(p: u16) -> (r: Json)
    ensures
        jv(r) == port_json(p),
{
    let mut v: Vec<char> = Vec::new();
    push_decimal(&mut v, p as u64);
    proof {
        assert(v@ =~= decimal(p as nat));
    }
    Json::Number(string_of(v.as_slice()))
}

fn str_json(s: &String) -> (r: Json)
    ensures
        jv(r) == JsonV::Str(s@),
{
    Json::Str(s.clone())
}

fn texts_json_of(v: &Vec<String>) -> (r: Json)
    ensures
        jv(r) == texts_json(string_views(v@)),
{
    let mut out: Vec<Json> = Vec::new();
    let mut i: usize = 0;
    while i < v.len()
        invariant
            i <= v@.len(),
            out@.len() == i,
            forall|x: int| 0 <= x < i ==> jv(#[trigger] out@[x]) == JsonV::Str(v@[x]@),
        decreases v@.len() - i,
    {
        out.push(Json::Str(v[i].clone()));
        i += 1;
    }
    let r = Json::Array(out);
    proof {
        let a = jv(r)->Array_0;
        assert(a.len() == out@.len());
        assert forall|x: int| 0 <= x < a.len() implies a[x] == texts_json(string_views(v@))->Array_0[x] by {
            assert(a[x] == jv(out@[x]));
        }
        assert(a =~= texts_json(string_views(v@))->Array_0);
    }
    r
}

/// The settings in their protocol form.
pub fn config_json(c: &Config) -> (r: Json)
    ensures
        jv(r) == spec_config_json(config_v(*c)),
{
    let n0 = entry("control_port", port_json_of(c.network.control_port));
    let n1 = entry("lan_port", port_json_of(c.network.lan_port));
    let n2 = entry("upnp_enabled", Json::Bool(c.network.upnp_enabled));
    let n3 = entry("server_name", str_json(&c.network.server_name));
    let ne = vec![n0, n1, n2, n3];
    proof {
        assert(ev(ne@) =~= seq![(n0.0@, jv(n0.1)), (n1.0@, jv(n1.1)), (n2.0@, jv(n2.1)), (n3.0@, jv(n3.1))]);
    }
    let network = object(ne);
    let d0 = entry("dir", str_json(&c.downloads.dir));
    let d1 = entry("fallback_app", str_json(&c.downloads.fallback_app));
    let d2 = entry("fallback_args", texts_json_of(&c.downloads.fallback_args));
    let d3 = entry("auto_download", Json::Bool(c.downloads.auto_download));
    let d4 = entry("persist_by_default", Json::Bool(c.downloads.persist_by_default));
    let d5 = entry("share_by_default", Json::Bool(c.downloads.share_by_default));
    let d6 = entry("autoplay", Json::Bool(c.downloads.autoplay));
    let de = vec![d0, d1, d2, d3, d4, d5, d6];
    proof {
        assert(ev(de@) =~= seq![
            (d0.0@, jv(d0.1)),
            (d1.0@, jv(d1.1)),
            (d2.0@, jv(d2.1)),
            (d3.0@, jv(d3.1)),
            (d4.0@, jv(d4.1)),
            (d5.0@, jv(d5.1)),
            (d6.0@, jv(d6.1)),
        ]);
    }
    let downloads = object(de);
    let m0 = entry("extensions", texts_json_of(&c.media.extensions));
    let me = vec![m0];
    proof {
        assert(ev(me@) =~= seq![(m0.0@, jv(m0.1))]);
    }
    let media = object(me);
    let p0 = entry("command", str_json(&c.player.command));
    let p1 = entry("args", texts_json_of(&c.player.args));
    let pe = vec![p0, p1];
    proof {
        assert(ev(pe@) =~= seq![(p0.0@, jv(p0.1)), (p1.0@, jv(p1.1))]);
    }
    let player = object(pe);
    let t0 = entry("network", network);
    let t1 = entry("downloads", downloads);
    let t2 = entry("media", media);
    let t3 = entry("player", player);
    let te = vec![t0, t1, t2, t3];
    proof {
        assert(ev(te@) =~= seq![(t0.0@, jv(t0.1)), (t1.0@, jv(t1.1)), (t2.0@, jv(t2.1)), (t3.0@, jv(t3.1))]);
    }
    object(te)
}

/// Why a settings change was refused.
#[derive(Debug)]
pub enum DiffError {
    /// The patch names fields the settings lack: their dotted paths, in
    /// the patch's order.
    UnknownFields(Vec<String>),
    /// After the merge a field is missing or holds a value of the wrong type.
    Malformed,
    /// The merged settings break a rule.
    Invalid(ConfigError),
}

/// The settings `c` in their protocol form with `patch` merged in, and the
/// patch's unknown fields.
pub open spec fn patched(c: Config, patch: JsonV) -> (JsonV, Seq<Seq<char>>) {
    merge_v(spec_config_json(config_v(c)), patch, Seq::empty())
}

/// `v` with a leading `~` of its downloads directory replaced by `home`.
pub open spec fn expanded_v(v: ConfigV, home: Option<Seq<char>>) -> ConfigV {
    ConfigV { downloads: DownloadsV { dir: spec_expand_tilde(v.downloads.dir, home), ..v.downloads }, ..v }
}

/// Whether `c` is the settings `j` reads back as, with the downloads
/// directory expanded against some home directory.
pub open spec fn decodes_expanded(j: JsonV, c: Config) -> bool {
    &&& config_from_v(j) is Some
    &&& exists|home: Option<Seq<char>>| config_v(c) == #[trigger] expanded_v(config_from_v(j)->Some_0, home)
}

impl Config {
    /// A settings change: `patch` merged into these settings (an object
    /// merges field by field, any other value replaces), refused when it
    /// names a field the settings lack, when the result cannot be read back
    /// as settings, or when it breaks a rule. The settings themselves are
    /// left as they are.
    pub fn diff(&self, patch: Json) -> (r: Result<ConfigDiff, DiffError>)
        ensures
            match r {
                Err(DiffError::UnknownFields(u)) => patched(*self, jv(patch)).1.len() > 0 && string_views(u@)
                    == patched(*self, jv(patch)).1,
                Err(DiffError::Malformed) => patched(*self, jv(patch)).1.len() == 0 && config_from_v(
                    patched(*self, jv(patch)).0,
                ) is None,
                Err(DiffError::Invalid(e)) => patched(*self, jv(patch)).1.len() == 0 && exists|c: Config|
                    decodes_expanded(patched(*self, jv(patch)).0, c) && !config_valid(c)
                        && validation_error_matches(c, e),
                Ok(d) => patched(*self, jv(patch)).1.len() == 0 && decodes_expanded(
                    patched(*self, jv(patch)).0,
                    d.merged,
                ) && config_valid(d.merged),
            },
            jv(patch) == JsonV::Object(Seq::empty()) ==> patched(*self, jv(patch)).1.len() == 0 && config_from_v(
                patched(*self, jv(patch)).0,
            ) == Some(config_v(*self)),
    {
        proof {
            lemma_empty_patch_keeps_settings(*self);
        }
        let ghost pv = jv(patch);
        let base = config_json(self);
        let merged = match apply_patch(base, patch) {
            Ok(j) => j,
            Err(unknown) => return Err(DiffError::UnknownFields(unknown)),
        };
        let mut next = match config_from_json(&merged) {
            Some(c) => c,
            None => return Err(DiffError::Malformed),
        };
        let ghost decoded = next;
        next.expand_paths();
        proof {
            let v = config_v(decoded);
            let home = choose|h: Option<Seq<char>>| next.downloads.dir@ == spec_expand_tilde(decoded.downloads.dir@, h);
            assert(config_from_v(jv(merged)) == Some(v));
            assert(config_v(next) == expanded_v(v, home));
            assert(config_from_v(jv(merged))->Some_0 == v);
            assert(config_v(next) == expanded_v(config_from_v(jv(merged))->Some_0, home));
            assert(exists|h: Option<Seq<char>>| config_v(next) == #[trigger] expanded_v(config_from_v(jv(merged))->Some_0, h));
            assert(decodes_expanded(jv(merged), next));
        }
        match next.validate() {
            Ok(()) => Ok(ConfigDiff { merged: next }),
            Err(e) => Err(DiffError::Invalid(e)),
        }
    }
}

proof fn lemma_decimal_reads_back(n: nat)
    ensures
        decimal(n).len() > 0,
        forall|i: int| 0 <= i < decimal(n).len() ==> is_digit(#[trigger] decimal(n)[i]),
        decimal_value(decimal(n)) == n,
    decreases n,
{
    let d = (n % 10) as nat;
    assert(is_digit(crate::library::digit_char(d)) && crate::range::digit_value(crate::library::digit_char(d)) == d);
    if n < 10 {
        assert(d == n);
        assert(decimal(n) == seq![crate::library::digit_char(n)]);
        assert(decimal(n).drop_last() =~= Seq::<char>::empty());
        assert(decimal_value(Seq::<char>::empty()) == 0);
    } else {
        lemma_decimal_reads_back(n / 10);
        let s = decimal(n);
        assert(s.drop_last() =~= decimal(n / 10));
        assert((n / 10) * 10 + n % 10 == n) by (nonlinear_arith);
        assert(s.last() == crate::library::digit_char(d));
        assert(decimal_value(s) == decimal_value(s.drop_last()) * 10 + crate::range::digit_value(s.last()));
        assert forall|i: int| 0 <= i < s.len() implies is_digit(#[trigger] s[i]) by {
            if i < s.len() - 1 {
                assert(s[i] == decimal(n / 10)[i]);
            }
        }
    }
}

proof fn lemma_port_reads_back(p: u16)
    ensures
        port_v(port_json(p)) == Some(p),
{
    lemma_decimal_reads_back(p as nat);
}

proof fn lemma_texts_read_back(v: Seq<Seq<char>>)
    ensures
        texts_v(texts_json(v)) == Some(v),
{
    let items = texts_json(v)->Array_0;
    assert forall|i: int| 0 <= i < items.len() implies (#[trigger] items[i]) is Str by {}
    assert(Seq::new(items.len(), |i: int| items[i]->Str_0) =~= v);
}

/// Each key of `b`, when they all differ in length or in their first
/// character, is the first entry with that key.
proof fn lemma_keys_apart(b: Seq<(Seq<char>, JsonV)>, keys: Seq<Seq<char>>)
    requires
        b.len() == keys.len(),
        forall|i: int| 0 <= i < b.len() ==> (#[trigger] b[i]).0 == keys[i] && keys[i].len() > 0,
        forall|i: int, j: int|
            0 <= i < j < keys.len() ==> (#[trigger] keys[i]).len() != (#[trigger] keys[j]).len() || keys[i][0]
                != keys[j][0],
    ensures
        forall|j: int| 0 <= j < b.len() ==> first_key(b, #[trigger] keys[j], j),
{
    assert forall|j: int| 0 <= j < b.len() implies first_key(b, #[trigger] keys[j], j) by {
        assert forall|i: int| 0 <= i < j implies b[i].0 != keys[j] by {
            assert(b[i].0 == keys[i]);
        }
    }
}

/// Reading the settings back from their protocol form gives the settings.
pub proof fn lemma_config_json_reads_back(c: Config)
    ensures
        config_from_v(spec_config_json(config_v(c))) == Some(config_v(c)),
{
    let v = config_v(c);
    reveal_strlit("network");
    reveal_strlit("downloads");
    reveal_strlit("media");
    reveal_strlit("player");
    reveal_strlit("control_port");
    reveal_strlit("lan_port");
    reveal_strlit("upnp_enabled");
    reveal_strlit("server_name");
    reveal_strlit("dir");
    reveal_strlit("fallback_app");
    reveal_strlit("fallback_args");
    reveal_strlit("auto_download");
    reveal_strlit("persist_by_default");
    reveal_strlit("share_by_default");
    reveal_strlit("autoplay");
    reveal_strlit("extensions");
    reveal_strlit("command");
    reveal_strlit("args");
    lemma_port_reads_back(v.network.control_port);
    lemma_port_reads_back(v.network.lan_port);
    lemma_texts_read_back(v.downloads.fallback_args);
    lemma_texts_read_back(v.extensions);
    lemma_texts_read_back(v.player.args);
    let top = spec_config_json(v)->Object_0;
    lemma_keys_apart(top, seq!["network"@, "downloads"@, "media"@, "player"@]);
    lemma_keys_apart(top[0].1->Object_0, seq!["control_port"@, "lan_port"@, "upnp_enabled"@, "server_name"@]);
    lemma_keys_apart(
        top[1].1->Object_0,
        seq!["dir"@, "fallback_app"@, "fallback_args"@, "auto_download"@, "persist_by_default"@,
            "share_by_default"@, "autoplay"@],
    );
    lemma_keys_apart(top[2].1->Object_0, seq!["extensions"@]);
    lemma_keys_apart(top[3].1->Object_0, seq!["command"@, "args"@]);
    assert(network_from(top[0].1) == Some(v.network));
    assert(downloads_from(top[1].1) == Some(v.downloads));
    assert(player_from(top[3].1) == Some(v.player));
    assert(first_key(top[2].1->Object_0, "extensions"@, 0));
    assert(key_pos(top[2].1->Object_0, "extensions"@) == 0);
    assert(texts_at(top[2].1, "extensions"@, 0, 1) == Some(v.extensions));
}

/// A settings change whose patch is an empty object names no unknown field
/// and reads back as the settings themselves.
pub proof fn lemma_empty_patch_keeps_settings(c: Config)
    ensures
        patched(c, JsonV::Object(Seq::empty())).1.len() == 0,
        config_from_v(patched(c, JsonV::Object(Seq::empty())).0) == Some(config_v(c)),
{
    let b = spec_config_json(config_v(c))->Object_0;
    assert(crate::json::entries_v(b, Seq::empty(), Seq::empty()) == (b, Seq::<Seq<char>>::empty()));
    lemma_config_json_reads_back(c);
}

} // verus!
