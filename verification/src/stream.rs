//! The HTTP stream endpoint's decisions: which files may be streamed, and
//! the status, headers and body of each reply.

use vstd::prelude::*;
use crate::library::{decimal, push_decimal, push_str_chars};
use crate::metadata::{TorrentMetadata, files_wf, file_entry, file_choice};
use crate::range::{RangeOutcome, spec_parse_range, parse_range};
use crate::text::string_of;

verus! {

/// What a reply's body carries.
#[derive(Debug, Clone, PartialEq, Eq)]
pub enum ReplyBody {
    Empty,
    Text(String),
    /// The whole file.
    Whole,
    /// `len` bytes of the file from `start`.
    Range { start: u64, len: u64 },
}

/// A reply: its status code, its headers in order, and its body.
#[derive(Debug, Clone, PartialEq, Eq)]
pub struct StreamReply {
    pub status: u16,
    pub headers: Vec<(String, String)>,
    pub body: ReplyBody,
}

/// Headers as plain values.
pub open spec fn header_views(h: Seq<(String, String)>) -> Seq<(Seq<char>, Seq<char>)> {
    h.map_values(|p: (String, String)| (p.0@, p.1@))
}

/// Only a file magneto tracks as media may be streamed, and on the LAN
/// router only a shared one. Opening a stream selects the file, so a
/// foreign index (a stale URL for a dropped file) is refused.
pub open spec fn spec_streamable(meta: Option<TorrentMetadata>, file_index: usize, require_shared: bool) -> Option<u32> {
    if file_index > u32::MAX {
        None
    } else {
        match meta {
            None => None,
            Some(m) => match file_entry(m.files@, file_index as u32) {
                Some(fm) => if !require_shared || fm.shared {
                    Some(file_index as u32)
                } else {
                    None
                },
                None => None,
            },
        }
    }
}

pub fn streamable(meta: Option<&TorrentMetadata>, file_index: usize, require_shared: bool) -> (r: Option<u32>)
    requires
        meta matches Some(m) ==> files_wf(m.files@),
    ensures
        r == spec_streamable(
            match meta {
                Some(m) => Some(*m),
                None => None,
            },
            file_index,
            require_shared,
        ),
{
    if file_index > 0xFFFF_FFFF {
        return None;
    }
    let idx = file_index as u32;
    match meta {
        None => None,
        Some(m) => match file_choice(m.files.as_slice(), idx) {
            Some(fm) => if !require_shared || fm.shared {
                Some(idx)
            } else {
                None
            },
            None => None,
        },
    }
}

fn pair(a: &str, b: String) -> (r: (String, String))
    ensures
        r.0@ == a@,
        r.1@ == b@,
{
    (a.to_owned(), b)
}

fn decimal_text(n: u64) -> (r: String)
    ensures
        r@ == decimal(n as nat),
{
    let mut v: Vec<char> = Vec::new();
    push_decimal(&mut v, n);
    string_of(v.as_slice())
}

/// Headers of a whole-file reply.
pub open spec fn full_headers(length: u64, mime: Seq<char>) -> Seq<(Seq<char>, Seq<char>)> {
    seq![
        ("content-type"@, mime),
        ("content-length"@, decimal(length as nat)),
        ("accept-ranges"@, "bytes"@),
    ]
}

/// Headers of a reply carrying bytes `start..=end` of `total`.
pub open spec fn partial_headers(start: u64, end: u64, total: u64, mime: Seq<char>) -> Seq<(Seq<char>, Seq<char>)> {
    seq![
        ("content-type"@, mime),
        ("content-length"@, decimal((end - start + 1) as nat)),
        ("content-range"@, content_range(start, end, total)),
        ("accept-ranges"@, "bytes"@),
    ]
}

/// Headers of a 416 reply for a file of `total` bytes.
pub open spec fn unsatisfiable_headers(total: u64, mime: Seq<char>) -> Seq<(Seq<char>, Seq<char>)> {
    seq![
        ("content-type"@, mime),
        ("content-range"@, "bytes */"@ + decimal(total as nat)),
    ]
}

/// The whole file: 200 with its length, announcing range support.
pub fn full_response(length: u64, mime: &str) -> (r: StreamReply)
    ensures
        r.status == 200,
        header_views(r.headers@) == full_headers(length, mime@),
        r.body == ReplyBody::Whole,
{
    let headers = vec![
        pair("content-type", mime.to_owned()),
        pair("content-length", decimal_text(length)),
        pair("accept-ranges", "bytes".to_owned()),
    ];
    assert(header_views(headers@) =~= seq![
        ("content-type"@, mime@),
        ("content-length"@, decimal(length as nat)),
        ("accept-ranges"@, "bytes"@),
    ]);
    StreamReply { status: 200, headers, body: ReplyBody::Whole }
}

/// The `Content-Range` of a partial reply.
pub open spec fn content_range(start: u64, end: u64, total: u64) -> Seq<char> {
    "bytes "@ + decimal(start as nat) + seq!['-'] + decimal(end as nat) + seq!['/'] + decimal(total as nat)
}

/// Bytes `start..=end`: 206 with that length and range.
pub fn partial_response(start: u64, end: u64, total: u64, mime: &str) -> (r: StreamReply)
    requires
        start <= end < total,
    ensures
        r.status == 206,
        header_views(r.headers@) == partial_headers(start, end, total, mime@),
        r.body == (ReplyBody::Range { start, len: (end - start + 1) as u64 }),
{
    let len = end - start + 1;
    let mut cr: Vec<char> = Vec::new();
    push_str_chars(&mut cr, "bytes ");
    push_decimal(&mut cr, start);
    cr.push('-');
    push_decimal(&mut cr, end);
    cr.push('/');
    push_decimal(&mut cr, total);
    assert(cr@ =~= content_range(start, end, total));
    let headers = vec![
        pair("content-type", mime.to_owned()),
        pair("content-length", decimal_text(len)),
        pair("content-range", string_of(cr.as_slice())),
        pair("accept-ranges", "bytes".to_owned()),
    ];
    assert(header_views(headers@) =~= seq![
        ("content-type"@, mime@),
        ("content-length"@, decimal((end - start + 1) as nat)),
        ("content-range"@, content_range(start, end, total)),
        ("accept-ranges"@, "bytes"@),
    ]);
    StreamReply { status: 206, headers, body: ReplyBody::Range { start, len } }
}

/// A range that cannot be served: 416 naming the file's length.
pub fn unsatisfiable_response(total: u64, mime: &str) -> (r: StreamReply)
    ensures
        r.status == 416,
        header_views(r.headers@) == unsatisfiable_headers(total, mime@),
        r.body == ReplyBody::Empty,
{
    let mut cr: Vec<char> = Vec::new();
    push_str_chars(&mut cr, "bytes */");
    push_decimal(&mut cr, total);
    let headers = vec![pair("content-type", mime.to_owned()), pair("content-range", string_of(cr.as_slice()))];
    assert(header_views(headers@) =~= seq![
        ("content-type"@, mime@),
        ("content-range"@, "bytes */"@ + decimal(total as nat)),
    ]);
    StreamReply { status: 416, headers, body: ReplyBody::Empty }
}

/// A plain-text reply with `status`.
pub fn text_response(status: u16, msg: String) -> (r: StreamReply)
    ensures
        r.status == status,
        header_views(r.headers@) == seq![("content-type"@, "text/plain; charset=utf-8"@)],
        r.body matches ReplyBody::Text(t) && t@ == msg@,
{
    let headers = vec![pair("content-type", "text/plain; charset=utf-8".to_owned())];
    assert(header_views(headers@) =~= seq![("content-type"@, "text/plain; charset=utf-8"@)]);
    StreamReply { status, headers, body: ReplyBody::Text(msg) }
}

/// A file check is still running: 503, retry in five seconds.
pub fn retry_response(reason: String) -> (r: StreamReply)
    ensures
        r.status == 503,
        header_views(r.headers@) == seq![("content-type"@, "text/plain; charset=utf-8"@), ("retry-after"@, "5"@)],
        r.body matches ReplyBody::Text(t) && t@ == reason@,
{
    let headers = vec![
        pair("content-type", "text/plain; charset=utf-8".to_owned()),
        pair("retry-after", "5".to_owned()),
    ];
    assert(header_views(headers@) =~= seq![
        ("content-type"@, "text/plain; charset=utf-8"@),
        ("retry-after"@, "5"@),
    ]);
    StreamReply { status: 503, headers, body: ReplyBody::Text(reason) }
}

/// The reply to a stream request for an opened file of `length` bytes,
/// from its `Range` header: the whole file, the range asked for, or 416.
pub fn stream_reply(range_header: Option<&str>, length: u64, mime: &str) -> (r: StreamReply)
    ensures
        match spec_parse_range(
            match range_header {
                Some(h) => Some(h@),
                None => None,
            },
            length,
        ) {
            RangeOutcome::Whole => r.status == 200 && r.body == ReplyBody::Whole
                && header_views(r.headers@) == full_headers(length, mime@),
            RangeOutcome::Partial { start, end } => r.status == 206 && r.body == (ReplyBody::Range {
                start,
                len: (end - start + 1) as u64,
            }) && header_views(r.headers@) == partial_headers(start, end, length, mime@),
            RangeOutcome::Invalid => r.status == 416 && r.body == ReplyBody::Empty
                && header_views(r.headers@) == unsatisfiable_headers(length, mime@),
        },
{
    match parse_range(range_header, length) {
        RangeOutcome::Whole => full_response(length, mime),
        RangeOutcome::Partial { start, end } => partial_response(start, end, length, mime),
        RangeOutcome::Invalid => unsatisfiable_response(length, mime),
    }
}

/// Why a torrent cannot serve bytes right now.
#[derive(Debug)]
pub enum Unservable {
    /// It failed; the reason.
    Failed(String),
    /// It is checking its files; the reason.
    Checking(String),
}

/// One look while a stream request waits for its torrent.
#[derive(Debug)]
pub enum ServeWait {
    /// Answer with this reply.
    Reply(StreamReply),
    /// The torrent can serve now.
    Ready,
    /// Look again after a pause.
    Wait,
}

/// The headers of a plain-text reply.
pub open spec fn text_headers() -> Seq<(Seq<char>, Seq<char>)> {
    seq![("content-type"@, "text/plain; charset=utf-8"@)]
}

/// Whether `r` answers with `status`, `headers` and the text `msg`.
pub open spec fn text_reply(r: ServeWait, status: u16, headers: Seq<(Seq<char>, Seq<char>)>, msg: Seq<char>) -> bool {
    match r {
        ServeWait::Reply(rep) => rep.status == status && header_views(rep.headers@) == headers && match rep.body {
            ReplyBody::Text(t) => t@ == msg,
            _ => false,
        },
        _ => false,
    }
}

/// A request is held while the torrent checks its files, which usually takes
/// seconds, so a player that does not retry still gets its bytes: a torrent
/// gone from the session is not found, a failed one is a conflict, and a
/// check still running at the deadline asks the player to retry.
pub fn servable_step(in_session: bool, unservable: Option<Unservable>, deadline_passed: bool) -> (r: ServeWait)
    ensures
        !in_session ==> text_reply(r, 404, text_headers(), "file not found"@),
        in_session ==> match unservable {
            None => r is Ready,
            Some(Unservable::Failed(reason)) => text_reply(r, 409, text_headers(), reason@),
            Some(Unservable::Checking(reason)) => if deadline_passed {
                text_reply(r, 503, text_headers().push(("retry-after"@, "5"@)), reason@)
            } else {
                r is Wait
            },
        },
{
    if !in_session {
        return ServeWait::Reply(text_response(404, "file not found".to_owned()));
    }
    match unservable {
        None => ServeWait::Ready,
        Some(Unservable::Failed(reason)) => ServeWait::Reply(text_response(409, reason)),
        Some(Unservable::Checking(reason)) => if deadline_passed {
            let rep = retry_response(reason);
            assert(text_headers().push(("retry-after"@, "5"@)) =~= seq![
                ("content-type"@, "text/plain; charset=utf-8"@),
                ("retry-after"@, "5"@),
            ]);
            ServeWait::Reply(rep)
        } else {
            ServeWait::Wait
        },
    }
}

} // verus!
