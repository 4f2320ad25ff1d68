//! Classification of torrent files by their extension.

use vstd::prelude::*;
use crate::paths::{extension, extension_chars};
use crate::text::{string_views, eq_chars, eq_str, lower_seq, lower_vec, chars_of, string_of, has_prefix};
use crate::config::default_extensions;

verus! {

/// The lowercased extension of a file name, if it has one.
pub open spec fn ext_of(filename: Seq<char>) -> Option<Seq<char>> {
    match extension(filename) {
        Some(e) => Some(lower_seq(e)),
        None => None,
    }
}

/// Whether `filename`'s extension matches one of `extensions`, ignoring
/// ASCII case.
pub open spec fn spec_is_media(filename: Seq<char>, extensions: Seq<Seq<char>>) -> bool {
    match ext_of(filename) {
        Some(e) => exists|i: int| 0 <= i < extensions.len() && lower_seq(extensions[i]) == e,
        None => false,
    }
}

/// The subtitle extensions magneto selects alongside media.
pub open spec fn is_subtitle_ext(e: Seq<char>) -> bool {
    ||| e == "srt"@
    ||| e == "ass"@
    ||| e == "ssa"@
    ||| e == "vtt"@
    ||| e == "sub"@
    ||| e == "idx"@
}

pub open spec fn spec_is_subtitle(filename: Seq<char>) -> bool {
    match ext_of(filename) {
        Some(e) => is_subtitle_ext(e),
        None => false,
    }
}

/// The MIME type served for a file, by extension.
pub open spec fn spec_mime_for(filename: Seq<char>) -> Seq<char> {
    match ext_of(filename) {
        Some(e) => if e == "mp4"@ || e == "m4v"@ {
            "video/mp4"@
        } else if e == "mkv"@ {
            "video/x-matroska"@
        } else if e == "avi"@ {
            "video/x-msvideo"@
        } else if e == "webm"@ {
            "video/webm"@
        } else if e == "mov"@ {
            "video/quicktime"@
        } else if e == "flv"@ {
            "video/x-flv"@
        } else if e == "wmv"@ {
            "video/x-ms-wmv"@
        } else if e == "ts"@ {
            "video/mp2t"@
        } else if e == "mpg"@ || e == "mpeg"@ {
            "video/mpeg"@
        } else {
            "application/octet-stream"@
        },
        None => "application/octet-stream"@,
    }
}

fn ext_chars(filename: &str) -> (r: Option<Vec<char>>)
    ensures
        match r {
            Some(e) => ext_of(filename@) == Some(e@),
            None => ext_of(filename@) is None,
        },
{
    let v = chars_of(filename);
    match extension_chars(v.as_slice()) {
        Some(e) => Some(lower_vec(e.as_slice())),
        None => None,
    }
}

/// The file's extension, lowercased.
pub fn extension_of(filename: &str) -> (r: Option<String>)
    ensures
        match r {
            Some(e) => ext_of(filename@) == Some(e@),
            None => ext_of(filename@) is None,
        },
{
    match ext_chars(filename) {
        Some(e) => Some(string_of(e.as_slice())),
        None => None,
    }
}

/// Whether the file is media under the configured extension list.
pub fn is_media(filename: &str, extensions: &[String]) -> (r: bool)
    ensures
        r == spec_is_media(filename@, string_views(extensions@)),
{
    let ghost exts = string_views(extensions@);
    match ext_chars(filename) {
        None => false,
        Some(e) => {
            let mut i: usize = 0;
            while i < extensions.len()
                invariant
                    i <= extensions@.len(),
                    exts == string_views(extensions@),
                    ext_of(filename@) == Some(e@),
                    forall|j: int| 0 <= j < i ==> lower_seq(exts[j]) != e@,
                decreases extensions@.len() - i,
            {
                let m = chars_of(extensions[i].as_str());
                assert(exts[i as int] == extensions@[i as int]@);
                let lm = lower_vec(m.as_slice());
                if eq_chars(lm.as_slice(), e.as_slice()) {
                    assert(lower_seq(exts[i as int]) == e@);
                    assert(exts.len() == extensions@.len());
                    return true;
                }
                i += 1;
            }
            false
        },
    }
}

/// The subtitle formats magneto selects alongside media, by extension.
pub open spec fn subtitle_extensions() -> Seq<Seq<char>> {
    seq!["srt"@, "ass"@, "ssa"@, "vtt"@, "sub"@, "idx"@]
}

/// A file is a subtitle exactly when its extension, in any ASCII case, is
/// one of srt, ass, ssa, vtt, sub and idx.
pub proof fn lemma_subtitle_law(filename: Seq<char>)
    ensures
        spec_is_subtitle(filename) == (ext_of(filename) matches Some(e) && subtitle_extensions().contains(e)),
{
    let l = subtitle_extensions();
    if let Some(e) = ext_of(filename) {
        if is_subtitle_ext(e) {
            if e == "srt"@ {
                assert(l[0] == e);
            } else if e == "ass"@ {
                assert(l[1] == e);
            } else if e == "ssa"@ {
                assert(l[2] == e);
            } else if e == "vtt"@ {
                assert(l[3] == e);
            } else if e == "sub"@ {
                assert(l[4] == e);
            } else {
                assert(l[5] == e);
            }
        }
        if l.contains(e) {
            let i = choose|i: int| 0 <= i < l.len() && l[i] == e;
            assert(0 <= i < 6);
        }
    }
}

/// Whether the file is a subtitle.
pub fn is_subtitle(filename: &str) -> (r: bool)
    ensures
        r == spec_is_subtitle(filename@),
        r == (ext_of(filename@) matches Some(e) && subtitle_extensions().contains(e)),
{
    proof {
        lemma_subtitle_law(filename@);
    }
    match ext_chars(filename) {
        None => false,
        Some(e) => {
            let s = e.as_slice();
            eq_str(s, "srt") || eq_str(s, "ass") || eq_str(s, "ssa") || eq_str(s, "vtt")
                || eq_str(s, "sub") || eq_str(s, "idx")
        },
    }
}

/// The MIME type a stream of this file is served with.
pub fn mime_for(filename: &str) -> (r: &'static str)
    ensures
        r@ == spec_mime_for(filename@),
        r@ == "application/octet-stream"@ || has_prefix(r@, "video/"@),
        ext_of(filename@) matches Some(e) && default_extensions().contains(e) ==> has_prefix(r@, "video/"@),
{
    proof {
        lemma_mime_is_video_or_octet(filename@);
        if ext_of(filename@) matches Some(e) && default_extensions().contains(e) {
            lemma_default_extensions_are_video(filename@);
        }
    }
    let Some(e) = ext_chars(filename) else {
        return "application/octet-stream";
    };
    let s = e.as_slice();
    if eq_str(s, "mp4") || eq_str(s, "m4v") {
        "video/mp4"
    } else if eq_str(s, "mkv") {
        "video/x-matroska"
    } else if eq_str(s, "avi") {
        "video/x-msvideo"
    } else if eq_str(s, "webm") {
        "video/webm"
    } else if eq_str(s, "mov") {
        "video/quicktime"
    } else if eq_str(s, "flv") {
        "video/x-flv"
    } else if eq_str(s, "wmv") {
        "video/x-ms-wmv"
    } else if eq_str(s, "ts") {
        "video/mp2t"
    } else if eq_str(s, "mpg") || eq_str(s, "mpeg") {
        "video/mpeg"
    } else {
        "application/octet-stream"
    }
}

/// Every type a stream is served with is a video type, or the generic
/// `application/octet-stream`.
pub proof fn lemma_mime_is_video_or_octet(filename: Seq<char>)
    ensures
        spec_mime_for(filename) == "application/octet-stream"@ || has_prefix(spec_mime_for(filename), "video/"@),
{
    reveal_strlit("video/");
    reveal_strlit("video/mp4");
    reveal_strlit("video/x-matroska");
    reveal_strlit("video/x-msvideo");
    reveal_strlit("video/webm");
    reveal_strlit("video/quicktime");
    reveal_strlit("video/x-flv");
    reveal_strlit("video/x-ms-wmv");
    reveal_strlit("video/mp2t");
    reveal_strlit("video/mpeg");
    let m = spec_mime_for(filename);
    if m != "application/octet-stream"@ {
        assert(m.subrange(0, 6) =~= "video/"@);
    }
}

/// The type does not depend on the case of the extension: two names whose
/// extensions are equal up to ASCII case are served alike.
pub proof fn lemma_mime_ignores_extension_case(a: Seq<char>, b: Seq<char>)
    requires
        extension(a) is Some,
        extension(b) is Some,
        lower_seq(extension(a)->0) == lower_seq(extension(b)->0),
    ensures
        spec_mime_for(a) == spec_mime_for(b),
{
}

/// Every extension magneto treats as media by default is served as video.
pub proof fn lemma_default_extensions_are_video(filename: Seq<char>)
    requires
        ext_of(filename) is Some,
        default_extensions().contains(ext_of(filename)->0),
    ensures
        has_prefix(spec_mime_for(filename), "video/"@),
{
    reveal_strlit("video/");
    reveal_strlit("video/mp4");
    reveal_strlit("video/x-matroska");
    reveal_strlit("video/x-msvideo");
    reveal_strlit("video/webm");
    reveal_strlit("video/quicktime");
    reveal_strlit("video/x-flv");
    reveal_strlit("video/x-ms-wmv");
    reveal_strlit("video/mp2t");
    reveal_strlit("video/mpeg");
    reveal_strlit("application/octet-stream");
    reveal_strlit("mkv");
    reveal_strlit("mp4");
    reveal_strlit("avi");
    reveal_strlit("webm");
    reveal_strlit("mov");
    reveal_strlit("flv");
    reveal_strlit("wmv");
    reveal_strlit("m4v");
    reveal_strlit("ts");
    reveal_strlit("mpg");
    reveal_strlit("mpeg");
    let e = ext_of(filename)->0;
    let d = default_extensions();
    let i = choose|i: int| 0 <= i < d.len() && d[i] == e;
    assert(e == d[i]);
    let m = spec_mime_for(filename);
    assert(m.subrange(0, 6) =~= "video/"@);
}

} // verus!
