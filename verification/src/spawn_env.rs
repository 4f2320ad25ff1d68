//! The environment handed to spawned host programs (players, fallback
//! handlers, system openers). Inside an AppImage the bundle exports paths
//! into its own mount; host programs inheriting them load mismatched
//! libraries. Sanitizing strips everything that points into `$APPDIR`;
//! without `$APPDIR` it is the identity.

use vstd::prelude::*;
use crate::text::{has_prefix, first_index, lemma_first_index, find_first, slice_vec, chars_of, string_of,
    starts_with_chars, eq_str};

verus! {

/// An environment key or value: text, or bytes that are not Unicode.
#[derive(Debug, Clone, PartialEq)]
pub enum OsText {
    Text(String),
    Raw(Vec<u8>),
}

/// Whether `p` occurs in `s`.
pub open spec fn occurs_in(s: Seq<char>, p: Seq<char>) -> bool {
    exists|i: int| 0 <= i <= s.len() - p.len() && #[trigger] s.subrange(i, i + p.len()) == p
}

/// The parts of `s` between colons.
pub open spec fn split_colon(s: Seq<char>) -> Seq<Seq<char>>
    decreases s.len(),
{
    match first_index(s, ':') {
        None => seq![s],
        Some(i) => if 0 <= i < s.len() {
            seq![s.subrange(0, i)] + split_colon(s.subrange(i + 1, s.len() as int))
        } else {
            seq![s]
        },
    }
}

/// Parts joined with colons.
pub open spec fn join_colon(parts: Seq<Seq<char>>) -> Seq<char>
    decreases parts.len(),
{
    if parts.len() == 0 {
        Seq::empty()
    } else if parts.len() == 1 {
        parts[0]
    } else {
        join_colon(parts.drop_last()) + seq![':'] + parts.last()
    }
}

/// The parts of a colon list worth keeping: non-empty, and not under `appdir`.
pub open spec fn kept_parts(s: Seq<char>, appdir: Seq<char>) -> Seq<Seq<char>> {
    split_colon(s).filter(keep_part(appdir))
}

/// A variable's value with `appdir` stripped: untouched when it does not
/// mention `appdir`, else the colon list of its parts outside `appdir`;
/// `None` when nothing is left.
pub open spec fn spec_strip_value(text: Seq<char>, appdir: Seq<char>) -> Option<Seq<char>> {
    if !occurs_in(text, appdir) {
        Some(text)
    } else if kept_parts(text, appdir).len() == 0 {
        None
    } else {
        Some(join_colon(kept_parts(text, appdir)))
    }
}

/// Whether `p` occurs in `s`.
fn contains_chars(s: &[char], p: &[char]) -> (r: bool)
    ensures
        r == occurs_in(s@, p@),
{
    if p.len() > s.len() {
        return false;
    }
    let n = s.len();
    let last = n - p.len();
    let mut i: usize = 0;
    loop
        invariant
            p@.len() <= s@.len(),
            s@.len() <= usize::MAX,
            last == s@.len() - p@.len(),
            i <= last,
            forall|k: int| 0 <= k < i ==> #[trigger] s@.subrange(k, k + p@.len()) != p@,
        decreases last - i,
    {
        let part = slice_vec(s, i, i + p.len());
        if crate::text::eq_chars(part.as_slice(), p) {
            return true;
        }
        if i == last {
            return false;
        }
        i += 1;
    }
}

/// The part filter of `kept_parts`.
pub open spec fn keep_part(appdir: Seq<char>) -> spec_fn(Seq<char>) -> bool {
    |p: Seq<char>| p.len() > 0 && !has_prefix(p, appdir)
}

proof fn lemma_filter_one(x: Seq<char>, pred: spec_fn(Seq<char>) -> bool)
    ensures
        seq![x].filter(pred) == if pred(x) {
            seq![x]
        } else {
            Seq::<Seq<char>>::empty()
        },
{
    reveal_with_fuel(Seq::filter, 2);
    assert(seq![x].drop_last() =~= Seq::<Seq<char>>::empty());
}

/// A value with `appdir` stripped.
pub fn strip_value(text: &str, appdir: &str) -> (r: Option<String>)
    ensures
        match r {
            Some(v) => spec_strip_value(text@, appdir@) == Some(v@),
            None => spec_strip_value(text@, appdir@) is None,
        },
{
    let t = chars_of(text);
    let a = chars_of(appdir);
    if !contains_chars(t.as_slice(), a.as_slice()) {
        return Some(string_of(t.as_slice()));
    }
    let ghost pred = keep_part(a@);
    let ghost mut kept: Seq<Seq<char>> = Seq::empty();
    let mut out: Vec<char> = Vec::new();
    let mut count: usize = 0;
    let mut start: usize = 0;
    assert(t@.subrange(0, t@.len() as int) =~= t@);
    loop
        invariant_except_break
            start <= t@.len(),
            kept + split_colon(t@.subrange(start as int, t@.len() as int)).filter(pred) == split_colon(t@).filter(pred),
            count <= start,
        invariant
            a@ == appdir@,
            t@ == text@,
            pred == keep_part(a@),
            out@ == join_colon(kept),
            count == kept.len(),
        ensures
            kept == split_colon(t@).filter(pred),
        decreases t@.len() - start,
    {
        let rest = slice_vec(t.as_slice(), start, t.len());
        let ghost rs = rest@;
        proof {
            lemma_first_index(rs, ':');
        }
        let found = find_first(rest.as_slice(), ':');
        let seg_end = match found {
            Some(i) => i,
            None => rest.len(),
        };
        let seg = slice_vec(rest.as_slice(), 0, seg_end);
        let keep = seg.len() > 0 && !starts_with_chars(seg.as_slice(), a.as_slice());
        proof {
            lemma_filter_one(seg@, pred);
            match found {
                Some(i) => {
                    assert(split_colon(rs) == seq![rs.subrange(0, i as int)] + split_colon(rs.subrange(i + 1, rs.len() as int)));
                    Seq::filter_distributes_over_add(
                        seq![rs.subrange(0, i as int)],
                        split_colon(rs.subrange(i + 1, rs.len() as int)),
                        pred,
                    );
                    assert(rs.subrange(i + 1, rs.len() as int) =~= t@.subrange(start + i + 1, t@.len() as int));
                },
                None => {
                    assert(split_colon(rs) == seq![rs]);
                    assert(seg@ =~= rs);
                },
            }
        }
        if keep {
            if count > 0 {
                out.push(':');
            }
            let ghost before = out@;
            let mut j: usize = 0;
            while j < seg.len()
                invariant
                    j <= seg@.len(),
                    out@ == before + seg@.subrange(0, j as int),
                decreases seg@.len() - j,
            {
                out.push(seg[j]);
                j += 1;
                assert(out@ =~= before + seg@.subrange(0, j as int));
            }
            assert(seg@.subrange(0, seg@.len() as int) =~= seg@);
            proof {
                let nk = kept.push(seg@);
                assert(nk.drop_last() =~= kept);
                if kept.len() == 0 {
                    assert(out@ =~= seg@);
                }
                kept = nk;
            }
            count += 1;
        }
        match found {
            Some(i) => {
                proof {
                    if !keep {
                        assert(kept + Seq::<Seq<char>>::empty() =~= kept);
                    }
                    assert(kept + split_colon(t@.subrange(start + i + 1, t@.len() as int)).filter(pred)
                        =~= split_colon(t@).filter(pred));
                }
                start = start + i + 1;
            },
            None => {
                proof {
                    assert(kept =~= split_colon(t@).filter(pred));
                }
                break;
            },
        }
    }
    if count == 0 {
        return None;
    }
    Some(string_of(out.as_slice()))
}

/// Whether a variable stays in a host program's environment. Without
/// `appdir` every one does; with it, `APPDIR` itself goes, values that are
/// not text stay, and text values stay unless nothing outside `appdir` is
/// left of them.
pub open spec fn keeps(key: OsText, value: OsText, appdir: Option<Seq<char>>) -> bool {
    match appdir {
        None => true,
        Some(a) => {
            &&& !(key matches OsText::Text(k) && k@ == "APPDIR"@)
            &&& match value {
                OsText::Raw(_) => true,
                OsText::Text(t) => spec_strip_value(t@, a) is Some,
            }
        },
    }
}

/// `kept` is `value` as it goes out: unchanged, or (for text under an
/// `appdir`) stripped of its `appdir` parts.
pub open spec fn value_matches(kept: OsText, value: OsText, appdir: Option<Seq<char>>) -> bool {
    match (appdir, value) {
        (Some(a), OsText::Text(t)) => match kept {
            OsText::Text(k) => spec_strip_value(t@, a) == Some(k@),
            OsText::Raw(_) => false,
        },
        _ => kept == value,
    }
}

/// `out` is the sanitized environment of `vars`: in order, each kept
/// variable with its key and its value as it goes out.
pub open spec fn sanitized_from(out: Seq<(OsText, OsText)>, vars: Seq<(OsText, OsText)>, appdir: Option<Seq<char>>) -> bool
    decreases vars.len(),
{
    if vars.len() == 0 {
        out.len() == 0
    } else {
        let key = vars.last().0;
        let value = vars.last().1;
        if keeps(key, value, appdir) {
            &&& out.len() > 0
            &&& out.last().0 == key
            &&& value_matches(out.last().1, value, appdir)
            &&& sanitized_from(out.drop_last(), vars.drop_last(), appdir)
        } else {
            sanitized_from(out, vars.drop_last(), appdir)
        }
    }
}

pub fn sanitize(appdir: Option<&str>, vars: Vec<(OsText, OsText)>) -> (r: Vec<(OsText, OsText)>)
    ensures
        sanitized_from(
            r@,
            vars@,
            match appdir {
                Some(a) => Some(a@),
                None => None,
            },
        ),
{
    let ghost all = vars@;
    let ghost av = match appdir {
        Some(a) => Some(a@),
        None => None::<Seq<char>>,
    };
    let mut rest = vars;
    let mut out: Vec<(OsText, OsText)> = Vec::new();
    let mut k: usize = 0;
    let n = rest.len();
    while k < n
        invariant
            n == all.len(),
            k <= n,
            rest@ == all.subrange(k as int, n as int),
            rest@.len() == n - k,
            av == match appdir {
                Some(a) => Some(a@),
                None => None::<Seq<char>>,
            },
            sanitized_from(out@, all.subrange(0, k as int), av),
        decreases n - k,
    {
        let (key, value) = rest.remove(0);
        proof {
            assert(all[k as int] == (key, value));
            assert(all.subrange(0, k + 1).drop_last() =~= all.subrange(0, k as int));
            assert(all.subrange(0, k + 1).last() == (key, value));
        }
        let ghost before = out@;
        match appdir {
            None => {
                out.push((key, value));
                proof {
                    assert(out@.drop_last() =~= before);
                }
            },
            Some(a) => {
                let is_appdir = match &key {
                    OsText::Text(s) => eq_str(chars_of(s.as_str()).as_slice(), "APPDIR"),
                    OsText::Raw(_) => false,
                };
                proof {
                    reveal_strlit("APPDIR");
                }
                assert(is_appdir == (key matches OsText::Text(k) && k@ == "APPDIR"@));
                if !is_appdir {
                    match value {
                        OsText::Raw(b) => {
                            out.push((key, OsText::Raw(b)));
                            assert(out@.drop_last() =~= before);
                        },
                        OsText::Text(t) => {
                            match strip_value(t.as_str(), a) {
                                Some(v) => {
                                    out.push((key, OsText::Text(v)));
                                    assert(out@.drop_last() =~= before);
                                },
                                None => {},
                            }
                        },
                    }
                }
            },
        }
        k += 1;
        proof {
            assert(rest@ =~= all.subrange(k as int, n as int));
        }
    }
    assert(all.subrange(0, n as int) =~= all);
    out
}

} // verus!
