//! JSON values as the control protocol carries them, and the merge of a
//! settings patch into the current settings: objects merge key by key, any
//! other value replaces what was there, and a key the settings do not have is
//! reported by its dotted path.

use vstd::prelude::*;
use crate::text::{chars_of, eq_chars, string_of, string_views};

verus! {

/// A JSON value. A number keeps its text, so it goes back out unchanged; an
/// object keeps its entries in order, each key once.
#[derive(Debug, PartialEq)]
pub enum Json {
    Null,
    Bool(bool),
    Number(String),
    Str(String),
    Array(Vec<Json>),
    Object(Vec<(String, Json)>),
}

/// A JSON value as plain data.
pub enum JsonV {
    Null,
    Bool(bool),
    Number(Seq<char>),
    Str(Seq<char>),
    Array(Seq<JsonV>),
    Object(Seq<(Seq<char>, JsonV)>),
}

/// The plain value of a JSON value.
pub open spec fn jv(j: Json) -> JsonV
    decreases j,
{
    match j {
        Json::Null => JsonV::Null,
        Json::Bool(b) => JsonV::Bool(b),
        Json::Number(n) => JsonV::Number(n@),
        Json::Str(s) => JsonV::Str(s@),
        Json::Array(items) => JsonV::Array(
            Seq::new(
                items@.len(),
                |i: int|
                    if 0 <= i < items@.len() {
                        jv(items@[i])
                    } else {
                        JsonV::Null
                    },
            ),
        ),
        Json::Object(entries) => JsonV::Object(
            Seq::new(
                entries@.len(),
                |i: int|
                    if 0 <= i < entries@.len() {
                        (entries@[i].0@, jv(entries@[i].1))
                    } else {
                        (Seq::empty(), JsonV::Null)
                    },
            ),
        ),
    }
}

/// The plain entries of an object.
pub open spec fn ev(entries: Seq<(String, Json)>) -> Seq<(Seq<char>, JsonV)> {
    Seq::new(entries.len(), |i: int| (entries[i].0@, jv(entries[i].1)))
}

pub proof fn lemma_jv_object(entries: Vec<(String, Json)>)
    ensures
        jv(Json::Object(entries)) == JsonV::Object(ev(entries@)),
{
    let s = match jv(Json::Object(entries)) {
        JsonV::Object(s) => s,
        _ => Seq::empty(),
    };
    assert(s.len() == entries@.len());
    assert forall|i: int| 0 <= i < s.len() implies s[i] == ev(entries@)[i] by {
        assert(s[i] == (entries@[i].0@, jv(entries@[i].1)));
    }
    assert(s =~= ev(entries@));
}

/// The dotted path of key `k` under `prefix`.
pub open spec fn dotted(prefix: Seq<char>, k: Seq<char>) -> Seq<char> {
    if prefix.len() == 0 {
        k
    } else {
        prefix + seq!['.'] + k
    }
}

/// Whether `j` is the first entry of `b` with key `k`.
pub open spec fn first_key(b: Seq<(Seq<char>, JsonV)>, k: Seq<char>, j: int) -> bool {
    &&& 0 <= j < b.len()
    &&& b[j].0 == k
    &&& forall|i: int| 0 <= i < j ==> b[i].0 != k
}

/// Where key `k` sits in `b`, or -1.
pub open spec fn key_pos(b: Seq<(Seq<char>, JsonV)>, k: Seq<char>) -> int {
    if exists|j: int| first_key(b, k, j) {
        choose|j: int| first_key(b, k, j)
    } else {
        -1
    }
}

/// `patch` merged into `base` under `prefix`, and the dotted paths of the
/// patch's keys that `base` lacks, in the patch's order. Only an object
/// merges into an object; anything else leaves `base` as it is.
pub open spec fn merge_v(base: JsonV, patch: JsonV, prefix: Seq<char>) -> (JsonV, Seq<Seq<char>>)
    decreases patch,
{
    match base {
        JsonV::Object(b) => match patch {
            JsonV::Object(p) => {
                let (e, u) = entries_v(b, p, prefix);
                (JsonV::Object(e), u)
            },
            _ => (base, Seq::empty()),
        },
        _ => (base, Seq::empty()),
    }
}

/// The entries of `p`, one after another, merged into `b`: a key that `b`
/// has takes the patch's value (merged, when both are objects); a key it
/// lacks is reported.
pub open spec fn entries_v(
    b: Seq<(Seq<char>, JsonV)>,
    p: Seq<(Seq<char>, JsonV)>,
    prefix: Seq<char>,
) -> (Seq<(Seq<char>, JsonV)>, Seq<Seq<char>>)
    decreases p,
{
    if p.len() == 0 {
        (b, Seq::empty())
    } else {
        let (b1, u1) = entries_v(b, p.subrange(0, p.len() - 1), prefix);
        let k = p[p.len() - 1].0;
        let v = p[p.len() - 1].1;
        let d = dotted(prefix, k);
        let j = key_pos(b1, k);
        if j < 0 {
            (b1, u1.push(d))
        } else if b1[j].1 is Object && v is Object {
            let (m, u2) = merge_v(b1[j].1, v, d);
            (b1.update(j, (b1[j].0, m)), u1 + u2)
        } else {
            (b1.update(j, (b1[j].0, v)), u1)
        }
    }
}

fn dotted_path(prefix: &str, k: &String) -> (r: String)
    ensures
        r@ == dotted(prefix@, k@),
{
    let p = chars_of(prefix);
    if p.len() == 0 {
        return k.clone();
    }
    let mut v = p;
    v.push('.');
    let kc = chars_of(k.as_str());
    let ghost before = v@;
    let mut i: usize = 0;
    while i < kc.len()
        invariant
            i <= kc@.len(),
            v@ == before + kc@.subrange(0, i as int),
        decreases kc@.len() - i,
    {
        v.push(kc[i]);
        i += 1;
        assert(v@ =~= before + kc@.subrange(0, i as int));
    }
    assert(kc@.subrange(0, kc@.len() as int) =~= kc@);
    string_of(v.as_slice())
}

/// Where the key `k` first sits in `b`.
pub(crate) fn find_key(b: &Vec<(String, Json)>, k: &String) -> (r: Option<usize>)
    ensures
        match r {
            Some(j) => first_key(ev(b@), k@, j as int),
            None => forall|i: int| 0 <= i < b@.len() ==> b@[i].0@ != k@,
        },
{
    let kc = chars_of(k.as_str());
    let mut i: usize = 0;
    while i < b.len()
        invariant
            i <= b@.len(),
            kc@ == k@,
            forall|x: int| 0 <= x < i ==> b@[x].0@ != k@,
        decreases b@.len() - i,
    {
        let bc = chars_of(b[i].0.as_str());
        if eq_chars(bc.as_slice(), kc.as_slice()) {
            return Some(i);
        }
        i += 1;
    }
    None
}

/// Merge `patch` into `base`, appending to `unknown` the dotted path of
/// each patch key that `base` lacks (the patch's own keys, under `prefix`).
pub fn merge_into(base: Json, patch: Json, prefix: &str, unknown: &mut Vec<String>) -> (r: Json)
    ensures
        jv(r) == merge_v(jv(base), jv(patch), prefix@).0,
        string_views(final(unknown)@) == string_views(old(unknown)@) + merge_v(jv(base), jv(patch), prefix@).1,
    decreases patch,
{
    let ghost base0 = base;
    let ghost patch0 = patch;
    match base {
        Json::Object(b) => match patch {
            Json::Object(p) => {
                proof {
                    lemma_jv_object(b);
                    lemma_jv_object(p);
                }
                let e = merge_entries(b, p, prefix, unknown);
                proof {
                    lemma_jv_object(e);
                }
                Json::Object(e)
            },
            _ => {
                assert(string_views(unknown@) =~= string_views(unknown@) + Seq::<Seq<char>>::empty());
                Json::Object(b)
            },
        },
        other => {
            assert(string_views(unknown@) =~= string_views(unknown@) + Seq::<Seq<char>>::empty());
            other
        },
    }
}

fn merge_entries(b: Vec<(String, Json)>, p: Vec<(String, Json)>, prefix: &str, unknown: &mut Vec<String>) -> (r: Vec<
    (String, Json),
>)
    ensures
        ev(r@) == entries_v(ev(b@), ev(p@), prefix@).0,
        string_views(final(unknown)@) == string_views(old(unknown)@) + entries_v(ev(b@), ev(p@), prefix@).1,
    decreases p,
{
    let ghost p0 = p@;
    let ghost u0 = string_views(unknown@);
    let mut out = b;
    let mut rest = p;
    let mut i: usize = 0;
    let n = rest.len();
    proof {
        assert(ev(p0).subrange(0, 0) =~= Seq::<(Seq<char>, JsonV)>::empty());
        assert(string_views(unknown@) =~= u0 + Seq::<Seq<char>>::empty());
        assert(rest@ =~= p0.subrange(0, n as int));
    }
    while i < n
        invariant
            n == p0.len(),
            i <= n,
            rest@ == p0.subrange(i as int, n as int),
            p@ == p0,
            ev(out@) == entries_v(ev(b@), ev(p0).subrange(0, i as int), prefix@).0,
            string_views(unknown@) == u0 + entries_v(ev(b@), ev(p0).subrange(0, i as int), prefix@).1,
        decreases n - i,
    {
        let ghost out0 = out@;
        let ghost un0 = string_views(unknown@);
        let ghost sub = ev(p0).subrange(0, i as int + 1);
        proof {
            assert(sub.subrange(0, sub.len() - 1) =~= ev(p0).subrange(0, i as int));
            assert(sub[sub.len() - 1] == (p0[i as int].0@, jv(p0[i as int].1)));
        }
        let (k, v) = rest.remove(0);
        proof {
            assert(k == p0[i as int].0 && v == p0[i as int].1);
        }
        let d = dotted_path(prefix, &k);
        match find_key(&out, &k) {
            None => {
                proof {
                    assert(!exists|j: int| first_key(ev(out0), k@, j));
                }
                unknown.push(d);
                proof {
                    assert(string_views(unknown@) =~= un0.push(d@));
                }
            },
            Some(j) => {
                proof {
                    assert(first_key(ev(out0), k@, j as int));
                    assert(key_pos(ev(out0), k@) == j as int);
                }
                let (bk, bv) = out.remove(j);
                let both = match (&bv, &v) {
                    (Json::Object(_), Json::Object(_)) => true,
                    _ => false,
                };
                if both {
                    proof {
                        assert(0 <= i < p@.len());
                        assert(decreases_to!(p => p@));
                        assert(decreases_to!(p@ => p@[i as int]));
                        assert(decreases_to!(p@[i as int] => p@[i as int].1));
                        assert(v == p@[i as int].1);
                    }
                    let m = merge_into(bv, v, d.as_str(), unknown);
                    out.insert(j, (bk, m));
                } else {
                    out.insert(j, (bk, v));
                }
                proof {
                    assert(ev(out@) =~= ev(out0).update(j as int, (ev(out0)[j as int].0, jv(out@[j as int].1))));
                }
            },
        }
        i += 1;
        proof {
            assert(rest@ =~= p0.subrange(i as int, n as int));
        }
    }
    proof {
        assert(ev(p0).subrange(0, n as int) =~= ev(p0));
    }
    out
}

/// A settings patch applied to the settings as JSON: the merged value, or
/// every dotted path the patch names that the settings lack (nothing is
/// applied then).
pub fn apply_patch(base: Json, patch: Json) -> (r: Result<Json, Vec<String>>)
    ensures
        match r {
            Ok(j) => merge_v(jv(base), jv(patch), Seq::empty()).1.len() == 0 && jv(j) == merge_v(
                jv(base),
                jv(patch),
                Seq::empty(),
            ).0,
            Err(u) => merge_v(jv(base), jv(patch), Seq::empty()).1.len() > 0 && string_views(u@) == merge_v(
                jv(base),
                jv(patch),
                Seq::empty(),
            ).1,
        },
{
    let mut unknown: Vec<String> = Vec::new();
    proof {
        reveal_strlit("");
        assert("".view() =~= Seq::<char>::empty());
        assert(string_views(unknown@) =~= Seq::<Seq<char>>::empty());
    }
    let merged = merge_into(base, patch, "", &mut unknown);
    assert(string_views(unknown@) =~= merge_v(jv(base), jv(patch), Seq::empty()).1);
    if unknown.len() > 0 {
        Err(unknown)
    } else {
        Ok(merged)
    }
}

} // verus!
