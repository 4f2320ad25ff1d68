//! Paths as character sequences, with the Unix semantics of `std::path`.

use vstd::prelude::*;
use crate::text::{last_index, lemma_last_index, find_last, slice_vec, first_index, lemma_first_index,
    find_first, eq_chars};

verus! {

/// The characters after the last `/` of `s` (all of `s` when it has none).
pub open spec fn tail_seg(s: Seq<char>) -> Seq<char>
    decreases s.len(),
{
    if s.len() == 0 || s.last() == '/' {
        Seq::empty()
    } else {
        tail_seg(s.drop_last()).push(s.last())
    }
}

pub proof fn lemma_tail_seg(s: Seq<char>)
    ensures
        tail_seg(s).len() <= s.len(),
        tail_seg(s) == s.subrange(s.len() - tail_seg(s).len(), s.len() as int),
        !tail_seg(s).contains('/'),
        tail_seg(s).len() < s.len() ==> s[s.len() - tail_seg(s).len() - 1] == '/',
    decreases s.len(),
{
    if s.len() > 0 && s.last() != '/' {
        lemma_tail_seg(s.drop_last());
        let t = tail_seg(s.drop_last());
        assert(tail_seg(s) =~= s.subrange(s.len() - tail_seg(s).len(), s.len() as int));
        assert forall|j: int| 0 <= j < tail_seg(s).len() implies tail_seg(s)[j] != '/' by {
            if j < t.len() {
                assert(!t.contains('/'));
                assert(t[j] != '/');
            }
        }
    }
}

/// `Path::file_name`: the last component of the path when it is a normal
/// name; `None` for an empty path, the root, `.` and `..`. Trailing `/` and
/// `.` components are not components of their own.
pub open spec fn file_name(s: Seq<char>) -> Option<Seq<char>>
    decreases s.len(),
{
    if s.len() == 0 {
        None
    } else if s.last() == '/' {
        file_name(s.drop_last())
    } else {
        let seg = tail_seg(s);
        let start = s.len() - seg.len();
        if seg == seq!['.'] {
            if start <= 0 {
                None
            } else {
                proof {
                    lemma_tail_seg(s);
                }
                file_name(s.subrange(0, start))
            }
        } else if seg == seq!['.', '.'] {
            None
        } else {
            Some(seg)
        }
    }
}

/// `Path::extension`: what follows the last `.` of the file name, unless
/// that `.` is the name's first character.
pub open spec fn extension(s: Seq<char>) -> Option<Seq<char>> {
    match file_name(s) {
        None => None,
        Some(n) => match last_index(n, '.') {
            Some(d) => if d > 0 {
                Some(n.subrange(d + 1, n.len() as int))
            } else {
                None
            },
            None => None,
        },
    }
}

/// Bounds of the file name of `v` inside `v`, as `file_name` defines it.
pub fn file_name_range(v: &[char]) -> (r: Option<(usize, usize)>)
    ensures
        match r {
            Some((a, b)) => a < b <= v@.len() && file_name(v@) == Some(v@.subrange(a as int, b as int)),
            None => file_name(v@) is None,
        },
{
    let mut end: usize = v.len();
    assert(v@.subrange(0, end as int) =~= v@);
    loop
        invariant
            end <= v@.len(),
            file_name(v@) == file_name(v@.subrange(0, end as int)),
        decreases end,
    {
        let ghost s = v@.subrange(0, end as int);
        if end == 0 {
            return None;
        }
        if v[end - 1] == '/' {
            assert(s.drop_last() =~= v@.subrange(0, end - 1));
            end -= 1;
            continue;
        }
        let mut start: usize = end;
        while start > 0 && v[start - 1] != '/'
            invariant
                start <= end,
                end <= v@.len(),
                forall|j: int| start <= j < end ==> v@[j] != '/',
            decreases start,
        {
            start -= 1;
        }
        proof {
            lemma_tail_seg(s);
            let t = tail_seg(s);
            // the scan stopped exactly where tail_seg starts
            assert(s.len() == end);
            if t.len() < end - start {
                assert(s[end - t.len() - 1] == '/');
                assert(v@[end - t.len() - 1] != '/');
            }
            if t.len() > end - start {
                assert(start > 0 && v@[start - 1] == '/');
                assert(t == s.subrange(end - t.len(), end as int));
                assert(t[start - 1 - (end - t.len())] == v@[start - 1]);
            }
            assert(t.len() == end - start);
            assert(t =~= v@.subrange(start as int, end as int));
        }
        if end - start == 1 && v[start] == '.' {
            assert(v@.subrange(start as int, end as int) =~= seq!['.']);
            if start == 0 {
                return None;
            }
            assert(s.subrange(0, start as int) =~= v@.subrange(0, start as int));
            end = start;
            continue;
        }
        if end - start == 2 && v[start] == '.' && v[start + 1] == '.' {
            assert(v@.subrange(start as int, end as int) =~= seq!['.', '.']);
            return None;
        }
        proof {
            if v@.subrange(start as int, end as int) == seq!['.'] {
                assert(v@[start as int] == v@.subrange(start as int, end as int)[0]);
            }
            if v@.subrange(start as int, end as int) == seq!['.', '.'] {
                assert(v@[start as int] == v@.subrange(start as int, end as int)[0]);
                assert(v@[start + 1] == v@.subrange(start as int, end as int)[1]);
            }
        }
        return Some((start, end));
    }
}

/// The extension of `v` as `extension` defines it.
pub fn extension_chars(v: &[char]) -> (r: Option<Vec<char>>)
    ensures
        match r {
            Some(e) => extension(v@) == Some(e@),
            None => extension(v@) is None,
        },
{
    match file_name_range(v) {
        None => None,
        Some((a, b)) => {
            let name = slice_vec(v, a, b);
            proof {
                lemma_last_index(name@, '.');
            }
            match find_last(name.as_slice(), '.') {
                Some(d) => {
                    if d > 0 {
                        Some(slice_vec(name.as_slice(), d + 1, name.len()))
                    } else {
                        None
                    }
                },
                None => None,
            }
        },
    }
}

/// One component of a path, as `std::path::Component` has it on Unix.
pub enum Comp {
    Root,
    Cur,
    Parent,
    Normal(Seq<char>),
}

/// A three-way comparison result.
#[derive(Debug, Clone, Copy, PartialEq, Eq)]
pub enum Order {
    Less,
    Equal,
    Greater,
}

/// The component one `/`-separated segment stands for: empty segments and
/// `.` vanish, except a leading `.` of a relative path.
pub open spec fn comp_of(seg: Seq<char>, first: bool) -> Seq<Comp> {
    if seg.len() == 0 {
        Seq::empty()
    } else if seg == seq!['.'] {
        if first {
            seq![Comp::Cur]
        } else {
            Seq::empty()
        }
    } else if seg == seq!['.', '.'] {
        seq![Comp::Parent]
    } else {
        seq![Comp::Normal(seg)]
    }
}

/// Components of the segments in `s`, `first` telling whether the first
/// segment starts the path.
pub open spec fn comps_from(s: Seq<char>, first: bool) -> Seq<Comp>
    decreases s.len(),
{
    match first_index(s, '/') {
        None => comp_of(s, first),
        Some(k) => {
            proof {
                lemma_first_index(s, '/');
            }
            comp_of(s.subrange(0, k), first) + comps_from(s.subrange(k + 1, s.len() as int), false)
        },
    }
}

/// `Path::components` on Unix.
pub open spec fn components(s: Seq<char>) -> Seq<Comp> {
    if s.len() > 0 && s[0] == '/' {
        seq![Comp::Root] + comps_from(s.drop_first(), false)
    } else {
        comps_from(s, true)
    }
}

/// Lexicographic order of characters (the order of their UTF-8 bytes).
pub open spec fn chars_order(a: Seq<char>, b: Seq<char>) -> Order
    decreases a.len(),
{
    if a.len() == 0 {
        if b.len() == 0 {
            Order::Equal
        } else {
            Order::Less
        }
    } else if b.len() == 0 {
        Order::Greater
    } else if a[0] < b[0] {
        Order::Less
    } else if a[0] > b[0] {
        Order::Greater
    } else {
        chars_order(a.drop_first(), b.drop_first())
    }
}

/// Rank of a component kind in `Component`'s derived order.
pub open spec fn comp_rank(c: Comp) -> int {
    match c {
        Comp::Root => 1,
        Comp::Cur => 2,
        Comp::Parent => 3,
        Comp::Normal(_) => 4,
    }
}

pub open spec fn comp_order(a: Comp, b: Comp) -> Order {
    if comp_rank(a) < comp_rank(b) {
        Order::Less
    } else if comp_rank(a) > comp_rank(b) {
        Order::Greater
    } else {
        match (a, b) {
            (Comp::Normal(x), Comp::Normal(y)) => chars_order(x, y),
            _ => Order::Equal,
        }
    }
}

/// Lexicographic order of component sequences.
pub open spec fn comps_order(a: Seq<Comp>, b: Seq<Comp>) -> Order
    decreases a.len(),
{
    if a.len() == 0 {
        if b.len() == 0 {
            Order::Equal
        } else {
            Order::Less
        }
    } else if b.len() == 0 {
        Order::Greater
    } else {
        match comp_order(a[0], b[0]) {
            Order::Equal => comps_order(a.drop_first(), b.drop_first()),
            o => o,
        }
    }
}

/// `Path::cmp`: paths ordered component by component.
pub open spec fn path_order(a: Seq<char>, b: Seq<char>) -> Order {
    comps_order(components(a), components(b))
}

/// `Path::eq`: paths with the same components.
pub open spec fn path_eq(a: Seq<char>, b: Seq<char>) -> bool {
    components(a) == components(b)
}

/// An executable path component.
pub enum PathComp {
    Root,
    Cur,
    Parent,
    Normal(Vec<char>),
}

impl PathComp {
    pub open spec fn view(&self) -> Comp {
        match self {
            PathComp::Root => Comp::Root,
            PathComp::Cur => Comp::Cur,
            PathComp::Parent => Comp::Parent,
            PathComp::Normal(v) => Comp::Normal(v@),
        }
    }
}

pub open spec fn comps_view(v: Seq<PathComp>) -> Seq<Comp> {
    v.map_values(|c: PathComp| c.view())
}

fn push_comp(out: &mut Vec<PathComp>, v: &[char], from: usize, to: usize, first: bool)
    requires
        from <= to <= v@.len(),
    ensures
        comps_view(final(out)@) == comps_view(old(out)@) + comp_of(
            v@.subrange(from as int, to as int),
            first,
        ),
{
    let ghost seg = v@.subrange(from as int, to as int);
    if from == to {
        assert(comps_view(out@) =~= comps_view(out@) + comp_of(seg, first));
        return;
    }
    if to - from == 1 && v[from] == '.' {
        assert(seg =~= seq!['.']);
        if first {
            out.push(PathComp::Cur);
            assert(comps_view(out@) =~= comps_view(old(out)@) + comp_of(seg, first));
        } else {
            assert(comps_view(out@) =~= comps_view(old(out)@) + comp_of(seg, first));
        }
        return;
    }
    if to - from == 2 && v[from] == '.' && v[from + 1] == '.' {
        assert(seg =~= seq!['.', '.']);
        out.push(PathComp::Parent);
        assert(comps_view(out@) =~= comps_view(old(out)@) + comp_of(seg, first));
        return;
    }
    proof {
        if seg == seq!['.'] {
            assert(seg[0] == v@[from as int]);
        }
        if seg == seq!['.', '.'] {
            assert(seg[0] == v@[from as int]);
            assert(seg[1] == v@[from + 1]);
        }
    }
    let n = slice_vec(v, from, to);
    out.push(PathComp::Normal(n));
    assert(comps_view(out@) =~= comps_view(old(out)@) + comp_of(seg, first));
}

/// The components of a path, as `components` defines them.
pub fn path_components(v: &[char]) -> (r: Vec<PathComp>)
    ensures
        comps_view(r@) == components(v@),
{
    let mut out: Vec<PathComp> = Vec::new();
    let mut pos: usize;
    let mut first: bool;
    if v.len() > 0 && v[0] == '/' {
        out.push(PathComp::Root);
        pos = 1;
        first = false;
        assert(v@.drop_first() =~= v@.subrange(1, v@.len() as int));
    } else {
        pos = 0;
        first = true;
        assert(v@ =~= v@.subrange(0, v@.len() as int));
    }
    assert(comps_view(out@) + comps_from(v@.subrange(pos as int, v@.len() as int), first)
        == components(v@));
    loop
        invariant
            pos <= v@.len(),
            comps_view(out@) + comps_from(v@.subrange(pos as int, v@.len() as int), first)
                == components(v@),
        decreases v@.len() - pos,
    {
        let ghost rest = v@.subrange(pos as int, v@.len() as int);
        let tail = slice_vec(v, pos, v.len());
        proof {
            lemma_first_index(rest, '/');
        }
        match find_first(tail.as_slice(), '/') {
            None => {
                let ghost before = comps_view(out@);
                push_comp(&mut out, v, pos, v.len(), first);
                assert(comps_view(out@) == before + comps_from(rest, first));
                assert(comps_view(out@) =~= comps_view(out@) + Seq::<Comp>::empty());
                return out;
            },
            Some(k) => {
                let ghost before = comps_view(out@);
                assert(rest.subrange(0, k as int) =~= v@.subrange(pos as int, pos + k));
                assert(rest.subrange(k + 1, rest.len() as int) =~= v@.subrange(
                    pos + k + 1,
                    v@.len() as int,
                ));
                push_comp(&mut out, v, pos, pos + k, first);
                assert(comps_view(out@) + comps_from(v@.subrange(pos + k + 1, v@.len() as int), false)
                    =~= before + comps_from(rest, first));
                pos = pos + k + 1;
                first = false;
            },
        }
    }
}

/// Lexicographic comparison of two character slices.
pub fn order_chars(a: &[char], b: &[char]) -> (r: Order)
    ensures
        r == chars_order(a@, b@),
{
    let mut i: usize = 0;
    assert(a@.subrange(0, a@.len() as int) =~= a@);
    assert(b@.subrange(0, b@.len() as int) =~= b@);
    while i < a.len() && i < b.len()
        invariant
            i <= a@.len(),
            i <= b@.len(),
            chars_order(a@, b@) == chars_order(
                a@.subrange(i as int, a@.len() as int),
                b@.subrange(i as int, b@.len() as int),
            ),
        decreases a@.len() - i,
    {
        let x = a[i];
        let y = b[i];
        if x < y {
            return Order::Less;
        }
        if x > y {
            return Order::Greater;
        }
        assert(a@.subrange(i as int, a@.len() as int).drop_first() =~= a@.subrange(
            i + 1,
            a@.len() as int,
        ));
        assert(b@.subrange(i as int, b@.len() as int).drop_first() =~= b@.subrange(
            i + 1,
            b@.len() as int,
        ));
        i += 1;
    }
    if i == a.len() {
        if i == b.len() {
            Order::Equal
        } else {
            Order::Less
        }
    } else {
        Order::Greater
    }
}

fn rank_of(c: &PathComp) -> (r: u8)
    ensures
        r as int == comp_rank(c.view()),
{
    match c {
        PathComp::Root => 1,
        PathComp::Cur => 2,
        PathComp::Parent => 3,
        PathComp::Normal(_) => 4,
    }
}

fn order_comp(a: &PathComp, b: &PathComp) -> (r: Order)
    ensures
        r == comp_order(a.view(), b.view()),
{
    let ra = rank_of(a);
    let rb = rank_of(b);
    if ra < rb {
        return Order::Less;
    }
    if ra > rb {
        return Order::Greater;
    }
    match (a, b) {
        (PathComp::Normal(x), PathComp::Normal(y)) => order_chars(x.as_slice(), y.as_slice()),
        _ => Order::Equal,
    }
}

/// Lexicographic comparison of two component lists.
pub fn order_comps(a: &[PathComp], b: &[PathComp]) -> (r: Order)
    ensures
        r == comps_order(comps_view(a@), comps_view(b@)),
{
    let mut i: usize = 0;
    assert(comps_view(a@).subrange(0, a@.len() as int) =~= comps_view(a@));
    assert(comps_view(b@).subrange(0, b@.len() as int) =~= comps_view(b@));
    while i < a.len() && i < b.len()
        invariant
            i <= a@.len(),
            i <= b@.len(),
            comps_order(comps_view(a@), comps_view(b@)) == comps_order(
                comps_view(a@).subrange(i as int, a@.len() as int),
                comps_view(b@).subrange(i as int, b@.len() as int),
            ),
        decreases a@.len() - i,
    {
        let o = order_comp(&a[i], &b[i]);
        assert(comps_view(a@).subrange(i as int, a@.len() as int)[0] == a@[i as int].view());
        assert(comps_view(b@).subrange(i as int, b@.len() as int)[0] == b@[i as int].view());
        match o {
            Order::Equal => {},
            _ => {
                return o;
            },
        }
        assert(comps_view(a@).subrange(i as int, a@.len() as int).drop_first()
            =~= comps_view(a@).subrange(i + 1, a@.len() as int));
        assert(comps_view(b@).subrange(i as int, b@.len() as int).drop_first()
            =~= comps_view(b@).subrange(i + 1, b@.len() as int));
        i += 1;
    }
    if i == a.len() {
        if i == b.len() {
            Order::Equal
        } else {
            Order::Less
        }
    } else {
        Order::Greater
    }
}

/// `Path::cmp` on two paths.
pub fn order_paths(a: &str, b: &str) -> (r: Order)
    ensures
        r == path_order(a@, b@),
{
    let av = crate::text::chars_of(a);
    let bv = crate::text::chars_of(b);
    let ac = path_components(av.as_slice());
    let bc = path_components(bv.as_slice());
    order_comps(ac.as_slice(), bc.as_slice())
}

pub proof fn lemma_chars_order_equal(a: Seq<char>, b: Seq<char>)
    ensures
        (chars_order(a, b) == Order::Equal) == (a == b),
    decreases a.len(),
{
    if a.len() > 0 && b.len() > 0 {
        lemma_chars_order_equal(a.drop_first(), b.drop_first());
        if a[0] == b[0] && a.drop_first() == b.drop_first() {
            assert(a =~= seq![a[0]] + a.drop_first());
            assert(b =~= seq![b[0]] + b.drop_first());
        }
        if a == b {
            assert(a.drop_first() == b.drop_first());
        }
    } else if a.len() == 0 && b.len() != 0 {
        assert(a != b);
    } else if a.len() != 0 && b.len() == 0 {
        assert(a != b);
    } else {
        assert(a =~= b);
    }
}

proof fn lemma_comps_order_equal(a: Seq<Comp>, b: Seq<Comp>)
    ensures
        (comps_order(a, b) == Order::Equal) == (a == b),
    decreases a.len(),
{
    if a.len() > 0 && b.len() > 0 {
        lemma_comps_order_equal(a.drop_first(), b.drop_first());
        match (a[0], b[0]) {
            (Comp::Normal(x), Comp::Normal(y)) => {
                lemma_chars_order_equal(x, y);
            },
            _ => {},
        }
        if comp_order(a[0], b[0]) == Order::Equal && a.drop_first() == b.drop_first() {
            assert(a[0] == b[0]);
            assert(a =~= seq![a[0]] + a.drop_first());
            assert(b =~= seq![b[0]] + b.drop_first());
        }
        if a == b {
            assert(a.drop_first() == b.drop_first());
            assert(a[0] == b[0]);
        }
    } else if a.len() == 0 && b.len() != 0 {
        assert(a != b);
    } else if a.len() != 0 && b.len() == 0 {
        assert(a != b);
    } else {
        assert(a =~= b);
    }
}

/// The reverse of an order.
pub open spec fn flip(o: Order) -> Order {
    match o {
        Order::Less => Order::Greater,
        Order::Greater => Order::Less,
        Order::Equal => Order::Equal,
    }
}

pub proof fn lemma_chars_order_flip(a: Seq<char>, b: Seq<char>)
    ensures
        chars_order(b, a) == flip(chars_order(a, b)),
    decreases a.len(),
{
    if a.len() > 0 && b.len() > 0 {
        lemma_chars_order_flip(a.drop_first(), b.drop_first());
    }
}

pub proof fn lemma_chars_order_trans(a: Seq<char>, b: Seq<char>, c: Seq<char>)
    requires
        chars_order(a, b) != Order::Greater,
        chars_order(b, c) != Order::Greater,
    ensures
        chars_order(a, c) != Order::Greater,
        chars_order(a, b) == Order::Less || chars_order(b, c) == Order::Less ==> chars_order(a, c)
            == Order::Less,
    decreases a.len(),
{
    lemma_chars_order_equal(a, b);
    lemma_chars_order_equal(b, c);
    if a.len() > 0 && b.len() > 0 && c.len() > 0 {
        if a[0] == b[0] && b[0] == c[0] {
            lemma_chars_order_trans(a.drop_first(), b.drop_first(), c.drop_first());
        }
    }
}

pub proof fn lemma_comp_order_props(a: Comp, b: Comp, c: Comp)
    ensures
        comp_order(b, a) == flip(comp_order(a, b)),
        (comp_order(a, b) == Order::Equal) == (a == b),
        comp_order(a, b) != Order::Greater && comp_order(b, c) != Order::Greater ==> comp_order(
            a,
            c,
        ) != Order::Greater,
        comp_order(a, b) != Order::Greater && comp_order(b, c) != Order::Greater && (comp_order(
            a,
            b,
        ) == Order::Less || comp_order(b, c) == Order::Less) ==> comp_order(a, c) == Order::Less,
{
    match (a, b) {
        (Comp::Normal(x), Comp::Normal(y)) => {
            lemma_chars_order_flip(x, y);
            lemma_chars_order_equal(x, y);
        },
        _ => {},
    }
    match (a, b, c) {
        (Comp::Normal(x), Comp::Normal(y), Comp::Normal(z)) => {
            if chars_order(x, y) != Order::Greater && chars_order(y, z) != Order::Greater {
                lemma_chars_order_trans(x, y, z);
            }
        },
        _ => {},
    }
}

pub proof fn lemma_comps_order_flip(a: Seq<Comp>, b: Seq<Comp>)
    ensures
        comps_order(b, a) == flip(comps_order(a, b)),
    decreases a.len(),
{
    if a.len() > 0 && b.len() > 0 {
        lemma_comp_order_props(a[0], b[0], b[0]);
        lemma_comps_order_flip(a.drop_first(), b.drop_first());
    }
}

pub proof fn lemma_comps_order_trans(a: Seq<Comp>, b: Seq<Comp>, c: Seq<Comp>)
    requires
        comps_order(a, b) != Order::Greater,
        comps_order(b, c) != Order::Greater,
    ensures
        comps_order(a, c) != Order::Greater,
        comps_order(a, b) == Order::Less || comps_order(b, c) == Order::Less ==> comps_order(a, c)
            == Order::Less,
    decreases a.len(),
{
    lemma_comps_order_equal(a, b);
    lemma_comps_order_equal(b, c);
    if a.len() > 0 && b.len() > 0 && c.len() > 0 {
        lemma_comp_order_props(a[0], b[0], c[0]);
        lemma_comp_order_props(b[0], c[0], c[0]);
        if comp_order(a[0], b[0]) == Order::Equal && comp_order(b[0], c[0]) == Order::Equal {
            lemma_comps_order_trans(a.drop_first(), b.drop_first(), c.drop_first());
        }
    }
}

/// `Path::cmp` is a total order: reversing the arguments reverses the
/// result, and it is transitive.
pub proof fn lemma_path_order(a: Seq<char>, b: Seq<char>, c: Seq<char>)
    ensures
        path_order(b, a) == flip(path_order(a, b)),
        path_order(a, b) != Order::Greater && path_order(b, c) != Order::Greater ==> path_order(
            a,
            c,
        ) != Order::Greater,
        path_order(a, b) != Order::Greater && path_order(b, c) != Order::Greater && (path_order(
            a,
            b,
        ) == Order::Less || path_order(b, c) == Order::Less) ==> path_order(a, c) == Order::Less,
{
    lemma_comps_order_flip(components(a), components(b));
    if path_order(a, b) != Order::Greater && path_order(b, c) != Order::Greater {
        lemma_comps_order_trans(components(a), components(b), components(c));
    }
}

/// `Path::eq` on two paths.
pub fn paths_equal(a: &str, b: &str) -> (r: bool)
    ensures
        r == path_eq(a@, b@),
{
    let o = order_paths(a, b);
    proof {
        lemma_comps_order_equal(components(a@), components(b@));
    }
    match o {
        Order::Equal => true,
        _ => false,
    }
}

} // verus!
