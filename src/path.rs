//! Slash-delimited paths, split into the names that path resolution walks.
use vstd::prelude::*;

verus! {

/// A segment that names something: not empty, not `.` and not `..`.
pub open spec fn is_normal(seg: Seq<char>) -> bool {
    seg.len() > 0 && seg != seq!['.'] && seg != seq!['.', '.']
}

/// The pieces of `p` between slashes, empty ones included; never empty itself.
pub open spec fn segments(p: Seq<char>) -> Seq<Seq<char>>
    decreases p.len(),
{
    if p.len() == 0 {
        seq![Seq::<char>::empty()]
    } else {
        let s = segments(p.drop_last());
        if p.last() == '/' {
            s.push(Seq::<char>::empty())
        } else {
            s.update(s.len() - 1, s.last().push(p.last()))
        }
    }
}

/// The segments of `s` that name something, in order.
pub open spec fn normal_only(s: Seq<Seq<char>>) -> Seq<Seq<char>> {
    s.filter(|c: Seq<char>| is_normal(c))
}

/// The names a path walks through: `.`, `..` and empty segments are skipped.
pub open spec fn components(p: Seq<char>) -> Seq<Seq<char>> {
    normal_only(segments(p))
}

/// The directory names above the last segment of `p`.
pub open spec fn parent_components(p: Seq<char>) -> Seq<Seq<char>> {
    normal_only(segments(p).drop_last())
}

/// The last segment of `p`: the name of a file at `p`, when it is normal.
pub open spec fn last_segment(p: Seq<char>) -> Seq<char> {
    segments(p).last()
}

/// Whether a file name can be taken from `p`.
pub open spec fn is_file_path(p: Seq<char>) -> bool {
    is_normal(last_segment(p))
}

/// The views of a sequence of strings.
pub open spec fn string_views(v: Seq<String>) -> Seq<Seq<char>> {
    v.map_values(|s: String| s@)
}

pub proof fn lemma_segments_len(p: Seq<char>)
    ensures
        segments(p).len() >= 1,
    decreases p.len(),
{
    if p.len() > 0 {
        lemma_segments_len(p.drop_last());
    }
}

pub proof fn lemma_normal_only_push(s: Seq<Seq<char>>, x: Seq<char>)
    ensures
        normal_only(s.push(x)) == if is_normal(x) {
            normal_only(s).push(x)
        } else {
            normal_only(s)
        },
{
    reveal(Seq::filter);
    assert(s.push(x).drop_last() =~= s);
}

/// Whether the characters `from..to` of `p` form a normal segment.
fn is_normal_at(p: &str, from: usize, to: usize) -> (r: bool)
    requires
        from <= to <= p@.len(),
    ensures
        r == is_normal(p@.subrange(from as int, to as int)),
{
    let seg = Ghost(p@.subrange(from as int, to as int));
    assert(seq!['.'].len() == 1 && seq!['.'][0] == '.');
    assert(seq!['.', '.'].len() == 2 && seq!['.', '.'][0] == '.' && seq!['.', '.'][1] == '.');
    if from == to {
        assert(seg@.len() == 0);
        false
    } else if to - from == 1 {
        let c = p.get_char(from);
        if c == '.' {
            assert(seg@ =~= seq!['.']);
            false
        } else {
            assert(seg@[0] != '.');
            true
        }
    } else if to - from == 2 {
        let c0 = p.get_char(from);
        let c1 = p.get_char(from + 1);
        if c0 == '.' && c1 == '.' {
            assert(seg@ =~= seq!['.', '.']);
            false
        } else {
            assert(seg@[0] != '.' || seg@[1] != '.');
            true
        }
    } else {
        assert(seg@.len() > 2);
        true
    }
}

/// Split `path` at its slashes: the normal segments before the last one,
/// and the last segment itself.
pub fn split_last(path: &str) -> (r: (Vec<String>, String))
    ensures
        string_views(r.0@) == parent_components(path@),
        r.1@ == last_segment(path@),
{
    let n = path.unicode_len();
    let mut dirs: Vec<String> = Vec::new();
    let mut start: usize = 0;
    let mut i: usize = 0;
    let ghost mut closed: Seq<Seq<char>> = Seq::empty();
    assert(path@.take(0) =~= Seq::<char>::empty());
    assert(segments(path@.take(0)) =~= closed.push(path@.subrange(0, 0)));
    while i < n
        invariant
            n == path@.len(),
            start <= i <= n,
            segments(path@.take(i as int)) == closed.push(path@.subrange(start as int, i as int)),
            string_views(dirs@) == normal_only(closed),
        decreases n - i,
    {
        let c = path.get_char(i);
        let ghost pre = path@.take(i as int);
        assert(path@.take(i + 1).drop_last() =~= pre);
        assert(path@.take(i + 1).last() == c);
        if c == '/' {
            let normal = is_normal_at(path, start, i);
            let ghost seg = path@.subrange(start as int, i as int);
            proof {
                lemma_normal_only_push(closed, seg);
            }
            if normal {
                let name = path.substring_char(start, i).to_owned();
                let ghost before = dirs@;
                dirs.push(name);
                assert(string_views(dirs@) =~= string_views(before).push(seg));
            }
            proof {
                closed = closed.push(seg);
            }
            start = i + 1;
            assert(path@.subrange(start as int, i + 1) =~= Seq::<char>::empty());
            assert(segments(path@.take(i + 1)) =~= closed.push(path@.subrange(start as int, i + 1)));
        } else {
            assert(path@.subrange(start as int, i + 1) =~= path@.subrange(start as int, i as int).push(c));
            assert(segments(path@.take(i + 1)) =~= closed.push(path@.subrange(start as int, i + 1)));
        }
        i = i + 1;
    }
    assert(path@.take(n as int) =~= path@);
    let last = path.substring_char(start, n).to_owned();
    assert(segments(path@).drop_last() =~= closed);
    (dirs, last)
}

/// The normal components of `path`, in order.
pub fn components_of(path: &str) -> (r: Vec<String>)
    ensures
        string_views(r@) == components(path@),
{
    let (mut dirs, last) = split_last(path);
    let ghost s = segments(path@);
    proof {
        lemma_segments_len(path@);
        assert(s.drop_last().push(s.last()) =~= s);
        lemma_normal_only_push(s.drop_last(), s.last());
    }
    let n = last.as_str().unicode_len();
    if is_normal_at(last.as_str(), 0, n) {
        assert(last@.subrange(0, n as int) =~= last@);
        let ghost before = dirs@;
        dirs.push(last);
        assert(string_views(dirs@) =~= string_views(before).push(s.last()));
    } else {
        assert(last@.subrange(0, n as int) =~= last@);
    }
    dirs
}

/// Names in code-point order: `a` comes before `b`.
pub open spec fn name_lt(a: Seq<char>, b: Seq<char>) -> bool
    decreases a.len(),
{
    if a.len() == 0 {
        b.len() > 0
    } else if b.len() == 0 {
        false
    } else if a[0] != b[0] {
        (a[0] as int) < (b[0] as int)
    } else {
        name_lt(a.drop_first(), b.drop_first())
    }
}

/// Two different names are ordered one way and not the other.
pub proof fn lemma_name_lt_total(a: Seq<char>, b: Seq<char>)
    ensures
        a != b ==> (name_lt(a, b) || name_lt(b, a)),
        !(name_lt(a, b) && name_lt(b, a)),
    decreases a.len(),
{
    if a.len() > 0 && b.len() > 0 {
        if a[0] == b[0] {
            lemma_name_lt_total(a.drop_first(), b.drop_first());
            if a != b {
                assert(a.drop_first() != b.drop_first()) by {
                    if a.drop_first() == b.drop_first() {
                        assert(a =~= seq![a[0]] + a.drop_first());
                        assert(b =~= seq![b[0]] + b.drop_first());
                    }
                }
            }
        } else {
            assert((a[0] as int) != (b[0] as int));
        }
    } else if a.len() == 0 && b.len() == 0 {
        assert(a =~= b);
    }
}

pub proof fn lemma_name_lt_transitive(a: Seq<char>, b: Seq<char>, c: Seq<char>)
    requires
        name_lt(a, b),
        name_lt(b, c),
    ensures
        name_lt(a, c),
    decreases a.len(),
{
    if a.len() > 0 && b.len() > 0 && c.len() > 0 && a[0] == b[0] && b[0] == c[0] {
        lemma_name_lt_transitive(a.drop_first(), b.drop_first(), c.drop_first());
    }
}

proof fn lemma_name_lt_skip(a: Seq<char>, b: Seq<char>, i: int)
    requires
        0 <= i <= a.len(),
        i <= b.len(),
        a.take(i) == b.take(i),
    ensures
        name_lt(a, b) == name_lt(a.skip(i), b.skip(i)),
    decreases i,
{
    if i > 0 {
        assert(a[0] == a.take(i)[0]);
        assert(b[0] == b.take(i)[0]);
        assert(a.drop_first().take(i - 1) =~= a.take(i).drop_first());
        assert(b.drop_first().take(i - 1) =~= b.take(i).drop_first());
        lemma_name_lt_skip(a.drop_first(), b.drop_first(), i - 1);
        assert(a.drop_first().skip(i - 1) =~= a.skip(i));
        assert(b.drop_first().skip(i - 1) =~= b.skip(i));
    } else {
        assert(a.skip(0) =~= a);
        assert(b.skip(0) =~= b);
    }
}

/// Whether name `a` comes before name `b`, in code-point order.
pub fn name_less(a: &str, b: &str) -> (r: bool)
    ensures
        r == name_lt(a@, b@),
{
    let la = a.unicode_len();
    let lb = b.unicode_len();
    let mut i: usize = 0;
    while i < la && i < lb
        invariant
            la == a@.len(),
            lb == b@.len(),
            i <= la,
            i <= lb,
            a@.take(i as int) == b@.take(i as int),
        decreases la - i,
    {
        let ca = a.get_char(i);
        let cb = b.get_char(i);
        if ca != cb {
            proof {
                lemma_name_lt_skip(a@, b@, i as int);
                assert(a@.skip(i as int)[0] == ca);
                assert(b@.skip(i as int)[0] == cb);
            }
            return (ca as u32) < (cb as u32);
        }
        assert(a@.take(i + 1) =~= a@.take(i as int).push(ca));
        assert(b@.take(i + 1) =~= b@.take(i as int).push(cb));
        i = i + 1;
    }
    proof {
        lemma_name_lt_skip(a@, b@, i as int);
    }
    la < lb
}

/// A sequence of (name, index) pairs in strictly increasing name order.
pub open spec fn sorted_by_name(s: Seq<(String, usize)>) -> bool {
    forall|a: int, b: int| 0 <= a < b < s.len() ==> name_lt(#[trigger] s[a].0@, #[trigger] s[b].0@)
}

/// `items` sorted by name; their names are all different.
pub fn sort_by_name(items: Vec<(String, usize)>) -> (r: Vec<(String, usize)>)
    requires
        forall|a: int, b: int|
            0 <= a < items.len() && 0 <= b < items.len() && a != b ==> #[trigger] items@[a].0@
                != #[trigger] items@[b].0@,
    ensures
        r.len() == items.len(),
        sorted_by_name(r@),
        forall|x: (String, usize)| r@.contains(x) <==> items@.contains(x),
{
    let mut out: Vec<(String, usize)> = Vec::new();
    let mut i: usize = 0;
    while i < items.len()
        invariant
            i <= items.len(),
            out.len() == i,
            sorted_by_name(out@),
            forall|a: int, b: int|
                0 <= a < items.len() && 0 <= b < items.len() && a != b ==> #[trigger] items@[a].0@
                    != #[trigger] items@[b].0@,
            forall|x: (String, usize)| out@.contains(x) <==> items@.take(i as int).contains(x),
        decreases items.len() - i,
    {
        let x = (items[i].0.clone(), items[i].1);
        assert(x == items@[i as int]);
        let mut p: usize = 0;
        while p < out.len() && name_less(out[p].0.as_str(), x.0.as_str())
            invariant
                p <= out.len(),
                forall|k: int| 0 <= k < p ==> name_lt(#[trigger] out@[k].0@, x.0@),
            decreases out.len() - p,
        {
            p = p + 1;
        }
        let ghost before = out@;
        assert(forall|y: (String, usize)| before.contains(y) <==> items@.take(i as int).contains(y));
        proof {
            assert forall|k: int| 0 <= k < before.len() implies #[trigger] before[k].0@ != x.0@ by {
                assert(before.contains(before[k]));
                assert(items@.take(i as int).contains(before[k]));
                let t = items@.take(i as int);
                let j = choose|j: int| 0 <= j < t.len() && #[trigger] t[j] == before[k];
                assert(items@[j] == before[k]);
            }
            if p < before.len() {
                lemma_name_lt_total(before[p as int].0@, x.0@);
                assert(name_lt(x.0@, before[p as int].0@));
                assert forall|k: int| p < k < before.len() implies name_lt(x.0@, #[trigger] before[k].0@) by {
                    lemma_name_lt_transitive(x.0@, before[p as int].0@, before[k].0@);
                }
            }
        }
        out.insert(p, x);
        assert(out@ == before.insert(p as int, x));
        assert(sorted_by_name(out@)) by {
            assert forall|a: int, b: int| 0 <= a < b < out@.len() implies name_lt(#[trigger] out@[a].0@, #[trigger] out@[b].0@) by {
                if b < p {
                    assert(out@[a] == before[a] && out@[b] == before[b]);
                } else if b == p {
                    assert(out@[a] == before[a]);
                } else if a == p {
                    assert(out@[b] == before[b - 1]);
                    if b - 1 > p {
                        assert(name_lt(x.0@, before[b - 1].0@));
                    }
                } else if a < p {
                    assert(out@[a] == before[a] && out@[b] == before[b - 1]);
                    lemma_name_lt_transitive(before[a].0@, x.0@, before[b - 1].0@);
                } else {
                    assert(out@[a] == before[a - 1] && out@[b] == before[b - 1]);
                }
            }
        }
        assert forall|y: (String, usize)| out@.contains(y) <==> items@.take(i + 1).contains(y) by {
            assert(items@.take(i + 1) =~= items@.take(i as int).push(x));
            if out@.contains(y) {
                let k = choose|k: int| 0 <= k < out@.len() && out@[k] == y;
                if k < p {
                    assert(before[k] == y);
                    assert(before.contains(y));
                } else if k > p {
                    assert(before[k - 1] == y);
                    assert(before.contains(y));
                } else {
                    assert(items@.take(i + 1)[i as int] == y);
                }
            }
            if items@.take(i + 1).contains(y) {
                if y == x {
                    assert(out@[p as int] == y);
                } else {
                    assert(items@.take(i as int).contains(y)) by {
                        let t = items@.take(i + 1);
                        let j = choose|j: int| 0 <= j < t.len() && #[trigger] t[j] == y;
                        assert(j < i);
                        assert(items@.take(i as int)[j] == y);
                    }
                    assert(before.contains(y));
                    let k = choose|k: int| 0 <= k < before.len() && before[k] == y;
                    if k < p {
                        assert(out@[k] == y);
                    } else {
                        assert(out@[k + 1] == y);
                    }
                }
            }
        }
        i = i + 1;
    }
    assert(items@.take(items.len() as int) =~= items@);
    out
}

} // verus!
