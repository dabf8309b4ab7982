//! POSIX-style path helpers used to resolve cross-reference URLs.

use vstd::prelude::*;

use crate::text::{
    chars_of, find_char_from, find_from, lemma_find_from_range, lemma_rfind_before_range, own,
    rfind_char, rfind_spec, str_eq, substring,
};

verus! {

/// The pieces of `s[i..]` between `sep` characters (`str::split`).
pub open spec fn split_from(s: Seq<char>, sep: char, i: int) -> Seq<Seq<char>>
    decreases s.len() - i,
{
    let j = find_from(s, sep, i);
    if i < 0 || i > s.len() {
        Seq::empty()
    } else if j < i {
        seq![s.subrange(i, s.len() as int)]
    } else {
        proof {
            lemma_find_from_range(s, sep, i);
        }
        seq![s.subrange(i, j)] + split_from(s, sep, j + 1)
    }
}

/// The pieces of `s` between `/` characters.
pub open spec fn segments(s: Seq<char>) -> Seq<Seq<char>> {
    split_from(s, '/', 0)
}

/// The parts joined with `sep` between consecutive parts (`slice::join`).
pub open spec fn join(parts: Seq<Seq<char>>, sep: Seq<char>) -> Seq<char>
    decreases parts.len(),
{
    if parts.len() == 0 {
        Seq::empty()
    } else if parts.len() == 1 {
        parts[0]
    } else {
        join(parts.drop_last(), sep) + sep + parts.last()
    }
}

/// One segment applied to the resolved parts: empty and `.` segments are
/// skipped, `..` drops the last part (if any), anything else is appended.
pub open spec fn apply_segment(acc: Seq<Seq<char>>, seg: Seq<char>) -> Seq<Seq<char>> {
    if seg.len() == 0 || seg == "."@ {
        acc
    } else if seg == ".."@ {
        if acc.len() > 0 {
            acc.drop_last()
        } else {
            acc
        }
    } else {
        acc.push(seg)
    }
}

/// The segments applied in order, starting from `acc`.
pub open spec fn resolve(acc: Seq<Seq<char>>, segs: Seq<Seq<char>>) -> Seq<Seq<char>>
    decreases segs.len(),
{
    if segs.len() == 0 {
        acc
    } else {
        resolve(apply_segment(acc, segs[0]), segs.drop_first())
    }
}

/// `path` with `.`, `..` and empty segments resolved.
pub open spec fn normalize_spec(path: Seq<char>) -> Seq<char> {
    join(resolve(Seq::empty(), segments(path)), "/"@)
}

/// The parent directory portion of `path`: everything before its last `/`.
pub open spec fn parent_spec(path: Seq<char>) -> Seq<char> {
    let i = rfind_spec(path, '/');
    if i >= 0 {
        path.subrange(0, i)
    } else {
        Seq::empty()
    }
}

/// The file name of `path`: everything after its last `/`.
pub open spec fn file_name_spec(path: Seq<char>) -> Seq<char> {
    let i = rfind_spec(path, '/');
    if i >= 0 {
        path.subrange(i + 1, path.len() as int)
    } else {
        path
    }
}

/// The file stem of `path`: its file name up to the name's last `.`.
pub open spec fn file_stem_spec(path: Seq<char>) -> Seq<char> {
    let name = file_name_spec(path);
    let d = rfind_spec(name, '.');
    if d >= 0 {
        name.subrange(0, d)
    } else {
        name
    }
}

/// Length of the common prefix of `a` and `b`, counting from `k`.
pub open spec fn common_from(a: Seq<Seq<char>>, b: Seq<Seq<char>>, k: int) -> int
    decreases a.len() - k,
{
    if 0 <= k < a.len() && k < b.len() && a[k] == b[k] {
        common_from(a, b, k + 1)
    } else {
        k
    }
}

/// `n` copies of `..`.
pub open spec fn ups(n: nat) -> Seq<Seq<char>>
    decreases n,
{
    if n == 0 {
        Seq::empty()
    } else {
        ups((n - 1) as nat).push(".."@)
    }
}

/// The parts of the relative path from directory `from_dir` to `to`.
pub open spec fn relative_parts(to: Seq<char>, from_dir: Seq<char>) -> Seq<Seq<char>> {
    let tp = if to.len() == 0 { Seq::empty() } else { segments(to) };
    let fp = segments(from_dir);
    let c = common_from(tp, fp, 0);
    ups((fp.len() - c) as nat) + tp.subrange(c, tp.len() as int)
}

/// The relative POSIX path from directory `from_dir` to `to`.
pub open spec fn relative_spec(to: Seq<char>, from_dir: Seq<char>) -> Seq<char> {
    if from_dir.len() == 0 || from_dir == "."@ {
        to
    } else {
        let parts = relative_parts(to, from_dir);
        if parts.len() == 0 {
            "."@
        } else {
            join(parts, "/"@)
        }
    }
}

pub proof fn lemma_common_from_bound(a: Seq<Seq<char>>, b: Seq<Seq<char>>, k: int)
    requires
        0 <= k <= a.len(),
        k <= b.len(),
    ensures
        k <= common_from(a, b, k) <= a.len(),
        common_from(a, b, k) <= b.len(),
        forall|i: int| k <= i < common_from(a, b, k) ==> a[i] == b[i],
    decreases a.len() - k,
{
    if 0 <= k < a.len() && k < b.len() && a[k] == b[k] {
        lemma_common_from_bound(a, b, k + 1);
    }
}

// ---------------------------------------------------------------------------
// Laws
// ---------------------------------------------------------------------------

/// A path segment that resolution keeps as it is: non-empty, not `.` or
/// `..`, and without `/`.
pub open spec fn clean_segment(x: Seq<char>) -> bool {
    x.len() > 0 && x != "."@ && x != ".."@ && !x.contains('/')
}

pub open spec fn all_clean(segs: Seq<Seq<char>>) -> bool {
    forall|k: int| 0 <= k < segs.len() ==> clean_segment(#[trigger] segs[k])
}

/// A path made only of clean segments (no `.`, `..`, empty segment, or
/// leading, trailing or doubled `/`).
pub open spec fn clean_path(p: Seq<char>) -> bool {
    all_clean(segments(p))
}

proof fn lemma_find_from_absent(s: Seq<char>, c: char, i: int)
    requires
        0 <= i,
        !s.contains(c),
    ensures
        find_from(s, c, i) == -1,
    decreases s.len() - i,
{
    if i < s.len() {
        assert(s[i] != c);
        lemma_find_from_absent(s, c, i + 1);
    }
}

proof fn lemma_find_from_shift(x: Seq<char>, y: Seq<char>, c: char, k: int)
    requires
        0 <= k,
    ensures
        find_from(x + y, c, x.len() + k) == (if find_from(y, c, k) >= 0 {
            x.len() + find_from(y, c, k)
        } else {
            -1
        }),
    decreases y.len() - k,
{
    if k < y.len() {
        assert((x + y)[x.len() + k] == y[k]);
        if y[k] != c {
            lemma_find_from_shift(x, y, c, k + 1);
        }
    }
}

proof fn lemma_find_from_concat(a: Seq<char>, t: Seq<char>, c: char, i: int)
    requires
        0 <= i <= a.len(),
    ensures
        find_from(a + t, c, i) == (if find_from(a, c, i) >= 0 {
            find_from(a, c, i)
        } else if find_from(t, c, 0) >= 0 {
            a.len() + find_from(t, c, 0)
        } else {
            -1
        }),
    decreases a.len() - i,
{
    if i < a.len() {
        assert((a + t)[i] == a[i]);
        if a[i] != c {
            lemma_find_from_concat(a, t, c, i + 1);
        }
    } else {
        lemma_find_from_shift(a, t, c, 0);
    }
}

proof fn lemma_split_shift(x: Seq<char>, y: Seq<char>, sep: char, k: int)
    requires
        0 <= k <= y.len(),
    ensures
        split_from(x + y, sep, x.len() + k) == split_from(y, sep, k),
    decreases y.len() - k,
{
    lemma_find_from_shift(x, y, sep, k);
    lemma_find_from_range(y, sep, k);
    let j = find_from(y, sep, k);
    if j >= k {
        assert((x + y).subrange(x.len() + k, x.len() + j) =~= y.subrange(k, j));
        lemma_split_shift(x, y, sep, j + 1);
    } else {
        assert((x + y).subrange(x.len() + k, (x + y).len() as int) =~= y.subrange(k, y.len() as int));
    }
}

proof fn lemma_split_concat_from(a: Seq<char>, b: Seq<char>, sep: char, i: int)
    requires
        0 <= i <= a.len(),
    ensures
        split_from(a + seq![sep] + b, sep, i) == split_from(a, sep, i) + split_from(b, sep, 0),
    decreases a.len() - i,
{
    let t = seq![sep] + b;
    let s = a + seq![sep] + b;
    assert(s =~= a + t);
    lemma_find_from_concat(a, t, sep, i);
    lemma_find_from_range(a, sep, i);
    assert(find_from(t, sep, 0) == 0);
    let j = find_from(a, sep, i);
    if j >= i {
        assert(s.subrange(i, j) =~= a.subrange(i, j));
        lemma_split_concat_from(a, b, sep, j + 1);
        assert(split_from(s, sep, i) =~= seq![a.subrange(i, j)] + split_from(s, sep, j + 1));
        assert(split_from(a, sep, i) =~= seq![a.subrange(i, j)] + split_from(a, sep, j + 1));
    } else {
        assert(find_from(s, sep, i) == a.len());
        assert(s.subrange(i, a.len() as int) =~= a.subrange(i, a.len() as int));
        assert(s =~= (a + seq![sep]) + b);
        lemma_split_shift(a + seq![sep], b, sep, 0);
        assert(split_from(s, sep, i) =~= seq![a.subrange(i, a.len() as int)] + split_from(b, sep, 0));
    }
}

/// Splitting `a`, `/`, `b` gives the pieces of `a` followed by those of `b`.
proof fn lemma_segments_concat(a: Seq<char>, b: Seq<char>)
    ensures
        segments(a + "/"@ + b) == segments(a) + segments(b),
{
    reveal_strlit("/");
    assert("/"@ =~= seq!['/']);
    lemma_split_concat_from(a, b, '/', 0);
}

proof fn lemma_split_nonempty(s: Seq<char>, sep: char, i: int)
    requires
        0 <= i <= s.len(),
    ensures
        split_from(s, sep, i).len() >= 1,
        forall|k: int| 0 <= k < split_from(s, sep, i).len() ==> !(#[trigger] split_from(s, sep, i)[k]).contains(sep),
    decreases s.len() - i,
{
    lemma_find_from_range(s, sep, i);
    let j = find_from(s, sep, i);
    let sp = split_from(s, sep, i);
    if j >= i {
        lemma_split_nonempty(s, sep, j + 1);
        let rest = split_from(s, sep, j + 1);
        assert forall|k: int| 0 <= k < sp.len() implies !(#[trigger] sp[k]).contains(sep) by {
            if k == 0 {
                let x = s.subrange(i, j);
                if x.contains(sep) {
                    let q = choose|q: int| 0 <= q < x.len() && x[q] == sep;
                    assert(find_from(s, sep, i) <= i + q) by {
                        lemma_find_first(s, sep, i, i + q);
                    }
                }
            } else {
                assert(sp[k] == rest[k - 1]);
            }
        }
    } else {
        let x = s.subrange(i, s.len() as int);
        if x.contains(sep) {
            let q = choose|q: int| 0 <= q < x.len() && x[q] == sep;
            lemma_find_first(s, sep, i, i + q);
        }
    }
}

/// The scan finds a `c` no later than any `c` at or after its start.
proof fn lemma_find_first(s: Seq<char>, c: char, i: int, q: int)
    requires
        0 <= i <= q < s.len(),
        s[q] == c,
    ensures
        i <= find_from(s, c, i) <= q,
    decreases q - i,
{
    if s[i] != c {
        lemma_find_first(s, c, i + 1, q);
    }
}

proof fn lemma_join_cons(x: Seq<char>, rest: Seq<Seq<char>>, sep: Seq<char>)
    requires
        rest.len() >= 1,
    ensures
        join(seq![x] + rest, sep) == x + sep + join(rest, sep),
    decreases rest.len(),
{
    let all = seq![x] + rest;
    assert(all.drop_last() =~= seq![x] + rest.drop_last());
    assert(all.last() == rest.last());
    if rest.len() == 1 {
        assert(seq![x] + rest.drop_last() =~= seq![x]);
        assert(join(seq![x], sep) == x);
        assert(join(rest, sep) == rest[0]);
    } else {
        lemma_join_cons(x, rest.drop_last(), sep);
        assert(join(rest, sep) == join(rest.drop_last(), sep) + sep + rest.last());
        assert(join(all, sep) =~= x + sep + join(rest, sep));
    }
}

/// Joining the pieces of a split with the separator gives the text back.
proof fn lemma_join_split(s: Seq<char>, i: int)
    requires
        0 <= i <= s.len(),
    ensures
        join(split_from(s, '/', i), "/"@) == s.subrange(i, s.len() as int),
    decreases s.len() - i,
{
    reveal_strlit("/");
    lemma_find_from_range(s, '/', i);
    let j = find_from(s, '/', i);
    if j >= i {
        lemma_join_split(s, j + 1);
        lemma_split_nonempty(s, '/', j + 1);
        lemma_join_cons(s.subrange(i, j), split_from(s, '/', j + 1), "/"@);
        assert(s.subrange(i, j) + "/"@ + s.subrange(j + 1, s.len() as int) =~= s.subrange(i, s.len() as int));
    }
}

/// Splitting a joined list of slash-free parts gives the parts back.
proof fn lemma_segments_join(parts: Seq<Seq<char>>)
    requires
        parts.len() >= 1,
        forall|k: int| 0 <= k < parts.len() ==> !(#[trigger] parts[k]).contains('/'),
    ensures
        segments(join(parts, "/"@)) == parts,
    decreases parts.len(),
{
    if parts.len() == 1 {
        lemma_find_from_absent(parts[0], '/', 0);
        assert(parts[0].subrange(0, parts[0].len() as int) =~= parts[0]);
        assert(segments(parts[0]) =~= parts);
    } else {
        let init = parts.drop_last();
        lemma_segments_join(init);
        lemma_segments_concat(join(init, "/"@), parts.last());
        lemma_find_from_absent(parts.last(), '/', 0);
        assert(parts.last().subrange(0, parts.last().len() as int) =~= parts.last());
        assert(init + seq![parts.last()] =~= parts);
    }
}

proof fn lemma_resolve_concat(acc: Seq<Seq<char>>, x: Seq<Seq<char>>, y: Seq<Seq<char>>)
    ensures
        resolve(acc, x + y) == resolve(resolve(acc, x), y),
    decreases x.len(),
{
    if x.len() == 0 {
        assert(x + y =~= y);
    } else {
        assert((x + y).drop_first() =~= x.drop_first() + y);
        assert((x + y)[0] == x[0]);
        lemma_resolve_concat(apply_segment(acc, x[0]), x.drop_first(), y);
    }
}

proof fn lemma_resolve_clean(acc: Seq<Seq<char>>, segs: Seq<Seq<char>>)
    requires
        all_clean(segs),
    ensures
        resolve(acc, segs) == acc + segs,
    decreases segs.len(),
{
    if segs.len() == 0 {
        assert(acc + segs =~= acc);
    } else {
        assert(clean_segment(segs[0]));
        let rest = segs.drop_first();
        assert(all_clean(rest)) by {
            assert forall|k: int| 0 <= k < rest.len() implies clean_segment(#[trigger] rest[k]) by {
                assert(rest[k] == segs[k + 1]);
            }
        }
        lemma_resolve_clean(acc.push(segs[0]), rest);
        assert(acc.push(segs[0]) + rest =~= acc + segs);
    }
}

proof fn lemma_resolve_ups(acc: Seq<Seq<char>>, n: nat)
    requires
        n <= acc.len(),
    ensures
        resolve(acc, ups(n)) == acc.take(acc.len() - n),
    decreases n,
{
    reveal_strlit("..");
    reveal_strlit(".");
    if n == 0 {
        assert(acc.take(acc.len() as int) =~= acc);
    } else {
        lemma_resolve_concat(acc, ups((n - 1) as nat), seq![".."@]);
        assert(ups((n - 1) as nat) + seq![".."@] =~= ups(n));
        lemma_resolve_ups(acc, (n - 1) as nat);
        let mid = acc.take(acc.len() - n + 1);
        assert(".."@.len() == 2);
        assert("."@.len() == 1);
        assert(".."@ != "."@);
        assert(resolve(mid, seq![".."@]) == resolve(apply_segment(mid, seq![".."@][0]), seq![".."@].drop_first()));
        assert(seq![".."@].drop_first() =~= Seq::<Seq<char>>::empty());
        assert(mid.drop_last() =~= acc.take(acc.len() - n));
    }
}

proof fn lemma_resolve_keeps_clean(acc: Seq<Seq<char>>, segs: Seq<Seq<char>>)
    requires
        all_clean(acc),
        forall|k: int| 0 <= k < segs.len() ==> !(#[trigger] segs[k]).contains('/'),
    ensures
        all_clean(resolve(acc, segs)),
    decreases segs.len(),
{
    if segs.len() > 0 {
        let next = apply_segment(acc, segs[0]);
        assert(all_clean(next)) by {
            assert forall|k: int| 0 <= k < next.len() implies clean_segment(#[trigger] next[k]) by {
                if k < acc.len() {
                    assert(next[k] == acc[k]);
                }
            }
        }
        let rest = segs.drop_first();
        assert forall|k: int| 0 <= k < rest.len() implies !(#[trigger] rest[k]).contains('/') by {
            assert(rest[k] == segs[k + 1]);
        }
        lemma_resolve_keeps_clean(next, rest);
    }
}

/// Normalising a normalised path changes nothing.
pub proof fn law_normalize_idempotent(p: Seq<char>)
    ensures
        normalize_spec(normalize_spec(p)) == normalize_spec(p),
{
    reveal_strlit("/");
    lemma_split_nonempty(p, '/', 0);
    let r = resolve(Seq::empty(), segments(p));
    lemma_resolve_keeps_clean(Seq::empty(), segments(p));
    if r.len() == 0 {
        assert(join(r, "/"@) =~= Seq::<char>::empty());
        let e = Seq::<char>::empty();
        assert(find_from(e, '/', 0) == -1);
        assert(e.subrange(0, 0) =~= e);
        assert(segments(e) =~= seq![e]);
        assert(resolve(Seq::empty(), seq![e]) == resolve(apply_segment(Seq::empty(), e), seq![e].drop_first()));
        assert(seq![e].drop_first() =~= Seq::<Seq<char>>::empty());
    } else {
        lemma_segments_join(r);
        lemma_resolve_clean(Seq::empty(), r);
        assert(Seq::<Seq<char>>::empty() + r =~= r);
    }
}

/// Resolving a relative path from `from_dir` leads to `to`: for clean paths,
/// `from_dir/relative_path(to, from_dir)` normalises to `to`.
pub proof fn law_relative_path_resolves(to: Seq<char>, from_dir: Seq<char>)
    requires
        clean_path(from_dir),
        to.len() == 0 || clean_path(to),
    ensures
        normalize_spec(from_dir + "/"@ + relative_spec(to, from_dir)) == to,
{
    reveal_strlit("/");
    reveal_strlit(".");
    reveal_strlit("..");
    let fp = segments(from_dir);
    lemma_split_nonempty(from_dir, '/', 0);
    lemma_clean_path_not_trivial(from_dir);
    let tp = if to.len() == 0 { Seq::<Seq<char>>::empty() } else { segments(to) };
    assert(all_clean(tp));
    let c = common_from(tp, fp, 0);
    lemma_common_from_bound(tp, fp, 0);
    let k = (fp.len() - c) as nat;
    lemma_ups_all(k);
    let parts = relative_parts(to, from_dir);
    assert(parts == ups(k) + tp.subrange(c, tp.len() as int));
    assert forall|i: int| 0 <= i < parts.len() implies !(#[trigger] parts[i]).contains('/') by {
        if i < k {
            lemma_ups_all(k);
            assert(parts[i] == ".."@);
            if parts[i].contains('/') {
                let q = choose|q: int| 0 <= q < parts[i].len() && parts[i][q] == '/';
            }
        } else {
            assert(parts[i] == tp[c + i - k]);
            assert(clean_segment(tp[c + i - k]));
        }
    }
    lemma_join_split(from_dir, 0);
    assert(from_dir.subrange(0, from_dir.len() as int) =~= from_dir);
    let head = fp.take(c);
    assert(head =~= tp.take(c));
    if parts.len() == 0 {
        // same directory: the relative path is "."
        assert(c == fp.len() && c == tp.len());
        lemma_segments_concat(from_dir, "."@);
        lemma_find_from_absent("."@, '/', 0);
        assert("."@.subrange(0, 1) =~= "."@);
        assert(segments("."@) =~= seq!["."@]);
        lemma_resolve_concat(Seq::empty(), fp, seq!["."@]);
        lemma_resolve_clean(Seq::empty(), fp);
        assert(Seq::<Seq<char>>::empty() + fp =~= fp);
        assert(resolve(fp, seq!["."@]) == resolve(apply_segment(fp, "."@), seq!["."@].drop_first()));
        assert(seq!["."@].drop_first() =~= Seq::<Seq<char>>::empty());
        assert(tp =~= fp);
        if to.len() == 0 {
            assert(false);
        }
        lemma_join_split(to, 0);
        assert(to.subrange(0, to.len() as int) =~= to);
    } else {
        lemma_segments_join(parts);
        lemma_segments_concat(from_dir, join(parts, "/"@));
        lemma_resolve_concat(Seq::empty(), fp, parts);
        lemma_resolve_clean(Seq::empty(), fp);
        assert(Seq::<Seq<char>>::empty() + fp =~= fp);
        lemma_resolve_concat(fp, ups(k), tp.subrange(c, tp.len() as int));
        lemma_resolve_ups(fp, k);
        assert(fp.take(fp.len() - k) =~= head);
        let tail = tp.subrange(c, tp.len() as int);
        assert(all_clean(tail)) by {
            assert forall|i: int| 0 <= i < tail.len() implies clean_segment(#[trigger] tail[i]) by {
                assert(tail[i] == tp[c + i]);
            }
        }
        lemma_resolve_clean(head, tail);
        assert(head + tail =~= tp);
        if to.len() == 0 {
            assert(join(tp, "/"@) =~= Seq::<char>::empty());
        } else {
            lemma_join_split(to, 0);
            assert(to.subrange(0, to.len() as int) =~= to);
        }
    }
}

/// The last character of a join of non-empty parts is that of the last part.
proof fn lemma_join_last(parts: Seq<Seq<char>>, sep: Seq<char>)
    requires
        parts.len() >= 1,
        parts.last().len() > 0,
    ensures
        join(parts, sep).len() > 0,
        join(parts, sep).last() == parts.last().last(),
{
    if parts.len() > 1 {
        let a = join(parts.drop_last(), sep) + sep;
        assert((a + parts.last()).last() == parts.last().last());
    }
}

/// A normalised path is empty, or clean and without a trailing `/`.
pub proof fn lemma_normalize_shape(p: Seq<char>)
    ensures
        normalize_spec(p).len() == 0 || (clean_path(normalize_spec(p)) && normalize_spec(p).last() != '/'),
{
    lemma_split_nonempty(p, '/', 0);
    let r = resolve(Seq::empty(), segments(p));
    lemma_resolve_keeps_clean(Seq::empty(), segments(p));
    if r.len() > 0 {
        assert forall|k: int| 0 <= k < r.len() implies !(#[trigger] r[k]).contains('/') by {
            assert(clean_segment(r[k]));
        }
        lemma_segments_join(r);
        let x = r.last();
        assert(clean_segment(x));
        lemma_join_last(r, "/"@);
        if x.last() == '/' {
            assert(x[x.len() - 1] == '/');
            assert(x.contains('/'));
        }
    } else {
        assert(join(r, "/"@) =~= Seq::<char>::empty());
    }
}

proof fn lemma_segments_empty()
    ensures
        segments(Seq::<char>::empty()) == seq![Seq::<char>::empty()],
{
    let e = Seq::<char>::empty();
    assert(find_from(e, '/', 0) == -1);
    assert(e.subrange(0, 0) =~= e);
    assert(segments(e) =~= seq![e]);
}

/// Resolving segments that are all skipped changes nothing.
proof fn lemma_resolve_skipped(acc: Seq<Seq<char>>, x: Seq<char>)
    requires
        x.len() == 0 || x == "."@,
    ensures
        resolve(acc, seq![x]) == acc,
{
    assert(resolve(acc, seq![x]) == resolve(apply_segment(acc, seq![x][0]), seq![x].drop_first()));
    assert(seq![x].drop_first() =~= Seq::<Seq<char>>::empty());
}

/// A trailing `/` does not change a path's normal form.
pub proof fn lemma_normalize_trailing_slash(x: Seq<char>)
    ensures
        normalize_spec(x + "/"@) == normalize_spec(x),
{
    let e = Seq::<char>::empty();
    lemma_segments_concat(x, e);
    assert(x + "/"@ + e =~= x + "/"@);
    lemma_segments_empty();
    lemma_resolve_concat(Seq::empty(), segments(x), seq![e]);
    lemma_resolve_skipped(resolve(Seq::empty(), segments(x)), e);
}

/// A leading empty or `.` directory does not change a path's normal form.
pub proof fn lemma_normalize_skipped_head(d: Seq<char>, x: Seq<char>)
    requires
        d.len() == 0 || d == "."@,
    ensures
        normalize_spec(d + "/"@ + x) == normalize_spec(x),
{
    reveal_strlit(".");
    lemma_segments_concat(d, x);
    if d.len() == 0 {
        lemma_segments_empty();
        assert(d =~= Seq::<char>::empty());
    } else {
        assert(d.len() == 1 && d[0] == '.');
        assert(!d.contains('/')) by {
            if d.contains('/') {
                let q = choose|q: int| 0 <= q < d.len() && d[q] == '/';
                assert(q == 0);
            }
        }
        lemma_find_from_absent(d, '/', 0);
        assert(d.subrange(0, d.len() as int) =~= d);
        assert(segments(d) =~= seq![d]);
    }
    assert(segments(d + "/"@ + x) == seq![d] + segments(x));
    lemma_resolve_concat(Seq::empty(), seq![d], segments(x));
    lemma_resolve_skipped(Seq::empty(), d);
    assert(resolve(Seq::empty(), segments(d + "/"@ + x)) == resolve(Seq::empty(), segments(x)));
}

proof fn lemma_clean_path_not_trivial(p: Seq<char>)
    requires
        clean_path(p),
    ensures
        p.len() > 0,
        p != "."@,
{
    reveal_strlit(".");
    lemma_split_nonempty(p, '/', 0);
    let fp = segments(p);
    assert(clean_segment(fp[0]));
    if p.len() == 0 {
        assert(find_from(p, '/', 0) == -1);
        assert(fp[0] =~= p.subrange(0, 0));
        assert(fp[0].len() == 0);
    }
    if p == "."@ {
        assert(p.len() == 1 && p[0] == '.');
        assert(find_from(p, '/', 1) == -1);
        assert(find_from(p, '/', 0) == -1);
        assert(fp[0] =~= p);
    }
}

proof fn lemma_ups_all(n: nat)
    ensures
        ups(n).len() == n,
        forall|i: int| 0 <= i < n ==> #[trigger] ups(n)[i] == ".."@,
    decreases n,
{
    if n > 0 {
        lemma_ups_all((n - 1) as nat);
    }
}

/// The pieces of `s` between `sep` characters (`str::split`).
pub fn split<'a>(s: &'a str, sep: char) -> (r: Vec<&'a str>)
    ensures
        r@.map_values(|p: &str| p@) == split_from(s@, sep, 0),
{
    let cs = chars_of(s);
    let n = cs.len();
    let mut r: Vec<&'a str> = Vec::new();
    let mut start: usize = 0;
    while start <= n
        invariant
            cs@ == s@,
            n == s@.len(),
            r@.map_values(|p: &str| p@) + split_from(s@, sep, start as int) == split_from(s@, sep, 0),
        decreases n + 1 - start,
    {
        proof {
            lemma_find_from_range(s@, sep, start as int);
        }
        match find_char_from(&cs, sep, start) {
            Some(j) => {
                let piece = substring(s, start, j);
                proof {
                    assert(r@.push(piece).map_values(|p: &str| p@) =~= r@.map_values(|p: &str| p@)
                        + seq![piece@]);
                }
                r.push(piece);
                start = j + 1;
            },
            None => {
                let piece = substring(s, start, n);
                proof {
                    assert(r@.push(piece).map_values(|p: &str| p@) =~= r@.map_values(|p: &str| p@)
                        + seq![piece@]);
                    assert(split_from(s@, sep, start as int) == seq![piece@]);
                }
                r.push(piece);
                return r;
            },
        }
    }
    proof {
        assert(split_from(s@, sep, start as int) =~= Seq::<Seq<char>>::empty());
        assert(r@.map_values(|p: &str| p@) + Seq::<Seq<char>>::empty() =~= r@.map_values(|p: &str| p@));
    }
    r
}

/// The parts joined with `sep` between consecutive parts (`slice::join`).
pub fn join_parts(parts: &Vec<&str>, sep: &str) -> (r: String)
    ensures
        r@ == join(parts@.map_values(|p: &str| p@), sep@),
{
    let ghost pv = parts@.map_values(|p: &str| p@);
    let mut out = String::new();
    let mut i: usize = 0;
    while i < parts.len()
        invariant
            pv == parts@.map_values(|p: &str| p@),
            i <= parts@.len(),
            out@ == join(pv.take(i as int), sep@),
        decreases parts@.len() - i,
    {
        if i > 0 {
            out.append(sep);
        }
        out.append(parts[i]);
        proof {
            assert(pv.take(i + 1).drop_last() =~= pv.take(i as int));
            if i == 0 {
                assert(join(pv.take(0), sep@) =~= Seq::<char>::empty());
            }
        }
        i = i + 1;
    }
    proof {
        assert(pv.take(parts@.len() as int) =~= pv);
    }
    out
}

/// Return the parent directory portion of a POSIX path.
pub fn parent_path(path: &str) -> (r: &str)
    ensures
        r@ == parent_spec(path@),
{
    let cs = chars_of(path);
    match rfind_char(&cs, '/') {
        Some(i) => substring(path, 0, i),
        None => {
            proof {
                assert(path@.subrange(0, 0) =~= Seq::<char>::empty());
            }
            substring(path, 0, 0)
        },
    }
}

/// Return the file stem (name without extension) of a POSIX path.
pub fn file_stem(path: &str) -> (r: &str)
    ensures
        r@ == file_stem_spec(path@),
{
    let cs = chars_of(path);
    let name = match rfind_char(&cs, '/') {
        Some(i) => substring(path, i + 1, cs.len()),
        None => path,
    };
    let ns = chars_of(name);
    match rfind_char(&ns, '.') {
        Some(d) => substring(name, 0, d),
        None => name,
    }
}

/// Apply one segment to the resolved parts.
fn apply_segment_exec<'a>(acc: &mut Vec<&'a str>, seg: &'a str)
    ensures
        final(acc)@.map_values(|p: &str| p@) == apply_segment(old(acc)@.map_values(|p: &str| p@), seg@),
{
    if seg.is_empty() || str_eq(seg, ".") {
        return;
    }
    if str_eq(seg, "..") {
        if acc.len() > 0 {
            acc.pop();
            proof {
                assert(final(acc)@.map_values(|p: &str| p@) =~= old(acc)@.map_values(|p: &str| p@).drop_last());
            }
        }
        return;
    }
    acc.push(seg);
    proof {
        assert(final(acc)@.map_values(|p: &str| p@) =~= old(acc)@.map_values(|p: &str| p@).push(seg@));
    }
}

/// Normalise a POSIX path by resolving `.` and `..` components.
pub fn normalize_path(path: &str) -> (r: String)
    ensures
        r@ == normalize_spec(path@),
{
    let segs = split(path, '/');
    let ghost sv = segs@.map_values(|p: &str| p@);
    let mut parts: Vec<&str> = Vec::new();
    let mut i: usize = 0;
    proof {
        assert(parts@.map_values(|p: &str| p@) =~= Seq::<Seq<char>>::empty());
        assert(sv.subrange(0, sv.len() as int) =~= sv);
    }
    while i < segs.len()
        invariant
            sv == segs@.map_values(|p: &str| p@),
            sv == segments(path@),
            i <= segs@.len(),
            resolve(parts@.map_values(|p: &str| p@), sv.subrange(i as int, sv.len() as int))
                == resolve(Seq::empty(), sv),
        decreases segs@.len() - i,
    {
        proof {
            assert(sv.subrange(i as int, sv.len() as int).drop_first() =~= sv.subrange(i + 1, sv.len() as int));
        }
        apply_segment_exec(&mut parts, segs[i]);
        i = i + 1;
    }
    proof {
        assert(sv.subrange(0, sv.len() as int) =~= sv);
        assert(sv.subrange(i as int, sv.len() as int) =~= Seq::<Seq<char>>::empty());
    }
    join_parts(&parts, "/")
}

/// Compute a relative POSIX path from `from_dir` to `to`.
pub fn relative_path(to: &str, from_dir: &str) -> (r: String)
    ensures
        r@ == relative_spec(to@, from_dir@),
{
    if from_dir.is_empty() || str_eq(from_dir, ".") {
        return own(to);
    }
    let to_parts: Vec<&str> = if to.is_empty() {
        Vec::new()
    } else {
        split(to, '/')
    };
    let from_parts = split(from_dir, '/');
    let ghost tp = to_parts@.map_values(|p: &str| p@);
    let ghost fp = from_parts@.map_values(|p: &str| p@);
    proof {
        if to@.len() == 0 {
            assert(tp =~= Seq::<Seq<char>>::empty());
        }
    }
    let mut common: usize = 0;
    while common < to_parts.len() && common < from_parts.len() && str_eq(to_parts[common], from_parts[common])
        invariant
            tp == to_parts@.map_values(|p: &str| p@),
            fp == from_parts@.map_values(|p: &str| p@),
            common <= to_parts@.len(),
            common <= from_parts@.len(),
            common_from(tp, fp, 0) == common_from(tp, fp, common as int),
        decreases to_parts@.len() - common,
    {
        common = common + 1;
    }
    let n_ups = from_parts.len() - common;
    let mut result: Vec<&str> = Vec::new();
    let mut k: usize = 0;
    while k < n_ups
        invariant
            k <= n_ups,
            result@.map_values(|p: &str| p@) == ups(k as nat),
        decreases n_ups - k,
    {
        proof {
            reveal_strlit("..");
            assert(result@.push("..").map_values(|p: &str| p@) =~= ups(k as nat).push(".."@));
        }
        result.push("..");
        k = k + 1;
    }
    let mut j = common;
    while j < to_parts.len()
        invariant
            tp == to_parts@.map_values(|p: &str| p@),
            common <= j <= to_parts@.len(),
            result@.map_values(|p: &str| p@) == ups(n_ups as nat) + tp.subrange(common as int, j as int),
        decreases to_parts@.len() - j,
    {
        proof {
            assert(tp[j as int] == to_parts@[j as int]@);
            assert(result@.push(to_parts[j as int]).map_values(|p: &str| p@) =~= result@.map_values(
                |p: &str| p@,
            ).push(tp[j as int]));
            assert(tp.subrange(common as int, j + 1) =~= tp.subrange(common as int, j as int).push(tp[j as int]));
            assert(ups(n_ups as nat) + tp.subrange(common as int, j + 1) =~= (ups(n_ups as nat)
                + tp.subrange(common as int, j as int)).push(tp[j as int]));
        }
        result.push(to_parts[j]);
        j = j + 1;
    }
    proof {
        assert(result@.map_values(|p: &str| p@) =~= relative_parts(to@, from_dir@));
    }
    if result.len() == 0 {
        own(".")
    } else {
        join_parts(&result, "/")
    }
}

} // verus!
