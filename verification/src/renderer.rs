//! Planning and interpreting `asciidoctor` runs.
//!
//! Builds CLI arguments from [`Config`] and turns the outcome of running the
//! `asciidoctor` binary into the rendered HTML or an error.

use vstd::prelude::*;
use vstd::utf8::*;

use crate::config::{attribute_map, attribute_pairs, pair_view, safe_mode_name, Config};
use crate::text::{chars_of, enc, own, push_char};

verus! {

/// An I/O error reported when spawning or talking to a process.
#[verifier::external_type_specification]
#[verifier::external_body]
pub struct ExIoError(std::io::Error);

/// Errors that can occur during rendering.
#[derive(Debug)]
pub enum RendererError {
    /// The asciidoctor binary was not found on the system.
    NotFound { cmd: String },
    /// The asciidoctor process exited with a non-zero status.
    Failed { path: String, stderr: String },
    /// An I/O error occurred when spawning or communicating with the process.
    Io(std::io::Error),
}

/// What happened when the asciidoctor command was run.
#[derive(Debug)]
pub enum CommandOutcome {
    /// The command could not be spawned because it does not exist.
    NotFound,
    /// Spawning or talking to the process failed otherwise.
    SpawnFailed(std::io::Error),
    /// The process ran to completion.
    Finished { success: bool, stdout: Vec<u8>, stderr: Vec<u8> },
}

/// Byte-wise lexicographic order (the order of `str`'s `Ord`).
pub open spec fn bytes_lt(a: Seq<u8>, b: Seq<u8>) -> bool
    decreases a.len(),
{
    if a.len() == 0 {
        b.len() > 0
    } else if b.len() == 0 {
        false
    } else if a[0] != b[0] {
        a[0] < b[0]
    } else {
        bytes_lt(a.drop_first(), b.drop_first())
    }
}

/// `a` sorts before `b` as strings.
pub open spec fn str_lt(a: Seq<char>, b: Seq<char>) -> bool {
    bytes_lt(enc(a), enc(b))
}

/// The keys of `pairs` strictly increase.
pub open spec fn sorted_by_key(pairs: Seq<(Seq<char>, Seq<char>)>) -> bool {
    forall|i: int, j: int| 0 <= i < j < pairs.len() ==> str_lt(#[trigger] pairs[i].0, #[trigger] pairs[j].0)
}

/// Specification view of a renderer.
pub struct RendererV {
    pub cmd: Seq<char>,
    pub safe_mode: Seq<char>,
    pub attributes: Seq<(Seq<char>, Seq<char>)>,
    pub requires: Seq<Seq<char>>,
    pub fail_on_error: bool,
}

/// Wraps configuration and renders AsciiDoc files via the `asciidoctor` CLI.
#[derive(Clone, Debug)]
pub struct Renderer {
    cmd: String,
    safe_mode: String,
    attributes: Vec<(String, String)>,
    requires: Vec<String>,
    fail_on_error: bool,
}

impl View for Renderer {
    type V = RendererV;

    closed spec fn view(&self) -> RendererV {
        RendererV {
            cmd: self.cmd@,
            safe_mode: self.safe_mode@,
            attributes: self.attributes@.map_values(|p: (String, String)| pair_view(p)),
            requires: self.requires@.map_values(|r: String| r@),
            fail_on_error: self.fail_on_error,
        }
    }
}

/// Whether `a` sorts before `b` as strings.
fn less_than(a: &str, b: &str) -> (r: bool)
    ensures
        r == str_lt(a@, b@),
{
    let x = a.as_bytes();
    let y = b.as_bytes();
    let mut i: usize = 0;
    proof {
        assert(x@.subrange(0, x@.len() as int) =~= x@);
        assert(y@.subrange(0, y@.len() as int) =~= y@);
    }
    while i < x.len() && i < y.len()
        invariant
            x@ == enc(a@),
            y@ == enc(b@),
            i <= x@.len(),
            i <= y@.len(),
            bytes_lt(x@, y@) == bytes_lt(x@.subrange(i as int, x@.len() as int), y@.subrange(
                i as int,
                y@.len() as int,
            )),
        decreases x@.len() - i,
    {
        proof {
            let xs = x@.subrange(i as int, x@.len() as int);
            let ys = y@.subrange(i as int, y@.len() as int);
            assert(xs.drop_first() =~= x@.subrange(i + 1, x@.len() as int));
            assert(ys.drop_first() =~= y@.subrange(i + 1, y@.len() as int));
        }
        if x[i] != y[i] {
            return x[i] < y[i];
        }
        i = i + 1;
    }
    i < y.len()
}

/// Insertion position of `key` among strictly sorted keys: the first key
/// that sorts after it.
fn insert_position(sorted: &Vec<(String, String)>, key: &str) -> (r: usize)
    ensures
        r <= sorted@.len(),
        forall|j: int| 0 <= j < r ==> !str_lt(key@, #[trigger] sorted@[j].0@),
        r < sorted@.len() ==> str_lt(key@, sorted@[r as int].0@),
{
    let mut i: usize = 0;
    while i < sorted.len()
        invariant
            i <= sorted@.len(),
            forall|j: int| 0 <= j < i ==> !str_lt(key@, #[trigger] sorted@[j].0@),
        decreases sorted@.len() - i,
    {
        if less_than(key, sorted[i].0.as_str()) {
            return i;
        }
        i = i + 1;
    }
    i
}

/// Strict byte order is irreflexive, and total on distinct sequences.
proof fn lemma_bytes_lt_total(a: Seq<u8>, b: Seq<u8>)
    ensures
        a != b ==> bytes_lt(a, b) || bytes_lt(b, a),
        !(bytes_lt(a, b) && bytes_lt(b, a)),
    decreases a.len(),
{
    if a.len() > 0 && b.len() > 0 && a[0] == b[0] {
        lemma_bytes_lt_total(a.drop_first(), b.drop_first());
        if a != b {
            assert(a =~= seq![a[0]] + a.drop_first());
            assert(b =~= seq![b[0]] + b.drop_first());
        }
    } else if a.len() == 0 && b.len() == 0 {
        assert(a =~= b);
    }
}

proof fn lemma_bytes_lt_trans(a: Seq<u8>, b: Seq<u8>, c: Seq<u8>)
    requires
        bytes_lt(a, b),
        bytes_lt(b, c),
    ensures
        bytes_lt(a, c),
    decreases a.len(),
{
    if a.len() > 0 && b.len() > 0 && c.len() > 0 && a[0] == b[0] && b[0] == c[0] {
        lemma_bytes_lt_trans(a.drop_first(), b.drop_first(), c.drop_first());
    }
}

/// Distinct strings have distinct encodings.
proof fn lemma_enc_injective(a: Seq<char>, b: Seq<char>)
    requires
        enc(a) == enc(b),
    ensures
        a == b,
{
    encode_utf8_decode_utf8(a);
    encode_utf8_decode_utf8(b);
}

pub type PairV = (Seq<char>, Seq<char>);

/// The key and value texts of a list of pairs.
pub open spec fn pairs_view(v: Seq<(String, String)>) -> Seq<PairV> {
    v.map_values(|p: (String, String)| pair_view(p))
}

/// Inserting a key between the keys it sorts after and before keeps the keys sorted.
proof fn lemma_insert_sorted(before: Seq<PairV>, pos: int, p: PairV)
    requires
        sorted_by_key(before),
        0 <= pos <= before.len(),
        forall|j: int| 0 <= j < pos ==> str_lt(#[trigger] before[j].0, p.0),
        pos < before.len() ==> str_lt(p.0, before[pos].0),
    ensures
        sorted_by_key(before.insert(pos, p)),
{
    let after = before.insert(pos, p);
    assert forall|i: int, j: int| 0 <= i < j < after.len() implies str_lt(#[trigger] after[i].0, #[trigger] after[j].0) by {
        if j < pos {
            assert(after[i] == before[i] && after[j] == before[j]);
        } else if j == pos {
            assert(after[i] == before[i]);
        } else if i == pos {
            assert(after[j] == before[j - 1]);
            if j - 1 > pos {
                assert(str_lt(before[pos].0, before[j - 1].0));
                lemma_bytes_lt_trans(enc(p.0), enc(before[pos].0), enc(before[j - 1].0));
            }
        } else if i < pos {
            assert(after[i] == before[i] && after[j] == before[j - 1]);
            assert(str_lt(before[i].0, p.0));
            if j - 1 > pos {
                assert(str_lt(before[pos].0, before[j - 1].0));
                lemma_bytes_lt_trans(enc(p.0), enc(before[pos].0), enc(before[j - 1].0));
            }
            lemma_bytes_lt_trans(enc(before[i].0), enc(p.0), enc(before[j - 1].0));
        } else {
            assert(after[i] == before[i - 1] && after[j] == before[j - 1]);
        }
    }
}

/// What an insertion holds.
proof fn lemma_insert_contains(before: Seq<PairV>, pos: int, p: PairV, x: PairV)
    requires
        0 <= pos <= before.len(),
    ensures
        before.insert(pos, p).contains(x) <==> (before.contains(x) || x == p),
{
    let after = before.insert(pos, p);
    if before.contains(x) {
        let i = choose|i: int| 0 <= i < before.len() && before[i] == x;
        if i < pos {
            assert(after[i] == x);
        } else {
            assert(after[i + 1] == x);
        }
    }
    if x == p {
        assert(after[pos] == x);
    }
    if after.contains(x) {
        let i = choose|i: int| 0 <= i < after.len() && after[i] == x;
        if i < pos {
            assert(before[i] == x);
        } else if i > pos {
            assert(before[i - 1] == x);
        }
    }
}

/// `attrs` lists every attribute of `m` with its value, and nothing else.
pub open spec fn lists_attributes(attrs: Seq<PairV>, m: Map<Seq<char>, Seq<char>>) -> bool {
    &&& forall|i: int| 0 <= i < attrs.len() ==> m.contains_key((#[trigger] attrs[i]).0) && m[attrs[i].0] == attrs[i].1
    &&& forall|k: Seq<char>| #[trigger] m.contains_key(k) ==> exists|i: int| 0 <= i < attrs.len() && (#[trigger] attrs[i]).0 == k
}

/// No key sorts strictly before itself.
proof fn lemma_str_lt_irreflexive(k: Seq<char>)
    ensures
        !str_lt(k, k),
{
    lemma_bytes_lt_total(enc(k), enc(k));
}

/// Two key-sorted lists of the same attributes agree up to position `i`.
proof fn lemma_sorted_lists_agree(a: Seq<PairV>, b: Seq<PairV>, m: Map<Seq<char>, Seq<char>>, i: int)
    requires
        sorted_by_key(a),
        sorted_by_key(b),
        lists_attributes(a, m),
        lists_attributes(b, m),
        0 <= i < a.len(),
        i < b.len(),
    ensures
        forall|j: int| 0 <= j <= i ==> #[trigger] a[j] == b[j],
    decreases i,
{
    if i > 0 {
        lemma_sorted_lists_agree(a, b, m, i - 1);
    }
    let ka = a[i].0;
    let kb = b[i].0;
    assert(m.contains_key(ka));
    assert(m.contains_key(kb));
    let jb = choose|j: int| 0 <= j < b.len() && (#[trigger] b[j]).0 == ka;
    let ja = choose|j: int| 0 <= j < a.len() && (#[trigger] a[j]).0 == kb;
    if jb < i {
        assert(a[jb] == b[jb]);
        assert(str_lt(a[jb].0, a[i].0));
        lemma_str_lt_irreflexive(ka);
    } else if ja < i {
        assert(a[ja] == b[ja]);
        assert(str_lt(b[ja].0, b[i].0));
        lemma_str_lt_irreflexive(kb);
    } else if ja != i && jb != i {
        assert(str_lt(a[i].0, a[ja].0));
        assert(str_lt(b[i].0, b[jb].0));
        lemma_bytes_lt_total(enc(ka), enc(kb));
    }
    assert(ka == kb);
    assert(a[i].1 == m[ka] && b[i].1 == m[kb]);
    assert forall|j: int| 0 <= j <= i implies #[trigger] a[j] == b[j] by {
        if j == i {
            assert(a[i] == (ka, a[i].1));
        }
    }
}

/// The attribute order does not depend on how the configuration's map is
/// walked: two lists of the same attributes that are both sorted by key are
/// equal, so every renderer built from one configuration passes its
/// attributes to asciidoctor in one and the same order.
pub proof fn law_attribute_order_unique(a: Seq<PairV>, b: Seq<PairV>, m: Map<Seq<char>, Seq<char>>)
    requires
        sorted_by_key(a),
        sorted_by_key(b),
        lists_attributes(a, m),
        lists_attributes(b, m),
    ensures
        a == b,
{
    let n = if a.len() < b.len() { a.len() as int } else { b.len() as int };
    if n > 0 {
        lemma_sorted_lists_agree(a, b, m, n - 1);
    }
    if a.len() < b.len() {
        let k = b[n].0;
        assert(m.contains_key(k));
        let j = choose|j: int| 0 <= j < a.len() && (#[trigger] a[j]).0 == k;
        assert(a[j] == b[j]);
        assert(str_lt(b[j].0, b[n].0));
        lemma_str_lt_irreflexive(k);
    } else if b.len() < a.len() {
        let k = a[n].0;
        assert(m.contains_key(k));
        let j = choose|j: int| 0 <= j < b.len() && (#[trigger] b[j]).0 == k;
        assert(a[j] == b[j]);
        assert(str_lt(a[j].0, a[n].0));
        lemma_str_lt_irreflexive(k);
    }
    assert(a =~= b);
}

/// The pairs sorted by key (keys are distinct).
fn sort_by_key(pairs: Vec<(String, String)>) -> (r: Vec<(String, String)>)
    requires
        forall|i: int, j: int|
            0 <= i < j < pairs@.len() ==> (#[trigger] pairs@[i]).0@ != (#[trigger] pairs@[j]).0@,
    ensures
        r@.len() == pairs@.len(),
        sorted_by_key(pairs_view(r@)),
        forall|x: PairV| #[trigger] pairs_view(r@).contains(x)
            <==> pairs_view(pairs@).contains(x),
{
    let ghost iv = pairs_view(pairs@);
    let mut sorted: Vec<(String, String)> = Vec::new();
    let mut rest = pairs;
    let mut done: usize = 0;
    proof {
        assert(pairs_view(rest@) =~= iv.subrange(0, iv.len() as int));
        assert(pairs_view(sorted@) =~= Seq::<PairV>::empty());
    }
    while rest.len() > 0
        invariant
            iv.len() == done + rest@.len(),
            pairs_view(rest@) == iv.subrange(done as int, iv.len() as int),
            sorted@.len() == done,
            forall|i: int, j: int| 0 <= i < j < iv.len() ==> (#[trigger] iv[i]).0 != (#[trigger] iv[j]).0,
            sorted_by_key(pairs_view(sorted@)),
            forall|x: PairV| #[trigger] pairs_view(sorted@).contains(x)
                <==> iv.take(done as int).contains(x),
        decreases rest@.len(),
    {
        let ghost sv = pairs_view(sorted@);
        let ghost restv = pairs_view(rest@);
        let p = rest.remove(0);
        let ghost pv = pair_view(p);
        proof {
            assert(pv == restv[0]);
            assert(pv == iv[done as int]);
            assert(pairs_view(rest@) =~= restv.subrange(1, restv.len() as int));
            assert(restv.subrange(1, restv.len() as int) =~= iv.subrange(done + 1, iv.len() as int));
        }
        let pos = insert_position(&sorted, p.0.as_str());
        proof {
            assert forall|j: int| 0 <= j < pos implies str_lt(#[trigger] sv[j].0, pv.0) by {
                assert(sv[j] == pair_view(sorted@[j]));
                assert(sv.contains(sv[j]));
                let k = choose|k: int| 0 <= k < done && iv.take(done as int)[k] == sv[j];
                assert(iv[k].0 != iv[done as int].0);
                lemma_bytes_lt_total(enc(sv[j].0), enc(pv.0));
                if enc(sv[j].0) == enc(pv.0) {
                    lemma_enc_injective(sv[j].0, pv.0);
                }
            }
            if pos < sv.len() {
                assert(sv[pos as int] == pair_view(sorted@[pos as int]));
            }
            lemma_insert_sorted(sv, pos as int, pv);
        }
        sorted.insert(pos, p);
        proof {
            assert(pairs_view(sorted@) =~= sv.insert(pos as int, pv));
            assert(iv.take(done + 1) =~= iv.take(done as int).push(pv));
            assert forall|x: PairV| #[trigger] pairs_view(sorted@).contains(x)
                <==> iv.take(done + 1).contains(x) by {
                lemma_insert_contains(sv, pos as int, pv, x);
                let t = iv.take(done as int);
                if t.push(pv).contains(x) && x != pv {
                    let k = choose|k: int| 0 <= k < t.push(pv).len() && t.push(pv)[k] == x;
                    assert(t[k] == x);
                }
                if t.contains(x) {
                    let k = choose|k: int| 0 <= k < t.len() && t[k] == x;
                    assert(t.push(pv)[k] == x);
                }
                assert(t.push(pv)[t.len() as int] == pv);
            }
        }
        done = sorted.len();
    }
    proof {
        assert(iv.take(done as int) =~= iv);
    }
    sorted
}

/// The escape of one character for HTML text and attribute values.
pub open spec fn escape_char(c: char) -> Seq<char> {
    if c == '&' {
        "&amp;"@
    } else if c == '<' {
        "&lt;"@
    } else if c == '>' {
        "&gt;"@
    } else if c == '"' {
        "&quot;"@
    } else {
        seq![c]
    }
}

/// `s` with `&`, `<`, `>` and `"` escaped.
pub open spec fn escape_spec(s: Seq<char>) -> Seq<char>
    decreases s.len(),
{
    if s.len() == 0 {
        Seq::empty()
    } else {
        escape_spec(s.drop_last()) + escape_char(s.last())
    }
}

/// Escaped text holds no `<`, `>` or `"`, so it cannot open a tag or end an
/// attribute value.
pub proof fn law_escape_removes_markup(s: Seq<char>)
    ensures
        forall|i: int| 0 <= i < escape_spec(s).len() ==> #[trigger] escape_spec(s)[i] != '<'
            && escape_spec(s)[i] != '>' && escape_spec(s)[i] != '"',
    decreases s.len(),
{
    reveal_strlit("&amp;");
    reveal_strlit("&lt;");
    reveal_strlit("&gt;");
    reveal_strlit("&quot;");
    if s.len() > 0 {
        law_escape_removes_markup(s.drop_last());
        let a = escape_spec(s.drop_last());
        let b = escape_char(s.last());
        assert forall|i: int| 0 <= i < (a + b).len() implies #[trigger] (a + b)[i] != '<' && (a + b)[i] != '>' && (a + b)[i] != '"' by {
            if i >= a.len() {
                assert((a + b)[i] == b[i - a.len()]);
            } else {
                assert((a + b)[i] == a[i]);
            }
        }
    }
}

/// Escape special HTML characters in a string.
pub fn html_escape(s: &str) -> (r: String)
    ensures
        r@ == escape_spec(s@),
{
    let cs = chars_of(s);
    let mut out = String::new();
    let mut i: usize = 0;
    while i < cs.len()
        invariant
            cs@ == s@,
            i <= cs@.len(),
            out@ == escape_spec(s@.take(i as int)),
        decreases cs@.len() - i,
    {
        let c = cs[i];
        if c == '&' {
            out.append("&amp;");
        } else if c == '<' {
            out.append("&lt;");
        } else if c == '>' {
            out.append("&gt;");
        } else if c == '"' {
            out.append("&quot;");
        } else {
            push_char(&mut out, c);
        }
        proof {
            assert(s@.take(i + 1).drop_last() =~= s@.take(i as int));
        }
        i = i + 1;
    }
    proof {
        assert(s@.take(cs@.len() as int) =~= s@);
    }
    out
}

/// The arguments for requiring each library: `-r` and its name, in order.
pub open spec fn require_args(reqs: Seq<Seq<char>>) -> Seq<Seq<char>>
    decreases reqs.len(),
{
    if reqs.len() == 0 {
        Seq::empty()
    } else {
        require_args(reqs.drop_last()) + seq!["-r"@, reqs.last()]
    }
}

/// An attribute argument: `key` when the value is empty, else `key=value`.
pub open spec fn attribute_arg(p: PairV) -> Seq<char> {
    if p.1.len() == 0 {
        p.0
    } else {
        p.0 + "="@ + p.1
    }
}

/// The arguments for setting each attribute: `-a` and its setting, in order.
pub open spec fn attribute_args(attrs: Seq<PairV>) -> Seq<Seq<char>>
    decreases attrs.len(),
{
    if attrs.len() == 0 {
        Seq::empty()
    } else {
        attribute_args(attrs.drop_last()) + seq!["-a"@, attribute_arg(attrs.last())]
    }
}

/// The asciidoctor command line for rendering `src` with renderer `r`.
pub open spec fn args_spec(r: RendererV, src: Seq<char>) -> Seq<Seq<char>> {
    seq![r.cmd, "-b"@, "html5"@, "-s"@, "-o"@, "-"@, "-S"@, r.safe_mode] + require_args(r.requires)
        + attribute_args(r.attributes) + seq![src]
}

proof fn lemma_require_args_len(reqs: Seq<Seq<char>>)
    ensures
        require_args(reqs).len() == 2 * reqs.len(),
    decreases reqs.len(),
{
    if reqs.len() > 0 {
        lemma_require_args_len(reqs.drop_last());
    }
}

proof fn lemma_attribute_args_len(attrs: Seq<PairV>)
    ensures
        attribute_args(attrs).len() == 2 * attrs.len(),
    decreases attrs.len(),
{
    if attrs.len() > 0 {
        lemma_attribute_args_len(attrs.drop_last());
    }
}

/// The command line starts with the command, selects HTML5 standalone
/// output to stdout in the renderer's safe mode, has two arguments per
/// required library and per attribute, and ends with the source path.
pub proof fn law_args_shape(r: RendererV, src: Seq<char>)
    ensures
        args_spec(r, src).len() == 9 + 2 * r.requires.len() + 2 * r.attributes.len(),
        args_spec(r, src)[0] == r.cmd,
        args_spec(r, src)[6] == "-S"@,
        args_spec(r, src)[7] == r.safe_mode,
        args_spec(r, src).last() == src,
{
    lemma_require_args_len(r.requires);
    lemma_attribute_args_len(r.attributes);
}

proof fn lemma_require_arg_at(reqs: Seq<Seq<char>>, i: int)
    requires
        0 <= i < reqs.len(),
    ensures
        require_args(reqs).len() == 2 * reqs.len(),
        require_args(reqs)[2 * i] == "-r"@,
        require_args(reqs)[2 * i + 1] == reqs[i],
    decreases reqs.len(),
{
    let init = reqs.drop_last();
    let a = require_args(init);
    let b = seq!["-r"@, reqs.last()];
    lemma_require_args_len(init);
    lemma_require_args_len(reqs);
    assert(require_args(reqs) == a + b);
    if i < init.len() {
        lemma_require_arg_at(init, i);
        assert(init[i] == reqs[i]);
        assert((a + b)[2 * i] == a[2 * i]);
        assert((a + b)[2 * i + 1] == a[2 * i + 1]);
    } else {
        assert((a + b)[2 * i] == b[0]);
        assert((a + b)[2 * i + 1] == b[1]);
    }
}

proof fn lemma_attribute_arg_at(attrs: Seq<PairV>, j: int)
    requires
        0 <= j < attrs.len(),
    ensures
        attribute_args(attrs).len() == 2 * attrs.len(),
        attribute_args(attrs)[2 * j] == "-a"@,
        attribute_args(attrs)[2 * j + 1] == attribute_arg(attrs[j]),
    decreases attrs.len(),
{
    let init = attrs.drop_last();
    let a = attribute_args(init);
    let b = seq!["-a"@, attribute_arg(attrs.last())];
    lemma_attribute_args_len(init);
    lemma_attribute_args_len(attrs);
    assert(attribute_args(attrs) == a + b);
    if j < init.len() {
        lemma_attribute_arg_at(init, j);
        assert(init[j] == attrs[j]);
        assert((a + b)[2 * j] == a[2 * j]);
        assert((a + b)[2 * j + 1] == a[2 * j + 1]);
    } else {
        assert((a + b)[2 * j] == b[0]);
        assert((a + b)[2 * j + 1] == b[1]);
    }
}

/// `x` is the command-line flag `-f`.
pub open spec fn is_flag(x: Seq<char>, f: char) -> bool {
    x == seq!['-', f]
}

/// Arguments `at` and `at + 1` of `a` require library `lib`: `-r`, then
/// the library's name.
pub open spec fn passes_library(a: Seq<Seq<char>>, at: int, lib: Seq<char>) -> bool {
    is_flag(a[at], 'r') && a[at + 1] == lib
}

/// Arguments `at` and `at + 1` of `a` set attribute `p`: `-a`, then the key
/// alone when the value is empty, or the key, `=` and the value verbatim.
pub open spec fn passes_attribute(a: Seq<Seq<char>>, at: int, p: PairV) -> bool {
    is_flag(a[at], 'a') && a[at + 1] == if p.1.len() == 0 {
        p.0
    } else {
        p.0 + "="@ + p.1
    }
}

/// The command line carries the configuration verbatim: after the eight
/// fixed arguments, each required library `i` is passed as `-r` and its
/// name, and then each attribute `j`, in the renderer's order, as `-a` and
/// its key alone when its value is empty, or its key, `=` and its value
/// exactly as given; the source path comes last.
pub proof fn law_args_carry_settings(r: RendererV, src: Seq<char>)
    ensures
        ({
            let a = args_spec(r, src);
            let base = 8 + 2 * r.requires.len();
            &&& a.len() == base + 2 * r.attributes.len() + 1
            &&& forall|i: int| 0 <= i < r.requires.len() ==> passes_library(a, 8 + 2 * i, #[trigger] r.requires[i])
            &&& forall|j: int| 0 <= j < r.attributes.len() ==> passes_attribute(
                a,
                base + 2 * j,
                #[trigger] r.attributes[j],
            )
            &&& a[a.len() - 1] == src
        }),
{
    reveal_strlit("-r");
    reveal_strlit("-a");
    assert("-r"@ =~= seq!['-', 'r']);
    assert("-a"@ =~= seq!['-', 'a']);
    let head = seq![r.cmd, "-b"@, "html5"@, "-s"@, "-o"@, "-"@, "-S"@, r.safe_mode];
    let ra = require_args(r.requires);
    let aa = attribute_args(r.attributes);
    lemma_require_args_len(r.requires);
    lemma_attribute_args_len(r.attributes);
    let a = args_spec(r, src);
    let h1 = head + ra;
    let h2 = h1 + aa;
    assert(a == h2 + seq![src]);
    assert(head.len() == 8);
    let base = 8 + 2 * r.requires.len();
    assert forall|i: int| 0 <= i < r.requires.len() implies passes_library(a, 8 + 2 * i, #[trigger] r.requires[i]) by {
        lemma_require_arg_at(r.requires, i);
        assert(a[8 + 2 * i] == h2[8 + 2 * i]);
        assert(h2[8 + 2 * i] == h1[8 + 2 * i]);
        assert(h1[8 + 2 * i] == ra[2 * i]);
        assert(a[8 + 2 * i + 1] == h2[8 + 2 * i + 1]);
        assert(h2[8 + 2 * i + 1] == h1[8 + 2 * i + 1]);
        assert(h1[8 + 2 * i + 1] == ra[2 * i + 1]);
    }
    assert forall|j: int| 0 <= j < r.attributes.len() implies passes_attribute(a, base + 2 * j, #[trigger] r.attributes[j]) by {
        lemma_attribute_arg_at(r.attributes, j);
        assert(a[base + 2 * j] == h2[base + 2 * j]);
        assert(h2[base + 2 * j] == aa[2 * j]);
        assert(a[base + 2 * j + 1] == h2[base + 2 * j + 1]);
        assert(h2[base + 2 * j + 1] == aa[2 * j + 1]);
    }
}

pub open spec fn strings_view(v: Seq<String>) -> Seq<Seq<char>> {
    v.map_values(|s: String| s@)
}

proof fn lemma_strings_view_push(v: Seq<String>, x: String)
    ensures
        strings_view(v.push(x)) == strings_view(v).push(x@),
{
    assert(strings_view(v.push(x)) =~= strings_view(v).push(x@));
}

/// What `String::from_utf8_lossy` returns for `bytes`.
pub uninterp spec fn utf8_lossy(bytes: Seq<u8>) -> Seq<char>;

/// Calls `String::from_utf8_lossy`; the result is named by `utf8_lossy`. As
/// documented, valid UTF-8 is decoded unchanged.
#[verifier::external_body]
pub(crate) fn from_utf8_lossy(bytes: &[u8]) -> (r: String)
    ensures
        r@ == utf8_lossy(bytes@),
        valid_utf8(bytes@) ==> r@ == decode_utf8(bytes@),
{
    String::from_utf8_lossy(bytes).into_owned()
}

/// The inline error block shown when asciidoctor is missing.
pub open spec fn not_found_html(cmd: Seq<char>) -> Seq<char> {
    "<div class=\"admonition failure\"><p class=\"admonition-title\">AsciiDoc Error</p><p>asciidoctor not found: '"@
        + escape_spec(cmd) + "'. Install with: <code>gem install asciidoctor</code></p></div>"@
}

/// Formats an I/O error with its `Display` implementation. The text comes
/// from the operating system for OS errors, so nothing is claimed of it.
#[verifier::external_body]
fn io_error_text(e: &std::io::Error) -> (r: String) {
    e.to_string()
}

/// The inline error block shown when asciidoctor fails or cannot be run:
/// the message escaped inside a preformatted block.
pub fn failure_block(message: &str) -> (r: String)
    ensures
        r@ == failed_html(message@),
{
    let mut h = own("<div class=\"admonition failure\"><p class=\"admonition-title\">AsciiDoc Error</p><pre><code>");
    h.append(html_escape(message).as_str());
    h.append("</code></pre></div>");
    h
}

/// The inline error block shown when asciidoctor fails or cannot be run.
pub open spec fn failed_html(stderr: Seq<char>) -> Seq<char> {
    "<div class=\"admonition failure\"><p class=\"admonition-title\">AsciiDoc Error</p><pre><code>"@
        + escape_spec(stderr) + "</code></pre></div>"@
}

impl Renderer {
    /// Create a new `Renderer` from the given configuration.
    pub fn new(config: &Config) -> (r: Self)
        ensures
            r@.cmd == config.asciidoctor_cmd@,
            r@.safe_mode == safe_mode_name(config.safe_mode),
            r@.requires == strings_view(config.requires@),
            r@.fail_on_error == config.fail_on_error,
            sorted_by_key(r@.attributes),
            r@.attributes.len() == attribute_map(config.attributes).dom().len(),
            lists_attributes(r@.attributes, attribute_map(config.attributes)),
    {
        let pairs = attribute_pairs(&config.attributes);
        let ghost pv = pairs_view(pairs@);
        let attributes = sort_by_key(pairs);
        let mut libs: Vec<String> = Vec::new();
        let mut i: usize = 0;
        while i < config.requires.len()
            invariant
                i <= config.requires@.len(),
                strings_view(libs@) == strings_view(config.requires@).take(i as int),
            decreases config.requires@.len() - i,
        {
            let ghost before = libs@;
            libs.push(own(config.requires[i].as_str()));
            proof {
                lemma_strings_view_push(before, libs@[i as int]);
                assert(strings_view(config.requires@)[i as int] == config.requires@[i as int]@);
                assert(strings_view(config.requires@).take(i + 1) =~= strings_view(config.requires@).take(i as int).push(config.requires@[i as int]@));
                assert(strings_view(libs@) =~= strings_view(config.requires@).take(i + 1));
            }
            i = i + 1;
        }
        proof {
            assert(strings_view(config.requires@).take(i as int) =~= strings_view(config.requires@));
        }
        let r = Renderer {
            cmd: own(config.asciidoctor_cmd.as_str()),
            safe_mode: config.safe_mode.to_string(),
            attributes,
            requires: libs,
            fail_on_error: config.fail_on_error,
        };
        proof {
            let m = attribute_map(config.attributes);
            let av = r@.attributes;
            assert(av == pairs_view(attributes@));
            assert forall|i: int| 0 <= i < av.len() implies m.contains_key((#[trigger] av[i]).0) && m[av[i].0] == av[i].1 by {
                assert(av.contains(av[i]));
                assert(pv.contains(av[i]));
                let k = choose|k: int| 0 <= k < pv.len() && pv[k] == av[i];
                assert(pv[k] == pair_view(pairs@[k]));
            }
            assert forall|k: Seq<char>| #[trigger] m.contains_key(k) implies exists|i: int| 0 <= i < av.len() && (#[trigger] av[i]).0 == k by {
                let j = choose|j: int| 0 <= j < pairs@.len() && (#[trigger] pairs@[j]).0@ == k;
                assert(pv[j] == pair_view(pairs@[j]));
                assert(pv.contains(pv[j]));
                assert(av.contains(pv[j]));
                let i = choose|i: int| 0 <= i < av.len() && av[i] == pv[j];
                assert(av[i].0 == k);
            }
        }
        r
    }

    /// Build the argument list for invoking asciidoctor on the given source file.
    ///
    /// The returned vector includes the command name as the first element,
    /// followed by all flags, options, and the file path.
    pub fn build_args(&self, src_path: &str) -> (r: Vec<String>)
        ensures
            strings_view(r@) == args_spec(self@, src_path@),
    {
        let mut args = vec![
            own(self.cmd.as_str()),
            own("-b"),
            own("html5"),
            own("-s"),
            own("-o"),
            own("-"),
            own("-S"),
            own(self.safe_mode.as_str()),
        ];
        let ghost sv = self@;
        proof {
            assert(strings_view(args@) =~= seq![sv.cmd, "-b"@, "html5"@, "-s"@, "-o"@, "-"@, "-S"@, sv.safe_mode]);
        }
        let ghost head = strings_view(args@);
        let mut i: usize = 0;
        while i < self.requires.len()
            invariant
                sv == self@,
                i <= self.requires@.len(),
                strings_view(args@) == head + require_args(sv.requires.take(i as int)),
            decreases self.requires@.len() - i,
        {
            let ghost a0 = args@;
            args.push(own("-r"));
            let ghost a1 = args@;
            args.push(own(self.requires[i].as_str()));
            proof {
                lemma_strings_view_push(a0, a1.last());
                lemma_strings_view_push(a1, args@.last());
                assert(sv.requires.take(i + 1).drop_last() =~= sv.requires.take(i as int));
                assert(sv.requires.take(i + 1).last() == sv.requires[i as int]);
                assert(require_args(sv.requires.take(i + 1)) == require_args(sv.requires.take(i as int)) + seq!["-r"@, sv.requires[i as int]]);
                assert(sv.requires[i as int] == self.requires@[i as int]@);
                assert(sv.requires.take(i + 1).drop_last() =~= sv.requires.take(i as int));
                assert(strings_view(args@) =~= head + require_args(sv.requires.take(i + 1)));
            }
            i = i + 1;
        }
        proof {
            assert(sv.requires.take(i as int) =~= sv.requires);
        }
        let ghost head2 = strings_view(args@);
        let mut j: usize = 0;
        while j < self.attributes.len()
            invariant
                sv == self@,
                j <= self.attributes@.len(),
                strings_view(args@) == head2 + attribute_args(sv.attributes.take(j as int)),
            decreases self.attributes@.len() - j,
        {
            let ghost a0 = args@;
            args.push(own("-a"));
            let ghost a1 = args@;
            let key = self.attributes[j].0.as_str();
            let value = self.attributes[j].1.as_str();
            if value.is_empty() {
                args.push(own(key));
            } else {
                let mut kv = own(key);
                kv.append("=");
                kv.append(value);
                args.push(kv);
            }
            proof {
                lemma_strings_view_push(a0, a1.last());
                lemma_strings_view_push(a1, args@.last());
                assert(sv.attributes.take(j + 1).drop_last() =~= sv.attributes.take(j as int));
                assert(sv.attributes.take(j + 1).last() == sv.attributes[j as int]);
                assert(attribute_args(sv.attributes.take(j + 1)) == attribute_args(sv.attributes.take(j as int)) + seq!["-a"@, attribute_arg(sv.attributes[j as int])]);
                assert(sv.attributes[j as int] == pair_view(self.attributes@[j as int]));
                assert(sv.attributes.take(j + 1).drop_last() =~= sv.attributes.take(j as int));
                assert(strings_view(args@) =~= head2 + attribute_args(sv.attributes.take(j + 1)));
            }
            j = j + 1;
        }
        proof {
            assert(sv.attributes.take(j as int) =~= sv.attributes);
        }
        args.push(own(src_path));
        proof {
            assert(strings_view(args@) =~= args_spec(sv, src_path@));
        }
        args
    }

    /// Turn the outcome of running asciidoctor on `src_path` into the
    /// rendered HTML or an error. When `fail_on_error` is false, a missing
    /// binary or a failed run yields an inline HTML error block instead.
    pub fn finish_render(&self, src_path: &str, outcome: CommandOutcome) -> (r: Result<String, RendererError>)
        ensures
            match outcome {
                CommandOutcome::NotFound => if self@.fail_on_error {
                    r matches Err(RendererError::NotFound { cmd }) && cmd@ == self@.cmd
                } else {
                    r matches Ok(h) && h@ == not_found_html(self@.cmd)
                },
                CommandOutcome::SpawnFailed(e) => if self@.fail_on_error {
                    r matches Err(RendererError::Io(e2)) && e2 == e
                } else {
                    r matches Ok(h) && exists|m: Seq<char>| h@ == failed_html(m)
                },
                CommandOutcome::Finished { success, stdout, stderr } => if success {
                    r matches Ok(h) && h@ == utf8_lossy(stdout@)
                } else if self@.fail_on_error {
                    r matches Err(RendererError::Failed { path, stderr: msg }) && path@ == src_path@
                        && msg@ == utf8_lossy(stderr@)
                } else {
                    r matches Ok(h) && h@ == failed_html(utf8_lossy(stderr@))
                },
            },
            !self@.fail_on_error ==> r is Ok,
            self@.fail_on_error ==> (r is Ok <==> (outcome matches CommandOutcome::Finished { success, .. } && success)),
    {
        match outcome {
            CommandOutcome::NotFound => {
                if self.fail_on_error {
                    return Err(RendererError::NotFound { cmd: own(self.cmd.as_str()) });
                }
                let mut h = own("<div class=\"admonition failure\"><p class=\"admonition-title\">AsciiDoc Error</p><p>asciidoctor not found: '");
                h.append(html_escape(self.cmd.as_str()).as_str());
                h.append("'. Install with: <code>gem install asciidoctor</code></p></div>");
                Ok(h)
            },
            CommandOutcome::SpawnFailed(e) => {
                if self.fail_on_error {
                    return Err(RendererError::Io(e));
                }
                let msg = io_error_text(&e);
                Ok(failure_block(msg.as_str()))
            },
            CommandOutcome::Finished { success, stdout, stderr } => {
                if success {
                    return Ok(from_utf8_lossy(stdout.as_slice()));
                }
                let msg = from_utf8_lossy(stderr.as_slice());
                if self.fail_on_error {
                    return Err(RendererError::Failed { path: own(src_path), stderr: msg });
                }
                Ok(failure_block(msg.as_str()))
            },
        }
    }
}

} // verus!
