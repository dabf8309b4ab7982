//! Post-processing of Asciidoctor HTML for Material-theme compatibility:
//! the document types, the processor, metadata and table-of-contents extraction.

use vstd::prelude::*;
use vstd::std_specs::cmp::PartialEqSpecImpl;

use crate::dom::{join_texts, select_elements, selected, Element, ElementV};
use crate::paths::join;
use crate::pattern::{replace_all, replace_all_spec, tpl_view, Part, PartV};
use crate::text::{chars_of, own, parse_u8, parse_u8_spec, str_eq, substring, trim, trim_spec};

verus! {

/// A single table-of-contents entry (may have nested children).
#[derive(Debug)]
pub struct TocEntry {
    pub title: String,
    pub id: String,
    pub level: u8,
    pub children: Vec<TocEntry>,
}

/// Metadata extracted from the rendered HTML document.
#[derive(Clone, Debug, PartialEq, Eq)]
pub struct DocMeta {
    pub title: Option<String>,
    pub description: Option<String>,
}

impl Default for DocMeta {
    fn default() -> (r: DocMeta)
        ensures
            r.title is None,
            r.description is None,
    {
        DocMeta { title: None, description: None }
    }
}

/// The result of processing a rendered HTML document.
#[derive(Clone, Debug)]
pub struct ProcessedDoc {
    pub html: String,
    pub toc: Vec<TocEntry>,
    pub meta: DocMeta,
}

/// Post-processes Asciidoctor HTML for Material-theme compatibility.
#[derive(Clone, Debug)]
pub struct HtmlProcessor;

/// Specification view of a table-of-contents entry.
pub struct TocNode {
    pub title: Seq<char>,
    pub id: Seq<char>,
    pub level: u8,
    pub children: Seq<TocNode>,
}

/// The view of an entry and, recursively, of its children.
pub open spec fn toc_view(e: TocEntry) -> TocNode
    decreases e,
{
    TocNode {
        title: e.title@,
        id: e.id@,
        level: e.level,
        children: Seq::new(
            e.children@.len(),
            |i: int|
                {
                    if 0 <= i < e.children@.len() {
                        toc_view(e.children@[i])
                    } else {
                        TocNode { title: Seq::empty(), id: Seq::empty(), level: 0, children: Seq::empty() }
                    }
                },
        ),
    }
}

/// The views of a list of entries.
pub open spec fn forest_view(v: Seq<TocEntry>) -> Seq<TocNode> {
    Seq::new(v.len(), |i: int| toc_view(v[i]))
}

/// A new entry placed in a forest: it becomes a child of the deepest entry
/// on the forest's last branch whose level is below its own, or a new root.
pub open spec fn insert_node(forest: Seq<TocNode>, e: TocNode) -> Seq<TocNode>
    decreases forest,
{
    if forest.len() == 0 || forest.last().level >= e.level {
        forest.push(e)
    } else {
        let last = forest.last();
        forest.update(
            forest.len() - 1,
            TocNode { children: insert_node(last.children, e), ..last },
        )
    }
}

/// The entries placed one after another into an empty forest.
pub open spec fn build_forest(es: Seq<TocNode>) -> Seq<TocNode>
    decreases es.len(),
{
    if es.len() == 0 {
        Seq::empty()
    } else {
        insert_node(build_forest(es.drop_last()), es.last())
    }
}

/// An entry with its children removed.
pub open spec fn bare(n: TocNode) -> TocNode {
    TocNode { children: Seq::empty(), ..n }
}

/// The entries of a forest in document (pre-)order, children removed.
pub open spec fn flatten(f: Seq<TocNode>) -> Seq<TocNode>
    decreases f,
{
    if f.len() == 0 {
        Seq::empty()
    } else {
        flatten(f.drop_last()) + seq![bare(f.last())] + flatten(f.last().children)
    }
}

/// Every entry of the forest has a level above `lo`, and every child a level
/// above its parent's.
pub open spec fn nested(f: Seq<TocNode>, lo: int) -> bool
    decreases f,
{
    forall|i: int| 0 <= i < f.len() ==> #[trigger] f[i].level > lo && nested(f[i].children, f[i].level as int)
}

proof fn lemma_flatten_update_last(f: Seq<TocNode>, n: TocNode)
    requires
        f.len() > 0,
    ensures
        flatten(f.update(f.len() - 1, n)) == flatten(f.drop_last()) + seq![bare(n)] + flatten(n.children),
{
    assert(f.update(f.len() - 1, n).drop_last() =~= f.drop_last());
}

/// Placing an entry appends it to the document order.
proof fn lemma_insert_flatten(f: Seq<TocNode>, e: TocNode)
    requires
        e.children.len() == 0,
    ensures
        flatten(insert_node(f, e)) == flatten(f).push(e),
    decreases f,
{
    if f.len() == 0 || f.last().level >= e.level {
        assert(f.push(e).drop_last() =~= f);
        assert(flatten(e.children) =~= Seq::<TocNode>::empty());
        assert(e.children =~= Seq::<TocNode>::empty());
        assert(bare(e) == e);
        assert(flatten(f.push(e)) =~= flatten(f).push(e));
    } else {
        let last = f.last();
        let n = TocNode { children: insert_node(last.children, e), ..last };
        assert(decreases_to!(f => f[f.len() - 1]));
        lemma_insert_flatten(last.children, e);
        lemma_flatten_update_last(f, n);
        assert(bare(n) == bare(last));
        assert(flatten(insert_node(f, e)) =~= flatten(f).push(e));
    }
}

/// Placing an entry whose level is above `lo` keeps the forest nested.
proof fn lemma_insert_nested(f: Seq<TocNode>, e: TocNode, lo: int)
    requires
        nested(f, lo),
        e.level > lo,
        e.children.len() == 0,
    ensures
        nested(insert_node(f, e), lo),
    decreases f,
{
    if f.len() == 0 || f.last().level >= e.level {
        let g = f.push(e);
        assert forall|i: int| 0 <= i < g.len() implies #[trigger] g[i].level > lo && nested(g[i].children, g[i].level as int) by {
            if i < f.len() {
                assert(g[i] == f[i]);
            } else {
                assert(g[i] == e);
                assert(nested(e.children, e.level as int));
            }
        }
    } else {
        let last = f.last();
        assert(last.level > lo && nested(last.children, last.level as int));
        assert(decreases_to!(f => f[f.len() - 1]));
        lemma_insert_nested(last.children, e, last.level as int);
        let n = TocNode { children: insert_node(last.children, e), ..last };
        let g = f.update(f.len() - 1, n);
        assert forall|i: int| 0 <= i < g.len() implies #[trigger] g[i].level > lo && nested(g[i].children, g[i].level as int) by {
            if i < f.len() - 1 {
                assert(g[i] == f[i]);
            }
        }
    }
}

/// Entries produced from headings have no children.
pub open spec fn all_leaves(es: Seq<TocNode>) -> bool {
    forall|i: int| 0 <= i < es.len() ==> (#[trigger] es[i]).children.len() == 0
}

proof fn lemma_build_forest(es: Seq<TocNode>)
    requires
        all_leaves(es),
    ensures
        flatten(build_forest(es)) == es,
        nested(build_forest(es), -1),
    decreases es.len(),
{
    if es.len() == 0 {
        assert(flatten(Seq::<TocNode>::empty()) =~= es);
    } else {
        let init = es.drop_last();
        assert(all_leaves(init)) by {
            assert forall|i: int| 0 <= i < init.len() implies (#[trigger] init[i]).children.len() == 0 by {
                assert(init[i] == es[i]);
            }
        }
        lemma_build_forest(init);
        assert(es.last().children.len() == 0);
        lemma_insert_flatten(build_forest(init), es.last());
        lemma_insert_nested(build_forest(init), es.last(), -1);
        assert(init.push(es.last()) =~= es);
    }
}

proof fn lemma_heading_nodes_leaves(els: Seq<ElementV>)
    ensures
        all_leaves(heading_nodes(els)),
    decreases els.len(),
{
    if els.len() > 0 {
        lemma_heading_nodes_leaves(els.drop_last());
        let prev = heading_nodes(els.drop_last());
        let nx = prev.push(heading_node(els.last()));
        assert forall|i: int| 0 <= i < nx.len() implies (#[trigger] nx[i]).children.len() == 0 by {
            if i < prev.len() {
                assert(nx[i] == prev[i]);
            }
        }
    }
}

/// The table of contents lists every selected heading (all but `h1.sect0`)
/// exactly once, in document order, and nests each entry only under entries
/// of a lower level.
pub proof fn law_toc_preserves_heading_order(html: Seq<char>)
    ensures
        flatten(toc_spec(html)) == heading_nodes(selected(html, HEADINGS@, "id"@)),
        nested(toc_spec(html), -1),
{
    lemma_heading_nodes_leaves(selected(html, HEADINGS@, "id"@));
    lemma_build_forest(heading_nodes(selected(html, HEADINGS@, "id"@)));
}

/// The pre-order index of each entry's parent in a forest whose first entry
/// has index `off` and whose entries have parent `par` (-1: top level).
pub open spec fn parent_indices(f: Seq<TocNode>, off: int, par: int) -> Seq<int>
    decreases f,
{
    if f.len() == 0 {
        Seq::empty()
    } else {
        let idx = off + flatten(f.drop_last()).len();
        parent_indices(f.drop_last(), off, par) + seq![par] + parent_indices(f.last().children, idx + 1, idx)
    }
}

/// The pre-order index of the entry under which an entry of level `level`
/// is placed: the deepest entry on the last branch with a lower level, or
/// `par` when there is none.
pub open spec fn branch_parent(f: Seq<TocNode>, off: int, par: int, level: int) -> int
    decreases f,
{
    if f.len() == 0 || f.last().level >= level {
        par
    } else {
        let idx = off + flatten(f.drop_last()).len();
        branch_parent(f.last().children, idx + 1, idx, level)
    }
}

/// The index of the last of the entries `0..=i` whose level is below
/// `level`, or -1 when there is none.
pub open spec fn last_lower(es: Seq<TocNode>, level: int, i: int) -> int
    decreases i + 1,
{
    if i < 0 {
        -1
    } else if es[i].level < level {
        i
    } else {
        last_lower(es, level, i - 1)
    }
}

proof fn lemma_last_lower_prefix(es: Seq<TocNode>, e: TocNode, level: int, i: int)
    requires
        i < es.len(),
    ensures
        last_lower(es.push(e), level, i) == last_lower(es, level, i),
    decreases i + 1,
{
    if i >= 0 {
        assert(es.push(e)[i] == es[i]);
        lemma_last_lower_prefix(es, e, level, i - 1);
    }
}

/// Placing an entry gives it the parent `branch_parent` names and leaves
/// the other parents as they were.
proof fn lemma_insert_parents(f: Seq<TocNode>, e: TocNode, off: int, par: int)
    requires
        e.children.len() == 0,
    ensures
        parent_indices(insert_node(f, e), off, par) == parent_indices(f, off, par).push(
            branch_parent(f, off, par, e.level as int),
        ),
    decreases f,
{
    if f.len() == 0 || f.last().level >= e.level {
        let g = f.push(e);
        assert(g.drop_last() =~= f);
        assert(e.children =~= Seq::<TocNode>::empty());
        let idx = off + flatten(f).len();
        assert(parent_indices(e.children, idx + 1, idx) =~= Seq::<int>::empty());
        assert(parent_indices(g, off, par) =~= parent_indices(f, off, par).push(par));
    } else {
        let last = f.last();
        let n = TocNode { children: insert_node(last.children, e), ..last };
        let g = f.update(f.len() - 1, n);
        assert(g.drop_last() =~= f.drop_last());
        assert(decreases_to!(f => f[f.len() - 1]));
        let idx = off + flatten(f.drop_last()).len();
        lemma_insert_parents(last.children, e, idx + 1, idx);
        assert(parent_indices(g, off, par) =~= parent_indices(f, off, par).push(
            branch_parent(f, off, par, e.level as int),
        ));
    }
}

/// Where a placed entry leaves the branch: an entry of level `level` goes
/// under the new entry when that entry's level is lower, and where it went
/// before otherwise.
proof fn lemma_insert_branch_parent(f: Seq<TocNode>, e: TocNode, off: int, par: int, lo: int, level: int)
    requires
        nested(f, lo),
        e.level > lo,
        e.children.len() == 0,
    ensures
        branch_parent(insert_node(f, e), off, par, level) == if e.level < level {
            off + flatten(f).len()
        } else {
            branch_parent(f, off, par, level)
        },
    decreases f,
{
    if f.len() == 0 || f.last().level >= e.level {
        let g = f.push(e);
        assert(g.drop_last() =~= f);
        assert(g.last() == e);
        assert(e.children =~= Seq::<TocNode>::empty());
        assert(insert_node(f, e) == g);
        if e.level < level {
            assert(branch_parent(g, off, par, level) == branch_parent(e.children, off + flatten(f).len() + 1, off + flatten(f).len(), level));
        }
    } else {
        let last = f.last();
        assert(last.level > lo && nested(last.children, last.level as int));
        let n = TocNode { children: insert_node(last.children, e), ..last };
        let g = f.update(f.len() - 1, n);
        assert(g.drop_last() =~= f.drop_last());
        assert(g.last() == n);
        assert(decreases_to!(f => f[f.len() - 1]));
        let idx = off + flatten(f.drop_last()).len();
        lemma_insert_branch_parent(last.children, e, idx + 1, idx, last.level as int, level);
        assert(flatten(f) == flatten(f.drop_last()) + seq![bare(last)] + flatten(last.children));
    }
}

proof fn lemma_build_parents(es: Seq<TocNode>)
    requires
        all_leaves(es),
    ensures
        parent_indices(build_forest(es), 0, -1).len() == es.len(),
        forall|j: int| 0 <= j < es.len() ==> #[trigger] parent_indices(build_forest(es), 0, -1)[j]
            == last_lower(es, es[j].level as int, j - 1),
        forall|level: int| #[trigger] branch_parent(build_forest(es), 0, -1, level) == last_lower(
            es,
            level,
            es.len() - 1,
        ),
    decreases es.len(),
{
    if es.len() == 0 {
        assert(parent_indices(Seq::<TocNode>::empty(), 0, -1) =~= Seq::<int>::empty());
    } else {
        let init = es.drop_last();
        let e = es.last();
        assert(all_leaves(init)) by {
            assert forall|i: int| 0 <= i < init.len() implies (#[trigger] init[i]).children.len() == 0 by {
                assert(init[i] == es[i]);
            }
        }
        lemma_build_parents(init);
        lemma_build_forest(init);
        let f = build_forest(init);
        assert(e.children.len() == 0);
        assert(init.push(e) =~= es);
        lemma_insert_parents(f, e, 0, -1);
        let p = parent_indices(build_forest(es), 0, -1);
        assert forall|j: int| 0 <= j < es.len() implies #[trigger] p[j] == last_lower(es, es[j].level as int, j - 1) by {
            if j < init.len() {
                assert(es[j] == init[j]);
                lemma_last_lower_prefix(init, e, es[j].level as int, j - 1);
            } else {
                lemma_last_lower_prefix(init, e, e.level as int, j - 1);
            }
        }
        assert forall|level: int| #[trigger] branch_parent(build_forest(es), 0, -1, level) == last_lower(
            es,
            level,
            es.len() - 1,
        ) by {
            lemma_insert_branch_parent(f, e, 0, -1, -1, level);
            lemma_last_lower_prefix(init, e, level, init.len() - 1);
        }
    }
}

/// Each table-of-contents entry's parent is the nearest earlier heading of
/// a lower level, and an entry is at the top level when no earlier heading
/// has a lower level: with the entries in document order (as
/// `law_toc_preserves_heading_order` lists them), the parent of the `j`-th
/// is the last of the first `j` headings whose level is below its own
/// (-1: top level).
pub proof fn law_toc_parent_is_nearest_lower(html: Seq<char>)
    ensures
        ({
            let es = heading_nodes(selected(html, HEADINGS@, "id"@));
            let p = parent_indices(toc_spec(html), 0, -1);
            &&& p.len() == es.len()
            &&& forall|j: int| 0 <= j < es.len() ==> #[trigger] p[j] == last_lower(es, es[j].level as int, j - 1)
        }),
{
    let es = heading_nodes(selected(html, HEADINGS@, "id"@));
    lemma_heading_nodes_leaves(selected(html, HEADINGS@, "id"@));
    lemma_build_parents(es);
}

/// A copy of an entry and, recursively, of its children.
fn clone_entry(e: &TocEntry) -> (r: TocEntry)
    ensures
        toc_view(r) == toc_view(*e),
    decreases e,
{
    let mut children: Vec<TocEntry> = Vec::new();
    let mut i: usize = 0;
    while i < e.children.len()
        invariant
            i <= e.children@.len(),
            children@.len() == i,
            forest_view(children@) == forest_view(e.children@).take(i as int),
        decreases e.children@.len() - i,
    {
        proof {
            assert(decreases_to!(e => e.children));
            assert(decreases_to!(e.children => e.children@));
            assert(decreases_to!(e.children@ => e.children@[i as int]));
        }
        let c = clone_entry(&e.children[i]);
        let ghost prev = children@;
        children.push(c);
        proof {
            let fv = forest_view(e.children@);
            assert forall|j: int| 0 <= j < i + 1 implies forest_view(children@)[j] == fv.take(i + 1)[j] by {
                if j < i {
                    assert(children@[j] == prev[j]);
                    assert(forest_view(prev)[j] == fv.take(i as int)[j]);
                } else {
                    assert(children@[j] == c);
                }
            }
            assert(forest_view(children@) =~= fv.take(i + 1));
        }
        i = i + 1;
    }
    let r = TocEntry { title: own(e.title.as_str()), id: own(e.id.as_str()), level: e.level, children };
    proof {
        lemma_children_view(r);
        lemma_children_view(*e);
        assert(forest_view(e.children@).take(e.children@.len() as int) =~= forest_view(e.children@));
    }
    r
}

/// Whether two entries have the same title, id and level and, recursively,
/// equal children.
fn entries_equal(a: &TocEntry, b: &TocEntry) -> (r: bool)
    ensures
        r == (toc_view(*a) == toc_view(*b)),
    decreases a,
{
    proof {
        lemma_children_view(*a);
        lemma_children_view(*b);
    }
    if !str_eq(a.title.as_str(), b.title.as_str()) || !str_eq(a.id.as_str(), b.id.as_str()) || a.level
        != b.level || a.children.len() != b.children.len() {
        proof {
            if a.children@.len() != b.children@.len() {
                assert(toc_view(*a).children.len() != toc_view(*b).children.len());
            }
        }
        return false;
    }
    let mut i: usize = 0;
    while i < a.children.len()
        invariant
            i <= a.children@.len(),
            a.children@.len() == b.children@.len(),
            forall|j: int| 0 <= j < i ==> toc_view(#[trigger] a.children@[j]) == toc_view(b.children@[j]),
        decreases a.children@.len() - i,
    {
        proof {
            assert(decreases_to!(a => a.children));
            assert(decreases_to!(a.children => a.children@));
            assert(decreases_to!(a.children@ => a.children@[i as int]));
        }
        if !entries_equal(&a.children[i], &b.children[i]) {
            proof {
                assert(forest_view(a.children@)[i as int] != forest_view(b.children@)[i as int]);
                assert(toc_view(*a).children[i as int] != toc_view(*b).children[i as int]);
            }
            return false;
        }
        i = i + 1;
    }
    proof {
        assert(forest_view(a.children@) =~= forest_view(b.children@));
        assert(toc_view(*a).children == toc_view(*b).children);
    }
    true
}

impl PartialEq for TocEntry {
    fn eq(&self, other: &Self) -> (r: bool) {
        entries_equal(self, other)
    }
}

impl PartialEqSpecImpl for TocEntry {
    open spec fn obeys_eq_spec() -> bool {
        true
    }

    open spec fn eq_spec(&self, other: &Self) -> bool {
        toc_view(*self) == toc_view(*other)
    }
}

impl Eq for TocEntry {

}

impl Clone for TocEntry {
    fn clone(&self) -> (r: Self)
        ensures
            toc_view(r) == toc_view(*self),
    {
        clone_entry(self)
    }
}

proof fn lemma_children_view(e: TocEntry)
    ensures
        toc_view(e).children == forest_view(e.children@),
{
    assert(toc_view(e).children =~= forest_view(e.children@));
}

/// Place `e` in `forest` (see `insert_node`).
fn insert_entry(forest: &mut Vec<TocEntry>, e: TocEntry)
    ensures
        forest_view(final(forest)@) == insert_node(forest_view(old(forest)@), toc_view(e)),
    decreases forest_view(old(forest)@),
{
    let n = forest.len();
    if n == 0 || forest[n - 1].level >= e.level {
        forest.push(e);
        proof {
            assert(forest_view(final(forest)@) =~= forest_view(old(forest)@).push(toc_view(e)));
        }
    } else {
        let ghost fv = forest_view(forest@);
        let mut last = forest.pop().unwrap();
        proof {
            assert(fv[n - 1] == toc_view(last));
            lemma_children_view(last);
            assert(decreases_to!(fv => fv[n - 1]));
            assert(decreases_to!(toc_view(last) => toc_view(last).children));
        }
        insert_entry(&mut last.children, e);
        let ghost lv = toc_view(last);
        proof {
            lemma_children_view(last);
        }
        forest.push(last);
        proof {
            let old_last = fv.last();
            assert(lv == TocNode { children: insert_node(old_last.children, toc_view(e)), ..old_last });
            assert(forest_view(final(forest)@) =~= fv.update(n - 1, lv));
        }
    }
}

/// `s` without its first character (empty stays empty).
pub open spec fn tail_of(s: Seq<char>) -> Seq<char> {
    if s.len() == 0 {
        s
    } else {
        s.drop_first()
    }
}

/// Selector for every heading level.
pub const HEADINGS: &'static str = "h1:not(.sect0), h2, h3, h4, h5, h6";

/// The entry for a selected heading: its level from its tag name (2 when the
/// name does not parse), its text joined with spaces and trimmed, its id.
pub open spec fn heading_node(e: ElementV) -> TocNode {
    TocNode {
        title: trim_spec(join(e.texts, " "@)),
        id: match e.attr {
            Some(a) => a,
            None => Seq::empty(),
        },
        level: match parse_u8_spec(tail_of(e.name)) {
            Some(l) => l,
            None => 2,
        },
        children: Seq::empty(),
    }
}

/// The entries for the selected headings, in order.
pub open spec fn heading_nodes(els: Seq<ElementV>) -> Seq<TocNode>
    decreases els.len(),
{
    if els.len() == 0 {
        Seq::empty()
    } else {
        heading_nodes(els.drop_last()).push(heading_node(els.last()))
    }
}

/// The table of contents of `html`: its headings other than the document
/// title `h1.sect0`, nested by level.
pub open spec fn toc_spec(html: Seq<char>) -> Seq<TocNode> {
    build_forest(heading_nodes(selected(html, HEADINGS@, "id"@)))
}

/// The title read from selected `h1.sect0` elements: the trimmed text of the
/// first, when non-empty.
pub open spec fn title_of(els: Seq<ElementV>) -> Option<Seq<char>> {
    if els.len() == 0 {
        None
    } else {
        let t = trim_spec(join(els[0].texts, " "@));
        if t.len() > 0 { Some(t) } else { None }
    }
}

/// The description read from selected `meta` elements: the `content` of the
/// first, when present and non-empty.
pub open spec fn description_of(els: Seq<ElementV>) -> Option<Seq<char>> {
    if els.len() == 0 {
        None
    } else {
        match els[0].attr {
            Some(c) => if c.len() > 0 { Some(c) } else { None },
            None => None,
        }
    }
}

/// The document title: the trimmed text of the first `h1.sect0`, when non-empty.
pub open spec fn meta_title(html: Seq<char>) -> Option<Seq<char>> {
    title_of(selected(html, "h1.sect0"@, "id"@))
}

/// The description: the `content` of the first `meta[name=description]`, when non-empty.
pub open spec fn meta_description(html: Seq<char>) -> Option<Seq<char>> {
    description_of(selected(html, "meta[name=description]"@, "content"@))
}

pub open spec fn elements_view(v: Seq<Element>) -> Seq<ElementV> {
    v.map_values(|e: Element| e@)
}

pub open spec fn opt_str_view(o: Option<String>) -> Option<Seq<char>> {
    match o {
        Some(s) => Some(s@),
        None => None,
    }
}

fn heading_entry(e: &Element) -> (r: TocEntry)
    ensures
        toc_view(r) == heading_node(e@),
{
    let joined = join_texts(&e.texts);
    let title = own(trim(joined.as_str()));
    let id = match &e.attr {
        Some(a) => own(a.as_str()),
        None => String::new(),
    };
    let ncs = chars_of(e.name.as_str());
    let tail = if ncs.len() == 0 {
        substring(e.name.as_str(), 0, 0)
    } else {
        substring(e.name.as_str(), 1, ncs.len())
    };
    proof {
        if ncs@.len() == 0 {
            assert(e.name@.subrange(0, 0) =~= tail_of(e.name@));
        } else {
            assert(e.name@.subrange(1, e.name@.len() as int) =~= tail_of(e.name@));
        }
    }
    let level = match parse_u8(tail) {
        Some(l) => l,
        None => 2,
    };
    let r = TocEntry { title, id, level, children: Vec::new() };
    proof {
        let n = heading_node(e@);
        assert(toc_view(r).children =~= n.children);
        assert(toc_view(r).title == n.title);
        assert(toc_view(r).id == n.id);
        assert(toc_view(r).level == n.level);
    }
    r
}

} // verus!

verus! {

/// The metadata read from the selected `h1.sect0` elements and the selected
/// `meta[name=description]` elements.
pub fn meta_from_elements(heads: &Vec<Element>, metas: &Vec<Element>) -> (r: DocMeta)
    ensures
        opt_str_view(r.title) == title_of(elements_view(heads@)),
        opt_str_view(r.description) == description_of(elements_view(metas@)),
{
    let ghost hv = elements_view(heads@);
    let title = if heads.len() == 0 {
        None
    } else {
        proof {
            assert(hv[0] == heads@[0]@);
        }
        let joined = join_texts(&heads[0].texts);
        let t = trim(joined.as_str());
        if t.is_empty() {
            None
        } else {
            Some(own(t))
        }
    };
    let ghost mv = elements_view(metas@);
    let description = if metas.len() == 0 {
        None
    } else {
        proof {
            assert(mv[0] == metas@[0]@);
        }
        match &metas[0].attr {
            Some(c) => if c.as_str().is_empty() {
                None
            } else {
                Some(own(c.as_str()))
            },
            None => None,
        }
    };
    DocMeta { title, description }
}

/// The table of contents built from selected heading elements: every
/// element, nested under the nearest preceding entry of a lower level.
pub fn toc_from_headings(els: &Vec<Element>) -> (r: Vec<TocEntry>)
    ensures
        forest_view(r@) == build_forest(heading_nodes(elements_view(els@))),
{
    let ghost ev = elements_view(els@);
    let mut items: Vec<TocEntry> = Vec::new();
    let mut i: usize = 0;
    proof {
        assert(ev.take(0) =~= Seq::<ElementV>::empty());
        assert(forest_view(items@) =~= Seq::<TocNode>::empty());
    }
    while i < els.len()
        invariant
            ev == elements_view(els@),
            i <= els@.len(),
            forest_view(items@) == build_forest(heading_nodes(ev.take(i as int))),
        decreases els@.len() - i,
    {
        proof {
            assert(ev.take(i + 1).drop_last() =~= ev.take(i as int));
            assert(ev.take(i + 1).last() == els@[i as int]@);
        }
        let entry = heading_entry(&els[i]);
        insert_entry(&mut items, entry);
        proof {
            assert(heading_nodes(ev.take(i + 1)) == heading_nodes(ev.take(i as int)).push(
                heading_node(els@[i as int]@),
            ));
            let hn = heading_nodes(ev.take(i + 1));
            assert(hn.drop_last() =~= heading_nodes(ev.take(i as int)));
        }
        i = i + 1;
    }
    proof {
        assert(ev.take(els@.len() as int) =~= ev);
    }
    items
}

impl HtmlProcessor {
    /// Extract the document title and description.
    pub fn extract_meta(&self, html: &str) -> (r: DocMeta)
        ensures
            opt_str_view(r.title) == meta_title(html@),
            opt_str_view(r.description) == meta_description(html@),
    {
        let heads = select_elements(html, "h1.sect0", "id");
        let metas = select_elements(html, "meta[name=description]", "content");
        meta_from_elements(&heads, &metas)
    }

    /// Build the table of contents: every heading except the document title
    /// (`h1.sect0`), nested under the nearest preceding heading of a lower level.
    pub fn extract_toc(&self, html: &str) -> (r: Vec<TocEntry>)
        ensures
            forest_view(r@) == toc_spec(html@),
    {
        let els = select_elements(html, HEADINGS, "id");
        toc_from_headings(&els)
    }

    /// Run all transformations on the given HTML fragment.
    ///
    /// `page_rel_path` is the page's source-relative path (e.g.
    /// `"guides/install.adoc"`), used to resolve cross-reference URLs.
    pub fn process(&self, html: &str, page_rel_path: Option<&str>) -> (r: ProcessedDoc)
        ensures
            r.html@ == process_html_spec(html@, crate::xref::opt_view(page_rel_path)),
            forest_view(r.toc@) == toc_spec(crate::transform::heading_ids_spec(html@)),
            opt_str_view(r.meta.title) == meta_title(html@),
            opt_str_view(r.meta.description) == meta_description(html@),
    {
        let meta = self.extract_meta(html);
        let with_ids = self.ensure_heading_ids(html);
        let toc = self.extract_toc(with_ids.as_str());
        let r = self.transform_admonitions(with_ids.as_str());
        let r = self.transform_callout_lists(r.as_str());
        let r = self.clean_callout_markers(r.as_str());
        let r = self.transform_code_blocks(r.as_str());
        let r = self.transform_tables(r.as_str());
        let r = self.transform_figures(r.as_str());
        let r = self.fix_xref_urls(r.as_str(), page_rel_path);
        ProcessedDoc { html: r, toc, meta }
    }
}

/// The HTML that `process` produces: heading ids, then admonitions, callout
/// lists, callout markers, code blocks, tables, figures and link targets.
pub open spec fn process_html_spec(html: Seq<char>, page: Option<Seq<char>>) -> Seq<char> {
    let r = crate::transform::heading_ids_spec(html);
    let r = crate::transform::admonitions_spec(r);
    let r = crate::transform::callouts_spec(r);
    let r = crate::transform::markers_spec(r);
    let r = replace_all_spec(crate::transform::ROUGE_BLOCK@, r, crate::transform::code_block_tpl());
    let r = crate::transform::tables_spec(r);
    let r = crate::transform::figures_spec(r);
    crate::xref::xref_spec(r, page)
}

} // verus!

verus! {

impl HtmlProcessor {
    /// Create a new processor.
    pub fn new() -> (r: Self)
        ensures
            r == HtmlProcessor,
    {
        HtmlProcessor
    }
}

impl Default for HtmlProcessor {
    fn default() -> (r: Self)
        ensures
            r == HtmlProcessor,
    {
        HtmlProcessor::new()
    }
}

/// Any HTML tag.
pub const TAG: &'static str = r"<[^>]+>";

/// A run of characters other than ASCII letters, digits, space, `_` and `-`.
pub const NON_SLUG: &'static str = r"[^0-9A-Za-z _-]+";

/// A run of spaces and underscores.
pub const SLUG_GAPS: &'static str = r"[ _]+";

/// Template of a single space.
pub open spec fn space_tpl() -> Seq<PartV> {
    seq![PartV::Lit(" "@)]
}

/// Template of a single hyphen.
pub open spec fn hyphen_tpl() -> Seq<PartV> {
    seq![PartV::Lit("-"@)]
}

/// `html` with every tag replaced by a space.
pub open spec fn strip_tags_spec(html: Seq<char>) -> Seq<char> {
    replace_all_spec(TAG@, html, space_tpl())
}

/// What `str::to_lowercase` returns for `s`.
pub uninterp spec fn str_lower(s: Seq<char>) -> Seq<char>;

/// Calls `str::to_lowercase`; the result is named by `str_lower`.
#[verifier::external_body]
pub(crate) fn to_lowercase(s: &str) -> (r: String)
    ensures
        r@ == str_lower(s@),
{
    s.to_lowercase()
}

/// The slug of `text`: trimmed, lower-cased, characters other than ASCII
/// letters, digits, space, `_` and `-` removed, and each run of spaces and
/// underscores turned into one hyphen.
pub open spec fn slugify_spec(text: Seq<char>) -> Seq<char> {
    let lower = str_lower(trim_spec(text));
    let kept = replace_all_spec(NON_SLUG@, lower, Seq::<PartV>::empty());
    replace_all_spec(SLUG_GAPS@, kept, hyphen_tpl())
}

/// Strip HTML tags from a string, replacing them with spaces.
pub fn strip_tags(html: &str) -> (r: String)
    ensures
        r@ == strip_tags_spec(html@),
{
    let tpl = vec![Part::Lit(own(" "))];
    proof {
        assert(tpl_view(tpl@) =~= space_tpl());
    }
    replace_all(TAG, html, &tpl)
}

/// Convert arbitrary text into a URL-friendly slug (kebab-case).
///
/// Strips non-alphanumeric characters (except spaces, underscores, hyphens),
/// lowercases, and replaces each run of spaces and underscores with one
/// hyphen (other whitespace, such as a tab, is removed with the punctuation).
pub fn slugify(text: &str) -> (r: String)
    ensures
        r@ == slugify_spec(text@),
{
    let lower = to_lowercase(trim(text));
    let none: Vec<Part> = Vec::new();
    proof {
        assert(tpl_view(none@) =~= Seq::<PartV>::empty());
    }
    let kept = replace_all(NON_SLUG, lower.as_str(), &none);
    let tpl = vec![Part::Lit(own("-"))];
    proof {
        assert(tpl_view(tpl@) =~= hyphen_tpl());
    }
    replace_all(SLUG_GAPS, kept.as_str(), &tpl)
}

} // verus!
