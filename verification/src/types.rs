//! Plain records that the parts of the library hand to each other.

use vstd::prelude::*;

verus! {

/// A page as it was embedded.
#[derive(Clone, Debug)]
pub struct PageMeta {
    pub page_id: i64,
    pub book_id: i64,
    pub chapter_id: Option<i64>,
    pub name: String,
    pub slug: String,
    pub content_hash: String,
    /// ISO 8601 timestamp that the wiki states.
    pub updated_at: Option<String>,
}

/// A chunk as a search shows it.
#[derive(Clone, Debug)]
pub struct ChunkDetail {
    pub chunk_id: i64,
    pub page_id: i64,
    pub heading_path: String,
    pub content: String,
    pub page_name: String,
}

/// A page next to another one.
#[derive(Clone, Debug)]
pub struct RelatedPage {
    pub page_id: i64,
    pub name: String,
}

/// The pages around a page: those that link to it, those that it links to,
/// those that link where it links, and its neighbours.
#[derive(Clone, Debug, Default)]
pub struct MarkovBlanket {
    pub linked_from: Vec<RelatedPage>,
    pub links_to: Vec<RelatedPage>,
    pub co_linked: Vec<RelatedPage>,
    pub siblings: Vec<RelatedPage>,
}

/// Who may view a page.
#[derive(Clone, Debug, Default)]
pub struct PageAcl {
    pub page_id: i64,
    /// The roles that may view the page. Empty means that no role may.
    pub view_roles: Vec<i64>,
    /// Every level inherits: no permissions of the page's own apply.
    pub default_open: bool,
    /// Unix seconds of the computation.
    pub computed_at: i64,
}

/// Who may view a page, in the model.
#[verifier::ext_equal]
pub struct PageAclModel {
    pub page_id: i64,
    pub view_roles: Seq<i64>,
    pub default_open: bool,
    pub computed_at: i64,
}

impl PageAcl {
    /// The access in the model.
    pub open spec fn model(self) -> PageAclModel {
        PageAclModel {
            page_id: self.page_id,
            view_roles: self.view_roles@,
            default_open: self.default_open,
            computed_at: self.computed_at,
        }
    }
}

// --- Scopes ---

/// What part of the corpus a search looks at. A page qualifies where any of
/// the four lists names it or a parent of it; a filter without any id stands
/// for the whole corpus.
#[derive(Clone, Debug, Default)]
pub struct ScopeFilter {
    pub shelf_ids: Vec<i64>,
    pub book_ids: Vec<i64>,
    pub chapter_ids: Vec<i64>,
    pub page_ids: Vec<i64>,
}

/// Each number is greater than the one before.
pub open spec fn increasing(s: Seq<i64>) -> bool {
    forall|i: int, j: int| 0 <= i < j < s.len() ==> s[i] < s[j]
}

/// `sorted` holds the numbers of `ids`, each once, in order.
pub open spec fn sorted_ids(ids: Seq<i64>, sorted: Seq<i64>) -> bool {
    &&& increasing(sorted)
    &&& forall|x: i64| sorted.contains(x) <==> ids.contains(x)
}

/// Puts `id` at its place among increasing numbers, unless it is there.
fn insert_sorted(v: &mut Vec<i64>, id: i64)
    requires
        increasing(old(v)@),
    ensures
        increasing(final(v)@),
        forall|x: i64| final(v)@.contains(x) <==> old(v)@.contains(x) || x == id,
{
    let mut pos: usize = 0;
    while pos < v.len() && v[pos] < id
        invariant
            pos <= v@.len(),
            v@ == old(v)@,
            forall|j: int| 0 <= j < pos ==> v@[j] < id,
        decreases v@.len() - pos,
    {
        pos += 1;
    }
    if pos < v.len() && v[pos] == id {
        assert(v@[pos as int] == id);
        return ;
    }
    let ghost before = v@;
    assert forall|j: int| pos <= j < before.len() implies before[j] > id by {
        if j > pos {
            assert(before[pos as int] < before[j]);
        }
    }
    assert(before == old(v)@);
    v.insert(pos, id);
    proof {
        assert(v@ =~= before.insert(pos as int, id));
        assert forall|x: i64| v@.contains(x) <==> before.contains(x) || x == id by {
            if before.contains(x) {
                let k = choose|k: int| 0 <= k < before.len() && before[k] == x;
                if k < pos {
                    assert(v@[k] == x);
                } else {
                    assert(v@[k + 1] == x);
                }
            }
            if x == id {
                assert(v@[pos as int] == x);
            }
            if v@.contains(x) {
                let k = choose|k: int| 0 <= k < v@.len() && v@[k] == x;
                if k < pos {
                    assert(before[k] == x);
                } else if k > pos {
                    assert(before[k - 1] == x);
                }
            }
        }
        assert forall|x: i64| v@.contains(x) <==> old(v)@.contains(x) || x == id by {
            assert(v@.contains(x) <==> before.contains(x) || x == id);
        }
    }
}

/// Sorts the ids and drops repetitions.
fn sort_ids(ids: &mut Vec<i64>)
    ensures
        sorted_ids(old(ids)@, final(ids)@),
{
    let mut out: Vec<i64> = Vec::new();
    let mut i: usize = 0;
    while i < ids.len()
        invariant
            i <= ids@.len(),
            ids@ == old(ids)@,
            sorted_ids(ids@.take(i as int), out@),
        decreases ids@.len() - i,
    {
        let id: i64 = ids[i];
        let ghost before = out@;
        insert_sorted(&mut out, id);
        proof {
            let here = ids@.take(i as int);
            let next = ids@.take(i + 1);
            assert forall|x: i64| next.contains(x) <==> here.contains(x) || x == id by {
                if here.contains(x) {
                    let k = choose|k: int| 0 <= k < here.len() && here[k] == x;
                    assert(next[k] == x);
                }
                if x == id {
                    assert(next[i as int] == x);
                }
                if next.contains(x) {
                    let k = choose|k: int| 0 <= k < next.len() && next[k] == x;
                    if k < i {
                        assert(here[k] == x);
                    }
                }
            }
        }
        i += 1;
    }
    assert(ids@.take(i as int) =~= ids@);
    *ids = out;
}

/// Appends a copy of `more`.
fn append_ids(ids: &mut Vec<i64>, more: &Vec<i64>)
    ensures
        final(ids)@ == old(ids)@ + more@,
{
    let ghost start = ids@;
    let mut i: usize = 0;
    assert(start + more@.take(0) =~= start);
    while i < more.len()
        invariant
            i <= more@.len(),
            ids@ == start + more@.take(i as int),
        decreases more@.len() - i,
    {
        assert(start + more@.take(i + 1) =~= (start + more@.take(i as int)).push(more@[i as int]));
        ids.push(more[i]);
        i += 1;
    }
    assert(more@.take(i as int) =~= more@);
}

impl ScopeFilter {
    /// No list names anything.
    pub open spec fn names_nothing(self) -> bool {
        &&& self.shelf_ids@.len() == 0
        &&& self.book_ids@.len() == 0
        &&& self.chapter_ids@.len() == 0
        &&& self.page_ids@.len() == 0
    }

    /// Tells whether the filter stands for the whole corpus.
    pub fn is_empty(&self) -> (r: bool)
        ensures
            r == self.names_nothing(),
    {
        self.shelf_ids.len() == 0 && self.book_ids.len() == 0 && self.chapter_ids.len() == 0
            && self.page_ids.len() == 0
    }

    /// Takes the ids of another filter in, so that the filter covers what
    /// either covered.
    pub fn merge(&mut self, other: &ScopeFilter)
        ensures
            final(self).shelf_ids@ == old(self).shelf_ids@ + other.shelf_ids@,
            final(self).book_ids@ == old(self).book_ids@ + other.book_ids@,
            final(self).chapter_ids@ == old(self).chapter_ids@ + other.chapter_ids@,
            final(self).page_ids@ == old(self).page_ids@ + other.page_ids@,
    {
        append_ids(&mut self.shelf_ids, &other.shelf_ids);
        append_ids(&mut self.book_ids, &other.book_ids);
        append_ids(&mut self.chapter_ids, &other.chapter_ids);
        append_ids(&mut self.page_ids, &other.page_ids);
    }

    /// Drops repeated ids; each list is left in increasing order.
    pub fn dedup(&mut self)
        ensures
            sorted_ids(old(self).shelf_ids@, final(self).shelf_ids@),
            sorted_ids(old(self).book_ids@, final(self).book_ids@),
            sorted_ids(old(self).chapter_ids@, final(self).chapter_ids@),
            sorted_ids(old(self).page_ids@, final(self).page_ids@),
    {
        sort_ids(&mut self.shelf_ids);
        sort_ids(&mut self.book_ids);
        sort_ids(&mut self.chapter_ids);
        sort_ids(&mut self.page_ids);
    }
}

/// The sorted form is determined by what the lists hold: lists with the same
/// ids, in whatever order and however often, have the same sorted form. So
/// dropping repetitions twice is the same as once, and the order in which
/// filters are merged does not show.
pub proof fn law_sorted_ids_unique(a: Seq<i64>, b: Seq<i64>, sa: Seq<i64>, sb: Seq<i64>)
    requires
        forall|x: i64| a.contains(x) <==> b.contains(x),
        sorted_ids(a, sa),
        sorted_ids(b, sb),
    ensures
        sa == sb,
    decreases sa.len(),
{
    assert forall|x: i64| sa.contains(x) <==> sb.contains(x) by {
        assert(a.contains(x) <==> b.contains(x));
    }
    lemma_increasing_unique(sa, sb);
}

proof fn lemma_increasing_unique(a: Seq<i64>, b: Seq<i64>)
    requires
        increasing(a),
        increasing(b),
        forall|x: i64| a.contains(x) <==> b.contains(x),
    ensures
        a == b,
    decreases a.len(),
{
    if a.len() == 0 {
        if b.len() > 0 {
            assert(b.contains(b[0]));
            assert(a.contains(b[0]));
        }
        assert(a =~= b);
    } else {
        assert(a.contains(a.last()));
        assert(b.contains(a.last()));
        assert(b.contains(b.last()));
        assert(a.contains(b.last()));
        let i = choose|i: int| 0 <= i < b.len() && b[i] == a.last();
        let j = choose|j: int| 0 <= j < a.len() && a[j] == b.last();
        assert(a.last() == b.last());
        let a1 = a.drop_last();
        let b1 = b.drop_last();
        assert forall|x: i64| a1.contains(x) <==> b1.contains(x) by {
            if a1.contains(x) {
                let k = choose|k: int| 0 <= k < a1.len() && a1[k] == x;
                assert(a[k] == x && x < a.last());
                assert(b.contains(x));
                let m = choose|m: int| 0 <= m < b.len() && b[m] == x;
                assert(b1[m] == x);
            }
            if b1.contains(x) {
                let k = choose|k: int| 0 <= k < b1.len() && b1[k] == x;
                assert(b[k] == x && x < b.last());
                assert(a.contains(x));
                let m = choose|m: int| 0 <= m < a.len() && a[m] == x;
                assert(a1[m] == x);
            }
        }
        lemma_increasing_unique(a1, b1);
        assert(a =~= a1.push(a.last()));
        assert(b =~= b1.push(b.last()));
    }
}

/// Merging covers exactly what either filter covered, in either order.
pub proof fn law_merge_is_union(a: Seq<i64>, b: Seq<i64>, x: i64)
    ensures
        (a + b).contains(x) <==> a.contains(x) || b.contains(x),
        (a + b).contains(x) <==> (b + a).contains(x),
{
    lemma_concat_contains(a, b, x);
    lemma_concat_contains(b, a, x);
}

proof fn lemma_concat_contains(a: Seq<i64>, b: Seq<i64>, x: i64)
    ensures
        (a + b).contains(x) <==> a.contains(x) || b.contains(x),
{
    if a.contains(x) {
        let k = choose|k: int| 0 <= k < a.len() && a[k] == x;
        assert((a + b)[k] == x);
    }
    if b.contains(x) {
        let k = choose|k: int| 0 <= k < b.len() && b[k] == x;
        assert((a + b)[a.len() + k] == x);
    }
}

} // verus!
