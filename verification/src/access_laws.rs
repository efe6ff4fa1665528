//! Laws of what is stored about access to pages.

use crate::semantic;
use crate::semantic::{AclPrefilter, PermissionEntry, PermissionModel, StoredPage, Viewer};
use vstd::prelude::*;

verus! {

// --- Who may view a page ---

proof fn lemma_viewers_added(
    viewers: Seq<Viewer>,
    page_id: i64,
    roles: Seq<i64>,
    n: int,
    viewer: Viewer,
)
    requires
        0 <= n <= roles.len(),
    ensures
        semantic::with_viewers(viewers, page_id, roles, n).contains(viewer) <==> viewers.contains(
            viewer,
        ) || (viewer.page_id == page_id && roles.take(n).contains(viewer.role_id)),
    decreases n,
{
    if n > 0 {
        lemma_viewers_added(viewers, page_id, roles, n - 1, viewer);
        let before = semantic::with_viewers(viewers, page_id, roles, n - 1);
        let added = Viewer { page_id, role_id: roles[n - 1] };
        let after = semantic::with_viewer(before, added);
        let taken = roles.take(n);
        let fewer = roles.take(n - 1);
        if before.contains(viewer) {
            let i = choose|i: int| 0 <= i < before.len() && before[i] == viewer;
            assert(after[i] == viewer);
        }
        if viewer == added && !before.contains(added) {
            assert(after[before.len() as int] == viewer);
        }
        if after.contains(viewer) && !before.contains(viewer) {
            assert(viewer == added);
        }
        assert(taken[n - 1] == roles[n - 1]);
        if fewer.contains(viewer.role_id) {
            let i = choose|i: int| 0 <= i < fewer.len() && fewer[i] == viewer.role_id;
            assert(taken[i] == viewer.role_id);
        }
        if taken.contains(viewer.role_id) && viewer.role_id != roles[n - 1] {
            let i = choose|i: int| 0 <= i < taken.len() && taken[i] == viewer.role_id;
            assert(fewer[i] == viewer.role_id);
        }
    } else {
        assert(roles.take(0).len() == 0);
    }
}

/// After it was stored that certain roles may view a page, the page is allowed to
/// roles that have one of them and denied to all others; one whose access is not
/// limited is open. The answers for other pages stay as they were.
pub proof fn law_stored_access_decides(
    viewers: Seq<Viewer>,
    page: StoredPage,
    roles: Seq<i64>,
    asking: Seq<i64>,
    other: StoredPage,
)
    requires
        page.acl is Some,
        other.meta.page_id != page.meta.page_id,
    ensures
        ({
            let id = page.meta.page_id;
            let after = semantic::with_viewers(
                semantic::viewers_of_others(viewers, id),
                id,
                roles,
                roles.len() as int,
            );
            &&& semantic::verdict_for(page, after, asking) == if page.acl->0.default_open {
                AclPrefilter::DefaultOpen
            } else if exists|r: i64| #[trigger] roles.contains(r) && asking.contains(r) {
                AclPrefilter::Allow
            } else {
                AclPrefilter::Deny
            }
            &&& semantic::verdict_for(other, after, asking) == semantic::verdict_for(
                other,
                viewers,
                asking,
            )
        }),
{
    broadcast use vstd::seq_lib::group_filter_ensures;
    broadcast use Seq::lemma_filter_contains_rev;

    let id = page.meta.page_id;
    let others = semantic::viewers_of_others(viewers, id);
    let after = semantic::with_viewers(others, id, roles, roles.len() as int);
    assert(roles.take(roles.len() as int) =~= roles);
    if semantic::is_viewable(after, id, asking) {
        let i = choose|i: int|
            0 <= i < after.len() && (#[trigger] after[i]).page_id == id && asking.contains(
                after[i].role_id,
            );
        lemma_viewers_added(others, id, roles, roles.len() as int, after[i]);
        assert(after.contains(after[i]));
        assert(roles.contains(after[i].role_id));
    }
    if exists|r: i64| #[trigger] roles.contains(r) && asking.contains(r) {
        let r = choose|r: i64| #[trigger] roles.contains(r) && asking.contains(r);
        let viewer = Viewer { page_id: id, role_id: r };
        lemma_viewers_added(others, id, roles, roles.len() as int, viewer);
        let i = choose|i: int| 0 <= i < after.len() && after[i] == viewer;
        assert(after[i].page_id == id);
    }
    let oid = other.meta.page_id;
    if semantic::is_viewable(after, oid, asking) {
        let i = choose|i: int|
            0 <= i < after.len() && (#[trigger] after[i]).page_id == oid && asking.contains(
                after[i].role_id,
            );
        lemma_viewers_added(others, id, roles, roles.len() as int, after[i]);
        assert(after.contains(after[i]));
        assert(others.contains(after[i]));
        let j = choose|j: int| 0 <= j < viewers.len() && viewers[j] == after[i];
        assert(viewers[j].page_id == oid);
    }
    if semantic::is_viewable(viewers, oid, asking) {
        let i = choose|i: int|
            0 <= i < viewers.len() && (#[trigger] viewers[i]).page_id == oid && asking.contains(
                viewers[i].role_id,
            );
        let viewer = viewers[i];
        assert(others.contains(viewer));
        lemma_viewers_added(others, id, roles, roles.len() as int, viewer);
        let j = choose|j: int| 0 <= j < after.len() && after[j] == viewer;
        assert(after[j].page_id == oid);
    }
}

/// A role that was forgotten may view no page, and nothing changes for the other
/// roles.
pub proof fn law_forgotten_role_views_nothing(
    viewers: Seq<Viewer>,
    page_id: i64,
    role_id: i64,
    asking: Seq<i64>,
)
    ensures
        !semantic::is_viewable(semantic::viewers_but(viewers, role_id), page_id, seq![role_id]),
        !asking.contains(role_id) ==> semantic::is_viewable(
            semantic::viewers_but(viewers, role_id),
            page_id,
            asking,
        ) == semantic::is_viewable(viewers, page_id, asking),
{
    broadcast use vstd::seq_lib::group_filter_ensures;
    broadcast use Seq::lemma_filter_contains_rev;

    let after = semantic::viewers_but(viewers, role_id);
    assert forall|i: int| 0 <= i < after.len() implies !((#[trigger] after[i]).page_id == page_id
        && seq![role_id].contains(after[i].role_id)) by {
        assert(after[i].role_id != role_id);
    }
    if semantic::is_viewable(after, page_id, asking) {
        let i = choose|i: int|
            0 <= i < after.len() && (#[trigger] after[i]).page_id == page_id && asking.contains(
                after[i].role_id,
            );
        assert(after.contains(after[i]));
        let j = choose|j: int| 0 <= j < viewers.len() && viewers[j] == after[i];
        assert(viewers[j].page_id == page_id);
    }
    if !asking.contains(role_id) && semantic::is_viewable(viewers, page_id, asking) {
        let i = choose|i: int|
            0 <= i < viewers.len() && (#[trigger] viewers[i]).page_id == page_id
                && asking.contains(viewers[i].role_id);
        assert(viewers[i].role_id != role_id);
        assert(after.contains(viewers[i]));
        let j = choose|j: int| 0 <= j < after.len() && after[j] == viewers[i];
        assert(after[j].page_id == page_id);
    }
}

// --- Verdicts that were remembered ---

/// The entry is an answer to the question.
spec fn answers(e: PermissionModel, token_hash: Seq<char>, ids: Seq<i64>, min: i64) -> bool {
    e.token_hash == token_hash && ids.contains(e.page_id) && e.cached_at >= min
}

proof fn lemma_fresh_prefix(
    s: Seq<PermissionModel>,
    more: Seq<PermissionModel>,
    token_hash: Seq<char>,
    ids: Seq<i64>,
    min: i64,
    n: int,
)
    requires
        0 <= n <= s.len() <= more.len(),
        forall|i: int| 0 <= i < n ==> s[i] == more[i],
    ensures
        semantic::fresh_verdicts(s, token_hash, ids, min, n) == semantic::fresh_verdicts(
            more,
            token_hash,
            ids,
            min,
            n,
        ),
    decreases n,
{
    if n > 0 {
        lemma_fresh_prefix(s, more, token_hash, ids, min, n - 1);
    }
}

/// Removing entries that are no answers leaves the answers.
proof fn lemma_fresh_filter(
    s: Seq<PermissionModel>,
    keep: spec_fn(PermissionModel) -> bool,
    token_hash: Seq<char>,
    ids: Seq<i64>,
    min: i64,
)
    requires
        forall|i: int|
            0 <= i < s.len() && !keep(#[trigger] s[i]) ==> !answers(s[i], token_hash, ids, min),
    ensures
        semantic::fresh_verdicts(
            s.filter(keep),
            token_hash,
            ids,
            min,
            s.filter(keep).len() as int,
        ) == semantic::fresh_verdicts(s, token_hash, ids, min, s.len() as int),
    decreases s.len(),
{
    reveal(Seq::filter);
    if s.len() > 0 {
        let init = s.drop_last();
        assert forall|i: int| 0 <= i < init.len() && !keep(#[trigger] init[i]) implies !answers(
            init[i],
            token_hash,
            ids,
            min,
        ) by {
            assert(init[i] == s[i]);
        }
        lemma_fresh_filter(init, keep, token_hash, ids, min);
        lemma_fresh_prefix(init, s, token_hash, ids, min, init.len() as int);
        let kept = init.filter(keep);
        if keep(s.last()) {
            assert(s.filter(keep) =~= kept.push(s.last()));
            lemma_fresh_prefix(kept, s.filter(keep), token_hash, ids, min, kept.len() as int);
        } else {
            assert(s.filter(keep) =~= kept);
            assert(!answers(s[s.len() - 1], token_hash, ids, min));
        }
    }
}

proof fn lemma_no_fresh(
    s: Seq<PermissionModel>,
    token_hash: Seq<char>,
    ids: Seq<i64>,
    min: i64,
    n: int,
)
    requires
        0 <= n <= s.len(),
        forall|i: int| 0 <= i < n ==> !answers(#[trigger] s[i], token_hash, ids, min),
    ensures
        semantic::fresh_verdicts(s, token_hash, ids, min, n).len() == 0,
    decreases n,
{
    if n > 0 {
        lemma_no_fresh(s, token_hash, ids, min, n - 1);
        assert(!answers(s[n - 1], token_hash, ids, min));
    }
}

/// What is remembered last about a token's access to a page is what is answered,
/// once, as long as it is fresh. What is remembered about another page or another
/// token stays as it was.
pub proof fn law_last_verdict_is_answered(
    s: Seq<PermissionModel>,
    e: PermissionModel,
    token_hash: Seq<char>,
    page_id: i64,
    min: i64,
)
    ensures
        ({
            let after = semantic::with_permission(s, e);
            let asked = seq![page_id];
            semantic::fresh_verdicts(after, token_hash, asked, min, after.len() as int)
                == if token_hash == e.token_hash && page_id == e.page_id {
                if e.cached_at >= min {
                    seq![(page_id, e.viewable)]
                } else {
                    Seq::empty()
                }
            } else {
                semantic::fresh_verdicts(s, token_hash, asked, min, s.len() as int)
            }
        }),
{
    broadcast use vstd::seq_lib::group_filter_ensures;

    let asked = seq![page_id];
    assert(asked[0] == page_id);
    let keep = |m: PermissionModel| !(m.token_hash == e.token_hash && m.page_id == e.page_id);
    let kept = s.filter(keep);
    let after = semantic::with_permission(s, e);
    assert(after =~= kept.push(e));
    lemma_fresh_prefix(kept, after, token_hash, asked, min, kept.len() as int);
    assert(forall|id: i64| asked.contains(id) <==> id == page_id);
    if token_hash == e.token_hash && page_id == e.page_id {
        assert forall|i: int| 0 <= i < kept.len() implies !answers(
            #[trigger] kept[i],
            token_hash,
            asked,
            min,
        ) by {
            assert(keep(kept[i]));
        }
        lemma_no_fresh(kept, token_hash, asked, min, kept.len() as int);
        assert(semantic::fresh_verdicts(after, token_hash, asked, min, after.len() as int)
            =~= if e.cached_at >= min {
            seq![(page_id, e.viewable)]
        } else {
            Seq::empty()
        });
    } else {
        assert forall|i: int| 0 <= i < s.len() && !keep(#[trigger] s[i]) implies !answers(
            s[i],
            token_hash,
            asked,
            min,
        ) by {}
        lemma_fresh_filter(s, keep, token_hash, asked, min);
    }
}

/// Of a batch of verdicts on different pages each one is answered, as long as it
/// is fresh.
pub proof fn law_batch_is_answered(
    s: Seq<PermissionModel>,
    token_hash: Seq<char>,
    verdicts: Seq<(i64, bool)>,
    cached_at: i64,
    min: i64,
    i: int,
)
    requires
        0 <= i < verdicts.len(),
        cached_at >= min,
        forall|j: int| i < j < verdicts.len() ==> (#[trigger] verdicts[j]).0 != verdicts[i].0,
    ensures
        ({
            let after = semantic::with_permissions(
                s,
                token_hash,
                verdicts,
                cached_at,
                verdicts.len() as int,
            );
            semantic::fresh_verdicts(
                after,
                token_hash,
                seq![verdicts[i].0],
                min,
                after.len() as int,
            ) == seq![verdicts[i]]
        }),
{
    lemma_batch_up_to(s, token_hash, verdicts, cached_at, min, i, verdicts.len() as int);
}

proof fn lemma_batch_up_to(
    s: Seq<PermissionModel>,
    token_hash: Seq<char>,
    verdicts: Seq<(i64, bool)>,
    cached_at: i64,
    min: i64,
    i: int,
    n: int,
)
    requires
        0 <= i < n <= verdicts.len(),
        cached_at >= min,
        forall|j: int| i < j < verdicts.len() ==> (#[trigger] verdicts[j]).0 != verdicts[i].0,
    ensures
        ({
            let after = semantic::with_permissions(s, token_hash, verdicts, cached_at, n);
            semantic::fresh_verdicts(
                after,
                token_hash,
                seq![verdicts[i].0],
                min,
                after.len() as int,
            ) == seq![verdicts[i]]
        }),
    decreases n,
{
    let before = semantic::with_permissions(s, token_hash, verdicts, cached_at, n - 1);
    let e = PermissionModel {
        token_hash,
        page_id: verdicts[n - 1].0,
        viewable: verdicts[n - 1].1,
        cached_at,
    };
    law_last_verdict_is_answered(before, e, token_hash, verdicts[i].0, min);
    if n - 1 > i {
        lemma_batch_up_to(s, token_hash, verdicts, cached_at, min, i, n - 1);
    }
}

/// Forgetting verdicts that are older than a time changes no answer that is to be
/// at least as fresh.
pub proof fn law_forgetting_changes_no_fresh_answer(
    entries: Seq<PermissionEntry>,
    older_than: i64,
    token_hash: Seq<char>,
    ids: Seq<i64>,
    min: i64,
)
    requires
        min >= older_than,
    ensures
        ({
            let left = semantic::permissions(semantic::entries_since(entries, older_than));
            semantic::fresh_verdicts(left, token_hash, ids, min, left.len() as int)
                == semantic::fresh_verdicts(
                semantic::permissions(entries),
                token_hash,
                ids,
                min,
                entries.len() as int,
            )
        }),
{
    let f = |e: PermissionEntry| e.cached_at >= older_than;
    let g = |m: PermissionModel| m.cached_at >= older_than;
    semantic::lemma_permissions_filter(entries, f, g);
    assert(semantic::entries_since(entries, older_than) =~= entries.filter(f));
    lemma_fresh_filter(semantic::permissions(entries), g, token_hash, ids, min);
}

} // verus!
