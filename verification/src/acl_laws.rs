//! What holds of the access that is worked out for a page.

use crate::acl;
use crate::acl::{AclLevel, AclOutcome, AclQuery, AclStepModel, RoleContext};
use crate::bookstack::ContentType;
use crate::json;
use crate::json::Json;
use crate::rows;
use vstd::prelude::*;

verus! {

/// The entries for single roles in a permissions answer.
pub open spec fn role_entries(perms: Json) -> Seq<Json> {
    json::items_of(json::member(perms, "role_permissions"@))
}

/// The entry is for the role.
pub open spec fn names_role(entry: Json, role: i64) -> bool {
    json::int_of(json::member(entry, "role_id"@)) == Some(role)
}

/// The `k`th entry is the last one for the role.
pub open spec fn is_last_entry(perms: Json, role: i64, k: int) -> bool {
    &&& 0 <= k < role_entries(perms).len()
    &&& names_role(role_entries(perms)[k], role)
    &&& forall|j: int|
        k < j < role_entries(perms).len() ==> !names_role(#[trigger] role_entries(perms)[j], role)
}

/// The answer lets the role view: its last entry does, or where it has none the
/// fallback does.
pub open spec fn grants(perms: Json, role: i64) -> bool {
    ||| exists|k: int| #[trigger]
        is_last_entry(perms, role, k) && json::bool_of(
            json::member(role_entries(perms)[k], "view"@),
        ) == Some(true)
    ||| (forall|k: int|
        0 <= k < role_entries(perms).len() ==> !names_role(#[trigger] role_entries(perms)[k], role))
        && json::bool_of(
        json::member_opt(json::member(perms, "fallback_permissions"@), "view"@),
    ) == Some(true)
}

proof fn lemma_stated_view(entries: Seq<Json>, n: int, role: i64)
    requires
        0 <= n <= entries.len(),
    ensures
        match acl::stated_view(entries, n, role) {
            Some(b) => exists|k: int|
                0 <= k < n && names_role(#[trigger] entries[k], role) && (b <==> json::bool_of(
                    json::member(entries[k], "view"@),
                ) == Some(true)) && forall|j: int|
                    k < j < n ==> !names_role(#[trigger] entries[j], role),
            None => forall|k: int| 0 <= k < n ==> !names_role(#[trigger] entries[k], role),
        },
    decreases n,
{
    if n > 0 {
        lemma_stated_view(entries, n - 1, role);
        if names_role(entries[n - 1], role) {
            assert(acl::stated_view(entries, n, role) is Some);
        } else {
            match acl::stated_view(entries, n - 1, role) {
                Some(b) => {
                    let k = choose|k: int|
                        0 <= k < n - 1 && names_role(#[trigger] entries[k], role) && (b
                            <==> json::bool_of(json::member(entries[k], "view"@)) == Some(true))
                            && forall|j: int|
                            k < j < n - 1 ==> !names_role(#[trigger] entries[j], role);
                    assert(names_role(entries[k], role));
                },
                None => {},
            }
        }
    }
}

proof fn lemma_grants(perms: Json, role: i64)
    ensures
        acl::may_view(perms, role) <==> grants(perms, role),
{
    let entries = role_entries(perms);
    let n = entries.len() as int;
    lemma_stated_view(entries, n, role);
    match acl::stated_view(entries, n, role) {
        Some(b) => {
            let k = choose|k: int|
                0 <= k < n && names_role(#[trigger] entries[k], role) && (b <==> json::bool_of(
                    json::member(entries[k], "view"@),
                ) == Some(true)) && forall|j: int|
                    k < j < n ==> !names_role(#[trigger] entries[j], role);
            assert(is_last_entry(perms, role, k));
            if grants(perms, role) {
                let m = choose|m: int| #[trigger]
                    is_last_entry(perms, role, m) && json::bool_of(
                        json::member(role_entries(perms)[m], "view"@),
                    ) == Some(true);
                if m < k {
                    assert(!names_role(role_entries(perms)[k], role));
                } else if k < m {
                    assert(!names_role(entries[m], role));
                }
            }
        },
        None => {
            assert forall|k: int| !(#[trigger] is_last_entry(perms, role, k)) by {
                if is_last_entry(perms, role, k) {
                    assert(!names_role(entries[k], role));
                }
            }
        },
    }
}

proof fn lemma_viewers_selection(perms: Json, roles: Seq<i64>)
    ensures
        rows::is_selection(
            roles,
            |role: i64|
                if grants(perms, role) {
                    Some(role)
                } else {
                    None
                },
            acl::viewers(perms, roles),
        ),
    decreases roles.len(),
{
    let value = |role: i64|
        if grants(perms, role) {
            Some(role)
        } else {
            None
        };
    if roles.len() == 0 {
        rows::lemma_selection_empty::<i64, i64>(value);
        assert(roles =~= Seq::empty());
    } else {
        lemma_viewers_selection(perms, roles.drop_last());
        lemma_grants(perms, roles.last());
        rows::lemma_selection_step(
            roles.drop_last(),
            value,
            acl::viewers(perms, roles.drop_last()),
            roles.last(),
        );
        assert(roles.drop_last().push(roles.last()) =~= roles);
    }
}

/// The viewers are the roles that the answer lets view, all of them, in the order
/// of the roles.
pub proof fn law_viewers_are_selected(perms: Json, roles: Seq<i64>)
    ensures
        rows::is_selection(
            roles,
            |role: i64|
                if grants(perms, role) {
                    Some(role)
                } else {
                    None
                },
            acl::viewers(perms, roles),
        ),
{
    lemma_viewers_selection(perms, roles);
}

/// A role goes by its last entry, wherever in the list that entry stands and
/// whatever the fallback is: it is among the viewers exactly if the entry says
/// so.
pub proof fn law_last_entry_decides(perms: Json, roles: Seq<i64>, role: i64, k: int)
    requires
        roles.contains(role),
        0 <= k < role_entries(perms).len(),
        names_role(role_entries(perms)[k], role),
        forall|j: int|
            k < j < role_entries(perms).len() ==> !names_role(
                #[trigger] role_entries(perms)[j],
                role,
            ),
    ensures
        acl::viewers(perms, roles).contains(role) <==> json::bool_of(
            json::member(role_entries(perms)[k], "view"@),
        ) == Some(true),
{
    lemma_grants(perms, role);
    acl::law_viewers_are_those_who_may(perms, roles, role);
    assert(is_last_entry(perms, role, k));
    if grants(perms, role) {
        let m = choose|m: int| #[trigger]
            is_last_entry(perms, role, m) && json::bool_of(
                json::member(role_entries(perms)[m], "view"@),
            ) == Some(true);
        if m < k {
            assert(!names_role(role_entries(perms)[k], role));
        } else if k < m {
            assert(!names_role(role_entries(perms)[m], role));
        }
    }
}

/// Only a role without any entry goes by the fallback.
pub proof fn law_fallback_decides_without_entry(perms: Json, roles: Seq<i64>, role: i64)
    requires
        roles.contains(role),
        forall|k: int|
            0 <= k < role_entries(perms).len() ==> !names_role(
                #[trigger] role_entries(perms)[k],
                role,
            ),
    ensures
        acl::viewers(perms, roles).contains(role) <==> json::bool_of(
            json::member_opt(json::member(perms, "fallback_permissions"@), "view"@),
        ) == Some(true),
{
    lemma_grants(perms, role);
    acl::law_viewers_are_those_who_may(perms, roles, role);
}

/// The answer has permissions of its own: it says that it does not inherit.
pub open spec fn has_own(perms: Option<Json>) -> bool {
    perms matches Some(p) && json::bool_of(
        json::member_opt(json::member(p, "fallback_permissions"@), "inheriting"@),
    ) == Some(false)
}

/// The page's own permissions decide, else those of its chapter where it stands
/// in one, else those of its book; where none of them has any, the page is open
/// to the roles that view everything.
pub proof fn law_access_by_levels(
    query: AclQuery,
    page: Option<Json>,
    chapter: Option<Json>,
    book: Option<Json>,
    roles: RoleContext,
    role: i64,
)
    ensures
        ({
            let acl = acl::resolved_acl(query, page, chapter, book, roles);
            let by_chapter = query.chapter_id is Some && has_own(chapter);
            let all = roles.all_role_ids@;
            &&& acl.page_id == query.page_id
            &&& acl.computed_at == query.now
            &&& acl.default_open <==> !has_own(page) && !by_chapter && !has_own(book)
            &&& has_own(page) ==> (acl.view_roles.contains(role) <==> all.contains(role) && grants(
                page->0,
                role,
            ))
            &&& !has_own(page) && by_chapter ==> (acl.view_roles.contains(role) <==> all.contains(
                role,
            ) && grants(chapter->0, role))
            &&& !has_own(page) && !by_chapter && has_own(book) ==> (acl.view_roles.contains(role)
                <==> all.contains(role) && grants(book->0, role))
            &&& acl.default_open ==> acl.view_roles == roles.view_all_role_ids@
        }),
{
    if has_own(page) {
        lemma_grants(page->0, role);
        acl::law_viewers_are_those_who_may(page->0, roles.all_role_ids@, role);
    }
    if has_own(chapter) {
        lemma_grants(chapter->0, role);
        acl::law_viewers_are_those_who_may(chapter->0, roles.all_role_ids@, role);
    }
    if has_own(book) {
        lemma_grants(book->0, role);
        acl::law_viewers_are_those_who_may(book->0, roles.all_role_ids@, role);
    }
}

/// The page is asked first, then its chapter where it stands in one, then its book,
/// each by its own id and only as long as no answer has permissions of its own.
pub proof fn law_levels_are_asked_in_turn(
    query: AclQuery,
    level: AclLevel,
    answer: Option<Json>,
    roles: RoleContext,
)
    ensures
        ({
            let next = acl::acl_after(query, level, answer, roles);
            let ended = has_own(answer) || level == AclLevel::Book;
            &&& next is Done <==> ended
            &&& !ended && level == AclLevel::Page && query.chapter_id is Some ==> next
                == AclStepModel::Ask(AclLevel::Chapter, ContentType::Chapter, query.chapter_id->0)
            &&& !ended && (level == AclLevel::Chapter || query.chapter_id is None) ==> next
                == AclStepModel::Ask(AclLevel::Book, ContentType::Book, query.book_id)
            &&& next matches AclStepModel::Done(acl) ==> acl.page_id == query.page_id
                && acl.computed_at == query.now && (acl.default_open <==> !has_own(answer)) && (
            acl.default_open ==> acl.view_roles == roles.view_all_role_ids@)
        }),
        ({
            let next = acl::acl_after(query, level, answer, roles);
            has_own(answer) ==> (next matches AclStepModel::Done(acl) && rows::is_selection(
                roles.all_role_ids@,
                |role: i64|
                    if grants(answer->0, role) {
                        Some(role)
                    } else {
                        None
                    },
                acl.view_roles,
            ))
        }),
{
    if has_own(answer) {
        law_viewers_are_selected(answer->0, roles.all_role_ids@);
    }
}

/// A list of permissions has one with the name.
pub open spec fn lists(role: Json, name: Seq<char>) -> bool {
    exists|i: int|
        0 <= i < json::items_of(json::member(role, "permissions"@)).len() && json::text_of(
            Some(#[trigger] json::items_of(json::member(role, "permissions"@))[i]),
        ) == Some(name)
}

proof fn lemma_views_all(role: Json)
    ensures
        acl::views_all(role) <==> lists(role, "page-view-all"@) || lists(role, "chapter-view-all"@)
            || lists(role, "book-view-all"@) || lists(role, "content-export"@),
{
    let items = json::items_of(json::member(role, "permissions"@));
    if acl::views_all(role) {
        let i = choose|i: int|
            0 <= i < items.len() && (json::text_of(Some(#[trigger] items[i])) matches Some(name)
                && acl::is_view_all_name(name));
        let name = json::text_of(Some(items[i]))->0;
        assert(lists(role, name));
    }
}

/// Each role with its details, where it has any.
pub open spec fn with_details(ids: Seq<i64>, details: Seq<Option<Json>>) -> Seq<
    (i64, Option<Json>),
> {
    Seq::new(
        ids.len(),
        |i: int|
            (
                ids[i],
                if i < details.len() {
                    details[i]
                } else {
                    None
                },
            ),
    )
}

/// The roles that view everything are those whose details list one of the four
/// permissions for it, all of them, in the order of the roles; a role without
/// details is none.
pub proof fn law_view_all_roles(ids: Seq<i64>, details: Seq<Option<Json>>)
    ensures
        rows::is_selection(
            with_details(ids, details),
            |r: (i64, Option<Json>)|
                if r.1 matches Some(d) && (lists(d, "page-view-all"@) || lists(
                    d,
                    "chapter-view-all"@,
                ) || lists(d, "book-view-all"@) || lists(d, "content-export"@)) {
                    Some(r.0)
                } else {
                    None
                },
            acl::view_all_roles(ids, details, ids.len() as int),
        ),
{
    lemma_view_all_roles(ids, details, ids.len() as int);
    let all = with_details(ids, details);
    assert(all.take(ids.len() as int) =~= all);
}

proof fn lemma_view_all_roles(ids: Seq<i64>, details: Seq<Option<Json>>, n: int)
    requires
        0 <= n <= ids.len(),
    ensures
        rows::is_selection(
            with_details(ids, details).take(n),
            |r: (i64, Option<Json>)|
                if r.1 matches Some(d) && (lists(d, "page-view-all"@) || lists(
                    d,
                    "chapter-view-all"@,
                ) || lists(d, "book-view-all"@) || lists(d, "content-export"@)) {
                    Some(r.0)
                } else {
                    None
                },
            acl::view_all_roles(ids, details, n),
        ),
    decreases n,
{
    let value = |r: (i64, Option<Json>)|
        if r.1 matches Some(d) && (lists(d, "page-view-all"@) || lists(d, "chapter-view-all"@)
            || lists(d, "book-view-all"@) || lists(d, "content-export"@)) {
            Some(r.0)
        } else {
            None
        };
    let all = with_details(ids, details);
    if n == 0 {
        rows::lemma_selection_empty::<(i64, Option<Json>), i64>(value);
        assert(all.take(0) =~= Seq::empty());
    } else {
        lemma_view_all_roles(ids, details, n - 1);
        if let Some(d) = details[n - 1] {
            lemma_views_all(d);
        }
        rows::lemma_selection_step(
            all.take(n - 1),
            value,
            acl::view_all_roles(ids, details, n - 1),
            all[n - 1],
        );
        assert(all.take(n - 1).push(all[n - 1]) =~= all.take(n));
    }
}

/// The counts are the numbers of the outcomes, so that all three together are as
/// many as there are.
pub proof fn law_outcomes_are_counted(outcomes: Seq<AclOutcome>, outcome: AclOutcome)
    ensures
        acl::count_of(outcomes, outcome, outcomes.len() as int) == outcomes.filter(
            |o: AclOutcome| o == outcome,
        ).len(),
        acl::count_of(outcomes, AclOutcome::Stored, outcomes.len() as int) + acl::count_of(
            outcomes,
            AclOutcome::Missing,
            outcomes.len() as int,
        ) + acl::count_of(outcomes, AclOutcome::Failed, outcomes.len() as int) == outcomes.len(),
{
    lemma_outcomes(outcomes, outcome, outcomes.len() as int);
    assert(outcomes.take(outcomes.len() as int) =~= outcomes);
}

proof fn lemma_outcomes(outcomes: Seq<AclOutcome>, outcome: AclOutcome, n: int)
    requires
        0 <= n <= outcomes.len(),
    ensures
        acl::count_of(outcomes, outcome, n) == outcomes.take(n).filter(
            |o: AclOutcome| o == outcome,
        ).len(),
        acl::count_of(outcomes, AclOutcome::Stored, n) + acl::count_of(
            outcomes,
            AclOutcome::Missing,
            n,
        ) + acl::count_of(outcomes, AclOutcome::Failed, n) == n,
    decreases n,
{
    reveal(Seq::filter);
    if n > 0 {
        lemma_outcomes(outcomes, outcome, n - 1);
        assert(outcomes.take(n).drop_last() =~= outcomes.take(n - 1));
        assert(outcomes.take(n).last() == outcomes[n - 1]);
    }
}

} // verus!
