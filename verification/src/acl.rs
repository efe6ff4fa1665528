//! Per-page access control: which roles may view a page.
//!
//! Permissions are looked up at the page, then its chapter, then its book; the
//! first level that does not inherit decides. Where every level inherits, the
//! page is open to the roles with a system-wide view permission.

use crate::bookstack::ContentType;
use crate::json;
use crate::json::Json;
use crate::text::same_text;
use crate::types::{PageAcl, PageAclModel};
use vstd::prelude::*;

verus! {

/// The roles of the wiki, collected once per run.
#[derive(Clone, Debug, Default)]
pub struct RoleContext {
    /// Every role.
    pub all_role_ids: Vec<i64>,
    /// The roles that may view content for which no level has permissions of
    /// its own.
    pub view_all_role_ids: Vec<i64>,
}

/// The permission names that let a role view all content.
pub open spec fn is_view_all_name(name: Seq<char>) -> bool {
    ||| name == "page-view-all"@
    ||| name == "chapter-view-all"@
    ||| name == "book-view-all"@
    ||| name == "content-export"@
}

/// One of the role's permissions lets it view all content.
pub open spec fn views_all(role: Json) -> bool {
    exists|i: int|
        0 <= i < json::items_of(json::member(role, "permissions"@)).len() && (json::text_of(
            Some(#[trigger] json::items_of(json::member(role, "permissions"@))[i]),
        ) matches Some(name) && is_view_all_name(name))
}

/// Tells whether a role's details include a system-wide view permission.
/// Roles that may export content count, since they see everything.
pub fn has_view_all_permission(role: &Json) -> (r: bool)
    ensures
        r == views_all(*role),
{
    let perms = match role.get_items("permissions") {
        Some(v) => v,
        None => {
            return false;
        },
    };
    let ghost items = json::items_of(json::member(*role, "permissions"@));
    let mut i: usize = 0;
    while i < perms.len()
        invariant
            i <= perms@.len(),
            items == perms@,
            items == json::items_of(json::member(*role, "permissions"@)),
            forall|j: int|
                0 <= j < i ==> !(json::text_of(Some(#[trigger] items[j])) matches Some(name)
                    && is_view_all_name(name)),
        decreases perms@.len() - i,
    {
        if let Some(name) = perms[i].as_str() {
            if same_text(name, "page-view-all") || same_text(name, "chapter-view-all")
                || same_text(name, "book-view-all") || same_text(name, "content-export") {
                assert(is_view_all_name(name@));
                assert(json::text_of(Some(items[i as int])) == Some(name@));
                return true;
            }
        }
        i += 1;
    }
    false
}

/// A level without permissions of its own. A response that does not say counts
/// as inheriting.
pub open spec fn inherits(perms: Json) -> bool {
    match json::bool_of(
        json::member_opt(json::member(perms, "fallback_permissions"@), "inheriting"@),
    ) {
        Some(b) => b,
        None => true,
    }
}

/// Tells whether a permissions response inherits from the level above.
pub fn is_inheriting(perms: &Json) -> (r: bool)
    ensures
        r == inherits(*perms),
{
    match perms.get("fallback_permissions") {
        Some(fallback) => match fallback.get_bool("inheriting") {
            Some(b) => b,
            None => true,
        },
        None => true,
    }
}

/// The view flag that one entry states.
pub open spec fn entry_view(entry: Json) -> bool {
    match json::bool_of(json::member(entry, "view"@)) {
        Some(b) => b,
        None => false,
    }
}

/// What the first `n` entries say of a role: the last entry for it counts.
pub open spec fn stated_view(entries: Seq<Json>, n: int, role: i64) -> Option<bool>
    decreases n,
{
    if n <= 0 {
        None
    } else if json::int_of(json::member(entries[n - 1], "role_id"@)) == Some(role) {
        Some(entry_view(entries[n - 1]))
    } else {
        stated_view(entries, n - 1, role)
    }
}

/// The view flag for roles without an entry.
pub open spec fn fallback_view(perms: Json) -> bool {
    match json::bool_of(json::member_opt(json::member(perms, "fallback_permissions"@), "view"@)) {
        Some(b) => b,
        None => false,
    }
}

/// The role may view the content: its own entry says so, or else the fallback.
pub open spec fn may_view(perms: Json, role: i64) -> bool {
    let entries = json::items_of(json::member(perms, "role_permissions"@));
    match stated_view(entries, entries.len() as int, role) {
        Some(b) => b,
        None => fallback_view(perms),
    }
}

/// The roles among `roles` that may view the content, in their order.
pub open spec fn viewers(perms: Json, roles: Seq<i64>) -> Seq<i64>
    decreases roles.len(),
{
    if roles.len() == 0 {
        Seq::empty()
    } else {
        let before = viewers(perms, roles.drop_last());
        if may_view(perms, roles.last()) {
            before.push(roles.last())
        } else {
            before
        }
    }
}

/// Finds the last entry for a role.
fn find_stated_view(entries: &Vec<Json>, role: i64) -> (r: Option<bool>)
    ensures
        r == stated_view(entries@, entries@.len() as int, role),
{
    let mut n: usize = entries.len();
    while n > 0
        invariant
            n <= entries@.len(),
            stated_view(entries@, entries@.len() as int, role) == stated_view(
                entries@,
                n as int,
                role,
            ),
        decreases n,
    {
        let entry = &entries[n - 1];
        if let Some(id) = entry.get_i64("role_id") {
            if id == role {
                return Some(
                    match entry.get_bool("view") {
                        Some(b) => b,
                        None => false,
                    },
                );
            }
        }
        n -= 1;
    }
    None
}

/// The roles that may view content with the given permissions: a role with an
/// entry of its own goes by it, every other one by the fallback.
pub fn compute_effective_view(perms: &Json, all_role_ids: &[i64]) -> (r: Vec<i64>)
    ensures
        r@ == viewers(*perms, all_role_ids@),
{
    let fallback: bool = match perms.get("fallback_permissions") {
        Some(f) => match f.get_bool("view") {
            Some(b) => b,
            None => false,
        },
        None => false,
    };
    let none: Vec<Json> = Vec::new();
    let entries: &Vec<Json> = match perms.get_items("role_permissions") {
        Some(v) => v,
        None => &none,
    };
    assert(entries@ =~= json::items_of(json::member(*perms, "role_permissions"@)));
    let mut out: Vec<i64> = Vec::new();
    let mut i: usize = 0;
    while i < all_role_ids.len()
        invariant
            i <= all_role_ids@.len(),
            fallback == fallback_view(*perms),
            entries@ == json::items_of(json::member(*perms, "role_permissions"@)),
            out@ == viewers(*perms, all_role_ids@.take(i as int)),
        decreases all_role_ids@.len() - i,
    {
        let role: i64 = all_role_ids[i];
        let allowed: bool = match find_stated_view(entries, role) {
            Some(b) => b,
            None => fallback,
        };
        assert(all_role_ids@.take(i + 1).drop_last() =~= all_role_ids@.take(i as int));
        if allowed {
            out.push(role);
        }
        i += 1;
    }
    assert(all_role_ids@.take(i as int) =~= all_role_ids@);
    out
}

/// A level of the lookup.
#[derive(Clone, Copy, Debug, PartialEq, Eq, Structural)]
pub enum AclLevel {
    Page,
    Chapter,
    Book,
}

/// What a lookup does next.
pub enum AclStep {
    /// Ask for the permissions of this content.
    Ask(AclLevel, ContentType, i64),
    /// The lookup is done.
    Done(PageAcl),
}

/// What a lookup does next, in the model.
pub enum AclStepModel {
    Ask(AclLevel, ContentType, i64),
    Done(PageAclModel),
}

impl AclStep {
    /// The step in the model.
    pub open spec fn model(self) -> AclStepModel {
        match self {
            AclStep::Ask(level, content, id) => AclStepModel::Ask(level, content, id),
            AclStep::Done(acl) => AclStepModel::Done(acl.model()),
        }
    }
}

/// The page whose access is looked up.
pub struct AclQuery {
    pub page_id: i64,
    pub chapter_id: Option<i64>,
    pub book_id: i64,
    /// The time of the lookup, in Unix seconds.
    pub now: i64,
}

/// The access that one level decides.
pub open spec fn decided_acl(query: AclQuery, perms: Json, roles: RoleContext) -> PageAclModel {
    PageAclModel {
        page_id: query.page_id,
        view_roles: viewers(perms, roles.all_role_ids@),
        default_open: false,
        computed_at: query.now,
    }
}

/// The access of a page for which every level inherits.
pub open spec fn open_acl(query: AclQuery, roles: RoleContext) -> PageAclModel {
    PageAclModel {
        page_id: query.page_id,
        view_roles: roles.view_all_role_ids@,
        default_open: true,
        computed_at: query.now,
    }
}

/// The permissions decide: there are some, and they do not inherit.
pub open spec fn decides(perms: Option<Json>) -> bool {
    perms matches Some(p) && !inherits(p)
}

/// The access of a page by the answers of the three levels. An answer that
/// could not be had is `None`, and so is that of a chapter where there is none.
pub open spec fn resolved_acl(
    query: AclQuery,
    page: Option<Json>,
    chapter: Option<Json>,
    book: Option<Json>,
    roles: RoleContext,
) -> PageAclModel {
    if decides(page) {
        decided_acl(query, page->0, roles)
    } else if query.chapter_id is Some && decides(chapter) {
        decided_acl(query, chapter->0, roles)
    } else if decides(book) {
        decided_acl(query, book->0, roles)
    } else {
        open_acl(query, roles)
    }
}

/// What follows the answer of one level.
pub open spec fn acl_after(
    query: AclQuery,
    level: AclLevel,
    answer: Option<Json>,
    roles: RoleContext,
) -> AclStepModel {
    if decides(answer) {
        AclStepModel::Done(decided_acl(query, answer->0, roles))
    } else {
        match (level, query.chapter_id) {
            (AclLevel::Page, Some(id)) => AclStepModel::Ask(
                AclLevel::Chapter,
                ContentType::Chapter,
                id,
            ),
            (AclLevel::Book, _) => AclStepModel::Done(open_acl(query, roles)),
            _ => AclStepModel::Ask(AclLevel::Book, ContentType::Book, query.book_id),
        }
    }
}

/// Copies a list of role ids.
fn copy_ids(ids: &Vec<i64>) -> (r: Vec<i64>)
    ensures
        r@ == ids@,
{
    vstd::slice::slice_to_vec(ids.as_slice())
}

/// Begins the lookup of a page's access.
pub fn acl_start(query: &AclQuery) -> (r: AclStep)
    ensures
        r.model() == AclStepModel::Ask(AclLevel::Page, ContentType::Page, query.page_id),
{
    AclStep::Ask(AclLevel::Page, ContentType::Page, query.page_id)
}

/// Goes on with the lookup after the answer of one level; `None` stands for an
/// answer that could not be had.
pub fn acl_step(
    query: &AclQuery,
    level: AclLevel,
    answer: Option<&Json>,
    roles: &RoleContext,
) -> (r: AclStep)
    ensures
        r.model() == acl_after(*query, level, json::value_of(answer), *roles),
{
    if let Some(perms) = answer {
        if !is_inheriting(perms) {
            return AclStep::Done(
                PageAcl {
                    page_id: query.page_id,
                    view_roles: compute_effective_view(perms, roles.all_role_ids.as_slice()),
                    default_open: false,
                    computed_at: query.now,
                },
            );
        }
    }
    match (level, query.chapter_id) {
        (AclLevel::Page, Some(id)) => AclStep::Ask(AclLevel::Chapter, ContentType::Chapter, id),
        (AclLevel::Book, _) => AclStep::Done(
            PageAcl {
                page_id: query.page_id,
                view_roles: copy_ids(&roles.view_all_role_ids),
                default_open: true,
                computed_at: query.now,
            },
        ),
        _ => AclStep::Ask(AclLevel::Book, ContentType::Book, query.book_id),
    }
}

/// Resolves the access of a page from the answers of all three levels.
pub fn resolve_page_acl(
    query: &AclQuery,
    page: Option<&Json>,
    chapter: Option<&Json>,
    book: Option<&Json>,
    roles: &RoleContext,
) -> (r: PageAcl)
    ensures
        r.model() == resolved_acl(
            *query,
            json::value_of(page),
            json::value_of(chapter),
            json::value_of(book),
            *roles,
        ),
{
    match acl_step(query, AclLevel::Page, page, roles) {
        AclStep::Done(acl) => acl,
        AclStep::Ask(AclLevel::Chapter, _, _) => match acl_step(
            query,
            AclLevel::Chapter,
            chapter,
            roles,
        ) {
            AclStep::Done(acl) => acl,
            _ => finish_at_book(query, book, roles),
        },
        _ => finish_at_book(query, book, roles),
    }
}

/// The access by the book's answer alone.
fn finish_at_book(query: &AclQuery, book: Option<&Json>, roles: &RoleContext) -> (r: PageAcl)
    ensures
        r.model() == if decides(json::value_of(book)) {
            decided_acl(*query, json::value_of(book)->0, *roles)
        } else {
            open_acl(*query, *roles)
        },
{
    match acl_step(query, AclLevel::Book, book, roles) {
        AclStep::Done(acl) => acl,
        AclStep::Ask(_, _, _) => {
            assert(false);
            PageAcl {
                page_id: query.page_id,
                view_roles: Vec::new(),
                default_open: false,
                computed_at: query.now,
            }
        },
    }
}

// --- Roles ---

/// The roles among the first `n` that may view everything, by their details. A
/// role whose details could not be had is passed over.
pub open spec fn view_all_roles(ids: Seq<i64>, details: Seq<Option<Json>>, n: int) -> Seq<i64>
    decreases n,
{
    if n <= 0 {
        Seq::empty()
    } else {
        let before = view_all_roles(ids, details, n - 1);
        if n <= details.len() && (details[n - 1] matches Some(d) && views_all(d)) {
            before.push(ids[n - 1])
        } else {
            before
        }
    }
}

/// Tells the roles that may view everything, from the details of each.
pub fn build_role_context(all_role_ids: Vec<i64>, details: &Vec<Option<Json>>) -> (r: RoleContext)
    ensures
        r.all_role_ids@ == all_role_ids@,
        r.view_all_role_ids@ == view_all_roles(
            all_role_ids@,
            details@,
            all_role_ids@.len() as int,
        ),
{
    let mut view_all_role_ids: Vec<i64> = Vec::new();
    let mut i: usize = 0;
    while i < all_role_ids.len()
        invariant
            i <= all_role_ids@.len(),
            view_all_role_ids@ == view_all_roles(all_role_ids@, details@, i as int),
        decreases all_role_ids@.len() - i,
    {
        if i < details.len() {
            if let Some(d) = &details[i] {
                if has_view_all_permission(d) {
                    view_all_role_ids.push(all_role_ids[i]);
                }
            }
        }
        i += 1;
    }
    RoleContext { all_role_ids, view_all_role_ids }
}

// --- Reconciliation ---

/// What came of computing one page's access anew.
#[derive(Clone, Copy, Debug, PartialEq, Eq, Structural)]
pub enum AclOutcome {
    /// It was stored.
    Stored,
    /// The page is gone.
    Missing,
    /// Something failed.
    Failed,
}

/// How many of the outcomes are the given one.
pub open spec fn count_of(outcomes: Seq<AclOutcome>, outcome: AclOutcome, n: int) -> int
    decreases n,
{
    if n <= 0 {
        0
    } else {
        count_of(outcomes, outcome, n - 1) + if outcomes[n - 1] == outcome {
            1int
        } else {
            0
        }
    }
}

/// Counts the pages whose access was computed anew, and those for which it
/// failed. A page that is gone counts for neither.
pub fn tally_reconciliation(outcomes: &Vec<AclOutcome>) -> (r: (usize, usize))
    ensures
        r.0 == count_of(outcomes@, AclOutcome::Stored, outcomes@.len() as int),
        r.1 == count_of(outcomes@, AclOutcome::Failed, outcomes@.len() as int),
{
    let total: usize = outcomes.len();
    let mut processed: usize = 0;
    let mut failed: usize = 0;
    let mut i: usize = 0;
    while i < total
        invariant
            i <= total,
            total == outcomes@.len(),
            processed <= i,
            failed <= i,
            processed == count_of(outcomes@, AclOutcome::Stored, i as int),
            failed == count_of(outcomes@, AclOutcome::Failed, i as int),
        decreases total - i,
    {
        match outcomes[i] {
            AclOutcome::Stored => {
                processed += 1;
            },
            AclOutcome::Failed => {
                failed += 1;
            },
            AclOutcome::Missing => {},
        }
        i += 1;
    }
    (processed, failed)
}

// --- Laws ---

/// A role is listed as a viewer exactly if it is one of the roles and may view
/// the content.
pub proof fn law_viewers_are_those_who_may(perms: Json, roles: Seq<i64>, role: i64)
    ensures
        viewers(perms, roles).contains(role) <==> roles.contains(role) && may_view(perms, role),
    decreases roles.len(),
{
    if roles.len() > 0 {
        let init = roles.drop_last();
        law_viewers_are_those_who_may(perms, init, role);
        let before = viewers(perms, init);
        if init.contains(role) {
            let k = choose|k: int| 0 <= k < init.len() && init[k] == role;
            assert(roles[k] == role);
        }
        if roles.contains(role) && role != roles.last() {
            let k = choose|k: int| 0 <= k < roles.len() && roles[k] == role;
            assert(init[k] == role);
        }
        assert(roles[roles.len() - 1] == roles.last());
        if may_view(perms, roles.last()) {
            let after = before.push(roles.last());
            assert(after[before.len() as int] == roles.last());
            if before.contains(role) {
                let k = choose|k: int| 0 <= k < before.len() && before[k] == role;
                assert(after[k] == role);
            }
            if after.contains(role) && role != roles.last() {
                let k = choose|k: int| 0 <= k < after.len() && after[k] == role;
                assert(before[k] == role);
            }
        }
    }
}

/// The answer of a level.
pub open spec fn answer_of(
    level: AclLevel,
    page: Option<Json>,
    chapter: Option<Json>,
    book: Option<Json>,
) -> Option<Json> {
    match level {
        AclLevel::Page => page,
        AclLevel::Chapter => chapter,
        AclLevel::Book => book,
    }
}

/// What follows when a step is taken: the level that it asks is answered.
pub open spec fn acl_next(
    step: AclStepModel,
    query: AclQuery,
    page: Option<Json>,
    chapter: Option<Json>,
    book: Option<Json>,
    roles: RoleContext,
) -> AclStepModel {
    match step {
        AclStepModel::Ask(level, _, _) => acl_after(
            query,
            level,
            answer_of(level, page, chapter, book),
            roles,
        ),
        AclStepModel::Done(acl) => AclStepModel::Done(acl),
    }
}

/// A lookup that goes from level to level is over after three answers, and finds
/// what all three answers together say.
pub proof fn law_lookup_finds_the_access(
    query: AclQuery,
    page: Option<Json>,
    chapter: Option<Json>,
    book: Option<Json>,
    roles: RoleContext,
)
    ensures
        ({
            let first = AclStepModel::Ask(AclLevel::Page, ContentType::Page, query.page_id);
            let second = acl_next(first, query, page, chapter, book, roles);
            let third = acl_next(second, query, page, chapter, book, roles);
            acl_next(third, query, page, chapter, book, roles) == AclStepModel::Done(
                resolved_acl(query, page, chapter, book, roles),
            )
        }),
{
}

/// The nearest level with permissions of its own decides, whatever the levels
/// above say; only a page for which none has any is open by default.
pub proof fn law_nearest_level_decides(
    query: AclQuery,
    page: Option<Json>,
    chapter: Option<Json>,
    book: Option<Json>,
    other_chapter: Option<Json>,
    other_book: Option<Json>,
    roles: RoleContext,
)
    ensures
        decides(page) ==> resolved_acl(query, page, chapter, book, roles) == resolved_acl(
            query,
            page,
            other_chapter,
            other_book,
            roles,
        ),
        query.chapter_id is Some && decides(chapter) ==> resolved_acl(
            query,
            page,
            chapter,
            book,
            roles,
        ) == resolved_acl(query, page, chapter, other_book, roles),
        resolved_acl(query, page, chapter, book, roles).default_open <==> !decides(page) && !(
        query.chapter_id is Some && decides(chapter)) && !decides(book),
{
}

} // verus!
