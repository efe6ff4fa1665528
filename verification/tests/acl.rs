use bsmcp::acl::{
    acl_start, acl_step, build_role_context, compute_effective_view, has_view_all_permission,
    is_inheriting, resolve_page_acl, tally_reconciliation, AclLevel, AclOutcome, AclQuery,
    AclStep, RoleContext,
};
use bsmcp::bookstack::ContentType;
use bsmcp::json::Json;

fn perms(members: Vec<(&str, Json)>) -> Json {
    Json::Object(members.into_iter().map(|(k, v)| (k.to_string(), v)).collect())
}

fn own(fallback: bool, roles: &[(i64, bool)]) -> Json {
    let entries = roles
        .iter()
        .map(|(id, view)| perms(vec![("role_id", Json::Int(*id)), ("view", Json::Bool(*view))]))
        .collect();
    perms(vec![
        (
            "fallback_permissions",
            perms(vec![("inheriting", Json::Bool(false)), ("view", Json::Bool(fallback))]),
        ),
        ("role_permissions", Json::List(entries)),
    ])
}

fn inherited() -> Json {
    perms(vec![("fallback_permissions", perms(vec![("inheriting", Json::Bool(true))]))])
}

fn roles() -> RoleContext {
    RoleContext { all_role_ids: vec![1, 2, 3], view_all_role_ids: vec![1] }
}

fn query(chapter_id: Option<i64>) -> AclQuery {
    AclQuery { page_id: 5, chapter_id, book_id: 7, now: 99 }
}

#[test]
fn an_own_entry_goes_before_the_fallback() {
    assert_eq!(compute_effective_view(&own(true, &[(2, false)]), &[1, 2, 3]), vec![1, 3]);
    assert_eq!(compute_effective_view(&own(false, &[(2, true)]), &[1, 2, 3]), vec![2]);
    assert_eq!(compute_effective_view(&own(false, &[(2, true), (2, false)]), &[2]), Vec::<i64>::new());
    assert!(is_inheriting(&inherited()) && is_inheriting(&perms(vec![])));
    assert!(!is_inheriting(&own(true, &[])));
}

#[test]
fn the_nearest_level_decides() {
    let acl = resolve_page_acl(
        &query(Some(6)),
        Some(&inherited()),
        Some(&own(false, &[(3, true)])),
        Some(&own(true, &[])),
        &roles(),
    );
    assert_eq!((acl.view_roles, acl.default_open, acl.computed_at), (vec![3], false, 99));
    let acl = resolve_page_acl(&query(None), None, None, Some(&own(true, &[])), &roles());
    assert_eq!(acl.view_roles, vec![1, 2, 3]);
    let acl = resolve_page_acl(&query(None), Some(&inherited()), None, None, &roles());
    assert_eq!((acl.view_roles, acl.default_open, acl.page_id), (vec![1], true, 5));
}

#[test]
fn a_lookup_goes_from_level_to_level() {
    let q = query(Some(6));
    assert!(matches!(acl_start(&q), AclStep::Ask(AclLevel::Page, ContentType::Page, 5)));
    assert!(matches!(
        acl_step(&q, AclLevel::Page, None, &roles()),
        AclStep::Ask(AclLevel::Chapter, ContentType::Chapter, 6)
    ));
    assert!(matches!(
        acl_step(&q, AclLevel::Chapter, Some(&inherited()), &roles()),
        AclStep::Ask(AclLevel::Book, ContentType::Book, 7)
    ));
    assert!(matches!(
        acl_step(&query(None), AclLevel::Page, None, &roles()),
        AclStep::Ask(AclLevel::Book, ContentType::Book, 7)
    ));
    assert!(matches!(acl_step(&q, AclLevel::Book, None, &roles()), AclStep::Done(_)));
}

#[test]
fn roles_that_view_everything_are_told() {
    let named = |s: &str| {
        perms(vec![("permissions", Json::List(vec![Json::Text(s.to_string())]))])
    };
    assert!(has_view_all_permission(&named("book-view-all")));
    assert!(has_view_all_permission(&named("content-export")));
    assert!(!has_view_all_permission(&named("page-view-own")));
    let context = build_role_context(
        vec![1, 2, 3, 4],
        &vec![Some(named("page-view-all")), None, Some(named("x"))],
    );
    assert_eq!(context.all_role_ids, vec![1, 2, 3, 4]);
    assert_eq!(context.view_all_role_ids, vec![1]);
}

#[test]
fn a_page_that_is_gone_counts_for_nothing() {
    let outcomes = vec![AclOutcome::Stored, AclOutcome::Missing, AclOutcome::Failed, AclOutcome::Stored];
    assert_eq!(tally_reconciliation(&outcomes), (2, 1));
}
