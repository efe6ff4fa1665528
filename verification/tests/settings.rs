use bsmcp::config::{access_token_ttl, refresh_token_ttl, DbBackendType};
use bsmcp::settings::{hash_token_id, stored_setter, CascadeMultipliers, GlobalSettings, ScopeDef};

#[test]
fn cascade_multipliers_default_matches_issue_80() {
    let m = CascadeMultipliers::default();
    assert_eq!(m.stage1, 4);
    assert_eq!(m.stage2, 3);
    assert_eq!(m.stage3, 2);
    assert_eq!(m.stage4, 1);
}

#[test]
fn cascade_multipliers_validated_accepts_non_increasing() {
    let m = CascadeMultipliers {
        stage1: 8,
        stage2: 4,
        stage3: 2,
        stage4: 1,
    };
    let v = m.validated();
    assert_eq!((v.stage1, v.stage2, v.stage3, v.stage4), (8, 4, 2, 1));
}

#[test]
fn cascade_multipliers_validated_rejects_increasing() {
    let m = CascadeMultipliers {
        stage1: 1,
        stage2: 4,
        stage3: 2,
        stage4: 1,
    };
    let v = m.validated();
    assert_eq!((v.stage1, v.stage2, v.stage3, v.stage4), (4, 3, 2, 1));
}

#[test]
fn cascade_multipliers_validated_rejects_zero_stage4() {
    let m = CascadeMultipliers {
        stage1: 4,
        stage2: 3,
        stage3: 2,
        stage4: 0,
    };
    let v = m.validated();
    assert_eq!((v.stage1, v.stage2, v.stage3, v.stage4), (4, 3, 2, 1));
}

#[test]
fn scope_def_to_filter_round_trips() {
    let def = ScopeDef {
        shelf_ids: vec![1, 2],
        book_ids: vec![3],
        chapter_ids: vec![],
        page_ids: vec![4, 5],
    };
    let f = def.to_filter();
    assert_eq!(f.shelf_ids, vec![1, 2]);
    assert_eq!(f.book_ids, vec![3]);
    assert!(f.chapter_ids.is_empty());
    assert_eq!(f.page_ids, vec![4, 5]);
}

#[test]
fn overrides_take_positive_numbers_only() {
    let mut m = CascadeMultipliers::default();
    m.apply_overrides(Some("8"), Some("nope"), None, Some("0"));
    assert_eq!((m.stage1, m.stage2, m.stage3), (8, 3, 2));
}

#[test]
fn settings_start_empty() {
    let g = GlobalSettings::default();
    assert!(g.kb_scopes.is_empty());
    assert_eq!(g.updated_at, 0);
    assert_eq!(g.cascade_multipliers.stage1, 4);
}

#[test]
fn a_name_stands_for_one_scope() {
    let mut g = GlobalSettings::default();
    g.put_scope("policies", ScopeDef { book_ids: vec![12], ..ScopeDef::default() });
    g.put_scope("people", ScopeDef { page_ids: vec![5], ..ScopeDef::default() });
    g.put_scope("policies", ScopeDef { book_ids: vec![12, 34], ..ScopeDef::default() });
    assert_eq!(g.kb_scopes.len(), 2);
    assert_eq!(g.scope("policies").unwrap().book_ids, vec![12, 34]);
    assert_eq!(g.scope("people").unwrap().page_ids, vec![5]);
    assert!(g.scope("Policies").is_none());
}

#[test]
fn the_first_setter_stays() {
    assert_eq!(stored_setter(Some("first"), "second"), "first");
    assert_eq!(stored_setter(None, "second"), "second");
}

#[test]
fn token_ids_are_stored_by_their_digest() {
    assert_eq!(
        hash_token_id("abc"),
        "ba7816bf8f01cfea414140de5dae2223b00361a396177a9cb410ff61f20015ad"
    );
}

#[test]
fn lifetimes_have_defaults() {
    assert_eq!(access_token_ttl(None), 2_592_000);
    assert_eq!(access_token_ttl(Some("60")), 60);
    assert_eq!(access_token_ttl(Some("soon")), 2_592_000);
    assert_eq!(refresh_token_ttl(None), 7_776_000);
    assert_eq!(refresh_token_ttl(Some("61")), 61);
}

#[test]
fn databases_are_named_in_any_case() {
    assert_eq!(DbBackendType::from_setting(Some("Postgres")), DbBackendType::Postgres);
    assert_eq!(DbBackendType::from_setting(Some("POSTGRESQL")), DbBackendType::Postgres);
    assert_eq!(DbBackendType::from_setting(Some("mysql")), DbBackendType::Sqlite);
    assert_eq!(DbBackendType::from_setting(None), DbBackendType::Sqlite);
}
