use bsmcp::frontmatter::{extract_ouid_from_frontmatter, strip_frontmatter};

#[test]
fn extract_ouid_present() {
    let md =
        "---\nai_identity_ouid: 019dc66e4dc27d329e4a4abd1bec0c80\nname: Pia\n---\n\n# Pia\n";
    assert_eq!(
        extract_ouid_from_frontmatter(md).as_deref(),
        Some("019dc66e4dc27d329e4a4abd1bec0c80")
    );
}

#[test]
fn extract_ouid_missing() {
    let md = "---\nname: Pia\n---\n\n# Pia\n";
    assert!(extract_ouid_from_frontmatter(md).is_none());
}

#[test]
fn extract_ouid_no_frontmatter() {
    assert!(extract_ouid_from_frontmatter("# Pia\n\nmanifest body").is_none());
}

#[test]
fn extract_ouid_quoted() {
    let md = "---\nouid: \"abc-123\"\n---\nbody";
    assert_eq!(
        extract_ouid_from_frontmatter(md).as_deref(),
        Some("abc-123")
    );
}

#[test]
fn strip_frontmatter_removes_block() {
    let md = "---\nfoo: bar\n---\n\nbody text\n";
    assert_eq!(strip_frontmatter(md), "body text\n");
}

#[test]
fn strip_frontmatter_no_block() {
    assert_eq!(strip_frontmatter("just body"), "just body");
}
