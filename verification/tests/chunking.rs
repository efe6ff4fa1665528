use bsmcp::chunking::{
    chunk_html, chunk_html_with_name, extract_links, normalize_whitespace, split_with_overlap,
    MAX_CHUNK_LEN, OVERLAP_LEN,
};
use bsmcp::crypto::sha256_hex;

#[test]
fn test_basic_heading_chunking() {
    let html = "<h1>Title</h1><p>Intro text here.</p><h2>Section A</h2><p>Content for section A with enough text to be a real chunk.</p><h2>Section B</h2><p>Content for section B with enough text to be a real chunk.</p>";
    let chunks = chunk_html(html);
    assert!(chunks.len() >= 2);
    assert!(chunks[0].content.contains("Title"));
}

#[test]
fn test_skip_duplicate_page_title() {
    let html = "<h1>My Page Title</h1><p>Introduction text that is long enough to form a real chunk on its own.</p><h2>Section A</h2><p>Content for section A with enough text to be a real chunk.</p>";
    // Without page name: h1 appears in heading_path
    let chunks = chunk_html(html);
    assert!(chunks
        .iter()
        .any(|c| c.heading_path.contains("My Page Title")));

    // With matching page name: h1 is skipped
    let chunks = chunk_html_with_name(html, Some("My Page Title"));
    assert!(
        !chunks
            .iter()
            .any(|c| c.heading_path.contains("My Page Title")),
        "Page title should be stripped from heading_path when it matches page name"
    );
    assert!(!chunks.is_empty());
    // Section A should still appear
    assert!(chunks.iter().any(|c| c.heading_path.contains("Section A")));
}

#[test]
fn test_merge_tiny_chunks() {
    let html = "<h1>Title</h1><p>Hi</p><h2>Real Section</h2><p>This is a real section with enough content to stand on its own as a chunk.</p>";
    let chunks = chunk_html(html);
    // "Hi" is tiny (<50 chars) and should be merged
    assert!(!chunks.is_empty());
}

#[test]
fn test_heading_path_nesting() {
    let html = "<h1>Top</h1><h2>Mid</h2><h3>Deep</h3><p>Content at the deepest level with enough text for a chunk.</p>";
    let chunks = chunk_html(html);
    let last = chunks.last().unwrap();
    assert!(last.heading_path.contains("Top"));
    assert!(last.heading_path.contains("Mid"));
    assert!(last.heading_path.contains("Deep"));
}

#[test]
fn test_extract_links() {
    let html = r#"<a href="/books/tech/page/docker-setup">Docker</a> and <a href="/link/42">link</a> and <a href="https://external.com">ext</a>"#;
    let links = extract_links(html);
    assert_eq!(links.len(), 2);
    assert!(links[0].contains("/books/tech/page/docker-setup"));
    assert!(links[1].contains("/link/42"));
}

#[test]
fn test_extract_links_absolute_urls() {
    let html = r#"<a href="https://kb.example.com/books/tech/page/docker-setup">Docker</a> and <a href="https://kb.example.com/link/42">link</a>"#;
    let links = extract_links(html);
    assert_eq!(links.len(), 2);
    assert_eq!(links[0], "/books/tech/page/docker-setup");
    assert_eq!(links[1], "/link/42");
}

#[test]
fn test_split_oversized() {
    let para = "A".repeat(400);
    let text = format!("{para}\n\n{para}\n\n{para}\n\n{para}");
    let parts = split_with_overlap(&text, MAX_CHUNK_LEN, OVERLAP_LEN);
    assert!(parts.len() >= 2);
    // Parts after the first should start with overlap content
    if parts.len() > 1 {
        // The second part should contain some text from the end of the first
        let _first_end = &parts[0][parts[0].len().saturating_sub(100)..];
        // Overlap is paragraph-based, so second part should be larger than a single paragraph
        assert!(parts[1].len() > para.len());
    }
}

#[test]
fn test_table_heavy_content() {
    // A table as the wiki renders it from markdown.
    let html = r#"<p>Career progression roadmap from T2 to Junior Engineer.</p>
<table>
<thead><tr><th>Skill Area</th><th>Current (T2)</th><th>Target (Junior)</th></tr></thead>
<tbody>
<tr><td>PowerShell</td><td>Basic scripts</td><td>Advanced automation</td></tr>
<tr><td>Networking</td><td>IP basics</td><td>Subnetting, VLANs</td></tr>
<tr><td>Active Directory</td><td>User management</td><td>GPO, DNS integration</td></tr>
<tr><td>Cloud</td><td>Portal navigation</td><td>Azure AD, Intune</td></tr>
</tbody>
</table>"#;
    let chunks = chunk_html(html);
    assert!(
        !chunks.is_empty(),
        "Table-heavy HTML must produce at least one chunk"
    );
    // Verify table content was extracted
    let all_content: String = chunks.iter().map(|c| c.content.clone()).collect();
    assert!(
        all_content.contains("PowerShell"),
        "Table cell content should be extracted"
    );
    assert!(
        all_content.contains("Active Directory"),
        "Table cell content should be extracted"
    );
}

#[test]
fn test_no_headings_content() {
    // Page with no headings at all — all content should go into one chunk
    let html = "<p>This is a page with no headings but enough content to be meaningful. It should produce at least one chunk even without any heading tags.</p>";
    let chunks = chunk_html(html);
    assert!(
        !chunks.is_empty(),
        "Content without headings must produce chunks"
    );
}

#[test]
fn test_content_hash_deterministic() {
    let html = "<h1>Test</h1><p>Some content for hashing that is long enough to not be merged away.</p>";
    let chunks1 = chunk_html(html);
    let chunks2 = chunk_html(html);
    assert_eq!(chunks1.len(), chunks2.len());
    for (a, b) in chunks1.iter().zip(chunks2.iter()) {
        assert_eq!(a.content_hash, b.content_hash);
    }
}

#[test]
fn whitespace_is_normalized() {
    assert_eq!(normalize_whitespace("a  b\tc"), "a b c");
    assert_eq!(normalize_whitespace(""), "");
}

#[test]
fn chunks_are_numbered_and_carry_the_digest_of_their_text() {
    let long = "word ".repeat(30);
    let html = format!("<h1>A</h1><p>{long}</p><h2>B</h2><p>{long}</p>");
    let chunks = chunk_html(&html);
    assert_eq!(chunks.len(), 2);
    assert_eq!(chunks[0].index, 0);
    assert_eq!(chunks[1].index, 1);
    assert_eq!(chunks[0].heading_path, "A");
    assert_eq!(chunks[1].heading_path, "A > B");
    for c in &chunks {
        assert_eq!(c.content_hash, sha256_hex(&c.content));
    }
}

#[test]
fn parts_repeat_the_paragraphs_before_them() {
    let para = "A".repeat(100);
    let text = format!("{para}\n\n{para}\n\n{para}");
    let parts = split_with_overlap(&text, 210, 150);
    assert_eq!(parts[0], format!("{para}\n\n{para}"));
    assert_eq!(parts[1], format!("{para}\n\n{para}"));
    assert_eq!(parts.len(), 2);
}

#[test]
fn only_the_first_h1_can_repeat_the_page_name() {
    let a = "a".repeat(60);
    let b = "b".repeat(60);
    let html = format!("<h1>Other</h1>{a}<h1>Name</h1>{b}");
    let chunks = chunk_html_with_name(&html, Some("Name"));
    assert_eq!(chunks.len(), 2);
    assert_eq!(chunks[0].heading_path, "Other");
    assert_eq!(chunks[1].heading_path, "Name");
    let chunks = chunk_html_with_name(&format!("<h2>In</h2>{a}<h1>NAME</h1>{b}"), Some(" name "));
    assert_eq!(chunks[1].heading_path, "In");
}

#[test]
fn oversized_text_is_split_between_its_paragraphs() {
    let (a, b) = ("a".repeat(800), "b".repeat(800));
    let chunks = chunk_html_with_name(&format!("{a}\n\n{b}"), None);
    assert_eq!(chunks.len(), 2);
    assert_eq!(chunks[0].content, a);
    assert_eq!(chunks[1].content, b);
    let padded = format!("{a}\n\n \n\n  two \t words\n\n{b}\n\n");
    let chunks = chunk_html(&padded);
    assert_eq!(chunks.len(), 2);
    assert_eq!(chunks[0].content, format!("{a}\n\ntwo words"));
    assert_eq!(chunks[1].content, format!("two words\n\n{b}"));
}

#[test]
fn text_that_is_not_oversized_has_its_blank_lines_collapsed() {
    let chunks = chunk_html("a\n\nb");
    assert_eq!(chunks.len(), 1);
    assert_eq!(chunks[0].content, "a\nb");
    let chunks = chunk_html("one\n\n \n\n  two \t words\n\n");
    assert_eq!(chunks[0].content, "one\ntwo words");
    let (c, d) = ("c".repeat(24), "d".repeat(24));
    let first = "x".repeat(60);
    let chunks = chunk_html(&format!("{first}<h1>T</h1>{c}\n\n{d}"));
    assert_eq!(chunks.len(), 1);
    assert_eq!(chunks[0].content, format!("{first}\n\n{c}\n{d}"));
    let half = "h".repeat(599);
    let chunks = chunk_html(&format!("{half}\n\n\n{half}y"));
    assert_eq!(chunks.len(), 1);
    assert_eq!(chunks[0].content.len(), 1200);
}

#[test]
fn no_visible_character_is_lost() {
    let html = format!(
        "<p>{}</p>\n\n<p>{}</p><h1>T</h1>x<br/>y<h2>S</h2>{}",
        "p".repeat(900),
        "q".repeat(900),
        "r".repeat(100)
    );
    let chunks = chunk_html(&html);
    let paths: Vec<&str> = chunks.iter().map(|c| c.heading_path.as_str()).collect();
    assert_eq!(paths, vec!["", "", "T > S"]);
    assert_eq!(chunks[0].content, "p".repeat(900));
    assert_eq!(chunks[1].content, format!("{}\n\nx y", "q".repeat(900)));
    assert_eq!(chunks[2].content, format!("T > S\n\n{}", "r".repeat(100)));
}

#[test]
fn normalizing_twice_changes_nothing() {
    for s in ["a \n\t b", "\n\n", " x\u{a0}\u{2003}y ", "plain"] {
        let once = normalize_whitespace(s);
        assert_eq!(normalize_whitespace(&once), once);
    }
    assert_eq!(normalize_whitespace("a \n b\n c"), "a b\nc");
}
