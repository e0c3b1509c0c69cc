use darkicewolf50_cloud::blog::{
    blog_file_stem, blog_not_found, blog_post, blog_preview, date_shown, parse_blog,
    parse_blog_preview, PreviewError,
};
use darkicewolf50_cloud::dates::{date_modified, date_part_of};

const POST: &str = "# My First Post\n\n#rust  #verus\nIntro line\nSecond line\n";

#[test]
fn parse_blog_reads_title_tags_and_body() {
    let parts = parse_blog(POST);
    assert_eq!(parts.title, "My First Post");
    assert_eq!(parts.tags, vec!["#rust".to_string(), "#verus".to_string()]);
    assert_eq!(parts.markdown, "Intro line\nSecond line");
}

#[test]
fn parse_blog_trims_title_before_stripping_heading() {
    let parts = parse_blog("   # Spaced   \r\nskip\n\t a \u{3000}b\t\nbody");
    assert_eq!(parts.title, "Spaced");
    assert_eq!(parts.tags, vec!["a".to_string(), "b".to_string()]);
    assert_eq!(parts.markdown, "body");
}

#[test]
fn parse_blog_title_without_heading_mark() {
    let parts = parse_blog("Plain title\n");
    assert_eq!(parts.title, "Plain title");
    assert!(parts.tags.is_empty());
    assert_eq!(parts.markdown, "");
}

#[test]
fn parse_blog_heading_mark_alone_keeps_hash() {
    // "# " trims to "#", which no longer starts with "# ".
    let parts = parse_blog("# \n");
    assert_eq!(parts.title, "#");
}

#[test]
fn parse_blog_empty_source() {
    let parts = parse_blog("");
    assert_eq!(parts.title, "");
    assert!(parts.tags.is_empty());
    assert_eq!(parts.markdown, "");
}

#[test]
fn parse_blog_keeps_inner_carriage_returns_and_empty_lines() {
    let parts = parse_blog("t\r\n\r\n\r\nA\r\n\r\nB\r");
    assert_eq!(parts.title, "t");
    assert!(parts.tags.is_empty());
    assert_eq!(parts.markdown, "A\n\nB\r");
}

#[test]
fn parse_blog_preview_takes_fifth_line() {
    let parts = parse_blog_preview(POST);
    assert_eq!(parts.title, "My First Post");
    assert_eq!(parts.tags, vec!["#rust".to_string(), "#verus".to_string()]);
    assert_eq!(parts.markdown, "Second line...");
}

#[test]
fn parse_blog_preview_short_source() {
    let parts = parse_blog_preview("# T\n");
    assert_eq!(parts.markdown, "...");
}

#[test]
fn blog_file_stem_strips_md() {
    assert_eq!(blog_file_stem("hello.md"), Some("hello".to_string()));
    assert_eq!(blog_file_stem(".md"), Some("".to_string()));
    assert_eq!(blog_file_stem("hello.txt"), None);
    assert_eq!(blog_file_stem("md"), None);
}

#[test]
fn date_part_of_cuts_at_first_t() {
    assert_eq!(date_part_of("2025-05-15T12:00:00Z"), "2025-05-15");
    assert_eq!(date_part_of("no-letter"), "no-letter");
    assert_eq!(date_part_of(""), "");
}

#[test]
fn date_modified_formats_utc_date() {
    assert_eq!(date_modified(0), Some("1970-01-01".to_string()));
    assert_eq!(
        date_modified(1_747_310_400_000_000_000),
        Some("2025-05-15".to_string())
    );
    assert_eq!(date_modified(-1), Some("1969-12-31".to_string()));
}

#[test]
fn date_modified_refuses_out_of_range() {
    assert_eq!(date_modified(i128::MAX), None);
}

#[test]
fn date_shown_without_time_is_none() {
    assert_eq!(date_shown(None), None);
    assert_eq!(date_shown(Some(0)), Some("1970-01-01".to_string()));
}

#[test]
fn blog_post_assembles_fields() {
    let parts = parse_blog(POST);
    let post = blog_post("first".to_string(), parts, "<p>x</p>".to_string(), Some(0));
    assert_eq!(post.blog_file_name, "first");
    assert_eq!(post.date_last_edit, "1970-01-01");
    assert_eq!(post.blog_title, "My First Post");
    assert_eq!(post.tags, vec!["#rust".to_string(), "#verus".to_string()]);
    assert_eq!(post.html_blog_content, "<p>x</p>");
}

#[test]
fn blog_post_unknown_date_is_empty() {
    let post = blog_post("p".to_string(), parse_blog(""), String::new(), None);
    assert_eq!(post.date_last_edit, "");
}

#[test]
fn blog_preview_renders_preview_line() {
    let post = blog_preview("first.md", POST, Some(0)).ok().unwrap();
    assert_eq!(post.blog_file_name, "first");
    assert_eq!(post.date_last_edit, "1970-01-01");
    assert_eq!(post.blog_title, "My First Post");
    assert_eq!(post.html_blog_content, "<p>Second line...</p>\n");
}

#[test]
fn blog_preview_default_options_escape_raw_html() {
    let post = blog_preview("p.md", "t\n\n\n\n<b>hi</b>", Some(0)).ok().unwrap();
    assert_eq!(post.html_blog_content, "<p><!-- raw HTML omitted -->hi<!-- raw HTML omitted -->...</p>\n");
}

#[test]
fn blog_preview_errors() {
    assert!(matches!(blog_preview("first.md", POST, None), Err(PreviewError::MissingDate)));
    assert!(matches!(blog_preview("first.txt", POST, Some(0)), Err(PreviewError::NotMarkdown)));
    assert!(matches!(blog_preview("first.txt", POST, None), Err(PreviewError::MissingDate)));
}

#[test]
fn blog_not_found_content() {
    let post = blog_not_found();
    assert_eq!(post.blog_file_name, "");
    assert_eq!(post.date_last_edit, "9999-12-01");
    assert_eq!(post.blog_title, "Not Found");
    assert_eq!(post.tags, vec!["#error".to_string()]);
    assert_eq!(post.html_blog_content, "<p>Blog not found</p>");
}

#[test]
fn law_title_of_heading_example() {
    assert_eq!(parse_blog("# Hello world\nrest\n").title, "Hello world");
}

#[test]
fn law_source_is_head_and_body_example() {
    let text = "# T\nskip\n#a #b\nline one\nline two\n";
    let parts = parse_blog(text);
    assert_eq!(format!("# T\nskip\n#a #b\n{}\n", parts.markdown), text);
}

#[test]
fn law_tags_are_words_example() {
    let parts = parse_blog("t\n\n  x\u{a0}y \t z  \n");
    assert_eq!(parts.tags, vec!["x".to_string(), "y".to_string(), "z".to_string()]);
    assert!(parts.tags.iter().all(|t| !t.is_empty() && !t.contains(char::is_whitespace)));
}

#[test]
fn law_file_stem_example() {
    assert_eq!(blog_file_stem(&format!("{}.md", "notes")), Some("notes".to_string()));
}

#[test]
fn law_date_part_example() {
    let d = date_part_of("2024-01-02T03:04:05Z");
    assert!("2024-01-02T03:04:05Z".starts_with(&d));
    assert!(!d.contains('T'));
}
