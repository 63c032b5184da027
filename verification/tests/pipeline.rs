use rgent::config::{Config, RawConfig};
use rgent::dates::{parse_date, Date};
use rgent::errors::{BuildError, ConfigField};
use rgent::frontmatter::parse_document;
use rgent::operations::Operations;
use rgent::paginate::paginate;
use rgent::plan::SourceFile;
use rgent::render::render_body;

fn segs(v: &[&str]) -> Vec<String> {
    v.iter().map(|s| s.to_string()).collect()
}

fn file(path: &[&str], content: &str) -> SourceFile {
    SourceFile { path: segs(path), content: content.to_string() }
}

#[test]
fn test_relativize_path() {
    let dir_path = segs(&["rgent_test", "content", "drafts"]);
    let from = segs(&["rgent_test", "content"]);
    let to = segs(&["rgent_test", "output"]);

    let relative_dir_path =
        Operations::rebase_path(&dir_path, &from, &to, None).expect("Failed to get relative path");
    assert_eq!(segs(&["rgent_test", "output", "drafts"]), relative_dir_path);

    let relative_dir_path_ext = Operations::rebase_path(&dir_path, &from, &to, Some("ext"))
        .expect("Failed to get relative path");
    assert_eq!(segs(&["rgent_test", "output", "drafts.ext"]), relative_dir_path_ext);

    let file_path = segs(&["rgent_test", "content", "some-file.md"]);
    let relative_file_path =
        Operations::rebase_path(&file_path, &from, &to, None).expect("Failed to get relative path");
    assert_eq!(segs(&["rgent_test", "output", "some-file.md"]), relative_file_path);

    let relative_file_path_ext = Operations::rebase_path(&file_path, &from, &to, Some("ext"))
        .expect("Failed to get relative path");
    assert_eq!(segs(&["rgent_test", "output", "some-file.ext"]), relative_file_path_ext);
}

#[test]
fn test_rebase_path_outside_source() {
    let path = segs(&["elsewhere", "some-file.md"]);
    let from = segs(&["content"]);
    let to = segs(&["output"]);
    let r = Operations::rebase_path(&path, &from, &to, None);
    assert!(matches!(r, Err(BuildError::Path { .. })));
}

fn opt_str(v: &toml::Value, key: &str) -> Option<String> {
    v.get(key).and_then(|x| x.as_str()).map(|s| s.to_string())
}

fn table_str(v: &toml::Value, table: &str, key: &str) -> Option<String> {
    v.get(table).and_then(|t| t.get(key)).and_then(|x| x.as_str()).map(|s| s.to_string())
}

#[test]
fn test_config_can_be_parsed() {
    let test_config = "#parsing details\n\
                       source = \"content\"\n\
                       output = \"output\"\n\
                       exclude = [\"drafts\"]\n\
                       \n\
                       #styling\n\
                       inputdate = \"yyyy MM dd\"\n\
                       outputdate = \"MMM d yyyy\"\n\
                       theme = \"wells\"\n\
                       headerimage = \"\"\n\
                       postsperindex = 10\n\
                       \n\
                       #render files as per tags?\n\
                       rendertags = false\n\
                       \n\
                       #preview\n\
                       [preview]\n\
                       port = 9090\n\
                       \n\
                       #social media details\n\
                       [social]\n\
                       twitter = \"thepawandubey\"\n\
                       github = \"pawandubey\"\n\
                       \n\
                       #site details\n\
                       [site]\n\
                       name = \"Not So Null\"\n\
                       tagline = \"Code += Play\"\n\
                       author = \"Pawan Dubey\"\n\
                       baseurl = \"https://blog.pawandubey.com\"\n";
    let v: toml::Value = toml::from_str(test_config).expect("Should deserialize");
    let raw = RawConfig {
        source: opt_str(&v, "source"),
        output: opt_str(&v, "output"),
        exclude: v.get("exclude").and_then(|x| x.as_array()).map(|a| {
            a.iter().filter_map(|e| e.as_str()).map(|s| s.to_string()).collect()
        }),
        input_date_format: opt_str(&v, "inputdate"),
        output_date_format: opt_str(&v, "outputdate"),
        theme: opt_str(&v, "theme"),
        header_image: opt_str(&v, "headerimage"),
        posts_per_page: v.get("postsperindex").and_then(|x| x.as_integer()).map(|n| n as u64),
        render_tags: v.get("rendertags").and_then(|x| x.as_bool()),
        preview_port: v
            .get("preview")
            .and_then(|t| t.get("port"))
            .and_then(|x| x.as_integer())
            .map(|n| n as u16),
        social_twitter: table_str(&v, "social", "twitter"),
        social_github: table_str(&v, "social", "github"),
        social_mastodon: table_str(&v, "social", "mastodon"),
        site_name: table_str(&v, "site", "name"),
        site_tagline: table_str(&v, "site", "tagline"),
        site_author: table_str(&v, "site", "author"),
        site_base_url: table_str(&v, "site", "baseurl"),
    };
    let config = Config::from_raw(raw).expect("Should validate");
    assert_eq!(config.source, "content");
    assert_eq!(config.output, "output");
    assert_eq!(config.exclude, segs(&["drafts"]));
    assert_eq!(config.input_date_format, "yyyy MM dd");
    assert_eq!(config.output_date_format, "MMM d yyyy");
    assert_eq!(config.theme, "wells");
    assert_eq!(config.header_image, "");
    assert_eq!(config.posts_per_page, 10);
    assert_eq!(config.render_tags, false);
    assert_eq!(config.preview.port, 9090);
    assert_eq!(config.social.twitter.as_deref(), Some("thepawandubey"));
    assert_eq!(config.social.github.as_deref(), Some("pawandubey"));
    assert_eq!(config.social.mastodon, None);
    assert_eq!(config.site.name, "Not So Null");
    assert_eq!(config.site.tagline.as_deref(), Some("Code += Play"));
    assert_eq!(config.site.author, "Pawan Dubey");
    assert_eq!(config.site.base_url, "https://blog.pawandubey.com");
}

#[test]
fn test_config_missing_required_field() {
    let mut raw = default_raw();
    raw.source = None;
    let r = Config::from_raw(raw);
    assert!(matches!(r, Err(BuildError::Config(ConfigField::Source))));
}

#[test]
fn test_config_zero_page_size() {
    let mut raw = default_raw();
    raw.posts_per_page = Some(0);
    let r = Config::from_raw(raw);
    assert!(matches!(r, Err(BuildError::Config(ConfigField::PostsPerPage))));
}

fn default_raw() -> RawConfig {
    RawConfig {
        source: Some("content".to_string()),
        output: Some("output".to_string()),
        exclude: None,
        input_date_format: None,
        output_date_format: None,
        theme: Some("wells".to_string()),
        header_image: None,
        posts_per_page: None,
        render_tags: None,
        preview_port: Some(9090),
        social_twitter: None,
        social_github: None,
        social_mastodon: None,
        site_name: Some("A Site".to_string()),
        site_tagline: None,
        site_author: Some("An Author".to_string()),
        site_base_url: Some("https://example.com".to_string()),
    }
}

#[test]
fn test_default_config_values() {
    let c = Config::default();
    assert_eq!(c.source, "content");
    assert_eq!(c.output, "output");
    assert_eq!(c.exclude, segs(&["drafts"]));
    assert_eq!(c.input_date_format, "yyyy MM dd");
    assert_eq!(c.output_date_format, "MMM d yyyy");
    assert_eq!(c.theme, "wells");
    assert_eq!(c.header_image, "");
    assert_eq!(c.posts_per_page, 10);
    assert_eq!(c.render_tags, false);
    assert_eq!(c.preview.port, 9090);
    assert_eq!(c.site.name, "New Rgent Site");
    assert_eq!(c.site.tagline.as_deref(), Some("Your Catchy Tagline"));
    assert_eq!(c.site.author, "You!");
    assert_eq!(c.site.base_url, "https://blog.example.com");
}

#[test]
fn test_paginate_groups() {
    let pages = paginate(5, 2);
    assert_eq!(pages.len(), 3);
    assert_eq!(pages[0].items, vec![0usize, 1]);
    assert_eq!(pages[1].items, vec![2usize, 3]);
    assert_eq!(pages[2].items, vec![4usize]);
    for (i, p) in pages.iter().enumerate() {
        assert_eq!(p.number, (i + 1) as u64);
        assert_eq!(p.total, 3);
    }
}

#[test]
fn test_paginate_empty_is_no_pages() {
    for n in 1..5u64 {
        assert_eq!(paginate(0, n).len(), 0);
    }
}

#[test]
fn test_paginate_exact_division() {
    let pages = paginate(4, 2);
    assert_eq!(pages.len(), 2);
    assert_eq!(pages[0].items, vec![0usize, 1]);
    assert_eq!(pages[1].items, vec![2usize, 3]);
}

#[test]
fn test_markdown_rendering_deterministic() {
    let body = "# Hi\n\nsome *emphasis* and ~~strikethrough~~";
    let first = render_body(body);
    let second = render_body(body);
    assert_eq!(first, second);
    assert!(first != body);
}

#[test]
fn test_markdown_heading() {
    let html = render_body("# Hi");
    assert_eq!(html.trim(), "<h1>Hi</h1>");
}

#[test]
fn test_front_matter_parsing() {
    let text = "---\ntitle = \"Hello\"\ndate = \"2024 01 01\"\ntags = [\"go\", \"rust\"]\ndraft = false\n---\n# Hi";
    let parsed = parse_document(text).expect("front matter should parse");
    assert_eq!(parsed.matter.title.as_deref(), Some("Hello"));
    assert_eq!(parsed.matter.date.as_deref(), Some("2024 01 01"));
    assert_eq!(parsed.matter.tags, segs(&["go", "rust"]));
    assert_eq!(parsed.matter.draft, false);
    assert_eq!(parsed.body, "# Hi");
}

#[test]
fn test_front_matter_absent_defaults() {
    let text = "# Just a body";
    let parsed = parse_document(text).expect("no front matter is fine");
    assert_eq!(parsed.matter.title, None);
    assert_eq!(parsed.matter.date, None);
    assert!(parsed.matter.tags.is_empty());
    assert_eq!(parsed.matter.draft, false);
    assert_eq!(parsed.body, "# Just a body");
}

#[test]
fn test_front_matter_unterminated_is_malformed() {
    let text = "---\ntitle = \"Hello\"\n# Hi";
    assert!(parse_document(text).is_none());
}

#[test]
fn test_date_parsing() {
    assert_eq!(
        parse_date("yyyy MM dd", "2024 01 02"),
        Some(Date { year: 2024, month: 1, day: 2 })
    );
    assert_eq!(parse_date("yyyy MM dd", "2024-01-02"), None);
    assert_eq!(parse_date("yyyy MM dd", "2024 13 02"), None);
}

#[test]
fn test_publish_excludes_drafts_directory() {
    let config = Config::default();
    let files = vec![
        file(&["content", "drafts", "hidden.md"], "# Hidden"),
        file(&["content", "visible.md"], "# Visible"),
    ];
    let plan = Operations::publish_plan(&config, &files, false).expect("build should succeed");
    assert_eq!(plan.documents.len(), 1);
    for d in plan.documents.iter() {
        assert!(!d.rel_path.contains(&"drafts".to_string()));
    }
    assert_eq!(plan.report.processed, 1);
    assert_eq!(plan.report.skipped, 1);
    assert_eq!(plan.report.failed, 0);
}

#[test]
fn test_draft_flag_excluded_unless_asked() {
    let config = Config::default();
    let files = vec![file(&["content", "wip.md"], "---\ndraft = true\n---\nnot yet")];
    let plan = Operations::publish_plan(&config, &files, false).expect("build should succeed");
    assert_eq!(plan.documents.len(), 0);
    let plan2 = Operations::publish_plan(&config, &files, true).expect("build should succeed");
    assert_eq!(plan2.documents.len(), 1);
}

#[test]
fn test_tag_index_descending_dates() {
    let mut config = Config::default();
    config.render_tags = true;
    let files = vec![
        file(
            &["content", "a.md"],
            "---\ntitle = \"A\"\ndate = \"2024 01 02\"\ntags = [\"go\"]\n---\nbody a",
        ),
        file(
            &["content", "b.md"],
            "---\ntitle = \"B\"\ndate = \"2024 01 05\"\ntags = [\"go\", \"rust\"]\n---\nbody b",
        ),
    ];
    let plan = Operations::publish_plan(&config, &files, false).expect("build should succeed");
    assert_eq!(plan.documents.len(), 2);
    // newest first
    assert_eq!(plan.documents[0].title, "B");
    assert_eq!(plan.documents[1].title, "A");
    let go = plan.tags.iter().find(|g| g.tag == "go").expect("tag go indexed");
    assert_eq!(go.docs, vec![0usize, 1]);
    let rust_group = plan.tags.iter().find(|g| g.tag == "rust").expect("tag rust indexed");
    assert_eq!(rust_group.docs, vec![0usize]);
}

#[test]
fn test_end_to_end_single_post() {
    let config = Config::default();
    let files = vec![file(
        &["content", "post1.md"],
        "---\ntitle = \"Hello\"\ndate = \"2024 01 01\"\n---\n# Hi",
    )];
    let plan = Operations::publish_plan(&config, &files, false).expect("build should succeed");
    assert!(plan.report.is_success());
    assert_eq!(plan.report.failed, 0);
    assert_eq!(plan.documents.len(), 1);
    let doc = &plan.documents[0];
    assert_eq!(doc.title, "Hello");
    assert_eq!(doc.output, segs(&["output", "post1.html"]));
    assert_eq!(doc.html.trim(), "<h1>Hi</h1>");
    assert_eq!(doc.date, Some(Date { year: 2024, month: 1, day: 1 }));
}

#[test]
fn test_output_collision_is_fatal() {
    let config = Config::default();
    // this document routes exactly where the first paginated index page goes
    let files = vec![file(&["content", "page", "1", "index.md"], "# Clash")];
    let r = Operations::publish_plan(&config, &files, false);
    assert!(matches!(r, Err(BuildError::Collision { .. })));
}

#[test]
fn test_file_outside_source_is_fatal() {
    let config = Config::default();
    let files = vec![file(&["elsewhere", "post.md"], "# Lost")];
    let r = Operations::publish_plan(&config, &files, false);
    assert!(matches!(r, Err(BuildError::Path { .. })));
}

#[test]
fn test_malformed_front_matter_is_reported_not_fatal() {
    let config = Config::default();
    let files = vec![
        file(&["content", "bad.md"], "---\ntitle \"no equals\"\n---\nbody"),
        file(&["content", "good.md"], "# Fine"),
    ];
    let plan = Operations::publish_plan(&config, &files, false).expect("build should go on");
    assert_eq!(plan.documents.len(), 1);
    assert_eq!(plan.report.failed, 1);
    assert!(!plan.report.is_success());
    assert!(matches!(plan.report.errors[0], BuildError::Content { .. }));
}

#[test]
fn test_preview_is_ready() {
    assert!(Operations::preview(9090).is_ok());
}

#[test]
fn test_rebuild_policy() {
    assert!(rgent::plan::rebuild_full(true, true));
    assert!(rgent::plan::rebuild_full(false, false));
    assert!(!rgent::plan::rebuild_full(false, true));
}

#[test]
fn test_incremental_skip_decision() {
    assert!(rgent::plan::may_skip_render(false, 7, Some(7), false, false));
    assert!(!rgent::plan::may_skip_render(true, 7, Some(7), false, false));
    assert!(!rgent::plan::may_skip_render(false, 7, Some(8), false, false));
    assert!(!rgent::plan::may_skip_render(false, 7, None, false, false));
    assert!(!rgent::plan::may_skip_render(false, 7, Some(7), true, false));
    assert!(!rgent::plan::may_skip_render(false, 7, Some(7), false, true));
}

#[test]
fn test_title_defaults_to_slug() {
    let config = Config::default();
    let files = vec![file(&["content", "my-first-post.md"], "# Just a body")];
    let plan = Operations::publish_plan(&config, &files, false).expect("build should succeed");
    assert_eq!(plan.documents.len(), 1);
    assert_eq!(plan.documents[0].title, "my-first-post");
}

#[test]
fn test_separator_bearing_tags_are_dropped() {
    let mut config = Config::default();
    config.render_tags = true;
    let files = vec![file(
        &["content", "a.md"],
        "---\ntags = [\"ok\", \"..\", \"bad/one\"]\n---\nbody",
    )];
    let plan = Operations::publish_plan(&config, &files, false).expect("build should succeed");
    assert_eq!(plan.documents[0].tags, segs(&["ok"]));
    assert_eq!(plan.tags.len(), 1);
    assert_eq!(plan.tags[0].tag, "ok");
}

#[test]
fn test_trailing_slash_source_root() {
    let mut config = Config::default();
    config.source = "content/".to_string();
    let files = vec![file(&["content", "post.md"], "# Hi")];
    let plan = Operations::publish_plan(&config, &files, false).expect("build should succeed");
    assert_eq!(plan.documents.len(), 1);
    assert_eq!(plan.documents[0].output, segs(&["output", "post.html"]));
}
