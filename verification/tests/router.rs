//! Build-driver tests: a project snapshot in, documents at routes out. The
//! headline behaviour is the inverse half of the router: every published `.md`
//! is also a target HTML file.

use nono::config::{BuildSection, Config};
use nono::markdown::split_frontmatter;
use nono::site::{build_site, step_outcome, BuildError, BuildOutput, Project};
use nono::sources::{FrontMatter, SourceFile, Sources};
use nono::value::Value;

/// A project being assembled in memory, file by file.
struct Scratch {
    nono: Vec<(String, String)>,
    files: Vec<SourceFile>,
    statics: Vec<String>,
}

fn scratch() -> Scratch {
    Scratch { nono: Vec::new(), files: Vec::new(), statics: Vec::new() }
}

fn yaml_to_value(y: serde_yaml::Value) -> Value {
    match y {
        serde_yaml::Value::Null => Value::Nil,
        serde_yaml::Value::Bool(b) => Value::Bool(b),
        serde_yaml::Value::Number(n) => match n.as_i64() {
            Some(i) => Value::Number(i),
            None => Value::Str(n.to_string()),
        },
        serde_yaml::Value::String(s) => Value::Str(s),
        serde_yaml::Value::Sequence(seq) => Value::List(seq.into_iter().map(yaml_to_value).collect()),
        serde_yaml::Value::Mapping(m) => Value::Dict(
            m.into_iter()
                .filter_map(|(k, v)| match k {
                    serde_yaml::Value::String(key) => Some((key, yaml_to_value(v))),
                    _ => None,
                })
                .collect(),
        ),
        serde_yaml::Value::Tagged(t) => yaml_to_value(t.value),
    }
}

fn markdown_file(rel: &str, raw: &str) -> SourceFile {
    let (fm, body) = split_frontmatter(raw);
    let front = match fm {
        None => FrontMatter::Absent,
        Some(text) => match serde_yaml::from_str::<serde_yaml::Value>(&text) {
            Ok(serde_yaml::Value::Mapping(m)) => match yaml_to_value(serde_yaml::Value::Mapping(m)) {
                Value::Dict(entries) => FrontMatter::Fields(entries),
                _ => FrontMatter::Fields(Vec::new()),
            },
            Ok(_) => FrontMatter::Fields(Vec::new()),
            Err(e) => FrontMatter::Invalid(e.to_string()),
        },
    };
    SourceFile { path: rel.to_string(), front, body }
}

/// Add a file to the project.
fn write(p: &mut Scratch, rel: &str, contents: &str) {
    if rel.ends_with(".nono") {
        p.nono.push((rel.to_string(), contents.to_string()));
    } else if rel.ends_with(".md") {
        p.files.push(markdown_file(rel, contents));
    } else if let Some(s) = rel.strip_prefix("static/") {
        p.statics.push(s.to_string());
    }
}

fn build(p: Scratch) -> Result<BuildOutput, BuildError> {
    let mut sources = Sources::new();
    sources.files = p.files;
    build_site(Project { nono: p.nono, sources, statics: p.statics })
}

fn page(out: &BuildOutput, path: &str) -> Option<String> {
    out.pages.iter().find(|(p, _)| p == path).map(|(_, html)| html.clone())
}

fn expect_built(p: Scratch) -> BuildOutput {
    match build(p) {
        Ok(out) => out,
        Err(e) => panic!("build failed: {}", e.message()),
    }
}

#[test]
fn md_file_becomes_a_page() {
    let mut proj = scratch();
    write(&mut proj, "pages/index.nono", r#"component Home { main { "home" } }"#);
    write(
        &mut proj,
        "layouts/posts.nono",
        "component PostLayout(title: string) { article { h1 { \"{title}\" } Slot() } }",
    );
    write(&mut proj, "content/posts/hello.md", "---\ntitle: Hello There\n---\nBody *text*.\n");

    let out = expect_built(proj);

    // Vanity URL: content/posts/hello.md -> posts/hello/index.html.
    let page = page(&out, "posts/hello/index.html").expect("post page missing");
    // Title from frontmatter, layout h1 from the param, body as raw HTML.
    assert!(page.contains("<title>Hello There</title>"), "got: {page}");
    assert!(page.contains("<h1>Hello There</h1>"), "got: {page}");
    assert!(page.contains("Body <em>text</em>"), "got: {page}");
}

#[test]
fn raw_html_in_markdown_passes_through() {
    // Embedded HTML in a post must survive verbatim, and markdown inside a
    // blank-line-separated raw block still renders.
    let mut proj = scratch();
    write(&mut proj, "pages/index.nono", r#"component Home { main { "h" } }"#);
    write(&mut proj, "layouts/posts.nono", "component L(title: string) { article { Slot() } }");
    write(
        &mut proj,
        "content/posts/embed.md",
        "---\ntitle: Embed\n---\n<details>\n<summary>more</summary>\n\nA **bold** word and <mark>inline</mark>.\n\n</details>\n\n<div class=\"callout\" data-kind=\"note\">raw</div>\n",
    );

    let out = expect_built(proj);

    let page = page(&out, "posts/embed/index.html").expect("post missing");
    assert!(page.contains("<details>"), "block html: {page}");
    assert!(page.contains("<summary>more</summary>"), "block html: {page}");
    assert!(page.contains("<mark>inline</mark>"), "inline html: {page}");
    assert!(
        page.contains(r#"<div class="callout" data-kind="note">raw</div>"#),
        "html attrs preserved: {page}"
    );
    // Markdown inside the raw block is still processed.
    assert!(page.contains("<strong>bold</strong>"), "md in raw block: {page}");
}

#[test]
fn draft_md_is_not_published() {
    let mut proj = scratch();
    write(&mut proj, "pages/index.nono", r#"component Home { main { "home" } }"#);
    write(&mut proj, "layouts/posts.nono", "component L { article { Slot() } }");
    write(&mut proj, "content/posts/secret.md", "---\ntitle: Secret\ndraft: true\n---\nshh\n");

    let out = expect_built(proj);

    assert!(page(&out, "posts/secret/index.html").is_none(), "a draft should not be published");
}

#[test]
fn explicit_layout_field_wins() {
    // `layout:` in frontmatter overrides the directory-name default, and is
    // resolved by filename (so it need not match the component name inside).
    let mut proj = scratch();
    write(&mut proj, "pages/index.nono", r#"component Home { main { "h" } }"#);
    write(&mut proj, "layouts/fancy.nono", "component Fancy { section(class = \"fancy\") { Slot() } }");
    write(&mut proj, "content/notes/n.md", "---\nlayout: fancy\n---\nhi\n");

    let out = expect_built(proj);

    let page = page(&out, "notes/n/index.html").expect("page missing");
    assert!(page.contains(r#"<section class="fancy">"#), "got: {page}");
    assert!(page.contains("<p>hi</p>"), "got: {page}");
}

#[test]
fn missing_layout_is_a_loud_error() {
    let mut proj = scratch();
    write(&mut proj, "pages/index.nono", r#"component Home { main { "home" } }"#);
    write(&mut proj, "content/posts/x.md", "---\ntitle: X\n---\nbody\n");

    let err = match build(proj) {
        Ok(_) => panic!("build should fail with no layout"),
        Err(e) => e.message(),
    };
    assert!(err.contains("layout") && err.contains("posts"), "got: {err}");
}

#[test]
fn bracket_indexing_reads_map_and_list() {
    // `post["title"]` reaches a map field by string key (needed for JSON keys
    // like "#text"), and `posts[0]` indexes a list.
    let mut proj = scratch();
    write(&mut proj, "content/posts/p.md", "---\ntitle: Hello\n---\nbody\n");
    write(&mut proj, "layouts/posts.nono", "component L(title: string) { article { Slot() } }");
    write(
        &mut proj,
        "pages/index.nono",
        r#"
        const posts = glob("content/posts/*.md")
        component Home {
          div {
            for post in posts { span { "{post["title"]}" } }
            p { "{posts[0]["title"]}" }
          }
        }
        "#,
    );

    let out = expect_built(proj);

    let page = page(&out, "index.html").expect("index missing");
    assert!(page.contains("<span>Hello</span>"), "string key on map: {page}");
    assert!(page.contains("<p>Hello</p>"), "list index then key: {page}");
}

#[test]
fn markdown_headings_drive_a_table_of_contents() {
    let mut proj = scratch();
    write(&mut proj, "pages/index.nono", r#"component Home { main { "home" } }"#);
    // The layout pulls the free `headings` list and hands it to the stdlib
    // TableOfContents component.
    write(
        &mut proj,
        "layouts/posts.nono",
        "component L(headings: list) { article { TableOfContents(headings = headings) Slot() } }",
    );
    write(
        &mut proj,
        "content/posts/guide.md",
        "---\ntitle: Guide\n---\n## First Section\nbody\n## First Section\nagain\n### Nested Bit\nmore\n",
    );

    let out = expect_built(proj);

    let page = page(&out, "posts/guide/index.html").expect("post page missing");
    // Body headings carry slug ids.
    assert!(page.contains(r#"<h2 id="first-section">First Section</h2>"#), "got: {page}");
    assert!(page.contains(r#"<h3 id="nested-bit">Nested Bit</h3>"#), "got: {page}");
    // Duplicate heading text gets a unique id.
    assert!(page.contains(r#"<h2 id="first-section-1">First Section</h2>"#), "got: {page}");
    // The TOC links to those same ids, with a depth class per level.
    assert!(page.contains(r#"<nav class="toc">"#), "got: {page}");
    assert!(
        page.contains(r##"<li class="toc-h2"><a href="#first-section">First Section</a></li>"##),
        "got: {page}"
    );
    assert!(
        page.contains(r##"<li class="toc-h2"><a href="#first-section-1">First Section</a></li>"##),
        "got: {page}"
    );
    assert!(
        page.contains(r##"<li class="toc-h3"><a href="#nested-bit">Nested Bit</a></li>"##),
        "got: {page}"
    );
}

#[test]
fn build_step_runs_with_path_tokens() {
    // The step writes a stylesheet via the <publicDir> token (which resolves to
    // static/); whatever lands there is copied to the output root. The shell
    // itself runs outside the library, so here the step's command is checked
    // for the substituted path, and the file it makes for its copy.
    let config = Config {
        build: BuildSection {
            steps: vec![
                "mkdir -p <publicDir> && printf 'body{color:red}' > <publicDir>/generated.css".to_string(),
            ],
        },
    };
    let commands = config.step_commands("/site", "/site/static");
    assert_eq!(
        commands,
        vec!["mkdir -p /site/static && printf 'body{color:red}' > /site/static/generated.css".to_string()]
    );
    assert!(commands[0].contains("color:red"), "got: {}", commands[0]);

    let mut proj = scratch();
    write(&mut proj, "pages/index.nono", r#"component Home { main { "hi" } }"#);
    write(&mut proj, "static/generated.css", "body{color:red}");
    let out = expect_built(proj);
    assert_eq!(out.copies, vec![("static/generated.css".to_string(), "generated.css".to_string())]);
}

#[test]
fn head_block_is_lifted_into_the_document_head() {
    // SiteHead emits a head{} block; the page uses it twice over, yet the link
    // must appear once and inside <head>, not the body.
    let mut proj = scratch();
    write(
        &mut proj,
        "lib/lib.nono",
        r#"component SiteHead { head { link(rel = "stylesheet", href = "/styles.css") } }"#,
    );
    write(&mut proj, "pages/index.nono", r#"component Home { SiteHead() main { "body text" SiteHead() } }"#);

    let out = expect_built(proj);

    let page = page(&out, "index.html").expect("index missing");
    let head_end = page.find("</head>").expect("no </head>");
    let body_start = page.find("<body>").expect("no <body>");
    let link = r#"<link rel="stylesheet" href="/styles.css" />"#;
    // The link sits in the head, before the body opens.
    let first = page.find(link).expect("link missing from document");
    assert!(first < head_end, "link should be in <head>: {page}");
    // Body carries the real content but no leaked link.
    assert!(page[body_start..].contains("body text"), "got: {page}");
    assert!(!page[body_start..].contains(link), "link leaked into body: {page}");
}

#[test]
fn failing_build_step_aborts_the_build() {
    let err = match step_outcome("exit 3", 3) {
        Ok(()) => panic!("a failing build step should fail the build"),
        Err(e) => e.message(),
    };
    assert!(err.contains("build step failed"), "got: {err}");
}

#[test]
fn page_with_two_components_is_rejected() {
    let mut proj = scratch();
    write(&mut proj, "pages/index.nono", r#"component A { div { "a" } } component B { div { "b" } }"#);

    let err = match build(proj) {
        Ok(_) => panic!("a page with two components should be rejected"),
        Err(e) => e.message(),
    };
    assert!(err.contains("exactly one component"), "got: {err}");
}
