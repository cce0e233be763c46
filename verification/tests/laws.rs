//! The library's laws, each checked on concrete values.

use nono::html::{self, Html};
use nono::markdown::{slugify, unique_slug};
use nono::serve::resolve;
use nono::site::{route_to_output, validate_route, BuildError};
use nono::sources::{glob, FrontMatter, SourceFile, Sources};
use nono::value::Value;

fn text(s: &str) -> Html {
    Html::Text(s.to_string())
}

fn element(tag: &str, children: Vec<Html>) -> Html {
    Html::Element { tag: tag.to_string(), attrs: Vec::new(), children }
}

#[test]
fn escaped_text_cannot_open_markup() {
    let escaped = html::escape(&"<script>alert(1)</script> & <b>".to_string());
    assert_eq!(escaped, "&lt;script&gt;alert(1)&lt;/script&gt; &amp; &lt;b&gt;");
    assert!(!escaped.contains('<') && !escaped.contains('>'));
}

#[test]
fn escaped_attribute_cannot_close_its_quotes() {
    let node = Html::Element {
        tag: "a".to_string(),
        attrs: vec![("title".to_string(), "say \"hi\" <now>".to_string())],
        children: vec![text("x")],
    };
    assert_eq!(html::render(&vec![node]), r#"<a title="say &quot;hi&quot; &lt;now&gt;">x</a>"#);
}

#[test]
fn rendering_a_concatenation_concatenates() {
    let a = vec![element("p", vec![text("one")])];
    let b = vec![text("two & three")];
    let both = vec![element("p", vec![text("one")]), text("two & three")];
    assert_eq!(html::render(&both), format!("{}{}", html::render(&a), html::render(&b)));
}

#[test]
fn hoists_never_reach_the_body() {
    let nodes = vec![element(
        "main",
        vec![
            Html::Hoist { region: "head".to_string(), children: vec![text("meta")] },
            text("body"),
            element("div", vec![Html::Hoist { region: "head".to_string(), children: vec![text("link")] }]),
        ],
    )];
    let (regions, body) = html::extract_hoists(nodes);
    assert_eq!(html::render(&body), "<main>body<div></div></main>");
    assert_eq!(regions.len(), 1);
    assert_eq!(regions[0].0, "head");
    assert_eq!(html::render(&regions[0].1), "metalink");
}

#[test]
fn hoisted_content_keeps_document_order() {
    let head = |children: Vec<Html>| Html::Hoist { region: "head".to_string(), children };
    let nodes = vec![head(vec![text("A"), head(vec![text("B")]), text("C")])];
    let (regions, body) = html::extract_hoists(nodes);
    assert!(body.is_empty());
    assert_eq!(regions.len(), 1);
    assert_eq!(html::render(&regions[0].1), "ABC");
}

#[test]
fn a_nested_hoist_follows_the_element_it_sits_in() {
    let head = |children: Vec<Html>| Html::Hoist { region: "head".to_string(), children };
    let nodes = vec![head(vec![element("div", vec![text("x"), head(vec![text("B")])]), text("C")])];
    let (regions, _) = html::extract_hoists(nodes);
    assert_eq!(html::render(&regions[0].1), "<div>x</div>BC");
}

#[test]
fn every_route_lands_in_an_index_file() {
    assert_eq!(route_to_output("index.nono"), "index.html");
    assert_eq!(route_to_output("about.nono"), "about/index.html");
    assert_eq!(route_to_output("posts/x.nono"), "posts/x/index.html");
    assert_eq!(route_to_output("posts/index.nono"), "posts/index.html");
    assert_eq!(route_to_output("posts/leaving-react.md"), "posts/leaving-react/index.html");
}

#[test]
fn route_segments_must_be_lowercase_ascii() {
    assert!(validate_route("posts/hello-2.md").is_ok());
    assert!(validate_route("index.nono").is_ok());
    match validate_route("Posts/x.nono") {
        Err(BuildError::IllegalRoute { segment, rel }) => {
            assert_eq!(segment, "Posts");
            assert_eq!(rel, "Posts/x.nono");
        }
        _ => panic!("an upper-case segment must be refused"),
    }
    match validate_route("notes/a_b.md") {
        Err(e) => assert_eq!(
            e.message(),
            "illegal route segment `a_b.md` in `notes/a_b.md`: page paths must match [a-z0-9-]"
        ),
        Ok(()) => panic!("an underscore must be refused"),
    }
}

#[test]
fn every_heading_gets_an_id() {
    let slug = |s: &str| slugify(&s.chars().collect()).into_iter().collect::<String>();
    assert_eq!(slug("First Section"), "first-section");
    assert_eq!(slug("  -- Hello, World! --  "), "hello-world");
    assert_eq!(slug("!!!"), "section");
    assert_eq!(slug(""), "section");
}

#[test]
fn slugs_of_ascii_text_are_tidy_and_their_own_slug() {
    let slug = |s: &str| slugify(&s.chars().collect()).into_iter().collect::<String>();
    for text in ["Hello,  World--Again!", "--x--", "A_B c", "Über", "2024 / Q3 -- Review", "!!!"] {
        let s = slug(text);
        if text.is_ascii() {
            assert!(s.chars().all(|c| c.is_ascii_lowercase() || c.is_ascii_digit() || c == '-'), "{s}");
            assert!(!s.starts_with('-') && !s.ends_with('-') && !s.contains("--"), "{s}");
        }
        assert_eq!(slug(&s), s);
    }
    assert_eq!(slug("Hello,  World--Again!"), "hello-world-again");
    assert_eq!(slug("2024 / Q3 -- Review"), "2024-q3-review");
}

#[test]
fn repeated_headings_are_numbered() {
    let mut seen = Vec::new();
    let mut next = |s: &str, seen: &mut Vec<Vec<char>>| {
        unique_slug(&s.chars().collect(), seen).into_iter().collect::<String>()
    };
    assert_eq!(next("Intro", &mut seen), "intro");
    assert_eq!(next("Intro", &mut seen), "intro-1");
    assert_eq!(next("Intro", &mut seen), "intro-2");
    assert_eq!(next("Other", &mut seen), "other");
}

#[test]
fn heading_ids_stay_unique_when_a_heading_looks_numbered() {
    let mut seen = Vec::new();
    let mut next = |s: &str, seen: &mut Vec<Vec<char>>| {
        unique_slug(&s.chars().collect(), seen).into_iter().collect::<String>()
    };
    assert_eq!(next("A", &mut seen), "a");
    assert_eq!(next("A", &mut seen), "a-1");
    assert_eq!(next("A 1", &mut seen), "a-1-1");
    assert_eq!(next("A-1", &mut seen), "a-1-2");
    assert_eq!(next("A", &mut seen), "a-2");
}

#[test]
fn a_numbered_heading_first_pushes_later_repeats_past_it() {
    let mut seen = Vec::new();
    let mut next = |s: &str, seen: &mut Vec<Vec<char>>| {
        unique_slug(&s.chars().collect(), seen).into_iter().collect::<String>()
    };
    assert_eq!(next("A-1", &mut seen), "a-1");
    assert_eq!(next("A", &mut seen), "a");
    assert_eq!(next("A", &mut seen), "a-2");
}

fn page(path: &str, fields: Vec<(&str, Value)>) -> SourceFile {
    SourceFile {
        path: path.to_string(),
        front: FrontMatter::Fields(fields.into_iter().map(|(k, v)| (k.to_string(), v)).collect()),
        body: "body".to_string(),
    }
}

fn titles(v: Value) -> Vec<String> {
    match v {
        Value::List(items) => items
            .iter()
            .map(|p| match p.get_field("title") {
                Some(Value::Str(t)) => t,
                _ => String::new(),
            })
            .collect(),
        _ => panic!("glob gives a list"),
    }
}

#[test]
fn glob_lists_no_drafts_newest_first() {
    let mut src = Sources::new();
    src.files.push(page("content/posts/a.md", vec![("title", Value::Str("A".into())), ("date", Value::Str("2026-01-01".into()))]));
    src.files.push(page(
        "content/posts/b.md",
        vec![("title", Value::Str("B".into())), ("date", Value::Str("2026-03-01".into())), ("draft", Value::Bool(true))],
    ));
    src.files.push(page("content/posts/c.md", vec![("title", Value::Str("C".into())), ("date", Value::Str("2026-02-01".into()))]));
    src.files.push(page("content/notes/d.md", vec![("title", Value::Str("D".into())), ("date", Value::Str("2026-04-01".into()))]));
    let listed = match glob(&src, "content/posts/*.md") {
        Ok(v) => v,
        Err(e) => panic!("glob failed: {}", e.message()),
    };
    assert_eq!(titles(listed), vec!["C".to_string(), "A".to_string()]);
}

#[test]
fn resolved_paths_stay_inside_the_output() {
    assert_eq!(resolve("/"), Some("index.html".to_string()));
    assert_eq!(resolve("/posts/x"), Some("posts/x/index.html".to_string()));
    assert_eq!(resolve("/posts/x/"), Some("posts/x/index.html".to_string()));
    assert_eq!(resolve("/styles.css?v=2"), Some("styles.css".to_string()));
    assert_eq!(resolve("/about#team"), Some("about/index.html".to_string()));
    assert_eq!(resolve("/../etc/passwd"), None);
    assert_eq!(resolve("/posts/../../x"), None);
}

#[test]
fn many_headings_in_one_document_all_get_distinct_ids() {
    let mut seen = Vec::new();
    let texts = ["A", "A", "A 1", "A-1", "a", "A 2", "A", "a-1-1", "", "!!", "Section", "section 1", "A"];
    let mut ids: Vec<String> = Vec::new();
    for t in texts.iter().cycle().take(60) {
        ids.push(unique_slug(&t.chars().collect(), &mut seen).into_iter().collect());
    }
    for i in 0..ids.len() {
        for j in (i + 1)..ids.len() {
            assert_ne!(ids[i], ids[j], "ids {i} and {j}");
        }
    }
}
