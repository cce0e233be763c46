//! Edge cases, error variants and the calls into outside code, through the
//! library's public functions.

use nono::config::{BuildSection, Config};
use nono::eval::Evaluator;
use nono::html;
use nono::parser::parse;
use nono::serve::{
    content_type, error_page, exchange, method_allowed, not_found_page, read_request, response_head, Exchange, ExchangeAction,
    ExchangeEvent,
};
use nono::error::EvalError;
use nono::site::{after_failure, render_css, sole_component, step_outcome, BuildError, Retry};
use nono::sources::{markdown_value, FrontMatter, SourceFile, Sources};
use nono::value::{debug_text, Value};

fn render_with(src: &str, component: &str, sources: Sources) -> Result<String, String> {
    let file = match parse(src) {
        Ok(f) => f,
        Err(e) => return Err(e.message()),
    };
    let ev = Evaluator::new(file.items, sources).map_err(|e| e.message())?;
    let nodes = ev.render_component(component).map_err(|e| e.message())?;
    Ok(html::render(&nodes))
}

fn render(src: &str, component: &str) -> Result<String, String> {
    render_with(src, component, Sources::new())
}

fn parse_error(src: &str) -> String {
    match parse(src) {
        Ok(_) => panic!("expected a parse error"),
        Err(e) => e.message(),
    }
}

#[test]
fn parse_errors_name_line_and_column() {
    assert_eq!(parse_error("component 1"), "expected a name at line 1, column 11");
    assert_eq!(parse_error("\n\n  component P { div { \"x\" }"), "expected a node at line 3, column 28");
    assert_eq!(parse_error("widget P {}"), "expected `component`, `fn`, `const` or `stylesheet` at line 1, column 1");
    assert_eq!(
        parse_error("component P { div { \"{1.5}\" } }"),
        "expected a whole number (fractional numbers are not supported) at line 1, column 23"
    );
    assert_eq!(
        parse_error("component P { div { \"{99999999999999999999}\" } }"),
        "expected a number that fits in 64 bits at line 1, column 23"
    );
    assert_eq!(parse_error("component if { }"), "expected a name that is not a keyword at line 1, column 11");
    assert_eq!(parse_error("component P { \"\\q\" }"), "expected a known escape at line 1, column 16");
}

#[test]
fn comments_and_whitespace_separate_tokens() {
    let src = "// a page\ncomponent P { // the body\n  div { \"a\" } // done\n}\n";
    assert_eq!(render(src, "P").unwrap(), "<div>a</div>");
}

#[test]
fn binary_operators_fold_left_to_right() {
    assert_eq!(render(r#"component P { div { "{10 - 2 - 3}" } }"#, "P").unwrap(), "<div>5</div>");
    assert_eq!(render(r#"component P { div { "{2 + 3 * 4}" } }"#, "P").unwrap(), "<div>20</div>");
    assert_eq!(render(r#"component P { div { "{(2 + 3) == 5}" } }"#, "P").unwrap(), "<div>true</div>");
}

#[test]
fn arithmetic_errors_are_reported() {
    assert_eq!(render(r#"component P { div { "{1 / 0}" } }"#, "P"), Err("division by zero".to_string()));
    assert_eq!(
        render(r#"component P { div { "{3 / 2}" } }"#, "P"),
        Err("division does not give a whole number".to_string())
    );
    assert_eq!(render(r#"component P { div { "{8 / 2}" } }"#, "P").unwrap(), "<div>4</div>");
    assert_eq!(
        render(r#"component P { div { "{9223372036854775807 + 1}" } }"#, "P"),
        Err("arithmetic overflow".to_string())
    );
}

#[test]
fn lookup_errors_are_reported() {
    assert_eq!(render(r#"component P { div { "{missing}" } }"#, "P"), Err("unknown name `missing`".to_string()));
    assert_eq!(
        render(r#"const d = { a = 1 } component P { div { "{d.b}" } }"#, "P"),
        Err("no field `b` on value".to_string())
    );
    assert_eq!(render(r#"component P { div { "{[1, 2][5]}" } }"#, "P"), Err("index 5 is out of range".to_string()));
    assert_eq!(
        render(r#"component P { ul { for x in 3 { li { "{x}" } } } }"#, "P"),
        Err("cannot iterate over Number(3.0)".to_string())
    );
    assert_eq!(
        render(r#"const n = "a" component P { div { "{n + 1}" } }"#, "P"),
        Err("expected a number, got Str(\"a\")".to_string())
    );
    assert_eq!(
        render(r#"const d = { k = [true, nil] } component P { for x in d { p { "x" } } }"#, "P"),
        Err("cannot iterate over Map({\"k\": List([Bool(true), Nil])})".to_string())
    );
    assert_eq!(render(r#"component P { div { "{nope(1)}" } }"#, "P"), Err("unknown function `nope`".to_string()));
    assert_eq!(render("component P { div { \"x\" } }", "Q"), Err("no component named Q".to_string()));
}

#[test]
fn element_names_are_case_insensitive_tags() {
    assert_eq!(render(r#"component P { DIV(Class = "c") { "x" } }"#, "P").unwrap(), r#"<div Class="c">x</div>"#);
    assert_eq!(render(r#"component P { br }"#, "P").unwrap(), "<br />");
}

#[test]
fn if_else_and_match_bindings() {
    let src = r#"
        const n = 3
        component P {
          if n > 5 { "big" } else if n > 2 { "middling" } else { "small" }
        }
    "#;
    assert_eq!(render(src, "P").unwrap(), "middling");
}

#[test]
fn environment_and_recorded_responses_feed_the_builtins() {
    let mut src = Sources::new();
    src.env.push(("WHO".to_string(), "Dave".to_string()));
    src.http.push((
        "https://example.com/api?u=Dave".to_string(),
        Value::Dict(vec![("name".to_string(), Value::Str("Nono".to_string()))]),
    ));
    let page = r#"
        const who = env("WHO")
        const reply = http_get("https://example.com/api?u={who}")
        component P { div { "{who}: {reply.name}" } }
    "#;
    assert_eq!(render_with(page, "P", src).unwrap(), "<div>Dave: Nono</div>");
    assert_eq!(
        render(r#"const k = env("NOT_SET_ANYWHERE") component P { div { "{k}" } }"#, "P"),
        Err("environment variable `NOT_SET_ANYWHERE` is not set".to_string())
    );
    assert_eq!(
        render(r#"const r = http_get("https://example.com/x") component P { div { "{r}" } }"#, "P"),
        Err("no response recorded for https://example.com/x".to_string())
    );
}

#[test]
fn markdown_pages_carry_rendered_html_and_headings() {
    let mut src = Sources::new();
    src.files.push(SourceFile {
        path: "content/a.md".to_string(),
        front: FrontMatter::Fields(vec![("title".to_string(), Value::Str("Hi".to_string()))]),
        body: "## Über Größe\n\nSome *words*.\n".to_string(),
    });
    let page = r#"
        const p = markdown(file = "content/a.md")
        component P { div { "{p.title}|{p.slug}|{p.kind}|{p.draft}|{p.headings[0].id}|{p.headings[0].level}" } }
    "#;
    assert_eq!(render_with(page, "P", src).unwrap(), "<div>Hi|a|Essay|false|über-größe|2</div>");
}

#[test]
fn a_page_without_frontmatter_still_has_every_promised_key() {
    let f = SourceFile { path: "content/notes/n.md".to_string(), front: FrontMatter::Absent, body: "hello\n".to_string() };
    let fields = match markdown_value(&f, "notes/n.md") {
        Ok(Value::Dict(m)) => m,
        _ => panic!("expected a dictionary"),
    };
    let get = |k: &str| fields.iter().find(|(name, _)| name == k).map(|(_, v)| v.clone());
    for key in ["title", "date", "kind", "draft", "path", "slug", "html"] {
        assert!(get(key).is_some(), "missing {key}");
    }
    assert!(matches!(get("title"), Some(Value::Nil)));
    assert!(matches!(get("date"), Some(Value::Nil)));
    assert!(matches!(get("path"), Some(Value::Str(p)) if p == "notes/n.md"));
    assert!(matches!(get("slug"), Some(Value::Str(s)) if s == "n"));
    assert!(matches!(get("kind"), Some(Value::Str(k)) if k == "Essay"));
    assert!(matches!(get("draft"), Some(Value::Bool(false))));
}

#[test]
fn markdown_body_is_rendered_by_the_markdown_renderer() {
    let mut src = Sources::new();
    src.files.push(SourceFile {
        path: "content/b.md".to_string(),
        front: FrontMatter::Absent,
        body: "# Title\n\n| a | b |\n|---|---|\n| 1 | ~~2~~ |\n".to_string(),
    });
    let mut page_src = String::from("const p = markdown(\"content/b.md\")\n");
    page_src.push_str("component P { div { \"{p.html}\" } }");
    let out = render_with(&page_src, "P", src).unwrap();
    // The html field is escaped when interpolated as text.
    assert!(out.contains("&lt;h1 id=\"title\"&gt;Title&lt;/h1&gt;"), "got: {out}");
    assert!(out.contains("&lt;del&gt;2&lt;/del&gt;"), "got: {out}");
    assert!(out.contains("&lt;table&gt;"), "got: {out}");
}

#[test]
fn invalid_frontmatter_is_an_error() {
    let mut src = Sources::new();
    src.files.push(SourceFile {
        path: "content/c.md".to_string(),
        front: FrontMatter::Invalid("bad indentation".to_string()),
        body: String::new(),
    });
    assert_eq!(
        render_with(r#"const p = markdown("content/c.md") component P { div { "x" } }"#, "P", src),
        Err("parsing frontmatter YAML in content/c.md: bad indentation".to_string())
    );
    assert_eq!(
        render(r#"const p = markdown("content/none.md") component P { div { "x" } }"#, "P"),
        Err("reading markdown content/none.md: no such file".to_string())
    );
}

#[test]
fn glob_patterns_are_checked() {
    assert_eq!(
        render(r#"const p = glob("content/*/*.md") component P { div { "x" } }"#, "P"),
        Err("glob supports at most one '*': content/*/*.md".to_string())
    );
}

#[test]
fn stylesheets_render_to_css() {
    let file = match parse("stylesheet {\n  Prose {\n    max-width = 65ch\n    line-height = 1.6\n  }\n  a { color = red }\n  Élan { x = y }\n}") {
        Ok(f) => f,
        Err(e) => panic!("{}", e.message()),
    };
    match &file.items[0] {
        nono::ast::Item::Stylesheet(st) => assert_eq!(
            render_css(st),
            ".Prose {\n  max-width: 65ch;\n  line-height: 1.6;\n}\na {\n  color: red;\n}\n.Élan {\n  x: y;\n}\n"
        ),
        _ => panic!("expected a stylesheet"),
    }
}

#[test]
fn component_count_errors_say_what_they_found() {
    let none: Vec<String> = Vec::new();
    match sole_component(&none, "pages/empty.nono", "page") {
        Err(e) => assert_eq!(
            e.message(),
            "page pages/empty.nono defines no component. A page that renders nothing isn't minimalism, it's an empty file with ambitions."
        ),
        Ok(_) => panic!("no component is an error"),
    }
    let two = vec!["A".to_string(), "B".to_string()];
    match sole_component(&two, "layouts/x.nono", "layout") {
        Err(e) => {
            let m = e.message();
            assert!(m.starts_with("layout layouts/x.nono defines 2 components (A, B). A layout is exactly one component."), "got: {m}");
        }
        Ok(_) => panic!("two components is an error"),
    }
    match sole_component(&vec!["Only".to_string()], "pages/index.nono", "page") {
        Ok(n) => assert_eq!(n, "Only"),
        Err(e) => panic!("{}", e.message()),
    }
}

#[test]
fn build_steps_and_their_outcomes() {
    assert!(Config::default().build.steps.is_empty());
    let config = Config { build: BuildSection { steps: vec!["cd <rootDir> && cp x <publicDir>/y <publicDir>".to_string()] } };
    assert_eq!(config.step_commands("/r", "/r/static"), vec!["cd /r && cp x /r/static/y /r/static".to_string()]);
    assert!(step_outcome("true", 0).is_ok());
    match step_outcome("false", 1) {
        Err(e) => assert_eq!(e.message(), "build step failed (exit status 1): false"),
        Ok(()) => panic!("a non-zero status fails"),
    }
}

#[test]
fn a_missing_response_is_named_for_the_caller() {
    let e = BuildError::Render {
        file: "pages/index.nono".to_string(),
        error: nono::error::EvalError::Fetch("https://x.test/a".to_string()),
    };
    assert_eq!(e.missing_response(), Some("https://x.test/a".to_string()));
    assert_eq!(e.message(), "rendering pages/index.nono: no response recorded for https://x.test/a");
    let other = BuildError::StepFailed { command: "x".to_string(), status: 2 };
    assert_eq!(other.missing_response(), None);
}

#[test]
fn request_lines_and_responses() {
    assert_eq!(read_request("GET /posts/x HTTP/1.1\r\n"), Some(("GET".to_string(), "/posts/x".to_string())));
    assert_eq!(read_request("\r\n"), Some((String::new(), "/".to_string())));
    assert_eq!(read_request("HEAD"), Some(("HEAD".to_string(), "/".to_string())));
    assert_eq!(read_request(""), None);
    assert!(method_allowed("GET") && method_allowed("HEAD") && !method_allowed("POST"));
    assert_eq!(
        response_head("200 OK", "text/html; charset=utf-8", 12),
        "HTTP/1.1 200 OK\r\nContent-Type: text/html; charset=utf-8\r\nContent-Length: 12\r\nConnection: close\r\n\r\n"
    );
    assert_eq!(content_type("posts/x/index.html"), "text/html; charset=utf-8");
    assert_eq!(content_type("styles.css"), "text/css; charset=utf-8");
    assert_eq!(content_type("img/logo.JPEG"), "application/octet-stream");
    assert_eq!(content_type("img/logo.jpeg"), "image/jpeg");
    assert_eq!(content_type(".hidden"), "application/octet-stream");
    assert_eq!(content_type("notes.md"), "text/plain; charset=utf-8");
    assert!(not_found_page("/<x>").contains("<code>/&lt;x&gt;</code>"));
    assert!(error_page("a < b").contains("<pre style=\"white-space:pre-wrap;color:#ff8888\">a &lt; b</pre>"));
}

#[test]
fn values_are_described_as_debug_writes_them() {
    assert_eq!(debug_text(&Value::Str("a\"b\\c\n".to_string())), r#"Str("a\"b\\c\n")"#);
    assert_eq!(debug_text(&Value::Number(-7)), "Number(-7.0)");
    assert_eq!(
        debug_text(&Value::Tagged("Note".to_string(), Box::new(Value::List(vec![Value::Nil, Value::Bool(false)])))),
        r#"Tagged("Note", List([Nil, Bool(false)]))"#
    );
    assert_eq!(debug_text(&Value::Dict(Vec::new())), "Map({})");
}

fn reply_of(a: ExchangeAction) -> (String, String, String) {
    match a {
        ExchangeAction::Reply { status, content_type, body } => (status, content_type, body),
        _ => panic!("expected a reply"),
    }
}

#[test]
fn an_exchange_rebuilds_then_serves_the_file() {
    let (st, act) = exchange(Exchange::Start, ExchangeEvent::RequestLine("GET /about/ HTTP/1.1\r\n".to_string()));
    assert!(matches!(act, ExchangeAction::Rebuild));
    let (st, act) = exchange(st, ExchangeEvent::Built(None));
    assert!(matches!(&act, ExchangeAction::Look { rel } if rel == "about/index.html"));
    let (st, act) = exchange(st, ExchangeEvent::Found(true));
    assert!(matches!(st, Exchange::Done));
    match act {
        ExchangeAction::SendFile { rel, content_type: ct } => {
            assert_eq!(rel, "about/index.html");
            assert_eq!(ct, content_type("about/index.html"));
        }
        _ => panic!("expected the file"),
    }
}

#[test]
fn an_exchange_refuses_errors_and_misses() {
    let (_, act) = exchange(Exchange::Start, ExchangeEvent::RequestLine("POST / HTTP/1.1\r\n".to_string()));
    assert_eq!(
        reply_of(act),
        (
            "405 Method Not Allowed".to_string(),
            "text/plain; charset=utf-8".to_string(),
            "only GET here, this is a toy".to_string()
        )
    );
    let (st, _) = exchange(Exchange::Start, ExchangeEvent::RequestLine("GET /x HTTP/1.1\r\n".to_string()));
    let (st2, act) = exchange(st, ExchangeEvent::Built(Some("boom <here>".to_string())));
    assert!(matches!(st2, Exchange::Done));
    let (status, ct, body) = reply_of(act);
    assert_eq!(status, "500 Internal Server Error");
    assert_eq!(ct, "text/html; charset=utf-8");
    assert_eq!(body, error_page("boom <here>"));
    let (st, _) = exchange(Exchange::Start, ExchangeEvent::RequestLine("GET /missing HTTP/1.1\r\n".to_string()));
    let (st, _) = exchange(st, ExchangeEvent::Built(None));
    let (_, act) = exchange(st, ExchangeEvent::Found(false));
    let (status, _, body) = reply_of(act);
    assert_eq!(status, "404 Not Found");
    assert_eq!(body, not_found_page("/missing"));
    let (st, _) = exchange(Exchange::Start, ExchangeEvent::RequestLine("GET /../etc HTTP/1.1\r\n".to_string()));
    let (_, act) = exchange(st, ExchangeEvent::Built(None));
    assert_eq!(reply_of(act).0, "404 Not Found");
    let (st, act) = exchange(Exchange::Start, ExchangeEvent::RequestLine(String::new()));
    assert!(matches!(st, Exchange::Done) && matches!(act, ExchangeAction::Close));
}

#[test]
fn heading_anchors_in_the_html_are_the_table_of_contents_ids() {
    let f = SourceFile { path: "content/d.md".to_string(), front: FrontMatter::Absent, body: "# A\n\ntext\n\n# A\n\n## A 1\n".to_string() };
    let fields = match markdown_value(&f, "d.md") {
        Ok(Value::Dict(m)) => m,
        _ => panic!("expected a dictionary"),
    };
    let get = |k: &str| fields.iter().find(|(name, _)| name == k).map(|(_, v)| v.clone());
    let html = match get("html") {
        Some(Value::Str(h)) => h,
        _ => panic!("expected html"),
    };
    assert!(html.contains(r#"<h1 id="a">A</h1>"#), "{html}");
    assert!(html.contains(r#"<h1 id="a-1">A</h1>"#), "{html}");
    assert!(html.contains(r#"<h2 id="a-1-1">A 1</h2>"#), "{html}");
    let ids: Vec<String> = match get("headings") {
        Some(Value::List(hs)) => hs
            .iter()
            .map(|h| match h {
                Value::Dict(m) => match m.iter().find(|(k, _)| k == "id") {
                    Some((_, Value::Str(s))) => s.clone(),
                    _ => panic!("no id"),
                },
                _ => panic!("not a dictionary"),
            })
            .collect(),
        _ => panic!("expected headings"),
    };
    assert_eq!(ids, vec!["a", "a-1", "a-1-1"]);
}

#[test]
fn a_missing_response_is_fetched_once_then_the_build_fails() {
    let e = BuildError::Evaluate {
        file: "pages/index.nono".to_string(),
        error: EvalError::Fetch("https://example.com/a".to_string()),
    };
    assert!(matches!(after_failure(&e, &Vec::new()), Retry::Fetch(u) if u == "https://example.com/a"));
    match after_failure(&e, &vec!["https://example.com/a".to_string()]) {
        Retry::Fail(m) => assert_eq!(m, e.message()),
        Retry::Fetch(_) => panic!("fetched twice"),
    }
    let other = BuildError::Evaluate { file: "pages/index.nono".to_string(), error: EvalError::TooDeep };
    assert!(matches!(after_failure(&other, &Vec::new()), Retry::Fail(m) if m == other.message()));
}

#[test]
fn the_bundled_standard_library_parses() {
    assert!(parse(nono::site::STD_SOURCE).is_ok());
}
