//! The HTML output tree and its serialiser.
//!
//! Evaluation produces a `Vec<Html>`; this module turns that into a string.
//! By the time we serialise, the tree contains only real HTML elements, text,
//! raw HTML and hoisted regions.

use vstd::prelude::*;
use crate::text::{chars_of, push_str, push_chars, string_from_chars, str_eq};

verus! {

#[derive(Debug)]
pub enum Html {
    /// Escaped text content.
    Text(String),
    /// Pre-rendered raw HTML (e.g. markdown output). NOT escaped.
    Raw(String),
    Element { tag: String, attrs: Vec<(String, String)>, children: Vec<Html> },
    /// Content that belongs to a named document region (`head`) rather than
    /// where it sits in the tree. `extract_hoists` gathers them, in document
    /// order, before serialisation, so they never reach the body.
    Hoist { region: String, children: Vec<Html> },
}

/// The mathematical model of an `Html` node.
pub enum VHtml {
    Text(Seq<char>),
    Raw(Seq<char>),
    Element { tag: Seq<char>, attrs: Seq<(Seq<char>, Seq<char>)>, children: Seq<VHtml> },
    Hoist { region: Seq<char>, children: Seq<VHtml> },
}

pub open spec fn view_attrs(a: Seq<(String, String)>) -> Seq<(Seq<char>, Seq<char>)> {
    Seq::new(a.len(), |i: int| (a[i].0@, a[i].1@))
}

pub open spec fn view_html(h: Html) -> VHtml
    decreases h,
{
    match h {
        Html::Text(s) => VHtml::Text(s@),
        Html::Raw(s) => VHtml::Raw(s@),
        Html::Element { tag, attrs, children } => VHtml::Element {
            tag: tag@,
            attrs: view_attrs(attrs@),
            children: view_htmls(children@),
        },
        Html::Hoist { region, children } => VHtml::Hoist { region: region@, children: view_htmls(children@) },
    }
}

pub open spec fn view_htmls(s: Seq<Html>) -> Seq<VHtml>
    decreases s,
{
    if s.len() == 0 {
        Seq::empty()
    } else {
        view_htmls(s.drop_last()).push(view_html(s.last()))
    }
}

impl View for Html {
    type V = VHtml;

    open spec fn view(&self) -> VHtml {
        view_html(*self)
    }
}

pub proof fn lemma_view_htmls(s: Seq<Html>)
    ensures
        view_htmls(s).len() == s.len(),
        forall|i: int| 0 <= i < s.len() ==> #[trigger] view_htmls(s)[i] == view_html(s[i]),
    decreases s.len(),
{
    if s.len() > 0 {
        lemma_view_htmls(s.drop_last());
    }
}

pub proof fn lemma_view_htmls_push(s: Seq<Html>, x: Html)
    ensures
        view_htmls(s.push(x)) == view_htmls(s).push(view_html(x)),
{
    assert(s.push(x).drop_last() =~= s);
}

pub proof fn lemma_view_htmls_add(s: Seq<Html>, t: Seq<Html>)
    ensures
        view_htmls(s + t) == view_htmls(s) + view_htmls(t),
    decreases t.len(),
{
    if t.len() == 0 {
        assert(s + t =~= s);
        assert(view_htmls(s) + view_htmls(t) =~= view_htmls(s));
    } else {
        assert((s + t).drop_last() =~= s + t.drop_last());
        lemma_view_htmls_add(s, t.drop_last());
        assert(view_htmls(s) + view_htmls(t) =~= (view_htmls(s) + view_htmls(t.drop_last())).push(view_html(t.last())));
    }
}

// ---- escaping ----

pub open spec fn escape_text_char(c: char) -> Seq<char> {
    if c == '&' {
        "&amp;"@
    } else if c == '<' {
        "&lt;"@
    } else if c == '>' {
        "&gt;"@
    } else {
        seq![c]
    }
}

pub open spec fn escape_attr_char(c: char) -> Seq<char> {
    if c == '&' {
        "&amp;"@
    } else if c == '"' {
        "&quot;"@
    } else if c == '<' {
        "&lt;"@
    } else if c == '>' {
        "&gt;"@
    } else {
        seq![c]
    }
}

/// Text content with `&`, `<` and `>` replaced by entities.
pub open spec fn escape_text(s: Seq<char>) -> Seq<char>
    decreases s.len(),
{
    if s.len() == 0 {
        Seq::empty()
    } else {
        escape_text(s.drop_last()) + escape_text_char(s.last())
    }
}

/// An attribute value with `&`, `"`, `<` and `>` replaced by entities.
pub open spec fn escape_attr(s: Seq<char>) -> Seq<char>
    decreases s.len(),
{
    if s.len() == 0 {
        Seq::empty()
    } else {
        escape_attr(s.drop_last()) + escape_attr_char(s.last())
    }
}

pub fn escape_into(s: &str, out: &mut Vec<char>)
    ensures
        final(out)@ == old(out)@ + escape_text(s@),
{
    let cs = chars_of(s);
    let mut i: usize = 0;
    while i < cs.len()
        invariant
            i <= cs.len(),
            cs@ == s@,
            out@ == old(out)@ + escape_text(cs@.take(i as int)),
        decreases cs.len() - i,
    {
        let c = cs[i];
        assert(cs@.take(i + 1).drop_last() =~= cs@.take(i as int));
        if c == '&' {
            push_str(out, "&amp;");
        } else if c == '<' {
            push_str(out, "&lt;");
        } else if c == '>' {
            push_str(out, "&gt;");
        } else {
            out.push(c);
        }
        i = i + 1;
    }
    assert(cs@.take(cs.len() as int) =~= cs@);
}

pub fn escape_attr_into(s: &String, out: &mut Vec<char>)
    ensures
        final(out)@ == old(out)@ + escape_attr(s@),
{
    let cs = chars_of(s.as_str());
    let mut i: usize = 0;
    while i < cs.len()
        invariant
            i <= cs.len(),
            cs@ == s@,
            out@ == old(out)@ + escape_attr(cs@.take(i as int)),
        decreases cs.len() - i,
    {
        let c = cs[i];
        assert(cs@.take(i + 1).drop_last() =~= cs@.take(i as int));
        if c == '&' {
            push_str(out, "&amp;");
        } else if c == '"' {
            push_str(out, "&quot;");
        } else if c == '<' {
            push_str(out, "&lt;");
        } else if c == '>' {
            push_str(out, "&gt;");
        } else {
            out.push(c);
        }
        i = i + 1;
    }
    assert(cs@.take(cs.len() as int) =~= cs@);
}

/// Law: escaped text holds no `<` or `>`, so text content can never open or
/// close markup.
pub proof fn lemma_escape_text_no_markup(s: Seq<char>)
    ensures
        forall|i: int| 0 <= i < escape_text(s).len() ==> #[trigger] escape_text(s)[i] != '<' && escape_text(s)[i] != '>',
    decreases s.len(),
{
    reveal_strlit("&amp;");
    reveal_strlit("&lt;");
    reveal_strlit("&gt;");
    if s.len() > 0 {
        lemma_escape_text_no_markup(s.drop_last());
        let a = escape_text(s.drop_last());
        let b = escape_text_char(s.last());
        assert(escape_text(s) == a + b);
        assert forall|i: int| 0 <= i < (a + b).len() implies #[trigger] (a + b)[i] != '<' && (a + b)[i] != '>' by {
            if i < a.len() {
                assert((a + b)[i] == a[i]);
            } else {
                assert((a + b)[i] == b[i - a.len()]);
            }
        }
    }
}

/// Law: an escaped attribute value holds no `"`, `<` or `>`, so it can never
/// end its attribute or open markup.
pub proof fn lemma_escape_attr_closed(s: Seq<char>)
    ensures
        forall|i: int|
            0 <= i < escape_attr(s).len() ==> #[trigger] escape_attr(s)[i] != '"' && escape_attr(s)[i] != '<'
                && escape_attr(s)[i] != '>',
    decreases s.len(),
{
    reveal_strlit("&amp;");
    reveal_strlit("&quot;");
    reveal_strlit("&lt;");
    reveal_strlit("&gt;");
    if s.len() > 0 {
        lemma_escape_attr_closed(s.drop_last());
        let a = escape_attr(s.drop_last());
        let b = escape_attr_char(s.last());
        assert(escape_attr(s) == a + b);
        assert forall|i: int|
            0 <= i < (a + b).len() implies #[trigger] (a + b)[i] != '"' && (a + b)[i] != '<' && (a + b)[i] != '>' by {
            if i < a.len() {
                assert((a + b)[i] == a[i]);
            } else {
                assert((a + b)[i] == b[i - a.len()]);
            }
        }
    }
}

/// HTML-escape a string (text-content rules).
pub fn escape(s: &String) -> (r: String)
    ensures
        r@ == escape_text(s@),
{
    let mut out: Vec<char> = Vec::new();
    escape_into(s.as_str(), &mut out);
    string_from_chars(&out)
}

// ---- void elements and known tags ----

/// HTML void elements, which must not have a closing tag.
pub open spec fn void_tag(t: Seq<char>) -> bool {
    ||| t == "area"@
    ||| t == "base"@
    ||| t == "br"@
    ||| t == "col"@
    ||| t == "embed"@
    ||| t == "hr"@
    ||| t == "img"@
    ||| t == "input"@
    ||| t == "link"@
    ||| t == "meta"@
    ||| t == "param"@
    ||| t == "source"@
    ||| t == "track"@
    ||| t == "wbr"@
}

/// Whether `tag` is a void element.
pub fn is_void(tag: &str) -> (r: bool)
    ensures
        r == void_tag(tag@),
{
    str_eq(tag, "area") || str_eq(tag, "base") || str_eq(tag, "br") || str_eq(tag, "col")
        || str_eq(tag, "embed") || str_eq(tag, "hr") || str_eq(tag, "img") || str_eq(tag, "input")
        || str_eq(tag, "link") || str_eq(tag, "meta") || str_eq(tag, "param") || str_eq(
        tag,
        "source",
    ) || str_eq(tag, "track") || str_eq(tag, "wbr")
}

/// The lowercase names treated as real HTML elements. Capitalised names are
/// components and never reach serialisation.
pub open spec fn html_tag_names() -> Seq<&'static str> {
    seq![
        "html", "head", "body", "title", "meta", "link", "style", "script", "div", "span", "p",
        "a", "img", "ul", "ol", "li", "nav", "header", "footer", "main", "article", "section",
        "aside", "h1", "h2", "h3", "h4", "h5", "h6", "time", "br", "hr", "em", "strong", "code",
        "pre", "blockquote", "figure", "figcaption", "table", "thead", "tbody", "tr", "td", "th",
        "small", "button", "label", "input",
    ]
}

/// Whether `t` names a known HTML element.
pub open spec fn known_tag(t: Seq<char>) -> bool {
    exists|i: int| 0 <= i < html_tag_names().len() && #[trigger] html_tag_names()[i]@ == t
}

/// The set of lowercase names we treat as real HTML elements.
pub fn known_html_tags() -> (r: Vec<&'static str>)
    ensures
        r@ == html_tag_names(),
{
    let r = vec![
        "html", "head", "body", "title", "meta", "link", "style", "script", "div", "span", "p",
        "a", "img", "ul", "ol", "li", "nav", "header", "footer", "main", "article", "section",
        "aside", "h1", "h2", "h3", "h4", "h5", "h6", "time", "br", "hr", "em", "strong", "code",
        "pre", "blockquote", "figure", "figcaption", "table", "thead", "tbody", "tr", "td", "th",
        "small", "button", "label", "input",
    ];
    assert(r@ =~= html_tag_names());
    r
}

/// Whether `name` is one of the known HTML element names.
pub fn is_known_tag(name: &str) -> (r: bool)
    ensures
        r == known_tag(name@),
{
    let tags = known_html_tags();
    let mut i: usize = 0;
    while i < tags.len()
        invariant
            i <= tags.len(),
            tags@ == html_tag_names(),
            forall|j: int| 0 <= j < i ==> html_tag_names()[j]@ != name@,
        decreases tags.len() - i,
    {
        if str_eq(tags[i], name) {
            return true;
        }
        i = i + 1;
    }
    false
}


// ---- serialisation ----

pub open spec fn render_attrs(a: Seq<(Seq<char>, Seq<char>)>) -> Seq<char>
    decreases a.len(),
{
    if a.len() == 0 {
        Seq::empty()
    } else {
        render_attrs(a.drop_last()) + " "@ + a.last().0 + "=\""@ + escape_attr(a.last().1) + "\""@
    }
}

/// The serialised form of one node. Hoists that survive to serialisation have
/// no home and render as nothing.
pub open spec fn render_node(n: VHtml) -> Seq<char>
    decreases n,
{
    match n {
        VHtml::Text(t) => escape_text(t),
        VHtml::Raw(r) => r,
        VHtml::Hoist { .. } => Seq::empty(),
        VHtml::Element { tag, attrs, children } => if void_tag(tag) {
            "<"@ + tag + render_attrs(attrs) + " />"@
        } else {
            "<"@ + tag + render_attrs(attrs) + ">"@ + render_seq(children) + "</"@ + tag + ">"@
        },
    }
}

/// The serialised form of a node list: its nodes' forms, concatenated.
pub open spec fn render_seq(ns: Seq<VHtml>) -> Seq<char>
    decreases ns,
{
    if ns.len() == 0 {
        Seq::empty()
    } else {
        render_seq(ns.drop_last()) + render_node(ns.last())
    }
}

fn render_attrs_into(attrs: &Vec<(String, String)>, out: &mut Vec<char>)
    ensures
        final(out)@ == old(out)@ + render_attrs(view_attrs(attrs@)),
{
    let mut i: usize = 0;
    while i < attrs.len()
        invariant
            i <= attrs.len(),
            out@ == old(out)@ + render_attrs(view_attrs(attrs@.take(i as int))),
        decreases attrs.len() - i,
    {
        assert(view_attrs(attrs@.take(i + 1)).drop_last() =~= view_attrs(attrs@.take(i as int)));
        out.push(' ');
        let k = chars_of(attrs[i].0.as_str());
        push_chars(out, &k);
        push_str(out, "=\"");
        escape_attr_into(&attrs[i].1, out);
        push_str(out, "\"");
        i = i + 1;
        proof {
            reveal_strlit(" ");
        }
    }
    assert(attrs@.take(attrs.len() as int) =~= attrs@);
}

fn render_node_into(node: &Html, out: &mut Vec<char>)
    ensures
        final(out)@ == old(out)@ + render_node(node@),
    decreases node,
{
    match node {
        Html::Text(t) => escape_into(t.as_str(), out),
        Html::Raw(r) => {
            let cs = chars_of(r.as_str());
            push_chars(out, &cs);
        },
        Html::Hoist { .. } => {
            assert(old(out)@ + Seq::<char>::empty() =~= old(out)@);
        },
        Html::Element { tag, attrs, children } => {
            push_str(out, "<");
            let tc = chars_of(tag.as_str());
            push_chars(out, &tc);
            render_attrs_into(attrs, out);
            if is_void(tag.as_str()) {
                push_str(out, " />");
                return;
            }
            push_str(out, ">");
            render_seq_into(children, out);
            push_str(out, "</");
            push_chars(out, &tc);
            push_str(out, ">");
        },
    }
}

fn render_seq_into(nodes: &Vec<Html>, out: &mut Vec<char>)
    ensures
        final(out)@ == old(out)@ + render_seq(view_htmls(nodes@)),
    decreases nodes,
{
    let mut i: usize = 0;
    while i < nodes.len()
        invariant
            i <= nodes.len(),
            out@ == old(out)@ + render_seq(view_htmls(nodes@.take(i as int))),
        decreases nodes.len() - i,
    {
        proof {
            assert(decreases_to!(nodes => nodes@));
            assert(decreases_to!(nodes@ => nodes@[i as int]));
            lemma_view_htmls_push(nodes@.take(i as int), nodes@[i as int]);
            assert(nodes@.take(i + 1) =~= nodes@.take(i as int).push(nodes@[i as int]));
        }
        render_node_into(&nodes[i], out);
        assert(view_htmls(nodes@.take(i + 1)).drop_last() =~= view_htmls(nodes@.take(i as int)));
        i = i + 1;
    }
    assert(nodes@.take(nodes.len() as int) =~= nodes@);
}

/// Serialise a node list to HTML.
pub fn render(nodes: &Vec<Html>) -> (r: String)
    ensures
        r@ == render_seq(view_htmls(nodes@)),
{
    let mut out: Vec<char> = Vec::new();
    render_seq_into(nodes, &mut out);
    string_from_chars(&out)
}


// ---- hoisting ----

/// A node with every hoist removed, at any depth.
pub open spec fn strip_one(n: VHtml) -> Seq<VHtml>
    decreases n,
{
    match n {
        VHtml::Hoist { .. } => Seq::empty(),
        VHtml::Element { tag, attrs, children } => seq![
            VHtml::Element { tag, attrs, children: strip(children) },
        ],
        other => seq![other],
    }
}

/// A node list with every hoist removed, at any depth.
pub open spec fn strip(ns: Seq<VHtml>) -> Seq<VHtml>
    decreases ns,
{
    if ns.len() == 0 {
        Seq::empty()
    } else {
        strip(ns.drop_last()) + strip_one(ns.last())
    }
}

/// The hoisted pieces of one node, in document order: a hoist first names its
/// region (so an empty hoist still creates it), then each of its children in
/// turn contributes its hoist-free self to that region, followed by the pieces
/// of the hoists nested in it.
pub open spec fn hoist_events_one(n: VHtml) -> Seq<(Seq<char>, Seq<VHtml>)>
    decreases n,
{
    match n {
        VHtml::Hoist { region, children } => seq![(region, Seq::<VHtml>::empty())] + hoist_pieces(region, children),
        VHtml::Element { children, .. } => hoist_events(children),
        _ => Seq::empty(),
    }
}

/// The pieces of the children `ns` of a hoist into region `r`, in document
/// order.
pub open spec fn hoist_pieces(r: Seq<char>, ns: Seq<VHtml>) -> Seq<(Seq<char>, Seq<VHtml>)>
    decreases ns,
{
    if ns.len() == 0 {
        Seq::empty()
    } else {
        hoist_pieces(r, ns.drop_last()) + hoist_piece(r, ns.last())
    }
}

/// The pieces of one child `c` of a hoist into region `r`: a nested hoist
/// gives its own pieces; any other node goes to `r` with its hoists removed,
/// and the hoists inside it follow.
pub open spec fn hoist_piece(r: Seq<char>, c: VHtml) -> Seq<(Seq<char>, Seq<VHtml>)>
    decreases c,
{
    match c {
        VHtml::Hoist { region, children } => seq![(region, Seq::<VHtml>::empty())] + hoist_pieces(region, children),
        VHtml::Element { children, .. } => seq![(r, strip_one(c))] + hoist_events(children),
        _ => seq![(r, strip_one(c))],
    }
}

/// The hoisted pieces of a node list, in document order.
pub open spec fn hoist_events(ns: Seq<VHtml>) -> Seq<(Seq<char>, Seq<VHtml>)>
    decreases ns,
{
    if ns.len() == 0 {
        Seq::empty()
    } else {
        hoist_events(ns.drop_last()) + hoist_events_one(ns.last())
    }
}

/// The first index of a region named `r`, if any.
pub open spec fn region_index(regs: Seq<(Seq<char>, Seq<VHtml>)>, r: Seq<char>) -> int
    decreases regs.len(),
{
    if regs.len() == 0 {
        -1
    } else if regs[0].0 == r {
        0
    } else {
        let k = region_index(regs.drop_first(), r);
        if k < 0 {
            -1
        } else {
            k + 1
        }
    }
}

/// Gathering one hoist: its content extends its region, which is created at the
/// end of the list the first time it is seen.
pub open spec fn add_to_region(regs: Seq<(Seq<char>, Seq<VHtml>)>, e: (Seq<char>, Seq<VHtml>)) -> Seq<(Seq<char>, Seq<VHtml>)> {
    let i = region_index(regs, e.0);
    if i < 0 {
        regs.push(e)
    } else {
        regs.update(i, (e.0, regs[i].1 + e.1))
    }
}

pub open spec fn add_all_to_regions(regs: Seq<(Seq<char>, Seq<VHtml>)>, es: Seq<(Seq<char>, Seq<VHtml>)>) -> Seq<(Seq<char>, Seq<VHtml>)>
    decreases es.len(),
{
    if es.len() == 0 {
        regs
    } else {
        add_to_region(add_all_to_regions(regs, es.drop_last()), es.last())
    }
}

pub open spec fn view_regions(regs: Seq<(String, Vec<Html>)>) -> Seq<(Seq<char>, Seq<VHtml>)> {
    Seq::new(regs.len(), |i: int| (regs[i].0@, view_htmls(regs[i].1@)))
}

pub proof fn lemma_add_all_concat(regs: Seq<(Seq<char>, Seq<VHtml>)>, a: Seq<(Seq<char>, Seq<VHtml>)>, b: Seq<(Seq<char>, Seq<VHtml>)>)
    ensures
        add_all_to_regions(regs, a + b) == add_all_to_regions(add_all_to_regions(regs, a), b),
    decreases b.len(),
{
    if b.len() == 0 {
        assert(a + b =~= a);
    } else {
        assert((a + b).drop_last() =~= a + b.drop_last());
        lemma_add_all_concat(regs, a, b.drop_last());
    }
}

proof fn lemma_region_index(regs: Seq<(Seq<char>, Seq<VHtml>)>, r: Seq<char>)
    ensures
        -1 <= region_index(regs, r) < regs.len(),
        region_index(regs, r) >= 0 ==> regs[region_index(regs, r)].0 == r,
        region_index(regs, r) >= 0 ==> forall|j: int| 0 <= j < region_index(regs, r) ==> regs[j].0 != r,
        region_index(regs, r) < 0 ==> forall|j: int| 0 <= j < regs.len() ==> regs[j].0 != r,
    decreases regs.len(),
{
    if regs.len() > 0 {
        lemma_region_index(regs.drop_first(), r);
        assert forall|j: int| 0 < j < regs.len() implies regs[j] == regs.drop_first()[j - 1] by {}
    }
}

fn find_region(regions: &Vec<(String, Vec<Html>)>, r: &String) -> (idx: Option<usize>)
    ensures
        match idx {
            Some(i) => i as int == region_index(view_regions(regions@), r@),
            None => region_index(view_regions(regions@), r@) < 0,
        },
{
    proof {
        lemma_region_index(view_regions(regions@), r@);
    }
    let mut i: usize = 0;
    while i < regions.len()
        invariant
            i <= regions.len(),
            forall|j: int| 0 <= j < i ==> view_regions(regions@)[j].0 != r@,
        decreases regions.len() - i,
    {
        if regions[i].0 == *r {
            proof {
                let vr = view_regions(regions@);
                lemma_region_index(vr, r@);
                assert(vr[i as int].0 == r@);
                let ri = region_index(vr, r@);
                if ri < i {
                    if ri >= 0 {
                        assert(vr[ri].0 == r@);
                    }
                } else if ri > i {
                    assert(vr[i as int].0 != r@);
                }
            }
            return Some(i);
        }
        i = i + 1;
    }
    None
}

fn add_region(regions: &mut Vec<(String, Vec<Html>)>, r: String, content: Vec<Html>)
    ensures
        view_regions(final(regions)@) == add_to_region(view_regions(old(regions)@), (r@, view_htmls(content@))),
{
    proof {
        lemma_region_index(view_regions(regions@), r@);
    }
    match find_region(regions, &r) {
        None => {
            regions.push((r, content));
            assert(view_regions(regions@) =~= view_regions(old(regions)@).push((r@, view_htmls(content@))));
        },
        Some(i) => {
            let (name, mut existing) = regions.remove(i);
            let ghost before = existing@;
            let ghost c0 = content@;
            let mut content = content;
            existing.append(&mut content);
            proof {
                lemma_view_htmls_add(before, c0);
            }
            regions.insert(i, (name, existing));
            assert(view_regions(regions@) =~= view_regions(old(regions)@).update(
                i as int,
                (r@, view_regions(old(regions)@)[i as int].1 + view_htmls(c0)),
            ));
        },
    }
}


proof fn lemma_strip_events_push(s: Seq<Html>, x: Html)
    ensures
        strip(view_htmls(s.push(x))) == strip(view_htmls(s)) + strip_one(view_html(x)),
        hoist_events(view_htmls(s.push(x))) == hoist_events(view_htmls(s)) + hoist_events_one(view_html(x)),
{
    lemma_view_htmls_push(s, x);
    assert(view_htmls(s.push(x)).drop_last() =~= view_htmls(s));
}

proof fn lemma_pieces_push(r: Seq<char>, s: Seq<Html>, x: Html)
    ensures
        hoist_pieces(r, view_htmls(s.push(x))) == hoist_pieces(r, view_htmls(s)) + hoist_piece(r, view_html(x)),
{
    lemma_view_htmls_push(s, x);
    assert(view_htmls(s.push(x)).drop_last() =~= view_htmls(s));
}

/// A one-node piece for region `r`.
fn single_piece(r: &String, node: Html) -> (p: (String, Vec<Html>))
    ensures
        p.0@ == r@,
        view_htmls(p.1@) == seq![view_html(node)],
{
    let mut v: Vec<Html> = Vec::new();
    proof {
        lemma_view_htmls_push(v@, node);
    }
    v.push(node);
    assert(view_htmls(v@) =~= seq![view_html(v@[0])]);
    (r.clone(), v)
}

fn push_event(events: &mut Vec<(String, Vec<Html>)>, e: (String, Vec<Html>))
    ensures
        view_regions(final(events)@) == view_regions(old(events)@).push((e.0@, view_htmls(e.1@))),
{
    events.push(e);
    assert(view_regions(events@) =~= view_regions(old(events)@).push((e.0@, view_htmls(e.1@))));
}

fn append_events(events: &mut Vec<(String, Vec<Html>)>, more: Vec<(String, Vec<Html>)>)
    ensures
        view_regions(final(events)@) == view_regions(old(events)@) + view_regions(more@),
{
    let mut more = more;
    let ghost m = more@;
    events.append(&mut more);
    assert(view_regions(events@) =~= view_regions(old(events)@) + view_regions(m));
}

/// Gather the hoisted pieces of `nodes`, which sit in the body, onto `events`
/// and their hoist-free remainder onto `body`.
#[verifier::loop_isolation(false)]
fn gather_hoists(nodes: Vec<Html>, events: &mut Vec<(String, Vec<Html>)>, body: &mut Vec<Html>)
    ensures
        view_htmls(final(body)@) == view_htmls(old(body)@) + strip(view_htmls(nodes@)),
        view_regions(final(events)@) == view_regions(old(events)@) + hoist_events(view_htmls(nodes@)),
    decreases nodes,
{
    let ghost orig = nodes@;
    let ghost orig_vec = nodes;
    let mut rest = nodes;
    let ghost mut k: int = 0;
    assert(orig.take(0) =~= Seq::<Html>::empty());
    assert(view_htmls(old(body)@) + strip(view_htmls(orig.take(0))) =~= view_htmls(old(body)@));
    assert(view_regions(old(events)@) + hoist_events(view_htmls(orig.take(0))) =~= view_regions(old(events)@));
    while rest.len() > 0
        invariant
            0 <= k <= orig.len(),
            rest@ == orig.skip(k),
            view_htmls(body@) == view_htmls(old(body)@) + strip(view_htmls(orig.take(k))),
            view_regions(events@) == view_regions(old(events)@) + hoist_events(view_htmls(orig.take(k))),
        decreases rest.len(),
    {
        let node = rest.remove(0);
        assert(node == orig[k]);
        proof {
            assert(decreases_to!(orig_vec => orig_vec@));
            assert(decreases_to!(orig_vec@ => orig[k]));
            lemma_strip_events_push(orig.take(k), node);
            assert(orig.take(k + 1) =~= orig.take(k).push(node));
            assert(rest@ =~= orig.skip(k + 1));
        }
        let ghost ev0 = view_regions(events@);
        let ghost vn = view_html(node);
        match node {
            Html::Hoist { region, children } => {
                let empty: Vec<Html> = Vec::new();
                assert(view_htmls(empty@) =~= Seq::<VHtml>::empty());
                push_event(events, (region.clone(), empty));
                gather_pieces(&region, children, events);
                assert(view_regions(events@) =~= ev0 + hoist_events_one(vn));
                assert(strip_one(vn) =~= Seq::<VHtml>::empty());
                assert(view_htmls(body@) + Seq::<VHtml>::empty() =~= view_htmls(body@));
            },
            Html::Element { tag, attrs, children } => {
                let mut inner: Vec<Html> = Vec::new();
                gather_hoists(children, events, &mut inner);
                assert(view_htmls(Seq::<Html>::empty()) + strip(view_htmls(children@)) =~= strip(view_htmls(children@)));
                let el = Html::Element { tag, attrs, children: inner };
                proof {
                    lemma_view_htmls_push(body@, el);
                }
                body.push(el);
            },
            other => {
                proof {
                    lemma_view_htmls_push(body@, other);
                    assert(hoist_events_one(view_html(other)) =~= Seq::<(Seq<char>, Seq<VHtml>)>::empty());
                }
                body.push(other);
            },
        }
        assert(view_regions(events@) =~= view_regions(old(events)@) + hoist_events(view_htmls(orig.take(k + 1))));
        proof {
            k = k + 1;
        }
    }
    assert(orig.take(k) =~= orig);
}

/// Gather the pieces of `nodes`, the children of a hoist into region `r`,
/// onto `events`.
#[verifier::loop_isolation(false)]
fn gather_pieces(r: &String, nodes: Vec<Html>, events: &mut Vec<(String, Vec<Html>)>)
    ensures
        view_regions(final(events)@) == view_regions(old(events)@) + hoist_pieces(r@, view_htmls(nodes@)),
    decreases nodes,
{
    let ghost orig = nodes@;
    let ghost orig_vec = nodes;
    let mut rest = nodes;
    let ghost mut k: int = 0;
    assert(orig.take(0) =~= Seq::<Html>::empty());
    assert(view_regions(old(events)@) + hoist_pieces(r@, view_htmls(orig.take(0))) =~= view_regions(old(events)@));
    while rest.len() > 0
        invariant
            0 <= k <= orig.len(),
            rest@ == orig.skip(k),
            view_regions(events@) == view_regions(old(events)@) + hoist_pieces(r@, view_htmls(orig.take(k))),
        decreases rest.len(),
    {
        let node = rest.remove(0);
        assert(node == orig[k]);
        proof {
            assert(decreases_to!(orig_vec => orig_vec@));
            assert(decreases_to!(orig_vec@ => orig[k]));
            lemma_pieces_push(r@, orig.take(k), node);
            assert(orig.take(k + 1) =~= orig.take(k).push(node));
            assert(rest@ =~= orig.skip(k + 1));
        }
        let ghost ev0 = view_regions(events@);
        let ghost vn = view_html(node);
        match node {
            Html::Hoist { region, children } => {
                let empty: Vec<Html> = Vec::new();
                assert(view_htmls(empty@) =~= Seq::<VHtml>::empty());
                push_event(events, (region.clone(), empty));
                gather_pieces(&region, children, events);
                assert(view_regions(events@) =~= ev0 + hoist_piece(r@, vn));
            },
            Html::Element { tag, attrs, children } => {
                let mut inner: Vec<Html> = Vec::new();
                let mut nested: Vec<(String, Vec<Html>)> = Vec::new();
                gather_hoists(children, &mut nested, &mut inner);
                assert(view_htmls(Seq::<Html>::empty()) + strip(view_htmls(children@)) =~= strip(view_htmls(children@)));
                assert(view_regions(Seq::<(String, Vec<Html>)>::empty()) + hoist_events(view_htmls(children@))
                    =~= hoist_events(view_htmls(children@)));
                let el = Html::Element { tag, attrs, children: inner };
                let piece = single_piece(r, el);
                assert(view_htmls(piece.1@) =~= strip_one(vn));
                push_event(events, piece);
                append_events(events, nested);
                assert(view_regions(events@) =~= ev0 + hoist_piece(r@, vn));
            },
            other => {
                let piece = single_piece(r, other);
                assert(view_htmls(piece.1@) =~= strip_one(vn));
                push_event(events, piece);
                assert(view_regions(events@) =~= ev0 + hoist_piece(r@, vn));
            },
        }
        assert(view_regions(events@) =~= view_regions(old(events)@) + hoist_pieces(r@, view_htmls(orig.take(k + 1))));
        proof {
            k = k + 1;
        }
    }
    assert(orig.take(k) =~= orig);
}

/// Pull every `Html::Hoist` out of the tree, wherever it sits and however deeply
/// nested, grouping the contents by region name in document order. Returns the
/// regions (each named once, in the order they were first met) and the body
/// with the hoist markers removed.
pub fn extract_hoists(nodes: Vec<Html>) -> (r: (Vec<(String, Vec<Html>)>, Vec<Html>))
    ensures
        view_htmls(r.1@) == strip(view_htmls(nodes@)),
        view_regions(r.0@) == add_all_to_regions(Seq::empty(), hoist_events(view_htmls(nodes@))),
{
    let mut events: Vec<(String, Vec<Html>)> = Vec::new();
    let mut body: Vec<Html> = Vec::new();
    let ghost n = nodes@;
    gather_hoists(nodes, &mut events, &mut body);
    assert(view_htmls(Seq::<Html>::empty()) + strip(view_htmls(n)) =~= strip(view_htmls(n)));
    let ghost evs = view_regions(events@);
    assert(view_regions(Seq::<(String, Vec<Html>)>::empty()) + hoist_events(view_htmls(n)) =~= hoist_events(view_htmls(n)));
    let mut regions: Vec<(String, Vec<Html>)> = Vec::new();
    assert(view_regions(regions@) =~= Seq::empty());
    let mut rest = events;
    let ghost mut k: int = 0;
    assert(evs.take(0) =~= Seq::<(Seq<char>, Seq<VHtml>)>::empty());
    while rest.len() > 0
        invariant
            0 <= k <= evs.len(),
            view_regions(rest@) == evs.skip(k),
            view_regions(regions@) == add_all_to_regions(Seq::empty(), evs.take(k)),
        decreases rest.len(),
    {
        let ghost before = rest@;
        assert(view_regions(before).len() == before.len());
        assert(k < evs.len());
        let (name, content) = rest.remove(0);
        assert(before[0] == (name, content));
        assert(evs[k] == (name@, view_htmls(content@))) by {
            assert(view_regions(before)[0] == (before[0].0@, view_htmls(before[0].1@)));
            assert(view_regions(before)[0] == evs.skip(k)[0]);
        }
        add_region(&mut regions, name, content);
        assert(evs.take(k + 1).drop_last() =~= evs.take(k));
        assert(view_regions(rest@) =~= evs.skip(k + 1)) by {
            assert(view_regions(rest@) =~= view_regions(before).drop_first());
        }
        proof {
            k = k + 1;
        }
    }
    assert(evs.take(k) =~= evs);
    (regions, body)
}


/// Whether no hoist appears anywhere in a node list.
pub open spec fn hoist_free(ns: Seq<VHtml>) -> bool
    decreases ns,
{
    forall|i: int|
        0 <= i < ns.len() ==> match #[trigger] ns[i] {
            VHtml::Hoist { .. } => false,
            VHtml::Element { children, .. } => hoist_free(children),
            _ => true,
        }
}

proof fn lemma_hoist_free_concat(a: Seq<VHtml>, b: Seq<VHtml>)
    requires
        hoist_free(a),
        hoist_free(b),
    ensures
        hoist_free(a + b),
{
    assert forall|i: int| 0 <= i < (a + b).len() implies match #[trigger] (a + b)[i] {
        VHtml::Hoist { .. } => false,
        VHtml::Element { children, .. } => hoist_free(children),
        _ => true,
    } by {
        if i < a.len() {
            assert((a + b)[i] == a[i]);
        } else {
            assert((a + b)[i] == b[i - a.len()]);
        }
    }
}

/// Law: once hoists are extracted, none is left in the body, at any depth.
pub proof fn lemma_strip_is_hoist_free(ns: Seq<VHtml>)
    ensures
        hoist_free(strip(ns)),
    decreases ns,
{
    if ns.len() > 0 {
        lemma_strip_is_hoist_free(ns.drop_last());
        let last = ns.last();
        match last {
            VHtml::Element { tag, attrs, children } => {
                lemma_strip_is_hoist_free(children);
                assert(hoist_free(strip_one(last)));
            },
            VHtml::Hoist { .. } => {
                assert(hoist_free(strip_one(last)));
            },
            _ => {
                assert(hoist_free(strip_one(last)));
            },
        }
        lemma_hoist_free_concat(strip(ns.drop_last()), strip_one(last));
    }
}

/// Whether every piece of `es` is hoist-free.
pub open spec fn pieces_clean(es: Seq<(Seq<char>, Seq<VHtml>)>) -> bool {
    forall|k: int| 0 <= k < es.len() ==> hoist_free(#[trigger] es[k].1)
}

proof fn lemma_pieces_clean_concat(a: Seq<(Seq<char>, Seq<VHtml>)>, b: Seq<(Seq<char>, Seq<VHtml>)>)
    requires
        pieces_clean(a),
        pieces_clean(b),
    ensures
        pieces_clean(a + b),
{
    assert forall|k: int| 0 <= k < (a + b).len() implies hoist_free(#[trigger] (a + b)[k].1) by {
        if k < a.len() {
            assert((a + b)[k] == a[k]);
        } else {
            assert((a + b)[k] == b[k - a.len()]);
        }
    }
}

proof fn lemma_strip_one_hoist_free(c: VHtml)
    ensures
        hoist_free(strip_one(c)),
{
    lemma_strip_is_hoist_free(seq![c]);
    let one = seq![c];
    assert(one.drop_last() =~= Seq::<VHtml>::empty());
    assert(one.last() == c);
    assert(strip(Seq::<VHtml>::empty()) == Seq::<VHtml>::empty());
    assert(strip(one) == strip(one.drop_last()) + strip_one(one.last()));
    assert(Seq::<VHtml>::empty() + strip_one(c) =~= strip_one(c));
}

proof fn lemma_events_clean(ns: Seq<VHtml>)
    ensures
        pieces_clean(hoist_events(ns)),
    decreases ns,
{
    if ns.len() > 0 {
        lemma_events_clean(ns.drop_last());
        lemma_event_one_clean(ns.last());
        lemma_pieces_clean_concat(hoist_events(ns.drop_last()), hoist_events_one(ns.last()));
    }
}

proof fn lemma_event_one_clean(n: VHtml)
    ensures
        pieces_clean(hoist_events_one(n)),
    decreases n,
{
    match n {
        VHtml::Hoist { region, children } => {
            lemma_pieces_clean(region, children);
            let head = seq![(region, Seq::<VHtml>::empty())];
            assert(hoist_free(head[0].1));
            lemma_pieces_clean_concat(head, hoist_pieces(region, children));
        },
        VHtml::Element { children, .. } => {
            lemma_events_clean(children);
        },
        _ => {},
    }
}

proof fn lemma_pieces_clean(r: Seq<char>, ns: Seq<VHtml>)
    ensures
        pieces_clean(hoist_pieces(r, ns)),
    decreases ns,
{
    if ns.len() > 0 {
        lemma_pieces_clean(r, ns.drop_last());
        lemma_piece_clean(r, ns.last());
        lemma_pieces_clean_concat(hoist_pieces(r, ns.drop_last()), hoist_piece(r, ns.last()));
    }
}

proof fn lemma_piece_clean(r: Seq<char>, c: VHtml)
    ensures
        pieces_clean(hoist_piece(r, c)),
    decreases c,
{
    lemma_strip_one_hoist_free(c);
    let own = seq![(r, strip_one(c))];
    assert(hoist_free(own[0].1));
    match c {
        VHtml::Hoist { region, children } => {
            lemma_pieces_clean(region, children);
            let head = seq![(region, Seq::<VHtml>::empty())];
            assert(hoist_free(head[0].1));
            lemma_pieces_clean_concat(head, hoist_pieces(region, children));
        },
        VHtml::Element { children, .. } => {
            lemma_events_clean(children);
            lemma_pieces_clean_concat(own, hoist_events(children));
        },
        _ => {},
    }
}

proof fn lemma_add_all_clean(regs: Seq<(Seq<char>, Seq<VHtml>)>, es: Seq<(Seq<char>, Seq<VHtml>)>)
    requires
        pieces_clean(regs),
        pieces_clean(es),
    ensures
        pieces_clean(add_all_to_regions(regs, es)),
    decreases es.len(),
{
    if es.len() > 0 {
        assert(pieces_clean(es.drop_last())) by {
            assert forall|k: int| 0 <= k < es.drop_last().len() implies hoist_free(#[trigger] es.drop_last()[k].1) by {
                assert(es.drop_last()[k] == es[k]);
            }
        }
        lemma_add_all_clean(regs, es.drop_last());
        let before = add_all_to_regions(regs, es.drop_last());
        let e = es.last();
        assert(hoist_free(es[es.len() - 1].1));
        lemma_region_index(before, e.0);
        let i = region_index(before, e.0);
        if i < 0 {
            assert forall|k: int| 0 <= k < before.push(e).len() implies hoist_free(#[trigger] before.push(e)[k].1) by {
                if k < before.len() {
                    assert(before.push(e)[k] == before[k]);
                }
            }
        } else {
            assert(hoist_free(before[i].1));
            lemma_hoist_free_concat(before[i].1, e.1);
            let after = before.update(i, (e.0, before[i].1 + e.1));
            assert forall|k: int| 0 <= k < after.len() implies hoist_free(#[trigger] after[k].1) by {
                if k != i {
                    assert(after[k] == before[k]);
                }
            }
        }
    }
}

/// Law: every region gathered from a node list is hoist-free: hoists nested
/// in a hoist are flattened up into their own regions.
pub proof fn lemma_regions_hoist_free(ns: Seq<VHtml>)
    ensures
        pieces_clean(add_all_to_regions(Seq::empty(), hoist_events(ns))),
{
    lemma_events_clean(ns);
    lemma_add_all_clean(Seq::empty(), hoist_events(ns));
}

/// Law: serialising a concatenation is concatenating the serialisations.
pub proof fn lemma_render_concat(a: Seq<VHtml>, b: Seq<VHtml>)
    ensures
        render_seq(a + b) == render_seq(a) + render_seq(b),
    decreases b.len(),
{
    if b.len() == 0 {
        assert(a + b =~= a);
        assert(render_seq(a) + render_seq(b) =~= render_seq(a));
    } else {
        assert((a + b).drop_last() =~= a + b.drop_last());
        lemma_render_concat(a, b.drop_last());
    }
}

/// The complete document around a rendered body.
pub open spec fn document_text(title: Seq<char>, head_extra: Seq<char>, css: Seq<char>, body: Seq<char>) -> Seq<char> {
    "<!DOCTYPE html>\n<html lang=\"en\">\n<head>\n"@
        + "<meta charset=\"utf-8\" />\n"@
        + "<meta name=\"viewport\" content=\"width=device-width, initial-scale=1\" />\n"@
        + "<title>"@ + escape_text(title) + "</title>\n"@
        + (if head_extra.len() > 0 { head_extra + "\n"@ } else { Seq::empty() })
        + (if css.len() > 0 { "<style>\n"@ + css + "</style>\n"@ } else { Seq::empty() })
        + "</head>\n<body>\n"@ + body + "\n</body>\n</html>\n"@
}

/// Wrap body HTML in a complete document. `head_extra` is pre-rendered HTML
/// collected from `head { }` blocks across the component tree; it lands in the
/// document head before the inline stylesheet CSS, so a page's own
/// `stylesheet {}` still has the last word.
pub fn document(title: &str, head_extra: &str, css: &str, body: &str) -> (r: String)
    ensures
        r@ == document_text(title@, head_extra@, css@, body@),
{
    let mut out: Vec<char> = Vec::new();
    push_str(&mut out, "<!DOCTYPE html>\n<html lang=\"en\">\n<head>\n");
    push_str(&mut out, "<meta charset=\"utf-8\" />\n");
    push_str(&mut out, "<meta name=\"viewport\" content=\"width=device-width, initial-scale=1\" />\n");
    push_str(&mut out, "<title>");
    escape_into(title, &mut out);
    push_str(&mut out, "</title>\n");
    let ghost after_title = out@;
    if !head_extra.is_empty() {
        push_str(&mut out, head_extra);
        push_str(&mut out, "\n");
    } else {
        assert(out@ =~= after_title + Seq::<char>::empty());
    }
    let ghost after_head = out@;
    if !css.is_empty() {
        push_str(&mut out, "<style>\n");
        push_str(&mut out, css);
        push_str(&mut out, "</style>\n");
    } else {
        assert(out@ =~= after_head + Seq::<char>::empty());
    }
    push_str(&mut out, "</head>\n<body>\n");
    push_str(&mut out, body);
    push_str(&mut out, "\n</body>\n</html>\n");
    string_from_chars(&out)
}

/// Law: the inline stylesheet closes the head. A document with CSS is the same
/// document without CSS with `<style>` + newline + the CSS + `</style>` +
/// newline inserted right before its `</head>` (after any head extras); with
/// no CSS nothing is inserted. Everything from `</head>` on is the body.
pub proof fn lemma_document_style(title: Seq<char>, extra: Seq<char>, css: Seq<char>, body: Seq<char>)
    ensures
        ({
            let tail = "</head>\n<body>\n"@ + body + "\n</body>\n</html>\n"@;
            let d0 = document_text(title, extra, Seq::empty(), body);
            let d = document_text(title, extra, css, body);
            let n = d0.len() - tail.len();
            &&& 0 <= n
            &&& d0.skip(n) == tail
            &&& css.len() > 0 ==> d == d0.take(n) + "<style>\n"@ + css + "</style>\n"@ + tail
            &&& css.len() == 0 ==> d == d0
        }),
{
    let tail = "</head>\n<body>\n"@ + body + "\n</body>\n</html>\n"@;
    let head = "<!DOCTYPE html>\n<html lang=\"en\">\n<head>\n"@ + "<meta charset=\"utf-8\" />\n"@
        + "<meta name=\"viewport\" content=\"width=device-width, initial-scale=1\" />\n"@ + "<title>"@
        + escape_text(title) + "</title>\n"@ + (if extra.len() > 0 { extra + "\n"@ } else { Seq::empty() });
    let d0 = document_text(title, extra, Seq::empty(), body);
    assert(d0 =~= head + Seq::<char>::empty() + tail);
    assert(d0 =~= head + tail);
    assert(d0.len() - tail.len() == head.len());
    assert(d0.skip(head.len() as int) =~= tail);
    assert(d0.take(head.len() as int) =~= head);
    if css.len() > 0 {
        assert(document_text(title, extra, css, body) =~= head + ("<style>\n"@ + css + "</style>\n"@) + tail);
        assert(head + ("<style>\n"@ + css + "</style>\n"@) + tail =~= head + "<style>\n"@ + css + "</style>\n"@ + tail);
    }
}

proof fn lemma_hoist_free_parts(ns: Seq<VHtml>)
    requires
        hoist_free(ns),
        ns.len() > 0,
    ensures
        hoist_free(ns.drop_last()),
        !(ns.last() is Hoist),
        ns.last() matches VHtml::Element { children, .. } ==> hoist_free(children),
{
    assert(ns.last() == ns[ns.len() - 1]);
    assert forall|i: int| 0 <= i < ns.drop_last().len() implies match #[trigger] ns.drop_last()[i] {
        VHtml::Hoist { .. } => false,
        VHtml::Element { children, .. } => hoist_free(children),
        _ => true,
    } by {
        assert(ns.drop_last()[i] == ns[i]);
    }
}

proof fn lemma_free_is_fixed(ns: Seq<VHtml>)
    requires
        hoist_free(ns),
    ensures
        strip(ns) == ns,
        hoist_events(ns) == Seq::<(Seq<char>, Seq<VHtml>)>::empty(),
    decreases ns,
{
    if ns.len() > 0 {
        lemma_hoist_free_parts(ns);
        lemma_free_is_fixed(ns.drop_last());
        let last = ns.last();
        assert(strip(ns) == strip(ns.drop_last()) + strip_one(last));
        assert(hoist_events(ns) == hoist_events(ns.drop_last()) + hoist_events_one(last));
        match last {
            VHtml::Element { tag, attrs, children } => {
                lemma_free_is_fixed(children);
                assert(strip_one(last) == seq![last]);
                assert(hoist_events_one(last) == hoist_events(children));
            },
            VHtml::Hoist { .. } => {},
            _ => {
                assert(strip_one(last) == seq![last]);
                assert(hoist_events_one(last) == Seq::<(Seq<char>, Seq<VHtml>)>::empty());
            },
        }
        assert(ns.drop_last().push(last) =~= ns);
        assert(strip(ns.drop_last()) + seq![last] =~= ns);
        assert(Seq::<(Seq<char>, Seq<VHtml>)>::empty() + Seq::<(Seq<char>, Seq<VHtml>)>::empty()
            =~= Seq::<(Seq<char>, Seq<VHtml>)>::empty());
    }
}

/// The pieces of hoist-free nodes in a hoist into region `r`: each node on its own.
pub open spec fn single_pieces(r: Seq<char>, ns: Seq<VHtml>) -> Seq<(Seq<char>, Seq<VHtml>)> {
    Seq::new(ns.len(), |i: int| (r, seq![ns[i]]))
}

proof fn lemma_free_pieces(r: Seq<char>, ns: Seq<VHtml>)
    requires
        hoist_free(ns),
    ensures
        hoist_pieces(r, ns) == single_pieces(r, ns),
    decreases ns,
{
    if ns.len() > 0 {
        lemma_hoist_free_parts(ns);
        lemma_free_pieces(r, ns.drop_last());
        let last = ns.last();
        match last {
            VHtml::Element { tag, attrs, children } => {
                lemma_free_is_fixed(children);
                assert(strip_one(last) == seq![last]);
                assert(hoist_piece(r, last) =~= seq![(r, seq![last])]);
            },
            VHtml::Hoist { .. } => {},
            _ => {
                assert(hoist_piece(r, last) == seq![(r, seq![last])]);
            },
        }
        assert(single_pieces(r, ns.drop_last()) + seq![(r, seq![last])] =~= single_pieces(r, ns));
    } else {
        assert(single_pieces(r, ns) =~= Seq::<(Seq<char>, Seq<VHtml>)>::empty());
    }
}

proof fn lemma_pieces_concat(r: Seq<char>, x: Seq<VHtml>, y: Seq<VHtml>)
    ensures
        hoist_pieces(r, x + y) == hoist_pieces(r, x) + hoist_pieces(r, y),
    decreases y.len(),
{
    if y.len() == 0 {
        assert(x + y =~= x);
        assert(hoist_pieces(r, y) == Seq::<(Seq<char>, Seq<VHtml>)>::empty());
        assert(hoist_pieces(r, x) + hoist_pieces(r, y) =~= hoist_pieces(r, x));
    } else {
        assert((x + y).drop_last() =~= x + y.drop_last());
        assert((x + y).last() == y.last());
        lemma_pieces_concat(r, x, y.drop_last());
        assert(hoist_pieces(r, x) + hoist_pieces(r, y.drop_last()) + hoist_piece(r, y.last()) =~= hoist_pieces(r, x)
            + (hoist_pieces(r, y.drop_last()) + hoist_piece(r, y.last())));
    }
}

proof fn lemma_add_singles(r: Seq<char>, x: Seq<VHtml>, ns: Seq<VHtml>)
    ensures
        add_all_to_regions(seq![(r, x)], single_pieces(r, ns)) == seq![(r, x + ns)],
    decreases ns.len(),
{
    let ps = single_pieces(r, ns);
    if ns.len() == 0 {
        assert(ps.len() == 0);
        assert(x + ns =~= x);
    } else {
        assert(ps.drop_last() =~= single_pieces(r, ns.drop_last()));
        lemma_add_singles(r, x, ns.drop_last());
        let before = seq![(r, x + ns.drop_last())];
        assert(region_index(before, r) == 0);
        assert(ps.last() == (r, seq![ns.last()]));
        assert(before.update(0, (r, before[0].1 + seq![ns.last()])) =~= seq![(r, x + ns)]) by {
            assert(x + ns.drop_last() + seq![ns.last()] =~= x + ns);
        }
    }
}

/// Law: hoisted content keeps document order, also across a hoist nested in a
/// hoist of the same region: hoisting `a`, then a nested hoist of `b`, then
/// `c` gives the region `a`, `b`, `c`, for any hoist-free `a`, `b` and `c`.
pub proof fn lemma_nested_hoist_order(r: Seq<char>, a: Seq<VHtml>, b: Seq<VHtml>, c: Seq<VHtml>)
    requires
        hoist_free(a),
        hoist_free(b),
        hoist_free(c),
    ensures
        add_all_to_regions(
            Seq::empty(),
            hoist_events(seq![VHtml::Hoist { region: r, children: a + seq![VHtml::Hoist { region: r, children: b }] + c }]),
        ) == seq![(r, a + b + c)],
{
    let inner = VHtml::Hoist { region: r, children: b };
    let kids = a + seq![inner] + c;
    let outer = VHtml::Hoist { region: r, children: kids };
    let e0 = seq![(r, Seq::<VHtml>::empty())];
    // The events: the outer region opens, `a`, the inner region opens, `b`, `c`.
    let one = seq![outer];
    assert(one.drop_last() =~= Seq::<VHtml>::empty());
    assert(one.last() == outer);
    assert(hoist_events(Seq::<VHtml>::empty()) == Seq::<(Seq<char>, Seq<VHtml>)>::empty());
    assert(hoist_events(one) == hoist_events(one.drop_last()) + hoist_events_one(one.last()));
    assert(hoist_events(one) =~= hoist_events_one(outer));
    lemma_pieces_concat(r, a + seq![inner], c);
    lemma_pieces_concat(r, a, seq![inner]);
    assert(seq![inner].drop_last() =~= Seq::<VHtml>::empty());
    assert(seq![inner].last() == inner);
    assert(hoist_pieces(r, Seq::<VHtml>::empty()) == Seq::<(Seq<char>, Seq<VHtml>)>::empty());
    assert(hoist_pieces(r, seq![inner]) == hoist_pieces(r, seq![inner].drop_last()) + hoist_piece(
        r,
        seq![inner].last(),
    ));
    assert(hoist_pieces(r, seq![inner]) =~= hoist_piece(r, inner));
    lemma_free_pieces(r, a);
    lemma_free_pieces(r, b);
    lemma_free_pieces(r, c);
    let pa = single_pieces(r, a);
    let pb = single_pieces(r, b);
    let pc = single_pieces(r, c);
    assert(hoist_events(one) =~= e0 + pa + (e0 + pb) + pc);
    // Adding them up.
    let empty = Seq::<(Seq<char>, Seq<VHtml>)>::empty();
    assert(add_all_to_regions(empty, e0) == seq![(r, Seq::<VHtml>::empty())]) by {
        assert(e0.drop_last() =~= empty);
        assert(add_all_to_regions(empty, empty) == empty);
        assert(region_index(empty, r) == -1);
        assert(e0.last() == (r, Seq::<VHtml>::empty()));
        assert(empty.push((r, Seq::<VHtml>::empty())) =~= seq![(r, Seq::<VHtml>::empty())]);
    }
    lemma_add_singles(r, Seq::<VHtml>::empty(), a);
    assert(Seq::<VHtml>::empty() + a =~= a);
    lemma_add_all_concat(empty, e0, pa);
    let ra = seq![(r, a)];
    assert(add_all_to_regions(ra, e0) == ra) by {
        assert(e0.drop_last() =~= empty);
        assert(add_all_to_regions(ra, empty) == ra);
        assert(e0.last() == (r, Seq::<VHtml>::empty()));
        assert(ra[0].0 == r);
        assert(region_index(ra, r) == 0);
        assert(ra.update(0, (r, a + Seq::<VHtml>::empty())) =~= ra);
    }
    lemma_add_singles(r, a, b);
    lemma_add_all_concat(ra, e0, pb);
    lemma_add_singles(r, a + b, c);
    lemma_add_all_concat(empty, e0 + pa, e0 + pb);
    lemma_add_all_concat(empty, e0 + pa + (e0 + pb), pc);
}

} // verus!
