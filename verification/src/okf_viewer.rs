//! The pages of the bundle viewer. It reads a bundle and only reads it; every
//! text that a bundle controls is escaped where it enters the markup.
use vstd::prelude::*;

use crate::config::paths::{extension, extension_of};
use crate::text::{
    contains, contains_part, decimal, decimal_of, escape_html, escaped, inert, join, join_of,
    lower, lower_of, opt_view, over, over_contains, over_step, same, views,
};

verus! {

// ---------------------------------------------------------------------------
// What is shown
// ---------------------------------------------------------------------------

/// One concept as the bundle's index lists it.
pub struct ConceptRow {
    pub id: String,
    pub title: String,
    pub kind: Option<String>,
    pub trust: String,
    pub status: String,
}

/// A concept that tripped the content screener.
pub struct Flag {
    pub id: String,
    pub verdict: String,
    pub classes: Vec<String>,
}

/// A bundle as its index shows it.
pub struct BundleView {
    pub root: String,
    pub concepts: Vec<ConceptRow>,
    pub human_reviewed: usize,
    pub machine_confirmed: usize,
    pub unverified: usize,
    pub broken_links: usize,
    pub okf_version: Option<String>,
    pub flagged: Vec<Flag>,
}

/// A link out of a concept.
pub struct LinkOut {
    pub target: String,
    /// Its target is in the bundle.
    pub exists: bool,
}

/// One concept as its page shows it.
pub struct ConceptView {
    pub title: String,
    pub trust: String,
    pub kind: Option<String>,
    pub status: String,
    pub path: String,
    /// The rendered body, already safe.
    pub body_html: String,
    /// The classes the content screener found.
    pub screen: Vec<String>,
    pub links: Vec<LinkOut>,
    pub backlinks: Vec<String>,
}

/// An answer to a request.
pub struct Reply {
    pub status: u16,
    /// The content security policy it carries.
    pub csp: &'static str,
    pub html: String,
}

/// Nothing but this origin: no CDN, no font host, no analytics.
pub const CSP: &'static str =
    "default-src 'self'; img-src 'self' data:; object-src 'none'; base-uri 'none'";

/// The same, with the fixed inline script of the graph page.
pub const GRAPH_CSP: &'static str = "default-src 'self'; script-src 'self' 'unsafe-inline'; \
img-src 'self' data:; object-src 'none'; base-uri 'none'";

// ---------------------------------------------------------------------------
// Pieces
// ---------------------------------------------------------------------------

/// Writes bundle-controlled text for markup.
pub fn escape(raw: &str) -> (r: String)
    ensures
        r@ == escaped(raw@),
{
    escape_html(raw)
}

/// A tier's mark, which carries its word as well as its colour.
pub open spec fn pill_of(class: Seq<char>, text: Seq<char>) -> Seq<char> {
    "<span class=\"tier tier-"@ + escaped(class) + "\">"@ + escaped(text) + "</span>"@
}

/// A tier's mark, which carries its word as well as its colour.
pub fn pill(class: &str, text: &str) -> (r: String)
    ensures
        r@ == pill_of(class@, text@),
{
    let mut s = "<span class=\"tier tier-".to_owned();
    s.append(escape(class).as_str());
    s.append("\">");
    s.append(escape(text).as_str());
    s.append("</span>");
    s
}

/// Each name in code style.
pub open spec fn coded(names: Seq<Seq<char>>) -> Seq<Seq<char>> {
    names.map_values(|n: Seq<char>| "<code>"@ + escaped(n) + "</code>"@)
}

/// The names in code style, with commas between them.
fn coded_list(names: &Vec<String>) -> (r: String)
    ensures
        r@ == join_of(coded(views(names@)), ", "@),
{
    let mut parts: Vec<String> = Vec::new();
    let mut i: usize = 0;
    while i < names.len()
        invariant
            i <= names@.len(),
            views(parts@) == coded(views(names@)).take(i as int),
        decreases names@.len() - i,
    {
        let ghost was = parts@;
        let mut s = "<code>".to_owned();
        s.append(escape(names[i].as_str()).as_str());
        s.append("</code>");
        parts.push(s);
        assert(views(parts@) =~= views(was).push(s@));
        assert(s@ == coded(views(names@))[i as int]);
        i = i + 1;
        assert(views(parts@) =~= coded(views(names@)).take(i as int));
    }
    assert(coded(views(names@)).take(names@.len() as int) =~= coded(views(names@)));
    join(&parts, ", ")
}

/// A list item that links to the concept `id` under `text`.
pub open spec fn item_of(base: Seq<char>, id: Seq<char>, text: Seq<char>) -> Seq<char> {
    "<li><a href=\""@ + base + "/c/"@ + escaped(id) + "\">"@ + escaped(text) + "</a></li>"@
}

fn item(base: &str, id: &str, text: &str) -> (r: String)
    ensures
        r@ == item_of(base@, id@, text@),
{
    let mut s = "<li><a href=\"".to_owned();
    s.append(base);
    s.append("/c/");
    s.append(escape(id).as_str());
    s.append("\">");
    s.append(escape(text).as_str());
    s.append("</a></li>");
    s
}

/// An optional text, escaped; nothing where it is unset.
pub open spec fn escaped_opt(o: Option<String>) -> Seq<char> {
    match o {
        Some(s) => escaped(s@),
        None => Seq::empty(),
    }
}

fn escape_opt(o: &Option<String>) -> (r: String)
    ensures
        r@ == escaped_opt(*o),
{
    match o {
        Some(s) => escape(s.as_str()),
        None => String::new(),
    }
}

// ---------------------------------------------------------------------------
// The page around the content
// ---------------------------------------------------------------------------

/// The page up to its stylesheet's address.
pub const PAGE_OPEN: &'static str = "<!doctype html><html lang=\"en\"><head><meta charset=\"utf-8\">\
<meta name=\"viewport\" content=\"width=device-width, initial-scale=1\">\
<link rel=\"stylesheet\" href=\"";

/// From the title to the bundle's root.
pub const PAGE_HEADER: &'static str = " — OKF viewer</title></head><body>\
<header><span class=\"name\">OKF viewer</span>\
<span class=\"root\">";

/// What follows the content.
pub const PAGE_CLOSE: &'static str = "</main>\
<footer>Read-only. Nothing here is imported into the graph — \
<code>roteiro import --from okf</code> is still the only path that does, \
and it asks first.</footer></body></html>";

/// A page with the content `body`, mounted under `base`.
pub open spec fn page_of(title: Seq<char>, root: Seq<char>, base: Seq<char>, body: Seq<char>) -> Seq<
    char,
> {
    PAGE_OPEN@ + base + "/okf-viewer.css\"><title>"@ + escaped(title) + PAGE_HEADER@ + escaped(root)
        + "</span><nav><a href=\""@ + base + "/\">Concepts</a><a href=\""@ + base
        + "/graph\">Graph</a></nav></header><main>"@ + body + PAGE_CLOSE@
}

/// A page with the content `body`, mounted under `base`.
pub fn page(title: &str, root: &str, base: &str, body: &str) -> (r: Reply)
    ensures
        r.status == 200,
        r.csp@ == CSP@,
        r.html@ == page_of(title@, root@, base@, body@),
{
    let mut s = PAGE_OPEN.to_owned();
    s.append(base);
    s.append("/okf-viewer.css\"><title>");
    s.append(escape(title).as_str());
    s.append(PAGE_HEADER);
    s.append(escape(root).as_str());
    s.append("</span><nav><a href=\"");
    s.append(base);
    s.append("/\">Concepts</a><a href=\"");
    s.append(base);
    s.append("/graph\">Graph</a></nav></header><main>");
    s.append(body);
    s.append(PAGE_CLOSE);
    Reply { status: 200, csp: CSP, html: s }
}

/// What is answered where there is no readable bundle.
pub open spec fn unreadable_of(why: Seq<char>) -> Seq<char> {
    "<p>Not a readable OKF bundle: "@ + escaped(why) + "</p>"@
}

/// What is answered where there is no readable bundle.
pub fn unreadable(why: &str) -> (r: Reply)
    ensures
        r.status == 404,
        r.csp@ == CSP@,
        r.html@ == unreadable_of(why@),
{
    let mut s = "<p>Not a readable OKF bundle: ".to_owned();
    s.append(escape(why).as_str());
    s.append("</p>");
    Reply { status: 404, csp: CSP, html: s }
}

// ---------------------------------------------------------------------------
// The index
// ---------------------------------------------------------------------------

/// A concept's entry in the side list.
pub open spec fn side_item(base: Seq<char>) -> spec_fn(ConceptRow) -> Seq<char> {
    |c: ConceptRow| item_of(base, c.id@, c.title@)
}

/// One flagged concept.
pub open spec fn flag_item(base: Seq<char>) -> spec_fn(Flag) -> Seq<char> {
    |f: Flag|
        "<li><a href=\""@ + base + "/c/"@ + escaped(f.id@) + "\">"@ + escaped(f.id@) + "</a> — "@
            + escaped(f.verdict@) + " ("@ + join_of(coded(views(f.classes@)), ", "@) + ")</li>"@
}

/// What follows the number of flagged concepts.
pub const SCREENED: &'static str = " concept(s) tripped the content screener.</strong> \
This is a bundle somebody else wrote, and the screener looks for text shaped to be \
read as instructions rather than as content. Nothing has been imported.<ul>";

/// The warning about flagged concepts, present only where there are any.
pub open spec fn flagged_of(flagged: Seq<Flag>, base: Seq<char>) -> Seq<char> {
    if flagged.len() == 0 {
        Seq::empty()
    } else {
        "<div class=\"screened\"><strong>"@ + decimal_of(flagged.len()) + SCREENED@ + over(
            flagged,
            flag_item(base),
        ) + "</ul></div>"@
    }
}

/// A concept's row in the table.
pub open spec fn table_row(base: Seq<char>) -> spec_fn(ConceptRow) -> Seq<char> {
    |c: ConceptRow|
        "<tr><td><a href=\""@ + base + "/c/"@ + escaped(c.id@) + "\">"@ + escaped(c.title@)
            + "</a></td><td>"@ + escaped_opt(c.kind) + "</td><td>"@ + pill_of(c.trust@, c.trust@)
            + "</td><td"@ + (if c.status@ == "deprecated"@ {
            " class=\"status-deprecated\""@
        } else {
            ""@
        }) + ">"@ + escaped(c.status@) + "</td></tr>"@
}

/// The bundle's counts.
pub open spec fn counts_of(v: BundleView) -> Seq<char> {
    "<h1>Bundle</h1><ul class=\"counts\"><li><span class=\"n\">"@ + decimal_of(
        v.human_reviewed as nat,
    ) + "</span> human-reviewed</li><li><span class=\"n\">"@ + decimal_of(v.machine_confirmed as nat)
        + "</span> machine-confirmed</li><li><span class=\"n\">"@ + decimal_of(v.unverified as nat)
        + "</span> unverified</li><li><span class=\"n\">"@ + decimal_of(v.broken_links as nat)
        + "</span> unresolved link(s)</li><li>okf_version "@ + (match v.okf_version {
        Some(s) => escaped(s@),
        None => "not declared"@,
    }) + "</li></ul>"@
}

/// The content of the index.
pub open spec fn index_body(v: BundleView, base: Seq<char>) -> Seq<char> {
    "<aside><div class=\"group\">"@ + decimal_of(v.concepts@.len()) + " concept(s)</div><ol>"@ + over(
        v.concepts@,
        side_item(base),
    ) + "</ol></aside><article>"@ + counts_of(v) + flagged_of(v.flagged@, base)
        + "<table><tr><th>Concept</th><th>Type</th><th>Trust</th><th>Status</th></tr>"@ + over(
        v.concepts@,
        table_row(base),
    ) + "</table></article>"@
}

fn write_side(concepts: &Vec<ConceptRow>, base: &str) -> (r: String)
    ensures
        r@ == over(concepts@, side_item(base@)),
{
    let mut s = String::new();
    let mut i: usize = 0;
    while i < concepts.len()
        invariant
            i <= concepts@.len(),
            s@ == over(concepts@.take(i as int), side_item(base@)),
        decreases concepts@.len() - i,
    {
        proof {
            over_step(concepts@, side_item(base@), i as int);
        }
        let c = &concepts[i];
        s.append(item(base, c.id.as_str(), c.title.as_str()).as_str());
        i = i + 1;
    }
    assert(concepts@.take(concepts@.len() as int) =~= concepts@);
    s
}

fn write_flag(f: &Flag, base: &str) -> (r: String)
    ensures
        r@ == flag_item(base@)(*f),
{
    let id = escape(f.id.as_str());
    let mut s = "<li><a href=\"".to_owned();
    s.append(base);
    s.append("/c/");
    s.append(id.as_str());
    s.append("\">");
    s.append(id.as_str());
    s.append("</a> — ");
    s.append(escape(f.verdict.as_str()).as_str());
    s.append(" (");
    s.append(coded_list(&f.classes).as_str());
    s.append(")</li>");
    s
}

fn write_flagged(flagged: &Vec<Flag>, base: &str) -> (r: String)
    ensures
        r@ == flagged_of(flagged@, base@),
{
    if flagged.len() == 0 {
        return String::new();
    }
    let mut items = String::new();
    let mut i: usize = 0;
    while i < flagged.len()
        invariant
            i <= flagged@.len(),
            items@ == over(flagged@.take(i as int), flag_item(base@)),
        decreases flagged@.len() - i,
    {
        proof {
            over_step(flagged@, flag_item(base@), i as int);
        }
        items.append(write_flag(&flagged[i], base).as_str());
        i = i + 1;
    }
    assert(flagged@.take(flagged@.len() as int) =~= flagged@);
    let mut s = "<div class=\"screened\"><strong>".to_owned();
    s.append(decimal(flagged.len()).as_str());
    s.append(SCREENED);
    s.append(items.as_str());
    s.append("</ul></div>");
    s
}

fn write_table_row(c: &ConceptRow, base: &str) -> (r: String)
    ensures
        r@ == table_row(base@)(*c),
{
    let mut s = "<tr><td><a href=\"".to_owned();
    s.append(base);
    s.append("/c/");
    s.append(escape(c.id.as_str()).as_str());
    s.append("\">");
    s.append(escape(c.title.as_str()).as_str());
    s.append("</a></td><td>");
    s.append(escape_opt(&c.kind).as_str());
    s.append("</td><td>");
    s.append(pill(c.trust.as_str(), c.trust.as_str()).as_str());
    s.append("</td><td");
    s.append(
        if same(c.status.as_str(), "deprecated") {
            " class=\"status-deprecated\""
        } else {
            ""
        },
    );
    s.append(">");
    s.append(escape(c.status.as_str()).as_str());
    s.append("</td></tr>");
    s
}

fn write_table(concepts: &Vec<ConceptRow>, base: &str) -> (r: String)
    ensures
        r@ == over(concepts@, table_row(base@)),
{
    let mut s = String::new();
    let mut i: usize = 0;
    while i < concepts.len()
        invariant
            i <= concepts@.len(),
            s@ == over(concepts@.take(i as int), table_row(base@)),
        decreases concepts@.len() - i,
    {
        proof {
            over_step(concepts@, table_row(base@), i as int);
        }
        s.append(write_table_row(&concepts[i], base).as_str());
        i = i + 1;
    }
    assert(concepts@.take(concepts@.len() as int) =~= concepts@);
    s
}

fn write_counts(v: &BundleView) -> (r: String)
    ensures
        r@ == counts_of(*v),
{
    let version = match &v.okf_version {
        Some(s) => escape(s.as_str()),
        None => "not declared".to_owned(),
    };
    let mut s = "<h1>Bundle</h1><ul class=\"counts\"><li><span class=\"n\">".to_owned();
    s.append(decimal(v.human_reviewed).as_str());
    s.append("</span> human-reviewed</li><li><span class=\"n\">");
    s.append(decimal(v.machine_confirmed).as_str());
    s.append("</span> machine-confirmed</li><li><span class=\"n\">");
    s.append(decimal(v.unverified).as_str());
    s.append("</span> unverified</li><li><span class=\"n\">");
    s.append(decimal(v.broken_links).as_str());
    s.append("</span> unresolved link(s)</li><li>okf_version ");
    s.append(version.as_str());
    s.append("</li></ul>");
    s
}

/// The index of a bundle, or the answer where it could not be read.
pub fn index(found: &Result<BundleView, String>, base: &str) -> (r: Reply)
    ensures
        r.csp@ == CSP@,
        match found {
            Ok(v) => r.status == 200 && r.html@ == page_of(
                "Bundle"@,
                v.root@,
                base@,
                index_body(*v, base@),
            ),
            Err(why) => r.status == 404 && r.html@ == unreadable_of(why@),
        },
{
    let v = match found {
        Ok(v) => v,
        Err(why) => {
            return unreadable(why.as_str());
        },
    };
    let mut s = "<aside><div class=\"group\">".to_owned();
    s.append(decimal(v.concepts.len()).as_str());
    s.append(" concept(s)</div><ol>");
    s.append(write_side(&v.concepts, base).as_str());
    s.append("</ol></aside><article>");
    s.append(write_counts(v).as_str());
    s.append(write_flagged(&v.flagged, base).as_str());
    s.append("<table><tr><th>Concept</th><th>Type</th><th>Trust</th><th>Status</th></tr>");
    s.append(write_table(&v.concepts, base).as_str());
    s.append("</table></article>");
    page("Bundle", v.root.as_str(), base, s.as_str())
}

// ---------------------------------------------------------------------------
// A concept
// ---------------------------------------------------------------------------

/// The warning that precedes the classes of a flagged concept.
pub const SCREENED_ONE: &'static str =
    "<div class=\"screened\"><strong>The content screener flagged this document.</strong> \
It is somebody else's text and may be written to be read as instructions. \
Classes: ";

/// The warning about a flagged concept.
pub open spec fn screen_of(screen: Seq<Seq<char>>) -> Seq<char> {
    if screen.len() == 0 {
        Seq::empty()
    } else {
        SCREENED_ONE@ + join_of(coded(screen), ", "@) + ".</div>"@
    }
}

/// A concept's heading, marks and body.
pub open spec fn concept_head(c: ConceptView) -> Seq<char> {
    "<h1>"@ + escaped(c.title@) + "</h1><p class=\"meta\">"@ + pill_of(c.trust@, c.trust@) + (
    match c.kind {
        Some(k) => "<span>"@ + escaped(k@) + "</span>"@,
        None => Seq::empty(),
    }) + ("<span>"@ + escaped(c.status@) + "</span>"@) + "<code>"@ + escaped(c.path@) + "</code></p>"@
        + c.body_html@
}

/// One link out. A target that is not in the bundle is shown as absent, neither
/// hidden nor an error.
pub open spec fn link_item(base: Seq<char>) -> spec_fn(LinkOut) -> Seq<char> {
    |l: LinkOut|
        if l.exists {
            item_of(base, l.target@, l.target@)
        } else {
            "<li class=\"absent\">"@ + escaped(l.target@) + " — not in this bundle</li>"@
        }
}

/// One link in.
pub open spec fn back_item(base: Seq<char>) -> spec_fn(Seq<char>) -> Seq<char> {
    |b: Seq<char>| item_of(base, b, b)
}

/// The links out, present only where there are any.
pub open spec fn links_of(links: Seq<LinkOut>, base: Seq<char>) -> Seq<char> {
    if links.len() == 0 {
        Seq::empty()
    } else {
        "<h2>Links out</h2><ul>"@ + over(links, link_item(base)) + "</ul>"@
    }
}

/// The links in, present only where there are any.
pub open spec fn backlinks_of(backlinks: Seq<Seq<char>>, base: Seq<char>) -> Seq<char> {
    if backlinks.len() == 0 {
        Seq::empty()
    } else {
        "<h2>Linked from</h2><ul>"@ + over(backlinks, back_item(base)) + "</ul>"@
    }
}

/// The content of a concept's page.
pub open spec fn concept_body(c: ConceptView, base: Seq<char>) -> Seq<char> {
    "<article>"@ + screen_of(views(c.screen@)) + concept_head(c) + "<div class=\"rel\">"@ + links_of(
        c.links@,
        base,
    ) + backlinks_of(views(c.backlinks@), base) + "</div></article>"@
}

/// What is answered where the bundle has no such concept.
pub open spec fn no_concept(id: Seq<char>, base: Seq<char>) -> Seq<char> {
    "<p>The bundle contains no concept <code>"@ + escaped(id) + "</code>. <a href=\""@ + base
        + "/\">Back to the bundle</a>.</p>"@
}

fn write_head(c: &ConceptView) -> (r: String)
    ensures
        r@ == concept_head(*c),
{
    let kind = match &c.kind {
        Some(k) => {
            let mut s = "<span>".to_owned();
            s.append(escape(k.as_str()).as_str());
            s.append("</span>");
            s
        },
        None => String::new(),
    };
    let mut status = "<span>".to_owned();
    status.append(escape(c.status.as_str()).as_str());
    status.append("</span>");
    let mut s = "<h1>".to_owned();
    s.append(escape(c.title.as_str()).as_str());
    s.append("</h1><p class=\"meta\">");
    s.append(pill(c.trust.as_str(), c.trust.as_str()).as_str());
    s.append(kind.as_str());
    s.append(status.as_str());
    s.append("<code>");
    s.append(escape(c.path.as_str()).as_str());
    s.append("</code></p>");
    s.append(c.body_html.as_str());
    s
}

fn write_screen(screen: &Vec<String>) -> (r: String)
    ensures
        r@ == screen_of(views(screen@)),
{
    if screen.len() == 0 {
        return String::new();
    }
    let mut s = SCREENED_ONE.to_owned();
    s.append(coded_list(screen).as_str());
    s.append(".</div>");
    s
}

fn write_links(links: &Vec<LinkOut>, base: &str) -> (r: String)
    ensures
        r@ == links_of(links@, base@),
{
    if links.len() == 0 {
        return String::new();
    }
    let mut items = String::new();
    let mut i: usize = 0;
    while i < links.len()
        invariant
            i <= links@.len(),
            items@ == over(links@.take(i as int), link_item(base@)),
        decreases links@.len() - i,
    {
        proof {
            over_step(links@, link_item(base@), i as int);
        }
        let target = links[i].target.as_str();
        if links[i].exists {
            items.append(item(base, target, target).as_str());
        } else {
            let mut s = "<li class=\"absent\">".to_owned();
            s.append(escape(target).as_str());
            s.append(" — not in this bundle</li>");
            items.append(s.as_str());
        }
        i = i + 1;
    }
    assert(links@.take(links@.len() as int) =~= links@);
    let mut s = "<h2>Links out</h2><ul>".to_owned();
    s.append(items.as_str());
    s.append("</ul>");
    s
}

fn write_backlinks(backlinks: &Vec<String>, base: &str) -> (r: String)
    ensures
        r@ == backlinks_of(views(backlinks@), base@),
{
    if backlinks.len() == 0 {
        return String::new();
    }
    let mut items = String::new();
    let mut i: usize = 0;
    while i < backlinks.len()
        invariant
            i <= backlinks@.len(),
            items@ == over(views(backlinks@).take(i as int), back_item(base@)),
        decreases backlinks@.len() - i,
    {
        proof {
            over_step(views(backlinks@), back_item(base@), i as int);
        }
        let b = backlinks[i].as_str();
        items.append(item(base, b, b).as_str());
        i = i + 1;
    }
    assert(views(backlinks@).take(backlinks@.len() as int) =~= views(backlinks@));
    let mut s = "<h2>Linked from</h2><ul>".to_owned();
    s.append(items.as_str());
    s.append("</ul>");
    s
}

/// The page of the concept `id`: `found` is what the bundle at `root` has under
/// it, or why it could not be read.
pub fn concept(found: &Result<Option<ConceptView>, String>, id: &str, root: &str, base: &str) -> (r:
    Reply)
    ensures
        r.csp@ == CSP@,
        match found {
            Ok(Some(c)) => r.status == 200 && r.html@ == page_of(
                c.title@,
                root@,
                base@,
                concept_body(*c, base@),
            ),
            Ok(None) => r.status == 404 && r.html@ == no_concept(id@, base@),
            Err(why) => r.status == 404 && r.html@ == unreadable_of(why@),
        },
{
    match found {
        Err(why) => unreadable(why.as_str()),
        Ok(None) => {
            let mut s = "<p>The bundle contains no concept <code>".to_owned();
            s.append(escape(id).as_str());
            s.append("</code>. <a href=\"");
            s.append(base);
            s.append("/\">Back to the bundle</a>.</p>");
            Reply { status: 404, csp: CSP, html: s }
        },
        Ok(Some(c)) => {
            let mut s = "<article>".to_owned();
            s.append(write_screen(&c.screen).as_str());
            s.append(write_head(c).as_str());
            s.append("<div class=\"rel\">");
            s.append(write_links(&c.links, base).as_str());
            s.append(write_backlinks(&c.backlinks, base).as_str());
            s.append("</div></article>");
            page(c.title.as_str(), root, base, s.as_str())
        },
    }
}

// ---------------------------------------------------------------------------
// The graph page and files
// ---------------------------------------------------------------------------

/// The graph page's content up to the address of the graph library.
pub const GRAPH_OPEN: &'static str = "<article><h1>Concept graph</h1><div id=\"graph\"></div>\
<script src=\"";

/// From there to the address of the graph's data.
pub const GRAPH_FETCH: &'static str = "/cytoscape.min.js\"></script><script>fetch('";

/// From there on.
pub const GRAPH_CLOSE: &'static str = "/api/graph.json').then(r=>r.json()).then(g=>{\
cytoscape({container:document.getElementById('graph'),\
elements:[...g.nodes.map(n=>({data:{id:n.id,label:n.label,trust:n.trust}})),\
...g.edges.map(e=>({data:{source:e.source,target:e.target}}))],\
layout:{name:'cose'},style:[\
{selector:'node',style:{'label':'data(label)','font-size':'8px',\
'background-color':'#6b7684','color':'#1a2733'}},\
{selector:'node[trust=\"human-reviewed\"]',style:{'background-color':'#0e6e8c'}},\
{selector:'edge',style:{'width':1,'line-color':'#d8d2c4',\
'target-arrow-shape':'triangle','target-arrow-color':'#d8d2c4',\
'curve-style':'bezier'}}]});});</script></article>";

/// The graph page's content.
pub open spec fn graph_body(base: Seq<char>) -> Seq<char> {
    GRAPH_OPEN@ + base + GRAPH_FETCH@ + base + GRAPH_CLOSE@
}

/// The page that draws the bundle's concepts as a graph. It alone carries an
/// inline script, which is fixed.
pub fn graph_page(root: &str, base: &str) -> (r: Reply)
    ensures
        r.status == 200,
        r.csp@ == GRAPH_CSP@,
        r.html@ == page_of("Concept graph"@, root@, base@, graph_body(base@)),
{
    let mut s = GRAPH_OPEN.to_owned();
    s.append(base);
    s.append(GRAPH_FETCH);
    s.append(base);
    s.append(GRAPH_CLOSE);
    let p = page("Concept graph", root, base, s.as_str());
    Reply { status: p.status, csp: GRAPH_CSP, html: p.html }
}

/// The content type of a file, by its extension alone and from a closed list: a
/// bundle does not choose it.
pub open spec fn mime_of(extension: Option<Seq<char>>) -> Seq<char> {
    match extension {
        None => "application/octet-stream"@,
        Some(e) => {
            let low = lower_of(e);
            if low == "png"@ {
                "image/png"@
            } else if low == "jpg"@ || low == "jpeg"@ {
                "image/jpeg"@
            } else if low == "gif"@ {
                "image/gif"@
            } else if low == "webp"@ {
                "image/webp"@
            } else if low == "svg"@ {
                "image/svg+xml"@
            } else {
                "application/octet-stream"@
            }
        },
    }
}

/// The content type of a file with this extension.
pub fn extension_mime(extension: &Option<String>) -> (r: &'static str)
    ensures
        r@ == mime_of(opt_view(*extension)),
{
    let low = match extension {
        Some(e) => lower(e.as_str()),
        None => {
            return "application/octet-stream";
        },
    };
    let e = low.as_str();
    if same(e, "png") {
        "image/png"
    } else if same(e, "jpg") || same(e, "jpeg") {
        "image/jpeg"
    } else if same(e, "gif") {
        "image/gif"
    } else if same(e, "webp") {
        "image/webp"
    } else if same(e, "svg") {
        "image/svg+xml"
    } else {
        "application/octet-stream"
    }
}

/// The content type of the file at `path`.
pub fn file_mime(path: &str) -> (r: &'static str)
    ensures
        r@ == mime_of(extension_of(path@)),
{
    extension_mime(&extension(path))
}

// ---------------------------------------------------------------------------
// Laws
// ---------------------------------------------------------------------------

/// The index links every concept of the bundle, under the path the viewer is
/// mounted at.
pub proof fn every_concept_is_linked(v: BundleView, base: Seq<char>, i: int)
    requires
        0 <= i < v.concepts@.len(),
    ensures
        contains(
            page_of("Bundle"@, v.root@, base, index_body(v, base)),
            item_of(base, v.concepts@[i].id@, v.concepts@[i].title@),
        ),
{
    let p = item_of(base, v.concepts@[i].id@, v.concepts@[i].title@);
    let list = over(v.concepts@, side_item(base));
    over_contains(v.concepts@, side_item(base), i);
    let head = "<aside><div class=\"group\">"@ + decimal_of(v.concepts@.len())
        + " concept(s)</div><ol>"@;
    let tail = "</ol></aside><article>"@ + counts_of(v) + flagged_of(v.flagged@, base)
        + "<table><tr><th>Concept</th><th>Type</th><th>Trust</th><th>Status</th></tr>"@ + over(
        v.concepts@,
        table_row(base),
    ) + "</table></article>"@;
    contains_part(head, list, tail, p);
    assert(index_body(v, base) =~= head + list + tail);
    page_holds_its_body("Bundle"@, v.root@, base, index_body(v, base), p);
}

proof fn page_holds_its_body(
    title: Seq<char>,
    root: Seq<char>,
    base: Seq<char>,
    body: Seq<char>,
    p: Seq<char>,
)
    requires
        contains(body, p),
    ensures
        contains(page_of(title, root, base, body), p),
{
    let head = PAGE_OPEN@ + base + "/okf-viewer.css\"><title>"@ + escaped(title) + PAGE_HEADER@
        + escaped(root) + "</span><nav><a href=\""@ + base + "/\">Concepts</a><a href=\""@ + base
        + "/graph\">Graph</a></nav></header><main>"@;
    contains_part(head, body, PAGE_CLOSE@, p);
}

/// A title, an id or a class can neither open a tag nor leave its attribute:
/// every mark and link written for it is fixed text around inert text.
pub proof fn bundle_text_stays_text(title: Seq<char>, id: Seq<char>, class: Seq<char>)
    ensures
        inert(escaped(title)),
        inert(escaped(id)),
        inert(escaped(class)),
{
    crate::text::escaped_is_inert(title);
    crate::text::escaped_is_inert(id);
    crate::text::escaped_is_inert(class);
}

/// What tripped the screener is shown with its warning: the index links every
/// flagged concept and names each of its classes.
pub proof fn every_flag_is_shown(v: BundleView, base: Seq<char>, i: int, j: int)
    requires
        0 <= i < v.flagged@.len(),
    ensures
        contains(index_body(v, base), "<div class=\"screened\">"@),
        contains(
            index_body(v, base),
            "<li><a href=\""@ + base + "/c/"@ + escaped(v.flagged@[i].id@) + "\">"@,
        ),
        0 <= j < v.flagged@[i].classes@.len() ==> contains(
            index_body(v, base),
            "<code>"@ + escaped(v.flagged@[i].classes@[j]@) + "</code>"@,
        ),
{
    let whole = index_body(v, base);
    let lead = "<aside><div class=\"group\">"@ + decimal_of(v.concepts@.len())
        + " concept(s)</div><ol>"@ + over(v.concepts@, side_item(base)) + "</ol></aside><article>"@
        + counts_of(v);
    let part = flagged_of(v.flagged@, base);
    let rest = "<table><tr><th>Concept</th><th>Type</th><th>Trust</th><th>Status</th></tr>"@ + over(
        v.concepts@,
        table_row(base),
    ) + "</table></article>"@;
    assert(lead + part + rest =~= whole);
    crate::text::holds_its_middle(lead, part, rest);
    the_warning_lists(v.flagged@, base, i);
    crate::text::contains_within(whole, part, "<div class=\"screened\">"@);
    let item = flag_item(base)(v.flagged@[i]);
    crate::text::contains_within(whole, part, item);
    a_flag_shows_its_classes(v.flagged@[i], base, j);
    crate::text::contains_within(
        whole,
        item,
        "<li><a href=\""@ + base + "/c/"@ + escaped(v.flagged@[i].id@) + "\">"@,
    );
    if 0 <= j < v.flagged@[i].classes@.len() {
        crate::text::contains_within(
            whole,
            item,
            "<code>"@ + escaped(v.flagged@[i].classes@[j]@) + "</code>"@,
        );
    }
}

proof fn the_warning_lists(flagged: Seq<Flag>, base: Seq<char>, i: int)
    requires
        0 <= i < flagged.len(),
    ensures
        contains(flagged_of(flagged, base), "<div class=\"screened\">"@),
        contains(flagged_of(flagged, base), flag_item(base)(flagged[i])),
{
    let none = Seq::<char>::empty();
    let part = flagged_of(flagged, base);
    let list = over(flagged, flag_item(base));
    let open = "<div class=\"screened\"><strong>"@ + decimal_of(flagged.len()) + SCREENED@;
    assert(open + list + "</ul></div>"@ =~= part);
    crate::text::holds_its_middle(open, list, "</ul></div>"@);
    over_contains(flagged, flag_item(base), i);
    crate::text::contains_within(part, list, flag_item(base)(flagged[i]));
    reveal_strlit("<div class=\"screened\"><strong>");
    reveal_strlit("<div class=\"screened\">");
    reveal_strlit("<strong>");
    assert("<div class=\"screened\"><strong>"@ =~= "<div class=\"screened\">"@ + "<strong>"@);
    let after = "<strong>"@ + decimal_of(flagged.len()) + SCREENED@ + list + "</ul></div>"@;
    assert(none + "<div class=\"screened\">"@ + after =~= part);
    crate::text::holds_its_middle(none, "<div class=\"screened\">"@, after);
}

proof fn a_flag_shows_its_classes(f: Flag, base: Seq<char>, j: int)
    ensures
        contains(
            flag_item(base)(f),
            "<li><a href=\""@ + base + "/c/"@ + escaped(f.id@) + "\">"@,
        ),
        0 <= j < f.classes@.len() ==> contains(
            flag_item(base)(f),
            "<code>"@ + escaped(f.classes@[j]@) + "</code>"@,
        ),
{
    let none = Seq::<char>::empty();
    let item = flag_item(base)(f);
    let link = "<li><a href=\""@ + base + "/c/"@ + escaped(f.id@) + "\">"@;
    let classes = join_of(coded(views(f.classes@)), ", "@);
    let tail = escaped(f.id@) + "</a> — "@ + escaped(f.verdict@) + " ("@;
    assert(none + link + (tail + classes + ")</li>"@) =~= item);
    crate::text::holds_its_middle(none, link, tail + classes + ")</li>"@);
    if 0 <= j < f.classes@.len() {
        assert(link + tail + classes + ")</li>"@ =~= item);
        crate::text::holds_its_middle(link + tail, classes, ")</li>"@);
        let names = coded(views(f.classes@));
        let one = "<code>"@ + escaped(f.classes@[j]@) + "</code>"@;
        assert(views(f.classes@)[j] == f.classes@[j]@);
        assert(names[j] == one);
        crate::text::join_holds_each(names, ", "@, j);
        crate::text::contains_within(item, classes, one);
    }
}

/// A concept's page shows its title, its body, every link and every link back,
/// each under the mount path; a link whose target is not in the bundle is shown as
/// absent and leads nowhere; and a flagged concept carries the warning.
pub proof fn a_concepts_page_shows_all_of_it(c: ConceptView, base: Seq<char>, i: int)
    ensures
        contains(concept_body(c, base), "<h1>"@ + escaped(c.title@) + "</h1>"@),
        contains(concept_body(c, base), c.body_html@),
        0 <= i < c.links@.len() ==> contains(
            concept_body(c, base),
            if c.links@[i].exists {
                "<li><a href=\""@ + base + "/c/"@ + escaped(c.links@[i].target@) + "\">"@
            } else {
                "<li class=\"absent\">"@ + escaped(c.links@[i].target@)
                    + " — not in this bundle</li>"@
            },
        ),
        0 <= i < c.backlinks@.len() ==> contains(
            concept_body(c, base),
            "<li><a href=\""@ + base + "/c/"@ + escaped(c.backlinks@[i]@) + "\">"@,
        ),
        c.screen@.len() > 0 ==> contains(concept_body(c, base), SCREENED_ONE@),
{
    let none = Seq::<char>::empty();
    let whole = concept_body(c, base);
    let screen = screen_of(views(c.screen@));
    let head = concept_head(c);
    let links = links_of(c.links@, base);
    let back = backlinks_of(views(c.backlinks@), base);
    let rel = "<div class=\"rel\">"@;
    let end = "</div></article>"@;
    assert("<article>"@ + screen + head + (rel + links + back + end) =~= whole);
    crate::text::holds_its_middle("<article>"@ + screen, head, rel + links + back + end);
    assert("<article>"@ + screen + (head + rel + links + back + end) =~= whole);
    crate::text::holds_its_middle("<article>"@, screen, head + rel + links + back + end);
    if c.screen@.len() > 0 {
        let list = join_of(coded(views(c.screen@)), ", "@) + ".</div>"@;
        assert(none + SCREENED_ONE@ + list =~= screen);
        crate::text::holds_its_middle(none, SCREENED_ONE@, list);
        crate::text::contains_within(whole, screen, SCREENED_ONE@);
    }
    a_head_shows_title_and_body(c);
    crate::text::contains_within(whole, head, "<h1>"@ + escaped(c.title@) + "</h1>"@);
    crate::text::contains_within(whole, head, c.body_html@);
    if 0 <= i < c.links@.len() {
        let lead = "<article>"@ + screen + head + rel;
        assert(lead + links + (back + end) =~= whole);
        crate::text::holds_its_middle(lead, links, back + end);
        let list = over(c.links@, link_item(base));
        crate::text::holds_its_middle("<h2>Links out</h2><ul>"@, list, "</ul>"@);
        crate::text::contains_within(whole, links, list);
        over_contains(c.links@, link_item(base), i);
        let item = link_item(base)(c.links@[i]);
        crate::text::contains_within(whole, list, item);
        if c.links@[i].exists {
            an_item_begins_with_its_link(base, c.links@[i].target@);
            crate::text::contains_within(
                whole,
                item,
                "<li><a href=\""@ + base + "/c/"@ + escaped(c.links@[i].target@) + "\">"@,
            );
        }
    }
    if 0 <= i < c.backlinks@.len() {
        let lead = "<article>"@ + screen + head + rel + links;
        assert(lead + back + end =~= whole);
        crate::text::holds_its_middle(lead, back, end);
        let names = views(c.backlinks@);
        let list = over(names, back_item(base));
        crate::text::holds_its_middle("<h2>Linked from</h2><ul>"@, list, "</ul>"@);
        crate::text::contains_within(whole, back, list);
        assert(names[i] == c.backlinks@[i]@);
        over_contains(names, back_item(base), i);
        crate::text::contains_within(whole, list, back_item(base)(names[i]));
        an_item_begins_with_its_link(base, names[i]);
        crate::text::contains_within(
            whole,
            back_item(base)(names[i]),
            "<li><a href=\""@ + base + "/c/"@ + escaped(names[i]) + "\">"@,
        );
    }
}

proof fn an_item_begins_with_its_link(base: Seq<char>, id: Seq<char>)
    ensures
        contains(
            item_of(base, id, id),
            "<li><a href=\""@ + base + "/c/"@ + escaped(id) + "\">"@,
        ),
{
    let none = Seq::<char>::empty();
    let link = "<li><a href=\""@ + base + "/c/"@ + escaped(id) + "\">"@;
    let rest = escaped(id) + "</a></li>"@;
    assert(none + link + rest =~= item_of(base, id, id));
    crate::text::holds_its_middle(none, link, rest);
}

proof fn a_head_shows_title_and_body(c: ConceptView)
    ensures
        contains(concept_head(c), "<h1>"@ + escaped(c.title@) + "</h1>"@),
        contains(concept_head(c), c.body_html@),
{
    let none = Seq::<char>::empty();
    let head = concept_head(c);
    let title = "<h1>"@ + escaped(c.title@) + "</h1>"@;
    let kind = match c.kind {
        Some(k) => "<span>"@ + escaped(k@) + "</span>"@,
        None => Seq::empty(),
    };
    let marks = pill_of(c.trust@, c.trust@) + kind + ("<span>"@ + escaped(c.status@) + "</span>"@)
        + "<code>"@ + escaped(c.path@) + "</code></p>"@;
    reveal_strlit("</h1><p class=\"meta\">");
    reveal_strlit("</h1>");
    reveal_strlit("<p class=\"meta\">");
    assert("</h1><p class=\"meta\">"@ =~= "</h1>"@ + "<p class=\"meta\">"@);
    let p = "<p class=\"meta\">"@;
    assert(none + title + (p + marks + c.body_html@) =~= head);
    crate::text::holds_its_middle(none, title, p + marks + c.body_html@);
    assert(title + p + marks + c.body_html@ + none =~= head);
    crate::text::holds_its_middle(title + p + marks, c.body_html@, none);
}

/// A page that says there is no such concept names it, inert, and leads back under
/// the mount path.
pub proof fn a_lost_concept_leads_back(id: Seq<char>, base: Seq<char>)
    ensures
        contains(no_concept(id, base), "<code>"@ + escaped(id) + "</code>"@),
        contains(no_concept(id, base), "<a href=\""@ + base + "/\">"@),
{
    let whole = no_concept(id, base);
    reveal_strlit("<p>The bundle contains no concept <code>");
    reveal_strlit("<p>The bundle contains no concept ");
    reveal_strlit("<code>");
    reveal_strlit("</code>. <a href=\"");
    reveal_strlit("</code>");
    reveal_strlit(". ");
    reveal_strlit("<a href=\"");
    reveal_strlit("/\">Back to the bundle</a>.</p>");
    reveal_strlit("/\">");
    reveal_strlit("Back to the bundle</a>.</p>");
    let lead = "<p>The bundle contains no concept "@;
    let name = "<code>"@ + escaped(id) + "</code>"@;
    let link = "<a href=\""@ + base + "/\">"@;
    let end = "Back to the bundle</a>.</p>"@;
    assert("<p>The bundle contains no concept <code>"@ =~= lead + "<code>"@);
    assert("</code>. <a href=\""@ =~= "</code>"@ + ". "@ + "<a href=\""@);
    assert("/\">Back to the bundle</a>.</p>"@ =~= "/\">"@ + end);
    assert(lead + name + (". "@ + link + end) =~= whole);
    crate::text::holds_its_middle(lead, name, ". "@ + link + end);
    assert(lead + name + ". "@ + link + end =~= whole);
    crate::text::holds_its_middle(lead + name + ". "@, link, end);
}

/// Only the endings of images give a file a type that a browser renders, in any
/// case; every other file is bytes.
pub proof fn only_images_are_typed(e: Seq<char>)
    ensures
        mime_of(None) == "application/octet-stream"@,
        ({
            let low = lower_of(e);
            &&& low == "png"@ ==> mime_of(Some(e)) == "image/png"@
            &&& low == "jpg"@ || low == "jpeg"@ ==> mime_of(Some(e)) == "image/jpeg"@
            &&& low == "gif"@ ==> mime_of(Some(e)) == "image/gif"@
            &&& low == "webp"@ ==> mime_of(Some(e)) == "image/webp"@
            &&& low == "svg"@ ==> mime_of(Some(e)) == "image/svg+xml"@
            &&& low != "png"@ && low != "jpg"@ && low != "jpeg"@ && low != "gif"@ && low != "webp"@
                && low != "svg"@ ==> mime_of(Some(e)) == "application/octet-stream"@
        }),
{
    reveal_strlit("png");
    reveal_strlit("jpg");
    reveal_strlit("jpeg");
    reveal_strlit("gif");
    reveal_strlit("webp");
    reveal_strlit("svg");
    assert("png"@[0] == 'p' && "jpg"@[0] == 'j' && "gif"@[0] == 'g' && "svg"@[0] == 's');
    assert("jpeg"@.len() == 4 && "jpeg"@[0] == 'j' && "webp"@[0] == 'w' && "webp"@.len() == 4);
    assert("png"@.len() == 3 && "jpg"@.len() == 3 && "gif"@.len() == 3 && "svg"@.len() == 3);
}

} // verus!
