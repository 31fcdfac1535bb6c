//! The explorer's web app: which asset a path serves, with which headers, and
//! how the palette gets into the shell.
use vstd::prelude::*;

use crate::text::{
    chars_of, contains, contains_part, find_from, first_at, occurs_at, same, string_of,
};

verus! {

/// The content type of the shell.
pub const HTML: &'static str = "text/html; charset=utf-8";

/// The content type of a script.
pub const JS: &'static str = "text/javascript; charset=utf-8";

/// The content type of the logo.
pub const SVG: &'static str = "image/svg+xml; charset=utf-8";

/// How long the shell, the way in, may be kept.
pub const CACHE_HTML: &'static str = "public, max-age=300";

/// How long an asset may be kept that changes only with the program.
pub const CACHE_JS: &'static str = "public, max-age=3600";

/// Where the palette goes in the shell.
pub const TOKENS_MARKER: &'static str = "/* @tokens */";

/// An asset of the app.
#[derive(Debug, Clone, Copy, PartialEq, Eq, Structural)]
pub enum Asset {
    Shell,
    App,
    GraphLibrary,
    Logo,
}

/// The asset that a path serves.
pub open spec fn asset_of(path: Seq<char>) -> Option<Asset> {
    if path == "/"@ || path == "/explorer"@ {
        Some(Asset::Shell)
    } else if path == "/app.js"@ {
        Some(Asset::App)
    } else if path == "/vendor/cytoscape.min.js"@ {
        Some(Asset::GraphLibrary)
    } else if path == "/sticker.svg"@ {
        Some(Asset::Logo)
    } else {
        None
    }
}

/// The asset that a path serves.
pub fn route(path: &str) -> (r: Option<Asset>)
    ensures
        r == asset_of(path@),
{
    if same(path, "/") || same(path, "/explorer") {
        Some(Asset::Shell)
    } else if same(path, "/app.js") {
        Some(Asset::App)
    } else if same(path, "/vendor/cytoscape.min.js") {
        Some(Asset::GraphLibrary)
    } else if same(path, "/sticker.svg") {
        Some(Asset::Logo)
    } else {
        None
    }
}

impl Asset {
    /// Its content type.
    pub open spec fn type_of(self) -> Seq<char> {
        match self {
            Asset::Shell => HTML@,
            Asset::App => JS@,
            Asset::GraphLibrary => JS@,
            Asset::Logo => SVG@,
        }
    }

    /// How long it may be kept.
    pub open spec fn cache_of(self) -> Seq<char> {
        match self {
            Asset::Shell => CACHE_HTML@,
            _ => CACHE_JS@,
        }
    }

    /// Its content type.
    pub fn content_type(self) -> (r: &'static str)
        ensures
            r@ == self.type_of(),
    {
        match self {
            Asset::Shell => HTML,
            Asset::App => JS,
            Asset::GraphLibrary => JS,
            Asset::Logo => SVG,
        }
    }

    /// How long it may be kept.
    pub fn cache_control(self) -> (r: &'static str)
        ensures
            r@ == self.cache_of(),
    {
        match self {
            Asset::Shell => CACHE_HTML,
            _ => CACHE_JS,
        }
    }
}

// ---------------------------------------------------------------------------
// The shell
// ---------------------------------------------------------------------------

/// `s` from `from` on, with `to` in the place of every `p`, found one after the
/// other.
pub open spec fn replaced(s: Seq<char>, p: Seq<char>, to: Seq<char>, from: int) -> Seq<char>
    decreases s.len() - from,
{
    if p.len() > 0 && 0 <= from && exists|i: int| first_at(s, p, from, i) {
        let i = choose|i: int| first_at(s, p, from, i);
        s.subrange(from, i) + to + replaced(s, p, to, i + p.len())
    } else {
        s.subrange(from, s.len() as int)
    }
}

proof fn first_is_one(s: Seq<char>, p: Seq<char>, from: int, i: int, j: int)
    requires
        first_at(s, p, from, i),
        first_at(s, p, from, j),
    ensures
        i == j,
{
    if i < j {
        assert(!occurs_at(s, p, i));
    } else if j < i {
        assert(!occurs_at(s, p, j));
    }
}

/// The shell: the template with the palette in the place of its marker.
pub open spec fn shell_of(template: Seq<char>, tokens: Seq<char>) -> Seq<char> {
    replaced(template, TOKENS_MARKER@, tokens, 0)
}

/// The shell: the template with the palette in the place of its marker.
pub fn shell(template: &str, tokens: &str) -> (r: String)
    ensures
        r@ == shell_of(template@, tokens@),
{
    let s = chars_of(template);
    let p = chars_of(TOKENS_MARKER);
    let n: usize = s.len();
    proof {
        reveal_strlit("/* @tokens */");
        assert(p@.len() == 13);
    }
    let mut out = String::new();
    let mut from: usize = 0;
    assert(out@ + replaced(s@, p@, tokens@, 0) =~= replaced(s@, p@, tokens@, 0));
    loop
        invariant_except_break
            out@ + replaced(s@, p@, tokens@, from as int) == replaced(s@, p@, tokens@, 0),
        invariant
            n == s@.len(),
            p@.len() == 13,
            from <= n,
        ensures
            out@ == replaced(s@, p@, tokens@, 0),
        decreases n - from,
    {
        match find_from(&s, &p, from) {
            Some(i) => {
                proof {
                    let k = choose|k: int| first_at(s@, p@, from as int, k);
                    assert(first_at(s@, p@, from as int, i as int));
                    first_is_one(s@, p@, from as int, i as int, k);
                    let head = s@.subrange(from as int, i as int);
                    let rest = replaced(s@, p@, tokens@, i + 13);
                    assert(replaced(s@, p@, tokens@, from as int) == head + tokens@ + rest);
                    assert(out@ + (head + tokens@ + rest) =~= (out@ + head + tokens@) + rest);
                }
                out.append(string_of(&s, from, i).as_str());
                out.append(tokens);
                from = i + p.len();
            },
            None => {
                assert(!(exists|k: int| first_at(s@, p@, from as int, k)));
                out.append(string_of(&s, from, n).as_str());
                break;
            },
        }
    }
    out
}

// ---------------------------------------------------------------------------
// Laws
// ---------------------------------------------------------------------------

/// A template without the marker is served as it is: the palette is then in no
/// place of it.
pub proof fn without_a_marker_nothing_changes(template: Seq<char>, tokens: Seq<char>)
    requires
        !contains(template, TOKENS_MARKER@),
    ensures
        shell_of(template, tokens) == template,
{
    assert forall|i: int| !first_at(template, TOKENS_MARKER@, 0, i) by {
        if first_at(template, TOKENS_MARKER@, 0, i) {
            assert(occurs_at(template, TOKENS_MARKER@, i));
        }
    }
    assert(template.subrange(0, template.len() as int) =~= template);
}

/// A template with the marker is served with the palette.
pub proof fn the_palette_is_in_the_shell(template: Seq<char>, tokens: Seq<char>, i: int)
    requires
        first_at(template, TOKENS_MARKER@, 0, i),
    ensures
        contains(shell_of(template, tokens), tokens),
{
    reveal_strlit("/* @tokens */");
    let p = TOKENS_MARKER@;
    let k = choose|k: int| first_at(template, p, 0, k);
    first_is_one(template, p, 0, i, k);
    assert(tokens.subrange(0, tokens.len() as int) =~= tokens);
    assert(occurs_at(tokens, tokens, 0));
    contains_part(template.subrange(0, k), tokens, replaced(template, p, tokens, k + p.len()), tokens);
}

proof fn replaced_at_first(s: Seq<char>, p: Seq<char>, to: Seq<char>, from: int, i: int)
    requires
        p.len() > 0,
        0 <= from,
        first_at(s, p, from, i),
    ensures
        replaced(s, p, to, from) == s.subrange(from, i) + to + replaced(s, p, to, i + p.len()),
{
    let k = choose|i: int| first_at(s, p, from, i);
    first_is_one(s, p, from, i, k);
}

/// Every marker gives way to the palette: a template up to its first marker stays,
/// the palette takes the marker's place, and what follows is a template again.
pub proof fn every_marker_gives_way(head: Seq<char>, rest: Seq<char>, tokens: Seq<char>)
    requires
        forall|i: int| occurs_at(head + TOKENS_MARKER@ + rest, TOKENS_MARKER@, i) ==> i >= head.len(),
    ensures
        shell_of(head + TOKENS_MARKER@ + rest, tokens) == head + tokens + shell_of(rest, tokens),
{
    reveal_strlit("/* @tokens */");
    let p = TOKENS_MARKER@;
    let s = head + p + rest;
    let n = head.len() as int;
    assert(s.subrange(n, n + p.len()) =~= p);
    assert(first_at(s, p, 0, n));
    replaced_at_first(s, p, tokens, 0, n);
    assert(s.subrange(0, n) =~= head);
    replacing_looks_ahead(head + p, rest, tokens, 0);
    assert(s =~= (head + p) + rest);
}

proof fn replacing_looks_ahead(front: Seq<char>, rest: Seq<char>, tokens: Seq<char>, from: int)
    requires
        0 <= from <= rest.len(),
    ensures
        replaced(front + rest, TOKENS_MARKER@, tokens, front.len() + from) == replaced(
            rest,
            TOKENS_MARKER@,
            tokens,
            from,
        ),
    decreases rest.len() - from,
{
    reveal_strlit("/* @tokens */");
    let p = TOKENS_MARKER@;
    let s = front + rest;
    let n = front.len() as int;
    assert forall|i: int| from <= i implies #[trigger] occurs_at(rest, p, i) == occurs_at(s, p, n + i) by {
        if i + p.len() <= rest.len() {
            assert(s.subrange(n + i, n + i + p.len()) =~= rest.subrange(i, i + p.len()));
        }
    }
    if exists|i: int| first_at(rest, p, from, i) {
        let i = choose|i: int| first_at(rest, p, from, i);
        assert forall|j: int| n + from <= j < n + i implies !occurs_at(s, p, j) by {
            assert(occurs_at(rest, p, j - n) == occurs_at(s, p, n + (j - n)));
        }
        assert(first_at(s, p, n + from, n + i));
        replaced_at_first(s, p, tokens, n + from, n + i);
        replaced_at_first(rest, p, tokens, from, i);
        replacing_looks_ahead(front, rest, tokens, i + p.len());
        assert(s.subrange(n + from, n + i) =~= rest.subrange(from, i));
    } else {
        let at = n + from;
        assert forall|k: int| !first_at(s, p, at, k) by {
            if first_at(s, p, at, k) {
                assert(occurs_at(rest, p, k - n) == occurs_at(s, p, n + (k - n)));
                assert forall|j: int| from <= j < k - n implies !occurs_at(rest, p, j) by {
                    assert(occurs_at(rest, p, j) == occurs_at(s, p, n + j));
                }
                assert(first_at(rest, p, from, k - n));
            }
        }
        assert(s.subrange(n + from, s.len() as int) =~= rest.subrange(from, rest.len() as int));
    }
}

/// Each asset is served at its own paths and at no other, the shell at two; and
/// the shell is kept for a shorter time than what it loads.
pub proof fn each_asset_has_its_paths(path: Seq<char>, a: Asset)
    ensures
        asset_of(path) == Some(Asset::Shell) <==> path == "/"@ || path == "/explorer"@,
        asset_of(path) == Some(Asset::App) <==> path == "/app.js"@,
        asset_of(path) == Some(Asset::GraphLibrary) <==> path == "/vendor/cytoscape.min.js"@,
        asset_of(path) == Some(Asset::Logo) <==> path == "/sticker.svg"@,
        a.type_of() == HTML@ <==> a == Asset::Shell,
        a.cache_of() == CACHE_HTML@ <==> a == Asset::Shell,
        a == Asset::App || a == Asset::GraphLibrary ==> a.type_of() == JS@,
        a == Asset::Logo ==> a.type_of() == SVG@,
{
    reveal_strlit("/");
    reveal_strlit("/explorer");
    reveal_strlit("/app.js");
    reveal_strlit("/vendor/cytoscape.min.js");
    reveal_strlit("/sticker.svg");
    assert("/"@.len() == 1);
    assert("/explorer"@.len() == 9);
    assert("/app.js"@.len() == 7);
    assert("/vendor/cytoscape.min.js"@.len() == 24);
    assert("/sticker.svg"@.len() == 12);
    reveal_strlit("text/html; charset=utf-8");
    reveal_strlit("text/javascript; charset=utf-8");
    reveal_strlit("image/svg+xml; charset=utf-8");
    reveal_strlit("public, max-age=300");
    reveal_strlit("public, max-age=3600");
    assert(HTML@.len() == 24 && JS@.len() == 30 && SVG@.len() == 28);
    assert(CACHE_HTML@.len() == 19 && CACHE_JS@.len() == 20);
}

} // verus!
