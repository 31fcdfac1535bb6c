//! Which version of the hub a spoke deploys: read off its submodules and image
//! references. A submodule's commit is unambiguous and wins; an image's tag is
//! tried as a git ref of the hub, as it is and with a `v` before it.
use vstd::prelude::*;

use crate::text::{
    chars_of, is_among, lower, lower_of, opt_str_view, opt_view, same, string_of, views,
};

verus! {

/// A detected pin: the hub's git rev, and where it came from.
#[derive(Debug)]
pub struct SpokePin {
    /// The hub's git rev.
    pub rev: String,
    /// What pins it, such as `submodule vendor/app`.
    pub via: String,
}

/// What the graph knows of a submodule.
pub struct Submodule {
    pub url: Option<String>,
    pub sha: Option<String>,
    pub path: Option<String>,
}

/// What the graph knows of an image reference.
pub struct ImageRef {
    pub image: Option<String>,
    pub tag: Option<String>,
}

// ---------------------------------------------------------------------------
// What a node's metadata says
// ---------------------------------------------------------------------------

/// A JSON value, as `serde_json` holds it.
#[verifier::external_type_specification]
#[verifier::external_body]
pub struct ExValue(serde_json::Value);

/// The members of a JSON object that are strings, by name. A value that is no
/// object has none.
pub uninterp spec fn texts_of(meta: serde_json::Value) -> Map<Seq<char>, Seq<char>>;

/// `serde_json::Value::get` and `Value::as_str`: the member of this name, where
/// the value is an object that has it and the member is a string.
#[verifier::external_body]
fn meta_str(meta: &serde_json::Value, key: &str) -> (r: Option<String>)
    ensures
        r is Some <==> texts_of(*meta).contains_key(key@),
        r matches Some(s) ==> s@ == texts_of(*meta)[key@],
{
    meta.get(key).and_then(serde_json::Value::as_str).map(str::to_owned)
}

/// The string member of this name.
pub open spec fn text_at(meta: serde_json::Value, key: Seq<char>) -> Option<Seq<char>> {
    if texts_of(meta).contains_key(key) {
        Some(texts_of(meta)[key])
    } else {
        None
    }
}

/// `s` is what the metadata says of a submodule.
pub open spec fn reads_submodule(s: Submodule, meta: serde_json::Value) -> bool {
    &&& opt_view(s.url) == text_at(meta, "url"@)
    &&& opt_view(s.sha) == text_at(meta, "sha"@)
    &&& opt_view(s.path) == text_at(meta, "path"@)
}

/// `r` is what the metadata says of an image reference.
pub open spec fn reads_image(r: ImageRef, meta: serde_json::Value) -> bool {
    &&& opt_view(r.image) == text_at(meta, "image"@)
    &&& opt_view(r.tag) == text_at(meta, "tag"@)
}

impl Submodule {
    /// What the metadata of a submodule's node says.
    pub fn read(meta: &serde_json::Value) -> (r: Self)
        ensures
            reads_submodule(r, *meta),
    {
        Submodule {
            url: meta_str(meta, "url"),
            sha: meta_str(meta, "sha"),
            path: meta_str(meta, "path"),
        }
    }
}

impl ImageRef {
    /// What the metadata of an image reference's node says.
    pub fn read(meta: &serde_json::Value) -> (r: Self)
        ensures
            reads_image(r, *meta),
    {
        ImageRef { image: meta_str(meta, "image"), tag: meta_str(meta, "tag") }
    }
}

// ---------------------------------------------------------------------------
// Names in URLs
// ---------------------------------------------------------------------------

/// `s` without the slashes at its end.
pub open spec fn without_slashes(s: Seq<char>) -> Seq<char>
    decreases s.len(),
{
    if s.len() > 0 && s.last() == '/' {
        without_slashes(s.drop_last())
    } else {
        s
    }
}

/// `s` ends with `.git`.
pub open spec fn ends_in_git(s: Seq<char>) -> bool {
    let n = s.len() as int;
    n >= 4 && s[n - 4] == '.' && s[n - 3] == 'g' && s[n - 2] == 'i' && s[n - 1] == 't'
}

/// `s` without any `.git` at its end.
pub open spec fn without_git(s: Seq<char>) -> Seq<char>
    decreases s.len(),
{
    if ends_in_git(s) {
        without_git(s.take(s.len() - 4))
    } else {
        s
    }
}

/// A git URL without what does not tell repositories apart at its end.
pub open spec fn bare_url(url: Seq<char>) -> Seq<char> {
    without_git(without_slashes(url))
}

fn bare(url: &str) -> (r: Vec<char>)
    ensures
        r@ == bare_url(url@),
{
    let mut v = chars_of(url);
    while v.len() > 0 && v[v.len() - 1] == '/'
        invariant
            without_slashes(url@) == without_slashes(v@),
        decreases v@.len(),
    {
        let ghost was = v@;
        v.pop();
        assert(v@ =~= was.drop_last());
    }
    loop
        invariant
            without_git(without_slashes(url@)) == without_git(v@),
        ensures
            v@ == bare_url(url@),
        decreases v@.len(),
    {
        let n: usize = v.len();
        let ends = n >= 4 && v[n - 4] == '.' && v[n - 3] == 'g' && v[n - 2] == 'i' && v[n - 1]
            == 't';
        if !ends {
            break;
        }
        let ghost was = v@;
        v.truncate(n - 4);
        assert(v@ =~= was.take(was.len() - 4));
    }
    v
}

/// A git URL in the form in which two are compared.
pub open spec fn norm_url_of(url: Seq<char>) -> Seq<char> {
    lower_of(bare_url(url))
}

/// A git URL in the form in which two are compared: no trailing `/` or `.git`,
/// in lower case.
pub fn norm_url(url: &str) -> (r: String)
    ensures
        r@ == norm_url_of(url@),
{
    let v = bare(url);
    assert(v@.subrange(0, v@.len() as int) =~= v@);
    let s = string_of(&v, 0, v.len());
    lower(s.as_str())
}

/// What follows the last `/`, or the last `/` or `:`, of `s`.
pub open spec fn tail_of(s: Seq<char>, colons: bool) -> Seq<char>
    decreases s.len(),
{
    if s.len() == 0 || s.last() == '/' || (colons && s.last() == ':') {
        Seq::empty()
    } else {
        tail_of(s.drop_last(), colons).push(s.last())
    }
}

proof fn tail_is_suffix(s: Seq<char>, colons: bool, from: int)
    requires
        0 <= from <= s.len(),
        forall|i: int|
            from <= i < s.len() ==> #[trigger] s[i] != '/' && !(colons && s[i] == ':'),
        from == 0 || s[from - 1] == '/' || (colons && s[from - 1] == ':'),
    ensures
        tail_of(s, colons) == s.skip(from),
    decreases s.len(),
{
    if from < s.len() {
        let t = s.drop_last();
        assert forall|i: int| from <= i < t.len() implies #[trigger] t[i] != '/' && !(colons && t[i]
            == ':') by {
            assert(s[i] == t[i]);
        }
        if from > 0 {
            assert(t[from - 1] == s[from - 1]);
        }
        tail_is_suffix(t, colons, from);
        assert(s[s.len() - 1] == s.last());
        assert(s.skip(from) =~= t.skip(from).push(s.last()));
    } else {
        assert(s.skip(from) =~= Seq::empty());
        if from > 0 {
            assert(s[from - 1] == s.last());
        }
    }
}

fn tail(v: &Vec<char>, colons: bool) -> (r: String)
    ensures
        r@ == tail_of(v@, colons),
{
    let mut from: usize = v.len();
    while from > 0 && v[from - 1] != '/' && !(colons && v[from - 1] == ':')
        invariant
            from <= v@.len(),
            forall|i: int|
                from <= i < v@.len() ==> #[trigger] v@[i] != '/' && !(colons && v@[i] == ':'),
        decreases from,
    {
        from = from - 1;
    }
    proof {
        tail_is_suffix(v@, colons, from as int);
        assert(v@.subrange(from as int, v@.len() as int) =~= v@.skip(from as int));
    }
    string_of(v, from, v.len())
}

/// The repository's name in a git URL.
pub open spec fn repo_basename_of(url: Seq<char>) -> Seq<char> {
    tail_of(bare_url(url), true)
}

/// The repository's name in a git URL.
pub fn repo_basename(url: &str) -> (r: String)
    ensures
        r@ == repo_basename_of(url@),
{
    let v = bare(url);
    tail(&v, true)
}

/// The last path segment of an image reference.
pub fn image_basename(image: &str) -> (r: String)
    ensures
        r@ == tail_of(image@, false),
{
    let v = chars_of(image);
    tail(&v, false)
}

/// A submodule's URL points at the hub: it is the hub's origin, or names a
/// repository of the hub's name.
pub open spec fn points_at_hub(url: Seq<char>, hub: Seq<char>, origin: Option<Seq<char>>) -> bool {
    (origin matches Some(o) && norm_url_of(o) == norm_url_of(url)) || repo_basename_of(url) == hub
}

/// Whether a submodule's URL points at the hub.
pub fn url_matches_hub(url: &str, hub_name: &str, hub_origin: Option<&str>) -> (r: bool)
    ensures
        r == points_at_hub(url@, hub_name@, opt_str_view(hub_origin)),
{
    let by_origin = match hub_origin {
        Some(o) => same(norm_url(o).as_str(), norm_url(url).as_str()),
        None => false,
    };
    by_origin || same(repo_basename(url).as_str(), hub_name)
}

// ---------------------------------------------------------------------------
// Pins
// ---------------------------------------------------------------------------

/// A submodule that pins the hub.
pub open spec fn pins_hub(s: Submodule, hub: Seq<char>, origin: Option<Seq<char>>) -> bool {
    s.sha is Some && (s.url matches Some(u) && points_at_hub(u@, hub, origin))
}

/// The first submodule that pins the hub stands at `i`.
pub open spec fn first_pin(
    subs: Seq<Submodule>,
    hub: Seq<char>,
    origin: Option<Seq<char>>,
    i: int,
) -> bool {
    &&& 0 <= i < subs.len()
    &&& pins_hub(subs[i], hub, origin)
    &&& forall|j: int| 0 <= j < i ==> !pins_hub(#[trigger] subs[j], hub, origin)
}

/// `p` is the pin of a submodule.
pub open spec fn is_submodule_pin(p: SpokePin, s: Submodule) -> bool {
    &&& p.rev@ == s.sha->0@
    &&& p.via@ == "submodule "@ + (match s.path {
        Some(path) => path@,
        None => "?"@,
    })
}

/// The pin of the first submodule that pins the hub.
pub fn submodule_pin(subs: &Vec<Submodule>, hub_name: &str, hub_origin: Option<&str>) -> (r: Option<
    SpokePin,
>)
    ensures
        r matches Some(p) ==> exists|i: int|
            #[trigger] first_pin(subs@, hub_name@, opt_str_view(hub_origin), i) && is_submodule_pin(
                p,
                subs@[i],
            ),
        r is None ==> forall|i: int|
            0 <= i < subs@.len() ==> !pins_hub(
                #[trigger] subs@[i],
                hub_name@,
                opt_str_view(hub_origin),
            ),
{
    let mut i: usize = 0;
    while i < subs.len()
        invariant
            i <= subs@.len(),
            forall|j: int|
                0 <= j < i ==> !pins_hub(#[trigger] subs@[j], hub_name@, opt_str_view(hub_origin)),
        decreases subs@.len() - i,
    {
        let s = &subs[i];
        match (&s.url, &s.sha) {
            (Some(url), Some(sha)) => {
                if url_matches_hub(url.as_str(), hub_name, hub_origin) {
                    let mut via = "submodule ".to_owned();
                    match &s.path {
                        Some(p) => {
                            via.append(p.as_str());
                        },
                        None => {
                            via.append("?");
                        },
                    }
                    assert(first_pin(subs@, hub_name@, opt_str_view(hub_origin), i as int));
                    return Some(SpokePin { rev: sha.clone(), via });
                }
            },
            _ => {},
        }
        i = i + 1;
    }
    None
}

/// A rev to try, and where it came from.
pub type Candidate = (Seq<char>, Seq<char>);

/// The revs that one image reference suggests: its tag, and its tag with a `v`
/// before it, if the image is the hub's.
pub open spec fn candidates_of(r: ImageRef, hub: Seq<char>) -> Seq<Candidate> {
    match (r.image, r.tag) {
        (Some(image), Some(tag)) => if tail_of(image@, false) == hub {
            let via = "image "@ + image@ + ":"@ + tag@;
            seq![(tag@, via), ("v"@ + tag@, via)]
        } else {
            Seq::empty()
        },
        _ => Seq::empty(),
    }
}

/// The revs that the image references suggest, in order.
pub open spec fn all_candidates(images: Seq<ImageRef>, hub: Seq<char>) -> Seq<Candidate>
    decreases images.len(),
{
    if images.len() == 0 {
        Seq::empty()
    } else {
        all_candidates(images.drop_last(), hub) + candidates_of(images.last(), hub)
    }
}

/// What the pins say.
pub open spec fn pin_views(v: Seq<SpokePin>) -> Seq<Candidate> {
    v.map_values(|p: SpokePin| (p.rev@, p.via@))
}

/// The revs that the image references suggest, in the order in which they are
/// to be tried.
pub fn image_candidates(images: &Vec<ImageRef>, hub_name: &str) -> (r: Vec<SpokePin>)
    ensures
        pin_views(r@) == all_candidates(images@, hub_name@),
{
    let mut r: Vec<SpokePin> = Vec::new();
    let mut i: usize = 0;
    assert(pin_views(r@) =~= Seq::empty());
    while i < images.len()
        invariant
            i <= images@.len(),
            pin_views(r@) == all_candidates(images@.take(i as int), hub_name@),
        decreases images@.len() - i,
    {
        let ghost was = r@;
        assert(images@.take(i + 1).drop_last() =~= images@.take(i as int));
        let ghost more = candidates_of(images@[i as int], hub_name@);
        match (&images[i].image, &images[i].tag) {
            (Some(image), Some(tag)) => {
                if same(image_basename(image.as_str()).as_str(), hub_name) {
                    let mut via = "image ".to_owned();
                    via.append(image.as_str());
                    via.append(":");
                    via.append(tag.as_str());
                    let mut versioned = "v".to_owned();
                    versioned.append(tag.as_str());
                    r.push(SpokePin { rev: tag.clone(), via: via.clone() });
                    r.push(SpokePin { rev: versioned, via });
                    assert(pin_views(r@) =~= pin_views(was) + more);
                } else {
                    assert(pin_views(r@) =~= pin_views(was) + more);
                }
            },
            _ => {
                assert(pin_views(r@) =~= pin_views(was) + more);
            },
        }
        i = i + 1;
    }
    assert(images@.take(images@.len() as int) =~= images@);
    r
}

/// The first candidate that is a rev of the hub stands at `i`.
pub open spec fn first_known(cands: Seq<Candidate>, revs: Seq<Seq<char>>, i: int) -> bool {
    &&& 0 <= i < cands.len()
    &&& revs.contains(cands[i].0)
    &&& forall|j: int| 0 <= j < i ==> !revs.contains((#[trigger] cands[j]).0)
}

/// `r` is the pin that the spoke's submodules and images give.
pub open spec fn detected(
    r: Option<SpokePin>,
    subs: Seq<Submodule>,
    images: Seq<ImageRef>,
    hub: Seq<char>,
    origin: Option<Seq<char>>,
    revs: Seq<Seq<char>>,
) -> bool {
    let cands = all_candidates(images, hub);
    if exists|i: int| first_pin(subs, hub, origin, i) {
        r matches Some(p) && exists|i: int|
            #[trigger] first_pin(subs, hub, origin, i) && is_submodule_pin(p, subs[i])
    } else if exists|i: int| first_known(cands, revs, i) {
        r matches Some(p) && exists|i: int|
            #[trigger] first_known(cands, revs, i) && (p.rev@, p.via@) == cands[i]
    } else {
        r is None
    }
}

/// Which hub version a spoke pins, if any. `revs` holds those of the
/// [`image_candidates`] that are revs of the hub.
pub fn detect_among(
    subs: &Vec<Submodule>,
    images: &Vec<ImageRef>,
    hub_name: &str,
    hub_origin: Option<&str>,
    revs: &Vec<String>,
) -> (r: Option<SpokePin>)
    ensures
        detected(r, subs@, images@, hub_name@, opt_str_view(hub_origin), views(revs@)),
{
    match submodule_pin(subs, hub_name, hub_origin) {
        Some(p) => {
            return Some(p);
        },
        None => {},
    }
    let cands = image_candidates(images, hub_name);
    let ghost all = all_candidates(images@, hub_name@);
    let mut i: usize = 0;
    while i < cands.len()
        invariant
            i <= cands@.len(),
            all == all_candidates(images@, hub_name@),
            pin_views(cands@) == all,
            forall|k: int| !first_pin(subs@, hub_name@, opt_str_view(hub_origin), k),
            forall|j: int| 0 <= j < i ==> !views(revs@).contains((#[trigger] all[j]).0),
        decreases cands@.len() - i,
    {
        assert(all[i as int] == (cands@[i as int].rev@, cands@[i as int].via@));
        if is_among(revs, cands[i].rev.as_str()) {
            assert(first_known(all, views(revs@), i as int));
            return Some(SpokePin { rev: cands[i].rev.clone(), via: cands[i].via.clone() });
        }
        i = i + 1;
    }
    assert(forall|k: int| !first_known(all, views(revs@), k));
    None
}

/// `subs` and `images` are what the metadata of the nodes says.
pub open spec fn all_read(
    subs: Seq<Submodule>,
    images: Seq<ImageRef>,
    sub_nodes: Seq<serde_json::Value>,
    image_nodes: Seq<serde_json::Value>,
) -> bool {
    &&& subs.len() == sub_nodes.len()
    &&& images.len() == image_nodes.len()
    &&& forall|i: int|
        0 <= i < subs.len() ==> reads_submodule(#[trigger] subs[i], sub_nodes[i])
    &&& forall|i: int|
        0 <= i < images.len() ==> reads_image(#[trigger] images[i], image_nodes[i])
}

/// What the metadata of the image references' nodes says, in order.
pub fn read_images(nodes: &Vec<serde_json::Value>) -> (r: Vec<ImageRef>)
    ensures
        r@.len() == nodes@.len(),
        forall|i: int| 0 <= i < r@.len() ==> reads_image(#[trigger] r@[i], nodes@[i]),
{
    let mut r: Vec<ImageRef> = Vec::new();
    let mut i: usize = 0;
    while i < nodes.len()
        invariant
            i <= nodes@.len(),
            r@.len() == i,
            forall|j: int| 0 <= j < i ==> reads_image(#[trigger] r@[j], nodes@[j]),
        decreases nodes@.len() - i,
    {
        r.push(ImageRef::read(&nodes[i]));
        i = i + 1;
    }
    r
}

/// Which hub version a spoke pins, if any, by the metadata of its submodule and
/// image nodes. `revs` holds those of the [`image_candidates`] that are revs of
/// the hub.
pub fn detect(
    sub_nodes: &Vec<serde_json::Value>,
    image_nodes: &Vec<serde_json::Value>,
    hub_name: &str,
    hub_origin: Option<&str>,
    revs: &Vec<String>,
) -> (r: Option<SpokePin>)
    ensures
        exists|subs: Seq<Submodule>, images: Seq<ImageRef>| #[trigger]
            all_read(subs, images, sub_nodes@, image_nodes@) && detected(
                r,
                subs,
                images,
                hub_name@,
                opt_str_view(hub_origin),
                views(revs@),
            ),
{
    let mut subs: Vec<Submodule> = Vec::new();
    let mut i: usize = 0;
    while i < sub_nodes.len()
        invariant
            i <= sub_nodes@.len(),
            subs@.len() == i,
            forall|j: int| 0 <= j < i ==> reads_submodule(#[trigger] subs@[j], sub_nodes@[j]),
        decreases sub_nodes@.len() - i,
    {
        subs.push(Submodule::read(&sub_nodes[i]));
        i = i + 1;
    }
    let images = read_images(image_nodes);
    assert(all_read(subs@, images@, sub_nodes@, image_nodes@));
    detect_among(&subs, &images, hub_name, hub_origin, revs)
}

/// A submodule that pins the hub settles it, whatever images the spoke refers
/// to.
pub proof fn a_submodule_wins(
    r: Option<SpokePin>,
    subs: Seq<Submodule>,
    images: Seq<ImageRef>,
    hub: Seq<char>,
    origin: Option<Seq<char>>,
    revs: Seq<Seq<char>>,
    i: int,
)
    requires
        detected(r, subs, images, hub, origin, revs),
        first_pin(subs, hub, origin, i),
    ensures
        r is Some,
        is_submodule_pin(r->0, subs[i]),
{
    let k = choose|k: int|
        #[trigger] first_pin(subs, hub, origin, k) && is_submodule_pin(r->0, subs[k]);
    if k < i {
        assert(!pins_hub(subs[k], hub, origin));
    } else if i < k {
        assert(!pins_hub(subs[i], hub, origin));
    }
}

/// A URL compares as one with what a slash makes of it, and, unless it ends in a
/// slash, with what `.git` makes of it.
pub proof fn url_endings_do_not_matter(url: Seq<char>)
    ensures
        norm_url_of(url + "/"@) == norm_url_of(url),
        without_slashes(url) == url ==> norm_url_of(url + ".git"@) == norm_url_of(url),
{
    reveal_strlit("/");
    reveal_strlit(".git");
    assert((url + "/"@).drop_last() =~= url);
    let g = url + ".git"@;
    if without_slashes(url) == url {
        assert(g.last() == 't');
        assert(without_slashes(g) == g);
        assert(g.take(g.len() - 4) =~= url);
    }
}

// ---------------------------------------------------------------------------
// What names a repository
// ---------------------------------------------------------------------------

/// A name that can be a repository's: not empty, of one segment, and with no
/// ending that a URL may drop.
pub open spec fn plain_name(name: Seq<char>) -> bool {
    name.len() > 0 && !name.contains('/') && !name.contains(':') && !ends_in_git(name)
}

proof fn name_is_the_tail(front: Seq<char>, name: Seq<char>, colons: bool)
    requires
        !name.contains('/'),
        colons ==> !name.contains(':'),
    ensures
        tail_of(name, colons) == name,
        tail_of(front + seq!['/'] + name, colons) == name,
        colons ==> tail_of(front + seq![':'] + name, colons) == name,
{
    assert forall|i: int| 0 <= i < name.len() implies #[trigger] name[i] != '/' && !(colons
        && name[i] == ':') by {
        assert(name.contains(name[i]));
    }
    tail_is_suffix(name, colons, 0);
    assert(name.skip(0) =~= name);
    let a = front + seq!['/'] + name;
    let b = front + seq![':'] + name;
    let n = front.len() as int + 1;
    assert forall|i: int| n <= i < a.len() implies #[trigger] a[i] != '/' && !(colons && a[i] == ':') by {
        assert(a[i] == name[i - n]);
    }
    tail_is_suffix(a, colons, n);
    assert(a.skip(n) =~= name);
    if colons {
        assert forall|i: int| n <= i < b.len() implies #[trigger] b[i] != '/' && !(colons && b[i]
            == ':') by {
            assert(b[i] == name[i - n]);
        }
        tail_is_suffix(b, colons, n);
        assert(b.skip(n) =~= name);
    }
}

proof fn endings_are_bare(s: Seq<char>, slashes: Seq<char>)
    requires
        s.len() > 0,
        s.last() != '/',
        !ends_in_git(s),
        forall|i: int| 0 <= i < slashes.len() ==> #[trigger] slashes[i] == '/',
    ensures
        bare_url(s + slashes) == s,
        bare_url(s + ".git"@ + slashes) == s,
    decreases slashes.len(),
{
    reveal_strlit(".git");
    let g = s + ".git"@;
    if slashes.len() == 0 {
        assert(s + slashes =~= s);
        assert(g + slashes =~= g);
        assert(g.take(g.len() - 4) =~= s);
        assert(without_slashes(g) == g);
    } else {
        let rest = slashes.drop_last();
        assert((s + slashes).drop_last() =~= s + rest);
        assert((g + slashes).drop_last() =~= g + rest);
        assert(slashes[slashes.len() - 1] == '/');
        endings_are_bare(s, rest);
    }
}

proof fn a_name_ends_bare(front: Seq<char>, sep: char, name: Seq<char>)
    requires
        plain_name(name),
        sep == '/' || sep == ':',
    ensures
        !ends_in_git(front + seq![sep] + name),
        (front + seq![sep] + name).last() != '/',
        name.last() != '/',
{
    let u = front + seq![sep] + name;
    let n = u.len() as int;
    let k = name.len() as int;
    assert(name.contains(name[k - 1]));
    assert(u.last() == name[k - 1]);
    if ends_in_git(u) {
        assert(u[n - 4] == '.' && u[n - 3] == 'g' && u[n - 2] == 'i' && u[n - 1] == 't');
        if k >= 4 {
            assert(name[k - 4] == u[n - 4] && name[k - 3] == u[n - 3] && name[k - 2] == u[n - 2]
                && name[k - 1] == u[n - 1]);
        } else {
            assert(u[n - k - 1] == sep);
        }
    }
}

/// Whatever host, user or directory comes before it, and whichever of the endings
/// `.git` and `/` come behind it, the name after the last `/` or `:` is the
/// repository's.
pub proof fn the_last_name_is_the_repositorys(
    front: Seq<char>,
    sep: char,
    name: Seq<char>,
    slashes: Seq<char>,
)
    requires
        plain_name(name),
        sep == '/' || sep == ':',
        forall|i: int| 0 <= i < slashes.len() ==> #[trigger] slashes[i] == '/',
    ensures
        repo_basename_of(front + seq![sep] + name + slashes) == name,
        repo_basename_of(front + seq![sep] + name + ".git"@ + slashes) == name,
        repo_basename_of(name + slashes) == name,
        repo_basename_of(name + ".git"@ + slashes) == name,
{
    a_name_ends_bare(front, sep, name);
    endings_are_bare(front + seq![sep] + name, slashes);
    endings_are_bare(name, slashes);
    name_is_the_tail(front, name, true);
}

/// A URL whose repository has the hub's name points at the hub, whatever is known
/// of the hub's origin; so does the origin itself, however its letters are cased;
/// and nothing else does. Learning an origin never turns a URL away.
pub proof fn a_name_or_the_origin_points_at_the_hub(
    url: Seq<char>,
    hub: Seq<char>,
    origin: Option<Seq<char>>,
)
    ensures
        repo_basename_of(url) == hub ==> points_at_hub(url, hub, origin),
        points_at_hub(url, hub, None) ==> points_at_hub(url, hub, origin),
        points_at_hub(url, hub, Some(url)),
        origin matches Some(o) && lower_of(bare_url(o)) == lower_of(bare_url(url))
            ==> points_at_hub(url, hub, origin),
        points_at_hub(url, hub, None) ==> repo_basename_of(url) == hub,
        points_at_hub(url, hub, origin) && repo_basename_of(url) != hub ==> origin is Some
            && lower_of(bare_url(origin->0)) == lower_of(bare_url(url)),
{
}

/// The letters' case in a URL does not tell repositories apart where the endings
/// are gone: two such URLs that differ in it alone compare as one.
pub proof fn case_does_not_matter(a: Seq<char>, b: Seq<char>)
    requires
        a.len() > 0 && a.last() != '/' && !ends_in_git(a),
        b.len() > 0 && b.last() != '/' && !ends_in_git(b),
    ensures
        norm_url_of(a) == norm_url_of(b) <==> lower_of(a) == lower_of(b),
{
    let none = Seq::<char>::empty();
    endings_are_bare(a, none);
    endings_are_bare(b, none);
    assert(a + none =~= a);
    assert(b + none =~= b);
}

/// An image's name is its last path segment: a registry's port or a directory
/// before it does not count.
pub proof fn an_images_name_is_its_last_segment(front: Seq<char>, name: Seq<char>)
    requires
        !name.contains('/'),
    ensures
        tail_of(name, false) == name,
        tail_of(front + seq!['/'] + name, false) == name,
{
    name_is_the_tail(front, name, false);
}

// ---------------------------------------------------------------------------
// What is detected
// ---------------------------------------------------------------------------

/// The submodule has a commit, and a URL that points at the hub.
pub open spec fn settles_it(s: Submodule, hub: Seq<char>, origin: Option<Seq<char>>) -> bool {
    s.sha is Some && s.url is Some && points_at_hub(s.url->0@, hub, origin)
}

/// The image reference is to the hub's image, and its tag, as it is or with a `v`
/// before it, is a rev of the hub.
pub open spec fn suggests(r: ImageRef, hub: Seq<char>, revs: Seq<Seq<char>>) -> bool {
    r.image is Some && r.tag is Some && tail_of(r.image->0@, false) == hub && (revs.contains(
        r.tag->0@,
    ) || revs.contains("v"@ + r.tag->0@))
}

/// The first submodule with a commit whose URL points at the hub gives the pin,
/// whether or not its path is known, and whatever images there are.
pub proof fn the_first_such_submodule_pins(
    r: Option<SpokePin>,
    subs: Seq<Submodule>,
    images: Seq<ImageRef>,
    hub: Seq<char>,
    origin: Option<Seq<char>>,
    revs: Seq<Seq<char>>,
    i: int,
)
    requires
        detected(r, subs, images, hub, origin, revs),
        0 <= i < subs.len(),
        settles_it(subs[i], hub, origin),
        forall|j: int| 0 <= j < i ==> !settles_it(#[trigger] subs[j], hub, origin),
    ensures
        r is Some,
        r->0.rev@ == subs[i].sha->0@,
        r->0.via@ == "submodule "@ + (match subs[i].path {
            Some(path) => path@,
            None => "?"@,
        }),
{
    assert forall|j: int| 0 <= j < i implies !pins_hub(#[trigger] subs[j], hub, origin) by {
        assert(!settles_it(subs[j], hub, origin));
    }
    assert(first_pin(subs, hub, origin, i));
    a_submodule_wins(r, subs, images, hub, origin, revs, i);
}

proof fn candidates_split(images: Seq<ImageRef>, hub: Seq<char>, i: int) -> (rest: Seq<Candidate>)
    requires
        0 <= i < images.len(),
    ensures
        all_candidates(images, hub) == all_candidates(images.take(i), hub) + candidates_of(
            images[i],
            hub,
        ) + rest,
    decreases images.len(),
{
    if i == images.len() - 1 {
        assert(images.drop_last() =~= images.take(i));
        let none = Seq::<Candidate>::empty();
        let all = all_candidates(images.take(i), hub) + candidates_of(images[i], hub);
        assert(all + none =~= all);
        none
    } else {
        let front = images.drop_last();
        let rest = candidates_split(front, hub, i);
        assert(front.take(i) =~= images.take(i));
        let more = rest + candidates_of(images.last(), hub);
        let head = all_candidates(images.take(i), hub) + candidates_of(images[i], hub);
        assert(head + rest + candidates_of(images.last(), hub) =~= head + more);
        more
    }
}

proof fn none_known(images: Seq<ImageRef>, hub: Seq<char>, revs: Seq<Seq<char>>)
    requires
        forall|j: int| 0 <= j < images.len() ==> !suggests(#[trigger] images[j], hub, revs),
    ensures
        forall|k: int|
            0 <= k < all_candidates(images, hub).len() ==> !revs.contains(
                (#[trigger] all_candidates(images, hub)[k]).0,
            ),
    decreases images.len(),
{
    if images.len() > 0 {
        let front = images.drop_last();
        assert forall|j: int| 0 <= j < front.len() implies !suggests(#[trigger] front[j], hub, revs) by {
            assert(front[j] == images[j]);
        }
        none_known(front, hub, revs);
        assert(!suggests(images[images.len() - 1], hub, revs));
        let a = all_candidates(front, hub);
        let c = candidates_of(images.last(), hub);
        let all = all_candidates(images, hub);
        assert forall|k: int| 0 <= k < all.len() implies !revs.contains((#[trigger] all[k]).0) by {
            if k < a.len() {
                assert(all[k] == a[k]);
            } else {
                assert(all[k] == c[k - a.len()]);
            }
        }
    }
}

/// Where no submodule settles it, the first image reference that suggests a rev of
/// the hub gives the pin: its tag where that is a rev, else its tag with a `v`
/// before it. Where none suggests one, there is no pin.
pub proof fn the_first_such_image_pins(
    r: Option<SpokePin>,
    subs: Seq<Submodule>,
    images: Seq<ImageRef>,
    hub: Seq<char>,
    origin: Option<Seq<char>>,
    revs: Seq<Seq<char>>,
)
    requires
        detected(r, subs, images, hub, origin, revs),
        forall|j: int| 0 <= j < subs.len() ==> !settles_it(#[trigger] subs[j], hub, origin),
    ensures
        (forall|j: int| 0 <= j < images.len() ==> !suggests(#[trigger] images[j], hub, revs))
            ==> r is None,
        forall|i: int|
            #![trigger images[i]]
            0 <= i < images.len() && suggests(images[i], hub, revs) && (forall|j: int|
                0 <= j < i ==> !suggests(#[trigger] images[j], hub, revs)) ==> {
                &&& r is Some
                &&& r->0.rev@ == (if revs.contains(images[i].tag->0@) {
                    images[i].tag->0@
                } else {
                    "v"@ + images[i].tag->0@
                })
                &&& r->0.via@ == "image "@ + images[i].image->0@ + ":"@ + images[i].tag->0@
            },
{
    let all = all_candidates(images, hub);
    assert forall|k: int| !first_pin(subs, hub, origin, k) by {
        if first_pin(subs, hub, origin, k) {
            assert(!settles_it(subs[k], hub, origin));
        }
    }
    if forall|j: int| 0 <= j < images.len() ==> !suggests(#[trigger] images[j], hub, revs) {
        none_known(images, hub, revs);
        assert forall|k: int| !first_known(all, revs, k) by {
            if first_known(all, revs, k) {
                assert(!revs.contains(all[k].0));
            }
        }
    }
    assert forall|i: int|
        #![trigger images[i]]
        0 <= i < images.len() && suggests(images[i], hub, revs) && (forall|j: int|
            0 <= j < i ==> !suggests(#[trigger] images[j], hub, revs)) implies {
        &&& r is Some
        &&& r->0.rev@ == (if revs.contains(images[i].tag->0@) {
            images[i].tag->0@
        } else {
            "v"@ + images[i].tag->0@
        })
        &&& r->0.via@ == "image "@ + images[i].image->0@ + ":"@ + images[i].tag->0@
    } by {
        let front = images.take(i);
        let a = all_candidates(front, hub);
        let c = candidates_of(images[i], hub);
        assert forall|j: int| 0 <= j < front.len() implies !suggests(#[trigger] front[j], hub, revs) by {
            assert(front[j] == images[j]);
        }
        none_known(front, hub, revs);
        let rest = candidates_split(images, hub, i);
        let at = if revs.contains(images[i].tag->0@) {
            a.len() as int
        } else {
            a.len() as int + 1
        };
        assert(all[a.len() as int] == c[0]);
        assert(all[a.len() as int + 1] == c[1]);
        assert forall|j: int| 0 <= j < at implies !revs.contains((#[trigger] all[j]).0) by {
            if j < a.len() {
                assert(all[j] == a[j]);
            }
        }
        assert(first_known(all, revs, at));
        let k = choose|k: int| #[trigger] first_known(all, revs, k) && (r->0.rev@, r->0.via@) == all[k];
        if k < at {
            assert(!revs.contains(all[k].0));
        } else if at < k {
            assert(!revs.contains(all[at].0));
        }
    }
}

/// What is read of a node's metadata: each text by its own name, and nothing where
/// the metadata has no text of that name.
pub proof fn each_text_is_read_by_its_name(
    s: Submodule,
    r: ImageRef,
    meta: serde_json::Value,
)
    ensures
        reads_submodule(s, meta) ==> {
            &&& s.url is Some <==> texts_of(meta).contains_key("url"@)
            &&& s.url is Some ==> s.url->0@ == texts_of(meta)["url"@]
            &&& s.sha is Some <==> texts_of(meta).contains_key("sha"@)
            &&& s.sha is Some ==> s.sha->0@ == texts_of(meta)["sha"@]
            &&& s.path is Some <==> texts_of(meta).contains_key("path"@)
            &&& s.path is Some ==> s.path->0@ == texts_of(meta)["path"@]
        },
        reads_image(r, meta) ==> {
            &&& r.image is Some <==> texts_of(meta).contains_key("image"@)
            &&& r.image is Some ==> r.image->0@ == texts_of(meta)["image"@]
            &&& r.tag is Some <==> texts_of(meta).contains_key("tag"@)
            &&& r.tag is Some ==> r.tag->0@ == texts_of(meta)["tag"@]
        },
{
}

} // verus!
