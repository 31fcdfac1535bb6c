//! Paths in the configuration, as strings with `/` between their components: the
//! rules here are those of Unix, on every system.
use vstd::prelude::*;

use crate::seqs::{filter_push, filter_step};
use crate::text::{begins, chars_of, opt_view, same, split, split_of, starts, string_of, views};

verus! {

/// `seg` under `base`; `seg` itself where it is absolute.
pub open spec fn joined(base: Seq<char>, seg: Seq<char>) -> Seq<char> {
    if seg.len() > 0 && seg[0] == '/' {
        seg
    } else if base.len() == 0 || base.last() == '/' {
        base + seg
    } else {
        base + "/"@ + seg
    }
}

/// `seg` under `base`; `seg` itself where it is absolute.
pub fn join_path(base: &str, seg: &str) -> (r: String)
    ensures
        r@ == joined(base@, seg@),
{
    let b = chars_of(base);
    let s = chars_of(seg);
    if s.len() > 0 && s[0] == '/' {
        return seg.to_owned();
    }
    let mut r = base.to_owned();
    if b.len() > 0 && b[b.len() - 1] != '/' {
        r.append("/");
    }
    r.append(seg);
    r
}

/// `s` without the slashes at its front.
pub open spec fn unrooted(s: Seq<char>) -> Seq<char>
    decreases s.len(),
{
    if s.len() > 0 && s[0] == '/' {
        unrooted(s.skip(1))
    } else {
        s
    }
}

/// The place in `v`, from `from` on, behind the slashes that stand there.
fn behind_slashes(v: &Vec<char>, from: usize) -> (r: usize)
    requires
        from <= v@.len(),
    ensures
        from <= r <= v@.len(),
        v@.skip(r as int) == unrooted(v@.skip(from as int)),
{
    let mut i: usize = from;
    while i < v.len() && v[i] == '/'
        invariant
            from <= i <= v@.len(),
            unrooted(v@.skip(i as int)) == unrooted(v@.skip(from as int)),
        decreases v@.len() - i,
    {
        assert(v@.skip(i as int).skip(1) =~= v@.skip(i + 1));
        i = i + 1;
    }
    i
}

/// A path with a leading `~` read as the home directory, where there is one. All
/// that follows `~/` lies under it, however many slashes it begins with.
pub open spec fn expanded(path: Seq<char>, home: Option<Seq<char>>) -> Seq<char> {
    match home {
        None => path,
        Some(h) => if path == "~"@ {
            h
        } else if begins(path, "~/"@) {
            joined(h, unrooted(path.skip(2)))
        } else {
            path
        },
    }
}

/// Expands a leading `~/`, or a bare `~`, to the home directory. Any other path,
/// and any path where there is no home, is left as it is.
pub fn expand_tilde(path: &str, home: &Option<String>) -> (r: String)
    ensures
        r@ == expanded(path@, opt_view(*home)),
{
    match home {
        None => path.to_owned(),
        Some(h) => {
            if same(path, "~") {
                h.clone()
            } else if starts(path, "~/") {
                proof {
                    reveal_strlit("~/");
                }
                let v = chars_of(path);
                let from: usize = behind_slashes(&v, 2);
                let rest = string_of(&v, from, v.len());
                assert(rest@ =~= path@.skip(from as int));
                join_path(h.as_str(), rest.as_str())
            } else {
                path.to_owned()
            }
        },
    }
}

/// Each path with a leading `~` read as the home directory.
pub open spec fn all_expanded(paths: Seq<Seq<char>>, home: Option<Seq<char>>) -> Seq<Seq<char>> {
    paths.map_values(|p: Seq<char>| expanded(p, home))
}

/// Expands a leading `~` in every path.
pub fn expand_tilde_all(paths: &Vec<String>, home: &Option<String>) -> (r: Vec<String>)
    ensures
        views(r@) == all_expanded(views(paths@), opt_view(*home)),
{
    let mut r: Vec<String> = Vec::new();
    let mut i: usize = 0;
    while i < paths.len()
        invariant
            i <= paths@.len(),
            r@.len() == i,
            forall|j: int|
                0 <= j < i ==> (#[trigger] r@[j])@ == expanded(paths@[j]@, opt_view(*home)),
        decreases paths@.len() - i,
    {
        r.push(expand_tilde(paths[i].as_str(), home));
        i = i + 1;
    }
    assert(views(r@) =~= all_expanded(views(paths@), opt_view(*home)));
    r
}

/// Roteiro's own directory: the one it is told, else `.roteiro` at home.
pub open spec fn home_of(own: Option<Seq<char>>, home: Option<Seq<char>>) -> Option<Seq<char>> {
    match own {
        Some(h) => Some(h),
        None => match home {
            Some(h) => Some(joined(h, ".roteiro"@)),
            None => None,
        },
    }
}

/// Roteiro's own directory: `own` (`$ROTEIRO_HOME`) where it is set, else
/// `.roteiro` under `home`.
pub fn roteiro_home(own: &Option<String>, home: &Option<String>) -> (r: Option<String>)
    ensures
        opt_view(r) == home_of(opt_view(*own), opt_view(*home)),
{
    match own {
        Some(h) => Some(h.clone()),
        None => match home {
            Some(h) => Some(join_path(h.as_str(), ".roteiro")),
            None => None,
        },
    }
}

/// The rotating log's path where none is given.
pub fn default_log_path(own: &Option<String>, home: &Option<String>) -> (r: Option<String>)
    ensures
        opt_view(r) == (match home_of(opt_view(*own), opt_view(*home)) {
            Some(h) => Some(joined(joined(h, "logs"@), "roteiro.log"@)),
            None => None,
        }),
{
    match roteiro_home(own, home) {
        Some(h) => Some(join_path(join_path(h.as_str(), "logs").as_str(), "roteiro.log")),
        None => None,
    }
}

/// The path of the user's configuration.
pub fn user_config_path(own: &Option<String>, home: &Option<String>) -> (r: Option<String>)
    ensures
        opt_view(r) == (match home_of(opt_view(*own), opt_view(*home)) {
            Some(h) => Some(joined(h, "config.toml"@)),
            None => None,
        }),
{
    match roteiro_home(own, home) {
        Some(h) => Some(join_path(h.as_str(), "config.toml")),
        None => None,
    }
}

/// A directory, and what was found in it.
pub struct Ancestor {
    pub dir: String,
    /// It holds a `.git` entry.
    pub has_git: bool,
    /// It holds a `roteiro.toml` file.
    pub has_config: bool,
}

/// The repository root among `dirs`: the first that holds a `.git` entry.
pub open spec fn root_at(dirs: Seq<Ancestor>, i: int) -> bool {
    &&& 0 <= i < dirs.len()
    &&& dirs[i].has_git
    &&& forall|j: int| 0 <= j < i ==> !(#[trigger] dirs[j]).has_git
}

/// The project's configuration: the `roteiro.toml` at the repository root, where
/// `dirs` is a directory followed by its ancestors. Neither a nested file nor
/// one outside the repository is ever taken.
pub fn find_project_config(dirs: &Vec<Ancestor>) -> (r: Option<String>)
    ensures
        forall|i: int|
            #[trigger] root_at(dirs@, i) ==> opt_view(r) == (if dirs@[i].has_config {
                Some(joined(dirs@[i].dir@, "roteiro.toml"@))
            } else {
                None
            }),
        (forall|i: int| 0 <= i < dirs@.len() ==> !(#[trigger] dirs@[i]).has_git) ==> r is None,
{
    let mut i: usize = 0;
    while i < dirs.len()
        invariant
            i <= dirs@.len(),
            forall|j: int| 0 <= j < i ==> !(#[trigger] dirs@[j]).has_git,
        decreases dirs@.len() - i,
    {
        if dirs[i].has_git {
            assert forall|k: int| #[trigger] root_at(dirs@, k) implies k == i by {
                if k > i {
                    assert(!dirs@[i as int].has_git);
                }
            }
            return if dirs[i].has_config {
                Some(join_path(dirs[i].dir.as_str(), "roteiro.toml"))
            } else {
                None
            };
        }
        i = i + 1;
    }
    None
}

// ---------------------------------------------------------------------------
// Components
// ---------------------------------------------------------------------------

/// A segment that counts as a component: neither empty nor `.`.
pub open spec fn counts() -> spec_fn(Seq<char>) -> bool {
    |s: Seq<char>| s.len() > 0 && s != "."@
}

/// What a path begins with: the root, the current directory, or neither.
pub open spec fn anchor(path: Seq<char>) -> Seq<Seq<char>> {
    if path.len() > 0 && path[0] == '/' {
        seq!["/"@]
    } else if split_of(path, '/')[0] == "."@ {
        seq!["."@]
    } else {
        Seq::empty()
    }
}

/// The components of a path. Repeated and trailing separators do not matter, nor
/// does a `.` but at the start.
pub open spec fn components(path: Seq<char>) -> Seq<Seq<char>> {
    anchor(path) + split_of(path, '/').filter(counts())
}

/// The last component of a path, where that names something.
pub open spec fn file_name_of(path: Seq<char>) -> Option<Seq<char>> {
    let c = components(path);
    if c.len() == 0 || c.last() == "/"@ || c.last() == "."@ || c.last() == ".."@ {
        None
    } else {
        Some(c.last())
    }
}

/// The components of a path.
pub fn path_components(path: &str) -> (r: Vec<String>)
    ensures
        views(r@) == components(path@),
{
    let segs = split(path, '/');
    let v = chars_of(path);
    let mut r: Vec<String> = Vec::new();
    assert(views(r@) =~= Seq::empty());
    proof {
        assert(views(segs@)[0] == segs@[0]@);
    }
    if v.len() > 0 && v[0] == '/' {
        let s = "/".to_owned();
        r.push(s);
        assert(views(r@) =~= seq!["/"@]);
    } else if same(segs[0].as_str(), ".") {
        let s = ".".to_owned();
        r.push(s);
        assert(views(r@) =~= seq!["."@]);
    }
    let ghost head = anchor(path@);
    assert(views(r@) == head);
    let mut i: usize = 0;
    proof {
        reveal(Seq::filter);
        assert(head + views(segs@).take(0).filter(counts()) =~= head);
    }
    while i < segs.len()
        invariant
            i <= segs@.len(),
            views(r@) == head + views(segs@).take(i as int).filter(counts()),
        decreases segs@.len() - i,
    {
        let ghost was = r@;
        proof {
            filter_step(views(segs@), i as int, counts());
        }
        if !segs[i].as_str().is_empty() && !same(segs[i].as_str(), ".") {
            r.push(segs[i].clone());
            assert(counts()(views(segs@)[i as int]));
            assert(views(r@) =~= views(was).push(views(segs@)[i as int]));
            assert(views(r@) =~= head + views(segs@).take(i + 1).filter(counts()));
        }
        i = i + 1;
    }
    assert(views(segs@).take(segs@.len() as int) =~= views(segs@));
    r
}

/// The last component of a path, where that names something.
pub fn file_name(path: &str) -> (r: Option<String>)
    ensures
        opt_view(r) == file_name_of(path@),
{
    let c = path_components(path);
    if c.len() == 0 {
        return None;
    }
    let last = &c[c.len() - 1];
    assert(views(c@).last() == last@);
    if same(last.as_str(), "/") || same(last.as_str(), ".") || same(last.as_str(), "..") {
        None
    } else {
        Some(last.clone())
    }
}

/// Where the last dot of `s` is.
pub open spec fn last_dot(s: Seq<char>, i: int) -> bool {
    0 <= i < s.len() && s[i] == '.' && forall|j: int| i < j < s.len() ==> s[j] != '.'
}

/// A dot of `s` splits an extension off: it is the last one, and not the first
/// character.
pub open spec fn splits_off(s: Seq<char>, i: int) -> bool {
    last_dot(s, i) && i > 0
}

/// The extension of a path: what follows the last dot of its file name, unless
/// that dot is the first character.
pub open spec fn extension_of(path: Seq<char>) -> Option<Seq<char>> {
    match file_name_of(path) {
        Some(name) => if exists|i: int| splits_off(name, i) {
            Some(name.skip(1 + choose|i: int| splits_off(name, i)))
        } else {
            None
        },
        None => None,
    }
}

proof fn extension_splits_off(path: Seq<char>, name: Seq<char>, at: int)
    requires
        file_name_of(path) == Some(name),
        splits_off(name, at),
    ensures
        extension_of(path) == Some(name.skip(1 + at)),
{
    let k = choose|i: int| splits_off(name, i);
    assert(splits_off(name, k));
    if k < at {
        assert(name[at] != '.');
    } else if k > at {
        assert(name[k] != '.');
    }
}

/// The extension of a path.
pub fn extension(path: &str) -> (r: Option<String>)
    ensures
        opt_view(r) == extension_of(path@),
{
    let name = match file_name(path) {
        Some(n) => n,
        None => {
            return None;
        },
    };
    let v = chars_of(name.as_str());
    let mut i: usize = v.len();
    while i > 0
        invariant
            i <= v@.len(),
            v@ == name@,
            file_name_of(path@) == Some(name@),
            forall|j: int| i <= j < v@.len() ==> v@[j] != '.',
        decreases i,
    {
        if v[i - 1] == '.' {
            if i == 1 {
                assert forall|k: int| !splits_off(name@, k) by {
                    if splits_off(name@, k) {
                        assert(v@[k] != '.');
                    }
                }
                return None;
            }
            proof {
                let at = i - 1;
                assert(splits_off(name@, at));
                extension_splits_off(path@, name@, at);
                assert(v@.subrange(i as int, v@.len() as int) =~= name@.skip(1 + at));
            }
            return Some(string_of(&v, i, v.len()));
        }
        i = i - 1;
    }
    assert forall|k: int| !splits_off(name@, k) by {
        if splits_off(name@, k) {
            assert(v@[k] != '.');
        }
    }
    None
}

fn same_strings(a: &Vec<String>, b: &Vec<String>) -> (r: bool)
    ensures
        r == (views(a@) == views(b@)),
{
    if a.len() != b.len() {
        assert(views(a@).len() != views(b@).len());
        return false;
    }
    let mut i: usize = 0;
    while i < a.len()
        invariant
            i <= a@.len(),
            a@.len() == b@.len(),
            forall|j: int| 0 <= j < i ==> (#[trigger] a@[j])@ == b@[j]@,
        decreases a@.len() - i,
    {
        if !same(a[i].as_str(), b[i].as_str()) {
            assert(views(a@)[i as int] != views(b@)[i as int]);
            return false;
        }
        i = i + 1;
    }
    assert(views(a@) =~= views(b@));
    true
}

/// Some path of `paths` has the components of `path`.
pub open spec fn has_path(paths: Seq<Seq<char>>, path: Seq<char>) -> bool {
    exists|i: int| 0 <= i < paths.len() && components(#[trigger] paths[i]) == components(path)
}

/// Whether some path of `paths` has the components of `path`.
pub fn is_listed(paths: &Vec<String>, path: &str) -> (r: bool)
    ensures
        r == has_path(views(paths@), path@),
{
    let c = path_components(path);
    let mut i: usize = 0;
    while i < paths.len()
        invariant
            i <= paths@.len(),
            views(c@) == components(path@),
            forall|j: int|
                0 <= j < i ==> components(#[trigger] views(paths@)[j]) != components(path@),
        decreases paths@.len() - i,
    {
        let d = path_components(paths[i].as_str());
        assert(views(paths@)[i as int] == paths@[i as int]@);
        if same_strings(&c, &d) {
            return true;
        }
        i = i + 1;
    }
    false
}

/// `paths` without those that repeat an earlier one.
pub open spec fn first_of_each(paths: Seq<Seq<char>>) -> Seq<Seq<char>>
    decreases paths.len(),
{
    if paths.len() == 0 {
        Seq::empty()
    } else {
        let rest = first_of_each(paths.drop_last());
        if has_path(rest, paths.last()) {
            rest
        } else {
            rest.push(paths.last())
        }
    }
}

// ---------------------------------------------------------------------------
// Laws
// ---------------------------------------------------------------------------

/// A path that begins with `~/`, or is `~`, leads into the home directory
/// whatever follows, and any other path is left as it is.
pub proof fn a_tilde_leads_home(path: Seq<char>, home: Seq<char>)
    ensures
        path == "~"@ || begins(path, "~/"@) ==> begins(expanded(path, Some(home)), home),
        path != "~"@ && !begins(path, "~/"@) ==> expanded(path, Some(home)) == path,
        expanded(path, None) == path,
{
    reveal_strlit("/");
    let r = expanded(path, Some(home));
    if begins(path, "~/"@) {
        nothing_unrooted_is_absolute(path.skip(2));
    }
    if path == "~"@ || begins(path, "~/"@) {
        assert(r.subrange(0, home.len() as int) =~= home);
    }
}

proof fn nothing_unrooted_is_absolute(s: Seq<char>)
    ensures
        unrooted(s).len() > 0 ==> unrooted(s)[0] != '/',
    decreases s.len(),
{
    if s.len() > 0 && s[0] == '/' {
        nothing_unrooted_is_absolute(s.skip(1));
    }
}

/// A relative path is put under its base with one slash between them; an absolute
/// one, or one under an empty base, stays as it is.
pub proof fn one_slash_between(base: Seq<char>, seg: Seq<char>)
    requires
        seg.len() == 0 || seg[0] != '/',
    ensures
        base.len() > 0 && base.last() != '/' ==> joined(base, seg) == base + seq!['/'] + seg,
        base.len() > 0 && base.last() == '/' ==> joined(base, seg) == base + seg,
        joined(Seq::empty(), seg) == seg,
        joined(base, seq!['/'] + seg) == seq!['/'] + seg,
{
    reveal_strlit("/");
    assert("/"@ =~= seq!['/']);
    assert(Seq::<char>::empty() + seg =~= seg);
}

/// The directory that Roteiro is told is its own, wherever home is; else it is one
/// under home; and there is none without either.
pub proof fn a_told_home_wins(own: Seq<char>, home: Option<Seq<char>>)
    ensures
        home_of(Some(own), home) == Some(own),
        home is Some ==> home_of(None, home) == Some(joined(home->0, ".roteiro"@)),
        home_of(None, None) is None,
{
}

/// The nearest directory with a `.git` entry is the repository's root, whether or
/// not it holds a configuration, and no other is.
pub proof fn the_nearest_git_is_the_root(dirs: Seq<Ancestor>, i: int)
    ensures
        root_at(dirs, i) <==> {
            &&& 0 <= i < dirs.len()
            &&& dirs[i].has_git
            &&& forall|j: int| 0 <= j < dirs.len() && (#[trigger] dirs[j]).has_git ==> i <= j
        },
{
}

proof fn splits_in_two(front: Seq<char>, name: Seq<char>)
    requires
        !name.contains('/'),
    ensures
        split_of(name, '/') == seq![name],
        split_of(front + seq!['/'] + name, '/') == split_of(front, '/').push(name),
{
    crate::text::last_piece(front, name, '/');
}

/// The name in a path is what follows its last slash, with or without further
/// slashes behind it.
pub proof fn the_last_segment_is_the_name(front: Seq<char>, name: Seq<char>)
    requires
        name.len() > 0,
        !name.contains('/'),
        name != "."@,
        name != ".."@,
    ensures
        file_name_of(name) == Some(name),
        file_name_of(front + seq!['/'] + name) == Some(name),
        file_name_of(front + seq!['/'] + name + seq!['/']) == Some(name),
{
    let p = counts();
    let none = Seq::<Seq<char>>::empty();
    let path = front + seq!['/'] + name;
    let more = path + seq!['/'];
    let blank = Seq::<char>::empty();
    splits_in_two(front, name);
    splits_in_two(path, blank);
    assert(more + blank =~= more);
    reveal_strlit("/");
    assert("/"@ =~= seq!['/']);
    assert(name != "/"@) by {
        if name == "/"@ {
            assert(name[0] == '/');
        }
    }
    assert(name[0] != '/') by {
        assert(name.contains(name[0]));
    }
    filter_push(split_of(front, '/'), name, p);
    filter_push(split_of(path, '/'), blank, p);
    filter_push(none, name, p);
    crate::seqs::filtered(none, p);
    assert(none.push(name) =~= seq![name]);
    assert(components(name).last() == name);
    assert(components(path).last() == name);
    assert(components(more).last() == name);
}

/// A slash at the end of a path does not matter, nor does doubling one.
pub proof fn repeated_slashes_do_not_matter(front: Seq<char>, back: Seq<char>)
    requires
        front.len() > 0,
    ensures
        components(front + seq!['/']) == components(front),
        components(front + seq!['/', '/'] + back) == components(front + seq!['/'] + back),
    decreases back.len(),
{
    let p = counts();
    let blank = Seq::<char>::empty();
    let slash = front + seq!['/'];
    splits_in_two(front, blank);
    assert(slash + blank =~= slash);
    filter_push(split_of(front, '/'), blank, p);
    crate::text::split_nonempty(front, '/');
    assert(split_of(slash, '/')[0] == split_of(front, '/')[0]);
    assert(slash[0] == front[0]);
    let a = front + seq!['/', '/'] + back;
    let b = slash + back;
    assert(a =~= slash + seq!['/'] + back);
    doubled(front, back);
    assert(a[0] == front[0]);
    assert(b[0] == front[0]);
}

proof fn doubled(front: Seq<char>, back: Seq<char>)
    ensures
        split_of(front + seq!['/'] + seq!['/'] + back, '/').filter(counts()) == split_of(
            front + seq!['/'] + back,
            '/',
        ).filter(counts()),
        split_of(front + seq!['/'] + seq!['/'] + back, '/')[0] == split_of(
            front + seq!['/'] + back,
            '/',
        )[0],
        split_of(front + seq!['/'] + back, '/').len() > 0,
{
    let p = counts();
    let blank = Seq::<char>::empty();
    let slash = front + seq!['/'];
    crate::text::splits_add_up(front, back, '/');
    crate::text::splits_add_up(slash, back, '/');
    splits_in_two(front, blank);
    assert(slash + blank =~= slash);
    filter_push(split_of(front, '/'), blank, p);
    crate::seqs::filter_adds_up(split_of(front, '/'), split_of(back, '/'), p);
    crate::seqs::filter_adds_up(split_of(slash, '/'), split_of(back, '/'), p);
    crate::text::split_nonempty(front, '/');
}

/// The extension follows the last full stop of the name; a name that has none but
/// at its start has no extension.
pub proof fn the_extension_follows_the_last_stop(front: Seq<char>, stem: Seq<char>, ext: Seq<char>)
    requires
        stem.len() > 0,
        ext.len() > 0,
        !stem.contains('/'),
        !ext.contains('/'),
        !ext.contains('.'),
    ensures
        extension_of(front + seq!['/'] + (stem + seq!['.'] + ext)) == Some(ext),
        extension_of(front + seq!['/'] + ext) is None,
        extension_of(front + seq!['/'] + (seq!['.'] + ext)) is None,
{
    reveal_strlit(".");
    reveal_strlit("..");
    let a = stem + seq!['.'] + ext;
    let b = seq!['.'] + ext;
    let n = stem.len() as int;
    no_slash(stem, ext);
    assert(a.len() >= 3 && b.len() >= 2);
    assert(a != "."@ && a != ".."@);
    assert(ext[0] != '.') by {
        assert(ext.contains(ext[0]));
    }
    assert(b[1] != '.');
    assert(b != "."@ && b != ".."@);
    assert(ext != "."@ && ext != ".."@);
    the_last_segment_is_the_name(front, a);
    the_last_segment_is_the_name(front, b);
    the_last_segment_is_the_name(front, ext);
    assert forall|j: int| 0 <= j < ext.len() implies ext[j] != '.' by {
        assert(ext.contains(ext[j]));
    }
    assert forall|j: int| n < j < a.len() implies a[j] != '.' by {
        assert(a[j] == ext[j - n - 1]);
    }
    assert(splits_off(a, n));
    extension_splits_off(front + seq!['/'] + a, a, n);
    assert(a.skip(n + 1) =~= ext);
    assert forall|k: int| !splits_off(b, k) by {
        if splits_off(b, k) {
            assert(b[k] == ext[k - 1]);
        }
    }
}

proof fn no_slash(stem: Seq<char>, ext: Seq<char>)
    requires
        !stem.contains('/'),
        !ext.contains('/'),
    ensures
        !(stem + seq!['.'] + ext).contains('/'),
        !(seq!['.'] + ext).contains('/'),
{
    let a = stem + seq!['.'] + ext;
    let b = seq!['.'] + ext;
    if a.contains('/') {
        let k = choose|k: int| 0 <= k < a.len() && a[k] == '/';
        if k < stem.len() {
            assert(stem[k] == '/');
        } else {
            assert(ext[k - stem.len() - 1] == '/');
        }
    }
    if b.contains('/') {
        let k = choose|k: int| 0 <= k < b.len() && b[k] == '/';
        assert(ext[k - 1] == '/');
    }
}

/// Of paths with the same components the first stands for all: each path has its
/// like in the list that is left, what is left is one of the paths, and no two of
/// them are alike.
pub proof fn each_path_once(paths: Seq<Seq<char>>)
    ensures
        forall|i: int|
            #![trigger paths[i]]
            0 <= i < paths.len() ==> has_path(first_of_each(paths), paths[i]),
        forall|k: int|
            #![trigger first_of_each(paths)[k]]
            0 <= k < first_of_each(paths).len() ==> paths.contains(first_of_each(paths)[k]),
        forall|j: int, k: int|
            #![trigger first_of_each(paths)[j], first_of_each(paths)[k]]
            0 <= j < k < first_of_each(paths).len() ==> components(first_of_each(paths)[j])
                != components(first_of_each(paths)[k]),
        paths.len() > 0 ==> first_of_each(paths).len() > 0 && first_of_each(paths)[0] == paths[0],
    decreases paths.len(),
{
    if paths.len() > 0 {
        let front = paths.drop_last();
        let x = paths.last();
        let was = first_of_each(front);
        let now = first_of_each(paths);
        each_path_once(front);
        assert forall|i: int| #![trigger paths[i]] 0 <= i < paths.len() implies has_path(
            now,
            paths[i],
        ) by {
            if i < front.len() {
                assert(front[i] == paths[i]);
                let k = choose|k: int|
                    0 <= k < was.len() && components(#[trigger] was[k]) == components(paths[i]);
                assert(now[k] == was[k]);
            } else if !has_path(was, x) {
                assert(now[was.len() as int] == x);
            }
        }
        assert forall|k: int| #![trigger now[k]] 0 <= k < now.len() implies paths.contains(now[k]) by {
            if k < was.len() {
                assert(was[k] == now[k]);
                let m = choose|m: int| 0 <= m < front.len() && front[m] == was[k];
                assert(paths[m] == now[k]);
            } else {
                assert(paths[paths.len() - 1] == now[k]);
            }
        }
        assert forall|j: int, k: int|
            #![trigger now[j], now[k]]
            0 <= j < k < now.len() implies components(now[j]) != components(now[k]) by {
            if k < was.len() {
                assert(was[j] == now[j] && was[k] == now[k]);
            } else {
                assert(was[j] == now[j]);
            }
        }
        if front.len() > 0 {
            assert(front[0] == paths[0]);
        }
    }
}

} // verus!
