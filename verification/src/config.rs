//! Layered project and user configuration. Per value the project's file wins
//! over the user's, except where a key is a permission: a project may take one
//! away, and never give one.
use vstd::prelude::*;

use crate::names::{map_facts, NameMap};
use crate::text::{
    copy_all, copy_opt, firsts, is_among, join, join_of, merge_into, merged, merged_facts,
    merged_twice, opt_str_view, opt_view, same, trim, trim_of, views,
};

pub mod laws;
pub mod layering;
pub mod paths;
pub mod workspaces;

verus! {

// ---------------------------------------------------------------------------
// The tables
// ---------------------------------------------------------------------------

/// `[debt]`: which paths the debt inventory leaves out.
#[derive(Debug, Default)]
pub struct DebtConfig {
    /// Patterns to leave out. Merged across layers.
    pub ignore: Option<Vec<String>>,
    /// Drop the patterns inherited from the layer below.
    pub ignore_reset: Option<bool>,
}

/// `[remote]`: the optional, default-off remote model tier.
#[derive(Debug, Default)]
pub struct RemoteConfig {
    /// Whether this layer opts into the tier: a permission, no ordinary value.
    pub enabled: Option<bool>,
    /// The URL a request goes to.
    pub endpoint: Option<String>,
    /// The vendor's model string.
    pub model: Option<String>,
}

/// `[lint]`: whether a linter may run on this host, and where it runs otherwise.
#[derive(Debug, Default)]
pub struct LintConfig {
    /// Whether this layer permits it: a permission, no ordinary value.
    pub allow_unsandboxed: Option<bool>,
    /// The digest-pinned image the sandboxed linter runs in.
    pub image: Option<String>,
}

/// `[security]`: the image each analyzer runs in.
#[derive(Debug, Default)]
pub struct SecurityConfig {
    /// Image references by analyzer name.
    pub images: NameMap<String>,
}

/// `[paths]`.
#[derive(Debug, Default)]
pub struct PathsConfig {
    /// Where the models are stored.
    pub model_store: Option<String>,
}

/// `[telemetry]`: the rotating log.
#[derive(Debug, Default)]
pub struct TelemetryConfig {
    pub file: Option<String>,
    pub rotation: Option<String>,
    pub format: Option<String>,
}

/// `[workspace]` and `[standalone]`: repositories by root and by path.
#[derive(Debug, Default)]
pub struct WorkspaceConfig {
    /// Directories whose repositories belong.
    pub roots: Option<Vec<String>>,
    /// Repositories that belong.
    pub repos: Option<Vec<String>>,
}

/// One `[[workspaces]]` entry.
#[derive(Debug, Default)]
pub struct NamedWorkspace {
    pub name: String,
    pub roots: Option<Vec<String>>,
    pub repos: Option<Vec<String>>,
    /// Other workspaces whose members belong to this one too.
    pub includes: Option<Vec<String>>,
}

/// One `[[links]]` entry.
#[derive(Debug, Default)]
pub struct LinkDecl {
    pub to: String,
    pub from: Option<String>,
    pub kind: Option<String>,
}

/// `[models]`: which model serves which task.
#[derive(Debug, Default)]
pub struct ModelsConfig {
    pub embedding: Option<String>,
    pub generative: Option<String>,
    pub vision: Option<String>,
    pub audio: Option<String>,
    pub ocr: Option<String>,
}

/// `[ingest]`: which kinds of content are read.
#[derive(Debug, Default)]
pub struct IngestConfig {
    pub prose: Option<bool>,
    pub pdf: Option<bool>,
    pub ocr: Option<bool>,
    pub vision: Option<bool>,
    pub audio: Option<bool>,
}

/// `[media]`: what media must reach before its content is generated. A threshold
/// is the bit pattern of a 64-bit floating-point number.
#[derive(Debug, Default)]
pub struct MediaConfig {
    pub gate: Option<bool>,
    pub silence_rms: Option<u64>,
    pub image_variance: Option<u64>,
}

/// `[serve]`.
#[derive(Debug, Default)]
pub struct ServeConfig {
    pub addr: Option<String>,
    pub models: Option<Vec<String>>,
    pub tools: Option<bool>,
    pub memory_budget_mb: Option<u64>,
    pub max_context_tokens: Option<u32>,
    pub tls_cert: Option<String>,
    pub tls_key: Option<String>,
}

/// `[infer]`. The confidence is the bit pattern of a 64-bit floating-point
/// number.
#[derive(Debug, Default)]
pub struct InferConfig {
    pub min_confidence: Option<u64>,
    pub top_k: Option<usize>,
}

/// `[duplicates]`. The similarity is the bit pattern of a 64-bit floating-point
/// number.
#[derive(Debug, Default)]
pub struct DuplicatesConfig {
    pub min_similarity: Option<u64>,
    pub limit: Option<usize>,
}

/// The configuration. All fields are optional, and none set is a working
/// configuration.
#[derive(Debug, Default)]
pub struct Config {
    pub models: ModelsConfig,
    pub infer: InferConfig,
    pub duplicates: DuplicatesConfig,
    pub ingest: IngestConfig,
    pub media: MediaConfig,
    pub serve: ServeConfig,
    pub debt: DebtConfig,
    pub remote: RemoteConfig,
    pub lint: LintConfig,
    pub security: SecurityConfig,
    pub paths: PathsConfig,
    pub telemetry: TelemetryConfig,
    pub workspace: WorkspaceConfig,
    pub workspaces: Vec<NamedWorkspace>,
    pub standalone: WorkspaceConfig,
    pub links: Vec<LinkDecl>,
    pub pins: NameMap<String>,
}

/// The merged configuration and the layers it came from.
#[derive(Debug, Default)]
pub struct Loaded {
    /// The merged configuration: project over user.
    pub effective: Config,
    /// The user's layer.
    pub user: Config,
    /// The project's layer.
    pub project: Config,
    /// Where the user's layer was read from, if it was.
    pub user_path: Option<String>,
    /// Where the project's layer was read from, if it was.
    pub project_path: Option<String>,
}

// ---------------------------------------------------------------------------
// Overlaying one value, one list, one map
// ---------------------------------------------------------------------------

/// The upper layer's value, or else the lower's.
pub open spec fn or_of<T>(over: Option<T>, base: Option<T>) -> Option<T> {
    match over {
        Some(v) => Some(v),
        None => base,
    }
}

fn pick<T: Copy>(over: Option<T>, base: Option<T>) -> (r: Option<T>)
    ensures
        r == or_of(over, base),
{
    match over {
        Some(v) => Some(v),
        None => base,
    }
}

fn pick_text(over: &Option<String>, base: &Option<String>) -> (r: Option<String>)
    ensures
        r == or_of(*over, *base),
{
    match over {
        Some(v) => Some(v.clone()),
        None => copy_opt(base),
    }
}

/// The strings of an optional list.
pub open spec fn list_view(o: Option<Vec<String>>) -> Option<Seq<Seq<char>>> {
    match o {
        Some(v) => Some(views(v@)),
        None => None,
    }
}

/// The strings of an optional list, an unset one read as empty.
pub open spec fn list_of(o: Option<Vec<String>>) -> Seq<Seq<char>> {
    match o {
        Some(v) => views(v@),
        None => Seq::empty(),
    }
}

fn copy_list(o: &Option<Vec<String>>) -> (r: Option<Vec<String>>)
    ensures
        list_view(r) == list_view(*o),
{
    match o {
        Some(v) => Some(copy_all(v)),
        None => None,
    }
}

/// A copy of an optional list, an unset one read as empty.
pub fn list_or_empty(o: &Option<Vec<String>>) -> (r: Vec<String>)
    ensures
        views(r@) == list_of(*o),
{
    match o {
        Some(v) => copy_all(v),
        None => {
            let r: Vec<String> = Vec::new();
            assert(views(r@) =~= Seq::empty());
            r
        },
    }
}

fn pick_list(over: &Option<Vec<String>>, base: &Option<Vec<String>>) -> (r: Option<Vec<String>>)
    ensures
        list_view(r) == or_of(list_view(*over), list_view(*base)),
{
    match over {
        Some(v) => Some(copy_all(v)),
        None => copy_list(base),
    }
}

/// Every entry of `base`, each replaced by that of `over` for the same name,
/// and every other entry of `over`.
fn overlay_map(base: &NameMap<String>, over: &NameMap<String>) -> (r: NameMap<String>)
    ensures
        r@ == base@.union_prefer_right(over@),
{
    let mut r: NameMap<String> = NameMap::new();
    let n: usize = base.len();
    let mut i: usize = 0;
    while i < n
        invariant
            i <= n,
            n == base.names().len(),
            map_facts(*base),
            forall|k: Seq<char>| #[trigger]
                r@.contains_key(k) <==> base.names().take(i as int).contains(k),
            forall|k: Seq<char>| #[trigger] r@.contains_key(k) ==> r@[k] == base@[k],
        decreases n - i,
    {
        let ghost was = base.names().take(i as int);
        let ghost now = base.names().take(i + 1);
        let name = base.name_at(i);
        proof {
            assert(now =~= was.push(name@));
            assert forall|q: Seq<char>| #[trigger] now.contains(q) <==> was.contains(q) || q
                == name@ by {
                if was.contains(q) {
                    let a = choose|a: int| 0 <= a < was.len() && was[a] == q;
                    assert(now[a] == q);
                }
                assert(now[i as int] == name@);
            }
            assert(base@[base.names()[i as int]] == base.vals()[i as int]);
        }
        r.insert(name.as_str(), base.val_at(i).clone());
        i = i + 1;
    }
    proof {
        assert(base.names().take(n as int) =~= base.names());
        assert(r@ =~= base@);
    }
    let m: usize = over.len();
    let mut j: usize = 0;
    while j < m
        invariant
            j <= m,
            m == over.names().len(),
            map_facts(*over),
            forall|k: Seq<char>| #[trigger]
                r@.contains_key(k) <==> base@.contains_key(k) || over.names().take(
                    j as int,
                ).contains(k),
            forall|k: Seq<char>| #[trigger]
                r@.contains_key(k) ==> r@[k] == (if over.names().take(j as int).contains(k) {
                    over@[k]
                } else {
                    base@[k]
                }),
        decreases m - j,
    {
        let ghost was = over.names().take(j as int);
        let ghost now = over.names().take(j + 1);
        let name = over.name_at(j);
        proof {
            assert(now =~= was.push(name@));
            assert forall|q: Seq<char>| #[trigger] now.contains(q) <==> was.contains(q) || q
                == name@ by {
                if was.contains(q) {
                    let a = choose|a: int| 0 <= a < was.len() && was[a] == q;
                    assert(now[a] == q);
                }
                assert(now[j as int] == name@);
            }
            assert(over@[over.names()[j as int]] == over.vals()[j as int]);
        }
        r.insert(name.as_str(), over.val_at(j).clone());
        j = j + 1;
    }
    proof {
        assert(over.names().take(m as int) =~= over.names());
        assert(r@ =~= base@.union_prefer_right(over@));
    }
    r
}

// ---------------------------------------------------------------------------
// Permissions
// ---------------------------------------------------------------------------

/// What the two layers say of a permission together: the project may deny it;
/// only the user's own layer may give it.
pub open spec fn grant_of(user: Option<bool>, project: Option<bool>) -> Option<bool> {
    if project == Some(false) {
        Some(false)
    } else {
        user
    }
}

fn grant(user: Option<bool>, project: Option<bool>) -> (r: Option<bool>)
    ensures
        r == grant_of(user, project),
{
    match project {
        Some(false) => Some(false),
        _ => user,
    }
}

/// What this build can do: a permission for what it cannot do permits nothing,
/// and is reported as unset.
#[derive(Debug, Clone, Copy, PartialEq, Eq, Structural)]
pub struct Build {
    /// It can reach the remote model tier.
    pub remote: bool,
    /// It can run a linter.
    pub lint: bool,
}

/// What the layers say of a permission, in a build that has the tier it is for
/// or has not.
pub open spec fn effective_of(user: Option<bool>, project: Option<bool>, tier: bool) -> Option<
    bool,
> {
    if tier {
        grant_of(user, project)
    } else {
        None
    }
}

/// The `[remote] enabled` that the layers produce together; unset where the
/// build has no remote tier.
pub fn remote_enabled_effective(user: Option<bool>, project: Option<bool>, tier: bool) -> (r:
    Option<bool>)
    ensures
        !tier ==> r is None,
        tier ==> r == grant_of(user, project),
{
    if tier {
        grant(user, project)
    } else {
        None
    }
}

/// The `[lint] allow_unsandboxed` that the layers produce together; unset where
/// the build has no linter to run.
pub fn lint_allow_unsandboxed_effective(
    user: Option<bool>,
    project: Option<bool>,
    tier: bool,
) -> (r: Option<bool>)
    ensures
        !tier ==> r is None,
        tier ==> r == grant_of(user, project),
{
    if tier {
        grant(user, project)
    } else {
        None
    }
}

// ---------------------------------------------------------------------------
// `[models]`
// ---------------------------------------------------------------------------

/// What a `[models]` value names: nothing where it is unset or blank, else the
/// value without the white space around it.
pub open spec fn model_pin_of(raw: Option<Seq<char>>) -> Option<Seq<char>> {
    match raw {
        Some(s) => if trim_of(s).len() > 0 {
            Some(trim_of(s))
        } else {
            None
        },
        None => None,
    }
}

/// What a `[models]` value names, if anything.
pub fn model_pin(raw: &Option<String>) -> (r: Option<String>)
    ensures
        opt_view(r) == model_pin_of(opt_view(*raw)),
{
    match raw {
        Some(s) => {
            let t = trim(s.as_str());
            if t.as_str().is_empty() {
                None
            } else {
                Some(t)
            }
        },
        None => None,
    }
}

impl ModelsConfig {
    /// The value of the slot `key` as it was written.
    pub open spec fn slot(self, key: Seq<char>) -> Option<Seq<char>> {
        if key == "embedding"@ {
            opt_view(self.embedding)
        } else if key == "generative"@ {
            opt_view(self.generative)
        } else if key == "vision"@ {
            opt_view(self.vision)
        } else if key == "audio"@ {
            opt_view(self.audio)
        } else if key == "ocr"@ {
            opt_view(self.ocr)
        } else {
            None
        }
    }

    /// The layers' slots, project over user.
    pub open spec fn overlaid(self, over: Self) -> Self {
        ModelsConfig {
            embedding: or_of(over.embedding, self.embedding),
            generative: or_of(over.generative, self.generative),
            vision: or_of(over.vision, self.vision),
            audio: or_of(over.audio, self.audio),
            ocr: or_of(over.ocr, self.ocr),
        }
    }

    /// Overlays the project's layer (`over`) on the user's.
    pub fn overlaid_with(&self, over: &Self) -> (r: Self)
        ensures
            r == self.overlaid(*over),
    {
        ModelsConfig {
            embedding: pick_text(&over.embedding, &self.embedding),
            generative: pick_text(&over.generative, &self.generative),
            vision: pick_text(&over.vision, &self.vision),
            audio: pick_text(&over.audio, &self.audio),
            ocr: pick_text(&over.ocr, &self.ocr),
        }
    }

    /// Every slot reads as what it names.
    pub open spec fn normal(self, of: Self) -> bool {
        &&& opt_view(self.embedding) == model_pin_of(opt_view(of.embedding))
        &&& opt_view(self.generative) == model_pin_of(opt_view(of.generative))
        &&& opt_view(self.vision) == model_pin_of(opt_view(of.vision))
        &&& opt_view(self.audio) == model_pin_of(opt_view(of.audio))
        &&& opt_view(self.ocr) == model_pin_of(opt_view(of.ocr))
    }

    /// Replaces every slot by what it names, so that a blank one is unset.
    pub fn normalize(&mut self)
        ensures
            final(self).normal(*old(self)),
    {
        self.embedding = model_pin(&self.embedding);
        self.generative = model_pin(&self.generative);
        self.vision = model_pin(&self.vision);
        self.audio = model_pin(&self.audio);
        self.ocr = model_pin(&self.ocr);
    }

    /// The model named for `key`, if one is.
    pub fn get(&self, key: &str) -> (r: Option<String>)
        ensures
            opt_view(r) == model_pin_of(self.slot(key@)),
    {
        if same(key, "embedding") {
            model_pin(&self.embedding)
        } else if same(key, "generative") {
            model_pin(&self.generative)
        } else if same(key, "vision") {
            model_pin(&self.vision)
        } else if same(key, "audio") {
            model_pin(&self.audio)
        } else if same(key, "ocr") {
            model_pin(&self.ocr)
        } else {
            None
        }
    }

    /// The pins the resolver takes: the slots as they stand.
    pub fn resolve(&self) -> (r: Self)
        ensures
            r == *self,
    {
        ModelsConfig {
            embedding: copy_opt(&self.embedding),
            generative: copy_opt(&self.generative),
            vision: copy_opt(&self.vision),
            audio: copy_opt(&self.audio),
            ocr: copy_opt(&self.ocr),
        }
    }
}

// ---------------------------------------------------------------------------
// The other tables
// ---------------------------------------------------------------------------

impl RemoteConfig {
    /// The layers together: the switch is a permission, the rest are values.
    pub open spec fn overlaid(self, over: Self, tier: bool) -> Self {
        RemoteConfig {
            enabled: effective_of(self.enabled, over.enabled, tier),
            endpoint: or_of(over.endpoint, self.endpoint),
            model: or_of(over.model, self.model),
        }
    }

    /// Overlays the project's layer (`over`) on the user's, in a build that has
    /// the tier or has not.
    pub fn overlaid_with(&self, over: &Self, tier: bool) -> (r: Self)
        ensures
            r == self.overlaid(*over, tier),
    {
        RemoteConfig {
            enabled: remote_enabled_effective(self.enabled, over.enabled, tier),
            endpoint: pick_text(&over.endpoint, &self.endpoint),
            model: pick_text(&over.model, &self.model),
        }
    }
}

impl LintConfig {
    /// The layers together: the switch is a permission, the image a value.
    pub open spec fn overlaid(self, over: Self, tier: bool) -> Self {
        LintConfig {
            allow_unsandboxed: effective_of(
                self.allow_unsandboxed,
                over.allow_unsandboxed,
                tier,
            ),
            image: or_of(over.image, self.image),
        }
    }

    /// Overlays the project's layer (`over`) on the user's, in a build that has
    /// the tier or has not.
    pub fn overlaid_with(&self, over: &Self, tier: bool) -> (r: Self)
        ensures
            r == self.overlaid(*over, tier),
    {
        LintConfig {
            allow_unsandboxed: lint_allow_unsandboxed_effective(
                self.allow_unsandboxed,
                over.allow_unsandboxed,
                tier,
            ),
            image: pick_text(&over.image, &self.image),
        }
    }
}

impl TelemetryConfig {
    /// The layers together.
    pub open spec fn overlaid(self, over: Self) -> Self {
        TelemetryConfig {
            file: or_of(over.file, self.file),
            rotation: or_of(over.rotation, self.rotation),
            format: or_of(over.format, self.format),
        }
    }

    /// Overlays the project's layer (`over`) on the user's.
    pub fn overlaid_with(&self, over: &Self) -> (r: Self)
        ensures
            r == self.overlaid(*over),
    {
        TelemetryConfig {
            file: pick_text(&over.file, &self.file),
            rotation: pick_text(&over.rotation, &self.rotation),
            format: pick_text(&over.format, &self.format),
        }
    }
}

/// The complaint about one declared image, if there is one: nothing here reads
/// the analyzer's output, or else what the check of its pin complained of.
pub open spec fn image_problem(
    analyzer: Seq<char>,
    pin: Result<String, String>,
    known: Seq<Seq<char>>,
) -> Option<Seq<char>> {
    if !known.contains(analyzer) {
        Some(
            "`"@ + analyzer
                + "` is not an analyzer this build can read the output of (it can read: "@
                + join_of(known, ", "@) + NO_ADAPTER@,
        )
    } else {
        match pin {
            Ok(_) => None,
            Err(text) => Some(text@),
        }
    }
}

/// How the complaint about an analyzer that nothing can read ends.
pub const NO_ADAPTER: &'static str = ") — an image can only serve an analyzer Roteiro already \
has an adapter for, because the parser is Rust and cannot be supplied \
alongside the image";

/// The complaints about the images of `names`, in order, where `pins` holds what
/// the check of each one's pin returned.
pub open spec fn image_problems(
    names: Seq<Seq<char>>,
    pins: Seq<Result<String, String>>,
    known: Seq<Seq<char>>,
) -> Seq<Seq<char>>
    decreases names.len(),
{
    if names.len() == 0 {
        Seq::empty()
    } else {
        let rest = image_problems(names.drop_last(), pins, known);
        match image_problem(names.last(), pins[names.len() - 1], known) {
            Some(p) => rest.push(p),
            None => rest,
        }
    }
}

/// How a message names the entry of an analyzer.
pub open spec fn image_key_of(analyzer: Seq<char>) -> Seq<char> {
    "`[security.images] "@ + analyzer + "`"@
}

/// How a message names the entry of an analyzer, as whoever reads its pin is
/// told.
pub fn image_key(analyzer: &str) -> (r: String)
    ensures
        r@ == image_key_of(analyzer@),
{
    let mut s = "`[security.images] ".to_owned();
    s.append(analyzer);
    s.append("`");
    s
}

impl SecurityConfig {
    /// The declared images, by analyzer.
    pub fn declared(&self) -> (r: Vec<(String, String)>)
        ensures
            r@.len() == self.images.names().len(),
            forall|i: int|
                0 <= i < r@.len() ==> (#[trigger] r@[i]).0@ == self.images.names()[i] && r@[i].1
                    == self.images@[self.images.names()[i]],
    {
        let n: usize = self.images.len();
        let mut r: Vec<(String, String)> = Vec::new();
        let mut i: usize = 0;
        while i < n
            invariant
                i <= n,
                n == self.images.names().len(),
                map_facts(self.images),
                r@.len() == i,
                forall|j: int|
                    0 <= j < i ==> (#[trigger] r@[j]).0@ == self.images.names()[j] && r@[j].1
                        == self.images@[self.images.names()[j]],
            decreases n - i,
        {
            assert(self.images@[self.images.names()[i as int]] == self.images.vals()[i as int]);
            r.push((self.images.name_at(i).clone(), self.images.val_at(i).clone()));
            i = i + 1;
        }
        r
    }

    /// The image declared for `analyzer`, if one is.
    pub fn image_for(&self, analyzer: &str) -> (r: Option<&str>)
        ensures
            opt_str_view(r) == (if self.images@.contains_key(analyzer@) {
                Some(self.images@[analyzer@]@)
            } else {
                None
            }),
    {
        match self.images.get(analyzer) {
            Some(s) => Some(s.as_str()),
            None => None,
        }
    }

    /// What is wrong with the declared images. `pins` holds what checking the pin
    /// of each of them, as `declared` lists them, returned: the digest or a
    /// complaint. `known` are the analyzers whose output can be read. A build
    /// without analyzers (`tier`) has nothing to say.
    pub fn problems(
        &self,
        pins: &Vec<Result<String, String>>,
        known: &Vec<String>,
        tier: bool,
    ) -> (r: Vec<String>)
        requires
            tier ==> pins@.len() == self.images.names().len(),
        ensures
            !tier ==> r@.len() == 0,
            tier ==> views(r@) == image_problems(self.images.names(), pins@, views(known@)),
    {
        let n: usize = self.images.len();
        let mut r: Vec<String> = Vec::new();
        if !tier {
            return r;
        }
        let mut i: usize = 0;
        assert(views(r@) =~= Seq::empty());
        while i < n
            invariant
                i <= n,
                n == self.images.names().len(),
                n == pins@.len(),
                views(r@) == image_problems(
                    self.images.names().take(i as int),
                    pins@,
                    views(known@),
                ),
            decreases n - i,
        {
            let ghost was = r@;
            assert(self.images.names().take(i + 1).drop_last() =~= self.images.names().take(
                i as int,
            ));
            let analyzer = self.images.name_at(i);
            let problem: Option<String> = if !is_among(known, analyzer.as_str()) {
                let mut s = "`".to_owned();
                s.append(analyzer.as_str());
                s.append("` is not an analyzer this build can read the output of (it can read: ");
                s.append(join(known, ", ").as_str());
                s.append(NO_ADAPTER);
                Some(s)
            } else {
                match &pins[i] {
                    Ok(_) => None,
                    Err(text) => Some(text.clone()),
                }
            };
            match problem {
                Some(p) => {
                    r.push(p);
                    assert(views(r@) =~= views(was).push(p@));
                },
                None => {},
            }
            i = i + 1;
        }
        assert(self.images.names().take(n as int) =~= self.images.names());
        r
    }
}

impl WorkspaceConfig {
    /// Names no root and no repository.
    pub open spec fn names_none(self) -> bool {
        list_of(self.roots).len() == 0 && list_of(self.repos).len() == 0
    }

    /// Whether the table names no root and no repository.
    pub fn is_empty(&self) -> (r: bool)
        ensures
            r == self.names_none(),
    {
        let no_roots = match &self.roots {
            Some(v) => v.len() == 0,
            None => true,
        };
        let no_repos = match &self.repos {
            Some(v) => v.len() == 0,
            None => true,
        };
        no_roots && no_repos
    }

    /// The layers together, list by list.
    pub open spec fn overlaid(self, over: Self, r: Self) -> bool {
        &&& list_view(r.roots) == or_of(list_view(over.roots), list_view(self.roots))
        &&& list_view(r.repos) == or_of(list_view(over.repos), list_view(self.repos))
    }

    fn overlaid_with(&self, over: &Self) -> (r: Self)
        ensures
            self.overlaid(*over, r),
    {
        WorkspaceConfig {
            roots: pick_list(&over.roots, &self.roots),
            repos: pick_list(&over.repos, &self.repos),
        }
    }
}

/// Which kinds of content are read, every choice made.
#[derive(Debug, Clone, Copy, PartialEq, Eq, Structural)]
pub struct IngestChoice {
    pub prose: bool,
    pub pdf: bool,
    pub ocr: bool,
    pub vision: bool,
    pub audio: bool,
}

impl IngestConfig {
    /// The choices made; what is left open is on.
    pub fn resolve(&self) -> (r: IngestChoice)
        ensures
            r.prose == (self.prose != Some(false)),
            r.pdf == (self.pdf != Some(false)),
            r.ocr == (self.ocr != Some(false)),
            r.vision == (self.vision != Some(false)),
            r.audio == (self.audio != Some(false)),
    {
        IngestChoice {
            prose: self.prose.unwrap_or(true),
            pdf: self.pdf.unwrap_or(true),
            ocr: self.ocr.unwrap_or(true),
            vision: self.vision.unwrap_or(true),
            audio: self.audio.unwrap_or(true),
        }
    }
}

/// The thresholds of the media gate, as bit patterns of 64-bit floating-point
/// numbers.
#[derive(Debug, Clone, Copy, PartialEq, Eq, Structural)]
pub struct GateThresholds {
    pub silence_rms: u64,
    pub image_variance: u64,
}

/// The amplitude at or below which a clip counts as silent where none is set:
/// the bits of 0.0001.
pub const SILENCE_RMS: u64 = 0x3F1A36E2EB1C432D;

/// The variance at or below which an image counts as uniform where none is set:
/// the bits of 0.00001.
pub const IMAGE_VARIANCE: u64 = 0x3EE4F8B588E368F1;

impl MediaConfig {
    /// The thresholds in force: `disabled` where gating is switched off, else
    /// those set, and the defaults for those that are not.
    pub fn resolve(&self, disabled: GateThresholds) -> (r: GateThresholds)
        ensures
            self.gate == Some(false) ==> r == disabled,
            self.gate != Some(false) ==> r.silence_rms == or_of(
                self.silence_rms,
                Some(SILENCE_RMS),
            )->0,
            self.gate != Some(false) ==> r.image_variance == or_of(
                self.image_variance,
                Some(IMAGE_VARIANCE),
            )->0,
    {
        match self.gate {
            Some(false) => disabled,
            _ => GateThresholds {
                silence_rms: self.silence_rms.unwrap_or(SILENCE_RMS),
                image_variance: self.image_variance.unwrap_or(IMAGE_VARIANCE),
            },
        }
    }
}

// ---------------------------------------------------------------------------
// `[debt] ignore`
// ---------------------------------------------------------------------------

/// The patterns two layers give together: the upper layer's alone where it
/// resets; one layer's where the other has no list; else the lower layer's
/// followed by the upper's, each pattern once, where it first stands.
pub open spec fn merge_ignore_of(base: Option<Seq<Seq<char>>>, over: DebtConfig) -> Option<
    Seq<Seq<char>>,
> {
    if over.ignore_reset == Some(true) {
        list_view(over.ignore)
    } else {
        match (base, list_view(over.ignore)) {
            (None, o) => o,
            (b, None) => b,
            (Some(b), Some(o)) => Some(firsts(b + o)),
        }
    }
}

/// The patterns of the lower layer and of the upper one together.
pub fn merge_ignore(base: &Option<Vec<String>>, over: &DebtConfig) -> (r: Option<Vec<String>>)
    ensures
        list_view(r) == merge_ignore_of(list_view(*base), *over),
{
    let reset = match over.ignore_reset {
        Some(b) => b,
        None => false,
    };
    if reset {
        return copy_list(&over.ignore);
    }
    match (base, &over.ignore) {
        (None, _) => copy_list(&over.ignore),
        (_, None) => copy_list(base),
        (Some(b), Some(o)) => {
            let mut all: Vec<String> = Vec::new();
            assert(views(all@) =~= Seq::<Seq<char>>::empty());
            merge_into(&mut all, b);
            merge_into(&mut all, o);
            proof {
                merged_twice(Seq::empty(), views(b@), views(o@));
            }
            Some(all)
        },
    }
}

// ---------------------------------------------------------------------------
// The whole configuration
// ---------------------------------------------------------------------------

/// What a `[[workspaces]]` entry says.
pub struct WorkspaceView {
    pub name: Seq<char>,
    pub roots: Option<Seq<Seq<char>>>,
    pub repos: Option<Seq<Seq<char>>>,
    pub includes: Option<Seq<Seq<char>>>,
}

impl View for NamedWorkspace {
    type V = WorkspaceView;

    open spec fn view(&self) -> WorkspaceView {
        WorkspaceView {
            name: self.name@,
            roots: list_view(self.roots),
            repos: list_view(self.repos),
            includes: list_view(self.includes),
        }
    }
}

/// What the entries say.
pub open spec fn workspaces_view(v: Seq<NamedWorkspace>) -> Seq<WorkspaceView> {
    v.map_values(|w: NamedWorkspace| w@)
}

fn copy_workspaces(v: &Vec<NamedWorkspace>) -> (r: Vec<NamedWorkspace>)
    ensures
        workspaces_view(r@) == workspaces_view(v@),
{
    let mut r: Vec<NamedWorkspace> = Vec::new();
    let mut i: usize = 0;
    while i < v.len()
        invariant
            i <= v@.len(),
            workspaces_view(r@) == workspaces_view(v@).take(i as int),
        decreases v@.len() - i,
    {
        let ghost was = r@;
        let w = NamedWorkspace {
            name: v[i].name.clone(),
            roots: copy_list(&v[i].roots),
            repos: copy_list(&v[i].repos),
            includes: copy_list(&v[i].includes),
        };
        r.push(w);
        assert(workspaces_view(r@) =~= workspaces_view(was).push(w@));
        i = i + 1;
        assert(workspaces_view(r@) =~= workspaces_view(v@).take(i as int));
    }
    assert(workspaces_view(v@).take(v@.len() as int) =~= workspaces_view(v@));
    r
}

fn copy_links(v: &Vec<LinkDecl>) -> (r: Vec<LinkDecl>)
    ensures
        r@ == v@,
{
    let mut r: Vec<LinkDecl> = Vec::new();
    let mut i: usize = 0;
    while i < v.len()
        invariant
            i <= v@.len(),
            r@ == v@.take(i as int),
        decreases v@.len() - i,
    {
        r.push(
            LinkDecl {
                to: v[i].to.clone(),
                from: copy_opt(&v[i].from),
                kind: copy_opt(&v[i].kind),
            },
        );
        i = i + 1;
        assert(r@ =~= v@.take(i as int));
    }
    assert(v@.take(v@.len() as int) =~= v@);
    r
}

/// `r` is the project's layer `over` laid on the user's layer `base`, in the
/// build `build`.
pub open spec fn overlay(base: Config, over: Config, build: Build, r: Config) -> bool {
    &&& r.models == base.models.overlaid(over.models)
    &&& r.infer.min_confidence == or_of(over.infer.min_confidence, base.infer.min_confidence)
    &&& r.infer.top_k == or_of(over.infer.top_k, base.infer.top_k)
    &&& r.duplicates.min_similarity == or_of(
        over.duplicates.min_similarity,
        base.duplicates.min_similarity,
    )
    &&& r.duplicates.limit == or_of(over.duplicates.limit, base.duplicates.limit)
    &&& r.ingest.prose == or_of(over.ingest.prose, base.ingest.prose)
    &&& r.ingest.pdf == or_of(over.ingest.pdf, base.ingest.pdf)
    &&& r.ingest.ocr == or_of(over.ingest.ocr, base.ingest.ocr)
    &&& r.ingest.vision == or_of(over.ingest.vision, base.ingest.vision)
    &&& r.ingest.audio == or_of(over.ingest.audio, base.ingest.audio)
    &&& r.media.gate == or_of(over.media.gate, base.media.gate)
    &&& r.media.silence_rms == or_of(over.media.silence_rms, base.media.silence_rms)
    &&& r.media.image_variance == or_of(over.media.image_variance, base.media.image_variance)
    &&& r.serve.addr == or_of(over.serve.addr, base.serve.addr)
    &&& list_view(r.serve.models) == or_of(
        list_view(over.serve.models),
        list_view(base.serve.models),
    )
    &&& r.serve.tools == or_of(over.serve.tools, base.serve.tools)
    &&& r.serve.memory_budget_mb == or_of(over.serve.memory_budget_mb, base.serve.memory_budget_mb)
    &&& r.serve.max_context_tokens == or_of(
        over.serve.max_context_tokens,
        base.serve.max_context_tokens,
    )
    &&& r.serve.tls_cert == or_of(over.serve.tls_cert, base.serve.tls_cert)
    &&& r.serve.tls_key == or_of(over.serve.tls_key, base.serve.tls_key)
    &&& list_view(r.debt.ignore) == merge_ignore_of(list_view(base.debt.ignore), over.debt)
    &&& r.debt.ignore_reset == over.debt.ignore_reset
    &&& r.remote == base.remote.overlaid(over.remote, build.remote)
    &&& r.lint == base.lint.overlaid(over.lint, build.lint)
    &&& r.security.images@ == base.security.images@.union_prefer_right(over.security.images@)
    &&& r.paths.model_store == or_of(over.paths.model_store, base.paths.model_store)
    &&& r.telemetry == base.telemetry.overlaid(over.telemetry)
    &&& base.workspace.overlaid(over.workspace, r.workspace)
    &&& workspaces_view(r.workspaces@) == (if over.workspaces@.len() == 0 {
        workspaces_view(base.workspaces@)
    } else {
        workspaces_view(over.workspaces@)
    })
    &&& base.standalone.overlaid(over.standalone, r.standalone)
    &&& r.links@ == (if over.links@.len() == 0 {
        base.links@
    } else {
        over.links@
    })
    &&& r.pins@ == base.pins@.union_prefer_right(over.pins@)
}

impl Config {
    /// Overlays the project's layer (`over`) on the user's.
    pub fn overlaid_with(&self, over: &Config, build: Build) -> (r: Config)
        ensures
            overlay(*self, *over, build, r),
    {
        Config {
            models: self.models.overlaid_with(&over.models),
            infer: InferConfig {
                min_confidence: pick(over.infer.min_confidence, self.infer.min_confidence),
                top_k: pick(over.infer.top_k, self.infer.top_k),
            },
            duplicates: DuplicatesConfig {
                min_similarity: pick(
                    over.duplicates.min_similarity,
                    self.duplicates.min_similarity,
                ),
                limit: pick(over.duplicates.limit, self.duplicates.limit),
            },
            ingest: IngestConfig {
                prose: pick(over.ingest.prose, self.ingest.prose),
                pdf: pick(over.ingest.pdf, self.ingest.pdf),
                ocr: pick(over.ingest.ocr, self.ingest.ocr),
                vision: pick(over.ingest.vision, self.ingest.vision),
                audio: pick(over.ingest.audio, self.ingest.audio),
            },
            media: MediaConfig {
                gate: pick(over.media.gate, self.media.gate),
                silence_rms: pick(over.media.silence_rms, self.media.silence_rms),
                image_variance: pick(over.media.image_variance, self.media.image_variance),
            },
            serve: ServeConfig {
                addr: pick_text(&over.serve.addr, &self.serve.addr),
                models: pick_list(&over.serve.models, &self.serve.models),
                tools: pick(over.serve.tools, self.serve.tools),
                memory_budget_mb: pick(over.serve.memory_budget_mb, self.serve.memory_budget_mb),
                max_context_tokens: pick(
                    over.serve.max_context_tokens,
                    self.serve.max_context_tokens,
                ),
                tls_cert: pick_text(&over.serve.tls_cert, &self.serve.tls_cert),
                tls_key: pick_text(&over.serve.tls_key, &self.serve.tls_key),
            },
            // The one list that merges across layers. Its reset is a directive to
            // that merge, so what stands here is what the merge was told, never a
            // value inherited from below.
            debt: DebtConfig {
                ignore: merge_ignore(&self.debt.ignore, &over.debt),
                ignore_reset: over.debt.ignore_reset,
            },
            remote: self.remote.overlaid_with(&over.remote, build.remote),
            lint: self.lint.overlaid_with(&over.lint, build.lint),
            security: SecurityConfig {
                images: overlay_map(&self.security.images, &over.security.images),
            },
            paths: PathsConfig {
                model_store: pick_text(&over.paths.model_store, &self.paths.model_store),
            },
            telemetry: self.telemetry.overlaid_with(&over.telemetry),
            workspace: self.workspace.overlaid_with(&over.workspace),
            workspaces: if over.workspaces.len() == 0 {
                copy_workspaces(&self.workspaces)
            } else {
                copy_workspaces(&over.workspaces)
            },
            standalone: self.standalone.overlaid_with(&over.standalone),
            links: if over.links.len() == 0 {
                copy_links(&self.links)
            } else {
                copy_links(&over.links)
            },
            pins: overlay_map(&self.pins, &over.pins),
        }
    }
}


// ---------------------------------------------------------------------------
// The layers
// ---------------------------------------------------------------------------

/// Which layers name a pattern.
pub open spec fn layer_of(pattern: Seq<char>, user: DebtConfig, project: DebtConfig) -> Seq<char> {
    let in_project = list_of(project.ignore).contains(pattern);
    let in_user = list_of(user.ignore).contains(pattern);
    if in_project && in_user {
        "project, user"@
    } else if in_project {
        "project"@
    } else if in_user {
        "user"@
    } else {
        "unknown"@
    }
}

/// A pattern that is not among `kept`.
pub open spec fn not_kept(kept: Seq<Seq<char>>) -> spec_fn(Seq<char>) -> bool {
    |p: Seq<char>| !kept.contains(p)
}

/// The views of borrowed strings.
pub open spec fn str_views(s: Seq<&str>) -> Seq<Seq<char>> {
    s.map_values(|x: &str| x@)
}

fn names_pattern(c: &Config, pattern: &str) -> (r: bool)
    ensures
        r == list_of(c.debt.ignore).contains(pattern@),
{
    match &c.debt.ignore {
        Some(v) => is_among(v, pattern),
        None => false,
    }
}

/// `r` is `c` with its models settled and nothing else changed.
pub open spec fn settled(r: Config, c: Config) -> bool {
    &&& r.models.normal(c.models)
    &&& r == (Config { models: r.models, ..c })
}

fn settle(c: Config) -> (r: Config)
    ensures
        settled(r, c),
{
    let mut r = c;
    r.models.normalize();
    r
}

/// The message for a configuration that could not be read.
pub open spec fn unread_config(root: Seq<char>, why: Seq<char>) -> Seq<char> {
    "reading the configuration of the repository at "@ + root + ": "@ + why
}

/// The `[debt] ignore` patterns that govern a project: those of the repository
/// at its own root, given what loading that repository's configuration gave. A
/// project without a root has none, and a configuration that cannot be read is
/// an error, never an empty list.
pub fn debt_ignore_for(root: &Option<String>, loaded: &Result<Loaded, String>) -> (r: Result<
    Vec<String>,
    String,
>)
    ensures
        match root {
            None => r matches Ok(v) && views(v@) == Seq::<Seq<char>>::empty(),
            Some(at) => match loaded {
                Ok(l) => r matches Ok(v) && views(v@) == list_of(l.effective.debt.ignore),
                Err(why) => r matches Err(e) && e@ == unread_config(at@, why@),
            },
        },
{
    match root {
        None => {
            let v: Vec<String> = Vec::new();
            assert(views(v@) =~= Seq::<Seq<char>>::empty());
            Ok(v)
        },
        Some(at) => match loaded {
            Ok(l) => Ok(list_or_empty(&l.effective.debt.ignore)),
            Err(why) => {
                let mut s = "reading the configuration of the repository at ".to_owned();
                s.append(at.as_str());
                s.append(": ");
                s.append(why.as_str());
                Err(s)
            },
        },
    }
}

impl Loaded {
    /// The effective configuration is the project's layer laid on the user's.
    pub open spec fn layered(self, build: Build) -> bool {
        overlay(self.user, self.project, build, self.effective)
    }

    /// Merges two layers, each read from where its path says.
    pub fn from_layers(
        user: Config,
        project: Config,
        user_path: Option<String>,
        project_path: Option<String>,
        build: Build,
    ) -> (r: Loaded)
        ensures
            r.user == user,
            r.project == project,
            r.user_path == user_path,
            r.project_path == project_path,
            r.layered(build),
    {
        let effective = user.overlaid_with(&project, build);
        Loaded { effective, user, project, user_path, project_path }
    }

    /// Merges two layers as they were parsed. The models of each are settled
    /// first, so that every reader finds the same slots set.
    pub fn load_from(
        user: Config,
        project: Config,
        user_path: Option<String>,
        project_path: Option<String>,
        build: Build,
    ) -> (r: Loaded)
        ensures
            settled(r.user, user),
            settled(r.project, project),
            r.user_path == user_path,
            r.project_path == project_path,
            r.layered(build),
    {
        let user = settle(user);
        let project = settle(project);
        Loaded::from_layers(user, project, user_path, project_path, build)
    }

    /// The effective `[debt] ignore` patterns, each with the layers that name it.
    pub fn debt_ignore_sources(&self) -> (r: Vec<(&str, &'static str)>)
        ensures
            r@.len() == list_of(self.effective.debt.ignore).len(),
            forall|i: int|
                0 <= i < r@.len() ==> (#[trigger] r@[i]).0@ == list_of(
                    self.effective.debt.ignore,
                )[i] && r@[i].1@ == layer_of(r@[i].0@, self.user.debt, self.project.debt),
    {
        let mut r: Vec<(&str, &'static str)> = Vec::new();
        match &self.effective.debt.ignore {
            None => {},
            Some(v) => {
                let mut i: usize = 0;
                while i < v.len()
                    invariant
                        i <= v@.len(),
                        r@.len() == i,
                        forall|j: int|
                            0 <= j < i ==> (#[trigger] r@[j]).0@ == views(v@)[j] && r@[j].1@
                                == layer_of(r@[j].0@, self.user.debt, self.project.debt),
                    decreases v@.len() - i,
                {
                    let pattern = v[i].as_str();
                    let in_project = names_pattern(&self.project, pattern);
                    let in_user = names_pattern(&self.user, pattern);
                    let layer = if in_project && in_user {
                        "project, user"
                    } else if in_project {
                        "project"
                    } else if in_user {
                        "user"
                    } else {
                        "unknown"
                    };
                    r.push((pattern, layer));
                    i = i + 1;
                }
            },
        }
        r
    }

    /// Whether the user's layer asked for a reset that did nothing.
    pub fn debt_ignore_reset_was_inert(&self) -> (r: bool)
        ensures
            r == (self.user.debt.ignore_reset == Some(true) && self.effective.debt.ignore_reset
                != Some(true)),
    {
        let asked = match self.user.debt.ignore_reset {
            Some(b) => b,
            None => false,
        };
        let in_force = match self.effective.debt.ignore_reset {
            Some(b) => b,
            None => false,
        };
        asked && !in_force
    }

    /// The user's `[debt] ignore` patterns that a reset discarded.
    pub fn debt_ignore_discarded(&self) -> (r: Vec<&str>)
        ensures
            str_views(r@) == (if self.effective.debt.ignore_reset == Some(true) {
                list_of(self.user.debt.ignore).filter(
                    not_kept(list_of(self.effective.debt.ignore)),
                )
            } else {
                Seq::empty()
            }),
    {
        let mut r: Vec<&str> = Vec::new();
        assert(str_views(r@) =~= Seq::empty());
        let in_force = match self.effective.debt.ignore_reset {
            Some(b) => b,
            None => false,
        };
        if !in_force {
            return r;
        }
        let ghost kept = list_of(self.effective.debt.ignore);
        proof {
            reveal(Seq::filter);
        }
        match &self.user.debt.ignore {
            None => {},
            Some(v) => {
                let mut i: usize = 0;
                while i < v.len()
                    invariant
                        i <= v@.len(),
                        kept == list_of(self.effective.debt.ignore),
                        str_views(r@) == views(v@).take(i as int).filter(not_kept(kept)),
                    decreases v@.len() - i,
                {
                    let ghost was = r@;
                    proof {
                        crate::seqs::filter_step(views(v@), i as int, not_kept(kept));
                    }
                    let pattern = v[i].as_str();
                    if !names_pattern(&self.effective, pattern) {
                        r.push(pattern);
                        assert(str_views(r@) =~= str_views(was).push(pattern@));
                    }
                    i = i + 1;
                }
                assert(views(v@).take(v@.len() as int) =~= views(v@));
            },
        }
        r
    }

    /// What the two layers say of the remote tier: the project's word, then the
    /// user's. Read from the layers, for the merge keeps no project's grant.
    pub fn remote_config_grant(&self) -> (r: (Option<bool>, Option<bool>))
        ensures
            r == (self.project.remote.enabled, self.user.remote.enabled),
    {
        (self.project.remote.enabled, self.user.remote.enabled)
    }
}

// ---------------------------------------------------------------------------
// Laws
// ---------------------------------------------------------------------------

/// A project never gives a permission: what is permitted in the end, the user's
/// own layer permitted.
pub proof fn a_project_never_grants(user: Config, project: Config, build: Build, r: Config)
    requires
        overlay(user, project, build, r),
    ensures
        r.remote.enabled == Some(true) ==> user.remote.enabled == Some(true),
        r.lint.allow_unsandboxed == Some(true) ==> user.lint.allow_unsandboxed == Some(true),
{
}

/// A project's denial stands, whatever the user's layer says: the permission is
/// refused, or unset where there is nothing to permit.
pub proof fn a_project_denial_stands(user: Config, project: Config, build: Build, r: Config)
    requires
        overlay(user, project, build, r),
    ensures
        project.remote.enabled == Some(false) ==> r.remote.enabled != Some(true),
        project.lint.allow_unsandboxed == Some(false) ==> r.lint.allow_unsandboxed != Some(true),
        project.remote.enabled == Some(false) && build.remote ==> r.remote.enabled == Some(false),
        project.lint.allow_unsandboxed == Some(false) && build.lint ==> r.lint.allow_unsandboxed
            == Some(false),
{
}

/// A build that cannot do a thing reports the permission for it as unset,
/// whatever the layers say, and reads every other key as a fuller build does.
pub proof fn no_tier_no_permission(
    user: Config,
    project: Config,
    build: Build,
    r: Config,
    fuller: Build,
    f: Config,
)
    requires
        overlay(user, project, build, r),
        overlay(user, project, fuller, f),
    ensures
        !build.remote ==> r.remote.enabled is None,
        !build.lint ==> r.lint.allow_unsandboxed is None,
        same_values(r, f),
        r.debt.ignore_reset == f.debt.ignore_reset,
{
}

/// A layer that sets nothing.
pub open spec fn blank(c: Config) -> bool {
    &&& c.models == (ModelsConfig {
        embedding: None,
        generative: None,
        vision: None,
        audio: None,
        ocr: None,
    })
    &&& c.infer == (InferConfig { min_confidence: None, top_k: None })
    &&& c.duplicates == (DuplicatesConfig { min_similarity: None, limit: None })
    &&& c.ingest == (IngestConfig { prose: None, pdf: None, ocr: None, vision: None, audio: None })
    &&& c.media == (MediaConfig { gate: None, silence_rms: None, image_variance: None })
    &&& c.serve.addr is None
    &&& c.serve.models is None
    &&& c.serve.tools is None
    &&& c.serve.memory_budget_mb is None
    &&& c.serve.max_context_tokens is None
    &&& c.serve.tls_cert is None
    &&& c.serve.tls_key is None
    &&& c.debt.ignore is None
    &&& c.debt.ignore_reset is None
    &&& c.remote == (RemoteConfig { enabled: None, endpoint: None, model: None })
    &&& c.lint == (LintConfig { allow_unsandboxed: None, image: None })
    &&& c.security.images@ == Map::<Seq<char>, String>::empty()
    &&& c.paths == (PathsConfig { model_store: None })
    &&& c.telemetry == (TelemetryConfig { file: None, rotation: None, format: None })
    &&& c.workspace.roots is None
    &&& c.workspace.repos is None
    &&& c.workspaces@.len() == 0
    &&& c.standalone.roots is None
    &&& c.standalone.repos is None
    &&& c.links@.len() == 0
    &&& c.pins@ == Map::<Seq<char>, String>::empty()
}

/// Two configurations say the same, but perhaps for the reset directive and the
/// permissions.
pub open spec fn same_values(a: Config, b: Config) -> bool {
    &&& a.models == b.models
    &&& a.infer == b.infer
    &&& a.duplicates == b.duplicates
    &&& a.ingest == b.ingest
    &&& a.media == b.media
    &&& a.serve.addr == b.serve.addr
    &&& list_view(a.serve.models) == list_view(b.serve.models)
    &&& a.serve.tools == b.serve.tools
    &&& a.serve.memory_budget_mb == b.serve.memory_budget_mb
    &&& a.serve.max_context_tokens == b.serve.max_context_tokens
    &&& a.serve.tls_cert == b.serve.tls_cert
    &&& a.serve.tls_key == b.serve.tls_key
    &&& list_view(a.debt.ignore) == list_view(b.debt.ignore)
    &&& a.remote.endpoint == b.remote.endpoint
    &&& a.remote.model == b.remote.model
    &&& a.lint.image == b.lint.image
    &&& a.security.images@ == b.security.images@
    &&& a.paths == b.paths
    &&& a.telemetry == b.telemetry
    &&& list_view(a.workspace.roots) == list_view(b.workspace.roots)
    &&& list_view(a.workspace.repos) == list_view(b.workspace.repos)
    &&& workspaces_view(a.workspaces@) == workspaces_view(b.workspaces@)
    &&& list_view(a.standalone.roots) == list_view(b.standalone.roots)
    &&& list_view(a.standalone.repos) == list_view(b.standalone.repos)
    &&& a.links@ == b.links@
    &&& a.pins@ == b.pins@
}

/// Without a project's file the user's layer is the configuration, the
/// permissions for what the build can do included.
pub proof fn no_project_layer_changes_nothing(user: Config, project: Config, build: Build, r: Config)
    requires
        overlay(user, project, build, r),
        blank(project),
    ensures
        same_values(r, user),
        build.remote ==> r.remote.enabled == user.remote.enabled,
        build.lint ==> r.lint.allow_unsandboxed == user.lint.allow_unsandboxed,
        r.debt.ignore_reset is None,
{
    assert(user.pins@.union_prefer_right(project.pins@) =~= user.pins@);
    assert(user.security.images@.union_prefer_right(project.security.images@)
        =~= user.security.images@);
}

/// Without a user's file the project's layer is the configuration, but for the
/// permissions that it cannot give.
pub proof fn no_user_layer_leaves_the_project(user: Config, project: Config, build: Build, r: Config)
    requires
        overlay(user, project, build, r),
        blank(user),
    ensures
        same_values(r, project),
        r.remote.enabled != Some(true),
        r.lint.allow_unsandboxed != Some(true),
        r.debt.ignore_reset == project.debt.ignore_reset,
{
    assert(user.pins@.union_prefer_right(project.pins@) =~= project.pins@);
    assert(user.security.images@.union_prefer_right(project.security.images@)
        =~= project.security.images@);
    if project.workspaces@.len() == 0 {
        assert(workspaces_view(user.workspaces@) =~= workspaces_view(project.workspaces@));
    }
    if project.links@.len() == 0 {
        assert(user.links@ =~= project.links@);
    }
}

/// Without a reset every pattern of either layer is in force, and no other.
/// Where both layers have a list, each pattern is there once, and the user's
/// stand at the front in the order in which they first stood.
pub proof fn exclusions_add_up(user: Config, project: Config, build: Build, r: Config)
    requires
        overlay(user, project, build, r),
        project.debt.ignore_reset != Some(true),
    ensures
        forall|p: Seq<char>| #[trigger]
            list_of(r.debt.ignore).contains(p) <==> list_of(user.debt.ignore).contains(p) || list_of(
                project.debt.ignore,
            ).contains(p),
        user.debt.ignore is Some && project.debt.ignore is Some ==> list_of(
            r.debt.ignore,
        ).no_duplicates(),
        user.debt.ignore is Some && project.debt.ignore is Some ==> firsts(
            list_of(user.debt.ignore),
        ).is_prefix_of(list_of(r.debt.ignore)),
        project.debt.ignore is None ==> list_of(r.debt.ignore) == list_of(user.debt.ignore),
        user.debt.ignore is None ==> list_of(r.debt.ignore) == list_of(project.debt.ignore),
{
    let none = Seq::<Seq<char>>::empty();
    let b = list_of(user.debt.ignore);
    let o = list_of(project.debt.ignore);
    merged_facts(none, b + o);
    merged_twice(none, b, o);
    merged_facts(merged(none, b), o);
    assert forall|p: Seq<char>| #[trigger] (b + o).contains(p) <==> b.contains(p) || o.contains(
        p,
    ) by {
        if b.contains(p) {
            let k = choose|k: int| 0 <= k < b.len() && b[k] == p;
            assert((b + o)[k] == p);
        }
        if o.contains(p) {
            let k = choose|k: int| 0 <= k < o.len() && o[k] == p;
            assert((b + o)[b.len() + k] == p);
        }
    }
    if project.debt.ignore is None {
        assert(forall|p: Seq<char>| !o.contains(p));
    }
    if user.debt.ignore is None {
        assert(forall|p: Seq<char>| !b.contains(p));
    }
}

/// With a reset only the project's patterns are in force.
pub proof fn a_reset_leaves_the_projects_own(user: Config, project: Config, build: Build, r: Config)
    requires
        overlay(user, project, build, r),
        project.debt.ignore_reset == Some(true),
    ensures
        list_view(r.debt.ignore) == list_view(project.debt.ignore),
        r.debt.ignore_reset == Some(true),
{
}

/// Every pattern in force came from a layer: none is ever reported as unknown.
pub proof fn every_pattern_has_a_layer(l: Loaded, build: Build, i: int)
    requires
        l.layered(build),
        0 <= i < list_of(l.effective.debt.ignore).len(),
    ensures
        list_of(l.user.debt.ignore).contains(list_of(l.effective.debt.ignore)[i]) || list_of(
            l.project.debt.ignore,
        ).contains(list_of(l.effective.debt.ignore)[i]),
        layer_of(list_of(l.effective.debt.ignore)[i], l.user.debt, l.project.debt) != "unknown"@,
{
    let p = list_of(l.effective.debt.ignore)[i];
    assert(list_of(l.effective.debt.ignore).contains(p));
    if l.project.debt.ignore_reset != Some(true) {
        exclusions_add_up(l.user, l.project, build, l.effective);
    }
    reveal_strlit("project, user");
    reveal_strlit("project");
    reveal_strlit("user");
    reveal_strlit("unknown");
    assert("project, user"@.len() == 13);
    assert("user"@.len() == 4);
    assert("unknown"@.len() == 7);
    assert("project"@[0] == 'p');
    assert("unknown"@[0] == 'u');
}

/// A user's reset is always inert, and is reported so unless the project's layer
/// resets too.
pub proof fn a_users_reset_is_inert(l: Loaded, build: Build)
    requires
        l.layered(build),
        l.project.debt.ignore_reset != Some(true),
    ensures
        l.effective.debt.ignore_reset != Some(true),
        forall|p: Seq<char>|
            list_of(l.user.debt.ignore).contains(p) ==> #[trigger] list_of(
                l.effective.debt.ignore,
            ).contains(p),
{
    exclusions_add_up(l.user, l.project, build, l.effective);
}

/// Pins and analyzer images layer entry by entry: a project's entry replaces the
/// user's for the same name, and leaves every other one alone.
pub proof fn entries_layer_one_by_one(
    user: Config,
    project: Config,
    build: Build,
    r: Config,
    name: Seq<char>,
)
    requires
        overlay(user, project, build, r),
    ensures
        project.pins@.contains_key(name) ==> r.pins@.contains_key(name) && r.pins@[name]
            == project.pins@[name],
        !project.pins@.contains_key(name) ==> r.pins@.contains_key(name) == user.pins@.contains_key(
            name,
        ) && (user.pins@.contains_key(name) ==> r.pins@[name] == user.pins@[name]),
        project.security.images@.contains_key(name) ==> r.security.images@.contains_key(name)
            && r.security.images@[name] == project.security.images@[name],
        !project.security.images@.contains_key(name) ==> r.security.images@.contains_key(name)
            == user.security.images@.contains_key(name) && (user.security.images@.contains_key(name)
            ==> r.security.images@[name] == user.security.images@[name]),
{
}

/// Reading a `[models]` table in its normal form changes nothing: what a key
/// names is what stands in its slot, and normalising again leaves it there.
pub proof fn normal_models_are_settled(m: ModelsConfig, of: ModelsConfig, key: Seq<char>)
    requires
        m.normal(of),
    ensures
        model_pin_of(m.slot(key)) == m.slot(key),
        m.slot(key) == model_pin_of(of.slot(key)),
        m.normal(m),
{
    assert forall|raw: Option<Seq<char>>| model_pin_of(#[trigger] model_pin_of(raw)) == model_pin_of(
        raw,
    ) by {
        if let Some(s) = raw {
            crate::text::trim_settles(s);
        }
    }
}

} // verus!
