//! The bundles that a project's peers publish: which of them are raised, what is
//! said of them, and how an answer is read. A bundle is found by itself; reading
//! it takes consent.
use vstd::prelude::*;

use crate::graph::Placeholder;
use crate::names::{increasing, insert_name, lists};
use crate::seqs::{filter_step, filtered};
use crate::text::{
    copy_all, decimal, decimal_of, is_among, join, join_of, lower, lower_of, opt_view, same, trim,
    trim_of, views,
};

verus! {

// ---------------------------------------------------------------------------
// What was found
// ---------------------------------------------------------------------------

/// A bundle on disk.
#[derive(Debug)]
pub struct OkfBundle {
    /// The project that publishes it.
    pub peer: String,
    /// Where it is.
    pub bundle: String,
}

/// What reading a bundle found.
#[derive(Debug)]
pub struct OkfReport {
    pub concepts_read: usize,
    pub concepts_quarantined: usize,
    pub concepts_blocked: usize,
    /// The classes the content screener found.
    pub screen_classes: Vec<String>,
}

/// What is recorded of a bundle.
#[derive(Debug)]
pub struct ConsentState {
    /// Why it is raised, where the record says.
    pub why_asking: Option<String>,
}

/// A bundle that was found, screened, with what is recorded of it.
#[derive(Debug)]
pub struct Discovered {
    pub bundle: OkfBundle,
    pub state: ConsentState,
    /// What reading it found, or why it could not be read.
    pub screened: Result<OkfReport, String>,
}

/// The text of a summary.
pub open spec fn summary_of(screened: Result<OkfReport, String>) -> Seq<char> {
    match screened {
        Err(e) => "unreadable: "@ + e@,
        Ok(r) => if r.concepts_quarantined > 0 || r.concepts_blocked > 0 {
            decimal_of(r.concepts_read as nat) + " concept(s), "@ + decimal_of(
                r.concepts_quarantined as nat,
            ) + " quarantined, "@ + decimal_of(r.concepts_blocked as nat)
                + " blocked by the content screen ["@ + join_of(views(r.screen_classes@), ", "@)
                + "]"@
        } else {
            decimal_of(r.concepts_read as nat) + " concept(s), screened clean"@
        },
    }
}

/// Why a bundle is raised.
pub open spec fn why_of(state: ConsentState) -> Seq<char> {
    match state.why_asking {
        Some(w) => w@,
        None => "not seen before"@,
    }
}

impl ConsentState {
    /// Why a bundle is raised.
    fn why(&self) -> (r: &str)
        ensures
            r@ == why_of(*self),
    {
        match &self.why_asking {
            Some(w) => w.as_str(),
            None => "not seen before",
        }
    }
}

impl Discovered {
    /// Whether the bundle could be read. One that could not is never decided on.
    pub fn is_readable(&self) -> (r: bool)
        ensures
            r == (self.screened is Ok),
    {
        match &self.screened {
            Ok(_) => true,
            Err(_) => false,
        }
    }

    /// The classes an answer is recorded against; none where the bundle could
    /// not be read.
    pub fn screen_classes(&self) -> (r: Vec<String>)
        ensures
            views(r@) == (match self.screened {
                Ok(report) => views(report.screen_classes@),
                Err(_) => Seq::empty(),
            }),
    {
        match &self.screened {
            Ok(report) => copy_all(&report.screen_classes),
            Err(_) => {
                let r: Vec<String> = Vec::new();
                assert(views(r@) =~= Seq::empty());
                r
            },
        }
    }

    /// What the bundle holds, in one line.
    pub fn summary(&self) -> (r: String)
        ensures
            r@ == summary_of(self.screened),
    {
        match &self.screened {
            Err(e) => {
                let mut s = "unreadable: ".to_owned();
                s.append(e.as_str());
                s
            },
            Ok(r) => {
                let mut s = decimal(r.concepts_read);
                if r.concepts_quarantined > 0 || r.concepts_blocked > 0 {
                    s.append(" concept(s), ");
                    s.append(decimal(r.concepts_quarantined).as_str());
                    s.append(" quarantined, ");
                    s.append(decimal(r.concepts_blocked).as_str());
                    s.append(" blocked by the content screen [");
                    s.append(join(&r.screen_classes, ", ").as_str());
                    s.append("]");
                } else {
                    s.append(" concept(s), screened clean");
                }
                s
            },
        }
    }
}

// ---------------------------------------------------------------------------
// Which bundles are raised
// ---------------------------------------------------------------------------

/// The projects that some placeholder of `nodes` refers to.
pub open spec fn peers_of(nodes: Seq<Placeholder>) -> Set<Seq<char>> {
    Set::new(
        |p: Seq<char>|
            exists|i: int|
                0 <= i < nodes.len() && #[trigger] opt_view(nodes[i].project) == Some(p),
    )
}

/// The projects that some placeholder of `nodes` refers to, in order.
pub fn referenced_peers(nodes: &Vec<Placeholder>) -> (r: Vec<String>)
    ensures
        lists(views(r@), peers_of(nodes@)),
{
    let mut r: Vec<String> = Vec::new();
    let mut i: usize = 0;
    assert(lists(views(r@), peers_of(nodes@.take(0))));
    while i < nodes.len()
        invariant
            i <= nodes@.len(),
            lists(views(r@), peers_of(nodes@.take(i as int))),
        decreases nodes@.len() - i,
    {
        let ghost was = views(r@);
        if let Some(p) = &nodes[i].project {
            insert_name(&mut r, p.as_str());
        }
        proof {
            peers_step(nodes@, i as int);
            assert forall|k: Seq<char>| #[trigger]
                views(r@).contains(k) <==> peers_of(nodes@.take(i + 1)).contains(k) by {
                assert(was.contains(k) <==> peers_of(nodes@.take(i as int)).contains(k));
            }
        }
        i = i + 1;
    }
    assert(nodes@.take(nodes@.len() as int) =~= nodes@);
    r
}

proof fn peers_step(nodes: Seq<Placeholder>, i: int)
    requires
        0 <= i < nodes.len(),
    ensures
        forall|p: Seq<char>| #[trigger]
            peers_of(nodes.take(i + 1)).contains(p) <==> peers_of(nodes.take(i)).contains(p)
                || opt_view(nodes[i].project) == Some(p),
{
    let a = nodes.take(i);
    let b = nodes.take(i + 1);
    assert forall|p: Seq<char>| #[trigger] peers_of(b).contains(p) <==> peers_of(a).contains(p)
        || opt_view(nodes[i].project) == Some(p) by {
        if peers_of(b).contains(p) {
            let j = choose|j: int| 0 <= j < b.len() && #[trigger] opt_view(b[j].project) == Some(p);
            if j < i {
                assert(opt_view(a[j].project) == Some(p));
            }
        }
        if peers_of(a).contains(p) {
            let j = choose|j: int| 0 <= j < a.len() && #[trigger] opt_view(a[j].project) == Some(p);
            assert(opt_view(b[j].project) == Some(p));
        }
        if opt_view(nodes[i].project) == Some(p) {
            assert(opt_view(b[i].project) == Some(p));
        }
    }
}

/// The bundle's publisher is among `peers`.
pub open spec fn published_by(peers: Set<Seq<char>>) -> spec_fn((Seq<char>, Seq<char>)) -> bool {
    |b: (Seq<char>, Seq<char>)| peers.contains(b.0)
}

/// Each bundle as its publisher and its place.
pub open spec fn placed(bundles: Seq<OkfBundle>) -> Seq<(Seq<char>, Seq<char>)> {
    bundles.map_values(|b: OkfBundle| (b.peer@, b.bundle@))
}

/// The bundles worth raising: those of projects that a placeholder refers to, in
/// the order they were found.
pub fn discovered(nodes: &Vec<Placeholder>, bundles: &Vec<OkfBundle>) -> (r: Vec<OkfBundle>)
    ensures
        placed(r@) == placed(bundles@).filter(published_by(peers_of(nodes@))),
{
    let peers = referenced_peers(nodes);
    let ghost p = published_by(peers_of(nodes@));
    let mut r: Vec<OkfBundle> = Vec::new();
    let mut i: usize = 0;
    proof {
        reveal(Seq::filter);
        assert(placed(r@) =~= placed(bundles@).take(0).filter(p));
    }
    while i < bundles.len()
        invariant
            i <= bundles@.len(),
            p == published_by(peers_of(nodes@)),
            lists(views(peers@), peers_of(nodes@)),
            placed(r@) == placed(bundles@).take(i as int).filter(p),
        decreases bundles@.len() - i,
    {
        proof {
            filter_step(placed(bundles@), i as int, p);
        }
        let b = &bundles[i];
        if is_among(&peers, b.peer.as_str()) {
            let ghost was = r@;
            let own = OkfBundle { peer: b.peer.clone(), bundle: b.bundle.clone() };
            r.push(own);
            assert(placed(r@) =~= placed(was).push((b.peer@, b.bundle@)));
        }
        i = i + 1;
    }
    assert(placed(bundles@).take(bundles@.len() as int) =~= placed(bundles@));
    r
}

// ---------------------------------------------------------------------------
// What is said
// ---------------------------------------------------------------------------

/// What follows the summary up to the peer's name.
pub const PROMPT_READING: &'static str = "\n\
\n\
Reading it puts ";

/// The answers a person may give.
pub const PROMPT_ANSWERS: &'static str = "'s prose into this graph, where the model-facing\n\
tools return it as grounding. Their confirmations are theirs, not ours.\n\
\n\
[t] trust       import at `external-<their tier>`, keeping what they claimed\n\
[a] acknowledge import at `external-inferred`: their information, not their\n\
\x20               confirmation\n\
[i] ignore      leave the cross-repo placeholder as it is\n\
\n";

/// The text of the consent question.
pub open spec fn prompt_of(d: Discovered) -> Seq<char> {
    "\n"@ + d.bundle.peer@
        + " publishes an OKF bundle, and this graph references it.\n\nbundle:   "@ + d.bundle.bundle@
        + "\nasking:   "@ + why_of(d.state) + "\ncontains: "@ + summary_of(d.screened)
        + PROMPT_READING@ + d.bundle.peer@ + PROMPT_ANSWERS@
}

/// The text of the consent question: who publishes the bundle, where it is, why
/// it is raised and what screening found.
pub fn prompt_text(d: &Discovered) -> (r: String)
    ensures
        r@ == prompt_of(*d),
{
    let mut s = "\n".to_owned();
    s.append(d.bundle.peer.as_str());
    s.append(" publishes an OKF bundle, and this graph references it.\n\nbundle:   ");
    s.append(d.bundle.bundle.as_str());
    s.append("\nasking:   ");
    s.append(d.state.why());
    s.append("\ncontains: ");
    s.append(d.summary().as_str());
    s.append(PROMPT_READING);
    s.append(d.bundle.peer.as_str());
    s.append(PROMPT_ANSWERS);
    s
}

/// Why nothing was asked.
#[derive(Debug, Clone, Copy, PartialEq, Eq, Structural)]
pub enum Unasked {
    /// No terminal on standard input.
    NoTerminal,
    /// A terminal, but a command that does not write.
    NotWriting,
    /// The bundle could not be read, so there is nothing to consent to.
    Unreadable,
    /// Output for a program, which is nobody to ask.
    MachineOutput,
}

impl Unasked {
    /// The clause that names the reason.
    pub open spec fn clause(self) -> Seq<char> {
        match self {
            Unasked::NoTerminal => "This run is not interactive"@,
            Unasked::NotWriting => "This run does not write (`links` without `--write`)"@,
            Unasked::Unreadable => "The bundle could not be read, so there is nothing to decide"@,
            Unasked::MachineOutput => "This run emits `--json`, so there is nobody to ask"@,
        }
    }

    /// The clause that names the reason.
    pub fn as_str(self) -> (r: &'static str)
        ensures
            r@ == self.clause(),
    {
        match self {
            Unasked::NoTerminal => "This run is not interactive",
            Unasked::NotWriting => "This run does not write (`links` without `--write`)",
            Unasked::Unreadable => "The bundle could not be read, so there is nothing to decide",
            Unasked::MachineOutput => "This run emits `--json`, so there is nobody to ask",
        }
    }
}

/// What follows the reason up to the bundle's place.
pub const NOTE_IGNORED: &'static str = ", so it was **ignored** and nothing was recorded — a \
graph does not adopt a stranger's concepts because nobody was there to object. \
Decide it with `roteiro import --from okf ";

/// The note printed where there is nobody to ask.
pub open spec fn note_of(d: Discovered, because: Unasked) -> Seq<char> {
    "roteiro: "@ + d.bundle.peer@ + " publishes an OKF bundle at "@ + d.bundle.bundle@ + " ("@
        + summary_of(d.screened) + "), and it is undecided: "@ + why_of(d.state) + ". "@
        + because.clause() + NOTE_IGNORED@ + d.bundle.bundle@
        + "` (add --trust to keep their tiers)."@
}

/// The note printed where there is nobody to ask: the same facts as the
/// question, and why it was not put.
pub fn note_text(d: &Discovered, silent_because: Unasked) -> (r: String)
    ensures
        r@ == note_of(*d, silent_because),
{
    let mut s = "roteiro: ".to_owned();
    s.append(d.bundle.peer.as_str());
    s.append(" publishes an OKF bundle at ");
    s.append(d.bundle.bundle.as_str());
    s.append(" (");
    s.append(d.summary().as_str());
    s.append("), and it is undecided: ");
    s.append(d.state.why());
    s.append(". ");
    s.append(silent_because.as_str());
    s.append(NOTE_IGNORED);
    s.append(d.bundle.bundle.as_str());
    s.append("` (add --trust to keep their tiers).");
    s
}

// ---------------------------------------------------------------------------
// The answer
// ---------------------------------------------------------------------------

/// What was decided on a bundle.
#[derive(Debug, Clone, Copy, PartialEq, Eq, Structural)]
pub enum OkfDecision {
    Trust,
    Acknowledge,
    Ignore,
}

/// What a typed line decides. Anything that is not a known word is no grant.
pub open spec fn decision_of(line: Seq<char>) -> OkfDecision {
    let word = lower_of(trim_of(line));
    if word == "t"@ || word == "trust"@ {
        OkfDecision::Trust
    } else if word == "a"@ || word == "ack"@ || word == "acknowledge"@ {
        OkfDecision::Acknowledge
    } else {
        OkfDecision::Ignore
    }
}

/// Reads a typed line as a decision.
pub fn decide(line: &str) -> (r: OkfDecision)
    ensures
        r == decision_of(line@),
{
    let word = lower(trim(line).as_str());
    let w = word.as_str();
    if same(w, "t") || same(w, "trust") {
        OkfDecision::Trust
    } else if same(w, "a") || same(w, "ack") || same(w, "acknowledge") {
        OkfDecision::Acknowledge
    } else {
        OkfDecision::Ignore
    }
}

// ---------------------------------------------------------------------------
// What was already said
// ---------------------------------------------------------------------------

/// How many undecided peers are named before the rest are counted.
pub const NOTE_LIMIT: usize = 3;

/// The peers already mentioned in this process.
#[derive(Debug)]
pub struct Noted {
    peers: Vec<String>,
}

impl View for Noted {
    type V = Set<Seq<char>>;

    closed spec fn view(&self) -> Set<Seq<char>> {
        views(self.peers@).to_set()
    }
}

/// Whether a peer is named, given those that were seen before.
pub open spec fn named_now(seen: Set<Seq<char>>, peer: Seq<char>) -> bool {
    !seen.contains(peer) && seen.insert(peer).len() <= NOTE_LIMIT
}

/// How many of the peers seen were not named.
pub open spec fn suppressed_of(seen: Set<Seq<char>>) -> nat {
    if seen.len() > NOTE_LIMIT {
        (seen.len() - NOTE_LIMIT) as nat
    } else {
        0
    }
}

impl Noted {
    #[verifier::type_invariant]
    spec fn wf(self) -> bool {
        increasing(views(self.peers@))
    }

    /// Whether `peer` is to be mentioned now; it counts as seen either way.
    pub fn should_note(&mut self, peer: &str) -> (r: bool)
        ensures
            final(self)@ == old(self)@.insert(peer@),
            r == named_now(old(self)@, peer@),
    {
        proof {
            use_type_invariant(&*self);
        }
        let mut peers: Vec<String> = Vec::new();
        std::mem::swap(&mut peers, &mut self.peers);
        let ghost was = views(peers@);
        let new = insert_name(&mut peers, peer);
        let n: usize = peers.len();
        proof {
            counted(views(peers@));
            assert(views(peers@).to_set() =~= was.to_set().insert(peer@));
        }
        self.peers = peers;
        new && n <= NOTE_LIMIT
    }

    /// How many peers were seen and, for the limit, not named.
    pub fn suppressed(&self) -> (r: usize)
        ensures
            r == suppressed_of(self@),
    {
        proof {
            use_type_invariant(self);
            counted(views(self.peers@));
        }
        if self.peers.len() > NOTE_LIMIT {
            self.peers.len() - NOTE_LIMIT
        } else {
            0
        }
    }
}

impl Default for Noted {
    fn default() -> (r: Self)
        ensures
            r@ == Set::<Seq<char>>::empty(),
    {
        let peers: Vec<String> = Vec::new();
        assert(views(peers@).to_set() =~= Set::<Seq<char>>::empty());
        Noted { peers }
    }
}

proof fn counted(s: Seq<Seq<char>>)
    requires
        increasing(s),
    ensures
        s.to_set().len() == s.len(),
{
    assert forall|i: int, j: int| 0 <= i < s.len() && 0 <= j < s.len() && i != j implies s[i]
        != s[j] by {
        if i < j {
            crate::text::before_irreflexive(s[i]);
            assert(crate::text::before(s[i], s[j]));
        } else {
            crate::text::before_irreflexive(s[j]);
            assert(crate::text::before(s[j], s[i]));
        }
    }
    s.unique_seq_to_set();
}

// ---------------------------------------------------------------------------
// Laws
// ---------------------------------------------------------------------------

/// How many of these mentions, made one after the other, name their peer.
pub open spec fn named_among(mentions: Seq<Seq<char>>) -> nat
    decreases mentions.len(),
{
    if mentions.len() == 0 {
        0
    } else {
        let before = mentions.drop_last();
        named_among(before) + (if named_now(before.to_set(), mentions.last()) {
            1nat
        } else {
            0
        })
    }
}

/// However often peers are mentioned, each is either named, once, or counted as
/// suppressed: the limit hides none.
pub proof fn no_peer_is_lost(mentions: Seq<Seq<char>>)
    ensures
        named_among(mentions) + suppressed_of(mentions.to_set()) == mentions.to_set().len(),
        named_among(mentions) <= NOTE_LIMIT,
    decreases mentions.len(),
{
    if mentions.len() == 0 {
        assert(mentions.to_set() =~= Set::empty());
    } else {
        let rest = mentions.drop_last();
        no_peer_is_lost(rest);
        vstd::seq_lib::seq_to_set_is_finite(rest);
        assert(mentions.to_set() =~= rest.to_set().insert(mentions.last())) by {
            assert forall|k: Seq<char>| #[trigger] mentions.to_set().contains(k) implies
                rest.to_set().insert(mentions.last()).contains(k) by {
                let i = choose|i: int| 0 <= i < mentions.len() && mentions[i] == k;
                if i < rest.len() {
                    assert(rest[i] == k);
                }
            }
            assert forall|k: Seq<char>| #[trigger]
                rest.to_set().insert(mentions.last()).contains(k) implies mentions.to_set().contains(
                k,
            ) by {
                if rest.contains(k) {
                    let i = choose|i: int| 0 <= i < rest.len() && rest[i] == k;
                    assert(mentions[i] == k);
                } else {
                    assert(mentions[mentions.len() - 1] == k);
                }
            }
        }
        if rest.to_set().contains(mentions.last()) {
            assert(mentions.to_set() =~= rest.to_set());
        }
    }
}

/// A peer that was mentioned is not named again.
pub proof fn a_peer_is_named_once(seen: Set<Seq<char>>, peer: Seq<char>)
    ensures
        !named_now(seen.insert(peer), peer),
{
}

/// An empty line, or one that cannot be understood, grants nothing: a grant
/// takes one of the words.
pub proof fn silence_is_no_grant(line: Seq<char>)
    requires
        decision_of(line) != OkfDecision::Ignore,
    ensures
        trim_of(line).len() > 0,
        seq!["t"@, "trust"@, "a"@, "ack"@, "acknowledge"@].contains(lower_of(trim_of(line))),
{
    let words = seq!["t"@, "trust"@, "a"@, "ack"@, "acknowledge"@];
    let w = lower_of(trim_of(line));
    assert(words[0] == w || words[1] == w || words[2] == w || words[3] == w || words[4] == w);
    reveal_strlit("t");
    reveal_strlit("trust");
    reveal_strlit("a");
    reveal_strlit("ack");
    reveal_strlit("acknowledge");
    assert(lower_of(trim_of(line)).len() == trim_of(line).len());
}

/// A bundle is raised exactly if some placeholder refers to the project that
/// publishes it; the bundles keep their order, and none is raised twice that was
/// found once.
pub proof fn a_referenced_peers_bundle_is_raised(
    nodes: Seq<Placeholder>,
    bundles: Seq<OkfBundle>,
    r: Seq<OkfBundle>,
    i: int,
)
    requires
        placed(r) == placed(bundles).filter(published_by(peers_of(nodes))),
        0 <= i < bundles.len(),
    ensures
        placed(r).contains((bundles[i].peer@, bundles[i].bundle@)) <==> exists|k: int|
            0 <= k < nodes.len() && (#[trigger] nodes[k]).project is Some && nodes[k].project->0@
                == bundles[i].peer@,
        r.len() <= bundles.len(),
{
    let p = published_by(peers_of(nodes));
    let all = placed(bundles);
    let x = (bundles[i].peer@, bundles[i].bundle@);
    filtered(all, p);
    assert(all[i] == x);
    assert(placed(r).len() == r.len());
    assert(all.len() == bundles.len());
    if placed(r).contains(x) {
        let m = choose|m: int| 0 <= m < placed(r).len() && placed(r)[m] == x;
        assert(p(all.filter(p)[m]));
        let k = choose|k: int|
            0 <= k < nodes.len() && #[trigger] opt_view(nodes[k].project) == Some(bundles[i].peer@);
        assert(nodes[k].project is Some);
    }
    if exists|k: int|
        0 <= k < nodes.len() && (#[trigger] nodes[k]).project is Some && nodes[k].project->0@
            == bundles[i].peer@ {
        let k = choose|k: int|
            0 <= k < nodes.len() && (#[trigger] nodes[k]).project is Some && nodes[k].project->0@
                == bundles[i].peer@;
        assert(opt_view(nodes[k].project) == Some(bundles[i].peer@));
        assert(p(all[i]));
    }
}

/// The words of each answer decide, in any case and with blanks around them; what
/// is none of them leaves things as they are.
pub proof fn each_word_has_its_answer(line: Seq<char>)
    ensures
        ({
            let w = lower_of(trim_of(line));
            &&& decision_of(line) == OkfDecision::Trust <==> w == "t"@ || w == "trust"@
            &&& decision_of(line) == OkfDecision::Acknowledge <==> w == "a"@ || w == "ack"@ || w
                == "acknowledge"@
        }),
{
    reveal_strlit("t");
    reveal_strlit("trust");
    reveal_strlit("a");
    reveal_strlit("ack");
    reveal_strlit("acknowledge");
    assert("t"@.len() == 1 && "trust"@.len() == 5 && "a"@.len() == 1 && "ack"@.len() == 3
        && "acknowledge"@.len() == 11);
    assert("t"@[0] == 't' && "a"@[0] == 'a');
}

/// What the screener held back is never called clean: a summary with anything
/// quarantined or blocked gives both numbers and names every class; one of a
/// bundle that could not be read says why.
pub proof fn a_summary_hides_nothing(d: Discovered, i: int)
    ensures
        d.screened is Ok && (d.screened->Ok_0.concepts_quarantined > 0
            || d.screened->Ok_0.concepts_blocked > 0) ==> {
            let r = d.screened->Ok_0;
            &&& crate::text::contains(
                summary_of(d.screened),
                decimal_of(r.concepts_quarantined as nat) + " quarantined, "@ + decimal_of(
                    r.concepts_blocked as nat,
                ) + " blocked"@,
            )
            &&& 0 <= i < r.screen_classes@.len() ==> crate::text::contains(
                summary_of(d.screened),
                r.screen_classes@[i]@,
            )
        },
        d.screened is Ok && d.screened->Ok_0.concepts_quarantined == 0
            && d.screened->Ok_0.concepts_blocked == 0 ==> summary_of(d.screened) == decimal_of(
            d.screened->Ok_0.concepts_read as nat,
        ) + " concept(s), screened clean"@,
        d.screened is Err ==> crate::text::contains(summary_of(d.screened), d.screened->Err_0@),
{
    let none = Seq::<char>::empty();
    let s = summary_of(d.screened);
    match d.screened {
        Err(e) => {
            assert("unreadable: "@ + e@ + none =~= s);
            crate::text::holds_its_middle("unreadable: "@, e@, none);
        },
        Ok(r) => if r.concepts_quarantined > 0 || r.concepts_blocked > 0 {
            let lead = decimal_of(r.concepts_read as nat) + " concept(s), "@;
            let mid = decimal_of(r.concepts_quarantined as nat) + " quarantined, "@ + decimal_of(
                r.concepts_blocked as nat,
            ) + " blocked"@;
            let list = join_of(views(r.screen_classes@), ", "@);
            let gap = " by the content screen ["@;
            reveal_strlit(" blocked by the content screen [");
            reveal_strlit(" blocked");
            reveal_strlit(" by the content screen [");
            assert(" blocked by the content screen ["@ =~= " blocked"@ + gap);
            assert(lead + mid + (gap + list + "]"@) =~= s);
            crate::text::holds_its_middle(lead, mid, gap + list + "]"@);
            assert(lead + mid + gap + list + "]"@ =~= s);
            crate::text::holds_its_middle(lead + mid + gap, list, "]"@);
            if 0 <= i < r.screen_classes@.len() {
                crate::text::join_holds_each(views(r.screen_classes@), ", "@, i);
                assert(views(r.screen_classes@)[i] == r.screen_classes@[i]@);
                crate::text::contains_within(s, list, r.screen_classes@[i]@);
            }
        },
    }
}

/// The question and the note that stands in for it say the same: who publishes,
/// where, why it is raised, and what screening found; the note says too why nobody
/// was asked.
pub proof fn the_question_and_the_note_say_the_same(d: Discovered, because: Unasked)
    ensures
        crate::text::contains(prompt_of(d), d.bundle.peer@),
        crate::text::contains(prompt_of(d), d.bundle.bundle@),
        crate::text::contains(prompt_of(d), why_of(d.state)),
        crate::text::contains(prompt_of(d), summary_of(d.screened)),
        crate::text::contains(note_of(d, because), d.bundle.peer@),
        crate::text::contains(note_of(d, because), d.bundle.bundle@),
        crate::text::contains(note_of(d, because), why_of(d.state)),
        crate::text::contains(note_of(d, because), summary_of(d.screened)),
        crate::text::contains(note_of(d, because), because.clause()),
{
    let peer = d.bundle.peer@;
    let at = d.bundle.bundle@;
    let why = why_of(d.state);
    let sum = summary_of(d.screened);
    let p1 = " publishes an OKF bundle, and this graph references it.\n\nbundle:   "@;
    let p2 = "\nasking:   "@;
    let p3 = "\ncontains: "@;
    let tail = PROMPT_READING@ + peer + PROMPT_ANSWERS@;
    let all = prompt_of(d);
    assert("\n"@ + peer + (p1 + at + p2 + why + p3 + sum + tail) =~= all);
    crate::text::holds_its_middle("\n"@, peer, p1 + at + p2 + why + p3 + sum + tail);
    assert("\n"@ + peer + p1 + at + (p2 + why + p3 + sum + tail) =~= all);
    crate::text::holds_its_middle("\n"@ + peer + p1, at, p2 + why + p3 + sum + tail);
    assert("\n"@ + peer + p1 + at + p2 + why + (p3 + sum + tail) =~= all);
    crate::text::holds_its_middle("\n"@ + peer + p1 + at + p2, why, p3 + sum + tail);
    assert("\n"@ + peer + p1 + at + p2 + why + p3 + sum + tail =~= all);
    crate::text::holds_its_middle("\n"@ + peer + p1 + at + p2 + why + p3, sum, tail);
    the_note_says(d, because);
}

proof fn the_note_says(d: Discovered, because: Unasked)
    ensures
        crate::text::contains(note_of(d, because), d.bundle.peer@),
        crate::text::contains(note_of(d, because), d.bundle.bundle@),
        crate::text::contains(note_of(d, because), why_of(d.state)),
        crate::text::contains(note_of(d, because), summary_of(d.screened)),
        crate::text::contains(note_of(d, because), because.clause()),
{
    let peer = d.bundle.peer@;
    let at = d.bundle.bundle@;
    let why = why_of(d.state);
    let sum = summary_of(d.screened);
    let c = because.clause();
    let n1 = " publishes an OKF bundle at "@;
    let n2 = " ("@;
    let n3 = "), and it is undecided: "@;
    let n4 = ". "@;
    let tail = NOTE_IGNORED@ + at + "` (add --trust to keep their tiers)."@;
    let all = note_of(d, because);
    let lead = "roteiro: "@;
    assert(lead + peer + (n1 + at + n2 + sum + n3 + why + n4 + c + tail) =~= all);
    crate::text::holds_its_middle(lead, peer, n1 + at + n2 + sum + n3 + why + n4 + c + tail);
    assert(lead + peer + n1 + at + (n2 + sum + n3 + why + n4 + c + tail) =~= all);
    crate::text::holds_its_middle(lead + peer + n1, at, n2 + sum + n3 + why + n4 + c + tail);
    assert(lead + peer + n1 + at + n2 + sum + (n3 + why + n4 + c + tail) =~= all);
    crate::text::holds_its_middle(lead + peer + n1 + at + n2, sum, n3 + why + n4 + c + tail);
    assert(lead + peer + n1 + at + n2 + sum + n3 + why + (n4 + c + tail) =~= all);
    crate::text::holds_its_middle(lead + peer + n1 + at + n2 + sum + n3, why, n4 + c + tail);
    assert(lead + peer + n1 + at + n2 + sum + n3 + why + n4 + c + tail =~= all);
    crate::text::holds_its_middle(lead + peer + n1 + at + n2 + sum + n3 + why + n4, c, tail);
}

/// A run that does not ask says why it does not, and no two reasons read alike; a
/// bundle is asked about for the reason that is on record, or because it is new.
pub proof fn each_reason_has_its_words(a: Unasked, b: Unasked, state: ConsentState)
    ensures
        a.clause() == b.clause() ==> a == b,
        state.why_asking is Some ==> why_of(state) == state.why_asking->0@,
        state.why_asking is None ==> why_of(state) == "not seen before"@,
{
    reveal_strlit("This run is not interactive");
    reveal_strlit("This run does not write (`links` without `--write`)");
    reveal_strlit("The bundle could not be read, so there is nothing to decide");
    reveal_strlit("This run emits `--json`, so there is nobody to ask");
    assert("This run is not interactive"@[9] == 'i');
    assert("This run does not write (`links` without `--write`)"@[9] == 'd');
    assert("The bundle could not be read, so there is nothing to decide"@[9] == 'e');
    assert("This run emits `--json`, so there is nobody to ask"@[10] == 'm');
    assert("The bundle could not be read, so there is nothing to decide"@[10] == ' ');
    assert("This run emits `--json`, so there is nobody to ask"@[9] == 'e');
}

} // verus!
