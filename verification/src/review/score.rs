//! How a score is written out. The table by class is the report;
//! a rate stands beside the counts it was made from.
use vstd::prelude::*;

use crate::text::{
    contains, contains_within, decimal, decimal_of, holds_its_middle, left, left_of, over,
    over_contains, over_step, right, right_of, views,
};

verus! {

/// A defect that was not found.
#[derive(Debug)]
pub struct Miss {
    pub path: String,
    pub line: usize,
    pub description: String,
    pub comment_url: String,
}

/// The score on one class of defects.
#[derive(Debug)]
pub struct ClassScore {
    pub class: String,
    pub real: usize,
    pub found: usize,
    pub misclassified: usize,
    /// The share found as a percentage without decimals, where there is one.
    pub recall: Option<String>,
    pub missed: Vec<Miss>,
}

/// A score. The library writes its rates and does not compute them.
#[derive(Debug)]
pub struct ScoreReport {
    pub attempted_shas: usize,
    pub corpus_shas: usize,
    pub per_class: Vec<ClassScore>,
    pub found: usize,
    pub real_in_scope: usize,
    pub known_false_reproduced: usize,
    pub known_false_in_scope: usize,
    /// How many findings chance alone would match, with one decimal.
    pub expected_by_position: Option<String>,
    /// The precision as a percentage without decimals.
    pub precision: Option<String>,
    pub unadjudicated: usize,
    pub verdicts: usize,
    pub verdicts_contradicted: usize,
    pub verdicts_unadjudicated: usize,
    pub suppressed_real: usize,
    pub suppressed_known_false: usize,
    pub suppressed_unadjudicated: usize,
    pub caveats: Vec<String>,
}

// ---------------------------------------------------------------------------
// Classes
// ---------------------------------------------------------------------------

/// Two lines for a defect that was missed.
pub open spec fn miss_lines() -> spec_fn(Miss) -> Seq<char> {
    |m: Miss|
        "          miss "@ + m.path@ + ":"@ + decimal_of(m.line as nat) + " — "@ + m.description@
            + "\n               "@ + m.comment_url@ + "\n"@
}

/// The rate's column.
pub open spec fn rate_of(recall: Option<String>) -> Seq<char> {
    match recall {
        Some(r) => right_of(r@, 4) + "%"@,
        None => "   —"@,
    }
}

/// The lines for one class; none where the corpus has no real defect of it.
pub open spec fn class_lines() -> spec_fn(ClassScore) -> Seq<char> {
    |c: ClassScore|
        if c.real == 0 {
            Seq::empty()
        } else {
            "  "@ + rate_of(c.recall) + "  "@ + right_of(decimal_of(c.found as nat), 2) + "/"@
                + left_of(decimal_of(c.real as nat), 2) + "  "@ + c.class@ + (if c.real == 1 {
                "  (n=1)"@
            } else {
                ""@
            }) + "\n"@ + (if c.misclassified > 0 {
                "          "@ + decimal_of(c.misclassified as nat)
                    + " found but labelled as another class\n"@
            } else {
                Seq::empty()
            }) + over(c.missed@, miss_lines())
        }
}

fn write_misses(missed: &Vec<Miss>) -> (r: String)
    ensures
        r@ == over(missed@, miss_lines()),
{
    let mut s = String::new();
    let mut i: usize = 0;
    while i < missed.len()
        invariant
            i <= missed@.len(),
            s@ == over(missed@.take(i as int), miss_lines()),
        decreases missed@.len() - i,
    {
        proof {
            over_step(missed@, miss_lines(), i as int);
        }
        let m = &missed[i];
        let mut one = "          miss ".to_owned();
        one.append(m.path.as_str());
        one.append(":");
        one.append(decimal(m.line).as_str());
        one.append(" — ");
        one.append(m.description.as_str());
        one.append("\n               ");
        one.append(m.comment_url.as_str());
        one.append("\n");
        s.append(one.as_str());
        i = i + 1;
    }
    assert(missed@.take(missed@.len() as int) =~= missed@);
    s
}

fn write_class(c: &ClassScore) -> (r: String)
    ensures
        r@ == class_lines()(*c),
{
    if c.real == 0 {
        return String::new();
    }
    let rate = match &c.recall {
        Some(x) => {
            let mut s = right(x.as_str(), 4);
            s.append("%");
            s
        },
        None => "   —".to_owned(),
    };
    let mut wrong = String::new();
    if c.misclassified > 0 {
        wrong = "          ".to_owned();
        wrong.append(decimal(c.misclassified).as_str());
        wrong.append(" found but labelled as another class\n");
    }
    let mut s = "  ".to_owned();
    s.append(rate.as_str());
    s.append("  ");
    s.append(right(decimal(c.found).as_str(), 2).as_str());
    s.append("/");
    s.append(left(decimal(c.real).as_str(), 2).as_str());
    s.append("  ");
    s.append(c.class.as_str());
    s.append(
        if c.real == 1 {
            "  (n=1)"
        } else {
            ""
        },
    );
    s.append("\n");
    s.append(wrong.as_str());
    s.append(write_misses(&c.missed).as_str());
    s
}

// ---------------------------------------------------------------------------
// Totals
// ---------------------------------------------------------------------------

/// The lines below the table: what was found, what chance would give, and the
/// precision over what was adjudicated.
pub open spec fn totals(s: ScoreReport) -> Seq<char> {
    "\n"@ + decimal_of(s.found as nat) + "/"@ + decimal_of(s.real_in_scope as nat)
        + " real defect(s) found; "@ + decimal_of(s.known_false_reproduced as nat) + "/"@
        + decimal_of(s.known_false_in_scope as nat) + " known-false claim(s) reproduced\n"@ + (
    match s.expected_by_position {
        Some(e) => "  chance baseline: ~"@ + e@
            + " would match by position alone              (see the caveat below)\n"@,
        None => Seq::empty(),
    }) + (match s.precision {
        Some(p) => "precision over adjudicated findings only: "@ + p@ + "% ("@ + decimal_of(
            s.unadjudicated as nat,
        ) + " unadjudicated finding(s) excluded — see below)\n"@,
        None => "precision: not computable — no finding matched an adjudicated row ("@ + decimal_of(
            s.unadjudicated as nat,
        ) + " unadjudicated)\n"@,
    })
}

fn write_totals(s: &ScoreReport) -> (r: String)
    ensures
        r@ == totals(*s),
{
    let mut chance = String::new();
    if let Some(e) = &s.expected_by_position {
        chance = "  chance baseline: ~".to_owned();
        chance.append(e.as_str());
        chance.append(" would match by position alone              (see the caveat below)\n");
    }
    let precision = match &s.precision {
        Some(p) => {
            let mut t = "precision over adjudicated findings only: ".to_owned();
            t.append(p.as_str());
            t.append("% (");
            t.append(decimal(s.unadjudicated).as_str());
            t.append(" unadjudicated finding(s) excluded — see below)\n");
            t
        },
        None => {
            let mut t = "precision: not computable — no finding matched an adjudicated row (".to_owned();
            t.append(decimal(s.unadjudicated).as_str());
            t.append(" unadjudicated)\n");
            t
        },
    };
    let mut r = "\n".to_owned();
    r.append(decimal(s.found).as_str());
    r.append("/");
    r.append(decimal(s.real_in_scope).as_str());
    r.append(" real defect(s) found; ");
    r.append(decimal(s.known_false_reproduced).as_str());
    r.append("/");
    r.append(decimal(s.known_false_in_scope).as_str());
    r.append(" known-false claim(s) reproduced\n");
    r.append(chance.as_str());
    r.append(precision.as_str());
    r
}

/// The lines on verdicts of whole changes, present only where there were any.
pub open spec fn verdict_lines(s: ScoreReport) -> Seq<char> {
    if s.verdicts == 0 {
        Seq::empty()
    } else {
        "\n"@ + decimal_of(s.verdicts as nat)
            + " whole-change verdict(s) — a model's opinion, gating nothing:\n  "@ + decimal_of(
            s.verdicts_contradicted as nat,
        ) + " declared a change CLEAN that the corpus knows carries a real defect\n  "@ + decimal_of(
            s.verdicts_unadjudicated as nat,
        )
            + " the corpus cannot judge (every `concerns` verdict, and `clean` on a commit with no real row)\n"@
    }
}

fn write_verdicts(s: &ScoreReport) -> (r: String)
    ensures
        r@ == verdict_lines(*s),
{
    if s.verdicts == 0 {
        return String::new();
    }
    let mut r = "\n".to_owned();
    r.append(decimal(s.verdicts).as_str());
    r.append(" whole-change verdict(s) — a model's opinion, gating nothing:\n  ");
    r.append(decimal(s.verdicts_contradicted).as_str());
    r.append(" declared a change CLEAN that the corpus knows carries a real defect\n  ");
    r.append(decimal(s.verdicts_unadjudicated).as_str());
    r.append(
        " the corpus cannot judge (every `concerns` verdict, and `clean` on a commit with no real row)\n",
    );
    r
}

/// The line on what the suppression filter withheld, present only where it
/// withheld something.
pub open spec fn suppressed_line(s: ScoreReport) -> Seq<char> {
    if s.suppressed_real + s.suppressed_known_false + s.suppressed_unadjudicated > 0 {
        "suppression filter withheld: "@ + decimal_of(s.suppressed_real as nat) + " real, "@
            + decimal_of(s.suppressed_known_false as nat) + " known-false, "@ + decimal_of(
            s.suppressed_unadjudicated as nat,
        ) + " unadjudicated\n"@
    } else {
        Seq::empty()
    }
}

fn write_suppressed(s: &ScoreReport) -> (r: String)
    ensures
        r@ == suppressed_line(*s),
{
    if s.suppressed_real == 0 && s.suppressed_known_false == 0 && s.suppressed_unadjudicated == 0 {
        return String::new();
    }
    let mut r = "suppression filter withheld: ".to_owned();
    r.append(decimal(s.suppressed_real).as_str());
    r.append(" real, ");
    r.append(decimal(s.suppressed_known_false).as_str());
    r.append(" known-false, ");
    r.append(decimal(s.suppressed_unadjudicated).as_str());
    r.append(" unadjudicated\n");
    r
}

/// One caveat.
pub open spec fn caveat_line() -> spec_fn(Seq<char>) -> Seq<char> {
    |c: Seq<char>| "  - "@ + c + "\n"@
}

/// The caveats, present only where there are any.
pub open spec fn caveat_lines(caveats: Seq<Seq<char>>) -> Seq<char> {
    if caveats.len() == 0 {
        Seq::empty()
    } else {
        "\nread these numbers with:\n"@ + over(caveats, caveat_line())
    }
}

fn write_caveats(caveats: &Vec<String>) -> (r: String)
    ensures
        r@ == caveat_lines(views(caveats@)),
{
    if caveats.len() == 0 {
        return String::new();
    }
    let mut items = String::new();
    let mut i: usize = 0;
    while i < caveats.len()
        invariant
            i <= caveats@.len(),
            items@ == over(views(caveats@).take(i as int), caveat_line()),
        decreases caveats@.len() - i,
    {
        proof {
            over_step(views(caveats@), caveat_line(), i as int);
        }
        let mut one = "  - ".to_owned();
        one.append(caveats[i].as_str());
        one.append("\n");
        items.append(one.as_str());
        i = i + 1;
    }
    assert(views(caveats@).take(caveats@.len() as int) =~= views(caveats@));
    let mut r = "\nread these numbers with:\n".to_owned();
    r.append(items.as_str());
    r
}

// ---------------------------------------------------------------------------
// The report
// ---------------------------------------------------------------------------

/// The text of a score.
pub open spec fn score_lines(s: ScoreReport) -> Seq<char> {
    "scored "@ + decimal_of(s.attempted_shas as nat) + " of "@ + decimal_of(s.corpus_shas as nat)
        + " corpus commit(s)\n\nrecall by defect class (found/real):\n"@ + over(
        s.per_class@,
        class_lines(),
    ) + totals(s) + verdict_lines(s) + suppressed_line(s) + caveat_lines(views(s.caveats@))
}

/// Writes a score out, class by class.
pub fn score_text(s: &ScoreReport) -> (r: String)
    ensures
        r@ == score_lines(*s),
{
    let mut classes = String::new();
    let mut i: usize = 0;
    while i < s.per_class.len()
        invariant
            i <= s.per_class@.len(),
            classes@ == over(s.per_class@.take(i as int), class_lines()),
        decreases s.per_class@.len() - i,
    {
        proof {
            over_step(s.per_class@, class_lines(), i as int);
        }
        classes.append(write_class(&s.per_class[i]).as_str());
        i = i + 1;
    }
    assert(s.per_class@.take(s.per_class@.len() as int) =~= s.per_class@);
    let mut r = "scored ".to_owned();
    r.append(decimal(s.attempted_shas).as_str());
    r.append(" of ");
    r.append(decimal(s.corpus_shas).as_str());
    r.append(" corpus commit(s)\n\nrecall by defect class (found/real):\n");
    r.append(classes.as_str());
    r.append(write_totals(s).as_str());
    r.append(write_verdicts(s).as_str());
    r.append(write_suppressed(s).as_str());
    r.append(write_caveats(&s.caveats).as_str());
    r
}

// ---------------------------------------------------------------------------
// Laws
// ---------------------------------------------------------------------------

/// A class without a real defect has no line, and every other has one with what
/// was found beside what there is, named, marked where there is but one, with a
/// line for what was found under another name and two for each defect missed.
pub proof fn a_class_shows_its_counts(c: ClassScore, i: int)
    ensures
        c.real == 0 <==> class_lines()(c).len() == 0,
        c.real > 0 ==> contains(
            class_lines()(c),
            right_of(decimal_of(c.found as nat), 2) + "/"@ + left_of(decimal_of(c.real as nat), 2)
                + "  "@ + c.class@,
        ),
        c.real == 1 ==> contains(class_lines()(c), c.class@ + "  (n=1)"@),
        c.real > 0 && c.misclassified > 0 ==> contains(
            class_lines()(c),
            decimal_of(c.misclassified as nat) + " found but labelled as another class\n"@,
        ),
        c.real > 0 && 0 <= i < c.missed@.len() ==> contains(class_lines()(c), c.missed@[i].path@)
            && contains(class_lines()(c), c.missed@[i].description@) && contains(
            class_lines()(c),
            c.missed@[i].comment_url@,
        ),
{
    if c.real > 0 {
        let none = Seq::<char>::empty();
        let whole = class_lines()(c);
        let rate = "  "@ + rate_of(c.recall) + "  "@;
        let count = right_of(decimal_of(c.found as nat), 2) + "/"@ + left_of(
            decimal_of(c.real as nat),
            2,
        ) + "  "@;
        let one = if c.real == 1 {
            "  (n=1)"@
        } else {
            ""@
        };
        let wrong = if c.misclassified > 0 {
            "          "@ + decimal_of(c.misclassified as nat)
                + " found but labelled as another class\n"@
        } else {
            Seq::empty()
        };
        let misses = over(c.missed@, miss_lines());
        reveal_strlit("\n");
        assert(rate + count + c.class@ + one + "\n"@ + wrong + misses =~= whole);
        assert(whole.len() > 0);
        assert(rate + (count + c.class@) + (one + "\n"@ + wrong + misses) =~= whole);
        holds_its_middle(rate, count + c.class@, one + "\n"@ + wrong + misses);
        if c.real == 1 {
            assert(rate + count + (c.class@ + one) + ("\n"@ + wrong + misses) =~= whole);
            holds_its_middle(rate + count, c.class@ + one, "\n"@ + wrong + misses);
        }
        if c.misclassified > 0 {
            let said = decimal_of(c.misclassified as nat)
                + " found but labelled as another class\n"@;
            let lead = rate + count + c.class@ + one + "\n"@ + "          "@;
            assert(lead + said + misses =~= whole);
            holds_its_middle(lead, said, misses);
        }
        if 0 <= i < c.missed@.len() {
            let lead = rate + count + c.class@ + one + "\n"@ + wrong;
            assert(lead + misses + none =~= whole);
            holds_its_middle(lead, misses, none);
            over_contains(c.missed@, miss_lines(), i);
            let m = c.missed@[i];
            let line = miss_lines()(m);
            contains_within(whole, misses, line);
            a_miss_says_where(m);
            contains_within(whole, line, m.path@);
            contains_within(whole, line, m.description@);
            contains_within(whole, line, m.comment_url@);
        }
    }
}

proof fn a_miss_says_where(m: Miss)
    ensures
        contains(miss_lines()(m), m.path@),
        contains(miss_lines()(m), m.description@),
        contains(miss_lines()(m), m.comment_url@),
{
    let line = miss_lines()(m);
    let a = "          miss "@;
    let b = ":"@ + decimal_of(m.line as nat) + " — "@;
    let c = "\n               "@;
    assert(a + m.path@ + (b + m.description@ + c + m.comment_url@ + "\n"@) =~= line);
    holds_its_middle(a, m.path@, b + m.description@ + c + m.comment_url@ + "\n"@);
    assert(a + m.path@ + b + m.description@ + (c + m.comment_url@ + "\n"@) =~= line);
    holds_its_middle(a + m.path@ + b, m.description@, c + m.comment_url@ + "\n"@);
    assert(a + m.path@ + b + m.description@ + c + m.comment_url@ + "\n"@ =~= line);
    holds_its_middle(a + m.path@ + b + m.description@ + c, m.comment_url@, "\n"@);
}

/// The text holds the lines of every class and every caveat; what the filter
/// withheld wherever it withheld anything, and the verdicts wherever there were
/// any; and a precision is never claimed where there is none.
pub proof fn a_score_leaves_nothing_out(s: ScoreReport, i: int)
    ensures
        0 <= i < s.per_class@.len() ==> contains(score_lines(s), class_lines()(s.per_class@[i])),
        0 <= i < s.caveats@.len() ==> contains(score_lines(s), "  - "@ + s.caveats@[i]@ + "\n"@),
        suppressed_line(s).len() == 0 <==> s.suppressed_real == 0 && s.suppressed_known_false == 0
            && s.suppressed_unadjudicated == 0,
        contains(score_lines(s), suppressed_line(s)),
        verdict_lines(s).len() == 0 <==> s.verdicts == 0,
        contains(score_lines(s), verdict_lines(s)),
        s.precision is None ==> contains(totals(s), "precision: not computable"@),
        s.precision is Some ==> contains(
            totals(s),
            "precision over adjudicated findings only: "@ + s.precision->0@ + "%"@,
        ),
        contains(score_lines(s), totals(s)),
{
    let none = Seq::<char>::empty();
    let whole = score_lines(s);
    let lead = "scored "@ + decimal_of(s.attempted_shas as nat) + " of "@ + decimal_of(
        s.corpus_shas as nat,
    ) + " corpus commit(s)\n\nrecall by defect class (found/real):\n"@;
    let classes = over(s.per_class@, class_lines());
    let t = totals(s);
    let v = verdict_lines(s);
    let w = suppressed_line(s);
    let k = caveat_lines(views(s.caveats@));
    assert(lead + classes + (t + v + w + k) =~= whole);
    holds_its_middle(lead, classes, t + v + w + k);
    assert(lead + classes + t + (v + w + k) =~= whole);
    holds_its_middle(lead + classes, t, v + w + k);
    assert(lead + classes + t + v + (w + k) =~= whole);
    holds_its_middle(lead + classes + t, v, w + k);
    assert(lead + classes + t + v + w + k =~= whole);
    holds_its_middle(lead + classes + t + v, w, k);
    reveal_strlit(" unadjudicated\n");
    reveal_strlit("\n");
    if 0 <= i < s.per_class@.len() {
        over_contains(s.per_class@, class_lines(), i);
        contains_within(whole, classes, class_lines()(s.per_class@[i]));
    }
    if 0 <= i < s.caveats@.len() {
        let names = views(s.caveats@);
        assert(names[i] == s.caveats@[i]@);
        let list = over(names, caveat_line());
        over_contains(names, caveat_line(), i);
        assert(lead + classes + t + v + w + k + none =~= whole);
        holds_its_middle(lead + classes + t + v + w, k, none);
        assert("\nread these numbers with:\n"@ + list + none =~= k);
        holds_its_middle("\nread these numbers with:\n"@, list, none);
        contains_within(whole, k, list);
        contains_within(whole, list, caveat_line()(names[i]));
    }
    precision_is_said(s);
}

proof fn precision_is_said(s: ScoreReport)
    ensures
        s.precision is None ==> contains(totals(s), "precision: not computable"@),
        s.precision is Some ==> contains(
            totals(s),
            "precision over adjudicated findings only: "@ + s.precision->0@ + "%"@,
        ),
{
    let t = totals(s);
    let lead = "\n"@ + decimal_of(s.found as nat) + "/"@ + decimal_of(s.real_in_scope as nat)
        + " real defect(s) found; "@ + decimal_of(s.known_false_reproduced as nat) + "/"@
        + decimal_of(s.known_false_in_scope as nat) + " known-false claim(s) reproduced\n"@ + (
    match s.expected_by_position {
        Some(e) => "  chance baseline: ~"@ + e@
            + " would match by position alone              (see the caveat below)\n"@,
        None => Seq::empty(),
    });
    match s.precision {
        Some(p) => {
            let part = "precision over adjudicated findings only: "@ + p@ + "%"@;
            let rest = " ("@ + decimal_of(s.unadjudicated as nat)
                + " unadjudicated finding(s) excluded — see below)\n"@;
            reveal_strlit("% (");
            reveal_strlit("%");
            reveal_strlit(" (");
            assert("% ("@ =~= "%"@ + " ("@);
            assert(lead + part + rest =~= t);
            holds_its_middle(lead, part, rest);
        },
        None => {
            let part = "precision: not computable"@;
            let gap = " — no finding matched an adjudicated row ("@;
            let rest = gap + decimal_of(s.unadjudicated as nat) + " unadjudicated)\n"@;
            reveal_strlit("precision: not computable — no finding matched an adjudicated row (");
            reveal_strlit("precision: not computable");
            reveal_strlit(" — no finding matched an adjudicated row (");
            assert("precision: not computable — no finding matched an adjudicated row ("@ =~= part
                + gap);
            assert(lead + part + rest =~= t);
            holds_its_middle(lead, part, rest);
        },
    }
}

/// A number in a column keeps its digits: it is filled up with spaces on one side
/// and never cut.
pub proof fn a_column_keeps_its_text(s: Seq<char>, w: int)
    ensures
        right_of(s, w).len() >= s.len(),
        right_of(s, w).skip(right_of(s, w).len() - s.len()) == s,
        left_of(s, w).take(s.len() as int) == s,
        s.len() < w ==> right_of(s, w).len() == w && left_of(s, w).len() == w,
        s.len() >= w ==> right_of(s, w) == s && left_of(s, w) == s,
{
    assert(right_of(s, w).skip(right_of(s, w).len() - s.len()) =~= s);
    assert(left_of(s, w).take(s.len() as int) =~= s);
    if s.len() >= w {
        assert(right_of(s, w) =~= s);
        assert(left_of(s, w) =~= s);
    }
}

} // verus!
