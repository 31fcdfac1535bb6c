//! The graph's own vocabulary: where a fact comes from, how sure it is, and the
//! nodes and edges that the other modules read.
use vstd::prelude::*;

verus! {

/// Where a fact of the graph comes from.
#[derive(Debug, Clone, Copy, PartialEq, Eq, Structural)]
pub enum Provenance {
    /// Read from the code.
    Derived,
    /// Declared by a person.
    Authored,
    /// Guessed, with a confidence.
    Inferred,
}

impl Provenance {
    /// The token of a provenance.
    pub open spec fn token(self) -> Seq<char> {
        match self {
            Provenance::Derived => "derived"@,
            Provenance::Authored => "authored"@,
            Provenance::Inferred => "inferred"@,
        }
    }

    /// The token of a provenance.
    pub fn as_str(self) -> (s: &'static str)
        ensures
            s@ == self.token(),
    {
        match self {
            Provenance::Derived => "derived",
            Provenance::Authored => "authored",
            Provenance::Inferred => "inferred",
        }
    }
}

/// A confidence. The library carries it and shows it, and never computes with
/// it: `bits` is the pattern of the 64-bit floating-point number, `shown` the
/// number with two decimals.
#[derive(Debug)]
pub struct Score {
    pub bits: u64,
    pub shown: String,
}

impl Clone for Score {
    fn clone(&self) -> (r: Self)
        ensures
            r == *self,
    {
        Score { bits: self.bits, shown: self.shown.clone() }
    }
}


/// A config key as the graph holds it: the file it was read from, its dotted
/// name and its value.
#[derive(Debug)]
pub struct ConfigKey {
    pub file: String,
    pub key: String,
    pub value: String,
}

impl Clone for ConfigKey {
    fn clone(&self) -> (r: Self)
        ensures
            r == *self,
    {
        ConfigKey { file: self.file.clone(), key: self.key.clone(), value: self.value.clone() }
    }
}

/// The node key of a config key.
pub open spec fn cfgkey_of(file: Seq<char>, key: Seq<char>) -> Seq<char> {
    "cfgkey:"@ + file + "#"@ + key
}

/// The node key of a config key.
pub fn cfgkey_node(file: &str, key: &str) -> (s: String)
    ensures
        s@ == cfgkey_of(file@, key@),
{
    let mut s = "cfgkey:".to_owned();
    s.append(file);
    s.append("#");
    s.append(key);
    s
}

/// A node key qualified by the project it is in.
pub open spec fn qualified_of(project: Seq<char>, key: Seq<char>) -> Seq<char> {
    project + "::"@ + key
}

/// A node key qualified by the project it is in.
pub fn qualify(project: &str, key: &str) -> (s: String)
    ensures
        s@ == qualified_of(project@, key@),
{
    let mut s = project.to_owned();
    s.append("::");
    s.append(key);
    s
}

/// The key of the node that stands in for a node of another project.
pub open spec fn extref_of(qualified: Seq<char>) -> Seq<char> {
    "extref:"@ + qualified
}

/// The key of the node that stands in for a node of another project.
pub fn external_ref_key(qualified: &str) -> (s: String)
    ensures
        s@ == extref_of(qualified@),
{
    let mut s = "extref:".to_owned();
    s.append(qualified);
    s
}

/// What the review tells apart among the kinds of nodes.
#[derive(Debug, Clone, Copy, PartialEq, Eq, Structural)]
pub enum NodeClass {
    File,
    /// An intent-debt marker.
    Marker,
    Other,
}

/// A node of the graph.
#[derive(Debug)]
pub struct Node {
    pub key: String,
    pub name: String,
    /// The token of its kind.
    pub kind: String,
    pub class: NodeClass,
    pub provenance: Provenance,
    /// The file it is defined in.
    pub path: Option<String>,
}

impl Clone for Node {
    fn clone(&self) -> (r: Self)
        ensures
            r == *self,
    {
        Node {
            key: self.key.clone(),
            name: self.name.clone(),
            kind: self.kind.clone(),
            class: self.class,
            provenance: self.provenance,
            path: self.path.clone(),
        }
    }
}

/// A node that stands in for a node of another project.
#[derive(Debug)]
pub struct Placeholder {
    pub key: String,
    /// The qualified key it stands in for, where it names one.
    pub qualified: Option<String>,
    /// The project of that key, where the key is well formed.
    pub project: Option<String>,
}

impl Clone for Placeholder {
    fn clone(&self) -> (r: Self)
        ensures
            r == *self,
    {
        Placeholder {
            key: self.key.clone(),
            qualified: self.qualified.clone(),
            project: self.project.clone(),
        }
    }
}

/// An edge, with the layer it was written by where it has one.
#[derive(Debug)]
pub struct Edge {
    pub src: String,
    pub dst: String,
    pub kind: String,
    pub provenance: Provenance,
    pub confidence: Option<Score>,
    pub src_ref: Option<String>,
}

impl Clone for Edge {
    fn clone(&self) -> (r: Self)
        ensures
            r == *self,
    {
        Edge {
            src: self.src.clone(),
            dst: self.dst.clone(),
            kind: self.kind.clone(),
            provenance: self.provenance,
            confidence: (match &self.confidence {
                Some(c) => Some(c.clone()),
                None => None,
            }),
            src_ref: self.src_ref.clone(),
        }
    }
}

// ---------------------------------------------------------------------------
// Laws
// ---------------------------------------------------------------------------

/// A node key tells the file and the key it was made of, and a qualified key its
/// project and its node: where no file and no project has the separator in its
/// name, two keys are the same only where both parts are.
pub proof fn keys_tell_their_parts(a: Seq<char>, b: Seq<char>, c: Seq<char>, d: Seq<char>)
    ensures
        !a.contains('#') && !c.contains('#') && cfgkey_of(a, b) == cfgkey_of(c, d) ==> a == c && b
            == d,
        !a.contains(':') && !c.contains(':') && qualified_of(a, b) == qualified_of(c, d) ==> a == c
            && b == d,
        extref_of(a) == extref_of(c) ==> a == c,
        extref_of(a) != cfgkey_of(c, d),
{
    reveal_strlit("cfgkey:");
    reveal_strlit("extref:");
    reveal_strlit("#");
    reveal_strlit("::");
    assert(extref_of(a)[0] == 'e');
    assert(cfgkey_of(c, d)[0] == 'c');
    if extref_of(a) == extref_of(c) {
        assert(extref_of(a).skip(7) =~= a);
        assert(extref_of(c).skip(7) =~= c);
    }
    if !a.contains('#') && !c.contains('#') && cfgkey_of(a, b) == cfgkey_of(c, d) {
        let x = cfgkey_of(a, b).skip(7);
        assert(x =~= a + "#"@ + b);
        assert(cfgkey_of(c, d).skip(7) =~= c + "#"@ + d);
        parts_agree(a, "#"@ + b, c, "#"@ + d, '#');
        assert(("#"@ + b).skip(1) =~= b);
        assert(("#"@ + d).skip(1) =~= d);
        assert(a + "#"@ + b =~= a + ("#"@ + b));
        assert(c + "#"@ + d =~= c + ("#"@ + d));
    }
    if !a.contains(':') && !c.contains(':') && qualified_of(a, b) == qualified_of(c, d) {
        assert(a + "::"@ + b =~= a + ("::"@ + b));
        assert(c + "::"@ + d =~= c + ("::"@ + d));
        parts_agree(a, "::"@ + b, c, "::"@ + d, ':');
        assert(("::"@ + b).skip(2) =~= b);
        assert(("::"@ + d).skip(2) =~= d);
    }
}

proof fn parts_agree(a: Seq<char>, b: Seq<char>, c: Seq<char>, d: Seq<char>, sep: char)
    ensures
        !a.contains(sep) && !c.contains(sep) && b.len() > 0 && d.len() > 0 && b[0] == sep && d[0]
            == sep && a + b == c + d ==> a == c && b == d,
{
    if !a.contains(sep) && !c.contains(sep) && b.len() > 0 && d.len() > 0 && b[0] == sep && d[0]
        == sep && a + b == c + d {
        let s = a + b;
        assert(s[a.len() as int] == sep);
        assert(s[c.len() as int] == sep) by {
            assert((c + d)[c.len() as int] == d[0]);
        }
        if a.len() < c.len() {
            assert((c + d)[a.len() as int] == c[a.len() as int]);
            assert(c.contains(sep));
        }
        if c.len() < a.len() {
            assert(s[c.len() as int] == a[c.len() as int]);
            assert(a.contains(sep));
        }
        assert(s.take(a.len() as int) =~= a);
        assert((c + d).take(c.len() as int) =~= c);
        assert(s.skip(a.len() as int) =~= b);
        assert((c + d).skip(c.len() as int) =~= d);
    }
}

/// Where a fact comes from can be told from its token.
pub proof fn tokens_differ(a: Provenance, b: Provenance)
    ensures
        a.token() == b.token() ==> a == b,
{
    reveal_strlit("derived");
    reveal_strlit("authored");
    reveal_strlit("inferred");
    assert("derived"@[0] == 'd' && "authored"@[0] == 'a' && "inferred"@[0] == 'i');
}

} // verus!
