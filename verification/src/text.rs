//! Character sequences: the vocabulary in which every other module states what
//! a string is, and the executable functions that compute with them.
use vstd::prelude::*;

verus! {

/// `String::push`: appends one character to the end of the string.
pub assume_specification[ String::push ](s: &mut String, c: char)
    ensures
        final(s)@ == old(s)@.push(c),
;

// ---------------------------------------------------------------------------
// Views and copies
// ---------------------------------------------------------------------------

/// The views of a sequence of strings.
pub open spec fn views(s: Seq<String>) -> Seq<Seq<char>> {
    s.map_values(|x: String| x@)
}

/// The view of an optional string.
pub open spec fn opt_view(o: Option<String>) -> Option<Seq<char>> {
    match o {
        Some(s) => Some(s@),
        None => None,
    }
}

/// The view of an optional borrowed string.
pub open spec fn opt_str_view(o: Option<&str>) -> Option<Seq<char>> {
    match o {
        Some(s) => Some(s@),
        None => None,
    }
}

/// The characters of `s`, in order.
pub fn chars_of(s: &str) -> (v: Vec<char>)
    ensures
        v@ == s@,
{
    let mut v: Vec<char> = Vec::new();
    for c in it: s.chars()
        invariant
            it.seq() == s@,
            v@ == s@.take(it.index() as int),
    {
        v.push(c);
        assert(v@ =~= s@.take(it.index() + 1));
    }
    assert(s@.take(s@.len() as int) =~= s@);
    v
}

/// A string with the characters of `v` from `from` up to `to`.
pub fn string_of(v: &Vec<char>, from: usize, to: usize) -> (s: String)
    requires
        from <= to <= v@.len(),
    ensures
        s@ == v@.subrange(from as int, to as int),
{
    let mut s = String::new();
    let mut i: usize = from;
    while i < to
        invariant
            from <= i <= to <= v@.len(),
            s@ == v@.subrange(from as int, i as int),
        decreases to - i,
    {
        s.push(v[i]);
        i = i + 1;
        assert(s@ =~= v@.subrange(from as int, i as int));
    }
    s
}

/// A copy of every string of `v`, in order.
pub fn copy_all(v: &Vec<String>) -> (r: Vec<String>)
    ensures
        r@ == v@,
{
    let mut r: Vec<String> = Vec::new();
    let mut i: usize = 0;
    while i < v.len()
        invariant
            i <= v@.len(),
            r@ == v@.take(i as int),
        decreases v@.len() - i,
    {
        r.push(v[i].clone());
        i = i + 1;
        assert(r@ =~= v@.take(i as int));
    }
    assert(v@.take(v@.len() as int) =~= v@);
    r
}

/// A copy of an optional string.
pub fn copy_opt(o: &Option<String>) -> (r: Option<String>)
    ensures
        r == *o,
{
    match o {
        Some(s) => Some(s.clone()),
        None => None,
    }
}

// ---------------------------------------------------------------------------
// Equality and order
// ---------------------------------------------------------------------------

/// Whether two strings hold the same characters.
pub fn same(a: &str, b: &str) -> (r: bool)
    ensures
        r == (a@ == b@),
{
    let mut x = a.chars();
    let mut y = b.chars();
    let ghost mut i: int = 0;
    assert(a@.skip(0) =~= a@);
    assert(b@.skip(0) =~= b@);
    loop
        invariant
            0 <= i <= a@.len(),
            i <= b@.len(),
            vstd::std_specs::iter::IteratorSpec::obeys_prophetic_iter_laws(&x),
            vstd::std_specs::iter::IteratorSpec::obeys_prophetic_iter_laws(&y),
            vstd::std_specs::iter::IteratorSpec::remaining(&x) == a@.skip(i),
            vstd::std_specs::iter::IteratorSpec::remaining(&y) == b@.skip(i),
            forall|j: int| 0 <= j < i ==> a@[j] == b@[j],
        decreases a@.len() - i,
    {
        let p = x.next();
        let q = y.next();
        match (p, q) {
            (Some(c), Some(d)) => {
                if c != d {
                    assert(a@[i] != b@[i]);
                    return false;
                }
                proof {
                    assert(a@.skip(i).drop_first() =~= a@.skip(i + 1));
                    assert(b@.skip(i).drop_first() =~= b@.skip(i + 1));
                    i = i + 1;
                }
            },
            (None, None) => {
                assert(a@ =~= b@);
                return true;
            },
            _ => {
                return false;
            },
        }
    }
}

/// The order of strings: by the first character in which they differ, a proper
/// prefix before what extends it. (It is the order of the UTF-8 bytes too.)
pub open spec fn before(a: Seq<char>, b: Seq<char>) -> bool
    decreases a.len(),
{
    if b.len() == 0 {
        false
    } else if a.len() == 0 {
        true
    } else if a[0] != b[0] {
        (a[0] as int) < (b[0] as int)
    } else {
        before(a.drop_first(), b.drop_first())
    }
}

/// No string precedes itself.
pub proof fn before_irreflexive(a: Seq<char>)
    ensures
        !before(a, a),
    decreases a.len(),
{
    if a.len() > 0 {
        before_irreflexive(a.drop_first());
    }
}

/// The order is transitive.
pub proof fn before_transitive(a: Seq<char>, b: Seq<char>, c: Seq<char>)
    requires
        before(a, b),
        before(b, c),
    ensures
        before(a, c),
    decreases a.len(),
{
    if a.len() > 0 && a[0] == b[0] && b[0] == c[0] {
        before_transitive(a.drop_first(), b.drop_first(), c.drop_first());
    }
}

/// Of two different strings one precedes the other.
pub proof fn before_total(a: Seq<char>, b: Seq<char>)
    ensures
        a == b || before(a, b) || before(b, a),
    decreases a.len(),
{
    if a.len() > 0 && b.len() > 0 && a[0] == b[0] {
        before_total(a.drop_first(), b.drop_first());
        if a.drop_first() == b.drop_first() {
            assert(a =~= seq![a[0]] + a.drop_first());
            assert(b =~= seq![b[0]] + b.drop_first());
        }
    } else if a.len() == 0 && b.len() == 0 {
        assert(a =~= b);
    }
}

/// Two strings never precede each other.
pub proof fn before_asymmetric(a: Seq<char>, b: Seq<char>)
    requires
        before(a, b),
    ensures
        !before(b, a),
        a != b,
{
    before_irreflexive(a);
    if before(b, a) {
        before_transitive(a, b, a);
    }
}

/// The first difference decides: whatever follows it, the text with the lesser
/// character there comes first, and a text comes before what extends it.
pub proof fn the_first_difference_decides(
    common: Seq<char>,
    x: char,
    y: char,
    a: Seq<char>,
    b: Seq<char>,
)
    requires
        (x as int) < (y as int),
    ensures
        before(common + seq![x] + a, common + seq![y] + b),
        !before(common + seq![y] + b, common + seq![x] + a),
        before(common, common + seq![x] + a),
    decreases common.len(),
{
    let p = common + seq![x] + a;
    let q = common + seq![y] + b;
    if common.len() > 0 {
        let c = common.drop_first();
        the_first_difference_decides(c, x, y, a, b);
        assert(p.drop_first() =~= c + seq![x] + a);
        assert(q.drop_first() =~= c + seq![y] + b);
        assert(p[0] == common[0] && q[0] == common[0]);
    } else {
        assert(p[0] == x && q[0] == y);
    }
}

/// Whether `a` precedes `b`.
pub fn precedes(a: &str, b: &str) -> (r: bool)
    ensures
        r == before(a@, b@),
{
    let mut x = a.chars();
    let mut y = b.chars();
    let ghost mut i: int = 0;
    assert(a@.skip(0) =~= a@);
    assert(b@.skip(0) =~= b@);
    loop
        invariant
            0 <= i <= a@.len(),
            i <= b@.len(),
            vstd::std_specs::iter::IteratorSpec::obeys_prophetic_iter_laws(&x),
            vstd::std_specs::iter::IteratorSpec::obeys_prophetic_iter_laws(&y),
            vstd::std_specs::iter::IteratorSpec::remaining(&x) == a@.skip(i),
            vstd::std_specs::iter::IteratorSpec::remaining(&y) == b@.skip(i),
            before(a@, b@) == before(a@.skip(i), b@.skip(i)),
        decreases a@.len() - i,
    {
        let p = x.next();
        let q = y.next();
        match (p, q) {
            (Some(c), Some(d)) => {
                if c != d {
                    return c < d;
                }
                proof {
                    assert(a@.skip(i).drop_first() =~= a@.skip(i + 1));
                    assert(b@.skip(i).drop_first() =~= b@.skip(i + 1));
                    i = i + 1;
                }
            },
            (None, Some(_)) => {
                return true;
            },
            _ => {
                return false;
            },
        }
    }
}

// ---------------------------------------------------------------------------
// Occurrences
// ---------------------------------------------------------------------------

/// `p` stands in `s` at position `i`.
pub open spec fn occurs_at(s: Seq<char>, p: Seq<char>, i: int) -> bool {
    0 <= i && i + p.len() <= s.len() && s.subrange(i, i + p.len()) == p
}

/// `p` stands somewhere in `s`.
pub open spec fn contains(s: Seq<char>, p: Seq<char>) -> bool {
    exists|i: int| occurs_at(s, p, i)
}

/// Where `p` stands in `s` first, at or after `from`.
pub open spec fn first_at(s: Seq<char>, p: Seq<char>, from: int, i: int) -> bool {
    &&& from <= i
    &&& occurs_at(s, p, i)
    &&& forall|j: int| from <= j < i ==> !occurs_at(s, p, j)
}

/// Whether `p` stands at the place `i` of `s`.
pub fn stands_at(s: &Vec<char>, p: &Vec<char>, i: usize) -> (r: bool)
    requires
        i <= s@.len(),
    ensures
        r == occurs_at(s@, p@, i as int),
{
    if p.len() > s.len() - i {
        return false;
    }
    let n: usize = s.len();
    let mut j: usize = 0;
    while j < p.len()
        invariant
            n == s@.len(),
            i + p@.len() <= n,
            j <= p@.len(),
            forall|k: int| 0 <= k < j ==> s@[i + k] == p@[k],
        decreases p@.len() - j,
    {
        if s[i + j] != p[j] {
            assert(s@.subrange(i as int, i + p@.len())[j as int] != p@[j as int]);
            return false;
        }
        j = j + 1;
    }
    assert(s@.subrange(i as int, i + p@.len()) =~= p@);
    true
}

/// The first position at or after `from` at which `p` stands in `s`.
pub fn find_from(s: &Vec<char>, p: &Vec<char>, from: usize) -> (r: Option<usize>)
    requires
        from <= s@.len(),
    ensures
        match r {
            Some(i) => first_at(s@, p@, from as int, i as int),
            None => forall|i: int| from <= i ==> !occurs_at(s@, p@, i),
        },
{
    let mut i: usize = from;
    loop
        invariant
            from <= i <= s@.len(),
            forall|j: int| from <= j < i ==> !occurs_at(s@, p@, j),
        decreases s@.len() - i,
    {
        if stands_at(s, p, i) {
            return Some(i);
        }
        if i == s.len() {
            return None;
        }
        i = i + 1;
    }
}

/// What stands in a part stands in the whole.
pub proof fn contains_part(a: Seq<char>, b: Seq<char>, c: Seq<char>, p: Seq<char>)
    requires
        contains(b, p),
    ensures
        contains(a + b + c, p),
{
    let i = choose|i: int| occurs_at(b, p, i);
    let j = a.len() + i;
    assert((a + b + c).subrange(j, j + p.len()) =~= b.subrange(i, i + p.len()));
    assert(occurs_at(a + b + c, p, j));
}

/// What stands in a part stands in the whole.
pub proof fn contains_within(whole: Seq<char>, part: Seq<char>, p: Seq<char>)
    requires
        contains(whole, part),
        contains(part, p),
    ensures
        contains(whole, p),
{
    let i = choose|i: int| occurs_at(whole, part, i);
    let j = choose|j: int| occurs_at(part, p, j);
    assert(whole.subrange(i + j, i + j + p.len()) =~= whole.subrange(i, i + part.len()).subrange(
        j,
        j + p.len(),
    ));
    assert(occurs_at(whole, p, i + j));
}

/// A text holds what it is put together of.
pub proof fn holds_its_middle(a: Seq<char>, p: Seq<char>, b: Seq<char>)
    ensures
        contains(a + p + b, p),
{
    let s = a + p + b;
    let i = a.len() as int;
    assert(s.subrange(i, i + p.len()) =~= p);
    assert(occurs_at(s, p, i));
}

/// Whether `needle` stands somewhere in `hay`.
pub fn has(hay: &str, needle: &str) -> (r: bool)
    ensures
        r == contains(hay@, needle@),
{
    let s = chars_of(hay);
    let p = chars_of(needle);
    let found = find_from(&s, &p, 0);
    match found {
        Some(i) => {
            assert(occurs_at(hay@, needle@, i as int));
            true
        },
        None => {
            assert forall|i: int| !occurs_at(hay@, needle@, i) by {
                if i >= 0 {
                    assert(!occurs_at(s@, p@, i));
                }
            }
            false
        },
    }
}

/// What stands before the first `p` in `s`, if `p` is there.
pub open spec fn before_first(s: Seq<char>, p: Seq<char>) -> Option<Seq<char>> {
    if contains(s, p) {
        Some(s.take(choose|i: int| first_at(s, p, 0, i)))
    } else {
        None
    }
}

/// What stands before the first `p` in `s`, if `p` is there.
pub fn head(s: &str, p: &str) -> (r: Option<String>)
    ensures
        opt_view(r) == before_first(s@, p@),
{
    let v = chars_of(s);
    let q = chars_of(p);
    match find_from(&v, &q, 0) {
        Some(i) => {
            proof {
                assert(occurs_at(s@, p@, i as int));
                let k = choose|k: int| first_at(s@, p@, 0, k);
                assert(first_at(s@, p@, 0, i as int));
                assert(first_at(s@, p@, 0, k));
                if k < i {
                    assert(!occurs_at(s@, p@, k));
                } else if k > i {
                    assert(!occurs_at(s@, p@, i as int));
                }
                assert(v@.subrange(0, i as int) =~= s@.take(i as int));
            }
            Some(string_of(&v, 0, i))
        },
        None => {
            assert forall|i: int| !occurs_at(s@, p@, i) by {
                if i >= 0 {
                    assert(!occurs_at(v@, q@, i));
                }
            }
            None
        },
    }
}

/// `s` begins with `p`.
pub open spec fn begins(s: Seq<char>, p: Seq<char>) -> bool {
    occurs_at(s, p, 0)
}

/// Whether `s` begins with `p`.
pub fn starts(s: &str, p: &str) -> (r: bool)
    ensures
        r == begins(s@, p@),
{
    let x = chars_of(s);
    let y = chars_of(p);
    stands_at(&x, &y, 0)
}

/// Whether some string of `v` is `s`.
pub fn is_among(v: &Vec<String>, s: &str) -> (r: bool)
    ensures
        r == views(v@).contains(s@),
{
    let mut i: usize = 0;
    while i < v.len()
        invariant
            i <= v@.len(),
            forall|j: int| 0 <= j < i ==> v@[j]@ != s@,
        decreases v@.len() - i,
    {
        if same(v[i].as_str(), s) {
            assert(views(v@)[i as int] == s@);
            return true;
        }
        i = i + 1;
    }
    assert(!views(v@).contains(s@)) by {
        if views(v@).contains(s@) {
            let k = choose|k: int| 0 <= k < views(v@).len() && views(v@)[k] == s@;
            assert(v@[k]@ == s@);
        }
    }
    false
}

// ---------------------------------------------------------------------------
// Trimming and case
// ---------------------------------------------------------------------------

/// The characters with Unicode's `White_Space` property.
pub open spec fn is_white(c: char) -> bool {
    let n = c as int;
    ||| 0x9 <= n <= 0xd
    ||| n == 0x20
    ||| n == 0x85
    ||| n == 0xa0
    ||| n == 0x1680
    ||| 0x2000 <= n <= 0x200a
    ||| n == 0x2028
    ||| n == 0x2029
    ||| n == 0x202f
    ||| n == 0x205f
    ||| n == 0x3000
}

/// Whether `c` is white space.
pub fn white(c: char) -> (r: bool)
    ensures
        r == is_white(c),
{
    let n: u32 = c as u32;
    (n >= 0x9 && n <= 0xd) || n == 0x20 || n == 0x85 || n == 0xa0 || n == 0x1680 || (n >= 0x2000
        && n <= 0x200a) || n == 0x2028 || n == 0x2029 || n == 0x202f || n == 0x205f || n == 0x3000
}

/// `s` without the white space at its end.
pub open spec fn trim_end_of(s: Seq<char>) -> Seq<char>
    decreases s.len(),
{
    if s.len() > 0 && is_white(s.last()) {
        trim_end_of(s.drop_last())
    } else {
        s
    }
}

/// `s` without the white space at its start.
pub open spec fn trim_start_of(s: Seq<char>) -> Seq<char>
    decreases s.len(),
{
    if s.len() > 0 && is_white(s[0]) {
        trim_start_of(s.drop_first())
    } else {
        s
    }
}

/// `s` without the white space at either end.
pub open spec fn trim_of(s: Seq<char>) -> Seq<char> {
    trim_end_of(trim_start_of(s))
}

/// `s` without the white space at its end.
pub fn trim_end(s: &str) -> (r: String)
    ensures
        r@ == trim_end_of(s@),
{
    let v = chars_of(s);
    let mut n: usize = v.len();
    assert(v@.take(n as int) =~= v@);
    while n > 0 && white(v[n - 1])
        invariant
            n <= v@.len(),
            v@ == s@,
            trim_end_of(s@) == trim_end_of(v@.take(n as int)),
        decreases n,
    {
        assert(v@.take(n as int).drop_last() =~= v@.take(n - 1));
        n = n - 1;
    }
    assert(v@.subrange(0, n as int) =~= v@.take(n as int));
    string_of(&v, 0, n)
}

/// `s` without the white space at either end.
pub fn trim(s: &str) -> (r: String)
    ensures
        r@ == trim_of(s@),
{
    let v = chars_of(s);
    let mut i: usize = 0;
    assert(v@.skip(0) =~= v@);
    while i < v.len() && white(v[i])
        invariant
            i <= v@.len(),
            v@ == s@,
            trim_start_of(s@) == trim_start_of(v@.skip(i as int)),
        decreases v@.len() - i,
    {
        assert(v@.skip(i as int).drop_first() =~= v@.skip(i + 1));
        i = i + 1;
    }
    assert(v@.subrange(i as int, v@.len() as int) =~= v@.skip(i as int));
    let rest = string_of(&v, i, v.len());
    trim_end(rest.as_str())
}

proof fn trim_end_settles(s: Seq<char>)
    ensures
        trim_end_of(s).len() == 0 || !is_white(trim_end_of(s).last()),
        trim_end_of(s).len() <= s.len(),
        trim_end_of(s) == s.take(trim_end_of(s).len() as int),
    decreases s.len(),
{
    if s.len() > 0 && is_white(s.last()) {
        trim_end_settles(s.drop_last());
        let n = trim_end_of(s).len() as int;
        assert(s.drop_last().take(n) =~= s.take(n));
    } else {
        assert(s.take(s.len() as int) =~= s);
    }
}

proof fn trim_start_settles(s: Seq<char>)
    ensures
        trim_start_of(s).len() == 0 || !is_white(trim_start_of(s)[0]),
    decreases s.len(),
{
    if s.len() > 0 && is_white(s[0]) {
        trim_start_settles(s.drop_first());
    }
}

/// What is trimmed has no white space left at either end.
pub proof fn trim_settles(s: Seq<char>)
    ensures
        trim_of(s).len() == 0 || (!is_white(trim_of(s)[0]) && !is_white(trim_of(s).last())),
        trim_of(trim_of(s)) == trim_of(s),
{
    let t = trim_start_of(s);
    trim_start_settles(s);
    trim_end_settles(t);
    if trim_of(s).len() > 0 {
        assert(trim_of(s)[0] == t[0]);
    }
}

/// Trimming takes the white space at both ends, all of it and nothing else.
pub proof fn trimming_takes_the_ends(a: Seq<char>, s: Seq<char>, b: Seq<char>)
    requires
        forall|i: int| 0 <= i < a.len() ==> is_white(#[trigger] a[i]),
        forall|i: int| 0 <= i < b.len() ==> is_white(#[trigger] b[i]),
        s.len() > 0 ==> !is_white(s[0]) && !is_white(s.last()),
    ensures
        trim_of(a + s + b) == s,
    decreases a.len() + b.len(),
{
    let whole = a + s + b;
    if a.len() > 0 {
        assert(whole[0] == a[0]);
        assert(whole.drop_first() =~= a.drop_first() + s + b);
        trimming_takes_the_ends(a.drop_first(), s, b);
    } else if s.len() == 0 {
        if b.len() > 0 {
            assert(whole[0] == b[0]);
            assert(whole.drop_first() =~= a + s + b.drop_first());
            trimming_takes_the_ends(a, s, b.drop_first());
        } else {
            assert(whole =~= s);
        }
    } else {
        assert(whole[0] == s[0]);
        assert(whole =~= s + b);
        end_is_trimmed(s, b);
    }
}

proof fn end_is_trimmed(s: Seq<char>, b: Seq<char>)
    requires
        forall|i: int| 0 <= i < b.len() ==> is_white(#[trigger] b[i]),
        s.len() > 0 && !is_white(s.last()),
    ensures
        trim_end_of(s + b) == s,
    decreases b.len(),
{
    if b.len() > 0 {
        assert((s + b).last() == b[b.len() - 1]);
        assert((s + b).drop_last() =~= s + b.drop_last());
        end_is_trimmed(s, b.drop_last());
    } else {
        assert(s + b =~= s);
    }
}

/// An ASCII letter in lower case; any other character as it is.
pub open spec fn lower_char(c: char) -> char {
    if 0x41 <= c as int && c as int <= 0x5a {
        (c as int + 0x20) as char
    } else {
        c
    }
}

/// `s` with its ASCII letters in lower case.
pub open spec fn lower_of(s: Seq<char>) -> Seq<char> {
    s.map_values(|c: char| lower_char(c))
}

/// `s` with its ASCII letters in lower case.
pub fn lower(s: &str) -> (r: String)
    ensures
        r@ == lower_of(s@),
{
    let v = chars_of(s);
    let mut r = String::new();
    let mut i: usize = 0;
    while i < v.len()
        invariant
            i <= v@.len(),
            v@ == s@,
            r@ == lower_of(s@.take(i as int)),
        decreases v@.len() - i,
    {
        let c = v[i];
        if c >= 'A' && c <= 'Z' {
            let n: u8 = c as u8;
            let low: u8 = n + 0x20;
            r.push(low as char);
        } else {
            r.push(c);
        }
        i = i + 1;
        assert(r@ =~= lower_of(s@.take(i as int)));
    }
    assert(s@.take(s@.len() as int) =~= s@);
    r
}

// ---------------------------------------------------------------------------
// Joining and numbers
// ---------------------------------------------------------------------------

/// What `f` writes for each item of `s`, one after another.
pub open spec fn over<T>(s: Seq<T>, f: spec_fn(T) -> Seq<char>) -> Seq<char>
    decreases s.len(),
{
    if s.len() == 0 {
        Seq::empty()
    } else {
        over(s.drop_last(), f) + f(s.last())
    }
}

/// Writing one item more appends what `f` writes for it.
pub proof fn over_step<T>(s: Seq<T>, f: spec_fn(T) -> Seq<char>, i: int)
    requires
        0 <= i < s.len(),
    ensures
        over(s.take(i + 1), f) == over(s.take(i), f) + f(s[i]),
{
    assert(s.take(i + 1).drop_last() =~= s.take(i));
}

/// What is written for one item stands in what is written for all.
pub proof fn over_contains<T>(s: Seq<T>, f: spec_fn(T) -> Seq<char>, i: int)
    requires
        0 <= i < s.len(),
    ensures
        contains(over(s, f), f(s[i])),
    decreases s.len(),
{
    let rest = over(s.drop_last(), f);
    let e = Seq::<char>::empty();
    if i == s.len() - 1 {
        let p = f(s[i]);
        assert(p.subrange(0, p.len() as int) =~= p);
        assert(occurs_at(p, p, 0));
        contains_part(rest, p, e, p);
        assert(rest + p + e =~= over(s, f));
    } else {
        over_contains(s.drop_last(), f, i);
        contains_part(e, rest, f(s.last()), f(s[i]));
        assert(e + rest + f(s.last()) =~= over(s, f));
    }
}

/// That many spaces.
pub open spec fn spaces(n: int) -> Seq<char> {
    Seq::new(
        if n > 0 {
            n as nat
        } else {
            0
        },
        |i: int| ' ',
    )
}

/// `s` at the right end of a column of `w` characters.
pub open spec fn right_of(s: Seq<char>, w: int) -> Seq<char> {
    spaces(w - s.len()) + s
}

/// `s` at the left end of a column of `w` characters.
pub open spec fn left_of(s: Seq<char>, w: int) -> Seq<char> {
    s + spaces(w - s.len())
}

/// What is missing for `s` to fill a column of `w` characters.
fn filler(s: &str, w: usize) -> (r: String)
    ensures
        r@ == spaces(w - s@.len()),
{
    let n: usize = s.unicode_len();
    let mut r = String::new();
    let mut i: usize = n;
    assert(r@ =~= spaces(0));
    while i < w
        invariant
            n == s@.len(),
            n <= i,
            i <= w || i == n,
            r@ == spaces(i - n),
        decreases w - i,
    {
        r.push(' ');
        i = i + 1;
        assert(r@ =~= spaces(i - n));
    }
    assert(r@ =~= spaces(w - s@.len()));
    r
}

/// `s` at the right end of a column of `w` characters.
pub fn right(s: &str, w: usize) -> (r: String)
    ensures
        r@ == right_of(s@, w as int),
{
    let mut r = filler(s, w);
    r.append(s);
    r
}

/// `s` at the left end of a column of `w` characters.
pub fn left(s: &str, w: usize) -> (r: String)
    ensures
        r@ == left_of(s@, w as int),
{
    let mut r = s.to_owned();
    r.append(filler(s, w).as_str());
    r
}

/// The strings of `parts` with `sep` between each two.
pub open spec fn join_of(parts: Seq<Seq<char>>, sep: Seq<char>) -> Seq<char>
    decreases parts.len(),
{
    if parts.len() == 0 {
        Seq::empty()
    } else if parts.len() == 1 {
        parts[0]
    } else {
        join_of(parts.drop_last(), sep) + sep + parts.last()
    }
}

/// A joined text holds each of its parts.
pub proof fn join_holds_each(parts: Seq<Seq<char>>, sep: Seq<char>, i: int)
    requires
        0 <= i < parts.len(),
    ensures
        contains(join_of(parts, sep), parts[i]),
    decreases parts.len(),
{
    let all = join_of(parts, sep);
    let p = parts[i];
    if parts.len() == 1 {
        assert(all.subrange(0, p.len() as int) =~= p);
        assert(occurs_at(all, p, 0));
    } else if i < parts.len() - 1 {
        let front = parts.drop_last();
        join_holds_each(front, sep, i);
        let k = choose|k: int| occurs_at(join_of(front, sep), p, k);
        assert(all.subrange(k, k + p.len()) =~= join_of(front, sep).subrange(k, k + p.len()));
        assert(occurs_at(all, p, k));
    } else {
        let k = all.len() - p.len();
        assert(all.subrange(k, k + p.len()) =~= p);
        assert(occurs_at(all, p, k));
    }
}

/// Two joined texts with the separator between them are their parts joined.
pub proof fn joins_add_up(a: Seq<Seq<char>>, b: Seq<Seq<char>>, sep: Seq<char>)
    requires
        a.len() > 0,
        b.len() > 0,
    ensures
        join_of(a + b, sep) == join_of(a, sep) + sep + join_of(b, sep),
    decreases b.len(),
{
    let all = a + b;
    if b.len() == 1 {
        assert(all.drop_last() =~= a);
        assert(all.last() == b[0]);
    } else {
        assert(all.drop_last() =~= a + b.drop_last());
        joins_add_up(a, b.drop_last(), sep);
        assert(join_of(a, sep) + sep + join_of(b.drop_last(), sep) + sep + b.last() =~= join_of(a, sep)
            + sep + (join_of(b.drop_last(), sep) + sep + b.last()));
    }
}

/// The strings of `parts` with `sep` between each two.
pub fn join(parts: &Vec<String>, sep: &str) -> (r: String)
    ensures
        r@ == join_of(views(parts@), sep@),
{
    let mut r = String::new();
    let mut i: usize = 0;
    while i < parts.len()
        invariant
            i <= parts@.len(),
            r@ == join_of(views(parts@.take(i as int)), sep@),
        decreases parts@.len() - i,
    {
        proof {
            let t = views(parts@.take(i + 1));
            assert(t.drop_last() =~= views(parts@.take(i as int)));
            assert(t.last() == parts@[i as int]@);
        }
        if i > 0 {
            r.append(sep);
        }
        r.append(parts[i].as_str());
        i = i + 1;
        if i == 1 {
            assert(r@ =~= views(parts@.take(1))[0]);
        }
    }
    assert(parts@.take(parts@.len() as int) =~= parts@);
    r
}

/// The character of a decimal digit.
pub open spec fn digit_of(d: nat) -> char {
    (d + 0x30) as char
}

/// `n` in decimal, without leading zeros.
pub open spec fn decimal_of(n: nat) -> Seq<char>
    decreases n,
{
    if n < 10 {
        seq![digit_of(n)]
    } else {
        decimal_of(n / 10).push(digit_of(n % 10))
    }
}

/// `n` in decimal, without leading zeros.
pub fn decimal_wide(n: u128) -> (r: String)
    ensures
        r@ == decimal_of(n as nat),
    decreases n,
{
    let d: u8 = (n % 10) as u8;
    let c = (d + 0x30u8) as char;
    if n < 10 {
        let mut r = String::new();
        r.push(c);
        assert(r@ =~= seq![digit_of(n as nat)]);
        r
    } else {
        let mut r = decimal_wide(n / 10);
        r.push(c);
        r
    }
}

/// `n` in decimal, without leading zeros.
pub fn decimal(n: usize) -> (r: String)
    ensures
        r@ == decimal_of(n as nat),
{
    decimal_wide(n as u128)
}

/// Different numbers are written differently.
pub proof fn decimal_injective(a: nat, b: nat)
    requires
        decimal_of(a) == decimal_of(b),
    ensures
        a == b,
    decreases a,
{
    let x = decimal_of(a);
    let y = decimal_of(b);
    assert(x.last() == digit_of(a % 10));
    assert(y.last() == digit_of(b % 10));
    if a >= 10 && b >= 10 {
        assert(x.drop_last() =~= decimal_of(a / 10));
        assert(y.drop_last() =~= decimal_of(b / 10));
        decimal_injective(a / 10, b / 10);
    } else if a >= 10 {
        decimal_nonempty(a / 10);
    } else if b >= 10 {
        decimal_nonempty(b / 10);
    }
}

proof fn decimal_nonempty(n: nat)
    ensures
        decimal_of(n).len() > 0,
{
}

// ---------------------------------------------------------------------------
// Splitting
// ---------------------------------------------------------------------------

/// The pieces of `s` between the occurrences of `sep`.
pub open spec fn split_of(s: Seq<char>, sep: char) -> Seq<Seq<char>>
    decreases s.len(),
{
    if s.len() == 0 {
        seq![Seq::empty()]
    } else {
        let rest = split_of(s.drop_last(), sep);
        if s.last() == sep {
            rest.push(Seq::empty())
        } else {
            rest.drop_last().push(rest.last().push(s.last()))
        }
    }
}

/// There is always a piece.
pub proof fn split_nonempty(s: Seq<char>, sep: char)
    ensures
        split_of(s, sep).len() > 0,
    decreases s.len(),
{
    if s.len() > 0 {
        split_nonempty(s.drop_last(), sep);
    }
}

/// Splitting loses nothing and leaves nothing to split: joined with the separator
/// the pieces are the text again, and none of them holds it.
pub proof fn pieces_join_up(s: Seq<char>, sep: char)
    ensures
        join_of(split_of(s, sep), seq![sep]) == s,
        forall|i: int|
            0 <= i < split_of(s, sep).len() ==> !(#[trigger] split_of(s, sep)[i]).contains(sep),
    decreases s.len(),
{
    let all = split_of(s, sep);
    let one = seq![sep];
    if s.len() == 0 {
        assert(all[0] =~= s);
        assert(join_of(all, one) == all[0]);
    } else {
        let c = s.last();
        let rest = split_of(s.drop_last(), sep);
        split_nonempty(s.drop_last(), sep);
        pieces_join_up(s.drop_last(), sep);
        if c == sep {
            assert(all.drop_last() =~= rest);
            assert(join_of(all, one) =~= join_of(rest, one) + one + Seq::<char>::empty());
            assert(s =~= s.drop_last() + one);
            assert forall|i: int| 0 <= i < all.len() implies !(#[trigger] all[i]).contains(sep) by {
                if i < rest.len() {
                    assert(all[i] == rest[i]);
                }
            }
        } else {
            let front = rest.drop_last();
            let last = rest.last();
            assert(all.drop_last() =~= front);
            if front.len() == 0 {
                assert(rest =~= seq![last]);
                assert(join_of(rest, one) == rest[0]);
                assert(join_of(all, one) == all[0]);
                assert(s =~= last.push(c));
            } else {
                assert(join_of(rest, one) == join_of(front, one) + one + last);
                assert(join_of(all, one) == join_of(front, one) + one + last.push(c));
                assert(s =~= s.drop_last().push(c));
                assert(join_of(all, one) =~= s);
            }
            assert forall|i: int| 0 <= i < all.len() implies !(#[trigger] all[i]).contains(sep) by {
                if i < front.len() {
                    assert(all[i] == rest[i]);
                } else {
                    assert(!rest[rest.len() - 1].contains(sep));
                    if last.push(c).contains(sep) {
                        let k = choose|k: int|
                            0 <= k < last.push(c).len() && last.push(c)[k] == sep;
                        assert(k < last.len());
                        assert(last[k] == sep);
                    }
                }
            }
        }
    }
}

/// A text without the separator is one piece, and what follows the last separator
/// is the last piece.
pub proof fn last_piece(front: Seq<char>, tail: Seq<char>, sep: char)
    requires
        !tail.contains(sep),
    ensures
        split_of(tail, sep) == seq![tail],
        split_of(front + seq![sep] + tail, sep) == split_of(front, sep).push(tail),
    decreases tail.len(),
{
    let whole = front + seq![sep] + tail;
    if tail.len() == 0 {
        assert(tail =~= Seq::<char>::empty());
        assert(whole.drop_last() =~= front);
    } else {
        let t = tail.drop_last();
        let c = tail.last();
        assert(tail[tail.len() - 1] == c);
        assert(!t.contains(sep)) by {
            if t.contains(sep) {
                let k = choose|k: int| 0 <= k < t.len() && t[k] == sep;
                assert(tail[k] == sep);
            }
        }
        last_piece(front, t, sep);
        assert(t.push(c) =~= tail);
        assert(whole.drop_last() =~= front + seq![sep] + t);
        assert(whole.last() == c);
        assert(seq![t].drop_last().push(t.push(c)) =~= seq![tail]);
        let old = split_of(front, sep).push(t);
        assert(old.drop_last().push(old.last().push(c)) =~= split_of(front, sep).push(tail));
    }
}

/// The pieces of two texts with a separator between them are those of the one and
/// then those of the other.
pub proof fn splits_add_up(a: Seq<char>, b: Seq<char>, sep: char)
    ensures
        split_of(a + seq![sep] + b, sep) == split_of(a, sep) + split_of(b, sep),
    decreases b.len(),
{
    let whole = a + seq![sep] + b;
    if b.len() == 0 {
        last_piece(a, b, sep);
        assert(split_of(a, sep).push(b) =~= split_of(a, sep) + seq![b]);
        assert(split_of(b, sep) =~= seq![b]) by {
            assert(b =~= Seq::<char>::empty());
        }
    } else {
        let t = b.drop_last();
        let c = b.last();
        splits_add_up(a, t, sep);
        split_nonempty(t, sep);
        assert(whole.drop_last() =~= a + seq![sep] + t);
        assert(whole.last() == c);
        let x = split_of(a, sep);
        let y = split_of(t, sep);
        assert((x + y).last() == y.last());
        if c == sep {
            assert((x + y).push(Seq::empty()) =~= x + y.push(Seq::empty()));
        } else {
            assert((x + y).drop_last().push((x + y).last().push(c)) =~= x + y.drop_last().push(
                y.last().push(c),
            ));
        }
    }
}

/// The pieces of `s` between the occurrences of `sep`.
pub fn split(s: &str, sep: char) -> (r: Vec<String>)
    ensures
        views(r@) == split_of(s@, sep),
        r@.len() > 0,
{
    let v = chars_of(s);
    let mut parts: Vec<String> = Vec::new();
    let mut cur = String::new();
    let mut i: usize = 0;
    assert(views(parts@).push(cur@) =~= split_of(s@.take(0), sep));
    while i < v.len()
        invariant
            i <= v@.len(),
            v@ == s@,
            views(parts@).push(cur@) == split_of(s@.take(i as int), sep),
        decreases v@.len() - i,
    {
        let ghost was = views(parts@).push(cur@);
        proof {
            assert(s@.take(i + 1).drop_last() =~= s@.take(i as int));
            assert(was.last() == cur@);
            assert(was.drop_last() =~= views(parts@));
        }
        let c = v[i];
        if c == sep {
            let ghost olds = parts@;
            parts.push(cur);
            assert(views(parts@) =~= was);
            cur = String::new();
            assert(cur@ =~= Seq::empty());
        } else {
            cur.push(c);
        }
        i = i + 1;
    }
    assert(s@.take(s@.len() as int) =~= s@);
    let ghost done = views(parts@).push(cur@);
    parts.push(cur);
    assert(views(parts@) =~= done);
    parts
}

// ---------------------------------------------------------------------------
// Lists without repetition
// ---------------------------------------------------------------------------

/// `base` followed by what `more` adds to it, each addition once.
pub open spec fn merged(base: Seq<Seq<char>>, more: Seq<Seq<char>>) -> Seq<Seq<char>>
    decreases more.len(),
{
    if more.len() == 0 {
        base
    } else {
        let rest = merged(base, more.drop_last());
        if rest.contains(more.last()) {
            rest
        } else {
            rest.push(more.last())
        }
    }
}

/// The entries of `s`, each once, where it first stands.
pub open spec fn firsts(s: Seq<Seq<char>>) -> Seq<Seq<char>> {
    merged(Seq::empty(), s)
}

/// Adds to `base` what of `more` it does not hold yet, each once.
pub fn merge_into(base: &mut Vec<String>, more: &Vec<String>)
    ensures
        views(final(base)@) == merged(views(old(base)@), views(more@)),
{
    let ghost start = views(base@);
    let mut i: usize = 0;
    while i < more.len()
        invariant
            i <= more@.len(),
            views(base@) == merged(start, views(more@).take(i as int)),
        decreases more@.len() - i,
    {
        let ghost was = views(base@);
        assert(views(more@).take(i + 1).drop_last() =~= views(more@).take(i as int));
        if !is_among(base, more[i].as_str()) {
            base.push(more[i].clone());
            assert(views(base@) =~= was.push(more@[i as int]@));
        }
        i = i + 1;
    }
    assert(views(more@).take(more@.len() as int) =~= views(more@));
}

/// Merging keeps what was there, in place; holds exactly what either side
/// holds; and adds nothing that was there, nor anything twice.
pub proof fn merged_facts(base: Seq<Seq<char>>, more: Seq<Seq<char>>)
    ensures
        base.len() <= merged(base, more).len(),
        merged(base, more).take(base.len() as int) == base,
        forall|x: Seq<char>| #[trigger]
            merged(base, more).contains(x) <==> base.contains(x) || more.contains(x),
        forall|i: int, j: int|
            0 <= i < j < merged(base, more).len() && base.len() <= j ==> #[trigger] merged(
                base,
                more,
            )[i] != #[trigger] merged(base, more)[j],
    decreases more.len(),
{
    let all = merged(base, more);
    if more.len() == 0 {
        assert(all.take(base.len() as int) =~= base);
    } else {
        let rest = merged(base, more.drop_last());
        let x = more.last();
        merged_facts(base, more.drop_last());
        assert(more.drop_last().push(x) =~= more);
        assert forall|y: Seq<char>| #[trigger] all.contains(y) <==> base.contains(y)
            || more.contains(y) by {
            if more.contains(y) {
                let k = choose|k: int| 0 <= k < more.len() && more[k] == y;
                if k < more.len() - 1 {
                    assert(more.drop_last()[k] == y);
                    assert(rest.contains(y));
                } else {
                    assert(y == x);
                }
            }
            if rest.contains(y) {
                let k = choose|k: int| 0 <= k < rest.len() && rest[k] == y;
                assert(all[k] == y);
                if more.drop_last().contains(y) {
                    let m = choose|m: int|
                        0 <= m < more.drop_last().len() && more.drop_last()[m] == y;
                    assert(more[m] == y);
                }
            }
            assert(more[more.len() - 1] == x);
            if !rest.contains(x) {
                assert(all[rest.len() as int] == x);
            }
            if all.contains(y) {
                let k = choose|k: int| 0 <= k < all.len() && all[k] == y;
                if k < rest.len() {
                    assert(rest[k] == y);
                    assert(rest.contains(y));
                }
            }
        }
        assert(all.take(base.len() as int) =~= rest.take(base.len() as int));
        assert forall|i: int, j: int| 0 <= i < j < all.len() && base.len() <= j implies #[trigger] all[i]
            != #[trigger] all[j] by {
            if j < rest.len() {
                assert(rest[i] != rest[j]);
            } else {
                assert(rest.contains(rest[i]));
            }
        }
    }
}

/// Merging one list and then another is merging the two in a row.
pub proof fn merged_twice(base: Seq<Seq<char>>, more: Seq<Seq<char>>, last: Seq<Seq<char>>)
    ensures
        merged(merged(base, more), last) == merged(base, more + last),
    decreases last.len(),
{
    if last.len() == 0 {
        assert(more + last =~= more);
    } else {
        merged_twice(base, more, last.drop_last());
        assert((more + last).drop_last() =~= more + last.drop_last());
    }
}

// ---------------------------------------------------------------------------
// Markup
// ---------------------------------------------------------------------------

/// How a character is written in HTML text or in an attribute's value.
pub open spec fn escaped_char(c: char) -> Seq<char> {
    if c == '&' {
        "&amp;"@
    } else if c == '<' {
        "&lt;"@
    } else if c == '>' {
        "&gt;"@
    } else if c == '"' {
        "&quot;"@
    } else if c == '\'' {
        "&#39;"@
    } else {
        seq![c]
    }
}

/// How a string is written in HTML text or in an attribute's value.
pub open spec fn escaped(s: Seq<char>) -> Seq<char> {
    over(s, |c: char| escaped_char(c))
}

/// Writes `raw` for HTML text or for an attribute's value in either quotes.
pub fn escape_html(raw: &str) -> (r: String)
    ensures
        r@ == escaped(raw@),
{
    let v = chars_of(raw);
    let mut out = String::new();
    let mut i: usize = 0;
    while i < v.len()
        invariant
            i <= v@.len(),
            v@ == raw@,
            out@ == escaped(raw@.take(i as int)),
        decreases v@.len() - i,
    {
        proof {
            over_step(raw@, |c: char| escaped_char(c), i as int);
        }
        let c = v[i];
        if c == '&' {
            out.append("&amp;");
        } else if c == '<' {
            out.append("&lt;");
        } else if c == '>' {
            out.append("&gt;");
        } else if c == '"' {
            out.append("&quot;");
        } else if c == '\'' {
            out.append("&#39;");
        } else {
            let ghost was = out@;
            out.push(c);
            assert(out@ =~= was + seq![c]);
        }
        i = i + 1;
    }
    assert(raw@.take(raw@.len() as int) =~= raw@);
    out
}

/// No character of `s` opens or closes a tag or ends an attribute's value.
pub open spec fn inert(s: Seq<char>) -> bool {
    forall|i: int|
        0 <= i < s.len() ==> #[trigger] s[i] != '<' && s[i] != '>' && s[i] != '"' && s[i] != '\''
}

proof fn escaped_char_inert(c: char)
    ensures
        inert(escaped_char(c)),
{
    reveal_strlit("&amp;");
    reveal_strlit("&lt;");
    reveal_strlit("&gt;");
    reveal_strlit("&quot;");
    reveal_strlit("&#39;");
}

/// Escaped text can neither open nor close a tag, nor end an attribute's value,
/// whatever text was escaped.
pub proof fn escaped_is_inert(s: Seq<char>)
    ensures
        inert(escaped(s)),
    decreases s.len(),
{
    if s.len() > 0 {
        escaped_is_inert(s.drop_last());
        escaped_char_inert(s.last());
    }
}

} // verus!
