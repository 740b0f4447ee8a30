use vstd::prelude::*;

verus! {

/// The views of a sequence of strings.
pub open spec fn string_views(v: Seq<String>) -> Seq<Seq<char>> {
    v.map_values(|c: String| c@)
}

/// Strict lexicographic order on character sequences. Unicode scalar
/// values are ordered as their UTF-8 encodings are, so this is also the
/// byte order that `OsStr` comparison uses.
pub open spec fn text_before(a: Seq<char>, b: Seq<char>) -> bool
    decreases a.len(),
{
    if a.len() == 0 {
        b.len() > 0
    } else if b.len() == 0 {
        false
    } else if a[0] == b[0] {
        text_before(a.drop_first(), b.drop_first())
    } else {
        a[0] < b[0]
    }
}

/// `text_before` is irreflexive.
pub proof fn lemma_text_irreflexive(a: Seq<char>)
    ensures
        !text_before(a, a),
    decreases a.len(),
{
    if a.len() > 0 {
        lemma_text_irreflexive(a.drop_first());
    }
}

/// Two different sequences are ordered one way or the other.
pub proof fn lemma_text_total(a: Seq<char>, b: Seq<char>)
    ensures
        a != b ==> (text_before(a, b) || text_before(b, a)),
    decreases a.len(),
{
    if a.len() > 0 && b.len() > 0 && a[0] == b[0] {
        lemma_text_total(a.drop_first(), b.drop_first());
        if a.drop_first() == b.drop_first() {
            assert(a =~= seq![a[0]] + a.drop_first());
            assert(b =~= seq![b[0]] + b.drop_first());
        }
    } else if a.len() == 0 && b.len() == 0 {
        assert(a =~= b);
    }
}

/// `text_before` never holds both ways.
pub proof fn lemma_text_asymmetric(a: Seq<char>, b: Seq<char>)
    ensures
        !(text_before(a, b) && text_before(b, a)),
    decreases a.len(),
{
    if a.len() > 0 && b.len() > 0 && a[0] == b[0] {
        lemma_text_asymmetric(a.drop_first(), b.drop_first());
    }
}

/// `text_before` is transitive.
pub proof fn lemma_text_transitive(a: Seq<char>, b: Seq<char>, c: Seq<char>)
    requires
        text_before(a, b),
        text_before(b, c),
    ensures
        text_before(a, c),
    decreases a.len(),
{
    if a.len() > 0 && a[0] == b[0] && b[0] == c[0] {
        lemma_text_transitive(a.drop_first(), b.drop_first(), c.drop_first());
    }
}

/// Compares two strings by `text_before`.
pub fn string_before(a: &String, b: &String) -> (res: bool)
    ensures
        res == text_before(a@, b@),
{
    let sa = a.as_str();
    let sb = b.as_str();
    let na = sa.unicode_len();
    let nb = sb.unicode_len();
    let mut i: usize = 0;
    assert(a@.skip(0) =~= a@);
    assert(b@.skip(0) =~= b@);
    while i < na && i < nb
        invariant
            sa@ == a@,
            sb@ == b@,
            na == a@.len(),
            nb == b@.len(),
            i <= na,
            i <= nb,
            text_before(a@, b@) == text_before(a@.skip(i as int), b@.skip(i as int)),
        decreases na - i,
    {
        let ca = sa.get_char(i);
        let cb = sb.get_char(i);
        let ghost sa_i = a@.skip(i as int);
        let ghost sb_i = b@.skip(i as int);
        assert(sa_i[0] == ca && sb_i[0] == cb);
        if ca != cb {
            return ca < cb;
        }
        assert(sa_i.drop_first() =~= a@.skip(i + 1));
        assert(sb_i.drop_first() =~= b@.skip(i + 1));
        i = i + 1;
    }
    let ghost sa_i = a@.skip(i as int);
    let ghost sb_i = b@.skip(i as int);
    assert(sa_i.len() == 0 || sb_i.len() == 0);
    i == na && i < nb
}


/// Strict lexicographic order on paths, component by component, each
/// component compared by `text_before`. This is the order in which
/// `std::path::Path` compares relative paths made of normal components.
pub open spec fn path_before(p: Seq<Seq<char>>, q: Seq<Seq<char>>) -> bool
    decreases p.len(),
{
    if p.len() == 0 {
        q.len() > 0
    } else if q.len() == 0 {
        false
    } else if p[0] == q[0] {
        path_before(p.drop_first(), q.drop_first())
    } else {
        text_before(p[0], q[0])
    }
}

/// `path_before` is irreflexive.
pub proof fn lemma_path_irreflexive(p: Seq<Seq<char>>)
    ensures
        !path_before(p, p),
    decreases p.len(),
{
    if p.len() > 0 {
        lemma_path_irreflexive(p.drop_first());
    }
}

/// Two different paths are ordered one way or the other.
pub proof fn lemma_path_total(p: Seq<Seq<char>>, q: Seq<Seq<char>>)
    ensures
        p != q ==> (path_before(p, q) || path_before(q, p)),
    decreases p.len(),
{
    if p.len() > 0 && q.len() > 0 {
        if p[0] == q[0] {
            lemma_path_total(p.drop_first(), q.drop_first());
            if p.drop_first() == q.drop_first() {
                assert(p =~= seq![p[0]] + p.drop_first());
                assert(q =~= seq![q[0]] + q.drop_first());
            }
        } else {
            lemma_text_total(p[0], q[0]);
        }
    } else if p.len() == 0 && q.len() == 0 {
        assert(p =~= q);
    }
}

/// `path_before` never holds both ways.
pub proof fn lemma_path_asymmetric(p: Seq<Seq<char>>, q: Seq<Seq<char>>)
    ensures
        !(path_before(p, q) && path_before(q, p)),
    decreases p.len(),
{
    if p.len() > 0 && q.len() > 0 {
        if p[0] == q[0] {
            lemma_path_asymmetric(p.drop_first(), q.drop_first());
        } else {
            lemma_text_asymmetric(p[0], q[0]);
        }
    }
}

/// `path_before` is transitive.
pub proof fn lemma_path_transitive(p: Seq<Seq<char>>, q: Seq<Seq<char>>, r: Seq<Seq<char>>)
    requires
        path_before(p, q),
        path_before(q, r),
    ensures
        path_before(p, r),
    decreases p.len(),
{
    if p.len() > 0 {
        if p[0] == q[0] && q[0] == r[0] {
            lemma_path_transitive(p.drop_first(), q.drop_first(), r.drop_first());
        } else if p[0] == q[0] {
        } else if q[0] == r[0] {
        } else {
            lemma_text_transitive(p[0], q[0], r[0]);
            lemma_text_asymmetric(p[0], r[0]);
            if p[0] == r[0] {
                lemma_text_asymmetric(p[0], q[0]);
            }
        }
    }
}

#[verifier::external_type_specification]
#[verifier::external_body]
pub struct ExPathBuf(std::path::PathBuf);

/// A relative path held as its sequence of normal components, the way
/// git names files in a work tree: `src/lib.rs` is `["src", "lib.rs"]`
/// and the empty path (the work tree's root) has no component.
#[derive(Debug, Clone, PartialEq, Eq, Hash)]
pub struct RelPath {
    pub components: Vec<String>,
}

impl View for RelPath {
    type V = Seq<Seq<char>>;

    open spec fn view(&self) -> Seq<Seq<char>> {
        string_views(self.components@)
    }
}

impl RelPath {
    /// The empty path.
    pub fn empty() -> (res: RelPath)
        ensures
            res@ == Seq::<Seq<char>>::empty(),
    {
        let res = RelPath { components: Vec::new() };
        assert(res@ =~= Seq::<Seq<char>>::empty());
        res
    }

    /// A path made of the given components.
    pub fn from_components(components: Vec<String>) -> (res: RelPath)
        ensures
            res@ == string_views(components@),
    {
        RelPath { components }
    }

    /// A path with the same components.
    pub fn duplicate(&self) -> (res: RelPath)
        ensures
            res@ == self@,
    {
        let out = copy_prefix(&self.components, self.components.len());
        assert(self.components@.take(self.components@.len() as int) =~= self.components@);
        RelPath { components: out }
    }

    /// Number of components.
    pub fn len(&self) -> (res: usize)
        ensures
            res == self@.len(),
    {
        self.components.len()
    }

    /// Whether the path has no component.
    pub fn is_empty(&self) -> (res: bool)
        ensures
            res == (self@.len() == 0),
    {
        self.components.len() == 0
    }

    /// The path without its last component; `None` for the empty path.
    pub fn parent(&self) -> (res: Option<RelPath>)
        ensures
            res is None <==> self@.len() == 0,
            res matches Some(p) ==> p@ == self@.drop_last(),
    {
        let n = self.components.len();
        if n == 0 {
            return None;
        }
        let out = copy_prefix(&self.components, n - 1);
        assert(string_views(self.components@.take(n - 1)) =~= self@.drop_last());
        Some(RelPath { components: out })
    }

    /// The last component; `None` for the empty path.
    pub fn file_name(&self) -> (res: Option<String>)
        ensures
            res is None <==> self@.len() == 0,
            res matches Some(s) ==> s@ == self@.last(),
    {
        let n = self.components.len();
        if n == 0 {
            None
        } else {
            Some(self.components[n - 1].clone())
        }
    }

    /// The path with one more component, `name`, at its end.
    pub fn join(&self, name: &str) -> (res: RelPath)
        ensures
            res@ == self@.push(name@),
    {
        let mut res = self.duplicate();
        res.components.push(name.to_string());
        proof {
            assert(res@ =~= self@.push(name@));
        }
        res
    }

    /// Whether `base` is a prefix of this path, component by component.
    pub fn starts_with(&self, base: &RelPath) -> (res: bool)
        ensures
            res == (base@.len() <= self@.len() && self@.take(base@.len() as int) == base@),
    {
        let n = base.components.len();
        if n > self.components.len() {
            return false;
        }
        let mut i: usize = 0;
        while i < n
            invariant
                n == base@.len(),
                n <= self@.len(),
                i <= n,
                self@.take(i as int) =~= base@.take(i as int),
            decreases n - i,
        {
            if self.components[i] != base.components[i] {
                assert(self@[i as int] != base@[i as int]);
                assert(self@.take(n as int)[i as int] != base@[i as int]);
                return false;
            }
            assert(self@.take(i + 1) =~= base@.take(i + 1));
            i = i + 1;
        }
        assert(base@.take(n as int) =~= base@);
        true
    }

    /// Whether the two paths have the same components.
    pub fn same_as(&self, other: &RelPath) -> (res: bool)
        ensures
            res == (self@ == other@),
    {
        if self.components.len() != other.components.len() {
            return false;
        }
        let r = self.starts_with(other);
        proof {
            assert(self@.take(other@.len() as int) =~= self@);
        }
        r
    }

    /// Whether this path comes strictly before `other` by `path_before`.
    pub fn before(&self, other: &RelPath) -> (res: bool)
        ensures
            res == path_before(self@, other@),
    {
        let np = self.components.len();
        let nq = other.components.len();
        let mut i: usize = 0;
        assert(self@.skip(0) =~= self@);
        assert(other@.skip(0) =~= other@);
        while i < np && i < nq
            invariant
                np == self@.len(),
                nq == other@.len(),
                i <= np,
                i <= nq,
                path_before(self@, other@) == path_before(self@.skip(i as int), other@.skip(i as int)),
            decreases np - i,
        {
            let ghost p_i = self@.skip(i as int);
            let ghost q_i = other@.skip(i as int);
            assert(p_i[0] == self@[i as int] && q_i[0] == other@[i as int]);
            if self.components[i] != other.components[i] {
                return string_before(&self.components[i], &other.components[i]);
            }
            assert(p_i.drop_first() =~= self@.skip(i + 1));
            assert(q_i.drop_first() =~= other@.skip(i + 1));
            i = i + 1;
        }
        i == np && i < nq
    }

    /// The components joined by `/`, the way git prints a path.
    pub fn to_slash_string(&self) -> (res: String)
        ensures
            res@ == slash_joined(self@),
    {
        let mut out = String::new();
        let n = self.components.len();
        let mut i: usize = 0;
        while i < n
            invariant
                n == self@.len(),
                i <= n,
                out@ == slash_joined(self@.take(i as int)),
            decreases n - i,
        {
            if i > 0 {
                out.append("/");
            }
            out.append(self.components[i].as_str());
            proof {
                reveal_strlit("/");
                assert(self@.take(i + 1).drop_last() =~= self@.take(i as int));
            }
            i = i + 1;
        }
        assert(self@.take(n as int) =~= self@);
        out
    }
}

/// The first `k` strings of `v`, copied.
fn copy_prefix(v: &Vec<String>, k: usize) -> (res: Vec<String>)
    requires
        k <= v@.len(),
    ensures
        res@ == v@.take(k as int),
{
    let mut out: Vec<String> = Vec::new();
    let mut i: usize = 0;
    while i < k
        invariant
            k <= v@.len(),
            i <= k,
            out@ =~= v@.take(i as int),
        decreases k - i,
    {
        out.push(v[i].clone());
        i = i + 1;
    }
    out
}

/// The components of a path joined by `/`.
pub open spec fn slash_joined(p: Seq<Seq<char>>) -> Seq<char>
    decreases p.len(),
{
    if p.len() == 0 {
        Seq::empty()
    } else if p.len() == 1 {
        p[0]
    } else {
        slash_joined(p.drop_last()) + seq!['/'] + p.last()
    }
}

} // verus!
