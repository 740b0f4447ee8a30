use vstd::prelude::*;
use crate::path::{RelPath, path_before, lemma_path_total, lemma_path_transitive, lemma_path_irreflexive, lemma_path_asymmetric};

verus! {

/// The views of a sequence of paths.
pub open spec fn paths_view(s: Seq<RelPath>) -> Seq<Seq<Seq<char>>> {
    s.map_values(|p: RelPath| p@)
}

/// Every path comes strictly before every later one: the sequence is
/// sorted by `path_before` and holds no path twice.
pub open spec fn strictly_sorted(s: Seq<Seq<Seq<char>>>) -> bool {
    forall|i: int, j: int| 0 <= i < j < s.len() ==> path_before(#[trigger] s[i], #[trigger] s[j])
}

/// A set of paths that hands its paths out in sorted order, each once:
/// the set that a `BTreeSet<PathBuf>` of relative paths holds.
pub struct PathSet {
    items: Vec<RelPath>,
}

impl PathSet {
    #[verifier::type_invariant]
    spec fn sorted_items(self) -> bool {
        strictly_sorted(paths_view(self.items@))
    }

    /// The paths held, in order.
    pub closed spec fn sorted_view(self) -> Seq<Seq<Seq<char>>> {
        paths_view(self.items@)
    }
}

impl View for PathSet {
    type V = Set<Seq<Seq<char>>>;

    closed spec fn view(&self) -> Set<Seq<Seq<char>>> {
        paths_view(self.items@).to_set()
    }
}

/// Inserting `x` where everything before is smaller and everything after
/// is larger keeps a sequence strictly sorted.
proof fn lemma_insert_sorted(v: Seq<Seq<Seq<char>>>, pos: int, x: Seq<Seq<char>>)
    requires
        strictly_sorted(v),
        0 <= pos <= v.len(),
        forall|k: int| 0 <= k < pos ==> path_before(#[trigger] v[k], x),
        forall|k: int| pos <= k < v.len() ==> path_before(x, #[trigger] v[k]),
    ensures
        strictly_sorted(v.insert(pos, x)),
{
    let w = v.insert(pos, x);
    assert forall|i: int, j: int| 0 <= i < j < w.len() implies path_before(#[trigger] w[i], #[trigger] w[j]) by {
        if i < pos && j < pos {
            assert(w[i] == v[i] && w[j] == v[j]);
        } else if i < pos && j == pos {
            assert(w[i] == v[i]);
        } else if i < pos {
            assert(w[i] == v[i] && w[j] == v[j - 1]);
        } else if i == pos {
            assert(w[j] == v[j - 1]);
        } else {
            assert(w[i] == v[i - 1] && w[j] == v[j - 1]);
        }
    }
}

impl PathSet {
    /// The empty set.
    pub fn new() -> (res: PathSet)
        ensures
            res@ == Set::<Seq<Seq<char>>>::empty(),
    {
        let res = PathSet { items: Vec::new() };
        assert(paths_view(res.items@) =~= Seq::<Seq<Seq<char>>>::empty());
        res
    }

    /// Number of paths held.
    pub fn len(&self) -> (res: usize)
        ensures
            res == self@.len(),
    {
        proof {
            use_type_invariant(self);
            lemma_sorted_no_duplicates(paths_view(self.items@));
            paths_view(self.items@).unique_seq_to_set();
        }
        self.items.len()
    }

    /// Whether `p` is in the set.
    pub fn contains(&self, p: &RelPath) -> (res: bool)
        ensures
            res == self@.contains(p@),
    {
        let n = self.items.len();
        let mut i: usize = 0;
        while i < n
            invariant
                n == self.items@.len(),
                i <= n,
                forall|k: int| 0 <= k < i ==> paths_view(self.items@)[k] != p@,
            decreases n - i,
        {
            if self.items[i].same_as(p) {
                assert(paths_view(self.items@)[i as int] == p@);
                return true;
            }
            i = i + 1;
        }
        proof {
            if paths_view(self.items@).contains(p@) {
                let k = choose|k: int| 0 <= k < paths_view(self.items@).len() && paths_view(self.items@)[k] == p@;
                assert(paths_view(self.items@)[k] != p@);
            }
        }
        false
    }

    /// Adds `p`; returns whether it was not in the set before.
    pub fn insert(&mut self, p: RelPath) -> (res: bool)
        ensures
            final(self)@ == old(self)@.insert(p@),
            res == !old(self)@.contains(p@),
    {
        proof {
            use_type_invariant(&*self);
        }
        let ghost v = paths_view(self.items@);
        let n = self.items.len();
        let mut i: usize = 0;
        while i < n && self.items[i].before(&p)
            invariant
                n == self.items@.len(),
                v == paths_view(self.items@),
                strictly_sorted(v),
                i <= n,
                forall|k: int| 0 <= k < i ==> path_before(#[trigger] v[k], p@),
            decreases n - i,
        {
            i = i + 1;
        }
        if i < n && self.items[i].same_as(&p) {
            proof {
                assert(v[i as int] == p@);
                assert(v.contains(p@));
                assert(v.to_set().insert(p@) =~= v.to_set());
            }
            return false;
        }
        proof {
            if i < n {
                lemma_path_total(v[i as int], p@);
                assert forall|k: int| i <= k < v.len() implies path_before(p@, #[trigger] v[k]) by {
                    if k > i {
                        lemma_path_transitive(p@, v[i as int], v[k]);
                    }
                }
            }
            lemma_insert_sorted(v, i as int, p@);
            assert(!v.contains(p@)) by {
                if v.contains(p@) {
                    let k = choose|k: int| 0 <= k < v.len() && v[k] == p@;
                    lemma_path_irreflexive(p@);
                }
            }
        }
        let ghost pv = p@;
        let mut items: Vec<RelPath> = Vec::new();
        std::mem::swap(&mut items, &mut self.items);
        items.insert(i, p);
        proof {
            assert(paths_view(items@) =~= v.insert(i as int, pv));
            assert(v.insert(i as int, pv).to_set() =~= v.to_set().insert(pv)) by {
                assert forall|x| v.insert(i as int, pv).to_set().contains(x) <==> v.to_set().insert(pv).contains(x) by {
                    if v.insert(i as int, pv).contains(x) {
                        let k = choose|k: int| 0 <= k < v.len() + 1 && v.insert(i as int, pv)[k] == x;
                        if k < i {
                            assert(v[k] == x);
                        } else if k > i {
                            assert(v[k - 1] == x);
                        }
                    }
                    if v.contains(x) {
                        let k = choose|k: int| 0 <= k < v.len() && v[k] == x;
                        if k < i {
                            assert(v.insert(i as int, pv)[k] == x);
                        } else {
                            assert(v.insert(i as int, pv)[k + 1] == x);
                        }
                    }
                    if x == pv {
                        assert(v.insert(i as int, pv)[i as int] == x);
                    }
                }
            }
        }
        self.items = items;
        true
    }

    /// The paths, in strictly increasing order.
    pub fn into_sorted_vec(self) -> (res: Vec<RelPath>)
        ensures
            strictly_sorted(paths_view(res@)),
            paths_view(res@).to_set() == self@,
    {
        proof {
            use_type_invariant(&self);
        }
        self.items
    }
}

/// A strictly sorted sequence holds no path twice.
pub proof fn lemma_sorted_no_duplicates(s: Seq<Seq<Seq<char>>>)
    requires
        strictly_sorted(s),
    ensures
        s.no_duplicates(),
{
    assert forall|i: int, j: int| 0 <= i < s.len() && 0 <= j < s.len() && i != j implies s[i] != s[j] by {
        if i < j {
            assert(path_before(s[i], s[j]));
        } else {
            assert(path_before(s[j], s[i]));
        }
        lemma_path_irreflexive(s[i]);
    }
}

/// Two strictly sorted sequences that hold the same paths are the same
/// sequence: the list a `PathSet` hands out is fixed by its set.
pub proof fn lemma_sorted_unique(s1: Seq<Seq<Seq<char>>>, s2: Seq<Seq<Seq<char>>>)
    requires
        strictly_sorted(s1),
        strictly_sorted(s2),
        s1.to_set() == s2.to_set(),
    ensures
        s1 == s2,
    decreases s1.len(),
{
    if s1.len() == 0 {
        if s2.len() > 0 {
            assert(s2.to_set().contains(s2[0]));
        }
        assert(s1 =~= s2);
    } else if s2.len() == 0 {
        assert(s1.to_set().contains(s1[0]));
    } else {
        let a = s1[0];
        let b = s2[0];
        assert(s1.to_set().contains(a));
        assert(s2.to_set().contains(b));
        let ka = choose|k: int| 0 <= k < s2.len() && s2[k] == a;
        let kb = choose|k: int| 0 <= k < s1.len() && s1[k] == b;
        if a != b {
            assert(ka > 0 && kb > 0);
            assert(path_before(b, a));
            assert(path_before(a, b));
            lemma_path_asymmetric(a, b);
        }
        lemma_sorted_no_duplicates(s1);
        lemma_sorted_no_duplicates(s2);
        let t1 = s1.drop_first();
        let t2 = s2.drop_first();
        assert(strictly_sorted(t1)) by {
            assert forall|i: int, j: int| 0 <= i < j < t1.len() implies path_before(#[trigger] t1[i], #[trigger] t1[j]) by {
                assert(t1[i] == s1[i + 1] && t1[j] == s1[j + 1]);
            }
        }
        assert(strictly_sorted(t2)) by {
            assert forall|i: int, j: int| 0 <= i < j < t2.len() implies path_before(#[trigger] t2[i], #[trigger] t2[j]) by {
                assert(t2[i] == s2[i + 1] && t2[j] == s2[j + 1]);
            }
        }
        assert(t1.to_set() =~= t2.to_set()) by {
            assert forall|x| t1.to_set().contains(x) <==> t2.to_set().contains(x) by {
                if t1.contains(x) {
                    let i = choose|i: int| 0 <= i < t1.len() && t1[i] == x;
                    assert(s1[i + 1] == x);
                    assert(s1.to_set().contains(x));
                    let j = choose|j: int| 0 <= j < s2.len() && s2[j] == x;
                    if j == 0 {
                        assert(s1[0] == s1[i + 1]);
                    } else {
                        assert(t2[j - 1] == x);
                    }
                }
                if t2.contains(x) {
                    let i = choose|i: int| 0 <= i < t2.len() && t2[i] == x;
                    assert(s2[i + 1] == x);
                    assert(s2.to_set().contains(x));
                    let j = choose|j: int| 0 <= j < s1.len() && s1[j] == x;
                    if j == 0 {
                        assert(s2[0] == s2[i + 1]);
                    } else {
                        assert(t1[j - 1] == x);
                    }
                }
            }
        }
        lemma_sorted_unique(t1, t2);
        assert(s1 =~= seq![a] + t1);
        assert(s2 =~= seq![b] + t2);
    }
}

/// Adding a path that the set already holds changes nothing, and a path
/// once added stays findable.
pub proof fn lemma_insert_laws(s: Set<Seq<Seq<char>>>, p: Seq<Seq<char>>)
    ensures
        s.insert(p).insert(p) == s.insert(p),
        s.insert(p).contains(p),
        s.contains(p) ==> s.insert(p) == s,
{
    assert(s.insert(p).insert(p) =~= s.insert(p));
    if s.contains(p) {
        assert(s.insert(p) =~= s);
    }
}

} // verus!
