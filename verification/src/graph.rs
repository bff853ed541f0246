//! The reverse-dependency graph and the transitive impact closure.
//!
//! The graph maps each workspace file to the set of files that import it.
//! The impact of a changed set is everything reachable from it through those
//! edges, the changed files themselves included; a worklist traversal with a
//! visited set computes it and tolerates cycles.

use vstd::prelude::*;
use vstd::seq_lib::*;
use vstd::set_lib::*;

use crate::ast::contains_path;

verus! {

/// Does the reverse graph record `b` as an importer of `a`?
pub open spec fn has_edge(g: Map<Seq<char>, Set<Seq<char>>>, a: Seq<char>, b: Seq<char>) -> bool {
    g.dom().contains(a) && g[a].contains(b)
}

/// Is `b` reachable from `a` in exactly `n` steps?
pub open spec fn reaches_in(
    g: Map<Seq<char>, Set<Seq<char>>>,
    a: Seq<char>,
    b: Seq<char>,
    n: nat,
) -> bool
    decreases n,
{
    if n == 0 {
        a == b
    } else {
        exists|m: Seq<char>| reaches_in(g, a, m, (n - 1) as nat) && has_edge(g, m, b)
    }
}

/// Is `b` reachable from `a` through zero or more edges?
pub open spec fn reaches(g: Map<Seq<char>, Set<Seq<char>>>, a: Seq<char>, b: Seq<char>) -> bool {
    exists|n: nat| reaches_in(g, a, b, n)
}

/// Everything reachable from some element of `seeds`, `seeds` included.
pub open spec fn impact(g: Map<Seq<char>, Set<Seq<char>>>, seeds: Set<Seq<char>>) -> Set<
    Seq<char>,
> {
    Set::new(|t: Seq<char>| exists|s: Seq<char>| seeds.contains(s) && reaches(g, s, t))
}

/// Every node reaches itself.
pub proof fn lemma_reaches_refl(g: Map<Seq<char>, Set<Seq<char>>>, a: Seq<char>)
    ensures
        reaches(g, a, a),
{
    assert(reaches_in(g, a, a, 0));
}

/// Reachability extends along one more edge.
pub proof fn lemma_reaches_step(
    g: Map<Seq<char>, Set<Seq<char>>>,
    a: Seq<char>,
    m: Seq<char>,
    b: Seq<char>,
)
    requires
        reaches(g, a, m),
        has_edge(g, m, b),
    ensures
        reaches(g, a, b),
{
    let n = choose|n: nat| reaches_in(g, a, m, n);
    assert(reaches_in(g, a, b, n + 1));
}

/// Step-counted reachability composes by adding the step counts.
pub proof fn lemma_reaches_in_trans(
    g: Map<Seq<char>, Set<Seq<char>>>,
    a: Seq<char>,
    m: Seq<char>,
    b: Seq<char>,
    n1: nat,
    n2: nat,
)
    requires
        reaches_in(g, a, m, n1),
        reaches_in(g, m, b, n2),
    ensures
        reaches_in(g, a, b, (n1 + n2) as nat),
    decreases n2,
{
    if n2 == 0 {
    } else {
        let w = choose|w: Seq<char>| reaches_in(g, m, w, (n2 - 1) as nat) && has_edge(g, w, b);
        lemma_reaches_in_trans(g, a, m, w, n1, (n2 - 1) as nat);
        assert(reaches_in(g, a, b, (n1 + n2) as nat));
    }
}

/// Reachability is transitive.
pub proof fn lemma_reaches_trans(
    g: Map<Seq<char>, Set<Seq<char>>>,
    a: Seq<char>,
    m: Seq<char>,
    b: Seq<char>,
)
    requires
        reaches(g, a, m),
        reaches(g, m, b),
    ensures
        reaches(g, a, b),
{
    let n1 = choose|n: nat| reaches_in(g, a, m, n);
    let n2 = choose|n: nat| reaches_in(g, m, b, n);
    lemma_reaches_in_trans(g, a, m, b, n1, n2);
}

/// Is `s` closed under the edges of `g`?
pub open spec fn closed_under_edges(g: Map<Seq<char>, Set<Seq<char>>>, s: Set<Seq<char>>) -> bool {
    forall|v: Seq<char>, c: Seq<char>|
        s.contains(v) && #[trigger] has_edge(g, v, c) ==> s.contains(c)
}

/// A set that holds the seeds and is closed under the edges holds the whole
/// impact closure.
pub proof fn lemma_closed_contains_impact(
    g: Map<Seq<char>, Set<Seq<char>>>,
    seeds: Set<Seq<char>>,
    s: Set<Seq<char>>,
)
    requires
        seeds.subset_of(s),
        closed_under_edges(g, s),
    ensures
        impact(g, seeds).subset_of(s),
{
    assert forall|t: Seq<char>| impact(g, seeds).contains(t) implies s.contains(t) by {
        let seed = choose|seed: Seq<char>| seeds.contains(seed) && reaches(g, seed, t);
        let n = choose|n: nat| reaches_in(g, seed, t, n);
        lemma_closed_reaches_in(g, s, seed, t, n);
    }
}

/// In a closed set, every node reachable from a member is a member.
pub proof fn lemma_closed_reaches_in(
    g: Map<Seq<char>, Set<Seq<char>>>,
    s: Set<Seq<char>>,
    a: Seq<char>,
    b: Seq<char>,
    n: nat,
)
    requires
        closed_under_edges(g, s),
        s.contains(a),
        reaches_in(g, a, b, n),
    ensures
        s.contains(b),
    decreases n,
{
    if n != 0 {
        let m = choose|m: Seq<char>| reaches_in(g, a, m, (n - 1) as nat) && has_edge(g, m, b);
        lemma_closed_reaches_in(g, s, a, m, (n - 1) as nat);
    }
}

/// A larger changed set can only enlarge the impact closure.
pub proof fn lemma_impact_monotonic(
    g: Map<Seq<char>, Set<Seq<char>>>,
    a: Set<Seq<char>>,
    b: Set<Seq<char>>,
)
    requires
        a.subset_of(b),
    ensures
        impact(g, a).subset_of(impact(g, b)),
{
    assert forall|t: Seq<char>| impact(g, a).contains(t) implies impact(g, b).contains(t) by {
        let s = choose|s: Seq<char>| a.contains(s) && reaches(g, s, t);
        assert(b.contains(s) && reaches(g, s, t));
    }
}

/// Taking the impact of an impact closure adds nothing further.
pub proof fn lemma_impact_idempotent(g: Map<Seq<char>, Set<Seq<char>>>, x: Set<Seq<char>>)
    ensures
        impact(g, impact(g, x)) == impact(g, x),
{
    assert forall|t: Seq<char>| impact(g, impact(g, x)).contains(t) implies impact(g, x).contains(
        t,
    ) by {
        let m = choose|m: Seq<char>| impact(g, x).contains(m) && reaches(g, m, t);
        let s = choose|s: Seq<char>| x.contains(s) && reaches(g, s, m);
        lemma_reaches_trans(g, s, m, t);
        assert(x.contains(s) && reaches(g, s, t));
    }
    assert forall|t: Seq<char>| impact(g, x).contains(t) implies impact(g, impact(g, x)).contains(
        t,
    ) by {
        lemma_reaches_refl(g, t);
        assert(impact(g, x).contains(t) && reaches(g, t, t));
    }
    assert(impact(g, impact(g, x)) =~= impact(g, x));
}

/// The reverse-dependency graph: for each file, the set of its importers.
/// Keys are unique and each importer list is free of duplicates.
pub struct DependencyGraph {
    keys: Vec<String>,
    vals: Vec<Vec<String>>,
}

impl DependencyGraph {
    /// The structural invariant of the backing vectors.
    pub closed spec fn wf(&self) -> bool {
        &&& self.keys.len() == self.vals.len()
        &&& self.keys.deep_view().no_duplicates()
        &&& forall|i: int|
            0 <= i < self.vals.len() ==> (#[trigger] self.vals@[i]).deep_view().no_duplicates()
    }

    /// The index of key `k` in the backing vector.
    pub closed spec fn key_index(&self, k: Seq<char>) -> int {
        choose|i: int| 0 <= i < self.keys.deep_view().len() && self.keys.deep_view()[i] == k
    }

    /// The graph as a map from a file to the set of its importers.
    pub closed spec fn view(&self) -> Map<Seq<char>, Set<Seq<char>>> {
        Map::new(
            |k: Seq<char>| self.keys.deep_view().contains(k),
            |k: Seq<char>| self.vals.deep_view()[self.key_index(k)].to_set(),
        )
    }

    /// Everything the graph mentions: its keys and all their importers.
    pub open spec fn universe(&self) -> Set<Seq<char>> {
        self.view().dom() + self.all_importers()
    }

    /// The union of all importer sets.
    pub closed spec fn all_importers(&self) -> Set<Seq<char>> {
        self.vals.deep_view().flatten().to_set()
    }

    /// The empty graph.
    pub fn new() -> (r: DependencyGraph)
        ensures
            r.wf(),
            r@ == Map::<Seq<char>, Set<Seq<char>>>::empty(),
    {
        let r = DependencyGraph { keys: Vec::new(), vals: Vec::new() };
        proof {
            assert(r@ =~= Map::<Seq<char>, Set<Seq<char>>>::empty());
        }
        r
    }

    /// Looks up the importers of `k`.
    pub fn get(&self, k: &str) -> (r: Option<&Vec<String>>)
        requires
            self.wf(),
        ensures
            match r {
                Some(v) => self@.dom().contains(k@) && v.deep_view().to_set() == self@[k@]
                    && v.deep_view().no_duplicates(),
                None => !self@.dom().contains(k@),
            },
    {
        let mut i: usize = 0;
        while i < self.keys.len()
            invariant
                0 <= i <= self.keys.len(),
                self.wf(),
                forall|j: int| 0 <= j < i ==> self.keys.deep_view()[j] != k@,
            decreases self.keys.len() - i,
        {
            if crate::paths::str_equal(self.keys[i].as_str(), k) {
                proof {
                    assert(self.keys.deep_view()[i as int] == k@);
                    assert(self.key_index(k@) == i) by {
                        let w = self.key_index(k@);
                        if w != i {
                            assert(self.keys.deep_view()[w] == k@);
                        }
                    }
                }
                return Some(&self.vals[i]);
            }
            i = i + 1;
        }
        proof {
            if self.keys.deep_view().contains(k@) {
                let j = choose|j: int|
                    0 <= j < self.keys.deep_view().len() && self.keys.deep_view()[j] == k@;
                assert(self.keys.deep_view()[j] != k@);
            }
        }
        None
    }

    /// Records `importer` as an importer of `target`, creating the entry
    /// when `target` has none yet and collapsing duplicates.
    pub fn insert_edge(&mut self, target: &str, importer: &str)
        requires
            old(self).wf(),
        ensures
            final(self).wf(),
            final(self)@.dom() == old(self)@.dom().insert(target@),
            final(self)@[target@] == old_importers(*old(self), target@).insert(importer@),
            forall|k: Seq<char>|
                old(self)@.dom().contains(k) && k != target@ ==> final(self)@[k] == #[trigger] old(
                    self,
                )@[k],
    {
        let ghost pre = *self;
        let mut i: usize = 0;
        while i < self.keys.len()
            invariant
                0 <= i <= self.keys.len(),
                *self == pre,
                pre == *old(self),
                pre.wf(),
                forall|j: int| 0 <= j < i ==> self.keys.deep_view()[j] != target@,
            decreases self.keys.len() - i,
        {
            if crate::paths::str_equal(self.keys[i].as_str(), target) {
                proof {
                    assert(self.keys.deep_view()[i as int] == target@);
                    assert(self.key_index(target@) == i) by {
                        let w = self.key_index(target@);
                        if w != i {
                            assert(self.keys.deep_view()[w] == target@);
                        }
                    }
                    assert(pre@.dom().contains(target@));
                    assert(pre@.dom().insert(target@) =~= pre@.dom());
                }
                if !contains_path(&self.vals[i], importer) {
                    let ghost old_val = self.vals.deep_view()[i as int];
                    let mut v = self.vals[i].clone();
                    proof {
                        vstd::std_specs::vec::vec_clone_deep_view_proof(self.vals@[i as int], v);
                    }
                    v.push(importer.to_owned());
                    proof {
                        assert(v.deep_view() =~~= old_val.push(importer@));
                    }
                    self.vals.set(i, v);
                    proof {
                        assert(self.vals.deep_view() =~~= pre.vals.deep_view().update(
                            i as int,
                            old_val.push(importer@),
                        ));
                        assert(self.vals.deep_view() =~~= pre.vals.deep_view().update(
                            i as int,
                            self.vals.deep_view()[i as int],
                        ));
                        self.lemma_view_after_val_change(pre, i as int, target@);
                        old_val.lemma_push_to_set_commute(importer@);
                        assert(self@[target@] == old_importers(pre, target@).insert(importer@));
                    }
                } else {
                    proof {
                        assert(self.vals.deep_view()[i as int].to_set().contains(importer@));
                        assert(pre@[target@].insert(importer@) =~= pre@[target@]);
                        assert(self@ == pre@);
                    }
                }
                return ;
            }
            i = i + 1;
        }
        proof {
            if pre.keys.deep_view().contains(target@) {
                let j = choose|j: int|
                    0 <= j < pre.keys.deep_view().len() && pre.keys.deep_view()[j] == target@;
                assert(pre.keys.deep_view()[j] != target@);
            }
            assert(!pre@.dom().contains(target@));
        }
        let mut v: Vec<String> = Vec::new();
        v.push(importer.to_owned());
        proof {
            assert(v.deep_view() =~~= seq![importer@]);
        }
        self.keys.push(target.to_owned());
        self.vals.push(v);
        proof {
            assert(self.keys.deep_view() =~~= pre.keys.deep_view().push(target@));
            assert(self.vals.deep_view().last() =~~= seq![importer@]);
            assert(forall|j: int|
                0 <= j < pre.vals.len() ==> self.vals.deep_view()[j] == pre.vals.deep_view()[j]);
            self.lemma_view_after_append(pre, target@, importer@);
        }
    }

    /// After replacing the value vector at index `i` of key `k`, the view
    /// changes only at `k`.
    proof fn lemma_view_after_val_change(self, pre: DependencyGraph, i: int, k: Seq<char>)
        requires
            pre.wf(),
            self.keys == pre.keys,
            0 <= i < pre.vals.len(),
            pre.keys.deep_view()[i] == k,
            self.vals@.len() == pre.vals@.len(),
            self.vals.deep_view() == pre.vals.deep_view().update(i, self.vals.deep_view()[i]),
            self.vals.deep_view()[i].no_duplicates(),
        ensures
            self.wf(),
            self@.dom() == pre@.dom(),
            self@[k] == self.vals.deep_view()[i].to_set(),
            forall|k2: Seq<char>|
                pre@.dom().contains(k2) && k2 != k ==> self@[k2] == #[trigger] pre@[k2],
    {
        assert(self.wf()) by {
            assert(forall|j: int|
                0 <= j < self.vals.len() && j != i ==> self.vals.deep_view()[j] == pre
                    .vals.deep_view()[j]);
            assert(forall|j: int|
                0 <= j < self.vals.len() ==> (#[trigger] self.vals@[j]).deep_view() == self
                    .vals.deep_view()[j]);
            assert(forall|j: int|
                0 <= j < pre.vals.len() ==> (#[trigger] pre.vals@[j]).deep_view() == pre
                    .vals.deep_view()[j]);
        }
        assert(self@.dom() =~= pre@.dom());
        assert(self.key_index(k) == i) by {
            let w = self.key_index(k);
            assert(self.keys.deep_view().contains(k)) by {
                assert(self.keys.deep_view()[i] == k);
            }
            if w != i {
                assert(self.keys.deep_view()[w] == k);
            }
        }
        assert forall|k2: Seq<char>| pre@.dom().contains(k2) && k2 != k implies self@[k2]
            == pre@[k2] by {
            let j = pre.key_index(k2);
            assert(pre.keys.deep_view().contains(k2));
            assert(0 <= j < pre.keys.deep_view().len() && pre.keys.deep_view()[j] == k2);
            assert(j != i);
            assert(self.key_index(k2) == j) by {
                let w = self.key_index(k2);
                if w != j {
                    assert(self.keys.deep_view()[w] == k2);
                }
            }
        }
    }

    /// After appending a fresh key with a one-importer value, the view gains
    /// exactly that entry.
    proof fn lemma_view_after_append(self, pre: DependencyGraph, k: Seq<char>, imp: Seq<char>)
        requires
            pre.wf(),
            !pre.keys.deep_view().contains(k),
            self.keys.deep_view() == pre.keys.deep_view().push(k),
            self.vals.deep_view().len() == pre.vals.deep_view().len() + 1,
            forall|j: int|
                0 <= j < pre.vals.len() ==> self.vals.deep_view()[j] == pre.vals.deep_view()[j],
            self.vals.deep_view().last() == seq![imp],
            self.keys.len() == self.vals.len(),
            forall|j: int|
                0 <= j < self.vals.len() ==> (#[trigger] self.vals@[j]).deep_view() == self
                    .vals.deep_view()[j],
        ensures
            self.wf(),
            self@.dom() == pre@.dom().insert(k),
            self@[k] == Set::<Seq<char>>::empty().insert(imp),
            forall|k2: Seq<char>|
                pre@.dom().contains(k2) && k2 != k ==> self@[k2] == #[trigger] pre@[k2],
    {
        let n = pre.keys.deep_view().len() as int;
        assert(self.wf()) by {
            assert(forall|j: int|
                0 <= j < n ==> self.keys.deep_view()[j] == pre.keys.deep_view()[j]);
            assert(seq![imp].no_duplicates());
        }
        assert(self@.dom() =~= pre@.dom().insert(k)) by {
            assert forall|k2: Seq<char>| self.keys.deep_view().contains(k2) implies pre
                .keys.deep_view().contains(k2) || k2 == k by {
                let j = choose|j: int|
                    0 <= j < self.keys.deep_view().len() && self.keys.deep_view()[j] == k2;
                if j < n {
                    assert(pre.keys.deep_view()[j] == k2);
                }
            }
            assert(self.keys.deep_view()[n] == k);
            assert forall|k2: Seq<char>| pre.keys.deep_view().contains(k2) implies self
                .keys.deep_view().contains(k2) by {
                let j = choose|j: int|
                    0 <= j < pre.keys.deep_view().len() && pre.keys.deep_view()[j] == k2;
                assert(self.keys.deep_view()[j] == k2);
            }
        }
        assert(self.key_index(k) == n) by {
            let w = self.key_index(k);
            assert(self.keys.deep_view().contains(k)) by {
                assert(self.keys.deep_view()[n] == k);
            }
            if w != n {
                assert(self.keys.deep_view()[w] == k);
                assert(pre.keys.deep_view()[w] == k);
            }
        }
        assert(self@[k] == self.vals.deep_view()[n].to_set());
        assert(self.vals.deep_view()[n] == seq![imp]);
        assert(seq![imp].contains(imp)) by {
            assert(seq![imp][0] == imp);
        }
        assert forall|x: Seq<char>| seq![imp].to_set().contains(x) implies x == imp by {
            let j = choose|j: int| 0 <= j < seq![imp].len() && seq![imp][j] == x;
            assert(seq![imp][0] == imp);
        }
        assert(self@[k] =~= Set::<Seq<char>>::empty().insert(imp));
        assert forall|k2: Seq<char>| pre@.dom().contains(k2) && k2 != k implies self@[k2]
            == pre@[k2] by {
            let j = pre.key_index(k2);
            assert(pre.keys.deep_view().contains(k2));
            assert(0 <= j < n && pre.keys.deep_view()[j] == k2);
            assert(self.keys.deep_view()[j] == k2);
            assert(self.key_index(k2) == j) by {
                let w = self.key_index(k2);
                if w != j {
                    assert(self.keys.deep_view()[w] == k2);
                    if w < n {
                        assert(pre.keys.deep_view()[w] == k2);
                    }
                }
            }
        }
    }
}

/// The importers recorded for `k`, or the empty set when `k` is no key.
pub open spec fn old_importers(g: DependencyGraph, k: Seq<char>) -> Set<Seq<char>> {
    if g@.dom().contains(k) {
        g@[k]
    } else {
        Set::empty()
    }
}

impl DependencyGraph {
    /// An element of a flattened member sequence is in the flattening.
    proof fn lemma_flatten_member(ss: Seq<Seq<Seq<char>>>, j: int, x: Seq<char>)
        requires
            0 <= j < ss.len(),
            ss[j].contains(x),
        ensures
            ss.flatten().contains(x),
        decreases j,
    {
        broadcast use vstd::seq_lib::group_seq_properties;

        if j == 0 {
            assert(ss.flatten() == ss.first() + ss.drop_first().flatten());
        } else {
            Self::lemma_flatten_member(ss.drop_first(), j - 1, x);
            assert(ss.flatten() == ss.first() + ss.drop_first().flatten());
        }
    }

    /// Every importer the graph records lies inside its universe.
    pub proof fn lemma_value_in_universe(&self, k: Seq<char>, x: Seq<char>)
        requires
            self.wf(),
            self@.dom().contains(k),
            self@[k].contains(x),
        ensures
            self.universe().contains(x),
    {
        let i = self.key_index(k);
        assert(self.keys.deep_view().contains(k));
        assert(0 <= i < self.keys.deep_view().len() && self.keys.deep_view()[i] == k);
        assert(self.vals.deep_view()[i].contains(x));
        Self::lemma_flatten_member(self.vals.deep_view(), i, x);
        assert(self.all_importers().contains(x));
    }

    /// The universe of a graph is a finite set.
    pub proof fn lemma_universe_finite(&self)
        ensures
            self.universe().finite(),
    {
        broadcast use vstd::seq_lib::seq_to_set_is_finite;
        broadcast use vstd::set::group_set_axioms;

        assert(self@.dom() =~= self.keys.deep_view().to_set());
        assert(self.keys.deep_view().to_set().finite());
        assert(self.all_importers().finite());
    }
}

/// Computes the set of files impacted by the updated files: everything
/// reachable from them through the reverse-dependency graph, themselves
/// included. Cycles are handled by the visited set.
pub fn discover_impacted_nodes(dependency_graph: &DependencyGraph, updated_files: &Vec<String>) -> (r: Vec<String>)
    requires
        dependency_graph.wf(),
    ensures
        r.deep_view().no_duplicates(),
        r.deep_view().to_set() == impact(dependency_graph@, updated_files.deep_view().to_set()),
        forall|i: int|
            0 <= i < updated_files.len() ==> r.deep_view().contains(
                updated_files.deep_view()[i],
            ),
{
    let ghost g = dependency_graph@;
    let ghost seeds = updated_files.deep_view().to_set();
    let ghost univ = seeds + dependency_graph.universe();
    let mut visited: Vec<String> = Vec::new();
    let mut stack: Vec<String> = updated_files.clone();
    proof {
        broadcast use vstd::seq_lib::group_seq_properties;
        broadcast use vstd::seq_lib::seq_to_set_is_finite;
        broadcast use vstd::set::group_set_axioms;

        vstd::std_specs::vec::vec_clone_deep_view_proof(*updated_files, stack);
        dependency_graph.lemma_universe_finite();
        assert(univ.finite());
        assert(stack.deep_view() == updated_files.deep_view());
        assert forall|p: Seq<char>| #[trigger] stack.deep_view().contains(p) implies impact(
            g,
            seeds,
        ).contains(p) by {
            assert(updated_files.deep_view().contains(p));
            assert(seeds.contains(p));
            lemma_reaches_refl(g, p);
        }
        assert forall|p: Seq<char>| #[trigger] stack.deep_view().contains(p) implies univ.contains(
            p,
        ) by {
            assert(updated_files.deep_view().contains(p));
            assert(seeds.contains(p));
        }
    }
    while stack.len() != 0
        invariant
            dependency_graph.wf(),
            g == dependency_graph@,
            seeds == updated_files.deep_view().to_set(),
            univ == seeds + dependency_graph.universe(),
            univ.finite(),
            visited.deep_view().no_duplicates(),
            visited.deep_view().len() <= univ.len(),
            forall|p: Seq<char>| #[trigger]
                visited.deep_view().contains(p) ==> impact(g, seeds).contains(p),
            forall|p: Seq<char>| #[trigger]
                stack.deep_view().contains(p) ==> impact(g, seeds).contains(p),
            forall|p: Seq<char>|
                seeds.contains(p) ==> visited.deep_view().contains(p) || stack.deep_view().contains(
                    p,
                ),
            forall|v: Seq<char>, c: Seq<char>|
                visited.deep_view().contains(v) && #[trigger] has_edge(g, v, c)
                    ==> visited.deep_view().contains(c) || stack.deep_view().contains(c),
            forall|p: Seq<char>| #[trigger] visited.deep_view().contains(p) ==> univ.contains(p),
            forall|p: Seq<char>| #[trigger] stack.deep_view().contains(p) ==> univ.contains(p),
        decreases univ.len() - visited.len(), stack.len(),
    {
        let ghost old_visited = visited.deep_view();
        let ghost old_stack = stack.deep_view();
        let f = stack.pop().unwrap();
        let ghost fv = f@;
        proof {
            broadcast use vstd::seq_lib::group_seq_properties;

            assert(old_stack.contains(fv)) by {
                assert(old_stack[old_stack.len() - 1] == fv);
            }
            assert(stack.deep_view() =~~= old_stack.drop_last());
            assert forall|p: Seq<char>| #[trigger] stack.deep_view().contains(p) implies old_stack.contains(
                p,
            ) by {
                let j = choose|j: int|
                    0 <= j < stack.deep_view().len() && stack.deep_view()[j] == p;
                assert(old_stack[j] == p);
            }
        }
        if !contains_path(&visited, f.as_str()) {
            let ghost mid_stack = stack.deep_view();
            match dependency_graph.get(f.as_str()) {
                Some(consumers) => {
                    let mut tmp = consumers.clone();
                    proof {
                        vstd::std_specs::vec::vec_clone_deep_view_proof(*consumers, tmp);
                    }
                    stack.append(&mut tmp);
                    proof {
                        broadcast use vstd::seq_lib::group_seq_properties;

                        assert(stack.deep_view() =~~= mid_stack + consumers.deep_view());
                        assert(impact(g, seeds).contains(fv));
                        let s0 = choose|s0: Seq<char>| seeds.contains(s0) && reaches(g, s0, fv);
                        assert forall|p: Seq<char>| #[trigger] stack.deep_view().contains(p) implies impact(
                            g,
                            seeds,
                        ).contains(p) && univ.contains(p) by {
                            if mid_stack.contains(p) {
                            } else {
                                assert(consumers.deep_view().contains(p));
                                assert(consumers.deep_view().to_set().contains(p));
                                assert(has_edge(g, fv, p));
                                lemma_reaches_step(g, s0, fv, p);
                                assert(seeds.contains(s0) && reaches(g, s0, p));
                                dependency_graph.lemma_value_in_universe(fv, p);
                            }
                        }
                    }
                },
                None => {},
            }
            let ghost pre_push = visited.deep_view();
            visited.push(f);
            proof {
                broadcast use vstd::seq_lib::group_seq_properties;
                broadcast use vstd::seq_lib::seq_to_set_is_finite;
                broadcast use vstd::set::group_set_axioms;

                assert(visited.deep_view() =~~= pre_push.push(fv));
                assert(visited.deep_view().no_duplicates());
                assert forall|p: Seq<char>| #[trigger] visited.deep_view().contains(p) implies univ.contains(
                    p,
                ) && impact(g, seeds).contains(p) by {
                    if !pre_push.contains(p) {
                        assert(p == fv);
                    }
                }
                assert(visited.deep_view().to_set().subset_of(univ));
                visited.deep_view().unique_seq_to_set();
                lemma_len_subset(visited.deep_view().to_set(), univ);
                assert forall|v: Seq<char>, c: Seq<char>|
                    visited.deep_view().contains(v) && #[trigger] has_edge(g, v, c)
                    implies visited.deep_view().contains(c) || stack.deep_view().contains(c) by {
                    if v == fv {
                        assert(g.dom().contains(fv) && g[fv].contains(c));
                        assert(stack.deep_view().contains(c));
                    } else {
                        assert(pre_push.contains(v));
                        if old_visited.contains(c) {
                            assert(visited.deep_view().contains(c));
                        } else {
                            assert(old_stack.contains(c));
                            if c == fv {
                                assert(visited.deep_view().contains(c));
                            } else {
                                let j = choose|j: int| 0 <= j < old_stack.len() && old_stack[j] == c;
                                assert(j < old_stack.len() - 1 || old_stack[old_stack.len() - 1]
                                    == c);
                                assert(old_stack.drop_last()[j] == c || c == fv);
                                assert(stack.deep_view().contains(c));
                            }
                        }
                    }
                }
            }
        } else {
            proof {
                assert(visited.deep_view().contains(fv));
                assert forall|p: Seq<char>| seeds.contains(p) implies visited.deep_view().contains(
                    p,
                ) || stack.deep_view().contains(p) by {
                    if old_stack.contains(p) && !visited.deep_view().contains(p) {
                        let j = choose|j: int| 0 <= j < old_stack.len() && old_stack[j] == p;
                        if j == old_stack.len() - 1 {
                            assert(p == fv);
                        } else {
                            assert(stack.deep_view()[j] == p);
                        }
                    }
                }
                assert forall|v: Seq<char>, c: Seq<char>|
                    visited.deep_view().contains(v) && #[trigger] has_edge(g, v, c)
                    implies visited.deep_view().contains(c) || stack.deep_view().contains(c) by {
                    if !visited.deep_view().contains(c) {
                        assert(old_stack.contains(c));
                        let j = choose|j: int| 0 <= j < old_stack.len() && old_stack[j] == c;
                        if j == old_stack.len() - 1 {
                            assert(c == fv);
                        } else {
                            assert(stack.deep_view()[j] == c);
                        }
                    }
                }
            }
        }
    }
    proof {
        broadcast use vstd::set::group_set_axioms;

        let vset = visited.deep_view().to_set();
        assert(seeds.subset_of(vset)) by {
            assert forall|p: Seq<char>| seeds.contains(p) implies vset.contains(p) by {
                assert(visited.deep_view().contains(p));
            }
        }
        assert(closed_under_edges(g, vset)) by {
            assert forall|v: Seq<char>, c: Seq<char>|
                vset.contains(v) && #[trigger] has_edge(g, v, c) implies vset.contains(c) by {
                assert(visited.deep_view().contains(v));
                assert(!stack.deep_view().contains(c)) by {
                    assert(stack.deep_view().len() == 0);
                }
            }
        }
        lemma_closed_contains_impact(g, seeds, vset);
        assert(vset =~= impact(g, seeds));
        assert forall|i: int| 0 <= i < updated_files.len() implies visited.deep_view().contains(
            updated_files.deep_view()[i],
        ) by {
            assert(seeds.contains(updated_files.deep_view()[i]));
        }
    }
    visited
}

/// One reverse edge met during the traversal, ready for DOT output as
/// `"from" -> "to"`: `from` imports `to`.
#[derive(Debug)]
pub struct DotEdge {
    pub from: String,
    pub to: String,
}

/// Is the edge `from -> to` recorded in the list?
pub open spec fn edge_recorded(edges: Seq<DotEdge>, from: Seq<char>, to: Seq<char>) -> bool {
    exists|j: int| 0 <= j < edges.len() && edges[j].from@ == from && edges[j].to@ == to
}

/// Pushes the consumers of `file` onto the worklist and records one DOT edge
/// for each.
fn record_consumers(
    consumers: &Vec<String>,
    file: &str,
    stack: &mut Vec<String>,
    edges: &mut Vec<DotEdge>,
)
    ensures
        final(stack).deep_view() == old(stack).deep_view() + consumers.deep_view(),
        final(edges)@.len() == old(edges)@.len() + consumers.len(),
        forall|j: int| 0 <= j < old(edges)@.len() ==> final(edges)@[j] == #[trigger] old(edges)@[j],
        forall|k: int|
            0 <= k < consumers.len() ==> (#[trigger] final(edges)@[old(edges)@.len() + k].from)@
                == consumers.deep_view()[k] && final(edges)@[old(edges)@.len() + k].to@ == file@,
{
    let ghost s0 = stack.deep_view();
    let ghost e0 = edges@;
    let mut k: usize = 0;
    while k < consumers.len()
        invariant
            0 <= k <= consumers.len(),
            s0 == old(stack).deep_view(),
            e0 == old(edges)@,
            consumers.deep_view().len() == consumers.len(),
            stack.deep_view() =~~= s0 + consumers.deep_view().subrange(0, k as int),
            edges@.len() == e0.len() + k,
            forall|j: int| 0 <= j < e0.len() ==> edges@[j] == #[trigger] e0[j],
            forall|j: int|
                0 <= j < k ==> (#[trigger] edges@[e0.len() + j].from)@ == consumers.deep_view()[j]
                    && edges@[e0.len() + j].to@ == file@,
        decreases consumers.len() - k,
    {
        let c = consumers[k].clone();
        let ghost cv = c@;
        let ghost pre_stack = stack.deep_view();
        proof {
            assert(cv == consumers.deep_view()[k as int]);
        }
        stack.push(c);
        edges.push(DotEdge { from: consumers[k].clone(), to: file.to_owned() });
        proof {
            assert(stack.deep_view() =~~= pre_stack.push(cv));
            assert(consumers.deep_view().subrange(0, k + 1) =~~= consumers.deep_view().subrange(
                0,
                k as int,
            ).push(cv));
            assert(stack.deep_view() =~~= s0 + consumers.deep_view().subrange(0, k + 1));
        }
        k = k + 1;
    }
    proof {
        assert(consumers.deep_view().subrange(0, consumers.len() as int) =~~= consumers.deep_view());
    }
}

/// The worklist traversal of `discover_impacted_nodes`, additionally
/// recording, exactly once, every reverse edge it crosses: the edge list
/// holds `i -> e` precisely for the impacted files `e` and their importers
/// `i`.
pub fn discover_impacted_nodes_with_graphviz(
    dependency_graph: &DependencyGraph,
    updated_files: &Vec<String>,
) -> (r: (Vec<String>, Vec<DotEdge>))
    requires
        dependency_graph.wf(),
    ensures
        r.0.deep_view().no_duplicates(),
        r.0.deep_view().to_set() == impact(dependency_graph@, updated_files.deep_view().to_set()),
        forall|i: int|
            0 <= i < updated_files.len() ==> r.0.deep_view().contains(
                updated_files.deep_view()[i],
            ),
        forall|j: int|
            0 <= j < r.1@.len() ==> r.0.deep_view().contains((#[trigger] r.1@[j].to)@) && has_edge(
                dependency_graph@,
                r.1@[j].to@,
                r.1@[j].from@,
            ),
        forall|e: Seq<char>, i: Seq<char>|
            r.0.deep_view().contains(e) && #[trigger] has_edge(dependency_graph@, e, i)
                ==> edge_recorded(r.1@, i, e),
        forall|j1: int, j2: int|
            0 <= j1 < j2 < r.1@.len() ==> !((#[trigger] r.1@[j1].to)@ == (#[trigger] r.1@[j2].to)@
                && r.1@[j1].from@ == r.1@[j2].from@),
{
    let ghost g = dependency_graph@;
    let ghost seeds = updated_files.deep_view().to_set();
    let ghost univ = seeds + dependency_graph.universe();
    let mut visited: Vec<String> = Vec::new();
    let mut edges: Vec<DotEdge> = Vec::new();
    let mut stack: Vec<String> = updated_files.clone();
    proof {
        broadcast use vstd::seq_lib::group_seq_properties;
        broadcast use vstd::seq_lib::seq_to_set_is_finite;
        broadcast use vstd::set::group_set_axioms;

        vstd::std_specs::vec::vec_clone_deep_view_proof(*updated_files, stack);
        dependency_graph.lemma_universe_finite();
        assert(univ.finite());
        assert(stack.deep_view() == updated_files.deep_view());
        assert forall|p: Seq<char>| #[trigger] stack.deep_view().contains(p) implies impact(
            g,
            seeds,
        ).contains(p) by {
            assert(updated_files.deep_view().contains(p));
            assert(seeds.contains(p));
            lemma_reaches_refl(g, p);
        }
        assert forall|p: Seq<char>| #[trigger] stack.deep_view().contains(p) implies univ.contains(
            p,
        ) by {
            assert(updated_files.deep_view().contains(p));
            assert(seeds.contains(p));
        }
    }
    while stack.len() != 0
        invariant
            dependency_graph.wf(),
            g == dependency_graph@,
            seeds == updated_files.deep_view().to_set(),
            univ == seeds + dependency_graph.universe(),
            univ.finite(),
            visited.deep_view().no_duplicates(),
            visited.deep_view().len() <= univ.len(),
            forall|p: Seq<char>| #[trigger]
                visited.deep_view().contains(p) ==> impact(g, seeds).contains(p),
            forall|p: Seq<char>| #[trigger]
                stack.deep_view().contains(p) ==> impact(g, seeds).contains(p),
            forall|p: Seq<char>|
                seeds.contains(p) ==> visited.deep_view().contains(p) || stack.deep_view().contains(
                    p,
                ),
            forall|v: Seq<char>, c: Seq<char>|
                visited.deep_view().contains(v) && #[trigger] has_edge(g, v, c)
                    ==> visited.deep_view().contains(c) || stack.deep_view().contains(c),
            forall|p: Seq<char>| #[trigger] visited.deep_view().contains(p) ==> univ.contains(p),
            forall|p: Seq<char>| #[trigger] stack.deep_view().contains(p) ==> univ.contains(p),
            forall|j: int|
                0 <= j < edges@.len() ==> visited.deep_view().contains((#[trigger] edges@[j].to)@)
                    && has_edge(g, edges@[j].to@, edges@[j].from@),
            forall|e: Seq<char>, i: Seq<char>|
                visited.deep_view().contains(e) && #[trigger] has_edge(g, e, i) ==> edge_recorded(
                    edges@,
                    i,
                    e,
                ),
            forall|j1: int, j2: int|
                0 <= j1 < j2 < edges@.len() ==> !((#[trigger] edges@[j1].to)@ == (
                #[trigger] edges@[j2].to)@ && edges@[j1].from@ == edges@[j2].from@),
        decreases univ.len() - visited.len(), stack.len(),
    {
        let ghost old_visited = visited.deep_view();
        let ghost old_stack = stack.deep_view();
        let ghost old_edges = edges@;
        let f = stack.pop().unwrap();
        let ghost fv = f@;
        proof {
            broadcast use vstd::seq_lib::group_seq_properties;

            assert(old_stack.contains(fv)) by {
                assert(old_stack[old_stack.len() - 1] == fv);
            }
            assert(stack.deep_view() =~~= old_stack.drop_last());
            assert forall|p: Seq<char>| #[trigger] stack.deep_view().contains(p) implies old_stack.contains(
                p,
            ) by {
                let j = choose|j: int|
                    0 <= j < stack.deep_view().len() && stack.deep_view()[j] == p;
                assert(old_stack[j] == p);
            }
        }
        if !contains_path(&visited, f.as_str()) {
            let ghost mid_stack = stack.deep_view();
            let ghost mut cons_dv: Seq<Seq<char>> = Seq::empty();
            match dependency_graph.get(f.as_str()) {
                Some(consumers) => {
                    record_consumers(consumers, f.as_str(), &mut stack, &mut edges);
                    proof {
                        broadcast use vstd::seq_lib::group_seq_properties;

                        cons_dv = consumers.deep_view();
                        assert(cons_dv.no_duplicates());
                        assert(cons_dv.to_set() == g[fv]);
                        assert(edges@.len() == old_edges.len() + cons_dv.len());
                        assert(forall|k: int|
                            0 <= k < cons_dv.len() ==> (#[trigger] edges@[old_edges.len()
                                + k].from)@ == cons_dv[k] && edges@[old_edges.len() + k].to@
                                == fv);
                        assert(stack.deep_view() =~~= mid_stack + consumers.deep_view());
                        assert(impact(g, seeds).contains(fv));
                        let s0 = choose|s0: Seq<char>| seeds.contains(s0) && reaches(g, s0, fv);
                        assert forall|p: Seq<char>| #[trigger] stack.deep_view().contains(p) implies impact(
                            g,
                            seeds,
                        ).contains(p) && univ.contains(p) by {
                            if mid_stack.contains(p) {
                            } else {
                                assert(consumers.deep_view().contains(p));
                                assert(consumers.deep_view().to_set().contains(p));
                                assert(has_edge(g, fv, p));
                                lemma_reaches_step(g, s0, fv, p);
                                assert(seeds.contains(s0) && reaches(g, s0, p));
                                dependency_graph.lemma_value_in_universe(fv, p);
                            }
                        }
                        assert forall|j: int| old_edges.len() <= j < edges@.len() implies (
                        #[trigger] edges@[j].to)@ == fv && has_edge(g, fv, edges@[j].from@) by {
                            let k = j - old_edges.len();
                            assert(edges@[old_edges.len() + k].from@ == consumers.deep_view()[k]);
                            assert(consumers.deep_view().to_set().contains(
                                consumers.deep_view()[k],
                            ));
                        }
                    }
                },
                None => {},
            }
            let ghost pre_push = visited.deep_view();
            visited.push(f);
            proof {
                broadcast use vstd::seq_lib::group_seq_properties;
                broadcast use vstd::seq_lib::seq_to_set_is_finite;
                broadcast use vstd::set::group_set_axioms;

                assert(visited.deep_view() =~~= pre_push.push(fv));
                assert(visited.deep_view().no_duplicates());
                assert forall|p: Seq<char>| #[trigger] visited.deep_view().contains(p) implies univ.contains(
                    p,
                ) && impact(g, seeds).contains(p) by {
                    if !pre_push.contains(p) {
                        assert(p == fv);
                    }
                }
                assert(visited.deep_view().to_set().subset_of(univ));
                visited.deep_view().unique_seq_to_set();
                lemma_len_subset(visited.deep_view().to_set(), univ);
                assert forall|v: Seq<char>, c: Seq<char>|
                    visited.deep_view().contains(v) && #[trigger] has_edge(g, v, c)
                    implies visited.deep_view().contains(c) || stack.deep_view().contains(c) by {
                    if v == fv {
                        assert(g.dom().contains(fv) && g[fv].contains(c));
                        if g.dom().contains(fv) {
                            assert(stack.deep_view().contains(c));
                        }
                    } else {
                        assert(pre_push.contains(v));
                        if old_visited.contains(c) {
                            assert(visited.deep_view().contains(c));
                        } else {
                            assert(old_stack.contains(c));
                            if c == fv {
                                assert(visited.deep_view().contains(c));
                            } else {
                                let j = choose|j: int| 0 <= j < old_stack.len() && old_stack[j] == c;
                                assert(j < old_stack.len() - 1 || old_stack[old_stack.len() - 1]
                                    == c);
                                assert(old_stack.drop_last()[j] == c || c == fv);
                                assert(stack.deep_view().contains(c));
                            }
                        }
                    }
                }
                assert forall|j: int| 0 <= j < edges@.len() implies visited.deep_view().contains((
                #[trigger] edges@[j].to)@) && has_edge(g, edges@[j].to@, edges@[j].from@) by {
                    if j < old_edges.len() {
                        assert(edges@[j] == old_edges[j]);
                        assert(old_visited.contains(old_edges[j].to@));
                    } else {
                        assert(edges@[j].to@ == fv);
                        assert(visited.deep_view()[visited.deep_view().len() - 1] == fv);
                    }
                }
                assert forall|e: Seq<char>, i: Seq<char>|
                    visited.deep_view().contains(e) && #[trigger] has_edge(g, e, i) implies edge_recorded(
                    edges@,
                    i,
                    e,
                ) by {
                    if pre_push.contains(e) {
                        assert(edge_recorded(old_edges, i, e));
                        let j = choose|j: int|
                            0 <= j < old_edges.len() && old_edges[j].from@ == i && old_edges[j].to@
                                == e;
                        assert(edges@[j].from@ == i && edges@[j].to@ == e);
                    } else {
                        assert(e == fv);
                        assert(g.dom().contains(fv));
                        assert(cons_dv.to_set().contains(i));
                        let k = choose|k: int| 0 <= k < cons_dv.len() && cons_dv[k] == i;
                        assert(edges@[old_edges.len() + k].from@ == i);
                        assert(edges@[old_edges.len() + k].to@ == fv);
                    }
                }
                assert forall|j1: int, j2: int| 0 <= j1 < j2 < edges@.len() implies !((
                #[trigger] edges@[j1].to)@ == (#[trigger] edges@[j2].to)@ && edges@[j1].from@
                    == edges@[j2].from@) by {
                    if j2 < old_edges.len() {
                        assert(edges@[j1] == old_edges[j1]);
                        assert(edges@[j2] == old_edges[j2]);
                        assert(!((old_edges[j1].to)@ == (old_edges[j2].to)@ && old_edges[j1].from@
                            == old_edges[j2].from@));
                    }
                    if j1 < old_edges.len() && j2 >= old_edges.len() {
                        assert(edges@[j1] == old_edges[j1]);
                        assert(old_visited.contains(old_edges[j1].to@));
                        let k2 = j2 - old_edges.len();
                        assert(edges@[old_edges.len() + k2].to@ == fv);
                        assert(!old_visited.contains(fv));
                    }
                    if j1 >= old_edges.len() && j2 >= old_edges.len() {
                        let k1 = j1 - old_edges.len();
                        let k2 = j2 - old_edges.len();
                        assert((edges@[old_edges.len() + k1].from)@ == cons_dv[k1]);
                        assert((edges@[old_edges.len() + k2].from)@ == cons_dv[k2]);
                    }
                }
            }
        } else {
            proof {
                assert(visited.deep_view().contains(fv));
                assert forall|p: Seq<char>| seeds.contains(p) implies visited.deep_view().contains(
                    p,
                ) || stack.deep_view().contains(p) by {
                    if old_stack.contains(p) && !visited.deep_view().contains(p) {
                        let j = choose|j: int| 0 <= j < old_stack.len() && old_stack[j] == p;
                        if j == old_stack.len() - 1 {
                            assert(p == fv);
                        } else {
                            assert(stack.deep_view()[j] == p);
                        }
                    }
                }
                assert forall|v: Seq<char>, c: Seq<char>|
                    visited.deep_view().contains(v) && #[trigger] has_edge(g, v, c)
                    implies visited.deep_view().contains(c) || stack.deep_view().contains(c) by {
                    if !visited.deep_view().contains(c) {
                        assert(old_stack.contains(c));
                        let j = choose|j: int| 0 <= j < old_stack.len() && old_stack[j] == c;
                        if j == old_stack.len() - 1 {
                            assert(c == fv);
                        } else {
                            assert(stack.deep_view()[j] == c);
                        }
                    }
                }
            }
        }
    }
    proof {
        broadcast use vstd::set::group_set_axioms;

        let vset = visited.deep_view().to_set();
        assert(seeds.subset_of(vset)) by {
            assert forall|p: Seq<char>| seeds.contains(p) implies vset.contains(p) by {
                assert(visited.deep_view().contains(p));
            }
        }
        assert(closed_under_edges(g, vset)) by {
            assert forall|v: Seq<char>, c: Seq<char>|
                vset.contains(v) && #[trigger] has_edge(g, v, c) implies vset.contains(c) by {
                assert(visited.deep_view().contains(v));
                assert(!stack.deep_view().contains(c)) by {
                    assert(stack.deep_view().len() == 0);
                }
            }
        }
        lemma_closed_contains_impact(g, seeds, vset);
        assert(vset =~= impact(g, seeds));
        assert forall|i: int| 0 <= i < updated_files.len() implies visited.deep_view().contains(
            updated_files.deep_view()[i],
        ) by {
            assert(seeds.contains(updated_files.deep_view()[i]));
        }
    }
    (visited, edges)
}

} // verus!
