//! The dependency resolver: turns the declared dependency set into a
//! concrete, deterministically ordered list of resolved dependencies, each
//! carrying the source files and the directories it contributes.
//!
//! Retrieval strategies are not implemented yet: fetching succeeds without
//! work and every dependency contributes empty lists, which the contracts
//! state, so that the orchestration above can already be held to them.

use vstd::prelude::*;
use vstd::relations::sorted_by;

use crate::manifest::{
    lemma_sort_deps_ensures, sort_dependencies, spec_dep_le, spec_dep_name, spec_sort_deps,
    Dependency, DependencyV,
};
use crate::text::{lemma_str_le_total_ordering, spec_str_le};

verus! {

pub struct DependencyManager;

/// A declaration together with what it contributes after retrieval.
pub struct ResolvedDependency {
    pub declaration: Dependency,
    pub sources: Vec<String>,
    pub dirs: Vec<String>,
}

#[verifier::ext_equal]
pub struct ResolvedDependencyV {
    pub declaration: DependencyV,
    pub sources: Seq<Seq<char>>,
    pub dirs: Seq<Seq<char>>,
}

impl View for ResolvedDependency {
    type V = ResolvedDependencyV;

    open spec fn view(&self) -> ResolvedDependencyV {
        ResolvedDependencyV {
            declaration: self.declaration@,
            sources: self.sources@.map_values(|s: String| s@),
            dirs: self.dirs@.map_values(|s: String| s@),
        }
    }
}

impl DependencyManager {
    pub fn new() -> (r: Result<DependencyManager, String>)
        ensures
            r is Ok,
    {
        Ok(DependencyManager)
    }

    /// Retrieval of every declared dependency. No retrieval strategy is
    /// wired up yet, so there is nothing to do and fetching always succeeds.
    pub fn fetch(&self, dependencies: &[Dependency]) -> (r: Result<(), String>)
        ensures
            r is Ok,
    {
        Ok(())
    }

    /// The source files a retrieved dependency contributes; none yet.
    pub fn get_sources(&self, dependency_name: &str) -> (r: Vec<String>)
        ensures
            r@.len() == 0,
    {
        Vec::new()
    }

    /// The directories a retrieved dependency contributes; none yet.
    pub fn get_includes(&self, dependency_name: &str) -> (r: Vec<String>)
        ensures
            r@.len() == 0,
    {
        Vec::new()
    }

    /// The resolved dependency set: the declarations in canonical
    /// (name-sorted) order, each with its contributed lists.
    pub fn resolve(&self, dependencies: &[Dependency]) -> (r: Vec<ResolvedDependency>)
        ensures
            r@.map_values(|d: ResolvedDependency| d@.declaration) == spec_sort_deps(
                dependencies@.map_values(|d: Dependency| d@),
            ),
            forall|i: int|
                0 <= i < r@.len() ==> (#[trigger] r@[i])@.sources.len() == 0 && r@[i]@.dirs.len()
                    == 0,
    {
        let ghost dv = dependencies@.map_values(|d: Dependency| d@);
        let mut declared: Vec<Dependency> = Vec::new();
        let mut k: usize = 0;
        proof {
            assert(declared@.map_values(|d: Dependency| d@) =~= dv.take(0));
        }
        while k < dependencies.len()
            invariant
                k <= dependencies@.len(),
                dv == dependencies@.map_values(|d: Dependency| d@),
                declared@.map_values(|d: Dependency| d@) == dv.take(k as int),
            decreases dependencies@.len() - k,
        {
            let ghost acc = declared@.map_values(|d: Dependency| d@);
            declared.push(dependencies[k].clone());
            proof {
                assert(dv[k as int] == dependencies@[k as int]@);
                assert(declared@.map_values(|d: Dependency| d@) =~= acc.push(dv[k as int]));
                assert(dv.take(k + 1) =~= dv.take(k as int).push(dv[k as int]));
            }
            k = k + 1;
        }
        proof {
            assert(dv.take(dependencies@.len() as int) =~= dv);
        }
        let sorted = sort_dependencies(declared);
        let ghost sv = sorted@.map_values(|d: Dependency| d@);
        let mut out: Vec<ResolvedDependency> = Vec::new();
        let mut i: usize = 0;
        proof {
            assert(out@.map_values(|d: ResolvedDependency| d@.declaration) =~= sv.take(0));
        }
        while i < sorted.len()
            invariant
                i <= sorted.len(),
                sv == sorted@.map_values(|d: Dependency| d@),
                sv == spec_sort_deps(dv),
                out@.map_values(|d: ResolvedDependency| d@.declaration) == sv.take(i as int),
                forall|j: int|
                    0 <= j < out@.len() ==> (#[trigger] out@[j])@.sources.len() == 0
                        && out@[j]@.dirs.len() == 0,
            decreases sorted.len() - i,
        {
            let ghost acc = out@.map_values(|d: ResolvedDependency| d@.declaration);
            let declaration = sorted[i].clone();
            let name = declaration.name();
            let sources = self.get_sources(name.as_str());
            let dirs = self.get_includes(name.as_str());
            out.push(ResolvedDependency { declaration, sources, dirs });
            proof {
                assert(sv[i as int] == sorted@[i as int]@);
                assert(out@.map_values(|d: ResolvedDependency| d@.declaration) =~= acc.push(
                    out@.last()@.declaration,
                ));
                assert(sv.take(i + 1) =~= sv.take(i as int).push(sv[i as int]));
            }
            i = i + 1;
        }
        proof {
            assert(sv.take(sorted@.len() as int) =~= sv);
        }
        out
    }
}

// ---------------------------------------------------------------------------
// Determinism of the resolved order.
// ---------------------------------------------------------------------------

pub open spec fn spec_dep_names(deps: Seq<DependencyV>) -> Seq<Seq<char>> {
    deps.map_values(|d: DependencyV| spec_dep_name(d))
}

/// Mapping a function over two sequences with equal multisets gives equal
/// multisets again.
proof fn lemma_map_multiset<A, B>(s1: Seq<A>, s2: Seq<A>, f: spec_fn(A) -> B)
    requires
        s1.to_multiset() == s2.to_multiset(),
    ensures
        s1.map_values(f).to_multiset() == s2.map_values(f).to_multiset(),
    decreases s1.len(),
{
    broadcast use vstd::seq_lib::group_to_multiset_ensures;
    broadcast use vstd::multiset::group_multiset_axioms;

    if s1.len() == 0 {
        assert(s2.to_multiset().len() == 0);
        assert(s2.len() == 0);
        assert(s1.map_values(f) =~= s2.map_values(f));
    } else {
        let x = s1[0];
        assert(s1.to_multiset().contains(x));
        assert(s2.to_multiset().contains(x));
        assert(s2.contains(x));
        let j = choose|j: int| 0 <= j < s2.len() && s2[j] == x;
        assert(s1.remove(0).to_multiset() == s1.to_multiset().remove(x)) by {
            vstd::seq_lib::to_multiset_remove(s1, 0);
        }
        assert(s2.remove(j).to_multiset() == s2.to_multiset().remove(x)) by {
            vstd::seq_lib::to_multiset_remove(s2, j);
        }
        lemma_map_multiset(s1.remove(0), s2.remove(j), f);
        assert(s1.map_values(f).remove(0) =~= s1.remove(0).map_values(f));
        assert(s2.map_values(f).remove(j) =~= s2.remove(j).map_values(f));
        assert(s1.map_values(f).remove(0).to_multiset() == s1.map_values(f).to_multiset().remove(
            f(x),
        )) by {
            vstd::seq_lib::to_multiset_remove(s1.map_values(f), 0);
        }
        assert(s2.map_values(f).remove(j).to_multiset() == s2.map_values(f).to_multiset().remove(
            f(x),
        )) by {
            vstd::seq_lib::to_multiset_remove(s2.map_values(f), j);
        }
        assert(s1.map_values(f).to_multiset().contains(f(x))) by {
            assert(s1.map_values(f)[0] == f(x));
            assert(s1.map_values(f).contains(f(x)));
        }
        assert(s2.map_values(f).to_multiset().contains(f(x))) by {
            assert(s2.map_values(f)[j] == f(x));
            assert(s2.map_values(f).contains(f(x)));
        }
        assert(s1.map_values(f).to_multiset() =~= s1.map_values(f).to_multiset().remove(
            f(x),
        ).insert(f(x)));
        assert(s2.map_values(f).to_multiset() =~= s2.map_values(f).to_multiset().remove(
            f(x),
        ).insert(f(x)));
    }
}

/// The canonical order lines the names up sorted.
pub proof fn lemma_sorted_names(deps: Seq<DependencyV>)
    ensures
        sorted_by(
            spec_dep_names(spec_sort_deps(deps)),
            |a: Seq<char>, b: Seq<char>| spec_str_le(a, b),
        ),
    decreases deps.len(),
{
    lemma_sort_deps_ensures(deps);
    let sorted = spec_sort_deps(deps);
    let names = spec_dep_names(sorted);
    let dleq = |a: DependencyV, b: DependencyV| spec_dep_le(a, b);
    let leq = |a: Seq<char>, b: Seq<char>| spec_str_le(a, b);
    assert(sorted_by(sorted, dleq));
    assert forall|i: int, j: int| 0 <= i < j < names.len() implies leq(names[i], names[j]) by {
        assert(dleq(sorted[i], sorted[j]));
        assert(names[i] == spec_dep_name(sorted[i]));
        assert(names[j] == spec_dep_name(sorted[j]));
    }
}

/// No two declarations share a name.
pub open spec fn spec_dep_names_unique(s: Seq<DependencyV>) -> bool {
    forall|i: int, j: int|
        0 <= i < j < s.len() ==> spec_dep_name(#[trigger] s[i]) != spec_dep_name(
            #[trigger] s[j],
        )
}

/// Name uniqueness is a property of which declarations there are, not of
/// their order.
proof fn lemma_names_unique_permutation(a: Seq<DependencyV>, b: Seq<DependencyV>)
    requires
        a.to_multiset() == b.to_multiset(),
        spec_dep_names_unique(a),
    ensures
        spec_dep_names_unique(b),
{
    broadcast use vstd::seq_lib::group_to_multiset_ensures;
    broadcast use vstd::multiset::group_multiset_axioms;

    assert forall|i: int, j: int|
        0 <= i < j < b.len() implies spec_dep_name(#[trigger] b[i]) != spec_dep_name(
        #[trigger] b[j],
    ) by {
        if spec_dep_name(b[i]) == spec_dep_name(b[j]) {
            if b[i] != b[j] {
                assert(b.to_multiset().contains(b[i]));
                assert(a.contains(b[i]));
                assert(b.to_multiset().contains(b[j]));
                assert(a.contains(b[j]));
                let ia = choose|ia: int| 0 <= ia < a.len() && a[ia] == b[i];
                let ja = choose|ja: int| 0 <= ja < a.len() && a[ja] == b[j];
                assert(ia != ja);
                assert(false);
            } else {
                // the same declaration would have to appear twice
                let b2 = b.remove(j);
                assert(b2.to_multiset() == b.to_multiset().remove(b[j])) by {
                    vstd::seq_lib::to_multiset_remove(b, j);
                }
                assert(b2[i] == b[i]);
                assert(b2.contains(b[i]));
                assert(b2.to_multiset().contains(b[i]));
                assert(a.to_multiset().remove(b[i]).contains(b[i]));
                let ia = choose|ia: int| 0 <= ia < a.len() && a[ia] == b[i];
                let a2 = a.remove(ia);
                assert(a2.to_multiset() == a.to_multiset().remove(b[i])) by {
                    vstd::seq_lib::to_multiset_remove(a, ia);
                }
                assert(a2.to_multiset().contains(b[i]));
                assert(a2.contains(b[i]));
                let ka = choose|ka: int| 0 <= ka < a2.len() && a2[ka] == b[i];
                if ka < ia {
                    assert(a[ka] == a2[ka]);
                    assert(spec_dep_name(a[ka]) != spec_dep_name(a[ia]));
                } else {
                    assert(a[ka + 1] == a2[ka]);
                    assert(spec_dep_name(a[ka + 1]) != spec_dep_name(a[ia]));
                }
                assert(false);
            }
        }
    }
}

/// Two name-sorted sequences holding the same declarations, names unique,
/// are the same sequence.
proof fn lemma_sorted_deps_unique(x: Seq<DependencyV>, y: Seq<DependencyV>)
    requires
        sorted_by(x, |a: DependencyV, b: DependencyV| spec_dep_le(a, b)),
        sorted_by(y, |a: DependencyV, b: DependencyV| spec_dep_le(a, b)),
        x.to_multiset() == y.to_multiset(),
        spec_dep_names_unique(x),
    ensures
        x == y,
    decreases x.len(),
{
    broadcast use vstd::seq_lib::group_to_multiset_ensures;
    broadcast use vstd::multiset::group_multiset_axioms;

    let dleq = |a: DependencyV, b: DependencyV| spec_dep_le(a, b);
    if x.len() == 0 {
        assert(y.to_multiset().len() == 0);
        assert(y.len() == 0);
        assert(x =~= y);
    } else {
        assert(x.to_multiset().contains(x[0]));
        assert(y.to_multiset().contains(x[0]));
        assert(y.contains(x[0]));
        let j = choose|j: int| 0 <= j < y.len() && y[j] == x[0];
        assert(x.to_multiset().contains(y[0]));
        assert(x.contains(y[0]));
        let i = choose|i: int| 0 <= i < x.len() && x[i] == y[0];
        if j > 0 {
            assert(dleq(y[0], y[j]));
        }
        if i > 0 {
            assert(dleq(x[0], x[i]));
        }
        crate::text::lemma_str_le_total(spec_dep_name(x[0]), spec_dep_name(y[0]));
        crate::text::lemma_str_le_antisymmetric(spec_dep_name(x[0]), spec_dep_name(y[0]));
        // with equal names, uniqueness makes them the same declaration
        assert(spec_dep_name(x[i]) == spec_dep_name(x[0]));
        if i != 0 {
            assert(spec_dep_name(x[0]) != spec_dep_name(x[i]));
        }
        assert(y[0] == x[0]);
        assert(x.drop_first().to_multiset() == x.to_multiset().remove(x[0])) by {
            vstd::seq_lib::to_multiset_remove(x, 0);
            assert(x.remove(0) =~= x.drop_first());
        }
        assert(y.drop_first().to_multiset() == y.to_multiset().remove(y[0])) by {
            vstd::seq_lib::to_multiset_remove(y, 0);
            assert(y.remove(0) =~= y.drop_first());
        }
        assert(sorted_by(x.drop_first(), dleq)) by {
            assert forall|p: int, q: int|
                0 <= p < q < x.drop_first().len() implies dleq(
                x.drop_first()[p],
                x.drop_first()[q],
            ) by {
                assert(dleq(x[p + 1], x[q + 1]));
            }
        }
        assert(sorted_by(y.drop_first(), dleq)) by {
            assert forall|p: int, q: int|
                0 <= p < q < y.drop_first().len() implies dleq(
                y.drop_first()[p],
                y.drop_first()[q],
            ) by {
                assert(dleq(y[p + 1], y[q + 1]));
            }
        }
        assert(spec_dep_names_unique(x.drop_first())) by {
            assert forall|p: int, q: int|
                0 <= p < q < x.drop_first().len() implies spec_dep_name(
                #[trigger] x.drop_first()[p],
            ) != spec_dep_name(#[trigger] x.drop_first()[q]) by {
                assert(x.drop_first()[p] == x[p + 1]);
                assert(x.drop_first()[q] == x[q + 1]);
            }
        }
        lemma_sorted_deps_unique(x.drop_first(), y.drop_first());
        assert(x =~= seq![x[0]] + x.drop_first());
        assert(y =~= seq![y[0]] + y.drop_first());
        assert(x =~= y);
    }
}

/// The canonical order erases declaration order entirely: two declaration
/// sets holding the same dependencies, names unique, sort to the same list —
/// so neither key order in the manifest nor retrieval order can change the
/// resolved set.
pub proof fn lemma_sort_deps_of_permutation(d1: Seq<DependencyV>, d2: Seq<DependencyV>)
    requires
        d1.to_multiset() == d2.to_multiset(),
        spec_dep_names_unique(d1),
    ensures
        spec_sort_deps(d1) == spec_sort_deps(d2),
{
    lemma_sort_deps_ensures(d1);
    lemma_sort_deps_ensures(d2);
    lemma_names_unique_permutation(d1, spec_sort_deps(d1));
    lemma_sorted_deps_unique(spec_sort_deps(d1), spec_sort_deps(d2));
}

/// The resolved order is a deterministic function of the declared names
/// alone: any two declaration sets with the same names, in whatever order
/// they were declared or retrieved, resolve to the same name sequence.
pub proof fn lemma_resolve_order_deterministic(d1: Seq<DependencyV>, d2: Seq<DependencyV>)
    requires
        d1.to_multiset() == d2.to_multiset(),
    ensures
        spec_dep_names(spec_sort_deps(d1)) == spec_dep_names(spec_sort_deps(d2)),
{
    lemma_sort_deps_ensures(d1);
    lemma_sort_deps_ensures(d2);
    lemma_sorted_names(d1);
    lemma_sorted_names(d2);
    let f = |d: DependencyV| spec_dep_name(d);
    lemma_map_multiset(spec_sort_deps(d1), d1, f);
    lemma_map_multiset(spec_sort_deps(d2), d2, f);
    lemma_map_multiset(d1, d2, f);
    lemma_str_le_total_ordering();
    vstd::seq_lib::lemma_sorted_unique(
        spec_dep_names(spec_sort_deps(d1)),
        spec_dep_names(spec_sort_deps(d2)),
        |a: Seq<char>, b: Seq<char>| spec_str_le(a, b),
    );
}

} // verus!
