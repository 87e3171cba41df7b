//! The manifest model: the parsed, validated project description, its
//! semantic content hash, and the canonical (name-sorted) dependency order.

use vstd::prelude::*;
use vstd::relations::sorted_by;

use crate::document::{
    spec_trim, DocScalar, DocValue, ScalarV, SectionV, ValueV,
};
use crate::hashing::{sha256, sha256_of};
use crate::text::{spec_str_le, str_le, lemma_str_le_total, lemma_str_le_transitive};

verus! {

// ---------------------------------------------------------------------------
// Data model and views.
// ---------------------------------------------------------------------------

/// The edition tag, a closed enumeration with a single variant so far.
#[derive(Debug, PartialEq, Eq, Structural, Clone, Copy)]
pub enum Edition {
    Edition2025_1,
}

/// What kind of artifact the package builds.
#[derive(Debug, PartialEq, Eq, Structural, Clone, Copy)]
pub enum PackageType {
    Binary,
    Library,
    SDK,
}

/// One declared dependency, tagged by where it comes from: a registry
/// package, a source-control checkout, or a local path (kept as the absolute
/// path computed against the working directory at parse time).
#[derive(Debug, PartialEq)]
pub enum Dependency {
    Package { name: String, version: String },
    Git { name: String, repo: String, version: Option<String>, revision: Option<String> },
    Local { name: String, path: String },
}

impl Clone for Dependency {
    /// A clone carries the same view, which the derived impl would not let
    /// the verifier see.
    fn clone(&self) -> (r: Self)
        ensures
            r@ == self@,
    {
        match self {
            Dependency::Package { name, version } => Dependency::Package {
                name: name.clone(),
                version: version.clone(),
            },
            Dependency::Git { name, repo, version, revision } => Dependency::Git {
                name: name.clone(),
                repo: repo.clone(),
                version: match version {
                    Some(v) => Some(v.clone()),
                    None => None,
                },
                revision: match revision {
                    Some(v) => Some(v.clone()),
                    None => None,
                },
            },
            Dependency::Local { name, path } => Dependency::Local {
                name: name.clone(),
                path: path.clone(),
            },
        }
    }
}

#[verifier::ext_equal]
pub enum DependencyV {
    Package { name: Seq<char>, version: Seq<char> },
    Git { name: Seq<char>, repo: Seq<char>, version: Option<Seq<char>>, revision: Option<
        Seq<char>,
    > },
    Local { name: Seq<char>, path: Seq<char> },
}

impl View for Dependency {
    type V = DependencyV;

    open spec fn view(&self) -> DependencyV {
        match self {
            Dependency::Package { name, version } => DependencyV::Package {
                name: name@,
                version: version@,
            },
            Dependency::Git { name, repo, version, revision } => DependencyV::Git {
                name: name@,
                repo: repo@,
                version: match version {
                    Some(v) => Some(v@),
                    None => None,
                },
                revision: match revision {
                    Some(v) => Some(v@),
                    None => None,
                },
            },
            Dependency::Local { name, path } => DependencyV::Local { name: name@, path: path@ },
        }
    }
}

pub open spec fn spec_dep_name(d: DependencyV) -> Seq<char> {
    match d {
        DependencyV::Package { name, .. } => name,
        DependencyV::Git { name, .. } => name,
        DependencyV::Local { name, .. } => name,
    }
}

/// The parsed, validated project description; immutable once constructed.
#[derive(Debug, PartialEq, Clone)]
pub struct Manifest {
    name: String,
    version: String,
    edition: Edition,
    package_type: PackageType,
    dependencies: Vec<Dependency>,
    src: Vec<String>,
    includes: Vec<String>,
}

#[verifier::ext_equal]
pub struct ManifestV {
    pub name: Seq<char>,
    pub version: Seq<char>,
    pub edition: Edition,
    pub package_type: PackageType,
    pub dependencies: Seq<DependencyV>,
    pub src: Seq<Seq<char>>,
    pub includes: Seq<Seq<char>>,
}

impl View for Manifest {
    type V = ManifestV;

    closed spec fn view(&self) -> ManifestV {
        ManifestV {
            name: self.name@,
            version: self.version@,
            edition: self.edition,
            package_type: self.package_type,
            dependencies: self.dependencies@.map_values(|d: Dependency| d@),
            src: self.src@.map_values(|s: String| s@),
            includes: self.includes@.map_values(|s: String| s@),
        }
    }
}

impl Dependency {
    /// The declared name of the dependency, whichever variant it is.
    pub fn name(&self) -> (r: String)
        ensures
            r@ == spec_dep_name(self@),
    {
        match self {
            Dependency::Package { name, .. } => name.clone(),
            Dependency::Git { name, .. } => name.clone(),
            Dependency::Local { name, .. } => name.clone(),
        }
    }
}

impl Manifest {
    /// A manifest assembled from already-validated parts; used by tests and
    /// by callers that do not go through a manifest document.
    pub fn new(
        name: String,
        version: String,
        edition: Edition,
        package_type: PackageType,
        dependencies: Vec<Dependency>,
        src: Vec<String>,
        includes: Vec<String>,
    ) -> (r: Manifest)
        ensures
            r@ == (ManifestV {
                name: name@,
                version: version@,
                edition: edition,
                package_type: package_type,
                dependencies: dependencies@.map_values(|d: Dependency| d@),
                src: src@.map_values(|s: String| s@),
                includes: includes@.map_values(|s: String| s@),
            }),
    {
        Manifest { name, version, edition, package_type, dependencies, src, includes }
    }

    pub fn dependencies(&self) -> (r: &[Dependency])
        ensures
            r@.map_values(|d: Dependency| d@) == self@.dependencies,
    {
        self.dependencies.as_slice()
    }

    pub fn name(&self) -> (r: &str)
        ensures
            r@ == self@.name,
    {
        self.name.as_str()
    }

    pub fn package_type(&self) -> (r: PackageType)
        ensures
            r == self@.package_type,
    {
        self.package_type
    }

    pub fn src(&self) -> (r: &[String])
        ensures
            r@.map_values(|s: String| s@) == self@.src,
    {
        self.src.as_slice()
    }

    pub fn includes(&self) -> (r: &[String])
        ensures
            r@.map_values(|s: String| s@) == self@.includes,
    {
        self.includes.as_slice()
    }
}

// ---------------------------------------------------------------------------
// Package names.
// ---------------------------------------------------------------------------

pub open spec fn spec_ident_start(c: char) -> bool {
    c == '_' || ('a' as int <= c as int && c as int <= 'z' as int) || ('A' as int <= c as int
        && c as int <= 'Z' as int)
}

/// A package name is valid when it is non-empty and starts with a letter or
/// an underscore, as the identifier pattern `^[_a-zA-Z][_a-zA-Z0-9]*`
/// requires of an (unanchored) match.
pub open spec fn spec_valid_name(n: Seq<char>) -> bool {
    n.len() > 0 && spec_ident_start(n[0])
}

pub fn is_package_name_valid(package_name: &str) -> (r: bool)
    ensures
        r == spec_valid_name(package_name@),
{
    let len = package_name.unicode_len();
    if len == 0 {
        return false;
    }
    let c = package_name.get_char(0);
    let x = c as u32;
    c == '_' || (97 <= x && x <= 122) || (65 <= x && x <= 90)
}

// ---------------------------------------------------------------------------
// The canonical dependency order: insertion sort by name.
// ---------------------------------------------------------------------------

pub open spec fn spec_dep_le(a: DependencyV, b: DependencyV) -> bool {
    spec_str_le(spec_dep_name(a), spec_dep_name(b))
}

/// Insertion of one dependency in front of the first element it is
/// less-than-or-equal to.
pub open spec fn spec_insert_dep(d: DependencyV, s: Seq<DependencyV>) -> Seq<DependencyV>
    decreases s.len(),
{
    if s.len() == 0 {
        seq![d]
    } else if spec_dep_le(d, s[0]) {
        seq![d] + s
    } else {
        seq![s[0]] + spec_insert_dep(d, s.drop_first())
    }
}

/// The canonical order: insertion sort, processing declarations from last to
/// first, so that the earliest declaration of equal names comes out first.
pub open spec fn spec_sort_deps(s: Seq<DependencyV>) -> Seq<DependencyV>
    decreases s.len(),
{
    if s.len() == 0 {
        Seq::empty()
    } else {
        spec_insert_dep(s.last(), spec_sort_deps(s.drop_last()))
    }
}

proof fn lemma_insert_dep_sorted(d: DependencyV, s: Seq<DependencyV>)
    requires
        sorted_by(s, |a: DependencyV, b: DependencyV| spec_dep_le(a, b)),
    ensures
        sorted_by(spec_insert_dep(d, s), |a: DependencyV, b: DependencyV| spec_dep_le(a, b)),
    decreases s.len(),
{
    let leq = |a: DependencyV, b: DependencyV| spec_dep_le(a, b);
    if s.len() == 0 {
    } else if spec_dep_le(d, s[0]) {
        let r = seq![d] + s;
        assert forall|i: int, j: int| 0 <= i < j < r.len() implies leq(r[i], r[j]) by {
            if i == 0 {
                if j > 1 {
                    assert(leq(s[0], s[j - 1]));
                    lemma_str_le_transitive(
                        spec_dep_name(d),
                        spec_dep_name(s[0]),
                        spec_dep_name(s[j - 1]),
                    );
                }
            } else {
                assert(leq(s[i - 1], s[j - 1]));
            }
        }
    } else {
        assert(sorted_by(s.drop_first(), leq)) by {
            assert forall|i: int, j: int|
                0 <= i < j < s.drop_first().len() implies leq(
                s.drop_first()[i],
                s.drop_first()[j],
            ) by {
                assert(leq(s[i + 1], s[j + 1]));
            }
        }
        lemma_insert_dep_sorted(d, s.drop_first());
        let t = spec_insert_dep(d, s.drop_first());
        let r = seq![s[0]] + t;
        lemma_insert_dep_elems(d, s.drop_first());
        assert forall|i: int, j: int| 0 <= i < j < r.len() implies leq(r[i], r[j]) by {
            if i == 0 {
                // r[j] is either d or an element of s.drop_first()
                let x = t[j - 1];
                if x == d {
                    lemma_str_le_total(spec_dep_name(d), spec_dep_name(s[0]));
                } else {
                    let k = choose|k: int| 0 <= k < s.drop_first().len() && s.drop_first()[k]
                        == x;
                    assert(leq(s[0], s[k + 1]));
                }
            } else {
                assert(leq(t[i - 1], t[j - 1]));
            }
        }
    }
}

/// Every element of an insertion result is the inserted element or one of
/// the old ones.
proof fn lemma_insert_dep_elems(d: DependencyV, s: Seq<DependencyV>)
    ensures
        spec_insert_dep(d, s).len() == s.len() + 1,
        forall|j: int|
            0 <= j < spec_insert_dep(d, s).len() ==> (spec_insert_dep(d, s)[j] == d || exists|
                k: int,
            | 0 <= k < s.len() && s[k] == spec_insert_dep(d, s)[j]),
    decreases s.len(),
{
    if s.len() == 0 {
    } else if spec_dep_le(d, s[0]) {
    } else {
        lemma_insert_dep_elems(d, s.drop_first());
        let r = spec_insert_dep(d, s);
        let t = spec_insert_dep(d, s.drop_first());
        assert forall|j: int| 0 <= j < r.len() implies (r[j] == d || exists|k: int|
            0 <= k < s.len() && s[k] == r[j]) by {
            if j == 0 {
                assert(s[0] == r[0]);
            } else {
                let x = t[j - 1];
                assert(r[j] == x);
                if x != d {
                    let k = choose|k: int| 0 <= k < s.drop_first().len() && s.drop_first()[k]
                        == x;
                    assert(s[k + 1] == x);
                }
            }
        }
    }
}

proof fn lemma_insert_dep_multiset(d: DependencyV, s: Seq<DependencyV>)
    ensures
        spec_insert_dep(d, s).to_multiset() == s.to_multiset().insert(d),
    decreases s.len(),
{
    broadcast use vstd::seq_lib::group_to_multiset_ensures;
    broadcast use vstd::multiset::group_multiset_axioms;

    if s.len() == 0 {
        assert(s =~= Seq::<DependencyV>::empty());
        assert(seq![d] =~= Seq::<DependencyV>::empty().insert(0, d));
        vstd::seq_lib::to_multiset_insert(Seq::<DependencyV>::empty(), 0, d);
    } else if spec_dep_le(d, s[0]) {
        assert(seq![d] + s =~= s.insert(0, d));
        vstd::seq_lib::to_multiset_insert(s, 0, d);
    } else {
        lemma_insert_dep_multiset(d, s.drop_first());
        let t = spec_insert_dep(d, s.drop_first());
        assert(seq![s[0]] + t =~= t.insert(0, s[0]));
        vstd::seq_lib::to_multiset_insert(t, 0, s[0]);
        assert(s =~= s.drop_first().insert(0, s[0]));
        vstd::seq_lib::to_multiset_insert(s.drop_first(), 0, s[0]);
        assert(s.drop_first().to_multiset().insert(d).insert(s[0])
            =~= s.drop_first().to_multiset().insert(s[0]).insert(d));
    }
}

/// The canonical order is sorted and is a permutation of the declarations.
pub proof fn lemma_sort_deps_ensures(s: Seq<DependencyV>)
    ensures
        sorted_by(spec_sort_deps(s), |a: DependencyV, b: DependencyV| spec_dep_le(a, b)),
        spec_sort_deps(s).to_multiset() == s.to_multiset(),
        spec_sort_deps(s).len() == s.len(),
    decreases s.len(),
{
    broadcast use vstd::seq_lib::group_to_multiset_ensures;
    broadcast use vstd::multiset::group_multiset_axioms;

    let leq = |a: DependencyV, b: DependencyV| spec_dep_le(a, b);
    if s.len() == 0 {
        assert(sorted_by(Seq::<DependencyV>::empty(), leq));
    } else {
        lemma_sort_deps_ensures(s.drop_last());
        lemma_insert_dep_sorted(s.last(), spec_sort_deps(s.drop_last()));
        lemma_insert_dep_multiset(s.last(), spec_sort_deps(s.drop_last()));
        lemma_insert_dep_elems(s.last(), spec_sort_deps(s.drop_last()));
        assert(s =~= s.drop_last().push(s.last()));
        assert(s.to_multiset() =~= s.drop_last().to_multiset().insert(s.last()));
    }
}

proof fn lemma_insert_dep_at(d: DependencyV, s: Seq<DependencyV>, j: int)
    requires
        0 <= j <= s.len(),
        forall|k: int| 0 <= k < j ==> !spec_dep_le(d, s[k]),
        j < s.len() ==> spec_dep_le(d, s[j]),
    ensures
        spec_insert_dep(d, s) == s.take(j) + seq![d] + s.skip(j),
    decreases j,
{
    if j == 0 {
        if s.len() == 0 {
            assert(spec_insert_dep(d, s) =~= s.take(0) + seq![d] + s.skip(0));
        } else {
            assert(s.take(0) + seq![d] + s.skip(0) =~= seq![d] + s);
        }
    } else {
        assert(!spec_dep_le(d, s[0]));
        assert forall|k: int| 0 <= k < j - 1 implies !spec_dep_le(d, s.drop_first()[k]) by {
            assert(s.drop_first()[k] == s[k + 1]);
        }
        lemma_insert_dep_at(d, s.drop_first(), j - 1);
        assert(seq![s[0]] + (s.drop_first().take(j - 1) + seq![d] + s.drop_first().skip(j - 1))
            =~= s.take(j) + seq![d] + s.skip(j));
    }
}

/// One step of the executable insertion sort.
fn insert_dep(deps: &mut Vec<Dependency>, d: Dependency)
    ensures
        final(deps)@.map_values(|x: Dependency| x@) == spec_insert_dep(
            d@,
            old(deps)@.map_values(|x: Dependency| x@),
        ),
{
    let ghost sv = deps@.map_values(|x: Dependency| x@);
    let dn = d.name();
    let mut j: usize = 0;
    while j < deps.len() && !str_le(dn.as_str(), deps[j].name().as_str())
        invariant
            j <= deps.len(),
            dn@ == spec_dep_name(d@),
            sv == deps@.map_values(|x: Dependency| x@),
            forall|k: int| 0 <= k < j ==> !spec_dep_le(d@, sv[k]),
        decreases deps.len() - j,
    {
        proof {
            assert(sv[j as int] == deps@[j as int]@);
        }
        j = j + 1;
    }
    proof {
        assert(j < deps.len() ==> sv[j as int] == deps@[j as int]@);
        lemma_insert_dep_at(d@, sv, j as int);
    }
    deps.insert(j, d);
    proof {
        assert(deps@.map_values(|x: Dependency| x@) =~= sv.take(j as int) + seq![d@] + sv.skip(
            j as int,
        ));
    }
}

/// Sorts the declarations into the canonical order.
pub fn sort_dependencies(deps: Vec<Dependency>) -> (r: Vec<Dependency>)
    ensures
        r@.map_values(|x: Dependency| x@) == spec_sort_deps(
            deps@.map_values(|x: Dependency| x@),
        ),
    decreases deps@.len(),
{
    let ghost dv = deps@.map_values(|x: Dependency| x@);
    let mut deps = deps;
    match deps.pop() {
        None => {
            proof {
                assert(dv =~= Seq::<DependencyV>::empty());
                assert(deps@.map_values(|x: Dependency| x@) =~= Seq::<DependencyV>::empty());
            }
            deps
        },
        Some(d) => {
            proof {
                assert(deps@.map_values(|x: Dependency| x@) =~= dv.drop_last());
                assert(d@ == dv.last());
            }
            let mut sorted = sort_dependencies(deps);
            insert_dep(&mut sorted, d);
            sorted
        },
    }
}

// ---------------------------------------------------------------------------
// The semantic content hash.
// ---------------------------------------------------------------------------

pub open spec fn spec_utf8(s: Seq<char>) -> Seq<u8> {
    vstd::utf8::encode_utf8(s)
}

pub open spec fn spec_opt_utf8(s: Option<Seq<char>>) -> Seq<u8> {
    match s {
        Some(t) => spec_utf8(t),
        None => Seq::empty(),
    }
}

/// The bytes fed into the digest for one dependency: its name and its
/// kind-specific fields, optional fields included only when present.
pub open spec fn spec_dep_hash_input(d: DependencyV) -> Seq<u8> {
    match d {
        DependencyV::Package { name, version } => spec_utf8(name) + spec_utf8(version),
        DependencyV::Git { name, repo, version, revision } => spec_utf8(name) + spec_utf8(repo)
            + spec_opt_utf8(version) + spec_opt_utf8(revision),
        DependencyV::Local { name, path } => spec_utf8(name) + spec_utf8(path),
    }
}

pub open spec fn spec_dep_hash(d: DependencyV) -> Seq<u8> {
    sha256_of(spec_dep_hash_input(d))
}

pub open spec fn spec_concat_dep_hashes(deps: Seq<DependencyV>) -> Seq<u8>
    decreases deps.len(),
{
    if deps.len() == 0 {
        Seq::empty()
    } else {
        spec_dep_hash(deps[0]) + spec_concat_dep_hashes(deps.drop_first())
    }
}

pub open spec fn spec_concat_utf8(ss: Seq<Seq<char>>) -> Seq<u8>
    decreases ss.len(),
{
    if ss.len() == 0 {
        Seq::empty()
    } else {
        spec_utf8(ss[0]) + spec_concat_utf8(ss.drop_first())
    }
}

pub open spec fn spec_edition_tag(e: Edition) -> u8 {
    match e {
        Edition::Edition2025_1 => 0,
    }
}

/// The bytes fed into the manifest digest, in their fixed order: name,
/// version, edition tag, each dependency's digest, every source pattern,
/// every includes pattern.
pub open spec fn spec_manifest_hash_input(m: ManifestV) -> Seq<u8> {
    spec_utf8(m.name) + spec_utf8(m.version) + seq![spec_edition_tag(m.edition)]
        + spec_concat_dep_hashes(m.dependencies) + spec_concat_utf8(m.src) + spec_concat_utf8(
        m.includes,
    )
}

/// The semantic content hash of a manifest: a pure function of the parsed
/// fields, independent of on-disk formatting and key order.
pub open spec fn spec_manifest_hash(m: ManifestV) -> Seq<u8> {
    sha256_of(spec_manifest_hash_input(m))
}

proof fn lemma_concat_dep_hashes_push(deps: Seq<DependencyV>, d: DependencyV)
    ensures
        spec_concat_dep_hashes(deps.push(d)) == spec_concat_dep_hashes(deps) + spec_dep_hash(d),
    decreases deps.len(),
{
    if deps.len() == 0 {
        assert(deps.push(d)[0] == d);
        assert(deps.push(d).drop_first() =~= Seq::<DependencyV>::empty());
        assert(spec_concat_dep_hashes(Seq::<DependencyV>::empty()) =~= Seq::<u8>::empty());
        assert(spec_concat_dep_hashes(deps.push(d)) =~= spec_concat_dep_hashes(deps)
            + spec_dep_hash(d));
    } else {
        assert(deps.push(d).drop_first() =~= deps.drop_first().push(d));
        lemma_concat_dep_hashes_push(deps.drop_first(), d);
        assert(spec_concat_dep_hashes(deps.push(d)) =~= spec_concat_dep_hashes(deps)
            + spec_dep_hash(d));
    }
}

proof fn lemma_concat_utf8_push(ss: Seq<Seq<char>>, s: Seq<char>)
    ensures
        spec_concat_utf8(ss.push(s)) == spec_concat_utf8(ss) + spec_utf8(s),
    decreases ss.len(),
{
    if ss.len() == 0 {
        assert(ss.push(s)[0] == s);
        assert(ss.push(s).drop_first() =~= Seq::<Seq<char>>::empty());
        assert(spec_concat_utf8(Seq::<Seq<char>>::empty()) =~= Seq::<u8>::empty());
        assert(spec_concat_utf8(ss.push(s)) =~= spec_concat_utf8(ss) + spec_utf8(s));
    } else {
        assert(ss.push(s).drop_first() =~= ss.drop_first().push(s));
        lemma_concat_utf8_push(ss.drop_first(), s);
        assert(spec_concat_utf8(ss.push(s)) =~= spec_concat_utf8(ss) + spec_utf8(s));
    }
}

fn append_str_bytes(out: &mut Vec<u8>, s: &str)
    ensures
        final(out)@ == old(out)@ + spec_utf8(s@),
{
    let mut b = s.as_bytes_vec();
    out.append(&mut b);
}

impl Dependency {
    /// The digest of one dependency's semantic fields.
    fn hash(&self) -> (r: Vec<u8>)
        ensures
            r@ == spec_dep_hash(self@),
            r@.len() == 32,
    {
        let mut input: Vec<u8> = Vec::new();
        proof {
            assert(input@ =~= Seq::<u8>::empty());
        }
        match self {
            Dependency::Package { name, version } => {
                append_str_bytes(&mut input, name.as_str());
                append_str_bytes(&mut input, version.as_str());
                proof {
                    assert(input@ =~= spec_dep_hash_input(self@));
                }
            },
            Dependency::Git { name, repo, version, revision } => {
                append_str_bytes(&mut input, name.as_str());
                append_str_bytes(&mut input, repo.as_str());
                match version {
                    Some(v) => append_str_bytes(&mut input, v.as_str()),
                    None => {},
                }
                match revision {
                    Some(v) => append_str_bytes(&mut input, v.as_str()),
                    None => {},
                }
                proof {
                    assert(input@ =~= spec_dep_hash_input(self@));
                }
            },
            Dependency::Local { name, path } => {
                append_str_bytes(&mut input, name.as_str());
                append_str_bytes(&mut input, path.as_str());
                proof {
                    assert(input@ =~= spec_dep_hash_input(self@));
                }
            },
        }
        sha256(input.as_slice())
    }
}

impl Manifest {
    /// The semantic content hash: name, version, edition tag, dependency
    /// digests, source patterns and includes patterns, in that fixed order,
    /// fed into one SHA-256 digest.
    pub fn hash(&self) -> (r: Vec<u8>)
        ensures
            r@ == spec_manifest_hash(self@),
            r@.len() == 32,
    {
        let ghost dv = self.dependencies@.map_values(|d: Dependency| d@);
        let ghost sv = self.src@.map_values(|s: String| s@);
        let ghost iv = self.includes@.map_values(|s: String| s@);
        let mut input: Vec<u8> = Vec::new();
        append_str_bytes(&mut input, self.name.as_str());
        append_str_bytes(&mut input, self.version.as_str());
        let tag: u8 = match self.edition {
            Edition::Edition2025_1 => 0,
        };
        input.push(tag);
        proof {
            assert(input@ =~= spec_utf8(self@.name) + spec_utf8(self@.version) + seq![
                spec_edition_tag(self@.edition),
            ]);
        }
        let ghost head = input@;
        let mut i: usize = 0;
        proof {
            assert(spec_concat_dep_hashes(dv.take(0)) =~= Seq::<u8>::empty());
            assert(input@ =~= head + spec_concat_dep_hashes(dv.take(0)));
        }
        while i < self.dependencies.len()
            invariant
                i <= self.dependencies.len(),
                dv == self.dependencies@.map_values(|d: Dependency| d@),
                input@ == head + spec_concat_dep_hashes(dv.take(i as int)),
            decreases self.dependencies.len() - i,
        {
            let mut h = self.dependencies[i].hash();
            input.append(&mut h);
            proof {
                assert(dv[i as int] == self.dependencies@[i as int]@);
                lemma_concat_dep_hashes_push(dv.take(i as int), dv[i as int]);
                assert(dv.take(i as int).push(dv[i as int]) =~= dv.take(i + 1));
            }
            i = i + 1;
        }
        proof {
            assert(dv.take(self.dependencies@.len() as int) =~= dv);
        }
        let ghost head2 = input@;
        let mut i: usize = 0;
        proof {
            assert(spec_concat_utf8(sv.take(0)) =~= Seq::<u8>::empty());
            assert(input@ =~= head2 + spec_concat_utf8(sv.take(0)));
        }
        while i < self.src.len()
            invariant
                i <= self.src.len(),
                sv == self.src@.map_values(|s: String| s@),
                input@ == head2 + spec_concat_utf8(sv.take(i as int)),
            decreases self.src.len() - i,
        {
            append_str_bytes(&mut input, self.src[i].as_str());
            proof {
                assert(sv[i as int] == self.src@[i as int]@);
                lemma_concat_utf8_push(sv.take(i as int), sv[i as int]);
                assert(sv.take(i as int).push(sv[i as int]) =~= sv.take(i + 1));
            }
            i = i + 1;
        }
        proof {
            assert(sv.take(self.src@.len() as int) =~= sv);
        }
        let ghost head3 = input@;
        let mut i: usize = 0;
        proof {
            assert(spec_concat_utf8(iv.take(0)) =~= Seq::<u8>::empty());
            assert(input@ =~= head3 + spec_concat_utf8(iv.take(0)));
        }
        while i < self.includes.len()
            invariant
                i <= self.includes.len(),
                iv == self.includes@.map_values(|s: String| s@),
                input@ == head3 + spec_concat_utf8(iv.take(i as int)),
            decreases self.includes.len() - i,
        {
            append_str_bytes(&mut input, self.includes[i].as_str());
            proof {
                assert(iv[i as int] == self.includes@[i as int]@);
                lemma_concat_utf8_push(iv.take(i as int), iv[i as int]);
                assert(iv.take(i as int).push(iv[i as int]) =~= iv.take(i + 1));
            }
            i = i + 1;
        }
        proof {
            assert(iv.take(self.includes@.len() as int) =~= iv);
            assert(input@ =~= spec_manifest_hash_input(self@));
        }
        sha256(input.as_slice())
    }
}

} // verus!

// The parsing layer is in a second `verus!` block for readability.
use crate::document::{parse_doc, lookup, lookup_pair, spec_find_section, spec_lookup, spec_lookup_pair, Doc, DocSection};
use crate::text::{format_dec, ord, spec_dec, spec_ord, spec_path_join, path_join};

verus! {

// ---------------------------------------------------------------------------
// Errors.
// ---------------------------------------------------------------------------

/// What is wrong with one dependency descriptor. Every variant carries the
/// dependency's name, so that diagnostics are always dependency-named.
#[derive(Debug, PartialEq, Clone)]
pub enum DepError {
    GitNotString(String),
    VersionNotString(String),
    RevisionNotString(String),
    PathNotString(String),
    AmbiguousShape(String),
    MissingSource(String),
    InvalidShape(String),
}

#[verifier::ext_equal]
pub enum DepErrorV {
    GitNotString(Seq<char>),
    VersionNotString(Seq<char>),
    RevisionNotString(Seq<char>),
    PathNotString(Seq<char>),
    AmbiguousShape(Seq<char>),
    MissingSource(Seq<char>),
    InvalidShape(Seq<char>),
}

impl View for DepError {
    type V = DepErrorV;

    open spec fn view(&self) -> DepErrorV {
        match self {
            DepError::GitNotString(n) => DepErrorV::GitNotString(n@),
            DepError::VersionNotString(n) => DepErrorV::VersionNotString(n@),
            DepError::RevisionNotString(n) => DepErrorV::RevisionNotString(n@),
            DepError::PathNotString(n) => DepErrorV::PathNotString(n@),
            DepError::AmbiguousShape(n) => DepErrorV::AmbiguousShape(n@),
            DepError::MissingSource(n) => DepErrorV::MissingSource(n@),
            DepError::InvalidShape(n) => DepErrorV::InvalidShape(n@),
        }
    }
}

/// Why a manifest was rejected. Every missing mandatory attribute is its own
/// variant; dependency failures are aggregated so that the caller sees every
/// broken descriptor at once.
#[derive(Debug, PartialEq, Clone)]
pub enum ParseError {
    InvalidFormat,
    MissingPackage,
    PackageNotTable,
    MissingName,
    MissingVersion,
    MissingEdition,
    InvalidName(String),
    InvalidEdition(String),
    InvalidPackageType(String),
    AttributeNotList(String),
    ListItemNotString(String, usize),
    DependenciesNotTable,
    Dependencies(Vec<DepError>),
}

#[verifier::ext_equal]
pub enum ParseErrorV {
    InvalidFormat,
    MissingPackage,
    PackageNotTable,
    MissingName,
    MissingVersion,
    MissingEdition,
    InvalidName(Seq<char>),
    InvalidEdition(Seq<char>),
    InvalidPackageType(Seq<char>),
    AttributeNotList(Seq<char>),
    ListItemNotString(Seq<char>, usize),
    DependenciesNotTable,
    Dependencies(Seq<DepErrorV>),
}

impl View for ParseError {
    type V = ParseErrorV;

    open spec fn view(&self) -> ParseErrorV {
        match self {
            ParseError::InvalidFormat => ParseErrorV::InvalidFormat,
            ParseError::MissingPackage => ParseErrorV::MissingPackage,
            ParseError::PackageNotTable => ParseErrorV::PackageNotTable,
            ParseError::MissingName => ParseErrorV::MissingName,
            ParseError::MissingVersion => ParseErrorV::MissingVersion,
            ParseError::MissingEdition => ParseErrorV::MissingEdition,
            ParseError::InvalidName(n) => ParseErrorV::InvalidName(n@),
            ParseError::InvalidEdition(v) => ParseErrorV::InvalidEdition(v@),
            ParseError::InvalidPackageType(v) => ParseErrorV::InvalidPackageType(v@),
            ParseError::AttributeNotList(a) => ParseErrorV::AttributeNotList(a@),
            ParseError::ListItemNotString(a, i) => ParseErrorV::ListItemNotString(a@, *i),
            ParseError::DependenciesNotTable => ParseErrorV::DependenciesNotTable,
            ParseError::Dependencies(es) => ParseErrorV::Dependencies(
                es@.map_values(|e: DepError| e@),
            ),
        }
    }
}

// ---------------------------------------------------------------------------
// Interpretation of a parsed document as a manifest.
// ---------------------------------------------------------------------------

/// A string attribute of the package section; a key held by a non-string
/// value counts as absent, as it does for the original attribute lookup.
pub open spec fn spec_get_attr(
    entries: Seq<(Seq<char>, ValueV)>,
    attr: Seq<char>,
) -> Option<Seq<char>> {
    match spec_lookup(entries, attr) {
        Some(ValueV::Scalar(ScalarV::Text(s))) => Some(s),
        _ => None,
    }
}

/// The strings of a list attribute; the first non-string element is reported
/// with its position.
pub open spec fn spec_texts_of(items: Seq<ScalarV>, attr: Seq<char>, idx: usize) -> Result<
    Seq<Seq<char>>,
    ParseErrorV,
>
    decreases items.len(),
{
    if items.len() == 0 {
        Ok(Seq::empty())
    } else {
        match items[0] {
            ScalarV::Text(s) => match spec_texts_of(
                items.drop_first(),
                attr,
                (idx + 1) as usize,
            ) {
                Ok(rest) => Ok(seq![s] + rest),
                Err(e) => Err(e),
            },
            ScalarV::Other(_) => Err(ParseErrorV::ListItemNotString(attr, idx)),
        }
    }
}

pub open spec fn spec_get_list_attr(
    entries: Seq<(Seq<char>, ValueV)>,
    attr: Seq<char>,
) -> Option<Result<Seq<Seq<char>>, ParseErrorV>> {
    match spec_lookup(entries, attr) {
        None => None,
        Some(ValueV::List(items)) => Some(spec_texts_of(items, attr, 0)),
        Some(_) => Some(Err(ParseErrorV::AttributeNotList(attr))),
    }
}

/// One dependency descriptor: a bare version string declares a registry
/// package; a table declares a source-control checkout (`git`) or a local
/// path (`path`), and naming both is the ambiguous-shape error.
pub open spec fn spec_parse_dep(
    name: Seq<char>,
    v: ValueV,
    workdir: Seq<char>,
) -> Result<DependencyV, DepErrorV> {
    match v {
        ValueV::Scalar(ScalarV::Text(version)) => Ok(
            DependencyV::Package { name: name, version: version },
        ),
        ValueV::Table(pairs) => {
            let git = spec_lookup_pair(pairs, "git"@);
            let path = spec_lookup_pair(pairs, "path"@);
            if git is Some && path is Some {
                Err(DepErrorV::AmbiguousShape(name))
            } else if git is Some {
                match git {
                    Some(ScalarV::Text(repo)) => {
                        let version = spec_lookup_pair(pairs, "version"@);
                        let revision = spec_lookup_pair(pairs, "revision"@);
                        if version is Some && !(version matches Some(ScalarV::Text(_))) {
                            Err(DepErrorV::VersionNotString(name))
                        } else if revision is Some && !(revision matches Some(
                            ScalarV::Text(_),
                        )) {
                            Err(DepErrorV::RevisionNotString(name))
                        } else {
                            Ok(
                                DependencyV::Git {
                                    name: name,
                                    repo: repo,
                                    version: match version {
                                        Some(ScalarV::Text(s)) => Some(s),
                                        _ => None,
                                    },
                                    revision: match revision {
                                        Some(ScalarV::Text(s)) => Some(s),
                                        _ => None,
                                    },
                                },
                            )
                        }
                    },
                    _ => Err(DepErrorV::GitNotString(name)),
                }
            } else if path is Some {
                match path {
                    Some(ScalarV::Text(p)) => Ok(
                        DependencyV::Local { name: name, path: spec_path_join(workdir, p) },
                    ),
                    _ => Err(DepErrorV::PathNotString(name)),
                }
            } else {
                Err(DepErrorV::MissingSource(name))
            }
        },
        _ => Err(DepErrorV::InvalidShape(name)),
    }
}

/// All dependency descriptors, declared order kept, with every failure
/// collected rather than only the first.
pub open spec fn spec_parse_deps(
    entries: Seq<(Seq<char>, ValueV)>,
    workdir: Seq<char>,
) -> (Seq<DependencyV>, Seq<DepErrorV>)
    decreases entries.len(),
{
    if entries.len() == 0 {
        (Seq::empty(), Seq::empty())
    } else {
        let rest = spec_parse_deps(entries.drop_first(), workdir);
        match spec_parse_dep(entries[0].0, entries[0].1, workdir) {
            Ok(d) => (seq![d] + rest.0, rest.1),
            Err(e) => (rest.0, seq![e] + rest.1),
        }
    }
}

pub open spec fn spec_get_dependencies(
    doc: Seq<SectionV>,
    workdir: Seq<char>,
) -> Result<Seq<DependencyV>, ParseErrorV> {
    match spec_find_section(doc, "dependencies"@) {
        Some(entries) => {
            let parsed = spec_parse_deps(entries, workdir);
            if parsed.1.len() == 0 {
                Ok(spec_sort_deps(parsed.0))
            } else {
                Err(ParseErrorV::Dependencies(parsed.1))
            }
        },
        None => if doc.len() > 0 && spec_lookup(doc[0].entries, "dependencies"@) is Some {
            Err(ParseErrorV::DependenciesNotTable)
        } else {
            Ok(Seq::empty())
        },
    }
}

pub open spec fn spec_edition_of(s: Seq<char>) -> Result<Edition, ParseErrorV> {
    if s == "2025.1"@ {
        Ok(Edition::Edition2025_1)
    } else {
        Err(ParseErrorV::InvalidEdition(s))
    }
}

pub open spec fn spec_package_type_of(s: Seq<char>) -> Result<PackageType, ParseErrorV> {
    if s == "bin"@ {
        Ok(PackageType::Binary)
    } else if s == "lib"@ {
        Ok(PackageType::Library)
    } else if s == "sdk"@ {
        Ok(PackageType::SDK)
    } else {
        Err(ParseErrorV::InvalidPackageType(s))
    }
}

/// The whole interpretation of a parsed document.
pub open spec fn spec_manifest_of_doc(doc: Seq<SectionV>, workdir: Seq<char>) -> Result<
    ManifestV,
    ParseErrorV,
> {
    match spec_find_section(doc, "package"@) {
        None => if doc.len() > 0 && spec_lookup(doc[0].entries, "package"@) is Some {
            Err(ParseErrorV::PackageNotTable)
        } else {
            Err(ParseErrorV::MissingPackage)
        },
        Some(pkg) => match spec_get_attr(pkg, "name"@) {
            None => Err(ParseErrorV::MissingName),
            Some(name) => if !spec_valid_name(name) {
                Err(ParseErrorV::InvalidName(name))
            } else {
                match spec_get_attr(pkg, "version"@) {
                    None => Err(ParseErrorV::MissingVersion),
                    Some(version) => match spec_get_attr(pkg, "edition"@) {
                        None => Err(ParseErrorV::MissingEdition),
                        Some(ed) => match spec_edition_of(ed) {
                            Err(e) => Err(e),
                            Ok(edition) => {
                                let ptype = match spec_get_attr(pkg, "type"@) {
                                    None => Ok(PackageType::Binary),
                                    Some(t) => spec_package_type_of(t),
                                };
                                match ptype {
                                    Err(e) => Err(e),
                                    Ok(package_type) => match spec_get_dependencies(
                                        doc,
                                        workdir,
                                    ) {
                                        Err(e) => Err(e),
                                        Ok(dependencies) => {
                                            let src = match spec_get_list_attr(pkg, "src"@) {
                                                None => Ok(seq!["src/*.c"@]),
                                                Some(r) => r,
                                            };
                                            match src {
                                                Err(e) => Err(e),
                                                Ok(src) => {
                                                    let inc = match spec_get_list_attr(
                                                        pkg,
                                                        "includes"@,
                                                    ) {
                                                        None => Ok(seq!["src/"@]),
                                                        Some(r) => r,
                                                    };
                                                    match inc {
                                                        Err(e) => Err(e),
                                                        Ok(includes) => Ok(
                                                            ManifestV {
                                                                name,
                                                                version,
                                                                edition,
                                                                package_type,
                                                                dependencies,
                                                                src,
                                                                includes,
                                                            },
                                                        ),
                                                    }
                                                },
                                            }
                                        },
                                    },
                                }
                            },
                        },
                    },
                }
            },
        },
    }
}

/// The full manifest contract: text in, manifest or named error out.
pub open spec fn spec_parse_manifest(s: Seq<char>, workdir: Seq<char>) -> Result<
    ManifestV,
    ParseErrorV,
> {
    match crate::document::spec_parse_doc(s) {
        Err(()) => Err(ParseErrorV::InvalidFormat),
        Ok(doc) => spec_manifest_of_doc(doc, workdir),
    }
}

// ---------------------------------------------------------------------------
// Executable parsing.
// ---------------------------------------------------------------------------

fn get_attr(entries: &Vec<(String, DocValue)>, attr: &str) -> (r: Option<String>)
    ensures
        ({
            let ev = entries@.map_values(|p: (String, DocValue)| (p.0@, p.1@));
            match r {
                Some(s) => spec_get_attr(ev, attr@) == Some(s@),
                None => spec_get_attr(ev, attr@) == None::<Seq<char>>,
            }
        }),
{
    match lookup(entries, attr) {
        Some(DocValue::Scalar(DocScalar::Text(s))) => Some(s.clone()),
        _ => None,
    }
}

fn texts_of(items: &Vec<DocScalar>, attr: &str) -> (r: Result<Vec<String>, ParseError>)
    ensures
        ({
            let iv = items@.map_values(|x: DocScalar| x@);
            match r {
                Ok(v) => spec_texts_of(iv, attr@, 0) == Ok::<_, ParseErrorV>(
                    v@.map_values(|s: String| s@),
                ),
                Err(e) => spec_texts_of(iv, attr@, 0) == Err::<Seq<Seq<char>>, _>(e@),
            }
        }),
{
    let ghost iv = items@.map_values(|x: DocScalar| x@);
    let mut out: Vec<String> = Vec::new();
    let mut i: usize = 0;
    proof {
        assert(iv.skip(0) =~= iv);
        assert(out@.map_values(|s: String| s@) =~= Seq::<Seq<char>>::empty());
    }
    while i < items.len()
        invariant
            i <= items.len(),
            iv == items@.map_values(|x: DocScalar| x@),
            spec_texts_of(iv, attr@, 0) == match spec_texts_of(iv.skip(i as int), attr@, i) {
                Ok(rest) => Ok::<_, ParseErrorV>(out@.map_values(|s: String| s@) + rest),
                Err(e) => Err::<Seq<Seq<char>>, _>(e),
            },
        decreases items.len() - i,
    {
        let ghost acc = out@.map_values(|s: String| s@);
        proof {
            assert(iv.skip(i as int)[0] == iv[i as int]);
            assert(iv.skip(i as int).drop_first() =~= iv.skip(i + 1));
            assert(iv[i as int] == items@[i as int]@);
        }
        match &items[i] {
            DocScalar::Text(s) => {
                out.push(s.clone());
                proof {
                    assert(out@.map_values(|s2: String| s2@) =~= acc.push(s@));
                    assert forall|rest: Seq<Seq<char>>| acc.push(s@) + rest =~= acc + (seq![s@]
                        + rest) by {}
                }
            },
            DocScalar::Other(_) => {
                return Err(ParseError::ListItemNotString(attr.to_owned(), i));
            },
        }
        i = i + 1;
    }
    proof {
        assert(iv.skip(items@.len() as int) =~= Seq::<ScalarV>::empty());
        assert(out@.map_values(|s: String| s@) + Seq::<Seq<char>>::empty() =~= out@.map_values(
            |s: String| s@,
        ));
    }
    Ok(out)
}

fn get_list_attr(entries: &Vec<(String, DocValue)>, attr: &str) -> (r: Option<
    Result<Vec<String>, ParseError>,
>)
    ensures
        ({
            let ev = entries@.map_values(|p: (String, DocValue)| (p.0@, p.1@));
            match r {
                None => spec_get_list_attr(ev, attr@) == None::<
                    Result<Seq<Seq<char>>, ParseErrorV>,
                >,
                Some(Ok(v)) => spec_get_list_attr(ev, attr@) == Some(
                    Ok::<_, ParseErrorV>(v@.map_values(|s: String| s@)),
                ),
                Some(Err(e)) => spec_get_list_attr(ev, attr@) == Some(
                    Err::<Seq<Seq<char>>, _>(e@),
                ),
            }
        }),
{
    match lookup(entries, attr) {
        None => None,
        Some(DocValue::List(items)) => Some(texts_of(items, attr)),
        Some(_) => Some(Err(ParseError::AttributeNotList(attr.to_owned()))),
    }
}

fn parse_dep(name: &str, v: &DocValue, workdir: &str) -> (r: Result<Dependency, DepError>)
    ensures
        match r {
            Ok(d) => spec_parse_dep(name@, v@, workdir@) == Ok::<_, DepErrorV>(d@),
            Err(e) => spec_parse_dep(name@, v@, workdir@) == Err::<DependencyV, _>(e@),
        },
{
    match v {
        DocValue::Scalar(DocScalar::Text(version)) => Ok(
            Dependency::Package { name: name.to_owned(), version: version.clone() },
        ),
        DocValue::Table(pairs) => {
            let git = lookup_pair(pairs, "git");
            let path = lookup_pair(pairs, "path");
            match (git, path) {
                (Some(_), Some(_)) => Err(DepError::AmbiguousShape(name.to_owned())),
                (Some(DocScalar::Text(repo)), None) => {
                    let version: Option<String> = match lookup_pair(pairs, "version") {
                        None => None,
                        Some(DocScalar::Text(s)) => Some(s.clone()),
                        Some(DocScalar::Other(_)) => {
                            return Err(DepError::VersionNotString(name.to_owned()));
                        },
                    };
                    let revision: Option<String> = match lookup_pair(pairs, "revision") {
                        None => None,
                        Some(DocScalar::Text(s)) => Some(s.clone()),
                        Some(DocScalar::Other(_)) => {
                            return Err(DepError::RevisionNotString(name.to_owned()));
                        },
                    };
                    Ok(
                        Dependency::Git {
                            name: name.to_owned(),
                            repo: repo.clone(),
                            version,
                            revision,
                        },
                    )
                },
                (Some(DocScalar::Other(_)), None) => Err(
                    DepError::GitNotString(name.to_owned()),
                ),
                (None, Some(DocScalar::Text(p))) => Ok(
                    Dependency::Local {
                        name: name.to_owned(),
                        path: path_join(workdir, p.as_str()),
                    },
                ),
                (None, Some(DocScalar::Other(_))) => Err(
                    DepError::PathNotString(name.to_owned()),
                ),
                (None, None) => Err(DepError::MissingSource(name.to_owned())),
            }
        },
        _ => Err(DepError::InvalidShape(name.to_owned())),
    }
}

fn parse_deps(entries: &Vec<(String, DocValue)>, workdir: &str) -> (r: (
    Vec<Dependency>,
    Vec<DepError>,
))
    ensures
        ({
            let ev = entries@.map_values(|p: (String, DocValue)| (p.0@, p.1@));
            spec_parse_deps(ev, workdir@) == (
                r.0@.map_values(|d: Dependency| d@),
                r.1@.map_values(|e: DepError| e@),
            )
        }),
{
    let ghost ev = entries@.map_values(|p: (String, DocValue)| (p.0@, p.1@));
    let mut ds: Vec<Dependency> = Vec::new();
    let mut es: Vec<DepError> = Vec::new();
    let mut i: usize = 0;
    proof {
        assert(ev.skip(0) =~= ev);
        assert(ds@.map_values(|d: Dependency| d@) =~= Seq::<DependencyV>::empty());
        assert(es@.map_values(|e: DepError| e@) =~= Seq::<DepErrorV>::empty());
    }
    while i < entries.len()
        invariant
            i <= entries.len(),
            ev == entries@.map_values(|p: (String, DocValue)| (p.0@, p.1@)),
            spec_parse_deps(ev, workdir@) == ({
                let rest = spec_parse_deps(ev.skip(i as int), workdir@);
                (
                    ds@.map_values(|d: Dependency| d@) + rest.0,
                    es@.map_values(|e: DepError| e@) + rest.1,
                )
            }),
        decreases entries.len() - i,
    {
        let ghost dacc = ds@.map_values(|d: Dependency| d@);
        let ghost eacc = es@.map_values(|e: DepError| e@);
        proof {
            assert(ev.skip(i as int)[0] == ev[i as int]);
            assert(ev.skip(i as int).drop_first() =~= ev.skip(i + 1));
            assert(ev[i as int] == (entries@[i as int].0@, entries@[i as int].1@));
        }
        match parse_dep(entries[i].0.as_str(), &entries[i].1, workdir) {
            Ok(d) => {
                let ghost dv = d@;
                ds.push(d);
                proof {
                    assert(ds@.map_values(|d2: Dependency| d2@) =~= dacc.push(dv));
                    assert forall|rest: Seq<DependencyV>| dacc.push(dv) + rest =~= dacc + (
                    seq![dv] + rest) by {}
                }
            },
            Err(e) => {
                let ghost evv = e@;
                es.push(e);
                proof {
                    assert(es@.map_values(|e2: DepError| e2@) =~= eacc.push(evv));
                    assert forall|rest: Seq<DepErrorV>| eacc.push(evv) + rest =~= eacc + (
                    seq![evv] + rest) by {}
                }
            },
        }
        i = i + 1;
    }
    proof {
        assert(ev.skip(entries@.len() as int) =~= Seq::<(Seq<char>, ValueV)>::empty());
        assert(ds@.map_values(|d: Dependency| d@) + Seq::<DependencyV>::empty()
            =~= ds@.map_values(|d: Dependency| d@));
        assert(es@.map_values(|e: DepError| e@) + Seq::<DepErrorV>::empty() =~= es@.map_values(
            |e: DepError| e@,
        ));
    }
    (ds, es)
}

impl Edition {
    /// The edition tag an edition string names; `2025.1` is the only one.
    pub fn from_text(value: &str) -> (r: Result<Edition, ParseError>)
        ensures
            match r {
                Ok(e) => spec_edition_of(value@) == Ok::<_, ParseErrorV>(e),
                Err(e) => spec_edition_of(value@) == Err::<Edition, _>(e@),
            },
    {
        if crate::text::str_eq(value, "2025.1") {
            Ok(Edition::Edition2025_1)
        } else {
            Err(ParseError::InvalidEdition(value.to_owned()))
        }
    }
}

impl PackageType {
    /// The package kind a type string names: `bin`, `lib` or `sdk`.
    pub fn from_text(value: &str) -> (r: Result<PackageType, ParseError>)
        ensures
            match r {
                Ok(p) => spec_package_type_of(value@) == Ok::<_, ParseErrorV>(p),
                Err(e) => spec_package_type_of(value@) == Err::<PackageType, _>(e@),
            },
    {
        if crate::text::str_eq(value, "bin") {
            Ok(PackageType::Binary)
        } else if crate::text::str_eq(value, "lib") {
            Ok(PackageType::Library)
        } else if crate::text::str_eq(value, "sdk") {
            Ok(PackageType::SDK)
        } else {
            Err(ParseError::InvalidPackageType(value.to_owned()))
        }
    }
}

fn get_dependencies(doc: &Doc, workdir: &str) -> (r: Result<Vec<Dependency>, ParseError>)
    requires
        doc@.len() > 0,
    ensures
        match r {
            Ok(v) => spec_get_dependencies(doc@, workdir@) == Ok::<_, ParseErrorV>(
                v@.map_values(|d: Dependency| d@),
            ),
            Err(e) => spec_get_dependencies(doc@, workdir@) == Err::<Seq<DependencyV>, _>(e@),
        },
{
    match doc.find_section("dependencies") {
        Some(sec) => {
            let (ds, es) = parse_deps(&sec.entries, workdir);
            if es.len() == 0 {
                proof {
                    assert(es@.map_values(|e: DepError| e@) =~= Seq::<DepErrorV>::empty());
                }
                Ok(sort_dependencies(ds))
            } else {
                proof {
                    assert(es@.map_values(|e: DepError| e@).len() > 0);
                }
                Err(ParseError::Dependencies(es))
            }
        },
        None => {
            proof {
                assert(doc@[0] == doc.sections@[0]@);
            }
            match lookup(&doc.sections[0].entries, "dependencies") {
                Some(_) => Err(ParseError::DependenciesNotTable),
                None => {
                    let v: Vec<Dependency> = Vec::new();
                    proof {
                        assert(v@.map_values(|d: Dependency| d@) =~= Seq::<
                            DependencyV,
                        >::empty());
                    }
                    Ok(v)
                },
            }
        },
    }
}

impl Manifest {
    /// Parses and validates a manifest document. `workdir` is the directory
    /// against which a local dependency's relative path is resolved.
    pub fn from_text(text: &str, workdir: &str) -> (r: Result<Manifest, ParseError>)
        ensures
            match r {
                Ok(m) => spec_parse_manifest(text@, workdir@) == Ok::<_, ParseErrorV>(m@),
                Err(e) => spec_parse_manifest(text@, workdir@) == Err::<ManifestV, _>(e@),
            },
    {
        let doc = match parse_doc(text) {
            Some(doc) => doc,
            None => {
                return Err(ParseError::InvalidFormat);
            },
        };
        let pkg: &DocSection = match doc.find_section("package") {
            Some(sec) => sec,
            None => {
                proof {
                    assert(doc@[0] == doc.sections@[0]@);
                }
                match lookup(&doc.sections[0].entries, "package") {
                    Some(_) => {
                        return Err(ParseError::PackageNotTable);
                    },
                    None => {
                        return Err(ParseError::MissingPackage);
                    },
                }
            },
        };
        let name = match get_attr(&pkg.entries, "name") {
            Some(n) => n,
            None => {
                return Err(ParseError::MissingName);
            },
        };
        if !is_package_name_valid(name.as_str()) {
            return Err(ParseError::InvalidName(name));
        }
        let version = match get_attr(&pkg.entries, "version") {
            Some(v) => v,
            None => {
                return Err(ParseError::MissingVersion);
            },
        };
        let edition = match get_attr(&pkg.entries, "edition") {
            Some(e) => match Edition::from_text(e.as_str()) {
                Ok(ed) => ed,
                Err(e) => {
                    return Err(e);
                },
            },
            None => {
                return Err(ParseError::MissingEdition);
            },
        };
        let package_type = match get_attr(&pkg.entries, "type") {
            Some(t) => match PackageType::from_text(t.as_str()) {
                Ok(p) => p,
                Err(e) => {
                    return Err(e);
                },
            },
            None => PackageType::Binary,
        };
        let dependencies = match get_dependencies(&doc, workdir) {
            Ok(ds) => ds,
            Err(e) => {
                return Err(e);
            },
        };
        let src = match get_list_attr(&pkg.entries, "src") {
            Some(Ok(v)) => v,
            Some(Err(e)) => {
                return Err(e);
            },
            None => {
                let mut v: Vec<String> = Vec::new();
                v.push("src/*.c".to_owned());
                proof {
                    assert(v@.map_values(|s: String| s@) =~= seq!["src/*.c"@]);
                }
                v
            },
        };
        let includes = match get_list_attr(&pkg.entries, "includes") {
            Some(Ok(v)) => v,
            Some(Err(e)) => {
                return Err(e);
            },
            None => {
                let mut v: Vec<String> = Vec::new();
                v.push("src/".to_owned());
                proof {
                    assert(v@.map_values(|s: String| s@) =~= seq!["src/"@]);
                }
                v
            },
        };
        let m = Manifest {
            name,
            version,
            edition,
            package_type,
            dependencies,
            src,
            includes,
        };
        proof {
            assert(m@ =~~= (match spec_parse_manifest(text@, workdir@) {
                Ok(mv) => mv,
                Err(_) => m@,
            }));
        }
        Ok(m)
    }
}

} // verus!

verus! {

// ---------------------------------------------------------------------------
// Diagnostic messages.
// ---------------------------------------------------------------------------

pub open spec fn spec_dep_error_message(e: DepErrorV) -> Seq<char> {
    match e {
        DepErrorV::GitNotString(n) => "Dependency \""@ + n + "\" git is not a string"@,
        DepErrorV::VersionNotString(n) => "Dependency \""@ + n + "\" version is not a string"@,
        DepErrorV::RevisionNotString(n) => "Dependency \""@ + n
            + "\" revision is not a string"@,
        DepErrorV::PathNotString(n) => "Dependency \""@ + n + "\" path is not a string"@,
        DepErrorV::AmbiguousShape(n) => "Dependency \""@ + n
            + "\" has an ambiguous dependency shape: both \"git\" and \"path\" are present"@,
        DepErrorV::MissingSource(n) => "Dependency \""@ + n
            + "\" must have a \"git\" or a \"path\" attribute"@,
        DepErrorV::InvalidShape(n) => "Dependency \""@ + n
            + "\" has an invalid format. It must be a string or a table"@,
    }
}

impl DepError {
    pub fn message(&self) -> (r: String)
        ensures
            r@ == spec_dep_error_message(self@),
    {
        let mut s = "Dependency \"".to_owned();
        match self {
            DepError::GitNotString(n) => {
                s.append(n.as_str());
                s.append("\" git is not a string");
            },
            DepError::VersionNotString(n) => {
                s.append(n.as_str());
                s.append("\" version is not a string");
            },
            DepError::RevisionNotString(n) => {
                s.append(n.as_str());
                s.append("\" revision is not a string");
            },
            DepError::PathNotString(n) => {
                s.append(n.as_str());
                s.append("\" path is not a string");
            },
            DepError::AmbiguousShape(n) => {
                s.append(n.as_str());
                s.append(
                    "\" has an ambiguous dependency shape: both \"git\" and \"path\" are present",
                );
            },
            DepError::MissingSource(n) => {
                s.append(n.as_str());
                s.append("\" must have a \"git\" or a \"path\" attribute");
            },
            DepError::InvalidShape(n) => {
                s.append(n.as_str());
                s.append("\" has an invalid format. It must be a string or a table");
            },
        }
        s
    }
}

/// The combined text of several dependency failures, one per line.
pub open spec fn spec_join_dep_messages(es: Seq<DepErrorV>) -> Seq<char>
    decreases es.len(),
{
    if es.len() == 0 {
        Seq::empty()
    } else if es.len() == 1 {
        spec_dep_error_message(es[0])
    } else {
        spec_dep_error_message(es[0]) + "\n"@ + spec_join_dep_messages(es.drop_first())
    }
}

proof fn lemma_join_dep_messages_push(es: Seq<DepErrorV>, e: DepErrorV)
    ensures
        spec_join_dep_messages(es.push(e)) == if es.len() == 0 {
            spec_dep_error_message(e)
        } else {
            spec_join_dep_messages(es) + "\n"@ + spec_dep_error_message(e)
        },
    decreases es.len(),
{
    if es.len() == 0 {
        assert(es.push(e)[0] == e);
    } else if es.len() == 1 {
        assert(es.push(e)[0] == es[0]);
        assert(es.push(e).drop_first() =~= seq![e]);
        assert(spec_join_dep_messages(seq![e]) == spec_dep_error_message(e));
    } else {
        assert(es.push(e)[0] == es[0]);
        assert(es.push(e).drop_first() =~= es.drop_first().push(e));
        lemma_join_dep_messages_push(es.drop_first(), e);
        assert(spec_join_dep_messages(es.push(e)) =~= spec_join_dep_messages(es) + "\n"@
            + spec_dep_error_message(e));
    }
}

pub open spec fn spec_parse_error_message(e: ParseErrorV) -> Seq<char> {
    match e {
        ParseErrorV::InvalidFormat => "Invalid Manifest format"@,
        ParseErrorV::MissingPackage => "package is missing"@,
        ParseErrorV::PackageNotTable => "package is not a table"@,
        ParseErrorV::MissingName => "Package name not found"@,
        ParseErrorV::MissingVersion => "Package version not found"@,
        ParseErrorV::MissingEdition => "Package edition not found"@,
        ParseErrorV::InvalidName(n) => "Invalid package name "@ + n,
        ParseErrorV::InvalidEdition(v) => "Invalid edition "@ + v,
        ParseErrorV::InvalidPackageType(v) => "Invalid package type "@ + v,
        ParseErrorV::AttributeNotList(a) => "Package \""@ + a + "\" is not a list"@,
        ParseErrorV::ListItemNotString(a, i) => crate::text::spec_dec(i as int)
            + crate::text::spec_ord(i as int) + " package \""@ + a + "\" is not a string"@,
        ParseErrorV::DependenciesNotTable => "dependencies is not a table"@,
        ParseErrorV::Dependencies(es) => if es.len() == 1 {
            spec_dep_error_message(es[0])
        } else {
            "Multiple dependency errors:\n"@ + spec_join_dep_messages(es)
        },
    }
}

impl ParseError {
    pub fn message(&self) -> (r: String)
        ensures
            r@ == spec_parse_error_message(self@),
    {
        match self {
            ParseError::InvalidFormat => "Invalid Manifest format".to_owned(),
            ParseError::MissingPackage => "package is missing".to_owned(),
            ParseError::PackageNotTable => "package is not a table".to_owned(),
            ParseError::MissingName => "Package name not found".to_owned(),
            ParseError::MissingVersion => "Package version not found".to_owned(),
            ParseError::MissingEdition => "Package edition not found".to_owned(),
            ParseError::InvalidName(n) => {
                let mut s = "Invalid package name ".to_owned();
                s.append(n.as_str());
                s
            },
            ParseError::InvalidEdition(v) => {
                let mut s = "Invalid edition ".to_owned();
                s.append(v.as_str());
                s
            },
            ParseError::InvalidPackageType(v) => {
                let mut s = "Invalid package type ".to_owned();
                s.append(v.as_str());
                s
            },
            ParseError::AttributeNotList(a) => {
                let mut s = "Package \"".to_owned();
                s.append(a.as_str());
                s.append("\" is not a list");
                s
            },
            ParseError::ListItemNotString(a, i) => {
                let mut s = format_dec_of_usize(*i);
                let suffix = ord(*i);
                s.append(suffix.as_str());
                s.append(" package \"");
                s.append(a.as_str());
                s.append("\" is not a string");
                s
            },
            ParseError::DependenciesNotTable => "dependencies is not a table".to_owned(),
            ParseError::Dependencies(es) => {
                let ghost ev = es@.map_values(|e: DepError| e@);
                if es.len() == 1 {
                    es[0].message()
                } else {
                    let mut s = "Multiple dependency errors:\n".to_owned();
                    let ghost head = s@;
                    let mut i: usize = 0;
                    let mut joined = String::new();
                    proof {
                        assert(ev.take(0) =~= Seq::<DepErrorV>::empty());
                        assert(joined@ =~= spec_join_dep_messages(ev.take(0)));
                    }
                    while i < es.len()
                        invariant
                            i <= es.len(),
                            ev == es@.map_values(|e: DepError| e@),
                            joined@ == spec_join_dep_messages(ev.take(i as int)),
                        decreases es.len() - i,
                    {
                        if i > 0 {
                            joined.append("\n");
                        }
                        let msg = es[i].message();
                        joined.append(msg.as_str());
                        proof {
                            assert(ev[i as int] == es@[i as int]@);
                            lemma_join_dep_messages_push(ev.take(i as int), ev[i as int]);
                            assert(ev.take(i as int).push(ev[i as int]) =~= ev.take(i + 1));
                        }
                        i = i + 1;
                    }
                    proof {
                        assert(ev.take(es@.len() as int) =~= ev);
                    }
                    s.append(joined.as_str());
                    s
                }
            },
        }
    }
}

fn format_dec_of_usize(n: usize) -> (r: String)
    ensures
        r@ == crate::text::spec_dec(n as int),
    decreases n,
{
    if n < 10 {
        let d = (n % 10) as u32;
        let r = crate::text::format_dec(d);
        proof {
            assert(d as int == n as int);
        }
        r
    } else {
        let mut s = format_dec_of_usize(n / 10);
        let d = (n % 10) as u32;
        let tail = crate::text::format_dec(d);
        s.append(tail.as_str());
        proof {
            assert(crate::text::spec_dec(d as int) =~= seq![
                crate::text::spec_dec_digit(n as int % 10),
            ]);
            assert(crate::text::spec_dec(n as int) =~= crate::text::spec_dec(n as int / 10).push(
                crate::text::spec_dec_digit(n as int % 10),
            ));
            assert(s@ =~= crate::text::spec_dec(n as int));
        }
        s
    }
}

// ---------------------------------------------------------------------------
// Determinism of parsing, and the hash as a function of content.
// ---------------------------------------------------------------------------

/// Removing one entry removes exactly its contribution from the parsed
/// dependency set, wherever in the section it stood.
proof fn lemma_parse_deps_remove(entries: Seq<(Seq<char>, ValueV)>, j: int, workdir: Seq<char>)
    requires
        0 <= j < entries.len(),
    ensures
        ({
            let whole = spec_parse_deps(entries, workdir);
            let rest = spec_parse_deps(entries.remove(j), workdir);
            match spec_parse_dep(entries[j].0, entries[j].1, workdir) {
                Ok(d) => whole.0.to_multiset() == rest.0.to_multiset().insert(d)
                    && whole.1.to_multiset() == rest.1.to_multiset(),
                Err(e) => whole.0.to_multiset() == rest.0.to_multiset()
                    && whole.1.to_multiset() == rest.1.to_multiset().insert(e),
            }
        }),
    decreases entries.len(),
{
    broadcast use vstd::seq_lib::group_to_multiset_ensures;
    broadcast use vstd::multiset::group_multiset_axioms;

    if j == 0 {
        assert(entries.remove(0) =~= entries.drop_first());
        let rest = spec_parse_deps(entries.drop_first(), workdir);
        match spec_parse_dep(entries[0].0, entries[0].1, workdir) {
            Ok(d) => {
                assert(seq![d] + rest.0 =~= rest.0.insert(0, d));
                vstd::seq_lib::to_multiset_insert(rest.0, 0, d);
            },
            Err(e) => {
                assert(seq![e] + rest.1 =~= rest.1.insert(0, e));
                vstd::seq_lib::to_multiset_insert(rest.1, 0, e);
            },
        }
    } else {
        lemma_parse_deps_remove(entries.drop_first(), j - 1, workdir);
        assert(entries.remove(j).drop_first() =~= entries.drop_first().remove(j - 1));
        assert(entries.remove(j)[0] == entries[0]);
        assert(entries.drop_first()[j - 1] == entries[j]);
        let sub = spec_parse_deps(entries.drop_first(), workdir);
        let sub2 = spec_parse_deps(entries.drop_first().remove(j - 1), workdir);
        match spec_parse_dep(entries[0].0, entries[0].1, workdir) {
            Ok(d0) => {
                assert(seq![d0] + sub.0 =~= sub.0.insert(0, d0));
                vstd::seq_lib::to_multiset_insert(sub.0, 0, d0);
                assert(seq![d0] + sub2.0 =~= sub2.0.insert(0, d0));
                vstd::seq_lib::to_multiset_insert(sub2.0, 0, d0);
                match spec_parse_dep(entries[j].0, entries[j].1, workdir) {
                    Ok(d) => {
                        assert(sub.0.to_multiset().insert(d0) =~= sub2.0.to_multiset().insert(
                            d,
                        ).insert(d0));
                        assert(sub2.0.to_multiset().insert(d).insert(d0)
                            =~= sub2.0.to_multiset().insert(d0).insert(d));
                    },
                    Err(_) => {},
                }
            },
            Err(e0) => {
                assert(seq![e0] + sub.1 =~= sub.1.insert(0, e0));
                vstd::seq_lib::to_multiset_insert(sub.1, 0, e0);
                assert(seq![e0] + sub2.1 =~= sub2.1.insert(0, e0));
                vstd::seq_lib::to_multiset_insert(sub2.1, 0, e0);
                match spec_parse_dep(entries[j].0, entries[j].1, workdir) {
                    Ok(_) => {},
                    Err(e) => {
                        assert(sub.1.to_multiset().insert(e0) =~= sub2.1.to_multiset().insert(
                            e,
                        ).insert(e0));
                        assert(sub2.1.to_multiset().insert(e).insert(e0)
                            =~= sub2.1.to_multiset().insert(e0).insert(e));
                    },
                }
            },
        }
    }
}

/// The dependencies section parses to the same successes and the same
/// failures, as multisets, whatever order its keys were written in.
proof fn lemma_parse_deps_permutation(
    e1: Seq<(Seq<char>, ValueV)>,
    e2: Seq<(Seq<char>, ValueV)>,
    workdir: Seq<char>,
)
    requires
        e1.to_multiset() == e2.to_multiset(),
    ensures
        spec_parse_deps(e1, workdir).0.to_multiset() == spec_parse_deps(e2, workdir).0
            .to_multiset(),
        spec_parse_deps(e1, workdir).1.to_multiset() == spec_parse_deps(e2, workdir).1
            .to_multiset(),
    decreases e1.len(),
{
    broadcast use vstd::seq_lib::group_to_multiset_ensures;
    broadcast use vstd::multiset::group_multiset_axioms;

    if e1.len() == 0 {
        assert(e2.to_multiset().len() == 0);
        assert(e2.len() == 0);
    } else {
        let x = e1[0];
        assert(e1.to_multiset().contains(x));
        assert(e2.to_multiset().contains(x));
        assert(e2.contains(x));
        let j = choose|j: int| 0 <= j < e2.len() && e2[j] == x;
        assert(e1.remove(0).to_multiset() == e1.to_multiset().remove(x)) by {
            vstd::seq_lib::to_multiset_remove(e1, 0);
        }
        assert(e2.remove(j).to_multiset() == e2.to_multiset().remove(x)) by {
            vstd::seq_lib::to_multiset_remove(e2, j);
        }
        lemma_parse_deps_permutation(e1.remove(0), e2.remove(j), workdir);
        lemma_parse_deps_remove(e1, 0, workdir);
        lemma_parse_deps_remove(e2, j, workdir);
    }
}

/// Every dependency parsed out of a section carries its key as its name, so
/// unique keys give unique names.
proof fn lemma_parse_deps_names(entries: Seq<(Seq<char>, ValueV)>, workdir: Seq<char>)
    ensures
        forall|i: int|
            0 <= i < spec_parse_deps(entries, workdir).0.len() ==> exists|k: int|
                0 <= k < entries.len() && spec_dep_name(
                    #[trigger] spec_parse_deps(entries, workdir).0[i],
                ) == (#[trigger] entries[k]).0,
        crate::document::spec_keys_unique(entries) ==> crate::dependency_manager::spec_dep_names_unique(
            spec_parse_deps(entries, workdir).0,
        ),
    decreases entries.len(),
{
    if entries.len() == 0 {
    } else {
        lemma_parse_deps_names(entries.drop_first(), workdir);
        let ds = spec_parse_deps(entries, workdir).0;
        let sub = spec_parse_deps(entries.drop_first(), workdir).0;
        assert forall|i: int| 0 <= i < ds.len() implies exists|k: int|
            0 <= k < entries.len() && spec_dep_name(#[trigger] ds[i]) == (
            #[trigger] entries[k]).0 by {
            match spec_parse_dep(entries[0].0, entries[0].1, workdir) {
                Ok(d) => {
                    if i == 0 {
                        assert(ds[0] == d);
                        assert(spec_dep_name(d) == entries[0].0);
                    } else {
                        assert(ds[i] == sub[i - 1]);
                        let k = choose|k: int|
                            0 <= k < entries.drop_first().len() && spec_dep_name(sub[i - 1])
                                == entries.drop_first()[k].0;
                        assert(entries[k + 1].0 == entries.drop_first()[k].0);
                    }
                },
                Err(_) => {
                    assert(ds[i] == sub[i]);
                    let k = choose|k: int|
                        0 <= k < entries.drop_first().len() && spec_dep_name(sub[i])
                            == entries.drop_first()[k].0;
                    assert(entries[k + 1].0 == entries.drop_first()[k].0);
                },
            }
        }
        if crate::document::spec_keys_unique(entries) {
            assert(crate::document::spec_keys_unique(entries.drop_first())) by {
                assert forall|p: int, q: int|
                    0 <= p < q < entries.drop_first().len() implies (
                #[trigger] entries.drop_first()[p]).0 != (
                #[trigger] entries.drop_first()[q]).0 by {
                    assert(entries.drop_first()[p] == entries[p + 1]);
                    assert(entries.drop_first()[q] == entries[q + 1]);
                }
            }
            assert forall|p: int, q: int|
                0 <= p < q < ds.len() implies spec_dep_name(#[trigger] ds[p]) != spec_dep_name(
                #[trigger] ds[q],
            ) by {
                match spec_parse_dep(entries[0].0, entries[0].1, workdir) {
                    Ok(d) => {
                        if p == 0 {
                            assert(ds[q] == sub[q - 1]);
                            let k = choose|k: int|
                                0 <= k < entries.drop_first().len() && spec_dep_name(
                                    sub[q - 1],
                                ) == entries.drop_first()[k].0;
                            assert(entries[k + 1].0 == spec_dep_name(ds[q]));
                            assert(entries[0].0 != entries[k + 1].0);
                        } else {
                            assert(ds[p] == sub[p - 1]);
                            assert(ds[q] == sub[q - 1]);
                        }
                    },
                    Err(_) => {
                        assert(ds[p] == sub[p]);
                        assert(ds[q] == sub[q]);
                    },
                }
            }
        }
    }
}

/// The parsed dependency list is independent of key order: two dependencies
/// sections holding the same entries, keys unique, yield the same canonical
/// list when both succeed, and both fail together.
pub proof fn lemma_dependencies_order_insensitive(
    e1: Seq<(Seq<char>, ValueV)>,
    e2: Seq<(Seq<char>, ValueV)>,
    workdir: Seq<char>,
)
    requires
        e1.to_multiset() == e2.to_multiset(),
        crate::document::spec_keys_unique(e1),
    ensures
        spec_parse_deps(e1, workdir).1.len() == 0 <==> spec_parse_deps(e2, workdir).1.len()
            == 0,
        spec_parse_deps(e1, workdir).1.len() == 0 ==> spec_sort_deps(
            spec_parse_deps(e1, workdir).0,
        ) == spec_sort_deps(spec_parse_deps(e2, workdir).0),
{
    broadcast use vstd::seq_lib::group_to_multiset_ensures;

    lemma_parse_deps_permutation(e1, e2, workdir);
    assert(spec_parse_deps(e1, workdir).1.to_multiset().len() == spec_parse_deps(
        e2,
        workdir,
    ).1.to_multiset().len());
    if spec_parse_deps(e1, workdir).1.len() == 0 {
        lemma_parse_deps_names(e1, workdir);
        crate::dependency_manager::lemma_sort_deps_of_permutation(
            spec_parse_deps(e1, workdir).0,
            spec_parse_deps(e2, workdir).0,
        );
    }
}

/// A package section's attributes read the same whatever order its keys
/// were written in: string attributes and list attributes alike depend only
/// on which entries the section holds.
pub proof fn lemma_attributes_order_insensitive(
    e1: Seq<(Seq<char>, ValueV)>,
    e2: Seq<(Seq<char>, ValueV)>,
    attr: Seq<char>,
)
    requires
        e1.to_multiset() == e2.to_multiset(),
        crate::document::spec_keys_unique(e1),
    ensures
        spec_get_attr(e1, attr) == spec_get_attr(e2, attr),
        spec_get_list_attr(e1, attr) == spec_get_list_attr(e2, attr),
{
    crate::document::lemma_lookup_order_insensitive(e1, e2, attr);
}

/// Key order cannot change a manifest: two parsed documents that hold the
/// same package entries and the same dependency entries — in whatever order
/// their keys were written — interpret to equal manifests, and therefore to
/// equal content hashes.
pub proof fn lemma_manifest_key_order_insensitive(
    doc1: Seq<SectionV>,
    doc2: Seq<SectionV>,
    workdir: Seq<char>,
    m1: ManifestV,
    m2: ManifestV,
)
    requires
        spec_manifest_of_doc(doc1, workdir) == Ok::<ManifestV, ParseErrorV>(m1),
        spec_manifest_of_doc(doc2, workdir) == Ok::<ManifestV, ParseErrorV>(m2),
        match (spec_find_section(doc1, "package"@), spec_find_section(doc2, "package"@)) {
            (Some(p1), Some(p2)) => p1.to_multiset() == p2.to_multiset()
                && crate::document::spec_keys_unique(p1),
            _ => false,
        },
        match (
            spec_find_section(doc1, "dependencies"@),
            spec_find_section(doc2, "dependencies"@),
        ) {
            (Some(d1), Some(d2)) => d1.to_multiset() == d2.to_multiset()
                && crate::document::spec_keys_unique(d1),
            (None, None) => true,
            _ => false,
        },
    ensures
        m1 == m2,
        spec_manifest_hash(m1) == spec_manifest_hash(m2),
{
    let p1 = spec_find_section(doc1, "package"@).unwrap();
    let p2 = spec_find_section(doc2, "package"@).unwrap();
    lemma_attributes_order_insensitive(p1, p2, "name"@);
    lemma_attributes_order_insensitive(p1, p2, "version"@);
    lemma_attributes_order_insensitive(p1, p2, "edition"@);
    lemma_attributes_order_insensitive(p1, p2, "type"@);
    lemma_attributes_order_insensitive(p1, p2, "src"@);
    lemma_attributes_order_insensitive(p1, p2, "includes"@);
    match (
        spec_find_section(doc1, "dependencies"@),
        spec_find_section(doc2, "dependencies"@),
    ) {
        (Some(d1), Some(d2)) => {
            lemma_dependencies_order_insensitive(d1, d2, workdir);
            assert(spec_parse_deps(d1, workdir).1.len() == 0);
            assert(spec_get_dependencies(doc1, workdir) == spec_get_dependencies(
                doc2,
                workdir,
            ));
        },
        _ => {},
    }
    assert(m1 == m2);
}

/// Parsing is a pure function of the text and the working directory: the
/// same bytes parse to the same result every time, so parsing twice yields
/// equal manifests.
pub proof fn lemma_parse_idempotent(t1: Seq<char>, w1: Seq<char>, t2: Seq<char>, w2: Seq<char>)
    requires
        t1 == t2,
        w1 == w2,
    ensures
        spec_parse_manifest(t1, w1) == spec_parse_manifest(t2, w2),
{
}

/// The content hash is a function of the parsed semantic content alone: two
/// successfully parsed manifests with equal content hash identically,
/// however their surface texts differed in whitespace or key order.
pub proof fn lemma_hash_of_content(
    t1: Seq<char>,
    w1: Seq<char>,
    t2: Seq<char>,
    w2: Seq<char>,
    m1: ManifestV,
    m2: ManifestV,
)
    requires
        spec_parse_manifest(t1, w1) == Ok::<ManifestV, ParseErrorV>(m1),
        spec_parse_manifest(t2, w2) == Ok::<ManifestV, ParseErrorV>(m2),
        m1 == m2,
    ensures
        spec_manifest_hash(m1) == spec_manifest_hash(m2),
{
}

} // verus!
