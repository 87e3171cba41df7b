//! The build-description generator: renders the CMake build description for
//! a binary package from the manifest and the resolved dependency
//! contributions, and computes the content hash that change detection uses.

use vstd::prelude::*;

use crate::dependency_manager::DependencyManager;
use crate::hashing::{sha256, sha256_of};
use crate::manifest::{spec_utf8, Manifest};
use crate::templates;
use crate::text::{escape, spec_escape, spec_path_join, path_join};

verus! {

pub struct CMake {
    build_path: String,
    path: String,
    cmake_contents: String,
}

#[verifier::ext_equal]
pub struct CMakeV {
    pub build_path: Seq<char>,
    pub path: Seq<char>,
    pub contents: Seq<char>,
}

impl View for CMake {
    type V = CMakeV;

    closed spec fn view(&self) -> CMakeV {
        CMakeV {
            build_path: self.build_path@,
            path: self.path@,
            contents: self.cmake_contents@,
        }
    }
}

/// One path in a rendered list: a tab, then the path quoted and escaped.
pub open spec fn spec_path_line(p: Seq<char>) -> Seq<char> {
    "\t\""@ + spec_escape(p) + "\""@
}

/// A rendered list of paths, one per line.
pub open spec fn spec_path_block(paths: Seq<Seq<char>>) -> Seq<char>
    decreases paths.len(),
{
    if paths.len() == 0 {
        Seq::empty()
    } else if paths.len() == 1 {
        spec_path_line(paths[0])
    } else {
        spec_path_line(paths[0]) + "\n"@ + spec_path_block(paths.drop_first())
    }
}

/// The full rendered build description for a binary target.
pub open spec fn spec_cmake_render(
    name: Seq<char>,
    sources: Seq<Seq<char>>,
    dirs: Seq<Seq<char>>,
) -> Seq<char> {
    templates::CMAKE_HEAD@ + name + templates::CMAKE_PROJECT_TAIL@ + name
        + templates::CMAKE_LIST_OPEN@ + spec_path_block(sources) + templates::CMAKE_LIST_CLOSE@
        + name + templates::CMAKE_DIRS_OPEN@ + spec_path_block(dirs)
        + templates::CMAKE_DIRS_CLOSE@
}

/// The content hash of the description: the digest of the exact rendered
/// text, so that any change of the rendered output counts as stale.
pub open spec fn spec_cmake_hash(c: CMakeV) -> Seq<u8> {
    sha256_of(spec_utf8(c.contents))
}

proof fn lemma_path_block_push(paths: Seq<Seq<char>>, p: Seq<char>)
    ensures
        spec_path_block(paths.push(p)) == if paths.len() == 0 {
            spec_path_line(p)
        } else {
            spec_path_block(paths) + "\n"@ + spec_path_line(p)
        },
    decreases paths.len(),
{
    if paths.len() == 0 {
        assert(paths.push(p)[0] == p);
        assert(spec_path_block(paths.push(p)) == spec_path_line(p));
    } else if paths.len() == 1 {
        assert(paths.push(p)[0] == paths[0]);
        assert(paths.push(p).drop_first() =~= seq![p]);
        assert(spec_path_block(seq![p]) == spec_path_line(p));
    } else {
        assert(paths.push(p)[0] == paths[0]);
        assert(paths.push(p).drop_first() =~= paths.drop_first().push(p));
        lemma_path_block_push(paths.drop_first(), p);
        assert(spec_path_block(paths.push(p)) =~= spec_path_block(paths) + "\n"@
            + spec_path_line(p));
    }
}

fn path_line(p: &str) -> (r: String)
    ensures
        r@ == spec_path_line(p@),
{
    let mut s = "\t\"".to_owned();
    let e = escape(p);
    s.append(e.as_str());
    s.append("\"");
    s
}

fn path_block(paths: &Vec<String>) -> (r: String)
    ensures
        r@ == spec_path_block(paths@.map_values(|s: String| s@)),
{
    let ghost pv = paths@.map_values(|s: String| s@);
    let mut out = String::new();
    let mut i: usize = 0;
    proof {
        assert(pv.take(0) =~= Seq::<Seq<char>>::empty());
        assert(out@ =~= spec_path_block(pv.take(0)));
    }
    while i < paths.len()
        invariant
            i <= paths.len(),
            pv == paths@.map_values(|s: String| s@),
            out@ == spec_path_block(pv.take(i as int)),
        decreases paths.len() - i,
    {
        if i > 0 {
            out.append("\n");
        }
        let line = path_line(paths[i].as_str());
        out.append(line.as_str());
        proof {
            assert(pv[i as int] == paths@[i as int]@);
            lemma_path_block_push(pv.take(i as int), pv[i as int]);
            assert(pv.take(i as int).push(pv[i as int]) =~= pv.take(i + 1));
        }
        i = i + 1;
    }
    proof {
        assert(pv.take(paths@.len() as int) =~= pv);
    }
    out
}

impl CMake {
    /// The build description for a binary package: the project's own
    /// sources and directories, resolved against the manifest's directory,
    /// followed by every dependency's contributions, rendered into the fixed
    /// template.
    pub fn new_binary(
        base_dir: &str,
        manifest: &Manifest,
        manifest_dir: &str,
        dependency_manager: &DependencyManager,
    ) -> (r: Result<CMake, String>)
        ensures
            match r {
                Ok(c) => c@ == (CMakeV {
                    build_path: base_dir@,
                    path: spec_path_join(base_dir@, "CMakeLists.txt"@),
                    contents: spec_cmake_render(
                        manifest@.name,
                        manifest@.src.map_values(|s: Seq<char>| spec_path_join(manifest_dir@, s)),
                        manifest@.includes.map_values(
                            |s: Seq<char>| spec_path_join(manifest_dir@, s),
                        ),
                    ),
                }),
                Err(_) => false,
            },
    {
        let path = path_join(base_dir, "CMakeLists.txt");
        let ghost src_target = manifest@.src.map_values(
            |s: Seq<char>| spec_path_join(manifest_dir@, s),
        );
        let ghost dir_target = manifest@.includes.map_values(
            |s: Seq<char>| spec_path_join(manifest_dir@, s),
        );
        let src = manifest.src();
        let mut sources: Vec<String> = Vec::new();
        let mut i: usize = 0;
        proof {
            assert(sources@.map_values(|s: String| s@) =~= src_target.take(0));
        }
        while i < src.len()
            invariant
                i <= src@.len(),
                src@.map_values(|s: String| s@) == manifest@.src,
                src_target == manifest@.src.map_values(
                    |s: Seq<char>| spec_path_join(manifest_dir@, s),
                ),
                sources@.map_values(|s: String| s@) == src_target.take(i as int),
            decreases src@.len() - i,
        {
            let ghost acc = sources@.map_values(|s: String| s@);
            sources.push(path_join(manifest_dir, src[i].as_str()));
            proof {
                assert(manifest@.src[i as int] == src@[i as int]@);
                assert(src_target[i as int] == spec_path_join(
                    manifest_dir@,
                    manifest@.src[i as int],
                ));
                assert(sources@.map_values(|s: String| s@) =~= acc.push(
                    src_target[i as int],
                ));
                assert(src_target.take(i + 1) =~= src_target.take(i as int).push(
                    src_target[i as int],
                ));
            }
            i = i + 1;
        }
        proof {
            assert(src_target.take(src@.len() as int) =~= src_target);
        }
        let inc = manifest.includes();
        let mut dirs: Vec<String> = Vec::new();
        let mut i: usize = 0;
        proof {
            assert(dirs@.map_values(|s: String| s@) =~= dir_target.take(0));
        }
        while i < inc.len()
            invariant
                i <= inc@.len(),
                inc@.map_values(|s: String| s@) == manifest@.includes,
                dir_target == manifest@.includes.map_values(
                    |s: Seq<char>| spec_path_join(manifest_dir@, s),
                ),
                dirs@.map_values(|s: String| s@) == dir_target.take(i as int),
            decreases inc@.len() - i,
        {
            let ghost acc = dirs@.map_values(|s: String| s@);
            dirs.push(path_join(manifest_dir, inc[i].as_str()));
            proof {
                assert(manifest@.includes[i as int] == inc@[i as int]@);
                assert(dir_target[i as int] == spec_path_join(
                    manifest_dir@,
                    manifest@.includes[i as int],
                ));
                assert(dirs@.map_values(|s: String| s@) =~= acc.push(dir_target[i as int]));
                assert(dir_target.take(i + 1) =~= dir_target.take(i as int).push(
                    dir_target[i as int],
                ));
            }
            i = i + 1;
        }
        proof {
            assert(dir_target.take(inc@.len() as int) =~= dir_target);
        }
        let deps = manifest.dependencies();
        let mut i: usize = 0;
        while i < deps.len()
            invariant
                i <= deps@.len(),
                sources@.map_values(|s: String| s@) == src_target,
                dirs@.map_values(|s: String| s@) == dir_target,
            decreases deps@.len() - i,
        {
            let ghost s_before = sources@;
            let ghost d_before = dirs@;
            let dependency_name = deps[i].name();
            let mut extra_sources = dependency_manager.get_sources(dependency_name.as_str());
            sources.append(&mut extra_sources);
            let mut extra_dirs = dependency_manager.get_includes(dependency_name.as_str());
            dirs.append(&mut extra_dirs);
            proof {
                assert(sources@ =~= s_before);
                assert(dirs@ =~= d_before);
            }
            i = i + 1;
        }
        let sources_block = path_block(&sources);
        let dirs_block = path_block(&dirs);
        let mut cmake_contents = templates::CMAKE_HEAD.to_owned();
        cmake_contents.append(manifest.name());
        cmake_contents.append(templates::CMAKE_PROJECT_TAIL);
        cmake_contents.append(manifest.name());
        cmake_contents.append(templates::CMAKE_LIST_OPEN);
        cmake_contents.append(sources_block.as_str());
        cmake_contents.append(templates::CMAKE_LIST_CLOSE);
        cmake_contents.append(manifest.name());
        cmake_contents.append(templates::CMAKE_DIRS_OPEN);
        cmake_contents.append(dirs_block.as_str());
        cmake_contents.append(templates::CMAKE_DIRS_CLOSE);
        Ok(
            CMake {
                build_path: base_dir.to_owned(),
                path,
                cmake_contents,
            },
        )
    }

    /// The exact rendered text of the description.
    pub fn contents(&self) -> (r: &str)
        ensures
            r@ == self@.contents,
    {
        self.cmake_contents.as_str()
    }

    /// Where the rendered description is written: `CMakeLists.txt` inside
    /// the build output directory.
    pub fn path(&self) -> (r: &str)
        ensures
            r@ == self@.path,
    {
        self.path.as_str()
    }

    pub fn build_path(&self) -> (r: &str)
        ensures
            r@ == self@.build_path,
    {
        self.build_path.as_str()
    }

    /// The digest of the exact rendered text.
    pub fn hash(&self) -> (r: Vec<u8>)
        ensures
            r@ == spec_cmake_hash(self@),
            r@.len() == 32,
    {
        sha256(self.cmake_contents.as_str().as_bytes())
    }
}

} // verus!
