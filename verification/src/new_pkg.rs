//! Argument parsing for the package-scaffolding command in its plain form:
//! `new <path>` or `new --bin|--lib <path>`, with the package name taken
//! from the path's file name.

use vstd::prelude::*;

use crate::manifest::PackageType;
use crate::text::{file_name, spec_file_name, str_eq};

verus! {

pub struct NewPkg {
    path: String,
    name: String,
    pkg_type: PackageType,
}

#[verifier::ext_equal]
pub struct NewPkgV {
    pub path: Seq<char>,
    pub name: Seq<char>,
    pub pkg_type: PackageType,
}

impl View for NewPkg {
    type V = NewPkgV;

    closed spec fn view(&self) -> NewPkgV {
        NewPkgV { path: self.path@, name: self.name@, pkg_type: self.pkg_type }
    }
}

impl Default for NewPkg {
    fn default() -> (r: Self)
        ensures
            r@ == (NewPkgV {
                path: Seq::<char>::empty(),
                name: Seq::<char>::empty(),
                pkg_type: PackageType::Binary,
            }),
    {
        NewPkg { path: String::new(), name: String::new(), pkg_type: PackageType::Binary }
    }
}

/// What a parsed argument list means: `new <path>` keeps the kind already
/// chosen, `new --bin <path>` and `new --lib <path>` pick it; anything else
/// is not this command.
pub open spec fn spec_parse_args(old: NewPkgV, args: Seq<Seq<char>>) -> Option<NewPkgV> {
    if args.len() == 2 {
        if args[0] != "new"@ {
            None
        } else {
            Some(NewPkgV { path: args[1], name: spec_file_name(args[1]), pkg_type: old.pkg_type })
        }
    } else if args.len() == 3 {
        if args[0] != "new"@ {
            None
        } else if args[1] == "--bin"@ {
            Some(
                NewPkgV {
                    path: args[2],
                    name: spec_file_name(args[2]),
                    pkg_type: PackageType::Binary,
                },
            )
        } else if args[1] == "--lib"@ {
            Some(
                NewPkgV {
                    path: args[2],
                    name: spec_file_name(args[2]),
                    pkg_type: PackageType::Library,
                },
            )
        } else {
            None
        }
    } else {
        None
    }
}

impl NewPkg {
    pub fn path(&self) -> (r: &str)
        ensures
            r@ == self@.path,
    {
        self.path.as_str()
    }

    pub fn name(&self) -> (r: &str)
        ensures
            r@ == self@.name,
    {
        self.name.as_str()
    }

    pub fn pkg_type(&self) -> (r: PackageType)
        ensures
            r == self@.pkg_type,
    {
        self.pkg_type
    }

    pub fn parse_args(&mut self, args: &[String]) -> (r: Option<()>)
        ensures
            ({
                let av = args@.map_values(|a: String| a@);
                match r {
                    Some(_) => spec_parse_args(old(self)@, av) == Some(final(self)@),
                    None => spec_parse_args(old(self)@, av) == None::<NewPkgV> && *final(self)
                        == *old(self),
                }
            }),
    {
        let ghost av = args@.map_values(|a: String| a@);
        proof {
            assert forall|i: int| 0 <= i < args@.len() implies av[i] == args@[i]@ by {}
        }
        if args.len() == 2 {
            if !str_eq(args[0].as_str(), "new") {
                return None;
            }
            self.path = args[1].clone();
            self.name = file_name(args[1].as_str());
            Some(())
        } else if args.len() == 3 {
            if !str_eq(args[0].as_str(), "new") {
                return None;
            }
            if str_eq(args[1].as_str(), "--bin") {
                self.pkg_type = PackageType::Binary;
            } else if str_eq(args[1].as_str(), "--lib") {
                self.pkg_type = PackageType::Library;
            } else {
                return None;
            }
            self.path = args[2].clone();
            self.name = file_name(args[2].as_str());
            Some(())
        } else {
            None
        }
    }
}

} // verus!
