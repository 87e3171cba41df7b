//! The scaffolding command's decisions: which template kind applies, whether
//! the package name taken from the path is valid, and which files a fresh
//! package consists of. The caller creates the directories and writes the
//! files the plan names; the static C-source templates live with the caller
//! too, keyed by the plan's name and date fields.

use vstd::prelude::*;

use crate::manifest::{spec_valid_name, PackageType};

pub use crate::manifest::is_package_name_valid;
use crate::templates;
use crate::text::{
    format_dec_pad, last_component, path_join, spec_dec_pad, spec_last_component,
    spec_path_join,
};

verus! {

/// Everything the scaffolding command decided: the validated package name,
/// the chosen template kind, the directory and file paths to create, the
/// rendered manifest, the creation date for library headers, and the success
/// message to report.
#[derive(Debug)]
pub struct NewPackagePlan {
    pub package_name: String,
    pub package_type: PackageType,
    pub source_dir: String,
    pub manifest_path: String,
    pub manifest_text: String,
    pub source_path: String,
    pub header_path: Option<String>,
    pub date_text: String,
    pub message: String,
}

#[verifier::ext_equal]
pub struct NewPackagePlanV {
    pub package_name: Seq<char>,
    pub package_type: PackageType,
    pub source_dir: Seq<char>,
    pub manifest_path: Seq<char>,
    pub manifest_text: Seq<char>,
    pub source_path: Seq<char>,
    pub header_path: Option<Seq<char>>,
    pub date_text: Seq<char>,
    pub message: Seq<char>,
}

impl View for NewPackagePlan {
    type V = NewPackagePlanV;

    open spec fn view(&self) -> NewPackagePlanV {
        NewPackagePlanV {
            package_name: self.package_name@,
            package_type: self.package_type,
            source_dir: self.source_dir@,
            manifest_path: self.manifest_path@,
            manifest_text: self.manifest_text@,
            source_path: self.source_path@,
            header_path: match &self.header_path {
                Some(p) => Some(p@),
                None => None,
            },
            date_text: self.date_text@,
            message: self.message@,
        }
    }
}

/// The `mm/dd/yyyy` creation date written into library templates.
pub open spec fn spec_date_text(month: u32, day: u32, year: u32) -> Seq<char> {
    spec_dec_pad(month as int, 2) + "/"@ + spec_dec_pad(day as int, 2) + "/"@ + spec_dec_pad(
        year as int,
        4,
    )
}

pub open spec fn spec_bin_plan(path: Seq<char>, name: Seq<char>, date: Seq<char>) -> NewPackagePlanV {
    NewPackagePlanV {
        package_name: name,
        package_type: PackageType::Binary,
        source_dir: spec_path_join(path, "src"@),
        manifest_path: spec_path_join(path, "Tailor.toml"@),
        manifest_text: templates::MANIFEST_HEAD@ + name + templates::MANIFEST_BIN_TAIL@,
        source_path: spec_path_join(path, "src/main.c"@),
        header_path: None,
        date_text: date,
        message: "    \u{1b}[1;32mCreating\u{1b}[0m binary (application) `"@ + name
            + "` package"@,
    }
}

pub open spec fn spec_lib_plan(path: Seq<char>, name: Seq<char>, date: Seq<char>) -> NewPackagePlanV {
    NewPackagePlanV {
        package_name: name,
        package_type: PackageType::Library,
        source_dir: spec_path_join(path, "src/"@ + name),
        manifest_path: spec_path_join(path, "Tailor.toml"@),
        manifest_text: templates::MANIFEST_HEAD@ + name + templates::MANIFEST_LIB_TAIL@,
        source_path: spec_path_join(path, "src/"@ + name + ".c"@),
        header_path: Some(spec_path_join(path, "src/"@ + name + "/"@ + name + ".h"@)),
        date_text: date,
        message: "    \u{1b}[1;32mCreating\u{1b}[0m library `"@ + name + "` package"@,
    }
}

/// The whole decision: rejects conflicting template flags, takes the package
/// name from the path's last component, validates it, and plans the chosen
/// template. The binary template is the default.
pub open spec fn spec_cmd_new(
    path: Seq<char>,
    bin: bool,
    lib: bool,
    month: u32,
    day: u32,
    year: u32,
) -> Result<NewPackagePlanV, Seq<char>> {
    if bin && lib {
        Err("You need to choose only one package template kind: bin or lib"@)
    } else {
        let name = spec_last_component(path);
        if !spec_valid_name(name) {
            Err("Invalid package name "@ + name)
        } else {
            let date = spec_date_text(month, day, year);
            if lib {
                Ok(spec_lib_plan(path, name, date))
            } else {
                Ok(spec_bin_plan(path, name, date))
            }
        }
    }
}

fn date_text(month: u32, day: u32, year: u32) -> (r: String)
    ensures
        r@ == spec_date_text(month, day, year),
{
    let mut s = format_dec_pad(month, 2);
    s.append("/");
    let d = format_dec_pad(day, 2);
    s.append(d.as_str());
    s.append("/");
    let y = format_dec_pad(year, 4);
    s.append(y.as_str());
    s
}

pub fn cmd_new(path: &str, bin: bool, lib: bool, month: u32, day: u32, year: u32) -> (r:
    Result<NewPackagePlan, String>)
    requires
        path@.len() > 0,
    ensures
        match r {
            Ok(plan) => spec_cmd_new(path@, bin, lib, month, day, year) == Ok::<_, Seq<char>>(
                plan@,
            ),
            Err(e) => spec_cmd_new(path@, bin, lib, month, day, year) == Err::<
                NewPackagePlanV,
                _,
            >(e@),
        },
{
    if bin && lib {
        return Err(
            "You need to choose only one package template kind: bin or lib".to_owned(),
        );
    }
    let package_name = last_component(path);
    if !is_package_name_valid(package_name.as_str()) {
        let mut e = "Invalid package name ".to_owned();
        e.append(package_name.as_str());
        return Err(e);
    }
    let date = date_text(month, day, year);
    if lib {
        let mut src_rel = "src/".to_owned();
        src_rel.append(package_name.as_str());
        let mut source_rel = "src/".to_owned();
        source_rel.append(package_name.as_str());
        source_rel.append(".c");
        let mut header_rel = "src/".to_owned();
        header_rel.append(package_name.as_str());
        header_rel.append("/");
        header_rel.append(package_name.as_str());
        header_rel.append(".h");
        let mut manifest_text = templates::MANIFEST_HEAD.to_owned();
        manifest_text.append(package_name.as_str());
        manifest_text.append(templates::MANIFEST_LIB_TAIL);
        let mut message = "    \u{1b}[1;32mCreating\u{1b}[0m library `".to_owned();
        message.append(package_name.as_str());
        message.append("` package");
        Ok(
            NewPackagePlan {
                package_name,
                package_type: PackageType::Library,
                source_dir: path_join(path, src_rel.as_str()),
                manifest_path: path_join(path, "Tailor.toml"),
                manifest_text,
                source_path: path_join(path, source_rel.as_str()),
                header_path: Some(path_join(path, header_rel.as_str())),
                date_text: date,
                message,
            },
        )
    } else {
        let mut manifest_text = templates::MANIFEST_HEAD.to_owned();
        manifest_text.append(package_name.as_str());
        manifest_text.append(templates::MANIFEST_BIN_TAIL);
        let mut message = "    \u{1b}[1;32mCreating\u{1b}[0m binary (application) `".to_owned();
        message.append(package_name.as_str());
        message.append("` package");
        Ok(
            NewPackagePlan {
                package_name,
                package_type: PackageType::Binary,
                source_dir: path_join(path, "src"),
                manifest_path: path_join(path, "Tailor.toml"),
                manifest_text,
                source_path: path_join(path, "src/main.c"),
                header_path: None,
                date_text: date,
                message,
            },
        )
    }
}

} // verus!
