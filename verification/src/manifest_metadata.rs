//! The build-state cache: one record per build output directory, holding the
//! hash of the last-seen manifest, the hash of the last-generated build
//! description, and the record's own canonical path (so that a copied or
//! moved build directory is recognised as stale). The record is rendered to
//! and read back from `TailorMetadata.toml`.

use vstd::prelude::*;

use crate::cmake::{spec_cmake_hash, CMake};
use crate::document::{
    lemma_parse_empty_line, lemma_parse_entry_line, lemma_split_line, lookup, parse_doc,
    spec_lookup, spec_parse_doc, spec_split, ScalarV, SectionV, ValueV, DocScalar, DocValue,
};
use crate::hashing::{
    bytes_eq, hex_decode, hex_encode, lemma_hex_encode_plain, lemma_hex_round_trip,
    spec_hex_decode, spec_hex_encode,
};
use crate::manifest::{spec_manifest_hash, Manifest};
use crate::text::{
    escape, lemma_escape_no_newline, lemma_escape_plain, path_join, spec_escape, spec_path_join,
    str_eq,
};

verus! {

#[derive(Debug, PartialEq)]
pub struct ManifestMetadata {
    path: String,
    cmake_hash: Vec<u8>,
    manifest_hash: Vec<u8>,
}

#[verifier::ext_equal]
pub struct MetadataV {
    pub path: Seq<char>,
    pub cmake_hash: Seq<u8>,
    pub manifest_hash: Seq<u8>,
}

impl View for ManifestMetadata {
    type V = MetadataV;

    closed spec fn view(&self) -> MetadataV {
        MetadataV {
            path: self.path@,
            cmake_hash: self.cmake_hash@,
            manifest_hash: self.manifest_hash@,
        }
    }
}

/// Where the record lives inside a build output directory.
pub open spec fn spec_metadata_path(base_dir: Seq<char>) -> Seq<char> {
    spec_path_join(base_dir, "TailorMetadata.toml"@)
}

/// What is wrong with a persisted record.
#[derive(Debug, PartialEq, Clone)]
pub enum MetadataError {
    InvalidFormat,
    MissingPath,
    PathNotString,
    MissingAttribute(String),
    AttributeNotString(String),
    InvalidHash,
}

#[verifier::ext_equal]
pub enum MetadataErrorV {
    InvalidFormat,
    MissingPath,
    PathNotString,
    MissingAttribute(Seq<char>),
    AttributeNotString(Seq<char>),
    InvalidHash,
}

impl View for MetadataError {
    type V = MetadataErrorV;

    open spec fn view(&self) -> MetadataErrorV {
        match self {
            MetadataError::InvalidFormat => MetadataErrorV::InvalidFormat,
            MetadataError::MissingPath => MetadataErrorV::MissingPath,
            MetadataError::PathNotString => MetadataErrorV::PathNotString,
            MetadataError::MissingAttribute(a) => MetadataErrorV::MissingAttribute(a@),
            MetadataError::AttributeNotString(a) => MetadataErrorV::AttributeNotString(a@),
            MetadataError::InvalidHash => MetadataErrorV::InvalidHash,
        }
    }
}

impl MetadataError {
    /// The diagnostic text for this error.
    pub fn message(&self) -> (r: String)
        ensures
            r@ == spec_metadata_error_message(self@),
    {
        match self {
            MetadataError::InvalidFormat => "Invalid TailorMetadata.toml format".to_owned(),
            MetadataError::MissingPath => "Failed to get path from TailorMetadata.toml"
                .to_owned(),
            MetadataError::PathNotString => "Path must be a string".to_owned(),
            MetadataError::MissingAttribute(a) => {
                let mut s = "Attribute ".to_owned();
                s.append(a.as_str());
                s.append(" not found");
                s
            },
            MetadataError::AttributeNotString(a) => {
                let mut s = a.clone();
                s.append(" must be a string");
                s
            },
            MetadataError::InvalidHash => "Failed to parse hash".to_owned(),
        }
    }
}

pub open spec fn spec_metadata_error_message(e: MetadataErrorV) -> Seq<char> {
    match e {
        MetadataErrorV::InvalidFormat => "Invalid TailorMetadata.toml format"@,
        MetadataErrorV::MissingPath => "Failed to get path from TailorMetadata.toml"@,
        MetadataErrorV::PathNotString => "Path must be a string"@,
        MetadataErrorV::MissingAttribute(a) => "Attribute "@ + a + " not found"@,
        MetadataErrorV::AttributeNotString(a) => a + " must be a string"@,
        MetadataErrorV::InvalidHash => "Failed to parse hash"@,
    }
}

// ---------------------------------------------------------------------------
// Reading a record back.
// ---------------------------------------------------------------------------

pub open spec fn spec_get_hash(
    entries: Seq<(Seq<char>, ValueV)>,
    attr: Seq<char>,
) -> Result<Seq<u8>, MetadataErrorV> {
    match spec_lookup(entries, attr) {
        None => Err(MetadataErrorV::MissingAttribute(attr)),
        Some(ValueV::Scalar(ScalarV::Text(h))) => match spec_hex_decode(h) {
            Some(b) => Ok(b),
            None => Err(MetadataErrorV::InvalidHash),
        },
        Some(_) => Err(MetadataErrorV::AttributeNotString(attr)),
    }
}

pub open spec fn spec_metadata_of_doc(doc: Seq<SectionV>) -> Result<MetadataV, MetadataErrorV> {
    if doc.len() == 0 {
        Err(MetadataErrorV::InvalidFormat)
    } else {
        let root = doc[0].entries;
        match spec_lookup(root, "path"@) {
            None => Err(MetadataErrorV::MissingPath),
            Some(ValueV::Scalar(ScalarV::Text(p))) => match spec_get_hash(
                root,
                "cmake_hash"@,
            ) {
                Err(e) => Err(e),
                Ok(ch) => match spec_get_hash(root, "manifest_hash"@) {
                    Err(e) => Err(e),
                    Ok(mh) => Ok(MetadataV { path: p, cmake_hash: ch, manifest_hash: mh }),
                },
            },
            Some(_) => Err(MetadataErrorV::PathNotString),
        }
    }
}

pub open spec fn spec_parse_metadata(s: Seq<char>) -> Result<MetadataV, MetadataErrorV> {
    match spec_parse_doc(s) {
        Err(()) => Err(MetadataErrorV::InvalidFormat),
        Ok(doc) => spec_metadata_of_doc(doc),
    }
}

// ---------------------------------------------------------------------------
// Writing a record out.
// ---------------------------------------------------------------------------

/// The exact rendered record: three entries, hashes in hexadecimal, the path
/// escaped.
pub open spec fn spec_render_metadata(m: MetadataV) -> Seq<char> {
    "cmake_hash = \""@ + spec_hex_encode(m.cmake_hash) + "\"\n"@ + "manifest_hash = \""@
        + spec_hex_encode(m.manifest_hash) + "\"\n"@ + "path = \""@ + spec_escape(m.path)
        + "\"\n"@
}

impl ManifestMetadata {
    /// The never-built state for a build output directory: all-zero hashes,
    /// which no content hash is ever expected to equal.
    pub fn empty(base_dir: &str) -> (r: Self)
        ensures
            r@ == (MetadataV {
                path: spec_metadata_path(base_dir@),
                cmake_hash: Seq::new(32, |i: int| 0u8),
                manifest_hash: Seq::new(32, |i: int| 0u8),
            }),
    {
        let r = ManifestMetadata {
            path: path_join(base_dir, "TailorMetadata.toml"),
            cmake_hash: zero_hash(),
            manifest_hash: zero_hash(),
        };
        r
    }

    /// Whether the recorded manifest hash matches the given manifest's
    /// current content hash.
    pub fn is_manifest_valid(&self, manifest: &Manifest) -> (r: bool)
        ensures
            r == (self@.manifest_hash == spec_manifest_hash(manifest@)),
    {
        let h = manifest.hash();
        bytes_eq(self.manifest_hash.as_slice(), h.as_slice())
    }

    /// Whether the recorded description hash matches the given description's
    /// current content hash.
    pub fn is_cmake_valid(&self, cmake: &CMake) -> (r: bool)
        ensures
            r == (self@.cmake_hash == spec_cmake_hash(cmake@)),
    {
        let h = cmake.hash();
        bytes_eq(self.cmake_hash.as_slice(), h.as_slice())
    }

    /// Whether the record belongs to the given build output directory, which
    /// detects a copied or moved build directory.
    pub fn is_path_valid(&self, base_dir: &str) -> (r: bool)
        ensures
            r == (self@.path == spec_metadata_path(base_dir@)),
    {
        let expected = path_join(base_dir, "TailorMetadata.toml");
        str_eq(self.path.as_str(), expected.as_str())
    }

    pub fn update_cmake_hash(&mut self, hash: Vec<u8>)
        ensures
            final(self)@ == (MetadataV { cmake_hash: hash@, ..old(self)@ }),
    {
        self.cmake_hash = hash;
    }

    pub fn update_manifest_hash(&mut self, hash: Vec<u8>)
        ensures
            final(self)@ == (MetadataV { manifest_hash: hash@, ..old(self)@ }),
    {
        self.manifest_hash = hash;
    }

    /// The record as it is persisted.
    pub fn render(&self) -> (r: String)
        ensures
            r@ == spec_render_metadata(self@),
    {
        let mut out = "cmake_hash = \"".to_owned();
        let ch = hex_encode(self.cmake_hash.as_slice());
        out.append(ch.as_str());
        out.append("\"\n");
        out.append("manifest_hash = \"");
        let mh = hex_encode(self.manifest_hash.as_slice());
        out.append(mh.as_str());
        out.append("\"\n");
        out.append("path = \"");
        let p = escape(self.path.as_str());
        out.append(p.as_str());
        out.append("\"\n");
        proof {
            assert(out@ =~= spec_render_metadata(self@));
        }
        out
    }

    /// A record read back from its persisted text.
    pub fn from_text(text: &str) -> (r: Result<ManifestMetadata, MetadataError>)
        ensures
            match r {
                Ok(m) => spec_parse_metadata(text@) == Ok::<_, MetadataErrorV>(m@),
                Err(e) => spec_parse_metadata(text@) == Err::<MetadataV, _>(e@),
            },
    {
        let doc = match parse_doc(text) {
            Some(doc) => doc,
            None => {
                return Err(MetadataError::InvalidFormat);
            },
        };
        proof {
            assert(doc@[0] == doc.sections@[0]@);
        }
        let root = &doc.sections[0].entries;
        let path = match lookup(root, "path") {
            None => {
                return Err(MetadataError::MissingPath);
            },
            Some(DocValue::Scalar(DocScalar::Text(p))) => p.clone(),
            Some(_) => {
                return Err(MetadataError::PathNotString);
            },
        };
        let cmake_hash = match get_hash(root, "cmake_hash") {
            Ok(h) => h,
            Err(e) => {
                return Err(e);
            },
        };
        let manifest_hash = match get_hash(root, "manifest_hash") {
            Ok(h) => h,
            Err(e) => {
                return Err(e);
            },
        };
        Ok(ManifestMetadata { path, cmake_hash, manifest_hash })
    }
}

fn zero_hash() -> (r: Vec<u8>)
    ensures
        r@ == Seq::new(32, |i: int| 0u8),
{
    let mut v: Vec<u8> = Vec::new();
    let mut i: usize = 0;
    while i < 32
        invariant
            i <= 32,
            v@.len() == i,
            forall|j: int| 0 <= j < i ==> v@[j] == 0u8,
        decreases 32 - i,
    {
        v.push(0u8);
        i = i + 1;
    }
    proof {
        assert(v@ =~= Seq::new(32, |i: int| 0u8));
    }
    v
}

fn get_hash(entries: &Vec<(String, DocValue)>, attr: &str) -> (r: Result<
    Vec<u8>,
    MetadataError,
>)
    ensures
        ({
            let ev = entries@.map_values(|p: (String, DocValue)| (p.0@, p.1@));
            match r {
                Ok(h) => spec_get_hash(ev, attr@) == Ok::<_, MetadataErrorV>(h@),
                Err(e) => spec_get_hash(ev, attr@) == Err::<Seq<u8>, _>(e@),
            }
        }),
{
    match lookup(entries, attr) {
        None => Err(MetadataError::MissingAttribute(attr.to_owned())),
        Some(DocValue::Scalar(DocScalar::Text(h))) => match hex_decode(h.as_str()) {
            Some(b) => Ok(b),
            None => Err(MetadataError::InvalidHash),
        },
        Some(_) => Err(MetadataError::AttributeNotString(attr.to_owned())),
    }
}

// ---------------------------------------------------------------------------
// The round trip: a rendered record reads back as itself.
// ---------------------------------------------------------------------------

/// Writing a build-state record and reading the same text back reproduces
/// the record exactly: both hash fields and the path.
pub proof fn lemma_metadata_round_trip(m: MetadataV)
    ensures
        spec_parse_metadata(spec_render_metadata(m)) == Ok::<_, MetadataErrorV>(m),
{
    reveal_strlit("cmake_hash = \"");
    reveal_strlit("manifest_hash = \"");
    reveal_strlit("path = \"");
    reveal_strlit("cmake_hash");
    reveal_strlit("manifest_hash");
    reveal_strlit("path");
    reveal_strlit(" = \"");
    reveal_strlit("\"");
    reveal_strlit("\"\n");
    let hc = spec_hex_encode(m.cmake_hash);
    let hm = spec_hex_encode(m.manifest_hash);
    let k1 = "cmake_hash"@;
    let k2 = "manifest_hash"@;
    let k3 = "path"@;
    lemma_hex_encode_plain(m.cmake_hash);
    lemma_hex_encode_plain(m.manifest_hash);
    lemma_escape_plain(hc);
    lemma_escape_plain(hm);
    lemma_escape_no_newline(m.path);
    // the three rendered lines
    let text = spec_render_metadata(m);
    let line1 = k1 + " = \""@ + hc + "\""@;
    let line2 = k2 + " = \""@ + hm + "\""@;
    let line3 = k3 + " = \""@ + spec_escape(m.path) + "\""@;
    assert(text =~= line1 + seq!['\n'] + (line2 + seq!['\n'] + (line3 + seq!['\n']
        + Seq::<char>::empty())));
    // each line is newline-free, so the text splits into the three lines and
    // one trailing empty line
    assert forall|i: int| 0 <= i < line1.len() implies crate::document::s_no_newline(
        line1,
        i,
    ) by {
        if i < k1.len() {
        } else if i < k1.len() + 4 {
            assert(line1[i] == " = \""@[i - k1.len()]);
        } else if i < k1.len() + 4 + hc.len() {
            assert(line1[i] == hc[i - k1.len() - 4]);
        } else {
            assert(line1[i] == '"');
        }
    }
    assert forall|i: int| 0 <= i < line2.len() implies crate::document::s_no_newline(
        line2,
        i,
    ) by {
        if i < k2.len() {
        } else if i < k2.len() + 4 {
            assert(line2[i] == " = \""@[i - k2.len()]);
        } else if i < k2.len() + 4 + hm.len() {
            assert(line2[i] == hm[i - k2.len() - 4]);
        } else {
            assert(line2[i] == '"');
        }
    }
    assert forall|i: int| 0 <= i < line3.len() implies crate::document::s_no_newline(
        line3,
        i,
    ) by {
        if i < k3.len() {
        } else if i < k3.len() + 4 {
            assert(line3[i] == " = \""@[i - k3.len()]);
        } else if i < k3.len() + 4 + spec_escape(m.path).len() {
            assert(line3[i] == spec_escape(m.path)[i - k3.len() - 4]);
        } else {
            assert(line3[i] == '"');
        }
    }
    lemma_split_line(line1, line2 + seq!['\n'] + (line3 + seq!['\n'] + Seq::<char>::empty()));
    lemma_split_line(line2, line3 + seq!['\n'] + Seq::<char>::empty());
    lemma_split_line(line3, Seq::<char>::empty());
    assert(spec_split(Seq::<char>::empty(), '\n') == seq![Seq::<char>::empty()]);
    let lines = spec_split(text, '\n');
    assert(lines =~= seq![line1, line2, line3, Seq::<char>::empty()]);
    // each line parses as its entry
    assert(line1 =~= k1 + " = \""@ + spec_escape(hc) + "\""@);
    assert(line2 =~= k2 + " = \""@ + spec_escape(hm) + "\""@);
    lemma_parse_entry_line(k1, hc);
    lemma_parse_entry_line(k2, hm);
    lemma_parse_entry_line(k3, m.path);
    lemma_parse_empty_line();
    // fold the four lines into the document
    let root0 = SectionV { name: Seq::<char>::empty(), entries: Seq::empty() };
    let e1 = (k1, ValueV::Scalar(ScalarV::Text(hc)));
    let e2 = (k2, ValueV::Scalar(ScalarV::Text(hm)));
    let e3 = (k3, ValueV::Scalar(ScalarV::Text(m.path)));
    let acc0 = seq![root0];
    let acc1 = seq![SectionV { name: Seq::<char>::empty(), entries: seq![e1] }];
    let acc2 = seq![SectionV { name: Seq::<char>::empty(), entries: seq![e1, e2] }];
    let acc3 = seq![SectionV { name: Seq::<char>::empty(), entries: seq![e1, e2, e3] }];
    assert(!crate::document::spec_entries_have(acc0.last().entries, k1));
    assert(acc0.update(0, acc1[0]) =~= acc1);
    assert(acc0.last().entries.push(e1) =~= acc1[0].entries);
    assert(k2 != k1) by {
        assert(k1.len() == 10 && k2.len() == 13);
    }
    assert(!crate::document::spec_entries_have(acc1.last().entries, k2));
    assert(acc1.update(0, acc2[0]) =~= acc2);
    assert(acc1.last().entries.push(e2) =~= acc2[0].entries);
    assert(k3 != k1) by {
        assert(k1.len() == 10 && k3.len() == 4);
    }
    assert(k3 != k2) by {
        assert(k2.len() == 13 && k3.len() == 4);
    }
    assert(!crate::document::spec_entries_have(acc2.last().entries, k3));
    assert(acc2.update(0, acc3[0]) =~= acc3);
    assert(acc2.last().entries.push(e3) =~= acc3[0].entries);
    assert(lines.drop_first() =~= seq![line2, line3, Seq::<char>::empty()]);
    assert(lines.drop_first().drop_first() =~= seq![line3, Seq::<char>::empty()]);
    assert(lines.drop_first().drop_first().drop_first() =~= seq![Seq::<char>::empty()]);
    assert(lines.drop_first().drop_first().drop_first().drop_first() =~= Seq::<
        Seq<char>,
    >::empty());
    assert(crate::document::spec_doc_fold(lines, acc0) == Ok::<_, ()>(acc3)) by {
        assert(lines[0] == line1);
        assert(lines.drop_first()[0] == line2);
        assert(lines.drop_first().drop_first()[0] == line3);
        assert(lines.drop_first().drop_first().drop_first()[0] =~= Seq::<char>::empty());
        assert(crate::document::spec_doc_fold(
            lines.drop_first().drop_first().drop_first().drop_first(),
            acc3,
        ) == Ok::<_, ()>(acc3));
        assert(crate::document::spec_doc_fold(
            lines.drop_first().drop_first().drop_first(),
            acc3,
        ) == Ok::<_, ()>(acc3));
        assert(crate::document::spec_doc_fold(lines.drop_first().drop_first(), acc2) == Ok::<
            _,
            (),
        >(acc3));
        assert(crate::document::spec_doc_fold(lines.drop_first(), acc1) == Ok::<_, ()>(acc3));
    }
    assert(spec_parse_doc(text) == Ok::<_, ()>(acc3));
    // and the document reads back as the record
    let root = acc3[0].entries;
    assert(spec_lookup(root, k3) == Some(ValueV::Scalar(ScalarV::Text(m.path)))) by {
        assert(root[0].0 == k1);
        assert(root.drop_first()[0].0 == k2);
        assert(root.drop_first().drop_first()[0] == e3);
        assert(spec_lookup(root.drop_first().drop_first(), k3) == Some(
            ValueV::Scalar(ScalarV::Text(m.path)),
        ));
        assert(spec_lookup(root.drop_first(), k3) == Some(
            ValueV::Scalar(ScalarV::Text(m.path)),
        ));
    }
    assert(spec_lookup(root, k1) == Some(ValueV::Scalar(ScalarV::Text(hc))));
    assert(spec_lookup(root, k2) == Some(ValueV::Scalar(ScalarV::Text(hm)))) by {
        assert(root.drop_first()[0] == e2);
        assert(spec_lookup(root.drop_first(), k2) == Some(ValueV::Scalar(ScalarV::Text(hm))));
    }
    lemma_hex_round_trip(m.cmake_hash);
    lemma_hex_round_trip(m.manifest_hash);
    assert(spec_metadata_of_doc(acc3) == Ok::<_, MetadataErrorV>(m));
}

} // verus!
