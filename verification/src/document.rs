//! The structured key-value document format in which both the project
//! manifest (`Tailor.toml`) and the build-state record are written.
//!
//! A document is a list of sections. Each line is either blank, a comment
//! starting with `#`, a section header `[name]`, or an entry `key = value`.
//! Entries before the first header belong to the root section, whose name is
//! empty. A value is a quoted string (with the usual backslash escapes), a
//! single-line array `[ ... ]` of scalars, a single-line inline table
//! `{ key = scalar, ... }`, or a bare token. Section names are unique, as are
//! keys within one section; a duplicate is a format error.

use vstd::prelude::*;

use crate::text::{
    push_char, spec_escape, spec_escape_char, str_eq,
};

verus! {

// ---------------------------------------------------------------------------
// Data model and views.
// ---------------------------------------------------------------------------

/// A scalar in value position: a quoted string, or a bare token kept
/// verbatim for the consumer to complain about.
pub enum DocScalar {
    Text(String),
    Other(String),
}

#[verifier::ext_equal]
pub enum ScalarV {
    Text(Seq<char>),
    Other(Seq<char>),
}

impl View for DocScalar {
    type V = ScalarV;

    open spec fn view(&self) -> ScalarV {
        match self {
            DocScalar::Text(s) => ScalarV::Text(s@),
            DocScalar::Other(s) => ScalarV::Other(s@),
        }
    }
}

pub enum DocValue {
    Scalar(DocScalar),
    List(Vec<DocScalar>),
    Table(Vec<(String, DocScalar)>),
}

#[verifier::ext_equal]
pub enum ValueV {
    Scalar(ScalarV),
    List(Seq<ScalarV>),
    Table(Seq<(Seq<char>, ScalarV)>),
}

impl View for DocValue {
    type V = ValueV;

    open spec fn view(&self) -> ValueV {
        match self {
            DocValue::Scalar(s) => ValueV::Scalar(s@),
            DocValue::List(items) => ValueV::List(
                items@.map_values(|it: DocScalar| it@),
            ),
            DocValue::Table(pairs) => ValueV::Table(
                pairs@.map_values(|p: (String, DocScalar)| (p.0@, p.1@)),
            ),
        }
    }
}

pub struct DocSection {
    pub name: String,
    pub entries: Vec<(String, DocValue)>,
}

#[verifier::ext_equal]
pub struct SectionV {
    pub name: Seq<char>,
    pub entries: Seq<(Seq<char>, ValueV)>,
}

impl View for DocSection {
    type V = SectionV;

    open spec fn view(&self) -> SectionV {
        SectionV {
            name: self.name@,
            entries: self.entries@.map_values(|p: (String, DocValue)| (p.0@, p.1@)),
        }
    }
}

/// A parsed document: its sections, root section first.
pub struct Doc {
    pub sections: Vec<DocSection>,
}

impl View for Doc {
    type V = Seq<SectionV>;

    open spec fn view(&self) -> Seq<SectionV> {
        self.sections@.map_values(|s: DocSection| s@)
    }
}

// ---------------------------------------------------------------------------
// Character classes and trimming.
// ---------------------------------------------------------------------------

/// Horizontal whitespace; a carriage return counts so that CRLF input works.
pub open spec fn spec_ws(c: char) -> bool {
    c == ' ' || c == '\t' || c == '\r'
}

fn is_ws(c: char) -> (r: bool)
    ensures
        r == spec_ws(c),
{
    c == ' ' || c == '\t' || c == '\r'
}

pub open spec fn spec_ltrim(s: Seq<char>) -> Seq<char>
    decreases s.len(),
{
    if s.len() > 0 && spec_ws(s[0]) {
        spec_ltrim(s.drop_first())
    } else {
        s
    }
}

pub open spec fn spec_rtrim(s: Seq<char>) -> Seq<char>
    decreases s.len(),
{
    if s.len() > 0 && spec_ws(s.last()) {
        spec_rtrim(s.drop_last())
    } else {
        s
    }
}

pub open spec fn spec_trim(s: Seq<char>) -> Seq<char> {
    spec_ltrim(spec_rtrim(s))
}

pub fn ltrim<'a>(s: &'a str) -> (r: &'a str)
    ensures
        r@ == spec_ltrim(s@),
{
    let len = s.unicode_len();
    let mut a: usize = 0;
    proof {
        assert(s@.skip(0) =~= s@);
    }
    while a < len && is_ws(s.get_char(a))
        invariant
            a <= len,
            len == s@.len(),
            spec_ltrim(s@) == spec_ltrim(s@.skip(a as int)),
        decreases len - a,
    {
        proof {
            assert(s@.skip(a as int).drop_first() =~= s@.skip(a + 1));
        }
        a = a + 1;
    }
    let r = s.substring_char(a, len);
    proof {
        assert(r@ =~= s@.skip(a as int));
    }
    r
}

pub fn rtrim<'a>(s: &'a str) -> (r: &'a str)
    ensures
        r@ == spec_rtrim(s@),
{
    let len = s.unicode_len();
    let mut b: usize = len;
    proof {
        assert(s@.take(len as int) =~= s@);
    }
    while b > 0 && is_ws(s.get_char(b - 1))
        invariant
            b <= len,
            len == s@.len(),
            spec_rtrim(s@) == spec_rtrim(s@.take(b as int)),
        decreases b,
    {
        proof {
            assert(s@.take(b as int).drop_last() =~= s@.take(b - 1));
        }
        b = b - 1;
    }
    s.substring_char(0, b)
}

pub fn trim<'a>(s: &'a str) -> (r: &'a str)
    ensures
        r@ == spec_trim(s@),
{
    ltrim(rtrim(s))
}

/// A trimmed sequence neither starts nor ends with whitespace, and trimming
/// it again changes nothing.
pub proof fn lemma_trim_clean(s: Seq<char>)
    requires
        s.len() == 0 || (!spec_ws(s[0]) && !spec_ws(s.last())),
    ensures
        spec_trim(s) == s,
{
    assert(spec_rtrim(s) == s);
    assert(spec_ltrim(s) == s);
}

proof fn lemma_ltrim_first(s: Seq<char>)
    ensures
        spec_ltrim(s).len() > 0 ==> !spec_ws(spec_ltrim(s)[0]),
    decreases s.len(),
{
    if s.len() > 0 && spec_ws(s[0]) {
        lemma_ltrim_first(s.drop_first());
    }
}

proof fn lemma_ltrim_last(s: Seq<char>)
    ensures
        spec_ltrim(s).len() > 0 ==> s.len() > 0 && spec_ltrim(s).last() == s.last(),
    decreases s.len(),
{
    if s.len() > 0 && spec_ws(s[0]) {
        lemma_ltrim_last(s.drop_first());
    }
}

proof fn lemma_rtrim_last(s: Seq<char>)
    ensures
        spec_rtrim(s).len() > 0 ==> !spec_ws(spec_rtrim(s).last()),
    decreases s.len(),
{
    if s.len() > 0 && spec_ws(s.last()) {
        lemma_rtrim_last(s.drop_last());
    }
}

/// Trimming is idempotent.
pub proof fn lemma_trim_idempotent(s: Seq<char>)
    ensures
        spec_trim(spec_trim(s)) == spec_trim(s),
{
    let r = spec_rtrim(s);
    let t = spec_ltrim(r);
    if t.len() == 0 {
        assert(spec_rtrim(t) == t);
        assert(spec_ltrim(t) == t);
    } else {
        lemma_ltrim_first(r);
        lemma_rtrim_last(s);
        lemma_ltrim_last(r);
        lemma_trim_clean(t);
    }
}

// ---------------------------------------------------------------------------
// Finding a character.
// ---------------------------------------------------------------------------

/// The first position at or after `i` holding `c`, or the length if there is
/// none.
pub open spec fn spec_find(s: Seq<char>, i: int, c: char) -> int
    decreases s.len() - i,
{
    if !(0 <= i < s.len()) {
        s.len() as int
    } else if s[i] == c {
        i
    } else {
        spec_find(s, i + 1, c)
    }
}

pub proof fn lemma_find_props(s: Seq<char>, i: int, c: char)
    requires
        0 <= i <= s.len(),
    ensures
        i <= spec_find(s, i, c) <= s.len(),
        spec_find(s, i, c) < s.len() ==> s[spec_find(s, i, c)] == c,
        forall|j: int| i <= j < spec_find(s, i, c) ==> s[j] != c,
    decreases s.len() - i,
{
    if i < s.len() && s[i] != c {
        lemma_find_props(s, i + 1, c);
    }
}

pub fn find_char(s: &str, from: usize, c: char) -> (r: usize)
    requires
        from <= s@.len(),
    ensures
        r == spec_find(s@, from as int, c),
{
    let len = s.unicode_len();
    let mut i: usize = from;
    while i < len
        invariant
            from <= i <= len,
            len == s@.len(),
            spec_find(s@, from as int, c) == spec_find(s@, i as int, c),
        decreases len - i,
    {
        if s.get_char(i) == c {
            return i;
        }
        i = i + 1;
    }
    i
}

// ---------------------------------------------------------------------------
// Quoted strings.
// ---------------------------------------------------------------------------

/// The character an escape sequence `\x` stands for, if `x` is a recognised
/// escape.
pub open spec fn spec_unescape_char(c: char) -> Option<char> {
    if c == '"' {
        Some('"')
    } else if c == '\\' {
        Some('\\')
    } else if c == 'n' {
        Some('\n')
    } else if c == 't' {
        Some('\t')
    } else if c == 'r' {
        Some('\r')
    } else {
        None
    }
}

fn unescape_char(c: char) -> (r: Option<char>)
    ensures
        r == spec_unescape_char(c),
{
    if c == '"' {
        Some('"')
    } else if c == '\\' {
        Some('\\')
    } else if c == 'n' {
        Some('\n')
    } else if c == 't' {
        Some('\t')
    } else if c == 'r' {
        Some('\r')
    } else {
        None
    }
}

/// Scanning the inside of a quoted string, starting just after the opening
/// quote: the content up to the first unescaped closing quote, and what
/// follows the closing quote. Fails on an unterminated string or an unknown
/// escape.
pub open spec fn spec_scan_quoted(s: Seq<char>) -> Result<(Seq<char>, Seq<char>), ()>
    decreases s.len(),
{
    if s.len() == 0 {
        Err(())
    } else if s[0] == '"' {
        Ok((Seq::empty(), s.drop_first()))
    } else if s[0] == '\\' {
        if s.len() == 1 {
            Err(())
        } else {
            match spec_unescape_char(s[1]) {
                None => Err(()),
                Some(c) => match spec_scan_quoted(s.skip(2)) {
                    Ok((content, rest)) => Ok((seq![c] + content, rest)),
                    Err(()) => Err(()),
                },
            }
        }
    } else {
        match spec_scan_quoted(s.drop_first()) {
            Ok((content, rest)) => Ok((seq![s[0]] + content, rest)),
            Err(()) => Err(()),
        }
    }
}

/// Scanning reads back exactly what escaping wrote: for every string `p` and
/// trailing text `rest`, the scan of `escape(p) + '"' + rest` succeeds with
/// content `p` and leaves `rest`.
pub proof fn lemma_scan_escape(p: Seq<char>, rest: Seq<char>)
    ensures
        spec_scan_quoted(spec_escape(p) + seq!['"'] + rest) == Ok::<_, ()>((p, rest)),
    decreases p.len(),
{
    let s = spec_escape(p) + seq!['"'] + rest;
    if p.len() == 0 {
        assert(spec_escape(p) =~= Seq::<char>::empty());
        assert(s[0] == '"');
        assert(s.drop_first() =~= rest);
        assert(p =~= Seq::<char>::empty());
        assert(spec_scan_quoted(s) == Ok::<_, ()>((p, rest)));
    } else {
        lemma_scan_escape(p.drop_first(), rest);
        let e0 = spec_escape_char(p[0]);
        let s2 = spec_escape(p.drop_first()) + seq!['"'] + rest;
        assert(spec_escape(p) =~= e0 + spec_escape(p.drop_first()));
        if e0.len() == 2 {
            assert(s[0] == '\\');
            assert(s[1] == e0[1]);
            assert(spec_unescape_char(e0[1]) == Some(p[0]));
            assert(s.skip(2) =~= s2);
            assert(spec_scan_quoted(s.skip(2)) == Ok::<_, ()>((p.drop_first(), rest)));
            assert(seq![p[0]] + p.drop_first() =~= p);
            assert(spec_scan_quoted(s) == Ok::<_, ()>((p, rest)));
        } else {
            assert(e0 =~= seq![p[0]]);
            assert(s[0] == p[0]);
            assert(s[0] != '"' && s[0] != '\\');
            assert(s.drop_first() =~= s2);
            assert(spec_scan_quoted(s.drop_first()) == Ok::<_, ()>((p.drop_first(), rest)));
            assert(seq![p[0]] + p.drop_first() =~= p);
            assert(spec_scan_quoted(s) == Ok::<_, ()>((p, rest)));
        }
    }
}

/// The executable scan. On success it returns the content and the index just
/// past the closing quote.
pub fn scan_quoted(s: &str) -> (r: Option<(String, usize)>)
    ensures
        match r {
            Some((content, j)) => j <= s@.len() && spec_scan_quoted(s@) == Ok::<_, ()>(
                (content@, s@.skip(j as int)),
            ),
            None => spec_scan_quoted(s@) == Err::<(Seq<char>, Seq<char>), ()>(()),
        },
    decreases s@.len(),
{
    let len = s.unicode_len();
    if len == 0 {
        return None;
    }
    let c0 = s.get_char(0);
    if c0 == '"' {
        proof {
            assert(s@.skip(1) =~= s@.drop_first());
        }
        return Some((String::new(), 1));
    }
    if c0 == '\\' {
        if len == 1 {
            return None;
        }
        let esc = match unescape_char(s.get_char(1)) {
            Some(c) => c,
            None => {
                return None;
            },
        };
        let tail = s.substring_char(2, len);
        proof {
            assert(tail@ =~= s@.skip(2));
        }
        match scan_quoted(tail) {
            Some((content, j)) => {
                let mut out = String::new();
                push_char(&mut out, esc);
                out.append(content.as_str());
                proof {
                    assert(out@ =~= seq![esc] + content@);
                    assert(s@.skip(2).skip(j as int) =~= s@.skip(j + 2));
                }
                Some((out, j + 2))
            },
            None => None,
        }
    } else {
        let tail = s.substring_char(1, len);
        proof {
            assert(tail@ =~= s@.drop_first());
        }
        match scan_quoted(tail) {
            Some((content, j)) => {
                let mut out = String::new();
                push_char(&mut out, c0);
                out.append(content.as_str());
                proof {
                    assert(out@ =~= seq![c0] + content@);
                    assert(s@.skip(1).skip(j as int) =~= s@.skip(j + 1));
                }
                Some((out, j + 1))
            },
            None => None,
        }
    }
}

// ---------------------------------------------------------------------------
// Splitting on a separator.
// ---------------------------------------------------------------------------

/// The pieces of `s` between occurrences of `sep`; always non-empty, and one
/// piece longer than the number of separators.
pub open spec fn spec_split(s: Seq<char>, sep: char) -> Seq<Seq<char>>
    decreases s.len(),
    via spec_split_decreases
{
    let j = spec_find(s, 0, sep);
    if j == s.len() {
        seq![s]
    } else {
        seq![s.take(j)] + spec_split(s.skip(j + 1), sep)
    }
}

#[via_fn]
proof fn spec_split_decreases(s: Seq<char>, sep: char) {
    lemma_find_props(s, 0, sep);
}

pub fn split_str(s: &str, sep: char) -> (r: Vec<String>)
    ensures
        r@.map_values(|t: String| t@) == spec_split(s@, sep),
{
    let len = s.unicode_len();
    let mut out: Vec<String> = Vec::new();
    let mut p: usize = 0;
    proof {
        assert(s@.skip(0) =~= s@);
        assert(out@.map_values(|t: String| t@) =~= Seq::<Seq<char>>::empty());
    }
    loop
        invariant
            p <= len,
            len == s@.len(),
            spec_split(s@, sep) == out@.map_values(|t: String| t@) + spec_split(
                s@.skip(p as int),
                sep,
            ),
        decreases len - p,
    {
        let ghost prefix = out@.map_values(|t: String| t@);
        let tail = s.substring_char(p, len);
        proof {
            assert(tail@ =~= s@.skip(p as int));
            lemma_find_props(tail@, 0, sep);
        }
        let tlen = len - p;
        let j = find_char(tail, 0, sep);
        if j == tlen {
            out.push(tail.to_owned());
            proof {
                assert(spec_split(tail@, sep) == seq![tail@]);
                assert(out@.map_values(|t: String| t@) =~= prefix.push(tail@));
                assert(prefix.push(tail@) =~= prefix + seq![tail@]);
            }
            return out;
        } else {
            let piece = tail.substring_char(0, j);
            out.push(piece.to_owned());
            proof {
                assert(piece@ =~= tail@.take(j as int));
                assert(spec_split(tail@, sep) == seq![tail@.take(j as int)] + spec_split(
                    tail@.skip(j + 1),
                    sep,
                ));
                assert(tail@.skip(j + 1) =~= s@.skip(p + j + 1));
                assert(out@.map_values(|t: String| t@) =~= prefix.push(piece@));
                assert(prefix.push(piece@) + spec_split(s@.skip(p + j + 1), sep) =~= prefix + (
                seq![piece@] + spec_split(s@.skip(p + j + 1), sep)));
            }
            p = p + j + 1;
        }
    }
}

// ---------------------------------------------------------------------------
// Scalars, arrays and inline tables.
// ---------------------------------------------------------------------------

/// One scalar: a quoted string that the piece must consume entirely, or a
/// bare token taken verbatim (trimmed). An empty piece is an error.
pub open spec fn spec_parse_scalar(piece: Seq<char>) -> Result<ScalarV, ()> {
    let t = spec_trim(piece);
    if t.len() == 0 {
        Err(())
    } else if t[0] == '"' {
        match spec_scan_quoted(t.drop_first()) {
            Ok((content, rest)) => if rest.len() == 0 {
                Ok(ScalarV::Text(content))
            } else {
                Err(())
            },
            Err(()) => Err(()),
        }
    } else {
        Ok(ScalarV::Other(t))
    }
}

pub fn parse_scalar(piece: &str) -> (r: Option<DocScalar>)
    ensures
        match r {
            Some(v) => spec_parse_scalar(piece@) == Ok::<_, ()>(v@),
            None => spec_parse_scalar(piece@) == Err::<ScalarV, ()>(()),
        },
{
    let t = trim(piece);
    let tlen = t.unicode_len();
    if tlen == 0 {
        return None;
    }
    if t.get_char(0) == '"' {
        let inner = t.substring_char(1, tlen);
        proof {
            assert(inner@ =~= t@.drop_first());
        }
        match scan_quoted(inner) {
            Some((content, j)) => {
                if j == tlen - 1 {
                    proof {
                        assert(inner@.skip(j as int).len() == 0);
                        assert(inner@.skip(j as int) =~= Seq::<char>::empty());
                    }
                    Some(DocScalar::Text(content))
                } else {
                    None
                }
            },
            None => None,
        }
    } else {
        Some(DocScalar::Other(t.to_owned()))
    }
}

/// A comma-separated list of scalars, each parsed by [`spec_parse_scalar`].
pub open spec fn spec_parse_scalar_list(pieces: Seq<Seq<char>>) -> Result<Seq<ScalarV>, ()>
    decreases pieces.len(),
{
    if pieces.len() == 0 {
        Ok(Seq::empty())
    } else {
        match spec_parse_scalar(pieces[0]) {
            Err(()) => Err(()),
            Ok(v) => match spec_parse_scalar_list(pieces.drop_first()) {
                Ok(rest) => Ok(seq![v] + rest),
                Err(()) => Err(()),
            },
        }
    }
}

/// The inside of a single-line array `[ ... ]`.
pub open spec fn spec_parse_items(inner: Seq<char>) -> Result<Seq<ScalarV>, ()> {
    if spec_trim(inner).len() == 0 {
        Ok(Seq::empty())
    } else {
        spec_parse_scalar_list(spec_split(inner, ','))
    }
}

pub fn parse_items(inner: &str) -> (r: Option<Vec<DocScalar>>)
    ensures
        match r {
            Some(v) => spec_parse_items(inner@) == Ok::<_, ()>(
                v@.map_values(|x: DocScalar| x@),
            ),
            None => spec_parse_items(inner@) == Err::<Seq<ScalarV>, ()>(()),
        },
{
    let t = trim(inner);
    if t.unicode_len() == 0 {
        let out: Vec<DocScalar> = Vec::new();
        proof {
            assert(out@.map_values(|x: DocScalar| x@) =~= Seq::<ScalarV>::empty());
        }
        return Some(out);
    }
    let pieces = split_str(inner, ',');
    let ghost pv = pieces@.map_values(|t2: String| t2@);
    let mut out: Vec<DocScalar> = Vec::new();
    let mut i: usize = 0;
    proof {
        assert(pv.skip(0) =~= pv);
        assert(out@.map_values(|x: DocScalar| x@) =~= Seq::<ScalarV>::empty());
    }
    while i < pieces.len()
        invariant
            i <= pieces.len(),
            pv == pieces@.map_values(|t2: String| t2@),
            pv == spec_split(inner@, ','),
            spec_trim(inner@).len() != 0,
            spec_parse_scalar_list(pv) == match spec_parse_scalar_list(pv.skip(i as int)) {
                Ok(rest) => Ok::<_, ()>(out@.map_values(|x: DocScalar| x@) + rest),
                Err(()) => Err::<Seq<ScalarV>, ()>(()),
            },
        decreases pieces.len() - i,
    {
        let ghost acc = out@.map_values(|x: DocScalar| x@);
        proof {
            assert(pv.skip(i as int)[0] == pv[i as int]);
            assert(pv.skip(i as int).drop_first() =~= pv.skip(i + 1));
        }
        match parse_scalar(pieces[i].as_str()) {
            Some(v) => {
                out.push(v);
                proof {
                    assert(out@.map_values(|x: DocScalar| x@) =~= acc.push(v@));
                    assert forall|rest: Seq<ScalarV>| acc.push(v@) + rest =~= acc + (seq![v@]
                        + rest) by {}
                }
                i = i + 1;
            },
            None => {
                proof {
                    assert(pv[i as int] == pieces@[i as int]@);
                    assert(spec_parse_scalar_list(pv.skip(i as int)) == Err::<Seq<ScalarV>, ()>(
                        (),
                    ));
                    assert(spec_parse_scalar_list(pv) == Err::<Seq<ScalarV>, ()>(()));
                    assert(pv == spec_split(inner@, ','));
                    assert(spec_trim(inner@).len() != 0);
                    assert(spec_parse_items(inner@) == Err::<Seq<ScalarV>, ()>(()));
                }
                return None;
            },
        }
    }
    proof {
        assert(pv.skip(pieces@.len() as int) =~= Seq::<Seq<char>>::empty());
        assert(spec_parse_scalar_list(Seq::<Seq<char>>::empty()) == Ok::<_, ()>(
            Seq::<ScalarV>::empty(),
        ));
        assert(out@.map_values(|x: DocScalar| x@) + Seq::<ScalarV>::empty() =~= out@.map_values(
            |x: DocScalar| x@,
        ));
    }
    Some(out)
}

/// One `key = scalar` pair inside an inline table.
pub open spec fn spec_parse_pair(piece: Seq<char>) -> Result<(Seq<char>, ScalarV), ()> {
    let j = spec_find(piece, 0, '=');
    if j == piece.len() {
        Err(())
    } else {
        let key = spec_trim(piece.take(j));
        if key.len() == 0 {
            Err(())
        } else {
            match spec_parse_scalar(piece.skip(j + 1)) {
                Ok(v) => Ok((key, v)),
                Err(()) => Err(()),
            }
        }
    }
}

pub fn parse_pair(piece: &str) -> (r: Option<(String, DocScalar)>)
    ensures
        match r {
            Some(p) => spec_parse_pair(piece@) == Ok::<_, ()>((p.0@, p.1@)),
            None => spec_parse_pair(piece@) == Err::<(Seq<char>, ScalarV), ()>(()),
        },
{
    let len = piece.unicode_len();
    let j = find_char(piece, 0, '=');
    proof {
        lemma_find_props(piece@, 0, '=');
    }
    if j == len {
        return None;
    }
    let key_part = piece.substring_char(0, j);
    proof {
        assert(key_part@ =~= piece@.take(j as int));
    }
    let key = trim(key_part);
    if key.unicode_len() == 0 {
        return None;
    }
    let val_part = piece.substring_char(j + 1, len);
    proof {
        assert(val_part@ =~= piece@.skip(j + 1));
    }
    match parse_scalar(val_part) {
        Some(v) => Some((key.to_owned(), v)),
        None => None,
    }
}

pub open spec fn spec_parse_pair_list(pieces: Seq<Seq<char>>) -> Result<
    Seq<(Seq<char>, ScalarV)>,
    (),
>
    decreases pieces.len(),
{
    if pieces.len() == 0 {
        Ok(Seq::empty())
    } else {
        match spec_parse_pair(pieces[0]) {
            Err(()) => Err(()),
            Ok(p) => match spec_parse_pair_list(pieces.drop_first()) {
                Ok(rest) => Ok(seq![p] + rest),
                Err(()) => Err(()),
            },
        }
    }
}

/// The inside of a single-line inline table `{ ... }`.
pub open spec fn spec_parse_pairs(inner: Seq<char>) -> Result<Seq<(Seq<char>, ScalarV)>, ()> {
    if spec_trim(inner).len() == 0 {
        Ok(Seq::empty())
    } else {
        spec_parse_pair_list(spec_split(inner, ','))
    }
}

pub fn parse_pairs(inner: &str) -> (r: Option<Vec<(String, DocScalar)>>)
    ensures
        match r {
            Some(v) => spec_parse_pairs(inner@) == Ok::<_, ()>(
                v@.map_values(|p: (String, DocScalar)| (p.0@, p.1@)),
            ),
            None => spec_parse_pairs(inner@) == Err::<Seq<(Seq<char>, ScalarV)>, ()>(()),
        },
{
    let t = trim(inner);
    if t.unicode_len() == 0 {
        let out: Vec<(String, DocScalar)> = Vec::new();
        proof {
            assert(out@.map_values(|p: (String, DocScalar)| (p.0@, p.1@)) =~= Seq::<
                (Seq<char>, ScalarV),
            >::empty());
        }
        return Some(out);
    }
    let pieces = split_str(inner, ',');
    let ghost pv = pieces@.map_values(|t2: String| t2@);
    let mut out: Vec<(String, DocScalar)> = Vec::new();
    let mut i: usize = 0;
    proof {
        assert(pv.skip(0) =~= pv);
        assert(out@.map_values(|p: (String, DocScalar)| (p.0@, p.1@)) =~= Seq::<
            (Seq<char>, ScalarV),
        >::empty());
    }
    while i < pieces.len()
        invariant
            i <= pieces.len(),
            pv == pieces@.map_values(|t2: String| t2@),
            pv == spec_split(inner@, ','),
            spec_trim(inner@).len() != 0,
            spec_parse_pair_list(pv) == match spec_parse_pair_list(pv.skip(i as int)) {
                Ok(rest) => Ok::<_, ()>(
                    out@.map_values(|p: (String, DocScalar)| (p.0@, p.1@)) + rest,
                ),
                Err(()) => Err::<Seq<(Seq<char>, ScalarV)>, ()>(()),
            },
        decreases pieces.len() - i,
    {
        let ghost acc = out@.map_values(|p: (String, DocScalar)| (p.0@, p.1@));
        proof {
            assert(pv.skip(i as int)[0] == pv[i as int]);
            assert(pv.skip(i as int).drop_first() =~= pv.skip(i + 1));
        }
        match parse_pair(pieces[i].as_str()) {
            Some(p) => {
                let ghost pview = (p.0@, p.1@);
                out.push(p);
                proof {
                    assert(out@.map_values(|q: (String, DocScalar)| (q.0@, q.1@)) =~= acc.push(
                        pview,
                    ));
                    assert forall|rest: Seq<(Seq<char>, ScalarV)>| acc.push(pview) + rest =~= acc
                        + (seq![pview] + rest) by {}
                }
                i = i + 1;
            },
            None => {
                proof {
                    assert(pv[i as int] == pieces@[i as int]@);
                    assert(spec_parse_pair_list(pv.skip(i as int)) == Err::<
                        Seq<(Seq<char>, ScalarV)>,
                        (),
                    >(()));
                    assert(spec_parse_pair_list(pv) == Err::<Seq<(Seq<char>, ScalarV)>, ()>(()));
                    assert(pv == spec_split(inner@, ','));
                    assert(spec_trim(inner@).len() != 0);
                    assert(spec_parse_pairs(inner@) == Err::<Seq<(Seq<char>, ScalarV)>, ()>(()));
                }
                return None;
            },
        }
    }
    proof {
        assert(pv.skip(pieces@.len() as int) =~= Seq::<Seq<char>>::empty());
        assert(out@.map_values(|p: (String, DocScalar)| (p.0@, p.1@)) + Seq::<
            (Seq<char>, ScalarV),
        >::empty() =~= out@.map_values(|p: (String, DocScalar)| (p.0@, p.1@)));
    }
    Some(out)
}

// ---------------------------------------------------------------------------
// Values and lines.
// ---------------------------------------------------------------------------

/// A value position: quoted string, array, inline table, or bare token.
pub open spec fn spec_parse_value(v: Seq<char>) -> Result<ValueV, ()> {
    let t = spec_trim(v);
    if t.len() == 0 {
        Err(())
    } else if t[0] == '[' {
        if t.len() >= 2 && t.last() == ']' {
            match spec_parse_items(t.subrange(1, t.len() - 1)) {
                Ok(items) => Ok(ValueV::List(items)),
                Err(()) => Err(()),
            }
        } else {
            Err(())
        }
    } else if t[0] == '{' {
        if t.len() >= 2 && t.last() == '}' {
            match spec_parse_pairs(t.subrange(1, t.len() - 1)) {
                Ok(pairs) => Ok(ValueV::Table(pairs)),
                Err(()) => Err(()),
            }
        } else {
            Err(())
        }
    } else {
        match spec_parse_scalar(t) {
            Ok(sc) => Ok(ValueV::Scalar(sc)),
            Err(()) => Err(()),
        }
    }
}

pub fn parse_value(v: &str) -> (r: Option<DocValue>)
    ensures
        match r {
            Some(val) => spec_parse_value(v@) == Ok::<_, ()>(val@),
            None => spec_parse_value(v@) == Err::<ValueV, ()>(()),
        },
{
    let t = trim(v);
    let tlen = t.unicode_len();
    if tlen == 0 {
        return None;
    }
    let c0 = t.get_char(0);
    if c0 == '[' {
        if tlen >= 2 && t.get_char(tlen - 1) == ']' {
            let inner = t.substring_char(1, tlen - 1);
            proof {
                assert(inner@ =~= t@.subrange(1, t@.len() - 1));
            }
            match parse_items(inner) {
                Some(items) => Some(DocValue::List(items)),
                None => None,
            }
        } else {
            None
        }
    } else if c0 == '{' {
        if tlen >= 2 && t.get_char(tlen - 1) == '}' {
            let inner = t.substring_char(1, tlen - 1);
            proof {
                assert(inner@ =~= t@.subrange(1, t@.len() - 1));
            }
            match parse_pairs(inner) {
                Some(pairs) => Some(DocValue::Table(pairs)),
                None => None,
            }
        } else {
            None
        }
    } else {
        proof {
            lemma_trim_idempotent(v@);
        }
        match parse_scalar(t) {
            Some(sc) => Some(DocValue::Scalar(sc)),
            None => None,
        }
    }
}

pub enum ParsedLine {
    Blank,
    Section(String),
    Entry(String, DocValue),
}

#[verifier::ext_equal]
pub enum LineV {
    Blank,
    Section(Seq<char>),
    Entry(Seq<char>, ValueV),
}

impl View for ParsedLine {
    type V = LineV;

    open spec fn view(&self) -> LineV {
        match self {
            ParsedLine::Blank => LineV::Blank,
            ParsedLine::Section(n) => LineV::Section(n@),
            ParsedLine::Entry(k, v) => LineV::Entry(k@, v@),
        }
    }
}

/// One line: blank or comment, a `[section]` header, or `key = value`.
pub open spec fn spec_parse_line(line: Seq<char>) -> Result<LineV, ()> {
    let t = spec_trim(line);
    if t.len() == 0 {
        Ok(LineV::Blank)
    } else if t[0] == '#' {
        Ok(LineV::Blank)
    } else if t[0] == '[' {
        if t.len() >= 2 && t.last() == ']' {
            let name = spec_trim(t.subrange(1, t.len() - 1));
            if name.len() == 0 {
                Err(())
            } else {
                Ok(LineV::Section(name))
            }
        } else {
            Err(())
        }
    } else {
        let j = spec_find(t, 0, '=');
        if j == t.len() {
            Err(())
        } else {
            let key = spec_trim(t.take(j));
            if key.len() == 0 {
                Err(())
            } else {
                match spec_parse_value(t.skip(j + 1)) {
                    Ok(v) => Ok(LineV::Entry(key, v)),
                    Err(()) => Err(()),
                }
            }
        }
    }
}

pub fn parse_line(line: &str) -> (r: Option<ParsedLine>)
    ensures
        match r {
            Some(l) => spec_parse_line(line@) == Ok::<_, ()>(l@),
            None => spec_parse_line(line@) == Err::<LineV, ()>(()),
        },
{
    let t = trim(line);
    let tlen = t.unicode_len();
    if tlen == 0 {
        return Some(ParsedLine::Blank);
    }
    let c0 = t.get_char(0);
    if c0 == '#' {
        return Some(ParsedLine::Blank);
    }
    if c0 == '[' {
        if tlen >= 2 && t.get_char(tlen - 1) == ']' {
            let inner = t.substring_char(1, tlen - 1);
            proof {
                assert(inner@ =~= t@.subrange(1, t@.len() - 1));
            }
            let name = trim(inner);
            if name.unicode_len() == 0 {
                return None;
            }
            return Some(ParsedLine::Section(name.to_owned()));
        }
        return None;
    }
    let j = find_char(t, 0, '=');
    proof {
        lemma_find_props(t@, 0, '=');
    }
    if j == tlen {
        return None;
    }
    let key_part = t.substring_char(0, j);
    proof {
        assert(key_part@ =~= t@.take(j as int));
    }
    let key = trim(key_part);
    if key.unicode_len() == 0 {
        return None;
    }
    let val_part = t.substring_char(j + 1, tlen);
    proof {
        assert(val_part@ =~= t@.skip(j + 1));
    }
    match parse_value(val_part) {
        Some(v) => Some(ParsedLine::Entry(key.to_owned(), v)),
        None => None,
    }
}

// ---------------------------------------------------------------------------
// Whole documents.
// ---------------------------------------------------------------------------

pub open spec fn spec_sections_have(sections: Seq<SectionV>, name: Seq<char>) -> bool {
    exists|i: int| 0 <= i < sections.len() && sections[i].name == name
}

pub open spec fn spec_entries_have(entries: Seq<(Seq<char>, ValueV)>, key: Seq<char>) -> bool {
    exists|i: int| 0 <= i < entries.len() && entries[i].0 == key
}

/// The fold that assembles a document line by line. A section header opens a
/// fresh section; an entry is appended to the most recently opened one.
/// A repeated section name, or a repeated key within one section, is an
/// error.
pub open spec fn spec_doc_fold(lines: Seq<Seq<char>>, acc: Seq<SectionV>) -> Result<
    Seq<SectionV>,
    (),
>
    decreases lines.len(),
{
    if lines.len() == 0 {
        Ok(acc)
    } else {
        match spec_parse_line(lines[0]) {
            Err(()) => Err(()),
            Ok(LineV::Blank) => spec_doc_fold(lines.drop_first(), acc),
            Ok(LineV::Section(n)) => if spec_sections_have(acc, n) {
                Err(())
            } else {
                spec_doc_fold(
                    lines.drop_first(),
                    acc.push(SectionV { name: n, entries: Seq::empty() }),
                )
            },
            Ok(LineV::Entry(k, v)) => if acc.len() == 0 {
                Err(())
            } else if spec_entries_have(acc.last().entries, k) {
                Err(())
            } else {
                spec_doc_fold(
                    lines.drop_first(),
                    acc.update(
                        acc.len() - 1,
                        SectionV {
                            name: acc.last().name,
                            entries: acc.last().entries.push((k, v)),
                        },
                    ),
                )
            },
        }
    }
}

/// The document grammar: lines split on `\n`, folded into sections, with the
/// root section (empty name) always first.
pub open spec fn spec_parse_doc(s: Seq<char>) -> Result<Seq<SectionV>, ()> {
    spec_doc_fold(
        spec_split(s, '\n'),
        seq![SectionV { name: Seq::empty(), entries: Seq::empty() }],
    )
}

fn section_exists(sections: &Vec<DocSection>, name: &str) -> (r: bool)
    ensures
        r == spec_sections_have(sections@.map_values(|s: DocSection| s@), name@),
{
    let ghost sv = sections@.map_values(|s: DocSection| s@);
    let mut i: usize = 0;
    while i < sections.len()
        invariant
            i <= sections.len(),
            sv == sections@.map_values(|s: DocSection| s@),
            forall|j: int| 0 <= j < i ==> sv[j].name != name@,
        decreases sections.len() - i,
    {
        if str_eq(sections[i].name.as_str(), name) {
            proof {
                assert(sv[i as int] == sections@[i as int]@);
                assert(spec_sections_have(sv, name@));
            }
            return true;
        }
        i = i + 1;
    }
    false
}

fn entries_have(entries: &Vec<(String, DocValue)>, key: &str) -> (r: bool)
    ensures
        r == spec_entries_have(
            entries@.map_values(|p: (String, DocValue)| (p.0@, p.1@)),
            key@,
        ),
{
    let ghost ev = entries@.map_values(|p: (String, DocValue)| (p.0@, p.1@));
    let mut i: usize = 0;
    while i < entries.len()
        invariant
            i <= entries.len(),
            ev == entries@.map_values(|p: (String, DocValue)| (p.0@, p.1@)),
            forall|j: int| 0 <= j < i ==> ev[j].0 != key@,
        decreases entries.len() - i,
    {
        if str_eq(entries[i].0.as_str(), key) {
            proof {
                assert(ev[i as int] == (entries@[i as int].0@, entries@[i as int].1@));
                assert(spec_entries_have(ev, key@));
            }
            return true;
        }
        i = i + 1;
    }
    false
}

pub fn parse_doc(s: &str) -> (r: Option<Doc>)
    ensures
        match r {
            Some(d) => spec_parse_doc(s@) == Ok::<_, ()>(d@) && d@.len() > 0,
            None => spec_parse_doc(s@) == Err::<Seq<SectionV>, ()>(()),
        },
{
    let lines = split_str(s, '\n');
    let ghost lv = lines@.map_values(|t: String| t@);
    let mut sections: Vec<DocSection> = Vec::new();
    sections.push(DocSection { name: String::new(), entries: Vec::new() });
    let mut i: usize = 0;
    proof {
        assert(lv.skip(0) =~= lv);
        assert(sections@.map_values(|x: DocSection| x@) =~~= seq![
            SectionV { name: Seq::empty(), entries: Seq::empty() },
        ]);
    }
    while i < lines.len()
        invariant
            i <= lines.len(),
            lv == lines@.map_values(|t: String| t@),
            sections.len() > 0,
            spec_parse_doc(s@) == spec_doc_fold(
                lv.skip(i as int),
                sections@.map_values(|x: DocSection| x@),
            ),
        decreases lines.len() - i,
    {
        let ghost acc = sections@.map_values(|x: DocSection| x@);
        proof {
            assert(lv.skip(i as int)[0] == lv[i as int]);
            assert(lv.skip(i as int).drop_first() =~= lv.skip(i + 1));
        }
        match parse_line(lines[i].as_str()) {
            None => {
                return None;
            },
            Some(ParsedLine::Blank) => {},
            Some(ParsedLine::Section(n)) => {
                if section_exists(&sections, n.as_str()) {
                    return None;
                }
                sections.push(DocSection { name: n, entries: Vec::new() });
                proof {
                    assert(sections@.map_values(|x: DocSection| x@) =~~= acc.push(
                        SectionV { name: sections@.last().name@, entries: Seq::empty() },
                    ));
                }
            },
            Some(ParsedLine::Entry(k, v)) => {
                let last = sections.len() - 1;
                if entries_have(&sections[last].entries, k.as_str()) {
                    proof {
                        assert(acc.last() == acc[last as int]);
                    }
                    return None;
                }
                let mut sec = match sections.pop() {
                    Some(sec) => sec,
                    None => {
                        proof {
                            assert(false);
                        }
                        return None;
                    },
                };
                let ghost kv = (k@, v@);
                sec.entries.push((k, v));
                sections.push(sec);
                proof {
                    assert(acc.last() == acc[last as int]);
                    assert(sections@.map_values(|x: DocSection| x@) =~~= acc.update(
                        acc.len() - 1,
                        SectionV {
                            name: acc.last().name,
                            entries: acc.last().entries.push(kv),
                        },
                    ));
                }
            },
        }
        i = i + 1;
    }
    proof {
        assert(lv.skip(lines@.len() as int) =~= Seq::<Seq<char>>::empty());
    }
    Some(Doc { sections })
}

// ---------------------------------------------------------------------------
// Lookups.
// ---------------------------------------------------------------------------

/// The entries of the first section with the given name.
pub open spec fn spec_find_section(doc: Seq<SectionV>, name: Seq<char>) -> Option<
    Seq<(Seq<char>, ValueV)>,
>
    decreases doc.len(),
{
    if doc.len() == 0 {
        None
    } else if doc[0].name == name {
        Some(doc[0].entries)
    } else {
        spec_find_section(doc.drop_first(), name)
    }
}

/// The value of the first entry with the given key.
pub open spec fn spec_lookup(entries: Seq<(Seq<char>, ValueV)>, key: Seq<char>) -> Option<
    ValueV,
>
    decreases entries.len(),
{
    if entries.len() == 0 {
        None
    } else if entries[0].0 == key {
        Some(entries[0].1)
    } else {
        spec_lookup(entries.drop_first(), key)
    }
}

/// The scalar of the first pair with the given key, inside an inline table.
pub open spec fn spec_lookup_pair(pairs: Seq<(Seq<char>, ScalarV)>, key: Seq<char>) -> Option<
    ScalarV,
>
    decreases pairs.len(),
{
    if pairs.len() == 0 {
        None
    } else if pairs[0].0 == key {
        Some(pairs[0].1)
    } else {
        spec_lookup_pair(pairs.drop_first(), key)
    }
}

impl Doc {
    pub fn find_section<'a>(&'a self, name: &str) -> (r: Option<&'a DocSection>)
        ensures
            match r {
                Some(sec) => spec_find_section(self@, name@) == Some(sec@.entries) && sec@.name
                    == name@,
                None => spec_find_section(self@, name@) == None::<Seq<(Seq<char>, ValueV)>>,
            },
    {
        let mut i: usize = 0;
        proof {
            assert(self@.skip(0) =~= self@);
        }
        while i < self.sections.len()
            invariant
                i <= self.sections.len(),
                spec_find_section(self@, name@) == spec_find_section(
                    self@.skip(i as int),
                    name@,
                ),
            decreases self.sections.len() - i,
        {
            proof {
                assert(self@.skip(i as int)[0] == self@[i as int]);
                assert(self@.skip(i as int).drop_first() =~= self@.skip(i + 1));
            }
            if str_eq(self.sections[i].name.as_str(), name) {
                return Some(&self.sections[i]);
            }
            i = i + 1;
        }
        proof {
            assert(self@.skip(self.sections@.len() as int) =~= Seq::<SectionV>::empty());
        }
        None
    }
}

pub fn lookup<'a>(entries: &'a Vec<(String, DocValue)>, key: &str) -> (r: Option<&'a DocValue>)
    ensures
        ({
            let ev = entries@.map_values(|p: (String, DocValue)| (p.0@, p.1@));
            match r {
                Some(v) => spec_lookup(ev, key@) == Some(v@),
                None => spec_lookup(ev, key@) == None::<ValueV>,
            }
        }),
{
    let ghost ev = entries@.map_values(|p: (String, DocValue)| (p.0@, p.1@));
    let mut i: usize = 0;
    proof {
        assert(ev.skip(0) =~= ev);
    }
    while i < entries.len()
        invariant
            i <= entries.len(),
            ev == entries@.map_values(|p: (String, DocValue)| (p.0@, p.1@)),
            spec_lookup(ev, key@) == spec_lookup(ev.skip(i as int), key@),
        decreases entries.len() - i,
    {
        proof {
            assert(ev.skip(i as int)[0] == ev[i as int]);
            assert(ev.skip(i as int).drop_first() =~= ev.skip(i + 1));
        }
        if str_eq(entries[i].0.as_str(), key) {
            return Some(&entries[i].1);
        }
        i = i + 1;
    }
    proof {
        assert(ev.skip(entries@.len() as int) =~= Seq::<(Seq<char>, ValueV)>::empty());
    }
    None
}

pub fn lookup_pair<'a>(pairs: &'a Vec<(String, DocScalar)>, key: &str) -> (r: Option<
    &'a DocScalar,
>)
    ensures
        ({
            let pv = pairs@.map_values(|p: (String, DocScalar)| (p.0@, p.1@));
            match r {
                Some(v) => spec_lookup_pair(pv, key@) == Some(v@),
                None => spec_lookup_pair(pv, key@) == None::<ScalarV>,
            }
        }),
{
    let ghost pv = pairs@.map_values(|p: (String, DocScalar)| (p.0@, p.1@));
    let mut i: usize = 0;
    proof {
        assert(pv.skip(0) =~= pv);
    }
    while i < pairs.len()
        invariant
            i <= pairs.len(),
            pv == pairs@.map_values(|p: (String, DocScalar)| (p.0@, p.1@)),
            spec_lookup_pair(pv, key@) == spec_lookup_pair(pv.skip(i as int), key@),
        decreases pairs.len() - i,
    {
        proof {
            assert(pv.skip(i as int)[0] == pv[i as int]);
            assert(pv.skip(i as int).drop_first() =~= pv.skip(i + 1));
        }
        if str_eq(pairs[i].0.as_str(), key) {
            return Some(&pairs[i].1);
        }
        i = i + 1;
    }
    proof {
        assert(pv.skip(pairs@.len() as int) =~= Seq::<(Seq<char>, ScalarV)>::empty());
    }
    None
}

// ---------------------------------------------------------------------------
// How rendered text reads back. These lemmas carry the round-trip proofs of
// the build-state record.
// ---------------------------------------------------------------------------

/// The first occurrence is where the first occurrence is: if nothing before
/// position `k` is `c`, and `k` either holds `c` or is the end, then the
/// search stops exactly there.
pub proof fn lemma_find_unique(s: Seq<char>, c: char, k: int)
    requires
        0 <= k <= s.len(),
        forall|j: int| 0 <= j < k ==> s[j] != c,
        k < s.len() ==> s[k] == c,
    ensures
        spec_find(s, 0, c) == k,
{
    lemma_find_props(s, 0, c);
    let f = spec_find(s, 0, c);
    if f < k {
        assert(s[f] == c);
        assert(false);
    }
    if k < f {
        assert(k < s.len());
        assert(s[k] != c);
        assert(false);
    }
}

/// Splitting one newline-free line off the front.
pub proof fn lemma_split_line(a: Seq<char>, rest: Seq<char>)
    requires
        forall|i: int| 0 <= i < a.len() ==> s_no_newline(a, i),
    ensures
        spec_split(a + seq!['\n'] + rest, '\n') == seq![a] + spec_split(rest, '\n'),
{
    let s = a + seq!['\n'] + rest;
    assert forall|j: int| 0 <= j < a.len() implies s[j] != '\n' by {
        assert(s[j] == a[j]);
        assert(s_no_newline(a, j));
    }
    assert(s[a.len() as int] == '\n');
    lemma_find_unique(s, '\n', a.len() as int);
    assert(s.take(a.len() as int) =~= a);
    assert(s.skip(a.len() as int + 1) =~= rest);
    assert(spec_split(s, '\n') == seq![a] + spec_split(rest, '\n'));
}

/// Helper trigger shape for [`lemma_split_line`].
pub open spec fn s_no_newline(a: Seq<char>, i: int) -> bool {
    a[i] != '\n'
}

pub open spec fn spec_keys_unique(entries: Seq<(Seq<char>, ValueV)>) -> bool {
    forall|i: int, j: int|
        0 <= i < j < entries.len() ==> (#[trigger] entries[i]).0 != (#[trigger] entries[j]).0
}

proof fn lemma_lookup_found(entries: Seq<(Seq<char>, ValueV)>, k: Seq<char>, v: ValueV)
    requires
        entries.contains((k, v)),
        forall|i: int| 0 <= i < entries.len() ==> (#[trigger] entries[i]).0 == k ==> entries[i]
            == (k, v),
    ensures
        spec_lookup(entries, k) == Some(v),
    decreases entries.len(),
{
    if entries[0].0 == k {
        assert(entries[0] == (k, v));
    } else {
        let i = choose|i: int| 0 <= i < entries.len() && entries[i] == (k, v);
        assert(i > 0);
        assert(entries.drop_first()[i - 1] == (k, v));
        assert(entries.drop_first().contains((k, v)));
        assert forall|j: int|
            0 <= j < entries.drop_first().len() && (#[trigger] entries.drop_first()[j]).0
                == k implies entries.drop_first()[j] == (k, v) by {
            assert(entries.drop_first()[j] == entries[j + 1]);
        }
        lemma_lookup_found(entries.drop_first(), k, v);
    }
}

proof fn lemma_lookup_absent(entries: Seq<(Seq<char>, ValueV)>, k: Seq<char>)
    requires
        forall|i: int| 0 <= i < entries.len() ==> (#[trigger] entries[i]).0 != k,
    ensures
        spec_lookup(entries, k) == None::<ValueV>,
    decreases entries.len(),
{
    if entries.len() > 0 {
        assert forall|i: int|
            0 <= i < entries.drop_first().len() implies (#[trigger] entries.drop_first()[i]).0
            != k by {
            assert(entries.drop_first()[i] == entries[i + 1]);
        }
        lemma_lookup_absent(entries.drop_first(), k);
    }
}

/// With unique keys, a lookup sees only which entries a section holds, not
/// the order they were written in: two sections holding the same entries
/// answer every lookup identically. This is what makes the interpretation of
/// a manifest independent of its key order.
pub proof fn lemma_lookup_order_insensitive(
    e1: Seq<(Seq<char>, ValueV)>,
    e2: Seq<(Seq<char>, ValueV)>,
    k: Seq<char>,
)
    requires
        e1.to_multiset() == e2.to_multiset(),
        spec_keys_unique(e1),
    ensures
        spec_lookup(e1, k) == spec_lookup(e2, k),
{
    broadcast use vstd::seq_lib::group_to_multiset_ensures;

    match spec_lookup(e1, k) {
        Some(v) => {
            lemma_lookup_characterisation(e1, k);
            let i = choose|i: int| 0 <= i < e1.len() && e1[i] == (k, v);
            assert(e1.contains((k, v)));
            assert(e2.to_multiset().contains((k, v)));
            assert(e2.contains((k, v)));
            assert forall|j: int|
                0 <= j < e2.len() && (#[trigger] e2[j]).0 == k implies e2[j] == (k, v) by {
                assert(e1.to_multiset().contains(e2[j]));
                assert(e1.contains(e2[j]));
                let j1 = choose|j1: int| 0 <= j1 < e1.len() && e1[j1] == e2[j];
                if j1 != i {
                    assert(e1[j1].0 != e1[i].0);
                }
            }
            lemma_lookup_found(e2, k, v);
        },
        None => {
            lemma_lookup_characterisation(e1, k);
            assert forall|j: int| 0 <= j < e2.len() implies (#[trigger] e2[j]).0 != k by {
                assert(e1.to_multiset().contains(e2[j]));
                assert(e1.contains(e2[j]));
            }
            lemma_lookup_absent(e2, k);
        },
    }
}

/// What a lookup's answer says about the entries themselves.
proof fn lemma_lookup_characterisation(entries: Seq<(Seq<char>, ValueV)>, k: Seq<char>)
    ensures
        match spec_lookup(entries, k) {
            Some(v) => entries.contains((k, v)),
            None => forall|i: int| 0 <= i < entries.len() ==> (#[trigger] entries[i]).0 != k,
        },
    decreases entries.len(),
{
    if entries.len() > 0 {
        lemma_lookup_characterisation(entries.drop_first(), k);
        if entries[0].0 != k {
            match spec_lookup(entries.drop_first(), k) {
                Some(v) => {
                    let i = choose|i: int|
                        0 <= i < entries.drop_first().len() && entries.drop_first()[i] == (
                        k,
                        v,
                        );
                    assert(entries[i + 1] == (k, v));
                    assert(entries.contains((k, v)));
                },
                None => {
                    assert forall|i: int|
                        0 <= i < entries.len() implies (#[trigger] entries[i]).0 != k by {
                        if i > 0 {
                            assert(entries.drop_first()[i - 1] == entries[i]);
                        }
                    }
                },
            }
        } else {
            assert(entries.contains((k, entries[0].1)));
        }
    }
}

/// An empty line is blank.
pub proof fn lemma_parse_empty_line()
    ensures
        spec_parse_line(Seq::<char>::empty()) == Ok::<LineV, ()>(LineV::Blank),
{
    assert(spec_rtrim(Seq::<char>::empty()) == Seq::<char>::empty());
    assert(spec_ltrim(Seq::<char>::empty()) == Seq::<char>::empty());
}

/// A rendered entry line `key = "<escaped value>"` reads back as exactly
/// that entry.
pub proof fn lemma_parse_entry_line(key: Seq<char>, p: Seq<char>)
    requires
        key.len() > 0,
        !spec_ws(key[0]),
        !spec_ws(key.last()),
        key[0] != '#',
        key[0] != '[',
        forall|i: int| 0 <= i < key.len() ==> key[i] != '=',
    ensures
        spec_parse_line(key + " = \""@ + spec_escape(p) + "\""@) == Ok::<LineV, ()>(
            LineV::Entry(key, ValueV::Scalar(ScalarV::Text(p))),
        ),
{
    reveal_strlit(" = \"");
    reveal_strlit("\"");
    let mid = " = \""@;
    let q = "\""@;
    let line = key + mid + spec_escape(p) + q;
    crate::text::lemma_escape_no_newline(p);
    // the line is already trimmed: key starts it, a quote ends it
    assert(line[0] == key[0]);
    assert(line.last() == '"');
    lemma_trim_clean(line);
    let t = line;
    assert(t[0] != '#' && t[0] != '[');
    // the first `=` sits just after the key
    let k = key.len() as int + 1;
    assert forall|j: int| 0 <= j < k implies t[j] != '=' by {
        if j < key.len() {
            assert(t[j] == key[j]);
        } else {
            assert(t[j] == mid[j - key.len()]);
        }
    }
    assert(t[k] == mid[1]);
    assert(t[k] == '=');
    lemma_find_unique(t, '=', k);
    // the key part trims back to the key
    let keypart = t.take(k);
    assert(keypart =~= key + seq![' ']);
    assert(spec_ws((key + seq![' ']).last()));
    assert((key + seq![' ']).drop_last() =~= key);
    assert(spec_rtrim(key) == key);
    assert(spec_rtrim(key + seq![' ']) == key);
    assert(spec_ltrim(key) == key);
    assert(spec_trim(keypart) == key);
    // the value part is the quoted escape of p, after one leading space
    let v = t.skip(k + 1);
    assert(v =~= seq![' ', '"'] + spec_escape(p) + q);
    let v1 = seq!['"'] + spec_escape(p) + q;
    assert(v[0] == ' ');
    assert(v.drop_first() =~= v1);
    assert(v1[0] == '"');
    assert(v1.last() == '"');
    assert(spec_rtrim(v) == v);
    assert(spec_ltrim(v) == spec_ltrim(v1));
    assert(spec_ltrim(v1) == v1);
    assert(spec_trim(v) == v1);
    // the quoted string scans back to p with nothing left over
    assert(v1.drop_first() =~= spec_escape(p) + seq!['"'] + Seq::<char>::empty());
    crate::text::lemma_escape_push(p, ' ');
    lemma_scan_escape(p, Seq::<char>::empty());
    assert(spec_scan_quoted(v1.drop_first()) == Ok::<_, ()>((p, Seq::<char>::empty())));
    // assemble: the value parses as a quoted scalar
    assert(spec_trim(v1) == v1) by {
        lemma_trim_clean(v1);
    }
    assert(v1[0] != '[' && v1[0] != '{');
    assert(spec_parse_scalar(v1) == Ok::<ScalarV, ()>(ScalarV::Text(p)));
    assert(spec_parse_value(v) == Ok::<ValueV, ()>(ValueV::Scalar(ScalarV::Text(p))));
    assert(spec_parse_line(line) == Ok::<LineV, ()>(
        LineV::Entry(key, ValueV::Scalar(ScalarV::Text(p))),
    ));
}

} // verus!
