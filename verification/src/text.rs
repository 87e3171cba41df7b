//! String utilities shared by the manifest model, the build-description
//! generator and the build-state record: path joining, lexicographic order on
//! character sequences, escaping for quoted strings, and decimal rendering.

use vstd::prelude::*;

verus! {

/// Path concatenation as `std::path::PathBuf::push` behaves on Unix paths:
/// an absolute right-hand side replaces the base, otherwise the two parts are
/// joined with exactly one `/` between them.
pub open spec fn spec_path_join(base: Seq<char>, rel: Seq<char>) -> Seq<char> {
    if rel.len() > 0 && rel[0] == '/' {
        rel
    } else if base.len() == 0 {
        rel
    } else if base.last() == '/' {
        base + rel
    } else {
        base + seq!['/'] + rel
    }
}

pub fn path_join(base: &str, rel: &str) -> (r: String)
    ensures
        r@ == spec_path_join(base@, rel@),
{
    let rel_len = rel.unicode_len();
    let base_len = base.unicode_len();
    if rel_len > 0 && rel.get_char(0) == '/' {
        rel.to_owned()
    } else if base_len == 0 {
        rel.to_owned()
    } else if base.get_char(base_len - 1) == '/' {
        let mut s = base.to_owned();
        s.append(rel);
        s
    } else {
        let mut s = base.to_owned();
        s.append("/");
        s.append(rel);
        proof {
            reveal_strlit("/");
            assert(s@ =~= base@ + seq!['/'] + rel@);
        }
        s
    }
}

/// Relies on `String::push`: appends exactly the given character to the end
/// of the string.
#[verifier::external_body]
pub(crate) fn push_char(s: &mut String, c: char)
    ensures
        final(s)@ == old(s)@.push(c),
{
    s.push(c);
}

// ---------------------------------------------------------------------------
// Lexicographic order on character sequences (by Unicode scalar value).
// On names this agrees with `String`'s ordering, since UTF-8 byte order
// coincides with scalar-value order.
// ---------------------------------------------------------------------------

pub open spec fn spec_str_le(a: Seq<char>, b: Seq<char>) -> bool
    decreases a.len(),
{
    if a.len() == 0 {
        true
    } else if b.len() == 0 {
        false
    } else if (a[0] as u32) < (b[0] as u32) {
        true
    } else if (b[0] as u32) < (a[0] as u32) {
        false
    } else {
        spec_str_le(a.drop_first(), b.drop_first())
    }
}

/// Two characters with the same scalar value are the same character.
proof fn lemma_char_cast_injective(a: char, b: char)
    requires
        a as u32 == b as u32,
    ensures
        a == b,
{
}

pub proof fn lemma_str_le_total(a: Seq<char>, b: Seq<char>)
    ensures
        spec_str_le(a, b) || spec_str_le(b, a),
    decreases a.len(),
{
    if a.len() != 0 && b.len() != 0 && !((a[0] as u32) < (b[0] as u32)) && !((b[0] as u32) < (
    a[0] as u32)) {
        lemma_str_le_total(a.drop_first(), b.drop_first());
    }
}

pub proof fn lemma_str_le_antisymmetric(a: Seq<char>, b: Seq<char>)
    requires
        spec_str_le(a, b),
        spec_str_le(b, a),
    ensures
        a == b,
    decreases a.len(),
{
    if a.len() != 0 && b.len() != 0 {
        assert(a[0] as u32 == b[0] as u32);
        lemma_char_cast_injective(a[0], b[0]);
        lemma_str_le_antisymmetric(a.drop_first(), b.drop_first());
        assert(a =~= seq![a[0]] + a.drop_first());
        assert(b =~= seq![b[0]] + b.drop_first());
        assert(a =~= b);
    } else {
        assert(a =~= b);
    }
}

pub proof fn lemma_str_le_transitive(a: Seq<char>, b: Seq<char>, c: Seq<char>)
    requires
        spec_str_le(a, b),
        spec_str_le(b, c),
    ensures
        spec_str_le(a, c),
    decreases a.len(),
{
    if a.len() != 0 && b.len() != 0 && c.len() != 0 {
        if !((a[0] as u32) < (b[0] as u32)) && !((b[0] as u32) < (a[0] as u32)) && !((b[0] as u32)
            < (c[0] as u32)) && !((c[0] as u32) < (b[0] as u32)) {
            lemma_str_le_transitive(a.drop_first(), b.drop_first(), c.drop_first());
        }
    }
}

/// The lexicographic order is a total ordering, in the sense of
/// `vstd::relations`.
pub proof fn lemma_str_le_total_ordering()
    ensures
        vstd::relations::total_ordering(|a: Seq<char>, b: Seq<char>| spec_str_le(a, b)),
{
    let leq = |a: Seq<char>, b: Seq<char>| spec_str_le(a, b);
    assert forall|a: Seq<char>, b: Seq<char>| #![trigger leq(a, b)] leq(a, b) || leq(b, a) by {
        lemma_str_le_total(a, b);
    }
    assert forall|a: Seq<char>, b: Seq<char>| #![trigger leq(a, b), leq(b, a)]
        leq(a, b) && leq(b, a) implies a == b by {
        lemma_str_le_antisymmetric(a, b);
    }
    assert forall|a: Seq<char>, b: Seq<char>, c: Seq<char>| #![trigger leq(a, b), leq(b, c)]
        leq(a, b) && leq(b, c) implies leq(a, c) by {
        lemma_str_le_transitive(a, b, c);
    }
}

pub fn str_le(a: &str, b: &str) -> (r: bool)
    ensures
        r == spec_str_le(a@, b@),
{
    let a_len = a.unicode_len();
    let b_len = b.unicode_len();
    let mut i: usize = 0;
    proof {
        assert(a@.skip(0) =~= a@);
        assert(b@.skip(0) =~= b@);
    }
    loop
        invariant
            i <= a_len,
            i <= b_len,
            a_len == a@.len(),
            b_len == b@.len(),
            spec_str_le(a@, b@) == spec_str_le(a@.skip(i as int), b@.skip(i as int)),
        decreases a_len - i,
    {
        if i == a_len {
            return true;
        }
        if i == b_len {
            return false;
        }
        let ca = a.get_char(i);
        let cb = b.get_char(i);
        if (ca as u32) < (cb as u32) {
            return true;
        }
        if (cb as u32) < (ca as u32) {
            return false;
        }
        proof {
            assert(a@.skip(i as int).drop_first() =~= a@.skip(i + 1));
            assert(b@.skip(i as int).drop_first() =~= b@.skip(i + 1));
        }
        i = i + 1;
    }
}

pub fn str_eq(a: &str, b: &str) -> (r: bool)
    ensures
        r == (a@ == b@),
{
    let a_len = a.unicode_len();
    let b_len = b.unicode_len();
    if a_len != b_len {
        return false;
    }
    let mut i: usize = 0;
    while i < a_len
        invariant
            i <= a_len,
            a_len == a@.len(),
            a_len == b@.len(),
            forall|j: int| 0 <= j < i ==> a@[j] == b@[j],
        decreases a_len - i,
    {
        if a.get_char(i) != b.get_char(i) {
            return false;
        }
        i = i + 1;
    }
    proof {
        assert(a@ =~= b@);
    }
    true
}

// ---------------------------------------------------------------------------
// Escaping for quoted strings, used both when rendering the build-state
// record and the build description, and when reading quoted values back.
// ---------------------------------------------------------------------------

/// The characters that are written as a two-character escape sequence.
pub open spec fn spec_escape_char(c: char) -> Seq<char> {
    if c == '"' {
        seq!['\\', '"']
    } else if c == '\\' {
        seq!['\\', '\\']
    } else if c == '\n' {
        seq!['\\', 'n']
    } else if c == '\t' {
        seq!['\\', 't']
    } else if c == '\r' {
        seq!['\\', 'r']
    } else {
        seq![c]
    }
}

pub open spec fn spec_escape(s: Seq<char>) -> Seq<char>
    decreases s.len(),
{
    if s.len() == 0 {
        Seq::empty()
    } else {
        spec_escape_char(s[0]) + spec_escape(s.drop_first())
    }
}

pub proof fn lemma_escape_push(s: Seq<char>, c: char)
    ensures
        spec_escape(s.push(c)) == spec_escape(s) + spec_escape_char(c),
    decreases s.len(),
{
    if s.len() == 0 {
        assert(s.push(c)[0] == c);
        assert(s.push(c).drop_first() =~= Seq::<char>::empty());
        assert(spec_escape(Seq::<char>::empty()) =~= Seq::<char>::empty());
        assert(spec_escape(s.push(c)) =~= spec_escape_char(c));
        assert(spec_escape(s) + spec_escape_char(c) =~= spec_escape_char(c));
    } else {
        assert(s.push(c).drop_first() =~= s.drop_first().push(c));
        lemma_escape_push(s.drop_first(), c);
        assert(spec_escape(s.push(c)) =~= spec_escape(s) + spec_escape_char(c));
    }
}

/// A character that escaping leaves alone.
pub open spec fn spec_plain_char(c: char) -> bool {
    c != '"' && c != '\\' && c != '\n' && c != '\t' && c != '\r' && c != ' '
}

/// Escaping a string of plain characters changes nothing.
pub proof fn lemma_escape_plain(s: Seq<char>)
    requires
        forall|i: int| 0 <= i < s.len() ==> spec_plain_char(#[trigger] s[i]),
    ensures
        spec_escape(s) == s,
    decreases s.len(),
{
    if s.len() == 0 {
        assert(spec_escape(s) =~= s);
    } else {
        assert(spec_plain_char(s[0]));
        assert forall|i: int| 0 <= i < s.drop_first().len() implies spec_plain_char(
            #[trigger] s.drop_first()[i],
        ) by {
            assert(s.drop_first()[i] == s[i + 1]);
        }
        lemma_escape_plain(s.drop_first());
        assert(spec_escape_char(s[0]) =~= seq![s[0]]);
        assert(spec_escape(s) =~= s);
    }
}

/// The escape of a string never contains a raw newline, so every rendered
/// line stays a single line.
pub proof fn lemma_escape_no_newline(s: Seq<char>)
    ensures
        forall|i: int| 0 <= i < spec_escape(s).len() ==> spec_escape(s)[i] != '\n',
    decreases s.len(),
{
    if s.len() != 0 {
        lemma_escape_no_newline(s.drop_first());
        assert forall|i: int| 0 <= i < spec_escape(s).len() implies spec_escape(s)[i] != '\n' by {
            let head = spec_escape_char(s[0]);
            let tail = spec_escape(s.drop_first());
            assert(spec_escape(s) == head + tail);
            if i < head.len() {
                assert(head[i] != '\n');
            } else {
                assert(spec_escape(s)[i] == tail[i - head.len()]);
            }
        }
    }
}

pub fn escape(s: &str) -> (r: String)
    ensures
        r@ == spec_escape(s@),
{
    let len = s.unicode_len();
    let mut out = String::new();
    let mut i: usize = 0;
    while i < len
        invariant
            i <= len,
            len == s@.len(),
            out@ == spec_escape(s@.take(i as int)),
        decreases len - i,
    {
        let c = s.get_char(i);
        if c == '"' {
            push_char(&mut out, '\\');
            push_char(&mut out, '"');
        } else if c == '\\' {
            push_char(&mut out, '\\');
            push_char(&mut out, '\\');
        } else if c == '\n' {
            push_char(&mut out, '\\');
            push_char(&mut out, 'n');
        } else if c == '\t' {
            push_char(&mut out, '\\');
            push_char(&mut out, 't');
        } else if c == '\r' {
            push_char(&mut out, '\\');
            push_char(&mut out, 'r');
        } else {
            push_char(&mut out, c);
        }
        proof {
            lemma_escape_push(s@.take(i as int), s@[i as int]);
            assert(s@.take(i as int).push(s@[i as int]) =~= s@.take(i + 1));
            assert(out@ =~= spec_escape(s@.take(i as int)) + spec_escape_char(s@[i as int]));
        }
        i = i + 1;
    }
    proof {
        assert(s@.take(len as int) =~= s@);
    }
    out
}

// ---------------------------------------------------------------------------
// Decimal rendering, used for list-index error messages and for the creation
// date written into library templates.
// ---------------------------------------------------------------------------

pub open spec fn spec_dec_digit(d: int) -> char {
    if d == 0 {
        '0'
    } else if d == 1 {
        '1'
    } else if d == 2 {
        '2'
    } else if d == 3 {
        '3'
    } else if d == 4 {
        '4'
    } else if d == 5 {
        '5'
    } else if d == 6 {
        '6'
    } else if d == 7 {
        '7'
    } else if d == 8 {
        '8'
    } else {
        '9'
    }
}

/// The usual decimal rendering of a non-negative integer, no leading zeros.
pub open spec fn spec_dec(n: int) -> Seq<char>
    decreases n,
{
    if n < 10 {
        seq![spec_dec_digit(n)]
    } else {
        spec_dec(n / 10).push(spec_dec_digit(n % 10))
    }
}

/// Decimal rendering left-padded with zeros to at least `width` characters,
/// as the `{:0w}` format does.
pub open spec fn spec_dec_pad(n: int, width: int) -> Seq<char>
    decreases width,
{
    if spec_dec(n).len() >= width {
        spec_dec(n)
    } else {
        seq!['0'] + spec_dec_pad(n, width - 1)
    }
}

fn dec_digit(d: u32) -> (c: char)
    requires
        d < 10,
    ensures
        c == spec_dec_digit(d as int),
{
    match d {
        0 => '0',
        1 => '1',
        2 => '2',
        3 => '3',
        4 => '4',
        5 => '5',
        6 => '6',
        7 => '7',
        8 => '8',
        _ => '9',
    }
}

pub fn format_dec(n: u32) -> (r: String)
    ensures
        r@ == spec_dec(n as int),
    decreases n,
{
    if n < 10 {
        let mut s = String::new();
        push_char(&mut s, dec_digit(n));
        proof {
            assert(s@ =~= seq![spec_dec_digit(n as int)]);
        }
        s
    } else {
        let mut s = format_dec(n / 10);
        push_char(&mut s, dec_digit(n % 10));
        s
    }
}

pub fn format_dec_pad(n: u32, width: u32) -> (r: String)
    ensures
        r@ == spec_dec_pad(n as int, width as int),
    decreases width,
{
    let digits = format_dec(n);
    let len = digits.as_str().unicode_len();
    if len >= width as usize {
        digits
    } else {
        let mut s = String::new();
        push_char(&mut s, '0');
        let rest = format_dec_pad(n, width - 1);
        s.append(rest.as_str());
        proof {
            assert(s@ =~= seq!['0'] + spec_dec_pad(n as int, width as int - 1));
        }
        s
    }
}

/// The English ordinal suffix the original list-attribute diagnostics use,
/// chosen from the last decimal digit of the index.
pub open spec fn spec_ord(i: int) -> Seq<char> {
    if i % 10 == 1 {
        "st"@
    } else if i % 10 == 2 {
        "nd"@
    } else if i % 10 == 3 {
        "rd"@
    } else {
        "th"@
    }
}

pub fn ord(i: usize) -> (r: String)
    ensures
        r@ == spec_ord(i as int),
{
    match i % 10 {
        1 => "st".to_owned(),
        2 => "nd".to_owned(),
        3 => "rd".to_owned(),
        _ => "th".to_owned(),
    }
}

// ---------------------------------------------------------------------------
// Path components.
// ---------------------------------------------------------------------------

pub open spec fn spec_strip_trailing_slashes(p: Seq<char>) -> Seq<char>
    decreases p.len(),
{
    if p.len() > 0 && p.last() == '/' {
        spec_strip_trailing_slashes(p.drop_last())
    } else {
        p
    }
}

/// The suffix after the last `/`; the whole sequence when there is none.
pub open spec fn spec_after_last_slash(q: Seq<char>) -> Seq<char>
    decreases q.len(),
{
    if q.len() == 0 {
        Seq::empty()
    } else if q.last() == '/' {
        Seq::empty()
    } else {
        spec_after_last_slash(q.drop_last()).push(q.last())
    }
}

/// The last path component: what follows the last `/` once trailing slashes
/// are stripped, or `/` itself for a path of slashes alone.
pub open spec fn spec_last_component(p: Seq<char>) -> Seq<char> {
    let q = spec_strip_trailing_slashes(p);
    if q.len() == 0 {
        seq!['/']
    } else {
        spec_after_last_slash(q)
    }
}

proof fn lemma_after_last_slash_at(q: Seq<char>, j: int)
    requires
        0 <= j <= q.len(),
        j == 0 || q[j - 1] == '/',
        forall|k: int| j <= k < q.len() ==> q[k] != '/',
    ensures
        spec_after_last_slash(q) == q.skip(j),
    decreases q.len(),
{
    if q.len() == 0 {
        assert(q.skip(0) =~= Seq::<char>::empty());
    } else if j == q.len() {
        if j > 0 {
            assert(q.last() == q[j - 1]);
        }
        assert(q.skip(j) =~= Seq::<char>::empty());
    } else {
        assert(q.last() != '/');
        assert forall|k: int| j <= k < q.drop_last().len() implies q.drop_last()[k] != '/' by {
            assert(q.drop_last()[k] == q[k]);
        }
        lemma_after_last_slash_at(q.drop_last(), j);
        assert(q.drop_last().skip(j).push(q.last()) =~= q.skip(j));
    }
}

pub fn last_component(path: &str) -> (r: String)
    ensures
        r@ == spec_last_component(path@),
{
    let len = path.unicode_len();
    let mut b: usize = len;
    proof {
        assert(path@.take(len as int) =~= path@);
    }
    while b > 0 && path.get_char(b - 1) == '/'
        invariant
            b <= len,
            len == path@.len(),
            spec_strip_trailing_slashes(path@) == spec_strip_trailing_slashes(
                path@.take(b as int),
            ),
        decreases b,
    {
        proof {
            assert(path@.take(b as int).drop_last() =~= path@.take(b - 1));
        }
        b = b - 1;
    }
    let ghost q = spec_strip_trailing_slashes(path@);
    proof {
        assert(q == path@.take(b as int));
    }
    if b == 0 {
        let mut s = String::new();
        push_char(&mut s, '/');
        proof {
            assert(s@ =~= seq!['/']);
        }
        return s;
    }
    let mut j: usize = b;
    while j > 0 && path.get_char(j - 1) != '/'
        invariant
            j <= b,
            b <= len,
            len == path@.len(),
            q == path@.take(b as int),
            forall|k: int| j <= k < b ==> q[k] != '/',
        decreases j,
    {
        proof {
            assert(q[j - 1] == path@[j - 1]);
        }
        j = j - 1;
    }
    proof {
        assert(j == 0 || q[j - 1] == '/');
        lemma_after_last_slash_at(q, j as int);
    }
    let r = path.substring_char(j, b);
    proof {
        assert(r@ =~= q.skip(j as int));
    }
    r.to_owned()
}

/// What `Path::file_name` reads off the last component: the component
/// itself, or nothing for the root, for `.` and for `..`.
pub open spec fn spec_file_name(p: Seq<char>) -> Seq<char> {
    let c = spec_last_component(p);
    if c == seq!['/'] || c == "."@ || c == ".."@ {
        Seq::empty()
    } else {
        c
    }
}

pub fn file_name(path: &str) -> (r: String)
    ensures
        r@ == spec_file_name(path@),
{
    let c = last_component(path);
    proof {
        reveal_strlit(".");
        reveal_strlit("..");
    }
    if str_eq(c.as_str(), "/") {
        proof {
            reveal_strlit("/");
            assert("/"@ =~= seq!['/']);
        }
        String::new()
    } else if str_eq(c.as_str(), ".") || str_eq(c.as_str(), "..") {
        String::new()
    } else {
        proof {
            reveal_strlit("/");
            assert("/"@ =~= seq!['/']);
        }
        c
    }
}

} // verus!
