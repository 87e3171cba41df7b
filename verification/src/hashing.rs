//! Content hashing, the change-detection primitive: SHA-256 digests of byte
//! strings, and the hexadecimal form in which digests are persisted in the
//! build-state record.

use vstd::prelude::*;

use sha2::Digest;

verus! {

/// The SHA-256 digest of a byte string. The digest function itself is not
/// modelled; all that the library relies on is that it is a pure function of
/// the input bytes.
pub uninterp spec fn sha256_of(data: Seq<u8>) -> Seq<u8>;

/// Relies on `sha2::Sha256` (through the `Digest` trait): the digest is a
/// pure function of the input bytes and is exactly 32 bytes long.
#[verifier::external_body]
pub(crate) fn sha256(data: &[u8]) -> (r: Vec<u8>)
    ensures
        r@ == sha256_of(data@),
        r@.len() == 32,
{
    sha2::Sha256::digest(data).as_slice().to_vec()
}

// ---------------------------------------------------------------------------
// Hexadecimal encoding of digests.
// ---------------------------------------------------------------------------

/// The lowercase hexadecimal digit for a value below 16.
pub open spec fn spec_hex_digit(d: int) -> char {
    if d == 0 {
        '0'
    } else if d == 1 {
        '1'
    } else if d == 2 {
        '2'
    } else if d == 3 {
        '3'
    } else if d == 4 {
        '4'
    } else if d == 5 {
        '5'
    } else if d == 6 {
        '6'
    } else if d == 7 {
        '7'
    } else if d == 8 {
        '8'
    } else if d == 9 {
        '9'
    } else if d == 10 {
        'a'
    } else if d == 11 {
        'b'
    } else if d == 12 {
        'c'
    } else if d == 13 {
        'd'
    } else if d == 14 {
        'e'
    } else {
        'f'
    }
}

/// Lowercase hexadecimal rendering of a byte string, two digits per byte.
pub open spec fn spec_hex_encode(b: Seq<u8>) -> Seq<char>
    decreases b.len(),
{
    if b.len() == 0 {
        Seq::empty()
    } else {
        seq![
            spec_hex_digit(b[0] as int / 16),
            spec_hex_digit(b[0] as int % 16),
        ] + spec_hex_encode(b.drop_first())
    }
}

/// The value of one hexadecimal digit; 16 marks a character that is no
/// hexadecimal digit. Both letter cases are accepted when reading.
pub open spec fn spec_hex_val(c: char) -> int {
    if '0' as int <= c as int && c as int <= '9' as int {
        c as int - '0' as int
    } else if 'a' as int <= c as int && c as int <= 'f' as int {
        c as int - 'a' as int + 10
    } else if 'A' as int <= c as int && c as int <= 'F' as int {
        c as int - 'A' as int + 10
    } else {
        16
    }
}

/// Decoding of a hexadecimal string back into bytes: fails on odd length or
/// on any character that is no hexadecimal digit.
pub open spec fn spec_hex_decode(s: Seq<char>) -> Option<Seq<u8>>
    decreases s.len(),
{
    if s.len() == 0 {
        Some(Seq::empty())
    } else if s.len() == 1 {
        None
    } else if spec_hex_val(s[0]) == 16 || spec_hex_val(s[1]) == 16 {
        None
    } else {
        match spec_hex_decode(s.skip(2)) {
            Some(rest) => Some(
                seq![(spec_hex_val(s[0]) * 16 + spec_hex_val(s[1])) as u8] + rest,
            ),
            None => None,
        }
    }
}

/// Decoding is a left inverse of encoding.
pub proof fn lemma_hex_round_trip(b: Seq<u8>)
    ensures
        spec_hex_decode(spec_hex_encode(b)) == Some(b),
    decreases b.len(),
{
    if b.len() == 0 {
        assert(spec_hex_encode(b) =~= Seq::<char>::empty());
    } else {
        lemma_hex_round_trip(b.drop_first());
        let e = spec_hex_encode(b);
        let hi = b[0] as int / 16;
        let lo = b[0] as int % 16;
        assert(spec_hex_val(spec_hex_digit(hi)) == hi);
        assert(spec_hex_val(spec_hex_digit(lo)) == lo);
        assert(e.skip(2) =~= spec_hex_encode(b.drop_first()));
        assert(hi * 16 + lo == b[0] as int);
        assert(seq![b[0]] + b.drop_first() =~= b);
    }
}

/// Every character of a hexadecimal rendering is a plain digit or letter:
/// nothing that escaping, trimming or line splitting would touch.
pub proof fn lemma_hex_encode_plain(b: Seq<u8>)
    ensures
        forall|i: int|
            0 <= i < spec_hex_encode(b).len() ==> crate::text::spec_plain_char(
                #[trigger] spec_hex_encode(b)[i],
            ) && spec_hex_encode(b)[i] != '\n' && spec_hex_encode(b)[i] != '=',
    decreases b.len(),
{
    if b.len() != 0 {
        lemma_hex_encode_plain(b.drop_first());
        let e = spec_hex_encode(b);
        let hi = spec_hex_digit(b[0] as int / 16);
        let lo = spec_hex_digit(b[0] as int % 16);
        assert forall|i: int|
            0 <= i < e.len() implies crate::text::spec_plain_char(#[trigger] e[i]) && e[i]
            != '\n' && e[i] != '=' by {
            if i == 0 {
                assert(e[i] == hi);
            } else if i == 1 {
                assert(e[i] == lo);
            } else {
                assert(e[i] == spec_hex_encode(b.drop_first())[i - 2]);
            }
        }
    }
}

fn hex_digit(d: u8) -> (c: char)
    requires
        d < 16,
    ensures
        c == spec_hex_digit(d as int),
{
    match d {
        0 => '0',
        1 => '1',
        2 => '2',
        3 => '3',
        4 => '4',
        5 => '5',
        6 => '6',
        7 => '7',
        8 => '8',
        9 => '9',
        10 => 'a',
        11 => 'b',
        12 => 'c',
        13 => 'd',
        14 => 'e',
        _ => 'f',
    }
}

proof fn lemma_hex_encode_push(b: Seq<u8>, x: u8)
    ensures
        spec_hex_encode(b.push(x)) == spec_hex_encode(b) + seq![
            spec_hex_digit(x as int / 16),
            spec_hex_digit(x as int % 16),
        ],
    decreases b.len(),
{
    if b.len() == 0 {
        assert(b.push(x)[0] == x);
        assert(b.push(x).drop_first() =~= Seq::<u8>::empty());
        assert(spec_hex_encode(Seq::<u8>::empty()) =~= Seq::<char>::empty());
        assert(spec_hex_encode(b.push(x)) =~= spec_hex_encode(b) + seq![
            spec_hex_digit(x as int / 16),
            spec_hex_digit(x as int % 16),
        ]);
    } else {
        assert(b.push(x).drop_first() =~= b.drop_first().push(x));
        lemma_hex_encode_push(b.drop_first(), x);
        assert(spec_hex_encode(b.push(x)) =~= spec_hex_encode(b) + seq![
            spec_hex_digit(x as int / 16),
            spec_hex_digit(x as int % 16),
        ]);
    }
}

pub fn hex_encode(b: &[u8]) -> (r: String)
    ensures
        r@ == spec_hex_encode(b@),
{
    let mut out = String::new();
    let mut i: usize = 0;
    proof {
        assert(b@.take(0) =~= Seq::<u8>::empty());
        assert(spec_hex_encode(Seq::<u8>::empty()) =~= Seq::<char>::empty());
    }
    while i < b.len()
        invariant
            i <= b@.len(),
            out@ == spec_hex_encode(b@.take(i as int)),
        decreases b@.len() - i,
    {
        let x = b[i];
        crate::text::push_char(&mut out, hex_digit(x / 16));
        crate::text::push_char(&mut out, hex_digit(x % 16));
        proof {
            lemma_hex_encode_push(b@.take(i as int), x);
            assert(b@.take(i as int).push(x) =~= b@.take(i + 1));
            assert(out@ =~= spec_hex_encode(b@.take(i as int)) + seq![
                spec_hex_digit(x as int / 16),
                spec_hex_digit(x as int % 16),
            ]);
        }
        i = i + 1;
    }
    proof {
        assert(b@.take(b@.len() as int) =~= b@);
    }
    out
}

fn hex_val(c: char) -> (v: u8)
    ensures
        v as int == spec_hex_val(c),
{
    let x = c as u32;
    if 48 <= x && x <= 57 {
        (x - 48) as u8
    } else if 97 <= x && x <= 102 {
        (x - 97 + 10) as u8
    } else if 65 <= x && x <= 70 {
        (x - 65 + 10) as u8
    } else {
        16
    }
}

pub fn hex_decode(s: &str) -> (r: Option<Vec<u8>>)
    ensures
        match r {
            Some(v) => spec_hex_decode(s@) == Some(v@),
            None => spec_hex_decode(s@) == None::<Seq<u8>>,
        },
{
    let len = s.unicode_len();
    if len % 2 != 0 {
        proof {
            lemma_hex_decode_odd(s@);
        }
        return None;
    }
    let mut out: Vec<u8> = Vec::new();
    let mut i: usize = 0;
    proof {
        assert(s@.skip(0) =~= s@);
    }
    while i < len
        invariant
            i <= len,
            i % 2 == 0,
            len % 2 == 0,
            len == s@.len(),
            spec_hex_decode(s@) == match spec_hex_decode(s@.skip(i as int)) {
                Some(rest) => Some(out@ + rest),
                None => None::<Seq<u8>>,
            },
        decreases len - i,
    {
        let hi = hex_val(s.get_char(i));
        let lo = hex_val(s.get_char(i + 1));
        if hi == 16 || lo == 16 {
            proof {
                assert(s@.skip(i as int)[0] == s@[i as int]);
                assert(s@.skip(i as int)[1] == s@[i + 1]);
                assert(spec_hex_decode(s@.skip(i as int)) == None::<Seq<u8>>);
            }
            return None;
        }
        out.push(hi * 16 + lo);
        proof {
            assert(s@.skip(i as int).skip(2) =~= s@.skip(i + 2));
            assert(s@.skip(i as int)[0] == s@[i as int]);
            assert(s@.skip(i as int)[1] == s@[i + 1]);
            lemma_hex_decode_cons(s@, i as int, out@);
        }
        i = i + 2;
    }
    proof {
        assert(s@.skip(len as int) =~= Seq::<char>::empty());
        assert(spec_hex_decode(Seq::<char>::empty()) == Some(Seq::<u8>::empty()));
        assert(out@ + Seq::<u8>::empty() =~= out@);
    }
    Some(out)
}

proof fn lemma_hex_decode_odd(s: Seq<char>)
    requires
        s.len() % 2 == 1,
    ensures
        spec_hex_decode(s) == None::<Seq<u8>>,
    decreases s.len(),
{
    if s.len() > 1 {
        lemma_hex_decode_odd(s.skip(2));
    }
}

proof fn lemma_hex_decode_cons(s: Seq<char>, i: int, acc: Seq<u8>)
    requires
        0 <= i,
        i + 2 <= s.len(),
        spec_hex_val(s[i]) < 16,
        spec_hex_val(s[i + 1]) < 16,
        acc.len() > 0,
        acc.last() as int == spec_hex_val(s[i]) * 16 + spec_hex_val(s[i + 1]),
    ensures
        match spec_hex_decode(s.skip(i)) {
            Some(rest) => Some(acc.drop_last() + rest),
            None => None::<Seq<u8>>,
        } == match spec_hex_decode(s.skip(i + 2)) {
            Some(rest) => Some(acc + rest),
            None => None::<Seq<u8>>,
        },
{
    let t = s.skip(i);
    assert(t[0] == s[i]);
    assert(t[1] == s[i + 1]);
    assert(t.skip(2) =~= s.skip(i + 2));
    match spec_hex_decode(s.skip(i + 2)) {
        Some(rest) => {
            assert(spec_hex_decode(t) == Some(
                seq![(spec_hex_val(t[0]) * 16 + spec_hex_val(t[1])) as u8] + rest,
            ));
            assert(acc.drop_last() + (seq![acc.last()] + rest) =~= acc + rest);
        },
        None => {
            assert(spec_hex_decode(t) == None::<Seq<u8>>);
        },
    }
}

pub fn bytes_eq(a: &[u8], b: &[u8]) -> (r: bool)
    ensures
        r == (a@ == b@),
{
    if a.len() != b.len() {
        return false;
    }
    let mut i: usize = 0;
    while i < a.len()
        invariant
            i <= a@.len(),
            a@.len() == b@.len(),
            forall|j: int| 0 <= j < i ==> a@[j] == b@[j],
        decreases a@.len() - i,
    {
        if a[i] != b[i] {
            return false;
        }
        i = i + 1;
    }
    proof {
        assert(a@ =~= b@);
    }
    true
}

} // verus!
