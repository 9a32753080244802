//! Keys of cached items and the files that hold them.
//!
//! A key is a 128-bit value; its file in the backing directory is named by
//! the key's hyphenated lowercase hexadecimal form (`8-4-4-4-12` digits, most
//! significant digit first), the form in which UUIDs are written.
use vstd::prelude::*;

verus! {

/// A datatype that serves as the access key of cached items.
///
/// A key, written out as a file name, must not contain anything that the
/// operating system could read otherwise (such as a path separator). New keys
/// are drawn at random by the caller (a version 4 UUID, for instance) and
/// handed to the cache.
pub trait Key: Sized {
    /// The name of the file that holds the item with this key.
    fn as_filename(&self) -> String;
}

/// The character of a hexadecimal digit, lowercase.
pub open spec fn hex_char(d: int) -> char {
    if d < 10 {
        (48 + d) as char
    } else {
        (87 + d) as char
    }
}

/// The `n`th hexadecimal digit of `k`, counting from the most significant.
pub open spec fn nibble(k: u128, n: int) -> u128 {
    (k >> ((4 * (31 - n)) as u128)) & 15u128
}

/// The 32 hexadecimal digits of `k`, most significant first.
pub open spec fn hex_digits(k: u128) -> Seq<char> {
    Seq::new(32, |n: int| hex_char(nibble(k, n) as int))
}

/// The file name of key `k`: its digits in groups of 8, 4, 4, 4 and 12,
/// joined by hyphens.
pub open spec fn key_filename(k: u128) -> Seq<char> {
    let d = hex_digits(k);
    d.subrange(0, 8) + seq!['-'] + d.subrange(8, 12) + seq!['-'] + d.subrange(12, 16) + seq!['-']
        + d.subrange(16, 20) + seq!['-'] + d.subrange(20, 32)
}

/// The path of file `name` in directory `dir`, joined as Unix paths are: a
/// `/` stands between them unless `dir` is empty or already ends in one.
pub open spec fn joined(dir: Seq<char>, name: Seq<char>) -> Seq<char> {
    if dir.len() == 0 || dir.last() == '/' {
        dir + name
    } else {
        dir + seq!['/'] + name
    }
}

/// Collects characters into a `String` (`FromIterator<&char>` for `String`).
#[verifier::external_body]
pub(crate) fn string_from_chars(chars: &Vec<char>) -> (s: String)
    ensures
        s@ == chars@,
{
    chars.iter().collect()
}

fn hex_digit(d: u8) -> (c: char)
    requires
        d < 16,
    ensures
        c == hex_char(d as int),
{
    if d < 10 {
        (48u8 + d) as char
    } else {
        (87u8 + d) as char
    }
}

/// The digits of `k` from position `from` up to `to`.
fn hex_range(k: u128, from: usize, to: usize) -> (v: Vec<char>)
    requires
        from <= to <= 32,
    ensures
        v@ == hex_digits(k).subrange(from as int, to as int),
{
    let mut v: Vec<char> = Vec::new();
    let mut n: usize = from;
    while n < to
        invariant
            from <= n <= to <= 32,
            v@ == hex_digits(k).subrange(from as int, n as int),
        decreases to - n,
    {
        let shift: u128 = (4 * (31 - n)) as u128;
        let x: u128 = (k >> shift) & 15u128;
        assert(x < 16) by (bit_vector)
            requires
                x == (k >> shift) & 15u128,
        ;
        let c = hex_digit(x as u8);
        v.push(c);
        assert(v@ =~= hex_digits(k).subrange(from as int, n + 1));
        n = n + 1;
    }
    v
}

/// Writes `k` in the form of its file name.
pub fn key_to_filename(k: u128) -> (s: String)
    ensures
        s@ == key_filename(k),
{
    let mut v = hex_range(k, 0, 8);
    v.push('-');
    let mut part = hex_range(k, 8, 12);
    v.append(&mut part);
    v.push('-');
    let mut part = hex_range(k, 12, 16);
    v.append(&mut part);
    v.push('-');
    let mut part = hex_range(k, 16, 20);
    v.append(&mut part);
    v.push('-');
    let mut part = hex_range(k, 20, 32);
    v.append(&mut part);
    assert(v@ =~= key_filename(k));
    string_from_chars(&v)
}

/// The path of file `name` in directory `dir`.
pub fn join_path(dir: &str, name: &str) -> (p: String)
    ensures
        p@ == joined(dir@, name@),
{
    let n = dir.unicode_len();
    let mut p = dir.to_owned();
    if n > 0 && dir.get_char(n - 1) != '/' {
        proof {
            reveal_strlit("/");
        }
        p.append("/");
    }
    p.append(name);
    p
}

/// The position in a key's file name of its `n`th hexadecimal digit.
spec fn digit_position(n: int) -> int {
    if n < 8 {
        n
    } else if n < 12 {
        n + 1
    } else if n < 16 {
        n + 2
    } else if n < 20 {
        n + 3
    } else {
        n + 4
    }
}

proof fn lemma_filename_digit(k: u128, n: int)
    requires
        0 <= n < 32,
    ensures
        key_filename(k).len() == 36,
        key_filename(k)[digit_position(n)] == hex_digits(k)[n],
{
}

proof fn lemma_hex_char_injective(a: u128, b: u128)
    requires
        a < 16,
        b < 16,
        hex_char(a as int) == hex_char(b as int),
    ensures
        a == b,
{
    assert(hex_char(a as int) as int == if a < 10 { 48 + a } else { 87 + a });
    assert(hex_char(b as int) as int == if b < 10 { 48 + b } else { 87 + b });
}

/// Distinct keys have distinct file names, so that no two items share a file.
pub proof fn law_distinct_keys_have_distinct_files(k1: u128, k2: u128)
    requires
        k1 != k2,
    ensures
        key_filename(k1) != key_filename(k2),
{
    if key_filename(k1) == key_filename(k2) {
        assert forall|n: int| 0 <= n < 32 implies nibble(k1, n) == nibble(k2, n) by {
            lemma_filename_digit(k1, n);
            lemma_filename_digit(k2, n);
            let s: u128 = (4 * (31 - n)) as u128;
            let a = nibble(k1, n);
            let b = nibble(k2, n);
            assert(a < 16) by (bit_vector)
                requires
                    a == (k1 >> s) & 15u128,
            ;
            assert(b < 16) by (bit_vector)
                requires
                    b == (k2 >> s) & 15u128,
            ;
            lemma_hex_char_injective(a, b);
        }
        lemma_nibbles_determine_key(k1, k2);
    }
}

proof fn lemma_nibbles_determine_key(k1: u128, k2: u128)
    requires
        forall|n: int| 0 <= n < 32 ==> nibble(k1, n) == nibble(k2, n),
    ensures
        k1 == k2,
{
    assert(nibble(k1, 0) == nibble(k2, 0));
    assert(nibble(k1, 1) == nibble(k2, 1));
    assert(nibble(k1, 2) == nibble(k2, 2));
    assert(nibble(k1, 3) == nibble(k2, 3));
    assert(nibble(k1, 4) == nibble(k2, 4));
    assert(nibble(k1, 5) == nibble(k2, 5));
    assert(nibble(k1, 6) == nibble(k2, 6));
    assert(nibble(k1, 7) == nibble(k2, 7));
    assert(nibble(k1, 8) == nibble(k2, 8));
    assert(nibble(k1, 9) == nibble(k2, 9));
    assert(nibble(k1, 10) == nibble(k2, 10));
    assert(nibble(k1, 11) == nibble(k2, 11));
    assert(nibble(k1, 12) == nibble(k2, 12));
    assert(nibble(k1, 13) == nibble(k2, 13));
    assert(nibble(k1, 14) == nibble(k2, 14));
    assert(nibble(k1, 15) == nibble(k2, 15));
    assert(nibble(k1, 16) == nibble(k2, 16));
    assert(nibble(k1, 17) == nibble(k2, 17));
    assert(nibble(k1, 18) == nibble(k2, 18));
    assert(nibble(k1, 19) == nibble(k2, 19));
    assert(nibble(k1, 20) == nibble(k2, 20));
    assert(nibble(k1, 21) == nibble(k2, 21));
    assert(nibble(k1, 22) == nibble(k2, 22));
    assert(nibble(k1, 23) == nibble(k2, 23));
    assert(nibble(k1, 24) == nibble(k2, 24));
    assert(nibble(k1, 25) == nibble(k2, 25));
    assert(nibble(k1, 26) == nibble(k2, 26));
    assert(nibble(k1, 27) == nibble(k2, 27));
    assert(nibble(k1, 28) == nibble(k2, 28));
    assert(nibble(k1, 29) == nibble(k2, 29));
    assert(nibble(k1, 30) == nibble(k2, 30));
    assert(nibble(k1, 31) == nibble(k2, 31));
    assert(k1 == k2) by (bit_vector)
        requires
            (k1 >> 124u128) & 15u128 == (k2 >> 124u128) & 15u128,
            (k1 >> 120u128) & 15u128 == (k2 >> 120u128) & 15u128,
            (k1 >> 116u128) & 15u128 == (k2 >> 116u128) & 15u128,
            (k1 >> 112u128) & 15u128 == (k2 >> 112u128) & 15u128,
            (k1 >> 108u128) & 15u128 == (k2 >> 108u128) & 15u128,
            (k1 >> 104u128) & 15u128 == (k2 >> 104u128) & 15u128,
            (k1 >> 100u128) & 15u128 == (k2 >> 100u128) & 15u128,
            (k1 >> 96u128) & 15u128 == (k2 >> 96u128) & 15u128,
            (k1 >> 92u128) & 15u128 == (k2 >> 92u128) & 15u128,
            (k1 >> 88u128) & 15u128 == (k2 >> 88u128) & 15u128,
            (k1 >> 84u128) & 15u128 == (k2 >> 84u128) & 15u128,
            (k1 >> 80u128) & 15u128 == (k2 >> 80u128) & 15u128,
            (k1 >> 76u128) & 15u128 == (k2 >> 76u128) & 15u128,
            (k1 >> 72u128) & 15u128 == (k2 >> 72u128) & 15u128,
            (k1 >> 68u128) & 15u128 == (k2 >> 68u128) & 15u128,
            (k1 >> 64u128) & 15u128 == (k2 >> 64u128) & 15u128,
            (k1 >> 60u128) & 15u128 == (k2 >> 60u128) & 15u128,
            (k1 >> 56u128) & 15u128 == (k2 >> 56u128) & 15u128,
            (k1 >> 52u128) & 15u128 == (k2 >> 52u128) & 15u128,
            (k1 >> 48u128) & 15u128 == (k2 >> 48u128) & 15u128,
            (k1 >> 44u128) & 15u128 == (k2 >> 44u128) & 15u128,
            (k1 >> 40u128) & 15u128 == (k2 >> 40u128) & 15u128,
            (k1 >> 36u128) & 15u128 == (k2 >> 36u128) & 15u128,
            (k1 >> 32u128) & 15u128 == (k2 >> 32u128) & 15u128,
            (k1 >> 28u128) & 15u128 == (k2 >> 28u128) & 15u128,
            (k1 >> 24u128) & 15u128 == (k2 >> 24u128) & 15u128,
            (k1 >> 20u128) & 15u128 == (k2 >> 20u128) & 15u128,
            (k1 >> 16u128) & 15u128 == (k2 >> 16u128) & 15u128,
            (k1 >> 12u128) & 15u128 == (k2 >> 12u128) & 15u128,
            (k1 >> 8u128) & 15u128 == (k2 >> 8u128) & 15u128,
            (k1 >> 4u128) & 15u128 == (k2 >> 4u128) & 15u128,
            (k1 >> 0u128) & 15u128 == (k2 >> 0u128) & 15u128,
    ;
}

impl Key for u128 {
    fn as_filename(&self) -> (s: String)
        ensures
            s@ == key_filename(*self),
    {
        key_to_filename(*self)
    }
}

} // verus!
