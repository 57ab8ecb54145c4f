//! Content fingerprints: the MD5 digest of a file's bytes, written as
//! lowercase hexadecimal.
use crate::text::string_of;
use vstd::prelude::*;

verus! {

/// The sixteen bytes of the MD5 digest of `b`.
pub uninterp spec fn md5_of(b: Seq<u8>) -> Seq<u8>;

/// Relies on `md5::compute`, whose `Digest` holds the sixteen digest bytes.
#[verifier::external_body]
fn md5_bytes(b: &Vec<u8>) -> (r: Vec<u8>)
    ensures
        r@ == md5_of(b@),
        r@.len() == 16,
{
    md5::compute(b.as_slice()).0.to_vec()
}

/// The lowercase hexadecimal digit for a value below sixteen.
pub open spec fn hex_digit(n: u8) -> char {
    if n < 10 {
        (('0' as u8) + n) as char
    } else {
        (('a' as u8) + n - 10) as char
    }
}

/// Two lowercase hexadecimal digits for each byte, high half first.
pub open spec fn hex_of(b: Seq<u8>) -> Seq<char>
    decreases b.len(),
{
    if b.len() == 0 {
        Seq::empty()
    } else {
        hex_of(b.drop_last()) + seq![hex_digit(b.last() / 16), hex_digit(b.last() % 16)]
    }
}

/// The fingerprint of a file's contents.
pub open spec fn digest_of(b: Seq<u8>) -> Seq<char> {
    hex_of(md5_of(b))
}

fn hex_char(n: u8) -> (c: char)
    requires
        n < 16,
    ensures
        c == hex_digit(n),
{
    if n < 10 {
        (('0' as u8) + n) as char
    } else {
        (('a' as u8) + n - 10) as char
    }
}

/// Writes `b` as lowercase hexadecimal.
pub fn to_hex(b: &Vec<u8>) -> (r: Vec<char>)
    ensures
        r@ == hex_of(b@),
{
    let mut r: Vec<char> = Vec::new();
    let mut i: usize = 0;
    while i < b.len()
        invariant
            i <= b@.len(),
            r@ == hex_of(b@.subrange(0, i as int)),
        decreases b@.len() - i,
    {
        let x = b[i];
        r.push(hex_char(x / 16));
        r.push(hex_char(x % 16));
        proof {
            let s = b@.subrange(0, i + 1);
            assert(s.drop_last() =~= b@.subrange(0, i as int));
            assert(r@ =~= hex_of(s));
        }
        i = i + 1;
    }
    assert(b@.subrange(0, b@.len() as int) =~= b@);
    r
}

/// The fingerprint of `content`: its MD5 digest in lowercase hexadecimal.
pub fn digest(content: &Vec<u8>) -> (r: String)
    ensures
        r@ == digest_of(content@),
        r@.len() == 32,
{
    let d = md5_bytes(content);
    let h = to_hex(&d);
    proof {
        lemma_hex_len(d@);
    }
    string_of(&h)
}

pub proof fn lemma_hex_len(b: Seq<u8>)
    ensures
        hex_of(b).len() == 2 * b.len(),
    decreases b.len(),
{
    if b.len() > 0 {
        lemma_hex_len(b.drop_last());
    }
}

proof fn lemma_hex_digit_injective(n: u8, m: u8)
    requires
        n < 16,
        m < 16,
        hex_digit(n) == hex_digit(m),
    ensures
        n == m,
{
}

/// Different bytes never have the same hexadecimal form.
pub proof fn lemma_hex_injective(a: Seq<u8>, b: Seq<u8>)
    requires
        hex_of(a) == hex_of(b),
    ensures
        a == b,
    decreases a.len(),
{
    lemma_hex_len(a);
    lemma_hex_len(b);
    if a.len() > 0 {
        let ha = hex_of(a.drop_last());
        let hb = hex_of(b.drop_last());
        lemma_hex_len(a.drop_last());
        lemma_hex_len(b.drop_last());
        let n = ha.len() as int;
        assert(hex_of(a)[n] == hex_digit(a.last() / 16));
        assert(hex_of(b)[n] == hex_digit(b.last() / 16));
        assert(hex_of(a)[n + 1] == hex_digit(a.last() % 16));
        assert(hex_of(b)[n + 1] == hex_digit(b.last() % 16));
        lemma_hex_digit_injective(a.last() / 16, b.last() / 16);
        lemma_hex_digit_injective(a.last() % 16, b.last() % 16);
        assert(hex_of(a).subrange(0, n) =~= ha);
        assert(hex_of(b).subrange(0, n) =~= hb);
        lemma_hex_injective(a.drop_last(), b.drop_last());
        assert(a =~= a.drop_last().push(a.last()));
        assert(b =~= b.drop_last().push(b.last()));
    }
}

/// The fingerprint depends on the contents alone: equal contents give equal
/// fingerprints, and two contents share a fingerprint only where their MD5
/// digests are equal, so distinct files collide no more often than MD5 does.
pub proof fn lemma_digest_laws(b1: Seq<u8>, b2: Seq<u8>)
    ensures
        b1 == b2 ==> digest_of(b1) == digest_of(b2),
        digest_of(b1) == digest_of(b2) ==> md5_of(b1) == md5_of(b2),
{
    if digest_of(b1) == digest_of(b2) {
        lemma_hex_injective(md5_of(b1), md5_of(b2));
    }
}

} // verus!
