//! Byte-string helpers: ASCII literals and comparisons.
use vstd::prelude::*;
use vstd::string::StringSliceAdditionalSpecFns;

verus! {

/// The bytes of an ASCII text.
pub open spec fn ascii(s: Seq<char>) -> Seq<u8> {
    s.map_values(|c: char| c as u8)
}

/// The bytes of an ASCII string literal.
pub fn ascii_vec(s: &str) -> (v: Vec<u8>)
    requires
        vstd::string::is_ascii(s),
    ensures
        v@ == ascii(s@),
{
    let b = s.as_bytes();
    proof {
        broadcast use vstd::string::is_ascii_spec_bytes;

    }
    let mut v: Vec<u8> = Vec::new();
    let mut i: usize = 0;
    while i < b.len()
        invariant
            b@ == s.spec_bytes(),
            s.spec_bytes() =~= Seq::new(s@.len(), |i| s@.index(i) as u8),
            i <= b@.len(),
            v@ == b@.take(i as int),
        decreases b@.len() - i,
    {
        v.push(b[i]);
        proof {
            assert(b@.take(i + 1) =~= b@.take(i as int).push(b@[i as int]));
        }
        i = i + 1;
    }
    proof {
        assert(v@ =~= ascii(s@));
    }
    v
}

/// Whether two byte strings are equal.
pub fn bytes_eq(a: &[u8], b: &[u8]) -> (r: bool)
    ensures
        r == (a@ == b@),
{
    if a.len() != b.len() {
        return false;
    }
    let mut i: usize = 0;
    while i < a.len()
        invariant
            a@.len() == b@.len(),
            i <= a@.len(),
            forall|k: int| 0 <= k < i ==> a@[k] == b@[k],
        decreases a@.len() - i,
    {
        if a[i] != b[i] {
            return false;
        }
        i = i + 1;
    }
    proof {
        assert(a@ =~= b@);
    }
    true
}

/// Copies a byte slice into a new vector.
pub fn to_vec(a: &[u8]) -> (v: Vec<u8>)
    ensures
        v@ == a@,
{
    let mut v: Vec<u8> = Vec::new();
    let mut i: usize = 0;
    while i < a.len()
        invariant
            i <= a@.len(),
            v@ == a@.take(i as int),
        decreases a@.len() - i,
    {
        v.push(a[i]);
        proof {
            assert(a@.take(i + 1) =~= a@.take(i as int).push(a@[i as int]));
        }
        i = i + 1;
    }
    proof {
        assert(v@ =~= a@);
    }
    v
}

/// Appends the bytes of `a` to `v`.
pub fn append_bytes(v: &mut Vec<u8>, a: &[u8])
    ensures
        final(v)@ == old(v)@ + a@,
{
    let ghost start = v@;
    let mut i: usize = 0;
    while i < a.len()
        invariant
            i <= a@.len(),
            v@ == start + a@.take(i as int),
        decreases a@.len() - i,
    {
        v.push(a[i]);
        proof {
            assert(a@.take(i + 1) =~= a@.take(i as int).push(a@[i as int]));
        }
        i = i + 1;
    }
    proof {
        assert(a@.take(i as int) =~= a@);
    }
}

/// Whether two strings hold the same characters.
pub fn str_eq(a: &str, b: &str) -> (r: bool)
    ensures
        r == (a@ == b@),
{
    let n = vstd::string::StrSliceExecFns::unicode_len(a);
    if n != vstd::string::StrSliceExecFns::unicode_len(b) {
        return false;
    }
    let mut i: usize = 0;
    while i < n
        invariant
            n == a@.len(),
            n == b@.len(),
            i <= n,
            forall|k: int| 0 <= k < i ==> a@[k] == b@[k],
        decreases n - i,
    {
        if vstd::string::StrSliceExecFns::get_char(a, i) != vstd::string::StrSliceExecFns::get_char(b, i) {
            return false;
        }
        i = i + 1;
    }
    proof {
        assert(a@ =~= b@);
    }
    true
}

/// The position of the first `b` in `s`, or the length of `s` when there is none.
pub open spec fn first_index_of(s: Seq<u8>, b: u8) -> int
    decreases s.len(),
{
    if s.len() == 0 {
        0
    } else if s[0] == b {
        0
    } else {
        1 + first_index_of(s.drop_first(), b)
    }
}

/// `first_index_of` is the first position holding `b`, or the length.
pub proof fn lemma_first_index_of(s: Seq<u8>, b: u8)
    ensures
        0 <= first_index_of(s, b) <= s.len(),
        first_index_of(s, b) < s.len() ==> s[first_index_of(s, b)] == b,
        forall|k: int| 0 <= k < first_index_of(s, b) ==> s[k] != b,
    decreases s.len(),
{
    if s.len() > 0 && s[0] != b {
        lemma_first_index_of(s.drop_first(), b);
        assert forall|k: int| 0 <= k < first_index_of(s, b) implies s[k] != b by {
            if k > 0 {
                assert(s[k] == s.drop_first()[k - 1]);
            }
        }
    }
}

/// The position of the first `b` in `a`, or its length when there is none.
pub fn find_byte(a: &[u8], b: u8) -> (r: usize)
    ensures
        r == first_index_of(a@, b),
{
    proof {
        lemma_first_index_of(a@, b);
    }
    let mut i: usize = 0;
    while i < a.len()
        invariant
            i <= a@.len(),
            forall|k: int| 0 <= k < i ==> a@[k] != b,
            0 <= first_index_of(a@, b) <= a@.len(),
            first_index_of(a@, b) < a@.len() ==> a@[first_index_of(a@, b)] == b,
            forall|k: int| 0 <= k < first_index_of(a@, b) ==> a@[k] != b,
        decreases a@.len() - i,
    {
        if a[i] == b {
            return i;
        }
        i = i + 1;
    }
    i
}

} // verus!
