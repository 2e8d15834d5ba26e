//! String helpers: equality, byte-wise ordering and lower-casing.

use std::cmp::Ordering;
use vstd::prelude::*;
use vstd::string::StringSliceAdditionalSpecFns;

verus! {

/// Lexicographic "less than or equal" on byte sequences.
pub open spec fn bytes_le(a: Seq<u8>, b: Seq<u8>) -> bool
    decreases a.len(),
{
    if a.len() == 0 {
        true
    } else if b.len() == 0 {
        false
    } else if a[0] != b[0] {
        a[0] < b[0]
    } else {
        bytes_le(a.skip(1), b.skip(1))
    }
}

/// Whether two string slices hold the same characters.
pub fn str_eq(a: &str, b: &str) -> (r: bool)
    ensures
        r == (a@ == b@),
{
    let x = a.as_bytes();
    let y = b.as_bytes();
    proof {
        vstd::utf8::encode_utf8_decode_utf8(a@);
        vstd::utf8::encode_utf8_decode_utf8(b@);
    }
    if x.len() != y.len() {
        return false;
    }
    let mut i: usize = 0;
    while i < x.len()
        invariant
            x.len() == y.len(),
            x@ == a.spec_bytes(),
            y@ == b.spec_bytes(),
            i <= x.len(),
            forall|k: int| 0 <= k < i ==> x@[k] == y@[k],
        decreases x.len() - i,
    {
        if x[i] != y[i] {
            return false;
        }
        i += 1;
    }
    assert(x@ =~= y@);
    true
}

/// How one sequence stands to another in an order.
#[derive(Clone, Copy, Debug, PartialEq, Eq, Structural)]
pub enum Rank {
    Before,
    Level,
    After,
}

/// How `a` stands to `b` in the order `bytes_le`.
pub open spec fn bytes_rank(a: Seq<u8>, b: Seq<u8>) -> Rank {
    if !bytes_le(b, a) {
        Rank::Before
    } else if !bytes_le(a, b) {
        Rank::After
    } else {
        Rank::Level
    }
}

/// The standard library's name for a rank.
pub open spec fn ordering_of(rank: Rank) -> Ordering {
    match rank {
        Rank::Before => Ordering::Less,
        Rank::Level => Ordering::Equal,
        Rank::After => Ordering::Greater,
    }
}

/// The standard library's name for `rank`.
pub fn to_ordering(rank: Rank) -> (r: Ordering)
    ensures
        r == ordering_of(rank),
{
    match rank {
        Rank::Before => Ordering::Less,
        Rank::Level => Ordering::Equal,
        Rank::After => Ordering::Greater,
    }
}

/// `bytes_le` compares any two sequences one way or the other.
pub proof fn lemma_bytes_le_total(a: Seq<u8>, b: Seq<u8>)
    ensures
        bytes_le(a, b) || bytes_le(b, a),
    decreases a.len(),
{
    if a.len() > 0 && b.len() > 0 && a[0] == b[0] {
        lemma_bytes_le_total(a.skip(1), b.skip(1));
    }
}

/// `bytes_le` is transitive.
pub proof fn lemma_bytes_le_transitive(a: Seq<u8>, b: Seq<u8>, c: Seq<u8>)
    requires
        bytes_le(a, b),
        bytes_le(b, c),
    ensures
        bytes_le(a, c),
    decreases a.len(),
{
    if a.len() > 0 && b.len() > 0 && c.len() > 0 && a[0] == b[0] && b[0] == c[0] {
        lemma_bytes_le_transitive(a.skip(1), b.skip(1), c.skip(1));
    }
}

/// Compares two byte strings lexicographically.
pub fn rank_bytes(a: &[u8], b: &[u8]) -> (r: Rank)
    ensures
        r == bytes_rank(a@, b@),
{
    let mut i: usize = 0;
    assert(a@.skip(0) =~= a@ && b@.skip(0) =~= b@);
    while i < a.len() && i < b.len()
        invariant
            i <= a.len(),
            i <= b.len(),
            bytes_le(a@, b@) == bytes_le(a@.skip(i as int), b@.skip(i as int)),
            bytes_le(b@, a@) == bytes_le(b@.skip(i as int), a@.skip(i as int)),
        decreases a.len() - i,
    {
        let ghost x = a@.skip(i as int);
        let ghost y = b@.skip(i as int);
        assert(x[0] == a@[i as int] && y[0] == b@[i as int]);
        assert(x.skip(1) =~= a@.skip(i + 1));
        assert(y.skip(1) =~= b@.skip(i + 1));
        if a[i] < b[i] {
            return Rank::Before;
        }
        if a[i] > b[i] {
            return Rank::After;
        }
        i += 1;
    }
    let ghost x = a@.skip(i as int);
    let ghost y = b@.skip(i as int);
    if i < b.len() {
        assert(x.len() == 0 && y.len() > 0);
        Rank::Before
    } else if i < a.len() {
        assert(y.len() == 0 && x.len() > 0);
        Rank::After
    } else {
        assert(x.len() == 0 && y.len() == 0);
        Rank::Level
    }
}

/// What `str::to_lowercase` gives for the characters `s`.
pub uninterp spec fn lowercase(s: Seq<char>) -> Seq<char>;

/// The lower-case form of `s`, by `str::to_lowercase` of the standard
/// library: the contract only names what that function returns.
#[verifier::external_body]
fn to_lowercase(s: &str) -> (r: String)
    ensures
        r@ == lowercase(s@),
{
    s.to_lowercase()
}

/// The key by which a name is ordered without regard to case: the UTF-8
/// bytes of its lower-case form.
pub open spec fn folded(name: Seq<char>) -> Seq<u8> {
    vstd::utf8::encode_utf8(lowercase(name))
}

/// How the name `a` stands to the name `b`, case ignored.
pub open spec fn name_rank(a: Seq<char>, b: Seq<char>) -> Rank {
    bytes_rank(folded(a), folded(b))
}

/// How the name `a` stands to the name `b`, case regarded.
pub open spec fn exact_rank(a: Seq<char>, b: Seq<char>) -> Rank {
    bytes_rank(vstd::utf8::encode_utf8(a), vstd::utf8::encode_utf8(b))
}

/// Compares two names without regard to case.
pub fn rank_names(a: &str, b: &str) -> (r: Rank)
    ensures
        r == name_rank(a@, b@),
{
    let x = to_lowercase(a);
    let y = to_lowercase(b);
    rank_bytes(x.as_str().as_bytes(), y.as_str().as_bytes())
}

/// Whether the name `a` may stand before the name `b`, case ignored.
pub open spec fn name_le(a: Seq<char>, b: Seq<char>) -> bool {
    bytes_le(folded(a), folded(b))
}

/// Whether the name `a` may stand before the name `b`, case ignored.
pub fn name_precedes(a: &str, b: &str) -> (r: bool)
    ensures
        r == name_le(a@, b@),
{
    proof {
        lemma_bytes_le_total(folded(a@), folded(b@));
    }
    match rank_names(a, b) {
        Rank::After => false,
        _ => true,
    }
}

/// Compares two names as they are written.
pub fn rank_exact(a: &str, b: &str) -> (r: Rank)
    ensures
        r == exact_rank(a@, b@),
{
    rank_bytes(a.as_bytes(), b.as_bytes())
}

} // verus!
