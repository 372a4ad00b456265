//! The order of strings: lexicographic by the bytes of their UTF-8 encoding.
use vstd::prelude::*;
use vstd::string::*;
use vstd::utf8::*;

verus! {

/// Lexicographic order of byte sequences.
pub open spec fn bytes_before(a: Seq<u8>, b: Seq<u8>) -> bool
    decreases a.len(),
{
    if b.len() == 0 {
        false
    } else if a.len() == 0 {
        true
    } else if a[0] != b[0] {
        a[0] < b[0]
    } else {
        bytes_before(a.skip(1), b.skip(1))
    }
}

/// Whether the text `a` sorts strictly before the text `b`.
pub open spec fn before(a: Seq<char>, b: Seq<char>) -> bool {
    bytes_before(encode_utf8(a), encode_utf8(b))
}

/// Whether the pair `a` sorts strictly before the pair `b`, first component first.
pub open spec fn pair_before(a: (Seq<char>, Seq<char>), b: (Seq<char>, Seq<char>)) -> bool {
    before(a.0, b.0) || (a.0 == b.0 && before(a.1, b.1))
}

/// No byte sequence sorts before itself, and never do two sort before each other.
pub proof fn lemma_bytes_asymmetric(a: Seq<u8>, b: Seq<u8>)
    ensures
        !(bytes_before(a, b) && bytes_before(b, a)),
        !bytes_before(a, a),
    decreases a.len(),
{
    if a.len() > 0 {
        if b.len() > 0 {
            lemma_bytes_asymmetric(a.skip(1), b.skip(1));
        }
        lemma_bytes_asymmetric(a.skip(1), a.skip(1));
    }
}

pub proof fn lemma_bytes_transitive(a: Seq<u8>, b: Seq<u8>, c: Seq<u8>)
    requires
        bytes_before(a, b),
        bytes_before(b, c),
    ensures
        bytes_before(a, c),
    decreases a.len(),
{
    if a.len() > 0 && a[0] == b[0] && b[0] == c[0] {
        lemma_bytes_transitive(a.skip(1), b.skip(1), c.skip(1));
    }
}

pub proof fn lemma_bytes_total(a: Seq<u8>, b: Seq<u8>)
    ensures
        bytes_before(a, b) || bytes_before(b, a) || a == b,
    decreases a.len(),
{
    if a.len() > 0 && b.len() > 0 && a[0] == b[0] {
        lemma_bytes_total(a.skip(1), b.skip(1));
        if a.skip(1) == b.skip(1) {
            assert(a =~= seq![a[0]] + a.skip(1));
            assert(b =~= seq![b[0]] + b.skip(1));
        }
    } else if a.len() == 0 && b.len() == 0 {
        assert(a =~= b);
    }
}

/// The order of texts is total: one sorts before the other unless they are equal.
pub proof fn lemma_total(a: Seq<char>, b: Seq<char>)
    ensures
        before(a, b) || before(b, a) || a == b,
{
    lemma_bytes_total(encode_utf8(a), encode_utf8(b));
    encode_utf8_decode_utf8(a);
    encode_utf8_decode_utf8(b);
}

/// The order of texts is asymmetric and irreflexive.
pub proof fn lemma_asymmetric(a: Seq<char>, b: Seq<char>)
    ensures
        !(before(a, b) && before(b, a)),
        !before(a, a),
{
    lemma_bytes_asymmetric(encode_utf8(a), encode_utf8(b));
}

/// The order of texts is transitive.
pub proof fn lemma_transitive(a: Seq<char>, b: Seq<char>, c: Seq<char>)
    requires
        before(a, b),
        before(b, c),
    ensures
        before(a, c),
{
    lemma_bytes_transitive(encode_utf8(a), encode_utf8(b), encode_utf8(c));
}

/// Where one text stands relative to another.
#[derive(Clone, Copy, Debug, PartialEq, Eq, Structural)]
pub enum Rank {
    /// It sorts strictly before.
    Before,
    /// The texts are equal.
    Same,
    /// It sorts strictly after.
    After,
}

/// Ranks `a` relative to `b`.
pub fn rank(a: &str, b: &str) -> (r: Rank)
    ensures
        r == Rank::Before <==> before(a@, b@),
        r == Rank::Same <==> a@ == b@,
        r == Rank::After <==> before(b@, a@),
{
    let x = a.as_bytes();
    let y = b.as_bytes();
    proof {
        lemma_total(a@, b@);
        lemma_asymmetric(a@, b@);
        lemma_asymmetric(b@, a@);
        assert(x@.skip(0) =~= x@);
        assert(y@.skip(0) =~= y@);
    }
    let mut i: usize = 0;
    while i < x.len() && i < y.len()
        invariant
            x@ == encode_utf8(a@),
            y@ == encode_utf8(b@),
            i <= x.len(),
            i <= y.len(),
            before(a@, b@) == bytes_before(x@.skip(i as int), y@.skip(i as int)),
            before(b@, a@) == bytes_before(y@.skip(i as int), x@.skip(i as int)),
            before(a@, b@) || before(b@, a@) || a@ == b@,
            !(before(a@, b@) && before(b@, a@)),
            a@ == b@ ==> !before(a@, b@),
        decreases x.len() - i,
    {
        if x[i] < y[i] {
            return Rank::Before;
        }
        if x[i] > y[i] {
            return Rank::After;
        }
        proof {
            assert(x@.skip(i as int).skip(1) =~= x@.skip(i as int + 1));
            assert(y@.skip(i as int).skip(1) =~= y@.skip(i as int + 1));
        }
        i += 1;
    }
    if i < y.len() {
        Rank::Before
    } else if i < x.len() {
        Rank::After
    } else {
        Rank::Same
    }
}

/// Texts are in the order of their bytes: the first byte in which two differ
/// decides, and a text comes before every longer one that begins with it.
pub proof fn law_first_difference_decides(
    common: Seq<u8>,
    x: u8,
    y: u8,
    left: Seq<u8>,
    right: Seq<u8>,
)
    ensures
        x < y ==> bytes_before(common + seq![x] + left, common + seq![y] + right),
        x > y ==> !bytes_before(common + seq![x] + left, common + seq![y] + right),
        bytes_before(common, common + seq![y] + right),
        !bytes_before(common + seq![x] + left, common),
    decreases common.len(),
{
    let a = common + seq![x] + left;
    let b = common + seq![y] + right;
    if common.len() == 0 {
        assert(a[0] == x && b[0] == y);
    } else {
        assert(a[0] == common[0] && b[0] == common[0]);
        law_first_difference_decides(common.skip(1), x, y, left, right);
        assert(a.skip(1) =~= common.skip(1) + seq![x] + left);
        assert(b.skip(1) =~= common.skip(1) + seq![y] + right);
    }
}

/// Pairs are in the order of their first parts, and where these agree in the
/// order of the second.
pub proof fn law_pairs_by_first(
    a: (Seq<char>, Seq<char>),
    b: (Seq<char>, Seq<char>),
)
    ensures
        before(a.0, b.0) ==> pair_before(a, b) && !pair_before(b, a),
        a.0 == b.0 ==> pair_before(a, b) == before(a.1, b.1),
{
    lemma_asymmetric(a.0, b.0);
}

} // verus!
