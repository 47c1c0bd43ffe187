use vstd::prelude::*;
use vstd::string::*;

verus! {

/// Lexicographic order on character sequences, each character compared by
/// its code point. This is the order of `String`'s `Ord`: UTF-8 keeps the
/// order of code points, so comparing the bytes and comparing the characters
/// agree.
pub open spec fn chars_le(a: Seq<char>, b: Seq<char>) -> bool
    decreases a.len(),
{
    if a.len() == 0 {
        true
    } else if b.len() == 0 {
        false
    } else if a[0] == b[0] {
        chars_le(a.drop_first(), b.drop_first())
    } else {
        (a[0] as int) < (b[0] as int)
    }
}

/// Every sequence is ordered before or equal to itself.
pub proof fn lemma_chars_le_reflexive(a: Seq<char>)
    ensures
        chars_le(a, a),
    decreases a.len(),
{
    if a.len() > 0 {
        lemma_chars_le_reflexive(a.drop_first());
    }
}

/// Any two sequences are ordered one way or the other.
pub proof fn lemma_chars_le_total(a: Seq<char>, b: Seq<char>)
    ensures
        chars_le(a, b) || chars_le(b, a),
    decreases a.len(),
{
    if a.len() > 0 && b.len() > 0 && a[0] == b[0] {
        lemma_chars_le_total(a.drop_first(), b.drop_first());
    }
    if a.len() > 0 && b.len() > 0 && a[0] != b[0] {
        assert((a[0] as int) != (b[0] as int));
    }
}

/// Two sequences ordered both ways are equal.
pub proof fn lemma_chars_le_antisymmetric(a: Seq<char>, b: Seq<char>)
    requires
        chars_le(a, b),
        chars_le(b, a),
    ensures
        a == b,
    decreases a.len(),
{
    if a.len() == 0 {
        assert(b.len() == 0);
        assert(a =~= b);
    } else {
        assert(b.len() > 0);
        if a[0] == b[0] {
            lemma_chars_le_antisymmetric(a.drop_first(), b.drop_first());
            assert(a =~= seq![a[0]] + a.drop_first());
            assert(b =~= seq![b[0]] + b.drop_first());
        } else {
            assert((a[0] as int) != (b[0] as int));
        }
    }
}

/// The order is transitive.
pub proof fn lemma_chars_le_transitive(a: Seq<char>, b: Seq<char>, c: Seq<char>)
    requires
        chars_le(a, b),
        chars_le(b, c),
    ensures
        chars_le(a, c),
    decreases a.len(),
{
    if a.len() > 0 {
        assert(b.len() > 0);
        assert(c.len() > 0);
        if a[0] == b[0] && b[0] == c[0] {
            lemma_chars_le_transitive(a.drop_first(), b.drop_first(), c.drop_first());
        } else {
            assert((a[0] as int) <= (b[0] as int));
            assert((b[0] as int) <= (c[0] as int));
            if a[0] == c[0] {
                assert((a[0] as int) == (c[0] as int));
                assert(a[0] == b[0]);
            }
        }
    }
}

/// Two sequences that agree up to a position where they differ are ordered
/// as the characters at that position are, whatever their lengths.
pub proof fn lemma_chars_le_first_difference(a: Seq<char>, b: Seq<char>, i: int)
    requires
        0 <= i < a.len(),
        i < b.len(),
        forall|j: int| 0 <= j < i ==> a[j] == b[j],
        a[i] != b[i],
    ensures
        chars_le(a, b) == ((a[i] as int) < (b[i] as int)),
    decreases i,
{
    if i > 0 {
        assert(a[0] == b[0]);
        let a1 = a.drop_first();
        let b1 = b.drop_first();
        assert forall|j: int| 0 <= j < i - 1 implies a1[j] == b1[j] by {
            assert(a[j + 1] == b[j + 1]);
        }
        lemma_chars_le_first_difference(a1, b1, i - 1);
    }
}

/// A sequence comes before every sequence it is a prefix of.
pub proof fn lemma_chars_le_prefix(a: Seq<char>, b: Seq<char>)
    requires
        a.len() <= b.len(),
        forall|j: int| 0 <= j < a.len() ==> a[j] == b[j],
    ensures
        chars_le(a, b),
    decreases a.len(),
{
    if a.len() > 0 {
        let a1 = a.drop_first();
        let b1 = b.drop_first();
        assert(a[0] == b[0]);
        assert forall|j: int| 0 <= j < a1.len() implies a1[j] == b1[j] by {
            assert(a[j + 1] == b[j + 1]);
        }
        lemma_chars_le_prefix(a1, b1);
    }
}

/// A sequence comes strictly after each of its proper prefixes.
pub proof fn lemma_chars_le_not_before_proper_prefix(a: Seq<char>, b: Seq<char>)
    requires
        b.len() < a.len(),
        forall|j: int| 0 <= j < b.len() ==> a[j] == b[j],
    ensures
        !chars_le(a, b),
    decreases b.len(),
{
    if b.len() > 0 {
        let a1 = a.drop_first();
        let b1 = b.drop_first();
        assert(a[0] == b[0]);
        assert forall|j: int| 0 <= j < b1.len() implies a1[j] == b1[j] by {
            assert(a[j + 1] == b[j + 1]);
        }
        lemma_chars_le_not_before_proper_prefix(a1, b1);
    }
}

/// Comparing from position `i` on, when the characters at `i` agree, is the
/// same as comparing from position `i + 1` on.
proof fn lemma_chars_le_step(a: Seq<char>, b: Seq<char>, i: int)
    requires
        0 <= i < a.len(),
        i < b.len(),
        a[i] == b[i],
    ensures
        chars_le(a.skip(i), b.skip(i)) == chars_le(a.skip(i + 1), b.skip(i + 1)),
{
    assert(a.skip(i).drop_first() =~= a.skip(i + 1));
    assert(b.skip(i).drop_first() =~= b.skip(i + 1));
}

/// Whether `a` comes before `b`, or equals it, in `String`'s order.
pub fn name_le(a: &String, b: &String) -> (r: bool)
    ensures
        r == chars_le(a@, b@),
        forall|i: int|
            0 <= i < a@.len() && i < b@.len() && #[trigger] a@[i] != #[trigger] b@[i] && (forall|
                j: int,
            | 0 <= j < i ==> a@[j] == b@[j]) ==> r == ((a@[i] as int) < (b@[i] as int)),
        a@.len() <= b@.len() && (forall|j: int| 0 <= j < a@.len() ==> a@[j] == b@[j]) ==> r,
        b@.len() < a@.len() && (forall|j: int| 0 <= j < b@.len() ==> a@[j] == b@[j]) ==> !r,
{
    let r = compare_names(a, b);
    proof {
        assert forall|i: int|
            0 <= i < a@.len() && i < b@.len() && #[trigger] a@[i] != #[trigger] b@[i] && (forall|
                j: int,
            | 0 <= j < i ==> a@[j] == b@[j]) implies chars_le(a@, b@) == ((a@[i] as int) < (
            b@[i] as int)) by {
            lemma_chars_le_first_difference(a@, b@, i);
        }
        if a@.len() <= b@.len() && (forall|j: int| 0 <= j < a@.len() ==> a@[j] == b@[j]) {
            lemma_chars_le_prefix(a@, b@);
        }
        if b@.len() < a@.len() && (forall|j: int| 0 <= j < b@.len() ==> a@[j] == b@[j]) {
            lemma_chars_le_not_before_proper_prefix(a@, b@);
        }
    }

    r
}

/// Compares two names character by character.
fn compare_names(a: &String, b: &String) -> (r: bool)
    ensures
        r == chars_le(a@, b@),
{
    let sa = a.as_str();
    let sb = b.as_str();
    let la = sa.unicode_len();
    let lb = sb.unicode_len();
    let mut i: usize = 0;
    assert(a@.skip(0) =~= a@);
    assert(b@.skip(0) =~= b@);
    while i < la && i < lb
        invariant
            sa@ == a@,
            sb@ == b@,
            la == a@.len(),
            lb == b@.len(),
            i <= la,
            i <= lb,
            chars_le(a@, b@) == chars_le(a@.skip(i as int), b@.skip(i as int)),
        decreases la - i,
    {
        let ca = sa.get_char(i);
        let cb = sb.get_char(i);
        if ca != cb {
            assert(a@.skip(i as int)[0] == ca);
            assert(b@.skip(i as int)[0] == cb);
            return ca < cb;
        }
        proof {
            lemma_chars_le_step(a@, b@, i as int);
        }
        i = i + 1;
    }
    i == la
}

} // verus!
