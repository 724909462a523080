use vstd::prelude::*;

verus! {

/// Lexicographic comparison of keys by character code: -1, 0 or 1.
pub open spec fn key_cmp(a: Seq<char>, b: Seq<char>) -> int
    decreases a.len(),
{
    if a.len() == 0 {
        if b.len() == 0 {
            0
        } else {
            -1
        }
    } else if b.len() == 0 {
        1
    } else if a[0] == b[0] {
        key_cmp(a.drop_first(), b.drop_first())
    } else if (a[0] as int) < (b[0] as int) {
        -1
    } else {
        1
    }
}

pub open spec fn key_less(a: Seq<char>, b: Seq<char>) -> bool {
    key_cmp(a, b) < 0
}

/// Keys compare equal exactly when they are equal.
pub proof fn lemma_key_cmp_zero(a: Seq<char>, b: Seq<char>)
    ensures
        key_cmp(a, b) == 0 <==> a == b,
    decreases a.len(),
{
    if a.len() > 0 && b.len() > 0 && a[0] == b[0] {
        lemma_key_cmp_zero(a.drop_first(), b.drop_first());
        if a.drop_first() == b.drop_first() {
            assert(a =~= seq![a[0]] + a.drop_first());
            assert(b =~= seq![b[0]] + b.drop_first());
        }
    }
    if a.len() > 0 && b.len() > 0 && a == b {
        assert(a[0] == b[0]);
    }
    if a.len() == 0 && b.len() == 0 {
        assert(a =~= b);
    }
}

/// Swapping the operands negates the comparison.
pub proof fn lemma_key_cmp_antisym(a: Seq<char>, b: Seq<char>)
    ensures
        key_cmp(b, a) == -key_cmp(a, b),
    decreases a.len(),
{
    if a.len() > 0 && b.len() > 0 {
        if a[0] == b[0] {
            lemma_key_cmp_antisym(a.drop_first(), b.drop_first());
        } else {
            assert((a[0] as int) != (b[0] as int));
        }
    }
}

/// The order is transitive.
pub proof fn lemma_key_less_trans(a: Seq<char>, b: Seq<char>, c: Seq<char>)
    requires
        key_less(a, b),
        key_less(b, c),
    ensures
        key_less(a, c),
    decreases a.len(),
{
    if a.len() > 0 && b.len() > 0 && c.len() > 0 {
        if a[0] == b[0] && b[0] == c[0] {
            lemma_key_less_trans(a.drop_first(), b.drop_first(), c.drop_first());
        } else {
            assert((a[0] as int) != (b[0] as int) || a[0] == b[0]);
            assert((b[0] as int) != (c[0] as int) || b[0] == c[0]);
            assert((a[0] as int) != (c[0] as int) || a[0] == c[0]);
        }
    }
}

/// Compares two keys.
pub fn compare_keys(a: &str, b: &str) -> (r: i8)
    ensures
        r as int == key_cmp(a@, b@),
{
    let la = a.unicode_len();
    let lb = b.unicode_len();
    let mut i: usize = 0;
    assert(a@.subrange(0, la as int) =~= a@);
    assert(b@.subrange(0, lb as int) =~= b@);
    while i < la && i < lb && a.get_char(i) == b.get_char(i)
        invariant
            la == a@.len(),
            lb == b@.len(),
            i <= la,
            i <= lb,
            key_cmp(a@, b@) == key_cmp(a@.subrange(i as int, la as int), b@.subrange(i as int, lb as int)),
        decreases la - i,
    {
        assert(a@.subrange(i as int, la as int).drop_first() =~= a@.subrange(i + 1, la as int));
        assert(b@.subrange(i as int, lb as int).drop_first() =~= b@.subrange(i + 1, lb as int));
        i += 1;
    }
    if i == la {
        if i == lb {
            0
        } else {
            -1
        }
    } else if i == lb {
        1
    } else if (a.get_char(i) as u32) < (b.get_char(i) as u32) {
        -1
    } else {
        1
    }
}

} // verus!
