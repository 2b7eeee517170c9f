use vstd::prelude::*;

verus! {

/// Lexicographic order on character sequences, by code point.  This is the
/// order of `String`'s `Ord`: UTF-8 bytes compare in code point order.
pub open spec fn lex_lt(a: Seq<char>, b: Seq<char>) -> bool
    decreases a.len(),
{
    if a.len() == 0 {
        b.len() > 0
    } else if b.len() == 0 {
        false
    } else if (a[0] as int) < (b[0] as int) {
        true
    } else if a[0] == b[0] {
        lex_lt(a.drop_first(), b.drop_first())
    } else {
        false
    }
}

/// Each element is strictly smaller than every later one.
pub open spec fn strictly_sorted(q: Seq<Seq<char>>) -> bool {
    forall|i: int, k: int| 0 <= i < k < q.len() ==> lex_lt(#[trigger] q[i], #[trigger] q[k])
}

/// The character sequences of a sequence of strings.
pub open spec fn views_of(v: Seq<String>) -> Seq<Seq<char>> {
    v.map_values(|x: String| x@)
}

pub proof fn lemma_lex_irreflexive(a: Seq<char>)
    ensures
        !lex_lt(a, a),
    decreases a.len(),
{
    if a.len() > 0 {
        lemma_lex_irreflexive(a.drop_first());
    }
}

pub proof fn lemma_lex_transitive(a: Seq<char>, b: Seq<char>, c: Seq<char>)
    requires
        lex_lt(a, b),
        lex_lt(b, c),
    ensures
        lex_lt(a, c),
    decreases a.len(),
{
    if a.len() > 0 && b.len() > 0 && c.len() > 0 && a[0] == b[0] && b[0] == c[0] {
        lemma_lex_transitive(a.drop_first(), b.drop_first(), c.drop_first());
    }
}

/// Strictly sorted sequences hold no element twice.
pub proof fn lemma_sorted_distinct(q: Seq<Seq<char>>, i: int, k: int)
    requires
        strictly_sorted(q),
        0 <= i < q.len(),
        0 <= k < q.len(),
        q[i] == q[k],
    ensures
        i == k,
{
    if i < k {
        assert(lex_lt(q[i], q[k]));
        lemma_lex_irreflexive(q[i]);
    } else if k < i {
        assert(lex_lt(q[k], q[i]));
        lemma_lex_irreflexive(q[i]);
    }
}

/// Two strictly sorted sequences that hold the same elements are equal.
pub proof fn lemma_sorted_unique(q1: Seq<Seq<char>>, q2: Seq<Seq<char>>)
    requires
        strictly_sorted(q1),
        strictly_sorted(q2),
        forall|x: Seq<char>| q1.contains(x) <==> q2.contains(x),
    ensures
        q1 == q2,
    decreases q1.len(),
{
    if q1.len() == 0 {
        if q2.len() > 0 {
            assert(q2.contains(q2[0]));
        }
        assert(q1 =~= q2);
    } else {
        if q2.len() == 0 {
            assert(q1.contains(q1[0]));
        }
        let a = q1[0];
        let b = q2[0];
        assert(q1.contains(a));
        assert(q2.contains(b));
        if a != b {
            let j = choose|j: int| 0 <= j < q2.len() && q2[j] == a;
            let m = choose|m: int| 0 <= m < q1.len() && q1[m] == b;
            assert(j != 0 && m != 0);
            assert(lex_lt(q2[0], q2[j]));
            assert(lex_lt(q1[0], q1[m]));
            lemma_lex_transitive(a, b, a);
            lemma_lex_irreflexive(a);
        }
        let r1 = q1.drop_first();
        let r2 = q2.drop_first();
        assert(strictly_sorted(r1)) by {
            assert forall|i: int, k: int| 0 <= i < k < r1.len() implies lex_lt(
                #[trigger] r1[i],
                #[trigger] r1[k],
            ) by {
                assert(r1[i] == q1[i + 1] && r1[k] == q1[k + 1]);
            }
        }
        assert(strictly_sorted(r2)) by {
            assert forall|i: int, k: int| 0 <= i < k < r2.len() implies lex_lt(
                #[trigger] r2[i],
                #[trigger] r2[k],
            ) by {
                assert(r2[i] == q2[i + 1] && r2[k] == q2[k + 1]);
            }
        }
        assert forall|x: Seq<char>| r1.contains(x) <==> r2.contains(x) by {
            lemma_rest_contains(q1, x);
            lemma_rest_contains(q2, x);
        }
        lemma_sorted_unique(r1, r2);
        assert(q1 =~= seq![a] + r1);
        assert(q2 =~= seq![b] + r2);
    }
}

/// What the tail of a strictly sorted sequence holds: the rest of it.
proof fn lemma_rest_contains(q: Seq<Seq<char>>, x: Seq<char>)
    requires
        strictly_sorted(q),
        q.len() > 0,
    ensures
        q.drop_first().contains(x) <==> (q.contains(x) && x != q[0]),
{
    let r = q.drop_first();
    if r.contains(x) {
        let k = choose|k: int| 0 <= k < r.len() && r[k] == x;
        assert(q[k + 1] == x);
        assert(lex_lt(q[0], q[k + 1]));
        lemma_lex_irreflexive(x);
    }
    if q.contains(x) && x != q[0] {
        let k = choose|k: int| 0 <= k < q.len() && q[k] == x;
        assert(k != 0);
        assert(r[k - 1] == x);
    }
}

/// Compares two strings: negative, zero or positive as `a` is before, equal
/// to, or after `b` in lexicographic order.
pub fn compare_tokens(a: &str, b: &str) -> (r: i8)
    ensures
        (r < 0) == lex_lt(a@, b@),
        (r == 0) == (a@ == b@),
        (r > 0) == lex_lt(b@, a@),
{
    let la = a.unicode_len();
    let lb = b.unicode_len();
    let mut i: usize = 0;
    assert(a@.skip(0) =~= a@);
    assert(b@.skip(0) =~= b@);
    while i < la && i < lb
        invariant
            la == a@.len(),
            lb == b@.len(),
            i <= la,
            i <= lb,
            a@.take(i as int) == b@.take(i as int),
            lex_lt(a@, b@) == lex_lt(a@.skip(i as int), b@.skip(i as int)),
            lex_lt(b@, a@) == lex_lt(b@.skip(i as int), a@.skip(i as int)),
        decreases la - i,
    {
        let ca = a.get_char(i);
        let cb = b.get_char(i);
        let ghost sa = a@.skip(i as int);
        let ghost sb = b@.skip(i as int);
        assert(sa[0] == ca && sb[0] == cb);
        if (ca as u32) < (cb as u32) {
            assert(lex_lt(sa, sb));
            assert(!lex_lt(sb, sa));
            assert(a@ != b@) by {
                assert(a@[i as int] == ca && b@[i as int] == cb);
            }
            return -1;
        }
        if (cb as u32) < (ca as u32) {
            assert(a@ != b@) by {
                assert(a@[i as int] == ca && b@[i as int] == cb);
            }
            return 1;
        }
        assert(ca == cb);
        assert(sa.drop_first() =~= a@.skip(i + 1));
        assert(sb.drop_first() =~= b@.skip(i + 1));
        assert(a@.take(i + 1) =~= a@.take(i as int).push(ca));
        assert(b@.take(i + 1) =~= b@.take(i as int).push(cb));
        i = i + 1;
    }
    if i == la && i == lb {
        assert(a@ =~= a@.take(i as int));
        assert(b@ =~= b@.take(i as int));
        proof {
            lemma_lex_irreflexive(a@);
        }
        0
    } else if i == la {
        assert(a@.skip(i as int).len() == 0);
        assert(b@.skip(i as int).len() > 0);
        assert(a@ != b@);
        -1
    } else {
        assert(b@.skip(i as int).len() == 0);
        assert(a@.skip(i as int).len() > 0);
        assert(a@ != b@);
        1
    }
}

} // verus!
