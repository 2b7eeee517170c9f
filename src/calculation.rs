use vstd::prelude::*;

use crate::model::{EntryType, RecurringEntry, RecurringType};
use crate::tokens::{
    compare_tokens, lemma_lex_transitive, lex_lt, strictly_sorted, views_of,
};

verus! {

/// Largest amount of one entry, in cents.
pub open spec fn max_amount() -> int {
    4294967295
}

/// Whether a recurring entry is picked by the given filters; `None` picks
/// any kind, rate or category token.
pub open spec fn picks(
    e: RecurringEntry,
    kind: Option<EntryType>,
    rate: Option<RecurringType>,
    token: Option<Seq<char>>,
) -> bool {
    &&& (kind matches Some(k) ==> e.kind == k)
    &&& (rate matches Some(r) ==> e.rate_type == r)
    &&& (token matches Some(t) ==> e.category_token@ == t)
}

/// Sum in cents of the amounts of the recurring entries that `picks` selects.
pub open spec fn recurring_sum(
    s: Seq<RecurringEntry>,
    kind: Option<EntryType>,
    rate: Option<RecurringType>,
    token: Option<Seq<char>>,
) -> int
    decreases s.len(),
{
    if s.len() == 0 {
        0
    } else {
        recurring_sum(s.drop_last(), kind, rate, token) + if picks(s.last(), kind, rate, token) {
            s.last().amount as int
        } else {
            0
        }
    }
}

/// The kind of the first entry, in collection order, that carries `token`.
pub open spec fn first_kind(s: Seq<RecurringEntry>, token: Seq<char>) -> Option<EntryType>
    decreases s.len(),
{
    if s.len() == 0 {
        None
    } else {
        match first_kind(s.drop_last(), token) {
            Some(k) => Some(k),
            None => if s.last().category_token@ == token {
                Some(s.last().kind)
            } else {
                None
            },
        }
    }
}

/// A sum made negative when the category's first entry is an expense.
pub open spec fn signed_by_first(s: Seq<RecurringEntry>, token: Seq<char>, sum: int) -> int {
    if first_kind(s, token) == Some(EntryType::Expense) {
        -sum
    } else {
        sum
    }
}

/// The category tokens of the entries, in collection order.
pub open spec fn tokens_of(s: Seq<RecurringEntry>) -> Seq<Seq<char>> {
    s.map_values(|e: RecurringEntry| e.category_token@)
}

/// `q` lists each category token of `s` exactly once, in ascending order.
pub open spec fn sorted_token_set(q: Seq<Seq<char>>, s: Seq<RecurringEntry>) -> bool {
    &&& strictly_sorted(q)
    &&& forall|i: int| 0 <= i < q.len() ==> tokens_of(s).contains(#[trigger] q[i])
    &&& forall|j: int| 0 <= j < s.len() ==> q.contains(#[trigger] tokens_of(s)[j])
}

pub proof fn lemma_recurring_sum_bounds(
    s: Seq<RecurringEntry>,
    kind: Option<EntryType>,
    rate: Option<RecurringType>,
    token: Option<Seq<char>>,
)
    ensures
        0 <= recurring_sum(s, kind, rate, token) <= s.len() * max_amount(),
    decreases s.len(),
{
    if s.len() > 0 {
        lemma_recurring_sum_bounds(s.drop_last(), kind, rate, token);
    }
}

/// Any sum over a collection that fits in memory stays below 2^96 cents.
pub proof fn lemma_recurring_sum_small(
    s: Seq<RecurringEntry>,
    kind: Option<EntryType>,
    rate: Option<RecurringType>,
    token: Option<Seq<char>>,
)
    requires
        s.len() <= usize::MAX,
    ensures
        0 <= recurring_sum(s, kind, rate, token) < 0x1_0000_0000_0000_0000_0000_0000,
{
    lemma_recurring_sum_bounds(s, kind, rate, token);
    lemma_len_times_max(s.len() as int);
}

pub proof fn lemma_len_times_max(n: int)
    requires
        0 <= n <= usize::MAX,
    ensures
        n * max_amount() < 0x1_0000_0000_0000_0000_0000_0000,
{
    assert(usize::MAX <= 0xffff_ffff_ffff_ffff);
    assert(n * 4294967295 <= 0xffff_ffff_ffff_ffff * 4294967295) by (nonlinear_arith)
        requires
            0 <= n <= 0xffff_ffff_ffff_ffff,
    ;
}

/// Sums the amounts, in cents, of the entries that `picks` selects.
pub fn sum_recurring(
    items: &Vec<RecurringEntry>,
    kind: Option<EntryType>,
    rate: Option<RecurringType>,
    token: Option<&String>,
) -> (r: u128)
    ensures
        r == recurring_sum(
            items@,
            kind,
            rate,
            match token {
                Some(t) => Some(t@),
                None => None,
            },
        ),
{
    let ghost t = match token {
        Some(t) => Some(t@),
        None => None,
    };
    let mut acc: u128 = 0;
    let mut i: usize = 0;
    while i < items.len()
        invariant
            i <= items.len(),
            acc == recurring_sum(items@.take(i as int), kind, rate, t),
            t == match token {
                Some(t) => Some(t@),
                None => None,
            },
        decreases items.len() - i,
    {
        let e = &items[i];
        proof {
            assert(items@.take(i + 1).drop_last() =~= items@.take(i as int));
            lemma_recurring_sum_bounds(items@.take(i as int), kind, rate, t);
        }
        let kind_ok = match kind {
            Some(k) => e.kind == k,
            None => true,
        };
        let rate_ok = match rate {
            Some(r) => e.rate_type == r,
            None => true,
        };
        let token_ok = match token {
            Some(tok) => e.category_token == *tok,
            None => true,
        };
        assert(items@.take(i + 1).last() == *e);
        if kind_ok && rate_ok && token_ok {
            acc = acc + e.amount as u128;
        }
        i = i + 1;
    }
    assert(items@.take(i as int) =~= items@);
    acc
}

/// The kind of the first entry that carries `token`, if any does.
pub fn find_first_kind(items: &Vec<RecurringEntry>, token: &String) -> (r: Option<EntryType>)
    ensures
        r == first_kind(items@, token@),
{
    let mut i: usize = 0;
    while i < items.len()
        invariant
            i <= items.len(),
            first_kind(items@.take(i as int), token@) is None,
        decreases items.len() - i,
    {
        assert(items@.take(i + 1).drop_last() =~= items@.take(i as int));
        if items[i].category_token == *token {
            proof {
                lemma_first_kind_prefix(items@, token@, i + 1);
            }
            return Some(items[i].kind);
        }
        i = i + 1;
    }
    assert(items@.take(i as int) =~= items@);
    None
}

/// Once a prefix settles the first kind, the whole sequence agrees.
proof fn lemma_first_kind_prefix(s: Seq<RecurringEntry>, token: Seq<char>, n: int)
    requires
        0 <= n <= s.len(),
        first_kind(s.take(n), token) is Some,
    ensures
        first_kind(s, token) == first_kind(s.take(n), token),
    decreases s.len() - n,
{
    if n < s.len() {
        assert(s.take(n + 1).drop_last() =~= s.take(n));
        lemma_first_kind_prefix(s, token, n + 1);
    } else {
        assert(s.take(n) =~= s);
    }
}

/// The distinct category tokens of the entries, sorted ascending.
pub fn sorted_distinct_tokens(items: &Vec<RecurringEntry>) -> (r: Vec<String>)
    ensures
        sorted_token_set(views_of(r@), items@),
{
    let mut r: Vec<String> = Vec::new();
    let mut j: usize = 0;
    while j < items.len()
        invariant
            j <= items.len(),
            sorted_token_set(views_of(r@), items@.take(j as int)),
        decreases items.len() - j,
    {
        let t = &items[j].category_token;
        let mut p: usize = 0;
        let mut found = false;
        while p < r.len()
            invariant
                p <= r.len(),
                strictly_sorted(views_of(r@)),
                forall|i: int| 0 <= i < p ==> lex_lt(#[trigger] r@[i]@, t@),
                found ==> p < r.len() && r@[p as int]@ == t@,
            ensures
                p <= r.len(),
                forall|i: int| 0 <= i < p ==> lex_lt(#[trigger] r@[i]@, t@),
                found ==> p < r.len() && r@[p as int]@ == t@,
                !found ==> p == r.len() || lex_lt(t@, r@[p as int]@),
            decreases r.len() - p,
        {
            let c = compare_tokens(r[p].as_str(), t.as_str());
            if c == 0 {
                found = true;
                break;
            }
            if c > 0 {
                break;
            }
            p = p + 1;
        }
        let ghost old_r = views_of(r@);
        let ghost prev = items@.take(j as int);
        let ghost next = items@.take(j + 1);
        assert(tokens_of(next) =~= tokens_of(prev).push(t@));
        if !found {
            proof {
                assert forall|k: int| p <= k < r.len() implies lex_lt(t@, #[trigger] r@[k]@) by {
                    assert(old_r[p as int] == r@[p as int]@);
                    assert(old_r[k] == r@[k]@);
                    if k > p {
                        assert(lex_lt(old_r[p as int], old_r[k]));
                    }
                    if p < r.len() {
                        if k > p {
                            lemma_lex_transitive(t@, r@[p as int]@, r@[k]@);
                        }
                    }
                }
            }
            r.insert(p, t.clone());
            proof {
                let q = views_of(r@);
                assert(q =~= old_r.insert(p as int, t@));
                assert forall|a: int, b: int| 0 <= a < b < q.len() implies lex_lt(
                    #[trigger] q[a],
                    #[trigger] q[b],
                ) by {
                    if b < p {
                        assert(old_r[a] == q[a] && old_r[b] == q[b]);
                    } else if b == p {
                        assert(q[a] == r@[a]@);
                    } else if a == p {
                        assert(q[b] == r@[b]@);
                    } else if a < p {
                        assert(old_r[a] == q[a] && old_r[b - 1] == q[b]);
                    } else {
                        assert(old_r[a - 1] == q[a] && old_r[b - 1] == q[b]);
                    }
                }
                assert forall|i: int| 0 <= i < q.len() implies tokens_of(next).contains(
                    #[trigger] q[i],
                ) by {
                    if i == p {
                        assert(tokens_of(next)[j as int] == t@);
                    } else if i < p {
                        assert(q[i] == old_r[i]);
                        let w = choose|w: int| 0 <= w < prev.len() && tokens_of(prev)[w] == old_r[i];
                        assert(tokens_of(next)[w] == old_r[i]);
                    } else {
                        assert(q[i] == old_r[i - 1]);
                        let w = choose|w: int|
                            0 <= w < prev.len() && tokens_of(prev)[w] == old_r[i - 1];
                        assert(tokens_of(next)[w] == old_r[i - 1]);
                    }
                }
                assert forall|w: int| 0 <= w < next.len() implies q.contains(
                    #[trigger] tokens_of(next)[w],
                ) by {
                    if w == j {
                        assert(q[p as int] == t@);
                    } else {
                        assert(tokens_of(next)[w] == tokens_of(prev)[w]);
                        assert(old_r.contains(tokens_of(prev)[w]));
                        let i = choose|i: int| 0 <= i < old_r.len() && old_r[i] == tokens_of(prev)[w];
                        if i < p {
                            assert(q[i] == old_r[i]);
                        } else {
                            assert(q[i + 1] == old_r[i]);
                        }
                    }
                }
            }
        } else {
            proof {
                let q = views_of(r@);
                assert(q == old_r);
                assert forall|i: int| 0 <= i < q.len() implies tokens_of(next).contains(
                    #[trigger] q[i],
                ) by {
                    let w = choose|w: int| 0 <= w < prev.len() && tokens_of(prev)[w] == q[i];
                    assert(tokens_of(next)[w] == q[i]);
                }
                assert forall|w: int| 0 <= w < next.len() implies q.contains(
                    #[trigger] tokens_of(next)[w],
                ) by {
                    if w == j {
                        assert(q[p as int] == t@);
                    } else {
                        assert(tokens_of(next)[w] == tokens_of(prev)[w]);
                    }
                }
            }
        }
        j = j + 1;
    }
    assert(items@.take(j as int) =~= items@);
    r
}

/// One row of the per-category totals: a category token and the signed sum
/// in cents of its recurring entries.
#[derive(Clone, Debug)]
pub struct CalcResult {
    pub name: String,
    pub amount: i128,
}

/// The names of a list of rows.
pub open spec fn calc_names(rows: Seq<CalcResult>) -> Seq<Seq<char>> {
    rows.map_values(|c: CalcResult| c.name@)
}

/// For each distinct category token, in ascending order, the sum in cents of
/// the amounts of the entries that carry it, negated when the first of them
/// is an expense.
pub fn calculate_total(items: &Vec<RecurringEntry>) -> (r: Vec<CalcResult>)
    ensures
        sorted_token_set(calc_names(r@), items@),
        forall|i: int|
            0 <= i < r.len() ==> (#[trigger] r@[i]).amount == signed_by_first(
                items@,
                r@[i].name@,
                recurring_sum(items@, None, None, Some(r@[i].name@)),
            ),
{
    let categories = sorted_distinct_tokens(items);
    let mut result: Vec<CalcResult> = Vec::new();
    let mut i: usize = 0;
    while i < categories.len()
        invariant
            i <= categories.len(),
            sorted_token_set(views_of(categories@), items@),
            calc_names(result@) == views_of(categories@).take(i as int),
            forall|k: int|
                0 <= k < result.len() ==> (#[trigger] result@[k]).amount == signed_by_first(
                    items@,
                    result@[k].name@,
                    recurring_sum(items@, None, None, Some(result@[k].name@)),
                ),
        decreases categories.len() - i,
    {
        let cat = categories[i].clone();
        let sum = sum_recurring(items, None, None, Some(&cat));
        assert(items@.len() == items.len());
        proof {
            lemma_recurring_sum_small(items@, None, None, Some(cat@));
        }
        let mut amount = sum as i128;
        if find_first_kind(items, &cat) == Some(EntryType::Expense) {
            amount = -amount;
        }
        let ghost before = result@;
        assert(cat@ == categories@[i as int]@);
        result.push(CalcResult { name: cat, amount });
        assert(calc_names(result@) =~= calc_names(before).push(categories@[i as int]@));
        assert(views_of(categories@).take(i + 1) =~= views_of(categories@).take(i as int).push(
            categories@[i as int]@,
        ));
        i = i + 1;
    }
    assert(views_of(categories@).take(i as int) =~= views_of(categories@));
    result
}

} // verus!
