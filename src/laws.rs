use vstd::prelude::*;

use crate::calculation::{
    first_kind, lemma_recurring_sum_bounds, recurring_sum, sorted_token_set,
    tokens_of,
};
use crate::dataservice::{
    budget_left_units, category_units, income_units, is_category_sums, recurring_expense_units,
    row_names,
};
use crate::dataservice::CategorySum;
use crate::model::{BookEntry, EntryType, RecurringEntry, RecurringType};
use crate::tokens::{lemma_sorted_distinct, lemma_sorted_unique, strictly_sorted};

verus! {

/// Twelfths of a cent that one recurring entry adds to a monthly-equivalent
/// sum: twelve per cent of a monthly amount, one per cent of a yearly one.
pub open spec fn entry_units(e: RecurringEntry) -> int {
    if e.rate_type == RecurringType::Monthly {
        12 * e.amount
    } else {
        e.amount as int
    }
}

/// Monthly-equivalent sum of all recurring entries, in twelfths of a cent,
/// whatever their kind.
pub open spec fn all_units(rec: Seq<RecurringEntry>) -> int {
    12 * recurring_sum(rec, None, Some(RecurringType::Monthly), None) + recurring_sum(
        rec,
        None,
        Some(RecurringType::Yearly),
        None,
    )
}

/// Sum of the monthly-equivalent sums of the categories named in `q`.
pub open spec fn units_over(rec: Seq<RecurringEntry>, q: Seq<Seq<char>>) -> int
    decreases q.len(),
{
    if q.len() == 0 {
        0
    } else {
        units_over(rec, q.drop_last()) + category_units(rec, q.last())
    }
}

/// No element occurs twice.
pub open spec fn distinct(q: Seq<Seq<char>>) -> bool {
    forall|a: int, b: int| 0 <= a < q.len() && 0 <= b < q.len() && q[a] == q[b] ==> a == b
}

proof fn lemma_category_units_push(p: Seq<RecurringEntry>, e: RecurringEntry, t: Seq<char>)
    ensures
        category_units(p.push(e), t) == category_units(p, t) + if e.category_token@ == t {
            entry_units(e)
        } else {
            0
        },
{
    assert(p.push(e).drop_last() =~= p);
}

proof fn lemma_all_units_push(p: Seq<RecurringEntry>, e: RecurringEntry)
    ensures
        all_units(p.push(e)) == all_units(p) + entry_units(e),
{
    assert(p.push(e).drop_last() =~= p);
}

proof fn lemma_units_over_push(p: Seq<RecurringEntry>, e: RecurringEntry, q: Seq<Seq<char>>)
    requires
        distinct(q),
    ensures
        units_over(p.push(e), q) == units_over(p, q) + if q.contains(e.category_token@) {
            entry_units(e)
        } else {
            0
        },
    decreases q.len(),
{
    if q.len() > 0 {
        let d = q.drop_last();
        assert(distinct(d)) by {
            assert forall|a: int, b: int|
                0 <= a < d.len() && 0 <= b < d.len() && d[a] == d[b] implies a == b by {
                assert(q[a] == d[a] && q[b] == d[b]);
            }
        }
        lemma_units_over_push(p, e, d);
        lemma_category_units_push(p, e, q.last());
        let t = e.category_token@;
        if q.contains(t) {
            let w = choose|w: int| 0 <= w < q.len() && q[w] == t;
            if w == q.len() - 1 {
                if d.contains(t) {
                    let v = choose|v: int| 0 <= v < d.len() && d[v] == t;
                    assert(q[v] == t);
                }
            } else {
                assert(d[w] == t);
                assert(q.last() != t) by {
                    if q.last() == t {
                        assert(q[q.len() - 1] == q[w]);
                    }
                }
            }
        } else {
            assert(!d.contains(t)) by {
                if d.contains(t) {
                    let v = choose|v: int| 0 <= v < d.len() && d[v] == t;
                    assert(q[v] == t);
                }
            }
            assert(q.last() != t) by {
                if q.last() == t {
                    assert(q[q.len() - 1] == t);
                }
            }
        }
    }
}

proof fn lemma_units_over_total(rec: Seq<RecurringEntry>, q: Seq<Seq<char>>)
    requires
        distinct(q),
        forall|j: int| 0 <= j < rec.len() ==> q.contains(#[trigger] rec[j].category_token@),
    ensures
        units_over(rec, q) == all_units(rec),
    decreases rec.len(),
{
    if rec.len() == 0 {
        lemma_units_over_empty(rec, q);
    } else {
        let p = rec.drop_last();
        let e = rec.last();
        assert(p.push(e) =~= rec);
        assert forall|j: int| 0 <= j < p.len() implies q.contains(
            #[trigger] p[j].category_token@,
        ) by {
            assert(rec[j] == p[j]);
        }
        lemma_units_over_total(p, q);
        assert(q.contains(rec[rec.len() - 1].category_token@));
        lemma_units_over_push(p, e, q);
        lemma_all_units_push(p, e);
    }
}

proof fn lemma_units_over_empty(rec: Seq<RecurringEntry>, q: Seq<Seq<char>>)
    requires
        rec.len() == 0,
    ensures
        units_over(rec, q) == 0,
    decreases q.len(),
{
    if q.len() > 0 {
        lemma_units_over_empty(rec, q.drop_last());
    }
}

/// The category rows split the recurring entries into groups, one per row:
/// each entry falls in exactly one row, each row holds at least one entry,
/// and the groups' monthly-equivalent sums add up to that of all entries, so
/// no entry is dropped or counted twice.
pub proof fn lemma_categories_partition(
    rows: Seq<CategorySum>,
    rec: Seq<RecurringEntry>,
    budget_spent: int,
)
    requires
        is_category_sums(rows, rec, budget_spent),
    ensures
        forall|j: int|
            0 <= j < rec.len() ==> row_names(rows.drop_last()).contains(
                #[trigger] rec[j].category_token@,
            ),
        forall|j: int, a: int, b: int|
            0 <= j < rec.len() && 0 <= a < rows.len() - 1 && 0 <= b < rows.len() - 1
                && (#[trigger] rows[a]).name@ == (#[trigger] rec[j]).category_token@
                && (#[trigger] rows[b]).name@ == rec[j].category_token@ ==> a == b,
        forall|i: int|
            0 <= i < rows.len() - 1 ==> tokens_of(rec).contains(#[trigger] rows[i].name@),
        units_over(rec, row_names(rows.drop_last())) == all_units(rec),
{
    let q = row_names(rows.drop_last());
    assert(sorted_token_set(q, rec));
    assert(rows.len() >= 1);
    lemma_rows_cover(rows, rec, q);
    lemma_rows_unique(rows, rec, q);
    lemma_rows_inhabited(rows, rec, q);
    lemma_sorted_is_distinct(q);
    assert forall|j: int| 0 <= j < rec.len() implies q.contains(
        #[trigger] rec[j].category_token@,
    ) by {
        assert(q.contains(tokens_of(rec)[j]));
    }
    lemma_units_over_total(rec, q);
}

proof fn lemma_sorted_is_distinct(q: Seq<Seq<char>>)
    requires
        strictly_sorted(q),
    ensures
        distinct(q),
{
    assert forall|a: int, b: int| 0 <= a < q.len() && 0 <= b < q.len() && q[a] == q[b] implies a
        == b by {
        lemma_sorted_distinct(q, a, b);
    }
}

proof fn lemma_rows_cover(rows: Seq<CategorySum>, rec: Seq<RecurringEntry>, q: Seq<Seq<char>>)
    requires
        rows.len() >= 1,
        q == row_names(rows.drop_last()),
        sorted_token_set(q, rec),
    ensures
        forall|j: int|
            0 <= j < rec.len() ==> row_names(rows.drop_last()).contains(
                #[trigger] rec[j].category_token@,
            ),
{
    assert forall|j: int| 0 <= j < rec.len() implies row_names(rows.drop_last()).contains(
        #[trigger] rec[j].category_token@,
    ) by {
        assert(q.contains(tokens_of(rec)[j]));
    }
}

proof fn lemma_rows_unique(rows: Seq<CategorySum>, rec: Seq<RecurringEntry>, q: Seq<Seq<char>>)
    requires
        rows.len() >= 1,
        q == row_names(rows.drop_last()),
        sorted_token_set(q, rec),
    ensures
        forall|j: int, a: int, b: int|
            0 <= j < rec.len() && 0 <= a < rows.len() - 1 && 0 <= b < rows.len() - 1
                && (#[trigger] rows[a]).name@ == (#[trigger] rec[j]).category_token@
                && (#[trigger] rows[b]).name@ == rec[j].category_token@ ==> a == b,
{
    assert forall|j: int, a: int, b: int|
        0 <= j < rec.len() && 0 <= a < rows.len() - 1 && 0 <= b < rows.len() - 1
            && (#[trigger] rows[a]).name@ == (#[trigger] rec[j]).category_token@
            && (#[trigger] rows[b]).name@ == rec[j].category_token@ implies a == b by {
        assert(q[a] == rows[a].name@ && q[b] == rows[b].name@);
        lemma_sorted_distinct(q, a, b);
    }
}

proof fn lemma_rows_inhabited(
    rows: Seq<CategorySum>,
    rec: Seq<RecurringEntry>,
    q: Seq<Seq<char>>,
)
    requires
        rows.len() >= 1,
        q == row_names(rows.drop_last()),
        sorted_token_set(q, rec),
    ensures
        forall|i: int|
            0 <= i < rows.len() - 1 ==> tokens_of(rec).contains(#[trigger] rows[i].name@),
{
    assert forall|i: int| 0 <= i < rows.len() - 1 implies tokens_of(rec).contains(
        #[trigger] rows[i].name@,
    ) by {
        assert(q[i] == rows[i].name@);
    }
}

/// The first entry carrying `t` exists once any entry carries it, and it
/// carries `t`.
proof fn lemma_first_kind_found(s: Seq<RecurringEntry>, t: Seq<char>, j: int)
    requires
        0 <= j < s.len(),
        s[j].category_token@ == t,
    ensures
        exists|m: int|
            0 <= m < s.len() && s[m].category_token@ == t && first_kind(s, t) == Some(
                (#[trigger] s[m]).kind,
            ),
    decreases s.len(),
{
    let p = s.drop_last();
    if first_kind(p, t) is Some {
        if j < s.len() - 1 {
            assert(p[j] == s[j]);
            lemma_first_kind_found(p, t, j);
            let m = choose|m: int|
                0 <= m < p.len() && p[m].category_token@ == t && first_kind(p, t) == Some(
                    (#[trigger] p[m]).kind,
                );
            assert(s[m] == p[m]);
        } else {
            lemma_first_kind_some(p, t);
            let m = choose|m: int|
                0 <= m < p.len() && p[m].category_token@ == t && first_kind(p, t) == Some(
                    (#[trigger] p[m]).kind,
                );
            assert(s[m] == p[m]);
        }
    } else {
        if j < s.len() - 1 {
            assert(p[j] == s[j]);
            lemma_first_kind_found(p, t, j);
        }
        assert(s[s.len() - 1] == s.last());
    }
}

proof fn lemma_first_kind_some(s: Seq<RecurringEntry>, t: Seq<char>)
    requires
        first_kind(s, t) is Some,
    ensures
        exists|m: int|
            0 <= m < s.len() && s[m].category_token@ == t && first_kind(s, t) == Some(
                (#[trigger] s[m]).kind,
            ),
    decreases s.len(),
{
    let p = s.drop_last();
    if first_kind(p, t) is Some {
        lemma_first_kind_some(p, t);
        let m = choose|m: int|
            0 <= m < p.len() && p[m].category_token@ == t && first_kind(p, t) == Some(
                (#[trigger] p[m]).kind,
            );
        assert(s[m] == p[m]);
    } else {
        assert(s[s.len() - 1] == s.last());
    }
}

/// In the category rows, a category whose entries are all expenses is an
/// outflow (its row is the negated monthly-equivalent sum, never positive),
/// and one whose entries are all income is an inflow (never negative).  The
/// closing row is the ad-hoc spend, negated.
pub proof fn lemma_category_sign(
    rows: Seq<CategorySum>,
    rec: Seq<RecurringEntry>,
    budget_spent: int,
    i: int,
    kind: EntryType,
)
    requires
        is_category_sums(rows, rec, budget_spent),
        0 <= i < rows.len() - 1,
        forall|j: int|
            0 <= j < rec.len() && (#[trigger] rec[j]).category_token@ == rows[i].name@ ==> rec[j].kind
                == kind,
    ensures
        kind == EntryType::Expense ==> rows[i].amount == -category_units(rec, rows[i].name@)
            <= 0,
        kind == EntryType::Income ==> rows[i].amount == category_units(rec, rows[i].name@) >= 0,
        rows.last().amount == -budget_spent,
{
    let t = rows[i].name@;
    assert(row_names(rows.drop_last())[i] == t);
    assert(tokens_of(rec).contains(t));
    let j = choose|j: int| 0 <= j < rec.len() && tokens_of(rec)[j] == t;
    lemma_first_kind_found(rec, t, j);
    lemma_recurring_sum_bounds(rec, None, Some(RecurringType::Monthly), Some(t));
    lemma_recurring_sum_bounds(rec, None, Some(RecurringType::Yearly), Some(t));
}

/// Rate normalisation: a yearly entry adds exactly one twelfth of its amount
/// to every monthly-equivalent figure it counts towards (its amount in cents
/// is that many twelfths of a cent), a monthly entry its whole amount; an
/// expense lowers what is left by the same, and income counts its raw amount
/// whatever its rate.
pub proof fn lemma_rate_normalization(
    rec: Seq<RecurringEntry>,
    bookings: Seq<BookEntry>,
    e: RecurringEntry,
)
    ensures
        category_units(rec.push(e), e.category_token@) == category_units(rec, e.category_token@)
            + entry_units(e),
        e.rate_type == RecurringType::Yearly ==> entry_units(e) == e.amount,
        e.rate_type == RecurringType::Monthly ==> entry_units(e) == 12 * e.amount,
        e.kind == EntryType::Expense ==> recurring_expense_units(rec.push(e))
            == recurring_expense_units(rec) + entry_units(e),
        e.kind == EntryType::Expense ==> budget_left_units(rec.push(e), bookings)
            == budget_left_units(rec, bookings) - entry_units(e),
        e.kind == EntryType::Income ==> recurring_expense_units(rec.push(e))
            == recurring_expense_units(rec),
        e.kind == EntryType::Income ==> income_units(rec.push(e)) == income_units(rec) + 12
            * e.amount,
        e.kind == EntryType::Expense ==> income_units(rec.push(e)) == income_units(rec),
{
    assert(rec.push(e).drop_last() =~= rec);
}

/// A sequence holds a token exactly when `sorted_token_set` lists it.
proof fn lemma_token_set_contains(q: Seq<Seq<char>>, rec: Seq<RecurringEntry>, x: Seq<char>)
    requires
        sorted_token_set(q, rec),
    ensures
        q.contains(x) <==> tokens_of(rec).contains(x),
{
    if q.contains(x) {
        let i = choose|i: int| 0 <= i < q.len() && q[i] == x;
        assert(tokens_of(rec).contains(q[i]));
    }
    if tokens_of(rec).contains(x) {
        let j = choose|j: int| 0 <= j < tokens_of(rec).len() && tokens_of(rec)[j] == x;
        assert(q.contains(tokens_of(rec)[j]));
    }
}

/// Adding a recurring entry to a category that already has entries moves
/// only that category's row: the rows keep their names and order, the
/// category's row moves by the entry's monthly-equivalent amount (one
/// twelfth of it for a yearly entry, the whole of it for a monthly one) in
/// the direction of the category's first entry, and every other row stays.
pub proof fn lemma_entry_moves_its_row(
    rows: Seq<CategorySum>,
    rows2: Seq<CategorySum>,
    rec: Seq<RecurringEntry>,
    e: RecurringEntry,
    budget_spent: int,
)
    requires
        is_category_sums(rows, rec, budget_spent),
        is_category_sums(rows2, rec.push(e), budget_spent),
        tokens_of(rec).contains(e.category_token@),
    ensures
        rows2.len() == rows.len(),
        forall|j: int| 0 <= j < rows.len() ==> (#[trigger] rows2[j]).name@ == rows[j].name@,
        forall|j: int|
            0 <= j < rows.len() - 1 && rows[j].name@ != e.category_token@ ==> (#[trigger] rows2[j]).amount
                == rows[j].amount,
        forall|j: int|
            0 <= j < rows.len() - 1 && rows[j].name@ == e.category_token@ ==> (#[trigger] rows2[j]).amount
                == rows[j].amount + if first_kind(rec, e.category_token@) == Some(
                EntryType::Expense,
            ) {
                -entry_units(e)
            } else {
                entry_units(e)
            },
        e.rate_type == RecurringType::Yearly ==> entry_units(e) == e.amount,
        rows2.last().amount == rows.last().amount,
{
    let t = e.category_token@;
    let rec2 = rec.push(e);
    let q = row_names(rows.drop_last());
    let q2 = row_names(rows2.drop_last());
    assert(tokens_of(rec2) =~= tokens_of(rec).push(t));
    assert forall|x: Seq<char>| q.contains(x) <==> q2.contains(x) by {
        lemma_token_set_contains(q, rec, x);
        lemma_token_set_contains(q2, rec2, x);
        if tokens_of(rec2).contains(x) && !tokens_of(rec).contains(x) {
            let j = choose|j: int| 0 <= j < tokens_of(rec2).len() && tokens_of(rec2)[j] == x;
            if j < rec.len() {
                assert(tokens_of(rec)[j] == x);
            }
        }
        if tokens_of(rec).contains(x) {
            let j = choose|j: int| 0 <= j < tokens_of(rec).len() && tokens_of(rec)[j] == x;
            assert(tokens_of(rec2)[j] == x);
        }
    }
    lemma_sorted_unique(q, q2);
    assert(q.len() == q2.len());
    assert(rec2.drop_last() =~= rec);
    assert forall|j: int| 0 <= j < rows.len() implies (#[trigger] rows2[j]).name@
        == rows[j].name@ by {
        if j < rows.len() - 1 {
            assert(q[j] == rows[j].name@ && q2[j] == rows2[j].name@);
        }
    }
    assert forall|j: int| 0 <= j < rows.len() - 1 implies (#[trigger] rows2[j]).amount == rows[j].amount
        + if rows[j].name@ == t {
        if first_kind(rec, t) == Some(EntryType::Expense) {
            -entry_units(e)
        } else {
            entry_units(e)
        }
    } else {
        0
    } by {
        let n = rows[j].name@;
        assert(q[j] == n && q2[j] == rows2[j].name@);
        assert(tokens_of(rec).contains(n));
        let w = choose|w: int| 0 <= w < tokens_of(rec).len() && tokens_of(rec)[w] == n;
        lemma_first_kind_found(rec, n, w);
        assert(first_kind(rec2, n) == first_kind(rec, n));
        lemma_category_units_push(rec, e, n);
    }
}

} // verus!
