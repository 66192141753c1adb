//! The ranking of records: model year, then horsepower, then name with
//! case folded.
use vstd::prelude::*;
use core::cmp::Ordering;
use crate::car::{Car, CarView};
use crate::date::Date;

verus! {

/// The text of `s` in lower case, as `str::to_lowercase` gives it.
pub uninterp spec fn lower_of(s: Seq<char>) -> Seq<char>;

/// Relies on `str::to_lowercase`: the lower-case form of a text depends on
/// its characters alone.
#[verifier::external_body]
fn lowercase(s: &str) -> (r: String)
    ensures
        r@ == lower_of(s@),
{
    s.to_lowercase()
}

pub open spec fn int_cmp(a: int, b: int) -> Ordering {
    if a < b {
        Ordering::Less
    } else if a > b {
        Ordering::Greater
    } else {
        Ordering::Equal
    }
}

/// `first`, unless it is a tie; then `second`.
pub open spec fn then_cmp(first: Ordering, second: Ordering) -> Ordering {
    if first == Ordering::Equal {
        second
    } else {
        first
    }
}

/// Texts compared character by character from position `i` on, by code
/// point; a proper prefix comes first.
pub open spec fn text_cmp_from(a: Seq<char>, b: Seq<char>, i: int) -> Ordering
    decreases a.len() - i,
{
    if i < 0 || i >= a.len() {
        if i >= 0 && i < b.len() {
            Ordering::Less
        } else {
            Ordering::Equal
        }
    } else if i >= b.len() {
        Ordering::Greater
    } else if (a[i] as u32) < (b[i] as u32) {
        Ordering::Less
    } else if (a[i] as u32) > (b[i] as u32) {
        Ordering::Greater
    } else {
        text_cmp_from(a, b, i + 1)
    }
}

/// Texts in lexicographic order of their characters' code points.
pub open spec fn text_cmp(a: Seq<char>, b: Seq<char>) -> Ordering {
    text_cmp_from(a, b, 0)
}

/// Dates in calendar order; no date comes before every date.
pub open spec fn year_cmp(a: Option<Date>, b: Option<Date>) -> Ordering {
    match (a, b) {
        (None, None) => Ordering::Equal,
        (None, Some(_)) => Ordering::Less,
        (Some(_), None) => Ordering::Greater,
        (Some(x), Some(y)) => then_cmp(
            int_cmp(x.year as int, y.year as int),
            then_cmp(int_cmp(x.month as int, y.month as int), int_cmp(x.day as int, y.day as int)),
        ),
    }
}

/// The rank of two records: by model year, then horsepower, then name in
/// lower case.
pub open spec fn car_cmp(a: CarView, b: CarView) -> Ordering {
    then_cmp(
        year_cmp(a.year, b.year),
        then_cmp(
            int_cmp(a.horsepower as int, b.horsepower as int),
            text_cmp(lower_of(a.name), lower_of(b.name)),
        ),
    )
}

/// `a` ranks no later than `b`.
pub open spec fn car_le(a: CarView, b: CarView) -> bool {
    car_cmp(a, b) != Ordering::Greater
}

pub open spec fn flip(o: Ordering) -> Ordering {
    match o {
        Ordering::Less => Ordering::Greater,
        Ordering::Equal => Ordering::Equal,
        Ordering::Greater => Ordering::Less,
    }
}

proof fn lemma_text_cmp_flip(a: Seq<char>, b: Seq<char>, i: int)
    requires
        i >= 0,
    ensures
        text_cmp_from(b, a, i) == flip(text_cmp_from(a, b, i)),
    decreases a.len() - i,
{
    if i < a.len() && i < b.len() && (a[i] as u32) == (b[i] as u32) {
        lemma_text_cmp_flip(a, b, i + 1);
    }
}

proof fn lemma_text_cmp_trans(a: Seq<char>, b: Seq<char>, c: Seq<char>, i: int)
    requires
        i >= 0,
        text_cmp_from(a, b, i) != Ordering::Greater,
        text_cmp_from(b, c, i) != Ordering::Greater,
    ensures
        text_cmp_from(a, c, i) != Ordering::Greater,
        text_cmp_from(a, b, i) == Ordering::Less || text_cmp_from(b, c, i) == Ordering::Less
            ==> text_cmp_from(a, c, i) == Ordering::Less,
    decreases a.len() - i,
{
    if i < a.len() && i < b.len() && i < c.len() {
        if (a[i] as u32) == (b[i] as u32) && (b[i] as u32) == (c[i] as u32) {
            lemma_text_cmp_trans(a, b, c, i + 1);
        }
    }
}

proof fn lemma_int_cmp_flip(a: int, b: int)
    ensures
        int_cmp(b, a) == flip(int_cmp(a, b)),
{
}

/// Exchanging the two records reverses their rank.
pub proof fn lemma_car_cmp_flip(a: CarView, b: CarView)
    ensures
        car_cmp(b, a) == flip(car_cmp(a, b)),
{
    lemma_text_cmp_flip(lower_of(a.name), lower_of(b.name), 0);
}

/// The ranking is transitive: a record that ranks no later than a second,
/// which ranks no later than a third, ranks no later than the third.
pub proof fn lemma_car_le_transitive(a: CarView, b: CarView, c: CarView)
    requires
        car_le(a, b),
        car_le(b, c),
    ensures
        car_le(a, c),
{
    let (la, lb, lc) = (lower_of(a.name), lower_of(b.name), lower_of(c.name));
    if text_cmp(la, lb) != Ordering::Greater && text_cmp(lb, lc) != Ordering::Greater {
        lemma_text_cmp_trans(la, lb, lc, 0);
    }
}

/// Whether every record of `s` ranks no later than every one after it.
pub open spec fn sorted(s: Seq<Car>) -> bool {
    forall|i: int, j: int| 0 <= i < j < s.len() ==> car_le(#[trigger] s[i]@, #[trigger] s[j]@)
}

/// Compares two texts by the code points of their characters.
fn compare_text(a: &str, b: &str) -> (r: Ordering)
    ensures
        r == text_cmp(a@, b@),
{
    let n = a.unicode_len();
    let m = b.unicode_len();
    let mut i: usize = 0;
    while i < n && i < m
        invariant
            n == a@.len(),
            m == b@.len(),
            i <= n,
            i <= m,
            text_cmp(a@, b@) == text_cmp_from(a@, b@, i as int),
        decreases n - i,
    {
        let x = a.get_char(i) as u32;
        let y = b.get_char(i) as u32;
        if x < y {
            return Ordering::Less;
        } else if x > y {
            return Ordering::Greater;
        }
        i = i + 1;
    }
    if i < m {
        Ordering::Less
    } else if i < n {
        Ordering::Greater
    } else {
        Ordering::Equal
    }
}

fn compare_int(a: i64, b: i64) -> (r: Ordering)
    ensures
        r == int_cmp(a as int, b as int),
{
    if a < b {
        Ordering::Less
    } else if a > b {
        Ordering::Greater
    } else {
        Ordering::Equal
    }
}

fn compare_year(a: &Option<Date>, b: &Option<Date>) -> (r: Ordering)
    ensures
        r == year_cmp(*a, *b),
{
    match (a, b) {
        (None, None) => Ordering::Equal,
        (None, Some(_)) => Ordering::Less,
        (Some(_), None) => Ordering::Greater,
        (Some(x), Some(y)) => {
            let o = compare_int(x.year as i64, y.year as i64);
            if !matches!(o, Ordering::Equal) {
                return o;
            }
            let o = compare_int(x.month as i64, y.month as i64);
            if !matches!(o, Ordering::Equal) {
                return o;
            }
            compare_int(x.day as i64, y.day as i64)
        },
    }
}

impl Car {
    /// Ranks two records: by model year, a missing year first, then by
    /// horsepower, then by name in lower case.
    pub fn cmp(&self, other: &Car) -> (r: Ordering)
        ensures
            r == car_cmp(self@, other@),
    {
        let o = compare_year(&self.year, &other.year);
        if !matches!(o, Ordering::Equal) {
            return o;
        }
        let o = compare_int(self.horsepower as i64, other.horsepower as i64);
        if !matches!(o, Ordering::Equal) {
            return o;
        }
        let x = lowercase(self.name.as_str());
        let y = lowercase(other.name.as_str());
        compare_text(x.as_str(), y.as_str())
    }

    /// Whether this record ranks strictly before `other`.
    pub fn is_less(&self, other: &Car) -> (r: bool)
        ensures
            r == (car_cmp(self@, other@) == Ordering::Less),
    {
        matches!(self.cmp(other), Ordering::Less)
    }
}

/// Whether a record ranks equal to `x`.
pub open spec fn same_rank_as(x: Car) -> spec_fn(Car) -> bool {
    |y: Car| car_cmp(y@, x@) == Ordering::Equal
}

/// What a stable sort of `s` gives: `t` is sorted, holds the records of
/// `s`, and the records of each rank come in `t` in the order they have in
/// `s`. Such a `t` is `s` itself when `s` was already sorted.
pub open spec fn sorts_to(s: Seq<Car>, t: Seq<Car>) -> bool {
    &&& sorted(t)
    &&& t.to_multiset() == s.to_multiset()
    &&& forall|x: Car| #[trigger] t.filter(same_rank_as(x)) == s.filter(same_rank_as(x))
    &&& sorted(s) ==> t == s
}

proof fn lemma_filter_none(s: Seq<Car>, f: spec_fn(Car) -> bool)
    requires
        forall|k: int| 0 <= k < s.len() ==> !f(#[trigger] s[k]),
    ensures
        s.filter(f) == Seq::<Car>::empty(),
    decreases s.len(),
{
    reveal(Seq::filter);
    if s.len() > 0 {
        lemma_filter_none(s.drop_last(), f);
    }
}

/// Moving a record to an earlier position, past records that all rank
/// strictly after it, keeps the order within every rank.
proof fn lemma_move_keeps_ranks(before: Seq<Car>, i: int, p: int, x0: Car)
    requires
        0 <= p <= i < before.len(),
        forall|k: int| p <= k < i ==> car_cmp(#[trigger] before[k]@, before[i]@) == Ordering::Greater,
    ensures
        before.remove(i).insert(p, before[i]).filter(same_rank_as(x0)) == before.filter(same_rank_as(x0)),
{
    broadcast use vstd::seq_lib::group_filter_ensures;
    let f = same_rank_as(x0);
    let xi = before[i];
    let a = before.subrange(0, p);
    let m = before.subrange(p, i);
    let d = before.subrange(i + 1, before.len() as int);
    let one = seq![xi];
    assert(before =~= a + m + one + d);
    assert(before.remove(i).insert(p, xi) =~= a + one + m + d);
    Seq::filter_distributes_over_add(a + m + one, d, f);
    Seq::filter_distributes_over_add(a + m, one, f);
    Seq::filter_distributes_over_add(a, m, f);
    Seq::filter_distributes_over_add(a + one + m, d, f);
    Seq::filter_distributes_over_add(a + one, m, f);
    Seq::filter_distributes_over_add(a, one, f);
    if f(xi) {
        assert forall|k: int| 0 <= k < m.len() implies !f(#[trigger] m[k]) by {
            if f(m[k]) {
                assert(car_cmp(before[p + k]@, xi@) == Ordering::Greater);
                lemma_car_cmp_flip(xi@, x0@);
                lemma_car_le_transitive(m[k]@, x0@, xi@);
            }
        }
        lemma_filter_none(m, f);
        assert(before.remove(i).insert(p, xi).filter(f) =~= before.filter(f));
    } else {
        lemma_filter_none(one, f);
        assert(before.remove(i).insert(p, xi).filter(f) =~= before.filter(f));
    }
}

/// Sorts the records by rank, in place. Records of equal rank keep their
/// order.
pub fn sort_content(cars: &mut Vec<Car>)
    ensures
        sorts_to(old(cars)@, final(cars)@),
{
    let ghost orig = cars@;
    let n = cars.len();
    let mut i: usize = 0;
    while i < n
        invariant
            cars@.len() == n,
            orig.len() == n,
            i <= n,
            sorted(cars@.subrange(0, i as int)),
            cars@.subrange(i as int, n as int) == orig.subrange(i as int, n as int),
            cars@.to_multiset() == orig.to_multiset(),
            forall|y: Car| #[trigger] cars@.filter(same_rank_as(y)) == orig.filter(same_rank_as(y)),
            sorted(orig) ==> cars@ == orig,
        decreases n - i,
    {
        let ghost before = cars@;
        let x = cars.remove(i);
        assert(x == orig[i as int]) by {
            assert(before.subrange(i as int, n as int)[0] == orig.subrange(i as int, n as int)[0]);
        }
        let ghost rest = cars@;
        let mut p: usize = i;
        let mut done = false;
        while p > 0 && !done
            invariant
                cars@ == rest,
                before.len() == n,
                orig.len() == n,
                i < n,
                rest == before.remove(i as int),
                rest.len() == n - 1,
                x == before[i as int],
                x == orig[i as int],
                p <= i,
                forall|k: int| p <= k < i ==> car_cmp(#[trigger] rest[k]@, x@) == Ordering::Greater,
                done ==> p > 0 && car_le(rest[p - 1]@, x@),
                sorted(orig) ==> before == orig && p == i,
            decreases 2 * p + if done { 0int } else { 1int },
        {
            match cars[p - 1].cmp(&x) {
                Ordering::Greater => {
                    proof {
                        if sorted(orig) {
                            assert(rest[p - 1] == orig[p - 1]);
                            assert(car_le(orig[p - 1]@, orig[i as int]@));
                        }
                    }
                    p = p - 1;
                },
                _ => {
                    done = true;
                },
            }
        }
        cars.insert(p, x);
        proof {
            let new = cars@;
            assert(new == rest.insert(p as int, x));
            let pre = before.subrange(0, i as int);
            assert forall|k: int| 0 <= k < i implies #[trigger] rest[k] == pre[k] by {}
            assert forall|a: int, b: int| 0 <= a < b < i + 1 implies car_le(
                #[trigger] new.subrange(0, i + 1)[a]@,
                #[trigger] new.subrange(0, i + 1)[b]@,
            ) by {
                if b < p {
                    assert(car_le(pre[a]@, pre[b]@));
                } else if a > p {
                    assert(car_le(pre[a - 1]@, pre[b - 1]@));
                } else if a == p {
                    assert(car_cmp(rest[b - 1]@, x@) == Ordering::Greater);
                    lemma_car_cmp_flip(rest[b - 1]@, x@);
                } else if b == p {
                    if a < p - 1 {
                        assert(car_le(pre[a]@, pre[p - 1]@));
                        lemma_car_le_transitive(pre[a]@, pre[p - 1]@, x@);
                    }
                } else {
                    assert(car_le(pre[a]@, pre[b - 1]@));
                }
            }
            assert(new.subrange(i + 1, n as int) =~= orig.subrange(i + 1, n as int)) by {
                assert forall|k: int| i + 1 <= k < n implies new[k] == orig[k] by {
                    assert(before.subrange(i as int, n as int)[k - i] == orig.subrange(i as int, n as int)[k - i]);
                }
            }
            assert(before.len() == n);
            assert(before.contains(before[i as int]));
            vstd::seq_lib::to_multiset_contains(before, x);
            vstd::seq_lib::to_multiset_remove(before, i as int);
            assert(rest.to_multiset() == before.to_multiset().remove(x));
            vstd::seq_lib::to_multiset_insert(rest, p as int, x);
            assert(new.to_multiset() =~= before.to_multiset());
            assert forall|y: Car| #[trigger] new.filter(same_rank_as(y)) == orig.filter(same_rank_as(y)) by {
                assert forall|k: int| p <= k < i implies car_cmp(#[trigger] before[k]@, before[i as int]@) == Ordering::Greater by {
                    assert(rest[k] == before[k]);
                }
                lemma_move_keeps_ranks(before, i as int, p as int, y);
            }
            if sorted(orig) {
                assert(new =~= orig);
            }
        }
        i = i + 1;
    }
    assert(cars@ =~= cars@.subrange(0, n as int));
}

} // verus!
