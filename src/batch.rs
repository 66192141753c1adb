//! The batch pipeline: a JSON array of objects to records, and records to
//! their ranked order.
use vstd::prelude::*;
use crate::json::JsonValue;
use crate::car::{Car, CarView, Field, car_of, default_car, has_record_key, lemma_foreign_keys_read_as_default};
use crate::coerce::Reason;
use crate::order::{sorts_to, sort_content, car_cmp};
use core::cmp::Ordering;

verus! {

/// Why a document gives no records.
#[derive(PartialEq, Eq, Structural, Clone, Copy, Debug)]
pub enum CarError {
    /// The field `field` of the record at position `record` cannot be read.
    MalformedField { record: usize, field: Field, reason: Reason },
    /// The document is not an array of objects.
    InvalidDocument,
}

pub open spec fn views(cs: Seq<Car>) -> Seq<CarView> {
    cs.map_values(|c: Car| c@)
}

pub open spec fn members_of(v: JsonValue) -> Seq<(String, JsonValue)> {
    match v {
        JsonValue::Object(ms) => ms@,
        _ => Seq::empty(),
    }
}

/// The records of the first `n` objects of `items`, or the first failure.
pub open spec fn cars_upto(items: Seq<JsonValue>, n: int) -> Result<Seq<CarView>, CarError>
    decreases n,
{
    if n <= 0 {
        Ok(Seq::empty())
    } else {
        match cars_upto(items, n - 1) {
            Err(e) => Err(e),
            Ok(cs) => match car_of(members_of(items[n - 1])) {
                Err((field, reason)) => Err(CarError::MalformedField { record: (n - 1) as usize, field, reason }),
                Ok(c) => Ok(cs.push(c)),
            },
        }
    }
}

proof fn lemma_failure_persists(items: Seq<JsonValue>, m: int, n: int, e: CarError)
    requires
        0 <= m <= n,
        cars_upto(items, m) == Err::<Seq<CarView>, CarError>(e),
    ensures
        cars_upto(items, n) == Err::<Seq<CarView>, CarError>(e),
    decreases n - m,
{
    if m < n {
        lemma_failure_persists(items, m, n - 1, e);
    }
}

/// The records that a document describes, in document order.
pub open spec fn cars_of(doc: JsonValue) -> Result<Seq<CarView>, CarError> {
    match doc {
        JsonValue::Array(items) => cars_of_items(items@),
        _ => Err(CarError::InvalidDocument),
    }
}

/// The records that the elements of an array describe, in order.
pub open spec fn cars_of_items(items: Seq<JsonValue>) -> Result<Seq<CarView>, CarError> {
    if forall|i: int| 0 <= i < items.len() ==> (#[trigger] items[i]) is Object {
        cars_upto(items, items.len() as int)
    } else {
        Err(CarError::InvalidDocument)
    }
}

/// Normalises every object of a JSON array into a record, in document
/// order. A document that is not an array of objects, or an object with a
/// field that cannot be read, gives an error and no records.
pub fn parse_content(doc: &JsonValue) -> (r: Result<Vec<Car>, CarError>)
    ensures
        match r {
            Ok(cs) => cars_of(*doc) == Ok::<Seq<CarView>, CarError>(views(cs@)),
            Err(e) => cars_of(*doc) == Err::<Seq<CarView>, CarError>(e),
        },
{
    match doc {
        JsonValue::Array(items) => parse_items(items),
        _ => Err(CarError::InvalidDocument),
    }
}

fn parse_items(items: &Vec<JsonValue>) -> (r: Result<Vec<Car>, CarError>)
    ensures
        match r {
            Ok(cs) => cars_of_items(items@) == Ok::<Seq<CarView>, CarError>(views(cs@)),
            Err(e) => cars_of_items(items@) == Err::<Seq<CarView>, CarError>(e),
        },
{
    let n = items.len();
    let mut k: usize = 0;
    while k < n
        invariant
            n == items@.len(),
            k <= n,
            forall|i: int| 0 <= i < k ==> (#[trigger] items@[i]) is Object,
        decreases n - k,
    {
        match &items[k] {
            JsonValue::Object(_) => {},
            _ => {
                assert(!(items@[k as int] is Object));
                return Err(CarError::InvalidDocument);
            },
        }
        k = k + 1;
    }
    let mut out: Vec<Car> = Vec::new();
    assert(views(out@) =~= Seq::<CarView>::empty());
    let mut i: usize = 0;
    while i < n
        invariant
            n == items@.len(),
            i <= n,
            forall|j: int| 0 <= j < n ==> (#[trigger] items@[j]) is Object,
            cars_upto(items@, i as int) == Ok::<Seq<CarView>, CarError>(views(out@)),
        decreases n - i,
    {
        let ms = match &items[i] {
            JsonValue::Object(ms) => ms,
            _ => return Err(CarError::InvalidDocument),
        };
        assert(members_of(items@[i as int]) == ms@);
        let ghost prev = out@;
        match Car::from_members(ms) {
            Ok(c) => {
                out.push(c);
                assert(views(out@) =~= views(prev).push(c@));
            },
            Err((field, reason)) => {
                proof {
                    lemma_failure_persists(items@, i + 1, n as int, CarError::MalformedField { record: i, field, reason });
                }
                return Err(CarError::MalformedField { record: i, field, reason });
            },
        }
        i = i + 1;
    }
    Ok(out)
}

/// Normalises a document's records and sorts them by rank.
pub fn make_cars(doc: &JsonValue) -> (r: Result<Vec<Car>, CarError>)
    ensures
        match r {
            Ok(cs) => exists|p: Seq<Car>|
                cars_of(*doc) == Ok::<Seq<CarView>, CarError>(views(p)) && #[trigger] sorts_to(p, cs@),
            Err(e) => cars_of(*doc) == Err::<Seq<CarView>, CarError>(e),
        },
{
    let mut cars = match parse_content(doc) {
        Ok(cs) => cs,
        Err(e) => return Err(e),
    };
    let ghost p = cars@;
    sort_content(&mut cars);
    assert(cars_of(*doc) == Ok::<Seq<CarView>, CarError>(views(p)) && sorts_to(p, cars@));
    let r: Result<Vec<Car>, CarError> = Ok(cars);
    assert(sorts_to(p, r->Ok_0@));
    r
}

/// Sorting is idempotent: sorting the result of a sort changes nothing.
pub proof fn lemma_sort_idempotent(s: Seq<Car>, t: Seq<Car>, u: Seq<Car>)
    requires
        sorts_to(s, t),
        sorts_to(t, u),
    ensures
        u == t,
{
}

/// A record without a model year ranks before every record with one,
/// whatever their horsepower and names.
pub proof fn lemma_missing_year_first(a: CarView, b: CarView)
    requires
        a.year is None,
        b.year is Some,
    ensures
        car_cmp(a, b) == Ordering::Less,
{
}

proof fn lemma_foreign_prefix(items: Seq<JsonValue>, n: int)
    requires
        0 <= n <= items.len(),
        forall|i: int| 0 <= i < items.len() ==> !has_record_key(members_of(#[trigger] items[i])),
    ensures
        cars_upto(items, n) == Ok::<Seq<CarView>, CarError>(Seq::new(n as nat, |i: int| default_car())),
    decreases n,
{
    if n > 0 {
        lemma_foreign_prefix(items, n - 1);
        lemma_foreign_keys_read_as_default(members_of(items[n - 1]));
        assert(Seq::new((n - 1) as nat, |i: int| default_car()).push(default_car())
            =~= Seq::new(n as nat, |i: int| default_car()));
    } else {
        assert(Seq::<CarView>::empty() =~= Seq::new(0, |i: int| default_car()));
    }
}

/// Re-reading written-out records: an array of objects none of which
/// carries one of the record's keys (as the lower-case canonical form
/// does not) reads as as many default records, so a second round trip
/// writes what the first one did.
pub proof fn lemma_reread_gives_defaults(items: Seq<JsonValue>)
    requires
        forall|i: int| 0 <= i < items.len() ==> (#[trigger] items[i]) is Object,
        forall|i: int| 0 <= i < items.len() ==> !has_record_key(members_of(#[trigger] items[i])),
    ensures
        cars_of_items(items) == Ok::<Seq<CarView>, CarError>(Seq::new(items.len(), |i: int| default_car())),
{
    lemma_foreign_prefix(items, items.len() as int);
}

} // verus!
