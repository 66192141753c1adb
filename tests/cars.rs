use std::cmp::Ordering;

use car_records::batch::{make_cars, parse_content, CarError};
use car_records::car::{Car, Field};
use car_records::coerce::{
    acceleration_deserialize, cylinders_deserialize, displacement_deserialize,
    horsepower_deserialize, miles_per_gallon_deserialize, name_deserialize, weight_deserialize,
    year_deserialize, year_serialize, Reason,
};
use car_records::date::Date;
use car_records::default_values;
use car_records::digits::{parse_digits, DigitsError};
use car_records::double::truncate_double;
use car_records::json::{get_member, same_text, JsonNumber, JsonValue};
use car_records::order::sort_content;

fn value(v: &serde_json::Value) -> JsonValue {
    match v {
        serde_json::Value::Null => JsonValue::Null,
        serde_json::Value::Bool(b) => JsonValue::Bool(*b),
        serde_json::Value::Number(n) => JsonValue::Number(JsonNumber {
            integer: n.as_i64().map(i128::from).or_else(|| n.as_u64().map(i128::from)),
            double_bits: n.as_f64().unwrap().to_bits(),
        }),
        serde_json::Value::String(s) => JsonValue::Str(s.clone()),
        serde_json::Value::Array(items) => JsonValue::Array(items.iter().map(value).collect()),
        serde_json::Value::Object(ms) => {
            JsonValue::Object(ms.iter().map(|(k, v)| (k.clone(), value(v))).collect())
        }
    }
}

fn doc(text: &str) -> JsonValue {
    value(&serde_json::from_str(text).unwrap())
}

fn integer(i: i128) -> JsonValue {
    JsonValue::Number(JsonNumber { integer: Some(i), double_bits: (i as f64).to_bits() })
}

fn float(x: f64) -> JsonValue {
    JsonValue::Number(JsonNumber { integer: None, double_bits: x.to_bits() })
}

fn text(s: &str) -> JsonValue {
    JsonValue::Str(String::from(s))
}

fn car(name: &str, horsepower: u8, year: Option<Date>) -> Car {
    Car {
        name: String::from(name),
        miles_per_galon: 12.6f64.to_bits(),
        displacement: None,
        horsepower,
        weight_in_lbs: 1900,
        cylinders: 4,
        year,
        acceleration: 100,
    }
}

fn ymd(year: i32, month: u32, day: u32) -> Option<Date> {
    Some(Date { year, month, day })
}

fn names(cars: &[Car]) -> Vec<String> {
    cars.iter().map(|c| c.name.clone()).collect()
}

#[test]
fn test_make_cars() {
    let content = r#"
    [
        {
            "Name":"",
            "Miles_per_Gallon":18,
            "Cylinders":8,
            "Displacement":"307",
            "Horsepower":130,
            "Weight_in_lbs":3504,
            "Acceleration":"-]2-",
            "Year":"1970-01-01",
            "Origin":"USA"
        },
        {
            "Name":"amc rebel sst",
            "Miles_per_Gallon":16,
            "Cylinders":8,
            "Displacement":"304",
            "Horsepower":150,
            "Weight_in_lbs":3433,
            "Acceleration":12,
            "Origin":"USA"
        },
        {
            "Name":"amc rebel sst",
            "Miles_per_Gallon":16,
            "Cylinders":8,
            "Displacement":"304",
            "Horsepower":150,
            "Weight_in_lbs":3433,
            "Acceleration":18.8,
            "Origin":"USA"
        }
    ]"#;
    let cars = make_cars(&doc(content)).unwrap();
    assert_eq!(cars.len(), 3);
}

#[test]
fn test_parse_content() {
    let content = r#"
    [
        {"Name":"chevrolet chevelle malibu","Miles_per_Gallon":18,"Cylinders":8,
         "Displacement":"307","Horsepower":130,"Weight_in_lbs":3504,
         "Acceleration":"-]2-","Year":"1970-01-01","Origin":"USA"},
        {"Name":"buick skylark 320","Miles_per_Gallon":15,"Cylinders":8,
         "Displacement":"350","Horsepower":165,"Weight_in_lbs":3693,
         "Acceleration":12,"Year":"1970-01-01","Origin":"USA"},
        {"Name":"plymouth satellite","Miles_per_Gallon":18,"Cylinders":8,
         "Displacement":"318","Horsepower":150,"Weight_in_lbs":3436,
         "Acceleration":18.8,"Year":"1970-01-01","Origin":"USA"}
    ]"#;
    let parsed = parse_content(&doc(content)).unwrap();
    assert_eq!(parsed[0].acceleration, 2);
    assert_eq!(parsed[1].acceleration, 12);
    assert_eq!(parsed[2].acceleration, 18);
}

#[test]
fn car_can_be_created() {
    let car = Car {
        name: String::from("Honda"),
        miles_per_galon: 12.6f64.to_bits(),
        displacement: None,
        horsepower: 140,
        weight_in_lbs: 1900,
        cylinders: 4,
        year: ymd(1970, 1, 1),
        acceleration: 100,
    };
    assert_eq!(car.cylinders, 4);
}

#[test]
fn sort_cars() {
    let car1 = car("Honda", 140, ymd(1990, 1, 1));
    let car2 = car("Acura", 110, ymd(1970, 1, 1));
    let car3 = car("VW", 100, ymd(1970, 1, 1));
    let car4 = car("Bentley", 110, ymd(1970, 1, 1));
    let mut cars = vec![car1, car2, car3, car4];
    sort_content(&mut cars);
    assert_eq!(cars[0].name, "VW");
    assert_eq!(cars[1].name, "Acura");
    assert_eq!(cars[2].name, "Bentley");
    assert_eq!(cars[3].name, "Honda");
}

#[test]
fn normalizes_every_field() {
    let content = r#"[{"Name":"Wagon","Miles_per_Gallon":18,"Cylinders":8,"Displacement":"307",
        "Horsepower":130,"Weight_in_lbs":3504,"Acceleration":"-]2-","Year":"1970-01-01",
        "Origin":"USA"}]"#;
    let cars = parse_content(&doc(content)).unwrap();
    let c = &cars[0];
    assert_eq!(c.name, "Wagon");
    assert_eq!(f64::from_bits(c.miles_per_galon), 18.0);
    assert_eq!(c.displacement.as_deref(), Some("307"));
    assert_eq!(c.horsepower, 130);
    assert_eq!(c.weight_in_lbs, 3504);
    assert_eq!(c.cylinders, 8);
    assert_eq!(c.year, ymd(1970, 1, 1));
    assert_eq!(c.acceleration, 2);
}

#[test]
fn missing_fields_take_defaults() {
    let cars = parse_content(&doc(r#"[{"Origin":"USA"}]"#)).unwrap();
    let c = &cars[0];
    assert_eq!(c.name, "");
    assert_eq!(c.miles_per_galon, 0);
    assert_eq!(c.displacement, None);
    assert_eq!(c.horsepower, 0);
    assert_eq!(c.weight_in_lbs, 0);
    assert_eq!(c.cylinders, 0);
    assert_eq!(c.year, None);
    assert_eq!(c.acceleration, 0);
}

#[test]
fn mistyped_fields_take_defaults() {
    let content = r#"[{"Name":7,"Miles_per_Gallon":"18","Displacement":307,"Horsepower":300,
        "Weight_in_lbs":-1,"Cylinders":4.5,"Year":null,"Acceleration":null}]"#;
    let cars = parse_content(&doc(content)).unwrap();
    let c = &cars[0];
    assert_eq!(c.name, "");
    assert_eq!(c.miles_per_galon, 0);
    assert_eq!(c.displacement, None);
    assert_eq!(c.horsepower, 0);
    assert_eq!(c.weight_in_lbs, 0);
    assert_eq!(c.cylinders, 0);
    assert_eq!(c.year, None);
    assert_eq!(c.acceleration, 0);
}

#[test]
fn acceleration_coercion_cases() {
    assert_eq!(acceleration_deserialize(Some(&text("-]2-"))), Ok(2));
    assert_eq!(acceleration_deserialize(Some(&integer(12))), Ok(12));
    assert_eq!(acceleration_deserialize(Some(&float(18.8))), Ok(18));
    assert_eq!(acceleration_deserialize(Some(&float(-2.7))), Ok(-2));
    assert_eq!(acceleration_deserialize(Some(&text("abc"))), Err(Reason::NoDigits));
    assert_eq!(
        acceleration_deserialize(Some(&text("99999999999999999999"))),
        Err(Reason::TooLarge)
    );
    assert_eq!(acceleration_deserialize(None), Ok(0));
}

#[test]
fn acceleration_without_digits_fails_the_batch() {
    let content = r#"[{"Name":"a","Acceleration":1},{"Name":"b","Acceleration":"--"}]"#;
    assert_eq!(
        parse_content(&doc(content)).unwrap_err(),
        CarError::MalformedField { record: 1, field: Field::Acceleration, reason: Reason::NoDigits }
    );
}

#[test]
fn malformed_date_fails_the_batch() {
    let content = r#"[{"Name":"a","Year":"1970-13-45"}]"#;
    assert_eq!(
        make_cars(&doc(content)).unwrap_err(),
        CarError::MalformedField { record: 0, field: Field::Year, reason: Reason::NotADate }
    );
}

#[test]
fn object_document_is_invalid() {
    assert_eq!(
        parse_content(&doc(r#"{"Name":"a"}"#)).unwrap_err(),
        CarError::InvalidDocument
    );
    assert_eq!(make_cars(&doc(r#"{"Name":"a"}"#)).unwrap_err(), CarError::InvalidDocument);
}

#[test]
fn non_object_element_is_invalid() {
    assert_eq!(
        parse_content(&doc(r#"[{"Name":"a"}, 3]"#)).unwrap_err(),
        CarError::InvalidDocument
    );
}

#[test]
fn empty_array_gives_no_cars() {
    assert_eq!(make_cars(&doc("[]")).unwrap().len(), 0);
}

#[test]
fn missing_year_sorts_first() {
    let content = r#"[{"Name":"A","Horsepower":1,"Year":"1970-01-01"},
        {"Name":"Z","Horsepower":250}]"#;
    let cars = make_cars(&doc(content)).unwrap();
    assert_eq!(names(&cars), vec!["Z", "A"]);
}

#[test]
fn sorting_twice_changes_nothing() {
    let content = r#"[{"Name":"b","Horsepower":90,"Year":"1971-05-02"},
        {"Name":"B","Horsepower":90,"Year":"1971-05-02"},
        {"Name":"a","Horsepower":120},
        {"Name":"c","Horsepower":80,"Year":"1970-01-01"}]"#;
    let mut cars = make_cars(&doc(content)).unwrap();
    let once = names(&cars);
    sort_content(&mut cars);
    assert_eq!(names(&cars), once);
    assert_eq!(once, vec!["a", "c", "b", "B"]);
}

#[test]
fn comparator_is_transitive_on_samples() {
    let a = car("alpha", 90, None);
    let b = car("Beta", 90, ymd(1970, 1, 1));
    let c = car("beta", 95, ymd(1970, 1, 1));
    assert_eq!(a.cmp(&b), Ordering::Less);
    assert_eq!(b.cmp(&c), Ordering::Less);
    assert_eq!(a.cmp(&c), Ordering::Less);
    assert!(a.is_less(&c));
    assert_eq!(car("Acura", 110, None).cmp(&car("acura", 110, None)), Ordering::Equal);
    assert_eq!(car("b", 1, ymd(1970, 2, 1)).cmp(&car("a", 1, ymd(1970, 1, 31))), Ordering::Greater);
}

#[test]
fn name_is_folded_before_comparing() {
    let mut cars = vec![car("bentley", 110, None), car("Acura", 110, None)];
    sort_content(&mut cars);
    assert_eq!(names(&cars), vec!["Acura", "bentley"]);
}

#[test]
fn field_coercers() {
    assert_eq!(name_deserialize(Some(&text("x"))), "x");
    assert_eq!(f64::from_bits(miles_per_gallon_deserialize(Some(&integer(16)))), 16.0);
    assert_eq!(f64::from_bits(miles_per_gallon_deserialize(Some(&float(18.5)))), 18.5);
    assert_eq!(displacement_deserialize(Some(&integer(307))), None);
    assert_eq!(displacement_deserialize(Some(&text("307"))), Some(String::from("307")));
    assert_eq!(horsepower_deserialize(Some(&integer(255))), 255);
    assert_eq!(horsepower_deserialize(Some(&integer(256))), 0);
    assert_eq!(horsepower_deserialize(Some(&float(130.0))), 0);
    assert_eq!(weight_deserialize(Some(&integer(65535))), 65535);
    assert_eq!(weight_deserialize(Some(&integer(65536))), 0);
    assert_eq!(cylinders_deserialize(Some(&integer(-3))), -3);
    assert_eq!(cylinders_deserialize(Some(&integer(1i128 << 40))), 0);
    assert_eq!(year_deserialize(Some(&text("1982-02-28"))), Ok(ymd(1982, 2, 28)));
    assert_eq!(year_deserialize(Some(&integer(1982))), Ok(None));
    assert_eq!(year_deserialize(Some(&text("1982"))), Err(Reason::NotADate));
}

#[test]
fn defaults() {
    assert_eq!(default_values::horsepower(), 0);
    assert_eq!(default_values::cylinders(), 0);
    assert_eq!(default_values::miles_per_gallon(), 0.0f64.to_bits());
    assert_eq!(default_values::displacement(), None);
    assert_eq!(default_values::acceleration(), 0);
}

#[test]
fn year_text_round_trip() {
    assert_eq!(year_serialize(&ymd(1970, 1, 1)), Some(String::from("1970-01-01")));
    assert_eq!(year_serialize(&ymd(982, 3, 9)), Some(String::from("0982-03-09")));
    assert_eq!(year_serialize(&None), None);
    assert_eq!(Date::parse_iso("1999-12-31"), Some(Date { year: 1999, month: 12, day: 31 }));
    assert_eq!(Date::parse_iso("1999-02-30"), None);
}

#[test]
fn truncation_of_doubles() {
    for x in [0.0, -0.0, 0.5, -0.5, 1.0, 18.8, -18.8, 1e15 + 0.5, 9.3e18, -9.3e18, 1e300] {
        assert_eq!(truncate_double(f64::to_bits(x)), x as i64);
    }
    assert_eq!(truncate_double(f64::INFINITY.to_bits()), i64::MAX);
    assert_eq!(truncate_double(f64::NEG_INFINITY.to_bits()), i64::MIN);
    assert_eq!(truncate_double(f64::NAN.to_bits()), 0);
    assert_eq!(truncate_double(f64::MIN_POSITIVE.to_bits()), 0);
    assert_eq!(truncate_double((-9223372036854775808.0f64).to_bits()), i64::MIN);
}

#[test]
fn digits_of_text() {
    assert_eq!(parse_digits("a1b2c3"), Ok(123));
    assert_eq!(parse_digits("9223372036854775807"), Ok(i64::MAX));
    assert_eq!(parse_digits("9223372036854775808"), Err(DigitsError::TooLarge));
    assert_eq!(parse_digits(""), Err(DigitsError::NoDigits));
    assert_eq!(parse_digits("٣"), Err(DigitsError::NoDigits));
}

#[test]
fn member_lookup() {
    let ms = vec![
        (String::from("Name"), text("first")),
        (String::from("Name"), text("second")),
    ];
    assert!(matches!(get_member(&ms, "Name"), Some(JsonValue::Str(s)) if s == "first"));
    assert!(get_member(&ms, "name").is_none());
    assert!(same_text("héllo", "héllo"));
    assert!(!same_text("hello", "hell"));
}
