//! The normalised automobile record, and how one is built from a JSON object.
use vstd::prelude::*;
use crate::json::{JsonValue, member, get_member, lemma_absent_key};
use crate::date::Date;
use crate::coerce::{
    Reason, deref_opt, name_of, miles_per_gallon_of, displacement_of, horsepower_of, weight_of,
    cylinders_of, year_of, acceleration_of, name_deserialize, miles_per_gallon_deserialize,
    displacement_deserialize, horsepower_deserialize, weight_deserialize, cylinders_deserialize,
    year_deserialize, acceleration_deserialize,
};

verus! {

/// A normalised automobile record.
#[derive(Debug)]
pub struct Car {
    pub name: String,
    /// Miles per gallon, as the bit pattern of a double.
    pub miles_per_galon: u64,
    pub displacement: Option<String>,
    pub horsepower: u8,
    pub weight_in_lbs: u16,
    pub cylinders: i32,
    pub year: Option<Date>,
    pub acceleration: i64,
}

/// What a `Car` holds, with its texts as character sequences.
pub struct CarView {
    pub name: Seq<char>,
    pub miles_per_galon: u64,
    pub displacement: Option<Seq<char>>,
    pub horsepower: u8,
    pub weight_in_lbs: u16,
    pub cylinders: i32,
    pub year: Option<Date>,
    pub acceleration: i64,
}

impl View for Car {
    type V = CarView;

    open spec fn view(&self) -> CarView {
        CarView {
            name: self.name@,
            miles_per_galon: self.miles_per_galon,
            displacement: match self.displacement {
                Some(d) => Some(d@),
                None => None,
            },
            horsepower: self.horsepower,
            weight_in_lbs: self.weight_in_lbs,
            cylinders: self.cylinders,
            year: self.year,
            acceleration: self.acceleration,
        }
    }
}

/// A field whose value could not be read.
#[derive(PartialEq, Eq, Structural, Clone, Copy, Debug)]
pub enum Field {
    Year,
    Acceleration,
}

/// The record that the members of a JSON object give, or the first field,
/// in the order year, acceleration, that cannot be read.
pub open spec fn car_of(ms: Seq<(String, JsonValue)>) -> Result<CarView, (Field, Reason)> {
    match year_of(member(ms, "Year"@)) {
        Err(e) => Err((Field::Year, e)),
        Ok(year) => match acceleration_of(member(ms, "Acceleration"@)) {
            Err(e) => Err((Field::Acceleration, e)),
            Ok(acceleration) => Ok(CarView {
                name: name_of(member(ms, "Name"@)),
                miles_per_galon: miles_per_gallon_of(member(ms, "Miles_per_Gallon"@)),
                displacement: displacement_of(member(ms, "Displacement"@)),
                horsepower: horsepower_of(member(ms, "Horsepower"@)),
                weight_in_lbs: weight_of(member(ms, "Weight_in_lbs"@)),
                cylinders: cylinders_of(member(ms, "Cylinders"@)),
                year,
                acceleration,
            }),
        },
    }
}

/// The record with every field at its default.
pub open spec fn default_car() -> CarView {
    CarView {
        name: Seq::empty(),
        miles_per_galon: 0,
        displacement: None,
        horsepower: 0,
        weight_in_lbs: 0,
        cylinders: 0,
        year: None,
        acceleration: 0,
    }
}

/// Whether some member of `ms` carries one of the record's keys.
pub open spec fn has_record_key(ms: Seq<(String, JsonValue)>) -> bool {
    exists|k: int| 0 <= k < ms.len() && {
        let key = (#[trigger] ms[k]).0@;
        key == "Name"@ || key == "Miles_per_Gallon"@ || key == "Displacement"@ || key == "Horsepower"@
            || key == "Weight_in_lbs"@ || key == "Cylinders"@ || key == "Year"@ || key == "Acceleration"@
    }
}

/// An object that carries none of the record's keys, such as a record
/// written out in the lower-case canonical form, reads as the default
/// record.
pub proof fn lemma_foreign_keys_read_as_default(ms: Seq<(String, JsonValue)>)
    requires
        !has_record_key(ms),
    ensures
        car_of(ms) == Ok::<CarView, (Field, Reason)>(default_car()),
{
    lemma_absent_key(ms, "Name"@, 0);
    lemma_absent_key(ms, "Miles_per_Gallon"@, 0);
    lemma_absent_key(ms, "Displacement"@, 0);
    lemma_absent_key(ms, "Horsepower"@, 0);
    lemma_absent_key(ms, "Weight_in_lbs"@, 0);
    lemma_absent_key(ms, "Cylinders"@, 0);
    lemma_absent_key(ms, "Year"@, 0);
    lemma_absent_key(ms, "Acceleration"@, 0);
}

proof fn lemma_deref_member(ms: Seq<(String, JsonValue)>, key: Seq<char>, r: Option<&JsonValue>)
    requires
        match r {
            Some(v) => member(ms, key) == Some(*v),
            None => member(ms, key) is None,
        },
    ensures
        deref_opt(r) == member(ms, key),
{
}

impl Car {
    /// Builds the record that the members of a JSON object describe. Keys
    /// other than the record's are ignored; a missing or mistyped field
    /// takes its default.
    pub fn from_members(ms: &Vec<(String, JsonValue)>) -> (r: Result<Car, (Field, Reason)>)
        ensures
            match r {
                Ok(c) => car_of(ms@) == Ok::<CarView, (Field, Reason)>(c@),
                Err(e) => car_of(ms@) == Err::<CarView, (Field, Reason)>(e),
            },
    {
        let v = get_member(ms, "Year");
        proof { lemma_deref_member(ms@, "Year"@, v); }
        let year = match year_deserialize(v) {
            Ok(y) => y,
            Err(e) => return Err((Field::Year, e)),
        };
        let v = get_member(ms, "Acceleration");
        proof { lemma_deref_member(ms@, "Acceleration"@, v); }
        let acceleration = match acceleration_deserialize(v) {
            Ok(a) => a,
            Err(e) => return Err((Field::Acceleration, e)),
        };
        let v = get_member(ms, "Name");
        proof { lemma_deref_member(ms@, "Name"@, v); }
        let name = name_deserialize(v);
        let v = get_member(ms, "Miles_per_Gallon");
        proof { lemma_deref_member(ms@, "Miles_per_Gallon"@, v); }
        let miles_per_galon = miles_per_gallon_deserialize(v);
        let v = get_member(ms, "Displacement");
        proof { lemma_deref_member(ms@, "Displacement"@, v); }
        let displacement = displacement_deserialize(v);
        let v = get_member(ms, "Horsepower");
        proof { lemma_deref_member(ms@, "Horsepower"@, v); }
        let horsepower = horsepower_deserialize(v);
        let v = get_member(ms, "Weight_in_lbs");
        proof { lemma_deref_member(ms@, "Weight_in_lbs"@, v); }
        let weight_in_lbs = weight_deserialize(v);
        let v = get_member(ms, "Cylinders");
        proof { lemma_deref_member(ms@, "Cylinders"@, v); }
        let cylinders = cylinders_deserialize(v);
        let c = Car {
            name,
            miles_per_galon,
            displacement,
            horsepower,
            weight_in_lbs,
            cylinders,
            year,
            acceleration,
        };
        assert(c@.displacement == displacement_of(member(ms@, "Displacement"@)));
        Ok(c)
    }
}

} // verus!
