//! Reports of where a device is, and the documents that stand for them.

use vstd::prelude::*;
use vstd::string::StringExecFns;
use crate::decimal::{decimal, to_decimal};
use crate::number::{is_number_literal, Number};
use crate::parser::{outcome_model, parse, parse_document, JsonError};
use crate::roundtrip::{plain, plain_text};
use crate::value::{
    has_key, lemma_lookup, lemma_put_new, unique_keys, value_of, JsonModel, JsonObject,
    JsonValue,
};

verus! {

/// One report of where a device is.
#[derive(Debug, PartialEq)]
pub struct Location {
    pub latitude: Number,
    pub longitude: Number,
    pub accuracy: Option<Number>,
    pub timestamp: String,
    pub device_name: String,
}

/// The mathematical form of a report: each number as it is written.
pub struct LocationModel {
    pub latitude: Seq<char>,
    pub longitude: Seq<char>,
    pub accuracy: Option<Seq<char>>,
    pub timestamp: Seq<char>,
    pub device_name: Seq<char>,
}

impl View for Location {
    type V = LocationModel;

    open spec fn view(&self) -> LocationModel {
        LocationModel {
            latitude: self.latitude@,
            longitude: self.longitude@,
            accuracy: match self.accuracy {
                Some(a) => Some(a@),
                None => None,
            },
            timestamp: self.timestamp@,
            device_name: self.device_name@,
        }
    }
}

impl LocationModel {
    /// Whether each number of the report is a number literal.
    pub open spec fn wf(self) -> bool {
        &&& is_number_literal(self.latitude)
        &&& is_number_literal(self.longitude)
        &&& self.accuracy matches Some(a) ==> is_number_literal(a)
    }
}

/// The name that a report carries where the device gave none.
pub open spec fn unknown_device() -> Seq<char> {
    "Unknown Device"@
}

/// The entries of the mapping that stands for a report, in the order in
/// which they are written.
pub open spec fn location_entries(l: LocationModel) -> Seq<(Seq<char>, JsonModel)> {
    seq![
        ("latitude"@, JsonModel::Number(l.latitude)),
        ("longitude"@, JsonModel::Number(l.longitude)),
        (
            "accuracy"@,
            match l.accuracy {
                Some(a) => JsonModel::Number(a),
                None => JsonModel::Null,
            },
        ),
        ("timestamp"@, JsonModel::Text(l.timestamp)),
        ("device_name"@, JsonModel::Text(l.device_name)),
    ]
}

/// The mapping that stands for a report.
pub open spec fn location_json(l: LocationModel) -> JsonModel {
    JsonModel::Mapping(location_entries(l))
}

/// The number under `key`, where the key is present and holds a number.
pub open spec fn number_under(entries: Seq<(Seq<char>, JsonModel)>, key: Seq<char>) -> Option<
    Seq<char>,
> {
    if has_key(entries, key) {
        match value_of(entries, key) {
            JsonModel::Number(t) => Some(t),
            _ => None,
        }
    } else {
        None
    }
}

/// The text under `key`, where the key is present and holds a text.
pub open spec fn text_under(entries: Seq<(Seq<char>, JsonModel)>, key: Seq<char>) -> Option<
    Seq<char>,
> {
    if has_key(entries, key) {
        match value_of(entries, key) {
            JsonModel::Text(t) => Some(t),
            _ => None,
        }
    } else {
        None
    }
}

/// The report that a value stands for: a mapping with numbers under
/// `latitude` and `longitude` and texts under `timestamp` and
/// `device_name`. The accuracy is the number under `accuracy`, if there is
/// one.
pub open spec fn location_of(m: JsonModel) -> Option<LocationModel> {
    match m {
        JsonModel::Mapping(entries) => {
            let latitude = number_under(entries, "latitude"@);
            let longitude = number_under(entries, "longitude"@);
            let timestamp = text_under(entries, "timestamp"@);
            let device_name = text_under(entries, "device_name"@);
            if latitude is Some && longitude is Some && timestamp is Some && device_name is Some {
                Some(
                    LocationModel {
                        latitude: latitude->0,
                        longitude: longitude->0,
                        accuracy: number_under(entries, "accuracy"@),
                        timestamp: timestamp->0,
                        device_name: device_name->0,
                    },
                )
            } else {
                None
            }
        },
        _ => None,
    }
}

/// The report that the body of an update asks for, at the time `now` in
/// seconds: the body must parse to a mapping with numbers under `latitude`
/// and `longitude`. The accuracy is the number under `accuracy`, if there
/// is one; the device's name is the text under `device_name`, or the fixed
/// name where there is no such text; the timestamp is the decimal numeral
/// of `now`.
pub open spec fn report_of(parsed: Result<JsonModel, JsonError>, now: nat) -> Option<
    LocationModel,
> {
    match parsed {
        Ok(JsonModel::Mapping(entries)) => {
            let latitude = number_under(entries, "latitude"@);
            let longitude = number_under(entries, "longitude"@);
            if latitude is Some && longitude is Some {
                Some(
                    LocationModel {
                        latitude: latitude->0,
                        longitude: longitude->0,
                        accuracy: number_under(entries, "accuracy"@),
                        timestamp: decimal(now),
                        device_name: match text_under(entries, "device_name"@) {
                            Some(name) => name,
                            None => unknown_device(),
                        },
                    },
                )
            } else {
                None
            }
        },
        _ => None,
    }
}

/// The five keys of a report differ from one another.
pub proof fn lemma_keys_differ()
    ensures
        "latitude"@ != "longitude"@,
        "latitude"@ != "accuracy"@,
        "latitude"@ != "timestamp"@,
        "latitude"@ != "device_name"@,
        "longitude"@ != "accuracy"@,
        "longitude"@ != "timestamp"@,
        "longitude"@ != "device_name"@,
        "accuracy"@ != "timestamp"@,
        "accuracy"@ != "device_name"@,
        "timestamp"@ != "device_name"@,
{
    reveal_strlit("latitude");
    reveal_strlit("longitude");
    reveal_strlit("accuracy");
    reveal_strlit("timestamp");
    reveal_strlit("device_name");
    assert("latitude"@.len() == 8);
    assert("longitude"@.len() == 9);
    assert("accuracy"@.len() == 8);
    assert("timestamp"@.len() == 9);
    assert("device_name"@.len() == 11);
    assert("latitude"@[0] == 'l');
    assert("accuracy"@[0] == 'a');
    assert("longitude"@[0] == 'l');
    assert("timestamp"@[0] == 't');
}

/// No key occurs twice among the entries that stand for a report.
pub proof fn lemma_location_entries(l: LocationModel)
    ensures
        unique_keys(location_entries(l)),
        l.wf() ==> location_json(l).wf(),
{
    lemma_keys_differ();
    let e = location_entries(l);
    assert(e.len() == 5);
    assert(e[0].0 == "latitude"@);
    assert(e[1].0 == "longitude"@);
    assert(e[2].0 == "accuracy"@);
    assert(e[3].0 == "timestamp"@);
    assert(e[4].0 == "device_name"@);
    if l.wf() {
        assert forall|i: int| 0 <= i < e.len() implies (#[trigger] e[i]).1.wf() by {
            if i == 0 {
                assert(e[0].1 == JsonModel::Number(l.latitude));
            } else if i == 1 {
                assert(e[1].1 == JsonModel::Number(l.longitude));
            } else if i == 2 {
                assert(e[2].1 == match l.accuracy {
                    Some(a) => JsonModel::Number(a),
                    None => JsonModel::Null,
                });
            } else if i == 3 {
                assert(e[3].1 == JsonModel::Text(l.timestamp));
            } else {
                assert(e[4].1 == JsonModel::Text(l.device_name));
            }
        }
    }
}

/// Whether the texts of a report read back as written.
pub open spec fn plain_location(l: LocationModel) -> bool {
    plain_text(l.timestamp) && plain_text(l.device_name)
}

/// The five keys of a report read back as written.
pub proof fn lemma_plain_keys()
    ensures
        plain_text("latitude"@),
        plain_text("longitude"@),
        plain_text("accuracy"@),
        plain_text("timestamp"@),
        plain_text("device_name"@),
{
    reveal_strlit("latitude");
    reveal_strlit("longitude");
    reveal_strlit("accuracy");
    reveal_strlit("timestamp");
    reveal_strlit("device_name");
    assert("latitude"@ =~= seq!['l', 'a', 't', 'i', 't', 'u', 'd', 'e']);
    assert("longitude"@ =~= seq!['l', 'o', 'n', 'g', 'i', 't', 'u', 'd', 'e']);
    assert("accuracy"@ =~= seq!['a', 'c', 'c', 'u', 'r', 'a', 'c', 'y']);
    assert("timestamp"@ =~= seq!['t', 'i', 'm', 'e', 's', 't', 'a', 'm', 'p']);
    assert("device_name"@ =~= seq!['d', 'e', 'v', 'i', 'c', 'e', '_', 'n', 'a', 'm', 'e']);
}

/// The mapping that stands for a report whose texts read back as written
/// holds only texts and keys that do.
pub proof fn lemma_location_json_plain(l: LocationModel)
    requires
        plain_location(l),
    ensures
        plain(location_json(l)),
{
    lemma_plain_keys();
    let e = location_entries(l);
    assert forall|i: int| 0 <= i < e.len() implies plain_text((#[trigger] e[i]).0) && plain(
        e[i].1,
    ) by {
        if i == 0 {
            assert(e[0].0 == "latitude"@);
            assert(e[0].1 == JsonModel::Number(l.latitude));
        } else if i == 1 {
            assert(e[1].0 == "longitude"@);
            assert(e[1].1 == JsonModel::Number(l.longitude));
        } else if i == 2 {
            assert(e[2].0 == "accuracy"@);
            assert(e[2].1 == match l.accuracy {
                Some(a) => JsonModel::Number(a),
                None => JsonModel::Null,
            });
        } else if i == 3 {
            assert(e[3].0 == "timestamp"@);
            assert(e[3].1 == JsonModel::Text(l.timestamp));
        } else {
            assert(e[4].0 == "device_name"@);
            assert(e[4].1 == JsonModel::Text(l.device_name));
        }
    }
}

/// A report written as a mapping reads back as the same report.
pub proof fn location_reads_back(l: LocationModel)
    ensures
        location_of(location_json(l)) == Some(l),
{
    let e = location_entries(l);
    lemma_location_entries(l);
    lemma_lookup(e, 0);
    lemma_lookup(e, 1);
    lemma_lookup(e, 2);
    lemma_lookup(e, 3);
    lemma_lookup(e, 4);
    assert(e[0].0 == "latitude"@);
    assert(e[1].0 == "longitude"@);
    assert(e[2].0 == "accuracy"@);
    assert(e[3].0 == "timestamp"@);
    assert(e[4].0 == "device_name"@);
}

/// The number under `key` in `map`, if the key holds one.
fn number_at(map: &JsonObject, key: &str) -> (r: Option<Number>)
    ensures
        match r {
            Some(n) => number_under(map@, key@) == Some(n@),
            None => number_under(map@, key@) is None,
        },
{
    match map.get(key) {
        Some(v) => match v.as_f64() {
            Some(n) => Some(n.clone()),
            None => None,
        },
        None => None,
    }
}

/// The text under `key` in `map`, if the key holds one.
fn text_at(map: &JsonObject, key: &str) -> (r: Option<String>)
    ensures
        match r {
            Some(t) => text_under(map@, key@) == Some(t@),
            None => text_under(map@, key@) is None,
        },
{
    match map.get(key) {
        Some(v) => match v.as_str() {
            Some(t) => Some(String::from_str(t)),
            None => None,
        },
        None => None,
    }
}

impl Clone for Location {
    fn clone(&self) -> (r: Location)
        ensures
            r@ == self@,
    {
        Location {
            latitude: self.latitude.clone(),
            longitude: self.longitude.clone(),
            accuracy: match &self.accuracy {
                Some(a) => Some(a.clone()),
                None => None,
            },
            timestamp: self.timestamp.clone(),
            device_name: self.device_name.clone(),
        }
    }
}

impl Location {
    /// The mapping that stands for the report.
    pub fn to_json(&self) -> (json: JsonValue)
        ensures
            json@ == location_json(self@),
            self@.wf(),
    {
        proof {
            lemma_keys_differ();
        }
        let ghost l = self@;
        let ghost e = location_entries(l);
        let mut map = JsonObject::new();
        let latitude = JsonValue::Number(self.latitude.clone());
        proof {
            lemma_put_new(map@, "latitude"@, latitude@);
        }
        map.insert(String::from_str("latitude"), latitude);
        assert(map@ =~= e.take(1));
        let longitude = JsonValue::Number(self.longitude.clone());
        proof {
            lemma_put_new(map@, "longitude"@, longitude@);
        }
        map.insert(String::from_str("longitude"), longitude);
        assert(map@ =~= e.take(2));
        let accuracy = match &self.accuracy {
            Some(a) => JsonValue::Number(a.clone()),
            None => JsonValue::Null,
        };
        proof {
            lemma_put_new(map@, "accuracy"@, accuracy@);
        }
        map.insert(String::from_str("accuracy"), accuracy);
        assert(map@ =~= e.take(3));
        let timestamp = JsonValue::String(self.timestamp.clone());
        proof {
            lemma_put_new(map@, "timestamp"@, timestamp@);
        }
        map.insert(String::from_str("timestamp"), timestamp);
        assert(map@ =~= e.take(4));
        let device_name = JsonValue::String(self.device_name.clone());
        proof {
            lemma_put_new(map@, "device_name"@, device_name@);
        }
        map.insert(String::from_str("device_name"), device_name);
        assert(map@ =~= e);
        JsonValue::Object(map)
    }

    /// The report that `json` stands for, if it stands for one.
    pub fn from_json(json: &JsonValue) -> (r: Option<Location>)
        ensures
            match r {
                Some(l) => location_of(json@) == Some(l@),
                None => location_of(json@) is None,
            },
    {
        match json {
            JsonValue::Object(map) => {
                let latitude = match number_at(map, "latitude") {
                    Some(n) => n,
                    None => {
                        return None;
                    },
                };
                let longitude = match number_at(map, "longitude") {
                    Some(n) => n,
                    None => {
                        return None;
                    },
                };
                let accuracy = number_at(map, "accuracy");
                let timestamp = match text_at(map, "timestamp") {
                    Some(t) => t,
                    None => {
                        return None;
                    },
                };
                let device_name = match text_at(map, "device_name") {
                    Some(t) => t,
                    None => {
                        return None;
                    },
                };
                Some(Location { latitude, longitude, accuracy, timestamp, device_name })
            },
            _ => None,
        }
    }

    /// The report that the parsed body of an update asks for, at the time
    /// `now` in seconds.
    fn from_update(parsed: &Result<JsonValue, JsonError>, now: u64) -> (r: Option<Location>)
        ensures
            match r {
                Some(l) => report_of(outcome_model(*parsed), now as nat) == Some(l@),
                None => report_of(outcome_model(*parsed), now as nat) is None,
            },
    {
        match parsed {
            Ok(JsonValue::Object(map)) => {
                let latitude = match number_at(map, "latitude") {
                    Some(n) => n,
                    None => {
                        return None;
                    },
                };
                let longitude = match number_at(map, "longitude") {
                    Some(n) => n,
                    None => {
                        return None;
                    },
                };
                let accuracy = number_at(map, "accuracy");
                let device_name = match text_at(map, "device_name") {
                    Some(t) => t,
                    None => String::from_str("Unknown Device"),
                };
                let timestamp = to_decimal(now);
                Some(Location { latitude, longitude, accuracy, timestamp, device_name })
            },
            _ => None,
        }
    }

    /// The report that the body of an update asks for, at the time `now`
    /// in seconds.
    pub fn from_body(body: &str, now: u64) -> (r: Option<Location>)
        ensures
            match r {
                Some(l) => report_of(parse_document(body@), now as nat) == Some(l@),
                None => report_of(parse_document(body@), now as nat) is None,
            },
    {
        let parsed = parse(body);
        Location::from_update(&parsed, now)
    }
}

} // verus!
