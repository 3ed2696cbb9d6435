//! The bounded history of reports, and the document under which it is
//! saved.

use vstd::prelude::*;
use vstd::string::StringExecFns;
use crate::location::{
    lemma_location_entries, lemma_location_json_plain, location_json, location_of,
    location_reads_back, plain_location, Location, LocationModel,
};
use crate::roundtrip::{parse_inverts_render, plain, plain_text};
use crate::parser::{parse, parse_document, JsonError};
use crate::value::{
    has_key, lemma_lookup, lemma_put_new, models, render, value_of, JsonModel, JsonObject,
    JsonValue,
};

verus! {

/// The number of reports that a history holds at most.
pub const HISTORY_CAPACITY: usize = 1000;

/// The history after one more report: the report goes to the end, and
/// where that makes the history longer than it may be, the oldest report
/// leaves.
pub open spec fn record<T>(history: Seq<T>, report: T) -> Seq<T> {
    let all = history.push(report);
    if all.len() > HISTORY_CAPACITY {
        all.drop_first()
    } else {
        all
    }
}

/// The history after the reports of `reports`, recorded one by one in
/// their order.
pub open spec fn record_all<T>(history: Seq<T>, reports: Seq<T>) -> Seq<T>
    decreases reports.len(),
{
    if reports.len() == 0 {
        history
    } else {
        record(record_all(history, reports.drop_last()), reports.last())
    }
}

/// The last `n` items of `all` in their order, or all of them where there
/// are no more than `n`.
pub open spec fn newest<T>(all: Seq<T>, n: nat) -> Seq<T> {
    if all.len() <= n {
        all
    } else {
        all.skip(all.len() - n)
    }
}

/// A history within its capacity, after any reports, holds the newest of
/// all that it has seen, as many as fit.
pub proof fn lemma_record_all<T>(history: Seq<T>, reports: Seq<T>)
    requires
        history.len() <= HISTORY_CAPACITY,
    ensures
        record_all(history, reports) == newest(history + reports, HISTORY_CAPACITY as nat),
        record_all(history, reports).len() <= HISTORY_CAPACITY,
    decreases reports.len(),
{
    if reports.len() == 0 {
        assert(history + reports =~= history);
    } else {
        let init = reports.drop_last();
        lemma_record_all(history, init);
        assert((history + init).push(reports.last()) =~= history + reports);
        assert(record_all(history, reports) =~= newest(
            history + reports,
            HISTORY_CAPACITY as nat,
        ));
    }
}

/// After more reports than a history may hold, the history is exactly
/// full and holds the newest of them, in the order in which they came:
/// the oldest were dropped first.
pub proof fn history_keeps_the_newest<T>(history: Seq<T>, reports: Seq<T>)
    requires
        history.len() <= HISTORY_CAPACITY,
        reports.len() > HISTORY_CAPACITY,
    ensures
        record_all(history, reports).len() == HISTORY_CAPACITY,
        record_all(history, reports) == reports.skip(reports.len() - HISTORY_CAPACITY),
{
    lemma_record_all(history, reports);
    assert((history + reports).skip((history + reports).len() - HISTORY_CAPACITY) =~= reports.skip(
        reports.len() - HISTORY_CAPACITY,
    ));
}

/// After any reports the length of a history is the number of reports it
/// has seen, or its capacity where they were more.
pub proof fn history_length<T>(history: Seq<T>, reports: Seq<T>)
    requires
        history.len() <= HISTORY_CAPACITY,
    ensures
        record_all(history, reports).len() == if history.len() + reports.len()
            <= HISTORY_CAPACITY {
            history.len() + reports.len()
        } else {
            HISTORY_CAPACITY as nat
        },
{
    lemma_record_all(history, reports);
}

/// The mathematical forms of the reports of a sequence, one for each.
pub open spec fn views(locations: Seq<Location>) -> Seq<LocationModel> {
    Seq::new(locations.len(), |i: int| locations[i]@)
}

/// The mappings that stand for the reports of a history, one for each.
pub open spec fn location_jsons(history: Seq<LocationModel>) -> Seq<JsonModel> {
    Seq::new(history.len(), |i: int| location_json(history[i]))
}

/// The entries of the mapping that stands for a history.
pub open spec fn history_entries(history: Seq<LocationModel>) -> Seq<(Seq<char>, JsonModel)> {
    seq![("locations"@, JsonModel::List(location_jsons(history)))]
}

/// The mapping that stands for a history: its reports, oldest first, as a
/// list under `locations`.
pub open spec fn history_json(history: Seq<LocationModel>) -> JsonModel {
    JsonModel::Mapping(history_entries(history))
}

/// The reports among `items`, in their order: the items that stand for
/// none are passed over.
pub open spec fn locations_in(items: Seq<JsonModel>) -> Seq<LocationModel>
    decreases items.len(),
{
    if items.len() == 0 {
        Seq::empty()
    } else {
        let before = locations_in(items.drop_last());
        match location_of(items.last()) {
            Some(l) => before.push(l),
            None => before,
        }
    }
}

/// The history that a value stands for: a mapping with a list under
/// `locations`. The reports among the list's items are recorded in their
/// order.
pub open spec fn history_of(m: JsonModel) -> Option<Seq<LocationModel>> {
    match m {
        JsonModel::Mapping(entries) => {
            if has_key(entries, "locations"@) {
                match value_of(entries, "locations"@) {
                    JsonModel::List(items) => Some(
                        record_all(Seq::empty(), locations_in(items)),
                    ),
                    _ => None,
                }
            } else {
                None
            }
        },
        _ => None,
    }
}

/// The history that a saved text gives back: the history that the text
/// stands for, or the empty history where the text is no document or
/// stands for none.
pub open spec fn restored(parsed: Result<JsonModel, JsonError>) -> Seq<LocationModel> {
    match parsed {
        Ok(m) => match history_of(m) {
            Some(h) => h,
            None => Seq::empty(),
        },
        Err(_) => Seq::empty(),
    }
}

/// The reports of a history, written as mappings, read back as the same
/// reports.
pub proof fn lemma_locations_read_back(history: Seq<LocationModel>)
    ensures
        locations_in(location_jsons(history)) == history,
    decreases history.len(),
{
    let items = location_jsons(history);
    if history.len() == 0 {
        assert(locations_in(items) =~= history);
    } else {
        lemma_locations_read_back(history.drop_last());
        assert(items.drop_last() =~= location_jsons(history.drop_last()));
        location_reads_back(history.last());
        assert(items.last() == location_json(history.last()));
        assert(history.drop_last().push(history.last()) =~= history);
    }
}

/// A history within its capacity, written as a mapping, reads back as the
/// same history.
pub proof fn history_reads_back(history: Seq<LocationModel>)
    requires
        history.len() <= HISTORY_CAPACITY,
    ensures
        history_of(history_json(history)) == Some(history),
{
    let e = history_entries(history);
    assert(e[0].0 == "locations"@);
    lemma_lookup(e, 0);
    lemma_locations_read_back(history);
    lemma_record_all(Seq::<LocationModel>::empty(), history);
    assert(Seq::<LocationModel>::empty() + history =~= history);
}

/// What is saved is what is restored: the text under which a history is
/// saved gives the same history back, where the history is within its
/// capacity, the numbers of its reports are number literals, and their
/// texts hold no line feed, carriage return or tab.
pub proof fn saved_history_is_restored(history: Seq<LocationModel>)
    requires
        history.len() <= HISTORY_CAPACITY,
        forall|i: int| 0 <= i < history.len() ==> (#[trigger] history[i]).wf(),
        forall|i: int| 0 <= i < history.len() ==> plain_location(#[trigger] history[i]),
    ensures
        restored(parse_document(render(history_json(history)))) == history,
{
    let m = history_json(history);
    let e = history_entries(history);
    let items = location_jsons(history);
    assert forall|i: int| 0 <= i < items.len() implies (#[trigger] items[i]).wf() && plain(
        items[i],
    ) by {
        lemma_location_entries(history[i]);
        lemma_location_json_plain(history[i]);
    }
    assert(e[0].1 == JsonModel::List(items));
    assert(e[0].1.wf());
    assert(plain(e[0].1));
    assert(plain_text(e[0].0)) by {
        reveal_strlit("locations");
        assert("locations"@ =~= seq!['l', 'o', 'c', 'a', 't', 'i', 'o', 'n', 's']);
    }
    assert(m.wf());
    assert(plain(m));
    parse_inverts_render(m);
    history_reads_back(history);
}

/// The reports that the tracker has seen, oldest first, as many as fit.
#[derive(Debug, PartialEq)]
pub struct LocationHistory {
    locations: Vec<Location>,
}

impl View for LocationHistory {
    type V = Seq<LocationModel>;

    closed spec fn view(&self) -> Seq<LocationModel> {
        views(self.locations@)
    }
}

/// Takes the report in and lets the oldest go where there are too many.
fn record_in(locations: &mut Vec<Location>, report: Location)
    requires
        old(locations).len() <= HISTORY_CAPACITY,
    ensures
        views(final(locations)@) == record(views(old(locations)@), report@),
        final(locations).len() <= HISTORY_CAPACITY,
{
    locations.push(report);
    assert(views(locations@) =~= views(old(locations)@).push(report@));
    if locations.len() > HISTORY_CAPACITY {
        let ghost full = locations@;
        locations.remove(0);
        assert(views(locations@) =~= views(full).drop_first());
    }
}

impl LocationHistory {
    #[verifier::type_invariant]
    spec fn well_formed(&self) -> bool {
        self.locations.len() <= HISTORY_CAPACITY
    }

    /// The empty history.
    pub fn new() -> (history: LocationHistory)
        ensures
            history@ == Seq::<LocationModel>::empty(),
    {
        let history = LocationHistory { locations: Vec::new() };
        assert(history@ =~= Seq::<LocationModel>::empty());
        history
    }

    /// The number of reports held.
    pub fn len(&self) -> (n: usize)
        ensures
            n == self@.len(),
            n <= HISTORY_CAPACITY,
    {
        proof {
            use_type_invariant(self);
        }
        self.locations.len()
    }

    /// The report at place `i`, counted from the oldest.
    pub fn get(&self, i: usize) -> (report: &Location)
        requires
            i < self@.len(),
        ensures
            report@ == self@[i as int],
    {
        &self.locations[i]
    }

    /// Records one more report: it goes to the end, and the oldest report
    /// leaves where the history would hold more than it may.
    pub fn record(&mut self, report: Location)
        ensures
            final(self)@ == record(old(self)@, report@),
    {
        proof {
            use_type_invariant(&*self);
        }
        let mut locations: Vec<Location> = Vec::new();
        core::mem::swap(&mut self.locations, &mut locations);
        record_in(&mut locations, report);
        core::mem::swap(&mut self.locations, &mut locations);
    }

    /// Drops every report.
    pub fn clear(&mut self)
        ensures
            final(self)@ == Seq::<LocationModel>::empty(),
    {
        let mut locations: Vec<Location> = Vec::new();
        core::mem::swap(&mut self.locations, &mut locations);
        assert(self@ =~= Seq::<LocationModel>::empty());
    }

    /// The mapping that stands for the history.
    pub fn to_json(&self) -> (json: JsonValue)
        ensures
            json@ == history_json(self@),
            forall|i: int| 0 <= i < self@.len() ==> (#[trigger] self@[i]).wf(),
    {
        let mut items: Vec<JsonValue> = Vec::new();
        let mut i: usize = 0;
        assert(models(items@) =~= location_jsons(self@.take(0)));
        while i < self.locations.len()
            invariant
                i <= self.locations.len(),
                self@.len() == self.locations.len(),
                models(items@) == location_jsons(self@.take(i as int)),
                forall|k: int| 0 <= k < i ==> (#[trigger] self@[k]).wf(),
            decreases self.locations.len() - i,
        {
            let item = self.locations[i].to_json();
            let ghost before = items@;
            let ghost model = item@;
            items.push(item);
            proof {
                assert(self@[i as int] == self.locations[i as int]@);
                assert(models(items@) =~= models(before).push(model));
                assert(location_jsons(self@.take(i + 1)) =~= location_jsons(
                    self@.take(i as int),
                ).push(location_json(self@[i as int])));
            }
            i += 1;
        }
        assert(self@.take(i as int) =~= self@);
        let mut map = JsonObject::new();
        let list = JsonValue::Array(items);
        proof {
            lemma_put_new(map@, "locations"@, list@);
        }
        map.insert(String::from_str("locations"), list);
        assert(map@ =~= history_entries(self@));
        JsonValue::Object(map)
    }

    /// The history that `json` stands for, if it stands for one.
    pub fn from_json(json: &JsonValue) -> (r: Option<LocationHistory>)
        ensures
            match r {
                Some(h) => history_of(json@) == Some(h@),
                None => history_of(json@) is None,
            },
    {
        let map = match json {
            JsonValue::Object(map) => map,
            _ => {
                return None;
            },
        };
        let items = match map.get("locations") {
            Some(JsonValue::Array(items)) => items,
            _ => {
                return None;
            },
        };
        let ghost all = models(items@);
        let mut locations: Vec<Location> = Vec::new();
        let mut i: usize = 0;
        assert(all.take(0) =~= Seq::<JsonModel>::empty());
        assert(views(locations@) =~= Seq::<LocationModel>::empty());
        while i < items.len()
            invariant
                i <= items.len(),
                all == models(items@),
                locations.len() <= HISTORY_CAPACITY,
                views(locations@) == record_all(Seq::empty(), locations_in(all.take(i as int))),
            decreases items.len() - i,
        {
            proof {
                assert(all.take(i + 1).drop_last() =~= all.take(i as int));
                assert(all.take(i + 1).last() == items[i as int]@);
            }
            match Location::from_json(&items[i]) {
                Some(l) => {
                    proof {
                        let found = locations_in(all.take(i as int));
                        assert(found.push(l@).drop_last() =~= found);
                    }
                    record_in(&mut locations, l);
                },
                None => {},
            }
            i += 1;
        }
        assert(all.take(i as int) =~= all);
        Some(LocationHistory { locations })
    }

    /// The history that a saved text gives back. A text that is no
    /// document, or that stands for no history, gives the empty history.
    pub fn restore(data: &str) -> (history: LocationHistory)
        ensures
            history@ == restored(parse_document(data@)),
    {
        match parse(data) {
            Ok(json) => match LocationHistory::from_json(&json) {
                Some(history) => history,
                None => LocationHistory::new(),
            },
            Err(_) => LocationHistory::new(),
        }
    }

    /// The text under which the history is saved: the compact text of the
    /// mapping that stands for it.
    pub fn saved(&self) -> (text: String)
        ensures
            text@ == render(history_json(self@)),
            forall|i: int| 0 <= i < self@.len() ==> (#[trigger] self@[i]).wf(),
    {
        self.to_json().to_string()
    }
}

} // verus!
