use location_tracker::decimal::push_decimal;
use location_tracker::history::LocationHistory;
use location_tracker::http::Route;
use location_tracker::location::Location;
use location_tracker::number::{check_number_literal, Number};
use location_tracker::store::{AppState, Response};
use location_tracker::text::{chars_of, same_text, string_of};
use location_tracker::value::{JsonObject, JsonValue};

#[test]
fn texts_are_taken_apart_and_put_together() {
    assert_eq!(chars_of("a\u{e9}\u{1f600}"), vec!['a', '\u{e9}', '\u{1f600}']);
    assert_eq!(chars_of(""), Vec::<char>::new());
    let chars = chars_of("hello");
    assert_eq!(string_of(&chars, 1, 4), "ell");
    assert_eq!(string_of(&chars, 0, 5), "hello");
    assert_eq!(string_of(&chars, 2, 2), "");
    assert!(same_text("GET", "GET"));
    assert!(!same_text("GET", "GEt"));
    assert!(!same_text("GET", "GE"));
    assert!(same_text("", ""));
}

#[test]
fn number_literals_are_checked_scalar_by_scalar() {
    assert!(check_number_literal(&chars_of("-12.5e+3")));
    assert!(!check_number_literal(&chars_of("12.5e+")));
    assert!(!check_number_literal(&chars_of("\u{663}")));
    assert_eq!(Number::from_chars(&chars_of("3.25")).unwrap().as_str(), "3.25");
    assert!(Number::from_chars(&chars_of("3.2.5")).is_none());
    assert_eq!(Number::new("8").unwrap().clone(), Number::new("8").unwrap());
}

#[test]
fn values_are_written_behind_what_is_there() {
    let mut out = String::from("x=");
    JsonValue::Array(vec![JsonValue::Bool(true)]).write_to(&mut out);
    assert_eq!(out, "x=[true]");
    let mut map = JsonObject::new();
    map.insert("k".to_string(), JsonValue::Null);
    map.write_to(&mut out);
    assert_eq!(out, "x=[true]{\"k\":null}");
    push_decimal(905, &mut out);
    assert_eq!(out, "x=[true]{\"k\":null}905");
}

#[test]
fn requests_are_handled_by_their_route() {
    let mut state = AppState::new(LocationHistory::new());
    let taken = state.handle(Route::UpdateLocation, "{\"latitude\":1,\"longitude\":2}", 77, "");
    assert_eq!(taken.response, Response::location_updated());
    assert_eq!(
        taken.saved.as_deref(),
        Some("{\"locations\":[{\"latitude\":1,\"longitude\":2,\"accuracy\":null,\"timestamp\":\"77\",\"device_name\":\"Unknown Device\"}]}")
    );
    let current = state.handle(Route::CurrentLocation, "", 78, "");
    assert_eq!(current.response, Response::current_location(&state.current_location));
    let listed = state.handle(Route::History, "", 78, "");
    assert_eq!(listed.response, Response::history(&state.history));
    assert_eq!(listed.response.body, state.history.to_json().to_string());
    let refused = state.handle(Route::UpdateLocation, "[]", 79, "");
    assert_eq!(refused.response, Response::invalid_json());
    let missing = state.handle(Route::NotFound, "", 79, "");
    assert_eq!(missing.response, Response::not_found());
    let page = state.handle(Route::Index, "", 79, "<p>");
    assert_eq!(page.response, Response::page("<p>"));
    let cleared = state.handle(Route::ClearHistory, "", 80, "");
    assert_eq!(cleared.response, Response::history_cleared());
    assert_eq!(state.history.len(), 0);
    assert_eq!(state.current_location.as_ref().unwrap().timestamp, "77");
    assert_eq!(Response::bad_request().status, 400);
    assert_eq!(Response::not_found().content_type, "text/plain");
    let mut history = LocationHistory::new();
    history.record(Location::from_body("{\"latitude\":1,\"longitude\":2}", 1).unwrap());
    history.clear();
    assert_eq!(history, LocationHistory::new());
}
