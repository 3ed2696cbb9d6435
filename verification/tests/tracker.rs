use location_tracker::decimal::{parse_usize, to_decimal};
use location_tracker::history::{LocationHistory, HISTORY_CAPACITY};
use location_tracker::http::{
    body_length, head, header_content_length, parse_request_line, reason, route, Route,
};
use location_tracker::location::Location;
use location_tracker::number::Number;
use location_tracker::parser::parse;
use location_tracker::store::{AppState, Response};
use location_tracker::value::JsonValue;

const PAGE: &str = "<html></html>";

fn fresh() -> AppState {
    AppState::new(LocationHistory::new())
}

fn report(longitude: &str, timestamp: &str) -> Location {
    Location {
        latitude: Number::new("25.1").unwrap(),
        longitude: Number::new(longitude).unwrap(),
        accuracy: None,
        timestamp: timestamp.to_string(),
        device_name: "Phone".to_string(),
    }
}

#[test]
fn update_then_read_current_location() {
    let mut state = fresh();
    let posted = state.serve(
        "POST /api/location HTTP/1.1",
        "{\"latitude\":25.1,\"longitude\":55.2}",
        1700000000,
        PAGE,
    );
    assert_eq!(posted.response.status, 200);
    assert_eq!(posted.response.content_type, "application/json");
    assert_eq!(
        posted.response.body,
        "{\"status\":\"success\",\"message\":\"Location updated successfully\"}"
    );
    assert!(posted.saved.is_some());

    let got = state.serve("GET /api/location HTTP/1.1", "", 1700000001, PAGE);
    assert_eq!(got.response.status, 200);
    assert_eq!(got.saved, None);
    let value = parse(&got.response.body).unwrap();
    let map = value.as_object().unwrap();
    assert_eq!(map.get("latitude").unwrap().as_f64().unwrap().as_str(), "25.1");
    assert_eq!(map.get("longitude").unwrap().as_f64().unwrap().as_str(), "55.2");
    assert_eq!(map.get("accuracy"), Some(&JsonValue::Null));
    assert_eq!(map.get("device_name").unwrap().as_str(), Some("Unknown Device"));
    let timestamp = map.get("timestamp").unwrap().as_str().unwrap();
    assert!(!timestamp.is_empty());
    assert_eq!(timestamp, "1700000000");
    assert_eq!(
        got.response.body,
        "{\"latitude\":25.1,\"longitude\":55.2,\"accuracy\":null,\"timestamp\":\"1700000000\",\"device_name\":\"Unknown Device\"}"
    );
}

#[test]
fn update_with_a_bad_body_is_refused() {
    let mut state = fresh();
    let outcome = state.serve("POST /api/location HTTP/1.1", "{bad", 5, PAGE);
    assert_eq!(outcome.response.status, 400);
    assert_eq!(outcome.response.content_type, "text/plain");
    assert_eq!(outcome.response.body, "Invalid JSON");
    assert_eq!(outcome.saved, None);
    assert_eq!(state.current_location, None);
    assert_eq!(state.history.len(), 0);
}

#[test]
fn update_needs_latitude_and_longitude() {
    assert!(Location::from_body("{\"latitude\":1}", 0).is_none());
    assert!(Location::from_body("{\"longitude\":1}", 0).is_none());
    assert!(Location::from_body("{\"latitude\":\"1\",\"longitude\":2}", 0).is_none());
    assert!(Location::from_body("[1,2]", 0).is_none());
    let full = Location::from_body(
        "{\"latitude\":-1.5,\"longitude\":2e3,\"accuracy\":7,\"device_name\":\"Watch\",\"timestamp\":\"9\"}",
        42,
    )
    .unwrap();
    assert_eq!(full.latitude.as_str(), "-1.5");
    assert_eq!(full.longitude.as_str(), "2e3");
    assert_eq!(full.accuracy.as_ref().unwrap().as_str(), "7");
    assert_eq!(full.device_name, "Watch");
    assert_eq!(full.timestamp, "42");
    let unnamed = Location::from_body("{\"latitude\":1,\"longitude\":2,\"device_name\":3}", 0)
        .unwrap();
    assert_eq!(unnamed.device_name, "Unknown Device");
    assert_eq!(unnamed.accuracy, None);
}

#[test]
fn history_holds_the_newest_thousand() {
    let mut state = fresh();
    for i in 0..1001u32 {
        let body = format!("{{\"latitude\":25.1,\"longitude\":{}}}", i);
        let outcome = state.serve("POST /api/location HTTP/1.1", &body, 10, PAGE);
        assert_eq!(outcome.response.status, 200);
    }
    assert_eq!(state.history.len(), 1000);
    assert_eq!(state.history.len(), HISTORY_CAPACITY);
    for i in 0..1000usize {
        assert_eq!(state.history.get(i).longitude.as_str(), (i + 1).to_string());
    }
    let listed = state.serve("GET /api/history HTTP/1.1", "", 11, PAGE);
    assert_eq!(listed.response.status, 200);
    let value = parse(&listed.response.body).unwrap();
    let entries = value.as_object().unwrap().get("locations").unwrap().as_array().unwrap();
    assert_eq!(entries.len(), 1000);
    for entry in entries.iter() {
        let longitude = entry.as_object().unwrap().get("longitude").unwrap();
        assert_ne!(longitude.as_f64().unwrap().as_str(), "0");
    }
    assert_eq!(state.current_location.as_ref().unwrap().longitude.as_str(), "1000");
}

#[test]
fn clearing_empties_the_history_and_keeps_the_current_report() {
    let mut state = fresh();
    state.update(report("55.2", "1"));
    state.update(report("55.3", "2"));
    let cleared = state.serve("DELETE /api/history/clear HTTP/1.1", "", 3, PAGE);
    assert_eq!(cleared.response.status, 200);
    assert_eq!(
        cleared.response.body,
        "{\"status\":\"success\",\"message\":\"History cleared successfully\"}"
    );
    assert_eq!(cleared.saved.as_deref(), Some("{\"locations\":[]}"));
    assert_eq!(state.current_location, Some(report("55.3", "2")));
    let listed = state.serve("GET /api/history HTTP/1.1", "", 4, PAGE);
    assert_eq!(listed.response.status, 200);
    assert_eq!(listed.response.body, "{\"locations\":[]}");
}

#[test]
fn current_location_before_any_update_is_missing() {
    let mut state = fresh();
    let outcome = state.serve("GET /api/location HTTP/1.1", "", 0, PAGE);
    assert_eq!(outcome.response.status, 404);
    assert_eq!(outcome.response.content_type, "application/json");
    assert_eq!(outcome.response.body, "{\"error\":\"No location data available\"}");
    let error = parse(&outcome.response.body).unwrap();
    assert!(error.as_object().unwrap().get("error").is_some());
}

#[test]
fn routes_follow_method_and_path() {
    assert_eq!(route("GET", "/"), Route::Index);
    assert_eq!(route("GET", "/api/location"), Route::CurrentLocation);
    assert_eq!(route("POST", "/api/location"), Route::UpdateLocation);
    assert_eq!(route("GET", "/api/history"), Route::History);
    assert_eq!(route("DELETE", "/api/history/clear"), Route::ClearHistory);
    assert_eq!(route("DELETE", "/api/history"), Route::NotFound);
    assert_eq!(route("get", "/"), Route::NotFound);
    assert_eq!(route("PUT", "/api/location"), Route::NotFound);
    let mut state = fresh();
    let page = state.serve("GET / HTTP/1.1", "", 0, PAGE);
    assert_eq!(page.response, Response::page(PAGE));
    assert_eq!(page.response.status, 200);
    assert_eq!(page.response.content_type, "text/html; charset=utf-8");
    assert_eq!(page.response.body, PAGE);
    let missing = state.serve("GET /nowhere HTTP/1.1", "", 0, PAGE);
    assert_eq!(missing.response.status, 404);
    assert_eq!(missing.response.body, "Not Found");
    let short = state.serve("GET", "", 0, PAGE);
    assert_eq!(short.response.status, 400);
    assert_eq!(short.response.body, "Bad Request");
    assert_eq!(Response::internal_error().status, 500);
    assert_eq!(Response::internal_error().body, "Internal Server Error");
}

#[test]
fn request_line_gives_its_first_two_words() {
    assert_eq!(
        parse_request_line("GET /api/history HTTP/1.1"),
        Some(("GET".to_string(), "/api/history".to_string()))
    );
    assert_eq!(
        parse_request_line("  POST\t/x"),
        Some(("POST".to_string(), "/x".to_string()))
    );
    assert_eq!(
        parse_request_line("GET\u{a0}/nbsp\u{3000}HTTP/1.1"),
        Some(("GET".to_string(), "/nbsp".to_string()))
    );
    assert_eq!(parse_request_line("GET"), None);
    assert_eq!(parse_request_line("   "), None);
    assert_eq!(parse_request_line(""), None);
}

#[test]
fn content_length_header_is_read_leniently() {
    assert_eq!(header_content_length("Content-Length: 42"), Some(42));
    assert_eq!(header_content_length("content-length:7"), Some(7));
    assert_eq!(header_content_length("CONTENT-LENGTH:  +12  "), Some(12));
    assert_eq!(header_content_length("Content-Length: 12:34"), Some(12));
    assert_eq!(header_content_length("Content-Length: abc"), Some(0));
    assert_eq!(header_content_length("Content-Length: -1"), Some(0));
    assert_eq!(header_content_length("Content-Length:"), Some(0));
    assert_eq!(header_content_length("Content-Length: 1 2"), Some(0));
    assert_eq!(
        header_content_length("Content-Length: 99999999999999999999999999"),
        Some(0)
    );
    assert_eq!(header_content_length("Content-Type: text/plain"), None);
    assert_eq!(header_content_length("Content-Length"), None);
    assert_eq!(header_content_length(" Content-Length: 3"), None);
    let headers = vec![
        "Host: localhost".to_string(),
        "Content-Length: 10".to_string(),
        "Content-Type: application/json".to_string(),
        "content-length: 25".to_string(),
    ];
    assert_eq!(body_length(&headers), 25);
    assert_eq!(body_length(&vec!["Host: localhost".to_string()]), 0);
    assert_eq!(body_length(&Vec::new()), 0);
    let reset = vec!["Content-Length: 10".to_string(), "Content-Length: x".to_string()];
    assert_eq!(body_length(&reset), 0);
}

#[test]
fn response_head_is_written_in_full() {
    assert_eq!(
        head(200, "application/json", 16),
        "HTTP/1.1 200 OK\r\nContent-Type: application/json\r\nContent-Length: 16\r\nAccess-Control-Allow-Origin: *\r\nAccess-Control-Allow-Methods: GET, POST, DELETE, OPTIONS\r\nAccess-Control-Allow-Headers: Content-Type\r\nConnection: close\r\n\r\n"
    );
    assert!(head(404, "text/plain", 9).starts_with("HTTP/1.1 404 Not Found\r\n"));
    assert!(head(400, "text/plain", 0).starts_with("HTTP/1.1 400 Bad Request\r\n"));
    assert!(head(500, "text/plain", 0).starts_with("HTTP/1.1 500 Internal Server Error\r\n"));
    assert!(head(302, "text/plain", 0).starts_with("HTTP/1.1 302 Unknown\r\n"));
    assert_eq!(reason(200), "OK");
    assert_eq!(reason(201), "Unknown");
}

#[test]
fn decimal_numerals_are_written_and_read() {
    assert_eq!(to_decimal(0), "0");
    assert_eq!(to_decimal(7), "7");
    assert_eq!(to_decimal(1700000000), "1700000000");
    assert_eq!(to_decimal(u64::MAX), "18446744073709551615");
    let chars: Vec<char> = "x+0123y".chars().collect();
    assert_eq!(parse_usize(&chars, 1, 6), Some(123));
    assert_eq!(parse_usize(&chars, 2, 6), Some(123));
    assert_eq!(parse_usize(&chars, 1, 2), None);
    assert_eq!(parse_usize(&chars, 3, 3), None);
    assert_eq!(parse_usize(&chars, 0, 3), None);
    assert_eq!(parse_usize(&chars, 2, 7), None);
    let max: Vec<char> = usize::MAX.to_string().chars().collect();
    assert_eq!(parse_usize(&max, 0, max.len()), Some(usize::MAX));
    let mut over = max.clone();
    over.push('0');
    assert_eq!(parse_usize(&over, 0, over.len()), None);
}

#[test]
fn history_is_saved_and_restored() {
    let mut history = LocationHistory::new();
    history.record(report("55.2", "1"));
    history.record(Location {
        latitude: Number::new("-3").unwrap(),
        longitude: Number::new("4e2").unwrap(),
        accuracy: Some(Number::new("0.5").unwrap()),
        timestamp: "2".to_string(),
        device_name: "a \"quoted\" \\ name".to_string(),
    });
    let text = history.saved();
    assert_eq!(
        text,
        "{\"locations\":[{\"latitude\":25.1,\"longitude\":55.2,\"accuracy\":null,\"timestamp\":\"1\",\"device_name\":\"Phone\"},{\"latitude\":-3,\"longitude\":4e2,\"accuracy\":0.5,\"timestamp\":\"2\",\"device_name\":\"a \\\"quoted\\\" \\\\ name\"}]}"
    );
    assert_eq!(LocationHistory::restore(&text), history);
    assert_eq!(LocationHistory::restore("not a document"), LocationHistory::new());
    assert_eq!(LocationHistory::restore("{\"locations\":3}"), LocationHistory::new());
    assert_eq!(LocationHistory::restore("[]"), LocationHistory::new());
    let partly = LocationHistory::restore(
        "{\"locations\":[1,{\"latitude\":1,\"longitude\":2,\"timestamp\":\"t\",\"device_name\":\"d\"},{\"latitude\":1}]}",
    );
    assert_eq!(partly.len(), 1);
    assert_eq!(partly.get(0).timestamp, "t");
    assert_eq!(partly.get(0).accuracy, None);
    assert_eq!(LocationHistory::from_json(&parse("{\"locations\":[]}").unwrap()).unwrap().len(), 0);
    assert!(LocationHistory::from_json(&parse("{\"other\":[]}").unwrap()).is_none());
    assert_eq!(Location::from_json(&report("1", "2").to_json()), Some(report("1", "2")));
}

#[test]
fn slots_take_updates_in_any_order() {
    let submitted: Vec<Location> = (0..5).map(|i| report(&i.to_string(), "1")).collect();
    let to_current = [3usize, 0, 4, 1, 2];
    let to_history = [1usize, 2, 0, 4, 3];
    let mut current: Option<Location> = None;
    let mut history = LocationHistory::new();
    for i in 0..5 {
        current = Some(submitted[to_current[i]].clone());
        history.record(submitted[to_history[i]].clone());
    }
    assert!(submitted.contains(current.as_ref().unwrap()));
    assert_eq!(current, Some(submitted[2].clone()));
    assert_eq!(history.len(), 5);
    for i in 0..5 {
        assert_eq!(history.get(i), &submitted[to_history[i]]);
    }
    let mut full = LocationHistory::new();
    for i in 0..1000 {
        full.record(report(&i.to_string(), "1"));
    }
    assert_eq!(full.len(), 1000);
    for i in 0..5 {
        full.record(submitted[to_history[i]].clone());
    }
    assert_eq!(full.len(), 1000);
    assert_eq!(full.get(0).longitude.as_str(), "5");
    assert_eq!(full.get(999), &submitted[3]);
}

#[test]
fn restoring_keeps_no_more_than_the_history_holds() {
    let mut text = String::from("{\"locations\":[");
    for i in 0..1003 {
        if i > 0 {
            text.push(',');
        }
        text.push_str(&report(&i.to_string(), "7").to_json().to_string());
    }
    text.push_str("]}");
    let history = LocationHistory::restore(&text);
    assert_eq!(history.len(), 1000);
    assert_eq!(history.get(0).longitude.as_str(), "3");
    assert_eq!(history.get(999).longitude.as_str(), "1002");
}
