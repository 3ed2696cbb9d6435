//! The tracker's state, and what each request does to it and is answered
//! with.

use vstd::prelude::*;
use vstd::string::StringExecFns;
use crate::history::{
    history_json, history_length, record, record_all, LocationHistory, HISTORY_CAPACITY,
};
use crate::http::{parse_request_line, request_line, route, route_of, Route};
use crate::location::{location_json, report_of, Location, LocationModel};
use crate::parser::{parse_document, JsonError};
use crate::value::{render, JsonModel};

verus! {

/// What is sent back for one request.
#[derive(Debug, PartialEq)]
pub struct Response {
    pub status: u16,
    pub content_type: String,
    pub body: String,
}

/// The mathematical form of a response.
pub struct ResponseModel {
    pub status: u16,
    pub content_type: Seq<char>,
    pub body: Seq<char>,
}

impl View for Response {
    type V = ResponseModel;

    open spec fn view(&self) -> ResponseModel {
        ResponseModel {
            status: self.status,
            content_type: self.content_type@,
            body: self.body@,
        }
    }
}

/// A response in plain text.
pub open spec fn text_response(status: u16, body: Seq<char>) -> ResponseModel {
    ResponseModel { status, content_type: "text/plain"@, body }
}

/// A response that carries a document.
pub open spec fn json_response(status: u16, body: Seq<char>) -> ResponseModel {
    ResponseModel { status, content_type: "application/json"@, body }
}

/// The response that carries the page at the root path.
pub open spec fn page_response(page: Seq<char>) -> ResponseModel {
    ResponseModel { status: 200, content_type: "text/html; charset=utf-8"@, body: page }
}

/// The response to a request line of fewer than two words.
pub open spec fn bad_request_response() -> ResponseModel {
    text_response(400, "Bad Request"@)
}

/// The response to a method and path that no route takes.
pub open spec fn not_found_response() -> ResponseModel {
    text_response(404, "Not Found"@)
}

/// The response to an update whose body asks for no report.
pub open spec fn invalid_json_response() -> ResponseModel {
    text_response(400, "Invalid JSON"@)
}

/// The response where a slot of the state cannot be reached.
pub open spec fn internal_error_response() -> ResponseModel {
    text_response(500, "Internal Server Error"@)
}

/// The response where no report has come in yet.
pub open spec fn no_location_response() -> ResponseModel {
    json_response(404, "{\"error\":\"No location data available\"}"@)
}

/// The response to an update that was taken.
pub open spec fn location_updated_response() -> ResponseModel {
    json_response(200, "{\"status\":\"success\",\"message\":\"Location updated successfully\"}"@)
}

/// The response after the history was cleared.
pub open spec fn history_cleared_response() -> ResponseModel {
    json_response(200, "{\"status\":\"success\",\"message\":\"History cleared successfully\"}"@)
}

/// The response that tells the current report: the report as a document,
/// or that there is none.
pub open spec fn current_location_response(current: Option<LocationModel>) -> ResponseModel {
    match current {
        Some(l) => json_response(200, render(location_json(l))),
        None => no_location_response(),
    }
}

/// The response that tells the history, as a document.
pub open spec fn history_response(history: Seq<LocationModel>) -> ResponseModel {
    json_response(200, render(history_json(history)))
}

impl Response {
    fn text(status: u16, body: &str) -> (r: Response)
        ensures
            r@ == text_response(status, body@),
    {
        Response {
            status,
            content_type: String::from_str("text/plain"),
            body: String::from_str(body),
        }
    }

    fn json(status: u16, body: String) -> (r: Response)
        ensures
            r@ == json_response(status, body@),
    {
        Response { status, content_type: String::from_str("application/json"), body }
    }

    /// The response that carries the page at the root path.
    pub fn page(page: &str) -> (r: Response)
        ensures
            r@ == page_response(page@),
    {
        Response {
            status: 200,
            content_type: String::from_str("text/html; charset=utf-8"),
            body: String::from_str(page),
        }
    }

    /// The response to a request line of fewer than two words.
    pub fn bad_request() -> (r: Response)
        ensures
            r@ == bad_request_response(),
    {
        Response::text(400, "Bad Request")
    }

    /// The response to a method and path that no route takes.
    pub fn not_found() -> (r: Response)
        ensures
            r@ == not_found_response(),
    {
        Response::text(404, "Not Found")
    }

    /// The response to an update whose body asks for no report.
    pub fn invalid_json() -> (r: Response)
        ensures
            r@ == invalid_json_response(),
    {
        Response::text(400, "Invalid JSON")
    }

    /// The response where a slot of the state cannot be reached.
    pub fn internal_error() -> (r: Response)
        ensures
            r@ == internal_error_response(),
    {
        Response::text(500, "Internal Server Error")
    }

    /// The response to an update that was taken.
    pub fn location_updated() -> (r: Response)
        ensures
            r@ == location_updated_response(),
    {
        Response::json(
            200,
            String::from_str(
                "{\"status\":\"success\",\"message\":\"Location updated successfully\"}",
            ),
        )
    }

    /// The response after the history was cleared.
    pub fn history_cleared() -> (r: Response)
        ensures
            r@ == history_cleared_response(),
    {
        Response::json(
            200,
            String::from_str(
                "{\"status\":\"success\",\"message\":\"History cleared successfully\"}",
            ),
        )
    }

    /// The response that tells the current report.
    pub fn current_location(current: &Option<Location>) -> (r: Response)
        ensures
            r@ == current_location_response(
                match *current {
                    Some(l) => Some(l@),
                    None => None,
                },
            ),
    {
        match current {
            Some(l) => Response::json(200, l.to_json().to_string()),
            None => Response::json(
                404,
                String::from_str("{\"error\":\"No location data available\"}"),
            ),
        }
    }

    /// The response that tells the history.
    pub fn history(history: &LocationHistory) -> (r: Response)
        ensures
            r@ == history_response(history@),
    {
        Response::json(200, history.saved())
    }
}

/// The two slots of the tracker: the current report, if one has come in,
/// and the history.
#[derive(Debug, PartialEq)]
pub struct AppState {
    pub current_location: Option<Location>,
    pub history: LocationHistory,
}

/// The mathematical form of the tracker's state.
pub struct StateModel {
    pub current: Option<LocationModel>,
    pub history: Seq<LocationModel>,
}

impl View for AppState {
    type V = StateModel;

    open spec fn view(&self) -> StateModel {
        StateModel {
            current: match self.current_location {
                Some(l) => Some(l@),
                None => None,
            },
            history: self.history@,
        }
    }
}

/// What handling one request gives besides the new state: the response,
/// and the text to save the history under where the history was written.
#[derive(Debug, PartialEq)]
pub struct Outcome {
    pub response: Response,
    pub saved: Option<String>,
}

/// The mathematical form of an outcome.
pub struct OutcomeModel {
    pub response: ResponseModel,
    pub saved: Option<Seq<char>>,
}

impl View for Outcome {
    type V = OutcomeModel;

    open spec fn view(&self) -> OutcomeModel {
        OutcomeModel {
            response: self.response@,
            saved: match self.saved {
                Some(text) => Some(text@),
                None => None,
            },
        }
    }
}

/// The state after a report came in: it is the current report, and the
/// history has recorded it.
pub open spec fn updated(state: StateModel, report: LocationModel) -> StateModel {
    StateModel { current: Some(report), history: record(state.history, report) }
}

/// The state after the history was cleared: the current report stays.
pub open spec fn cleared(state: StateModel) -> StateModel {
    StateModel { current: state.current, history: Seq::empty() }
}

/// An outcome that leaves the saved history as it is.
pub open spec fn reply(response: ResponseModel) -> OutcomeModel {
    OutcomeModel { response, saved: None }
}

/// An outcome that saves the history anew.
pub open spec fn reply_and_save(response: ResponseModel, history: Seq<LocationModel>) -> OutcomeModel {
    OutcomeModel { response, saved: Some(render(history_json(history))) }
}

/// The state and the outcome that a request gives, by its route, for the
/// parsed body `body`, at the time `now` in seconds, with `page` as the
/// page at the root path.
pub open spec fn step(
    state: StateModel,
    route: Route,
    body: Result<JsonModel, JsonError>,
    now: nat,
    page: Seq<char>,
) -> (StateModel, OutcomeModel) {
    match route {
        Route::Index => (state, reply(page_response(page))),
        Route::CurrentLocation => (state, reply(current_location_response(state.current))),
        Route::UpdateLocation => match report_of(body, now) {
            Some(report) => (
                updated(state, report),
                reply_and_save(location_updated_response(), updated(state, report).history),
            ),
            None => (state, reply(invalid_json_response())),
        },
        Route::History => (state, reply(history_response(state.history))),
        Route::ClearHistory => (
            cleared(state),
            reply_and_save(history_cleared_response(), Seq::empty()),
        ),
        Route::NotFound => (state, reply(not_found_response())),
    }
}

/// The state and the outcome that a request with the given request line
/// gives: a line of fewer than two words is a bad request, any other line
/// is handled by the route of its method and path.
pub open spec fn serve_step(
    state: StateModel,
    line: Seq<char>,
    body: Result<JsonModel, JsonError>,
    now: nat,
    page: Seq<char>,
) -> (StateModel, OutcomeModel) {
    match request_line(line) {
        Some((method, path)) => step(state, route_of(method, path), body, now, page),
        None => (state, reply(bad_request_response())),
    }
}

/// The current report after the reports of `reports` were written to its
/// slot one by one: each overwrites the one before, so the last stays.
pub open spec fn current_after<T>(current: Option<T>, reports: Seq<T>) -> Option<T> {
    if reports.len() == 0 {
        current
    } else {
        Some(reports.last())
    }
}

/// Clearing the history empties the history and leaves the current report
/// as it is.
pub proof fn clearing_keeps_the_current_report(
    state: StateModel,
    body: Result<JsonModel, JsonError>,
    now: nat,
    page: Seq<char>,
)
    ensures
        step(state, Route::ClearHistory, body, now, page).0.history == Seq::<
            LocationModel,
        >::empty(),
        step(state, Route::ClearHistory, body, now, page).0.current == state.current,
{
}

/// However the updates are granted to the two slots, which each take them
/// one at a time and in an order of their own: after at least one update
/// the current report is one of the reports that were written to its
/// slot, and the history is as long as the number of reports it has seen,
/// or full where they were more.
pub proof fn slots_after_updates<T>(
    current: Option<T>,
    history: Seq<T>,
    to_current: Seq<T>,
    to_history: Seq<T>,
)
    requires
        history.len() <= HISTORY_CAPACITY,
        to_current.len() > 0,
    ensures
        current_after(current, to_current) matches Some(l) && to_current.contains(l),
        record_all(history, to_history).len() == if history.len() + to_history.len()
            <= HISTORY_CAPACITY {
            history.len() + to_history.len()
        } else {
            HISTORY_CAPACITY as nat
        },
{
    history_length(history, to_history);
    assert(to_current[to_current.len() - 1] == to_current.last());
}

impl AppState {
    /// The state at the start: no current report, and the history given.
    pub fn new(history: LocationHistory) -> (state: AppState)
        ensures
            state@ == (StateModel { current: None, history: history@ }),
    {
        AppState { current_location: None, history }
    }

    /// Takes a report in: it becomes the current report and the history
    /// records it.
    pub fn update(&mut self, report: Location)
        ensures
            final(self)@ == updated(old(self)@, report@),
    {
        self.current_location = Some(report.clone());
        self.history.record(report);
    }

    /// Clears the history. The current report stays.
    pub fn clear_history(&mut self)
        ensures
            final(self)@ == cleared(old(self)@),
    {
        self.history.clear();
    }

    /// Handles the request of the given route with the given body, at the
    /// time `now` in seconds.
    pub fn handle(&mut self, route: Route, body: &str, now: u64, page: &str) -> (outcome: Outcome)
        ensures
            (final(self)@, outcome@) == step(
                old(self)@,
                route,
                parse_document(body@),
                now as nat,
                page@,
            ),
    {
        match route {
            Route::Index => Outcome { response: Response::page(page), saved: None },
            Route::CurrentLocation => Outcome {
                response: Response::current_location(&self.current_location),
                saved: None,
            },
            Route::UpdateLocation => match Location::from_body(body, now) {
                Some(report) => {
                    self.update(report);
                    Outcome {
                        response: Response::location_updated(),
                        saved: Some(self.history.saved()),
                    }
                },
                None => Outcome { response: Response::invalid_json(), saved: None },
            },
            Route::History => Outcome { response: Response::history(&self.history), saved: None },
            Route::ClearHistory => {
                self.clear_history();
                Outcome {
                    response: Response::history_cleared(),
                    saved: Some(self.history.saved()),
                }
            },
            Route::NotFound => Outcome { response: Response::not_found(), saved: None },
        }
    }

    /// Handles the request with the given request line and body, at the
    /// time `now` in seconds.
    pub fn serve(&mut self, line: &str, body: &str, now: u64, page: &str) -> (outcome: Outcome)
        ensures
            (final(self)@, outcome@) == serve_step(
                old(self)@,
                line@,
                parse_document(body@),
                now as nat,
                page@,
            ),
    {
        match parse_request_line(line) {
            Some((method, path)) => {
                let r = route(method.as_str(), path.as_str());
                self.handle(r, body, now, page)
            },
            None => Outcome { response: Response::bad_request(), saved: None },
        }
    }
}

} // verus!
