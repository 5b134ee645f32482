use vstd::prelude::*;

use crate::codec::{decode, decode_text, push_quoted, push_value, quoted, value_text};
use crate::text::{push_str, same_text, starts_with, string_of};
use crate::value::{
    copy_value, entries_model, list_model, value_model, Key, KeyModel, Value, ValueModel,
};

verus! {

/// A decoded call from the view.
pub struct CallRequest {
    pub call_id: String,
    pub function: String,
    pub arguments: Option<Vec<Value>>,
}

/// The answer to one call: a result, an error, or neither where the host
/// function returned no value.
pub struct CallResponse {
    pub call_id: String,
    pub result: Option<Value>,
    pub error: Option<String>,
}

/// What the host function did.
pub enum HostOutcome {
    Returned(Value),
    NoValue,
    Raised(String),
}

/// What the handler does with one inbound call payload.
pub enum CallStep {
    /// The payload is no value at all: nothing is sent back.
    Drop,
    /// Answer at once with this response.
    Respond(CallResponse),
    /// Invoke the host function at this index of the table.
    Invoke(CallRequest, usize),
}

pub struct RequestModel {
    pub call_id: Seq<char>,
    pub function: Seq<char>,
    pub arguments: Option<Seq<ValueModel>>,
}

pub struct ResponseModel {
    pub call_id: Seq<char>,
    pub result: Option<ValueModel>,
    pub error: Option<Seq<char>>,
}

pub enum StepModel {
    Drop,
    Respond(ResponseModel),
    Invoke(RequestModel, int),
}

impl View for CallRequest {
    type V = RequestModel;

    open spec fn view(&self) -> RequestModel {
        RequestModel {
            call_id: self.call_id@,
            function: self.function@,
            arguments: match self.arguments {
                Some(a) => Some(list_model(a@)),
                None => None,
            },
        }
    }
}

impl View for CallResponse {
    type V = ResponseModel;

    open spec fn view(&self) -> ResponseModel {
        ResponseModel {
            call_id: self.call_id@,
            result: match self.result {
                Some(v) => Some(v@),
                None => None,
            },
            error: match self.error {
                Some(e) => Some(e@),
                None => None,
            },
        }
    }
}

impl View for CallStep {
    type V = StepModel;

    open spec fn view(&self) -> StepModel {
        match self {
            CallStep::Drop => StepModel::Drop,
            CallStep::Respond(r) => StepModel::Respond(r@),
            CallStep::Invoke(q, k) => StepModel::Invoke(q@, *k as int),
        }
    }
}

/// The value of the first entry of `es`, from `i` on, whose key is the text `name`.
pub open spec fn field_from(es: Seq<(KeyModel, ValueModel)>, name: Seq<char>, i: int) -> Option<
    ValueModel,
>
    decreases es.len() - i,
{
    if i < 0 || i >= es.len() {
        None
    } else if es[i].0 == KeyModel::Text(name) {
        Some(es[i].1)
    } else {
        field_from(es, name, i + 1)
    }
}

pub open spec fn field(es: Seq<(KeyModel, ValueModel)>, name: Seq<char>) -> Option<ValueModel> {
    field_from(es, name, 0)
}

/// The call that a decoded payload asks for: a map with the texts `call_id`
/// and `function`, and `arguments`, where present, a list.
pub open spec fn request_model(v: ValueModel) -> Option<RequestModel> {
    match v {
        ValueModel::Mapping(es) => match (field(es, "call_id"@), field(es, "function"@)) {
            (Some(ValueModel::Text(id)), Some(ValueModel::Text(f))) => match field(
                es,
                "arguments"@,
            ) {
                None => Some(RequestModel { call_id: id, function: f, arguments: None }),
                Some(ValueModel::List(a)) => Some(
                    RequestModel { call_id: id, function: f, arguments: Some(a) },
                ),
                _ => None,
            },
            _ => None,
        },
        _ => None,
    }
}

/// The call id of a payload that is no valid request, where one can be read.
pub open spec fn best_effort_id(v: ValueModel) -> Seq<char> {
    match v {
        ValueModel::Mapping(es) => match field(es, "call_id"@) {
            Some(ValueModel::Text(id)) => id,
            _ => Seq::empty(),
        },
        _ => Seq::empty(),
    }
}

/// The first index at or after `i` where `names` holds `f`.
pub open spec fn position_from(names: Seq<Seq<char>>, f: Seq<char>, i: int) -> Option<int>
    decreases names.len() - i,
{
    if i < 0 || i >= names.len() {
        None
    } else if names[i] == f {
        Some(i)
    } else {
        position_from(names, f, i + 1)
    }
}

pub open spec fn names_of(table: Seq<String>) -> Seq<Seq<char>> {
    table.map_values(|s: String| s@)
}

pub open spec fn not_found_text(f: Seq<char>) -> Seq<char> {
    "function '"@ + f + "' not found"@
}

pub open spec fn invalid_format_text() -> Seq<char> {
    "invalid request format"@
}

/// What the handler does with the payload `raw`, given the names of the
/// host functions.
pub open spec fn call_step(raw: Seq<char>, names: Seq<Seq<char>>) -> StepModel {
    match decode_text(raw) {
        None => StepModel::Drop,
        Some(v) => match request_model(v) {
            Some(r) => match position_from(names, r.function, 0) {
                Some(k) => StepModel::Invoke(r, k),
                None => StepModel::Respond(
                    ResponseModel {
                        call_id: r.call_id,
                        result: None,
                        error: Some(not_found_text(r.function)),
                    },
                ),
            },
            None => StepModel::Respond(
                ResponseModel {
                    call_id: best_effort_id(v),
                    result: None,
                    error: Some(invalid_format_text()),
                },
            ),
        },
    }
}

/// The response to a call whose host function ended with `outcome`.
pub open spec fn outcome_response(call_id: Seq<char>, outcome: HostOutcome) -> ResponseModel {
    match outcome {
        HostOutcome::Returned(v) => ResponseModel { call_id, result: Some(v@), error: None },
        HostOutcome::NoValue => ResponseModel { call_id, result: None, error: None },
        HostOutcome::Raised(e) => ResponseModel { call_id, result: None, error: Some(e@) },
    }
}

/// The response object, as the view's bridging code reads it.
pub open spec fn response_text(r: ResponseModel) -> Seq<char> {
    "{\"callId\":"@ + quoted(r.call_id) + match r.result {
        Some(v) => ",\"result\":"@ + value_text(v),
        None => if r.error is None {
            ",\"result\":null"@
        } else {
            Seq::empty()
        },
    } + match r.error {
        Some(e) => ",\"error\":"@ + quoted(e),
        None => Seq::empty(),
    } + "}"@
}

/// The script that delivers a response to the view.
pub open spec fn script_text(r: ResponseModel) -> Seq<char> {
    "window.ipcCallback("@ + response_text(r) + ")"@
}

proof fn lemma_entries_model_index(s: Seq<(Key, Value)>, k: int)
    requires
        0 <= k < s.len(),
    ensures
        entries_model(s).len() == s.len(),
        entries_model(s)[k] == (s[k].0@, value_model(s[k].1)),
    decreases k,
{
    let t = s.subrange(1, s.len() as int);
    lemma_entries_model_len(t);
    if k > 0 {
        lemma_entries_model_index(t, k - 1);
        assert(t[k - 1] == s[k]);
    }
}

proof fn lemma_entries_model_len(s: Seq<(Key, Value)>)
    ensures
        entries_model(s).len() == s.len(),
    decreases s.len(),
{
    if s.len() > 0 {
        lemma_entries_model_len(s.subrange(1, s.len() as int));
    }
}

/// The first entry of `es` whose key is the text `name`.
fn field_of<'a>(es: &'a Vec<(Key, Value)>, name: &str) -> (r: Option<&'a Value>)
    ensures
        match r {
            Some(v) => field(entries_model(es@), name@) == Some(v@),
            None => field(entries_model(es@), name@) is None,
        },
{
    let ghost m = entries_model(es@);
    proof {
        lemma_entries_model_len(es@);
    }
    let mut i: usize = 0;
    while i < es.len()
        invariant
            i <= es@.len() == m.len(),
            m == entries_model(es@),
            field_from(m, name@, 0) == field_from(m, name@, i as int),
        decreases es@.len() - i,
    {
        proof {
            lemma_entries_model_index(es@, i as int);
        }
        let hit = match &es[i].0 {
            Key::Text(t) => same_text(t.as_str(), name),
            _ => false,
        };
        if hit {
            return Some(&es[i].1);
        }
        i = i + 1;
    }
    None
}

fn position_of(table: &Vec<String>, f: &String) -> (r: Option<usize>)
    ensures
        match r {
            Some(k) => position_from(names_of(table@), f@, 0) == Some(k as int),
            None => position_from(names_of(table@), f@, 0) is None,
        },
{
    let ghost names = names_of(table@);
    let mut i: usize = 0;
    while i < table.len()
        invariant
            i <= table@.len() == names.len(),
            names == names_of(table@),
            position_from(names, f@, 0) == position_from(names, f@, i as int),
        decreases table@.len() - i,
    {
        if same_text(table[i].as_str(), f.as_str()) {
            return Some(i);
        }
        i = i + 1;
    }
    None
}

fn copy_items(items: &Vec<Value>) -> (r: Vec<Value>)
    ensures
        list_model(r@) == list_model(items@),
{
    let mut out: Vec<Value> = Vec::new();
    let mut i: usize = 0;
    while i < items.len()
        invariant
            i <= items@.len(),
            out@.len() == i,
            list_model(out@) == list_model(items@.take(i as int)),
        decreases items@.len() - i,
    {
        proof {
            crate::value::lemma_list_model_take(items@, i as int);
        }
        let c = copy_value(&items[i]);
        let ghost before = out@;
        out.push(c);
        proof {
            assert(out@.take(i as int) =~= before);
            crate::value::lemma_list_model_take(out@, i as int);
            assert(out@.take(i + 1) =~= out@);
        }
        i = i + 1;
    }
    assert(items@.take(items@.len() as int) =~= items@);
    out
}

fn text_of(s: &str) -> (r: String)
    ensures
        r@ == s@,
{
    let mut out: Vec<char> = Vec::new();
    push_str(&mut out, s);
    assert(out@ =~= s@);
    string_of(&out)
}

fn request_from(v: &Value) -> (r: Option<CallRequest>)
    ensures
        match r {
            Some(q) => request_model(v@) == Some(q@),
            None => request_model(v@) is None,
        },
{
    match v {
        Value::Mapping(es) => {
            let id = field_of(es, "call_id");
            let f = field_of(es, "function");
            match (id, f) {
                (Some(Value::Text(id)), Some(Value::Text(f))) => match field_of(es, "arguments") {
                    None => Some(CallRequest { call_id: id.clone(), function: f.clone(), arguments: None }),
                    Some(Value::List(a)) => Some(
                        CallRequest {
                            call_id: id.clone(),
                            function: f.clone(),
                            arguments: Some(copy_items(a)),
                        },
                    ),
                    _ => None,
                },
                _ => None,
            }
        },
        _ => None,
    }
}

fn best_effort_id_of(v: &Value) -> (r: String)
    ensures
        r@ == best_effort_id(v@),
{
    match v {
        Value::Mapping(es) => match field_of(es, "call_id") {
            Some(Value::Text(id)) => id.clone(),
            _ => String::new(),
        },
        _ => String::new(),
    }
}

/// Decides what to do with one inbound call payload: drop it where it is no
/// value, answer `invalid request format` where it is no request, answer
/// `function '<name>' not found` where `table` has no such function, and
/// otherwise invoke the function at the index given.
pub fn begin_call(raw: &str, table: &Vec<String>) -> (r: CallStep)
    ensures
        r@ == call_step(raw@, names_of(table@)),
{
    match decode(raw) {
        Err(_) => CallStep::Drop,
        Ok(v) => match request_from(&v) {
            Some(q) => match position_of(table, &q.function) {
                Some(k) => CallStep::Invoke(q, k),
                None => {
                    let mut msg: Vec<char> = Vec::new();
                    push_str(&mut msg, "function '");
                    push_str(&mut msg, q.function.as_str());
                    push_str(&mut msg, "' not found");
                    assert(msg@ =~= not_found_text(q.function@));
                    CallStep::Respond(
                        CallResponse { call_id: q.call_id, result: None, error: Some(string_of(&msg)) },
                    )
                },
            },
            None => CallStep::Respond(
                CallResponse {
                    call_id: best_effort_id_of(&v),
                    result: None,
                    error: Some(text_of("invalid request format")),
                },
            ),
        },
    }
}

/// The response to the call `call_id` whose host function ended with `outcome`.
pub fn finish_call(call_id: String, outcome: HostOutcome) -> (r: CallResponse)
    ensures
        r@ == outcome_response(call_id@, outcome),
{
    match outcome {
        HostOutcome::Returned(v) => CallResponse { call_id, result: Some(v), error: None },
        HostOutcome::NoValue => CallResponse { call_id, result: None, error: None },
        HostOutcome::Raised(e) => CallResponse { call_id, result: None, error: Some(e) },
    }
}

/// The script that hands `r` to the view's callback.
pub fn response_script(r: &CallResponse) -> (s: String)
    ensures
        s@ == script_text(r@),
{
    let mut out: Vec<char> = Vec::new();
    push_str(&mut out, "window.ipcCallback(");
    push_str(&mut out, "{\"callId\":");
    push_quoted(&mut out, &r.call_id);
    match &r.result {
        Some(v) => {
            push_str(&mut out, ",\"result\":");
            push_value(&mut out, v);
        },
        None => {
            if r.error.is_none() {
                push_str(&mut out, ",\"result\":null");
            }
        },
    }
    match &r.error {
        Some(e) => {
            push_str(&mut out, ",\"error\":");
            push_quoted(&mut out, e);
        },
        None => {},
    }
    push_str(&mut out, "}");
    push_str(&mut out, ")");
    assert(out@ =~= script_text(r@));
    string_of(&out)
}


proof fn lemma_position_absent(names: Seq<Seq<char>>, f: Seq<char>, i: int)
    requires
        0 <= i,
        forall|k: int| 0 <= k < names.len() ==> names[k] != f,
    ensures
        position_from(names, f, i) is None,
    decreases names.len() - i,
{
    if i < names.len() {
        lemma_position_absent(names, f, i + 1);
    }
}

/// A call to a function that the table does not hold is answered at once,
/// with an error, no result, and the call id of the request.
pub proof fn lemma_missing_function(raw: Seq<char>, names: Seq<Seq<char>>)
    requires
        decode_text(raw) matches Some(v) && request_model(v) matches Some(q) && forall|k: int|
            0 <= k < names.len() ==> names[k] != q.function,
    ensures
        call_step(raw, names) matches StepModel::Respond(resp) && resp.error is Some
            && resp.result is None && resp.call_id == request_model(
            decode_text(raw)->Some_0,
        )->Some_0.call_id,
{
    let q = request_model(decode_text(raw)->Some_0)->Some_0;
    lemma_position_absent(names, q.function, 0);
}

/// A payload that is no well-formed value gets no response at all.
pub proof fn lemma_malformed_dropped(raw: Seq<char>, names: Seq<Seq<char>>)
    requires
        decode_text(raw) is None,
    ensures
        call_step(raw, names) == StepModel::Drop,
{
}

/// Where an inbound message goes.
#[derive(Clone, Copy, Debug, PartialEq, Eq, Structural)]
pub enum Route {
    WindowControl,
    Call,
    Ignore,
}

pub open spec fn route_of(body: Seq<char>, has_functions: bool) -> Route {
    if "window_control"@.len() <= body.len() && body.take("window_control"@.len() as int)
        == "window_control"@ {
        Route::WindowControl
    } else if has_functions {
        Route::Call
    } else {
        Route::Ignore
    }
}

/// Sends a message that starts with `window_control` to the window-control
/// decoder, and any other to the call bridge where host functions were given.
pub fn route_message(body: &str, has_functions: bool) -> (r: Route)
    ensures
        r == route_of(body@, has_functions),
{
    if starts_with(body, "window_control") {
        Route::WindowControl
    } else if has_functions {
        Route::Call
    } else {
        Route::Ignore
    }
}

/// Why a message from the host could not be handed to the event loop.
#[derive(Clone, Copy, Debug, PartialEq, Eq, Structural)]
pub enum SendError {
    /// No window was ever started in this process.
    NotInitialized,
    /// The window has closed and its loop takes no more events.
    LoopClosed,
}

/// The outcome of a host `send`: `started` tells whether a window was ever
/// started, `delivered` whether its loop took the event.
pub fn send_outcome(started: bool, delivered: bool) -> (r: Result<(), SendError>)
    ensures
        !started ==> r == Err::<(), SendError>(SendError::NotInitialized),
        started && !delivered ==> r == Err::<(), SendError>(SendError::LoopClosed),
        started && delivered ==> r is Ok,
{
    if !started {
        Err(SendError::NotInitialized)
    } else if !delivered {
        Err(SendError::LoopClosed)
    } else {
        Ok(())
    }
}

} // verus!
