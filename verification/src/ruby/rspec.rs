//! The rspec invocation and its line-delimited output protocol.
//!
//! The runner is invoked with a fixed pair of formatter flags and the
//! target files as trailing arguments. It must write one JSON object per
//! line, tagged by a `type` field; a line that fails to parse under that
//! schema is a protocol error. Run times appear in the records and are
//! checked for well-formedness, but are not carried into the domain events.

use vstd::prelude::*;
use vstd::string::StringExecFns;

verus! {

/// How to invoke the external runner: the path to the executable, whether
/// to go through `bundle exec`, and extra environment variables for the
/// subprocess.
pub struct RSpecConfiguration {
    pub path_to_rspec: String,
    pub use_bundler: bool,
    pub env: Vec<(String, String)>,
}

impl Default for RSpecConfiguration {
    /// Plain `rspec` on the search path, no bundler, no extra environment.
    fn default() -> (r: Self)
        ensures
            r.path_to_rspec@ == "rspec"@,
            r.use_bundler == false,
            r.env@ == Seq::<(String, String)>::empty(),
    {
        RSpecConfiguration {
            path_to_rspec: String::from_str("rspec"),
            use_bundler: false,
            env: Vec::new(),
        }
    }
}

impl Clone for RSpecConfiguration {
    fn clone(&self) -> (r: Self)
        ensures
            r.path_to_rspec@ == self.path_to_rspec@,
            r.use_bundler == self.use_bundler,
            r.env.deep_view() == self.env.deep_view(),
    {
        let mut env: Vec<(String, String)> = Vec::new();
        let mut i: usize = 0;
        while i < self.env.len()
            invariant
                i <= self.env@.len(),
                env@.len() == i,
                forall|j: int| 0 <= j < i ==> env@[j].deep_view() == self.env@[j].deep_view(),
            decreases self.env@.len() - i,
        {
            env.push((self.env[i].0.clone(), self.env[i].1.clone()));
            i += 1;
        }
        proof {
            assert(env.deep_view() =~= self.env.deep_view());
        }
        RSpecConfiguration {
            path_to_rspec: self.path_to_rspec.clone(),
            use_bundler: self.use_bundler,
            env,
        }
    }
}

/// The mathematical shape of a protocol record.
pub enum RSpecEventView {
    Start { count: Option<i64> },
    ExampleStarted {
        id: Seq<char>,
        location: Seq<char>,
        file_path: Seq<char>,
        description: Option<Seq<char>>,
    },
    ExamplePassed { id: Seq<char>, location: Seq<char>, file_path: Seq<char>, description: Seq<char> },
    ExampleFailed {
        id: Seq<char>,
        location: Option<Seq<char>>,
        file_path: Seq<char>,
        description: Option<Seq<char>>,
        exception: Option<Seq<char>>,
    },
    Stop,
    Error { msg: Seq<char> },
    Exit,
}

/// One record of the runner's structured output, already decoded. `Exit`
/// is not a wire record: it marks the output stream closing.
#[derive(Debug)]
pub enum RSpecEvent {
    Start { count: Option<i64> },
    ExampleStarted { id: String, location: String, file_path: String, description: Option<String> },
    ExamplePassed { id: String, location: String, file_path: String, description: String },
    ExampleFailed {
        id: String,
        location: Option<String>,
        file_path: String,
        description: Option<String>,
        exception: Option<String>,
    },
    Stop,
    Error { msg: String },
    Exit,
}

impl View for RSpecEvent {
    type V = RSpecEventView;

    open spec fn view(&self) -> RSpecEventView {
        match self {
            RSpecEvent::Start { count } => RSpecEventView::Start { count: *count },
            RSpecEvent::ExampleStarted { id, location, file_path, description } => {
                RSpecEventView::ExampleStarted {
                    id: id@,
                    location: location@,
                    file_path: file_path@,
                    description: match description {
                        Some(d) => Some(d@),
                        None => None,
                    },
                }
            },
            RSpecEvent::ExamplePassed { id, location, file_path, description } => {
                RSpecEventView::ExamplePassed {
                    id: id@,
                    location: location@,
                    file_path: file_path@,
                    description: description@,
                }
            },
            RSpecEvent::ExampleFailed { id, location, file_path, description, exception } => {
                RSpecEventView::ExampleFailed {
                    id: id@,
                    location: match location {
                        Some(l) => Some(l@),
                        None => None,
                    },
                    file_path: file_path@,
                    description: match description {
                        Some(d) => Some(d@),
                        None => None,
                    },
                    exception: match exception {
                        Some(e) => Some(e@),
                        None => None,
                    },
                }
            },
            RSpecEvent::Stop => RSpecEventView::Stop,
            RSpecEvent::Error { msg } => RSpecEventView::Error { msg: msg@ },
            RSpecEvent::Exit => RSpecEventView::Exit,
        }
    }
}

/// The argument list for one run: `exec` and the rspec path when going
/// through bundler, then the fixed formatter flags, then the targets.
pub open spec fn spec_rspec_args(
    path_to_rspec: Seq<char>,
    use_bundler: bool,
    locations: Seq<Seq<char>>,
) -> Seq<Seq<char>> {
    (if use_bundler {
        seq!["exec"@, path_to_rspec]
    } else {
        Seq::empty()
    }) + seq!["--format"@, "RustRspecFormatter"@, "--require"@, "./test/rust_rspec_formatter.rb"@]
        + locations
}

/// The program and arguments that start one run: `bundle` with `exec`
/// prepended to the arguments when bundler is in use, the configured rspec
/// path otherwise; then the formatter flags and the target locations.
pub fn rspec_invocation(config: &RSpecConfiguration, locations: &Vec<String>) -> (r: (
    String,
    Vec<String>,
))
    ensures
        r.0@ == if config.use_bundler {
            "bundle"@
        } else {
            config.path_to_rspec@
        },
        r.1.deep_view() == spec_rspec_args(
            config.path_to_rspec@,
            config.use_bundler,
            locations.deep_view(),
        ),
{
    let program = if config.use_bundler {
        String::from_str("bundle")
    } else {
        config.path_to_rspec.clone()
    };
    let mut args: Vec<String> = Vec::new();
    if config.use_bundler {
        args.push(String::from_str("exec"));
        args.push(config.path_to_rspec.clone());
    }
    args.push(String::from_str("--format"));
    args.push(String::from_str("RustRspecFormatter"));
    args.push(String::from_str("--require"));
    args.push(String::from_str("./test/rust_rspec_formatter.rb"));
    let ghost head = args.deep_view();
    let mut i: usize = 0;
    while i < locations.len()
        invariant
            i <= locations@.len(),
            args@.len() == head.len() + i,
            forall|j: int| 0 <= j < head.len() ==> args@[j]@ == head[j],
            forall|j: int| 0 <= j < i ==> args@[head.len() + j]@ == locations@[j]@,
        decreases locations@.len() - i,
    {
        args.push(locations[i].clone());
        i += 1;
    }
    proof {
        assert(args.deep_view() =~= head + locations.deep_view());
        assert(head =~= spec_rspec_args(
            config.path_to_rspec@,
            config.use_bundler,
            Seq::<Seq<char>>::empty(),
        ));
        assert(spec_rspec_args(config.path_to_rspec@, config.use_bundler, Seq::<Seq<char>>::empty())
            + locations.deep_view() =~= spec_rspec_args(
            config.path_to_rspec@,
            config.use_bundler,
            locations.deep_view(),
        ));
    }
    (program, args)
}

/// A JSON value, as this crate models it: integers in `i64` range are kept
/// as such, any other number keeps its source text, and an object is its
/// key/value pairs with keys sorted and duplicates already collapsed.
pub enum JsonValue {
    Null,
    Bool(bool),
    Int(i64),
    Num(String),
    Str(String),
    Arr(Vec<JsonValue>),
    Obj(Vec<(String, JsonValue)>),
}

/// The JSON value a line of text denotes, if it is well-formed JSON.
pub uninterp spec fn json_of(line: Seq<char>) -> Option<JsonValue>;

#[verifier::external_type_specification]
#[verifier::external_body]
pub struct ExSerdeValue(serde_json::Value);

/// Relies on serde_json::Value: rebuilds the parsed tree in the crate's own
/// value type, one arm per variant; object keys come sorted from the
/// parser, later duplicates already collapsed.
#[verifier::external_body]
fn convert_json(v: &serde_json::Value) -> (r: JsonValue) {
    match v {
        serde_json::Value::Null => JsonValue::Null,
        serde_json::Value::Bool(b) => JsonValue::Bool(*b),
        serde_json::Value::Number(n) => match n.as_i64() {
            Some(i) => JsonValue::Int(i),
            None => JsonValue::Num(n.to_string()),
        },
        serde_json::Value::String(s) => JsonValue::Str(s.clone()),
        serde_json::Value::Array(a) => JsonValue::Arr(a.iter().map(convert_json).collect()),
        serde_json::Value::Object(m) => JsonValue::Obj(
            m.iter().map(|(k, w)| (k.clone(), convert_json(w))).collect(),
        ),
    }
}

/// Relies on serde_json::from_str: whether a line is well-formed JSON, and
/// which value it denotes, depend on the line's text alone.
#[verifier::external_body]
pub(crate) fn parse_json_line(line: &String) -> (r: Option<JsonValue>)
    ensures
        r == json_of(line@),
{
    serde_json::from_str::<serde_json::Value>(line.as_str()).ok().map(|v| convert_json(&v))
}

/// The value under the first occurrence of a key in an object's pairs.
pub open spec fn spec_get(m: Seq<(String, JsonValue)>, key: Seq<char>) -> Option<JsonValue>
    decreases m.len(),
{
    if m.len() == 0 {
        None
    } else if m[0].0@ == key {
        Some(m[0].1)
    } else {
        spec_get(m.drop_first(), key)
    }
}

/// A required string field: its text, or None on a missing field or a
/// wrong type.
pub open spec fn req_str(m: Seq<(String, JsonValue)>, key: Seq<char>) -> Option<Seq<char>> {
    match spec_get(m, key) {
        Some(JsonValue::Str(s)) => Some(s@),
        _ => None,
    }
}

/// An optional string field: absent or null is accepted as nothing, a
/// wrong type is an error.
pub open spec fn opt_str(m: Seq<(String, JsonValue)>, key: Seq<char>) -> Option<
    Option<Seq<char>>,
> {
    match spec_get(m, key) {
        None => Some(None),
        Some(JsonValue::Null) => Some(None),
        Some(JsonValue::Str(s)) => Some(Some(s@)),
        _ => None,
    }
}

/// An optional integer field: absent or null is accepted as nothing, a
/// non-integer is an error.
pub open spec fn opt_int(m: Seq<(String, JsonValue)>, key: Seq<char>) -> Option<Option<i64>> {
    match spec_get(m, key) {
        None => Some(None),
        Some(JsonValue::Null) => Some(None),
        Some(JsonValue::Int(i)) => Some(Some(i)),
        _ => None,
    }
}

/// Whether a required number field is present and is a number.
pub open spec fn req_num_ok(m: Seq<(String, JsonValue)>, key: Seq<char>) -> bool {
    match spec_get(m, key) {
        Some(JsonValue::Int(_)) => true,
        Some(JsonValue::Num(_)) => true,
        _ => false,
    }
}

/// Whether an optional number field is absent, null, or a number.
pub open spec fn opt_num_ok(m: Seq<(String, JsonValue)>, key: Seq<char>) -> bool {
    match spec_get(m, key) {
        None => true,
        Some(JsonValue::Null) => true,
        Some(JsonValue::Int(_)) => true,
        Some(JsonValue::Num(_)) => true,
        _ => false,
    }
}

/// The record a JSON value denotes under the protocol schema: an object
/// tagged by its `type` field, with the fields of that record type; fields
/// beyond the schema are ignored. None where the schema is not met.
pub open spec fn spec_event_of_json(v: JsonValue) -> Option<RSpecEventView> {
    match v {
        JsonValue::Obj(entries) => {
            let m = entries@;
            match spec_get(m, "type"@) {
                Some(JsonValue::Str(t)) => {
                    if t@ == "start"@ {
                        match opt_int(m, "count"@) {
                            Some(count) => Some(RSpecEventView::Start { count }),
                            None => None,
                        }
                    } else if t@ == "example_started"@ {
                        match (req_str(m, "id"@), req_str(m, "location"@), req_str(m, "file_path"@), opt_str(m, "description"@)) {
                            (Some(id), Some(location), Some(file_path), Some(description)) => Some(
                                RSpecEventView::ExampleStarted { id, location, file_path, description },
                            ),
                            _ => None,
                        }
                    } else if t@ == "example_passed"@ {
                        if req_num_ok(m, "run_time"@) && opt_num_ok(m, "load_time"@) {
                            match (req_str(m, "id"@), req_str(m, "location"@), req_str(m, "file_path"@), req_str(m, "description"@)) {
                                (Some(id), Some(location), Some(file_path), Some(description)) => Some(
                                    RSpecEventView::ExamplePassed { id, location, file_path, description },
                                ),
                                _ => None,
                            }
                        } else {
                            None
                        }
                    } else if t@ == "example_failed"@ {
                        if req_num_ok(m, "run_time"@) && opt_num_ok(m, "load_time"@) {
                            match (req_str(m, "id"@), opt_str(m, "location"@), req_str(m, "file_path"@), opt_str(m, "description"@), opt_str(m, "exception"@)) {
                                (
                                    Some(id),
                                    Some(location),
                                    Some(file_path),
                                    Some(description),
                                    Some(exception),
                                ) => Some(
                                    RSpecEventView::ExampleFailed {
                                        id,
                                        location,
                                        file_path,
                                        description,
                                        exception,
                                    },
                                ),
                                _ => None,
                            }
                        } else {
                            None
                        }
                    } else if t@ == "stop"@ {
                        Some(RSpecEventView::Stop)
                    } else if t@ == "error"@ {
                        match req_str(m, "msg"@) {
                            Some(msg) => Some(RSpecEventView::Error { msg }),
                            None => None,
                        }
                    } else if t@ == "exit"@ {
                        Some(RSpecEventView::Exit)
                    } else {
                        None
                    }
                },
                _ => None,
            }
        },
        _ => None,
    }
}

/// The record a whole line denotes: well-formed JSON meeting the schema.
pub open spec fn spec_parse_line(line: Seq<char>) -> Option<RSpecEventView> {
    match json_of(line) {
        Some(v) => spec_event_of_json(v),
        None => None,
    }
}

/// The least position of a key among an object's pairs, or -1.
pub open spec fn json_key_index(m: Seq<(String, JsonValue)>, key: Seq<char>) -> int
    decreases m.len(),
{
    if m.len() == 0 {
        -1
    } else if m[0].0@ == key {
        0
    } else {
        let r = json_key_index(m.drop_first(), key);
        if r < 0 {
            -1
        } else {
            r + 1
        }
    }
}

proof fn lemma_json_key_index(m: Seq<(String, JsonValue)>, key: Seq<char>)
    ensures
        0 <= json_key_index(m, key) ==> json_key_index(m, key) < m.len() && m[json_key_index(
            m,
            key,
        )].0@ == key && spec_get(m, key) == Some(m[json_key_index(m, key)].1),
        forall|j: int| 0 <= j < json_key_index(m, key) ==> m[j].0@ != key,
        json_key_index(m, key) < 0 ==> (forall|j: int| 0 <= j < m.len() ==> m[j].0@ != key)
            && spec_get(m, key) is None,
    decreases m.len(),
{
    if m.len() > 0 && m[0].0@ != key {
        lemma_json_key_index(m.drop_first(), key);
        assert(m.drop_first() =~= m.skip(1));
        let r = json_key_index(m.drop_first(), key);
        assert(spec_get(m, key) == spec_get(m.drop_first(), key));
        if r >= 0 {
            assert(m.drop_first()[r] == m[r + 1]);
            assert forall|j: int| 0 <= j < json_key_index(m, key) implies m[j].0@ != key by {
                if j > 0 {
                    assert(m.drop_first()[j - 1] == m[j]);
                }
            }
        } else {
            assert forall|j: int| 0 <= j < m.len() implies m[j].0@ != key by {
                if j > 0 {
                    assert(m.drop_first()[j - 1] == m[j]);
                }
            }
        }
    }
}

/// Look a key up among an object's pairs (first occurrence).
fn get_field<'a>(entries: &'a Vec<(String, JsonValue)>, key: &String) -> (r: Option<&'a JsonValue>)
    ensures
        match r {
            Some(v) => spec_get(entries@, key@) == Some(*v),
            None => spec_get(entries@, key@) is None,
        },
{
    let ghost m = entries@;
    let mut i: usize = 0;
    while i < entries.len()
        invariant
            m == entries@,
            i <= m.len(),
            forall|j: int| 0 <= j < i ==> m[j].0@ != key@,
        decreases m.len() - i,
    {
        if entries[i].0 == *key {
            proof {
                lemma_json_key_index(m, key@);
                let gi = json_key_index(m, key@);
                if gi < i as int {
                    assert(m[gi].0@ != key@);
                }
                if gi > i as int {
                    assert(m[i as int].0@ != key@);
                }
                assert(gi == i as int);
            }
            return Some(&entries[i].1);
        }
        i += 1;
    }
    proof {
        lemma_json_key_index(m, key@);
        let gi = json_key_index(m, key@);
        if gi >= 0 {
            assert(m[gi].0@ != key@);
        }
    }
    None
}

/// Whether a string's text equals a literal.
fn str_is(s: &String, lit: &str) -> (r: bool)
    ensures
        r == (s@ == lit@),
{
    let l = String::from_str(lit);
    *s == l
}

/// A required string field, by value.
fn f_req_str(entries: &Vec<(String, JsonValue)>, key: &str) -> (r: Option<String>)
    ensures
        match r {
            Some(s) => req_str(entries@, key@) == Some(s@),
            None => req_str(entries@, key@) is None,
        },
{
    let k = String::from_str(key);
    match get_field(entries, &k) {
        Some(JsonValue::Str(s)) => Some(s.clone()),
        _ => None,
    }
}

/// An optional string field, by value: absent or null is nothing.
fn f_opt_str(entries: &Vec<(String, JsonValue)>, key: &str) -> (r: Option<Option<String>>)
    ensures
        match r {
            Some(Some(s)) => opt_str(entries@, key@) == Some(Some(s@)),
            Some(None) => opt_str(entries@, key@) == Some(None::<Seq<char>>),
            None => opt_str(entries@, key@) is None,
        },
{
    let k = String::from_str(key);
    match get_field(entries, &k) {
        None => Some(None),
        Some(JsonValue::Null) => Some(None),
        Some(JsonValue::Str(s)) => Some(Some(s.clone())),
        _ => None,
    }
}

/// An optional integer field: absent or null is nothing.
fn f_opt_int(entries: &Vec<(String, JsonValue)>, key: &str) -> (r: Option<Option<i64>>)
    ensures
        r == opt_int(entries@, key@),
{
    let k = String::from_str(key);
    match get_field(entries, &k) {
        None => Some(None),
        Some(JsonValue::Null) => Some(None),
        Some(JsonValue::Int(i)) => Some(Some(*i)),
        _ => None,
    }
}

/// Whether a required number field is present and is a number.
fn f_req_num_ok(entries: &Vec<(String, JsonValue)>, key: &str) -> (r: bool)
    ensures
        r == req_num_ok(entries@, key@),
{
    let k = String::from_str(key);
    match get_field(entries, &k) {
        Some(JsonValue::Int(_)) => true,
        Some(JsonValue::Num(_)) => true,
        _ => false,
    }
}

/// Whether an optional number field is absent, null, or a number.
fn f_opt_num_ok(entries: &Vec<(String, JsonValue)>, key: &str) -> (r: bool)
    ensures
        r == opt_num_ok(entries@, key@),
{
    let k = String::from_str(key);
    match get_field(entries, &k) {
        None => true,
        Some(JsonValue::Null) => true,
        Some(JsonValue::Int(_)) => true,
        Some(JsonValue::Num(_)) => true,
        _ => false,
    }
}

/// Decode a JSON value under the protocol schema.
pub fn event_of_json(v: &JsonValue) -> (r: Option<RSpecEvent>)
    ensures
        match r {
            Some(e) => spec_event_of_json(*v) == Some(e@),
            None => spec_event_of_json(*v) is None,
        },
{
    let entries = match v {
        JsonValue::Obj(entries) => entries,
        _ => {
            return None;
        },
    };
    let tag = match f_req_str(entries, "type") {
        Some(t) => t,
        None => {
            return None;
        },
    };
    if str_is(&tag, "start") {
        match f_opt_int(entries, "count") {
            Some(count) => Some(RSpecEvent::Start { count }),
            None => None,
        }
    } else if str_is(&tag, "example_started") {
        match (f_req_str(entries, "id"), f_req_str(entries, "location"), f_req_str(
            entries,
            "file_path",
        ), f_opt_str(entries, "description")) {
            (Some(id), Some(location), Some(file_path), Some(description)) => Some(
                RSpecEvent::ExampleStarted { id, location, file_path, description },
            ),
            _ => None,
        }
    } else if str_is(&tag, "example_passed") {
        if f_req_num_ok(entries, "run_time") && f_opt_num_ok(entries, "load_time") {
            match (f_req_str(entries, "id"), f_req_str(entries, "location"), f_req_str(
                entries,
                "file_path",
            ), f_req_str(entries, "description")) {
                (Some(id), Some(location), Some(file_path), Some(description)) => Some(
                    RSpecEvent::ExamplePassed { id, location, file_path, description },
                ),
                _ => None,
            }
        } else {
            None
        }
    } else if str_is(&tag, "example_failed") {
        if f_req_num_ok(entries, "run_time") && f_opt_num_ok(entries, "load_time") {
            match (f_req_str(entries, "id"), f_opt_str(entries, "location"), f_req_str(
                entries,
                "file_path",
            ), f_opt_str(entries, "description"), f_opt_str(entries, "exception")) {
                (Some(id), Some(location), Some(file_path), Some(description), Some(exception)) => {
                    Some(
                        RSpecEvent::ExampleFailed {
                            id,
                            location,
                            file_path,
                            description,
                            exception,
                        },
                    )
                },
                _ => None,
            }
        } else {
            None
        }
    } else if str_is(&tag, "stop") {
        Some(RSpecEvent::Stop)
    } else if str_is(&tag, "error") {
        match f_req_str(entries, "msg") {
            Some(msg) => Some(RSpecEvent::Error { msg }),
            None => None,
        }
    } else if str_is(&tag, "exit") {
        Some(RSpecEvent::Exit)
    } else {
        None
    }
}

/// Parse one line of the runner's output: well-formed JSON that meets the
/// protocol schema gives its record, anything else is a protocol error.
pub fn parse_event_line(line: &String) -> (r: Option<RSpecEvent>)
    ensures
        match r {
            Some(e) => spec_parse_line(line@) == Some(e@),
            None => spec_parse_line(line@) is None,
        },
{
    match parse_json_line(line) {
        Some(v) => event_of_json(&v),
        None => None,
    }
}

/// The mathematical shape of one read from the runner's output.
pub enum LineOutcomeView {
    Line(Seq<char>),
    Eof,
    ReadError(Seq<char>),
}

/// What one attempt to read a line from the runner's output produced: a
/// line of text, the stream closing, or a read failure.
#[derive(Debug)]
pub enum LineOutcome {
    Line(String),
    Eof,
    ReadError(String),
}

impl View for LineOutcome {
    type V = LineOutcomeView;

    open spec fn view(&self) -> LineOutcomeView {
        match self {
            LineOutcome::Line(s) => LineOutcomeView::Line(s@),
            LineOutcome::Eof => LineOutcomeView::Eof,
            LineOutcome::ReadError(m) => LineOutcomeView::ReadError(m@),
        }
    }
}

/// What the output reader does with one read: the record to relay, if any,
/// and whether reading ends. A well-formed line relays its record and goes
/// on; a malformed line relays one Error, carrying the line itself, and
/// ends the reading; the stream closing ends it quietly; a read failure
/// relays its message as an Error and ends it.
pub open spec fn spec_reader_step(outcome: LineOutcomeView) -> (Option<RSpecEventView>, bool) {
    match outcome {
        LineOutcomeView::Line(s) => match spec_parse_line(s) {
            Some(e) => (Some(e), false),
            None => (Some(RSpecEventView::Error { msg: s }), true),
        },
        LineOutcomeView::Eof => (None, true),
        LineOutcomeView::ReadError(msg) => (Some(RSpecEventView::Error { msg }), true),
    }
}

/// Decide what to do with one read from the runner's output.
pub fn reader_step(outcome: LineOutcome) -> (r: (Option<RSpecEvent>, bool))
    ensures
        ({
            let (ev, done) = spec_reader_step(outcome@);
            ((match r.0 {
                Some(e) => ev == Some(e@),
                None => ev is None,
            }) && r.1 == done)
        }),
{
    match outcome {
        LineOutcome::Line(s) => match parse_event_line(&s) {
            Some(e) => (Some(e), false),
            None => (Some(RSpecEvent::Error { msg: s }), true),
        },
        LineOutcome::Eof => (None, true),
        LineOutcome::ReadError(msg) => (Some(RSpecEvent::Error { msg }), true),
    }
}

} // verus!
