//! The offline replay model: which requests are model turns, where a real
//! tool output names its session, and the SSE reply for each turn.
use vstd::prelude::*;
use crate::codex_evidence::{first_word, first_word_exec};
use crate::json::{Json, JsonNumber, JsonValue, Num, json_parse, json_text, parse_json, spec_as_i64, spec_as_str, spec_field, spec_is_text, spec_member, str_eq, to_json_text};
use crate::json_object::{member_views, object1, object2, object_of, spec_set, set_member};
use crate::text::{chars_of, decimal, owned, parse_i64, push_all, push_decimal, rfind_chars, spec_parse_i64, spec_rfind, occurs_at};

verus! {

/// The session ID that a text names after its last `session ID `.
pub open spec fn session_in_text(text: Seq<char>) -> Option<i64> {
    match spec_rfind(text, "session ID "@) {
        None => None,
        Some(k) => match first_word(text.skip(k + 11)) {
            Some(w) => spec_parse_i64(w),
            None => None,
        },
    }
}

/// The session ID that a tool output reports: its own `session_id` member;
/// else the last element or member value that reports one; for a text, the
/// JSON it holds (up to `fuel` levels deep) or the words after
/// `session ID `.
pub open spec fn spec_session_id(v: Json, fuel: nat) -> Option<i64>
    decreases fuel, v, 0nat,
{
    match spec_member(v, "session_id"@) {
        Some(s) if spec_as_i64(s) is Some => spec_as_i64(s),
        _ => match v {
            Json::Array(items) => last_item_session(items, items.len(), fuel),
            Json::Object(members) => last_member_session(members, members.len(), fuel),
            Json::Str(text) => if fuel == 0 {
                session_in_text(text)
            } else {
                match json_parse(vstd::utf8::encode_utf8(text)) {
                    Some(p) => match spec_session_id(p, (fuel - 1) as nat) {
                        Some(id) => Some(id),
                        None => session_in_text(text),
                    },
                    None => session_in_text(text),
                }
            },
            _ => None,
        },
    }
}

/// The session ID of the last of the first `n` items that reports one.
pub open spec fn last_item_session(items: Seq<Json>, n: nat, fuel: nat) -> Option<i64>
    decreases fuel, items, n,
{
    if n == 0 || n > items.len() {
        None
    } else {
        match spec_session_id(items[n - 1], fuel) {
            Some(id) => Some(id),
            None => last_item_session(items, (n - 1) as nat, fuel),
        }
    }
}

/// The session ID of the last of the first `n` member values that reports
/// one.
pub open spec fn last_member_session(members: Seq<(Seq<char>, Json)>, n: nat, fuel: nat) -> Option<i64>
    decreases fuel, members, n,
{
    if n == 0 || n > members.len() {
        None
    } else {
        proof {
            assert(decreases_to!(members => members[n - 1]));
        }
        match spec_session_id(members[n - 1].1, fuel) {
            Some(id) => Some(id),
            None => last_member_session(members, (n - 1) as nat, fuel),
        }
    }
}


/// The session ID after the last `session ID ` of a text.
fn session_in_text_exec(text: &str) -> (r: Option<i64>)
    ensures
        r == session_in_text(text@),
{
    let chars = chars_of(text);
    let marker = chars_of("session ID ");
    proof {
        reveal_strlit("session ID ");
    }
    assert(marker@.len() == 11);
    match rfind_chars(chars.as_slice(), marker.as_slice()) {
        None => None,
        Some(k) => {
            assert(occurs_at(chars@, marker@, k as int));
            assert(k + 11 <= chars@.len());
            assert(chars@.len() == chars.len());
            let from: usize = k + 11;
            let tail = crate::text::slice_chars(chars.as_slice(), from, chars.len());
            assert(tail@ =~= chars@.skip(from as int));
            match first_word_exec(tail.as_slice()) {
                Some(w) => parse_i64(w.as_slice()),
                None => None,
            }
        },
    }
}

#[verifier::loop_isolation(false)]
fn session_id_fuel(value: &JsonValue, fuel: u64) -> (r: Option<i64>)
    ensures
        r == spec_session_id(value@, fuel as nat),
    decreases fuel, *value,
{
    let own = match value.get("session_id") {
        Some(s) => s.as_i64(),
        None => None,
    };
    if own.is_some() {
        return own;
    }
    match value {
        JsonValue::Array(items) => {
            let ghost views = match value@ { Json::Array(v) => v, _ => Seq::empty() };
            assert(views.len() == items@.len());
            let mut k = items.len();
            while k > 0
                invariant
                    k <= items@.len(),
                    views.len() == items@.len(),
                    forall|j: int| 0 <= j < items@.len() ==> #[trigger] views[j] == items@[j]@,
                    spec_session_id(value@, fuel as nat) == last_item_session(views, k as nat, fuel as nat),
                decreases k,
            {
                assert(decreases_to!(*value => *items));
                assert(decreases_to!(*items => items@));
                assert(decreases_to!(items@ => items@[k - 1]));
                assert(views[k - 1] == items@[k - 1]@);
                let found = session_id_fuel(&items[k - 1], fuel);
                if found.is_some() {
                    return found;
                }
                k -= 1;
            }
            None
        },
        JsonValue::Object(members) => {
            let ghost views = match value@ { Json::Object(v) => v, _ => Seq::empty() };
            assert(views.len() == members@.len());
            let mut k = members.len();
            while k > 0
                invariant
                    k <= members@.len(),
                    views.len() == members@.len(),
                    forall|j: int| 0 <= j < members@.len() ==> #[trigger] views[j] == (members@[j].0@, members@[j].1@),
                    spec_session_id(value@, fuel as nat) == last_member_session(views, k as nat, fuel as nat),
                decreases k,
            {
                assert(decreases_to!(*value => *members));
                assert(decreases_to!(*members => members@));
                assert(decreases_to!(members@ => members@[k - 1]));
                assert(decreases_to!(members@[k - 1] => members@[k - 1].1));
                assert(views[k - 1] == (members@[k - 1].0@, members@[k - 1].1@));
                let found = session_id_fuel(&members[k - 1].1, fuel);
                if found.is_some() {
                    return found;
                }
                k -= 1;
            }
            None
        },
        JsonValue::Str(text) => {
            if fuel == 0 {
                return session_in_text_exec(text.as_str());
            }
            match parse_json(text.as_str().as_bytes()) {
                Some(p) => {
                    match session_id_fuel(&p, fuel - 1) {
                        Some(id) => Some(id),
                        None => session_in_text_exec(text.as_str()),
                    }
                },
                None => session_in_text_exec(text.as_str()),
            }
        },
        _ => None,
    }
}

/// The session ID that a tool output reports (see [`spec_session_id`]).
pub fn session_id(value: &JsonValue) -> (r: Option<i64>)
    ensures
        r == spec_session_id(value@, u64::MAX as nat),
{
    session_id_fuel(value, u64::MAX)
}


/// Whether a request to the replay server is a model turn: it has an
/// `input` array (other requests are housekeeping).
pub open spec fn spec_is_model_request(body: Json) -> bool {
    spec_field(body, "input"@) is Array
}

/// Whether a request is a model turn.
pub fn is_model_request(body: &JsonValue) -> (r: bool)
    ensures
        r == spec_is_model_request(body@),
{
    match body.field("input") {
        JsonValue::Array(_) => true,
        _ => false,
    }
}

/// Whether an input item is the output of a tool call.
pub open spec fn is_tool_output(item: Json) -> bool {
    let t = spec_as_str(spec_field(item, "type"@));
    t == Some("custom_tool_call_output"@) || t == Some("function_call_output"@)
}

/// The number of tool outputs among the first `n` input items.
pub open spec fn output_count(input: Seq<Json>, n: int) -> nat
    decreases n,
{
    if n <= 0 || n > input.len() {
        0
    } else {
        output_count(input, n - 1) + if is_tool_output(input[n - 1]) { 1nat } else { 0nat }
    }
}

/// A JSON number from an `i64`.
pub open spec fn i64_number(n: i64) -> Json {
    if n >= 0 { Json::Number(Num::PosInt(n as u64)) } else { Json::Number(Num::NegInt(n)) }
}

/// `<prefix>-<sequence>`.
pub open spec fn numbered(prefix: Seq<char>, sequence: usize) -> Seq<char> {
    prefix + "-"@ + decimal(sequence as nat)
}

/// The item that the replayed model answers with: in Code Mode the task's
/// program as one `exec` call; otherwise the next scripted tool call, with a
/// `$session` argument replaced by the session ID of the latest real tool
/// output; and a final message once the script is done.
pub open spec fn spec_reply_item(input: Seq<Json>, active: Json, sequence: usize) -> Result<Json, Seq<char>> {
    let count = output_count(input, input.len() as int);
    let steps = spec_field(spec_field(active, "task"@), "steps"@);
    match steps {
        Json::Array(steps) => {
            let code = spec_is_text(spec_field(active, "tool_mode"@), "code"@);
            if code && count == 0 && steps.len() > 0 {
                Ok(Json::Object(seq![
                    ("type"@, Json::Str("custom_tool_call"@)),
                    ("call_id"@, Json::Str(numbered("call"@, sequence))),
                    ("name"@, Json::Str("exec"@)),
                    ("input"@, spec_field(spec_field(active, "task"@), "code_mode_program"@)),
                ]))
            } else if !code && count < steps.len() {
                let step = steps[count as int];
                let arguments = spec_field(step, "arguments"@);
                let filled: Result<Json, Seq<char>> = if spec_is_text(spec_field(arguments, "session_id"@), "$session"@) {
                    match last_item_session(input, input.len(), u64::MAX as nat) {
                        Some(id) => match arguments {
                            Json::Object(m) => Ok(Json::Object(spec_set(m, "session_id"@, i64_number(id)))),
                            _ => Ok(arguments),
                        },
                        None => Err("session ID missing from real tool output"@),
                    }
                } else {
                    Ok(arguments)
                };
                match filled {
                    Err(e) => Err(e),
                    Ok(args) => match spec_as_str(spec_field(step, "tool"@)) {
                        None => Err("missing replay tool name"@),
                        Some(name) => Ok(Json::Object(seq![
                            ("type"@, Json::Str("function_call"@)),
                            ("id"@, Json::Str(numbered("fc"@, sequence))),
                            ("call_id"@, Json::Str(numbered("call"@, sequence))),
                            ("name"@, Json::Str(name)),
                            ("arguments"@, Json::Str(json_text(args))),
                        ])),
                    },
                }
            } else {
                Ok(Json::Object(seq![
                    ("type"@, Json::Str("message"@)),
                    ("role"@, Json::Str("assistant"@)),
                    ("id"@, Json::Str(numbered("done"@, sequence))),
                    ("content"@, Json::Array(seq![Json::Object(seq![("type"@, Json::Str("output_text"@)), ("text"@, Json::Str("DONE"@))])])),
                ]))
            }
        },
        _ => Err("missing replay steps"@),
    }
}

/// One SSE event of a reply.
pub open spec fn sse_event(kind: Seq<char>, event: Json) -> Seq<char> {
    "event: "@ + kind + "\ndata: "@ + json_text(event) + "\n\n"@
}

/// The SSE text of a replayed turn: created, the item, completed.
pub open spec fn spec_response(body: Json, active: Json, sequence: usize) -> Result<Seq<char>, Seq<char>> {
    match spec_field(body, "input"@) {
        Json::Array(input) => match spec_reply_item(input, active, sequence) {
            Err(e) => Err(e),
            Ok(item) => {
                let id = Json::Object(seq![("id"@, Json::Str(numbered("replay"@, sequence)))]);
                Ok(sse_event("response.created"@, Json::Object(seq![("type"@, Json::Str("response.created"@)), ("response"@, id)]))
                    + sse_event("response.output_item.done"@, Json::Object(seq![("type"@, Json::Str("response.output_item.done"@)), ("item"@, item)]))
                    + sse_event("response.completed"@, Json::Object(seq![("type"@, Json::Str("response.completed"@)), ("response"@, id)])))
            },
        },
        _ => Err("missing Responses input"@),
    }
}

fn numbered_text(prefix: &str, sequence: usize) -> (r: String)
    ensures
        r@ == numbered(prefix@, sequence),
{
    let mut out = owned(prefix);
    push_all(&mut out, "-");
    push_decimal(&mut out, sequence as u64);
    out
}

fn push_event(out: &mut String, kind: &str, event: &JsonValue)
    ensures
        final(out)@ == old(out)@ + sse_event(kind@, event@),
{
    push_all(out, "event: ");
    push_all(out, kind);
    push_all(out, "\ndata: ");
    let text = to_json_text(event);
    push_all(out, text.as_str());
    push_all(out, "\n\n");
}

fn i64_value(n: i64) -> (r: JsonValue)
    ensures
        r@ == i64_number(n),
{
    if n >= 0 { JsonValue::Number(JsonNumber::PosInt(n as u64)) } else { JsonValue::Number(JsonNumber::NegInt(n)) }
}

fn reply_item(input: &Vec<JsonValue>, active: &JsonValue, sequence: usize) -> (r: Result<JsonValue, String>)
    ensures
        match r {
            Ok(v) => spec_reply_item(crate::evidence::value_views(input@), active@, sequence) == Ok::<Json, Seq<char>>(v@),
            Err(e) => spec_reply_item(crate::evidence::value_views(input@), active@, sequence) == Err::<Json, Seq<char>>(e@),
        },
{
    let ghost iv = crate::evidence::value_views(input@);
    let mut count: usize = 0;
    let mut i: usize = 0;
    while i < input.len()
        invariant
            i <= input.len(),
            iv == crate::evidence::value_views(input@),
            count == output_count(iv, i as int),
            count <= i,
        decreases input.len() - i,
    {
        assert(iv[i as int] == input@[i as int]@);
        let t = input[i].field_str("type");
        let tool = match t {
            Some(k) => str_eq(k, "custom_tool_call_output") || str_eq(k, "function_call_output"),
            None => false,
        };
        if tool {
            count += 1;
        }
        i += 1;
    }
    let task = active.field("task");
    let steps_value = task.field("steps");
    let steps = match &steps_value {
        JsonValue::Array(s) => s,
        _ => return Err(owned("missing replay steps")),
    };
    let ghost sv = crate::evidence::value_views(steps@);
    assert(steps_value@ == Json::Array(sv)) by {
        assert(sv =~= match steps_value@ { Json::Array(v) => v, _ => Seq::empty() });
    }
    let code = active.field("tool_mode").is_text("code");
    if code && count == 0 && steps.len() > 0 {
        let mut m: Vec<(String, JsonValue)> = Vec::new();
        crate::json_object::push_member(&mut m, "type", crate::json_object::text_value("custom_tool_call"));
        crate::json_object::push_member(&mut m, "call_id", JsonValue::Str(numbered_text("call", sequence)));
        crate::json_object::push_member(&mut m, "name", crate::json_object::text_value("exec"));
        crate::json_object::push_member(&mut m, "input", task.field("code_mode_program"));
        assert(member_views(m@) =~= seq![
            ("type"@, Json::Str("custom_tool_call"@)),
            ("call_id"@, Json::Str(numbered("call"@, sequence))),
            ("name"@, Json::Str("exec"@)),
            ("input"@, spec_field(spec_field(active@, "task"@), "code_mode_program"@)),
        ]);
        return Ok(object_of(m));
    }
    if !code && count < steps.len() {
        let step = &steps[count];
        assert(sv[count as int] == step@);
        let mut arguments = step.field("arguments");
        if arguments.field("session_id").is_text("$session") {
            let ghost n = input@.len();
            let mut k = input.len();
            let mut found: Option<i64> = None;
            while k > 0 && found.is_none()
                invariant
                    k <= input@.len(),
                    iv == crate::evidence::value_views(input@),
                    found is None ==> last_item_session(iv, input@.len(), u64::MAX as nat) == last_item_session(iv, k as nat, u64::MAX as nat),
                    found is Some ==> last_item_session(iv, input@.len(), u64::MAX as nat) == found,
                decreases k + (if found is None { 1int } else { 0int }),
            {
                assert(iv[k - 1] == input@[k - 1]@);
                let s = session_id(&input[k - 1]);
                if s.is_some() {
                    found = s;
                } else {
                    k -= 1;
                }
            }
            let id = match found {
                Some(id) => id,
                None => return Err(owned("session ID missing from real tool output")),
            };
            match &mut arguments {
                JsonValue::Object(m) => {
                    proof {
                        crate::json_object::lemma_object_view(*m);
                    }
                    set_member(m, "session_id", i64_value(id));
                    proof {
                        crate::json_object::lemma_object_view(*m);
                    }
                },
                _ => {},
            }
        }
        let name = match step.field_str("tool") {
            Some(n) => n,
            None => return Err(owned("missing replay tool name")),
        };
        let mut m: Vec<(String, JsonValue)> = Vec::new();
        crate::json_object::push_member(&mut m, "type", crate::json_object::text_value("function_call"));
        crate::json_object::push_member(&mut m, "id", JsonValue::Str(numbered_text("fc", sequence)));
        crate::json_object::push_member(&mut m, "call_id", JsonValue::Str(numbered_text("call", sequence)));
        crate::json_object::push_member(&mut m, "name", crate::json_object::text_value(name));
        crate::json_object::push_member(&mut m, "arguments", JsonValue::Str(to_json_text(&arguments)));
        assert(member_views(m@) =~= seq![
            ("type"@, Json::Str("function_call"@)),
            ("id"@, Json::Str(numbered("fc"@, sequence))),
            ("call_id"@, Json::Str(numbered("call"@, sequence))),
            ("name"@, Json::Str(name@)),
            ("arguments"@, Json::Str(json_text(arguments@))),
        ]);
        return Ok(object_of(m));
    }
    let mut inner: Vec<(String, JsonValue)> = Vec::new();
    crate::json_object::push_member(&mut inner, "type", crate::json_object::text_value("output_text"));
    crate::json_object::push_member(&mut inner, "text", crate::json_object::text_value("DONE"));
    assert(member_views(inner@) =~= seq![("type"@, Json::Str("output_text"@)), ("text"@, Json::Str("DONE"@))]);
    let first = object_of(inner);
    let ghost fv = first@;
    let mut content: Vec<JsonValue> = Vec::new();
    content.push(first);
    let content = JsonValue::Array(content);
    assert(content@ == Json::Array(seq![fv])) by {
        if let Json::Array(a) = content@ {
            assert(a =~= seq![fv]);
        }
    }
    let mut m: Vec<(String, JsonValue)> = Vec::new();
    crate::json_object::push_member(&mut m, "type", crate::json_object::text_value("message"));
    crate::json_object::push_member(&mut m, "role", crate::json_object::text_value("assistant"));
    crate::json_object::push_member(&mut m, "id", JsonValue::Str(numbered_text("done", sequence)));
    crate::json_object::push_member(&mut m, "content", content);
    assert(member_views(m@) =~= seq![
        ("type"@, Json::Str("message"@)),
        ("role"@, Json::Str("assistant"@)),
        ("id"@, Json::Str(numbered("done"@, sequence))),
        ("content"@, Json::Array(seq![Json::Object(seq![("type"@, Json::Str("output_text"@)), ("text"@, Json::Str("DONE"@))])])),
    ]);
    Ok(object_of(m))
}

/// The SSE reply of the replay server to one model turn.
pub fn response(body: &JsonValue, active: &JsonValue, sequence: usize) -> (r: Result<String, String>)
    ensures
        match r {
            Ok(t) => spec_response(body@, active@, sequence) == Ok::<Seq<char>, Seq<char>>(t@),
            Err(e) => spec_response(body@, active@, sequence) == Err::<Seq<char>, Seq<char>>(e@),
        },
{
    let input_value = body.field("input");
    let input = match &input_value {
        JsonValue::Array(items) => items,
        _ => return Err(owned("missing Responses input")),
    };
    let ghost iv = crate::evidence::value_views(input@);
    assert(input_value@ == Json::Array(iv)) by {
        assert(iv =~= match input_value@ { Json::Array(v) => v, _ => Seq::empty() });
    }
    let item = match reply_item(input, active, sequence) {
        Ok(i) => i,
        Err(e) => return Err(e),
    };
    let id = object1("id", JsonValue::Str(numbered_text("replay", sequence)));
    let id2 = id.copy();
    let created = object2("type", crate::json_object::text_value("response.created"), "response", id);
    let done = object2("type", crate::json_object::text_value("response.output_item.done"), "item", item);
    let completed = object2("type", crate::json_object::text_value("response.completed"), "response", id2);
    let mut out = String::new();
    push_event(&mut out, "response.created", &created);
    push_event(&mut out, "response.output_item.done", &done);
    push_event(&mut out, "response.completed", &completed);
    Ok(out)
}

} // verus!
