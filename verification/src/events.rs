//! What the fixture runner reads from Codex's event stream: whether the
//! turn and the response completed, the commands Codex ran, how often each
//! tool was called, and the token usage reported. Call and item IDs make
//! repeated lifecycle events of one call count once.
use vstd::prelude::*;
use crate::json::{Json, JsonValue, spec_as_i64, spec_as_str, spec_member};
use crate::order::{key_lt, keys_of, locate, sorted_table};
use crate::text::{owned, push_all};

verus! {

/// The summary as plain values. Counters and token totals wrap on
/// overflow, as the runner's release build does.
pub struct EventView {
    pub turn_completed: bool,
    pub parse_errors: bool,
    pub response_completed: bool,
    pub response_count: usize,
    pub usage_responses: usize,
    pub input_tokens: i64,
    pub cached_input_tokens: i64,
    pub output_tokens: i64,
    pub commands: Seq<Seq<char>>,
    pub tools: Map<Seq<char>, i64>,
    pub seen: Set<Seq<char>>,
}

/// Nothing read yet.
pub open spec fn no_events() -> EventView {
    EventView {
        turn_completed: false,
        parse_errors: false,
        response_completed: false,
        response_count: 0,
        usage_responses: 0,
        input_tokens: 0,
        cached_input_tokens: 0,
        output_tokens: 0,
        commands: Seq::empty(),
        tools: Map::empty(),
        seen: Set::empty(),
    }
}

/// One more call of the tool `name`.
pub open spec fn count_tool(s: EventView, name: Seq<char>) -> EventView {
    let c = if s.tools.contains_key(name) { s.tools[name] } else { 0i64 };
    EventView { tools: s.tools.insert(name, c.wrapping_add(1)), ..s }
}

/// A call of the tool `name`, counted once per call ID where it has one.
pub open spec fn add_tool(s: EventView, name: Seq<char>, call_id: Option<Seq<char>>) -> EventView {
    match call_id {
        Some(id) => if s.seen.contains("tool:"@ + id) {
            s
        } else {
            count_tool(EventView { seen: s.seen.insert("tool:"@ + id), ..s }, name)
        },
        None => count_tool(s, name),
    }
}

/// A member as text.
pub open spec fn text_member(v: Json, key: Seq<char>) -> Option<Seq<char>> {
    match spec_member(v, key) {
        Some(m) => spec_as_str(m),
        None => None,
    }
}

/// A member as an `i64`, zero where it is absent or not one.
pub open spec fn i64_member(v: Json, key: Seq<char>) -> i64 {
    match spec_member(v, key) {
        Some(m) => match spec_as_i64(m) { Some(i) => i, None => 0 },
        None => 0,
    }
}

/// The usage a response reports, where it reports one as an object.
pub open spec fn inspect_usage(s: EventView, response: Json) -> EventView {
    match spec_member(response, "usage"@) {
        Some(u) => if u is Object {
            EventView {
                usage_responses: s.usage_responses.wrapping_add(1),
                input_tokens: s.input_tokens.wrapping_add(i64_member(u, "input_tokens"@)),
                output_tokens: s.output_tokens.wrapping_add(i64_member(u, "output_tokens"@)),
                cached_input_tokens: match spec_member(u, "input_tokens_details"@) {
                    Some(d) => if d is Object { s.cached_input_tokens.wrapping_add(i64_member(d, "cached_tokens"@)) } else { s.cached_input_tokens },
                    None => s.cached_input_tokens,
                },
                ..s
            }
        } else {
            s
        },
        None => s,
    }
}

/// An item of the stream: a command execution, counted once per item ID
/// (else per command text), and tool calls.
pub open spec fn inspect_item(s: EventView, item: Json) -> EventView {
    if !(item is Object) {
        s
    } else {
        let kind = match text_member(item, "type"@) { Some(t) => t, None => Seq::empty() };
        let s1 = if kind == "command_execution"@ {
            let id = match text_member(item, "id"@) {
                Some(i) => i,
                None => match text_member(item, "command"@) { Some(c) => c, None => "command"@ },
            };
            if s.seen.contains("command:"@ + id) {
                s
            } else {
                let command = match text_member(item, "command"@) { Some(c) => c, None => Seq::empty() };
                add_tool(EventView { seen: s.seen.insert("command:"@ + id), commands: s.commands.push(command), ..s }, "exec_command"@, None)
            }
        } else {
            s
        };
        if kind == "function_call"@ || kind == "custom_tool_call"@ {
            match text_member(item, "name"@) {
                Some(name) => add_tool(s1, name, text_member(item, "call_id"@)),
                None => s1,
            }
        } else {
            s1
        }
    }
}

/// What an event object says by its type.
pub open spec fn inspect_head(s: EventView, v: Json) -> EventView {
    let kind = match text_member(v, "type"@) { Some(t) => t, None => Seq::empty() };
    if kind == "turn.completed"@ {
        EventView { turn_completed: true, ..s }
    } else if kind == "response.completed"@ {
        let s1 = EventView { response_completed: true, response_count: s.response_count.wrapping_add(1), ..s };
        match spec_member(v, "response"@) { Some(r) => inspect_usage(s1, r), None => s1 }
    } else if kind == "item.started"@ || kind == "item.updated"@ || kind == "item.completed"@ {
        match spec_member(v, "item"@) { Some(i) => inspect_item(s, i), None => s }
    } else if kind == "error"@ || kind == "turn.failed"@ || kind == "response.failed"@ {
        EventView { parse_errors: true, ..s }
    } else if kind == "function_call"@ || kind == "custom_tool_call"@ {
        match text_member(v, "name"@) {
            Some(name) => add_tool(s, name, text_member(v, "call_id"@)),
            None => s,
        }
    } else {
        s
    }
}

/// An event and, after it, every object nested in its members other than
/// `item` and `response` (request and response dumps nest calls).
pub open spec fn inspect_event(s: EventView, v: Json) -> EventView
    decreases v, 0nat,
{
    match v {
        Json::Object(members) => walk_members(inspect_head(s, v), members, 0),
        _ => s,
    }
}

/// The nested members from the `i`-th on.
pub open spec fn walk_members(s: EventView, members: Seq<(Seq<char>, Json)>, i: nat) -> EventView
    decreases members, members.len() - i,
{
    if i >= members.len() {
        s
    } else {
        proof {
            assert(decreases_to!(members => members[i as int]));
        }
        let s1 = if members[i as int].0 == "item"@ || members[i as int].0 == "response"@ { s } else { inspect_event(s, members[i as int].1) };
        walk_members(s1, members, i + 1)
    }
}

/// The summary after one line: blank lines are skipped, a line that is not
/// JSON marks a parse error.
pub open spec fn event_line(s: EventView, line: Seq<char>) -> EventView {
    if crate::text::is_blank(line) {
        s
    } else {
        match crate::json::json_parse(vstd::utf8::encode_utf8(line)) {
            Some(v) => inspect_event(s, v),
            None => EventView { parse_errors: true, ..s },
        }
    }
}

/// The summary after the first `n` lines.
pub open spec fn events_upto(lines: Seq<Seq<char>>, n: int) -> EventView
    decreases n,
{
    if n <= 0 || n > lines.len() {
        no_events()
    } else {
        event_line(events_upto(lines, n - 1), lines[n - 1])
    }
}

/// The summary of an event stream.
pub open spec fn spec_events(text: Seq<char>) -> EventView {
    let lines = crate::codex_evidence::spec_lines(text);
    events_upto(lines, lines.len() as int)
}

/// The map a table with distinct keys holds.
pub open spec fn table_map(t: Seq<(Seq<char>, i64)>) -> Map<Seq<char>, i64> {
    Map::new(
        |k: Seq<char>| exists|i: int| 0 <= i < t.len() && t[i].0 == k,
        |k: Seq<char>| t[choose|i: int| 0 <= i < t.len() && t[i].0 == k].1,
    )
}

/// A table sorted by key holds exactly `table_map` of itself.
proof fn lemma_table_map(t: Seq<(Seq<char>, i64)>, m: Map<Seq<char>, i64>)
    requires
        sorted_table(t, m),
    ensures
        m == table_map(t),
{
    assert forall|k: Seq<char>| #[trigger] m.contains_key(k) == table_map(t).contains_key(k) by {
        if m.contains_key(k) {
            let i = choose|i: int| 0 <= i < t.len() && t[i].0 == k;
            assert(t[i].0 == k);
        }
        if table_map(t).contains_key(k) {
            let i = choose|i: int| 0 <= i < t.len() && t[i].0 == k;
            crate::order::lemma_table_entry(t, m, i);
        }
    }
    assert forall|k: Seq<char>| #[trigger] m.contains_key(k) implies m[k] == table_map(t)[k] by {
        let i = choose|i: int| 0 <= i < t.len() && t[i].0 == k;
        crate::order::lemma_table_entry(t, m, i);
        let j = choose|j: int| 0 <= j < t.len() && t[j].0 == k;
        if i < j {
            assert(key_lt(t[i].0, t[j].0));
            crate::order::lemma_key_order(k, k, k);
        } else if j < i {
            assert(key_lt(t[j].0, t[i].0));
            crate::order::lemma_key_order(k, k, k);
        }
    }
    assert(m =~= table_map(t));
}

/// A table with strictly increasing keys holds its own map.
proof fn lemma_table_self(t: Seq<(Seq<char>, i64)>)
    requires
        forall|i: int, j: int| 0 <= i < j < t.len() ==> key_lt(#[trigger] t[i].0, #[trigger] t[j].0),
    ensures
        sorted_table(t, table_map(t)),
{
    let m = table_map(t);
    assert forall|i: int| 0 <= i < t.len() implies m.contains_key(t[i].0) && m[t[i].0] == #[trigger] t[i].1 by {
        let j = choose|j: int| 0 <= j < t.len() && t[j].0 == t[i].0;
        if i < j {
            assert(key_lt(t[i].0, t[j].0));
            crate::order::lemma_key_order(t[i].0, t[i].0, t[i].0);
        } else if j < i {
            assert(key_lt(t[j].0, t[i].0));
            crate::order::lemma_key_order(t[i].0, t[i].0, t[i].0);
        }
    }
    assert forall|i: int| #![trigger t[i]] 0 <= i < t.len() implies m.contains_key(t[i].0) && m[t[i].0] == t[i].1 by {
        assert(m[t[i].0] == t[i].1);
    }
}

/// The summary of an event stream, in order of reading.
pub struct EventSummary {
    pub turn_completed: bool,
    pub parse_errors: bool,
    pub response_completed: bool,
    pub response_count: usize,
    pub usage_responses: usize,
    pub input_tokens: i64,
    pub cached_input_tokens: i64,
    pub output_tokens: i64,
    pub commands: Vec<String>,
    pub tool_counts: Vec<(String, i64)>,
    pub seen_ids: Vec<String>,
}

/// A table of tool counts by its values.
pub open spec fn tool_view(t: Seq<(String, i64)>) -> Seq<(Seq<char>, i64)> {
    Seq::new(t.len(), |i: int| (t[i].0@, t[i].1))
}

impl EventSummary {
    /// The summary as plain values.
    pub open spec fn view(&self) -> EventView {
        EventView {
            turn_completed: self.turn_completed,
            parse_errors: self.parse_errors,
            response_completed: self.response_completed,
            response_count: self.response_count,
            usage_responses: self.usage_responses,
            input_tokens: self.input_tokens,
            cached_input_tokens: self.cached_input_tokens,
            output_tokens: self.output_tokens,
            commands: crate::collection::arg_views(self.commands@),
            tools: table_map(tool_view(self.tool_counts@)),
            seen: crate::m5_runner::string_set(self.seen_ids@),
        }
    }

    /// Whether the tool table is sorted by tool name.
    pub open spec fn wf(&self) -> bool {
        forall|i: int, j: int| 0 <= i < j < self.tool_counts@.len() ==> key_lt(#[trigger] self.tool_counts@[i].0@, #[trigger] self.tool_counts@[j].0@)
    }

    /// Nothing read yet.
    pub fn new() -> (r: EventSummary)
        ensures
            r.view() == no_events(),
            r.wf(),
    {
        let r = EventSummary {
            turn_completed: false,
            parse_errors: false,
            response_completed: false,
            response_count: 0,
            usage_responses: 0,
            input_tokens: 0,
            cached_input_tokens: 0,
            output_tokens: 0,
            commands: Vec::new(),
            tool_counts: Vec::new(),
            seen_ids: Vec::new(),
        };
        assert(crate::collection::arg_views(r.commands@) =~= Seq::<Seq<char>>::empty());
        assert(table_map(tool_view(r.tool_counts@)) =~= Map::<Seq<char>, i64>::empty());
        assert(crate::m5_runner::string_set(r.seen_ids@) =~= Set::<Seq<char>>::empty());
        r
    }

    /// How often the tool `name` was called.
    pub fn tool_count(&self, name: &str) -> (r: i64)
        requires
            self.wf(),
        ensures
            r == (if self.view().tools.contains_key(name@) { self.view().tools[name@] } else { 0i64 }),
    {
        let ghost t = tool_view(self.tool_counts@);
        proof {
            lemma_table_self(t);
        }
        assert forall|a: int, b: int| 0 <= a < b < keys_of(self.tool_counts@).len() implies
            key_lt(#[trigger] keys_of(self.tool_counts@)[a], #[trigger] keys_of(self.tool_counts@)[b]) by {
            assert(keys_of(self.tool_counts@)[a] == self.tool_counts@[a].0@);
            assert(keys_of(self.tool_counts@)[b] == self.tool_counts@[b].0@);
        }
        let (pos, found) = locate(&self.tool_counts, name);
        if found {
            proof {
                crate::order::lemma_table_entry(t, table_map(t), pos as int);
            }
            self.tool_counts[pos].1
        } else {
            proof {
                if table_map(t).contains_key(name@) {
                    let i = choose|i: int| 0 <= i < t.len() && t[i].0 == name@;
                    crate::order::lemma_key_order(name@, name@, name@);
                    if i < pos {
                        assert(key_lt(self.tool_counts@[i].0@, name@));
                    } else {
                        assert(key_lt(name@, self.tool_counts@[i].0@));
                    }
                }
            }
            0
        }
    }

    /// The tools called, with their counts, sorted by name.
    pub fn tool_table(&self) -> (r: Vec<(String, i64)>)
        requires
            self.wf(),
        ensures
            sorted_table(tool_view(r@), self.view().tools),
    {
        proof {
            lemma_table_self(tool_view(self.tool_counts@));
        }
        let mut out: Vec<(String, i64)> = Vec::new();
        let mut i: usize = 0;
        while i < self.tool_counts.len()
            invariant
                i <= self.tool_counts@.len(),
                tool_view(out@) == tool_view(self.tool_counts@).take(i as int),
            decreases self.tool_counts.len() - i,
        {
            let ghost before = tool_view(out@);
            let name = owned(self.tool_counts[i].0.as_str());
            let count = self.tool_counts[i].1;
            let ghost e = (name@, count);
            assert(e == tool_view(self.tool_counts@)[i as int]);
            out.push((name, count));
            assert(tool_view(out@) =~= before.push(e));
            assert(tool_view(out@) =~= tool_view(self.tool_counts@).take(i + 1));
            i += 1;
        }
        assert(tool_view(self.tool_counts@).take(self.tool_counts@.len() as int) =~= tool_view(self.tool_counts@));
        out
    }

    fn seen(&self, key: &str) -> (r: bool)
        ensures
            r == self.view().seen.contains(key@),
    {
        let mut i: usize = 0;
        while i < self.seen_ids.len()
            invariant
                i <= self.seen_ids@.len(),
                forall|j: int| 0 <= j < i ==> self.seen_ids@[j]@ != key@,
            decreases self.seen_ids.len() - i,
        {
            if crate::json::str_eq(self.seen_ids[i].as_str(), key) {
                assert(crate::m5_runner::string_set(self.seen_ids@).contains(key@));
                return true;
            }
            i += 1;
        }
        false
    }

    fn remember(&mut self, key: String)
        requires
            old(self).wf(),
        ensures
            final(self).wf(),
            final(self).view() == (EventView { seen: old(self).view().seen.insert(key@), ..old(self).view() }),
    {
        let ghost k = key@;
        self.seen_ids.push(key);
        assert(crate::m5_runner::string_set(self.seen_ids@) =~= crate::m5_runner::string_set(old(self).seen_ids@).insert(k)) by {
            assert forall|x: Seq<char>| #[trigger] crate::m5_runner::string_set(self.seen_ids@).contains(x)
                == crate::m5_runner::string_set(old(self).seen_ids@).insert(k).contains(x) by {
                if crate::m5_runner::string_set(self.seen_ids@).contains(x) {
                    let i = choose|i: int| 0 <= i < self.seen_ids@.len() && self.seen_ids@[i]@ == x;
                    if i < old(self).seen_ids@.len() {
                        assert(self.seen_ids@[i] == old(self).seen_ids@[i]);
                    }
                }
                if crate::m5_runner::string_set(old(self).seen_ids@).contains(x) {
                    let i = choose|i: int| 0 <= i < old(self).seen_ids@.len() && old(self).seen_ids@[i]@ == x;
                    assert(self.seen_ids@[i] == old(self).seen_ids@[i]);
                }
                if x == k {
                    assert(self.seen_ids@[old(self).seen_ids@.len() as int]@ == k);
                }
            }
        }
    }

    fn count_tool(&mut self, name: &str)
        requires
            old(self).wf(),
        ensures
            final(self).wf(),
            final(self).view() == count_tool(old(self).view(), name@),
    {
        let ghost t = tool_view(self.tool_counts@);
        let ghost m = table_map(t);
        proof {
            lemma_table_self(t);
        }
        assert forall|a: int, b: int| 0 <= a < b < keys_of(self.tool_counts@).len() implies
            key_lt(#[trigger] keys_of(self.tool_counts@)[a], #[trigger] keys_of(self.tool_counts@)[b]) by {
            assert(keys_of(self.tool_counts@)[a] == self.tool_counts@[a].0@);
            assert(keys_of(self.tool_counts@)[b] == self.tool_counts@[b].0@);
        }
        let (pos, found) = locate(&self.tool_counts, name);
        if found {
            proof {
                crate::order::lemma_table_entry(t, m, pos as int);
            }
            let (k, c) = self.tool_counts.remove(pos);
            let n = c.wrapping_add(1);
            self.tool_counts.insert(pos, (k, n));
            proof {
                crate::order::lemma_table_update(t, m, pos as int, n);
                assert(tool_view(self.tool_counts@) =~= t.update(pos as int, (t[pos as int].0, n)));
                lemma_table_map(tool_view(self.tool_counts@), m.insert(name@, n));
            }
        } else {
            proof {
                if m.contains_key(name@) {
                    let i = choose|i: int| 0 <= i < t.len() && t[i].0 == name@;
                    crate::order::lemma_key_order(name@, name@, name@);
                    if i < pos {
                        assert(key_lt(t[i].0, name@));
                    } else {
                        assert(key_lt(name@, t[i].0));
                    }
                }
                assert forall|a: int| 0 <= a < pos implies key_lt(#[trigger] t[a].0, name@) by {}
                assert forall|a: int| pos <= a < t.len() implies key_lt(name@, #[trigger] t[a].0) by {}
            }
            let n = 0i64.wrapping_add(1);
            self.tool_counts.insert(pos, (owned(name), n));
            proof {
                crate::order::lemma_table_insert(t, m, pos as int, name@, n);
                assert(tool_view(self.tool_counts@) =~= t.insert(pos as int, (name@, n)));
                lemma_table_map(tool_view(self.tool_counts@), m.insert(name@, n));
            }
        }
        proof {
            let u = tool_view(self.tool_counts@);
            assert forall|i: int, j: int| 0 <= i < j < self.tool_counts@.len() implies
                key_lt(#[trigger] self.tool_counts@[i].0@, #[trigger] self.tool_counts@[j].0@) by {
                assert(u[i].0 == self.tool_counts@[i].0@ && u[j].0 == self.tool_counts@[j].0@);
            }
        }
    }
    fn add_tool(&mut self, name: &str, call_id: Option<&str>)
        requires
            old(self).wf(),
        ensures
            final(self).wf(),
            final(self).view() == add_tool(old(self).view(), name@, match call_id { Some(c) => Some(c@), None => None }),
    {
        match call_id {
            Some(id) => {
                let mut key = owned("tool:");
                push_all(&mut key, id);
                if self.seen(key.as_str()) {
                    return;
                }
                self.remember(key);
                self.count_tool(name);
            },
            None => self.count_tool(name),
        }
    }

    fn inspect_usage(&mut self, response: &JsonValue)
        requires
            old(self).wf(),
        ensures
            final(self).wf(),
            final(self).view() == inspect_usage(old(self).view(), response@),
    {
        match response.get("usage") {
            Some(u) => {
                if let JsonValue::Object(_) = u {
                    self.usage_responses = self.usage_responses.wrapping_add(1);
                    self.input_tokens = self.input_tokens.wrapping_add(i64_of(u, "input_tokens"));
                    self.output_tokens = self.output_tokens.wrapping_add(i64_of(u, "output_tokens"));
                    match u.get("input_tokens_details") {
                        Some(d) => {
                            if let JsonValue::Object(_) = d {
                                self.cached_input_tokens = self.cached_input_tokens.wrapping_add(i64_of(d, "cached_tokens"));
                            }
                        },
                        None => {},
                    }
                }
            },
            None => {},
        }
    }

    fn inspect_item(&mut self, item: &JsonValue)
        requires
            old(self).wf(),
        ensures
            final(self).wf(),
            final(self).view() == inspect_item(old(self).view(), item@),
    {
        if let JsonValue::Object(_) = item {
        } else {
            return;
        }
        let kind = match text_of(item, "type") { Some(t) => t, None => "" };
        proof {
            reveal_strlit("");
        }
        let ghost k = kind@;
        assert(k == match text_member(item@, "type"@) { Some(t) => t, None => Seq::<char>::empty() });
        let ghost s0 = old(self).view();
        if crate::json::str_eq(kind, "command_execution") {
            let id = match text_of(item, "id") {
                Some(i) => i,
                None => match text_of(item, "command") { Some(c) => c, None => "command" },
            };
            let mut key = owned("command:");
            push_all(&mut key, id);
            if !self.seen(key.as_str()) {
                let command = match text_of(item, "command") { Some(c) => owned(c), None => String::new() };
                self.remember(key);
                let ghost before = crate::collection::arg_views(self.commands@);
                let ghost cv = command@;
                self.commands.push(command);
                assert(crate::collection::arg_views(self.commands@) =~= before.push(cv));
                self.add_tool("exec_command", None);
            }
        }
        let ghost s1 = self.view();
        assert(s1 == (if k == "command_execution"@ {
            let id = match text_member(item@, "id"@) {
                Some(i) => i,
                None => match text_member(item@, "command"@) { Some(c) => c, None => "command"@ },
            };
            if s0.seen.contains("command:"@ + id) {
                s0
            } else {
                let command = match text_member(item@, "command"@) { Some(c) => c, None => Seq::empty() };
                add_tool(EventView { seen: s0.seen.insert("command:"@ + id), commands: s0.commands.push(command), ..s0 }, "exec_command"@, None)
            }
        } else {
            s0
        }));
        if crate::json::str_eq(kind, "function_call") || crate::json::str_eq(kind, "custom_tool_call") {
            match text_of(item, "name") {
                Some(name) => self.add_tool(name, text_of(item, "call_id")),
                None => {},
            }
        }
    }

    fn inspect_head(&mut self, v: &JsonValue)
        requires
            old(self).wf(),
        ensures
            final(self).wf(),
            final(self).view() == inspect_head(old(self).view(), v@),
    {
        let kind = match text_of(v, "type") { Some(t) => t, None => "" };
        proof {
            reveal_strlit("");
        }
        let ghost k = kind@;
        assert(k == match text_member(v@, "type"@) { Some(t) => t, None => Seq::<char>::empty() });
        if crate::json::str_eq(kind, "turn.completed") {
            self.turn_completed = true;
            assert(self.view() == inspect_head(old(self).view(), v@));
        } else if crate::json::str_eq(kind, "response.completed") {
            self.response_completed = true;
            self.response_count = self.response_count.wrapping_add(1);
            assert(self.view() == (EventView { response_completed: true, response_count: old(self).view().response_count.wrapping_add(1), ..old(self).view() }));
            match v.get("response") {
                Some(r) => self.inspect_usage(r),
                None => {},
            }
            assert(self.view() == inspect_head(old(self).view(), v@));
        } else if crate::json::str_eq(kind, "item.started") || crate::json::str_eq(kind, "item.updated") || crate::json::str_eq(kind, "item.completed") {
            match v.get("item") {
                Some(i) => self.inspect_item(i),
                None => {},
            }
        } else if crate::json::str_eq(kind, "error") || crate::json::str_eq(kind, "turn.failed") || crate::json::str_eq(kind, "response.failed") {
            self.parse_errors = true;
        } else if crate::json::str_eq(kind, "function_call") || crate::json::str_eq(kind, "custom_tool_call") {
            match text_of(v, "name") {
                Some(name) => self.add_tool(name, text_of(v, "call_id")),
                None => {},
            }
        }
    }

    /// Reads one event and the objects nested in it.
    #[verifier::loop_isolation(false)]
    pub fn inspect_event(&mut self, v: &JsonValue)
        requires
            old(self).wf(),
        ensures
            final(self).wf(),
            final(self).view() == inspect_event(old(self).view(), v@),
        decreases *v,
    {
        match v {
            JsonValue::Object(members) => {
                let ghost ms = match v@ { Json::Object(m) => m, _ => Seq::empty() };
                assert(ms.len() == members@.len());
                assert forall|j: int| 0 <= j < members@.len() implies #[trigger] ms[j] == (members@[j].0@, members@[j].1@) by {}
                self.inspect_head(v);
                let ghost start = self.view();
                assert(inspect_event(old(self).view(), v@) == walk_members(start, ms, 0));
                let mut i: usize = 0;
                while i < members.len()
                    invariant
                        i <= members@.len(),
                        ms.len() == members@.len(),
                        forall|j: int| 0 <= j < members@.len() ==> #[trigger] ms[j] == (members@[j].0@, members@[j].1@),
                        self.wf(),
                        walk_members(start, ms, 0) == walk_members(self.view(), ms, i as nat),
                    decreases members.len() - i,
                {
                    assert(decreases_to!(*v => *members));
                    assert(decreases_to!(*members => members@));
                    assert(decreases_to!(members@ => members@[i as int]));
                    assert(decreases_to!(members@[i as int] => members@[i as int].1));
                    assert(ms[i as int] == (members@[i as int].0@, members@[i as int].1@));
                    let key = members[i].0.as_str();
                    if !crate::json::str_eq(key, "item") && !crate::json::str_eq(key, "response") {
                        self.inspect_event(&members[i].1);
                    }
                    i += 1;
                }
            },
            _ => {},
        }
    }
}

fn text_of<'a>(v: &'a JsonValue, key: &str) -> (r: Option<&'a str>)
    ensures
        match r { Some(t) => text_member(v@, key@) == Some(t@), None => text_member(v@, key@) is None },
{
    match v.get(key) {
        Some(m) => m.as_str(),
        None => None,
    }
}

fn i64_of(v: &JsonValue, key: &str) -> (r: i64)
    ensures
        r == i64_member(v@, key@),
{
    match v.get(key) {
        Some(m) => match m.as_i64() { Some(i) => i, None => 0 },
        None => 0,
    }
}

/// Reads a whole event stream.
pub fn parse_events(text: &str) -> (r: EventSummary)
    ensures
        r.wf(),
        r.view() == spec_events(text@),
{
    let lines = crate::codex_evidence::lines_of(text);
    let ghost lv = crate::text::char_views(lines@);
    let mut summary = EventSummary::new();
    let mut i: usize = 0;
    while i < lines.len()
        invariant
            i <= lines@.len(),
            lv == crate::text::char_views(lines@),
            lv == crate::codex_evidence::spec_lines(text@),
            summary.wf(),
            summary.view() == events_upto(lv, i as int),
        decreases lines.len() - i,
    {
        let line = crate::text::string_of(lines[i].as_slice());
        assert(line@ == lv[i as int]);
        if !crate::text::blank(line.as_str()) {
            match crate::json::parse_json(line.as_str().as_bytes()) {
                Some(v) => summary.inspect_event(&v),
                None => summary.parse_errors = true,
            }
        }
        i += 1;
    }
    summary
}


/// A call ID counts once: a call whose ID was already seen changes nothing,
/// one with a new ID adds one call of its tool (the counter wraps as the
/// release build does) and no other, and a call without an ID always adds
/// one.
pub proof fn lemma_call_counted_once(s: EventView, name: Seq<char>, id: Seq<char>)
    ensures
        s.seen.contains("tool:"@ + id) ==> add_tool(s, name, Some(id)) == s,
        !s.seen.contains("tool:"@ + id) ==> {
            let t = add_tool(s, name, Some(id));
            &&& t.seen.contains("tool:"@ + id)
            &&& t.tools.contains_key(name)
            &&& t.tools[name] == (if s.tools.contains_key(name) { s.tools[name] } else { 0i64 }).wrapping_add(1)
            &&& forall|other: Seq<char>| other != name ==> (#[trigger] t.tools.contains_key(other)) == s.tools.contains_key(other)
                && (s.tools.contains_key(other) ==> t.tools[other] == s.tools[other])
            &&& add_tool(t, name, Some(id)) == t
        },
        add_tool(s, name, None).tools[name] == (if s.tools.contains_key(name) { s.tools[name] } else { 0i64 }).wrapping_add(1),
{
}

} // verus!
