//! The decisions of the JSON-RPC server: which handler a request goes to, what a tool
//! call asks to be done, and how its outcome is answered. Running commands, changing
//! directory and writing JSON are left to the caller.
use vstd::prelude::*;
use crate::mcp::mapping::{
    JsonValue, error_view, map_arguments_except, members_except, positional_for, resolve_tool_name, resolved_tool, str_opt_view,
};
use crate::mcp::tools::{
    InspectOutput, TIMEOUT_PARAM, TOOL_GET_CWD, TOOL_RUN_DOCS, TOOL_SET_CWD, ToolView, builtin_tools, get_builtin_tools, inspect, runfile_tools,
    tool_wf, tools_view,
};
use crate::parser::{parsed, script_error_report};
use crate::table::{Table, lookup};
use crate::text::{decimal, from_chars, join, join_strings, push_all, push_str, string_views, to_chars};
use crate::parser::attributes::{all_digits, digits_value};
use crate::utils::HostPlatform;

verus! {

/// An error answered to a JSON-RPC request.
#[derive(Debug, Clone)]
pub struct JsonRpcError {
    pub code: i32,
    pub message: String,
}

/// Where a JSON-RPC request goes.
#[derive(Debug)]
pub enum Route {
    /// Answer with this error.
    Reject(JsonRpcError),
    /// A notification: no answer.
    Notification,
    Initialize,
    ToolsList,
    ToolsCall,
}

/// The route of a request with this protocol version, method, and whether it has an id.
pub open spec fn route_of(jsonrpc: Seq<char>, has_id: bool, method: Seq<char>) -> Result<Option<int>, (i32, Seq<char>)> {
    if jsonrpc != "2.0"@ {
        Err((-32600i32, "Invalid JSON-RPC version: "@ + jsonrpc))
    } else if !has_id {
        Ok(None)
    } else if method == "initialize"@ {
        Ok(Some(0))
    } else if method == "tools/list"@ {
        Ok(Some(1))
    } else if method == "tools/call"@ {
        Ok(Some(2))
    } else {
        Err((-32601i32, "Method not found: "@ + method))
    }
}

pub open spec fn route_view(r: Route) -> Result<Option<int>, (i32, Seq<char>)> {
    match r {
        Route::Reject(e) => Err(error_view(e)),
        Route::Notification => Ok(None),
        Route::Initialize => Ok(Some(0)),
        Route::ToolsList => Ok(Some(1)),
        Route::ToolsCall => Ok(Some(2)),
    }
}

fn str_eq(a: &str, b: &str) -> (r: bool)
    ensures
        r == (a@ == b@),
{
    let x = to_chars(a);
    let y = to_chars(b);
    crate::text::chars_eq(x.as_slice(), y.as_slice())
}

fn prefixed(prefix: &str, rest: &str) -> (s: String)
    ensures
        s@ == prefix@ + rest@,
{
    let mut m = to_chars(prefix);
    push_str(&mut m, rest);
    from_chars(m.as_slice())
}

/// Decide where a request goes: a version other than `2.0` is rejected, a request without
/// an id is a notification, and an unknown method is rejected.
pub fn route_request(jsonrpc: &str, has_id: bool, method: &str) -> (r: Route)
    ensures
        route_view(r) == route_of(jsonrpc@, has_id, method@),
{
    proof {
        reveal_strlit("2.0");
        reveal_strlit("initialize");
        reveal_strlit("tools/list");
        reveal_strlit("tools/call");
    }
    if !str_eq(jsonrpc, "2.0") {
        return Route::Reject(JsonRpcError { code: -32600, message: prefixed("Invalid JSON-RPC version: ", jsonrpc) });
    }
    if !has_id {
        return Route::Notification;
    }
    if str_eq(method, "initialize") {
        Route::Initialize
    } else if str_eq(method, "tools/list") {
        Route::ToolsList
    } else if str_eq(method, "tools/call") {
        Route::ToolsCall
    } else {
        Route::Reject(JsonRpcError { code: -32601, message: prefixed("Method not found: ", method) })
    }
}

/// The tools listed to an agent: the Runfile's, then the built-in ones. A Runfile that
/// does not parse is answered with an internal error.
pub open spec fn listed_tools(content: Option<Seq<char>>, host: HostPlatform) -> Result<Seq<ToolView>, (i32, Seq<char>)> {
    match content {
        None => Ok(builtin_tools()),
        Some(c) => match parsed(c) {
            Ok(sv) => Ok(runfile_tools(sv, host) + builtin_tools()),
            Err(_) => Err((-32603i32, "Internal error: "@ + "Parse error: "@ + script_error_report(c, None))),
        },
    }
}

/// Answer a `tools/list` request (see `listed_tools`).
pub fn handle_tools_list(content: Option<&str>, host: HostPlatform) -> (r: Result<InspectOutput, JsonRpcError>)
    ensures
        match listed_tools(str_opt_view(content), host) {
            Ok(v) => (r matches Ok(o) && tools_view(o.tools@) == v),
            Err(e) => (r matches Err(x) && error_view(x) == e),
        },
        r matches Ok(o) ==> forall|i: int| 0 <= i < o.tools@.len() ==> tool_wf(#[trigger] o.tools@[i]),
{
    match inspect(content, host) {
        Ok(mut output) => {
            let ghost before = output.tools@;
            let mut builtin = get_builtin_tools();
            let ghost added = builtin@;
            output.tools.append(&mut builtin);
            assert(output.tools@ =~= before + added);
            assert(tools_view(output.tools@) =~= tools_view(before) + tools_view(added));
            proof {
                if content is None {
                    assert(tools_view(before) =~= Seq::<ToolView>::empty());
                }
                assert forall|i: int| 0 <= i < output.tools@.len() implies tool_wf(#[trigger] output.tools@[i]) by {
                    if i >= before.len() {
                        assert(output.tools@[i] == added[i - before.len()]);
                    }
                }
            }
            Ok(output)
        },
        Err(e) => Err(JsonRpcError { code: -32603, message: prefixed("Internal error: ", e.as_str()) }),
    }
}

/// The opening text of the instructions given to an agent on `initialize`.
pub open spec fn instructions_intro() -> Seq<char> {
    "This is a `run` MCP server. `run` is a task-runner that reads a `Runfile` (similar to a Makefile) in the current working directory. Each function defined in the Runfile with a `# @desc` comment is exposed as a tool here. If a tool call fails with a Runfile syntax error, the Runfile itself needs to be fixed \u{2014} use the `run_docs` tool to look up correct Runfile syntax, parameter types, and attributes."@
}

/// The Runfile's own instructions as a list, after a heading; nothing when there are none.
pub open spec fn instruction_list(items: Seq<Seq<char>>) -> Seq<char>
    decreases items.len(),
{
    if items.len() == 0 {
        Seq::empty()
    } else {
        instruction_list(items.drop_last()) + "\n- "@ + items.last()
    }
}

/// The instructions given to an agent on `initialize`.
pub open spec fn initialize_instructions(items: Seq<Seq<char>>) -> Seq<char> {
    if items.len() == 0 {
        instructions_intro()
    } else {
        instructions_intro() + "\n\nRunfile instructions:"@ + instruction_list(items)
    }
}

/// The instructions given to an agent on `initialize`, with the Runfile's own
/// instructions listed after them.
pub fn build_initialize_instructions(runfile_instructions: &[String]) -> (s: String)
    ensures
        s@ == initialize_instructions(string_views(runfile_instructions@)),
{
    let mut out = to_chars(
        "This is a `run` MCP server. `run` is a task-runner that reads a `Runfile` (similar to a Makefile) in the current working directory. Each function defined in the Runfile with a `# @desc` comment is exposed as a tool here. If a tool call fails with a Runfile syntax error, the Runfile itself needs to be fixed \u{2014} use the `run_docs` tool to look up correct Runfile syntax, parameter types, and attributes.",
    );
    if runfile_instructions.len() > 0 {
        push_str(&mut out, "\n\nRunfile instructions:");
        let ghost head = out@;
        let ghost items = string_views(runfile_instructions@);
        let mut i: usize = 0;
        while i < runfile_instructions.len()
            invariant
                i <= runfile_instructions@.len(),
                items == string_views(runfile_instructions@),
                out@ == head + instruction_list(items.take(i as int)),
            decreases runfile_instructions@.len() - i,
        {
            assert(items.take(i + 1).drop_last() =~= items.take(i as int));
            push_str(&mut out, "\n- ");
            push_str(&mut out, runfile_instructions[i].as_str());
            i = i + 1;
        }
        assert(items.take(runfile_instructions@.len() as int) =~= items);
    }
    from_chars(out.as_slice())
}

/// What a tool call asks to be done.
#[derive(Debug)]
pub enum ToolCall {
    /// Change the working directory.
    SetCwd { path: String },
    /// Report the working directory.
    GetCwd,
    /// Serve a documentation topic (`index` when none is named).
    RunDocs { topic: String },
    /// Run a function with positional arguments, within `timeout` seconds when given.
    Run { function: String, args: Vec<String>, timeout: Option<u64> },
}

pub enum ToolCallView {
    SetCwd { path: Seq<char> },
    GetCwd,
    RunDocs { topic: Seq<char> },
    Run { function: Seq<char>, args: Seq<Seq<char>>, timeout: Option<u64> },
}

pub open spec fn tool_call_view(c: ToolCall) -> ToolCallView {
    match c {
        ToolCall::SetCwd { path } => ToolCallView::SetCwd { path: path@ },
        ToolCall::GetCwd => ToolCallView::GetCwd,
        ToolCall::RunDocs { topic } => ToolCallView::RunDocs { topic: topic@ },
        ToolCall::Run { function, args, timeout } => ToolCallView::Run { function: function@, args: string_views(args@), timeout },
    }
}

/// The member `key` of an object.
pub open spec fn member(v: JsonValue, key: Seq<char>) -> Option<JsonValue> {
    match v {
        JsonValue::Object(t, _) => lookup(t.entries@, key),
        _ => None,
    }
}

/// The member `key` of an object, when it is a string.
pub open spec fn string_member(v: JsonValue, key: Seq<char>) -> Option<Seq<char>> {
    match member(v, key) {
        Some(JsonValue::String(s)) => Some(s@),
        _ => None,
    }
}

/// The members of a call's named arguments: those of its `arguments` member when that is
/// an object, none otherwise.
pub open spec fn call_arguments(params: JsonValue) -> Seq<(String, JsonValue)> {
    match member(params, "arguments"@) {
        Some(JsonValue::Object(t, _)) => t.entries@,
        _ => Seq::empty(),
    }
}

/// A JSON number as a `u64` (`serde_json::Value::as_u64`): a number written with digits
/// only whose value fits; `None` for anything else (negative, fractional, other values).
pub open spec fn json_u64(v: JsonValue) -> Option<u64> {
    match v {
        JsonValue::Number(t) => if t@.len() > 0 && all_digits(t@) && digits_value(t@) <= u64::MAX {
            Some(digits_value(t@) as u64)
        } else {
            None
        },
        _ => None,
    }
}

/// The timeout a call asks for: its `timeout` argument, when that is a `u64`.
pub open spec fn call_timeout(params: JsonValue) -> Option<u64> {
    match member(params, "arguments"@) {
        Some(a) => match member(a, TIMEOUT_PARAM@) {
            Some(v) => json_u64(v),
            None => None,
        },
        None => None,
    }
}

/// What the parameters of a `tools/call` request ask, by the Runfile's content.
pub open spec fn planned_call(params: Option<JsonValue>, content: Option<Seq<char>>) -> Result<ToolCallView, (i32, Seq<char>)> {
    match params {
        None => Err((-32602i32, "Missing params"@)),
        Some(p) => match string_member(p, "name"@) {
            None => Err((-32602i32, "Missing tool name"@)),
            Some(name) => if name == TOOL_SET_CWD@ {
                match member(p, "arguments"@) {
                    Some(a) => match string_member(a, "path"@) {
                        Some(path) => Ok(ToolCallView::SetCwd { path }),
                        None => Err((-32602i32, "Missing 'path' argument"@)),
                    },
                    None => Err((-32602i32, "Missing 'path' argument"@)),
                }
            } else if name == TOOL_GET_CWD@ {
                Ok(ToolCallView::GetCwd)
            } else if name == TOOL_RUN_DOCS@ {
                let topic = match member(p, "arguments"@) {
                    Some(a) => string_member(a, "topic"@),
                    None => None,
                };
                Ok(ToolCallView::RunDocs { topic: match topic { Some(t) => t, None => "index"@ } })
            } else {
                match resolved_tool(content, name) {
                    Err(e) => Err(e),
                    Ok(f) => {
                        match positional_for(content, f, members_except(Some(call_arguments(p)), Some(TIMEOUT_PARAM@))) {
                            Err(e) => Err(e),
                            Ok(v) => Ok(ToolCallView::Run { function: f, args: v, timeout: call_timeout(p) }),
                        }
                    },
                }
            }
        },
    }
}

pub open spec fn json_opt(p: Option<&JsonValue>) -> Option<JsonValue> {
    match p {
        Some(v) => Some(*v),
        None => None,
    }
}

fn member_exec<'a>(v: &'a JsonValue, key: &str) -> (r: Option<&'a JsonValue>)
    ensures
        r matches Some(x) ==> member(*v, key@) == Some(*x),
        r is None ==> member(*v, key@) is None,
{
    match v {
        JsonValue::Object(t, _) => t.find(key),
        _ => None,
    }
}

fn string_member_exec<'a>(v: &'a JsonValue, key: &str) -> (r: Option<&'a String>)
    ensures
        r matches Some(x) ==> string_member(*v, key@) == Some(x@),
        r is None ==> string_member(*v, key@) is None,
{
    match member_exec(v, key) {
        Some(JsonValue::String(s)) => Some(s),
        _ => None,
    }
}

/// Decide what a `tools/call` request asks (see `planned_call`): the built-in tools
/// `set_cwd` and `get_cwd`, or a Runfile function with its positional arguments.
pub fn plan_tool_call(params: Option<&JsonValue>, content: Option<&str>) -> (r: Result<ToolCall, JsonRpcError>)
    ensures
        match planned_call(json_opt(params), str_opt_view(content)) {
            Ok(c) => (r matches Ok(x) && tool_call_view(x) == c),
            Err(e) => (r matches Err(x) && error_view(x) == e),
        },
{
    proof {
        reveal_strlit("name");
        reveal_strlit("arguments");
        reveal_strlit("path");
        reveal_strlit("topic");
    }
    let p = match params {
        None => {
            return Err(JsonRpcError { code: -32602, message: "Missing params".to_string() });
        },
        Some(p) => p,
    };
    let name = match string_member_exec(p, "name") {
        None => {
            return Err(JsonRpcError { code: -32602, message: "Missing tool name".to_string() });
        },
        Some(n) => n,
    };
    if str_eq(name.as_str(), TOOL_SET_CWD) {
        let path = match member_exec(p, "arguments") {
            Some(a) => string_member_exec(a, "path"),
            None => None,
        };
        return match path {
            Some(path) => Ok(ToolCall::SetCwd { path: path.clone() }),
            None => Err(JsonRpcError { code: -32602, message: "Missing 'path' argument".to_string() }),
        };
    }
    if str_eq(name.as_str(), TOOL_GET_CWD) {
        return Ok(ToolCall::GetCwd);
    }
    if str_eq(name.as_str(), TOOL_RUN_DOCS) {
        let topic = match member_exec(p, "arguments") {
            Some(a) => string_member_exec(a, "topic"),
            None => None,
        };
        return Ok(ToolCall::RunDocs { topic: match topic {
            Some(t) => t.clone(),
            None => "index".to_string(),
        } });
    }
    let function = match resolve_tool_name(content, name.as_str()) {
        Ok(f) => f,
        Err(e) => {
            return Err(e);
        },
    };
    let empty = JsonValue::Object(Table::new(), "{}".to_string());
    let arguments = match member_exec(p, "arguments") {
        Some(a) => match a {
            JsonValue::Object(_, _) => a,
            _ => &empty,
        },
        None => &empty,
    };
    assert(crate::mcp::mapping::object_members(*arguments) == Some(call_arguments(*p)));
    let timeout = match member_exec(p, "arguments") {
        Some(a) => match member_exec(a, TIMEOUT_PARAM) {
            Some(v) => json_u64_exec(v),
            None => None,
        },
        None => None,
    };
    match map_arguments_except(content, function.as_str(), arguments, Some(TIMEOUT_PARAM)) {
        Ok(args) => Ok(ToolCall::Run { function, args, timeout }),
        Err(e) => Err(e),
    }
}

/// A documentation topic: its slug, its title and its text.
#[derive(Debug, Clone)]
pub struct DocTopic {
    pub slug: String,
    pub title: String,
    pub content: String,
}

/// The line of the topic index that names a topic.
pub open spec fn index_line(d: DocTopic) -> Seq<char> {
    "- **"@ + d.slug@ + "**: "@ + d.title@
}

/// The lines of the topic index.
pub open spec fn index_lines(docs: Seq<DocTopic>) -> Seq<Seq<char>> {
    docs.map_values(|d: DocTopic| index_line(d))
}

/// The slugs of the topics.
pub open spec fn topic_slugs(docs: Seq<DocTopic>) -> Seq<Seq<char>> {
    docs.map_values(|d: DocTopic| d.slug@)
}

/// The first topic at or after `from` whose slug is `slug`.
pub open spec fn topic_at(docs: Seq<DocTopic>, slug: Seq<char>, from: int) -> Option<int>
    decreases docs.len() - from,
{
    if from < 0 || from >= docs.len() {
        None
    } else if docs[from].slug@ == slug {
        Some(from)
    } else {
        topic_at(docs, slug, from + 1)
    }
}

/// The text `run_docs` answers for `topic`: the index of the topics for `index` or an
/// empty topic, the text of the first topic with that slug, or else the list of slugs.
pub open spec fn docs_text(docs: Seq<DocTopic>, topic: Seq<char>) -> Seq<char> {
    if topic == "index"@ || topic.len() == 0 {
        "# run documentation topics\n\nCall `run_docs` with one of these topic slugs:\n\n"@ + join(index_lines(docs), "\n"@)
    } else {
        match topic_at(docs, topic, 0) {
            Some(i) => docs[i].content@,
            None => "Unknown topic `"@ + topic + "`. Available topics: "@ + join(topic_slugs(docs), ", "@),
        }
    }
}

/// The text of a documentation topic (see `docs_text`).
pub fn run_docs_text(topic: &str, docs: &[DocTopic]) -> (s: String)
    ensures
        s@ == docs_text(docs@, topic@),
{
    let topic_chars = to_chars(topic);
    if str_eq(topic, "index") || topic_chars.len() == 0 {
        let mut lines: Vec<String> = Vec::new();
        let mut i: usize = 0;
        while i < docs.len()
            invariant
                i <= docs@.len(),
                string_views(lines@) == index_lines(docs@.take(i as int)),
            decreases docs@.len() - i,
        {
            let mut line = to_chars("- **");
            push_str(&mut line, docs[i].slug.as_str());
            push_str(&mut line, "**: ");
            push_str(&mut line, docs[i].title.as_str());
            let ghost before = lines@;
            let entry = from_chars(line.as_slice());
            assert(entry@ == index_line(docs@[i as int]));
            lines.push(entry);
            assert(string_views(lines@) =~= string_views(before).push(entry@));
            assert(index_lines(docs@.take(i + 1)) =~= index_lines(docs@.take(i as int)).push(index_line(docs@[i as int])));
            i = i + 1;
        }
        assert(docs@.take(docs@.len() as int) =~= docs@);
        let index = join_strings(lines.as_slice(), "\n");
        return prefixed("# run documentation topics\n\nCall `run_docs` with one of these topic slugs:\n\n", index.as_str());
    }
    let mut i: usize = 0;
    while i < docs.len()
        invariant
            i <= docs@.len(),
            topic_at(docs@, topic@, 0) == topic_at(docs@, topic@, i as int),
            !(topic@ == "index"@ || topic@.len() == 0),
        decreases docs@.len() - i,
    {
        if str_eq(docs[i].slug.as_str(), topic) {
            return docs[i].content.clone();
        }
        i = i + 1;
    }
    let mut slugs: Vec<String> = Vec::new();
    let mut k: usize = 0;
    while k < docs.len()
        invariant
            k <= docs@.len(),
            string_views(slugs@) == topic_slugs(docs@.take(k as int)),
        decreases docs@.len() - k,
    {
        let ghost before = slugs@;
        let slug = docs[k].slug.clone();
        slugs.push(slug);
        assert(string_views(slugs@) =~= string_views(before).push(docs@[k as int].slug@));
        assert(topic_slugs(docs@.take(k + 1)) =~= topic_slugs(docs@.take(k as int)).push(docs@[k as int].slug@));
        k = k + 1;
    }
    assert(docs@.take(docs@.len() as int) =~= docs@);
    let mut out = to_chars("Unknown topic `");
    push_str(&mut out, topic);
    push_str(&mut out, "`. Available topics: ");
    let listed = join_strings(slugs.as_slice(), ", ");
    push_str(&mut out, listed.as_str());
    from_chars(out.as_slice())
}

/// `serde_json::Value::as_u64` on a value (see `json_u64`).
fn json_u64_exec(v: &JsonValue) -> (r: Option<u64>)
    ensures
        r == json_u64(*v),
{
    match v {
        JsonValue::Number(t) => {
            let cs = to_chars(t.as_str());
            if cs.len() == 0 || !crate::parser::attributes::all_digits_exec(cs.as_slice()) {
                return None;
            }
            crate::parser::attributes::parse_u64(cs.as_slice())
        },
        _ => None,
    }
}

/// The error of a tool call that ran out of time (`kill_note` says when killing failed).
pub fn timeout_message(secs: u64, kill_note: &str) -> (s: String)
    ensures
        s@ == "Tool call timed out after "@ + decimal(secs as nat) + " second(s)"@ + kill_note@,
{
    let mut m = to_chars("Tool call timed out after ");
    let d = crate::text::u128_to_chars(secs as u128);
    push_all(&mut m, d.as_slice());
    push_str(&mut m, " second(s)");
    push_str(&mut m, kill_note);
    from_chars(m.as_slice())
}

/// The message of a successful `set_cwd`.
pub fn set_cwd_message(path: &str) -> (s: String)
    ensures
        s@ == "Successfully changed working directory to "@ + path@,
{
    prefixed("Successfully changed working directory to ", path)
}

/// The answer to a function run by a tool call: its texts and whether it failed.
#[derive(Debug)]
pub struct CallOutcome {
    pub texts: Vec<String>,
    pub is_error: bool,
}

/// The answer to a function run: its standard output, then its standard error under a
/// `STDERR:` heading when there is any; an error when the run failed.
pub fn tool_call_result(stdout: &str, stderr: &str, success: bool) -> (r: CallOutcome)
    ensures
        r.is_error == !success,
        string_views(r.texts@) == if stderr@.len() == 0 {
            seq![stdout@]
        } else {
            seq![stdout@, "STDERR:\n"@ + stderr@]
        },
{
    let mut texts: Vec<String> = Vec::new();
    texts.push(stdout.to_string());
    let e = to_chars(stderr);
    if e.len() > 0 {
        texts.push(prefixed("STDERR:\n", stderr));
    }
    assert(string_views(texts@) =~= if stderr@.len() == 0 {
        seq![stdout@]
    } else {
        seq![stdout@, "STDERR:\n"@ + stderr@]
    });
    CallOutcome { texts, is_error: !success }
}

} // verus!
