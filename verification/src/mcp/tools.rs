//! Tool descriptions built from function annotations: a function with an `@desc`
//! annotation is offered as a tool, its parameters (or its `@arg` annotations) as the
//! properties of the tool's input schema.
use vstd::prelude::*;
use crate::ast::{
    ArgType, Attribute, AttrView, Parameter, ParamView, Statement, StatementView, attrs_view, opt_view, params_view,
    statements_view,
};
use crate::interpreter::preamble::contains_name;
use crate::parser::{parse_script, parsed, script_error_report};
use crate::utils::{HostPlatform, available_on_view, lemma_available_on_view, matches_current_platform};
use crate::table::{Table, key_pos, lookup, store, keys_unique, table_map, lemma_table_map_store};
use crate::text::{from_chars, replace_all, replace_chars, string_views, to_chars};
use crate::utils::{arg_type_to_json_type, json_type_name};

verus! {

/// The JSON schema of one input property.
#[derive(Debug, Clone)]
pub struct ParameterSchema {
    pub param_type: String,
    pub description: String,
}

/// The JSON schema of a tool's input: an object with named properties.
#[derive(Debug)]
pub struct InputSchema {
    pub schema_type: String,
    pub properties: Table<ParameterSchema>,
    pub required: Vec<String>,
}

/// A tool offered to an agent.
#[derive(Debug)]
pub struct Tool {
    pub name: String,
    pub description: String,
    pub input_schema: InputSchema,
}

/// The name of the built-in tool that changes the working directory.
pub const TOOL_SET_CWD: &'static str = "set_cwd";

/// The name of the built-in tool that reports the working directory.
pub const TOOL_GET_CWD: &'static str = "get_cwd";

/// The reserved argument of a tool call that limits how long the function may run, in
/// seconds; it is never passed to the function.
pub const TIMEOUT_PARAM: &'static str = "timeout";

/// The name of the built-in tool that serves the documentation topics.
pub const TOOL_RUN_DOCS: &'static str = "run_docs";

/// The tools of a Runfile.
#[derive(Debug)]
pub struct InspectOutput {
    pub tools: Vec<Tool>,
}

/// The content of a property schema.
pub struct SchemaView {
    pub param_type: Seq<char>,
    pub description: Seq<char>,
}

/// The content of a tool: its properties as a map from key to schema.
pub struct ToolView {
    pub name: Seq<char>,
    pub description: Seq<char>,
    pub schema_type: Seq<char>,
    pub properties: Map<Seq<char>, SchemaView>,
    pub required: Seq<Seq<char>>,
}

pub open spec fn schema_view(p: ParameterSchema) -> SchemaView {
    SchemaView { param_type: p.param_type@, description: p.description@ }
}

/// The properties of a schema as a map.
pub open spec fn properties_view(e: Seq<(String, ParameterSchema)>) -> Map<Seq<char>, SchemaView> {
    table_map(e, |p: ParameterSchema| schema_view(p))
}

pub open spec fn tool_view(t: Tool) -> ToolView {
    ToolView {
        name: t.name@,
        description: t.description@,
        schema_type: t.input_schema.schema_type@,
        properties: properties_view(t.input_schema.properties.entries@),
        required: string_views(t.input_schema.required@),
    }
}

pub open spec fn opt_tool_view(t: Option<Tool>) -> Option<ToolView> {
    match t {
        Some(t) => Some(tool_view(t)),
        None => None,
    }
}

pub open spec fn tools_view(v: Seq<Tool>) -> Seq<ToolView> {
    v.map_values(|t: Tool| tool_view(t))
}

/// A tool's property table holds each key once.
pub open spec fn tool_wf(t: Tool) -> bool {
    keys_unique(t.input_schema.properties.entries@)
}

/// The entries of a table of strings, as a map of their views.
pub open spec fn text_table(e: Seq<(String, String)>) -> Map<Seq<char>, Seq<char>> {
    table_map(e, |s: String| s@)
}

proof fn lemma_text_table_store(e: Seq<(String, String)>, k: String, v: String)
    ensures
        text_table(store(e, k, v)) == text_table(e).insert(k@, v@),
{
    lemma_table_map_store(e, k, v, |s: String| s@);
}

proof fn lemma_properties_store(e: Seq<(String, ParameterSchema)>, k: String, v: ParameterSchema)
    ensures
        properties_view(store(e, k, v)) == properties_view(e).insert(k@, schema_view(v)),
{
    lemma_table_map_store(e, k, v, |p: ParameterSchema| schema_view(p));
}

/// A character allowed in a property key: an ASCII letter or digit, `_`, `.` or `-`.
pub open spec fn key_char(c: char) -> bool {
    ('a' <= c && c <= 'z') || ('A' <= c && c <= 'Z') || ('0' <= c && c <= '9') || c == '_' || c
        == '.' || c == '-'
}

pub open spec fn key_char_or_underscore(c: char) -> char {
    if key_char(c) {
        c
    } else {
        '_'
    }
}

/// A name without its trailing `?`, and whether it had one (the mark of an optional argument).
pub open spec fn strip_optional(name: Seq<char>) -> (Seq<char>, bool) {
    if name.len() > 0 && name.last() == '?' {
        (name.drop_last(), true)
    } else {
        (name, false)
    }
}

/// A valid property key made of `s`: at most its first 64 characters, each one not allowed
/// in a key replaced by `_`; `_` for an empty name. A valid key is kept as it is.
pub open spec fn sanitised_key(s: Seq<char>) -> Seq<char> {
    if s.len() == 0 {
        seq!['_']
    } else {
        let k: int = if s.len() <= 64 { s.len() as int } else { 64 };
        s.take(k).map_values(|c: char| key_char_or_underscore(c))
    }
}

/// The property key of an argument name, and whether the argument is optional.
pub open spec fn property_key(name: Seq<char>) -> (Seq<char>, bool) {
    (sanitised_key(strip_optional(name).0), strip_optional(name).1)
}

/// A valid JSON schema property key: 1 to 64 characters, each allowed in a key.
pub open spec fn valid_key(k: Seq<char>) -> bool {
    1 <= k.len() <= 64 && forall|i: int| 0 <= i < k.len() ==> key_char(#[trigger] k[i])
}

/// Sanitising always gives a valid key, and leaves a valid key as it is.
pub proof fn lemma_sanitised_key(s: Seq<char>)
    ensures
        valid_key(sanitised_key(s)),
        valid_key(s) ==> sanitised_key(s) == s,
{
    if s.len() > 0 {
        let k: int = if s.len() <= 64 { s.len() as int } else { 64 };
        let m = s.take(k).map_values(|c: char| key_char_or_underscore(c));
        assert forall|i: int| 0 <= i < m.len() implies key_char(#[trigger] m[i]) by {}
        if valid_key(s) {
            assert(m =~= s);
        }
    } else {
        assert(key_char(seq!['_'][0]));
    }
}

fn is_key_char(c: char) -> (b: bool)
    ensures
        b == key_char(c),
{
    (c >= 'a' && c <= 'z') || (c >= 'A' && c <= 'Z') || (c >= '0' && c <= '9') || c == '_' || c
        == '.' || c == '-'
}

/// Sanitise an argument name for use as a JSON schema property key: a trailing `?` marks
/// the argument optional and is stripped; the rest is made a valid key (see `sanitised_key`).
/// Returns the key and whether the argument is optional.
pub fn sanitise_property_key(name: &str) -> (r: (String, bool))
    ensures
        r.0@ == property_key(name@).0,
        r.1 == property_key(name@).1,
{
    let cs = to_chars(name);
    let n = cs.len();
    let optional = n > 0 && cs[n - 1] == '?';
    let end: usize = if optional { n - 1 } else { n };
    let ghost stripped = strip_optional(name@).0;
    assert(stripped =~= cs@.take(end as int));
    let mut out: Vec<char> = Vec::new();
    let mut i: usize = 0;
    while i < end && i < 64
        invariant
            i <= end,
            end <= cs@.len(),
            i <= 64,
            stripped == cs@.take(end as int),
            out@ == stripped.take(i as int).map_values(|c: char| key_char_or_underscore(c)),
        decreases end - i,
    {
        let c = cs[i];
        if is_key_char(c) {
            out.push(c);
        } else {
            out.push('_');
        }
        assert(stripped.take(i + 1).map_values(|c: char| key_char_or_underscore(c)) =~= stripped.take(
            i as int,
        ).map_values(|c: char| key_char_or_underscore(c)).push(key_char_or_underscore(c)));
        i = i + 1;
    }
    if out.len() == 0 {
        out.push('_');
        assert(out@ =~= seq!['_']);
    }
    (from_chars(out.as_slice()), optional)
}

/// The last `@desc` text.
pub open spec fn last_desc(attrs: Seq<AttrView>) -> Option<Seq<char>>
    decreases attrs.len(),
{
    if attrs.len() == 0 {
        None
    } else {
        match attrs.last() {
            AttrView::Desc(d) => Some(d),
            _ => last_desc(attrs.drop_last()),
        }
    }
}

/// The `@arg` descriptions by property key (a later annotation of the same key wins).
pub open spec fn arg_descriptions(attrs: Seq<AttrView>) -> Map<Seq<char>, Seq<char>>
    decreases attrs.len(),
{
    if attrs.len() == 0 {
        Map::empty()
    } else {
        let m = arg_descriptions(attrs.drop_last());
        match attrs.last() {
            AttrView::Arg(a) => m.insert(property_key(a.name).0, a.description),
            _ => m,
        }
    }
}

/// The properties of a function without parameters: one per `@arg` annotation.
pub open spec fn arg_properties(attrs: Seq<AttrView>) -> Map<Seq<char>, SchemaView>
    decreases attrs.len(),
{
    if attrs.len() == 0 {
        Map::empty()
    } else {
        let m = arg_properties(attrs.drop_last());
        match attrs.last() {
            AttrView::Arg(a) => m.insert(
                property_key(a.name).0,
                SchemaView { param_type: json_type_name(a.arg_type), description: a.description },
            ),
            _ => m,
        }
    }
}

/// The required keys of a function without parameters: the `@arg` annotations not marked
/// optional, in order.
pub open spec fn arg_required(attrs: Seq<AttrView>) -> Seq<Seq<char>>
    decreases attrs.len(),
{
    if attrs.len() == 0 {
        Seq::empty()
    } else {
        let r = arg_required(attrs.drop_last());
        match attrs.last() {
            AttrView::Arg(a) => if property_key(a.name).1 {
                r
            } else {
                r.push(property_key(a.name).0)
            },
            _ => r,
        }
    }
}

/// The schema of a parameter: a rest parameter is an array; the description comes from
/// the `@arg` annotation of the same name, if any.
pub open spec fn param_schema(p: ParamView, descs: Map<Seq<char>, Seq<char>>) -> SchemaView {
    SchemaView {
        param_type: if p.is_rest { "array"@ } else { json_type_name(p.param_type) },
        description: if descs.dom().contains(p.name) { descs[p.name] } else { Seq::empty() },
    }
}

/// The properties of a function with parameters: one per parameter.
pub open spec fn param_properties(params: Seq<ParamView>, descs: Map<Seq<char>, Seq<char>>) -> Map<Seq<char>, SchemaView>
    decreases params.len(),
{
    if params.len() == 0 {
        Map::empty()
    } else {
        param_properties(params.drop_last(), descs).insert(params.last().name, param_schema(params.last(), descs))
    }
}

/// The required keys of a function with parameters: those neither rest nor defaulted.
pub open spec fn param_required(params: Seq<ParamView>) -> Seq<Seq<char>>
    decreases params.len(),
{
    if params.len() == 0 {
        Seq::empty()
    } else {
        let r = param_required(params.drop_last());
        let p = params.last();
        if !p.is_rest && p.default_value is None {
            r.push(p.name)
        } else {
            r
        }
    }
}

/// A tool name: the function name with each `:` written `__`.
pub open spec fn tool_name(name: Seq<char>) -> Seq<char> {
    replace_all(name, seq![':'], seq!['_', '_'])
}

/// A tool name holds no `:`, which tool names may not contain.
pub proof fn lemma_tool_name_plain(name: Seq<char>)
    ensures
        !crate::text::has_char(tool_name(name), ':'),
{
    crate::text::lemma_replace_all_char(name, ':', seq!['_', '_'], ':');
}

/// The tool a function offers: none without an `@desc` annotation.
pub open spec fn function_tool(name: Seq<char>, attrs: Seq<AttrView>, params: Seq<ParamView>) -> Option<ToolView> {
    match last_desc(attrs) {
        None => None,
        Some(d) => Some(
            ToolView {
                name: tool_name(name),
                description: d,
                schema_type: "object"@,
                properties: if params.len() == 0 {
                    arg_properties(attrs)
                } else {
                    param_properties(params, arg_descriptions(attrs))
                },
                required: if params.len() == 0 {
                    arg_required(attrs)
                } else {
                    param_required(params)
                },
            },
        ),
    }
}

/// The names of parameters.
pub open spec fn param_names(params: Seq<ParamView>) -> Seq<Seq<char>> {
    params.map_values(|p: ParamView| p.name)
}

proof fn lemma_last_desc(attrs: Seq<AttrView>)
    ensures
        last_desc(attrs) is Some <==> exists|i: int| 0 <= i < attrs.len() && #[trigger] attrs[i] is Desc,
    decreases attrs.len(),
{
    if attrs.len() > 0 {
        lemma_last_desc(attrs.drop_last());
        if exists|i: int| 0 <= i < attrs.len() && #[trigger] attrs[i] is Desc {
            let i = choose|i: int| 0 <= i < attrs.len() && #[trigger] attrs[i] is Desc;
            if i < attrs.len() - 1 {
                assert(attrs.drop_last()[i] is Desc);
            }
        }
        if exists|i: int| 0 <= i < attrs.drop_last().len() && #[trigger] attrs.drop_last()[i] is Desc {
            let i = choose|i: int| 0 <= i < attrs.drop_last().len() && #[trigger] attrs.drop_last()[i] is Desc;
            assert(attrs[i] is Desc);
        }
    }
}

proof fn lemma_param_dom(params: Seq<ParamView>, descs: Map<Seq<char>, Seq<char>>)
    ensures
        param_properties(params, descs).dom() == param_names(params).to_set(),
    decreases params.len(),
{
    if params.len() == 0 {
        assert(param_names(params).to_set() =~= Set::<Seq<char>>::empty());
    } else {
        let init = params.drop_last();
        assert(param_names(init) =~= param_names(params).drop_last());
        lemma_param_dom(init, descs);
        assert forall|x: Seq<char>| param_names(params).to_set().contains(x) <==> param_names(init).to_set().insert(params.last().name).contains(x) by {
            let ns = param_names(params);
            let ni = param_names(init);
            if ns.contains(x) {
                let j = choose|j: int| 0 <= j < ns.len() && ns[j] == x;
                if j < ns.len() - 1 {
                    assert(ni[j] == x);
                }
            }
            if ni.contains(x) {
                let j = choose|j: int| 0 <= j < ni.len() && ni[j] == x;
                assert(ns[j] == x);
            }
            if x == params.last().name {
                assert(ns[ns.len() - 1] == x);
            }
        }
        assert(param_names(params).to_set() =~= param_names(init).to_set().insert(params.last().name));
    }
}

/// A required key is the name of a parameter that is neither rest nor defaulted.
pub open spec fn plainly_required(params: Seq<ParamView>, x: Seq<char>) -> bool {
    exists|i: int| 0 <= i < params.len() && #[trigger] params[i].name == x && !params[i].is_rest && params[i].default_value is None
}

proof fn lemma_param_required_exact(params: Seq<ParamView>)
    ensures
        forall|x: Seq<char>| #[trigger] param_required(params).contains(x) <==> plainly_required(params, x),
    decreases params.len(),
{
    if params.len() > 0 {
        let init = params.drop_last();
        let last = params.last();
        lemma_param_required_exact(init);
        let r = param_required(init);
        let plain = !last.is_rest && last.default_value is None;
        assert(param_required(params) == if plain { r.push(last.name) } else { r });
        assert forall|x: Seq<char>| #[trigger] param_required(params).contains(x) <==> plainly_required(params, x) by {
            if param_required(params).contains(x) {
                if r.contains(x) {
                    assert(plainly_required(init, x));
                    let i = choose|i: int| 0 <= i < init.len() && #[trigger] init[i].name == x && !init[i].is_rest && init[i].default_value is None;
                    assert(params[i] == init[i]);
                } else {
                    assert(plain);
                    let j = choose|j: int| 0 <= j < r.push(last.name).len() && r.push(last.name)[j] == x;
                    assert(j == r.len());
                    assert(params[params.len() - 1].name == x);
                }
            }
            if plainly_required(params, x) {
                let i = choose|i: int| 0 <= i < params.len() && #[trigger] params[i].name == x && !params[i].is_rest && params[i].default_value is None;
                if i < params.len() - 1 {
                    assert(init[i] == params[i]);
                    assert(plainly_required(init, x));
                    assert(r.contains(x));
                    if plain {
                        let j = choose|j: int| 0 <= j < r.len() && r[j] == x;
                        assert(r.push(last.name)[j] == x);
                    }
                } else {
                    assert(r.push(last.name)[r.len() as int] == x);
                }
            }
        }
    }
}

proof fn lemma_param_properties(params: Seq<ParamView>, descs: Map<Seq<char>, Seq<char>>)
    requires
        param_names(params).no_duplicates(),
    ensures
        param_properties(params, descs).dom() == param_names(params).to_set(),
        forall|i: int| 0 <= i < params.len() ==> param_properties(params, descs)[#[trigger] params[i].name]
            == param_schema(params[i], descs),
    decreases params.len(),
{
    if params.len() == 0 {
        assert(param_names(params).to_set() =~= Set::<Seq<char>>::empty());
    } else {
        let init = params.drop_last();
        assert(param_names(init) =~= param_names(params).drop_last());
        lemma_param_properties(init, descs);
        assert(param_names(params) =~= param_names(init).push(params.last().name));
        assert forall|x: Seq<char>| param_names(params).to_set().contains(x) <==> param_names(init).to_set().insert(params.last().name).contains(x) by {
            let ns = param_names(params);
            let ni = param_names(init);
            if ns.contains(x) {
                let j = choose|j: int| 0 <= j < ns.len() && ns[j] == x;
                if j < ns.len() - 1 {
                    assert(ni[j] == x);
                }
            }
            if ni.contains(x) {
                let j = choose|j: int| 0 <= j < ni.len() && ni[j] == x;
                assert(ns[j] == x);
            }
            if x == params.last().name {
                assert(ns[ns.len() - 1] == x);
            }
        }
        assert(param_names(params).to_set() =~= param_names(init).to_set().insert(params.last().name));
        assert forall|i: int| 0 <= i < params.len() implies param_properties(params, descs)[#[trigger] params[i].name]
            == param_schema(params[i], descs) by {
            if i < params.len() - 1 {
                assert(init[i] == params[i]);
                assert(param_names(params)[i] == params[i].name);
                assert(param_names(params)[params.len() - 1] == params.last().name);
            }
        }
    }
}

proof fn lemma_param_required(params: Seq<ParamView>)
    requires
        param_names(params).no_duplicates(),
    ensures
        forall|i: int| 0 <= i < params.len() ==> (param_required(params).contains(#[trigger] params[i].name) <==> (
            !params[i].is_rest && params[i].default_value is None)),
        forall|x: Seq<char>| #[trigger] param_required(params).contains(x) ==> param_names(params).contains(x),
    decreases params.len(),
{
    if params.len() > 0 {
        let init = params.drop_last();
        let last = params.last();
        assert(param_names(init) =~= param_names(params).drop_last());
        lemma_param_required(init);
        let r = param_required(init);
        assert forall|x: Seq<char>| #[trigger] param_required(params).contains(x) implies param_names(params).contains(x) by {
            if r.contains(x) {
                let j = choose|j: int| 0 <= j < param_names(init).len() && param_names(init)[j] == x;
                assert(param_names(params)[j] == x);
            } else {
                assert(param_names(params)[params.len() - 1] == x);
            }
        }
        assert forall|i: int| 0 <= i < params.len() implies (param_required(params).contains(#[trigger] params[i].name) <==> (
            !params[i].is_rest && params[i].default_value is None)) by {
            let n = params.len() - 1;
            assert(param_names(params)[n] == last.name);
            if i < n {
                assert(init[i] == params[i]);
                assert(param_names(params)[i] == params[i].name);
                assert(params[i].name != last.name);
                if !last.is_rest && last.default_value is None {
                    assert(param_required(params) == r.push(last.name));
                    assert(r.push(last.name).contains(params[i].name) ==> r.contains(params[i].name)) by {
                        if r.push(last.name).contains(params[i].name) {
                            let j = choose|j: int| 0 <= j < r.push(last.name).len() && r.push(last.name)[j] == params[i].name;
                            assert(j < r.len());
                            assert(r[j] == params[i].name);
                        }
                    }
                    if r.contains(params[i].name) {
                        let j = choose|j: int| 0 <= j < r.len() && r[j] == params[i].name;
                        assert(r.push(last.name)[j] == params[i].name);
                    }
                }
            } else {
                if !last.is_rest && last.default_value is None {
                    assert(param_required(params) == r.push(last.name));
                    assert(r.push(last.name)[r.len() as int] == last.name);
                } else {
                    assert(param_required(params) == r);
                    if r.contains(last.name) {
                        let j = choose|j: int| 0 <= j < param_names(init).len() && param_names(init)[j] == last.name;
                        assert(param_names(params)[j] == last.name);
                    }
                }
            }
        }
    }
}

proof fn lemma_arg_required_listed(attrs: Seq<AttrView>)
    ensures
        forall|x: Seq<char>| #[trigger] arg_required(attrs).contains(x) ==> arg_properties(attrs).dom().contains(x),
    decreases attrs.len(),
{
    if attrs.len() > 0 {
        lemma_arg_required_listed(attrs.drop_last());
        let r = arg_required(attrs.drop_last());
        let m = arg_properties(attrs.drop_last());
        assert forall|x: Seq<char>| #[trigger] arg_required(attrs).contains(x) implies arg_properties(attrs).dom().contains(x) by {
            match attrs.last() {
                AttrView::Arg(a) => {
                    let k = property_key(a.name).0;
                    assert(arg_properties(attrs) == m.insert(k, SchemaView { param_type: json_type_name(a.arg_type), description: a.description }));
                    if property_key(a.name).1 {
                        assert(arg_required(attrs) == r);
                        assert(m.dom().contains(x));
                    } else {
                        assert(arg_required(attrs) == r.push(k));
                        if x != k {
                            let j = choose|j: int| 0 <= j < r.push(k).len() && r.push(k)[j] == x;
                            assert(r[j] == x);
                            assert(r.contains(x));
                            assert(m.dom().contains(x));
                        }
                    }
                },
                _ => {
                    assert(arg_required(attrs) == r);
                    assert(arg_properties(attrs) == m);
                },
            }
        }
    }
}

/// What the tool of a function is: there is one exactly when an `@desc` annotation is
/// given; it is named by the function with `:` as `__`, carries the last description,
/// describes an object, and requires only keys it lists. With parameters, its keys are
/// the parameter names and the required ones are the names of parameters neither rest nor
/// defaulted; when the names differ, a rest parameter is an array, and a parameter is
/// required exactly when it is neither rest nor defaulted.
pub proof fn lemma_function_tool(name: Seq<char>, attrs: Seq<AttrView>, params: Seq<ParamView>)
    ensures
        function_tool(name, attrs, params) is Some <==> exists|i: int| 0 <= i < attrs.len() && #[trigger] attrs[i] is Desc,
        function_tool(name, attrs, params) matches Some(t) ==> {
            &&& t.name == tool_name(name)
            &&& Some(t.description) == last_desc(attrs)
            &&& t.schema_type == "object"@
            &&& forall|x: Seq<char>| #[trigger] t.required.contains(x) ==> t.properties.dom().contains(x)
            &&& params.len() > 0 ==> {
                &&& t.properties.dom() == param_names(params).to_set()
                &&& forall|x: Seq<char>| #[trigger] t.required.contains(x) <==> plainly_required(params, x)
            }
            &&& params.len() > 0 && param_names(params).no_duplicates() ==> {
                &&& forall|i: int| 0 <= i < params.len() && #[trigger] params[i].is_rest ==> t.properties[params[i].name].param_type == "array"@
                &&& forall|i: int| 0 <= i < params.len() ==> (t.required.contains(#[trigger] params[i].name) <==> (
                    !params[i].is_rest && params[i].default_value is None))
            }
        },
{
    lemma_last_desc(attrs);
    if params.len() > 0 {
        lemma_param_dom(params, arg_descriptions(attrs));
        lemma_param_required_exact(params);
        assert forall|x: Seq<char>| #[trigger] param_required(params).contains(x) implies param_properties(params, arg_descriptions(attrs)).dom().contains(x) by {
            let i = choose|i: int| 0 <= i < params.len() && #[trigger] params[i].name == x && !params[i].is_rest && params[i].default_value is None;
            assert(param_names(params)[i] == x);
            assert(param_names(params).contains(x));
        }
        if param_names(params).no_duplicates() {
            lemma_param_properties(params, arg_descriptions(attrs));
            lemma_param_required(params);
        }
    } else {
        lemma_arg_required_listed(attrs);
    }
}

/// The tool of a function, from its `@desc` and either its parameters or, when it
/// declares none, its `@arg` annotations; `None` without `@desc`.
pub fn extract_function_metadata(name: &str, attributes: &[Attribute], params: &[Parameter]) -> (r: Option<Tool>)
    ensures
        opt_tool_view(r) == function_tool(name@, attrs_view(attributes@), params_view(params@)),
        r matches Some(t) ==> tool_wf(t),
{
    let ghost av = attrs_view(attributes@);
    let mut description: Option<String> = None;
    let mut descs: Table<String> = Table::new();
    let mut i: usize = 0;
    while i < attributes.len()
        invariant
            i <= attributes@.len(),
            av == attrs_view(attributes@),
            opt_view(description) == last_desc(av.take(i as int)),
            keys_unique(descs.entries@),
            text_table(descs.entries@) == arg_descriptions(av.take(i as int)),
        decreases attributes@.len() - i,
    {
        assert(av.take(i + 1).drop_last() =~= av.take(i as int));
        match &attributes[i] {
            Attribute::Desc(d) => {
                description = Some(d.clone());
            },
            Attribute::Arg(m) => {
                let (key, _) = sanitise_property_key(m.name.as_str());
                let text = m.description.clone();
                proof { lemma_text_table_store(descs.entries@, key, text); }
                descs.insert(key, text);
            },
            _ => {},
        }
        i = i + 1;
    }
    assert(av.take(attributes@.len() as int) =~= av);
    let ghost desc_view = opt_view(description);
    assert(desc_view == last_desc(av));
    let mut properties: Table<ParameterSchema> = Table::new();
    let mut required: Vec<String> = Vec::new();
    if params.len() == 0 {
        let mut i: usize = 0;
        while i < attributes.len()
            invariant
                i <= attributes@.len(),
                av == attrs_view(attributes@),
                keys_unique(properties.entries@),
                properties_view(properties.entries@) == arg_properties(av.take(i as int)),
                string_views(required@) == arg_required(av.take(i as int)),
            decreases attributes@.len() - i,
        {
            assert(av.take(i + 1).drop_last() =~= av.take(i as int));
            if let Attribute::Arg(m) = &attributes[i] {
                let (key, optional) = sanitise_property_key(m.name.as_str());
                let schema = ParameterSchema {
                    param_type: arg_type_to_json_type(&m.arg_type).to_string(),
                    description: m.description.clone(),
                };
                proof { lemma_properties_store(properties.entries@, key, schema); }
                if !optional {
                    required.push(key.clone());
                    assert(string_views(required@) =~= arg_required(av.take(i as int)).push(key@));
                }
                properties.insert(key, schema);
            }
            i = i + 1;
        }
    } else {
        let ghost pv = params_view(params@);
        let mut i: usize = 0;
        while i < params.len()
            invariant
                i <= params@.len(),
                av == attrs_view(attributes@),
                pv == params_view(params@),
                text_table(descs.entries@) == arg_descriptions(av),
                keys_unique(properties.entries@),
                properties_view(properties.entries@) == param_properties(pv.take(i as int), arg_descriptions(av)),
                string_views(required@) == param_required(pv.take(i as int)),
            decreases params@.len() - i,
        {
            assert(pv.take(i + 1).drop_last() =~= pv.take(i as int));
            let p = &params[i];
            let pc = to_chars(p.name.as_str());
            let text = match descs.get(pc.as_slice()) {
                Some(d) => d.clone(),
                None => String::new(),
            };
            let kind = if p.is_rest {
                "array".to_string()
            } else {
                arg_type_to_json_type(&p.param_type).to_string()
            };
            let schema = ParameterSchema { param_type: kind, description: text };
            proof {
                lemma_properties_store(properties.entries@, p.name, schema);
                assert(schema_view(schema) == param_schema(pv[i as int], arg_descriptions(av)));
            }
            if !p.is_rest && p.default_value.is_none() {
                required.push(p.name.clone());
                assert(string_views(required@) =~= param_required(pv.take(i as int)).push(p.name@));
            }
            properties.insert(p.name.clone(), schema);
            i = i + 1;
        }
        assert(pv.take(params@.len() as int) =~= pv);
    }
    match description {
        None => None,
        Some(desc) => {
            let nc = to_chars(name);
            let colon: Vec<char> = vec![':'];
            let doubled: Vec<char> = vec!['_', '_'];
            let tn = replace_chars(nc.as_slice(), colon.as_slice(), doubled.as_slice());
            assert(colon@ =~= seq![':'] && doubled@ =~= seq!['_', '_']);
            let t = Tool {
                name: from_chars(tn.as_slice()),
                description: desc,
                input_schema: InputSchema { schema_type: "object".to_string(), properties, required },
            };
            Some(t)
        },
    }
}

/// The tools that the server itself provides.
pub open spec fn builtin_tools() -> Seq<ToolView> {
    seq![
        ToolView {
            name: TOOL_SET_CWD@,
            description: "Set the current working directory. Call this before other tools to change their execution context."@,
            schema_type: "object"@,
            properties: Map::empty().insert(
                "path"@,
                SchemaView { param_type: "string"@, description: "The path to switch to (relative or absolute)"@ },
            ),
            required: seq!["path"@],
        },
        ToolView {
            name: TOOL_GET_CWD@,
            description: "Get the current working directory."@,
            schema_type: "object"@,
            properties: Map::empty(),
            required: Seq::empty(),
        },
    ]
}

/// The built-in tools: `set_cwd` (with its required `path`) and `get_cwd`.
pub fn get_builtin_tools() -> (tools: Vec<Tool>)
    ensures
        tools_view(tools@) == builtin_tools(),
        forall|i: int| 0 <= i < tools@.len() ==> tool_wf(#[trigger] tools@[i]),
{
    let mut tools: Vec<Tool> = Vec::new();
    let mut set_cwd_props: Table<ParameterSchema> = Table::new();
    let path_schema = ParameterSchema {
        param_type: "string".to_string(),
        description: "The path to switch to (relative or absolute)".to_string(),
    };
    let path = "path".to_string();
    proof { lemma_properties_store(set_cwd_props.entries@, path, path_schema); }
    set_cwd_props.insert(path, path_schema);
    assert(properties_view(Seq::<(String, ParameterSchema)>::empty()) =~= Map::empty());
    let mut set_cwd_required: Vec<String> = Vec::new();
    set_cwd_required.push("path".to_string());
    tools.push(
        Tool {
            name: TOOL_SET_CWD.to_string(),
            description: "Set the current working directory. Call this before other tools to change their execution context.".to_string(),
            input_schema: InputSchema {
                schema_type: "object".to_string(),
                properties: set_cwd_props,
                required: set_cwd_required,
            },
        },
    );
    tools.push(
        Tool {
            name: TOOL_GET_CWD.to_string(),
            description: "Get the current working directory.".to_string(),
            input_schema: InputSchema {
                schema_type: "object".to_string(),
                properties: Table::new(),
                required: Vec::new(),
            },
        },
    );
    assert(tool_view(tools@[0]).properties =~= builtin_tools()[0].properties);
    assert(tool_view(tools@[0]).required =~= builtin_tools()[0].required);
    assert(tool_view(tools@[1]).properties =~= builtin_tools()[1].properties);
    assert(tool_view(tools@[1]).required =~= builtin_tools()[1].required);
    assert(tools_view(tools@) =~= builtin_tools());
    tools
}

/// The name, attributes and parameters of a function definition.
pub open spec fn def_parts(s: StatementView) -> Option<(Seq<char>, Seq<AttrView>, Seq<ParamView>)> {
    match s {
        StatementView::SimpleFunctionDef { name, params, attributes, .. } => Some((name, attributes, params)),
        StatementView::BlockFunctionDef { name, params, attributes, .. } => Some((name, attributes, params)),
        _ => None,
    }
}

/// The tool a statement offers on `host`: a function definition available there, with
/// an `@desc` annotation.
pub open spec fn offered_tool(s: StatementView, host: HostPlatform) -> Option<ToolView> {
    match def_parts(s) {
        Some(parts) => if available_on_view(parts.1, host) {
            function_tool(parts.0, parts.1, parts.2)
        } else {
            None
        },
        None => None,
    }
}

/// Statement `i` offers a tool and no later statement offers one of the same function
/// name (a later definition, as of the project Runfile after the global one, wins).
pub open spec fn exposed(s: Seq<StatementView>, host: HostPlatform, i: int) -> bool {
    &&& offered_tool(s[i], host) is Some
    &&& !exists|j: int| i < j < s.len() && #[trigger] offered_tool(s[j], host) is Some && def_parts(s[j])->Some_0.0
        == def_parts(s[i])->Some_0.0
}

/// The tools exposed by statements `i..`, in statement order.
pub open spec fn exposed_from(s: Seq<StatementView>, host: HostPlatform, i: int) -> Seq<ToolView>
    decreases s.len() - i,
{
    if i < 0 || i >= s.len() {
        Seq::empty()
    } else if exposed(s, host, i) {
        seq![offered_tool(s[i], host)->Some_0] + exposed_from(s, host, i + 1)
    } else {
        exposed_from(s, host, i + 1)
    }
}

/// The tools of a program on `host`.
pub open spec fn runfile_tools(s: Seq<StatementView>, host: HostPlatform) -> Seq<ToolView> {
    exposed_from(s, host, 0)
}

/// The tools of a Runfile's content (`None` when there is no Runfile: no tools). A
/// content that does not parse is refused with the parse error.
pub fn inspect(content: Option<&str>, host: HostPlatform) -> (r: Result<InspectOutput, String>)
    ensures
        content is None ==> (r matches Ok(o) && o.tools@.len() == 0),
        content matches Some(c) ==> match parsed(c@) {
            Ok(sv) => (r matches Ok(o) && tools_view(o.tools@) == runfile_tools(sv, host)),
            Err(_) => (r matches Err(m) && m@ == "Parse error: "@ + script_error_report(c@, None)),
        },
        r matches Ok(o) ==> forall|i: int| 0 <= i < o.tools@.len() ==> tool_wf(#[trigger] o.tools@[i]),
{
    let text = match content {
        None => {
            return Ok(InspectOutput { tools: Vec::new() });
        },
        Some(c) => c,
    };
    let program = match parse_script(text) {
        Ok(p) => p,
        Err(e) => {
            let mut m = to_chars("Parse error: ");
            let report = e.render();
            crate::text::push_str(&mut m, report.as_str());
            return Err(from_chars(m.as_slice()));
        },
    };
    let stmts = &program.statements;
    let ghost sv = statements_view(stmts@);
    let mut tools: Vec<Tool> = Vec::new();
    let mut seen: Vec<String> = Vec::new();
    let mut i: usize = stmts.len();
    while i > 0
        invariant
            i <= stmts@.len(),
            sv == statements_view(stmts@),
            tools_view(tools@) == exposed_from(sv, host, i as int),
            forall|k: int| 0 <= k < tools@.len() ==> tool_wf(#[trigger] tools@[k]),
            forall|x: Seq<char>| string_views(seen@).contains(x) <==> exists|j: int| i <= j < sv.len()
                && #[trigger] offered_tool(sv[j], host) is Some && def_parts(sv[j])->Some_0.0 == x,
        decreases i,
    {
        let k = i - 1;
        let ghost st = sv[k as int];
        assert(st == crate::ast::statement_view(stmts@[k as int]));
        let parts: Option<(&String, &Vec<Attribute>, &Vec<Parameter>)> = match &stmts[k] {
            Statement::SimpleFunctionDef { name, params, attributes, .. } => Some((name, attributes, params)),
            Statement::BlockFunctionDef { name, params, attributes, .. } => Some((name, attributes, params)),
            _ => None,
        };
        let ghost seen0 = string_views(seen@);
        let mut offered: Option<Tool> = None;
        if let Some((name, attributes, params)) = parts {
            assert(def_parts(st) == Some((name@, attrs_view(attributes@), params_view(params@))));
            let available = matches_current_platform(attributes.as_slice(), host);
            proof { lemma_available_on_view(attributes@, host); }
            let nc = to_chars(name.as_str());
            if available && !contains_name(&seen, nc.as_slice()) {
                offered = extract_function_metadata(name.as_str(), attributes.as_slice(), params.as_slice());
                if offered.is_some() {
                    seen.push(name.clone());
                    assert(string_views(seen@) =~= seen0.push(name@));
                }
            }
            proof {
                assert(offered_tool(st, host) == (if available { function_tool(name@, attrs_view(attributes@), params_view(params@)) } else { None }));
                assert(available && !seen0.contains(name@) ==> opt_tool_view(offered) == offered_tool(st, host));
                assert(offered_tool(st, host) is Some && !seen0.contains(name@) ==> string_views(seen@) == seen0.push(name@));
                assert forall|x: Seq<char>| string_views(seen@).contains(x) <==> exists|j: int| k <= j < sv.len()
                    && #[trigger] offered_tool(sv[j], host) is Some && def_parts(sv[j])->Some_0.0 == x by {
                    if string_views(seen@).contains(x) {
                        if seen0.contains(x) {
                            let j = choose|j: int| i <= j < sv.len() && #[trigger] offered_tool(sv[j], host) is Some
                                && def_parts(sv[j])->Some_0.0 == x;
                            assert(k <= j < sv.len() && offered_tool(sv[j], host) is Some && def_parts(sv[j])->Some_0.0 == x);
                        } else {
                            let i0 = choose|i0: int| 0 <= i0 < string_views(seen@).len() && string_views(seen@)[i0] == x;
                            assert(string_views(seen@) != seen0);
                            if i0 < seen0.len() {
                                assert(seen0[i0] == x);
                            }
                            assert(x == name@ && offered_tool(sv[k as int], host) is Some);
                        }
                    }
                    if exists|j: int| k <= j < sv.len() && #[trigger] offered_tool(sv[j], host) is Some
                        && def_parts(sv[j])->Some_0.0 == x {
                        let j = choose|j: int| k <= j < sv.len() && #[trigger] offered_tool(sv[j], host) is Some
                            && def_parts(sv[j])->Some_0.0 == x;
                        if j == k {
                            if !seen0.contains(x) {
                                assert(string_views(seen@)[seen0.len() as int] == x);
                            }
                        } else {
                            assert(seen0.contains(x));
                            let i0 = choose|i0: int| 0 <= i0 < seen0.len() && seen0[i0] == x;
                            assert(string_views(seen@)[i0] == x);
                        }
                    }
                }
            }
        }
        match offered {
            Some(t) => {
                tools.insert(0, t);
                assert(tools_view(tools@) =~= seq![offered_tool(st, host)->Some_0] + exposed_from(sv, host, i as int));
            },
            None => {},
        }
        i = k;
    }
    Ok(InspectOutput { tools })
}

/// No two listed tools come from definitions of the same function: of several, only the
/// last (a project function over a global one) is listed.
pub proof fn lemma_exposed_once(s: Seq<StatementView>, host: HostPlatform, i: int, j: int)
    requires
        0 <= i < j < s.len(),
        exposed(s, host, i),
        exposed(s, host, j),
    ensures
        def_parts(s[i])->Some_0.0 != def_parts(s[j])->Some_0.0,
{
    assert(offered_tool(s[j], host) is Some);
}

proof fn lemma_last_offered(s: Seq<StatementView>, host: HostPlatform, i: int)
    requires
        0 <= i < s.len(),
        offered_tool(s[i], host) is Some,
    ensures
        exists|j: int| i <= j < s.len() && #[trigger] exposed(s, host, j) && def_parts(s[j])->Some_0.0 == def_parts(s[i])->Some_0.0,
    decreases s.len() - i,
{
    if !exposed(s, host, i) {
        let j = choose|j: int| i < j < s.len() && #[trigger] offered_tool(s[j], host) is Some && def_parts(s[j])->Some_0.0
            == def_parts(s[i])->Some_0.0;
        lemma_last_offered(s, host, j);
    } else {
        assert(exposed(s, host, i));
    }
}

proof fn lemma_exposed_listed(s: Seq<StatementView>, host: HostPlatform, k: int, j: int)
    requires
        0 <= k <= j < s.len(),
        exposed(s, host, j),
    ensures
        exposed_from(s, host, k).contains(offered_tool(s[j], host)->Some_0),
    decreases j - k,
{
    let t = offered_tool(s[j], host)->Some_0;
    if k == j {
        assert(exposed_from(s, host, k)[0] == t);
    } else {
        lemma_exposed_listed(s, host, k + 1, j);
        let rest = exposed_from(s, host, k + 1);
        let w = choose|w: int| 0 <= w < rest.len() && rest[w] == t;
        if exposed(s, host, k) {
            assert(exposed_from(s, host, k)[w + 1] == t);
        } else {
            assert(exposed_from(s, host, k)[w] == t);
        }
    }
}

proof fn lemma_listed_exposed(s: Seq<StatementView>, host: HostPlatform, k: int, t: ToolView)
    requires
        0 <= k,
        exposed_from(s, host, k).contains(t),
    ensures
        exists|j: int| k <= j < s.len() && #[trigger] exposed(s, host, j) && offered_tool(s[j], host) == Some(t),
    decreases s.len() - k,
{
    if k >= s.len() {
        assert(exposed_from(s, host, k).len() == 0);
    } else {
        let rest = exposed_from(s, host, k + 1);
        if exposed(s, host, k) && offered_tool(s[k], host)->Some_0 == t {
            assert(exposed(s, host, k));
        } else {
            let all = exposed_from(s, host, k);
            let w = choose|w: int| 0 <= w < all.len() && all[w] == t;
            if exposed(s, host, k) {
                assert(w > 0);
                assert(rest[w - 1] == t);
            } else {
                assert(rest[w] == t);
            }
            lemma_listed_exposed(s, host, k + 1, t);
        }
    }
}

/// The tools of a program: each is the tool of a definition that no later definition
/// of the same function replaces; every function with a described definition available
/// on the host has one, from its last such definition; and no function has two.
pub proof fn lemma_runfile_tools(s: Seq<StatementView>, host: HostPlatform)
    ensures
        forall|t: ToolView| #[trigger] runfile_tools(s, host).contains(t) ==> exists|j: int| 0 <= j < s.len()
            && #[trigger] exposed(s, host, j) && offered_tool(s[j], host) == Some(t),
        forall|i: int| 0 <= i < s.len() && #[trigger] offered_tool(s[i], host) is Some ==> exists|j: int| i <= j < s.len()
            && #[trigger] exposed(s, host, j) && def_parts(s[j])->Some_0.0 == def_parts(s[i])->Some_0.0
            && runfile_tools(s, host).contains(offered_tool(s[j], host)->Some_0),
        forall|i: int, j: int| 0 <= i < j < s.len() && #[trigger] exposed(s, host, i) && #[trigger] exposed(s, host, j)
            ==> def_parts(s[i])->Some_0.0 != def_parts(s[j])->Some_0.0,
{
    assert forall|t: ToolView| #[trigger] runfile_tools(s, host).contains(t) implies exists|j: int| 0 <= j < s.len()
        && #[trigger] exposed(s, host, j) && offered_tool(s[j], host) == Some(t) by {
        lemma_listed_exposed(s, host, 0, t);
    }
    assert forall|i: int| 0 <= i < s.len() && #[trigger] offered_tool(s[i], host) is Some implies exists|j: int| i <= j < s.len()
        && #[trigger] exposed(s, host, j) && def_parts(s[j])->Some_0.0 == def_parts(s[i])->Some_0.0
        && runfile_tools(s, host).contains(offered_tool(s[j], host)->Some_0) by {
        lemma_last_offered(s, host, i);
        let j = choose|j: int| i <= j < s.len() && #[trigger] exposed(s, host, j) && def_parts(s[j])->Some_0.0 == def_parts(s[i])->Some_0.0;
        lemma_exposed_listed(s, host, 0, j);
    }
    assert forall|i: int, j: int| 0 <= i < j < s.len() && #[trigger] exposed(s, host, i) && #[trigger] exposed(s, host, j)
        implies def_parts(s[i])->Some_0.0 != def_parts(s[j])->Some_0.0 by {
        lemma_exposed_once(s, host, i, j);
    }
}

/// The positions of the statements `i..` whose tools are exposed, in order.
pub open spec fn exposed_positions(s: Seq<StatementView>, host: HostPlatform, i: int) -> Seq<int>
    decreases s.len() - i,
{
    if i < 0 || i >= s.len() {
        Seq::empty()
    } else if exposed(s, host, i) {
        seq![i] + exposed_positions(s, host, i + 1)
    } else {
        exposed_positions(s, host, i + 1)
    }
}

proof fn lemma_exposed_positions(s: Seq<StatementView>, host: HostPlatform, i: int)
    requires
        0 <= i <= s.len(),
    ensures
        exposed_from(s, host, i) == exposed_positions(s, host, i).map_values(|j: int| offered_tool(s[j], host)->Some_0),
        forall|a: int| 0 <= a < exposed_positions(s, host, i).len() ==> i <= #[trigger] exposed_positions(s, host, i)[a] < s.len()
            && exposed(s, host, exposed_positions(s, host, i)[a]),
        forall|a: int, b: int| 0 <= a < b < exposed_positions(s, host, i).len() ==> #[trigger] exposed_positions(s, host, i)[a]
            < #[trigger] exposed_positions(s, host, i)[b],
        forall|j: int| i <= j < s.len() && #[trigger] exposed(s, host, j) ==> exposed_positions(s, host, i).contains(j),
    decreases s.len() - i,
{
    if i < s.len() {
        lemma_exposed_positions(s, host, i + 1);
        let rest = exposed_positions(s, host, i + 1);
        let f = |j: int| offered_tool(s[j], host)->Some_0;
        if exposed(s, host, i) {
            let ps = seq![i] + rest;
            assert(exposed_positions(s, host, i) == ps);
            assert(ps.map_values(f) =~= seq![f(i)] + rest.map_values(f));
            assert forall|a: int| 0 <= a < ps.len() implies i <= #[trigger] ps[a] < s.len() && exposed(s, host, ps[a]) by {
                if a > 0 {
                    assert(ps[a] == rest[a - 1]);
                }
            }
            assert forall|a: int, b: int| 0 <= a < b < ps.len() implies #[trigger] ps[a] < #[trigger] ps[b] by {
                assert(ps[b] == rest[b - 1]);
                if a > 0 {
                    assert(ps[a] == rest[a - 1]);
                }
            }
            assert forall|j: int| i <= j < s.len() && #[trigger] exposed(s, host, j) implies ps.contains(j) by {
                if j == i {
                    assert(ps[0] == i);
                } else {
                    assert(rest.contains(j));
                    let w = choose|w: int| 0 <= w < rest.len() && rest[w] == j;
                    assert(ps[w + 1] == j);
                }
            }
        } else {
            assert(exposed_positions(s, host, i) == rest);
        }
    } else {
        assert(exposed_positions(s, host, i).map_values(|j: int| offered_tool(s[j], host)->Some_0) =~= Seq::<ToolView>::empty());
    }
}

/// The tools of a program come in the order of the definitions they are taken from: the
/// `k`-th tool is that of the `k`-th definition that is not replaced by a later one of the
/// same function (a definition offering a tool, with no later one offering a tool for
/// the same name: the last definition wins), and every such definition gives a tool.
pub proof fn lemma_runfile_tools_in_order(s: Seq<StatementView>, host: HostPlatform)
    ensures
        runfile_tools(s, host) == exposed_positions(s, host, 0).map_values(|j: int| offered_tool(s[j], host)->Some_0),
        forall|a: int, b: int| 0 <= a < b < exposed_positions(s, host, 0).len() ==> #[trigger] exposed_positions(s, host, 0)[a]
            < #[trigger] exposed_positions(s, host, 0)[b],
        forall|a: int| 0 <= a < exposed_positions(s, host, 0).len() ==> 0 <= #[trigger] exposed_positions(s, host, 0)[a] < s.len()
            && exposed(s, host, exposed_positions(s, host, 0)[a]),
        forall|j: int| 0 <= j < s.len() && #[trigger] exposed(s, host, j) ==> exposed_positions(s, host, 0).contains(j),
{
    lemma_exposed_positions(s, host, 0);
}

} // verus!
