//! From a tool call's named JSON arguments to the positional arguments of the function,
//! and from a tool name back to the function it names.
use vstd::prelude::*;
use crate::ast::{Attribute, AttrView, Parameter, ParamView, Program, Statement, StatementView, attrs_view, params_view, statements_view};
use crate::mcp::handlers::JsonRpcError;
use crate::mcp::tools::{def_parts, tool_name};
use crate::parser::{parse_script, parsed, script_error_report};
use crate::table::{Table, key_pos, lookup};
use crate::interpreter::preamble::contains_name;
use crate::text::{from_chars, push_str, replace_chars, string_views, to_chars};

verus! {

/// A JSON value as the argument mapping reads it. Numbers, arrays and objects carry
/// their JSON text as serde_json writes it.
#[derive(Debug)]
pub enum JsonValue {
    String(String),
    Number(String),
    Bool(bool),
    Null,
    Array(Vec<JsonValue>, String),
    Object(Table<JsonValue>, String),
}

/// The text a JSON value gives as a shell argument: a string as it is, `null` as nothing,
/// anything else as its JSON text.
pub open spec fn json_text(v: JsonValue) -> Seq<char> {
    match v {
        JsonValue::String(s) => s@,
        JsonValue::Number(t) => t@,
        JsonValue::Bool(b) => if b { "true"@ } else { "false"@ },
        JsonValue::Null => Seq::empty(),
        JsonValue::Array(_, t) => t@,
        JsonValue::Object(_, t) => t@,
    }
}

/// Convert a JSON value to a string for shell argument passing (see `json_text`).
pub fn value_to_string(value: &JsonValue) -> (s: String)
    ensures
        s@ == json_text(*value),
{
    match value {
        JsonValue::String(s) => s.clone(),
        JsonValue::Number(t) => t.clone(),
        JsonValue::Bool(b) => if *b {
            "true".to_string()
        } else {
            "false".to_string()
        },
        JsonValue::Null => String::new(),
        JsonValue::Array(_, t) => t.clone(),
        JsonValue::Object(_, t) => t.clone(),
    }
}

/// The function definition has an `@desc` annotation (it is offered as a tool).
pub open spec fn has_desc(attrs: Seq<AttrView>) -> bool {
    exists|i: int| 0 <= i < attrs.len() && #[trigger] attrs[i] is Desc
}

/// The index of the last function definition among the first `n` statements that has
/// an `@desc` annotation and whose tool name is `tool`.
pub open spec fn last_tool_def(s: Seq<StatementView>, tool: Seq<char>, n: int) -> Option<int>
    decreases n,
{
    if n <= 0 || n > s.len() {
        None
    } else if def_parts(s[n - 1]) is Some && has_desc(def_parts(s[n - 1])->Some_0.1) && tool_name(
        def_parts(s[n - 1])->Some_0.0,
    ) == tool {
        Some(n - 1)
    } else {
        last_tool_def(s, tool, n - 1)
    }
}

/// The error for a missing Runfile.
pub open spec fn no_runfile() -> (i32, Seq<char>) {
    (-32603i32, "No Runfile found"@)
}

/// The error for a Runfile that does not parse.
pub open spec fn syntax_error(content: Seq<char>) -> (i32, Seq<char>) {
    (-32603i32, "Runfile syntax error: "@ + script_error_report(content, Some("Runfile"@)))
}

pub open spec fn error_view(e: JsonRpcError) -> (i32, Seq<char>) {
    (e.code, e.message@)
}

/// The view of an optional text.
pub open spec fn str_opt_view(c: Option<&str>) -> Option<Seq<char>> {
    match c {
        Some(t) => Some(t@),
        None => None,
    }
}

/// Which function a tool name stands for, in a Runfile's content: the last definition
/// with `@desc` whose tool name matches (a project function over a global one).
pub open spec fn resolved_tool(content: Option<Seq<char>>, tool: Seq<char>) -> Result<Seq<char>, (i32, Seq<char>)> {
    match content {
        None => Err(no_runfile()),
        Some(c) => match parsed(c) {
            Err(_) => Err(syntax_error(c)),
            Ok(sv) => match last_tool_def(sv, tool, sv.len() as int) {
                Some(i) => Ok(def_parts(sv[i])->Some_0.0),
                None => Err((-32602i32, "Tool not found: "@ + tool)),
            },
        },
    }
}

fn has_desc_exec(attrs: &Vec<Attribute>) -> (b: bool)
    ensures
        b == has_desc(attrs_view(attrs@)),
{
    let mut i: usize = 0;
    while i < attrs.len()
        invariant
            i <= attrs@.len(),
            forall|j: int| 0 <= j < i ==> !(#[trigger] attrs_view(attrs@)[j] is Desc),
        decreases attrs@.len() - i,
    {
        if let Attribute::Desc(_) = &attrs[i] {
            assert(attrs_view(attrs@)[i as int] is Desc);
            return true;
        }
        i = i + 1;
    }
    false
}

fn parse_error_reply(content: &str) -> (r: Result<Program, JsonRpcError>)
    ensures
        match parsed(content@) {
            Ok(sv) => (r matches Ok(p) && statements_view(p.statements@) == sv),
            Err(_) => (r matches Err(e) && error_view(e) == syntax_error(content@)),
        },
{
    match parse_script(content) {
        Ok(p) => Ok(p),
        Err(e) => {
            let named = e.with_filename("Runfile");
            let mut m = to_chars("Runfile syntax error: ");
            let report = named.render();
            push_str(&mut m, report.as_str());
            Err(JsonRpcError { code: -32603, message: from_chars(m.as_slice()) })
        },
    }
}

/// Resolve a tool name back to the function name it was made from (tool names write
/// `:` as `__`), in the Runfile's content; see `resolved_tool`.
pub fn resolve_tool_name(content: Option<&str>, sanitised_name: &str) -> (r: Result<String, JsonRpcError>)
    ensures
        match resolved_tool(str_opt_view(content), sanitised_name@) {
            Ok(n) => (r matches Ok(s) && s@ == n),
            Err(e) => (r matches Err(x) && error_view(x) == e),
        },
{
    let text = match content {
        None => {
            return Err(JsonRpcError { code: -32603, message: "No Runfile found".to_string() });
        },
        Some(c) => c,
    };
    let program = match parse_error_reply(text) {
        Ok(p) => p,
        Err(e) => {
            return Err(e);
        },
    };
    let stmts = &program.statements;
    let ghost sv = statements_view(stmts@);
    let wanted = to_chars(sanitised_name);
    let mut n: usize = stmts.len();
    while n > 0
        invariant
            n <= stmts@.len(),
            sv == statements_view(stmts@),
            wanted@ == sanitised_name@,
            str_opt_view(content) == Some(text@),
            parsed(text@) == Ok::<Seq<StatementView>, crate::parser::ParseErrorView>(sv),
            last_tool_def(sv, sanitised_name@, sv.len() as int) == last_tool_def(sv, sanitised_name@, n as int),
        decreases n,
    {
        let k = n - 1;
        assert(sv[k as int] == crate::ast::statement_view(stmts@[k as int]));
        let parts: Option<(&String, &Vec<Attribute>)> = match &stmts[k] {
            Statement::SimpleFunctionDef { name, attributes, .. } => Some((name, attributes)),
            Statement::BlockFunctionDef { name, attributes, .. } => Some((name, attributes)),
            _ => None,
        };
        if let Some((name, attributes)) = parts {
            assert(def_parts(sv[k as int]) is Some && def_parts(sv[k as int])->Some_0.0 == name@
                && def_parts(sv[k as int])->Some_0.1 == attrs_view(attributes@));
            if has_desc_exec(attributes) {
                let nc = to_chars(name.as_str());
                let colon: Vec<char> = vec![':'];
                let doubled: Vec<char> = vec!['_', '_'];
                let tn = replace_chars(nc.as_slice(), colon.as_slice(), doubled.as_slice());
                assert(colon@ =~= seq![':'] && doubled@ =~= seq!['_', '_']);
                if crate::text::chars_eq(tn.as_slice(), wanted.as_slice()) {
                    return Ok(name.clone());
                }
            }
        }
        n = k;
    }
    let mut m = to_chars("Tool not found: ");
    push_str(&mut m, sanitised_name);
    Err(JsonRpcError { code: -32602, message: from_chars(m.as_slice()) })
}

/// Argument slots: slot `i` names the parameter passed at position `i + 1`.
pub open spec fn put_slot(s: Seq<Option<Seq<char>>>, pos: nat, name: Seq<char>) -> Seq<Option<Seq<char>>> {
    if pos <= s.len() {
        s.update(pos - 1, Some(name))
    } else {
        s + Seq::new((pos - 1 - s.len()) as nat, |i: int| None::<Seq<char>>) + seq![Some(name)]
    }
}

/// The slots fixed by `@arg` annotations with a position.
pub open spec fn explicit_slots(attrs: Seq<AttrView>) -> Seq<Option<Seq<char>>>
    decreases attrs.len(),
{
    if attrs.len() == 0 {
        Seq::empty()
    } else {
        let s = explicit_slots(attrs.drop_last());
        match attrs.last() {
            AttrView::Arg(a) => if a.position > 0 {
                put_slot(s, a.position, a.name)
            } else {
                s
            },
            _ => s,
        }
    }
}

/// The names of the `@arg` annotations without a position.
pub open spec fn named_args(attrs: Seq<AttrView>) -> Seq<Seq<char>>
    decreases attrs.len(),
{
    if attrs.len() == 0 {
        Seq::empty()
    } else {
        let s = named_args(attrs.drop_last());
        match attrs.last() {
            AttrView::Arg(a) => if a.position == 0 {
                s.push(a.name)
            } else {
                s
            },
            _ => s,
        }
    }
}

/// Some slot holds `name`.
pub open spec fn holds_name(s: Seq<Option<Seq<char>>>, name: Seq<char>) -> bool {
    exists|i: int| 0 <= i < s.len() && s[i] == Some(name)
}

/// The slots after the first `n` parameters: a parameter that is not a rest parameter
/// takes its own position unless an `@arg` annotation already fixed it; one without an
/// `@arg` of its name does not take it when its name is already placed.
pub open spec fn param_slots(params: Seq<ParamView>, n: int, start: Seq<Option<Seq<char>>>, named: Seq<Seq<char>>) -> Seq<Option<Seq<char>>>
    decreases n,
{
    if n <= 0 || n > params.len() {
        start
    } else {
        let s = param_slots(params, n - 1, start, named);
        let p = params[n - 1];
        let pos = n as nat;
        if p.is_rest || (pos <= s.len() && s[pos - 1] is Some) {
            s
        } else if named.contains(p.name) || !holds_name(s, p.name) {
            put_slot(s, pos, p.name)
        } else {
            s
        }
    }
}

/// The slots of a function's arguments.
pub open spec fn argument_slots(attrs: Seq<AttrView>, params: Seq<ParamView>) -> Seq<Option<Seq<char>>> {
    param_slots(params, params.len() as int, explicit_slots(attrs), named_args(attrs))
}

/// The first rest parameter.
pub open spec fn first_rest(params: Seq<ParamView>) -> Option<ParamView>
    decreases params.len(),
{
    if params.len() == 0 {
        None
    } else if params[0].is_rest {
        Some(params[0])
    } else {
        first_rest(params.drop_first())
    }
}

/// The texts of the slots, from the arguments object: empty for an empty slot or a
/// missing argument.
pub open spec fn slot_texts(s: Seq<Option<Seq<char>>>, members: Seq<(String, JsonValue)>) -> Seq<Seq<char>> {
    Seq::new(
        s.len(),
        |i: int|
            match s[i] {
                Some(n) => match lookup(members, n) {
                    Some(v) => json_text(v),
                    None => Seq::empty(),
                },
                None => Seq::empty(),
            },
    )
}

/// The members of an object; `None` for any other value.
pub open spec fn object_members(v: JsonValue) -> Option<Seq<(String, JsonValue)>> {
    match v {
        JsonValue::Object(t, _) => Some(t.entries@),
        _ => None,
    }
}

/// The members without the one of key `k`, if any.
pub open spec fn without_key(m: Seq<(String, JsonValue)>, k: Seq<char>) -> Seq<(String, JsonValue)>
    decreases m.len(),
{
    if m.len() == 0 {
        m
    } else if m[0].0@ == k {
        without_key(m.drop_first(), k)
    } else {
        seq![m[0]] + without_key(m.drop_first(), k)
    }
}

/// The members, without the one of key `skip` when a key is given.
pub open spec fn members_except(m: Option<Seq<(String, JsonValue)>>, skip: Option<Seq<char>>) -> Option<Seq<(String, JsonValue)>> {
    match (m, skip) {
        (Some(m), Some(k)) => Some(without_key(m, k)),
        _ => m,
    }
}

proof fn lemma_lookup_skip_first(e: Seq<(String, JsonValue)>, n: Seq<char>)
    requires
        e.len() > 0,
        e[0].0@ != n,
    ensures
        lookup(e, n) == lookup(e.drop_first(), n),
{
    crate::table::lemma_key_pos(e.drop_first(), n);
    match key_pos(e.drop_first(), n) {
        Some(i) => {
            assert(e[i + 1] == e.drop_first()[i]);
        },
        None => {},
    }
}

/// Leaving out a key hides its member and nothing else.
pub proof fn lemma_lookup_without(m: Seq<(String, JsonValue)>, k: Seq<char>, n: Seq<char>)
    ensures
        lookup(without_key(m, k), n) == if n == k { None } else { lookup(m, n) },
    decreases m.len(),
{
    if m.len() > 0 {
        lemma_lookup_without(m.drop_first(), k, n);
        let rest = without_key(m.drop_first(), k);
        if m[0].0@ == k {
            assert(without_key(m, k) == rest);
            if n != k {
                lemma_lookup_skip_first(m, n);
            }
        } else {
            let w = seq![m[0]] + rest;
            assert(without_key(m, k) == w);
            assert(w.drop_first() =~= rest);
            assert(w[0] == m[0]);
            if m[0].0@ != n {
                lemma_lookup_skip_first(w, n);
                lemma_lookup_skip_first(m, n);
            } else {
                assert(key_pos(w, n) == Some(0int));
                assert(key_pos(m, n) == Some(0int));
            }
        }
    }
}

/// The items of the array given for the rest parameter.
pub open spec fn rest_array(params: Seq<ParamView>, members: Seq<(String, JsonValue)>) -> Option<Seq<JsonValue>> {
    match first_rest(params) {
        Some(r) => match lookup(members, r.name) {
            Some(JsonValue::Array(items, _)) => Some(items@),
            _ => None,
        },
        None => None,
    }
}

/// The positional arguments of a call whose arguments have these members (`None` when
/// they are not an object): the slot texts, then, when the rest parameter is given an
/// array, the texts of its items. No slot gives no arguments; otherwise the arguments
/// must be an object.
pub open spec fn mapped_arguments(attrs: Seq<AttrView>, params: Seq<ParamView>, members: Option<Seq<(String, JsonValue)>>) -> Result<Seq<Seq<char>>, (i32, Seq<char>)> {
    let slots = argument_slots(attrs, params);
    match members {
        Some(m) => match rest_array(params, m) {
            Some(items) => Ok(slot_texts(slots, m) + items.map_values(|v: JsonValue| json_text(v))),
            None => if slots.len() == 0 {
                Ok(Seq::empty())
            } else {
                Ok(slot_texts(slots, m))
            },
        },
        None => if slots.len() == 0 {
            Ok(Seq::empty())
        } else {
            Err((-32602i32, "Arguments must be an object"@))
        },
    }
}

/// The annotations and parameters of the last definition of `name` (none when there is
/// no such definition).
pub open spec fn definition_of(sv: Seq<StatementView>, name: Seq<char>, n: int) -> (Seq<AttrView>, Seq<ParamView>)
    decreases n,
{
    if n <= 0 || n > sv.len() {
        (Seq::empty(), Seq::empty())
    } else if def_parts(sv[n - 1]) is Some && def_parts(sv[n - 1])->Some_0.0 == name {
        (def_parts(sv[n - 1])->Some_0.1, def_parts(sv[n - 1])->Some_0.2)
    } else {
        definition_of(sv, name, n - 1)
    }
}

pub open spec fn slots_view(v: Seq<Option<String>>) -> Seq<Option<Seq<char>>> {
    v.map_values(|o: Option<String>| crate::ast::opt_view(o))
}

fn put_slot_exec(slots: &mut Vec<Option<String>>, pos: usize, name: String)
    requires
        pos >= 1,
    ensures
        slots_view(final(slots)@) == put_slot(slots_view(old(slots)@), pos as nat, name@),
{
    let ghost s0 = slots_view(slots@);
    if pos <= slots.len() {
        slots.set(pos - 1, Some(name));
        assert(slots_view(slots@) =~= s0.update(pos - 1, Some(name@)));
    } else {
        let ghost len0 = slots@.len();
        while slots.len() < pos - 1
            invariant
                len0 <= slots@.len() <= pos - 1,
                len0 == s0.len(),
                slots_view(slots@).subrange(0, len0 as int) == s0,
                forall|j: int| len0 <= j < slots@.len() ==> slots@[j] is None,
            decreases pos - 1 - slots@.len(),
        {
            let ghost before = slots_view(slots@);
            slots.push(None);
            assert(slots_view(slots@).subrange(0, len0 as int) =~= before.subrange(0, len0 as int));
        }
        slots.push(Some(name));
        assert(slots_view(slots@) =~= s0 + Seq::new((pos - 1 - len0) as nat, |i: int| None::<Seq<char>>) + seq![Some(name@)]);
    }
}

fn holds_name_exec(slots: &Vec<Option<String>>, name: &[char]) -> (b: bool)
    ensures
        b == holds_name(slots_view(slots@), name@),
{
    let mut i: usize = 0;
    while i < slots.len()
        invariant
            i <= slots@.len(),
            forall|j: int| 0 <= j < i ==> slots_view(slots@)[j] != Some(name@),
        decreases slots@.len() - i,
    {
        if let Some(n) = &slots[i] {
            let nc = to_chars(n.as_str());
            if crate::text::chars_eq(nc.as_slice(), name) {
                assert(slots_view(slots@)[i as int] == Some(name@));
                return true;
            }
        }
        i = i + 1;
    }
    false
}

fn annotated_args(attributes: &Vec<Attribute>) -> (r: (Vec<Option<String>>, Vec<String>))
    ensures
        slots_view(r.0@) == explicit_slots(attrs_view(attributes@)),
        string_views(r.1@) == named_args(attrs_view(attributes@)),
{
    let ghost av = attrs_view(attributes@);
    let mut slots: Vec<Option<String>> = Vec::new();
    let mut named: Vec<String> = Vec::new();
    let mut i: usize = 0;
    while i < attributes.len()
        invariant
            i <= attributes@.len(),
            av == attrs_view(attributes@),
            slots_view(slots@) == explicit_slots(av.take(i as int)),
            string_views(named@) == named_args(av.take(i as int)),
        decreases attributes@.len() - i,
    {
        assert(av.take(i + 1).drop_last() =~= av.take(i as int));
        if let Attribute::Arg(m) = &attributes[i] {
            if m.position > 0 {
                put_slot_exec(&mut slots, m.position, m.name.clone());
            } else {
                named.push(m.name.clone());
                assert(string_views(named@) =~= named_args(av.take(i as int)).push(m.name@));
            }
        }
        i = i + 1;
    }
    assert(av.take(attributes@.len() as int) =~= av);
    (slots, named)
}

/// The slots fixed by `@arg` annotations, the parameters and the names of the
/// annotations without position, of the last definition of `tool_name`.
pub fn collect_arg_metadata(program: &Program, tool_name: &str) -> (r: (Vec<Option<String>>, Vec<Parameter>, Vec<String>))
    ensures
        ({
            let d = definition_of(statements_view(program.statements@), tool_name@, program.statements@.len() as int);
            &&& slots_view(r.0@) == explicit_slots(d.0)
            &&& params_view(r.1@) == d.1
            &&& string_views(r.2@) == named_args(d.0)
        }),
{
    let stmts = &program.statements;
    let ghost sv = statements_view(stmts@);
    let wanted = to_chars(tool_name);
    let mut n: usize = stmts.len();
    while n > 0
        invariant
            n <= stmts@.len(),
            sv == statements_view(stmts@),
            stmts@ == program.statements@,
            wanted@ == tool_name@,
            definition_of(sv, tool_name@, sv.len() as int) == definition_of(sv, tool_name@, n as int),
        decreases n,
    {
        let k = n - 1;
        assert(sv[k as int] == crate::ast::statement_view(stmts@[k as int]));
        let parts: Option<(&String, &Vec<Attribute>, &Vec<Parameter>)> = match &stmts[k] {
            Statement::SimpleFunctionDef { name, params, attributes, .. } => Some((name, attributes, params)),
            Statement::BlockFunctionDef { name, params, attributes, .. } => Some((name, attributes, params)),
            _ => None,
        };
        if let Some((name, attributes, params)) = parts {
            assert(def_parts(sv[k as int]) == Some((name@, attrs_view(attributes@), params_view(params@))));
            let nc = to_chars(name.as_str());
            if crate::text::chars_eq(nc.as_slice(), wanted.as_slice()) {
                let (slots, named) = annotated_args(attributes);
                return (slots, crate::ast::copy_parameters(params.as_slice()), named);
            }
        }
        n = k;
    }
    (Vec::new(), Vec::new(), Vec::new())
}

fn first_rest_exec(params: &Vec<Parameter>) -> (r: Option<usize>)
    ensures
        r matches Some(i) ==> i < params@.len() && first_rest(params_view(params@)) == Some(params_view(params@)[i as int]),
        r is None ==> first_rest(params_view(params@)) is None,
{
    let ghost pv = params_view(params@);
    let mut i: usize = 0;
    assert(pv.skip(0) =~= pv);
    while i < params.len()
        invariant
            i <= params@.len(),
            pv == params_view(params@),
            first_rest(pv) == first_rest(pv.skip(i as int)),
        decreases params@.len() - i,
    {
        if params[i].is_rest {
            return Some(i);
        }
        assert(pv.skip(i as int).drop_first() =~= pv.skip(i + 1));
        i = i + 1;
    }
    None
}

fn slot_texts_exec(slots: &Vec<Option<String>>, members: &Table<JsonValue>, skip: Option<&str>) -> (r: Vec<String>)
    ensures
        string_views(r@) == slot_texts(slots_view(slots@), members_except(Some(members.entries@), str_opt_view(skip))->Some_0),
{
    let ghost m = members_except(Some(members.entries@), str_opt_view(skip))->Some_0;
    let ghost target = slot_texts(slots_view(slots@), m);
    let mut out: Vec<String> = Vec::new();
    let mut i: usize = 0;
    while i < slots.len()
        invariant
            i <= slots@.len(),
            target == slot_texts(slots_view(slots@), m),
            m == members_except(Some(members.entries@), str_opt_view(skip))->Some_0,
            string_views(out@) == target.take(i as int),
        decreases slots@.len() - i,
    {
        let text = match &slots[i] {
            Some(n) => if is_skipped(n.as_str(), skip) {
                String::new()
            } else {
                match members.find(n.as_str()) {
                    Some(v) => value_to_string(v),
                    None => String::new(),
                }
            },
            None => String::new(),
        };
        proof {
            match slots_view(slots@)[i as int] {
                Some(n) => match skip {
                    Some(k) => lemma_lookup_without(members.entries@, k@, n),
                    None => {},
                },
                None => {},
            }
        }
        assert(text@ == target[i as int]);
        let ghost before = string_views(out@);
        out.push(text);
        assert(string_views(out@) =~= before.push(text@));
        assert(string_views(out@) =~= target.take(i + 1));
        i = i + 1;
    }
    assert(target.take(slots@.len() as int) =~= target);
    out
}

/// The positional arguments for a call of the function `tool_name` with the named
/// arguments `json_args`, by the program's last definition of that function (see
/// `mapped_arguments`).
pub fn positional_arguments(program: &Program, tool_name: &str, json_args: &JsonValue) -> (r: Result<Vec<String>, JsonRpcError>)
    ensures
        ({
            let d = definition_of(statements_view(program.statements@), tool_name@, program.statements@.len() as int);
            match mapped_arguments(d.0, d.1, object_members(*json_args)) {
                Ok(v) => (r matches Ok(x) && string_views(x@) == v),
                Err(e) => (r matches Err(x) && error_view(x) == e),
            }
        }),
{
    positional_arguments_except(program, tool_name, json_args, None)
}

fn is_skipped(name: &str, skip: Option<&str>) -> (b: bool)
    ensures
        b == (str_opt_view(skip) == Some(name@)),
{
    match skip {
        Some(k) => crate::text::chars_eq(to_chars(name).as_slice(), to_chars(k).as_slice()),
        None => false,
    }
}

/// The positional arguments for a call (see `positional_arguments`), with the member of
/// key `skip` left out of the named arguments when a key is given.
pub fn positional_arguments_except(program: &Program, tool_name: &str, json_args: &JsonValue, skip: Option<&str>) -> (r: Result<Vec<String>, JsonRpcError>)
    ensures
        ({
            let d = definition_of(statements_view(program.statements@), tool_name@, program.statements@.len() as int);
            match mapped_arguments(d.0, d.1, members_except(object_members(*json_args), str_opt_view(skip))) {
                Ok(v) => (r matches Ok(x) && string_views(x@) == v),
                Err(e) => (r matches Err(x) && error_view(x) == e),
            }
        }),
{
    let (mut slots, params, named) = collect_arg_metadata(program, tool_name);
    let ghost pv = params_view(params@);
    let ghost start = slots_view(slots@);
    let ghost nm = string_views(named@);
    let mut i: usize = 0;
    while i < params.len()
        invariant
            i <= params@.len(),
            pv == params_view(params@),
            nm == string_views(named@),
            slots_view(slots@) == param_slots(pv, i as int, start, nm),
        decreases params@.len() - i,
    {
        let p = &params[i];
        if !p.is_rest {
            let pos = i + 1;
            let taken = pos <= slots.len() && slots[pos - 1].is_some();
            if !taken {
                let pc = to_chars(p.name.as_str());
                if contains_name(&named, pc.as_slice()) || !holds_name_exec(&slots, pc.as_slice()) {
                    put_slot_exec(&mut slots, pos, p.name.clone());
                }
            }
        }
        i = i + 1;
    }
    if let Some(ri) = first_rest_exec(&params) {
        if let JsonValue::Object(members, _) = json_args {
            proof {
                match skip {
                    Some(k) => lemma_lookup_without(members.entries@, k@, pv[ri as int].name),
                    None => {},
                }
            }
            let rest_value = if is_skipped(params[ri].name.as_str(), skip) {
                None
            } else {
                members.find(params[ri].name.as_str())
            };
            if let Some(JsonValue::Array(items, _)) = rest_value {
                let mut out = slot_texts_exec(&slots, members, skip);
                let ghost base = string_views(out@);
                let mut j: usize = 0;
                while j < items.len()
                    invariant
                        j <= items@.len(),
                        string_views(out@) == base + items@.take(j as int).map_values(|v: JsonValue| json_text(v)),
                    decreases items@.len() - j,
                {
                    let t = value_to_string(&items[j]);
                    let ghost before = string_views(out@);
                    out.push(t);
                    assert(string_views(out@) =~= before.push(t@));
                    assert(items@.take(j + 1).map_values(|v: JsonValue| json_text(v)) =~= items@.take(
                        j as int,
                    ).map_values(|v: JsonValue| json_text(v)).push(json_text(items@[j as int])));
                    assert(string_views(out@) =~= base + items@.take(j + 1).map_values(|v: JsonValue| json_text(v)));
                    j = j + 1;
                }
                assert(items@.take(items@.len() as int) =~= items@);
                return Ok(out);
            }
        }
    }
    if slots.len() == 0 {
        return Ok(Vec::new());
    }
    match json_args {
        JsonValue::Object(members, _) => Ok(slot_texts_exec(&slots, members, skip)),
        _ => Err(JsonRpcError { code: -32602, message: "Arguments must be an object".to_string() }),
    }
}

/// The positional arguments of a call of `name`, in a Runfile's content.
pub open spec fn positional_for(content: Option<Seq<char>>, name: Seq<char>, members: Option<Seq<(String, JsonValue)>>) -> Result<Seq<Seq<char>>, (i32, Seq<char>)> {
    match content {
        None => Err(no_runfile()),
        Some(c) => match parsed(c) {
            Err(_) => Err(syntax_error(c)),
            Ok(sv) => {
                let d = definition_of(sv, name, sv.len() as int);
                mapped_arguments(d.0, d.1, members)
            },
        },
    }
}

/// Map the named JSON arguments of a call of the function `tool_name` to its positional
/// arguments, by the Runfile's content (see `positional_for`).
pub fn map_arguments_to_positional(content: Option<&str>, tool_name: &str, json_args: &JsonValue) -> (r: Result<Vec<String>, JsonRpcError>)
    ensures
        match positional_for(str_opt_view(content), tool_name@, object_members(*json_args)) {
            Ok(v) => (r matches Ok(x) && string_views(x@) == v),
            Err(e) => (r matches Err(x) && error_view(x) == e),
        },
{
    map_arguments_except(content, tool_name, json_args, None)
}

/// Map the named JSON arguments to positional ones (see `map_arguments_to_positional`),
/// with the member of key `skip` left out when a key is given.
pub fn map_arguments_except(content: Option<&str>, tool_name: &str, json_args: &JsonValue, skip: Option<&str>) -> (r: Result<Vec<String>, JsonRpcError>)
    ensures
        match positional_for(str_opt_view(content), tool_name@, members_except(object_members(*json_args), str_opt_view(skip))) {
            Ok(v) => (r matches Ok(x) && string_views(x@) == v),
            Err(e) => (r matches Err(x) && error_view(x) == e),
        },
{
    let text = match content {
        None => {
            return Err(JsonRpcError { code: -32603, message: "No Runfile found".to_string() });
        },
        Some(c) => c,
    };
    let program = match parse_error_reply(text) {
        Ok(p) => p,
        Err(e) => {
            return Err(e);
        },
    };
    positional_arguments_except(&program, tool_name, json_args, skip)
}

/// A function without `@arg` annotations and without a rest parameter, whose parameter
/// names differ, takes its arguments by name in the order its parameters are declared.
pub proof fn lemma_params_in_order(attrs: Seq<AttrView>, params: Seq<ParamView>)
    requires
        forall|i: int| 0 <= i < attrs.len() ==> !(#[trigger] attrs[i] is Arg),
        forall|i: int| 0 <= i < params.len() ==> !(#[trigger] params[i]).is_rest,
        forall|i: int, j: int| 0 <= i < j < params.len() ==> params[i].name != params[j].name,
    ensures
        argument_slots(attrs, params) == params.map_values(|p: ParamView| Some(p.name)),
{
    lemma_no_annotations(attrs);
    lemma_param_slots_in_order(params, params.len() as int);
    assert(params.take(params.len() as int) =~= params);
}

proof fn lemma_no_annotations(attrs: Seq<AttrView>)
    requires
        forall|i: int| 0 <= i < attrs.len() ==> !(#[trigger] attrs[i] is Arg),
    ensures
        explicit_slots(attrs) == Seq::<Option<Seq<char>>>::empty(),
        named_args(attrs) == Seq::<Seq<char>>::empty(),
    decreases attrs.len(),
{
    if attrs.len() > 0 {
        lemma_no_annotations(attrs.drop_last());
        assert(!(attrs[attrs.len() - 1] is Arg));
    }
}

proof fn lemma_param_slots_in_order(params: Seq<ParamView>, n: int)
    requires
        0 <= n <= params.len(),
        forall|i: int| 0 <= i < params.len() ==> !(#[trigger] params[i]).is_rest,
        forall|i: int, j: int| 0 <= i < j < params.len() ==> params[i].name != params[j].name,
    ensures
        param_slots(params, n, Seq::empty(), Seq::empty()) == params.take(n).map_values(|p: ParamView| Some(p.name)),
    decreases n,
{
    if n > 0 {
        lemma_param_slots_in_order(params, n - 1);
        let s = param_slots(params, n - 1, Seq::empty(), Seq::empty());
        let p = params[n - 1];
        assert(!p.is_rest);
        assert(s.len() == n - 1);
        assert(!holds_name(s, p.name)) by {
            if holds_name(s, p.name) {
                let k = choose|k: int| 0 <= k < s.len() && s[k] == Some(p.name);
                assert(s[k] == Some(params[k].name));
            }
        }
        assert(put_slot(s, n as nat, p.name) =~= params.take(n).map_values(|p: ParamView| Some(p.name)));
    } else {
        assert(params.take(0).map_values(|p: ParamView| Some(p.name)) =~= Seq::<Option<Seq<char>>>::empty());
    }
}

/// With its parameters taken in order, a call gives each parameter the text of the
/// argument of its name (nothing for a missing one).
pub proof fn lemma_named_arguments_in_order(attrs: Seq<AttrView>, params: Seq<ParamView>, members: Seq<(String, JsonValue)>)
    requires
        forall|i: int| 0 <= i < attrs.len() ==> !(#[trigger] attrs[i] is Arg),
        forall|i: int| 0 <= i < params.len() ==> !(#[trigger] params[i]).is_rest,
        forall|i: int, j: int| 0 <= i < j < params.len() ==> params[i].name != params[j].name,
    ensures
        mapped_arguments(attrs, params, Some(members)) == Ok::<Seq<Seq<char>>, (i32, Seq<char>)>(
            params.map_values(|p: ParamView| match lookup(members, p.name) {
                Some(v) => json_text(v),
                None => Seq::<char>::empty(),
            }),
        ),
{
    lemma_params_in_order(attrs, params);
    lemma_first_rest_none(params);
    let slots = argument_slots(attrs, params);
    if params.len() == 0 {
        assert(params.map_values(|p: ParamView| match lookup(members, p.name) {
            Some(v) => json_text(v),
            None => Seq::<char>::empty(),
        }) =~= Seq::<Seq<char>>::empty());
    } else {
        assert(slot_texts(slots, members) =~= params.map_values(|p: ParamView| match lookup(members, p.name) {
            Some(v) => json_text(v),
            None => Seq::<char>::empty(),
        }));
    }
}

proof fn lemma_first_rest_none(params: Seq<ParamView>)
    requires
        forall|i: int| 0 <= i < params.len() ==> !(#[trigger] params[i]).is_rest,
    ensures
        first_rest(params) is None,
    decreases params.len(),
{
    if params.len() > 0 {
        assert(!params[0].is_rest);
        assert forall|i: int| 0 <= i < params.drop_first().len() implies !(#[trigger] params.drop_first()[i]).is_rest by {
            assert(params.drop_first()[i] == params[i + 1]);
        }
        lemma_first_rest_none(params.drop_first());
    }
}

proof fn lemma_last_desc_has_desc(attrs: Seq<AttrView>)
    requires
        crate::mcp::tools::last_desc(attrs) is Some,
    ensures
        has_desc(attrs),
    decreases attrs.len(),
{
    if !(attrs.last() is Desc) {
        lemma_last_desc_has_desc(attrs.drop_last());
        let k = choose|k: int| 0 <= k < attrs.drop_last().len() && #[trigger] attrs.drop_last()[k] is Desc;
        assert(attrs[k] is Desc);
    } else {
        assert(attrs[attrs.len() - 1] is Desc);
    }
}

proof fn lemma_last_tool_def_from(s: Seq<StatementView>, tool: Seq<char>, i: int, n: int)
    requires
        0 <= i < n <= s.len(),
        def_parts(s[i]) is Some,
        has_desc(def_parts(s[i])->Some_0.1),
        tool_name(def_parts(s[i])->Some_0.0) == tool,
        forall|j: int| i < j < s.len() && #[trigger] def_parts(s[j]) is Some && has_desc(def_parts(s[j])->Some_0.1)
            && tool_name(def_parts(s[j])->Some_0.0) == tool ==> def_parts(s[j])->Some_0.0 == def_parts(s[i])->Some_0.0,
    ensures
        last_tool_def(s, tool, n) matches Some(m) && def_parts(s[m]) is Some && def_parts(s[m])->Some_0.0 == def_parts(
            s[i],
        )->Some_0.0,
    decreases n,
{
    if n - 1 > i {
        if !(def_parts(s[n - 1]) is Some && has_desc(def_parts(s[n - 1])->Some_0.1) && tool_name(def_parts(s[n - 1])->Some_0.0) == tool) {
            lemma_last_tool_def_from(s, tool, i, n - 1);
        }
    }
}

/// A listed tool's name resolves back to the function it was made from, unless a later
/// definition with `@desc` of another function has the same tool name (`a:b` and `a__b`).
pub proof fn lemma_listed_tool_resolves(c: Seq<char>, host: crate::utils::HostPlatform, i: int)
    requires
        parsed(c) is Ok,
        0 <= i < parsed(c)->Ok_0.len(),
        crate::mcp::tools::exposed(parsed(c)->Ok_0, host, i),
        forall|j: int| i < j < parsed(c)->Ok_0.len() && #[trigger] def_parts(parsed(c)->Ok_0[j]) is Some && has_desc(
            def_parts(parsed(c)->Ok_0[j])->Some_0.1,
        ) && tool_name(def_parts(parsed(c)->Ok_0[j])->Some_0.0) == tool_name(def_parts(parsed(c)->Ok_0[i])->Some_0.0)
            ==> def_parts(parsed(c)->Ok_0[j])->Some_0.0 == def_parts(parsed(c)->Ok_0[i])->Some_0.0,
    ensures
        resolved_tool(Some(c), tool_name(def_parts(parsed(c)->Ok_0[i])->Some_0.0)) == Ok::<Seq<char>, (i32, Seq<char>)>(
            def_parts(parsed(c)->Ok_0[i])->Some_0.0,
        ),
{
    let sv = parsed(c)->Ok_0;
    let parts = def_parts(sv[i])->Some_0;
    assert(crate::mcp::tools::offered_tool(sv[i], host) is Some);
    assert(crate::mcp::tools::function_tool(parts.0, parts.1, parts.2) is Some);
    lemma_last_desc_has_desc(parts.1);
    lemma_last_tool_def_from(sv, tool_name(parts.0), i, sv.len() as int);
}

} // verus!
