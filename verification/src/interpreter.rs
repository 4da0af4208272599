//! The interpreter: the state built from a Runfile and the plans for running its functions.
use vstd::prelude::*;
use crate::ast::{Attribute, CommandOutput, Expression, OutputMode, Parameter, Program, Statement};
use crate::interpreter::preamble::{
    block_interp, build_function_preamble, build_polyglot_arg_preamble, build_variable_preamble,
    collect_compatible_siblings, collect_incompatible_colon_siblings, compatible_siblings, function_preamble,
    incompatible_colon_siblings, polyglot_arg_preamble, simple_interp, variable_preamble,
};
use crate::interpreter::shell::{
    interpreter_label, path_file_name, resolve_shebang_interpreter, shebang_shell, strip_shebang,
    without_shebang,
};
use crate::interpreter::substitution::{
    substitute, substitute_with_params, substituted, substituted_with_params,
};
use crate::order::{insert_sorted, strictly_sorted};
use crate::table::{keys_of, keys_unique, lemma_lookup_store, lookup, store, Table};
use crate::text::{
    contains, contains_exec, from_chars, join, push_all, push_str, replace_all, replace_chars, signed_decimal,
    string_views, to_chars,
};
use crate::transpiler::{default_choice, interpreter_of_shell, rewrite_call_sites, rewritten_body, Interpreter as TranspilerInterpreter};
use crate::utils::{available_on, matches_current_platform, HostPlatform};

pub mod execution;
pub mod preamble;
pub mod shell;
pub mod substitution;

verus! {

/// What is known of a defined function besides its body.
pub struct FunctionMetadata {
    pub attributes: Vec<Attribute>,
    pub shebang: Option<String>,
    pub params: Vec<Parameter>,
}

/// The first `@shell` attribute, if any.
pub open spec fn first_shell(attrs: Seq<Attribute>) -> Option<crate::ast::ShellType>
    decreases attrs.len(),
{
    if attrs.len() == 0 {
        None
    } else {
        match attrs[0] {
            Attribute::Shell(t) => Some(t),
            _ => first_shell(attrs.drop_first()),
        }
    }
}

/// The interpreter a function runs under: its first `@shell` attribute, else the
/// interpreter its shebang names, else `fallback` (the platform default).
pub open spec fn resolved_interpreter(
    attrs: Seq<Attribute>,
    shebang: Option<Seq<char>>,
    fallback: TranspilerInterpreter,
) -> TranspilerInterpreter {
    match first_shell(attrs) {
        Some(t) => interpreter_of_shell(t),
        None => match shebang {
            Some(s) => match shebang_shell(s, path_file_name(s)) {
                Some(t) => interpreter_of_shell(t),
                None => fallback,
            },
            None => fallback,
        },
    }
}

/// The attributes recorded for `name` (none when nothing is recorded).
pub open spec fn meta_attrs(meta: Seq<(String, FunctionMetadata)>, name: Seq<char>) -> Seq<Attribute> {
    match lookup(meta, name) {
        Some(m) => m.attributes@,
        None => Seq::empty(),
    }
}

/// The shebang recorded for `name`.
pub open spec fn meta_shebang(meta: Seq<(String, FunctionMetadata)>, name: Seq<char>) -> Option<Seq<char>> {
    match lookup(meta, name) {
        Some(m) => match m.shebang {
            Some(s) => Some(s@),
            None => None,
        },
        None => None,
    }
}

/// The parameters recorded for `name`.
pub open spec fn meta_params(meta: Seq<(String, FunctionMetadata)>, name: Seq<char>) -> Seq<Parameter> {
    match lookup(meta, name) {
        Some(m) => m.params@,
        None => Seq::empty(),
    }
}

/// The interpreter of a function: the first `@shell` attribute wins, then the shebang,
/// then `fallback`.
pub fn resolve_function_interpreter(
    attributes: &[Attribute],
    shebang: Option<&str>,
    fallback: TranspilerInterpreter,
) -> (r: TranspilerInterpreter)
    ensures
        r == resolved_interpreter(
            attributes@,
            match shebang {
                Some(s) => Some(s@),
                None => None,
            },
            fallback,
        ),
{
    let mut i: usize = 0;
    assert(attributes@.skip(0) =~= attributes@);
    while i < attributes.len()
        invariant
            i <= attributes@.len(),
            first_shell(attributes@) == first_shell(attributes@.skip(i as int)),
        decreases attributes@.len() - i,
    {
        assert(attributes@.skip(i as int).drop_first() =~= attributes@.skip(i + 1));
        if let Attribute::Shell(t) = &attributes[i] {
            return TranspilerInterpreter::from_shell_type(t);
        }
        i = i + 1;
    }
    if let Some(s) = shebang {
        if let Some(t) = resolve_shebang_interpreter(s) {
            return TranspilerInterpreter::from_shell_type(&t);
        }
    }
    fallback
}

/// The attributes recorded for `name` in a metadata table.
pub fn attributes_of<'a>(meta: &'a Table<FunctionMetadata>, name: &[char]) -> (r: &'a [Attribute])
    ensures
        r@ == meta_attrs(meta.entries@, name@),
{
    match meta.get(name) {
        Some(m) => m.attributes.as_slice(),
        None => &[],
    }
}

/// The shebang recorded for `name` in a metadata table.
pub fn shebang_of<'a>(meta: &'a Table<FunctionMetadata>, name: &[char]) -> (r: Option<&'a str>)
    ensures
        match r {
            Some(s) => meta_shebang(meta.entries@, name@) == Some(s@),
            None => meta_shebang(meta.entries@, name@) is None,
        },
{
    match meta.get(name) {
        Some(m) => match &m.shebang {
            Some(s) => Some(s.as_str()),
            None => None,
        },
        None => None,
    }
}

/// The parameters recorded for `name` in a metadata table.
pub fn params_of<'a>(meta: &'a Table<FunctionMetadata>, name: &[char]) -> (r: &'a [Parameter])
    ensures
        r@ == meta_params(meta.entries@, name@),
{
    match meta.get(name) {
        Some(m) => m.params.as_slice(),
        None => &[],
    }
}

/// One planned run of a program, carried out by the caller.
#[derive(Debug)]
pub enum ExecStep {
    /// Run `script` with the interpreter's program and script flag, output streamed to
    /// the terminal; an unsuccessful exit is an error.
    Shell { interpreter: TranspilerInterpreter, script: String },
    /// Run a polyglot `script` with `args` after it, output streamed; the exit status is
    /// only reported.
    Polyglot { interpreter: TranspilerInterpreter, script: String, args: Vec<String> },
    /// Run `script` with `args` after it and capture its output, which goes back through
    /// `Interpreter::record_output`; `display` is the command shown in reports (the script
    /// itself when `None`), and `echo` prints the captured output.
    Capture {
        interpreter: TranspilerInterpreter,
        script: String,
        args: Vec<String>,
        display: Option<String>,
        echo: bool,
    },
    /// Run a top-level command with the user's shell; the exit status is only reported.
    Command { command: String },
}

/// The content of an `ExecStep`.
pub enum StepView {
    Shell { interpreter: TranspilerInterpreter, script: Seq<char> },
    Polyglot { interpreter: TranspilerInterpreter, script: Seq<char>, args: Seq<Seq<char>> },
    Capture {
        interpreter: TranspilerInterpreter,
        script: Seq<char>,
        args: Seq<Seq<char>>,
        display: Option<Seq<char>>,
        echo: bool,
    },
    Command { command: Seq<char> },
}

impl View for ExecStep {
    type V = StepView;

    open spec fn view(&self) -> StepView {
        match self {
            ExecStep::Shell { interpreter, script } => StepView::Shell { interpreter: *interpreter, script: script@ },
            ExecStep::Polyglot { interpreter, script, args } => StepView::Polyglot {
                interpreter: *interpreter,
                script: script@,
                args: string_views(args@),
            },
            ExecStep::Capture { interpreter, script, args, display, echo } => StepView::Capture {
                interpreter: *interpreter,
                script: script@,
                args: string_views(args@),
                display: match display {
                    Some(d) => Some(d@),
                    None => None,
                },
                echo: *echo,
            },
            ExecStep::Command { command } => StepView::Command { command: command@ },
        }
    }
}

/// The views of a list of steps.
pub open spec fn step_views(v: Seq<ExecStep>) -> Seq<StepView> {
    v.map_values(|s: ExecStep| s@)
}

/// The steps planned for a program, and the error that stopped the planning, if any.
pub struct ExecutionPlan {
    pub steps: Vec<ExecStep>,
    pub error: Option<String>,
}

/// The state of an interpreter.
pub struct Interpreter {
    /// Runfile variables.
    pub variables: Table<String>,
    /// One-line functions: name and command template.
    pub simple_functions: Table<String>,
    /// Block functions: name and lines.
    pub block_functions: Table<Vec<String>>,
    /// Attributes, shebang and parameters of the defined functions.
    pub function_metadata: Table<FunctionMetadata>,
    /// How output is handled.
    pub output_mode: OutputMode,
    /// Outputs recorded in the capturing modes.
    pub captured_outputs: Vec<CommandOutput>,
    /// The interpreter used last (`sh` before any run).
    pub last_interpreter_name: String,
    /// The host platform, for `@os` filtering.
    pub platform: HostPlatform,
    /// The interpreter of functions that name none.
    pub default_interpreter: TranspilerInterpreter,
}

/// The abstract state of an interpreter.
pub struct InterpreterView {
    pub variables: Seq<(String, String)>,
    pub simple: Seq<(String, String)>,
    pub block: Seq<(String, Vec<String>)>,
    pub meta: Seq<(String, FunctionMetadata)>,
    pub mode: OutputMode,
    pub captured: Seq<CommandOutput>,
    pub last: Seq<char>,
    pub platform: HostPlatform,
    pub fallback: TranspilerInterpreter,
}

impl View for Interpreter {
    type V = InterpreterView;

    open spec fn view(&self) -> InterpreterView {
        InterpreterView {
            variables: self.variables.entries@,
            simple: self.simple_functions.entries@,
            block: self.block_functions.entries@,
            meta: self.function_metadata.entries@,
            mode: self.output_mode,
            captured: self.captured_outputs@,
            last: self.last_interpreter_name@,
            platform: self.platform,
            fallback: self.default_interpreter,
        }
    }
}

/// Each table holds each name once.
pub open spec fn well_formed(v: InterpreterView) -> bool {
    keys_unique(v.variables) && keys_unique(v.simple) && keys_unique(v.block) && keys_unique(v.meta)
}

/// Python, Node and Ruby get the script as it is; shells get a composed script.
pub open spec fn is_polyglot(t: TranspilerInterpreter) -> bool {
    t == TranspilerInterpreter::Python || t == TranspilerInterpreter::Python3 || t == TranspilerInterpreter::Node
        || t == TranspilerInterpreter::Ruby
}

/// The script that runs `body` as function `name` under `t`: variables, sibling
/// functions, then the body with sibling calls rewritten.
pub open spec fn composed_script(v: InterpreterView, name: Seq<char>, body: Seq<char>, t: TranspilerInterpreter) -> Seq<char> {
    crate::interpreter::execution::combined_script(
        variable_preamble(v.variables, t),
        function_preamble(name, t, v.simple, v.block, v.meta, v.fallback),
        rewritten_body(body, crate::interpreter::execution::rewritable_siblings(name, t, v.simple, v.block, v.meta, v.fallback)),
        !is_polyglot(t),
    )
}

/// A shell script run in the current output mode.
pub open spec fn shell_plan(v: InterpreterView, t: TranspilerInterpreter, script: Seq<char>, display: Seq<char>) -> StepView {
    if v.mode == OutputMode::Stream {
        StepView::Shell { interpreter: t, script }
    } else {
        StepView::Capture {
            interpreter: t,
            script,
            args: Seq::empty(),
            display: Some(display),
            echo: v.mode == OutputMode::Capture,
        }
    }
}

/// A polyglot script run in the current output mode, with the arguments after it.
pub open spec fn polyglot_plan(v: InterpreterView, t: TranspilerInterpreter, script: Seq<char>, args: Seq<Seq<char>>) -> StepView {
    if v.mode == OutputMode::Stream {
        StepView::Polyglot { interpreter: t, script, args }
    } else {
        StepView::Capture { interpreter: t, script, args, display: None, echo: v.mode == OutputMode::Capture }
    }
}

/// The run of simple function `name`: the composed script with arguments substituted;
/// the template with arguments substituted is what reports show.
pub open spec fn simple_step(v: InterpreterView, name: Seq<char>, template: Seq<char>, args: Seq<Seq<char>>) -> StepView {
    let t = simple_interp(v.meta, name, v.fallback);
    let ps = meta_params(v.meta, name);
    shell_plan(
        v,
        t,
        substituted_with_params(composed_script(v, name, template, t), args, ps, v.variables),
        substituted_with_params(template, args, ps, v.variables),
    )
}

/// The run of block function `name`. For Python, Node and Ruby the lines (without the
/// shebang line when there is a shebang), after the parameter declarations, are run with
/// the arguments after the script; shells get a composed script as simple functions do.
pub open spec fn block_step(v: InterpreterView, name: Seq<char>, commands: Seq<Seq<char>>, args: Seq<Seq<char>>) -> StepView {
    let t = block_interp(v.meta, name, v.fallback);
    let ps = meta_params(v.meta, name);
    let body = join(commands, "\n"@);
    if is_polyglot(t) {
        let s1 = if meta_shebang(v.meta, name) is Some { without_shebang(body) } else { body };
        let pre = polyglot_arg_preamble(ps, t);
        let s2 = if pre.len() == 0 { s1 } else { pre + "\n"@ + s1 };
        polyglot_plan(v, t, substituted_with_params(s2, args, ps, v.variables), args)
    } else {
        shell_plan(
            v,
            t,
            substituted_with_params(composed_script(v, name, body, t), args, ps, v.variables),
            substituted_with_params(body, args, ps, v.variables),
        )
    }
}

/// `name` is a defined simple or block function.
pub open spec fn defined(v: InterpreterView, name: Seq<char>) -> bool {
    lookup(v.simple, name) is Some || lookup(v.block, name) is Some
}

/// The run of a defined function (simple functions take precedence).
pub open spec fn function_step(v: InterpreterView, name: Seq<char>, args: Seq<Seq<char>>) -> StepView {
    match lookup(v.simple, name) {
        Some(tpl) => simple_step(v, name, tpl@, args),
        None => match lookup(v.block, name) {
            Some(cmds) => block_step(v, name, string_views(cmds@), args),
            None => StepView::Command { command: Seq::empty() },
        },
    }
}

/// The interpreter of a defined function.
pub open spec fn function_interpreter(v: InterpreterView, name: Seq<char>) -> TranspilerInterpreter {
    if lookup(v.simple, name) is Some {
        simple_interp(v.meta, name, v.fallback)
    } else {
        block_interp(v.meta, name, v.fallback)
    }
}

/// The state after planning a run of `name`: its interpreter becomes the last one used.
pub open spec fn after_call(v: InterpreterView, name: Seq<char>) -> InterpreterView {
    InterpreterView { last: interpreter_label(function_interpreter(v, name)), ..v }
}

/// The error for a call of an unknown function.
pub open spec fn not_found(name: Seq<char>) -> Seq<char> {
    "Function '"@ + name + "' not found"@
}

/// The function a parenthesised call reaches: the name itself, if defined.
pub open spec fn direct_call(v: InterpreterView, name: Seq<char>, args: Seq<Seq<char>>) -> Option<(Seq<char>, Seq<Seq<char>>)> {
    if defined(v, name) { Some((name, args)) } else { None }
}

/// The function a call without parentheses reaches, and its arguments: the name itself;
/// else `name:first-arg` with the other arguments; else the name with `__` read as `:`;
/// else the name with `_` read as `:`.
pub open spec fn resolve_call(v: InterpreterView, name: Seq<char>, args: Seq<Seq<char>>) -> Option<(Seq<char>, Seq<Seq<char>>)> {
    let nested = name + ":"@ + args[0];
    let dunder = replace_all(name, "__"@, ":"@);
    let under = replace_all(name, "_"@, ":"@);
    if defined(v, name) {
        Some((name, args))
    } else if args.len() > 0 && defined(v, nested) {
        Some((nested, args.drop_first()))
    } else if contains(name, "__"@) && defined(v, dunder) {
        Some((dunder, args))
    } else if under != name && defined(v, under) {
        Some((under, args))
    } else {
        None
    }
}

/// The state and the result of a call that reaches `resolved`.
pub open spec fn call_outcome(
    v: InterpreterView,
    resolved: Option<(Seq<char>, Seq<Seq<char>>)>,
    name: Seq<char>,
) -> (InterpreterView, Result<StepView, Seq<char>>) {
    match resolved {
        Some((t, a)) => (after_call(v, t), Ok(function_step(v, t, a))),
        None => (v, Err(not_found(name))),
    }
}

/// The view of a call's result.
pub open spec fn result_view(r: Result<ExecStep, String>) -> Result<StepView, Seq<char>> {
    match r {
        Ok(s) => Ok(s@),
        Err(e) => Err(e@),
    }
}

/// The effect of one statement: an assignment stores a variable; a definition stores the
/// function (when its `@os` attributes admit the platform); a call plans the function's
/// run; a command plans a run of the command with variables substituted.
pub open spec fn statement_outcome(v: InterpreterView, st: Statement) -> (InterpreterView, Result<Option<StepView>, Seq<char>>) {
    match st {
        Statement::Assignment { name, value } => match value {
            Expression::String(val) => (InterpreterView { variables: store(v.variables, name, val), ..v }, Ok(None)),
        },
        Statement::SimpleFunctionDef { name, params, command_template, attributes } => if available_on(
            attributes@,
            v.platform,
        ) {
            (
                InterpreterView {
                    simple: store(v.simple, name, command_template),
                    meta: store(v.meta, name, FunctionMetadata { attributes, shebang: None, params }),
                    ..v
                },
                Ok(None),
            )
        } else {
            (v, Ok(None))
        },
        Statement::BlockFunctionDef { name, params, commands, attributes, shebang } => if available_on(
            attributes@,
            v.platform,
        ) {
            (
                InterpreterView {
                    block: store(v.block, name, commands),
                    meta: store(v.meta, name, FunctionMetadata { attributes, shebang, params }),
                    ..v
                },
                Ok(None),
            )
        } else {
            (v, Ok(None))
        },
        Statement::FunctionCall { name, args } => {
            let (nv, r) = call_outcome(v, direct_call(v, name@, string_views(args@)), name@);
            (
                nv,
                match r {
                    Ok(s) => Ok(Some(s)),
                    Err(e) => Err(e),
                },
            )
        },
        Statement::Command { command } => (
            v,
            Ok(Some(StepView::Command { command: substituted(command@, Seq::empty(), v.variables) })),
        ),
    }
}

/// The statements processed in order until one fails: the final state, the planned
/// steps, and the error.
pub open spec fn run_statements(v: InterpreterView, sts: Seq<Statement>) -> (InterpreterView, Seq<StepView>, Option<Seq<char>>)
    decreases sts.len(),
{
    if sts.len() == 0 {
        (v, Seq::empty(), None)
    } else {
        let (v1, r) = statement_outcome(v, sts[0]);
        match r {
            Err(e) => (v1, Seq::empty(), Some(e)),
            Ok(o) => {
                let (v2, steps, err) = run_statements(v1, sts.drop_first());
                (
                    v2,
                    match o {
                        Some(s) => seq![s] + steps,
                        None => steps,
                    },
                    err,
                )
            },
        }
    }
}

/// The error recorded for a captured run that exited with a non-zero code.
pub open spec fn exit_error(code: i32) -> Seq<char> {
    "Command failed with exit code: "@ + signed_decimal(code as int)
}

fn interpreter_name(t: TranspilerInterpreter) -> (r: String)
    ensures
        r@ == interpreter_label(t),
{
    match t {
        TranspilerInterpreter::Sh => "sh".to_string(),
        TranspilerInterpreter::Bash => "bash".to_string(),
        TranspilerInterpreter::Pwsh => "pwsh".to_string(),
        TranspilerInterpreter::Python => "python".to_string(),
        TranspilerInterpreter::Python3 => "python3".to_string(),
        TranspilerInterpreter::Node => "node".to_string(),
        TranspilerInterpreter::Ruby => "ruby".to_string(),
    }
}

fn polyglot_exec(t: TranspilerInterpreter) -> (b: bool)
    ensures
        b == is_polyglot(t),
{
    match t {
        TranspilerInterpreter::Python | TranspilerInterpreter::Python3 | TranspilerInterpreter::Node
        | TranspilerInterpreter::Ruby => true,
        _ => false,
    }
}

/// Borrowed views of strings.
fn as_strs<'a>(v: &'a Vec<String>) -> (r: Vec<&'a str>)
    ensures
        r@.map_values(|x: &str| x@) == string_views(v@),
{
    let mut r: Vec<&str> = Vec::new();
    let mut i: usize = 0;
    while i < v.len()
        invariant
            i <= v@.len(),
            r@.map_values(|x: &str| x@) == string_views(v@).take(i as int),
        decreases v@.len() - i,
    {
        let ghost before = r@.map_values(|x: &str| x@);
        r.push(v[i].as_str());
        assert(r@.map_values(|x: &str| x@) =~= before.push(v@[i as int]@));
        assert(string_views(v@).take(i + 1) =~= string_views(v@).take(i as int).push(v@[i as int]@));
        i = i + 1;
    }
    assert(string_views(v@).take(i as int) =~= string_views(v@));
    r
}

/// Copies of strings.
pub(crate) fn copy_strings(v: &[String]) -> (r: Vec<String>)
    ensures
        string_views(r@) == string_views(v@),
{
    let mut r: Vec<String> = Vec::new();
    let mut i: usize = 0;
    while i < v.len()
        invariant
            i <= v@.len(),
            string_views(r@) == string_views(v@).take(i as int),
        decreases v@.len() - i,
    {
        let ghost before = string_views(r@);
        r.push(v[i].clone());
        assert(string_views(r@) =~= before.push(v@[i as int]@));
        assert(string_views(v@).take(i + 1) =~= string_views(v@).take(i as int).push(v@[i as int]@));
        i = i + 1;
    }
    assert(string_views(v@).take(i as int) =~= string_views(v@));
    r
}

impl Interpreter {
    /// An interpreter for the given host platform, with no variables or functions,
    /// streaming output; functions without an interpreter of their own run under the
    /// platform default, chosen by whether `bash` is on the search path (`bash_on_path`).
    pub fn for_host(platform: HostPlatform, bash_on_path: bool) -> (r: Self)
        ensures
            well_formed(r@),
            r@.variables.len() == 0 && r@.simple.len() == 0 && r@.block.len() == 0 && r@.meta.len() == 0,
            r@.mode == OutputMode::Stream,
            r@.captured.len() == 0,
            r@.last == "sh"@,
            r@.platform == platform,
            r@.fallback == default_choice(platform, bash_on_path),
    {
        Interpreter {
            variables: Table::new(),
            simple_functions: Table::new(),
            block_functions: Table::new(),
            function_metadata: Table::new(),
            output_mode: OutputMode::Stream,
            captured_outputs: Vec::new(),
            last_interpreter_name: "sh".to_string(),
            platform,
            default_interpreter: TranspilerInterpreter::default_interpreter(platform, bash_on_path),
        }
    }

    /// An interpreter for the given host platform (see `for_host`); whether `bash` is on
    /// the search path is asked of the machine, except on Windows.
    pub fn with_platform(platform: HostPlatform) -> (r: Self)
        ensures
            well_formed(r@),
            r@.variables.len() == 0 && r@.simple.len() == 0 && r@.block.len() == 0 && r@.meta.len() == 0,
            r@.mode == OutputMode::Stream,
            r@.captured.len() == 0,
            r@.last == "sh"@,
            r@.platform == platform,
            exists|found: bool| r@.fallback == default_choice(platform, found),
            platform == HostPlatform::Windows ==> r@.fallback == TranspilerInterpreter::Pwsh,
            platform != HostPlatform::Windows ==> (r@.fallback == TranspilerInterpreter::Bash || r@.fallback
                == TranspilerInterpreter::Sh),
    {
        let found = platform != HostPlatform::Windows && crate::utils::program_on_path("bash");
        Self::for_host(platform, found)
    }

    /// An interpreter for a Linux host (see `with_platform`).
    pub fn new() -> (r: Self)
        ensures
            well_formed(r@),
            r@.variables.len() == 0 && r@.simple.len() == 0 && r@.block.len() == 0 && r@.meta.len() == 0,
            r@.mode == OutputMode::Stream,
            r@.captured.len() == 0,
            r@.last == "sh"@,
            r@.platform == HostPlatform::Linux,
            exists|found: bool| r@.fallback == default_choice(HostPlatform::Linux, found),
            r@.fallback == TranspilerInterpreter::Bash || r@.fallback == TranspilerInterpreter::Sh,
    {
        Self::with_platform(HostPlatform::Linux)
    }

    /// Sets the output mode.
    pub fn set_output_mode(&mut self, mode: OutputMode)
        ensures
            final(self)@ == (InterpreterView { mode, ..old(self)@ }),
    {
        self.output_mode = mode;
    }

    /// The output mode.
    pub fn output_mode(&self) -> (m: OutputMode)
        ensures
            m == self@.mode,
    {
        self.output_mode
    }

    /// Hands out the recorded outputs and empties the record.
    pub fn take_captured_outputs(&mut self) -> (r: Vec<CommandOutput>)
        ensures
            r@ == old(self)@.captured,
            final(self)@ == (InterpreterView { captured: Seq::empty(), ..old(self)@ }),
    {
        let mut out: Vec<CommandOutput> = Vec::new();
        core::mem::swap(&mut out, &mut self.captured_outputs);
        out
    }

    /// The name of the interpreter used last.
    pub fn last_interpreter(&self) -> (r: &str)
        ensures
            r@ == self@.last,
    {
        self.last_interpreter_name.as_str()
    }

    /// Appends an output to the record.
    pub fn add_captured_output(&mut self, output: CommandOutput)
        ensures
            final(self)@ == (InterpreterView { captured: old(self)@.captured.push(output), ..old(self)@ }),
    {
        self.captured_outputs.push(output);
    }

    /// Records the output of a captured run; a non-zero exit code is an error (the output
    /// is recorded either way).
    pub fn record_output(&mut self, output: CommandOutput) -> (r: Result<(), String>)
        ensures
            final(self)@ == (InterpreterView { captured: old(self)@.captured.push(output), ..old(self)@ }),
            match output.exit_code {
                Some(c) => if c != 0 {
                    r matches Err(e) && e@ == exit_error(c)
                } else {
                    r is Ok
                },
                None => r is Ok,
            },
    {
        let code = output.exit_code;
        self.captured_outputs.push(output);
        match code {
            Some(c) => {
                if c != 0 {
                    let mut m = to_chars("Command failed with exit code: ");
                    let d = crate::text::i32_to_chars(c);
                    push_all(&mut m, d.as_slice());
                    Err(from_chars(m.as_slice()))
                } else {
                    Ok(())
                }
            },
            None => Ok(()),
        }
    }

    /// The attributes recorded for a function (none when nothing is recorded).
    pub fn get_simple_function_attributes(&self, name: &str) -> (r: &[Attribute])
        ensures
            r@ == meta_attrs(self@.meta, name@),
    {
        let n = to_chars(name);
        attributes_of(&self.function_metadata, n.as_slice())
    }

    /// The attributes and shebang recorded for a function.
    pub fn get_block_function_metadata(&self, name: &str) -> (r: (&[Attribute], Option<&str>))
        ensures
            r.0@ == meta_attrs(self@.meta, name@),
            match r.1 {
                Some(s) => meta_shebang(self@.meta, name@) == Some(s@),
                None => meta_shebang(self@.meta, name@) is None,
            },
    {
        let n = to_chars(name);
        (attributes_of(&self.function_metadata, n.as_slice()), shebang_of(&self.function_metadata, n.as_slice()))
    }

    /// The simple functions.
    pub fn get_simple_functions(&self) -> (r: &Table<String>)
        ensures
            r.entries@ == self@.simple,
    {
        &self.simple_functions
    }

    /// The block functions.
    pub fn get_block_functions(&self) -> (r: &Table<Vec<String>>)
        ensures
            r.entries@ == self@.block,
    {
        &self.block_functions
    }

    /// The variables.
    pub fn get_variables(&self) -> (r: &Table<String>)
        ensures
            r.entries@ == self@.variables,
    {
        &self.variables
    }

    /// The interpreter of a function (see `resolved_interpreter`).
    pub fn resolve_function_interpreter(
        attributes: &[Attribute],
        shebang: Option<&str>,
        fallback: TranspilerInterpreter,
    ) -> (r: TranspilerInterpreter)
        ensures
            r == resolved_interpreter(
                attributes@,
                match shebang {
                    Some(s) => Some(s@),
                    None => None,
                },
                fallback,
            ),
    {
        resolve_function_interpreter(attributes, shebang, fallback)
    }

    /// Positional arguments and variables substituted into a template (see `substituted`).
    pub fn substitute_args(&self, template: &str, args: &[String]) -> (r: String)
        ensures
            r@ == substituted(template@, string_views(args@), self@.variables),
    {
        substitute(template, args, &self.variables)
    }

    /// Arguments substituted by declared parameters (see `substituted_with_params`).
    pub fn substitute_args_with_params(&self, template: &str, args: &[String], params: &[Parameter]) -> (r: String)
        ensures
            r@ == substituted_with_params(template@, string_views(args@), params@, self@.variables),
    {
        substitute_with_params(template, args, params, &self.variables)
    }

    fn plan_shell(&mut self, t: TranspilerInterpreter, script: String, display: String) -> (r: ExecStep)
        ensures
            r@ == shell_plan(old(self)@, t, script@, display@),
            final(self)@ == (InterpreterView { last: interpreter_label(t), ..old(self)@ }),
    {
        self.last_interpreter_name = interpreter_name(t);
        let none: Vec<String> = Vec::new();
        assert(string_views(none@) =~= Seq::<Seq<char>>::empty());
        match self.output_mode {
            OutputMode::Stream => ExecStep::Shell { interpreter: t, script },
            OutputMode::Capture => ExecStep::Capture {
                interpreter: t,
                script,
                args: none,
                display: Some(display),
                echo: true,
            },
            OutputMode::Structured => ExecStep::Capture {
                interpreter: t,
                script,
                args: none,
                display: Some(display),
                echo: false,
            },
        }
    }

    fn plan_polyglot(&mut self, t: TranspilerInterpreter, script: String, args: &[String]) -> (r: ExecStep)
        ensures
            r@ == polyglot_plan(old(self)@, t, script@, string_views(args@)),
            final(self)@ == (InterpreterView { last: interpreter_label(t), ..old(self)@ }),
    {
        self.last_interpreter_name = interpreter_name(t);
        let a = copy_strings(args);
        match self.output_mode {
            OutputMode::Stream => ExecStep::Polyglot { interpreter: t, script, args: a },
            OutputMode::Capture => ExecStep::Capture { interpreter: t, script, args: a, display: None, echo: true },
            OutputMode::Structured => ExecStep::Capture {
                interpreter: t,
                script,
                args: a,
                display: None,
                echo: false,
            },
        }
    }

    fn composed(&self, name: &str, body: &str, t: TranspilerInterpreter) -> (r: String)
        ensures
            r@ == composed_script(self@, name@, body@, t),
    {
        let rewritable = crate::interpreter::execution::collect_rewritable_siblings(
            name,
            &t,
            &self.simple_functions,
            &self.block_functions,
            &self.function_metadata,
            self.default_interpreter,
        );
        let refs = as_strs(&rewritable);
        let rewritten = rewrite_call_sites(body, refs.as_slice());
        let var_pre = build_variable_preamble(&self.variables, &t);
        let func_pre = build_function_preamble(
            name,
            &t,
            &self.simple_functions,
            &self.block_functions,
            &self.function_metadata,
            self.default_interpreter,
        );
        crate::interpreter::execution::build_combined_script(var_pre, func_pre, rewritten, !polyglot_exec(t))
    }

    fn plan_simple(&mut self, name: &str, template: &str, args: &[String]) -> (r: ExecStep)
        ensures
            r@ == simple_step(old(self)@, name@, template@, string_views(args@)),
            final(self)@ == (InterpreterView { last: interpreter_label(simple_interp(old(self)@.meta, name@, old(self)@.fallback)), ..old(self)@ }),
    {
        let nc = to_chars(name);
        let attrs = attributes_of(&self.function_metadata, nc.as_slice());
        let t = resolve_function_interpreter(attrs, None, self.default_interpreter);
        let combined = self.composed(name, template, t);
        let params = params_of(&self.function_metadata, nc.as_slice());
        let script = substitute_with_params(combined.as_str(), args, params, &self.variables);
        let display = substitute_with_params(template, args, params, &self.variables);
        self.plan_shell(t, script, display)
    }

    fn plan_block(&mut self, name: &str, commands: &[String], args: &[String]) -> (r: ExecStep)
        ensures
            r@ == block_step(old(self)@, name@, string_views(commands@), string_views(args@)),
            final(self)@ == (InterpreterView { last: interpreter_label(block_interp(old(self)@.meta, name@, old(self)@.fallback)), ..old(self)@ }),
    {
        let nc = to_chars(name);
        let attrs = attributes_of(&self.function_metadata, nc.as_slice());
        let shebang = shebang_of(&self.function_metadata, nc.as_slice());
        let t = resolve_function_interpreter(attrs, shebang, self.default_interpreter);
        let has_shebang = shebang.is_some();
        let full = crate::text::join_strings(commands, "\n");
        if polyglot_exec(t) {
            let script = if has_shebang { strip_shebang(full.as_str()) } else { full };
            let params = params_of(&self.function_metadata, nc.as_slice());
            let pre = build_polyglot_arg_preamble(params, &t);
            let pc = to_chars(pre.as_str());
            let script = if pc.len() == 0 {
                script
            } else {
                let mut s = pc;
                push_str(&mut s, "\n");
                push_str(&mut s, script.as_str());
                from_chars(s.as_slice())
            };
            let substituted = substitute_with_params(script.as_str(), args, params, &self.variables);
            self.plan_polyglot(t, substituted, args)
        } else {
            let combined = self.composed(name, full.as_str(), t);
            let params = params_of(&self.function_metadata, nc.as_slice());
            let script = substitute_with_params(combined.as_str(), args, params, &self.variables);
            let display = substitute_with_params(full.as_str(), args, params, &self.variables);
            self.plan_shell(t, script, display)
        }
    }

    /// Plans the run of a defined function.
    fn plan_function(&mut self, name: &str, args: &[String]) -> (r: ExecStep)
        requires
            defined(old(self)@, name@),
        ensures
            r@ == function_step(old(self)@, name@, string_views(args@)),
            final(self)@ == after_call(old(self)@, name@),
    {
        let nc = to_chars(name);
        match self.simple_functions.get(nc.as_slice()) {
            Some(tpl) => {
                let template = tpl.clone();
                self.plan_simple(name, template.as_str(), args)
            },
            None => {
                let cmds = match self.block_functions.get(nc.as_slice()) {
                    Some(c) => copy_strings(c.as_slice()),
                    None => Vec::new(),
                };
                self.plan_block(name, cmds.as_slice(), args)
            },
        }
    }

    fn is_defined(&self, name: &[char]) -> (b: bool)
        ensures
            b == defined(self@, name@),
    {
        self.simple_functions.get(name).is_some() || self.block_functions.get(name).is_some()
    }

    /// Plans a call written with parentheses: the function must be defined under exactly
    /// this name.
    pub fn call_function_with_args(&mut self, function_name: &str, args: &[String]) -> (r: Result<ExecStep, String>)
        ensures
            (final(self)@, result_view(r)) == call_outcome(
                old(self)@,
                direct_call(old(self)@, function_name@, string_views(args@)),
                function_name@,
            ),
    {
        let nc = to_chars(function_name);
        if self.is_defined(nc.as_slice()) {
            Ok(self.plan_function(function_name, args))
        } else {
            let mut m = to_chars("Function '");
            push_str(&mut m, function_name);
            push_str(&mut m, "' not found");
            Err(from_chars(m.as_slice()))
        }
    }

    /// Plans a call written without parentheses. The function is looked up under its own
    /// name; then, when there are arguments, as `name:first-arg` with the remaining
    /// arguments; then with `__` read as `:`; then with `_` read as `:`.
    pub fn call_function_without_parens(&mut self, function_name: &str, args: &[String]) -> (r: Result<ExecStep, String>)
        ensures
            (final(self)@, result_view(r)) == call_outcome(
                old(self)@,
                resolve_call(old(self)@, function_name@, string_views(args@)),
                function_name@,
            ),
    {
        let ghost av = string_views(args@);
        let nc = to_chars(function_name);
        if self.is_defined(nc.as_slice()) {
            return Ok(self.plan_function(function_name, args));
        }
        if args.len() > 0 {
            let mut nested = to_chars(function_name);
            push_str(&mut nested, ":");
            push_str(&mut nested, args[0].as_str());
            assert(nested@ == function_name@ + ":"@ + av[0]);
            if self.is_defined(nested.as_slice()) {
                let name = from_chars(nested.as_slice());
                let rest = crate::interpreter::substitution::tail_from(args, 1);
                assert(av.skip(1) =~= av.drop_first());
                return Ok(self.plan_function(name.as_str(), rest.as_slice()));
            }
        }
        if contains_exec(nc.as_slice(), to_chars("__").as_slice()) {
            let w = replace_chars(nc.as_slice(), to_chars("__").as_slice(), to_chars(":").as_slice());
            if self.is_defined(w.as_slice()) {
                let name = from_chars(w.as_slice());
                return Ok(self.plan_function(name.as_str(), args));
            }
        }
        let u = replace_chars(nc.as_slice(), to_chars("_").as_slice(), to_chars(":").as_slice());
        if !crate::text::chars_eq(u.as_slice(), nc.as_slice()) && self.is_defined(u.as_slice()) {
            let name = from_chars(u.as_slice());
            return Ok(self.plan_function(name.as_str(), args));
        }
        let mut m = to_chars("Function '");
        push_str(&mut m, function_name);
        push_str(&mut m, "' not found");
        Err(from_chars(m.as_slice()))
    }

    /// Processes one statement (see `statement_outcome`).
    pub fn execute_statement(&mut self, statement: Statement) -> (r: Result<Option<ExecStep>, String>)
        requires
            well_formed(old(self)@),
        ensures
            well_formed(final(self)@),
            (final(self)@, statement_result_view(r)) == statement_outcome(old(self)@, statement),
    {
        match statement {
            Statement::Assignment { name, value } => {
                match value {
                    Expression::String(val) => {
                        self.variables.insert(name, val);
                    },
                }
                Ok(None)
            },
            Statement::SimpleFunctionDef { name, params, command_template, attributes } => {
                if matches_current_platform(attributes.as_slice(), self.platform) {
                    self.simple_functions.insert(name.clone(), command_template);
                    self.function_metadata.insert(name, FunctionMetadata { attributes, shebang: None, params });
                }
                Ok(None)
            },
            Statement::BlockFunctionDef { name, params, commands, attributes, shebang } => {
                if matches_current_platform(attributes.as_slice(), self.platform) {
                    self.block_functions.insert(name.clone(), commands);
                    self.function_metadata.insert(name, FunctionMetadata { attributes, shebang, params });
                }
                Ok(None)
            },
            Statement::FunctionCall { name, args } => {
                match self.call_function_with_args(name.as_str(), args.as_slice()) {
                    Ok(s) => Ok(Some(s)),
                    Err(e) => Err(e),
                }
            },
            Statement::Command { command } => {
                let none: Vec<String> = Vec::new();
                assert(string_views(none@) =~= Seq::<Seq<char>>::empty());
                let c = substitute(command.as_str(), none.as_slice(), &self.variables);
                Ok(Some(ExecStep::Command { command: c }))
            },
        }
    }

    /// Processes a program's statements in order, stopping at the first that fails (see
    /// `run_statements`): definitions and assignments update the state, calls and
    /// commands add steps, which the caller carries out in order.
    pub fn execute(&mut self, program: Program) -> (r: ExecutionPlan)
        requires
            well_formed(old(self)@),
        ensures
            well_formed(final(self)@),
            (final(self)@, step_views(r.steps@), match r.error {
                Some(e) => Some(e@),
                None => None,
            }) == run_statements(old(self)@, program.statements@),
    {
        let ghost v0 = self@;
        let ghost all = program.statements@;
        let mut stmts = program.statements;
        let mut steps: Vec<ExecStep> = Vec::new();
        while stmts.len() > 0
            invariant
                well_formed(self@),
                v0 == old(self)@,
                all == program.statements@,
                run_statements(v0, all) == (
                    run_statements(self@, stmts@).0,
                    step_views(steps@) + run_statements(self@, stmts@).1,
                    run_statements(self@, stmts@).2,
                ),
            decreases stmts@.len(),
        {
            let ghost before = self@;
            let ghost rest = stmts@;
            let ghost old_steps = step_views(steps@);
            let st = stmts.remove(0);
            assert(stmts@ =~= rest.drop_first());
            assert(st == rest[0]);
            let r = self.execute_statement(st);
            match r {
                Ok(Some(s)) => {
                    steps.push(s);
                    assert(step_views(steps@) =~= old_steps.push(s@));
                    assert(old_steps.push(s@) + run_statements(self@, stmts@).1 =~= old_steps + (seq![s@] + run_statements(self@, stmts@).1));
                },
                Ok(None) => {},
                Err(e) => {
                    assert(run_statements(before, rest) == (self@, Seq::<StepView>::empty(), Some(e@)));
                    assert(step_views(steps@) + Seq::<StepView>::empty() =~= step_views(steps@));
                    return ExecutionPlan { steps, error: Some(e) };
                },
            }
        }
        assert(step_views(steps@) + Seq::<StepView>::empty() =~= step_views(steps@));
        ExecutionPlan { steps, error: None }
    }

    /// The names of all defined functions, sorted, each once.
    pub fn list_available_functions(&self) -> (r: Vec<String>)
        ensures
            strictly_sorted(string_views(r@)),
            string_views(r@).to_set() == keys_of(self@.simple).to_set().union(keys_of(self@.block).to_set()),
    {
        let mut out: Vec<String> = Vec::new();
        let ghost ks = keys_of(self@.simple);
        let ghost kb = keys_of(self@.block);
        let mut i: usize = 0;
        assert(string_views(out@).to_set() =~= ks.take(0).to_set());
        while i < self.simple_functions.entries.len()
            invariant
                i <= ks.len(),
                ks == keys_of(self@.simple),
                strictly_sorted(string_views(out@)),
                string_views(out@).to_set() == ks.take(i as int).to_set(),
            decreases ks.len() - i,
        {
            insert_sorted(&mut out, self.simple_functions.entries[i].0.clone());
            assert(ks.take(i + 1) =~= ks.take(i as int).push(ks[i as int]));
            proof { ks.take(i as int).lemma_push_to_set_commute(ks[i as int]); }
            i = i + 1;
        }
        assert(ks.take(i as int) =~= ks);
        let mut j: usize = 0;
        assert(kb.take(0).to_set() =~= Set::<Seq<char>>::empty());
        while j < self.block_functions.entries.len()
            invariant
                j <= kb.len(),
                kb == keys_of(self@.block),
                strictly_sorted(string_views(out@)),
                string_views(out@).to_set() == ks.to_set().union(kb.take(j as int).to_set()),
            decreases kb.len() - j,
        {
            insert_sorted(&mut out, self.block_functions.entries[j].0.clone());
            assert(kb.take(j + 1) =~= kb.take(j as int).push(kb[j as int]));
            proof { kb.take(j as int).lemma_push_to_set_commute(kb[j as int]); }
            assert(ks.to_set().union(kb.take(j as int).to_set()).insert(kb[j as int]) =~= ks.to_set().union(kb.take(j + 1).to_set()));
            j = j + 1;
        }
        assert(kb.take(j as int) =~= kb);
        out
    }
}

/// The view of a statement's result.
pub open spec fn statement_result_view(r: Result<Option<ExecStep>, String>) -> Result<Option<StepView>, Seq<char>> {
    match r {
        Ok(Some(s)) => Ok(Some(s@)),
        Ok(None) => Ok(None),
        Err(e) => Err(e@),
    }
}

/// A sub-command word is consumed: when `name` is not a function but `name:a0` is, the
/// call `name a0 a1 ...` does exactly what the call `name:a0 a1 ...` does; the nested
/// function gets the remaining arguments `[a1, ...]` and never the word `a0`.
pub proof fn lemma_subcommand_consumed(v: InterpreterView, name: Seq<char>, args: Seq<Seq<char>>)
    requires
        args.len() > 0,
        !defined(v, name),
        defined(v, name + ":"@ + args[0]),
    ensures
        call_outcome(v, resolve_call(v, name, args), name) == call_outcome(
            v,
            resolve_call(v, name + ":"@ + args[0], args.drop_first()),
            name + ":"@ + args[0],
        ),
        resolve_call(v, name, args) == Some((name + ":"@ + args[0], args.drop_first())),
        resolve_call(v, name, args)->Some_0.1.len() == args.len() - 1,
        forall|i: int| 0 <= i < args.len() - 1 ==> #[trigger] resolve_call(v, name, args)->Some_0.1[i] == args[i + 1],
{
}

/// Of two definitions of a one-line function of the same name, both available on the
/// platform, the later one is kept (so a project Runfile, read after the global one,
/// overrides it).
#[verifier::rlimit(50)]
pub proof fn lemma_later_definition_wins(v: InterpreterView, first: Statement, second: Statement)
    requires
        first is SimpleFunctionDef,
        second is SimpleFunctionDef,
        first->SimpleFunctionDef_name@ == second->SimpleFunctionDef_name@,
        available_on(first->SimpleFunctionDef_attributes@, v.platform),
        available_on(second->SimpleFunctionDef_attributes@, v.platform),
    ensures
        run_statements(v, seq![first, second]).2 is None,
        lookup(run_statements(v, seq![first, second]).0.simple, second->SimpleFunctionDef_name@) == Some(
            second->SimpleFunctionDef_command_template,
        ),
{
    let sts = seq![first, second];
    let o1 = statement_outcome(v, first);
    assert(o1.1 == Ok::<Option<StepView>, Seq<char>>(None));
    let o2 = statement_outcome(o1.0, second);
    assert(o2.1 == Ok::<Option<StepView>, Seq<char>>(None));
    assert(o2.0.simple == store(o1.0.simple, second->SimpleFunctionDef_name, second->SimpleFunctionDef_command_template));
    assert(sts[0] == first);
    assert(sts.drop_first() =~= seq![second]);
    assert(seq![second][0] == second);
    assert(seq![second].drop_first() =~= Seq::<Statement>::empty());
    assert(run_statements(o2.0, Seq::<Statement>::empty()) == (o2.0, Seq::<StepView>::empty(), None::<Seq<char>>));
    assert(run_statements(o1.0, seq![second]) == (o2.0, Seq::<StepView>::empty(), None::<Seq<char>>));
    assert(run_statements(v, sts) == (o2.0, Seq::<StepView>::empty(), None::<Seq<char>>));
    lemma_lookup_store(
        o1.0.simple,
        second->SimpleFunctionDef_name,
        second->SimpleFunctionDef_command_template,
        second->SimpleFunctionDef_name@,
    );
}

/// A definition for another platform changes nothing.
pub proof fn lemma_unavailable_definition_ignored(v: InterpreterView, def: Statement)
    requires
        def is SimpleFunctionDef,
        !available_on(def->SimpleFunctionDef_attributes@, v.platform),
    ensures
        run_statements(v, seq![def]) == (v, Seq::<StepView>::empty(), None::<Seq<char>>),
{
    assert(statement_outcome(v, def) == (v, Ok::<Option<StepView>, Seq<char>>(None)));
    assert(seq![def][0] == def);
    assert(seq![def].drop_first() =~= Seq::<Statement>::empty());
    assert(run_statements(v, Seq::<Statement>::empty()) == (v, Seq::<StepView>::empty(), None::<Seq<char>>));
}

} // verus!
