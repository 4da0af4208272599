//! Abstract syntax of Runfiles and the records of command execution.
use vstd::prelude::*;
use crate::text::{decimal, from_chars, i32_to_chars, push_all, push_str, signed_decimal, to_chars, u128_to_chars};

verus! {

/// A parsed Runfile: its statements in source order.
#[derive(Debug, Clone, PartialEq)]
pub struct Program {
    pub statements: Vec<Statement>,
}

/// How command output is handled while a function runs.
#[derive(Debug, Clone, Copy, PartialEq, Eq, Structural)]
pub enum OutputMode {
    /// Stream directly to the terminal.
    Stream,
    /// Capture output and also print it.
    Capture,
    /// Capture output silently for a structured report.
    Structured,
}

impl Default for OutputMode {
    fn default() -> (m: Self)
        ensures
            m == OutputMode::Stream,
    {
        OutputMode::Stream
    }
}

/// The result of one command execution.
#[derive(Debug, Clone)]
pub struct CommandOutput {
    /// The command that was executed (as shown to the user).
    pub command: String,
    /// Captured standard output.
    pub stdout: String,
    /// Captured standard error.
    pub stderr: String,
    /// Process exit code (`None` if killed by a signal).
    pub exit_code: Option<i32>,
    /// Execution duration in milliseconds.
    pub duration_ms: u128,
    /// Start time (Unix epoch, milliseconds).
    pub started_at: u128,
}

/// Where and how a function ran.
#[derive(Debug, Clone)]
pub struct ExecutionContext {
    /// The Runfile function that was invoked.
    pub function_name: String,
    /// Remote host when an SSH command was detected.
    pub remote_host: Option<String>,
    /// Remote user when an SSH command was detected.
    pub remote_user: Option<String>,
    /// Interpreter used.
    pub interpreter: String,
    /// Working directory.
    pub working_directory: Option<String>,
}

/// The complete structured result of running a function.
#[derive(Debug, Clone)]
pub struct StructuredResult {
    pub context: ExecutionContext,
    /// Command outputs in execution order.
    pub outputs: Vec<CommandOutput>,
    /// All commands exited with code 0.
    pub success: bool,
    /// Sum of the command durations.
    pub total_duration_ms: u128,
    /// Human-readable summary.
    pub summary: String,
}

/// A declared function parameter.
#[derive(Debug, Clone, PartialEq)]
pub struct Parameter {
    pub name: String,
    pub param_type: ArgType,
    pub default_value: Option<String>,
    pub is_rest: bool,
}

/// A Runfile statement.
#[derive(Debug, Clone, PartialEq)]
pub enum Statement {
    Assignment { name: String, value: Expression },
    SimpleFunctionDef {
        name: String,
        params: Vec<Parameter>,
        command_template: String,
        attributes: Vec<Attribute>,
    },
    BlockFunctionDef {
        name: String,
        params: Vec<Parameter>,
        commands: Vec<String>,
        attributes: Vec<Attribute>,
        shebang: Option<String>,
    },
    FunctionCall { name: String, args: Vec<String> },
    Command { command: String },
}

/// A value expression.
#[derive(Debug, Clone, PartialEq)]
pub enum Expression {
    String(String),
}

/// A `# @...` annotation on a function.
#[derive(Debug, Clone, PartialEq)]
pub enum Attribute {
    Os(OsPlatform),
    Shell(ShellType),
    Desc(String),
    Arg(ArgMetadata),
}

/// The content of an `@arg` annotation.
#[derive(Debug, Clone, PartialEq)]
pub struct ArgMetadata {
    /// 1-based position, or 0 when the annotation names a parameter.
    pub position: usize,
    pub name: String,
    pub arg_type: ArgType,
    pub description: String,
}

/// The declared type of an argument.
#[derive(Debug, Clone, Copy, PartialEq, Eq, Structural)]
pub enum ArgType {
    String,
    Integer,
    Float,
    Boolean,
    Object,
}

/// An `@os` platform.
#[derive(Debug, Clone, Copy, PartialEq, Eq, Structural)]
pub enum OsPlatform {
    Windows,
    Linux,
    MacOS,
    /// Linux or macOS.
    Unix,
}

/// An `@shell` interpreter.
#[derive(Debug, Clone, Copy, PartialEq, Eq, Structural)]
pub enum ShellType {
    Python,
    Python3,
    Node,
    Ruby,
    Pwsh,
    Bash,
    Sh,
}

/// `user@host` line part: the user, or `?` when unknown.
pub open spec fn user_or_unknown(u: Option<String>) -> Seq<char> {
    match u {
        Some(s) => s@,
        None => "?"@,
    }
}

/// The header shared by both report formats.
pub open spec fn report_header(r: StructuredResult) -> Seq<char> {
    "## Execution: `"@ + r.context.function_name@ + "`\n\n"@
    + (match r.context.remote_host {
        Some(h) => "**Host:** "@ + user_or_unknown(r.context.remote_user) + "@"@ + h@ + "\n"@,
        None => Seq::empty(),
    })
    + "**Status:** "@ + (if r.success { "\u{2713} Success"@ } else { "\u{2717} Failed"@ }) + "\n"@
    + "**Duration:** "@ + decimal(r.total_duration_ms as nat) + "ms\n\n"@
}

/// A fenced block with a bold title, or nothing when the body is empty.
pub open spec fn fenced(title: Seq<char>, body: Seq<char>) -> Seq<char> {
    if body.len() == 0 {
        Seq::empty()
    } else {
        title + "\n```\n"@ + body + "```\n\n"@
    }
}

/// The exit-code line for a failing code.
pub open spec fn exit_code_line(code: Option<i32>) -> Seq<char> {
    match code {
        Some(c) => if c != 0 { "**Exit Code:** "@ + signed_decimal(c as int) + "\n"@ } else { Seq::empty() },
        None => Seq::empty(),
    }
}

/// One step of the Markdown report (`index` is 1-based).
pub open spec fn markdown_step(index: nat, o: CommandOutput) -> Seq<char> {
    "### Step "@ + decimal(index) + " ("@ + decimal(o.duration_ms as nat) + "ms)\n"@
    + "`"@ + o.command@ + "`\n\n"@
    + fenced("**Output:**"@, o.stdout@)
    + fenced("**Errors:**"@, o.stderr@)
    + exit_code_line(o.exit_code)
}

/// All steps of the Markdown report.
pub open spec fn markdown_steps(outs: Seq<CommandOutput>) -> Seq<char>
    decreases outs.len(),
{
    if outs.len() == 0 {
        Seq::empty()
    } else {
        markdown_steps(outs.drop_last()) + markdown_step(outs.len(), outs.last())
    }
}

/// The Markdown report of a structured result.
pub open spec fn markdown_report(r: StructuredResult) -> Seq<char> {
    report_header(r) + markdown_steps(r.outputs@)
}

/// Standard output of all commands, concatenated.
pub open spec fn all_stdout(outs: Seq<CommandOutput>) -> Seq<char>
    decreases outs.len(),
{
    if outs.len() == 0 { Seq::empty() } else { all_stdout(outs.drop_last()) + outs.last().stdout@ }
}

/// Standard error of all commands, concatenated.
pub open spec fn all_stderr(outs: Seq<CommandOutput>) -> Seq<char>
    decreases outs.len(),
{
    if outs.len() == 0 { Seq::empty() } else { all_stderr(outs.drop_last()) + outs.last().stderr@ }
}

/// Text that ends with a line feed (one is added when missing).
pub open spec fn with_final_newline(s: Seq<char>) -> Seq<char> {
    if s.len() > 0 && s.last() == '\n' { s } else { s + "\n"@ }
}

/// The combined section for the MCP report, or nothing when empty.
pub open spec fn combined_section(title: Seq<char>, body: Seq<char>) -> Seq<char> {
    if body.len() == 0 { Seq::empty() } else { fenced(title, with_final_newline(body)) }
}

/// The MCP report: header, combined output and errors, and the last exit code on failure.
pub open spec fn mcp_report(r: StructuredResult) -> Seq<char> {
    report_header(r)
    + combined_section("**Output:**"@, all_stdout(r.outputs@))
    + combined_section("**Errors:**"@, all_stderr(r.outputs@))
    + (if !r.success && r.outputs@.len() > 0 { exit_code_line(r.outputs@.last().exit_code) } else { Seq::empty() })
}

/// The MCP report of a result: its header; one `**Output:**` block holding the standard
/// output of all commands in order, when there is any; one `**Errors:**` block likewise for
/// standard error; and an `**Exit Code:**` line exactly when the run failed and its last
/// command exited with a code other than 0. No command text is added (see
/// `lemma_mcp_report_ignores_commands`).
pub proof fn lemma_mcp_report_structure(r: StructuredResult)
    ensures
        mcp_report(r) == report_header(r)
            + (if all_stdout(r.outputs@).len() == 0 {
                Seq::empty()
            } else {
                "**Output:**"@ + "\n```\n"@ + with_final_newline(all_stdout(r.outputs@)) + "```\n\n"@
            })
            + (if all_stderr(r.outputs@).len() == 0 {
                Seq::empty()
            } else {
                "**Errors:**"@ + "\n```\n"@ + with_final_newline(all_stderr(r.outputs@)) + "```\n\n"@
            })
            + (if !r.success && r.outputs@.len() > 0 && r.outputs@.last().exit_code is Some && r.outputs@.last().exit_code->Some_0 != 0 {
                "**Exit Code:** "@ + signed_decimal(r.outputs@.last().exit_code->Some_0 as int) + "\n"@
            } else {
                Seq::empty()
            }),
{
    let o = all_stdout(r.outputs@);
    let e = all_stderr(r.outputs@);
    if o.len() > 0 {
        assert(with_final_newline(o).len() > 0);
    }
    if e.len() > 0 {
        assert(with_final_newline(e).len() > 0);
    }
}

/// The outputs agree on what the MCP report shows of them: standard output, standard
/// error and exit code.
pub open spec fn same_streams(a: Seq<CommandOutput>, b: Seq<CommandOutput>) -> bool {
    &&& a.len() == b.len()
    &&& forall|i: int| 0 <= i < a.len() ==> {
        &&& (#[trigger] a[i]).stdout@ == b[i].stdout@
        &&& a[i].stderr@ == b[i].stderr@
        &&& a[i].exit_code == b[i].exit_code
    }
}

proof fn lemma_same_streams_text(a: Seq<CommandOutput>, b: Seq<CommandOutput>)
    requires
        same_streams(a, b),
    ensures
        all_stdout(a) == all_stdout(b),
        all_stderr(a) == all_stderr(b),
    decreases a.len(),
{
    if a.len() > 0 {
        assert(same_streams(a.drop_last(), b.drop_last())) by {
            assert forall|i: int| 0 <= i < a.drop_last().len() implies {
                &&& (#[trigger] a.drop_last()[i]).stdout@ == b.drop_last()[i].stdout@
                &&& a.drop_last()[i].stderr@ == b.drop_last()[i].stderr@
                &&& a.drop_last()[i].exit_code == b.drop_last()[i].exit_code
            } by {
                assert(a.drop_last()[i] == a[i] && b.drop_last()[i] == b[i]);
            }
        }
        lemma_same_streams_text(a.drop_last(), b.drop_last());
        assert(a.last() == a[a.len() - 1] && b.last() == b[b.len() - 1]);
    }
}

/// The MCP report shows no step of its own for a command and no command text: two results
/// that differ only in their commands (and in the timing of each) report alike.
pub proof fn lemma_mcp_report_ignores_commands(r1: StructuredResult, r2: StructuredResult)
    requires
        r1.context == r2.context,
        r1.success == r2.success,
        r1.total_duration_ms == r2.total_duration_ms,
        same_streams(r1.outputs@, r2.outputs@),
    ensures
        mcp_report(r1) == mcp_report(r2),
{
    lemma_same_streams_text(r1.outputs@, r2.outputs@);
    if r1.outputs@.len() > 0 {
        let n = r1.outputs@.len() - 1;
        assert(r1.outputs@[n].exit_code == r2.outputs@[n].exit_code);
    }
    assert(report_header(r1) == report_header(r2));
}

fn push_fenced(md: &mut Vec<char>, title: &str, body: &String)
    ensures
        final(md)@ == old(md)@ + fenced(title@, body@),
{
    let b = to_chars(body.as_str());
    if b.len() > 0 {
        push_str(md, title);
        push_str(md, "\n```\n");
        push_all(md, b.as_slice());
        push_str(md, "```\n\n");
    }
}

fn push_exit_code(md: &mut Vec<char>, code: Option<i32>)
    ensures
        final(md)@ == old(md)@ + exit_code_line(code),
{
    if let Some(c) = code {
        if c != 0 {
            push_str(md, "**Exit Code:** ");
            let d = i32_to_chars(c);
            push_all(md, d.as_slice());
            push_str(md, "\n");
        }
    }
}

impl StructuredResult {
    #[verifier::rlimit(40)]
    fn push_header(&self, md: &mut Vec<char>)
        ensures
            final(md)@ == old(md)@ + report_header(*self),
    {
        let ghost start = md@;
        push_str(md, "## Execution: `");
        push_str(md, self.context.function_name.as_str());
        push_str(md, "`\n\n");
        let ghost after_title = md@;
        if let Some(host) = &self.context.remote_host {
            push_str(md, "**Host:** ");
            match &self.context.remote_user {
                Some(u) => push_str(md, u.as_str()),
                None => push_str(md, "?"),
            }
            push_str(md, "@");
            push_str(md, host.as_str());
            push_str(md, "\n");
        }
        let ghost after_host = md@;
        push_str(md, "**Status:** ");
        if self.success {
            push_str(md, "\u{2713} Success");
        } else {
            push_str(md, "\u{2717} Failed");
        }
        push_str(md, "\n");
        push_str(md, "**Duration:** ");
        let d = u128_to_chars(self.total_duration_ms);
        push_all(md, d.as_slice());
        push_str(md, "ms\n\n");
        assert(md@ =~= start + report_header(*self));
    }

    /// Format as Markdown for human or LLM reading: header, then one section per command.
    pub fn to_markdown(&self) -> (s: String)
        ensures
            s@ == markdown_report(*self),
    {
        let mut md: Vec<char> = Vec::new();
        self.push_header(&mut md);
        let ghost head = md@;
        let mut i: usize = 0;
        while i < self.outputs.len()
            invariant
                i <= self.outputs@.len(),
                md@ == head + markdown_steps(self.outputs@.take(i as int)),
            decreases self.outputs@.len() - i,
        {
            let output = &self.outputs[i];
            assert(self.outputs@.take(i + 1).drop_last() =~= self.outputs@.take(i as int));
            let ghost before = md@;
            push_str(&mut md, "### Step ");
            let n = u128_to_chars(i as u128 + 1);
            push_all(&mut md, n.as_slice());
            push_str(&mut md, " (");
            let d = u128_to_chars(output.duration_ms);
            push_all(&mut md, d.as_slice());
            push_str(&mut md, "ms)\n");
            push_str(&mut md, "`");
            push_str(&mut md, output.command.as_str());
            push_str(&mut md, "`\n\n");
            push_fenced(&mut md, "**Output:**", &output.stdout);
            push_fenced(&mut md, "**Errors:**", &output.stderr);
            push_exit_code(&mut md, output.exit_code);
            assert(md@ =~= before + markdown_step((i + 1) as nat, *output));
            i = i + 1;
        }
        assert(self.outputs@.take(i as int) =~= self.outputs@);
        from_chars(md.as_slice())
    }

    /// Format for an MCP tool response: header, combined output and errors, and the last
    /// exit code on failure; the commands themselves are not shown.
    pub fn to_mcp_format(&self) -> (s: String)
        ensures
            s@ == mcp_report(*self),
    {
        let mut md: Vec<char> = Vec::new();
        self.push_header(&mut md);
        let mut out: Vec<char> = Vec::new();
        let mut err: Vec<char> = Vec::new();
        let mut i: usize = 0;
        while i < self.outputs.len()
            invariant
                i <= self.outputs@.len(),
                out@ == all_stdout(self.outputs@.take(i as int)),
                err@ == all_stderr(self.outputs@.take(i as int)),
            decreases self.outputs@.len() - i,
        {
            assert(self.outputs@.take(i + 1).drop_last() =~= self.outputs@.take(i as int));
            push_str(&mut out, self.outputs[i].stdout.as_str());
            push_str(&mut err, self.outputs[i].stderr.as_str());
            i = i + 1;
        }
        assert(self.outputs@.take(i as int) =~= self.outputs@);
        push_section(&mut md, "**Output:**", out);
        push_section(&mut md, "**Errors:**", err);
        if !self.success && self.outputs.len() > 0 {
            push_exit_code(&mut md, self.outputs[self.outputs.len() - 1].exit_code);
        }
        from_chars(md.as_slice())
    }
}

fn push_section(md: &mut Vec<char>, title: &str, body: Vec<char>)
    ensures
        final(md)@ == old(md)@ + combined_section(title@, body@),
{
    if body.len() > 0 {
        let mut b = body;
        if b[b.len() - 1] != '\n' {
            push_str(&mut b, "\n");
        }
        push_str(md, title);
        push_str(md, "\n```\n");
        push_all(md, b.as_slice());
        push_str(md, "```\n\n");
    }
}

/// The content of an `@arg` annotation.
pub struct ArgMetaView {
    pub position: nat,
    pub name: Seq<char>,
    pub arg_type: ArgType,
    pub description: Seq<char>,
}

/// The content of an attribute.
pub enum AttrView {
    Os(OsPlatform),
    Shell(ShellType),
    Desc(Seq<char>),
    Arg(ArgMetaView),
}

/// The content of a parameter.
pub struct ParamView {
    pub name: Seq<char>,
    pub param_type: ArgType,
    pub default_value: Option<Seq<char>>,
    pub is_rest: bool,
}

/// The content of a statement.
pub enum StatementView {
    Assignment { name: Seq<char>, value: Seq<char> },
    SimpleFunctionDef {
        name: Seq<char>,
        params: Seq<ParamView>,
        command_template: Seq<char>,
        attributes: Seq<AttrView>,
    },
    BlockFunctionDef {
        name: Seq<char>,
        params: Seq<ParamView>,
        commands: Seq<Seq<char>>,
        attributes: Seq<AttrView>,
        shebang: Option<Seq<char>>,
    },
    FunctionCall { name: Seq<char>, args: Seq<Seq<char>> },
    Command { command: Seq<char> },
}

/// The view of an optional string.
pub open spec fn opt_view(o: Option<String>) -> Option<Seq<char>> {
    match o {
        Some(s) => Some(s@),
        None => None,
    }
}

/// The content of an attribute.
pub open spec fn attr_view(a: Attribute) -> AttrView {
    match a {
        Attribute::Os(p) => AttrView::Os(p),
        Attribute::Shell(t) => AttrView::Shell(t),
        Attribute::Desc(d) => AttrView::Desc(d@),
        Attribute::Arg(m) => AttrView::Arg(
            ArgMetaView { position: m.position as nat, name: m.name@, arg_type: m.arg_type, description: m.description@ },
        ),
    }
}

/// The contents of attributes.
pub open spec fn attrs_view(v: Seq<Attribute>) -> Seq<AttrView> {
    v.map_values(|a: Attribute| attr_view(a))
}

/// The content of a parameter.
pub open spec fn param_view(p: Parameter) -> ParamView {
    ParamView { name: p.name@, param_type: p.param_type, default_value: opt_view(p.default_value), is_rest: p.is_rest }
}

/// The contents of parameters.
pub open spec fn params_view(v: Seq<Parameter>) -> Seq<ParamView> {
    v.map_values(|p: Parameter| param_view(p))
}

/// The content of a statement.
pub open spec fn statement_view(s: Statement) -> StatementView {
    match s {
        Statement::Assignment { name, value } => match value {
            Expression::String(v) => StatementView::Assignment { name: name@, value: v@ },
        },
        Statement::SimpleFunctionDef { name, params, command_template, attributes } => StatementView::SimpleFunctionDef {
            name: name@,
            params: params_view(params@),
            command_template: command_template@,
            attributes: attrs_view(attributes@),
        },
        Statement::BlockFunctionDef { name, params, commands, attributes, shebang } => StatementView::BlockFunctionDef {
            name: name@,
            params: params_view(params@),
            commands: crate::text::string_views(commands@),
            attributes: attrs_view(attributes@),
            shebang: opt_view(shebang),
        },
        Statement::FunctionCall { name, args } => StatementView::FunctionCall {
            name: name@,
            args: crate::text::string_views(args@),
        },
        Statement::Command { command } => StatementView::Command { command: command@ },
    }
}

/// The contents of statements.
pub open spec fn statements_view(v: Seq<Statement>) -> Seq<StatementView> {
    v.map_values(|s: Statement| statement_view(s))
}

/// A copy of a parameter.
pub fn copy_parameter(p: &Parameter) -> (r: Parameter)
    ensures
        param_view(r) == param_view(*p),
{
    let default_value = match &p.default_value {
        Some(d) => Some(d.clone()),
        None => None,
    };
    Parameter { name: p.name.clone(), param_type: p.param_type, default_value, is_rest: p.is_rest }
}

/// A copy of a list of parameters.
pub fn copy_parameters(v: &[Parameter]) -> (r: Vec<Parameter>)
    ensures
        params_view(r@) == params_view(v@),
{
    let mut r: Vec<Parameter> = Vec::new();
    let mut i: usize = 0;
    while i < v.len()
        invariant
            i <= v@.len(),
            r@.len() == i,
            forall|k: int| 0 <= k < i ==> param_view(#[trigger] r@[k]) == param_view(v@[k]),
        decreases v@.len() - i,
    {
        let p = copy_parameter(&v[i]);
        r.push(p);
        i = i + 1;
    }
    assert(params_view(r@) =~= params_view(v@));
    r
}

/// Groups 1 and 2 of the leftmost-first match of the regular expression `pattern` in
/// `text`, as the `regex` crate finds them; `None` when the pattern does not compile,
/// nothing matches, or either group takes no part in the match.
pub uninterp spec fn regex_pair(pattern: Seq<char>, text: Seq<char>) -> Option<(Seq<char>, Seq<char>)>;

pub open spec fn pair_view(p: Option<(String, String)>) -> Option<(Seq<char>, Seq<char>)> {
    match p {
        Some((a, b)) => Some((a@, b@)),
        None => None,
    }
}

/// `regex::Regex::new(pattern)`, then `captures(text)` and the text of groups 1 and 2
/// (`Captures::get`, `Match::as_str`). The result is that of `regex_pair`.
#[verifier::external_body]
fn regex_captures_pair(pattern: &str, text: &str) -> (r: Option<(String, String)>)
    ensures
        pair_view(r) == regex_pair(pattern@, text@),
{
    let re = regex::Regex::new(pattern).ok()?;
    let caps = re.captures(text)?;
    Some((caps.get(1)?.as_str().to_string(), caps.get(2)?.as_str().to_string()))
}

/// The pattern of an SSH command: `ssh`, options (each with at most one value), then
/// `user@host`.
pub const SSH_PATTERN: &'static str = "ssh\\s+(?:-\\S+\\s+(?:\\S+\\s+)?)*(\\w+)@([\\w.-]+)";

/// The SSH user and host of the first command that has them.
pub open spec fn first_ssh(outs: Seq<CommandOutput>) -> Option<(Seq<char>, Seq<char>)>
    decreases outs.len(),
{
    if outs.len() == 0 {
        None
    } else {
        match regex_pair(SSH_PATTERN@, outs[0].command@) {
            Some(p) => Some(p),
            None => first_ssh(outs.drop_first()),
        }
    }
}

/// Every command exited with code 0.
pub open spec fn all_succeeded(outs: Seq<CommandOutput>) -> bool {
    forall|i: int| 0 <= i < outs.len() ==> #[trigger] outs[i].exit_code == Some(0i32)
}

/// The sum of the command durations.
pub open spec fn total_duration(outs: Seq<CommandOutput>) -> nat
    decreases outs.len(),
{
    if outs.len() == 0 {
        0
    } else {
        total_duration(outs.drop_last()) + outs.last().duration_ms as nat
    }
}

/// The summary line of a run.
pub open spec fn summary_text(function_name: Seq<char>, count: nat, success: bool) -> Seq<char> {
    if success {
        "Successfully executed "@ + function_name + " with "@ + decimal(count) + " command(s)"@
    } else {
        "Execution of "@ + function_name + " failed"@
    }
}

impl ExecutionContext {
    /// The user and host of an SSH command, such as `ssh -i key.pem user@host`
    /// (see `SSH_PATTERN`).
    pub fn extract_ssh_context(command: &str) -> (r: Option<(String, String)>)
        ensures
            pair_view(r) == regex_pair(SSH_PATTERN@, command@),
    {
        regex_captures_pair(SSH_PATTERN, command)
    }
}

/// The SSH user and host of the first command that has them (see `first_ssh`).
pub fn first_ssh_context(outputs: &[CommandOutput]) -> (r: Option<(String, String)>)
    ensures
        pair_view(r) == first_ssh(outputs@),
{
    let mut i: usize = 0;
    assert(outputs@.skip(0) =~= outputs@);
    while i < outputs.len()
        invariant
            i <= outputs@.len(),
            first_ssh(outputs@) == first_ssh(outputs@.skip(i as int)),
        decreases outputs@.len() - i,
    {
        let found = ExecutionContext::extract_ssh_context(outputs[i].command.as_str());
        if found.is_some() {
            return found;
        }
        assert(outputs@.skip(i as int).drop_first() =~= outputs@.skip(i + 1));
        i = i + 1;
    }
    None
}

impl StructuredResult {
    /// The result of running `function_name`: successful when every command exited with
    /// code 0, with the total duration, a summary, and the remote user and host of an SSH
    /// command (`ssh`, as found by `first_ssh_context`).
    pub fn assemble(
        function_name: &str,
        outputs: Vec<CommandOutput>,
        interpreter: &str,
        working_directory: Option<String>,
        ssh: Option<(String, String)>,
    ) -> (r: StructuredResult)
        requires
            total_duration(outputs@) <= u128::MAX,
        ensures
            r.context.function_name@ == function_name@,
            r.context.interpreter@ == interpreter@,
            opt_view(r.context.working_directory) == opt_view(working_directory),
            r.context.remote_user is Some <==> ssh is Some,
            r.context.remote_host is Some <==> ssh is Some,
            ssh matches Some((u, h)) ==> r.context.remote_user->Some_0@ == u@ && r.context.remote_host->Some_0@ == h@,
            r.outputs@ == outputs@,
            r.success == all_succeeded(outputs@),
            r.total_duration_ms == total_duration(outputs@),
            r.summary@ == summary_text(function_name@, outputs@.len(), all_succeeded(outputs@)),
    {
        let mut success = true;
        let mut total: u128 = 0;
        let mut i: usize = 0;
        while i < outputs.len()
            invariant
                i <= outputs@.len(),
                total_duration(outputs@) <= u128::MAX,
                success == all_succeeded(outputs@.take(i as int)),
                total == total_duration(outputs@.take(i as int)),
            decreases outputs@.len() - i,
        {
            assert(outputs@.take(i + 1).drop_last() =~= outputs@.take(i as int));
            proof { lemma_total_duration_prefix(outputs@, i + 1); }
            if outputs[i].exit_code != Some(0i32) {
                success = false;
            }
            total = total + outputs[i].duration_ms;
            i = i + 1;
        }
        assert(outputs@.take(outputs@.len() as int) =~= outputs@);
        let mut summary = if success {
            to_chars("Successfully executed ")
        } else {
            to_chars("Execution of ")
        };
        push_str(&mut summary, function_name);
        if success {
            push_str(&mut summary, " with ");
            let n = u128_to_chars(outputs.len() as u128);
            push_all(&mut summary, n.as_slice());
            push_str(&mut summary, " command(s)");
        } else {
            push_str(&mut summary, " failed");
        }
        let (remote_user, remote_host) = match ssh {
            Some((u, h)) => (Some(u), Some(h)),
            None => (None, None),
        };
        StructuredResult {
            context: ExecutionContext {
                function_name: function_name.to_string(),
                remote_host,
                remote_user,
                interpreter: interpreter.to_string(),
                working_directory,
            },
            outputs,
            success,
            total_duration_ms: total,
            summary: from_chars(summary.as_slice()),
        }
    }

    /// The result of running `function_name` in `working_directory` (see `assemble`), with
    /// the SSH context of its commands.
    pub fn from_outputs(
        function_name: &str,
        outputs: Vec<CommandOutput>,
        interpreter: &str,
        working_directory: Option<String>,
    ) -> (r: StructuredResult)
        requires
            total_duration(outputs@) <= u128::MAX,
        ensures
            r.context.function_name@ == function_name@,
            r.context.interpreter@ == interpreter@,
            opt_view(r.context.working_directory) == opt_view(working_directory),
            opt_view(r.context.remote_user) == (match first_ssh(outputs@) {
                Some(p) => Some(p.0),
                None => None::<Seq<char>>,
            }),
            opt_view(r.context.remote_host) == (match first_ssh(outputs@) {
                Some(p) => Some(p.1),
                None => None::<Seq<char>>,
            }),
            r.outputs@ == outputs@,
            r.success == all_succeeded(outputs@),
            r.total_duration_ms == total_duration(outputs@),
            r.summary@ == summary_text(function_name@, outputs@.len(), all_succeeded(outputs@)),
    {
        let ssh = first_ssh_context(outputs.as_slice());
        StructuredResult::assemble(function_name, outputs, interpreter, working_directory, ssh)
    }
}

/// The durations of a prefix add up to no more than those of the whole.
proof fn lemma_total_duration_prefix(outs: Seq<CommandOutput>, n: int)
    requires
        0 <= n <= outs.len(),
    ensures
        total_duration(outs.take(n)) <= total_duration(outs),
    decreases outs.len() - n,
{
    if n < outs.len() {
        lemma_total_duration_prefix(outs, n + 1);
        assert(outs.take(n + 1).drop_last() =~= outs.take(n));
    } else {
        assert(outs.take(n) =~= outs);
    }
}

} // verus!
