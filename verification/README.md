# run

`run` is a task runner: functions are defined in a `Runfile` and run from the command
line, or offered as tools to AI agents over the Model Context Protocol. Shell, Python,
Node and Ruby functions can be mixed, and functions can call each other.

The logic of the tool is a library verified with Verus; the program around it reads
files, starts processes and talks JSON.

## Layout

- `src/` — the verified library:
  - `parser` reads a Runfile into statements (definitions, calls, assignments,
    commands, `# @...` annotations);
  - `interpreter` keeps the defined functions and variables and plans the programs to
    run: argument substitution, shell composition of sibling functions, argument
    preambles for Python, Node and Ruby;
  - `transpiler` turns functions into shell or PowerShell functions and rewrites call
    sites; `heredoc` finds heredoc bodies, which are never re-indented;
  - `graph` orders dependencies and detects cycles;
  - `mcp` describes the tools a Runfile offers, maps named JSON arguments to
    positional ones and decides how each JSON-RPC request is answered;
  - `ast` holds the syntax tree and the reports of a run; `output_file` shortens long
    output for agents; `executor`, `config`, `cli` and `completion` hold the decisions of
    the command line; `table`, `text` and `order` are the small data structures and text
    functions the rest is stated with.
- `tests/` — tests of the library on concrete values.
- `app/` — the `run` program: command-line parsing, Runfile discovery, running the
  planned commands, JSON, and the MCP server loop.
