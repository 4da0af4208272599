//! Assembling the script that runs a function: preambles, then the body.
use vstd::prelude::*;
use crate::interpreter::preamble::{
    collect_compatible_siblings, collect_incompatible_colon_siblings, compatible_siblings,
    incompatible_colon_siblings,
};
use crate::interpreter::FunctionMetadata;
use crate::table::Table;
use crate::text::{from_chars, join, join_chars, push_str, string_views, to_chars, views};
use crate::transpiler::Interpreter;

verus! {

/// The siblings whose call sites are rewritten in a function body: the compatible ones,
/// then the incompatible ones whose names hold a `:`.
pub open spec fn rewritable_siblings(
    target_name: Seq<char>,
    target: Interpreter,
    simple: Seq<(String, String)>,
    block: Seq<(String, Vec<String>)>,
    meta: Seq<(String, FunctionMetadata)>,
    fallback: Interpreter,
) -> Seq<Seq<char>> {
    compatible_siblings(target_name, target, simple, block, meta, fallback) + incompatible_colon_siblings(
        target_name,
        target,
        simple,
        block,
        meta,
        fallback,
    )
}

/// Collects the rewritable sibling names (see `rewritable_siblings`).
pub fn collect_rewritable_siblings(
    target_name: &str,
    target_interpreter: &Interpreter,
    simple_functions: &Table<String>,
    block_functions: &Table<Vec<String>>,
    function_metadata: &Table<FunctionMetadata>,
    fallback: Interpreter,
) -> (r: Vec<String>)
    ensures
        string_views(r@) == rewritable_siblings(
            target_name@,
            *target_interpreter,
            simple_functions.entries@,
            block_functions.entries@,
            function_metadata.entries@,
            fallback,
        ),
{
    let mut names = collect_compatible_siblings(
        target_name,
        target_interpreter,
        simple_functions,
        block_functions,
        function_metadata,
        fallback,
    );
    let more = collect_incompatible_colon_siblings(
        target_name,
        target_interpreter,
        simple_functions,
        block_functions,
        function_metadata,
        fallback,
    );
    let ghost first = string_views(names@);
    let mut i: usize = 0;
    while i < more.len()
        invariant
            i <= more@.len(),
            string_views(names@) == first + string_views(more@).take(i as int),
        decreases more@.len() - i,
    {
        let ghost before = string_views(names@);
        names.push(more[i].clone());
        assert(string_views(names@) =~= before.push(more@[i as int]@));
        assert(string_views(more@).take(i + 1) =~= string_views(more@).take(i as int).push(more@[i as int]@));
        i = i + 1;
    }
    assert(string_views(more@).take(i as int) =~= string_views(more@));
    names
}

/// The body wrapped in a `__run__` shell function that is then called with the script's
/// arguments, so that `return` works in it.
pub open spec fn wrapped_body(body: Seq<char>) -> Seq<char> {
    "__run__() {\n"@ + body + "\n}\n__run__ \"$@\""@
}

/// The variable preamble, the function preamble (each only when not empty) and the body
/// (wrapped when `wrap_in_function`), joined by line feeds.
pub open spec fn combined_script(var_preamble: Seq<char>, func_preamble: Seq<char>, body: Seq<char>, wrap_in_function: bool) -> Seq<char> {
    let b = if wrap_in_function { wrapped_body(body) } else { body };
    let v = if var_preamble.len() > 0 { seq![var_preamble] } else { Seq::empty() };
    let f = if func_preamble.len() > 0 { seq![func_preamble] } else { Seq::empty() };
    join(v + f + seq![b], "\n"@)
}

/// Combines the preambles and the body into one script (see `combined_script`); the body
/// is wrapped in a function for shell interpreters, and left as it is for polyglot ones.
pub fn build_combined_script(
    var_preamble: String,
    func_preamble: String,
    rewritten_body: String,
    wrap_in_function: bool,
) -> (r: String)
    ensures
        r@ == combined_script(var_preamble@, func_preamble@, rewritten_body@, wrap_in_function),
{
    let body: Vec<char> = if wrap_in_function {
        let mut b = to_chars("__run__() {\n");
        push_str(&mut b, rewritten_body.as_str());
        push_str(&mut b, "\n}\n__run__ \"$@\"");
        b
    } else {
        to_chars(rewritten_body.as_str())
    };
    let mut parts: Vec<Vec<char>> = Vec::new();
    let vc = to_chars(var_preamble.as_str());
    let fc = to_chars(func_preamble.as_str());
    if vc.len() > 0 {
        parts.push(vc);
    }
    if fc.len() > 0 {
        parts.push(fc);
    }
    parts.push(body);
    proof {
        let v = if var_preamble@.len() > 0 { seq![var_preamble@] } else { Seq::empty() };
        let f = if func_preamble@.len() > 0 { seq![func_preamble@] } else { Seq::empty() };
        assert(views(parts@) =~= v + f + seq![body@]);
    }
    let r = join_chars(&parts, to_chars("\n").as_slice());
    from_chars(r.as_slice())
}

} // verus!
