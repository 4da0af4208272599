//! Helpers shared across modules: argument types, platform filtering, heredoc detection.
use vstd::prelude::*;
use crate::ast::{ArgType, Attribute, AttrView, OsPlatform, attrs_view};
use crate::heredoc::{heredoc_delims, heredoc_delims_exec, heredoc_stack, heredoc_step};
use crate::text::{string_views, to_chars, to_strings, views};

verus! {

/// The operating system the program runs on.
#[derive(Debug, Clone, Copy, PartialEq, Eq, Structural)]
pub enum HostPlatform {
    Windows,
    Linux,
    MacOS,
    /// A Unix other than Linux and macOS.
    OtherUnix,
    /// Anything else.
    Other,
}

/// Whether an executable of this name is found on the search path (`which::which`).
/// Nothing is promised of the answer: it depends on the machine.
#[verifier::external_body]
pub fn program_on_path(name: &str) -> (found: bool) {
    which::which(name).is_ok()
}

/// The JSON schema type name of an argument type.
pub open spec fn json_type_name(t: ArgType) -> Seq<char> {
    match t {
        ArgType::String => "string"@,
        ArgType::Integer => "integer"@,
        ArgType::Float => "number"@,
        ArgType::Boolean => "boolean"@,
        ArgType::Object => "object"@,
    }
}

/// Convert an `ArgType` to its JSON schema type string.
pub fn arg_type_to_json_type(arg_type: &ArgType) -> (s: &'static str)
    ensures
        s@ == json_type_name(*arg_type),
{
    match arg_type {
        ArgType::String => "string",
        ArgType::Integer => "integer",
        ArgType::Float => "number",
        ArgType::Boolean => "boolean",
        ArgType::Object => "object",
    }
}

/// `@os` platform `p` matches the host.
pub open spec fn platform_matches(p: OsPlatform, host: HostPlatform) -> bool {
    match p {
        OsPlatform::Windows => host == HostPlatform::Windows,
        OsPlatform::Linux => host == HostPlatform::Linux,
        OsPlatform::MacOS => host == HostPlatform::MacOS,
        OsPlatform::Unix => host == HostPlatform::Linux || host == HostPlatform::MacOS || host
            == HostPlatform::OtherUnix,
    }
}

/// The attribute is an `@os` annotation.
pub open spec fn is_os_attr(a: Attribute) -> bool {
    a is Os
}

/// A function with these attributes is available on `host`: it has no `@os` annotation,
/// or one of its `@os` annotations matches.
pub open spec fn available_on(attrs: Seq<Attribute>, host: HostPlatform) -> bool {
    (forall|i: int| 0 <= i < attrs.len() ==> !is_os_attr(#[trigger] attrs[i]))
    || (exists|i: int| 0 <= i < attrs.len() && #[trigger] is_os_attr(attrs[i]) && platform_matches(attrs[i]->Os_0, host))
}

/// `available_on`, read on the contents of attributes.
pub open spec fn available_on_view(attrs: Seq<AttrView>, host: HostPlatform) -> bool {
    (forall|i: int| 0 <= i < attrs.len() ==> !(#[trigger] attrs[i] is Os))
    || (exists|i: int| 0 <= i < attrs.len() && #[trigger] attrs[i] is Os && platform_matches(attrs[i]->Os_0, host))
}

pub proof fn lemma_available_on_view(attrs: Seq<Attribute>, host: HostPlatform)
    ensures
        available_on(attrs, host) == available_on_view(attrs_view(attrs), host),
{
    let v = attrs_view(attrs);
    assert forall|i: int| 0 <= i < attrs.len() implies (#[trigger] is_os_attr(attrs[i])) == (v[i] is Os) && (
    is_os_attr(attrs[i]) ==> v[i]->Os_0 == attrs[i]->Os_0) by {}
    if available_on(attrs, host) {
        if !(forall|i: int| 0 <= i < attrs.len() ==> !is_os_attr(#[trigger] attrs[i])) {
            let i = choose|i: int| 0 <= i < attrs.len() && #[trigger] is_os_attr(attrs[i]) && platform_matches(attrs[i]->Os_0, host);
            assert(v[i] is Os);
        }
    }
    if available_on_view(v, host) {
        if !(forall|i: int| 0 <= i < v.len() ==> !(#[trigger] v[i] is Os)) {
            let i = choose|i: int| 0 <= i < v.len() && #[trigger] v[i] is Os && platform_matches(v[i]->Os_0, host);
            assert(is_os_attr(attrs[i]));
        }
    }
}

fn platform_matches_exec(p: &OsPlatform, host: HostPlatform) -> (b: bool)
    ensures
        b == platform_matches(*p, host),
{
    match p {
        OsPlatform::Windows => host == HostPlatform::Windows,
        OsPlatform::Linux => host == HostPlatform::Linux,
        OsPlatform::MacOS => host == HostPlatform::MacOS,
        OsPlatform::Unix => host == HostPlatform::Linux || host == HostPlatform::MacOS || host
            == HostPlatform::OtherUnix,
    }
}

/// Whether a function with these attributes is available on the given host platform:
/// true when no `@os` attribute is present, or when one of them matches.
pub fn matches_current_platform(attributes: &[Attribute], host: HostPlatform) -> (b: bool)
    ensures
        b == available_on(attributes@, host),
{
    let mut seen_os = false;
    let mut i: usize = 0;
    while i < attributes.len()
        invariant
            i <= attributes@.len(),
            seen_os == exists|j: int| 0 <= j < i && #[trigger] is_os_attr(attributes@[j]),
            forall|j: int| 0 <= j < i && #[trigger] is_os_attr(attributes@[j]) ==> !platform_matches(attributes@[j]->Os_0, host),
        decreases attributes@.len() - i,
    {
        if let Attribute::Os(p) = &attributes[i] {
            if platform_matches_exec(p, host) {
                assert(is_os_attr(attributes@[i as int]));
                return true;
            }
            seen_os = true;
            assert(is_os_attr(attributes@[i as int]));
        } else {
            assert(!is_os_attr(attributes@[i as int]));
        }
        i = i + 1;
    }
    if seen_os {
        false
    } else {
        true
    }
}

/// Extract heredoc delimiter names from a line of shell code. Recognises `<<DELIM`,
/// `<<-DELIM`, `<<"DELIM"`, `<<'DELIM'` and `<<\DELIM`; skips `<<<` and markers inside
/// quotes. Delimiters may hold letters, digits and `_-.:+/~!%@`.
pub fn extract_heredoc_delimiters(line: &str) -> (r: Vec<String>)
    ensures
        string_views(r@) == heredoc_delims(line@, true),
{
    let cs = to_chars(line);
    let ds = heredoc_delims_exec(cs.as_slice(), true);
    to_strings(&ds)
}

/// For each line, whether it lies inside a heredoc: after an opening marker line, up to
/// and including the closing delimiter line.
pub fn build_heredoc_mask(lines: &[&str]) -> (mask: Vec<bool>)
    ensures
        mask@.len() == lines@.len(),
        forall|k: int| 0 <= k < lines@.len() ==> mask@[k] == (heredoc_stack(
            lines@.take(k).map_values(|l: &str| l@), true).len() > 0),
{
    let ghost ls = lines@.map_values(|l: &str| l@);
    let mut mask: Vec<bool> = Vec::new();
    let mut stack: Vec<Vec<char>> = Vec::new();
    let mut i: usize = 0;
    while i < lines.len()
        invariant
            i <= lines@.len(),
            ls == lines@.map_values(|l: &str| l@),
            mask@.len() == i,
            views(stack@) == heredoc_stack(ls.take(i as int), true),
            forall|k: int| 0 <= k < i ==> mask@[k] == (heredoc_stack(
                lines@.take(k).map_values(|l: &str| l@), true).len() > 0),
        decreases lines@.len() - i,
    {
        assert(lines@.take(i as int).map_values(|l: &str| l@) =~= ls.take(i as int));
        mask.push(stack.len() > 0);
        let line = to_chars(lines[i]);
        heredoc_step(&mut stack, line.as_slice(), true);
        assert(ls.take(i + 1).drop_last() =~= ls.take(i as int));
        assert(ls.take(i + 1).last() == line@);
        i = i + 1;
    }
    mask
}

} // verus!
