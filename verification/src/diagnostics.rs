//! Diagnostics that the evaluator and the module loader raise: their
//! codes, messages, notes, the call trace they carry, and the rules for
//! `LET` shadowing of registered names.
//!
//! The text of the source line a diagnostic points at is extracted by the
//! caller and handed in.
use vstd::prelude::*;

use crate::display::{append_names, joined_names};
use crate::patterns::PatternError;
use crate::registry::{first_row, registry_lookup, registry_rows, DispatchStatus};
use crate::suggest::{similar_names, string_views, suggestions, utf8_len};
use crate::text::concat2;
use crate::value::{type_label, type_label_spec, ErrorCode, Value, Warning, WarningCode};

verus! {

/// A span of source text: the file, and where it starts and ends.
#[derive(Debug, PartialEq)]
pub struct Location {
    pub file: String,
    pub line: usize,
    pub col: usize,
    pub line_end: usize,
    pub col_end: usize,
}

/// One frame of a call trace: the called function's name and the call
/// site.
#[derive(Debug, PartialEq)]
pub struct TraceFrame {
    pub frame: String,
    pub location: Location,
}

/// A diagnostic: its code and message, where it points, the source line
/// there (when known), notes for the user, and the call trace, innermost
/// call first.
#[derive(Debug, PartialEq)]
pub struct Diagnostic {
    pub code: ErrorCode,
    pub message: String,
    pub location: Location,
    pub source_line: Option<String>,
    pub notes: Vec<String>,
    pub trace: Vec<TraceFrame>,
}

/// A copy of `l`.
pub fn copy_location(l: &Location) -> (r: Location)
    ensures
        r == *l,
{
    Location { file: l.file.clone(), line: l.line, col: l.col, line_end: l.line_end, col_end: l.col_end }
}

/// A copy of `f`.
pub fn copy_frame(f: &TraceFrame) -> (r: TraceFrame)
    ensures
        r == *f,
{
    TraceFrame { frame: f.frame.clone(), location: copy_location(&f.location) }
}

/// The location of diagnostics that have no source position: the file
/// `<module>` at line 0, column 0.
pub fn module_point() -> (l: Location)
    ensures
        l.file@ == "<module>"@ && l.line == 0 && l.col == 0 && l.line_end == 0 && l.col_end == 0,
{
    Location { file: String::from_str("<module>"), line: 0, col: 0, line_end: 0, col_end: 0 }
}

/// The location of diagnostics that built-ins raise outside any call
/// site: the file `<runtime>` at line 0, column 0.
pub fn runtime_location() -> (l: Location)
    ensures
        l.file@ == "<runtime>"@ && l.line == 0 && l.col == 0 && l.line_end == 0 && l.col_end == 0,
{
    Location { file: String::from_str("<runtime>"), line: 0, col: 0, line_end: 0, col_end: 0 }
}

/// The note that a diagnostic of `code` carries for the user, if any.
pub open spec fn code_note(code: ErrorCode) -> Option<&'static str> {
    match code {
        ErrorCode::E0014 => Some(
            "`BREAK` and `CONTINUE` are only valid inside the body of a `WHILE` or `FOR` loop (v0.3 section 7); this position is outside any loop body",
        ),
        ErrorCode::E0020 => Some(
            "no binding for this name; either add a `LET(name, ...)` before this use, or import it from a module",
        ),
        ErrorCode::E0021 => Some(
            "this name is already defined in the current scope; rename one of the two bindings",
        ),
        ErrorCode::E0022 => Some(
            "check the function signature: argument count must match the `FUN((p1, p2, ...), ...)` declaration",
        ),
        ErrorCode::E0023 => Some(
            "the source module does not export this name; add it to the `EXPORT([...])` list, or import a different name",
        ),
        ErrorCode::E0030 => Some(
            "operator or builtin received a value of the wrong type; check operand types or use an explicit conversion",
        ),
        ErrorCode::E0040 => Some(
            "module not found; check the IMPORT path, that the file exists, and that `wlwl.toml` lists the namespace (for `ns:name` imports)",
        ),
        ErrorCode::E0041 => Some(
            "break the cycle by extracting shared code into a third module that both can import",
        ),
        ErrorCode::E0043 => Some(
            "namespace paths look like `ns:name` (e.g. `wlwl:std.io`) or a relative path (`./mod`, `../mod`); see v0.3 section 13.3",
        ),
        ErrorCode::E0061 => Some(
            "file not found; check the path against the current working directory and create the file if needed",
        ),
        ErrorCode::E0070 => Some(
            "JSON parse failed; common causes are trailing commas, single-quoted strings, or unquoted keys",
        ),
        ErrorCode::E0080 | ErrorCode::E0081 | ErrorCode::E0082 | ErrorCode::E0083 => Some(
            "AI provider call failed; this is transient (retryable: true) -- retry the operation, or check `wlwl:std.ai` provider configuration",
        ),
        ErrorCode::E0100 => Some(
            "this is a compiler bug; please open an issue with the offending source file and stack trace",
        ),
        ErrorCode::E0102 => Some(
            "an `ERR(...)` reached the top level; wrap the call in `OR_DIE(expr, default)` or `TRY(expr)`, or check the upstream function for the source of the error",
        ),
        _ => None,
    }
}

/// The note that the evaluator attaches to a diagnostic of `code`.
#[verifier::when_used_as_spec(code_note)]
pub fn diag_note(code: ErrorCode) -> (r: Option<&'static str>)
    ensures
        r == code_note(code),
{
    match code {
        ErrorCode::E0014 => Some(
            "`BREAK` and `CONTINUE` are only valid inside the body of a `WHILE` or `FOR` loop (v0.3 section 7); this position is outside any loop body",
        ),
        ErrorCode::E0020 => Some(
            "no binding for this name; either add a `LET(name, ...)` before this use, or import it from a module",
        ),
        ErrorCode::E0021 => Some(
            "this name is already defined in the current scope; rename one of the two bindings",
        ),
        ErrorCode::E0022 => Some(
            "check the function signature: argument count must match the `FUN((p1, p2, ...), ...)` declaration",
        ),
        ErrorCode::E0023 => Some(
            "the source module does not export this name; add it to the `EXPORT([...])` list, or import a different name",
        ),
        ErrorCode::E0030 => Some(
            "operator or builtin received a value of the wrong type; check operand types or use an explicit conversion",
        ),
        ErrorCode::E0040 => Some(
            "module not found; check the IMPORT path, that the file exists, and that `wlwl.toml` lists the namespace (for `ns:name` imports)",
        ),
        ErrorCode::E0041 => Some(
            "break the cycle by extracting shared code into a third module that both can import",
        ),
        ErrorCode::E0043 => Some(
            "namespace paths look like `ns:name` (e.g. `wlwl:std.io`) or a relative path (`./mod`, `../mod`); see v0.3 section 13.3",
        ),
        ErrorCode::E0061 => Some(
            "file not found; check the path against the current working directory and create the file if needed",
        ),
        ErrorCode::E0070 => Some(
            "JSON parse failed; common causes are trailing commas, single-quoted strings, or unquoted keys",
        ),
        ErrorCode::E0080 | ErrorCode::E0081 | ErrorCode::E0082 | ErrorCode::E0083 => Some(
            "AI provider call failed; this is transient (retryable: true) -- retry the operation, or check `wlwl:std.ai` provider configuration",
        ),
        ErrorCode::E0100 => Some(
            "this is a compiler bug; please open an issue with the offending source file and stack trace",
        ),
        ErrorCode::E0102 => Some(
            "an `ERR(...)` reached the top level; wrap the call in `OR_DIE(expr, default)` or `TRY(expr)`, or check the upstream function for the source of the error",
        ),
        _ => None,
    }
}

/// The notes of a fresh diagnostic of `code`: its code's note, if any.
pub open spec fn notes_for(code: ErrorCode) -> Seq<Seq<char>> {
    match code_note(code) {
        Some(n) => seq![n@],
        None => Seq::empty(),
    }
}

/// The texts of `notes`.
pub open spec fn note_texts(notes: Seq<String>) -> Seq<Seq<char>> {
    notes.map_values(|s: String| s@)
}

/// The frames of `stack`, innermost (last pushed) first.
pub fn innermost_first(stack: &Vec<TraceFrame>) -> (r: Vec<TraceFrame>)
    ensures
        r@ == stack@.reverse(),
{
    let mut r: Vec<TraceFrame> = Vec::new();
    let mut k = stack.len();
    while k > 0
        invariant
            k <= stack@.len(),
            r@ == stack@.skip(k as int).reverse(),
        decreases k,
    {
        k = k - 1;
        r.push(copy_frame(&stack[k]));
        assert(r@ =~= stack@.skip(k as int).reverse());
    }
    assert(stack@.skip(0) =~= stack@);
    r
}

/// A diagnostic of `code` raised while evaluating: it carries the call
/// stack (innermost call first), the source line when the caller has it,
/// and the note for `code`.
pub fn diag(
    code: ErrorCode,
    message: String,
    location: Location,
    call_stack: &Vec<TraceFrame>,
    source_line: Option<String>,
) -> (d: Diagnostic)
    ensures
        d.code == code,
        d.message == message,
        d.location == location,
        d.source_line == source_line,
        d.trace@ == call_stack@.reverse(),
        note_texts(d.notes@) == notes_for(code),
{
    let mut notes: Vec<String> = Vec::new();
    if let Some(n) = diag_note(code) {
        notes.push(String::from_str(n));
    }
    assert(note_texts(notes@) =~= notes_for(code));
    Diagnostic { code, message, location, source_line, notes, trace: innermost_first(call_stack) }
}

/// A diagnostic built outside `diag`: no note, no trace.
fn plain(code: ErrorCode, message: String, location: Location, source_line: Option<String>) -> (d: Diagnostic)
    ensures
        d.code == code && d.message == message && d.location == location && d.source_line == source_line,
        d.notes@.len() == 0 && d.trace@.len() == 0,
{
    Diagnostic { code, message, location, source_line, notes: Vec::new(), trace: Vec::new() }
}

/// `d` with a call trace: kept when it has one; otherwise the call stack,
/// innermost first, or, at the top level, a single `<toplevel>` frame at
/// the diagnostic's own location.
pub fn enrich_with_trace(d: Diagnostic, call_stack: &Vec<TraceFrame>) -> (r: Diagnostic)
    ensures
        r.code == d.code && r.message == d.message && r.location == d.location,
        r.source_line == d.source_line && r.notes == d.notes,
        d.trace@.len() > 0 ==> r.trace == d.trace,
        d.trace@.len() == 0 && call_stack@.len() > 0 ==> r.trace@ == call_stack@.reverse(),
        d.trace@.len() == 0 && call_stack@.len() == 0 ==> (r.trace@.len() == 1 && r.trace@[0].frame@
            == "<toplevel>"@ && r.trace@[0].location == d.location),
{
    let mut d = d;
    if d.trace.len() == 0 {
        if call_stack.len() == 0 {
            let location = copy_location(&d.location);
            d.trace.push(TraceFrame { frame: String::from_str("<toplevel>"), location });
        } else {
            d.trace = innermost_first(call_stack);
        }
    }
    d
}

/// `E0020` for the undefined `name`: the note for `E0020`, then, when
/// some of the bound names `pool` are close to `name` (see
/// `similar_names`, at most three), a note that lists them.
pub fn undefined_name(
    name: &str,
    location: Location,
    call_stack: &Vec<TraceFrame>,
    source_line: Option<String>,
    pool: &Vec<String>,
) -> (d: Diagnostic)
    requires
        name@.len() < usize::MAX,
        utf8_len(name@) <= usize::MAX,
        forall|k: int|
            0 <= k < pool@.len() ==> #[trigger] pool@[k]@.len() < usize::MAX && utf8_len(pool@[k]@) <= usize::MAX,
    ensures
        d.code == ErrorCode::E0020,
        d.message@ == "undefined name `"@ + name@ + "`"@,
        d.location == location && d.source_line == source_line,
        d.trace@ == call_stack@.reverse(),
        ({
            let found = suggestions(name@, string_views(pool@), 3);
            note_texts(d.notes@) == if found.len() == 0 {
                notes_for(ErrorCode::E0020)
            } else {
                notes_for(ErrorCode::E0020).push(
                    "did you mean one of: "@ + joined_names_of(found) + "?"@,
                )
            }
        }),
{
    let mut message = concat2("undefined name `", name);
    message.append("`");
    let mut d = diag(ErrorCode::E0020, message, location, call_stack, source_line);
    let candidates = similar_names(name, pool, 3);
    proof {
        lemma_joined_views(candidates@);
    }
    if candidates.len() > 0 {
        let mut note = String::from_str("did you mean one of: ");
        append_names(&candidates, &mut note);
        note.append("?");
        let ghost before = d.notes@;
        d.notes.push(note);
        assert(note_texts(d.notes@) =~= note_texts(before).push(note@));
    }
    d
}

/// `names` separated by `, `.
pub open spec fn joined_names_of(names: Seq<Seq<char>>) -> Seq<char>
    decreases names.len(),
{
    if names.len() == 0 {
        Seq::empty()
    } else if names.len() == 1 {
        names[0]
    } else {
        joined_names_of(names.drop_last()) + ", "@ + names.last()
    }
}

proof fn lemma_joined_views(names: Seq<String>)
    ensures
        joined_names(names) == joined_names_of(string_views(names)),
    decreases names.len(),
{
    if names.len() > 1 {
        lemma_joined_views(names.drop_last());
        assert(string_views(names.drop_last()) =~= string_views(names).drop_last());
    }
}

/// The diagnostic for a pattern error at `location`: for an undefined
/// name used as a dict key, that of `undefined_name`; otherwise the
/// error's code and message, without notes or trace.
pub fn pattern_diagnostic(
    e: PatternError,
    location: Location,
    call_stack: &Vec<TraceFrame>,
    source_line: Option<String>,
    pool: &Vec<String>,
) -> (d: Diagnostic)
    requires
        e matches PatternError::Undefined(n) ==> (n@.len() < usize::MAX && utf8_len(n@) <= usize::MAX),
        forall|k: int|
            0 <= k < pool@.len() ==> #[trigger] pool@[k]@.len() < usize::MAX && utf8_len(pool@[k]@) <= usize::MAX,
    ensures
        d.location == location && d.source_line == source_line,
        match e {
            PatternError::Undefined(n) => d.code == ErrorCode::E0020 && d.message@ == "undefined name `"@ + n@
                + "`"@ && d.trace@ == call_stack@.reverse(),
            PatternError::Failed(c, m) => d.code == c && d.message == m && d.notes@.len() == 0 && d.trace@.len()
                == 0,
        },
{
    match e {
        PatternError::Undefined(n) => undefined_name(n.as_str(), location, call_stack, source_line, pool),
        PatternError::Failed(c, m) => plain(c, m, location, source_line),
    }
}

/// `E0030` for a destructure pattern that expected `expected` and met
/// `value`.
pub fn destructure_type_error(expected: &str, value: &Value, location: Location, source_line: Option<String>) -> (d: Diagnostic)
    ensures
        d.code == ErrorCode::E0030,
        d.message@ == "destructure pattern expected "@ + expected@ + ", got "@ + type_label_spec(value)@,
        d.location == location && d.source_line == source_line,
        d.notes@.len() == 0 && d.trace@.len() == 0,
{
    let mut m = concat2("destructure pattern expected ", expected);
    m.append(", got ");
    m.append(type_label(value));
    plain(ErrorCode::E0030, m, location, source_line)
}

/// `E0027`: a `MATCH` with no matching clause and no default.
pub fn match_fell_through(location: Location, source_line: Option<String>) -> (d: Diagnostic)
    ensures
        d.code == ErrorCode::E0027,
        d.message@ == "MATCH fell through without match or default"@,
        d.location == location && d.source_line == source_line,
        d.notes@.len() == 0 && d.trace@.len() == 0,
{
    plain(ErrorCode::E0027, String::from_str("MATCH fell through without match or default"), location, source_line)
}

/// `E0026`: a destructure pattern whose shape does not fit the value.
pub fn destructure_shape_error(message: String, location: Location, source_line: Option<String>) -> (d: Diagnostic)
    ensures
        d.code == ErrorCode::E0026,
        d.message == message,
        d.location == location && d.source_line == source_line,
        d.notes@.len() == 0 && d.trace@.len() == 0,
{
    plain(ErrorCode::E0026, message, location, source_line)
}

/// A module-loader diagnostic: at `<module>`, with one note.
fn loader_diag(code: ErrorCode, message: String, note: &str) -> (d: Diagnostic)
    ensures
        d.code == code && d.message == message,
        d.location.file@ == "<module>"@ && d.location.line == 0 && d.location.col == 0,
        d.location.line_end == 0 && d.location.col_end == 0,
        d.source_line is None && d.trace@.len() == 0,
        note_texts(d.notes@) == seq![note@],
{
    let mut notes: Vec<String> = Vec::new();
    notes.push(String::from_str(note));
    assert(note_texts(notes@) =~= seq![note@]);
    Diagnostic { code, message, location: module_point(), source_line: None, notes, trace: Vec::new() }
}

/// `E0040`: the module `path` was looked for at `looked_at` and not found.
pub fn module_not_found(path: &str, looked_at: &str) -> (d: Diagnostic)
    ensures
        d.code == ErrorCode::E0040,
        d.message@ == "module '"@ + path@ + "' not found (looked for "@ + looked_at@
            + "); check the IMPORT path and the project's wlwl.toml [namespaces] / [dependencies] if this is a third-party reference"@,
        d.location.file@ == "<module>"@ && d.source_line is None && d.trace@.len() == 0,
        note_texts(d.notes@) == seq![
            "check the IMPORT path; for `ns:name` forms, also add the namespace to `wlwl.toml` [namespaces] section"@,
        ],
{
    let mut m = concat2("module '", path);
    m.append("' not found (looked for ");
    m.append(looked_at);
    m.append(
        "); check the IMPORT path and the project's wlwl.toml [namespaces] / [dependencies] if this is a third-party reference",
    );
    loader_diag(
        ErrorCode::E0040,
        m,
        "check the IMPORT path; for `ns:name` forms, also add the namespace to `wlwl.toml` [namespaces] section",
    )
}

/// `E0040`: the module `path` resolves outside the project root `root`.
pub fn module_outside_root(path: &str, root: &str) -> (d: Diagnostic)
    ensures
        d.code == ErrorCode::E0040,
        d.message@ == "module '"@ + path@ + "' not found outside project root ("@ + root@ + ")"@,
        d.location.file@ == "<module>"@ && d.source_line is None && d.trace@.len() == 0,
        note_texts(d.notes@) == seq![
            "move the file inside the project root, or use a relative path (`./mod`, `../mod`)"@,
        ],
{
    let mut m = concat2("module '", path);
    m.append("' not found outside project root (");
    m.append(root);
    m.append(")");
    loader_diag(
        ErrorCode::E0040,
        m,
        "move the file inside the project root, or use a relative path (`./mod`, `../mod`)",
    )
}

/// `E0043`: the namespace `ns` of the module `path` (`ns:name`) is not
/// registered in the project manifest.
pub fn unregistered_namespace(path: &str, ns: &str, name: &str) -> (d: Diagnostic)
    ensures
        d.code == ErrorCode::E0043,
        d.message@ == "namespace '"@ + ns@ + "' for module '"@ + path@
            + "' is not registered in this project's wlwl.toml (neither [namespaces] nor [dependencies] contains '"@
            + ns@ + ":"@ + name@ + "')"@,
        d.location.file@ == "<module>"@ && d.source_line is None && d.trace@.len() == 0,
        note_texts(d.notes@) == seq![
            "add the `[namespaces] <ns>-<name> = <path>` (or `[dependencies] <ns>-<name> = <path>`) section to the project `wlwl.toml`"@,
        ],
{
    let mut m = concat2("namespace '", ns);
    m.append("' for module '");
    m.append(path);
    m.append(
        "' is not registered in this project's wlwl.toml (neither [namespaces] nor [dependencies] contains '",
    );
    m.append(ns);
    m.append(":");
    m.append(name);
    m.append("')");
    loader_diag(
        ErrorCode::E0043,
        m,
        "add the `[namespaces] <ns>-<name> = <path>` (or `[dependencies] <ns>-<name> = <path>`) section to the project `wlwl.toml`",
    )
}

/// `E0041`: a circular `IMPORT`, described by its cycle (see
/// `circular_import`).
pub fn circular_import_error(cycle: &str) -> (d: Diagnostic)
    ensures
        d.code == ErrorCode::E0041,
        d.message@ == "circular IMPORT detected: "@ + cycle@,
        d.location.file@ == "<module>"@ && d.source_line is None && d.trace@.len() == 0,
        note_texts(d.notes@) == seq![
            "break the cycle by extracting the shared declarations into a third module that both can import"@,
        ],
{
    loader_diag(
        ErrorCode::E0041,
        concat2("circular IMPORT detected: ", cycle),
        "break the cycle by extracting the shared declarations into a third module that both can import",
    )
}

/// What a `LET` that creates the binding `name` meets.
#[derive(Debug, PartialEq)]
pub enum ShadowCheck {
    /// No registered name is shadowed.
    Allowed,
    /// The binding is made, with this warning.
    Warned(Warning),
    /// The binding is refused (`E0025`) with this message.
    Refused(String),
}

/// The dispatch of `name` in the registry, if it is listed.
pub open spec fn registered_dispatch(name: Seq<char>) -> Option<DispatchStatus> {
    match first_row(registry_rows(), name) {
        Some(row) => Some(row.1),
        None => None,
    }
}

/// What a `LET` that creates the binding `name` meets: shadowing a
/// built-in that the dispatch table serves is refused, unless the project
/// allows it (`allow_builtin_shadow`), which warns (`W0030`); shadowing a
/// macro function or keyword warns (`W0030`); other names are free.
pub fn check_let_shadowing(name: &str, allow_builtin_shadow: bool) -> (r: ShadowCheck)
    ensures
        match registered_dispatch(name@) {
            None => r == ShadowCheck::Allowed,
            Some(DispatchStatus::ResolvedBuiltin) | Some(DispatchStatus::ResolvedCompat) => if allow_builtin_shadow {
                r matches ShadowCheck::Warned(w) && w.code == WarningCode::W0030 && w.message@
                    == "shadowing global builtin '"@ + name@ + "' ([features] allow_builtin_shadow = true)"@
            } else {
                r matches ShadowCheck::Refused(m) && m@ == "cannot shadow built-in '"@ + name@ + "'"@
            },
            Some(_) => r matches ShadowCheck::Warned(w) && w.code == WarningCode::W0030 && w.message@
                == "shadowing macro function / keyword '"@ + name@ + "'"@,
        },
{
    let spec = match registry_lookup(name) {
        Some(s) => s,
        None => return ShadowCheck::Allowed,
    };
    match spec.dispatch {
        DispatchStatus::ResolvedBuiltin | DispatchStatus::ResolvedCompat => {
            if allow_builtin_shadow {
                let mut m = concat2("shadowing global builtin '", name);
                m.append("' ([features] allow_builtin_shadow = true)");
                ShadowCheck::Warned(Warning { code: WarningCode::W0030, message: m })
            } else {
                let mut m = concat2("cannot shadow built-in '", name);
                m.append("'");
                ShadowCheck::Refused(m)
            }
        },
        DispatchStatus::LexerMacro | DispatchStatus::Deferred => {
            let mut m = concat2("shadowing macro function / keyword '", name);
            m.append("'");
            ShadowCheck::Warned(Warning { code: WarningCode::W0030, message: m })
        },
    }
}

/// A dependency of the project manifest: a version requirement, or a table
/// with an optional path and an optional version.
pub enum Dependency {
    Version(String),
    Detailed { path: Option<String>, version: Option<String> },
}

/// The version constraint that `dep` puts to the version solver: none for
/// a path dependency, which always resolves.
pub fn solver_constraint(dep: &Dependency) -> (r: Option<&str>)
    ensures
        match dep {
            Dependency::Version(v) => r matches Some(s) && s@ == v@,
            Dependency::Detailed { path, version } => match (path, version) {
                (None, Some(v)) => r matches Some(s) && s@ == v@,
                _ => r is None,
            },
        },
{
    match dep {
        Dependency::Version(v) => Some(v.as_str()),
        Dependency::Detailed { path, version } => match (path, version) {
            (None, Some(v)) => Some(v.as_str()),
            _ => None,
        },
    }
}

/// A version constraint of the project: the dependency's name, the
/// constraint's text, and whether it parsed.
pub struct Constraint {
    pub name: String,
    pub raw: String,
    pub parsed: bool,
}

/// What the version solver gave: a solution, a dependency cycle, or
/// another conflict, with the solver's description.
pub enum SolveOutcome {
    Solved,
    Cycle(String),
    Conflict(String),
}

/// The state of the project's lock file.
pub enum LockState {
    Absent,
    Consistent,
    Inconsistent(String),
    Unreadable(String),
}

pub open spec fn no_registry() -> Seq<char> {
    " (v0.4 has no central registry; use path dependencies)"@
}

/// The first constraint that did not parse, if any.
pub open spec fn first_unparsed(cs: Seq<Constraint>) -> Option<int>
    decreases cs.len(),
{
    if cs.len() == 0 {
        None
    } else if !cs[0].parsed {
        Some(0)
    } else {
        match first_unparsed(cs.drop_first()) {
            Some(i) => Some(i + 1),
            None => None,
        }
    }
}

/// The first failure of the project configuration check, in this order:
/// a language version mismatch (`E0044`, with the mismatch's text); a
/// version constraint that does not parse (`E0045`); the version solver's
/// failure, run when there is a constraint (`E0041` for a cycle, `E0045`
/// otherwise); the lock file (`E0042`). `None` when all pass.
pub fn project_config_failure(
    version_mismatch: Option<String>,
    constraints: &Vec<Constraint>,
    solve: SolveOutcome,
    lock: LockState,
) -> (r: Option<(ErrorCode, String)>)
    ensures
        version_mismatch is Some ==> (r matches Some((c, s)) && c == ErrorCode::E0044 && Some(s) == version_mismatch),
        version_mismatch is None && first_unparsed(constraints@) is Some ==> ({
            let k = first_unparsed(constraints@)->0;
            r matches Some((c, s)) && c == ErrorCode::E0045 && s@
                == "dependency conflict: unparseable version constraint '"@ + constraints@[k].raw@ + "' for '"@
                + constraints@[k].name@ + "'"@ + no_registry()
        }),
        version_mismatch is None && first_unparsed(constraints@) is None ==> match (
            if constraints@.len() > 0 { solve } else { SolveOutcome::Solved }
        ) {
            SolveOutcome::Cycle(m) => r matches Some((c, s)) && c == ErrorCode::E0041 && s@ == m@,
            SolveOutcome::Conflict(m) => r matches Some((c, s)) && c == ErrorCode::E0045 && s@ == m@ + no_registry(),
            SolveOutcome::Solved => match lock {
                LockState::Inconsistent(d) => r matches Some((c, s)) && c == ErrorCode::E0042 && s@
                    == "lock file inconsistent with wlwl.toml: "@ + d@,
                LockState::Unreadable(e) => r matches Some((c, s)) && c == ErrorCode::E0042 && s@
                    == "lock file unreadable: "@ + e@,
                _ => r is None,
            },
        },
{
    match version_mismatch {
        Some(m) => {
            return Some((ErrorCode::E0044, m));
        },
        None => {},
    }
    let mut i: usize = 0;
    assert(constraints@.skip(0) =~= constraints@);
    while i < constraints.len()
        invariant
            version_mismatch is None,
            i <= constraints@.len(),
            first_unparsed(constraints@) == match first_unparsed(constraints@.skip(i as int)) {
                Some(j) => Some(j + i),
                None => None,
            },
        decreases constraints@.len() - i,
    {
        assert(constraints@.skip(i as int)[0] == constraints@[i as int]);
        assert(constraints@.skip(i as int).drop_first() =~= constraints@.skip(i + 1));
        if !constraints[i].parsed {
            let c = &constraints[i];
            let mut m = concat2("dependency conflict: unparseable version constraint '", c.raw.as_str());
            m.append("' for '");
            m.append(c.name.as_str());
            m.append("'");
            m.append(" (v0.4 has no central registry; use path dependencies)");
            return Some((ErrorCode::E0045, m));
        }
        i = i + 1;
    }
    if constraints.len() > 0 {
        match solve {
            SolveOutcome::Cycle(m) => {
                return Some((ErrorCode::E0041, m));
            },
            SolveOutcome::Conflict(m) => {
                let mut s = m;
                s.append(" (v0.4 has no central registry; use path dependencies)");
                return Some((ErrorCode::E0045, s));
            },
            SolveOutcome::Solved => {},
        }
    }
    match lock {
        LockState::Inconsistent(d) => Some((ErrorCode::E0042, concat2("lock file inconsistent with wlwl.toml: ", d.as_str()))),
        LockState::Unreadable(e) => Some((ErrorCode::E0042, concat2("lock file unreadable: ", e.as_str()))),
        _ => None,
    }
}

} // verus!
