//! The table of global built-in functions and the registry of the names
//! that consume an `ERR` argument instead of letting it propagate.
use vstd::prelude::*;

use crate::text::str_eq;

verus! {

/// A global built-in function, named after what it does; `resolve_builtin`
/// maps the names a program calls to these.
#[derive(Debug, Clone, Copy, PartialEq, Eq, Structural)]
pub enum Builtin {
    Print,
    PrintErr,
    Len,
    Push,
    Int,
    Float,
    Trim,
    TrimStart,
    TrimEnd,
    StartsWith,
    EndsWith,
    Repeat,
    PadStart,
    PadEnd,
    Codepoints,
    FromCodepoints,
    Str,
    Format,
    IndexGet,
    IndexSet,
    At,
    RemoveKey,
    RemoveKeyCompat,
    PopDict,
    Bool,
    Neg,
    Input,
    Call,
    GetProp,
    SetProp,
    CallMethod,
    ModuleRef,
    Keys,
    Values,
    Has,
    Merge,
    Upper,
    Lower,
    Substr,
    Replace,
    Split,
    Shift,
    Unshift,
    Slice,
    Concat,
    Contains,
    Index,
    Reverse,
    Add,
    Subtract,
    Multiply,
    Divide,
    Modulo,
    Equal,
    NotEqual,
    Less,
    Greater,
    LessEqual,
    GreaterEqual,
    And,
    Or,
    NotBangCompat,
    Not,
    UnwrapOrCompat,
    UnwrapOr,
    Type,
    Unwrap,
    ErrPayload,
    Wrap,
}

/// The global dispatch table: each built-in name with its function.
pub open spec fn builtin_table() -> Seq<(Seq<char>, Builtin)> {
    seq![
        ("PRINT"@, Builtin::Print),
        ("PRINT_ERR"@, Builtin::PrintErr),
        ("LEN"@, Builtin::Len),
        ("PUSH"@, Builtin::Push),
        ("INT"@, Builtin::Int),
        ("FLOAT"@, Builtin::Float),
        ("TRIM"@, Builtin::Trim),
        ("TRIM_START"@, Builtin::TrimStart),
        ("TRIM_END"@, Builtin::TrimEnd),
        ("STARTS_WITH"@, Builtin::StartsWith),
        ("ENDS_WITH"@, Builtin::EndsWith),
        ("REPEAT"@, Builtin::Repeat),
        ("PAD_START"@, Builtin::PadStart),
        ("PAD_END"@, Builtin::PadEnd),
        ("CODEPOINTS"@, Builtin::Codepoints),
        ("FROM_CODEPOINTS"@, Builtin::FromCodepoints),
        ("STR"@, Builtin::Str),
        ("FORMAT"@, Builtin::Format),
        ("INDEX_GET"@, Builtin::IndexGet),
        ("INDEX_SET"@, Builtin::IndexSet),
        ("AT"@, Builtin::At),
        ("REMOVE_KEY"@, Builtin::RemoveKey),
        ("DEL"@, Builtin::RemoveKeyCompat),
        ("POP"@, Builtin::PopDict),
        ("BOOL"@, Builtin::Bool),
        ("NEG"@, Builtin::Neg),
        ("INPUT"@, Builtin::Input),
        ("CALL"@, Builtin::Call),
        ("GET_PROP"@, Builtin::GetProp),
        ("SET_PROP"@, Builtin::SetProp),
        ("CALL_METHOD"@, Builtin::CallMethod),
        ("MODULE_REF"@, Builtin::ModuleRef),
        ("KEYS"@, Builtin::Keys),
        ("VALUES"@, Builtin::Values),
        ("HAS"@, Builtin::Has),
        ("MERGE"@, Builtin::Merge),
        ("UPPER"@, Builtin::Upper),
        ("LOWER"@, Builtin::Lower),
        ("SUB"@, Builtin::Substr),
        ("REPLACE"@, Builtin::Replace),
        ("SPLIT"@, Builtin::Split),
        ("SHIFT"@, Builtin::Shift),
        ("UNSHIFT"@, Builtin::Unshift),
        ("SLICE"@, Builtin::Slice),
        ("CONCAT"@, Builtin::Concat),
        ("CONTAINS"@, Builtin::Contains),
        ("INDEX"@, Builtin::Index),
        ("REVERSE"@, Builtin::Reverse),
        ("+"@, Builtin::Add),
        ("-"@, Builtin::Subtract),
        ("*"@, Builtin::Multiply),
        ("/"@, Builtin::Divide),
        ("%"@, Builtin::Modulo),
        ("=="@, Builtin::Equal),
        ("!="@, Builtin::NotEqual),
        ("<"@, Builtin::Less),
        (">"@, Builtin::Greater),
        ("<="@, Builtin::LessEqual),
        (">="@, Builtin::GreaterEqual),
        ("&&"@, Builtin::And),
        ("||"@, Builtin::Or),
        ("!"@, Builtin::NotBangCompat),
        ("NOT"@, Builtin::Not),
        ("OR_DIE"@, Builtin::UnwrapOrCompat),
        ("UNWRAP_OR"@, Builtin::UnwrapOr),
        ("TYPE"@, Builtin::Type),
        ("UNWRAP"@, Builtin::Unwrap),
        ("ERR_PAYLOAD"@, Builtin::ErrPayload),
        ("WRAP"@, Builtin::Wrap)
    ]
}

/// The entry of the first pair of `table` named `name`.
pub open spec fn lookup_first<T>(table: Seq<(Seq<char>, T)>, name: Seq<char>) -> Option<T>
    decreases table.len(),
{
    if table.len() == 0 {
        None
    } else if table[0].0 == name {
        Some(table[0].1)
    } else {
        lookup_first(table.drop_first(), name)
    }
}

fn lookup_in<T: Copy>(table: &Vec<(&str, T)>, name: &str) -> (r: Option<T>)
    ensures
        r == lookup_first(table@.map_values(|e: (&str, T)| (e.0@, e.1)), name@),
{
    let ghost full = table@.map_values(|e: (&str, T)| (e.0@, e.1));
    assert(full.skip(0) =~= full);
    let mut i: usize = 0;
    while i < table.len()
        invariant
            i <= table@.len(),
            full == table@.map_values(|e: (&str, T)| (e.0@, e.1)),
            lookup_first(full, name@) == lookup_first(full.skip(i as int), name@),
        decreases table@.len() - i,
    {
        let (n, v) = table[i];
        assert(full.skip(i as int)[0] == (n@, v));
        assert(full.skip(i as int).drop_first() =~= full.skip(i + 1));
        if str_eq(n, name) {
            return Some(v);
        }
        i = i + 1;
    }
    None
}

/// The dispatch table as executable pairs, in table order.
fn dispatch_table() -> (r: Vec<(&'static str, Builtin)>)
    ensures
        r@.map_values(|e: (&str, Builtin)| (e.0@, e.1)) == builtin_table(),
{
    let table: Vec<(&'static str, Builtin)> = vec![
        ("PRINT", Builtin::Print),
        ("PRINT_ERR", Builtin::PrintErr),
        ("LEN", Builtin::Len),
        ("PUSH", Builtin::Push),
        ("INT", Builtin::Int),
        ("FLOAT", Builtin::Float),
        ("TRIM", Builtin::Trim),
        ("TRIM_START", Builtin::TrimStart),
        ("TRIM_END", Builtin::TrimEnd),
        ("STARTS_WITH", Builtin::StartsWith),
        ("ENDS_WITH", Builtin::EndsWith),
        ("REPEAT", Builtin::Repeat),
        ("PAD_START", Builtin::PadStart),
        ("PAD_END", Builtin::PadEnd),
        ("CODEPOINTS", Builtin::Codepoints),
        ("FROM_CODEPOINTS", Builtin::FromCodepoints),
        ("STR", Builtin::Str),
        ("FORMAT", Builtin::Format),
        ("INDEX_GET", Builtin::IndexGet),
        ("INDEX_SET", Builtin::IndexSet),
        ("AT", Builtin::At),
        ("REMOVE_KEY", Builtin::RemoveKey),
        ("DEL", Builtin::RemoveKeyCompat),
        ("POP", Builtin::PopDict),
        ("BOOL", Builtin::Bool),
        ("NEG", Builtin::Neg),
        ("INPUT", Builtin::Input),
        ("CALL", Builtin::Call),
        ("GET_PROP", Builtin::GetProp),
        ("SET_PROP", Builtin::SetProp),
        ("CALL_METHOD", Builtin::CallMethod),
        ("MODULE_REF", Builtin::ModuleRef),
        ("KEYS", Builtin::Keys),
        ("VALUES", Builtin::Values),
        ("HAS", Builtin::Has),
        ("MERGE", Builtin::Merge),
        ("UPPER", Builtin::Upper),
        ("LOWER", Builtin::Lower),
        ("SUB", Builtin::Substr),
        ("REPLACE", Builtin::Replace),
        ("SPLIT", Builtin::Split),
        ("SHIFT", Builtin::Shift),
        ("UNSHIFT", Builtin::Unshift),
        ("SLICE", Builtin::Slice),
        ("CONCAT", Builtin::Concat),
        ("CONTAINS", Builtin::Contains),
        ("INDEX", Builtin::Index),
        ("REVERSE", Builtin::Reverse),
        ("+", Builtin::Add),
        ("-", Builtin::Subtract),
        ("*", Builtin::Multiply),
        ("/", Builtin::Divide),
        ("%", Builtin::Modulo),
        ("==", Builtin::Equal),
        ("!=", Builtin::NotEqual),
        ("<", Builtin::Less),
        (">", Builtin::Greater),
        ("<=", Builtin::LessEqual),
        (">=", Builtin::GreaterEqual),
        ("&&", Builtin::And),
        ("||", Builtin::Or),
        ("!", Builtin::NotBangCompat),
        ("NOT", Builtin::Not),
        ("OR_DIE", Builtin::UnwrapOrCompat),
        ("UNWRAP_OR", Builtin::UnwrapOr),
        ("TYPE", Builtin::Type),
        ("UNWRAP", Builtin::Unwrap),
        ("ERR_PAYLOAD", Builtin::ErrPayload),
        ("WRAP", Builtin::Wrap)
    ];
    assert(table@.map_values(|e: (&str, Builtin)| (e.0@, e.1)) =~= builtin_table());
    table
}

/// The built-in function called `name`, if there is one.
pub fn resolve_builtin(name: &str) -> (r: Option<Builtin>)
    ensures
        r == lookup_first(builtin_table(), name@),
{
    let table = dispatch_table();
    lookup_in(&table, name)
}

/// The names that consume an `ERR` argument instead of letting it
/// propagate out of the call.
pub open spec fn err_consumer_names() -> Seq<Seq<char>> {
    seq!["IS_OK"@, "IS_ERR"@, "OR_DIE"@, "UNWRAP_OR"@, "TRY"@, "UNWRAP"@, "ERR_PAYLOAD"@, "WRAP"@, "TYPE"@, "EXPECT_ERR"@]
}

/// The registry of names that consume an `ERR` argument, in registry order.
pub fn err_consumer_registry() -> (r: Vec<&'static str>)
    ensures
        r@.map_values(|s: &str| s@) == err_consumer_names(),
{
    let r = vec!["IS_OK", "IS_ERR", "OR_DIE", "UNWRAP_OR", "TRY", "UNWRAP", "ERR_PAYLOAD", "WRAP", "TYPE", "EXPECT_ERR"];
    assert(r@.map_values(|s: &str| s@) =~= err_consumer_names());
    r
}

/// True iff `name` is one of `list`.
fn contains_name(list: &Vec<&str>, name: &str) -> (r: bool)
    ensures
        r == list@.map_values(|s: &str| s@).contains(name@),
{
    let ghost names = list@.map_values(|s: &str| s@);
    let mut i: usize = 0;
    while i < list.len()
        invariant
            i <= list@.len(),
            names == list@.map_values(|s: &str| s@),
            forall|k: int| 0 <= k < i ==> names[k] != name@,
        decreases list@.len() - i,
    {
        if str_eq(list[i], name) {
            assert(names[i as int] == name@);
            return true;
        }
        i = i + 1;
    }
    false
}

/// True iff `name` consumes an `ERR` argument instead of letting it
/// propagate.
pub fn is_err_consumer(name: &str) -> (r: bool)
    ensures
        r == err_consumer_names().contains(name@),
{
    let reg = err_consumer_registry();
    contains_name(&reg, name)
}


/// How a registered built-in name is dispatched.
#[derive(Debug, Clone, Copy, PartialEq, Eq, Structural)]
pub enum DispatchStatus {
    /// Served by its own entry of the global dispatch table.
    ResolvedBuiltin,
    /// Served by the dispatch table through a compatibility alias.
    ResolvedCompat,
    /// Rewritten by the parser into its own expression form.
    LexerMacro,
    /// Listed but not served yet.
    Deferred,
}

/// Whether a registered name consumes an `ERR` argument.
#[derive(Debug, Clone, Copy, PartialEq, Eq, Structural)]
pub enum ErrConsumerStatus {
    Yes,
    No,
}

/// One row of the built-in registry.
#[derive(Debug, Clone, Copy, PartialEq, Eq)]
pub struct BuiltinSpec {
    pub name: &'static str,
    pub dispatch: DispatchStatus,
    pub err_consumer: ErrConsumerStatus,
    pub macro_fn: bool,
}

/// The names that a compatibility alias serves.
pub open spec fn compat_names() -> Seq<Seq<char>> {
    seq!["DEL"@, "OR_DIE"@, "!"@]
}

/// The names the parser rewrites into expression forms of their own.
pub open spec fn lexer_macro_names() -> Seq<Seq<char>> {
    seq!["IS_OK"@, "IS_ERR"@, "TRY"@, "EXPECT_ERR"@]
}

/// The dispatched names that the language documents as macro functions.
pub open spec fn macro_builtin_names() -> Seq<Seq<char>> {
    seq!["NOT"@, "UNWRAP_OR"@, "OR_DIE"@, "TYPE"@]
}

/// A row of the registry, as plain values: name, dispatch, whether it
/// consumes `ERR`, whether it is a macro function.
pub open spec fn spec_row(b: BuiltinSpec) -> (Seq<char>, DispatchStatus, ErrConsumerStatus, bool) {
    (b.name@, b.dispatch, b.err_consumer, b.macro_fn)
}

/// The registry row that describes `name`, dispatched as `dispatch`.
pub open spec fn registry_row(name: Seq<char>, dispatch: DispatchStatus) -> (Seq<char>, DispatchStatus, ErrConsumerStatus, bool) {
    (
        name,
        dispatch,
        if err_consumer_names().contains(name) { ErrConsumerStatus::Yes } else { ErrConsumerStatus::No },
        dispatch == DispatchStatus::LexerMacro || macro_builtin_names().contains(name),
    )
}

/// The registry: a row for every name of the dispatch table, in table
/// order, then a row for every parser macro.
pub open spec fn registry_rows() -> Seq<(Seq<char>, DispatchStatus, ErrConsumerStatus, bool)> {
    builtin_table().map_values(
        |e: (Seq<char>, Builtin)|
            registry_row(
                e.0,
                if compat_names().contains(e.0) { DispatchStatus::ResolvedCompat } else { DispatchStatus::ResolvedBuiltin },
            ),
    ) + lexer_macro_names().map_values(|n: Seq<char>| registry_row(n, DispatchStatus::LexerMacro))
}


/// The row that describes `name`, dispatched as `dispatch`.
fn make_row(name: &'static str, dispatch: DispatchStatus) -> (r: BuiltinSpec)
    ensures
        spec_row(r) == registry_row(name@, dispatch),
{
    let macros: Vec<&str> = vec!["NOT", "UNWRAP_OR", "OR_DIE", "TYPE"];
    assert(macros@.map_values(|s: &str| s@) =~= macro_builtin_names());
    let err_consumer = if is_err_consumer(name) {
        ErrConsumerStatus::Yes
    } else {
        ErrConsumerStatus::No
    };
    let is_macro = match dispatch {
        DispatchStatus::LexerMacro => true,
        _ => contains_name(&macros, name),
    };
    BuiltinSpec { name, dispatch, err_consumer, macro_fn: is_macro }
}

/// The built-in registry: every dispatched name, in dispatch-table order,
/// then every parser macro.
pub fn builtin_registry() -> (r: Vec<BuiltinSpec>)
    ensures
        r@.map_values(|b: BuiltinSpec| spec_row(b)) == registry_rows(),
{
    let table = dispatch_table();
    let ghost tv = table@.map_values(|e: (&str, Builtin)| (e.0@, e.1));
    let compat: Vec<&str> = vec!["DEL", "OR_DIE", "!"];
    assert(compat@.map_values(|s: &str| s@) =~= compat_names());
    let ghost head = builtin_table().map_values(
        |e: (Seq<char>, Builtin)|
            registry_row(
                e.0,
                if compat_names().contains(e.0) { DispatchStatus::ResolvedCompat } else { DispatchStatus::ResolvedBuiltin },
            ),
    );
    let mut out: Vec<BuiltinSpec> = Vec::new();
    let mut i: usize = 0;
    while i < table.len()
        invariant
            i <= table@.len(),
            tv == table@.map_values(|e: (&str, Builtin)| (e.0@, e.1)),
            tv == builtin_table(),
            compat@.map_values(|s: &str| s@) == compat_names(),
            head.len() == builtin_table().len(),
            forall|k: int| 0 <= k < head.len() ==> #[trigger] head[k] == registry_row(
                builtin_table()[k].0,
                if compat_names().contains(builtin_table()[k].0) { DispatchStatus::ResolvedCompat } else { DispatchStatus::ResolvedBuiltin },
            ),
            out@.map_values(|b: BuiltinSpec| spec_row(b)) == head.take(i as int),
        decreases table@.len() - i,
    {
        let (name, _) = table[i];
        assert(tv[i as int].0 == name@);
        let dispatch = if contains_name(&compat, name) {
            DispatchStatus::ResolvedCompat
        } else {
            DispatchStatus::ResolvedBuiltin
        };
        let row = make_row(name, dispatch);
        assert(builtin_table()[i as int].0 == name@);
        assert(spec_row(row) == head[i as int]);
        let ghost before = out@;
        out.push(row);
        assert(out@.map_values(|b: BuiltinSpec| spec_row(b)) =~= before.map_values(|b: BuiltinSpec| spec_row(b)).push(spec_row(row)));
        assert(out@.map_values(|b: BuiltinSpec| spec_row(b)) =~= head.take(i + 1));
        i = i + 1;
    }
    assert(head.take(table@.len() as int) =~= head);
    let macros: Vec<&'static str> = vec!["IS_OK", "IS_ERR", "TRY", "EXPECT_ERR"];
    assert(macros@.map_values(|s: &str| s@) =~= lexer_macro_names());
    let ghost tail = lexer_macro_names().map_values(|n: Seq<char>| registry_row(n, DispatchStatus::LexerMacro));
    let mut j: usize = 0;
    while j < macros.len()
        invariant
            j <= macros@.len(),
            macros@.map_values(|s: &str| s@) == lexer_macro_names(),
            tail == lexer_macro_names().map_values(|n: Seq<char>| registry_row(n, DispatchStatus::LexerMacro)),
            out@.map_values(|b: BuiltinSpec| spec_row(b)) == head + tail.take(j as int),
        decreases macros@.len() - j,
    {
        let row = make_row(macros[j], DispatchStatus::LexerMacro);
        assert(lexer_macro_names()[j as int] == macros@[j as int]@);
        assert(spec_row(row) == tail[j as int]);
        let ghost before = out@;
        out.push(row);
        assert(out@.map_values(|b: BuiltinSpec| spec_row(b)) =~= before.map_values(|b: BuiltinSpec| spec_row(b)).push(spec_row(row)));
        assert(out@.map_values(|b: BuiltinSpec| spec_row(b)) =~= head + tail.take(j + 1));
        j = j + 1;
    }
    assert(tail.take(4) =~= tail);
    out
}


/// The first of `rows` named `name`, if any.
pub open spec fn first_row(
    rows: Seq<(Seq<char>, DispatchStatus, ErrConsumerStatus, bool)>,
    name: Seq<char>,
) -> Option<(Seq<char>, DispatchStatus, ErrConsumerStatus, bool)>
    decreases rows.len(),
{
    if rows.len() == 0 {
        None
    } else if rows[0].0 == name {
        Some(rows[0])
    } else {
        first_row(rows.drop_first(), name)
    }
}

/// The registry row of `name`, if the registry lists it.
pub fn registry_lookup(name: &str) -> (r: Option<BuiltinSpec>)
    ensures
        match first_row(registry_rows(), name@) {
            Some(row) => r matches Some(b) && spec_row(b) == row,
            None => r is None,
        },
{
    let rows = builtin_registry();
    let ghost all = rows@.map_values(|b: BuiltinSpec| spec_row(b));
    let mut i: usize = 0;
    assert(all.skip(0) =~= all);
    while i < rows.len()
        invariant
            i <= rows@.len(),
            all == rows@.map_values(|b: BuiltinSpec| spec_row(b)),
            all == registry_rows(),
            first_row(all, name@) == first_row(all.skip(i as int), name@),
        decreases rows@.len() - i,
    {
        let b = rows[i];
        assert(all.skip(i as int)[0] == spec_row(b));
        assert(all.skip(i as int).drop_first() =~= all.skip(i + 1));
        if str_eq(b.name, name) {
            return Some(b);
        }
        i = i + 1;
    }
    assert(all.skip(i as int).len() == 0);
    None
}

/// The names that the registry lists as served by the dispatch table,
/// in registry order.
pub fn resolved_builtin_names() -> (r: Vec<&'static str>)
    ensures
        r@.map_values(|s: &str| s@) == builtin_table().map_values(|e: (Seq<char>, Builtin)| e.0),
{
    let table = dispatch_table();
    let ghost names = builtin_table().map_values(|e: (Seq<char>, Builtin)| e.0);
    let mut out: Vec<&'static str> = Vec::new();
    let mut i: usize = 0;
    while i < table.len()
        invariant
            i <= table@.len(),
            table@.map_values(|e: (&str, Builtin)| (e.0@, e.1)) == builtin_table(),
            names == builtin_table().map_values(|e: (Seq<char>, Builtin)| e.0),
            out@.map_values(|s: &str| s@) == names.take(i as int),
        decreases table@.len() - i,
    {
        let (name, _) = table[i];
        assert(builtin_table()[i as int].0 == name@);
        let ghost before = out@;
        out.push(name);
        assert(out@.map_values(|s: &str| s@) =~= before.map_values(|s: &str| s@).push(name@));
        assert(names.take(i + 1) =~= names.take(i as int).push(name@));
        i = i + 1;
    }
    assert(names.take(table@.len() as int) =~= names);
    out
}

proof fn lemma_lookup_found<T>(table: Seq<(Seq<char>, T)>, k: int)
    requires
        0 <= k < table.len(),
    ensures
        lookup_first(table, table[k].0) is Some,
    decreases table.len(),
{
    if table[0].0 != table[k].0 {
        lemma_lookup_found(table.drop_first(), k - 1);
    }
}

/// Every name that the registry lists as served by the dispatch table
/// (directly or through a compatibility alias) resolves to a built-in.
pub proof fn law_registry_resolves(k: int)
    requires
        0 <= k < registry_rows().len(),
        registry_rows()[k].1 == DispatchStatus::ResolvedBuiltin
            || registry_rows()[k].1 == DispatchStatus::ResolvedCompat,
    ensures
        lookup_first(builtin_table(), registry_rows()[k].0) is Some,
{
    if k < builtin_table().len() {
        lemma_lookup_found(builtin_table(), k);
    }
}

/// A row is a macro function exactly when the parser rewrites it or the
/// language documents it as one, so a macro function is never deferred,
/// and every parser macro is a macro function.
pub proof fn law_registry_macro_dispatch(k: int)
    requires
        0 <= k < registry_rows().len(),
    ensures
        registry_rows()[k].3 ==> registry_rows()[k].1 != DispatchStatus::Deferred,
        registry_rows()[k].1 == DispatchStatus::LexerMacro ==> registry_rows()[k].3,
{
}

/// A row consumes `ERR` exactly when its name is in the `ERR`-consumer
/// registry.
pub proof fn law_registry_err_consumers(k: int)
    requires
        0 <= k < registry_rows().len(),
    ensures
        (registry_rows()[k].2 == ErrConsumerStatus::Yes) == err_consumer_names().contains(registry_rows()[k].0),
{
}


/// Every name of the `ERR`-consumer registry has a row of its own in the
/// built-in registry, served by the dispatch table or by the parser.
pub proof fn law_err_consumers_registered(i: int)
    requires
        0 <= i < err_consumer_names().len(),
    ensures
        exists|k: int|
            0 <= k < registry_rows().len() && #[trigger] registry_rows()[k].0 == err_consumer_names()[i]
                && registry_rows()[k].2 == ErrConsumerStatus::Yes
                && registry_rows()[k].1 != DispatchStatus::Deferred,
{
    let k: int = if i == 0 { 69 } else if i == 1 { 70 } else if i == 2 { 63 } else if i == 3 { 64 } else if i == 4 { 71 } else if i == 5 { 66 } else if i == 6 { 67 } else if i == 7 { 68 } else if i == 8 { 65 } else { 72 };
    assert(registry_rows()[k].0 == err_consumer_names()[i]);
    law_registry_err_consumers(k);
}

} // verus!
