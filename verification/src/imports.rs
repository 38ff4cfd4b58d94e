//! `IMPORT` and `EXPORT` inside a module's evaluation: binding the names a
//! loaded module exports, and checking the names a module exports.
use vstd::prelude::*;

use crate::compare::copy_value;
use crate::env::{cell_in_scope, cell_of, cells_below, set_scopes, Cells, Env};
use crate::patterns::{holds_like, lemma_holds_copy, lemma_store_of_like, store_like, store_of};
use crate::text::{concat2, str_eq};
use crate::sorting::{rearranged, sort_by_keys, sorted_stably, strict_weak_order};
use crate::value::{arity_error, is_arity_error, is_type_error, type_error, type_label, type_label_spec, BuiltinError, ErrorCode, Value};

verus! {

/// A name of an `IMPORT` or `EXPORT` list, with its local alias if it has
/// one.
#[derive(Debug)]
pub struct ImportName {
    pub name: String,
    pub alias: Option<String>,
}

/// The name under which `i` is bound locally: its alias, or its name.
pub open spec fn local_of(i: ImportName) -> String {
    match i.alias {
        Some(a) => a,
        None => i.name,
    }
}

impl ImportName {
    /// The name under which this import is bound locally.
    pub fn local_name(&self) -> (r: &str)
        ensures
            r@ == local_of(*self)@,
    {
        match &self.alias {
            Some(a) => a.as_str(),
            None => self.name.as_str(),
        }
    }
}

/// Some string of `v` has the text `n`.
pub open spec fn lists(v: Seq<String>, n: Seq<char>) -> bool {
    exists|j: int| 0 <= j < v.len() && v[j]@ == n
}

/// The scopes and cell store after importing `names`, in order, from the
/// module `module` whose scopes are `ms` and whose exports are `exports`:
/// each import is bound as a new cell in the innermost scope to the
/// module's value; or the first error: a local name already bound in the
/// innermost scope (`E0021`), a name the module does not export or does
/// not bind (`E0023`).
pub open spec fn import_spec(
    names: Seq<ImportName>,
    s: Seq<Seq<(String, usize)>>,
    st: Seq<(Value, Option<usize>, bool)>,
    ms: Seq<Seq<(String, usize)>>,
    exports: Seq<String>,
    module: Seq<char>,
) -> Result<(Seq<Seq<(String, usize)>>, Seq<(Value, Option<usize>, bool)>), (ErrorCode, Seq<char>)>
    decreases names.len(),
{
    if names.len() == 0 {
        Ok((s, st))
    } else {
        let imp = names[0];
        let local = local_of(imp);
        if s.len() > 0 && cell_in_scope(s.last(), local@) is Some {
            Err(
                (
                    ErrorCode::E0021,
                    "name '"@ + local@ + "' already bound by previous IMPORT in this scope"@,
                ),
            )
        } else if !lists(exports, imp.name@) {
            Err((ErrorCode::E0023, "'"@ + imp.name@ + "' is not exported by module '"@ + module + "'"@))
        } else {
            match cell_of(ms, imp.name@) {
                None => Err(
                    (
                        ErrorCode::E0023,
                        "'"@ + imp.name@ + "' is exported by '"@ + module
                            + "' but missing at runtime (internal bug)"@,
                    ),
                ),
                Some(c) => import_spec(
                    names.drop_first(),
                    set_scopes(s, local, st.len() as usize),
                    if s.len() == 0 {
                        st
                    } else {
                        st.push((st[c as int].0, st[c as int].1, false))
                    },
                    ms,
                    exports,
                    module,
                ),
            }
        }
    }
}

fn listed_in(exports: &Vec<String>, n: &str) -> (r: bool)
    ensures
        r == lists(exports@, n@),
{
    let mut i: usize = 0;
    while i < exports.len()
        invariant
            i <= exports@.len(),
            forall|j: int| 0 <= j < i ==> exports@[j]@ != n@,
        decreases exports@.len() - i,
    {
        if str_eq(exports[i].as_str(), n) {
            return true;
        }
        i = i + 1;
    }
    false
}

/// Binds the names of an `IMPORT` list from a loaded module (its
/// environment `module_env` and its exports) in the innermost scope of
/// `env`, in order, each to a new cell holding a copy of the module's
/// value. Stops at the first name that is already bound in the innermost
/// scope (`E0021`), not exported, or not bound by the module (`E0023`);
/// the names before it stay bound.
pub fn import_names(
    env: &mut Env,
    module_env: &Env,
    exports: &Vec<String>,
    names: &Vec<ImportName>,
    module: &str,
    cells: &mut Cells,
) -> (r: Result<(), (ErrorCode, String)>)
    requires
        cells_below(old(env).scopes(), old(cells)@.len()),
        cells_below(module_env.scopes(), old(cells)@.len()),
    ensures
        cells_below(final(env).scopes(), final(cells)@.len()),
        old(cells)@.len() <= final(cells)@.len(),
        match import_spec(names@, old(env).scopes(), store_of(old(cells)@), module_env.scopes(), exports@, module@) {
            Ok((s2, st2)) => r is Ok && final(env).scopes() == s2 && store_like(final(cells)@, st2),
            Err((c, m)) => r matches Err((c2, m2)) && c2 == c && m2@ == m,
        },
{
    let ghost ms = module_env.scopes();
    let ghost st = store_of(cells@);
    proof {
        lemma_store_of_like(cells@);
    }
    let ghost mut cur = st;
    let mut i: usize = 0;
    assert(names@.skip(0) =~= names@);
    while i < names.len()
        invariant
            ms == module_env.scopes(),
            st == store_of(old(cells)@),
            i <= names@.len(),
            cells_below(env.scopes(), cells@.len()),
            cells_below(ms, cells@.len()),
            store_like(cells@, cur),
            cur.len() >= st.len(),
            forall|k: int| 0 <= k < st.len() ==> #[trigger] cur[k] == st[k],
            import_spec(names@, old(env).scopes(), st, ms, exports@, module@) == import_spec(
                names@.skip(i as int),
                env.scopes(),
                cur,
                ms,
                exports@,
                module@,
            ),
        decreases names@.len() - i,
    {
        proof {
            assert(names@.skip(i as int)[0] == names@[i as int]);
            assert(names@.skip(i as int).drop_first() =~= names@.skip(i + 1));
        }
        let imp = &names[i];
        let local = imp.local_name();
        let taken = match env.innermost_binds(local) {
            Some(b) => b,
            None => false,
        };
        if taken {
            let mut m = concat2("name '", local);
            m.append("' already bound by previous IMPORT in this scope");
            return Err((ErrorCode::E0021, m));
        }
        if !listed_in(exports, imp.name.as_str()) {
            let mut m = concat2("'", imp.name.as_str());
            m.append("' is not exported by module '");
            m.append(module);
            m.append("'");
            return Err((ErrorCode::E0023, m));
        }
        let v = match module_env.get(cells, imp.name.as_str()) {
            Some(x) => copy_value(x),
            None => {
                let mut m = concat2("'", imp.name.as_str());
                m.append("' is exported by '");
                m.append(module);
                m.append("' but missing at runtime (internal bug)");
                return Err((ErrorCode::E0023, m));
            },
        };
        let ghost c = cell_of(ms, imp.name@)->0;
        proof {
            crate::env::lemma_cell_of_bound(ms, imp.name@);
            assert(holds_like(cells@[c as int], cur[c as int]));
            lemma_holds_copy(cells@[c as int], cur[c as int], v);
        }
        let ghost s_before = env.scopes();
        let ghost c_before = cells@;
        let local_owned = match &imp.alias {
            Some(a) => a.clone(),
            None => imp.name.clone(),
        };
        env.set_local(cells, local_owned, v);
        proof {
            if s_before.len() > 0 {
                let next = cur.push((cur[c as int].0, cur[c as int].1, false));
                assert forall|k: int| 0 <= k < next.len() implies holds_like(cells@[k], #[trigger] next[k]) by {
                    if k < cur.len() {
                        assert(cells@[k] == c_before[k]);
                        assert(next[k] == cur[k]);
                    }
                }
                assert forall|k: int| 0 <= k < st.len() implies #[trigger] next[k] == st[k] by {
                    assert(next[k] == cur[k]);
                }
                cur = next;
            }
            assert(cells_below(ms, cells@.len())) by {
                assert forall|k: int, j: int| 0 <= k < ms.len() && 0 <= j < ms[k].len() implies #[trigger] ms[k][j].1
                    < cells@.len() by {
                    assert(ms[k][j].1 < c_before.len());
                }
            }
        }
        i = i + 1;
    }
    Ok(())
}

/// The names of an `EXPORT` list must be bound in the module: the first
/// that is not gives its message (`E0020`).
pub fn check_exports(env: &Env, names: &Vec<ImportName>) -> (r: Option<String>)
    ensures
        match first_unbound(names@, env.scopes()) {
            None => r is None,
            Some(k) => r matches Some(m) && m@ == "EXPORT: name '"@ + local_of(names@[k])@
                + "' is not bound in this module"@,
        },
{
    let mut i: usize = 0;
    assert(names@.skip(0) =~= names@);
    while i < names.len()
        invariant
            i <= names@.len(),
            first_unbound(names@, env.scopes()) == match first_unbound(names@.skip(i as int), env.scopes()) {
                Some(j) => Some(j + i),
                None => None,
            },
        decreases names@.len() - i,
    {
        assert(names@.skip(i as int)[0] == names@[i as int]);
        assert(names@.skip(i as int).drop_first() =~= names@.skip(i + 1));
        let local = names[i].local_name();
        if env.get_cell(local).is_none() {
            let mut m = concat2("EXPORT: name '", local);
            m.append("' is not bound in this module");
            return Some(m);
        }
        i = i + 1;
    }
    None
}

/// The position of the first name of `names` whose local name `s` does
/// not bind.
pub open spec fn first_unbound(names: Seq<ImportName>, s: Seq<Seq<(String, usize)>>) -> Option<int>
    decreases names.len(),
{
    if names.len() == 0 {
        None
    } else if cell_of(s, local_of(names[0])@) is None {
        Some(0)
    } else {
        match first_unbound(names.drop_first(), s) {
            Some(j) => Some(j + 1),
            None => None,
        }
    }
}

/// The module path of `MODULE_REF(path)`: `E0022` unless there is exactly
/// one argument, `E0030` unless it is a STRING.
pub fn module_ref_path(args: &Vec<Value>) -> (r: Result<String, BuiltinError>)
    ensures
        args@.len() != 1 ==> (r matches Err(e) && is_arity_error(e, "MODULE_REF"@, args@.len() as nat, 1)),
        args@.len() == 1 ==> match args@[0] {
            Value::String(p) => r matches Ok(q) && q@ == p@,
            other => r matches Err(e) && is_type_error(
                e,
                "MODULE_REF"@,
                "expected STRING module path, got "@ + type_label_spec(&other)@,
            ),
        },
{
    if args.len() != 1 {
        return Err(arity_error("MODULE_REF", args.len(), 1));
    }
    match &args[0] {
        Value::String(p) => Ok(String::from_str(p.as_str())),
        other => Err(type_error("MODULE_REF", concat2("expected STRING module path, got ", type_label(other)).as_str())),
    }
}

/// The entries of a module's exports, each name as a STRING key.
pub open spec fn export_entries(exports: Seq<(String, Value)>) -> Seq<(Value, Value)> {
    exports.map_values(|e: (String, Value)| (Value::String(e.0), e.1))
}

/// `d` holds the entries of `exports`, ordered by name.
pub open spec fn sorted_exports(d: Seq<(Value, Value)>, exports: Seq<(String, Value)>) -> bool {
    exists|p: Seq<int>|
        #[trigger] rearranged(d, export_entries(exports), p) && (strict_weak_order(export_entries(exports))
            ==> sorted_stably(d, p))
}

/// The DICT that `MODULE_REF` gives for a module's exports (each name
/// with its value): the entries ordered by name, which, names being
/// distinct, fixes the order.
pub fn module_dict(exports: Vec<(String, Value)>) -> (r: Value)
    ensures
        r matches Value::Dict(d) && sorted_exports(d@, exports@),
{
    let ghost input = exports@;
    let mut entries: Vec<(Value, Value)> = Vec::new();
    let mut rest = exports;
    while rest.len() > 0
        invariant
            rest@.len() <= input.len(),
            rest@ == input.skip(input.len() - rest@.len()),
            entries@ == export_entries(input.take(input.len() - rest@.len())),
        decreases rest@.len(),
    {
        let ghost k = input.len() - rest@.len();
        let e = rest.remove(0);
        assert(e == input[k]);
        entries.push((Value::String(e.0), e.1));
        assert(rest@ =~= input.skip(k + 1));
        assert(entries@ =~= export_entries(input.take(k + 1)));
    }
    assert(input.take(input.len() as int) =~= input);
    assert(entries@ == export_entries(input));
    let sorted = sort_by_keys(entries);
    proof {
        let p = choose|p: Seq<int>|
            #[trigger] rearranged(sorted@, export_entries(input), p) && (strict_weak_order(export_entries(input))
                ==> sorted_stably(sorted@, p));
        assert(rearranged(sorted@, export_entries(input), p));
        assert(sorted_exports(sorted@, exports@));
    }
    Value::Dict(sorted)
}

} // verus!
