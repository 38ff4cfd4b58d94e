//! Lexical environments: a chain of scopes that bind names to cells, and
//! the store of cells that environments share.
//!
//! A cell is named by its position in a `Cells` store. Two environments
//! that hold the same position share the cell: a closure captures the
//! cells of the scope that defined it, and a `SET` through one is seen
//! through the other.
use vstd::prelude::*;

use crate::text::str_eq;
use crate::value::Value;

verus! {

/// What a cell holds: a value, and whether `SET` may change it. Cells
/// start immutable and become mutable when a closure captures them.
#[derive(Debug)]
pub struct Binding {
    pub value: Value,
    pub mutable: bool,
}

/// The store of cells.
#[derive(Debug)]
pub struct Cells {
    bindings: Vec<Binding>,
}

impl View for Cells {
    type V = Seq<Binding>;

    closed spec fn view(&self) -> Seq<Binding> {
        self.bindings@
    }
}

impl Cells {
    /// An empty store.
    pub fn new() -> (c: Cells)
        ensures
            c@ == Seq::<Binding>::empty(),
    {
        Cells { bindings: Vec::new() }
    }

    /// The number of cells in the store.
    pub fn len(&self) -> (n: usize)
        ensures
            n == self@.len(),
    {
        self.bindings.len()
    }

    /// The cell at position `id`, if there is one.
    pub fn binding(&self, id: usize) -> (r: Option<&Binding>)
        ensures
            id < self@.len() ==> (r matches Some(b) && *b == self@[id as int]),
            id >= self@.len() ==> r is None,
    {
        if id < self.bindings.len() {
            Some(&self.bindings[id])
        } else {
            None
        }
    }
}

/// A new immutable cell holding `value`; its position is returned.
pub fn new_cell(cells: &mut Cells, value: Value) -> (id: usize)
    ensures
        id == old(cells)@.len(),
        final(cells)@ == old(cells)@.push(Binding { value, mutable: false }),
{
    let id = cells.bindings.len();
    cells.bindings.push(Binding { value, mutable: false });
    id
}

/// A chain of scopes, outermost first. Each scope binds names to cells.
#[derive(Debug)]
pub struct Env {
    scopes: Vec<Vec<(String, usize)>>,
}

/// The cell that `scope` binds to `name`: its first entry for `name`.
pub open spec fn cell_in_scope(scope: Seq<(String, usize)>, name: Seq<char>) -> Option<usize>
    decreases scope.len(),
{
    if scope.len() == 0 {
        None
    } else if scope[0].0@ == name {
        Some(scope[0].1)
    } else {
        cell_in_scope(scope.drop_first(), name)
    }
}

/// The cell that `scopes` binds to `name`: the innermost scope that binds
/// it decides.
pub open spec fn cell_of(scopes: Seq<Seq<(String, usize)>>, name: Seq<char>) -> Option<usize>
    decreases scopes.len(),
{
    if scopes.len() == 0 {
        None
    } else {
        match cell_in_scope(scopes.last(), name) {
            Some(c) => Some(c),
            None => cell_of(scopes.drop_last(), name),
        }
    }
}

/// The position of the first entry of `scope` for `name`.
pub open spec fn first_entry(scope: Seq<(String, usize)>, name: Seq<char>) -> Option<int>
    decreases scope.len(),
{
    if scope.len() == 0 {
        None
    } else if scope[0].0@ == name {
        Some(0)
    } else {
        match first_entry(scope.drop_first(), name) {
            Some(i) => Some(i + 1),
            None => None,
        }
    }
}

/// `scope` with `name` bound to `cell`: its first entry for `name`
/// redirected to `cell`, or a new entry at the end.
pub open spec fn rebind(scope: Seq<(String, usize)>, name: String, cell: usize) -> Seq<(String, usize)> {
    match first_entry(scope, name@) {
        Some(i) => scope.update(i, (name, cell)),
        None => scope.push((name, cell)),
    }
}

/// The scopes after `name` is bound to `cell` in the innermost one.
pub open spec fn set_scopes(s: Seq<Seq<(String, usize)>>, name: String, cell: usize) -> Seq<Seq<(String, usize)>> {
    if s.len() == 0 {
        s
    } else {
        s.drop_last().push(rebind(s.last(), name, cell))
    }
}

proof fn lemma_first_entry(scope: Seq<(String, usize)>, name: Seq<char>, i: int)
    requires
        0 <= i <= scope.len(),
        forall|j: int| 0 <= j < i ==> scope[j].0@ != name,
        i < scope.len() ==> scope[i].0@ == name,
    ensures
        first_entry(scope, name) == (if i < scope.len() { Some(i) } else { None::<int> }),
    decreases i,
{
    if i > 0 {
        assert forall|j: int| 0 <= j < i - 1 implies scope.drop_first()[j].0@ != name by {
            assert(scope.drop_first()[j] == scope[j + 1]);
        }
        if i < scope.len() {
            assert(scope.drop_first()[i - 1] == scope[i]);
        }
        lemma_first_entry(scope.drop_first(), name, i - 1);
    }
}

/// Some scope of `scopes` has an entry for `name`.
pub open spec fn is_bound(scopes: Seq<Seq<(String, usize)>>, name: Seq<char>) -> bool {
    exists|k: int, i: int| 0 <= k < scopes.len() && 0 <= i < scopes[k].len() && #[trigger] scopes[k][i].0@ == name
}

/// Every cell that `scopes` refers to is in a store of `n` cells.
pub open spec fn cells_below(scopes: Seq<Seq<(String, usize)>>, n: nat) -> bool {
    forall|k: int, i: int| 0 <= k < scopes.len() && 0 <= i < scopes[k].len() ==> #[trigger] scopes[k][i].1 < n
}

/// `cells` after every cell that `scopes` refers to became mutable.
pub open spec fn upgraded(cells: Seq<Binding>, scopes: Seq<Seq<(String, usize)>>) -> Seq<Binding> {
    Seq::new(
        cells.len(),
        |c: int|
            Binding {
                value: cells[c].value,
                mutable: cells[c].mutable || exists|k: int, i: int|
                    0 <= k < scopes.len() && 0 <= i < scopes[k].len() && #[trigger] scopes[k][i].1 == c,
            },
    )
}

/// The value that `scopes` binds to `name` in `cells`.
pub open spec fn value_of(scopes: Seq<Seq<(String, usize)>>, cells: Seq<Binding>, name: Seq<char>) -> Option<Value> {
    match cell_of(scopes, name) {
        Some(c) => Some(cells[c as int].value),
        None => None,
    }
}

proof fn lemma_scope_prefix(scope: Seq<(String, usize)>, name: Seq<char>, i: int)
    requires
        0 <= i < scope.len(),
        forall|j: int| 0 <= j < i ==> scope[j].0@ != name,
    ensures
        cell_in_scope(scope, name) == cell_in_scope(scope.skip(i), name),
    decreases i,
{
    if i > 0 {
        assert(scope[0].0@ != name);
        assert forall|j: int| 0 <= j < i - 1 implies scope.drop_first()[j].0@ != name by {
            assert(scope.drop_first()[j] == scope[j + 1]);
        }
        assert(scope.drop_first().skip(i - 1) =~= scope.skip(i));
        lemma_scope_prefix(scope.drop_first(), name, i - 1);
    } else {
        assert(scope.skip(0) =~= scope);
    }
}

proof fn lemma_scope_absent(scope: Seq<(String, usize)>, name: Seq<char>)
    requires
        forall|j: int| 0 <= j < scope.len() ==> scope[j].0@ != name,
    ensures
        cell_in_scope(scope, name) is None,
    decreases scope.len(),
{
    if scope.len() > 0 {
        lemma_scope_absent(scope.drop_first(), name);
    }
}

/// `cell_in_scope` finds a cell exactly when some entry has the name, and
/// then the cell of such an entry.
proof fn lemma_scope_found(scope: Seq<(String, usize)>, name: Seq<char>)
    ensures
        cell_in_scope(scope, name) is Some <==> exists|i: int| 0 <= i < scope.len() && #[trigger] scope[i].0@ == name,
        cell_in_scope(scope, name) matches Some(c) ==> exists|i: int|
            0 <= i < scope.len() && #[trigger] scope[i].0@ == name && scope[i].1 == c,
    decreases scope.len(),
{
    if scope.len() > 0 {
        lemma_scope_found(scope.drop_first(), name);
        if scope[0].0@ != name {
            assert forall|i: int| 0 <= i < scope.len() && #[trigger] scope[i].0@ == name implies (exists|j: int|
                0 <= j < scope.drop_first().len() && #[trigger] scope.drop_first()[j].0@ == name) by {
                assert(scope.drop_first()[i - 1] == scope[i]);
            }
            if let Some(c) = cell_in_scope(scope, name) {
                let j = choose|j: int|
                    0 <= j < scope.drop_first().len() && #[trigger] scope.drop_first()[j].0@ == name
                        && scope.drop_first()[j].1 == c;
                assert(scope[j + 1] == scope.drop_first()[j]);
            }
        }
    }
}

/// `cell_of` finds a cell exactly for the bound names, and the cell it
/// finds is one that some scope binds to the name.
pub proof fn lemma_cell_of_bound(scopes: Seq<Seq<(String, usize)>>, name: Seq<char>)
    ensures
        cell_of(scopes, name) is Some <==> is_bound(scopes, name),
        cell_of(scopes, name) matches Some(c) ==> exists|k: int, i: int|
            0 <= k < scopes.len() && 0 <= i < scopes[k].len() && #[trigger] scopes[k][i].0@ == name
                && scopes[k][i].1 == c,
    decreases scopes.len(),
{
    if scopes.len() > 0 {
        let last = scopes.last();
        let rest = scopes.drop_last();
        lemma_cell_of_bound(rest, name);
        lemma_scope_found(last, name);
        if is_bound(scopes, name) {
            let (k, i) = choose|k: int, i: int|
                0 <= k < scopes.len() && 0 <= i < scopes[k].len() && #[trigger] scopes[k][i].0@ == name;
            if k < scopes.len() - 1 {
                assert(rest[k][i] == scopes[k][i]);
            } else {
                assert(last[i].0@ == name);
            }
        }
        if is_bound(rest, name) {
            let (k, i) = choose|k: int, i: int|
                0 <= k < rest.len() && 0 <= i < rest[k].len() && #[trigger] rest[k][i].0@ == name;
            assert(scopes[k][i] == rest[k][i]);
        }
        match cell_in_scope(last, name) {
            Some(c) => {
                let i = choose|i: int| 0 <= i < last.len() && #[trigger] last[i].0@ == name && last[i].1 == c;
                assert(scopes[scopes.len() - 1][i] == last[i]);
            },
            None => {
                if let Some(c) = cell_of(rest, name) {
                    let (k, i) = choose|k: int, i: int|
                        0 <= k < rest.len() && 0 <= i < rest[k].len() && #[trigger] rest[k][i].0@ == name
                            && rest[k][i].1 == c;
                    assert(scopes[k][i] == rest[k][i]);
                }
            },
        }
    }
}

/// The position in `scope` of its first entry for `name`.
fn find_entry(scope: &Vec<(String, usize)>, name: &str) -> (r: Option<usize>)
    ensures
        match r {
            Some(i) => i < scope@.len() && scope@[i as int].0@ == name@ && (forall|j: int|
                0 <= j < i ==> scope@[j].0@ != name@) && cell_in_scope(scope@, name@) == Some(
                scope@[i as int].1,
            ),
            None => cell_in_scope(scope@, name@) is None && forall|j: int|
                0 <= j < scope@.len() ==> scope@[j].0@ != name@,
        },
{
    let mut i: usize = 0;
    while i < scope.len()
        invariant
            i <= scope@.len(),
            forall|j: int| 0 <= j < i ==> scope@[j].0@ != name@,
        decreases scope@.len() - i,
    {
        if str_eq(scope[i].0.as_str(), name) {
            proof {
                lemma_scope_prefix(scope@, name@, i as int);
            }
            return Some(i);
        }
        i = i + 1;
    }
    proof {
        lemma_scope_absent(scope@, name@);
    }
    None
}

impl Env {
    /// The scopes, outermost first.
    pub closed spec fn scopes(&self) -> Seq<Seq<(String, usize)>> {
        self.scopes@.map_values(|s: Vec<(String, usize)>| s@)
    }

    /// An environment with one (global) scope and no bindings.
    pub fn new() -> (e: Env)
        ensures
            e.scopes() == seq![Seq::<(String, usize)>::empty()],
    {
        let mut scopes: Vec<Vec<(String, usize)>> = Vec::new();
        scopes.push(Vec::new());
        let e = Env { scopes };
        assert(e.scopes() =~= seq![Seq::<(String, usize)>::empty()]);
        e
    }

    /// A copy of the scopes.
    fn copy_scopes(&self) -> (r: Vec<Vec<(String, usize)>>)
        ensures
            r@.map_values(|s: Vec<(String, usize)>| s@) == self.scopes(),
    {
        let mut out: Vec<Vec<(String, usize)>> = Vec::new();
        let mut k: usize = 0;
        while k < self.scopes.len()
            invariant
                k <= self.scopes@.len(),
                out@.map_values(|s: Vec<(String, usize)>| s@) == self.scopes().take(k as int),
            decreases self.scopes@.len() - k,
        {
            let scope = &self.scopes[k];
            let mut copy: Vec<(String, usize)> = Vec::new();
            let mut i: usize = 0;
            while i < scope.len()
                invariant
                    i <= scope@.len(),
                    copy@ == scope@.take(i as int),
                decreases scope@.len() - i,
            {
                copy.push((scope[i].0.clone(), scope[i].1));
                assert(copy@ =~= scope@.take(i + 1));
                i = i + 1;
            }
            assert(scope@.take(scope@.len() as int) =~= scope@);
            let ghost before = out@;
            out.push(copy);
            assert(out@.map_values(|s: Vec<(String, usize)>| s@) =~= self.scopes().take(k + 1)) by {
                assert(before.map_values(|s: Vec<(String, usize)>| s@) =~= self.scopes().take(k as int));
                assert(out@.map_values(|s: Vec<(String, usize)>| s@).drop_last() =~= before.map_values(
                    |s: Vec<(String, usize)>| s@,
                ));
            }
            k = k + 1;
        }
        assert(self.scopes().take(self.scopes@.len() as int) =~= self.scopes());
        out
    }

    /// A copy of the environment: the same scopes, sharing their cells.
    pub fn copy(&self) -> (e: Env)
        ensures
            e.scopes() == self.scopes(),
    {
        Env { scopes: self.copy_scopes() }
    }

    /// The environment a closure call runs in: the scopes the closure
    /// captured, then the caller's scopes, then a fresh scope for the
    /// parameters. Both share their cells with the originals.
    pub fn call_frame(captured: &Env, caller: &Env) -> (e: Env)
        ensures
            e.scopes() == captured.scopes() + caller.scopes() + seq![Seq::<(String, usize)>::empty()],
    {
        let mut scopes = captured.copy_scopes();
        let mut rest = caller.copy_scopes();
        let ghost a = scopes@;
        let ghost b = rest@;
        scopes.append(&mut rest);
        scopes.push(Vec::new());
        let e = Env { scopes };
        proof {
            let want = captured.scopes() + caller.scopes() + seq![Seq::<(String, usize)>::empty()];
            assert(e.scopes().len() == want.len());
            assert forall|k: int| 0 <= k < want.len() implies e.scopes()[k] == want[k] by {
                if k < a.len() {
                    assert(e.scopes()[k] == a[k]@);
                    assert(captured.scopes()[k] == a[k]@);
                } else if k < a.len() + b.len() {
                    assert(e.scopes()[k] == b[k - a.len()]@);
                    assert(caller.scopes()[k - a.len()] == b[k - a.len()]@);
                } else {
                    assert(e.scopes()[k] == Seq::<(String, usize)>::empty());
                }
            }
            assert(e.scopes() =~= want);
        }
        e
    }

    /// Opens a new innermost scope.
    pub fn push_scope(&mut self)
        ensures
            final(self).scopes() == old(self).scopes().push(Seq::empty()),
    {
        self.scopes.push(Vec::new());
        assert(self.scopes() =~= old(self).scopes().push(Seq::empty()));
    }

    /// Closes the innermost scope; the global scope is never closed.
    pub fn pop_scope(&mut self)
        ensures
            final(self).scopes() == popped(old(self).scopes()),
    {
        if self.scopes.len() > 1 {
            self.scopes.pop();
            assert(self.scopes() =~= old(self).scopes().drop_last());
        }
    }

    /// Whether the innermost scope binds `name`; `None` without scopes.
    pub fn innermost_binds(&self, name: &str) -> (r: Option<bool>)
        ensures
            self.scopes().len() == 0 ==> r is None,
            self.scopes().len() > 0 ==> r == Some(cell_in_scope(self.scopes().last(), name@) is Some),
    {
        let n = self.scopes.len();
        if n == 0 {
            return None;
        }
        assert(self.scopes@[n - 1]@ == self.scopes().last());
        Some(find_entry(&self.scopes[n - 1], name).is_some())
    }

    /// The cell bound to `name`, looked up from the innermost scope out.
    pub fn get_cell(&self, name: &str) -> (r: Option<usize>)
        ensures
            r == cell_of(self.scopes(), name@),
    {
        let mut k = self.scopes.len();
        let ghost s = self.scopes();
        assert(s.take(k as int) =~= s);
        while k > 0
            invariant
                k <= s.len(),
                s == self.scopes(),
                cell_of(s, name@) == cell_of(s.take(k as int), name@),
            decreases k,
        {
            let found = find_entry(&self.scopes[k - 1], name);
            assert(s.take(k as int).last() == s[k - 1]);
            assert(s.take(k as int).drop_last() =~= s.take(k - 1));
            if let Some(i) = found {
                return Some(self.scopes[k - 1][i].1);
            }
            k = k - 1;
        }
        None
    }

    /// The value bound to `name`, looked up from the innermost scope out.
    pub fn get<'a>(&self, cells: &'a Cells, name: &str) -> (r: Option<&'a Value>)
        requires
            cells_below(self.scopes(), cells@.len()),
        ensures
            match value_of(self.scopes(), cells@, name@) {
                Some(v) => r matches Some(x) && *x == v,
                None => r is None,
            },
    {
        match self.get_cell(name) {
            Some(c) => {
                proof {
                    lemma_cell_of_bound(self.scopes(), name@);
                }
                Some(&cells.bindings[c].value)
            },
            None => None,
        }
    }

    /// Binds `name` to a new immutable cell holding `value` in the
    /// innermost scope (replacing its cell there, if it has one). An
    /// environment without scopes is left as it is.
    pub fn set_local(&mut self, cells: &mut Cells, name: String, value: Value)
        ensures
            old(self).scopes().len() == 0 ==> final(self).scopes() == old(self).scopes() && final(cells)@
                == old(cells)@,
            final(self).scopes() == set_scopes(old(self).scopes(), name, old(cells)@.len() as usize),
            old(self).scopes().len() > 0 ==> {
                &&& final(cells)@ == old(cells)@.push(Binding { value, mutable: false })
                &&& final(self).scopes().len() == old(self).scopes().len()
                &&& final(self).scopes().drop_last() == old(self).scopes().drop_last()
                &&& cell_of(final(self).scopes(), name@) == Some(old(cells)@.len() as usize)
                &&& forall|n: Seq<char>|
                    n != name@ ==> #[trigger] cell_in_scope(final(self).scopes().last(), n)
                        == cell_in_scope(old(self).scopes().last(), n)
                &&& forall|n: Seq<char>|
                    n != name@ ==> #[trigger] cell_of(final(self).scopes(), n) == cell_of(old(self).scopes(), n)
                &&& value_of(final(self).scopes(), final(cells)@, name@) == Some(value)
                &&& cells_below(old(self).scopes(), old(cells)@.len()) ==> {
                    &&& cells_below(final(self).scopes(), final(cells)@.len())
                    &&& forall|n: Seq<char>|
                        n != name@ ==> #[trigger] value_of(final(self).scopes(), final(cells)@, n) == value_of(
                            old(self).scopes(),
                            old(cells)@,
                            n,
                        )
                }
            },
    {
        let len = self.scopes.len();
        if len == 0 {
            return;
        }
        let id = new_cell(cells, value);
        let ghost old_scopes = self.scopes();
        let mut scope = self.scopes.pop().unwrap();
        let ghost before = scope@;
        assert(before == old_scopes.last());
        match find_entry(&scope, name.as_str()) {
            Some(i) => {
                scope.set(i, (name, id));
                proof {
                    assert forall|j: int| 0 <= j < i implies scope@[j].0@ != name@ by {
                        assert(scope@[j] == before[j]);
                    }
                    lemma_scope_prefix(scope@, name@, i as int);
                    assert(scope@.skip(i as int)[0] == scope@[i as int]);
                    assert forall|n: Seq<char>| n != name@ implies #[trigger] cell_in_scope(scope@, n)
                        == cell_in_scope(before, n) by {
                        lemma_rebind_other(before, i as int, scope@[i as int], n);
                        assert(scope@ =~= before.update(i as int, scope@[i as int]));
                    }
                    assert(scope@.len() == before.len());
                    assert forall|m: int| 0 <= m < before.len() implies scope@[m] == before[m] || scope@[m].1 == id by {
                        if m != i {
                            assert(scope@[m] == before[m]);
                        }
                    }
                    lemma_first_entry(before, name@, i as int);
                    assert(scope@ == rebind(before, scope@[i as int].0, id));
                }
            },
            None => {
                scope.push((name, id));
                proof {
                    assert forall|j: int| 0 <= j < before.len() implies scope@[j].0@ != name@ by {
                        assert(scope@[j] == before[j]);
                    }
                    lemma_scope_prefix(scope@, name@, before.len() as int);
                    assert(scope@.skip(before.len() as int)[0] == scope@[before.len() as int]);
                    assert forall|n: Seq<char>| n != name@ implies #[trigger] cell_in_scope(scope@, n)
                        == cell_in_scope(before, n) by {
                        lemma_append_other(before, scope@[before.len() as int], n);
                        assert(scope@ =~= before.push(scope@[before.len() as int]));
                    }
                    assert(scope@.len() == before.len() + 1);
                    assert forall|m: int| 0 <= m < before.len() implies scope@[m] == before[m] || scope@[m].1 == id by {
                        assert(scope@[m] == before[m]);
                    }
                    lemma_first_entry(before, name@, before.len() as int);
                    assert(scope@ == rebind(before, scope@[before.len() as int].0, id));
                }
            },
        }
        self.scopes.push(scope);
        proof {
            assert(self.scopes().drop_last() =~= old_scopes.drop_last());
            assert(self.scopes().last() == scope@);
            assert forall|n: Seq<char>| n != name@ implies #[trigger] cell_of(self.scopes(), n) == cell_of(
                old_scopes,
                n,
            ) by {
                assert(cell_in_scope(self.scopes().last(), n) == cell_in_scope(old_scopes.last(), n));
            }
            if cells_below(old_scopes, old(cells)@.len()) {
                let s = self.scopes();
                assert forall|k: int, j: int| 0 <= k < s.len() && 0 <= j < s[k].len() implies #[trigger] s[k][j].1
                    < cells@.len() by {
                    if k < s.len() - 1 {
                        assert(s[k] == s.drop_last()[k]);
                        assert(old_scopes.drop_last()[k] == old_scopes[k]);
                    } else if s[k][j].1 != id {
                        lemma_entry_cell(scope@, before, j, id);
                        assert(before[j] == old_scopes[k][j]);
                    }
                }
                assert forall|n: Seq<char>| n != name@ implies #[trigger] value_of(s, cells@, n) == value_of(
                    old_scopes,
                    old(cells)@,
                    n,
                ) by {
                    if let Some(c) = cell_of(old_scopes, n) {
                        lemma_cell_of_bound(old_scopes, n);
                        assert(cells@[c as int] == old(cells)@[c as int]);
                    }
                }
            }
        }
    }

    /// Overwrites the value of the cell bound to `name` (the innermost
    /// binding), whatever its mutability; `false` when `name` is unbound.
    pub fn set_existing(&self, cells: &mut Cells, name: &str, value: Value) -> (r: bool)
        requires
            cells_below(self.scopes(), old(cells)@.len()),
        ensures
            match cell_of(self.scopes(), name@) {
                None => !r && final(cells)@ == old(cells)@,
                Some(c) => r && final(cells)@ == old(cells)@.update(
                    c as int,
                    Binding { value, mutable: old(cells)@[c as int].mutable },
                ),
            },
    {
        match self.get_cell(name) {
            Some(c) => {
                proof {
                    lemma_cell_of_bound(self.scopes(), name@);
                }
                let mutable = cells.bindings[c].mutable;
                cells.bindings.set(c, Binding { value, mutable });
                true
            },
            None => false,
        }
    }

    /// `SET` on the cell bound to `name`: `Ok(true)` after storing `value`
    /// in a mutable cell, `Ok(false)` for an immutable cell (left as it
    /// is), `Err(())` when `name` is unbound.
    pub fn set_cell_value(&self, cells: &mut Cells, name: &str, value: Value) -> (r: Result<bool, ()>)
        requires
            cells_below(self.scopes(), old(cells)@.len()),
        ensures
            match cell_of(self.scopes(), name@) {
                None => r == Err::<bool, ()>(()) && final(cells)@ == old(cells)@,
                Some(c) => if old(cells)@[c as int].mutable {
                    r == Ok::<bool, ()>(true) && final(cells)@ == old(cells)@.update(
                        c as int,
                        Binding { value, mutable: true },
                    )
                } else {
                    r == Ok::<bool, ()>(false) && final(cells)@ == old(cells)@
                },
            },
    {
        match self.get_cell(name) {
            Some(c) => {
                proof {
                    lemma_cell_of_bound(self.scopes(), name@);
                }
                if !cells.bindings[c].mutable {
                    return Ok(false);
                }
                cells.bindings.set(c, Binding { value, mutable: true });
                Ok(true)
            },
            None => Err(()),
        }
    }

    /// Makes every cell that the environment refers to mutable (a closure
    /// call does this to the cells it captured).
    pub fn upgrade_all_to_mutable(&self, cells: &mut Cells)
        requires
            cells_below(self.scopes(), old(cells)@.len()),
        ensures
            final(cells)@ == upgraded(old(cells)@, self.scopes()),
    {
        let ghost s = self.scopes();
        let ghost start = cells@;
        let mut k: usize = 0;
        while k < self.scopes.len()
            invariant
                s == self.scopes(),
                cells_below(s, start.len()),
                k <= s.len(),
                cells@.len() == start.len(),
                forall|c: int| 0 <= c < start.len() ==> #[trigger] cells@[c].value == start[c].value,
                forall|c: int|
                    0 <= c < start.len() ==> (#[trigger] cells@[c].mutable <==> (start[c].mutable || exists|
                        k2: int,
                        i2: int,
                    | 0 <= k2 < k && 0 <= i2 < s[k2].len() && #[trigger] s[k2][i2].1 == c)),
            decreases s.len() - k,
        {
            let scope = &self.scopes[k];
            assert(scope@ == s[k as int]);
            let mut i: usize = 0;
            while i < scope.len()
                invariant
                    s == self.scopes(),
                    scope@ == s[k as int],
                    cells_below(s, start.len()),
                    k < s.len(),
                    i <= scope@.len(),
                    cells@.len() == start.len(),
                    forall|c: int| 0 <= c < start.len() ==> #[trigger] cells@[c].value == start[c].value,
                    forall|c: int|
                        0 <= c < start.len() ==> (#[trigger] cells@[c].mutable <==> (start[c].mutable || (exists|
                            k2: int,
                            i2: int,
                        | 0 <= k2 < k && 0 <= i2 < s[k2].len() && #[trigger] s[k2][i2].1 == c) || exists|i2: int|
                            0 <= i2 < i && #[trigger] scope@[i2].1 == c)),
                decreases scope@.len() - i,
            {
                let id = scope[i].1;
                assert(s[k as int][i as int].1 < start.len());
                let ghost prev = cells@;
                cells.bindings[id].mutable = true;
                assert forall|c: int| 0 <= c < start.len() implies (#[trigger] cells@[c].mutable <==> (
                start[c].mutable || (exists|k2: int, i2: int|
                    0 <= k2 < k && 0 <= i2 < s[k2].len() && #[trigger] s[k2][i2].1 == c) || exists|i2: int|
                    0 <= i2 < i + 1 && #[trigger] scope@[i2].1 == c)) by {
                    if c == id {
                        assert(scope@[i as int].1 == c);
                    } else {
                        assert(cells@[c] == prev[c]);
                        if exists|i2: int| 0 <= i2 < i + 1 && #[trigger] scope@[i2].1 == c {
                            let i2 = choose|i2: int| 0 <= i2 < i + 1 && #[trigger] scope@[i2].1 == c;
                            assert(i2 < i);
                        }
                    }
                }
                assert forall|c: int| 0 <= c < start.len() implies #[trigger] cells@[c].value == start[c].value by {
                    if c != id {
                        assert(cells@[c] == prev[c]);
                    }
                }
                i = i + 1;
            }
            assert forall|c: int| 0 <= c < start.len() implies (#[trigger] cells@[c].mutable <==> (start[c].mutable
                || exists|k2: int, i2: int| 0 <= k2 < k + 1 && 0 <= i2 < s[k2].len() && #[trigger] s[k2][i2].1 == c)) by {
                if exists|k2: int, i2: int| 0 <= k2 < k + 1 && 0 <= i2 < s[k2].len() && #[trigger] s[k2][i2].1 == c {
                    let (k2, i2) = choose|k2: int, i2: int|
                        0 <= k2 < k + 1 && 0 <= i2 < s[k2].len() && #[trigger] s[k2][i2].1 == c;
                    if k2 == k {
                        assert(scope@[i2].1 == c);
                    }
                }
                if exists|i2: int| 0 <= i2 < scope@.len() && #[trigger] scope@[i2].1 == c {
                    let i2 = choose|i2: int| 0 <= i2 < scope@.len() && #[trigger] scope@[i2].1 == c;
                    assert(s[k as int][i2].1 == c);
                }
            }
            k = k + 1;
        }
        let ghost u = upgraded(start, s);
        assert forall|c: int| 0 <= c < start.len() implies cells@[c] == u[c] by {
            assert(cells@[c].value == start[c].value);
            assert(u[c].value == start[c].value);
            assert(cells@[c].mutable == u[c].mutable);
        }
        assert(cells@ =~= u);
    }

    /// The names bound in any scope, each once.
    pub fn names(&self) -> (r: Vec<String>)
        ensures
            forall|a: int, b: int| 0 <= a < b < r@.len() ==> r@[a]@ != r@[b]@,
            forall|n: Seq<char>| #[trigger] listed(r@, n) <==> is_bound(self.scopes(), n),
    {
        let ghost s = self.scopes();
        let mut out: Vec<String> = Vec::new();
        let mut k: usize = 0;
        while k < self.scopes.len()
            invariant
                s == self.scopes(),
                k <= s.len(),
                forall|a: int, b: int| 0 <= a < b < out@.len() ==> out@[a]@ != out@[b]@,
                forall|n: Seq<char>| #[trigger] listed(out@, n) <==> bound_in_first(s, k as int, n),
            decreases s.len() - k,
        {
            let scope = &self.scopes[k];
            assert(scope@ == s[k as int]);
            let mut i: usize = 0;
            while i < scope.len()
                invariant
                    s == self.scopes(),
                    scope@ == s[k as int],
                    k < s.len(),
                    i <= scope@.len(),
                    forall|a: int, b: int| 0 <= a < b < out@.len() ==> out@[a]@ != out@[b]@,
                    forall|n: Seq<char>|
                        #[trigger] listed(out@, n) <==> (bound_in_first(s, k as int, n) || named_in_first(
                            scope@,
                            i as int,
                            n,
                        )),
                decreases scope@.len() - i,
            {
                let name = &scope[i].0;
                let mut seen = false;
                let mut j: usize = 0;
                while j < out.len()
                    invariant
                        j <= out@.len(),
                        !seen ==> forall|m: int| 0 <= m < j ==> out@[m]@ != name@,
                        seen ==> listed(out@, name@),
                    decreases out@.len() - j,
                {
                    if str_eq(out[j].as_str(), name.as_str()) {
                        seen = true;
                    }
                    j = j + 1;
                }
                let ghost prev = out@;
                if !seen {
                    out.push(name.clone());
                    assert(out@[prev.len() as int]@ == name@);
                }
                assert forall|n: Seq<char>|
                    #[trigger] listed(out@, n) <==> (bound_in_first(s, k as int, n) || named_in_first(
                        scope@,
                        i + 1,
                        n,
                    )) by {
                    if listed(out@, n) {
                        let j = choose|j: int| 0 <= j < out@.len() && out@[j]@ == n;
                        if j < prev.len() {
                            assert(prev[j]@ == n);
                            assert(listed(prev, n));
                            if named_in_first(scope@, i as int, n) {
                                let i2 = choose|i2: int| 0 <= i2 < i && scope@[i2].0@ == n;
                                assert(scope@[i2].0@ == n);
                            }
                        } else {
                            assert(scope@[i as int].0@ == n);
                        }
                    }
                    if named_in_first(scope@, i + 1, n) {
                        let i2 = choose|i2: int| 0 <= i2 < i + 1 && scope@[i2].0@ == n;
                        if i2 == i {
                            if !seen {
                                assert(out@[prev.len() as int]@ == n);
                            } else {
                                let j = choose|j: int| 0 <= j < prev.len() && prev[j]@ == n;
                                assert(out@[j] == prev[j]);
                            }
                        } else {
                            assert(named_in_first(scope@, i as int, n));
                            assert(listed(prev, n));
                            let j = choose|j: int| 0 <= j < prev.len() && prev[j]@ == n;
                            assert(out@[j] == prev[j]);
                        }
                    }
                    if bound_in_first(s, k as int, n) {
                        assert(listed(prev, n));
                        let j = choose|j: int| 0 <= j < prev.len() && prev[j]@ == n;
                        assert(out@[j] == prev[j]);
                    }
                }
                i = i + 1;
            }
            assert forall|n: Seq<char>| #[trigger] listed(out@, n) <==> bound_in_first(s, k + 1, n) by {
                if bound_in_first(s, k + 1, n) {
                    let (k2, i2) = choose|k2: int, i2: int|
                        0 <= k2 < k + 1 && 0 <= i2 < s[k2].len() && s[k2][i2].0@ == n;
                    if k2 == k {
                        assert(scope@[i2].0@ == n);
                        assert(named_in_first(scope@, scope@.len() as int, n));
                    } else {
                        assert(bound_in_first(s, k as int, n));
                    }
                }
                if named_in_first(scope@, scope@.len() as int, n) {
                    let i2 = choose|i2: int| 0 <= i2 < scope@.len() && scope@[i2].0@ == n;
                    assert(s[k as int][i2].0@ == n);
                }
                if bound_in_first(s, k as int, n) {
                    let (k2, i2) = choose|k2: int, i2: int| 0 <= k2 < k && 0 <= i2 < s[k2].len() && s[k2][i2].0@ == n;
                    assert(s[k2][i2].0@ == n);
                }
            }
            k = k + 1;
        }
        proof {
            assert forall|n: Seq<char>| #[trigger] listed(out@, n) <==> is_bound(s, n) by {
                if is_bound(s, n) {
                    let (k2, i2) = choose|k2: int, i2: int| 0 <= k2 < s.len() && 0 <= i2 < s[k2].len() && #[trigger] s[k2][i2].0@ == n;
                    assert(bound_in_first(s, s.len() as int, n));
                }
                if bound_in_first(s, s.len() as int, n) {
                    let (k2, i2) = choose|k2: int, i2: int| 0 <= k2 < s.len() && 0 <= i2 < s[k2].len() && s[k2][i2].0@ == n;
                    assert(s[k2][i2].0@ == n);
                }
            }
        }
        out
    }
}

/// `s` without its innermost scope, unless that is the only one.
pub open spec fn popped(s: Seq<Seq<(String, usize)>>) -> Seq<Seq<(String, usize)>> {
    if s.len() > 1 {
        s.drop_last()
    } else {
        s
    }
}

/// Closing a scope that was just opened gives back the scopes as they
/// were.
pub proof fn law_pop_undoes_push(s: Seq<Seq<(String, usize)>>)
    requires
        s.len() >= 1,
    ensures
        popped(s.push(Seq::empty())) == s,
{
    assert(s.push(Seq::empty()).drop_last() =~= s);
}

/// Closing a scope never closes the global scope.
pub proof fn law_global_scope_stays(s: Seq<Seq<(String, usize)>>)
    requires
        s.len() >= 1,
    ensures
        popped(s).len() >= 1,
        popped(s)[0] == s[0],
{
}

/// A name is found by a lookup exactly when some scope binds it, which is
/// what `names` lists.
pub proof fn law_lookup_finds_listed_names(s: Seq<Seq<(String, usize)>>, n: Seq<char>)
    ensures
        cell_of(s, n) is Some <==> is_bound(s, n),
{
    lemma_cell_of_bound(s, n);
}

/// Storing `v` in the cell that `n` is bound to makes `v` the value of
/// `n`, and of every name in any environment bound to the same cell (the
/// cells a closure captured are those of the scope that defined it).
pub proof fn law_shared_cell_sees_set(
    s: Seq<Seq<(String, usize)>>,
    t: Seq<Seq<(String, usize)>>,
    cells: Seq<Binding>,
    n: Seq<char>,
    m: Seq<char>,
    v: Value,
)
    requires
        cells_below(s, cells.len()),
        cell_of(s, n) is Some,
        cell_of(t, m) == cell_of(s, n),
    ensures
        value_of(s, cells.update(cell_of(s, n)->0 as int, Binding { value: v, mutable: true }), n) == Some(v),
        value_of(t, cells.update(cell_of(s, n)->0 as int, Binding { value: v, mutable: true }), m) == Some(v),
{
    lemma_cell_of_bound(s, n);
}

/// After the cells of an environment are made mutable, every name it binds
/// can be `SET`, and no cell's value has changed.
pub proof fn law_upgrade_allows_set(s: Seq<Seq<(String, usize)>>, cells: Seq<Binding>, n: Seq<char>)
    requires
        cells_below(s, cells.len()),
        cell_of(s, n) is Some,
    ensures
        upgraded(cells, s)[cell_of(s, n)->0 as int].mutable,
        upgraded(cells, s).len() == cells.len(),
        forall|c: int| 0 <= c < cells.len() ==> #[trigger] upgraded(cells, s)[c].value == cells[c].value,
{
    lemma_cell_of_bound(s, n);
    let c = cell_of(s, n)->0;
    let (k, i) = choose|k: int, i: int|
        0 <= k < s.len() && 0 <= i < s[k].len() && #[trigger] s[k][i].0@ == n && s[k][i].1 == c;
    assert(s[k][i].1 == c);
}

/// Some string of `v` is `n`.
pub open spec fn listed(v: Seq<String>, n: Seq<char>) -> bool {
    exists|j: int| 0 <= j < v.len() && v[j]@ == n
}

/// One of the first `k` scopes has an entry for `n`.
pub open spec fn bound_in_first(s: Seq<Seq<(String, usize)>>, k: int, n: Seq<char>) -> bool {
    exists|k2: int, i2: int| 0 <= k2 < k && 0 <= i2 < s[k2].len() && s[k2][i2].0@ == n
}

/// One of the first `i` entries of `scope` is for `n`.
pub open spec fn named_in_first(scope: Seq<(String, usize)>, i: int, n: Seq<char>) -> bool {
    exists|i2: int| 0 <= i2 < i && scope[i2].0@ == n
}

/// An entry of `after` whose cell is not `id` was an entry of `before`,
/// when `after` is `before` with one entry pointed at `id` or appended.
proof fn lemma_entry_cell(after: Seq<(String, usize)>, before: Seq<(String, usize)>, j: int, id: usize)
    requires
        0 <= j < after.len(),
        after[j].1 != id,
        after.len() == before.len() || after.len() == before.len() + 1,
        forall|m: int| 0 <= m < before.len() ==> after[m] == before[m] || after[m].1 == id,
        after.len() == before.len() + 1 ==> after[before.len() as int].1 == id,
    ensures
        j < before.len() && after[j] == before[j],
{
}

proof fn lemma_rebind_other(s: Seq<(String, usize)>, i: int, e: (String, usize), n: Seq<char>)
    requires
        0 <= i < s.len(),
        n != e.0@,
        s[i].0@ != n,
    ensures
        cell_in_scope(s.update(i, e), n) == cell_in_scope(s, n),
    decreases s.len(),
{
    if i > 0 {
        lemma_rebind_other(s.drop_first(), i - 1, e, n);
        assert(s.update(i, e).drop_first() =~= s.drop_first().update(i - 1, e));
    } else {
        assert(s.update(i, e).drop_first() =~= s.drop_first());
    }
}

proof fn lemma_append_other(s: Seq<(String, usize)>, e: (String, usize), n: Seq<char>)
    requires
        n != e.0@,
    ensures
        cell_in_scope(s.push(e), n) == cell_in_scope(s, n),
    decreases s.len(),
{
    if s.len() > 0 {
        lemma_append_other(s.drop_first(), e, n);
        assert(s.push(e)[0] == s[0]);
        assert(s.push(e).drop_first() =~= s.drop_first().push(e));
        assert(cell_in_scope(s.push(e).drop_first(), n) == cell_in_scope(s.drop_first(), n));
    } else {
        assert(s.push(e)[0] == e);
        assert(s.push(e).drop_first() =~= Seq::<(String, usize)>::empty());
        assert(cell_in_scope(s.push(e).drop_first(), n) is None);
    }
}

} // verus!
