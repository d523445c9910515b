use std::rc::Rc;
use vstd::prelude::*;

use crate::common::shared::share;

verus! {

/// Where a name is bound, which decides how its value is fetched.
#[derive(Debug, Clone, Copy, PartialEq, Eq, Structural)]
pub enum SymbolScope {
    Global,
    Local,
    Builtin,
    Free,
    Function,
}

/// The printed name of a scope.
pub open spec fn scope_name(scope: SymbolScope) -> Seq<char> {
    match scope {
        SymbolScope::Global => "GLOBAL"@,
        SymbolScope::Local => "LOCAL"@,
        SymbolScope::Builtin => "BUILTIN"@,
        SymbolScope::Free => "FREE"@,
        SymbolScope::Function => "FUNCTION"@,
    }
}

impl SymbolScope {
    /// The printed form of the scope.
    pub fn to_string(&self) -> (text: String)
        ensures
            text@ == scope_name(*self),
    {
        match self {
            SymbolScope::Global => "GLOBAL".to_owned(),
            SymbolScope::Local => "LOCAL".to_owned(),
            SymbolScope::Builtin => "BUILTIN".to_owned(),
            SymbolScope::Free => "FREE".to_owned(),
            SymbolScope::Function => "FUNCTION".to_owned(),
        }
    }

    /// Whether a symbol of this scope means the same in every nested scope,
    /// so that a nested scope hands it on as it is.
    pub open spec fn passes_inward(self) -> bool {
        self == SymbolScope::Global || self == SymbolScope::Builtin || self
            == SymbolScope::Function
    }
}

/// A name with the scope it is bound in and its index there.
#[derive(Debug, PartialEq, Eq)]
pub struct Symbol {
    pub name: String,
    pub scope: SymbolScope,
    pub index: usize,
}

/// What the contracts say of a symbol: the characters of its name, its scope
/// and its index.
pub struct SymbolView {
    pub name: Seq<char>,
    pub scope: SymbolScope,
    pub index: usize,
}

impl Symbol {
    pub fn new(name: &str, scope: SymbolScope, index: usize) -> (symbol: Symbol)
        ensures
            symbol@ == (SymbolView { name: name@, scope, index }),
    {
        Symbol { name: name.to_owned(), scope, index }
    }

    pub open spec fn view(&self) -> SymbolView {
        SymbolView { name: self.name@, scope: self.scope, index: self.index }
    }
}

impl Clone for Symbol {
    fn clone(&self) -> (symbol: Symbol)
        ensures
            symbol == *self,
    {
        Symbol { name: self.name.clone(), scope: self.scope, index: self.index }
    }
}

/// A symbol table as the contracts see it: the names bound in this scope,
/// how many were bound by a definition, the table of the enclosing scope, and
/// the symbols of enclosing scopes that this scope captures, in the order in
/// which it first met them.
pub struct TableView {
    pub store: Map<Seq<char>, SymbolView>,
    pub num_definitions: nat,
    pub outer: Option<Box<TableView>>,
    pub free_symbols: Seq<SymbolView>,
}

impl TableView {
    /// The table of an outermost scope with nothing bound in it.
    pub open spec fn empty() -> TableView {
        TableView {
            store: Map::empty(),
            num_definitions: 0,
            outer: None,
            free_symbols: Seq::empty(),
        }
    }

    /// The table of a new scope inside `outer`.
    pub open spec fn enclosed(outer: TableView) -> TableView {
        TableView {
            store: Map::empty(),
            num_definitions: 0,
            outer: Some(Box::new(outer)),
            free_symbols: Seq::empty(),
        }
    }

    /// The symbol that a definition of `name` makes here: global in an
    /// outermost table, local in any other, with the count of definitions so
    /// far as its index.
    pub open spec fn defined_symbol(self, name: Seq<char>) -> SymbolView {
        SymbolView {
            name,
            scope: if self.outer is None {
                SymbolScope::Global
            } else {
                SymbolScope::Local
            },
            index: self.num_definitions as usize,
        }
    }

    /// The table after a definition of `name`; an earlier binding of the
    /// name in this scope is overwritten.
    pub open spec fn define(self, name: Seq<char>) -> TableView {
        TableView {
            store: self.store.insert(name, self.defined_symbol(name)),
            num_definitions: self.num_definitions + 1,
            ..self
        }
    }

    /// The table after `name` is bound to the built-in function number
    /// `index`; the count of definitions stays.
    pub open spec fn define_builtin(self, index: usize, name: Seq<char>) -> TableView {
        TableView {
            store: self.store.insert(
                name,
                SymbolView { name, scope: SymbolScope::Builtin, index },
            ),
            ..self
        }
    }

    /// The table after `name` is bound as the name of the function whose
    /// scope this is; the count of definitions stays.
    pub open spec fn define_function_name(self, name: Seq<char>) -> TableView {
        TableView {
            store: self.store.insert(
                name,
                SymbolView { name, scope: SymbolScope::Function, index: 0 },
            ),
            ..self
        }
    }

    /// The symbol under which this scope knows a captured symbol.
    pub open spec fn free_symbol(self, captured: SymbolView) -> SymbolView {
        SymbolView {
            name: captured.name,
            scope: SymbolScope::Free,
            index: self.free_symbols.len() as usize,
        }
    }

    /// The table after it has captured `captured` from an enclosing scope.
    pub open spec fn define_free(self, captured: SymbolView) -> TableView {
        TableView {
            store: self.store.insert(captured.name, self.free_symbol(captured)),
            free_symbols: self.free_symbols.push(captured),
            ..self
        }
    }

    /// What a lookup of `name` gives, and the table after it. A name bound
    /// here is found here. Else the enclosing scope is asked: what it finds
    /// is handed on as it is where its scope is global, built-in or function,
    /// and is captured by this scope where it is local or free there.
    pub open spec fn resolve(self, name: Seq<char>) -> (Option<SymbolView>, TableView)
        decreases self,
    {
        if self.store.contains_key(name) {
            (Some(self.store[name]), self)
        } else {
            match self.outer {
                None => (None, self),
                Some(outer) => {
                    let found = outer.resolve(name);
                    let here = TableView { outer: Some(Box::new(found.1)), ..self };
                    match found.0 {
                        None => (None, here),
                        Some(symbol) => if symbol.scope.passes_inward() {
                            (Some(symbol), here)
                        } else {
                            (Some(here.free_symbol(symbol)), here.define_free(symbol))
                        },
                    }
                },
            }
        }
    }

    /// The number of scopes that enclose this one.
    pub open spec fn depth(self) -> nat
        decreases self,
    {
        match self.outer {
            None => 0,
            Some(outer) => outer.depth() + 1,
        }
    }

    /// The table `levels` scopes out from this one.
    pub open spec fn ancestor(self, levels: nat) -> TableView
        decreases levels,
    {
        if levels == 0 || self.outer is None {
            self
        } else {
            self.outer.unwrap().ancestor((levels - 1) as nat)
        }
    }

    /// Whether none of the first `levels` scopes, this one first, binds
    /// `name`.
    pub open spec fn unbound_within(self, name: Seq<char>, levels: nat) -> bool
        decreases levels,
    {
        if levels == 0 {
            true
        } else {
            !self.store.contains_key(name) && match self.outer {
                None => true,
                Some(outer) => outer.unbound_within(name, (levels - 1) as nat),
            }
        }
    }
}

/// The map from names to symbols that a list of bindings stands for: each
/// binding overwrites an earlier one of the same name.
pub open spec fn bindings_map(bindings: Seq<Rc<Symbol>>) -> Map<Seq<char>, SymbolView>
    decreases bindings.len(),
{
    if bindings.len() == 0 {
        Map::empty()
    } else {
        bindings_map(bindings.drop_last()).insert(bindings.last()@.name, bindings.last()@)
    }
}

/// The views of a list of symbols.
pub open spec fn symbol_views(symbols: Seq<Rc<Symbol>>) -> Seq<SymbolView> {
    Seq::new(symbols.len(), |i: int| symbols[i]@)
}

/// A scope's symbol table, linked to the table of the scope that encloses it.
#[derive(Debug, PartialEq, Eq)]
pub struct SymbolTable {
    /// The bindings of this scope in the order in which they were made; a
    /// later binding of a name overwrites an earlier one.
    pub store: Vec<Rc<Symbol>>,
    pub num_definitions: usize,
    pub outer: Option<Box<SymbolTable>>,
    /// The symbols of enclosing scopes that this scope captures.
    pub free_symbols: Vec<Rc<Symbol>>,
}

/// A second list of handles to the same symbols.
pub fn share_all(symbols: &Vec<Rc<Symbol>>) -> (copy: Vec<Rc<Symbol>>)
    ensures
        copy@ == symbols@,
{
    let mut copy: Vec<Rc<Symbol>> = Vec::new();
    let mut i: usize = 0;
    while i < symbols.len()
        invariant
            i <= symbols@.len(),
            copy@ == symbols@.take(i as int),
        decreases symbols@.len() - i,
    {
        copy.push(share(&symbols[i]));
        i = i + 1;
        assert(copy@ =~= symbols@.take(i as int));
    }
    assert(symbols@.take(symbols@.len() as int) =~= symbols@);
    copy
}

impl Clone for SymbolTable {
    fn clone(&self) -> (table: SymbolTable)
        ensures
            table@ == self@,
            self.wf() ==> table.wf(),
    {
        self.duplicate()
    }
}

impl Default for SymbolTable {
    fn default() -> (table: SymbolTable)
        ensures
            table.wf(),
            table@ == TableView::empty(),
    {
        let table = SymbolTable {
            store: Vec::new(),
            num_definitions: 0,
            outer: None,
            free_symbols: Vec::new(),
        };
        assert(table@.store =~= Map::empty());
        assert(table@.free_symbols =~= Seq::empty());
        table
    }
}

impl SymbolTable {
    pub open spec fn view(&self) -> TableView
        decreases self,
    {
        TableView {
            store: bindings_map(self.store@),
            num_definitions: self.num_definitions as nat,
            outer: match self.outer {
                None => None,
                Some(outer) => Some(Box::new(outer.view())),
            },
            free_symbols: symbol_views(self.free_symbols@),
        }
    }

    /// Every definition has left a binding, here and in each enclosing
    /// table.
    pub open spec fn wf(&self) -> bool
        decreases self,
    {
        &&& self.num_definitions <= self.store@.len()
        &&& match self.outer {
            None => true,
            Some(outer) => outer.wf(),
        }
    }

    /// The number of scopes that enclose this one.
    pub open spec fn depth(&self) -> nat
        decreases self,
    {
        match self.outer {
            None => 0,
            Some(outer) => outer.depth() + 1,
        }
    }

    /// A table of its own with the same bindings, and with a table of its own
    /// for each enclosing scope.
    pub fn duplicate(&self) -> (table: SymbolTable)
        ensures
            table@ == self@,
            self.wf() ==> table.wf(),
        decreases self,
    {
        let outer = match &self.outer {
            None => None,
            Some(outer) => Some(Box::new(outer.duplicate())),
        };
        SymbolTable {
            store: share_all(&self.store),
            num_definitions: self.num_definitions,
            outer,
            free_symbols: share_all(&self.free_symbols),
        }
    }

    /// A table for a new scope inside `outer`.
    pub fn new_enclosed(outer: SymbolTable) -> (table: SymbolTable)
        requires
            outer.wf(),
        ensures
            table.wf(),
            table@ == TableView::enclosed(outer@),
            table.outer == Some(Box::new(outer)),
    {
        let table = SymbolTable {
            store: Vec::new(),
            num_definitions: 0,
            outer: Some(Box::new(outer)),
            free_symbols: Vec::new(),
        };
        assert(table@.store =~= Map::empty());
        assert(table@.free_symbols =~= Seq::empty());
        table
    }

    /// The number of definitions made in this scope.
    pub fn get_num_definitions(&self) -> (n: usize)
        ensures
            n == self@.num_definitions,
    {
        self.num_definitions
    }

    /// Binds `name` in this scope: globally in an outermost table, locally in
    /// any other, under the next free index.
    pub fn define(&mut self, name: &str) -> (symbol: Rc<Symbol>)
        requires
            old(self).wf(),
        ensures
            final(self).wf(),
            final(self)@ == old(self)@.define(name@),
            symbol@ == old(self)@.defined_symbol(name@),
            final(self).outer == old(self).outer,
            final(self).free_symbols == old(self).free_symbols,
    {
        let scope = if self.outer.is_none() {
            SymbolScope::Global
        } else {
            SymbolScope::Local
        };
        let symbol = Rc::new(Symbol::new(name, scope, self.num_definitions));
        self.store.push(share(&symbol));
        let bindings = self.store.len();
        assert(self.num_definitions < bindings);
        self.num_definitions = self.num_definitions + 1;
        proof {
            assert(self.store@.drop_last() =~= old(self).store@);
            assert(self@.store =~= old(self)@.define(name@).store);
        }
        symbol
    }

    /// Binds `name` as the name of the function whose scope this is.
    pub fn define_function_name(&mut self, name: &str) -> (symbol: Rc<Symbol>)
        requires
            old(self).wf(),
        ensures
            final(self).wf(),
            final(self)@ == old(self)@.define_function_name(name@),
            symbol@ == (SymbolView { name: name@, scope: SymbolScope::Function, index: 0 }),
            final(self).outer == old(self).outer,
            final(self).free_symbols == old(self).free_symbols,
    {
        let symbol = Rc::new(Symbol::new(name, SymbolScope::Function, 0));
        self.store.push(share(&symbol));
        proof {
            assert(self.store@.drop_last() =~= old(self).store@);
            assert(self@.store =~= old(self)@.define_function_name(name@).store);
        }
        symbol
    }

    /// Binds `name` to the built-in function number `index`.
    pub fn define_builtin(&mut self, index: usize, name: &str) -> (symbol: Rc<Symbol>)
        requires
            old(self).wf(),
        ensures
            final(self).wf(),
            final(self)@ == old(self)@.define_builtin(index, name@),
            symbol@ == (SymbolView { name: name@, scope: SymbolScope::Builtin, index }),
            final(self).outer == old(self).outer,
            final(self).free_symbols == old(self).free_symbols,
    {
        let symbol = Rc::new(Symbol::new(name, SymbolScope::Builtin, index));
        self.store.push(share(&symbol));
        proof {
            assert(self.store@.drop_last() =~= old(self).store@);
            assert(self@.store =~= old(self)@.define_builtin(index, name@).store);
        }
        symbol
    }

    /// Captures a symbol of an enclosing scope: it joins the captured
    /// symbols, and its name is bound here to a free symbol whose index is
    /// its place among them.
    fn define_free(&mut self, captured: Rc<Symbol>) -> (symbol: Rc<Symbol>)
        requires
            old(self).wf(),
        ensures
            final(self).wf(),
            final(self)@ == old(self)@.define_free(captured@),
            symbol@ == old(self)@.free_symbol(captured@),
            final(self).outer == old(self).outer,
    {
        let symbol = Rc::new(
            Symbol::new(captured.name.as_str(), SymbolScope::Free, self.free_symbols.len()),
        );
        self.free_symbols.push(captured);
        self.store.push(share(&symbol));
        proof {
            assert(self.store@.drop_last() =~= old(self).store@);
            assert(self@.store =~= old(self)@.define_free(captured@).store);
            assert(self@.free_symbols =~= old(self)@.define_free(captured@).free_symbols);
        }
        symbol
    }

    /// The binding of `name` in this scope alone.
    fn lookup_here(&self, name: &str) -> (found: Option<Rc<Symbol>>)
        ensures
            found is Some <==> self@.store.contains_key(name@),
            found matches Some(symbol) ==> symbol@ == self@.store[name@],
    {
        let wanted = name.to_owned();
        let mut i = self.store.len();
        assert(self.store@.take(i as int) =~= self.store@);
        while i > 0
            invariant
                i <= self.store@.len(),
                wanted@ == name@,
                bindings_map(self.store@).contains_key(name@) == bindings_map(
                    self.store@.take(i as int),
                ).contains_key(name@),
                bindings_map(self.store@).contains_key(name@) ==> bindings_map(self.store@)[name@]
                    == bindings_map(self.store@.take(i as int))[name@],
            decreases i,
        {
            let ghost upto = self.store@.take(i as int);
            assert(upto.drop_last() =~= self.store@.take(i - 1));
            assert(upto.last() == self.store@[i - 1]);
            i = i - 1;
            if self.store[i].name == wanted {
                return Some(share(&self.store[i]));
            }
        }
        proof {
            assert(self.store@.take(0) =~= Seq::empty());
        }
        None
    }

    /// Looks `name` up, here and then in the enclosing scopes. A symbol
    /// found further out that is local or free there is captured on the way
    /// in by every scope between.
    pub fn resolve(&mut self, name: &str) -> (found: Option<Rc<Symbol>>)
        requires
            old(self).wf(),
        ensures
            final(self).wf(),
            final(self)@ == old(self)@.resolve(name@).1,
            found is Some <==> old(self)@.resolve(name@).0 is Some,
            found matches Some(symbol) ==> Some(symbol@) == old(self)@.resolve(name@).0,
        decreases old(self).depth(),
    {
        if let Some(symbol) = self.lookup_here(name) {
            return Some(symbol);
        }
        let mut enclosing = self.outer.take();
        match enclosing {
            None => None,
            Some(mut outer) => {
                let found = outer.resolve(name);
                self.outer = Some(outer);
                match found {
                    None => None,
                    Some(symbol) => {
                        if symbol.scope == SymbolScope::Global || symbol.scope
                            == SymbolScope::Builtin || symbol.scope == SymbolScope::Function {
                            Some(symbol)
                        } else {
                            Some(self.define_free(symbol))
                        }
                    },
                }
            },
        }
    }
}

/// The symbol that stands for `name` at one level of a chain of captures.
/// The chain starts `levels` scopes out from `table`, where the name is
/// bound; each scope further in knows it as a free symbol whose index is the
/// number of symbols that the scope had captured before.
pub open spec fn symbol_at_level(
    table: TableView,
    name: Seq<char>,
    levels: nat,
    level: nat,
) -> SymbolView {
    if level >= levels {
        table.ancestor(levels).store[name]
    } else {
        SymbolView {
            name,
            scope: SymbolScope::Free,
            index: table.ancestor(level).free_symbols.len() as usize,
        }
    }
}

/// A name that the scopes in between leave unbound, and that a scope
/// further out binds to a symbol that passes inward, as a global, a
/// built-in or a function name does, resolves to that symbol from the scope
/// within, and the lookup changes no table. So a global of the outermost
/// table resolves as a global from any nested scope that does not bind its
/// name again.
pub proof fn lemma_resolve_passes_inward(table: TableView, name: Seq<char>, levels: nat)
    requires
        levels <= table.depth(),
        table.unbound_within(name, levels),
        table.ancestor(levels).store.contains_key(name),
        table.ancestor(levels).store[name].scope.passes_inward(),
    ensures
        table.resolve(name).0 == Some(table.ancestor(levels).store[name]),
        table.resolve(name).1 == table,
    decreases levels,
{
    if levels > 0 {
        let outer = *table.outer.unwrap();
        lemma_resolve_passes_inward(outer, name, (levels - 1) as nat);
        assert(table.outer == Some(Box::new(outer)));
    }
}

/// A name bound `levels` scopes out to a symbol that is local or free
/// there, and unbound in the scopes between, resolves to a free symbol in
/// the scope within. The lookup leaves a chain of captures: each of the
/// scopes between, and the scope within, adds to its captured symbols the
/// symbol that the scope around it knows the name by, and from then on knows
/// the name as a free symbol with that place as its index.
pub proof fn lemma_resolve_captures(table: TableView, name: Seq<char>, levels: nat)
    requires
        1 <= levels <= table.depth(),
        table.unbound_within(name, levels),
        table.ancestor(levels).store.contains_key(name),
        !table.ancestor(levels).store[name].scope.passes_inward(),
        table.ancestor(levels).store[name].name == name,
    ensures
        table.resolve(name).0 == Some(symbol_at_level(table, name, levels, 0)),
        table.resolve(name).0.unwrap().scope == SymbolScope::Free,
        forall|level: nat|
            level < levels ==> {
                let after = #[trigger] table.resolve(name).1.ancestor(level);
                let before = table.ancestor(level);
                &&& after.free_symbols == before.free_symbols.push(
                    symbol_at_level(table, name, levels, level + 1),
                )
                &&& after.store == before.store.insert(
                    name,
                    symbol_at_level(table, name, levels, level),
                )
                &&& after.num_definitions == before.num_definitions
            },
    decreases levels,
{
    let outer = *table.outer.unwrap();
    let found = outer.resolve(name);
    let here = TableView { outer: Some(Box::new(found.1)), ..table };
    let after_all = table.resolve(name).1;
    assert(table.ancestor(levels) == outer.ancestor((levels - 1) as nat));
    if levels == 1 {
        assert(outer.ancestor(0) == outer);
        assert(found.0 == Some(outer.store[name]));
    } else {
        lemma_resolve_captures(outer, name, (levels - 1) as nat);
        assert(found.0 == Some(symbol_at_level(outer, name, (levels - 1) as nat, 0)));
    }
    let symbol = found.0.unwrap();
    assert(symbol.name == name);
    assert(!symbol.scope.passes_inward());
    assert(after_all == here.define_free(symbol));
    assert forall|level: nat| level < levels implies {
        let after = #[trigger] after_all.ancestor(level);
        let before = table.ancestor(level);
        &&& after.free_symbols == before.free_symbols.push(
            symbol_at_level(table, name, levels, level + 1),
        )
        &&& after.store == before.store.insert(name, symbol_at_level(table, name, levels, level))
        &&& after.num_definitions == before.num_definitions
    } by {
        if level == 0 {
            assert(after_all.ancestor(0) == after_all);
            assert(table.ancestor(0) == table);
            assert(table.ancestor(1) == outer.ancestor(0));
            assert(outer.ancestor(0) == outer);
            if levels > 1 {
                assert(symbol == symbol_at_level(table, name, levels, 1));
            }
        } else {
            let inner = (level - 1) as nat;
            assert(after_all.ancestor(level) == found.1.ancestor(inner));
            assert(table.ancestor(level) == outer.ancestor(inner));
            assert(table.ancestor(level + 1) == outer.ancestor(inner + 1));
            assert(symbol_at_level(table, name, levels, level) == symbol_at_level(
                outer,
                name,
                (levels - 1) as nat,
                inner,
            ));
            assert(symbol_at_level(table, name, levels, level + 1) == symbol_at_level(
                outer,
                name,
                (levels - 1) as nat,
                inner + 1,
            ));
        }
    }
}

/// A definition of a name that is bound as the function's own name in the
/// same scope takes its place: the name then resolves to the symbol that the
/// definition made.
pub proof fn lemma_definition_shadows_function_name(table: TableView, name: Seq<char>)
    ensures
        table.define_function_name(name).define(name).resolve(name).0 == Some(
            table.defined_symbol(name),
        ),
        table.define_function_name(name).define(name).resolve(name).1
            == table.define_function_name(name).define(name),
{
}

/// A lookup changes neither how many scopes enclose a table nor how many
/// definitions were made in it.
pub proof fn lemma_resolve_keeps_shape(table: TableView, name: Seq<char>)
    ensures
        table.resolve(name).1.depth() == table.depth(),
        table.resolve(name).1.num_definitions == table.num_definitions,
        table.resolve(name).1.outer is Some <==> table.outer is Some,
    decreases table,
{
    if !table.store.contains_key(name) {
        match table.outer {
            None => {},
            Some(outer) => {
                lemma_resolve_keeps_shape(*outer, name);
            },
        }
    }
}

/// The count of definitions of a table counts the definitions made in its
/// scope and nothing else: a definition adds one, while the binding of a
/// built-in function or of the function's own name, a capture and a lookup
/// leave the count as it is.
pub proof fn lemma_definitions_are_counted(
    table: TableView,
    name: Seq<char>,
    index: usize,
    captured: SymbolView,
)
    ensures
        table.define(name).num_definitions == table.num_definitions + 1,
        table.define_builtin(index, name).num_definitions == table.num_definitions,
        table.define_function_name(name).num_definitions == table.num_definitions,
        table.define_free(captured).num_definitions == table.num_definitions,
        table.resolve(name).1.num_definitions == table.num_definitions,
        TableView::enclosed(table).num_definitions == 0,
{
    lemma_resolve_keeps_shape(table, name);
}

} // verus!
