use vstd::prelude::*;

use crate::text::{strings_view, text_eq};

verus! {

/// A symbol of the symbol table.
#[derive(Debug, Clone)]
pub struct Symbol {
    pub name: String,
    pub symbol_type: SymbolType,
}

/// The kinds of symbols: a variable of a type, or a function with its
/// parameter types and its return type.
#[derive(Debug, Clone)]
pub enum SymbolType {
    Variable(String),
    Function { parameters: Vec<String>, return_type: String },
}

/// A scope of symbols, each defined under a name, with the scope that
/// encloses it.
#[derive(Debug)]
pub struct SymbolTable {
    pub symbols: Vec<(String, Symbol)>,
    pub parent: Option<Box<SymbolTable>>,
}

/// What a symbol kind stands for.
pub enum SymbolTypeView {
    Variable(Seq<char>),
    Function { parameters: Seq<Seq<char>>, return_type: Seq<char> },
}

/// What a symbol stands for.
pub struct SymbolView {
    pub name: Seq<char>,
    pub symbol_type: SymbolTypeView,
}

impl View for SymbolType {
    type V = SymbolTypeView;

    open spec fn view(&self) -> SymbolTypeView {
        match self {
            SymbolType::Variable(t) => SymbolTypeView::Variable(t@),
            SymbolType::Function { parameters, return_type } => SymbolTypeView::Function {
                parameters: strings_view(parameters@),
                return_type: return_type@,
            },
        }
    }
}

impl View for Symbol {
    type V = SymbolView;

    open spec fn view(&self) -> SymbolView {
        SymbolView { name: self.name@, symbol_type: self.symbol_type@ }
    }
}

/// The entries of one scope: each name with its symbol, in the order they
/// were defined.
pub open spec fn scope_view(entries: Seq<(String, Symbol)>) -> Seq<(Seq<char>, SymbolView)> {
    entries.map_values(|e: (String, Symbol)| (e.0@, e.1@))
}

/// The symbol defined under `name` in a scope: the first entry of that name.
pub open spec fn lookup(scope: Seq<(Seq<char>, SymbolView)>, name: Seq<char>) -> Option<SymbolView>
    decreases scope.len(),
{
    if scope.len() == 0 {
        None
    } else if scope[0].0 == name {
        Some(scope[0].1)
    } else {
        lookup(scope.drop_first(), name)
    }
}

/// The symbol that `name` resolves to in a chain of scopes, the innermost
/// first: the definition in the innermost scope that has one.
pub open spec fn resolve_in(scopes: Seq<Seq<(Seq<char>, SymbolView)>>, name: Seq<char>) -> Option<
    SymbolView,
>
    decreases scopes.len(),
{
    if scopes.len() == 0 {
        None
    } else {
        match lookup(scopes[0], name) {
            Some(s) => Some(s),
            None => resolve_in(scopes.drop_first(), name),
        }
    }
}

/// The message given when `name` is defined twice in one scope.
pub open spec fn already_defined_message(name: Seq<char>) -> Seq<char> {
    "Symbol '"@ + name + "' already defined in the current scope."@
}

/// The scopes of a table, the innermost (the table itself) first.
pub open spec fn scopes_of(t: &SymbolTable) -> Seq<Seq<(Seq<char>, SymbolView)>>
    decreases t,
{
    match &t.parent {
        Some(p) => seq![scope_view(t.symbols@)] + scopes_of(p),
        None => seq![scope_view(t.symbols@)],
    }
}

impl View for SymbolTable {
    type V = Seq<Seq<(Seq<char>, SymbolView)>>;

    open spec fn view(&self) -> Seq<Seq<(Seq<char>, SymbolView)>> {
        scopes_of(self)
    }
}

impl SymbolTable {
    /// An empty scope enclosed by `parent`, if any.
    pub fn new(parent: Option<Box<SymbolTable>>) -> (t: SymbolTable)
        ensures
            t@ == match parent {
                Some(p) => seq![Seq::empty()] + p@,
                None => seq![Seq::<(Seq<char>, SymbolView)>::empty()],
            },
            t.parent == parent,
    {
        let t = SymbolTable { symbols: Vec::new(), parent };
        assert(scope_view(t.symbols@) =~= Seq::empty());
        t
    }

    /// Defines `symbol` under `name` in this scope. Fails, leaving the table
    /// unchanged, when the scope already has a symbol of that name.
    pub fn define(&mut self, name: String, symbol: Symbol) -> (r: Result<(), String>)
        ensures
            final(self).parent == old(self).parent,
            lookup(scope_view(old(self).symbols@), name@) is None ==> r is Ok && scope_view(
                final(self).symbols@,
            ) == scope_view(old(self).symbols@).push((name@, symbol@)),
            lookup(scope_view(old(self).symbols@), name@) is Some ==> (r matches Err(m) && m@
                == already_defined_message(name@) && final(self).symbols == old(self).symbols),
    {
        if self.contains_key(name.as_str()) {
            let mut m = String::from_str("Symbol '");
            m.append(name.as_str());
            m.append("' already defined in the current scope.");
            return Err(m);
        }
        let ghost before = self.symbols@;
        self.symbols.push((name, symbol));
        assert(scope_view(self.symbols@) =~= scope_view(before).push((name@, symbol@)));
        Ok(())
    }

    /// Whether this scope has a symbol under `name`.
    pub fn contains_key(&self, name: &str) -> (r: bool)
        ensures
            r == lookup(scope_view(self.symbols@), name@) is Some,
    {
        self.index_of(name).is_some()
    }

    /// The index of the first entry of this scope under `name`.
    fn index_of(&self, name: &str) -> (r: Option<usize>)
        ensures
            r is None ==> lookup(scope_view(self.symbols@), name@) is None,
            r matches Some(i) ==> i < self.symbols@.len() && lookup(scope_view(self.symbols@), name@)
                == Some(self.symbols@[i as int].1@),
    {
        let mut i: usize = 0;
        assert(scope_view(self.symbols@).skip(0) =~= scope_view(self.symbols@));
        while i < self.symbols.len()
            invariant
                i <= self.symbols@.len(),
                lookup(scope_view(self.symbols@), name@) == lookup(
                    scope_view(self.symbols@).skip(i as int),
                    name@,
                ),
            decreases self.symbols.len() - i,
        {
            let ghost rest = scope_view(self.symbols@).skip(i as int);
            assert(rest.drop_first() =~= scope_view(self.symbols@).skip(i + 1));
            if text_eq(self.symbols[i].0.as_str(), name) {
                return Some(i);
            }
            i += 1;
        }
        None
    }

    /// The symbol that `name` resolves to: the one defined in this scope, or
    /// else the one it resolves to in the enclosing scope.
    pub fn resolve(&self, name: &str) -> (r: Option<&Symbol>)
        ensures
            match r {
                Some(s) => resolve_in(self@, name@) == Some(s@),
                None => resolve_in(self@, name@) is None,
            },
        decreases self,
    {
        if let Some(i) = self.index_of(name) {
            return Some(&self.symbols[i].1);
        }
        match &self.parent {
            Some(p) => {
                let r = p.resolve(name);
                assert(self@.drop_first() =~= p@);
                assert(self@[0] == scope_view(self.symbols@));
                assert(lookup(self@[0], name@) is None);
                assert(resolve_in(self@, name@) == resolve_in(p@, name@));
                assert(match r {
                    Some(s) => resolve_in(self@, name@) == Some(s@),
                    None => resolve_in(self@, name@) is None,
                });
                r
            },
            None => {
                assert(self@ =~= seq![scope_view(self.symbols@)]);
                assert(self@.drop_first() =~= Seq::<Seq<(Seq<char>, SymbolView)>>::empty());
                assert(resolve_in(self@.drop_first(), name@) is None);
                assert(resolve_in(self@, name@) is None);
                None
            },
        }
    }
}

} // verus!
