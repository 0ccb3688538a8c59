//! The scoped symbol table: a stack of lexical scopes, each binding symbols
//! to their declared kinds, over one shared interning session.
//!
//! Scopes are held as an explicit stack. Entering a block pushes a scope;
//! leaving it pops the scope and discards only its own bindings. A lookup
//! resolves to the nearest enclosing scope's binding, so an inner binding
//! shadows an outer one exactly while its scope is alive.

use vstd::prelude::*;

use crate::ir::interner::{
    Interner, Symbol, distinct_strings, intern_contents, intern_index, intern_sym,
    interner_capacity, interner_strings,
};
use crate::ir::{IrEnumVariant, IrType};

verus! {

/// What a name was declared as, with its declared shape.
#[derive(Debug)]
pub enum SymbolKind {
    Variable { name: String, ty: Option<IrType> },
    Function { name: String, params: Vec<(String, Option<IrType>)>, return_type: Option<IrType> },
    TypeAlias { name: String, ty: IrType },
    Struct { name: String, fields: Vec<(String, IrType)> },
    Enum { name: String, variants: Vec<IrEnumVariant> },
}

/// The bindings of one scope, innermost last.
pub type Scope = Vec<(Symbol, SymbolKind)>;

/// The stack of scopes, root first, with the interning session they share.
pub struct SymbolTable {
    pub scopes: Vec<Scope>,
    pub interner: Interner,
}

/// The index of the first binding of `sym` in one scope, or the scope's
/// length when `sym` is unbound there.
pub open spec fn scope_index(sc: Seq<(Symbol, SymbolKind)>, sym: Symbol) -> int
    decreases sc.len(),
{
    if sc.len() == 0 {
        0int
    } else if sc[0].0 == sym {
        0int
    } else {
        1 + scope_index(sc.drop_first(), sym)
    }
}

pub open spec fn scope_binds(sc: Seq<(Symbol, SymbolKind)>, sym: Symbol) -> bool {
    exists|j: int| 0 <= j < sc.len() && sc[j].0 == sym
}

/// The model of the scope stack.
pub open spec fn scopes_view(scopes: Seq<Scope>) -> Seq<Seq<(Symbol, SymbolKind)>> {
    scopes.map_values(|sc: Scope| sc@)
}

/// The nearest enclosing binding of `sym`, looking from scope `k` outward.
pub open spec fn lookup_from(sv: Seq<Seq<(Symbol, SymbolKind)>>, k: int, sym: Symbol) -> Option<
    SymbolKind,
>
    decreases k + 1,
{
    if k < 0 || k >= sv.len() {
        Option::None
    } else if scope_binds(sv[k], sym) {
        Option::Some(sv[k][scope_index(sv[k], sym)].1)
    } else {
        lookup_from(sv, k - 1, sym)
    }
}

/// The binding a lookup of `name` resolves to: the nearest enclosing scope's
/// binding of `name`'s symbol, and nothing when `name` was never interned or
/// never bound.
pub open spec fn lookup_name(t: SymbolTable, name: Seq<char>) -> Option<SymbolKind> {
    let c = interner_strings(&t.interner);
    if c.contains(name) {
        lookup_from(
            scopes_view(t.scopes@),
            t.scopes@.len() - 1,
            Symbol(intern_index(c, name) as u32),
        )
    } else {
        Option::None
    }
}

pub proof fn lemma_scope_index(sc: Seq<(Symbol, SymbolKind)>, sym: Symbol)
    ensures
        scope_binds(sc, sym) ==> 0 <= scope_index(sc, sym) < sc.len() && sc[scope_index(
            sc,
            sym,
        )].0 == sym,
        !scope_binds(sc, sym) ==> scope_index(sc, sym) == sc.len(),
    decreases sc.len(),
{
    if sc.len() > 0 && sc[0].0 != sym {
        lemma_scope_index(sc.drop_first(), sym);
        assert(forall|k: int| 0 <= k < sc.drop_first().len() ==> sc.drop_first()[k] == sc[k + 1]);
        if scope_binds(sc, sym) {
            let w = choose|w: int| 0 <= w < sc.len() && sc[w].0 == sym;
            assert(sc.drop_first()[w - 1].0 == sym);
        }
        if scope_binds(sc.drop_first(), sym) {
            let w = choose|w: int|
                0 <= w < sc.drop_first().len() && sc.drop_first()[w].0 == sym;
            assert(sc[w + 1].0 == sym);
        }
    }
}

impl SymbolTable {
    /// Every bound symbol was handed out by the interner, and the interner's
    /// entries are distinct.
    pub open spec fn wf(&self) -> bool {
        &&& self.scopes@.len() >= 1
        &&& distinct_strings(interner_strings(&self.interner))
        &&& forall|k: int, j: int|
            0 <= k < self.scopes@.len() && 0 <= j < self.scopes@[k]@.len()
                ==> (#[trigger] self.scopes@[k]@[j].0).0 < interner_strings(&self.interner).len()
    }

    /// The interner's contents.
    pub open spec fn contents(&self) -> Seq<Seq<char>> {
        interner_strings(&self.interner)
    }

    /// A table with one empty root scope over the given interning session.
    pub fn new(interner: Interner) -> (r: Self)
        requires
            distinct_strings(interner_strings(&interner)),
        ensures
            r.wf(),
            r.contents() == interner_strings(&interner),
            r.scopes@.len() == 1,
            r.scopes@[0]@ =~= Seq::<(Symbol, SymbolKind)>::empty(),
    {
        let mut scopes: Vec<Scope> = Vec::new();
        scopes.push(Vec::new());
        SymbolTable { scopes, interner }
    }

    /// Enters a child scope of the current innermost scope.
    pub fn with_parent(&mut self)
        requires
            old(self).wf(),
        ensures
            final(self).wf(),
            final(self).contents() == old(self).contents(),
            final(self).scopes@.len() == old(self).scopes@.len() + 1,
            forall|k: int|
                0 <= k < old(self).scopes@.len() ==> final(self).scopes@[k] == old(self).scopes@[k],
            final(self).scopes@.last()@ =~= Seq::<(Symbol, SymbolKind)>::empty(),
    {
        self.scopes.push(Vec::new());
    }

    /// Leaves the current innermost scope, discarding its bindings; the
    /// enclosing scopes' bindings persist.
    pub fn leave_scope(&mut self)
        requires
            old(self).wf(),
            old(self).scopes@.len() > 1,
        ensures
            final(self).wf(),
            final(self).contents() == old(self).contents(),
            final(self).scopes@ == old(self).scopes@.drop_last(),
    {
        let _ = self.scopes.pop();
    }

    /// Interns `name` in the shared session and hands back its symbol.
    pub fn get_or_intern(&mut self, name: &str) -> (sym: Symbol)
        requires
            old(self).wf(),
            old(self).contents().len() < interner_capacity(),
        ensures
            final(self).wf(),
            final(self).contents() == intern_contents(old(self).contents(), name@),
            sym.0 as int == intern_sym(old(self).contents(), name@),
            final(self).scopes == old(self).scopes,
    {
        proof {
            crate::ir::interner::lemma_intern(interner_strings(&self.interner), name@);
        }
        self.interner.get_or_intern(name)
    }

    /// Interns `name` and binds it in the current innermost scope, returning
    /// the binding it replaces there — a duplicate declaration in the same
    /// scope, never a shadowed outer binding.
    pub fn insert(&mut self, name: &str, kind: SymbolKind) -> (prior: Option<SymbolKind>)
        requires
            old(self).wf(),
            old(self).contents().len() < interner_capacity(),
        ensures
            final(self).wf(),
            final(self).contents() == intern_contents(old(self).contents(), name@),
            final(self).scopes@.len() == old(self).scopes@.len(),
            forall|k: int|
                0 <= k < old(self).scopes@.len() - 1 ==> final(self).scopes@[k] == old(
                    self,
                ).scopes@[k],
            ({
                let sym = Symbol(intern_sym(old(self).contents(), name@) as u32);
                let sc = old(self).scopes@.last()@;
                let j = scope_index(sc, sym);
                if scope_binds(sc, sym) {
                    prior == Option::Some(sc[j].1) && final(self).scopes@.last()@ =~= sc.update(
                        j,
                        (sym, kind),
                    )
                } else {
                    prior is None && final(self).scopes@.last()@ =~= sc.push((sym, kind))
                }
            }),
    {
        let ghost c0 = interner_strings(&old(self).interner);
        let sym = self.get_or_intern(name);
        proof {
            crate::ir::interner::lemma_intern(c0, name@);
            assert(sym == Symbol(intern_sym(c0, name@) as u32));
        }
        let ghost sc0 = self.scopes@.last()@;
        let mut top_sc = match self.scopes.pop() {
            Option::Some(sc) => sc,
            Option::None => Vec::new(),
        };
        proof {
            lemma_scope_index(sc0, sym);
            assert(sym.0 < interner_strings(&self.interner).len());
            assert forall|k: int, jj: int|
                0 <= k < self.scopes@.len() && 0 <= jj
                    < self.scopes@[k]@.len() implies (#[trigger] self.scopes@[k]@[jj].0).0
                < interner_strings(&self.interner).len() by {
                assert(self.scopes@[k] == old(self).scopes@[k]);
                assert(old(self).scopes@[k]@[jj].0.0 < interner_strings(&old(self).interner).len());
            }
            assert forall|jj: int|
                0 <= jj < sc0.len() implies (#[trigger] sc0[jj].0).0 < interner_strings(
                &self.interner,
            ).len() by {
                let last = old(self).scopes@.len() - 1;
                assert(old(self).scopes@[last]@[jj].0.0 < interner_strings(
                    &old(self).interner,
                ).len());
            }
        }
        let sc_len = top_sc.len();
        let mut j: usize = 0;
        while j < sc_len
            invariant
                0 <= j <= sc_len,
                top_sc@ == sc0,
                sc_len == sc0.len(),
                old(self).scopes@.len() >= 1,
                self.scopes@ == old(self).scopes@.drop_last(),
                sc0 == old(self).scopes@.last()@,
                interner_strings(&self.interner) == intern_contents(
                    interner_strings(&old(self).interner),
                    name@,
                ),
                sym.0 as int == intern_sym(interner_strings(&old(self).interner), name@),
                distinct_strings(interner_strings(&self.interner)),
                forall|k: int, jj: int|
                    0 <= k < self.scopes@.len() && 0 <= jj < self.scopes@[k]@.len() ==> (
                    #[trigger] self.scopes@[k]@[jj].0).0 < interner_strings(&self.interner).len(),
                forall|jj: int|
                    0 <= jj < sc0.len() ==> (#[trigger] sc0[jj].0).0 < interner_strings(
                        &self.interner,
                    ).len(),
                sym.0 < interner_strings(&self.interner).len(),
                forall|w: int| 0 <= w < j ==> sc0[w].0 != sym,
            decreases sc_len - j,
        {
            if top_sc[j].0.0 == sym.0 {
                proof {
                    assert(sc0[j as int].0 == sym);
                    assert(scope_binds(sc0, sym));
                    lemma_scope_index_unique(sc0, sym, j as int);
                }
                let entry = top_sc.remove(j);
                top_sc.insert(j, (sym, kind));
                proof {
                    assert(top_sc@ =~= sc0.update(j as int, (sym, kind)));
                }
                self.scopes.push(top_sc);
                proof {
                    assert(forall|k: int|
                        0 <= k < old(self).scopes@.len() - 1 ==> self.scopes@[k] == old(
                            self,
                        ).scopes@[k]);
                    assert(self.scopes@.last()@ =~= sc0.update(j as int, (sym, kind)));
                }
                return Option::Some(entry.1);
            }
            j = j + 1;
        }
        proof {
            assert(!scope_binds(sc0, sym));
        }
        top_sc.push((sym, kind));
        self.scopes.push(top_sc);
        proof {
            assert(forall|k: int|
                0 <= k < old(self).scopes@.len() - 1 ==> self.scopes@[k] == old(self).scopes@[k]);
            assert(self.scopes@.last()@ =~= sc0.push((sym, kind)));
        }
        Option::None
    }

    /// The nearest enclosing binding of `name`: the current scope's, else
    /// the closest parent's; nothing when no scope binds `name`.
    pub fn get(&self, name: &str) -> (r: Option<&SymbolKind>)
        requires
            self.wf(),
        ensures
            match r {
                Option::Some(k) => lookup_name(*self, name@) == Option::Some(*k),
                Option::None => lookup_name(*self, name@) is None,
            },
    {
        let sym_opt = self.interner.get(name);
        match sym_opt {
            Option::None => Option::None,
            Option::Some(sym) => {
                let ghost sv = scopes_view(self.scopes@);
                proof {
                    assert(sym == Symbol(
                        intern_index(interner_strings(&self.interner), name@) as u32,
                    ));
                    assert(sv.len() == self.scopes@.len());
                    assert(forall|w: int|
                        0 <= w < self.scopes@.len() ==> sv[w] == #[trigger] self.scopes@[w]@);
                }
                let mut k = self.scopes.len();
                while k > 0
                    invariant
                        0 <= k <= self.scopes@.len(),
                        sv == scopes_view(self.scopes@),
                        interner_strings(&self.interner).contains(name@),
                        sym.0 as int == intern_index(interner_strings(&self.interner), name@),
                        lookup_from(sv, self.scopes@.len() - 1, sym) == lookup_from(
                            sv,
                            k - 1,
                            sym,
                        ),
                    decreases k,
                {
                    k = k - 1;
                    let sc_len = self.scopes[k].len();
                    let mut j: usize = 0;
                    proof {
                        lemma_scope_index(sv[k as int], sym);
                    }
                    while j < sc_len
                        invariant
                            0 <= j <= sc_len,
                            0 <= k < self.scopes@.len(),
                            sv == scopes_view(self.scopes@),
                            sc_len == sv[k as int].len(),
                            interner_strings(&self.interner).contains(name@),
                            sym.0 as int == intern_index(interner_strings(&self.interner), name@),
                            lookup_from(sv, self.scopes@.len() - 1, sym) == lookup_from(
                                sv,
                                k as int,
                                sym,
                            ),
                            forall|w: int| 0 <= w < j ==> sv[k as int][w].0 != sym,
                        decreases sc_len - j,
                    {
                        if self.scopes[k][j].0.0 == sym.0 {
                            proof {
                                assert(sv[k as int][j as int].0 == sym);
                                assert(scope_binds(sv[k as int], sym));
                                lemma_scope_index_unique(sv[k as int], sym, j as int);
                                assert(lookup_from(sv, k as int, sym) == Option::Some(
                                    sv[k as int][j as int].1,
                                ));
                                assert(lookup_from(sv, self.scopes@.len() - 1, sym)
                                    == Option::Some(sv[k as int][j as int].1));
                                assert(lookup_name(*self, name@) == Option::Some(
                                    sv[k as int][j as int].1,
                                ));
                                assert(self.scopes@[k as int]@[j as int] == sv[k as int][j as int]);
                            }
                            return Option::Some(&self.scopes[k][j].1);
                        }
                        j = j + 1;
                    }
                    proof {
                        assert(!scope_binds(sv[k as int], sym));
                    }
                }
                Option::None
            },
        }
    }

    /// Whether any scope binds `name`.
    pub fn contains(&self, name: &str) -> (r: bool)
        requires
            self.wf(),
        ensures
            r == (lookup_name(*self, name@) is Some),
    {
        match self.get(name) {
            Option::Some(_) => true,
            Option::None => false,
        }
    }

    /// The current innermost scope's own bindings, in binding order.
    pub fn all_symbols(&self) -> (r: &Vec<(Symbol, SymbolKind)>)
        requires
            self.wf(),
        ensures
            r@ == self.scopes@.last()@,
    {
        let top = self.scopes.len() - 1;
        &self.scopes[top]
    }

    /// The nearest enclosing binding of `name`, or an unresolved-symbol
    /// error carrying the name.
    pub fn expect(&self, name: &str) -> (r: Result<&SymbolKind, String>)
        requires
            self.wf(),
        ensures
            match r {
                Ok(k) => lookup_name(*self, name@) == Option::Some(*k),
                Err(msg) => lookup_name(*self, name@) is None && msg@ == "Unresolved symbol: `"@
                    + name@ + "`"@,
            },
    {
        match self.get(name) {
            Option::Some(k) => Ok(k),
            Option::None => {
                let mut msg = String::from_str("Unresolved symbol: `");
                msg.append(name);
                msg.append("`");
                Err(msg)
            },
        }
    }
}

/// A scope's first binding of `sym` is the only one the scan can reach.
proof fn lemma_scope_index_unique(sc: Seq<(Symbol, SymbolKind)>, sym: Symbol, j: int)
    requires
        0 <= j < sc.len(),
        sc[j].0 == sym,
        forall|w: int| 0 <= w < j ==> sc[w].0 != sym,
    ensures
        scope_index(sc, sym) == j,
    decreases sc.len(),
{
    if j > 0 {
        assert(sc[0].0 != sym);
        assert(forall|k: int| 0 <= k < sc.drop_first().len() ==> sc.drop_first()[k] == sc[k + 1]);
        lemma_scope_index_unique(sc.drop_first(), sym, j - 1);
    }
}

/// Shadowing: while a child scope binding `sym` is active, the lookup
/// returns the child's binding; once the child scope is popped, every lookup
/// returns whatever the enclosing scopes bound — or nothing.
pub proof fn lemma_shadowing(
    sv: Seq<Seq<(Symbol, SymbolKind)>>,
    child: Seq<(Symbol, SymbolKind)>,
    sym: Symbol,
)
    requires
        scope_binds(child, sym),
    ensures
        lookup_from(sv.push(child), sv.len() as int, sym) == Option::Some(
            child[scope_index(child, sym)].1,
        ),
        sv.push(child).drop_last() =~= sv,
        forall|s2: Symbol|
            #[trigger] lookup_from(sv.push(child).drop_last(), sv.len() - 1, s2) == lookup_from(
                sv,
                sv.len() - 1,
                s2,
            ),
{
    assert(sv.push(child)[sv.len() as int] == child);
    assert(sv.push(child).drop_last() =~= sv);
}

} // verus!
