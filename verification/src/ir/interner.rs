//! Symbol interning: a session-wide mapping from identifier text to compact,
//! comparable handles.
//!
//! The interning itself is done by the `string-interner` crate's
//! `StringInterner` with its string backend, held behind trusted wrappers.
//! The model is the sequence of interned strings in intern order: a symbol
//! is exactly an index into that sequence, so equal text always receives the
//! same symbol and distinct text distinct symbols, for the life of one
//! interner.

use vstd::prelude::*;

verus! {

/// An opaque, copyable, comparable handle for an interned string.
#[derive(Debug, Clone, Copy, PartialEq, Eq, Hash, Structural)]
pub struct Symbol(pub u32);

/// One interning session. Verus sees it only through `interner_strings`,
/// the sequence of strings interned so far, in intern order.
#[verifier::external_body]
pub struct Interner {
    inner: string_interner::StringInterner<string_interner::backend::StringBackend>,
}

/// The strings an interner holds, in intern order.
pub uninterp spec fn interner_strings(it: &Interner) -> Seq<Seq<char>>;

/// The largest number of strings one interner can hold: its symbols are
/// 32-bit, and one value is reserved.
pub open spec fn interner_capacity() -> int {
    0xffff_ffff
}

/// The index of the first occurrence of `name`, or the sequence's length
/// when `name` is absent.
pub open spec fn intern_index(c: Seq<Seq<char>>, name: Seq<char>) -> int
    decreases c.len(),
{
    if c.len() == 0 {
        0int
    } else if c[0] == name {
        0int
    } else {
        1 + intern_index(c.drop_first(), name)
    }
}

/// The contents after interning `name`: unchanged when known, appended when
/// new.
pub open spec fn intern_contents(c: Seq<Seq<char>>, name: Seq<char>) -> Seq<Seq<char>> {
    if c.contains(name) {
        c
    } else {
        c.push(name)
    }
}

/// The symbol interning `name` hands out: the index where `name` stands.
pub open spec fn intern_sym(c: Seq<Seq<char>>, name: Seq<char>) -> int {
    if c.contains(name) {
        intern_index(c, name)
    } else {
        c.len() as int
    }
}

/// No string stands at two indices.
pub open spec fn distinct_strings(c: Seq<Seq<char>>) -> bool {
    forall|i: int, j: int| 0 <= i < j < c.len() ==> c[i] != c[j]
}

pub proof fn lemma_intern_index(c: Seq<Seq<char>>, name: Seq<char>)
    ensures
        c.contains(name) ==> 0 <= intern_index(c, name) < c.len() && c[intern_index(c, name)]
            == name,
        !c.contains(name) ==> intern_index(c, name) == c.len(),
        forall|k: int| 0 <= k < intern_index(c, name) ==> c[k] != name,
    decreases c.len(),
{
    if c.len() > 0 && c[0] != name {
        lemma_intern_index(c.drop_first(), name);
        assert(c.contains(name) ==> c.drop_first().contains(name)) by {
            if c.contains(name) {
                let w = choose|w: int| 0 <= w < c.len() && c[w] == name;
                assert(c.drop_first()[w - 1] == name);
            }
        }
        assert(forall|k: int| 0 <= k < c.drop_first().len() ==> c.drop_first()[k] == c[k + 1]);
        if c.drop_first().contains(name) {
            let w = choose|w: int| 0 <= w < c.drop_first().len() && c.drop_first()[w] == name;
            assert(c[w + 1] == name);
        }
        assert forall|k: int| 0 <= k < intern_index(c, name) implies c[k] != name by {
            if k > 0 {
                assert(c.drop_first()[k - 1] == c[k]);
                assert(c.drop_first()[k - 1] != name);
            }
        }
    }
}

/// Interning leaves every prior entry where it stood, places `name` at the
/// returned index, and keeps entries distinct.
pub proof fn lemma_intern(c: Seq<Seq<char>>, name: Seq<char>)
    ensures
        ({
            let c2 = intern_contents(c, name);
            let s = intern_sym(c, name);
            &&& c.len() <= c2.len() <= c.len() + 1
            &&& forall|k: int| 0 <= k < c.len() ==> c2[k] == c[k]
            &&& 0 <= s < c2.len()
            &&& c2[s] == name
            &&& (distinct_strings(c) ==> distinct_strings(c2))
        }),
{
    lemma_intern_index(c, name);
    let c2 = intern_contents(c, name);
    if !c.contains(name) {
        if distinct_strings(c) {
            assert forall|i: int, j: int| 0 <= i < j < c2.len() implies c2[i] != c2[j] by {
                if j == c.len() {
                    assert(c2[j] == name);
                    assert(c[i] == c2[i]);
                    assert(!c.contains(name) ==> c[i] != name) by {
                        if c[i] == name {
                            assert(c.contains(name));
                        }
                    }
                }
            }
        }
    }
}

impl Interner {
    /// Relies on StringInterner::new: a fresh interner holds no strings.
    #[verifier::external_body]
    pub fn new() -> (r: Interner)
        ensures
            interner_strings(&r) == Seq::<Seq<char>>::empty(),
    {
        Interner { inner: string_interner::StringInterner::new() }
    }

    /// Relies on StringInterner::get_or_intern with the string backend: a
    /// string already interned keeps its symbol, the index where it stands
    /// in intern order; a new string is appended and handed the next index.
    /// The backend panics only when its 32-bit symbol space is exhausted,
    /// which the bound on the contents rules out.
    #[verifier::external_body]
    pub fn get_or_intern(&mut self, name: &str) -> (sym: Symbol)
        requires
            interner_strings(old(self)).len() < interner_capacity(),
        ensures
            interner_strings(final(self)) == intern_contents(interner_strings(old(self)), name@),
            sym.0 as int == intern_sym(interner_strings(old(self)), name@),
    {
        let s = self.inner.get_or_intern(name);
        Symbol(string_interner::Symbol::to_usize(s) as u32)
    }

    /// Relies on StringInterner::resolve: a symbol the interner handed out
    /// names the string at its index; any other symbol names nothing.
    #[verifier::external_body]
    pub fn resolve(&self, sym: Symbol) -> (r: Option<&str>)
        ensures
            match r {
                Option::Some(s) => sym.0 < interner_strings(self).len() && s@ == interner_strings(
                    self,
                )[sym.0 as int],
                Option::None => sym.0 >= interner_strings(self).len(),
            },
    {
        match <string_interner::DefaultSymbol as string_interner::Symbol>::try_from_usize(
            sym.0 as usize,
        ) {
            Option::Some(s) => self.inner.resolve(s),
            Option::None => Option::None,
        }
    }

    /// Relies on StringInterner::get: the symbol of a string already
    /// interned — the index where it stands — and nothing for one that is
    /// not.
    #[verifier::external_body]
    pub fn get(&self, name: &str) -> (r: Option<Symbol>)
        ensures
            match r {
                Option::Some(sym) => interner_strings(self).contains(name@) && sym.0 as int
                    == intern_index(interner_strings(self), name@),
                Option::None => !interner_strings(self).contains(name@),
            },
    {
        match self.inner.get(name) {
            Option::Some(s) => Option::Some(Symbol(string_interner::Symbol::to_usize(s) as u32)),
            Option::None => Option::None,
        }
    }

    /// Relies on StringInterner::len: the number of interned strings.
    #[verifier::external_body]
    pub fn len(&self) -> (r: usize)
        ensures
            r == interner_strings(self).len(),
    {
        self.inner.len()
    }
}

/// Interning is a pure function of string content: within one interner,
/// interning `a` and then `b` hands equal text the same symbol and distinct
/// text distinct symbols, and entries stay distinct.
pub proof fn lemma_intern_injective(c: Seq<Seq<char>>, a: Seq<char>, b: Seq<char>)
    requires
        distinct_strings(c),
    ensures
        ({
            let c1 = intern_contents(c, a);
            let c2 = intern_contents(c1, b);
            &&& distinct_strings(c2)
            &&& (a == b ==> intern_sym(c, a) == intern_sym(c1, b))
            &&& (a != b ==> intern_sym(c, a) != intern_sym(c1, b))
        }),
{
    let c1 = intern_contents(c, a);
    let c2 = intern_contents(c1, b);
    let sa = intern_sym(c, a);
    let sb = intern_sym(c1, b);
    lemma_intern(c, a);
    lemma_intern(c1, b);
    lemma_intern_index(c, a);
    lemma_intern_index(c1, b);
    if a == b {
        assert(c1.contains(a)) by {
            assert(c1[sa] == a);
        }
        // with distinct entries, the index of a present string is unique
        assert(c1[sb] == a);
        if sa != sb {
            assert(distinct_strings(c1));
            assert(false);
        }
    } else {
        assert(c2[sa] == a && c2[sb] == b);
    }
}

} // verus!
