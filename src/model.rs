use vstd::prelude::*;
use crate::expr::{Native, Oexp, Term};

verus! {

/// One name and the value bound to it.
pub struct Binding {
    pub name: String,
    pub value: Oexp,
}

/// The symbol table: a flat map from names to values, which definitions
/// extend or overwrite.
pub struct Model {
    store: Vec<Binding>,
}

impl Model {
    pub closed spec fn has_name(self, k: Seq<char>, i: int) -> bool {
        0 <= i < self.store.len() && self.store[i].name@ == k
    }

    /// No name is bound twice.
    pub closed spec fn wf(self) -> bool {
        forall|i: int, j: int|
            0 <= i < self.store.len() && 0 <= j < self.store.len() && i != j
                ==> self.store[i].name@ != self.store[j].name@
    }

    proof fn lemma_view_at(self, i: int)
        requires
            self.wf(),
            0 <= i < self.store.len(),
        ensures
            self@.contains_key(self.store[i].name@),
            self@[self.store[i].name@] == self.store[i].value@,
    {
        let k = self.store[i].name@;
        assert(self.has_name(k, i));
        let j = choose|j: int| self.has_name(k, j);
        assert(j == i);
    }

    /// The value bound to `name`, if any.
    pub fn lookup(&self, name: &String) -> (r: Option<Oexp>)
        requires
            self.wf(),
        ensures
            r is None <==> !self@.contains_key(name@),
            r matches Some(v) ==> v@ == self@[name@],
    {
        let mut i: usize = 0;
        while i < self.store.len()
            invariant
                self.wf(),
                i <= self.store.len(),
                forall|j: int| 0 <= j < i ==> self.store[j].name@ != name@,
            decreases self.store.len() - i,
        {
            if self.store[i].name == *name {
                proof {
                    self.lemma_view_at(i as int);
                }
                return Some(self.store[i].value.copy());
            }
            i = i + 1;
        }
        None
    }

    /// Binds `name` to `value`, replacing any earlier binding of `name`.
    pub fn define(&mut self, name: String, value: Oexp)
        requires
            old(self).wf(),
        ensures
            final(self).wf(),
            final(self)@ == old(self)@.insert(name@, value@),
    {
        let ghost k = name@;
        let ghost v = value@;
        let ghost prev = *self;
        let mut i: usize = 0;
        while i < self.store.len()
            invariant
                *self == prev,
                prev == *old(self),
                prev.wf(),
                i <= self.store.len(),
                name@ == k,
                value@ == v,
                forall|j: int| 0 <= j < i ==> self.store[j].name@ != k,
            decreases self.store.len() - i,
        {
            if self.store[i].name == name {
                let ghost at = i as int;
                self.store.set(i, Binding { name, value });
                proof {
                    assert(self.wf());
                    assert forall|key: Seq<char>|
                        #[trigger] self@.contains_key(key) == prev@.insert(k, v).contains_key(key)
                            && (self@.contains_key(key) ==> self@[key] == prev@.insert(k, v)[key]) by {
                        if key == k {
                            self.lemma_view_at(at);
                        } else if prev@.contains_key(key) {
                            let j = choose|j: int| prev.has_name(key, j);
                            prev.lemma_view_at(j);
                            self.lemma_view_at(j);
                        } else {
                            if self@.contains_key(key) {
                                let j = choose|j: int| self.has_name(key, j);
                                assert(prev.has_name(key, j));
                            }
                        }
                    }
                    assert(self@ =~= prev@.insert(k, v));
                }
                return;
            }
            i = i + 1;
        }
        self.store.push(Binding { name, value });
        proof {
            let last = prev.store.len() as int;
            assert(self.store[last].name@ == k);
            assert(self.wf());
            assert forall|key: Seq<char>|
                #[trigger] self@.contains_key(key) == prev@.insert(k, v).contains_key(key)
                    && (self@.contains_key(key) ==> self@[key] == prev@.insert(k, v)[key]) by {
                if key == k {
                    self.lemma_view_at(last);
                } else if prev@.contains_key(key) {
                    let j = choose|j: int| prev.has_name(key, j);
                    prev.lemma_view_at(j);
                    self.lemma_view_at(j);
                } else {
                    if self@.contains_key(key) {
                        let j = choose|j: int| self.has_name(key, j);
                        assert(prev.has_name(key, j));
                    }
                }
            }
            assert(self@ =~= prev@.insert(k, v));
        }
    }
}

impl View for Model {
    type V = Map<Seq<char>, Term>;

    closed spec fn view(&self) -> Map<Seq<char>, Term> {
        Map::new(
            |k: Seq<char>| exists|i: int| self.has_name(k, i),
            |k: Seq<char>| self.store[choose|i: int| self.has_name(k, i)].value@,
        )
    }
}

/// The table a session starts with: `+` bound to the built-in sum.
pub fn new_core_model() -> (r: Model)
    ensures
        r.wf(),
        r@ == map![seq!['+'] => Term::Function(Native::Add)],
{
    let mut store: Vec<Binding> = Vec::new();
    store.push(Binding { name: String::from_str("+"), value: Oexp::Function(Native::Add) });
    let r = Model { store };
    proof {
        reveal_strlit("+");
        assert("+"@ =~= seq!['+']);
        r.lemma_view_at(0);
        assert forall|key: Seq<char>| #[trigger] r@.contains_key(key) == (key == seq!['+']) by {
            if r@.contains_key(key) {
                let j = choose|j: int| r.has_name(key, j);
            }
        }
        assert(r@ =~= map![seq!['+'] => Term::Function(Native::Add)]);
    }
    r
}

} // verus!
