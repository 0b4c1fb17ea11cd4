//! The environment: the values that names are bound to.
//!
//! The bindings are kept in a vector and searched from the end. A hash map
//! with `String` keys finds a key by the hash and the equality of `String`,
//! of which nothing is known to the verifier; a vector lets every operation
//! be stated, and proved, over the texts of the names.

use vstd::prelude::*;
use crate::literals::{Literal, Value};

verus! {

/// A name and the value bound to it.
pub struct Binding {
    pub name: String,
    pub value: Literal,
}

/// A mapping from names to values. Binding a name again replaces its value.
pub struct Variables {
    bindings: Vec<Binding>,
}

/// The mapping that the first `n` bindings describe: a later binding of a
/// name overrides an earlier one.
pub closed spec fn bindings_map(bindings: Seq<Binding>, n: nat) -> Map<Seq<char>, Value>
    decreases n,
{
    if n == 0 {
        Map::empty()
    } else {
        bindings_map(bindings, (n - 1) as nat).insert(
            bindings[n - 1].name@,
            bindings[n - 1].value@,
        )
    }
}

/// The mapping depends only on the bindings that it covers.
proof fn lemma_bindings_map_prefix(a: Seq<Binding>, b: Seq<Binding>, n: nat)
    requires
        n <= a.len(),
        n <= b.len(),
        forall|j: int| 0 <= j < n ==> a[j] == b[j],
    ensures
        bindings_map(a, n) == bindings_map(b, n),
    decreases n,
{
    if n > 0 {
        lemma_bindings_map_prefix(a, b, (n - 1) as nat);
    }
}

/// A name that no binding after position `i` holds is mapped to the value at
/// `i`, if `i` holds it.
proof fn lemma_bindings_map_last(bindings: Seq<Binding>, n: nat, i: int, name: Seq<char>)
    requires
        0 <= i < n <= bindings.len(),
        bindings[i].name@ == name,
        forall|j: int| i < j < n ==> bindings[j].name@ != name,
    ensures
        bindings_map(bindings, n).contains_key(name),
        bindings_map(bindings, n)[name] == bindings[i].value@,
    decreases n,
{
    if n - 1 > i {
        lemma_bindings_map_last(bindings, (n - 1) as nat, i, name);
    }
}

/// A name that no binding holds is not mapped.
proof fn lemma_bindings_map_absent(bindings: Seq<Binding>, n: nat, name: Seq<char>)
    requires
        n <= bindings.len(),
        forall|j: int| 0 <= j < n ==> bindings[j].name@ != name,
    ensures
        !bindings_map(bindings, n).contains_key(name),
    decreases n,
{
    if n > 0 {
        lemma_bindings_map_absent(bindings, (n - 1) as nat, name);
    }
}

/// Replacing the value of the last binding of a name maps that name to the
/// new value and changes nothing else.
proof fn lemma_bindings_map_replace(
    before: Seq<Binding>,
    after: Seq<Binding>,
    n: nat,
    i: int,
)
    requires
        0 <= i < n <= before.len(),
        after.len() == before.len(),
        after[i].name@ == before[i].name@,
        forall|j: int| 0 <= j < n && j != i ==> after[j] == before[j],
        forall|j: int| i < j < n ==> before[j].name@ != before[i].name@,
    ensures
        bindings_map(after, n) == bindings_map(before, n).insert(
            after[i].name@,
            after[i].value@,
        ),
    decreases n,
{
    if n - 1 > i {
        lemma_bindings_map_replace(before, after, (n - 1) as nat, i);
        assert(bindings_map(after, n) =~= bindings_map(before, n).insert(
            after[i].name@,
            after[i].value@,
        ));
    } else {
        lemma_bindings_map_prefix(before, after, i as nat);
        assert(bindings_map(after, n) =~= bindings_map(before, n).insert(
            after[i].name@,
            after[i].value@,
        ));
    }
}

impl View for Variables {
    type V = Map<Seq<char>, Value>;

    closed spec fn view(&self) -> Map<Seq<char>, Value> {
        bindings_map(self.bindings@, self.bindings@.len())
    }
}

impl Variables {
    /// An environment that binds no name.
    pub fn new() -> (variables: Variables)
        ensures
            variables@ == Map::<Seq<char>, Value>::empty(),
    {
        Variables { bindings: Vec::new() }
    }

    /// The position of the last binding of `name`.
    fn position(&self, name: &String) -> (found: Option<usize>)
        ensures
            match found {
                Some(i) => i < self.bindings@.len() && self.bindings@[i as int].name@ == name@
                    && forall|j: int|
                    i < j < self.bindings@.len() ==> self.bindings@[j].name@ != name@,
                None => forall|j: int|
                    0 <= j < self.bindings@.len() ==> self.bindings@[j].name@ != name@,
            },
    {
        let mut i: usize = self.bindings.len();
        while i > 0
            invariant
                i <= self.bindings@.len(),
                forall|j: int| i <= j < self.bindings@.len() ==> self.bindings@[j].name@ != name@,
            decreases i,
        {
            i -= 1;
            if self.bindings[i].name == *name {
                return Some(i);
            }
        }
        None
    }

    /// The value bound to `name`, if any.
    pub fn get(&self, name: &String) -> (found: Option<&Literal>)
        ensures
            match found {
                Some(value) => self@.contains_key(name@) && value@ == self@[name@],
                None => !self@.contains_key(name@),
            },
    {
        match self.position(name) {
            Some(i) => {
                proof {
                    lemma_bindings_map_last(
                        self.bindings@,
                        self.bindings@.len(),
                        i as int,
                        name@,
                    );
                }
                Some(&self.bindings[i].value)
            },
            None => {
                proof {
                    lemma_bindings_map_absent(self.bindings@, self.bindings@.len(), name@);
                }
                None
            },
        }
    }

    /// Binds `name` to `value`, replacing an earlier binding of that name.
    pub fn insert(&mut self, name: String, value: Literal)
        ensures
            final(self)@ == old(self)@.insert(name@, value@),
    {
        match self.position(&name) {
            Some(i) => {
                let ghost before = self.bindings@;
                self.bindings.set(i, Binding { name, value });
                proof {
                    lemma_bindings_map_replace(before, self.bindings@, before.len(), i as int);
                }
            },
            None => {
                let ghost before = self.bindings@;
                self.bindings.push(Binding { name, value });
                proof {
                    lemma_bindings_map_prefix(before, self.bindings@, before.len());
                }
            },
        }
    }
}

impl Clone for Variables {
    fn clone(&self) -> (copy: Self)
        ensures
            copy@ == self@,
    {
        let mut bindings: Vec<Binding> = Vec::new();
        let mut i: usize = 0;
        while i < self.bindings.len()
            invariant
                i <= self.bindings@.len(),
                bindings@.len() == i,
                bindings_map(bindings@, i as nat) == bindings_map(self.bindings@, i as nat),
            decreases self.bindings.len() - i,
        {
            let ghost before = bindings@;
            bindings.push(
                Binding {
                    name: self.bindings[i].name.clone(),
                    value: self.bindings[i].value.clone(),
                },
            );
            proof {
                lemma_bindings_map_prefix(before, bindings@, i as nat);
            }
            i += 1;
        }
        Variables { bindings }
    }
}

} // verus!
