//! A flat, mutable name-to-value store: `define` inserts or overwrites
//! unconditionally, `get` looks a name up, and `assign` overwrites only a
//! name that is already bound. Its mathematical value is a map from the
//! name's characters to the bound value.

use crate::scanner::{LiteralValue, SpecLiteral};
use vstd::hash_map::StringHashMap;
use vstd::prelude::*;
use vstd::string::StringExecFns;

verus! {

/// The message for a name that is not bound.
pub open spec fn undef_msg(name: Seq<char>) -> Seq<char> {
    "Undefined variable '"@ + name + "'"@
}

/// The message for a name that is not bound, as a string.
pub fn undef_text(name: &str) -> (r: String)
    ensures
        r@ == undef_msg(name@),
{
    let mut m = "Undefined variable '".to_owned();
    m.append(name);
    m.append("'");
    proof {
        assert(m@ =~= undef_msg(name@));
    }
    m
}

/// A single flat namespace for one execution session.
pub struct Environment {
    values: StringHashMap<LiteralValue>,
}

impl View for Environment {
    type V = Map<Seq<char>, SpecLiteral>;

    closed spec fn view(&self) -> Map<Seq<char>, SpecLiteral> {
        self.values@.map_values(|v: LiteralValue| v@)
    }
}

impl Environment {
    /// An environment with no bindings.
    pub fn new() -> (r: Self)
        ensures
            r@ == Map::<Seq<char>, SpecLiteral>::empty(),
    {
        let r = Self { values: StringHashMap::new() };
        proof {
            assert(r@ =~= Map::<Seq<char>, SpecLiteral>::empty());
        }
        r
    }

    /// Binds `name` to `value`, inserting or overwriting unconditionally.
    pub fn define(&mut self, name: String, value: LiteralValue)
        ensures
            final(self)@ == old(self)@.insert(name@, value@),
    {
        let ghost v = value@;
        self.values.insert(name, value);
        proof {
            assert(final(self)@ =~= old(self)@.insert(name@, v));
        }
    }

    /// The value bound to `name`, if any. Absence is not an error at this
    /// layer: callers decide whether it is fatal.
    pub fn get(&self, name: &str) -> (r: Option<&LiteralValue>)
        ensures
            match r {
                Option::Some(v) => self@.contains_key(name@) && v@ == self@[name@],
                Option::None => !self@.contains_key(name@),
            },
    {
        self.values.get(name)
    }

    /// Overwrites the binding of `name`, exactly when `name` is already
    /// bound; an unbound name is an error, and the store is unchanged:
    /// a failed assignment never creates a binding.
    pub fn assign(&mut self, name: &str, value: LiteralValue) -> (r: Result<(), String>)
        ensures
            old(self)@.contains_key(name@) ==> r is Ok && final(self)@ == old(self)@.insert(
                name@,
                value@,
            ),
            !old(self)@.contains_key(name@) ==> final(self)@ == old(self)@ && (r matches Err(m)
                && m@ == undef_msg(name@)),
    {
        if self.values.contains_key(name) {
            let ghost v = value@;
            self.values.insert(name.to_owned(), value);
            proof {
                assert(final(self)@ =~= old(self)@.insert(name@, v));
            }
            Ok(())
        } else {
            Err(undef_text(name))
        }
    }
}

} // verus!
