//! The callback registry: which behaviour is bound to which command name.

use crate::command::ConfigurationError;
use vstd::prelude::*;

verus! {

/// A callback and the name of the command it is bound to.
pub struct CallbackEntry<F> {
    pub name: String,
    pub callback: F,
}

/// Index of the first of `names` from `from` on that equals `name`.
pub open spec fn bound_from(names: Seq<Seq<char>>, name: Seq<char>, from: int) -> Option<int>
    decreases names.len() - from,
{
    if from < 0 || from >= names.len() {
        None
    } else if names[from] == name {
        Some(from)
    } else {
        bound_from(names, name, from + 1)
    }
}

/// Where `name` is bound among `names`.
pub open spec fn bound_position(names: Seq<Seq<char>>, name: Seq<char>) -> Option<int> {
    bound_from(names, name, 0)
}

/// A search finds an index that holds the name, and finds one whenever the
/// name occurs from `from` on.
pub proof fn lemma_bound_from(names: Seq<Seq<char>>, name: Seq<char>, from: int)
    requires
        0 <= from,
    ensures
        match bound_from(names, name, from) {
            Some(i) => from <= i < names.len() && names[i] == name,
            None => forall|k: int| from <= k < names.len() ==> names[k] != name,
        },
    decreases names.len() - from,
{
    if from < names.len() && names[from] != name {
        lemma_bound_from(names, name, from + 1);
    }
}

/// Callbacks by command name, in the order they were bound. A name is bound
/// at most once.
pub struct CallbackRegistry<F> {
    entries: Vec<CallbackEntry<F>>,
}

impl<F> CallbackRegistry<F> {
    /// The bound names, in binding order.
    pub closed spec fn names(&self) -> Seq<Seq<char>> {
        self.entries@.map_values(|e: CallbackEntry<F>| e.name@)
    }

    /// The bound callbacks, in binding order.
    pub closed spec fn callbacks(&self) -> Seq<F> {
        self.entries@.map_values(|e: CallbackEntry<F>| e.callback)
    }

    /// The invariant of the registry: no name is bound twice, and every
    /// callback has its name.
    pub open spec fn well_formed(&self) -> bool {
        &&& self.names().no_duplicates()
        &&& self.names().len() == self.callbacks().len()
    }

    /// The registry with nothing bound.
    pub fn new() -> (r: CallbackRegistry<F>)
        ensures
            r.names() == Seq::<Seq<char>>::empty(),
            r.callbacks() == Seq::<F>::empty(),
            r.well_formed(),
    {
        let r = CallbackRegistry { entries: Vec::new() };
        assert(r.names() =~= Seq::empty());
        assert(r.callbacks() =~= Seq::empty());
        r
    }

    /// A registry holds no more names than a machine word counts.
    pub proof fn lemma_len_bounded(&self)
        ensures
            self.names().len() <= usize::MAX,
    {
        assert(self.entries@.len() == self.entries.len());
    }

    /// The number of bound names.
    pub fn len(&self) -> (r: usize)
        ensures
            r == self.names().len(),
    {
        self.entries.len()
    }

    /// Where `name` is bound, if it is.
    pub fn find(&self, name: &String) -> (r: Option<usize>)
        ensures
            match r {
                Some(i) => bound_position(self.names(), name@) == Some(i as int) && i
                    < self.names().len(),
                None => bound_position(self.names(), name@) is None,
            },
    {
        let ghost names = self.names();
        let mut i: usize = 0;
        while i < self.entries.len()
            invariant
                i <= self.entries@.len(),
                names == self.names(),
                bound_from(names, name@, 0) == bound_from(names, name@, i as int),
            decreases self.entries@.len() - i,
        {
            assert(names[i as int] == self.entries@[i as int].name@);
            if self.entries[i].name == *name {
                return Some(i);
            }
            i += 1;
        }
        None
    }

    /// The callback bound at index `i`.
    pub fn callback(&self, i: usize) -> (r: &F)
        requires
            i < self.names().len(),
        ensures
            *r == self.callbacks()[i as int],
    {
        &self.entries[i].callback
    }

    /// Binds `callback` to `name`. A name that is bound already keeps its
    /// callback, and the registry stays as it was.
    pub fn bind(&mut self, name: String, callback: F) -> (r: Result<(), ConfigurationError>)
        requires
            old(self).well_formed(),
        ensures
            final(self).well_formed(),
            match r {
                Ok(_) => {
                    &&& bound_position(old(self).names(), name@) is None
                    &&& final(self).names() == old(self).names().push(name@)
                    &&& final(self).callbacks() == old(self).callbacks().push(callback)
                },
                Err(e) => {
                    &&& e == ConfigurationError::DuplicateCallback
                    &&& bound_position(old(self).names(), name@) is Some
                    &&& final(self).names() == old(self).names()
                    &&& final(self).callbacks() == old(self).callbacks()
                },
            },
    {
        let ghost before = self.names();
        if self.find(&name).is_some() {
            return Err(ConfigurationError::DuplicateCallback);
        }
        proof {
            lemma_bound_from(before, name@, 0);
        }
        self.entries.push(CallbackEntry { name, callback });
        assert(self.names() =~= before.push(name@));
        assert(self.callbacks() =~= old(self).callbacks().push(callback));
        Ok(())
    }
}

} // verus!
