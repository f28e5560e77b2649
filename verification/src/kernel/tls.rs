//! The registry of thread-local storage keys.
//!
//! A key is a small integer that the guest allocates once and then uses to store one
//! word per thread.  Keys are numbered from 0 without gaps, and a key is never given out
//! twice.

use vstd::prelude::*;

verus! {

/// The keys given out so far, each with its destructor.
pub struct TlsKeys {
    destructors: Vec<Option<u64>>,
}

impl View for TlsKeys {
    type V = Seq<Option<u64>>;

    closed spec fn view(&self) -> Seq<Option<u64>> {
        self.destructors@
    }
}

/// A null function pointer is no destructor.
pub open spec fn destructor_of(dtor: u64) -> Option<u64> {
    if dtor == 0 {
        None
    } else {
        Some(dtor)
    }
}

/// The destructor of a key, if it was given out with one.
pub open spec fn dtor_at(keys: Seq<Option<u64>>, key: u32) -> Option<u64> {
    if key < keys.len() {
        keys[key as int]
    } else {
        None
    }
}

impl TlsKeys {
    pub fn new() -> (keys: Self)
        ensures
            keys@ == Seq::<Option<u64>>::empty(),
    {
        TlsKeys { destructors: Vec::new() }
    }

    /// Allocate a fresh key and record its destructor.
    pub fn create_key(&mut self, dtor: u64) -> (key: u32)
        requires
            old(self)@.len() <= u32::MAX,
        ensures
            key == old(self)@.len(),
            final(self)@ == old(self)@.push(destructor_of(dtor)),
    {
        let key: u32 = self.destructors.len() as u32;
        self.destructors.push(
            if dtor == 0 {
                None
            } else {
                Some(dtor)
            },
        );
        key
    }

    /// The destructor recorded for a key, or `None` if the key has none or was never
    /// allocated.
    pub fn get_dtor(&self, key: u32) -> (dtor: Option<u64>)
        ensures
            dtor == dtor_at(self@, key),
    {
        let i: usize = key as usize;
        if i < self.destructors.len() {
            self.destructors[i]
        } else {
            None
        }
    }

    /// One past the highest key allocated.
    pub fn max_key(&self) -> (n: usize)
        ensures
            n == self@.len(),
    {
        self.destructors.len()
    }
}

/// A new key differs from every key before it, and the destructor that it was given is
/// the one it has from then on, while the keys before it keep theirs.
pub proof fn law_keys_are_distinct(keys: Seq<Option<u64>>, dtor: u64, later: u64)
    requires
        keys.len() < u32::MAX,
    ensures
        ({
            let key = keys.len() as u32;
            let after = keys.push(destructor_of(dtor));
            &&& dtor_at(after, key) == destructor_of(dtor)
            &&& dtor_at(after.push(destructor_of(later)), key) == destructor_of(dtor)
            &&& after.len() as u32 != key
            &&& forall|k: u32|
                k < keys.len() ==> k != key && #[trigger] dtor_at(after, k) == dtor_at(keys, k)
        }),
{
}

/// A key has the destructor that it was made with; a null one is none, and so is that of a key
/// that was never made.
pub proof fn law_destructors(keys: Seq<Option<u64>>, dtor: u64, key: u32)
    ensures
        dtor == 0 ==> destructor_of(dtor) is None,
        dtor != 0 ==> destructor_of(dtor) == Some(dtor),
        key >= keys.len() ==> dtor_at(keys, key) is None,
        key < keys.len() ==> dtor_at(keys, key) == keys[key as int],
{
}

} // verus!
