//! The key-value store that the registry talks to, as a contract: what each
//! operation returns and how it changes the stored entries.

use vstd::prelude::*;

verus! {

/// What a store holds under one key.
pub enum Entry {
    /// The bytes of a value.
    Bytes(Seq<u8>),
    /// A set of tags. A store holds no empty set: removing the last tag
    /// removes the key.
    Aliases(Set<Seq<char>>),
}

/// Why a store operation failed.
#[derive(Debug, Clone, Copy, PartialEq, Eq, Structural)]
pub enum BackendError {
    /// The store could not be reached.
    Unavailable,
}

/// The strings in `v`, as a set of views.
pub open spec fn members_of(v: Seq<String>) -> Set<Seq<char>> {
    Set::new(|t: Seq<char>| exists|i: int| 0 <= i < v.len() && #[trigger] v[i]@ == t)
}

/// The entries after `member` has left the set under `key`: a set that
/// loses its last tag leaves the store, and a key that holds no set with
/// `member` in it is left alone.
pub open spec fn without_member(
    entries: Map<Seq<char>, Entry>,
    key: Seq<char>,
    member: Seq<char>,
) -> Map<Seq<char>, Entry> {
    if holds_member(entries, key, member) {
        let rest = entries[key]->Aliases_0.remove(member);
        if rest == Set::<Seq<char>>::empty() {
            entries.remove(key)
        } else {
            entries.insert(key, Entry::Aliases(rest))
        }
    } else {
        entries
    }
}

/// Whether `key` holds a set with `member` in it.
pub open spec fn holds_member(
    entries: Map<Seq<char>, Entry>,
    key: Seq<char>,
    member: Seq<char>,
) -> bool {
    entries.contains_key(key) && entries[key] is Aliases && entries[key]->Aliases_0.contains(
        member,
    )
}

/// The tags of the set under `key`; none where `key` holds no set.
pub open spec fn set_at(entries: Map<Seq<char>, Entry>, key: Seq<char>) -> Set<Seq<char>> {
    if entries.contains_key(key) && entries[key] is Aliases {
        entries[key]->Aliases_0
    } else {
        Set::empty()
    }
}

/// The entries after `member` has joined the set under `key`. A key that
/// holds bytes is left alone.
pub open spec fn with_member(
    entries: Map<Seq<char>, Entry>,
    key: Seq<char>,
    member: Seq<char>,
) -> Map<Seq<char>, Entry> {
    if entries.contains_key(key) && !(entries[key] is Aliases) {
        entries
    } else {
        entries.insert(key, Entry::Aliases(set_at(entries, key).insert(member)))
    }
}

/// A key-value store with string values and sets of strings. Each operation
/// is atomic; nothing spans two operations. While the store is off line
/// every operation fails with [`BackendError::Unavailable`] and changes
/// nothing.
pub trait Backend: Sized {
    /// What the store holds. A store that does not say so is one of which
    /// nothing is known.
    open spec fn entries(&self) -> Map<Seq<char>, Entry> {
        arbitrary()
    }

    /// Whether the store can be reached. A store that does not say so is
    /// one of which nothing is known.
    open spec fn online(&self) -> bool {
        arbitrary()
    }

    /// Whether anything is stored under `key`.
    fn key_exists(&mut self, key: &str) -> (r: Result<bool, BackendError>)
        ensures
            final(self).entries() == old(self).entries(),
            final(self).online() == old(self).online(),
            old(self).online() ==> r == Ok::<bool, BackendError>(
                old(self).entries().contains_key(key@),
            ),
            !old(self).online() ==> r == Err::<bool, BackendError>(BackendError::Unavailable),
    ;

    /// The bytes under `key`; `None` where the key is absent or holds a
    /// set.
    fn get(&mut self, key: &str) -> (r: Result<Option<Vec<u8>>, BackendError>)
        ensures
            final(self).entries() == old(self).entries(),
            final(self).online() == old(self).online(),
            fetched(old(self).entries(), old(self).online(), key@, r),
    ;

    /// Stores `value` under `key`, in place of whatever was there.
    fn set(&mut self, key: &str, value: Vec<u8>) -> (r: Result<(), BackendError>)
        ensures
            final(self).online() == old(self).online(),
            old(self).online() ==> r is Ok && final(self).entries() == old(self).entries().insert(
                key@,
                Entry::Bytes(value@),
            ),
            !old(self).online() ==> r == Err::<(), BackendError>(BackendError::Unavailable)
                && final(self).entries() == old(self).entries(),
    ;

    /// Removes `key`, whatever it holds, and says whether it was there.
    fn delete(&mut self, key: &str) -> (r: Result<bool, BackendError>)
        ensures
            final(self).online() == old(self).online(),
            old(self).online() ==> r == Ok::<bool, BackendError>(
                old(self).entries().contains_key(key@),
            ) && final(self).entries() == old(self).entries().remove(key@),
            !old(self).online() ==> r == Err::<bool, BackendError>(BackendError::Unavailable)
                && final(self).entries() == old(self).entries(),
    ;

    /// Takes the bytes under `key` out of the store in one step. A set
    /// stays.
    fn get_and_delete(&mut self, key: &str) -> (r: Result<Option<Vec<u8>>, BackendError>)
        ensures
            final(self).online() == old(self).online(),
            fetched(old(self).entries(), old(self).online(), key@, r),
            final(self).entries() == (if r is Ok && r->Ok_0 is Some {
                old(self).entries().remove(key@)
            } else {
                old(self).entries()
            }),
    ;

    /// The tags of the set under `key`, each once, in no particular order;
    /// none where `key` is absent or holds no set.
    fn set_members(&mut self, key: &str) -> (r: Result<Vec<String>, BackendError>)
        ensures
            final(self).entries() == old(self).entries(),
            final(self).online() == old(self).online(),
            old(self).online() ==> r is Ok && members_of(r->Ok_0@) == set_at(
                old(self).entries(),
                key@,
            ),
            !old(self).online() ==> r is Err && r->Err_0 == BackendError::Unavailable,
    ;

    /// Adds `member` to the set under `key`, making the set where the key is
    /// absent.
    fn set_add(&mut self, key: &str, member: &str) -> (r: Result<(), BackendError>)
        ensures
            final(self).online() == old(self).online(),
            old(self).online() ==> r is Ok && final(self).entries() == with_member(
                old(self).entries(),
                key@,
                member@,
            ),
            !old(self).online() ==> r == Err::<(), BackendError>(BackendError::Unavailable)
                && final(self).entries() == old(self).entries(),
    ;

    /// Removes `member` from the set under `key` and says whether it was in
    /// it.
    fn set_remove(&mut self, key: &str, member: &str) -> (r: Result<bool, BackendError>)
        ensures
            final(self).online() == old(self).online(),
            old(self).online() ==> r == Ok::<bool, BackendError>(
                holds_member(old(self).entries(), key@, member@),
            ) && final(self).entries() == without_member(old(self).entries(), key@, member@),
            !old(self).online() ==> r == Err::<bool, BackendError>(BackendError::Unavailable)
                && final(self).entries() == old(self).entries(),
    ;
}

/// What reading the bytes under `key` gives: the bytes, nothing where the
/// key is absent or holds a set, and an error where the store is off line.
pub open spec fn fetched(
    entries: Map<Seq<char>, Entry>,
    online: bool,
    key: Seq<char>,
    r: Result<Option<Vec<u8>>, BackendError>,
) -> bool {
    if !online {
        r is Err && r->Err_0 == BackendError::Unavailable
    } else if entries.contains_key(key) && entries[key] is Bytes {
        r is Ok && r->Ok_0 is Some && r->Ok_0->Some_0@ == entries[key]->Bytes_0
    } else {
        r is Ok && r->Ok_0 is None
    }
}

} // verus!
