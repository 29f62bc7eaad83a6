//! The manifest engine: where a manifest lives in the store, how a tag or a
//! digest is resolved to it, and what deleting by either removes.
//!
//! Nothing here spans two store operations in one transaction. What the
//! contracts say of a sequence of operations holds while no other writer
//! touches the same keys: the last writer wins.

use crate::backend::{
    holds_member, members_of, set_at, without_member, Backend, BackendError, Entry,
};
use crate::codec::manifest_in;
use crate::descriptor::{Manifest, ManifestView};
use crate::tags::{
    ascii_len, digest_valid, groups_ok, groups_valid, is_accepted_digest, is_joiner,
    is_lower_alnum, is_reference_valid, reference_valid,
};
use vstd::prelude::*;
use vstd::string::*;

verus! {

broadcast use {vstd::set::group_set_axioms, vstd::map::group_map_axioms};

/// How many aliases a lookup follows before it gives up.
pub const MAX_ALIAS_DEPTH: u8 = 8;

/// Why the registry could not answer.
#[derive(Debug, Clone, Copy, PartialEq, Eq, Structural)]
pub enum RegistryError {
    /// The name or the reference is outside its grammar. Callers report it
    /// as "not found".
    InvalidReference,
    /// No manifest can be reached from the reference.
    NotFound,
    /// The store could not be reached.
    BackendUnavailable,
    /// The stored bytes do not decode as a manifest.
    DecodeError,
}

/// The outcome of a request, as a transport reports it.
#[derive(Debug, Clone, Copy, PartialEq, Eq, Structural)]
pub enum Status {
    Success,
    Accepted,
    NotFound,
    InternalServerError,
}

/// The grammar of repository names: path segments joined by `/`, each made
/// of groups of lowercase letters and digits joined by `.`, `_` or `-`.
pub open spec fn manifest_name_valid(name: Seq<char>) -> bool {
    groups_valid(name, true)
}

/// A request names a repository and a tag or a digest.
pub open spec fn request_valid(name: Seq<char>, reference: Seq<char>) -> bool {
    manifest_name_valid(name) && reference_valid(reference)
}

/// The key of the manifest stored for `reference`:
/// `manifest::<name>::<reference>`.
pub open spec fn manifest_key(name: Seq<char>, reference: Seq<char>) -> Seq<char> {
    "manifest"@ + "::"@ + name + "::"@ + reference
}

/// The key of the set of tags that alias `digest`:
/// `manifest::<name>::<digest>::alias`.
pub open spec fn alias_key(name: Seq<char>, digest: Seq<char>) -> Seq<char> {
    "manifest"@ + "::"@ + name + "::"@ + digest + "::"@ + "alias"@
}

/// Whether the store holds a manifest key or an alias set for `reference`.
/// An alias set counts even where none of its tags has a manifest.
pub open spec fn present(
    entries: Map<Seq<char>, Entry>,
    name: Seq<char>,
    reference: Seq<char>,
) -> bool {
    entries.contains_key(manifest_key(name, reference)) || entries.contains_key(
        alias_key(name, reference),
    )
}

/// The tags that alias `digest`.
pub open spec fn aliases(
    entries: Map<Seq<char>, Entry>,
    name: Seq<char>,
    digest: Seq<char>,
) -> Set<Seq<char>> {
    set_at(entries, alias_key(name, digest))
}

/// Whether `key` holds bytes.
pub open spec fn holds_bytes(entries: Map<Seq<char>, Entry>, key: Seq<char>) -> bool {
    entries.contains_key(key) && entries[key] is Bytes
}

/// The manifest that the bytes under `key` stand for; none where the key
/// holds no bytes or the bytes do not decode.
pub open spec fn manifest_at(entries: Map<Seq<char>, Entry>, key: Seq<char>) -> Option<
    ManifestView,
> {
    if holds_bytes(entries, key) {
        manifest_in(entries[key]->Bytes_0)
    } else {
        None
    }
}

/// What a lookup can end in.
pub enum Lookup {
    Found(ManifestView),
    Corrupt,
    Missing,
}

/// `tag` aliases `reference` and is live: it is a valid reference that the
/// store holds something for.
pub open spec fn follows(
    entries: Map<Seq<char>, Entry>,
    name: Seq<char>,
    reference: Seq<char>,
    tag: Seq<char>,
) -> bool {
    aliases(entries, name, reference).contains(tag) && request_valid(name, tag) && present(
        entries,
        name,
        tag,
    )
}

/// Whether a lookup of `reference` that may still follow `fuel` aliases can
/// end in `outcome`. Bytes under the reference's own key decide alone: the
/// manifest they stand for, or `Corrupt` where they do not decode. Without one the lookup follows a live alias, any of them, and
/// ends where the lookup of that tag ends; it is `Missing` where no alias is
/// live or no fuel is left.
pub open spec fn admits(
    entries: Map<Seq<char>, Entry>,
    name: Seq<char>,
    reference: Seq<char>,
    fuel: nat,
    outcome: Lookup,
) -> bool
    decreases fuel,
{
    let key = manifest_key(name, reference);
    if holds_bytes(entries, key) {
        outcome == (match manifest_at(entries, key) {
            Some(m) => Lookup::Found(m),
            None => Lookup::Corrupt,
        })
    } else if fuel == 0 {
        outcome == Lookup::Missing
    } else if exists|t: Seq<char>| follows(entries, name, reference, t) {
        exists|t: Seq<char>|
            follows(entries, name, reference, t) && admits(
                entries,
                name,
                t,
                (fuel - 1) as nat,
                outcome,
            )
    } else {
        outcome == Lookup::Missing
    }
}

/// The lookup outcome that a result of [`manifest`] stands for; none for
/// the failures that are no outcome of a lookup.
pub open spec fn lookup_of(r: Result<Manifest, RegistryError>) -> Option<Lookup> {
    match r {
        Ok(m) => Some(Lookup::Found(m@)),
        Err(RegistryError::NotFound) => Some(Lookup::Missing),
        Err(RegistryError::DecodeError) => Some(Lookup::Corrupt),
        Err(_) => None,
    }
}

/// The manifest keys of `tags`.
pub open spec fn tag_keys(name: Seq<char>, tags: Set<Seq<char>>) -> Set<Seq<char>> {
    Set::new(|k: Seq<char>| exists|t: Seq<char>| tags.contains(t) && k == manifest_key(name, t))
}

/// The keys that a cascade through the aliases of `digest` removes: the
/// manifest key of each aliasing tag and the alias set's own key.
pub open spec fn sweep_keys(
    entries: Map<Seq<char>, Entry>,
    name: Seq<char>,
    digest: Seq<char>,
) -> Set<Seq<char>> {
    tag_keys(name, aliases(entries, name, digest)).insert(alias_key(name, digest))
}

/// The entries after a cascade through the aliases of `digest`.
pub open spec fn swept(
    entries: Map<Seq<char>, Entry>,
    name: Seq<char>,
    digest: Seq<char>,
) -> Map<Seq<char>, Entry> {
    entries.remove_keys(sweep_keys(entries, name, digest))
}

/// How many keys a cascade through the aliases of `digest` removes.
pub open spec fn sweep_count(
    entries: Map<Seq<char>, Entry>,
    name: Seq<char>,
    digest: Seq<char>,
) -> nat {
    sweep_keys(entries, name, digest).intersect(entries.dom()).len()
}

/// The entries after `reference` has been deleted. An invalid request
/// changes nothing. Bytes under the reference's own key leave the store,
/// and nothing else does where they do not decode; then a digest takes every tag that aliases it and the alias set
/// along, while a tag only leaves the alias set of the digest of its
/// manifest's configuration. With no manifest under its own key the
/// reference is swept as a digest.
pub open spec fn after_delete(
    entries: Map<Seq<char>, Entry>,
    name: Seq<char>,
    reference: Seq<char>,
) -> Map<Seq<char>, Entry> {
    let key = manifest_key(name, reference);
    if !request_valid(name, reference) {
        entries
    } else if holds_bytes(entries, key) {
        match manifest_at(entries, key) {
            None => entries.remove(key),
            Some(m) => if digest_valid(reference) {
                swept(entries.remove(key), name, reference)
            } else {
                without_member(entries.remove(key), alias_key(name, m.config.digest), reference)
            },
        }
    } else {
        swept(entries, name, reference)
    }
}

/// What deleting `reference` returns while the store is on line: the number
/// of keys removed. A digest counts its own manifest key, the manifest key
/// of each aliasing tag and the alias set. A tag counts one where it left
/// the alias set of its digest, else none.
pub open spec fn delete_result(
    entries: Map<Seq<char>, Entry>,
    name: Seq<char>,
    reference: Seq<char>,
) -> Result<nat, RegistryError> {
    let key = manifest_key(name, reference);
    if !request_valid(name, reference) {
        Ok(0nat)
    } else if holds_bytes(entries, key) {
        match manifest_at(entries, key) {
            None => Err(RegistryError::DecodeError),
            Some(m) => if digest_valid(reference) {
                Ok(1 + sweep_count(entries.remove(key), name, reference))
            } else if holds_member(
                entries.remove(key),
                alias_key(name, m.config.digest),
                reference,
            ) {
                Ok(1nat)
            } else {
                Ok(0nat)
            },
        }
    } else {
        Ok(sweep_count(entries, name, reference))
    }
}

/// The registry's word for a store failure.
pub fn from_backend(e: BackendError) -> (r: RegistryError)
    ensures
        r == RegistryError::BackendUnavailable,
{
    match e {
        BackendError::Unavailable => RegistryError::BackendUnavailable,
    }
}

/// Whether `name` is a repository name: one or more path segments joined by
/// `/`, each one or more groups of lowercase letters and digits joined by
/// `.`, `_` or `-`.
pub fn is_manifest_name_valid(name: &str) -> (r: bool)
    ensures
        r == manifest_name_valid(name@),
{
    if !name.is_ascii() {
        proof {
            if manifest_name_valid(name@) {
                assert forall|i: int| 0 <= i < name@.len() implies '\0' <= #[trigger] name@[i]
                    <= '\u{7f}' by {
                    assert(is_lower_alnum(name@[i]) || is_joiner(name@[i], true));
                }
            }
        }
        return false;
    }
    let n: usize = ascii_len(name);
    assert(name@.subrange(0, n as int) =~= name@);
    groups_ok(name, 0, n, true)
}

/// Whether `name` is a repository name and `reference` a tag or a digest.
pub fn is_valid_request(name: &str, reference: &str) -> (r: bool)
    ensures
        r == request_valid(name@, reference@),
{
    is_manifest_name_valid(name) && is_reference_valid(reference)
}

/// The key under which the manifest for `reference` is stored.
pub fn generate_manifest_key(name: &str, reference: &str) -> (key: String)
    ensures
        key@ == manifest_key(name@, reference@),
{
    let mut key: String = String::from_str("manifest");
    key.append("::");
    key.append(name);
    key.append("::");
    key.append(reference);
    key
}

/// The key under which the tags that alias `digest` are stored.
pub fn generate_alias_key(name: &str, digest: &str) -> (key: String)
    ensures
        key@ == alias_key(name@, digest@),
{
    let mut key: String = generate_manifest_key(name, digest);
    key.append("::");
    key.append("alias");
    key
}

/// Whether the store holds a manifest key or an alias set for `reference`.
/// An invalid request is answered `false` without a call to the store.
pub fn manifest_exist<B: Backend>(name: &str, reference: &str, con: &mut B) -> (r: Result<
    bool,
    RegistryError,
>)
    ensures
        final(con).entries() == old(con).entries(),
        final(con).online() == old(con).online(),
        !request_valid(name@, reference@) ==> r == Ok::<bool, RegistryError>(false) && *final(con)
            == *old(con),
        request_valid(name@, reference@) && old(con).online() ==> r == Ok::<bool, RegistryError>(
            present(old(con).entries(), name@, reference@),
        ),
        request_valid(name@, reference@) && !old(con).online() ==> r == Err::<
            bool,
            RegistryError,
        >(RegistryError::BackendUnavailable),
{
    if !is_valid_request(name, reference) {
        return Ok(false);
    }
    let key: String = generate_manifest_key(name, reference);
    let alias_key: String = generate_alias_key(name, reference);
    let exists_key: bool = match con.key_exists(key.as_str()) {
        Ok(b) => b,
        Err(e) => {
            return Err(from_backend(e));
        },
    };
    let exists_alias: bool = match con.key_exists(alias_key.as_str()) {
        Ok(b) => b,
        Err(e) => {
            return Err(from_backend(e));
        },
    };
    Ok(exists_key || exists_alias)
}

/// The manifest that `reference` leads to. A manifest under the
/// reference's own key is returned as it is. Without one the reference is
/// taken as a digest: the first live tag among its aliases, in the order in
/// which the store lists them, is looked up in its place, at most
/// [`MAX_ALIAS_DEPTH`] times in a row. The store is only read.
pub fn manifest<B: Backend>(name: &str, reference: &str, con: &mut B) -> (r: Result<
    Manifest,
    RegistryError,
>)
    ensures
        final(con).entries() == old(con).entries(),
        final(con).online() == old(con).online(),
        !request_valid(name@, reference@) ==> r is Err && r->Err_0
            == RegistryError::InvalidReference && *final(con) == *old(con),
        request_valid(name@, reference@) && !old(con).online() ==> r is Err && r->Err_0
            == RegistryError::BackendUnavailable,
        request_valid(name@, reference@) && old(con).online() ==> lookup_of(r) is Some && admits(
            old(con).entries(),
            name@,
            reference@,
            MAX_ALIAS_DEPTH as nat,
            lookup_of(r)->Some_0,
        ),
{
    if !is_valid_request(name, reference) {
        return Err(RegistryError::InvalidReference);
    }
    let mut current: String = String::from_str(reference);
    let mut fuel: u8 = MAX_ALIAS_DEPTH;
    loop
        invariant
            con.entries() == old(con).entries(),
            con.online() == old(con).online(),
            request_valid(name@, reference@),
            request_valid(name@, current@),
            forall|o: Lookup|
                admits(con.entries(), name@, current@, fuel as nat, o) ==> admits(
                    con.entries(),
                    name@,
                    reference@,
                    MAX_ALIAS_DEPTH as nat,
                    o,
                ),
        decreases fuel,
    {
        let key: String = generate_manifest_key(name, current.as_str());
        match con.get(key.as_str()) {
            Err(e) => {
                return Err(from_backend(e));
            },
            Ok(None) => {},
            Ok(stored) => {
                return Manifest::from_redis_value(&stored);
            },
        }
        if fuel == 0 {
            return Err(RegistryError::NotFound);
        }
        let alias_key: String = generate_alias_key(name, current.as_str());
        let members: Vec<String> = match con.set_members(alias_key.as_str()) {
            Ok(v) => v,
            Err(e) => {
                return Err(from_backend(e));
            },
        };
        let mut picked: Option<usize> = None;
        let mut i: usize = 0;
        while i < members.len() && picked.is_none()
            invariant
                i <= members.len(),
                con.entries() == old(con).entries(),
                con.online() == old(con).online(),
                con.online(),
                manifest_name_valid(name@),
                picked is None ==> forall|j: int|
                    0 <= j < i ==> !(request_valid(name@, #[trigger] members[j]@) && present(
                        con.entries(),
                        name@,
                        members[j]@,
                    )),
                picked matches Some(p) ==> p < members.len() && request_valid(name@, members[p as int]@)
                    && present(con.entries(), name@, members[p as int]@),
            decreases members.len() - i + (if picked is None { 1int } else { 0int }),
        {
            match manifest_exist(name, members[i].as_str(), con) {
                Err(e) => {
                    return Err(e);
                },
                Ok(true) => {
                    picked = Some(i);
                },
                Ok(false) => {
                    i += 1;
                },
            }
        }
        match picked {
            None => {
                proof {
                    let e = con.entries();
                    assert forall|t: Seq<char>| !follows(e, name@, current@, t) by {
                        if follows(e, name@, current@, t) {
                            assert(members_of(members@).contains(t));
                            let j = choose|j: int| 0 <= j < members.len() && #[trigger] members[j]@ == t;
                            assert(!(request_valid(name@, members[j]@) && present(e, name@, members[j]@)));
                        }
                    }
                    assert(admits(e, name@, current@, fuel as nat, Lookup::Missing));
                }
                return Err(RegistryError::NotFound);
            },
            Some(p) => {
                proof {
                    let e = con.entries();
                    let t = members[p as int]@;
                    assert(members_of(members@).contains(t));
                    assert(follows(e, name@, current@, t));
                    assert forall|o: Lookup| admits(e, name@, t, (fuel - 1) as nat, o) implies admits(
                        e,
                        name@,
                        current@,
                        fuel as nat,
                        o,
                    ) by {}
                }
                current = members[p].clone();
                fuel = fuel - 1;
            },
        }
    }
}

/// Removes the manifest key of each tag in `alias` and counts the keys that
/// were there. An empty list asks nothing of the store.
pub fn delete_alias<B: Backend>(name: &str, con: &mut B, alias: Vec<String>) -> (r: Result<
    u128,
    RegistryError,
>)
    ensures
        final(con).online() == old(con).online(),
        tag_keys(name@, members_of(alias@)).finite(),
        old(con).online() ==> r is Ok && r->Ok_0 == tag_keys(
            name@,
            members_of(alias@),
        ).intersect(old(con).entries().dom()).len() && final(con).entries() == old(
            con,
        ).entries().remove_keys(tag_keys(name@, members_of(alias@))) && r->Ok_0 <= alias.len(),
        !old(con).online() ==> final(con).entries() == old(con).entries() && (if alias.len() == 0 {
            r == Ok::<u128, RegistryError>(0)
        } else {
            r is Err && r->Err_0 == RegistryError::BackendUnavailable
        }),
{
    let ghost before = con.entries();
    let ghost mut done: Set<Seq<char>> = Set::empty();
    let mut sum: u128 = 0;
    let mut i: usize = 0;
    assert(before.remove_keys(done) =~= before);
    assert(done.intersect(before.dom()) =~= Set::<Seq<char>>::empty());
    while i < alias.len()
        invariant
            i <= alias.len(),
            before == old(con).entries(),
            con.online() == old(con).online(),
            done.finite(),
            forall|k: Seq<char>|
                done.contains(k) <==> exists|j: int|
                    0 <= j < i && k == manifest_key(name@, #[trigger] alias[j]@),
            con.entries() == before.remove_keys(done),
            sum == done.intersect(before.dom()).len(),
            sum <= i,
            !con.online() ==> i == 0,
        decreases alias.len() - i,
    {
        let key: String = generate_manifest_key(name, alias[i].as_str());
        let removed: bool = match con.delete(key.as_str()) {
            Ok(b) => b,
            Err(e) => {
                proof {
                    lemma_tag_keys_finite(name@, alias@, alias.len() as int);
                }
                return Err(from_backend(e));
            },
        };
        proof {
            let next = done.insert(key@);
            assert(before.remove_keys(done).remove(key@) =~= before.remove_keys(next));
            if removed {
                assert(!done.contains(key@));
                assert(next.intersect(before.dom()) =~= done.intersect(before.dom()).insert(key@));
            } else {
                assert(next.intersect(before.dom()) =~= done.intersect(before.dom()));
            }
            assert forall|k: Seq<char>| next.contains(k) <==> exists|j: int|
                0 <= j < i + 1 && k == manifest_key(name@, #[trigger] alias[j]@) by {
                if next.contains(k) {
                    if k == key@ {
                        assert(k == manifest_key(name@, alias[i as int]@));
                    } else {
                        let j = choose|j: int| 0 <= j < i && k == manifest_key(name@, #[trigger] alias[j]@);
                        assert(0 <= j < i + 1);
                    }
                }
            }
            done = next;
        }
        if removed {
            sum = sum + 1;
        }
        i += 1;
    }
    proof {
        lemma_tag_keys_finite(name@, alias@, alias.len() as int);
        assert(done =~= tag_keys(name@, members_of(alias@))) by {
            assert forall|k: Seq<char>| done.contains(k) <==> tag_keys(
                name@,
                members_of(alias@),
            ).contains(k) by {
                if done.contains(k) {
                    let j = choose|j: int| 0 <= j < i && k == manifest_key(name@, #[trigger] alias[j]@);
                    assert(members_of(alias@).contains(alias[j]@));
                }
                if tag_keys(name@, members_of(alias@)).contains(k) {
                    let t = choose|t: Seq<char>| members_of(alias@).contains(t) && k == manifest_key(name@, t);
                    let j = choose|j: int| 0 <= j < alias.len() && #[trigger] alias[j]@ == t;
                    assert(k == manifest_key(name@, alias[j]@));
                }
            }
        }
    }
    Ok(sum)
}

/// The manifest keys of the first `n` tags of a list are finitely many, and
/// so are the manifest keys of all of them.
pub proof fn lemma_tag_keys_finite(name: Seq<char>, alias: Seq<String>, n: int)
    requires
        0 <= n <= alias.len(),
    ensures
        tag_keys(name, members_of(alias.take(n))).finite(),
        n == alias.len() ==> tag_keys(name, members_of(alias)).finite(),
    decreases n,
{
    if n == 0 {
        assert(tag_keys(name, members_of(alias.take(0))) =~= Set::<Seq<char>>::empty()) by {
            assert forall|k: Seq<char>| !tag_keys(name, members_of(alias.take(0))).contains(k) by {
                if tag_keys(name, members_of(alias.take(0))).contains(k) {
                    let t = choose|t: Seq<char>| members_of(alias.take(0)).contains(t) && k == manifest_key(name, t);
                    let j = choose|j: int| 0 <= j < alias.take(0).len() && #[trigger] alias.take(0)[j]@ == t;
                }
            }
        }
    } else {
        lemma_tag_keys_finite(name, alias, n - 1);
        let prev = tag_keys(name, members_of(alias.take(n - 1)));
        let cur = tag_keys(name, members_of(alias.take(n)));
        let k0 = manifest_key(name, alias[n - 1]@);
        assert(cur =~= prev.insert(k0)) by {
            assert forall|k: Seq<char>| cur.contains(k) <==> prev.insert(k0).contains(k) by {
                if cur.contains(k) {
                    let t = choose|t: Seq<char>| members_of(alias.take(n)).contains(t) && k == manifest_key(name, t);
                    let j = choose|j: int| 0 <= j < alias.take(n).len() && #[trigger] alias.take(n)[j]@ == t;
                    if j < n - 1 {
                        assert(alias.take(n - 1)[j]@ == t);
                        assert(members_of(alias.take(n - 1)).contains(t));
                    }
                }
                if prev.contains(k) {
                    let t = choose|t: Seq<char>| members_of(alias.take(n - 1)).contains(t) && k == manifest_key(name, t);
                    let j = choose|j: int| 0 <= j < alias.take(n - 1).len() && #[trigger] alias.take(n - 1)[j]@ == t;
                    assert(alias.take(n)[j]@ == t);
                    assert(members_of(alias.take(n)).contains(t));
                }
                if k == k0 {
                    assert(alias.take(n)[n - 1]@ == alias[n - 1]@);
                    assert(members_of(alias.take(n)).contains(alias[n - 1]@));
                }
            }
        }
    }
    if n == alias.len() {
        assert(alias.take(n) =~= alias);
    }
}

/// Removes the alias set under `alias_key` and counts it if it was there.
pub fn delete_alias_key<B: Backend>(con: &mut B, alias_key: &String) -> (r: Result<
    u128,
    RegistryError,
>)
    ensures
        final(con).online() == old(con).online(),
        old(con).online() ==> final(con).entries() == old(con).entries().remove(alias_key@) && r
            == Ok::<u128, RegistryError>(
            if old(con).entries().contains_key(alias_key@) {
                1u128
            } else {
                0u128
            },
        ),
        !old(con).online() ==> final(con).entries() == old(con).entries() && r is Err && r->Err_0
            == RegistryError::BackendUnavailable,
{
    match con.delete(alias_key.as_str()) {
        Ok(true) => Ok(1),
        Ok(false) => Ok(0),
        Err(e) => Err(from_backend(e)),
    }
}

/// Sweeps the aliases of `reference`: removes the manifest key of each tag
/// in its alias set, then the alias set, and counts the keys removed.
pub fn search_alias_and_delete_it<B: Backend>(name: &str, reference: &str, con: &mut B) -> (r:
    Result<u128, RegistryError>)
    ensures
        final(con).online() == old(con).online(),
        old(con).online() ==> final(con).entries() == swept(old(con).entries(), name@, reference@)
            && r is Ok && r->Ok_0 == sweep_count(old(con).entries(), name@, reference@),
        r is Ok ==> r->Ok_0 <= usize::MAX + 1,
        !old(con).online() ==> final(con).entries() == old(con).entries() && r is Err && r->Err_0
            == RegistryError::BackendUnavailable,
{
    let ghost before = con.entries();
    let alias_key: String = generate_alias_key(name, reference);
    let alias: Vec<String> = match con.set_members(alias_key.as_str()) {
        Ok(v) => v,
        Err(e) => {
            return Err(from_backend(e));
        },
    };
    let ghost keys = tag_keys(name@, members_of(alias@));
    let tags: u128 = match delete_alias(name, con, alias) {
        Ok(n) => n,
        Err(e) => {
            return Err(e);
        },
    };
    let set: u128 = match delete_alias_key(con, &alias_key) {
        Ok(n) => n,
        Err(e) => {
            return Err(e);
        },
    };
    proof {
        let all = keys.insert(alias_key@);
        assert(all == sweep_keys(before, name@, reference@));
        assert(before.remove_keys(keys).remove(alias_key@) =~= before.remove_keys(all));
        if before.remove_keys(keys).contains_key(alias_key@) {
            assert(all.intersect(before.dom()) =~= keys.intersect(before.dom()).insert(alias_key@));
        } else {
            assert(all.intersect(before.dom()) =~= keys.intersect(before.dom()));
        }
    }
    Ok(tags + set)
}

/// Takes the tag `reference` out of the alias set of the digest of
/// `manifest`'s configuration, and counts it if it was in the set. Other
/// tags of that digest stay.
pub fn remove_tag_relation_from_digest<B: Backend>(
    name: &str,
    reference: &str,
    con: &mut B,
    manifest: Manifest,
) -> (r: Result<u128, RegistryError>)
    ensures
        final(con).online() == old(con).online(),
        old(con).online() ==> final(con).entries() == without_member(
            old(con).entries(),
            alias_key(name@, manifest@.config.digest),
            reference@,
        ) && r == Ok::<u128, RegistryError>(
            if holds_member(
                old(con).entries(),
                alias_key(name@, manifest@.config.digest),
                reference@,
            ) {
                1u128
            } else {
                0u128
            },
        ),
        !old(con).online() ==> final(con).entries() == old(con).entries() && r is Err && r->Err_0
            == RegistryError::BackendUnavailable,
{
    let alias_key: String = generate_alias_key(name, manifest.config.digest.as_str());
    match con.set_remove(alias_key.as_str(), reference) {
        Ok(true) => Ok(1),
        Ok(false) => Ok(0),
        Err(e) => Err(from_backend(e)),
    }
}

/// Deletes `reference` and returns the number of keys removed. Deleting a
/// digest deletes the content under every name it has: its own manifest
/// key, the manifest key of each tag that aliases it, and the alias set.
/// Deleting a tag removes that one name: its manifest key and its place in
/// the alias set of its digest; other tags of the digest stay as they are.
/// A reference with no manifest under its own key is swept as a digest.
/// An invalid request returns 0 without a call to the store.
pub fn delete<B: Backend>(name: &str, reference: &str, con: &mut B) -> (r: Result<
    u128,
    RegistryError,
>)
    ensures
        final(con).online() == old(con).online(),
        !request_valid(name@, reference@) ==> r == Ok::<u128, RegistryError>(0) && *final(con)
            == *old(con),
        !old(con).online() ==> final(con).entries() == old(con).entries(),
        request_valid(name@, reference@) && !old(con).online() ==> r is Err && r->Err_0
            == RegistryError::BackendUnavailable,
        old(con).online() ==> final(con).entries() == after_delete(
            old(con).entries(),
            name@,
            reference@,
        ) && (match delete_result(old(con).entries(), name@, reference@) {
            Ok(n) => r is Ok && r->Ok_0 == n,
            Err(e) => r is Err && r->Err_0 == e,
        }),
{
    if !is_valid_request(name, reference) {
        return Ok(0);
    }
    let key: String = generate_manifest_key(name, reference);
    match con.get_and_delete(key.as_str()) {
        Err(e) => Err(from_backend(e)),
        Ok(None) => search_alias_and_delete_it(name, reference, con),
        Ok(stored) => match Manifest::from_redis_value(&stored) {
            Err(e) => Err(e),
            Ok(found) => {
                if is_accepted_digest(reference) {
                    match search_alias_and_delete_it(name, reference, con) {
                        Ok(n) => Ok(n + 1),
                        Err(e) => Err(e),
                    }
                } else {
                    remove_tag_relation_from_digest(name, reference, con, found)
                }
            },
        },
    }
}

impl Status {
    /// The status as an HTTP status code.
    pub fn code(&self) -> (c: u16)
        ensures
            c == (match *self {
                Status::Success => 200u16,
                Status::Accepted => 202u16,
                Status::NotFound => 404u16,
                Status::InternalServerError => 500u16,
            }),
    {
        match self {
            Status::Success => 200,
            Status::Accepted => 202,
            Status::NotFound => 404,
            Status::InternalServerError => 500,
        }
    }
}

/// Answers whether a manifest exists: `Success` where the store holds a
/// manifest key or an alias set for the reference, `NotFound` where it does
/// not or the request is invalid, `InternalServerError` where the store
/// cannot be reached.
pub fn check_manifest<B: Backend>(name: &str, reference: &str, con: &mut B) -> (r: Status)
    ensures
        final(con).entries() == old(con).entries(),
        final(con).online() == old(con).online(),
        !request_valid(name@, reference@) ==> r == Status::NotFound && *final(con) == *old(con),
        request_valid(name@, reference@) && !old(con).online() ==> r
            == Status::InternalServerError,
        request_valid(name@, reference@) && old(con).online() ==> r == (if present(
            old(con).entries(),
            name@,
            reference@,
        ) {
            Status::Success
        } else {
            Status::NotFound
        }),
{
    match manifest_exist(name, reference, con) {
        Ok(true) => Status::Success,
        Ok(false) => Status::NotFound,
        Err(_) => Status::InternalServerError,
    }
}

/// The manifest for a tag or a digest. `Ok(None)` stands for "not found":
/// the request is invalid or the lookup ends in nothing. A store that
/// cannot be reached and stored bytes that do not decode are errors.
pub fn get_manifest<B: Backend>(name: &str, reference: &str, con: &mut B) -> (r: Result<
    Option<Manifest>,
    RegistryError,
>)
    ensures
        final(con).entries() == old(con).entries(),
        final(con).online() == old(con).online(),
        !request_valid(name@, reference@) ==> r is Ok && r->Ok_0 is None && *final(con) == *old(
            con,
        ),
        request_valid(name@, reference@) && !old(con).online() ==> r is Err && r->Err_0
            == RegistryError::BackendUnavailable,
        request_valid(name@, reference@) && old(con).online() ==> (match r {
            Ok(Some(m)) => admits(
                old(con).entries(),
                name@,
                reference@,
                MAX_ALIAS_DEPTH as nat,
                Lookup::Found(m@),
            ),
            Ok(None) => admits(
                old(con).entries(),
                name@,
                reference@,
                MAX_ALIAS_DEPTH as nat,
                Lookup::Missing,
            ),
            Err(e) => e == RegistryError::DecodeError && admits(
                old(con).entries(),
                name@,
                reference@,
                MAX_ALIAS_DEPTH as nat,
                Lookup::Corrupt,
            ),
        }),
{
    match manifest(name, reference, con) {
        Ok(found) => Ok(Some(found)),
        Err(RegistryError::InvalidReference) => Ok(None),
        Err(RegistryError::NotFound) => Ok(None),
        Err(e) => Err(e),
    }
}

/// Deletes a manifest by tag or digest: `Accepted` where a key was removed,
/// `NotFound` where none was or the request is invalid,
/// `InternalServerError` where the store cannot be reached or the stored
/// bytes do not decode.
pub fn delete_manifest<B: Backend>(name: &str, reference: &str, con: &mut B) -> (r: Status)
    ensures
        final(con).online() == old(con).online(),
        !request_valid(name@, reference@) ==> r == Status::NotFound && *final(con) == *old(con),
        !old(con).online() ==> final(con).entries() == old(con).entries(),
        request_valid(name@, reference@) && !old(con).online() ==> r
            == Status::InternalServerError,
        old(con).online() ==> final(con).entries() == after_delete(
            old(con).entries(),
            name@,
            reference@,
        ) && r == (match delete_result(old(con).entries(), name@, reference@) {
            Ok(n) => if n > 0 {
                Status::Accepted
            } else {
                Status::NotFound
            },
            Err(_) => Status::InternalServerError,
        }),
{
    match delete(name, reference, con) {
        Ok(removed) => {
            if removed > 0 {
                Status::Accepted
            } else {
                Status::NotFound
            }
        },
        Err(_) => Status::InternalServerError,
    }
}

} // verus!
