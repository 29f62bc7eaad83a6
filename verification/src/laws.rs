//! What holds of the engine whatever store it talks to, stated over the
//! entries of the store.

use crate::backend::{holds_member, members_of, Entry};
use crate::descriptor::ManifestView;
use crate::manifest::{
    admits, after_delete, alias_key, aliases, delete_result, follows, holds_bytes, manifest_at,
    manifest_key, manifest_name_valid, present, request_valid, sweep_count, sweep_keys, swept,
    tag_keys, Lookup, RegistryError,
};
use crate::tags::{
    digest_splits_at, digest_valid, is_joiner, is_lower_alnum, lemma_digest_has_one_colon,
    lemma_tag_has_no_colon, tag_name_valid,
};
use vstd::prelude::*;

verus! {

broadcast use {vstd::set::group_set_axioms, vstd::map::group_map_axioms};

/// Two references of one repository with the same manifest key are the same
/// reference.
pub proof fn lemma_manifest_key_injective(name: Seq<char>, a: Seq<char>, b: Seq<char>)
    requires
        manifest_key(name, a) == manifest_key(name, b),
    ensures
        a == b,
{
    let p = "manifest"@ + "::"@ + name + "::"@;
    assert(manifest_key(name, a) == p + a);
    assert(manifest_key(name, b) == p + b);
    assert((p + a).subrange(p.len() as int, (p + a).len() as int) =~= a);
    assert((p + b).subrange(p.len() as int, (p + b).len() as int) =~= b);
}

/// No repository name holds a colon.
pub proof fn lemma_name_has_no_colon(name: Seq<char>)
    requires
        manifest_name_valid(name),
    ensures
        forall|i: int| 0 <= i < name.len() ==> #[trigger] name[i] != ':',
{
    assert forall|i: int| 0 <= i < name.len() implies #[trigger] name[i] != ':' by {
        assert(is_lower_alnum(name[i]) || is_joiner(name[i], true));
    }
}

/// A manifest key tells its repository and its reference: two keys of
/// valid repository names are equal only where the names are equal and the
/// references are equal.
pub proof fn lemma_manifest_keys_differ(
    name: Seq<char>,
    reference: Seq<char>,
    other_name: Seq<char>,
    other_reference: Seq<char>,
)
    requires
        manifest_name_valid(name),
        manifest_name_valid(other_name),
        manifest_key(name, reference) == manifest_key(other_name, other_reference),
    ensures
        name == other_name,
        reference == other_reference,
{
    reveal_strlit("::");
    let p = "manifest"@ + "::"@;
    let a = name + "::"@ + reference;
    let b = other_name + "::"@ + other_reference;
    assert(manifest_key(name, reference) =~= p + a);
    assert(manifest_key(other_name, other_reference) =~= p + b);
    assert((p + a).subrange(p.len() as int, (p + a).len() as int) =~= a);
    assert((p + b).subrange(p.len() as int, (p + b).len() as int) =~= b);
    assert(a == b);
    lemma_name_has_no_colon(name);
    lemma_name_has_no_colon(other_name);
    if name.len() < other_name.len() {
        assert(a[name.len() as int] == ':');
        assert(b[name.len() as int] == other_name[name.len() as int]);
    } else if other_name.len() < name.len() {
        assert(b[other_name.len() as int] == ':');
        assert(a[other_name.len() as int] == name[other_name.len() as int]);
    }
    assert(a.subrange(0, name.len() as int) =~= name);
    assert(b.subrange(0, name.len() as int) =~= other_name);
    assert(a.subrange(name.len() as int + 2, a.len() as int) =~= reference);
    assert(b.subrange(name.len() as int + 2, b.len() as int) =~= other_reference);
}

/// No alias key is the manifest key of a valid request, whatever digest
/// the alias key is made for.
pub proof fn lemma_alias_key_is_no_manifest_key(
    name: Seq<char>,
    reference: Seq<char>,
    other_name: Seq<char>,
    digest: Seq<char>,
)
    requires
        request_valid(name, reference),
        manifest_name_valid(other_name),
    ensures
        alias_key(other_name, digest) != manifest_key(name, reference),
{
    reveal_strlit("::");
    let tail = digest + "::"@ + "alias"@;
    assert(alias_key(other_name, digest) =~= manifest_key(other_name, tail));
    if alias_key(other_name, digest) == manifest_key(name, reference) {
        lemma_manifest_keys_differ(other_name, tail, name, reference);
        let at = digest.len() as int;
        assert(reference[at] == ':');
        assert(reference[at + 1] == ':');
        if tag_name_valid(reference) {
            lemma_tag_has_no_colon(reference);
        } else {
            lemma_digest_has_one_colon(reference, at, at + 1);
        }
    }
}

/// The members of a list are finitely many: an alias set that a store has
/// listed is finite.
pub proof fn lemma_listed_members_finite(v: Seq<String>)
    ensures
        members_of(v).finite(),
    decreases v.len(),
{
    if v.len() == 0 {
        assert(members_of(v) =~= Set::<Seq<char>>::empty());
    } else {
        let front = v.drop_last();
        lemma_listed_members_finite(front);
        assert forall|t: Seq<char>| members_of(v).contains(t) <==> members_of(front).insert(
            v.last()@,
        ).contains(t) by {
            if members_of(v).contains(t) {
                let j = choose|j: int| 0 <= j < v.len() && #[trigger] v[j]@ == t;
                if j < front.len() {
                    assert(front[j]@ == t);
                }
            }
            if members_of(front).contains(t) {
                let j = choose|j: int| 0 <= j < front.len() && #[trigger] front[j]@ == t;
                assert(v[j]@ == t);
            }
            if t == v.last()@ {
                assert(v[v.len() - 1]@ == t);
            }
        }
        assert(members_of(v) =~= members_of(front).insert(v.last()@));
    }
}

/// The manifest keys of finitely many tags are finitely many.
pub proof fn lemma_finite_tag_keys(name: Seq<char>, tags: Set<Seq<char>>)
    requires
        tags.finite(),
    ensures
        tag_keys(name, tags).finite(),
{
    let f = |t: Seq<char>| manifest_key(name, t);
    tags.lemma_map_finite(f);
    assert(tag_keys(name, tags) =~= tags.map(f));
}

/// No string is both a tag and a digest.
pub proof fn lemma_tag_is_no_digest(s: Seq<char>)
    requires
        tag_name_valid(s),
    ensures
        !digest_valid(s),
{
    lemma_tag_has_no_colon(s);
    if digest_valid(s) {
        let p = choose|p: int| digest_splits_at(s, p);
        assert(s[p] == ':');
    }
}

/// A cascade through a digest without an alias set removes nothing.
pub proof fn lemma_sweep_without_aliases(
    entries: Map<Seq<char>, Entry>,
    name: Seq<char>,
    digest: Seq<char>,
)
    requires
        !entries.contains_key(alias_key(name, digest)),
    ensures
        sweep_count(entries, name, digest) == 0,
        swept(entries, name, digest) == entries,
{
    let keys = sweep_keys(entries, name, digest);
    assert(tag_keys(name, aliases(entries, name, digest)) =~= Set::<Seq<char>>::empty());
    assert(keys.intersect(entries.dom()) =~= Set::<Seq<char>>::empty());
    assert(entries.remove_keys(keys) =~= entries);
}

/// A digest with a stored manifest and no aliasing tag exists, resolves to
/// that manifest and to nothing else, and is deleted with a count of
/// exactly 1, after which it no longer exists.
pub proof fn lemma_lone_digest(
    entries: Map<Seq<char>, Entry>,
    name: Seq<char>,
    digest: Seq<char>,
    stored: ManifestView,
    fuel: nat,
)
    requires
        request_valid(name, digest),
        digest_valid(digest),
        manifest_at(entries, manifest_key(name, digest)) == Some(stored),
        !entries.contains_key(alias_key(name, digest)),
    ensures
        present(entries, name, digest),
        forall|o: Lookup| admits(entries, name, digest, fuel, o) <==> o == Lookup::Found(stored),
        delete_result(entries, name, digest) == Ok::<nat, RegistryError>(1),
        !present(after_delete(entries, name, digest), name, digest),
{
    let key = manifest_key(name, digest);
    lemma_sweep_without_aliases(entries.remove(key), name, digest);
}

/// A tag that alone aliases a digest: deleting the tag takes it out of the
/// digest's aliases with a count of 1 and leaves the manifest stored under
/// the digest resolvable; deleting the digest afterwards leaves neither.
pub proof fn lemma_single_tag(
    entries: Map<Seq<char>, Entry>,
    name: Seq<char>,
    tag: Seq<char>,
    digest: Seq<char>,
    tagged: ManifestView,
    stored: ManifestView,
    fuel: nat,
)
    requires
        request_valid(name, tag),
        request_valid(name, digest),
        tag_name_valid(tag),
        digest_valid(digest),
        manifest_at(entries, manifest_key(name, tag)) == Some(tagged),
        tagged.config.digest == digest,
        manifest_at(entries, manifest_key(name, digest)) == Some(stored),
        entries.contains_key(alias_key(name, digest)),
        entries[alias_key(name, digest)] == Entry::Aliases(Set::<Seq<char>>::empty().insert(tag)),
        !entries.contains_key(alias_key(name, tag)),
    ensures
        delete_result(entries, name, tag) == Ok::<nat, RegistryError>(1),
        !aliases(after_delete(entries, name, tag), name, digest).contains(tag),
        forall|o: Lookup|
            admits(after_delete(entries, name, tag), name, digest, fuel, o) <==> o
                == Lookup::Found(stored),
        !present(after_delete(after_delete(entries, name, tag), name, digest), name, digest),
        !present(after_delete(after_delete(entries, name, tag), name, digest), name, tag),
{
    let kt = manifest_key(name, tag);
    let kd = manifest_key(name, digest);
    let ak = alias_key(name, digest);
    lemma_tag_is_no_digest(tag);
    if kt == kd {
        lemma_manifest_key_injective(name, tag, digest);
    }
    let e0 = entries.remove(kt);
    assert(holds_member(e0, ak, tag));
    assert(Set::<Seq<char>>::empty().insert(tag).remove(tag) =~= Set::<Seq<char>>::empty());
    let e1 = after_delete(entries, name, tag);
    assert(e1 == e0.remove(ak));
    lemma_sweep_without_aliases(e1.remove(kd), name, digest);
}

/// Deleting a digest that two tags alias removes the manifest under the
/// digest, the manifest under each tag and the alias set: the count is 3 or
/// more, and afterwards neither the digest nor either tag exists.
pub proof fn lemma_cascade(
    entries: Map<Seq<char>, Entry>,
    name: Seq<char>,
    digest: Seq<char>,
    first: Seq<char>,
    second: Seq<char>,
)
    requires
        aliases(entries, name, digest).finite(),
        request_valid(name, digest),
        digest_valid(digest),
        tag_name_valid(first),
        tag_name_valid(second),
        first != second,
        manifest_at(entries, manifest_key(name, digest)) is Some,
        entries.contains_key(manifest_key(name, first)),
        entries.contains_key(manifest_key(name, second)),
        aliases(entries, name, digest).contains(first),
        aliases(entries, name, digest).contains(second),
        !entries.contains_key(alias_key(name, first)),
        !entries.contains_key(alias_key(name, second)),
    ensures
        delete_result(entries, name, digest) is Ok,
        delete_result(entries, name, digest)->Ok_0 >= 3,
        !present(after_delete(entries, name, digest), name, digest),
        !present(after_delete(entries, name, digest), name, first),
        !present(after_delete(entries, name, digest), name, second),
{
    let kd = manifest_key(name, digest);
    let k1 = manifest_key(name, first);
    let k2 = manifest_key(name, second);
    let ak = alias_key(name, digest);
    lemma_tag_is_no_digest(first);
    lemma_tag_is_no_digest(second);
    if k1 == kd {
        lemma_manifest_key_injective(name, first, digest);
    }
    if k2 == kd {
        lemma_manifest_key_injective(name, second, digest);
    }
    if k1 == k2 {
        lemma_manifest_key_injective(name, first, second);
    }
    let e1 = entries.remove(kd);
    assert(aliases(e1, name, digest) == aliases(entries, name, digest));
    let keys = sweep_keys(e1, name, digest);
    lemma_finite_tag_keys(name, aliases(e1, name, digest));
    assert(keys.contains(k1));
    assert(keys.contains(k2));
    assert(keys.contains(ak));
    let hit = keys.intersect(e1.dom());
    let two = Set::<Seq<char>>::empty().insert(k1).insert(k2);
    assert(two.len() == 2);
    assert(e1.contains_key(ak));
    let three = two.insert(ak);
    assert(three.subset_of(hit));
    vstd::set_lib::lemma_len_subset(three, hit);
}

/// Deleting one of two tags of a digest counts 1 and removes that tag
/// alone: the other tag exists and resolves as before, and the digest's
/// aliases lose the deleted tag and no other.
pub proof fn lemma_sibling_stays(
    entries: Map<Seq<char>, Entry>,
    name: Seq<char>,
    digest: Seq<char>,
    first: Seq<char>,
    second: Seq<char>,
    tagged: ManifestView,
    fuel: nat,
)
    requires
        request_valid(name, first),
        request_valid(name, second),
        tag_name_valid(first),
        tag_name_valid(second),
        first != second,
        manifest_at(entries, manifest_key(name, first)) == Some(tagged),
        tagged.config.digest == digest,
        manifest_at(entries, manifest_key(name, second)) is Some,
        aliases(entries, name, digest).contains(first),
        aliases(entries, name, digest).contains(second),
        !entries.contains_key(alias_key(name, first)),
    ensures
        delete_result(entries, name, first) == Ok::<nat, RegistryError>(1),
        !present(after_delete(entries, name, first), name, first),
        present(after_delete(entries, name, first), name, second),
        forall|o: Lookup|
            admits(after_delete(entries, name, first), name, second, fuel, o) <==> admits(
                entries,
                name,
                second,
                fuel,
                o,
            ),
        aliases(after_delete(entries, name, first), name, digest) == aliases(
            entries,
            name,
            digest,
        ).remove(first),
{
    let k1 = manifest_key(name, first);
    let k2 = manifest_key(name, second);
    let ak = alias_key(name, digest);
    lemma_tag_is_no_digest(first);
    if k1 == k2 {
        lemma_manifest_key_injective(name, first, second);
    }
    let e0 = entries.remove(k1);
    assert(holds_member(e0, ak, first));
    let rest = aliases(entries, name, digest).remove(first);
    assert(rest.contains(second));
    assert(rest != Set::<Seq<char>>::empty());
    let e1 = after_delete(entries, name, first);
    assert(e1 == e0.insert(ak, Entry::Aliases(rest)));
}

/// A second delete of the same reference finds nothing: it counts 0 and
/// changes nothing. The first delete counts at least 1 where it found a
/// manifest under a digest, or under a tag that was among the aliases of
/// its manifest's digest, or no manifest but an alias set of finitely many
/// tags. This is stated of stores in which no alias set
/// stands under a tag, and of stored bytes that decode.
pub proof fn lemma_delete_twice(
    entries: Map<Seq<char>, Entry>,
    name: Seq<char>,
    reference: Seq<char>,
)
    requires
        request_valid(name, reference),
        holds_bytes(entries, manifest_key(name, reference)) ==> manifest_at(
            entries,
            manifest_key(name, reference),
        ) is Some,
        tag_name_valid(reference) ==> !entries.contains_key(alias_key(name, reference)),
    ensures
        delete_result(after_delete(entries, name, reference), name, reference) == Ok::<
            nat,
            RegistryError,
        >(0),
        after_delete(after_delete(entries, name, reference), name, reference) == after_delete(
            entries,
            name,
            reference,
        ),
        manifest_at(entries, manifest_key(name, reference)) matches Some(m) && (digest_valid(
            reference,
        ) || holds_member(entries, alias_key(name, m.config.digest), reference))
            ==> delete_result(entries, name, reference) is Ok && delete_result(
            entries,
            name,
            reference,
        )->Ok_0 >= 1,
        !holds_bytes(entries, manifest_key(name, reference)) && entries.contains_key(
            alias_key(name, reference),
        ) && aliases(entries, name, reference).finite() ==> delete_result(
            entries,
            name,
            reference,
        ) is Ok && delete_result(entries, name, reference)->Ok_0 >= 1,
{
    let key = manifest_key(name, reference);
    let ak = alias_key(name, reference);
    let after = after_delete(entries, name, reference);
    if !holds_bytes(entries, key) && entries.contains_key(ak) && aliases(
        entries,
        name,
        reference,
    ).finite() {
        lemma_finite_tag_keys(name, aliases(entries, name, reference));
        let hit = sweep_keys(entries, name, reference).intersect(entries.dom());
        let one = Set::<Seq<char>>::empty().insert(ak);
        assert(one.subset_of(hit));
        vstd::set_lib::lemma_len_subset(one, hit);
    }
    if holds_bytes(entries, key) {
        assert(!after.contains_key(key));
        assert(!after.contains_key(ak));
    } else {
        assert(!after.contains_key(ak));
        assert(!(after.contains_key(key) && !(after[key] is Aliases)));
    }
    lemma_sweep_without_aliases(after, name, reference);
}

/// Every lookup has an outcome.
pub proof fn lemma_lookup_ends(
    entries: Map<Seq<char>, Entry>,
    name: Seq<char>,
    reference: Seq<char>,
    fuel: nat,
)
    ensures
        exists|o: Lookup| admits(entries, name, reference, fuel, o),
    decreases fuel,
{
    let key = manifest_key(name, reference);
    if holds_bytes(entries, key) {
        let o = match manifest_at(entries, key) {
            Some(m) => Lookup::Found(m),
            None => Lookup::Corrupt,
        };
        assert(admits(entries, name, reference, fuel, o));
    } else if fuel == 0 {
        assert(admits(entries, name, reference, fuel, Lookup::Missing));
    } else if exists|t: Seq<char>| follows(entries, name, reference, t) {
        let t = choose|t: Seq<char>| follows(entries, name, reference, t);
        let rest = (fuel - 1) as nat;
        lemma_lookup_ends(entries, name, t, rest);
        let o = choose|o: Lookup| admits(entries, name, t, rest, o);
        assert(admits(entries, name, reference, fuel, o));
    } else {
        assert(admits(entries, name, reference, fuel, Lookup::Missing));
    }
}

/// A manifest that a lookup finds is stored under a valid reference of the
/// repository, or under the reference that was asked for.
pub proof fn lemma_found_is_stored(
    entries: Map<Seq<char>, Entry>,
    name: Seq<char>,
    reference: Seq<char>,
    fuel: nat,
    found: ManifestView,
)
    requires
        admits(entries, name, reference, fuel, Lookup::Found(found)),
    ensures
        exists|r: Seq<char>|
            (r == reference || request_valid(name, r)) && manifest_at(
                entries,
                #[trigger] manifest_key(name, r),
            ) == Some(found),
    decreases fuel,
{
    let key = manifest_key(name, reference);
    if holds_bytes(entries, key) {
        assert(manifest_at(entries, manifest_key(name, reference)) == Some(found));
    } else {
        let rest = (fuel - 1) as nat;
        let t = choose|t: Seq<char>|
            follows(entries, name, reference, t) && admits(
                entries,
                name,
                t,
                rest,
                Lookup::Found(found),
            );
        lemma_found_is_stored(entries, name, t, rest, found);
        let r = choose|r: Seq<char>|
            (r == t || request_valid(name, r)) && manifest_at(
                entries,
                #[trigger] manifest_key(name, r),
            ) == Some(found);
        assert(manifest_at(entries, manifest_key(name, r)) == Some(found));
    }
}

/// A digest without a manifest of its own, aliased by one tag that has a
/// manifest, resolves to the manifest of that tag.
pub proof fn lemma_resolves_through_alias(
    entries: Map<Seq<char>, Entry>,
    name: Seq<char>,
    digest: Seq<char>,
    tag: Seq<char>,
    tagged: ManifestView,
    fuel: nat,
)
    requires
        fuel >= 1,
        request_valid(name, tag),
        !entries.contains_key(manifest_key(name, digest)),
        aliases(entries, name, digest) == Set::<Seq<char>>::empty().insert(tag),
        manifest_at(entries, manifest_key(name, tag)) == Some(tagged),
    ensures
        present(entries, name, digest),
        forall|o: Lookup| admits(entries, name, digest, fuel, o) <==> o == Lookup::Found(tagged),
{
    assert(aliases(entries, name, digest).contains(tag));
    assert(follows(entries, name, digest, tag));
    let rest = (fuel - 1) as nat;
    assert forall|o: Lookup| admits(entries, name, digest, fuel, o) implies o == Lookup::Found(
        tagged,
    ) by {
        let t = choose|t: Seq<char>|
            follows(entries, name, digest, t) && admits(entries, name, t, rest, o);
        assert(t == tag);
    }
    assert(admits(entries, name, tag, rest, Lookup::Found(tagged)));
}

/// An alias set none of whose tags is live: the digest exists, and yet
/// resolves to nothing.
pub proof fn lemma_dangling_alias(
    entries: Map<Seq<char>, Entry>,
    name: Seq<char>,
    digest: Seq<char>,
    fuel: nat,
)
    requires
        !entries.contains_key(manifest_key(name, digest)),
        entries.contains_key(alias_key(name, digest)),
        forall|t: Seq<char>|
            aliases(entries, name, digest).contains(t) ==> !present(entries, name, t),
    ensures
        present(entries, name, digest),
        forall|o: Lookup| admits(entries, name, digest, fuel, o) <==> o == Lookup::Missing,
{
    assert forall|t: Seq<char>| !follows(entries, name, digest, t) by {}
}

/// A delete leaves no alias dangling behind it. After a digest is deleted
/// it has no aliases, and no tag that aliased it has a manifest key. After
/// a tag is deleted it has no manifest key and is no alias of the digest
/// of its manifest. This is stated of stored bytes that decode.
pub proof fn lemma_delete_leaves_no_dangling_alias(
    entries: Map<Seq<char>, Entry>,
    name: Seq<char>,
    reference: Seq<char>,
)
    requires
        request_valid(name, reference),
        holds_bytes(entries, manifest_key(name, reference)) ==> manifest_at(
            entries,
            manifest_key(name, reference),
        ) is Some,
    ensures
        !holds_bytes(after_delete(entries, name, reference), manifest_key(name, reference)),
        digest_valid(reference) ==> !after_delete(entries, name, reference).contains_key(
            alias_key(name, reference),
        ) && forall|t: Seq<char>|
            aliases(entries, name, reference).contains(t) ==> !after_delete(
                entries,
                name,
                reference,
            ).contains_key(#[trigger] manifest_key(name, t)),
        !digest_valid(reference) ==> (manifest_at(
            entries,
            manifest_key(name, reference),
        ) matches Some(m) ==> !aliases(
            after_delete(entries, name, reference),
            name,
            m.config.digest,
        ).contains(reference)),
{
    let key = manifest_key(name, reference);
    let after = after_delete(entries, name, reference);
    if digest_valid(reference) {
        let before = if holds_bytes(entries, key) {
            entries.remove(key)
        } else {
            entries
        };
        assert(after == swept(before, name, reference));
        assert forall|t: Seq<char>| aliases(entries, name, reference).contains(t) implies !after.contains_key(
            #[trigger] manifest_key(name, t),
        ) by {
            assert(aliases(before, name, reference).contains(t));
            assert(tag_keys(name, aliases(before, name, reference)).contains(manifest_key(name, t)));
        }
    }
}

} // verus!
