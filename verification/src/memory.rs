//! A store in memory: every key in a list, searched from the front.

use crate::backend::{members_of, Backend, BackendError, Entry};
use vstd::prelude::*;
use vstd::string::*;

verus! {

broadcast use {vstd::set::group_set_axioms, vstd::map::group_map_axioms};

/// What one key of a [`MemoryStore`] holds.
pub enum Slot {
    Bytes(Vec<u8>),
    Aliases(Vec<String>),
}

/// A key and what it holds.
pub struct Record {
    pub key: String,
    pub slot: Slot,
}

/// The entry that a slot stands for.
pub open spec fn slot_view(slot: Slot) -> Entry {
    match slot {
        Slot::Bytes(b) => Entry::Bytes(b@),
        Slot::Aliases(tags) => Entry::Aliases(members_of(tags@)),
    }
}

/// Whether some record has the key `key`.
pub open spec fn has_key(cells: Seq<Record>, key: Seq<char>) -> bool {
    exists|i: int| 0 <= i < cells.len() && #[trigger] cells[i].key@ == key
}

/// The index of a record with the key `key`.
pub open spec fn position(cells: Seq<Record>, key: Seq<char>) -> int {
    choose|i: int| 0 <= i < cells.len() && #[trigger] cells[i].key@ == key
}

/// The entries that a list of records stands for.
pub open spec fn model(cells: Seq<Record>) -> Map<Seq<char>, Entry> {
    Map::new(
        |k: Seq<char>| has_key(cells, k),
        |k: Seq<char>| slot_view(cells[position(cells, k)].slot),
    )
}

/// No two records share a key.
pub open spec fn distinct_keys(cells: Seq<Record>) -> bool {
    forall|i: int, j: int|
        0 <= i < cells.len() && 0 <= j < cells.len() && i != j ==> #[trigger] cells[i].key@
            != #[trigger] cells[j].key@
}

/// No list of tags is empty or names a tag twice.
pub open spec fn proper_sets(cells: Seq<Record>) -> bool {
    forall|i: int|
        0 <= i < cells.len() ==> (#[trigger] cells[i].slot matches Slot::Aliases(tags)
            ==> proper_tags(tags@))
}

/// A list of tags with at least one tag and none twice.
pub open spec fn proper_tags(tags: Seq<String>) -> bool {
    tags.len() > 0 && forall|i: int, j: int|
        0 <= i < tags.len() && 0 <= j < tags.len() && i != j ==> #[trigger] tags[i]@
            != #[trigger] tags[j]@
}

/// With distinct keys, the model holds at each record's key what the
/// record holds.
pub proof fn lemma_model_at(cells: Seq<Record>, i: int)
    requires
        distinct_keys(cells),
        0 <= i < cells.len(),
    ensures
        model(cells).contains_key(cells[i].key@),
        model(cells)[cells[i].key@] == slot_view(cells[i].slot),
        position(cells, cells[i].key@) == i,
{
    assert(has_key(cells, cells[i].key@));
}

/// A record under a new key adds one entry.
pub proof fn lemma_model_push(cells: Seq<Record>, r: Record)
    requires
        distinct_keys(cells),
        !has_key(cells, r.key@),
    ensures
        distinct_keys(cells.push(r)),
        model(cells.push(r)) == model(cells).insert(r.key@, slot_view(r.slot)),
{
    let next = cells.push(r);
    assert(distinct_keys(next)) by {
        assert forall|i: int, j: int|
            0 <= i < next.len() && 0 <= j < next.len() && i != j implies #[trigger] next[i].key@
            != #[trigger] next[j].key@ by {
            if i < cells.len() && j < cells.len() {
                assert(cells[i].key@ != cells[j].key@);
            } else if i < cells.len() {
                assert(cells[i].key@ != r.key@);
            } else {
                assert(cells[j].key@ != r.key@);
            }
        }
    }
    assert forall|k: Seq<char>| has_key(next, k) <==> (k == r.key@ || has_key(cells, k)) by {
        if has_key(next, k) {
            let i = position(next, k);
            if i < cells.len() {
                assert(cells[i].key@ == k);
            }
        }
        if has_key(cells, k) {
            let i = position(cells, k);
            assert(next[i].key@ == k);
        }
        if k == r.key@ {
            assert(next[cells.len() as int].key@ == k);
        }
    }
    assert forall|k: Seq<char>| has_key(next, k) implies #[trigger] model(next)[k] == model(
        cells,
    ).insert(r.key@, slot_view(r.slot))[k] by {
        let i = position(next, k);
        lemma_model_at(next, i);
        if i < cells.len() {
            lemma_model_at(cells, i);
        }
    }
    assert(model(next) =~= model(cells).insert(r.key@, slot_view(r.slot)));
}

/// A record that takes the place of one with the same key changes that
/// entry alone.
pub proof fn lemma_model_update(cells: Seq<Record>, i: int, r: Record)
    requires
        distinct_keys(cells),
        0 <= i < cells.len(),
        r.key@ == cells[i].key@,
    ensures
        distinct_keys(cells.update(i, r)),
        model(cells.update(i, r)) == model(cells).insert(r.key@, slot_view(r.slot)),
{
    let next = cells.update(i, r);
    assert(distinct_keys(next)) by {
        assert forall|a: int, b: int|
            0 <= a < next.len() && 0 <= b < next.len() && a != b implies #[trigger] next[a].key@
            != #[trigger] next[b].key@ by {
            assert(cells[a].key@ != cells[b].key@);
        }
    }
    assert forall|k: Seq<char>| has_key(next, k) <==> has_key(cells, k) by {
        if has_key(next, k) {
            let a = position(next, k);
            assert(cells[a].key@ == k);
        }
        if has_key(cells, k) {
            let a = position(cells, k);
            assert(next[a].key@ == k);
        }
    }
    assert(has_key(cells, r.key@));
    assert forall|k: Seq<char>| has_key(next, k) implies #[trigger] model(next)[k] == model(
        cells,
    ).insert(r.key@, slot_view(r.slot))[k] by {
        let a = position(next, k);
        lemma_model_at(next, a);
        lemma_model_at(cells, a);
    }
    assert(model(next) =~= model(cells).insert(r.key@, slot_view(r.slot)));
}

/// Taking a record out removes its entry alone.
pub proof fn lemma_model_remove(cells: Seq<Record>, i: int)
    requires
        distinct_keys(cells),
        0 <= i < cells.len(),
    ensures
        distinct_keys(cells.remove(i)),
        model(cells.remove(i)) == model(cells).remove(cells[i].key@),
{
    let next = cells.remove(i);
    let gone = cells[i].key@;
    assert forall|a: int| 0 <= a < next.len() implies #[trigger] next[a] == cells[if a < i {
        a
    } else {
        a + 1
    }] by {}
    assert(distinct_keys(next)) by {
        assert forall|a: int, b: int|
            0 <= a < next.len() && 0 <= b < next.len() && a != b implies #[trigger] next[a].key@
            != #[trigger] next[b].key@ by {
            let a2 = if a < i { a } else { a + 1 };
            let b2 = if b < i { b } else { b + 1 };
            assert(next[a] == cells[a2]);
            assert(next[b] == cells[b2]);
            assert(cells[a2].key@ != cells[b2].key@);
        }
    }
    assert forall|k: Seq<char>| has_key(next, k) <==> (k != gone && has_key(cells, k)) by {
        if has_key(next, k) {
            let a = position(next, k);
            let a2 = if a < i { a } else { a + 1 };
            assert(next[a] == cells[a2]);
            assert(cells[a2].key@ == k);
            assert(cells[a2].key@ != cells[i].key@);
        }
        if k != gone && has_key(cells, k) {
            let a = position(cells, k);
            let a1 = if a < i { a } else { a - 1 };
            assert(next[a1] == cells[a]);
            assert(next[a1].key@ == k);
        }
    }
    assert forall|k: Seq<char>| has_key(next, k) implies #[trigger] model(next)[k] == model(
        cells,
    ).remove(gone)[k] by {
        let a = position(next, k);
        let a2 = if a < i { a } else { a + 1 };
        assert(next[a] == cells[a2]);
        lemma_model_at(next, a);
        lemma_model_at(cells, a2);
    }
    assert(model(next) =~= model(cells).remove(gone));
}

/// With distinct keys, the model has as many entries as there are records.
pub proof fn lemma_model_len(cells: Seq<Record>)
    requires
        distinct_keys(cells),
    ensures
        model(cells).dom().finite(),
        model(cells).dom().len() == cells.len(),
    decreases cells.len(),
{
    if cells.len() == 0 {
        assert(model(cells).dom() =~= Set::<Seq<char>>::empty());
    } else {
        let front = cells.drop_last();
        let last = cells.last();
        assert(distinct_keys(front)) by {
            assert forall|i: int, j: int|
                0 <= i < front.len() && 0 <= j < front.len() && i != j implies #[trigger] front[i].key@
                != #[trigger] front[j].key@ by {
                assert(cells[i].key@ != cells[j].key@);
            }
        }
        assert(!has_key(front, last.key@)) by {
            if has_key(front, last.key@) {
                let i = position(front, last.key@);
                assert(cells[i].key@ == cells[cells.len() - 1].key@);
            }
        }
        lemma_model_len(front);
        lemma_model_push(front, last);
        assert(front.push(last) =~= cells);
        assert(model(cells).dom() =~= model(front).dom().insert(last.key@));
    }
}

/// A key-value store in memory. It counts the operations asked of it, and
/// can be taken off line to see how its callers fail.
pub struct MemoryStore {
    cells: Vec<Record>,
    reachable: bool,
    asked: u64,
}

/// The index of `tag` in `tags`.
fn find_tag(tags: &Vec<String>, tag: &str) -> (r: Option<usize>)
    ensures
        r matches Some(i) ==> i < tags.len() && tags[i as int]@ == tag@,
        r is None ==> !members_of(tags@).contains(tag@),
{
    let wanted: String = String::from_str(tag);
    let mut i: usize = 0;
    while i < tags.len()
        invariant
            i <= tags.len(),
            wanted@ == tag@,
            forall|j: int| 0 <= j < i ==> #[trigger] tags[j]@ != tag@,
        decreases tags.len() - i,
    {
        if tags[i] == wanted {
            return Some(i);
        }
        i += 1;
    }
    None
}

/// A copy of `bytes`.
fn copy_bytes(bytes: &Vec<u8>) -> (r: Vec<u8>)
    ensures
        r@ == bytes@,
{
    let mut out: Vec<u8> = Vec::new();
    let mut i: usize = 0;
    while i < bytes.len()
        invariant
            i <= bytes.len(),
            out@ == bytes@.take(i as int),
        decreases bytes.len() - i,
    {
        out.push(bytes[i]);
        assert(bytes@.take(i as int).push(bytes[i as int]) =~= bytes@.take(i + 1));
        i += 1;
    }
    assert(bytes@.take(bytes.len() as int) =~= bytes@);
    out
}

/// A copy of `tags`, without the tag at index `skip` where `skip` is an
/// index of the list.
fn copy_tags(tags: &Vec<String>, skip: usize) -> (r: Vec<String>)
    ensures
        skip >= tags.len() ==> r.len() == tags.len() && forall|j: int|
            0 <= j < tags.len() ==> #[trigger] r[j]@ == tags[j]@,
        skip < tags.len() ==> r.len() == tags.len() - 1 && forall|j: int|
            0 <= j < r.len() ==> #[trigger] r[j]@ == tags[if j < skip {
                j
            } else {
                j + 1
            }]@,
{
    let mut out: Vec<String> = Vec::new();
    let mut i: usize = 0;
    while i < tags.len()
        invariant
            i <= tags.len(),
            out.len() == (if i <= skip { i as int } else { i - 1 }),
            forall|j: int|
                0 <= j < out.len() ==> #[trigger] out[j]@ == tags[if j < skip {
                    j
                } else {
                    j + 1
                }]@,
        decreases tags.len() - i,
    {
        if i != skip {
            out.push(tags[i].clone());
        }
        i += 1;
    }
    out
}

impl MemoryStore {
    #[verifier::type_invariant]
    spec fn well_formed(self) -> bool {
        distinct_keys(self.cells@) && proper_sets(self.cells@)
    }

    /// How many operations the store has been asked for, up to `u64::MAX`.
    pub closed spec fn asked_spec(&self) -> nat {
        self.asked as nat
    }

    /// The count after one more operation.
    pub open spec fn one_more(n: nat) -> nat {
        if n < u64::MAX {
            n + 1
        } else {
            n
        }
    }

    /// An empty store, on line.
    pub fn new() -> (r: MemoryStore)
        ensures
            r.entries() == Map::<Seq<char>, Entry>::empty(),
            r.online(),
            r.asked_spec() == 0,
    {
        let r = MemoryStore { cells: Vec::new(), reachable: true, asked: 0 };
        assert(model(r.cells@) =~= Map::<Seq<char>, Entry>::empty());
        r
    }

    /// Puts the store on line or takes it off line.
    pub fn set_online(&mut self, online: bool)
        ensures
            final(self).entries() == old(self).entries(),
            final(self).online() == online,
            final(self).asked_spec() == old(self).asked_spec(),
    {
        proof {
            use_type_invariant(&*self);
        }
        self.reachable = online;
    }

    /// How many operations the store has been asked for.
    pub fn calls(&self) -> (n: u64)
        ensures
            n == self.asked_spec(),
    {
        self.asked
    }

    /// How many keys the store holds.
    pub fn len(&self) -> (n: usize)
        ensures
            self.entries().dom().finite(),
            n == self.entries().dom().len(),
    {
        proof {
            use_type_invariant(self);
            lemma_model_len(self.cells@);
        }
        self.cells.len()
    }

    fn count(&mut self)
        ensures
            final(self).cells == old(self).cells,
            final(self).reachable == old(self).reachable,
            final(self).asked_spec() == Self::one_more(old(self).asked_spec()),
    {
        proof {
            use_type_invariant(&*self);
        }
        if self.asked < u64::MAX {
            self.asked = self.asked + 1;
        }
    }

    fn find(&self, key: &str) -> (r: Option<usize>)
        ensures
            r matches Some(i) ==> i < self.cells.len() && self.cells[i as int].key@ == key@
                && self.entries().contains_key(key@) && self.entries()[key@] == slot_view(
                self.cells[i as int].slot,
            ),
            r is None ==> !self.entries().contains_key(key@),
    {
        proof {
            use_type_invariant(self);
        }
        let wanted: String = String::from_str(key);
        let mut i: usize = 0;
        while i < self.cells.len()
            invariant
                i <= self.cells.len(),
                wanted@ == key@,
                distinct_keys(self.cells@),
                forall|j: int| 0 <= j < i ==> #[trigger] self.cells[j].key@ != key@,
            decreases self.cells.len() - i,
        {
            if self.cells[i].key == wanted {
                proof {
                    lemma_model_at(self.cells@, i as int);
                }
                return Some(i);
            }
            i += 1;
        }
        None
    }

    fn put(&mut self, key: &str, slot: Slot)
        requires
            slot matches Slot::Aliases(tags) ==> proper_tags(tags@),
        ensures
            final(self).entries() == old(self).entries().insert(key@, slot_view(slot)),
            final(self).reachable == old(self).reachable,
            final(self).asked == old(self).asked,
    {
        proof {
            use_type_invariant(&*self);
        }
        let record = Record { key: String::from_str(key), slot };
        match self.find(key) {
            Some(i) => {
                proof {
                    lemma_model_update(self.cells@, i as int, record);
                    assert(proper_sets(self.cells@.update(i as int, record)));
                }
                let mut cells: Vec<Record> = Vec::new();
                core::mem::swap(&mut self.cells, &mut cells);
                cells.set(i, record);
                core::mem::swap(&mut self.cells, &mut cells);
            },
            None => {
                proof {
                    lemma_model_push(self.cells@, record);
                    assert(proper_sets(self.cells@.push(record)));
                }
                let mut cells: Vec<Record> = Vec::new();
                core::mem::swap(&mut self.cells, &mut cells);
                cells.push(record);
                core::mem::swap(&mut self.cells, &mut cells);
            },
        }
    }

    fn take(&mut self, i: usize) -> (r: Record)
        requires
            i < old(self).cells.len(),
        ensures
            r == old(self).cells[i as int],
            final(self).entries() == old(self).entries().remove(r.key@),
            final(self).reachable == old(self).reachable,
            final(self).asked == old(self).asked,
    {
        proof {
            use_type_invariant(&*self);
            lemma_model_remove(self.cells@, i as int);
            let next = self.cells@.remove(i as int);
            assert forall|a: int| 0 <= a < next.len() implies #[trigger] next[a] == self.cells@[if a
                < i {
                a
            } else {
                a + 1
            }] by {}
            assert(proper_sets(next));
        }
        let mut cells: Vec<Record> = Vec::new();
        core::mem::swap(&mut self.cells, &mut cells);
        let record: Record = cells.remove(i);
        core::mem::swap(&mut self.cells, &mut cells);
        record
    }
}

impl Backend for MemoryStore {
    closed spec fn entries(&self) -> Map<Seq<char>, Entry> {
        model(self.cells@)
    }

    closed spec fn online(&self) -> bool {
        self.reachable
    }

    fn key_exists(&mut self, key: &str) -> (r: Result<bool, BackendError>)
        ensures
            final(self).asked_spec() == Self::one_more(old(self).asked_spec()),
    {
        self.count();
        if !self.reachable {
            return Err(BackendError::Unavailable);
        }
        Ok(self.find(key).is_some())
    }

    fn get(&mut self, key: &str) -> (r: Result<Option<Vec<u8>>, BackendError>)
        ensures
            final(self).asked_spec() == Self::one_more(old(self).asked_spec()),
    {
        self.count();
        if !self.reachable {
            return Err(BackendError::Unavailable);
        }
        match self.find(key) {
            None => Ok(None),
            Some(i) => match &self.cells[i].slot {
                Slot::Bytes(b) => Ok(Some(copy_bytes(b))),
                Slot::Aliases(_) => Ok(None),
            },
        }
    }

    fn set(&mut self, key: &str, value: Vec<u8>) -> (r: Result<(), BackendError>)
        ensures
            final(self).asked_spec() == Self::one_more(old(self).asked_spec()),
    {
        self.count();
        if !self.reachable {
            return Err(BackendError::Unavailable);
        }
        self.put(key, Slot::Bytes(value));
        Ok(())
    }

    fn delete(&mut self, key: &str) -> (r: Result<bool, BackendError>)
        ensures
            final(self).asked_spec() == Self::one_more(old(self).asked_spec()),
    {
        self.count();
        if !self.reachable {
            return Err(BackendError::Unavailable);
        }
        match self.find(key) {
            None => {
                assert(self.entries().remove(key@) =~= self.entries());
                Ok(false)
            },
            Some(i) => {
                let _ = self.take(i);
                Ok(true)
            },
        }
    }

    fn get_and_delete(&mut self, key: &str) -> (r: Result<Option<Vec<u8>>, BackendError>)
        ensures
            final(self).asked_spec() == Self::one_more(old(self).asked_spec()),
    {
        self.count();
        if !self.reachable {
            return Err(BackendError::Unavailable);
        }
        match self.find(key) {
            None => Ok(None),
            Some(i) => {
                if let Slot::Aliases(_) = &self.cells[i].slot {
                    return Ok(None);
                }
                let record: Record = self.take(i);
                match record.slot {
                    Slot::Bytes(b) => Ok(Some(b)),
                    Slot::Aliases(_) => Ok(None),
                }
            },
        }
    }

    fn set_members(&mut self, key: &str) -> (r: Result<Vec<String>, BackendError>)
        ensures
            final(self).asked_spec() == Self::one_more(old(self).asked_spec()),
    {
        self.count();
        if !self.reachable {
            return Err(BackendError::Unavailable);
        }
        match self.find(key) {
            None => {
                let out: Vec<String> = Vec::new();
                assert(members_of(out@) =~= Set::<Seq<char>>::empty());
                Ok(out)
            },
            Some(i) => match &self.cells[i].slot {
                Slot::Aliases(tags) => {
                    let out: Vec<String> = copy_tags(tags, tags.len());
                    proof {
                        lemma_same_members(out@, tags@);
                    }
                    Ok(out)
                },
                _ => {
                    let out: Vec<String> = Vec::new();
                    assert(members_of(out@) =~= Set::<Seq<char>>::empty());
                    Ok(out)
                },
            },
        }
    }

    fn set_add(&mut self, key: &str, member: &str) -> (r: Result<(), BackendError>)
        ensures
            final(self).asked_spec() == Self::one_more(old(self).asked_spec()),
    {
        self.count();
        if !self.reachable {
            return Err(BackendError::Unavailable);
        }
        proof {
            use_type_invariant(&*self);
        }
        let ghost before = self.entries();
        match self.find(key) {
            None => {
                let mut tags: Vec<String> = Vec::new();
                tags.push(String::from_str(member));
                assert(members_of(tags@) =~= Set::<Seq<char>>::empty().insert(member@)) by {
                    assert(tags[0]@ == member@);
                }
                self.put(key, Slot::Aliases(tags));
            },
            Some(i) => {
                if let Slot::Aliases(tags) = &self.cells[i].slot {
                    assert(proper_tags(tags@));
                    let known: Option<usize> = find_tag(tags, member);
                    if known.is_none() {
                        let mut grown: Vec<String> = copy_tags(tags, tags.len());
                        let ghost copied = grown@;
                        grown.push(String::from_str(member));
                        proof {
                            lemma_same_members(copied, tags@);
                            assert(members_of(grown@) =~= members_of(tags@).insert(member@)) by {
                                assert forall|t: Seq<char>| members_of(grown@).contains(t)
                                    <==> members_of(copied).insert(member@).contains(t) by {
                                    if members_of(grown@).contains(t) {
                                        let j = choose|j: int| 0 <= j < grown.len() && #[trigger] grown[j]@ == t;
                                        if j < copied.len() {
                                            assert(copied[j]@ == t);
                                        }
                                    }
                                    if members_of(copied).contains(t) {
                                        let j = choose|j: int| 0 <= j < copied.len() && #[trigger] copied[j]@ == t;
                                        assert(grown[j]@ == t);
                                    }
                                    if t == member@ {
                                        assert(grown[copied.len() as int]@ == t);
                                    }
                                }
                            }
                            assert(proper_tags(grown@)) by {
                                assert forall|a: int, b: int|
                                    0 <= a < grown.len() && 0 <= b < grown.len() && a
                                        != b implies #[trigger] grown[a]@ != #[trigger] grown[b]@ by {
                                    if a < copied.len() && b < copied.len() {
                                        assert(tags[a]@ != tags[b]@);
                                    } else if a < copied.len() {
                                        assert(members_of(tags@).contains(tags[a]@));
                                    } else {
                                        assert(members_of(tags@).contains(tags[b]@));
                                    }
                                }
                            }
                        }
                        self.put(key, Slot::Aliases(grown));
                    } else {
                        proof {
                            assert(tags[known->Some_0 as int]@ == member@);
                            assert(members_of(tags@).contains(member@));
                            assert(members_of(tags@).insert(member@) =~= members_of(tags@));
                            assert(before.insert(key@, before[key@]) =~= before);
                        }
                    }
                }
            },
        }
        Ok(())
    }

    fn set_remove(&mut self, key: &str, member: &str) -> (r: Result<bool, BackendError>)
        ensures
            final(self).asked_spec() == Self::one_more(old(self).asked_spec()),
    {
        self.count();
        if !self.reachable {
            return Err(BackendError::Unavailable);
        }
        proof {
            use_type_invariant(&*self);
        }
        match self.find(key) {
            None => Ok(false),
            Some(i) => {
                if let Slot::Aliases(tags) = &self.cells[i].slot {
                    assert(proper_tags(tags@));
                    match find_tag(tags, member) {
                        None => Ok(false),
                        Some(at) => {
                            let rest: Vec<String> = copy_tags(tags, at);
                            proof {
                                lemma_members_without(tags@, at as int, rest@);
                            }
                            if rest.len() == 0 {
                                let _ = self.take(i);
                            } else {
                                self.put(key, Slot::Aliases(rest));
                            }
                            Ok(true)
                        },
                    }
                } else {
                    Ok(false)
                }
            },
        }
    }
}

/// Two lists that hold the same strings in the same places have the same
/// members.
pub proof fn lemma_same_members(a: Seq<String>, b: Seq<String>)
    requires
        a.len() == b.len(),
        forall|j: int| 0 <= j < a.len() ==> #[trigger] a[j]@ == b[j]@,
    ensures
        members_of(a) == members_of(b),
        proper_tags(b) ==> proper_tags(a),
{
    assert forall|t: Seq<char>| members_of(a).contains(t) <==> members_of(b).contains(t) by {
        if members_of(a).contains(t) {
            let j = choose|j: int| 0 <= j < a.len() && #[trigger] a[j]@ == t;
            assert(b[j]@ == t);
        }
        if members_of(b).contains(t) {
            let j = choose|j: int| 0 <= j < b.len() && #[trigger] b[j]@ == t;
            assert(a[j]@ == t);
        }
    }
    assert(members_of(a) =~= members_of(b));
    if proper_tags(b) {
        assert forall|i: int, j: int|
            0 <= i < a.len() && 0 <= j < a.len() && i != j implies #[trigger] a[i]@
            != #[trigger] a[j]@ by {
            assert(b[i]@ != b[j]@);
        }
    }
}

/// A list of distinct tags without the one at index `at` has the members
/// of the list but that one, and is empty only where it was the last.
pub proof fn lemma_members_without(tags: Seq<String>, at: int, rest: Seq<String>)
    requires
        proper_tags(tags),
        0 <= at < tags.len(),
        rest.len() == tags.len() - 1,
        forall|j: int|
            0 <= j < rest.len() ==> #[trigger] rest[j]@ == tags[if j < at {
                j
            } else {
                j + 1
            }]@,
    ensures
        members_of(rest) == members_of(tags).remove(tags[at]@),
        rest.len() > 0 ==> proper_tags(rest),
        rest.len() == 0 <==> members_of(rest) == Set::<Seq<char>>::empty(),
{
    assert forall|t: Seq<char>| members_of(rest).contains(t) <==> members_of(tags).remove(
        tags[at]@,
    ).contains(t) by {
        if members_of(rest).contains(t) {
            let j = choose|j: int| 0 <= j < rest.len() && #[trigger] rest[j]@ == t;
            let j2 = if j < at { j } else { j + 1 };
            assert(tags[j2]@ == t);
            assert(tags[j2]@ != tags[at]@);
        }
        if members_of(tags).remove(tags[at]@).contains(t) {
            let j = choose|j: int| 0 <= j < tags.len() && #[trigger] tags[j]@ == t;
            let j1 = if j < at { j } else { j - 1 };
            assert(rest[j1]@ == t);
        }
    }
    assert(members_of(rest) =~= members_of(tags).remove(tags[at]@));
    if rest.len() > 0 {
        assert forall|i: int, j: int|
            0 <= i < rest.len() && 0 <= j < rest.len() && i != j implies #[trigger] rest[i]@
            != #[trigger] rest[j]@ by {
            let i2 = if i < at { i } else { i + 1 };
            let j2 = if j < at { j } else { j + 1 };
            assert(tags[i2]@ != tags[j2]@);
        }
        assert(members_of(rest).contains(rest[0]@));
    } else {
        assert(members_of(rest) =~= Set::<Seq<char>>::empty());
    }
}

} // verus!
