//! A registry that hands out stable identifiers for backend-owned textures.
//!
//! The registry owns the textures it is given. Identifiers come from a counter
//! that only ever grows, so that a number handed out once is never handed out
//! again, whatever is removed in between.

use crate::draw_data::TextureId;
use std::collections::hash_map::Entry;
use std::collections::HashMap;
use vstd::prelude::*;

verus! {

broadcast use vstd::std_specs::hash::group_hash_axioms;

/// What a [`Textures`] holds: the textures by number, and the number that the
/// next `insert` hands out.
pub struct TexturesView<T> {
    pub entries: Map<usize, T>,
    pub next: usize,
}

impl<T> TexturesView<T> {
    /// The registry that holds nothing and has handed out nothing.
    pub open spec fn empty() -> Self {
        TexturesView { entries: Map::empty(), next: 0 }
    }

    /// The texture registered under `id`, if there is one.
    pub open spec fn get(self, id: TextureId) -> Option<T> {
        if self.entries.contains_key(id@) {
            Some(self.entries[id@])
        } else {
            None
        }
    }

    /// The registry after `texture` was registered under the next number.
    pub open spec fn insert(self, texture: T) -> Self {
        TexturesView {
            entries: self.entries.insert(self.next, texture),
            next: (self.next + 1) as usize,
        }
    }

    /// The registry after `texture` was put under `id`.
    pub open spec fn replace(self, id: TextureId, texture: T) -> Self {
        TexturesView { entries: self.entries.insert(id@, texture), next: self.next }
    }

    /// The registry after whatever was under `id` was taken out.
    pub open spec fn remove(self, id: TextureId) -> Self {
        TexturesView { entries: self.entries.remove(id@), next: self.next }
    }
}

/// The textures could not be numbered any further: the counter has reached
/// the last number it can hold. The texture that found no place comes back
/// with the error.
#[derive(Debug)]
pub struct IdentifierExhausted<T> {
    pub texture: T,
}

/// Generic texture mapping for use by renderers.
#[derive(Debug)]
pub struct Textures<T> {
    textures: HashMap<usize, T>,
    next: usize,
}

impl<T> View for Textures<T> {
    type V = TexturesView<T>;

    closed spec fn view(&self) -> TexturesView<T> {
        TexturesView { entries: self.textures@, next: self.next }
    }
}

impl<T> Default for Textures<T> {
    fn default() -> (r: Self)
        ensures
            r@ == TexturesView::<T>::empty(),
    {
        Textures::new()
    }
}

impl<T> Textures<T> {
    /// Creates a registry that holds nothing. Its first `insert` hands out
    /// the number 0.
    pub fn new() -> (r: Self)
        ensures
            r@ == TexturesView::<T>::empty(),
    {
        Textures { textures: HashMap::new(), next: 0 }
    }

    /// Registers `texture` under the next number that was never handed out,
    /// and returns that number as an identifier. The identifier differs from
    /// every one handed out before. Where `replace` has put a texture under
    /// that very number, the new texture takes its place.
    pub fn insert(&mut self, texture: T) -> (id: TextureId)
        requires
            old(self)@.next < usize::MAX,
        ensures
            id@ == old(self)@.next,
            final(self)@ == old(self)@.insert(texture),
            forall|earlier: TextureId| #[trigger] earlier@ < old(self)@.next ==> id != earlier,
    {
        let id = self.next;
        self.textures.insert(id, texture);
        self.next += 1;
        TextureId::from(id)
    }

    /// Registers `texture` as `insert` does, unless the counter has reached
    /// the last number it can hold: then the registry stays as it is and the
    /// texture comes back.
    pub fn try_insert(&mut self, texture: T) -> (r: Result<TextureId, IdentifierExhausted<T>>)
        ensures
            match r {
                Ok(id) => {
                    &&& old(self)@.next < usize::MAX
                    &&& id@ == old(self)@.next
                    &&& final(self)@ == old(self)@.insert(texture)
                    &&& forall|earlier: TextureId| #[trigger]
                        earlier@ < old(self)@.next ==> id != earlier
                },
                Err(e) => {
                    &&& old(self)@.next == usize::MAX
                    &&& e.texture == texture
                    &&& final(self)@ == old(self)@
                },
            },
    {
        if self.next == usize::MAX {
            Err(IdentifierExhausted { texture })
        } else {
            Ok(self.insert(texture))
        }
    }

    /// Puts `texture` under `id`, whether or not `id` was ever handed out, and
    /// returns what was there before.
    pub fn replace(&mut self, id: TextureId, texture: T) -> (r: Option<T>)
        ensures
            r == old(self)@.get(id),
            final(self)@ == old(self)@.replace(id, texture),
    {
        self.textures.insert(id.id(), texture)
    }

    /// Takes out and returns what is under `id`. The number does not become
    /// free for `insert` again.
    pub fn remove(&mut self, id: TextureId) -> (r: Option<T>)
        ensures
            r == old(self)@.get(id),
            final(self)@ == old(self)@.remove(id),
    {
        let key = id.id();
        self.textures.remove(&key)
    }

    /// The texture under `id`, if there is one.
    pub fn get(&self, id: TextureId) -> (r: Option<&T>)
        ensures
            match r {
                Some(texture) => self@.get(id) == Some(*texture),
                None => self@.get(id) is None,
            },
    {
        let key = id.id();
        self.textures.get(&key)
    }

    /// The texture under `id`, if there is one, for changing in place. What
    /// the caller leaves in it is what the registry then holds under `id`.
    pub fn get_mut(&mut self, id: TextureId) -> (r: Option<&mut T>)
        ensures
            match r {
                Some(texture) => {
                    &&& old(self)@.get(id) == Some(*texture)
                    &&& final(self)@ == old(self)@.replace(id, *final(texture))
                },
                None => old(self)@.get(id) is None && final(self)@ == old(self)@,
            },
    {
        let key = id.id();
        // A lookup that finds nothing must not make the table grow, as
        // asking for a vacant entry would.
        if self.textures.contains_key(&key) {
            slot_of(&mut self.textures, key)
        } else {
            None
        }
    }
}

/// The value under `key`, if there is one, for changing in place.
fn slot_of<T>(map: &mut HashMap<usize, T>, key: usize) -> (r: Option<&mut T>)
    ensures
        match r {
            Some(value) => {
                &&& old(map)@.contains_key(key)
                &&& *value == old(map)@[key]
                &&& final(map)@ == old(map)@.insert(key, *final(value))
            },
            None => !old(map)@.contains_key(key) && final(map)@ == old(map)@,
        },
{
    match map.entry(key) {
        Entry::Occupied(slot) => Some(slot.into_mut()),
        Entry::Vacant(_) => None,
    }
}

/// One change to a registry.
pub enum TextureOp<T> {
    /// `insert` of a texture.
    Insert(T),
    /// `replace` under an identifier. What `get_mut` lets a caller do is a
    /// `Replace` under an identifier that is present.
    Replace(TextureId, T),
    /// `remove` of an identifier.
    Remove(TextureId),
}

/// The number of inserts among `ops`.
pub open spec fn inserts_in<T>(ops: Seq<TextureOp<T>>) -> nat
    decreases ops.len(),
{
    if ops.len() == 0 {
        0
    } else {
        inserts_in(ops.drop_last()) + if ops.last() is Insert {
            1nat
        } else {
            0nat
        }
    }
}

impl<T> TexturesView<T> {
    /// The registry after `op`.
    pub open spec fn apply(self, op: TextureOp<T>) -> Self {
        match op {
            TextureOp::Insert(texture) => self.insert(texture),
            TextureOp::Replace(id, texture) => self.replace(id, texture),
            TextureOp::Remove(id) => self.remove(id),
        }
    }

    /// The registry after all of `ops`, first to last.
    pub open spec fn run(self, ops: Seq<TextureOp<T>>) -> Self
        decreases ops.len(),
    {
        if ops.len() == 0 {
            self
        } else {
            self.run(ops.drop_last()).apply(ops.last())
        }
    }

    /// The number that the op at place `k` of `ops` is given, where it is an
    /// insert: the counter as the ops before it have left it.
    pub open spec fn issued_at(self, ops: Seq<TextureOp<T>>, k: int) -> usize {
        self.run(ops.take(k)).next
    }

    /// No insert among `ops` finds the numbers used up.
    pub open spec fn can_number(self, ops: Seq<TextureOp<T>>) -> bool {
        self.next + inserts_in(ops) <= usize::MAX
    }
}

/// A prefix of a sequence of ops holds no more inserts than the whole, and
/// one fewer if it stops before an insert.
pub proof fn lemma_inserts_in_prefix<T>(ops: Seq<TextureOp<T>>, n: int)
    requires
        0 <= n <= ops.len(),
    ensures
        inserts_in(ops.take(n)) <= inserts_in(ops),
        n < ops.len() && ops[n] is Insert ==> inserts_in(ops.take(n)) < inserts_in(ops),
    decreases ops.len(),
{
    if n == ops.len() {
        assert(ops.take(n) =~= ops);
    } else {
        assert(ops.drop_last().take(n) =~= ops.take(n));
        if n == ops.len() - 1 {
            assert(ops.drop_last() =~= ops.take(n));
        } else {
            lemma_inserts_in_prefix(ops.drop_last(), n);
        }
    }
}

/// The counter only counts the inserts: after `ops` it has grown by their
/// number.
pub proof fn lemma_counter_counts_inserts<T>(s: TexturesView<T>, ops: Seq<TextureOp<T>>)
    requires
        s.can_number(ops),
    ensures
        s.run(ops).next == s.next + inserts_in(ops),
    decreases ops.len(),
{
    if ops.len() > 0 {
        lemma_counter_counts_inserts(s, ops.drop_last());
    }
}

/// Whatever else is done to a registry in between, two inserts never hand out
/// the same identifier.
pub proof fn lemma_inserted_ids_distinct<T>(
    s: TexturesView<T>,
    ops: Seq<TextureOp<T>>,
    i: int,
    j: int,
)
    requires
        s.can_number(ops),
        0 <= i < j < ops.len(),
        ops[i] is Insert,
        ops[j] is Insert,
    ensures
        s.issued_at(ops, i) < s.issued_at(ops, j),
{
    let upto_j = ops.take(j);
    lemma_inserts_in_prefix(ops, j);
    lemma_counter_counts_inserts(s, upto_j);
    assert(upto_j.take(i) =~= ops.take(i));
    lemma_inserts_in_prefix(upto_j, i);
    lemma_counter_counts_inserts(s, ops.take(i));
}

/// An identifier below the counter, as every identifier that `insert` has
/// handed out is, is never handed out by a later insert.
pub proof fn lemma_issued_id_not_reissued<T>(
    s: TexturesView<T>,
    ops: Seq<TextureOp<T>>,
    k: int,
    id: TextureId,
)
    requires
        s.can_number(ops),
        id@ < s.next,
        0 <= k < ops.len(),
        ops[k] is Insert,
    ensures
        s.issued_at(ops, k) > id@,
{
    lemma_inserts_in_prefix(ops, k);
    lemma_counter_counts_inserts(s, ops.take(k));
}

/// An identifier below the counter stays below it, whatever is done to the
/// registry: so every identifier that `insert` has handed out differs from
/// the one that the next `insert` hands out.
pub proof fn lemma_issued_id_stays_below_counter<T>(
    s: TexturesView<T>,
    ops: Seq<TextureOp<T>>,
    id: TextureId,
)
    requires
        s.can_number(ops),
        id@ < s.next,
    ensures
        id@ < s.run(ops).next,
        forall|next: TextureId| #[trigger] next@ == s.run(ops).next ==> next != id,
{
    lemma_counter_counts_inserts(s, ops);
}

/// Right after `remove(id)`, `get(id)` finds nothing.
pub proof fn lemma_remove_then_get<T>(s: TexturesView<T>, id: TextureId)
    ensures
        s.remove(id).get(id) is None,
{
}

/// Once an identifier below the counter is removed, `get` finds nothing under
/// it for as long as no `replace` puts something there: no insert can.
pub proof fn lemma_removed_id_stays_empty<T>(
    s: TexturesView<T>,
    id: TextureId,
    ops: Seq<TextureOp<T>>,
)
    requires
        s.can_number(ops),
        id@ < s.next,
        forall|k: int|
            0 <= k < ops.len() ==> !(#[trigger] ops[k] matches TextureOp::Replace(other, _)
                && other@ == id@),
    ensures
        s.remove(id).run(ops).get(id) is None,
        s.remove(id).run(ops).next >= s.next,
    decreases ops.len(),
{
    lemma_counter_counts_inserts(s.remove(id), ops);
    if ops.len() > 0 {
        let before = ops.drop_last();
        lemma_inserts_in_prefix(ops, ops.len() - 1);
        assert(before =~= ops.take(ops.len() - 1));
        assert forall|k: int| 0 <= k < before.len() implies !(#[trigger] before[k] matches TextureOp::Replace(
            other,
            _,
        ) && other@ == id@) by {
            assert(before[k] == ops[k]);
        }
        lemma_removed_id_stays_empty(s, id, before);
        assert(!(ops[ops.len() - 1] matches TextureOp::Replace(other, _) && other@ == id@));
    }
}

/// Right after `replace(id, texture)`, `get(id)` finds `texture`.
pub proof fn lemma_replace_then_get<T>(s: TexturesView<T>, id: TextureId, texture: T)
    ensures
        s.replace(id, texture).get(id) == Some(texture),
{
}

} // verus!
