use crate::identity::Identity;
use vstd::prelude::*;

verus! {

/// What the store remembers: identity/flag pairs, one per identity ever
/// written, in the order the identities were first written.
pub type StoreModel = Seq<(Seq<Seq<char>>, bool)>;

/// Whether the identity `id` reads as expanded in `s`: the flag of the
/// most recent pair for `id`, and `true` when no pair for `id` was ever
/// written.
pub open spec fn open_of(s: StoreModel, id: Seq<Seq<char>>) -> bool
    decreases s.len(),
{
    if s.len() == 0 {
        true
    } else if s.last().0 == id {
        s.last().1
    } else {
        open_of(s.drop_last(), id)
    }
}

/// Whether some pair for `id` was ever written to `s`.
pub open spec fn store_has(s: StoreModel, id: Seq<Seq<char>>) -> bool
    decreases s.len(),
{
    s.len() > 0 && (s.last().0 == id || store_has(s.drop_last(), id))
}

/// `s` with the flag of the most recent pair for `id` replaced by
/// `open`, and nothing else changed.
pub open spec fn store_update_last(s: StoreModel, id: Seq<Seq<char>>, open: bool) -> StoreModel
    decreases s.len(),
{
    if s.len() == 0 {
        s
    } else if s.last().0 == id {
        s.update(s.len() - 1, (id, open))
    } else {
        store_update_last(s.drop_last(), id, open).push(s.last())
    }
}

/// The store after `set_open(id, open)`: the pair for `id` is updated
/// in place when one exists, else appended, so the store holds one pair
/// per distinct identity ever written.
pub open spec fn store_set(s: StoreModel, id: Seq<Seq<char>>, open: bool) -> StoreModel {
    if store_has(s, id) {
        store_update_last(s, id, open)
    } else {
        s.push((id, open))
    }
}

/// A pair for `id` exists exactly when some position holds one.
proof fn lemma_store_has_iff(s: StoreModel, id: Seq<Seq<char>>)
    ensures
        store_has(s, id) <==> exists|j: int| 0 <= j < s.len() && (#[trigger] s[j]).0 == id,
    decreases s.len(),
{
    if s.len() > 0 {
        lemma_store_has_iff(s.drop_last(), id);
        if s.last().0 == id {
            assert(s[s.len() - 1].0 == id);
        } else if store_has(s.drop_last(), id) {
            let j = choose|j: int|
                0 <= j < s.drop_last().len() && (#[trigger] s.drop_last()[j]).0 == id;
            assert(s[j].0 == id);
        } else {
            assert forall|j: int| 0 <= j < s.len() implies (#[trigger] s[j]).0 != id by {
                if j < s.len() - 1 {
                    assert(s.drop_last()[j] == s[j]);
                }
            }
        }
    }
}

/// When position `i` holds the most recent pair for `id`, updating that
/// pair is replacing position `i`.
proof fn lemma_store_update_last_at(s: StoreModel, i: int, id: Seq<Seq<char>>, open: bool)
    requires
        0 <= i < s.len(),
        s[i].0 == id,
        forall|j: int| i < j < s.len() ==> (#[trigger] s[j]).0 != id,
    ensures
        store_update_last(s, id, open) == s.update(i, (id, open)),
    decreases s.len(),
{
    if i == s.len() - 1 {
        assert(s.last().0 == id);
    } else {
        assert(s.last().0 != id);
        lemma_store_update_last_at(s.drop_last(), i, id, open);
        assert(store_update_last(s, id, open) == s.drop_last().update(i, (id, open)).push(
            s.last(),
        ));
        assert(s.drop_last().update(i, (id, open)).push(s.last()) =~= s.update(i, (id, open)));
    }
}

/// What replacing the most recent pair for `id` does to every read:
/// `id` now reads `open`, every other identity reads as before.
proof fn lemma_open_of_update(s: StoreModel, i: int, id: Seq<Seq<char>>, open: bool)
    requires
        0 <= i < s.len(),
        s[i].0 == id,
        forall|j: int| i < j < s.len() ==> (#[trigger] s[j]).0 != id,
    ensures
        open_of(s.update(i, (id, open)), id) == open,
        forall|k: Seq<Seq<char>>|
            k != id ==> open_of(s.update(i, (id, open)), k) == open_of(s, k),
    decreases s.len(),
{
    let u = s.update(i, (id, open));
    if i == s.len() - 1 {
        assert(u.last() == (id, open));
        assert forall|k: Seq<Seq<char>>| k != id implies open_of(u, k) == open_of(s, k) by {
            assert(u.drop_last() =~= s.drop_last());
            assert(s.last().0 == id);
        }
    } else {
        assert(u.last() == s.last());
        assert(s.last().0 != id);
        lemma_open_of_update(s.drop_last(), i, id, open);
        assert(u.drop_last() =~= s.drop_last().update(i, (id, open)));
        assert(open_of(u, id) == open_of(u.drop_last(), id));
        assert forall|k: Seq<Seq<char>>| k != id implies open_of(u, k) == open_of(s, k) by {
            if u.last().0 != k {
                assert(open_of(s.drop_last().update(i, (id, open)), k) == open_of(
                    s.drop_last(),
                    k,
                ));
            }
        }
    }
}

/// Collapse state kept for the lifetime of the session: which node
/// identities are expanded.  An identity that was never written reads as
/// expanded, so every branch starts open; entries are never pruned, so a
/// node removed from the tree merely leaves an orphaned pair behind, and
/// the store stays as small as the set of identities ever toggled.
pub struct CollapseStore {
    entries: Vec<(Identity, bool)>,
}

impl View for CollapseStore {
    type V = StoreModel;

    closed spec fn view(&self) -> StoreModel {
        Seq::new(self.entries@.len(), |i: int| (self.entries@[i].0@, self.entries@[i].1))
    }
}

impl CollapseStore {
    /// A store with nothing written yet: every identity reads as
    /// expanded.
    pub fn new() -> (r: CollapseStore)
        ensures
            r@ == Seq::<(Seq<Seq<char>>, bool)>::empty(),
    {
        let r = CollapseStore { entries: Vec::new() };
        proof {
            assert(r@ =~= Seq::<(Seq<Seq<char>>, bool)>::empty());
        }
        r
    }

    /// Whether the children filed under `id` are currently shown:
    /// `true` unless the most recent write for `id` said otherwise.
    pub fn is_open(&self, id: &Identity) -> (r: bool)
        ensures
            r == open_of(self@, id@),
    {
        let mut i: usize = self.entries.len();
        proof {
            assert(self@.take(self.entries@.len() as int) =~= self@);
        }
        while i > 0
            invariant
                i <= self.entries@.len(),
                open_of(self@, id@) == open_of(self@.take(i as int), id@),
            decreases i,
        {
            i = i - 1;
            if self.entries[i].0.same_as(id) {
                proof {
                    assert(self@.take(i + 1).last() == self@[i as int]);
                }
                return self.entries[i].1;
            }
            proof {
                assert(self@.take(i + 1).last() == self@[i as int]);
                assert(self@.take(i + 1).drop_last() =~= self@.take(i as int));
            }
        }
        true
    }

    /// Records whether the children filed under `id` are shown.  Later
    /// reads of `id` see `open`; reads of every other identity are
    /// exactly as before.
    #[verifier::loop_isolation(false)]
    pub fn set_open(&mut self, id: Identity, open: bool)
        ensures
            final(self)@ == store_set(old(self)@, id@, open),
            open_of(final(self)@, id@) == open,
            forall|k: Seq<Seq<char>>|
                k != id@ ==> open_of(final(self)@, k) == open_of(old(self)@, k),
    {
        let ghost idm = id@;
        let mut found: bool = false;
        let mut idx: usize = 0;
        let mut i: usize = self.entries.len();
        while i > 0
            invariant
                i <= self.entries@.len(),
                !found ==> forall|j: int|
                    i <= j < self.entries@.len() ==> (#[trigger] self@[j]).0 != idm,
                found ==> i <= idx < self.entries@.len() && self@[idx as int].0 == idm
                    && forall|j: int|
                    idx < j < self.entries@.len() ==> (#[trigger] self@[j]).0 != idm,
            decreases i,
        {
            i = i - 1;
            if !found && self.entries[i].0.same_as(&id) {
                found = true;
                idx = i;
            }
        }
        if found {
            self.entries[idx] = (id, open);
            proof {
                assert(self@ =~= old(self)@.update(idx as int, (idm, open)));
                lemma_store_has_iff(old(self)@, idm);
                assert(old(self)@[idx as int].0 == idm);
                lemma_store_update_last_at(old(self)@, idx as int, idm, open);
                lemma_open_of_update(old(self)@, idx as int, idm, open);
            }
        } else {
            self.entries.push((id, open));
            proof {
                lemma_store_has_iff(old(self)@, idm);
                assert(self@ =~= old(self)@.push((idm, open)));
                assert(self@.last() == (idm, open));
                assert forall|k: Seq<Seq<char>>| k != idm implies open_of(self@, k) == open_of(
                    old(self)@,
                    k,
                ) by {
                    assert(self@.drop_last() =~= old(self)@);
                }
            }
        }
    }
}

} // verus!
