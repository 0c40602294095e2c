//! The process registry: a map from a command's literal text to a handle for
//! its live OS process, supporting insert (overwriting an entry under the
//! same key), remove, and drain-all — the cancellation primitive.
//!
//! A handle here is an opaque token; the caller that spawned the process
//! keeps the association from token to child and performs the actual kill
//! on the tokens that `drain_all` hands back.

use vstd::prelude::*;

verus! {

/// The finite map that an association list of `(command, handle)` entries
/// stands for; a later entry under the same key wins.
pub open spec fn map_of(s: Seq<(String, u64)>) -> Map<Seq<char>, u64>
    decreases s.len(),
{
    if s.len() == 0 {
        Map::empty()
    } else {
        map_of(s.drop_last()).insert(s.last().0@, s.last().1)
    }
}

/// No two entries share a command key.
pub open spec fn distinct_keys(s: Seq<(String, u64)>) -> bool {
    forall|i: int, j: int| 0 <= i < j < s.len() ==> #[trigger] s[i].0@ != #[trigger] s[j].0@
}

/// The registered commands are exactly the keys of the entry list.
pub proof fn lemma_map_of_contains(s: Seq<(String, u64)>, k: Seq<char>)
    ensures
        map_of(s).contains_key(k) <==> exists|i: int| 0 <= i < s.len() && #[trigger] s[i].0@ == k,
    decreases s.len(),
{
    if s.len() > 0 {
        lemma_map_of_contains(s.drop_last(), k);
        if s.last().0@ == k {
            assert(s[s.len() - 1].0@ == k);
        } else if map_of(s).contains_key(k) {
            let i = choose|i: int| 0 <= i < s.drop_last().len() && #[trigger] s.drop_last()[i].0@ == k;
            assert(s[i].0@ == k);
        } else if exists|i: int| 0 <= i < s.len() && #[trigger] s[i].0@ == k {
            let i = choose|i: int| 0 <= i < s.len() && #[trigger] s[i].0@ == k;
            assert(s.drop_last()[i].0@ == k);
        }
    }
}

/// Under distinct keys, each entry's key looks up that entry's handle.
pub proof fn lemma_map_of_index(s: Seq<(String, u64)>, i: int)
    requires
        distinct_keys(s),
        0 <= i < s.len(),
    ensures
        map_of(s).contains_key(s[i].0@),
        map_of(s)[s[i].0@] == s[i].1,
    decreases s.len(),
{
    if i < s.len() - 1 {
        assert(s.drop_last()[i] == s[i]);
        lemma_map_of_index(s.drop_last(), i);
    }
}

/// Removing an entry removes exactly its key from the map.
pub proof fn lemma_map_of_remove(s: Seq<(String, u64)>, i: int)
    requires
        distinct_keys(s),
        0 <= i < s.len(),
    ensures
        map_of(s.remove(i)) == map_of(s).remove(s[i].0@),
    decreases s.len(),
{
    s.remove_ensures(i);
    if i == s.len() - 1 {
        assert(s.remove(i) =~= s.drop_last());
        lemma_map_of_contains(s.drop_last(), s[i].0@);
        assert(map_of(s.drop_last()).remove(s[i].0@) =~= map_of(s.drop_last()));
        assert(map_of(s).remove(s[i].0@) =~= map_of(s.drop_last()));
    } else {
        let t = s.remove(i);
        assert(t.last() == s.last());
        assert(t.drop_last() =~= s.drop_last().remove(i)) by {
            s.drop_last().remove_ensures(i);
        }
        lemma_map_of_remove(s.drop_last(), i);
        assert(map_of(t) == map_of(s.drop_last().remove(i)).insert(s.last().0@, s.last().1));
        assert(map_of(s).remove(s[i].0@) =~= map_of(s.drop_last()).remove(s[i].0@).insert(
            s.last().0@,
            s.last().1,
        ));
        assert(map_of(t) =~= map_of(s).remove(s[i].0@));
    }
}

/// The synchronized table of currently-live child processes, keyed by the
/// command's literal text for coordinated cancellation. The caller wraps it
/// in its lock of choice; every operation here is a single atomic step of
/// the map it stands for.
pub struct ProcessRegistry {
    pub entries: Vec<(String, u64)>,
}

impl ProcessRegistry {
    /// The representation invariant: one live handle per command key.
    pub open spec fn wf(self) -> bool {
        distinct_keys(self.entries@)
    }

    /// The map this registry stands for.
    pub open spec fn as_map(self) -> Map<Seq<char>, u64> {
        map_of(self.entries@)
    }

    /// The registered handles, in registration order.
    pub open spec fn handles(self) -> Seq<u64> {
        self.entries@.map_values(|e: (String, u64)| e.1)
    }

    /// An empty registry.
    pub fn new() -> (r: ProcessRegistry)
        ensures
            r.wf(),
            r.as_map() == Map::<Seq<char>, u64>::empty(),
            r.handles() =~= Seq::<u64>::empty(),
    {
        ProcessRegistry { entries: Vec::new() }
    }

    /// How many processes are currently registered.
    pub fn len(&self) -> (n: usize)
        ensures
            n == self.handles().len(),
    {
        self.entries.len()
    }

    /// Remove and return the handle registered under `command`, if any;
    /// a no-op returning `None` otherwise.
    pub fn unregister(&mut self, command: &String) -> (h: Option<u64>)
        requires
            old(self).wf(),
        ensures
            final(self).wf(),
            final(self).as_map() == old(self).as_map().remove(command@),
            h == if old(self).as_map().contains_key(command@) {
                Some(old(self).as_map()[command@])
            } else {
                None::<u64>
            },
            h matches Some(v) ==> (exists|i: int|
                0 <= i < old(self).entries@.len() && #[trigger] old(self).entries@[i].0@
                    == command@ && old(self).entries@[i].1 == v && final(self).entries@ == old(
                    self,
                ).entries@.remove(i)),
            h is None ==> final(self).entries@ == old(self).entries@,
    {
        let ghost s0 = self.entries@;
        let n: usize = self.entries.len();
        let mut i: usize = 0;
        while i < n
            invariant
                i <= n,
                n == self.entries@.len(),
                self.entries@ == s0,
                s0 == old(self).entries@,
                distinct_keys(s0),
                forall|j: int| 0 <= j < i ==> #[trigger] s0[j].0@ != command@,
            decreases n - i,
        {
            if self.entries[i].0 == *command {
                proof {
                    lemma_map_of_index(s0, i as int);
                    lemma_map_of_remove(s0, i as int);
                    s0.remove_ensures(i as int);
                }
                let e = self.entries.remove(i);
                proof {
                    assert(self.entries@ == s0.remove(i as int));
                    assert forall|p: int, q: int|
                        0 <= p < q < self.entries@.len() implies #[trigger] self.entries@[p].0@
                        != #[trigger] self.entries@[q].0@ by {
                        assert(self.entries@[p] == if p < i as int {
                            s0[p]
                        } else {
                            s0[p + 1]
                        });
                        assert(self.entries@[q] == if q < i as int {
                            s0[q]
                        } else {
                            s0[q + 1]
                        });
                    }
                }
                return Some(e.1);
            }
            i += 1;
        }
        proof {
            lemma_map_of_contains(s0, command@);
            assert(!old(self).as_map().contains_key(command@));
            assert(old(self).as_map().remove(command@) =~= old(self).as_map());
        }
        None
    }

    /// Register `handle` as the live process for `command`, overwriting any
    /// existing entry under the same key: the new entry goes to the end of
    /// the registration order, and the overwritten one (if any) leaves it.
    pub fn register(&mut self, command: String, handle: u64)
        requires
            old(self).wf(),
        ensures
            final(self).wf(),
            final(self).as_map() == old(self).as_map().insert(command@, handle),
            final(self).handles().len() >= 1,
            final(self).handles().last() == handle,
            old(self).as_map().contains_key(command@) ==> (exists|i: int|
                0 <= i < old(self).entries@.len() && #[trigger] old(self).entries@[i].0@
                    == command@ && final(self).entries@ == old(self).entries@.remove(i).push(
                    (command, handle),
                )),
            !old(self).as_map().contains_key(command@) ==> final(self).entries@ == old(
                self,
            ).entries@.push((command, handle)),
    {
        let ghost s0 = self.entries@;
        let prev = self.unregister(&command);
        let ghost s1 = self.entries@;
        proof {
            lemma_map_of_contains(s1, command@);
            assert(!map_of(s1).contains_key(command@));
        }
        self.entries.push((command, handle));
        proof {
            assert(self.entries@.drop_last() =~= s1);
            assert(final(self).as_map() =~= old(self).as_map().insert(
                self.entries@.last().0@,
                handle,
            ));
            assert(forall|j: int|
                0 <= j < s1.len() ==> #[trigger] s1[j].0@ != self.entries@.last().0@) by {
                lemma_map_of_contains(s1, self.entries@.last().0@);
            }
            if old(self).as_map().contains_key(command@) {
                let i = choose|i: int|
                    0 <= i < s0.len() && #[trigger] s0[i].0@ == command@ && s0[i].1 == prev->0
                        && s1 == s0.remove(i);
                assert(0 <= i < s0.len() && s0[i].0@ == command@ && self.entries@ == s0.remove(
                    i,
                ).push((self.entries@.last().0, handle)));
            }
        }
    }

    /// Atomically remove every entry and hand back all registered handles,
    /// in registration order, for the caller to terminate best-effort.
    pub fn drain_all(&mut self) -> (hs: Vec<u64>)
        requires
            old(self).wf(),
        ensures
            final(self).wf(),
            final(self).as_map() == Map::<Seq<char>, u64>::empty(),
            final(self).handles() =~= Seq::<u64>::empty(),
            hs@ =~= old(self).handles(),
    {
        let mut hs: Vec<u64> = Vec::new();
        let n: usize = self.entries.len();
        let mut i: usize = 0;
        while i < n
            invariant
                i <= n,
                n == self.entries@.len(),
                self.entries@ == old(self).entries@,
                hs@.len() == i,
                forall|j: int| 0 <= j < i ==> #[trigger] hs@[j] == old(self).entries@[j].1,
            decreases n - i,
        {
            let h = self.entries[i].1;
            hs.push(h);
            i += 1;
        }
        self.entries = Vec::new();
        hs
    }
}

/// Cancellation idempotence: once the registry has been drained its map is
/// empty, so a further drain finds no handle — it terminates nothing and
/// cannot fail.
pub proof fn lemma_cancel_idempotent(r: ProcessRegistry)
    requires
        r.wf(),
        r.as_map() == Map::<Seq<char>, u64>::empty(),
    ensures
        r.handles() =~= Seq::<u64>::empty(),
{
    if r.entries@.len() > 0 {
        lemma_map_of_contains(r.entries@, r.entries@[0].0@);
        assert(r.entries@[0].0@ == r.entries@[0].0@);
        assert(r.as_map().contains_key(r.entries@[0].0@));
        assert(false);
    }
}

} // verus!
