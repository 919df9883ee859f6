//! The fleet registry: the keyed collection of live session handles.
//!
//! The registry models the map from session id to session; the surrounding
//! manager owns the lock, the worker threads and the handles, and keeps this
//! registry as its single source of truth for which sessions exist.

use vstd::prelude::*;

verus! {

/// One registered session: its id and a human-readable endpoint label.
#[derive(Clone, Debug)]
pub struct FleetEntry {
    pub id: String,
    pub host_display: String,
}

/// The fleet seen as a map from session id to endpoint label.
pub open spec fn map_of(s: Seq<FleetEntry>) -> Map<Seq<char>, Seq<char>>
    decreases s.len(),
{
    if s.len() == 0 {
        Map::empty()
    } else {
        map_of(s.drop_last()).insert(s.last().id@, s.last().host_display@)
    }
}

/// A key is in the map exactly when some entry carries it.
pub proof fn lemma_map_of_contains(s: Seq<FleetEntry>, k: Seq<char>)
    ensures
        map_of(s).contains_key(k) <==> exists|i: int| 0 <= i < s.len() && s[i].id@ == k,
    decreases s.len(),
{
    if s.len() > 0 {
        lemma_map_of_contains(s.drop_last(), k);
        if map_of(s).contains_key(k) {
            if s.last().id@ == k {
                assert(s[s.len() - 1].id@ == k);
            } else {
                let i = choose|i: int| 0 <= i < s.drop_last().len() && s.drop_last()[i].id@ == k;
                assert(s[i].id@ == k);
            }
        }
        if exists|i: int| 0 <= i < s.len() && s[i].id@ == k {
            let i = choose|i: int| 0 <= i < s.len() && s[i].id@ == k;
            if i < s.len() - 1 {
                assert(s.drop_last()[i].id@ == k);
            }
        }
    }
}

/// Pairwise-distinct ids.
pub open spec fn unique_ids(s: Seq<FleetEntry>) -> bool {
    forall|i: int, j: int| 0 <= i < j < s.len() ==> (#[trigger] s[i].id@) != (#[trigger] s[j].id@)
}

proof fn lemma_unique_remove(s: Seq<FleetEntry>, i: int)
    requires
        unique_ids(s),
        0 <= i < s.len(),
    ensures
        unique_ids(s.remove(i)),
{
    assert forall|a: int, b: int| 0 <= a < b < s.remove(i).len() implies (
    #[trigger] s.remove(i)[a].id@) != (#[trigger] s.remove(i)[b].id@) by {
        let a0 = if a < i {
            a
        } else {
            a + 1
        };
        let b0 = if b < i {
            b
        } else {
            b + 1
        };
        assert(s.remove(i)[a] == s[a0] && s.remove(i)[b] == s[b0]);
    }
}

/// Removing the entry at `i` removes exactly its key from the map.
pub proof fn lemma_map_of_remove(s: Seq<FleetEntry>, i: int)
    requires
        unique_ids(s),
        0 <= i < s.len(),
    ensures
        map_of(s.remove(i)) == map_of(s).remove(s[i].id@),
    decreases s.len(),
{
    let k = s[i].id@;
    if i == s.len() - 1 {
        assert(s.remove(i) =~= s.drop_last());
        lemma_map_of_contains(s.drop_last(), k);
        assert(!map_of(s.drop_last()).contains_key(k));
        assert(map_of(s.drop_last()).insert(k, s.last().host_display@).remove(k)
            =~= map_of(s.drop_last()));
    } else {
        let t = s.drop_last();
        assert(s.remove(i).drop_last() =~= t.remove(i));
        assert(s.remove(i).last() == s.last());
        lemma_map_of_remove(t, i);
        assert(t[i].id@ == k);
        assert(s.last().id@ != k);
        assert(map_of(t).remove(k).insert(s.last().id@, s.last().host_display@) =~= map_of(
            t,
        ).insert(s.last().id@, s.last().host_display@).remove(k));
        assert(map_of(s.remove(i)) == map_of(t.remove(i)).insert(
            s.last().id@,
            s.last().host_display@,
        ));
    }
}

/// The set of live sessions, keyed by id.
pub struct FleetRegistry {
    pub entries: Vec<FleetEntry>,
}

impl FleetRegistry {
    /// Ids are unique: at most one session per id.
    pub open spec fn wf(self) -> bool {
        unique_ids(self.entries@)
    }

    /// The registry as a map from id to endpoint label.
    pub open spec fn as_map(self) -> Map<Seq<char>, Seq<char>> {
        map_of(self.entries@)
    }

    /// An empty fleet.
    pub fn new() -> (r: FleetRegistry)
        ensures
            r.wf(),
            r.as_map() =~= Map::<Seq<char>, Seq<char>>::empty(),
            r.entries@ =~= Seq::<FleetEntry>::empty(),
    {
        FleetRegistry { entries: Vec::new() }
    }

    /// Number of live sessions.
    pub fn len(&self) -> (r: usize)
        ensures
            r == self.entries@.len(),
    {
        self.entries.len()
    }

    /// Index of the entry with this id, if any.
    fn find(&self, id: &str) -> (r: Option<usize>)
        requires
            self.wf(),
        ensures
            match r {
                Option::Some(i) => i < self.entries@.len() && self.entries@[i as int].id@ == id@,
                Option::None => forall|i: int| 0 <= i < self.entries@.len() ==> (
                #[trigger] self.entries@[i].id@) != id@,
            },
    {
        let n: usize = self.entries.len();
        let mut i: usize = 0;
        while i < n
            invariant
                n == self.entries@.len(),
                i <= n,
                forall|j: int| 0 <= j < i ==> (#[trigger] self.entries@[j].id@) != id@,
            decreases n - i,
        {
            if crate::textscan::str_eq(self.entries[i].id.as_str(), id) {
                return Option::Some(i);
            }
            i = i + 1;
        }
        Option::None
    }

    /// Registers a session, replacing any session already under this id.
    pub fn insert(&mut self, id: String, host_display: String)
        requires
            old(self).wf(),
        ensures
            final(self).wf(),
            final(self).as_map() == old(self).as_map().insert(id@, host_display@),
    {
        let ghost pre = self.entries@;
        match self.find(id.as_str()) {
            Option::Some(i) => {
                let _ = self.entries.remove(i);
                proof {
                    lemma_map_of_remove(pre, i as int);
                    lemma_unique_remove(pre, i as int);
                    lemma_map_of_contains(self.entries@, id@);
                    assert forall|j: int| 0 <= j < self.entries@.len() implies (
                    #[trigger] self.entries@[j].id@) != id@ by {
                        let j0 = if j < i {
                            j
                        } else {
                            j + 1
                        };
                        assert(self.entries@[j] == pre[j0]);
                    }
                }
            },
            Option::None => {},
        }
        let ghost mid = self.entries@;
        self.entries.push(FleetEntry { id, host_display });
        proof {
            assert(self.entries@.drop_last() =~= mid);
            assert(map_of(self.entries@) == map_of(mid).insert(id@, host_display@));
            assert(map_of(mid) =~= old(self).as_map().remove(id@) || map_of(mid) == map_of(pre));
            assert(final(self).as_map() =~= old(self).as_map().insert(id@, host_display@));
            assert forall|a: int, b: int| 0 <= a < b < self.entries@.len() implies (
            #[trigger] self.entries@[a].id@) != (#[trigger] self.entries@[b].id@) by {
                if b == self.entries@.len() - 1 {
                    assert(self.entries@[a] == mid[a]);
                } else {
                    assert(self.entries@[a] == mid[a] && self.entries@[b] == mid[b]);
                }
            }
        }
    }

    /// Deregisters a session; reports the removed entry.
    pub fn remove(&mut self, id: &str) -> (r: Option<FleetEntry>)
        requires
            old(self).wf(),
        ensures
            final(self).wf(),
            final(self).as_map() == old(self).as_map().remove(id@),
            match r {
                Option::Some(e) => e.id@ == id@ && old(self).as_map().contains_key(id@),
                Option::None => !old(self).as_map().contains_key(id@),
            },
    {
        let ghost pre = self.entries@;
        proof {
            lemma_map_of_contains(pre, id@);
        }
        match self.find(id) {
            Option::Some(i) => {
                let e = self.entries.remove(i);
                proof {
                    lemma_map_of_remove(pre, i as int);
                    lemma_unique_remove(pre, i as int);
                }
                Option::Some(e)
            },
            Option::None => {
                proof {
                    assert(!map_of(pre).contains_key(id@));
                    assert(map_of(pre).remove(id@) =~= map_of(pre));
                }
                Option::None
            },
        }
    }

    /// Empties the fleet, handing every entry back for shutdown. The map is
    /// drained before any shutdown work happens.
    pub fn drain(&mut self) -> (r: Vec<FleetEntry>)
        requires
            old(self).wf(),
        ensures
            final(self).wf(),
            final(self).entries@ =~= Seq::<FleetEntry>::empty(),
            final(self).as_map() =~= Map::<Seq<char>, Seq<char>>::empty(),
            r@ == old(self).entries@,
            map_of(r@) == old(self).as_map(),
    {
        let mut tmp: Vec<FleetEntry> = Vec::new();
        core::mem::swap(&mut self.entries, &mut tmp);
        tmp
    }

    /// A snapshot of `(id, endpoint label)` pairs, in registration order.
    pub fn snapshot(&self) -> (r: Vec<(String, String)>)
        ensures
            r@.len() == self.entries@.len(),
            forall|i: int| 0 <= i < r@.len() ==> (#[trigger] r@[i]).0@ == self.entries@[i].id@
                && r@[i].1@ == self.entries@[i].host_display@,
    {
        let n: usize = self.entries.len();
        let mut out: Vec<(String, String)> = Vec::new();
        let mut i: usize = 0;
        while i < n
            invariant
                n == self.entries@.len(),
                i <= n,
                out@.len() == i,
                forall|j: int| 0 <= j < i ==> (#[trigger] out@[j]).0@ == self.entries@[j].id@
                    && out@[j].1@ == self.entries@[j].host_display@,
            decreases n - i,
        {
            let id = self.entries[i].id.clone();
            let host = self.entries[i].host_display.clone();
            out.push((id, host));
            i = i + 1;
        }
        out
    }
}

/// Registering session `a` and deregistering a different session `b`
/// commute: the fleet ends up the same whichever happens first.
pub proof fn lemma_connect_disconnect_commute(
    m: Map<Seq<char>, Seq<char>>,
    a: Seq<char>,
    host: Seq<char>,
    b: Seq<char>,
)
    requires
        a != b,
    ensures
        m.insert(a, host).remove(b) == m.remove(b).insert(a, host),
{
    assert(m.insert(a, host).remove(b) =~= m.remove(b).insert(a, host));
}

/// Registrations of two distinct sessions commute.
pub proof fn lemma_connect_connect_commute(
    m: Map<Seq<char>, Seq<char>>,
    a: Seq<char>,
    host_a: Seq<char>,
    b: Seq<char>,
    host_b: Seq<char>,
)
    requires
        a != b,
    ensures
        m.insert(a, host_a).insert(b, host_b) == m.insert(b, host_b).insert(a, host_a),
{
    assert(m.insert(a, host_a).insert(b, host_b) =~= m.insert(b, host_b).insert(a, host_a));
}

/// Deregistrations always commute.
pub proof fn lemma_disconnect_disconnect_commute(
    m: Map<Seq<char>, Seq<char>>,
    a: Seq<char>,
    b: Seq<char>,
)
    ensures
        m.remove(a).remove(b) == m.remove(b).remove(a),
{
    assert(m.remove(a).remove(b) =~= m.remove(b).remove(a));
}

/// Draining twice is a no-op the second time: a well-formed registry whose
/// map is empty holds no entries, so the second drain hands back nothing
/// and leaves the fleet empty.
pub proof fn lemma_disconnect_all_idempotent(f: FleetRegistry)
    requires
        f.wf(),
        f.as_map() == Map::<Seq<char>, Seq<char>>::empty(),
    ensures
        f.entries@ =~= Seq::<FleetEntry>::empty(),
{
    if f.entries@.len() > 0 {
        lemma_map_of_contains(f.entries@, f.entries@[0].id@);
        assert(f.as_map().contains_key(f.entries@[0].id@));
    }
}

} // verus!
