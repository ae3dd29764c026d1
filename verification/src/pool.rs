//! The claim/release assignment policy: a FIFO pool holds the printers not
//! currently serving any connected reader. A connecting reader claims the
//! printer at the front of the pool; a disconnecting reader's row is removed
//! and its printer rejoins the back of the pool.

use vstd::prelude::*;
use vstd::multiset::Multiset;
use crate::reader::{
    ReaderEntry, ReaderModel, assigned_of, connected_of, copy_entries, find_reader, has_reader,
    models_of, reader_index, unique_names,
};
use crate::registry::{PrinterRegistry, serials_of};
use crate::roundrobin::{last_event_for, PresenceEvent};

verus! {

broadcast use vstd::multiset::group_multiset_axioms, vstd::seq_lib::group_to_multiset_ensures;

/// The printer assignment of each row, in row order.
pub open spec fn assignments_of(readers: Seq<ReaderModel>) -> Seq<Option<Seq<char>>> {
    readers.map_values(|r: ReaderModel| r.assigned_printer)
}

/// The serial numbers among a sequence of optional assignments, as a
/// multiset: how often each printer is assigned.
pub open spec fn opt_multiset(s: Seq<Option<Seq<char>>>) -> Multiset<Seq<char>>
    decreases s.len(),
{
    if s.len() == 0 {
        Multiset::empty()
    } else {
        let rest = opt_multiset(s.drop_last());
        match s.last() {
            Some(x) => rest.insert(x),
            None => rest,
        }
    }
}

/// Appending an assignment adds its serial (if any) to the multiset.
pub proof fn lemma_opt_multiset_push(s: Seq<Option<Seq<char>>>, o: Option<Seq<char>>)
    ensures
        opt_multiset(s.push(o)) == match o {
            Some(x) => opt_multiset(s).insert(x),
            None => opt_multiset(s),
        },
{
    assert(s.push(o).drop_last() =~= s);
    assert(s.push(o).last() == o);
}

/// Removing an assignment takes its serial (if any) out of the multiset.
pub proof fn lemma_opt_multiset_remove(s: Seq<Option<Seq<char>>>, i: int)
    requires
        0 <= i < s.len(),
    ensures
        match s[i] {
            Some(x) => opt_multiset(s).count(x) >= 1 && opt_multiset(s.remove(i)) == opt_multiset(
                s,
            ).remove(x),
            None => opt_multiset(s.remove(i)) == opt_multiset(s),
        },
    decreases s.len(),
{
    if i == s.len() - 1 {
        assert(s.remove(i) =~= s.drop_last());
        match s[i] {
            Some(x) => {
                assert(opt_multiset(s) == opt_multiset(s.drop_last()).insert(x));
                assert(opt_multiset(s).remove(x) =~= opt_multiset(s.drop_last()));
            },
            None => {},
        }
    } else {
        let shorter = s.drop_last();
        lemma_opt_multiset_remove(shorter, i);
        assert(s.remove(i).drop_last() =~= shorter.remove(i));
        assert(s.remove(i).last() == s.last());
        match s.last() {
            Some(y) => {
                assert(opt_multiset(s.remove(i)) == opt_multiset(shorter.remove(i)).insert(y));
                match s[i] {
                    Some(x) => {
                        assert(shorter[i] == s[i]);
                        assert(opt_multiset(s).count(x) >= 1);
                        assert(opt_multiset(s.remove(i)) =~= opt_multiset(s).remove(x));
                    },
                    None => {
                        assert(opt_multiset(s.remove(i)) =~= opt_multiset(s));
                    },
                }
            },
            None => {
                assert(opt_multiset(s.remove(i)) == opt_multiset(shorter.remove(i)));
                assert(opt_multiset(s) == opt_multiset(shorter));
            },
        }
    }
}

/// The claim/release table and its free pool, as mathematical values.
pub ghost struct PoolModel {
    pub readers: Seq<ReaderModel>,
    pub pool: Seq<Seq<char>>,
}

/// The invariant of the claim/release policy: reader names are unique, and
/// the printers in the free pool together with the printers assigned to
/// readers are exactly the registry's serial numbers, each exactly once.
pub open spec fn pool_wf(m: PoolModel, serials: Seq<Seq<char>>) -> bool {
    &&& unique_names(m.readers)
    &&& opt_multiset(assignments_of(m.readers)).add(m.pool.to_multiset())
        == serials.to_multiset()
}

/// A connect event: a known reader is only marked connected; an unknown one
/// gets a new row holding the front of the pool, or no assignment when the
/// pool is exhausted (degraded capacity, not an error).
pub open spec fn pool_connect_step(m: PoolModel, name: Seq<char>) -> PoolModel {
    if has_reader(m.readers, name) {
        let i = reader_index(m.readers, name);
        PoolModel {
            readers: m.readers.update(
                i,
                ReaderModel {
                    name: m.readers[i].name,
                    connected: true,
                    assigned_printer: m.readers[i].assigned_printer,
                },
            ),
            pool: m.pool,
        }
    } else if m.pool.len() > 0 {
        PoolModel {
            readers: m.readers.push(
                ReaderModel { name: name, connected: true, assigned_printer: Some(m.pool[0]) },
            ),
            pool: m.pool.drop_first(),
        }
    } else {
        PoolModel {
            readers: m.readers.push(
                ReaderModel { name: name, connected: true, assigned_printer: None },
            ),
            pool: m.pool,
        }
    }
}

/// A disconnect event: the reader's row is removed and its printer, if it
/// held one, rejoins the back of the pool.
pub open spec fn pool_disconnect_step(m: PoolModel, name: Seq<char>) -> PoolModel {
    if has_reader(m.readers, name) {
        let i = reader_index(m.readers, name);
        PoolModel {
            readers: m.readers.remove(i),
            pool: match m.readers[i].assigned_printer {
                Some(s) => m.pool.push(s),
                None => m.pool,
            },
        }
    } else {
        m
    }
}

/// One hot-plug event under the claim/release policy.
pub open spec fn pool_step(m: PoolModel, name: Seq<char>, added: bool) -> PoolModel {
    if added {
        pool_connect_step(m, name)
    } else {
        pool_disconnect_step(m, name)
    }
}

/// A whole sequence of hot-plug events, applied in order.
pub open spec fn pool_run(m: PoolModel, events: Seq<PresenceEvent>) -> PoolModel
    decreases events.len(),
{
    if events.len() == 0 {
        m
    } else {
        pool_run(pool_step(m, events[0].name, events[0].added), events.drop_first())
    }
}

/// One event preserves the pool invariant.
pub proof fn lemma_pool_step_preserves_wf(m: PoolModel, serials: Seq<Seq<char>>, name: Seq<char>, added: bool)
    requires
        pool_wf(m, serials),
    ensures
        pool_wf(pool_step(m, name, added), serials),
{
    let post = pool_step(m, name, added);
    if added {
        if has_reader(m.readers, name) {
            let i = reader_index(m.readers, name);
            assert(0 <= i < m.readers.len() && m.readers[i].name == name);
            assert(forall|k: int|
                0 <= k < post.readers.len() ==> post.readers[k].name == m.readers[k].name);
            assert(unique_names(post.readers));
            assert(assignments_of(post.readers) =~= assignments_of(m.readers));
        } else if m.pool.len() > 0 {
            let p0 = m.pool[0];
            crate::reader::lemma_unique_names_push(m.readers, name, true, Some(p0));
            assert(assignments_of(post.readers) =~= assignments_of(m.readers).push(Some(p0)));
            lemma_opt_multiset_push(assignments_of(m.readers), Some(p0));
            assert(m.pool.drop_first() =~= m.pool.remove(0));
            assert(m.pool.remove(0).to_multiset() == m.pool.to_multiset().remove(p0));
            assert(m.pool.contains(p0));
            assert(m.pool.to_multiset().count(p0) > 0);
            assert(opt_multiset(assignments_of(post.readers)).add(post.pool.to_multiset())
                =~= serials.to_multiset());
        } else {
            crate::reader::lemma_unique_names_push(m.readers, name, true, None);
            assert(assignments_of(post.readers) =~= assignments_of(m.readers).push(None));
            lemma_opt_multiset_push(assignments_of(m.readers), None);
        }
    } else {
        if has_reader(m.readers, name) {
            let i = reader_index(m.readers, name);
            assert(0 <= i < m.readers.len() && m.readers[i].name == name);
            crate::reader::lemma_unique_names_remove(m.readers, i);
            assert(assignments_of(post.readers) =~= assignments_of(m.readers).remove(i));
            assert(assignments_of(m.readers)[i] == m.readers[i].assigned_printer);
            lemma_opt_multiset_remove(assignments_of(m.readers), i);
            match m.readers[i].assigned_printer {
                Some(s) => {
                    assert(opt_multiset(assignments_of(m.readers)).count(s) >= 1);
                    assert(opt_multiset(assignments_of(post.readers)).add(
                        post.pool.to_multiset(),
                    ) =~= serials.to_multiset());
                },
                None => {},
            }
        }
    }
}

/// What one event does and does not touch: rows of other readers keep their
/// presence, connectivity and assignment; the event's own reader ends
/// present and connected after a connect, and absent after a disconnect.
pub proof fn lemma_pool_step_frame(m: PoolModel, name: Seq<char>, added: bool)
    requires
        unique_names(m.readers),
    ensures
        ({
            let post = pool_step(m, name, added);
            &&& unique_names(post.readers)
            &&& added ==> has_reader(post.readers, name) && connected_of(post.readers, name)
            &&& !added ==> !has_reader(post.readers, name)
            &&& forall|other: Seq<char>|
                other != name ==> #[trigger] connected_of(post.readers, other) == connected_of(
                    m.readers,
                    other,
                ) && has_reader(post.readers, other) == has_reader(m.readers, other)
                    && assigned_of(post.readers, other) == assigned_of(m.readers, other)
        }),
{
    let post = pool_step(m, name, added);
    if added {
        if has_reader(m.readers, name) {
            let i = reader_index(m.readers, name);
            assert(0 <= i < m.readers.len() && m.readers[i].name == name);
            crate::reader::lemma_reader_index_unique(m.readers, name, i);
            assert(forall|k: int|
                0 <= k < post.readers.len() ==> post.readers[k].name == m.readers[k].name);
            assert(unique_names(post.readers));
            crate::reader::lemma_reader_index_unique(post.readers, name, i);
            assert forall|other: Seq<char>| other != name implies #[trigger] connected_of(
                post.readers,
                other,
            ) == connected_of(m.readers, other) && has_reader(post.readers, other) == has_reader(
                m.readers,
                other,
            ) && assigned_of(post.readers, other) == assigned_of(m.readers, other) by {
                if has_reader(m.readers, other) {
                    let j = reader_index(m.readers, other);
                    assert(0 <= j < m.readers.len() && m.readers[j].name == other);
                    assert(j != i);
                    assert(post.readers[j] == m.readers[j]);
                    crate::reader::lemma_reader_index_unique(post.readers, other, j);
                } else {
                    if has_reader(post.readers, other) {
                        let j = reader_index(post.readers, other);
                        assert(0 <= j < post.readers.len() && post.readers[j].name == other);
                        assert(m.readers[j].name == other);
                        assert(false);
                    }
                }
            }
        } else {
            let n = m.readers.len() as int;
            let assigned: Option<Seq<char>> = if m.pool.len() > 0 {
                Some(m.pool[0])
            } else {
                None
            };
            crate::reader::lemma_unique_names_push(m.readers, name, true, assigned);
            assert(post.readers == m.readers.push(
                ReaderModel { name: name, connected: true, assigned_printer: assigned },
            ));
            assert(post.readers[n].name == name);
            crate::reader::lemma_reader_index_unique(post.readers, name, n);
            assert forall|other: Seq<char>| other != name implies #[trigger] connected_of(
                post.readers,
                other,
            ) == connected_of(m.readers, other) && has_reader(post.readers, other) == has_reader(
                m.readers,
                other,
            ) && assigned_of(post.readers, other) == assigned_of(m.readers, other) by {
                if has_reader(m.readers, other) {
                    let j = reader_index(m.readers, other);
                    assert(0 <= j < m.readers.len() && m.readers[j].name == other);
                    assert(post.readers[j].name == other);
                    crate::reader::lemma_reader_index_unique(post.readers, other, j);
                } else {
                    if has_reader(post.readers, other) {
                        let j = reader_index(post.readers, other);
                        assert(0 <= j < post.readers.len() && post.readers[j].name == other);
                        assert(j != n);
                        assert(m.readers[j].name == other);
                        assert(false);
                    }
                }
            }
        }
    } else {
        if has_reader(m.readers, name) {
            let i = reader_index(m.readers, name);
            assert(0 <= i < m.readers.len() && m.readers[i].name == name);
            crate::reader::lemma_reader_index_unique(m.readers, name, i);
            crate::reader::lemma_unique_names_remove(m.readers, i);
            m.readers.remove_ensures(i);
            assert(post.readers == m.readers.remove(i));
            if has_reader(post.readers, name) {
                let j = reader_index(post.readers, name);
                assert(0 <= j < post.readers.len() && post.readers[j].name == name);
                let oj: int = if j < i {
                    j
                } else {
                    j + 1
                };
                assert(m.readers[oj].name == name);
                assert(oj != i);
                assert(false);
            }
            assert forall|other: Seq<char>| other != name implies #[trigger] connected_of(
                post.readers,
                other,
            ) == connected_of(m.readers, other) && has_reader(post.readers, other) == has_reader(
                m.readers,
                other,
            ) && assigned_of(post.readers, other) == assigned_of(m.readers, other) by {
                if has_reader(m.readers, other) {
                    let j = reader_index(m.readers, other);
                    assert(0 <= j < m.readers.len() && m.readers[j].name == other);
                    assert(j != i);
                    let pj: int = if j < i {
                        j
                    } else {
                        j - 1
                    };
                    assert(post.readers[pj] == m.readers[j]);
                    crate::reader::lemma_reader_index_unique(post.readers, other, pj);
                } else {
                    if has_reader(post.readers, other) {
                        let j = reader_index(post.readers, other);
                        assert(0 <= j < post.readers.len() && post.readers[j].name == other);
                        let oj: int = if j < i {
                            j
                        } else {
                            j + 1
                        };
                        assert(m.readers[oj].name == other);
                        assert(false);
                    }
                }
            }
        }
    }
}

/// Law: under the claim/release policy too, a reader's observed state tracks
/// the last event for its name: present and connected after a final connect,
/// absent after a final disconnect; a name no event mentioned is untouched.
pub proof fn lemma_pool_connected_tracks_last_event(
    m: PoolModel,
    events: Seq<PresenceEvent>,
    name: Seq<char>,
)
    requires
        unique_names(m.readers),
    ensures
        ({
            let post = pool_run(m, events);
            match last_event_for(events, name) {
                Some(added) => connected_of(post.readers, name) == added && has_reader(
                    post.readers,
                    name,
                ) == added,
                None => connected_of(post.readers, name) == connected_of(m.readers, name)
                    && has_reader(post.readers, name) == has_reader(m.readers, name),
            }
        }),
    decreases events.len(),
{
    if events.len() > 0 {
        let mid = pool_step(m, events[0].name, events[0].added);
        lemma_pool_step_frame(m, events[0].name, events[0].added);
        lemma_pool_connected_tracks_last_event(mid, events.drop_first(), name);
    }
}

/// Law: however connect and disconnect events interleave, every printer of
/// the registry is at every point in exactly one place — the free pool or
/// the assignment of exactly one reader; none is lost, none is duplicated.
pub proof fn lemma_pool_invariant_any_interleaving(
    m: PoolModel,
    serials: Seq<Seq<char>>,
    events: Seq<PresenceEvent>,
)
    requires
        pool_wf(m, serials),
    ensures
        pool_wf(pool_run(m, events), serials),
    decreases events.len(),
{
    if events.len() > 0 {
        lemma_pool_step_preserves_wf(m, serials, events[0].name, events[0].added);
        lemma_pool_invariant_any_interleaving(
            pool_step(m, events[0].name, events[0].added),
            serials,
            events.drop_first(),
        );
    }
}

/// The reader assignment table under the claim/release policy, with its
/// FIFO pool of free printers.
pub struct PoolTable {
    readers: Vec<ReaderEntry>,
    pool: Vec<String>,
}

impl View for PoolTable {
    type V = PoolModel;

    closed spec fn view(&self) -> PoolModel {
        PoolModel {
            readers: models_of(self.readers@),
            pool: self.pool@.map_values(|s: String| s@),
        }
    }
}

impl PoolTable {
    /// The pool invariant, relative to a registry's serial numbers.
    pub open spec fn wf_for(&self, serials: Seq<Seq<char>>) -> bool {
        pool_wf(self@, serials)
    }

    /// The starting state: no reader known, every printer free, in the
    /// registry's enumeration order.
    pub fn new(registry: &PrinterRegistry) -> (t: PoolTable)
        requires
            registry.wf(),
        ensures
            t@.readers == Seq::<ReaderModel>::empty(),
            t@.pool == serials_of(registry@),
            t.wf_for(serials_of(registry@)),
    {
        let mut pool: Vec<String> = Vec::new();
        let mut i: usize = 0;
        while i < registry.len()
            invariant
                i <= registry@.len(),
                pool@.len() == i,
                forall|k: int| 0 <= k < i ==> (#[trigger] pool@[k])@ == serials_of(registry@)[k],
            decreases registry@.len() - i,
        {
            pool.push(registry.serial_at(i).clone());
            i += 1;
        }
        let t = PoolTable { readers: Vec::new(), pool };
        proof {
            assert(t@.readers =~= Seq::<ReaderModel>::empty());
            assert(t@.pool =~= serials_of(registry@));
            assert(opt_multiset(assignments_of(t@.readers)) =~= Multiset::empty());
            assert(opt_multiset(assignments_of(t@.readers)).add(t@.pool.to_multiset())
                =~= serials_of(registry@).to_multiset());
        }
        t
    }

    /// Record that a reader was attached; returns the printer it now holds,
    /// or `None` when the pool was exhausted and it goes unassigned.
    pub fn record_connect(&mut self, name: &String) -> (r: Option<String>)
        requires
            unique_names(old(self)@.readers),
        ensures
            final(self)@ == pool_connect_step(old(self)@, name@),
            unique_names(final(self)@.readers),
            match r {
                Some(s) => assigned_of(final(self)@.readers, name@) == Some(s@),
                None => assigned_of(final(self)@.readers, name@) is None,
            },
    {
        match find_reader(&self.readers, name) {
            Some(i) => {
                proof {
                    crate::reader::lemma_reader_index_unique(old(self)@.readers, name@, i as int);
                }
                self.readers[i].connected = true;
                proof {
                    assert(self@.readers =~= pool_connect_step(old(self)@, name@).readers);
                    assert(forall|k: int|
                        0 <= k < self@.readers.len() ==> self@.readers[k].name == old(
                            self,
                        )@.readers[k].name);
                    assert(unique_names(self@.readers));
                    crate::reader::lemma_reader_index_unique(self@.readers, name@, i as int);
                }
                match &self.readers[i].assigned_printer {
                    Some(s) => Some(s.clone()),
                    None => None,
                }
            },
            None => {
                let ghost pre = self@;
                if self.pool.len() > 0 {
                    let serial = self.pool.remove(0);
                    let claimed = serial.clone();
                    self.readers.push(
                        ReaderEntry {
                            name: name.clone(),
                            connected: true,
                            assigned_printer: Some(serial),
                        },
                    );
                    proof {
                        assert(pre.pool[0] == claimed@);
                        assert(self@.readers =~= pool_connect_step(pre, name@).readers);
                        assert(self@.pool =~= pre.pool.drop_first());
                        crate::reader::lemma_unique_names_push(
                            pre.readers,
                            name@,
                            true,
                            Some(pre.pool[0]),
                        );
                        crate::reader::lemma_reader_index_unique(
                            self@.readers,
                            name@,
                            pre.readers.len() as int,
                        );
                    }
                    Some(claimed)
                } else {
                    self.readers.push(
                        ReaderEntry { name: name.clone(), connected: true, assigned_printer: None },
                    );
                    proof {
                        assert(self@.readers =~= pool_connect_step(pre, name@).readers);
                        assert(self@.pool =~= pre.pool);
                        crate::reader::lemma_unique_names_push(pre.readers, name@, true, None);
                        crate::reader::lemma_reader_index_unique(
                            self@.readers,
                            name@,
                            pre.readers.len() as int,
                        );
                    }
                    None
                }
            },
        }
    }

    /// Record that a reader was removed: its row disappears and its printer,
    /// if it held one, becomes claimable again at the back of the pool.
    pub fn record_disconnect(&mut self, name: &String)
        requires
            unique_names(old(self)@.readers),
        ensures
            final(self)@ == pool_disconnect_step(old(self)@, name@),
            unique_names(final(self)@.readers),
    {
        match find_reader(&self.readers, name) {
            Some(i) => {
                proof {
                    crate::reader::lemma_reader_index_unique(old(self)@.readers, name@, i as int);
                    crate::reader::lemma_unique_names_remove(old(self)@.readers, i as int);
                }
                let entry = self.readers.remove(i);
                match entry.assigned_printer {
                    Some(serial) => {
                        self.pool.push(serial);
                        proof {
                            assert(self@.readers =~= pool_disconnect_step(old(self)@, name@).readers);
                            assert(self@.pool =~= pool_disconnect_step(old(self)@, name@).pool);
                        }
                    },
                    None => {
                        proof {
                            assert(self@.readers =~= pool_disconnect_step(old(self)@, name@).readers);
                            assert(self@.pool =~= pool_disconnect_step(old(self)@, name@).pool);
                        }
                    },
                }
            },
            None => {},
        }
    }

    /// The printer serving this reader, if the reader is known and assigned.
    pub fn lookup_assignment(&self, name: &String) -> (r: Option<String>)
        requires
            unique_names(self@.readers),
        ensures
            match r {
                Some(s) => assigned_of(self@.readers, name@) == Some(s@),
                None => assigned_of(self@.readers, name@) is None,
            },
    {
        match find_reader(&self.readers, name) {
            Some(i) => {
                proof {
                    crate::reader::lemma_reader_index_unique(self@.readers, name@, i as int);
                }
                match &self.readers[i].assigned_printer {
                    Some(s) => Some(s.clone()),
                    None => None,
                }
            },
            None => None,
        }
    }

    /// How many printers are currently free.
    pub fn free_printers(&self) -> (n: usize)
        ensures
            n == self@.pool.len(),
    {
        self.pool.len()
    }

    /// A copy of every row, for the status snapshot.
    pub fn snapshot_readers(&self) -> (r: Vec<ReaderEntry>)
        ensures
            r@.len() == self@.readers.len(),
            forall|i: int| 0 <= i < r@.len() ==> (#[trigger] r@[i])@ == self@.readers[i],
    {
        copy_entries(&self.readers)
    }
}

} // verus!
