//! The round-robin assignment policy: a reader's first hot-plug event binds
//! it permanently to the printer at position (known readers) mod (printers)
//! of the registry's enumeration order; later events only flip the
//! `connected` flag.

use vstd::prelude::*;
use crate::reader::{
    ReaderEntry, ReaderModel, assigned_of, connected_of, copy_entries, find_reader, has_reader,
    models_of, reader_index, unique_names,
};
use crate::registry::{PrinterRegistry, serials_of};

verus! {

/// One hot-plug event: which reader, and whether it was attached (`true`)
/// or removed (`false`).
pub ghost struct PresenceEvent {
    pub name: Seq<char>,
    pub added: bool,
}

/// The table after one hot-plug event: a known reader keeps its row (only
/// `connected` changes); an unknown one gets a new row assigned to the
/// printer at (row count) mod (printer count).
pub open spec fn rr_step(
    readers: Seq<ReaderModel>,
    serials: Seq<Seq<char>>,
    name: Seq<char>,
    added: bool,
) -> Seq<ReaderModel>
    recommends
        serials.len() > 0,
{
    if has_reader(readers, name) {
        let i = reader_index(readers, name);
        readers.update(
            i,
            ReaderModel {
                name: readers[i].name,
                connected: added,
                assigned_printer: readers[i].assigned_printer,
            },
        )
    } else {
        readers.push(
            ReaderModel {
                name: name,
                connected: added,
                assigned_printer: Some(serials[readers.len() as int % serials.len() as int]),
            },
        )
    }
}

/// The table after a whole sequence of hot-plug events, applied in order.
pub open spec fn rr_run(
    readers: Seq<ReaderModel>,
    serials: Seq<Seq<char>>,
    events: Seq<PresenceEvent>,
) -> Seq<ReaderModel>
    decreases events.len(),
{
    if events.len() == 0 {
        readers
    } else {
        rr_run(rr_step(readers, serials, events[0].name, events[0].added), serials, events.drop_first())
    }
}

/// The polarity of the last event that mentions `name`, if any does.
pub open spec fn last_event_for(events: Seq<PresenceEvent>, name: Seq<char>) -> Option<bool>
    decreases events.len(),
{
    if events.len() == 0 {
        None
    } else {
        let rest = last_event_for(events.drop_first(), name);
        if rest is Some {
            rest
        } else if events[0].name == name {
            Some(events[0].added)
        } else {
            None
        }
    }
}

/// What one event does and does not touch: names and assignments of existing
/// rows are untouched, rows of other readers are untouched entirely, and the
/// event's own reader ends present with the event's polarity.
pub proof fn lemma_rr_step_frame(
    readers: Seq<ReaderModel>,
    serials: Seq<Seq<char>>,
    name: Seq<char>,
    added: bool,
)
    requires
        unique_names(readers),
        serials.len() > 0,
    ensures
        ({
            let post = rr_step(readers, serials, name, added);
            &&& unique_names(post)
            &&& post.len() >= readers.len()
            &&& forall|i: int|
                0 <= i < readers.len() ==> (#[trigger] post[i]).name == readers[i].name
                    && post[i].assigned_printer == readers[i].assigned_printer
            &&& forall|other: Seq<char>|
                other != name ==> #[trigger] connected_of(post, other) == connected_of(
                    readers,
                    other,
                ) && has_reader(post, other) == has_reader(readers, other) && assigned_of(
                    post,
                    other,
                ) == assigned_of(readers, other)
            &&& has_reader(post, name)
            &&& connected_of(post, name) == added
            &&& assigned_of(post, name) == if has_reader(readers, name) {
                assigned_of(readers, name)
            } else {
                Some(serials[readers.len() as int % serials.len() as int])
            }
        }),
{
    let post = rr_step(readers, serials, name, added);
    if has_reader(readers, name) {
        let i = reader_index(readers, name);
        assert(0 <= i < readers.len() && readers[i].name == name);
        crate::reader::lemma_reader_index_unique(readers, name, i);
        assert(post.len() == readers.len());
        assert(forall|k: int| 0 <= k < post.len() ==> post[k].name == readers[k].name);
        assert(unique_names(post));
        crate::reader::lemma_reader_index_unique(post, name, i);
        assert forall|other: Seq<char>| other != name implies #[trigger] connected_of(post, other)
            == connected_of(readers, other) && has_reader(post, other) == has_reader(
            readers,
            other,
        ) && assigned_of(post, other) == assigned_of(readers, other) by {
            if has_reader(readers, other) {
                let j = reader_index(readers, other);
                assert(0 <= j < readers.len() && readers[j].name == other);
                assert(j != i);
                assert(post[j] == readers[j]);
                crate::reader::lemma_reader_index_unique(post, other, j);
            } else {
                if has_reader(post, other) {
                    let j = reader_index(post, other);
                    assert(0 <= j < post.len() && post[j].name == other);
                    assert(readers[j].name == other);
                    assert(false);
                }
            }
        }
    } else {
        let n = readers.len() as int;
        assert(post.len() == n + 1);
        assert(post[n].name == name);
        assert(forall|k: int| 0 <= k < n ==> post[k] == readers[k]);
        assert(unique_names(post));
        crate::reader::lemma_reader_index_unique(post, name, n);
        assert forall|other: Seq<char>| other != name implies #[trigger] connected_of(post, other)
            == connected_of(readers, other) && has_reader(post, other) == has_reader(
            readers,
            other,
        ) && assigned_of(post, other) == assigned_of(readers, other) by {
            if has_reader(readers, other) {
                let j = reader_index(readers, other);
                assert(0 <= j < readers.len() && readers[j].name == other);
                assert(post[j].name == other);
                crate::reader::lemma_reader_index_unique(post, other, j);
            } else {
                if has_reader(post, other) {
                    let j = reader_index(post, other);
                    assert(0 <= j < post.len() && post[j].name == other);
                    assert(j != n);
                    assert(readers[j].name == other);
                    assert(false);
                }
            }
        }
    }
}

/// Law: after any sequence of hot-plug events, a reader's `connected` flag
/// equals the polarity of the last event that mentioned its name; a name no
/// event mentioned keeps its prior state.
pub proof fn lemma_connected_tracks_last_event(
    readers: Seq<ReaderModel>,
    serials: Seq<Seq<char>>,
    events: Seq<PresenceEvent>,
    name: Seq<char>,
)
    requires
        unique_names(readers),
        serials.len() > 0,
    ensures
        ({
            let post = rr_run(readers, serials, events);
            match last_event_for(events, name) {
                Some(added) => connected_of(post, name) == added,
                None => connected_of(post, name) == connected_of(readers, name),
            }
        }),
    decreases events.len(),
{
    if events.len() > 0 {
        let mid = rr_step(readers, serials, events[0].name, events[0].added);
        lemma_rr_step_frame(readers, serials, events[0].name, events[0].added);
        lemma_connected_tracks_last_event(mid, serials, events.drop_first(), name);
    }
}

/// Law: no later event moves a row. Every row present before a sequence of
/// events is still there afterwards, at the same position, with the same
/// name and the same printer assignment.
pub proof fn lemma_assignment_stable(
    readers: Seq<ReaderModel>,
    serials: Seq<Seq<char>>,
    events: Seq<PresenceEvent>,
    i: int,
)
    requires
        unique_names(readers),
        serials.len() > 0,
        0 <= i < readers.len(),
    ensures
        ({
            let post = rr_run(readers, serials, events);
            &&& post.len() >= readers.len()
            &&& post[i].name == readers[i].name
            &&& post[i].assigned_printer == readers[i].assigned_printer
        }),
    decreases events.len(),
{
    if events.len() > 0 {
        let mid = rr_step(readers, serials, events[0].name, events[0].added);
        lemma_rr_step_frame(readers, serials, events[0].name, events[0].added);
        lemma_assignment_stable(mid, serials, events.drop_first(), i);
    }
}

/// Events never merge or split rows, so names stay pairwise distinct.
pub proof fn lemma_rr_run_preserves_unique(
    readers: Seq<ReaderModel>,
    serials: Seq<Seq<char>>,
    events: Seq<PresenceEvent>,
)
    requires
        unique_names(readers),
        serials.len() > 0,
    ensures
        unique_names(rr_run(readers, serials, events)),
        rr_run(readers, serials, events).len() >= readers.len(),
    decreases events.len(),
{
    if events.len() > 0 {
        let mid = rr_step(readers, serials, events[0].name, events[0].added);
        lemma_rr_step_frame(readers, serials, events[0].name, events[0].added);
        lemma_rr_run_preserves_unique(mid, serials, events.drop_first());
    }
}

/// The connect events of a list of reader names, in order.
pub open spec fn connect_events(names: Seq<Seq<char>>) -> Seq<PresenceEvent> {
    names.map_values(|n: Seq<char>| PresenceEvent { name: n, added: true })
}

/// Law: connecting M distinct, previously unknown readers appends M rows in
/// order, and the k-th of them is assigned the printer at position
/// (prior row count + k) mod (printer count). Starting from an empty table
/// this is reader k's printer being printer (k mod N), and by
/// `lemma_assignment_stable` no later event changes it.
pub proof fn lemma_round_robin_assignments(
    readers: Seq<ReaderModel>,
    serials: Seq<Seq<char>>,
    names: Seq<Seq<char>>,
)
    requires
        unique_names(readers),
        serials.len() > 0,
        forall|a: int, b: int| 0 <= a < b < names.len() ==> names[a] != names[b],
        forall|k: int| 0 <= k < names.len() ==> !has_reader(readers, #[trigger] names[k]),
    ensures
        ({
            let post = rr_run(readers, serials, connect_events(names));
            &&& post.len() == readers.len() + names.len()
            &&& forall|k: int|
                0 <= k < names.len() ==> (#[trigger] post[readers.len() + k]).name == names[k]
                    && post[readers.len() + k].connected && post[readers.len()
                    + k].assigned_printer == Some(
                    serials[(readers.len() + k) as int % serials.len() as int],
                )
        }),
    decreases names.len(),
{
    let events = connect_events(names);
    if names.len() > 0 {
        let mid = rr_step(readers, serials, names[0], true);
        lemma_rr_step_frame(readers, serials, names[0], true);
        assert(!has_reader(readers, names[0]));
        assert(mid == readers.push(
            ReaderModel {
                name: names[0],
                connected: true,
                assigned_printer: Some(serials[readers.len() as int % serials.len() as int]),
            },
        ));
        assert forall|k: int| 0 <= k < names.drop_first().len() implies !has_reader(
            mid,
            #[trigger] names.drop_first()[k],
        ) by {
            assert(names.drop_first()[k] == names[k + 1]);
            assert(names[k + 1] != names[0]);
            assert(!has_reader(readers, names[k + 1]));
            if has_reader(mid, names[k + 1]) {
                let j = reader_index(mid, names[k + 1]);
                assert(0 <= j < mid.len() && mid[j].name == names[k + 1]);
                assert(j == readers.len() || mid[j] == readers[j]);
            }
        }
        lemma_round_robin_assignments(mid, serials, names.drop_first());
        assert(events.drop_first() =~= connect_events(names.drop_first()));
        assert(rr_run(readers, serials, events) == rr_run(
            mid,
            serials,
            connect_events(names.drop_first()),
        ));
        let post = rr_run(readers, serials, events);
        assert forall|k: int| 0 <= k < names.len() implies (#[trigger] post[readers.len()
            + k]).name == names[k] && post[readers.len() + k].connected && post[readers.len()
            + k].assigned_printer == Some(
            serials[(readers.len() + k) as int % serials.len() as int],
        ) by {
            if k == 0 {
                lemma_assignment_stable(
                    mid,
                    serials,
                    connect_events(names.drop_first()),
                    readers.len() as int,
                );
                lemma_connected_tracks_last_event(
                    mid,
                    serials,
                    connect_events(names.drop_first()),
                    names[0],
                );
                assert(last_event_for(connect_events(names.drop_first()), names[0]) is None) by {
                    lemma_last_event_absent(connect_events(names.drop_first()), names[0]);
                }
                assert(connected_of(mid, names[0]));
                lemma_rr_run_preserves_unique(mid, serials, connect_events(names.drop_first()));
                crate::reader::lemma_reader_index_unique(post, names[0], readers.len() as int);
            } else {
                assert(post[mid.len() + (k - 1)].name == names.drop_first()[k - 1]);
            }
        }
    }
}

/// Law: from a fresh table, when M distinct readers connect for the first
/// time in some order, the k-th of them (counting from zero) is assigned
/// the printer at position k mod N of the registry's enumeration order.
pub proof fn lemma_round_robin_from_start(serials: Seq<Seq<char>>, names: Seq<Seq<char>>, k: int)
    requires
        serials.len() > 0,
        forall|a: int, b: int| 0 <= a < b < names.len() ==> names[a] != names[b],
        0 <= k < names.len(),
    ensures
        ({
            let post = rr_run(Seq::<ReaderModel>::empty(), serials, connect_events(names));
            &&& post.len() == names.len()
            &&& post[k].name == names[k]
            &&& post[k].assigned_printer == Some(serials[k % serials.len() as int])
        }),
{
    let empty = Seq::<ReaderModel>::empty();
    assert(forall|j: int| 0 <= j < names.len() ==> !has_reader(empty, #[trigger] names[j]));
    lemma_round_robin_assignments(empty, serials, names);
    let post = rr_run(empty, serials, connect_events(names));
    assert(post[empty.len() + k].name == names[k]);
    assert(post[k].assigned_printer == Some(serials[(empty.len() + k) as int % serials.len() as int]));
}

/// A name that appears in no event has no last event.
pub proof fn lemma_last_event_absent(events: Seq<PresenceEvent>, name: Seq<char>)
    requires
        forall|k: int| 0 <= k < events.len() ==> (#[trigger] events[k]).name != name,
    ensures
        last_event_for(events, name) is None,
    decreases events.len(),
{
    if events.len() > 0 {
        assert(forall|k: int|
            0 <= k < events.drop_first().len() ==> (#[trigger] events.drop_first()[k]).name
                != name);
        lemma_last_event_absent(events.drop_first(), name);
    }
}

/// The reader assignment table under the round-robin policy. Rows are only
/// ever appended, in first-connect order, and names never repeat.
pub struct RoundRobinTable {
    readers: Vec<ReaderEntry>,
}

impl View for RoundRobinTable {
    type V = Seq<ReaderModel>;

    closed spec fn view(&self) -> Seq<ReaderModel> {
        models_of(self.readers@)
    }
}

impl RoundRobinTable {
    /// Names never repeat, so lookups are unambiguous.
    pub open spec fn wf(&self) -> bool {
        unique_names(self@)
    }

    /// The empty table the kiosk starts with.
    pub fn new() -> (t: RoundRobinTable)
        ensures
            t@ == Seq::<ReaderModel>::empty(),
            t.wf(),
    {
        let t = RoundRobinTable { readers: Vec::new() };
        proof {
            assert(t@ =~= Seq::<ReaderModel>::empty());
        }
        t
    }

    /// Apply one hot-plug event: the entry point the hot-plug monitor calls.
    pub fn on_presence_change(&mut self, registry: &PrinterRegistry, name: &String, added: bool)
        requires
            old(self).wf(),
            registry.wf(),
        ensures
            final(self)@ == rr_step(old(self)@, serials_of(registry@), name@, added),
            final(self).wf(),
    {
        proof {
            lemma_rr_step_frame(self@, serials_of(registry@), name@, added);
        }
        match find_reader(&self.readers, name) {
            Some(i) => {
                self.readers[i].connected = added;
                proof {
                    crate::reader::lemma_reader_index_unique(old(self)@, name@, i as int);
                    assert(self@ =~= rr_step(old(self)@, serials_of(registry@), name@, added));
                }
            },
            None => {
                let index = self.readers.len() % registry.len();
                let serial = registry.serial_at(index).clone();
                self.readers.push(
                    ReaderEntry { name: name.clone(), connected: added, assigned_printer: Some(serial) },
                );
                proof {
                    assert(serials_of(registry@)[index as int] == registry@[index as int].serial_number);
                    assert(self@ =~= rr_step(old(self)@, serials_of(registry@), name@, added));
                }
            },
        }
    }

    /// Record that a reader was attached; returns the printer now serving it.
    pub fn record_connect(&mut self, registry: &PrinterRegistry, name: &String) -> (r: Option<
        String,
    >)
        requires
            old(self).wf(),
            registry.wf(),
        ensures
            final(self)@ == rr_step(old(self)@, serials_of(registry@), name@, true),
            final(self).wf(),
            match r {
                Some(s) => assigned_of(final(self)@, name@) == Some(s@),
                None => assigned_of(final(self)@, name@) is None,
            },
    {
        self.on_presence_change(registry, name, true);
        self.lookup_assignment(name)
    }

    /// Record that a reader was removed. Round-robin keeps the row and its
    /// assignment; only the `connected` flag drops.
    pub fn record_disconnect(&mut self, registry: &PrinterRegistry, name: &String)
        requires
            old(self).wf(),
            registry.wf(),
        ensures
            final(self)@ == rr_step(old(self)@, serials_of(registry@), name@, false),
            final(self).wf(),
    {
        self.on_presence_change(registry, name, false);
    }

    /// The printer serving this reader, if the reader is known and assigned.
    /// The dispatcher holds the table lock only for this lookup.
    pub fn lookup_assignment(&self, name: &String) -> (r: Option<String>)
        requires
            self.wf(),
        ensures
            match r {
                Some(s) => assigned_of(self@, name@) == Some(s@),
                None => assigned_of(self@, name@) is None,
            },
    {
        match find_reader(&self.readers, name) {
            Some(i) => {
                proof {
                    crate::reader::lemma_reader_index_unique(self@, name@, i as int);
                }
                match &self.readers[i].assigned_printer {
                    Some(s) => Some(s.clone()),
                    None => None,
                }
            },
            None => None,
        }
    }

    /// A copy of every row, for the status snapshot.
    pub fn snapshot_readers(&self) -> (r: Vec<ReaderEntry>)
        ensures
            r@.len() == self@.len(),
            forall|i: int| 0 <= i < r@.len() ==> (#[trigger] r@[i])@ == self@[i],
    {
        copy_entries(&self.readers)
    }
}

} // verus!
