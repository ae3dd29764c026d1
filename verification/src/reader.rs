//! One row of the reader assignment table, and the spec-level vocabulary
//! shared by both assignment policies.

use vstd::prelude::*;

verus! {

/// One known card reader: its stable name, whether it is currently attached,
/// and the serial number of the printer serving it, if any.
pub struct ReaderEntry {
    pub name: String,
    pub connected: bool,
    pub assigned_printer: Option<String>,
}

/// Mathematical image of a `ReaderEntry`.
pub ghost struct ReaderModel {
    pub name: Seq<char>,
    pub connected: bool,
    pub assigned_printer: Option<Seq<char>>,
}

impl View for ReaderEntry {
    type V = ReaderModel;

    open spec fn view(&self) -> ReaderModel {
        ReaderModel {
            name: self.name@,
            connected: self.connected,
            assigned_printer: match self.assigned_printer {
                Some(s) => Some(s@),
                None => None,
            },
        }
    }
}

impl ReaderEntry {
    /// An explicit copy; a derived clone would say nothing about the fields.
    pub fn duplicate(&self) -> (r: ReaderEntry)
        ensures
            r@ == self@,
    {
        ReaderEntry {
            name: self.name.clone(),
            connected: self.connected,
            assigned_printer: match &self.assigned_printer {
                Some(s) => Some(s.clone()),
                None => None,
            },
        }
    }
}

/// The mathematical image of a sequence of table rows.
pub open spec fn models_of(entries: Seq<ReaderEntry>) -> Seq<ReaderModel> {
    entries.map_values(|e: ReaderEntry| e@)
}

/// No two rows share a reader name, so a name identifies at most one row.
pub open spec fn unique_names(readers: Seq<ReaderModel>) -> bool {
    forall|i: int, j: int| 0 <= i < j < readers.len() ==> readers[i].name != readers[j].name
}

/// Some row carries this reader name.
pub open spec fn has_reader(readers: Seq<ReaderModel>, name: Seq<char>) -> bool {
    exists|i: int| 0 <= i < readers.len() && readers[i].name == name
}

/// The position of the row with this name (meaningful when `has_reader`).
pub open spec fn reader_index(readers: Seq<ReaderModel>, name: Seq<char>) -> int {
    choose|i: int| 0 <= i < readers.len() && readers[i].name == name
}

/// The printer serial this reader's jobs go to: `None` both for an unknown
/// reader and for a known reader that holds no assignment.
pub open spec fn assigned_of(readers: Seq<ReaderModel>, name: Seq<char>) -> Option<Seq<char>> {
    if has_reader(readers, name) {
        readers[reader_index(readers, name)].assigned_printer
    } else {
        None
    }
}

/// Whether the named reader is currently attached (false when unknown).
pub open spec fn connected_of(readers: Seq<ReaderModel>, name: Seq<char>) -> bool {
    if has_reader(readers, name) {
        readers[reader_index(readers, name)].connected
    } else {
        false
    }
}

/// The position of the first row with this name, if any row carries it.
pub fn find_reader(entries: &Vec<ReaderEntry>, name: &String) -> (r: Option<usize>)
    ensures
        match r {
            Some(i) => i < entries@.len() && models_of(entries@)[i as int].name == name@,
            None => !has_reader(models_of(entries@), name@),
        },
{
    let ghost models = models_of(entries@);
    let mut i: usize = 0;
    while i < entries.len()
        invariant
            i <= entries@.len(),
            models == models_of(entries@),
            forall|k: int| 0 <= k < i ==> models[k].name != name@,
        decreases entries@.len() - i,
    {
        proof {
            assert(models[i as int] == entries@[i as int]@);
        }
        if entries[i].name == *name {
            return Some(i);
        }
        i += 1;
    }
    None
}

/// A row-by-row copy of the table, for the status snapshot.
pub fn copy_entries(entries: &Vec<ReaderEntry>) -> (r: Vec<ReaderEntry>)
    ensures
        r@.len() == entries@.len(),
        forall|i: int| 0 <= i < r@.len() ==> (#[trigger] r@[i])@ == models_of(entries@)[i],
{
    let ghost models = models_of(entries@);
    let mut out: Vec<ReaderEntry> = Vec::new();
    let mut i: usize = 0;
    while i < entries.len()
        invariant
            i <= entries@.len(),
            models == models_of(entries@),
            out@.len() == i,
            forall|k: int| 0 <= k < i ==> (#[trigger] out@[k])@ == models[k],
        decreases entries@.len() - i,
    {
        out.push(entries[i].duplicate());
        i += 1;
    }
    out
}

/// Appending a row with a fresh name keeps names unique.
pub proof fn lemma_unique_names_push(
    readers: Seq<ReaderModel>,
    name: Seq<char>,
    connected: bool,
    assigned: Option<Seq<char>>,
)
    requires
        unique_names(readers),
        !has_reader(readers, name),
    ensures
        unique_names(
            readers.push(ReaderModel { name, connected, assigned_printer: assigned }),
        ),
{
    let post = readers.push(ReaderModel { name, connected, assigned_printer: assigned });
    assert forall|i: int, j: int| 0 <= i < j < post.len() implies post[i].name != post[j].name by {
        if j == readers.len() {
            assert(post[i] == readers[i]);
            if post[i].name == name {
                assert(has_reader(readers, name));
            }
        } else {
            assert(post[i] == readers[i]);
            assert(post[j] == readers[j]);
        }
    }
}

/// Removing a row keeps names unique.
pub proof fn lemma_unique_names_remove(readers: Seq<ReaderModel>, i: int)
    requires
        unique_names(readers),
        0 <= i < readers.len(),
    ensures
        unique_names(readers.remove(i)),
{
    let post = readers.remove(i);
    readers.remove_ensures(i);
    assert forall|a: int, b: int| 0 <= a < b < post.len() implies post[a].name != post[b].name by {
        let oa: int = if a < i {
            a
        } else {
            a + 1
        };
        let ob: int = if b < i {
            b
        } else {
            b + 1
        };
        assert(post[a] == readers[oa]);
        assert(post[b] == readers[ob]);
    }
}

/// With unique names, any matching position is the `reader_index`.
pub proof fn lemma_reader_index_unique(readers: Seq<ReaderModel>, name: Seq<char>, i: int)
    requires
        unique_names(readers),
        0 <= i < readers.len(),
        readers[i].name == name,
    ensures
        has_reader(readers, name),
        reader_index(readers, name) == i,
{
    assert(has_reader(readers, name));
    let j = reader_index(readers, name);
    assert(0 <= j < readers.len() && readers[j].name == name);
    if i != j {
        if i < j {
            assert(readers[i].name != readers[j].name);
        } else {
            assert(readers[j].name != readers[i].name);
        }
    }
}

} // verus!
