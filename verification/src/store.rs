//! The latest-frame store and the persistence toggles, the fixed response
//! bodies of the endpoints that drive them, and the laws that reads obey:
//! a name never written reads as absent, and the last write to a name
//! wins, byte for byte.

use vstd::prelude::*;
use crate::bytes::copy_bytes;
use crate::table::Table;

verus! {

/// In-memory store of the latest frame per stream name. A write fully
/// replaces the prior frame; an entry, once created, is never deleted.
pub struct FrameStore {
    table: Table<Vec<u8>>,
}

impl View for FrameStore {
    type V = Map<Seq<u8>, Seq<u8>>;

    closed spec fn view(&self) -> Map<Seq<u8>, Seq<u8>> {
        self.table@
    }
}

impl FrameStore {
    /// The store's representation matches its map reading.
    pub closed spec fn wf(&self) -> bool {
        self.table.wf()
    }

    /// An empty store: no stream name has ever been written.
    pub fn new() -> (r: FrameStore)
        ensures
            r.wf(),
            r@ == Map::<Seq<u8>, Seq<u8>>::empty(),
    {
        FrameStore { table: Table::new() }
    }

    /// Unconditionally records `frame` as the latest frame of `name`;
    /// subsequent reads of `name` return exactly these bytes until the
    /// next write.
    pub fn put(&mut self, name: Vec<u8>, frame: Vec<u8>)
        requires
            old(self).wf(),
        ensures
            final(self).wf(),
            final(self)@ == old(self)@.insert(name@, frame@),
    {
        self.table.insert(name, frame);
    }

    /// An independent copy of the latest frame of `name`, or `None` if
    /// `name` has never been written.
    pub fn get(&self, name: &Vec<u8>) -> (r: Option<Vec<u8>>)
        requires
            self.wf(),
        ensures
            (match r {
                Some(frame) => self@.contains_key(name@) && frame@ == self@[name@],
                None => !self@.contains_key(name@),
            }),
    {
        match self.table.lookup(name) {
            Some(frame) => Some(copy_bytes(frame)),
            None => None,
        }
    }
}

/// Whether frames of `name` are to be persisted under `m`: false unless a
/// toggle for `name` was recorded and its latest value was true.
pub open spec fn spec_enabled(m: Map<Seq<u8>, bool>, name: Seq<u8>) -> bool {
    m.contains_key(name) && m[name]
}

/// The confirmation message the toggle endpoint answers with.
pub open spec fn spec_toggle_message(enabled: bool) -> Seq<char> {
    if enabled {
        "Frames will be saved"@
    } else {
        "Frames will not be saved"@
    }
}

/// Per-stream persistence toggles; a name never toggled counts as disabled.
pub struct SaveToggles {
    table: Table<bool>,
}

impl View for SaveToggles {
    type V = Map<Seq<u8>, bool>;

    closed spec fn view(&self) -> Map<Seq<u8>, bool> {
        self.table@
    }
}

impl SaveToggles {
    /// The registry's representation matches its map reading.
    pub closed spec fn wf(&self) -> bool {
        self.table.wf()
    }

    /// An empty registry: persistence is disabled for every name.
    pub fn new() -> (r: SaveToggles)
        ensures
            r.wf(),
            r@ == Map::<Seq<u8>, bool>::empty(),
    {
        SaveToggles { table: Table::new() }
    }

    /// Records the toggle for `name` and answers with the confirmation
    /// message that distinguishes enabled from disabled.
    pub fn set(&mut self, name: Vec<u8>, enabled: bool) -> (msg: &'static str)
        requires
            old(self).wf(),
        ensures
            final(self).wf(),
            final(self)@ == old(self)@.insert(name@, enabled),
            msg@ == spec_toggle_message(enabled),
    {
        self.table.insert(name, enabled);
        if enabled {
            "Frames will be saved"
        } else {
            "Frames will not be saved"
        }
    }

    /// Whether frames of `name` are currently to be persisted; false if
    /// `name` was never toggled.
    pub fn is_enabled(&self, name: &Vec<u8>) -> (r: bool)
        requires
            self.wf(),
        ensures
            r == spec_enabled(self@, name@),
    {
        match self.table.lookup(name) {
            Some(enabled) => *enabled,
            None => false,
        }
    }
}

/// The store after a sequence of writes, oldest first; each write is a
/// stream name and the frame pushed to it.
pub open spec fn spec_after_puts(
    m: Map<Seq<u8>, Seq<u8>>,
    puts: Seq<(Seq<u8>, Seq<u8>)>,
) -> Map<Seq<u8>, Seq<u8>>
    decreases puts.len(),
{
    if puts.len() == 0 {
        m
    } else {
        spec_after_puts(m, puts.drop_last()).insert(puts.last().0, puts.last().1)
    }
}

/// A name never written reads as absent: if `name` starts absent and no
/// write in the sequence names it, it is still absent afterwards.
pub proof fn lemma_never_written_absent(
    m: Map<Seq<u8>, Seq<u8>>,
    puts: Seq<(Seq<u8>, Seq<u8>)>,
    name: Seq<u8>,
)
    requires
        !m.contains_key(name),
        forall|i: int| 0 <= i < puts.len() ==> puts[i].0 != name,
    ensures
        !spec_after_puts(m, puts).contains_key(name),
    decreases puts.len(),
{
    if puts.len() > 0 {
        assert(puts[puts.len() - 1].0 != name);
        lemma_never_written_absent(m, puts.drop_last(), name);
    }
}

/// Last write wins: after any non-empty sequence of writes that all name
/// one stream, a read of that stream returns exactly the bytes of the most
/// recent write.
pub proof fn lemma_last_write_wins(
    m: Map<Seq<u8>, Seq<u8>>,
    puts: Seq<(Seq<u8>, Seq<u8>)>,
    name: Seq<u8>,
)
    requires
        puts.len() > 0,
        forall|i: int| 0 <= i < puts.len() ==> puts[i].0 == name,
    ensures
        spec_after_puts(m, puts).contains_key(name),
        spec_after_puts(m, puts)[name] == puts.last().1,
{
    assert(puts[puts.len() - 1].0 == name);
}

/// Writes touch only the stream they name: any other name's latest frame,
/// or its absence, is unchanged.
pub proof fn lemma_writes_isolated(
    m: Map<Seq<u8>, Seq<u8>>,
    puts: Seq<(Seq<u8>, Seq<u8>)>,
    other: Seq<u8>,
)
    requires
        forall|i: int| 0 <= i < puts.len() ==> puts[i].0 != other,
    ensures
        spec_after_puts(m, puts).contains_key(other) == m.contains_key(other),
        m.contains_key(other) ==> spec_after_puts(m, puts)[other] == m[other],
    decreases puts.len(),
{
    if puts.len() > 0 {
        assert(puts[puts.len() - 1].0 != other);
        lemma_writes_isolated(m, puts.drop_last(), other);
    }
}

/// The health-check endpoint's fixed body.
pub fn greeting() -> (r: &'static str)
    ensures
        r@ == "Hello, yiannis!"@,
{
    "Hello, yiannis!"
}

/// The write endpoint's body on success.
pub fn frame_saved_message() -> (r: &'static str)
    ensures
        r@ == "Last frame saved"@,
{
    "Last frame saved"
}

} // verus!
