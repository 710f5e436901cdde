//! The frame persister's decisions: whether a received frame is to be
//! written to disk, under which path, and how the per-stream sequence
//! counter advances.
//!
//! The write itself is the caller's: it creates the plan's directory,
//! writes the frame to the plan's path (whole-file and non-atomic, so a
//! crash mid-write can leave a truncated file), and only on success reports
//! back by advancing the counter. A failed write therefore retries the same
//! index, and planning alone never changes any state.

use vstd::prelude::*;
use vstd::string::StrSliceExecFns;
use vstd::string::StringSliceAdditionalSpecFns;
use crate::bytes::push_all;
use crate::digits::padded_index;
use crate::digits::spec_padded_index;
use crate::store::SaveToggles;
use crate::store::spec_enabled;
use crate::table::Table;

verus! {

/// The next on-disk index recorded under `m` for `name`: 0 until the first
/// successful write for that name.
pub open spec fn spec_next_index(m: Map<Seq<u8>, u64>, name: Seq<u8>) -> u64 {
    if m.contains_key(name) {
        m[name]
    } else {
        0
    }
}

/// Per-stream sequence counters: the index the next persisted frame of a
/// name will occupy, monotonic for the process lifetime.
pub struct FrameIndexes {
    table: Table<u64>,
}

impl View for FrameIndexes {
    type V = Map<Seq<u8>, u64>;

    closed spec fn view(&self) -> Map<Seq<u8>, u64> {
        self.table@
    }
}

impl FrameIndexes {
    /// The counters' representation matches their map reading.
    pub closed spec fn wf(&self) -> bool {
        self.table.wf()
    }

    /// Fresh counters: every stream name's next index is 0.
    pub fn new() -> (r: FrameIndexes)
        ensures
            r.wf(),
            r@ == Map::<Seq<u8>, u64>::empty(),
    {
        FrameIndexes { table: Table::new() }
    }

    /// The index the next persisted frame of `name` will occupy.
    pub fn next_index(&self, name: &Vec<u8>) -> (r: u64)
        requires
            self.wf(),
        ensures
            r == spec_next_index(self@, name@),
    {
        match self.table.lookup(name) {
            Some(index) => *index,
            None => 0,
        }
    }

    /// Advances the counter of `name` by exactly one; to be called only
    /// after the frame was written to disk under the index `next_index`
    /// returned, so a failed write retries the same index.
    pub fn advance(&mut self, name: Vec<u8>)
        requires
            old(self).wf(),
            spec_next_index(old(self)@, name@) < u64::MAX,
        ensures
            final(self).wf(),
            final(self)@ == old(self)@.insert(
                name@,
                (spec_next_index(old(self)@, name@) + 1) as u64,
            ),
    {
        let next = self.next_index(&name);
        self.table.insert(name, next + 1);
    }
}

/// The directory holding the persisted frames of `name`: `<base>/<name>`.
pub open spec fn spec_save_dir(base: Seq<u8>, name: Seq<u8>) -> Seq<u8> {
    base + "/".spec_bytes() + name
}

/// The file holding frame `index` of `name`:
/// `<base>/<name>/<name>_<zero-padded index>.jpeg`.
pub open spec fn spec_save_path(base: Seq<u8>, name: Seq<u8>, index: u64) -> Seq<u8> {
    spec_save_dir(base, name) + "/".spec_bytes() + name + "_".spec_bytes()
        + spec_padded_index(index as nat) + ".jpeg".spec_bytes()
}

/// The directory to create (idempotently, parents included) before every
/// write attempt for `name`.
pub fn save_dir(base: &Vec<u8>, name: &Vec<u8>) -> (r: Vec<u8>)
    ensures
        r@ == spec_save_dir(base@, name@),
{
    let mut r: Vec<u8> = Vec::new();
    push_all(&mut r, base);
    let slash = "/".as_bytes_vec();
    push_all(&mut r, &slash);
    push_all(&mut r, name);
    proof {
        assert(r@ =~= spec_save_dir(base@, name@));
    }
    r
}

/// The file path that frame `index` of `name` is persisted under.
pub fn save_path(base: &Vec<u8>, name: &Vec<u8>, index: u64) -> (r: Vec<u8>)
    ensures
        r@ == spec_save_path(base@, name@, index),
{
    let mut r = save_dir(base, name);
    let slash = "/".as_bytes_vec();
    push_all(&mut r, &slash);
    push_all(&mut r, name);
    let underscore = "_".as_bytes_vec();
    push_all(&mut r, &underscore);
    let index_field = padded_index(index);
    push_all(&mut r, &index_field);
    let extension = ".jpeg".as_bytes_vec();
    push_all(&mut r, &extension);
    proof {
        assert(r@ =~= spec_save_path(base@, name@, index));
    }
    r
}

/// What one enabled write must do: create `dir`, write the frame's bytes
/// to `path` whole, and only then advance the counter of the name, so that
/// the write occupies exactly `index`.
pub struct SavePlan {
    pub dir: Vec<u8>,
    pub path: Vec<u8>,
    pub index: u64,
}

/// Decides whether the frame just stored for `name` is to be persisted.
///
/// Answers `None` exactly when the toggle for `name` is off or was never
/// set; otherwise the plan names the directory to create, the file path to
/// write, and the index the write will occupy. Planning reads the toggles
/// and the counter and changes neither, so an abandoned plan (a failed
/// write) leaves every counter as it was.
pub fn plan_save(
    toggles: &SaveToggles,
    indexes: &FrameIndexes,
    base: &Vec<u8>,
    name: &Vec<u8>,
) -> (r: Option<SavePlan>)
    requires
        toggles.wf(),
        indexes.wf(),
    ensures
        (r is Some) <==> spec_enabled(toggles@, name@),
        (match r {
            Some(plan) => plan.index == spec_next_index(indexes@, name@)
                && plan.dir@ == spec_save_dir(base@, name@)
                && plan.path@ == spec_save_path(base@, name@, plan.index),
            None => true,
        }),
{
    if toggles.is_enabled(name) {
        let index = indexes.next_index(name);
        Some(SavePlan { dir: save_dir(base, name), path: save_path(base, name, index), index })
    } else {
        None
    }
}

/// The counters after `n` successful writes for `name`, each advancing the
/// counter by one.
pub open spec fn spec_after_advances(
    m: Map<Seq<u8>, u64>,
    name: Seq<u8>,
    n: nat,
) -> Map<Seq<u8>, u64>
    decreases n,
{
    if n == 0 {
        m
    } else {
        let prev = spec_after_advances(m, name, (n - 1) as nat);
        prev.insert(name, (spec_next_index(prev, name) + 1) as u64)
    }
}

/// Successful writes for one stream name take consecutive indices: after
/// `n` of them the counter stands exactly `n` past where it began, and no
/// other name's counter has moved.
pub proof fn lemma_indices_sequential(
    m: Map<Seq<u8>, u64>,
    name: Seq<u8>,
    n: nat,
    other: Seq<u8>,
)
    requires
        spec_next_index(m, name) + n <= u64::MAX,
    ensures
        spec_next_index(spec_after_advances(m, name, n), name) == spec_next_index(m, name) + n,
        other != name ==> spec_next_index(spec_after_advances(m, name, n), other)
            == spec_next_index(m, other),
    decreases n,
{
    if n > 0 {
        lemma_indices_sequential(m, name, (n - 1) as nat, other);
    }
}

/// Starting fresh, the writes for a name occupy exactly the indices
/// `0 .. n`: the `i`-th successful write (counting from 0) is planned at
/// index `i`.
pub proof fn lemma_fresh_indices(name: Seq<u8>, n: nat)
    requires
        n <= u64::MAX,
    ensures
        forall|i: nat| i <= n ==> spec_next_index(
            spec_after_advances(Map::empty(), name, i),
            name,
        ) == i,
{
    assert forall|i: nat| i <= n implies spec_next_index(
        spec_after_advances(Map::empty(), name, i),
        name,
    ) == i by {
        lemma_indices_sequential(Map::empty(), name, i, name);
    }
}

} // verus!
