//! Commit builder: creates tables in the destination table format and
//! appends batches of file actions to a table's transaction log as single
//! atomic entries.
//!
//! The store models the logical content of each table's versioned,
//! append-only log: creating a table writes its column list (mapped from
//! the relational schema), its creation metadata, and the forced
//! format-compatibility versions, and fails fast if the location already
//! has a table — no merge or overwrite.  Committing a batch of add and
//! remove actions appends exactly one log entry holding the whole ordered
//! batch, or changes nothing at all.  The physical log files are owned by
//! the downstream table-format library; the process edge that drives it
//! applies the relaxed-rename storage option first, which is only safe
//! under the external single-writer convention.

use vstd::prelude::*;
use vstd::string::StringSliceAdditionalSpecFns;

use crate::mapper::{map_columns, spec_map_column, ColumnSpec, LakeColumn, LakeColumnModel};

verus! {

broadcast use vstd::seq_lib::group_filter_ensures, Seq::<_>::lemma_filter_push;

/// The lowest log-format version a reader must understand to open a
/// table created here.
pub const MIN_READER_VERSION: u32 = 3;

/// The lowest log-format version a writer must understand to commit to a
/// table created here.
pub const MIN_WRITER_VERSION: u32 = 7;

/// The creation metadata tag every created table carries.
pub open spec fn spec_creator_tag() -> Seq<u8> {
    "pg_mooncake_extension".spec_bytes()
}

/// The creation metadata tag, as bytes.
pub fn creator_tag() -> (v: Vec<u8>)
    ensures
        v@ == spec_creator_tag(),
{
    vstd::slice::slice_to_vec("pg_mooncake_extension".as_bytes())
}

/// One file's participation in a table's data set.  Every action in a
/// commit batch is marked as changing data.
#[derive(Debug)]
pub enum FileAction {
    Add { path: Vec<u8>, size: i64, data_change: bool },
    Remove { path: Vec<u8>, data_change: bool },
}

/// The mathematical model of a file action.
#[verifier::ext_equal]
pub enum FileActionModel {
    Add { path: Seq<u8>, size: i64, data_change: bool },
    Remove { path: Seq<u8>, data_change: bool },
}

impl View for FileAction {
    type V = FileActionModel;

    open spec fn view(&self) -> FileActionModel {
        match self {
            FileAction::Add { path, size, data_change } => FileActionModel::Add {
                path: path@,
                size: *size,
                data_change: *data_change,
            },
            FileAction::Remove { path, data_change } => FileActionModel::Remove {
                path: path@,
                data_change: *data_change,
            },
        }
    }
}

/// Builds the ordered action batch for one commit from parallel lists of
/// file paths, sizes, and add-or-remove marks, every action marked as
/// changing data.
pub fn build_file_actions(paths: Vec<Vec<u8>>, sizes: &Vec<i64>, is_add: &Vec<bool>) -> (out: Vec<
    FileAction,
>)
    requires
        paths@.len() == sizes@.len(),
        paths@.len() == is_add@.len(),
    ensures
        out@.len() == paths@.len(),
        forall|i: int|
            0 <= i < out@.len() ==> #[trigger] out@[i]@ == (if is_add@[i] {
                FileActionModel::Add { path: paths@[i]@, size: sizes@[i], data_change: true }
            } else {
                FileActionModel::Remove { path: paths@[i]@, data_change: true }
            }),
{
    let ghost paths_model = paths@.map_values(|p: Vec<u8>| p@);
    let total = paths.len();
    let mut rest = paths;
    let mut out: Vec<FileAction> = Vec::new();
    let mut i: usize = 0;
    while rest.len() > 0
        invariant
            paths_model.len() == total,
            i + rest@.len() == total,
            paths_model.len() == sizes@.len(),
            paths_model.len() == is_add@.len(),
            forall|j: int| 0 <= j < rest@.len() ==> #[trigger] rest@[j]@ == paths_model[i + j],
            out@.len() == i,
            forall|j: int|
                0 <= j < i ==> #[trigger] out@[j]@ == (if is_add@[j] {
                    FileActionModel::Add { path: paths_model[j], size: sizes@[j], data_change: true }
                } else {
                    FileActionModel::Remove { path: paths_model[j], data_change: true }
                }),
        decreases rest@.len(),
    {
        let path = rest.remove(0);
        if is_add[i] {
            out.push(FileAction::Add { path, size: sizes[i], data_change: true });
        } else {
            out.push(FileAction::Remove { path, data_change: true });
        }
        i = i + 1;
    }
    out
}

// ---------------------------------------------------------------------------
// Storage options
// ---------------------------------------------------------------------------

/// One storage option: a key and its value.
#[derive(Debug)]
pub struct OptionEntry {
    pub key: Vec<u8>,
    pub value: Vec<u8>,
}

/// The mathematical model of a storage option.
#[verifier::ext_equal]
pub struct OptionModel {
    pub key: Seq<u8>,
    pub value: Seq<u8>,
}

impl View for OptionEntry {
    type V = OptionModel;

    open spec fn view(&self) -> OptionModel {
        OptionModel { key: self.key@, value: self.value@ }
    }
}

/// The options attached to one external-storage operation, for the
/// single call's lifetime.
#[derive(Debug)]
pub struct StorageOptions {
    pub entries: Vec<OptionEntry>,
}

impl View for StorageOptions {
    type V = Seq<OptionModel>;

    open spec fn view(&self) -> Seq<OptionModel> {
        self.entries@.map_values(|e: OptionEntry| e@)
    }
}

/// The storage option key for the relaxed-rename write mode.
pub open spec fn spec_unsafe_rename_key() -> Seq<u8> {
    "AWS_S3_ALLOW_UNSAFE_RENAME".spec_bytes()
}

/// Forces the relaxed-rename write mode for remote object storage: any
/// prior setting of the key is dropped and the key is set to `true`.
/// Writing without rename locking is only safe because exactly one
/// writer ever commits to a given table location — an external invariant
/// this component trusts but does not verify.
pub fn force_unsafe_rename(opts: StorageOptions) -> (out: StorageOptions)
    ensures
        out@ == opts@.filter(|e: OptionModel| e.key != spec_unsafe_rename_key()).push(
            OptionModel { key: spec_unsafe_rename_key(), value: "true".spec_bytes() },
        ),
{
    let ghost orig = opts.entries@.map_values(|e: OptionEntry| e@);
    let ghost pred = |e: OptionModel| e.key != spec_unsafe_rename_key();
    let key = vstd::slice::slice_to_vec("AWS_S3_ALLOW_UNSAFE_RENAME".as_bytes());
    let mut rest = opts.entries;
    let mut kept: Vec<OptionEntry> = Vec::new();
    let mut i: usize = 0;
    let total = rest.len();
    proof {
        assert(orig.take(0).filter(pred) =~= Seq::<OptionModel>::empty());
    }
    while rest.len() > 0
        invariant
            orig.len() == total,
            i + rest@.len() == total,
            forall|j: int| 0 <= j < rest@.len() ==> #[trigger] rest@[j]@ == orig[i + j],
            kept@.map_values(|e: OptionEntry| e@) == orig.take(i as int).filter(pred),
            pred == (|e: OptionModel| e.key != spec_unsafe_rename_key()),
            key@ == spec_unsafe_rename_key(),
        decreases rest@.len(),
    {
        let e = rest.remove(0);
        proof {
            assert(e@ == orig[i as int]);
            assert(orig.take(i + 1) =~= orig.take(i as int).push(e@));
        }
        let ghost pre = kept@.map_values(|x: OptionEntry| x@);
        if !crate::bytes_eq(e.key.as_slice(), key.as_slice()) {
            kept.push(e);
            proof {
                assert(kept@.map_values(|x: OptionEntry| x@) =~= pre.push(kept@.last()@));
            }
        }
        i = i + 1;
    }
    proof {
        assert(orig.take(i as int) =~= orig);
    }
    let value = vstd::slice::slice_to_vec("true".as_bytes());
    let ghost pre = kept@.map_values(|x: OptionEntry| x@);
    kept.push(OptionEntry { key, value });
    proof {
        assert(kept@.map_values(|x: OptionEntry| x@) =~= pre.push(kept@.last()@));
    }
    StorageOptions { entries: kept }
}

// ---------------------------------------------------------------------------
// The table store: each location's logical log content
// ---------------------------------------------------------------------------

/// One atomic entry of a table's transaction log: the ordered batch of
/// file actions committed together.
#[derive(Debug)]
pub struct LogEntry {
    pub actions: Vec<FileAction>,
}

impl View for LogEntry {
    type V = Seq<FileActionModel>;

    open spec fn view(&self) -> Seq<FileActionModel> {
        self.actions@.map_values(|a: FileAction| a@)
    }
}

/// The logical content of one table in the destination format: its
/// creation metadata and its versioned, append-only log.
#[derive(Debug)]
pub struct LakeTable {
    pub name: Vec<u8>,
    pub columns: Vec<LakeColumn>,
    pub min_reader_version: u32,
    pub min_writer_version: u32,
    pub creator: Vec<u8>,
    pub log: Vec<LogEntry>,
}

/// The mathematical model of one table.
#[verifier::ext_equal]
pub struct TableModel {
    pub name: Seq<u8>,
    pub columns: Seq<LakeColumnModel>,
    pub min_reader_version: u32,
    pub min_writer_version: u32,
    pub creator: Seq<u8>,
    pub log: Seq<Seq<FileActionModel>>,
}

impl View for LakeTable {
    type V = TableModel;

    open spec fn view(&self) -> TableModel {
        TableModel {
            name: self.name@,
            columns: self.columns@.map_values(|c: LakeColumn| c@),
            min_reader_version: self.min_reader_version,
            min_writer_version: self.min_writer_version,
            creator: self.creator@,
            log: self.log@.map_values(|e: LogEntry| e@),
        }
    }
}

/// One table under its storage location.
#[derive(Debug)]
pub struct StoreEntry {
    pub location: Vec<u8>,
    pub table: LakeTable,
}

/// The tables this store has created or opened, by storage location.
#[derive(Debug)]
pub struct TableStore {
    entries: Vec<StoreEntry>,
}

impl View for TableStore {
    type V = Seq<(Seq<u8>, TableModel)>;

    closed spec fn view(&self) -> Seq<(Seq<u8>, TableModel)> {
        self.entries@.map_values(|e: StoreEntry| (e.location@, e.table@))
    }
}

/// The table stored under a location: the first entry whose location
/// matches.
pub open spec fn spec_lookup(s: Seq<(Seq<u8>, TableModel)>, loc: Seq<u8>) -> Option<TableModel>
    decreases s.len(),
{
    if s.len() == 0 {
        Option::None
    } else if s.first().0 == loc {
        Option::Some(s.first().1)
    } else {
        spec_lookup(s.drop_first(), loc)
    }
}

/// Looking a location up skips any prefix of entries under other
/// locations.
proof fn lemma_lookup_skip(s: Seq<(Seq<u8>, TableModel)>, loc: Seq<u8>, i: int)
    requires
        0 <= i <= s.len(),
        forall|j: int| 0 <= j < i ==> (#[trigger] s[j]).0 != loc,
    ensures
        spec_lookup(s, loc) == spec_lookup(s.skip(i), loc),
    decreases i,
{
    if i > 0 {
        assert(s[0].0 != loc);
        assert(spec_lookup(s, loc) == spec_lookup(s.drop_first(), loc));
        lemma_lookup_skip(s.drop_first(), loc, i - 1);
        assert(s.drop_first().skip(i - 1) =~= s.skip(i));
    } else {
        assert(s.skip(0) =~= s);
    }
}

/// Adding a table under a new location does not change what any other
/// location holds.
proof fn lemma_lookup_push_other(
    s: Seq<(Seq<u8>, TableModel)>,
    e: (Seq<u8>, TableModel),
    loc: Seq<u8>,
)
    requires
        loc != e.0,
    ensures
        spec_lookup(s.push(e), loc) == spec_lookup(s, loc),
    decreases s.len(),
{
    if s.len() == 0 {
        assert(s.push(e).first() == e);
        assert(s.push(e).drop_first() =~= Seq::<(Seq<u8>, TableModel)>::empty());
        assert(spec_lookup(Seq::<(Seq<u8>, TableModel)>::empty(), loc) is None);
    } else {
        assert(s.push(e).first() == s.first());
        assert(s.push(e).drop_first() =~= s.drop_first().push(e));
        lemma_lookup_push_other(s.drop_first(), e, loc);
    }
}

/// A table pushed under a location absent from the store is then found
/// under it.
proof fn lemma_lookup_push_absent(s: Seq<(Seq<u8>, TableModel)>, e: (Seq<u8>, TableModel))
    requires
        spec_lookup(s, e.0) is None,
    ensures
        spec_lookup(s.push(e), e.0) == Option::Some(e.1),
    decreases s.len(),
{
    if s.len() == 0 {
        assert(s.push(e).first() == e);
    } else {
        assert(s.first().0 != e.0);
        assert(s.push(e).first() == s.first());
        assert(s.push(e).drop_first() =~= s.drop_first().push(e));
        lemma_lookup_push_absent(s.drop_first(), e);
    }
}

/// Replacing the entry at one index changes only that entry's location's
/// lookup, provided the location is kept and no earlier entry shadows
/// it.
proof fn lemma_lookup_update(
    s: Seq<(Seq<u8>, TableModel)>,
    i: int,
    t: TableModel,
    loc: Seq<u8>,
)
    requires
        0 <= i < s.len(),
        forall|j: int| 0 <= j < i ==> (#[trigger] s[j]).0 != s[i].0,
    ensures
        loc == s[i].0 ==> spec_lookup(s.update(i, (s[i].0, t)), loc) == Option::Some(t),
        loc != s[i].0 ==> spec_lookup(s.update(i, (s[i].0, t)), loc) == spec_lookup(s, loc),
    decreases s.len(),
{
    let s2 = s.update(i, (s[i].0, t));
    if i == 0 {
        assert(s2.first() == (s[0].0, t));
        if loc != s[i].0 {
            assert(s2.drop_first() =~= s.drop_first());
        }
    } else {
        assert(s2.first() == s.first());
        assert(s.first().0 != s[i].0);
        assert(s2.drop_first() =~= s.drop_first().update(i - 1, (s[i].0, t)));
        assert(s.drop_first()[i - 1] == s[i]);
        assert(forall|j: int|
            0 <= j < i - 1 ==> (#[trigger] s.drop_first()[j]).0 != s.drop_first()[i - 1].0);
        lemma_lookup_update(s.drop_first(), i - 1, t, loc);
    }
}

/// A sequence holding no entry for a location yields no table for it.
proof fn lemma_lookup_none_when_absent(s: Seq<(Seq<u8>, TableModel)>, loc: Seq<u8>)
    requires
        forall|i: int| 0 <= i < s.len() ==> (#[trigger] s[i]).0 != loc,
    ensures
        spec_lookup(s, loc) is None,
    decreases s.len(),
{
    if s.len() > 0 {
        assert(s.first() == s[0]);
        assert(forall|i: int|
            0 <= i < s.drop_first().len() ==> (#[trigger] s.drop_first()[i]).0 != loc);
        lemma_lookup_none_when_absent(s.drop_first(), loc);
    }
}

/// A sequence holding some entry for a location yields a table for it.
proof fn lemma_lookup_some_when_present(s: Seq<(Seq<u8>, TableModel)>, loc: Seq<u8>)
    requires
        exists|i: int| 0 <= i < s.len() && (#[trigger] s[i]).0 == loc,
    ensures
        spec_lookup(s, loc) is Some,
    decreases s.len(),
{
    let i = choose|i: int| 0 <= i < s.len() && (#[trigger] s[i]).0 == loc;
    if s.first().0 != loc {
        assert(s.drop_first()[i - 1] == s[i]);
        lemma_lookup_some_when_present(s.drop_first(), loc);
    }
}

/// The entries that survive dropping one location: those under any
/// other location.
pub open spec fn other_location(loc: Seq<u8>) -> spec_fn((Seq<u8>, TableModel)) -> bool {
    |e: (Seq<u8>, TableModel)| e.0 != loc
}

/// Dropping every entry of one location leaves every other location's
/// lookup unchanged.
proof fn lemma_lookup_filter_other(s: Seq<(Seq<u8>, TableModel)>, loc: Seq<u8>, other: Seq<u8>)
    requires
        other != loc,
    ensures
        spec_lookup(s.filter(other_location(loc)), other) == spec_lookup(s, other),
    decreases s.len(),
{
    let pred = other_location(loc);
    if s.len() == 0 {
        assert(s.filter(pred) =~= s);
    } else {
        let h = s.first();
        let tail = s.drop_first();
        assert(s =~= seq![h] + tail);
        Seq::filter_distributes_over_add(seq![h], tail, pred);
        assert(seq![h] =~= Seq::<(Seq<u8>, TableModel)>::empty().push(h));
        assert(Seq::<(Seq<u8>, TableModel)>::empty().filter(pred) =~= Seq::<
            (Seq<u8>, TableModel),
        >::empty());
        lemma_lookup_filter_other(tail, loc, other);
        if pred(h) {
            assert(seq![h].filter(pred) =~= seq![h]);
            assert(s.filter(pred) =~= seq![h] + tail.filter(pred));
            if h.0 == other {
                assert((seq![h] + tail.filter(pred)).first() == h);
            } else {
                assert((seq![h] + tail.filter(pred)).first() == h);
                assert((seq![h] + tail.filter(pred)).drop_first() =~= tail.filter(pred));
            }
        } else {
            assert(seq![h].filter(pred) =~= Seq::<(Seq<u8>, TableModel)>::empty());
            assert(s.filter(pred) =~= tail.filter(pred));
            assert(h.0 == loc);
            assert(spec_lookup(s, other) == spec_lookup(tail, other));
        }
    }
}

/// Why a commit-builder operation failed.
#[derive(Clone, Copy, Debug, PartialEq, Eq, Structural)]
pub enum CommitError {
    /// The destination already has committed metadata; creation has
    /// fail-fast semantics with no merge or overwrite.
    AlreadyExists,
    /// No table exists at the location, so there is no log to open.
    NotFound,
}

impl TableStore {
    /// A store holding no tables.
    pub fn new() -> (s: Self)
        ensures
            s@ == Seq::<(Seq<u8>, TableModel)>::empty(),
    {
        let s = TableStore { entries: Vec::new() };
        proof {
            assert(s@ =~= Seq::<(Seq<u8>, TableModel)>::empty());
        }
        s
    }

    /// The index of the entry holding a location's table, if any.
    fn find_index(&self, location: &[u8]) -> (r: Option<usize>)
        ensures
            match r {
                Option::Some(i) => {
                    &&& i < self@.len()
                    &&& self@[i as int].0 == location@
                    &&& forall|j: int| 0 <= j < i ==> (#[trigger] self@[j]).0 != location@
                    &&& spec_lookup(self@, location@) == Option::Some(self@[i as int].1)
                },
                Option::None => spec_lookup(self@, location@) is None,
            },
    {
        let mut i: usize = 0;
        while i < self.entries.len()
            invariant
                i <= self@.len(),
                self@.len() == self.entries@.len(),
                forall|j: int| 0 <= j < i ==> (#[trigger] self@[j]).0 != location@,
            decreases self@.len() - i,
        {
            if crate::bytes_eq(self.entries[i].location.as_slice(), location) {
                proof {
                    lemma_lookup_skip(self@, location@, i as int);
                    assert(self@.skip(i as int).first() == self@[i as int]);
                }
                return Some(i);
            }
            i = i + 1;
        }
        proof {
            lemma_lookup_skip(self@, location@, self@.len() as int);
            assert(self@.skip(self@.len() as int) =~= Seq::<(Seq<u8>, TableModel)>::empty());
        }
        None
    }

    /// The table stored under a location, if any.
    pub fn find(&self, location: &[u8]) -> (r: Option<&LakeTable>)
        ensures
            match r {
                Option::Some(t) => spec_lookup(self@, location@) == Option::Some(t@),
                Option::None => spec_lookup(self@, location@) is None,
            },
    {
        match self.find_index(location) {
            Option::Some(i) => Some(&self.entries[i].table),
            Option::None => None,
        }
    }

    /// The model of the table that creating under the given arguments
    /// yields: the columns mapped one to one from the relational schema,
    /// the creation metadata tag, the forced format-compatibility
    /// versions, and an empty log.
    pub open spec fn spec_created_table(name: Seq<u8>, columns: Seq<ColumnSpec>) -> TableModel {
        TableModel {
            name,
            columns: columns.map_values(
                |c: ColumnSpec| spec_map_column(c.name@, c.relational_type@),
            ),
            min_reader_version: MIN_READER_VERSION,
            min_writer_version: MIN_WRITER_VERSION,
            creator: spec_creator_tag(),
            log: Seq::empty(),
        }
    }

    /// Creates a table at a location: maps the columns, attaches the
    /// creation metadata and the forced compatibility versions, and
    /// fails fast — changing nothing — if the location already has a
    /// table.
    pub fn create_table(&mut self, name: Vec<u8>, location: Vec<u8>, columns: Vec<ColumnSpec>) -> (r:
        Result<(), CommitError>)
        ensures
            match r {
                Result::Ok(()) => {
                    &&& spec_lookup(old(self)@, location@) is None
                    &&& final(self)@ == old(self)@.push(
                        (location@, Self::spec_created_table(name@, columns@)),
                    )
                    &&& spec_lookup(final(self)@, location@) == Option::Some(
                        Self::spec_created_table(name@, columns@),
                    )
                },
                Result::Err(e) => {
                    &&& e == CommitError::AlreadyExists
                    &&& spec_lookup(old(self)@, location@) is Some
                    &&& final(self)@ == old(self)@
                },
            },
            forall|other: Seq<u8>|
                other != location@ ==> #[trigger] spec_lookup(final(self)@, other) == spec_lookup(
                    old(self)@,
                    other,
                ),
    {
        match self.find_index(location.as_slice()) {
            Option::Some(_) => Err(CommitError::AlreadyExists),
            Option::None => {
                let ghost name_model = name@;
                let ghost loc_model = location@;
                let lake_columns = map_columns(&columns);
                let table = LakeTable {
                    name,
                    columns: lake_columns,
                    min_reader_version: MIN_READER_VERSION,
                    min_writer_version: MIN_WRITER_VERSION,
                    creator: creator_tag(),
                    log: Vec::new(),
                };
                let ghost table_model = table@;
                self.entries.push(StoreEntry { location, table });
                proof {
                    let target = Self::spec_created_table(name_model, columns@);
                    assert(table_model.columns =~= target.columns);
                    assert(table_model.log =~= target.log);
                    assert(table_model =~= target);
                    let s0 = old(self)@;
                    let e = (loc_model, table_model);
                    assert(self@ =~= s0.push(e));
                    lemma_lookup_push_absent(s0, e);
                    assert forall|other: Seq<u8>| other != loc_model implies #[trigger] spec_lookup(
                        self@,
                        other,
                    ) == spec_lookup(s0, other) by {
                        lemma_lookup_push_other(s0, e, other);
                    }
                }
                Ok(())
            },
        }
    }

    /// Drops the table at a location, deliberately idempotent: dropping
    /// a location that holds no table — one never created through this
    /// protocol, or dropped already — succeeds as a no-op, and says
    /// whether a table was there.  Every other location is untouched.
    pub fn drop_table(&mut self, location: &[u8]) -> (existed: bool)
        ensures
            final(self)@ == old(self)@.filter(other_location(location@)),
            spec_lookup(final(self)@, location@) is None,
            existed == (spec_lookup(old(self)@, location@) is Some),
            forall|other: Seq<u8>|
                other != location@ ==> #[trigger] spec_lookup(final(self)@, other) == spec_lookup(
                    old(self)@,
                    other,
                ),
    {
        broadcast use vstd::seq_lib::group_filter_ensures, Seq::<_>::lemma_filter_push;

        let ghost orig = self@;
        let ghost pred = other_location(location@);
        let total = self.entries.len();
        let mut rest = self.entries.split_off(0);
        proof {
            assert(rest@.map_values(|e: StoreEntry| (e.location@, e.table@)) =~= orig);
            assert(orig.take(0).filter(pred) =~= Seq::<(Seq<u8>, TableModel)>::empty());
        }
        let mut kept: Vec<StoreEntry> = Vec::new();
        let mut existed = false;
        let mut i: usize = 0;
        while rest.len() > 0
            invariant
                orig.len() == total,
                i + rest@.len() == total,
                forall|j: int|
                    0 <= j < rest@.len() ==> (#[trigger] rest@[j].location@, rest@[j].table@)
                        == orig[i + j],
                kept@.map_values(|e: StoreEntry| (e.location@, e.table@)) == orig.take(
                    i as int,
                ).filter(pred),
                existed == exists|j: int| 0 <= j < i && (#[trigger] orig[j]).0 == location@,
                pred == other_location(location@),
            decreases rest@.len(),
        {
            let e = rest.remove(0);
            proof {
                assert((e.location@, e.table@) == orig[i as int]);
                assert(orig.take(i + 1) =~= orig.take(i as int).push(orig[i as int]));
            }
            let ghost pre = kept@.map_values(|x: StoreEntry| (x.location@, x.table@));
            if crate::bytes_eq(e.location.as_slice(), location) {
                existed = true;
                proof {
                    assert((orig[i as int]).0 == location@);
                }
            } else {
                kept.push(e);
                proof {
                    assert(kept@.map_values(|x: StoreEntry| (x.location@, x.table@)) =~= pre.push(
                        orig[i as int],
                    ));
                }
            }
            i = i + 1;
        }
        proof {
            assert(orig.take(i as int) =~= orig);
        }
        self.entries = kept;
        proof {
            assert(self@ =~= orig.filter(pred));
            assert forall|k: int| 0 <= k < self@.len() implies (#[trigger] self@[k]).0
                != location@ by {
                Seq::lemma_filter_pred(orig, pred, k);
            }
            lemma_lookup_none_when_absent(self@, location@);
            if existed {
                lemma_lookup_some_when_present(orig, location@);
            } else {
                assert(forall|j: int| 0 <= j < orig.len() ==> (#[trigger] orig[j]).0 != location@);
                lemma_lookup_none_when_absent(orig, location@);
            }
            assert forall|other: Seq<u8>| other != location@ implies #[trigger] spec_lookup(
                self@,
                other,
            ) == spec_lookup(orig, other) by {
                lemma_lookup_filter_other(orig, location@, other);
            }
        }
        existed
    }

    /// Commits one ordered batch of file actions to a location's table
    /// as a single atomic log entry: on success exactly one entry,
    /// holding the whole batch in order, is appended to that table's log
    /// and nothing else changes; on failure nothing changes at all.
    pub fn commit_file_actions(&mut self, location: &[u8], actions: Vec<FileAction>) -> (r: Result<
        (),
        CommitError,
    >)
        ensures
            match r {
                Result::Ok(()) => {
                    &&& spec_lookup(old(self)@, location@) matches Option::Some(t0)
                        && spec_lookup(final(self)@, location@) == Option::Some(
                        TableModel {
                            log: t0.log.push(actions@.map_values(|a: FileAction| a@)),
                            ..t0
                        },
                    )
                    &&& final(self)@.len() == old(self)@.len()
                },
                Result::Err(e) => {
                    &&& e == CommitError::NotFound
                    &&& spec_lookup(old(self)@, location@) is None
                    &&& final(self)@ == old(self)@
                },
            },
            forall|other: Seq<u8>|
                other != location@ ==> #[trigger] spec_lookup(final(self)@, other) == spec_lookup(
                    old(self)@,
                    other,
                ),
    {
        match self.find_index(location) {
            Option::None => Err(CommitError::NotFound),
            Option::Some(i) => {
                let ghost s0 = self@;
                let ghost t0 = s0[i as int].1;
                let ghost act_model = actions@.map_values(|a: FileAction| a@);
                let mut entry = self.entries.remove(i);
                entry.table.log.push(LogEntry { actions });
                let ghost new_table_model = entry.table@;
                self.entries.insert(i, entry);
                proof {
                    let target = TableModel { log: t0.log.push(act_model), ..t0 };
                    assert(new_table_model.log =~= target.log);
                    assert(new_table_model =~= target);
                    assert(self@ =~= s0.update(i as int, (s0[i as int].0, new_table_model)));
                    lemma_lookup_update(s0, i as int, new_table_model, location@);
                    assert forall|other: Seq<u8>| other != location@ implies #[trigger] spec_lookup(
                        self@,
                        other,
                    ) == spec_lookup(s0, other) by {
                        lemma_lookup_update(s0, i as int, new_table_model, other);
                    }
                }
                Ok(())
            },
        }
    }
}

} // verus!
