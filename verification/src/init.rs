use vstd::prelude::*;
use crate::store_path::StorePath;
use crate::fs_model::FsState;
use crate::fs_model::Node;
use crate::fs_model::NodeModel;
use crate::fs_model::Probe;
use crate::fs_model::all_dirs;
use crate::fs_model::no_file_prefix;
use crate::fs_model::spec_create_dir_all;
use crate::fs_model::lemma_create_dir_all_frame;
use crate::fs_model::lemma_create_dir_all_idempotent;
use crate::fs_model::lemma_create_dir_all_no_change;
use crate::fs_model::lemma_create_dir_all_ok_iff;
use crate::fs_model::lemma_create_dir_all_success;

verus! {

/// Why startup initialization failed.  All three are fatal: the caller
/// reports them and aborts the launch, with no retry.
#[derive(PartialEq, Eq, Structural, Clone, Copy, Debug)]
pub enum InitError {
    /// The platform could not supply an application-data directory.
    PathResolution,
    /// The directory hierarchy could not be created.
    DirectoryCreation,
    /// The placeholder file could not be created or written.
    FileCreation,
}

impl InitError {
    /// A short report for top-level startup diagnostics.
    pub fn message(&self) -> (r: &'static str)
        ensures
            self is PathResolution ==> r@ == "app data dir not found"@,
            self is DirectoryCreation ==> r@ == "could not create app data dir"@,
            self is FileCreation ==> r@ == "could not create local store file"@,
    {
        match self {
            InitError::PathResolution => "app data dir not found",
            InitError::DirectoryCreation => "could not create app data dir",
            InitError::FileCreation => "could not create local store file",
        }
    }
}

/// The fixed name of the store file, `app.db`, as bytes.
pub open spec fn db_file_name() -> Seq<u8> {
    seq![97u8, 112u8, 112u8, 46u8, 100u8, 98u8]
}

/// The placeholder written into a store file created here: an empty JSON
/// object, `{}`.  A pre-existing file is never given this content.
pub open spec fn placeholder_content() -> Seq<u8> {
    seq![123u8, 125u8]
}

/// The store file's path under the data directory `d`.
pub open spec fn db_path(d: Seq<Seq<u8>>) -> Seq<Seq<u8>> {
    d.push(db_file_name())
}

/// The fixed name of the store file, for callers that touch the real disk.
pub fn db_file_name_bytes() -> (r: Vec<u8>)
    ensures
        r@ == db_file_name(),
{
    let mut v: Vec<u8> = Vec::new();
    v.push(97);
    v.push(112);
    v.push(112);
    v.push(46);
    v.push(100);
    v.push(98);
    proof {
        assert(v@ =~= db_file_name());
    }
    v
}

/// The placeholder payload, for callers that touch the real disk.
pub fn placeholder_payload() -> (r: Vec<u8>)
    ensures
        r@ == placeholder_content(),
{
    let mut v: Vec<u8> = Vec::new();
    v.push(123);
    v.push(125);
    proof {
        assert(v@ =~= placeholder_content());
    }
    v
}

/// What the initializer does to a filesystem `m`, given the data
/// directory `d`: the filesystem afterwards, and the reported result.
pub open spec fn spec_ensure_local_store(
    m: Map<Seq<Seq<u8>>, NodeModel>,
    d: Seq<Seq<u8>>,
) -> (Map<Seq<Seq<u8>>, NodeModel>, Result<(), InitError>) {
    let (m1, ok) = spec_create_dir_all(m, d);
    if !ok {
        (m1, Err(InitError::DirectoryCreation))
    } else if m1.contains_key(db_path(d)) {
        (m1, Ok(()))
    } else {
        (m1.insert(db_path(d), NodeModel::File(placeholder_content())), Ok(()))
    }
}

/// Ensures the data directory `base_dir` and the store file `app.db`
/// inside it exist, creating either only where missing: the single
/// check-then-act step an application runs once at startup, before
/// anything else touches the store.
pub fn ensure_local_store(fs: &mut FsState, base_dir: &StorePath) -> (r: Result<(), InitError>)
    requires
        old(fs).wf(),
    ensures
        final(fs).wf(),
        final(fs)@ == spec_ensure_local_store(old(fs)@, base_dir@).0,
        r == spec_ensure_local_store(old(fs)@, base_dir@).1,
{
    let ok = fs.create_dir_all(base_dir);
    if !ok {
        return Err(InitError::DirectoryCreation);
    }
    let name = db_file_name_bytes();
    let db = base_dir.join(&name);
    match fs.probe(&db) {
        Probe::Missing => {
            fs.insert_new(db, Node::File(placeholder_payload()));
        },
        _ => {},
    }
    Ok(())
}

/// The startup step as the application's entry point sees it: the
/// platform either resolved a data directory or it did not.  Without one,
/// nothing is touched and the distinct resolution error comes back.
pub fn initialize(fs: &mut FsState, base_dir: Option<&StorePath>) -> (r: Result<(), InitError>)
    requires
        old(fs).wf(),
    ensures
        final(fs).wf(),
        match base_dir {
            None => final(fs)@ == old(fs)@ && r == Err::<(), InitError>(
                InitError::PathResolution,
            ),
            Some(d) => final(fs)@ == spec_ensure_local_store(old(fs)@, d@).0 && r
                == spec_ensure_local_store(old(fs)@, d@).1,
        },
{
    match base_dir {
        None => Err(InitError::PathResolution),
        Some(d) => ensure_local_store(fs, d),
    }
}

/// Running the initializer twice in succession from any starting state is
/// the same as running it once: the second run returns the same result
/// and leaves every path and every file content exactly as the first run
/// left them.
pub proof fn lemma_ensure_local_store_idempotent(
    m: Map<Seq<Seq<u8>>, NodeModel>,
    d: Seq<Seq<u8>>,
)
    ensures
        spec_ensure_local_store(spec_ensure_local_store(m, d).0, d) == spec_ensure_local_store(
            m,
            d,
        ),
{
    let (m1, ok) = spec_create_dir_all(m, d);
    lemma_create_dir_all_idempotent(m, d);
    if ok && !m1.contains_key(db_path(d)) {
        let m2 = m1.insert(db_path(d), NodeModel::File(placeholder_content()));
        lemma_create_dir_all_success(m, d);
        assert forall|i: int| 1 <= i <= d.len() implies m2.contains_key(#[trigger] d.take(i))
            && m2[d.take(i)] is Dir by {
            assert(d.take(i).len() == i);
            assert(db_path(d).len() == d.len() + 1);
        }
        lemma_create_dir_all_no_change(m2, d);
    }
}

/// The initializer never rewrites: every path present before the call is
/// present after it, with the very same node.
pub proof fn lemma_preserves_existing(
    m: Map<Seq<Seq<u8>>, NodeModel>,
    d: Seq<Seq<u8>>,
    k: Seq<Seq<u8>>,
)
    requires
        m.contains_key(k),
    ensures
        spec_ensure_local_store(m, d).0.contains_key(k),
        spec_ensure_local_store(m, d).0[k] == m[k],
{
    lemma_create_dir_all_frame(m, d);
}

/// A pre-existing store file is left untouched: after the call it still
/// holds its old content, byte for byte.
pub proof fn lemma_non_destructive(m: Map<Seq<Seq<u8>>, NodeModel>, d: Seq<Seq<u8>>, c: Seq<u8>)
    requires
        m.contains_key(db_path(d)),
        m[db_path(d)] == NodeModel::File(c),
    ensures
        spec_ensure_local_store(m, d).0.contains_key(db_path(d)),
        spec_ensure_local_store(m, d).0[db_path(d)] == NodeModel::File(c),
{
    lemma_preserves_existing(m, d, db_path(d));
}

/// The initializer succeeds exactly when no ancestor of the data
/// directory, nor the directory itself, is occupied by a file; and its
/// only error from a resolved directory is the directory-creation one.
pub proof fn lemma_success_iff(m: Map<Seq<Seq<u8>>, NodeModel>, d: Seq<Seq<u8>>)
    ensures
        spec_ensure_local_store(m, d).1 is Ok <==> no_file_prefix(m, d),
        spec_ensure_local_store(m, d).1 is Err ==> spec_ensure_local_store(m, d).1
            == Err::<(), InitError>(InitError::DirectoryCreation),
{
    lemma_create_dir_all_ok_iff(m, d);
}

/// On a fresh slate — neither the data directory, nor any ancestor of it,
/// nor the store file exists — the initializer succeeds, makes a
/// directory of the full ancestor chain and of the directory itself, and
/// fills the store file with the placeholder bytes.
pub proof fn lemma_recursive_creation(m: Map<Seq<Seq<u8>>, NodeModel>, d: Seq<Seq<u8>>)
    requires
        forall|i: int| 1 <= i <= d.len() ==> !m.contains_key(#[trigger] d.take(i)),
        !m.contains_key(db_path(d)),
    ensures
        spec_ensure_local_store(m, d).1 == Ok::<(), InitError>(()),
        all_dirs(spec_ensure_local_store(m, d).0, d),
        spec_ensure_local_store(m, d).0.contains_key(db_path(d)),
        spec_ensure_local_store(m, d).0[db_path(d)] == NodeModel::File(placeholder_content()),
{
    lemma_create_dir_all_ok_iff(m, d);
    lemma_create_dir_all_success(m, d);
    lemma_create_dir_all_frame(m, d);
    let m1 = spec_create_dir_all(m, d).0;
    assert(db_path(d).len() == d.len() + 1);
    assert(!m1.contains_key(db_path(d)));
    let m2 = m1.insert(db_path(d), NodeModel::File(placeholder_content()));
    assert forall|i: int| 1 <= i <= d.len() implies m2.contains_key(#[trigger] d.take(i))
        && m2[d.take(i)] is Dir by {
        assert(d.take(i).len() == i);
    }
}

/// Where the directory walk is blocked by a file, the initializer reports
/// the directory-creation error and creates no store file: the target
/// file stays absent if it was absent, and every path the walk did add is
/// a directory.
pub proof fn lemma_failure_reports(m: Map<Seq<Seq<u8>>, NodeModel>, d: Seq<Seq<u8>>)
    requires
        !no_file_prefix(m, d),
    ensures
        spec_ensure_local_store(m, d).1 == Err::<(), InitError>(InitError::DirectoryCreation),
        !m.contains_key(db_path(d)) ==> !spec_ensure_local_store(m, d).0.contains_key(db_path(d)),
        forall|k: Seq<Seq<u8>>| #[trigger] spec_ensure_local_store(m, d).0.contains_key(k)
            ==> m.contains_key(k) || spec_ensure_local_store(m, d).0[k] is Dir,
{
    lemma_create_dir_all_ok_iff(m, d);
    lemma_create_dir_all_frame(m, d);
    assert(db_path(d).len() == d.len() + 1);
}

} // verus!
