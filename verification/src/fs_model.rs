use vstd::prelude::*;
use crate::store_path::StorePath;

verus! {

/// What a path names on disk: a directory, or a file with its content.
pub enum Node {
    Dir,
    File(Vec<u8>),
}

/// The abstract value of a `Node`: file content as a byte sequence.
pub enum NodeModel {
    Dir,
    File(Seq<u8>),
}

impl View for Node {
    type V = NodeModel;

    open spec fn view(&self) -> NodeModel {
        match self {
            Node::Dir => NodeModel::Dir,
            Node::File(content) => NodeModel::File(content@),
        }
    }
}

/// One named entry of the modelled filesystem.
pub struct FsEntry {
    pub path: StorePath,
    pub node: Node,
}

/// What an existence check on one path reports.
#[derive(PartialEq, Eq, Structural, Clone, Copy, Debug)]
pub enum Probe {
    Missing,
    FoundDir,
    FoundFile,
}

/// The abstract value of an entry table: each path mapped to its node.
pub open spec fn map_of(entries: Seq<FsEntry>) -> Map<Seq<Seq<u8>>, NodeModel>
    decreases entries.len(),
{
    if entries.len() == 0 {
        Map::empty()
    } else {
        map_of(entries.drop_last()).insert(entries.last().path@, entries.last().node@)
    }
}

/// No two entries name the same path.
pub open spec fn entries_wf(entries: Seq<FsEntry>) -> bool {
    forall|i: int, j: int|
        0 <= i < j < entries.len() ==> entries[i].path@ != entries[j].path@
}

/// A path absent from every entry is absent from the map.
pub proof fn lemma_map_of_absent(entries: Seq<FsEntry>, k: Seq<Seq<u8>>)
    requires
        forall|i: int| 0 <= i < entries.len() ==> entries[i].path@ != k,
    ensures
        !map_of(entries).contains_key(k),
    decreases entries.len(),
{
    if entries.len() > 0 {
        lemma_map_of_absent(entries.drop_last(), k);
    }
}

/// Under `entries_wf`, every entry is found in the map, with its own node.
pub proof fn lemma_map_of_present(entries: Seq<FsEntry>, i: int)
    requires
        entries_wf(entries),
        0 <= i < entries.len(),
    ensures
        map_of(entries).contains_key(entries[i].path@),
        map_of(entries)[entries[i].path@] == entries[i].node@,
    decreases entries.len(),
{
    if i < entries.len() - 1 {
        lemma_map_of_present(entries.drop_last(), i);
    }
}

/// Whether `q` is a leading part of `p` (`p` itself included).
pub open spec fn is_prefix_of(q: Seq<Seq<u8>>, p: Seq<Seq<u8>>) -> bool {
    q.len() <= p.len() && q == p.take(q.len() as int)
}

/// The map after recursively creating every prefix of `p` as a directory,
/// paired with whether that succeeded.  A prefix already present as a file
/// stops the walk; directories made before the stop are kept.  A prefix
/// already present as a directory is left alone.
pub open spec fn spec_create_dir_all(
    m: Map<Seq<Seq<u8>>, NodeModel>,
    p: Seq<Seq<u8>>,
) -> (Map<Seq<Seq<u8>>, NodeModel>, bool)
    decreases p.len(),
{
    if p.len() == 0 {
        (m, true)
    } else {
        let (m1, ok) = spec_create_dir_all(m, p.drop_last());
        if !ok {
            (m1, false)
        } else if m1.contains_key(p) {
            (m1, m1[p] is Dir)
        } else {
            (m1.insert(p, NodeModel::Dir), true)
        }
    }
}

/// Every nonempty prefix of `p`, `p` itself included, is a directory of `m`.
pub open spec fn all_dirs(m: Map<Seq<Seq<u8>>, NodeModel>, p: Seq<Seq<u8>>) -> bool {
    forall|i: int|
        1 <= i <= p.len() ==> m.contains_key(#[trigger] p.take(i)) && m[p.take(i)] is Dir
}

/// No nonempty prefix of `p` is present in `m` as a file.
pub open spec fn no_file_prefix(m: Map<Seq<Seq<u8>>, NodeModel>, p: Seq<Seq<u8>>) -> bool {
    forall|i: int|
        1 <= i <= p.len() ==> !(m.contains_key(#[trigger] p.take(i)) && m[p.take(i)] is File)
}

/// Creating directories touches no existing entry: every path present
/// before is present after, with the same node, and every new path is a
/// nonempty prefix of the requested one, made a directory.
pub proof fn lemma_create_dir_all_frame(m: Map<Seq<Seq<u8>>, NodeModel>, p: Seq<Seq<u8>>)
    ensures
        forall|k: Seq<Seq<u8>>| #[trigger] m.contains_key(k) ==>
            spec_create_dir_all(m, p).0.contains_key(k)
            && spec_create_dir_all(m, p).0[k] == m[k],
        forall|k: Seq<Seq<u8>>| #[trigger] spec_create_dir_all(m, p).0.contains_key(k)
            ==> m.contains_key(k)
                || (k.len() > 0 && is_prefix_of(k, p) && spec_create_dir_all(m, p).0[k] is Dir),
    decreases p.len(),
{
    if p.len() > 0 {
        lemma_create_dir_all_frame(m, p.drop_last());
        assert(p.take(p.len() as int) =~= p);
        assert forall|k: Seq<Seq<u8>>| is_prefix_of(k, p.drop_last()) implies is_prefix_of(
            k,
            p,
        ) by {
            assert(p.drop_last().take(k.len() as int) =~= p.take(k.len() as int));
        }
    }
}

/// Where every prefix is already a directory, creating them changes nothing.
pub proof fn lemma_create_dir_all_no_change(m: Map<Seq<Seq<u8>>, NodeModel>, p: Seq<Seq<u8>>)
    requires
        all_dirs(m, p),
    ensures
        spec_create_dir_all(m, p) == (m, true),
    decreases p.len(),
{
    if p.len() > 0 {
        assert forall|i: int| 1 <= i <= p.drop_last().len() implies m.contains_key(
            #[trigger] p.drop_last().take(i),
        ) && m[p.drop_last().take(i)] is Dir by {
            assert(p.drop_last().take(i) =~= p.take(i));
        }
        lemma_create_dir_all_no_change(m, p.drop_last());
        assert(p.take(p.len() as int) =~= p);
    }
}

/// After a successful walk, every prefix of `p` is a directory.
pub proof fn lemma_create_dir_all_success(m: Map<Seq<Seq<u8>>, NodeModel>, p: Seq<Seq<u8>>)
    requires
        spec_create_dir_all(m, p).1,
    ensures
        all_dirs(spec_create_dir_all(m, p).0, p),
    decreases p.len(),
{
    if p.len() > 0 {
        let (m1, ok) = spec_create_dir_all(m, p.drop_last());
        lemma_create_dir_all_success(m, p.drop_last());
        let m2 = spec_create_dir_all(m, p).0;
        assert forall|i: int| 1 <= i <= p.len() implies m2.contains_key(#[trigger] p.take(i))
            && m2[p.take(i)] is Dir by {
            assert(p.take(p.len() as int) =~= p);
            if i < p.len() {
                assert(p.drop_last().take(i) =~= p.take(i));
                assert(p.take(i).len() == i);
            }
        }
    }
}

/// The walk succeeds exactly when no prefix of `p` is occupied by a file.
pub proof fn lemma_create_dir_all_ok_iff(m: Map<Seq<Seq<u8>>, NodeModel>, p: Seq<Seq<u8>>)
    ensures
        spec_create_dir_all(m, p).1 <==> no_file_prefix(m, p),
    decreases p.len(),
{
    if p.len() > 0 {
        lemma_create_dir_all_ok_iff(m, p.drop_last());
        lemma_create_dir_all_frame(m, p.drop_last());
        assert(p.take(p.len() as int) =~= p);
        assert forall|i: int| 1 <= i <= p.drop_last().len() implies #[trigger] p.drop_last().take(
            i,
        ) == p.take(i) by {
            assert(p.drop_last().take(i) =~= p.take(i));
        }
        if spec_create_dir_all(m, p).1 {
            assert(no_file_prefix(m, p.drop_last()));
            assert forall|i: int| 1 <= i <= p.len() implies !(m.contains_key(#[trigger] p.take(i))
                && m[p.take(i)] is File) by {
                if i < p.len() {
                    assert(p.take(i) == p.drop_last().take(i));
                }
            }
        } else if spec_create_dir_all(m, p.drop_last()).1 {
            // the walk reached p itself and stopped there: p is a file
            let m1 = spec_create_dir_all(m, p.drop_last()).0;
            assert(m1.contains_key(p) && m1[p] is File);
            assert(m.contains_key(p) && m[p] is File);
            assert(!no_file_prefix(m, p));
        }
    }
}

/// Once the walk has failed on a prefix, walking the full path gives the
/// same map and the same failure.
pub proof fn lemma_create_dir_all_fail_stable(
    m: Map<Seq<Seq<u8>>, NodeModel>,
    p: Seq<Seq<u8>>,
    j: int,
)
    requires
        0 <= j <= p.len(),
        !spec_create_dir_all(m, p.take(j)).1,
    ensures
        spec_create_dir_all(m, p) == spec_create_dir_all(m, p.take(j)),
    decreases p.len() - j,
{
    if j == p.len() {
        assert(p.take(j) =~= p);
    } else {
        assert(p.take(j + 1).drop_last() =~= p.take(j));
        assert(spec_create_dir_all(m, p.take(j + 1)) == spec_create_dir_all(m, p.take(j)));
        lemma_create_dir_all_fail_stable(m, p, j + 1);
    }
}

/// Walking the same path a second time changes nothing more, succeeding
/// or failing exactly as the first walk did.
pub proof fn lemma_create_dir_all_idempotent(m: Map<Seq<Seq<u8>>, NodeModel>, p: Seq<Seq<u8>>)
    ensures
        spec_create_dir_all(spec_create_dir_all(m, p).0, p) == spec_create_dir_all(m, p),
    decreases p.len(),
{
    if p.len() > 0 {
        let (ma, oka) = spec_create_dir_all(m, p.drop_last());
        lemma_create_dir_all_idempotent(m, p.drop_last());
        if oka && !ma.contains_key(p) {
            let mb = ma.insert(p, NodeModel::Dir);
            lemma_create_dir_all_success(m, p.drop_last());
            assert forall|i: int| 1 <= i <= p.drop_last().len() implies mb.contains_key(
                #[trigger] p.drop_last().take(i),
            ) && mb[p.drop_last().take(i)] is Dir by {
                assert(p.drop_last().take(i).len() == i);
            }
            lemma_create_dir_all_no_change(mb, p.drop_last());
        }
    }
}

/// An in-memory filesystem: a table of path-to-node entries, seen
/// abstractly as a map from paths to nodes.
pub struct FsState {
    pub entries: Vec<FsEntry>,
}

impl View for FsState {
    type V = Map<Seq<Seq<u8>>, NodeModel>;

    open spec fn view(&self) -> Map<Seq<Seq<u8>>, NodeModel> {
        map_of(self.entries@)
    }
}

impl FsState {
    /// The entry table names each path at most once.
    pub open spec fn wf(&self) -> bool {
        entries_wf(self.entries@)
    }

    /// A filesystem with nothing in it.
    pub fn empty() -> (r: FsState)
        ensures
            r.wf(),
            r@ == Map::<Seq<Seq<u8>>, NodeModel>::empty(),
    {
        FsState { entries: Vec::new() }
    }

    /// The index of the entry naming `p`, if any.
    fn find(&self, p: &StorePath) -> (r: Option<usize>)
        ensures
            match r {
                Some(i) => i < self.entries@.len() && self.entries@[i as int].path@ == p@,
                None => forall|i: int|
                    0 <= i < self.entries@.len() ==> self.entries@[i].path@ != p@,
            },
    {
        let n = self.entries.len();
        let mut i: usize = 0;
        while i < n
            invariant
                n == self.entries@.len(),
                i <= n,
                forall|j: int| 0 <= j < i ==> self.entries@[j].path@ != p@,
            decreases n - i,
        {
            if self.entries[i].path.path_eq(p) {
                return Some(i);
            }
            i += 1;
        }
        None
    }

    /// Whether `p` names anything, and if so which kind of node.
    pub fn probe(&self, p: &StorePath) -> (r: Probe)
        requires
            self.wf(),
        ensures
            r is Missing <==> !self@.contains_key(p@),
            r is FoundDir <==> self@.contains_key(p@) && self@[p@] is Dir,
            r is FoundFile <==> self@.contains_key(p@) && self@[p@] is File,
    {
        match self.find(p) {
            None => {
                proof {
                    lemma_map_of_absent(self.entries@, p@);
                }
                Probe::Missing
            },
            Some(i) => {
                proof {
                    lemma_map_of_present(self.entries@, i as int);
                }
                match &self.entries[i].node {
                    Node::Dir => Probe::FoundDir,
                    Node::File(_) => Probe::FoundFile,
                }
            },
        }
    }

    /// The content of the file at `p`, if `p` names a file.
    pub fn read_file(&self, p: &StorePath) -> (r: Option<&Vec<u8>>)
        requires
            self.wf(),
        ensures
            match r {
                Some(content) => self@.contains_key(p@)
                    && self@[p@] == NodeModel::File(content@),
                None => !self@.contains_key(p@) || self@[p@] is Dir,
            },
    {
        match self.find(p) {
            None => {
                proof {
                    lemma_map_of_absent(self.entries@, p@);
                }
                None
            },
            Some(i) => {
                proof {
                    lemma_map_of_present(self.entries@, i as int);
                }
                match &self.entries[i].node {
                    Node::Dir => None,
                    Node::File(content) => Some(content),
                }
            },
        }
    }

    /// Adds an entry for a path that names nothing yet.
    pub fn insert_new(&mut self, p: StorePath, node: Node)
        requires
            old(self).wf(),
            !old(self)@.contains_key(p@),
        ensures
            final(self).wf(),
            final(self)@ == old(self)@.insert(p@, node@),
    {
        proof {
            assert forall|i: int| 0 <= i < self.entries@.len()
                implies self.entries@[i].path@ != p@ by {
                if self.entries@[i].path@ == p@ {
                    lemma_map_of_present(self.entries@, i);
                }
            }
        }
        let ghost pre = self.entries@;
        let ghost node_model = node@;
        self.entries.push(FsEntry { path: p, node });
        proof {
            assert(self.entries@.drop_last() =~= pre);
            assert(self.entries@.last().node@ == node_model);
        }
    }

    /// Recursively makes a directory of `p` and of every missing ancestor,
    /// as `std::fs::create_dir_all` would; reports `false` where a file
    /// already occupies one of those paths.
    pub fn create_dir_all(&mut self, p: &StorePath) -> (r: bool)
        requires
            old(self).wf(),
        ensures
            final(self).wf(),
            final(self)@ == spec_create_dir_all(old(self)@, p@).0,
            r == spec_create_dir_all(old(self)@, p@).1,
    {
        let ghost m0 = self@;
        let n = p.depth();
        let mut i: usize = 0;
        while i < n
            invariant
                self.wf(),
                i <= n,
                n == p@.len(),
                m0 == old(self)@,
                spec_create_dir_all(m0, p@.take(i as int)) == (self@, true),
            decreases n - i,
        {
            let pre = p.prefix(i + 1);
            proof {
                assert(p@.take((i + 1) as int).drop_last() =~= p@.take(i as int));
            }
            match self.probe(&pre) {
                Probe::FoundFile => {
                    proof {
                        assert(spec_create_dir_all(m0, p@.take((i + 1) as int)) == (
                            self@,
                            false,
                        ));
                        lemma_create_dir_all_fail_stable(m0, p@, (i + 1) as int);
                    }
                    return false;
                },
                Probe::FoundDir => {},
                Probe::Missing => {
                    self.insert_new(pre, Node::Dir);
                },
            }
            proof {
                assert(spec_create_dir_all(m0, p@.take((i + 1) as int)) == (self@, true));
            }
            i += 1;
        }
        proof {
            assert(p@.take(n as int) =~= p@);
        }
        true
    }
}

} // verus!
