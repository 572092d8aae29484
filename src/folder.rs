//! Folder hierarchies: full path names from parent links.
use vstd::prelude::*;
use vstd::string::StringExecFns;

verus! {

/// A folder: its identifier (the record identifier plus one, so that 0 stands
/// for the root), its own name and its parent's identifier.
pub struct FolderEntry {
    pub id: u32,
    pub name: String,
    pub parent_id: u32,
}

/// The folders of an account, with their names to be expanded into paths.
pub struct ExpandedFolders {
    pub folders: Vec<FolderEntry>,
}

/// The index of the first folder with identifier `id`, or -1.
pub open spec fn find_folder(fs: Seq<FolderEntry>, id: u32) -> int
    decreases fs.len(),
{
    if fs.len() == 0 {
        -1
    } else if find_folder(fs.drop_last(), id) >= 0 {
        find_folder(fs.drop_last(), id)
    } else if fs.last().id == id {
        fs.len() - 1
    } else {
        -1
    }
}

/// The path of folder `i`: its parent's path, a slash and its name, where the
/// parent is a known folder; following at most `fuel` parents.
pub open spec fn full_name(fs: Seq<FolderEntry>, i: int, fuel: nat) -> Seq<char>
    decreases fuel,
{
    let f = fs[i];
    let j = find_folder(fs, f.parent_id);
    if fuel == 0 || f.parent_id == 0 || j < 0 {
        f.name@
    } else {
        full_name(fs, j, (fuel - 1) as nat) + seq!['/'] + f.name@
    }
}

proof fn lemma_find_folder(fs: Seq<FolderEntry>, id: u32)
    ensures
        find_folder(fs, id) < fs.len(),
        find_folder(fs, id) >= 0 ==> fs[find_folder(fs, id)].id == id,
        find_folder(fs, id) < 0 ==> find_folder(fs, id) == -1,
    decreases fs.len(),
{
    if fs.len() > 0 {
        lemma_find_folder(fs.drop_last(), id);
    }
}

fn find_index(fs: &Vec<FolderEntry>, id: u32) -> (r: Option<usize>)
    ensures
        match r {
            Some(j) => find_folder(fs@, id) == j as int,
            None => find_folder(fs@, id) < 0,
        },
{
    let mut j: usize = 0;
    while j < fs.len()
        invariant
            j <= fs@.len(),
            find_folder(fs@.subrange(0, j as int), id) == -1,
        decreases fs@.len() - j,
    {
        assert(fs@.subrange(0, j + 1).drop_last() =~= fs@.subrange(0, j as int));
        if fs[j].id == id {
            proof {
                lemma_find_prefix(fs@, id, j as int + 1);
            }
            return Some(j);
        }
        j = j + 1;
    }
    assert(fs@.subrange(0, j as int) =~= fs@);
    None
}

proof fn lemma_find_prefix(fs: Seq<FolderEntry>, id: u32, k: int)
    requires
        0 < k <= fs.len(),
        find_folder(fs.subrange(0, k - 1), id) == -1,
        fs[k - 1].id == id,
    ensures
        find_folder(fs, id) == k - 1,
    decreases fs.len() - k,
{
    if k == fs.len() {
        assert(fs.drop_last() =~= fs.subrange(0, k - 1));
    } else {
        assert(fs.drop_last().subrange(0, k - 1) =~= fs.subrange(0, k - 1));
        lemma_find_prefix(fs.drop_last(), id, k);
    }
}

fn path_of(fs: &Vec<FolderEntry>, i: usize, fuel: usize) -> (r: String)
    requires
        i < fs@.len(),
    ensures
        r@ == full_name(fs@, i as int, fuel as nat),
    decreases fuel,
{
    let f = &fs[i];
    let parent = if fuel == 0 || f.parent_id == 0 {
        None
    } else {
        find_index(fs, f.parent_id)
    };
    proof {
        lemma_find_folder(fs@, f.parent_id);
    }
    match parent {
        None => f.name.clone(),
        Some(j) => {
            let mut r = path_of(fs, j, fuel - 1);
            r.append("/");
            r.append(f.name.as_str());
            proof {
                reveal_strlit("/");
            }
            r
        },
    }
}

impl ExpandedFolders {
    pub fn len(&self) -> (r: usize)
        ensures
            r == self.folders@.len(),
    {
        self.folders.len()
    }

    pub fn is_empty(&self) -> (r: bool)
        ensures
            r == (self.folders@.len() == 0),
    {
        self.folders.len() == 0
    }

    /// Each folder's record identifier with its full path (`parent/child`).
    pub fn into_iterator(self) -> (r: Vec<(u32, String)>)
        requires
            forall|i: int| 0 <= i < self.folders@.len() ==> #[trigger] self.folders@[i].id >= 1,
        ensures
            r@.len() == self.folders@.len(),
            forall|i: int|
                0 <= i < r@.len() ==> #[trigger] r@[i].0 == self.folders@[i].id - 1 && r@[i].1@
                    == full_name(self.folders@, i, self.folders@.len() as nat),
    {
        let n = self.folders.len();
        let mut out: Vec<(u32, String)> = Vec::new();
        let mut i: usize = 0;
        while i < n
            invariant
                n == self.folders@.len(),
                i <= n,
                out@.len() == i,
                forall|k: int| 0 <= k < n ==> #[trigger] self.folders@[k].id >= 1,
                forall|k: int|
                    0 <= k < i ==> #[trigger] out@[k].0 == self.folders@[k].id - 1 && out@[k].1@
                        == full_name(self.folders@, k, n as nat),
            decreases n - i,
        {
            let path = path_of(&self.folders, i, n);
            out.push((self.folders[i].id - 1, path));
            i = i + 1;
        }
        out
    }
}

/// A folder as stored: its name and the identifier of its parent.
pub trait FolderHierarchy {
    fn name(&self) -> String;

    fn parent_id(&self) -> u32;
}

/// Receives the parent links of a folder tree.
pub trait TopologyBuilder {
    fn insert(&mut self, folder_id: u32, parent_id: u32);
}

/// The big-endian integer in the four bytes of `b` from `at`.
pub open spec fn be_u32(b: Seq<u8>, at: int) -> int {
    b[at] as int * 16777216 + b[at + 1] as int * 65536 + b[at + 2] as int * 256 + b[at + 3] as int
}

fn read_be_u32(b: &[u8], at: usize) -> (r: u32)
    requires
        at + 4 <= b@.len(),
    ensures
        r as int == be_u32(b@, at as int),
{
    b[at] as u32 * 16777216 + b[at + 1] as u32 * 65536 + b[at + 2] as u32 * 256 + b[at + 3] as u32
}

/// The folder and parent identifiers at the end of a parent-index key: the
/// parent's in the eight-to-five last bytes, the folder's in the last four.
pub fn topology_key_ids(key: &[u8]) -> (r: Option<(u32, u32)>)
    ensures
        key@.len() < 8 ==> r is None,
        key@.len() >= 8 ==> (r matches Some((folder, parent)) && folder as int == be_u32(
            key@,
            key@.len() - 4,
        ) && parent as int == be_u32(key@, key@.len() - 8)),
{
    if key.len() < 8 {
        return None;
    }
    let folder = read_be_u32(key, key.len() - 4);
    let parent = read_be_u32(key, key.len() - 8);
    Some((folder, parent))
}

/// The folder identifier (record identifier plus one) at the end of a value key,
/// or `None` where the key is too short or the record identifier is the largest.
pub fn folder_key_id(key: &[u8]) -> (r: Option<u32>)
    ensures
        key@.len() < 4 ==> r is None,
        key@.len() >= 4 ==> match r {
            Some(id) => id as int == be_u32(key@, key@.len() - 4) + 1,
            None => be_u32(key@, key@.len() - 4) == u32::MAX,
        },
{
    if key.len() < 4 {
        return None;
    }
    let document_id = read_be_u32(key, key.len() - 4);
    if document_id == u32::MAX {
        None
    } else {
        Some(document_id + 1)
    }
}

/// A file or directory of a file store.
pub struct FileNode {
    pub parent_id: Option<u32>,
    /// The content hash of the file's data; directories have none.
    pub blob_id: Option<Vec<u8>>,
    pub size: Option<u64>,
    pub name: String,
    pub media_type: Option<String>,
    pub executable: bool,
    pub created: u64,
    pub modified: u64,
    pub acls: Vec<crate::sharing::AclGrant>,
}

} // verus!
