//! The virtual file system: paths and mount points.

use vstd::prelude::*;
use vstd::string::StringSliceAdditionalSpecFns;

verus! {

/// Longest name of a directory entry.
pub const NAME_MAX: usize = 255;

/// The byte that separates the components of a path.
pub const SEPARATOR: u8 = 0x2f;

/// Where a volume lies on its device.
#[derive(Clone, Copy, Debug, PartialEq, Eq, Structural)]
pub struct Info {
    /// Offset to the first block of the volume.
    pub lba_offset: usize,
    pub block_size: usize,
}

/// What an inode is.
#[derive(Clone, Copy, Debug, PartialEq, Eq, Structural)]
pub enum VnodeType {
    FIFO,
    Char,
    Dir,
    Block,
    File,
    Symlink,
    Socket,
}

/// Number of an inode, unique on its file system.
pub type Inonum = u64;

/// The virtual inode: what the kernel keeps of a file on any file system.
#[derive(Clone, Copy, Debug, PartialEq, Eq, Structural)]
pub struct Vnode {
    /// Inode number, unique on its file system.
    pub inode: Inonum,
    pub uid: u16,
    pub gid: u16,
    pub mode: u16,
    pub kind: VnodeType,
}

/// One entry of a directory as a file system hands it out.
pub struct Dirent {
    pub inode: Inonum,
    pub name: Vec<u8>,
    pub size: usize,
}

/// The pieces of `s` between the occurrences of `sep`: one more than there
/// are occurrences.
pub open spec fn split(s: Seq<u8>, sep: u8) -> Seq<Seq<u8>>
    decreases s.len(),
{
    if s.len() == 0 {
        seq![Seq::<u8>::empty()]
    } else {
        let head = split(s.drop_last(), sep);
        if s.last() == sep {
            head.push(Seq::<u8>::empty())
        } else {
            head.update(head.len() - 1, head.last().push(s.last()))
        }
    }
}

/// The pieces `parts` with `sep` between them.
pub open spec fn join(parts: Seq<Seq<u8>>, sep: u8) -> Seq<u8>
    decreases parts.len(),
{
    if parts.len() == 0 {
        Seq::<u8>::empty()
    } else if parts.len() == 1 {
        parts[0]
    } else {
        join(parts.drop_last(), sep).push(sep) + parts.last()
    }
}

/// Splitting loses nothing: the pieces, none of which holds the separator,
/// joined again are what was split.
pub proof fn lemma_split_join(s: Seq<u8>, sep: u8)
    ensures
        split(s, sep).len() >= 1,
        join(split(s, sep), sep) == s,
        forall|k: int, i: int|
            0 <= k < split(s, sep).len() && 0 <= i < split(s, sep)[k].len() ==> split(s, sep)[k][i]
                != sep,
    decreases s.len(),
{
    if s.len() > 0 {
        let t = s.drop_last();
        let c = s.last();
        lemma_split_join(t, sep);
        let head = split(t, sep);
        let all = split(s, sep);
        let n = head.len() as int;
        assert(t.push(c) =~= s);
        if c == sep {
            assert(all.drop_last() =~= head);
            assert(all.last() =~= Seq::<u8>::empty());
            assert(join(all, sep) == join(head, sep).push(sep) + Seq::<u8>::empty());
            assert(join(all, sep) =~= t.push(c));
        } else {
            assert(all.last() == head.last().push(c));
            if n == 1 {
                assert(join(head, sep) == head[0]);
                assert(join(all, sep) == all[0]);
            } else {
                assert(all.drop_last() =~= head.drop_last());
                assert(join(head, sep) == join(head.drop_last(), sep).push(sep) + head.last());
                assert(join(all, sep) == join(head.drop_last(), sep).push(sep) + head.last().push(c));
                assert(join(all, sep) =~= (join(head.drop_last(), sep).push(sep) + head.last()).push(
                    c,
                ));
            }
        }
        assert forall|k: int, i: int|
            0 <= k < all.len() && 0 <= i < all[k].len() implies all[k][i] != sep by {
            if k < n - 1 {
                assert(all[k] == head[k]);
            } else if k == n - 1 && c != sep {
                if i < head[k].len() {
                    assert(all[k][i] == head[k][i]);
                }
            } else if k == n - 1 {
                assert(all[k] == head[k]);
            }
        }
    }
}

/// The components of the path `s`: its pieces between separators, without
/// the empty piece in front of the separator that an absolute path starts
/// with.
pub open spec fn components(s: Seq<u8>) -> Seq<Seq<u8>> {
    let parts = split(s, SEPARATOR);
    if s.len() > 0 && s[0] == SEPARATOR {
        parts.subrange(1, parts.len() as int)
    } else {
        parts
    }
}

/// The bytes that each of `v` holds.
pub open spec fn views(v: Seq<Vec<u8>>) -> Seq<Seq<u8>> {
    Seq::new(v.len(), |k: int| v[k]@)
}

/// Number of leading components that `a` and `b` have in common.
pub open spec fn common(a: Seq<Seq<u8>>, b: Seq<Seq<u8>>) -> nat
    decreases a.len(),
{
    if a.len() == 0 || b.len() == 0 || a[0] != b[0] {
        0
    } else {
        1 + common(a.skip(1), b.skip(1))
    }
}

/// Whether `a` and `b` hold the same bytes.
pub fn same_bytes(a: &Vec<u8>, b: &Vec<u8>) -> (r: bool)
    ensures
        r == (a@ == b@),
{
    if a.len() != b.len() {
        return false;
    }
    let n = a.len();
    let mut i: usize = 0;
    while i < n
        invariant
            i <= n,
            n == a@.len(),
            n == b@.len(),
            forall|k: int| 0 <= k < i ==> a@[k] == b@[k],
        decreases n - i,
    {
        if a[i] != b[i] {
            return false;
        }
        i = i + 1;
    }
    assert(a@ =~= b@);
    true
}

/// Number of leading components that `a` and `b` have in common.
pub fn common_prefix(a: &Vec<Vec<u8>>, b: &Vec<Vec<u8>>) -> (n: usize)
    ensures
        n == common(views(a@), views(b@)),
{
    let ghost va = views(a@);
    let ghost vb = views(b@);
    let mut i: usize = 0;
    assert(va.skip(0) =~= va);
    assert(vb.skip(0) =~= vb);
    while i < a.len() && i < b.len()
        invariant
            i <= a@.len(),
            i <= b@.len(),
            va == views(a@),
            vb == views(b@),
            common(va, vb) == i + common(va.skip(i as int), vb.skip(i as int)),
        decreases a@.len() - i,
    {
        assert(va.skip(i as int)[0] == a@[i as int]@);
        assert(vb.skip(i as int)[0] == b@[i as int]@);
        if !same_bytes(&a[i], &b[i]) {
            return i;
        }
        assert(va.skip(i as int).skip(1) =~= va.skip(i + 1));
        assert(vb.skip(i as int).skip(1) =~= vb.skip(i + 1));
        i = i + 1;
    }
    assert(va.skip(i as int).len() == 0 || vb.skip(i as int).len() == 0);
    i
}

/// A path: its bytes as they were given.
pub struct Path {
    pub buff: Vec<u8>,
}

impl View for Path {
    type V = Seq<u8>;

    open spec fn view(&self) -> Seq<u8> {
        self.buff@
    }
}

impl Path {
    /// The path that `path` spells.
    pub fn new(path: &str) -> (p: Path)
        ensures
            p@ == path.spec_bytes(),
    {
        let bytes = path.as_bytes();
        let mut buff: Vec<u8> = Vec::new();
        let n = bytes.len();
        let mut i: usize = 0;
        while i < n
            invariant
                i <= n,
                n == bytes@.len(),
                buff@ == bytes@.subrange(0, i as int),
            decreases n - i,
        {
            buff.push(bytes[i]);
            assert(buff@ =~= bytes@.subrange(0, i + 1));
            i = i + 1;
        }
        assert(buff@ =~= bytes@);
        Path { buff }
    }

    /// Number of bytes of the path.
    pub fn len(&self) -> (n: usize)
        ensures
            n == self@.len(),
    {
        self.buff.len()
    }

    /// Whether the path, which is not empty, starts at the root.
    pub fn absolute(&self) -> (b: bool)
        requires
            self@.len() > 0,
        ensures
            b == (self@[0] == SEPARATOR),
    {
        self.buff[0] == SEPARATOR
    }

    /// The pieces of the path between separators.
    fn pieces(&self) -> (r: Vec<Vec<u8>>)
        ensures
            views(r@) == split(self@, SEPARATOR),
    {
        let mut parts: Vec<Vec<u8>> = Vec::new();
        let mut current: Vec<u8> = Vec::new();
        let n = self.buff.len();
        let mut i: usize = 0;
        assert(views(parts@).push(current@) =~= split(self@.subrange(0, 0), SEPARATOR));
        while i < n
            invariant
                i <= n,
                n == self@.len(),
                views(parts@).push(current@) == split(self@.subrange(0, i as int), SEPARATOR),
            decreases n - i,
        {
            let b = self.buff[i];
            let ghost before = views(parts@).push(current@);
            assert(self@.subrange(0, i + 1).drop_last() =~= self@.subrange(0, i as int));
            if b == SEPARATOR {
                parts.push(current);
                current = Vec::new();
                assert(views(parts@).push(current@) =~= before.push(Seq::<u8>::empty()));
            } else {
                current.push(b);
                assert(views(parts@).push(current@) =~= before.update(
                    before.len() - 1,
                    before.last().push(b),
                ));
            }
            i = i + 1;
        }
        assert(self@.subrange(0, n as int) =~= self@);
        let ghost all = views(parts@).push(current@);
        parts.push(current);
        assert(views(parts@) =~= all);
        parts
    }

    /// The components of the path, which is not empty.
    pub fn component_iter(&self) -> (r: Vec<Vec<u8>>)
        requires
            self@.len() > 0,
        ensures
            views(r@) == components(self@),
    {
        let mut parts = self.pieces();
        proof {
            lemma_split_join(self@, SEPARATOR);
        }
        if self.buff[0] == SEPARATOR {
            let ghost before = views(parts@);
            parts.remove(0);
            assert(views(parts@) =~= before.subrange(1, before.len() as int));
        }
        parts
    }
}

/// What the mount point with path `mount` scores for `path`: the number of
/// leading components that the two have in common, and nothing if the mount
/// point's path is the longer one.
pub open spec fn score(mount: Seq<u8>, path: Seq<u8>) -> nat {
    if mount.len() > path.len() {
        0
    } else {
        common(components(mount), components(path))
    }
}

/// What every file system offers to the virtual file system.
pub trait Filesystem {
    /// The inode that the components `parts`, from the `skip`-th on, lead to
    /// from the root directory.
    spec fn target(&self, parts: Seq<Seq<u8>>, skip: int) -> crate::error::Result<Inonum>;

    /// The inode of the root directory, if the file system can name it.
    spec fn root(&self) -> crate::error::Result<Inonum>;

    /// The inode of the root directory.
    fn get_root_inode(&self) -> (r: crate::error::Result<Inonum>)
        ensures
            r == self.root(),
    ;

    /// Walks the components `components`, from the `skip`-th on, from the
    /// root directory.
    fn walk(&self, components: &Vec<Vec<u8>>, skip: usize) -> (r: crate::error::Result<Inonum>)
        ensures
            r == self.target(views(components@), skip as int),
    ;
}

/// A file system with the path at which it is mounted.
pub struct Mountpoint<F: Filesystem> {
    pub path: Path,
    pub fs: F,
}

/// An open file.
#[derive(Clone, Copy, Debug, PartialEq, Eq, Structural)]
pub struct File {
    pub inode: Inonum,
    pub pos: u64,
}

/// The byte that stands for the directory itself and for its parent in a
/// path.
pub const DOT: u8 = 0x2e;

/// Whether `path` is one that can be walked: absolute and without a dot.
pub open spec fn walkable(path: Seq<u8>) -> bool {
    path.len() > 0 && path[0] == SEPARATOR && !path.contains(DOT)
}

/// Whether `path` is one that can be walked.
pub fn is_walkable(path: &Path) -> (b: bool)
    ensures
        b == walkable(path@),
{
    let n = path.buff.len();
    if n == 0 || path.buff[0] != SEPARATOR {
        return false;
    }
    let mut i: usize = 0;
    while i < n
        invariant
            i <= n,
            n == path@.len(),
            forall|k: int| 0 <= k < i ==> path@[k] != DOT,
        decreases n - i,
    {
        if path.buff[i] == DOT {
            return false;
        }
        i = i + 1;
    }
    true
}

/// The paths of the mount points `mounts`.
pub open spec fn mount_paths<F: Filesystem>(mounts: Seq<Mountpoint<F>>) -> Seq<Seq<u8>> {
    Seq::new(mounts.len(), |i: int| mounts[i].path@)
}

/// `i` is the first of the mount points with paths `paths` that scores
/// highest for `path`.
pub open spec fn best(paths: Seq<Seq<u8>>, path: Seq<u8>, i: int) -> bool {
    &&& 0 <= i < paths.len()
    &&& forall|j: int| 0 <= j < paths.len() ==> score(#[trigger] paths[j], path) <= score(
        paths[i],
        path,
    )
    &&& forall|j: int| 0 <= j < i ==> score(#[trigger] paths[j], path) < score(paths[i], path)
}

/// Index of the mount point that `path` lies below: the first of those
/// whose path has the most leading components in common with it, which is
/// the first mount point if none has any.
pub fn match_mountpoint<F: Filesystem>(mounts: &Vec<Mountpoint<F>>, path: &Path) -> (index: usize)
    requires
        mounts@.len() > 0,
        path@.len() > 0,
        forall|j: int| 0 <= j < mounts@.len() ==> (#[trigger] mounts@[j]).path@.len() > 0,
    ensures
        best(mount_paths(mounts@), path@, index as int),
{
    let wanted = path.component_iter();
    let mut longest_match: usize = 0;
    let mut longest_index: usize = 0;
    let n = mounts.len();
    let ghost paths = mount_paths(mounts@);
    let mut i: usize = 0;
    while i < n
        invariant
            i <= n,
            n == mounts@.len(),
            n > 0,
            path@.len() > 0,
            paths == mount_paths(mounts@),
            views(wanted@) == components(path@),
            forall|j: int| 0 <= j < mounts@.len() ==> (#[trigger] mounts@[j]).path@.len() > 0,
            i == 0 ==> longest_index == 0 && longest_match == 0,
            i > 0 ==> longest_index < i && longest_match == score(paths[longest_index as int], path@),
            forall|j: int| 0 <= j < i ==> score(#[trigger] paths[j], path@) <= longest_match,
            forall|j: int| 0 <= j < longest_index ==> score(#[trigger] paths[j], path@) < longest_match,
        decreases n - i,
    {
        let mount = &mounts[i].path;
        assert(paths[i as int] == mount@);
        let count = if mount.len() > path.len() {
            0
        } else {
            let have = mount.component_iter();
            common_prefix(&have, &wanted)
        };
        assert(count == score(paths[i as int], path@));
        if count > longest_match {
            longest_match = count;
            longest_index = i;
        }
        i = i + 1;
    }
    longest_index
}

/// Number of components of the path `mount` of a mount point that a path
/// below it has in front of what is looked up on the mounted file system:
/// all of them, but for the empty component behind a separator at the end,
/// which is all that the path of the root has.
pub open spec fn depth(mount: Seq<u8>) -> int {
    let own = components(mount);
    if own.last().len() == 0 {
        own.len() - 1
    } else {
        own.len() as int
    }
}

/// The inode that `path`, which must be one that can be walked, names: the
/// path is walked on the file system of the mount point that it lies below,
/// from the component on behind those of the mount point's path. The mount
/// points have paths that are not empty.
pub fn walk_path_node<F: Filesystem>(mounts: &Vec<Mountpoint<F>>, path: &Path) -> (r:
    crate::error::Result<Inonum>)
    requires
        walkable(path@),
        mounts@.len() > 0,
        forall|j: int| 0 <= j < mounts@.len() ==> (#[trigger] mounts@[j]).path@.len() > 0,
    ensures
        exists|i: int|
            {
                &&& #[trigger] best(mount_paths(mounts@), path@, i)
                &&& r == mounts@[i].fs.target(components(path@), depth(mounts@[i].path@))
            },
{
    let index = match_mountpoint(mounts, path);
    let mount = &mounts[index];
    let own = mount.path.component_iter();
    proof {
        lemma_split_join(mount.path@, SEPARATOR);
        assert(views(own@).len() == own@.len());
    }
    let parts = path.component_iter();
    assert(views(own@).last() == own@.last()@);
    let skip = if own[own.len() - 1].len() == 0 { own.len() - 1 } else { own.len() };
    let r = mount.fs.walk(&parts, skip);
    proof {
        assert(best(mount_paths(mounts@), path@, index as int));
    }
    r
}

/// Opens the file at `path`. The path is walked; files cannot be opened
/// yet, so that a path which names a file is refused as an invalid
/// argument.
pub fn vfs_open<F: Filesystem>(mounts: &Vec<Mountpoint<F>>, path: &Path) -> (r: crate::error::Result<
    File,
>)
    requires
        walkable(path@),
        mounts@.len() > 0,
        forall|j: int| 0 <= j < mounts@.len() ==> (#[trigger] mounts@[j]).path@.len() > 0,
    ensures
        r is Err,
        exists|i: int|
            {
                &&& #[trigger] best(mount_paths(mounts@), path@, i)
                &&& r->Err_0 == match mounts@[i].fs.target(
                    components(path@),
                    depth(mounts@[i].path@),
                ) {
                    Ok(_) => crate::error::Error::InvalidArgument,
                    Err(e) => e,
                }
            },
{
    match walk_path_node(mounts, path) {
        Ok(_) => Err(crate::error::Error::InvalidArgument),
        Err(e) => Err(e),
    }
}

/// Mounts `rootfs` at `path`.
pub fn register_mount<F: Filesystem>(mounts: &mut Vec<Mountpoint<F>>, path: &str, rootfs: F) -> (r:
    crate::error::Result<()>)
    ensures
        r is Ok,
        final(mounts)@.len() == old(mounts)@.len() + 1,
        forall|i: int| 0 <= i < old(mounts)@.len() ==> final(mounts)@[i] == old(mounts)@[i],
        final(mounts)@.last().path@ == path.spec_bytes(),
        final(mounts)@.last().fs == rootfs,
{
    mounts.push(Mountpoint { path: Path::new(path), fs: rootfs });
    Ok(())
}

} // verus!
