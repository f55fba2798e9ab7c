use vstd::prelude::*;

verus! {

/// The failure of a file system operation.
pub enum FSError {
    Fail,
}

/// The kind of a node.
#[derive(Clone, Copy, PartialEq, Eq, Structural, Debug)]
pub enum NodeType {
    Dir,
    File,
}

/// A node of the file system: its number, its kind and its size.
pub struct INode {
    pub id: u64,
    pub kind: NodeType,
    pub size: usize,
}

/// An entry of a directory: the directory's node, the entry's name and its node.
#[derive(Clone)]
pub struct DirEntry {
    pub dir: u64,
    pub name: String,
    pub inode: u64,
}

/// An entry as the kernel gets it: its node, the offset of the next entry and its name.
pub struct ListedEntry {
    pub inode: u64,
    pub next_offset: i64,
    pub name: String,
}

/// The entries of directory `ino`: "." and ".." for the directory itself, then the stored ones.
pub fn dir_listing(ino: u64, stored: Vec<DirEntry>) -> (r: Vec<DirEntry>)
    ensures
        r@.len() == stored@.len() + 2,
        r@[0].dir == ino && r@[0].name@ == "."@ && r@[0].inode == ino,
        r@[1].dir == ino && r@[1].name@ == ".."@ && r@[1].inode == ino,
        forall|i: int| 0 <= i < stored@.len() ==> r@[i + 2] == #[trigger] stored@[i],
{
    let mut d = stored;
    let ghost s = d@;
    d.insert(0, DirEntry { dir: ino, name: "..".to_owned(), inode: ino });
    d.insert(0, DirEntry { dir: ino, name: ".".to_owned(), inode: ino });
    proof {
        assert forall|i: int| 0 <= i < s.len() implies d@[i + 2] == #[trigger] s[i] by {}
    }
    d
}

/// The entries from position `offset` on, each with the offset that follows it; none for a
/// negative offset.
pub fn listing_from(d: &Vec<DirEntry>, offset: i64) -> (r: Vec<ListedEntry>)
    requires
        d@.len() < i64::MAX,
    ensures
        offset < 0 || offset >= d@.len() ==> r@.len() == 0,
        0 <= offset < d@.len() ==> r@.len() == d@.len() - offset,
        forall|k: int|
            0 <= k < r@.len() ==> {
                let i = offset + k;
                &&& (#[trigger] r@[k]).inode == d@[i].inode
                &&& r@[k].next_offset == i + 1
                &&& r@[k].name@ == d@[i].name@
            },
{
    let mut r: Vec<ListedEntry> = Vec::new();
    if offset < 0 || offset as u64 >= d.len() as u64 {
        return r;
    }
    let start = offset as usize;
    let mut i: usize = start;
    while i < d.len()
        invariant
            0 <= offset < d@.len() < i64::MAX,
            start == offset,
            start <= i <= d@.len(),
            r@.len() == i - start,
            forall|k: int|
                0 <= k < r@.len() ==> {
                    let j = offset + k;
                    &&& (#[trigger] r@[k]).inode == d@[j].inode
                    &&& r@[k].next_offset == j + 1
                    &&& r@[k].name@ == d@[j].name@
                },
        decreases d.len() - i,
    {
        let e = &d[i];
        r.push(ListedEntry { inode: e.inode, next_offset: 1 + i as i64, name: e.name.clone() });
        i = i + 1;
    }
    r
}

/// The bytes of `buf` from `offset` on, at most `size` of them.
pub fn read_range(buf: &Vec<u8>, offset: i64, size: u32) -> (r: Vec<u8>)
    requires
        0 <= offset <= buf@.len(),
    ensures
        r@ == buf@.subrange(
            offset as int,
            if offset + size <= buf@.len() {
                offset + size
            } else {
                buf@.len() as int
            },
        ),
{
    let from = offset as usize;
    let to: usize = if (size as u64) <= (buf.len() - from) as u64 {
        from + size as usize
    } else {
        buf.len()
    };
    let mut r: Vec<u8> = Vec::new();
    let mut i: usize = from;
    while i < to
        invariant
            from <= i <= to <= buf@.len(),
            from == offset,
            r@ == buf@.subrange(from as int, i as int),
        decreases to - i,
    {
        r.push(buf[i]);
        assert(r@ =~= buf@.subrange(from as int, i + 1));
        i = i + 1;
    }
    r
}

/// The first handle that is not in use.
pub fn get_free_handle(in_use: &Vec<bool>) -> (r: Option<usize>)
    ensures
        match r {
            Some(i) => i < in_use@.len() && !in_use@[i as int] && forall|j: int|
                0 <= j < i ==> #[trigger] in_use@[j],
            None => forall|j: int| 0 <= j < in_use@.len() ==> #[trigger] in_use@[j],
        },
{
    let mut i: usize = 0;
    while i < in_use.len()
        invariant
            i <= in_use@.len(),
            forall|j: int| 0 <= j < i ==> #[trigger] in_use@[j],
        decreases in_use.len() - i,
    {
        if !in_use[i] {
            return Some(i);
        }
        i = i + 1;
    }
    None
}

/// A file whose content is held in memory.
pub struct BytesContent {
    ino: u64,
    buf: Vec<u8>,
}

impl BytesContent {
    pub closed spec fn spec_ino(&self) -> u64 {
        self.ino
    }

    pub closed spec fn spec_bytes(&self) -> Seq<u8> {
        self.buf@
    }

    /// The file `ino` holding the UTF-8 bytes of `val`.
    pub fn new_from_str(ino: u64, val: &str) -> (c: Self)
        ensures
            c.spec_ino() == ino,
            c.spec_bytes() == vstd::utf8::encode_utf8(val@),
    {
        let bytes = val.as_bytes();
        let mut buf: Vec<u8> = Vec::new();
        let mut i: usize = 0;
        while i < bytes.len()
            invariant
                i <= bytes@.len(),
                buf@ == bytes@.take(i as int),
            decreases bytes.len() - i,
        {
            buf.push(bytes[i]);
            assert(buf@ =~= bytes@.take(i + 1));
            i = i + 1;
        }
        assert(bytes@.take(bytes@.len() as int) =~= bytes@);
        BytesContent { ino, buf }
    }

    /// The node of the file: a file of the content's length.
    pub fn inode(&self) -> (n: INode)
        ensures
            n.id == self.spec_ino() && n.kind == NodeType::File && n.size == self.spec_bytes().len(),
    {
        INode { id: self.ino, kind: NodeType::File, size: self.buf.len() }
    }

    /// At most `size` bytes from `offset` on.
    pub fn read(&self, offset: i64, size: u32) -> (r: Vec<u8>)
        requires
            0 <= offset <= self.spec_bytes().len(),
        ensures
            r@ == self.spec_bytes().subrange(
                offset as int,
                if offset + size <= self.spec_bytes().len() {
                    offset + size
                } else {
                    self.spec_bytes().len() as int
                },
            ),
    {
        read_range(&self.buf, offset, size)
    }
}

/// The arguments of the file system program: where to mount it.
pub struct Args {
    pub mount_point: String,
}

} // verus!
