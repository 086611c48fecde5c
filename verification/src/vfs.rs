//! VFS layer: node-id addressing, path splitting and resolution over any
//! filesystem that offers `root` / `lookup` / `metadata` / `read` / `list`.

use vstd::prelude::*;

verus! {

use vstd::utf8::{encode_utf8, valid_utf8};
use vstd::string::{StrSliceExecFns, StringExecFns};
use crate::text::bytes_to_string;

#[derive(Clone, Copy, Debug, PartialEq, Eq, Structural)]
pub enum VfsError {
    NotFound,
    AlreadyExists,
    InvalidPath,
    NotDirectory,
    NotFile,
    Io,
    Unsupported,
}

#[derive(Clone, Copy, Debug, PartialEq, Eq, Structural)]
pub enum NodeType {
    File,
    Directory,
}

/// Opaque node handle; `NodeId(0)` is the root directory.
#[derive(Clone, Copy, Debug, PartialEq, Eq, Structural)]
pub struct NodeId(pub u64);

#[derive(Clone, Copy, Debug, PartialEq, Eq, Structural)]
pub struct Metadata {
    pub node_type: NodeType,
    pub size: u64,
}

/// One listed directory entry: a bounded name and the node it names.
#[derive(Clone, Copy, Debug)]
pub struct DirEntry {
    pub name: [u8; 32],
    pub name_len: usize,
    pub node: NodeId,
    pub node_type: NodeType,
}

impl DirEntry {
    /// The name bytes actually in use.
    pub open spec fn spec_name_bytes(&self) -> Seq<u8>
        recommends
            self.name_len <= 32,
    {
        self.name@.subrange(0, self.name_len as int)
    }

    /// Builds an entry; the name must encode to 1..=32 bytes.
    pub fn new(name: &str, node: NodeId, node_type: NodeType) -> (r: Result<DirEntry, VfsError>)
        ensures
            r.is_ok() <==> 1 <= encode_utf8(name@).len() <= 32,
            r matches Err(e) ==> e == VfsError::InvalidPath,
            r matches Ok(entry) ==> {
                &&& entry.name_len == encode_utf8(name@).len()
                &&& entry.spec_name_bytes() == encode_utf8(name@)
                &&& entry.node == node
                &&& entry.node_type == node_type
            },
    {
        let bytes: &[u8] = name.as_bytes();
        let len: usize = bytes.len();
        if len == 0 || len > 32 {
            return Err(VfsError::InvalidPath);
        }
        let mut out: [u8; 32] = [0u8; 32];
        let mut i: usize = 0;
        while i < len
            invariant
                len == bytes@.len(),
                len <= 32,
                i <= len,
                out@.len() == 32,
                forall|j: int| 0 <= j < i ==> out@[j] == bytes@[j],
            decreases len - i,
        {
            out[i] = bytes[i];
            i = i + 1;
        }
        let entry = DirEntry { name: out, name_len: len, node, node_type };
        proof {
            assert(entry.spec_name_bytes() =~= encode_utf8(name@));
        }
        Ok(entry)
    }

    /// The decoded name, or `"?"` when the stored bytes are not UTF-8.
    pub fn name(&self) -> (r: String)
        requires
            self.name_len <= 32,
        ensures
            valid_utf8(self.spec_name_bytes()) ==> encode_utf8(r@) == self.spec_name_bytes(),
            !valid_utf8(self.spec_name_bytes()) ==> r@ == "?"@,
    {
        let mut bytes: Vec<u8> = Vec::new();
        let mut i: usize = 0;
        while i < self.name_len
            invariant
                i <= self.name_len,
                self.name_len <= 32,
                self.name@.len() == 32,
                bytes@ =~= self.name@.subrange(0, i as int),
            decreases self.name_len - i,
        {
            bytes.push(self.name[i]);
            i = i + 1;
        }
        proof {
            assert(bytes@ =~= self.spec_name_bytes());
        }
        match bytes_to_string(bytes.as_slice()) {
            Some(s) => s,
            None => String::from_str("?"),
        }
    }
}

/// A filesystem as the shell sees it. Implementations fix the pure lookup
/// structure through the spec functions; `read` may fail at any time (a
/// device may), but must leave that structure as it was.
pub trait FileSystem: Sized {
    /// Well-formedness the filesystem keeps between calls.
    spec fn wf(&self) -> bool;

    /// The root node.
    spec fn root_spec(&self) -> NodeId;

    /// What looking a name up under a parent returns.
    spec fn lookup_spec(&self, parent: NodeId, name: Seq<char>) -> Result<NodeId, VfsError>;

    /// What asking for a node's metadata returns.
    spec fn metadata_spec(&self, node: NodeId) -> Result<Metadata, VfsError>;

    /// The bytes of the file at `node`; meaningful where `metadata_spec`
    /// calls the node a file.
    spec fn file_spec(&self, node: NodeId) -> Seq<u8>;

    /// What listing a directory returns: for each entry its name bytes, its
    /// node, and its node type.
    spec fn list_spec(&self, dir: NodeId) -> Result<Seq<(Seq<u8>, NodeId, NodeType)>, VfsError>;

    fn root(&self) -> (r: NodeId)
        requires
            self.wf(),
        ensures
            r == self.root_spec(),
    ;

    fn lookup(&self, parent: NodeId, name: &str) -> (r: Result<NodeId, VfsError>)
        requires
            self.wf(),
        ensures
            r == self.lookup_spec(parent, name@),
    ;

    fn metadata(&self, node: NodeId) -> (r: Result<Metadata, VfsError>)
        requires
            self.wf(),
        ensures
            r == self.metadata_spec(node),
            r matches Ok(m) ==> (m.node_type == NodeType::File ==> m.size == self.file_spec(
                node,
            ).len()),
    ;

    /// Reads up to `out.len()` bytes of the file at `node` from `offset`,
    /// overwriting the front of `out` and returning how many bytes came. A
    /// read may fail at any time, but a successful read of a file node
    /// returns exactly the file's bytes at that offset, clipped to the end
    /// of the file.
    fn read(&mut self, node: NodeId, offset: u64, out: &mut Vec<u8>) -> (r: Result<
        usize,
        VfsError,
    >)
        requires
            old(self).wf(),
        ensures
            final(self).wf(),
            final(out)@.len() == old(out)@.len(),
            final(self).root_spec() == old(self).root_spec(),
            forall|p: NodeId, n: Seq<char>|
                final(self).lookup_spec(p, n) == old(self).lookup_spec(p, n),
            forall|n: NodeId| final(self).metadata_spec(n) == old(self).metadata_spec(n),
            forall|n: NodeId| final(self).list_spec(n) == old(self).list_spec(n),
            forall|n: NodeId| final(self).file_spec(n) == old(self).file_spec(n),
            r matches Ok(count) ==> count <= old(out)@.len(),
            r matches Ok(count) ==> (old(self).metadata_spec(node) matches Ok(m)
                && m.node_type == NodeType::File ==> {
                let content = old(self).file_spec(node);
                &&& (offset >= content.len() ==> count == 0)
                &&& (offset < content.len() ==> count == vstd::math::min(
                    old(out)@.len() as int,
                    content.len() - offset,
                ) && forall|j: int|
                    0 <= j < count ==> final(out)@[j] == content[offset + j])
            }),
    ;

    fn list(&self, dir: NodeId) -> (r: Result<Vec<DirEntry>, VfsError>)
        requires
            self.wf(),
        ensures
            match (r, self.list_spec(dir)) {
                (Ok(v), Ok(s)) => v@.len() == s.len() && forall|k: int|
                    0 <= k < s.len() ==> {
                        &&& (#[trigger] v@[k]).name_len == s[k].0.len()
                        &&& v@[k].name_len <= 32
                        &&& v@[k].spec_name_bytes() == s[k].0
                        &&& v@[k].node == s[k].1
                        &&& v@[k].node_type == s[k].2
                    },
                (Err(e), Err(es)) => e == es,
                _ => false,
            },
    ;
}

/// Index of the first `/` in `s`, or `s.len()` when there is none.
pub open spec fn first_sep(s: Seq<char>) -> int
    decreases s.len(),
{
    if s.len() == 0 {
        0
    } else if s[0] == '/' {
        0
    } else {
        1 + first_sep(s.skip(1))
    }
}

/// `first_sep`, clamped into `1..=s.len()` so that recursion on it is
/// visibly well founded; equal to `first_sep(s)` whenever `s` does not
/// start with `/` (see `lemma_first_sep_bounds`).
pub open spec fn seg_len(s: Seq<char>) -> int {
    let k = first_sep(s);
    if k < 1 {
        1
    } else if k > s.len() {
        s.len() as int
    } else {
        k
    }
}

/// The non-empty segments of `s` between `/` separators, in order.
pub open spec fn spec_segments(s: Seq<char>) -> Seq<Seq<char>>
    decreases s.len(),
{
    if s.len() == 0 {
        seq![]
    } else if s[0] == '/' {
        spec_segments(s.skip(1))
    } else {
        seq![s.take(seg_len(s))] + spec_segments(s.skip(seg_len(s)))
    }
}

/// A path segment the resolver refuses.
pub open spec fn bad_segment(seg: Seq<char>) -> bool {
    seg == seq!['.'] || seg == seq!['.', '.']
}

proof fn lemma_first_sep_bounds(s: Seq<char>)
    ensures
        0 <= first_sep(s) <= s.len(),
        first_sep(s) == s.len() || s[first_sep(s)] == '/',
        forall|m: int| 0 <= m < first_sep(s) ==> s[m] != '/',
    decreases s.len(),
{
    if s.len() == 0 {
    } else if s[0] == '/' {
    } else {
        lemma_first_sep_bounds(s.skip(1));
        assert forall|m: int| 0 <= m < first_sep(s) implies s[m] != '/' by {
            if m > 0 {
                assert(s.skip(1)[m - 1] != '/');
            }
        }
    }
}

proof fn lemma_first_sep_is(s: Seq<char>, k: int)
    requires
        0 <= k <= s.len(),
        forall|m: int| 0 <= m < k ==> s[m] != '/',
        k == s.len() || s[k] == '/',
    ensures
        first_sep(s) == k,
    decreases s.len(),
{
    if s.len() == 0 {
    } else if k == 0 {
    } else {
        assert(s[0] != '/');
        assert forall|m: int| 0 <= m < k - 1 implies s.skip(1)[m] != '/' by {
            assert(s.skip(1)[m] == s[m + 1]);
        }
        lemma_first_sep_is(s.skip(1), k - 1);
    }
}

/// Splits an absolute path into its segments; `.` and `..` are refused.
pub fn split_path(path: &str) -> (r: Result<Vec<String>, VfsError>)
    ensures
        r.is_ok() <==> (path@.len() > 0 && path@[0] == '/' && forall|i: int|
            0 <= i < spec_segments(path@).len() ==> !bad_segment(spec_segments(path@)[i])),
        r matches Ok(v) ==> {
            &&& v@.len() == spec_segments(path@).len()
            &&& forall|i: int| 0 <= i < v@.len() ==> v@[i]@ == spec_segments(path@)[i]
        },
        r matches Err(e) ==> e == VfsError::InvalidPath,
{
    let n: usize = path.unicode_len();
    if n == 0 || path.get_char(0) != '/' {
        return Err(VfsError::InvalidPath);
    }
    let mut parts: Vec<String> = Vec::new();
    let mut i: usize = 0;
    proof {
        assert(path@.skip(0) =~= path@);
    }
    while i < n
        invariant
            n == path@.len(),
            i <= n,
            spec_segments(path@) == parts@.map_values(|p: String| p@) + spec_segments(
                path@.skip(i as int),
            ),
            forall|k: int| 0 <= k < parts@.len() ==> !bad_segment((#[trigger] parts@[k])@),
        decreases n - i,
    {
        let ghost rest = path@.skip(i as int);
        let c: char = path.get_char(i);
        if c == '/' {
            proof {
                assert(rest[0] == '/');
                assert(rest.skip(1) =~= path@.skip(i as int + 1));
            }
            i = i + 1;
        } else {
            let mut j: usize = i + 1;
            loop
                invariant_except_break
                    n == path@.len(),
                    i < j <= n,
                    forall|m: int| i <= m < j ==> path@[m] != '/',
                ensures
                    n == path@.len(),
                    i < j <= n,
                    forall|m: int| i <= m < j ==> path@[m] != '/',
                    j == n || path@[j as int] == '/',
                decreases n - j,
            {
                if j >= n {
                    break ;
                }
                if path.get_char(j) == '/' {
                    break ;
                }
                j = j + 1;
            }
            proof {
                assert forall|m: int| 0 <= m < j as int - i as int implies rest[m] != '/' by {
                    assert(rest[m] == path@[i + m]);
                }
                if j < n {
                    assert(rest[j as int - i as int] == path@[j as int]);
                }
                lemma_first_sep_is(rest, j as int - i as int);
                assert(seg_len(rest) == j as int - i as int);
                assert(rest.take(j as int - i as int) =~= path@.subrange(i as int, j as int));
                assert(rest.skip(j as int - i as int) =~= path@.skip(j as int));
            }
            let seg: &str = path.substring_char(i, j);
            let ghost segv = path@.subrange(i as int, j as int);
            let dot: bool = j - i == 1 && path.get_char(i) == '.';
            let dotdot: bool = j - i == 2 && path.get_char(i) == '.' && path.get_char(i + 1)
                == '.';
            proof {
                if dot {
                    assert(segv =~= seq!['.']);
                }
                if dotdot {
                    assert(segv =~= seq!['.', '.']);
                }
                if !dot && !dotdot {
                    if segv == seq!['.'] {
                        assert(segv.len() == 1 && segv[0] == '.');
                        assert(false);
                    }
                    if segv == seq!['.', '.'] {
                        assert(segv.len() == 2 && segv[0] == '.' && segv[1] == '.');
                        assert(false);
                    }
                }
            }
            if dot || dotdot {
                proof {
                    let segs = spec_segments(path@);
                    let mapped = parts@.map_values(|p: String| p@);
                    let k = mapped.len() as int;
                    assert(spec_segments(rest)[0] == segv);
                    assert(segs[k] == (mapped + spec_segments(rest))[k]);
                    assert(segs[k] == segv);
                    assert(bad_segment(segs[k]));
                }
                return Err(VfsError::InvalidPath);
            }
            let owned: String = seg.to_owned();
            let ghost before = parts@;
            parts.push(owned);
            proof {
                assert(parts@.map_values(|p: String| p@) =~= before.map_values(|p: String| p@)
                    + seq![segv]);
                assert(spec_segments(path@) =~= parts@.map_values(|p: String| p@)
                    + spec_segments(path@.skip(j as int)));
            }
            i = j;
        }
    }
    proof {
        assert(path@.skip(n as int) =~= Seq::<char>::empty());
        assert(spec_segments(path@) =~= parts@.map_values(|p: String| p@));
    }
    Ok(parts)
}

/// Resolution of a segment list from a starting node.
pub open spec fn spec_resolve_from<F: FileSystem>(
    fs: &F,
    cur: NodeId,
    segs: Seq<Seq<char>>,
) -> Result<NodeId, VfsError>
    decreases segs.len(),
{
    if segs.len() == 0 {
        Ok(cur)
    } else {
        match fs.metadata_spec(cur) {
            Err(e) => Err(e),
            Ok(meta) => {
                if meta.node_type != NodeType::Directory {
                    Err(VfsError::NotDirectory)
                } else {
                    match fs.lookup_spec(cur, segs[0]) {
                        Err(e) => Err(e),
                        Ok(next) => spec_resolve_from(fs, next, segs.skip(1)),
                    }
                }
            },
        }
    }
}

/// What resolving a whole path returns.
pub open spec fn spec_resolve<F: FileSystem>(fs: &F, path: Seq<char>) -> Result<NodeId, VfsError> {
    if path.len() > 0 && path[0] == '/' && (forall|i: int|
        0 <= i < spec_segments(path).len() ==> !bad_segment(spec_segments(path)[i])) {
        spec_resolve_from(fs, fs.root_spec(), spec_segments(path))
    } else {
        Err(VfsError::InvalidPath)
    }
}

/// Walks `path` from the root, checking that each step goes through a directory.
pub fn resolve_path<F: FileSystem>(fs: &F, path: &str) -> (r: Result<NodeId, VfsError>)
    requires
        fs.wf(),
    ensures
        r == spec_resolve(fs, path@),
{
    let parts: Vec<String> = match split_path(path) {
        Ok(parts) => parts,
        Err(e) => {
            return Err(e);
        },
    };
    let ghost segs = spec_segments(path@);
    let mut current: NodeId = fs.root();
    let mut k: usize = 0;
    proof {
        assert(segs.skip(0) =~= segs);
        assert(spec_resolve(fs, path@) == spec_resolve_from(fs, fs.root_spec(), segs));
    }
    while k < parts.len()
        invariant
            fs.wf(),
            parts@.len() == segs.len(),
            forall|i: int| 0 <= i < segs.len() ==> parts@[i]@ == segs[i],
            k <= parts@.len(),
            spec_resolve(fs, path@) == spec_resolve_from(fs, current, segs.skip(k as int)),
        decreases parts@.len() - k,
    {
        let ghost tail = segs.skip(k as int);
        proof {
            assert(tail[0] == segs[k as int]);
            assert(tail.skip(1) =~= segs.skip(k as int + 1));
        }
        let meta: Metadata = match fs.metadata(current) {
            Ok(meta) => meta,
            Err(e) => {
                return Err(e);
            },
        };
        if meta.node_type != NodeType::Directory {
            return Err(VfsError::NotDirectory);
        }
        current = match fs.lookup(current, parts[k].as_str()) {
            Ok(next) => next,
            Err(e) => {
                return Err(e);
            },
        };
        k = k + 1;
    }
    proof {
        assert(segs.skip(segs.len() as int) =~= Seq::<Seq<char>>::empty());
    }
    Ok(current)
}

/// The empty absolute path resolves to the root of any filesystem.
pub proof fn lemma_resolve_root<F: FileSystem>(fs: &F)
    ensures
        spec_resolve(fs, "/"@) == Ok::<NodeId, VfsError>(fs.root_spec()),
{
    reveal_strlit("/");
    let s = "/"@;
    assert(s.len() == 1 && s[0] == '/');
    let e = Seq::<char>::empty();
    assert(s.skip(1) =~= e);
    assert(spec_segments(e) =~= Seq::<Seq<char>>::empty());
    assert(spec_segments(s) == spec_segments(s.skip(1)));
    assert(spec_segments(s).len() == 0);
}

} // verus!
