//! Mounting and reading the `ERESFS1` on-disk format over any block device.

use vstd::prelude::*;

verus! {

use vstd::utf8::valid_utf8;
use crate::block::{BlockDevice, BlockError};
use crate::codec::{self, Superblock, FsError, u32_from_le_bytes, zero_bytes, BLOCK_SIZE,
    DIR_ENTRY_SIZE};
use crate::vfs::{DirEntry as VfsDirEntry, FileSystem, Metadata, NodeId, NodeType, VfsError};

/// The 64 bytes of directory slot `i` as they sit in the device's sectors.
pub open spec fn spec_dir_slot(m: Map<u64, Seq<u8>>, sb: Superblock, i: int) -> Seq<u8> {
    m[(sb.dir_start_block + i / 8) as u64].subrange((i % 8) * 64, (i % 8) * 64 + 64)
}

/// The indices below `n` of directory slots that are in use, in order.
pub open spec fn spec_live_slots(m: Map<u64, Seq<u8>>, sb: Superblock, n: int) -> Seq<int>
    decreases n,
{
    if n <= 0 {
        seq![]
    } else if spec_dir_slot(m, sb, n - 1)[32] != 0 {
        spec_live_slots(m, sb, n - 1) + seq![n - 1]
    } else {
        spec_live_slots(m, sb, n - 1)
    }
}

/// Sector `bb` of the directory has been read out of `m` into `sectors[bb]`.
pub open spec fn dir_sector_ok(
    m: Map<u64, Seq<u8>>,
    first: u32,
    sectors: Seq<Vec<u8>>,
    bb: int,
) -> bool {
    &&& m.contains_key((first + bb) as u64)
    &&& sectors[bb]@ == m[(first + bb) as u64]
    &&& sectors[bb]@.len() == 512
}

/// The first `n` directory sectors have been read out of `m`, starting at
/// block `first`, each 512 bytes long.
pub open spec fn dir_loaded(m: Map<u64, Seq<u8>>, first: u32, sectors: Seq<Vec<u8>>, n: int) -> bool {
    forall|bb: int| 0 <= bb < n ==> #[trigger] dir_sector_ok(m, first, sectors, bb)
}

proof fn lemma_dir_loaded_push(
    m: Map<u64, Seq<u8>>,
    first: u32,
    before: Seq<Vec<u8>>,
    sect: Vec<u8>,
    n: int,
)
    requires
        dir_loaded(m, first, before, n),
        before.len() == n,
        0 <= n,
        m.contains_key((first + n) as u64),
        sect@ == m[(first + n) as u64],
        sect@.len() == 512,
    ensures
        dir_loaded(m, first, before.push(sect), n + 1),
{
    let after = before.push(sect);
    assert forall|bb: int| 0 <= bb < n + 1 implies #[trigger] dir_sector_ok(m, first, after, bb) by {
        if bb < n {
            assert(dir_sector_ok(m, first, before, bb));
            assert(after[bb] == before[bb]);
        } else {
            assert(after[bb] == sect);
        }
    }
}

/// A decoded entry carries exactly the fields of the 64 slot bytes `b`.
pub open spec fn entry_matches_slot(e: codec::DirEntry, b: Seq<u8>) -> bool {
    &&& e.name@ == b.subrange(0, 32)
    &&& e.name_len == b[32]
    &&& e.file_start_block == u32_from_le_bytes(b.subrange(36, 40))
    &&& e.file_block_count == u32_from_le_bytes(b.subrange(40, 44))
    &&& e.file_size == u32_from_le_bytes(b.subrange(44, 48))
    &&& e.flags == u32_from_le_bytes(b.subrange(48, 52))
}

/// Byte `j` of the file described by `e`, read out of the sectors `m`.
pub open spec fn spec_file_byte(m: Map<u64, Seq<u8>>, e: codec::DirEntry, j: int) -> u8 {
    m[(e.file_start_block + j / 512) as u64][j % 512]
}

/// Sum of the block counts of `entries`.
pub open spec fn spec_sum_counts(entries: Seq<codec::DirEntry>) -> int
    decreases entries.len(),
{
    if entries.len() == 0 {
        0
    } else {
        spec_sum_counts(entries.drop_last()) + entries.last().file_block_count
    }
}

/// Where the file at `name` would be found: index of the first entry whose
/// name bytes equal `name`, or `-1`.
pub open spec fn spec_find_name(entries: Seq<codec::DirEntry>, name: Seq<u8>) -> int
    decreases entries.len(),
{
    if entries.len() == 0 {
        -1
    } else if entries[0].spec_name_bytes() == name {
        0
    } else {
        let r = spec_find_name(entries.skip(1), name);
        if r < 0 {
            -1
        } else {
            1 + r
        }
    }
}

proof fn lemma_find_name_at(entries: Seq<codec::DirEntry>, name: Seq<u8>, k: int)
    requires
        0 <= k < entries.len(),
        forall|j: int| 0 <= j < k ==> (#[trigger] entries[j]).spec_name_bytes() != name,
        entries[k].spec_name_bytes() == name,
    ensures
        spec_find_name(entries, name) == k,
    decreases entries.len(),
{
    if k > 0 {
        assert forall|j: int| 0 <= j < k - 1 implies (#[trigger] entries.skip(1)[j]).spec_name_bytes()
            != name by {
            assert(entries.skip(1)[j] == entries[j + 1]);
        }
        assert(entries.skip(1)[k - 1] == entries[k]);
        lemma_find_name_at(entries.skip(1), name, k - 1);
    }
}

proof fn lemma_find_name_none(entries: Seq<codec::DirEntry>, name: Seq<u8>)
    requires
        forall|j: int| 0 <= j < entries.len() ==> (#[trigger] entries[j]).spec_name_bytes() != name,
    ensures
        spec_find_name(entries, name) == -1,
    decreases entries.len(),
{
    if entries.len() > 0 {
        assert forall|j: int|
            0 <= j < entries.skip(1).len() implies (#[trigger] entries.skip(
            1,
        )[j]).spec_name_bytes() != name by {
            assert(entries.skip(1)[j] == entries[j + 1]);
        }
        lemma_find_name_none(entries.skip(1), name);
    }
}

/// Turns a block-device error into the VFS error the caller sees.
pub fn map_block_error(err: BlockError) -> (r: VfsError)
    ensures
        err == BlockError::Unsupported ==> r == VfsError::Unsupported,
        err != BlockError::Unsupported ==> r == VfsError::Io,
{
    match err {
        BlockError::InvalidBufferSize => VfsError::Io,
        BlockError::DeviceFault => VfsError::Io,
        BlockError::Timeout => VfsError::Io,
        BlockError::Unsupported => VfsError::Unsupported,
    }
}

/// Turns a codec error into the VFS error the caller sees.
pub fn map_fs_error(err: FsError) -> (r: VfsError)
    ensures
        err == FsError::NameTooLong ==> r == VfsError::InvalidPath,
        err != FsError::NameTooLong ==> r == VfsError::Io,
{
    match err {
        FsError::InvalidMagic => VfsError::Io,
        FsError::InvalidVersion => VfsError::Io,
        FsError::InvalidBlockSize => VfsError::Io,
        FsError::InvalidData => VfsError::Io,
        FsError::NameTooLong => VfsError::InvalidPath,
    }
}

pub struct SimpleFs<D: BlockDevice> {
    device: D,
    superblock: Superblock,
    entries: Vec<codec::DirEntry>,
}

impl<D: BlockDevice> SimpleFs<D> {
    /// The mounted device.
    pub closed spec fn spec_device(&self) -> D {
        self.device
    }

    /// The decoded superblock.
    pub closed spec fn spec_superblock(&self) -> Superblock {
        self.superblock
    }

    /// The live directory entries, in on-disk order.
    pub closed spec fn spec_entries(&self) -> Seq<codec::DirEntry> {
        self.entries@
    }

    /// Invariant established at mount: names are sound, and the file
    /// regions are laid out back to back from `data_start_block`, all
    /// within `total_blocks`.
    pub open spec fn wf_fs(&self) -> bool {
        &&& self.spec_device().wf()
        &&& self.spec_superblock().valid_spec()
        &&& forall|i: int| 0 <= i < self.spec_entries().len() ==> (#[trigger] self.spec_entries()[i]).wf()
        &&& forall|i: int|
            0 <= i < self.spec_entries().len() ==> valid_utf8(
                (#[trigger] self.spec_entries()[i]).spec_name_bytes(),
            )
        &&& forall|i: int|
            0 <= i < self.spec_entries().len() ==> (#[trigger] self.spec_entries()[i]).file_start_block
                + self.spec_entries()[i].file_block_count
                <= self.spec_superblock().total_blocks
        &&& (self.spec_entries().len() > 0 ==> self.spec_entries()[0].file_start_block
            == self.spec_superblock().data_start_block)
        &&& forall|i: int|
            1 <= i < self.spec_entries().len() ==> (#[trigger] self.spec_entries()[i]).file_start_block
                == self.spec_entries()[i - 1].file_start_block + self.spec_entries()[
                i - 1
            ].file_block_count
    }

    /// Reads the superblock and the directory, keeping the live entries.
    /// An image whose entries carry bad names, or whose file regions are
    /// not packed back to back inside the block count the superblock
    /// declares, is refused as corrupt.
    #[verifier::rlimit(100)]
    pub fn mount(device: D) -> (r: Result<SimpleFs<D>, VfsError>)
        requires
            device.wf(),
        ensures
            r matches Err(e) ==> (e == VfsError::Io || e == VfsError::Unsupported || e
                == VfsError::InvalidPath),
            r matches Ok(fs) ==> {
                let m = device.spec_sectors();
                &&& fs.wf_fs()
                &&& fs.spec_device().spec_sectors() == m
                &&& m.contains_key(0)
                &&& fs.spec_superblock().valid_spec()
                &&& fs.spec_superblock().total_blocks == u32_from_le_bytes(
                    m[0].subrange(16, 20),
                )
                &&& fs.spec_superblock().dir_entry_count == u32_from_le_bytes(
                    m[0].subrange(20, 24),
                )
                &&& fs.spec_superblock().dir_start_block == u32_from_le_bytes(
                    m[0].subrange(24, 28),
                )
                &&& fs.spec_superblock().dir_block_count == u32_from_le_bytes(
                    m[0].subrange(28, 32),
                )
                &&& fs.spec_superblock().data_start_block == u32_from_le_bytes(
                    m[0].subrange(32, 36),
                )
                &&& forall|b: int|
                    0 <= b < fs.spec_superblock().dir_block_count ==> #[trigger] m.contains_key(
                        (fs.spec_superblock().dir_start_block + b) as u64,
                    )
                &&& fs.spec_entries().len() == spec_live_slots(
                    m,
                    fs.spec_superblock(),
                    fs.spec_superblock().dir_entry_count as int,
                ).len()
                &&& forall|k: int|
                    0 <= k < fs.spec_entries().len() ==> entry_matches_slot(
                        #[trigger] fs.spec_entries()[k],
                        spec_dir_slot(
                            m,
                            fs.spec_superblock(),
                            spec_live_slots(
                                m,
                                fs.spec_superblock(),
                                fs.spec_superblock().dir_entry_count as int,
                            )[k],
                        ),
                    )
            },
    {
        let mut device = device;
        let ghost m = device.spec_sectors();
        let mut sector: Vec<u8> = zero_bytes(BLOCK_SIZE);
        match device.read_sector(0, &mut sector) {
            Ok(()) => (),
            Err(e) => {
                return Err(map_block_error(e));
            },
        }
        let sb: Superblock = match Superblock::decode(sector.as_slice()) {
            Ok(sb) => sb,
            Err(e) => {
                return Err(map_fs_error(e));
            },
        };

        let mut dir_sectors: Vec<Vec<u8>> = Vec::new();
        let mut b: u32 = 0;
        while b < sb.dir_block_count
            invariant
                device.wf(),
                device.spec_sectors() == m,
                b <= sb.dir_block_count,
                dir_sectors@.len() == b,
                dir_loaded(m, sb.dir_start_block, dir_sectors@, b as int),
            decreases sb.dir_block_count - b,
        {
            let lba: u64 = sb.dir_start_block as u64 + b as u64;
            let mut sect: Vec<u8> = zero_bytes(BLOCK_SIZE);
            match device.read_sector(lba, &mut sect) {
                Ok(()) => (),
                Err(e) => {
                    return Err(map_block_error(e));
                },
            }
            let ghost before = dir_sectors@;
            let ghost sect_snapshot = sect;
            dir_sectors.push(sect);
            proof {
                assert((sb.dir_start_block + b as int) as u64 == lba);
                assert(m.contains_key(lba));
                lemma_dir_loaded_push(m, sb.dir_start_block, before, sect_snapshot, b as int);
                assert(dir_sectors@ == before.push(sect_snapshot));
            }
            b = b + 1;
        }

        let mut entries: Vec<codec::DirEntry> = Vec::new();
        let mut expected_start: u64 = sb.data_start_block as u64;
        let mut i: u32 = 0;
        while i < sb.dir_entry_count
            invariant
                device.wf(),
                device.spec_sectors() == m,
                sb.valid_spec(),
                i <= sb.dir_entry_count,
                dir_sectors@.len() == sb.dir_block_count,
                dir_loaded(m, sb.dir_start_block, dir_sectors@, sb.dir_block_count as int),
                entries@.len() == spec_live_slots(m, sb, i as int).len(),
                forall|k: int|
                    0 <= k < entries@.len() ==> entry_matches_slot(
                        #[trigger] entries@[k],
                        spec_dir_slot(m, sb, spec_live_slots(m, sb, i as int)[k]),
                    ),
                forall|k: int| 0 <= k < entries@.len() ==> (#[trigger] entries@[k]).wf(),
                forall|k: int|
                    0 <= k < entries@.len() ==> valid_utf8(
                        (#[trigger] entries@[k]).spec_name_bytes(),
                    ),
                forall|k: int|
                    0 <= k < entries@.len() ==> (#[trigger] entries@[k]).file_start_block
                        + entries@[k].file_block_count <= sb.total_blocks,
                entries@.len() > 0 ==> entries@[0].file_start_block == sb.data_start_block,
                forall|k: int|
                    1 <= k < entries@.len() ==> (#[trigger] entries@[k]).file_start_block
                        == entries@[k - 1].file_start_block + entries@[k - 1].file_block_count,
                entries@.len() == 0 ==> expected_start == sb.data_start_block,
                entries@.len() > 0 ==> expected_start == entries@.last().file_start_block
                    + entries@.last().file_block_count,
            decreases sb.dir_entry_count - i,
        {
            let blk: usize = (i / 8) as usize;
            if blk >= dir_sectors.len() {
                return Err(VfsError::Io);
            }
            let off: usize = ((i % 8) as usize) * 64;
            proof {
                assert((i as int) / 8 == blk && (i as int) % 8 == (i % 8) as int);
                assert(dir_sector_ok(m, sb.dir_start_block, dir_sectors@, blk as int));
            }
            let mut raw: Vec<u8> = Vec::new();
            let mut k: usize = 0;
            while k < DIR_ENTRY_SIZE
                invariant
                    k <= DIR_ENTRY_SIZE,
                    blk < dir_sectors@.len(),
                    dir_sectors@[blk as int]@.len() == 512,
                    off + DIR_ENTRY_SIZE <= 512,
                    raw@ =~= dir_sectors@[blk as int]@.subrange(
                        off as int,
                        off as int + k as int,
                    ),
                decreases DIR_ENTRY_SIZE - k,
            {
                raw.push(dir_sectors[blk][off + k]);
                k = k + 1;
            }
            let entry: codec::DirEntry = codec::DirEntry::decode(raw.as_slice());
            proof {
                let ii = i as int;
                assert(raw@ == spec_dir_slot(m, sb, ii));
                assert(entry_matches_slot(entry, spec_dir_slot(m, sb, ii)));
            }
            if entry.is_unused() {
                proof {
                    assert(spec_dir_slot(m, sb, i as int)[32] == 0);
                    assert(spec_live_slots(m, sb, i as int + 1) =~= spec_live_slots(
                        m,
                        sb,
                        i as int,
                    ));
                }
                i = i + 1;
                continue ;
            }
            if entry.name_len > 32 {
                return Err(VfsError::Io);
            }
            match entry.name() {
                Ok(_) => (),
                Err(_) => {
                    return Err(VfsError::Io);
                },
            }
            if entry.file_start_block as u64 != expected_start {
                return Err(VfsError::Io);
            }
            let end: u64 = entry.file_start_block as u64 + entry.file_block_count as u64;
            if end > sb.total_blocks as u64 {
                return Err(VfsError::Io);
            }
            let ghost before_entries = entries@;
            entries.push(entry);
            expected_start = end;
            proof {
                assert(spec_dir_slot(m, sb, i as int)[32] == entry.name_len);
                assert(spec_live_slots(m, sb, i as int + 1) =~= spec_live_slots(m, sb, i as int)
                    + seq![i as int]);
            }
            i = i + 1;
        }
        proof {
            assert forall|bb: int|
                0 <= bb < sb.dir_block_count implies #[trigger] m.contains_key((
            sb.dir_start_block + bb) as u64) by {
                assert(dir_sector_ok(m, sb.dir_start_block, dir_sectors@, bb));
            }
        }
        Ok(SimpleFs { device, superblock: sb, entries })
    }

    /// Number of live directory entries.
    pub fn entry_count(&self) -> (r: usize)
        ensures
            r == self.spec_entries().len(),
    {
        self.entries.len()
    }

    /// A copy of the decoded superblock.
    pub fn superblock(&self) -> (r: Superblock)
        ensures
            r == self.spec_superblock(),
    {
        self.superblock
    }

    /// The node handle of the entry at `index`.
    fn entry_node(index: usize) -> (r: NodeId)
        requires
            index < u64::MAX,
        ensures
            r.0 == index + 1,
    {
        NodeId(index as u64 + 1)
    }

    /// The entry index a node handle refers to, if any.
    fn node_entry_index(node: NodeId) -> (r: Option<usize>)
        ensures
            r is Some <==> (node.0 != 0 && node.0 - 1 <= usize::MAX),
            r matches Some(index) ==> index == node.0 - 1,
    {
        if node.0 == 0 {
            None
        } else if node.0 - 1 > usize::MAX as u64 {
            None
        } else {
            Some((node.0 - 1) as usize)
        }
    }

    /// The entry's decoded name, if its bytes are sound.
    fn entry_name(entry: &codec::DirEntry) -> (r: Option<String>)
        requires
            entry.wf(),
        ensures
            r matches Some(s) ==> valid_utf8(entry.spec_name_bytes()) && vstd::utf8::encode_utf8(
                s@,
            ) == entry.spec_name_bytes(),
            r is None ==> !valid_utf8(entry.spec_name_bytes()),
    {
        match entry.name() {
            Ok(s) => Some(s),
            Err(_) => None,
        }
    }

    /// Compares an entry's name bytes against `nb`.
    fn entry_name_eq(entry: &codec::DirEntry, nb: &[u8]) -> (r: bool)
        requires
            entry.name_len <= 32,
        ensures
            r == (entry.spec_name_bytes() == nb@),
    {
        let len: usize = entry.name_len as usize;
        if len != nb.len() {
            proof {
                assert(entry.spec_name_bytes().len() == len);
            }
            return false;
        }
        let mut k: usize = 0;
        while k < len
            invariant
                k <= len,
                len == entry.name_len,
                len == nb@.len(),
                len <= 32,
                entry.name@.len() == 32,
                forall|j: int| 0 <= j < k ==> entry.name@[j] == nb@[j],
            decreases len - k,
        {
            if entry.name[k] != nb[k] {
                proof {
                    assert(entry.spec_name_bytes()[k as int] != nb@[k as int]);
                }
                return false;
            }
            k = k + 1;
        }
        proof {
            assert(entry.spec_name_bytes() =~= nb@);
        }
        true
    }

    /// Reads `out.len()` bytes of the file at `node` starting at byte
    /// `offset`, clipped to the end of the file; returns how many bytes
    /// came, which is that clipped count whenever the device cooperates.
    #[verifier::rlimit(100)]
    pub fn read_file(&mut self, node: NodeId, offset: u64, out: &mut Vec<u8>) -> (r: Result<
        usize,
        VfsError,
    >)
        requires
            old(self).wf_fs(),
        ensures
            final(self).wf_fs(),
            final(self).spec_superblock() == old(self).spec_superblock(),
            final(self).spec_entries() == old(self).spec_entries(),
            final(self).spec_device().spec_sectors() == old(self).spec_device().spec_sectors(),
            final(out)@.len() == old(out)@.len(),
            node.0 == 0 ==> r == Err::<usize, VfsError>(VfsError::NotFile),
            node.0 != 0 && node.0 - 1 >= old(self).spec_entries().len() ==> r == Err::<
                usize,
                VfsError,
            >(VfsError::NotFound),
            node.0 != 0 && node.0 - 1 < old(self).spec_entries().len() ==> {
                let entry = old(self).spec_entries()[node.0 - 1];
                let m = old(self).spec_device().spec_sectors();
                &&& (offset >= entry.file_size ==> r == Ok::<usize, VfsError>(0))
                &&& (offset < entry.file_size ==> match r {
                    Ok(cnt) => {
                        &&& cnt == vstd::math::min(
                            old(out)@.len() as int,
                            entry.file_size - offset,
                        )
                        &&& forall|j: int|
                            0 <= j < cnt ==> final(out)@[j] == spec_file_byte(
                                m,
                                entry,
                                offset + j,
                            )
                    },
                    Err(e) => e == VfsError::Io || e == VfsError::Unsupported,
                })
            },
    {
        let n: usize = self.entries.len();
        if node.0 == 0 {
            return Err(VfsError::NotFile);
        }
        let index: usize = match Self::node_entry_index(node) {
            Some(index) => index,
            None => {
                return Err(VfsError::NotFound);
            },
        };
        if index >= n {
            return Err(VfsError::NotFound);
        }
        let entry: codec::DirEntry = self.entries[index];
        if offset >= entry.file_size as u64 {
            return Ok(0);
        }
        let remaining_file: u64 = entry.file_size as u64 - offset;
        let max_bytes: usize = if (out.len() as u64) < remaining_file {
            out.len()
        } else {
            remaining_file as usize
        };
        let ghost m = self.device.spec_sectors();
        let mut read_total: usize = 0;
        let mut scratch: Vec<u8> = zero_bytes(BLOCK_SIZE);
        while read_total < max_bytes
            invariant
                self.wf_fs(),
                self.superblock == old(self).spec_superblock(),
                self.entries@ == old(self).spec_entries(),
                self.device.spec_sectors() == m,
                m == old(self).spec_device().spec_sectors(),
                node.0 != 0,
                node.0 - 1 < old(self).spec_entries().len(),
                entry == old(self).spec_entries()[node.0 - 1],
                offset < entry.file_size,
                read_total <= max_bytes,
                max_bytes <= out@.len(),
                max_bytes == vstd::math::min(old(out)@.len() as int, entry.file_size - offset),
                out@.len() == old(out)@.len(),
                offset + max_bytes <= entry.file_size,
                entry.file_size <= u32::MAX,
                scratch@.len() == 512,
                forall|j: int|
                    0 <= j < read_total ==> #[trigger] out@[j] == spec_file_byte(
                        m,
                        entry,
                        offset + j,
                    ),
            decreases max_bytes - read_total,
        {
            let cursor: u64 = offset + read_total as u64;
            let block_index: u64 = cursor / 512;
            let block_offset: u64 = cursor % 512;
            let lba: u64 = entry.file_start_block as u64 + block_index;
            match self.device.read_sector(lba, &mut scratch) {
                Ok(()) => (),
                Err(e) => {
                    return Err(map_block_error(e));
                },
            }
            let boff: usize = block_offset as usize;
            let left: usize = max_bytes - read_total;
            let room: usize = 512 - boff;
            let to_copy: usize = if left < room {
                left
            } else {
                room
            };
            let mut k: usize = 0;
            while k < to_copy
                invariant
                    k <= to_copy,
                    read_total + to_copy <= max_bytes <= out@.len(),
                    boff + to_copy <= 512,
                    scratch@.len() == 512,
                    scratch@ == m[lba],
                    out@.len() == old(out)@.len(),
                    forall|j: int|
                        0 <= j < read_total ==> out@[j] == spec_file_byte(m, entry, offset + j),
                    forall|j: int|
                        0 <= j < k ==> #[trigger] out@[read_total + j] == scratch@[boff + j],
                decreases to_copy - k,
            {
                out[read_total + k] = scratch[boff + k];
                k = k + 1;
            }
            proof {
                let c = cursor as int;
                assert(c == block_index * 512 + block_offset) by (nonlinear_arith)
                    requires
                        block_index == cursor as int / 512,
                        block_offset == cursor as int % 512,
                        c == cursor as int,
                ;
                assert forall|j: int|
                    0 <= j < read_total + to_copy implies #[trigger] out@[j] == spec_file_byte(
                    m,
                    entry,
                    offset + j,
                ) by {
                    if read_total <= j {
                        let d = j - read_total;
                        let p = c + d;
                        assert(p / 512 == block_index && p % 512 == block_offset + d)
                            by (nonlinear_arith)
                            requires
                                c == block_index * 512 + block_offset,
                                0 <= block_offset,
                                block_offset + d < 512,
                                0 <= d,
                                p == c + d,
                                0 <= block_index,
                        ;
                        assert(out@[read_total + d] == scratch@[boff + d]);
                        assert(scratch@ == m[lba]);
                        assert((entry.file_start_block + p / 512) as u64 == lba);
                    }
                }
            }
            read_total = read_total + to_copy;
        }
        Ok(read_total)
    }
}

impl<D: BlockDevice> FileSystem for SimpleFs<D> {
    open spec fn wf(&self) -> bool {
        self.wf_fs()
    }

    open spec fn root_spec(&self) -> NodeId {
        NodeId(0)
    }

    open spec fn lookup_spec(&self, parent: NodeId, name: Seq<char>) -> Result<NodeId, VfsError> {
        if parent != NodeId(0) {
            Err(VfsError::NotDirectory)
        } else {
            let idx = spec_find_name(self.spec_entries(), vstd::utf8::encode_utf8(name));
            if idx >= 0 {
                Ok(NodeId((idx + 1) as u64))
            } else {
                Err(VfsError::NotFound)
            }
        }
    }

    open spec fn metadata_spec(&self, node: NodeId) -> Result<Metadata, VfsError> {
        if node.0 == 0 {
            Ok(
                Metadata {
                    node_type: NodeType::Directory,
                    size: self.spec_entries().len() as u64,
                },
            )
        } else if node.0 - 1 < self.spec_entries().len() {
            Ok(
                Metadata {
                    node_type: NodeType::File,
                    size: self.spec_entries()[node.0 - 1].file_size as u64,
                },
            )
        } else {
            Err(VfsError::NotFound)
        }
    }

    open spec fn file_spec(&self, node: NodeId) -> Seq<u8> {
        if node.0 != 0 && node.0 - 1 < self.spec_entries().len() {
            let entry = self.spec_entries()[node.0 - 1];
            Seq::new(
                entry.file_size as nat,
                |j: int| spec_file_byte(self.spec_device().spec_sectors(), entry, j),
            )
        } else {
            Seq::empty()
        }
    }

    open spec fn list_spec(&self, dir: NodeId) -> Result<
        Seq<(Seq<u8>, NodeId, NodeType)>,
        VfsError,
    > {
        if dir != NodeId(0) {
            Err(VfsError::NotDirectory)
        } else {
            Ok(
                Seq::new(
                    self.spec_entries().len(),
                    |k: int|
                        (
                            self.spec_entries()[k].spec_name_bytes(),
                            NodeId((k + 1) as u64),
                            NodeType::File,
                        ),
                ),
            )
        }
    }

    fn root(&self) -> (r: NodeId) {
        NodeId(0)
    }

    fn lookup(&self, parent: NodeId, name: &str) -> (r: Result<NodeId, VfsError>) {
        if parent.0 != 0 {
            return Err(VfsError::NotDirectory);
        }
        let nb: &[u8] = name.as_bytes();
        let n: usize = self.entries.len();
        let mut i: usize = 0;
        while i < n
            invariant
                self.wf_fs(),
                parent.0 == 0,
                n == self.spec_entries().len(),
                i <= n,
                nb@ == vstd::utf8::encode_utf8(name@),
                forall|j: int|
                    0 <= j < i ==> (#[trigger] self.spec_entries()[j]).spec_name_bytes() != nb@,
            decreases n - i,
        {
            if Self::entry_name_eq(&self.entries[i], nb) {
                proof {
                    lemma_find_name_at(self.spec_entries(), nb@, i as int);
                }
                return Ok(Self::entry_node(i));
            }
            i = i + 1;
        }
        proof {
            lemma_find_name_none(self.spec_entries(), nb@);
        }
        Err(VfsError::NotFound)
    }

    #[verifier::rlimit(50)]
    fn metadata(&self, node: NodeId) -> (r: Result<Metadata, VfsError>) {
        let n: usize = self.entries.len();
        if node.0 == 0 {
            return Ok(Metadata { node_type: NodeType::Directory, size: n as u64 });
        }
        let index: usize = match Self::node_entry_index(node) {
            Some(index) => index,
            None => {
                return Err(VfsError::NotFound);
            },
        };
        if index >= self.entries.len() {
            return Err(VfsError::NotFound);
        }
        Ok(Metadata { node_type: NodeType::File, size: self.entries[index].file_size as u64 })
    }

    fn read(&mut self, node: NodeId, offset: u64, out: &mut Vec<u8>) -> (r: Result<
        usize,
        VfsError,
    >) {
        let r = self.read_file(node, offset, out);
        proof {
            assert forall|n: NodeId| self.file_spec(n) == old(self).file_spec(n) by {
                if n.0 != 0 && n.0 - 1 < self.spec_entries().len() {
                    assert(self.file_spec(n) =~= old(self).file_spec(n));
                }
            }
            match r {
                Ok(count) => match old(self).metadata_spec(node) {
                    Ok(m) => {
                        if m.node_type == NodeType::File {
                            let content = old(self).file_spec(node);
                            let entry = old(self).spec_entries()[node.0 - 1];
                            assert(content.len() == entry.file_size);
                            if offset < content.len() {
                                assert forall|j: int|
                                    0 <= j < count implies out@[j] == content[offset + j] by {
                                    assert(out@[j] == spec_file_byte(
                                        old(self).spec_device().spec_sectors(),
                                        entry,
                                        offset + j,
                                    ));
                                }
                            }
                        }
                    },
                    Err(_) => (),
                },
                Err(_) => (),
            }
        }
        r
    }

    fn list(&self, dir: NodeId) -> (r: Result<Vec<VfsDirEntry>, VfsError>) {
        if dir.0 != 0 {
            return Err(VfsError::NotDirectory);
        }
        let n: usize = self.entries.len();
        let mut out: Vec<VfsDirEntry> = Vec::new();
        let ghost s = match self.list_spec(NodeId(0)) {
            Ok(s) => s,
            Err(_) => Seq::empty(),
        };
        let mut i: usize = 0;
        while i < n
            invariant
                self.wf_fs(),
                n == self.spec_entries().len(),
                i <= n,
                s == self.list_spec(NodeId(0)).unwrap(),
                s.len() == n,
                out@.len() == i,
                forall|k: int|
                    0 <= k < i ==> {
                        &&& (#[trigger] out@[k]).name_len == s[k].0.len()
                        &&& out@[k].name_len <= 32
                        &&& out@[k].spec_name_bytes() == s[k].0
                        &&& out@[k].node == s[k].1
                        &&& out@[k].node_type == s[k].2
                    },
            decreases n - i,
        {
            let entry = &self.entries[i];
            let name: String = match Self::entry_name(entry) {
                Some(name) => name,
                None => {
                    proof {
                        assert(false);
                    }
                    return Err(VfsError::Io);
                },
            };
            let vfs_entry: VfsDirEntry = match VfsDirEntry::new(
                name.as_str(),
                Self::entry_node(i),
                NodeType::File,
            ) {
                Ok(vfs_entry) => vfs_entry,
                Err(_) => {
                    proof {
                        assert(false);
                    }
                    return Err(VfsError::Io);
                },
            };
            out.push(vfs_entry);
            i = i + 1;
        }
        Ok(out)
    }
}

/// Over any mounted filesystem the file regions do not overlap, and their
/// block counts sum to exactly the span they occupy above the data start,
/// which ends at or before `total_blocks` (the difference being the unused
/// trailing blocks).
pub proof fn lemma_file_regions(fs_entries: Seq<codec::DirEntry>, sb: Superblock)
    requires
        fs_entries.len() > 0 ==> fs_entries[0].file_start_block == sb.data_start_block,
        forall|i: int|
            1 <= i < fs_entries.len() ==> (#[trigger] fs_entries[i]).file_start_block
                == fs_entries[i - 1].file_start_block + fs_entries[i - 1].file_block_count,
        forall|i: int|
            0 <= i < fs_entries.len() ==> (#[trigger] fs_entries[i]).file_start_block
                + fs_entries[i].file_block_count <= sb.total_blocks,
    ensures
        forall|i: int, j: int|
            0 <= i < j < fs_entries.len() ==> (#[trigger] fs_entries[i]).file_start_block
                + fs_entries[i].file_block_count <= (#[trigger] fs_entries[j]).file_start_block,
        fs_entries.len() == 0 ==> spec_sum_counts(fs_entries) == 0,
        fs_entries.len() > 0 ==> sb.data_start_block + spec_sum_counts(fs_entries)
            == fs_entries.last().file_start_block + fs_entries.last().file_block_count,
        fs_entries.len() > 0 ==> sb.data_start_block + spec_sum_counts(fs_entries)
            <= sb.total_blocks,
    decreases fs_entries.len(),
{
    if fs_entries.len() > 0 {
        let head = fs_entries.drop_last();
        assert forall|i: int|
            1 <= i < head.len() implies (#[trigger] head[i]).file_start_block == head[
            i - 1
        ].file_start_block + head[i - 1].file_block_count by {
            assert(head[i] == fs_entries[i]);
            assert(head[i - 1] == fs_entries[i - 1]);
        }
        assert forall|i: int|
            0 <= i < head.len() implies (#[trigger] head[i]).file_start_block + head[
            i
        ].file_block_count <= sb.total_blocks by {
            assert(head[i] == fs_entries[i]);
        }
        if head.len() > 0 {
            assert(head[0] == fs_entries[0]);
        }
        lemma_file_regions(head, sb);
        let n = fs_entries.len() as int;
        if n >= 2 {
            assert(fs_entries.last() == fs_entries[n - 1]);
            assert(head.last() == fs_entries[n - 2]);
        }
        assert forall|i: int, j: int|
            0 <= i < j < n implies (#[trigger] fs_entries[i]).file_start_block + fs_entries[
            i
        ].file_block_count <= (#[trigger] fs_entries[j]).file_start_block by {
            if j < n - 1 {
                assert(head[i] == fs_entries[i]);
                assert(head[j] == fs_entries[j]);
            } else {
                if i < n - 2 {
                    assert(head[i].file_start_block + head[i].file_block_count <= head[
                        n - 2
                    ].file_start_block);
                }
            }
        }
    }
}

/// The block accounting of a mounted filesystem: its file regions are
/// disjoint and sum to exactly the span from `data_start_block` to the end
/// of the last region, which stays within `total_blocks`; the remainder is
/// the unused trailing blocks.
pub proof fn lemma_mounted_regions<D: BlockDevice>(fs: &SimpleFs<D>)
    requires
        fs.wf_fs(),
    ensures
        forall|i: int, j: int|
            0 <= i < j < fs.spec_entries().len() ==> (#[trigger] fs.spec_entries()[
            i]).file_start_block + fs.spec_entries()[i].file_block_count <= (
            #[trigger] fs.spec_entries()[j]).file_start_block,
        fs.spec_entries().len() == 0 ==> spec_sum_counts(fs.spec_entries()) == 0,
        fs.spec_entries().len() > 0 ==> fs.spec_superblock().data_start_block + spec_sum_counts(
            fs.spec_entries(),
        ) == fs.spec_entries().last().file_start_block
            + fs.spec_entries().last().file_block_count,
        fs.spec_entries().len() > 0 ==> fs.spec_superblock().data_start_block + spec_sum_counts(
            fs.spec_entries(),
        ) <= fs.spec_superblock().total_blocks,
{
    lemma_file_regions(fs.spec_entries(), fs.spec_superblock());
}

} // verus!
