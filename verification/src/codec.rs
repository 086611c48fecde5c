//! On-disk format of the `ERESFS1` filesystem: the superblock in block 0
//! and the packed 64-byte directory entries, all integers little-endian.

use vstd::prelude::*;

verus! {

use vstd::utf8::encode_utf8;

/// Size of one disk block / sector in bytes.
pub const BLOCK_SIZE: usize = 512;
/// Size of the fixed name field of a directory entry.
pub const DIR_ENTRY_NAME_LEN: usize = 32;
/// Size of one encoded directory entry.
pub const DIR_ENTRY_SIZE: usize = 64;
/// Format version accepted by the codec.
pub const FORMAT_VERSION: u32 = 1;

#[derive(Clone, Copy, Debug, PartialEq, Eq, Structural)]
pub enum FsError {
    InvalidMagic,
    InvalidVersion,
    InvalidBlockSize,
    InvalidData,
    NameTooLong,
}

/// The eight magic bytes `"ERESFS1\0"` that open every superblock.
pub open spec fn spec_magic() -> Seq<u8> {
    seq![0x45u8, 0x52u8, 0x45u8, 0x53u8, 0x46u8, 0x53u8, 0x31u8, 0x00u8]
}

/// Byte `k` (0 = least significant) of the little-endian encoding of `v`.
pub open spec fn u32_le_byte(v: u32, k: int) -> u8 {
    ((v >> (8 * k)) & 0xff) as u8
}

/// The four little-endian bytes of `v`.
pub open spec fn u32_le_bytes(v: u32) -> Seq<u8> {
    seq![u32_le_byte(v, 0), u32_le_byte(v, 1), u32_le_byte(v, 2), u32_le_byte(v, 3)]
}

/// The `u32` read from four little-endian bytes.
pub open spec fn u32_from_le_bytes(b: Seq<u8>) -> u32
    recommends
        b.len() == 4,
{
    ((b[0] as u32) | ((b[1] as u32) << 8) | ((b[2] as u32) << 16) | ((b[3] as u32) << 24)) as u32
}

/// Little-endian encoding and decoding of a `u32` are inverse.
pub proof fn lemma_u32_le_roundtrip(v: u32)
    ensures
        u32_from_le_bytes(u32_le_bytes(v)) == v,
{
    let b0 = u32_le_byte(v, 0);
    let b1 = u32_le_byte(v, 1);
    let b2 = u32_le_byte(v, 2);
    let b3 = u32_le_byte(v, 3);
    assert((((((v >> 0) & 0xff) as u8) as u32) | (((((v >> 8) & 0xff) as u8) as u32) << 8) | ((((
    (v >> 16) & 0xff) as u8) as u32) << 16) | (((((v >> 24) & 0xff) as u8) as u32) << 24)) == v)
        by (bit_vector);
    assert(u32_from_le_bytes(u32_le_bytes(v)) == (((b0 as u32) | ((b1 as u32) << 8) | ((b2
        as u32) << 16) | ((b3 as u32) << 24)) as u32));
}

/// Extracts the byte `k` of the little-endian encoding of `v`.
fn u32_le_byte_at(v: u32, k: u32) -> (r: u8)
    requires
        k < 4,
    ensures
        r == u32_le_byte(v, k as int),
{
    let shifted: u32 = v >> (8 * k);
    let masked: u32 = shifted & 0xff;
    proof {
        assert(shifted & 0xff < 256) by (bit_vector);
    }
    masked as u8
}

/// Reads a little-endian `u32` at `offset`.
pub fn read_u32(input: &[u8], offset: usize) -> (r: u32)
    requires
        offset + 4 <= input@.len(),
    ensures
        r == u32_from_le_bytes(input@.subrange(offset as int, offset as int + 4)),
{
    let b0: u8 = input[offset];
    let b1: u8 = input[offset + 1];
    let b2: u8 = input[offset + 2];
    let b3: u8 = input[offset + 3];
    let r: u32 = (b0 as u32) | ((b1 as u32) << 8) | ((b2 as u32) << 16) | ((b3 as u32) << 24);
    proof {
        let s = input@.subrange(offset as int, offset as int + 4);
        assert(s[0] == b0 && s[1] == b1 && s[2] == b2 && s[3] == b3);
    }
    r
}

/// Writes the little-endian bytes of `value` at `offset`, leaving the rest alone.
pub fn write_u32(out: &mut Vec<u8>, offset: usize, value: u32)
    requires
        offset + 4 <= old(out)@.len(),
    ensures
        final(out)@.len() == old(out)@.len(),
        final(out)@.subrange(offset as int, offset as int + 4) == u32_le_bytes(value),
        forall|i: int|
            0 <= i < old(out)@.len() && !(offset <= i < offset + 4) ==> final(out)@[i] == old(
                out,
            )@[i],
{
    let b0: u8 = u32_le_byte_at(value, 0);
    let b1: u8 = u32_le_byte_at(value, 1);
    let b2: u8 = u32_le_byte_at(value, 2);
    let b3: u8 = u32_le_byte_at(value, 3);
    let n: usize = out.len();
    out[offset] = b0;
    out[offset + 1] = b1;
    out[offset + 2] = b2;
    out[offset + 3] = b3;
    proof {
        assert(out@.subrange(offset as int, offset as int + 4) =~= u32_le_bytes(value));
    }
}

/// Returns a vector of `n` zero bytes.
pub fn zero_bytes(n: usize) -> (r: Vec<u8>)
    ensures
        r@ == Seq::new(n as nat, |i: int| 0u8),
{
    let mut out: Vec<u8> = Vec::new();
    let mut i: usize = 0;
    while i < n
        invariant
            i <= n,
            out@ =~= Seq::new(i as nat, |j: int| 0u8),
        decreases n - i,
    {
        out.push(0u8);
        i = i + 1;
    }
    proof {
        assert(out@ =~= Seq::new(n as nat, |i: int| 0u8));
    }
    out
}

/// Returns a vector of `n` zero words.
pub fn zero_u16(n: usize) -> (r: Vec<u16>)
    ensures
        r@ == Seq::new(n as nat, |i: int| 0u16),
{
    let mut out: Vec<u16> = Vec::new();
    let mut i: usize = 0;
    while i < n
        invariant
            i <= n,
            out@ =~= Seq::new(i as nat, |j: int| 0u16),
        decreases n - i,
    {
        out.push(0u16);
        i = i + 1;
    }
    proof {
        assert(out@ =~= Seq::new(n as nat, |i: int| 0u16));
    }
    out
}

#[derive(Clone, Copy, Debug)]
pub struct Superblock {
    pub magic: [u8; 8],
    pub version: u32,
    pub block_size: u32,
    pub total_blocks: u32,
    pub dir_entry_count: u32,
    pub dir_start_block: u32,
    pub dir_block_count: u32,
    pub data_start_block: u32,
}

impl Superblock {
    /// A superblock is valid when its identification fields hold the fixed values.
    pub open spec fn valid_spec(&self) -> bool {
        &&& self.magic@ == spec_magic()
        &&& self.version == FORMAT_VERSION
        &&& self.block_size == BLOCK_SIZE as u32
    }

    /// The 512 encoded bytes of this superblock.
    pub open spec fn spec_encode(&self) -> Seq<u8> {
        self.magic@ + u32_le_bytes(self.version) + u32_le_bytes(self.block_size) + u32_le_bytes(
            self.total_blocks,
        ) + u32_le_bytes(self.dir_entry_count) + u32_le_bytes(self.dir_start_block) + u32_le_bytes(
            self.dir_block_count,
        ) + u32_le_bytes(self.data_start_block) + Seq::new((BLOCK_SIZE - 36) as nat, |i: int| 0u8)
    }

    /// Builds the superblock for an image of `total_blocks` blocks whose
    /// directory holds `dir_entry_count` entries in `dir_block_count` blocks.
    pub fn new(total_blocks: u32, dir_entry_count: u32, dir_block_count: u32) -> (sb: Superblock)
        requires
            dir_block_count < u32::MAX,
        ensures
            sb.valid_spec(),
            sb.total_blocks == total_blocks,
            sb.dir_entry_count == dir_entry_count,
            sb.dir_start_block == 1,
            sb.dir_block_count == dir_block_count,
            sb.data_start_block == 1 + dir_block_count,
    {
        let magic: [u8; 8] = [0x45u8, 0x52u8, 0x45u8, 0x53u8, 0x46u8, 0x53u8, 0x31u8, 0x00u8];
        proof {
            assert(magic@ =~= spec_magic());
        }
        Superblock {
            magic,
            version: FORMAT_VERSION,
            block_size: BLOCK_SIZE as u32,
            total_blocks,
            dir_entry_count,
            dir_start_block: 1,
            dir_block_count,
            data_start_block: 1 + dir_block_count,
        }
    }

    /// Encodes the superblock into one 512-byte block.
    pub fn encode(&self) -> (out: Vec<u8>)
        ensures
            out@ == self.spec_encode(),
            out@.len() == BLOCK_SIZE,
    {
        let mut out: Vec<u8> = zero_bytes(BLOCK_SIZE);
        let mut i: usize = 0;
        while i < 8
            invariant
                i <= 8,
                out@.len() == BLOCK_SIZE,
                forall|j: int| 0 <= j < i ==> out@[j] == self.magic@[j],
                forall|j: int| i <= j < BLOCK_SIZE ==> out@[j] == 0u8,
            decreases 8 - i,
        {
            out[i] = self.magic[i];
            i = i + 1;
        }
        write_u32(&mut out, 8, self.version);
        write_u32(&mut out, 12, self.block_size);
        write_u32(&mut out, 16, self.total_blocks);
        write_u32(&mut out, 20, self.dir_entry_count);
        write_u32(&mut out, 24, self.dir_start_block);
        write_u32(&mut out, 28, self.dir_block_count);
        write_u32(&mut out, 32, self.data_start_block);
        proof {
            assert(out@ =~= self.spec_encode());
        }
        out
    }

    /// Decodes one 512-byte block; rejects a bad magic, version, or block size.
    pub fn decode(input: &[u8]) -> (r: Result<Superblock, FsError>)
        requires
            input@.len() == BLOCK_SIZE,
        ensures
            r.is_ok() <==> (input@.subrange(0, 8) == spec_magic() && u32_from_le_bytes(
                input@.subrange(8, 12),
            ) == FORMAT_VERSION && u32_from_le_bytes(input@.subrange(12, 16)) == BLOCK_SIZE
                as u32),
            r matches Ok(sb) ==> {
                &&& sb.valid_spec()
                &&& sb.magic@ == input@.subrange(0, 8)
                &&& sb.version == u32_from_le_bytes(input@.subrange(8, 12))
                &&& sb.block_size == u32_from_le_bytes(input@.subrange(12, 16))
                &&& sb.total_blocks == u32_from_le_bytes(input@.subrange(16, 20))
                &&& sb.dir_entry_count == u32_from_le_bytes(input@.subrange(20, 24))
                &&& sb.dir_start_block == u32_from_le_bytes(input@.subrange(24, 28))
                &&& sb.dir_block_count == u32_from_le_bytes(input@.subrange(28, 32))
                &&& sb.data_start_block == u32_from_le_bytes(input@.subrange(32, 36))
            },
    {
        let mut magic: [u8; 8] = [0u8; 8];
        let mut i: usize = 0;
        while i < 8
            invariant
                i <= 8,
                input@.len() == BLOCK_SIZE,
                forall|j: int| 0 <= j < i ==> magic@[j] == input@[j],
            decreases 8 - i,
        {
            magic[i] = input[i];
            i = i + 1;
        }
        let sb = Superblock {
            magic,
            version: read_u32(input, 8),
            block_size: read_u32(input, 12),
            total_blocks: read_u32(input, 16),
            dir_entry_count: read_u32(input, 20),
            dir_start_block: read_u32(input, 24),
            dir_block_count: read_u32(input, 28),
            data_start_block: read_u32(input, 32),
        };
        proof {
            assert(magic@ =~= input@.subrange(0, 8));
        }
        match sb.validate() {
            Ok(()) => Ok(sb),
            Err(e) => Err(e),
        }
    }

    /// Checks the identification fields, reporting the first mismatch.
    pub fn validate(&self) -> (r: Result<(), FsError>)
        ensures
            r.is_ok() <==> self.valid_spec(),
            self.magic@ != spec_magic() ==> r == Err::<(), FsError>(FsError::InvalidMagic),
            self.magic@ == spec_magic() && self.version != FORMAT_VERSION ==> r == Err::<
                (),
                FsError,
            >(FsError::InvalidVersion),
            self.magic@ == spec_magic() && self.version == FORMAT_VERSION && self.block_size
                != BLOCK_SIZE as u32 ==> r == Err::<(), FsError>(FsError::InvalidBlockSize),
    {
        let expected: [u8; 8] = [0x45u8, 0x52u8, 0x45u8, 0x53u8, 0x46u8, 0x53u8, 0x31u8, 0x00u8];
        proof {
            assert(expected@ =~= spec_magic());
        }
        let mut i: usize = 0;
        while i < 8
            invariant
                i <= 8,
                expected@ == spec_magic(),
                forall|j: int| 0 <= j < i ==> self.magic@[j] == spec_magic()[j],
            decreases 8 - i,
        {
            if self.magic[i] != expected[i] {
                return Err(FsError::InvalidMagic);
            }
            i = i + 1;
        }
        proof {
            assert(self.magic@ =~= spec_magic());
        }
        if self.version != FORMAT_VERSION {
            return Err(FsError::InvalidVersion);
        }
        if self.block_size != BLOCK_SIZE as u32 {
            return Err(FsError::InvalidBlockSize);
        }
        Ok(())
    }
}

/// Encoding a valid superblock and decoding the bytes gives the fields back.
pub proof fn lemma_superblock_roundtrip(sb: Superblock)
    requires
        sb.valid_spec(),
    ensures
        ({
            let b = sb.spec_encode();
            &&& b.len() == BLOCK_SIZE
            &&& b.subrange(0, 8) == spec_magic()
            &&& u32_from_le_bytes(b.subrange(8, 12)) == sb.version
            &&& u32_from_le_bytes(b.subrange(12, 16)) == sb.block_size
            &&& u32_from_le_bytes(b.subrange(16, 20)) == sb.total_blocks
            &&& u32_from_le_bytes(b.subrange(20, 24)) == sb.dir_entry_count
            &&& u32_from_le_bytes(b.subrange(24, 28)) == sb.dir_start_block
            &&& u32_from_le_bytes(b.subrange(28, 32)) == sb.dir_block_count
            &&& u32_from_le_bytes(b.subrange(32, 36)) == sb.data_start_block
        }),
{
    let b = sb.spec_encode();
    assert(b.subrange(0, 8) =~= sb.magic@);
    assert(b.subrange(8, 12) =~= u32_le_bytes(sb.version));
    assert(b.subrange(12, 16) =~= u32_le_bytes(sb.block_size));
    assert(b.subrange(16, 20) =~= u32_le_bytes(sb.total_blocks));
    assert(b.subrange(20, 24) =~= u32_le_bytes(sb.dir_entry_count));
    assert(b.subrange(24, 28) =~= u32_le_bytes(sb.dir_start_block));
    assert(b.subrange(28, 32) =~= u32_le_bytes(sb.dir_block_count));
    assert(b.subrange(32, 36) =~= u32_le_bytes(sb.data_start_block));
    lemma_u32_le_roundtrip(sb.version);
    lemma_u32_le_roundtrip(sb.block_size);
    lemma_u32_le_roundtrip(sb.total_blocks);
    lemma_u32_le_roundtrip(sb.dir_entry_count);
    lemma_u32_le_roundtrip(sb.dir_start_block);
    lemma_u32_le_roundtrip(sb.dir_block_count);
    lemma_u32_le_roundtrip(sb.data_start_block);
}

#[derive(Clone, Copy, Debug)]
pub struct DirEntry {
    pub name: [u8; 32],
    pub name_len: u8,
    pub file_start_block: u32,
    pub file_block_count: u32,
    pub file_size: u32,
    pub flags: u32,
}

impl DirEntry {
    /// A directory entry is well formed when its name length fits the name field.
    pub open spec fn wf(&self) -> bool {
        1 <= self.name_len <= DIR_ENTRY_NAME_LEN
    }

    /// The name bytes actually in use.
    pub open spec fn spec_name_bytes(&self) -> Seq<u8>
        recommends
            self.name_len <= DIR_ENTRY_NAME_LEN,
    {
        self.name@.subrange(0, self.name_len as int)
    }

    /// The 64 encoded bytes of this entry.
    pub open spec fn spec_encode(&self) -> Seq<u8> {
        self.name@ + seq![self.name_len] + seq![0u8, 0u8, 0u8] + u32_le_bytes(
            self.file_start_block,
        ) + u32_le_bytes(self.file_block_count) + u32_le_bytes(self.file_size) + u32_le_bytes(
            self.flags,
        ) + Seq::new(12, |i: int| 0u8)
    }

    /// Builds an entry for a file of `file_size` bytes stored in
    /// `file_block_count` blocks from `file_start_block` on. The name must
    /// encode to 1..=32 bytes.
    pub fn new(name: &str, file_start_block: u32, file_block_count: u32, file_size: u32) -> (r:
        Result<DirEntry, FsError>)
        ensures
            r.is_ok() <==> 1 <= encode_utf8(name@).len() <= DIR_ENTRY_NAME_LEN,
            r matches Err(e) ==> e == FsError::NameTooLong,
            r matches Ok(entry) ==> {
                &&& entry.wf()
                &&& entry.name_len == encode_utf8(name@).len()
                &&& entry.spec_name_bytes() == encode_utf8(name@)
                &&& forall|i: int|
                    encode_utf8(name@).len() <= i < DIR_ENTRY_NAME_LEN ==> entry.name@[i] == 0u8
                &&& entry.file_start_block == file_start_block
                &&& entry.file_block_count == file_block_count
                &&& entry.file_size == file_size
                &&& entry.flags == 0
            },
    {
        let bytes: &[u8] = name.as_bytes();
        let len: usize = bytes.len();
        if len == 0 || len > DIR_ENTRY_NAME_LEN {
            return Err(FsError::NameTooLong);
        }
        let mut out_name: [u8; 32] = [0u8; 32];
        let mut i: usize = 0;
        while i < len
            invariant
                len == bytes@.len(),
                len <= DIR_ENTRY_NAME_LEN,
                i <= len,
                out_name@.len() == DIR_ENTRY_NAME_LEN,
                forall|j: int| 0 <= j < i ==> out_name@[j] == bytes@[j],
                forall|j: int| i <= j < DIR_ENTRY_NAME_LEN ==> out_name@[j] == 0u8,
            decreases len - i,
        {
            out_name[i] = bytes[i];
            i = i + 1;
        }
        let entry = DirEntry {
            name: out_name,
            name_len: len as u8,
            file_start_block,
            file_block_count,
            file_size,
            flags: 0,
        };
        proof {
            assert(entry.spec_name_bytes() =~= encode_utf8(name@));
        }
        Ok(entry)
    }

    /// Decodes the file name from the bytes in use.
    pub fn name(&self) -> (r: Result<String, FsError>)
        ensures
            self.name_len > DIR_ENTRY_NAME_LEN ==> r == Err::<String, FsError>(FsError::InvalidData),
            self.name_len <= DIR_ENTRY_NAME_LEN ==> match r {
                Ok(s) => vstd::utf8::valid_utf8(self.spec_name_bytes()) && encode_utf8(s@)
                    == self.spec_name_bytes(),
                Err(e) => e == FsError::InvalidData && !vstd::utf8::valid_utf8(
                    self.spec_name_bytes(),
                ),
            },
    {
        let len: usize = self.name_len as usize;
        if len > DIR_ENTRY_NAME_LEN {
            return Err(FsError::InvalidData);
        }
        let mut bytes: Vec<u8> = Vec::new();
        let mut i: usize = 0;
        while i < len
            invariant
                i <= len,
                len <= DIR_ENTRY_NAME_LEN,
                self.name@.len() == DIR_ENTRY_NAME_LEN,
                bytes@ =~= self.name@.subrange(0, i as int),
            decreases len - i,
        {
            bytes.push(self.name[i]);
            i = i + 1;
        }
        proof {
            assert(bytes@ =~= self.spec_name_bytes());
        }
        match crate::text::bytes_to_string(bytes.as_slice()) {
            Some(s) => Ok(s),
            None => Err(FsError::InvalidData),
        }
    }

    /// An unused directory slot carries a zero name length.
    pub fn is_unused(&self) -> (r: bool)
        ensures
            r == (self.name_len == 0),
    {
        self.name_len == 0
    }

    /// Encodes the entry into 64 bytes.
    pub fn encode(&self) -> (out: Vec<u8>)
        ensures
            out@ == self.spec_encode(),
            out@.len() == DIR_ENTRY_SIZE,
    {
        let mut out: Vec<u8> = zero_bytes(DIR_ENTRY_SIZE);
        let mut i: usize = 0;
        while i < DIR_ENTRY_NAME_LEN
            invariant
                i <= DIR_ENTRY_NAME_LEN,
                out@.len() == DIR_ENTRY_SIZE,
                forall|j: int| 0 <= j < i ==> out@[j] == self.name@[j],
                forall|j: int| i <= j < DIR_ENTRY_SIZE ==> out@[j] == 0u8,
            decreases DIR_ENTRY_NAME_LEN - i,
        {
            out[i] = self.name[i];
            i = i + 1;
        }
        out[32] = self.name_len;
        write_u32(&mut out, 36, self.file_start_block);
        write_u32(&mut out, 40, self.file_block_count);
        write_u32(&mut out, 44, self.file_size);
        write_u32(&mut out, 48, self.flags);
        proof {
            assert(out@ =~= self.spec_encode());
        }
        out
    }

    /// Decodes 64 bytes into an entry; the byte level never fails.
    pub fn decode(input: &[u8]) -> (entry: DirEntry)
        requires
            input@.len() == DIR_ENTRY_SIZE,
        ensures
            entry.name@ == input@.subrange(0, 32),
            entry.name_len == input@[32],
            entry.file_start_block == u32_from_le_bytes(input@.subrange(36, 40)),
            entry.file_block_count == u32_from_le_bytes(input@.subrange(40, 44)),
            entry.file_size == u32_from_le_bytes(input@.subrange(44, 48)),
            entry.flags == u32_from_le_bytes(input@.subrange(48, 52)),
    {
        let mut name: [u8; 32] = [0u8; 32];
        let mut i: usize = 0;
        while i < DIR_ENTRY_NAME_LEN
            invariant
                i <= DIR_ENTRY_NAME_LEN,
                input@.len() == DIR_ENTRY_SIZE,
                forall|j: int| 0 <= j < i ==> name@[j] == input@[j],
            decreases DIR_ENTRY_NAME_LEN - i,
        {
            name[i] = input[i];
            i = i + 1;
        }
        proof {
            assert(name@ =~= input@.subrange(0, 32));
        }
        DirEntry {
            name,
            name_len: input[32],
            file_start_block: read_u32(input, 36),
            file_block_count: read_u32(input, 40),
            file_size: read_u32(input, 44),
            flags: read_u32(input, 48),
        }
    }
}

/// Encoding a well-formed entry and decoding the bytes gives the fields back.
pub proof fn lemma_dir_entry_roundtrip(entry: DirEntry)
    ensures
        ({
            let b = entry.spec_encode();
            &&& b.len() == DIR_ENTRY_SIZE
            &&& b.subrange(0, 32) == entry.name@
            &&& b[32] == entry.name_len
            &&& u32_from_le_bytes(b.subrange(36, 40)) == entry.file_start_block
            &&& u32_from_le_bytes(b.subrange(40, 44)) == entry.file_block_count
            &&& u32_from_le_bytes(b.subrange(44, 48)) == entry.file_size
            &&& u32_from_le_bytes(b.subrange(48, 52)) == entry.flags
        }),
{
    let b = entry.spec_encode();
    assert(b.subrange(0, 32) =~= entry.name@);
    assert(b.subrange(36, 40) =~= u32_le_bytes(entry.file_start_block));
    assert(b.subrange(40, 44) =~= u32_le_bytes(entry.file_block_count));
    assert(b.subrange(44, 48) =~= u32_le_bytes(entry.file_size));
    assert(b.subrange(48, 52) =~= u32_le_bytes(entry.flags));
    lemma_u32_le_roundtrip(entry.file_start_block);
    lemma_u32_le_roundtrip(entry.file_block_count);
    lemma_u32_le_roundtrip(entry.file_size);
    lemma_u32_le_roundtrip(entry.flags);
}

/// Number of whole blocks needed for `bytes` bytes.
pub open spec fn spec_blocks_for_bytes(bytes: nat) -> int {
    (bytes + (BLOCK_SIZE - 1)) / (BLOCK_SIZE as int)
}

/// Number of directory blocks needed to pack `entry_count` entries.
pub fn dir_blocks_for_entries(entry_count: usize) -> (r: u32)
    requires
        entry_count * DIR_ENTRY_SIZE <= usize::MAX,
        spec_blocks_for_bytes((entry_count * DIR_ENTRY_SIZE) as nat) <= u32::MAX,
    ensures
        r == spec_blocks_for_bytes((entry_count * DIR_ENTRY_SIZE) as nat),
{
    let bytes: usize = entry_count * DIR_ENTRY_SIZE;
    blocks_for_size(bytes)
}

/// Number of whole blocks needed for a file of `size` bytes.
pub fn blocks_for_size(size: usize) -> (r: u32)
    requires
        spec_blocks_for_bytes(size as nat) <= u32::MAX,
    ensures
        r == spec_blocks_for_bytes(size as nat),
{
    if size == 0 {
        0
    } else {
        let whole: usize = (size - 1) / BLOCK_SIZE + 1;
        proof {
            assert(whole == spec_blocks_for_bytes(size as nat));
        }
        whole as u32
    }
}

} // verus!
