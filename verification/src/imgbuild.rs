//! Builds an `ERESFS1` disk image from named file contents: superblock,
//! packed directory, then the file data regions back to back.

use vstd::prelude::*;

verus! {

use vstd::utf8::encode_utf8;
use crate::codec::{self, spec_blocks_for_bytes, u32_from_le_bytes, zero_bytes, Superblock,
    FsError, BLOCK_SIZE, DIR_ENTRY_SIZE};

/// One input file: its directory name and its contents.
pub struct InputFile {
    pub name: String,
    pub data: Vec<u8>,
}

/// Blocks occupied by the data of `files[..n]`.
pub open spec fn spec_sum_blocks(files: Seq<InputFile>, n: int) -> int
    decreases n,
{
    if n <= 0 {
        0
    } else {
        spec_sum_blocks(files, n - 1) + spec_blocks_for_bytes(files[n - 1].data@.len())
    }
}

/// Directory blocks an image for `files` needs.
pub open spec fn spec_dir_blocks(files: Seq<InputFile>) -> int {
    spec_blocks_for_bytes((files.len() * DIR_ENTRY_SIZE) as nat)
}

/// First data block of `files[i]`.
pub open spec fn spec_file_start(files: Seq<InputFile>, i: int) -> int {
    1 + spec_dir_blocks(files) + spec_sum_blocks(files, i)
}

/// Every name encodes to between 1 and 32 bytes.
pub open spec fn spec_names_ok(files: Seq<InputFile>) -> bool {
    forall|i: int|
        0 <= i < files.len() ==> 1 <= (#[trigger] encode_utf8(files[i].name@)).len() <= 32
}

/// Directory slot `k` of `image` holds exactly the encoding of `entries[k]`.
pub open spec fn entry_slot_at(image: Seq<u8>, entries: Seq<codec::DirEntry>, k: int) -> bool {
    image.subrange(512 + k * 64, 512 + k * 64 + 64) == entries[k].spec_encode()
}

pub open spec fn slots_stored(image: Seq<u8>, entries: Seq<codec::DirEntry>, n: int) -> bool {
    forall|k: int| 0 <= k < n ==> #[trigger] entry_slot_at(image, entries, k)
}

/// The data of `files[i]` sits at its region's start in `image`.
pub open spec fn file_placed(image: Seq<u8>, files: Seq<InputFile>, i: int) -> bool {
    forall|j: int|
        0 <= j < files[i].data@.len() ==> image[spec_file_start(files, i) * 512 + j]
            == #[trigger] files[i].data@[j]
}

pub open spec fn files_placed(image: Seq<u8>, files: Seq<InputFile>, n: int) -> bool {
    forall|i: int| 0 <= i < n ==> #[trigger] file_placed(image, files, i)
}

/// Directory slot `i` of a built image describes `files[i]` exactly: its
/// name bytes, its region start and block count, and its byte size.
pub open spec fn built_slot_ok(image: Seq<u8>, files: Seq<InputFile>, i: int) -> bool {
    let slot = image.subrange(512 + i * 64, 512 + i * 64 + 64);
    &&& slot.subrange(0, 32).subrange(0, encode_utf8(files[i].name@).len() as int) == encode_utf8(
        files[i].name@,
    )
    &&& slot[32] == encode_utf8(files[i].name@).len()
    &&& u32_from_le_bytes(slot.subrange(36, 40)) == spec_file_start(files, i)
    &&& u32_from_le_bytes(slot.subrange(40, 44)) == spec_blocks_for_bytes(files[i].data@.len())
    &&& u32_from_le_bytes(slot.subrange(44, 48)) == files[i].data@.len()
}

proof fn lemma_slots_prefix(image1: Seq<u8>, image2: Seq<u8>, entries: Seq<codec::DirEntry>, n: int)
    requires
        slots_stored(image1, entries, n),
        image1.len() >= 512 + n * 64,
        image2.len() >= image1.len(),
        image2.subrange(0, image1.len() as int) == image1,
        n >= 0,
    ensures
        slots_stored(image2, entries, n),
{
    assert forall|k: int| 0 <= k < n implies #[trigger] entry_slot_at(image2, entries, k) by {
        assert(entry_slot_at(image1, entries, k));
        assert(image2.subrange(512 + k * 64, 512 + k * 64 + 64) =~= image1.subrange(
            512 + k * 64,
            512 + k * 64 + 64,
        ));
    }
}

proof fn lemma_files_prefix(image1: Seq<u8>, image2: Seq<u8>, files: Seq<InputFile>, n: int)
    requires
        files_placed(image1, files, n),
        image2.len() >= image1.len(),
        image2.subrange(0, image1.len() as int) == image1,
        n >= 0,
        forall|i: int|
            0 <= i < n ==> spec_file_start(files, i) * 512 + (#[trigger] files[i].data@).len()
                <= image1.len(),
    ensures
        files_placed(image2, files, n),
{
    assert forall|i: int| 0 <= i < n implies #[trigger] file_placed(image2, files, i) by {
        assert(file_placed(image1, files, i));
        assert forall|j: int|
            0 <= j < files[i].data@.len() implies image2[spec_file_start(files, i) * 512 + j]
            == #[trigger] files[i].data@[j] by {
            lemma_sum_blocks_nonneg(files, i);
            let p = spec_file_start(files, i) * 512 + j;
            assert(p >= 0) by (nonlinear_arith)
                requires
                    spec_file_start(files, i) >= 0,
                    j >= 0,
                    p == spec_file_start(files, i) * 512 + j,
            ;
            assert(image2.subrange(0, image1.len() as int)[p] == image1[p]);
        }
    }
}

/// Builds the image. Rejects a file whose name does not encode to 1..=32
/// bytes. The result starts with the superblock, then the packed directory,
/// then every file's data at the block position its entry names.
#[verifier::rlimit(100)]
pub fn build_image(files: &Vec<InputFile>) -> (r: Result<Vec<u8>, FsError>)
    requires
        files@.len() <= u32::MAX,
        files@.len() * DIR_ENTRY_SIZE <= usize::MAX,
        1 + spec_dir_blocks(files@) + spec_sum_blocks(files@, files@.len() as int) <= u32::MAX,
        (1 + spec_dir_blocks(files@) + spec_sum_blocks(files@, files@.len() as int)) * 512
            <= usize::MAX,
        forall|i: int| 0 <= i < files@.len() ==> (#[trigger] files@[i].data@).len() <= u32::MAX,
    ensures
        r.is_ok() <==> spec_names_ok(files@),
        r matches Err(e) ==> e == FsError::NameTooLong,
        r matches Ok(image) ==> {
            let total = 1 + spec_dir_blocks(files@) + spec_sum_blocks(
                files@,
                files@.len() as int,
            );
            &&& image@.len() == total * 512
            &&& image@.subrange(0, 8) == codec::spec_magic()
            &&& u32_from_le_bytes(image@.subrange(16, 20)) == total
            &&& u32_from_le_bytes(image@.subrange(20, 24)) == files@.len()
            &&& u32_from_le_bytes(image@.subrange(24, 28)) == 1
            &&& u32_from_le_bytes(image@.subrange(28, 32)) == spec_dir_blocks(files@)
            &&& u32_from_le_bytes(image@.subrange(32, 36)) == 1 + spec_dir_blocks(files@)
            &&& (forall|i: int|
                0 <= i < files@.len() ==> #[trigger] built_slot_ok(image@, files@, i))
            &&& files_placed(image@, files@, files@.len() as int)
        },
{
    let count: usize = files.len();
    proof {
        lemma_sum_blocks_nonneg(files@, files@.len() as int);
    }
    let dir_blocks: u32 = codec::dir_blocks_for_entries(count);
    let mut entries: Vec<codec::DirEntry> = Vec::new();
    let mut current: u32 = 1 + dir_blocks;
    let mut i: usize = 0;
    while i < count
        invariant
            count == files@.len(),
            i <= count,
            dir_blocks == spec_dir_blocks(files@),
            1 + spec_dir_blocks(files@) + spec_sum_blocks(files@, files@.len() as int)
                <= u32::MAX,
            forall|k: int|
                0 <= k < files@.len() ==> (#[trigger] files@[k].data@).len() <= u32::MAX,
            current == spec_file_start(files@, i as int),
            entries@.len() == i,
            forall|k: int|
                0 <= k < i ==> {
                    let e = #[trigger] entries@[k];
                    &&& e.spec_name_bytes() == encode_utf8(files@[k].name@)
                    &&& e.name_len == encode_utf8(files@[k].name@).len()
                    &&& e.file_start_block == spec_file_start(files@, k)
                    &&& e.file_block_count == spec_blocks_for_bytes(files@[k].data@.len())
                    &&& e.file_size == files@[k].data@.len()
                    &&& 1 <= e.name_len <= 32
                },
        decreases count - i,
    {
        proof {
            lemma_sum_blocks_bounds(files@, i as int + 1, files@.len() as int);
        }
        let blocks: u32 = codec::blocks_for_size(files[i].data.len());
        let entry: codec::DirEntry = match codec::DirEntry::new(
            files[i].name.as_str(),
            current,
            blocks,
            files[i].data.len() as u32,
        ) {
            Ok(entry) => entry,
            Err(_) => {
                proof {
                    assert(!spec_names_ok(files@));
                }
                return Err(FsError::NameTooLong);
            },
        };
        entries.push(entry);
        current = current + blocks;
        i = i + 1;
    }
    proof {
        assert forall|ii: int|
            0 <= ii < files@.len() implies 1 <= (#[trigger] encode_utf8(
            files@[ii].name@,
        )).len() <= 32 by {
            assert(1 <= entries@[ii].name_len <= 32);
        }
        assert(spec_names_ok(files@));
    }

    let sb: Superblock = Superblock::new(current, count as u32, dir_blocks);
    let mut image: Vec<u8> = sb.encode();
    let ghost sb_bytes = image@;

    let mut k: usize = 0;
    while k < count
        invariant
            count == files@.len() == entries@.len(),
            k <= count,
            count * 64 <= usize::MAX,
            image@.len() == 512 + k * 64,
            image@.subrange(0, 512) == sb_bytes,
            slots_stored(image@, entries@, k as int),
        decreases count - k,
    {
        let ghost before = image@;
        let mut enc: Vec<u8> = entries[k].encode();
        image.append(&mut enc);
        proof {
            assert(image@.subrange(0, before.len() as int) =~= before);
            assert(image@.subrange(0, 512) =~= before.subrange(0, 512));
            lemma_slots_prefix(before, image@, entries@, k as int);
            assert(image@.subrange(512 + k as int * 64, 512 + k as int * 64 + 64)
                =~= entries@[k as int].spec_encode());
            assert(entry_slot_at(image@, entries@, k as int));
        }
        k = k + 1;
    }

    proof {
        lemma_sum_blocks_nonneg(files@, files@.len() as int);
        assert(count * 64 <= spec_dir_blocks(files@) * 512) by (nonlinear_arith)
            requires
                spec_dir_blocks(files@) == (count * 64 + 511) / 512,
                count >= 0,
        ;
    }
    let dir_end: usize = 512 + (dir_blocks as usize) * 512;
    let ghost before_pad = image@;
    let mut pad: Vec<u8> = zero_bytes(dir_end - image.len());
    image.append(&mut pad);
    proof {
        assert(image@.subrange(0, before_pad.len() as int) =~= before_pad);
        assert(image@.subrange(0, 512) =~= before_pad.subrange(0, 512));
        lemma_slots_prefix(before_pad, image@, entries@, count as int);
    }

    let mut f: usize = 0;
    while f < count
        invariant
            count == files@.len() == entries@.len(),
            f <= count,
            image@.len() == spec_file_start(files@, f as int) * 512,
            image@.len() <= usize::MAX,
            (1 + spec_dir_blocks(files@) + spec_sum_blocks(files@, files@.len() as int)) * 512
                <= usize::MAX,
            image@.subrange(0, 512) == sb_bytes,
            slots_stored(image@, entries@, count as int),
            image@.len() >= 512 + count * 64,
            files_placed(image@, files@, f as int),
            forall|i2: int|
                0 <= i2 < f ==> spec_file_start(files@, i2) * 512 + (
                #[trigger] files@[i2].data@).len() <= image@.len(),
            forall|k2: int|
                0 <= k2 < files@.len() ==> (#[trigger] files@[k2].data@).len() <= u32::MAX,
        decreases count - f,
    {
        proof {
            lemma_sum_blocks_bounds(files@, f as int + 1, files@.len() as int);
            assert(files@[f as int].data@.len() <= spec_blocks_for_bytes(
                files@[f as int].data@.len(),
            ) * 512) by (nonlinear_arith)
                requires
                    spec_blocks_for_bytes(files@[f as int].data@.len()) == (files@[
                    f as int].data@.len() + 511) / 512,
            ;
            lemma_file_start_next(files@, f as int);
        }
        let ghost before_file = image@;
        let start_len: usize = image.len();
        let mut data_copy: Vec<u8> = vstd::slice::slice_to_vec(files[f].data.as_slice());
        image.append(&mut data_copy);
        let blocks: u32 = codec::blocks_for_size(files[f].data.len());
        let target: usize = start_len + (blocks as usize) * 512;
        let mut filler: Vec<u8> = zero_bytes(target - image.len());
        image.append(&mut filler);
        proof {
            assert(image@.subrange(0, before_file.len() as int) =~= before_file);
            assert(image@.subrange(0, 512) =~= before_file.subrange(0, 512));
            lemma_slots_prefix(before_file, image@, entries@, count as int);
            lemma_files_prefix(before_file, image@, files@, f as int);
            assert forall|j: int|
                0 <= j < files@[f as int].data@.len() implies image@[spec_file_start(
                files@,
                f as int,
            ) * 512 + j] == #[trigger] files@[f as int].data@[j] by {
                assert(image@[before_file.len() + j] == files@[f as int].data@[j]);
            }
            assert(file_placed(image@, files@, f as int));
        }
        f = f + 1;
    }

    proof {
        let total = 1 + spec_dir_blocks(files@) + spec_sum_blocks(files@, files@.len() as int);
        assert(image@.len() == total * 512);
        assert(sb.valid_spec());
        codec::lemma_superblock_roundtrip(sb);
        assert(image@.subrange(0, 8) =~= sb_bytes.subrange(0, 8));
        assert(image@.subrange(16, 20) =~= sb_bytes.subrange(16, 20));
        assert(image@.subrange(20, 24) =~= sb_bytes.subrange(20, 24));
        assert(image@.subrange(24, 28) =~= sb_bytes.subrange(24, 28));
        assert(image@.subrange(28, 32) =~= sb_bytes.subrange(28, 32));
        assert(image@.subrange(32, 36) =~= sb_bytes.subrange(32, 36));
        assert forall|i: int|
            0 <= i < files@.len() implies #[trigger] built_slot_ok(image@, files@, i) by {
            assert(entry_slot_at(image@, entries@, i));
            let e = entries@[i];
            codec::lemma_dir_entry_roundtrip(e);
            let slot = image@.subrange(512 + i * 64, 512 + i * 64 + 64);
            assert(slot == e.spec_encode());
            assert(slot.subrange(0, 32).subrange(0, e.name_len as int) =~= e.spec_name_bytes());
        }
    }
    Ok(image)
}

/// Partial block sums are bounded by the full sum.
proof fn lemma_sum_blocks_bounds(files: Seq<InputFile>, k: int, n: int)
    requires
        0 <= k <= n <= files.len(),
    ensures
        spec_sum_blocks(files, k) <= spec_sum_blocks(files, n),
        spec_sum_blocks(files, k) >= 0,
    decreases n - k,
{
    if k < n {
        lemma_sum_blocks_bounds(files, k + 1, n);
    }
    lemma_sum_blocks_nonneg(files, k);
}

proof fn lemma_sum_blocks_nonneg(files: Seq<InputFile>, k: int)
    ensures
        spec_sum_blocks(files, k) >= 0,
    decreases k,
{
    if k > 0 {
        lemma_sum_blocks_nonneg(files, k - 1);
    }
}

/// The next file's region starts where this one's padded region ends.
proof fn lemma_file_start_next(files: Seq<InputFile>, i: int)
    requires
        0 <= i < files.len(),
    ensures
        spec_file_start(files, i + 1) == spec_file_start(files, i) + spec_blocks_for_bytes(
            files[i].data@.len(),
        ),
{
}

} // verus!
