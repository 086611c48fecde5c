use eres_os::codec::{blocks_for_size, dir_blocks_for_entries, DirEntry, FsError, Superblock};
use eres_os::imgbuild::{build_image, InputFile};
use eres_os::simplefs::SimpleFs;
use eres_os::block::{BlockDevice, BlockError};
use eres_os::vfs::{resolve_path, split_path, FileSystem, Metadata, NodeId, NodeType, VfsError};
use vstd::prelude::*;

#[test]
fn superblock_roundtrip() {
    let sb = Superblock::new(100, 3, 1);
    let buf = sb.encode();
    let parsed = Superblock::decode(&buf).expect("decode");
    assert_eq!(parsed.total_blocks, 100);
    assert_eq!(parsed.dir_entry_count, 3);
}

#[test]
fn superblock_layout_fields() {
    let sb = Superblock::new(100, 3, 1);
    let buf = sb.encode();
    let parsed = Superblock::decode(&buf).expect("decode");
    assert_eq!(parsed.total_blocks, 100);
    assert_eq!(parsed.dir_entry_count, 3);
    assert_eq!(parsed.dir_start_block, 1);
    assert_eq!(parsed.data_start_block, 2);
}

#[test]
fn superblock_rejects_corrupt_headers() {
    let sb = Superblock::new(10, 1, 1);
    let mut buf = sb.encode();
    buf[0] = b'X';
    assert!(matches!(Superblock::decode(&buf), Err(FsError::InvalidMagic)));

    let mut buf2 = sb.encode();
    buf2[8] = 9;
    assert!(matches!(Superblock::decode(&buf2), Err(FsError::InvalidVersion)));

    let mut buf3 = sb.encode();
    buf3[13] = 0;
    assert!(matches!(Superblock::decode(&buf3), Err(FsError::InvalidBlockSize)));
}

#[test]
fn dir_entry_roundtrip() {
    let entry = DirEntry::new("hello.txt", 3, 2, 700).expect("entry");
    let buf = entry.encode();
    let parsed = DirEntry::decode(&buf);
    assert_eq!(parsed.name().expect("name"), "hello.txt");
    assert_eq!(parsed.file_size, 700);
}

#[test]
fn dir_entry_rejects_bad_names() {
    assert_eq!(
        DirEntry::new("", 1, 1, 1).err(),
        Some(FsError::NameTooLong)
    );
    assert_eq!(
        DirEntry::new("a-name-that-is-much-longer-than-thirty-two-bytes", 1, 1, 1).err(),
        Some(FsError::NameTooLong)
    );
}

#[test]
fn dir_entry_name_rejects_bad_utf8() {
    let mut raw = vec![0u8; 64];
    raw[0] = 0xFF;
    raw[32] = 1;
    let entry = DirEntry::decode(&raw);
    assert_eq!(entry.name(), Err(FsError::InvalidData));
}

#[test]
fn computes_block_counts() {
    assert_eq!(dir_blocks_for_entries(8), 1);
    assert_eq!(dir_blocks_for_entries(9), 2);
    assert_eq!(blocks_for_size(0), 0);
    assert_eq!(blocks_for_size(513), 2);
}

#[test]
fn splits_absolute_path() {
    let parts = split_path("/etc/hosts").expect("split");
    assert_eq!(parts, vec!["etc".to_string(), "hosts".to_string()]);
}

#[test]
fn rejects_relative_path() {
    assert!(matches!(split_path("etc/hosts"), Err(VfsError::InvalidPath)));
}

#[test]
fn rejects_dot_segments() {
    assert!(matches!(split_path("/a/./b"), Err(VfsError::InvalidPath)));
    assert!(matches!(split_path("/../x"), Err(VfsError::InvalidPath)));
}

struct MockFs;

impl FileSystem for MockFs {
    fn wf(&self) -> bool {
        unreachable!()
    }

    fn root_spec(&self) -> NodeId {
        unreachable!()
    }

    fn lookup_spec(&self, _parent: NodeId, _name: Seq<char>) -> Result<NodeId, VfsError> {
        unreachable!()
    }

    fn metadata_spec(&self, _node: NodeId) -> Result<Metadata, VfsError> {
        unreachable!()
    }

    fn file_spec(&self, _node: NodeId) -> Seq<u8> {
        unreachable!()
    }

    fn list_spec(&self, _dir: NodeId) -> Result<Seq<(Seq<u8>, NodeId, NodeType)>, VfsError> {
        unreachable!()
    }

    fn root(&self) -> NodeId {
        NodeId(1)
    }

    fn lookup(&self, parent: NodeId, name: &str) -> Result<NodeId, VfsError> {
        match (parent.0, name) {
            (1, "etc") => Ok(NodeId(2)),
            (2, "hosts") => Ok(NodeId(3)),
            _ => Err(VfsError::NotFound),
        }
    }

    fn metadata(&self, node: NodeId) -> Result<Metadata, VfsError> {
        match node.0 {
            1 | 2 => Ok(Metadata { node_type: NodeType::Directory, size: 0 }),
            3 => Ok(Metadata { node_type: NodeType::File, size: 10 }),
            _ => Err(VfsError::NotFound),
        }
    }

    fn read(&mut self, _node: NodeId, _offset: u64, _out: &mut Vec<u8>) -> Result<usize, VfsError> {
        Ok(0)
    }

    fn list(&self, _dir: NodeId) -> Result<Vec<eres_os::vfs::DirEntry>, VfsError> {
        Ok(vec![])
    }
}

#[test]
fn resolves_existing_path() {
    let fs = MockFs;
    assert_eq!(resolve_path(&fs, "/etc/hosts"), Ok(NodeId(3)));
}

#[test]
fn resolves_root_to_root_node() {
    let fs = MockFs;
    assert_eq!(resolve_path(&fs, "/"), Ok(NodeId(1)));
}

#[test]
fn creates_dir_entry() {
    let entry = eres_os::vfs::DirEntry::new("init", NodeId(7), NodeType::File).expect("entry");
    assert_eq!(entry.name(), "init");
    assert_eq!(entry.node, NodeId(7));
}

struct MemDisk {
    sectors: Vec<Vec<u8>>,
}

impl BlockDevice for MemDisk {
    fn wf(&self) -> bool {
        unreachable!()
    }

    fn spec_sectors(&self) -> Map<u64, Seq<u8>> {
        unreachable!()
    }

    fn read_sector(&mut self, lba: u64, out: &mut Vec<u8>) -> Result<(), BlockError> {
        if out.len() != 512 {
            return Err(BlockError::InvalidBufferSize);
        }
        let s = self.sectors.get(lba as usize).ok_or(BlockError::Unsupported)?;
        out.copy_from_slice(s);
        Ok(())
    }
}

fn sectors_from_image(image: &[u8]) -> Vec<Vec<u8>> {
    assert_eq!(image.len() % 512, 0);
    image.chunks_exact(512).map(|c| c.to_vec()).collect()
}

#[test]
fn mounts_simple_image() {
    let data = b"hello";
    let dir_blocks = dir_blocks_for_entries(1);
    let total_blocks = 1 + dir_blocks + blocks_for_size(data.len());
    let sb = Superblock::new(total_blocks, 1, dir_blocks);
    let entry = DirEntry::new(
        "greet.txt",
        sb.data_start_block,
        blocks_for_size(data.len()),
        data.len() as u32,
    )
    .expect("entry");

    let mut sectors = vec![vec![0u8; 512]; total_blocks as usize];
    sectors[0] = sb.encode();
    let raw_entry = entry.encode();
    sectors[1][..64].copy_from_slice(&raw_entry);
    sectors[sb.data_start_block as usize][..data.len()].copy_from_slice(data);

    let fs = SimpleFs::mount(MemDisk { sectors }).expect("mount");
    assert_eq!(fs.entry_count(), 1);
}

#[test]
fn tool_generated_image_mounts_and_reads_file() {
    let files = vec![
        InputFile { name: "hello.txt".to_string(), data: b"hello from tool".to_vec() },
        InputFile { name: "notes.txt".to_string(), data: b"notes".to_vec() },
    ];
    let image = build_image(&files).expect("build image");
    let sectors = sectors_from_image(&image);
    let mut fs = SimpleFs::mount(MemDisk { sectors }).expect("mount");

    let node = fs.lookup(fs.root(), "hello.txt").expect("lookup file");
    let meta = fs.metadata(node).expect("metadata");
    assert_eq!(meta.size, 15);

    let mut out = vec![0u8; 32];
    let read = fs.read(node, 0, &mut out).expect("read");
    assert_eq!(&out[..read], b"hello from tool");
}

#[test]
fn build_image_rejects_bad_name() {
    let files = vec![InputFile { name: String::new(), data: b"x".to_vec() }];
    assert!(matches!(build_image(&files), Err(FsError::NameTooLong)));
}

#[test]
fn lookup_and_read_error_paths() {
    let files = vec![InputFile { name: "a.txt".to_string(), data: b"abc".to_vec() }];
    let image = build_image(&files).expect("build image");
    let sectors = sectors_from_image(&image);
    let mut fs = SimpleFs::mount(MemDisk { sectors }).expect("mount");

    let node = fs.lookup(fs.root(), "a.txt").expect("lookup");
    assert_eq!(fs.lookup(fs.root(), "missing"), Err(VfsError::NotFound));
    assert_eq!(fs.lookup(node, "a.txt"), Err(VfsError::NotDirectory));
    let mut buf = vec![0u8; 8];
    assert_eq!(fs.read(fs.root(), 0, &mut buf), Err(VfsError::NotFile));
    assert_eq!(fs.read(NodeId(9), 0, &mut buf), Err(VfsError::NotFound));
    assert_eq!(fs.read(node, 100, &mut buf), Ok(0));
}

#[test]
fn shell_commands_over_mounted_image() {
    let files = vec![
        InputFile { name: "hello.txt".to_string(), data: b"hello from tool".to_vec() },
        InputFile { name: "notes.txt".to_string(), data: b"notes".to_vec() },
    ];
    let image = build_image(&files).expect("build image");
    let sectors = sectors_from_image(&image);
    let mut fs = SimpleFs::mount(MemDisk { sectors }).expect("mount");

    assert_eq!(eres_os::shell::run_ls(&fs, "/"), b"hello.txt\nnotes.txt\n");
    assert_eq!(eres_os::shell::run_stat(&fs, "hello.txt"), b"type=file size=15\n");
    assert_eq!(eres_os::shell::run_stat(&fs, "/"), b"type=directory size=2\n");
    assert_eq!(eres_os::shell::run_cat(&mut fs, "/hello.txt"), b"hello from tool\n");
    assert_eq!(eres_os::shell::run_cat(&mut fs, "/nope"), b"path not found\n");
    assert_eq!(eres_os::shell::run_ls(&fs, "/hello.txt"), b"not a directory\n");
    assert_eq!(eres_os::shell::run_cat(&mut fs, "/"), b"not a file\n");
}

#[test]
fn mount_rejects_misplaced_file_region() {
    let files = vec![InputFile { name: "a.txt".to_string(), data: b"abc".to_vec() }];
    let image = build_image(&files).expect("build image");
    let mut sectors = sectors_from_image(&image);
    // Point the entry's start block somewhere else than where the builder
    // packed the data.
    sectors[1][36] = 9;
    assert!(matches!(
        SimpleFs::mount(MemDisk { sectors }),
        Err(VfsError::Io)
    ));
}

#[test]
fn read_of_missing_sector_is_unsupported() {
    let files = vec![InputFile { name: "a.txt".to_string(), data: b"abc".to_vec() }];
    let image = build_image(&files).expect("build image");
    let mut sectors = sectors_from_image(&image);
    sectors.pop();
    let mut fs = SimpleFs::mount(MemDisk { sectors }).expect("mount");
    let node = fs.lookup(fs.root(), "a.txt").expect("lookup");
    let mut buf = vec![0u8; 3];
    assert_eq!(fs.read(node, 0, &mut buf), Err(VfsError::Unsupported));
}

#[test]
fn cat_reassembles_a_multi_block_file() {
    let mut data = Vec::new();
    for i in 0..5000usize {
        data.push((i % 251) as u8);
    }
    let files = vec![InputFile { name: "big.bin".to_string(), data: data.clone() }];
    let image = build_image(&files).expect("build image");
    let sectors = sectors_from_image(&image);
    let mut fs = SimpleFs::mount(MemDisk { sectors }).expect("mount");

    let mut expected = data;
    expected.push(b'\n');
    assert_eq!(eres_os::shell::run_cat(&mut fs, "/big.bin"), expected);
}
