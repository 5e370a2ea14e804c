use rust_os::filesystem::backends::FsBackendImpl;
use rust_os::filesystem::error::Error;
use rust_os::filesystem::path::{
    canonicalize, is_immediate_child, last_component, precedence, CanonPathString, Precedence,
};
use rust_os::filesystem::tar::{archive_listable, create_tar_fs};
use rust_os::filesystem::{FileSystem, FileType};

fn header(name: &str, size: usize, kind: u8) -> Vec<u8> {
    let mut block = vec![0u8; 512];
    block[..name.len()].copy_from_slice(name.as_bytes());
    block[100..107].copy_from_slice(b"0000644");
    let digits = format!("{:011o}", size);
    block[124..135].copy_from_slice(digits.as_bytes());
    block[156] = kind;
    block[257..262].copy_from_slice(b"ustar");
    block[263..265].copy_from_slice(b"00");
    block
}

fn archive(entries: &[(&str, &[u8], u8)]) -> Vec<u8> {
    let mut image = Vec::new();
    for (name, contents, kind) in entries {
        image.extend(header(name, contents.len(), *kind));
        image.extend_from_slice(contents);
        while image.len() % 512 != 0 {
            image.push(0);
        }
    }
    image.extend(vec![0u8; 1024]);
    image
}

fn ramdisk() -> Vec<u8> {
    archive(&[
        ("test.txt", b"Test: Hello World!\n", b'0'),
        ("dir/", b"", b'5'),
        ("dir/file2.txt", b"File 2 content\n", b'0'),
        ("dir/file1.txt", b"File 1 content\n", b'0'),
    ])
}

fn create_fs() -> FileSystem {
    match FileSystem::from_tar(ramdisk()) {
        Ok(fs) => fs,
        Err(e) => panic!("Failed to create filesystem: {}", e.as_str()),
    }
}

#[test]
fn test_file_read() {
    let mut fs = create_fs();
    let expected = "Test: Hello World!\n".as_bytes().to_vec();
    let actual = fs.read("test.txt").unwrap();
    assert_eq!(expected, actual);
}

#[test]
fn test_file_read_to_string() {
    let mut fs = create_fs();
    let expected = "Test: Hello World!\n";
    let actual = fs.read_to_string("test.txt").unwrap();
    assert_eq!(expected, actual);
}

#[test]
fn test_read_dir_root_entries() {
    let fs = create_fs();
    let entries = fs.read_dir("/").unwrap();

    let mut saw_dir = false;
    let mut saw_test_txt = false;

    for entry in entries {
        match entry.name() {
            "dir" => {
                assert_eq!(entry.file_type, FileType::Dir);
                saw_dir = true;
            }
            "test.txt" => {
                assert_eq!(entry.file_type, FileType::File);
                saw_test_txt = true;
            }
            other => panic!("Unexpected entry in root dir: {other}"),
        }
    }

    assert!(saw_dir, "Missing dir entry");
    assert!(saw_test_txt, "Missing test.txt entry");
}

#[test]
fn test_read_dir_subdir_entries() {
    let mut fs = create_fs();
    let entries = fs.read_dir("dir").unwrap();

    let mut saw_file1 = false;
    let mut saw_file2 = false;

    for entry in entries {
        match entry.name() {
            "file1.txt" => {
                assert_eq!(entry.path.as_str(), "dir/file1.txt");
                assert_eq!(entry.file_type, FileType::File);
                let content = fs.read_to_string(entry.path.as_str()).unwrap();
                assert_eq!(content, "File 1 content\n");
                saw_file1 = true;
            }
            "file2.txt" => {
                assert_eq!(entry.path.as_str(), "dir/file2.txt");
                assert_eq!(entry.file_type, FileType::File);
                let content = fs.read_to_string(entry.path.as_str()).unwrap();
                assert_eq!(content, "File 2 content\n");
                saw_file2 = true;
            }
            other => panic!("Unexpected entry in dir: {other}"),
        }
    }

    assert!(saw_file1, "Missing file1.txt entry");
    assert!(saw_file2, "Missing file2.txt entry");
}

#[test]
fn test_read_into_with_offset() {
    let mut fs = create_fs();
    let mut buffer = [0u8; 5];
    let bytes_read = fs.read_into("test.txt", 6, &mut buffer).unwrap();
    assert_eq!(bytes_read, buffer.len());
    assert_eq!(&buffer[..bytes_read], b"Hello");
}

#[test]
fn test_invalid_path_traversal() {
    let mut fs = create_fs();
    let err = fs.read("./dir/../dir/file1.txt").unwrap_err();
    assert_eq!(err, Error::InvalidPathTraversal);

    let content = fs.read_to_string("./dir/file1.txt").unwrap();
    assert_eq!(content, "File 1 content\n");
}

#[test]
fn test_read_dir_on_file_path_is_empty() {
    let fs = create_fs();
    let entries = fs.read_dir("test.txt").unwrap();
    assert!(entries.is_empty());
}

#[test]
fn test_metadata_sizes_root_entries() {
    let fs = create_fs();
    let entries = fs.read_dir("/").unwrap();

    let mut saw_dir = false;
    let mut saw_test_txt = false;

    for entry in entries {
        match entry.name() {
            "dir" => {
                assert_eq!(entry.file_type, FileType::Dir);
                assert_eq!(entry.size, 0);
                saw_dir = true;
            }
            "test.txt" => {
                assert_eq!(entry.file_type, FileType::File);
                assert_eq!(entry.size, "Test: Hello World!\n".len());
                saw_test_txt = true;
            }
            _ => {}
        }
    }

    assert!(saw_dir, "Missing dir entry");
    assert!(saw_test_txt, "Missing test.txt entry");
}

#[test]
fn test_file_not_found() {
    let mut fs = create_fs();
    let err = fs.read("missing.txt").unwrap_err();
    assert_eq!(err, Error::NotFound);
}

#[test]
fn entries_are_listed_in_the_order_of_their_paths() {
    let fs = create_fs();
    let names: Vec<String> =
        fs.read_dir("dir").unwrap().iter().map(|e| e.name().to_string()).collect();
    assert_eq!(names, vec!["file1.txt", "file2.txt"]);
    let root: Vec<String> = fs.read_dir("").unwrap().iter().map(|e| e.path.clone()).collect();
    assert_eq!(root, vec!["dir", "test.txt"]);
}

#[test]
fn later_entry_of_the_same_path_replaces_the_earlier() {
    let image = archive(&[
        ("a.txt", b"old", b'0'),
        ("b.txt", b"bee", b'0'),
        ("./a.txt", b"newer", b'0'),
    ]);
    let mut fs = FileSystem::from_tar(image).unwrap();
    assert_eq!(fs.read("a.txt").unwrap(), b"newer");
    assert_eq!(fs.read_dir("/").unwrap().len(), 2);
}

#[test]
fn reads_stop_at_the_end_of_the_archive() {
    let mut image = archive(&[("big.bin", &[7u8; 600], b'0')]);
    image.truncate(512 + 100);
    let mut fs = FileSystem::from_tar(image).unwrap();
    assert_eq!(fs.read("big.bin").unwrap(), vec![7u8; 100]);
    let mut buffer = [1u8; 8];
    assert_eq!(fs.read_into("big.bin", 96, &mut buffer), Ok(4));
    assert_eq!(buffer, [7, 7, 7, 7, 1, 1, 1, 1]);
    assert_eq!(fs.read_into("big.bin", 100, &mut buffer), Ok(0));
    assert_eq!(fs.read_into("big.bin", 5000, &mut buffer), Ok(0));
    assert_eq!(fs.read_into("big.bin", usize::MAX, &mut buffer), Err(Error::InvalidInput));
    assert_eq!(fs.read_into("nothing", 0, &mut buffer), Err(Error::NotFound));
    assert_eq!(fs.read_into("../big.bin", 0, &mut buffer), Err(Error::InvalidPathTraversal));
}

#[test]
fn archives_that_cannot_be_read_are_refused() {
    assert_eq!(FileSystem::from_tar(Vec::new()).err(), Some(Error::MountFailed));
    assert_eq!(FileSystem::from_tar(vec![0u8; 2048]).err(), Some(Error::MountFailed));
    let mut no_magic = ramdisk();
    no_magic[257] = b'U';
    assert_eq!(FileSystem::from_tar(no_magic).err(), Some(Error::MountFailed));
    let mut bad_size = ramdisk();
    bad_size[130] = b'8';
    assert!(!archive_listable(&bad_size));
    assert_eq!(FileSystem::from_tar(bad_size).err(), Some(Error::InvalidData));
    let mut spaced = ramdisk();
    spaced[135] = b' ';
    assert_eq!(FileSystem::from_tar(spaced).err(), Some(Error::InvalidData));
    let mut bad_kind = ramdisk();
    bad_kind[512 + 512 + 156] = b'7';
    assert_eq!(FileSystem::from_tar(bad_kind).err(), Some(Error::InvalidData));
    let escaping = archive(&[("ok", b"", b'0'), ("a/../b", b"", b'0')]);
    assert_eq!(FileSystem::from_tar(escaping).err(), Some(Error::InvalidPathTraversal));
    assert!(archive_listable(&ramdisk()));
    assert!(archive_listable(&Vec::new()));
}

#[test]
fn a_reader_needs_the_signature() {
    assert!(create_tar_fs(ramdisk()).is_ok());
    assert_eq!(create_tar_fs(vec![0u8; 4096]).err(), Some(Error::MountFailed));
    let mut fs = create_tar_fs(ramdisk()).unwrap();
    let names: Vec<String> = fs.list().map(|e| e.unwrap().name).collect();
    assert_eq!(names, vec!["test.txt", "dir/", "dir/file2.txt", "dir/file1.txt"]);
}

#[test]
fn devices_are_not_shown() {
    let image = archive(&[("dev/", b"", b'5'), ("dev/tty", b"", b'3'), ("dev/sda", b"", b'4')]);
    let mut fs = FileSystem::from_tar(image).unwrap();
    assert_eq!(fs.read_dir("dev").err(), Some(Error::UnexpectedFileType));
    assert_eq!(fs.read("dev/tty").err(), Some(Error::UnexpectedFileType));
    assert_eq!(fs.read_dir("/").unwrap().len(), 1);
    let links = archive(&[("hard", b"", b'1'), ("soft", b"", b'2')]);
    let fs = FileSystem::from_tar(links).unwrap();
    let kinds: Vec<FileType> = fs.read_dir("").unwrap().iter().map(|e| e.file_type).collect();
    assert_eq!(kinds, vec![FileType::HardLink, FileType::SymLink]);
}

#[test]
fn text_that_is_not_utf8_is_invalid_data() {
    let image = archive(&[("bad", &[0xff, 0xfe], b'0'), ("good", "grüß".as_bytes(), b'0')]);
    let mut fs = FileSystem::from_tar(image).unwrap();
    assert_eq!(fs.read_to_string("bad"), Err(Error::InvalidData));
    assert_eq!(fs.read_to_string("good").unwrap(), "grüß");
    assert_eq!(fs.read("bad").unwrap(), vec![0xff, 0xfe]);
}

#[test]
fn backend_answers_by_canonical_path() {
    let mut backend = FsBackendImpl::from_tar(ramdisk()).unwrap();
    let path = CanonPathString::try_from("/dir//file1.txt/").unwrap();
    assert_eq!(path.as_str(), "dir/file1.txt");
    let metadata = backend.file_metadata(&path).unwrap();
    assert_eq!(metadata.size, 15);
    assert_eq!(metadata.name(), "file1.txt");
    let mut buffer = [0u8; 4];
    assert_eq!(backend.read_into(&path, 5, &mut buffer), Ok(4));
    assert_eq!(&buffer, b"1 co");
    let root = CanonPathString::try_from(".").unwrap();
    assert_eq!(backend.read_dir(&root).unwrap().len(), 2);
    let missing = CanonPathString::try_from("nope").unwrap();
    assert_eq!(backend.file_metadata(&missing).err(), Some(Error::NotFound));
}

#[test]
fn canonical_forms() {
    for root in ["", ".", "/", "./", "//", "./.", "/./"] {
        assert_eq!(canonicalize(root), Ok(String::new()));
    }
    assert_eq!(canonicalize("a/b"), Ok("a/b".to_string()));
    assert_eq!(canonicalize("/a/b/"), Ok("a/b".to_string()));
    assert_eq!(canonicalize("././/a//./b/."), Ok("a/b".to_string()));
    assert_eq!(canonicalize("...//.a"), Ok(".../.a".to_string()));
    assert_eq!(canonicalize("ä/ö"), Ok("ä/ö".to_string()));
    assert_eq!(canonicalize(".."), Err(Error::InvalidPathTraversal));
    assert_eq!(canonicalize("a/../b"), Err(Error::InvalidPathTraversal));
    assert_eq!(canonicalize("a/b/.."), Err(Error::InvalidPathTraversal));
    assert_eq!(canonicalize("./.."), Err(Error::InvalidPathTraversal));
    assert_eq!(canonicalize("a/..b"), Ok("a/..b".to_string()));
}

#[test]
fn immediate_children() {
    assert!(is_immediate_child("", "a"));
    assert!(is_immediate_child("", "a/"));
    assert!(!is_immediate_child("", ""));
    assert!(!is_immediate_child("", "/"));
    assert!(!is_immediate_child("", "a/b"));
    assert!(is_immediate_child("a", "a/b"));
    assert!(is_immediate_child("a", "a/b//"));
    assert!(!is_immediate_child("a", "a"));
    assert!(!is_immediate_child("a", "a/"));
    assert!(!is_immediate_child("a", "a/b/c"));
    assert!(!is_immediate_child("a", "ab/c"));
    assert!(!is_immediate_child("a", "b/a"));
    assert!(is_immediate_child("a/b", "a/b/c"));
    assert!(!is_immediate_child("a/b", "a/c/c"));
}

#[test]
fn names_and_order_of_paths() {
    assert_eq!(last_component("a/b/c.txt"), "c.txt");
    assert_eq!(last_component("a/b/"), "b");
    assert_eq!(last_component("plain"), "plain");
    assert_eq!(last_component(""), "");
    assert_eq!(last_component("///"), "");
    assert_eq!(precedence("a", "b"), Precedence::Before);
    assert_eq!(precedence("b", "a"), Precedence::After);
    assert_eq!(precedence("a", "a"), Precedence::Same);
    assert_eq!(precedence("a", "a/b"), Precedence::Before);
    assert_eq!(precedence("a/b", "a"), Precedence::After);
    assert_eq!(precedence("", ""), Precedence::Same);
    assert_eq!(precedence("Z", "a"), Precedence::Before);
    assert_eq!(precedence("é", "z"), Precedence::After);
}

#[test]
fn every_error_has_its_message() {
    assert_eq!(Error::NotFound.as_str(), "entity not found");
    assert_eq!(Error::PermissionDenied.as_str(), "permission denied");
    assert_eq!(Error::ConnectionRefused.as_str(), "connection refused");
    assert_eq!(Error::ConnectionReset.as_str(), "connection reset");
    assert_eq!(Error::ConnectionAborted.as_str(), "connection aborted");
    assert_eq!(Error::NotConnected.as_str(), "not connected");
    assert_eq!(Error::AddrInUse.as_str(), "address in use");
    assert_eq!(Error::AddrNotAvailable.as_str(), "address not available");
    assert_eq!(Error::BrokenPipe.as_str(), "broken pipe");
    assert_eq!(Error::AlreadyExists.as_str(), "entity already exists");
    assert_eq!(Error::WouldBlock.as_str(), "operation would block");
    assert_eq!(Error::InvalidInput.as_str(), "invalid input parameter");
    assert_eq!(Error::InvalidData.as_str(), "invalid data");
    assert_eq!(Error::TimedOut.as_str(), "timed out");
    assert_eq!(Error::WriteZero.as_str(), "write zero");
    assert_eq!(Error::Interrupted.as_str(), "operation interrupted");
    assert_eq!(Error::Other.as_str(), "other os error");
    assert_eq!(Error::UnexpectedEof.as_str(), "unexpected end of file");
    assert_eq!(Error::Uncategorized.as_str(), "uncategorized");
    assert_eq!(Error::MountFailed.as_str(), "filesystem mount failed");
    assert_eq!(Error::UnexpectedFileType.as_str(), "unexpected filesystem entry type");
    assert_eq!(Error::InvalidPathTraversal.as_str(), "path leads out of the filesystem");
}
