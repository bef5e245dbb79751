use kstorage::hal::fs::{File as HalFile, FileSystem, FsError as HalFsError};
use kstorage::hal::io::{IoError, Read, Seek, SeekFrom};
use kstorage::vfs::mount::begins_with;
use kstorage::vfs::{FsError, MountTable, OpenFlags, Path, Vfs};

/// A file over a byte vector.
struct MemFile {
    data: Vec<u8>,
    pos: usize,
    path: String,
}

impl Read for MemFile {
    fn read(&mut self, buf: &mut [u8]) -> Result<usize, IoError> {
        let n = buf.len().min(self.data.len() - self.pos);
        buf[..n].copy_from_slice(&self.data[self.pos..self.pos + n]);
        self.pos += n;
        Ok(n)
    }
}

impl Seek for MemFile {
    fn seek(&mut self, pos: SeekFrom) -> Result<u64, IoError> {
        match pos {
            SeekFrom::Start(p) => self.pos = p as usize,
            SeekFrom::Current(d) => self.pos = (self.pos as i64 + d) as usize,
            SeekFrom::End(d) => self.pos = (self.data.len() as i64 + d) as usize,
        }
        Ok(self.pos as u64)
    }
}

impl HalFile for MemFile {
    fn size(&self) -> u64 {
        self.data.len() as u64
    }

    fn path(&self) -> &str {
        &self.path
    }
}

/// A file system holding a list of named files.
struct MemFs {
    files: Vec<(String, Vec<u8>)>,
}

impl FileSystem for MemFs {
    type Handle = MemFile;

    fn open(&self, path: &str) -> Result<MemFile, HalFsError> {
        for (name, data) in &self.files {
            if name == path {
                return Ok(MemFile { data: data.clone(), pos: 0, path: name.clone() });
            }
        }
        Err(HalFsError::NotFound)
    }

    fn path_exists(&self, path: &str) -> bool {
        self.files.iter().any(|(name, _)| name == path)
    }
}

fn mem_fs() -> MemFs {
    MemFs {
        files: vec![
            ("/hello".to_string(), b"hello world".to_vec()),
            ("/mnt/data".to_string(), b"12345".to_vec()),
        ],
    }
}

fn path(s: &str) -> Path {
    Path::new(s).unwrap()
}

#[test]
fn mount_table_picks_longest_prefix() {
    let mut t: MountTable<u32> = MountTable::new();
    assert_eq!(t.mount(1, path("/")), Ok(()));
    assert_eq!(t.mount(2, path("/mnt")), Ok(()));
    assert_eq!(t.find_mount(&path("/mnt/disk/file")), Ok(&2));
    assert_eq!(t.find_mount(&path("/etc/passwd")), Ok(&1));
    assert_eq!(t.find_mount(&path("/")), Ok(&1));
    // Mount paths are matched as text prefixes.
    assert_eq!(t.find_mount(&path("/mntx")), Ok(&2));
}

#[test]
fn mount_table_resolves_relative_paths() {
    let mut t: MountTable<u32> = MountTable::new();
    t.mount(1, path("/")).unwrap();
    t.mount(2, path("/mnt")).unwrap();
    let (fs, rel) = t.resolve(&path("/mnt/a/b")).unwrap();
    assert_eq!(*fs, 2);
    assert_eq!(rel.to_string(), "/a/b");
    let (fs, rel) = t.resolve(&path("/mnt")).unwrap();
    assert_eq!(*fs, 2);
    assert_eq!(rel.to_string(), "/");
    let (fs, rel) = t.resolve(&path("/usr/bin")).unwrap();
    assert_eq!(*fs, 1);
    assert_eq!(rel.to_string(), "usr/bin");
}

#[test]
fn mount_table_refuses_duplicates_and_unknown_unmounts() {
    let mut t: MountTable<u32> = MountTable::new();
    assert_eq!(t.find_mount(&path("/a")), Err(FsError::NotFound));
    assert!(t.resolve(&path("/a")).is_err());
    assert_eq!(t.mount(1, path("/data")), Ok(()));
    assert_eq!(t.mount(2, path("/data")), Err(FsError::MountFailed));
    assert_eq!(t.find_mount(&path("/data/x")), Ok(&1));
    assert_eq!(t.unmount(&path("/other")), Err(FsError::NotFound));
    assert_eq!(t.unmount(&path("/data")), Ok(()));
    assert_eq!(t.find_mount(&path("/data/x")), Err(FsError::NotFound));
    assert_eq!(t.mount(3, path("/data")), Ok(()));
    assert_eq!(t.find_mount(&path("/data/x")), Ok(&3));
}

#[test]
fn text_prefix_test() {
    assert!(begins_with("/mnt/a", "/mnt"));
    assert!(begins_with("/mnt", "/mnt"));
    assert!(begins_with("abc", ""));
    assert!(!begins_with("/mn", "/mnt"));
    assert!(!begins_with("/mxt/a", "/mnt"));
}

#[test]
fn vfs_opens_reads_and_closes() {
    let mut vfs: Vfs<MemFs> = Vfs::new();
    assert_eq!(vfs.open("/hello", OpenFlags::READ()), Err(FsError::NotFound));
    assert_eq!(vfs.mount(mem_fs(), path("/")), Ok(()));
    assert_eq!(vfs.mount(mem_fs(), path("/")), Err(FsError::MountFailed));
    let fd = vfs.open("/hello", OpenFlags::READ()).unwrap();
    assert_eq!(fd, 0);
    let fd2 = vfs.open("/hello", OpenFlags::READ()).unwrap();
    assert_eq!(fd2, 1);
    let mut buf = [0u8; 5];
    assert_eq!(vfs.read(fd, &mut buf), Ok(5));
    assert_eq!(&buf, b"hello");
    assert_eq!(vfs.read(fd, &mut buf), Ok(5));
    assert_eq!(&buf, b" worl");
    assert_eq!(vfs.read(fd2, &mut buf), Ok(5));
    assert_eq!(&buf, b"hello");
    assert_eq!(vfs.close(fd), Ok(()));
    assert_eq!(vfs.close(fd), Err(FsError::BadFd));
    assert_eq!(vfs.read(fd, &mut buf), Err(FsError::BadFd));
    assert_eq!(vfs.read(fd2, &mut buf), Ok(5));
    let fd3 = vfs.open("/hello", OpenFlags::READ()).unwrap();
    assert_eq!(fd3, 2);
}

#[test]
fn vfs_errors() {
    let mut vfs: Vfs<MemFs> = Vfs::new();
    vfs.mount(mem_fs(), path("/")).unwrap();
    assert_eq!(vfs.open("", OpenFlags::READ()), Err(FsError::InvalidPath));
    assert_eq!(vfs.open("/missing", OpenFlags::READ()), Err(FsError::NotFound));
    let fd = vfs.open("/mnt/data", OpenFlags::READ()).unwrap();
    assert_eq!(fd, 0);
    // Open files are read-only streams.
    assert_eq!(vfs.write(fd, b"x"), Err(FsError::IoError));
    assert_eq!(vfs.write(7, b"x"), Err(FsError::BadFd));
    assert_eq!(vfs.close(7), Err(FsError::BadFd));
}

#[test]
fn vfs_hands_the_full_path_to_the_mounted_system() {
    let mut vfs: Vfs<MemFs> = Vfs::new();
    vfs.mount(mem_fs(), path("/mnt")).unwrap();
    // The file system sees "/mnt/data", not the path below the mount.
    let fd = vfs.open("/mnt/data", OpenFlags::READ()).unwrap();
    let mut buf = [0u8; 8];
    assert_eq!(vfs.read(fd, &mut buf), Ok(5));
    assert_eq!(&buf[..5], b"12345");
    assert_eq!(vfs.open("/hello", OpenFlags::READ()), Err(FsError::NotFound));
}

#[test]
fn mounted_path_finds_its_own_system() {
    let mut t: MountTable<&str> = MountTable::new();
    t.mount("root", path("/")).unwrap();
    t.mount("a", path("/a")).unwrap();
    t.mount("ab", path("/a/b")).unwrap();
    assert_eq!(t.find_mount(&path("/")), Ok(&"root"));
    assert_eq!(t.find_mount(&path("/a")), Ok(&"a"));
    assert_eq!(t.find_mount(&path("/a/b")), Ok(&"ab"));
}
