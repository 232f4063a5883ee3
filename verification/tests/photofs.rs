use std::collections::HashMap;

use chrono::Utc;
use photooxide::db::{CacheStore, PhotoDb, PhotoDbRo};
use photooxide::domain::{GoogleId, Inode};
use photooxide::photofs::utils::{CREATE_TIME_SECONDS, NODE_GID, NODE_PERM};
use photooxide::photofs::{
    has_video_extension, is_video, make_atr, make_atr_for, OpenFileHandles, OpenPlan, PhotoFs,
    FIXED_INODE_ALBUMS, FIXED_INODE_HELLO_WORLD, FIXED_INODE_MEDIA, FIXED_INODE_ROOT,
};
use photooxide::photolib::{RemotePhotoLibData, RemotePhotoLibError};
use photooxide::rust_filesystem::{FileType, FuseError, RustFilesystem, UniqRequest};

#[derive(Debug)]
struct TestUniqRequest {}

impl UniqRequest for TestUniqRequest {
    fn unique(&self) -> u64 {
        0
    }
    fn uid(&self) -> u32 {
        0
    }
    fn gid(&self) -> u32 {
        0
    }
    fn pid(&self) -> u32 {
        0
    }
}

#[derive(Debug)]
struct TestRemotePhotoLib {
    test_data: HashMap<String, Vec<u8>>,
    video_data: HashMap<String, Vec<u8>>,
}

impl TestRemotePhotoLib {
    fn new() -> TestRemotePhotoLib {
        TestRemotePhotoLib {
            test_data: HashMap::new(),
            video_data: HashMap::new(),
        }
    }
}

impl RemotePhotoLibData for TestRemotePhotoLib {
    fn media_item(
        &self,
        google_id: &GoogleId,
        is_video: bool,
    ) -> Result<Vec<u8>, RemotePhotoLibError> {
        let data = if is_video {
            self.video_data.get(google_id)
        } else {
            self.test_data.get(google_id)
        };
        match data {
            Some(data) => Result::Ok(data.clone()),
            None => Result::Err(RemotePhotoLibError::HttpApiError(404)),
        }
    }
}

fn new_fs() -> PhotoFs<TestRemotePhotoLib> {
    PhotoFs::new(TestRemotePhotoLib::new(), CacheStore::new())
}

#[test]
fn photofs_make_atr_test() {
    // Inode
    assert_eq!(make_atr(100, 0, FileType::RegularFile).ino, 100);

    // Size
    assert_eq!(make_atr(100, 1, FileType::RegularFile).size, 1);

    // FileType
    assert_eq!(
        make_atr(100, 1, FileType::RegularFile).kind,
        FileType::RegularFile
    );
    assert_eq!(
        make_atr(100, 1, FileType::Directory).kind,
        FileType::Directory
    );
}

#[test]
fn utils_make_atr_test() {
    // Inode
    assert_eq!(make_atr(100, 0, FileType::RegularFile).ino, 100);

    // Size
    assert_eq!(make_atr(100, 1, FileType::RegularFile).size, 1);

    // FileType
    assert_eq!(
        make_atr(100, 1, FileType::RegularFile).kind,
        FileType::RegularFile
    );
    assert_eq!(
        make_atr(100, 1, FileType::Directory).kind,
        FileType::Directory
    );
}

#[test]
fn open_file_handles_test() {
    let mut ofs: OpenFileHandles<u8> = OpenFileHandles::new();

    assert!(ofs.get(0).is_none());
    assert!(ofs.remove(0).is_none());

    assert_eq!(ofs.open(0), 0);
    assert_eq!(ofs.get(0).unwrap(), &0);

    assert_eq!(ofs.open(1), 1);
    assert_eq!(ofs.get(1).unwrap(), &1);

    assert_eq!(ofs.remove(0).unwrap(), 0);
    assert!(ofs.get(0).is_none());
    assert!(ofs.get(1).is_some());
    assert_eq!(ofs.open(0), 0);

    assert_eq!(ofs.remove(1).unwrap(), 1);
    assert!(ofs.get(0).is_some());
    assert!(ofs.get(1).is_none());
    assert_eq!(ofs.open(1), 1);

    assert_eq!(ofs.open(2), 2);
}

#[test]
fn lookup_root() {
    let mut fs = new_fs();

    {
        assert!(fs
            .lookup(&TestUniqRequest {}, FIXED_INODE_ROOT, "not_in_root")
            .is_err());
    }

    {
        let response = fs
            .lookup(&TestUniqRequest {}, FIXED_INODE_ROOT, "albums")
            .unwrap();

        assert_eq!(response.attr.ino, FIXED_INODE_ALBUMS);
        assert_eq!(response.attr.kind, FileType::Directory);
    }

    {
        let response = fs
            .lookup(&TestUniqRequest {}, FIXED_INODE_ROOT, "media")
            .unwrap();

        assert_eq!(response.attr.ino, FIXED_INODE_MEDIA);
        assert_eq!(response.attr.kind, FileType::Directory);
    }

    {
        let response = fs
            .lookup(&TestUniqRequest {}, FIXED_INODE_ROOT, "hello.txt")
            .unwrap();

        assert_eq!(response.attr.ino, FIXED_INODE_HELLO_WORLD);
        assert_eq!(response.attr.kind, FileType::RegularFile);
    }
}

#[test]
fn lookup_albums() {
    let mut fs = new_fs();

    {
        let response = fs
            .lookup(&TestUniqRequest {}, FIXED_INODE_ROOT, "albums")
            .unwrap();

        assert_eq!(response.attr.ino, FIXED_INODE_ALBUMS);
        assert_eq!(response.attr.kind, FileType::Directory);
    }

    {
        assert!(fs
            .lookup(&TestUniqRequest {}, FIXED_INODE_ALBUMS, "not_a_album")
            .is_err());
    }

    let now = Utc::now().timestamp();
    let album_inode = fs.photo_db.upsert_album("GoogleId2", "Album1", &now).unwrap();
    {
        let response = fs
            .lookup(&TestUniqRequest {}, FIXED_INODE_ALBUMS, "Album1")
            .unwrap();

        assert_eq!(response.attr.ino, album_inode);
        assert_eq!(response.attr.kind, FileType::Directory);
    }
}

#[test]
fn lookup_media_item_in_album() {
    let mut fs = new_fs();

    let now = Utc::now().timestamp();
    let media_item_inode = fs
        .photo_db
        .upsert_media_item("GoogleId1", "Photo1.jpg", &now)
        .unwrap();
    let album_inode = fs.photo_db.upsert_album("GoogleId2", "Album1", &now).unwrap();

    // Empty album
    {
        let response = fs.lookup(&TestUniqRequest {}, album_inode, "Photo1.jpg");

        assert!(response.is_err());
    }

    // Correct lookup
    fs.photo_db
        .upsert_media_item_in_album("GoogleId2", "GoogleId1")
        .unwrap();
    {
        let response = fs
            .lookup(&TestUniqRequest {}, album_inode, "Photo1.jpg")
            .unwrap();

        assert_eq!(response.attr.ino, media_item_inode);
        assert_eq!(response.attr.kind, FileType::RegularFile);
    }

    // Incorrect lookup
    {
        let response = fs.lookup(&TestUniqRequest {}, album_inode, "Photo2.jpg");

        assert!(response.is_err());
    }
}

#[test]
fn getattr_static() {
    let mut fs = new_fs();

    {
        let response = fs.getattr(&TestUniqRequest {}, FIXED_INODE_ROOT).unwrap();

        assert_eq!(response.attr.ino, FIXED_INODE_ROOT);
        assert_eq!(response.attr.kind, FileType::Directory);
        assert_eq!(response.attr.size, 4);
    }

    {
        let response = fs.getattr(&TestUniqRequest {}, FIXED_INODE_ALBUMS).unwrap();

        assert_eq!(response.attr.ino, FIXED_INODE_ALBUMS);
        assert_eq!(response.attr.kind, FileType::Directory);
        assert_eq!(response.attr.size, 0);
    }

    {
        let response = fs.getattr(&TestUniqRequest {}, FIXED_INODE_MEDIA).unwrap();

        assert_eq!(response.attr.ino, FIXED_INODE_MEDIA);
        assert_eq!(response.attr.kind, FileType::Directory);
        assert_eq!(response.attr.size, 0);
    }

    {
        let response = fs
            .getattr(&TestUniqRequest {}, FIXED_INODE_HELLO_WORLD)
            .unwrap();

        assert_eq!(response.attr.ino, FIXED_INODE_HELLO_WORLD);
        assert_eq!(response.attr.kind, FileType::RegularFile);
        assert_eq!(response.attr.size, 13);
    }
}

#[test]
fn getattr_dynamic() {
    let mut fs = new_fs();

    let now = Utc::now().timestamp();
    let media_item_inode = fs
        .photo_db
        .upsert_media_item("GoogleId1", "Photo1.jpg", &now)
        .unwrap();
    let album_inode = fs.photo_db.upsert_album("GoogleId2", "Album1", &now).unwrap();

    {
        let response = fs.getattr(&TestUniqRequest {}, media_item_inode).unwrap();

        assert_eq!(response.attr.ino, media_item_inode);
        assert_eq!(response.attr.kind, FileType::RegularFile);
        assert_eq!(response.attr.size, 1024);
    }

    {
        let response = fs.getattr(&TestUniqRequest {}, album_inode).unwrap();

        assert_eq!(response.attr.ino, album_inode);
        assert_eq!(response.attr.kind, FileType::Directory);
        assert_eq!(response.attr.size, 0);
    }

    {
        assert!(fs.getattr(&TestUniqRequest {}, album_inode + 1).is_err());
    }

    fs.photo_db
        .upsert_media_item_in_album("GoogleId2", "GoogleId1")
        .unwrap();

    {
        let response = fs.getattr(&TestUniqRequest {}, album_inode).unwrap();

        assert_eq!(response.attr.size, 1);
    }
}

#[test]
fn mod_open_read_release_hello_txt() {
    let mut fs = new_fs();

    let fh = fs
        .open(&TestUniqRequest {}, FIXED_INODE_HELLO_WORLD, 0)
        .unwrap()
        .fh;

    {
        let response = fs
            .read(&TestUniqRequest {}, FIXED_INODE_HELLO_WORLD, fh, 0, 13)
            .unwrap();

        assert_eq!(response.data, b"Hello World!\n");
    }

    assert!(fs
        .release(
            &TestUniqRequest {},
            FIXED_INODE_HELLO_WORLD,
            fh,
            0,
            0,
            false
        )
        .is_ok());
}

#[test]
fn mod_read_offset() {
    let mut fs = new_fs();

    let fh = fs
        .open(&TestUniqRequest {}, FIXED_INODE_HELLO_WORLD, 0)
        .unwrap()
        .fh;

    {
        let response = fs
            .read(&TestUniqRequest {}, FIXED_INODE_HELLO_WORLD, fh, 0, 13)
            .unwrap();
        assert_eq!(response.data, b"Hello World!\n");
    }

    {
        let response = fs
            .read(&TestUniqRequest {}, FIXED_INODE_HELLO_WORLD, fh, 1, 12)
            .unwrap();
        assert_eq!(response.data, b"ello World!\n");
    }

    {
        let response = fs
            .read(&TestUniqRequest {}, FIXED_INODE_HELLO_WORLD, fh, 12, 1)
            .unwrap();
        assert_eq!(response.data, b"\n");
    }

    // Offset past the end of the file
    {
        let response = fs
            .read(&TestUniqRequest {}, FIXED_INODE_HELLO_WORLD, fh, 13, 1)
            .unwrap();
        assert_eq!(response.data, b"");
    }
}

#[test]
fn mod_read_size() {
    let mut fs = new_fs();

    let open = fs
        .open(&TestUniqRequest {}, FIXED_INODE_HELLO_WORLD, 0)
        .unwrap();

    {
        let response = fs
            .read(&TestUniqRequest {}, FIXED_INODE_HELLO_WORLD, open.fh, 0, 13)
            .unwrap();
        assert_eq!(response.data, b"Hello World!\n");
    }

    {
        let response = fs
            .read(&TestUniqRequest {}, FIXED_INODE_HELLO_WORLD, open.fh, 0, 5)
            .unwrap();
        assert_eq!(response.data, b"Hello");
    }

    {
        let response = fs
            .read(&TestUniqRequest {}, FIXED_INODE_HELLO_WORLD, open.fh, 0, 15)
            .unwrap();
        assert_eq!(response.data, b"Hello World!\n");
        assert_eq!(open.flags, 1); // assert direct IO or the response should be zero padded
    }
}

#[test]
fn read_media_item() {
    let mut lib = TestRemotePhotoLib::new();
    lib.test_data
        .insert(String::from("GoogleId1"), vec![65, 66, 67]);
    let mut fs = PhotoFs::new(lib, CacheStore::new());

    let inode: Inode;
    {
        let now = Utc::now().timestamp();
        inode = fs
            .photo_db
            .upsert_media_item(&String::from("GoogleId1"), &String::from("Photo 1"), &now)
            .unwrap();
    }

    // read real file
    {
        let open = fs.open(&TestUniqRequest {}, inode, 0).unwrap();
        let response = fs.read(&TestUniqRequest {}, inode, open.fh, 0, 5).unwrap();
        assert_eq!(response.data, b"ABC");
    }

    // read unknown inode or fh
    {
        let open = fs.open(&TestUniqRequest {}, inode, 0).unwrap();
        assert!(fs
            .read(&TestUniqRequest {}, inode + 1, open.fh, 0, 5)
            .is_err());
        assert!(fs
            .read(&TestUniqRequest {}, inode, open.fh + 1, 0, 5)
            .is_err());
    }
}

#[test]
fn photofs_opendir_multiple_calls() {
    let mut fs = new_fs();

    let response1 = fs
        .opendir(&TestUniqRequest {}, FIXED_INODE_ROOT, 0)
        .unwrap();
    let response2 = fs
        .opendir(&TestUniqRequest {}, FIXED_INODE_ROOT, 0)
        .unwrap();

    assert_eq!(response1.fh, FIXED_INODE_ROOT);
    assert_eq!(response2.fh, FIXED_INODE_ROOT + 1);
}

#[test]
fn photofs_readdir_root() {
    let mut fs = new_fs();

    let fh = fs
        .opendir(&TestUniqRequest {}, FIXED_INODE_ROOT, 0)
        .unwrap()
        .fh;

    let response = fs
        .readdir(&TestUniqRequest {}, FIXED_INODE_ROOT, fh, 0)
        .unwrap();

    assert_eq!(response.entries.len(), 4);
    assert_eq!(response.entries[0].ino, FIXED_INODE_ROOT);
    assert_eq!(response.entries[1].ino, FIXED_INODE_ALBUMS);
    assert_eq!(response.entries[2].ino, FIXED_INODE_MEDIA);
    assert_eq!(response.entries[3].ino, FIXED_INODE_HELLO_WORLD);
}

#[test]
fn mod_readdir_root() {
    let mut fs = new_fs();

    let fh = fs
        .opendir(&TestUniqRequest {}, FIXED_INODE_ROOT, 0)
        .unwrap()
        .fh;

    let response = fs
        .readdir(&TestUniqRequest {}, FIXED_INODE_ROOT, fh, 0)
        .unwrap();

    assert_eq!(response.entries.len(), 4);
    assert_eq!(response.entries[0].ino, FIXED_INODE_ROOT);
    assert_eq!(response.entries[1].ino, FIXED_INODE_ALBUMS);
    assert_eq!(response.entries[2].ino, FIXED_INODE_MEDIA);
    assert_eq!(response.entries[3].ino, FIXED_INODE_HELLO_WORLD);
}

#[test]
fn readdir_invalid_inode_or_fh() {
    let mut fs = new_fs();

    let fh = fs
        .opendir(&TestUniqRequest {}, FIXED_INODE_ROOT, 0)
        .unwrap()
        .fh;

    {
        assert!(fs
            .readdir(&TestUniqRequest {}, FIXED_INODE_ROOT + 1, fh, 0)
            .is_err());
    }
    {
        assert!(fs
            .readdir(&TestUniqRequest {}, FIXED_INODE_ROOT, fh + 1, 0)
            .is_err());
    }
}

#[test]
fn photofs_releasedir_no_previous_opendir() {
    let mut fs = new_fs();

    assert!(fs.releasedir(&TestUniqRequest {}, 1, 0, 0).is_err());
}

#[test]
fn mod_releasedir_no_previous_opendir() {
    let mut fs = new_fs();

    assert!(fs.releasedir(&TestUniqRequest {}, 1, 0, 0).is_err());
}

#[test]
fn photofs_releasedir_from_previous_opendir() {
    let mut fs = new_fs();

    let fh = fs
        .opendir(&TestUniqRequest {}, FIXED_INODE_ROOT, 0)
        .unwrap()
        .fh;

    assert!(fs
        .releasedir(&TestUniqRequest {}, FIXED_INODE_ROOT, fh, 0)
        .is_ok());
}

#[test]
fn mod_releasedir_from_previous_opendir() {
    let mut fs = new_fs();

    let fh = fs
        .opendir(&TestUniqRequest {}, FIXED_INODE_ROOT, 0)
        .unwrap()
        .fh;

    assert!(fs
        .releasedir(&TestUniqRequest {}, FIXED_INODE_ROOT, fh, 0)
        .is_ok());
}

#[test]
fn an_album_is_found_under_its_name() {
    let mut fs = new_fs();
    let now = Utc::now().timestamp();
    let album_id = fs.photo_db.upsert_album("G1", "Album1", &now).unwrap();
    assert_eq!(album_id, 101);
    let response = fs
        .lookup(&TestUniqRequest {}, FIXED_INODE_ALBUMS, "Album1")
        .unwrap();
    assert_eq!(response.attr.ino, 101);
    assert_eq!(response.attr.kind, FileType::Directory);
    assert_eq!(response.attr.size, 0);
    assert_eq!(response.ttl.sec, 120);
    assert_eq!(response.ttl.nsec, 0);
    assert_eq!(response.generation, 0);
}

#[test]
fn an_album_shows_its_media_items_only() {
    let mut fs = new_fs();
    let now = Utc::now().timestamp();
    fs.photo_db
        .upsert_media_item("G2", "Photo1.jpg", &now)
        .unwrap();
    fs.photo_db
        .upsert_media_item("G3", "Photo2.jpg", &now)
        .unwrap();
    let album_id = fs.photo_db.upsert_album("G1", "Album1", &now).unwrap();
    fs.photo_db.upsert_media_item_in_album("G1", "G2").unwrap();

    let members = fs.photo_db.media_items_in_album(album_id).unwrap();
    assert_eq!(members.len(), 1);
    assert_eq!(members[0].name, "Photo1.jpg");

    assert!(fs
        .lookup(&TestUniqRequest {}, album_id, "Photo1.jpg")
        .is_ok());
    assert_eq!(
        fs.lookup(&TestUniqRequest {}, album_id, "Photo2.jpg").err(),
        Some(FuseError::FunctionNotImplemented)
    );
    // the other photo is in the library all the same
    assert!(fs
        .lookup(&TestUniqRequest {}, FIXED_INODE_MEDIA, "Photo2.jpg")
        .is_ok());
    // a media item is no directory
    assert!(fs
        .lookup(&TestUniqRequest {}, 101, "Photo1.jpg")
        .is_err());
    assert!(fs
        .lookup(&TestUniqRequest {}, FIXED_INODE_HELLO_WORLD, "Photo1.jpg")
        .is_err());
}

#[test]
fn a_handle_lives_from_open_to_release() {
    let mut fs = new_fs();
    let req = TestUniqRequest {};
    let opened = fs.open(&req, FIXED_INODE_HELLO_WORLD, 0).unwrap();
    assert_eq!(opened.fh, FIXED_INODE_HELLO_WORLD);
    assert_eq!(opened.flags, 1);
    assert_eq!(
        fs.read(&req, FIXED_INODE_HELLO_WORLD, opened.fh, 0, 13)
            .unwrap()
            .data,
        b"Hello World!\n"
    );
    assert_eq!(
        fs.read(&req, FIXED_INODE_HELLO_WORLD, opened.fh, 13, 1)
            .unwrap()
            .data,
        b""
    );
    assert_eq!(
        fs.read(&req, FIXED_INODE_HELLO_WORLD, opened.fh, -1, 1)
            .unwrap()
            .data,
        b""
    );
    assert_eq!(
        fs.read(&req, FIXED_INODE_HELLO_WORLD, opened.fh, 12, u32::MAX)
            .unwrap()
            .data,
        b"\n"
    );
    // the handle belongs to the file it was opened for
    assert!(fs.read(&req, FIXED_INODE_ROOT, opened.fh, 0, 13).is_err());
    assert!(fs
        .release(&req, FIXED_INODE_HELLO_WORLD, opened.fh, 0, 0, false)
        .is_ok());
    assert!(fs
        .release(&req, FIXED_INODE_HELLO_WORLD, opened.fh, 0, 0, false)
        .is_err());
    assert!(fs
        .read(&req, FIXED_INODE_HELLO_WORLD, opened.fh, 0, 13)
        .is_err());
}

#[test]
fn handles_are_probed_from_the_inode_upward() {
    let mut fs = new_fs();
    let req = TestUniqRequest {};
    let first = fs.open(&req, FIXED_INODE_HELLO_WORLD, 0).unwrap().fh;
    let second = fs.open(&req, FIXED_INODE_HELLO_WORLD, 0).unwrap().fh;
    let third = fs.open(&req, FIXED_INODE_HELLO_WORLD, 0).unwrap().fh;
    assert_eq!((first, second, third), (4, 5, 6));
    fs.release(&req, FIXED_INODE_HELLO_WORLD, second, 0, 0, false)
        .unwrap();
    assert_eq!(fs.open(&req, FIXED_INODE_HELLO_WORLD, 0).unwrap().fh, 5);
    // file handles and directory handles are counted apart
    assert_eq!(fs.opendir(&req, FIXED_INODE_MEDIA, 0).unwrap().fh, 3);
    assert_eq!(fs.opendir(&req, FIXED_INODE_ALBUMS, 0).unwrap().fh, 2);
    assert_eq!(fs.opendir(&req, FIXED_INODE_ALBUMS, 0).unwrap().fh, 4);
}

#[test]
fn the_lowest_free_handle_is_opened() {
    let mut handles: OpenFileHandles<&str> = OpenFileHandles::new();
    assert_eq!(handles.open_at(7, "a"), Some(7));
    assert_eq!(handles.open_at(7, "b"), Some(8));
    assert_eq!(handles.open_at(6, "c"), Some(6));
    assert_eq!(handles.open_at(6, "d"), Some(9));
    assert_eq!(handles.open("e"), 0);
    assert_eq!(handles.open_at(u64::MAX, "f"), Some(u64::MAX));
    assert_eq!(handles.open_at(u64::MAX, "g"), None);
    assert_eq!(handles.get(9), Some(&"d"));
    assert_eq!(handles.remove(7), Some("a"));
    assert_eq!(handles.get(7), None);
    assert_eq!(handles.open_at(1, "h"), Some(1));
    assert_eq!(handles.open_at(6, "i"), Some(7));
}

#[test]
fn open_fails_for_what_is_no_file() {
    let mut fs = new_fs();
    let req = TestUniqRequest {};
    let now = Utc::now().timestamp();
    let album = fs.photo_db.upsert_album("A", "Album", &now).unwrap();
    let missing = fs.photo_db.upsert_media_item("M", "m.jpg", &now).unwrap();
    assert!(fs.open(&req, FIXED_INODE_ROOT, 0).is_err());
    assert!(fs.open(&req, album, 0).is_err());
    assert!(fs.open(&req, 4711, 0).is_err());
    // the remote library does not have the content
    assert_eq!(
        fs.open(&req, missing, 0).err(),
        Some(FuseError::FunctionNotImplemented)
    );
    assert_eq!(
        fs.finish_open(missing, Err(RemotePhotoLibError::IoError(String::from("cut"))))
            .err(),
        Some(FuseError::FunctionNotImplemented)
    );
    let opened = fs.finish_open(missing, Ok(vec![1, 2, 3])).unwrap();
    assert_eq!(opened.fh, missing);
    assert_eq!(fs.read(&req, missing, opened.fh, 1, 1).unwrap().data, [2]);
}

#[test]
fn a_plan_says_what_opening_takes() {
    let mut fs = new_fs();
    let video = fs.photo_db.upsert_media_item("V", "Clip.MP4", &1).unwrap();
    let photo = fs.photo_db.upsert_media_item("P", "p.jpeg", &1).unwrap();
    let album = fs.photo_db.upsert_album("A", "Album.avi", &1).unwrap();
    match fs.plan_open(FIXED_INODE_HELLO_WORLD) {
        Ok(OpenPlan::Content(data)) => assert_eq!(data, b"Hello World!\n"),
        other => panic!("{:?}", other),
    }
    match fs.plan_open(video) {
        Ok(OpenPlan::Fetch {
            google_id,
            is_video,
        }) => {
            assert_eq!(google_id, "V");
            assert!(is_video);
        }
        other => panic!("{:?}", other),
    }
    match fs.plan_open(photo) {
        Ok(OpenPlan::Fetch {
            google_id,
            is_video,
        }) => {
            assert_eq!(google_id, "P");
            assert!(!is_video);
        }
        other => panic!("{:?}", other),
    }
    assert!(fs.plan_open(album).is_err());
    assert!(fs.plan_open(FIXED_INODE_ROOT).is_err());
    assert!(fs.plan_open(999).is_err());
}

#[test]
fn videos_are_fetched_as_videos() {
    let mut lib = TestRemotePhotoLib::new();
    lib.video_data.insert(String::from("V"), vec![1]);
    lib.test_data.insert(String::from("V"), vec![2]);
    lib.video_data.insert(String::from("P"), vec![3]);
    lib.test_data.insert(String::from("P"), vec![4]);
    let mut fs = PhotoFs::new(lib, CacheStore::new());
    let req = TestUniqRequest {};
    let video = fs.photo_db.upsert_media_item("V", "Clip.MP4", &1).unwrap();
    let photo = fs.photo_db.upsert_media_item("P", "mp4.JPG", &1).unwrap();
    let fh = fs.open(&req, video, 0).unwrap().fh;
    assert_eq!(fs.read(&req, video, fh, 0, 10).unwrap().data, [1]);
    let fh = fs.open(&req, photo, 0).unwrap().fh;
    assert_eq!(fs.read(&req, photo, fh, 0, 10).unwrap().data, [4]);
}

#[test]
fn video_names_end_in_a_video_extension() {
    assert!(is_video("a.mp4"));
    assert!(is_video("A.MP4"));
    assert!(is_video("holiday.Mts"));
    assert!(is_video("old.AVI"));
    assert!(is_video(".avi"));
    assert!(!is_video("avi"));
    assert!(!is_video("a.mp4.jpg"));
    assert!(!is_video("a.jpg"));
    assert!(!is_video(""));
    assert!(has_video_extension("a.mp4"));
    assert!(has_video_extension("a.mts"));
    assert!(has_video_extension("a.avi"));
    assert!(!has_video_extension("A.MP4"));
    assert!(!has_video_extension("mp4.a"));
}

#[test]
fn attributes_are_those_of_a_read_only_node() {
    let attr = make_atr_for(1000, 7, 3, FileType::Directory);
    assert_eq!(attr.ino, 7);
    assert_eq!(attr.size, 3);
    assert_eq!(attr.blocks, 1);
    assert_eq!(attr.atime.sec, 1_381_237_736);
    assert_eq!(attr.atime.nsec, 0);
    assert_eq!(attr.mtime, attr.atime);
    assert_eq!(attr.ctime, attr.atime);
    assert_eq!(attr.crtime, attr.atime);
    assert_eq!(attr.kind, FileType::Directory);
    assert_eq!(attr.perm, 0o644);
    assert_eq!(attr.nlink, 1);
    assert_eq!(attr.uid, 1000);
    assert_eq!(attr.gid, 20);
    assert_eq!(attr.rdev, 0);
    assert_eq!(attr.flags, 0);
    assert_eq!(CREATE_TIME_SECONDS, 1_381_237_736);
    assert_eq!(NODE_GID, 20);
    assert_eq!(NODE_PERM, 0o644);
}

#[test]
fn nodes_belong_to_the_user_of_the_process() {
    let attr = make_atr(7, 3, FileType::RegularFile);
    assert_eq!(attr.uid, users::get_current_uid());
    assert_eq!(attr, make_atr_for(attr.uid, 7, 3, FileType::RegularFile));
}

fn names(
    fs: &mut PhotoFs<TestRemotePhotoLib>,
    ino: u64,
    fh: u64,
    offset: i64,
) -> Vec<(u64, i64, FileType, String)> {
    fs.readdir(&TestUniqRequest {}, ino, fh, offset)
        .unwrap()
        .entries
        .iter()
        .map(|entry| (entry.ino, entry.offset, entry.kind, String::from(entry.name)))
        .collect()
}

#[test]
fn the_root_lists_its_fixed_entries() {
    let mut fs = new_fs();
    let fh = fs
        .opendir(&TestUniqRequest {}, FIXED_INODE_ROOT, 0)
        .unwrap()
        .fh;
    assert_eq!(
        names(&mut fs, FIXED_INODE_ROOT, fh, 0),
        vec![
            (1, 1, FileType::Directory, String::from(".")),
            (2, 2, FileType::Directory, String::from("albums")),
            (3, 3, FileType::Directory, String::from("media")),
            (4, 4, FileType::RegularFile, String::from("hello.txt")),
        ]
    );
}

#[test]
fn a_listing_resumes_after_an_offset() {
    let mut fs = new_fs();
    let fh = fs
        .opendir(&TestUniqRequest {}, FIXED_INODE_ROOT, 0)
        .unwrap()
        .fh;
    let all = names(&mut fs, FIXED_INODE_ROOT, fh, 0);
    assert_eq!(names(&mut fs, FIXED_INODE_ROOT, fh, 1), all[1..].to_vec());
    assert_eq!(names(&mut fs, FIXED_INODE_ROOT, fh, 2), all[2..].to_vec());
    assert_eq!(names(&mut fs, FIXED_INODE_ROOT, fh, 3), all[3..].to_vec());
    assert_eq!(names(&mut fs, FIXED_INODE_ROOT, fh, 4), vec![]);
    assert_eq!(names(&mut fs, FIXED_INODE_ROOT, fh, 5), vec![]);
    assert_eq!(names(&mut fs, FIXED_INODE_ROOT, fh, i64::MAX), vec![]);
    assert_eq!(names(&mut fs, FIXED_INODE_ROOT, fh, -1), all);
    assert_eq!(names(&mut fs, FIXED_INODE_ROOT, fh, i64::MIN), all);
}

#[test]
fn directories_show_each_name_once() {
    let mut fs = new_fs();
    let req = TestUniqRequest {};
    fs.photo_db.upsert_media_item("c", "same.jpg", &1).unwrap();
    fs.photo_db.upsert_media_item("b", "other.jpg", &1).unwrap();
    fs.photo_db.upsert_media_item("a", "same.jpg", &1).unwrap();
    fs.photo_db.upsert_album("z", "Album", &1).unwrap();
    fs.photo_db.upsert_album("y", "Album", &1).unwrap();
    fs.photo_db.upsert_media_item_in_album("z", "c").unwrap();
    fs.photo_db.upsert_media_item_in_album("z", "b").unwrap();

    let media = fs.opendir(&req, FIXED_INODE_MEDIA, 0).unwrap().fh;
    assert_eq!(
        names(&mut fs, FIXED_INODE_MEDIA, media, 0),
        vec![
            (3, 1, FileType::Directory, String::from(".")),
            (1, 2, FileType::Directory, String::from("..")),
            (103, 3, FileType::RegularFile, String::from("same.jpg")),
            (102, 4, FileType::RegularFile, String::from("other.jpg")),
        ]
    );
    let albums = fs.opendir(&req, FIXED_INODE_ALBUMS, 0).unwrap().fh;
    assert_eq!(
        names(&mut fs, FIXED_INODE_ALBUMS, albums, 0),
        vec![
            (2, 1, FileType::Directory, String::from(".")),
            (1, 2, FileType::Directory, String::from("..")),
            (105, 3, FileType::Directory, String::from("Album")),
        ]
    );
    let album = fs.opendir(&req, 104, 0).unwrap().fh;
    assert_eq!(album, 104);
    assert_eq!(
        names(&mut fs, 104, album, 0),
        vec![
            (104, 1, FileType::Directory, String::from(".")),
            (2, 2, FileType::Directory, String::from("..")),
            (102, 3, FileType::RegularFile, String::from("other.jpg")),
            (101, 4, FileType::RegularFile, String::from("same.jpg")),
        ]
    );
    // what a lookup finds is what the listing shows
    assert_eq!(
        fs.lookup(&req, FIXED_INODE_MEDIA, "same.jpg")
            .unwrap()
            .attr
            .ino,
        103
    );
    assert_eq!(
        fs.lookup(&req, FIXED_INODE_ALBUMS, "Album").unwrap().attr.ino,
        105
    );
}

#[test]
fn a_listing_is_the_one_of_the_opening() {
    let mut fs = new_fs();
    let req = TestUniqRequest {};
    let fh = fs.opendir(&req, FIXED_INODE_MEDIA, 0).unwrap().fh;
    fs.photo_db.upsert_media_item("a", "late.jpg", &1).unwrap();
    assert_eq!(names(&mut fs, FIXED_INODE_MEDIA, fh, 0).len(), 2);
    let fresh = fs.opendir(&req, FIXED_INODE_MEDIA, 0).unwrap().fh;
    assert_eq!(names(&mut fs, FIXED_INODE_MEDIA, fresh, 0).len(), 3);
    assert!(fs.releasedir(&req, FIXED_INODE_MEDIA, fh, 0).is_ok());
    assert!(fs.releasedir(&req, FIXED_INODE_MEDIA, fh, 0).is_err());
    assert!(fs.readdir(&req, FIXED_INODE_MEDIA, fh, 0).is_err());
}

#[test]
fn opendir_fails_for_what_is_no_directory() {
    let mut fs = new_fs();
    let req = TestUniqRequest {};
    let item = fs.photo_db.upsert_media_item("a", "a.jpg", &1).unwrap();
    assert_eq!(
        fs.opendir(&req, FIXED_INODE_HELLO_WORLD, 0).err(),
        Some(FuseError::FunctionNotImplemented)
    );
    assert!(fs.opendir(&req, item, 0).is_err());
    assert!(fs.opendir(&req, 4711, 0).is_err());
}
