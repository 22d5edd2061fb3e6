use watch_uploader::classify::{content_type, is_eligible, is_image, is_valid_size, FileRecord};
use watch_uploader::identity::{IdentityCache, UploadIdentity};
use watch_uploader::scan::{EntryKind, WalkEntry};
use watch_uploader::tags::TagMap;
use watch_uploader::upload::{
    compose_metadata, make_object_key, PutRequest, S3Client, Transfer, UploadError, UploadOutcome,
    UploadPlan,
};

fn file(path: &str, extension: &str, size: Option<u64>, created: Option<u64>) -> FileRecord {
    FileRecord {
        path: path.to_string(),
        extension: extension.to_string(),
        size,
        creation_time: created,
    }
}

fn tags(pairs: &[(&str, &str)]) -> TagMap {
    let mut map = TagMap::new();
    for (name, value) in pairs {
        map.insert(name.to_string(), value.to_string());
    }
    map
}

fn put(plan: Result<UploadPlan, UploadError>) -> PutRequest {
    match plan {
        Ok(UploadPlan::Put(request)) => request,
        Ok(UploadPlan::Skipped) => panic!("skipped"),
        Err(error) => panic!("error {:?}", error),
    }
}

fn is_hyphenated_uuid(text: &str) -> bool {
    text.len() == 36
        && text.char_indices().all(|(i, c)| match i {
            8 | 13 | 18 | 23 => c == '-',
            _ => c.is_ascii_digit() || ('a'..='f').contains(&c),
        })
}

#[test]
fn images_are_known_by_extension() {
    assert!(is_image("jpg"));
    assert!(is_image("jpeg"));
    assert!(is_image("png"));
    assert!(is_image("gif"));
    assert!(is_image("JPG"));
    assert!(is_image("Png"));
    assert!(is_image("webp"));
    assert!(!is_image("txt"));
    assert!(!is_image(""));
    assert!(!is_image("jpg "));
    assert!(!is_image(".jpg"));
}

#[test]
fn size_bounds_count_both_ends_in() {
    assert!(is_valid_size(Some(1000), 1000, 5000));
    assert!(is_valid_size(Some(5000), 1000, 5000));
    assert!(is_valid_size(Some(3000), 1000, 5000));
    assert!(!is_valid_size(Some(999), 1000, 5000));
    assert!(!is_valid_size(Some(5001), 1000, 5000));
    assert!(!is_valid_size(None, 0, u64::MAX));
    assert!(is_valid_size(Some(0), 0, 0));
    assert!(!is_valid_size(Some(5), 10, 1));
}

#[test]
fn eligible_is_image_and_size() {
    assert!(is_eligible(&file("/a/p.jpg", "jpg", Some(2000), None), 1000, 5000));
    assert!(!is_eligible(&file("/a/p.jpg", "jpg", Some(200), None), 1000, 5000));
    assert!(!is_eligible(&file("/a/p.txt", "txt", Some(2000), None), 1000, 5000));
    assert!(!is_eligible(&file("/a/p.jpg", "jpg", None, Some(1)), 1000, 5000));
    assert!(!is_eligible(&file("/a/p", "", Some(2000), Some(1)), 1000, 5000));
}

#[test]
fn content_type_table() {
    assert_eq!(content_type("jpg"), "image/jpeg");
    assert_eq!(content_type("jpeg"), "image/jpeg");
    assert_eq!(content_type("png"), "image/png");
    assert_eq!(content_type("gif"), "image/gif");
    assert_eq!(content_type("webp"), "application/octet-stream");
    assert_eq!(content_type("JPG"), "application/octet-stream");
    assert_eq!(content_type(""), "application/octet-stream");
}

#[test]
fn the_two_tables_disagree_at_the_edges() {
    assert!(is_image("PNG"));
    assert_eq!(content_type("PNG"), "application/octet-stream");
    assert!(is_image("bmp"));
    assert_eq!(content_type("bmp"), "application/octet-stream");
}

#[test]
fn identity_text_is_hyphenated_lower_hex() {
    let identity = UploadIdentity { value: 0xa1a2a3a4b1b2c1c2d1d2d3d4d5d6d7d8 };
    assert_eq!(identity.to_text(), "a1a2a3a4-b1b2-c1c2-d1d2-d3d4d5d6d7d8");
    let small = UploadIdentity { value: 0x1f };
    assert_eq!(small.to_text(), "00000000-0000-0000-0000-00000000001f");
    let all = UploadIdentity { value: u128::MAX };
    assert_eq!(all.to_text(), "ffffffff-ffff-ffff-ffff-ffffffffffff");
}

#[test]
fn identity_holds_the_creation_time() {
    let mut cache = IdentityCache::new();
    let identity = cache.identity_for("/data/a.jpg", 1_497_624_119);
    assert_eq!(identity.time_millis(), 1_497_624_119_000);
    assert_eq!(identity.value >> 80, 1_497_624_119_000);
    assert_eq!((identity.value >> 76) & 0xf, 7);
    assert_eq!((identity.value >> 62) & 0x3, 2);
    assert!(identity.to_text().starts_with("015cb15a-86d8-7"));
}

#[test]
fn identity_time_field_keeps_the_lower_48_bits() {
    let mut cache = IdentityCache::new();
    let seconds: u64 = 1 << 40;
    let identity = cache.identity_for("/far/future.jpg", seconds);
    assert_eq!(identity.time_millis(), (seconds * 1000) % (1 << 48));
    let largest = cache.identity_for("/end/of/time.jpg", u64::MAX);
    assert_eq!(largest.time_millis(), u64::MAX % (1 << 48));
}

#[test]
fn identity_is_stable_for_a_path() {
    let mut cache = IdentityCache::new();
    assert_eq!(cache.get("/data/a.jpg"), None);
    let first = cache.identity_for("/data/a.jpg", 1_700_000_000);
    let second = cache.identity_for("/data/a.jpg", 1);
    let third = cache.identity_for("/data/a.jpg", 1_700_000_000);
    assert_eq!(first, second);
    assert_eq!(first, third);
    assert_eq!(cache.get("/data/a.jpg"), Some(first));
}

#[test]
fn identities_differ_between_paths() {
    let mut cache = IdentityCache::new();
    let a = cache.identity_for("/data/a.jpg", 1_700_000_000);
    let b = cache.identity_for("/data/b.jpg", 1_700_000_000);
    assert_ne!(a, b);
    assert_eq!(cache.identity_for("/data/a.jpg", 5), a);
    assert_eq!(cache.identity_for("/data/b.jpg", 5), b);
}

#[test]
fn identities_sort_by_creation_second() {
    let mut cache = IdentityCache::new();
    let early = cache.identity_for("/data/early.jpg", 1_600_000_000);
    let late = cache.identity_for("/data/late.jpg", 1_600_000_001);
    assert!(early.value < late.value);
    assert!(early.to_text() < late.to_text());
}

#[test]
fn assign_keeps_what_a_path_has() {
    let mut cache = IdentityCache::new();
    let one = UploadIdentity { value: 1 };
    let two = UploadIdentity { value: 2 };
    assert_eq!(cache.assign("/p", one), one);
    assert_eq!(cache.assign("/p", two), one);
    assert_eq!(cache.assign("/q", two), two);
    assert_eq!(cache.get("/p"), Some(one));
    assert_eq!(cache.get("/q"), Some(two));
    assert_eq!(cache.get("/r"), None);
}

#[test]
fn object_key_is_identity_dot_extension() {
    let identity = UploadIdentity { value: 0xa1a2a3a4b1b2c1c2d1d2d3d4d5d6d7d8 };
    assert_eq!(make_object_key(identity, "jpg"), "a1a2a3a4-b1b2-c1c2-d1d2-d3d4d5d6d7d8.jpg");
    assert_eq!(make_object_key(identity, ""), "a1a2a3a4-b1b2-c1c2-d1d2-d3d4d5d6d7d8.");
}

#[test]
fn tag_map_behaves_as_a_map() {
    let mut map = TagMap::new();
    assert_eq!(map.len(), 0);
    assert_eq!(map.get("a"), None);
    assert!(!map.contains_key("a"));
    map.insert("a".to_string(), "1".to_string());
    map.insert("b".to_string(), "2".to_string());
    assert_eq!(map.get("a"), Some("1"));
    assert_eq!(map.get("b"), Some("2"));
    assert!(map.contains_key("a"));
    map.insert("a".to_string(), "3".to_string());
    assert_eq!(map.get("a"), Some("3"));
    assert_eq!(map.len(), 2);
    assert_eq!(
        map.entries(),
        vec![("a".to_string(), "3".to_string()), ("b".to_string(), "2".to_string())]
    );
}

#[test]
fn overlay_prefers_the_other_map() {
    let mut base = tags(&[("a", "1"), ("b", "2")]);
    let over = tags(&[("b", "x"), ("c", "y")]);
    base.overlay(&over);
    assert_eq!(base.get("a"), Some("1"));
    assert_eq!(base.get("b"), Some("x"));
    assert_eq!(base.get("c"), Some("y"));
    assert_eq!(base.len(), 3);
    assert_eq!(over.len(), 2);
}

#[test]
fn metadata_holds_the_dir_tag() {
    let metadata = compose_metadata("cam1", &TagMap::new());
    assert_eq!(metadata.len(), 1);
    assert_eq!(metadata.get("dir-tag"), Some("cam1"));
    let empty = compose_metadata("", &tags(&[("season", "fall")]));
    assert_eq!(empty.get("dir-tag"), Some(""));
    assert_eq!(empty.get("season"), Some("fall"));
    assert_eq!(empty.len(), 2);
}

#[test]
fn common_tag_named_dir_tag_replaces_the_dir_tag() {
    let common = tags(&[("dir-tag", "blue"), ("season", "fall")]);
    let mut client = S3Client::new("bucket", 5_000_000, 1000);
    let request =
        put(client.upload_file(&file("/d/p.jpg", "jpg", Some(2000), Some(1)), "red", &common));
    assert_eq!(request.metadata.len(), 2);
    assert_eq!(request.metadata.get("dir-tag"), Some("blue"));
    assert_eq!(request.metadata.get("season"), Some("fall"));
    let direct = compose_metadata("red", &common);
    assert_eq!(direct.get("dir-tag"), Some("blue"));
    assert_eq!(direct.get("season"), Some("fall"));
    assert_eq!(direct.len(), 2);
}

#[test]
fn sizes_out_of_bounds_are_skipped() {
    let mut client = S3Client::new("bucket", 5000, 1000);
    let common = TagMap::new();
    for size in [0, 1, 999, 5001, u64::MAX] {
        let plan = client.upload_file(&file("/d/p.jpg", "jpg", Some(size), Some(1)), "t", &common);
        assert!(matches!(plan, Ok(UploadPlan::Skipped)));
        assert_eq!(client.identity_of("/d/p.jpg"), None);
        assert_eq!(plan.unwrap().finish(Transfer::Stored), Ok(UploadOutcome::Skipped));
    }
    for size in [1000, 1001, 4999, 5000] {
        let plan = client.upload_file(&file("/d/p.jpg", "jpg", Some(size), Some(1)), "t", &common);
        assert!(matches!(plan, Ok(UploadPlan::Put(_))));
    }
}

#[test]
fn unreadable_metadata_is_an_error() {
    let mut client = S3Client::new("bucket", 5000, 1000);
    let plan = client.upload_file(&file("/d/p.jpg", "jpg", None, Some(1)), "t", &TagMap::new());
    assert!(matches!(plan, Err(UploadError::MetadataUnreadable)));
    assert_eq!(client.identity_of("/d/p.jpg"), None);
}

#[test]
fn a_new_file_needs_its_creation_time() {
    let mut client = S3Client::new("bucket", 5000, 1000);
    let common = TagMap::new();
    let plan = client.upload_file(&file("/d/p.jpg", "jpg", Some(2000), None), "t", &common);
    assert!(matches!(plan, Err(UploadError::CreationTimeUnavailable)));
    assert_eq!(client.identity_of("/d/p.jpg"), None);
    let skipped = client.upload_file(&file("/d/p.jpg", "jpg", Some(1), None), "t", &common);
    assert!(matches!(skipped, Ok(UploadPlan::Skipped)));
    let first = put(client.upload_file(&file("/d/p.jpg", "jpg", Some(2000), Some(7)), "t", &common));
    let again = put(client.upload_file(&file("/d/p.jpg", "jpg", Some(2000), None), "t", &common));
    assert_eq!(first.key, again.key);
}

#[test]
fn finish_names_the_outcome() {
    let mut client = S3Client::new("bucket", 5000, 1000);
    let plan = client
        .upload_file(&file("/d/p.jpg", "jpg", Some(2000), Some(1)), "t", &TagMap::new())
        .unwrap();
    assert_eq!(plan.finish(Transfer::Stored), Ok(UploadOutcome::Uploaded));
    assert_eq!(plan.finish(Transfer::ContentUnreadable), Err(UploadError::ContentUnreadable));
    assert_eq!(plan.finish(Transfer::Rejected), Err(UploadError::StorageFailed));
    assert_eq!(UploadPlan::Skipped.finish(Transfer::Rejected), Ok(UploadOutcome::Skipped));
    assert!(UploadError::MetadataUnreadable.is_io());
    assert!(UploadError::CreationTimeUnavailable.is_io());
    assert!(UploadError::ContentUnreadable.is_io());
    assert!(!UploadError::StorageFailed.is_io());
}

#[test]
fn client_keeps_its_settings() {
    let client = S3Client::new("photos", 5000, 1000);
    assert_eq!(client.bucket(), "photos");
    assert_eq!(client.max_image_size(), 5000);
    assert_eq!(client.min_image_size(), 1000);
}

#[test]
fn put_request_for_a_photo() {
    let mut client = S3Client::new("photos", 5_000_000, 1000);
    let common = tags(&[("owner", "lab")]);
    let request = put(client.upload_file(
        &file("/data/site7/incoming/photo.jpg", "jpg", Some(50_000), Some(1_700_000_000)),
        "cam1",
        &common,
    ));
    assert_eq!(request.bucket, "photos");
    assert_eq!(request.content_type, "image/jpeg");
    assert!(request.key.ends_with(".jpg"));
    assert!(is_hyphenated_uuid(&request.key[..36]));
    assert_eq!(request.key.len(), 40);
    assert_eq!(request.metadata.get("dir-tag"), Some("cam1"));
    assert_eq!(request.metadata.get("owner"), Some("lab"));
    let identity = client.identity_of("/data/site7/incoming/photo.jpg").unwrap();
    assert_eq!(request.key, format!("{}.jpg", identity.to_text()));
    assert_eq!(identity.time_millis(), 1_700_000_000_000);
}

#[test]
fn a_modified_file_keeps_its_key() {
    let mut client = S3Client::new("photos", 5_000_000, 1000);
    let common = TagMap::new();
    let path = "/data/site7/incoming/photo.jpg";
    let first =
        put(client.upload_file(&file(path, "jpg", Some(50_000), Some(1_700_000_000)), "cam1", &common));
    let other = put(client.upload_file(
        &file("/data/site7/incoming/other.jpg", "jpg", Some(50_000), Some(1_700_000_000)),
        "cam1",
        &common,
    ));
    let second =
        put(client.upload_file(&file(path, "jpg", Some(60_000), Some(1_800_000_000)), "cam1", &common));
    assert_eq!(first.key, second.key);
    assert_ne!(first.key, other.key);
}

#[test]
fn extension_other_than_the_common_ones_goes_as_octet_stream() {
    let mut client = S3Client::new("photos", 5_000_000, 1000);
    let request = put(client.upload_file(
        &file("/d/p.webp", "webp", Some(50_000), Some(1)),
        "t",
        &TagMap::new(),
    ));
    assert_eq!(request.content_type, "application/octet-stream");
    assert!(request.key.ends_with(".webp"));
    let bare = put(client.upload_file(&file("/d/q", "", Some(50_000), Some(1)), "t", &TagMap::new()));
    assert!(bare.key.ends_with("."));
    assert_eq!(bare.key.len(), 37);
}

#[test]
fn upload_directory_picks_the_eligible_files() {
    let client = S3Client::new("photos", 5000, 1000);
    let entry = |kind, path: &str, ext: &str, size| WalkEntry {
        kind,
        file: file(path, ext, size, Some(1)),
    };
    let entries = vec![
        entry(EntryKind::Directory, "/d", "", Some(4096)),
        entry(EntryKind::File, "/d/a.jpg", "jpg", Some(2000)),
        entry(EntryKind::File, "/d/small.jpg", "jpg", Some(10)),
        entry(EntryKind::File, "/d/notes.txt", "txt", Some(2000)),
        entry(EntryKind::Directory, "/d/dir.png", "png", Some(2000)),
        entry(EntryKind::Other, "/d/link.png", "png", Some(2000)),
        entry(EntryKind::File, "/d/gone.png", "png", None),
        entry(EntryKind::File, "/d/b.PNG", "PNG", Some(5000)),
        entry(EntryKind::File, "/d/big.gif", "gif", Some(5001)),
    ];
    assert_eq!(client.upload_directory(&entries), vec!["/d/a.jpg", "/d/b.PNG"]);
    assert_eq!(client.upload_directory(&Vec::new()), Vec::<String>::new());
}
