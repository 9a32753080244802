use file_lfu::key::{join_path, key_to_filename};
use file_lfu::{collect_flush_errors, Error, FileBackedLfuCache, Key};
use uuid::Uuid;

#[test]
fn filename_is_hyphenated_hex() {
    let key: u128 = 0x215a316d_4b3e_4bc3_9acb_2a3f992045d3;
    assert_eq!(key.as_filename(), "215a316d-4b3e-4bc3-9acb-2a3f992045d3");
    assert_eq!(key_to_filename(0), "00000000-0000-0000-0000-000000000000");
    assert_eq!(key_to_filename(u128::MAX), "ffffffff-ffff-ffff-ffff-ffffffffffff");
}

#[test]
fn filename_matches_uuid_display() {
    for key in [
        0u128,
        1,
        0xb6174a01_334d_4924_ad4c_e044d7228560,
        u128::MAX,
        Uuid::new_v4().as_u128(),
        Uuid::new_v4().as_u128(),
    ] {
        assert_eq!(key.as_filename(), Uuid::from_u128(key).to_string());
    }
}

#[test]
fn path_joins_directory_and_name() {
    assert_eq!(join_path("/data", "abc"), "/data/abc");
    assert_eq!(join_path("/data/", "abc"), "/data/abc");
    assert_eq!(join_path("", "abc"), "abc");
    assert_eq!(join_path("rel/dir", "x"), "rel/dir/x");
}

#[test]
fn path_for_key_is_in_backing_directory() {
    let cache = FileBackedLfuCache::<u8>::init::<String>("/data/cache/".to_string(), true, 1).ok().unwrap();
    assert_eq!(cache.get_path_for(1), "/data/cache/00000000-0000-0000-0000-000000000001");
    assert_ne!(cache.get_path_for(1), cache.get_path_for(2));
}

#[test]
fn flush_errors_are_all_collected_in_order() {
    let outcomes: Vec<Result<(), String>> =
        vec![Ok(()), Err("a".to_string()), Ok(()), Err("b".to_string())];
    let res = collect_flush_errors::<u128, String>(outcomes);
    assert_eq!(
        res,
        Err(vec![Error::FileOp("a".to_string()), Error::FileOp("b".to_string())])
    );
}

#[test]
fn flush_without_errors_is_ok() {
    let outcomes: Vec<Result<(), String>> = vec![Ok(()), Ok(())];
    assert_eq!(collect_flush_errors::<u128, String>(outcomes), Ok(()));
    assert_eq!(collect_flush_errors::<u128, String>(vec![]), Ok(()));
}

#[test]
fn file_errors_convert() {
    let e: Error<u128, String> = Error::from("boom".to_string());
    assert_eq!(e, Error::FileOp("boom".to_string()));
}

#[test]
fn messages_name_the_key() {
    let key: u128 = 0x215a316d_4b3e_4bc3_9acb_2a3f992045d3;
    let k = "215a316d-4b3e-4bc3-9acb-2a3f992045d3";
    let m = |e: Error<u128, std::fmt::Error>| e.message();
    assert_eq!(m(Error::NotInCache(key)), format!("Cannot find an item with key {k} in cache"));
    assert_eq!(m(Error::NotOnDisk(key)), format!("Cannot find an item with key {k} on disk"));
    assert_eq!(
        m(Error::NotFound(key)),
        format!("Cannot find an item with key {k} either in cache or on disk")
    );
    assert_eq!(
        m(Error::Immutable(key)),
        format!("An item with key {k} is temporarily immutable due to outstanding references")
    );
    assert_eq!(
        m(Error::Init("/no/dir".to_string())),
        "Cannot initialise \"/no/dir\" as a backing directory."
    );
    assert_eq!(
        m(Error::FileOp(std::fmt::Error)),
        format!("An error occurred when performing file operations: {}", std::fmt::Error)
    );
    assert_eq!(
        m(Error::Init("/it's/here".to_string())),
        format!("Cannot initialise {:?} as a backing directory.", std::path::Path::new("/it's/here"))
    );
    // the key is written as a UUID is
    assert_eq!(format!("{:?}", Uuid::from_u128(key)), k);
}
