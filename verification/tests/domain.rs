use photooxide::domain::{
    inode_from_column, inode_to_column, MediaTypes, PhotoDbMediaItemAlbum,
};
use photooxide::photolib::ItemListing;
use photooxide::text::{lower_bound, str_eq, str_less};
use photooxide::text_set::TextSet;

#[test]
fn media_types_from_string() {
    assert_eq!(MediaTypes::from("album"), MediaTypes::Album);
    assert_eq!(MediaTypes::from("media_item"), MediaTypes::MediaItem);
}

#[test]
fn media_types_to_string() {
    assert_eq!(MediaTypes::Album.to_string(), "album");
    assert_eq!(format!("{:?}", MediaTypes::Album), "Album");

    assert_eq!(MediaTypes::MediaItem.to_string(), "media_item");
    assert_eq!(format!("{:?}", MediaTypes::MediaItem), "MediaItem");
}

#[test]
fn media_types_parse() {
    assert_eq!(MediaTypes::parse("album"), Some(MediaTypes::Album));
    assert_eq!(MediaTypes::parse("media_item"), Some(MediaTypes::MediaItem));
    assert_eq!(MediaTypes::parse("Album"), None);
    assert_eq!(MediaTypes::parse(""), None);
}

#[test]
fn item_listing_google_id() {
    assert_eq!(
        ItemListing::new(String::from("id"), String::from("name")).google_id(),
        "id"
    );
}

#[test]
fn record_keeps_what_it_was_made_of() {
    let record = PhotoDbMediaItemAlbum::new(
        String::from("id"),
        String::from("name"),
        MediaTypes::MediaItem,
        42,
        101,
    );
    assert_eq!(record.google_id(), "id");
    assert_eq!(record.name, "name");
    assert_eq!(record.media_type, MediaTypes::MediaItem);
    assert_eq!(record.last_remote_check, 42);
    assert_eq!(record.inode, 101);
    let copy = record.clone();
    assert_eq!(copy.google_id(), "id");
    assert_eq!(copy.inode, 101);
}

#[test]
fn texts_compare_as_strings_do() {
    let samples = ["", "a", "ab", "b", "B", "é", "z", "日本", "a\u{0}", "ab ", "\u{10000}"];
    for x in samples {
        for y in samples {
            assert_eq!(str_eq(x, y), x == y);
            assert_eq!(str_less(x, y), x < y);
        }
    }
}

#[test]
fn the_lower_bound_is_where_a_key_stands_or_would_be_put() {
    let rows: Vec<String> = ["b", "d", "dd", "f", "h"]
        .iter()
        .map(|key| String::from(*key))
        .collect();
    assert_eq!(lower_bound(&rows, ""), 0);
    assert_eq!(lower_bound(&rows, "a"), 0);
    assert_eq!(lower_bound(&rows, "b"), 0);
    assert_eq!(lower_bound(&rows, "c"), 1);
    assert_eq!(lower_bound(&rows, "d"), 1);
    assert_eq!(lower_bound(&rows, "da"), 2);
    assert_eq!(lower_bound(&rows, "dd"), 2);
    assert_eq!(lower_bound(&rows, "e"), 3);
    assert_eq!(lower_bound(&rows, "g"), 4);
    assert_eq!(lower_bound(&rows, "h"), 4);
    assert_eq!(lower_bound(&rows, "i"), 5);
    assert_eq!(lower_bound(&Vec::<String>::new(), "a"), 0);
}

#[test]
fn a_text_set_holds_each_text_once() {
    let mut set = TextSet::new();
    assert!(!set.contains("a"));
    assert!(set.insert("m"));
    assert!(set.insert("a"));
    assert!(set.insert("z"));
    assert!(set.insert(""));
    assert!(!set.insert("a"));
    assert!(!set.insert("z"));
    assert!(set.contains("a"));
    assert!(set.contains("m"));
    assert!(set.contains("z"));
    assert!(set.contains(""));
    assert!(!set.contains("b"));
    assert!(!set.contains("mm"));
    for n in 0..200 {
        assert!(set.insert(&format!("key {}", (n * 37) % 200)));
    }
    for n in 0..200 {
        assert!(set.contains(&format!("key {}", n)));
        assert!(!set.insert(&format!("key {}", n)));
    }
}

#[test]
fn inode_numbers_fit_a_signed_column() {
    assert_eq!(inode_to_column(0), 0);
    assert_eq!(inode_to_column(101), 101);
    assert_eq!(inode_to_column(i64::MAX as u64), i64::MAX);
    assert_eq!(inode_to_column(i64::MAX as u64 + 1), i64::MIN);
    assert_eq!(inode_to_column(u64::MAX), -1);
    assert_eq!(inode_from_column(0), 0);
    assert_eq!(inode_from_column(101), 101);
    assert_eq!(inode_from_column(i64::MAX), i64::MAX as u64);
    assert_eq!(inode_from_column(i64::MIN), i64::MAX as u64 + 1);
    assert_eq!(inode_from_column(-1), u64::MAX);
    for inode in [0, 1, 100, 101, 1 << 40, 1 << 63, (1 << 63) + 5, u64::MAX - 1, u64::MAX] {
        assert_eq!(inode_from_column(inode_to_column(inode)), inode);
    }
}

#[test]
fn a_row_is_a_record_if_it_names_a_kind() {
    let item = PhotoDbMediaItemAlbum::from_row(
        String::from("id"),
        "media_item",
        String::from("name.jpg"),
        -5,
        102,
    )
    .unwrap();
    assert_eq!(item.google_id(), "id");
    assert_eq!(item.name, "name.jpg");
    assert_eq!(item.media_type, MediaTypes::MediaItem);
    assert_eq!(item.last_remote_check, -5);
    assert_eq!(item.inode, 102);
    let album =
        PhotoDbMediaItemAlbum::from_row(String::from("a"), "album", String::from("A"), 0, -1)
            .unwrap();
    assert_eq!(album.media_type, MediaTypes::Album);
    assert_eq!(album.inode, u64::MAX);
    assert!(PhotoDbMediaItemAlbum::from_row(
        String::from("id"),
        "video",
        String::from("name"),
        0,
        102
    )
    .is_none());
}
