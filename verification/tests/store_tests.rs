use unikernel::store::{BlockDevice, KvStore, MemDisk};

fn le32_at(b: &[u8], off: usize) -> u32 {
    u32::from_le_bytes([b[off], b[off + 1], b[off + 2], b[off + 3]])
}

fn fresh_store(sectors: usize) -> KvStore<MemDisk> {
    KvStore::open(MemDisk::new(sectors))
}

#[test]
fn open_formats_a_blank_disk() {
    let store = fresh_store(16);
    let img = store.device().contents();
    assert_eq!(le32_at(img, 0), 0x4B494E55);
    assert_eq!(&img[0..4], b"UNIK");
    assert_eq!(le32_at(img, 4), 1);
    assert_eq!(le32_at(img, 8), 0);
    assert!(img[512..2560].iter().all(|&b| b == 0));
    assert_eq!(img.len(), 16 * 512);
}

#[test]
fn open_keeps_a_formatted_disk() {
    let mut store = fresh_store(16);
    assert!(store.write("keep", b"me"));
    let bytes = store.device().contents().clone();
    let mut again = KvStore::open(MemDisk::from_bytes(bytes.clone()));
    assert_eq!(again.device().contents(), &bytes);
    assert_eq!(again.read("keep"), Some(b"me".to_vec()));
}

#[test]
fn list_of_empty_store_is_empty() {
    let mut store = fresh_store(16);
    assert!(store.list().is_empty());
}

#[test]
fn read_after_write_gives_the_data() {
    let mut store = fresh_store(16);
    assert!(store.write("a.txt", b"hello"));
    assert_eq!(store.read("a.txt"), Some(b"hello".to_vec()));
    assert_eq!(store.list(), vec!["a.txt".to_string()]);
}

#[test]
fn write_places_data_and_entry() {
    let mut store = fresh_store(16);
    let data: Vec<u8> = (0..600u32).map(|i| (i % 251) as u8).collect();
    assert!(store.write("blob", &data));
    let img = store.device().contents();
    // data from sector 5, padded to two sectors
    assert_eq!(&img[5 * 512..5 * 512 + 600], data.as_slice());
    assert!(img[5 * 512 + 600..7 * 512].iter().all(|&b| b == 0));
    // directory entry 0
    assert_eq!(&img[512..516], b"blob");
    assert_eq!(img[516], 0);
    assert_eq!(le32_at(img, 512 + 20), 0);
    assert_eq!(le32_at(img, 512 + 24), 600);
    assert_eq!(le32_at(img, 512 + 28), 0);
    // live count
    assert_eq!(le32_at(img, 8), 1);
    // the next file starts after the two sectors
    assert!(store.write("next", b"x"));
    let img = store.device().contents();
    assert_eq!(le32_at(img, 512 + 32 + 20), 2);
    assert_eq!(img[7 * 512], b'x');
    assert_eq!(le32_at(img, 8), 2);
}

#[test]
fn write_keeps_other_entries() {
    let mut store = fresh_store(32);
    assert!(store.write("one", b"first"));
    assert!(store.write("two", b"second"));
    assert!(store.write("one", b"again"));
    assert_eq!(store.read("two"), Some(b"second".to_vec()));
    assert_eq!(store.read("one"), Some(b"again".to_vec()));
    let names = store.list();
    assert_eq!(names.len(), 2);
    assert!(names.contains(&"one".to_string()));
    assert!(names.contains(&"two".to_string()));
}

#[test]
fn overwrite_marks_the_old_entry_deleted_and_reuses_it() {
    let mut store = fresh_store(32);
    assert!(store.write("k", b"v1"));
    assert!(store.write("k", b"v2"));
    let img = store.device().contents();
    // the old entry was marked deleted and then taken again by the new one
    assert_eq!(le32_at(img, 512 + 28), 0);
    assert_eq!(le32_at(img, 512 + 20), 0);
    assert_eq!(store.read("k"), Some(b"v2".to_vec()));
    assert_eq!(le32_at(store.device().contents(), 8), 1);
}

#[test]
fn read_of_missing_name_is_none() {
    let mut store = fresh_store(16);
    assert_eq!(store.read("nothing"), None);
}

#[test]
fn empty_name_fields_are_free_slots() {
    let mut store = fresh_store(16);
    assert_eq!(store.read(""), None);
    let before = store.device().contents().clone();
    assert!(!store.delete(""));
    assert_eq!(store.device().contents(), &before);
}

#[test]
fn delete_then_read_is_none() {
    let mut store = fresh_store(16);
    assert!(store.write("gone", b"data"));
    assert!(store.write("stay", b"here"));
    assert!(store.delete("gone"));
    assert_eq!(store.read("gone"), None);
    assert_eq!(store.read("stay"), Some(b"here".to_vec()));
    assert_eq!(store.list(), vec!["stay".to_string()]);
    assert_eq!(le32_at(store.device().contents(), 8), 1);
}

#[test]
fn delete_of_missing_name_is_false_and_changes_nothing() {
    let mut store = fresh_store(16);
    assert!(store.write("a", b"1"));
    let before = store.device().contents().clone();
    assert!(!store.delete("b"));
    assert_eq!(store.device().contents(), &before);
}

#[test]
fn long_names_are_cut_to_nineteen_bytes() {
    let mut store = fresh_store(16);
    let long = "abcdefghijklmnopqrstuvwxyz";
    assert!(store.write(long, b"data"));
    assert_eq!(store.read(long), None);
    assert_eq!(store.read("abcdefghijklmnopqrs"), Some(b"data".to_vec()));
    assert_eq!(store.list(), vec!["abcdefghijklmnopqrs".to_string()]);
}

#[test]
fn write_without_room_fails() {
    let mut store = fresh_store(6);
    assert!(!store.write("big", &[7u8; 600]));
    assert_eq!(store.read("big"), None);
    assert!(store.write("small", &[7u8; 500]));
}

#[test]
fn full_directory_refuses_a_new_name() {
    let mut store = fresh_store(80);
    for i in 0..64 {
        assert!(store.write(&format!("f{}", i), b"x"), "write {}", i);
    }
    assert!(!store.write("one-more", b"x"));
    assert_eq!(store.list().len(), 64);
    // a name already present can still be rewritten: its old entry frees a slot
    assert!(store.write("f3", b"y"));
    assert_eq!(store.read("f3"), Some(b"y".to_vec()));
}

#[test]
fn empty_data_is_stored_and_read_back() {
    let mut store = fresh_store(16);
    assert!(store.write("empty", b""));
    assert_eq!(store.read("empty"), Some(Vec::new()));
}

#[test]
fn write_defined_on_a_sound_directory() {
    let mut store = fresh_store(16);
    assert!(store.write_defined("x"));
}

#[test]
fn mem_disk_reads_and_writes_sectors() {
    let mut d = MemDisk::new(4);
    let data = [9u8; 512];
    assert!(d.write_sectors(2, &data));
    let mut buf = [0u8; 512];
    assert!(d.read_sectors(2, &mut buf));
    assert_eq!(buf, data);
    assert!(!d.read_sectors(4, &mut buf));
    assert!(!d.write_sectors(3, &[0u8; 1024]));
}

#[test]
fn rewritten_name_is_listed_once() {
    let mut store = fresh_store(32);
    assert!(store.write("a", b"1"));
    assert!(store.write("b", b"2"));
    assert!(store.write("a", b"3"));
    let names = store.list();
    assert_eq!(names.iter().filter(|n| n.as_str() == "a").count(), 1);
    assert_eq!(names.iter().filter(|n| n.as_str() == "b").count(), 1);
    assert_eq!(names.len(), 2);
    assert_eq!(le32_at(store.device().contents(), 8), 2);
}

#[test]
fn delete_removes_the_name_from_the_listing() {
    let mut store = fresh_store(32);
    assert!(store.write("a", b"1"));
    assert!(store.write("b", b"2"));
    assert!(store.delete("a"));
    assert_eq!(store.list(), vec!["b".to_string()]);
    assert!(!store.delete("a"));
}

#[test]
fn failed_write_keeps_directory_and_listing() {
    let mut store = fresh_store(7);
    assert!(store.write("keep", b"k"));
    let before = store.device().contents().clone();
    assert!(!store.write("big", &[1u8; 2000]));
    let after = store.device().contents();
    assert_eq!(&after[0..2560], &before[0..2560]);
    assert_eq!(store.list(), vec!["keep".to_string()]);
    assert_eq!(store.read("keep"), Some(b"k".to_vec()));
}

#[test]
fn store_stays_consistent_over_many_operations() {
    let mut store = fresh_store(64);
    let names = ["a", "bb", "ccc", "dddd"];
    for round in 0..5u8 {
        for (i, n) in names.iter().enumerate() {
            if (round as usize + i) % 3 == 0 {
                assert!(store.delete(n) || store.read(n).is_none());
            } else {
                assert!(store.write(n, &[round; 40]));
            }
        }
        let listed = store.list();
        assert_eq!(listed.len() as u32, le32_at(store.device().contents(), 8));
        for n in names.iter() {
            let count = listed.iter().filter(|m| m.as_str() == *n).count();
            assert!(count <= 1);
            assert_eq!(count == 1, store.read(n).is_some());
        }
    }
}
