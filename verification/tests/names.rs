use memfs::name::{u16_tolower, EntryName, EntryNameRef, NameMap};

fn wide(s: &str) -> Vec<u16> {
    s.encode_utf16().collect()
}

#[test]
fn lower_case_of_letters() {
    assert_eq!(u16_tolower('A' as u16), 'a' as u16);
    assert_eq!(u16_tolower('Q' as u16), 'q' as u16);
    assert_eq!(u16_tolower('Z' as u16), 'z' as u16);
    assert_eq!(u16_tolower('q' as u16), 'q' as u16);
    assert_eq!(u16_tolower('@' as u16), '@' as u16);
    assert_eq!(u16_tolower('[' as u16), '[' as u16);
    assert_eq!(u16_tolower(0x00C4), 0x00C4);
}

#[test]
fn names_compare_without_case() {
    let (a, b, c) = (wide("ReadMe.TXT"), wide("README.txt"), wide("README.tx"));
    assert!(EntryNameRef::new(&a) == EntryNameRef::new(&b));
    assert!(EntryNameRef::new(&a) != EntryNameRef::new(&c));
    assert!(EntryName::new(&a) == EntryName::new(&b));
    assert_eq!(EntryNameRef::new(&a).hash_units(), EntryNameRef::new(&b).hash_units());
    assert_eq!(EntryNameRef::new(&a).hash_units(), wide("readme.txt"));
    assert_eq!(EntryName::new(&b).hash_units(), wide("readme.txt"));
}

#[test]
fn name_map_keeps_the_first_spelling() {
    let mut map = NameMap::new();
    assert!(map.is_empty());
    assert_eq!(map.insert(EntryName::new(&wide("One")), 1), None);
    assert_eq!(map.insert(EntryName::new(&wide("ONE")), 2), Some(1));
    assert_eq!(map.items().len(), 1);
    assert_eq!(map.items()[0].0.borrow().units.to_vec(), wide("One"));
    assert_eq!(map.get(EntryNameRef::new(&wide("oNe"))), Some(2));
    assert_eq!(map.get(EntryNameRef::new(&wide("two"))), None);
    assert!(map.find(1).is_none());
    assert_eq!(map.find(2).unwrap().borrow().units.to_vec(), wide("One"));
    assert_eq!(map.remove(EntryNameRef::new(&wide("one"))), Some(2));
    assert_eq!(map.remove(EntryNameRef::new(&wide("one"))), None);
    assert!(map.is_empty());
}
