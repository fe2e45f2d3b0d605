//! Maps and sets keyed by commit.

use jj_commands::commit::CommitId;
use jj_commands::id_map::IdMap;
use jj_commands::id_map::IdSet;

fn id(byte: u8) -> CommitId {
    CommitId::new(vec![byte])
}

#[test]
fn later_values_replace_earlier_ones() {
    let mut map: IdMap<&str> = IdMap::new();
    map.insert(id(1), "one");
    map.insert(id(2), "two");
    map.insert(id(1), "uno");
    assert_eq!(map.len(), 2);
    assert_eq!(map.get(&id(1)), Some(&"uno"));
    assert_eq!(map.get(&id(2)), Some(&"two"));
    assert_eq!(map.get(&id(3)), None);
    assert!(map.contains_key(&id(2)));
    assert!(!map.contains_key(&id(3)));
    assert!(map.key_at(0).same(&id(1)));
    assert_eq!(map.value_at(1), &"two");
}

#[test]
fn lists_in_a_map_grow() {
    let mut map: IdMap<Vec<CommitId>> = IdMap::new();
    map.insert(id(1), vec![]);
    map.insert(id(2), vec![]);
    map.push_to(&id(1), id(7));
    map.push_to(&id(1), id(8));
    let grown: Vec<u8> = map.get(&id(1)).unwrap().iter().map(|id| id.bytes[0]).collect();
    assert_eq!(grown, vec![7, 8]);
    assert!(map.get(&id(2)).unwrap().is_empty());
}

#[test]
fn sets_hold_what_was_put_in() {
    let mut set = IdSet::new();
    assert!(!set.contains(&id(1)));
    set.insert(id(1));
    set.insert(id(1));
    set.insert(id(2));
    assert!(set.contains(&id(1)));
    assert!(set.contains(&id(2)));
    assert!(!set.contains(&id(3)));
}
