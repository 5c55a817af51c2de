use realms::utility::{SelectionHashMap, SelectionStorage};

fn filled(n: usize) -> SelectionStorage<usize> {
    let items: Vec<usize> = (0..n).map(|i| i * 10).collect();
    SelectionStorage::new_from(&items)
}

#[test]
fn next_wraps_from_last_to_first() {
    let mut s = filled(4);
    s.last();
    assert_eq!(s.current_index(), 3);
    assert_eq!(s.next(), Some(&0));
    assert_eq!(s.current_index(), 0);
}

#[test]
fn prev_wraps_from_first_to_last() {
    let mut s = filled(4);
    assert_eq!(s.current_index(), 0);
    assert_eq!(s.prev(), Some(&30));
    assert_eq!(s.current_index(), 3);
}

#[test]
fn next_visits_every_position() {
    let mut s = filled(5);
    let mut seen = vec![s.current_index()];
    for _ in 0..4 {
        s.next();
        seen.push(s.current_index());
    }
    assert_eq!(seen, vec![0, 1, 2, 3, 4]);
    s.next();
    assert_eq!(s.current_index(), 0);
}

#[test]
fn prev_visits_every_position_backwards() {
    let mut s = filled(3);
    let mut seen = vec![];
    for _ in 0..3 {
        s.prev();
        seen.push(s.current_index());
    }
    assert_eq!(seen, vec![2, 1, 0]);
}

#[test]
fn empty_storage_has_no_current() {
    let mut s: SelectionStorage<usize> = SelectionStorage::new();
    assert_eq!(s.current(), None);
    assert_eq!(s.next(), None);
    assert_eq!(s.prev(), None);
    assert_eq!(s.last(), None);
    assert_eq!(s.extract_current(), None);
}

#[test]
fn at_selects_only_in_range() {
    let mut s = filled(3);
    assert_eq!(s.at(2), Some(&20));
    assert_eq!(s.current_index(), 2);
    assert_eq!(s.at(3), None);
    assert_eq!(s.current_index(), 2);
}

#[test]
fn extract_current_clamps_cursor() {
    let mut s = filled(3);
    s.last();
    assert_eq!(s.extract_current(), Some(20));
    assert_eq!(s.current_index(), 1);
    assert_eq!(s.storage(), &vec![0, 10]);
    s.at(0);
    assert_eq!(s.extract_current(), Some(0));
    assert_eq!(s.current_index(), 0);
    assert_eq!(s.current(), Some(&10));
}

#[test]
fn clear_keeps_cursor_but_nothing_is_current() {
    let mut s = filled(3);
    s.at(2);
    s.clear();
    assert_eq!(s.current(), None);
    assert_eq!(s.current_index(), 2);
    s.insert(7);
    assert_eq!(s.current(), None);
    assert_eq!(s.iter().count(), 1);
}

#[test]
fn current_mut_changes_selected_item() {
    let mut s = filled(3);
    s.at(1);
    if let Some(item) = s.current_mut() {
        *item = 99;
    }
    assert_eq!(s.storage(), &vec![0, 99, 20]);
    s.storage_mut().push(5);
    assert_eq!(s.storage().len(), 4);
}

#[test]
fn hash_map_orders_by_id() {
    let mut m: SelectionHashMap<&str> = SelectionHashMap::new();
    m.insert(7, "seven");
    m.insert(2, "two");
    m.insert(5, "five");
    assert_eq!(m.len(), 3);
    assert_eq!(m.storage().values().copied().collect::<Vec<&str>>(), vec!["two", "five", "seven"]);
    assert_eq!(m.iter().map(|(k, _)| *k).collect::<Vec<usize>>(), vec![2, 5, 7]);
    assert_eq!(m.current(), Some(&"two"));
    assert_eq!(m.next(), Some(&"five"));
    assert_eq!(m.last(), Some(&"seven"));
    assert_eq!(m.current_index(), 2);
    assert_eq!(m.current(), Some(&"seven"));
    assert_eq!(m.next(), Some(&"two"));
}

#[test]
fn hash_map_insert_replaces_same_id() {
    let mut m: SelectionHashMap<u32> = SelectionHashMap::new();
    m.insert(1, 10);
    m.insert(1, 11);
    assert_eq!(m.len(), 1);
    assert_eq!(m.get(1), Some(&11));
    assert_eq!(m.get(2), None);
}

#[test]
fn hash_map_at_searches_by_id() {
    let mut m: SelectionHashMap<u32> = SelectionHashMap::new();
    for k in [3usize, 9, 4] {
        m.insert(k, k as u32 * 100);
    }
    assert_eq!(m.at(9), Some(&900));
    assert_eq!(m.current_index(), 2);
    assert_eq!(m.current(), Some(&900));
    assert_eq!(m.at(8), None);
    assert_eq!(m.current_index(), 2);
    let mut empty: SelectionHashMap<u32> = SelectionHashMap::new();
    assert_eq!(empty.last(), None);
    assert_eq!(empty.current_index(), 0);
}

#[test]
fn hash_map_wraps_both_ways() {
    let mut m: SelectionHashMap<u32> = SelectionHashMap::new();
    m.insert(1, 1);
    m.insert(2, 2);
    assert_eq!(m.prev(), Some(&2));
    assert_eq!(m.next(), Some(&1));
    let mut empty: SelectionHashMap<u32> = SelectionHashMap::new();
    assert_eq!(empty.current(), None);
    assert_eq!(empty.next(), None);
    assert_eq!(empty.prev(), None);
    m.clear();
    assert_eq!(m.current(), None);
    assert_eq!(m.len(), 0);
}

#[test]
fn hash_map_nth_and_replace() {
    let mut m: SelectionHashMap<u32> = SelectionHashMap::new();
    m.insert(4, 40);
    m.insert(1, 10);
    assert_eq!(m.nth(1), (4, &40));
    m.replace_nth(1, 41);
    assert_eq!(m.get(4), Some(&41));
    assert_eq!(m.iter().map(|(_, v)| *v).collect::<Vec<u32>>(), vec![10, 41]);
    m.storage_mut().insert(9, 90);
    assert_eq!(m.len(), 3);
    assert_eq!(m.last(), Some(&90));
}
