use supplement::history::{History, HistoryUnit};
use supplement::id;

#[test]
fn multi_pushes_keep_order() {
    let mut h = History::new();
    let id = id::MultiVal::new(7);
    h.push_multi_val(id::MultiVal::new(7), "one".to_owned());
    h.push_multi_val(id::MultiVal::new(7), "two".to_owned());
    h.push_multi_val(id::MultiVal::new(7), "three".to_owned());
    let unit = h.find(&id).unwrap();
    assert_eq!(unit.values, vec!["one", "two", "three"]);
}

#[test]
fn single_push_latest_wins() {
    let mut h = History::new();
    let id = id::SingleVal::new(3);
    h.push_single_val(id::SingleVal::new(3), "first".to_owned());
    h.push_single_val(id::SingleVal::new(3), "second".to_owned());
    let unit = h.find(&id).unwrap();
    assert_eq!(unit.value, "second");
}

#[test]
fn no_val_count_is_push_count() {
    let mut h = History::new();
    let id = id::NoVal::new(9);
    h.push_no_val(id);
    h.push_no_val(id);
    h.push_no_val(id);
    let unit = h.find(&id).unwrap();
    assert_eq!(unit.count, 3);
}

#[test]
fn find_picks_the_first_matching_kind() {
    let mut h = History::new();
    h.push_no_val(id::NoVal::new(1));
    h.push_single_val(id::SingleVal::new(1), "v".to_owned());
    // the same number under a different kind is a different identity
    assert_eq!(h.find(&id::NoVal::new(1)).unwrap().count, 1);
    assert_eq!(h.find(&id::SingleVal::new(1)).unwrap().value, "v");
    assert!(h.find(&id::MultiVal::new(1)).is_none());
}

#[test]
fn certain_ids_compare_by_index_alone() {
    let a = id::SingleVal::new_certain(5, vec![("x".to_owned(), "".to_owned())]);
    let b = id::SingleVal::new_certain(5, vec![("y".to_owned(), "".to_owned())]);
    let c = id::SingleVal::new_certain(6, vec![("x".to_owned(), "".to_owned())]);
    assert_eq!(a, b);
    assert_ne!(a, c);
    assert_ne!(a, id::SingleVal::new(5));
}

#[test]
fn history_round_trips_through_vec() {
    let mut h = History::new();
    h.push_no_val(id::NoVal::new(2));
    let units: Vec<HistoryUnit> = h.into_inner();
    assert_eq!(units.len(), 1);
    let h2 = History::from_vec(units);
    assert_eq!(h2.find(&id::NoVal::new(2)).unwrap().count, 1);
}
