use cargo_minimize::table::Table;

#[test]
fn a_later_value_takes_the_place_of_an_earlier_one() {
    let mut table: Table<String, bool> = Table::new();
    table.insert("a".to_string(), false);
    table.insert("b".to_string(), false);
    table.insert("a".to_string(), true);
    assert_eq!(table.len(), 2);
    assert_eq!(table.key(0), "a");
    assert_eq!(table.key(1), "b");
    assert!(*table.value(0));
    assert_eq!(table.get(&"a".to_string()), Some(&true));
    assert_eq!(table.get(&"b".to_string()), Some(&false));
    assert_eq!(table.get(&"c".to_string()), None);
}
