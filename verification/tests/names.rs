use jr::{
    name_erase, name_status, namelist, namelist_check, parse_name, Item, JError, Kind, Locales,
};

fn item(kind: Kind, handle: usize) -> Item {
    Item { kind, handle }
}

#[test]
fn names_split_at_their_locale() {
    assert_eq!(Ok(("foo".to_string(), None)), parse_name("foo"));
    assert_eq!(Ok(("foo".to_string(), Some("bar".to_string()))), parse_name("foo_bar_"));
    assert_eq!(Ok(("".to_string(), Some("bar".to_string()))), parse_name("_bar_"));
    assert_eq!(Ok(("a".to_string(), Some("".to_string()))), parse_name("a__"));
    assert_eq!(Err(JError::IllFormedName), parse_name("foo_"));
    assert_eq!(Err(JError::IllFormedName), parse_name("a_b_c_"));
    assert_eq!(Ok(("a_b".to_string(), None)), parse_name("a_b"));
}

#[test]
fn a_global_assignment_reads_back() {
    let mut l: Locales<i32> = Locales::new();
    l.assign_global("x", 5).unwrap();
    assert_eq!(Ok(Some(&5)), l.lookup("x"));
    assert_eq!(Ok(Some(&5)), l.lookup("x_base_"));
    assert_eq!(Ok(None), l.lookup("x_z_"));
    l.assign_global("x_z_", 7).unwrap();
    // base comes before z on the search path
    assert_eq!(Ok(Some(&5)), l.lookup("x"));
    l.erase("x").unwrap();
    assert_eq!(Ok(Some(&7)), l.lookup("x"));
    assert_eq!(Err(JError::IllFormedName), l.assign_global("x_", 1));
}

#[test]
fn locals_hide_globals_until_their_scope_closes() {
    let mut l: Locales<i32> = Locales::new();
    l.assign_global("y", 1).unwrap();
    l.push_scope();
    l.assign_local("y", 2).unwrap();
    assert_eq!(Ok(Some(&2)), l.lookup("y"));
    assert_eq!(Ok(Some(&1)), l.lookup("y_base_"));
    l.pop_scope();
    assert_eq!(Ok(Some(&1)), l.lookup("y"));
    assert_eq!(Err(JError::NonceError), l.assign_local("a_b_", 3));
}

#[test]
fn name_status_classes() {
    let mut l: Locales<Item> = Locales::new();
    l.assign_global("n", item(Kind::Noun, 0)).unwrap();
    l.assign_global("v", item(Kind::Verb, 1)).unwrap();
    assert_eq!(Ok(0), name_status(&l, "n"));
    assert_eq!(Ok(3), name_status(&l, "v"));
    assert_eq!(Ok(-1), name_status(&l, "nope"));
    assert_eq!(Ok(-2), name_status(&l, "bad_"));
}

#[test]
fn name_erase_reports_each_name() {
    let mut l: Locales<Item> = Locales::new();
    l.assign_global("a", item(Kind::Noun, 0)).unwrap();
    let r = name_erase(&mut l, &vec!["a".to_string(), "b_".to_string(), "c".to_string()]);
    assert_eq!(vec![1, 0, 1], r);
    assert_eq!(Ok(None), l.lookup("a"));
}

#[test]
fn name_lists_are_sorted_and_filtered() {
    let mut l: Locales<Item> = Locales::new();
    l.assign_global("zeta", item(Kind::Noun, 0)).unwrap();
    l.assign_global("alpha", item(Kind::Verb, 1)).unwrap();
    l.assign_global("beta", item(Kind::Noun, 2)).unwrap();
    l.assign_local("local", item(Kind::Noun, 3)).unwrap();
    assert_eq!(Ok(vec!["beta".to_string(), "local".to_string(), "zeta".to_string()]), namelist(&l, None, &[0]));
    assert_eq!(Ok(vec!["alpha".to_string()]), namelist(&l, Some("al"), &[0, 3]));
    assert_eq!(Err(JError::NonceError), namelist(&l, None, &[6]));
    assert_eq!(Err(JError::DomainError), namelist_check(&[0, 5]));
    assert_eq!(Ok(()), namelist_check(&[0, 1, 2, 3]));
}
