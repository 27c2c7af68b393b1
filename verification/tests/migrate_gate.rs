use rheo::migrate::due_migrations;

#[test]
fn migrations_after_the_recorded_version_are_due_in_order() {
    assert_eq!(due_migrations("0.3.0", "0.6.0"), Some(vec![0, 1, 2, 3, 4]));
    assert_eq!(due_migrations("0.5.0", "0.6.0"), Some(vec![3, 4]));
    assert_eq!(due_migrations("0.5.0", "0.5.1"), Some(vec![3, 4]));
}

#[test]
fn an_up_to_date_project_has_nothing_due() {
    assert_eq!(due_migrations("0.6.0", "0.6.0"), None);
    assert_eq!(due_migrations("0.7.0", "0.6.0"), None);
}
