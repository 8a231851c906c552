use lisa::role::{choose_role, RoleEntry};

fn role(id: u64, position: i64, held: bool) -> RoleEntry {
    RoleEntry { id, position, held }
}

#[test]
fn highest_held_role_is_chosen() {
    let roles = vec![role(2, 3, true), role(3, 5, true), role(4, 7, false)];
    assert_eq!(choose_role(1, &roles), Some(3));
}

#[test]
fn ties_keep_the_first() {
    let roles = vec![role(2, 5, true), role(3, 5, true)];
    assert_eq!(choose_role(1, &roles), Some(2));
}

#[test]
fn nothing_held_renames_nothing() {
    let roles = vec![role(2, 3, false), role(3, 5, false)];
    assert_eq!(choose_role(1, &roles), None);
    assert_eq!(choose_role(1, &vec![]), None);
}

#[test]
fn default_role_is_never_renamed() {
    let roles = vec![role(1, 9, true), role(3, 5, true)];
    assert_eq!(choose_role(1, &roles), None);
}

#[test]
fn negative_positions_do_not_count() {
    let roles = vec![role(2, -3, true)];
    assert_eq!(choose_role(1, &roles), None);
    let roles = vec![role(2, -3, true), role(5, 0, true)];
    assert_eq!(choose_role(1, &roles), Some(5));
}
