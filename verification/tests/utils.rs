use anitomy_pure::utils::remove_ignored_string;

#[test]
fn remove_one_string() {
    let tested_string = "Hello World!";
    let r1 = remove_ignored_string(tested_string, &["World".to_string()]);
    assert_eq!(r1, "Hello !");
}

#[test]
fn remove_multiple() {
    let tested_string = "Hello World!";
    let r2 = remove_ignored_string(tested_string, &["World".to_string(), "Hello".to_string()]);
    assert_eq!(r2, " !");
}

#[test]
fn nothing_to_remove() {
    let tested_string = "EvoBot.[Watakushi]_Akuma_no_Riddle_-_01v2_[720p][69A307A2].mkv";
    let r2 = remove_ignored_string(tested_string, &["['41EvoBot.']".to_string()]);
    assert_eq!(r2, tested_string);
}

#[test]
fn real_test_remove() {
    let tested_string = "EvoBot.[Watakushi]_Akuma_no_Riddle_-_01v2_[720p][69A307A2].mkv";
    let r2 = remove_ignored_string(tested_string, &["EvoBot.".to_string()]);
    assert_eq!(
        r2,
        "[Watakushi]_Akuma_no_Riddle_-_01v2_[720p][69A307A2].mkv"
    );
}

#[test]
fn absent_strings_change_nothing() {
    let r = remove_ignored_string("Title - 01", &["[BD]".to_string(), "x".to_string()]);
    assert_eq!(r, "Title - 01");
}

#[test]
fn removal_scans_once_left_to_right() {
    let r = remove_ignored_string("aabb", &["ab".to_string()]);
    assert_eq!(r, "ab");
}

#[test]
fn list_entries_are_removed_one_by_one() {
    let r = remove_ignored_string("[BD][Group] Title", &["['[BD]', \"[Group]\"]".to_string()]);
    assert_eq!(r, " Title");
}
