use mod_ledger::models::{
    InfractionModel, Punishment, Severity, StoreError, TagModel, UserInfractionModel,
};
use mod_ledger::replies::{
    format_case_list, format_infraction_list, infraction_added_reply, infraction_edited_reply,
    infraction_removed_reply, tag_added_reply, tag_edited_reply, tag_removed_reply,
    tag_shown_reply,
};
use mod_ledger::sticker::{find_sticker, has_one_key};

fn entry(id: i32, duration: i64) -> InfractionModel {
    InfractionModel { id, severity: Severity::Low, punishment: Punishment::Strike, duration }
}

fn tag(name: &str, content: &str) -> TagModel {
    TagModel { id: 1, user_id: "9".to_string(), name: name.to_string(), content: content.to_string() }
}

#[test]
fn infraction_list_text() {
    assert_eq!(format_infraction_list(&[]), ":x: No infractions found!");
    assert_eq!(
        format_infraction_list(&[entry(1, 60), entry(-2, 0)]),
        "- ID: `1` | Severity: `Low` | Punishment: `Strike` | Duration: `60`\n- ID: `-2` | Severity: `Low` | Punishment: `Strike` | Duration: `0`"
    );
}

#[test]
fn infraction_add_and_edit_replies() {
    assert_eq!(
        infraction_added_reply(5, Err(StoreError::AlreadyExists)),
        ":warning: Infraction ID `5` already exists!"
    );
    assert_eq!(
        infraction_added_reply(5, Err(StoreError::BackendUnavailable)),
        ":x: Failed to create infraction ID `5`!"
    );
    assert!(infraction_added_reply(5, Ok(entry(5, 1)))
        .starts_with(":white_check_mark: Infraction created!\n:information_source: ID: 5\n"));
    assert_eq!(
        infraction_edited_reply(5, Ok(entry(5, 1))),
        ":white_check_mark: Infraction ID `5` updated with success!"
    );
    assert_eq!(
        infraction_edited_reply(5, Err(StoreError::NotFound)),
        ":warning: Infraction ID `5` doesn't exist!"
    );
    assert_eq!(
        infraction_edited_reply(5, Err(StoreError::Integrity)),
        ":x: Failed to edit infraction ID `5`!"
    );
}

#[test]
fn infraction_remove_replies() {
    assert_eq!(infraction_removed_reply(3, Ok(0)), ":warning: There is no infraction ID `3`!");
    assert_eq!(
        infraction_removed_reply(3, Ok(1)),
        ":white_check_mark: Infraction ID `3` removed successfully!"
    );
    assert_eq!(
        infraction_removed_reply(3, Ok(2)),
        ":white_check_mark: Infractions ID `3` removed successfully!"
    );
    assert_eq!(
        infraction_removed_reply(3, Err(StoreError::BackendUnavailable)),
        ":x: Failed to remove infraction ID `3`!"
    );
}

#[test]
fn tag_replies() {
    assert_eq!(
        tag_added_reply("foo", &Ok(tag("foo", "bar"))),
        ":white_check_mark: Tag `foo` created with success!"
    );
    assert_eq!(
        tag_added_reply("foo", &Err(StoreError::AlreadyExists)),
        ":warning: Tag `foo` already exists!"
    );
    assert_eq!(tag_added_reply("foo", &Err(StoreError::Integrity)), ":x: Cannot create tag foo!");
    assert_eq!(
        tag_edited_reply("foo", &Err(StoreError::NotFound)),
        ":x: Tag `foo` doesn't exist or you're not the owner of it!"
    );
    assert_eq!(
        tag_edited_reply("foo", &Ok(tag("foo", "new"))),
        ":white_check_mark: Content of the tag `foo` updated successfully!"
    );
    assert_eq!(tag_shown_reply("foo", &Ok(tag("foo", "bar"))), "bar");
    assert_eq!(tag_shown_reply("foo", &Err(StoreError::NotFound)), ":x: Tag `foo` doesn't exists!");
    assert_eq!(tag_removed_reply("foo", 1), ":white_check_mark: Tag `foo` deleted!");
    assert_eq!(tag_removed_reply("foo", 0), ":x: You're not the owner of the tag `foo`!");
}

#[test]
fn sticker_lookup() {
    assert!(!has_one_key("", ""));
    assert!(!has_one_key("a", "b"));
    assert!(has_one_key("a", ""));
    assert!(has_one_key("", "b"));
    let names = vec!["cat".to_string(), "dog".to_string(), "cat".to_string()];
    let tags = vec![
        vec!["pet".to_string()],
        vec!["pet".to_string(), "loud".to_string()],
        vec!["loud".to_string()],
    ];
    assert_eq!(find_sticker(&names, &tags, "cat", ""), Some(0));
    assert_eq!(find_sticker(&names, &tags, "dog", ""), Some(1));
    assert_eq!(find_sticker(&names, &tags, "", "loud"), Some(1));
    assert_eq!(find_sticker(&names, &tags, "", "lou"), None);
    assert_eq!(find_sticker(&names, &tags, "cow", ""), None);
}

#[test]
fn case_list_text() {
    assert_eq!(format_case_list(&[], &[]), ":x: User has no infractions!");
    let cases = [
        UserInfractionModel { id: 4, user_id: "77".to_string(), infraction_id: 999, created_at: Some(0) },
        UserInfractionModel { id: 9, user_id: "77".to_string(), infraction_id: 2, created_at: None },
    ];
    let stamps = ["1970-01-01 00:00:00 UTC".to_string(), String::new()];
    assert_eq!(
        format_case_list(&cases, &stamps),
        "- ID: `4` | User ID: `77` | Infraction ID: `999` | Created At: `1970-01-01 00:00:00 UTC`\n- ID: `9` | User ID: `77` | Infraction ID: `2` | Created At: ``"
    );
}
