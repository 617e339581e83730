use mod_ledger::database::Database;
use mod_ledger::models::{BackendFailure, Punishment, Severity, StoreError};

#[test]
fn create_definition_twice_is_refused() {
    let mut db = Database::new();
    let first = db.add_infraction(7, Severity::Mid, Punishment::Timeout, 600);
    assert!(first.is_ok());
    let second = db.add_infraction(7, Severity::High, Punishment::Ban, 0);
    assert!(matches!(second, Err(StoreError::AlreadyExists)));
    let kept = db.get_infraction(7).unwrap();
    assert_eq!(kept.severity, Severity::Mid);
    assert_eq!(kept.punishment, Punishment::Timeout);
    assert_eq!(kept.duration, 600);
    assert_eq!(db.get_infractions().len(), 1);
}

#[test]
fn update_unknown_definition_is_not_found() {
    let mut db = Database::new();
    db.add_infraction(1, Severity::Low, Punishment::Strike, 1).unwrap();
    let r = db.update_infraction(2, Severity::High, Punishment::Kick, 5);
    assert!(matches!(r, Err(StoreError::NotFound)));
    assert!(matches!(db.get_infraction(2), Err(StoreError::NotFound)));
}

#[test]
fn update_replaces_all_fields() {
    let mut db = Database::new();
    db.add_infraction(3, Severity::Low, Punishment::Strike, 1).unwrap();
    let r = db.update_infraction(3, Severity::High, Punishment::Ban, 86400).unwrap();
    assert_eq!(r.id, 3);
    let got = db.get_infraction(3).unwrap();
    assert_eq!(got.severity, Severity::High);
    assert_eq!(got.punishment, Punishment::Ban);
    assert_eq!(got.duration, 86400);
}

#[test]
fn delete_missing_definition_counts_zero() {
    let mut db = Database::new();
    assert_eq!(db.remove_infraction(999), 0);
    db.add_infraction(999, Severity::Low, Punishment::Strike, 1).unwrap();
    assert_eq!(db.remove_infraction(999), 1);
    assert_eq!(db.remove_infraction(999), 0);
    assert!(db.get_infractions().is_empty());
}

#[test]
fn definitions_listed_in_id_order() {
    let mut db = Database::new();
    assert!(db.get_infractions().is_empty());
    db.add_infraction(5, Severity::Low, Punishment::Strike, 1).unwrap();
    db.add_infraction(2, Severity::Mid, Punishment::Kick, 2).unwrap();
    db.add_infraction(9, Severity::High, Punishment::Ban, 3).unwrap();
    let ids: Vec<i32> = db.get_infractions().iter().map(|m| m.id).collect();
    assert_eq!(ids, vec![2, 5, 9]);
}

#[test]
fn deleting_definition_keeps_cases() {
    let mut db = Database::new();
    db.add_infraction(4, Severity::Low, Punishment::Strike, 1).unwrap();
    db.log_user_infraction("U1", 4, 100).unwrap();
    assert_eq!(db.remove_infraction(4), 1);
    let cases = db.get_user_infractions("U1");
    assert_eq!(cases.len(), 1);
    assert_eq!(cases[0].infraction_id, 4);
}

#[test]
fn adjust_twice_sums_deltas() {
    let mut db = Database::new();
    let a = db.create_or_add_user_bang_points("U1".to_string(), 5).unwrap();
    assert_eq!(a.points, 5);
    let b = db.create_or_add_user_bang_points("U1".to_string(), -12).unwrap();
    assert_eq!(b.points, -7);
    assert_eq!(a.id, b.id);
    assert_eq!(db.get_user_bang_points("U1".to_string()).unwrap().points, -7);
    assert_eq!(db.top_tallies(100).len(), 1);
}

#[test]
fn interleaved_adjustments_lose_nothing() {
    let mut db = Database::new();
    let steps: [(&str, i32); 6] = [("A", 3), ("B", 10), ("A", -1), ("C", 2), ("A", 7), ("B", -4)];
    for (user, delta) in steps.iter() {
        db.create_or_add_user_bang_points(user.to_string(), *delta).unwrap();
    }
    assert_eq!(db.get_user_bang_points("A".to_string()).unwrap().points, 9);
    assert_eq!(db.get_user_bang_points("B".to_string()).unwrap().points, 6);
    assert_eq!(db.get_user_bang_points("C".to_string()).unwrap().points, 2);
}

#[test]
fn adjust_overflow_is_integrity_and_keeps_tally() {
    let mut db = Database::new();
    db.create_or_add_user_bang_points("U".to_string(), i32::MAX).unwrap();
    let r = db.create_or_add_user_bang_points("U".to_string(), 1);
    assert!(matches!(r, Err(StoreError::Integrity)));
    assert_eq!(db.get_user_bang_points("U".to_string()).unwrap().points, i32::MAX);
    let low = db.create_or_add_user_bang_points("L".to_string(), i32::MIN).unwrap();
    assert_eq!(low.points, i32::MIN);
    assert!(matches!(
        db.create_or_add_user_bang_points("L".to_string(), -1),
        Err(StoreError::Integrity)
    ));
}

#[test]
fn tally_create_and_add_errors() {
    let mut db = Database::new();
    assert!(matches!(db.add_user_bang_points("X".to_string(), 1), Err(StoreError::NotFound)));
    assert!(matches!(db.get_user_bang_points("X".to_string()), Err(StoreError::NotFound)));
    db.create_user_bang_points("X".to_string(), 4).unwrap();
    assert!(matches!(
        db.create_user_bang_points("X".to_string(), 4),
        Err(StoreError::AlreadyExists)
    ));
    assert_eq!(db.add_user_bang_points("X".to_string(), 6).unwrap().points, 10);
}

#[test]
fn ranking_is_bounded_and_descending() {
    let mut db = Database::new();
    let points: [i32; 13] = [5, 40, -3, 40, 12, 0, 7, 99, 12, 1, 60, 2, 40];
    for (i, p) in points.iter().enumerate() {
        db.create_user_bang_points(format!("user{}", i), *p).unwrap();
    }
    let top = db.get_bang_ranking();
    assert_eq!(top.len(), 10);
    let got: Vec<i32> = top.iter().map(|t| t.points).collect();
    assert_eq!(got, vec![99, 60, 40, 40, 40, 12, 12, 7, 5, 2]);
    let tied: Vec<&str> = top[2..5].iter().map(|t| t.user_id.as_str()).collect();
    assert_eq!(tied, vec!["user1", "user3", "user12"]);
    assert_eq!(db.top_tallies(3).len(), 3);
    assert!(db.top_tallies(0).is_empty());
}

#[test]
fn ranking_of_few_rows_returns_all() {
    let mut db = Database::new();
    assert!(db.get_bang_ranking().is_empty());
    db.create_user_bang_points("a".to_string(), 1).unwrap();
    db.create_user_bang_points("b".to_string(), 3).unwrap();
    let got: Vec<i32> = db.get_bang_ranking().iter().map(|t| t.points).collect();
    assert_eq!(got, vec![3, 1]);
}

#[test]
fn tag_name_is_global() {
    let mut db = Database::new();
    db.add_tag("foo", "bar", "A").unwrap();
    let r = db.add_tag("foo", "baz", "B");
    assert!(matches!(r, Err(StoreError::AlreadyExists)));
    let t = db.get_tag("foo").unwrap();
    assert_eq!(t.content, "bar");
    assert_eq!(t.user_id, "A");
}

#[test]
fn edit_by_other_owner_is_not_found() {
    let mut db = Database::new();
    db.add_tag("foo", "bar", "A").unwrap();
    let r = db.update_tag("foo", "new", "B");
    assert!(matches!(r, Err(StoreError::NotFound)));
    assert!(matches!(db.update_tag("nope", "new", "A"), Err(StoreError::NotFound)));
    assert_eq!(db.get_tag("foo").unwrap().content, "bar");
    let ok = db.update_tag("foo", "new", "A").unwrap();
    assert_eq!(ok.content, "new");
    assert_eq!(ok.name, "foo");
    assert_eq!(db.get_tag("foo").unwrap().content, "new");
}

#[test]
fn delete_tag_twice() {
    let mut db = Database::new();
    db.add_tag("foo", "bar", "A").unwrap();
    assert_eq!(db.remove_tag("foo", "B"), 0);
    assert_eq!(db.remove_tag("foo", "A"), 1);
    assert_eq!(db.remove_tag("foo", "A"), 0);
    assert!(matches!(db.get_tag("foo"), Err(StoreError::NotFound)));
    db.add_tag("foo", "again", "B").unwrap();
    assert_eq!(db.get_tag("foo").unwrap().user_id, "B");
}

#[test]
fn tags_listed_by_owner() {
    let mut db = Database::new();
    assert!(db.get_all_tags().is_empty());
    db.add_tag("a", "1", "A").unwrap();
    db.add_tag("b", "2", "B").unwrap();
    db.add_tag("c", "3", "A").unwrap();
    let all: Vec<String> = db.get_all_tags().into_iter().map(|t| t.name).collect();
    assert_eq!(all, vec!["a", "b", "c"]);
    let mine: Vec<String> = db.get_user_tags("A").into_iter().map(|t| t.name).collect();
    assert_eq!(mine, vec!["a", "c"]);
    assert!(db.get_user_tags("Z").is_empty());
}

#[test]
fn dangling_case_is_logged_and_listed() {
    let mut db = Database::new();
    db.log_user_infraction("U1", 1, 10).unwrap();
    db.log_user_infraction("U2", 1, 11).unwrap();
    let c = db.log_user_infraction("U1", 999, 12).unwrap();
    assert_eq!(c.infraction_id, 999);
    assert_eq!(c.created_at, Some(12));
    assert!(matches!(db.get_infraction(999), Err(StoreError::NotFound)));
    let cases = db.get_user_infractions("U1");
    assert_eq!(cases.len(), 2);
    assert_eq!(cases[1].infraction_id, 999);
    assert!(cases[0].id < cases[1].id);
    assert!(db.get_user_infractions("U3").is_empty());
}

#[test]
fn punishments_get_ascending_ids() {
    let mut db = Database::new();
    let a = db.log_user_punishment("U1", Punishment::Timeout, 60).unwrap();
    let b = db.log_user_punishment("U1", Punishment::Ban, 0).unwrap();
    assert_eq!(a.id, 1);
    assert_eq!(b.id, 2);
    assert_eq!(b.punishment, Punishment::Ban);
    assert_eq!(a.user_id, "U1");
}

#[test]
fn enum_names_round_trip() {
    for s in [Severity::Low, Severity::Mid, Severity::High] {
        assert_eq!(Severity::from_name(s.name()).unwrap(), s);
    }
    for p in [Punishment::Strike, Punishment::Timeout, Punishment::Ban, Punishment::Kick] {
        assert_eq!(Punishment::from_name(p.name()).unwrap(), p);
    }
    assert_eq!(Severity::High.name(), "high");
    assert_eq!(Punishment::Timeout.name(), "timeout");
    assert!(matches!(Severity::from_name("Low"), Err(StoreError::Integrity)));
    assert!(matches!(Punishment::from_name("mute"), Err(StoreError::Integrity)));
}

#[test]
fn backend_failures_are_classified() {
    assert_eq!(StoreError::classify(BackendFailure::RowNotFound), StoreError::NotFound);
    assert_eq!(StoreError::classify(BackendFailure::UniqueViolation), StoreError::AlreadyExists);
    assert_eq!(StoreError::classify(BackendFailure::Transport), StoreError::BackendUnavailable);
    assert_eq!(StoreError::classify(BackendFailure::Decode), StoreError::Integrity);
    assert_eq!(StoreError::classify(BackendFailure::OutOfRange), StoreError::Integrity);
}

#[test]
fn cases_listed_by_creation_time() {
    let mut db = Database::new();
    let late = db.log_user_infraction("U1", 1, 100).unwrap();
    let early = db.log_user_infraction("U1", 2, 50).unwrap();
    let tie = db.log_user_infraction("U1", 3, 100).unwrap();
    db.log_user_infraction("U2", 4, 10).unwrap();
    let ids: Vec<i32> = db.get_user_infractions("U1").iter().map(|c| c.id).collect();
    assert_eq!(ids, vec![early.id, late.id, tie.id]);
    let stamps: Vec<Option<i64>> =
        db.get_user_infractions("U1").iter().map(|c| c.created_at).collect();
    assert_eq!(stamps, vec![Some(50), Some(100), Some(100)]);
}

#[test]
fn adjusted_tally_keeps_its_id() {
    let mut db = Database::new();
    db.create_or_add_user_bang_points("A".to_string(), 1).unwrap();
    let b = db.create_or_add_user_bang_points("B".to_string(), 1).unwrap();
    let again = db.create_or_add_user_bang_points("B".to_string(), 4).unwrap();
    assert_eq!(again.id, b.id);
    assert_eq!(again.user_id, "B");
    assert_eq!(again.points, 5);
}

#[test]
fn sqlstate_codes_are_read() {
    assert_eq!(BackendFailure::from_sqlstate("23505"), BackendFailure::UniqueViolation);
    assert_eq!(BackendFailure::from_sqlstate("22003"), BackendFailure::OutOfRange);
    assert_eq!(BackendFailure::from_sqlstate("2200H"), BackendFailure::OutOfRange);
    assert_eq!(BackendFailure::from_sqlstate("08006"), BackendFailure::Transport);
    assert_eq!(
        StoreError::classify(BackendFailure::from_sqlstate("23505")),
        StoreError::AlreadyExists
    );
}
