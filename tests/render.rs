use mod_ledger::models::{InfractionModel, Punishment, Severity, TagModel};
use mod_ledger::render::{format_infraction, parse_tag_names, push_signed};

fn tag(name: &str, user: &str) -> TagModel {
    TagModel { id: 1, user_id: user.to_string(), name: name.to_string(), content: String::new() }
}

#[test]
fn infraction_card_text() {
    let m = InfractionModel {
        id: 12,
        severity: Severity::High,
        punishment: Punishment::Timeout,
        duration: -3600,
    };
    assert_eq!(
        format_infraction(m),
        ":information_source: ID: 12\n:information_source: Severity: High\n:information_source: Punishment: Timeout\n:information_source: Duration: -3600\r\n"
    );
}

#[test]
fn decimal_edges() {
    for n in [0i64, 7, 10, 99, 100, -1, -10, i64::MAX, i64::MIN] {
        let mut s = String::from("x");
        push_signed(&mut s, n);
        assert_eq!(s, format!("x{}", n));
    }
}

#[test]
fn tag_listing_text() {
    assert_eq!(parse_tag_names(&[]), ":x: No tags!");
    assert_eq!(parse_tag_names(&[tag("foo", "42")]), "- `foo` - <@42>");
    assert_eq!(
        parse_tag_names(&[tag("foo", "42"), tag("bar", "7")]),
        "- `foo` - <@42>\n- `bar` - <@7>"
    );
}
