//! The replies the bot's commands send for each store outcome.
use vstd::prelude::*;
use crate::models::{InfractionModel, StoreError, TagModel, UserInfractionModel};
use crate::render::{format_infraction, infraction_card, push_signed, signed_decimal};

verus! {

/// `pre`, the decimal of `n`, then `post`.
pub fn frame_number(pre: &str, n: i64, post: &str) -> (r: String)
    ensures
        r@ == pre@ + signed_decimal(n as int) + post@,
{
    let mut out = pre.to_owned();
    push_signed(&mut out, n);
    out.append(post);
    out
}

/// `pre`, `text`, then `post`.
pub fn frame_text(pre: &str, text: &str, post: &str) -> (r: String)
    ensures
        r@ == pre@ + text@ + post@,
{
    let mut out = pre.to_owned();
    out.append(text);
    out.append(post);
    out
}

/// One line of the catalog listing.
pub open spec fn infraction_line(m: InfractionModel) -> Seq<char> {
    "- ID: `"@ + signed_decimal(m.id as int) + "` | Severity: `"@ + m.severity.spec_label()
        + "` | Punishment: `"@ + m.punishment.spec_label() + "` | Duration: `"@ + signed_decimal(
        m.duration as int,
    ) + "`"@
}

/// The lines of `rows`, joined by newlines.
pub open spec fn infraction_lines(rows: Seq<InfractionModel>) -> Seq<char>
    decreases rows.len(),
{
    if rows.len() == 0 {
        Seq::empty()
    } else if rows.len() == 1 {
        infraction_line(rows[0])
    } else {
        infraction_lines(rows.drop_last()) + "\n"@ + infraction_line(rows.last())
    }
}

/// The catalog listing, or a notice when the catalog is empty.
pub open spec fn infraction_listing(rows: Seq<InfractionModel>) -> Seq<char> {
    if rows.len() == 0 {
        ":x: No infractions found!"@
    } else {
        infraction_lines(rows)
    }
}

fn push_infraction_line(out: &mut String, m: &InfractionModel)
    ensures
        final(out)@ == old(out)@ + infraction_line(*m),
{
    out.append("- ID: `");
    push_signed(out, m.id as i64);
    out.append("` | Severity: `");
    out.append(m.severity.label());
    out.append("` | Punishment: `");
    out.append(m.punishment.label());
    out.append("` | Duration: `");
    push_signed(out, m.duration);
    out.append("`");
    assert(final(out)@ =~= old(out)@ + infraction_line(*m));
}

/// The reply to a catalog listing.
pub fn format_infraction_list(rows: &[InfractionModel]) -> (r: String)
    ensures
        r@ == infraction_listing(rows@),
{
    if rows.len() == 0 {
        return ":x: No infractions found!".to_owned();
    }
    let mut out = String::new();
    let mut i: usize = 0;
    while i < rows.len()
        invariant
            i <= rows@.len(),
            i == 0 ==> out@.len() == 0,
            i > 0 ==> out@ == infraction_lines(rows@.subrange(0, i as int)),
        decreases rows@.len() - i,
    {
        if i > 0 {
            out.append("\n");
        }
        push_infraction_line(&mut out, &rows[i]);
        proof {
            let next = rows@.subrange(0, i + 1);
            assert(next.drop_last() =~= rows@.subrange(0, i as int));
            assert(out@ =~= infraction_lines(next));
        }
        i = i + 1;
    }
    assert(rows@.subrange(0, rows@.len() as int) =~= rows@);
    out
}

/// The reply to adding catalog entry `id`.
pub open spec fn added_reply(id: i32, outcome: Result<InfractionModel, StoreError>) -> Seq<char> {
    match outcome {
        Ok(m) => ":white_check_mark: Infraction created!\n"@ + infraction_card(m),
        Err(StoreError::AlreadyExists) => ":warning: Infraction ID `"@ + signed_decimal(id as int)
            + "` already exists!"@,
        Err(_) => ":x: Failed to create infraction ID `"@ + signed_decimal(id as int) + "`!"@,
    }
}

pub fn infraction_added_reply(id: i32, outcome: Result<InfractionModel, StoreError>) -> (r: String)
    ensures
        r@ == added_reply(id, outcome),
{
    match outcome {
        Ok(m) => {
            let mut out = ":white_check_mark: Infraction created!\n".to_owned();
            let card = format_infraction(m);
            out.append(card.as_str());
            out
        },
        Err(StoreError::AlreadyExists) => frame_number(
            ":warning: Infraction ID `",
            id as i64,
            "` already exists!",
        ),
        Err(_) => frame_number(":x: Failed to create infraction ID `", id as i64, "`!"),
    }
}

/// The reply to editing catalog entry `id`.
pub open spec fn edited_reply(id: i32, outcome: Result<InfractionModel, StoreError>) -> Seq<char> {
    match outcome {
        Ok(_) => ":white_check_mark: Infraction ID `"@ + signed_decimal(id as int)
            + "` updated with success!"@,
        Err(StoreError::NotFound) => ":warning: Infraction ID `"@ + signed_decimal(id as int)
            + "` doesn't exist!"@,
        Err(_) => ":x: Failed to edit infraction ID `"@ + signed_decimal(id as int) + "`!"@,
    }
}

pub fn infraction_edited_reply(id: i32, outcome: Result<InfractionModel, StoreError>) -> (r: String)
    ensures
        r@ == edited_reply(id, outcome),
{
    match outcome {
        Ok(_) => frame_number(":white_check_mark: Infraction ID `", id as i64, "` updated with success!"),
        Err(StoreError::NotFound) => frame_number(
            ":warning: Infraction ID `",
            id as i64,
            "` doesn't exist!",
        ),
        Err(_) => frame_number(":x: Failed to edit infraction ID `", id as i64, "`!"),
    }
}

/// The reply to deleting catalog entry `id`, given how many rows went or
/// the failure.
pub open spec fn removed_reply(id: i32, outcome: Result<u64, StoreError>) -> Seq<char> {
    match outcome {
        Ok(0) => ":warning: There is no infraction ID `"@ + signed_decimal(id as int) + "`!"@,
        Ok(1) => ":white_check_mark: Infraction ID `"@ + signed_decimal(id as int)
            + "` removed successfully!"@,
        Ok(_) => ":white_check_mark: Infractions ID `"@ + signed_decimal(id as int)
            + "` removed successfully!"@,
        Err(_) => ":x: Failed to remove infraction ID `"@ + signed_decimal(id as int) + "`!"@,
    }
}

pub fn infraction_removed_reply(id: i32, outcome: Result<u64, StoreError>) -> (r: String)
    ensures
        r@ == removed_reply(id, outcome),
{
    match outcome {
        Ok(0) => frame_number(":warning: There is no infraction ID `", id as i64, "`!"),
        Ok(1) => frame_number(
            ":white_check_mark: Infraction ID `",
            id as i64,
            "` removed successfully!",
        ),
        Ok(_) => frame_number(
            ":white_check_mark: Infractions ID `",
            id as i64,
            "` removed successfully!",
        ),
        Err(_) => frame_number(":x: Failed to remove infraction ID `", id as i64, "`!"),
    }
}

/// The reply to creating tag `name`.
pub open spec fn tag_added_reply_spec(name: Seq<char>, outcome: Result<TagModel, StoreError>) -> Seq<
    char,
> {
    match outcome {
        Ok(t) => ":white_check_mark: Tag `"@ + t.name@ + "` created with success!"@,
        Err(StoreError::AlreadyExists) => ":warning: Tag `"@ + name + "` already exists!"@,
        Err(_) => ":x: Cannot create tag "@ + name + "!"@,
    }
}

pub fn tag_added_reply(name: &str, outcome: &Result<TagModel, StoreError>) -> (r: String)
    ensures
        r@ == tag_added_reply_spec(name@, *outcome),
{
    match outcome {
        Ok(t) => frame_text(":white_check_mark: Tag `", t.name.as_str(), "` created with success!"),
        Err(StoreError::AlreadyExists) => frame_text(":warning: Tag `", name, "` already exists!"),
        Err(_) => frame_text(":x: Cannot create tag ", name, "!"),
    }
}

/// The reply to editing tag `name`; a tag owned by someone else reads as
/// missing.
pub open spec fn tag_edited_reply_spec(name: Seq<char>, outcome: Result<TagModel, StoreError>) -> Seq<
    char,
> {
    match outcome {
        Ok(t) => ":white_check_mark: Content of the tag `"@ + t.name@ + "` updated successfully!"@,
        Err(_) => ":x: Tag `"@ + name + "` doesn't exist or you're not the owner of it!"@,
    }
}

pub fn tag_edited_reply(name: &str, outcome: &Result<TagModel, StoreError>) -> (r: String)
    ensures
        r@ == tag_edited_reply_spec(name@, *outcome),
{
    match outcome {
        Ok(t) => frame_text(
            ":white_check_mark: Content of the tag `",
            t.name.as_str(),
            "` updated successfully!",
        ),
        Err(_) => frame_text(":x: Tag `", name, "` doesn't exist or you're not the owner of it!"),
    }
}

/// The reply to showing tag `name`: its content, or a notice.
pub open spec fn tag_shown_reply_spec(name: Seq<char>, outcome: Result<TagModel, StoreError>) -> Seq<
    char,
> {
    match outcome {
        Ok(t) => t.content@,
        Err(_) => ":x: Tag `"@ + name + "` doesn't exists!"@,
    }
}

pub fn tag_shown_reply(name: &str, outcome: &Result<TagModel, StoreError>) -> (r: String)
    ensures
        r@ == tag_shown_reply_spec(name@, *outcome),
{
    match outcome {
        Ok(t) => t.content.clone(),
        Err(_) => frame_text(":x: Tag `", name, "` doesn't exists!"),
    }
}

/// The reply to deleting tag `name`, given how many rows went; the caller
/// has already checked that the tag exists, so 0 means another owner.
pub open spec fn tag_removed_reply_spec(name: Seq<char>, removed: u64) -> Seq<char> {
    if removed == 1 {
        ":white_check_mark: Tag `"@ + name + "` deleted!"@
    } else {
        ":x: You're not the owner of the tag `"@ + name + "`!"@
    }
}

pub fn tag_removed_reply(name: &str, removed: u64) -> (r: String)
    ensures
        r@ == tag_removed_reply_spec(name@, removed),
{
    if removed == 1 {
        frame_text(":white_check_mark: Tag `", name, "` deleted!")
    } else {
        frame_text(":x: You're not the owner of the tag `", name, "`!")
    }
}

/// One line of a user's case listing, with its creation time as rendered
/// by the caller.
pub open spec fn case_line(c: UserInfractionModel, stamp: Seq<char>) -> Seq<char> {
    "- ID: `"@ + signed_decimal(c.id as int) + "` | User ID: `"@ + c.user_id@
        + "` | Infraction ID: `"@ + signed_decimal(c.infraction_id as int) + "` | Created At: `"@
        + stamp + "`"@
}

/// The lines of `cases`, each with its stamp, joined by newlines.
pub open spec fn case_lines(cases: Seq<UserInfractionModel>, stamps: Seq<String>) -> Seq<char>
    decreases cases.len(),
{
    if cases.len() == 0 {
        Seq::empty()
    } else if cases.len() == 1 {
        case_line(cases[0], stamps[0]@)
    } else {
        case_lines(cases.drop_last(), stamps.subrange(0, cases.len() - 1)) + "\n"@ + case_line(
            cases.last(),
            stamps[cases.len() - 1]@,
        )
    }
}

/// A user's case listing, or a notice when the user has none.
pub open spec fn case_listing(cases: Seq<UserInfractionModel>, stamps: Seq<String>) -> Seq<char> {
    if cases.len() == 0 {
        ":x: User has no infractions!"@
    } else {
        case_lines(cases, stamps)
    }
}

fn push_case_line(out: &mut String, c: &UserInfractionModel, stamp: &String)
    ensures
        final(out)@ == old(out)@ + case_line(*c, stamp@),
{
    out.append("- ID: `");
    push_signed(out, c.id as i64);
    out.append("` | User ID: `");
    out.append(c.user_id.as_str());
    out.append("` | Infraction ID: `");
    push_signed(out, c.infraction_id as i64);
    out.append("` | Created At: `");
    out.append(stamp.as_str());
    out.append("`");
    assert(final(out)@ =~= old(out)@ + case_line(*c, stamp@));
}

/// The reply to listing a user's cases; `stamps[i]` is the creation time of
/// `cases[i]` as text.
pub fn format_case_list(cases: &[UserInfractionModel], stamps: &[String]) -> (r: String)
    requires
        cases@.len() == stamps@.len(),
    ensures
        r@ == case_listing(cases@, stamps@),
{
    if cases.len() == 0 {
        return ":x: User has no infractions!".to_owned();
    }
    let mut out = String::new();
    let mut i: usize = 0;
    while i < cases.len()
        invariant
            i <= cases@.len(),
            cases@.len() == stamps@.len(),
            i == 0 ==> out@.len() == 0,
            i > 0 ==> out@ == case_lines(cases@.subrange(0, i as int), stamps@.subrange(0, i as int)),
        decreases cases@.len() - i,
    {
        if i > 0 {
            out.append("\n");
        }
        push_case_line(&mut out, &cases[i], &stamps[i]);
        proof {
            let next = cases@.subrange(0, i + 1);
            let next_stamps = stamps@.subrange(0, i + 1);
            assert(next.drop_last() =~= cases@.subrange(0, i as int));
            assert(next_stamps.subrange(0, i as int) =~= stamps@.subrange(0, i as int));
            assert(out@ =~= case_lines(next, next_stamps));
        }
        i = i + 1;
    }
    assert(cases@.subrange(0, cases@.len() as int) =~= cases@);
    assert(stamps@.subrange(0, stamps@.len() as int) =~= stamps@);
    out
}

} // verus!
