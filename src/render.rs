//! The text shown for catalog entries and tag listings.
use vstd::prelude::*;
use crate::models::{InfractionModel, TagModel};

verus! {

pub open spec fn digit_text(d: int) -> Seq<char> {
    if d == 0 {
        "0"@
    } else if d == 1 {
        "1"@
    } else if d == 2 {
        "2"@
    } else if d == 3 {
        "3"@
    } else if d == 4 {
        "4"@
    } else if d == 5 {
        "5"@
    } else if d == 6 {
        "6"@
    } else if d == 7 {
        "7"@
    } else if d == 8 {
        "8"@
    } else {
        "9"@
    }
}

/// The decimal digits of `n`, most significant first, without leading zeros.
pub open spec fn decimal(n: nat) -> Seq<char>
    decreases n,
{
    if n < 10 {
        digit_text(n as int)
    } else {
        decimal(n / 10) + digit_text((n % 10) as int)
    }
}

/// `n` in decimal, with a leading `-` when negative.
pub open spec fn signed_decimal(n: int) -> Seq<char> {
    if n < 0 {
        "-"@ + decimal((-n) as nat)
    } else {
        decimal(n as nat)
    }
}

fn digit(d: u64) -> (r: &'static str)
    requires
        d < 10,
    ensures
        r@ == digit_text(d as int),
{
    if d == 0 {
        "0"
    } else if d == 1 {
        "1"
    } else if d == 2 {
        "2"
    } else if d == 3 {
        "3"
    } else if d == 4 {
        "4"
    } else if d == 5 {
        "5"
    } else if d == 6 {
        "6"
    } else if d == 7 {
        "7"
    } else if d == 8 {
        "8"
    } else {
        "9"
    }
}

fn push_decimal(out: &mut String, n: u64)
    ensures
        final(out)@ == old(out)@ + decimal(n as nat),
    decreases n,
{
    if n >= 10 {
        push_decimal(out, n / 10);
    }
    out.append(digit(n % 10));
    proof {
        if n >= 10 {
            assert(decimal(n as nat) == decimal((n / 10) as nat) + digit_text((n % 10) as int));
        }
    }
    assert(final(out)@ =~= old(out)@ + decimal(n as nat));
}

/// Appends `n` in decimal.
pub fn push_signed(out: &mut String, n: i64)
    ensures
        final(out)@ == old(out)@ + signed_decimal(n as int),
{
    if n < 0 {
        out.append("-");
        let m: u64 = (-(n as i128)) as u64;
        push_decimal(out, m);
        assert(final(out)@ =~= old(out)@ + signed_decimal(n as int));
    } else {
        push_decimal(out, n as u64);
    }
}

/// The card that describes a catalog entry.
pub open spec fn infraction_card(m: InfractionModel) -> Seq<char> {
    ":information_source: ID: "@ + signed_decimal(m.id as int)
        + "\n:information_source: Severity: "@ + m.severity.spec_label()
        + "\n:information_source: Punishment: "@ + m.punishment.spec_label()
        + "\n:information_source: Duration: "@ + signed_decimal(m.duration as int) + "\r\n"@
}

pub fn format_infraction(m: InfractionModel) -> (r: String)
    ensures
        r@ == infraction_card(m),
{
    let mut out = String::new();
    out.append(":information_source: ID: ");
    push_signed(&mut out, m.id as i64);
    out.append("\n:information_source: Severity: ");
    out.append(m.severity.label());
    out.append("\n:information_source: Punishment: ");
    out.append(m.punishment.label());
    out.append("\n:information_source: Duration: ");
    push_signed(&mut out, m.duration);
    out.append("\r\n");
    assert(out@ =~= infraction_card(m));
    out
}

/// One listing line: the tag's name and a mention of its owner.
pub open spec fn tag_line(t: TagModel) -> Seq<char> {
    "- `"@ + t.name@ + "` - <@"@ + t.user_id@ + ">"@
}

/// The lines of `tags`, joined by newlines.
pub open spec fn tag_lines(tags: Seq<TagModel>) -> Seq<char>
    decreases tags.len(),
{
    if tags.len() == 0 {
        Seq::empty()
    } else if tags.len() == 1 {
        tag_line(tags[0])
    } else {
        tag_lines(tags.drop_last()) + "\n"@ + tag_line(tags.last())
    }
}

/// The listing of `tags`, or a notice when there are none.
pub open spec fn tag_listing(tags: Seq<TagModel>) -> Seq<char> {
    if tags.len() == 0 {
        ":x: No tags!"@
    } else {
        tag_lines(tags)
    }
}

fn push_tag_line(out: &mut String, t: &TagModel)
    ensures
        final(out)@ == old(out)@ + tag_line(*t),
{
    out.append("- `");
    out.append(t.name.as_str());
    out.append("` - <@");
    out.append(t.user_id.as_str());
    out.append(">");
    assert(final(out)@ =~= old(out)@ + tag_line(*t));
}

pub fn parse_tag_names(tags: &[TagModel]) -> (r: String)
    ensures
        r@ == tag_listing(tags@),
{
    if tags.len() == 0 {
        return ":x: No tags!".to_owned();
    }
    let mut out = String::new();
    let mut i: usize = 0;
    while i < tags.len()
        invariant
            i <= tags@.len(),
            i == 0 ==> out@.len() == 0,
            i > 0 ==> out@ == tag_lines(tags@.subrange(0, i as int)),
        decreases tags@.len() - i,
    {
        let ghost before = out@;
        if i > 0 {
            out.append("\n");
        }
        push_tag_line(&mut out, &tags[i]);
        proof {
            let next = tags@.subrange(0, i + 1);
            assert(next.drop_last() =~= tags@.subrange(0, i as int));
            if i == 0 {
                assert(out@ =~= tag_lines(next));
            } else {
                assert(out@ =~= tag_lines(next));
            }
        }
        i = i + 1;
    }
    assert(tags@.subrange(0, tags@.len() as int) =~= tags@);
    out
}

} // verus!
