//! Choosing a guild sticker by name or by tag.
use vstd::prelude::*;

verus! {

/// A lookup names exactly one key: a name or a tag, not both, not neither.
pub open spec fn one_key(name: Seq<char>, tag: Seq<char>) -> bool {
    (name.len() == 0) != (tag.len() == 0)
}

/// Sticker `i` answers the lookup: by its name when no tag is asked for,
/// else by carrying the tag among its tags.
pub open spec fn sticker_matches(
    names: Seq<String>,
    tags: Seq<Vec<String>>,
    i: int,
    name: Seq<char>,
    tag: Seq<char>,
) -> bool {
    if tag.len() == 0 {
        names[i]@ == name
    } else {
        exists|k: int| 0 <= k < tags[i]@.len() && (#[trigger] tags[i]@[k])@ == tag
    }
}

pub fn has_one_key(name: &str, tag: &str) -> (r: bool)
    ensures
        r == one_key(name@, tag@),
{
    (name.unicode_len() == 0) != (tag.unicode_len() == 0)
}

fn carries_tag(tags: &Vec<String>, tag: &String) -> (r: bool)
    ensures
        r == exists|k: int| 0 <= k < tags@.len() && (#[trigger] tags@[k])@ == tag@,
{
    let mut k: usize = 0;
    while k < tags.len()
        invariant
            k <= tags@.len(),
            forall|j: int| 0 <= j < k ==> (#[trigger] tags@[j])@ != tag@,
        decreases tags@.len() - k,
    {
        if tags[k] == *tag {
            return true;
        }
        k = k + 1;
    }
    false
}

/// The first sticker that answers the lookup, if any.
pub fn find_sticker(names: &Vec<String>, tags: &Vec<Vec<String>>, name: &str, tag: &str) -> (r:
    Option<usize>)
    requires
        names@.len() == tags@.len(),
    ensures
        match r {
            Some(i) => i < names@.len() && sticker_matches(names@, tags@, i as int, name@, tag@)
                && forall|j: int| 0 <= j < i ==> !sticker_matches(names@, tags@, j, name@, tag@),
            None => forall|j: int|
                0 <= j < names@.len() ==> !sticker_matches(names@, tags@, j, name@, tag@),
        },
{
    let key_name = name.to_owned();
    let key_tag = tag.to_owned();
    let by_name = tag.unicode_len() == 0;
    let mut i: usize = 0;
    while i < names.len()
        invariant
            i <= names@.len(),
            names@.len() == tags@.len(),
            key_name@ == name@,
            key_tag@ == tag@,
            by_name == (tag@.len() == 0),
            forall|j: int| 0 <= j < i ==> !sticker_matches(names@, tags@, j, name@, tag@),
        decreases names@.len() - i,
    {
        let hit = if by_name {
            names[i] == key_name
        } else {
            carries_tag(&tags[i], &key_tag)
        };
        if hit {
            return Some(i);
        }
        i = i + 1;
    }
    None
}

} // verus!
