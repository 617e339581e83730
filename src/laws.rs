//! Properties that hold across several store operations.
use vstd::prelude::*;
use crate::database::{
    case_logged, case_of_user, cases_of, fits_i32, has_tally, infraction_added,
    owns_tag, points_of, tag_added, tag_edited, tag_removed, tally_adjusted, Database,
    SERIAL_MAX,
};
use crate::models::{BangPointModel, InfractionModel, StoreError, TagModel, UserInfractionModel};

verus! {

/// Adding a catalog entry and then another under the same id: the second is
/// refused as already existing, whatever became of the first.
pub proof fn law_catalog_id_taken(
    d0: Database,
    d1: Database,
    d2: Database,
    m1: InfractionModel,
    m2: InfractionModel,
    r1: Result<InfractionModel, StoreError>,
    r2: Result<InfractionModel, StoreError>,
)
    requires
        m1.id == m2.id,
        infraction_added(d0, d1, m1, r1),
        infraction_added(d1, d2, m2, r2),
    ensures
        r2 == Err::<InfractionModel, StoreError>(StoreError::AlreadyExists),
        d2.infraction_rows() == d1.infraction_rows(),
{
}

/// What `user`'s adjustments among `users` and `deltas` add up to.
pub open spec fn delta_total(users: Seq<Seq<char>>, deltas: Seq<int>, user: Seq<char>) -> int
    decreases users.len(),
{
    if users.len() == 0 || deltas.len() == 0 {
        0
    } else {
        delta_total(users.drop_last(), deltas.drop_last(), user) + if users.last() == user {
            deltas.last()
        } else {
            0
        }
    }
}

/// Two adjustments of a user without a tally leave it at the sum of both
/// deltas, as long as every intermediate value fits.
pub proof fn law_adjust_twice(
    d0: Database,
    d1: Database,
    d2: Database,
    user: Seq<char>,
    delta1: int,
    delta2: int,
    r1: Result<BangPointModel, StoreError>,
    r2: Result<BangPointModel, StoreError>,
)
    requires
        !has_tally(d0.tally_rows(), user),
        d0.next_tally_id() <= SERIAL_MAX,
        fits_i32(delta1 + delta2),
        tally_adjusted(d0, d1, user, delta1, r1),
        tally_adjusted(d1, d2, user, delta2, r2),
    ensures
        r1 is Ok,
        r2 is Ok,
        points_of(d2.tally_rows(), user) == delta1 + delta2,
        r2->Ok_0.points == delta1 + delta2,
{
}

/// Any run of successful adjustments, for any users in any interleaving,
/// moves `user`'s tally by exactly the sum of `user`'s deltas: none is lost.
pub proof fn law_adjust_interleaved(
    states: Seq<Database>,
    users: Seq<Seq<char>>,
    deltas: Seq<int>,
    results: Seq<Result<BangPointModel, StoreError>>,
    user: Seq<char>,
)
    requires
        states.len() == users.len() + 1,
        deltas.len() == users.len(),
        results.len() == users.len(),
        forall|k: int|
            0 <= k < users.len() ==> tally_adjusted(
                #[trigger] states[k],
                states[k + 1],
                users[k],
                deltas[k],
                results[k],
            ) && results[k] is Ok,
    ensures
        points_of(states.last().tally_rows(), user) == points_of(states[0].tally_rows(), user)
            + delta_total(users, deltas, user),
    decreases users.len(),
{
    let n = users.len() as int;
    if n > 0 {
        law_adjust_interleaved(
            states.drop_last(),
            users.drop_last(),
            deltas.drop_last(),
            results.drop_last(),
            user,
        );
        assert(tally_adjusted(states[n - 1], states[n], users[n - 1], deltas[n - 1], results[n - 1]));
    }
}

/// Creating a tag under a name that a create just used is refused as
/// already existing, whoever asks, while tag ids remain.
pub proof fn law_tag_name_taken(
    d0: Database,
    d1: Database,
    d2: Database,
    name: Seq<char>,
    content1: Seq<char>,
    owner1: Seq<char>,
    content2: Seq<char>,
    owner2: Seq<char>,
    r1: Result<TagModel, StoreError>,
    r2: Result<TagModel, StoreError>,
)
    requires
        d0.next_tag_id() <= SERIAL_MAX,
        tag_added(d0, d1, name, content1, owner1, r1),
        tag_added(d1, d2, name, content2, owner2, r2),
    ensures
        r2 == Err::<TagModel, StoreError>(StoreError::AlreadyExists),
        d2.tag_rows() == d1.tag_rows(),
{
    if r1 is Ok {
        let n = d0.tag_rows().len() as int;
        assert(d1.tag_rows()[n].name@ == name);
    }
}

/// Editing a tag as anyone but its owner reports it as not found and
/// changes nothing.
pub proof fn law_edit_masks_owner(
    d0: Database,
    d1: Database,
    name: Seq<char>,
    content: Seq<char>,
    owner: Seq<char>,
    other: Seq<char>,
    r: Result<TagModel, StoreError>,
)
    requires
        owns_tag(d0.tag_rows(), name, owner),
        other != owner,
        tag_edited(d0, d1, name, content, other, r),
    ensures
        r == Err::<TagModel, StoreError>(StoreError::NotFound),
        d1.tag_rows() == d0.tag_rows(),
{
}

/// The owner deleting their tag twice: the first removes one row, the second
/// none.
pub proof fn law_delete_twice(
    d0: Database,
    d1: Database,
    d2: Database,
    name: Seq<char>,
    owner: Seq<char>,
    r1: u64,
    r2: u64,
)
    requires
        owns_tag(d0.tag_rows(), name, owner),
        tag_removed(d0, d1, name, owner, r1),
        tag_removed(d1, d2, name, owner, r2),
    ensures
        r1 == 1,
        r2 == 0,
        d2.tag_rows() == d1.tag_rows(),
{
}

/// Logging a case needs no catalog entry: while case ids remain it succeeds,
/// and the user's cases gain it, so the user's listing (ordered by creation
/// time) includes it.
pub proof fn law_case_logged_and_listed(
    d0: Database,
    d1: Database,
    user: Seq<char>,
    infraction_id: i32,
    created_at: i64,
    r: Result<UserInfractionModel, StoreError>,
)
    requires
        d0.next_case_id() <= SERIAL_MAX,
        case_logged(d0, d1, user, infraction_id, created_at, r),
    ensures
        r is Ok,
        cases_of(d1.case_rows(), user) == cases_of(d0.case_rows(), user).push(r->Ok_0),
        cases_of(d1.case_rows(), user).contains(r->Ok_0),
{
    let c = r->Ok_0;
    d0.case_rows().lemma_filter_push(c, case_of_user(user));
    assert(cases_of(d1.case_rows(), user)[cases_of(d0.case_rows(), user).len() as int] == c);
}

} // verus!
