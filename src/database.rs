use vstd::prelude::*;
use crate::models::{
    BangPointModel, InfractionModel, Punishment, PunishmentModel, Severity, StoreError, TagModel,
    UserInfractionModel,
};

verus! {

/// Highest id an auto-incremented column can hand out.
pub const SERIAL_MAX: i64 = 2147483647;

/// Ids strictly ascending in row order.
pub open spec fn ascending(ids: Seq<int>) -> bool {
    forall|i: int, j: int| 0 <= i < j < ids.len() ==> ids[i] < ids[j]
}

/// Ids in row order: strictly ascending, each at least 1 and below `next`,
/// the id the next insert receives.
pub open spec fn serial(ids: Seq<int>, next: int) -> bool {
    &&& 1 <= next <= SERIAL_MAX + 1
    &&& ascending(ids)
    &&& forall|i: int| 0 <= i < ids.len() ==> 1 <= #[trigger] ids[i] < next
}

pub proof fn lemma_ascending_remove(ids: Seq<int>, k: int)
    requires
        ascending(ids),
        0 <= k < ids.len(),
    ensures
        ascending(ids.remove(k)),
{
    let r = ids.remove(k);
    assert forall|i: int, j: int| 0 <= i < j < r.len() implies r[i] < r[j] by {
        let oi = if i < k { i } else { i + 1 };
        let oj = if j < k { j } else { j + 1 };
        assert(r[i] == ids[oi] && r[j] == ids[oj]);
    }
}

pub proof fn lemma_ascending_insert(ids: Seq<int>, p: int, v: int)
    requires
        ascending(ids),
        0 <= p <= ids.len(),
        forall|i: int| 0 <= i < p ==> #[trigger] ids[i] < v,
        forall|i: int| p <= i < ids.len() ==> #[trigger] ids[i] > v,
    ensures
        ascending(ids.insert(p, v)),
{
    let r = ids.insert(p, v);
    assert forall|i: int, j: int| 0 <= i < j < r.len() implies r[i] < r[j] by {
        if i < p {
            assert(r[i] == ids[i]);
        } else if i > p {
            assert(r[i] == ids[i - 1]);
        }
        if j < p {
            assert(r[j] == ids[j]);
        } else if j > p {
            assert(r[j] == ids[j - 1]);
        }
    }
}

pub proof fn lemma_serial_push(ids: Seq<int>, next: int)
    requires
        serial(ids, next),
        next <= SERIAL_MAX,
    ensures
        serial(ids.push(next), next + 1),
{
}

pub proof fn lemma_serial_remove(ids: Seq<int>, next: int, k: int)
    requires
        serial(ids, next),
        0 <= k < ids.len(),
    ensures
        serial(ids.remove(k), next),
{
    let r = ids.remove(k);
    lemma_ascending_remove(ids, k);
    assert forall|i: int| 0 <= i < r.len() implies 1 <= #[trigger] r[i] < next by {
        let oi = if i < k { i } else { i + 1 };
        assert(r[i] == ids[oi]);
    }
}

// ---------------------------------------------------------------- catalog

pub open spec fn has_infraction(rows: Seq<InfractionModel>, id: i32) -> bool {
    exists|i: int| 0 <= i < rows.len() && (#[trigger] rows[i]).id == id
}

/// Where the catalog entry `id` stands; meaningful when it exists.
pub open spec fn infraction_pos(rows: Seq<InfractionModel>, id: i32) -> int {
    choose|i: int| 0 <= i < rows.len() && (#[trigger] rows[i]).id == id
}

pub open spec fn infraction_ids(rows: Seq<InfractionModel>) -> Seq<int> {
    rows.map_values(|r: InfractionModel| r.id as int)
}

/// Where an entry with id `id` goes so that ids keep ascending: after every
/// smaller id, before every larger one.
pub open spec fn infraction_slot(rows: Seq<InfractionModel>, id: i32) -> int {
    choose|p: int| #[trigger] slot_for(rows, id, p)
}

/// Every id before position `p` is smaller than `id`, every id from `p` on larger.
pub open spec fn slot_for(rows: Seq<InfractionModel>, id: i32, p: int) -> bool {
    &&& 0 <= p <= rows.len()
    &&& forall|i: int| 0 <= i < p ==> (#[trigger] rows[i]).id < id
    &&& forall|i: int| p <= i < rows.len() ==> (#[trigger] rows[i]).id > id
}

pub proof fn lemma_ascending_unique(rows: Seq<InfractionModel>)
    requires
        ascending(infraction_ids(rows)),
    ensures
        infraction_ids_unique(rows),
{
    let ids = infraction_ids(rows);
    assert forall|i: int, j: int|
        0 <= i < rows.len() && 0 <= j < rows.len() && (#[trigger] rows[i]).id == (
        #[trigger] rows[j]).id implies i == j by {
        if i < j {
            assert(ids[i] < ids[j]);
        } else if j < i {
            assert(ids[j] < ids[i]);
        }
    }
}

pub open spec fn infraction_ids_unique(rows: Seq<InfractionModel>) -> bool {
    forall|i: int, j: int|
        0 <= i < rows.len() && 0 <= j < rows.len() && (#[trigger] rows[i]).id == (#[trigger] rows[j]).id
            ==> i == j
}

/// The catalog after every field but the id of entry `m.id` is replaced by `m`'s.
pub open spec fn replace_infraction(rows: Seq<InfractionModel>, m: InfractionModel) -> Seq<
    InfractionModel,
> {
    rows.update(infraction_pos(rows, m.id), m)
}

// ---------------------------------------------------------------- cases and punishments

pub open spec fn case_ids(rows: Seq<UserInfractionModel>) -> Seq<int> {
    rows.map_values(|r: UserInfractionModel| r.id as int)
}

pub open spec fn punishment_ids(rows: Seq<PunishmentModel>) -> Seq<int> {
    rows.map_values(|r: PunishmentModel| r.id as int)
}

/// Whether a case was logged against `user`.
pub open spec fn case_of_user(user: Seq<char>) -> spec_fn(UserInfractionModel) -> bool {
    |r: UserInfractionModel| r.user_id@ == user
}

/// The cases logged against `user`, in the order they were logged.
pub open spec fn cases_of(rows: Seq<UserInfractionModel>, user: Seq<char>) -> Seq<
    UserInfractionModel,
> {
    rows.filter(case_of_user(user))
}

/// Where a case's creation time ranks; a case without one ranks after every
/// stamped case.
pub open spec fn stamp_rank(t: Option<i64>) -> int {
    match t {
        Some(v) => v as int,
        None => i64::MAX as int + 1,
    }
}

/// `a` is listed before `b`: created earlier, or at the same time and logged
/// first.
pub open spec fn listed_before(a: UserInfractionModel, b: UserInfractionModel) -> bool {
    stamp_rank(a.created_at) < stamp_rank(b.created_at) || (stamp_rank(a.created_at)
        == stamp_rank(b.created_at) && a.id < b.id)
}

fn stamp_le(a: Option<i64>, b: Option<i64>) -> (r: bool)
    ensures
        r == (stamp_rank(a) <= stamp_rank(b)),
{
    match a {
        Some(x) => match b {
            Some(y) => x <= y,
            None => true,
        },
        None => b.is_none(),
    }
}

/// A user's cases, in log order, have strictly ascending ids.
pub proof fn lemma_cases_ascending(rows: Seq<UserInfractionModel>, user: Seq<char>, next: int)
    requires
        serial(case_ids(rows), next),
    ensures
        forall|i: int, j: int|
            0 <= i < j < cases_of(rows, user).len() ==> (#[trigger] cases_of(rows, user)[i]).id < (
            #[trigger] cases_of(rows, user)[j]).id,
    decreases rows.len(),
{
    if rows.len() > 0 {
        let front = rows.drop_last();
        let last = rows.last();
        let pred = case_of_user(user);
        assert(rows == front.push(last));
        assert(case_ids(front) =~= case_ids(rows).drop_last());
        lemma_cases_ascending(front, user, next);
        front.lemma_filter_push(last, pred);
        let f = cases_of(front, user);
        assert forall|i: int| 0 <= i < f.len() implies (#[trigger] f[i]).id < last.id by {
            assert(f.contains(f[i]));
            front.lemma_filter_contains_rev(pred, f[i]);
            let k = choose|k: int| 0 <= k < front.len() && front[k] == f[i];
            assert(case_ids(rows)[k] == rows[k].id as int);
            assert(case_ids(rows)[rows.len() - 1] == last.id as int);
        }
    }
}


// ---------------------------------------------------------------- tallies

pub open spec fn tally_ids(rows: Seq<BangPointModel>) -> Seq<int> {
    rows.map_values(|r: BangPointModel| r.id as int)
}

pub open spec fn has_tally(rows: Seq<BangPointModel>, user: Seq<char>) -> bool {
    exists|i: int| 0 <= i < rows.len() && (#[trigger] rows[i]).user_id@ == user
}

/// Where `user`'s tally stands; meaningful when it exists.
pub open spec fn tally_pos(rows: Seq<BangPointModel>, user: Seq<char>) -> int {
    choose|i: int| 0 <= i < rows.len() && (#[trigger] rows[i]).user_id@ == user
}

pub open spec fn tally_users_unique(rows: Seq<BangPointModel>) -> bool {
    forall|i: int, j: int|
        0 <= i < rows.len() && 0 <= j < rows.len() && (#[trigger] rows[i]).user_id@ == (
        #[trigger] rows[j]).user_id@ ==> i == j
}

/// `user`'s points; a user without a tally row stands at 0.
pub open spec fn points_of(rows: Seq<BangPointModel>, user: Seq<char>) -> int {
    if has_tally(rows, user) {
        rows[tally_pos(rows, user)].points as int
    } else {
        0
    }
}

pub open spec fn fits_i32(x: int) -> bool {
    i32::MIN <= x <= i32::MAX
}

/// `row` with `delta` added to its points.
pub open spec fn raised(row: BangPointModel, delta: int) -> BangPointModel {
    BangPointModel { id: row.id, user_id: row.user_id, points: (row.points + delta) as i32 }
}

/// `a` ranks before `b`: more points, or as many and started earlier.
pub open spec fn ranks_above(a: BangPointModel, b: BangPointModel) -> bool {
    a.points > b.points || (a.points == b.points && a.id < b.id)
}

/// How many tallies the ranking shows.
pub const RANKING_SIZE: usize = 10;

// ---------------------------------------------------------------- tags

pub open spec fn tag_ids(rows: Seq<TagModel>) -> Seq<int> {
    rows.map_values(|r: TagModel| r.id as int)
}

pub open spec fn has_tag(rows: Seq<TagModel>, name: Seq<char>) -> bool {
    exists|i: int| 0 <= i < rows.len() && (#[trigger] rows[i]).name@ == name
}

/// Where the tag `name` stands; meaningful when it exists.
pub open spec fn tag_pos(rows: Seq<TagModel>, name: Seq<char>) -> int {
    choose|i: int| 0 <= i < rows.len() && (#[trigger] rows[i]).name@ == name
}

/// The tag `name` exists and `owner` owns it.
pub open spec fn owns_tag(rows: Seq<TagModel>, name: Seq<char>, owner: Seq<char>) -> bool {
    has_tag(rows, name) && rows[tag_pos(rows, name)].user_id@ == owner
}

pub open spec fn tag_names_unique(rows: Seq<TagModel>) -> bool {
    forall|i: int, j: int|
        0 <= i < rows.len() && 0 <= j < rows.len() && (#[trigger] rows[i]).name@ == (
        #[trigger] rows[j]).name@ ==> i == j
}

/// Whether a tag is owned by `user`.
pub open spec fn tag_of_user(user: Seq<char>) -> spec_fn(TagModel) -> bool {
    |r: TagModel| r.user_id@ == user
}

/// The tags owned by `user`, in the order they were created.
pub open spec fn tags_of(rows: Seq<TagModel>, user: Seq<char>) -> Seq<TagModel> {
    rows.filter(tag_of_user(user))
}

/// An in-memory reference model of the relational state behind the stores:
/// one table per entity, and the next id of each auto-incremented table. The
/// catalog is kept in id order, the other tables in insertion order. The
/// application's Postgres store runs the same operations as SQL, which is not
/// verified.
pub struct Database {
    infractions: Vec<InfractionModel>,
    cases: Vec<UserInfractionModel>,
    punishments: Vec<PunishmentModel>,
    tallies: Vec<BangPointModel>,
    tags: Vec<TagModel>,
    next_case_id: i64,
    next_punishment_id: i64,
    next_tally_id: i64,
    next_tag_id: i64,
}

/// The outcome of adding catalog entry `m`: refused when its id is taken,
/// else inserted at its place in id order.
pub open spec fn infraction_added(
    before: Database,
    after: Database,
    m: InfractionModel,
    r: Result<InfractionModel, StoreError>,
) -> bool {
    &&& has_infraction(before.infraction_rows(), m.id) ==> r == Err::<InfractionModel, StoreError>(
        StoreError::AlreadyExists,
    ) && after.infraction_rows() == before.infraction_rows()
    &&& !has_infraction(before.infraction_rows(), m.id) ==> r == Ok::<InfractionModel, StoreError>(m)
        && after.infraction_rows() == before.infraction_rows().insert(
        infraction_slot(before.infraction_rows(), m.id),
        m,
    )
    &&& has_infraction(after.infraction_rows(), m.id)
}

/// The outcome of logging a case: appended under the next case id unless the
/// ids are used up.
pub open spec fn case_logged(
    before: Database,
    after: Database,
    user: Seq<char>,
    infraction_id: i32,
    created_at: i64,
    r: Result<UserInfractionModel, StoreError>,
) -> bool {
    match r {
        Ok(c) => {
            &&& before.next_case_id() <= SERIAL_MAX
            &&& c.id == before.next_case_id()
            &&& c.user_id@ == user
            &&& c.infraction_id == infraction_id
            &&& c.created_at == Some(created_at)
            &&& after.case_rows() == before.case_rows().push(c)
            &&& after.next_case_id() == before.next_case_id() + 1
        },
        Err(e) => {
            &&& before.next_case_id() > SERIAL_MAX
            &&& e == StoreError::Integrity
            &&& after.case_rows() == before.case_rows()
            &&& after.next_case_id() == before.next_case_id()
        },
    }
}

/// The outcome of adjusting `user`'s tally by `delta`: on success the tally
/// exists, stands `delta` higher (a new one stands at `delta`), and no other
/// user's tally moved; on failure nothing changed.
pub open spec fn tally_adjusted(
    before: Database,
    after: Database,
    user: Seq<char>,
    delta: int,
    r: Result<BangPointModel, StoreError>,
) -> bool {
    match r {
        Ok(t) => {
            &&& t.user_id@ == user
            &&& t.points == points_of(after.tally_rows(), user)
            &&& points_of(after.tally_rows(), user) == points_of(before.tally_rows(), user) + delta
            &&& has_tally(after.tally_rows(), user)
            &&& has_tally(before.tally_rows(), user) ==> t == raised(
                before.tally_rows()[tally_pos(before.tally_rows(), user)],
                delta,
            ) && after.tally_rows() == before.tally_rows().update(
                tally_pos(before.tally_rows(), user),
                t,
            ) && after.next_tally_id() == before.next_tally_id()
            &&& !has_tally(before.tally_rows(), user) ==> after.tally_rows()
                == before.tally_rows().push(t) && t.id == before.next_tally_id()
                && after.next_tally_id() == before.next_tally_id() + 1
            &&& forall|u: Seq<char>|
                u != user ==> (has_tally(after.tally_rows(), u) == has_tally(before.tally_rows(), u)
                    && points_of(after.tally_rows(), u) == points_of(before.tally_rows(), u))
        },
        Err(e) => {
            &&& e == StoreError::Integrity
            &&& has_tally(before.tally_rows(), user) ==> !fits_i32(
                points_of(before.tally_rows(), user) + delta,
            )
            &&& !has_tally(before.tally_rows(), user) ==> before.next_tally_id() > SERIAL_MAX
            &&& after.same_tallies(&before)
        },
    }
}

/// The outcome of creating tag `name`: refused when the name is taken by
/// anyone, else appended under the next tag id unless the ids are used up.
pub open spec fn tag_added(
    before: Database,
    after: Database,
    name: Seq<char>,
    content: Seq<char>,
    owner: Seq<char>,
    r: Result<TagModel, StoreError>,
) -> bool {
    match r {
        Ok(t) => {
            &&& !has_tag(before.tag_rows(), name)
            &&& before.next_tag_id() <= SERIAL_MAX
            &&& t.id == before.next_tag_id()
            &&& t.user_id@ == owner
            &&& t.name@ == name
            &&& t.content@ == content
            &&& after.tag_rows() == before.tag_rows().push(t)
            &&& after.next_tag_id() == before.next_tag_id() + 1
            &&& has_tag(after.tag_rows(), name)
        },
        Err(e) => {
            &&& has_tag(before.tag_rows(), name) ==> e == StoreError::AlreadyExists
            &&& !has_tag(before.tag_rows(), name) ==> e == StoreError::Integrity
                && before.next_tag_id() > SERIAL_MAX
            &&& after.same_tags(&before)
        },
    }
}

/// The outcome of editing tag `name` as `owner`: only the content changes,
/// and only for the owner; anyone else is told it was not found.
pub open spec fn tag_edited(
    before: Database,
    after: Database,
    name: Seq<char>,
    content: Seq<char>,
    owner: Seq<char>,
    r: Result<TagModel, StoreError>,
) -> bool {
    match r {
        Ok(t) => {
            let old_row = before.tag_rows()[tag_pos(before.tag_rows(), name)];
            &&& owns_tag(before.tag_rows(), name, owner)
            &&& t.id == old_row.id
            &&& t.user_id == old_row.user_id
            &&& t.name == old_row.name
            &&& t.content@ == content
            &&& after.tag_rows() == before.tag_rows().update(tag_pos(before.tag_rows(), name), t)
        },
        Err(e) => {
            &&& !owns_tag(before.tag_rows(), name, owner)
            &&& e == StoreError::NotFound
            &&& after.tag_rows() == before.tag_rows()
        },
    }
}

/// The outcome of deleting tag `name` as `owner`: one row goes when the owner
/// asks, none otherwise.
pub open spec fn tag_removed(
    before: Database,
    after: Database,
    name: Seq<char>,
    owner: Seq<char>,
    r: u64,
) -> bool {
    &&& owns_tag(before.tag_rows(), name, owner) ==> r == 1 && after.tag_rows()
        == before.tag_rows().remove(tag_pos(before.tag_rows(), name))
    &&& !owns_tag(before.tag_rows(), name, owner) ==> r == 0 && after.tag_rows()
        == before.tag_rows()
    &&& !owns_tag(after.tag_rows(), name, owner)
}

impl Database {
    pub closed spec fn infraction_rows(&self) -> Seq<InfractionModel> {
        self.infractions@
    }

    pub closed spec fn case_rows(&self) -> Seq<UserInfractionModel> {
        self.cases@
    }

    pub closed spec fn punishment_rows(&self) -> Seq<PunishmentModel> {
        self.punishments@
    }

    pub closed spec fn tally_rows(&self) -> Seq<BangPointModel> {
        self.tallies@
    }

    pub closed spec fn tag_rows(&self) -> Seq<TagModel> {
        self.tags@
    }

    pub closed spec fn next_case_id(&self) -> int {
        self.next_case_id as int
    }

    pub closed spec fn next_punishment_id(&self) -> int {
        self.next_punishment_id as int
    }

    pub closed spec fn next_tally_id(&self) -> int {
        self.next_tally_id as int
    }

    pub closed spec fn next_tag_id(&self) -> int {
        self.next_tag_id as int
    }

    /// The invariants every table keeps: catalog ids ascending, one tally per
    /// user, tag names unique, auto-assigned ids ascending in row order.
    pub open spec fn wf(&self) -> bool {
        &&& ascending(infraction_ids(self.infraction_rows()))
        &&& serial(case_ids(self.case_rows()), self.next_case_id())
        &&& serial(punishment_ids(self.punishment_rows()), self.next_punishment_id())
        &&& serial(tally_ids(self.tally_rows()), self.next_tally_id())
        &&& tally_users_unique(self.tally_rows())
        &&& serial(tag_ids(self.tag_rows()), self.next_tag_id())
        &&& tag_names_unique(self.tag_rows())
    }

    /// The catalog and the two logs are as in `other`.
    pub open spec fn same_moderation(&self, other: &Database) -> bool {
        &&& self.infraction_rows() == other.infraction_rows()
        &&& self.case_rows() == other.case_rows()
        &&& self.next_case_id() == other.next_case_id()
        &&& self.punishment_rows() == other.punishment_rows()
        &&& self.next_punishment_id() == other.next_punishment_id()
    }

    /// The tallies are as in `other`.
    pub open spec fn same_tallies(&self, other: &Database) -> bool {
        &&& self.tally_rows() == other.tally_rows()
        &&& self.next_tally_id() == other.next_tally_id()
    }

    /// The tags are as in `other`.
    pub open spec fn same_tags(&self, other: &Database) -> bool {
        &&& self.tag_rows() == other.tag_rows()
        &&& self.next_tag_id() == other.next_tag_id()
    }

    /// An empty store.
    pub fn new() -> (r: Database)
        ensures
            r.wf(),
            r.infraction_rows().len() == 0,
            r.case_rows().len() == 0,
            r.punishment_rows().len() == 0,
            r.tally_rows().len() == 0,
            r.tag_rows().len() == 0,
            r.next_case_id() == 1,
            r.next_punishment_id() == 1,
            r.next_tally_id() == 1,
            r.next_tag_id() == 1,
    {
        let r = Database {
            infractions: Vec::new(),
            cases: Vec::new(),
            punishments: Vec::new(),
            tallies: Vec::new(),
            tags: Vec::new(),
            next_case_id: 1,
            next_punishment_id: 1,
            next_tally_id: 1,
            next_tag_id: 1,
        };
        assert(case_ids(r.case_rows()) =~= Seq::<int>::empty());
        assert(punishment_ids(r.punishment_rows()) =~= Seq::<int>::empty());
        assert(tally_ids(r.tally_rows()) =~= Seq::<int>::empty());
        assert(tag_ids(r.tag_rows()) =~= Seq::<int>::empty());
        r
    }

    fn find_infraction(&self, id: i32) -> (r: Option<usize>)
        ensures
            match r {
                Some(i) => i < self.infraction_rows().len() && self.infraction_rows()[i as int].id
                    == id,
                None => !has_infraction(self.infraction_rows(), id),
            },
    {
        let mut i: usize = 0;
        while i < self.infractions.len()
            invariant
                i <= self.infractions@.len(),
                forall|j: int| 0 <= j < i ==> (#[trigger] self.infractions@[j]).id != id,
            decreases self.infractions@.len() - i,
        {
            if self.infractions[i].id == id {
                return Some(i);
            }
            i = i + 1;
        }
        None
    }

    /// The catalog entry `id`.
    pub fn get_infraction(&self, id: i32) -> (r: Result<InfractionModel, StoreError>)
        requires
            self.wf(),
        ensures
            has_infraction(self.infraction_rows(), id) ==> r == Ok::<InfractionModel, StoreError>(
                self.infraction_rows()[infraction_pos(self.infraction_rows(), id)],
            ),
            !has_infraction(self.infraction_rows(), id) ==> r == Err::<InfractionModel, StoreError>(
                StoreError::NotFound,
            ),
    {
        match self.find_infraction(id) {
            Some(i) => {
                let ghost rows = self.infraction_rows();
                proof {
                    lemma_ascending_unique(rows);
                }
                assert(rows[i as int].id == id);
                assert(i as int == infraction_pos(rows, id));
                Ok(self.infractions[i])
            },
            None => Err(StoreError::NotFound),
        }
    }

    /// The whole catalog, in id order.
    pub fn get_infractions(&self) -> (r: Vec<InfractionModel>)
        ensures
            r@ == self.infraction_rows(),
    {
        self.infractions.clone()
    }

    /// Adds catalog entry `id`, which must be free.
    pub fn add_infraction(
        &mut self,
        id: i32,
        severity: Severity,
        punishment: Punishment,
        duration: i64,
    ) -> (r: Result<InfractionModel, StoreError>)
        requires
            old(self).wf(),
        ensures
            final(self).wf(),
            final(self).same_tallies(old(self)),
            final(self).same_tags(old(self)),
            final(self).case_rows() == old(self).case_rows(),
            final(self).next_case_id() == old(self).next_case_id(),
            final(self).punishment_rows() == old(self).punishment_rows(),
            final(self).next_punishment_id() == old(self).next_punishment_id(),
            infraction_added(
                *old(self),
                *final(self),
                (InfractionModel { id, severity, punishment, duration }),
                r,
            ),
    {
        match self.find_infraction(id) {
            Some(_) => Err(StoreError::AlreadyExists),
            None => {
                let m = InfractionModel { id, severity, punishment, duration };
                let ghost rows = self.infractions@;
                let mut p: usize = 0;
                while p < self.infractions.len() && self.infractions[p].id < id
                    invariant
                        p <= rows.len(),
                        self.infractions@ == rows,
                        forall|i: int| 0 <= i < p ==> (#[trigger] rows[i]).id < id,
                    decreases rows.len() - p,
                {
                    p = p + 1;
                }
                proof {
                    let ids = infraction_ids(rows);
                    let q = p as int;
                    assert forall|i: int| q <= i < rows.len() implies (#[trigger] rows[i]).id
                        > id by {
                        assert(rows[q].id != id);
                        if i > q {
                            assert(ids[q] < ids[i]);
                        }
                    }
                    assert(slot_for(rows, id, q));
                    let s = infraction_slot(rows, id);
                    if s < q {
                        assert(rows[s].id < id);
                    } else if s > q {
                        assert(rows[q].id < id);
                    }
                    assert(s == q);
                    assert forall|i: int| 0 <= i < q implies #[trigger] ids[i] < id as int by {
                        assert(rows[i].id < id);
                    }
                    assert forall|i: int| q <= i < ids.len() implies #[trigger] ids[i] > id as int by {
                        assert(rows[i].id > id);
                    }
                    lemma_ascending_insert(ids, q, id as int);
                    assert(infraction_ids(rows.insert(q, m)) =~= ids.insert(q, id as int));
                }
                self.infractions.insert(p, m);
                assert(self.infractions@[p as int].id == id);
                Ok(m)
            },
        }
    }

    /// Replaces severity, punishment and duration of catalog entry `id`.
    pub fn update_infraction(
        &mut self,
        id: i32,
        severity: Severity,
        punishment: Punishment,
        duration: i64,
    ) -> (r: Result<InfractionModel, StoreError>)
        requires
            old(self).wf(),
        ensures
            final(self).wf(),
            final(self).same_tallies(old(self)),
            final(self).same_tags(old(self)),
            final(self).case_rows() == old(self).case_rows(),
            final(self).next_case_id() == old(self).next_case_id(),
            final(self).punishment_rows() == old(self).punishment_rows(),
            final(self).next_punishment_id() == old(self).next_punishment_id(),
            !has_infraction(old(self).infraction_rows(), id) ==> r == Err::<
                InfractionModel,
                StoreError,
            >(StoreError::NotFound) && final(self).infraction_rows() == old(self).infraction_rows(),
            has_infraction(old(self).infraction_rows(), id) ==> r == Ok::<
                InfractionModel,
                StoreError,
            >(InfractionModel { id, severity, punishment, duration }) && final(self).infraction_rows()
                == replace_infraction(
                old(self).infraction_rows(),
                InfractionModel { id, severity, punishment, duration },
            ),
    {
        match self.find_infraction(id) {
            Some(i) => {
                let ghost rows = self.infraction_rows();
                proof {
                    lemma_ascending_unique(rows);
                }
                assert(i as int == infraction_pos(rows, id));
                let m = InfractionModel { id, severity, punishment, duration };
                self.infractions[i] = m;
                assert(infraction_ids(self.infractions@) =~= infraction_ids(rows));
                Ok(m)
            },
            None => Err(StoreError::NotFound),
        }
    }

    /// Deletes catalog entry `id`; returns how many rows went (0 or 1).
    /// Logged cases that name it keep their copy of the id.
    pub fn remove_infraction(&mut self, id: i32) -> (r: u64)
        requires
            old(self).wf(),
        ensures
            final(self).wf(),
            final(self).same_tallies(old(self)),
            final(self).same_tags(old(self)),
            final(self).case_rows() == old(self).case_rows(),
            final(self).next_case_id() == old(self).next_case_id(),
            final(self).punishment_rows() == old(self).punishment_rows(),
            final(self).next_punishment_id() == old(self).next_punishment_id(),
            !has_infraction(old(self).infraction_rows(), id) ==> r == 0 && final(self).infraction_rows() == old(self).infraction_rows(),
            has_infraction(old(self).infraction_rows(), id) ==> r == 1 && final(self).infraction_rows() == old(self).infraction_rows().remove(
                infraction_pos(old(self).infraction_rows(), id),
            ),
            !has_infraction(final(self).infraction_rows(), id),
    {
        match self.find_infraction(id) {
            Some(i) => {
                let ghost rows = self.infraction_rows();
                proof {
                    lemma_ascending_unique(rows);
                }
                assert(i as int == infraction_pos(rows, id));
                self.infractions.remove(i);
                let ghost after = self.infractions@;
                proof {
                    assert(infraction_ids(after) =~= infraction_ids(rows).remove(i as int));
                    lemma_ascending_remove(infraction_ids(rows), i as int);
                }
                assert forall|a: int| 0 <= a < after.len() implies (#[trigger] after[a]).id != id by {
                    let oa = if a < i { a } else { a + 1 };
                    assert(after[a] == rows[oa]);
                }
                1
            },
            None => 0,
        }
    }

    /// Appends a case of catalog entry `infraction_id` against `user_id`,
    /// stamped `created_at`. The entry need not exist.
    pub fn log_user_infraction(&mut self, user_id: &str, infraction_id: i32, created_at: i64) -> (r:
        Result<UserInfractionModel, StoreError>)
        requires
            old(self).wf(),
        ensures
            final(self).wf(),
            final(self).same_tallies(old(self)),
            final(self).same_tags(old(self)),
            final(self).infraction_rows() == old(self).infraction_rows(),
            final(self).punishment_rows() == old(self).punishment_rows(),
            final(self).next_punishment_id() == old(self).next_punishment_id(),
            case_logged(*old(self), *final(self), user_id@, infraction_id, created_at, r),
    {
        if self.next_case_id > SERIAL_MAX {
            return Err(StoreError::Integrity);
        }
        let c = UserInfractionModel {
            id: self.next_case_id as i32,
            user_id: user_id.to_owned(),
            infraction_id,
            created_at: Some(created_at),
        };
        let ghost before = self.cases@;
        self.cases.push(c.duplicate());
        self.next_case_id = self.next_case_id + 1;
        proof {
            assert(case_ids(self.cases@) =~= case_ids(before).push(c.id as int));
            lemma_serial_push(case_ids(before), c.id as int);
        }
        Ok(c)
    }

    /// Appends a record that `punishment` for `duration` was applied to `user_id`.
    pub fn log_user_punishment(&mut self, user_id: &str, punishment: Punishment, duration: i64) -> (r:
        Result<PunishmentModel, StoreError>)
        requires
            old(self).wf(),
        ensures
            final(self).wf(),
            final(self).same_tallies(old(self)),
            final(self).same_tags(old(self)),
            final(self).infraction_rows() == old(self).infraction_rows(),
            final(self).case_rows() == old(self).case_rows(),
            final(self).next_case_id() == old(self).next_case_id(),
            match r {
                Ok(p) => {
                    &&& old(self).next_punishment_id() <= SERIAL_MAX
                    &&& p.id == old(self).next_punishment_id()
                    &&& p.user_id@ == user_id@
                    &&& p.punishment == punishment
                    &&& p.duration == duration
                    &&& final(self).punishment_rows() == old(self).punishment_rows().push(p)
                    &&& final(self).next_punishment_id() == old(self).next_punishment_id() + 1
                },
                Err(e) => {
                    &&& old(self).next_punishment_id() > SERIAL_MAX
                    &&& e == StoreError::Integrity
                    &&& final(self).punishment_rows() == old(self).punishment_rows()
                    &&& final(self).next_punishment_id() == old(self).next_punishment_id()
                },
            },
    {
        if self.next_punishment_id > SERIAL_MAX {
            return Err(StoreError::Integrity);
        }
        let p = PunishmentModel {
            id: self.next_punishment_id as i32,
            user_id: user_id.to_owned(),
            punishment,
            duration,
        };
        let ghost before = self.punishments@;
        self.punishments.push(p.duplicate());
        self.next_punishment_id = self.next_punishment_id + 1;
        proof {
            assert(punishment_ids(self.punishments@) =~= punishment_ids(before).push(p.id as int));
            lemma_serial_push(punishment_ids(before), p.id as int);
        }
        Ok(p)
    }

    /// The cases logged against `user_id`, by creation time; cases created
    /// at the same time come in the order they were logged, and a case
    /// without a stamp comes after every stamped one.
    pub fn get_user_infractions(&self, user_id: &str) -> (r: Vec<UserInfractionModel>)
        requires
            self.wf(),
        ensures
            r@.len() == cases_of(self.case_rows(), user_id@).len(),
            forall|i: int, j: int|
                0 <= i < j < r@.len() ==> listed_before(#[trigger] r@[i], #[trigger] r@[j]),
            forall|i: int|
                0 <= i < r@.len() ==> cases_of(self.case_rows(), user_id@).contains(#[trigger] r@[i]),
            forall|j: int|
                0 <= j < cases_of(self.case_rows(), user_id@).len() ==> r@.contains(
                    #[trigger] cases_of(self.case_rows(), user_id@)[j],
                ),
    {
        let f = self.cases_of_user(user_id);
        let ghost fs = f@;
        proof {
            lemma_cases_ascending(self.case_rows(), user_id@, self.next_case_id());
        }
        let n = f.len();
        let mut s: Vec<UserInfractionModel> = Vec::new();
        let ghost mut perm: Seq<int> = Seq::empty();
        let ghost mut pos: Seq<int> = Seq::empty();
        let mut k: usize = 0;
        while k < n
            invariant
                n == fs.len(),
                fs == f@,
                forall|i: int, j: int| 0 <= i < j < fs.len() ==> (#[trigger] fs[i]).id < (#[trigger] fs[j]).id,
                k <= n,
                s@.len() == k,
                perm.len() == k,
                pos.len() == k,
                forall|i: int| 0 <= i < k ==> 0 <= #[trigger] perm[i] < k && s@[i] == fs[perm[i]],
                forall|j: int| 0 <= j < k ==> 0 <= #[trigger] pos[j] < k && s@[pos[j]] == fs[j],
                forall|i: int, j: int|
                    0 <= i < j < k ==> listed_before(#[trigger] s@[i], #[trigger] s@[j]),
            decreases n - k,
        {
            let x = f[k].duplicate();
            proof {
                assert forall|i: int| 0 <= i < k implies (#[trigger] s@[i]).id < x.id by {
                    assert(fs[perm[i]].id < fs[k as int].id);
                }
            }
            let mut p: usize = 0;
            while p < s.len() && stamp_le(s[p].created_at, x.created_at)
                invariant
                    p <= s@.len(),
                    forall|i: int| 0 <= i < p ==> stamp_rank((#[trigger] s@[i]).created_at)
                        <= stamp_rank(x.created_at),
                decreases s@.len() - p,
            {
                p = p + 1;
            }
            let ghost old_s = s@;
            s.insert(p, x);
            proof {
                let q = p as int;
                assert forall|i: int, j: int|
                    0 <= i < j < k + 1 implies listed_before(#[trigger] s@[i], #[trigger] s@[j]) by {
                    if j < q {
                        assert(s@[i] == old_s[i] && s@[j] == old_s[j]);
                    } else if j == q {
                        assert(s@[i] == old_s[i]);
                    } else if i < q {
                        assert(s@[i] == old_s[i] && s@[j] == old_s[j - 1]);
                    } else if i == q {
                        assert(s@[j] == old_s[j - 1]);
                        if q < j - 1 {
                            assert(listed_before(old_s[q], old_s[j - 1]));
                        }
                    } else {
                        assert(s@[i] == old_s[i - 1] && s@[j] == old_s[j - 1]);
                    }
                }
                let new_perm = perm.insert(q, k as int);
                let new_pos = pos.map_values(|v: int| if v >= q { v + 1 } else { v }).push(q);
                assert forall|i: int| 0 <= i < k + 1 implies 0 <= #[trigger] new_perm[i] < k + 1
                    && s@[i] == fs[new_perm[i]] by {
                    if i < q {
                        assert(new_perm[i] == perm[i] && s@[i] == old_s[i]);
                    } else if i > q {
                        assert(new_perm[i] == perm[i - 1] && s@[i] == old_s[i - 1]);
                    }
                }
                assert forall|j: int| 0 <= j < k + 1 implies 0 <= #[trigger] new_pos[j] < k + 1
                    && s@[new_pos[j]] == fs[j] by {
                    if j < k {
                        let v = pos[j];
                        if v >= q {
                            assert(new_pos[j] == v + 1);
                            assert(s@[v + 1] == old_s[v]);
                        } else {
                            assert(new_pos[j] == v);
                            assert(s@[v] == old_s[v]);
                        }
                    }
                }
                perm = new_perm;
                pos = new_pos;
            }
            k = k + 1;
        }
        proof {
            assert forall|i: int| 0 <= i < s@.len() implies fs.contains(#[trigger] s@[i]) by {
                assert(s@[i] == fs[perm[i]]);
            }
            assert forall|j: int| 0 <= j < fs.len() implies s@.contains(#[trigger] fs[j]) by {
                assert(s@[pos[j]] == fs[j]);
            }
        }
        s
    }

    /// The cases logged against `user_id`, in log order.
    fn cases_of_user(&self, user_id: &str) -> (r: Vec<UserInfractionModel>)
        ensures
            r@ == cases_of(self.case_rows(), user_id@),
    {
        let key = user_id.to_owned();
        let mut out: Vec<UserInfractionModel> = Vec::new();
        let mut i: usize = 0;
        while i < self.cases.len()
            invariant
                i <= self.cases@.len(),
                key@ == user_id@,
                out@ == cases_of(self.cases@.subrange(0, i as int), user_id@),
            decreases self.cases@.len() - i,
        {
            let ghost pred = case_of_user(user_id@);
            proof {
                assert(self.cases@.subrange(0, i + 1) =~= self.cases@.subrange(0, i as int).push(
                    self.cases@[i as int],
                ));
                self.cases@.subrange(0, i as int).lemma_filter_push(self.cases@[i as int], pred);
            }
            if self.cases[i].user_id == key {
                out.push(self.cases[i].duplicate());
            }
            i = i + 1;
        }
        assert(self.cases@.subrange(0, self.cases@.len() as int) =~= self.cases@);
        out
    }

    fn find_tally(&self, key: &String) -> (r: Option<usize>)
        ensures
            match r {
                Some(i) => i < self.tally_rows().len() && self.tally_rows()[i as int].user_id@
                    == key@,
                None => !has_tally(self.tally_rows(), key@),
            },
    {
        let mut i: usize = 0;
        while i < self.tallies.len()
            invariant
                i <= self.tallies@.len(),
                forall|j: int| 0 <= j < i ==> (#[trigger] self.tallies@[j]).user_id@ != key@,
            decreases self.tallies@.len() - i,
        {
            if self.tallies[i].user_id == *key {
                return Some(i);
            }
            i = i + 1;
        }
        None
    }

    /// `user_id`'s tally row.
    pub fn get_user_bang_points(&self, user_id: String) -> (r: Result<BangPointModel, StoreError>)
        requires
            self.wf(),
        ensures
            has_tally(self.tally_rows(), user_id@) ==> r == Ok::<BangPointModel, StoreError>(
                self.tally_rows()[tally_pos(self.tally_rows(), user_id@)],
            ),
            !has_tally(self.tally_rows(), user_id@) ==> r == Err::<BangPointModel, StoreError>(
                StoreError::NotFound,
            ),
    {
        match self.find_tally(&user_id) {
            Some(i) => {
                assert(i as int == tally_pos(self.tally_rows(), user_id@));
                Ok(self.tallies[i].duplicate())
            },
            None => Err(StoreError::NotFound),
        }
    }

    /// Adds `points` to `user_id`'s existing tally.
    pub fn add_user_bang_points(&mut self, user_id: String, points: i32) -> (r: Result<
        BangPointModel,
        StoreError,
    >)
        requires
            old(self).wf(),
        ensures
            final(self).wf(),
            final(self).same_moderation(old(self)),
            final(self).same_tags(old(self)),
            final(self).next_tally_id() == old(self).next_tally_id(),
            match r {
                Ok(t) => {
                    &&& has_tally(old(self).tally_rows(), user_id@)
                    &&& t == raised(
                        old(self).tally_rows()[tally_pos(old(self).tally_rows(), user_id@)],
                        points as int,
                    )
                    &&& t.points == points_of(old(self).tally_rows(), user_id@) + points
                    &&& final(self).tally_rows() == old(self).tally_rows().update(
                        tally_pos(old(self).tally_rows(), user_id@),
                        t,
                    )
                },
                Err(e) => {
                    &&& !has_tally(old(self).tally_rows(), user_id@) ==> e == StoreError::NotFound
                    &&& has_tally(old(self).tally_rows(), user_id@) ==> e == StoreError::Integrity
                        && !fits_i32(points_of(old(self).tally_rows(), user_id@) + points)
                    &&& final(self).tally_rows() == old(self).tally_rows()
                },
            },
    {
        match self.find_tally(&user_id) {
            Some(i) => {
                let ghost rows = self.tallies@;
                assert(i as int == tally_pos(rows, user_id@));
                let cur = self.tallies[i].points;
                if (cur >= 0 && points > i32::MAX - cur) || (cur < 0 && points < i32::MIN - cur) {
                    return Err(StoreError::Integrity);
                }
                let t = BangPointModel {
                    id: self.tallies[i].id,
                    user_id: self.tallies[i].user_id.clone(),
                    points: cur + points,
                };
                self.tallies[i] = t.duplicate();
                proof {
                    assert(tally_ids(self.tallies@) =~= tally_ids(rows));
                    assert forall|a: int, b: int|
                        0 <= a < self.tallies@.len() && 0 <= b < self.tallies@.len() && (
                        #[trigger] self.tallies@[a]).user_id@ == (
                        #[trigger] self.tallies@[b]).user_id@ implies a == b by {
                        assert(self.tallies@[a].user_id@ == rows[a].user_id@);
                        assert(self.tallies@[b].user_id@ == rows[b].user_id@);
                    }
                }
                Ok(t)
            },
            None => Err(StoreError::NotFound),
        }
    }

    /// Starts a tally for `user_id` at `points`; a user has at most one.
    pub fn create_user_bang_points(&mut self, user_id: String, points: i32) -> (r: Result<
        BangPointModel,
        StoreError,
    >)
        requires
            old(self).wf(),
        ensures
            final(self).wf(),
            final(self).same_moderation(old(self)),
            final(self).same_tags(old(self)),
            match r {
                Ok(t) => {
                    &&& !has_tally(old(self).tally_rows(), user_id@)
                    &&& old(self).next_tally_id() <= SERIAL_MAX
                    &&& t.id == old(self).next_tally_id()
                    &&& t.user_id == user_id
                    &&& t.points == points
                    &&& final(self).tally_rows() == old(self).tally_rows().push(t)
                    &&& final(self).next_tally_id() == old(self).next_tally_id() + 1
                },
                Err(e) => {
                    &&& has_tally(old(self).tally_rows(), user_id@) ==> e
                        == StoreError::AlreadyExists
                    &&& !has_tally(old(self).tally_rows(), user_id@) ==> e == StoreError::Integrity
                        && old(self).next_tally_id() > SERIAL_MAX
                    &&& final(self).same_tallies(old(self))
                },
            },
    {
        match self.find_tally(&user_id) {
            Some(_) => Err(StoreError::AlreadyExists),
            None => {
                if self.next_tally_id > SERIAL_MAX {
                    return Err(StoreError::Integrity);
                }
                let t = BangPointModel { id: self.next_tally_id as i32, user_id, points };
                let ghost rows = self.tallies@;
                self.tallies.push(t.duplicate());
                self.next_tally_id = self.next_tally_id + 1;
                proof {
                    assert(tally_ids(self.tallies@) =~= tally_ids(rows).push(t.id as int));
                    lemma_serial_push(tally_ids(rows), t.id as int);
                    assert forall|a: int, b: int|
                        0 <= a < self.tallies@.len() && 0 <= b < self.tallies@.len() && (
                        #[trigger] self.tallies@[a]).user_id@ == (
                        #[trigger] self.tallies@[b]).user_id@ implies a == b by {
                        if a < rows.len() && b < rows.len() {
                            assert(self.tallies@[a] == rows[a]);
                            assert(self.tallies@[b] == rows[b]);
                        } else if a < rows.len() {
                            assert(self.tallies@[a] == rows[a]);
                        } else if b < rows.len() {
                            assert(self.tallies@[b] == rows[b]);
                        }
                    }
                }
                Ok(t)
            },
        }
    }

    /// Adds `points` to `user_id`'s tally, starting one at `points` when the
    /// user has none. The tally ends `points` higher than it stood.
    pub fn create_or_add_user_bang_points(&mut self, user_id: String, points: i32) -> (r: Result<
        BangPointModel,
        StoreError,
    >)
        requires
            old(self).wf(),
        ensures
            final(self).wf(),
            final(self).same_moderation(old(self)),
            final(self).same_tags(old(self)),
            tally_adjusted(*old(self), *final(self), user_id@, points as int, r),
    {
        let ghost rows = self.tallies@;
        let ghost user = user_id@;
        match self.find_tally(&user_id) {
            Some(i) => {
                assert(i as int == tally_pos(rows, user));
                let r = self.add_user_bang_points(user_id, points);
                proof {
                    if r is Ok {
                        let after = self.tallies@;
                        assert(after[i as int].user_id@ == user);
                        assert(tally_pos(after, user) == i);
                        assert forall|u: Seq<char>| u != user implies (has_tally(after, u)
                            == has_tally(rows, u) && points_of(after, u) == points_of(rows, u)) by {
                            if has_tally(rows, u) {
                                let k = tally_pos(rows, u);
                                assert(after[k] == rows[k]);
                            }
                            if has_tally(after, u) {
                                let k = tally_pos(after, u);
                                assert(after[k] == rows[k]);
                            }
                        }
                    }
                }
                r
            },
            None => {
                let r = self.create_user_bang_points(user_id, points);
                proof {
                    if r is Ok {
                        let after = self.tallies@;
                        let n = rows.len() as int;
                        assert(after[n].user_id@ == user);
                        assert(tally_pos(after, user) == n);
                        assert forall|u: Seq<char>| u != user implies (has_tally(after, u)
                            == has_tally(rows, u) && points_of(after, u) == points_of(rows, u)) by {
                            if has_tally(rows, u) {
                                let k = tally_pos(rows, u);
                                assert(after[k] == rows[k]);
                            }
                            if has_tally(after, u) {
                                let k = tally_pos(after, u);
                                assert(after[k] == rows[k]);
                            }
                        }
                    }
                }
                r
            },
        }
    }

    /// The `limit` highest tallies, highest first; equal points keep the
    /// order in which the tallies were started.
    pub fn top_tallies(&self, limit: usize) -> (r: Vec<BangPointModel>)
        requires
            self.wf(),
        ensures
            r@.len() == if limit < self.tally_rows().len() {
                limit as int
            } else {
                self.tally_rows().len() as int
            },
            forall|i: int, j: int|
                0 <= i < j < r@.len() ==> ranks_above(#[trigger] r@[i], #[trigger] r@[j]),
            forall|i: int| 0 <= i < r@.len() ==> self.tally_rows().contains(#[trigger] r@[i]),
            forall|m: int, i: int|
                0 <= m < self.tally_rows().len() && !r@.contains(#[trigger] self.tally_rows()[m])
                    && 0 <= i < r@.len() ==> ranks_above(#[trigger] r@[i], self.tally_rows()[m]),
    {
        let ghost rows = self.tallies@;
        let n = self.tallies.len();
        let mut s: Vec<BangPointModel> = Vec::new();
        let ghost mut perm: Seq<int> = Seq::empty();
        let ghost mut pos: Seq<int> = Seq::empty();
        let mut k: usize = 0;
        while k < n
            invariant
                n == rows.len(),
                rows == self.tallies@,
                self.wf(),
                k <= n,
                s@.len() == k,
                perm.len() == k,
                pos.len() == k,
                forall|i: int| 0 <= i < k ==> 0 <= #[trigger] perm[i] < k && s@[i] == rows[perm[i]],
                forall|j: int| 0 <= j < k ==> 0 <= #[trigger] pos[j] < k && s@[pos[j]] == rows[j],
                forall|i: int, j: int|
                    0 <= i < j < k ==> ranks_above(#[trigger] s@[i], #[trigger] s@[j]),
            decreases n - k,
        {
            let x = self.tallies[k].duplicate();
            proof {
                assert forall|i: int| 0 <= i < k implies (#[trigger] s@[i]).id < x.id by {
                    assert(tally_ids(rows)[perm[i]] == rows[perm[i]].id as int);
                    assert(tally_ids(rows)[k as int] == rows[k as int].id as int);
                }
            }
            let mut p: usize = 0;
            while p < s.len() && s[p].points >= x.points
                invariant
                    p <= s@.len(),
                    forall|i: int| 0 <= i < p ==> (#[trigger] s@[i]).points >= x.points,
                decreases s@.len() - p,
            {
                p = p + 1;
            }
            let ghost old_s = s@;
            s.insert(p, x);
            proof {
                let q = p as int;
                assert forall|i: int, j: int|
                    0 <= i < j < k + 1 implies ranks_above(#[trigger] s@[i], #[trigger] s@[j]) by {
                    if j < q {
                        assert(s@[i] == old_s[i] && s@[j] == old_s[j]);
                    } else if j == q {
                        assert(s@[i] == old_s[i]);
                    } else if i < q {
                        assert(s@[i] == old_s[i] && s@[j] == old_s[j - 1]);
                    } else if i == q {
                        assert(s@[j] == old_s[j - 1]);
                        if q < j - 1 {
                            assert(ranks_above(old_s[q], old_s[j - 1]));
                        }
                    } else {
                        assert(s@[i] == old_s[i - 1] && s@[j] == old_s[j - 1]);
                    }
                }
                let new_perm = perm.insert(q, k as int);
                let new_pos = pos.map_values(|v: int| if v >= q { v + 1 } else { v }).push(q);
                assert forall|i: int| 0 <= i < k + 1 implies 0 <= #[trigger] new_perm[i] < k + 1
                    && s@[i] == rows[new_perm[i]] by {
                    if i < q {
                        assert(new_perm[i] == perm[i] && s@[i] == old_s[i]);
                    } else if i > q {
                        assert(new_perm[i] == perm[i - 1] && s@[i] == old_s[i - 1]);
                    }
                }
                assert forall|j: int| 0 <= j < k + 1 implies 0 <= #[trigger] new_pos[j] < k + 1
                    && s@[new_pos[j]] == rows[j] by {
                    if j < k {
                        let v = pos[j];
                        if v >= q {
                            assert(new_pos[j] == v + 1);
                            assert(s@[v + 1] == old_s[v]);
                        } else {
                            assert(new_pos[j] == v);
                            assert(s@[v] == old_s[v]);
                        }
                    }
                }
                perm = new_perm;
                pos = new_pos;
            }
            k = k + 1;
        }
        let m: usize = if limit < n { limit } else { n };
        let ghost full = s@;
        s.truncate(m);
        proof {
            assert forall|i: int| 0 <= i < s@.len() implies rows.contains(#[trigger] s@[i]) by {
                assert(s@[i] == rows[perm[i]]);
            }
            assert forall|j: int, i: int|
                0 <= j < rows.len() && !s@.contains(#[trigger] rows[j]) && 0 <= i < s@.len()
                    implies ranks_above(#[trigger] s@[i], rows[j]) by {
                let v = pos[j];
                if v < m {
                    assert(s@[v] == rows[j]);
                }
                assert(full[v] == rows[j]);
                assert(s@[i] == full[i]);
            }
        }
        s
    }

    /// The ten highest tallies, highest first.
    pub fn get_bang_ranking(&self) -> (r: Vec<BangPointModel>)
        requires
            self.wf(),
        ensures
            r@.len() == if 10 < self.tally_rows().len() {
                10
            } else {
                self.tally_rows().len() as int
            },
            forall|i: int, j: int|
                0 <= i < j < r@.len() ==> ranks_above(#[trigger] r@[i], #[trigger] r@[j]),
            forall|i: int| 0 <= i < r@.len() ==> self.tally_rows().contains(#[trigger] r@[i]),
            forall|m: int, i: int|
                0 <= m < self.tally_rows().len() && !r@.contains(#[trigger] self.tally_rows()[m])
                    && 0 <= i < r@.len() ==> ranks_above(#[trigger] r@[i], self.tally_rows()[m]),
    {
        self.top_tallies(RANKING_SIZE)
    }

    fn find_tag(&self, key: &String) -> (r: Option<usize>)
        ensures
            match r {
                Some(i) => i < self.tag_rows().len() && self.tag_rows()[i as int].name@ == key@,
                None => !has_tag(self.tag_rows(), key@),
            },
    {
        let mut i: usize = 0;
        while i < self.tags.len()
            invariant
                i <= self.tags@.len(),
                forall|j: int| 0 <= j < i ==> (#[trigger] self.tags@[j]).name@ != key@,
            decreases self.tags@.len() - i,
        {
            if self.tags[i].name == *key {
                return Some(i);
            }
            i = i + 1;
        }
        None
    }

    /// The tag called `name`.
    pub fn get_tag(&self, name: &str) -> (r: Result<TagModel, StoreError>)
        requires
            self.wf(),
        ensures
            has_tag(self.tag_rows(), name@) ==> r == Ok::<TagModel, StoreError>(
                self.tag_rows()[tag_pos(self.tag_rows(), name@)],
            ),
            !has_tag(self.tag_rows(), name@) ==> r == Err::<TagModel, StoreError>(
                StoreError::NotFound,
            ),
    {
        let key = name.to_owned();
        match self.find_tag(&key) {
            Some(i) => {
                assert(i as int == tag_pos(self.tag_rows(), name@));
                Ok(self.tags[i].duplicate())
            },
            None => Err(StoreError::NotFound),
        }
    }

    /// Creates the tag `name` owned by `user_id`; names are unique across
    /// all owners.
    pub fn add_tag(&mut self, name: &str, content: &str, user_id: &str) -> (r: Result<
        TagModel,
        StoreError,
    >)
        requires
            old(self).wf(),
        ensures
            final(self).wf(),
            final(self).same_moderation(old(self)),
            final(self).same_tallies(old(self)),
            tag_added(*old(self), *final(self), name@, content@, user_id@, r),
    {
        let key = name.to_owned();
        match self.find_tag(&key) {
            Some(_) => Err(StoreError::AlreadyExists),
            None => {
                if self.next_tag_id > SERIAL_MAX {
                    return Err(StoreError::Integrity);
                }
                let t = TagModel {
                    id: self.next_tag_id as i32,
                    user_id: user_id.to_owned(),
                    name: key,
                    content: content.to_owned(),
                };
                let ghost rows = self.tags@;
                self.tags.push(t.duplicate());
                self.next_tag_id = self.next_tag_id + 1;
                proof {
                    assert(tag_ids(self.tags@) =~= tag_ids(rows).push(t.id as int));
                    lemma_serial_push(tag_ids(rows), t.id as int);
                    assert(self.tags@[rows.len() as int].name@ == name@);
                    assert forall|a: int, b: int|
                        0 <= a < self.tags@.len() && 0 <= b < self.tags@.len() && (
                        #[trigger] self.tags@[a]).name@ == (#[trigger] self.tags@[b]).name@ implies a
                        == b by {
                        if a < rows.len() {
                            assert(self.tags@[a] == rows[a]);
                        }
                        if b < rows.len() {
                            assert(self.tags@[b] == rows[b]);
                        }
                    }
                }
                Ok(t)
            },
        }
    }

    /// Replaces the content of tag `name`, only for its owner. A tag owned by
    /// someone else is reported as not found.
    pub fn update_tag(&mut self, name: &str, content: &str, user_id: &str) -> (r: Result<
        TagModel,
        StoreError,
    >)
        requires
            old(self).wf(),
        ensures
            final(self).wf(),
            final(self).same_moderation(old(self)),
            final(self).same_tallies(old(self)),
            final(self).next_tag_id() == old(self).next_tag_id(),
            tag_edited(*old(self), *final(self), name@, content@, user_id@, r),
    {
        let key = name.to_owned();
        let owner = user_id.to_owned();
        match self.find_tag(&key) {
            Some(i) => {
                let ghost rows = self.tags@;
                assert(i as int == tag_pos(rows, name@));
                if !(self.tags[i].user_id == owner) {
                    return Err(StoreError::NotFound);
                }
                let t = TagModel {
                    id: self.tags[i].id,
                    user_id: self.tags[i].user_id.clone(),
                    name: self.tags[i].name.clone(),
                    content: content.to_owned(),
                };
                self.tags[i] = t.duplicate();
                proof {
                    assert(tag_ids(self.tags@) =~= tag_ids(rows));
                    assert forall|a: int, b: int|
                        0 <= a < self.tags@.len() && 0 <= b < self.tags@.len() && (
                        #[trigger] self.tags@[a]).name@ == (#[trigger] self.tags@[b]).name@ implies a
                        == b by {
                        assert(self.tags@[a].name@ == rows[a].name@);
                        assert(self.tags@[b].name@ == rows[b].name@);
                    }
                }
                Ok(t)
            },
            None => Err(StoreError::NotFound),
        }
    }

    /// Every tag, in creation order.
    pub fn get_all_tags(&self) -> (r: Vec<TagModel>)
        ensures
            r@ == self.tag_rows(),
    {
        let mut out: Vec<TagModel> = Vec::new();
        let mut i: usize = 0;
        while i < self.tags.len()
            invariant
                i <= self.tags@.len(),
                out@ == self.tags@.subrange(0, i as int),
            decreases self.tags@.len() - i,
        {
            out.push(self.tags[i].duplicate());
            i = i + 1;
            assert(out@ =~= self.tags@.subrange(0, i as int));
        }
        assert(out@ =~= self.tags@);
        out
    }

    /// The tags owned by `user_id`, in creation order.
    pub fn get_user_tags(&self, user_id: &str) -> (r: Vec<TagModel>)
        ensures
            r@ == tags_of(self.tag_rows(), user_id@),
    {
        let key = user_id.to_owned();
        let mut out: Vec<TagModel> = Vec::new();
        let mut i: usize = 0;
        while i < self.tags.len()
            invariant
                i <= self.tags@.len(),
                key@ == user_id@,
                out@ == tags_of(self.tags@.subrange(0, i as int), user_id@),
            decreases self.tags@.len() - i,
        {
            let ghost pred = tag_of_user(user_id@);
            proof {
                assert(self.tags@.subrange(0, i + 1) =~= self.tags@.subrange(0, i as int).push(
                    self.tags@[i as int],
                ));
                self.tags@.subrange(0, i as int).lemma_filter_push(self.tags@[i as int], pred);
            }
            if self.tags[i].user_id == key {
                out.push(self.tags[i].duplicate());
            }
            i = i + 1;
        }
        assert(self.tags@.subrange(0, self.tags@.len() as int) =~= self.tags@);
        out
    }

    /// Deletes tag `name` when `user_id` owns it; returns how many rows went
    /// (0 or 1). A missing tag and one owned by someone else both give 0.
    pub fn remove_tag(&mut self, name: &str, user_id: &str) -> (r: u64)
        requires
            old(self).wf(),
        ensures
            final(self).wf(),
            final(self).same_moderation(old(self)),
            final(self).same_tallies(old(self)),
            final(self).next_tag_id() == old(self).next_tag_id(),
            tag_removed(*old(self), *final(self), name@, user_id@, r),
    {
        let key = name.to_owned();
        let owner = user_id.to_owned();
        match self.find_tag(&key) {
            Some(i) => {
                let ghost rows = self.tags@;
                assert(i as int == tag_pos(rows, name@));
                if !(self.tags[i].user_id == owner) {
                    return 0;
                }
                self.tags.remove(i);
                proof {
                    let after = self.tags@;
                    assert(tag_ids(after) =~= tag_ids(rows).remove(i as int));
                    lemma_serial_remove(tag_ids(rows), self.next_tag_id(), i as int);
                    assert forall|a: int, b: int|
                        0 <= a < after.len() && 0 <= b < after.len() && (#[trigger] after[a]).name@
                            == (#[trigger] after[b]).name@ implies a == b by {
                        let oa = if a < i { a } else { a + 1 };
                        let ob = if b < i { b } else { b + 1 };
                        assert(after[a] == rows[oa] && after[b] == rows[ob]);
                    }
                    assert forall|a: int| 0 <= a < after.len() implies (#[trigger] after[a]).name@
                        != name@ by {
                        let oa = if a < i { a } else { a + 1 };
                        assert(after[a] == rows[oa]);
                    }
                }
                1
            },
            None => 0,
        }
    }
}

} // verus!
