use vstd::prelude::*;

use crate::account::AccountId;
use crate::error::CustomError;
use crate::record::{ActivityEntry, ActivityRecord};
use crate::text::{decimal, is_substring, str_contains};

verus! {

/// How the thresholds judge an activity. Minutes are checked before steps.
pub open spec fn threshold_outcome(mins: u32, steps: u32, min_mins: u32, min_steps: u32) -> Result<
    (),
    CustomError,
> {
    if mins < min_mins {
        Err(CustomError::TooLittleMins)
    } else if steps < min_steps {
        Err(CustomError::TooLittleSteps)
    } else {
        Ok(())
    }
}

/// How many entries of `log` were recorded for exactly `user`.
pub open spec fn count_for(log: Seq<ActivityEntry>, user: Seq<char>) -> nat
    decreases log.len(),
{
    if log.len() == 0 {
        0
    } else {
        count_for(log.drop_last(), user) + if log.last().user == user {
            1nat
        } else {
            0nat
        }
    }
}

/// The texts of the entries of `log` that mention `user`, in the order of the log.
pub open spec fn matching_texts(log: Seq<ActivityEntry>, user: Seq<char>) -> Seq<Seq<char>>
    decreases log.len(),
{
    if log.len() == 0 {
        Seq::empty()
    } else {
        let prev = matching_texts(log.drop_last(), user);
        if is_substring(user, log.last().text()) {
            prev.push(log.last().text())
        } else {
            prev
        }
    }
}

/// What recording an activity of `user` does to the ledger when every check passes:
/// the user's count grows by one and the record joins the end of the log.
pub open spec fn activity_recorded(
    before: Inkfit,
    after: Inkfit,
    user: Seq<char>,
    mins: u32,
    steps: u32,
    date: Seq<char>,
) -> bool {
    &&& after.scores() == before.scores().insert(user, (before.scores()[user] + 1) as u32)
    &&& after.activities() == before.activities().push(
        ActivityEntry { user, active_mins: mins, steps_made: steps, date },
    )
    &&& after.admin_set() == before.admin_set()
    &&& after.minute_threshold() == before.minute_threshold()
    &&& after.step_threshold() == before.step_threshold()
}

/// The outcome of recording an activity: the caller must be an administrator,
/// the activity must meet the thresholds, and the user must be registered,
/// checked in that order.
pub open spec fn activity_outcome(
    s: Inkfit,
    caller: AccountId,
    user: Seq<char>,
    mins: u32,
    steps: u32,
) -> Result<(), CustomError> {
    if s.gate(caller) is Err {
        Err(CustomError::AccessOnlyForAdmins)
    } else if threshold_outcome(mins, steps, s.minute_threshold(), s.step_threshold()) is Err {
        threshold_outcome(mins, steps, s.minute_threshold(), s.step_threshold())
    } else if !s.scores().contains_key(user) {
        Err(CustomError::UserDoesNotExist)
    } else {
        Ok(())
    }
}

/// What adding `admin` does: it joins the administrators and nothing else changes.
pub open spec fn admin_added(
    before: Inkfit,
    after: Inkfit,
    caller: AccountId,
    admin: AccountId,
    r: Result<(), CustomError>,
) -> bool {
    &&& r == before.gate(caller)
    &&& r is Err ==> after == before
    &&& r is Ok ==> after.admin_set() == before.admin_set().insert(admin)
    &&& after.scores() == before.scores()
    &&& after.activities() == before.activities()
    &&& after.minute_threshold() == before.minute_threshold()
    &&& after.step_threshold() == before.step_threshold()
}

/// The ledger: registered users with their activity counts, the log of
/// accepted activities, the administrators and the thresholds.
pub struct Inkfit {
    users: Vec<(String, u32)>,
    registry: Ghost<Map<Seq<char>, u32>>,
    active_days: Vec<ActivityRecord>,
    admins: Vec<AccountId>,
    min_active_mins: u32,
    min_steps: u32,
}

impl Inkfit {

    /// A ledger whose only administrator is `caller`, the account that set it
    /// up, with no users, no activities and thresholds of zero.
    pub fn default(caller: AccountId) -> (r: Inkfit)
        ensures
            r.wf(),
            r.admin_set() == set![caller],
            r.scores() == Map::<Seq<char>, u32>::empty(),
            r.activities() == Seq::<ActivityEntry>::empty(),
            r.minute_threshold() == 0,
            r.step_threshold() == 0,
    {
        let mut admins: Vec<AccountId> = Vec::new();
        admins.push(caller);
        let r = Inkfit {
            users: Vec::new(),
            registry: Ghost(Map::empty()),
            active_days: Vec::new(),
            admins,
            min_active_mins: 0,
            min_steps: 0,
        };
        proof {
            assert(r.admins@[0] == caller);
            assert(r.admin_set() =~= set![caller]);
            assert(r.activities() =~= Seq::<ActivityEntry>::empty());
        }
        r
    }

    /// A ledger run by the accounts in `owners`, each kept once, with no users,
    /// no activities and the given thresholds.
    pub fn new(owners: Vec<AccountId>, mins: u32, steps: u32) -> (r: Inkfit)
        ensures
            r.wf(),
            r.admin_set() == Set::new(|a: AccountId| owners@.contains(a)),
            r.scores() == Map::<Seq<char>, u32>::empty(),
            r.activities() == Seq::<ActivityEntry>::empty(),
            r.minute_threshold() == mins,
            r.step_threshold() == steps,
    {
        let mut r = Inkfit {
            users: Vec::new(),
            registry: Ghost(Map::empty()),
            active_days: Vec::new(),
            admins: Vec::new(),
            min_active_mins: mins,
            min_steps: steps,
        };
        let mut i: usize = 0;
        while i < owners.len()
            invariant
                i <= owners@.len(),
                r.wf(),
                r.admin_set() == Set::new(|a: AccountId| owners@.take(i as int).contains(a)),
                r.scores() == Map::<Seq<char>, u32>::empty(),
                r.activities() == Seq::<ActivityEntry>::empty(),
                r.minute_threshold() == mins,
                r.step_threshold() == steps,
            decreases owners@.len() - i,
        {
            let owner = owners[i];
            let ghost before = r.admin_set();
            let r_ok = r.insert_admin(owner);
            proof {
                let t0 = owners@.take(i as int);
                let t1 = owners@.take(i + 1);
                assert forall|a: AccountId| t1.contains(a) <==> t0.contains(a) || a == owner by {
                    if t1.contains(a) {
                        let j = choose|j: int| 0 <= j < t1.len() && t1[j] == a;
                        if j < i {
                            assert(t0[j] == a);
                        }
                    }
                    if t0.contains(a) {
                        let j = choose|j: int| 0 <= j < t0.len() && t0[j] == a;
                        assert(t1[j] == a);
                    }
                    if a == owner {
                        assert(t1[i as int] == a);
                    }
                }
                assert(r.admin_set() =~= Set::new(
                    |a: AccountId| owners@.take(i + 1).contains(a),
                ));
            }
            i = i + 1;
        }
        proof {
            assert(owners@.take(owners@.len() as int) =~= owners@);
        }
        r
    }

    /// Adds `who` to the administrators unless it is one already.
    fn insert_admin(&mut self, who: AccountId)
        requires
            old(self).wf(),
        ensures
            final(self).wf(),
            final(self).admin_set() == old(self).admin_set().insert(who),
            final(self).scores() == old(self).scores(),
            final(self).activities() == old(self).activities(),
            final(self).minute_threshold() == old(self).minute_threshold(),
            final(self).step_threshold() == old(self).step_threshold(),
    {
        let ghost old_self = *self;
        match self.admin_index(&who) {
            Some(i) => {
                assert(self.admin_set() =~= old_self.admin_set().insert(who));
            },
            None => {
                self.admins.push(who);
                proof {
                    let before = old_self.admins@;
                    let after = self.admins@;
                    assert forall|a: AccountId| after.contains(a) <==> before.contains(a) || a == who by {
                        if after.contains(a) {
                            let j = choose|j: int| 0 <= j < after.len() && after[j] == a;
                            if j < before.len() {
                                assert(before[j] == a);
                            }
                        }
                        if before.contains(a) {
                            let j = choose|j: int| 0 <= j < before.len() && before[j] == a;
                            assert(after[j] == a);
                        }
                        if a == who {
                            assert(after[before.len() as int] == a);
                        }
                    }
                    assert(self.admin_set() =~= old_self.admin_set().insert(who));
                    assert(self.activities() == old_self.activities());
                    assert(self.users == old_self.users);
                    assert(self.registry == old_self.registry);
                }
            },
        }
    }

    /// Registers `user` with a count of zero. A user that was registered
    /// before starts again from zero; its logged activities stay.
    pub fn add_user(&mut self, caller: AccountId, user: String) -> (r: Result<(), CustomError>)
        requires
            old(self).wf(),
        ensures
            final(self).wf(),
            r == old(self).gate(caller),
            r is Err ==> *final(self) == *old(self),
            r is Ok ==> final(self).scores() == old(self).scores().insert(user@, 0),
            final(self).activities() == old(self).activities(),
            final(self).admin_set() == old(self).admin_set(),
            final(self).minute_threshold() == old(self).minute_threshold(),
            final(self).step_threshold() == old(self).step_threshold(),
    {
        if !self.is_admin(caller) {
            return Err(CustomError::AccessOnlyForAdmins);
        }
        let ghost old_self = *self;
        let ghost name = user@;
        let ghost mut pos: int;
        match self.user_index(&user) {
            Some(i) => {
                self.users.set(i, (user, 0));
                proof {
                    pos = i as int;
                }
            },
            None => {
                self.users.push((user, 0));
                proof {
                    pos = old_self.users@.len() as int;
                }
            },
        }
        assert(self.users@[pos].0@ == name && 0 <= pos < self.users@.len());
        proof {
            self.registry@ = self.registry@.insert(name, 0);
            assert(self.activities() == old_self.activities());
            assert forall|k: Seq<char>| #[trigger]
                self.registry@.contains_key(k) implies exists|j: int|
                0 <= j < self.users@.len() && self.users@[j].0@ == k by {
                if k == name {
                    assert(self.users@[pos].0@ == k);
                } else {
                    let j = choose|j: int|
                        0 <= j < old_self.users@.len() && old_self.users@[j].0@ == k;
                    assert(self.users@[j].0@ == k);
                }
            }
            assert forall|j: int| 0 <= j < self.users@.len() implies #[trigger] self.registry@.contains_key(
                self.users@[j].0@,
            ) && self.registry@[self.users@[j].0@] == self.users@[j].1 by {
                if j < old_self.users@.len() && j != pos {
                    assert(old_self.users@[j] == self.users@[j]);
                }
            }
        }
        Ok(())
    }

    /// Adds `admin` to the administrators; adding one that is already there
    /// changes nothing.
    pub fn add_admin(&mut self, caller: AccountId, admin: AccountId) -> (r: Result<(), CustomError>)
        requires
            old(self).wf(),
        ensures
            final(self).wf(),
            admin_added(*old(self), *final(self), caller, admin, r),
    {
        if !self.is_admin(caller) {
            return Err(CustomError::AccessOnlyForAdmins);
        }
        self.insert_admin(admin);
        Ok(())
    }

    /// Sets the fewest minutes an activity must last.
    pub fn set_min_active_mins(&mut self, caller: AccountId, mins: u32) -> (r: Result<(), CustomError>)
        requires
            old(self).wf(),
        ensures
            final(self).wf(),
            r == old(self).gate(caller),
            r is Err ==> *final(self) == *old(self),
            r is Ok ==> final(self).minute_threshold() == mins,
            final(self).step_threshold() == old(self).step_threshold(),
            final(self).scores() == old(self).scores(),
            final(self).activities() == old(self).activities(),
            final(self).admin_set() == old(self).admin_set(),
    {
        if !self.is_admin(caller) {
            return Err(CustomError::AccessOnlyForAdmins);
        }
        self.min_active_mins = mins;
        Ok(())
    }

    /// Sets the fewest steps an activity must have.
    pub fn set_min_steps(&mut self, caller: AccountId, steps: u32) -> (r: Result<(), CustomError>)
        requires
            old(self).wf(),
        ensures
            final(self).wf(),
            r == old(self).gate(caller),
            r is Err ==> *final(self) == *old(self),
            r is Ok ==> final(self).step_threshold() == steps,
            final(self).minute_threshold() == old(self).minute_threshold(),
            final(self).scores() == old(self).scores(),
            final(self).activities() == old(self).activities(),
            final(self).admin_set() == old(self).admin_set(),
    {
        if !self.is_admin(caller) {
            return Err(CustomError::AccessOnlyForAdmins);
        }
        self.min_steps = steps;
        Ok(())
    }

    /// Each registered user's count of accepted activities.
    pub closed spec fn scores(&self) -> Map<Seq<char>, u32> {
        self.registry@
    }

    /// The log of accepted activities, oldest first.
    pub closed spec fn activities(&self) -> Seq<ActivityEntry> {
        self.active_days@.map_values(|r: ActivityRecord| r@)
    }

    /// The administrators.
    pub closed spec fn admin_set(&self) -> Set<AccountId> {
        Set::new(|a: AccountId| self.admins@.contains(a))
    }

    /// The fewest minutes an activity must last.
    pub closed spec fn minute_threshold(&self) -> u32 {
        self.min_active_mins
    }

    /// The fewest steps an activity must have.
    pub closed spec fn step_threshold(&self) -> u32 {
        self.min_steps
    }

    /// The ledger is well formed: each user name is held once and agrees with
    /// the counts, the administrators are held once each, and no count exceeds
    /// the number of logged activities of that user.
    pub closed spec fn wf(&self) -> bool {
        &&& forall|i: int, j: int|
            0 <= i < j < self.users@.len() ==> self.users@[i].0@ != self.users@[j].0@
        &&& forall|i: int|
            #![trigger self.users@[i]]
            0 <= i < self.users@.len() ==> self.registry@.contains_key(self.users@[i].0@)
                && self.registry@[self.users@[i].0@] == self.users@[i].1
        &&& forall|k: Seq<char>|
            #[trigger] self.registry@.contains_key(k) ==> exists|i: int|
                0 <= i < self.users@.len() && self.users@[i].0@ == k
        &&& self.admins@.no_duplicates()
        &&& forall|k: Seq<char>|
            #[trigger] self.registry@.contains_key(k) ==> self.registry@[k] <= count_for(
                self.activities(),
                k,
            )
    }

    /// The access check in front of every operation that only administrators may call.
    pub open spec fn gate(&self, caller: AccountId) -> Result<(), CustomError> {
        if self.admin_set().contains(caller) {
            Ok(())
        } else {
            Err(CustomError::AccessOnlyForAdmins)
        }
    }

    /// Records an activity of `user`. Every check comes before any change, so a
    /// failed call leaves the ledger as it was.
    pub fn add_activity(
        &mut self,
        caller: AccountId,
        user: String,
        active_mins: u32,
        steps_made: u32,
        activity_date: String,
    ) -> (r: Result<(), CustomError>)
        requires
            old(self).wf(),
            old(self).scores().contains_key(user@) ==> old(self).scores()[user@] < u32::MAX,
        ensures
            final(self).wf(),
            r == activity_outcome(*old(self), caller, user@, active_mins, steps_made),
            r is Err ==> *final(self) == *old(self),
            r is Ok ==> activity_recorded(
                *old(self),
                *final(self),
                user@,
                active_mins,
                steps_made,
                activity_date@,
            ),
    {
        if !self.is_admin(caller) {
            return Err(CustomError::AccessOnlyForAdmins);
        }
        if active_mins < self.min_active_mins {
            return Err(CustomError::TooLittleMins);
        }
        if steps_made < self.min_steps {
            return Err(CustomError::TooLittleSteps);
        }
        let i = match self.user_index(&user) {
            Some(i) => i,
            None => {
                proof {
                    if self.registry@.contains_key(user@) {
                        let j = choose|j: int|
                            0 <= j < self.users@.len() && self.users@[j].0@ == user@;
                        assert(self.users@[j].0@ == user@);
                    }
                }
                return Err(CustomError::UserDoesNotExist);
            },
        };
        let ghost old_self = *self;
        assert(self.users@[i as int].0@ == user@);
        let count = self.users[i].1;
        let record = ActivityRecord {
            user: user.clone(),
            active_mins,
            steps_made,
            date: activity_date,
        };
        self.active_days.push(record);
        self.users.set(i, (user, count + 1));
        proof {
            self.registry@ = self.registry@.insert(user@, (count + 1) as u32);
            let e = ActivityEntry {
                user: user@,
                active_mins,
                steps_made,
                date: activity_date@,
            };
            assert(self.activities() =~= old_self.activities().push(e));
            assert(self.activities().drop_last() =~= old_self.activities());
            assert forall|k: Seq<char>| #[trigger]
                self.registry@.contains_key(k) implies self.registry@[k] <= count_for(
                self.activities(),
                k,
            ) by {
                assert(old_self.registry@.contains_key(k));
            }
            assert forall|k: Seq<char>| #[trigger]
                self.registry@.contains_key(k) implies exists|j: int|
                0 <= j < self.users@.len() && self.users@[j].0@ == k by {
                let j = choose|j: int|
                    0 <= j < old_self.users@.len() && old_self.users@[j].0@ == k;
                assert(self.users@[j].0@ == k);
            }
            assert forall|j: int| 0 <= j < self.users@.len() implies #[trigger] self.registry@.contains_key(
                self.users@[j].0@,
            ) && self.registry@[self.users@[j].0@] == self.users@[j].1 by {
                assert(old_self.users@[j].0@ == self.users@[j].0@);
            }
            assert(self.admin_set() =~= old_self.admin_set());
        }
        Ok(())
    }

    /// The lines of every logged activity that mention `user`, oldest first.
    /// A record mentions `user` when its line holds `user` as a piece of text,
    /// so a short name also picks up the records of longer names that contain it.
    pub fn get_user_activities(&self, user: String) -> (r: Result<Vec<String>, CustomError>)
        requires
            self.wf(),
        ensures
            !self.scores().contains_key(user@) ==> r == Err::<Vec<String>, CustomError>(
                CustomError::UserDoesNotExist,
            ),
            self.scores().contains_key(user@) ==> r is Ok && r->Ok_0@.map_values(
                |t: String| t@,
            ) == matching_texts(self.activities(), user@),
    {
        if !self.has_user(&user) {
            return Err(CustomError::UserDoesNotExist);
        }
        let mut out: Vec<String> = Vec::new();
        let mut i: usize = 0;
        while i < self.active_days.len()
            invariant
                i <= self.active_days@.len(),
                out@.map_values(|t: String| t@) == matching_texts(
                    self.activities().take(i as int),
                    user@,
                ),
            decreases self.active_days@.len() - i,
        {
            let text = self.active_days[i].display();
            proof {
                let log = self.activities();
                assert(log.take(i + 1).drop_last() =~= log.take(i as int));
                assert(log.take(i + 1).last() == self.active_days@[i as int]@);
            }
            if str_contains(text.as_str(), user.as_str()) {
                let ghost prev = out@;
                out.push(text);
                proof {
                    assert(out@.map_values(|t: String| t@) =~= prev.map_values(|t: String| t@).push(
                        text@,
                    ));
                }
            }
            i = i + 1;
        }
        proof {
            assert(self.activities().take(self.active_days@.len() as int) =~= self.activities());
        }
        Ok(out)
    }

    fn has_user(&self, user: &String) -> (r: bool)
        requires
            self.wf(),
        ensures
            r == self.scores().contains_key(user@),
    {
        match self.user_index(user) {
            Some(i) => {
                assert(self.users@[i as int].0@ == user@);
                true
            },
            None => {
                proof {
                    if self.registry@.contains_key(user@) {
                        let j = choose|j: int|
                            0 <= j < self.users@.len() && self.users@[j].0@ == user@;
                        assert(self.users@[j].0@ == user@);
                    }
                }
                false
            },
        }
    }

    /// The number of activities accepted for `user` since it was registered.
    pub fn get_user_activity_score(&self, user: String) -> (r: Result<u32, CustomError>)
        requires
            self.wf(),
        ensures
            r == (if self.scores().contains_key(user@) {
                Ok::<u32, CustomError>(self.scores()[user@])
            } else {
                Err(CustomError::UserDoesNotExist)
            }),
    {
        match self.user_index(&user) {
            Some(i) => Ok(self.users[i].1),
            None => {
                proof {
                    if self.registry@.contains_key(user@) {
                        let j = choose|j: int|
                            0 <= j < self.users@.len() && self.users@[j].0@ == user@;
                        assert(self.users@[j].0@ == user@);
                    }
                }
                Err(CustomError::UserDoesNotExist)
            },
        }
    }

    /// Takes `admin` out of the administrators. Nothing keeps the last
    /// administrator from being removed; the ledger then accepts no further
    /// change.
    pub fn remove_admin(&mut self, caller: AccountId, admin: AccountId) -> (r: Result<(), CustomError>)
        requires
            old(self).wf(),
        ensures
            final(self).wf(),
            r == (if old(self).gate(caller) is Err {
                Err(CustomError::AccessOnlyForAdmins)
            } else if !old(self).admin_set().contains(admin) {
                Err(CustomError::AdminNotFound)
            } else {
                Ok(())
            }),
            r is Err ==> *final(self) == *old(self),
            r is Ok ==> final(self).admin_set() == old(self).admin_set().remove(admin),
            final(self).scores() == old(self).scores(),
            final(self).activities() == old(self).activities(),
            final(self).minute_threshold() == old(self).minute_threshold(),
            final(self).step_threshold() == old(self).step_threshold(),
    {
        if !self.is_admin(caller) {
            return Err(CustomError::AccessOnlyForAdmins);
        }
        let i = match self.admin_index(&admin) {
            Some(i) => i,
            None => {
                return Err(CustomError::AdminNotFound);
            },
        };
        let ghost before = self.admins@;
        let ghost old_self = *self;
        self.admins.swap_remove(i);
        proof {
            let after = self.admins@;
            let n = before.len() - 1;
            assert forall|a: AccountId| after.contains(a) <==> before.contains(a) && a != admin by {
                if after.contains(a) {
                    let j = choose|j: int| 0 <= j < after.len() && after[j] == a;
                    if j == i {
                        assert(before[n] == a);
                    } else {
                        assert(before[j] == a);
                    }
                }
                if before.contains(a) && a != admin {
                    let k = choose|k: int| 0 <= k < before.len() && before[k] == a;
                    if k == n {
                        assert(after[i as int] == a);
                    } else {
                        assert(after[k] == a);
                    }
                }
            }
            assert(self.admin_set() =~= Set::new(|a: AccountId| before.contains(a)).remove(admin));
            assert forall|x: int, y: int| 0 <= x < after.len() && 0 <= y < after.len() && x != y
                implies after[x] != after[y] by {
                assert(before.no_duplicates());
                if x == i {
                    assert(before[n] == after[x] && before[y] == after[y]);
                } else if y == i {
                    assert(before[n] == after[y] && before[x] == after[x]);
                } else {
                    assert(before[x] == after[x] && before[y] == after[y]);
                }
            }
            assert(after.no_duplicates());
            assert(self.activities() == old_self.activities());
            assert(self.users == old_self.users);
            assert(self.registry == old_self.registry);
            assert(self.admins@ == after);
            assert(self.wf());
        }
        Ok(())
    }

    fn admin_index(&self, who: &AccountId) -> (r: Option<usize>)
        ensures
            match r {
                Some(i) => i < self.admins@.len() && self.admins@[i as int] == *who,
                None => !self.admins@.contains(*who),
            },
    {
        let mut i: usize = 0;
        while i < self.admins.len()
            invariant
                i <= self.admins@.len(),
                forall|j: int| 0 <= j < i ==> self.admins@[j] != *who,
            decreases self.admins@.len() - i,
        {
            if self.admins[i] == *who {
                return Some(i);
            }
            i = i + 1;
        }
        None
    }

    /// Whether `who` is an administrator.
    pub fn is_admin(&self, who: AccountId) -> (r: bool)
        ensures
            r == self.admin_set().contains(who),
    {
        match self.admin_index(&who) {
            Some(i) => {
                assert(self.admins@.contains(who));
                true
            },
            None => false,
        }
    }

    fn user_index(&self, user: &String) -> (r: Option<usize>)
        ensures
            match r {
                Some(i) => i < self.users@.len() && self.users@[i as int].0@ == user@,
                None => forall|j: int| 0 <= j < self.users@.len() ==> self.users@[j].0@ != user@,
            },
    {
        let mut i: usize = 0;
        while i < self.users.len()
            invariant
                i <= self.users@.len(),
                forall|j: int| 0 <= j < i ==> self.users@[j].0@ != user@,
            decreases self.users@.len() - i,
        {
            if self.users[i].0 == *user {
                return Some(i);
            }
            i = i + 1;
        }
        None
    }
}

} // verus!

verus! {

/// An entry's line starts with its user, so it always mentions that user.
pub proof fn lemma_text_mentions_user(e: ActivityEntry)
    ensures
        is_substring(e.user, e.text()),
{
    let rest = " active mins: "@ + decimal(e.active_mins as nat) + " steps made: "@ + decimal(
        e.steps_made as nat,
    ) + " from: "@ + e.date;
    assert(e.text() =~= e.user + rest);
    assert((e.user + rest).subrange(0, 0 + e.user.len() as int) =~= e.user);
}

proof fn lemma_unmentioned(log: Seq<ActivityEntry>, user: Seq<char>)
    requires
        forall|j: int| 0 <= j < log.len() ==> !is_substring(user, #[trigger] log[j].text()),
    ensures
        count_for(log, user) == 0,
        matching_texts(log, user) == Seq::<Seq<char>>::empty(),
    decreases log.len(),
{
    if log.len() > 0 {
        let rest = log.drop_last();
        assert forall|j: int| 0 <= j < rest.len() implies !is_substring(
            user,
            #[trigger] rest[j].text(),
        ) by {
            assert(rest[j] == log[j]);
        }
        lemma_unmentioned(rest, user);
        assert(!is_substring(user, log[log.len() - 1].text()));
        if log.last().user == user {
            lemma_text_mentions_user(log.last());
        }
    }
}

/// A registered user whom no logged activity mentions has a score of zero
/// and an empty list of activities.
pub proof fn lemma_user_without_activities(s: Inkfit, user: Seq<char>)
    requires
        s.wf(),
        s.scores().contains_key(user),
        forall|j: int|
            0 <= j < s.activities().len() ==> !is_substring(user, #[trigger] s.activities()[j].text()),
    ensures
        s.scores()[user] == 0,
        matching_texts(s.activities(), user) == Seq::<Seq<char>>::empty(),
{
    lemma_unmentioned(s.activities(), user);
}

/// Recording an activity either raises the user's score by one and lengthens
/// the user's list of activities by one, or, when it fails, changes neither.
pub proof fn lemma_activity_counted_once(
    before: Inkfit,
    after: Inkfit,
    caller: AccountId,
    user: Seq<char>,
    mins: u32,
    steps: u32,
    date: Seq<char>,
    r: Result<(), CustomError>,
)
    requires
        before.scores().contains_key(user) ==> before.scores()[user] < u32::MAX,
        r == activity_outcome(before, caller, user, mins, steps),
        r is Err ==> after == before,
        r is Ok ==> activity_recorded(before, after, user, mins, steps, date),
    ensures
        r is Ok ==> after.scores()[user] == before.scores()[user] + 1 && matching_texts(
            after.activities(),
            user,
        ).len() == matching_texts(before.activities(), user).len() + 1,
        r is Err ==> after.scores() == before.scores() && matching_texts(after.activities(), user)
            == matching_texts(before.activities(), user),
{
    if r is Ok {
        let e = ActivityEntry { user, active_mins: mins, steps_made: steps, date };
        assert(after.activities().drop_last() =~= before.activities());
        lemma_text_mentions_user(e);
    }
}

/// Only an administrator can add one; once added, the new administrator
/// passes the access check of every operation that only administrators may call.
pub proof fn lemma_added_admin_is_admitted(
    before: Inkfit,
    after: Inkfit,
    caller: AccountId,
    admin: AccountId,
    r: Result<(), CustomError>,
)
    requires
        admin_added(before, after, caller, admin, r),
    ensures
        !before.admin_set().contains(caller) ==> r == Err::<(), CustomError>(
            CustomError::AccessOnlyForAdmins,
        ),
        before.admin_set().contains(caller) ==> r == Ok::<(), CustomError>(()) && after.gate(admin)
            == Ok::<(), CustomError>(()),
{
}

} // verus!
