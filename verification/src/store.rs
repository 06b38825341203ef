//! The progression store: one record per user, a global high-water mark
//! and a dirty flag. `apply_event` is the sole mutation path for
//! experience; it consults the grant policy, keeps `level` equal to
//! `level_of(experience)` and never lowers a counter.
use vstd::prelude::*;
use vstd::pervasive::unreached;
use vstd::pervasive::VecAdditionalExecFns;
use std::collections::HashMap;
use crate::level::lemma_level_of_bounds;
use crate::level::level;
use crate::level::level_of;
use crate::policy::XP_COOLDOWN_SECONDS;
use crate::policy::cooldown_elapsed;
use crate::policy::may_grant;

verus! {

broadcast use vstd::std_specs::hash::group_hash_axioms;

/// Mathematical shape of one user's record.
#[verifier::ext_equal]
pub struct RecordModel {
    pub id: u64,
    pub name: Seq<char>,
    pub last_grant: int,
    pub xp: nat,
    pub level: nat,
    pub attrs: Seq<(Seq<char>, Seq<char>)>,
}

/// Mathematical shape of the whole store.
#[verifier::ext_equal]
pub struct StoreModel {
    pub records: Map<u64, RecordModel>,
    pub high_water_mark: int,
    pub dirty: bool,
}

/// One user's progression record.
pub struct UserData {
    pub id: u64,
    pub name: String,
    pub last_message_timestamp: i64,
    pub xp: u64,
    pub level: u64,
    pub user_data: Vec<(String, String)>,
}

/// The attribute pairs as sequences of characters.
pub open spec fn attrs_view(pairs: Seq<(String, String)>) -> Seq<(Seq<char>, Seq<char>)> {
    pairs.map_values(|p: (String, String)| (p.0@, p.1@))
}

impl View for UserData {
    type V = RecordModel;

    open spec fn view(&self) -> RecordModel {
        RecordModel {
            id: self.id,
            name: self.name@,
            last_grant: self.last_message_timestamp as int,
            xp: self.xp as nat,
            level: self.level as nat,
            attrs: attrs_view(self.user_data@),
        }
    }
}

fn clone_attrs(pairs: &Vec<(String, String)>) -> (res: Vec<(String, String)>)
    ensures
        res@ == pairs@,
{
    let mut res: Vec<(String, String)> = Vec::new();
    let mut i: usize = 0;
    while i < pairs.len()
        invariant
            i <= pairs.len(),
            res@ =~= pairs@.subrange(0, i as int),
        decreases pairs.len() - i,
    {
        let pair = &pairs[i];
        res.push((pair.0.clone(), pair.1.clone()));
        assert(pairs@.subrange(0, i + 1) =~= pairs@.subrange(0, i as int).push(pairs@[i as int]));
        i = i + 1;
    }
    assert(pairs@.subrange(0, pairs@.len() as int) =~= pairs@);
    res
}

impl Clone for UserData {
    /// A deep copy; it carries the same model.
    fn clone(&self) -> (res: Self)
        ensures
            res@ == self@,
    {
        UserData {
            id: self.id,
            name: self.name.clone(),
            last_message_timestamp: self.last_message_timestamp,
            xp: self.xp,
            level: self.level,
            user_data: clone_attrs(&self.user_data),
        }
    }
}

/// Each stored record, as its model.
pub open spec fn records_view(m: Map<u64, UserData>) -> Map<u64, RecordModel> {
    m.map_values(|u: UserData| u@)
}

impl StoreModel {
    /// Every record is keyed by its own id, carries the level its
    /// experience computes to, and fits the machine's counter.
    pub open spec fn wf(self) -> bool {
        forall|u: u64|
            self.records.contains_key(u) ==> {
                &&& (#[trigger] self.records[u]).id == u
                &&& self.records[u].level == level_of(self.records[u].xp as int)
                &&& self.records[u].xp <= u64::MAX
            }
    }

    /// Whether an event `(user_id, timestamp)` grants experience: always
    /// for an unseen user, otherwise when the cooldown has elapsed and
    /// the counter can still grow.
    pub open spec fn grants(self, user_id: u64, timestamp: int) -> bool {
        if !self.records.contains_key(user_id) {
            true
        } else {
            let r = self.records[user_id];
            cooldown_elapsed(r.last_grant, timestamp, XP_COOLDOWN_SECONDS as int) && r.xp
                < u64::MAX
        }
    }

    /// The store after one event: the display name is refreshed
    /// unconditionally, experience grows by one exactly on a grant, and
    /// the high-water mark rises to the event time if that is newer.
    pub open spec fn apply_event(self, user_id: u64, name: Seq<char>, timestamp: int) -> StoreModel {
        let granted = self.grants(user_id, timestamp);
        let rec = if !self.records.contains_key(user_id) {
            RecordModel {
                id: user_id,
                name: name,
                last_grant: timestamp,
                xp: 1,
                level: level_of(1) as nat,
                attrs: Seq::empty(),
            }
        } else {
            let prev = self.records[user_id];
            if granted {
                RecordModel {
                    id: prev.id,
                    name: name,
                    last_grant: timestamp,
                    xp: (prev.xp + 1) as nat,
                    level: level_of(prev.xp as int + 1) as nat,
                    attrs: prev.attrs,
                }
            } else {
                RecordModel {
                    id: prev.id,
                    name: name,
                    last_grant: prev.last_grant,
                    xp: prev.xp,
                    level: prev.level,
                    attrs: prev.attrs,
                }
            }
        };
        StoreModel {
            records: self.records.insert(user_id, rec),
            high_water_mark: if timestamp > self.high_water_mark {
                timestamp
            } else {
                self.high_water_mark
            },
            dirty: self.dirty || granted,
        }
    }

    /// The store after an attribute write on an existing record.
    pub open spec fn set_attr(self, user_id: u64, key: Seq<char>, value: Seq<char>) -> StoreModel {
        let prev = self.records[user_id];
        let rec = RecordModel {
            id: prev.id,
            name: prev.name,
            last_grant: prev.last_grant,
            xp: prev.xp,
            level: prev.level,
            attrs: attr_store(prev.attrs, key, value),
        };
        StoreModel { records: self.records.insert(user_id, rec), high_water_mark: self.high_water_mark, dirty: true }
    }
}

/// Index of the first attribute pair whose key is `key`, searching from
/// `i`; -1 when there is none.
pub open spec fn attr_find(attrs: Seq<(Seq<char>, Seq<char>)>, key: Seq<char>, i: int) -> int
    decreases attrs.len() - i,
{
    if i < 0 || i >= attrs.len() {
        -1
    } else if attrs[i].0 == key {
        i
    } else {
        attr_find(attrs, key, i + 1)
    }
}

/// The value stored under `key`, if any.
pub open spec fn attr_lookup(attrs: Seq<(Seq<char>, Seq<char>)>, key: Seq<char>) -> Option<
    Seq<char>,
> {
    let i = attr_find(attrs, key, 0);
    if i == -1 {
        Option::None
    } else {
        Option::Some(attrs[i].1)
    }
}

/// The attribute pairs after writing `value` under `key`: the first pair
/// with that key is replaced, or a new pair is appended.
pub open spec fn attr_store(
    attrs: Seq<(Seq<char>, Seq<char>)>,
    key: Seq<char>,
    value: Seq<char>,
) -> Seq<(Seq<char>, Seq<char>)> {
    let i = attr_find(attrs, key, 0);
    if i == -1 {
        attrs.push((key, value))
    } else {
        attrs.update(i, (key, value))
    }
}

/// The global state: all records, the high-water mark, and whether a
/// mutation is waiting to be persisted.
pub struct Data {
    pub data: HashMap<u64, UserData>,
    pub last_timestamp: i64,
    pub changed: bool,
}

impl View for Data {
    type V = StoreModel;

    open spec fn view(&self) -> StoreModel {
        StoreModel {
            records: records_view(self.data@),
            high_water_mark: self.last_timestamp as int,
            dirty: self.changed,
        }
    }
}

/// Index of the first pair in `pairs` whose key equals `key`.
fn find_attr(pairs: &Vec<(String, String)>, key: &String) -> (res: Option<usize>)
    ensures
        match res {
            Option::Some(i) => i < pairs@.len() && attr_find(attrs_view(pairs@), key@, 0)
                == i as int,
            Option::None => attr_find(attrs_view(pairs@), key@, 0) == -1,
        },
{
    let ghost a = attrs_view(pairs@);
    let mut i: usize = 0;
    while i < pairs.len()
        invariant
            i <= pairs.len(),
            a == attrs_view(pairs@),
            attr_find(a, key@, 0) == attr_find(a, key@, i as int),
        decreases pairs.len() - i,
    {
        if pairs[i].0 == *key {
            assert(a[i as int].0 == key@);
            return Option::Some(i);
        }
        assert(a[i as int].0 != key@);
        i = i + 1;
    }
    Option::None
}

impl Data {
    /// An empty store with the given high-water mark.
    pub fn new(last_timestamp: i64) -> (d: Data)
        ensures
            d@.records == Map::<u64, RecordModel>::empty(),
            d@.high_water_mark == last_timestamp as int,
            d@.dirty == false,
            d@.wf(),
    {
        let d = Data { data: HashMap::new(), last_timestamp, changed: false };
        proof {
            assert(records_view(d.data@) =~= Map::<u64, RecordModel>::empty());
        }
        d
    }

    /// Wraps already-built records; nothing is checked here, so the
    /// result is only as well formed as its input.
    pub fn from_data(data: HashMap<u64, UserData>, last_timestamp: i64) -> (d: Data)
        ensures
            d@.records == records_view(data@),
            d@.high_water_mark == last_timestamp as int,
            d@.dirty == false,
    {
        Data { data, last_timestamp, changed: false }
    }

    /// Admits a loaded record after checking that its stored level
    /// agrees with its experience; a record that disagrees is refused,
    /// which signals a corrupt snapshot.
    pub fn insert_record(&mut self, record: UserData) -> (ok: bool)
        ensures
            ok == (record@.level == level_of(record@.xp as int)),
            ok ==> final(self)@ == (StoreModel {
                records: old(self)@.records.insert(record@.id, record@),
                high_water_mark: old(self)@.high_water_mark,
                dirty: old(self)@.dirty,
            }),
            !ok ==> final(self)@ == old(self)@,
            old(self)@.wf() && ok ==> final(self)@.wf(),
    {
        let expected = level(record.xp);
        if record.level == expected {
            let ghost vrec = record@;
            let key = record.id;
            self.data.insert(key, record);
            proof {
                assert(records_view(self.data@) =~= records_view(old(self).data@).insert(
                    key,
                    vrec,
                ));
            }
            true
        } else {
            false
        }
    }

    /// A copy of one user's record; `None` means the user was never seen.
    pub fn read(&self, user_id: u64) -> (res: Option<UserData>)
        ensures
            match res {
                Option::Some(u) => self@.records.contains_key(user_id) && u@
                    == self@.records[user_id],
                Option::None => !self@.records.contains_key(user_id),
            },
    {
        proof {
            assert(records_view(self.data@).contains_key(user_id) == self.data@.contains_key(
                user_id,
            ));
        }
        match self.data.get(&user_id) {
            Option::Some(u) => Option::Some(u.clone()),
            Option::None => Option::None,
        }
    }

    /// A deep copy of the whole state, for persistence.
    pub fn snapshot(&self) -> (d: Data)
        ensures
            d@ == self@,
    {
        Data {
            data: self.data.clone(),
            last_timestamp: self.last_timestamp,
            changed: self.changed,
        }
    }

    /// Records that a snapshot of the current state has been persisted.
    pub fn mark_clean(&mut self)
        ensures
            final(self)@ == (StoreModel { dirty: false, ..old(self)@ }),
    {
        self.changed = false;
    }

    /// The sole experience mutation path. Returns the record after the
    /// event and whether experience was granted.
    pub fn apply_event(&mut self, user_id: u64, display_name: String, timestamp: i64) -> (result: (
        UserData,
        bool,
    ))
        ensures
            final(self)@ == old(self)@.apply_event(user_id, display_name@, timestamp as int),
            result.1 == old(self)@.grants(user_id, timestamp as int),
            result.0@ == final(self)@.records[user_id],
            old(self)@.wf() ==> final(self)@.wf(),
    {
        proof {
            assert(records_view(self.data@).contains_key(user_id) == self.data@.contains_key(
                user_id,
            ));
        }
        let granted: bool;
        let rec: UserData;
        match self.data.get(&user_id) {
            Option::Some(existing) => {
                let prev = existing.clone();
                granted = may_grant(
                    Option::Some(prev.last_message_timestamp),
                    timestamp,
                    XP_COOLDOWN_SECONDS,
                ) && prev.xp < u64::MAX;
                if granted {
                    let new_xp = prev.xp + 1;
                    rec = UserData {
                        id: prev.id,
                        name: display_name,
                        last_message_timestamp: timestamp,
                        xp: new_xp,
                        level: level(new_xp),
                        user_data: prev.user_data,
                    };
                } else {
                    rec = UserData {
                        id: prev.id,
                        name: display_name,
                        last_message_timestamp: prev.last_message_timestamp,
                        xp: prev.xp,
                        level: prev.level,
                        user_data: prev.user_data,
                    };
                }
            },
            Option::None => {
                granted = true;
                rec = UserData {
                    id: user_id,
                    name: display_name,
                    last_message_timestamp: timestamp,
                    xp: 1,
                    level: level(1),
                    user_data: Vec::new(),
                };
            },
        }
        let ghost vrec = rec@;
        let copy = rec.clone();
        self.data.insert(user_id, rec);
        if timestamp > self.last_timestamp {
            self.last_timestamp = timestamp;
        }
        if granted {
            self.changed = true;
        }
        proof {
            assert(attrs_view(Seq::<(String, String)>::empty()) =~= Seq::<(
                Seq<char>,
                Seq<char>,
            )>::empty());
            assert(records_view(self.data@) =~= records_view(old(self).data@).insert(
                user_id,
                vrec,
            ));
            assert(final(self)@ =~= old(self)@.apply_event(
                user_id,
                display_name@,
                timestamp as int,
            ));
            if old(self)@.wf() {
                lemma_apply_event_preserves_wf(old(self)@, user_id, display_name@,
                timestamp as int);
            }
        }
        (copy, granted)
    }

    /// Stores an arbitrary string under a key on a user's record;
    /// refused when the user has no record.
    pub fn set_user_storage(&mut self, user_id: u64, key: String, value: String) -> (ok: bool)
        ensures
            ok == old(self)@.records.contains_key(user_id),
            ok ==> final(self)@ == old(self)@.set_attr(user_id, key@, value@),
            !ok ==> final(self)@ == old(self)@,
    {
        proof {
            assert(records_view(self.data@).contains_key(user_id) == self.data@.contains_key(
                user_id,
            ));
        }
        match self.data.get(&user_id) {
            Option::Some(existing) => {
                let mut rec = existing.clone();
                let ghost a = attrs_view(rec.user_data@);
                match find_attr(&rec.user_data, &key) {
                    Option::Some(i) => {
                        rec.user_data.set(i, (key, value));
                        proof {
                            assert(attrs_view(rec.user_data@) =~= attr_store(a, key@, value@));
                        }
                    },
                    Option::None => {
                        rec.user_data.push((key, value));
                        proof {
                            assert(attrs_view(rec.user_data@) =~= attr_store(a, key@, value@));
                        }
                    },
                }
                let ghost vrec = rec@;
                self.data.insert(user_id, rec);
                self.changed = true;
                proof {
                    assert(records_view(self.data@) =~= records_view(old(self).data@).insert(
                        user_id,
                        vrec,
                    ));
                    assert(final(self)@ =~= old(self)@.set_attr(user_id, key@, value@));
                }
                true
            },
            Option::None => false,
        }
    }

    /// Reads an attribute from a user's record; the user must have one.
    pub fn get_user_storage(&self, user_id: u64, key: String) -> (res: Option<String>)
        requires
            self@.records.contains_key(user_id),
        ensures
            match res {
                Option::Some(v) => attr_lookup(self@.records[user_id].attrs, key@)
                    == Option::Some(v@),
                Option::None => attr_lookup(self@.records[user_id].attrs, key@) is None,
            },
    {
        proof {
            assert(records_view(self.data@).contains_key(user_id) == self.data@.contains_key(
                user_id,
            ));
        }
        match self.data.get(&user_id) {
            Option::Some(u) => {
                match find_attr(&u.user_data, &key) {
                    Option::Some(i) => Option::Some(u.user_data[i].1.clone()),
                    Option::None => Option::None,
                }
            },
            Option::None => unreached(),
        }
    }
}

/// One event keeps the store well formed.
pub proof fn lemma_apply_event_preserves_wf(
    s: StoreModel,
    user_id: u64,
    name: Seq<char>,
    timestamp: int,
)
    requires
        s.wf(),
    ensures
        s.apply_event(user_id, name, timestamp).wf(),
{
    let post = s.apply_event(user_id, name, timestamp);
    assert forall|u: u64| post.records.contains_key(u) implies {
        &&& (#[trigger] post.records[u]).id == u
        &&& post.records[u].level == level_of(post.records[u].xp as int)
        &&& post.records[u].xp <= u64::MAX
    } by {
        lemma_level_of_bounds(1);
        if s.records.contains_key(user_id) {
            lemma_level_of_bounds(s.records[user_id].xp as int + 1);
        }
        if u != user_id {
            assert(post.records[u] == s.records[u]);
        }
    }
}

/// One event never lowers a user's experience, a user's last grant time,
/// or the high-water mark, and never removes a record.
pub proof fn lemma_apply_event_monotonic(
    s: StoreModel,
    user_id: u64,
    name: Seq<char>,
    timestamp: int,
)
    ensures
        s.apply_event(user_id, name, timestamp).high_water_mark >= s.high_water_mark,
        forall|u: u64|
            s.records.contains_key(u) ==> {
                &&& (#[trigger] s.apply_event(user_id, name, timestamp).records[u]).xp
                    >= s.records[u].xp
                &&& s.apply_event(user_id, name, timestamp).records.contains_key(u)
                &&& s.apply_event(user_id, name, timestamp).records[u].last_grant
                    >= s.records[u].last_grant
            },
{
    let post = s.apply_event(user_id, name, timestamp);
    assert forall|u: u64| s.records.contains_key(u) implies {
        &&& (#[trigger] post.records[u]).xp >= s.records[u].xp
        &&& post.records.contains_key(u)
        &&& post.records[u].last_grant >= s.records[u].last_grant
    } by {
        if u == user_id && s.grants(user_id, timestamp) {
            assert(cooldown_elapsed(s.records[u].last_grant, timestamp,
            XP_COOLDOWN_SECONDS as int));
        }
    }
}

} // verus!
