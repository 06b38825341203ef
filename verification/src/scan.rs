//! The reconciliation scanner: candidates enumerated from history are
//! filtered against the high-water mark, sorted by event time across all
//! sources, and replayed through the store's single mutation path.
use vstd::prelude::*;
use crate::store::Data;
use crate::store::RecordModel;
use crate::store::StoreModel;
use crate::store::UserData;
use crate::store::lemma_apply_event_monotonic;
use crate::store::lemma_apply_event_preserves_wf;

verus! {

broadcast use {vstd::seq_lib::group_to_multiset_ensures, vstd::seq_lib::group_filter_ensures};

/// Upper bound on historical candidates considered per scan.
pub const SCAN_CAP: usize = 10000;

/// Mathematical shape of one historical or live event.
#[verifier::ext_equal]
pub struct EventModel {
    pub user_id: u64,
    pub display_name: Seq<char>,
    pub timestamp: int,
    pub channel_id: Option<u64>,
}

/// One enumerated event: who wrote, under which name, when, and in
/// which channel (when that is known).
pub struct Candidate {
    pub user_id: u64,
    pub display_name: String,
    pub timestamp: i64,
    pub channel_id: Option<u64>,
}

impl View for Candidate {
    type V = EventModel;

    open spec fn view(&self) -> EventModel {
        EventModel {
            user_id: self.user_id,
            display_name: self.display_name@,
            timestamp: self.timestamp as int,
            channel_id: self.channel_id,
        }
    }
}

impl Clone for Candidate {
    /// A copy equal to the original.
    fn clone(&self) -> (res: Self)
        ensures
            res == *self,
    {
        Candidate {
            user_id: self.user_id,
            display_name: self.display_name.clone(),
            timestamp: self.timestamp,
            channel_id: self.channel_id,
        }
    }
}

/// The events carried by a sequence of candidates.
pub open spec fn views_of(candidates: Seq<Candidate>) -> Seq<EventModel> {
    candidates.map_values(|c: Candidate| c@)
}

/// Candidates strictly newer than a high-water mark.
pub open spec fn newer_than(high_water_mark: int) -> spec_fn(Candidate) -> bool {
    |c: Candidate| c@.timestamp > high_water_mark
}

/// Event times never decrease along the sequence.
pub open spec fn sorted_by_time(events: Seq<EventModel>) -> bool {
    forall|i: int, j: int|
        #![trigger events[i], events[j]]
        0 <= i <= j < events.len() ==> events[i].timestamp <= events[j].timestamp
}

/// Keeps the candidates whose timestamp lies beyond the high-water
/// mark, in their original order.
pub fn filter_candidates(high_water_mark: i64, candidates: &Vec<Candidate>) -> (kept: Vec<
    Candidate,
>)
    ensures
        kept@ == candidates@.filter(newer_than(high_water_mark as int)),
{
    let ghost pred = newer_than(high_water_mark as int);
    let mut kept: Vec<Candidate> = Vec::new();
    let mut i: usize = 0;
    while i < candidates.len()
        invariant
            i <= candidates.len(),
            kept@ == candidates@.subrange(0, i as int).filter(pred),
            pred == newer_than(high_water_mark as int),
        decreases candidates.len() - i,
    {
        let c = &candidates[i];
        proof {
            reveal(Seq::filter);
            assert(candidates@.subrange(0, i as int + 1).drop_last() =~= candidates@.subrange(
                0,
                i as int,
            ));
            assert(candidates@.subrange(0, i as int + 1).last() == candidates@[i as int]);
        }
        if c.timestamp > high_water_mark {
            kept.push(c.clone());
        }
        i = i + 1;
    }
    proof {
        assert(candidates@.subrange(0, candidates@.len() as int) =~= candidates@);
    }
    kept
}

/// Sorts candidates by event time, ascending; the multiset of events is
/// unchanged.
pub fn sort_candidates(input: Vec<Candidate>) -> (sorted: Vec<Candidate>)
    ensures
        sorted_by_time(views_of(sorted@)),
        views_of(sorted@).to_multiset() == views_of(input@).to_multiset(),
{
    let mut rest = input;
    let mut sorted: Vec<Candidate> = Vec::new();
    while rest.len() > 0
        invariant
            sorted_by_time(views_of(sorted@)),
            views_of(sorted@).to_multiset().add(views_of(rest@).to_multiset()) == views_of(
                input@,
            ).to_multiset(),
        decreases rest.len(),
    {
        let ghost old_rest = rest@;
        let ghost old_sorted = sorted@;
        let c = rest.pop().unwrap();
        proof {
            assert(views_of(old_rest) =~= views_of(rest@).push(c@));
        }
        let mut j: usize = 0;
        while j < sorted.len() && sorted[j].timestamp <= c.timestamp
            invariant
                j <= sorted.len(),
                forall|k: int|
                    0 <= k < j ==> (#[trigger] views_of(sorted@)[k]).timestamp <= c@.timestamp,
            decreases sorted.len() - j,
        {
            j = j + 1;
        }
        let ghost vc = c@;
        sorted.insert(j, c);
        proof {
            old_sorted.insert_ensures(j as int, c);
            let vs = views_of(old_sorted);
            vs.insert_ensures(j as int, vc);
            assert(views_of(sorted@) =~= vs.insert(j as int, vc));
            assert(views_of(sorted@).to_multiset() =~= vs.to_multiset().insert(vc));
            assert(views_of(sorted@).to_multiset().add(views_of(rest@).to_multiset())
                =~= views_of(input@).to_multiset());
            assert forall|a: int, b: int|
                #![trigger views_of(sorted@)[a], views_of(sorted@)[b]]
                0 <= a <= b < views_of(sorted@).len() implies views_of(sorted@)[a].timestamp
                <= views_of(sorted@)[b].timestamp by {
                let n = vs.len() as int;
                if a < j && b < j {
                } else if a < j && b == j {
                } else if a == j && b == j {
                } else if b > j {
                    if j < n {
                        assert(vs[j as int].timestamp > vc.timestamp);
                    }
                    if a == j {
                        assert(views_of(sorted@)[b] == vs[b - 1]);
                        assert(vs[j as int].timestamp <= vs[b - 1].timestamp);
                    }
                }
            }
        }
    }
    proof {
        assert(views_of(rest@) =~= Seq::<EventModel>::empty());
        assert(views_of(rest@).to_multiset().len() == 0);
        assert(views_of(sorted@).to_multiset() =~= views_of(sorted@).to_multiset().add(
            views_of(rest@).to_multiset(),
        ));
    }
    sorted
}

/// Events strictly newer than a high-water mark.
pub open spec fn event_newer_than(high_water_mark: int) -> spec_fn(EventModel) -> bool {
    |e: EventModel| e.timestamp > high_water_mark
}

/// Filtering candidates and taking their events is taking their events
/// and filtering those.
pub proof fn lemma_views_filter(candidates: Seq<Candidate>, high_water_mark: int)
    ensures
        views_of(candidates.filter(newer_than(high_water_mark))) == views_of(candidates).filter(
            event_newer_than(high_water_mark),
        ),
    decreases candidates.len(),
{
    reveal(Seq::filter);
    if candidates.len() == 0 {
        assert(views_of(candidates) =~= Seq::<EventModel>::empty());
        assert(views_of(candidates.filter(newer_than(high_water_mark))) =~= views_of(
            candidates,
        ).filter(event_newer_than(high_water_mark)));
    } else {
        let rest = candidates.drop_last();
        let last = candidates.last();
        lemma_views_filter(rest, high_water_mark);
        assert(views_of(candidates).drop_last() =~= views_of(rest));
        assert(views_of(candidates).last() == last@);
        if newer_than(high_water_mark)(last) {
            assert(views_of(rest.filter(newer_than(high_water_mark)).push(last)) =~= views_of(
                rest.filter(newer_than(high_water_mark)),
            ).push(last@));
        }
        assert(views_of(candidates.filter(newer_than(high_water_mark))) =~= views_of(
            candidates,
        ).filter(event_newer_than(high_water_mark)));
    }
}

/// The store after one event, as the model sees it.
pub open spec fn apply_step(s: StoreModel, e: EventModel) -> StoreModel {
    s.apply_event(e.user_id, e.display_name, e.timestamp)
}

/// The store after a whole sequence of events, applied in order.
pub open spec fn apply_all(s: StoreModel, events: Seq<EventModel>) -> StoreModel
    decreases events.len(),
{
    if events.len() == 0 {
        s
    } else {
        apply_step(apply_all(s, events.drop_last()), events.last())
    }
}

/// Any sequence of events keeps the store well formed: in particular,
/// every record's level stays equal to the level its experience
/// computes to.
pub proof fn lemma_apply_all_preserves_wf(s: StoreModel, events: Seq<EventModel>)
    requires
        s.wf(),
    ensures
        apply_all(s, events).wf(),
    decreases events.len(),
{
    if events.len() > 0 {
        lemma_apply_all_preserves_wf(s, events.drop_last());
        lemma_apply_event_preserves_wf(
            apply_all(s, events.drop_last()),
            events.last().user_id,
            events.last().display_name,
            events.last().timestamp,
        );
    }
}

/// Across any event history, no user's experience or last grant time
/// ever decreases, no record is ever dropped, and the high-water mark
/// never falls.
pub proof fn lemma_apply_all_monotonic(s: StoreModel, events: Seq<EventModel>)
    ensures
        apply_all(s, events).high_water_mark >= s.high_water_mark,
        forall|u: u64|
            s.records.contains_key(u) ==> {
                &&& #[trigger] apply_all(s, events).records.dom().contains(u)
                &&& apply_all(s, events).records[u].xp >= s.records[u].xp
                &&& apply_all(s, events).records[u].last_grant >= s.records[u].last_grant
            },
    decreases events.len(),
{
    if events.len() > 0 {
        let mid = apply_all(s, events.drop_last());
        let e = events.last();
        lemma_apply_all_monotonic(s, events.drop_last());
        lemma_apply_event_monotonic(mid, e.user_id, e.display_name, e.timestamp);
        assert forall|u: u64| s.records.contains_key(u) implies {
            &&& #[trigger] apply_all(s, events).records.dom().contains(u)
            &&& apply_all(s, events).records[u].xp >= s.records[u].xp
            &&& apply_all(s, events).records[u].last_grant >= s.records[u].last_grant
        } by {
            assert(apply_all(s, events.drop_last()).records.dom().contains(u)
                && mid.records[u].xp >= s.records[u].xp && mid.records[u].last_grant
                >= s.records[u].last_grant);
            let stepped = mid.apply_event(e.user_id, e.display_name, e.timestamp);
            assert(stepped.records.contains_key(u) && stepped.records[u].xp >= mid.records[u].xp
                && stepped.records[u].last_grant >= mid.records[u].last_grant);
            assert(apply_all(s, events) == stepped);
        }
    }
}

/// After a replay, the high-water mark covers every replayed event.
pub proof fn lemma_apply_all_hwm(s: StoreModel, events: Seq<EventModel>)
    ensures
        apply_all(s, events).high_water_mark >= s.high_water_mark,
        forall|i: int|
            0 <= i < events.len() ==> apply_all(s, events).high_water_mark >= (#[trigger] events[
                i
            ]).timestamp,
    decreases events.len(),
{
    if events.len() > 0 {
        lemma_apply_all_hwm(s, events.drop_last());
        assert forall|i: int|
            0 <= i < events.len() implies apply_all(s, events).high_water_mark >= (
        #[trigger] events[i]).timestamp by {
            if i < events.len() - 1 {
                assert(events.drop_last()[i] == events[i]);
            }
        }
    }
}

/// Mathematical shape of one observed level change.
#[verifier::ext_equal]
pub struct TransitionModel {
    pub previous_level: nat,
    pub record: RecordModel,
    pub channel_id: Option<u64>,
}

/// One observed level change: the level before the grant, the record
/// after it, and the channel the triggering event came from.
pub struct Transition {
    pub previous_level: u64,
    pub record: UserData,
    pub channel_id: Option<u64>,
}

impl View for Transition {
    type V = TransitionModel;

    open spec fn view(&self) -> TransitionModel {
        TransitionModel {
            previous_level: self.previous_level as nat,
            record: self.record@,
            channel_id: self.channel_id,
        }
    }
}

/// The level changes carried by a sequence of transitions.
pub open spec fn transitions_view(transitions: Seq<Transition>) -> Seq<TransitionModel> {
    transitions.map_values(|t: Transition| t@)
}

/// A user's stored level, or 0 before any record exists.
pub open spec fn prev_level_of(s: StoreModel, user_id: u64) -> nat {
    if s.records.contains_key(user_id) {
        s.records[user_id].level
    } else {
        0
    }
}

/// Whether applying `e` to `s` grants experience and moves the user's
/// level.
pub open spec fn causes_transition(s: StoreModel, e: EventModel) -> bool {
    s.grants(e.user_id, e.timestamp) && apply_step(s, e).records[e.user_id].level
        != prev_level_of(s, e.user_id)
}

/// The level change observed when `e` is applied to `s`.
pub open spec fn transition_of(s: StoreModel, e: EventModel) -> TransitionModel {
    TransitionModel {
        previous_level: prev_level_of(s, e.user_id),
        record: apply_step(s, e).records[e.user_id],
        channel_id: e.channel_id,
    }
}

/// The level changes observed while a sequence of events is applied in
/// order.
pub open spec fn transitions_of(s: StoreModel, events: Seq<EventModel>) -> Seq<TransitionModel>
    decreases events.len(),
{
    if events.len() == 0 {
        Seq::empty()
    } else {
        let pre = apply_all(s, events.drop_last());
        let rest = transitions_of(s, events.drop_last());
        if causes_transition(pre, events.last()) {
            rest.push(transition_of(pre, events.last()))
        } else {
            rest
        }
    }
}

/// Replays the events in the given order through the store's single
/// mutation path and reports every level change, in order.
pub fn apply_events(store: &mut Data, events: &Vec<Candidate>) -> (transitions: Vec<Transition>)
    ensures
        final(store)@ == apply_all(old(store)@, views_of(events@)),
        transitions_view(transitions@) == transitions_of(old(store)@, views_of(events@)),
        old(store)@.wf() ==> final(store)@.wf(),
{
    let ghost s0 = store@;
    let ghost ve = views_of(events@);
    let mut transitions: Vec<Transition> = Vec::new();
    let mut i: usize = 0;
    while i < events.len()
        invariant
            i <= events.len(),
            ve == views_of(events@),
            store@ == apply_all(s0, ve.subrange(0, i as int)),
            transitions_view(transitions@) == transitions_of(s0, ve.subrange(0, i as int)),
        decreases events.len() - i,
    {
        let c = &events[i];
        let prev_level: u64 = match store.read(c.user_id) {
            Option::Some(u) => u.level,
            Option::None => 0,
        };
        let ghost pre = store@;
        assert(prev_level as nat == prev_level_of(pre, c.user_id));
        let (rec, granted) = store.apply_event(c.user_id, c.display_name.clone(), c.timestamp);
        proof {
            assert(ve.subrange(0, i as int + 1).drop_last() =~= ve.subrange(0, i as int));
            assert(ve.subrange(0, i as int + 1).last() == ve[i as int]);
            assert(ve[i as int] == c@);
            assert(store@ == apply_step(pre, c@));
        }
        if granted && rec.level != prev_level {
            let t = Transition {
                previous_level: prev_level,
                record: rec,
                channel_id: c.channel_id,
            };
            proof {
                assert(causes_transition(pre, c@));
                assert(t@ == transition_of(pre, c@));
            }
            let ghost vt = t@;
            transitions.push(t);
            proof {
                assert(transitions_view(transitions@) =~= transitions_of(
                    s0,
                    ve.subrange(0, i as int + 1),
                ));
            }
        } else {
            proof {
                assert(!causes_transition(pre, c@));
                assert(transitions_view(transitions@) == transitions_of(
                    s0,
                    ve.subrange(0, i as int + 1),
                ));
            }
        }
        i = i + 1;
    }
    proof {
        assert(ve.subrange(0, events@.len() as int) =~= ve);
        if old(store)@.wf() {
            lemma_apply_all_preserves_wf(old(store)@, ve);
        }
    }
    transitions
}

/// The reconciliation scan: drops candidates at or below the stored
/// high-water mark, orders the rest by event time globally, and replays
/// them through the store, reporting the level changes. The store ends
/// as if some time-sorted arrangement of exactly the surviving
/// candidates had been applied.
pub fn reconcile(store: &mut Data, candidates: &Vec<Candidate>) -> (transitions: Vec<Transition>)
    ensures
        exists|order: Seq<EventModel>|
            {
                &&& sorted_by_time(order)
                &&& order.to_multiset() == views_of(candidates@).filter(
                    event_newer_than(old(store)@.high_water_mark),
                ).to_multiset()
                &&& #[trigger] apply_all(old(store)@, order) == final(store)@
                &&& transitions_view(transitions@) == transitions_of(old(store)@, order)
            },
        old(store)@.wf() ==> final(store)@.wf(),
{
    let high_water_mark = store.last_timestamp;
    let kept = filter_candidates(high_water_mark, candidates);
    let sorted = sort_candidates(kept);
    let transitions = apply_events(store, &sorted);
    proof {
        let order = views_of(sorted@);
        lemma_views_filter(candidates@, high_water_mark as int);
        assert(order.to_multiset() == views_of(candidates@).filter(
            event_newer_than(old(store)@.high_water_mark),
        ).to_multiset());
        assert(apply_all(old(store)@, order) == final(store)@);
    }
    transitions
}

/// Scanning twice without new events changes nothing: once a scan has
/// run, every candidate sits at or below the high-water mark, so the
/// second scan keeps no candidate and leaves the store as it was.
pub proof fn lemma_reconcile_idempotent(
    s: StoreModel,
    candidates: Seq<EventModel>,
    order1: Seq<EventModel>,
    order2: Seq<EventModel>,
)
    requires
        order1.to_multiset() == candidates.filter(event_newer_than(s.high_water_mark)).to_multiset(),
        order2.to_multiset() == candidates.filter(
            event_newer_than(apply_all(s, order1).high_water_mark),
        ).to_multiset(),
    ensures
        order2 == Seq::<EventModel>::empty(),
        apply_all(apply_all(s, order1), order2) == apply_all(s, order1),
{
    let s1 = apply_all(s, order1);
    lemma_apply_all_hwm(s, order1);
    assert forall|i: int|
        0 <= i < candidates.len() implies (#[trigger] candidates[i]).timestamp
        <= s1.high_water_mark by {
        let c = candidates[i];
        if c.timestamp > s.high_water_mark {
            let kept = candidates.filter(event_newer_than(s.high_water_mark));
            assert(kept.contains(c));
            assert(order1.to_multiset().count(c) > 0);
            assert(order1.contains(c));
            let k = choose|k: int| 0 <= k < order1.len() && order1[k] == c;
            assert(s1.high_water_mark >= order1[k].timestamp);
        }
    }
    let pred2 = event_newer_than(s1.high_water_mark);
    assert(candidates.all(|e: EventModel| !pred2(e))) by {
        assert forall|i: int| 0 <= i < candidates.len() implies !(pred2(
            #[trigger] candidates[i],
        )) by {
            assert(candidates[i].timestamp <= s1.high_water_mark);
        }
    }
    candidates.lemma_all_neg_filter_empty(pred2);
    assert(order2.to_multiset().len() == 0);
    assert(order2.len() == 0);
    assert(order2 =~= Seq::<EventModel>::empty());
}

} // verus!
