//! The MaaCore manager's own decisions: the events it hands to subscribers,
//! the subscriber list with the latest connection report, and the order of
//! the start-up calls.

use vstd::prelude::*;
use crate::json::{json_parse, parse_json, Json, JsonView};
use crate::maa_core::msg::{msg_name, name, CONNECTION_INFO};
use crate::maa_core::AsstMsgId;
use std::sync::mpsc::{Receiver, Sender};

verus! {

/// A single event emitted by MaaCore, with its details parsed as JSON.
#[derive(Debug, PartialEq)]
pub struct CoreEvent {
    pub msg: AsstMsgId,
    pub msg_name: String,
    pub details: Json,
}

/// The mathematical form of a [`CoreEvent`].
pub struct CoreEventView {
    pub msg: AsstMsgId,
    pub msg_name: Seq<char>,
    pub details: JsonView,
}

impl View for CoreEvent {
    type V = CoreEventView;

    open spec fn view(&self) -> CoreEventView {
        CoreEventView { msg: self.msg, msg_name: self.msg_name@, details: self.details@ }
    }
}

impl Clone for CoreEvent {
    fn clone(&self) -> (res: Self)
        ensures
            res@ == self@,
    {
        CoreEvent { msg: self.msg, msg_name: self.msg_name.clone(), details: self.details.copy() }
    }
}

impl CoreEvent {
    /// An event of kind `msg_id` with the given details, named after its kind.
    pub fn new(msg_id: AsstMsgId, details: Json) -> (res: CoreEvent)
        ensures
            res.msg == msg_id,
            res.msg_name@ == msg_name(msg_id),
            res.details@ == details@,
    {
        CoreEvent { msg: msg_id, msg_name: name(msg_id).to_string(), details }
    }

    /// The event for a MaaCore callback: the details text parsed as JSON, or
    /// `null` where it is not JSON.
    pub fn from_callback(msg_id: AsstMsgId, details_json: &str) -> (res: CoreEvent)
        ensures
            res.msg == msg_id,
            res.msg_name@ == msg_name(msg_id),
            res.details@ == (match json_parse(details_json@) {
                Some(d) => d,
                None => JsonView::Null,
            }),
    {
        let details = match parse_json(details_json) {
            Some(d) => d,
            None => Json::Null,
        };
        CoreEvent::new(msg_id, details)
    }
}


/// The sending half of a std channel of events.
#[verifier::external_type_specification]
#[verifier::external_body]
#[verifier::reject_recursive_types(T)]
pub struct ExSender<T>(Sender<T>);

/// The receiving half of a std channel of events.
#[verifier::external_type_specification]
#[verifier::external_body]
#[verifier::reject_recursive_types(T)]
pub struct ExReceiver<T>(Receiver<T>);

/// The events that a sender has been handed, oldest first: every event
/// passed to `Sender::send` through it, taken or not.
pub uninterp spec fn sender_offered(tx: Sender<CoreEvent>) -> Seq<CoreEventView>;

/// The events that a sender has accepted for its channel, oldest first:
/// those for which `Sender::send` through it returned `Ok`.
pub uninterp spec fn sender_accepted(tx: Sender<CoreEvent>) -> Seq<CoreEventView>;

/// Opens a channel of events (`std::sync::mpsc::channel`). Its sender has
/// been handed nothing and has accepted nothing yet.
#[verifier::external_body]
fn open_channel() -> (res: (Sender<CoreEvent>, Receiver<CoreEvent>))
    ensures
        sender_offered(res.0) == Seq::<CoreEventView>::empty(),
        sender_accepted(res.0) == Seq::<CoreEventView>::empty(),
{
    std::sync::mpsc::channel()
}

/// Sends an event down a channel (`Sender::send`). The sender has been handed
/// the event whatever comes back. `true` where the channel took it: the
/// sender has then accepted it after all it accepted before; `false` where
/// the receiving half is gone: nothing was queued. Which of the two comes
/// back depends on the receiver.
#[verifier::external_body]
fn send_event(tx: &mut Sender<CoreEvent>, event: CoreEvent) -> (delivered: bool)
    ensures
        sender_offered(*final(tx)) == sender_offered(*old(tx)).push(event@),
        delivered ==> sender_accepted(*final(tx)) == sender_accepted(*old(tx)).push(event@),
        !delivered ==> sender_accepted(*final(tx)) == sender_accepted(*old(tx)),
{
    tx.send(event).is_ok()
}

/// A subscriber slot for core events.
struct Subscriber {
    id: usize,
    tx: Sender<CoreEvent>,
}

/// What is known of a subscriber: its id, the events its sender was handed,
/// and those its channel took.
pub struct SubscriberView {
    pub id: usize,
    pub offered: Seq<CoreEventView>,
    pub accepted: Seq<CoreEventView>,
}

impl Subscriber {
    spec fn view_of(self) -> SubscriberView {
        SubscriberView { id: self.id, offered: sender_offered(self.tx), accepted: sender_accepted(self.tx) }
    }
}

/// The observable state of an [`EventHub`].
pub struct EventHubView {
    /// The live subscribers, oldest first.
    pub subscribers: Seq<SubscriberView>,
    /// The subscribers dropped so far, in the order they were dropped.
    pub departed: Seq<SubscriberView>,
    /// The id that the next subscriber gets.
    pub next_id: usize,
    /// The details of the latest connection report.
    pub connection_info: Option<JsonView>,
}

impl EventHubView {
    /// The ids of the live subscribers, oldest first.
    pub open spec fn ids(self) -> Seq<usize> {
        self.subscribers.map_values(|s: SubscriberView| s.id)
    }
}

/// The live subscribers are kept in increasing order of id, and every live id
/// is below the id that the next subscriber gets.
pub open spec fn hub_wf(h: EventHubView) -> bool {
    &&& forall|i: int, j: int| 0 <= i < j < h.ids().len() ==> h.ids()[i] < h.ids()[j]
    &&& forall|i: int| 0 <= i < h.ids().len() ==> #[trigger] h.ids()[i] < h.next_id
}

/// Every flag turned over.
pub open spec fn flipped(keep: Seq<bool>) -> Seq<bool> {
    keep.map_values(|b: bool| !b)
}

/// The subscribers after each was handed `event`, where `delivered` tells
/// which channels took it.
pub open spec fn handed(subs: Seq<SubscriberView>, event: CoreEventView, delivered: Seq<bool>) -> Seq<SubscriberView> {
    Seq::new(
        subs.len(),
        |k: int|
            SubscriberView {
                id: subs[k].id,
                offered: subs[k].offered.push(event),
                accepted: if delivered[k] {
                    subs[k].accepted.push(event)
                } else {
                    subs[k].accepted
                },
            },
    )
}

/// The elements of `s` whose flag in `keep` is set, in order.
pub open spec fn masked<A>(s: Seq<A>, keep: Seq<bool>) -> Seq<A>
    decreases s.len(),
{
    if s.len() == 0 || keep.len() == 0 {
        Seq::empty()
    } else {
        let r = masked(s.drop_last(), keep.drop_last());
        if keep.last() {
            r.push(s.last())
        } else {
            r
        }
    }
}

/// Masking keeps order and keeps only elements of the original.
proof fn lemma_masked_ordered(s: Seq<usize>, keep: Seq<bool>, bound: usize)
    requires
        s.len() == keep.len(),
        forall|i: int, j: int| 0 <= i < j < s.len() ==> s[i] < s[j],
        forall|i: int| 0 <= i < s.len() ==> #[trigger] s[i] < bound,
    ensures
        forall|i: int, j: int| 0 <= i < j < masked(s, keep).len() ==> masked(s, keep)[i] < masked(s, keep)[j],
        forall|i: int| 0 <= i < masked(s, keep).len() ==> #[trigger] masked(s, keep)[i] < bound,
        forall|i: int| 0 <= i < masked(s, keep).len() ==> s.contains(#[trigger] masked(s, keep)[i]),
        s.len() > 0 ==> forall|i: int| 0 <= i < masked(s, keep).len() ==> #[trigger] masked(s, keep)[i] <= s.last(),
    decreases s.len(),
{
    if s.len() > 0 {
        let ds = s.drop_last();
        let dk = keep.drop_last();
        lemma_masked_ordered(ds, dk, bound);
        let r = masked(ds, dk);
        assert forall|i: int| 0 <= i < r.len() implies #[trigger] r[i] < s.last() by {
            assert(ds.contains(r[i]));
            let k = choose|k: int| 0 <= k < ds.len() && ds[k] == r[i];
            assert(s[k] == ds[k]);
        }
        assert forall|i: int| 0 <= i < masked(s, keep).len() implies s.contains(#[trigger] masked(s, keep)[i]) by {
            if i < r.len() {
                assert(masked(s, keep)[i] == r[i]);
                assert(ds.contains(r[i]));
                let k = choose|k: int| 0 <= k < ds.len() && ds[k] == r[i];
                assert(s[k] == ds[k]);
            } else {
                assert(masked(s, keep)[i] == s[s.len() - 1]);
            }
        }
    }
}

/// The subscribers to core events and the latest connection report: the
/// state that MaaCore's callback updates.
pub struct EventHub {
    subscribers: Vec<Subscriber>,
    next_sub_id: usize,
    connection_info: Option<Json>,
    departed: Ghost<Seq<SubscriberView>>,
}

impl View for EventHub {
    type V = EventHubView;

    closed spec fn view(&self) -> EventHubView {
        EventHubView {
            subscribers: self.subscribers@.map_values(|s: Subscriber| s.view_of()),
            departed: self.departed@,
            next_id: self.next_sub_id,
            connection_info: match self.connection_info {
                Some(j) => Some(j@),
                None => None,
            },
        }
    }
}

impl EventHub {
    /// A hub with no subscriber and no connection report.
    pub fn new() -> (res: EventHub)
        ensures
            res@.subscribers.len() == 0,
            res@.departed.len() == 0,
            res@.next_id == 0,
            res@.connection_info is None,
            hub_wf(res@),
    {
        let res = EventHub {
            subscribers: Vec::new(),
            next_sub_id: 0,
            connection_info: None,
            departed: Ghost(Seq::empty()),
        };
        assert(res@.subscribers =~= Seq::<SubscriberView>::empty());
        assert(res@.ids() =~= Seq::<usize>::empty());
        res
    }

    /// The number of live subscribers.
    pub fn subscriber_count(&self) -> (res: usize)
        ensures
            res == self@.subscribers.len(),
    {
        self.subscribers.len()
    }

    /// The id that the next subscriber gets.
    pub fn next_subscriber_id(&self) -> (res: usize)
        ensures
            res == self@.next_id,
    {
        self.next_sub_id
    }

    /// The details of the latest connection report.
    pub fn last_connection_info(&self) -> (res: Option<Json>)
        ensures
            match res {
                Some(j) => self@.connection_info == Some(j@),
                None => self@.connection_info is None,
            },
    {
        match &self.connection_info {
            Some(j) => Some(j.copy()),
            None => None,
        }
    }

    /// Adds a subscriber under the next id and gives back the receiving end
    /// of its channel.
    pub fn subscribe(&mut self) -> (res: Receiver<CoreEvent>)
        requires
            old(self)@.next_id < usize::MAX,
        ensures
            final(self)@.subscribers == old(self)@.subscribers.push(
                SubscriberView { id: old(self)@.next_id, offered: Seq::empty(), accepted: Seq::empty() },
            ),
            final(self)@.departed == old(self)@.departed,
            final(self)@.next_id == old(self)@.next_id + 1,
            final(self)@.connection_info == old(self)@.connection_info,
            hub_wf(old(self)@) ==> hub_wf(final(self)@),
    {
        let (tx, rx) = open_channel();
        let id = self.next_sub_id;
        self.next_sub_id = id + 1;
        self.subscribers.push(Subscriber { id, tx });
        assert(self@.subscribers =~= old(self)@.subscribers.push(
            SubscriberView { id: id, offered: Seq::empty(), accepted: Seq::empty() },
        ));
        assert(self@.ids() =~= old(self)@.ids().push(id));
        rx
    }

    /// Keeps the subscribers whose flag in `delivered` is set, in order, and
    /// drops the others, which join the departed ones in order.
    pub fn keep_delivered(&mut self, delivered: &Vec<bool>)
        requires
            delivered@.len() == old(self)@.subscribers.len(),
        ensures
            final(self)@.subscribers == masked(old(self)@.subscribers, delivered@),
            final(self)@.departed == old(self)@.departed + masked(old(self)@.subscribers, flipped(delivered@)),
            final(self)@.next_id == old(self)@.next_id,
            final(self)@.connection_info == old(self)@.connection_info,
            hub_wf(old(self)@) ==> hub_wf(final(self)@),
    {
        let ghost subs0 = self.subscribers@;
        let ghost flip = flipped(delivered@);
        let mut old_subs: Vec<Subscriber> = Vec::new();
        std::mem::swap(&mut old_subs, &mut self.subscribers);
        assert(subs0.skip(0) =~= subs0);
        assert(subs0.take(0) =~= Seq::<Subscriber>::empty());
        let mut kept: Vec<Subscriber> = Vec::new();
        let ghost mut gone: Seq<Subscriber> = Seq::empty();
        let mut k: usize = 0;
        while k < delivered.len()
            invariant
                k <= delivered@.len() == subs0.len(),
                flip == flipped(delivered@),
                old_subs@ == subs0.skip(k as int),
                kept@ == masked(subs0.take(k as int), delivered@.take(k as int)),
                gone == masked(subs0.take(k as int), flip.take(k as int)),
            decreases delivered.len() - k,
        {
            let sub = old_subs.remove(0);
            proof {
                assert(subs0.take(k + 1).drop_last() =~= subs0.take(k as int));
                assert(delivered@.take(k + 1).drop_last() =~= delivered@.take(k as int));
                assert(flip.take(k + 1).drop_last() =~= flip.take(k as int));
                assert(subs0.skip(k as int)[0] == subs0[k as int]);
                assert(old_subs@ =~= subs0.skip(k + 1));
            }
            if delivered[k] {
                kept.push(sub);
            } else {
                proof {
                    gone = gone.push(sub);
                }
            }
            k = k + 1;
        }
        assert(subs0.take(k as int) =~= subs0);
        assert(delivered@.take(k as int) =~= delivered@);
        assert(flip.take(k as int) =~= flip);
        self.subscribers = kept;
        proof {
            lemma_masked_map(subs0, delivered@, |s: Subscriber| s.view_of());
            lemma_masked_map(subs0, flip, |s: Subscriber| s.view_of());
            lemma_masked_map(old(self)@.subscribers, delivered@, |s: SubscriberView| s.id);
        }
        self.departed = Ghost(self.departed@ + gone.map_values(|s: Subscriber| s.view_of()));
        proof {
            if hub_wf(old(self)@) {
                lemma_masked_ordered(old(self)@.ids(), delivered@, old(self)@.next_id);
            }
        }
    }

    /// Hands a copy of an event to every subscriber, in order, and drops
    /// exactly those whose channel refused it (their receiver is gone): every
    /// subscriber's sender was handed the event; one that stays has accepted
    /// it; one that is dropped joins the departed ones without having
    /// accepted it. A connection report also becomes the latest one.
    pub fn broadcast(&mut self, event: CoreEvent)
        ensures
            final(self)@.connection_info == (if event.msg == CONNECTION_INFO {
                Some(event.details@)
            } else {
                old(self)@.connection_info
            }),
            exists|delivered: Seq<bool>|
                delivered.len() == old(self)@.subscribers.len() && final(self)@.subscribers == masked(
                    handed(old(self)@.subscribers, event@, delivered),
                    delivered,
                ) && final(self)@.departed == old(self)@.departed + masked(
                    handed(old(self)@.subscribers, event@, delivered),
                    flipped(delivered),
                ),
            final(self)@.next_id == old(self)@.next_id,
            hub_wf(old(self)@) ==> hub_wf(final(self)@),
    {
        if event.msg == CONNECTION_INFO {
            self.connection_info = Some(event.details.copy());
        }
        let ghost subs0 = self.subscribers@;
        let ghost ev = event@;
        let mut pending: Vec<Subscriber> = Vec::new();
        std::mem::swap(&mut pending, &mut self.subscribers);
        assert(subs0.skip(0) =~= subs0);
        let mut sent: Vec<Subscriber> = Vec::new();
        let mut delivered: Vec<bool> = Vec::new();
        let mut k: usize = 0;
        let n = pending.len();
        while k < n
            invariant
                k <= n == subs0.len(),
                ev == event@,
                pending@ == subs0.skip(k as int),
                sent@.len() == k,
                delivered@.len() == k,
                forall|j: int| 0 <= j < k ==> (#[trigger] sent@[j]).id == subs0[j].id,
                forall|j: int|
                    0 <= j < k ==> #[trigger] sender_offered(sent@[j].tx) == sender_offered(subs0[j].tx).push(ev),
                forall|j: int|
                    0 <= j < k ==> #[trigger] sender_accepted(sent@[j].tx) == if delivered@[j] {
                        sender_accepted(subs0[j].tx).push(ev)
                    } else {
                        sender_accepted(subs0[j].tx)
                    },
            decreases n - k,
        {
            let mut sub = pending.remove(0);
            proof {
                assert(subs0.skip(k as int)[0] == subs0[k as int]);
                assert(pending@ =~= subs0.skip(k + 1));
            }
            let ok = send_event(&mut sub.tx, event.clone());
            sent.push(sub);
            delivered.push(ok);
            k = k + 1;
        }
        self.subscribers = sent;
        let ghost mid = self@;
        proof {
            assert(mid.subscribers =~= handed(old(self)@.subscribers, ev, delivered@));
            assert(mid.ids() =~= old(self)@.ids());
        }
        self.keep_delivered(&delivered);
    }
}

/// Masking a mapped sequence is mapping the masked one.
proof fn lemma_masked_map<A, B>(s: Seq<A>, keep: Seq<bool>, f: spec_fn(A) -> B)
    requires
        s.len() == keep.len(),
    ensures
        masked(s.map_values(f), keep) == masked(s, keep).map_values(f),
    decreases s.len(),
{
    if s.len() > 0 {
        assert(s.map_values(f).drop_last() =~= s.drop_last().map_values(f));
        lemma_masked_map(s.drop_last(), keep.drop_last(), f);
        assert(masked(s, keep).map_values(f) =~= if keep.last() {
            masked(s.drop_last(), keep.drop_last()).map_values(f).push(f(s.last()))
        } else {
            masked(s.drop_last(), keep.drop_last()).map_values(f)
        });
    } else {
        assert(masked(s, keep).map_values(f) =~= Seq::<B>::empty());
    }
}

/// Live subscribers have distinct ids, and the id handed to the next
/// subscriber is none of them.
pub proof fn law_subscriber_ids_distinct(h: EventHubView)
    requires
        hub_wf(h),
    ensures
        forall|i: int, j: int| 0 <= i < h.ids().len() && 0 <= j < h.ids().len() && i != j ==> h.ids()[i] != h.ids()[j],
        !h.ids().contains(h.next_id),
{
    let ids = h.ids();
    assert forall|i: int, j: int| 0 <= i < ids.len() && 0 <= j < ids.len() && i != j implies ids[i] != ids[j] by {
        if i < j {
            assert(ids[i] < ids[j]);
        } else {
            assert(ids[j] < ids[i]);
        }
    }
    if ids.contains(h.next_id) {
        let k = choose|k: int| 0 <= k < ids.len() && ids[k] == h.next_id;
        assert(ids[k] < h.next_id);
    }
}

/// Where start-up stands: which call was issued last, or how it ended.
#[derive(Clone, Copy, Debug, PartialEq, Eq, Structural)]
pub enum InitState {
    /// Nothing was done yet.
    Start,
    /// The library is being loaded.
    LoadingLibrary,
    /// The user directory is being set.
    SettingUserDir,
    /// The resources are being loaded.
    LoadingResource,
    /// The assistant instance is being created.
    CreatingInstance,
    /// Start-up ended; `true` when MaaCore is usable, `false` for the
    /// degraded mode in which only the web UI works.
    Done(bool),
}

/// The next start-up call to make.
#[derive(Clone, Copy, Debug, PartialEq, Eq, Structural)]
pub enum InitAction {
    /// Load the MaaCore library.
    LoadLibrary,
    /// Set the process-wide user directory.
    SetUserDir,
    /// Load the process-wide resources.
    LoadResource,
    /// Create the assistant instance with the event callback.
    CreateInstance,
    /// Stop: MaaCore is usable (`true`) or not (`false`).
    Finish(bool),
}

/// The step after the library is loaded: the user directory and the
/// resources are set only where their paths are not empty.
pub open spec fn after_library(user_dir: Seq<char>, resource_dir: Seq<char>) -> (InitState, InitAction) {
    if user_dir.len() > 0 {
        (InitState::SettingUserDir, InitAction::SetUserDir)
    } else {
        after_user_dir(resource_dir)
    }
}

/// The step after the user directory: load resources where a path is given,
/// else create the instance.
pub open spec fn after_user_dir(resource_dir: Seq<char>) -> (InitState, InitAction) {
    if resource_dir.len() > 0 {
        (InitState::LoadingResource, InitAction::LoadResource)
    } else {
        (InitState::CreatingInstance, InitAction::CreateInstance)
    }
}

/// One start-up step: from where start-up stands and whether the last call
/// succeeded, the new state and the next call. A library that does not load,
/// or an instance that cannot be created, ends start-up in degraded mode; a
/// failure to set the user directory or to load resources is only reported.
pub open spec fn init_next_spec(state: InitState, succeeded: bool, user_dir: Seq<char>, resource_dir: Seq<char>) -> (InitState, InitAction) {
    match state {
        InitState::Start => (InitState::LoadingLibrary, InitAction::LoadLibrary),
        InitState::LoadingLibrary => if succeeded {
            after_library(user_dir, resource_dir)
        } else {
            (InitState::Done(false), InitAction::Finish(false))
        },
        InitState::SettingUserDir => after_user_dir(resource_dir),
        InitState::LoadingResource => (InitState::CreatingInstance, InitAction::CreateInstance),
        InitState::CreatingInstance => (InitState::Done(succeeded), InitAction::Finish(succeeded)),
        InitState::Done(healthy) => (InitState::Done(healthy), InitAction::Finish(healthy)),
    }
}

/// One step of the manager's start-up; `succeeded` tells whether the call
/// that the previous step asked for succeeded.
pub fn init_next(state: InitState, succeeded: bool, user_dir: &str, resource_dir: &str) -> (res: (InitState, InitAction))
    ensures
        res == init_next_spec(state, succeeded, user_dir@, resource_dir@),
{
    let after_user = if !resource_dir.is_empty() {
        (InitState::LoadingResource, InitAction::LoadResource)
    } else {
        (InitState::CreatingInstance, InitAction::CreateInstance)
    };
    match state {
        InitState::Start => (InitState::LoadingLibrary, InitAction::LoadLibrary),
        InitState::LoadingLibrary => {
            if !succeeded {
                (InitState::Done(false), InitAction::Finish(false))
            } else if !user_dir.is_empty() {
                (InitState::SettingUserDir, InitAction::SetUserDir)
            } else {
                after_user
            }
        },
        InitState::SettingUserDir => after_user,
        InitState::LoadingResource => (InitState::CreatingInstance, InitAction::CreateInstance),
        InitState::CreatingInstance => (InitState::Done(succeeded), InitAction::Finish(succeeded)),
        InitState::Done(healthy) => (InitState::Done(healthy), InitAction::Finish(healthy)),
    }
}

/// A step that ends start-up reports the same outcome in its action as in
/// its state, and a step that does not end it asks for a call; start-up ends
/// usable from the instance step exactly when the instance was created, and
/// a library that does not load ends it unusable.
pub proof fn law_init_step_action_agrees(state: InitState, succeeded: bool, user_dir: Seq<char>, resource_dir: Seq<char>)
    ensures
        forall|h: bool| init_next_spec(state, succeeded, user_dir, resource_dir).0 == InitState::Done(h)
            <==> init_next_spec(state, succeeded, user_dir, resource_dir).1 == InitAction::Finish(h),
        state == InitState::CreatingInstance ==> init_next_spec(state, succeeded, user_dir, resource_dir)
            == (InitState::Done(succeeded), InitAction::Finish(succeeded)),
        state == InitState::LoadingLibrary && !succeeded ==> init_next_spec(state, succeeded, user_dir, resource_dir)
            == (InitState::Done(false), InitAction::Finish(false)),
{
}

/// The state that start-up reaches from `state` when the calls report the
/// given outcomes in turn.
pub open spec fn run_init(state: InitState, outcomes: Seq<bool>, user_dir: Seq<char>, resource_dir: Seq<char>) -> InitState
    decreases outcomes.len(),
{
    if outcomes.len() == 0 {
        state
    } else {
        run_init(
            init_next_spec(state, outcomes[0], user_dir, resource_dir).0,
            outcomes.drop_first(),
            user_dir,
            resource_dir,
        )
    }
}

/// Start-up always ends, within five steps, whatever the calls report; and it
/// ends usable exactly where the library loaded (the outcome reported to the
/// second step) and the instance was created (the outcome reported to the step
/// after the instance was asked for, which comes after the directory steps
/// that have a path).
pub proof fn law_init_always_finishes(outcomes: Seq<bool>, user_dir: Seq<char>, resource_dir: Seq<char>)
    requires
        outcomes.len() == 5,
    ensures
        run_init(InitState::Start, outcomes, user_dir, resource_dir) is Done,
        (run_init(InitState::Start, outcomes, user_dir, resource_dir) == InitState::Done(true)) == (outcomes[1]
            && outcomes[2 + (if user_dir.len() > 0 { 1int } else { 0int }) + (if resource_dir.len() > 0 { 1int } else { 0int })]),
{
    reveal_with_fuel(run_init, 6);
    let o1 = outcomes.drop_first();
    let o2 = o1.drop_first();
    let o3 = o2.drop_first();
    let o4 = o3.drop_first();
    let o5 = o4.drop_first();
    assert(o5.len() == 0);
    assert(o1[0] == outcomes[1]);
    assert(o2[0] == outcomes[2]);
    assert(o3[0] == outcomes[3]);
    assert(o4[0] == outcomes[4]);
}

} // verus!
