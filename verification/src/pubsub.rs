//! An event bus: who wants to hear of which event, and who no longer wants to.
//!
//! [`EventBus`] knows, for every type of event, the list of its subscribers. A list is whatever the
//! caller makes of [`Subscribers`], such as one that several tasks share. [`Publication`] goes
//! through a list and notes who breaks off.

use vstd::prelude::*;

use std::any::TypeId;

use crate::outside::{same_type, type_id};

verus! {

/// What a subscriber answers to an event: whether it wants to hear of the next one.
pub type ControlFlow = std::ops::ControlFlow<(), ()>;

/// A type of event.
pub trait Event: 'static {
    /// What subscribers are told about an event.
    type Argument: Send + Sync + 'static;
}

/// The lists of subscribers by type of event.
pub struct EventBus<L> {
    handlers: Vec<(TypeId, L)>,
}

/// The event that the entry at `i` is about.
spec fn event_at<L>(handlers: Seq<(TypeId, L)>, i: int) -> TypeId {
    handlers[i].0
}

/// Whether no event has two entries.
spec fn distinct<L>(handlers: Seq<(TypeId, L)>) -> bool {
    forall|i: int, j: int|
        0 <= i < j < handlers.len() ==> #[trigger] event_at(handlers, i) != #[trigger] event_at(
            handlers,
            j,
        )
}

/// Whether the entry at `i` is the event's.
spec fn is_at<L>(handlers: Seq<(TypeId, L)>, event: TypeId, i: int) -> bool {
    0 <= i < handlers.len() && event_at(handlers, i) == event
}

/// The lists by event.
spec fn lists<L>(handlers: Seq<(TypeId, L)>) -> Map<TypeId, L> {
    Map::new(
        |event: TypeId| exists|i: int| is_at(handlers, event, i),
        |event: TypeId| handlers[choose|i: int| is_at(handlers, event, i)].1,
    )
}

/// The map has what the entry at `i` says.
proof fn lemma_entry<L>(handlers: Seq<(TypeId, L)>, i: int)
    requires
        distinct(handlers),
        0 <= i < handlers.len(),
    ensures
        lists(handlers).contains_key(handlers[i].0),
        lists(handlers)[handlers[i].0] == handlers[i].1,
{
    let event = handlers[i].0;
    assert(is_at(handlers, event, i));
    let k = choose|k: int| is_at(handlers, event, k);
    if k != i {
        assert(event_at(handlers, i) == event_at(handlers, k));
    }
}

/// To set the entry of an event, or to append one if it has none, is to set it in the map.
proof fn lemma_set<L>(before: Seq<(TypeId, L)>, after: Seq<(TypeId, L)>, at: int)
    requires
        distinct(before),
        0 <= at < after.len(),
        at == before.len() ==> after.len() == at + 1 && !lists(before).contains_key(after[at].0),
        at < before.len() ==> after.len() == before.len() && before[at].0 == after[at].0,
        forall|i: int| 0 <= i < before.len() && i != at ==> #[trigger] after[i] == before[i],
        at <= before.len(),
    ensures
        distinct(after),
        lists(after) == lists(before).insert(after[at].0, after[at].1),
{
    let event = after[at].0;
    assert forall|i: int, j: int| 0 <= i < j < after.len() implies #[trigger] event_at(after, i)
        != #[trigger] event_at(after, j) by {
        if j < before.len() {
            assert(event_at(before, i) != event_at(before, j));
        } else {
            lemma_entry(before, i);
        }
    }
    let got = lists(after);
    let want = lists(before).insert(event, after[at].1);
    assert forall|other: TypeId|
        #![trigger got.dom().contains(other)]
        #![trigger want.dom().contains(other)]
        got.dom().contains(other) == want.dom().contains(other) && (got.dom().contains(other)
            ==> got[other] == want[other]) by {
        lemma_entry(after, at);
        if other != event && got.dom().contains(other) {
            let k = choose|k: int| is_at(after, other, k);
            lemma_entry(after, k);
            lemma_entry(before, k);
        }
        if other != event && want.dom().contains(other) {
            let k = choose|k: int| is_at(before, other, k);
            assert(after[k] == before[k]);
            lemma_entry(after, k);
            lemma_entry(before, k);
        }
    }
    assert(got =~= want);
}

impl<L> EventBus<L> {
    /// Whether no event has two lists.
    pub closed spec fn wf(&self) -> bool {
        distinct(self.handlers@)
    }
}

impl<L> View for EventBus<L> {
    type V = Map<TypeId, L>;

    /// The lists by event.
    closed spec fn view(&self) -> Map<TypeId, L> {
        lists(self.handlers@)
    }
}

impl<L> EventBus<L> {
    /// A bus without subscribers.
    pub fn new() -> (r: Self)
        ensures
            r.wf(),
            r@ == Map::<TypeId, L>::empty(),
    {
        EventBus { handlers: Vec::new() }
    }

    /// Where the list of the event is.
    fn position(&self, event: &TypeId) -> (r: Option<usize>)
        requires
            self.wf(),
        ensures
            r is Some == self@.contains_key(*event),
            r matches Some(i) ==> i < self.handlers@.len() && self.handlers@[i as int].0 == *event
                && self.handlers@[i as int].1 == self@[*event],
    {
        for i in 0..self.handlers.len()
            invariant
                self.wf(),
                forall|k: int| 0 <= k < i ==> #[trigger] event_at(self.handlers@, k) != *event,
        {
            if same_type(&self.handlers[i].0, event) {
                proof {
                    lemma_entry(self.handlers@, i as int);
                }
                return Some(i);
            }
        }
        None
    }

    /// The list of subscribers to the event, if anybody ever subscribed to it.
    pub fn subscribers(&self, event: &TypeId) -> (r: Option<&L>)
        requires
            self.wf(),
        ensures
            r == (if self@.contains_key(*event) {
                Some(&self@[*event])
            } else {
                None
            }),
    {
        match self.position(event) {
            Some(i) => Some(&self.handlers[i].1),
            None => None,
        }
    }

    /// The list on which a new subscriber to the event has to go. If there is none yet, it is
    /// `empty`.
    pub fn subscribe_to(&mut self, event: TypeId, empty: L) -> (r: &mut L)
        requires
            old(self).wf(),
        ensures
            *r == (if old(self)@.contains_key(event) {
                old(self)@[event]
            } else {
                empty
            }),
            final(self).wf(),
            final(self)@ == old(self)@.insert(event, *final(r)),
    {
        let at: usize = match self.position(&event) {
            Some(i) => i,
            None => {
                let i: usize = self.handlers.len();
                self.handlers.push((event, empty));
                i
            },
        };
        assert forall|list: L|
            #![trigger self.handlers@.update(at as int, (event, list))]
            distinct(self.handlers@.update(at as int, (event, list))) && lists(
                self.handlers@.update(at as int, (event, list)),
            ) == old(self)@.insert(event, list) by {
            lemma_set(
                old(self).handlers@,
                self.handlers@.update(at as int, (event, list)),
                at as int,
            );
        }
        &mut self.handlers[at].1
    }

    /// The list on which a new subscriber to events of type `T` has to go. If there is none yet, it
    /// is `empty`.
    pub fn subscribe<T: Event>(&mut self, empty: L) -> (r: &mut L)
        requires
            old(self).wf(),
        ensures
            *r == (if old(self)@.contains_key(crate::outside::id_of::<T>()) {
                old(self)@[crate::outside::id_of::<T>()]
            } else {
                empty
            }),
            final(self).wf(),
            final(self)@ == old(self)@.insert(crate::outside::id_of::<T>(), *final(r)),
    {
        self.subscribe_to(type_id::<T>(), empty)
    }

    /// The list of those to be told of an event of type `T`, along with what to tell them. If
    /// nobody ever subscribed to such events, `arg` is not even called, so it need not be one that
    /// can be called.
    pub fn publish_with<T: Event, A: FnOnce() -> T::Argument>(&self, arg: A) -> (r: Option<
        (&L, T::Argument),
    >)
        requires
            self.wf(),
            self@.contains_key(crate::outside::id_of::<T>()) ==> call_requires(arg, ()),
        ensures
            r is Some == self@.contains_key(crate::outside::id_of::<T>()),
            r matches Some((list, told)) ==> *list == self@[crate::outside::id_of::<T>()]
                && call_ensures(arg, (), told),
    {
        match self.subscribers(&type_id::<T>()) {
            Some(list) => Some((list, arg())),
            None => None,
        }
    }

    /// The list of those to be told `arg` of an event of type `T`, along with `arg`.
    pub fn publish<T: Event>(&self, arg: T::Argument) -> (r: Option<(&L, T::Argument)>)
        requires
            self.wf(),
        ensures
            r == (if self@.contains_key(crate::outside::id_of::<T>()) {
                Some((&self@[crate::outside::id_of::<T>()], arg))
            } else {
                None
            }),
    {
        let told = || -> (told: T::Argument)
            ensures
                told == arg,
            { arg };
        self.publish_with::<T, _>(told)
    }
}

impl<L> Default for EventBus<L> {
    fn default() -> (r: Self)
        ensures
            r.wf(),
            r@ == Map::<TypeId, L>::empty(),
    {
        EventBus::new()
    }
}

/// Whether the subscriber at `i` stays, given the answers so far: one who has not answered does.
pub open spec fn stays(answers: Seq<ControlFlow>, i: int) -> bool {
    !(0 <= i < answers.len() && answers[i] is Break)
}

/// Those at `from` and after it, but before `to`, who stay, in their order.
pub open spec fn kept_between<C>(
    all: Seq<C>,
    answers: Seq<ControlFlow>,
    from: int,
    to: int,
) -> Seq<C>
    decreases to - from,
{
    if to <= from {
        Seq::empty()
    } else if stays(answers, to - 1) {
        kept_between(all, answers, from, to - 1).push(all[to - 1])
    } else {
        kept_between(all, answers, from, to - 1)
    }
}

/// Those who stay, in their order.
pub open spec fn kept<C>(all: Seq<C>, answers: Seq<ControlFlow>) -> Seq<C> {
    kept_between(all, answers, 0, all.len() as int)
}

/// A stretch of subscribers who all stay.
proof fn lemma_all_stay<C>(all: Seq<C>, answers: Seq<ControlFlow>, from: int, to: int)
    requires
        0 <= from <= to <= all.len(),
        forall|i: int| from <= i < to ==> #[trigger] stays(answers, i),
    ensures
        kept_between(all, answers, from, to) == all.subrange(from, to),
    decreases to - from,
{
    if from < to {
        lemma_all_stay(all, answers, from, to - 1);
        assert(stays(answers, to - 1));
        assert(all.subrange(from, to) == all.subrange(from, to - 1).push(all[to - 1]));
    }
}

/// A stretch of subscribers can be looked at in two parts.
proof fn lemma_split<C>(all: Seq<C>, answers: Seq<ControlFlow>, from: int, mid: int, to: int)
    requires
        from <= mid <= to,
    ensures
        kept_between(all, answers, from, to) == kept_between(all, answers, from, mid)
            + kept_between(all, answers, mid, to),
    decreases to - mid,
{
    if mid < to {
        lemma_split(all, answers, from, mid, to - 1);
    }
    assert(kept_between(all, answers, from, to) =~= kept_between(all, answers, from, mid)
        + kept_between(all, answers, mid, to));
}

/// One round of telling subscribers of an event: whom to tell next, and who broke off.
pub struct Publication {
    next: usize,
    to_remove: Vec<usize>,
    answers: Ghost<Seq<ControlFlow>>,
}

impl Publication {
    /// What the subscribers answered, in their order.
    pub closed spec fn answers(&self) -> Seq<ControlFlow> {
        self.answers@
    }

    /// Whether exactly those who broke off are noted, in their order.
    pub closed spec fn wf(&self) -> bool {
        &&& self.next == self.answers@.len()
        &&& forall|i: int, j: int|
            0 <= i < j < self.to_remove@.len() ==> self.to_remove@[i] < self.to_remove@[j]
        &&& forall|k: int|
            0 <= k < self.to_remove@.len() ==> self.to_remove@[k] < self.next && !stays(
                self.answers@,
                #[trigger] self.to_remove@[k] as int,
            )
        &&& forall|i: int|
            0 <= i < self.next && !(#[trigger] stays(self.answers@, i))
                ==> self.to_remove@.contains(i as usize)
    }

    /// A round in which nobody was told yet.
    pub fn new() -> (r: Self)
        ensures
            r.wf(),
            r.answers() == Seq::<ControlFlow>::empty(),
    {
        Publication { next: 0, to_remove: Vec::new(), answers: Ghost(Seq::empty()) }
    }

    /// Whom of `subscribers` to tell next, or nobody if everybody was told.
    pub fn next<C>(&self, subscribers: &Subscribers<C>) -> (r: Option<usize>)
        requires
            self.wf(),
        ensures
            r == (if self.answers().len() < subscribers@.len() {
                Some(self.answers().len() as usize)
            } else {
                None
            }),
            r is Some ==> self.answers().len() < usize::MAX,
    {
        if self.next < subscribers.len() {
            Some(self.next)
        } else {
            None
        }
    }

    /// Takes in what the one who was told last answered.
    pub fn answered(&mut self, flow: ControlFlow)
        requires
            old(self).wf(),
            old(self).answers().len() < usize::MAX,
        ensures
            final(self).wf(),
            final(self).answers() == old(self).answers().push(flow),
    {
        let i: usize = self.next;
        if let std::ops::ControlFlow::Break(()) = flow {
            self.to_remove.push(i);
        }
        self.next = i + 1;
        self.answers = Ghost(self.answers@.push(flow));
        proof {
            let before = old(self).answers@;
            assert forall|k: int| 0 <= k < i implies stays(self.answers@, k) == stays(before, k) by {
            }
            assert forall|k: int| 0 <= k < self.next && !(#[trigger] stays(
                self.answers@,
                k,
            )) implies self.to_remove@.contains(k as usize) by {
                if k < i {
                    assert(!stays(before, k));
                    let at = choose|at: int|
                        0 <= at < old(self).to_remove@.len() && old(self).to_remove@[at] == k as usize;
                    assert(self.to_remove@[at] == k as usize);
                } else {
                    assert(self.to_remove@[self.to_remove@.len() - 1] == i);
                }
            }
        }
    }
}

/// The subscribers to one type of event, in the order in which they subscribed.
pub struct Subscribers<C> {
    callbacks: Vec<C>,
}

impl<C> View for Subscribers<C> {
    type V = Seq<C>;

    /// The subscribers in their order.
    closed spec fn view(&self) -> Seq<C> {
        self.callbacks@
    }
}

impl<C> Subscribers<C> {
    /// No subscribers.
    pub fn new() -> (r: Self)
        ensures
            r@ == Seq::<C>::empty(),
    {
        Subscribers { callbacks: Vec::new() }
    }

    /// How many there are.
    pub fn len(&self) -> (r: usize)
        ensures
            r == self@.len(),
    {
        self.callbacks.len()
    }

    /// Adds a subscriber after all others.
    pub fn push(&mut self, callback: C)
        ensures
            final(self)@ == old(self)@.push(callback),
    {
        self.callbacks.push(callback);
    }

    /// The subscriber at `i`.
    pub fn callback(&mut self, i: usize) -> (r: &mut C)
        requires
            i < old(self)@.len(),
        ensures
            *r == old(self)@[i as int],
            final(self)@ == old(self)@.update(i as int, *final(r)),
    {
        &mut self.callbacks[i]
    }

    /// Drops those who broke off during a round.
    pub fn finish(&mut self, round: &Publication)
        requires
            round.wf(),
            round.answers().len() <= old(self)@.len(),
        ensures
            final(self)@ == kept(old(self)@, round.answers()),
    {
        let ghost all = self.callbacks@;
        let ghost answers = round.answers@;
        let mut left: usize = round.to_remove.len();
        let ghost mut from = all.len() as int;
        proof {
            assert(all == all.take(from) + kept_between(all, answers, from, all.len() as int));
        }
        while left > 0
            invariant
                round.wf(),
                answers == round.answers@,
                answers.len() <= all.len(),
                left <= round.to_remove@.len(),
                0 <= from <= all.len(),
                left < round.to_remove@.len() ==> from == round.to_remove@[left as int],
                left == round.to_remove@.len() ==> from == all.len(),
                self.callbacks@ == all.take(from) + kept_between(
                    all,
                    answers,
                    from,
                    all.len() as int,
                ),
            decreases left,
        {
            left = left - 1;
            let i: usize = round.to_remove[left];
            proof {
                assert(!stays(answers, i as int));
                assert forall|k: int| i < k < from implies #[trigger] stays(answers, k) by {
                    if !stays(answers, k) {
                        let at = choose|at: int|
                            0 <= at < round.to_remove@.len() && round.to_remove@[at] == k as usize;
                        assert(left < at);
                        assert(at < left + 1 || round.to_remove@[left + 1] <= round.to_remove@[at]);
                    }
                }
                lemma_all_stay(all, answers, i + 1, from);
                lemma_split(all, answers, i + 1, from, all.len() as int);
                lemma_split(all, answers, i as int, i + 1, all.len() as int);
                assert(kept_between(all, answers, i as int, i as int) == Seq::<C>::empty());
                assert(kept_between(all, answers, i as int, i + 1) == Seq::<C>::empty());
            }
            self.callbacks.remove(i);
            proof {
                assert(self.callbacks@ =~= all.take(i as int) + kept_between(
                    all,
                    answers,
                    i as int,
                    all.len() as int,
                ));
                from = i as int;
            }
        }
        proof {
            assert forall|k: int| 0 <= k < from implies #[trigger] stays(answers, k) by {
                if !stays(answers, k) {
                    let at = choose|at: int|
                        0 <= at < round.to_remove@.len() && round.to_remove@[at] == k as usize;
                    assert(round.to_remove@[0] <= round.to_remove@[at]);
                }
            }
            lemma_all_stay(all, answers, 0, from);
            lemma_split(all, answers, 0, from, all.len() as int);
        }
    }
}

/// How many of those before `i` stay.
pub open spec fn staying_before(answers: Seq<ControlFlow>, i: int) -> int
    decreases i,
{
    if i <= 0 {
        0
    } else {
        staying_before(answers, i - 1) + if stays(answers, i - 1) {
            1int
        } else {
            0
        }
    }
}

/// Whoever does not break off stays, in the place that the departures before it leave it, and
/// nobody else does.
pub proof fn law_only_those_who_break_leave<C>(all: Seq<C>, answers: Seq<ControlFlow>, i: int)
    requires
        0 <= i < all.len(),
    ensures
        kept(all, answers).len() == staying_before(answers, all.len() as int),
        stays(answers, i) ==> 0 <= staying_before(answers, i) < kept(all, answers).len() && kept(
            all,
            answers,
        )[staying_before(answers, i)] == all[i],
{
    lemma_kept_len(all, answers, all.len() as int);
    lemma_kept_len(all, answers, i);
    lemma_kept_len(all, answers, i + 1);
    lemma_split(all, answers, 0, i + 1, all.len() as int);
}

/// The number of those who stay up to `to`.
proof fn lemma_kept_len<C>(all: Seq<C>, answers: Seq<ControlFlow>, to: int)
    requires
        0 <= to,
    ensures
        kept_between(all, answers, 0, to).len() == staying_before(answers, to),
    decreases to,
{
    if to > 0 {
        lemma_kept_len(all, answers, to - 1);
    }
}

/// A round in which nobody breaks off changes nothing.
pub proof fn law_nobody_breaks<C>(all: Seq<C>, answers: Seq<ControlFlow>)
    requires
        forall|i: int| 0 <= i < answers.len() ==> #[trigger] answers[i] is Continue,
    ensures
        kept(all, answers) == all,
{
    lemma_all_stay(all, answers, 0, all.len() as int);
    assert(all.subrange(0, all.len() as int) == all);
}

/// After a round in which everybody breaks off, nobody is left.
pub proof fn law_everybody_breaks<C>(all: Seq<C>, answers: Seq<ControlFlow>)
    requires
        answers.len() == all.len(),
        forall|i: int| 0 <= i < answers.len() ==> #[trigger] answers[i] is Break,
    ensures
        kept(all, answers) == Seq::<C>::empty(),
{
    lemma_nobody_kept(all, answers, all.len() as int);
}

/// Of those who all break off, nobody is kept.
proof fn lemma_nobody_kept<C>(all: Seq<C>, answers: Seq<ControlFlow>, to: int)
    requires
        0 <= to <= answers.len(),
        forall|i: int| 0 <= i < answers.len() ==> #[trigger] answers[i] is Break,
    ensures
        kept_between(all, answers, 0, to) == Seq::<C>::empty(),
    decreases to,
{
    if to > 0 {
        assert(answers[to - 1] is Break);
        lemma_nobody_kept(all, answers, to - 1);
    }
}

/// Who is told of an event: those on its list, or nobody if it has none.
pub open spec fn told_of<C>(lists: Map<TypeId, Subscribers<C>>, event: TypeId) -> Seq<C> {
    if lists.contains_key(event) {
        lists[event]@
    } else {
        Seq::empty()
    }
}

/// Whoever subscribes to an event is told of it, after those who were there before: the list that
/// [`EventBus::publish`] hands out for events of type `T` is the one that [`EventBus::subscribe`]
/// did, with the new subscriber at its end. The lists of other events stay as they are. `list` and
/// `longer` are the list that was handed out, before and after the subscriber was pushed on it.
pub proof fn law_subscribers_queue_up<T: Event, C>(
    before: EventBus<Subscribers<C>>,
    after: EventBus<Subscribers<C>>,
    empty: Subscribers<C>,
    list: Subscribers<C>,
    longer: Subscribers<C>,
    callback: C,
    other: TypeId,
)
    requires
        empty@ == Seq::<C>::empty(),
        list == (if before@.contains_key(crate::outside::id_of::<T>()) {
            before@[crate::outside::id_of::<T>()]
        } else {
            empty
        }),
        longer@ == list@.push(callback),
        after@ == before@.insert(crate::outside::id_of::<T>(), longer),
        other != crate::outside::id_of::<T>(),
    ensures
        ({
            let event = crate::outside::id_of::<T>();
            &&& after@.contains_key(event)
            &&& after@[event]@ == if before@.contains_key(event) {
                before@[event]@.push(callback)
            } else {
                seq![callback]
            }
        }),
        after@.contains_key(other) == before@.contains_key(other),
        before@.contains_key(other) ==> after@[other] == before@[other],
{
    assert(Seq::<C>::empty().push(callback) == seq![callback]);
}

/// Events are told apart by their own type, whatever their argument: once `f` has subscribed to `T`
/// and `g` to `U`, those who are told of `T` are those who were before and `f`, and those who are
/// told of `U` are those who were before and `g`. `between` is the bus after the first of the two
/// subscriptions, and `for_t` and `for_u` are the lists with the new subscribers.
pub proof fn law_events_are_told_apart<T: Event, U: Event, C>(
    before: EventBus<Subscribers<C>>,
    between: EventBus<Subscribers<C>>,
    after: EventBus<Subscribers<C>>,
    for_t: Subscribers<C>,
    for_u: Subscribers<C>,
    f: C,
    g: C,
)
    requires
        crate::outside::id_of::<T>() != crate::outside::id_of::<U>(),
        for_t@ == told_of(before@, crate::outside::id_of::<T>()).push(f),
        between@ == before@.insert(crate::outside::id_of::<T>(), for_t),
        for_u@ == told_of(between@, crate::outside::id_of::<U>()).push(g),
        after@ == between@.insert(crate::outside::id_of::<U>(), for_u),
    ensures
        told_of(after@, crate::outside::id_of::<T>()) == told_of(
            before@,
            crate::outside::id_of::<T>(),
        ).push(f),
        told_of(after@, crate::outside::id_of::<U>()) == told_of(
            before@,
            crate::outside::id_of::<U>(),
        ).push(g),
{
}

/// After a round, exactly those are left who did not answer with a break, in their order: the list
/// has, one after the other, those who were at the places `left`, which go up, and are all places
/// but those whose answer was a break.
pub proof fn law_breaking_off_is_leaving<C>(subscribers: &mut Subscribers<C>, round: Publication) -> (
    left: Seq<int>)
    requires
        call_ensures(Subscribers::<C>::finish, (subscribers, &round), ()),
    ensures
        ({
            let all = mut_ref_current(subscribers)@;
            let after = mut_ref_future(subscribers)@;
            let answers = round.answers();
            &&& after.len() == left.len()
            &&& forall|k: int|
                0 <= k < left.len() ==> 0 <= #[trigger] left[k] < all.len() && after[k]
                    == all[left[k]]
            &&& forall|j: int, k: int|
                0 <= j < k < left.len() ==> #[trigger] left[j] < #[trigger] left[k]
            &&& forall|i: int|
                0 <= i < all.len() ==> (#[trigger] left.contains(i) <==> !(i < answers.len()
                    && answers[i] is Break))
        }),
{
    let all = mut_ref_current(subscribers)@;
    lemma_places_left(all, round.answers(), all.len() as int)
}

/// The places, before `to`, of those who are kept.
proof fn lemma_places_left<C>(all: Seq<C>, answers: Seq<ControlFlow>, to: int) -> (left: Seq<int>)
    requires
        0 <= to <= all.len(),
    ensures
        ({
            let after = kept_between(all, answers, 0, to);
            &&& after.len() == left.len()
            &&& forall|k: int|
                0 <= k < left.len() ==> 0 <= #[trigger] left[k] < to && after[k] == all[left[k]]
            &&& forall|j: int, k: int|
                0 <= j < k < left.len() ==> #[trigger] left[j] < #[trigger] left[k]
            &&& forall|i: int|
                0 <= i < to ==> (#[trigger] left.contains(i) <==> !(i < answers.len()
                    && answers[i] is Break))
        }),
    decreases to,
{
    if to == 0 {
        Seq::empty()
    } else {
        let before = lemma_places_left(all, answers, to - 1);
        if to - 1 < answers.len() && answers[to - 1] is Break {
            assert(!before.contains(to - 1));
            before
        } else {
            let left = before.push(to - 1);
            assert forall|i: int| 0 <= i < to implies (#[trigger] left.contains(i) <==> !(i
                < answers.len() && answers[i] is Break)) by {
                if i == to - 1 {
                    assert(left[before.len() as int] == i);
                } else {
                    if before.contains(i) {
                        let k = choose|k: int| 0 <= k < before.len() && before[k] == i;
                        assert(left[k] == i);
                    }
                    if left.contains(i) {
                        let k = choose|k: int| 0 <= k < left.len() && left[k] == i;
                        assert(before[k] == i);
                    }
                }
            }
            left
        }
    }
}

/// In a round everybody is asked, one after the other from the first to the last: with `n` answers
/// in, the one at `n` is next, if there is one, and an answer adds to those before it.
pub proof fn law_everybody_is_asked_in_turn<C>(
    round: &mut Publication,
    subscribers: Subscribers<C>,
    next: Option<usize>,
    flow: ControlFlow,
    fresh: Publication,
)
    requires
        call_ensures(Publication::next::<C>, (&mut_ref_current(round), &subscribers), next),
        call_ensures(Publication::answered, (round, flow), ()),
        call_ensures(Publication::new, (), fresh),
    ensures
        fresh.answers().len() == 0,
        next is Some <==> mut_ref_current(round).answers().len() < subscribers@.len(),
        next matches Some(i) ==> i == mut_ref_current(round).answers().len(),
        mut_ref_future(round).answers().len() == mut_ref_current(round).answers().len() + 1,
        mut_ref_future(round).answers().last() == flow,
        mut_ref_future(round).answers().drop_last() == mut_ref_current(round).answers(),
{
}

/// What is published goes to the list that whoever subscribed was handed, as it was left, and to
/// nobody else's: an event of another type goes where it went before.
pub proof fn law_what_is_published_goes_to_who_subscribed<T: Event, U: Event, L>(
    bus: &mut EventBus<L>,
    empty: L,
    list: &mut L,
    of_t: T::Argument,
    told_t: Option<(&L, T::Argument)>,
    of_u: U::Argument,
    before_u: Option<(&L, U::Argument)>,
    told_u: Option<(&L, U::Argument)>,
)
    requires
        crate::outside::id_of::<T>() != crate::outside::id_of::<U>(),
        call_ensures(EventBus::<L>::publish::<U>, (&mut_ref_current(bus), of_u), before_u),
        call_ensures(EventBus::<L>::subscribe::<T>, (bus, empty), list),
        call_ensures(EventBus::<L>::publish::<T>, (&mut_ref_future(bus), of_t), told_t),
        call_ensures(EventBus::<L>::publish::<U>, (&mut_ref_future(bus), of_u), told_u),
    ensures
        told_t == Some((&mut_ref_future(list), of_t)),
        told_u == before_u,
{
}

/// To subscribe is to be handed the list that is told of the event, or `empty` if there is none.
pub proof fn law_subscribers_share_a_list<T: Event, L>(
    bus: &mut EventBus<L>,
    empty: L,
    list: &mut L,
    arg: T::Argument,
    told: Option<(&L, T::Argument)>,
)
    requires
        call_ensures(EventBus::<L>::publish::<T>, (&mut_ref_current(bus), arg), told),
        call_ensures(EventBus::<L>::subscribe::<T>, (bus, empty), list),
    ensures
        told matches Some((l, a)) ==> mut_ref_current(list) == *l && a == arg,
        told is None ==> mut_ref_current(list) == empty,
{
}

/// To publish what a function makes is to publish its result: the list is the same, and if there is
/// one, the function is called to make what it is told.
pub proof fn law_publish_with_is_publish<T: Event, L, A: FnOnce() -> T::Argument>(
    bus: EventBus<L>,
    arg: A,
    made: Option<(&L, T::Argument)>,
    given: T::Argument,
    told: Option<(&L, T::Argument)>,
)
    requires
        call_ensures(EventBus::<L>::publish_with::<T, A>, (&bus, arg), made),
        call_ensures(EventBus::<L>::publish::<T>, (&bus, given), told),
    ensures
        match (made, told) {
            (Some((list, value)), Some((same, unchanged))) => list == same && unchanged == given
                && call_ensures(arg, (), value),
            (None, None) => true,
            _ => false,
        },
{
}

/// On a new bus nobody is told of anything.
pub proof fn law_a_new_bus_is_silent<T: Event, L>(
    bus: EventBus<L>,
    arg: T::Argument,
    told: Option<(&L, T::Argument)>,
)
    requires
        call_ensures(EventBus::<L>::new, (), bus),
        call_ensures(EventBus::<L>::publish::<T>, (&bus, arg), told),
    ensures
        told is None,
{
}

/// Whoever is pushed on a list is found at its end, and everybody else where they were.
pub proof fn law_lists_grow_at_the_end<C>(
    list: &mut Subscribers<C>,
    callback: C,
    fresh: Subscribers<C>,
    i: int,
)
    requires
        call_ensures(Subscribers::<C>::push, (list, callback), ()),
        call_ensures(Subscribers::<C>::new, (), fresh),
    ensures
        fresh@.len() == 0,
        mut_ref_future(list)@.len() == mut_ref_current(list)@.len() + 1,
        mut_ref_future(list)@.last() == callback,
        0 <= i < mut_ref_current(list)@.len() ==> mut_ref_future(list)@[i] == mut_ref_current(
            list,
        )@[i],
{
}

/// By the identifier of an event, whoever subscribes is handed the list that is found under it, and
/// what is made of the list is found there afterwards; under any other identifier everything stays.
pub proof fn law_lists_are_found_by_event<L>(
    bus: &mut EventBus<L>,
    event: TypeId,
    empty: L,
    list: &mut L,
    other: TypeId,
    before: Option<&L>,
    after: Option<&L>,
    other_before: Option<&L>,
    other_after: Option<&L>,
)
    requires
        call_ensures(EventBus::<L>::subscribers, (&mut_ref_current(bus), &event), before),
        call_ensures(EventBus::<L>::subscribers, (&mut_ref_current(bus), &other), other_before),
        call_ensures(EventBus::<L>::subscribe_to, (bus, event, empty), list),
        call_ensures(EventBus::<L>::subscribers, (&mut_ref_future(bus), &event), after),
        call_ensures(EventBus::<L>::subscribers, (&mut_ref_future(bus), &other), other_after),
    ensures
        mut_ref_current(list) == match before {
            Some(l) => *l,
            None => empty,
        },
        after == Some(&mut_ref_future(list)),
        other != event ==> other_after == other_before,
{
}

/// Whoever is at a place on a list is handed out by that place, and to change them changes nobody
/// else.
pub proof fn law_places_on_a_list<C>(
    list: &mut Subscribers<C>,
    i: usize,
    callback: &mut C,
    len: usize,
    k: int,
)
    requires
        i < mut_ref_current(list)@.len(),
        call_ensures(Subscribers::<C>::callback, (list, i), callback),
        call_ensures(Subscribers::<C>::len, (&mut_ref_current(list),), len),
    ensures
        len == mut_ref_current(list)@.len(),
        mut_ref_future(list)@.len() == len,
        mut_ref_current(callback) == mut_ref_current(list)@[i as int],
        mut_ref_future(list)@[i as int] == mut_ref_future(callback),
        0 <= k < len && k != i ==> mut_ref_future(list)@[k] == mut_ref_current(list)@[k],
{
}

} // verus!
