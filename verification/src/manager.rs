//! The daemons that are running, and how to reach them.
//!
//! A daemon whose task is over stays in the manager until somebody looks for it, or until garbage is
//! collected. Garbage is collected only if the manager was told that there may be some: whoever
//! learns that a daemon is gone says so by [`DaemonManager::daemon_gone`].

use vstd::prelude::*;

use std::any::TypeId;
use std::collections::HashMap;
use std::sync::Arc;
use tokio::sync::mpsc::{Receiver, Sender};

use crate::outside::{channel, type_id};
use crate::task::Msg;

verus! {

/// How many messages a daemon's channel holds.
pub const CHANNEL_CAPACITY: usize = 10;

/// A daemon's entry in the manager: its name, its type, and the channel it listens on.
pub struct DaemonHandle {
    name: String,
    ch: Sender<Msg>,
    ty: TypeId,
}

impl DaemonHandle {
    /// The daemon's name.
    pub closed spec fn spec_name(&self) -> Seq<char> {
        self.name@
    }

    /// The channel that the daemon listens on.
    pub closed spec fn channel(&self) -> Sender<Msg> {
        self.ch
    }

    /// The identifier of the daemon's type.
    pub closed spec fn type_id(&self) -> TypeId {
        self.ty
    }

    /// A handle of a daemon of type `T`.
    fn new<T: 'static>(name: String, ch: Sender<Msg>) -> (r: Self)
        ensures
            r.spec_name() == name@,
            r.channel() == ch,
            r.type_id() == crate::outside::id_of::<T>(),
    {
        DaemonHandle { name, ch, ty: type_id::<T>() }
    }

    /// The name of the daemon.
    pub fn name(&self) -> (r: &str)
        ensures
            r@ == self.spec_name(),
    {
        self.name.as_str()
    }

    /// The type of the daemon.
    pub fn ty(&self) -> (r: TypeId)
        ensures
            r == self.type_id(),
    {
        self.ty
    }
}

/// What became of a message to a daemon.
#[derive(Debug, Clone, Copy, PartialEq, Eq, Structural)]
pub enum Delivery {
    /// There was no daemon to send it to.
    NotRunning,
    /// The daemon's channel took it.
    Delivered,
    /// The daemon's channel was closed.
    Refused,
}

/// A message that is ready to be sent.
pub struct Outgoing<'a> {
    /// The channel to send it on.
    pub to: &'a Sender<Msg>,
    /// The message.
    pub msg: Msg,
}

/// Knows the running daemons by number, and reaches them.
pub struct DaemonManager<Data> {
    next_id: usize,
    channels: HashMap<usize, DaemonHandle>,
    data: Arc<Data>,
    needs_gc: bool,
}

/// Whether `Sender::is_closed` may have answered `answer` on the channel of `handle`.
pub open spec fn closed_answer(handle: DaemonHandle, answer: bool) -> bool {
    call_ensures(Sender::<Msg>::is_closed, (&handle.channel(),), answer)
}

/// Whether `kept` is what is left of `all` when the daemons whose channel is closed are dropped.
pub open spec fn swept(all: Map<usize, DaemonHandle>, kept: Map<usize, DaemonHandle>) -> bool {
    &&& kept.submap_of(all)
    &&& forall|id: usize| #[trigger]
        all.contains_key(id) ==> closed_answer(all[id], !kept.contains_key(id))
}

/// Whether `now` is what garbage collection made of `before`: nothing changed if it was not
/// needed, and otherwise the daemons whose channel is closed were dropped.
pub open spec fn collected(
    needed: bool,
    before: Map<usize, DaemonHandle>,
    now: Map<usize, DaemonHandle>,
) -> bool {
    if needed {
        swept(before, now)
    } else {
        now == before
    }
}

/// The number after `id`. After the last one it starts over.
pub open spec fn id_after(id: usize) -> usize {
    if id == usize::MAX {
        0
    } else {
        (id + 1) as usize
    }
}

/// What is answered to a request to daemon `i`: its number, unless the message got through.
pub open spec fn answer(i: usize, delivery: Delivery) -> Result<(), usize> {
    if delivery is Delivered {
        Ok(())
    } else {
        Err(i)
    }
}

/// The daemons after a message to daemon `i`: one whose channel is closed is dropped.
pub open spec fn after_message(
    daemons: Map<usize, DaemonHandle>,
    i: usize,
    delivery: Delivery,
) -> Map<usize, DaemonHandle> {
    if delivery is Refused {
        daemons.remove(i)
    } else {
        daemons
    }
}

/// The daemons after daemon `i` was cancelled: it is dropped, if it was there at all.
pub open spec fn after_cancel(
    daemons: Map<usize, DaemonHandle>,
    i: usize,
    delivery: Delivery,
) -> Map<usize, DaemonHandle> {
    if delivery is NotRunning {
        daemons
    } else {
        daemons.remove(i)
    }
}

/// The numbers in a list that has them first.
pub open spec fn ids_of<A>(list: Seq<(usize, A)>) -> Seq<usize> {
    list.map_values(|entry: (usize, A)| entry.0)
}

/// Whether `id` is one of `ids`.
fn contains(ids: &Vec<usize>, id: usize) -> (r: bool)
    ensures
        r == ids@.contains(id),
{
    for i in 0..ids.len()
        invariant
            forall|k: int| 0 <= k < i ==> ids@[k] != id,
    {
        if ids[i] == id {
            return true;
        }
    }
    false
}

/// A sequence with one item more holds that item, and what it held before.
proof fn lemma_push_contains<A>(s: Seq<A>, x: A, y: A)
    ensures
        s.push(x).contains(y) == (s.contains(y) || y == x),
{
    if s.contains(y) {
        let k = choose|k: int| 0 <= k < s.len() && s[k] == y;
        assert(s.push(x)[k] == y);
    }
    assert(s.push(x)[s.len() as int] == x);
}

impl<D> DaemonManager<D> {
    /// The daemons by number.
    pub closed spec fn channels(&self) -> Map<usize, DaemonHandle> {
        self.channels@
    }

    /// The number of the next daemon.
    pub closed spec fn spec_next_id(&self) -> usize {
        self.next_id
    }

    /// The data that every daemon is given.
    pub closed spec fn spec_data(&self) -> Arc<D> {
        self.data
    }

    /// Whether garbage collection is due.
    pub closed spec fn spec_needs_gc(&self) -> bool {
        self.needs_gc
    }

    /// Whether `self` differs from `before` at most in which daemons it knows, and in whether
    /// garbage collection is due.
    pub open spec fn same_but_channels(&self, before: &Self) -> bool {
        &&& self.spec_next_id() == before.spec_next_id()
        &&& self.spec_data() == before.spec_data()
    }

    /// The numbers of all daemons.
    fn ids(&self) -> (r: Vec<usize>)
        ensures
            r@.no_duplicates(),
            r@.to_set() == self.channels().dom(),
    {
        let ghost keys = vstd::std_specs::iter::IteratorSpec::remaining(
            &vstd::std_specs::hash::spec_keys_iter(&self.channels),
        );
        let mut ids: Vec<usize> = Vec::new();
        for id in it: self.channels.keys()
            invariant
                it.seq() == keys,
                ids@ == keys.unref().take(it.index() as int),
        {
            ids.push(*id);
        }
        assert(ids@ == keys.unref());
        ids
    }

    /// The numbers of the daemons whose channel is closed.
    fn closed_ids(&self) -> (r: Vec<usize>)
        ensures
            r@.no_duplicates(),
            forall|id: usize| #[trigger] r@.contains(id) ==> self.channels().contains_key(id),
            forall|id: usize| #[trigger]
                self.channels().contains_key(id) ==> if r@.contains(id) {
                    closed_answer(self.channels()[id], true)
                } else {
                    closed_answer(self.channels()[id], false)
                },
    {
        let ids = self.ids();
        let mut closed: Vec<usize> = Vec::new();
        for i in 0..ids.len()
            invariant
                ids@.no_duplicates(),
                ids@.to_set() == self.channels().dom(),
                closed@.no_duplicates(),
                forall|id: usize| #[trigger]
                    closed@.contains(id) ==> exists|k: int| 0 <= k < i && #[trigger] ids@[k] == id,
                forall|k: int|
                    0 <= k < i ==> if closed@.contains(#[trigger] ids@[k]) {
                        closed_answer(self.channels()[ids@[k]], true)
                    } else {
                        closed_answer(self.channels()[ids@[k]], false)
                    },
        {
            let id: usize = ids[i];
            let ghost before = closed@;
            assert(ids@.to_set().contains(id));
            assert(!before.contains(id));
            let is_closed = match self.channels.get(&id) {
                Some(handle) => handle.ch.is_closed(),
                None => false,
            };
            if is_closed {
                closed.push(id);
            }
            assert forall|other: usize| #[trigger] closed@.contains(other) == (before.contains(other) || (
            is_closed && other == id)) by {
                lemma_push_contains(before, id, other);
            }
            assert(ids@[i as int] == id);
            assert(self.channels().contains_key(id));
            assert(closed_answer(self.channels()[id], is_closed));
            assert(closed@.contains(id) == is_closed);
        }
        assert forall|id: usize| #[trigger] self.channels().contains_key(id) implies (
        if closed@.contains(id) {
            closed_answer(self.channels()[id], true)
        } else {
            closed_answer(self.channels()[id], false)
        }) by {
            assert(ids@.to_set().contains(id));
            let k = choose|k: int| 0 <= k < ids@.len() && ids@[k] == id;
            assert(ids@[k] == id);
        }
        closed
    }

    /// Drops the daemons with the given numbers.
    fn forget(&mut self, ids: &Vec<usize>)
        ensures
            final(self).channels() == old(self).channels().remove_keys(ids@.to_set()),
            final(self).same_but_channels(old(self)),
            final(self).spec_needs_gc() == old(self).spec_needs_gc(),
    {
        for i in 0..ids.len()
            invariant
                self.channels() == old(self).channels().remove_keys(ids@.take(i as int).to_set()),
                self.same_but_channels(old(self)),
                self.spec_needs_gc() == old(self).spec_needs_gc(),
        {
            self.channels.remove(&ids[i]);
            proof {
                assert(ids@.take(i + 1) == ids@.take(i as int).push(ids@[i as int]));
                assert forall|id: usize| #[trigger]
                    ids@.take(i + 1).to_set().contains(id) == (ids@.take(i as int).to_set().contains(
                        id,
                    ) || id == ids@[i as int]) by {
                    lemma_push_contains(ids@.take(i as int), ids@[i as int], id);
                }
            }
        }
        assert(ids@.take(ids@.len() as int) == ids@);
    }

    /// Takes in that some daemon is gone: garbage collection is due.
    pub fn daemon_gone(&mut self)
        ensures
            final(self).spec_needs_gc(),
            final(self).channels() == old(self).channels(),
            final(self).same_but_channels(old(self)),
    {
        self.needs_gc = true;
    }

    /// Drops the daemons whose channel is closed, if garbage collection is due. After that it is
    /// not.
    pub fn gc(&mut self)
        ensures
            collected(
                old(self).spec_needs_gc(),
                old(self).channels(),
                final(self).channels(),
            ),
            final(self).same_but_channels(old(self)),
            !final(self).spec_needs_gc(),
    {
        if self.needs_gc {
            let closed = self.closed_ids();
            let ghost before = self.channels();
            self.forget(&closed);
            self.needs_gc = false;
            assert forall|id: usize| #[trigger] before.contains_key(id) implies closed_answer(
                before[id],
                !self.channels().contains_key(id),
            ) by {
                if closed@.contains(id) {
                    lemma_answer(before[id], true, !self.channels().contains_key(id));
                } else {
                    lemma_answer(before[id], false, !self.channels().contains_key(id));
                }
            }
        }
    }

    /// Opens the channel of a new daemon of type `T` and enters the daemon under the number `id`,
    /// in place of whatever was there. The daemon listens on what is returned.
    fn add_channel<T: 'static>(&mut self, id: usize, name: &str) -> (r: Receiver<Msg>)
        ensures
            final(self).same_but_channels(old(self)),
            final(self).spec_needs_gc() == old(self).spec_needs_gc(),
            final(self).channels().contains_key(id),
            final(self).channels() == old(self).channels().insert(id, final(self).channels()[id]),
            final(self).channels()[id].spec_name() == name@,
            final(self).channels()[id].type_id() == crate::outside::id_of::<T>(),
            crate::outside::connected(final(self).channels()[id].channel(), r),
            crate::outside::capacity(final(self).channels()[id].channel()) == CHANNEL_CAPACITY,
    {
        let (sx, rx) = channel(CHANNEL_CAPACITY);
        self.channels.insert(id, DaemonHandle::new::<T>(name.into(), sx));
        rx
    }

    /// Enters a new daemon of type `T` and returns its number, along with the channel that it has
    /// to listen on. Once its task has been started, [`DaemonManager::gc`] is due.
    pub fn add_daemon<T: 'static>(&mut self, name: &str) -> (r: (usize, Receiver<Msg>))
        ensures
            r.0 == old(self).spec_next_id(),
            final(self).spec_next_id() == id_after(r.0),
            final(self).spec_data() == old(self).spec_data(),
            final(self).spec_needs_gc() == old(self).spec_needs_gc(),
            final(self).channels().contains_key(r.0),
            final(self).channels() == old(self).channels().insert(
                r.0,
                final(self).channels()[r.0],
            ),
            final(self).channels()[r.0].spec_name() == name@,
            final(self).channels()[r.0].type_id() == crate::outside::id_of::<T>(),
            crate::outside::connected(final(self).channels()[r.0].channel(), r.1),
            crate::outside::capacity(final(self).channels()[r.0].channel()) == CHANNEL_CAPACITY,
    {
        let id: usize = self.next_id;
        let rx = self.add_channel::<T>(id, name);
        self.next_id = id.wrapping_add(1);
        (id, rx)
    }

    /// Readies a message to daemon `i`, after garbage collection.
    fn send_msg(&mut self, i: usize, msg: Msg) -> (r: Option<Outgoing<'_>>)
        ensures
            collected(
                old(self).spec_needs_gc(),
                old(self).channels(),
                final(self).channels(),
            ),
            final(self).same_but_channels(old(self)),
            !final(self).spec_needs_gc(),
            r is Some == final(self).channels().contains_key(i),
            r matches Some(outgoing) ==> *outgoing.to == final(self).channels()[i].channel()
                && outgoing.msg == msg,
    {
        self.gc();
        match self.channels.get(&i) {
            Some(handle) => Some(Outgoing { to: &handle.ch, msg }),
            None => None,
        }
    }

    /// Takes in what became of a message to daemon `i`: a daemon whose channel is closed is
    /// dropped.
    fn sent(&mut self, i: usize, delivery: Delivery) -> (r: Result<(), usize>)
        ensures
            final(self).channels() == after_message(old(self).channels(), i, delivery),
            final(self).same_but_channels(old(self)),
            final(self).spec_needs_gc() == old(self).spec_needs_gc(),
            r == answer(i, delivery),
    {
        match delivery {
            Delivery::Delivered => Ok(()),
            Delivery::Refused => {
                self.channels.remove(&i);
                Err(i)
            },
            Delivery::NotRunning => Err(i),
        }
    }

    /// Readies the message that makes daemon `i` run now. What became of it goes to
    /// [`DaemonManager::run_one_sent`].
    pub fn run_one(&mut self, i: usize) -> (r: Option<Outgoing<'_>>)
        ensures
            collected(
                old(self).spec_needs_gc(),
                old(self).channels(),
                final(self).channels(),
            ),
            final(self).same_but_channels(old(self)),
            !final(self).spec_needs_gc(),
            r is Some == final(self).channels().contains_key(i),
            r matches Some(outgoing) ==> *outgoing.to == final(self).channels()[i].channel()
                && outgoing.msg == Msg::Run,
    {
        self.send_msg(i, Msg::Run)
    }

    /// Answers a request to run daemon `i` now, once it is known what became of the message.
    ///
    /// # Errors
    /// If the daemon is not running, its number is returned.
    pub fn run_one_sent(&mut self, i: usize, delivery: Delivery) -> (r: Result<(), usize>)
        ensures
            final(self).channels() == after_message(old(self).channels(), i, delivery),
            final(self).same_but_channels(old(self)),
            final(self).spec_needs_gc() == old(self).spec_needs_gc(),
            r == answer(i, delivery),
    {
        self.sent(i, delivery)
    }

    /// Readies the message that cancels daemon `i`. What became of it goes to
    /// [`DaemonManager::cancel_sent`].
    pub fn cancel(&mut self, i: usize) -> (r: Option<Outgoing<'_>>)
        ensures
            collected(
                old(self).spec_needs_gc(),
                old(self).channels(),
                final(self).channels(),
            ),
            final(self).same_but_channels(old(self)),
            !final(self).spec_needs_gc(),
            r is Some == final(self).channels().contains_key(i),
            r matches Some(outgoing) ==> *outgoing.to == final(self).channels()[i].channel()
                && outgoing.msg == Msg::Cancel,
    {
        self.send_msg(i, Msg::Cancel)
    }

    /// Answers a request to cancel daemon `i`, once it is known what became of the message. The
    /// daemon is dropped. To cancel a daemon a second time changes nothing.
    ///
    /// # Errors
    /// If the daemon is not running, its number is returned.
    pub fn cancel_sent(&mut self, i: usize, delivery: Delivery) -> (r: Result<(), usize>)
        ensures
            final(self).channels() == after_cancel(old(self).channels(), i, delivery),
            final(self).same_but_channels(old(self)),
            final(self).spec_needs_gc() == old(self).spec_needs_gc(),
            r == answer(i, delivery),
    {
        match self.sent(i, delivery) {
            Ok(()) => {
                self.channels.remove(&i);
                Ok(())
            },
            Err(i) => Err(i),
        }
    }

    /// Readies the messages that make all daemons run now, each with its daemon's number. The
    /// numbers of the daemons whose channel was closed go to [`DaemonManager::run_all_sent`].
    pub fn run_all(&self) -> (r: Vec<(usize, Outgoing<'_>)>)
        ensures
            ids_of(r@).no_duplicates(),
            ids_of(r@).to_set() == self.channels().dom(),
            forall|k: int|
                0 <= k < r@.len() ==> *(#[trigger] r@[k]).1.to
                    == self.channels()[r@[k].0].channel() && r@[k].1.msg == Msg::Run,
    {
        let none: Vec<usize> = Vec::new();
        let daemons = self.running(&none);
        let mut messages: Vec<(usize, Outgoing<'_>)> = Vec::new();
        for i in 0..daemons.len()
            invariant
                messages@.len() == i,
                forall|k: int|
                    0 <= k < i ==> (#[trigger] messages@[k]).0 == daemons@[k].0
                        && *messages@[k].1.to == daemons@[k].1.channel() && messages@[k].1.msg
                        == Msg::Run,
        {
            let (id, handle) = daemons[i];
            messages.push((id, Outgoing { to: &handle.ch, msg: Msg::Run }));
        }
        assert(ids_of(messages@) == ids_of(daemons@));
        messages
    }

    /// Takes in which daemons could not be told to run, by their numbers: they are dropped, and no
    /// garbage is left to collect.
    pub fn run_all_sent(&mut self, failed: &Vec<usize>)
        ensures
            final(self).channels() == old(self).channels().remove_keys(failed@.to_set()),
            final(self).same_but_channels(old(self)),
            !final(self).spec_needs_gc(),
    {
        self.forget(failed);
        self.needs_gc = false;
    }

    /// The daemons other than those with the given numbers.
    fn running(&self, closed: &Vec<usize>) -> (r: Vec<(usize, &DaemonHandle)>)
        ensures
            ids_of(r@).no_duplicates(),
            ids_of(r@).to_set() == self.channels().dom().difference(closed@.to_set()),
            forall|k: int| 0 <= k < r@.len() ==> *(#[trigger] r@[k]).1 == self.channels()[r@[k].0],
    {
        let ids = self.ids();
        let mut running: Vec<(usize, &DaemonHandle)> = Vec::new();
        for i in 0..ids.len()
            invariant
                ids@.no_duplicates(),
                ids@.to_set() == self.channels().dom(),
                ids_of(running@).no_duplicates(),
                forall|id: usize| #[trigger]
                    ids_of(running@).contains(id) == (ids@.take(i as int).contains(id)
                        && !closed@.contains(id)),
                forall|k: int|
                    0 <= k < running@.len() ==> *(#[trigger] running@[k]).1
                        == self.channels()[running@[k].0],
        {
            let id: usize = ids[i];
            let ghost before = ids_of(running@);
            let ghost seen = ids@.take(i as int);
            assert(ids@.to_set().contains(id));
            assert(ids@.take(i + 1) == seen.push(id));
            assert(!seen.contains(id));
            assert(!before.contains(id));
            if !contains(closed, id) {
                if let Some(handle) = self.channels.get(&id) {
                    running.push((id, handle));
                    assert(ids_of(running@) == before.push(id));
                }
            }
            assert forall|other: usize| #[trigger]
                ids_of(running@).contains(other) == (ids@.take(i + 1).contains(other)
                    && !closed@.contains(other)) by {
                lemma_push_contains(seen, id, other);
                lemma_push_contains(before, id, other);
            }
        }
        assert(ids@.take(ids@.len() as int) == ids@);
        assert forall|id: usize|
            ids_of(running@).to_set().contains(id) == self.channels().dom().difference(
                closed@.to_set(),
            ).contains(id) by {
            assert(ids_of(running@).contains(id) == (ids@.contains(id) && !closed@.contains(id)));
            assert(ids@.to_set().contains(id) == ids@.contains(id));
        }
        running
    }

    /// The daemons that are running, each with its number, and whether there is garbage: whether
    /// the channel of another one turned out to be closed. If it did, [`DaemonManager::daemon_gone`]
    /// is due.
    pub fn daemon_names(&self) -> (r: (Vec<(usize, &DaemonHandle)>, bool))
        ensures
            ids_of(r.0@).no_duplicates(),
            forall|k: int|
                0 <= k < r.0@.len() ==> self.channels().contains_key((#[trigger] r.0@[k]).0)
                    && *r.0@[k].1 == self.channels()[r.0@[k].0],
            forall|id: usize| #[trigger]
                self.channels().contains_key(id) ==> closed_answer(
                    self.channels()[id],
                    !ids_of(r.0@).contains(id),
                ),
            forall|id: usize| #[trigger]
                self.channels().contains_key(id) ==> if ids_of(r.0@).contains(id) {
                    closed_answer(self.channels()[id], false)
                } else {
                    closed_answer(self.channels()[id], true)
                },
            r.1 == exists|id: usize| #[trigger]
                self.channels().contains_key(id) && !ids_of(r.0@).contains(id),
    {
        let closed = self.closed_ids();
        let garbage = closed.len() > 0;
        let running = self.running(&closed);
        assert forall|id: usize| #[trigger]
            ids_of(running@).contains(id) == (self.channels().contains_key(id) && !closed@.contains(
                id,
            )) by {
            assert(ids_of(running@).to_set().contains(id) == ids_of(running@).contains(id));
        }
        assert forall|k: int| 0 <= k < running@.len() implies self.channels().contains_key(
            (#[trigger] running@[k]).0,
        ) by {
            assert(ids_of(running@)[k] == running@[k].0);
            assert(ids_of(running@).contains(running@[k].0));
        }
        proof {
            if garbage {
                assert(closed@.contains(closed@[0]));
                assert(self.channels().contains_key(closed@[0]));
            }
        }
        assert forall|id: usize| #[trigger] self.channels().contains_key(id) implies closed_answer(
            self.channels()[id],
            !ids_of(running@).contains(id),
        ) by {
            assert(ids_of(running@).contains(id) == !closed@.contains(id));
            if closed@.contains(id) {
                lemma_answer(self.channels()[id], true, !ids_of(running@).contains(id));
            } else {
                lemma_answer(self.channels()[id], false, !ids_of(running@).contains(id));
            }
        }
        (running, garbage)
    }

    /// A manager of daemons that are all given `data`.
    pub fn spawn(data: Arc<D>) -> (r: Self)
        ensures
            r.channels() == Map::<usize, DaemonHandle>::empty(),
            r.spec_next_id() == 0,
            r.spec_data() == data,
            !r.spec_needs_gc(),
    {
        DaemonManager {
            next_id: 0,
            channels: HashMap::new(),
            data,
            needs_gc: false,
        }
    }

    /// The data that every daemon is given.
    pub fn data(&self) -> (r: &Arc<D>)
        ensures
            *r == self.spec_data(),
    {
        &self.data
    }

    /// Whether garbage collection is due.
    pub fn needs_gc(&self) -> (r: bool)
        ensures
            r == self.spec_needs_gc(),
    {
        self.needs_gc
    }
}

impl<D> From<Arc<D>> for DaemonManager<D> {
    fn from(data: Arc<D>) -> (r: Self)
        ensures
            r.channels() == Map::<usize, DaemonHandle>::empty(),
            r.spec_next_id() == 0,
            r.spec_data() == data,
            !r.spec_needs_gc(),
    {
        DaemonManager::spawn(data)
    }
}

/// What a conversion gives is said by the contract of `from`, over the parts of a manager.
impl<D> vstd::std_specs::convert::FromSpecImpl<Arc<D>> for DaemonManager<D> {
    open spec fn obeys_from_spec() -> bool {
        false
    }

    open spec fn from_spec(data: Arc<D>) -> Self {
        arbitrary()
    }
}

/// The number of the daemon that is added `n` daemons after daemon `id`.
pub open spec fn nth_id_after(id: usize, n: nat) -> usize
    decreases n,
{
    if n == 0 {
        id
    } else {
        id_after(nth_id_after(id, (n - 1) as nat))
    }
}

/// Daemons are numbered one after the other, and the numbers start over when they run out.
pub proof fn law_ids_count_up(id: usize, n: nat)
    ensures
        nth_id_after(id, n) == (id + n) % (usize::MAX + 1),
    decreases n,
{
    if n == 0 {
        vstd::arithmetic::div_mod::lemma_small_mod(id as nat, (usize::MAX + 1) as nat);
    } else {
        law_ids_count_up(id, (n - 1) as nat);
        let size: int = usize::MAX + 1;
        let x: int = id + n - 1;
        assert((x + 1) % size == if x % size == size - 1 {
            0
        } else {
            x % size + 1
        }) by (nonlinear_arith)
            requires
                size > 1,
        ;
    }
}

/// No two daemons have the same number, unless all numbers were given out in between.
pub proof fn law_ids_differ(id: usize, m: nat, n: nat)
    requires
        m < n,
        n - m <= usize::MAX,
    ensures
        nth_id_after(id, m) != nth_id_after(id, n),
{
    law_ids_count_up(id, m);
    law_ids_count_up(id, n);
    let size: int = usize::MAX + 1;
    let a: int = id + m;
    let b: int = id + n;
    assert(a % size != b % size) by (nonlinear_arith)
        requires
            0 < b - a < size,
    ;
}

/// To cancel a daemon more than once changes nothing: after a first request, whatever became of it,
/// a second one finds no daemon to send to, is answered with the daemon's number, and leaves the
/// daemons as garbage collection left them.
pub proof fn law_cancel_twice(
    needed: bool,
    daemons: Map<usize, DaemonHandle>,
    i: usize,
    delivery: Delivery,
    later: Map<usize, DaemonHandle>,
)
    requires
        delivery is NotRunning ==> !daemons.contains_key(i),
        collected(needed, after_cancel(daemons, i, delivery), later),
    ensures
        !later.contains_key(i),
        answer(i, Delivery::NotRunning) == Err::<(), usize>(i),
        after_cancel(later, i, Delivery::NotRunning) == later,
{
    assert(later.contains_key(i) ==> after_cancel(daemons, i, delivery).contains_key(i));
}

/// A request that fails is answered with the number it was about, and only a daemon whose channel
/// took the message is answered with success.
pub proof fn law_errors_name_the_daemon(i: usize, delivery: Delivery)
    ensures
        answer(i, delivery) is Ok <==> delivery is Delivered,
        answer(i, delivery) matches Err(id) ==> id == i,
{
}

/// A message to one daemon leaves all others alone, and so does its cancellation.
pub proof fn law_others_are_left_alone(
    daemons: Map<usize, DaemonHandle>,
    i: usize,
    delivery: Delivery,
    other: usize,
)
    requires
        other != i,
    ensures
        after_message(daemons, i, delivery).contains_key(other) == daemons.contains_key(other),
        after_cancel(daemons, i, delivery).contains_key(other) == daemons.contains_key(other),
        daemons.contains_key(other) ==> after_message(daemons, i, delivery)[other]
            == daemons[other] && after_cancel(daemons, i, delivery)[other] == daemons[other],
{
}

/// Garbage collection adds no daemon and changes none; a daemon that it drops had a closed
/// channel.
pub proof fn law_gc_only_drops_the_closed(
    needed: bool,
    before: Map<usize, DaemonHandle>,
    now: Map<usize, DaemonHandle>,
    id: usize,
)
    requires
        collected(needed, before, now),
    ensures
        now.contains_key(id) ==> before.contains_key(id) && now[id] == before[id],
        before.contains_key(id) && !now.contains_key(id) ==> closed_answer(before[id], true),
{
}

/// What happens to the daemons of a manager.
pub enum Change {
    /// Garbage was collected, if that was needed.
    Collect { needed: bool },
    /// A message was sent to daemon `i`, and this is what became of it.
    Message { i: usize, delivery: Delivery },
    /// Daemon `i` was cancelled, and this is what became of the message.
    Cancel { i: usize, delivery: Delivery },
    /// All daemons were told to run, but for those with the given numbers, whose channel was closed.
    RunAll { failed: Set<usize> },
    /// A daemon was added under the number `id`.
    Add { id: usize, handle: DaemonHandle },
}

/// Whether `change` can make `before` into `now`.
pub open spec fn makes(
    change: Change,
    before: Map<usize, DaemonHandle>,
    now: Map<usize, DaemonHandle>,
) -> bool {
    match change {
        Change::Collect { needed } => collected(needed, before, now),
        Change::Message { i, delivery } => now == after_message(before, i, delivery),
        Change::Cancel { i, delivery } => now == after_cancel(before, i, delivery),
        Change::RunAll { failed } => now == before.remove_keys(failed),
        Change::Add { id, handle } => now == before.insert(id, handle),
    }
}

/// What is sent to a daemon's number comes out of the channel that the daemon was given when it was
/// added, for as long as the manager knows the daemon, whatever else happens in the meantime, except
/// that another daemon is added under the same number. `history` is what the daemons were from that
/// moment on, and `changes` is what led from each to the next.
pub proof fn law_messages_reach_their_daemon(
    history: Seq<Map<usize, DaemonHandle>>,
    changes: Seq<Change>,
    id: usize,
    rx: Receiver<Msg>,
)
    requires
        history.len() == changes.len() + 1,
        history[0].contains_key(id),
        crate::outside::connected(history[0][id].channel(), rx),
        forall|n: int|
            0 <= n < changes.len() ==> makes(#[trigger] changes[n], history[n], history[n + 1]),
        forall|n: int|
            0 <= n < changes.len() ==> (#[trigger] changes[n] matches Change::Add { id: other, .. }
                ==> other != id),
        history.last().contains_key(id),
    ensures
        crate::outside::connected(history.last()[id].channel(), rx),
{
    lemma_handles_stay(history, changes, id);
}

/// A daemon's handle stays as it is for as long as the manager knows the daemon.
proof fn lemma_handles_stay(
    history: Seq<Map<usize, DaemonHandle>>,
    changes: Seq<Change>,
    id: usize,
)
    requires
        history.len() == changes.len() + 1,
        history[0].contains_key(id),
        forall|n: int|
            0 <= n < changes.len() ==> makes(#[trigger] changes[n], history[n], history[n + 1]),
        forall|n: int|
            0 <= n < changes.len() ==> (#[trigger] changes[n] matches Change::Add { id: other, .. }
                ==> other != id),
    ensures
        history.last().contains_key(id) ==> history.last()[id] == history[0][id],
    decreases changes.len(),
{
    if changes.len() > 0 {
        let n = changes.len() - 1;
        let fewer = changes.drop_last();
        let until = history.drop_last();
        assert forall|k: int| 0 <= k < fewer.len() implies makes(
            #[trigger] fewer[k],
            until[k],
            until[k + 1],
        ) by {
            assert(makes(changes[k], history[k], history[k + 1]));
        }
        assert forall|k: int| 0 <= k < fewer.len() implies (#[trigger] fewer[k] matches Change::Add {
            id: other,
            ..
        } ==> other != id) by {
            assert(fewer[k] == changes[k]);
        }
        lemma_handles_stay(until, fewer, id);
        assert(makes(changes[n], history[n], history[n + 1]));
        if let Change::Collect { needed } = changes[n] {
            law_gc_only_drops_the_closed(needed, history[n], history[n + 1], id);
        }
    }
}

/// A daemon that is told to run is still known afterwards: a message changes which daemons are known
/// only if it was refused, and then just the daemon that refused it is dropped.
pub proof fn law_only_a_refusal_drops_a_daemon<D>(
    manager: &mut DaemonManager<D>,
    i: usize,
    delivery: Delivery,
    r: Result<(), usize>,
    id: usize,
)
    requires
        call_ensures(DaemonManager::<D>::run_one_sent, (manager, i, delivery), r),
    ensures
        !(delivery is Refused) ==> mut_ref_future(manager).channels() == mut_ref_current(
            manager,
        ).channels(),
        delivery is Refused ==> !mut_ref_future(manager).channels().contains_key(i),
        id != i ==> mut_ref_future(manager).channels().contains_key(id) == mut_ref_current(
            manager,
        ).channels().contains_key(id),
        mut_ref_future(manager).channels().contains_key(id) ==> mut_ref_future(
            manager,
        ).channels()[id] == mut_ref_current(manager).channels()[id],
        delivery is Delivered ==> r == Ok::<(), usize>(()),
        !(delivery is Delivered) ==> r == Err::<(), usize>(i),
{
}

/// A daemon that was cancelled is no longer known, whether its channel took the message or not; all
/// others are, as they were before. Where there was no such daemon, nothing changes.
pub proof fn law_cancelled_daemons_are_dropped<D>(
    manager: &mut DaemonManager<D>,
    i: usize,
    delivery: Delivery,
    r: Result<(), usize>,
    id: usize,
)
    requires
        call_ensures(DaemonManager::<D>::cancel_sent, (manager, i, delivery), r),
    ensures
        delivery is NotRunning ==> mut_ref_future(manager).channels() == mut_ref_current(
            manager,
        ).channels(),
        !(delivery is NotRunning) ==> !mut_ref_future(manager).channels().contains_key(i),
        id != i ==> mut_ref_future(manager).channels().contains_key(id) == mut_ref_current(
            manager,
        ).channels().contains_key(id),
        mut_ref_future(manager).channels().contains_key(id) ==> mut_ref_future(
            manager,
        ).channels()[id] == mut_ref_current(manager).channels()[id],
        delivery is Delivered ==> r == Ok::<(), usize>(()),
        !(delivery is Delivered) ==> r == Err::<(), usize>(i),
{
}

/// After all daemons were told to run, those that could be told are known as they were before, and
/// those that could not are not; and no garbage is left.
pub proof fn law_those_told_to_run_stay<D>(
    manager: &mut DaemonManager<D>,
    failed: Vec<usize>,
    id: usize,
)
    requires
        call_ensures(DaemonManager::<D>::run_all_sent, (manager, &failed), ()),
    ensures
        mut_ref_future(manager).channels().contains_key(id) <==> mut_ref_current(
            manager,
        ).channels().contains_key(id) && !failed@.contains(id),
        mut_ref_future(manager).channels().contains_key(id) ==> mut_ref_future(
            manager,
        ).channels()[id] == mut_ref_current(manager).channels()[id],
        !mut_ref_future(manager).spec_needs_gc(),
{
}

/// To tell all daemons to run is to tell each of them, once, on its own channel.
pub proof fn law_everybody_is_told_to_run<D>(
    manager: DaemonManager<D>,
    r: Vec<(usize, Outgoing<'_>)>,
    id: usize,
)
    requires
        call_ensures(DaemonManager::<D>::run_all, (&manager,), r),
    ensures
        manager.channels().contains_key(id) <==> exists|k: int|
            0 <= k < r@.len() && (#[trigger] r@[k]).0 == id,
        forall|k: int|
            0 <= k < r@.len() ==> *(#[trigger] r@[k]).1.to
                == manager.channels()[r@[k].0].channel() && r@[k].1.msg == Msg::Run,
        forall|j: int, k: int|
            0 <= j < k < r@.len() ==> (#[trigger] r@[j]).0 != (#[trigger] r@[k]).0,
{
    lemma_ids_of(r@, id);
}

/// The list of running daemons has every daemon once whose channel is open, under its number, and no
/// other; and there is garbage exactly if a daemon is missing from it.
pub proof fn law_the_open_are_listed<D>(
    manager: DaemonManager<D>,
    r: (Vec<(usize, &DaemonHandle)>, bool),
    id: usize,
)
    requires
        call_ensures(DaemonManager::<D>::daemon_names, (&manager,), r),
    ensures
        ({
            let listed = exists|k: int| 0 <= k < r.0@.len() && (#[trigger] r.0@[k]).0 == id;
            &&& listed ==> manager.channels().contains_key(id) && call_ensures(
                Sender::<Msg>::is_closed,
                (&manager.channels()[id].channel(),),
                false,
            )
            &&& manager.channels().contains_key(id) && !listed ==> r.1 && call_ensures(
                Sender::<Msg>::is_closed,
                (&manager.channels()[id].channel(),),
                true,
            )
        }),
        r.1 ==> exists|other: usize| #[trigger]
            manager.channels().contains_key(other) && forall|k: int|
                0 <= k < r.0@.len() ==> (#[trigger] r.0@[k]).0 != other,
        forall|k: int|
            0 <= k < r.0@.len() ==> *(#[trigger] r.0@[k]).1 == manager.channels()[r.0@[k].0],
        forall|j: int, k: int|
            0 <= j < k < r.0@.len() ==> (#[trigger] r.0@[j]).0 != (#[trigger] r.0@[k]).0,
{
    lemma_ids_of(r.0@, id);
    let ids = ids_of(r.0@);
    if ids.contains(id) {
        let k = choose|k: int| 0 <= k < r.0@.len() && (#[trigger] r.0@[k]).0 == id;
        assert(manager.channels().contains_key(r.0@[k].0));
        assert(manager.channels().contains_key(id));
        assert(closed_answer(manager.channels()[id], false));
    } else if manager.channels().contains_key(id) {
        assert(closed_answer(manager.channels()[id], true));
    }
    if r.1 {
        let other = choose|other: usize| #[trigger]
            manager.channels().contains_key(other) && !ids_of(r.0@).contains(other);
        lemma_ids_of(r.0@, other);
    }
}

/// An answer is an answer, however it is put.
proof fn lemma_answer(handle: DaemonHandle, answer: bool, same: bool)
    requires
        closed_answer(handle, answer),
        answer == same,
    ensures
        closed_answer(handle, same),
{
}

/// What it means for a number to come first in a list, and for no number to come first twice.
proof fn lemma_ids_of<A>(list: Seq<(usize, A)>, id: usize)
    ensures
        ids_of(list).contains(id) <==> exists|k: int|
            0 <= k < list.len() && (#[trigger] list[k]).0 == id,
        ids_of(list).to_set().contains(id) <==> ids_of(list).contains(id),
        ids_of(list).no_duplicates() ==> forall|j: int, k: int|
            0 <= j < k < list.len() ==> (#[trigger] list[j]).0 != (#[trigger] list[k]).0,
{
    let ids = ids_of(list);
    assert(ids.len() == list.len());
    assert forall|k: int| 0 <= k < list.len() implies #[trigger] ids[k] == list[k].0 by {
    }
    if exists|k: int| 0 <= k < list.len() && (#[trigger] list[k]).0 == id {
        let k = choose|k: int| 0 <= k < list.len() && (#[trigger] list[k]).0 == id;
        assert(ids[k] == id);
    }
    if ids.no_duplicates() {
        assert forall|j: int, k: int| 0 <= j < k < list.len() implies (#[trigger] list[j]).0 != (
        #[trigger] list[k]).0 by {
            assert(ids[j] != ids[k]);
        }
    }
}

/// Garbage collection that is not due changes nothing. If it is due, each daemon is dropped or kept
/// by what its channel answers when it is asked whether it is closed, and none is changed or added.
pub proof fn law_gc_asks_every_channel<D>(manager: &mut DaemonManager<D>, id: usize)
    requires
        call_ensures(DaemonManager::<D>::gc, (manager,), ()),
    ensures
        ({
            let before = mut_ref_current(manager);
            let after = mut_ref_future(manager);
            &&& !before.spec_needs_gc() ==> after.channels() == before.channels()
            &&& before.spec_needs_gc() && before.channels().contains_key(id) ==> call_ensures(
                Sender::<Msg>::is_closed,
                (&before.channels()[id].channel(),),
                !after.channels().contains_key(id),
            )
            &&& after.channels().contains_key(id) ==> before.channels().contains_key(id)
                && after.channels()[id] == before.channels()[id]
            &&& !after.spec_needs_gc()
            &&& after.spec_next_id() == before.spec_next_id()
            &&& after.spec_data() == before.spec_data()
        }),
{
}

/// A request to run a daemon collects garbage, if that is due, and looks the daemon up: there is a
/// message exactly if there is a daemon, it says to run, and it goes to that daemon's channel.
pub proof fn law_requests_to_run_go_to_their_daemon<D>(
    manager: &mut DaemonManager<D>,
    i: usize,
    r: Option<Outgoing<'_>>,
    id: usize,
)
    requires
        call_ensures(DaemonManager::<D>::run_one, (manager, i), r),
    ensures
        ({
            let before = mut_ref_current(manager);
            let after = mut_ref_future(manager);
            &&& r is Some <==> after.channels().contains_key(i)
            &&& r matches Some(outgoing) ==> *outgoing.to == before.channels()[i].channel()
                && outgoing.msg == Msg::Run
            &&& !before.spec_needs_gc() ==> after.channels() == before.channels()
            &&& before.spec_needs_gc() && before.channels().contains_key(id) ==> call_ensures(
                Sender::<Msg>::is_closed,
                (&before.channels()[id].channel(),),
                !after.channels().contains_key(id),
            )
            &&& after.channels().contains_key(id) ==> before.channels().contains_key(id)
                && after.channels()[id] == before.channels()[id]
            &&& !after.spec_needs_gc()
            &&& after.spec_next_id() == before.spec_next_id()
            &&& after.spec_data() == before.spec_data()
        }),
{
    let before = mut_ref_current(manager);
    let after = mut_ref_future(manager);
    law_gc_only_drops_the_closed(before.spec_needs_gc(), before.channels(), after.channels(), i);
    law_gc_only_drops_the_closed(before.spec_needs_gc(), before.channels(), after.channels(), id);
}

/// A request to cancel a daemon collects garbage, if that is due, and looks the daemon up: there is a
/// message exactly if there is a daemon, it says to cancel, and it goes to that daemon's channel.
pub proof fn law_cancellations_go_to_their_daemon<D>(
    manager: &mut DaemonManager<D>,
    i: usize,
    r: Option<Outgoing<'_>>,
    id: usize,
)
    requires
        call_ensures(DaemonManager::<D>::cancel, (manager, i), r),
    ensures
        ({
            let before = mut_ref_current(manager);
            let after = mut_ref_future(manager);
            &&& r is Some <==> after.channels().contains_key(i)
            &&& r matches Some(outgoing) ==> *outgoing.to == before.channels()[i].channel()
                && outgoing.msg == Msg::Cancel
            &&& !before.spec_needs_gc() ==> after.channels() == before.channels()
            &&& before.spec_needs_gc() && before.channels().contains_key(id) ==> call_ensures(
                Sender::<Msg>::is_closed,
                (&before.channels()[id].channel(),),
                !after.channels().contains_key(id),
            )
            &&& after.channels().contains_key(id) ==> before.channels().contains_key(id)
                && after.channels()[id] == before.channels()[id]
            &&& !after.spec_needs_gc()
            &&& after.spec_next_id() == before.spec_next_id()
            &&& after.spec_data() == before.spec_data()
        }),
{
    let before = mut_ref_current(manager);
    let after = mut_ref_future(manager);
    law_gc_only_drops_the_closed(before.spec_needs_gc(), before.channels(), after.channels(), i);
    law_gc_only_drops_the_closed(before.spec_needs_gc(), before.channels(), after.channels(), id);
}

/// A daemon that was added is known under the number that was returned, by its own name and type,
/// and is reached through a channel of ten messages, out of which it reads. All other daemons are
/// known as before, and the next daemon gets the next number.
pub proof fn law_added_daemons_are_known<D, T: 'static>(
    manager: &mut DaemonManager<D>,
    name: &str,
    r: (usize, Receiver<Msg>),
    id: usize,
)
    requires
        call_ensures(DaemonManager::<D>::add_daemon::<T>, (manager, name), r),
    ensures
        ({
            let before = mut_ref_current(manager);
            let after = mut_ref_future(manager);
            &&& r.0 == before.spec_next_id()
            &&& after.spec_next_id() == (r.0 + 1) % (usize::MAX + 1)
            &&& after.channels().contains_key(r.0)
            &&& after.channels()[r.0].spec_name() == name@
            &&& after.channels()[r.0].type_id() == crate::outside::id_of::<T>()
            &&& crate::outside::connected(after.channels()[r.0].channel(), r.1)
            &&& crate::outside::capacity(after.channels()[r.0].channel()) == 10
            &&& id != r.0 ==> after.channels().contains_key(id) == before.channels().contains_key(
                id,
            )
            &&& id != r.0 && before.channels().contains_key(id) ==> after.channels()[id]
                == before.channels()[id]
            &&& after.spec_data() == before.spec_data()
            &&& after.spec_needs_gc() == before.spec_needs_gc()
        }),
{
    law_ids_count_up(r.0, 1);
    assert(nth_id_after(r.0, 1) == id_after(nth_id_after(r.0, 0)));
}

/// A new manager knows no daemons, numbers them from zero, has no garbage, and hands out the data it
/// was given.
pub proof fn law_a_new_manager_is_empty<D>(
    data: Arc<D>,
    manager: DaemonManager<D>,
    held: &Arc<D>,
    garbage: bool,
    id: usize,
)
    requires
        call_ensures(DaemonManager::<D>::spawn, (data,), manager),
        call_ensures(DaemonManager::<D>::data, (&manager,), held),
        call_ensures(DaemonManager::<D>::needs_gc, (&manager,), garbage),
    ensures
        !manager.channels().contains_key(id),
        manager.spec_next_id() == 0,
        *held == data,
        !garbage,
{
}

/// A daemon that was added stays known, with the same name, type and channel, until it is cancelled,
/// refuses a message, is found closed, or another daemon is added under its number. `history` is
/// what the daemons were from the moment it was added, and `changes` is what led from each to the
/// next.
pub proof fn law_daemons_stay_until_they_are_gone(
    history: Seq<Map<usize, DaemonHandle>>,
    changes: Seq<Change>,
    id: usize,
)
    requires
        history.len() == changes.len() + 1,
        history[0].contains_key(id),
        forall|n: int|
            0 <= n < changes.len() ==> makes(#[trigger] changes[n], history[n], history[n + 1]),
        forall|n: int|
            0 <= n < changes.len() ==> match #[trigger] changes[n] {
                Change::Collect { needed } => needed ==> !call_ensures(
                    Sender::<Msg>::is_closed,
                    (&history[0][id].channel(),),
                    true,
                ),
                Change::Message { i, delivery } => i == id ==> !(delivery is Refused),
                Change::Cancel { i, delivery } => i == id ==> delivery is NotRunning,
                Change::RunAll { failed } => !failed.contains(id),
                Change::Add { id: other, .. } => other != id,
            },
    ensures
        history.last().contains_key(id),
        history.last()[id] == history[0][id],
    decreases changes.len(),
{
    if changes.len() > 0 {
        let n = changes.len() - 1;
        let fewer = changes.drop_last();
        let until = history.drop_last();
        assert forall|k: int| 0 <= k < fewer.len() implies makes(
            #[trigger] fewer[k],
            until[k],
            until[k + 1],
        ) by {
            assert(makes(changes[k], history[k], history[k + 1]));
        }
        assert forall|k: int| 0 <= k < fewer.len() implies match #[trigger] fewer[k] {
            Change::Collect { needed } => needed ==> !call_ensures(
                Sender::<Msg>::is_closed,
                (&until[0][id].channel(),),
                true,
            ),
            Change::Message { i, delivery } => i == id ==> !(delivery is Refused),
            Change::Cancel { i, delivery } => i == id ==> delivery is NotRunning,
            Change::RunAll { failed } => !failed.contains(id),
            Change::Add { id: other, .. } => other != id,
        } by {
            assert(fewer[k] == changes[k]);
        }
        law_daemons_stay_until_they_are_gone(until, fewer, id);
        assert(makes(changes[n], history[n], history[n + 1]));
        assert(history[n].contains_key(id) && history[n][id] == history[0][id]);
        if let Change::Collect { needed } = changes[n] {
            law_gc_only_drops_the_closed(needed, history[n], history[n + 1], id);
        }
    }
}

/// A daemon's entry tells the name and the type with which the daemon was added.
pub proof fn law_handles_tell_name_and_type<D, T: 'static>(
    manager: &mut DaemonManager<D>,
    name: &str,
    r: (usize, Receiver<Msg>),
    told: &str,
    ty: TypeId,
)
    requires
        call_ensures(DaemonManager::<D>::add_daemon::<T>, (manager, name), r),
        call_ensures(DaemonHandle::name, (&mut_ref_future(manager).channels()[r.0],), told),
        call_ensures(DaemonHandle::ty, (&mut_ref_future(manager).channels()[r.0],), ty),
    ensures
        told@ == name@,
        ty == crate::outside::id_of::<T>(),
{
}

/// What becomes of messages changes nothing but which daemons are known: the next number, the data,
/// and whether garbage collection is due stay as they are.
pub proof fn law_answers_change_nothing_else<D>(
    manager: &mut DaemonManager<D>,
    i: usize,
    delivery: Delivery,
    r: Result<(), usize>,
)
    requires
        call_ensures(DaemonManager::<D>::run_one_sent, (manager, i, delivery), r) || call_ensures(
            DaemonManager::<D>::cancel_sent,
            (manager, i, delivery),
            r,
        ),
    ensures
        mut_ref_future(manager).spec_next_id() == mut_ref_current(manager).spec_next_id(),
        mut_ref_future(manager).spec_data() == mut_ref_current(manager).spec_data(),
        mut_ref_future(manager).spec_needs_gc() == mut_ref_current(manager).spec_needs_gc(),
{
}

/// To hear of a daemon that is gone makes garbage collection due, and does nothing else. That all
/// daemons were told to run changes neither the next number nor the data.
pub proof fn law_garbage_is_only_noted<D>(
    manager: &mut DaemonManager<D>,
    told: &mut DaemonManager<D>,
    failed: Vec<usize>,
)
    requires
        call_ensures(DaemonManager::<D>::daemon_gone, (manager,), ()),
        call_ensures(DaemonManager::<D>::run_all_sent, (told, &failed), ()),
    ensures
        mut_ref_future(manager).spec_needs_gc(),
        mut_ref_future(manager).channels() == mut_ref_current(manager).channels(),
        mut_ref_future(manager).spec_next_id() == mut_ref_current(manager).spec_next_id(),
        mut_ref_future(manager).spec_data() == mut_ref_current(manager).spec_data(),
        mut_ref_future(told).spec_next_id() == mut_ref_current(told).spec_next_id(),
        mut_ref_future(told).spec_data() == mut_ref_current(told).spec_data(),
{
}

} // verus!
