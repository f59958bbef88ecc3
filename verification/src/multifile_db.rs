//! A database that keeps one file per key, all in one directory.
//!
//! [`MultifileDb`] knows the databases of the files that were opened so far. [`Load`] is how it
//! gets to know those that are there when it starts: a state machine that says what to do with the
//! directory, and is told what came of it.

use vstd::prelude::*;

use std::collections::HashMap;
use std::hash::Hash;

use crate::file_key::{entry_key, FileKeySerializer};

verus! {

/// The databases by key.
pub struct MultifileDb<Pk, D> {
    table: HashMap<Pk, D>,
}

impl<Pk, D> View for MultifileDb<Pk, D> {
    type V = Map<Pk, D>;

    /// The databases by key.
    closed spec fn view(&self) -> Map<Pk, D> {
        self.table@
    }
}

/// Whether keys can be told apart by `==` and their hashes, as a hash table asks of its keys.
pub open spec fn hashable<Pk>() -> bool {
    vstd::std_specs::hash::obeys_key_model::<Pk>()
}

impl<Pk: Eq + Hash + Copy, D> MultifileDb<Pk, D> {
    /// No databases.
    pub fn new() -> (r: Self)
        ensures
            r@ == Map::<Pk, D>::empty(),
    {
        MultifileDb { table: HashMap::new() }
    }

    /// The database of `pk`, if there is one.
    pub fn get(&self, pk: &Pk) -> (r: Option<&D>)
        requires
            hashable::<Pk>(),
        ensures
            r == (if self@.contains_key(*pk) {
                Some(&self@[*pk])
            } else {
                None
            }),
    {
        self.table.get(pk)
    }

    /// The name of the file to open so that `pk` has a database, or nothing if it has one. The
    /// database goes to [`MultifileDb::opened`].
    pub fn get_or_default<Fk: FileKeySerializer<Pk>>(&self, pk: Pk) -> (r: Option<String>)
        requires
            hashable::<Pk>(),
        ensures
            r is None == self@.contains_key(pk),
            r matches Some(name) ==> call_ensures(Fk::to_string, (pk,), name),
    {
        if self.table.contains_key(&pk) {
            None
        } else {
            Some(Fk::to_string(pk))
        }
    }

    /// Takes in the database of `pk`, in place of the one that was there.
    pub fn opened(&mut self, pk: Pk, db: D)
        requires
            hashable::<Pk>(),
        ensures
            final(self)@ == old(self)@.insert(pk, db),
    {
        self.table.insert(pk, db);
    }

    /// Every key once, with its database.
    pub fn for_each(&self) -> (r: Vec<(Pk, &D)>)
        requires
            hashable::<Pk>(),
        ensures
            firsts(r@).no_duplicates(),
            firsts(r@).to_set() == self@.dom(),
            forall|i: int| 0 <= i < r@.len() ==> *(#[trigger] r@[i]).1 == self@[r@[i].0],
    {
        let entries = self.iter_guard().iter();
        let mut list: Vec<(Pk, &D)> = Vec::new();
        for i in 0..entries.len()
            invariant
                list@.len() == i,
                forall|k: int|
                    0 <= k < i ==> (#[trigger] list@[k]).0 == *entries@[k].0 && list@[k].1
                        == entries@[k].1,
        {
            let (pk, db) = entries[i];
            list.push((*pk, db));
        }
        assert(firsts(list@) == keys_of(entries@));
        list
    }

    /// A walk over all databases, each of which is visited until a visit fails.
    pub fn try_for_each<E>(&self) -> (r: Walk<'_, Pk, D, E>)
        requires
            hashable::<Pk>(),
        ensures
            keys_of(r@.entries).no_duplicates(),
            keys_of(r@.entries).to_set() == self@.dom(),
            forall|i: int|
                0 <= i < r@.entries.len() ==> *(#[trigger] r@.entries[i]).1
                    == self@[*r@.entries[i].0],
            r@.visited == 0,
            r@.error is None,
    {
        Walk { entries: self.iter_guard().iter(), visited: 0, error: None }
    }

    /// A look at all databases.
    pub fn iter_guard(&self) -> (r: IterGuard<'_, Pk, D>)
        ensures
            r@ == self@,
    {
        IterGuard { db: self }
    }
}

/// A look at all databases.
pub struct IterGuard<'s, Pk, D> {
    db: &'s MultifileDb<Pk, D>,
}

impl<'s, Pk, D> View for IterGuard<'s, Pk, D> {
    type V = Map<Pk, D>;

    /// The databases by key.
    closed spec fn view(&self) -> Map<Pk, D> {
        self.db@
    }
}

/// The keys in a list that has them first.
pub open spec fn keys_of<Pk, D>(list: Seq<(&Pk, &D)>) -> Seq<Pk> {
    list.map_values(|entry: (&Pk, &D)| *entry.0)
}

/// What comes first in the entries of a list.
pub open spec fn firsts<Pk, D>(list: Seq<(Pk, &D)>) -> Seq<Pk> {
    list.map_values(|entry: (Pk, &D)| entry.0)
}

impl<'s, Pk: Eq + Hash, D> IterGuard<'s, Pk, D> {
    /// Every key once, with its database.
    pub fn iter(&self) -> (r: Vec<(&'s Pk, &'s D)>)
        requires
            hashable::<Pk>(),
        ensures
            keys_of(r@).no_duplicates(),
            keys_of(r@).to_set() == self@.dom(),
            forall|i: int| 0 <= i < r@.len() ==> *(#[trigger] r@[i]).1 == self@[*r@[i].0],
    {
        let entries = self.db.table.iter();
        let ghost all = vstd::std_specs::iter::IteratorSpec::remaining(&entries);
        let mut list: Vec<(&'s Pk, &'s D)> = Vec::new();
        for entry in it: entries
            invariant
                it.seq() == all,
                list@ == all.take(it.index() as int),
        {
            list.push(entry);
        }
        proof {
            assert(list@ == all);
            let keys = keys_of(all);
            assert forall|i: int, j: int| 0 <= i < j < keys.len() implies keys[i] != keys[j] by {
                if keys[i] == keys[j] {
                    assert(self@.contains_key(*all[i].0));
                    assert(self@.contains_key(*all[j].0));
                    assert(all[i] == all[j]);
                }
            }
            assert forall|pk: Pk| #[trigger] keys.to_set().contains(pk) == self@.dom().contains(
                pk,
            ) by {
                if self@.contains_key(pk) {
                    let i = choose|i: int| 0 <= i < all.len() && all[i] == (&pk, &self@[pk]);
                    assert(keys[i] == pk);
                }
                if keys.contains(pk) {
                    let i = choose|i: int| 0 <= i < keys.len() && keys[i] == pk;
                    assert(self@.contains_key(*all[i].0));
                }
            }
            assert(keys.to_set() =~= self@.dom());
        }
        list
    }
}

/// A walk over databases that ends at the first visit that fails.
pub struct Walk<'s, Pk, D, E> {
    entries: Vec<(&'s Pk, &'s D)>,
    visited: usize,
    error: Option<E>,
}

/// What a [`Walk`] stands for.
pub struct WalkView<'s, Pk, D, E> {
    /// The databases with their keys, in the order in which they are visited.
    pub entries: Seq<(&'s Pk, &'s D)>,
    /// How many of them were visited.
    pub visited: nat,
    /// What the last visit failed with, if it failed.
    pub error: Option<E>,
}

impl<'s, Pk, D, E> View for Walk<'s, Pk, D, E> {
    type V = WalkView<'s, Pk, D, E>;

    closed spec fn view(&self) -> WalkView<'s, Pk, D, E> {
        WalkView { entries: self.entries@, visited: self.visited as nat, error: self.error }
    }
}

impl<'s, Pk, D, E> WalkView<'s, Pk, D, E> {
    /// Whether there is nothing more to visit.
    pub open spec fn over(self) -> bool {
        self.error is Some || self.visited >= self.entries.len()
    }

    /// The walk after the visit that is next. When the walk is over, nothing changes it.
    pub open spec fn after(self, visit: Result<(), E>) -> Self {
        if self.over() {
            self
        } else {
            WalkView {
                entries: self.entries,
                visited: self.visited + 1,
                error: match visit {
                    Ok(()) => None,
                    Err(e) => Some(e),
                },
            }
        }
    }

    /// The walk after a whole series of visits.
    pub open spec fn after_all(self, visits: Seq<Result<(), E>>) -> Self
        decreases visits.len(),
    {
        if visits.len() == 0 {
            self
        } else {
            self.after_all(visits.drop_last()).after(visits.last())
        }
    }
}

impl<'s, Pk, D, E> Walk<'s, Pk, D, E> {
    /// Which database to visit next, with its key, or nothing when the walk is over.
    pub fn next(&self) -> (r: Option<(&'s Pk, &'s D)>)
        ensures
            r == (if self@.over() {
                None
            } else {
                Some(self@.entries[self@.visited as int])
            }),
    {
        if self.error.is_none() && self.visited < self.entries.len() {
            Some(self.entries[self.visited])
        } else {
            None
        }
    }

    /// Takes in how the visit went.
    pub fn visited(&mut self, visit: Result<(), E>)
        ensures
            final(self)@ == old(self)@.after(visit),
    {
        if self.error.is_none() && self.visited < self.entries.len() {
            self.visited = self.visited + 1;
            self.error = visit.err();
        }
    }

    /// How the walk went: the error of the visit that failed, if one did.
    pub fn finish(self) -> (r: Result<(), E>)
        ensures
            r == (match self@.error {
                Some(e) => Err(e),
                None => Ok(()),
            }),
    {
        match self.error {
            Some(e) => Err(e),
            None => Ok(()),
        }
    }
}

/// A walk goes on as long as no visit fails, and then has visited everything.
pub proof fn law_walks_visit_everything<Pk, D, E>(
    start: WalkView<'_, Pk, D, E>,
    visits: Seq<Result<(), E>>,
)
    requires
        start.visited == 0,
        start.error is None,
        forall|i: int| 0 <= i < visits.len() ==> #[trigger] visits[i] is Ok,
    ensures
        start.after_all(visits).entries == start.entries,
        start.after_all(visits).error is None,
        start.after_all(visits).visited == if visits.len() <= start.entries.len() {
            visits.len()
        } else {
            start.entries.len()
        },
    decreases visits.len(),
{
    if visits.len() > 0 {
        assert(visits.last() == visits[visits.len() - 1]);
        law_walks_visit_everything(start, visits.drop_last());
    }
}

/// A walk ends at the first visit that fails: nothing is visited after it, and the walk fails with
/// that visit's error, whatever else happens.
pub proof fn law_walks_end_at_the_first_error<Pk, D, E>(
    start: WalkView<'_, Pk, D, E>,
    visits: Seq<Result<(), E>>,
    n: int,
)
    requires
        start.visited == 0,
        start.error is None,
        0 <= n < visits.len(),
        n < start.entries.len(),
        forall|i: int| 0 <= i < n ==> #[trigger] visits[i] is Ok,
        visits[n] is Err,
    ensures
        start.after_all(visits).visited == n + 1,
        start.after_all(visits).error == Some(visits[n]->Err_0),
        start.after_all(visits).over(),
    decreases visits.len(),
{
    let before = visits.drop_last();
    if n == before.len() {
        law_walks_visit_everything(start, before);
    } else {
        law_walks_end_at_the_first_error(start, before, n);
    }
}

/// Where the loading of a directory is. `E` is what can go wrong.
pub enum Load<Pk, D, E> {
    /// The directory is to be opened.
    Opening,
    /// The next entry of the directory is to be read.
    Reading(MultifileDb<Pk, D>),
    /// The database of the entry that was read last, whose key this is, is to be opened.
    OpeningDb(MultifileDb<Pk, D>, Pk),
    /// These are the databases.
    Done(MultifileDb<Pk, D>),
    /// Something went wrong, and nothing was loaded.
    Failed(E),
}

/// What came of the last step of loading a directory.
pub enum LoadEvent<D, E> {
    /// The directory is open.
    DirOpened,
    /// There is no such directory.
    DirNotFound,
    /// The directory could not be opened.
    DirFailed(E),
    /// The directory has an entry, with these bytes as its name, if it has one.
    Entry(Option<Vec<u8>>),
    /// The directory has no more entries.
    EndOfDir,
    /// The next entry could not be read.
    EntryFailed(E),
    /// The database is open.
    DbOpened(D),
    /// The database could not be opened.
    DbFailed(E),
}

/// What a [`Load`] stands for.
#[verifier::reject_recursive_types(Pk)]
pub enum LoadView<Pk, D, E> {
    Opening,
    Reading(Map<Pk, D>),
    OpeningDb(Map<Pk, D>, Pk),
    Done(Map<Pk, D>),
    Failed(E),
}

impl<Pk, D, E> View for Load<Pk, D, E> {
    type V = LoadView<Pk, D, E>;

    open spec fn view(&self) -> LoadView<Pk, D, E> {
        match *self {
            Load::Opening => LoadView::Opening,
            Load::Reading(db) => LoadView::Reading(db@),
            Load::OpeningDb(db, pk) => LoadView::OpeningDb(db@, pk),
            Load::Done(db) => LoadView::Done(db@),
            Load::Failed(e) => LoadView::Failed(e),
        }
    }
}

/// Whether `key` may have been read from the name of a directory's entry: a name that is not text
/// has no key, and that of one that is text is what `Fk` makes of it.
pub open spec fn key_of_entry<Pk, Fk: FileKeySerializer<Pk>>(
    name: Option<Vec<u8>>,
    key: Option<Pk>,
) -> bool {
    match name {
        Some(bytes) if vstd::utf8::valid_utf8(bytes@) =>
            exists|text: &str, parsed: Result<Pk, Fk::ParseError>| #[trigger]
                call_ensures(Fk::from_str, (text,), parsed) && text@ == vstd::utf8::decode_utf8(
                    bytes@,
                ) && key == parsed.ok(),
        _ => key is None,
    }
}

/// Whether `after` is where the loading may be once `event` has come in. An event that nothing
/// brings there changes nothing.
pub open spec fn leads_to<Pk, D, E, Fk: FileKeySerializer<Pk>>(
    before: LoadView<Pk, D, E>,
    event: LoadEvent<D, E>,
    after: LoadView<Pk, D, E>,
) -> bool {
    match (before, event) {
        (LoadView::Opening, LoadEvent::DirOpened) => after == LoadView::<Pk, D, E>::Reading(
            Map::empty(),
        ),
        (LoadView::Opening, LoadEvent::DirNotFound) => after == LoadView::<Pk, D, E>::Done(
            Map::empty(),
        ),
        (LoadView::Opening, LoadEvent::DirFailed(e)) => after == LoadView::<Pk, D, E>::Failed(e),
        (LoadView::Reading(dbs), LoadEvent::Entry(name)) => match after {
            LoadView::Reading(same) => same == dbs && key_of_entry::<Pk, Fk>(name, None),
            LoadView::OpeningDb(same, pk) => same == dbs && key_of_entry::<Pk, Fk>(name, Some(pk)),
            _ => false,
        },
        (LoadView::Reading(dbs), LoadEvent::EndOfDir) => after == LoadView::<Pk, D, E>::Done(dbs),
        (LoadView::Reading(_), LoadEvent::EntryFailed(e)) => after
            == LoadView::<Pk, D, E>::Failed(e),
        (LoadView::OpeningDb(dbs, pk), LoadEvent::DbOpened(db)) => after
            == LoadView::<Pk, D, E>::Reading(dbs.insert(pk, db)),
        (LoadView::OpeningDb(_, _), LoadEvent::DbFailed(e)) => after
            == LoadView::<Pk, D, E>::Failed(e),
        _ => after == before,
    }
}

impl<Pk: Eq + Hash + Copy, D, E> Load<Pk, D, E> {
    /// The start of loading a directory. Nothing is known of it, whatever was loaded before.
    pub fn new() -> (r: Self)
        ensures
            r@ is Opening,
    {
        Load::Opening
    }

    /// What loading came to: the databases, or the error with which it failed and no databases at
    /// all. While loading is not over, it is handed back.
    pub fn finish(self) -> (r: Result<Result<MultifileDb<Pk, D>, E>, Self>)
        ensures
            match self@ {
                LoadView::Done(dbs) => r matches Ok(Ok(db)) && db@ == dbs,
                LoadView::Failed(e) => r == Ok::<Result<MultifileDb<Pk, D>, E>, Self>(Err(e)),
                _ => r == Err::<Result<MultifileDb<Pk, D>, E>, Self>(self),
            },
    {
        match self {
            Load::Done(db) => Ok(Ok(db)),
            Load::Failed(e) => Ok(Err(e)),
            load => Err(load),
        }
    }

    /// Takes in what came of the last step, and says where that leads. File names are read by `Fk`.
    pub fn step<Fk: FileKeySerializer<Pk>>(self, event: LoadEvent<D, E>) -> (r: Self)
        requires
            hashable::<Pk>(),
        ensures
            leads_to::<Pk, D, E, Fk>(self@, event, r@),
    {
        match (self, event) {
            (Load::Opening, LoadEvent::DirOpened) => Load::Reading(MultifileDb::new()),
            (Load::Opening, LoadEvent::DirNotFound) => Load::Done(MultifileDb::new()),
            (Load::Opening, LoadEvent::DirFailed(e)) => Load::Failed(e),
            (Load::Reading(db), LoadEvent::Entry(name)) => {
                let key = match &name {
                    Some(bytes) => entry_key::<Pk, Fk>(bytes.as_slice()),
                    None => None,
                };
                match key {
                    Some(pk) => Load::OpeningDb(db, pk),
                    None => Load::Reading(db),
                }
            },
            (Load::Reading(db), LoadEvent::EndOfDir) => Load::Done(db),
            (Load::Reading(_), LoadEvent::EntryFailed(e)) => Load::Failed(e),
            (Load::OpeningDb(dbs, pk), LoadEvent::DbOpened(db)) => {
                let mut dbs = dbs;
                dbs.opened(pk, db);
                Load::Reading(dbs)
            },
            (Load::OpeningDb(_, _), LoadEvent::DbFailed(e)) => Load::Failed(e),
            (load, _) => load,
        }
    }
}

/// A database that was opened while loading: the name of its file, its key, and the database.
pub struct Opened<Pk, D> {
    pub file: Option<Vec<u8>>,
    pub pk: Pk,
    pub db: D,
}

/// Whether the event at `n` was an entry of the directory that was read.
pub open spec fn entry_read<Pk, D, E>(
    states: Seq<LoadView<Pk, D, E>>,
    events: Seq<LoadEvent<D, E>>,
    n: int,
) -> bool {
    states[n] is Reading && events[n] is Entry
}

/// The name of the entry that was read last among the first `n` events.
pub open spec fn file_at<Pk, D, E>(
    states: Seq<LoadView<Pk, D, E>>,
    events: Seq<LoadEvent<D, E>>,
    n: int,
) -> Option<Vec<u8>>
    decreases n,
{
    if n <= 0 {
        None
    } else if entry_read(states, events, n - 1) {
        events[n - 1]->Entry_0
    } else {
        file_at(states, events, n - 1)
    }
}

/// The databases that were opened during the first `n` events, in their order: at each event at
/// which a database was to be opened and was.
pub open spec fn databases_opened<Pk, D, E>(
    states: Seq<LoadView<Pk, D, E>>,
    events: Seq<LoadEvent<D, E>>,
    n: int,
) -> Seq<Opened<Pk, D>>
    decreases n,
{
    if n <= 0 {
        Seq::empty()
    } else {
        let before = databases_opened(states, events, n - 1);
        match (states[n - 1], events[n - 1]) {
            (LoadView::OpeningDb(_, pk), LoadEvent::DbOpened(db)) => before.push(
                Opened { file: file_at(states, events, n - 1), pk, db },
            ),
            _ => before,
        }
    }
}

/// The databases by key, where a later one takes the place of an earlier one.
pub open spec fn by_key<Pk, D>(opened: Seq<Opened<Pk, D>>) -> Map<Pk, D>
    decreases opened.len(),
{
    if opened.len() == 0 {
        Map::empty()
    } else {
        by_key(opened.drop_last()).insert(opened.last().pk, opened.last().db)
    }
}

/// The databases that are known while loading.
pub open spec fn known<Pk, D, E>(state: LoadView<Pk, D, E>) -> Map<Pk, D> {
    match state {
        LoadView::Reading(dbs) | LoadView::OpeningDb(dbs, _) | LoadView::Done(dbs) => dbs,
        LoadView::Opening | LoadView::Failed(_) => Map::empty(),
    }
}

/// Whether loading a directory went through `states`, and `events` are what led from each to the
/// next.
pub open spec fn loading<Pk, D, E, Fk: FileKeySerializer<Pk>>(
    states: Seq<LoadView<Pk, D, E>>,
    events: Seq<LoadEvent<D, E>>,
) -> bool {
    &&& states.len() == events.len() + 1
    &&& states[0] is Opening
    &&& forall|i: int|
        0 <= i < events.len() ==> leads_to::<Pk, D, E, Fk>(
            #[trigger] states[i],
            events[i],
            states[i + 1],
        )
}

/// Loading a directory finds exactly the databases that were opened on the way. Each is under the
/// key that `Fk` reads from the name of its file, which is the directory's entry that was read last
/// before the database was opened; and where two names have the same key, the last one wins.
pub proof fn law_loads_what_was_opened<Pk, D, E, Fk: FileKeySerializer<Pk>>(
    states: Seq<LoadView<Pk, D, E>>,
    events: Seq<LoadEvent<D, E>>,
)
    requires
        loading::<Pk, D, E, Fk>(states, events),
        !(states.last() is Failed),
    ensures
        ({
            let opened = databases_opened(states, events, events.len() as int);
            &&& known(states.last()) == by_key(opened)
            &&& forall|i: int|
                0 <= i < opened.len() ==> key_of_entry::<Pk, Fk>(
                    (#[trigger] opened[i]).file,
                    Some(opened[i].pk),
                )
        }),
{
    lemma_loads_what_was_opened::<Pk, D, E, Fk>(states, events, events.len() as int);
}

/// What is known after the first `n` events, and that the key of the database that is to be opened
/// is the one of the entry that was read last.
proof fn lemma_loads_what_was_opened<Pk, D, E, Fk: FileKeySerializer<Pk>>(
    states: Seq<LoadView<Pk, D, E>>,
    events: Seq<LoadEvent<D, E>>,
    n: int,
)
    requires
        loading::<Pk, D, E, Fk>(states, events),
        0 <= n <= events.len(),
    ensures
        !(states[n] is Failed) ==> known(states[n]) == by_key(databases_opened(states, events, n)),
        states[n] matches LoadView::OpeningDb(_, pk) ==> key_of_entry::<Pk, Fk>(
            file_at(states, events, n),
            Some(pk),
        ),
        forall|i: int|
            0 <= i < databases_opened(states, events, n).len() ==> key_of_entry::<Pk, Fk>(
                (#[trigger] databases_opened(states, events, n)[i]).file,
                Some(databases_opened(states, events, n)[i].pk),
            ),
    decreases n,
{
    if n > 0 {
        lemma_loads_what_was_opened::<Pk, D, E, Fk>(states, events, n - 1);
        assert(leads_to::<Pk, D, E, Fk>(states[n - 1], events[n - 1], states[n - 1 + 1]));
        let before = databases_opened(states, events, n - 1);
        let opened = databases_opened(states, events, n);
        if let (LoadView::OpeningDb(_, pk), LoadEvent::DbOpened(db)) = (
            states[n - 1],
            events[n - 1],
        ) {
            assert(opened.drop_last() =~= before);
        }
        assert forall|i: int| 0 <= i < opened.len() implies key_of_entry::<Pk, Fk>(
            (#[trigger] opened[i]).file,
            Some(opened[i].pk),
        ) by {
            if i < before.len() {
                assert(opened[i] == before[i]);
            }
        }
    }
}

/// No file is left out: once loading is done, every entry that was read and has a key has a database
/// under its key.
pub proof fn law_no_file_is_left_out<Pk, D, E, Fk: FileKeySerializer<Pk>>(
    states: Seq<LoadView<Pk, D, E>>,
    events: Seq<LoadEvent<D, E>>,
    n: int,
)
    requires
        loading::<Pk, D, E, Fk>(states, events),
        states.last() is Done,
        0 <= n < events.len(),
        entry_read(states, events, n),
        !key_of_entry::<Pk, Fk>(events[n]->Entry_0, None),
    ensures
        exists|pk: Pk| #[trigger]
            key_of_entry::<Pk, Fk>(events[n]->Entry_0, Some(pk)) && known(
                states.last(),
            ).contains_key(pk),
{
    assert(leads_to::<Pk, D, E, Fk>(states[n], events[n], states[n + 1]));
    let pk = states[n + 1]->OpeningDb_1;
    lemma_stays_known::<Pk, D, E, Fk>(states, events, pk, n + 1, events.len() as int);
    assert(key_of_entry::<Pk, Fk>(events[n]->Entry_0, Some(pk)));
}

/// A key whose database is to be opened is still to be opened, or known, at any later time, unless
/// loading failed.
proof fn lemma_stays_known<Pk, D, E, Fk: FileKeySerializer<Pk>>(
    states: Seq<LoadView<Pk, D, E>>,
    events: Seq<LoadEvent<D, E>>,
    pk: Pk,
    from: int,
    n: int,
)
    requires
        loading::<Pk, D, E, Fk>(states, events),
        0 <= from <= n <= events.len(),
        states[from] matches LoadView::OpeningDb(_, key) && key == pk,
    ensures
        states[n] is Failed || known(states[n]).contains_key(pk) || (
        states[n] matches LoadView::OpeningDb(_, key) && key == pk),
    decreases n,
{
    if from < n {
        lemma_stays_known::<Pk, D, E, Fk>(states, events, pk, from, n - 1);
        assert(leads_to::<Pk, D, E, Fk>(states[n - 1], events[n - 1], states[n - 1 + 1]));
    }
}

/// A key is known exactly if one of the databases that were opened is under it.
pub proof fn law_known_keys_were_opened<Pk, D>(opened: Seq<Opened<Pk, D>>, pk: Pk)
    ensures
        by_key(opened).contains_key(pk) <==> exists|i: int|
            0 <= i < opened.len() && (#[trigger] opened[i]).pk == pk,
    decreases opened.len(),
{
    if opened.len() > 0 {
        let before = opened.drop_last();
        law_known_keys_were_opened(before, pk);
        if by_key(before).contains_key(pk) {
            let i = choose|i: int| 0 <= i < before.len() && (#[trigger] before[i]).pk == pk;
            assert(opened[i].pk == pk);
        }
        if exists|i: int| 0 <= i < opened.len() && (#[trigger] opened[i]).pk == pk {
            let i = choose|i: int| 0 <= i < opened.len() && (#[trigger] opened[i]).pk == pk;
            if i < before.len() {
                assert(before[i].pk == pk);
            }
        }
        assert(opened[opened.len() - 1] == opened.last());
    }
}

/// Of the databases under one key, the one that was opened last is known.
pub proof fn law_the_last_one_wins<Pk, D>(opened: Seq<Opened<Pk, D>>, n: int)
    requires
        0 <= n < opened.len(),
        forall|i: int| n < i < opened.len() ==> (#[trigger] opened[i]).pk != opened[n].pk,
    ensures
        by_key(opened).contains_key(opened[n].pk),
        by_key(opened)[opened[n].pk] == opened[n].db,
    decreases opened.len(),
{
    if n < opened.len() - 1 {
        assert(opened.last() == opened[opened.len() - 1]);
        law_the_last_one_wins(opened.drop_last(), n);
    }
}

/// Where there is no directory, there are no databases; and where anything else goes wrong, the
/// error is passed on and nothing is loaded, not even what was opened before.
pub proof fn law_errors_are_passed_on<Pk, D, E, Fk: FileKeySerializer<Pk>>(
    before: LoadView<Pk, D, E>,
    event: LoadEvent<D, E>,
    after: LoadView<Pk, D, E>,
)
    requires
        leads_to::<Pk, D, E, Fk>(before, event, after),
        !(before is Failed),
    ensures
        before is Opening && event is DirNotFound ==> after == LoadView::<Pk, D, E>::Done(
            Map::empty(),
        ),
        after matches LoadView::Failed(e) ==> {
            ||| before is Opening && event == LoadEvent::<D, E>::DirFailed(e)
            ||| before is Reading && event == LoadEvent::<D, E>::EntryFailed(e)
            ||| before is OpeningDb && event == LoadEvent::<D, E>::DbFailed(e)
        },
        after is Failed ==> known(after) == Map::<Pk, D>::empty(),
        before is Opening ==> (event matches LoadEvent::DirFailed(e) ==> after == LoadView::<
            Pk,
            D,
            E,
        >::Failed(e)),
        before is Reading ==> (event matches LoadEvent::EntryFailed(e) ==> after == LoadView::<
            Pk,
            D,
            E,
        >::Failed(e)),
        before is OpeningDb ==> (event matches LoadEvent::DbFailed(e) ==> after == LoadView::<
            Pk,
            D,
            E,
        >::Failed(e)),
{
}

/// Whether `Fk` makes a key into the text `name`, and that text into the key again.
pub open spec fn reads_back<Pk, Fk: FileKeySerializer<Pk>>(pk: Pk, name: Seq<char>) -> bool {
    forall|text: &str, parsed: Result<Pk, Fk::ParseError>| #[trigger]
        call_ensures(Fk::from_str, (text,), parsed) && text@ == name ==> parsed.ok() == Some(pk)
}

/// A database that was made for a key is found under that key when the directory is loaded again,
/// provided that the key's file name is read as the key.
pub proof fn law_databases_are_found_again<Pk, D, E, Fk: FileKeySerializer<Pk>>(
    pk: Pk,
    name: Seq<char>,
    bytes: Vec<u8>,
    dbs: Map<Pk, D>,
    after: LoadView<Pk, D, E>,
)
    requires
        reads_back::<Pk, Fk>(pk, name),
        bytes@ == vstd::utf8::encode_utf8(name),
        leads_to::<Pk, D, E, Fk>(LoadView::Reading(dbs), LoadEvent::Entry(Some(bytes)), after),
    ensures
        after == LoadView::<Pk, D, E>::OpeningDb(dbs, pk),
{
    vstd::utf8::encode_utf8_valid_utf8(name);
    vstd::utf8::encode_utf8_decode_utf8(name);
}

/// The file name of a number is read as that number.
pub proof fn law_number_names_read_back(n: u64, name: String)
    requires
        call_ensures(<crate::file_key::DotJson as FileKeySerializer<u64>>::to_string, (n,), name),
    ensures
        reads_back::<u64, crate::file_key::DotJson>(n, name@),
{
    crate::file_key::law_names_end_in_json(crate::file_key::decimal(n as nat));
    crate::file_key::law_numbers_are_read_back(n);
}

/// Loading is done only when the directory has no more entries, or is not there at all.
pub proof fn law_done_means_read_to_the_end<
    Pk: Eq + Hash + Copy,
    D,
    E,
    Fk: FileKeySerializer<Pk>,
>(load: Load<Pk, D, E>, event: LoadEvent<D, E>, r: Load<Pk, D, E>)
    requires
        call_ensures(Load::<Pk, D, E>::step::<Fk>, (load, event), r),
        !(load@ is Done),
        r@ is Done,
    ensures
        match (load@, event) {
            (LoadView::Reading(dbs), LoadEvent::EndOfDir) => r@ == LoadView::<Pk, D, E>::Done(dbs),
            (LoadView::Opening, LoadEvent::DirNotFound) => r@ == LoadView::<Pk, D, E>::Done(
                Map::empty(),
            ),
            _ => false,
        },
{
}

/// Loading reads one entry after the other: an entry is skipped or its database is opened, an opened
/// database joins those that are known, and then the next entry is read. The end of the directory
/// ends the loading with all that is known, and an error ends it with nothing. Nothing else changes
/// anything, and what is over stays over.
pub proof fn law_loading_reads_on<Pk: Eq + Hash + Copy, D, E, Fk: FileKeySerializer<Pk>>(
    load: Load<Pk, D, E>,
    event: LoadEvent<D, E>,
    r: Load<Pk, D, E>,
)
    requires
        call_ensures(Load::<Pk, D, E>::step::<Fk>, (load, event), r),
    ensures
        match (load@, event) {
            (LoadView::Opening, LoadEvent::DirOpened) => r@ matches LoadView::Reading(dbs)
                && dbs.dom() == Set::<Pk>::empty(),
            (LoadView::Opening, LoadEvent::DirNotFound) => r@ matches LoadView::Done(dbs)
                && dbs.dom() == Set::<Pk>::empty(),
            (LoadView::Opening, LoadEvent::DirFailed(e)) => r@ == LoadView::<Pk, D, E>::Failed(e),
            (LoadView::Reading(dbs), LoadEvent::Entry(_)) => r@ == load@ || (
            r@ matches LoadView::OpeningDb(same, _) && same == dbs),
            (LoadView::Reading(dbs), LoadEvent::EndOfDir) => r@ == LoadView::<Pk, D, E>::Done(dbs),
            (LoadView::Reading(_), LoadEvent::EntryFailed(e)) => r@
                == LoadView::<Pk, D, E>::Failed(e),
            (LoadView::OpeningDb(dbs, pk), LoadEvent::DbOpened(db)) => r@ matches LoadView::Reading(
                more,
            ) && more.dom() == dbs.dom().insert(pk) && more[pk] == db && forall|other: Pk|
                other != pk && #[trigger] dbs.contains_key(other) ==> more[other] == dbs[other],
            (LoadView::OpeningDb(_, _), LoadEvent::DbFailed(e)) => r@
                == LoadView::<Pk, D, E>::Failed(e),
            _ => r@ == load@,
        },
{
}

/// Where the name of an entry is text that `Fk` reads as a key, the database of that key is opened.
pub proof fn law_files_of_keys_are_opened<Pk: Eq + Hash + Copy, D, E, Fk: FileKeySerializer<Pk>>(
    load: Load<Pk, D, E>,
    name: Vec<u8>,
    pk: Pk,
    r: Load<Pk, D, E>,
)
    requires
        load@ is Reading,
        vstd::utf8::valid_utf8(name@),
        forall|text: &str, parsed: Result<Pk, Fk::ParseError>| #[trigger]
            call_ensures(Fk::from_str, (text,), parsed) && text@ == vstd::utf8::decode_utf8(name@)
                ==> parsed.ok() == Some(pk),
        call_ensures(Load::<Pk, D, E>::step::<Fk>, (load, LoadEvent::Entry(Some(name))), r),
    ensures
        r@ == LoadView::<Pk, D, E>::OpeningDb(load@->Reading_0, pk),
{
}

/// Where an entry has no name, or its name is not text, or is text that `Fk` reads as no key, the
/// entry is skipped.
pub proof fn law_other_files_are_skipped<Pk: Eq + Hash + Copy, D, E, Fk: FileKeySerializer<Pk>>(
    load: Load<Pk, D, E>,
    name: Option<Vec<u8>>,
    r: Load<Pk, D, E>,
)
    requires
        load@ is Reading,
        name matches Some(bytes) ==> !vstd::utf8::valid_utf8(bytes@) || forall|
            text: &str,
            parsed: Result<Pk, Fk::ParseError>,
        | #[trigger]
            call_ensures(Fk::from_str, (text,), parsed) && text@ == vstd::utf8::decode_utf8(bytes@)
                ==> parsed is Err,
        call_ensures(Load::<Pk, D, E>::step::<Fk>, (load, LoadEvent::Entry(name)), r),
    ensures
        r@ == load@,
{
}

/// Loading that is done has come to the end of the directory, or found none: there is an event which
/// says so, before which loading was not done and after which nothing changed any more.
pub proof fn law_everything_is_read_before_loading_is_done<Pk, D, E, Fk: FileKeySerializer<Pk>>(
    states: Seq<LoadView<Pk, D, E>>,
    events: Seq<LoadEvent<D, E>>,
) -> (n: int)
    requires
        loading::<Pk, D, E, Fk>(states, events),
        states.last() is Done,
    ensures
        0 <= n < events.len(),
        states[n] is Reading && events[n] is EndOfDir || states[n] is Opening
            && events[n] is DirNotFound,
        forall|k: int| n < k < states.len() ==> #[trigger] states[k] == states.last(),
{
    lemma_last_step::<Pk, D, E, Fk>(states, events, events.len() as int)
}

/// Where the first `n` events led to the end of loading, and what led there.
proof fn lemma_last_step<Pk, D, E, Fk: FileKeySerializer<Pk>>(
    states: Seq<LoadView<Pk, D, E>>,
    events: Seq<LoadEvent<D, E>>,
    n: int,
) -> (m: int)
    requires
        loading::<Pk, D, E, Fk>(states, events),
        0 <= n <= events.len(),
        states[n] is Done,
    ensures
        0 <= m < n,
        states[m] is Reading && events[m] is EndOfDir || states[m] is Opening
            && events[m] is DirNotFound,
        forall|k: int| m < k <= n ==> #[trigger] states[k] == states[n],
    decreases n,
{
    assert(n > 0);
    assert(leads_to::<Pk, D, E, Fk>(states[n - 1], events[n - 1], states[n - 1 + 1]));
    if states[n - 1] is Done {
        lemma_last_step::<Pk, D, E, Fk>(states, events, n - 1)
    } else {
        n - 1
    }
}

/// Every file in the directory that is named after a number is loaded: once loading is done, there
/// is a database under the number of each entry that is named like it, followed by `.json`.
pub proof fn law_files_of_numbers_are_loaded<D, E>(
    states: Seq<LoadView<u64, D, E>>,
    events: Seq<LoadEvent<D, E>>,
    n: int,
    bytes: Vec<u8>,
    number: u64,
)
    requires
        loading::<u64, D, E, crate::file_key::DotJson>(states, events),
        0 <= n < events.len(),
        states[n] is Reading,
        events[n] == LoadEvent::<D, E>::Entry(Some(bytes)),
        bytes@ == vstd::utf8::encode_utf8(
            crate::file_key::decimal(number as nat) + ".json"@,
        ),
        states.last() is Done,
    ensures
        states.last()->Done_0.contains_key(number),
{
    let name = crate::file_key::decimal(number as nat) + ".json"@;
    vstd::utf8::encode_utf8_valid_utf8(name);
    vstd::utf8::encode_utf8_decode_utf8(name);
    crate::file_key::law_names_end_in_json(crate::file_key::decimal(number as nat));
    crate::file_key::law_numbers_are_read_back(number);
    assert(leads_to::<u64, D, E, crate::file_key::DotJson>(states[n], events[n], states[n + 1]));
    lemma_stays_known::<u64, D, E, crate::file_key::DotJson>(
        states,
        events,
        number,
        n + 1,
        events.len() as int,
    );
}

/// What a load stands for.
pub proof fn law_what_a_load_stands_for<Pk, D, E>(db: MultifileDb<Pk, D>, pk: Pk, e: E)
    ensures
        Load::<Pk, D, E>::Opening@ is Opening,
        Load::<Pk, D, E>::Reading(db)@ == LoadView::<Pk, D, E>::Reading(db@),
        Load::<Pk, D, E>::OpeningDb(db, pk)@ == LoadView::<Pk, D, E>::OpeningDb(db@, pk),
        Load::<Pk, D, E>::Done(db)@ == LoadView::<Pk, D, E>::Done(db@),
        Load::<Pk, D, E>::Failed(e)@ == LoadView::<Pk, D, E>::Failed(e),
{
}

/// A database that was opened is found under its key, in place of the one that was there before, and
/// the other keys have the databases that they had.
pub proof fn law_opened_databases_are_found<Pk: Eq + Hash + Copy, D>(
    dbs: &mut MultifileDb<Pk, D>,
    pk: Pk,
    db: D,
    other: Pk,
    before: Option<&D>,
    found: Option<&D>,
    unchanged: Option<&D>,
)
    requires
        call_ensures(MultifileDb::<Pk, D>::get, (&mut_ref_current(dbs), &other), before),
        call_ensures(MultifileDb::<Pk, D>::opened, (dbs, pk, db), ()),
        call_ensures(MultifileDb::<Pk, D>::get, (&mut_ref_future(dbs), &pk), found),
        call_ensures(MultifileDb::<Pk, D>::get, (&mut_ref_future(dbs), &other), unchanged),
    ensures
        found == Some(&db),
        other != pk ==> unchanged == before,
{
}

/// A file is to be opened exactly for a key that has no database yet, and it is the one that is named
/// after the key.
pub proof fn law_files_are_opened_once<Pk: Eq + Hash + Copy, D, Fk: FileKeySerializer<Pk>>(
    dbs: MultifileDb<Pk, D>,
    pk: Pk,
    found: Option<&D>,
    name: Option<String>,
)
    requires
        call_ensures(MultifileDb::<Pk, D>::get, (&dbs, &pk), found),
        call_ensures(MultifileDb::<Pk, D>::get_or_default::<Fk>, (&dbs, pk), name),
    ensures
        name is None <==> found is Some,
        name matches Some(file) ==> call_ensures(Fk::to_string, (pk,), file),
{
}

/// At first no key has a database.
pub proof fn law_a_new_table_is_empty<Pk: Eq + Hash + Copy, D>(
    dbs: MultifileDb<Pk, D>,
    pk: Pk,
    found: Option<&D>,
)
    requires
        call_ensures(MultifileDb::<Pk, D>::new, (), dbs),
        call_ensures(MultifileDb::<Pk, D>::get, (&dbs, &pk), found),
    ensures
        found is None,
{
}

/// A look at all databases has each key once that has a database, along with that database, and no
/// other key.
pub proof fn law_every_key_is_looked_at_once<Pk: Eq + Hash + Copy, D>(
    dbs: MultifileDb<Pk, D>,
    look: IterGuard<'_, Pk, D>,
    list: Vec<(&Pk, &D)>,
    pk: Pk,
    found: Option<&D>,
)
    requires
        call_ensures(MultifileDb::<Pk, D>::iter_guard, (&dbs,), look),
        call_ensures(IterGuard::<'_, Pk, D>::iter, (&look,), list),
        call_ensures(MultifileDb::<Pk, D>::get, (&dbs, &pk), found),
    ensures
        found is Some <==> exists|k: int| 0 <= k < list@.len() && *(#[trigger] list@[k]).0 == pk,
        forall|k: int|
            0 <= k < list@.len() && *(#[trigger] list@[k]).0 == pk ==> found == Some(list@[k].1),
        forall|j: int, k: int|
            0 <= j < k < list@.len() ==> *(#[trigger] list@[j]).0 != *(#[trigger] list@[k]).0,
{
    lemma_keys_of(list@, pk);
}

/// What it means for a key to come first in a list, and for no key to come first twice.
proof fn lemma_keys_of<Pk, D>(list: Seq<(&Pk, &D)>, pk: Pk)
    ensures
        keys_of(list).to_set().contains(pk) <==> exists|k: int|
            0 <= k < list.len() && *(#[trigger] list[k]).0 == pk,
        keys_of(list).no_duplicates() ==> forall|j: int, k: int|
            0 <= j < k < list.len() ==> *(#[trigger] list[j]).0 != *(#[trigger] list[k]).0,
{
    let keys = keys_of(list);
    assert(keys.len() == list.len());
    assert forall|k: int| 0 <= k < list.len() implies #[trigger] keys[k] == *list[k].0 by {
    }
    if exists|k: int| 0 <= k < list.len() && *(#[trigger] list[k]).0 == pk {
        let k = choose|k: int| 0 <= k < list.len() && *(#[trigger] list[k]).0 == pk;
        assert(keys[k] == pk);
    }
    if keys.no_duplicates() {
        assert forall|j: int, k: int| 0 <= j < k < list.len() implies *(#[trigger] list[j]).0 != *(
        #[trigger] list[k]).0 by {
            assert(keys[j] != keys[k]);
        }
    }
}

/// To do something for each database is to do it once for each key that has one.
pub proof fn law_each_database_comes_once<Pk: Eq + Hash + Copy, D>(
    dbs: MultifileDb<Pk, D>,
    list: Vec<(Pk, &D)>,
    pk: Pk,
    found: Option<&D>,
)
    requires
        call_ensures(MultifileDb::<Pk, D>::for_each, (&dbs,), list),
        call_ensures(MultifileDb::<Pk, D>::get, (&dbs, &pk), found),
    ensures
        found is Some <==> exists|k: int| 0 <= k < list@.len() && (#[trigger] list@[k]).0 == pk,
        forall|k: int|
            0 <= k < list@.len() && (#[trigger] list@[k]).0 == pk ==> found == Some(list@[k].1),
        forall|j: int, k: int|
            0 <= j < k < list@.len() ==> (#[trigger] list@[j]).0 != (#[trigger] list@[k]).0,
{
    let keys = firsts(list@);
    assert(keys.len() == list@.len());
    assert forall|k: int| 0 <= k < list@.len() implies #[trigger] keys[k] == list@[k].0 by {
    }
    if exists|k: int| 0 <= k < list@.len() && (#[trigger] list@[k]).0 == pk {
        let k = choose|k: int| 0 <= k < list@.len() && (#[trigger] list@[k]).0 == pk;
        assert(keys[k] == pk);
    }
    assert(keys.to_set().contains(pk) <==> keys.contains(pk));
    assert forall|j: int, k: int| 0 <= j < k < list@.len() implies (#[trigger] list@[j]).0 != (
    #[trigger] list@[k]).0 by {
        assert(keys[j] != keys[k]);
    }
}

/// A walk starts at the first of all databases, has each key once, and has not failed.
pub proof fn law_walks_cover_everything<Pk: Eq + Hash + Copy, D, E>(
    dbs: MultifileDb<Pk, D>,
    walk: Walk<'_, Pk, D, E>,
    pk: Pk,
    found: Option<&D>,
)
    requires
        call_ensures(MultifileDb::<Pk, D>::try_for_each::<E>, (&dbs,), walk),
        call_ensures(MultifileDb::<Pk, D>::get, (&dbs, &pk), found),
    ensures
        walk@.visited == 0,
        walk@.error is None,
        found is Some <==> exists|k: int|
            0 <= k < walk@.entries.len() && *(#[trigger] walk@.entries[k]).0 == pk,
        forall|k: int|
            0 <= k < walk@.entries.len() && *(#[trigger] walk@.entries[k]).0 == pk ==> found
                == Some(walk@.entries[k].1),
        forall|j: int, k: int|
            0 <= j < k < walk@.entries.len() ==> *(#[trigger] walk@.entries[j]).0 != *(
            #[trigger] walk@.entries[k]).0,
{
    lemma_keys_of(walk@.entries, pk);
}

/// A walk goes from each database to the one after it, until a visit fails or there are no more; and
/// then it has failed with that visit's error, or not at all.
pub proof fn law_walks_go_one_by_one<Pk, D, E>(
    walk: &mut Walk<'_, Pk, D, E>,
    next: Option<(&Pk, &D)>,
    visit: Result<(), E>,
    r: Result<(), E>,
)
    requires
        call_ensures(Walk::<'_, Pk, D, E>::next, (&mut_ref_current(walk),), next),
        call_ensures(Walk::<'_, Pk, D, E>::visited, (walk, visit), ()),
        call_ensures(Walk::<'_, Pk, D, E>::finish, (mut_ref_future(walk),), r),
    ensures
        ({
            let before = mut_ref_current(walk)@;
            let after = mut_ref_future(walk)@;
            &&& next is None <==> before.error is Some || before.visited >= before.entries.len()
            &&& next matches Some(entry) ==> {
                &&& entry == before.entries[before.visited as int]
                &&& after.visited == before.visited + 1
                &&& visit is Ok ==> after.error is None && r is Ok
                &&& visit matches Err(e) ==> after.error == Some(e) && r == Err::<(), E>(e)
            }
            &&& next is None ==> after == before
            &&& after.entries == before.entries
            &&& r matches Err(e) ==> after.error == Some(e)
            &&& r is Ok ==> after.error is None
        }),
{
}

/// Loading starts with a directory that is to be opened, and comes to something only when it is over:
/// to the databases that were known at the end, or to the error and nothing else.
pub proof fn law_what_loading_comes_to<Pk: Eq + Hash + Copy, D, E>(
    fresh: Load<Pk, D, E>,
    load: Load<Pk, D, E>,
    r: Result<Result<MultifileDb<Pk, D>, E>, Load<Pk, D, E>>,
)
    requires
        call_ensures(Load::<Pk, D, E>::new, (), fresh),
        call_ensures(Load::<Pk, D, E>::finish, (load,), r),
    ensures
        fresh@ is Opening,
        r matches Ok(Ok(db)) ==> load@ == LoadView::<Pk, D, E>::Done(db@),
        r matches Ok(Err(e)) ==> load@ == LoadView::<Pk, D, E>::Failed(e),
        r matches Err(same) ==> same == load && !(load@ is Done) && !(load@ is Failed),
{
}

} // verus!
