//! The latest frame of every connected provider.

use crate::model::{views, HealthState, ReadingView};
use crate::text::{
    before, law_order_of_texts, lemma_before_irreflexive, lemma_before_total,
    lemma_before_transitive, precedes, same,
};
use vstd::prelude::*;

verus! {

/// A provider and its latest frame.
#[derive(Debug, PartialEq, Eq)]
pub struct ProviderEntry {
    pub id: String,
    pub state: HealthState,
}

/// The view of [`ProviderEntry`].
#[verifier::ext_equal]
pub struct EntryView {
    pub id: Seq<char>,
    pub state: Seq<ReadingView>,
}

impl View for ProviderEntry {
    type V = EntryView;

    open spec fn view(&self) -> EntryView {
        EntryView { id: self.id@, state: self.state@ }
    }
}

/// Are the entries in the strict order of their ids?
pub open spec fn ordered(entries: Seq<EntryView>) -> bool {
    forall|i: int, j: int|
        #![trigger entries[i], entries[j]]
        0 <= i < j < entries.len() ==> before(entries[i].id, entries[j].id)
}

/// Does entry `i` belong to provider `id`?
pub open spec fn entry_is(entries: Seq<EntryView>, i: int, id: Seq<char>) -> bool {
    0 <= i < entries.len() && entries[i].id == id
}

/// Which frame is held for which provider.
pub open spec fn frames(entries: Seq<EntryView>) -> Map<Seq<char>, Seq<ReadingView>> {
    Map::new(
        |id: Seq<char>| exists|i: int| entry_is(entries, i, id),
        |id: Seq<char>| entries[choose|i: int| entry_is(entries, i, id)].state,
    )
}

/// In ordered entries every provider has its own entry.
pub proof fn lemma_frame_of_entry(entries: Seq<EntryView>, i: int)
    requires
        ordered(entries),
        0 <= i < entries.len(),
    ensures
        frames(entries).contains_key(entries[i].id),
        frames(entries)[entries[i].id] == entries[i].state,
{
    let id = entries[i].id;
    assert(entry_is(entries, i, id));
    let k = choose|k: int| entry_is(entries, k, id);
    lemma_before_irreflexive(id);
}

/// The latest frames, one for each provider, listed in the order of the
/// providers' ids.
#[derive(Debug, PartialEq, Eq)]
pub struct ProviderTable {
    entries: Vec<ProviderEntry>,
}

impl View for ProviderTable {
    type V = Seq<EntryView>;

    closed spec fn view(&self) -> Seq<EntryView> {
        views(self.entries@)
    }
}

impl ProviderTable {
    /// Every provider has at most one entry, and the entries are in order.
    pub open spec fn wf(&self) -> bool {
        ordered(self@)
    }

    /// Which frame is held for which provider.
    pub open spec fn frames(&self) -> Map<Seq<char>, Seq<ReadingView>> {
        frames(self@)
    }

    /// A table without entries.
    pub fn new() -> (r: Self)
        ensures
            r.wf(),
            r@ == Seq::<EntryView>::empty(),
            r.frames() == Map::<Seq<char>, Seq<ReadingView>>::empty(),
    {
        let r = ProviderTable { entries: Vec::new() };
        assert(r@ =~= Seq::<EntryView>::empty());
        assert(r.frames() =~= Map::<Seq<char>, Seq<ReadingView>>::empty());
        r
    }

    /// The number of providers.
    pub fn len(&self) -> (r: usize)
        ensures
            r == self@.len(),
    {
        self.entries.len()
    }

    /// The entry at position `i` in the order of ids.
    pub fn entry(&self, i: usize) -> (r: &ProviderEntry)
        requires
            i < self@.len(),
        ensures
            r@ == self@[i as int],
    {
        &self.entries[i]
    }

    /// The first position whose id is not before `id`.
    fn position(&self, id: &str) -> (r: usize)
        requires
            self.wf(),
        ensures
            r <= self@.len(),
            forall|i: int| 0 <= i < r ==> before((#[trigger] self@[i]).id, id@),
            forall|i: int| r <= i < self@.len() ==> !before((#[trigger] self@[i]).id, id@),
    {
        let mut at: usize = 0;
        while at < self.entries.len() && precedes(self.entries[at].id.as_str(), id)
            invariant
                at <= self.entries@.len(),
                self@.len() == self.entries@.len(),
                self@ == views(self.entries@),
                forall|i: int| 0 <= i < at ==> before((#[trigger] self@[i]).id, id@),
            decreases self.entries@.len() - at,
        {
            assert(self@[at as int] == self.entries@[at as int]@);
            at = at + 1;
        }
        proof {
            assert forall|i: int| at <= i < self@.len() implies !before(
                (#[trigger] self@[i]).id,
                id@,
            ) by {
                assert(self@[at as int] == self.entries@[at as int]@);
                if i > at && before(self@[i].id, id@) {
                    lemma_before_transitive(self@[at as int].id, self@[i].id, id@);
                }
            }
        }
        at
    }

    /// Is a frame held for provider `id`?
    pub fn holds(&self, id: &str) -> (r: bool)
        requires
            self.wf(),
        ensures
            r == self.frames().contains_key(id@),
    {
        let at: usize = self.position(id);
        if at < self.entries.len() && same(self.entries[at].id.as_str(), id) {
            assert(entry_is(self@, at as int, id@));
            true
        } else {
            proof {
                self.lemma_not_held(id@, at as int);
            }
            false
        }
    }

    /// Where the entry at the place of `id` is not that of `id`, no entry is.
    proof fn lemma_not_held(&self, id: Seq<char>, at: int)
        requires
            self.wf(),
            0 <= at <= self@.len(),
            forall|i: int| 0 <= i < at ==> before((#[trigger] self@[i]).id, id),
            forall|i: int| at <= i < self@.len() ==> !before((#[trigger] self@[i]).id, id),
            at < self@.len() ==> self@[at].id != id,
        ensures
            !self.frames().contains_key(id),
    {
        assert forall|i: int| !entry_is(self@, i, id) by {
            if entry_is(self@, i, id) {
                lemma_before_irreflexive(id);
                assert(at <= i);
                if at < i {
                    assert(before(self@[at].id, self@[i].id));
                }
            }
        }
    }

    /// Holds `state` for provider `id`, in place of what was held for it.
    pub fn insert(&mut self, id: &str, state: HealthState)
        requires
            old(self).wf(),
        ensures
            final(self).wf(),
            final(self).frames() == old(self).frames().insert(id@, state@),
    {
        let at: usize = self.position(id);
        let ghost was = self@;
        let entry = ProviderEntry { id: id.to_owned(), state };
        let ghost held = entry@;
        if at < self.entries.len() && same(self.entries[at].id.as_str(), id) {
            assert(was[at as int].id == id@);
            self.entries[at] = entry;
            assert(self@ =~= was.update(at as int, held));
            proof {
                lemma_updated(was, at as int, held);
            }
        } else {
            proof {
                if at < was.len() {
                    assert(was[at as int] == self.entries@[at as int]@);
                }
            }
            self.entries.insert(at, entry);
            assert(self@ =~= was.insert(at as int, held));
            proof {
                lemma_inserted(was, at as int, held);
            }
        }
    }

    /// Gives up what is held for provider `id`. Says whether anything was.
    pub fn remove(&mut self, id: &str) -> (r: bool)
        requires
            old(self).wf(),
        ensures
            final(self).wf(),
            r == old(self).frames().contains_key(id@),
            final(self).frames() == old(self).frames().remove(id@),
    {
        let at: usize = self.position(id);
        let ghost was = self@;
        if at < self.entries.len() && same(self.entries[at].id.as_str(), id) {
            assert(entry_is(was, at as int, id@));
            self.entries.remove(at);
            assert(self@ =~= was.remove(at as int));
            proof {
                lemma_removed(was, at as int);
            }
            true
        } else {
            proof {
                self.lemma_not_held(id@, at as int);
                assert(was =~= self@);
                assert(frames(was).remove(id@) =~= frames(was));
            }
            false
        }
    }
}

/// Replacing the frame of an entry replaces it in the frames that are held.
proof fn lemma_updated(entries: Seq<EntryView>, at: int, entry: EntryView)
    requires
        ordered(entries),
        0 <= at < entries.len(),
        entries[at].id == entry.id,
    ensures
        ordered(entries.update(at, entry)),
        frames(entries.update(at, entry)) == frames(entries).insert(entry.id, entry.state),
{
    let now = entries.update(at, entry);
    assert(ordered(now));
    let expected = frames(entries).insert(entry.id, entry.state);
    assert forall|id: Seq<char>| frames(now).contains_key(id) == expected.contains_key(id) by {
        if frames(now).contains_key(id) {
            let i = choose|i: int| entry_is(now, i, id);
            assert(entry_is(entries, i, id));
        }
        if expected.contains_key(id) {
            if id == entry.id {
                assert(entry_is(now, at, id));
            } else {
                let i = choose|i: int| entry_is(entries, i, id);
                assert(entry_is(now, i, id));
            }
        }
    }
    assert forall|id: Seq<char>| frames(now).contains_key(id) implies frames(now)[id]
        == expected[id] by {
        let i = choose|i: int| entry_is(now, i, id);
        lemma_frame_of_entry(now, i);
        lemma_frame_of_entry(entries, i);
        lemma_before_irreflexive(id);
    }
    assert(frames(now) =~= expected);
}

/// An entry that goes where its id belongs keeps the order and adds its frame.
proof fn lemma_inserted(entries: Seq<EntryView>, at: int, entry: EntryView)
    requires
        ordered(entries),
        0 <= at <= entries.len(),
        forall|i: int| 0 <= i < at ==> before((#[trigger] entries[i]).id, entry.id),
        forall|i: int| at <= i < entries.len() ==> !before((#[trigger] entries[i]).id, entry.id),
        at < entries.len() ==> entries[at].id != entry.id,
    ensures
        ordered(entries.insert(at, entry)),
        frames(entries.insert(at, entry)) == frames(entries).insert(entry.id, entry.state),
{
    let now = entries.insert(at, entry);
    assert forall|i: int| at <= i < entries.len() implies before(
        entry.id,
        (#[trigger] entries[i]).id,
    ) by {
        lemma_before_total(entry.id, entries[at].id);
        assert(!before(entries[at].id, entry.id));
        if i > at {
            lemma_before_transitive(entry.id, entries[at].id, entries[i].id);
        }
    }
    assert forall|i: int, j: int|
        #![trigger now[i], now[j]]
        0 <= i < j < now.len() implies before(now[i].id, now[j].id) by {
        if j < at {
            assert(now[i] == entries[i] && now[j] == entries[j]);
        } else if j == at {
            assert(now[i] == entries[i]);
        } else if i < at {
            assert(now[i] == entries[i] && now[j] == entries[j - 1]);
        } else if i == at {
            assert(now[j] == entries[j - 1]);
        } else {
            assert(now[i] == entries[i - 1] && now[j] == entries[j - 1]);
        }
    }
    let expected = frames(entries).insert(entry.id, entry.state);
    assert forall|id: Seq<char>| frames(now).contains_key(id) == expected.contains_key(id) by {
        if frames(now).contains_key(id) {
            let i = choose|i: int| entry_is(now, i, id);
            if i < at {
                assert(entry_is(entries, i, id));
            } else if i > at {
                assert(entry_is(entries, i - 1, id));
            }
        }
        if expected.contains_key(id) {
            if id == entry.id {
                assert(entry_is(now, at, id));
            } else {
                let i = choose|i: int| entry_is(entries, i, id);
                if i < at {
                    assert(entry_is(now, i, id));
                } else {
                    assert(entry_is(now, i + 1, id));
                }
            }
        }
    }
    assert forall|id: Seq<char>| frames(now).contains_key(id) implies frames(now)[id]
        == expected[id] by {
        let i = choose|i: int| entry_is(now, i, id);
        lemma_frame_of_entry(now, i);
        lemma_before_irreflexive(id);
        if i < at {
            assert(now[i] == entries[i]);
            lemma_frame_of_entry(entries, i);
        } else if i > at {
            assert(now[i] == entries[i - 1]);
            lemma_frame_of_entry(entries, i - 1);
        }
    }
    assert(frames(now) =~= expected);
}

/// Taking an entry out keeps the order and takes its frame out.
proof fn lemma_removed(entries: Seq<EntryView>, at: int)
    requires
        ordered(entries),
        0 <= at < entries.len(),
    ensures
        ordered(entries.remove(at)),
        frames(entries.remove(at)) == frames(entries).remove(entries[at].id),
{
    let now = entries.remove(at);
    let gone = entries[at].id;
    assert forall|i: int, j: int|
        #![trigger now[i], now[j]]
        0 <= i < j < now.len() implies before(now[i].id, now[j].id) by {
        let a = if i < at {
            i
        } else {
            i + 1
        };
        let b = if j < at {
            j
        } else {
            j + 1
        };
        assert(now[i] == entries[a] && now[j] == entries[b]);
    }
    let expected = frames(entries).remove(gone);
    assert forall|id: Seq<char>| frames(now).contains_key(id) == expected.contains_key(id) by {
        if frames(now).contains_key(id) {
            let i = choose|i: int| entry_is(now, i, id);
            let a = if i < at {
                i
            } else {
                i + 1
            };
            assert(entry_is(entries, a, id));
            lemma_before_irreflexive(id);
            if a < at {
                assert(before(entries[a].id, entries[at].id));
            } else {
                assert(before(entries[at].id, entries[a].id));
            }
        }
        if expected.contains_key(id) {
            let a = choose|a: int| entry_is(entries, a, id);
            assert(entry_is(
                now,
                if a < at {
                    a
                } else {
                    a - 1
                },
                id,
            ));
        }
    }
    assert forall|id: Seq<char>| frames(now).contains_key(id) implies frames(now)[id]
        == expected[id] by {
        let i = choose|i: int| entry_is(now, i, id);
        let a = if i < at {
            i
        } else {
            i + 1
        };
        assert(now[i] == entries[a]);
        assert(expected.contains_key(id));
        lemma_frame_of_entry(now, i);
        lemma_frame_of_entry(entries, a);
    }
    assert(frames(now) =~= expected);
}

/// The table lists what it holds in one way only: two tables that hold the
/// same frames are the same, whatever happened to them before.
pub proof fn law_frames_determine_the_listing(a: Seq<EntryView>, b: Seq<EntryView>)
    requires
        ordered(a),
        ordered(b),
        frames(a) == frames(b),
    ensures
        a == b,
    decreases a.len(),
{
    if a.len() == 0 {
        if b.len() > 0 {
            lemma_frame_of_entry(b, 0);
            assert(!frames(a).contains_key(b[0].id));
        }
        assert(a =~= b);
    } else {
        let last = a.len() - 1;
        lemma_frame_of_entry(a, last);
        assert(frames(b).contains_key(a[last].id));
        let k = choose|k: int| entry_is(b, k, a[last].id);
        let end = b.len() - 1;
        lemma_frame_of_entry(b, end);
        let m = choose|m: int| entry_is(a, m, b[end].id);
        lemma_frame_of_entry(b, k);
        if k < end {
            assert(before(b[k].id, b[end].id));
            lemma_before_irreflexive(b[end].id);
            if m < last {
                lemma_before_transitive(a[m].id, a[last].id, a[m].id);
            }
        }
        assert(k == end);
        assert(a[last] =~= b[end]);
        lemma_removed(a, last);
        lemma_removed(b, end);
        law_frames_determine_the_listing(a.remove(last), b.remove(end));
        assert(a =~= a.remove(last).push(a[last]));
        assert(b =~= b.remove(end).push(b[end]));
    }
}

/// The table lists as many entries as there are providers.
pub proof fn law_one_entry_per_provider(entries: Seq<EntryView>)
    requires
        ordered(entries),
    ensures
        frames(entries).dom().finite(),
        frames(entries).len() == entries.len(),
    decreases entries.len(),
{
    if entries.len() == 0 {
        assert(frames(entries).dom() =~= Set::<Seq<char>>::empty());
    } else {
        let last = entries.len() - 1;
        let id = entries[last].id;
        lemma_removed(entries, last);
        lemma_frame_of_entry(entries, last);
        law_one_entry_per_provider(entries.remove(last));
        assert(frames(entries).dom() =~= frames(entries.remove(last)).dom().insert(id));
    }
}

/// A frame is held for a provider exactly where an entry of that provider is
/// listed, and it is the frame of that entry.
pub proof fn law_frames_are_what_is_listed(entries: Seq<EntryView>, id: Seq<char>)
    requires
        ordered(entries),
    ensures
        frames(entries).contains_key(id) <==> exists|i: int|
            0 <= i < entries.len() && (#[trigger] entries[i]).id == id,
        forall|i: int|
            0 <= i < entries.len() && (#[trigger] entries[i]).id == id ==> frames(entries)[id]
                == entries[i].state,
{
    assert forall|i: int| 0 <= i < entries.len() && (#[trigger] entries[i]).id == id implies frames(
        entries,
    ).contains_key(id) && frames(entries)[id] == entries[i].state by {
        lemma_frame_of_entry(entries, i);
    }
    if frames(entries).contains_key(id) {
        let i = choose|i: int| entry_is(entries, i, id);
        assert(entries[i].id == id);
    }
}

/// The entries are listed in the order of code points of their ids: where two
/// of them differ, the one with the smaller character comes first, and one that
/// another one continues comes before that.
pub proof fn law_entries_are_listed_in_order(entries: Seq<EntryView>, i: int, j: int, k: int)
    requires
        ordered(entries),
        0 <= i < j < entries.len(),
        0 <= k <= entries[i].id.len(),
        k <= entries[j].id.len(),
        entries[i].id.take(k) == entries[j].id.take(k),
    ensures
        entries[i].id != entries[j].id,
        k < entries[i].id.len() ==> k < entries[j].id.len() && entries[i].id[k] as int
            <= entries[j].id[k] as int,
{
    let a = entries[i].id;
    let b = entries[j].id;
    lemma_before_irreflexive(a);
    law_order_of_texts(a, b);
    let m = choose|m: int|
        0 <= m <= a.len() && m < b.len() && a.take(m) == #[trigger] b.take(m) && (m == a.len()
            || (a[m] as int) < (b[m] as int));
    if k < a.len() {
        if m < k {
            assert(a.take(k)[m] == b.take(k)[m]);
        } else if m > k {
            assert(a.take(m)[k] == b.take(m)[k]);
        }
    }
}

/// The view of an entry shows its provider and its frame.
pub proof fn law_entry_view(entry: ProviderEntry)
    ensures
        entry@.id == entry.id@,
        entry@.state == entry.state@,
{
}

} // verus!
