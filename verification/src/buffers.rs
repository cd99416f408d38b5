//! The buffer store: the text of every open document, keyed by its title and
//! kept in ascending title order.

use crate::title_order::lemma_title_precedes_asymmetric;
use crate::title_order::lemma_title_precedes_transitive;
use crate::title_order::title_order;
use crate::title_order::title_precedes;
use crate::title_order::TitleOrder;
use vstd::prelude::*;

verus! {

/// A title with the text stored under it.
pub type Pair = (Seq<char>, Seq<char>);

/// Every pair's title precedes the titles of all pairs after it.
pub open spec fn ascending(pairs: Seq<Pair>) -> bool {
    forall|i: int, j: int| 0 <= i < j < pairs.len() ==> title_precedes(#[trigger] pairs[i].0, #[trigger] pairs[j].0)
}

/// Some pair carries this title.
pub open spec fn has_title(pairs: Seq<Pair>, title: Seq<char>) -> bool {
    exists|i: int| 0 <= i < pairs.len() && (#[trigger] pairs[i]).0 == title
}

/// The position of a pair that carries this title.
pub open spec fn index_of(pairs: Seq<Pair>, title: Seq<char>) -> int {
    choose|i: int| 0 <= i < pairs.len() && (#[trigger] pairs[i]).0 == title
}

/// The mapping that a sequence of pairs stands for.
pub open spec fn map_of(pairs: Seq<Pair>) -> Map<Seq<char>, Seq<char>> {
    Map::new(|t: Seq<char>| has_title(pairs, t), |t: Seq<char>| pairs[index_of(pairs, t)].1)
}

/// In an ascending sequence no title occurs twice.
pub proof fn lemma_ascending_distinct(pairs: Seq<Pair>, i: int, j: int)
    requires
        ascending(pairs),
        0 <= i < pairs.len(),
        0 <= j < pairs.len(),
        pairs[i].0 == pairs[j].0,
    ensures
        i == j,
{
    if i < j {
        lemma_title_precedes_asymmetric(pairs[i].0, pairs[j].0);
    } else if j < i {
        lemma_title_precedes_asymmetric(pairs[j].0, pairs[i].0);
    }
}

/// In an ascending sequence the mapping sends each title to the text it is
/// paired with.
pub proof fn lemma_map_of_at(pairs: Seq<Pair>, i: int)
    requires
        ascending(pairs),
        0 <= i < pairs.len(),
    ensures
        map_of(pairs).contains_key(pairs[i].0),
        map_of(pairs)[pairs[i].0] == pairs[i].1,
        index_of(pairs, pairs[i].0) == i,
{
    let t = pairs[i].0;
    assert(has_title(pairs, t));
    lemma_ascending_distinct(pairs, i, index_of(pairs, t));
}

/// A title that stands strictly between the titles left and right of a
/// position is not among the pairs.
proof fn lemma_gap_has_no_title(pairs: Seq<Pair>, at: int, title: Seq<char>)
    requires
        0 <= at <= pairs.len(),
        forall|j: int| 0 <= j < at ==> title_precedes(#[trigger] pairs[j].0, title),
        forall|j: int| at <= j < pairs.len() ==> title_precedes(title, #[trigger] pairs[j].0),
    ensures
        !has_title(pairs, title),
{
    if has_title(pairs, title) {
        let i = index_of(pairs, title);
        if i < at {
            lemma_title_precedes_asymmetric(pairs[i].0, title);
        } else {
            lemma_title_precedes_asymmetric(title, pairs[i].0);
        }
    }
}

/// Putting a new title into its gap keeps the order and adds one key.
proof fn lemma_insert_pair(pairs: Seq<Pair>, at: int, pair: Pair)
    requires
        ascending(pairs),
        0 <= at <= pairs.len(),
        forall|j: int| 0 <= j < at ==> title_precedes(#[trigger] pairs[j].0, pair.0),
        forall|j: int| at <= j < pairs.len() ==> title_precedes(pair.0, #[trigger] pairs[j].0),
    ensures
        ascending(pairs.insert(at, pair)),
        map_of(pairs.insert(at, pair)) == map_of(pairs).insert(pair.0, pair.1),
{
    let after = pairs.insert(at, pair);
    assert(ascending(after)) by {
        assert forall|i: int, j: int| 0 <= i < j < after.len() implies title_precedes(
            #[trigger] after[i].0,
            #[trigger] after[j].0,
        ) by {
            let oi = if i < at { i } else { i - 1 };
            let oj = if j < at { j } else { j - 1 };
            if i != at && j != at {
                assert(after[i] == pairs[oi]);
                assert(after[j] == pairs[oj]);
            } else if i == at {
                assert(after[j] == pairs[oj]);
            } else {
                assert(after[i] == pairs[oi]);
            }
        }
    }
    assert forall|t: Seq<char>| #[trigger] has_title(after, t) <==> (t == pair.0 || has_title(pairs, t)) by {
        if has_title(after, t) && t != pair.0 {
            let i = index_of(after, t);
            let oi = if i < at { i } else { i - 1 };
            assert(after[i] == pairs[oi]);
        }
        if has_title(pairs, t) {
            let oi = index_of(pairs, t);
            let i = if oi < at { oi } else { oi + 1 };
            assert(after[i] == pairs[oi]);
        }
        if t == pair.0 {
            assert(after[at] == pair);
        }
    }
    assert forall|t: Seq<char>| has_title(after, t) implies #[trigger] map_of(after)[t] == map_of(pairs).insert(
        pair.0,
        pair.1,
    )[t] by {
        let i = index_of(after, t);
        lemma_map_of_at(after, i);
        if i == at {
        } else {
            let oi = if i < at { i } else { i - 1 };
            assert(after[i] == pairs[oi]);
            lemma_map_of_at(pairs, oi);
            if t == pair.0 {
                assert(after[at] == pair);
                lemma_ascending_distinct(after, i, at);
            }
        }
    }
    assert(map_of(after) =~= map_of(pairs).insert(pair.0, pair.1));
}

/// Changing the text of a pair keeps the order and rebinds its key.
proof fn lemma_update_pair(pairs: Seq<Pair>, at: int, content: Seq<char>)
    requires
        ascending(pairs),
        0 <= at < pairs.len(),
    ensures
        ascending(pairs.update(at, (pairs[at].0, content))),
        map_of(pairs.update(at, (pairs[at].0, content))) == map_of(pairs).insert(pairs[at].0, content),
{
    let title = pairs[at].0;
    let after = pairs.update(at, (title, content));
    assert(ascending(after)) by {
        assert forall|i: int, j: int| 0 <= i < j < after.len() implies title_precedes(
            #[trigger] after[i].0,
            #[trigger] after[j].0,
        ) by {
            assert(after[i].0 == pairs[i].0);
            assert(after[j].0 == pairs[j].0);
        }
    }
    assert forall|t: Seq<char>| #[trigger] has_title(after, t) <==> has_title(pairs, t) by {
        if has_title(after, t) {
            let i = index_of(after, t);
            assert(pairs[i].0 == t);
        }
        if has_title(pairs, t) {
            let i = index_of(pairs, t);
            assert(after[i].0 == t);
        }
    }
    assert(has_title(pairs, title)) by {
        assert(pairs[at].0 == title);
    }
    assert forall|t: Seq<char>| has_title(after, t) implies #[trigger] map_of(after)[t] == map_of(pairs).insert(
        title,
        content,
    )[t] by {
        let i = index_of(after, t);
        lemma_map_of_at(after, i);
        if i != at {
            assert(after[i] == pairs[i]);
            lemma_map_of_at(pairs, i);
            if t == title {
                lemma_ascending_distinct(after, i, at);
            }
        }
    }
    assert(map_of(after) =~= map_of(pairs).insert(title, content));
}

/// Taking a pair out keeps the order and drops its key.
proof fn lemma_remove_pair(pairs: Seq<Pair>, at: int)
    requires
        ascending(pairs),
        0 <= at < pairs.len(),
    ensures
        ascending(pairs.remove(at)),
        map_of(pairs.remove(at)) == map_of(pairs).remove(pairs[at].0),
{
    let title = pairs[at].0;
    let after = pairs.remove(at);
    assert(ascending(after)) by {
        assert forall|i: int, j: int| 0 <= i < j < after.len() implies title_precedes(
            #[trigger] after[i].0,
            #[trigger] after[j].0,
        ) by {
            let oi = if i < at { i } else { i + 1 };
            let oj = if j < at { j } else { j + 1 };
            assert(after[i] == pairs[oi]);
            assert(after[j] == pairs[oj]);
        }
    }
    assert forall|t: Seq<char>| #[trigger] has_title(after, t) <==> (t != title && has_title(pairs, t)) by {
        if has_title(after, t) {
            let i = index_of(after, t);
            let oi = if i < at { i } else { i + 1 };
            assert(after[i] == pairs[oi]);
            if t == title {
                lemma_ascending_distinct(pairs, oi, at);
            }
        }
        if t != title && has_title(pairs, t) {
            let oi = index_of(pairs, t);
            let i = if oi < at { oi } else { oi - 1 };
            assert(after[i] == pairs[oi]);
        }
    }
    assert forall|t: Seq<char>| has_title(after, t) implies #[trigger] map_of(after)[t] == map_of(pairs).remove(
        title,
    )[t] by {
        let i = index_of(after, t);
        let oi = if i < at { i } else { i + 1 };
        lemma_map_of_at(after, i);
        assert(after[i] == pairs[oi]);
        lemma_map_of_at(pairs, oi);
    }
    assert(map_of(after) =~= map_of(pairs).remove(title));
}

/// An ascending sequence stands for a finite mapping with one key per pair.
pub proof fn lemma_map_of_len(pairs: Seq<Pair>)
    requires
        ascending(pairs),
    ensures
        map_of(pairs).dom().finite(),
        map_of(pairs).dom().len() == pairs.len(),
    decreases pairs.len(),
{
    if pairs.len() == 0 {
        assert(map_of(pairs).dom() =~= Set::<Seq<char>>::empty());
    } else {
        let front = pairs.drop_last();
        let last = pairs.last();
        assert(ascending(front)) by {
            assert forall|i: int, j: int| 0 <= i < j < front.len() implies title_precedes(
                #[trigger] front[i].0,
                #[trigger] front[j].0,
            ) by {
                assert(front[i] == pairs[i]);
                assert(front[j] == pairs[j]);
            }
        }
        lemma_map_of_len(front);
        assert forall|j: int| 0 <= j < front.len() implies title_precedes(#[trigger] front[j].0, last.0) by {
            assert(front[j] == pairs[j]);
            assert(last == pairs[pairs.len() - 1]);
        }
        lemma_gap_has_no_title(front, front.len() as int, last.0);
        lemma_insert_pair(front, front.len() as int, last);
        assert(front.insert(front.len() as int, last) =~= pairs);
        assert(map_of(pairs).dom() =~= map_of(front).dom().insert(last.0));
    }
}

/// The stored order is a function of the mapping: two ascending sequences
/// that stand for the same mapping are the same sequence. So whatever keeps
/// the mapping, such as writing the entries out and inserting them again,
/// keeps the order too.
pub proof fn lemma_pairs_determined_by_map(p: Seq<Pair>, q: Seq<Pair>)
    requires
        ascending(p),
        ascending(q),
        map_of(p) == map_of(q),
    ensures
        p == q,
    decreases p.len(),
{
    lemma_map_of_len(p);
    lemma_map_of_len(q);
    if p.len() > 0 {
        let last = p.len() - 1;
        lemma_map_of_at(p, last);
        lemma_map_of_at(q, last);
        assert(has_title(q, p[last].0));
        assert(has_title(p, q[last].0));
        let j = index_of(q, p[last].0);
        let i = index_of(p, q[last].0);
        if j < last {
            lemma_title_precedes_asymmetric(q[j].0, q[last].0);
            if i < last {
                lemma_title_precedes_transitive(q[j].0, p[i].0, p[last].0);
                lemma_title_precedes_asymmetric(q[j].0, p[last].0);
            }
        }
        assert(q[last].0 == p[last].0);
        assert(q[last] == p[last]);
        lemma_remove_pair(p, last);
        lemma_remove_pair(q, last);
        assert(p.remove(last) =~= p.drop_last());
        assert(q.remove(last) =~= q.drop_last());
        lemma_pairs_determined_by_map(p.drop_last(), q.drop_last());
        assert(p =~= p.drop_last().push(p[last]));
        assert(q =~= q.drop_last().push(q[last]));
    } else {
        assert(q.len() == 0);
        assert(p =~= q);
    }
}

/// One open document: its title and its text.
#[derive(Debug)]
struct Entry {
    title: String,
    content: String,
}

impl Entry {
    /// The title and the text, as a pair of character sequences.
    spec fn pair(self) -> Pair {
        (self.title@, self.content@)
    }
}

/// The text of every open document, under its title.
#[derive(Debug)]
pub struct BufferStore {
    entries: Vec<Entry>,
}

impl View for BufferStore {
    type V = Map<Seq<char>, Seq<char>>;

    /// The store as a mapping from title to text.
    open spec fn view(&self) -> Map<Seq<char>, Seq<char>> {
        map_of(self.pairs())
    }
}

impl BufferStore {
    /// The entries in stored order.
    pub closed spec fn pairs(&self) -> Seq<Pair> {
        self.entries@.map_values(|e: Entry| e.pair())
    }

    /// The store's invariant: titles ascend strictly, so none occurs twice.
    pub open spec fn wf(&self) -> bool {
        ascending(self.pairs())
    }

    /// An empty store.
    pub fn new() -> (store: BufferStore)
        ensures
            store.wf(),
            store.pairs() == Seq::<Pair>::empty(),
            store@ == Map::<Seq<char>, Seq<char>>::empty(),
    {
        let store = BufferStore { entries: Vec::new() };
        assert(store.pairs() =~= Seq::<Pair>::empty());
        assert(store@ =~= Map::<Seq<char>, Seq<char>>::empty());
        store
    }

    /// The number of entries.
    pub fn len(&self) -> (n: usize)
        requires
            self.wf(),
        ensures
            n == self.pairs().len(),
            n == self@.dom().len(),
    {
        proof {
            lemma_map_of_len(self.pairs());
        }
        self.entries.len()
    }

    /// Whether the store holds no entry.
    pub fn is_empty(&self) -> (empty: bool)
        requires
            self.wf(),
        ensures
            empty == (self.pairs().len() == 0),
            empty == (self@ == Map::<Seq<char>, Seq<char>>::empty()),
    {
        proof {
            lemma_map_of_len(self.pairs());
            if self.pairs().len() == 0 {
                assert(self@ =~= Map::<Seq<char>, Seq<char>>::empty());
            }
        }
        self.entries.len() == 0
    }

    /// The title of the entry at position `i` of the ascending order.
    pub fn title_at(&self, i: usize) -> (title: &String)
        requires
            i < self.pairs().len(),
        ensures
            title@ == self.pairs()[i as int].0,
    {
        &self.entries[i].title
    }

    /// The text of the entry at position `i` of the ascending order.
    pub fn content_at(&self, i: usize) -> (content: &String)
        requires
            i < self.pairs().len(),
        ensures
            content@ == self.pairs()[i as int].1,
    {
        &self.entries[i].content
    }

    /// Where `title` stands among the entries: the position of its entry
    /// if it has one, else the position at which it would be inserted.
    fn locate(&self, title: &str) -> (place: (usize, bool))
        requires
            self.wf(),
        ensures
            place.0 <= self.pairs().len(),
            place.1 ==> place.0 < self.pairs().len() && self.pairs()[place.0 as int].0 == title@,
            !place.1 ==> forall|j: int| 0 <= j < place.0 ==> title_precedes(#[trigger] self.pairs()[j].0, title@),
            !place.1 ==> forall|j: int|
                place.0 <= j < self.pairs().len() ==> title_precedes(title@, #[trigger] self.pairs()[j].0),
            place.1 == has_title(self.pairs(), title@),
    {
        let ghost pairs = self.pairs();
        let mut lo: usize = 0;
        let mut hi: usize = self.entries.len();
        while lo < hi
            invariant
                self.wf(),
                pairs == self.pairs(),
                lo <= hi <= pairs.len(),
                pairs.len() == self.entries.len(),
                forall|j: int| 0 <= j < lo ==> title_precedes(#[trigger] pairs[j].0, title@),
                forall|j: int| hi <= j < pairs.len() ==> title_precedes(title@, #[trigger] pairs[j].0),
            decreases hi - lo,
        {
            let mid: usize = lo + (hi - lo) / 2;
            assert(pairs[mid as int] == self.entries[mid as int].pair());
            match title_order(self.entries[mid].title.as_str(), title) {
                TitleOrder::Before => {
                    proof {
                        assert forall|j: int| 0 <= j < mid + 1 implies title_precedes(
                            #[trigger] pairs[j].0,
                            title@,
                        ) by {
                            if j < mid {
                                lemma_title_precedes_transitive(pairs[j].0, pairs[mid as int].0, title@);
                            }
                        }
                    }
                    lo = mid + 1;
                },
                TitleOrder::Same => {
                    return (mid, true);
                },
                TitleOrder::After => {
                    proof {
                        assert forall|j: int| mid <= j < pairs.len() implies title_precedes(
                            title@,
                            #[trigger] pairs[j].0,
                        ) by {
                            if mid < j {
                                lemma_title_precedes_transitive(title@, pairs[mid as int].0, pairs[j].0);
                            }
                        }
                    }
                    hi = mid;
                },
            }
        }
        proof {
            lemma_gap_has_no_title(pairs, lo as int, title@);
        }
        (lo, false)
    }

    /// Whether the store has an entry under `title`.
    pub fn contains(&self, title: &str) -> (present: bool)
        requires
            self.wf(),
        ensures
            present == self@.contains_key(title@),
    {
        self.locate(title).1
    }

    /// The text stored under `title`, if there is an entry.
    pub fn get(&self, title: &str) -> (content: Option<&String>)
        requires
            self.wf(),
        ensures
            content is Some <==> self@.contains_key(title@),
            content matches Some(text) ==> text@ == self@[title@],
    {
        let (at, found) = self.locate(title);
        if found {
            proof {
                assert(self.pairs()[at as int] == self.entries[at as int].pair());
                lemma_map_of_at(self.pairs(), at as int);
            }
            Some(&self.entries[at].content)
        } else {
            None
        }
    }

    /// The text stored under `title`, open for editing in place. Whatever
    /// the caller writes through the reference becomes the text under
    /// `title`; no other entry changes.
    pub fn get_mut(&mut self, title: &str) -> (content: Option<&mut String>)
        requires
            old(self).wf(),
        ensures
            content is Some <==> old(self)@.contains_key(title@),
            match content {
                Some(text) => {
                    &&& text@ == old(self)@[title@]
                    &&& final(self).pairs() == old(self).pairs().update(
                        index_of(old(self).pairs(), title@),
                        (title@, final(text)@),
                    )
                    &&& final(self).wf()
                    &&& final(self)@ == old(self)@.insert(title@, final(text)@)
                },
                None => *final(self) == *old(self),
            },
    {
        let (at, found) = self.locate(title);
        if found {
            let ghost before = self.pairs();
            proof {
                assert(before[at as int] == self.entries[at as int].pair());
                lemma_map_of_at(before, at as int);
            }
            let text = &mut self.entries[at].content;
            proof {
                lemma_update_pair(before, at as int, final(text)@);
            }
            Some(text)
        } else {
            None
        }
    }

    /// Stores `content` under `title`. An entry that was there is
    /// overwritten; the text it held is handed back.
    pub fn insert(&mut self, title: String, content: String) -> (displaced: Option<String>)
        requires
            old(self).wf(),
        ensures
            final(self).wf(),
            final(self)@ == old(self)@.insert(title@, content@),
            displaced is Some <==> old(self)@.contains_key(title@),
            displaced matches Some(text) ==> text@ == old(self)@[title@],
    {
        let (at, found) = self.locate(title.as_str());
        let ghost before = self.pairs();
        if found {
            proof {
                assert(before[at as int] == self.entries[at as int].pair());
                lemma_map_of_at(before, at as int);
                lemma_update_pair(before, at as int, content@);
            }
            let mut slot = Entry { title, content };
            core::mem::swap(&mut slot, &mut self.entries[at]);
            assert(self.pairs() =~= before.update(at as int, (title@, content@)));
            Some(slot.content)
        } else {
            proof {
                lemma_insert_pair(before, at as int, (title@, content@));
            }
            self.entries.insert(at, Entry { title, content });
            assert(self.pairs() =~= before.insert(at as int, (title@, content@)));
            None
        }
    }

    /// Deletes the entry under `title` and hands its text back. Where there
    /// is no such entry, nothing changes.
    pub fn remove(&mut self, title: &str) -> (removed: Option<String>)
        requires
            old(self).wf(),
        ensures
            final(self).wf(),
            final(self)@ == old(self)@.remove(title@),
            removed is Some <==> old(self)@.contains_key(title@),
            removed matches Some(text) ==> text@ == old(self)@[title@],
            removed is None ==> *final(self) == *old(self),
    {
        let (at, found) = self.locate(title);
        let ghost before = self.pairs();
        if found {
            proof {
                assert(before[at as int] == self.entries[at as int].pair());
                lemma_map_of_at(before, at as int);
                lemma_remove_pair(before, at as int);
            }
            let entry = self.entries.remove(at);
            assert(self.pairs() =~= before.remove(at as int));
            Some(entry.content)
        } else {
            assert(self@ =~= self@.remove(title@));
            None
        }
    }

    /// Removes all entries.
    pub fn clear(&mut self)
        ensures
            final(self).wf(),
            final(self).pairs() == Seq::<Pair>::empty(),
            final(self)@ == Map::<Seq<char>, Seq<char>>::empty(),
    {
        self.entries.clear();
        assert(self.pairs() =~= Seq::<Pair>::empty());
        assert(self@ =~= Map::<Seq<char>, Seq<char>>::empty());
    }
}

} // verus!
