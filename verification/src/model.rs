//! The tab lifecycle as a state machine over plain mathematical values, and
//! the laws that hold of it.
//!
//! A state is the multiset of titles in the layout together with the mapping
//! from title to text in the buffer store. A request takes one state to the
//! next; a drain applies a queue of requests from the front.

use crate::titles::lemma_untitled_injective;
use crate::titles::untitled;
use vstd::multiset::Multiset;
use vstd::prelude::*;
use vstd::seq_lib::group_to_multiset_ensures;

verus! {

/// A lifecycle request, as a mathematical value.
pub enum Request {
    /// A tab slot was added at this surface and node and needs a document.
    CreateTab { surface: nat, node: nat },
    /// The tab with this title no longer needs its document.
    CloseTab { title: Seq<char> },
}

/// What the lifecycle reads of the application: which titles the layout
/// shows, and which text is stored under which title.
pub struct TabState {
    pub titles: Multiset<Seq<char>>,
    pub buffers: Map<Seq<char>, Seq<char>>,
}

/// `k` is the number of the first default title that the layout does not
/// show.
pub open spec fn is_first_unused(titles: Multiset<Seq<char>>, k: nat) -> bool {
    &&& 1 <= k
    &&& !titles.contains(untitled(k))
    &&& forall|j: nat| 1 <= j < k ==> titles.contains(#[trigger] untitled(j))
}

/// The number of the first default title that the layout does not show,
/// among the first `limit` of them; `None` where it shows them all.
pub open spec fn first_unused(titles: Multiset<Seq<char>>, limit: nat) -> Option<nat> {
    if exists|k: nat| k <= limit && is_first_unused(titles, k) {
        Some(choose|k: nat| k <= limit && is_first_unused(titles, k))
    } else {
        None
    }
}

/// The state after one request.
///
/// Creating a tab takes the first unused default title, stores an empty text
/// under it and shows it in the layout; where the search limit is used up,
/// nothing changes. Closing a tab deletes its text and leaves the layout as
/// it is.
pub open spec fn step(s: TabState, r: Request, limit: nat) -> TabState {
    match r {
        Request::CreateTab { .. } => match first_unused(s.titles, limit) {
            Some(k) => TabState {
                titles: s.titles.insert(untitled(k)),
                buffers: s.buffers.insert(untitled(k), Seq::empty()),
            },
            None => s,
        },
        Request::CloseTab { title } => TabState { titles: s.titles, buffers: s.buffers.remove(title) },
    }
}

/// Whether a request cannot be served in a state: it asks for a tab and the
/// search limit is used up.
pub open spec fn fails(s: TabState, r: Request, limit: nat) -> bool {
    r is CreateTab && first_unused(s.titles, limit) is None
}

/// The state after a queue of requests, applied from the front.
pub open spec fn run(s: TabState, queue: Seq<Request>, limit: nat) -> TabState
    decreases queue.len(),
{
    if queue.len() == 0 {
        s
    } else {
        step(run(s, queue.drop_last(), limit), queue.last(), limit)
    }
}

/// Whether the request at position `i` of a queue cannot be served when its
/// turn comes, after the requests before it.
pub open spec fn fails_at(s: TabState, queue: Seq<Request>, i: int, limit: nat) -> bool {
    fails(run(s, queue.take(i), limit), queue[i], limit)
}

/// Whether some request of a queue cannot be served when its turn comes.
pub open spec fn any_fails(s: TabState, queue: Seq<Request>, limit: nat) -> bool {
    exists|i: int| 0 <= i < queue.len() && #[trigger] fails_at(s, queue, i, limit)
}

/// Every title that the layout shows has a text in the buffer store.
pub open spec fn consistent(s: TabState) -> bool {
    forall|t: Seq<char>| s.titles.contains(t) ==> s.buffers.contains_key(t)
}

/// No title is shown by two tabs.
pub open spec fn titles_distinct(s: TabState) -> bool {
    forall|t: Seq<char>| s.titles.count(t) <= 1
}

/// No close request of the queue names a title that the layout still shows
/// when the request's turn comes.
pub open spec fn closes_only_hidden(s: TabState, queue: Seq<Request>, limit: nat) -> bool {
    forall|i: int|
        0 <= i < queue.len() && (#[trigger] queue[i]) is CloseTab ==> !run(s, queue.take(i), limit).titles.contains(
            queue[i]->title,
        )
}

/// The first `n` default titles in order.
pub open spec fn numbered_titles(n: nat) -> Seq<Seq<char>> {
    Seq::new(n, |i: int| untitled((i + 1) as nat))
}

/// A buffer store to which an empty text was added, or put in place of what
/// was there, under each of the first `n` default titles.
pub open spec fn with_untitled_buffers(buffers: Map<Seq<char>, Seq<char>>, n: nat) -> Map<Seq<char>, Seq<char>> {
    Map::new(
        |t: Seq<char>| buffers.contains_key(t) || numbered_titles(n).contains(t),
        |t: Seq<char>|
            if numbered_titles(n).contains(t) {
                Seq::empty()
            } else {
                buffers[t]
            },
    )
}

/// At most one number is the first unused.
pub proof fn lemma_first_unused_unique(titles: Multiset<Seq<char>>, a: nat, b: nat)
    requires
        is_first_unused(titles, a),
        is_first_unused(titles, b),
    ensures
        a == b,
{
    if a < b {
        assert(titles.contains(untitled(a)));
    } else if b < a {
        assert(titles.contains(untitled(b)));
    }
}

/// A first unused number within the limit is what the search finds.
pub proof fn lemma_first_unused_found(titles: Multiset<Seq<char>>, limit: nat, k: nat)
    requires
        k <= limit,
        is_first_unused(titles, k),
    ensures
        first_unused(titles, limit) == Some(k),
{
    let found = choose|j: nat| j <= limit && is_first_unused(titles, j);
    lemma_first_unused_unique(titles, found, k);
}

/// Where the layout shows all default titles up to the limit, the search
/// finds none.
pub proof fn lemma_first_unused_exhausted(titles: Multiset<Seq<char>>, limit: nat)
    requires
        forall|j: nat| 1 <= j <= limit ==> titles.contains(#[trigger] untitled(j)),
    ensures
        first_unused(titles, limit) is None,
{
}

/// Draining in two goes is draining at once: the state after a queue is the
/// state after its front part, drained further by the rest.
pub proof fn lemma_run_concat(s: TabState, front: Seq<Request>, rest: Seq<Request>, limit: nat)
    ensures
        run(s, front + rest, limit) == run(run(s, front, limit), rest, limit),
    decreases rest.len(),
{
    if rest.len() == 0 {
        assert(front + rest =~= front);
    } else {
        assert((front + rest).drop_last() =~= front + rest.drop_last());
        assert((front + rest).last() == rest.last());
        lemma_run_concat(s, front, rest.drop_last(), limit);
    }
}

/// A drain of the first `i + 1` requests of a queue is the drain of the
/// first `i` followed by the request at `i`, and it meets a failure where
/// the shorter drain does or that request fails.
pub proof fn lemma_run_take_next(s: TabState, queue: Seq<Request>, i: int, limit: nat)
    requires
        0 <= i < queue.len(),
    ensures
        run(s, queue.take(i + 1), limit) == step(run(s, queue.take(i), limit), queue[i], limit),
        any_fails(s, queue.take(i + 1), limit) <==> any_fails(s, queue.take(i), limit) || fails(
            run(s, queue.take(i), limit),
            queue[i],
            limit,
        ),
{
    let shorter = queue.take(i);
    let longer = queue.take(i + 1);
    assert(longer.drop_last() =~= shorter);
    assert(longer.last() == queue[i]);
    assert(longer.take(i) =~= shorter);
    assert forall|j: int| 0 <= j < i implies fails_at(s, longer, j, limit) == fails_at(s, shorter, j, limit) by {
        assert(longer.take(j) =~= shorter.take(j));
        assert(longer[j] == shorter[j]);
    }
    assert(fails_at(s, longer, i, limit) == fails(run(s, shorter, limit), queue[i], limit));
    if any_fails(s, shorter, limit) {
        let j = choose|j: int| 0 <= j < shorter.len() && #[trigger] fails_at(s, shorter, j, limit);
        assert(fails_at(s, longer, j, limit));
    }
    if any_fails(s, longer, limit) {
        let j = choose|j: int| 0 <= j < longer.len() && #[trigger] fails_at(s, longer, j, limit);
        if j < i {
            assert(fails_at(s, shorter, j, limit));
        }
    }
}

/// The first `n` default titles are pairwise distinct.
pub proof fn lemma_numbered_titles_distinct(n: nat)
    ensures
        numbered_titles(n).no_duplicates(),
{
    assert forall|i: int, j: int|
        0 <= i < n && 0 <= j < n && i != j implies numbered_titles(n)[i] != numbered_titles(n)[j] by {
        if untitled((i + 1) as nat) == untitled((j + 1) as nat) {
            lemma_untitled_injective((i + 1) as nat, (j + 1) as nat);
        }
    }
}

/// Uniqueness of default titles. In a layout that shows none of the first
/// `n` default titles, `n` requests for a tab in a row, with `n` within the
/// search limit, are all served: the layout gains exactly `Untitled-1` to
/// `Untitled-n`, each once, and the buffer store an empty text under each.
pub proof fn lemma_creates_number_consecutively(s: TabState, queue: Seq<Request>, limit: nat)
    requires
        queue.len() <= limit,
        forall|i: int| 0 <= i < queue.len() ==> (#[trigger] queue[i]) is CreateTab,
        forall|k: nat| 1 <= k <= queue.len() ==> !s.titles.contains(#[trigger] untitled(k)),
    ensures
        !any_fails(s, queue, limit),
        run(s, queue, limit).titles == s.titles.add(numbered_titles(queue.len()).to_multiset()),
        run(s, queue, limit).buffers == with_untitled_buffers(s.buffers, queue.len()),
        numbered_titles(queue.len()).no_duplicates(),
    decreases queue.len(),
{
    broadcast use group_to_multiset_ensures;

    let n = queue.len();
    lemma_numbered_titles_distinct(n);
    if n == 0 {
        assert(numbered_titles(0) =~= Seq::<Seq<char>>::empty());
        assert(s.titles.add(numbered_titles(0).to_multiset()) =~= s.titles);
        assert(with_untitled_buffers(s.buffers, 0) =~= s.buffers);
    } else {
        let front = queue.drop_last();
        let m = (n - 1) as nat;
        lemma_creates_number_consecutively(s, front, limit);
        let before = run(s, front, limit);
        let earlier = numbered_titles(m);
        assert(numbered_titles(n) =~= earlier.push(untitled(n)));
        assert(!earlier.contains(untitled(n))) by {
            if earlier.contains(untitled(n)) {
                let i = choose|i: int| 0 <= i < earlier.len() && earlier[i] == untitled(n);
                lemma_untitled_injective((i + 1) as nat, n);
            }
        }
        assert(is_first_unused(before.titles, n)) by {
            assert forall|j: nat| 1 <= j < n implies before.titles.contains(#[trigger] untitled(j)) by {
                assert(earlier[j - 1] == untitled(j));
                assert(earlier.contains(untitled(j)));
            }
        }
        lemma_first_unused_found(before.titles, limit, n);
        let after = run(s, queue, limit);
        assert(after.titles =~= s.titles.add(numbered_titles(n).to_multiset()));
        assert(after.buffers =~= with_untitled_buffers(s.buffers, n)) by {
            assert forall|t: Seq<char>| numbered_titles(n).contains(t) <==> (earlier.contains(t) || t == untitled(n)) by {
                if numbered_titles(n).contains(t) {
                    let i = choose|i: int| 0 <= i < n && numbered_titles(n)[i] == t;
                    if i < m {
                        assert(earlier[i] == t);
                    }
                }
                if earlier.contains(t) {
                    let i = choose|i: int| 0 <= i < m && earlier[i] == t;
                    assert(numbered_titles(n)[i] == t);
                }
                if t == untitled(n) {
                    assert(numbered_titles(n)[n - 1] == t);
                }
            }
        }
        assert(!any_fails(s, queue, limit)) by {
            assert forall|i: int| 0 <= i < n implies !#[trigger] fails_at(s, queue, i, limit) by {
                if i < m {
                    assert(front.take(i) =~= queue.take(i));
                    assert(front[i] == queue[i]);
                    assert(!fails_at(s, front, i, limit));
                } else {
                    assert(queue.take(i) =~= front);
                }
            }
        }
    }
}

/// Consistency after a drain. From a consistent state, a drain in which no
/// close request names a title that the layout still shows ends in a
/// consistent state: every title in the layout has its text.
pub proof fn lemma_run_keeps_consistency(s: TabState, queue: Seq<Request>, limit: nat)
    requires
        consistent(s),
        closes_only_hidden(s, queue, limit),
    ensures
        consistent(run(s, queue, limit)),
    decreases queue.len(),
{
    if queue.len() > 0 {
        let front = queue.drop_last();
        assert(closes_only_hidden(s, front, limit)) by {
            assert forall|i: int| 0 <= i < front.len() && (#[trigger] front[i]) is CloseTab implies !run(
                s,
                front.take(i),
                limit,
            ).titles.contains(front[i]->title) by {
                assert(front.take(i) =~= queue.take(i));
                assert(front[i] == queue[i]);
            }
        }
        lemma_run_keeps_consistency(s, front, limit);
        let last = queue.len() - 1;
        assert(queue.take(last) =~= front);
        let before = run(s, front, limit);
        let after = run(s, queue, limit);
        assert forall|t: Seq<char>| after.titles.contains(t) implies after.buffers.contains_key(t) by {
            match queue[last] {
                Request::CreateTab { .. } => {
                    if let Some(k) = first_unused(before.titles, limit) {
                        if t != untitled(k) {
                            assert(before.titles.contains(t));
                        }
                    }
                },
                Request::CloseTab { title } => {
                    assert(before.titles.contains(t));
                },
            }
        }
    }
}

/// Gaps are filled first. A create request takes the lowest number whose
/// default title the layout does not show, whatever higher numbers are in
/// use: a title that was closed is given out again before a new one.
pub proof fn lemma_create_takes_lowest_unused(s: TabState, surface: nat, node: nat, limit: nat, k: nat)
    requires
        1 <= k <= limit,
        !s.titles.contains(untitled(k)),
        forall|j: nat| 1 <= j < k ==> s.titles.contains(#[trigger] untitled(j)),
    ensures
        !fails(s, Request::CreateTab { surface, node }, limit),
        step(s, Request::CreateTab { surface, node }, limit) == (TabState {
            titles: s.titles.insert(untitled(k)),
            buffers: s.buffers.insert(untitled(k), Seq::empty()),
        }),
{
    lemma_first_unused_found(s.titles, limit, k);
}

/// Titles stay unique. In a layout in which no two tabs share a title, a
/// drain leaves it so.
pub proof fn lemma_run_keeps_titles_distinct(s: TabState, queue: Seq<Request>, limit: nat)
    requires
        titles_distinct(s),
    ensures
        titles_distinct(run(s, queue, limit)),
    decreases queue.len(),
{
    if queue.len() > 0 {
        lemma_run_keeps_titles_distinct(s, queue.drop_last(), limit);
        let before = run(s, queue.drop_last(), limit);
        let after = run(s, queue, limit);
        assert forall|t: Seq<char>| after.titles.count(t) <= 1 by {
            assert(before.titles.count(t) <= 1);
            match queue.last() {
                Request::CreateTab { .. } => {
                    if let Some(k) = first_unused(before.titles, limit) {
                        assert(before.titles.count(untitled(k)) == 0);
                    }
                },
                Request::CloseTab { .. } => {},
            }
        }
    }
}

/// Closing is idempotent. A close request for a title that has no text in
/// the buffer store changes nothing and does not fail.
pub proof fn lemma_close_of_absent_changes_nothing(s: TabState, title: Seq<char>, limit: nat)
    requires
        !s.buffers.contains_key(title),
    ensures
        step(s, Request::CloseTab { title }, limit) == s,
        !fails(s, Request::CloseTab { title }, limit),
{
    assert(s.buffers.remove(title) =~= s.buffers);
}

} // verus!
