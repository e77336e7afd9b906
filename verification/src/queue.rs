//! The play queue. User items come first, then the autoplay block. "Play next" goes right after
//! the current item; "add to end" goes before the first autoplay item; dragging an autoplay item
//! into the user part makes it a user item. Shuffle reorders only the user part, with the current
//! track first and the autoplay block last; turning it off brings back the original order.
//! Repeat-all drops the autoplay block. A pure model, without a player.
use vstd::prelude::*;
use crate::music::Track;
use crate::text::now_ms;
use crate::seqs::{copy_indices, distinct, first_where, is_perm, lemma_first_where, lemma_first_where_props, insert_seq, lemma_insert_perm, range_except, lemma_range_except, lemma_concat_distinct, push_range_except, lemma_move_perm, lemma_renumber_perm, reached, renumber, lemma_perm_contains, lemma_pos_of, lemma_shift_up_below, pos_of, position_of, range, same_elements, shift_up};

verus! {

#[derive(Clone, Copy, Debug, Default, PartialEq, Eq, Structural)]
pub enum RepeatMode {
    #[default]
    Off,
    All,
    One,
}

impl RepeatMode {
    /// The mode after `self` on the repeat button.
    pub open spec fn following(self) -> RepeatMode {
        match self {
            RepeatMode::Off => RepeatMode::All,
            RepeatMode::All => RepeatMode::One,
            RepeatMode::One => RepeatMode::Off,
        }
    }

    /// The repeat button: off → all → one → off.
    pub fn next(self) -> (r: RepeatMode)
        ensures
            r == self.following(),
    {
        match self {
            RepeatMode::Off => RepeatMode::All,
            RepeatMode::All => RepeatMode::One,
            RepeatMode::One => RepeatMode::Off,
        }
    }
}

#[derive(Debug, PartialEq)]
pub struct QueueItem {
    pub track: Track,
    pub from_autoplay: bool,
    pub id: i64,
}

impl QueueItem {
    /// The same item: the same track, origin and id.
    pub open spec fn same_as(&self, other: &QueueItem) -> bool {
        &&& self.track.same_as(&other.track)
        &&& self.from_autoplay == other.from_autoplay
        &&& self.id == other.id
    }
}

impl Clone for QueueItem {
    fn clone(&self) -> (r: Self)
        ensures
            r.same_as(self),
    {
        QueueItem { track: self.track.clone(), from_autoplay: self.from_autoplay, id: self.id }
    }
}

/// A saved queue: for "Queue replaced · Undo" and for restoring after a restart.
#[derive(Debug, Default)]
pub struct QueueSnapshot {
    pub items: Vec<QueueItem>,
    pub index: i64,
    pub shuffle_order: Option<Vec<usize>>,
    pub position_ms: i64,
    pub repeat: RepeatMode,
}

#[derive(Debug, Default)]
pub struct PlayQueue {
    items: Vec<QueueItem>,
    shuffle: Option<Vec<usize>>,
    current: Option<usize>,
    repeat: RepeatMode,
    next_id: i64,
}

/// The index of the first autoplay item, or the length where there is none.
pub open spec fn autoplay_from(items: Seq<QueueItem>) -> nat {
    first_where(items, |i: QueueItem| i.from_autoplay)
}

/// The index of the first item with this id, or the length where there is none.
pub open spec fn index_of_id(items: Seq<QueueItem>, id: i64) -> nat {
    first_where(items, |i: QueueItem| i.id == id)
}

/// How many items of `items` the user added.
pub open spec fn user_count(items: Seq<QueueItem>) -> nat
    decreases items.len(),
{
    if items.len() == 0 {
        0
    } else {
        user_count(items.drop_last()) + if items.last().from_autoplay { 0nat } else { 1nat }
    }
}

/// New items for `tracks`, with ids counted up from `first_id`.
pub open spec fn new_items(tracks: Seq<Track>, autoplay: bool, first_id: int) -> Seq<QueueItem> {
    Seq::new(tracks.len(), |k: int| QueueItem { track: tracks[k], from_autoplay: autoplay, id: (first_id + k) as i64 })
}

/// The ids of the items are pairwise different.
pub open spec fn ids_distinct(items: Seq<QueueItem>) -> bool {
    forall|i: int, j: int| 0 <= i < items.len() && 0 <= j < items.len() && i != j ==> items[i].id != items[j].id
}

impl PlayQueue {
    pub closed spec fn queue_items(&self) -> Seq<QueueItem> {
        self.items@
    }

    pub closed spec fn queue_shuffle(&self) -> Option<Seq<usize>> {
        match self.shuffle {
            Some(o) => Some(o@),
            None => None,
        }
    }

    pub closed spec fn queue_current(&self) -> Option<usize> {
        self.current
    }

    pub closed spec fn queue_repeat(&self) -> RepeatMode {
        self.repeat
    }

    pub closed spec fn queue_next_id(&self) -> int {
        self.next_id as int
    }

    /// The play order: indices of the items.
    pub open spec fn order(&self) -> Seq<usize> {
        match self.queue_shuffle() {
            Some(o) => o,
            None => range(0, self.queue_items().len()),
        }
    }

    /// The well-formed queue: a current item exactly when there are items, the shuffle order a
    /// permutation of the indices, and every id below the next one.
    pub open spec fn wf(&self) -> bool {
        &&& (self.queue_current() is Some) == (self.queue_items().len() > 0)
        &&& (self.queue_current() matches Some(c) ==> c < self.queue_items().len())
        &&& (self.queue_shuffle() matches Some(o) ==> is_perm(o, self.queue_items().len()))
        &&& forall|k: int| 0 <= k < self.queue_items().len() ==> #[trigger] self.queue_items()[k].id < self.queue_next_id()
    }

    /// The position of the current item in the play order.
    pub open spec fn order_position(&self) -> int {
        pos_of(self.order(), self.queue_current()->0)
    }

    pub fn new() -> (q: Self)
        ensures
            q.wf(),
            q.queue_items().len() == 0,
            q.queue_shuffle() is None,
            q.queue_current() is None,
            q.queue_repeat() == RepeatMode::Off,
            q.queue_next_id() == 1,
    {
        PlayQueue { items: Vec::new(), shuffle: None, current: None, repeat: RepeatMode::Off, next_id: 1 }
    }

    /// The items in their original order (without shuffle).
    pub fn items(&self) -> (r: &[QueueItem])
        ensures
            r@ == self.queue_items(),
    {
        self.items.as_slice()
    }

    pub fn len(&self) -> (r: usize)
        ensures
            r == self.queue_items().len(),
    {
        self.items.len()
    }

    pub fn is_empty(&self) -> (r: bool)
        ensures
            r == (self.queue_items().len() == 0),
    {
        self.items.len() == 0
    }

    pub fn current_index(&self) -> (r: Option<usize>)
        ensures
            r == self.queue_current(),
    {
        self.current
    }

    pub fn current(&self) -> (r: Option<&QueueItem>)
        ensures
            r == match self.queue_current() {
                Some(c) => if c < self.queue_items().len() { Some(&self.queue_items()[c as int]) } else { None },
                None => None,
            },
    {
        match self.current {
            Some(c) => if c < self.items.len() { Some(&self.items[c]) } else { None },
            None => None,
        }
    }

    pub fn repeat(&self) -> (r: RepeatMode)
        ensures
            r == self.queue_repeat(),
    {
        self.repeat
    }

    pub fn is_shuffled(&self) -> (r: bool)
        ensures
            r == (self.queue_shuffle() is Some),
    {
        self.shuffle.is_some()
    }

    /// The play order: indices of `items`.
    pub fn play_order(&self) -> (r: Vec<usize>)
        ensures
            r@ == self.order(),
    {
        match &self.shuffle {
            Some(o) => copy_indices(o),
            None => {
                let mut r: Vec<usize> = Vec::new();
                let mut i: usize = 0;
                while i < self.items.len()
                    invariant
                        i <= self.items.len(),
                        r@ == range(0, i as nat),
                    decreases self.items.len() - i,
                {
                    r.push(i);
                    assert(r@ =~= range(0, (i + 1) as nat));
                    i = i + 1;
                }
                r
            },
        }
    }

    /// The items in play order (the queue panel).
    pub fn ordered(&self) -> (r: Vec<&QueueItem>)
        requires
            self.wf(),
        ensures
            r@.len() == self.order().len(),
            forall|k: int| 0 <= k < r@.len() ==> *#[trigger] r@[k] == self.queue_items()[self.order()[k] as int],
    {
        let order = self.play_order();
        let mut r: Vec<&QueueItem> = Vec::new();
        let mut k: usize = 0;
        while k < order.len()
            invariant
                self.wf(),
                order@ == self.order(),
                k <= order.len(),
                r@.len() == k,
                forall|j: int| 0 <= j < k ==> *#[trigger] r@[j] == self.queue_items()[order@[j] as int],
            decreases order.len() - k,
        {
            assert(order@[k as int] < self.items.len());
            r.push(&self.items[order[k]]);
            k = k + 1;
        }
        r
    }

    pub fn autoplay_start(&self) -> (r: usize)
        ensures
            r == autoplay_from(self.queue_items()),
    {
        let mut i: usize = 0;
        while i < self.items.len() && !self.items[i].from_autoplay
            invariant
                i <= self.items.len(),
                forall|k: int| 0 <= k < i ==> !(#[trigger] self.items@[k]).from_autoplay,
            decreases self.items.len() - i,
        {
            i = i + 1;
        }
        proof {
            lemma_first_where(self.items@, |i: QueueItem| i.from_autoplay, i as int);
        }
        i
    }

    /// How many items the user added: "Queue replaced · Undo" offers itself from two.
    pub fn user_added_count(&self) -> (r: usize)
        ensures
            r == user_count(self.queue_items()),
    {
        let mut n: usize = 0;
        let mut i: usize = 0;
        while i < self.items.len()
            invariant
                i <= self.items.len(),
                n == user_count(self.items@.take(i as int)),
                n <= i,
            decreases self.items.len() - i,
        {
            assert(self.items@.take(i + 1).drop_last() =~= self.items@.take(i as int));
            if !self.items[i].from_autoplay {
                n = n + 1;
            }
            i = i + 1;
        }
        assert(self.items@.take(self.items.len() as int) =~= self.items@);
        n
    }

    /// The index of the item with this id.
    fn find_id(&self, id: i64) -> (r: Option<usize>)
        ensures
            match r {
                Some(p) => p == index_of_id(self.queue_items(), id) && p < self.queue_items().len(),
                None => index_of_id(self.queue_items(), id) == self.queue_items().len(),
            },
    {
        let mut i: usize = 0;
        while i < self.items.len()
            invariant
                i <= self.items.len(),
                forall|k: int| 0 <= k < i ==> (#[trigger] self.items@[k]).id != id,
            decreases self.items.len() - i,
        {
            if self.items[i].id == id {
                proof {
                    lemma_first_where(self.items@, |i: QueueItem| i.id == id, i as int);
                }
                return Some(i);
            }
            i = i + 1;
        }
        proof {
            lemma_first_where(self.items@, |i: QueueItem| i.id == id, i as int);
        }
        None
    }
}


impl PlayQueue {
    /// In a well-formed queue the play order is a permutation that holds the current item once.
    pub proof fn lemma_order(&self)
        requires
            self.wf(),
        ensures
            is_perm(self.order(), self.queue_items().len()),
            self.queue_current() matches Some(c) ==> {
                &&& 0 <= self.order_position() < self.order().len()
                &&& self.order()[self.order_position()] == c
            },
    {
        let n = self.queue_items().len();
        let o = self.order();
        if self.queue_shuffle() is None {
            assert(self.items.len() == self.items@.len());
            lemma_range_perm(n);
        }
        if let Some(c) = self.queue_current() {
            lemma_perm_contains(o, n, c);
            let p = choose|p: int| 0 <= p < o.len() && o[p] == c;
            lemma_pos_of(o, c, p);
        }
    }

    /// The position of the current item in `order`.
    fn position_in_order(&self, order: &Vec<usize>) -> (r: Option<usize>)
        requires
            self.wf(),
            order@ == self.order(),
        ensures
            match self.queue_current() {
                None => r is None,
                Some(c) => r == Some(self.order_position() as usize),
            },
            r matches Some(p) ==> p < order@.len() && order@[p as int] == self.queue_current()->0,
    {
        proof {
            self.lemma_order();
        }
        match self.current {
            None => None,
            Some(c) => position_of(order, c),
        }
    }

    /// The index of the item that plays after the current one, or `None` (end of the queue).
    pub open spec fn next_index(&self, user_action: bool) -> Option<usize> {
        match self.queue_current() {
            None => None,
            Some(c) => if self.queue_repeat() == RepeatMode::One && !user_action {
                Some(c)
            } else {
                let o = self.order();
                let p = self.order_position();
                if p + 1 < o.len() {
                    Some(o[p + 1])
                } else if self.queue_repeat() == RepeatMode::All && o.len() > 0 {
                    Some(o[0])
                } else {
                    None
                }
            },
        }
    }

    /// The index of the next item in play order, or `None` (end of the queue).
    pub fn peek_next(&self, user_action: bool) -> (r: Option<usize>)
        requires
            self.wf(),
        ensures
            r == self.next_index(user_action),
            r matches Some(i) ==> i < self.queue_items().len(),
    {
        proof {
            self.lemma_order();
        }
        let current = match self.current {
            Some(c) => c,
            None => return None,
        };
        if self.repeat == RepeatMode::One && !user_action {
            return Some(current);
        }
        let order = self.play_order();
        let position = match self.position_in_order(&order) {
            Some(p) => p,
            None => return None,
        };
        if position + 1 < order.len() {
            Some(order[position + 1])
        } else if self.repeat == RepeatMode::All && order.len() > 0 {
            Some(order[0])
        } else {
            None
        }
    }

    pub fn move_next(&mut self, user_action: bool) -> (moved: bool)
        requires
            old(self).wf(),
        ensures
            final(self).wf(),
            moved == (old(self).next_index(user_action) is Some),
            final(self).queue_current() == if moved { old(self).next_index(user_action) } else { old(self).queue_current() },
            final(self).queue_items() == old(self).queue_items(),
            final(self).queue_shuffle() == old(self).queue_shuffle(),
            final(self).queue_repeat() == old(self).queue_repeat(),
            final(self).queue_next_id() == old(self).queue_next_id(),
            step_post(*old(self), *final(self), QueueStep::MoveNext(user_action)),
    {
        match self.peek_next(user_action) {
            Some(next) => {
                self.current = Some(next);
                true
            },
            None => false,
        }
    }

    /// The index of the item that played before the current one, where there is one.
    pub open spec fn previous_index(&self) -> Option<usize> {
        match self.queue_current() {
            None => None,
            Some(c) => {
                let o = self.order();
                let p = self.order_position();
                if p > 0 {
                    Some(o[p - 1])
                } else if self.queue_repeat() == RepeatMode::All && o.len() > 1 {
                    Some(o.last())
                } else {
                    None
                }
            },
        }
    }

    pub fn move_previous(&mut self) -> (moved: bool)
        requires
            old(self).wf(),
        ensures
            final(self).wf(),
            moved == (old(self).previous_index() is Some),
            final(self).queue_current() == if moved { old(self).previous_index() } else { old(self).queue_current() },
            final(self).queue_items() == old(self).queue_items(),
            final(self).queue_shuffle() == old(self).queue_shuffle(),
            final(self).queue_repeat() == old(self).queue_repeat(),
            final(self).queue_next_id() == old(self).queue_next_id(),
            step_post(*old(self), *final(self), QueueStep::MovePrevious),
    {
        proof {
            self.lemma_order();
        }
        let order = self.play_order();
        let position = match self.position_in_order(&order) {
            Some(p) => p,
            None => return false,
        };
        if position > 0 {
            self.current = Some(order[position - 1]);
        } else if self.repeat == RepeatMode::All && order.len() > 1 {
            self.current = Some(order[order.len() - 1]);
        } else {
            return false;
        }
        true
    }

    pub fn jump_to(&mut self, id: i64) -> (found: bool)
        requires
            old(self).wf(),
        ensures
            final(self).wf(),
            found == (index_of_id(old(self).queue_items(), id) < old(self).queue_items().len()),
            final(self).queue_current() == if found {
                Some(index_of_id(old(self).queue_items(), id) as usize)
            } else {
                old(self).queue_current()
            },
            final(self).queue_items() == old(self).queue_items(),
            final(self).queue_shuffle() == old(self).queue_shuffle(),
            final(self).queue_repeat() == old(self).queue_repeat(),
            final(self).queue_next_id() == old(self).queue_next_id(),
            step_post(*old(self), *final(self), QueueStep::JumpTo(id)),
    {
        match self.find_id(id) {
            Some(index) => {
                self.current = Some(index);
                true
            },
            None => false,
        }
    }

    /// Where in the play order the items after the current one begin.
    pub open spec fn ahead_from(&self) -> int {
        if self.queue_current() is Some { self.order_position() + 1 } else { 0 }
    }

    /// The indices of the next `count` items (resolving streams ahead).
    pub fn upcoming(&self, count: usize) -> (r: Vec<usize>)
        requires
            self.wf(),
        ensures
            r@ == self.order().skip(self.ahead_from()).take(
                if count < self.order().len() - self.ahead_from() { count as int } else { self.order().len() - self.ahead_from() },
            ),
    {
        proof {
            self.lemma_order();
        }
        let order = self.play_order();
        let position = match self.position_in_order(&order) {
            Some(p) => p + 1,
            None => 0,
        };
        let mut r: Vec<usize> = Vec::new();
        let mut k: usize = position;
        while k < order.len() && k - position < count
            invariant
                position <= k <= order.len(),
                k - position <= count,
                position == self.ahead_from(),
                order@ == self.order(),
                r@ == order@.subrange(position as int, k as int),
            decreases order.len() - k,
        {
            r.push(order[k]);
            assert(order@.subrange(position as int, k as int).push(order@[k as int]) =~= order@.subrange(position as int, k + 1));
            k = k + 1;
        }
        assert(k as int == position + if count < order@.len() - position { count as int } else { order@.len() - position });
        assert(r@ =~= order@.skip(position as int).take(
            if count < order@.len() - position { count as int } else { order@.len() - position },
        ));
        r
    }

    /// How many autoplay items are still ahead in play order.
    pub fn autoplay_ahead(&self) -> (r: usize)
        requires
            self.wf(),
        ensures
            r == user_count_complement(self.queue_items(), self.order().skip(self.ahead_from())),
    {
        proof {
            self.lemma_order();
        }
        let order = self.play_order();
        let position = match self.position_in_order(&order) {
            Some(p) => p + 1,
            None => 0,
        };
        let mut n: usize = 0;
        let mut k: usize = position;
        while k < order.len()
            invariant
                self.wf(),
                is_perm(order@, self.queue_items().len()),
                position <= k <= order.len(),
                position == self.ahead_from(),
                order@ == self.order(),
                n == user_count_complement(self.queue_items(), order@.subrange(position as int, k as int)),
                n <= k - position,
            decreases order.len() - k,
        {
            assert(order@.subrange(position as int, k + 1).drop_last() =~= order@.subrange(position as int, k as int));
            assert(order@[k as int] < self.items.len());
            if self.items[order[k]].from_autoplay {
                n = n + 1;
            }
            k = k + 1;
        }
        assert(order@.subrange(position as int, order@.len() as int) =~= order@.skip(position as int));
        n
    }
}

/// `0, 1, …, n - 1` orders the indices below `n`.
pub proof fn lemma_range_perm(n: nat)
    requires
        n <= usize::MAX,
    ensures
        is_perm(range(0, n), n),
{
    let o = range(0, n);
    assert forall|i: int| 0 <= i < o.len() implies #[trigger] o[i] < n by {}
    assert forall|i: int, j: int| 0 <= i < o.len() && 0 <= j < o.len() && i != j implies o[i] != o[j] by {}
}

/// How many of the indices `idx` point at autoplay items.
pub open spec fn user_count_complement(items: Seq<QueueItem>, idx: Seq<usize>) -> nat
    decreases idx.len(),
{
    if idx.len() == 0 {
        0
    } else {
        user_count_complement(items, idx.drop_last()) + if items[idx.last() as int].from_autoplay { 1nat } else { 0nat }
    }
}


/// The test "index at least `a`".
pub open spec fn at_least(a: usize) -> spec_fn(usize) -> bool {
    |i: usize| i >= a
}

/// `o` with room made for `count` indices at `at` and those put before position `p`.
fn insert_indices(o: &Vec<usize>, at: usize, count: usize, p: usize) -> (r: Vec<usize>)
    requires
        p <= o.len(),
        at as int + count <= usize::MAX,
        forall|i: int| 0 <= i < o.len() ==> #[trigger] o@[i] + count <= usize::MAX,
    ensures
        r@ == insert_seq(shift_up(o@, at as int, count as int), p as int, range(at as int, count as nat)),
{
    let ghost sh = shift_up(o@, at as int, count as int);
    let mut r: Vec<usize> = Vec::new();
    let mut k: usize = 0;
    while k < p
        invariant
            k <= p <= o.len(),
            forall|i: int| 0 <= i < o.len() ==> #[trigger] o@[i] + count <= usize::MAX,
            sh == shift_up(o@, at as int, count as int),
            r@ == sh.take(k as int),
        decreases p - k,
    {
        let v = o[k];
        r.push(if v >= at { v + count } else { v });
        assert(r@ =~= sh.take(k + 1));
        k = k + 1;
    }
    let mut j: usize = 0;
    while j < count
        invariant
            j <= count,
            at as int + count <= usize::MAX,
            r@ == sh.take(p as int) + range(at as int, j as nat),
        decreases count - j,
    {
        r.push(at + j);
        assert(r@ =~= sh.take(p as int) + range(at as int, (j + 1) as nat));
        j = j + 1;
    }
    while k < o.len()
        invariant
            p <= k <= o.len(),
            forall|i: int| 0 <= i < o.len() ==> #[trigger] o@[i] + count <= usize::MAX,
            sh == shift_up(o@, at as int, count as int),
            r@ == sh.take(p as int) + range(at as int, count as nat) + sh.subrange(p as int, k as int),
        decreases o.len() - k,
    {
        let v = o[k];
        r.push(if v >= at { v + count } else { v });
        assert(r@ =~= sh.take(p as int) + range(at as int, count as nat) + sh.subrange(p as int, k + 1));
        k = k + 1;
    }
    assert(sh.subrange(p as int, o.len() as int) =~= sh.skip(p as int));
    r
}

impl PlayQueue {
    /// Room left for `count` more ids and items.
    pub open spec fn has_room(&self, count: int) -> bool {
        &&& self.queue_next_id() + count <= i64::MAX
        &&& self.queue_items().len() + count <= usize::MAX
    }

    /// The id the next item gets.
    pub fn next_id(&self) -> (r: i64)
        ensures
            r == self.queue_next_id(),
    {
        self.next_id
    }

    /// Whether there is room for `count` more ids and items.
    pub fn has_room_for(&self, count: usize) -> (r: bool)
        ensures
            r == self.has_room(count as int),
    {
        let ids_fit = (self.next_id as i128) + (count as i128) <= 9223372036854775807i128;
        let items_fit = (self.items.len() as u128) + (count as u128) <= (usize::MAX as u128);
        ids_fit && items_fit
    }

    fn make_items(&mut self, tracks: Vec<Track>, autoplay: bool) -> (r: Vec<QueueItem>)
        requires
            old(self).queue_next_id() + tracks@.len() <= i64::MAX,
        ensures
            r@ == new_items(tracks@, autoplay, old(self).queue_next_id()),
            final(self).queue_next_id() == old(self).queue_next_id() + tracks@.len(),
            final(self).queue_items() == old(self).queue_items(),
            final(self).queue_shuffle() == old(self).queue_shuffle(),
            final(self).queue_current() == old(self).queue_current(),
            final(self).queue_repeat() == old(self).queue_repeat(),
    {
        let ghost first = self.next_id as int;
        let ghost all = tracks@;
        let mut r: Vec<QueueItem> = Vec::new();
        for track in it: tracks
            invariant
                it.seq() == all,
                first + all.len() <= i64::MAX,
                self.next_id == first + it.index(),
                r@ == new_items(all.take(it.index() as int), autoplay, first),
                self.items@ == old(self).items@,
                self.shuffle == old(self).shuffle,
                self.current == old(self).current,
                self.repeat == old(self).repeat,
        {
            let id = self.next_id;
            self.next_id = self.next_id + 1;
            r.push(QueueItem { track, from_autoplay: autoplay, id });
            assert(r@ =~= new_items(all.take(it.index() + 1), autoplay, first));
        }
        assert(all.take(all.len() as int) =~= all);
        r
    }

    /// Plays the list from the chosen track, in list order.
    fn set_list_in_order(&mut self, tracks: Vec<Track>, start: usize)
        requires
            old(self).wf(),
            old(self).queue_next_id() + tracks@.len() <= i64::MAX,
        ensures
            final(self).wf(),
            final(self).queue_items() == new_items(tracks@, false, old(self).queue_next_id()),
            final(self).queue_current() == if tracks@.len() == 0 {
                None
            } else {
                Some(if start < tracks@.len() { start } else { (tracks@.len() - 1) as usize })
            },
            final(self).queue_shuffle() is None,
            final(self).queue_repeat() == old(self).queue_repeat(),
            final(self).queue_next_id() == old(self).queue_next_id() + tracks@.len(),
            ids_distinct(final(self).queue_items()),
    {
        let ghost tv = tracks@;
        let items = self.make_items(tracks, false);
        proof {
            lemma_new_items_ids(tv, false, old(self).queue_next_id());
        }
        self.items = items;
        self.current = if self.items.len() == 0 {
            None
        } else if start < self.items.len() {
            Some(start)
        } else {
            Some(self.items.len() - 1)
        };
        self.shuffle = None;
    }

    /// Loads more autoplay at the end; nothing while repeating the whole queue.
    pub fn append_autoplay(&mut self, tracks: Vec<Track>)
        requires
            old(self).wf(),
            old(self).has_room(tracks@.len() as int),
        ensures
            final(self).wf(),
            if tracks@.len() == 0 || old(self).queue_repeat() == RepeatMode::All {
                *final(self) == *old(self)
            } else {
                &&& final(self).queue_items() == old(self).queue_items() + new_items(tracks@, true, old(self).queue_next_id())
                &&& final(self).queue_shuffle() == match old(self).queue_shuffle() {
                    Some(o) => Some(o + range(old(self).queue_items().len() as int, tracks@.len())),
                    None => None,
                }
                &&& final(self).queue_current() == match old(self).queue_current() {
                    Some(c) => Some(c),
                    None => Some(0usize),
                }
                &&& final(self).queue_repeat() == old(self).queue_repeat()
                &&& final(self).queue_next_id() == old(self).queue_next_id() + tracks@.len()
            },
            ids_distinct(old(self).queue_items()) ==> ids_distinct(final(self).queue_items()),
            step_post(*old(self), *final(self), QueueStep::AppendAutoplay(tracks)),
    {
        if tracks.len() == 0 || self.repeat == RepeatMode::All {
            return;
        }
        let start = self.items.len();
        let count = tracks.len();
        let ghost tv = tracks@;
        let mut new = self.make_items(tracks, true);
        self.items.append(&mut new);
        proof {
            if ids_distinct(old(self).items@) {
                lemma_insert_ids(old(self).items@, tv, true, old(self).queue_next_id(), start as int);
                assert(old(self).items@.take(start as int) + new_items(tv, true, old(self).queue_next_id()) + old(self).items@.skip(start as int)
                    =~= self.items@);
            }
            if let Some(o) = old(self).queue_shuffle() {
                lemma_shift_up_below(o, start as int, count as int);
                lemma_insert_perm(o, start as nat, start as int, count as nat, start as int);
                assert(insert_seq(o, start as int, range(start as int, count as nat)) =~= o + range(start as int, count as nat));
            }
        }
        match self.shuffle.take() {
            Some(mut order) => {
                let mut j: usize = 0;
                let ghost o = order@;
                while j < count
                    invariant
                        j <= count,
                        start as int + count <= usize::MAX,
                        order@ == o + range(start as int, j as nat),
                    decreases count - j,
                {
                    order.push(start + j);
                    assert(order@ =~= o + range(start as int, (j + 1) as nat));
                    j = j + 1;
                }
                self.shuffle = Some(order);
            },
            None => {},
        }
        if self.current.is_none() {
            self.current = Some(0);
        }
    }

    /// "Play next": right after the current item, in play order.
    pub fn play_next(&mut self, tracks: Vec<Track>)
        requires
            old(self).wf(),
            old(self).has_room(tracks@.len() as int),
        ensures
            play_next_post(*old(self), *final(self), tracks),
            step_post(*old(self), *final(self), QueueStep::PlayNext(tracks)),
    {
        if tracks.len() == 0 {
            return;
        }
        let current = match self.current {
            Some(c) => c,
            None => {
                self.set_list_in_order(tracks, 0);
                return;
            },
        };
        proof {
            self.lemma_order();
        }
        let count = tracks.len();
        let ghost tv = tracks@;
        let mut new = self.make_items(tracks, false);
        // In the original order: right after the current one, in the user part.
        let mut insert_at = if current + 1 < self.autoplay_start() { current + 1 } else { self.autoplay_start() };
        if insert_at <= current {
            insert_at = current + 1;
        }
        let mut tail = self.items.split_off(insert_at);
        self.items.append(&mut new);
        self.items.append(&mut tail);
        proof {
            if ids_distinct(old(self).items@) {
                lemma_insert_ids(old(self).items@, tv, false, old(self).queue_next_id(), insert_at as int);
                assert(old(self).items@.take(insert_at as int) + new_items(tv, false, old(self).queue_next_id())
                    + old(self).items@.skip(insert_at as int) =~= self.items@);
            }
        }
        let ghost n = self.items@.len();
        match self.shuffle.take() {
            Some(order) => {
                let position = match position_of(&order, current) {
                    Some(p) => p + 1,
                    None => order.len(),
                };
                proof {
                    lemma_pos_of(order@, current, position - 1);
                    lemma_insert_perm(order@, old(self).items@.len(), insert_at as int, count as nat, position as int);
                }
                let shifted = insert_indices(&order, insert_at, count, position);
                self.shuffle = Some(shifted);
            },
            None => {},
        }
    }
}


impl PlayQueue {
    /// "Add to end": before the autoplay block.
    pub fn add_to_end(&mut self, tracks: Vec<Track>)
        requires
            old(self).wf(),
            old(self).has_room(tracks@.len() as int),
        ensures
            add_to_end_post(*old(self), *final(self), tracks),
            step_post(*old(self), *final(self), QueueStep::AddToEnd(tracks)),
    {
        if tracks.len() == 0 {
            return;
        }
        let current = match self.current {
            Some(c) => c,
            None => {
                self.set_list_in_order(tracks, 0);
                return;
            },
        };
        proof {
            lemma_first_where_props(self.items@, |i: QueueItem| i.from_autoplay);
        }
        let insert_at = self.autoplay_start();
        let count = tracks.len();
        let ghost tv = tracks@;
        let mut new = self.make_items(tracks, false);
        let mut tail = self.items.split_off(insert_at);
        self.items.append(&mut new);
        self.items.append(&mut tail);
        proof {
            if ids_distinct(old(self).items@) {
                lemma_insert_ids(old(self).items@, tv, false, old(self).queue_next_id(), insert_at as int);
                assert(old(self).items@.take(insert_at as int) + new_items(tv, false, old(self).queue_next_id())
                    + old(self).items@.skip(insert_at as int) =~= self.items@);
            }
        }
        if insert_at <= current {
            self.current = Some(current + count);
        }
        match self.shuffle.take() {
            Some(order) => {
                // In shuffled order: before the first autoplay item.
                let mut first_auto: usize = 0;
                while first_auto < order.len() && order[first_auto] < insert_at
                    invariant
                        first_auto <= order.len(),
                        forall|k: int| 0 <= k < first_auto ==> !(at_least(insert_at)(#[trigger] order@[k])),
                    decreases order.len() - first_auto,
                {
                    first_auto = first_auto + 1;
                }
                proof {
                    lemma_first_where(order@, at_least(insert_at), first_auto as int);
                    lemma_insert_perm(order@, old(self).items@.len(), insert_at as int, count as nat, first_auto as int);
                }
                let shifted = insert_indices(&order, insert_at, count, first_auto);
                self.shuffle = Some(shifted);
            },
            None => {},
        }
    }
}

/// The test "not `x`".
pub open spec fn other_than(x: usize) -> spec_fn(usize) -> bool {
    |i: usize| i != x
}

/// Indices above `x` moved down by one.
pub open spec fn close_gap(x: usize) -> spec_fn(usize) -> usize {
    |i: usize| if i > x { (i - 1) as usize } else { i }
}

/// `o` without `x`, the indices above it moved down by one.
fn remove_index(o: &Vec<usize>, x: usize) -> (r: Vec<usize>)
    ensures
        r@ == renumber(o@, other_than(x), close_gap(x)),
{
    let mut r: Vec<usize> = Vec::new();
    let mut k: usize = 0;
    while k < o.len()
        invariant
            k <= o.len(),
            r@ == renumber(o@.take(k as int), other_than(x), close_gap(x)),
        decreases o.len() - k,
    {
        assert(o@.take(k + 1).drop_last() =~= o@.take(k as int));
        let v = o[k];
        if v != x {
            r.push(if v > x { v - 1 } else { v });
        }
        k = k + 1;
    }
    assert(o@.take(o.len() as int) =~= o@);
    r
}

impl PlayQueue {
    /// Removes the item with this id, unless it is the current one.
    pub fn remove(&mut self, id: i64)
        requires
            old(self).wf(),
        ensures
            remove_post(*old(self), *final(self), id),
            step_post(*old(self), *final(self), QueueStep::Remove(id)),
    {
        let index = match self.find_id(id) {
            Some(i) => i,
            None => return,
        };
        if self.current == Some(index) {
            return;
        }
        let ghost n = self.items@.len();
        assert(n == self.items.len());
        proof {
            if ids_distinct(old(self).items@) {
                lemma_remove_ids(old(self).items@, index as int);
            }
        }
        self.items.remove(index);
        if let Some(current) = self.current {
            if index < current {
                self.current = Some(current - 1);
            }
        }
        match self.shuffle.take() {
            Some(order) => {
                proof {
                    assert forall|y: usize| y < (n - 1) as nat implies #[trigger] reached(n, other_than(index), close_gap(index), y) by {
                        let i: usize = if y < index { y } else { (y + 1) as usize };
                        assert(close_gap(index)(i) == y);
                    }
                    assert forall|i: usize, j: usize| #![trigger close_gap(index)(i), close_gap(index)(j)]
                        other_than(index)(i) && other_than(index)(j) && i != j implies close_gap(index)(i) != close_gap(index)(j) by {}
                    lemma_renumber_perm(order@, n, other_than(index), close_gap(index), (n - 1) as nat);
                }
                self.shuffle = Some(remove_index(&order, index));
            },
            None => {},
        }
        assert forall|k: int| 0 <= k < self.items@.len() implies #[trigger] self.items@[k].id < self.next_id by {
            if k < index {
                assert(self.items@[k] == old(self).items@[k]);
            } else {
                assert(self.items@[k] == old(self).items@[k + 1]);
            }
        }
    }

    /// "Clear": everything but the current track.
    pub fn clear_except_current(&mut self)
        requires
            old(self).wf(),
        ensures
            clear_except_current_post(*old(self), *final(self)),
            step_post(*old(self), *final(self), QueueStep::ClearExceptCurrent),
    {
        let current = match self.current {
            Some(c) => c,
            None => {
                assert(*self == *old(self));
                return;
            },
        };
        let item = self.items.remove(current);
        self.items = vec![item];
        self.current = Some(0);
        if self.shuffle.is_some() {
            self.shuffle = Some(vec![0]);
        }
        assert(self.items@ =~= seq![old(self).items@[current as int]]);
        assert(self.wf());
        assert(ids_distinct(old(self).queue_items()) ==> ids_distinct(self.queue_items()));
        assert(self.queue_shuffle() == match old(self).queue_shuffle() {
            Some(_) => Some(seq![0usize]),
            None => None,
        });
    }
}


/// The user items of `items`, in order.
pub open spec fn users(items: Seq<QueueItem>) -> Seq<QueueItem>
    decreases items.len(),
{
    if items.len() == 0 {
        Seq::empty()
    } else {
        let u = users(items.drop_last());
        if items.last().from_autoplay { u } else { u.push(items.last()) }
    }
}

/// `v` is one of `items`.
pub open spec fn occurs_in(items: Seq<QueueItem>, v: QueueItem) -> bool {
    exists|k: int| 0 <= k < items.len() && #[trigger] items[k] == v
}

/// `items` with the item at `current` made a user item.
pub open spec fn mark_current(items: Seq<QueueItem>, current: Option<usize>) -> Seq<QueueItem> {
    match current {
        Some(c) => if c < items.len() {
            items.update(c as int, QueueItem { track: items[c as int].track, from_autoplay: false, id: items[c as int].id })
        } else {
            items
        },
        None => items,
    }
}

/// The test "a user item of `items`".
pub open spec fn user_at(items: Seq<QueueItem>) -> spec_fn(usize) -> bool {
    |i: usize| i < items.len() && !items[i as int].from_autoplay
}

/// Where the user item at `i` lands once autoplay items are gone.
pub open spec fn user_rank(items: Seq<QueueItem>) -> spec_fn(usize) -> usize {
    |i: usize| user_count(items.take(i as int)) as usize
}

pub proof fn lemma_users(items: Seq<QueueItem>)
    ensures
        users(items).len() == user_count(items),
        user_count(items) <= items.len(),
        forall|i: int| 0 <= i < items.len() && !(#[trigger] items[i]).from_autoplay ==>
            user_count(items.take(i)) < user_count(items) && users(items)[user_count(items.take(i)) as int] == items[i],
        forall|t: int| 0 <= t < users(items).len() ==> occurs_in(items, #[trigger] users(items)[t]),
    decreases items.len(),
{
    if items.len() > 0 {
        let d = items.drop_last();
        lemma_users(d);
        let u = users(items);
        let ud = users(d);
        assert forall|i: int| 0 <= i < items.len() && !(#[trigger] items[i]).from_autoplay implies
            user_count(items.take(i)) < user_count(items) && u[user_count(items.take(i)) as int] == items[i] by {
            if i < items.len() - 1 {
                assert(items.take(i) =~= d.take(i));
                assert(d[i] == items[i]);
            } else {
                assert(items.take(i) =~= d);
            }
        }
        assert forall|t: int| 0 <= t < u.len() implies occurs_in(items, #[trigger] u[t]) by {
            if t < ud.len() {
                assert(occurs_in(d, ud[t]));
                let k = choose|k: int| 0 <= k < d.len() && #[trigger] d[k] == ud[t];
                assert(items[k] == d[k]);
            } else {
                assert(u[t] == items[items.len() - 1]);
            }
        }
    }
}

/// The user count of a prefix grows with the prefix.
pub proof fn lemma_user_count_mono(items: Seq<QueueItem>, i: int, j: int)
    requires
        0 <= i <= j <= items.len(),
    ensures
        user_count(items.take(i)) <= user_count(items.take(j)),
        i < j && !items[i].from_autoplay ==> user_count(items.take(i)) < user_count(items.take(j)),
    decreases j - i,
{
    if i < j {
        lemma_user_count_mono(items, i, j - 1);
        assert(items.take(j).drop_last() =~= items.take(j - 1));
        if i == j - 1 {
        }
    }
}

/// Every rank below the user count belongs to some user item.
pub proof fn lemma_user_rank_onto(items: Seq<QueueItem>, y: nat)
    requires
        y < user_count(items),
    ensures
        exists|i: int| 0 <= i < items.len() && !(#[trigger] items[i]).from_autoplay && user_count(items.take(i)) == y,
    decreases items.len(),
{
    let d = items.drop_last();
    assert(items.take(items.len() - 1) =~= d);
    if y < user_count(d) {
        lemma_user_rank_onto(d, y);
        let i = choose|i: int| 0 <= i < d.len() && !(#[trigger] d[i]).from_autoplay && user_count(d.take(i)) == y;
        assert(items[i] == d[i]);
        assert(items.take(i) =~= d.take(i));
    } else {
        assert(!items.last().from_autoplay);
    }
}

/// Dropping autoplay items renumbers an ordering of all items into an ordering of the user items.
#[verifier::spinoff_prover]
#[verifier::rlimit(30)]
pub proof fn lemma_drop_autoplay_perm(o: Seq<usize>, items: Seq<QueueItem>)
    requires
        is_perm(o, items.len()),
        items.len() <= usize::MAX,
    ensures
        is_perm(renumber(o, user_at(items), user_rank(items)), user_count(items)),
{
    let n = items.len();
    let m = user_count(items);
    lemma_users(items);
    assert forall|i: usize, j: usize| #![trigger user_rank(items)(i), user_rank(items)(j)]
        user_at(items)(i) && user_at(items)(j) && i != j implies user_rank(items)(i) != user_rank(items)(j) by {
        if i < j {
            lemma_user_count_mono(items, i as int, j as int);
        } else {
            lemma_user_count_mono(items, j as int, i as int);
        }
        assert(user_count(items.take(i as int)) <= user_count(items));
        assert(user_count(items.take(j as int)) <= user_count(items));
    }
    assert forall|i: usize| i < n && user_at(items)(i) implies #[trigger] user_rank(items)(i) < m by {
        assert(!items[i as int].from_autoplay);
    }
    assert forall|y: usize| y < m implies #[trigger] reached(n, user_at(items), user_rank(items), y) by {
        lemma_user_rank_onto(items, y as nat);
        let i = choose|i: int| 0 <= i < items.len() && !(#[trigger] items[i]).from_autoplay && user_count(items.take(i)) == y;
        assert(user_rank(items)(i as usize) == y);
    }
    lemma_renumber_perm(o, n, user_at(items), user_rank(items), m);
}


/// The user items of `all`, in order.
fn keep_users(all: Vec<QueueItem>) -> (kept: Vec<QueueItem>)
    ensures
        kept@ == users(all@),
{
    let ghost all_view = all@;
    let mut kept: Vec<QueueItem> = Vec::new();
    for item in it: all
        invariant
            it.seq() == all_view,
            kept@ == users(all_view.take(it.index() as int)),
    {
        assert(all_view.take(it.index() + 1).drop_last() =~= all_view.take(it.index() as int));
        if !item.from_autoplay {
            kept.push(item);
        }
    }
    assert(all_view.take(all_view.len() as int) =~= all_view);
    kept
}

impl PlayQueue {
    /// The play order without the autoplay items, renumbered for the user items alone.
    fn drop_autoplay_order(&self, order: &Vec<usize>) -> (r: Vec<usize>)
        requires
            is_perm(order@, self.items@.len()),
        ensures
            r@ == renumber(order@, user_at(self.items@), user_rank(self.items@)),
    {
        let ghost m = self.items@;
        let mut r: Vec<usize> = Vec::new();
        let mut k: usize = 0;
        while k < order.len()
            invariant
                k <= order.len(),
                self.items@ == m,
                is_perm(order@, m.len()),
                r@ == renumber(order@.take(k as int), user_at(m), user_rank(m)),
            decreases order.len() - k,
        {
            assert(order@.take(k + 1).drop_last() =~= order@.take(k as int));
            let v = order[k];
            if !self.items[v].from_autoplay {
                let rank = self.users_before(v);
                r.push(rank);
            }
            k = k + 1;
        }
        assert(order@.take(order.len() as int) =~= order@);
        r
    }
}

impl PlayQueue {
    /// How many user items come before index `i`.
    fn users_before(&self, i: usize) -> (r: usize)
        requires
            i <= self.items@.len(),
        ensures
            r == user_count(self.items@.take(i as int)),
    {
        let mut n: usize = 0;
        let mut k: usize = 0;
        while k < i
            invariant
                k <= i <= self.items@.len(),
                n == user_count(self.items@.take(k as int)),
                n <= k,
            decreases i - k,
        {
            assert(self.items@.take(k + 1).drop_last() =~= self.items@.take(k as int));
            if !self.items[k].from_autoplay {
                n = n + 1;
            }
            k = k + 1;
        }
        n
    }

    /// Sets the repeat mode; repeating the whole queue drops the autoplay block (the current
    /// item stays, as a user item).
    #[verifier::spinoff_prover]
    #[verifier::rlimit(30)]
    pub fn set_repeat(&mut self, mode: RepeatMode)
        requires
            old(self).wf(),
        ensures
            set_repeat_post(*old(self), *final(self), mode),
            step_post(*old(self), *final(self), QueueStep::SetRepeat(mode)),
    {
        self.repeat = mode;
        if mode != RepeatMode::All {
            return;
        }
        let current_id = match self.current {
            Some(c) => Some(self.items[c].id),
            None => None,
        };
        self.mark_current_user();
        proof {
            lemma_mark_current_ids(old(self).items@, old(self).current);
        }
        if self.autoplay_start() == self.items.len() {
            return;
        }
        let ghost m = self.items@;
        proof {
            if ids_distinct(old(self).items@) {
                lemma_users_distinct(m);
            }
            lemma_users_no_autoplay(m);
            lemma_first_where(users(m), |i: QueueItem| i.from_autoplay, users(m).len() as int);
        }
        match self.shuffle.take() {
            Some(order) => {
                proof {
                    lemma_drop_autoplay_perm(order@, m);
                }
                self.shuffle = Some(self.drop_autoplay_order(&order));
            },
            None => {},
        }
        let all = self.items.split_off(0);
        assert(all@ =~= m);
        self.items = keep_users(all);
        proof {
            lemma_users_ids(m, self.next_id);
        }
        if let Some(cid) = current_id {
            let c = self.current.unwrap();
            proof {
                lemma_current_user_found(m, c as int);
            }
            self.current = self.find_id(cid);
        } else {
            assert(m.len() == 0);
        }
    }

    /// Makes the current item a user item.
    fn mark_current_user(&mut self)
        requires
            old(self).wf(),
        ensures
            final(self).wf(),
            final(self).queue_items() == mark_current(old(self).queue_items(), old(self).queue_current()),
            final(self).queue_current() == old(self).queue_current(),
            final(self).queue_shuffle() == old(self).queue_shuffle(),
            final(self).queue_repeat() == old(self).queue_repeat(),
            final(self).queue_next_id() == old(self).queue_next_id(),
    {
        if let Some(c) = self.current {
            let mut item = self.items.remove(c);
            item.from_autoplay = false;
            self.items.insert(c, item);
        }
        let ghost m = self.items@;
        assert(m =~= mark_current(old(self).items@, old(self).current));
        assert forall|k: int| 0 <= k < m.len() implies #[trigger] m[k].id < self.next_id by {
            assert(m[k].id == old(self).items@[k].id);
        }
    }
}

/// The user items keep ids below a bound that all items keep.
pub proof fn lemma_users_ids(m: Seq<QueueItem>, bound: i64)
    requires
        forall|k: int| 0 <= k < m.len() ==> #[trigger] m[k].id < bound,
    ensures
        users(m).len() == user_count(m),
        forall|k: int| 0 <= k < users(m).len() ==> #[trigger] users(m)[k].id < bound,
{
    lemma_users(m);
    assert forall|k: int| 0 <= k < users(m).len() implies #[trigger] users(m)[k].id < bound by {
        assert(occurs_in(m, users(m)[k]));
        let j = choose|j: int| 0 <= j < m.len() && #[trigger] m[j] == users(m)[k];
    }
}

/// A user item is found among the user items by its id.
pub proof fn lemma_current_user_found(m: Seq<QueueItem>, c: int)
    requires
        0 <= c < m.len(),
        !m[c].from_autoplay,
    ensures
        index_of_id(users(m), m[c].id) < users(m).len(),
{
    lemma_users(m);
    let cid = m[c].id;
    lemma_first_where_props(users(m), |i: QueueItem| i.id == cid);
    assert(users(m)[user_count(m.take(c)) as int].id == cid);
}


/// The item as a user item.
pub open spec fn as_user(i: QueueItem) -> QueueItem {
    QueueItem { track: i.track, from_autoplay: false, id: i.id }
}

/// Where the autoplay block starts in a play order: the first place that holds an autoplay item,
/// or the order's length where none does.
pub open spec fn autoplay_in(items: Seq<QueueItem>, order: Seq<usize>) -> nat {
    first_where(order, |i: usize| items[i as int].from_autoplay)
}

impl PlayQueue {
    /// Where the autoplay block starts in `order`.
    fn autoplay_in_order(&self, order: &Vec<usize>) -> (r: usize)
        requires
            forall|k: int| 0 <= k < order@.len() ==> (#[trigger] order@[k]) < self.items@.len(),
        ensures
            r == autoplay_in(self.items@, order@),
    {
        let mut i: usize = 0;
        while i < order.len() && !self.items[order[i]].from_autoplay
            invariant
                i <= order@.len(),
                forall|k: int| 0 <= k < order@.len() ==> (#[trigger] order@[k]) < self.items@.len(),
                forall|k: int| 0 <= k < i ==> !self.items@[(#[trigger] order@[k]) as int].from_autoplay,
            decreases order@.len() - i,
        {
            i = i + 1;
        }
        proof {
            lemma_first_where(order@, |j: usize| self.items@[j as int].from_autoplay, i as int);
        }
        i
    }
}

/// The items once the one at `index` is moved to `to`: an autoplay item that lands in the user
/// part becomes a user item.
pub open spec fn moved_items(items: Seq<QueueItem>, index: int, to: int) -> Seq<QueueItem> {
    let rest = items.remove(index);
    let target = if to < rest.len() { to } else { rest.len() as int };
    let item = items[index];
    rest.insert(target, if item.from_autoplay && target <= autoplay_from(rest) { as_user(item) } else { item })
}

impl PlayQueue {
    /// Moves an item to place `to` in play order. An autoplay item moved into the user part
    /// becomes a user item.
    pub fn move_item(&mut self, id: i64, to: usize)
        requires
            old(self).wf(),
        ensures
            move_item_post(*old(self), *final(self), id, to),
            step_post(*old(self), *final(self), (QueueStep::MoveItem { id, to })),
    {
        let index = match self.find_id(id) {
            Some(i) => i,
            None => return,
        };
        let ghost n = self.items@.len();
        match self.shuffle.take() {
            Some(mut order) => {
                proof {
                    lemma_perm_contains(order@, n, index);
                }
                let ghost o = order@;
                match position_of(&order, index) {
                    Some(from) => {
                        order.remove(from);
                        let target = if to < order.len() { to } else { order.len() };
                        proof {
                            assert forall|k: int| 0 <= k < order@.len() implies (#[trigger] order@[k]) < self.items@.len() by {
                                if k < from {
                                    assert(order@[k] == o[k]);
                                } else {
                                    assert(order@[k] == o[k + 1]);
                                }
                            }
                        }
                        let block = self.autoplay_in_order(&order);
                        if self.items[index].from_autoplay && target <= block {
                            let ghost before = self.items@;
                            let mut item = self.items.remove(index);
                            item.from_autoplay = false;
                            self.items.insert(index, item);
                            proof {
                                assert(self.items@ =~= before.update(index as int, as_user(before[index as int])));
                                assert forall|k: int| 0 <= k < self.items@.len() implies #[trigger] self.items@[k].id < self.next_id by {
                                    assert(self.items@[k].id == before[k].id);
                                }
                            }
                        }
                        order.insert(target, index);
                        proof {
                            lemma_move_perm(o, n, from as int, target as int);
                        }
                    },
                    None => {},
                }
                self.shuffle = Some(order);
                return;
            },
            None => {},
        }
        let current_id = match self.current {
            Some(c) => Some(self.items[c].id),
            None => None,
        };
        let ghost old_items = self.items@;
        let mut item = self.items.remove(index);
        let ghost rest = self.items@;
        let target = if to < self.items.len() { to } else { self.items.len() };
        if item.from_autoplay && target <= self.autoplay_start() {
            item.from_autoplay = false;
        }
        self.items.insert(target, item);
        let ghost m = self.items@;
        assert(m =~= moved_items(old_items, index as int, to as int));
        proof {
            if ids_distinct(old_items) {
                lemma_moved_ids(old_items, index as int, to as int);
            }
        }
        assert forall|k: int| 0 <= k < m.len() implies #[trigger] m[k].id < self.next_id by {
            if k < target {
                assert(m[k] == rest[k]);
            } else if k > target {
                assert(m[k] == rest[k - 1]);
            }
            assert forall|j: int| 0 <= j < rest.len() implies #[trigger] rest[j].id < self.next_id by {
                if j < index {
                    assert(rest[j] == old_items[j]);
                } else {
                    assert(rest[j] == old_items[j + 1]);
                }
            }
        }
        if let Some(cid) = current_id {
            let c = self.current.unwrap();
            proof {
                // The current item is still there, under its id.
                let at: int = if c == index {
                    target as int
                } else {
                    let r: int = if c < index { c as int } else { c - 1 };
                    if r < target { r } else { r + 1 }
                };
                if c != index {
                    let r: int = if c < index { c as int } else { c - 1 };
                    assert(rest[r] == old_items[c as int]);
                }
                assert(m[at].id == cid);
                lemma_first_where_props(m, |i: QueueItem| i.id == cid);
            }
            self.current = self.find_id(cid);
        }
    }
}


/// The shuffled play order: the current item first, then the user part in the order `p`, then
/// the autoplay items (from `aps` on) in their own order.
pub open spec fn shuffle_order(aps: nat, n: nat, current: Option<usize>, p: Seq<usize>) -> Seq<usize> {
    match current {
        Some(c) => seq![c] + p + range_except(aps as int, n as int, current),
        None => p + range(aps as int, (n - aps) as nat),
    }
}

/// The user indices that a shuffle reorders: those before `aps`, without the current one.
pub open spec fn shuffle_candidates_of(aps: nat, current: Option<usize>) -> Seq<usize> {
    range_except(0, aps as int, current)
}

/// A shuffled order built from a reordering of the candidates orders all items.
pub proof fn lemma_shuffle_order_perm(aps: nat, n: nat, current: Option<usize>, p: Seq<usize>)
    requires
        aps <= n <= usize::MAX,
        (current is Some) == (n > 0),
        current matches Some(c) ==> c < n,
        same_elements(p, shuffle_candidates_of(aps, current)),
    ensures
        is_perm(shuffle_order(aps, n, current, p), n),
{
    let cand = shuffle_candidates_of(aps, current);
    lemma_range_except(0, aps as int, current);
    lemma_range_except(aps as int, n as int, current);
    let rest = range_except(aps as int, n as int, current);
    assert forall|i: int| 0 <= i < p.len() implies #[trigger] p[i] < aps && current != Some(p[i]) by {
        assert(cand.contains(p[i]));
        let k = choose|k: int| 0 <= k < cand.len() && cand[k] == p[i];
    }
    assert forall|i: int, j: int| 0 <= i < p.len() && 0 <= j < rest.len() implies p[i] != rest[j] by {
        assert(p[i] < aps);
        assert(aps <= rest[j]);
    }
    lemma_concat_distinct(p, rest);
    match current {
        Some(c) => {
            let head = seq![c];
            assert forall|i: int, j: int| 0 <= i < head.len() && 0 <= j < (p + rest).len() implies head[i] != (p + rest)[j] by {
                if j < p.len() {
                    assert((p + rest)[j] == p[j]);
                } else {
                    assert((p + rest)[j] == rest[j - p.len()]);
                }
            }
            assert(distinct(head));
            lemma_concat_distinct(head, p + rest);
            assert(head + p + rest =~= head + (p + rest));
            let o = shuffle_order(aps, n, current, p);
            assert forall|k: int| 0 <= k < o.len() implies #[trigger] o[k] < n by {
                if k == 0 {
                } else if k < 1 + p.len() {
                    assert(o[k] == p[k - 1]);
                } else {
                    assert(o[k] == rest[k - 1 - p.len()]);
                }
            }
        },
        None => {
            let o = shuffle_order(aps, n, current, p);
            assert(o =~= p + rest);
        },
    }
}

/// One step of the xorshift generator.
pub open spec fn xorshift(s: u64) -> u64 {
    let a = s ^ (s << 13u64);
    let b = a ^ (a >> 7u64);
    b ^ (b << 17u64)
}

/// The generator's first state: the clock, a constant and the length turned left by 17 bits.
pub open spec fn shuffle_seed(clock: i64, len: u64) -> u64 {
    (clock as u64) ^ 0x9E37_79B9_7F4A_7C15u64 ^ ((len << 17u64) | (len >> 47u64))
}

/// Fisher–Yates from position `i - 1` down to 1: each position swaps with one at or before it,
/// picked by the next state of the generator.
pub open spec fn shuffle_from(items: Seq<usize>, i: nat, state: u64) -> Seq<usize>
    decreases i,
{
    if i <= 1 || i > items.len() {
        items
    } else {
        let k = (i - 1) as nat;
        let s = xorshift(state);
        let j = (s % ((k as u64) + 1) as u64) as int;
        shuffle_from(items.update(k as int, items[j]).update(j, items[k as int]), k, s)
    }
}

/// A random order of `items` (Fisher–Yates on a small clock-seeded generator: no cryptographic
/// strength is needed here): the order that the generator gives from the clock's reading.
fn rand_order(items: Vec<usize>) -> (r: Vec<usize>)
    requires
        distinct(items@),
    ensures
        same_elements(r@, items@),
        exists|clock: i64| r@ == shuffle_from(items@, items@.len(), #[trigger] shuffle_seed(clock, items@.len() as u64)),
{
    let len = items.len();
    let ghost orig = items@;
    let n64 = len as u64;
    let clock = now_ms();
    let mut state: u64 = (clock as u64) ^ 0x9E37_79B9_7F4A_7C15u64 ^ ((n64 << 17u64) | (n64 >> 47u64));
    let ghost seed = state;
    assert(seed == shuffle_seed(clock, len as u64));
    let mut items = items;
    let mut i: usize = len;
    while i > 1
        invariant
            1 <= i <= len || (i == len && len <= 1),
            items@.len() == len,
            len == orig.len(),
            distinct(items@),
            forall|k: int| 0 <= k < items@.len() ==> orig.contains(#[trigger] items@[k]),
            shuffle_from(items@, i as nat, state) == shuffle_from(orig, len as nat, seed),
        decreases i,
    {
        let ghost items0 = items@;
        let ghost state0 = state;
        i = i - 1;
        state = state ^ (state << 13u64);
        state = state ^ (state >> 7u64);
        state = state ^ (state << 17u64);
        let bound: u64 = i as u64 + 1;
        let j = (state % bound) as usize;
        let a = items[i];
        let b = items[j];
        let ghost before = items@;
        items.set(i, b);
        items.set(j, a);
        proof {
            let after = items@;
            assert forall|k: int| 0 <= k < after.len() implies #[trigger] after[k] == before[
                if k == i { j as int } else if k == j { i as int } else { k }
            ] by {}
            assert forall|k: int| 0 <= k < after.len() implies orig.contains(#[trigger] after[k]) by {
                let src: int = if k == i { j as int } else if k == j { i as int } else { k };
                assert(after[k] == before[src]);
            }
            assert forall|x: int, y: int| 0 <= x < after.len() && 0 <= y < after.len() && x != y implies after[x] != after[y] by {
                let sx: int = if x == i { j as int } else if x == j { i as int } else { x };
                let sy: int = if y == i { j as int } else if y == j { i as int } else { y };
                assert(after[x] == before[sx] && after[y] == before[sy]);
            }
            assert(state == xorshift(state0));
            assert(j as int == (state % ((i as u64) + 1) as u64) as int);
            assert(after =~= items0.update(i as int, items0[j as int]).update(j as int, items0[i as int]));
            assert(shuffle_from(items0, (i + 1) as nat, state0) == shuffle_from(after, i as nat, state));
        }
    }
    assert(items@ == shuffle_from(items@, i as nat, state));
    items
}

impl PlayQueue {
    /// The user indices that a shuffle reorders: those before the autoplay block, without the
    /// current one, in order.
    pub fn shuffle_candidates(&self) -> (r: Vec<usize>)
        ensures
            r@ == shuffle_candidates_of(autoplay_from(self.queue_items()), self.queue_current()),
    {
        let aps = self.autoplay_start();
        let mut r: Vec<usize> = Vec::new();
        push_range_except(&mut r, 0, aps, self.current);
        assert(r@ =~= shuffle_candidates_of(aps as nat, self.current));
        r
    }

    /// Turns shuffle on or off. On, `shuffled` is the new order of the user part without the
    /// current item (see `shuffle_candidates`); the current item plays first and the autoplay
    /// block stays last, in its order. Off, the original order comes back.
    pub fn set_shuffle(&mut self, on: bool, shuffled: Vec<usize>)
        requires
            old(self).wf(),
            on ==> same_elements(shuffled@, shuffle_candidates_of(autoplay_from(old(self).queue_items()), old(self).queue_current())),
        ensures
            final(self).wf(),
            final(self).queue_items() == old(self).queue_items(),
            final(self).queue_current() == old(self).queue_current(),
            final(self).queue_repeat() == old(self).queue_repeat(),
            final(self).queue_next_id() == old(self).queue_next_id(),
            final(self).queue_shuffle() == if on {
                Some(shuffle_order(autoplay_from(old(self).queue_items()), old(self).queue_items().len(), old(self).queue_current(), shuffled@))
            } else {
                None::<Seq<usize>>
            },
            step_post(*old(self), *final(self), (QueueStep::SetShuffle { on, order: shuffled })),
    {
        if !on {
            self.shuffle = None;
            return;
        }
        proof {
            lemma_first_where_props(self.items@, |i: QueueItem| i.from_autoplay);
        }
        let aps = self.autoplay_start();
        let n = self.items.len();
        let mut order: Vec<usize> = Vec::new();
        let mut shuffled = shuffled;
        if let Some(c) = self.current {
            order.push(c);
        }
        let ghost p = shuffled@;
        order.append(&mut shuffled);
        match self.current {
            Some(_) => push_range_except(&mut order, aps, n, self.current),
            None => push_range_except(&mut order, aps, n, None),
        }
        proof {
            lemma_shuffle_order_perm(aps as nat, n as nat, self.current, p);
            assert(order@ =~= shuffle_order(aps as nat, n as nat, self.current, p));
        }
        self.shuffle = Some(order);
    }

    /// Turns shuffle on (in a random order) or off.
    pub fn shuffle(&mut self, on: bool)
        requires
            old(self).wf(),
        ensures
            shuffle_post(*old(self), *final(self), on),
            step_post(*old(self), *final(self), QueueStep::Shuffle(on)),
    {
        if !on {
            self.set_shuffle(false, Vec::new());
            return;
        }
        let candidates = self.shuffle_candidates();
        proof {
            assert(self.items@.len() == self.items.len());
            lemma_first_where_props(self.items@, |i: QueueItem| i.from_autoplay);
            lemma_range_except(0, autoplay_from(self.items@) as int, self.current);
        }
        let p = rand_order(candidates);
        let ghost pv = p@;
        self.set_shuffle(true, p);
        assert(self.queue_shuffle() == Some(
            shuffle_order(autoplay_from(old(self).queue_items()), old(self).queue_items().len(), old(self).queue_current(), pv),
        ));
    }
}


/// The largest id of `items`, or 0 where there are none.
pub open spec fn max_id(items: Seq<QueueItem>) -> i64
    decreases items.len(),
{
    if items.len() == 0 {
        0
    } else if items.len() == 1 {
        items[0].id
    } else {
        let m = max_id(items.drop_last());
        if items.last().id > m { items.last().id } else { m }
    }
}

/// No id is above `max_id`.
pub proof fn lemma_max_id(items: Seq<QueueItem>)
    ensures
        forall|k: int| 0 <= k < items.len() ==> #[trigger] items[k].id <= max_id(items),
    decreases items.len(),
{
    if items.len() > 1 {
        lemma_max_id(items.drop_last());
        assert forall|k: int| 0 <= k < items.len() implies #[trigger] items[k].id <= max_id(items) by {
            if k < items.len() - 1 {
                assert(items[k] == items.drop_last()[k]);
            }
        }
    }
}

/// Whether `o` orders the indices below `n`, each once.
pub fn is_permutation(o: &Vec<usize>, n: usize) -> (r: bool)
    ensures
        r == is_perm(o@, n as nat),
{
    if o.len() != n {
        return false;
    }
    let mut seen: Vec<bool> = Vec::new();
    let mut i: usize = 0;
    while i < n
        invariant
            i <= n,
            seen@.len() == i,
            forall|v: int| 0 <= v < i ==> !#[trigger] seen@[v],
        decreases n - i,
    {
        seen.push(false);
        i = i + 1;
    }
    let mut k: usize = 0;
    while k < o.len()
        invariant
            o@.len() == n,
            k <= n,
            seen@.len() == n,
            forall|j: int| 0 <= j < k ==> #[trigger] o@[j] < n,
            distinct(o@.take(k as int)),
            forall|v: int| 0 <= v < n ==> (#[trigger] seen@[v] <==> o@.take(k as int).contains(v as usize)),
        decreases n - k,
    {
        let v = o[k];
        if v >= n {
            return false;
        }
        if seen[v] {
            proof {
                assert(o@.take(k as int).contains(v));
                let j = choose|j: int| 0 <= j < k && o@.take(k as int)[j] == v;
                assert(o@[j] == o@[k as int]);
            }
            return false;
        }
        seen.set(v, true);
        proof {
            let t = o@.take(k + 1);
            assert(t =~= o@.take(k as int).push(v));
            assert forall|a: int, b: int| 0 <= a < t.len() && 0 <= b < t.len() && a != b implies t[a] != t[b] by {
                if a == k {
                    assert(t[b] == o@.take(k as int)[b]);
                    assert(o@.take(k as int).contains(t[b]));
                } else if b == k {
                    assert(t[a] == o@.take(k as int)[a]);
                    assert(o@.take(k as int).contains(t[a]));
                } else {
                    assert(t[a] == o@.take(k as int)[a] && t[b] == o@.take(k as int)[b]);
                }
            }
            assert forall|w: int| 0 <= w < n implies (#[trigger] seen@[w] <==> t.contains(w as usize)) by {
                if t.contains(w as usize) && w != v {
                    let j = choose|j: int| 0 <= j < t.len() && t[j] == w as usize;
                    assert(o@.take(k as int)[j] == w);
                }
                if w != v && o@.take(k as int).contains(w as usize) {
                    let j = choose|j: int| 0 <= j < k && o@.take(k as int)[j] == w as usize;
                    assert(t[j] == w);
                }
                if w == v {
                    assert(t[k as int] == v);
                }
            }
        }
        k = k + 1;
    }
    assert(o@.take(n as int) =~= o@);
    true
}

impl QueueSnapshot {
    /// The saved play order, by its view.
    pub open spec fn order_view(&self) -> Option<Seq<usize>> {
        match self.shuffle_order {
            Some(o) => Some(o@),
            None => None,
        }
    }

    /// This snapshot saves the queue `q` at the playback position `position_ms`.
    pub open spec fn saves(&self, q: &PlayQueue, position_ms: i64) -> bool {
        &&& self.items@.len() == q.queue_items().len()
        &&& forall|k: int| 0 <= k < self.items@.len() ==> (#[trigger] self.items@[k]).same_as(&q.queue_items()[k])
        &&& self.index == match q.queue_current() {
            Some(c) => c as i64,
            None => -1i64,
        }
        &&& self.order_view() == q.queue_shuffle()
        &&& self.position_ms == position_ms
        &&& self.repeat == q.queue_repeat()
    }
}

impl PlayQueue {
    /// This queue is `snapshot` brought back: its items; the saved index, kept within the items;
    /// the saved play order where it orders the items; new ids after the largest saved one.
    pub open spec fn restored_from(&self, snapshot: &QueueSnapshot) -> bool {
        let items = snapshot.items@;
        &&& self.queue_items() == items
        &&& self.queue_next_id() == max_id(items) + 1
        &&& self.queue_current() == if items.len() == 0 {
            None
        } else {
            let i: usize = if snapshot.index < 0 { 0usize } else { snapshot.index as usize };
            Some(if i < items.len() { i } else { (items.len() - 1) as usize })
        }
        &&& self.queue_shuffle() == match snapshot.order_view() {
            Some(o) => if is_perm(o, items.len()) { Some(o) } else { None },
            None => None,
        }
        &&& self.queue_repeat() == snapshot.repeat
    }
}

/// Copies of the items, each the same as its original.
fn clone_items(v: &Vec<QueueItem>) -> (r: Vec<QueueItem>)
    ensures
        r@.len() == v@.len(),
        forall|k: int| 0 <= k < v@.len() ==> (#[trigger] r@[k]).same_as(&v@[k]),
{
    let mut r: Vec<QueueItem> = Vec::new();
    let mut i: usize = 0;
    while i < v.len()
        invariant
            i <= v.len(),
            r@.len() == i,
            forall|k: int| 0 <= k < i ==> (#[trigger] r@[k]).same_as(&v@[k]),
        decreases v.len() - i,
    {
        r.push(v[i].clone());
        i = i + 1;
    }
    r
}

impl PlayQueue {
    /// Plays the list from the chosen track; with shuffle, the chosen one plays first.
    pub fn set_list(&mut self, tracks: Vec<Track>, start: usize, shuffle: bool)
        requires
            old(self).wf(),
            old(self).queue_next_id() + tracks@.len() <= i64::MAX,
        ensures
            set_list_post(*old(self), *final(self), tracks, start, shuffle),
            step_post(*old(self), *final(self), (QueueStep::SetList { tracks, start, shuffle })),
    {
        self.set_list_in_order(tracks, start);
        if shuffle {
            self.shuffle(true);
        }
    }

    /// A single track (search, "Recent", a link): autoplay of similar ones follows.
    pub fn set_single(&mut self, track: Track)
        requires
            old(self).wf(),
            old(self).queue_next_id() < i64::MAX,
        ensures
            set_single_post(*old(self), *final(self), track),
            step_post(*old(self), *final(self), QueueStep::SetSingle(track)),
    {
        let ghost t = track;
        let v = vec![track];
        assert(v@ =~= seq![t]);
        self.set_list(v, 0, false);
        assert(new_items(seq![t], false, old(self).queue_next_id())
            =~= seq![QueueItem { track: t, from_autoplay: false, id: old(self).queue_next_id() as i64 }]);
        assert(self.queue_items() == seq![QueueItem { track: t, from_autoplay: false, id: old(self).queue_next_id() as i64 }]);
    }

    /// A copy of the queue, with the playback position.
    pub fn snapshot(&self, position_ms: i64) -> (r: QueueSnapshot)
        ensures
            r.saves(self, position_ms),
    {
        QueueSnapshot {
            items: clone_items(&self.items),
            index: match self.current {
                Some(c) => c as i64,
                None => -1,
            },
            shuffle_order: match &self.shuffle {
                Some(o) => Some(copy_indices(o)),
                None => None,
            },
            position_ms,
            repeat: self.repeat,
        }
    }

    /// Brings back a saved queue. A saved play order that does not order the items is dropped;
    /// new ids continue after the largest saved one.
    pub fn restore(&mut self, snapshot: QueueSnapshot)
        requires
            forall|k: int| 0 <= k < snapshot.items@.len() ==> #[trigger] snapshot.items@[k].id < i64::MAX,
        ensures
            restore_post(*old(self), *final(self), snapshot),
            step_post(*old(self), *final(self), QueueStep::Restore(snapshot)),
    {
        let QueueSnapshot { items, index, shuffle_order, position_ms: _, repeat } = snapshot;
        let ghost iv = items@;
        let mut max: i64 = 0;
        let mut k: usize = 0;
        while k < items.len()
            invariant
                k <= items.len(),
                max == max_id(items@.take(k as int)),
                max < i64::MAX,
                forall|j: int| 0 <= j < items@.len() ==> #[trigger] items@[j].id < i64::MAX,
            decreases items.len() - k,
        {
            assert(items@.take(k + 1).drop_last() =~= items@.take(k as int));
            if k == 0 || items[k].id > max {
                max = items[k].id;
            }
            k = k + 1;
        }
        assert(items@.take(items.len() as int) =~= items@);
        proof {
            lemma_max_id(items@);
            if items@.len() > 0 {
                assert(items@[0].id <= max_id(items@));
            }
        }
        let n = items.len();
        self.items = items;
        self.next_id = max + 1;
        self.current = if n == 0 {
            None
        } else {
            let i: usize = if index < 0 { 0 } else { index as usize };
            Some(if i < n { i } else { n - 1 })
        };
        self.shuffle = match shuffle_order {
            Some(o) => if is_permutation(&o, n) { Some(o) } else { None },
            None => None,
        };
        self.repeat = repeat;
    }
}


/// New items take the ids from `first_id` on, each once.
pub proof fn lemma_new_items_ids(tracks: Seq<Track>, autoplay: bool, first_id: int)
    requires
        i64::MIN <= first_id,
        first_id + tracks.len() <= i64::MAX + 1,
    ensures
        ids_distinct(new_items(tracks, autoplay, first_id)),
        forall|k: int| 0 <= k < tracks.len() ==> first_id <= #[trigger] new_items(tracks, autoplay, first_id)[k].id < first_id + tracks.len(),
{
    let new = new_items(tracks, autoplay, first_id);
    assert forall|k: int| 0 <= k < tracks.len() implies #[trigger] new[k].id == first_id + k by {}
}

/// New items put anywhere among older items with smaller ids keep the ids distinct.
pub proof fn lemma_insert_ids(items: Seq<QueueItem>, tracks: Seq<Track>, autoplay: bool, first_id: int, at: int)
    requires
        ids_distinct(items),
        forall|k: int| 0 <= k < items.len() ==> #[trigger] items[k].id < first_id,
        i64::MIN <= first_id,
        first_id + tracks.len() <= i64::MAX + 1,
        0 <= at <= items.len(),
    ensures
        ids_distinct(items.take(at) + new_items(tracks, autoplay, first_id) + items.skip(at)),
{
    let new = new_items(tracks, autoplay, first_id);
    lemma_new_items_ids(tracks, autoplay, first_id);
    let r = items.take(at) + new + items.skip(at);
    let k = new.len();
    assert forall|t: int| 0 <= t < r.len() implies
        (t < at ==> #[trigger] r[t] == items[t]) && (at <= t < at + k ==> r[t] == new[t - at])
            && (at + k <= t ==> r[t] == items[t - k]) by {}
    assert forall|i: int, j: int| 0 <= i < r.len() && 0 <= j < r.len() && i != j implies r[i].id != r[j].id by {
        let in_i = at <= i < at + k;
        let in_j = at <= j < at + k;
        let oi = if i < at { i } else { i - k };
        let oj = if j < at { j } else { j - k };
        if in_i && in_j {
            assert(r[i] == new[i - at] && r[j] == new[j - at]);
        } else if in_i {
            assert(r[i] == new[i - at] && r[j] == items[oj]);
        } else if in_j {
            assert(r[j] == new[j - at] && r[i] == items[oi]);
        } else {
            assert(r[i] == items[oi] && r[j] == items[oj]);
        }
    }
}

/// Removing an item keeps the ids distinct.
pub proof fn lemma_remove_ids(items: Seq<QueueItem>, index: int)
    requires
        ids_distinct(items),
        0 <= index < items.len(),
    ensures
        ids_distinct(items.remove(index)),
{
    let r = items.remove(index);
    assert forall|i: int, j: int| 0 <= i < r.len() && 0 <= j < r.len() && i != j implies r[i].id != r[j].id by {
        let oi = if i < index { i } else { i + 1 };
        let oj = if j < index { j } else { j + 1 };
        assert(r[i] == items[oi] && r[j] == items[oj]);
    }
}

/// Moving an item keeps the ids distinct.
pub proof fn lemma_moved_ids(items: Seq<QueueItem>, index: int, to: int)
    requires
        ids_distinct(items),
        0 <= index < items.len(),
        0 <= to,
    ensures
        ids_distinct(moved_items(items, index, to)),
{
    let rest = items.remove(index);
    lemma_remove_ids(items, index);
    let target: int = if to < rest.len() { to } else { rest.len() as int };
    let item = items[index];
    let x = if item.from_autoplay && target <= autoplay_from(rest) { as_user(item) } else { item };
    let m = moved_items(items, index, to);
    assert(m == rest.insert(target, x));
    assert(x.id == item.id);
    assert forall|j: int| 0 <= j < rest.len() implies #[trigger] rest[j].id != item.id by {
        let oj = if j < index { j } else { j + 1 };
        assert(rest[j] == items[oj]);
    }
    assert forall|i: int, j: int| 0 <= i < m.len() && 0 <= j < m.len() && i != j implies m[i].id != m[j].id by {
        let ri = if i < target { i } else { i - 1 };
        let rj = if j < target { j } else { j - 1 };
        if i == target {
            assert(m[i] == x);
            assert(m[j] == rest[rj]);
        } else if j == target {
            assert(m[j] == x);
            assert(m[i] == rest[ri]);
        } else {
            assert(m[i] == rest[ri]);
            assert(m[j] == rest[rj]);
        }
    }
}

/// Marking the current item a user item keeps every id in place.
pub proof fn lemma_mark_current_ids(items: Seq<QueueItem>, current: Option<usize>)
    ensures
        mark_current(items, current).len() == items.len(),
        forall|k: int| 0 <= k < items.len() ==> #[trigger] mark_current(items, current)[k].id == items[k].id,
        ids_distinct(items) ==> ids_distinct(mark_current(items, current)),
{
}

/// None of the user items is an autoplay item.
pub proof fn lemma_users_no_autoplay(m: Seq<QueueItem>)
    ensures
        forall|k: int| 0 <= k < users(m).len() ==> !(#[trigger] users(m)[k]).from_autoplay,
    decreases m.len(),
{
    if m.len() > 0 {
        lemma_users_no_autoplay(m.drop_last());
    }
}

/// The user items alone keep the ids distinct.
#[verifier::spinoff_prover]
pub proof fn lemma_users_distinct(m: Seq<QueueItem>)
    requires
        ids_distinct(m),
    ensures
        ids_distinct(users(m)),
    decreases m.len(),
{
    if m.len() > 0 {
        let d = m.drop_last();
        assert(ids_distinct(d)) by {
            assert forall|i: int, j: int| 0 <= i < d.len() && 0 <= j < d.len() && i != j implies d[i].id != d[j].id by {
                assert(d[i] == m[i] && d[j] == m[j]);
            }
        }
        lemma_users_distinct(d);
        if !m.last().from_autoplay {
            lemma_users_from(d, m.last().id);
            let u = users(m);
            let ud = users(d);
            assert(u == ud.push(m.last()));
            assert forall|i: int, j: int| 0 <= i < u.len() && 0 <= j < u.len() && i != j implies u[i].id != u[j].id by {
                if i < ud.len() && j < ud.len() {
                    assert(u[i] == ud[i] && u[j] == ud[j]);
                } else if i < ud.len() {
                    assert(u[i] == ud[i]);
                } else {
                    assert(u[j] == ud[j]);
                }
            }
        }
    }
}

/// An id that no item of `d` has, no user item of `d` has.
proof fn lemma_users_from(d: Seq<QueueItem>, id: i64)
    requires
        forall|k: int| 0 <= k < d.len() ==> #[trigger] d[k].id != id,
    ensures
        forall|t: int| 0 <= t < users(d).len() ==> #[trigger] users(d)[t].id != id,
    decreases d.len(),
{
    if d.len() > 0 {
        let e = d.drop_last();
        assert forall|k: int| 0 <= k < e.len() implies #[trigger] e[k].id != id by {
            assert(e[k] == d[k]);
        }
        lemma_users_from(e, id);
    }
}

/// Pressing the repeat button three times comes back to the same mode.
pub proof fn law_repeat_button_cycles(m: RepeatMode)
    ensures
        m.following().following().following() == m,
        m.following() != m,
{
}

/// A shuffled order plays the current item first, then only user items, then the autoplay block
/// in its own order; and it orders every item once.
pub proof fn law_shuffle_order_shape(aps: nat, n: nat, current: Option<usize>, p: Seq<usize>)
    requires
        aps <= n <= usize::MAX,
        (current is Some) == (n > 0),
        current matches Some(c) ==> c < n,
        same_elements(p, shuffle_candidates_of(aps, current)),
    ensures
        is_perm(shuffle_order(aps, n, current, p), n),
        current matches Some(c) ==> shuffle_order(aps, n, current, p)[0] == c,
        ({
            let o = shuffle_order(aps, n, current, p);
            let tail = range_except(aps as int, n as int, current);
            &&& o.skip(o.len() - tail.len()) == tail
            &&& forall|t: int| 0 <= t < o.len() - tail.len() ==> #[trigger] o[t] < aps || current == Some(o[t])
        }),
{
    lemma_shuffle_order_perm(aps, n, current, p);
    lemma_range_except(0, aps as int, current);
    let cand = shuffle_candidates_of(aps, current);
    let o = shuffle_order(aps, n, current, p);
    let tail = range_except(aps as int, n as int, current);
    assert forall|i: int| 0 <= i < p.len() implies #[trigger] p[i] < aps by {
        assert(cand.contains(p[i]));
        let k = choose|k: int| 0 <= k < cand.len() && cand[k] == p[i];
    }
    match current {
        Some(c) => {
            assert(o.skip(o.len() - tail.len()) =~= tail);
            assert forall|t: int| 0 <= t < o.len() - tail.len() implies #[trigger] o[t] < aps || current == Some(o[t]) by {
                if t > 0 {
                    assert(o[t] == p[t - 1]);
                }
            }
        },
        None => {
            assert(o.skip(o.len() - tail.len()) =~= tail);
            assert forall|t: int| 0 <= t < o.len() - tail.len() implies #[trigger] o[t] < aps || current == Some(o[t]) by {
                assert(o[t] == p[t]);
            }
        },
    }
}

/// Without shuffle the queue plays in the order of its items.
pub proof fn law_unshuffled_plays_in_item_order(q: PlayQueue)
    requires
        q.queue_shuffle() is None,
    ensures
        q.order().len() == q.queue_items().len(),
        forall|k: int| 0 <= k < q.order().len() ==> #[trigger] q.order()[k] == k,
{
    assert(q.items@.len() == q.items.len());
}

/// "Play next" in a shuffled order: the current item keeps its place and the new items follow
/// it directly, in the order given.
pub proof fn law_play_next_follows_current_when_shuffled(o: Seq<usize>, n: nat, c: usize, count: nat)
    requires
        is_perm(o, n),
        c < n,
        n + count <= usize::MAX,
    ensures
        ({
            let p = pos_of(o, c);
            let o2 = insert_seq(shift_up(o, c + 1, count as int), p + 1, range(c + 1, count));
            &&& pos_of(o2, c) == p
            &&& forall|j: int| 0 <= j < count ==> #[trigger] o2[p + 1 + j] == c + 1 + j
        }),
{
    lemma_perm_contains(o, n, c);
    let w = choose|w: int| 0 <= w < o.len() && o[w] == c;
    lemma_pos_of(o, c, w);
    let p = pos_of(o, c);
    let sh = shift_up(o, c + 1, count as int);
    let o2 = insert_seq(sh, p + 1, range(c + 1, count));
    lemma_insert_perm(o, n, c + 1, count, p + 1);
    assert(o2[p] == sh[p]);
    assert(sh[p] == c);
    lemma_pos_of(o2, c, p);
    assert forall|j: int| 0 <= j < count implies #[trigger] o2[p + 1 + j] == c + 1 + j by {}
}

/// "Add to end" in the order of the items: the new user items go right before the autoplay
/// block, which stays as it was.
pub proof fn law_add_to_end_goes_before_autoplay(items: Seq<QueueItem>, tracks: Seq<Track>, first_id: int)
    ensures
        ({
            let at = autoplay_from(items);
            let items2 = items.take(at as int) + new_items(tracks, false, first_id) + items.skip(at as int);
            &&& autoplay_from(items2) == at + tracks.len()
            &&& items2.skip((at + tracks.len()) as int) == items.skip(at as int)
            &&& items2.subrange(at as int, (at + tracks.len()) as int) == new_items(tracks, false, first_id)
        }),
{
    lemma_first_where_props(items, |i: QueueItem| i.from_autoplay);
    let at = autoplay_from(items);
    let new = new_items(tracks, false, first_id);
    let items2 = items.take(at as int) + new + items.skip(at as int);
    let k: int = tracks.len() as int;
    assert forall|t: int| 0 <= t < at + k implies !(#[trigger] items2[t]).from_autoplay by {
        if t < at {
            assert(items2[t] == items[t]);
        } else {
            assert(items2[t] == new[t - at]);
        }
    }
    if at < items.len() {
        assert(items2[at + k] == items[at as int]);
    }
    lemma_first_where(items2, |i: QueueItem| i.from_autoplay, at + k);
    assert(items2.skip(at + k) =~= items.skip(at as int));
    assert(items2.subrange(at as int, at + k) =~= new);
}

/// Removing another item keeps the current item current.
pub proof fn law_remove_keeps_current_item(items: Seq<QueueItem>, c: int, index: int)
    requires
        0 <= c < items.len(),
        0 <= index < items.len(),
        index != c,
    ensures
        items.remove(index)[if index < c { c - 1 } else { c }] == items[c],
{
}

/// Going to the next item and then back returns to the item one started from, where the queue
/// holds more than one item and the next one was not a repeat of the same track.
pub proof fn law_previous_undoes_next(q1: PlayQueue, q2: PlayQueue, user_action: bool)
    requires
        q1.wf(),
        q2.wf(),
        q1.queue_items().len() > 1,
        q1.queue_repeat() != RepeatMode::One || user_action,
        q1.next_index(user_action) is Some,
        q2.queue_items() == q1.queue_items(),
        q2.queue_shuffle() == q1.queue_shuffle(),
        q2.queue_repeat() == q1.queue_repeat(),
        q2.queue_current() == q1.next_index(user_action),
    ensures
        q2.previous_index() == q1.queue_current(),
{
    q1.lemma_order();
    q2.lemma_order();
    let o = q1.order();
    let p = q1.order_position();
    assert(q2.order() == o);
    if p + 1 < o.len() {
        lemma_pos_of(o, o[p + 1], p + 1);
    } else {
        lemma_pos_of(o, o[0], 0);
        assert(o.last() == o[p]);
    }
}

/// Going to the previous item and then on returns to the item one started from, where the
/// queue holds more than one item.
pub proof fn law_next_undoes_previous(q1: PlayQueue, q2: PlayQueue, user_action: bool)
    requires
        q1.wf(),
        q2.wf(),
        q1.queue_items().len() > 1,
        q1.queue_repeat() != RepeatMode::One || user_action,
        q1.previous_index() is Some,
        q2.queue_items() == q1.queue_items(),
        q2.queue_shuffle() == q1.queue_shuffle(),
        q2.queue_repeat() == q1.queue_repeat(),
        q2.queue_current() == q1.previous_index(),
    ensures
        q2.next_index(user_action) == q1.queue_current(),
{
    q1.lemma_order();
    q2.lemma_order();
    let o = q1.order();
    let p = q1.order_position();
    assert(q2.order() == o);
    if p > 0 {
        lemma_pos_of(o, o[p - 1], p - 1);
    } else {
        lemma_pos_of(o, o.last(), o.len() - 1);
    }
}

/// Restoring a snapshot brings back the same items, the current item, the play order and the
/// repeat mode.
pub proof fn law_restore_brings_back_snapshot(q: PlayQueue, s: QueueSnapshot, position_ms: i64, r: PlayQueue)
    requires
        q.wf(),
        q.queue_items().len() <= i64::MAX,
        s.saves(&q, position_ms),
        r.restored_from(&s),
    ensures
        r.queue_items().len() == q.queue_items().len(),
        forall|k: int| 0 <= k < r.queue_items().len() ==> (#[trigger] r.queue_items()[k]).same_as(&q.queue_items()[k]),
        r.queue_current() == q.queue_current(),
        r.queue_shuffle() == q.queue_shuffle(),
        r.queue_repeat() == q.queue_repeat(),
{
    if let Some(c) = q.queue_current() {
        assert(s.index == c as i64);
        assert(s.index as usize == c);
    }
    if let Some(o) = q.queue_shuffle() {
        assert(s.order_view() == Some(o));
    }
}


/// What `set_list` leaves: the list from the chosen track, shuffled where asked.
pub open spec fn set_list_post(q0: PlayQueue, q1: PlayQueue, tracks: Vec<Track>, start: usize, shuffle: bool) -> bool {
    &&& q1.wf()
    &&& q1.queue_items() == new_items(tracks@, false, q0.queue_next_id())
    &&& q1.queue_current() == if tracks@.len() == 0 {
        None
    } else {
        Some(if start < tracks@.len() { start } else { (tracks@.len() - 1) as usize })
    }
    &&& q1.queue_repeat() == q0.queue_repeat()
    &&& q1.queue_next_id() == q0.queue_next_id() + tracks@.len()
    &&& !shuffle ==> q1.queue_shuffle() is None
    &&& shuffle ==> exists|p: Seq<usize>| {
        &&& same_elements(p, shuffle_candidates_of(autoplay_from(q1.queue_items()), q1.queue_current()))
        &&& q1.queue_shuffle() == Some(
            #[trigger] shuffle_order(autoplay_from(q1.queue_items()), q1.queue_items().len(), q1.queue_current(), p),
        )
    }
    &&& ids_distinct(q1.queue_items())
}

/// What `set_single` leaves: the track alone.
pub open spec fn set_single_post(q0: PlayQueue, q1: PlayQueue, track: Track) -> bool {
    &&& q1.wf()
    &&& q1.queue_items() == seq![QueueItem { track, from_autoplay: false, id: q0.queue_next_id() as i64 }]
    &&& q1.queue_current() == Some(0usize)
    &&& q1.queue_shuffle() is None
    &&& q1.queue_repeat() == q0.queue_repeat()
    &&& q1.queue_next_id() == q0.queue_next_id() + 1
    &&& ids_distinct(q1.queue_items())
}

/// What `play_next` leaves: the tracks right after the current one.
pub open spec fn play_next_post(q0: PlayQueue, q1: PlayQueue, tracks: Vec<Track>) -> bool {
    &&& q1.wf()
    &&& tracks@.len() == 0 ==> q1 == q0
    &&& tracks@.len() > 0 && q0.queue_current() is None ==> {
        &&& q1.queue_items() == new_items(tracks@, false, q0.queue_next_id())
        &&& q1.queue_current() == Some(0usize)
        &&& q1.queue_shuffle() is None
    }
    &&& tracks@.len() > 0 && q0.queue_current() is Some ==> {
        let c = q0.queue_current()->0;
        let n = tracks@.len();
        &&& q1.queue_items() == q0.queue_items().take(c + 1)
            + new_items(tracks@, false, q0.queue_next_id()) + q0.queue_items().skip(c + 1)
        &&& q1.queue_current() == q0.queue_current()
        &&& q1.queue_shuffle() == match q0.queue_shuffle() {
            Some(o) => Some(insert_seq(shift_up(o, c + 1, n as int), q0.order_position() + 1, range(c + 1, n))),
            None => None,
        }
    }
    &&& tracks@.len() > 0 ==> q1.queue_next_id() == q0.queue_next_id() + tracks@.len()
    &&& q1.queue_repeat() == q0.queue_repeat()
    &&& ids_distinct(q0.queue_items()) ==> ids_distinct(q1.queue_items())
}

/// What `add_to_end` leaves: the tracks before the autoplay block.
pub open spec fn add_to_end_post(q0: PlayQueue, q1: PlayQueue, tracks: Vec<Track>) -> bool {
    &&& q1.wf()
    &&& tracks@.len() == 0 ==> q1 == q0
    &&& tracks@.len() > 0 && q0.queue_current() is None ==> {
        &&& q1.queue_items() == new_items(tracks@, false, q0.queue_next_id())
        &&& q1.queue_current() == Some(0usize)
        &&& q1.queue_shuffle() is None
    }
    &&& tracks@.len() > 0 && q0.queue_current() is Some ==> {
        let c = q0.queue_current()->0;
        let n = tracks@.len();
        let at = autoplay_from(q0.queue_items());
        &&& q1.queue_items() == q0.queue_items().take(at as int)
            + new_items(tracks@, false, q0.queue_next_id()) + q0.queue_items().skip(at as int)
        &&& q1.queue_current() == Some(if at <= c { (c + n) as usize } else { c })
        &&& q1.queue_shuffle() == match q0.queue_shuffle() {
            Some(o) => Some(insert_seq(
                shift_up(o, at as int, n as int),
                first_where(o, at_least(at as usize)) as int,
                range(at as int, n),
            )),
            None => None,
        }
    }
    &&& tracks@.len() > 0 ==> q1.queue_next_id() == q0.queue_next_id() + tracks@.len()
    &&& q1.queue_repeat() == q0.queue_repeat()
    &&& ids_distinct(q0.queue_items()) ==> ids_distinct(q1.queue_items())
}

/// What `remove` leaves: the item gone, unless it is the current one or absent.
pub open spec fn remove_post(q0: PlayQueue, q1: PlayQueue, id: i64) -> bool {
    &&& q1.wf()
    &&& ({
        let index = index_of_id(q0.queue_items(), id);
        if index == q0.queue_items().len() || q0.queue_current() == Some(index as usize) {
            q1 == q0
        } else {
            &&& q1.queue_items() == q0.queue_items().remove(index as int)
            &&& q1.queue_current() == match q0.queue_current() {
                Some(c) => Some(if index < c { (c - 1) as usize } else { c }),
                None => None,
            }
            &&& q1.queue_shuffle() == match q0.queue_shuffle() {
                Some(o) => Some(renumber(o, other_than(index as usize), close_gap(index as usize))),
                None => None,
            }
            &&& q1.queue_repeat() == q0.queue_repeat()
            &&& q1.queue_next_id() == q0.queue_next_id()
        }
    })
    &&& ids_distinct(q0.queue_items()) ==> ids_distinct(q1.queue_items())
}

/// What `move_item` leaves: the item at its new place (in play order where shuffled).
pub open spec fn move_item_post(q0: PlayQueue, q1: PlayQueue, id: i64, to: usize) -> bool {
    &&& q1.wf()
    &&& q1.queue_repeat() == q0.queue_repeat()
    &&& q1.queue_next_id() == q0.queue_next_id()
    &&& ({
        let items = q0.queue_items();
        let index = index_of_id(items, id);
        if index == items.len() {
            q1 == q0
        } else {
            match q0.queue_shuffle() {
                Some(o) => {
                    let rest = o.remove(pos_of(o, index as usize));
                    let target = if to < rest.len() { to as int } else { rest.len() as int };
                    let item = items[index as int];
                    &&& q1.queue_items() == if item.from_autoplay && target <= autoplay_in(items, rest) {
                        items.update(index as int, as_user(item))
                    } else {
                        items
                    }
                    &&& q1.queue_current() == q0.queue_current()
                    &&& q1.queue_shuffle() == Some(rest.insert(target, index as usize))
                },
                None => {
                    let m = moved_items(items, index as int, to as int);
                    &&& q1.queue_items() == m
                    &&& q1.queue_shuffle() is None
                    &&& q1.queue_current() == match q0.queue_current() {
                        Some(c) => Some(index_of_id(m, items[c as int].id) as usize),
                        None => None,
                    }
                },
            }
        }
    })
    &&& ids_distinct(q0.queue_items()) ==> ids_distinct(q1.queue_items())
}

/// What `clear_except_current` leaves: the current item alone.
pub open spec fn clear_except_current_post(q0: PlayQueue, q1: PlayQueue) -> bool {
    &&& q1.wf()
    &&& match q0.queue_current() {
        None => q1 == q0,
        Some(c) => {
            &&& q1.queue_items() == seq![q0.queue_items()[c as int]]
            &&& q1.queue_current() == Some(0usize)
            &&& q1.queue_shuffle() == match q0.queue_shuffle() {
                Some(_) => Some(seq![0usize]),
                None => None,
            }
            &&& q1.queue_repeat() == q0.queue_repeat()
            &&& q1.queue_next_id() == q0.queue_next_id()
        },
    }
    &&& ids_distinct(q0.queue_items()) ==> ids_distinct(q1.queue_items())
}

/// What `set_repeat` leaves: the mode set; repeating all drops the autoplay block.
pub open spec fn set_repeat_post(q0: PlayQueue, q1: PlayQueue, mode: RepeatMode) -> bool {
    &&& q1.wf()
    &&& q1.queue_repeat() == mode
    &&& q1.queue_next_id() == q0.queue_next_id()
    &&& mode != RepeatMode::All ==> {
        &&& q1.queue_items() == q0.queue_items()
        &&& q1.queue_current() == q0.queue_current()
        &&& q1.queue_shuffle() == q0.queue_shuffle()
    }
    &&& mode == RepeatMode::All ==> ({
        let m = mark_current(q0.queue_items(), q0.queue_current());
        if autoplay_from(m) == m.len() {
            &&& q1.queue_items() == m
            &&& q1.queue_current() == q0.queue_current()
            &&& q1.queue_shuffle() == q0.queue_shuffle()
        } else {
            &&& q1.queue_items() == users(m)
            &&& q1.queue_current() == match q0.queue_current() {
                Some(c) => Some(index_of_id(users(m), m[c as int].id) as usize),
                None => None,
            }
            &&& q1.queue_shuffle() == match q0.queue_shuffle() {
                Some(o) => Some(renumber(o, user_at(m), user_rank(m))),
                None => None,
            }
        }
    })
    &&& ids_distinct(q0.queue_items()) ==> ids_distinct(q1.queue_items())
    &&& mode == RepeatMode::All ==> autoplay_from(q1.queue_items()) == q1.queue_items().len()
}

/// What `shuffle` leaves: the same items in a shuffled order, or in their own.
pub open spec fn shuffle_post(q0: PlayQueue, q1: PlayQueue, on: bool) -> bool {
    &&& q1.wf()
    &&& q1.queue_items() == q0.queue_items()
    &&& q1.queue_current() == q0.queue_current()
    &&& q1.queue_repeat() == q0.queue_repeat()
    &&& q1.queue_next_id() == q0.queue_next_id()
    &&& !on ==> q1.queue_shuffle() is None
    &&& on ==> exists|p: Seq<usize>| {
        &&& same_elements(p, shuffle_candidates_of(autoplay_from(q0.queue_items()), q0.queue_current()))
        &&& q1.queue_shuffle() == Some(
            #[trigger] shuffle_order(autoplay_from(q0.queue_items()), q0.queue_items().len(), q0.queue_current(), p),
        )
    }
}

/// What `restore` leaves: the snapshot brought back.
pub open spec fn restore_post(q0: PlayQueue, q1: PlayQueue, snapshot: QueueSnapshot) -> bool {
    &&& q1.wf()
    &&& q1.restored_from(&snapshot)
}


/// A public operation on the queue, with its arguments.
pub enum QueueStep {
    SetList { tracks: Vec<Track>, start: usize, shuffle: bool },
    SetSingle(Track),
    PlayNext(Vec<Track>),
    AddToEnd(Vec<Track>),
    AppendAutoplay(Vec<Track>),
    Remove(i64),
    MoveItem { id: i64, to: usize },
    ClearExceptCurrent,
    SetRepeat(RepeatMode),
    Shuffle(bool),
    SetShuffle { on: bool, order: Vec<usize> },
    Restore(QueueSnapshot),
    JumpTo(i64),
    MoveNext(bool),
    MovePrevious,
}

/// What an operation's contract says of the queue after it, `q1`, and before it, `q0`.
pub open spec fn step_post(q0: PlayQueue, q1: PlayQueue, step: QueueStep) -> bool {
    match step {
        QueueStep::SetList { tracks, start, shuffle } => set_list_post(q0, q1, tracks, start, shuffle),
        QueueStep::SetSingle(track) => set_single_post(q0, q1, track),
        QueueStep::PlayNext(tracks) => play_next_post(q0, q1, tracks),
        QueueStep::AddToEnd(tracks) => add_to_end_post(q0, q1, tracks),
        QueueStep::AppendAutoplay(tracks) => {
            &&& q1.wf()
            &&& (tracks@.len() == 0 || q0.queue_repeat() == RepeatMode::All) ==> q1 == q0
            &&& !(tracks@.len() == 0 || q0.queue_repeat() == RepeatMode::All) ==> {
                &&& q1.queue_items() == q0.queue_items() + new_items(tracks@, true, q0.queue_next_id())
                &&& (q1.queue_shuffle() is Some) == (q0.queue_shuffle() is Some)
            }
            &&& ids_distinct(q0.queue_items()) ==> ids_distinct(q1.queue_items())
        },
        QueueStep::Remove(id) => remove_post(q0, q1, id),
        QueueStep::MoveItem { id, to } => move_item_post(q0, q1, id, to),
        QueueStep::ClearExceptCurrent => clear_except_current_post(q0, q1),
        QueueStep::SetRepeat(mode) => set_repeat_post(q0, q1, mode),
        QueueStep::Shuffle(on) => shuffle_post(q0, q1, on),
        QueueStep::SetShuffle { on, order } => {
            &&& q1.wf()
            &&& q1.queue_items() == q0.queue_items()
            &&& q1.queue_current() == q0.queue_current()
            &&& q1.queue_shuffle() == if on {
                Some(shuffle_order(autoplay_from(q0.queue_items()), q0.queue_items().len(), q0.queue_current(), order@))
            } else {
                None::<Seq<usize>>
            }
        },
        QueueStep::Restore(snapshot) => restore_post(q0, q1, snapshot),
        QueueStep::JumpTo(_) | QueueStep::MoveNext(_) | QueueStep::MovePrevious => {
            &&& q1.wf()
            &&& q1.queue_items() == q0.queue_items()
            &&& q1.queue_shuffle() == q0.queue_shuffle()
            &&& q1.queue_repeat() == q0.queue_repeat()
            &&& q1.queue_next_id() == q0.queue_next_id()
        },
    }
}

/// Ids never repeat: from a queue whose ids are distinct (a new one has none), any run of public
/// operations, restoring only snapshots whose ids are distinct (as those taken of such a queue
/// are), leaves every item an id of its own.
pub proof fn law_ids_stay_distinct(qs: Seq<PlayQueue>, steps: Seq<QueueStep>)
    requires
        qs.len() == steps.len() + 1,
        ids_distinct(qs[0].queue_items()),
        forall|k: int| 0 <= k < steps.len() ==> #[trigger] step_post(qs[k], qs[k + 1], steps[k]),
        forall|k: int| 0 <= k < steps.len() ==> (#[trigger] steps[k] matches QueueStep::Restore(s) ==> ids_distinct(s.items@)),
    ensures
        forall|k: int| 0 <= k < qs.len() ==> ids_distinct(#[trigger] qs[k].queue_items()),
    decreases steps.len(),
{
    if steps.len() > 0 {
        let n = steps.len() - 1;
        law_ids_stay_distinct(qs.drop_last(), steps.drop_last());
        assert(qs.drop_last()[n] == qs[n]);
        assert(step_post(qs[n], qs[n + 1], steps[n]));
        assert(ids_distinct(qs[n].queue_items()));
        assert(ids_distinct(qs[n + 1].queue_items()));
        assert forall|k: int| 0 <= k < qs.len() implies ids_distinct(#[trigger] qs[k].queue_items()) by {
            if k < qs.len() - 1 {
                assert(qs.drop_last()[k] == qs[k]);
            }
        }
    }
}

/// Whether the queue plays in a shuffled order.
pub open spec fn shuffled(q: PlayQueue) -> bool {
    q.queue_shuffle() is Some
}

/// The shuffle mode follows the operations: turning shuffle on or off sets it, a new list takes
/// the mode it is played in, a first track added to an empty queue plays in order, and restoring
/// takes the snapshot's order where it still orders the items; every other operation keeps it.
pub proof fn law_shuffle_mode(q0: PlayQueue, q1: PlayQueue, step: QueueStep)
    requires
        q0.wf(),
        step_post(q0, q1, step),
    ensures
        shuffled(q1) == match step {
            QueueStep::SetList { shuffle, .. } => shuffle,
            QueueStep::SetSingle(_) => false,
            QueueStep::Shuffle(on) => on,
            QueueStep::SetShuffle { on, .. } => on,
            QueueStep::PlayNext(tracks) => if tracks@.len() > 0 && q0.queue_current() is None { false } else { shuffled(q0) },
            QueueStep::AddToEnd(tracks) => if tracks@.len() > 0 && q0.queue_current() is None { false } else { shuffled(q0) },
            QueueStep::Restore(snapshot) => match snapshot.order_view() {
                Some(o) => is_perm(o, snapshot.items@.len()),
                None => false,
            },
            _ => shuffled(q0),
        },
{
}


/// Positions from `i` on are left as they are by the steps below `i`.
proof fn lemma_shuffle_keeps_tail(items: Seq<usize>, i: nat, state: u64, p: int)
    requires
        i <= items.len(),
        items.len() <= u64::MAX,
        i <= p < items.len(),
    ensures
        shuffle_from(items, i, state).len() == items.len(),
        shuffle_from(items, i, state)[p] == items[p],
    decreases i,
{
    if i > 1 {
        let k = (i - 1) as nat;
        let s = xorshift(state);
        let m = ((k as u64) + 1) as u64;
        assert(m == k + 1);
        let j = (s % m) as int;
        assert(0 <= j <= k);
        let next = items.update(k as int, items[j]).update(j, items[k as int]);
        lemma_shuffle_keeps_tail(next, k, s, p);
    }
}

/// Each step of the shuffle swaps its position with one at or before it picked by the generator,
/// so the order really changes: for two or more different items there is a clock reading for
/// which the shuffled order differs from the given one (its last item is another).
pub proof fn law_shuffle_moves_items(items: Seq<usize>)
    requires
        items.len() >= 2,
        items.len() <= u64::MAX,
        distinct(items),
    ensures
        exists|clock: i64| shuffle_from(items, items.len(), #[trigger] shuffle_seed(clock, items.len() as u64)) != items,
{
    let n = items.len();
    let n64 = n as u64;
    let key: u64 = 0x9E37_79B9_7F4A_7C15u64 ^ ((n64 << 17u64) | (n64 >> 47u64));
    let clock: i64 = key as i64;
    assert((key as i64) as u64 == key) by (bit_vector);
    assert(key ^ 0x9E37_79B9_7F4A_7C15u64 ^ ((n64 << 17u64) | (n64 >> 47u64)) == 0) by (bit_vector)
        requires
            key == 0x9E37_79B9_7F4A_7C15u64 ^ ((n64 << 17u64) | (n64 >> 47u64)),
    ;
    assert(shuffle_seed(clock, n64) == 0);
    let z: u64 = 0;
    assert(xorshift(0) == 0) by {
        assert((z ^ (z << 13u64)) == 0) by (bit_vector)
            requires
                z == 0,
        ;
        assert(((z ^ (z << 13u64)) ^ ((z ^ (z << 13u64)) >> 7u64)) == 0) by (bit_vector)
            requires
                z == 0,
        ;
        let b: u64 = 0;
        assert((b ^ (b << 17u64)) == 0) by (bit_vector)
            requires
                b == 0,
        ;
    }
    let k = (n - 1) as nat;
    assert(((0u64) % ((k as u64) + 1) as u64) as int == 0);
    let next = items.update(k as int, items[0]).update(0, items[k as int]);
    assert(shuffle_from(items, n, 0) == shuffle_from(next, k, 0));
    lemma_shuffle_keeps_tail(next, k, 0, k as int);
    assert(next[k as int] == items[0]);
    assert(items[0] != items[k as int]);
    assert(shuffle_from(items, n, shuffle_seed(clock, n64))[k as int] != items[k as int]);
}

} // verus!
