use vstd::prelude::*;

verus! {

/// Why a queue operation could not be carried out.
#[derive(Debug, Clone, Copy, PartialEq, Eq, Structural)]
pub enum QueueError {
    Full,
    Empty,
}

/// Position of the `i`-th element of a ring buffer of capacity `cap` whose
/// first element sits at `head` (for `0 <= head < cap` and `0 <= i <= cap`).
pub open spec fn ring_slot(head: int, i: int, cap: int) -> int {
    if head + i < cap {
        head + i
    } else {
        head + i - cap
    }
}

/// The queue after `push_back`: the item is appended; a full queue first
/// loses its front element.
pub open spec fn spec_push_back<T>(s: Seq<T>, x: T, cap: nat) -> Seq<T> {
    if s.len() < cap {
        s.push(x)
    } else {
        s.drop_first().push(x)
    }
}

/// The queue after `push_front`: the item is prepended; a full queue first
/// loses its last element.
pub open spec fn spec_push_front<T>(s: Seq<T>, x: T, cap: nat) -> Seq<T> {
    if s.len() < cap {
        seq![x] + s
    } else {
        seq![x] + s.drop_last()
    }
}

/// The queue after pushing every item of `items` to the back, in order.
pub open spec fn spec_push_back_all<T>(s: Seq<T>, items: Seq<T>, cap: nat) -> Seq<T>
    decreases items.len(),
{
    if items.len() == 0 {
        s
    } else {
        spec_push_back(spec_push_back_all(s, items.drop_last(), cap), items.last(), cap)
    }
}

/// Pushing a sequence of items to the back of an empty queue leaves the last
/// `cap` of them, in order: a full queue forgets its oldest items first.
pub proof fn law_push_back_keeps_newest<T>(items: Seq<T>, cap: nat)
    requires
        cap > 0,
    ensures
        spec_push_back_all(Seq::<T>::empty(), items, cap) == items.skip(
            if items.len() > cap { items.len() - cap } else { 0 },
        ),
    decreases items.len(),
{
    if items.len() > 0 {
        law_push_back_keeps_newest(items.drop_last(), cap);
        let prev = items.drop_last();
        let k = if prev.len() > cap { prev.len() - cap } else { 0 };
        let k2 = if items.len() > cap { items.len() - cap } else { 0 };
        assert(prev.skip(k).len() <= cap);
        if prev.skip(k).len() < cap {
            assert(prev.skip(k).push(items.last()) =~= items.skip(k2));
        } else {
            assert(prev.skip(k).drop_first().push(items.last()) =~= items.skip(k2));
        }
    } else {
        assert(items.skip(0) =~= items);
    }
}

/// Pushing a sequence of items to the back of a queue that holds at most
/// `cap` items leaves the last `cap` of the old items followed by the new
/// ones (all of them if they are fewer), in order.
pub proof fn law_push_back_all_keeps_newest<T>(s: Seq<T>, items: Seq<T>, cap: nat)
    requires
        cap > 0,
        s.len() <= cap,
    ensures
        spec_push_back_all(s, items, cap) == (s + items).skip(
            if s.len() + items.len() > cap { s.len() + items.len() - cap } else { 0 },
        ),
        spec_push_back_all(s, items, cap).len() == if s.len() + items.len() > cap {
            cap
        } else {
            s.len() + items.len()
        },
    decreases items.len(),
{
    if items.len() > 0 {
        let prev = items.drop_last();
        law_push_back_all_keeps_newest(s, prev, cap);
        let all_prev = s + prev;
        let all = s + items;
        assert(all =~= all_prev.push(items.last()));
        let k = if s.len() + prev.len() > cap { s.len() + prev.len() - cap } else { 0 };
        let k2 = if s.len() + items.len() > cap { s.len() + items.len() - cap } else { 0 };
        assert(all_prev.skip(k).len() <= cap);
        if all_prev.skip(k).len() < cap {
            assert(all_prev.skip(k).push(items.last()) =~= all.skip(k2));
        } else {
            assert(all_prev.skip(k).drop_first().push(items.last()) =~= all.skip(k2));
        }
    } else {
        assert((s + items).skip(0) =~= s);
    }
}

/// A queue never holds more items than its capacity.
pub proof fn law_push_keeps_capacity<T>(s: Seq<T>, x: T, cap: nat)
    requires
        s.len() <= cap,
        cap > 0,
    ensures
        spec_push_back(s, x, cap).len() <= cap,
        spec_push_front(s, x, cap).len() <= cap,
        spec_push_back(s, x, cap).len() == if s.len() < cap { s.len() + 1 } else { cap },
        spec_push_front(s, x, cap).len() == if s.len() < cap { s.len() + 1 } else { cap },
{
}

/// First in, first out: in a queue that is not full, the items before a
/// pushed-back item come out of the front first, and the pushed item is last.
pub proof fn law_fifo<T>(s: Seq<T>, x: T, cap: nat)
    requires
        s.len() < cap,
    ensures
        spec_push_back(s, x, cap).last() == x,
        spec_push_back(s, x, cap).take(s.len() as int) == s,
        s.len() > 0 ==> spec_push_back(s, x, cap)[0] == s[0],
{
    assert(s.push(x).take(s.len() as int) =~= s);
}

/// Pushing to the front of a queue that is not full, then popping the front,
/// gives the item back and restores the queue.
pub proof fn law_push_front_pop_front<T>(s: Seq<T>, x: T, cap: nat)
    requires
        s.len() < cap,
    ensures
        spec_push_front(s, x, cap)[0] == x,
        spec_push_front(s, x, cap).drop_first() == s,
{
    assert((seq![x] + s).drop_first() =~= s);
}

/// Fixed size, compact double ended queue backed by a ring buffer.
///
/// It holds at most `N` items; its contents, front first, are its view.
#[derive(Debug, Clone)]
pub struct ArrayQueue<T, const N: usize> {
    head: usize,
    size: usize,
    buff: Vec<Option<T>>,
}

impl<T, const N: usize> View for ArrayQueue<T, N> {
    type V = Seq<T>;

    closed spec fn view(&self) -> Seq<T> {
        Self::contents(self.head, self.size, self.buff@)
    }
}

impl<T, const N: usize> ArrayQueue<T, N> {
    spec fn contents(head: usize, size: usize, buff: Seq<Option<T>>) -> Seq<T> {
        Seq::new(size as nat, |i: int| buff[ring_slot(head as int, i, N as int)]->0)
    }

    spec fn filled(head: usize, buff: Seq<Option<T>>, i: int) -> bool {
        buff[ring_slot(head as int, i, N as int)] is Some
    }

    spec fn layout_ok(head: usize, size: usize, buff: Seq<Option<T>>) -> bool {
        &&& buff.len() == N
        &&& size <= N
        &&& (head < N || (N == 0 && head == 0))
        &&& forall|i: int| 0 <= i < size ==> #[trigger] Self::filled(head, buff, i)
    }

    /// The internal invariant of the ring buffer.
    pub closed spec fn wf(&self) -> bool {
        Self::layout_ok(self.head, self.size, self.buff@)
    }

    /// Store `item` in slot `i` and lend it out.
    fn store(buff: &mut Vec<Option<T>>, i: usize, item: T) -> (r: &mut T)
        requires
            i < old(buff)@.len(),
        ensures
            *r == item,
            final(buff)@ == old(buff)@.update(i as int, Some(*final(r))),
    {
        buff.set(i, Some(item));
        match &mut buff[i] {
            Some(x) => x,
            None => vstd::pervasive::unreached(),
        }
    }

    /// An empty queue.
    pub fn new() -> (q: Self)
        ensures
            q.wf(),
            q@ == Seq::<T>::empty(),
    {
        let mut buff: Vec<Option<T>> = Vec::new();
        let mut i: usize = 0;
        while i < N
            invariant
                i <= N,
                buff@.len() == i,
            decreases N - i,
        {
            buff.push(None);
            i = i + 1;
        }
        let q = ArrayQueue { head: 0, size: 0, buff };
        assert(q@ =~= Seq::<T>::empty());
        q
    }

    /// A queue holding the first `N` items of `items`, in order.
    pub fn from_slice(items: &[T]) -> (q: Self)
        where T: Copy,
        ensures
            q.wf(),
            q@ == items@.take(if items@.len() < N { items@.len() as int } else { N as int }),
    {
        let mut q = Self::new();
        let n: usize = if items.len() < N { items.len() } else { N };
        let mut i: usize = 0;
        while i < n
            invariant
                n <= N,
                n <= items@.len(),
                i <= n,
                q.wf(),
                q@ == items@.take(i as int),
            decreases n - i,
        {
            q.push_back(items[i]);
            assert(q@ =~= items@.take(i + 1));
            i = i + 1;
        }
        q
    }

    /// A queue holding all of `items`, in order; `Full` if they are more
    /// than it can hold. This is how a stored queue is read back.
    pub fn try_from_slice(items: &[T]) -> (r: Result<Self, QueueError>)
        where T: Copy,
        ensures
            items@.len() <= N ==> (r matches Ok(q) && q.wf() && q@ == items@),
            items@.len() > N ==> r matches Err(QueueError::Full),
    {
        if items.len() > N {
            return Err(QueueError::Full);
        }
        let q = Self::from_slice(items);
        assert(items@.take(items@.len() as int) =~= items@);
        Ok(q)
    }

    /// The items, front first. This is how a queue is stored.
    pub fn to_vec(&self) -> (v: Vec<T>)
        where T: Copy,
        requires
            self.wf(),
        ensures
            v@ == self@,
    {
        let mut v: Vec<T> = Vec::new();
        let mut it = self.iter();
        let ghost all = self@;
        while v.len() < self.len()
            invariant
                it.wf(),
                v@ + it@ == all,
                all == self@,
                self.wf(),
            decreases all.len() - v@.len(),
        {
            match it.next() {
                Some(p) => {
                    v.push(*p);
                    assert(v@ + it@ =~= all);
                },
                None => {
                    assert(false);
                },
            }
        }
        assert(it@.len() == 0);
        assert(v@ =~= all);
        v
    }

    /// Push every item of `items` to the back, in order.
    pub fn extend(&mut self, items: Vec<T>)
        requires
            old(self).wf(),
            items@.len() > 0 ==> N > 0,
        ensures
            final(self).wf(),
            final(self)@ == spec_push_back_all(old(self)@, items@, N as nat),
            final(self)@ == (old(self)@ + items@).skip(
                if old(self)@.len() + items@.len() > N { old(self)@.len() + items@.len() - N } else { 0 },
            ),
    {
        proof {
            self.lemma_len_bound();
            if N > 0 {
                law_push_back_all_keeps_newest(self@, items@, N as nat);
            } else {
                assert((self@ + items@).skip(0) =~= self@);
            }
        }
        let ghost start = self@;
        for x in it: items.into_iter()
            invariant
                items@.len() > 0 ==> N > 0,
                self.wf(),
                it.seq() == items@,
                self@ == spec_push_back_all(start, it.seq().take(it.index() as int), N as nat),
        {
            proof {
                assert(it.seq().take(it.index() + 1).drop_last() =~= it.seq().take(it.index() as int));
            }
            self.push_back(x);
        }
        assert(items@.take(items@.len() as int) =~= items@);
    }

    #[verifier::inline]
    spec fn next_slot(ind: int) -> int {
        if ind + 1 < N { ind + 1 } else { 0 }
    }

    #[verifier::inline]
    spec fn prev_slot(ind: int) -> int {
        if ind == 0 { N - 1 } else { ind - 1 }
    }

    fn increment_one(ind: usize) -> (r: usize)
        requires
            ind < N,
        ensures
            r == Self::next_slot(ind as int),
    {
        if ind + 1 < N { ind + 1 } else { 0 }
    }

    fn decrease_one(ind: usize) -> (r: usize)
        requires
            ind < N,
        ensures
            r == Self::prev_slot(ind as int),
    {
        if ind == 0 { N - 1 } else { ind - 1 }
    }

    /// Slot of the last element.
    fn tail(&self) -> (t: usize)
        requires
            self.size <= N,
            self.head < N,
            self.size != 0,
        ensures
            t == ring_slot(self.head as int, self.size - 1, N as int),
            t < N,
    {
        let off = self.size - 1;
        if off >= N - self.head {
            off - (N - self.head)
        } else {
            self.head + off
        }
    }

    /// Try to push an item to the front, fail if the queue is full.
    pub fn try_push_front(&mut self, item: T) -> (r: Result<&mut T, QueueError>)
        requires
            old(self).wf(),
        ensures
            final(self).wf(),
            old(self)@.len() == N ==> (r matches Err(e) && e == QueueError::Full && final(self)@
                == old(self)@),
            old(self)@.len() < N ==> (r matches Ok(x) && *x == item),
            r matches Ok(x) ==> final(self)@ == seq![*final(x)] + old(self)@,
    {
        if self.size >= N {
            return Err(QueueError::Full);
        }
        let r = self.push_front(item);
        Ok(r)
    }

    /// Push to the front of the queue.
    /// Remove the last element if the queue is full.
    pub fn push_front(&mut self, item: T) -> (r: &mut T)
        requires
            old(self).wf(),
            N > 0,
        ensures
            final(self).wf(),
            *r == item,
            final(self)@ == spec_push_front(old(self)@, *final(r), N as nat),
    {
        let ghost old_q = self@;
        let ghost old_head = self.head;
        if self.size < N {
            self.size = self.size + 1;
        }
        self.head = Self::decrease_one(self.head);
        let h = self.head;
        let ghost sz = self.size;
        let ghost before = self.buff@;
        proof {
            assert forall|x: T|
                #![trigger before.update(h as int, Some(x))]
                Self::layout_ok(h, sz, before.update(h as int, Some(x))) && Self::contents(
                    h,
                    sz,
                    before.update(h as int, Some(x)),
                ) == spec_push_front(old_q, x, N as nat) by {
                let b = before.update(h as int, Some(x));
                let expected = spec_push_front(old_q, x, N as nat);
                assert forall|i: int| 0 <= i < sz implies #[trigger] Self::filled(h, b, i) by {
                    if i > 0 {
                        assert(ring_slot(h as int, i, N as int) == ring_slot(old_head as int, i - 1, N as int));
                        assert(Self::filled(old_head, before, i - 1));
                    }
                }
                assert forall|i: int| 0 <= i < expected.len() implies Self::contents(h, sz, b)[i] == expected[i] by {
                    if i > 0 {
                        assert(ring_slot(h as int, i, N as int) == ring_slot(old_head as int, i - 1, N as int));
                    }
                }
                assert(Self::contents(h, sz, b) =~= expected);
            }
        }
        Self::store(&mut self.buff, h, item)
    }

    /// Try to push an item, fail if the queue is full.
    pub fn try_push_back(&mut self, item: T) -> (r: Result<&mut T, QueueError>)
        requires
            old(self).wf(),
        ensures
            final(self).wf(),
            old(self)@.len() == N ==> (r matches Err(e) && e == QueueError::Full && final(self)@
                == old(self)@),
            old(self)@.len() < N ==> (r matches Ok(x) && *x == item),
            r matches Ok(x) ==> final(self)@ == old(self)@.push(*final(x)),
    {
        if self.size >= N {
            return Err(QueueError::Full);
        }
        let r = self.push_back(item);
        Ok(r)
    }

    /// Push an item, the queue loses the first item if the queue is full.
    pub fn push_back(&mut self, item: T) -> (r: &mut T)
        requires
            old(self).wf(),
            N > 0,
        ensures
            final(self).wf(),
            *r == item,
            final(self)@ == spec_push_back(old(self)@, *final(r), N as nat),
    {
        let ghost old_q = self@;
        let ghost old_head = self.head;
        let ghost was_full = self.size == N;
        if self.size >= N {
            self.head = Self::increment_one(self.head);
        } else {
            self.size = self.size + 1;
        }
        let t = self.tail();
        let ghost h = self.head;
        let ghost sz = self.size;
        let ghost before = self.buff@;
        proof {
            assert forall|x: T|
                #![trigger before.update(t as int, Some(x))]
                Self::layout_ok(h, sz, before.update(t as int, Some(x))) && Self::contents(
                    h,
                    sz,
                    before.update(t as int, Some(x)),
                ) == spec_push_back(old_q, x, N as nat) by {
                let b = before.update(t as int, Some(x));
                let expected = spec_push_back(old_q, x, N as nat);
                assert forall|i: int| 0 <= i < sz implies #[trigger] Self::filled(h, b, i) by {
                    if i < sz - 1 {
                        if was_full {
                            assert(ring_slot(h as int, i, N as int) == ring_slot(old_head as int, i + 1, N as int));
                            assert(Self::filled(old_head, before, i + 1));
                        } else {
                            assert(Self::filled(old_head, before, i));
                        }
                    }
                }
                assert forall|i: int| 0 <= i < expected.len() implies Self::contents(h, sz, b)[i] == expected[i] by {
                    if i < sz - 1 && was_full {
                        assert(ring_slot(h as int, i, N as int) == ring_slot(old_head as int, i + 1, N as int));
                    }
                }
                assert(Self::contents(h, sz, b) =~= expected);
            }
        }
        Self::store(&mut self.buff, t, item)
    }

    /// Pop the first item if any.
    pub fn try_pop_front(&mut self) -> (r: Result<T, QueueError>)
        requires
            old(self).wf(),
        ensures
            final(self).wf(),
            old(self)@.len() == 0 ==> r == Err::<T, QueueError>(QueueError::Empty) && final(self)@
                == old(self)@,
            old(self)@.len() > 0 ==> r == Ok::<T, QueueError>(old(self)@[0]) && final(self)@
                == old(self)@.drop_first(),
    {
        if self.size == 0 {
            return Err(QueueError::Empty);
        }
        let ghost old_q = self@;
        let ghost old_head = self.head;
        let h = self.head;
        assert(Self::filled(self.head, self.buff@, 0));
        let mut slot: Option<T> = None;
        self.buff.set_and_swap(h, &mut slot);
        assert(slot == old(self).buff@[h as int]);
        self.size = self.size - 1;
        self.head = Self::increment_one(self.head);
        proof {
            assert forall|i: int| 0 <= i < self.size implies #[trigger] Self::filled(self.head, self.buff@, i) by {
                assert(ring_slot(self.head as int, i, N as int) == ring_slot(old_head as int, i + 1, N as int));
                assert(Self::filled(old_head, old(self).buff@, i + 1));
            }
            assert forall|i: int| 0 <= i < self@.len() implies self@[i] == old_q.drop_first()[i] by {
                assert(ring_slot(self.head as int, i, N as int) == ring_slot(old_head as int, i + 1, N as int));
            }
            assert(self@ =~= old_q.drop_first());
        }
        match slot {
            Some(x) => Ok(x),
            None => vstd::pervasive::unreached(),
        }
    }

    /// Peek the first element.
    pub fn front(&self) -> (r: Result<&T, QueueError>)
        requires
            self.wf(),
        ensures
            self@.len() == 0 ==> (r matches Err(e) && e == QueueError::Empty),
            self@.len() > 0 ==> (r matches Ok(x) && *x == self@[0]),
    {
        if self.size == 0 {
            return Err(QueueError::Empty);
        }
        assert(Self::filled(self.head, self.buff@, 0));
        match &self.buff[self.head] {
            Some(x) => Ok(x),
            None => vstd::pervasive::unreached(),
        }
    }

    /// Peek the last element.
    pub fn back(&self) -> (r: Result<&T, QueueError>)
        requires
            self.wf(),
        ensures
            self@.len() == 0 ==> (r matches Err(e) && e == QueueError::Empty),
            self@.len() > 0 ==> (r matches Ok(x) && *x == self@.last()),
    {
        if self.size == 0 {
            return Err(QueueError::Empty);
        }
        let t = self.tail();
        assert(Self::filled(self.head, self.buff@, self.size - 1));
        match &self.buff[t] {
            Some(x) => Ok(x),
            None => vstd::pervasive::unreached(),
        }
    }

    /// Iterate over the items, front first.
    pub fn iter<'a>(&'a self) -> (it: QueueIterator<'a, T, N>)
        requires
            self.wf(),
        ensures
            it.wf(),
            it@ == self@,
    {
        let it = QueueIterator { container: &self.buff, head: self.head, remaining: self.size };
        assert(forall|i: int| 0 <= i < it.remaining ==> #[trigger] it.filled(i) == Self::filled(self.head, self.buff@, i));
        assert(it@ =~= self@);
        it
    }

    /// A queue holds at most `N` items.
    pub proof fn lemma_len_bound(&self)
        requires
            self.wf(),
        ensures
            self@.len() <= N,
    {
    }

    /// Number of items in the queue, at most its capacity.
    pub fn len(&self) -> (n: usize)
        requires
            self.wf(),
        ensures
            n == self@.len(),
            n <= N,
    {
        self.size
    }

    /// Maximum number of items the queue holds.
    pub fn capacity(&self) -> (n: usize)
        ensures
            n == N,
    {
        N
    }
}

impl<T, const N: usize> Default for ArrayQueue<T, N> {
    fn default() -> (q: Self)
        ensures
            q.wf(),
            q@ == Seq::<T>::empty(),
    {
        Self::new()
    }
}

/// Iterator over the items of an [`ArrayQueue`], front first.
pub struct QueueIterator<'a, T, const N: usize> {
    container: &'a Vec<Option<T>>,
    head: usize,
    remaining: usize,
}

impl<'a, T, const N: usize> View for QueueIterator<'a, T, N> {
    type V = Seq<T>;

    /// The items not yet returned.
    closed spec fn view(&self) -> Seq<T> {
        Seq::new(
            self.remaining as nat,
            |i: int| self.container@[ring_slot(self.head as int, i, N as int)]->0,
        )
    }
}

impl<'a, T, const N: usize> QueueIterator<'a, T, N> {
    spec fn filled(&self, i: int) -> bool {
        self.container@[ring_slot(self.head as int, i, N as int)] is Some
    }

    /// The internal invariant of the iterator.
    pub closed spec fn wf(&self) -> bool {
        &&& self.container@.len() == N
        &&& self.remaining <= N
        &&& (self.head < N || (N == 0 && self.head == 0))
        &&& forall|i: int| 0 <= i < self.remaining ==> #[trigger] self.filled(i)
    }

    /// The next item, if any.
    pub fn next(&mut self) -> (r: Option<&'a T>)
        requires
            old(self).wf(),
        ensures
            final(self).wf(),
            old(self)@.len() == 0 ==> r is None && final(self)@ == old(self)@,
            old(self)@.len() > 0 ==> (r matches Some(x) && *x == old(self)@[0] && final(self)@
                == old(self)@.drop_first()),
    {
        if self.remaining == 0 {
            return None;
        }
        let ghost old_it = self@;
        let ghost old_head = self.head;
        let ghost s0 = *self;
        let c: &'a Vec<Option<T>> = self.container;
        assert(self.filled(0));
        let res = match &c[self.head] {
            Some(x) => x,
            None => vstd::pervasive::unreached(),
        };
        self.head = if self.head + 1 < N { self.head + 1 } else { 0 };
        self.remaining = self.remaining - 1;
        proof {
            assert forall|i: int| 0 <= i < self.remaining implies #[trigger] self.filled(i) by {
                assert(ring_slot(self.head as int, i, N as int) == ring_slot(old_head as int, i + 1, N as int));
                assert(s0.filled(i + 1));
            }
            assert forall|i: int| 0 <= i < self@.len() implies self@[i] == old_it.drop_first()[i] by {
                assert(ring_slot(self.head as int, i, N as int) == ring_slot(old_head as int, i + 1, N as int));
            }
            assert(self@ =~= old_it.drop_first());
        }
        Some(res)
    }
}

} // verus!
