//! A bounded scrolling tail: the most recent lines, oldest evicted first.
use std::collections::VecDeque;
use vstd::prelude::*;

verus! {

/// Number of lines the scrolling tail keeps.
pub const REMOTE_TERM_SIZE: usize = 5;

/// The last `k` elements of `s` (all of it when it is shorter).
pub open spec fn last_n<A>(s: Seq<A>, k: nat) -> Seq<A> {
    if s.len() <= k {
        s
    } else {
        s.skip(s.len() - k)
    }
}

/// Contents after one push: the oldest element leaves when the tail is full.
pub open spec fn pushed<A>(s: Seq<A>, x: A) -> Seq<A> {
    if s.len() >= REMOTE_TERM_SIZE {
        s.skip(1).push(x)
    } else {
        s.push(x)
    }
}

/// Contents after pushing each element of `xs`, in order, onto `s`.
pub open spec fn pushed_all<A>(s: Seq<A>, xs: Seq<A>) -> Seq<A>
    decreases xs.len(),
{
    if xs.len() == 0 {
        s
    } else {
        pushed(pushed_all(s, xs.drop_last()), xs.last())
    }
}

/// The most recent lines, in arrival order.
pub struct ScrollBuffer {
    lines: VecDeque<String>,
}

impl View for ScrollBuffer {
    type V = Seq<String>;

    closed spec fn view(&self) -> Seq<String> {
        self.lines@
    }
}

impl ScrollBuffer {
    /// The buffer never holds more than `REMOTE_TERM_SIZE` lines.
    pub open spec fn wf(&self) -> bool {
        self@.len() <= REMOTE_TERM_SIZE
    }

    /// An empty buffer.
    pub fn new() -> (r: ScrollBuffer)
        ensures
            r.wf(),
            r@ == Seq::<String>::empty(),
    {
        ScrollBuffer { lines: VecDeque::new() }
    }

    /// Number of lines held.
    pub fn len(&self) -> (r: usize)
        ensures
            r == self@.len(),
    {
        self.lines.len()
    }

    /// Appends `line`, evicting the oldest line first when the buffer is full.
    /// Returns the number of lines held before the push.
    pub fn push(&mut self, line: String) -> (prev: usize)
        requires
            old(self).wf(),
        ensures
            final(self).wf(),
            prev == old(self)@.len(),
            final(self)@ == pushed(old(self)@, line),
    {
        let prev = self.lines.len();
        if prev >= REMOTE_TERM_SIZE {
            let _ = self.lines.pop_front();
        }
        self.lines.push_back(line);
        proof {
            if prev >= REMOTE_TERM_SIZE {
                assert(self@ =~= old(self)@.skip(1).push(line));
            } else {
                assert(self@ =~= old(self)@.push(line));
            }
        }
        prev
    }

    /// Empties the buffer.
    pub fn clear(&mut self)
        ensures
            final(self).wf(),
            final(self)@ == Seq::<String>::empty(),
    {
        self.lines.clear();
    }

    /// A copy of the lines held, oldest first.
    pub fn lines(&self) -> (r: Vec<String>)
        ensures
            r@ == self@,
    {
        let mut r: Vec<String> = Vec::new();
        let n = self.lines.len();
        let mut i: usize = 0;
        while i < n
            invariant
                n == self@.len(),
                i <= n,
                r@ == self@.take(i as int),
            decreases n - i,
        {
            r.push(self.lines[i].clone());
            i += 1;
            assert(r@ =~= self@.take(i as int));
        }
        assert(self@.take(n as int) =~= self@);
        r
    }
}

/// One push onto a tail that keeps the last `REMOTE_TERM_SIZE` elements of `t`
/// keeps the last `REMOTE_TERM_SIZE` elements of `t` followed by `x`.
proof fn lemma_push_keeps_tail<A>(t: Seq<A>, x: A)
    ensures
        pushed(last_n(t, REMOTE_TERM_SIZE as nat), x) == last_n(t.push(x), REMOTE_TERM_SIZE as nat),
{
    let k = REMOTE_TERM_SIZE as nat;
    if t.len() < k {
        assert(t.push(x).len() <= k);
    } else if t.len() == k {
        assert(pushed(t, x) =~= t.push(x).skip(1));
    } else {
        assert(last_n(t, k).skip(1).push(x) =~= t.push(x).skip(t.push(x).len() - k));
    }
}

/// For every sequence of pushes onto a buffer of at most `REMOTE_TERM_SIZE`
/// lines, the buffer never grows past `REMOTE_TERM_SIZE` and holds the last
/// `REMOTE_TERM_SIZE` lines of its old contents followed by the pushed lines.
/// From an empty buffer: the last `min(REMOTE_TERM_SIZE, xs.len())` pushed lines.
pub proof fn lemma_pushes_keep_last<A>(s: Seq<A>, xs: Seq<A>)
    requires
        s.len() <= REMOTE_TERM_SIZE,
    ensures
        pushed_all(s, xs).len() <= REMOTE_TERM_SIZE,
        pushed_all(s, xs) == last_n(s + xs, REMOTE_TERM_SIZE as nat),
        s.len() == 0 ==> pushed_all(s, xs) == last_n(xs, REMOTE_TERM_SIZE as nat),
    decreases xs.len(),
{
    if xs.len() == 0 {
        assert(s + xs =~= s);
    } else {
        lemma_pushes_keep_last(s, xs.drop_last());
        lemma_push_keeps_tail(s + xs.drop_last(), xs.last());
        assert((s + xs.drop_last()).push(xs.last()) =~= s + xs);
    }
    if s.len() == 0 {
        assert(s + xs =~= xs);
    }
}

} // verus!
