//! The global deploy queue: at most one deployment runs at a time, the
//! others wait in order.
//!
//! This is the queue's state and its operations; the daemon keeps it behind
//! a lock and wakes its single worker when something is added or the queue
//! is resumed.

use vstd::prelude::*;
use std::collections::VecDeque;
use crate::deploy::failure::views;
use crate::text::{push_str, str_eq};

verus! {

/// The queue as a value: what runs, what waits (front first), and whether
/// the worker may take the next one.
pub struct QueueModel {
    pub running: Option<Seq<char>>,
    pub queued: Seq<Seq<char>>,
    pub paused: bool,
}

/// Index of the first `x` in `s`, or `-1`.
pub open spec fn pos_of(s: Seq<Seq<char>>, x: Seq<char>) -> int
    decreases s.len(),
{
    if s.len() == 0 {
        -1
    } else if s[0] == x {
        0
    } else {
        let r = pos_of(s.drop_first(), x);
        if r < 0 {
            -1
        } else {
            r + 1
        }
    }
}

/// `s` holds no id twice.
pub open spec fn distinct(s: Seq<Seq<char>>) -> bool {
    forall|i: int, j: int| 0 <= i < j < s.len() ==> s[i] != s[j]
}

/// A queue never holds an id twice, nor the one that runs.
pub open spec fn model_wf(m: QueueModel) -> bool {
    &&& distinct(m.queued)
    &&& (m.running matches Some(r) ==> !m.queued.contains(r))
}

/// `enqueue`: appends an id that neither runs nor waits already.
pub open spec fn enqueued(m: QueueModel, id: Seq<char>) -> QueueModel {
    if m.running == Some(id) || m.queued.contains(id) {
        m
    } else {
        QueueModel { queued: m.queued.push(id), ..m }
    }
}

/// `remove_queued`: drops a waiting id.
pub open spec fn removed(m: QueueModel, id: Seq<char>) -> QueueModel {
    if m.queued.contains(id) {
        QueueModel { queued: m.queued.remove(pos_of(m.queued, id)), ..m }
    } else {
        m
    }
}

/// `promote`: moves a waiting id to the front.
pub open spec fn promoted(m: QueueModel, id: Seq<char>) -> QueueModel {
    if m.queued.contains(id) {
        QueueModel { queued: seq![id] + m.queued.remove(pos_of(m.queued, id)), ..m }
    } else {
        m
    }
}

/// The ids of `rem` named by `order`, in that order, and what is left of
/// `rem` after taking them out.
pub open spec fn picked(rem: Seq<Seq<char>>, order: Seq<Seq<char>>) -> (Seq<Seq<char>>, Seq<
    Seq<char>,
>)
    decreases order.len(),
{
    if order.len() == 0 {
        (Seq::empty(), rem)
    } else {
        let (p, r) = picked(rem, order.drop_last());
        let x = order.last();
        if r.contains(x) {
            (p.push(x), r.remove(pos_of(r, x)))
        } else {
            (p, r)
        }
    }
}

/// `reorder`: the waiting ids named by `order` first, in that order, then
/// the others in their former order; unknown ids are ignored.
pub open spec fn reordered(m: QueueModel, order: Seq<Seq<char>>) -> QueueModel {
    let (p, r) = picked(m.queued, order);
    QueueModel { queued: p + r, ..m }
}

/// `take_next`: unless paused, the front id starts running.
pub open spec fn taken(m: QueueModel) -> (QueueModel, Option<Seq<char>>) {
    if m.paused || m.queued.len() == 0 {
        (m, None)
    } else {
        (QueueModel { running: Some(m.queued[0]), queued: m.queued.drop_first(), ..m }, Some(m.queued[0]))
    }
}

/// The queue of deployments.
pub struct DeployQueue {
    queued: VecDeque<String>,
    running: Option<String>,
    paused: bool,
}

impl View for DeployQueue {
    type V = QueueModel;

    closed spec fn view(&self) -> QueueModel {
        QueueModel {
            running: match self.running {
                Some(r) => Some(r@),
                None => None,
            },
            queued: views(self.queued@),
            paused: self.paused,
        }
    }
}

proof fn lemma_pos_of(s: Seq<Seq<char>>, x: Seq<char>)
    ensures
        -1 <= pos_of(s, x) < s.len(),
        pos_of(s, x) == -1 <==> !s.contains(x),
        pos_of(s, x) >= 0 ==> s[pos_of(s, x)] == x,
        forall|j: int| 0 <= j < pos_of(s, x) ==> s[j] != x,
    decreases s.len(),
{
    if s.len() > 0 {
        lemma_pos_of(s.drop_first(), x);
        if s[0] != x {
            if s.drop_first().contains(x) {
                let k = choose|k: int| 0 <= k < s.drop_first().len() && s.drop_first()[k] == x;
                assert(s[k + 1] == x);
            }
            if s.contains(x) {
                let k = choose|k: int| 0 <= k < s.len() && s[k] == x;
                assert(k > 0);
                assert(s.drop_first()[k - 1] == x);
            }
            assert forall|j: int| 0 <= j < pos_of(s, x) implies s[j] != x by {
                if j > 0 {
                    assert(s[j] == s.drop_first()[j - 1]);
                }
            }
        } else {
            assert(s.contains(x));
        }
    }
}

proof fn lemma_pos_is(s: Seq<Seq<char>>, x: Seq<char>, i: int)
    requires
        0 <= i < s.len(),
        s[i] == x,
        forall|j: int| 0 <= j < i ==> s[j] != x,
    ensures
        pos_of(s, x) == i,
{
    lemma_pos_of(s, x);
    if pos_of(s, x) < i {
        assert(s[pos_of(s, x)] != x);
    }
    if pos_of(s, x) > i {
        assert(s[i] != x);
    }
}

proof fn lemma_remove_distinct(s: Seq<Seq<char>>, i: int)
    requires
        distinct(s),
        0 <= i < s.len(),
    ensures
        distinct(s.remove(i)),
        forall|y: Seq<char>| s.remove(i).contains(y) <==> (s.contains(y) && y != s[i]),
{
    let t = s.remove(i);
    assert forall|a: int, b: int| 0 <= a < b < t.len() implies t[a] != t[b] by {
        let a2 = if a < i { a } else { a + 1 };
        let b2 = if b < i { b } else { b + 1 };
        assert(t[a] == s[a2]);
        assert(t[b] == s[b2]);
    }
    assert forall|y: Seq<char>| t.contains(y) <==> (s.contains(y) && y != s[i]) by {
        if t.contains(y) {
            let k = choose|k: int| 0 <= k < t.len() && t[k] == y;
            let k2 = if k < i { k } else { k + 1 };
            assert(s[k2] == y);
        }
        if s.contains(y) && y != s[i] {
            let k = choose|k: int| 0 <= k < s.len() && s[k] == y;
            assert(k != i);
            if k < i {
                assert(t[k] == y);
            } else {
                assert(t[k - 1] == y);
            }
        }
    }
}

proof fn lemma_picked(rem: Seq<Seq<char>>, order: Seq<Seq<char>>)
    requires
        distinct(rem),
    ensures
        distinct(picked(rem, order).0 + picked(rem, order).1),
        forall|y: Seq<char>| (picked(rem, order).0 + picked(rem, order).1).contains(y)
            <==> rem.contains(y),
        (picked(rem, order).0 + picked(rem, order).1).len() == rem.len(),
    decreases order.len(),
{
    if order.len() > 0 {
        lemma_picked(rem, order.drop_last());
        let (p, r) = picked(rem, order.drop_last());
        let x = order.last();
        let pr = p + r;
        assert(distinct(p) && distinct(r)) by {
            assert forall|a: int, b: int| 0 <= a < b < p.len() implies p[a] != p[b] by {
                assert(pr[a] == p[a] && pr[b] == p[b]);
            }
            assert forall|a: int, b: int| 0 <= a < b < r.len() implies r[a] != r[b] by {
                assert(pr[a + p.len()] == r[a] && pr[b + p.len()] == r[b]);
            }
        }
        if r.contains(x) {
            lemma_pos_of(r, x);
            let k = pos_of(r, x);
            lemma_remove_distinct(r, k);
            let r2 = r.remove(k);
            let p2 = p.push(x);
            let q = p2 + r2;
            assert forall|y: Seq<char>| q.contains(y) <==> rem.contains(y) by {
                if q.contains(y) {
                    let j = choose|j: int| 0 <= j < q.len() && q[j] == y;
                    if j < p.len() {
                        assert(pr[j] == y);
                    } else if j == p.len() {
                        assert(pr[p.len() + k] == y);
                    } else {
                        assert(r2.contains(y));
                        let jj = choose|jj: int| 0 <= jj < r.len() && r[jj] == y;
                        assert(pr[p.len() + jj] == y);
                    }
                }
                if rem.contains(y) {
                    assert(pr.contains(y));
                    let j = choose|j: int| 0 <= j < pr.len() && pr[j] == y;
                    if j < p.len() {
                        assert(q[j] == y);
                    } else if y == x {
                        assert(q[p.len() as int] == y);
                    } else {
                        assert(r[j - p.len()] == y);
                        assert(r.contains(y));
                        assert(r2.contains(y));
                        let jj = choose|jj: int| 0 <= jj < r2.len() && r2[jj] == y;
                        assert(q[p2.len() + jj] == y);
                    }
                }
            }
            assert forall|a: int, b: int| 0 <= a < b < q.len() implies q[a] != q[b] by {
                // elements of p, then x, then r without x
                if b < p.len() {
                    assert(pr[a] == q[a] && pr[b] == q[b]);
                } else if a < p.len() && b == p.len() {
                    assert(pr[a] == q[a]);
                    assert(pr[p.len() + k] == x);
                } else if a < p.len() {
                    assert(pr[a] == q[a]);
                    let bb = b - p2.len();
                    assert(q[b] == r2[bb]);
                    let b3 = if bb < k { bb } else { bb + 1 };
                    assert(r2[bb] == r[b3]);
                    assert(pr[p.len() + b3] == q[b]);
                } else if a == p.len() {
                    let bb = b - p2.len();
                    assert(r2.contains(q[b])) by {
                        assert(r2[bb] == q[b]);
                    }
                } else {
                    assert(q[a] == r2[a - p2.len()]);
                    assert(q[b] == r2[b - p2.len()]);
                }
            }
        }
    }
}

impl DeployQueue {
    /// Well-formed: no id waits twice, and the running one does not wait.
    pub open spec fn wf(&self) -> bool {
        model_wf(self@)
    }

    /// An empty, running queue.
    pub fn new() -> (q: Self)
        ensures
            q.wf(),
            q@.running is None,
            q@.queued.len() == 0,
            !q@.paused,
    {
        let q = DeployQueue { queued: VecDeque::new(), running: None, paused: false };
        assert(q@.queued =~= Seq::<Seq<char>>::empty());
        q
    }

    /// Position of `id` among the waiting ids.
    fn find(&self, id: &str) -> (r: Option<usize>)
        ensures
            r matches Some(p) ==> pos_of(self@.queued, id@) == p && p < self@.queued.len()
                && self@.queued.contains(id@),
            r is None ==> !self@.queued.contains(id@),
    {
        let ghost ids = self@.queued;
        let mut i: usize = 0;
        while i < self.queued.len()
            invariant
                ids == views(self.queued@),
                i <= self.queued@.len(),
                forall|j: int| 0 <= j < i ==> ids[j] != id@,
            decreases self.queued.len() - i,
        {
            if str_eq(self.queued[i].as_str(), id) {
                proof {
                    lemma_pos_is(ids, id@, i as int);
                    assert(ids[i as int] == id@);
                }
                return Some(i);
            }
            i = i + 1;
        }
        proof {
            lemma_pos_of(ids, id@);
            if ids.contains(id@) {
                assert(ids[pos_of(ids, id@)] == id@);
            }
        }
        None
    }

    /// Adds a deployment at the back, unless it already waits or runs.
    pub fn enqueue(&mut self, dep_id: String)
        requires
            old(self).wf(),
        ensures
            final(self).wf(),
            final(self)@ == enqueued(old(self)@, dep_id@),
    {
        let running_same = match &self.running {
            Some(r) => str_eq(r.as_str(), dep_id.as_str()),
            None => false,
        };
        if running_same {
            return;
        }
        if self.find(dep_id.as_str()).is_some() {
            return;
        }
        let ghost before = self@;
        self.queued.push_back(dep_id);
        assert(self@.queued =~= before.queued.push(dep_id@));
        assert(distinct(self@.queued)) by {
            assert forall|a: int, b: int| 0 <= a < b < self@.queued.len() implies self@.queued[a]
                != self@.queued[b] by {
                if b == before.queued.len() {
                    assert(before.queued.contains(before.queued[a]));
                }
            }
        }
        proof {
            if let Some(r) = self@.running {
                if self@.queued.contains(r) {
                    let k = choose|k: int| 0 <= k < self@.queued.len() && self@.queued[k] == r;
                    if k < before.queued.len() {
                        assert(before.queued.contains(r));
                    }
                }
            }
        }
    }

    /// Removes a waiting deployment; says whether it was waiting. The one
    /// that runs is not affected.
    pub fn remove_queued(&mut self, dep_id: &str) -> (b: bool)
        requires
            old(self).wf(),
        ensures
            final(self).wf(),
            b == old(self)@.queued.contains(dep_id@),
            final(self)@ == removed(old(self)@, dep_id@),
    {
        match self.find(dep_id) {
            Some(pos) => {
                let ghost before = self@;
                proof {
                    lemma_pos_of(before.queued, dep_id@);
                    lemma_remove_distinct(before.queued, pos as int);
                }
                let _ = self.queued.remove(pos);
                assert(self@.queued =~= before.queued.remove(pos as int));
                true
            },
            None => false,
        }
    }

    /// Moves a waiting deployment to the front.
    pub fn promote(&mut self, dep_id: &str)
        requires
            old(self).wf(),
        ensures
            final(self).wf(),
            final(self)@ == promoted(old(self)@, dep_id@),
    {
        if let Some(pos) = self.find(dep_id) {
            let ghost before = self@;
            proof {
                lemma_pos_of(before.queued, dep_id@);
                lemma_remove_distinct(before.queued, pos as int);
            }
            if let Some(d) = self.queued.remove(pos) {
                self.queued.push_front(d);
                let ghost rest = before.queued.remove(pos as int);
                assert(self@.queued =~= seq![dep_id@] + rest);
                assert(distinct(self@.queued)) by {
                    assert forall|a: int, b: int| 0 <= a < b < self@.queued.len() implies
                        self@.queued[a] != self@.queued[b] by {
                        if a == 0 {
                            assert(rest.contains(self@.queued[b]));
                        } else {
                            assert(self@.queued[a] == rest[a - 1]);
                            assert(self@.queued[b] == rest[b - 1]);
                        }
                    }
                }
                proof {
                    if let Some(r) = self@.running {
                        if self@.queued.contains(r) {
                            let k = choose|k: int| 0 <= k < self@.queued.len() && self@.queued[k] == r;
                            if k == 0 {
                                assert(before.queued.contains(r));
                            } else {
                                assert(rest[k - 1] == r);
                            }
                        }
                    }
                }
            }
        }
    }

    /// Reorders the waiting deployments: those named in `order` first, in
    /// that order; unknown ids are ignored; the others follow in their
    /// former order.
    pub fn reorder(&mut self, order: &[String])
        requires
            old(self).wf(),
        ensures
            final(self).wf(),
            final(self)@ == reordered(old(self)@, views(order@)),
    {
        let ghost m = self@;
        let mut remaining: VecDeque<String> = VecDeque::new();
        std::mem::swap(&mut remaining, &mut self.queued);
        let mut next: VecDeque<String> = VecDeque::new();
        let mut k: usize = 0;
        assert(views(order@).take(0) =~= Seq::<Seq<char>>::empty());
        assert(views(next@) =~= Seq::<Seq<char>>::empty());
        while k < order.len()
            invariant
                k <= order@.len(),
                picked(m.queued, views(order@).take(k as int)) == (views(next@), views(remaining@)),
                distinct(m.queued),
            decreases order.len() - k,
        {
            let ghost o = views(order@).take(k as int + 1);
            assert(o.drop_last() =~= views(order@).take(k as int));
            assert(o.last() == order@[k as int]@);
            let id = order[k].as_str();
            let ghost rem = views(remaining@);
            let mut i: usize = 0;
            while i < remaining.len() && !str_eq(remaining[i].as_str(), id)
                invariant
                    rem == views(remaining@),
                    i <= remaining@.len(),
                    forall|j: int| 0 <= j < i ==> rem[j] != id@,
                decreases remaining.len() - i,
            {
                i = i + 1;
            }
            let ghost nv = views(next@);
            if i < remaining.len() {
                proof {
                    assert(rem[i as int] == id@);
                    lemma_pos_is(rem, id@, i as int);
                    assert(rem.contains(id@));
                }
                if let Some(d) = remaining.remove(i) {
                    next.push_back(d);
                }
                assert(views(remaining@) =~= rem.remove(i as int));
                assert(views(next@) =~= nv.push(id@));
                assert(picked(m.queued, o) == (nv.push(id@), rem.remove(i as int)));
            } else {
                proof {
                    lemma_pos_of(rem, id@);
                    if rem.contains(id@) {
                        assert(rem[pos_of(rem, id@)] == id@);
                    }
                }
                assert(picked(m.queued, o) == (nv, rem));
            }
            k = k + 1;
        }
        assert(views(order@).take(order@.len() as int) =~= views(order@));
        let ghost nv = views(next@);
        let ghost rv = views(remaining@);
        while remaining.len() > 0
            invariant
                views(next@) + views(remaining@) == nv + rv,
            decreases remaining.len(),
        {
            let ghost before_n = views(next@);
            let ghost before_r = views(remaining@);
            if let Some(d) = remaining.pop_front() {
                next.push_back(d);
            }
            assert(views(next@) + views(remaining@) =~= before_n + before_r);
        }
        assert(views(remaining@) =~= Seq::<Seq<char>>::empty());
        assert(views(next@) =~= nv + rv);
        self.queued = next;
        proof {
            lemma_picked(m.queued, views(order@));
            if let Some(r) = self@.running {
                assert(!m.queued.contains(r));
            }
        }
    }

    /// Pauses or resumes the queue.
    pub fn set_paused(&mut self, paused: bool)
        requires
            old(self).wf(),
        ensures
            final(self).wf(),
            final(self)@ == (QueueModel { paused, ..old(self)@ }),
    {
        self.paused = paused;
    }

    /// What runs, what waits (front first), and whether the queue is paused.
    pub fn snapshot(&self) -> (r: (Option<String>, Vec<String>, bool))
        ensures
            (match r.0 {
                Some(s) => Some(s@),
                None => None,
            }) == self@.running,
            views(r.1@) == self@.queued,
            r.2 == self@.paused,
    {
        let running = match &self.running {
            Some(s) => {
                let mut c = String::new();
                push_str(&mut c, s.as_str());
                Some(c)
            },
            None => None,
        };
        let mut out: Vec<String> = Vec::new();
        let mut i: usize = 0;
        while i < self.queued.len()
            invariant
                i <= self.queued@.len(),
                views(out@) == views(self.queued@).take(i as int),
            decreases self.queued.len() - i,
        {
            let mut c = String::new();
            push_str(&mut c, self.queued[i].as_str());
            assert(c@ =~= self.queued@[i as int]@);
            let ghost before = out@;
            assert(views(before) == views(self.queued@).take(i as int));
            assert(views(before).len() == i);
            out.push(c);
            assert(views(out@) =~= views(self.queued@).take(i + 1)) by {
                assert forall|j: int| 0 <= j < i + 1 implies views(out@)[j] == views(
                    self.queued@,
                ).take(i + 1)[j] by {
                    if j < i {
                        assert(views(before)[j] == views(self.queued@).take(i as int)[j]);
                    }
                }
            }
            i = i + 1;
        }
        assert(views(self.queued@).take(self.queued@.len() as int) =~= views(self.queued@));
        (running, out, self.paused)
    }

    /// Takes the front deployment and marks it running; `None` when the
    /// queue is empty or paused.
    pub fn take_next(&mut self) -> (r: Option<String>)
        requires
            old(self).wf(),
        ensures
            final(self).wf(),
            (final(self)@, match r {
                Some(s) => Some(s@),
                None => None,
            }) == taken(old(self)@),
    {
        if self.paused {
            return None;
        }
        let ghost before = self@;
        match self.queued.pop_front() {
            Some(id) => {
                let mut c = String::new();
                push_str(&mut c, id.as_str());
                self.running = Some(c);
                assert(self@.queued =~= before.queued.drop_first());
                assert(distinct(self@.queued)) by {
                    assert forall|a: int, b: int| 0 <= a < b < self@.queued.len() implies
                        self@.queued[a] != self@.queued[b] by {
                        assert(self@.queued[a] == before.queued[a + 1]);
                        assert(self@.queued[b] == before.queued[b + 1]);
                    }
                }
                proof {
                    if self@.queued.contains(id@) {
                        let k = choose|k: int| 0 <= k < self@.queued.len() && self@.queued[k] == id@;
                        assert(before.queued[k + 1] == before.queued[0]);
                    }
                }
                Some(id)
            },
            None => {
                assert(before.queued.len() == 0);
                None
            },
        }
    }

    /// Marks that nothing runs.
    pub fn clear_running(&mut self)
        requires
            old(self).wf(),
        ensures
            final(self).wf(),
            final(self)@ == (QueueModel { running: None, ..old(self)@ }),
    {
        self.running = None;
    }
}

/// Adding a deployment twice is the same as adding it once.
pub proof fn lemma_enqueue_idempotent(m: QueueModel, id: Seq<char>)
    ensures
        enqueued(enqueued(m, id), id) == enqueued(m, id),
{
    let e = enqueued(m, id);
    if !(m.running == Some(id) || m.queued.contains(id)) {
        assert(e.queued[e.queued.len() - 1] == id);
        assert(e.queued.contains(id));
    }
}

/// The queue is first in, first out: the deployment taken next is the one
/// that has waited longest, and one just added to an empty queue that is
/// not paused is the next to run.
pub proof fn lemma_fifo(m: QueueModel, id: Seq<char>)
    ensures
        !m.paused && m.queued.len() > 0 ==> taken(m).1 == Some(m.queued[0]),
        !m.paused && m.queued.len() == 0 && m.running != Some(id) ==> taken(enqueued(m, id)).1
            == Some(id),
        m.paused ==> taken(m).1 is None && taken(m).0 == m,
{
    if m.queued.len() == 0 && m.running != Some(id) {
        assert(!m.queued.contains(id));
        assert(m.queued.push(id)[0] == id);
    }
}

/// Promoting a waiting deployment puts it first and keeps the others, in
/// their order, behind it.
pub proof fn lemma_promote_front(m: QueueModel, id: Seq<char>)
    requires
        model_wf(m),
        m.queued.contains(id),
    ensures
        promoted(m, id).queued[0] == id,
        promoted(m, id).queued.drop_first() == m.queued.remove(pos_of(m.queued, id)),
        promoted(m, id).queued.len() == m.queued.len(),
{
    lemma_pos_of(m.queued, id);
    assert((seq![id] + m.queued.remove(pos_of(m.queued, id))).drop_first() =~= m.queued.remove(
        pos_of(m.queued, id),
    ));
}

/// Reordering only permutes the waiting deployments: the same ids, each
/// once, and as many as before.
pub proof fn lemma_reorder_permutes(m: QueueModel, order: Seq<Seq<char>>)
    requires
        model_wf(m),
    ensures
        distinct(reordered(m, order).queued),
        reordered(m, order).queued.len() == m.queued.len(),
        forall|y: Seq<char>| reordered(m, order).queued.contains(y) <==> m.queued.contains(y),
{
    lemma_picked(m.queued, order);
}

/// A removed deployment no longer waits, and the others still do.
pub proof fn lemma_remove_gone(m: QueueModel, id: Seq<char>)
    requires
        model_wf(m),
    ensures
        !removed(m, id).queued.contains(id),
        forall|y: Seq<char>| y != id ==> (removed(m, id).queued.contains(y) <==> m.queued.contains(y)),
{
    if m.queued.contains(id) {
        lemma_pos_of(m.queued, id);
        lemma_remove_distinct(m.queued, pos_of(m.queued, id));
    }
}

} // verus!
