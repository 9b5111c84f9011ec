use crate::op::{keys_contain, keys_view, op_key, ExportPage, KeyView, Op, OpKey};
use crate::time::Dt;
use vstd::prelude::*;

verus! {

/// Length of the longest prefix of `ops` whose ops were all created at `at`.
pub open spec fn boundary_len(ops: Seq<Op>, at: Dt) -> nat
    decreases ops.len(),
{
    if ops.len() > 0 && ops[0].created_at == at {
        1 + boundary_len(ops.drop_first(), at)
    } else {
        0
    }
}

/// Whether an op's key is absent from `keys`.
pub open spec fn unseen(keys: Seq<KeyView>) -> spec_fn(Op) -> bool {
    |op: Op| !keys.contains(op_key(op))
}

/// A page after boundary deduplication: within the leading run of ops created
/// at `at`, those whose key is in `keys` are dropped; everything after that
/// run is kept.
pub open spec fn dedup_page(ops: Seq<Op>, at: Dt, keys: Seq<KeyView>) -> Seq<Op> {
    let p = boundary_len(ops, at) as int;
    ops.take(p).filter(unseen(keys)) + ops.skip(p)
}

/// Keys of the ops at the end of `ops` that were created at `at`, from the
/// last one backwards, stopping at the first op created at another time.
pub open spec fn trailing_keys(ops: Seq<Op>, at: Dt) -> Seq<KeyView>
    decreases ops.len(),
{
    if ops.len() > 0 && ops.last().created_at == at {
        seq![op_key(ops.last())] + trailing_keys(ops.drop_last(), at)
    } else {
        Seq::empty()
    }
}

/// The boundary (last time, keys at that time) after a deduplicated page
/// `d` has been taken, starting from the boundary (`at`, `keys`).
pub open spec fn next_boundary(at: Dt, keys: Seq<KeyView>, d: Seq<Op>) -> (Dt, Seq<KeyView>) {
    if d.len() == 0 {
        (at, keys)
    } else {
        let t = d.last().created_at;
        let base = if at.earlier(t) {
            seq![op_key(d.last())]
        } else {
            keys.push(op_key(d.last()))
        };
        (t, base + trailing_keys(d.drop_last(), t))
    }
}

/// The boundary of a first page: its last time and the keys at that time.
pub open spec fn first_boundary(ops: Seq<Op>) -> (Dt, Seq<KeyView>)
    recommends
        ops.len() > 0,
{
    let t = ops.last().created_at;
    (t, seq![op_key(ops.last())] + trailing_keys(ops.drop_last(), t))
}

proof fn lemma_boundary_len(ops: Seq<Op>, at: Dt, j: int)
    requires
        0 <= j <= ops.len(),
        forall|k: int| 0 <= k < j ==> ops[k].created_at == at,
        j == ops.len() || ops[j].created_at != at,
    ensures
        boundary_len(ops, at) == j,
    decreases j,
{
    if j > 0 {
        lemma_boundary_len(ops.drop_first(), at, j - 1);
    }
}

proof fn lemma_trailing_take(ops: Seq<Op>, at: Dt, k: int)
    requires
        0 < k <= ops.len(),
    ensures
        trailing_keys(ops.take(k), at) == if ops[k - 1].created_at == at {
            seq![op_key(ops[k - 1])] + trailing_keys(ops.take(k - 1), at)
        } else {
            Seq::<KeyView>::empty()
        },
{
    assert(ops.take(k).drop_last() =~= ops.take(k - 1));
}

/// State for removing duplicate ops across export page boundaries.
#[derive(Debug, PartialEq)]
pub struct PageBoundaryState {
    /// The latest timestamp yet taken. Duplicates across pages only occur at
    /// exactly this time.
    pub last_at: Dt,
    /// Keys of the ops taken at `last_at` (almost always exactly one).
    pub keys_at: Vec<OpKey>,
}

impl PageBoundaryState {
    /// The keys at the boundary, as values.
    pub open spec fn keys(&self) -> Seq<KeyView> {
        keys_view(self.keys_at@)
    }

    /// The boundary as a value.
    pub open spec fn boundary(&self) -> (Dt, Seq<KeyView>) {
        (self.last_at, self.keys())
    }

    /// Whether taking `ops` would find time going backwards: the last op
    /// left after deduplication lies before the boundary.
    pub open spec fn goes_backwards(&self, ops: Seq<Op>) -> bool {
        let d = dedup_page(ops, self.last_at, self.keys());
        d.len() > 0 && d.last().created_at.earlier(self.last_at)
    }

    /// The boundary state of a first page: `None` for an empty page, else
    /// its last time and the keys of all its ops at that time.
    pub fn new(page: &ExportPage) -> (r: Option<PageBoundaryState>)
        ensures
            page.ops@.len() == 0 ==> r is None,
            page.ops@.len() > 0 ==> r is Some && r->Some_0.boundary() == first_boundary(page.ops@),
    {
        let n = page.ops.len();
        if n == 0 {
            return None;
        }
        let last_at = page.ops[n - 1].created_at;
        let last_key = OpKey::from(&page.ops[n - 1]);
        let mut me = PageBoundaryState { last_at, keys_at: vec![last_key] };
        proof {
            assert(me.keys() =~= seq![op_key(page.ops@.last())]);
            assert(page.ops@.take(n - 1) =~= page.ops@.drop_last());
        }
        me.capture_nth_last_at(page, last_at, 1);
        Some(me)
    }

    /// Whether `ops` would find time going backwards at this boundary.
    pub fn check_goes_backwards(&self, ops: &Vec<Op>) -> (r: bool)
        ensures
            r == self.goes_backwards(ops@),
    {
        let n = ops.len();
        let mut p: usize = 0;
        while p < n && ops[p].created_at == self.last_at
            invariant
                p <= n == ops@.len(),
                forall|k: int| 0 <= k < p ==> ops@[k].created_at == self.last_at,
            decreases n - p,
        {
            p += 1;
        }
        let ghost s = ops@;
        let ghost keys = self.keys();
        proof {
            lemma_boundary_len(s, self.last_at, p as int);
        }
        if p < n {
            let r = ops[n - 1].created_at.is_earlier(&self.last_at);
            proof {
                let d = dedup_page(s, self.last_at, keys);
                assert(d.last() == s.last());
            }
            r
        } else {
            proof {
                let f = s.take(p as int).filter(unseen(keys));
                let d = dedup_page(s, self.last_at, keys);
                assert(d =~= f);
                if d.len() > 0 {
                    assert(f.contains(f.last()));
                    s.take(p as int).lemma_filter_contains_rev(unseen(keys), f.last());
                }
            }
            false
        }
    }

    /// Removes from the front of `page` the ops already taken at the
    /// boundary, then moves the boundary to the end of what is left.
    pub fn apply_to_next(&mut self, page: &mut ExportPage)
        requires
            !old(self).goes_backwards(old(page).ops@),
        ensures
            final(page).ops@ == dedup_page(old(page).ops@, old(self).last_at, old(self).keys()),
            final(self).boundary() == next_boundary(
                old(self).last_at,
                old(self).keys(),
                final(page).ops@,
            ),
            old(self).last_at.no_later(final(self).last_at),
    {
        let ghost orig = page.ops@;
        let ghost at = self.last_at;
        let ghost keys = self.keys();
        let mut i: usize = 0;
        let ghost mut j: int = 0;
        proof {
            assert(orig.take(0).filter(unseen(keys)) =~= Seq::<Op>::empty()) by {
                reveal(Seq::filter);
            }
            assert(page.ops@ =~= orig.take(0).filter(unseen(keys)) + orig.skip(0));
        }
        while i < page.ops.len() && page.ops[i].created_at == self.last_at
            invariant
                *self == *old(self),
                at == self.last_at,
                keys == self.keys(),
                0 <= j <= orig.len(),
                page.ops@ == orig.take(j).filter(unseen(keys)) + orig.skip(j),
                i == orig.take(j).filter(unseen(keys)).len(),
                forall|k: int| 0 <= k < j ==> orig[k].created_at == at,
            decreases orig.len() - j,
        {
            let ghost kept = orig.take(j).filter(unseen(keys));
            proof {
                assert(orig.take(j + 1) =~= orig.take(j).push(orig[j]));
                orig.take(j).lemma_filter_push(orig[j], unseen(keys));
                assert(page.ops@[i as int] == orig[j]);
            }
            if keys_contain(&self.keys_at, &page.ops[i].did, &page.ops[i].cid) {
                page.ops.remove(i);
                proof {
                    assert(page.ops@ =~= kept + orig.skip(j + 1));
                }
            } else {
                i += 1;
                proof {
                    assert(page.ops@ =~= kept.push(orig[j]) + orig.skip(j + 1));
                }
            }
            proof {
                j = j + 1;
            }
        }
        proof {
            if j < orig.len() {
                assert(page.ops@[i as int] == orig[j]);
            }
            lemma_boundary_len(orig, at, j);
        }
        let n = page.ops.len();
        if n == 0 {
            return;
        }
        let last_at = page.ops[n - 1].created_at;
        let last_key = OpKey::from(&page.ops[n - 1]);
        let ghost d = page.ops@;
        if self.last_at.is_earlier(&last_at) {
            self.last_at = last_at;
            self.keys_at = vec![last_key];
            proof {
                assert(self.keys() =~= seq![op_key(d.last())]);
            }
        } else {
            self.keys_at.push(last_key);
            proof {
                assert(self.keys() =~= keys.push(op_key(d.last())));
            }
        }
        proof {
            assert(d.take(n - 1) =~= d.drop_last());
        }
        self.capture_nth_last_at(page, last_at, 1);
        proof {
            lemma_boundary_monotone(at, keys, orig);
        }
    }

    /// Walks backwards from the op `skips` places before the end of `page`
    /// and adds the key of each op created at `last_at`, until one is not.
    pub fn capture_nth_last_at(&mut self, page: &ExportPage, last_at: Dt, skips: usize)
        ensures
            final(self).last_at == old(self).last_at,
            final(self).keys() == old(self).keys() + (if skips < page.ops@.len() {
                trailing_keys(page.ops@.take(page.ops@.len() - skips), last_at)
            } else {
                Seq::<KeyView>::empty()
            }),
    {
        let n = page.ops.len();
        if skips >= n {
            assert(self.keys() =~= old(self).keys() + Seq::<KeyView>::empty());
            return;
        }
        let ghost ops = page.ops@;
        let ghost m = (n - skips) as int;
        let mut k: usize = n - skips;
        proof {
            assert(self.keys() =~= old(self).keys());
        }
        while k > 0 && page.ops[k - 1].created_at == last_at
            invariant
                k <= m <= ops.len(),
                ops == page.ops@,
                self.last_at == old(self).last_at,
                self.keys() + trailing_keys(ops.take(k as int), last_at) == old(self).keys()
                    + trailing_keys(ops.take(m), last_at),
            decreases k,
        {
            proof {
                lemma_trailing_take(ops, last_at, k as int);
            }
            let ghost before = self.keys();
            let key = OpKey::from(&page.ops[k - 1]);
            self.keys_at.push(key);
            proof {
                assert(self.keys() =~= before.push(op_key(ops[k - 1])));
                assert(self.keys() + trailing_keys(ops.take(k - 1), last_at) =~= before + (seq![
                    op_key(ops[k - 1]),
                ] + trailing_keys(ops.take(k - 1), last_at)));
            }
            k -= 1;
        }
        proof {
            if k > 0 {
                lemma_trailing_take(ops, last_at, k as int);
            } else {
                assert(ops.take(0).len() == 0);
            }
            assert(self.keys() =~= self.keys() + trailing_keys(ops.take(k as int), last_at));
        }
    }
}

} // verus!

verus! {

/// The ops of `ops` were created in non-decreasing time order.
pub open spec fn non_decreasing(ops: Seq<Op>) -> bool {
    forall|i: int, j: int| 0 <= i <= j < ops.len() ==> ops[i].created_at.no_later(ops[j].created_at)
}

/// No op of `ops` lies before `at`.
pub open spec fn none_before(ops: Seq<Op>, at: Dt) -> bool {
    forall|i: int| 0 <= i < ops.len() ==> at.no_later(ops[i].created_at)
}

/// An op is a repeat at the boundary (`at`, `keys`): created at `at`, with a
/// key already taken there.
pub open spec fn repeated_at(at: Dt, keys: Seq<KeyView>) -> spec_fn(Op) -> bool {
    |op: Op| op.created_at == at && keys.contains(op_key(op))
}

/// An op repeats one of `prev` at `prev`'s final time: same time, same key.
pub open spec fn repeats_final(prev: Seq<Op>, op: Op) -> bool {
    op.created_at == prev.last().created_at && exists|i: int|
        0 <= i < prev.len() && prev[i].created_at == op.created_at && op_key(prev[i]) == op_key(op)
}

proof fn lemma_filter_agree(s: Seq<Op>, keep_a: spec_fn(Op) -> bool, keep_b: spec_fn(Op) -> bool)
    requires
        forall|i: int| 0 <= i < s.len() ==> keep_a(s[i]) == keep_b(s[i]),
    ensures
        s.filter(keep_a) == s.filter(keep_b),
    decreases s.len(),
{
    reveal(Seq::filter);
    if s.len() > 0 {
        lemma_filter_agree(s.drop_last(), keep_a, keep_b);
    }
}

proof fn lemma_filter_all(s: Seq<Op>, p: spec_fn(Op) -> bool)
    requires
        forall|i: int| 0 <= i < s.len() ==> p(s[i]),
    ensures
        s.filter(p) == s,
    decreases s.len(),
{
    reveal(Seq::filter);
    if s.len() > 0 {
        lemma_filter_all(s.drop_last(), p);
        assert(s.drop_last().push(s.last()) =~= s);
    }
}

proof fn lemma_trailing_contains(s: Seq<Op>, t: Dt, k: KeyView)
    requires
        non_decreasing(s),
        forall|i: int| 0 <= i < s.len() ==> s[i].created_at.no_later(t),
    ensures
        trailing_keys(s, t).contains(k) <==> exists|i: int|
            0 <= i < s.len() && s[i].created_at == t && op_key(s[i]) == k,
    decreases s.len(),
{
    if s.len() > 0 {
        let r = s.drop_last();
        lemma_trailing_contains(r, t, k);
        if s.last().created_at == t {
            let tail = trailing_keys(r, t);
            assert((seq![op_key(s.last())] + tail).contains(k) <==> (k == op_key(s.last())
                || tail.contains(k))) by {
                if (seq![op_key(s.last())] + tail).contains(k) && k != op_key(s.last()) {
                    let j = choose|j: int|
                        0 <= j < 1 + tail.len() && (seq![op_key(s.last())] + tail)[j] == k;
                    assert(tail[j - 1] == k);
                }
                if tail.contains(k) {
                    let j = choose|j: int| 0 <= j < tail.len() && tail[j] == k;
                    assert((seq![op_key(s.last())] + tail)[j + 1] == k);
                }
                if k == op_key(s.last()) {
                    assert((seq![op_key(s.last())] + tail)[0] == k);
                }
            }
            if exists|i: int| 0 <= i < s.len() && s[i].created_at == t && op_key(s[i]) == k {
                let i = choose|i: int| 0 <= i < s.len() && s[i].created_at == t && op_key(s[i]) == k;
                if i < s.len() - 1 {
                    assert(r[i] == s[i]);
                }
            }
        } else {
            assert forall|i: int| 0 <= i < s.len() implies s[i].created_at != t by {
                assert(s[i].created_at.no_later(s.last().created_at));
            }
        }
    }
}

/// The keys that a first page leaves at its boundary are exactly the keys of
/// its ops created at its final time, when its ops come in time order.
pub proof fn lemma_first_boundary_keys(prev: Seq<Op>, k: KeyView)
    requires
        prev.len() > 0,
        non_decreasing(prev),
    ensures
        first_boundary(prev).0 == prev.last().created_at,
        first_boundary(prev).1.contains(k) <==> exists|i: int|
            0 <= i < prev.len() && prev[i].created_at == prev.last().created_at && op_key(prev[i])
                == k,
{
    let t = prev.last().created_at;
    let r = prev.drop_last();
    assert forall|i: int| 0 <= i < r.len() implies r[i].created_at.no_later(t) by {
        assert(prev[i].created_at.no_later(prev[prev.len() - 1].created_at));
    }
    lemma_trailing_contains(r, t, k);
    let tail = trailing_keys(r, t);
    let all = seq![op_key(prev.last())] + tail;
    if all.contains(k) && k != op_key(prev.last()) {
        let j = choose|j: int| 0 <= j < all.len() && all[j] == k;
        assert(tail[j - 1] == k);
        let i = choose|i: int| 0 <= i < r.len() && r[i].created_at == t && op_key(r[i]) == k;
        assert(prev[i] == r[i]);
    }
    if k == op_key(prev.last()) {
        assert(all[0] == k);
    }
    if exists|i: int| 0 <= i < prev.len() && prev[i].created_at == t && op_key(prev[i]) == k {
        let i = choose|i: int| 0 <= i < prev.len() && prev[i].created_at == t && op_key(prev[i]) == k;
        if i < prev.len() - 1 {
            assert(r[i] == prev[i]);
            assert(tail.contains(k));
            let j = choose|j: int| 0 <= j < tail.len() && tail[j] == k;
            assert(all[j + 1] == k);
        } else {
            assert(all[0] == k);
        }
    }
}

/// For a page in time order that does not reach back before the boundary,
/// deduplication removes exactly the ops created at the boundary time whose
/// keys were already taken there, and keeps everything else in order.
pub proof fn lemma_dedup_removes_exactly_repeats(ops: Seq<Op>, at: Dt, keys: Seq<KeyView>)
    requires
        non_decreasing(ops),
        none_before(ops, at),
    ensures
        dedup_page(ops, at, keys) == ops.filter(|op: Op| !repeated_at(at, keys)(op)),
{
    let p = boundary_len(ops, at) as int;
    let keep = |op: Op| !repeated_at(at, keys)(op);
    lemma_boundary_prefix(ops, at);
    assert(ops =~= ops.take(p) + ops.skip(p));
    Seq::filter_distributes_over_add(ops.take(p), ops.skip(p), keep);
    lemma_filter_agree(ops.take(p), unseen(keys), keep);
    assert forall|i: int| 0 <= i < ops.skip(p).len() implies keep(ops.skip(p)[i]) by {
        assert(ops[p].created_at != at);
        assert(at.no_later(ops[p].created_at));
        assert(ops[p].created_at.no_later(ops[p + i].created_at));
    }
    lemma_filter_all(ops.skip(p), keep);
}

proof fn lemma_boundary_prefix(ops: Seq<Op>, at: Dt)
    ensures
        boundary_len(ops, at) <= ops.len(),
        forall|k: int| 0 <= k < boundary_len(ops, at) ==> ops[k].created_at == at,
        boundary_len(ops, at) < ops.len() ==> ops[boundary_len(ops, at) as int].created_at != at,
    decreases ops.len(),
{
    if ops.len() > 0 && ops[0].created_at == at {
        lemma_boundary_prefix(ops.drop_first(), at);
        assert forall|k: int| 0 <= k < boundary_len(ops, at) implies ops[k].created_at == at by {
            if k > 0 {
                assert(ops[k] == ops.drop_first()[k - 1]);
            }
        }
    }
}

/// Boundary deduplication is sound for pages in time order: after a first
/// page `prev`, a following page `next` (in time order, nothing before
/// `prev`'s final time) loses exactly the ops that repeat one of `prev` at
/// `prev`'s final time, and keeps all others in order.
pub proof fn lemma_dedup_after_page(prev: Seq<Op>, next: Seq<Op>)
    requires
        prev.len() > 0,
        non_decreasing(prev),
        non_decreasing(next),
        none_before(next, prev.last().created_at),
    ensures
        dedup_page(next, first_boundary(prev).0, first_boundary(prev).1) == next.filter(
            |op: Op| !repeats_final(prev, op),
        ),
{
    let (t, keys) = first_boundary(prev);
    lemma_dedup_removes_exactly_repeats(next, t, keys);
    assert forall|i: int| 0 <= i < next.len() implies (!repeated_at(t, keys)(next[i])) == (
    !repeats_final(prev, next[i])) by {
        lemma_first_boundary_keys(prev, op_key(next[i]));
    }
    lemma_filter_agree(next, |op: Op| !repeated_at(t, keys)(op), |op: Op| !repeats_final(prev, op));
}

/// Dedup completeness: an op whose key was not taken at the boundary is
/// never dropped, whatever its time.
pub proof fn lemma_dedup_keeps_unseen(ops: Seq<Op>, at: Dt, keys: Seq<KeyView>, i: int)
    requires
        0 <= i < ops.len(),
        !keys.contains(op_key(ops[i])),
    ensures
        dedup_page(ops, at, keys).contains(ops[i]),
{
    let p = boundary_len(ops, at) as int;
    lemma_boundary_prefix(ops, at);
    let d = dedup_page(ops, at, keys);
    let f = ops.take(p).filter(unseen(keys));
    if i < p {
        ops.take(p).lemma_filter_contains(unseen(keys), i);
        let k = choose|k: int| 0 <= k < f.len() && f[k] == ops[i];
        assert(d[k] == ops[i]);
    } else {
        assert(d[f.len() + (i - p)] == ops[i]);
    }
}

/// Monotone progress: taking a page that does not go back in time never
/// moves the boundary time backwards.
pub proof fn lemma_boundary_monotone(at: Dt, keys: Seq<KeyView>, ops: Seq<Op>)
    requires
        ({
            let d = dedup_page(ops, at, keys);
            d.len() > 0 ==> !d.last().created_at.earlier(at)
        }),
    ensures
        at.no_later(next_boundary(at, keys, dedup_page(ops, at, keys)).0),
{
}

} // verus!

verus! {

/// Where a poller resumes: the time of the last op seen and its key.
///
/// Any op created later is certainly not a repeat.
#[derive(Debug, PartialEq)]
pub struct LastOp {
    pub created_at: Dt,
    /// (did, cid)
    pub pk: (String, String),
}

impl From<Op> for LastOp {
    fn from(op: Op) -> (r: LastOp)
        ensures
            r == (LastOp { created_at: op.created_at, pk: (op.did, op.cid) }),
    {
        LastOp { created_at: op.created_at, pk: (op.did, op.cid) }
    }
}

impl vstd::std_specs::convert::FromSpecImpl<Op> for LastOp {
    open spec fn obeys_from_spec() -> bool {
        true
    }

    open spec fn from_spec(op: Op) -> LastOp {
        LastOp { created_at: op.created_at, pk: (op.did, op.cid) }
    }
}

impl<'a> From<&'a Op> for LastOp {
    fn from(op: &'a Op) -> (r: LastOp)
        ensures
            r == (LastOp { created_at: op.created_at, pk: (op.did, op.cid) }),
    {
        LastOp { created_at: op.created_at, pk: (op.did.clone(), op.cid.clone()) }
    }
}

impl<'a> vstd::std_specs::convert::FromSpecImpl<&'a Op> for LastOp {
    open spec fn obeys_from_spec() -> bool {
        true
    }

    open spec fn from_spec(op: &'a Op) -> LastOp {
        LastOp { created_at: op.created_at, pk: (op.did, op.cid) }
    }
}

/// A resume point known only by its time; its key is empty.
impl From<Dt> for LastOp {
    fn from(dt: Dt) -> (r: LastOp)
        ensures
            r.created_at == dt,
            r.pk.0@ == Seq::<char>::empty(),
            r.pk.1@ == Seq::<char>::empty(),
    {
        LastOp { created_at: dt, pk: (String::new(), String::new()) }
    }
}

impl vstd::std_specs::convert::FromSpecImpl<Dt> for LastOp {
    /// The empty key has no closed form here; `from`'s own `ensures` gives it.
    open spec fn obeys_from_spec() -> bool {
        false
    }

    open spec fn from_spec(dt: Dt) -> LastOp {
        arbitrary()
    }
}

/// Why a poller stops.
#[derive(Debug, PartialEq, Eq, Structural)]
pub enum PollError {
    /// After deduplication a page ended before the boundary time: the
    /// upstream's ordering contract is broken.
    TimeWentBackwards,
}

/// The decisions of an export poller, apart from its fetching: where to
/// resume, and what of each fetched page to forward.
#[derive(Debug)]
pub struct Poller {
    /// Resume point for the next request.
    pub prev_last: Option<LastOp>,
    /// Deduplication state; none until the first page has been taken.
    pub boundary: Option<PageBoundaryState>,
}

impl Poller {
    /// The time to resume after, if any.
    pub open spec fn resume_at(&self) -> Option<Dt> {
        match self.prev_last {
            Some(l) => Some(l.created_at),
            None => None,
        }
    }

    /// The boundary as a value, if any.
    pub open spec fn boundary_view(&self) -> Option<(Dt, Seq<KeyView>)> {
        match self.boundary {
            Some(b) => Some(b.boundary()),
            None => None,
        }
    }

    /// A poller that starts after `after`, or from the beginning.
    pub fn new(after: Option<Dt>) -> (r: Poller)
        ensures
            r.resume_at() == after,
            r.boundary is None,
    {
        let prev_last = match after {
            Some(dt) => Some(LastOp::from(dt)),
            None => None,
        };
        Poller { prev_last, boundary: None }
    }

    /// The `after` parameter for the next request.
    pub fn after(&self) -> (r: Option<Dt>)
        ensures
            r == self.resume_at(),
    {
        match &self.prev_last {
            Some(l) => Some(l.created_at),
            None => None,
        }
    }

    /// Takes a freshly fetched page: the first page is forwarded whole and
    /// starts the boundary; later pages are deduplicated against it. The
    /// result is the page to forward (nothing is sent when it is empty).
    /// The resume point moves to the last op of the page as fetched.
    pub fn take_page(&mut self, page: ExportPage) -> (r: Result<ExportPage, PollError>)
        ensures
            match old(self).boundary {
                None => {
                    &&& r matches Ok(out) && out.ops@ == page.ops@
                    &&& page.ops@.len() == 0 ==> final(self).boundary is None
                    &&& page.ops@.len() > 0 ==> final(self).boundary_view() == Some(
                        first_boundary(page.ops@),
                    )
                },
                Some(b) => if b.goes_backwards(page.ops@) {
                    &&& r == Err::<ExportPage, PollError>(PollError::TimeWentBackwards)
                    &&& final(self).boundary_view() == old(self).boundary_view()
                    &&& final(self).resume_at() == old(self).resume_at()
                } else {
                    let d = dedup_page(page.ops@, b.last_at, b.keys());
                    &&& r matches Ok(out) && out.ops@ == d
                    &&& final(self).boundary_view() == Some(next_boundary(b.last_at, b.keys(), d))
                    &&& b.last_at.no_later(final(self).boundary->Some_0.last_at)
                },
            },
            r is Ok ==> final(self).resume_at() == (if page.ops@.len() > 0 {
                Some(page.ops@.last().created_at)
            } else {
                old(self).resume_at()
            }),
    {
        let mut page = page;
        let n = page.ops.len();
        let next_last = if n > 0 {
            Some(page.ops[n - 1].created_at)
        } else {
            None
        };
        match &mut self.boundary {
            Some(state) => {
                if state.check_goes_backwards(&page.ops) {
                    return Err(PollError::TimeWentBackwards);
                }
                state.apply_to_next(&mut page);
            },
            None => {
                self.boundary = PageBoundaryState::new(&page);
            },
        }
        if let Some(t) = next_last {
            self.prev_last = Some(LastOp::from(t));
        }
        Ok(page)
    }
}

} // verus!

verus! {

/// The boundary (`at`, `keys`) records what was emitted in `e`: `e` is in
/// time order and ends at `at`, and `keys` holds exactly the keys of the
/// ops of `e` created at `at`.
pub open spec fn tracks_emitted(at: Dt, keys: Seq<KeyView>, e: Seq<Op>) -> bool {
    &&& e.len() > 0
    &&& non_decreasing(e)
    &&& e.last().created_at == at
    &&& forall|k: KeyView|
        keys.contains(k) <==> exists|i: int|
            0 <= i < e.len() && e[i].created_at == at && op_key(e[i]) == k
}

proof fn lemma_filter_non_decreasing(s: Seq<Op>, p: spec_fn(Op) -> bool)
    requires
        non_decreasing(s),
    ensures
        non_decreasing(s.filter(p)),
    decreases s.len(),
{
    reveal(Seq::filter);
    if s.len() > 0 {
        let r = s.drop_last();
        lemma_filter_non_decreasing(r, p);
        let f = r.filter(p);
        if p(s.last()) {
            assert forall|i: int, j: int| 0 <= i <= j < f.len() + 1 implies f.push(
                s.last(),
            )[i].created_at.no_later(f.push(s.last())[j].created_at) by {
                if j == f.len() && i < f.len() {
                    assert(f.contains(f[i]));
                    r.lemma_filter_contains_rev(p, f[i]);
                    let k = choose|k: int| 0 <= k < r.len() && r[k] == f[i];
                    assert(s[k] == r[k]);
                }
            }
        }
    }
}

proof fn lemma_contains_cons(x: KeyView, s: Seq<KeyView>, k: KeyView)
    ensures
        (seq![x] + s).contains(k) <==> (k == x || s.contains(k)),
{
    let c = seq![x] + s;
    if c.contains(k) && k != x {
        let j = choose|j: int| 0 <= j < c.len() && c[j] == k;
        assert(s[j - 1] == k);
    }
    if s.contains(k) {
        let j = choose|j: int| 0 <= j < s.len() && s[j] == k;
        assert(c[j + 1] == k);
    }
    if k == x {
        assert(c[0] == k);
    }
}

proof fn lemma_contains_push_concat(a: Seq<KeyView>, x: KeyView, s: Seq<KeyView>, k: KeyView)
    ensures
        (a.push(x) + s).contains(k) <==> (a.contains(k) || k == x || s.contains(k)),
{
    let c = a.push(x) + s;
    if c.contains(k) {
        let j = choose|j: int| 0 <= j < c.len() && c[j] == k;
        if j < a.len() {
            assert(a[j] == k);
        } else if j > a.len() {
            assert(s[j - a.len() - 1] == k);
        }
    }
    if a.contains(k) {
        let j = choose|j: int| 0 <= j < a.len() && a[j] == k;
        assert(c[j] == k);
    }
    if s.contains(k) {
        let j = choose|j: int| 0 <= j < s.len() && s[j] == k;
        assert(c[a.len() + 1 + j] == k);
    }
    if k == x {
        assert(c[a.len() as int] == k);
    }
}

/// Boundary deduplication over any sequence of pages: if the boundary
/// records the ops emitted so far, then taking a page in time order that
/// does not reach back before the boundary emits the page minus exactly the
/// ops that repeat an emitted op at the boundary time, and the new boundary
/// records everything emitted, the new output included.
pub proof fn lemma_boundary_tracks_emitted(
    at: Dt,
    keys: Seq<KeyView>,
    e: Seq<Op>,
    page: Seq<Op>,
)
    requires
        tracks_emitted(at, keys, e),
        non_decreasing(page),
        none_before(page, at),
    ensures
        dedup_page(page, at, keys) == page.filter(
            |op: Op| !(op.created_at == at && exists|i: int|
                0 <= i < e.len() && e[i].created_at == at && op_key(e[i]) == op_key(op)),
        ),
        tracks_emitted(
            next_boundary(at, keys, dedup_page(page, at, keys)).0,
            next_boundary(at, keys, dedup_page(page, at, keys)).1,
            e + dedup_page(page, at, keys),
        ),
{
    let d = dedup_page(page, at, keys);
    let keep_a = |op: Op| !repeated_at(at, keys)(op);
    let keep_b = |op: Op|
        !(op.created_at == at && exists|i: int|
            0 <= i < e.len() && e[i].created_at == at && op_key(e[i]) == op_key(op));
    lemma_dedup_removes_exactly_repeats(page, at, keys);
    assert forall|i: int| 0 <= i < page.len() implies keep_a(page[i]) == keep_b(page[i]) by {
        assert(keys.contains(op_key(page[i])) <==> exists|j: int|
            0 <= j < e.len() && e[j].created_at == at && op_key(e[j]) == op_key(page[i]));
    }
    lemma_filter_agree(page, keep_a, keep_b);
    lemma_filter_non_decreasing(page, keep_a);
    let all = e + d;
    // every op of `d` comes from the page, so none lies before `at`
    assert forall|i: int| 0 <= i < d.len() implies at.no_later(d[i].created_at) by {
        assert(d.contains(d[i]));
        page.lemma_filter_contains_rev(keep_a, d[i]);
        let k = choose|k: int| 0 <= k < page.len() && page[k] == d[i];
    }
    assert(non_decreasing(all)) by {
        assert forall|i: int, j: int| 0 <= i <= j < all.len() implies all[i].created_at.no_later(
            all[j].created_at,
        ) by {
            if i < e.len() && j >= e.len() {
                assert(e[i].created_at.no_later(e[e.len() - 1].created_at));
                assert(at.no_later(d[j - e.len()].created_at));
            } else if i >= e.len() {
                assert(all[i] == d[i - e.len()]);
                assert(all[j] == d[j - e.len()]);
            }
        }
    }
    if d.len() == 0 {
        assert(all =~= e);
    } else {
        let t = d.last().created_at;
        let r = d.drop_last();
        assert(all.last() == d.last());
        assert forall|i: int| 0 <= i < r.len() implies r[i].created_at.no_later(t) by {
            assert(d[i].created_at.no_later(d[d.len() - 1].created_at));
        }
        assert forall|k: KeyView| #[trigger]
            next_boundary(at, keys, d).1.contains(k) <==> exists|i: int|
                0 <= i < all.len() && all[i].created_at == t && op_key(all[i]) == k by {
            lemma_trailing_contains(r, t, k);
            let tail = trailing_keys(r, t);
            if exists|i: int| 0 <= i < all.len() && all[i].created_at == t && op_key(all[i]) == k {
                let i = choose|i: int|
                    0 <= i < all.len() && all[i].created_at == t && op_key(all[i]) == k;
                if i >= e.len() && i < all.len() - 1 {
                    assert(r[i - e.len()] == all[i]);
                }
            }
            if at.earlier(t) {
                lemma_contains_cons(op_key(d.last()), tail, k);
                if exists|i: int| 0 <= i < all.len() && all[i].created_at == t && op_key(all[i]) == k {
                    let i = choose|i: int|
                        0 <= i < all.len() && all[i].created_at == t && op_key(all[i]) == k;
                    if i < e.len() {
                        assert(e[i].created_at.no_later(e[e.len() - 1].created_at));
                    }
                }
                if tail.contains(k) {
                    let i = choose|i: int| 0 <= i < r.len() && r[i].created_at == t && op_key(r[i]) == k;
                    assert(all[e.len() + i] == r[i]);
                }
                if k == op_key(d.last()) {
                    assert(all[all.len() - 1] == d.last());
                }
            } else {
                assert(t == at);
                lemma_contains_push_concat(keys, op_key(d.last()), tail, k);
                if keys.contains(k) {
                    let i = choose|i: int| 0 <= i < e.len() && e[i].created_at == at && op_key(e[i]) == k;
                    assert(all[i] == e[i]);
                }
                if tail.contains(k) {
                    let i = choose|i: int| 0 <= i < r.len() && r[i].created_at == t && op_key(r[i]) == k;
                    assert(all[e.len() + i] == r[i]);
                }
                if k == op_key(d.last()) {
                    assert(all[all.len() - 1] == d.last());
                }
                if exists|i: int| 0 <= i < all.len() && all[i].created_at == t && op_key(all[i]) == k {
                    let i = choose|i: int|
                        0 <= i < all.len() && all[i].created_at == t && op_key(all[i]) == k;
                    if i < e.len() {
                        assert(e[i] == all[i]);
                        assert(keys.contains(k));
                    }
                }
            }
        }
    }
}

} // verus!
