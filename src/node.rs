use vstd::prelude::*;
use crate::stream::{
    Accumulator, Zipper, accumulated_by, current_state, emitted, filtered_by, latest,
    lemma_accumulate_folds_prefixes, lemma_latest_some_iff, lemma_map_then_filter, mapped_by, source_slots, zip_slot,
};

verus! {

/// A node of a live graph: it takes each item pushed into it and, before the
/// push returns, runs its own step and pushes what that step forwards into
/// the nodes below it.
pub trait Node<T> {
    /// Every item pushed into this node so far, in order.
    spec fn received(&self) -> Seq<T>;

    /// The node and everything below it hold their wiring invariants.
    spec fn wired(&self) -> bool;

    fn push(&mut self, item: T)
        requires
            old(self).wired(),
        ensures
            final(self).wired(),
            final(self).received() == old(self).received().push(item),
    ;
}

/// Keeps every item it receives, in order.
pub struct Collect<T> {
    pub items: Vec<T>,
}

impl<T> Collect<T> {
    /// A collector that has received nothing.
    pub fn new() -> (r: Collect<T>)
        ensures
            r.received() == Seq::<T>::empty(),
            r.wired(),
    {
        Collect { items: Vec::new() }
    }
}

impl<T> Node<T> for Collect<T> {
    open spec fn received(&self) -> Seq<T> {
        self.items@
    }

    open spec fn wired(&self) -> bool {
        true
    }

    fn push(&mut self, item: T) {
        self.items.push(item);
    }
}

/// A terminal node: calls `f` on every item.
pub struct Sink<T, F> {
    pub f: F,
    pub seen: Ghost<Seq<T>>,
}

impl<T, F: Fn(&T)> Sink<T, F> {
    pub fn new(f: F) -> (r: Sink<T, F>)
        requires
            forall|x: &T| f.requires((x,)),
        ensures
            r.f == f,
            r.received() == Seq::<T>::empty(),
            r.wired(),
    {
        Sink { f, seen: Ghost(Seq::empty()) }
    }
}

impl<T, F: Fn(&T)> Node<T> for Sink<T, F> {
    open spec fn received(&self) -> Seq<T> {
        self.seen@
    }

    open spec fn wired(&self) -> bool {
        forall|x: &T| self.f.requires((x,))
    }

    fn push(&mut self, item: T) {
        (self.f)(&item);
        self.seen = Ghost(self.seen@.push(item));
    }
}

/// Forwards `f(item)` for every item.
pub struct MapNode<T, U, F, D> {
    pub f: F,
    pub down: D,
    pub seen: Ghost<Seq<T>>,
    pub outs: Ghost<Seq<Option<U>>>,
}

impl<T, U, F: Fn(&T) -> U, D: Node<U>> MapNode<T, U, F, D> {
    pub fn new(f: F, down: D) -> (r: MapNode<T, U, F, D>)
        requires
            forall|x: &T| f.requires((x,)),
            down.wired(),
            down.received().len() == 0,
        ensures
            r.f == f,
            r.received() == Seq::<T>::empty(),
            r.wired(),
    {
        assert(down.received() =~= Seq::<U>::empty());
        MapNode { f, down, seen: Ghost(Seq::empty()), outs: Ghost(Seq::empty()) }
    }
}

impl<T, U, F: Fn(&T) -> U, D: Node<U>> Node<T> for MapNode<T, U, F, D> {
    open spec fn received(&self) -> Seq<T> {
        self.seen@
    }

    open spec fn wired(&self) -> bool {
        &&& forall|x: &T| self.f.requires((x,))
        &&& self.down.wired()
        &&& mapped_by(source_slots(self.seen@), self.outs@, self.f)
        &&& self.down.received() == emitted(self.outs@)
    }

    fn push(&mut self, item: T) {
        let ghost old_seen = self.seen@;
        let ghost old_outs = self.outs@;
        let y = (self.f)(&item);
        proof {
            self.outs = Ghost(old_outs.push(Option::Some(y)));
            self.seen = Ghost(old_seen.push(item));
            assert(source_slots(self.seen@) =~= source_slots(old_seen).push(Option::Some(item)));
            assert(self.outs@.drop_last() =~= old_outs);
        }
        self.down.push(y);
    }
}

/// Forwards each item unchanged when `predicate` holds of it.
pub struct FilterNode<T, P, D> {
    pub predicate: P,
    pub down: D,
    pub seen: Ghost<Seq<T>>,
    pub outs: Ghost<Seq<Option<T>>>,
}

impl<T, P: Fn(&T) -> bool, D: Node<T>> FilterNode<T, P, D> {
    pub fn new(predicate: P, down: D) -> (r: FilterNode<T, P, D>)
        requires
            forall|x: &T| predicate.requires((x,)),
            down.wired(),
            down.received().len() == 0,
        ensures
            r.predicate == predicate,
            r.received() == Seq::<T>::empty(),
            r.wired(),
    {
        assert(down.received() =~= Seq::<T>::empty());
        FilterNode { predicate, down, seen: Ghost(Seq::empty()), outs: Ghost(Seq::empty()) }
    }
}

impl<T, P: Fn(&T) -> bool, D: Node<T>> Node<T> for FilterNode<T, P, D> {
    open spec fn received(&self) -> Seq<T> {
        self.seen@
    }

    open spec fn wired(&self) -> bool {
        &&& forall|x: &T| self.predicate.requires((x,))
        &&& self.down.wired()
        &&& filtered_by(source_slots(self.seen@), self.outs@, self.predicate)
        &&& self.down.received() == emitted(self.outs@)
    }

    fn push(&mut self, item: T) {
        let ghost old_seen = self.seen@;
        let ghost old_outs = self.outs@;
        let keep = (self.predicate)(&item);
        proof {
            self.seen = Ghost(old_seen.push(item));
            assert(source_slots(self.seen@) =~= source_slots(old_seen).push(Option::Some(item)));
        }
        if keep {
            proof {
                self.outs = Ghost(old_outs.push(Option::Some(item)));
                assert(self.outs@.drop_last() =~= old_outs);
            }
            self.down.push(item);
        } else {
            proof {
                self.outs = Ghost(old_outs.push(Option::None));
                assert(self.outs@.drop_last() =~= old_outs);
            }
        }
    }
}

/// Forwards the value inside `f(item)` when it is `Some`.
pub struct FilterMapNode<T, U, F, D> {
    pub f: F,
    pub down: D,
    pub seen: Ghost<Seq<T>>,
    pub outs: Ghost<Seq<Option<U>>>,
}

impl<T, U, F: Fn(&T) -> Option<U>, D: Node<U>> FilterMapNode<T, U, F, D> {
    pub fn new(f: F, down: D) -> (r: FilterMapNode<T, U, F, D>)
        requires
            forall|x: &T| f.requires((x,)),
            down.wired(),
            down.received().len() == 0,
        ensures
            r.f == f,
            r.received() == Seq::<T>::empty(),
            r.wired(),
    {
        assert(down.received() =~= Seq::<U>::empty());
        FilterMapNode { f, down, seen: Ghost(Seq::empty()), outs: Ghost(Seq::empty()) }
    }
}

impl<T, U, F: Fn(&T) -> Option<U>, D: Node<U>> Node<T> for FilterMapNode<T, U, F, D> {
    open spec fn received(&self) -> Seq<T> {
        self.seen@
    }

    open spec fn wired(&self) -> bool {
        &&& forall|x: &T| self.f.requires((x,))
        &&& self.down.wired()
        &&& self.outs@.len() == self.seen@.len()
        &&& forall|i: int|
            0 <= i < self.seen@.len() ==> self.f.ensures((&self.seen@[i],), #[trigger] self.outs@[i])
        &&& self.down.received() == emitted(self.outs@)
    }

    fn push(&mut self, item: T) {
        let ghost old_seen = self.seen@;
        let ghost old_outs = self.outs@;
        let r = (self.f)(&item);
        proof {
            self.seen = Ghost(old_seen.push(item));
            self.outs = Ghost(old_outs.push(r));
            assert(self.outs@.drop_last() =~= old_outs);
            assert forall|i: int| 0 <= i < self.seen@.len() implies self.f.ensures(
                (&self.seen@[i],),
                #[trigger] self.outs@[i],
            ) by {
                if i < old_seen.len() {
                    assert(self.seen@[i] == old_seen[i]);
                    assert(self.outs@[i] == old_outs[i]);
                }
            }
        }
        if let Option::Some(y) = r {
            self.down.push(y);
        }
    }
}

/// Folds every item into its state and forwards each new state.
pub struct AccumulateNode<T, S, F, D> {
    pub cell: Accumulator<S, F>,
    pub seed: Ghost<S>,
    pub down: D,
    pub seen: Ghost<Seq<T>>,
    pub outs: Ghost<Seq<Option<S>>>,
}

impl<T, S: Copy, F: Fn(S, &T) -> S, D: Node<S>> AccumulateNode<T, S, F, D> {
    pub fn new(initial_state: S, f: F, down: D) -> (r: AccumulateNode<T, S, F, D>)
        requires
            forall|st: S, x: &T| f.requires((st, x)),
            down.wired(),
            down.received().len() == 0,
        ensures
            r.cell.folder() == f,
            r.seed@ == initial_state,
            r.received() == Seq::<T>::empty(),
            r.wired(),
    {
        assert(down.received() =~= Seq::<S>::empty());
        AccumulateNode {
            cell: Accumulator::new(initial_state, f),
            seed: Ghost(initial_state),
            down,
            seen: Ghost(Seq::empty()),
            outs: Ghost(Seq::empty()),
        }
    }
}

impl<T, S: Copy, F: Fn(S, &T) -> S, D: Node<S>> Node<T> for AccumulateNode<T, S, F, D> {
    open spec fn received(&self) -> Seq<T> {
        self.seen@
    }

    open spec fn wired(&self) -> bool {
        &&& forall|st: S, x: &T| self.cell.folder().requires((st, x))
        &&& self.down.wired()
        &&& accumulated_by(source_slots(self.seen@), self.outs@, self.seed@, self.cell.folder())
        &&& self.cell.state() == current_state(self.outs@, self.seed@)
        &&& self.down.received() == emitted(self.outs@)
    }

    fn push(&mut self, item: T) {
        let ghost old_seen = self.seen@;
        let ghost old_outs = self.outs@;
        let ghost seed = self.seed@;
        let next = self.cell.push(&item);
        proof {
            self.seen = Ghost(old_seen.push(item));
            self.outs = Ghost(old_outs.push(Option::Some(next)));
            assert(source_slots(self.seen@) =~= source_slots(old_seen).push(Option::Some(item)));
            assert(self.outs@.drop_last() =~= old_outs);
            assert(self.outs@.take(old_outs.len() as int) =~= old_outs);
            assert forall|i: int| 0 <= i < old_outs.len() implies self.outs@.take(i) == old_outs.take(
                i,
            ) by {
                assert(self.outs@.take(i) =~= old_outs.take(i));
            }
        }
        self.down.push(next);
    }
}

/// Calls `f` on every item for its side effect, then forwards the item.
pub struct TapNode<T, F, D> {
    pub f: F,
    pub down: D,
    pub seen: Ghost<Seq<T>>,
}

impl<T, F: Fn(&T), D: Node<T>> TapNode<T, F, D> {
    pub fn new(f: F, down: D) -> (r: TapNode<T, F, D>)
        requires
            forall|x: &T| f.requires((x,)),
            down.wired(),
            down.received().len() == 0,
        ensures
            r.f == f,
            r.received() == Seq::<T>::empty(),
            r.wired(),
    {
        assert(down.received() =~= Seq::<T>::empty());
        TapNode { f, down, seen: Ghost(Seq::empty()) }
    }
}

impl<T, F: Fn(&T), D: Node<T>> Node<T> for TapNode<T, F, D> {
    open spec fn received(&self) -> Seq<T> {
        self.seen@
    }

    open spec fn wired(&self) -> bool {
        &&& forall|x: &T| self.f.requires((x,))
        &&& self.down.wired()
        &&& self.down.received() == self.seen@
    }

    fn push(&mut self, item: T) {
        (self.f)(&item);
        proof {
            self.seen = Ghost(self.seen@.push(item));
        }
        self.down.push(item);
    }
}

/// Two downstream registrations on one node: each item goes to `first`,
/// then to `second`, in the order they were registered.
pub struct Fanout<T, A, B> {
    pub first: A,
    pub second: B,
    pub seen: Ghost<Seq<T>>,
}

impl<T: Copy, A: Node<T>, B: Node<T>> Fanout<T, A, B> {
    pub fn new(first: A, second: B) -> (r: Fanout<T, A, B>)
        requires
            first.wired(),
            second.wired(),
            first.received().len() == 0,
            second.received().len() == 0,
        ensures
            r.received() == Seq::<T>::empty(),
            r.wired(),
    {
        assert(first.received() =~= Seq::<T>::empty());
        assert(second.received() =~= Seq::<T>::empty());
        Fanout { first, second, seen: Ghost(Seq::empty()) }
    }
}

impl<T: Copy, A: Node<T>, B: Node<T>> Node<T> for Fanout<T, A, B> {
    open spec fn received(&self) -> Seq<T> {
        self.seen@
    }

    open spec fn wired(&self) -> bool {
        &&& self.first.wired()
        &&& self.second.wired()
        &&& self.first.received() == self.seen@
        &&& self.second.received() == self.seen@
    }

    fn push(&mut self, item: T) {
        self.first.push(item);
        self.second.push(item);
        proof {
            self.seen = Ghost(self.seen@.push(item));
        }
    }
}

/// An arrival at a zip node: on its left side or on its right side.
pub enum Side<L, R> {
    Left(L),
    Right(R),
}

/// The right-side timeline of a sequence of arrivals.
pub open spec fn right_slots<L, R>(s: Seq<Side<L, R>>) -> Seq<Option<R>> {
    s.map_values(
        |a: Side<L, R>|
            match a {
                Side::Left(_) => Option::None,
                Side::Right(u) => Option::Some(u),
            },
    )
}

/// What a zip node forwards for the `i`-th arrival: a left arrival is paired
/// with the latest right value that arrived before it; a right arrival forwards nothing.
pub open spec fn zip_arrival<L, R>(s: Seq<Side<L, R>>, i: int) -> Option<(L, R)> {
    match s[i] {
        Side::Left(x) => zip_slot(Option::Some(x), latest(right_slots(s.take(i)))),
        Side::Right(_) => Option::None,
    }
}

/// Pairs left arrivals with the most recent right value. Only a left arrival
/// emits, and not before a right value has arrived.
pub struct ZipNode<L, R, D> {
    pub cell: Zipper<R>,
    pub down: D,
    pub seen: Ghost<Seq<Side<L, R>>>,
    pub outs: Ghost<Seq<Option<(L, R)>>>,
}

impl<L, R: Copy, D: Node<(L, R)>> ZipNode<L, R, D> {
    pub fn new(down: D) -> (r: ZipNode<L, R, D>)
        requires
            down.wired(),
            down.received().len() == 0,
        ensures
            r.received() == Seq::<Side<L, R>>::empty(),
            r.wired(),
    {
        assert(down.received() =~= Seq::<(L, R)>::empty());
        ZipNode { cell: Zipper::new(), down, seen: Ghost(Seq::empty()), outs: Ghost(Seq::empty()) }
    }
}

impl<L, R: Copy, D: Node<(L, R)>> Node<Side<L, R>> for ZipNode<L, R, D> {
    open spec fn received(&self) -> Seq<Side<L, R>> {
        self.seen@
    }

    open spec fn wired(&self) -> bool {
        &&& self.down.wired()
        &&& self.outs@.len() == self.seen@.len()
        &&& forall|i: int|
            0 <= i < self.seen@.len() ==> #[trigger] self.outs@[i] == zip_arrival(self.seen@, i)
        &&& self.cell.latest() == latest(right_slots(self.seen@))
        &&& self.down.received() == emitted(self.outs@)
    }

    fn push(&mut self, item: Side<L, R>) {
        let ghost old_seen = self.seen@;
        let ghost old_outs = self.outs@;
        proof {
            self.seen = Ghost(old_seen.push(item));
            assert(self.seen@.take(old_seen.len() as int) =~= old_seen);
            assert(right_slots(self.seen@).drop_last() =~= right_slots(old_seen));
            assert forall|i: int| 0 <= i < old_seen.len() implies self.seen@.take(i) == old_seen.take(
                i,
            ) by {
                assert(self.seen@.take(i) =~= old_seen.take(i));
            }
        }
        match item {
            Side::Left(x) => {
                let r = self.cell.push_left(x);
                proof {
                    self.outs = Ghost(old_outs.push(r));
                    assert(self.outs@.drop_last() =~= old_outs);
                }
                if let Option::Some(pair) = r {
                    self.down.push(pair);
                }
            },
            Side::Right(u) => {
                self.cell.push_right(u);
                proof {
                    self.outs = Ghost(old_outs.push(Option::None));
                    assert(self.outs@.drop_last() =~= old_outs);
                }
            },
        }
    }
}

/// A timeline whose every slot carries a value is the timeline of its values.
proof fn lemma_all_some_slots<T>(s: Seq<Option<T>>)
    requires
        forall|i: int| 0 <= i < s.len() ==> (#[trigger] s[i]) is Some,
    ensures
        source_slots(emitted(s)) == s,
    decreases s.len(),
{
    if s.len() > 0 {
        let p = s.drop_last();
        assert forall|i: int| 0 <= i < p.len() implies (#[trigger] p[i]) is Some by {
            assert(p[i] == s[i]);
        }
        lemma_all_some_slots(p);
        assert(s[s.len() - 1] is Some);
        assert(source_slots(emitted(s)) =~= source_slots(emitted(p)).push(s.last()));
        assert(s =~= p.push(s.last()));
    } else {
        assert(source_slots(emitted(s)) =~= s);
    }
}

/// In a live graph, a map node by `f` wired to a filter node by `p` has
/// delivered below the filter, in order, exactly the images under `f` of the
/// items it received whose image satisfies `p`.
pub proof fn lemma_live_map_then_filter<T, U, F: Fn(&T) -> U, P: Fn(&U) -> bool, D: Node<U>>(
    m: MapNode<T, U, F, FilterNode<U, P, D>>,
    fs: spec_fn(T) -> U,
    ps: spec_fn(U) -> bool,
)
    requires
        m.wired(),
        forall|x: T, y: U| m.f.ensures((&x,), y) ==> y == fs(x),
        forall|y: U, b: bool| m.down.predicate.ensures((&y,), b) ==> b == ps(y),
    ensures
        m.down.down.received() == m.received().map_values(fs).filter(ps),
{
    let outs = m.outs@;
    assert forall|i: int| 0 <= i < outs.len() implies (#[trigger] outs[i]) is Some by {
        assert(source_slots(m.seen@)[i] == Option::Some(m.seen@[i]));
    }
    lemma_all_some_slots(outs);
    lemma_map_then_filter(m.seen@, outs, m.down.outs@, m.f, m.down.predicate, fs, ps);
}

/// In a live graph, an accumulate node that received `k` items has forwarded
/// exactly `k` states, the `j`-th being the fold of its seed over the first
/// `j` items.
pub proof fn lemma_live_accumulate<T, S: Copy, F: Fn(S, &T) -> S, D: Node<S>>(
    a: AccumulateNode<T, S, F, D>,
    fs: spec_fn(S, T) -> S,
)
    requires
        a.wired(),
        forall|st: S, x: T, r: S| a.cell.folder().ensures((st, &x), r) ==> r == fs(st, x),
    ensures
        a.down.received().len() == a.received().len(),
        forall|j: int|
            0 <= j < a.received().len() ==> #[trigger] a.down.received()[j] == a.received().take(
                j + 1,
            ).fold_left(a.seed@, fs),
{
    lemma_accumulate_folds_prefixes(a.seen@, a.outs@, a.seed@, a.cell.folder(), fs);
}

/// In a live graph, a zip node emits nothing for a left arrival until a right
/// value has arrived before it, however many left arrivals came first; from
/// then on each left arrival is paired with the most recent right value.
pub proof fn lemma_live_zip_waits_then_samples<L, R: Copy, D: Node<(L, R)>>(
    z: ZipNode<L, R, D>,
    i: int,
)
    requires
        z.wired(),
        0 <= i < z.received().len(),
        z.received()[i] is Left,
    ensures
        (forall|j: int| 0 <= j < i ==> (#[trigger] z.received()[j]) is Left) ==> z.outs@[i] is None,
        (exists|j: int| 0 <= j < i && (#[trigger] z.received()[j]) is Right) ==> z.outs@[i]
            == Option::Some((z.received()[i]->Left_0, latest(right_slots(z.received().take(i)))->0)),
{
    let s = z.seen@;
    let rs = right_slots(s.take(i));
    lemma_latest_some_iff(rs);
    assert forall|j: int| 0 <= j < i implies ((#[trigger] s[j]) is Right <==> rs[j] is Some) by {
        assert(s.take(i)[j] == s[j]);
    }
    if exists|j: int| 0 <= j < i && (#[trigger] s[j]) is Right {
        let j = choose|j: int| 0 <= j < i && (#[trigger] s[j]) is Right;
        assert(rs[j] is Some);
    }
}

} // verus!
