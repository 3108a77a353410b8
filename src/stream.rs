use vstd::prelude::*;
use crate::node::Node;

verus! {

/// The values a timeline carries, in order: each `Some` slot contributes its value.
pub open spec fn emitted<T>(s: Seq<Option<T>>) -> Seq<T>
    decreases s.len(),
{
    if s.len() == 0 {
        Seq::empty()
    } else {
        let rest = emitted(s.drop_last());
        match s.last() {
            Option::Some(v) => rest.push(v),
            Option::None => rest,
        }
    }
}

/// The timeline of a source that emitted `input`: one `Some` slot per value.
pub open spec fn source_slots<T>(input: Seq<T>) -> Seq<Option<T>> {
    input.map_values(|x: T| Option::Some(x))
}

/// `output` is what `map(f)` forwards for `input`.
pub open spec fn mapped_by<T, U, F: Fn(&T) -> U>(
    input: Seq<Option<T>>,
    output: Seq<Option<U>>,
    f: F,
) -> bool {
    &&& output.len() == input.len()
    &&& forall|i: int|
        0 <= i < input.len() ==> match input[i] {
            Option::None => (#[trigger] output[i]) is None,
            Option::Some(x) => output[i] is Some && f.ensures((&x,), output[i]->0),
        }
}

/// `output` is what `filter(predicate)` forwards for `input`.
pub open spec fn filtered_by<T, P: Fn(&T) -> bool>(
    input: Seq<Option<T>>,
    output: Seq<Option<T>>,
    predicate: P,
) -> bool {
    &&& output.len() == input.len()
    &&& forall|i: int|
        0 <= i < input.len() ==> match input[i] {
            Option::None => (#[trigger] output[i]) is None,
            Option::Some(x) => (output[i] == input[i] && predicate.ensures((&x,), true)) || (
            output[i] is None && predicate.ensures((&x,), false)),
        }
}

/// `output` is what `accumulate(seed, f)` forwards for `input`: each value
/// folds into the state last forwarded (the seed at first).
pub open spec fn accumulated_by<T, S, F: Fn(S, &T) -> S>(
    input: Seq<Option<T>>,
    output: Seq<Option<S>>,
    seed: S,
    f: F,
) -> bool {
    &&& output.len() == input.len()
    &&& forall|i: int|
        0 <= i < input.len() ==> match input[i] {
            Option::None => (#[trigger] output[i]) is None,
            Option::Some(x) => output[i] is Some && f.ensures(
                (current_state(output.take(i), seed), &x),
                output[i]->0,
            ),
        }
}

/// Mapping a source's values by `f` and then filtering by `p` observes, in
/// order, exactly the images under `f` whose image satisfies `p`.
pub proof fn lemma_map_then_filter<T, U, F: Fn(&T) -> U, P: Fn(&U) -> bool>(
    input: Seq<T>,
    mapped: Seq<Option<U>>,
    out: Seq<Option<U>>,
    f: F,
    p: P,
    fs: spec_fn(T) -> U,
    ps: spec_fn(U) -> bool,
)
    requires
        forall|x: T, y: U| f.ensures((&x,), y) ==> y == fs(x),
        forall|y: U, b: bool| p.ensures((&y,), b) ==> b == ps(y),
        mapped_by(source_slots(input), mapped, f),
        filtered_by(mapped, out, p),
    ensures
        emitted(out) == input.map_values(fs).filter(ps),
{
    lemma_map_then_filter_prefix(input, mapped, out, f, p, fs, ps, input.len() as int);
    assert(out.take(input.len() as int) =~= out);
    assert(input.take(input.len() as int) =~= input);
}

proof fn lemma_map_then_filter_prefix<T, U, F: Fn(&T) -> U, P: Fn(&U) -> bool>(
    input: Seq<T>,
    mapped: Seq<Option<U>>,
    out: Seq<Option<U>>,
    f: F,
    p: P,
    fs: spec_fn(T) -> U,
    ps: spec_fn(U) -> bool,
    n: int,
)
    requires
        forall|x: T, y: U| f.ensures((&x,), y) ==> y == fs(x),
        forall|y: U, b: bool| p.ensures((&y,), b) ==> b == ps(y),
        mapped_by(source_slots(input), mapped, f),
        filtered_by(mapped, out, p),
        0 <= n <= input.len(),
    ensures
        emitted(out.take(n)) == input.take(n).map_values(fs).filter(ps),
    decreases n,
{
    if n > 0 {
        let m = n - 1;
        lemma_map_then_filter_prefix(input, mapped, out, f, p, fs, ps, m);
        reveal(Seq::filter);
        let root = source_slots(input);
        assert(out.take(n).drop_last() =~= out.take(m));
        assert(input.take(n).map_values(fs).drop_last() =~= input.take(m).map_values(fs));
        assert(root[m] == Option::Some(input[m]));
        assert(input.take(n).map_values(fs).last() == fs(input[m]));
        assert(out.take(n).last() == out[m]);
        assert(mapped[m] is Some);
        let y = mapped[m]->0;
        assert(f.ensures((&input[m],), y));
        assert(y == fs(input[m]));
        if ps(y) {
            assert(out[m] == Option::Some(y));
        } else {
            assert(out[m] is None);
        }
    } else {
        assert(out.take(0) =~= Seq::<Option<U>>::empty());
        assert(input.take(0).map_values(fs) =~= Seq::<U>::empty());
        reveal(Seq::filter);
    }
}

/// Accumulating a source's `k` values produces exactly `k` values, the `j`-th
/// being the fold of the seed over the first `j` values.
pub proof fn lemma_accumulate_folds_prefixes<T, S, F: Fn(S, &T) -> S>(
    input: Seq<T>,
    out: Seq<Option<S>>,
    seed: S,
    f: F,
    fs: spec_fn(S, T) -> S,
)
    requires
        forall|st: S, x: T, r: S| f.ensures((st, &x), r) ==> r == fs(st, x),
        accumulated_by(source_slots(input), out, seed, f),
    ensures
        emitted(out).len() == input.len(),
        forall|j: int|
            0 <= j < input.len() ==> #[trigger] emitted(out)[j] == input.take(j + 1).fold_left(
                seed,
                fs,
            ),
{
    lemma_accumulate_prefix(input, out, seed, f, fs, input.len() as int);
    assert(out.take(input.len() as int) =~= out);
}

proof fn lemma_accumulate_prefix<T, S, F: Fn(S, &T) -> S>(
    input: Seq<T>,
    out: Seq<Option<S>>,
    seed: S,
    f: F,
    fs: spec_fn(S, T) -> S,
    n: int,
)
    requires
        forall|st: S, x: T, r: S| f.ensures((st, &x), r) ==> r == fs(st, x),
        accumulated_by(source_slots(input), out, seed, f),
        0 <= n <= input.len(),
    ensures
        emitted(out.take(n)).len() == n,
        forall|j: int|
            0 <= j < n ==> #[trigger] emitted(out.take(n))[j] == input.take(j + 1).fold_left(
                seed,
                fs,
            ),
        current_state(out.take(n), seed) == input.take(n).fold_left(seed, fs),
    decreases n,
{
    if n > 0 {
        let m = n - 1;
        lemma_accumulate_prefix(input, out, seed, f, fs, m);
        let root = source_slots(input);
        assert(out.take(n).drop_last() =~= out.take(m));
        assert(input.take(n).drop_last() =~= input.take(m));
        assert(root[m] == Option::Some(input[m]));
        assert(out.take(n).last() == out[m]);
        assert(input.take(n).last() == input[m]);
    } else {
        assert(out.take(0) =~= Seq::<Option<S>>::empty());
        assert(input.take(0) =~= Seq::<T>::empty());
    }
}

/// The most recent value carried by a timeline, if any.
pub open spec fn latest<T>(s: Seq<Option<T>>) -> Option<T>
    decreases s.len(),
{
    if s.len() == 0 {
        Option::None
    } else {
        match s.last() {
            Option::Some(v) => Option::Some(v),
            Option::None => latest(s.drop_last()),
        }
    }
}

/// The state of a fold seeded with `seed` after the timeline `s` of its own
/// outputs: the last state forwarded, or the seed when none was.
pub open spec fn current_state<S>(s: Seq<Option<S>>, seed: S) -> S {
    match latest(s) {
        Option::Some(v) => v,
        Option::None => seed,
    }
}

/// What `zip` emits for one slot: the left value paired with the most recent
/// right value, when both exist.
pub open spec fn zip_slot<T, U>(left: Option<T>, right: Option<U>) -> Option<(T, U)> {
    match (left, right) {
        (Option::Some(x), Option::Some(u)) => Option::Some((x, u)),
        _ => Option::None,
    }
}

/// `zip` emits nothing for a left item until the right side has carried a
/// value in an earlier slot, however many left items came first; from then on
/// each left item is paired with the most recent such right value.
pub proof fn lemma_zip_samples_latest_right<T, U>(
    left: Seq<Option<T>>,
    right: Seq<Option<U>>,
    out: Seq<Option<(T, U)>>,
    i: int,
)
    requires
        left.len() == right.len(),
        out.len() == left.len(),
        forall|k: int|
            0 <= k < left.len() ==> #[trigger] out[k] == zip_slot(
                left[k],
                latest(right.take(k)),
            ),
        0 <= i < left.len(),
    ensures
        (forall|j: int| 0 <= j < i ==> (#[trigger] right[j]) is None) ==> out[i] is None,
        (exists|j: int| 0 <= j < i && (#[trigger] right[j]) is Some) && left[i] is Some ==> out[i]
            == Option::Some((left[i]->0, latest(right.take(i))->0)),
{
    lemma_latest_some_iff(right.take(i));
    assert forall|j: int| 0 <= j < i implies right.take(i)[j] == #[trigger] right[j] by {}
}

/// A timeline has a latest value exactly when one of its slots carries a value.
pub(crate) proof fn lemma_latest_some_iff<T>(s: Seq<Option<T>>)
    ensures
        latest(s) is Some <==> exists|j: int| 0 <= j < s.len() && (#[trigger] s[j]) is Some,
    decreases s.len(),
{
    if s.len() > 0 {
        let p = s.drop_last();
        lemma_latest_some_iff(p);
        if latest(p) is Some {
            let j = choose|j: int| 0 <= j < p.len() && (#[trigger] p[j]) is Some;
            assert(s[j] == p[j]);
        }
        if s.last() is None {
            assert forall|j: int| 0 <= j < s.len() && (#[trigger] s[j]) is Some implies latest(
                p,
            ) is Some by {
                assert(p[j] == s[j]);
            }
        }
    }
}

/// A stream node: slot `i` holds what the node emitted in response to the
/// `i`-th emission at the root it descends from (`None` when it emitted nothing).
pub struct Stream<T> {
    slots: Vec<Option<T>>,
}

impl<T> View for Stream<T> {
    type V = Seq<Option<T>>;

    closed spec fn view(&self) -> Seq<Option<T>> {
        self.slots@
    }
}

/// Reverses a vector, so that popping the result yields the items front to back.
fn reversed<T>(v: Vec<T>) -> (r: Vec<T>)
    ensures
        r@.len() == v@.len(),
        forall|j: int| 0 <= j < v@.len() ==> #[trigger] r@[j] == v@[v@.len() - 1 - j],
{
    let mut v = v;
    let ghost orig = v@;
    let mut r: Vec<T> = Vec::new();
    while v.len() > 0
        invariant
            v@ == orig.take(v@.len() as int),
            r@.len() + v@.len() == orig.len(),
            forall|j: int| 0 <= j < r@.len() ==> #[trigger] r@[j] == orig[orig.len() - 1 - j],
        decreases v@.len(),
    {
        let x = v.pop().unwrap();
        r.push(x);
    }
    r
}

impl<T> Stream<T> {
    /// The timeline of a root that emitted `items`, one slot per item.
    pub fn from_items(items: Vec<T>) -> (r: Stream<T>)
        ensures
            r@ == source_slots(items@),
    {
        let ghost orig = items@;
        let n = items.len();
        let mut rev = reversed(items);
        let mut out: Vec<Option<T>> = Vec::new();
        while rev.len() > 0
            invariant
                n == orig.len(),
                out@.len() + rev@.len() == n,
                forall|j: int| 0 <= j < rev@.len() ==> #[trigger] rev@[j] == orig[n - 1 - j],
                forall|i: int| 0 <= i < out@.len() ==> #[trigger] out@[i] == Option::Some(orig[i]),
            decreases rev@.len(),
        {
            let x = rev.pop().unwrap();
            out.push(Option::Some(x));
        }
        assert(out@ =~= source_slots(orig));
        Stream { slots: out }
    }

    /// Forwards `f(item)` for every item.
    pub fn map<U, F>(self, f: F) -> (r: Stream<U>)
        where
            F: Fn(&T) -> U,
        requires
            forall|x: &T| f.requires((x,)),
        ensures
            mapped_by(self@, r@, f),
    {
        let ghost orig = self@;
        let n = self.slots.len();
        let mut rev = reversed(self.slots);
        let mut out: Vec<Option<U>> = Vec::new();
        while rev.len() > 0
            invariant
                n == orig.len(),
                out@.len() + rev@.len() == n,
                forall|j: int| 0 <= j < rev@.len() ==> #[trigger] rev@[j] == orig[n - 1 - j],
                forall|x: &T| f.requires((x,)),
                forall|i: int|
                    0 <= i < out@.len() ==> match orig[i] {
                        Option::None => (#[trigger] out@[i]) is None,
                        Option::Some(x) => out@[i] is Some && f.ensures((&x,), out@[i]->0),
                    },
            decreases rev@.len(),
        {
            let slot = rev.pop().unwrap();
            match slot {
                Option::Some(x) => {
                    let y = f(&x);
                    out.push(Option::Some(y));
                },
                Option::None => {
                    out.push(Option::None);
                },
            }
        }
        Stream { slots: out }
    }

    /// Forwards each item unchanged when `predicate` holds of it.
    pub fn filter<F>(self, predicate: F) -> (r: Stream<T>)
        where
            F: Fn(&T) -> bool,
        requires
            forall|x: &T| predicate.requires((x,)),
        ensures
            filtered_by(self@, r@, predicate),
    {
        let ghost orig = self@;
        let n = self.slots.len();
        let mut rev = reversed(self.slots);
        let mut out: Vec<Option<T>> = Vec::new();
        while rev.len() > 0
            invariant
                n == orig.len(),
                out@.len() + rev@.len() == n,
                forall|j: int| 0 <= j < rev@.len() ==> #[trigger] rev@[j] == orig[n - 1 - j],
                forall|x: &T| predicate.requires((x,)),
                forall|i: int|
                    0 <= i < out@.len() ==> match orig[i] {
                        Option::None => (#[trigger] out@[i]) is None,
                        Option::Some(x) => (out@[i] == orig[i] && predicate.ensures((&x,), true))
                            || (out@[i] is None && predicate.ensures((&x,), false)),
                    },
            decreases rev@.len(),
        {
            let slot = rev.pop().unwrap();
            match slot {
                Option::Some(x) => {
                    if predicate(&x) {
                        out.push(Option::Some(x));
                    } else {
                        out.push(Option::None);
                    }
                },
                Option::None => {
                    out.push(Option::None);
                },
            }
        }
        Stream { slots: out }
    }

    /// Forwards the value inside `f(item)` when it is `Some`.
    pub fn filter_map<U, F>(self, f: F) -> (r: Stream<U>)
        where
            F: Fn(&T) -> Option<U>,
        requires
            forall|x: &T| f.requires((x,)),
        ensures
            r@.len() == self@.len(),
            forall|i: int|
                0 <= i < self@.len() ==> match self@[i] {
                    Option::None => (#[trigger] r@[i]) is None,
                    Option::Some(x) => f.ensures((&x,), r@[i]),
                },
    {
        let ghost orig = self@;
        let n = self.slots.len();
        let mut rev = reversed(self.slots);
        let mut out: Vec<Option<U>> = Vec::new();
        while rev.len() > 0
            invariant
                n == orig.len(),
                out@.len() + rev@.len() == n,
                forall|j: int| 0 <= j < rev@.len() ==> #[trigger] rev@[j] == orig[n - 1 - j],
                forall|x: &T| f.requires((x,)),
                forall|i: int|
                    0 <= i < out@.len() ==> match orig[i] {
                        Option::None => (#[trigger] out@[i]) is None,
                        Option::Some(x) => f.ensures((&x,), out@[i]),
                    },
            decreases rev@.len(),
        {
            let slot = rev.pop().unwrap();
            match slot {
                Option::Some(x) => {
                    let y = f(&x);
                    out.push(y);
                },
                Option::None => {
                    out.push(Option::None);
                },
            }
        }
        Stream { slots: out }
    }

    /// Folds every item into a running state seeded with `initial_state`, and
    /// forwards each new state.
    pub fn accumulate<S, F>(self, initial_state: S, f: F) -> (r: Stream<S>)
        where
            S: Copy,
            F: Fn(S, &T) -> S,
        requires
            forall|st: S, x: &T| f.requires((st, x)),
        ensures
            accumulated_by(self@, r@, initial_state, f),
    {
        let ghost orig = self@;
        let n = self.slots.len();
        let mut rev = reversed(self.slots);
        let mut out: Vec<Option<S>> = Vec::new();
        let mut cell = Accumulator::new(initial_state, f);
        while rev.len() > 0
            invariant
                n == orig.len(),
                out@.len() + rev@.len() == n,
                forall|j: int| 0 <= j < rev@.len() ==> #[trigger] rev@[j] == orig[n - 1 - j],
                forall|st: S, x: &T| f.requires((st, x)),
                cell.state() == current_state(out@, initial_state),
                cell.folder() == f,
                forall|i: int|
                    0 <= i < out@.len() ==> match orig[i] {
                        Option::None => (#[trigger] out@[i]) is None,
                        Option::Some(x) => out@[i] is Some && f.ensures(
                            (current_state(out@.take(i), initial_state), &x),
                            out@[i]->0,
                        ),
                    },
            decreases rev@.len(),
        {
            let ghost before = out@;
            let slot = rev.pop().unwrap();
            match slot {
                Option::Some(x) => {
                    let next = cell.push(&x);
                    out.push(Option::Some(next));
                },
                Option::None => {
                    out.push(Option::None);
                },
            }
            assert(out@.drop_last() == before);
            assert forall|i: int| 0 <= i < out@.len() implies out@.take(i) == before.take(i) by {
                if i < before.len() {
                    assert(out@.take(i) =~= before.take(i));
                } else {
                    assert(out@.take(i) =~= before);
                    assert(before.take(i) =~= before);
                }
            }
        }
        Stream { slots: out }
    }

    /// Calls `f` on every item for its side effect and forwards the item unchanged.
    pub fn tap<F>(self, f: F) -> (r: Stream<T>)
        where
            F: Fn(&T),
        requires
            forall|x: &T| f.requires((x,)),
        ensures
            r@ == self@,
    {
        let ghost orig = self@;
        let n = self.slots.len();
        let mut rev = reversed(self.slots);
        let mut out: Vec<Option<T>> = Vec::new();
        while rev.len() > 0
            invariant
                n == orig.len(),
                out@.len() + rev@.len() == n,
                forall|j: int| 0 <= j < rev@.len() ==> #[trigger] rev@[j] == orig[n - 1 - j],
                forall|x: &T| f.requires((x,)),
                forall|i: int| 0 <= i < out@.len() ==> #[trigger] out@[i] == orig[i],
            decreases rev@.len(),
        {
            let slot = rev.pop().unwrap();
            match slot {
                Option::Some(x) => {
                    f(&x);
                    out.push(Option::Some(x));
                },
                Option::None => {
                    out.push(Option::None);
                },
            }
        }
        assert(out@ =~= orig);
        Stream { slots: out }
    }

    /// Ends the stream in `f`, which is called on every item in order.
    pub fn sink<F>(self, f: F)
        where
            F: Fn(&T),
        requires
            forall|x: &T| f.requires((x,)),
    {
        let mut rev = reversed(self.slots);
        while rev.len() > 0
            invariant
                forall|x: &T| f.requires((x,)),
            decreases rev@.len(),
        {
            let slot = rev.pop().unwrap();
            if let Option::Some(x) = slot {
                f(&x);
            }
        }
    }


    /// Pairs each left item with the most recent right value from earlier
    /// slots; right arrivals only update that value. Left items that arrive
    /// before any right value produce nothing. Both streams must lie on one
    /// timeline (derived from one root); within a slot the left handler, which
    /// zip registers first, runs before the right value is taken in. Streams of
    /// separate producers are zipped live by `ZipNode`, which sees each side's
    /// arrivals in the order they happen.
    pub fn zip<U>(self, other: Stream<U>) -> (r: Stream<(T, U)>)
        where
            U: Copy,
        requires
            self@.len() == other@.len(),
        ensures
            r@.len() == self@.len(),
            forall|i: int|
                0 <= i < self@.len() ==> #[trigger] r@[i] == zip_slot(
                    self@[i],
                    latest(other@.take(i)),
                ),
    {
        let ghost left = self@;
        let ghost right_all = other@;
        let n = self.slots.len();
        let mut rev = reversed(self.slots);
        let mut rev_right = reversed(other.slots);
        let mut out: Vec<Option<(T, U)>> = Vec::new();
        let mut cell: Zipper<U> = Zipper::new();
        while rev.len() > 0
            invariant
                n == left.len(),
                n == right_all.len(),
                out@.len() + rev@.len() == n,
                rev_right@.len() == rev@.len(),
                forall|j: int| 0 <= j < rev@.len() ==> #[trigger] rev@[j] == left[n - 1 - j],
                forall|j: int|
                    0 <= j < rev_right@.len() ==> #[trigger] rev_right@[j] == right_all[n - 1 - j],
                cell.latest() == latest(right_all.take(out@.len() as int)),
                forall|i: int|
                    0 <= i < out@.len() ==> #[trigger] out@[i] == zip_slot(
                        left[i],
                        latest(right_all.take(i)),
                    ),
            decreases rev@.len(),
        {
            let k = out.len();
            let slot = rev.pop().unwrap();
            let right_slot = rev_right.pop().unwrap();
            assert(right_all.take(k + 1).drop_last() =~= right_all.take(k as int));
            match slot {
                Option::Some(x) => {
                    out.push(cell.push_left(x));
                },
                Option::None => {
                    out.push(Option::None);
                },
            }
            if let Option::Some(u) = right_slot {
                cell.push_right(u);
            }
        }
        Stream { slots: out }
    }

    /// Collects every item into a buffer released in batches by `flush`.
    pub fn timed_buffer(self, period_ms: u64) -> (r: TimedBuffer<T>)
        ensures
            r.period_ms() == period_ms,
            r.pending() == emitted(self@),
            r.batches() == Seq::<Option<Vec<T>>>::empty(),
    {
        let ghost orig = self@;
        let n = self.slots.len();
        let mut rev = reversed(self.slots);
        let mut pending: Vec<T> = Vec::new();
        let mut k: usize = 0;
        while rev.len() > 0
            invariant
                n == orig.len(),
                k + rev@.len() == n,
                forall|j: int| 0 <= j < rev@.len() ==> #[trigger] rev@[j] == orig[n - 1 - j],
                pending@ == emitted(orig.take(k as int)),
            decreases rev@.len(),
        {
            let slot = rev.pop().unwrap();
            assert(orig.take(k + 1).drop_last() =~= orig.take(k as int));
            if let Option::Some(x) = slot {
                pending.push(x);
            }
            k = k + 1;
        }
        assert(orig.take(n as int) =~= orig);
        TimedBuffer { period_ms, pending, batches: Vec::new(), arrived: Ghost(emitted(orig)) }
    }

}

impl<T> Stream<T> {
    /// The node's timeline.
    pub fn slots(&self) -> (r: &Vec<Option<T>>)
        ensures
            r@ == self@,
    {
        &self.slots
    }
}

impl<T: Clone> Clone for Stream<T> {
    /// A second handle on the same timeline, for fanning one stream out into
    /// several pipelines.
    fn clone(&self) -> (r: Stream<T>)
        ensures
            r@.len() == self@.len(),
            forall|i: int|
                0 <= i < self@.len() ==> match self@[i] {
                    Option::None => (#[trigger] r@[i]) is None,
                    Option::Some(x) => r@[i] is Some && cloned(x, r@[i]->0),
                },
    {
        let mut out: Vec<Option<T>> = Vec::new();
        let mut i: usize = 0;
        while i < self.slots.len()
            invariant
                i <= self@.len(),
                out@.len() == i,
                forall|j: int|
                    0 <= j < i ==> match self@[j] {
                        Option::None => (#[trigger] out@[j]) is None,
                        Option::Some(x) => out@[j] is Some && cloned(x, out@[j]->0),
                    },
            decreases self@.len() - i,
        {
            match &self.slots[i] {
                Option::Some(x) => {
                    out.push(Option::Some(x.clone()));
                },
                Option::None => {
                    out.push(Option::None);
                },
            }
            i = i + 1;
        }
        Stream { slots: out }
    }
}

/// The state of an `accumulate` node: the last state forwarded, and the fold.
pub struct Accumulator<S, F> {
    state: S,
    f: F,
}

impl<S: Copy, F> Accumulator<S, F> {
    pub closed spec fn state(&self) -> S {
        self.state
    }

    pub closed spec fn folder(&self) -> F {
        self.f
    }

    /// A node seeded with `seed`.
    pub fn new(seed: S, f: F) -> (r: Accumulator<S, F>)
        ensures
            r.state() == seed,
            r.folder() == f,
    {
        Accumulator { state: seed, f }
    }

    /// One item arrives: it is folded into the state, and the new state is
    /// both kept and returned for forwarding.
    pub fn push<T>(&mut self, item: &T) -> (r: S)
        where
            F: Fn(S, &T) -> S,
        requires
            forall|st: S, x: &T| old(self).folder().requires((st, x)),
        ensures
            old(self).folder().ensures((old(self).state(), item), r),
            final(self).state() == r,
            final(self).folder() == old(self).folder(),
    {
        assert(self.folder().requires((self.state, item)));
        let next = (self.f)(self.state, item);
        self.state = next;
        next
    }
}

/// The state of a `zip` node: the most recent right value. Only a left
/// arrival emits.
pub struct Zipper<U> {
    right: Option<U>,
}

impl<U: Copy> Zipper<U> {
    pub closed spec fn latest(&self) -> Option<U> {
        self.right
    }

    /// A node that has seen no right value.
    pub fn new() -> (r: Zipper<U>)
        ensures
            r.latest() is None,
    {
        Zipper { right: Option::None }
    }

    /// A right value arrives: it replaces the one kept; nothing is emitted.
    pub fn push_right(&mut self, value: U)
        ensures
            final(self).latest() == Option::Some(value),
    {
        self.right = Option::Some(value);
    }

    /// A left value arrives: it is paired with the most recent right value,
    /// when there is one.
    pub fn push_left<T>(&self, value: T) -> (r: Option<(T, U)>)
        ensures
            r == zip_slot(Option::Some(value), self.latest()),
    {
        match self.right {
            Option::Some(u) => Option::Some((value, u)),
            Option::None => Option::None,
        }
    }
}

/// Items held back from the graph until the next `flush`, which hands them on
/// as one batch.
pub struct TimedBuffer<T> {
    period_ms: u64,
    pending: Vec<T>,
    batches: Vec<Option<Vec<T>>>,
    arrived: Ghost<Seq<T>>,
}

impl<T> TimedBuffer<T> {
    /// The flush period, in milliseconds.
    pub closed spec fn period_ms(&self) -> u64 {
        self.period_ms
    }

    /// The items that arrived since the last flush, in arrival order.
    pub closed spec fn pending(&self) -> Seq<T> {
        self.pending@
    }

    /// Every item that ever arrived, in order.
    pub closed spec fn arrived(&self) -> Seq<T> {
        self.arrived@
    }

    /// A buffer with the given period that holds nothing yet.
    pub fn new(period_ms: u64) -> (r: TimedBuffer<T>)
        ensures
            r.period_ms() == period_ms,
            r.pending() == Seq::<T>::empty(),
            r.batches() == Seq::<Option<Vec<T>>>::empty(),
            r.arrived() == Seq::<T>::empty(),
    {
        TimedBuffer {
            period_ms,
            pending: Vec::new(),
            batches: Vec::new(),
            arrived: Ghost(Seq::empty()),
        }
    }

    /// The batch stream: one slot per flush, `None` where a flush had nothing to emit.
    pub closed spec fn batches(&self) -> Seq<Option<Vec<T>>> {
        self.batches@
    }

    /// The flush period, in milliseconds.
    pub fn period(&self) -> (r: u64)
        ensures
            r == self.period_ms(),
    {
        self.period_ms
    }

    /// One upstream item arrives: it is appended to the pending items.
    pub fn push(&mut self, item: T)
        ensures
            final(self).period_ms() == old(self).period_ms(),
            final(self).pending() == old(self).pending().push(item),
            final(self).batches() == old(self).batches(),
            final(self).arrived() == old(self).arrived().push(item),
    {
        proof {
            self.arrived = Ghost(self.arrived@.push(item));
        }
        self.pending.push(item);
    }

    /// Emits the pending items as one batch, in arrival order, and empties the
    /// buffer. With nothing pending, nothing is emitted.
    pub fn flush(&mut self)
        ensures
            final(self).period_ms() == old(self).period_ms(),
            final(self).arrived() == old(self).arrived(),
            final(self).pending() == Seq::<T>::empty(),
            old(self).pending().len() == 0 ==> final(self).batches() == old(self).batches().push(
                Option::None,
            ),
            old(self).pending().len() > 0 ==> final(self).batches().len() == old(self).batches().len()
                + 1 && final(self).batches().drop_last() == old(self).batches() && final(self).batches().last()
                is Some && final(self).batches().last()->0@ == old(self).pending(),
    {
        if self.pending.len() == 0 {
            self.batches.push(Option::None);
        } else {
            let mut chunk: Vec<T> = Vec::new();
            std::mem::swap(&mut chunk, &mut self.pending);
            self.batches.push(Option::Some(chunk));
        }
    }

    /// The stream of batches, to attach further operators to.
    pub fn stream(self) -> (r: Stream<Vec<T>>)
        ensures
            r@ == self.batches(),
    {
        Stream { slots: self.batches }
    }
}

/// What a scheduler needs of a periodic buffer: its period, and a way to
/// release what it holds.
pub trait TimedEmitter<T> {
    spec fn emitter_period(&self) -> u64;

    /// The items waiting for the next flush.
    spec fn emitter_pending(&self) -> Seq<T>;

    /// The batch timeline: one slot per flush.
    spec fn emitter_batches(&self) -> Seq<Option<Vec<T>>>;

    fn period(&self) -> (r: u64)
        ensures
            r == self.emitter_period(),
    ;

    /// Emits the pending items as one batch, in arrival order, and empties the
    /// pending items; with nothing pending, nothing is emitted.
    fn flush(&mut self)
        ensures
            final(self).emitter_period() == old(self).emitter_period(),
            final(self).emitter_pending() == Seq::<T>::empty(),
            old(self).emitter_pending().len() == 0 ==> final(self).emitter_batches()
                == old(self).emitter_batches().push(Option::None),
            old(self).emitter_pending().len() > 0 ==> {
                &&& final(self).emitter_batches().len() == old(self).emitter_batches().len() + 1
                &&& final(self).emitter_batches().drop_last() == old(self).emitter_batches()
                &&& final(self).emitter_batches().last() is Some
                &&& final(self).emitter_batches().last()->0@ == old(self).emitter_pending()
            },
    ;
}

impl<T> TimedEmitter<T> for TimedBuffer<T> {
    open spec fn emitter_period(&self) -> u64 {
        self.period_ms()
    }

    open spec fn emitter_pending(&self) -> Seq<T> {
        self.pending()
    }

    open spec fn emitter_batches(&self) -> Seq<Option<Vec<T>>> {
        self.batches()
    }

    fn period(&self) -> (r: u64) {
        TimedBuffer::period(self)
    }

    fn flush(&mut self) {
        TimedBuffer::flush(self)
    }
}

impl<T> Node<T> for TimedBuffer<T> {
    open spec fn received(&self) -> Seq<T> {
        self.arrived()
    }

    open spec fn wired(&self) -> bool {
        true
    }

    fn push(&mut self, item: T) {
        TimedBuffer::push(self, item)
    }
}

/// The root of a live graph: it accepts values pushed from outside and hands
/// each one to the node below it, which runs the whole chain before `emit`
/// returns.
pub struct Source<T, D> {
    pub down: D,
    pub emitted_items: Ghost<Seq<T>>,
}

impl<T, D: Node<T>> Source<T, D> {
    /// A source feeding `down`, which has received nothing yet.
    pub fn new(down: D) -> (r: Source<T, D>)
        requires
            down.wired(),
            down.received().len() == 0,
        ensures
            r.down == down,
            r.wf(),
            r.emitted_items@ == Seq::<T>::empty(),
    {
        assert(down.received() =~= Seq::<T>::empty());
        Source { down, emitted_items: Ghost(Seq::empty()) }
    }

    /// The graph below is wired and has received exactly what was emitted.
    pub open spec fn wf(&self) -> bool {
        &&& self.down.wired()
        &&& self.down.received() == self.emitted_items@
    }

    /// Pushes one value into the graph: the node below takes its step, and
    /// through it every node wired below, before this returns.
    pub fn emit(&mut self, item: T)
        requires
            old(self).wf(),
        ensures
            final(self).wf(),
            final(self).emitted_items@ == old(self).emitted_items@.push(item),
            final(self).down.received() == old(self).down.received().push(item),
    {
        proof {
            self.emitted_items = Ghost(self.emitted_items@.push(item));
        }
        self.down.push(item);
    }
}

} // verus!
