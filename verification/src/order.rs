//! Ordering values by a position on a chromosome, keeping the given
//! order among values at the same position.

use vstd::prelude::*;

verus! {

/// A value that lies at a position on a chromosome.
pub trait Positioned: Sized {
    /// The position by which the value is ordered.
    spec fn place(&self) -> u64;

    /// Reads the position.
    fn position_of(&self) -> (p: u64)
        ensures
            p == self.place(),
    ;

    /// Makes an equal value.
    fn duplicate(&self) -> (r: Self)
        ensures
            r == *self,
    ;
}

impl Positioned for u64 {
    open spec fn place(&self) -> u64 {
        *self
    }

    fn position_of(&self) -> (p: u64) {
        *self
    }

    fn duplicate(&self) -> (r: Self) {
        *self
    }
}

/// No value lies before one that precedes it in the sequence.
pub open spec fn ascending<T: Positioned>(s: Seq<T>) -> bool {
    forall|i: int, j: int| 0 <= i <= j < s.len() ==> s[i].place() <= s[j].place()
}

/// The values of `s` that lie at position `p`, in the order in which
/// they occur in `s`.
pub open spec fn at_position<T: Positioned>(s: Seq<T>, p: u64) -> Seq<T>
    decreases s.len(),
{
    if s.len() == 0 {
        Seq::empty()
    } else {
        let before = at_position(s.drop_last(), p);
        if s.last().place() == p {
            before.push(s.last())
        } else {
            before
        }
    }
}

/// `out` holds the values of `inp` in ascending order of position, and
/// values at one position stand in `out` in the order they had in `inp`.
pub open spec fn stably_sorted<T: Positioned>(out: Seq<T>, inp: Seq<T>) -> bool {
    &&& out.len() == inp.len()
    &&& ascending(out)
    &&& forall|p: u64| #[trigger] at_position(out, p) == at_position(inp, p)
}

/// The arrangement of `inp` in ascending order of position in which values
/// at one position keep their order. There is one such arrangement and no
/// other; see `lemma_stable_order_unique`.
pub open spec fn sorted_by_position<T: Positioned>(inp: Seq<T>) -> Seq<T> {
    choose|out: Seq<T>| stably_sorted(out, inp)
}

/// Selecting by position distributes over concatenation.
pub proof fn lemma_at_position_concat<T: Positioned>(a: Seq<T>, b: Seq<T>, p: u64)
    ensures
        at_position(a + b, p) == at_position(a, p) + at_position(b, p),
    decreases b.len(),
{
    if b.len() == 0 {
        assert(a + b =~= a);
    } else {
        lemma_at_position_concat(a, b.drop_last(), p);
        assert((a + b).drop_last() =~= a + b.drop_last());
    }
}

/// Selecting a position at which no value lies gives nothing.
pub proof fn lemma_at_position_absent<T: Positioned>(s: Seq<T>, p: u64)
    requires
        forall|i: int| 0 <= i < s.len() ==> s[i].place() != p,
    ensures
        at_position(s, p) == Seq::<T>::empty(),
    decreases s.len(),
{
    if s.len() > 0 {
        lemma_at_position_absent(s.drop_last(), p);
    }
}

/// A value of the sequence is among those selected at its own position.
pub proof fn lemma_at_position_holds<T: Positioned>(s: Seq<T>, i: int)
    requires
        0 <= i < s.len(),
    ensures
        at_position(s, s[i].place()).contains(s[i]),
    decreases s.len(),
{
    let p = s[i].place();
    if i == s.len() - 1 {
        let sel = at_position(s, p);
        assert(sel[sel.len() - 1] == s[i]);
    } else {
        lemma_at_position_holds(s.drop_last(), i);
        let before = at_position(s.drop_last(), p);
        let k = choose|k: int| 0 <= k < before.len() && before[k] == s.drop_last()[i];
        assert(at_position(s, p)[k] == s[i]);
    }
}

/// Every value selected from a sequence is a value of the sequence.
pub proof fn lemma_at_position_within<T: Positioned>(s: Seq<T>, p: u64, x: T)
    requires
        at_position(s, p).contains(x),
    ensures
        s.contains(x),
    decreases s.len(),
{
    if s.len() > 0 {
        if s.last() == x {
            assert(s[s.len() - 1] == x);
        } else {
            let k = choose|k: int| 0 <= k < at_position(s, p).len() && at_position(s, p)[k] == x;
            lemma_at_position_within(s.drop_last(), p, x);
            let j = choose|j: int| 0 <= j < s.drop_last().len() && s.drop_last()[j] == x;
        }
    }
}

/// A stably sorted arrangement holds the values of its input and no
/// others.
pub proof fn lemma_sorted_same_members<T: Positioned>(out: Seq<T>, inp: Seq<T>)
    requires
        stably_sorted(out, inp),
    ensures
        forall|i: int| 0 <= i < out.len() ==> inp.contains(#[trigger] out[i]),
        forall|i: int| 0 <= i < inp.len() ==> out.contains(#[trigger] inp[i]),
{
    assert forall|i: int| 0 <= i < out.len() implies inp.contains(#[trigger] out[i]) by {
        let p = out[i].place();
        lemma_at_position_holds(out, i);
        lemma_at_position_within(inp, p, out[i]);
    }
    assert forall|i: int| 0 <= i < inp.len() implies out.contains(#[trigger] inp[i]) by {
        let p = inp[i].place();
        lemma_at_position_holds(inp, i);
        lemma_at_position_within(out, p, inp[i]);
    }
}

/// Putting `x` behind the last value that does not lie after it keeps a
/// stably sorted sequence stably sorted, now of the input with `x` added.
proof fn lemma_insert_keeps_sorted<T: Positioned>(out: Seq<T>, inp: Seq<T>, x: T, j: int)
    requires
        stably_sorted(out, inp),
        0 <= j <= out.len(),
        forall|k: int| 0 <= k < j ==> out[k].place() <= x.place(),
        forall|k: int| j <= k < out.len() ==> out[k].place() > x.place(),
    ensures
        stably_sorted(out.insert(j, x), inp.push(x)),
{
    let grown = out.insert(j, x);
    let head = out.take(j);
    let tail = out.skip(j);
    assert(grown =~= head + seq![x] + tail);
    assert(out =~= head + tail);
    assert forall|p: u64| #[trigger] at_position(grown, p) == at_position(inp.push(x), p) by {
        lemma_at_position_concat(head + seq![x], tail, p);
        lemma_at_position_concat(head, seq![x], p);
        lemma_at_position_concat(head, tail, p);
        assert(inp.push(x).drop_last() =~= inp);
        assert(seq![x].drop_last() =~= Seq::<T>::empty());
        assert(at_position(Seq::<T>::empty(), p) =~= Seq::<T>::empty());
        if x.place() == p {
            lemma_at_position_absent(tail, p);
        } else {
            assert(at_position(seq![x], p) =~= Seq::<T>::empty());
        }
    }
}

/// The index behind the last value of `s` that does not lie after `p`,
/// where `s` is ascending.
pub open spec fn place_behind<T: Positioned>(s: Seq<T>, p: u64) -> int
    decreases s.len(),
{
    if s.len() > 0 && s.last().place() > p {
        place_behind(s.drop_last(), p)
    } else {
        s.len() as int
    }
}

/// In an ascending sequence the values before `place_behind` do not lie
/// after `p`, and the values from there on do.
proof fn lemma_place_behind<T: Positioned>(s: Seq<T>, p: u64)
    requires
        ascending(s),
    ensures
        0 <= place_behind(s, p) <= s.len(),
        forall|k: int| 0 <= k < place_behind(s, p) ==> (#[trigger] s[k]).place() <= p,
        forall|k: int| place_behind(s, p) <= k < s.len() ==> (#[trigger] s[k]).place() > p,
    decreases s.len(),
{
    if s.len() > 0 && s.last().place() > p {
        let short = s.drop_last();
        lemma_place_behind(short, p);
        assert forall|k: int| 0 <= k < place_behind(s, p) implies (#[trigger] s[k]).place()
            <= p by {
            assert(short[k] == s[k]);
        }
        assert forall|k: int| place_behind(s, p) <= k < s.len() implies (#[trigger] s[k]).place()
            > p by {
            if k < short.len() {
                assert(short[k] == s[k]);
            }
        }
    } else if s.len() > 0 {
        assert forall|k: int| 0 <= k < s.len() implies (#[trigger] s[k]).place() <= p by {
        }
    }
}

/// Every sequence has a stably sorted arrangement, and
/// [`sorted_by_position`] is it.
pub proof fn lemma_sorted_by_position_sorts<T: Positioned>(inp: Seq<T>)
    ensures
        stably_sorted(sorted_by_position(inp), inp),
    decreases inp.len(),
{
    if inp.len() == 0 {
        assert(stably_sorted(Seq::<T>::empty(), inp));
    } else {
        let short = inp.drop_last();
        let x = inp.last();
        lemma_sorted_by_position_sorts(short);
        let out = sorted_by_position(short);
        let j = place_behind(out, x.place());
        lemma_place_behind(out, x.place());
        lemma_insert_keeps_sorted(out, short, x, j);
        assert(short.push(x) =~= inp);
    }
}

/// Two stably sorted arrangements of one input are the same sequence.
pub proof fn lemma_stable_order_unique<T: Positioned>(a: Seq<T>, b: Seq<T>, inp: Seq<T>)
    requires
        stably_sorted(a, inp),
        stably_sorted(b, inp),
    ensures
        a == b,
    decreases a.len(),
{
    lemma_same_selections_same_sequence(a, b);
}

/// Two ascending sequences of one length that agree on the values at
/// every position are equal.
proof fn lemma_same_selections_same_sequence<T: Positioned>(a: Seq<T>, b: Seq<T>)
    requires
        a.len() == b.len(),
        ascending(a),
        ascending(b),
        forall|p: u64| #[trigger] at_position(a, p) == at_position(b, p),
    ensures
        a == b,
    decreases a.len(),
{
    if a.len() == 0 {
        assert(a =~= b);
    } else {
        let m = a.last().place();
        let n = b.last().place();
        assert(at_position(a, n) == at_position(b, n));
        if n < m {
            lemma_at_position_absent(b, m);
        }
        if m < n {
            lemma_at_position_absent(a, n);
        }
        assert(at_position(a, m).last() == a.last());
        let a0 = a.drop_last();
        let b0 = b.drop_last();
        assert forall|p: u64| #[trigger] at_position(a0, p) == at_position(b0, p) by {
            assert(at_position(a, p) == at_position(b, p));
            if p == m {
                assert(at_position(a0, p) =~= at_position(a, p).drop_last());
            }
        }
        lemma_same_selections_same_sequence(a0, b0);
        assert(a =~= a0.push(a.last()));
    }
}

/// Orders `items` by position, ascending. Values at the same position
/// keep the order in which they stand in `items`.
pub fn sort_by_position<T: Positioned>(items: &Vec<T>) -> (out: Vec<T>)
    ensures
        stably_sorted(out@, items@),
        out@ == sorted_by_position(items@),
{
    let mut out: Vec<T> = Vec::new();
    let mut i: usize = 0;
    while i < items.len()
        invariant
            i <= items.len(),
            stably_sorted(out@, items@.take(i as int)),
        decreases items.len() - i,
    {
        let x = items[i].duplicate();
        let at = x.position_of();
        let mut j: usize = out.len();
        while j > 0 && out[j - 1].position_of() > at
            invariant
                j <= out.len(),
                at == x.place(),
                forall|k: int| j <= k < out.len() ==> out[k].place() > x.place(),
            decreases j,
        {
            j -= 1;
        }
        proof {
            lemma_insert_keeps_sorted(out@, items@.take(i as int), x, j as int);
            assert(items@.take(i as int).push(x) =~= items@.take(i + 1));
        }
        out.insert(j, x);
        i += 1;
    }
    proof {
        assert(items@.take(i as int) =~= items@);
        lemma_stable_order_unique(out@, sorted_by_position(items@), items@);
    }
    out
}

} // verus!
