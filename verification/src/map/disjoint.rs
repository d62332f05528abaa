use vstd::prelude::*;

verus! {

/// Splits `slice` into one mutable reference per item, in order.
pub(crate) fn split_all<S>(slice: &mut [S]) -> (r: Vec<Option<&mut S>>)
    ensures
        r@.len() == old(slice)@.len(),
        forall|i: int| 0 <= i < r@.len() ==> (#[trigger] r@[i]) is Some && *r@[i]->0 == old(slice)@[i],
        final(slice)@ == Seq::new(r@.len(), |i: int| *final(r@[i]->0)),
{
    let mut rest = slice;
    let mut out: Vec<Option<&mut S>> = Vec::new();
    let ghost orig = rest@;
    while rest.len() > 0
        invariant
            out@.len() + rest@.len() == orig.len(),
            forall|i: int| 0 <= i < out@.len() ==> (#[trigger] out@[i]) is Some && *out@[i]->0 == orig[i],
            forall|i: int| 0 <= i < rest@.len() ==> rest@[i] == orig[out@.len() + i],
            final(slice)@ == Seq::new(out@.len() as nat, |i: int| *final(out@[i]->0)) + final(rest)@,
        decreases rest@.len(),
    {
        let tmp = rest;
        let ghost n = out@.len();
        let (head, tail) = tmp.split_at_mut(1);
        let item = match head.first_mut() {
            Some(item) => item,
            None => vstd::pervasive::unreached(),
        };
        let ghost before = out@;
        let elem = Some(item);
        let ghost g = elem;
        out.push(elem);
        proof {
            assert(forall|i: int| 0 <= i < n ==> out@[i] == before[i]);
            assert(out@[n as int] == g);
        }
        rest = tail;
    }
    out
}

/// The items of `slice` at `positions`, all at once, each through its own
/// mutable reference: the `i`-th reference is to the item at the `i`-th
/// position, and the items at other positions stay as they were.
pub(crate) fn pick_disjoint<'a, S>(slice: &'a mut [S], positions: &Vec<usize>) -> (r: Vec<&'a mut S>)
    requires
        forall|i: int| 0 <= i < positions@.len() ==> positions@[i] < old(slice)@.len(),
        forall|i: int, j: int| 0 <= i < j < positions@.len() ==> positions@[i] != positions@[j],
    ensures
        r@.len() == positions@.len(),
        forall|i: int| 0 <= i < positions@.len() ==> *r@[i] == old(slice)@[positions@[i] as int],
        final(slice)@.len() == old(slice)@.len(),
        forall|i: int| 0 <= i < positions@.len() ==> final(slice)@[positions@[i] as int] == *final(r@[i]),
        forall|p: int|
            0 <= p < old(slice)@.len() && (forall|i: int| 0 <= i < positions@.len() ==> positions@[i] != p)
                ==> final(slice)@[p] == old(slice)@[p],
{
    let ghost orig = slice@;
    let mut opts = split_all(slice);
    let ghost start = opts@;
    proof {
        assert(forall|k: int| 0 <= k < start.len() ==> (#[trigger] start[k]) is Some);
    }
    let count = positions.len();
    let mut out: Vec<&mut S> = Vec::new();
    let mut i: usize = 0;
    while i < count
        invariant
            count == positions@.len(),
            i <= count,
            out@.len() == i,
            opts@.len() == start.len(),
            start.len() == orig.len(),
            forall|k: int| 0 <= k < count ==> positions@[k] < orig.len(),
            forall|k: int, j: int| 0 <= k < j < count ==> positions@[k] != positions@[j],
            forall|k: int|
                0 <= k < i ==> *out@[k] == *start[positions@[k] as int]->0
                    && *final(out@[k]) == *final(start[positions@[k] as int]->0),
            forall|p: int|
                0 <= p < start.len() && (forall|k: int| 0 <= k < i ==> positions@[k] != p) ==> opts@[p]
                    == start[p],
            forall|k: int| 0 <= k < start.len() ==> (#[trigger] start[k]) is Some,
        decreases count - i,
    {
        let p = positions[i];
        proof {
            assert(forall|k: int| 0 <= k < i ==> positions@[k] != positions@[i as int]);
            assert(opts@[p as int] == start[p as int]);
        }
        let ghost before = out@;
        let item = opts[p].take();
        let ghost taken = item;
        proof {
            assert(taken == start[p as int]);
        }
        match item {
            Some(item) => {
                let ghost g = item;
                out.push(item);
                proof {
                    assert(forall|k: int| 0 <= k < i ==> out@[k] == before[k]);
                    assert(g == start[p as int]->0);
                }
            },
            None => vstd::pervasive::unreached(),
        }
        i = i + 1;
    }
    out
}

/// Makes an array out of a vector of exactly `N` items, keeping their order.
///
/// Calls `<[A; N]>::try_from` on the vector, which the standard library
/// documents to succeed when the length is `N` and to keep the items in
/// order.
#[verifier::external_body]
pub(crate) fn vec_into_array<A, const N: usize>(v: Vec<A>) -> (r: [A; N])
    requires
        v@.len() == N,
    ensures
        r@ == v@,
{
    match <[A; N]>::try_from(v) {
        Ok(array) => array,
        Err(_) => vstd::pervasive::unreached(),
    }
}

} // verus!
