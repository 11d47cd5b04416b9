//! What is asked of a value that is known only by a trait: the calls of its
//! methods, one after the other.

use vstd::prelude::*;

verus! {

/// A call of a method, with its arguments and with what it returned.
pub trait CallOf<C: ?Sized> {
    /// `c` may have been called so.
    spec fn made_of(self, c: &mut C) -> bool;
}

/// The value as the call `i` finds it or, where there is no such call, as the last
/// one leaves it.
pub open spec fn at<'a, C: ?Sized>(cs: Seq<&'a mut C>, i: int, after: &'a Box<C>) -> &'a C {
    if 0 <= i < cs.len() {
        &*cs[i]
    } else {
        &**after
    }
}

/// The calls are made one after the other, of the value that `cs` holds: as it
/// was at first, and then as each of them finds it.
pub open spec fn ran<C: ?Sized, K: CallOf<C>>(
    before: &Box<C>,
    cs: Seq<&mut C>,
    calls: Seq<K>,
    after: &Box<C>,
) -> bool {
    &&& cs.len() == calls.len()
    &&& at(cs, 0, after) == &**before
    &&& forall|i: int| 0 <= i < cs.len() ==> calls[i].made_of(#[trigger] cs[i])
}

pub proof fn lemma_ran_add<C: ?Sized, K: CallOf<C>>(
    before: &Box<C>,
    calls: Seq<K>,
    mid: &Box<C>,
    more: Seq<K>,
    after: &Box<C>,
)
    requires
        exists|cs: Seq<&mut C>| #[trigger]
            ran(before, cs, calls, mid) && forall|i: int|
                0 <= i < cs.len() ==> &*final(#[trigger] cs[i]) == at(cs, i + 1, mid),
        exists|cs: Seq<&mut C>| #[trigger]
            ran(mid, cs, more, after) && forall|i: int|
                0 <= i < cs.len() ==> &*final(#[trigger] cs[i]) == at(cs, i + 1, after),
    ensures
        exists|cs: Seq<&mut C>| #[trigger]
            ran(before, cs, calls + more, after) && forall|i: int|
                0 <= i < cs.len() ==> &*final(#[trigger] cs[i]) == at(cs, i + 1, after),
{
    assert forall|c1: Seq<&mut C>, c2: Seq<&mut C>| #[trigger]
        ran(before, c1, calls, mid) && #[trigger] ran(mid, c2, more, after) implies ran(
        before,
        c1 + c2,
        calls + more,
        after,
    ) by {
        let cs = c1 + c2;
        assert forall|i: int| 0 <= i < cs.len() implies (calls + more)[i].made_of(
            #[trigger] cs[i],
        ) by {
            if i < c1.len() {
                assert(calls[i].made_of(c1[i]));
            } else {
                assert(more[i - c1.len()].made_of(c2[i - c1.len()]));
            }
        }
    }
    assert forall|c1: Seq<&mut C>, c2: Seq<&mut C>, i: int|
        #![trigger ran(before, c1, calls, mid), ran(mid, c2, more, after), (c1 + c2)[i]]
        ran(before, c1, calls, mid) && ran(mid, c2, more, after) && (forall|i: int|
            0 <= i < c1.len() ==> &*final(#[trigger] c1[i]) == at(c1, i + 1, mid)) && (forall|
            i: int,
        |
            0 <= i < c2.len() ==> &*final(#[trigger] c2[i]) == at(c2, i + 1, after)) && 0 <= i < (c1
            + c2).len() implies &*final((c1 + c2)[i]) == at(c1 + c2, i + 1, after) by {
        if i < c1.len() {
            assert(&*final(c1[i]) == at(c1, i + 1, mid));
            if i + 1 == c1.len() {
                assert(at(c2, 0, after) == &**mid);
            }
        } else {
            assert(&*final(c2[i - c1.len()]) == at(c2, i - c1.len() + 1, after));
        }
    }
}

/// One call, as the list of calls that holds it alone.
pub proof fn lemma_ran_one<C: ?Sized, K: CallOf<C>>(before: &Box<C>, call: K, after: &Box<C>)
    requires
        exists|c: &mut C|
            &*c == &**before && &*final(c) == &**after && #[trigger] call.made_of(c),
    ensures
        exists|cs: Seq<&mut C>| #[trigger]
            ran(before, cs, seq![call], after) && forall|i: int|
                0 <= i < cs.len() ==> &*final(#[trigger] cs[i]) == at(cs, i + 1, after),
{
    assert(forall|c: &mut C|
        &*c == &**before && #[trigger] call.made_of(c) ==> ran(
            before,
            seq![c],
            seq![call],
            after,
        ));
}

/// No call leaves a value as it was.
pub proof fn lemma_ran_none<C: ?Sized, K: CallOf<C>>(c: &Box<C>)
    ensures
        exists|cs: Seq<&mut C>| #[trigger]
            ran(c, cs, Seq::<K>::empty(), c) && forall|i: int|
                0 <= i < cs.len() ==> &*final(#[trigger] cs[i]) == at(cs, i + 1, c),
{
    assert(ran(c, Seq::<&mut C>::empty(), Seq::<K>::empty(), c));
}

} // verus!
