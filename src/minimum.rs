//! A present/absent value wrapper and the minimum of a vector over any type
//! that knows how to take the smaller of two values.

use vstd::prelude::*;

verus! {

/// Either a value or nothing.
#[derive(Clone, Debug, PartialEq, Eq)]
pub enum SomethingOrNothing<T> {
    Something(T),
    Nothing,
}

impl<T> SomethingOrNothing<T> {
    /// The wrapper holding what `o` holds.
    pub fn new(o: Option<T>) -> (r: Self)
        ensures
            o is None <==> r is Nothing,
            o matches Some(t) ==> r == SomethingOrNothing::Something(t),
    {
        match o {
            None => SomethingOrNothing::Nothing,
            Some(t) => SomethingOrNothing::Something(t),
        }
    }

    /// The `Option` holding what `self` holds.
    pub fn to_option(self) -> (r: Option<T>)
        ensures
            self is Nothing <==> r is None,
            self matches SomethingOrNothing::Something(t) ==> r == Some(t),
    {
        match self {
            SomethingOrNothing::Nothing => None,
            SomethingOrNothing::Something(t) => Some(t),
        }
    }
}

/// Types with a binary minimum.
pub trait Minimum: Copy + Sized {
    /// The value that `min` returns.
    spec fn spec_min(self, b: Self) -> Self;

    /// The smaller of `self` and `b`.
    fn min(self, b: Self) -> (r: Self)
        ensures
            r == self.spec_min(b),
    ;
}

impl Minimum for i32 {
    open spec fn spec_min(self, b: i32) -> i32 {
        if self < b {
            self
        } else {
            b
        }
    }

    fn min(self, b: i32) -> (r: i32) {
        if self < b {
            self
        } else {
            b
        }
    }
}

/// The fold of `spec_min` over a non-empty `s`: its first element, then each
/// later element combined with the running minimum as `element.min(running)`.
pub open spec fn fold_min<T: Minimum>(s: Seq<T>) -> T
    recommends
        s.len() > 0,
    decreases s.len(),
{
    if s.len() <= 1 {
        s[0]
    } else {
        s.last().spec_min(fold_min(s.drop_last()))
    }
}

/// The minimum of `v`, or `Nothing` when `v` is empty.
pub fn vec_min<T: Minimum>(v: Vec<T>) -> (r: SomethingOrNothing<T>)
    ensures
        v@.len() == 0 ==> r is Nothing,
        v@.len() > 0 ==> r == SomethingOrNothing::Something(fold_min(v@)),
{
    let mut min: SomethingOrNothing<T> = SomethingOrNothing::Nothing;
    let mut i: usize = 0;
    while i < v.len()
        invariant
            i <= v@.len(),
            i == 0 ==> min is Nothing,
            i > 0 ==> min == SomethingOrNothing::Something(fold_min(v@.subrange(0, i as int))),
        decreases v@.len() - i,
    {
        let e = v[i];
        proof {
            let next = v@.subrange(0, i + 1);
            assert(next.drop_last() == v@.subrange(0, i as int));
            assert(next.last() == e);
        }
        min = SomethingOrNothing::Something(
            match min {
                SomethingOrNothing::Nothing => e,
                SomethingOrNothing::Something(n) => e.min(n),
            },
        );
        i = i + 1;
    }
    proof {
        assert(v@.subrange(0, i as int) == v@);
    }
    min
}

/// For `i32`, the fold of `min` over a non-empty sequence is its least
/// element.
pub proof fn lemma_fold_min_i32_is_least(s: Seq<i32>)
    requires
        s.len() > 0,
    ensures
        exists|i: int| 0 <= i < s.len() && s[i] == fold_min(s),
        forall|i: int| 0 <= i < s.len() ==> fold_min(s) <= s[i],
    decreases s.len(),
{
    if s.len() > 1 {
        let rest = s.drop_last();
        lemma_fold_min_i32_is_least(rest);
        let k = choose|k: int| 0 <= k < rest.len() && rest[k] == fold_min(rest);
        if fold_min(s) == s.last() {
            assert(s[s.len() - 1] == fold_min(s));
        } else {
            assert(s[k] == fold_min(s));
        }
        assert forall|i: int| 0 <= i < s.len() implies fold_min(s) <= s[i] by {
            if i < rest.len() {
                assert(rest[i] == s[i]);
            }
        }
    } else {
        assert(s[0] == fold_min(s));
    }
}

} // verus!
