//! Values that can be compared and copied according to what they stand for.
use vstd::prelude::*;

verus! {

/// A value that can be compared with and copied to another one of the same
/// meaning, where the meaning of a value is its deep view.
pub trait Data: DeepView + Sized {
    /// Whether two values mean the same.
    fn same(&self, other: &Self) -> (r: bool)
        ensures
            r == (self.deep_view() == other.deep_view()),
    ;

    /// A second value with the meaning of the first.
    fn duplicate(&self) -> (r: Self)
        ensures
            r.deep_view() == self.deep_view(),
    ;
}

/// The number after `n` in a running count, which starts again at zero.
pub open spec fn next_number(n: u64) -> u64 {
    if n == u64::MAX {
        0
    } else {
        (n + 1) as u64
    }
}

/// Numbers run on one by one, and begin again at zero behind the last one.
pub proof fn numbers_run_on(n: u64)
    ensures
        n < u64::MAX ==> next_number(n) == n + 1,
        next_number(u64::MAX) == 0,
{
}

impl Data for () {
    fn same(&self, other: &Self) -> (r: bool) {
        true
    }

    fn duplicate(&self) -> (r: Self) {
        ()
    }
}

impl Data for bool {
    fn same(&self, other: &Self) -> (r: bool) {
        *self == *other
    }

    fn duplicate(&self) -> (r: Self) {
        *self
    }
}

impl Data for u8 {
    fn same(&self, other: &Self) -> (r: bool) {
        *self == *other
    }

    fn duplicate(&self) -> (r: Self) {
        *self
    }
}

impl Data for u32 {
    fn same(&self, other: &Self) -> (r: bool) {
        *self == *other
    }

    fn duplicate(&self) -> (r: Self) {
        *self
    }
}

impl Data for u64 {
    fn same(&self, other: &Self) -> (r: bool) {
        *self == *other
    }

    fn duplicate(&self) -> (r: Self) {
        *self
    }
}

impl Data for i32 {
    fn same(&self, other: &Self) -> (r: bool) {
        *self == *other
    }

    fn duplicate(&self) -> (r: Self) {
        *self
    }
}

impl Data for &str {
    fn same(&self, other: &Self) -> (r: bool) {
        crate::text::same_text(*self, *other)
    }

    fn duplicate(&self) -> (r: Self) {
        *self
    }
}

impl Data for String {
    fn same(&self, other: &Self) -> (r: bool) {
        *self == *other
    }

    fn duplicate(&self) -> (r: Self) {
        self.clone()
    }
}

impl<T: Data> Data for Option<T> {
    fn same(&self, other: &Self) -> (r: bool) {
        match (self, other) {
            (Some(a), Some(b)) => a.same(b),
            (None, None) => true,
            _ => false,
        }
    }

    fn duplicate(&self) -> (r: Self) {
        match self {
            Some(a) => Some(a.duplicate()),
            None => None,
        }
    }
}

impl<A: Data, B: Data> Data for (A, B) {
    fn same(&self, other: &Self) -> (r: bool) {
        self.0.same(&other.0) && self.1.same(&other.1)
    }

    fn duplicate(&self) -> (r: Self) {
        (self.0.duplicate(), self.1.duplicate())
    }
}

impl<T: Data> Data for Vec<T> {
    fn same(&self, other: &Self) -> (r: bool) {
        if self.len() != other.len() {
            assert(self.deep_view().len() != other.deep_view().len());
            return false;
        }
        let mut i: usize = 0;
        while i < self.len()
            invariant
                i <= self.len(),
                self.len() == other.len(),
                forall|j: int|
                    0 <= j < i ==> self.deep_view()[j] == other.deep_view()[j],
            decreases self.len() - i,
        {
            assert(self.deep_view()[i as int] == self@[i as int].deep_view());
            assert(other.deep_view()[i as int] == other@[i as int].deep_view());
            if !self[i].same(&other[i]) {
                return false;
            }
            i += 1;
        }
        assert(self.deep_view() =~= other.deep_view());
        true
    }

    fn duplicate(&self) -> (r: Self) {
        let mut r: Vec<T> = Vec::new();
        let mut i: usize = 0;
        while i < self.len()
            invariant
                i <= self.len(),
                r.len() == i,
                forall|j: int| 0 <= j < i ==> r@[j].deep_view() == self@[j].deep_view(),
            decreases self.len() - i,
        {
            r.push(self[i].duplicate());
            i += 1;
        }
        assert(r.deep_view() =~= self.deep_view());
        r
    }
}

/// Adds one member at the end.
pub fn push_one<T: DeepView>(v: &mut Vec<T>, x: T)
    ensures
        final(v).deep_view() == old(v).deep_view().push(x.deep_view()),
{
    v.push(x);
    assert(v.deep_view() =~= old(v).deep_view().push(x.deep_view()));
}

/// Where a member that means `x` first stands in `v`, if there is one.
pub fn position<T: Data>(v: &Vec<T>, x: &T) -> (r: Option<usize>)
    ensures
        match r {
            Some(i) => {
                &&& i < v.len()
                &&& v.deep_view()[i as int] == x.deep_view()
                &&& forall|j: int| 0 <= j < i ==> v.deep_view()[j] != x.deep_view()
            },
            None => !v.deep_view().contains(x.deep_view()),
        },
{
    let mut i: usize = 0;
    while i < v.len()
        invariant
            i <= v.len(),
            forall|j: int| 0 <= j < i ==> v.deep_view()[j] != x.deep_view(),
        decreases v.len() - i,
    {
        assert(v.deep_view()[i as int] == v@[i as int].deep_view());
        if v[i].same(x) {
            return Some(i);
        }
        i += 1;
    }
    None
}

} // verus!
