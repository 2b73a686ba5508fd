//! Lists as bytes: the length, then the members.
use crate::data::push_one;
use crate::wire::primitive::{take_length_from, varint, Wire};
use vstd::prelude::*;

verus! {

/// A list of values that can be written.
#[derive(Debug)]
pub struct WireList<T>(pub Vec<T>);

impl<T: DeepView> DeepView for WireList<T> {
    type V = Seq<T::V>;

    open spec fn deep_view(&self) -> Seq<T::V> {
        self.0.deep_view()
    }
}

/// The bytes of the members, one after the other.
pub open spec fn members_bytes<T: Wire>(models: Seq<T::V>) -> Seq<u8>
    decreases models.len(),
{
    if models.len() == 0 {
        Seq::empty()
    } else {
        T::bytes_of(models[0]) + members_bytes::<T>(models.drop_first())
    }
}

/// So many members read from the front of bytes.
pub open spec fn read_members<T: Wire>(b: Seq<u8>, n: nat) -> Option<(Seq<T::V>, Seq<u8>)>
    decreases n,
{
    if n == 0 {
        Some((Seq::empty(), b))
    } else {
        match T::read(b) {
            Some((x, rest)) => match read_members::<T>(rest, (n - 1) as nat) {
                Some((xs, rest)) => Some((seq![x] + xs, rest)),
                None => None,
            },
            None => None,
        }
    }
}

proof fn lemma_members_push<T: Wire>(models: Seq<T::V>, x: T::V)
    ensures
        members_bytes::<T>(models.push(x)) == members_bytes::<T>(models) + T::bytes_of(x),
    decreases models.len(),
{
    let more = models.push(x);
    if models.len() == 0 {
        assert(more.drop_first() =~= Seq::empty());
        assert(members_bytes::<T>(more.drop_first()) =~= Seq::empty());
        assert(members_bytes::<T>(models) =~= Seq::empty());
        assert(more[0] == x);
        assert(members_bytes::<T>(more) =~= members_bytes::<T>(models) + T::bytes_of(x));
    } else {
        assert(more.drop_first() =~= models.drop_first().push(x));
        lemma_members_push::<T>(models.drop_first(), x);
        assert(members_bytes::<T>(more) =~= members_bytes::<T>(models) + T::bytes_of(x));
    }
}

proof fn lemma_members_round_trip<T: Wire>(models: Seq<T::V>, rest: Seq<u8>)
    requires
        forall|i: int| 0 <= i < models.len() ==> T::fits(#[trigger] models[i]),
    ensures
        read_members::<T>(members_bytes::<T>(models) + rest, models.len()) == Some((models, rest)),
    decreases models.len(),
{
    if models.len() == 0 {
        assert(members_bytes::<T>(models) + rest =~= rest);
        assert(models =~= Seq::empty());
    } else {
        let tail = models.drop_first();
        assert forall|i: int| 0 <= i < tail.len() implies T::fits(#[trigger] tail[i]) by {
            assert(tail[i] == models[i + 1]);
        }
        let behind = members_bytes::<T>(tail) + rest;
        assert(members_bytes::<T>(models) + rest =~= T::bytes_of(models[0]) + behind);
        T::round_trip(models[0], behind);
        lemma_members_round_trip::<T>(tail, rest);
        assert(seq![models[0]] + tail =~= models);
    }
}

fn put_length(n: usize, out: &mut Vec<u8>)
    ensures
        final(out)@ == old(out)@ + varint(n as nat),
{
    (n as u64).put(out);
}

fn take_length<'a>(b: &'a [u8]) -> (r: Option<(usize, &'a [u8])>)
    ensures
        match take_length_from(b@) {
            Some((n, rest)) => r matches Some((v, s)) && v == n && s@ == rest,
            None => r is None,
        },
{
    if usize::MAX as u64 == u64::MAX {
        crate::wire::primitive::take_word(b)
    } else {
        crate::wire::primitive::take_half_word(b)
    }
}

impl<T: Wire> Wire for WireList<T> {
    open spec fn bytes_of(model: Seq<T::V>) -> Seq<u8> {
        varint(model.len()) + members_bytes::<T>(model)
    }

    open spec fn read(b: Seq<u8>) -> Option<(Seq<T::V>, Seq<u8>)> {
        match take_length_from(b) {
            Some((n, rest)) => read_members::<T>(rest, n),
            None => None,
        }
    }

    open spec fn fits(model: Seq<T::V>) -> bool {
        &&& model.len() <= usize::MAX
        &&& forall|i: int| 0 <= i < model.len() ==> T::fits(#[trigger] model[i])
    }

    proof fn round_trip(model: Seq<T::V>, rest: Seq<u8>) {
        let behind = members_bytes::<T>(model) + rest;
        assert(Self::bytes_of(model) + rest =~= varint(model.len()) + behind);
        crate::wire::primitive::lemma_length_round_trip(model.len(), behind);
        lemma_members_round_trip::<T>(model, rest);
    }

    fn put(&self, out: &mut Vec<u8>) {
        let ghost before = out@;
        let ghost all = self.0.deep_view();
        put_length(self.0.len(), out);
        let ghost front = out@;
        let mut i: usize = 0;
        assert(members_bytes::<T>(all.take(0)) =~= Seq::empty());
        assert(front + members_bytes::<T>(all.take(0)) =~= front);
        while i < self.0.len()
            invariant
                i <= self.0.len(),
                all == self.0.deep_view(),
                out@ == front + members_bytes::<T>(all.take(i as int)),
            decreases self.0.len() - i,
        {
            proof {
                lemma_members_push::<T>(all.take(i as int), all[i as int]);
                assert(all.take(i + 1) =~= all.take(i as int).push(all[i as int]));
                assert(all[i as int] == self.0@[i as int].deep_view());
            }
            self.0[i].put(out);
            assert(out@ =~= front + members_bytes::<T>(all.take(i + 1)));
            i += 1;
        }
        assert(all.take(all.len() as int) =~= all);
        assert(out@ =~= before + Self::bytes_of(self.deep_view()));
    }

    fn take<'a>(b: &'a [u8]) -> (r: Option<(Self, &'a [u8])>) {
        let (n, start) = match take_length(b) {
            Some(x) => x,
            None => {
                return None;
            },
        };
        let ghost goal = read_members::<T>(start@, n as nat);
        let mut xs: Vec<T> = Vec::new();
        let mut rest = start;
        let mut i: usize = 0;
        proof {
            assert(xs.deep_view() =~= Seq::empty());
            if let Some((ys, s)) = goal {
                assert(xs.deep_view() + ys =~= ys);
            }
        }
        while i < n
            invariant
                i <= n,
                match read_members::<T>(rest@, (n - i) as nat) {
                    Some((ys, s)) => goal == Some((xs.deep_view() + ys, s)),
                    None => goal is None,
                },
                Self::read(b@) == goal,
            decreases n - i,
        {
            match T::take(rest) {
                Some((x, s)) => {
                    let ghost before = xs.deep_view();
                    push_one(&mut xs, x);
                    proof {
                        if let Some((ys, t)) = read_members::<T>(s@, (n - i - 1) as nat) {
                            assert(before + (seq![x.deep_view()] + ys) =~= xs.deep_view() + ys);
                        }
                    }
                    rest = s;
                },
                None => {
                    return None;
                },
            }
            i += 1;
        }
        assert(xs.deep_view() + Seq::<T::V>::empty() =~= xs.deep_view());
        Some((WireList(xs), rest))
    }
}

} // verus!
