//! Unique references.
use crate::base::node::LocalNode;
use crate::data::{next_number, Data};
use crate::directory::Key;
use crate::text::{decimal, numeral, tagged, tagged_text};
use vstd::prelude::*;
use vstd::string::*;

verus! {

/// A reference, by which a monitor, a timer or a call is known.
#[derive(Clone, Copy, Debug, PartialEq, Eq, Structural, Hash)]
pub struct Ref(pub u64);

impl DeepView for Ref {
    type V = Ref;

    open spec fn deep_view(&self) -> Ref {
        *self
    }
}

impl Data for Ref {
    fn same(&self, other: &Self) -> (r: bool) {
        *self == *other
    }

    fn duplicate(&self) -> (r: Self) {
        *self
    }
}

impl Key for Ref {
    open spec fn spelling(model: Ref) -> Seq<u64> {
        seq![model.0]
    }

    proof fn spelled_once(a: Ref, b: Ref) {
        assert(Self::spelling(a)[0] == a.0 && Self::spelling(b)[0] == b.0);
    }

    fn spell(&self) -> (r: Vec<u64>) {
        let r = vec![self.0];
        assert(r@ =~= Self::spelling(*self));
        r
    }
}

impl Ref {
    /// A new reference of this node.
    pub fn new(node: &mut LocalNode) -> (r: Self)
        ensures
            r == Ref(old(node).next_ref),
            *final(node) == (LocalNode {
                next_ref: next_number(old(node).next_ref),
                ..*old(node)
            }),
    {
        let value: u64 = node.next_ref;
        node.next_ref = value.wrapping_add(1);
        Ref(value)
    }

    /// The reference with the number.
    pub fn from_raw(value: u64) -> (r: Self)
        ensures
            r == Ref(value),
    {
        Ref(value)
    }

    /// The reference's number.
    pub fn as_raw(&self) -> (r: u64)
        ensures
            r == self.0,
    {
        self.0
    }

    /// The reference as text.
    pub fn display(&self) -> (r: String)
        ensures
            r@ == "#"@ + numeral(self.0 as nat, 10),
    {
        "#".to_owned().concat(decimal(self.0).as_str())
    }

    /// The reference for a debug print.
    pub fn debug(&self) -> (r: String)
        ensures
            r@ == tagged_text("Ref"@, numeral(self.0 as nat, 10)),
    {
        tagged("Ref", decimal(self.0).as_str())
    }
}

/// A 64-bit counter does not come back to a value within 2^64 steps.
pub(crate) proof fn lemma_counter_distinct(start: nat, m: nat, n: nat)
    requires
        m < n < m + 0x1_0000_0000_0000_0000,
    ensures
        (start + m) % 0x1_0000_0000_0000_0000 != (start + n) % 0x1_0000_0000_0000_0000,
{
    let w: int = 0x1_0000_0000_0000_0000;
    let a: int = (start + m) as int;
    let b: int = (start + n) as int;
    if a % w == b % w {
        vstd::arithmetic::div_mod::lemma_fundamental_div_mod(a, w);
        vstd::arithmetic::div_mod::lemma_fundamental_div_mod(b, w);
        assert(b - a == w * (b / w - a / w)) by (nonlinear_arith)
            requires
                a == w * (a / w) + a % w,
                b == w * (b / w) + b % w,
                a % w == b % w,
        ;
        let q = b / w - a / w;
        assert(q <= 0 || q >= 1);
        if q >= 1 {
            assert(w * q >= w) by (nonlinear_arith)
                requires
                    q >= 1,
                    w > 0,
            ;
        } else {
            assert(w * q <= 0) by (nonlinear_arith)
                requires
                    q <= 0,
                    w > 0,
            ;
        }
    }
}

/// As long as fewer than 2^64 references were made between them, two references
/// made at different times are different.
pub proof fn refs_are_unique(a: Ref, b: Ref, start: u64, m: nat, n: nat)
    requires
        a.0 as nat == crate::base::pid::pid_counter_after(start, m),
        b.0 as nat == crate::base::pid::pid_counter_after(start, n),
        m < n < m + 0x1_0000_0000_0000_0000,
    ensures
        a != b,
{
    lemma_counter_distinct(start as nat, m, n);
}

} // verus!
