//! The revocation ledger: the set of revoked (holder, permit name) pairs.

use vstd::prelude::*;

verus! {

pub struct RevocationLedger {
    revoked: Vec<(String, String)>,
}

impl View for RevocationLedger {
    type V = Set<(Seq<char>, Seq<char>)>;

    closed spec fn view(&self) -> Set<(Seq<char>, Seq<char>)> {
        Set::new(
            |p: (Seq<char>, Seq<char>)|
                exists|i: int|
                    0 <= i < self.revoked@.len() && #[trigger] self.revoked@[i].0@ == p.0
                        && self.revoked@[i].1@ == p.1,
        )
    }
}

impl RevocationLedger {
    pub fn new() -> (r: RevocationLedger)
        ensures
            r@ == Set::<(Seq<char>, Seq<char>)>::empty(),
    {
        let r = RevocationLedger { revoked: Vec::new() };
        assert(r@ =~= Set::<(Seq<char>, Seq<char>)>::empty());
        r
    }

    /// Whether the permit `permit_name` of `holder` has been revoked.
    pub fn is_revoked(&self, holder: &String, permit_name: &String) -> (r: bool)
        ensures
            r == self@.contains((holder@, permit_name@)),
    {
        let n = self.revoked.len();
        let mut i: usize = 0;
        while i < n
            invariant
                n == self.revoked@.len(),
                i <= n,
                forall|j: int|
                    0 <= j < i ==> !(#[trigger] self.revoked@[j].0@ == holder@
                        && self.revoked@[j].1@ == permit_name@),
            decreases n - i,
        {
            if self.revoked[i].0 == *holder && self.revoked[i].1 == *permit_name {
                return true;
            }
            i = i + 1;
        }
        false
    }

    /// Records the permit `permit_name` of `holder` as revoked; revoking it
    /// again changes nothing.
    pub fn revoke(&mut self, holder: &String, permit_name: &String)
        ensures
            final(self)@ == old(self)@.insert((holder@, permit_name@)),
    {
        if self.is_revoked(holder, permit_name) {
            assert(self@ =~= self@.insert((holder@, permit_name@)));
            return;
        }
        let ghost before = self.revoked@;
        let h = holder.clone();
        let n = permit_name.clone();
        self.revoked.push((h, n));
        proof {
            let last = before.len() as int;
            assert(self.revoked@[last].0@ == holder@);
            assert forall|p: (Seq<char>, Seq<char>)|
                self@.contains(p) <==> old(self)@.insert((holder@, permit_name@)).contains(p) by {
                if old(self)@.contains(p) {
                    let i = choose|i: int|
                        0 <= i < before.len() && #[trigger] before[i].0@ == p.0 && before[i].1@
                            == p.1;
                    assert(self.revoked@[i] == before[i]);
                }
                if self@.contains(p) {
                    let i = choose|i: int|
                        0 <= i < self.revoked@.len() && #[trigger] self.revoked@[i].0@ == p.0
                            && self.revoked@[i].1@ == p.1;
                    if i < last {
                        assert(before[i] == self.revoked@[i]);
                    }
                }
            }
            assert(self@ =~= old(self)@.insert((holder@, permit_name@)));
        }
    }
}

} // verus!
