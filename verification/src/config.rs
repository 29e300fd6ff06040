use vstd::prelude::*;

verus! {

/// A whitelist of account addresses.  An empty whitelist admits every
/// address; a non-empty one admits exactly the addresses it lists.
pub struct Whitelist(pub Vec<String>);

impl Whitelist {
    /// Whether `v` is admitted by the whitelist.
    pub open spec fn spec_allows(self, v: Seq<char>) -> bool {
        self.0@.len() == 0 || (exists|i: int| 0 <= i < self.0@.len() && self.0@[i]@ == v)
    }

    /// An empty whitelist admits everything; otherwise only listed values pass.
    pub fn contains(&self, value: &str) -> (r: bool)
        ensures
            r == self.spec_allows(value@),
    {
        if self.0.len() == 0 {
            return true;
        }
        let owned: String = value.to_owned();
        let n: usize = self.0.len();
        let mut i: usize = 0;
        while i < n
            invariant
                n == self.0@.len(),
                0 <= i <= n,
                owned@ == value@,
                forall|j: int| 0 <= j < i ==> self.0@[j]@ != value@,
            decreases n - i,
        {
            if self.0[i] == owned {
                return true;
            }
            i = i + 1;
        }
        false
    }
}

} // verus!
