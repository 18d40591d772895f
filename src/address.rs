use vstd::prelude::*;

verus! {

/// A 20-byte account identifier.
#[derive(Clone, Copy, Debug, PartialEq, Eq, PartialOrd, Ord, Hash)]
pub struct AddressKey {
    pub bytes: [u8; 20],
}

impl View for AddressKey {
    type V = Seq<u8>;

    open spec fn view(&self) -> Seq<u8> {
        self.bytes@
    }
}

impl AddressKey {
    pub fn new(bytes: [u8; 20]) -> (r: Self)
        ensures
            r@ == bytes@,
    {
        AddressKey { bytes }
    }

    /// Byte-wise equality of two keys.
    pub fn same(&self, other: &AddressKey) -> (r: bool)
        ensures
            r == (self@ == other@),
    {
        let mut i: usize = 0;
        while i < 20
            invariant
                0 <= i <= 20,
                self@.len() == 20,
                other@.len() == 20,
                forall|j: int| 0 <= j < i ==> self@[j] == other@[j],
            decreases 20 - i,
        {
            if self.bytes[i] != other.bytes[i] {
                return false;
            }
            i = i + 1;
        }
        assert(self@ =~= other@);
        true
    }
}

/// Whether `a` is one of `list`.
pub open spec fn key_in(list: Seq<AddressKey>, a: Seq<u8>) -> bool {
    exists|i: int| 0 <= i < list.len() && list[i]@ == a
}

/// Linear membership test over a list of keys.
pub fn contains_key(list: &Vec<AddressKey>, a: &AddressKey) -> (r: bool)
    ensures
        r == key_in(list@, a@),
{
    let mut i: usize = 0;
    while i < list.len()
        invariant
            0 <= i <= list.len(),
            forall|j: int| 0 <= j < i ==> list@[j]@ != a@,
        decreases list.len() - i,
    {
        if list[i].same(a) {
            return true;
        }
        i = i + 1;
    }
    false
}

} // verus!
