use vstd::prelude::*;

verus! {

/// Number of bytes in a peer address.
pub const ADDRESS_LEN: usize = 20;

/// A 20-byte account address identifying a peer on the ledger.
#[derive(Clone, Copy, Debug)]
pub struct Address {
    pub bytes: [u8; 20],
}

/// `a` orders strictly before `b` byte by byte.
pub open spec fn lex_lt(a: Seq<u8>, b: Seq<u8>) -> bool {
    exists|i: int|
        #![trigger a[i], b[i]]
        0 <= i < a.len() && i < b.len() && a[i] < b[i] && forall|j: int|
            0 <= j < i ==> a[j] == b[j]
}

impl View for Address {
    type V = Seq<u8>;

    open spec fn view(&self) -> Seq<u8> {
        self.bytes@
    }
}

impl Address {
    pub fn new(bytes: [u8; 20]) -> (r: Address)
        ensures
            r@ == bytes@,
    {
        Address { bytes }
    }

    /// The two addresses hold the same bytes.
    pub fn same_as(&self, other: &Address) -> (r: bool)
        ensures
            r == (self@ == other@),
    {
        let mut i: usize = 0;
        while i < ADDRESS_LEN
            invariant
                0 <= i <= ADDRESS_LEN,
                self@.len() == ADDRESS_LEN,
                other@.len() == ADDRESS_LEN,
                forall|j: int| 0 <= j < i ==> self@[j] == other@[j],
            decreases ADDRESS_LEN - i,
        {
            if self.bytes[i] != other.bytes[i] {
                return false;
            }
            i = i + 1;
        }
        assert(self@ =~= other@);
        true
    }

    /// This address orders strictly before `other`, byte by byte.
    pub fn precedes(&self, other: &Address) -> (r: bool)
        ensures
            r == lex_lt(self@, other@),
    {
        let mut i: usize = 0;
        while i < ADDRESS_LEN
            invariant
                0 <= i <= ADDRESS_LEN,
                self@.len() == ADDRESS_LEN,
                other@.len() == ADDRESS_LEN,
                forall|j: int| 0 <= j < i ==> self@[j] == other@[j],
            decreases ADDRESS_LEN - i,
        {
            if self.bytes[i] != other.bytes[i] {
                if self.bytes[i] < other.bytes[i] {
                    assert(self@[i as int] < other@[i as int]);
                    return true;
                }
                assert forall|k: int|
                    0 <= k < self@.len() && k < other@.len() && self@[k] < other@[k] implies
                    !(forall|j: int| 0 <= j < k ==> self@[j] == other@[j]) by {
                    if k > i {
                        assert(self@[i as int] != other@[i as int]);
                    }
                }
                return false;
            }
            i = i + 1;
        }
        assert forall|k: int|
            0 <= k < self@.len() && k < other@.len() implies !(self@[k] < other@[k]) by {
            assert(self@[k] == other@[k]);
        }
        false
    }
}

/// Two addresses with the same bytes are the same address.
pub proof fn lemma_address_eq(a: Address, b: Address)
    requires
        a@ == b@,
    ensures
        a == b,
{
    assert(a.bytes =~= b.bytes) by {
        assert forall|i: int| 0 <= i < 20 implies a.bytes[i] == b.bytes[i] by {
            assert(a@[i] == b@[i]);
        }
    }
}

impl PartialEq for Address {
    fn eq(&self, other: &Address) -> (r: bool) {
        self.same_as(other)
    }
}

impl vstd::std_specs::cmp::PartialEqSpecImpl for Address {
    open spec fn obeys_eq_spec() -> bool {
        true
    }

    open spec fn eq_spec(&self, other: &Address) -> bool {
        self@ == other@
    }
}

impl Eq for Address {}

} // verus!
