use crate::address::{lex_lt, Address};
use crate::signing::{signed_by, verify_signature};
use vstd::prelude::*;

verus! {

/// Net bilateral debt between two parties, replaced on each update.
#[derive(Clone, Copy, Debug)]
pub struct Receipt {
    pub a_address: Address,
    pub b_address: Address,
    pub a_owes: u128,
    pub b_owes: u128,
    pub expires_by: u128,
}

/// Whether a receipt is still in use or has left active use.
#[derive(Clone, Copy, Debug, PartialEq, Eq, Structural)]
pub enum Status {
    Active,
    Posted,
    Expired,
}

/// A 65-byte recoverable ECDSA signature (r, s, v).
#[derive(Clone, Copy, Debug)]
pub struct Signature {
    pub bytes: [u8; 65],
}

/// A receipt with the signatures of its two parties.
#[derive(Clone, Copy, Debug)]
pub struct ReceiptWithSignatures {
    pub receipt: Receipt,
    pub a_signature: Option<Signature>,
    pub b_signature: Option<Signature>,
    pub status: Status,
}

/// Little-endian encoding of `x` in `n` bytes (the low `n` bytes of `x`).
pub open spec fn le_bytes(x: nat, n: nat) -> Seq<u8>
    decreases n,
{
    if n == 0 {
        Seq::empty()
    } else {
        seq![(x % 256) as u8] + le_bytes(x / 256, (n - 1) as nat)
    }
}

/// The bytes that both parties sign for a receipt: the two addresses, then
/// each amount in sixteen little-endian bytes.
pub open spec fn receipt_message(r: Receipt) -> Seq<u8> {
    r.a_address@ + r.b_address@ + le_bytes(r.a_owes as nat, 16) + le_bytes(r.b_owes as nat, 16)
        + le_bytes(r.expires_by as nat, 16)
}

/// Both signatures are present and each verifies against the receipt's
/// message for its own party.
pub open spec fn fully_signed(r: ReceiptWithSignatures) -> bool {
    &&& r.a_signature is Some
    &&& r.b_signature is Some
    &&& signed_by(r.a_signature->0.bytes@, receipt_message(r.receipt), r.receipt.a_address@)
    &&& signed_by(r.b_signature->0.bytes@, receipt_message(r.receipt), r.receipt.b_address@)
}

/// The zero receipt between `x` and `y`, the smaller address being party a.
pub open spec fn zero_receipt(x: Address, y: Address) -> ReceiptWithSignatures {
    let (a, b) = if lex_lt(y@, x@) { (y, x) } else { (x, y) };
    ReceiptWithSignatures {
        receipt: Receipt { a_address: a, b_address: b, a_owes: 0, b_owes: 0, expires_by: 0 },
        a_signature: None,
        b_signature: None,
        status: Status::Active,
    }
}

/// The amounts of two receipts that differ only in that the party other than
/// `owed_to` owes `amount` more.
pub open spec fn debited(old: Receipt, new: Receipt, amount: int, owed_to: Seq<u8>) -> bool {
    &&& new.a_address == old.a_address
    &&& new.b_address == old.b_address
    &&& new.expires_by == old.expires_by
    &&& if owed_to == old.a_address@ {
        new.b_owes == old.b_owes + amount && new.a_owes == old.a_owes
    } else {
        new.a_owes == old.a_owes + amount && new.b_owes == old.b_owes
    }
}

fn push_le_bytes(out: &mut Vec<u8>, x: u128)
    ensures
        final(out)@ == old(out)@ + le_bytes(x as nat, 16),
{
    let ghost start = out@;
    let mut v: u128 = x;
    let mut i: usize = 0;
    while i < 16
        invariant
            0 <= i <= 16,
            out@ + le_bytes(v as nat, (16 - i) as nat) == start + le_bytes(x as nat, 16),
        decreases 16 - i,
    {
        let ghost before = out@;
        out.push((v % 256) as u8);
        assert(le_bytes(v as nat, (16 - i) as nat) == seq![(v % 256) as u8] + le_bytes(
            (v / 256) as nat,
            (16 - i - 1) as nat,
        ));
        assert(out@ + le_bytes((v / 256) as nat, (16 - i - 1) as nat) =~= before + le_bytes(
            v as nat,
            (16 - i) as nat,
        ));
        v = v / 256;
        i = i + 1;
    }
    assert(le_bytes(v as nat, 0) =~= Seq::<u8>::empty());
    assert(out@ =~= out@ + le_bytes(v as nat, 0));
}

fn push_address(out: &mut Vec<u8>, a: &Address)
    ensures
        final(out)@ == old(out)@ + a@,
{
    let ghost start = out@;
    let mut i: usize = 0;
    while i < 20
        invariant
            0 <= i <= 20,
            a@.len() == 20,
            out@ == start + a@.subrange(0, i as int),
        decreases 20 - i,
    {
        out.push(a.bytes[i]);
        assert(a@.subrange(0, i + 1) =~= a@.subrange(0, i as int).push(a@[i as int]));
        i = i + 1;
    }
    assert(a@.subrange(0, 20) =~= a@);
}

impl Receipt {
    /// The bytes that both parties sign for this receipt.
    pub fn message(&self) -> (r: Vec<u8>)
        ensures
            r@ == receipt_message(*self),
    {
        let mut out: Vec<u8> = Vec::new();
        push_address(&mut out, &self.a_address);
        push_address(&mut out, &self.b_address);
        push_le_bytes(&mut out, self.a_owes);
        push_le_bytes(&mut out, self.b_owes);
        push_le_bytes(&mut out, self.expires_by);
        out
    }
}

impl ReceiptWithSignatures {
    /// The zero receipt between two peers, unsigned and active, with the
    /// address that orders first as party a.
    pub fn zeroed(x: Address, y: Address) -> (r: ReceiptWithSignatures)
        ensures
            r == zero_receipt(x, y),
    {
        let (a, b) = if y.precedes(&x) {
            (y, x)
        } else {
            (x, y)
        };
        ReceiptWithSignatures {
            receipt: Receipt { a_address: a, b_address: b, a_owes: 0, b_owes: 0, expires_by: 0 },
            a_signature: None,
            b_signature: None,
            status: Status::Active,
        }
    }

    /// Both signatures are present and each verifies against the exact
    /// message of the receipt for its own party.
    pub fn validate_signatures(&self) -> (r: bool)
        ensures
            r == fully_signed(*self),
    {
        match (&self.a_signature, &self.b_signature) {
            (Some(sa), Some(sb)) => {
                let message = self.receipt.message();
                verify_signature(&sa.bytes, &message, &self.receipt.a_address.bytes)
                    && verify_signature(&sb.bytes, &message, &self.receipt.b_address.bytes)
            },
            _ => false,
        }
    }

    /// Raises what the party other than `owed_to` owes by `amount`; the
    /// signatures over the former amounts are dropped.
    pub fn increase_owed_amount_by(&mut self, amount: u128, owed_to: Address)
        requires
            owed_to@ == old(self).receipt.a_address@ ==> old(self).receipt.b_owes + amount
                <= u128::MAX,
            owed_to@ != old(self).receipt.a_address@ ==> old(self).receipt.a_owes + amount
                <= u128::MAX,
        ensures
            debited(old(self).receipt, final(self).receipt, amount as int, owed_to@),
            final(self).a_signature is None,
            final(self).b_signature is None,
            final(self).status == old(self).status,
    {
        if owed_to.same_as(&self.receipt.a_address) {
            self.receipt.b_owes = self.receipt.b_owes + amount;
        } else {
            self.receipt.a_owes = self.receipt.a_owes + amount;
        }
        self.a_signature = None;
        self.b_signature = None;
    }
}

} // verus!
