use crate::address::Address;
use crate::receipt::{
    debited, fully_signed, receipt_message, zero_receipt, Receipt, ReceiptWithSignatures, Signature,
};
use crate::signing::{
    address_of_key, key_address, sign_message, signature_of, signed_by, verify_signature,
};
use crate::storage::Storage;
use vstd::prelude::*;

verus! {

/// Why the ledger refused a debit.
#[derive(Clone, Copy, Debug, PartialEq, Eq, Structural)]
pub enum LedgerError {
    /// The node cannot cover the debit with its balance.
    InsufficientBalance,
    /// The proposed receipt does not match the prior one plus the debit.
    ReceiptMismatch,
    /// The counterparty's signature on the proposed receipt is missing or invalid.
    InvalidSignature,
    /// The owed amount would leave the range of the amount type.
    Overflow,
    /// Signing with the node's key failed.
    SigningFailed,
}

/// The receipt a ledger holds with `user`, or the zero receipt between them.
pub open spec fn prior_receipt(storage: Storage, self_address: Address, user: Address) -> ReceiptWithSignatures {
    match storage.receipt_for(user@) {
        Some(r) => r,
        None => zero_receipt(user, self_address),
    }
}

/// `r` carries the signature of exactly the party `signer`, as given, and
/// no signature of the other party.
pub open spec fn signed_only_by(r: ReceiptWithSignatures, signer: Seq<u8>) -> bool {
    if signer == r.receipt.a_address@ {
        r.a_signature is Some && r.b_signature is None
    } else {
        r.b_signature is Some && r.a_signature is None
    }
}

/// The counterparty of `self_address` in `r` has signed `r` validly.
pub open spec fn counterparty_signed(r: ReceiptWithSignatures, self_address: Seq<u8>) -> bool {
    if self_address == r.receipt.a_address@ {
        r.b_signature is Some && signed_by(
            r.b_signature->0.bytes@,
            receipt_message(r.receipt),
            r.receipt.b_address@,
        )
    } else {
        r.a_signature is Some && signed_by(
            r.a_signature->0.bytes@,
            receipt_message(r.receipt),
            r.receipt.a_address@,
        )
    }
}

/// `new` raises what `payer` owes in `old` by exactly `amount`, leaves the
/// other party's amount and both addresses as they were, and `payer` is
/// one of the two parties.
pub open spec fn valid_debit(old: Receipt, new: Receipt, amount: int, payer: Seq<u8>) -> bool {
    &&& new.a_address@ == old.a_address@
    &&& new.b_address@ == old.b_address@
    &&& if payer == new.a_address@ {
        new.a_owes == old.a_owes + amount && new.b_owes == old.b_owes
    } else {
        payer == new.b_address@ && new.b_owes == old.b_owes + amount && new.a_owes == old.a_owes
    }
}

/// The receipt `r` is between `user` and `me`, in either order.
pub open spec fn between(r: Receipt, user: Seq<u8>, me: Seq<u8>) -> bool {
    (r.a_address@ == user && r.b_address@ == me) || (r.a_address@ == me && r.b_address@ == user)
}

/// The party `signer` of `r` has put a signature on `r` that verifies
/// against `r`'s message and `signer`'s address.
pub open spec fn signed_as(r: ReceiptWithSignatures, signer: Seq<u8>) -> bool {
    if signer == r.receipt.a_address@ {
        r.a_signature is Some && signed_by(
            r.a_signature->0.bytes@,
            receipt_message(r.receipt),
            signer,
        )
    } else {
        r.b_signature is Some && signed_by(
            r.b_signature->0.bytes@,
            receipt_message(r.receipt),
            signer,
        )
    }
}

/// `old` with the party other than `owed_to` owing `amount` more.
pub open spec fn debit_of(old: Receipt, amount: int, owed_to: Seq<u8>) -> Receipt {
    if owed_to == old.a_address@ {
        Receipt { b_owes: (old.b_owes + amount) as u128, ..old }
    } else {
        Receipt { a_owes: (old.a_owes + amount) as u128, ..old }
    }
}

/// A secp256k1 secret key, kept out of view of the ledger's users.
pub struct SigningKey {
    bytes: [u8; 32],
}

impl View for SigningKey {
    type V = Seq<u8>;

    closed spec fn view(&self) -> Seq<u8> {
        self.bytes@
    }
}

impl SigningKey {
    pub fn new(bytes: [u8; 32]) -> (r: SigningKey)
        ensures
            r@ == bytes@,
    {
        SigningKey { bytes }
    }
}

/// The node's receipts with its peers and the totals it owes and is owed.
pub struct Wallet {
    pub storage: Storage,
    pub total_owes: u128,
    pub total_owed: u128,
    pub total_balance: u128,
    pub self_address: Address,
    pub signing_key: SigningKey,
}

impl Wallet {
    /// The store is well formed, the node's address is that of its key, and
    /// the receipt stored for each peer is between that peer and the node.
    pub open spec fn wf(&self) -> bool {
        &&& self.storage.wf()
        &&& key_address(self.signing_key@) == Some(self.self_address@)
        &&& forall|u: Seq<u8>|
            #![trigger self.storage.receipt_for(u)]
            self.storage.receipt_for(u) matches Some(r) ==> between(r.receipt, u, self.self_address@)
    }

    /// A ledger with no receipts for the node that signs with the secret key
    /// `signing_key` (its address is the key's) and holds `total_balance`;
    /// `None` where the bytes are not a valid secret key.
    pub fn new(signing_key: SigningKey, total_balance: u128) -> (r: Option<Wallet>)
        ensures
            r is Some <==> key_address(signing_key@) is Some,
            r matches Some(w) ==> {
                &&& w.wf()
                &&& key_address(signing_key@) == Some(w.self_address@)
                &&& w.signing_key@ == signing_key@
                &&& w.total_balance == total_balance
                &&& w.total_owes == 0
                &&& w.total_owed == 0
                &&& forall|u: Seq<u8>| w.storage.receipt_for(u) is None
                &&& w.storage.processes().len() == 0
            },
    {
        let bytes = match address_of_key(&signing_key.bytes) {
            Some(a) => a,
            None => {
                return None;
            },
        };
        Some(
            Wallet {
                storage: Storage::new(),
                total_owes: 0,
                total_owed: 0,
                total_balance,
                self_address: Address::new(bytes),
                signing_key,
            },
        )
    }

    /// A debit of `amount` on the receipt `prior` fits the amount type and
    /// the node's key signs the receipt that results.
    pub open spec fn debit_succeeds_on(&self, prior: Receipt, amount: int) -> bool {
        let debtor_owes = if self.self_address@ == prior.a_address@ {
            prior.b_owes
        } else {
            prior.a_owes
        };
        &&& debtor_owes + amount <= u128::MAX
        &&& signature_of(
            self.signing_key@,
            receipt_message(debit_of(prior, amount, self.self_address@)),
        ) is Some
    }

    /// A debit of `amount` to `user` fits the amount type and the node's key
    /// signs the receipt that results.
    pub open spec fn debit_succeeds(&self, user: Address, amount: int) -> bool {
        self.debit_succeeds_on(prior_receipt(self.storage, self.self_address, user).receipt, amount)
    }

    /// The balance stays above the total debt with `amount` added.
    pub open spec fn solvent_after(&self, amount: int) -> bool {
        self.total_balance > self.total_owes + amount
    }

    /// The node can take on a further debt of `amount` and stay solvent.
    pub fn can_pay(&self, amount: u128) -> (r: bool)
        ensures
            r == self.solvent_after(amount as int),
    {
        match self.total_owes.checked_add(amount) {
            Some(sum) => self.total_balance > sum,
            None => false,
        }
    }

    /// What this node owes `user`, per their active receipt (zero where
    /// there is none).
    pub open spec fn owes_to(&self, user: Seq<u8>) -> int {
        match self.storage.receipt_for(user) {
            Some(r) => if r.receipt.a_address@ == self.self_address@ {
                r.receipt.a_owes as int
            } else {
                r.receipt.b_owes as int
            },
            None => 0,
        }
    }

    /// What `user` owes this node, per their active receipt (zero where
    /// there is none).
    pub open spec fn owed_by(&self, user: Seq<u8>) -> int {
        match self.storage.receipt_for(user) {
            Some(r) => if r.receipt.a_address@ == self.self_address@ {
                r.receipt.b_owes as int
            } else {
                r.receipt.a_owes as int
            },
            None => 0,
        }
    }

    /// The amount this node owes `user`.
    pub fn balance_owes(&self, user: &Address) -> (r: u128)
        requires
            self.wf(),
        ensures
            r == self.owes_to(user@),
    {
        match self.storage.find_active_receipt(user) {
            Some(rc) => if self.self_address.same_as(&rc.receipt.a_address) {
                rc.receipt.a_owes
            } else {
                rc.receipt.b_owes
            },
            None => 0,
        }
    }

    /// The amount `user` owes this node.
    pub fn balance_owed(&self, user: &Address) -> (r: u128)
        requires
            self.wf(),
        ensures
            r == self.owed_by(user@),
    {
        match self.storage.find_active_receipt(user) {
            Some(rc) => if self.self_address.same_as(&rc.receipt.a_address) {
                rc.receipt.b_owes
            } else {
                rc.receipt.a_owes
            },
            None => 0,
        }
    }

    fn receipt_with(&self, user: &Address) -> (r: ReceiptWithSignatures)
        requires
            self.wf(),
        ensures
            r == prior_receipt(self.storage, self.self_address, *user),
    {
        match self.storage.find_active_receipt(user) {
            Some(r) => r,
            None => ReceiptWithSignatures::zeroed(*user, self.self_address),
        }
    }

    /// Adds the node's own signature to `r`, for the party it stands as.
    fn sign_as_self(&self, r: &mut ReceiptWithSignatures) -> (ok: bool)
        requires
            self.wf(),
        ensures
            ok <==> signature_of(self.signing_key@, receipt_message(old(r).receipt)) is Some,
            final(r).receipt == old(r).receipt,
            final(r).status == old(r).status,
            ok ==> signed_as(*final(r), self.self_address@),
            ok ==> if self.self_address@ == old(r).receipt.a_address@ {
                final(r).a_signature is Some && final(r).b_signature == old(r).b_signature
            } else {
                final(r).b_signature is Some && final(r).a_signature == old(r).a_signature
            },
            !ok ==> *final(r) == *old(r),
    {
        let message = r.receipt.message();
        match sign_message(&self.signing_key.bytes, &message) {
            Some(bytes) => {
                if self.self_address.same_as(&r.receipt.a_address) {
                    r.a_signature = Some(Signature { bytes });
                } else {
                    r.b_signature = Some(Signature { bytes });
                }
                true
            },
            None => false,
        }
    }

    /// Raises what `user` owes this node by `amount` in their shared receipt
    /// (the zero receipt where there is none), signs the result with the
    /// node's key, stores it as the active receipt with `user` and returns it.
    pub fn process_outgoing_rfp(&mut self, user: Address, amount: u128) -> (r: Result<
        ReceiptWithSignatures,
        LedgerError,
    >)
        requires
            old(self).wf(),
        ensures
            final(self).wf(),
            ({
                let prior = prior_receipt(old(self).storage, old(self).self_address, user);
                let debtor_owes = if old(self).self_address@ == prior.receipt.a_address@ {
                    prior.receipt.b_owes
                } else {
                    prior.receipt.a_owes
                };
                &&& (debtor_owes + amount > u128::MAX) ==> r == Err::<
                    ReceiptWithSignatures,
                    LedgerError,
                >(LedgerError::Overflow)
                &&& (debtor_owes + amount <= u128::MAX && r is Err) ==> r == Err::<
                    ReceiptWithSignatures,
                    LedgerError,
                >(LedgerError::SigningFailed)
                &&& r is Ok <==> old(self).debit_succeeds(user, amount as int)
                &&& r is Err ==> *final(self) == *old(self)
                &&& r matches Ok(n) ==> {
                    &&& debited(prior.receipt, n.receipt, amount as int, old(self).self_address@)
                    &&& n.receipt == debit_of(prior.receipt, amount as int, old(self).self_address@)
                    &&& n.status == prior.status
                    &&& signed_only_by(n, old(self).self_address@)
                    &&& signed_as(n, old(self).self_address@)
                    &&& final(self).owed_by(user@) == old(self).owed_by(user@) + amount
                    &&& final(self).owes_to(user@) == old(self).owes_to(user@)
                    &&& final(self).storage.receipt_for(user@) == Some(n)
                    &&& forall|u: Seq<u8>|
                        u != user@ ==> final(self).storage.receipt_for(u) == old(
                            self,
                        ).storage.receipt_for(u)
                    &&& final(self).storage.processes() == old(self).storage.processes()
                    &&& final(self).total_owes == old(self).total_owes
                    &&& final(self).total_owed == old(self).total_owed
                    &&& final(self).total_balance == old(self).total_balance
                    &&& final(self).self_address == old(self).self_address
                    &&& final(self).signing_key == old(self).signing_key
                }
            }),
    {
        let mut receipt = self.receipt_with(&user);
        let debtor_owes = if self.self_address.same_as(&receipt.receipt.a_address) {
            receipt.receipt.b_owes
        } else {
            receipt.receipt.a_owes
        };
        if debtor_owes.checked_add(amount).is_none() {
            return Err(LedgerError::Overflow);
        }
        receipt.increase_owed_amount_by(amount, self.self_address);
        if !self.sign_as_self(&mut receipt) {
            return Err(LedgerError::SigningFailed);
        }
        self.storage.store_active_receipt(&user, &receipt);
        Ok(receipt)
    }

    /// Accepts a debit of `pay_amount` towards `user`, proposed as
    /// `new_receipt`: the node must be able to pay, the receipt must keep the
    /// parties of the one held with `user` (or of the zero receipt), raise
    /// what this node owes by exactly `pay_amount`, leave the other amount as
    /// it was, and carry `user`'s valid signature. The accepted receipt is
    /// signed by the node, stored as the active receipt with `user`, and the
    /// debit is added to the node's total debt.
    pub fn process_incoming_rfp(
        &mut self,
        user: Address,
        pay_amount: u128,
        new_receipt: ReceiptWithSignatures,
    ) -> (r: Result<ReceiptWithSignatures, LedgerError>)
        requires
            old(self).wf(),
        ensures
            final(self).wf(),
            r is Err ==> *final(self) == *old(self),
            ({
                let prior = prior_receipt(old(self).storage, old(self).self_address, user);
                let me = old(self).self_address@;
                &&& !old(self).solvent_after(pay_amount as int) ==> r == Err::<
                    ReceiptWithSignatures,
                    LedgerError,
                >(LedgerError::InsufficientBalance)
                &&& old(self).solvent_after(pay_amount as int) && !valid_debit(
                    prior.receipt,
                    new_receipt.receipt,
                    pay_amount as int,
                    me,
                ) ==> r == Err::<ReceiptWithSignatures, LedgerError>(LedgerError::ReceiptMismatch)
                &&& old(self).solvent_after(pay_amount as int) && valid_debit(
                    prior.receipt,
                    new_receipt.receipt,
                    pay_amount as int,
                    me,
                ) && !counterparty_signed(new_receipt, me) ==> r == Err::<
                    ReceiptWithSignatures,
                    LedgerError,
                >(LedgerError::InvalidSignature)
                &&& old(self).solvent_after(pay_amount as int) && valid_debit(
                    prior.receipt,
                    new_receipt.receipt,
                    pay_amount as int,
                    me,
                ) && counterparty_signed(new_receipt, me) ==> (r is Ok || r == Err::<
                    ReceiptWithSignatures,
                    LedgerError,
                >(LedgerError::SigningFailed))
                &&& old(self).solvent_after(pay_amount as int) && valid_debit(
                    prior.receipt,
                    new_receipt.receipt,
                    pay_amount as int,
                    me,
                ) && counterparty_signed(new_receipt, me) && signature_of(
                    old(self).signing_key@,
                    receipt_message(new_receipt.receipt),
                ) is Some ==> r is Ok
                &&& r is Ok ==> valid_debit(prior.receipt, new_receipt.receipt, pay_amount as int, me)
                &&& r matches Ok(n) ==> {
                    &&& n.receipt == new_receipt.receipt
                    &&& n.status == new_receipt.status
                    &&& counterparty_signed(n, me)
                    &&& signed_as(n, me)
                    &&& fully_signed(n)
                    &&& final(self).owes_to(user@) == old(self).owes_to(user@) + pay_amount
                    &&& final(self).owed_by(user@) == old(self).owed_by(user@)
                    &&& final(self).storage.receipt_for(user@) == Some(n)
                    &&& forall|u: Seq<u8>|
                        u != user@ ==> final(self).storage.receipt_for(u) == old(
                            self,
                        ).storage.receipt_for(u)
                    &&& final(self).storage.processes() == old(self).storage.processes()
                    &&& final(self).total_owes == old(self).total_owes + pay_amount
                    &&& final(self).total_owed == old(self).total_owed
                    &&& final(self).total_balance == old(self).total_balance
                    &&& final(self).self_address == old(self).self_address
                    &&& final(self).signing_key == old(self).signing_key
                }
            }),
    {
        if !self.can_pay(pay_amount) {
            return Err(LedgerError::InsufficientBalance);
        }
        let prior = self.receipt_with(&user);
        let old_r = prior.receipt;
        let new_r = new_receipt.receipt;
        if !old_r.a_address.same_as(&new_r.a_address) || !old_r.b_address.same_as(&new_r.b_address) {
            return Err(LedgerError::ReceiptMismatch);
        }
        let me_a = self.self_address.same_as(&new_r.a_address);
        let amounts_ok = if me_a {
            old_r.a_owes.checked_add(pay_amount) == Some(new_r.a_owes) && old_r.b_owes
                == new_r.b_owes
        } else if self.self_address.same_as(&new_r.b_address) {
            old_r.b_owes.checked_add(pay_amount) == Some(new_r.b_owes) && old_r.a_owes
                == new_r.a_owes
        } else {
            false
        };
        if !amounts_ok {
            return Err(LedgerError::ReceiptMismatch);
        }
        let message = new_r.message();
        let their_signature = if me_a {
            new_receipt.b_signature
        } else {
            new_receipt.a_signature
        };
        let their_address = if me_a {
            new_r.b_address
        } else {
            new_r.a_address
        };
        let signed = match their_signature {
            Some(s) => verify_signature(&s.bytes, &message, &their_address.bytes),
            None => false,
        };
        if !signed {
            return Err(LedgerError::InvalidSignature);
        }
        let mut accepted = new_receipt;
        if !self.sign_as_self(&mut accepted) {
            return Err(LedgerError::SigningFailed);
        }
        self.storage.store_active_receipt(&user, &accepted);
        self.total_owes = self.total_owes + pay_amount;
        Ok(accepted)
    }
}

/// Over any run of accepted ledger updates for one pair of parties, each
/// step a debit of a non-negative amount (as the proposing side applies it,
/// or as the accepting side checks it), neither `a_owes` nor `b_owes` ever
/// decreases.
pub proof fn lemma_owed_amounts_monotone(
    receipts: Seq<Receipt>,
    amounts: Seq<u128>,
    parties: Seq<Seq<u8>>,
)
    requires
        receipts.len() == amounts.len() + 1,
        parties.len() == amounts.len(),
        forall|i: int|
            0 <= i < amounts.len() ==> valid_debit(
                #[trigger] receipts[i],
                receipts[i + 1],
                amounts[i] as int,
                parties[i],
            ) || debited(receipts[i], receipts[i + 1], amounts[i] as int, parties[i]),
    ensures
        forall|i: int, j: int|
            0 <= i <= j < receipts.len() ==> (#[trigger] receipts[i]).a_owes <= (
            #[trigger] receipts[j]).a_owes && receipts[i].b_owes <= receipts[j].b_owes,
    decreases amounts.len(),
{
    if amounts.len() > 0 {
        let n = amounts.len() - 1;
        let rs = receipts.drop_last();
        let am = amounts.drop_last();
        let ps = parties.drop_last();
        assert forall|i: int| 0 <= i < am.len() implies valid_debit(
            #[trigger] rs[i],
            rs[i + 1],
            am[i] as int,
            ps[i],
        ) || debited(rs[i], rs[i + 1], am[i] as int, ps[i]) by {
            assert(receipts[i] == rs[i]);
        }
        lemma_owed_amounts_monotone(rs, am, ps);
        assert(valid_debit(receipts[n], receipts[n + 1], amounts[n] as int, parties[n]) || debited(
            receipts[n],
            receipts[n + 1],
            amounts[n] as int,
            parties[n],
        ));
        assert forall|i: int, j: int|
            0 <= i <= j < receipts.len() implies (#[trigger] receipts[i]).a_owes <= (
            #[trigger] receipts[j]).a_owes && receipts[i].b_owes <= receipts[j].b_owes by {
            if j == receipts.len() - 1 && i < j {
                assert(rs[i] == receipts[i]);
                assert(rs[n] == receipts[n]);
            } else if j < receipts.len() - 1 {
                assert(rs[i] == receipts[i]);
                assert(rs[j] == receipts[j]);
            }
        }
    }
}

/// Payments for a whole transfer: where what a peer owes starts at zero
/// and each of `n` accepted debits raises it by the same `amount`, the peer
/// ends owing `n * amount`.
pub proof fn lemma_debits_accumulate(owed: Seq<int>, amount: int)
    requires
        owed.len() > 0,
        owed[0] == 0,
        forall|i: int| 0 <= i < owed.len() - 1 ==> #[trigger] owed[i + 1] == owed[i] + amount,
    ensures
        owed[owed.len() - 1] == (owed.len() - 1) * amount,
    decreases owed.len(),
{
    if owed.len() > 1 {
        let prefix = owed.drop_last();
        assert forall|i: int| 0 <= i < prefix.len() - 1 implies #[trigger] prefix[i + 1] == prefix[i]
            + amount by {
            assert(owed[i + 1] == owed[i] + amount);
        }
        lemma_debits_accumulate(prefix, amount);
        let j = owed.len() - 2;
        assert(owed[j + 1] == owed[j] + amount);
        assert(prefix[prefix.len() - 1] == owed[j]);
        let n = owed.len() as int;
        assert((n - 2) * amount + amount == (n - 1) * amount) by (nonlinear_arith);
        assert(prefix.len() - 1 == n - 2);
    } else {
        assert((owed.len() - 1) * amount == 0) by (nonlinear_arith)
            requires owed.len() == 1;
    }
}

} // verus!
