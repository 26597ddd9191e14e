use crate::address::Address;
use crate::chunks::chunk_at;
use crate::process::{within_window, Process, Role};
use crate::address::lemma_address_eq;
use crate::storage::{process_ids_unique, Storage};
use crate::protocol::{FileExchangeRequest, FileExchangeResponse};
use crate::receipt::{fully_signed, Receipt, ReceiptWithSignatures};
use crate::wallet::{debit_of, prior_receipt, signed_as, Wallet};
use vstd::prelude::*;

verus! {

/// A file offered by a seeder, priced per chunk.
pub struct File {
    pub id: u32,
    pub chunk_size: usize,
    pub chunk_price: u128,
    pub file: Vec<u8>,
}

/// The two receipts hold the same parties and amounts.
pub open spec fn same_receipt(x: Receipt, y: Receipt) -> bool {
    &&& x.a_address@ == y.a_address@
    &&& x.b_address@ == y.b_address@
    &&& x.a_owes == y.a_owes
    &&& x.b_owes == y.b_owes
    &&& x.expires_by == y.expires_by
}

fn same_receipt_exec(x: &Receipt, y: &Receipt) -> (r: bool)
    ensures
        r == same_receipt(*x, *y),
{
    x.a_address.same_as(&y.a_address) && x.b_address.same_as(&y.b_address) && x.a_owes == y.a_owes
        && x.b_owes == y.b_owes && x.expires_by == y.expires_by
}

/// `p` with one more chunk sent.
pub open spec fn advanced(p: Process) -> Process {
    Process { sequence_no: (p.sequence_no + 1) as usize, ..p }
}

/// `p` with its request for payment outstanding.
pub open spec fn awaiting(p: Process) -> Process {
    Process { awaiting_payment: true, waited_ticks: 0, ..p }
}

/// `p` after one more tick spent waiting for payment.
pub open spec fn waited(p: Process) -> Process {
    Process { waited_ticks: (p.waited_ticks + 1) as u32, ..p }
}

/// `p` with every chunk sent so far paid for.
pub open spec fn reconciled(p: Process) -> Process {
    Process { rfp_sequence_no: p.sequence_no, awaiting_payment: false, ..p }
}

/// The seeder side of the transfer engine: serves one file to any number
/// of requesters, stopping after `credit_window` unpaid chunks until the
/// requester confirms payment, and abandoning a transfer whose payment has
/// been awaited for `max_wait_ticks` scheduler ticks.
pub struct FileSeeder {
    pub wallet: Wallet,
    pub main_file: File,
    pub credit_window: usize,
    pub max_wait_ticks: u32,
    pub next_process_id: u32,
}

impl FileSeeder {
    /// The ledger is well formed, the file cuts into chunks, and every
    /// active transfer keeps its unpaid chunks within the credit window and
    /// has an id below the next one to hand out.
    pub open spec fn wf(&self) -> bool {
        &&& self.wallet.wf()
        &&& self.main_file.chunk_size > 0
        &&& self.credit_window > 0
        &&& forall|p: Process| #[trigger]
            self.wallet.storage.processes().contains(p) ==> within_window(
                p,
                self.credit_window as nat,
            ) && (p.id < self.next_process_id || self.next_process_id == u32::MAX)
    }

    /// Chunk `k` of the served file, per `chunk_at`.
    pub open spec fn chunk(&self, k: nat) -> Option<Seq<u8>> {
        chunk_at(self.main_file.file@, self.main_file.chunk_size as nat, k)
    }

    /// A confirmation of payment `receipt` for transfer `process_id` is
    /// taken: the transfer awaits payment, and `receipt` holds the receipt
    /// that the seeder proposed, validly signed by both parties.
    pub open spec fn confirmation_accepted(&self, process_id: u32, receipt: ReceiptWithSignatures) -> bool {
        let p = self.wallet.storage.process_for(process_id);
        &&& p is Some
        &&& p->0.awaiting_payment
        &&& self.wallet.storage.receipt_for(p->0.counterparty@) matches Some(proposed)
            && same_receipt(proposed.receipt, receipt.receipt)
        &&& fully_signed(receipt)
    }

    /// The price of the chunks of `p` sent since its last payment.
    pub open spec fn rfp_amount(&self, p: Process) -> int {
        (p.sequence_no - p.rfp_sequence_no) * self.main_file.chunk_price
    }

    /// A request for payment for `p` goes out: its amount fits the amount
    /// type and the ledger's debit to the requester succeeds.
    pub open spec fn rfp_succeeds(&self, p: Process) -> bool {
        &&& self.rfp_amount(p) <= u128::MAX
        &&& self.wallet.debit_succeeds(p.counterparty, self.rfp_amount(p))
    }

    /// The chunk credit of `p` is left and a chunk remains to send.
    pub open spec fn can_send_chunk(&self, p: Process) -> bool {
        p.sequence_no - p.rfp_sequence_no < self.credit_window && self.chunk(p.sequence_no as nat) is Some
    }

    /// What one scheduler decision does to the active transfer `p`, whose
    /// entry becomes `after`: while payment is awaited, one more tick of
    /// waiting, or removal once `max_wait_ticks` have passed; with credit
    /// and a chunk left, one more chunk sent; with nothing left and
    /// everything paid, removal; otherwise a request for payment, which
    /// leaves the transfer awaiting payment, or as it was where the request
    /// could not be made.
    pub open spec fn step_outcome(&self, p: Process, after: Option<Process>) -> bool {
        if p.awaiting_payment {
            if p.waited_ticks >= self.max_wait_ticks {
                after is None
            } else {
                after == Some(waited(p))
            }
        } else if self.can_send_chunk(p) {
            after == Some(advanced(p))
        } else if p.sequence_no == p.rfp_sequence_no {
            after is None
        } else {
            after == Some(awaiting(p)) || after == Some(p)
        }
    }

    /// `p` has used its credit or its chunks, has unpaid chunks and awaits no
    /// payment: its decision is a request for payment.
    pub open spec fn rfp_branch(&self, p: Process) -> bool {
        !p.awaiting_payment && !self.can_send_chunk(p) && p.sequence_no != p.rfp_sequence_no
    }

    /// The decision on `p`, whose entry became `after`, sent a request for
    /// payment.
    pub open spec fn rfp_sent(&self, p: Process, after: Option<Process>) -> bool {
        self.rfp_branch(p) && after == Some(awaiting(p))
    }

    /// The request for payment `m` for `p` carries `prior` debited by the
    /// price of `p`'s unpaid chunks, signed by this node.
    pub open spec fn rfp_message(&self, p: Process, prior: Receipt, m: FileExchangeRequest) -> bool {
        m matches FileExchangeRequest::Rfp { process_id, receipt } && process_id == p.id
            && receipt.receipt == debit_of(prior, self.rfp_amount(p), self.wallet.self_address@)
            && signed_as(receipt, self.wallet.self_address@)
    }

    /// The decision on `p`, whose entry became `after`, sends a message.
    pub open spec fn step_sends(&self, p: Process, after: Option<Process>) -> bool {
        !p.awaiting_payment && (self.can_send_chunk(p) || after == Some(awaiting(p)))
    }

    /// `m` is the message that the decision on `p` sends: the chunk at
    /// `sequence_no` with both watermarks, or a request for payment.
    pub open spec fn step_message(&self, p: Process, after: Option<Process>, m: FileExchangeRequest) -> bool {
        &&& self.can_send_chunk(p) ==> (m matches FileExchangeRequest::DataChunk {
            process_id,
            sequence_no,
            rfp_sequence_no,
            chunks,
        } && process_id == p.id && sequence_no == p.sequence_no && rfp_sequence_no == p.rfp_sequence_no
            && self.chunk(p.sequence_no as nat) == Some(chunks@))
        &&& !self.can_send_chunk(p) && after == Some(awaiting(p)) ==> (m matches FileExchangeRequest::Rfp { process_id, .. }
            && process_id == p.id)
    }

    /// A seeder for `main_file` over the ledger `wallet`, whose table of
    /// transfers may already hold some (each within the credit window); new
    /// transfers get ids above all of theirs.
    pub fn new(wallet: Wallet, main_file: File, credit_window: usize, max_wait_ticks: u32) -> (r:
        FileSeeder)
        requires
            wallet.wf(),
            main_file.chunk_size > 0,
            credit_window > 0,
            forall|p: Process| #[trigger]
                wallet.storage.processes().contains(p) ==> within_window(p, credit_window as nat),
        ensures
            r.wf(),
            r.wallet == wallet,
            r.main_file == main_file,
            r.credit_window == credit_window,
            r.max_wait_ticks == max_wait_ticks,
            forall|p: Process| #[trigger]
                wallet.storage.processes().contains(p) ==> p.id < r.next_process_id || r.next_process_id
                    == u32::MAX,
    {
        let table = wallet.storage.get_all_active_process();
        let mut next: u32 = 0;
        let mut i: usize = 0;
        while i < table.len()
            invariant
                0 <= i <= table@.len(),
                table@ == wallet.storage.processes(),
                forall|j: int| 0 <= j < i ==> (#[trigger] table@[j]).id < next || next == u32::MAX,
            decreases table@.len() - i,
        {
            let id = table[i].id;
            if id >= next {
                next = if id == u32::MAX {
                    u32::MAX
                } else {
                    id + 1
                };
            }
            i = i + 1;
        }
        let r = FileSeeder { wallet, main_file, credit_window, max_wait_ticks, next_process_id: next };
        assert forall|p: Process| #[trigger] r.wallet.storage.processes().contains(p) implies p.id
            < next || next == u32::MAX by {
            let j = choose|j: int| 0 <= j < table@.len() && table@[j] == p;
        }
        r
    }

    /// The bytes of chunk `index` of the served file, `None` past its end.
    pub fn read_chunk_at_index(&self, index: usize) -> (r: Option<Vec<u8>>)
        requires
            self.main_file.chunk_size > 0,
        ensures
            r is None <==> self.chunk(index as nat) is None,
            r matches Some(c) ==> self.chunk(index as nat) == Some(c@),
    {
        let size = self.main_file.chunk_size;
        let len = self.main_file.file.len();
        let start = match index.checked_mul(size) {
            Some(s) => s,
            None => {
                return None;
            },
        };
        if start >= len {
            return None;
        }
        assert((index as nat + 1) * size as nat == index as nat * size as nat + size as nat)
            by (nonlinear_arith);
        let end = if len - start <= size {
            len
        } else {
            start + size
        };
        let mut out: Vec<u8> = Vec::new();
        let mut i: usize = start;
        while i < end
            invariant
                start <= i <= end <= len,
                len == self.main_file.file@.len(),
                out@ == self.main_file.file@.subrange(start as int, i as int),
            decreases end - i,
        {
            out.push(self.main_file.file[i]);
            assert(self.main_file.file@.subrange(start as int, i + 1) =~= self.main_file.file@.subrange(
                start as int,
                i as int,
            ).push(self.main_file.file@[i as int]));
            i = i + 1;
        }
        Some(out)
    }

    /// Sends the next chunk of the active transfer `process`: where the file
    /// holds chunk `sequence_no`, returns it as a `DataChunk` and stores the
    /// transfer with one more chunk sent; past the end, changes nothing.
    pub fn send_chunk(&mut self, process: Process) -> (r: Option<FileExchangeRequest>)
        requires
            old(self).wf(),
            old(self).wallet.storage.process_for(process.id) == Some(process),
            process.sequence_no - process.rfp_sequence_no < old(self).credit_window,
        ensures
            final(self).wallet.self_address == old(self).wallet.self_address,
            final(self).wallet.signing_key == old(self).wallet.signing_key,
            final(self).wf(),
            final(self).main_file == old(self).main_file,
            final(self).credit_window == old(self).credit_window,
            final(self).max_wait_ticks == old(self).max_wait_ticks,
            old(self).chunk(process.sequence_no as nat) is None ==> r is None && *final(self) == *old(self),
            old(self).chunk(process.sequence_no as nat) matches Some(c) ==> {
                &&& r matches Some(FileExchangeRequest::DataChunk { process_id, sequence_no, rfp_sequence_no, chunks })
                    && process_id == process.id && sequence_no == process.sequence_no
                    && rfp_sequence_no == process.rfp_sequence_no && chunks@ == c
                &&& final(self).wallet.storage.process_for(process.id) == Some(advanced(process))
                &&& forall|id: u32| id != process.id ==> final(self).wallet.storage.process_for(id)
                    == old(self).wallet.storage.process_for(id)
                &&& forall|u: Seq<u8>| final(self).wallet.storage.receipt_for(u) == old(self).wallet.storage.receipt_for(u)
                &&& final(self).next_process_id == old(self).next_process_id
            },
    {
        let ghost p0 = process;
        let ghost contains_witness = choose|i: int| 0 <= i < self.wallet.storage.processes().len() && (#[trigger] self.wallet.storage.processes()[i]).id == process.id;
        assert(self.wallet.storage.processes().contains(process)) by {
            assert(self.wallet.storage.processes()[contains_witness] == process);
        }
        match self.read_chunk_at_index(process.sequence_no) {
            Some(chunk) => {
                let flen = self.main_file.file.len();
                proof {
                    let k = process.sequence_no as nat;
                    let s = self.main_file.chunk_size as nat;
                    assert(k * s >= k) by (nonlinear_arith) requires s > 0;
                    assert(k * s < flen);
                }
                let next = Process { sequence_no: process.sequence_no + 1, ..process };
                self.wallet.storage.update_active_process(next);
                Some(
                    FileExchangeRequest::DataChunk {
                        process_id: process.id,
                        sequence_no: process.sequence_no,
                        rfp_sequence_no: process.rfp_sequence_no,
                        chunks: chunk,
                    },
                )
            },
            None => None,
        }
    }

    /// Asks the requester of `process` to pay for the chunks sent since the
    /// last payment: the ledger raises what the requester owes by
    /// `(sequence_no - rfp_sequence_no) * chunk_price` and signs; the
    /// transfer then awaits payment. Where the amount overflows or the
    /// ledger fails, nothing changes and `None` is returned.
    pub fn send_rfp(&mut self, process: Process) -> (r: Option<FileExchangeRequest>)
        requires
            old(self).wf(),
            old(self).wallet.storage.process_for(process.id) == Some(process),
        ensures
            final(self).wallet.self_address == old(self).wallet.self_address,
            final(self).wallet.signing_key == old(self).wallet.signing_key,
            final(self).wf(),
            final(self).main_file == old(self).main_file,
            final(self).credit_window == old(self).credit_window,
            final(self).max_wait_ticks == old(self).max_wait_ticks,
            final(self).next_process_id == old(self).next_process_id,
            r is None ==> *final(self) == *old(self),
            r is Some <==> old(self).rfp_succeeds(process),
            r is Some ==> {
                let amount = (process.sequence_no - process.rfp_sequence_no) * old(self).main_file.chunk_price;
                let prior = prior_receipt(old(self).wallet.storage, old(self).wallet.self_address, process.counterparty);
                &&& r matches Some(FileExchangeRequest::Rfp { process_id, receipt })
                    && process_id == process.id
                    && receipt.receipt == debit_of(prior.receipt, amount, old(self).wallet.self_address@)
                && signed_as(receipt, old(self).wallet.self_address@)
                    && final(self).wallet.storage.receipt_for(process.counterparty@) == Some(receipt)
                &&& final(self).wallet.storage.process_for(process.id) == Some(awaiting(process))
                &&& forall|id: u32| id != process.id ==> final(self).wallet.storage.process_for(id)
                    == old(self).wallet.storage.process_for(id)
                &&& forall|u: Seq<u8>|
                    u != process.counterparty@ ==> final(self).wallet.storage.receipt_for(u)
                        == old(self).wallet.storage.receipt_for(u)
            },
    {
        let ghost w = choose|i: int| 0 <= i < self.wallet.storage.processes().len() && (#[trigger] self.wallet.storage.processes()[i]).id == process.id;
        assert(self.wallet.storage.processes()[w] == process);
        assert(self.wallet.storage.processes().contains(process));
        let unpaid = (process.sequence_no - process.rfp_sequence_no) as u128;
        let amount = match unpaid.checked_mul(self.main_file.chunk_price) {
            Some(a) => a,
            None => {
                return None;
            },
        };
        match self.wallet.process_outgoing_rfp(process.counterparty, amount) {
            Ok(receipt) => {
                let next = Process { awaiting_payment: true, waited_ticks: 0, ..process };
                self.wallet.storage.update_active_process(next);
                Some(FileExchangeRequest::Rfp { process_id: process.id, receipt })
            },
            Err(_) => None,
        }
    }

    /// One scheduler decision for the active transfer `process`: while a
    /// payment is awaited, one more tick of waiting, or, once
    /// `max_wait_ticks` have passed, the transfer is abandoned (removed,
    /// the ledger left as it is); the next chunk while the unpaid chunks
    /// stay below the credit window; completion (the transfer is removed)
    /// once the file is exhausted and everything is paid; otherwise a
    /// request for payment.
    pub fn step(&mut self, process: Process) -> (r: Option<FileExchangeRequest>)
        requires
            old(self).wf(),
            old(self).wallet.storage.process_for(process.id) == Some(process),
        ensures
            final(self).wallet.self_address == old(self).wallet.self_address,
            final(self).wallet.signing_key == old(self).wallet.signing_key,
            final(self).wf(),
            final(self).main_file == old(self).main_file,
            final(self).credit_window == old(self).credit_window,
            final(self).max_wait_ticks == old(self).max_wait_ticks,
            final(self).next_process_id == old(self).next_process_id,
            process.awaiting_payment ==> final(self).wallet.storage.receipt_for(
                process.counterparty@,
            ) == old(self).wallet.storage.receipt_for(process.counterparty@),
            old(self).step_outcome(process, final(self).wallet.storage.process_for(process.id)),
            !process.awaiting_payment && !old(self).can_send_chunk(process) && process.sequence_no
                != process.rfp_sequence_no ==> (final(self).wallet.storage.process_for(process.id)
                == Some(awaiting(process)) <==> old(self).rfp_succeeds(process)),
            r is Some <==> old(self).step_sends(process, final(self).wallet.storage.process_for(process.id)),
            r matches Some(m) ==> old(self).step_message(
                process,
                final(self).wallet.storage.process_for(process.id),
                m,
            ),
            ({
                let after = final(self).wallet.storage.process_for(process.id);
                let prior = prior_receipt(
                    old(self).wallet.storage,
                    old(self).wallet.self_address,
                    process.counterparty,
                );
                &&& !old(self).rfp_sent(process, after) ==> forall|u: Seq<u8>|
                    final(self).wallet.storage.receipt_for(u) == old(self).wallet.storage.receipt_for(u)
                &&& old(self).rfp_sent(process, after) ==> {
                    &&& r matches Some(m) && old(self).rfp_message(process, prior.receipt, m)
                        && final(self).wallet.storage.receipt_for(process.counterparty@) == Some(
                        m->Rfp_receipt,
                    )
                    &&& forall|u: Seq<u8>|
                        u != process.counterparty@ ==> final(self).wallet.storage.receipt_for(u)
                            == old(self).wallet.storage.receipt_for(u)
                }
            }),
            forall|id: u32| id != process.id ==> final(self).wallet.storage.process_for(id)
                == old(self).wallet.storage.process_for(id),
    {
        let ghost w = choose|i: int| 0 <= i < self.wallet.storage.processes().len() && (#[trigger] self.wallet.storage.processes()[i]).id == process.id;
        assert(self.wallet.storage.processes()[w] == process);
        assert(self.wallet.storage.processes().contains(process));
        if process.awaiting_payment {
            if process.waited_ticks >= self.max_wait_ticks {
                self.abandon(process.id);
            } else {
                let next = Process { waited_ticks: process.waited_ticks + 1, ..process };
                self.wallet.storage.update_active_process(next);
            }
            return None;
        }
        let unpaid = process.sequence_no - process.rfp_sequence_no;
        if unpaid < self.credit_window {
            let sent = self.send_chunk(process);
            if sent.is_some() {
                return sent;
            }
            if unpaid == 0 {
                self.abandon(process.id);
                return None;
            }
        }
        self.send_rfp(process)
    }

    /// Takes word from the transport that the `DataChunk` numbered
    /// `sequence_no` of transfer `process_id` could not be delivered. Where
    /// that chunk is the last one sent and is still unpaid, the transfer
    /// goes back to before it, so that the next tick sends it again
    /// (`true`); otherwise nothing changes (`false`).
    pub fn on_chunk_send_failed(&mut self, process_id: u32, sequence_no: usize) -> (r: bool)
        requires
            old(self).wf(),
        ensures
            final(self).wf(),
            final(self).main_file == old(self).main_file,
            final(self).credit_window == old(self).credit_window,
            final(self).max_wait_ticks == old(self).max_wait_ticks,
            final(self).next_process_id == old(self).next_process_id,
            ({
                let p = old(self).wallet.storage.process_for(process_id);
                let rolls_back = p is Some && !p->0.awaiting_payment && sequence_no + 1
                    == p->0.sequence_no && sequence_no >= p->0.rfp_sequence_no;
                &&& r == rolls_back
                &&& !rolls_back ==> *final(self) == *old(self)
                &&& rolls_back ==> {
                    &&& final(self).wallet.storage.process_for(process_id) == Some(
                        Process { sequence_no, ..p->0 },
                    )
                    &&& forall|id: u32| id != process_id ==> final(self).wallet.storage.process_for(id)
                        == old(self).wallet.storage.process_for(id)
                    &&& forall|u: Seq<u8>| final(self).wallet.storage.receipt_for(u)
                        == old(self).wallet.storage.receipt_for(u)
                }
            }),
    {
        let process = match self.wallet.storage.find_active_process(process_id) {
            Some(p) => p,
            None => {
                return false;
            },
        };
        if process.awaiting_payment || sequence_no >= process.sequence_no || sequence_no + 1
            != process.sequence_no || sequence_no < process.rfp_sequence_no {
            return false;
        }
        proof {
            self.wallet.storage.lemma_process_table();
        }
        let next = Process { sequence_no, ..process };
        self.wallet.storage.update_active_process(next);
        assert forall|p: Process| #[trigger] self.wallet.storage.processes().contains(p) implies within_window(
            p,
            self.credit_window as nat,
        ) && (p.id < self.next_process_id || self.next_process_id == u32::MAX) by {
            if p != next {
                assert(old(self).wallet.storage.processes().contains(p));
            } else {
                assert(old(self).wallet.storage.processes().contains(process));
            }
        }
        true
    }

    /// Removes transfer `process_id` from the active table; receipts stay
    /// as they are.
    pub fn abandon(&mut self, process_id: u32)
        requires
            old(self).wf(),
        ensures
            final(self).wallet.self_address == old(self).wallet.self_address,
            final(self).wallet.signing_key == old(self).wallet.signing_key,
            final(self).wf(),
            final(self).wallet.storage.process_for(process_id) is None,
            forall|id: u32| id != process_id ==> final(self).wallet.storage.process_for(id)
                == old(self).wallet.storage.process_for(id),
            forall|u: Seq<u8>| final(self).wallet.storage.receipt_for(u) == old(self).wallet.storage.receipt_for(u),
            final(self).main_file == old(self).main_file,
            final(self).credit_window == old(self).credit_window,
            final(self).max_wait_ticks == old(self).max_wait_ticks,
            final(self).next_process_id == old(self).next_process_id,
    {
        self.wallet.storage.remove_active_process(process_id);
        assert forall|p: Process| #[trigger] self.wallet.storage.processes().contains(p) implies within_window(
            p,
            self.credit_window as nat,
        ) && (p.id < self.next_process_id || self.next_process_id == u32::MAX) by {
            assert(old(self).wallet.storage.processes().contains(p));
        }
    }

    /// The receipt held with `user` when a sweep over `table` reaches entry
    /// `k`, where `decided` holds what became of each transfer: the receipt
    /// at the start of the sweep, debited once for each earlier transfer
    /// with `user` whose decision was a request for payment that went out.
    pub open spec fn receipt_at(&self, table: Seq<Process>, k: nat, user: Address, decided: Storage) -> Receipt
        decreases k,
    {
        if k == 0 || k > table.len() {
            prior_receipt(self.wallet.storage, self.wallet.self_address, user).receipt
        } else {
            let prev = self.receipt_at(table, (k - 1) as nat, user, decided);
            let q = table[k - 1];
            if q.counterparty@ == user@ && self.rfp_sent(q, decided.process_for(q.id)) {
                debit_of(prev, self.rfp_amount(q), self.wallet.self_address@)
            } else {
                prev
            }
        }
    }

    /// How many of the first `k` transfers of `table` send a message, where
    /// `decided` holds what became of each.
    pub open spec fn sends_before(&self, table: Seq<Process>, k: nat, decided: Storage) -> nat
        decreases k,
    {
        if k == 0 || k > table.len() {
            0
        } else {
            let q = table[k - 1];
            self.sends_before(table, (k - 1) as nat, decided) + if self.step_sends(
                q,
                decided.process_for(q.id),
            ) {
                1nat
            } else {
                0nat
            }
        }
    }

    proof fn lemma_sweep_prefix_stable(&self, table: Seq<Process>, k: nat, user: Address, s1: Storage, s2: Storage)
        requires
            k <= table.len(),
            forall|j: int| 0 <= j < k ==> s1.process_for((#[trigger] table[j]).id) == s2.process_for(table[j].id),
        ensures
            self.receipt_at(table, k, user, s1) == self.receipt_at(table, k, user, s2),
            self.sends_before(table, k, s1) == self.sends_before(table, k, s2),
        decreases k,
    {
        if k > 0 {
            self.lemma_sweep_prefix_stable(table, (k - 1) as nat, user, s1, s2);
            assert(s1.process_for(table[k - 1].id) == s2.process_for(table[k - 1].id));
        }
    }

    /// The scheduler's sweep: one decision (as `step_outcome` states it)
    /// for each transfer active when the sweep starts, in table order. The
    /// result holds the message of each transfer whose decision sends, in
    /// that order, and nothing else; each request for payment carries the
    /// receipt held with its peer at that point of the sweep, debited by
    /// the price of the unpaid chunks and signed by this node, and goes out
    /// exactly when that debit succeeds. Receipts change only through those
    /// requests. No transfer is added.
    #[verifier::rlimit(40)]
    pub fn tick(&mut self) -> (r: Vec<(Address, FileExchangeRequest)>)
        requires
            old(self).wf(),
        ensures
            final(self).wf(),
            final(self).main_file == old(self).main_file,
            final(self).credit_window == old(self).credit_window,
            final(self).max_wait_ticks == old(self).max_wait_ticks,
            final(self).next_process_id == old(self).next_process_id,
            final(self).wallet.self_address == old(self).wallet.self_address,
            ({
                let table = old(self).wallet.storage.processes();
                let fin = final(self).wallet.storage;
                &&& r@.len() == old(self).sends_before(table, table.len(), fin)
                &&& forall|k: int|
                    #![trigger table[k]]
                    0 <= k < table.len() ==> {
                        let p = table[k];
                        let after = fin.process_for(p.id);
                        let prior = old(self).receipt_at(table, k as nat, p.counterparty, fin);
                        &&& old(self).step_outcome(p, after)
                        &&& old(self).rfp_branch(p) ==> (after == Some(awaiting(p)) <==> (
                        old(self).rfp_amount(p) <= u128::MAX && old(self).wallet.debit_succeeds_on(
                            prior,
                            old(self).rfp_amount(p),
                        )))
                        &&& old(self).step_sends(p, after) ==> {
                            let m = r@[old(self).sends_before(table, k as nat, fin) as int];
                            &&& m.0 == p.counterparty
                            &&& old(self).step_message(p, after, m.1)
                            &&& old(self).rfp_sent(p, after) ==> old(self).rfp_message(p, prior, m.1)
                        }
                    }
                &&& forall|user: Address|
                    #![trigger prior_receipt(fin, old(self).wallet.self_address, user)]
                    prior_receipt(fin, old(self).wallet.self_address, user).receipt
                        == old(self).receipt_at(table, table.len(), user, fin)
                &&& forall|u: Seq<u8>|
                    #![trigger fin.receipt_for(u)]
                    (forall|k: int|
                        #![trigger table[k]]
                        0 <= k < table.len() ==> !(table[k].counterparty@ == u && old(self).rfp_sent(
                            table[k],
                            fin.process_for(table[k].id),
                        ))) ==> fin.receipt_for(u) == old(self).wallet.storage.receipt_for(u)
                &&& forall|id: u32|
                    #![trigger fin.process_for(id)]
                    fin.process_for(id) is Some ==> old(self).wallet.storage.process_for(id) is Some
            }),
    {
        let processes = self.wallet.storage.get_all_active_process();
        let ghost snap = processes@;
        proof {
            self.wallet.storage.lemma_process_table();
        }
        let mut out: Vec<(Address, FileExchangeRequest)> = Vec::new();
        let mut i: usize = 0;
        while i < processes.len()
            invariant
                0 <= i <= processes@.len(),
                snap == processes@,
                snap == old(self).wallet.storage.processes(),
                process_ids_unique(snap),
                self.wf(),
                self.main_file == old(self).main_file,
                self.credit_window == old(self).credit_window,
                self.next_process_id == old(self).next_process_id,
                self.max_wait_ticks == old(self).max_wait_ticks,
                self.wallet.self_address == old(self).wallet.self_address,
                self.wallet.signing_key == old(self).wallet.signing_key,
                out@.len() == old(self).sends_before(snap, i as nat, self.wallet.storage),
                forall|k: int|
                    i <= k < snap.len() ==> self.wallet.storage.process_for((#[trigger] snap[k]).id)
                        == Some(snap[k]),
                forall|k: int|
                    #![trigger snap[k]]
                    0 <= k < i ==> {
                        let p = snap[k];
                        let after = self.wallet.storage.process_for(p.id);
                        let prior = old(self).receipt_at(snap, k as nat, p.counterparty, self.wallet.storage);
                        &&& old(self).step_outcome(p, after)
                        &&& old(self).rfp_branch(p) ==> (after == Some(awaiting(p)) <==> (
                        old(self).rfp_amount(p) <= u128::MAX && old(self).wallet.debit_succeeds_on(
                            prior,
                            old(self).rfp_amount(p),
                        )))
                        &&& old(self).step_sends(p, after) ==> {
                            let m = out@[old(self).sends_before(snap, k as nat, self.wallet.storage) as int];
                            &&& old(self).sends_before(snap, k as nat, self.wallet.storage) < out@.len()
                            &&& m.0 == p.counterparty
                            &&& old(self).step_message(p, after, m.1)
                            &&& old(self).rfp_sent(p, after) ==> old(self).rfp_message(p, prior, m.1)
                        }
                    },
                forall|user: Address|
                    #![trigger prior_receipt(self.wallet.storage, old(self).wallet.self_address, user)]
                    prior_receipt(self.wallet.storage, old(self).wallet.self_address, user).receipt
                        == old(self).receipt_at(snap, i as nat, user, self.wallet.storage),
                forall|u: Seq<u8>|
                    #![trigger self.wallet.storage.receipt_for(u)]
                    (forall|k: int|
                        #![trigger snap[k]]
                        0 <= k < i ==> !(snap[k].counterparty@ == u && old(self).rfp_sent(
                            snap[k],
                            self.wallet.storage.process_for(snap[k].id),
                        ))) ==> self.wallet.storage.receipt_for(u) == old(self).wallet.storage.receipt_for(u),
                forall|id: u32|
                    #![trigger self.wallet.storage.process_for(id)]
                    self.wallet.storage.process_for(id) is Some
                        ==> old(self).wallet.storage.process_for(id) is Some,
            decreases processes@.len() - i,
        {
            let id = processes[i].id;
            let ghost before = self.wallet.storage;
            let ghost out_before = out@;
            let ghost seeder_before = *self;
            let p = match self.wallet.storage.find_active_process(id) {
                Some(p) => p,
                None => {
                    assert(self.wallet.storage.process_for(snap[i as int].id) == Some(snap[i as int]));
                    return out;
                },
            };
            assert(p == snap[i as int]);
            let sent = self.step(p);
            match sent {
                Some(m) => out.push((p.counterparty, m)),
                None => {},
            }
            proof {
                let cur = self.wallet.storage;
                let ii = i as int;
                assert forall|k: int| 0 <= k < snap.len() && k != ii implies cur.process_for(
                    (#[trigger] snap[k]).id,
                ) == before.process_for(snap[k].id) by {
                    assert(snap[k].id != snap[ii].id);
                }
                assert forall|user: Address| true implies old(self).receipt_at(snap, i as nat, user, cur)
                    == old(self).receipt_at(snap, i as nat, user, before) && old(self).sends_before(snap, i as nat, cur)
                    == old(self).sends_before(snap, i as nat, before) by {
                    old(self).lemma_sweep_prefix_stable(snap, i as nat, user, cur, before);
                }
                assert forall|k: int| 0 <= k < ii implies old(self).receipt_at(snap, k as nat, (#[trigger] snap[k]).counterparty, cur)
                    == old(self).receipt_at(snap, k as nat, snap[k].counterparty, before) && old(self).sends_before(snap, k as nat, cur)
                    == old(self).sends_before(snap, k as nat, before) by {
                    old(self).lemma_sweep_prefix_stable(snap, k as nat, snap[k].counterparty, cur, before);
                }
                let c = p.counterparty;
                let after = cur.process_for(p.id);
                assert(old(self).receipt_at(snap, (i + 1) as nat, c, cur) == if old(self).rfp_sent(p, after) {
                    debit_of(old(self).receipt_at(snap, i as nat, c, cur), old(self).rfp_amount(p), old(self).wallet.self_address@)
                } else {
                    old(self).receipt_at(snap, i as nat, c, cur)
                });
                assert(prior_receipt(before, old(self).wallet.self_address, c).receipt
                    == old(self).receipt_at(snap, i as nat, c, before));
                assert forall|user: Address|
                    #![trigger prior_receipt(cur, old(self).wallet.self_address, user)]
                    true implies prior_receipt(cur, old(self).wallet.self_address, user).receipt
                        == old(self).receipt_at(snap, (i + 1) as nat, user, cur) by {
                    assert(prior_receipt(before, old(self).wallet.self_address, user).receipt
                        == old(self).receipt_at(snap, i as nat, user, before));
                    old(self).lemma_sweep_prefix_stable(snap, i as nat, user, cur, before);
                    if user@ == c@ {
                        lemma_address_eq(user, c);
                    }
                }
                assert forall|k: int|
                    #![trigger snap[k]]
                    0 <= k < ii + 1 implies {
                        let q = snap[k];
                        let aq = cur.process_for(q.id);
                        let prior = old(self).receipt_at(snap, k as nat, q.counterparty, cur);
                        &&& old(self).step_outcome(q, aq)
                        &&& old(self).rfp_branch(q) ==> (aq == Some(awaiting(q)) <==> (
                        old(self).rfp_amount(q) <= u128::MAX && old(self).wallet.debit_succeeds_on(
                            prior,
                            old(self).rfp_amount(q),
                        )))
                        &&& old(self).step_sends(q, aq) ==> {
                            let m = out@[old(self).sends_before(snap, k as nat, cur) as int];
                            &&& old(self).sends_before(snap, k as nat, cur) < out@.len()
                            &&& m.0 == q.counterparty
                            &&& old(self).step_message(q, aq, m.1)
                            &&& old(self).rfp_sent(q, aq) ==> old(self).rfp_message(q, prior, m.1)
                        }
                    } by {
                    if k < ii {
                        let idx = old(self).sends_before(snap, k as nat, before) as int;
                        if old(self).step_sends(snap[k], before.process_for(snap[k].id)) {
                            assert(out@[idx] == out_before[idx]);
                        }
                    } else {
                        assert(k == ii);
                    }
                }
                assert forall|u: Seq<u8>|
                    #![trigger cur.receipt_for(u)]
                    (forall|k: int|
                        #![trigger snap[k]]
                        0 <= k < ii + 1 ==> !(snap[k].counterparty@ == u && old(self).rfp_sent(
                            snap[k],
                            cur.process_for(snap[k].id),
                        ))) implies cur.receipt_for(u) == old(self).wallet.storage.receipt_for(u) by {
                    assert(!(snap[ii].counterparty@ == u && old(self).rfp_sent(snap[ii], after)));
                    assert forall|k: int| #![trigger snap[k]] 0 <= k < ii implies !(snap[k].counterparty@ == u
                        && old(self).rfp_sent(snap[k], before.process_for(snap[k].id))) by {
                        assert(cur.process_for(snap[k].id) == before.process_for(snap[k].id));
                    }
                }
                assert forall|x: u32| #![trigger cur.process_for(x)] cur.process_for(x) is Some
                    implies old(self).wallet.storage.process_for(x) is Some by {
                    if x != id {
                        assert(before.process_for(x) is Some);
                    }
                }
            }
            i = i + 1;
        }
        out
    }

    /// Accepts a request for the file from `requester`: a new transfer with
    /// nothing sent is stored under a fresh id and answered by `IWillSeed`.
    /// Refused (`None`, nothing stored) when the file is empty or the ids
    /// are used up.
    pub fn process_file_request(&mut self, requester_address: Address) -> (r: Option<
        FileExchangeRequest,
    >)
        requires
            old(self).wf(),
        ensures
            final(self).wf(),
            final(self).main_file == old(self).main_file,
            final(self).credit_window == old(self).credit_window,
            final(self).max_wait_ticks == old(self).max_wait_ticks,
            r is Some <==> (old(self).main_file.file@.len() > 0 && old(self).next_process_id
                < u32::MAX),
            r is None ==> *final(self) == *old(self),
            r is Some ==> {
                let id = old(self).next_process_id;
                &&& old(self).main_file.file@.len() > 0
                &&& r matches Some(FileExchangeRequest::IWillSeed { process_id, self_address })
                    && process_id == id && self_address == old(self).wallet.self_address
                &&& old(self).wallet.storage.process_for(id) is None
                &&& final(self).wallet.storage.process_for(id) == Some(
                    Process::new_spec(id, requester_address, Role::Seeder),
                )
                &&& forall|other: u32| other != id ==> final(self).wallet.storage.process_for(other)
                    == old(self).wallet.storage.process_for(other)
                &&& final(self).next_process_id == id + 1
            },
    {
        // The eligibility of the requester (a proof that it may receive the
        // file) would be checked here; every requester is eligible so far.
        if self.main_file.file.len() == 0 || self.next_process_id == u32::MAX {
            return None;
        }
        let id = self.next_process_id;
        assert(self.wallet.storage.process_for(id) is None) by {
            if exists|i: int| 0 <= i < self.wallet.storage.processes().len() && (#[trigger] self.wallet.storage.processes()[i]).id == id {
                let i = choose|i: int| 0 <= i < self.wallet.storage.processes().len() && (#[trigger] self.wallet.storage.processes()[i]).id == id;
                assert(self.wallet.storage.processes().contains(self.wallet.storage.processes()[i]));
            }
        }
        let process = Process::new(id, requester_address, Role::Seeder);
        self.wallet.storage.update_active_process(process);
        self.next_process_id = id + 1;
        assert forall|p: Process| #[trigger] self.wallet.storage.processes().contains(p) implies within_window(
            p,
            self.credit_window as nat,
        ) && (p.id < self.next_process_id || self.next_process_id == u32::MAX) by {
            if p != process {
                assert(old(self).wallet.storage.processes().contains(p));
            }
        }
        Some(FileExchangeRequest::IWillSeed { process_id: id, self_address: self.wallet.self_address })
    }

    /// Takes the requester's confirmation of payment for transfer
    /// `process_id`. Accepted (`Ack`) only while that transfer awaits
    /// payment, when `receipt` holds exactly the receipt the seeder proposed
    /// and both of its signatures verify: the receipt is stored and every
    /// chunk sent so far counts as paid. Otherwise `Bad`, and nothing changes.
    pub fn on_rfp_confirmed(&mut self, process_id: u32, receipt: ReceiptWithSignatures) -> (r:
        FileExchangeResponse)
        requires
            old(self).wf(),
        ensures
            final(self).wf(),
            final(self).main_file == old(self).main_file,
            final(self).credit_window == old(self).credit_window,
            final(self).max_wait_ticks == old(self).max_wait_ticks,
            final(self).next_process_id == old(self).next_process_id,
            r == FileExchangeResponse::Bad ==> *final(self) == *old(self),
            ({
                let p = old(self).wallet.storage.process_for(process_id);
                let accepted = old(self).confirmation_accepted(process_id, receipt);
                &&& (r == FileExchangeResponse::Ack) == accepted
                &&& accepted ==> {
                    &&& final(self).wallet.storage.process_for(process_id) == Some(reconciled(p->0))
                    &&& final(self).wallet.storage.receipt_for(p->0.counterparty@) == Some(receipt)
                    &&& forall|id: u32| id != process_id ==> final(self).wallet.storage.process_for(id)
                        == old(self).wallet.storage.process_for(id)
                }
            }),
    {
        let process = match self.wallet.storage.find_active_process(process_id) {
            Some(p) => p,
            None => {
                return FileExchangeResponse::Bad;
            },
        };
        if !process.awaiting_payment {
            return FileExchangeResponse::Bad;
        }
        let proposed = match self.wallet.storage.find_active_receipt(&process.counterparty) {
            Some(rc) => rc,
            None => {
                return FileExchangeResponse::Bad;
            },
        };
        if !same_receipt_exec(&proposed.receipt, &receipt.receipt) {
            return FileExchangeResponse::Bad;
        }
        if !receipt.validate_signatures() {
            return FileExchangeResponse::Bad;
        }
        let ghost w = choose|i: int| 0 <= i < self.wallet.storage.processes().len() && (#[trigger] self.wallet.storage.processes()[i]).id == process_id;
        assert(self.wallet.storage.processes()[w] == process);
        assert(self.wallet.storage.processes().contains(process));
        self.wallet.storage.store_active_receipt(&process.counterparty, &receipt);
        let next = Process { rfp_sequence_no: process.sequence_no, awaiting_payment: false, ..process };
        self.wallet.storage.update_active_process(next);
        FileExchangeResponse::Ack
    }

    /// Dispatches a request from a requester: `IWant` starts a transfer,
    /// `RfpC` confirms a payment; any other request is out of protocol for a
    /// seeder. Returns the response and the request to send back, if any.
    pub fn handle_network_event(&mut self, request: FileExchangeRequest) -> (r: (
        FileExchangeResponse,
        Option<FileExchangeRequest>,
    ))
        requires
            old(self).wf(),
        ensures
            final(self).wf(),
            final(self).main_file == old(self).main_file,
            final(self).credit_window == old(self).credit_window,
            final(self).max_wait_ticks == old(self).max_wait_ticks,
            r.0 == FileExchangeResponse::Bad ==> *final(self) == *old(self) && r.1 is None,
            !(request is IWant || request is RfpC) ==> r.0 == FileExchangeResponse::Bad,
            request is IWant ==> (r.0 == FileExchangeResponse::Ack) == (old(self).main_file.file@.len()
                > 0 && old(self).next_process_id < u32::MAX),
            request is IWant && r.0 == FileExchangeResponse::Ack ==> (r.1 matches Some(
                FileExchangeRequest::IWillSeed { process_id, self_address },
            ) && process_id == old(self).next_process_id && self_address == old(self).wallet.self_address),
            request matches FileExchangeRequest::RfpC { process_id, receipt } ==> {
                &&& (r.0 == FileExchangeResponse::Ack) == old(self).confirmation_accepted(
                    process_id,
                    receipt,
                )
                &&& r.1 is None
                &&& r.0 == FileExchangeResponse::Ack ==> {
                    let p = old(self).wallet.storage.process_for(process_id)->0;
                    &&& final(self).wallet.storage.process_for(process_id) == Some(reconciled(p))
                    &&& final(self).wallet.storage.receipt_for(p.counterparty@) == Some(receipt)
                    &&& forall|id: u32| id != process_id ==> final(self).wallet.storage.process_for(id)
                        == old(self).wallet.storage.process_for(id)
                    &&& !final(self).confirmation_accepted(process_id, receipt)
                }
            },
            request is IWant && r.0 == FileExchangeResponse::Ack ==> {
                let id = old(self).next_process_id;
                &&& final(self).wallet.storage.process_for(id) == Some(
                    Process::new_spec(id, request->IWant_self_address, Role::Seeder),
                )
                &&& forall|other: u32| other != id ==> final(self).wallet.storage.process_for(other)
                    == old(self).wallet.storage.process_for(other)
            },
    {
        match request {
            FileExchangeRequest::IWant { self_address } => {
                match self.process_file_request(self_address) {
                    Some(reply) => (FileExchangeResponse::Ack, Some(reply)),
                    None => (FileExchangeResponse::Bad, None),
                }
            },
            FileExchangeRequest::RfpC { process_id, receipt } => {
                (self.on_rfp_confirmed(process_id, receipt), None)
            },
            _ => (FileExchangeResponse::Bad, None),
        }
    }
}

/// Replaying a confirmation of payment: once a confirmation for a
/// transfer has been taken, that transfer no longer awaits payment, so the
/// same confirmation (or any other) is refused until a new request for
/// payment goes out; the paid watermark and the ledger move only once.
pub proof fn lemma_confirmation_not_replayed(
    before: FileSeeder,
    after: FileSeeder,
    process_id: u32,
    receipt: ReceiptWithSignatures,
)
    requires
        before.confirmation_accepted(process_id, receipt),
        after.wallet.storage.process_for(process_id) == Some(
            reconciled(before.wallet.storage.process_for(process_id)->0),
        ),
    ensures
        !after.confirmation_accepted(process_id, receipt),
        after.wallet.storage.process_for(process_id)->0.rfp_sequence_no
            == before.wallet.storage.process_for(process_id)->0.sequence_no,
{
}

} // verus!
