use crate::address::Address;
use crate::process::{within_window, Process, Role};
use crate::protocol::{FileExchangeRequest, FileExchangeResponse};
use crate::receipt::{fully_signed, receipt_message, ReceiptWithSignatures};
use crate::signing::signature_of;
use crate::wallet::{counterparty_signed, prior_receipt, valid_debit, Wallet};
use vstd::prelude::*;

verus! {

/// The requester side of the transfer engine: downloads one file from one
/// seeder, taking chunks strictly in order and paying for them when asked.
pub struct FileRequester {
    pub wallet: Wallet,
    pub seeder_address: Address,
    pub chunk_price: u128,
    pub credit_window: usize,
    pub process: Option<Process>,
    /// The bytes received so far, in order.
    pub received: Vec<u8>,
}

impl FileRequester {
    /// The ledger is well formed and the transfer, once started, keeps its
    /// unpaid chunks within the credit window.
    pub open spec fn wf(&self) -> bool {
        &&& self.wallet.wf()
        &&& self.credit_window > 0
        &&& self.process matches Some(p) ==> within_window(p, self.credit_window as nat)
    }

    /// Chunk `sequence_no` of transfer `process_id`, sent with the paid
    /// watermark `rfp_sequence_no`, is the next one expected and within the
    /// credit window.
    pub open spec fn chunk_acceptable(&self, process_id: u32, sequence_no: usize, rfp_sequence_no: usize) -> bool {
        &&& self.process matches Some(p)
        &&& p.id == process_id
        &&& sequence_no == p.sequence_no
        &&& rfp_sequence_no == p.rfp_sequence_no
        &&& p.sequence_no - p.rfp_sequence_no < self.credit_window
        &&& p.sequence_no < usize::MAX
    }

    /// The value of the chunks received since the last payment.
    pub open spec fn unpaid_value(&self) -> int {
        (self.process->0.sequence_no - self.process->0.rfp_sequence_no) * self.chunk_price
    }

    /// A request for payment `receipt` on transfer `process_id` is in order:
    /// chunks are unpaid, their value fits the amount type, the node can pay
    /// it, `receipt` raises this node's debt to the seeder by exactly that
    /// value, and the seeder signed it.
    pub open spec fn rfp_acceptable(&self, process_id: u32, receipt: ReceiptWithSignatures) -> bool {
        let prior = prior_receipt(self.wallet.storage, self.wallet.self_address, self.seeder_address);
        &&& self.process matches Some(p)
        &&& p.id == process_id
        &&& p.sequence_no > p.rfp_sequence_no
        &&& self.unpaid_value() <= u128::MAX
        &&& self.wallet.solvent_after(self.unpaid_value())
        &&& valid_debit(prior.receipt, receipt.receipt, self.unpaid_value(), self.wallet.self_address@)
        &&& counterparty_signed(receipt, self.wallet.self_address@)
    }

    /// A requester that will fetch a file from `seeder_address` at
    /// `chunk_price` per chunk, with nothing received yet.
    pub fn new(wallet: Wallet, seeder_address: Address, chunk_price: u128, credit_window: usize) -> (r:
        FileRequester)
        requires
            wallet.wf(),
            credit_window > 0,
        ensures
            r.wf(),
            r.wallet == wallet,
            r.seeder_address == seeder_address,
            r.chunk_price == chunk_price,
            r.credit_window == credit_window,
            r.process is None,
            r.received@.len() == 0,
    {
        FileRequester {
            wallet,
            seeder_address,
            chunk_price,
            credit_window,
            process: None,
            received: Vec::new(),
        }
    }

    /// The request that asks the seeder for the file.
    pub fn request_file(&self) -> (r: FileExchangeRequest)
        ensures
            r matches FileExchangeRequest::IWant { self_address } && self_address
                == self.wallet.self_address,
    {
        FileExchangeRequest::IWant { self_address: self.wallet.self_address }
    }

    /// Takes the seeder's acceptance: where no transfer has started and the
    /// acceptance comes from the expected seeder, starts transfer
    /// `process_id` with nothing received (`Ack`); otherwise `Bad`, and
    /// nothing changes.
    pub fn on_i_will_seed(&mut self, process_id: u32, seeder: Address) -> (r: FileExchangeResponse)
        requires
            old(self).wf(),
        ensures
            final(self).wf(),
            (r == FileExchangeResponse::Ack) == (old(self).process is None && seeder@
                == old(self).seeder_address@),
            r == FileExchangeResponse::Bad ==> *final(self) == *old(self),
            r == FileExchangeResponse::Ack ==> *final(self) == (FileRequester {
                process: Some(Process {
                    id: process_id,
                    counterparty: old(self).seeder_address,
                    role: Role::Requester,
                    sequence_no: 0,
                    rfp_sequence_no: 0,
                    awaiting_payment: false,
                    waited_ticks: 0,
                }),
                ..*old(self)
            }),
    {
        if self.process.is_some() || !seeder.same_as(&self.seeder_address) {
            return FileExchangeResponse::Bad;
        }
        self.process = Some(Process::new(process_id, self.seeder_address, Role::Requester));
        FileExchangeResponse::Ack
    }

    /// Takes chunk `sequence_no` of transfer `process_id`. Accepted (`Ack`)
    /// only when it is the next chunk expected, the seeder's paid watermark
    /// agrees with ours and the seeder stays within the credit window: the
    /// bytes are appended and one more chunk counts as received. Otherwise
    /// `Bad`, and nothing changes.
    pub fn on_data_chunk(
        &mut self,
        process_id: u32,
        sequence_no: usize,
        rfp_sequence_no: usize,
        chunks: Vec<u8>,
    ) -> (r: FileExchangeResponse)
        requires
            old(self).wf(),
        ensures
            final(self).wf(),
            ({
                let accepted = old(self).chunk_acceptable(process_id, sequence_no, rfp_sequence_no);
                &&& (r == FileExchangeResponse::Ack) == accepted
                &&& !accepted ==> *final(self) == *old(self)
                &&& accepted ==> {
                    &&& final(self).process == Some(
                        Process { sequence_no: (sequence_no + 1) as usize, ..old(self).process->0 },
                    )
                    &&& final(self).received@ == old(self).received@ + chunks@
                    &&& final(self).wallet == old(self).wallet
                }
            }),
    {
        let p = match self.process {
            Some(p) => p,
            None => {
                return FileExchangeResponse::Bad;
            },
        };
        if p.id != process_id || sequence_no != p.sequence_no || rfp_sequence_no != p.rfp_sequence_no
            || p.sequence_no - p.rfp_sequence_no >= self.credit_window || p.sequence_no
            == usize::MAX {
            return FileExchangeResponse::Bad;
        }
        let mut i: usize = 0;
        let ghost before = self.received@;
        while i < chunks.len()
            invariant
                0 <= i <= chunks@.len(),
                self.received@ == before + chunks@.subrange(0, i as int),
                self.wallet == old(self).wallet,
                self.process == old(self).process,
                self.seeder_address == old(self).seeder_address,
                self.chunk_price == old(self).chunk_price,
                self.credit_window == old(self).credit_window,
            decreases chunks@.len() - i,
        {
            self.received.push(chunks[i]);
            assert(chunks@.subrange(0, i + 1) =~= chunks@.subrange(0, i as int).push(chunks@[i as int]));
            i = i + 1;
        }
        assert(chunks@.subrange(0, chunks@.len() as int) =~= chunks@);
        self.process = Some(Process { sequence_no: p.sequence_no + 1, ..p });
        FileExchangeResponse::Ack
    }

    /// Takes the seeder's request for payment on transfer `process_id`: the
    /// chunks received since the last payment are worth
    /// `(sequence_no - rfp_sequence_no) * chunk_price`, and the ledger must
    /// accept `receipt` as that debit towards the seeder. Then every chunk
    /// received counts as paid and the confirmation `RfpC` carries the
    /// receipt signed by both. Otherwise `Bad`, and nothing changes.
    pub fn on_rfp(&mut self, process_id: u32, receipt: ReceiptWithSignatures) -> (r: (
        FileExchangeResponse,
        Option<FileExchangeRequest>,
    ))
        requires
            old(self).wf(),
        ensures
            final(self).wf(),
            r.0 == FileExchangeResponse::Bad ==> *final(self) == *old(self) && r.1 is None,
            r.0 == FileExchangeResponse::Ack ==> {
                let p = old(self).process->0;
                &&& old(self).process is Some
                &&& p.id == process_id
                &&& p.sequence_no > p.rfp_sequence_no
                &&& final(self).process == Some(Process { rfp_sequence_no: p.sequence_no, ..p })
                &&& final(self).received == old(self).received
                &&& final(self).wallet.total_owes == old(self).wallet.total_owes + (p.sequence_no
                    - p.rfp_sequence_no) * old(self).chunk_price
                &&& r.1 matches Some(FileExchangeRequest::RfpC { process_id: id, receipt: signed })
                    && id == process_id && signed.receipt == receipt.receipt
                    && final(self).wallet.storage.receipt_for(old(self).seeder_address@) == Some(signed)
            },
            r.0 == FileExchangeResponse::Ack ==> old(self).rfp_acceptable(process_id, receipt),
            !old(self).rfp_acceptable(process_id, receipt) ==> r.0 == FileExchangeResponse::Bad,
            old(self).rfp_acceptable(process_id, receipt) && signature_of(
                old(self).wallet.signing_key@,
                receipt_message(receipt.receipt),
            ) is Some ==> r.0 == FileExchangeResponse::Ack,
            r.1 matches Some(FileExchangeRequest::RfpC { receipt: signed, .. }) ==> fully_signed(signed),
    {
        let p = match self.process {
            Some(p) => p,
            None => {
                return (FileExchangeResponse::Bad, None);
            },
        };
        if p.id != process_id || p.sequence_no <= p.rfp_sequence_no {
            return (FileExchangeResponse::Bad, None);
        }
        let unpaid = (p.sequence_no - p.rfp_sequence_no) as u128;
        let amount = match unpaid.checked_mul(self.chunk_price) {
            Some(a) => a,
            None => {
                return (FileExchangeResponse::Bad, None);
            },
        };
        let seeder = self.seeder_address;
        match self.wallet.process_incoming_rfp(seeder, amount, receipt) {
            Ok(signed) => {
                self.process = Some(Process { rfp_sequence_no: p.sequence_no, ..p });
                (
                    FileExchangeResponse::Ack,
                    Some(FileExchangeRequest::RfpC { process_id, receipt: signed }),
                )
            },
            Err(_) => (FileExchangeResponse::Bad, None),
        }
    }

    /// Dispatches a request from the seeder: `IWillSeed`, `DataChunk` and
    /// `Rfp` are handled as above; any other request is out of protocol for
    /// a requester. Returns the response and the request to send back, if any.
    pub fn handle_network_event(&mut self, request: FileExchangeRequest) -> (r: (
        FileExchangeResponse,
        Option<FileExchangeRequest>,
    ))
        requires
            old(self).wf(),
        ensures
            final(self).wf(),
            r.0 == FileExchangeResponse::Bad ==> *final(self) == *old(self),
            (request is IWant || request is RfpC) ==> r.0 == FileExchangeResponse::Bad,
            request matches FileExchangeRequest::IWillSeed { process_id, self_address } ==> (r.0
                == FileExchangeResponse::Ack) == (old(self).process is None && self_address@
                == old(self).seeder_address@),
            request matches FileExchangeRequest::DataChunk { process_id, sequence_no, rfp_sequence_no, chunks } ==> (
            r.0 == FileExchangeResponse::Ack) == old(self).chunk_acceptable(
                process_id,
                sequence_no,
                rfp_sequence_no,
            ),
            request matches FileExchangeRequest::Rfp { process_id, receipt } ==> {
                &&& r.0 == FileExchangeResponse::Ack ==> old(self).rfp_acceptable(process_id, receipt)
                &&& !old(self).rfp_acceptable(process_id, receipt) ==> r.0 == FileExchangeResponse::Bad
                &&& old(self).rfp_acceptable(process_id, receipt) && signature_of(
                    old(self).wallet.signing_key@,
                    receipt_message(receipt.receipt),
                ) is Some ==> r.0 == FileExchangeResponse::Ack
                &&& r.0 == FileExchangeResponse::Ack ==> {
                    let p = old(self).process->0;
                    &&& final(self).process == Some(Process { rfp_sequence_no: p.sequence_no, ..p })
                    &&& final(self).received == old(self).received
                    &&& final(self).wallet.total_owes == old(self).wallet.total_owes
                        + old(self).unpaid_value()
                    &&& r.1 matches Some(FileExchangeRequest::RfpC { process_id: id, receipt: signed })
                        && id == process_id && signed.receipt == receipt.receipt && fully_signed(signed)
                        && final(self).wallet.storage.receipt_for(old(self).seeder_address@) == Some(
                        signed,
                    )
                }
            },
            request is DataChunk && old(self).chunk_acceptable(
                request->DataChunk_process_id,
                request->DataChunk_sequence_no,
                request->DataChunk_rfp_sequence_no,
            ) ==> {
                &&& final(self).process == Some(
                    Process {
                        sequence_no: (request->DataChunk_sequence_no + 1) as usize,
                        ..old(self).process->0
                    },
                )
                &&& final(self).received@ == old(self).received@ + request->DataChunk_chunks@
                &&& final(self).wallet == old(self).wallet
            },
            request is IWillSeed && r.0 == FileExchangeResponse::Ack ==> final(self).process == Some(
                Process::new_spec(
                    request->IWillSeed_process_id,
                    old(self).seeder_address,
                    Role::Requester,
                ),
            ),
    {
        match request {
            FileExchangeRequest::IWillSeed { process_id, self_address } => {
                (self.on_i_will_seed(process_id, self_address), None)
            },
            FileExchangeRequest::DataChunk { process_id, sequence_no, rfp_sequence_no, chunks } => {
                (self.on_data_chunk(process_id, sequence_no, rfp_sequence_no, chunks), None)
            },
            FileExchangeRequest::Rfp { process_id, receipt } => self.on_rfp(process_id, receipt),
            _ => (FileExchangeResponse::Bad, None),
        }
    }
}

} // verus!
