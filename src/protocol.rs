use crate::address::Address;
use crate::receipt::ReceiptWithSignatures;
use vstd::prelude::*;

verus! {

/// The request/response protocol by which peers exchange file chunks.
#[derive(Clone, Copy, Debug)]
pub struct FileExchangeProtocol;

impl FileExchangeProtocol {
    /// The identifier that selects this protocol on a connection.
    pub fn protocol_name(&self) -> (r: &'static str)
        ensures
            r@ == "/dse/file-exchange/0.1"@,
    {
        "/dse/file-exchange/0.1"
    }
}

/// The requests exchanged between a seeder and a requester.
#[derive(Debug)]
pub enum FileExchangeRequest {
    /// The requester `self_address` wants the file.
    IWant { self_address: Address },
    /// The seeder `self_address` accepts and names the transfer.
    IWillSeed { process_id: u32, self_address: Address },
    /// Chunk number `sequence_no`, with the seeder's paid watermark.
    DataChunk { process_id: u32, sequence_no: usize, rfp_sequence_no: usize, chunks: Vec<u8> },
    /// The seeder's request for payment, with its signed receipt update.
    Rfp { process_id: u32, receipt: ReceiptWithSignatures },
    /// The requester's confirmation, with the receipt signed by both.
    RfpC { process_id: u32, receipt: ReceiptWithSignatures },
}

/// The immediate answer to a request.
#[derive(Clone, Copy, Debug, PartialEq, Eq, Structural)]
pub enum FileExchangeResponse {
    /// The request was accepted for processing.
    Ack,
    /// The request was malformed or out of protocol and had no effect.
    Bad,
}

} // verus!
