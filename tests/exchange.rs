use dse::address::Address;
use dse::process::{Process, Role};
use dse::protocol::{FileExchangeProtocol, FileExchangeRequest, FileExchangeResponse};
use dse::receipt::{Receipt, ReceiptWithSignatures, Signature, Status};
use dse::requester::FileRequester;
use dse::seeder::{File, FileSeeder};
use dse::wallet::{LedgerError, SigningKey, Wallet};

fn key(n: u8) -> [u8; 32] {
    let mut k = [0u8; 32];
    k[31] = n;
    k
}

fn address_of(k: [u8; 32]) -> Address {
    let wallet = ethers::signers::LocalWallet::from_bytes(&k).unwrap();
    Address::new(ethers::signers::Signer::address(&wallet).0)
}

fn wallet_for(n: u8, balance: u128) -> Wallet {
    let wallet = Wallet::new(SigningKey::new(key(n)), balance).unwrap();
    assert!(wallet.self_address == address_of(key(n)));
    wallet
}

fn content(len: usize) -> Vec<u8> {
    (0..len).map(|i| (i % 251) as u8).collect()
}

fn seeder_with(len: usize, chunk_size: usize, chunk_price: u128, window: usize) -> FileSeeder {
    let file = File { id: 7, chunk_size, chunk_price, file: content(len) };
    FileSeeder::new(wallet_for(1, 0), file, window, 3)
}

fn requester_for(seeder: &FileSeeder, chunk_price: u128, window: usize, balance: u128) -> FileRequester {
    FileRequester::new(wallet_for(2, balance), seeder.wallet.self_address, chunk_price, window)
}

/// Runs the exchange until the seeder has nothing left to do; returns the
/// number of payment cycles.
fn run_transfer(seeder: &mut FileSeeder, requester: &mut FileRequester) -> usize {
    let want = requester.request_file();
    let (resp, reply) = seeder.handle_network_event(want);
    assert_eq!(resp, FileExchangeResponse::Ack);
    let (resp, _) = requester.handle_network_event(reply.unwrap());
    assert_eq!(resp, FileExchangeResponse::Ack);
    let mut rfps = 0;
    for _ in 0..100 {
        let out = seeder.tick();
        if out.is_empty() && seeder.wallet.storage.get_all_active_process().is_empty() {
            break;
        }
        for (peer, msg) in out {
            assert!(peer == requester.wallet.self_address);
            if matches!(msg, FileExchangeRequest::Rfp { .. }) {
                rfps += 1;
            }
            let (resp, reply) = requester.handle_network_event(msg);
            assert_eq!(resp, FileExchangeResponse::Ack);
            if let Some(reply) = reply {
                let (resp, _) = seeder.handle_network_event(reply);
                assert_eq!(resp, FileExchangeResponse::Ack);
            }
        }
    }
    rfps
}

#[test]
fn full_transfer_reassembles_and_pays() {
    let mut seeder = seeder_with(3000, 1024, 10, 1);
    let mut requester = requester_for(&seeder, 10, 1, 1000);
    let rfps = run_transfer(&mut seeder, &mut requester);
    assert_eq!(rfps, 3);
    assert_eq!(requester.received, content(3000));
    assert_eq!(requester.wallet.total_owes, 30);
    let p = requester.process.unwrap();
    assert_eq!((p.sequence_no, p.rfp_sequence_no), (3, 3));
    let stored = seeder.wallet.storage.find_active_receipt(&requester.wallet.self_address).unwrap();
    let owed_by_seeder_view = if stored.receipt.a_address == requester.wallet.self_address {
        stored.receipt.a_owes
    } else {
        stored.receipt.b_owes
    };
    assert_eq!(owed_by_seeder_view, 30);
    assert!(stored.validate_signatures());
}

#[test]
fn wider_window_pays_two_chunks_at_once() {
    let mut seeder = seeder_with(5000, 1000, 3, 2);
    let mut requester = requester_for(&seeder, 3, 2, 1000);
    let rfps = run_transfer(&mut seeder, &mut requester);
    assert_eq!(rfps, 3);
    assert_eq!(requester.received, content(5000));
    assert_eq!(requester.wallet.total_owes, 15);
}

#[test]
fn chunks_have_expected_lengths() {
    let seeder = seeder_with(3000, 1024, 10, 1);
    assert_eq!(seeder.read_chunk_at_index(0).unwrap().len(), 1024);
    assert_eq!(seeder.read_chunk_at_index(1).unwrap().len(), 1024);
    let last = seeder.read_chunk_at_index(2).unwrap();
    assert_eq!(last.len(), 952);
    assert_eq!(last, content(3000)[2048..].to_vec());
    assert!(seeder.read_chunk_at_index(3).is_none());
    assert!(seeder.read_chunk_at_index(usize::MAX).is_none());
}

#[test]
fn empty_file_is_refused() {
    let mut seeder = seeder_with(0, 1024, 10, 1);
    let requester_address = address_of(key(2));
    let (resp, reply) =
        seeder.handle_network_event(FileExchangeRequest::IWant { self_address: requester_address });
    assert_eq!(resp, FileExchangeResponse::Bad);
    assert!(reply.is_none());
    assert!(seeder.wallet.storage.get_all_active_process().is_empty());
}

#[test]
fn stale_or_duplicate_chunk_is_rejected() {
    let seeder = seeder_with(3000, 1024, 10, 2);
    let mut requester = requester_for(&seeder, 10, 2, 1000);
    assert_eq!(requester.on_i_will_seed(0, seeder.wallet.self_address), FileExchangeResponse::Ack);
    assert_eq!(requester.on_data_chunk(0, 0, 0, vec![1, 2, 3]), FileExchangeResponse::Ack);
    // duplicate of chunk 0
    assert_eq!(requester.on_data_chunk(0, 0, 0, vec![1, 2, 3]), FileExchangeResponse::Bad);
    // skips ahead
    assert_eq!(requester.on_data_chunk(0, 2, 0, vec![9]), FileExchangeResponse::Bad);
    // wrong transfer
    assert_eq!(requester.on_data_chunk(5, 1, 0, vec![9]), FileExchangeResponse::Bad);
    // watermark disagrees
    assert_eq!(requester.on_data_chunk(0, 1, 1, vec![9]), FileExchangeResponse::Bad);
    assert_eq!(requester.received, vec![1, 2, 3]);
    assert_eq!(requester.process.unwrap().sequence_no, 1);
    assert_eq!(requester.on_data_chunk(0, 1, 0, vec![4]), FileExchangeResponse::Ack);
    // credit window of two is used up
    assert_eq!(requester.on_data_chunk(0, 2, 0, vec![5]), FileExchangeResponse::Bad);
    assert_eq!(requester.received, vec![1, 2, 3, 4]);
}

#[test]
fn chunk_before_acceptance_is_rejected() {
    let seeder = seeder_with(3000, 1024, 10, 1);
    let mut requester = requester_for(&seeder, 10, 1, 1000);
    assert_eq!(requester.on_data_chunk(0, 0, 0, vec![1]), FileExchangeResponse::Bad);
    assert!(requester.received.is_empty());
    assert_eq!(requester.on_i_will_seed(0, address_of(key(9))), FileExchangeResponse::Bad);
    assert!(requester.process.is_none());
}

#[test]
fn replayed_confirmation_is_refused() {
    let mut seeder = seeder_with(3000, 1024, 10, 1);
    let mut requester = requester_for(&seeder, 10, 1, 1000);
    let (_, reply) = seeder.handle_network_event(requester.request_file());
    requester.handle_network_event(reply.unwrap());
    let chunk = seeder.tick().pop().unwrap().1;
    requester.handle_network_event(chunk);
    let rfp = seeder.tick().pop().unwrap().1;
    assert!(matches!(rfp, FileExchangeRequest::Rfp { .. }));
    // an outstanding request for payment is not sent again
    assert!(seeder.tick().is_empty());
    let (_, confirmation) = requester.handle_network_event(rfp);
    let confirmation = confirmation.unwrap();
    let (process_id, receipt) = match &confirmation {
        FileExchangeRequest::RfpC { process_id, receipt } => (*process_id, *receipt),
        _ => panic!("expected a confirmation"),
    };
    assert_eq!(seeder.on_rfp_confirmed(process_id, receipt), FileExchangeResponse::Ack);
    let after = seeder.wallet.storage.find_active_process(process_id).unwrap();
    assert_eq!((after.sequence_no, after.rfp_sequence_no), (1, 1));
    assert_eq!(seeder.on_rfp_confirmed(process_id, receipt), FileExchangeResponse::Bad);
    let again = seeder.wallet.storage.find_active_process(process_id).unwrap();
    assert_eq!((again.sequence_no, again.rfp_sequence_no, again.awaiting_payment), (1, 1, false));
    assert_eq!(requester.wallet.total_owes, 10);
}

#[test]
fn altered_confirmation_is_refused() {
    let mut seeder = seeder_with(3000, 1024, 10, 1);
    let mut requester = requester_for(&seeder, 10, 1, 1000);
    let (_, reply) = seeder.handle_network_event(requester.request_file());
    requester.handle_network_event(reply.unwrap());
    let chunk = seeder.tick().pop().unwrap().1;
    requester.handle_network_event(chunk);
    let rfp = seeder.tick().pop().unwrap().1;
    let (_, confirmation) = requester.handle_network_event(rfp);
    let (process_id, mut receipt) = match confirmation.unwrap() {
        FileExchangeRequest::RfpC { process_id, receipt } => (process_id, receipt),
        _ => panic!("expected a confirmation"),
    };
    receipt.receipt.a_owes += 1;
    assert_eq!(seeder.on_rfp_confirmed(process_id, receipt), FileExchangeResponse::Bad);
    assert!(seeder.wallet.storage.find_active_process(process_id).unwrap().awaiting_payment);
}

#[test]
fn unsigned_confirmation_is_refused() {
    let mut seeder = seeder_with(3000, 1024, 10, 1);
    let requester_address = address_of(key(2));
    seeder.process_file_request(requester_address).unwrap();
    seeder.tick();
    let rfp = seeder.tick().pop().unwrap().1;
    let proposed = match rfp {
        FileExchangeRequest::Rfp { receipt, .. } => receipt,
        _ => panic!("expected a request for payment"),
    };
    assert!(!proposed.validate_signatures());
    assert_eq!(seeder.on_rfp_confirmed(0, proposed), FileExchangeResponse::Bad);
}

#[test]
fn insufficient_balance_is_refused_without_effect() {
    let mut seeder = wallet_for(1, 0);
    let mut payer = wallet_for(2, 30);
    let seeder_address = seeder.self_address;
    let proposed = seeder.process_outgoing_rfp(payer.self_address, 30).unwrap();
    assert!(!payer.can_pay(30));
    assert!(matches!(
        payer.process_incoming_rfp(seeder_address, 30, proposed),
        Err(LedgerError::InsufficientBalance)
    ));
    assert_eq!(payer.total_owes, 0);
    assert!(payer.storage.find_active_receipt(&seeder_address).is_none());
    assert!(payer.can_pay(29));
}

#[test]
fn can_pay_is_strict() {
    let mut w = wallet_for(2, 100);
    assert!(w.can_pay(99));
    assert!(!w.can_pay(100));
    w.total_owes = 50;
    assert!(w.can_pay(49));
    assert!(!w.can_pay(50));
    assert!(!w.can_pay(u128::MAX));
}

#[test]
fn wrong_amount_is_a_mismatch() {
    let mut seeder = wallet_for(1, 0);
    let mut payer = wallet_for(2, 1000);
    let seeder_address = seeder.self_address;
    let proposed = seeder.process_outgoing_rfp(payer.self_address, 20).unwrap();
    assert!(matches!(
        payer.process_incoming_rfp(seeder_address, 10, proposed),
        Err(LedgerError::ReceiptMismatch)
    ));
    assert_eq!(payer.total_owes, 0);
}

#[test]
fn foreign_parties_are_a_mismatch() {
    let mut payer = wallet_for(2, 1000);
    let seeder_address = address_of(key(1));
    let stranger = ReceiptWithSignatures::zeroed(address_of(key(3)), address_of(key(4)));
    assert!(matches!(
        payer.process_incoming_rfp(seeder_address, 0, stranger),
        Err(LedgerError::ReceiptMismatch)
    ));
}

#[test]
fn unsigned_proposal_is_refused() {
    let mut payer = wallet_for(2, 1000);
    let seeder_address = address_of(key(1));
    let mut proposal = ReceiptWithSignatures::zeroed(seeder_address, payer.self_address);
    proposal.increase_owed_amount_by(10, seeder_address);
    assert!(matches!(
        payer.process_incoming_rfp(seeder_address, 10, proposal),
        Err(LedgerError::InvalidSignature)
    ));
    assert_eq!(payer.total_owes, 0);
}

#[test]
fn accepted_debit_is_signed_by_both() {
    let mut seeder = wallet_for(1, 0);
    let mut payer = wallet_for(2, 1000);
    let seeder_address = seeder.self_address;
    let proposed = seeder.process_outgoing_rfp(payer.self_address, 10).unwrap();
    let accepted = payer.process_incoming_rfp(seeder_address, 10, proposed).unwrap();
    assert!(accepted.validate_signatures());
    assert_eq!(payer.total_owes, 10);
    let again = seeder.process_outgoing_rfp(payer.self_address, 5).unwrap();
    let payer_address = payer.self_address;
    let payer_owes = |r: &ReceiptWithSignatures| {
        if r.receipt.a_address == payer_address { r.receipt.a_owes } else { r.receipt.b_owes }
    };
    assert_eq!(payer_owes(&again), 15);
    let accepted = payer.process_incoming_rfp(seeder_address, 5, again).unwrap();
    assert_eq!(payer_owes(&accepted), 15);
    assert_eq!(payer.total_owes, 15);
}

#[test]
fn outgoing_debit_overflow_is_refused() {
    let mut seeder = wallet_for(1, 0);
    let payer_address = address_of(key(2));
    seeder.process_outgoing_rfp(payer_address, u128::MAX).unwrap();
    assert!(matches!(seeder.process_outgoing_rfp(payer_address, 1), Err(LedgerError::Overflow)));
}

#[test]
fn increasing_an_amount_drops_both_signatures() {
    let a = Address::new([1u8; 20]);
    let b = Address::new([2u8; 20]);
    let mut r = ReceiptWithSignatures::zeroed(b, a);
    assert!(r.receipt.a_address == a);
    r.a_signature = Some(Signature { bytes: [5u8; 65] });
    r.b_signature = Some(Signature { bytes: [6u8; 65] });
    r.increase_owed_amount_by(7, a);
    assert_eq!((r.receipt.a_owes, r.receipt.b_owes), (0, 7));
    assert!(r.a_signature.is_none() && r.b_signature.is_none());
    r.increase_owed_amount_by(3, b);
    assert_eq!((r.receipt.a_owes, r.receipt.b_owes), (3, 7));
    assert_eq!(r.status, Status::Active);
}

#[test]
fn addresses_order_byte_by_byte() {
    let mut x = [0u8; 20];
    let mut y = [0u8; 20];
    x[5] = 1;
    y[5] = 2;
    y[19] = 0;
    x[19] = 255;
    assert!(Address::new(x).precedes(&Address::new(y)));
    assert!(!Address::new(y).precedes(&Address::new(x)));
    assert!(!Address::new(x).precedes(&Address::new(x)));
    assert!(Address::new(x) == Address::new(x));
    assert!(Address::new(x) != Address::new(y));
}

#[test]
fn receipt_message_layout() {
    let r = Receipt {
        a_address: Address::new([1u8; 20]),
        b_address: Address::new([2u8; 20]),
        a_owes: 0x0102,
        b_owes: 3,
        expires_by: 0,
    };
    let m = r.message();
    assert_eq!(m.len(), 88);
    assert_eq!(&m[0..20], &[1u8; 20]);
    assert_eq!(&m[20..40], &[2u8; 20]);
    assert_eq!(&m[40..43], &[0x02, 0x01, 0x00]);
    assert_eq!(m[56], 3);
    assert!(m[72..88].iter().all(|b| *b == 0));
}

#[test]
fn unsigned_receipt_does_not_validate() {
    let r = ReceiptWithSignatures::zeroed(Address::new([1u8; 20]), Address::new([2u8; 20]));
    assert!(!r.validate_signatures());
    let mut forged = r;
    forged.a_signature = Some(Signature { bytes: [7u8; 65] });
    forged.b_signature = Some(Signature { bytes: [7u8; 65] });
    assert!(!forged.validate_signatures());
}

#[test]
fn protocol_identifier() {
    assert_eq!(FileExchangeProtocol.protocol_name(), "/dse/file-exchange/0.1");
}

#[test]
fn storage_upserts_and_removes_processes() {
    let mut w = wallet_for(1, 0);
    let peer = Address::new([3u8; 20]);
    let p = Process::new(4, peer, Role::Seeder);
    w.storage.update_active_process(p);
    let mut q = p;
    q.sequence_no = 1;
    w.storage.update_active_process(q);
    assert_eq!(w.storage.get_all_active_process().len(), 1);
    assert_eq!(w.storage.find_active_process(4).unwrap().sequence_no, 1);
    w.storage.remove_active_process(4);
    assert!(w.storage.find_active_process(4).is_none());
}

#[test]
fn unpaid_transfer_is_abandoned_after_deadline() {
    let mut seeder = seeder_with(3000, 1024, 10, 1);
    let requester_address = address_of(key(2));
    seeder.process_file_request(requester_address).unwrap();
    assert!(matches!(seeder.tick().pop().unwrap().1, FileExchangeRequest::DataChunk { .. }));
    assert!(matches!(seeder.tick().pop().unwrap().1, FileExchangeRequest::Rfp { .. }));
    for waited in 1..=3u32 {
        assert!(seeder.tick().is_empty());
        assert_eq!(seeder.wallet.storage.find_active_process(0).unwrap().waited_ticks, waited);
    }
    assert!(seeder.tick().is_empty());
    assert!(seeder.wallet.storage.find_active_process(0).is_none());
    assert!(seeder.wallet.storage.find_active_receipt(&requester_address).is_some());
}

#[test]
fn invalid_secret_key_gives_no_wallet() {
    assert!(Wallet::new(SigningKey::new([0u8; 32]), 10).is_none());
    assert!(Wallet::new(SigningKey::new([0xffu8; 32]), 10).is_none());
}

#[test]
fn failed_chunk_delivery_is_sent_again() {
    let mut seeder = seeder_with(3000, 1024, 10, 1);
    let requester_address = address_of(key(2));
    seeder.process_file_request(requester_address).unwrap();
    let first = seeder.tick().pop().unwrap().1;
    assert!(matches!(first, FileExchangeRequest::DataChunk { sequence_no: 0, .. }));
    // a chunk that was not the last one sent is not rolled back
    assert!(!seeder.on_chunk_send_failed(0, 1));
    assert!(seeder.on_chunk_send_failed(0, 0));
    assert_eq!(seeder.wallet.storage.find_active_process(0).unwrap().sequence_no, 0);
    let again = seeder.tick().pop().unwrap().1;
    match again {
        FileExchangeRequest::DataChunk { sequence_no, chunks, .. } => {
            assert_eq!(sequence_no, 0);
            assert_eq!(chunks, content(3000)[..1024].to_vec());
        }
        _ => panic!("expected the chunk again"),
    }
    // once a payment is requested, nothing is rolled back
    assert!(matches!(seeder.tick().pop().unwrap().1, FileExchangeRequest::Rfp { .. }));
    assert!(!seeder.on_chunk_send_failed(0, 0));
    assert!(!seeder.on_chunk_send_failed(9, 0));
}

#[test]
fn per_peer_balances_follow_receipts() {
    let mut seeder = wallet_for(1, 0);
    let mut payer = wallet_for(2, 1000);
    let seeder_address = seeder.self_address;
    let payer_address = payer.self_address;
    assert_eq!(seeder.balance_owed(&payer_address), 0);
    for round in 1..=3u128 {
        let proposed = seeder.process_outgoing_rfp(payer_address, 10).unwrap();
        payer.process_incoming_rfp(seeder_address, 10, proposed).unwrap();
        assert_eq!(seeder.balance_owed(&payer_address), 10 * round);
        assert_eq!(seeder.balance_owes(&payer_address), 0);
        assert_eq!(payer.balance_owes(&seeder_address), 10 * round);
        assert_eq!(payer.balance_owed(&seeder_address), 0);
    }
    assert_eq!(payer.total_owes, 30);
}

#[test]
fn seeder_rebuilt_over_existing_table_allocates_fresh_ids() {
    let mut seeder = seeder_with(3000, 1024, 10, 1);
    let requester_address = address_of(key(2));
    seeder.process_file_request(requester_address).unwrap();
    seeder.process_file_request(requester_address).unwrap();
    let wallet = seeder.wallet;
    let file = File { id: 7, chunk_size: 1024, chunk_price: 10, file: content(3000) };
    let mut rebuilt = FileSeeder::new(wallet, file, 1, 3);
    assert_eq!(rebuilt.next_process_id, 2);
    match rebuilt.process_file_request(requester_address) {
        Some(FileExchangeRequest::IWillSeed { process_id, .. }) => assert_eq!(process_id, 2),
        _ => panic!("expected acceptance"),
    }
    assert_eq!(rebuilt.wallet.storage.get_all_active_process().len(), 3);
}

#[test]
fn sweep_sends_one_message_per_deciding_transfer() {
    let mut seeder = seeder_with(3000, 1024, 10, 1);
    let a = address_of(key(2));
    let b = address_of(key(3));
    seeder.process_file_request(a).unwrap();
    seeder.process_file_request(b).unwrap();
    let out = seeder.tick();
    assert_eq!(out.len(), 2);
    assert!(out[0].0 == a && out[1].0 == b);
    let out = seeder.tick();
    assert_eq!(out.len(), 2);
    let owed = |m: &FileExchangeRequest, peer: Address| match m {
        FileExchangeRequest::Rfp { receipt, .. } => {
            if receipt.receipt.a_address == peer { receipt.receipt.a_owes } else { receipt.receipt.b_owes }
        }
        _ => panic!("expected a request for payment"),
    };
    assert_eq!(owed(&out[0].1, a), 10);
    assert_eq!(owed(&out[1].1, b), 10);
    // both await payment: nothing more goes out and the receipts stay
    assert!(seeder.tick().is_empty());
    assert_eq!(seeder.wallet.balance_owed(&a), 10);
    assert_eq!(seeder.wallet.balance_owed(&b), 10);
}
