use crate::address::Address;
use crate::process::Process;
use crate::receipt::ReceiptWithSignatures;
use vstd::prelude::*;

verus! {

/// The receipt stored under `user` in `entries`, if any.
pub open spec fn receipt_in(entries: Seq<(Address, ReceiptWithSignatures)>, user: Seq<u8>) -> Option<
    ReceiptWithSignatures,
> {
    if exists|i: int| 0 <= i < entries.len() && (#[trigger] entries[i]).0@ == user {
        Some(entries[choose|i: int| 0 <= i < entries.len() && (#[trigger] entries[i]).0@ == user].1)
    } else {
        None
    }
}

/// The process stored under `id` in `entries`, if any.
pub open spec fn process_in(entries: Seq<Process>, id: u32) -> Option<Process> {
    if exists|i: int| 0 <= i < entries.len() && (#[trigger] entries[i]).id == id {
        Some(entries[choose|i: int| 0 <= i < entries.len() && (#[trigger] entries[i]).id == id])
    } else {
        None
    }
}

/// Each key stands at most once in the receipt entries.
pub open spec fn receipt_keys_unique(entries: Seq<(Address, ReceiptWithSignatures)>) -> bool {
    forall|i: int, j: int|
        0 <= i < entries.len() && 0 <= j < entries.len() && (#[trigger] entries[i]).0@ == (
        #[trigger] entries[j]).0@ ==> i == j
}

/// Each id stands at most once in the process entries.
pub open spec fn process_ids_unique(entries: Seq<Process>) -> bool {
    forall|i: int, j: int|
        0 <= i < entries.len() && 0 <= j < entries.len() && (#[trigger] entries[i]).id == (
        #[trigger] entries[j]).id ==> i == j
}

/// Active receipts keyed by counterparty address, and the table of active
/// transfers keyed by transfer id. Every operation is a whole
/// read-modify-write on the owned table.
pub struct Storage {
    active_receipts: Vec<(Address, ReceiptWithSignatures)>,
    active_processes: Vec<Process>,
}

impl Storage {
    pub closed spec fn wf(&self) -> bool {
        receipt_keys_unique(self.active_receipts@) && process_ids_unique(self.active_processes@)
    }

    /// The active receipt shared with `user`, if any.
    pub closed spec fn receipt_for(&self, user: Seq<u8>) -> Option<ReceiptWithSignatures> {
        receipt_in(self.active_receipts@, user)
    }

    /// The active transfers, in the order they were first stored.
    pub closed spec fn processes(&self) -> Seq<Process> {
        self.active_processes@
    }

    /// The active transfer with id `id`, if any.
    pub open spec fn process_for(&self, id: u32) -> Option<Process> {
        process_in(self.processes(), id)
    }

    pub fn new() -> (r: Storage)
        ensures
            r.wf(),
            forall|u: Seq<u8>| r.receipt_for(u) is None,
            r.processes().len() == 0,
    {
        Storage { active_receipts: Vec::new(), active_processes: Vec::new() }
    }

    /// Each id stands once in the table, each entry is found under its
    /// id, and each id found belongs to an entry.
    pub proof fn lemma_process_table(&self)
        requires
            self.wf(),
        ensures
            process_ids_unique(self.processes()),
            forall|k: int|
                0 <= k < self.processes().len() ==> self.process_for(
                    #[trigger] self.processes()[k].id,
                ) == Some(self.processes()[k]),
            forall|id: u32|
                #![trigger self.process_for(id)]
                self.process_for(id) is Some ==> self.processes().contains(self.process_for(id)->0)
                    && self.process_for(id)->0.id == id,
    {
        let e = self.processes();
        assert forall|k: int| 0 <= k < e.len() implies self.process_for(#[trigger] e[k].id) == Some(
            e[k],
        ) by {
            let j = choose|j: int| 0 <= j < e.len() && (#[trigger] e[j]).id == e[k].id;
            assert(e[j].id == e[k].id);
        }
        assert forall|id: u32| #![trigger self.process_for(id)] self.process_for(id) is Some implies self.processes().contains(
            self.process_for(id)->0,
        ) && self.process_for(id)->0.id == id by {
            if exists|j: int| 0 <= j < e.len() && (#[trigger] e[j]).id == id {
                let j = choose|j: int| 0 <= j < e.len() && (#[trigger] e[j]).id == id;
                assert(e[j] == self.process_for(id)->0);
            }
        }
    }

    fn receipt_index(&self, user: &Address) -> (r: Option<usize>)
        ensures
            r matches Some(i) ==> i < self.active_receipts@.len() && self.active_receipts@[i as int].0@
                == user@,
            r is None ==> forall|j: int|
                0 <= j < self.active_receipts@.len() ==> (#[trigger] self.active_receipts@[j]).0@
                    != user@,
    {
        let mut i: usize = 0;
        while i < self.active_receipts.len()
            invariant
                0 <= i <= self.active_receipts@.len(),
                forall|j: int| 0 <= j < i ==> (#[trigger] self.active_receipts@[j]).0@ != user@,
            decreases self.active_receipts@.len() - i,
        {
            if self.active_receipts[i].0.same_as(user) {
                return Some(i);
            }
            i = i + 1;
        }
        None
    }

    fn process_index(&self, id: u32) -> (r: Option<usize>)
        ensures
            r matches Some(i) ==> i < self.active_processes@.len() && self.active_processes@[i as int].id
                == id,
            r is None ==> forall|j: int|
                0 <= j < self.active_processes@.len() ==> (#[trigger] self.active_processes@[j]).id
                    != id,
    {
        let mut i: usize = 0;
        while i < self.active_processes.len()
            invariant
                0 <= i <= self.active_processes@.len(),
                forall|j: int| 0 <= j < i ==> (#[trigger] self.active_processes@[j]).id != id,
            decreases self.active_processes@.len() - i,
        {
            if self.active_processes[i].id == id {
                return Some(i);
            }
            i = i + 1;
        }
        None
    }

    /// The active receipt shared with `user`.
    pub fn find_active_receipt(&self, user: &Address) -> (r: Option<ReceiptWithSignatures>)
        requires
            self.wf(),
        ensures
            r == self.receipt_for(user@),
    {
        match self.receipt_index(user) {
            Some(i) => {
                assert(self.active_receipts@[i as int].0@ == user@);
                Some(self.active_receipts[i].1)
            },
            None => None,
        }
    }

    /// Stores `receipt` as the active receipt shared with `user`, replacing
    /// any earlier one.
    pub fn store_active_receipt(&mut self, user: &Address, receipt: &ReceiptWithSignatures)
        requires
            old(self).wf(),
        ensures
            final(self).wf(),
            final(self).receipt_for(user@) == Some(*receipt),
            forall|u: Seq<u8>| u != user@ ==> final(self).receipt_for(u) == old(self).receipt_for(u),
            final(self).processes() == old(self).processes(),
    {
        let ghost old_entries = self.active_receipts@;
        let ghost pos: int;
        match self.receipt_index(user) {
            Some(i) => {
                self.active_receipts.set(i, (*user, *receipt));
                proof { pos = i as int; }
            },
            None => {
                self.active_receipts.push((*user, *receipt));
                proof { pos = old_entries.len() as int; }
            },
        }
        let ghost e = self.active_receipts@;
        assert(e[pos] == (*user, *receipt));
        assert forall|k: int| 0 <= k < e.len() && k != pos implies #[trigger] e[k] == old_entries[k]
            && old_entries[k].0@ != user@ by {}
        assert(receipt_keys_unique(e));
        assert(receipt_in(e, user@) == Some(*receipt));
        assert forall|u: Seq<u8>| u != user@ implies receipt_in(e, u) == receipt_in(old_entries, u) by {
            if exists|k: int| 0 <= k < e.len() && (#[trigger] e[k]).0@ == u {
                let k = choose|k: int| 0 <= k < e.len() && (#[trigger] e[k]).0@ == u;
                assert(old_entries[k] == e[k]);
            }
            if exists|k: int| 0 <= k < old_entries.len() && (#[trigger] old_entries[k]).0@ == u {
                let k = choose|k: int| 0 <= k < old_entries.len() && (#[trigger] old_entries[k]).0@
                    == u;
                assert(old_entries[k] == e[k]);
            }
        }
    }

    /// The table of active transfers.
    pub fn get_all_active_process(&self) -> (r: Vec<Process>)
        ensures
            r@ == self.processes(),
    {
        self.active_processes.clone()
    }

    /// The active transfer with id `id`.
    pub fn find_active_process(&self, id: u32) -> (r: Option<Process>)
        requires
            self.wf(),
        ensures
            r == self.process_for(id),
    {
        match self.process_index(id) {
            Some(i) => {
                assert(self.active_processes@[i as int].id == id);
                Some(self.active_processes[i])
            },
            None => None,
        }
    }

    /// Stores `process` under its id, replacing any earlier entry for it.
    pub fn update_active_process(&mut self, process: Process)
        requires
            old(self).wf(),
        ensures
            final(self).wf(),
            final(self).process_for(process.id) == Some(process),
            forall|id: u32| id != process.id ==> final(self).process_for(id) == old(self).process_for(id),
            forall|p: Process| #[trigger] final(self).processes().contains(p) ==> p == process
                || old(self).processes().contains(p),
            forall|u: Seq<u8>| final(self).receipt_for(u) == old(self).receipt_for(u),
    {
        let ghost old_entries = self.active_processes@;
        let ghost pos: int;
        match self.process_index(process.id) {
            Some(i) => {
                self.active_processes.set(i, process);
                proof { pos = i as int; }
            },
            None => {
                self.active_processes.push(process);
                proof { pos = old_entries.len() as int; }
            },
        }
        let ghost e = self.active_processes@;
        assert(e[pos] == process);
        assert forall|k: int| 0 <= k < e.len() && k != pos implies #[trigger] e[k] == old_entries[k]
            && old_entries[k].id != process.id by {}
        assert(process_ids_unique(e));
        assert(process_in(e, process.id) == Some(process));
        assert forall|id: u32| id != process.id implies process_in(e, id) == process_in(old_entries, id) by {
            if exists|k: int| 0 <= k < e.len() && (#[trigger] e[k]).id == id {
                let k = choose|k: int| 0 <= k < e.len() && (#[trigger] e[k]).id == id;
                assert(old_entries[k] == e[k]);
            }
            if exists|k: int| 0 <= k < old_entries.len() && (#[trigger] old_entries[k]).id == id {
                let k = choose|k: int| 0 <= k < old_entries.len() && (#[trigger] old_entries[k]).id
                    == id;
                assert(old_entries[k] == e[k]);
            }
        }
        assert forall|p: Process| #[trigger] e.contains(p) implies p == process
            || old_entries.contains(p) by {
            let k = choose|k: int| 0 <= k < e.len() && e[k] == p;
            if k != pos {
                assert(old_entries[k] == p);
            }
        }
    }

    /// Removes the active transfer with id `id`, if there is one.
    pub fn remove_active_process(&mut self, id: u32)
        requires
            old(self).wf(),
        ensures
            final(self).wf(),
            final(self).process_for(id) is None,
            forall|other: u32| other != id ==> final(self).process_for(other) == old(self).process_for(other),
            forall|p: Process| #[trigger] final(self).processes().contains(p) ==> old(self).processes().contains(p),
            forall|u: Seq<u8>| final(self).receipt_for(u) == old(self).receipt_for(u),
    {
        let ghost old_entries = self.active_processes@;
        match self.process_index(id) {
            Some(i) => {
                self.active_processes.remove(i);
                let ghost e = self.active_processes@;
                assert(e =~= old_entries.remove(i as int));
                assert forall|k: int| 0 <= k < e.len() implies #[trigger] e[k] == old_entries[if k < i { k } else { k + 1 }] by {}
                assert forall|k: int| 0 <= k < e.len() implies (#[trigger] e[k]).id != id by {
                    let k2 = if k < i { k } else { k + 1 };
                    assert(e[k] == old_entries[k2]);
                }
                assert forall|a: int, b: int|
                    0 <= a < e.len() && 0 <= b < e.len() && (#[trigger] e[a]).id == (
                    #[trigger] e[b]).id implies a == b by {
                    let a2 = if a < i { a } else { a + 1 };
                    let b2 = if b < i { b } else { b + 1 };
                    assert(old_entries[a2] == e[a]);
                    assert(old_entries[b2] == e[b]);
                }
                assert forall|other: u32| other != id implies process_in(e, other) == process_in(
                    old_entries,
                    other,
                ) by {
                    if exists|k: int| 0 <= k < e.len() && (#[trigger] e[k]).id == other {
                        let k = choose|k: int| 0 <= k < e.len() && (#[trigger] e[k]).id == other;
                        let k2 = if k < i { k } else { k + 1 };
                        assert(old_entries[k2] == e[k]);
                    }
                    if exists|k: int| 0 <= k < old_entries.len() && (#[trigger] old_entries[k]).id
                        == other {
                        let k = choose|k: int|
                            0 <= k < old_entries.len() && (#[trigger] old_entries[k]).id == other;
                        let k2 = if k < i { k } else { k - 1 };
                        assert(old_entries[k] == e[k2]);
                    }
                }
                assert forall|p: Process| #[trigger] e.contains(p) implies old_entries.contains(p) by {
                    let k = choose|k: int| 0 <= k < e.len() && e[k] == p;
                    let k2 = if k < i { k } else { k + 1 };
                    assert(old_entries[k2] == p);
                }
            },
            None => {},
        }
    }
}

} // verus!
