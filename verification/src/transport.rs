use vstd::prelude::*;

use crate::address::Address;

verus! {

// The ledger the protocol runs over is an append-only, multi-writer
// record store: anyone may attach a record at any address, and a fetch
// at an address returns every record attached there, in arrival order.
// Network connectivity, retries and proof of work belong to the node
// behind the store, not to this core; the store here keeps the whole
// contract a transport owes the protocol, so every scan above it is
// verified against exactly what a fetch can return — including records
// that other tenants attached.

/// One record as the store keeps it: the instance address it was
/// attached at, and its fields.
pub struct StoredRecord {
    pub address: String,
    pub record: Vec<String>,
}

/// The mathematical value of a [`StoredRecord`].
pub ghost struct StoredRecordView {
    pub address: Seq<char>,
    pub record: Seq<Seq<char>>,
}

impl View for StoredRecord {
    type V = StoredRecordView;

    open spec fn view(&self) -> StoredRecordView {
        StoredRecordView { address: self.address@, record: self.record.deep_view() }
    }
}

impl DeepView for StoredRecord {
    type V = StoredRecordView;

    open spec fn deep_view(&self) -> StoredRecordView {
        self@
    }
}

/// An in-memory append-only record store.
pub struct Transport {
    records: Vec<StoredRecord>,
}

impl View for Transport {
    type V = Seq<StoredRecordView>;

    closed spec fn view(&self) -> Seq<StoredRecordView> {
        self.records.deep_view()
    }
}

/// The records a fetch at an address returns: those attached at the
/// address's instance id, oldest first.
pub open spec fn records_at(tv: Seq<StoredRecordView>, inst: Seq<char>) -> Seq<Seq<Seq<char>>>
    decreases tv.len(),
{
    if tv.len() == 0 {
        Seq::empty()
    } else {
        let rest = records_at(tv.drop_last(), inst);
        if tv.last().address == inst {
            rest.push(tv.last().record)
        } else {
            rest
        }
    }
}

impl Transport {
    /// An empty store.
    pub fn new() -> (t: Transport)
        ensures
            t@ == Seq::<StoredRecordView>::empty(),
    {
        let t = Transport { records: Vec::new() };
        proof {
            assert(t@ =~= Seq::<StoredRecordView>::empty());
        }
        t
    }

    /// Attaches a record at an address.  The store is shared: nothing
    /// restricts who attaches what, so foreign or malformed records can
    /// land beside the protocol's own.
    pub fn attach(&mut self, address: String, record: Vec<String>)
        ensures
            final(self)@ == old(self)@.push(
                StoredRecordView { address: address@, record: record.deep_view() },
            ),
    {
        let ghost pre = self@;
        let ghost av = address@;
        let ghost rv = record.deep_view();
        self.records.push(StoredRecord { address, record });
        proof {
            assert(self@ =~= pre.push(StoredRecordView { address: av, record: rv }));
        }
    }
}

/// Sends a prepared message: attaches its record at the given address.
/// The in-memory store cannot fail; a networked transport behind the
/// same contract may, fatally for the calling operation.
pub fn send_message(transport: &mut Transport, addr: &Address, record: Vec<String>)
    ensures
        final(transport)@ == old(transport)@.push(
            StoredRecordView { address: addr@.appinst, record: record.deep_view() },
        ),
{
    transport.attach(addr.appinst.clone(), record);
}

/// Fetches every record stored at the address, oldest first.
pub fn recv_messages(transport: &Transport, addr: &Address) -> (r: Vec<Vec<String>>)
    ensures
        r.deep_view() == records_at(transport@, addr@.appinst),
{
    let mut out: Vec<Vec<String>> = Vec::new();
    proof {
        assert(transport@.take(0) =~= Seq::<StoredRecordView>::empty());
        assert(out.deep_view() =~= records_at(transport@.take(0), addr@.appinst));
    }
    let n = transport.records.len();
    let mut i: usize = 0;
    while i < n
        invariant
            n == transport.records.len(),
            transport@.len() == n,
            i <= n,
            out.deep_view() == records_at(transport@.take(i as int), addr@.appinst),
        decreases n - i,
    {
        let ghost pre_out = out.deep_view();
        if transport.records[i].address == addr.appinst {
            let c = transport.records[i].record.clone();
            proof {
                assert(c@ =~= transport.records[i as int].record@);
            }
            out.push(c);
        }
        proof {
            let tv = transport@;
            assert(tv.take(i as int + 1).drop_last() =~= tv.take(i as int));
            assert(tv.take(i as int + 1).last() == tv[i as int]);
            assert(out.deep_view() =~= records_at(tv.take(i as int + 1), addr@.appinst));
        }
        i += 1;
    }
    proof {
        assert(transport@.take(n as int) =~= transport@);
    }
    out
}

/// Fetches the oldest record stored at the address, if any is.
pub fn recv_message(transport: &Transport, addr: &Address) -> (r: Option<Vec<String>>)
    ensures
        r is Some <==> records_at(transport@, addr@.appinst).len() > 0,
        r is Some ==> r->0.deep_view() == records_at(transport@, addr@.appinst)[0],
{
    let all = recv_messages(transport, addr);
    if all.len() > 0 {
        let c = all[0].clone();
        proof {
            assert(c@ =~= all[0 as int]@);
        }
        Some(c)
    } else {
        None
    }
}


/// Attaching one record changes a fetch at one address alone: at the
/// record's own address the fetch grows by that record at the end; at
/// every other address it stays what it was.
pub proof fn lemma_records_at_push(tv: Seq<StoredRecordView>, inst: Seq<char>, s: StoredRecordView)
    ensures
        s.address == inst ==> records_at(tv.push(s), inst) == records_at(tv, inst).push(s.record),
        s.address != inst ==> records_at(tv.push(s), inst) == records_at(tv, inst),
{
    assert(tv.push(s).drop_last() =~= tv);
    assert(tv.push(s).last() == s);
}

} // verus!
