//! Whole-ledger snapshots: the byte format, `dump`, and an all-or-nothing
//! `load`.
use vstd::prelude::*;

use crate::codec::{
    le_bytes, le_value, lemma_le_bytes_len, lemma_le_value_of_bytes, lemma_pow256_16,
    push_u128_le, read_u128_le, two_pow_128,
};
use crate::error::{Error, HttpApiError};
use crate::felt::{felt_le, felt_le_value, Felt};

verus! {

/// One fact of the ledger, keyed by a contract address or a transaction hash.
#[derive(Clone, Copy, Debug, PartialEq, Eq, Structural)]
pub enum StateEntry {
    /// A deployed account: its address, class hash and next nonce.
    Account { address: Felt, class_hash: Felt, nonce: Felt },
    /// One storage slot of a contract.
    Storage { address: Felt, key: Felt, value: Felt },
    /// An accepted transaction: its hash, its sender and its nonce.
    Transaction { hash: Felt, sender: Felt, nonce: Felt },
}

/// The whole ledger, as the list of its entries.
#[derive(Clone, Debug)]
pub struct LedgerState {
    pub entries: Vec<StateEntry>,
}

/// The number of bytes an entry takes in a snapshot.
pub const ENTRY_LEN: usize = 97;

/// The number of bytes before the first entry: the entry count.
pub const HEADER_LEN: usize = 16;

impl StateEntry {
    /// The tag byte, then the three elements.
    pub open spec fn parts(self) -> (u8, Felt, Felt, Felt) {
        match self {
            StateEntry::Account { address, class_hash, nonce } => (0u8, address, class_hash, nonce),
            StateEntry::Storage { address, key, value } => (1u8, address, key, value),
            StateEntry::Transaction { hash, sender, nonce } => (2u8, hash, sender, nonce),
        }
    }

    /// Every element of the entry lies in the field.
    pub open spec fn wf(self) -> bool {
        &&& self.parts().1.wf()
        &&& self.parts().2.wf()
        &&& self.parts().3.wf()
    }
}

/// The bytes of one entry.
pub open spec fn entry_bytes(e: StateEntry) -> Seq<u8> {
    seq![e.parts().0] + felt_le(e.parts().1.value()) + felt_le(e.parts().2.value()) + felt_le(
        e.parts().3.value(),
    )
}

/// The bytes of a list of entries, one after the other.
pub open spec fn entries_bytes(s: Seq<StateEntry>) -> Seq<u8>
    decreases s.len(),
{
    if s.len() == 0 {
        seq![]
    } else {
        entries_bytes(s.drop_last()) + entry_bytes(s.last())
    }
}

/// A snapshot of the entries `s`: their count, then the entries.
pub open spec fn snapshot_bytes(s: Seq<StateEntry>) -> Seq<u8> {
    le_bytes(s.len(), 16) + entries_bytes(s)
}

/// Every entry of `s` is well formed.
pub open spec fn entries_wf(s: Seq<StateEntry>) -> bool {
    forall|i: int| 0 <= i < s.len() ==> (#[trigger] s[i]).wf()
}

/// `b` is the snapshot of the well-formed entries `s`.
pub open spec fn snapshot_of(b: Seq<u8>, s: Seq<StateEntry>) -> bool {
    &&& entries_wf(s)
    &&& s.len() < two_pow_128()
    &&& b == snapshot_bytes(s)
}

proof fn lemma_entry_len(e: StateEntry)
    requires
        e.wf(),
    ensures
        entry_bytes(e).len() == ENTRY_LEN,
{
    e.parts().1.lemma_le_round_trip();
    e.parts().2.lemma_le_round_trip();
    e.parts().3.lemma_le_round_trip();
}

/// The entries lie one after the other, each in its own slot.
proof fn lemma_entries_layout(s: Seq<StateEntry>)
    requires
        entries_wf(s),
    ensures
        entries_bytes(s).len() == ENTRY_LEN * s.len(),
        forall|i: int|
            0 <= i < s.len() ==> entries_bytes(s).subrange(
                ENTRY_LEN * i,
                ENTRY_LEN * i + ENTRY_LEN,
            ) == entry_bytes(#[trigger] s[i]),
    decreases s.len(),
{
    if s.len() > 0 {
        let t = s.drop_last();
        assert(entries_wf(t)) by {
            assert forall|i: int| 0 <= i < t.len() implies (#[trigger] t[i]).wf() by {
                assert(t[i] == s[i]);
            }
        }
        lemma_entries_layout(t);
        lemma_entry_len(s.last());
        let b = entries_bytes(s);
        assert forall|i: int| 0 <= i < s.len() implies b.subrange(
            ENTRY_LEN * i,
            ENTRY_LEN * i + ENTRY_LEN,
        ) == entry_bytes(#[trigger] s[i]) by {
            if i < t.len() {
                assert(t[i] == s[i]);
                assert(b.subrange(ENTRY_LEN * i, ENTRY_LEN * i + ENTRY_LEN) =~= entries_bytes(
                    t,
                ).subrange(ENTRY_LEN * i, ENTRY_LEN * i + ENTRY_LEN));
            } else {
                assert(b.subrange(ENTRY_LEN * i, ENTRY_LEN * i + ENTRY_LEN) =~= entry_bytes(
                    s.last(),
                ));
            }
        }
    }
}

/// Reads the three elements of an entry that starts at `pos`.
fn read_entry(b: &Vec<u8>, pos: usize) -> (r: Option<StateEntry>)
    requires
        pos + ENTRY_LEN <= b@.len(),
        b@.len() <= usize::MAX,
    ensures
        r matches Some(e) ==> e.wf() && entry_bytes(e) == b@.subrange(pos as int, pos + ENTRY_LEN),
        forall|e: StateEntry|
            e.wf() && entry_bytes(e) == b@.subrange(pos as int, pos + ENTRY_LEN) ==> r == Some(e),
{
    let ghost w = b@.subrange(pos as int, pos + ENTRY_LEN);
    let x = Felt::read_le(b, pos + 1);
    let y = Felt::read_le(b, pos + 33);
    let z = Felt::read_le(b, pos + 65);
    let ghost wx = b@.subrange(pos + 1, pos + 33);
    let ghost wy = b@.subrange(pos + 33, pos + 65);
    let ghost wz = b@.subrange(pos + 65, pos + 97);
    proof {
        assert(w =~= seq![w[0]] + wx + wy + wz);
        assert forall|e: StateEntry|
            e.wf() && entry_bytes(e) == w implies {
            &&& e.parts().0 == b@[pos as int]
            &&& x == Some(e.parts().1)
            &&& y == Some(e.parts().2)
            &&& z == Some(e.parts().3)
        } by {
            lemma_entry_len(e);
            let f1 = e.parts().1;
            let f2 = e.parts().2;
            let f3 = e.parts().3;
            f1.lemma_le_round_trip();
            f2.lemma_le_round_trip();
            f3.lemma_le_round_trip();
            assert(w[0] == e.parts().0);
            assert(wx =~= w.subrange(1, 33));
            assert(w.subrange(1, 33) =~= felt_le(f1.value()));
            assert(w.subrange(33, 65) =~= felt_le(f2.value()));
            assert(w.subrange(65, 97) =~= felt_le(f3.value()));
            assert(wy =~= w.subrange(33, 65));
            assert(wz =~= w.subrange(65, 97));
            if let Some(g) = x {
                Felt::lemma_value_injective(g, f1);
            }
            if let Some(g) = y {
                Felt::lemma_value_injective(g, f2);
            }
            if let Some(g) = z {
                Felt::lemma_value_injective(g, f3);
            }
        }
    }
    match (x, y, z) {
        (Some(f1), Some(f2), Some(f3)) => {
            let tag = b[pos];
            proof {
                Felt::lemma_le_canonical(wx);
                Felt::lemma_le_canonical(wy);
                Felt::lemma_le_canonical(wz);
            }
            let e = if tag == 0 {
                StateEntry::Account { address: f1, class_hash: f2, nonce: f3 }
            } else if tag == 1 {
                StateEntry::Storage { address: f1, key: f2, value: f3 }
            } else if tag == 2 {
                StateEntry::Transaction { hash: f1, sender: f2, nonce: f3 }
            } else {
                return None;
            };
            assert(entry_bytes(e) =~= w);
            Some(e)
        },
        _ => None,
    }
}

/// The snapshot of `state`: the entry count, then each entry's tag byte and
/// its three elements.
pub fn dump(state: &LedgerState) -> (r: Vec<u8>)
    ensures
        r@ == snapshot_bytes(state.entries@),
{
    let mut out: Vec<u8> = Vec::new();
    push_u128_le(&mut out, state.entries.len() as u128);
    let mut i: usize = 0;
    while i < state.entries.len()
        invariant
            i <= state.entries@.len(),
            out@ == le_bytes(state.entries@.len() as nat, 16) + entries_bytes(
                state.entries@.subrange(0, i as int),
            ),
        decreases state.entries@.len() - i,
    {
        let e = state.entries[i];
        let ghost before = out@;
        let tag: u8 = match e {
            StateEntry::Account { .. } => 0,
            StateEntry::Storage { .. } => 1,
            StateEntry::Transaction { .. } => 2,
        };
        out.push(tag);
        let (f1, f2, f3) = match e {
            StateEntry::Account { address, class_hash, nonce } => (address, class_hash, nonce),
            StateEntry::Storage { address, key, value } => (address, key, value),
            StateEntry::Transaction { hash, sender, nonce } => (hash, sender, nonce),
        };
        f1.push_le(&mut out);
        f2.push_le(&mut out);
        f3.push_le(&mut out);
        assert(state.entries@.subrange(0, i + 1).drop_last() =~= state.entries@.subrange(
            0,
            i as int,
        ));
        assert(out@ =~= before + entry_bytes(e));
        i = i + 1;
    }
    assert(state.entries@.subrange(0, i as int) =~= state.entries@);
    out
}

/// Decodes a snapshot; fails with a serialization error on bytes that are
/// not the snapshot of any list of well-formed entries.
pub fn decode(b: &Vec<u8>) -> (r: Result<LedgerState, Error>)
    ensures
        r matches Ok(st) ==> snapshot_of(b@, st.entries@),
        forall|s: Seq<StateEntry>| snapshot_of(b@, s) ==> (r matches Ok(st) && st.entries@ == s),
        r matches Err(e) ==> e == Error::SerializationError,
{
    let count = match read_u128_le(b, 0) {
        Some(c) => c,
        None => {
            proof {
                assert forall|s: Seq<StateEntry>| !snapshot_of(b@, s) by {
                    lemma_le_bytes_len(s.len(), 16);
                }
            }
            return Err(Error::SerializationError);
        },
    };
    let ghost head = b@.subrange(0, 16);
    proof {
        assert forall|s: Seq<StateEntry>| snapshot_of(b@, s) implies {
            &&& count == s.len()
            &&& b@.len() == HEADER_LEN + ENTRY_LEN * s.len()
            &&& b@.subrange(16, b@.len() as int) == entries_bytes(s)
        } by {
            lemma_le_bytes_len(s.len(), 16);
            lemma_pow256_16();
            lemma_le_value_of_bytes(s.len(), 16);
            assert(head =~= le_bytes(s.len(), 16));
            lemma_entries_layout(s);
            assert(b@.subrange(16, b@.len() as int) =~= entries_bytes(s));
        }
    }
    if (count > (b.len() / ENTRY_LEN) as u128) || b.len() - HEADER_LEN != ENTRY_LEN * (
    count as usize) {
        return Err(Error::SerializationError);
    }
    let n = count as usize;
    let mut entries: Vec<StateEntry> = Vec::new();
    let mut i: usize = 0;
    while i < n
        invariant
            i <= n,
            n == count,
            b@.len() <= usize::MAX,
            b@.len() == HEADER_LEN + ENTRY_LEN * n,
            entries@.len() == i,
            entries_wf(entries@),
            entries_bytes(entries@) == b@.subrange(16, HEADER_LEN + ENTRY_LEN * i),
            forall|s: Seq<StateEntry>| snapshot_of(b@, s) ==> entries@ == s.subrange(0, i as int),
            forall|s: Seq<StateEntry>| snapshot_of(b@, s) ==> count == s.len() && b@.subrange(
                16,
                b@.len() as int,
            ) == entries_bytes(s),
        decreases n - i,
    {
        assert(ENTRY_LEN * i + ENTRY_LEN <= ENTRY_LEN * n) by (nonlinear_arith)
            requires
                i < n,
        ;
        let pos: usize = HEADER_LEN + ENTRY_LEN * i;
        proof {
            assert forall|s: Seq<StateEntry>| snapshot_of(b@, s) implies entry_bytes(s[i as int])
                == b@.subrange(pos as int, pos + ENTRY_LEN) && s[i as int].wf() by {
                lemma_entries_layout(s);
                let eb = entries_bytes(s);
                assert(eb.subrange(ENTRY_LEN * i, ENTRY_LEN * i + ENTRY_LEN) =~= b@.subrange(
                    pos as int,
                    pos + ENTRY_LEN,
                ));
            }
        }
        match read_entry(b, pos) {
            Some(e) => {
                let ghost before = entries@;
                entries.push(e);
                proof {
                    assert(entries@.drop_last() =~= before);
                    assert(b@.subrange(16, pos + ENTRY_LEN) =~= b@.subrange(16, pos as int)
                        + b@.subrange(pos as int, pos + ENTRY_LEN));
                    assert forall|s: Seq<StateEntry>| snapshot_of(b@, s) implies entries@
                        == s.subrange(0, i + 1) by {
                        assert(entries@ =~= s.subrange(0, i + 1));
                    }
                }
            },
            None => {
                proof {
                    assert forall|s: Seq<StateEntry>| !snapshot_of(b@, s) by {
                        if snapshot_of(b@, s) {
                            assert(s[i as int].wf());
                        }
                    }
                }
                return Err(Error::SerializationError);
            },
        }
        i = i + 1;
    }
    proof {
        assert(b@.subrange(16, b@.len() as int) == b@.subrange(16, HEADER_LEN + ENTRY_LEN * i));
        crate::codec::lemma_le_bytes_of_value(head);
        assert(b@ =~= head + b@.subrange(16, b@.len() as int));
        assert forall|s: Seq<StateEntry>| snapshot_of(b@, s) implies entries@ == s by {
            assert(s.subrange(0, i as int) =~= s);
        }
    }
    Ok(LedgerState { entries })
}

/// Replaces the ledger with the snapshot that `source` holds, all or
/// nothing. A source that could not be read gives its error back; bytes that
/// are not a snapshot give a serialization error. On any error the ledger is
/// left as it was.
pub fn load(state: &mut LedgerState, source: Result<Vec<u8>, Error>) -> (r: Result<(), Error>)
    ensures
        *final(state) == *old(state) || r is Ok,
        r is Err ==> *final(state) == *old(state),
        source matches Err(e) ==> r == Err::<(), Error>(e),
        source matches Ok(b) ==> {
            &&& r is Ok ==> snapshot_of(b@, final(state).entries@)
            &&& forall|s: Seq<StateEntry>|
                snapshot_of(b@, s) ==> (r is Ok && final(state).entries@ == s)
            &&& r is Err ==> r == Err::<(), Error>(Error::SerializationError)
        },
{
    let bytes = match source {
        Ok(b) => b,
        Err(e) => return Err(e),
    };
    match decode(&bytes) {
        Ok(new_state) => {
            *state = new_state;
            Ok(())
        },
        Err(e) => Err(e),
    }
}

/// The transport-facing class of an error: a missing snapshot source is
/// "not found", everything else a general failure.
pub fn to_http_error(e: &Error) -> (r: HttpApiError)
    ensures
        r == HttpApiError::PathNotFound <==> *e is PathNotFound,
        r == HttpApiError::GeneralError <==> !(*e is PathNotFound),
{
    match e {
        Error::PathNotFound => HttpApiError::PathNotFound,
        _ => HttpApiError::GeneralError,
    }
}

/// Two entries with the same bytes are the same entry.
proof fn lemma_entry_injective(a: StateEntry, b: StateEntry)
    requires
        a.wf(),
        b.wf(),
        entry_bytes(a) == entry_bytes(b),
    ensures
        a == b,
{
    let wa = entry_bytes(a);
    lemma_entry_len(a);
    a.parts().1.lemma_le_round_trip();
    a.parts().2.lemma_le_round_trip();
    a.parts().3.lemma_le_round_trip();
    b.parts().1.lemma_le_round_trip();
    b.parts().2.lemma_le_round_trip();
    b.parts().3.lemma_le_round_trip();
    assert(wa.subrange(1, 33) =~= felt_le(a.parts().1.value()));
    assert(wa.subrange(1, 33) =~= felt_le(b.parts().1.value()));
    assert(wa.subrange(33, 65) =~= felt_le(a.parts().2.value()));
    assert(wa.subrange(33, 65) =~= felt_le(b.parts().2.value()));
    assert(wa.subrange(65, 97) =~= felt_le(a.parts().3.value()));
    assert(wa.subrange(65, 97) =~= felt_le(b.parts().3.value()));
    Felt::lemma_value_injective(a.parts().1, b.parts().1);
    Felt::lemma_value_injective(a.parts().2, b.parts().2);
    Felt::lemma_value_injective(a.parts().3, b.parts().3);
    assert(wa[0] == a.parts().0);
    assert(entry_bytes(b)[0] == b.parts().0);
}

/// A dumped ledger loads back as itself: the snapshot of a ledger is a
/// snapshot of that ledger and of no other.
pub proof fn lemma_snapshot_round_trip(s: Seq<StateEntry>)
    requires
        entries_wf(s),
        s.len() < two_pow_128(),
    ensures
        snapshot_of(snapshot_bytes(s), s),
        forall|t: Seq<StateEntry>| snapshot_of(snapshot_bytes(s), t) ==> t == s,
{
    assert forall|t: Seq<StateEntry>| snapshot_of(snapshot_bytes(s), t) implies t == s by {
        let b = snapshot_bytes(s);
        lemma_le_bytes_len(s.len(), 16);
        lemma_le_bytes_len(t.len(), 16);
        lemma_pow256_16();
        lemma_le_value_of_bytes(s.len(), 16);
        lemma_le_value_of_bytes(t.len(), 16);
        assert(b.subrange(0, 16) =~= le_bytes(s.len(), 16));
        assert(b.subrange(0, 16) =~= le_bytes(t.len(), 16));
        lemma_entries_layout(s);
        lemma_entries_layout(t);
        assert(b.subrange(16, b.len() as int) =~= entries_bytes(s));
        assert(b.subrange(16, b.len() as int) =~= entries_bytes(t));
        assert forall|i: int| 0 <= i < s.len() implies t[i] == s[i] by {
            assert(entry_bytes(s[i]) == entry_bytes(t[i]));
            lemma_entry_injective(s[i], t[i]);
        }
        assert(t =~= s);
    }
}

} // verus!
