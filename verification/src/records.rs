//! Records in ascending order, each once: what a table is sorted into before
//! its image is written.

use vstd::prelude::*;
use crate::par::{decode, decode_table, Record, RECORD_LEN};

verus! {

impl Record {
    /// Position in the order of records: by the cell along latitude, then
    /// along longitude, then by the two corrections.
    pub open spec fn key(self) -> int {
        ((self.0 * 0x1_0000 + self.1) * 0x1_0000_0000 + self.2) * 0x1_0000_0000 + self.3
    }

    /// The order of keys is the order by the four fields in turn, and no two
    /// records share a key.
    pub proof fn lemma_key_order(self, other: Record)
        ensures
            self.key() < other.key() <==> {
                ||| self.0 < other.0
                ||| self.0 == other.0 && self.1 < other.1
                ||| self.0 == other.0 && self.1 == other.1 && self.2 < other.2
                ||| self.0 == other.0 && self.1 == other.1 && self.2 == other.2 && self.3
                    < other.3
            },
            self.key() == other.key() <==> self == other,
    {
        let a = self.0 * 0x1_0000 + self.1;
        let b = other.0 * 0x1_0000 + other.1;
        assert(a < b <==> self.0 < other.0 || (self.0 == other.0 && self.1 < other.1));
        let c = a * 0x1_0000_0000 + self.2;
        let d = b * 0x1_0000_0000 + other.2;
        assert(c < d <==> a < b || (a == b && self.2 < other.2));
        assert(self.key() == c * 0x1_0000_0000 + self.3);
        assert(other.key() == d * 0x1_0000_0000 + other.3);
        assert(self.key() < other.key() <==> c < d || (c == d && self.3 < other.3));
    }

    /// Position in the order of records.
    pub fn sort_key(&self) -> (k: i128)
        ensures
            k == self.key(),
    {
        (((self.0 as i128) * 0x1_0000 + (self.1 as i128)) * 0x1_0000_0000 + (self.2 as i128))
            * 0x1_0000_0000 + (self.3 as i128)
    }
}

/// Every record comes before every later one.
pub open spec fn ascending(records: Seq<Record>) -> bool {
    forall|i: int, j: int|
        0 <= i < j < records.len() ==> (#[trigger] records[i]).key() < (#[trigger] records[j]).key()
}

/// The records are those of `records`, in ascending order, each once.
pub open spec fn is_sorted_once(sorted: Seq<Record>, records: Seq<Record>) -> bool {
    ascending(sorted) && forall|x: Record| sorted.contains(x) <==> records.contains(x)
}

/// The records of `records` in ascending order, each once.
pub open spec fn sorted_once(records: Seq<Record>) -> Seq<Record> {
    choose|sorted: Seq<Record>| is_sorted_once(sorted, records)
}

/// There is one way only to put a set of records in ascending order.
pub proof fn lemma_ascending_is_unique(a: Seq<Record>, b: Seq<Record>)
    requires
        ascending(a),
        ascending(b),
        forall|x: Record| a.contains(x) <==> b.contains(x),
    ensures
        a == b,
    decreases a.len(),
{
    if a.len() == 0 {
        if b.len() > 0 {
            assert(b.contains(b[0]));
        }
        assert(a =~= b);
    } else {
        let top = a.last();
        assert(a.contains(top));
        let k = choose|k: int| 0 <= k < b.len() && b[k] == top;
        if k < b.len() - 1 {
            // A record behind `top` in `b` would lie above it, yet it is in `a`.
            assert(b.contains(b.last()));
            let i = choose|i: int| 0 <= i < a.len() && a[i] == b.last();
            assert(b[k].key() < b[b.len() - 1].key());
            if i < a.len() - 1 {
                assert(a[i].key() < a[a.len() - 1].key());
            }
        }
        let a0 = a.drop_last();
        let b0 = b.drop_last();
        assert forall|x: Record| a0.contains(x) <==> b0.contains(x) by {
            if a0.contains(x) {
                let i = choose|i: int| 0 <= i < a0.len() && a0[i] == x;
                assert(a[i] == x);
                assert(a[i].key() < a[a.len() - 1].key());
                assert(a.contains(x));
                let j = choose|j: int| 0 <= j < b.len() && b[j] == x;
                assert(b0[j] == x);
            }
            if b0.contains(x) {
                let j = choose|j: int| 0 <= j < b0.len() && b0[j] == x;
                assert(b[j] == x);
                assert(b[j].key() < b[b.len() - 1].key());
                assert(b.contains(x));
                let i = choose|i: int| 0 <= i < a.len() && a[i] == x;
                assert(a0[i] == x);
            }
        }
        lemma_ascending_is_unique(a0, b0);
        assert(a =~= a0.push(top));
        assert(b =~= b0.push(top));
    }
}

/// The image of a run of records: their 12 bytes each, one record behind the
/// other.
pub open spec fn encode_table(records: Seq<Record>) -> Seq<u8>
    decreases records.len(),
{
    if records.len() == 0 {
        Seq::empty()
    } else {
        encode_table(records.drop_last()) + records.last().encode()
    }
}

/// The image of a run of records has 12 bytes for each, and read back it
/// gives the grid points that the records describe.
pub proof fn lemma_decode_encode_table(records: Seq<Record>)
    ensures
        encode_table(records).len() == RECORD_LEN * records.len(),
        decode_table(encode_table(records)) == records.map_values(|r: Record| r.spec_dot()),
    decreases records.len(),
{
    let image = encode_table(records);
    let dots = records.map_values(|r: Record| r.spec_dot());
    if records.len() == 0 {
        assert(decode_table(image) =~= dots);
    } else {
        let front = records.drop_last();
        let last = records.last();
        lemma_decode_encode_table(front);
        last.lemma_decode_encode();
        let front_image = encode_table(front);
        assert(image.len() == RECORD_LEN * records.len());
        assert(image.len() / RECORD_LEN as nat == records.len());
        assert forall|i: int| 0 <= i < records.len() implies decode(image, RECORD_LEN * i)
            == dots[i] by {
            if i < front.len() {
                assert(decode_table(front_image)[i] == decode(front_image, RECORD_LEN * i));
                assert(front.map_values(|r: Record| r.spec_dot())[i] == front[i].spec_dot());
                assert(decode(image, RECORD_LEN * i) == decode(front_image, RECORD_LEN * i));
            } else {
                assert(decode(image, RECORD_LEN * i) == decode(last.encode(), 0));
            }
        }
        assert(decode_table(image) =~= dots);
    }
}

/// Adds a record to a run of records in ascending order, unless it is there
/// already.  Says whether it was added.
fn insert(sorted: &mut Vec<Record>, record: Record) -> (inserted: bool)
    requires
        ascending(old(sorted)@),
    ensures
        ascending(final(sorted)@),
        inserted == !old(sorted)@.contains(record),
        forall|x: Record| final(sorted)@.contains(x) <==> old(sorted)@.contains(x) || x == record,
{
    let key = record.sort_key();
    let n = sorted.len();
    let mut lo: usize = 0;
    let mut hi: usize = n;
    while lo < hi
        invariant
            lo <= hi <= n,
            n == sorted@.len(),
            ascending(sorted@),
            key == record.key(),
            forall|j: int| 0 <= j < lo ==> (#[trigger] sorted@[j]).key() < key,
            forall|j: int| hi <= j < n ==> (#[trigger] sorted@[j]).key() >= key,
        decreases hi - lo,
    {
        let mid: usize = lo + (hi - lo) / 2;
        if sorted[mid].sort_key() < key {
            proof {
                assert forall|j: int| 0 <= j < mid + 1 implies (#[trigger] sorted@[j]).key()
                    < key by {
                    if j < mid {
                        assert(sorted@[j].key() < sorted@[mid as int].key());
                    }
                }
            }
            lo = mid + 1;
        } else {
            proof {
                assert forall|j: int| mid <= j < n implies (#[trigger] sorted@[j]).key()
                    >= key by {
                    if mid < j {
                        assert(sorted@[mid as int].key() < sorted@[j].key());
                    }
                }
            }
            hi = mid;
        }
    }
    let ghost before = sorted@;
    if lo < n && sorted[lo].sort_key() == key {
        proof {
            record.lemma_key_order(before[lo as int]);
        }
        return false;
    }
    proof {
        assert forall|j: int| 0 <= j < n implies (#[trigger] before[j]) != record by {
            record.lemma_key_order(before[j]);
        }
    }
    sorted.insert(lo, record);
    proof {
        let after = sorted@;
        assert(after == before.insert(lo as int, record));
        assert forall|i: int, j: int| 0 <= i < j < after.len() implies (
        #[trigger] after[i]).key() < (#[trigger] after[j]).key() by {
            if j < lo {
                assert(after[i] == before[i] && after[j] == before[j]);
            } else if j == lo {
                assert(after[i] == before[i]);
            } else if i < lo {
                assert(after[i] == before[i] && after[j] == before[j - 1]);
            } else if i == lo {
                assert(after[j] == before[j - 1]);
                record.lemma_key_order(before[j - 1]);
            } else {
                assert(after[i] == before[i - 1] && after[j] == before[j - 1]);
            }
        }
        assert forall|x: Record| after.contains(x) <==> before.contains(x) || x
            == record by {
            if after.contains(x) {
                let i = choose|i: int| 0 <= i < after.len() && after[i] == x;
                if i < lo {
                    assert(before[i] == x);
                } else if i > lo {
                    assert(before[i - 1] == x);
                }
            }
            if before.contains(x) {
                let i = choose|i: int| 0 <= i < before.len() && before[i] == x;
                if i < lo {
                    assert(after[i] == x);
                } else {
                    assert(after[i + 1] == x);
                }
            }
            if x == record {
                assert(after[lo as int] == x);
            }
        }
    }
    true
}

/// A set of records, held in ascending order.
#[derive(Debug)]
pub struct RecordSet {
    records: Vec<Record>,
}

impl View for RecordSet {
    type V = Seq<Record>;

    /// The records in ascending order.
    closed spec fn view(&self) -> Seq<Record> {
        self.records@
    }
}

impl RecordSet {
    /// The records are in ascending order, so none occurs twice.  This holds
    /// of every set that a program can hold.
    #[verifier::type_invariant]
    pub open spec fn wf(&self) -> bool {
        ascending(self@)
    }

    /// Sorts records into a set: each record of `records` is in it, once, and
    /// no other.
    pub fn collect(records: &Vec<Record>) -> (r: RecordSet)
        ensures
            is_sorted_once(r@, records@),
            r@ == sorted_once(records@),
    {
        let mut sorted: Vec<Record> = Vec::new();
        let n = records.len();
        let mut i: usize = 0;
        while i < n
            invariant
                i <= n,
                n == records@.len(),
                ascending(sorted@),
                forall|x: Record|
                    sorted@.contains(x) <==> records@.subrange(0, i as int).contains(x),
            decreases n - i,
        {
            let ghost before = sorted@;
            insert(&mut sorted, records[i]);
            proof {
                let seen = records@.subrange(0, i as int);
                let next = records@.subrange(0, i + 1);
                assert forall|x: Record| sorted@.contains(x) <==> next.contains(x) by {
                    if next.contains(x) {
                        let k = choose|k: int| 0 <= k < next.len() && next[k] == x;
                        if k < i {
                            assert(seen[k] == x);
                        }
                    }
                    if seen.contains(x) {
                        let k = choose|k: int| 0 <= k < seen.len() && seen[k] == x;
                        assert(next[k] == x);
                    }
                    if x == records@[i as int] {
                        assert(next[i as int] == x);
                    }
                }
            }
            i = i + 1;
        }
        proof {
            assert(records@.subrange(0, n as int) =~= records@);
        }
        proof {
            assert(is_sorted_once(sorted@, records@));
            lemma_ascending_is_unique(sorted@, sorted_once(records@));
        }
        RecordSet { records: sorted }
    }

    /// The records in ascending order.
    pub fn records(&self) -> (r: &Vec<Record>)
        ensures
            r@ == self@,
            ascending(r@),
    {
        proof {
            use_type_invariant(self);
        }
        &self.records
    }

    /// The image of the records: 12 bytes each, in ascending order.
    pub fn to_binary(&self) -> (r: Vec<u8>)
        ensures
            r@ == encode_table(self@),
            ascending(self@),
    {
        proof {
            use_type_invariant(self);
        }
        let n = self.records.len();
        let mut image: Vec<u8> = Vec::new();
        let mut i: usize = 0;
        while i < n
            invariant
                i <= n,
                n == self@.len(),
                image@ == encode_table(self@.subrange(0, i as int)),
            decreases n - i,
        {
            let bytes = self.records[i].to_binary();
            let ghost before = image@;
            let mut k: usize = 0;
            while k < 12
                invariant
                    k <= 12,
                    bytes@.len() == 12,
                    image@ == before + bytes@.subrange(0, k as int),
                decreases 12 - k,
            {
                image.push(bytes[k]);
                proof {
                    assert(bytes@.subrange(0, k + 1) =~= bytes@.subrange(0, k as int).push(
                        bytes@[k as int],
                    ));
                }
                k = k + 1;
            }
            proof {
                let next = self@.subrange(0, i + 1);
                assert(next.drop_last() =~= self@.subrange(0, i as int));
                assert(next.last() == self@[i as int]);
                assert(bytes@.subrange(0, 12) =~= bytes@);
            }
            i = i + 1;
        }
        proof {
            assert(self@.subrange(0, n as int) =~= self@);
        }
        image
    }
}

} // verus!
