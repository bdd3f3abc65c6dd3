//! Framing of the orchestrator's event stream: newline-separated records,
//! and the highest index seen so far.
use vstd::prelude::*;

verus! {

/// Index of the first newline in `s`, or -1.
pub open spec fn first_newline(s: Seq<u8>) -> int
    decreases s.len(),
{
    if s.len() == 0 {
        -1
    } else if s[0] == 10u8 {
        0
    } else {
        let r = first_newline(s.drop_first());
        if r < 0 { -1 } else { r + 1 }
    }
}

proof fn lemma_first_newline(s: Seq<u8>)
    ensures
        -1 <= first_newline(s) < s.len(),
        first_newline(s) >= 0 ==> s[first_newline(s)] == 10u8,
        forall|j: int| 0 <= j < s.len() && (first_newline(s) < 0 || j < first_newline(s)) ==> s[j] != 10u8,
    decreases s.len(),
{
    if s.len() > 0 {
        lemma_first_newline(s.drop_first());
        assert forall|j: int| 0 <= j < s.len() && (first_newline(s) < 0 || j < first_newline(s)) implies s[j] != 10u8 by {
            if j > 0 {
                assert(s[j] == s.drop_first()[j - 1]);
            }
        }
    }
}

/// Takes the first complete record (without its newline) off the front of
/// `pending`; with no newline there, `pending` stays as it is.
pub fn take_record(pending: &mut Vec<u8>) -> (r: Option<Vec<u8>>)
    ensures
        ({
            let i = first_newline(old(pending)@);
            match r {
                None => i < 0 && final(pending)@ == old(pending)@,
                Some(rec) => i >= 0 && rec@ == old(pending)@.take(i) && final(pending)@ == old(
                    pending,
                )@.skip(i + 1),
            }
        }),
{
    proof {
        lemma_first_newline(pending@);
    }
    let mut i: usize = 0;
    while i < pending.len()
        invariant
            i <= pending@.len(),
            forall|j: int| 0 <= j < i ==> pending@[j] != 10u8,
        ensures
            i == pending@.len() || pending@[i as int] == 10u8,
            forall|j: int| 0 <= j < i ==> pending@[j] != 10u8,
        decreases pending@.len() - i,
    {
        if pending[i] == 10u8 {
            break;
        }
        i = i + 1;
    }
    if i == pending.len() {
        return None;
    }
    assert(first_newline(pending@) == i);
    let ghost before = pending@;
    let mut rec: Vec<u8> = Vec::new();
    let mut k: usize = 0;
    while k < i
        invariant
            k <= i < pending@.len(),
            pending@ == before,
            rec@ == before.take(k as int),
        decreases i - k,
    {
        rec.push(pending[k]);
        k = k + 1;
        assert(rec@ =~= before.take(k as int));
    }
    let mut rest: Vec<u8> = Vec::new();
    let mut k: usize = i + 1;
    while k < pending.len()
        invariant
            i < k <= pending@.len(),
            pending@ == before,
            rest@ == before.subrange(i + 1, k as int),
        decreases pending@.len() - k,
    {
        rest.push(pending[k]);
        k = k + 1;
        assert(rest@ =~= before.subrange(i + 1, k as int));
    }
    assert(rest@ =~= before.skip(i + 1));
    *pending = rest;
    Some(rec)
}

/// The highest of the stored index and the one a record carries.
pub open spec fn next_index_spec(stored: usize, seen: Option<usize>) -> usize {
    match seen {
        Some(s) => if s > stored { s } else { stored },
        None => stored,
    }
}

/// The index to resume the stream from after a record that carries `seen`:
/// the highest index seen so far.
pub fn next_index(stored: usize, seen: Option<usize>) -> (r: usize)
    ensures
        r == next_index_spec(stored, seen),
        r >= stored,
{
    match seen {
        Some(s) => if s > stored { s } else { stored },
        None => stored,
    }
}

/// Whether a record that carries `seen` wakes the waiters: only when it
/// shows an index higher than the stored one.
pub fn wakes_waiters(stored: usize, seen: Option<usize>) -> (r: bool)
    ensures
        r == (seen matches Some(s) && s > stored),
        r <==> next_index_spec(stored, seen) > stored,
{
    match seen {
        Some(s) => s > stored,
        None => false,
    }
}

} // verus!
