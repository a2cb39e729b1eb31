//! The pending-request registry: inbound requests awaiting a local
//! accept/reject decision. Each entry ties a request to its still-open
//! connection, named by a handle the embedder owns; an entry is consumed
//! exactly once, on accept, reject or shutdown.

use crate::data::IncomingRequest;
use vstd::prelude::*;

verus! {

/// A live inbound request: the connection's remote identity, the decoded
/// request, and the handle under which the embedder keeps the open
/// connection and its not-yet-used response stream.
pub struct PendingRequest {
    pub remote_id: String,
    pub request: IncomingRequest,
    pub conn: u64,
}

/// Index of the first entry for `rid` at or after `i`, or -1.
pub open spec fn find_from(s: Seq<PendingRequest>, rid: Seq<char>, i: int) -> int
    decreases s.len() - i,
{
    if i < 0 || i >= s.len() {
        -1
    } else if s[i].remote_id@ == rid {
        i
    } else {
        find_from(s, rid, i + 1)
    }
}

/// Index of the first entry for `rid`, or -1 when none is present.
pub open spec fn find(s: Seq<PendingRequest>, rid: Seq<char>) -> int {
    find_from(s, rid, 0)
}

/// `find_from` returns -1 exactly when no entry at or after `i` matches,
/// and otherwise the first matching index.
pub proof fn lemma_find_from(s: Seq<PendingRequest>, rid: Seq<char>, i: int)
    requires
        0 <= i <= s.len(),
    ensures
        find_from(s, rid, i) == -1 <==> forall|k: int|
            i <= k < s.len() ==> (#[trigger] s[k].remote_id)@ != rid,
        find_from(s, rid, i) != -1 ==> i <= find_from(s, rid, i) < s.len() && s[find_from(
            s,
            rid,
            i,
        )].remote_id@ == rid && forall|k: int|
            i <= k < find_from(s, rid, i) ==> (#[trigger] s[k].remote_id)@ != rid,
    decreases s.len() - i,
{
    if i < s.len() && s[i].remote_id@ != rid {
        lemma_find_from(s, rid, i + 1);
    }
}

/// A registry holds no entry for an identity exactly when `find` misses.
pub proof fn lemma_find_none_iff_absent(s: Seq<PendingRequest>, rid: Seq<char>)
    ensures
        find(s, rid) == -1 <==> forall|k: int|
            0 <= k < s.len() ==> (#[trigger] s[k].remote_id)@ != rid,
{
    lemma_find_from(s, rid, 0);
}

/// Removing the only entry for an identity leaves none: a second lookup
/// for the same identity misses.
pub proof fn lemma_remove_unique_match(s: Seq<PendingRequest>, rid: Seq<char>)
    requires
        find(s, rid) >= 0,
        forall|k: int|
            0 <= k < s.len() && k != find(s, rid) ==> (#[trigger] s[k].remote_id)@ != rid,
    ensures
        find(s.remove(find(s, rid)), rid) == -1,
{
    let m = find(s, rid);
    lemma_find_from(s, rid, 0);
    let t = s.remove(m);
    assert forall|k: int| 0 <= k < t.len() implies (#[trigger] t[k].remote_id)@ != rid by {
        if k < m {
            assert(t[k] == s[k]);
        } else {
            assert(t[k] == s[k + 1]);
        }
    }
    lemma_find_none_iff_absent(t, rid);
}

/// The registry itself: entries in arrival order; duplicate identities
/// stand as distinct entries.
pub struct PendingRegistry {
    pub entries: Vec<PendingRequest>,
}

impl PendingRegistry {
    pub fn new() -> (r: PendingRegistry)
        ensures
            r.entries@ =~= Seq::<PendingRequest>::empty(),
    {
        PendingRegistry { entries: Vec::new() }
    }

    /// Record a new inbound request; entries for the same identity pile
    /// up rather than merge.
    pub fn insert(&mut self, e: PendingRequest)
        ensures
            final(self).entries@ == old(self).entries@.push(e),
    {
        self.entries.push(e);
    }

    /// Atomically remove the first entry for `rid`. Misses leave the
    /// registry exactly as it was.
    pub fn remove_by_remote_id(&mut self, rid: &String) -> (r: Option<PendingRequest>)
        ensures
            r is Some <==> find(old(self).entries@, rid@) >= 0,
            r matches Some(e) ==> {
                let m = find(old(self).entries@, rid@);
                &&& e == old(self).entries@[m]
                &&& e.remote_id@ == rid@
                &&& final(self).entries@ == old(self).entries@.remove(m)
            },
            r is None ==> final(self).entries@ == old(self).entries@,
    {
        proof {
            lemma_find_from(self.entries@, rid@, 0);
        }
        let ghost s = self.entries@;
        let mut i: usize = 0;
        while i < self.entries.len()
            invariant
                0 <= i <= s.len(),
                old(self).entries@ == s,
                self.entries@ == s,
                find_from(s, rid@, 0) == find_from(s, rid@, i as int),
            decreases s.len() - i,
        {
            if self.entries[i].remote_id == *rid {
                let e = self.entries.remove(i);
                return Some(e);
            }
            i += 1;
        }
        None
    }

    pub fn len(&self) -> (r: usize)
        ensures
            r == self.entries@.len(),
    {
        self.entries.len()
    }
}

} // verus!
