//! Storage of request bins: a trait for storage operations and an in-memory
//! implementation, with the store's laws stated and proved over its abstract
//! map of identifiers to captured request sequences.

use vstd::prelude::*;
use vstd::set_lib::lemma_len_subset;
use vstd::string::StringExecFns;

use crate::models::BinSummary;
use crate::models::Id;
use crate::models::IdExtractor;
use crate::models::Request;
use crate::models::is_hex_digit;
use crate::models::is_uuid_v4;
use crate::models::uuid_char_ok;
use crate::text::hex_digit;
use crate::text::hex_fixed;
use crate::text::hex_fixed_exec;
use crate::text::lemma_hex_fixed_chars;
use crate::text::lemma_hex_fixed_injective;
use crate::text::pow16;

verus! {

/// Status of inserting a request by bin id.
#[derive(PartialEq, Eq, Debug, Clone, Copy)]
pub enum InsertRequestStatus {
    /// Insert successful.
    Inserted,
    /// Insert failed because no bin by that id exists.
    NoSuchBin,
}

/// Status of deleting a bin by id.
#[derive(PartialEq, Eq, Debug, Clone, Copy)]
pub enum DeleteBinStatus {
    /// Successfully deleted.
    Deleted,
    /// No such bin; nothing was deleted.
    NoSuchBin,
}

/// A bin holds the requests captured for one identifier, in arrival order.
pub type Bin = Vec<Request>;

/// One stored bin: its identifier with its requests.
pub type BinEntry = (Id, Vec<Request>);

/// Abstract contents of a store: each live identifier text mapped to the
/// sequence of requests captured for it.
pub type BinsMap = Map<Seq<char>, Seq<Request>>;

/// Abstract contents of a sequence of stored bins.
pub open spec fn entries_map(s: Seq<BinEntry>) -> BinsMap
    decreases s.len(),
{
    if s.len() == 0 {
        Map::empty()
    } else {
        entries_map(s.drop_last()).insert(s.last().0@, s.last().1@)
    }
}

/// Some stored bin carries this identifier text.
pub open spec fn has_key(s: Seq<BinEntry>, k: Seq<char>) -> bool {
    exists|i: int| 0 <= i < s.len() && (#[trigger] s[i]).0@ == k
}

/// No two stored bins carry the same identifier text.
pub open spec fn distinct_ids(s: Seq<BinEntry>) -> bool {
    forall|i: int, j: int|
        0 <= i < j < s.len() ==> (#[trigger] s[i]).0@ != (#[trigger] s[j]).0@
}

/// The abstract map holds a key exactly when some stored bin carries it.
pub proof fn lemma_entries_map_contains(s: Seq<BinEntry>, k: Seq<char>)
    ensures
        entries_map(s).contains_key(k) <==> has_key(s, k),
    decreases s.len(),
{
    if s.len() > 0 {
        lemma_entries_map_contains(s.drop_last(), k);
        assert(forall|i: int| 0 <= i < s.len() - 1 ==> #[trigger] s.drop_last()[i] == s[i]);
        if s.last().0@ == k {
            assert(s[s.len() - 1].0@ == k);
        } else {
            if has_key(s, k) {
                let i = choose|i: int| 0 <= i < s.len() && (#[trigger] s[i]).0@ == k;
                assert(i < s.len() - 1);
                assert(s.drop_last()[i].0@ == k);
            }
            if has_key(s.drop_last(), k) {
                let i = choose|i: int|
                    0 <= i < s.len() - 1 && (#[trigger] s.drop_last()[i]).0@ == k;
                assert(s[i].0@ == k);
            }
        }
    }
}

/// With distinct identifiers, the abstract map sends each stored identifier
/// to that bin's requests.
pub proof fn lemma_entries_map_index(s: Seq<BinEntry>, i: int)
    requires
        distinct_ids(s),
        0 <= i < s.len(),
    ensures
        entries_map(s).contains_key(s[i].0@),
        entries_map(s)[s[i].0@] == s[i].1@,
    decreases s.len(),
{
    if i < s.len() - 1 {
        assert(forall|j: int| 0 <= j < s.len() - 1 ==> #[trigger] s.drop_last()[j] == s[j]);
        lemma_entries_map_index(s.drop_last(), i);
        assert(s[i].0@ != s.last().0@);
    }
}

/// Removing the bin at a position removes exactly its key from the abstract
/// map.
pub proof fn lemma_entries_map_remove(s: Seq<BinEntry>, i: int)
    requires
        distinct_ids(s),
        0 <= i < s.len(),
    ensures
        entries_map(s.remove(i)) =~= entries_map(s).remove(s[i].0@),
    decreases s.len(),
{
    assert(forall|j: int| 0 <= j < s.len() - 1 ==> #[trigger] s.drop_last()[j] == s[j]);
    if i == s.len() - 1 {
        assert(s.remove(i) =~= s.drop_last());
        lemma_entries_map_contains(s.drop_last(), s[i].0@);
        assert(!has_key(s.drop_last(), s[i].0@));
        assert(entries_map(s.drop_last()).insert(s.last().0@, s.last().1@).remove(s[i].0@)
            =~= entries_map(s.drop_last()));
    } else {
        assert(s.remove(i).drop_last() =~= s.drop_last().remove(i));
        assert(s.remove(i).last() == s.last());
        lemma_entries_map_remove(s.drop_last(), i);
        assert(s[i].0@ != s.last().0@);
        assert(entries_map(s.drop_last()).remove(s[i].0@).insert(s.last().0@, s.last().1@)
            =~= entries_map(s.drop_last()).insert(s.last().0@, s.last().1@).remove(s[i].0@));
    }
}

/// Replacing the requests of the bin at a position, keeping its identifier,
/// updates exactly its key in the abstract map.
pub proof fn lemma_entries_map_update(s: Seq<BinEntry>, i: int, e: BinEntry)
    requires
        distinct_ids(s),
        0 <= i < s.len(),
        e.0@ == s[i].0@,
    ensures
        entries_map(s.update(i, e)) =~= entries_map(s).insert(e.0@, e.1@),
    decreases s.len(),
{
    assert(forall|j: int| 0 <= j < s.len() - 1 ==> #[trigger] s.drop_last()[j] == s[j]);
    if i == s.len() - 1 {
        assert(s.update(i, e).drop_last() =~= s.drop_last());
        assert(s.update(i, e).last() == e);
    } else {
        assert(s.update(i, e).drop_last() =~= s.drop_last().update(i, e));
        assert(s.update(i, e).last() == s.last());
        lemma_entries_map_update(s.drop_last(), i, e);
        assert(e.0@ != s.last().0@);
        assert(entries_map(s.drop_last()).insert(e.0@, e.1@).insert(s.last().0@, s.last().1@)
            =~= entries_map(s.drop_last()).insert(s.last().0@, s.last().1@).insert(e.0@, e.1@));
    }
}

/// Effect of a successful bin creation on the abstract store: a fresh key,
/// bound to the empty sequence.
pub open spec fn create_post(pre: BinsMap, post: BinsMap, id: Seq<char>) -> bool {
    !pre.contains_key(id) && post == pre.insert(id, Seq::<Request>::empty())
}

/// Effect of a successful insertion on the abstract store: the addressed
/// bin's sequence grows by the request at the end.
pub open spec fn insert_post(pre: BinsMap, post: BinsMap, id: Seq<char>, r: Request) -> bool {
    pre.contains_key(id) && post == pre.insert(id, pre[id].push(r))
}

/// Effect of a successful deletion on the abstract store: the addressed key
/// is gone.
pub open spec fn delete_post(pre: BinsMap, post: BinsMap, id: Seq<char>) -> bool {
    pre.contains_key(id) && post == pre.remove(id)
}

/// The summaries faithfully describe the store: every listed identifier is
/// live with its current count, every live identifier is listed, and none is
/// listed twice.
pub open spec fn summaries_complete(m: BinsMap, bs: Seq<BinSummary>) -> bool {
    &&& forall|j: int|
        0 <= j < bs.len() ==> m.contains_key((#[trigger] bs[j]).id@) && bs[j].request_count
            == m[bs[j].id@].len()
    &&& forall|k: Seq<char>|
        #[trigger] m.contains_key(k) ==> exists|j: int| 0 <= j < bs.len() && (#[trigger] bs[j]).id@
            == k
    &&& forall|a: int, b: int| 0 <= a < b < bs.len() ==> (#[trigger] bs[a]).id@ != (#[trigger] bs[b]).id@
}

/// Trait for storage operations for requests.
pub trait Bins: Sized {
    /// Abstract contents: each live identifier mapped to its captured
    /// requests, in arrival order.
    spec fn bins_map(&self) -> BinsMap;

    /// Internal well-formedness of the store.
    spec fn wf(&self) -> bool;

    /// Creates a bin under a fresh identifier and returns its summary.
    fn create_bin(&mut self) -> (r: BinSummary)
        requires
            old(self).wf(),
        ensures
            final(self).wf(),
            r.request_count == 0,
            is_uuid_v4(r.id@),
            create_post(old(self).bins_map(), final(self).bins_map(), r.id@),
    ;

    /// Deletes a bin by id; reports whether the bin existed.
    fn delete_bin(&mut self, id: &Id) -> (r: DeleteBinStatus)
        requires
            old(self).wf(),
        ensures
            final(self).wf(),
            old(self).bins_map().contains_key(id@) ==> r == DeleteBinStatus::Deleted
                && delete_post(old(self).bins_map(), final(self).bins_map(), id@),
            !old(self).bins_map().contains_key(id@) ==> r == DeleteBinStatus::NoSuchBin
                && final(self).bins_map() == old(self).bins_map(),
    ;

    /// Gets a bin (not just a summary) by id.
    fn get_bin<'a>(&'a self, id: &'a Id) -> (r: Option<&'a Bin>)
        requires
            self.wf(),
        ensures
            match r {
                Some(b) => self.bins_map().contains_key(id@) && b@ == self.bins_map()[id@],
                None => !self.bins_map().contains_key(id@),
            },
    ;

    /// Gets a bin summary by id.
    fn get_bin_summary(&self, id: &Id) -> (r: Option<BinSummary>)
        requires
            self.wf(),
        ensures
            r is Some <==> self.bins_map().contains_key(id@),
            r is Some ==> r.unwrap().id@ == id@ && r.unwrap().request_count == self.bins_map()[id@].len(),
    ;

    /// Gets summaries for all currently stored bins: one summary for every
    /// live identifier, each with its current request count.
    fn get_bin_summaries(&self) -> (r: Vec<BinSummary>)
        requires
            self.wf(),
        ensures
            summaries_complete(self.bins_map(), r@),
    ;

    /// Inserts a request into a bin by id; reports whether the bin existed.
    fn insert_request(&mut self, id: &Id, request: Request) -> (r: InsertRequestStatus)
        requires
            old(self).wf(),
        ensures
            final(self).wf(),
            old(self).bins_map().contains_key(id@) ==> r == InsertRequestStatus::Inserted
                && insert_post(old(self).bins_map(), final(self).bins_map(), id@, request),
            !old(self).bins_map().contains_key(id@) ==> r == InsertRequestStatus::NoSuchBin
                && final(self).bins_map() == old(self).bins_map(),
    ;
}

/// A simple in-memory implementation of `Bins`.
#[derive(Debug)]
pub struct InMemoryBins {
    /// The stored bins, in creation order.
    pub bins: Vec<BinEntry>,
}

impl InMemoryBins {
    /// An empty store.
    pub fn new() -> (r: InMemoryBins)
        ensures
            r.wf(),
            r.bins_map() == BinsMap::empty(),
    {
        InMemoryBins { bins: Vec::new() }
    }

    /// Decides the store's well-formedness: no identifier stored twice.
    pub fn check_wf(&self) -> (r: bool)
        ensures
            r == self.wf(),
    {
        let n = self.bins.len();
        let mut i: usize = 0;
        while i < n
            invariant
                i <= n == self.bins@.len(),
                forall|a: int, b: int|
                    0 <= a < b < self.bins@.len() && a < i ==> (#[trigger] self.bins@[a]).0@ != (
                    #[trigger] self.bins@[b]).0@,
            decreases n - i,
        {
            let mut j: usize = i + 1;
            while j < n
                invariant
                    i < j <= n == self.bins@.len(),
                    forall|b: int|
                        i < b < j ==> (#[trigger] self.bins@[b]).0@ != self.bins@[i as int].0@,
                decreases n - j,
            {
                if self.bins[i].0.same_as(&self.bins[j].0) {
                    return false;
                }
                j += 1;
            }
            i += 1;
        }
        true
    }

    /// Position of the bin carrying this identifier, when one does.
    fn find(&self, id: &Id) -> (r: Option<usize>)
        requires
            self.wf(),
        ensures
            r is Some ==> (r.unwrap() as int) < self.bins@.len() && self.bins@[r.unwrap() as int].0@
                == id@ && self.bins_map().contains_key(id@),
            r is None ==> !self.bins_map().contains_key(id@),
    {
        let n = self.bins.len();
        let mut i: usize = 0;
        while i < n
            invariant
                i <= n == self.bins@.len(),
                forall|j: int| 0 <= j < i ==> (#[trigger] self.bins@[j]).0@ != id@,
            decreases n - i,
        {
            if self.bins[i].0.same_as(id) {
                proof {
                    lemma_entries_map_contains(self.bins@, id@);
                }
                return Some(i);
            }
            i += 1;
        }
        proof {
            lemma_entries_map_contains(self.bins@, id@);
        }
        None
    }

    /// An identifier not yet in use: random identifiers are drawn and
    /// collision-checked; should every draw collide, a deterministic scan
    /// over counter-shaped identifiers finds a fresh one.
    fn fresh_id(&self) -> (r: Id)
        requires
            self.wf(),
        ensures
            is_uuid_v4(r@),
            !self.bins_map().contains_key(r@),
    {
        let mut tries: usize = 0;
        while tries < 16
            invariant
                self.wf(),
            decreases 16 - tries,
        {
            let id = Id::random();
            if self.find(&id).is_none() {
                return id;
            }
            tries += 1;
        }
        self.scan_fresh_id()
    }

    /// A fresh identifier found deterministically: among the counter-shaped
    /// candidates numbered zero to the store's size, at least one is no key
    /// of the store.
    fn scan_fresh_id(&self) -> (r: Id)
        requires
            self.wf(),
        ensures
            is_uuid_v4(r@),
            !self.bins_map().contains_key(r@),
    {
        let n = self.bins.len();
        let extractor = IdExtractor::new();
        let mut c: usize = 0;
        while c < n
            invariant
                self.wf(),
                c <= n == self.bins@.len(),
                forall|c0: u64|
                    (c0 as nat) < c ==> self.bins_map().contains_key(#[trigger] cand_seq(c0)),
            decreases n - c,
        {
            proof {
                lemma_cand_is_uuid(c as u64);
            }
            let s = candidate_string(c as u64);
            match extractor.parse(s.as_str()) {
                Some(id) => {
                    if self.find(&id).is_none() {
                        return id;
                    }
                },
                None => {
                    proof {
                        assert(false);
                    }
                },
            }
            c += 1;
        }
        proof {
            lemma_cand_is_uuid(n as u64);
        }
        let s = candidate_string(n as u64);
        match extractor.parse(s.as_str()) {
            Some(id) => {
                if self.find(&id).is_none() {
                    return id;
                }
                proof {
                    lemma_some_candidate_fresh(self.bins@, n as u64);
                    let c0 = choose|c0: u64|
                        c0 <= n as u64 && !entries_map(self.bins@).contains_key(
                            #[trigger] cand_seq(c0),
                        );
                    assert(entries_map(self.bins@).contains_key(cand_seq(c0)));
                    assert(false);
                }
                id
            },
            None => {
                proof {
                    assert(false);
                }
                Id::random()
            },
        }
    }
}

/// Template for the deterministic fallback identifiers: the counter's high
/// sixteen bits rendered into the head of the first group and its low
/// forty-eight bits into the last group of a fixed UUID-v4 shape.
spec fn cand_seq(c: u64) -> Seq<char> {
    hex_fixed(4, c as nat / 0x1000000000000) + "0000-0000-4000-8000-"@ + hex_fixed(
        12,
        c as nat % 0x1000000000000,
    )
}

/// Values of the powers of sixteen the candidate shape uses.
proof fn lemma_pow16_values()
    ensures
        pow16(4) == 0x10000,
        pow16(12) == 0x1000000000000,
{
    assert(pow16(0) == 1);
    assert(pow16(1) == 16);
    assert(pow16(2) == 0x100);
    assert(pow16(3) == 0x1000);
    assert(pow16(4) == 0x10000);
    assert(pow16(5) == 0x100000);
    assert(pow16(6) == 0x1000000);
    assert(pow16(7) == 0x10000000);
    assert(pow16(8) == 0x100000000);
    assert(pow16(9) == 0x1000000000);
    assert(pow16(10) == 0x10000000000);
    assert(pow16(11) == 0x100000000000);
    assert(pow16(12) == 0x1000000000000);
}

/// Every candidate is canonical UUID-v4 text.
proof fn lemma_cand_is_uuid(c: u64)
    ensures
        is_uuid_v4(cand_seq(c)),
{
    reveal_strlit("0000-0000-4000-8000-");
    let hi = hex_fixed(4, c as nat / 0x1000000000000);
    let lit = "0000-0000-4000-8000-"@;
    let lo = hex_fixed(12, c as nat % 0x1000000000000);
    lemma_hex_fixed_chars(4, c as nat / 0x1000000000000);
    lemma_hex_fixed_chars(12, c as nat % 0x1000000000000);
    assert(cand_seq(c).len() == 36);
    assert forall|i: int| 0 <= i < 36 implies #[trigger] uuid_char_ok(cand_seq(c), i) by {
        if i < 4 {
            assert(cand_seq(c)[i] == hi[i]);
            let d = choose|d: nat| d < 16 && hi[i] == hex_digit(d);
            assert(is_hex_digit(hex_digit(d)));
        } else if i < 24 {
            assert(cand_seq(c)[i] == lit[i - 4]);
        } else {
            assert(cand_seq(c)[i] == lo[i - 24]);
            let d = choose|d: nat| d < 16 && lo[i - 24] == hex_digit(d);
            assert(is_hex_digit(hex_digit(d)));
        }
    }
}

/// Renders the candidate identifier text for a counter value.
fn candidate_string(c: u64) -> (r: String)
    ensures
        r@ == cand_seq(c),
{
    let mut s = hex_fixed_exec(4, c / 0x1000000000000);
    s.append("0000-0000-4000-8000-");
    let low = hex_fixed_exec(12, c % 0x1000000000000);
    s.append(low.as_str());
    proof {
        assert(s@ =~= cand_seq(c));
    }
    s
}

/// Distinct counters give distinct candidate texts.
proof fn lemma_cand_injective(c1: u64, c2: u64)
    requires
        cand_seq(c1) == cand_seq(c2),
    ensures
        c1 == c2,
{
    lemma_pow16_values();
    let h1 = c1 as nat / 0x1000000000000;
    let h2 = c2 as nat / 0x1000000000000;
    let l1 = c1 as nat % 0x1000000000000;
    let l2 = c2 as nat % 0x1000000000000;
    lemma_hex_fixed_chars(4, h1);
    lemma_hex_fixed_chars(4, h2);
    lemma_hex_fixed_chars(12, l1);
    lemma_hex_fixed_chars(12, l2);
    reveal_strlit("0000-0000-4000-8000-");
    assert(cand_seq(c1).subrange(0, 4) =~= hex_fixed(4, h1));
    assert(cand_seq(c2).subrange(0, 4) =~= hex_fixed(4, h2));
    assert(cand_seq(c1).subrange(24, 36) =~= hex_fixed(12, l1));
    assert(cand_seq(c2).subrange(24, 36) =~= hex_fixed(12, l2));
    assert(h1 < pow16(4) && h2 < pow16(4)) by (nonlinear_arith)
        requires
            c1 <= u64::MAX,
            c2 <= u64::MAX,
            h1 == c1 as nat / 0x1000000000000,
            h2 == c2 as nat / 0x1000000000000,
            pow16(4) == 0x10000,
    ;
    lemma_hex_fixed_injective(4, h1, h2);
    lemma_hex_fixed_injective(12, l1, l2);
    assert(c1 as nat == h1 * 0x1000000000000 + l1);
    assert(c2 as nat == h2 * 0x1000000000000 + l2);
}

/// The set of the first `k` candidate texts.
spec fn cand_set(k: nat) -> Set<Seq<char>>
    decreases k,
{
    if k == 0 {
        Set::empty()
    } else {
        cand_set((k - 1) as nat).insert(cand_seq(((k - 1) as nat) as u64))
    }
}

/// The first `k` candidate texts form a finite set of exactly `k` elements,
/// and its members are exactly those texts.
proof fn lemma_cand_set(k: nat)
    requires
        k <= 0x10000000000000000,
    ensures
        cand_set(k).finite(),
        cand_set(k).len() == k,
        forall|x: Seq<char>|
            #[trigger] cand_set(k).contains(x) ==> exists|c: u64| (c as nat) < k && x == cand_seq(c),
        forall|c: u64| (c as nat) < k ==> cand_set(k).contains(#[trigger] cand_seq(c)),
    decreases k,
{
    broadcast use vstd::set::axiom_set_insert_len;
    broadcast use vstd::set::axiom_set_insert_finite;

    if k > 0 {
        lemma_cand_set((k - 1) as nat);
        let ck = ((k - 1) as nat) as u64;
        if cand_set((k - 1) as nat).contains(cand_seq(ck)) {
            let c0 = choose|c0: u64| (c0 as nat) < k - 1 && cand_seq(ck) == cand_seq(c0);
            lemma_cand_injective(c0, ck);
            assert(false);
        }
    }
}

/// The abstract map of a store has finitely many keys, at most as many as
/// there are stored bins.
proof fn lemma_entries_map_dom(s: Seq<BinEntry>)
    ensures
        entries_map(s).dom().finite(),
        entries_map(s).dom().len() <= s.len(),
    decreases s.len(),
{
    broadcast use vstd::set::axiom_set_insert_len;
    broadcast use vstd::set::axiom_set_insert_finite;

    if s.len() == 0 {
        assert(entries_map(s).dom() =~= Set::<Seq<char>>::empty());
    } else {
        lemma_entries_map_dom(s.drop_last());
        assert(entries_map(s).dom() =~= entries_map(s.drop_last()).dom().insert(s.last().0@));
    }
}

/// Pigeonhole: a store of `n` bins has fewer keys than there are candidate
/// texts numbered up to `n`, so one of those candidates is no key.
proof fn lemma_some_candidate_fresh(s: Seq<BinEntry>, n: u64)
    requires
        s.len() == n,
    ensures
        exists|c0: u64| c0 <= n && !entries_map(s).contains_key(#[trigger] cand_seq(c0)),
{
    if forall|c0: u64| c0 <= n ==> entries_map(s).contains_key(#[trigger] cand_seq(c0)) {
        lemma_cand_set(n as nat + 1);
        lemma_entries_map_dom(s);
        assert forall|x: Seq<char>| #[trigger]
            cand_set(n as nat + 1).contains(x) implies entries_map(s).dom().contains(x) by {
            let c0 = choose|c0: u64| (c0 as nat) < n as nat + 1 && x == cand_seq(c0);
            assert(entries_map(s).contains_key(cand_seq(c0)));
        }
        lemma_len_subset(cand_set(n as nat + 1), entries_map(s).dom());
        assert(false);
    }
}

impl Bins for InMemoryBins {
    open spec fn bins_map(&self) -> BinsMap {
        entries_map(self.bins@)
    }

    open spec fn wf(&self) -> bool {
        distinct_ids(self.bins@)
    }

    fn create_bin(&mut self) -> (r: BinSummary) {
        let id = self.fresh_id();
        let ghost s0 = self.bins@;
        let stored = id.duplicate();
        let requests: Vec<Request> = Vec::new();
        self.bins.push((stored, requests));
        proof {
            assert(self.bins@.drop_last() =~= s0);
            lemma_entries_map_contains(s0, id@);
            assert(forall|j: int| 0 <= j < s0.len() ==> #[trigger] self.bins@[j] == s0[j]);
            assert(distinct_ids(self.bins@));
            assert(entries_map(self.bins@) =~= entries_map(s0).insert(
                id@,
                Seq::<Request>::empty(),
            ));
        }
        BinSummary { id, request_count: 0 }
    }

    fn delete_bin(&mut self, id: &Id) -> (r: DeleteBinStatus) {
        let ghost s0 = self.bins@;
        match self.find(id) {
            Some(i) => {
                proof {
                    lemma_entries_map_remove(s0, i as int);
                }
                self.bins.remove(i);
                proof {
                    assert(distinct_ids(self.bins@));
                }
                DeleteBinStatus::Deleted
            },
            None => DeleteBinStatus::NoSuchBin,
        }
    }

    fn get_bin<'a>(&'a self, id: &'a Id) -> (r: Option<&'a Bin>) {
        match self.find(id) {
            Some(i) => {
                proof {
                    lemma_entries_map_index(self.bins@, i as int);
                }
                Some(&self.bins[i].1)
            },
            None => None,
        }
    }

    fn get_bin_summary(&self, id: &Id) -> (r: Option<BinSummary>) {
        match self.find(id) {
            Some(i) => {
                proof {
                    lemma_entries_map_index(self.bins@, i as int);
                }
                Some(
                    BinSummary {
                        id: id.duplicate(),
                        request_count: self.bins[i].1.len(),
                    },
                )
            },
            None => None,
        }
    }

    fn get_bin_summaries(&self) -> (r: Vec<BinSummary>) {
        let n = self.bins.len();
        let mut out: Vec<BinSummary> = Vec::new();
        let mut i: usize = 0;
        while i < n
            invariant
                i <= n == self.bins@.len(),
                distinct_ids(self.bins@),
                out@.len() == i,
                forall|j: int|
                    0 <= j < i ==> (#[trigger] out@[j]).id@ == self.bins@[j].0@
                        && out@[j].request_count == self.bins@[j].1@.len(),
            decreases n - i,
        {
            let stored = self.bins[i].0.duplicate();
            let cnt = self.bins[i].1.len();
            out.push(BinSummary { id: stored, request_count: cnt });
            i += 1;
        }
        proof {
            assert forall|j: int| 0 <= j < out@.len() implies self.bins_map().contains_key(
                (#[trigger] out@[j]).id@,
            ) && out@[j].request_count == self.bins_map()[out@[j].id@].len() by {
                lemma_entries_map_index(self.bins@, j);
            }
            assert forall|k: Seq<char>| #[trigger]
                self.bins_map().contains_key(k) implies exists|j: int|
                0 <= j < out@.len() && (#[trigger] out@[j]).id@ == k by {
                lemma_entries_map_contains(self.bins@, k);
                let i0 = choose|i0: int| 0 <= i0 < self.bins@.len() && (#[trigger] self.bins@[i0]).0@ == k;
                assert(out@[i0].id@ == k);
            }
        }
        out
    }

    fn insert_request(&mut self, id: &Id, request: Request) -> (r: InsertRequestStatus) {
        let ghost s0 = self.bins@;
        match self.find(id) {
            Some(i) => {
                proof {
                    lemma_entries_map_index(s0, i as int);
                }
                let mut entry = self.bins.remove(i);
                entry.1.push(request);
                self.bins.insert(i, entry);
                proof {
                    assert(self.bins@ =~= s0.update(i as int, self.bins@[i as int]));
                    lemma_entries_map_update(s0, i as int, self.bins@[i as int]);
                    assert(distinct_ids(self.bins@));
                    assert(entries_map(self.bins@) =~= entries_map(s0).insert(
                        id@,
                        entries_map(s0)[id@].push(request),
                    ));
                }
                InsertRequestStatus::Inserted
            },
            None => InsertRequestStatus::NoSuchBin,
        }
    }
}

/// Uniqueness: along any chain of successful creations, the returned
/// identifiers are pairwise distinct, whatever else the identifiers are.
/// `states` are the abstract store contents before and after each creation,
/// and `ids[i]` is the identifier returned by the creation that took
/// `states[i]` to `states[i + 1]`.
pub proof fn lemma_create_chain_uniqueness(states: Seq<BinsMap>, ids: Seq<Seq<char>>)
    requires
        states.len() == ids.len() + 1,
        forall|i: int|
            0 <= i < ids.len() ==> create_post(
                #[trigger] states[i],
                states[i + 1],
                ids[i],
            ),
    ensures
        forall|i: int, j: int| 0 <= i < j < ids.len() ==> ids[i] != ids[j],
{
    assert forall|i: int, j: int| 0 <= i < j < ids.len() implies ids[i] != ids[j] by {
        lemma_created_key_persists(states, ids, i, j);
        assert(!states[j].contains_key(ids[j]));
    }
}

/// A created identifier stays a key of every later state of a creation
/// chain.
proof fn lemma_created_key_persists(states: Seq<BinsMap>, ids: Seq<Seq<char>>, i: int, k: int)
    requires
        states.len() == ids.len() + 1,
        forall|i0: int|
            0 <= i0 < ids.len() ==> create_post(
                #[trigger] states[i0],
                states[i0 + 1],
                ids[i0],
            ),
        0 <= i < k <= ids.len(),
    ensures
        states[k].contains_key(ids[i]),
    decreases k - i,
{
    if k == i + 1 {
        assert(create_post(states[i], states[i + 1], ids[i]));
    } else {
        lemma_created_key_persists(states, ids, i, k - 1);
        assert(create_post(states[k - 1], states[k], ids[k - 1]));
    }
}

/// Count accuracy: starting from an empty bin, a chain of successful
/// insertions under one identifier leaves exactly the inserted requests, in
/// insertion order; in particular the bin then holds as many requests as
/// there were insertions. Because every insertion holds the store's single
/// lock, concurrent captures serialize into such a chain.
pub proof fn lemma_insert_chain_count(states: Seq<BinsMap>, id: Seq<char>, reqs: Seq<Request>)
    requires
        states.len() == reqs.len() + 1,
        states[0].contains_key(id),
        states[0][id] == Seq::<Request>::empty(),
        forall|i: int|
            0 <= i < reqs.len() ==> insert_post(
                #[trigger] states[i],
                states[i + 1],
                id,
                reqs[i],
            ),
    ensures
        states[states.len() - 1].contains_key(id),
        states[states.len() - 1][id] == reqs,
        states[states.len() - 1][id].len() == reqs.len(),
    decreases reqs.len(),
{
    if reqs.len() == 0 {
        assert(states[0][id] =~= reqs);
    } else {
        let n = reqs.len() as int;
        lemma_insert_chain_count(states.drop_last(), id, reqs.drop_last());
        assert(forall|j: int| 0 <= j < n ==> #[trigger] states.drop_last()[j] == states[j]);
        assert(insert_post(states[n - 1], states[n], id, reqs[n - 1]));
        assert(states[n - 1][id].push(reqs[n - 1]) =~= reqs);
    }
}

/// Steps under other identifiers leave a bin untouched: a creation,
/// insertion or deletion addressing a different identifier preserves this
/// bin's contents. Together with `lemma_insert_chain_count` this covers
/// concurrent captures: the store's lock serializes them, whatever else
/// interleaves, into a chain that grows the addressed bin by exactly one
/// record per capture.
pub proof fn lemma_unrelated_step_preserves_bin(
    pre: BinsMap,
    post: BinsMap,
    other: Seq<char>,
    id: Seq<char>,
    r: Request,
)
    requires
        other != id,
        create_post(pre, post, other) || delete_post(pre, post, other) || insert_post(
            pre,
            post,
            other,
            r,
        ),
    ensures
        pre.contains_key(id) ==> post.contains_key(id) && post[id] == pre[id],
{
}

/// Deletion finality: once a deletion succeeds, the identifier is no key of
/// the store, so by the contracts of `get_bin`, `get_bin_summary` and
/// `insert_request` every subsequent operation on it reports absence until
/// the identifier is created again.
pub proof fn lemma_deletion_finality(pre: BinsMap, post: BinsMap, id: Seq<char>)
    requires
        delete_post(pre, post, id),
    ensures
        !post.contains_key(id),
{
}

} // verus!
