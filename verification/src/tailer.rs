//! Scheduling decisions of the maintenance job that tails the repositories.
//!
//! The job walks the configured repositories and rebuilds a derived index for
//! each. Its I/O — configuration, stores, clocks — is external; what is
//! decided here is verified: how the periodic runs of several repositories
//! are spread out in time, and which prefetched entries belong to which
//! repository.

use vstd::prelude::*;

verus! {

/// Seconds between the staggered starts of two consecutive repositories'
/// periodic runs.
pub const STAGGER_SECS: u64 = 7;

/// How long repository number `index` waits before its first periodic run:
/// runs are spread out so that updates on different repositories do not
/// start together. `None` when the delay does not fit the clock's range.
pub fn stagger_delay_secs(index: u64) -> (d: Option<u64>)
    ensures
        STAGGER_SECS * index <= u64::MAX ==> d == Some((STAGGER_SECS * index) as u64),
        STAGGER_SECS * index > u64::MAX ==> d is None,
{
    if index <= u64::MAX / STAGGER_SECS {
        Some(STAGGER_SECS * index)
    } else {
        None
    }
}

/// One prefetched entry: the repository it belongs to and its opaque record.
pub struct CommitEntry {
    pub repo: u64,
    pub record: Vec<u8>,
}

/// Model of one prefetched entry.
#[verifier::ext_equal]
pub struct EntryModel {
    pub repo: u64,
    pub record: Seq<u8>,
}

impl View for CommitEntry {
    type V = EntryModel;

    open spec fn view(&self) -> EntryModel {
        EntryModel { repo: self.repo, record: self.record@ }
    }
}

/// Model of a sequence of entries.
pub open spec fn entries_model(s: Seq<CommitEntry>) -> Seq<EntryModel> {
    Seq::new(s.len(), |i: int| s[i]@)
}

/// The entries of one repository, in their original order.
pub open spec fn entries_for(s: Seq<EntryModel>, repo: u64) -> Seq<EntryModel>
    decreases s.len(),
{
    if s.len() == 0 {
        Seq::empty()
    } else if s[0].repo == repo {
        seq![s[0]] + entries_for(s.drop_first(), repo)
    } else {
        entries_for(s.drop_first(), repo)
    }
}

/// Appending one entry extends its own repository's selection and no other.
pub proof fn lemma_entries_for_push(s: Seq<EntryModel>, e: EntryModel, repo: u64)
    ensures
        entries_for(s.push(e), repo) == entries_for(s, repo) + (if e.repo == repo {
            seq![e]
        } else {
            Seq::<EntryModel>::empty()
        }),
    decreases s.len(),
{
    if s.len() == 0 {
        assert(s.push(e)[0] == e);
        assert(s.push(e).drop_first() =~= Seq::<EntryModel>::empty());
        assert(entries_for(Seq::<EntryModel>::empty(), repo) == Seq::<EntryModel>::empty());
        assert(entries_for(s, repo) == Seq::<EntryModel>::empty());
        if e.repo == repo {
            assert(entries_for(s.push(e), repo) =~= entries_for(s, repo) + seq![e]);
        } else {
            assert(entries_for(s.push(e), repo) =~= entries_for(s, repo));
            assert(entries_for(s, repo) + Seq::<EntryModel>::empty() =~= entries_for(s, repo));
        }
    } else {
        assert(s.push(e)[0] == s[0]);
        assert(s.push(e).drop_first() =~= s.drop_first().push(e));
        lemma_entries_for_push(s.drop_first(), e, repo);
        let tail = if e.repo == repo {
            seq![e]
        } else {
            Seq::<EntryModel>::empty()
        };
        if s[0].repo == repo {
            assert(seq![s[0]] + (entries_for(s.drop_first(), repo) + tail) =~= (seq![s[0]]
                + entries_for(s.drop_first(), repo)) + tail);
        }
        if e.repo != repo {
            assert(entries_for(s, repo) + tail =~= entries_for(s, repo));
        }
    }
}

/// Copy a byte buffer.
fn copy_record(v: &Vec<u8>) -> (r: Vec<u8>)
    ensures
        r@ == v@,
{
    let mut r: Vec<u8> = Vec::new();
    let mut i: usize = 0;
    while i < v.len()
        invariant
            i <= v.len(),
            r@ == v@.take(i as int),
        decreases v.len() - i,
    {
        r.push(v[i]);
        proof {
            assert(v@.take(i + 1 as int) =~= v@.take(i as int).push(v@[i as int]));
        }
        i = i + 1;
    }
    proof {
        assert(v@.take(v@.len() as int) =~= v@);
    }
    r
}

/// Select the prefetched entries of one repository, keeping their order:
/// entries of every other repository are left out.
pub fn entries_for_repo(entries: &Vec<CommitEntry>, repo: u64) -> (r: Vec<CommitEntry>)
    ensures
        entries_model(r@) == entries_for(entries_model(entries@), repo),
{
    let mut r: Vec<CommitEntry> = Vec::new();
    let mut k: usize = 0;
    proof {
        assert(entries_model(r@) =~= Seq::<EntryModel>::empty());
        assert(entries_model(entries@).take(0) =~= Seq::<EntryModel>::empty());
    }
    while k < entries.len()
        invariant
            k <= entries.len(),
            entries_model(r@) == entries_for(entries_model(entries@).take(k as int), repo),
        decreases entries.len() - k,
    {
        let ghost em = entries_model(entries@);
        let ghost pre = entries_model(r@);
        assert(em[k as int] == entries@[k as int]@);
        if entries[k].repo == repo {
            let copy = CommitEntry { repo: entries[k].repo, record: copy_record(&entries[k].record) };
            assert(copy@ == em[k as int]);
            r.push(copy);
            proof {
                assert(entries_model(r@) =~= pre.push(em[k as int]));
            }
        }
        proof {
            assert(em.take(k + 1 as int) =~= em.take(k as int).push(em[k as int]));
            lemma_entries_for_push(em.take(k as int), em[k as int], repo);
            if em[k as int].repo == repo {
                assert(pre.push(em[k as int]) =~= pre + seq![em[k as int]]);
            } else {
                assert(pre + Seq::<EntryModel>::empty() =~= pre);
            }
        }
        k = k + 1;
    }
    proof {
        assert(entries_model(entries@).take(entries@.len() as int) =~= entries_model(entries@));
    }
    r
}

} // verus!
