//! The laws the multi-version log obeys: lazy deltas resolve to plain
//! sums, and writes of higher transactions never disturb lower reads.

use vstd::prelude::*;
use crate::mv_memory::{
    entries_sorted, estimate_spec, lower_bound, remove_spec, upsert_spec,
};
use crate::types::{AccountBasic, MemoryEntry, MemoryValue, ReadError, TxIdx};
use crate::uint::{pow256, U256};
use crate::walk::{basic_walk, basic_walk_bounded, walk_basic, BasicWalk, BasicWalkExec};

verus! {

/// Whether every entry of a log is a pending lazy balance delta.
pub open spec fn all_lazy(s: Seq<(TxIdx, MemoryEntry)>) -> bool {
    forall|k: int|
        0 <= k < s.len() ==> match (#[trigger] s[k]).1 {
            MemoryEntry::Data(inc, v) => v is LazyRecipient || v is LazySender,
            MemoryEntry::Estimate => false,
        }
}

/// The sum of the pending additions of a log.
pub open spec fn recipient_sum(s: Seq<(TxIdx, MemoryEntry)>) -> nat
    decreases s.len(),
{
    if s.len() == 0 {
        0
    } else {
        recipient_sum(s.drop_last()) + match s.last().1 {
            MemoryEntry::Data(inc, MemoryValue::LazyRecipient(a)) => a.as_nat(),
            _ => 0,
        }
    }
}

/// The sum of the pending subtractions of a log.
pub open spec fn sender_sum(s: Seq<(TxIdx, MemoryEntry)>) -> nat
    decreases s.len(),
{
    if s.len() == 0 {
        0
    } else {
        sender_sum(s.drop_last()) + match s.last().1 {
            MemoryEntry::Data(inc, MemoryValue::LazySender(a)) => a.as_nat(),
            _ => 0,
        }
    }
}

/// How many pending subtractions a log holds: each one also stands for a
/// nonce increment of the sender.
pub open spec fn sender_count(s: Seq<(TxIdx, MemoryEntry)>) -> nat
    decreases s.len(),
{
    if s.len() == 0 {
        0
    } else {
        sender_count(s.drop_last()) + match s.last().1 {
            MemoryEntry::Data(inc, MemoryValue::LazySender(a)) => 1nat,
            _ => 0,
        }
    }
}

/// The lazy sum law: a log holding only pending lazy deltas resolves to no
/// concrete base, a balance delta of the pending additions less the
/// pending subtractions, and one nonce increment per subtraction; every
/// entry contributes one read origin.
pub proof fn lemma_lazy_sum_law(s: Seq<(TxIdx, MemoryEntry)>)
    requires
        all_lazy(s),
    ensures
        basic_walk(s) matches BasicWalk::Empty { delta, nonce_add, origins } && delta
            == recipient_sum(s) - sender_sum(s) && nonce_add == sender_count(s) && origins.len()
            == s.len(),
    decreases s.len(),
{
    if s.len() > 0 {
        assert(all_lazy(s.drop_last())) by {
            assert(forall|k: int|
                0 <= k < s.drop_last().len() ==> #[trigger] s.drop_last()[k] == s[k]);
        }
        lemma_lazy_sum_law(s.drop_last());
    }
}

/// Resolves a basic location's whole log at finalization onto its
/// pre-block account: the nearest concrete basic, or the pre-block one,
/// with every pending delta above it summed on, wrapping only outside
/// (-2^256, 2^256).
pub fn resolve_basic(entries: &Vec<(TxIdx, MemoryEntry)>, pre: AccountBasic) -> (r: Result<
    AccountBasic,
    ReadError,
>)
    requires
        entries_sorted(entries@),
        forall|k: int| 0 <= k < entries@.len() ==> (#[trigger] entries@[k]).0 < usize::MAX,
    ensures
        ({
            let w = basic_walk(entries@);
            let bounded = basic_walk_bounded(entries@, 0);
            match w {
                BasicWalk::Blocked { blocking_idx } => r == Err::<AccountBasic, ReadError>(
                    ReadError::BlockingIndex(blocking_idx),
                ),
                BasicWalk::Invalid => r == Err::<AccountBasic, ReadError>(
                    ReadError::InvalidMemoryLocationType,
                ),
                BasicWalk::Found { base, delta, nonce_add, origins } => r matches Ok(acct) && (
                bounded && 0 <= base.balance.as_nat() + delta < pow256()
                    ==> acct.balance.as_nat() == base.balance.as_nat() + delta) && acct.nonce as nat
                    == crate::db::wrap_add64(base.nonce, nonce_add as u64),
                BasicWalk::Empty { delta, nonce_add, origins } => r matches Ok(acct) && (bounded
                    && 0 <= pre.balance.as_nat() + delta < pow256() ==> acct.balance.as_nat()
                    == pre.balance.as_nat() + delta) && acct.nonce as nat == crate::db::wrap_add64(
                    pre.nonce,
                    nonce_add as u64,
                ),
            }
        }),
{
    proof {
        crate::mv_memory::lemma_lower_bound_props(entries@, usize::MAX);
        assert(entries@.take(lower_bound(entries@, usize::MAX)) =~= entries@) by {
            assert(forall|k: int|
                0 <= k < entries@.len() ==> (#[trigger] entries@[k]).0 < usize::MAX);
            if lower_bound(entries@, usize::MAX) < entries@.len() {
                assert(entries@[lower_bound(entries@, usize::MAX)].0 >= usize::MAX);
            }
        }
    }
    let w = walk_basic(entries, usize::MAX);
    let (base, pos, mag, nonce_add) = match w {
        BasicWalkExec::Blocked(i) => {
            return Err(ReadError::BlockingIndex(i));
        },
        BasicWalkExec::Invalid => {
            return Err(ReadError::InvalidMemoryLocationType);
        },
        BasicWalkExec::Found { base, pos, mag, nonce_add, origins } => (base, pos, mag, nonce_add),
        BasicWalkExec::Empty { pos, mag, nonce_add, origins } => (pre, pos, mag, nonce_add),
    };
    let balance = if pos {
        base.balance.wrapping_add(mag)
    } else {
        base.balance.wrapping_sub(mag)
    };
    let nonce = base.nonce.wrapping_add(nonce_add);
    proof {
        let m = 0x1_0000_0000_0000_0000nat;
        if base.nonce + nonce_add > u64::MAX {
            vstd::arithmetic::div_mod::lemma_mod_sub_multiples_vanish(
                (base.nonce + nonce_add) as int,
                m as int,
            );
            vstd::arithmetic::div_mod::lemma_small_mod((base.nonce + nonce_add - m) as nat, m);
        } else {
            vstd::arithmetic::div_mod::lemma_small_mod((base.nonce + nonce_add) as nat, m);
        }
    }
    Ok(AccountBasic { balance, nonce })
}

/// A (re)write by a transaction at or above a reader leaves the part of
/// the log below the reader exactly as it was, so the reader resolves to
/// the same outcome as before: the written entry sits at or beyond the
/// reader's bound.
pub proof fn lemma_high_write_frame(
    s: Seq<(TxIdx, MemoryEntry)>,
    author: TxIdx,
    idx: TxIdx,
    e: MemoryEntry,
)
    requires
        entries_sorted(s),
        idx <= author,
    ensures
        ({
            let t = upsert_spec(s, author, e);
            t.take(lower_bound(t, idx)) == s.take(lower_bound(s, idx))
        }),
        ({
            let t = remove_spec(s, author);
            t.take(lower_bound(t, idx)) == s.take(lower_bound(s, idx))
        }),
        ({
            let t = estimate_spec(s, author);
            t.take(lower_bound(t, idx)) == s.take(lower_bound(s, idx))
        }),
{
    crate::mv_memory::lemma_lower_bound_props(s, author);
    crate::mv_memory::lemma_lower_bound_props(s, idx);
    let p = lower_bound(s, author);
    let lb = lower_bound(s, idx);
    assert(lb <= p) by {
        if lb > p {
            assert(s[p].0 >= author);
            assert(s[p].0 < idx);
        }
    }
    let tu = upsert_spec(s, author, e);
    assert(forall|k: int| 0 <= k < lb ==> #[trigger] tu[k] == s[k]);
    assert forall|k: int| lb <= k < tu.len() implies (#[trigger] tu[k]).0 >= idx by {
        if p < s.len() && s[p].0 == author {
            if k != p {
                assert(tu[k] == s[k]);
            }
        } else {
            if k < p {
                assert(tu[k] == s[k]);
            } else if k > p {
                assert(tu[k] == s[k - 1]);
            }
        }
    }
    lemma_lower_bound_take_frame(s, tu, idx, lb);
    assert(tu.take(lower_bound(tu, idx)) =~= s.take(lb));
    let tr = remove_spec(s, author);
    assert(forall|k: int| 0 <= k < lb ==> #[trigger] tr[k] == s[k]);
    assert forall|k: int| lb <= k < tr.len() implies (#[trigger] tr[k]).0 >= idx by {
        if p < s.len() && s[p].0 == author {
            if k < p {
                assert(tr[k] == s[k]);
            } else {
                assert(tr[k] == s[k + 1]);
            }
        }
    }
    lemma_lower_bound_take_frame(s, tr, idx, lb);
    assert(tr.take(lower_bound(tr, idx)) =~= s.take(lb));
    let te = estimate_spec(s, author);
    assert(forall|k: int| 0 <= k < lb ==> #[trigger] te[k] == s[k]);
    assert forall|k: int| lb <= k < te.len() implies (#[trigger] te[k]).0 >= idx by {
        if p < s.len() && s[p].0 == author {
            if k != p {
                assert(te[k] == s[k]);
            }
        }
    }
    lemma_lower_bound_take_frame(s, te, idx, lb);
    assert(te.take(lower_bound(te, idx)) =~= s.take(lb));
}

/// If a log agrees with another on its first `lb` entries, `lb` is the
/// reader's bound in the first, and what follows in the second is at or
/// above the reader, both bounds agree.
proof fn lemma_lower_bound_take_frame(
    s: Seq<(TxIdx, MemoryEntry)>,
    t: Seq<(TxIdx, MemoryEntry)>,
    idx: TxIdx,
    lb: int,
)
    requires
        entries_sorted(s),
        entries_sorted(t),
        lb == lower_bound(s, idx),
        lb <= t.len(),
        forall|k: int| 0 <= k < lb ==> #[trigger] t[k] == s[k],
        forall|k: int| lb <= k < t.len() ==> (#[trigger] t[k]).0 >= idx,
    ensures
        lower_bound(t, idx) == lb,
{
    crate::mv_memory::lemma_lower_bound_props(s, idx);
    crate::mv_memory::lemma_lower_bound_props(t, idx);
    let lbt = lower_bound(t, idx);
    if lbt < lb {
        assert(t[lbt].0 >= idx);
        assert(s[lbt].0 < idx);
    }
    if lbt > lb {
        assert(t[lb].0 < idx);
    }
}

/// Replay stability, one commit step at a time: a commit by a transaction
/// at or above a reader — a fresh entry, a removal of a stale one, a
/// tombstone, or no change — leaves both of the reader's walks over the
/// location unchanged. Replaying a committed read set at finalization
/// therefore resolves to the values originally seen, by this lemma applied
/// to each later commit in turn.
pub proof fn lemma_commit_step_preserves_reads(
    s: Seq<(TxIdx, MemoryEntry)>,
    t: Seq<(TxIdx, MemoryEntry)>,
    author: TxIdx,
    idx: TxIdx,
    e: MemoryEntry,
)
    requires
        entries_sorted(s),
        idx <= author,
        t == upsert_spec(s, author, e) || t == remove_spec(s, author) || t == estimate_spec(
            s,
            author,
        ) || t == s,
    ensures
        basic_walk(t.take(lower_bound(t, idx))) == basic_walk(s.take(lower_bound(s, idx))),
        crate::walk::storage_walk(t.take(lower_bound(t, idx))) == crate::walk::storage_walk(
            s.take(lower_bound(s, idx)),
        ),
{
    lemma_high_write_frame(s, author, idx, e);
}

/// Read determinism: two memories whose logs agree below a reader serve
/// its basic read identically.
pub proof fn lemma_read_frame(
    s1: Seq<(TxIdx, MemoryEntry)>,
    s2: Seq<(TxIdx, MemoryEntry)>,
    idx: TxIdx,
)
    requires
        s1.take(lower_bound(s1, idx)) == s2.take(lower_bound(s2, idx)),
    ensures
        basic_walk(s1.take(lower_bound(s1, idx))) == basic_walk(s2.take(lower_bound(s2, idx))),
        crate::walk::storage_walk(s1.take(lower_bound(s1, idx))) == crate::walk::storage_walk(
            s2.take(lower_bound(s2, idx)),
        ),
{
}

} // verus!
