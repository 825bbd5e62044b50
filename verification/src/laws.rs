//! Library-wide laws of the storage contract, proved once and for all
//! states and inputs.

use vstd::prelude::*;

use crate::block::{
    bytes_case, good_block_state, has_unknown_key, last_block_case, stored_height, u64_case,
    u64s_case, write_block_map, LastBlockCase, TriCase,
};
use crate::db::MockDB;
use crate::kv::{lemma_map_of_contains_pair, sorted};
use crate::order::{is_prefix, lex_lt};
use crate::schema::{
    account_root_sfx, account_store_sfx, address_gen_sfx, base_root_sfx, base_store_sfx,
    block_key, epoch_sfx, hash_sfx, header_sfx, height_key, height_prefix, ibc_root_sfx,
    ibc_store_sfx, in_range, lemma_block_key_parts, lemma_concat_left_cancel, lemma_dec_seq_digits,
    lemma_nondigit_not_in_range, next_height_key, next_time_key, pos_root_sfx, pos_store_sfx,
    pred_epochs_sfx, recognized, results_key, results_prefix,
};
use crate::state::{BlockStateRead, BlockStateWrite};

verus! {

/// `b` carries exactly the fields that were committed in `w`.
pub open spec fn reproduces(w: BlockStateWrite, b: BlockStateRead) -> bool {
    &&& b.height == w.height
    &&& b.epoch == w.epoch
    &&& b.hash@ == w.hash@
    &&& b.pred_epochs@ == w.pred_epochs@
    &&& b.next_epoch_min_start_height == w.next_epoch_min_start_height
    &&& b.next_epoch_min_start_time == w.next_epoch_min_start_time
    &&& b.address_gen == w.address_gen
    &&& b.results@ == w.results@
    &&& b.merkle_tree_stores.base_root@ == w.merkle_tree_stores.base_root@
    &&& b.merkle_tree_stores.base_store@ == w.merkle_tree_stores.base_store@
    &&& b.merkle_tree_stores.account_root@ == w.merkle_tree_stores.account_root@
    &&& b.merkle_tree_stores.account_store@ == w.merkle_tree_stores.account_store@
    &&& b.merkle_tree_stores.ibc_root@ == w.merkle_tree_stores.ibc_root@
    &&& b.merkle_tree_stores.ibc_store@ == w.merkle_tree_stores.ibc_store@
    &&& b.merkle_tree_stores.pos_root@ == w.merkle_tree_stores.pos_root@
    &&& b.merkle_tree_stores.pos_store@ == w.merkle_tree_stores.pos_store@
}

/// Round trip: committing a valid block state `w` over a store whose
/// height range for `w.height` holds only recognized keys leaves the store
/// in a state where reading the last block succeeds and reproduces `w` in
/// every field, and where the header of `w.height` is exactly the one
/// committed, if one was.
pub proof fn lemma_write_block_round_trip(m: Map<Seq<u8>, Seq<u8>>, w: BlockStateWrite)
    requires
        w.wf(),
        forall|k: Seq<u8>|
            #[trigger] m.dom().contains(k) && in_range(k, w.height) ==> recognized(k, w.height),
    ensures
        last_block_case(write_block_map(m, w)) == LastBlockCase::Good,
        stored_height(write_block_map(m, w)) == w.height,
        forall|b: BlockStateRead|
            #[trigger] good_block_state(write_block_map(m, w), b) <==> reproduces(w, b),
        ({
            let m2 = write_block_map(m, w);
            let hk = block_key(w.height, header_sfx());
            match w.header {
                Some(hd) => bytes_case(m2, hk) == TriCase::Present && crate::codec::bytes_of_enc(
                    m2[hk],
                ) == hd@,
                None => m2.dom().contains(hk) == m.dom().contains(hk) && (m.dom().contains(hk)
                    ==> m2[hk] == m[hk]),
            }
        }),
{
    let h = w.height;
    let m2 = write_block_map(m, w);
    lemma_dec_seq_digits(h as nat);
    // Suffixes of equal length differ in their first bytes.
    assert(pred_epochs_sfx()[0] == 112 && address_gen_sfx()[0] == 97);
    assert(base_root_sfx()[5] == 98 && ibc_store_sfx()[5] == 105 && pos_store_sfx()[5] == 112);
    assert(ibc_root_sfx()[5] == 105 && pos_root_sfx()[5] == 112);
    // A height-scoped key determines its suffix.
    assert forall|x: Seq<u8>, y: Seq<u8>|
        #![trigger block_key(h, x), block_key(h, y)]
        block_key(h, x) == block_key(h, y) implies x == y by {
        lemma_concat_left_cancel(height_prefix(h), x, y);
    }
    // Height-scoped keys open with a decimal digit; the globals do not.
    assert forall|x: Seq<u8>| 48 <= #[trigger] block_key(h, x)[0] <= 57 by {
        assert(block_key(h, x)[0] == height_prefix(h)[0]);
        assert(height_prefix(h)[0] == dec_seq_first(h));
    }
    assert(height_key()[0] == 104 && next_height_key()[0] == 110 && next_time_key()[0] == 110);
    assert(results_key(h)[0] == results_prefix()[0] && results_prefix()[0] == 114);
    assert(next_height_key().len() != next_time_key().len());
    // Codec round trips for every committed value.
    crate::codec::lemma_u64_le_roundtrip(w.height);
    crate::codec::lemma_u64_le_roundtrip(w.epoch);
    crate::codec::lemma_u64_le_roundtrip(w.next_epoch_min_start_height);
    crate::codec::lemma_u64_le_roundtrip(w.next_epoch_min_start_time);
    crate::codec::lemma_u64_le_roundtrip(w.address_gen);
    crate::codec::lemma_bytes_enc_roundtrip(w.hash@);
    crate::codec::lemma_bytes_enc_roundtrip(w.results@);
    crate::codec::lemma_u64s_enc_roundtrip(w.pred_epochs@);
    crate::codec::lemma_bytes_enc_roundtrip(w.merkle_tree_stores.base_root@);
    crate::codec::lemma_bytes_enc_roundtrip(w.merkle_tree_stores.account_root@);
    crate::codec::lemma_bytes_enc_roundtrip(w.merkle_tree_stores.ibc_root@);
    crate::codec::lemma_bytes_enc_roundtrip(w.merkle_tree_stores.pos_root@);
    match w.header {
        Some(hd) => {
            crate::codec::lemma_bytes_enc_roundtrip(hd@);
        },
        None => {},
    }
    // The keys written by the commit.
    lemma_block_key_parts(h, hash_sfx());
    lemma_block_key_parts(h, epoch_sfx());
    lemma_block_key_parts(h, pred_epochs_sfx());
    lemma_block_key_parts(h, address_gen_sfx());
    lemma_block_key_parts(h, header_sfx());
    lemma_block_key_parts(h, base_root_sfx());
    lemma_block_key_parts(h, base_store_sfx());
    lemma_block_key_parts(h, account_root_sfx());
    lemma_block_key_parts(h, account_store_sfx());
    lemma_block_key_parts(h, ibc_root_sfx());
    lemma_block_key_parts(h, ibc_store_sfx());
    lemma_block_key_parts(h, pos_root_sfx());
    lemma_block_key_parts(h, pos_store_sfx());
    lemma_nondigit_not_in_range(height_key(), h);
    lemma_nondigit_not_in_range(next_height_key(), h);
    lemma_nondigit_not_in_range(next_time_key(), h);
    lemma_nondigit_not_in_range(results_key(h), h);
    // No key of the committed state is unrecognized in the height range.
    assert forall|k: Seq<u8>| #[trigger] m2.dom().contains(k) && in_range(k, h) implies recognized(
        k,
        h,
    ) by {
    }
    assert(!has_unknown_key(m2, h));
    assert(stored_height(m2) == w.height);
    assert(last_block_case(m2) == LastBlockCase::Good);
}

/// Committing a second block over a first leaves the store reading back
/// the second: no key the first commit wrote can fall in the second
/// height's range unless the heights are equal, and then it is recognized
/// there.
pub proof fn lemma_second_commit_round_trip(
    m: Map<Seq<u8>, Seq<u8>>,
    w1: BlockStateWrite,
    w2: BlockStateWrite,
)
    requires
        w1.wf(),
        w2.wf(),
        forall|k: Seq<u8>|
            #[trigger] m.dom().contains(k) ==> (in_range(k, w1.height) ==> recognized(
                k,
                w1.height,
            )) && (in_range(k, w2.height) ==> recognized(k, w2.height)),
    ensures
        last_block_case(write_block_map(write_block_map(m, w1), w2)) == LastBlockCase::Good,
        stored_height(write_block_map(write_block_map(m, w1), w2)) == w2.height,
        forall|b: BlockStateRead|
            #[trigger] good_block_state(write_block_map(write_block_map(m, w1), w2), b)
                <==> reproduces(w2, b),
{
    let h1 = w1.height;
    let m1 = write_block_map(m, w1);
    lemma_dec_seq_digits(h1 as nat);
    lemma_block_key_parts(h1, hash_sfx());
    lemma_block_key_parts(h1, epoch_sfx());
    lemma_block_key_parts(h1, pred_epochs_sfx());
    lemma_block_key_parts(h1, address_gen_sfx());
    lemma_block_key_parts(h1, header_sfx());
    lemma_block_key_parts(h1, base_root_sfx());
    lemma_block_key_parts(h1, base_store_sfx());
    lemma_block_key_parts(h1, account_root_sfx());
    lemma_block_key_parts(h1, account_store_sfx());
    lemma_block_key_parts(h1, ibc_root_sfx());
    lemma_block_key_parts(h1, ibc_store_sfx());
    lemma_block_key_parts(h1, pos_root_sfx());
    lemma_block_key_parts(h1, pos_store_sfx());
    lemma_nondigit_not_in_range(height_key(), w2.height);
    lemma_nondigit_not_in_range(next_height_key(), w2.height);
    lemma_nondigit_not_in_range(next_time_key(), w2.height);
    lemma_nondigit_not_in_range(results_key(h1), w2.height);
    assert(height_key()[0] == 104 && next_height_key()[0] == 110 && next_time_key()[0] == 110);
    assert(results_key(h1)[0] == results_prefix()[0] && results_prefix()[0] == 114);
    assert forall|k: Seq<u8>| #[trigger] m1.dom().contains(k) && in_range(
        k,
        w2.height,
    ) implies recognized(k, w2.height) by {
        if m.dom().contains(k) {
        } else if in_range(k, h1) {
            // A key the first commit wrote under its own height.
            if h1 != w2.height {
                crate::schema::lemma_height_ranges_disjoint(h1, w2.height, k);
            }
        }
    }
    lemma_write_block_round_trip(m1, w2);
}

/// The canonical byte form of a well-formed key determines its segments:
/// two distinct logical keys encode to distinct byte strings.
pub proof fn lemma_key_bytes_injective(a: Seq<Seq<u8>>, b: Seq<Seq<u8>>)
    requires
        a.len() >= 1,
        b.len() >= 1,
        forall|i: int| 0 <= i < a.len() ==> crate::key::seg_ok(#[trigger] a[i]),
        forall|i: int| 0 <= i < b.len() ==> crate::key::seg_ok(#[trigger] b[i]),
        crate::key::key_bytes(a) == crate::key::key_bytes(b),
    ensures
        a == b,
    decreases a.len(),
{
    let ka = crate::key::key_bytes(a);
    let kb = crate::key::key_bytes(b);
    if a.len() == 1 && b.len() == 1 {
        assert(a =~= b);
    } else if a.len() == 1 {
        // `ka` is one separator-free segment, but `kb` holds a separator.
        let pb = crate::key::key_bytes(b.drop_last());
        assert(kb == pb + seq![47u8] + b.last());
        assert(kb[pb.len() as int] == 47);
        assert(ka[pb.len() as int] != 47);
    } else if b.len() == 1 {
        let pa = crate::key::key_bytes(a.drop_last());
        assert(ka == pa + seq![47u8] + a.last());
        assert(ka[pa.len() as int] == 47);
        assert(kb[pa.len() as int] != 47);
    } else {
        let pa = crate::key::key_bytes(a.drop_last());
        let pb = crate::key::key_bytes(b.drop_last());
        assert(ka == pa + seq![47u8] + a.last());
        assert(kb == pb + seq![47u8] + b.last());
        // The last separator stands at the same position in both shapes:
        // the final segment holds none.
        if pa.len() < pb.len() {
            assert(kb[pb.len() as int] == 47);
            assert(ka[pb.len() as int] == a.last()[pb.len() - pa.len() - 1]);
            assert(a.last()[pb.len() - pa.len() - 1] != 47);
        } else if pb.len() < pa.len() {
            assert(ka[pa.len() as int] == 47);
            assert(kb[pa.len() as int] == b.last()[pa.len() - pb.len() - 1]);
            assert(b.last()[pa.len() - pb.len() - 1] != 47);
        } else {
            assert forall|i: int| 0 <= i < pa.len() implies pa[i] == pb[i] by {
                assert(ka[i] == pa[i] && kb[i] == pb[i]);
            }
            assert(pa =~= pb);
            assert forall|i: int| 0 <= i < a.last().len() implies a.last()[i] == b.last()[i] by {
                assert(ka[pa.len() + 1 + i] == a.last()[i]);
                assert(kb[pb.len() + 1 + i] == b.last()[i]);
            }
            assert(a.last() =~= b.last());
            lemma_key_bytes_injective(a.drop_last(), b.drop_last());
            assert(a =~= a.drop_last().push(a.last()));
            assert(b =~= b.drop_last().push(b.last()));
        }
    }
}

/// The entries of `e` whose key starts with `p`, in their stored order.
pub open spec fn matching(e: Seq<(Seq<u8>, Seq<u8>)>, p: Seq<u8>) -> Seq<(Seq<u8>, Seq<u8>)> {
    e.filter(|kv: (Seq<u8>, Seq<u8>)| is_prefix(p, kv.0))
}

/// Every matching entry comes from the sequence it was drawn from.
proof fn lemma_matching_subset(e: Seq<(Seq<u8>, Seq<u8>)>, p: Seq<u8>, kv: (Seq<u8>, Seq<u8>))
    requires
        matching(e, p).contains(kv),
    ensures
        e.contains(kv),
        is_prefix(p, kv.0),
    decreases e.len(),
{
    reveal(Seq::filter);
    broadcast use vstd::seq_lib::group_filter_ensures;

    if e.len() > 0 {
        let last = e.last();
        if is_prefix(p, last.0) && kv == last {
            assert(e[e.len() - 1] == kv);
        } else {
            lemma_matching_subset(e.drop_last(), p, kv);
            let i = choose|i: int| 0 <= i < e.drop_last().len() && e.drop_last()[i] == kv;
            assert(e[i] == kv);
        }
    }
}

/// Matching preserves the stored order.
proof fn lemma_matching_sorted(e: Seq<(Seq<u8>, Seq<u8>)>, p: Seq<u8>)
    requires
        sorted(e),
    ensures
        sorted(matching(e, p)),
    decreases e.len(),
{
    reveal(Seq::filter);
    broadcast use vstd::seq_lib::group_filter_ensures;

    if e.len() > 0 {
        let d = e.drop_last();
        lemma_matching_sorted(d, p);
        let f = matching(e, p);
        let fd = matching(d, p);
        if is_prefix(p, e.last().0) {
            assert(f == fd.push(e.last()));
            assert forall|i: int, j: int| 0 <= i < j < f.len() implies lex_lt(
                (#[trigger] f[i]).0,
                (#[trigger] f[j]).0,
            ) by {
                if j < f.len() - 1 {
                    assert(f[i] == fd[i] && f[j] == fd[j]);
                } else {
                    assert(f[i] == fd[i]);
                    lemma_matching_subset(d, p, fd[i]);
                    let x = choose|x: int| 0 <= x < d.len() && d[x] == fd[i];
                    assert(e[x] == fd[i]);
                    assert(lex_lt(e[x].0, e.last().0));
                }
            }
        } else {
            assert(f == fd);
        }
    }
}

/// One head step of matching: the first entry either matches and leads the
/// result, or is dropped.
proof fn lemma_matching_head(s: Seq<(Seq<u8>, Seq<u8>)>, p: Seq<u8>)
    requires
        s.len() > 0,
    ensures
        matching(s, p) == (if is_prefix(p, s[0].0) {
            seq![s[0]] + matching(s.skip(1), p)
        } else {
            matching(s.skip(1), p)
        }),
    decreases s.len(),
{
    reveal(Seq::filter);
    if s.len() == 1 {
        assert(s.drop_last() =~= Seq::<(Seq<u8>, Seq<u8>)>::empty());
        assert(s.skip(1) =~= Seq::<(Seq<u8>, Seq<u8>)>::empty());
        if is_prefix(p, s[0].0) {
            assert(matching(s, p) =~= seq![s[0]] + matching(s.skip(1), p));
        }
    } else {
        let d = s.drop_last();
        lemma_matching_head(d, p);
        assert(d[0] == s[0]);
        assert(s.skip(1).drop_last() =~= d.skip(1));
        assert(s.skip(1).last() == s.last());
        if is_prefix(p, s.last().0) {
            assert(matching(s, p) == matching(d, p).push(s.last()));
            assert(matching(s.skip(1), p) == matching(d.skip(1), p).push(s.last()));
        } else {
            assert(matching(s, p) == matching(d, p));
            assert(matching(s.skip(1), p) == matching(d.skip(1), p));
        }
        if is_prefix(p, s[0].0) {
            assert((seq![s[0]] + matching(d.skip(1), p)).push(s.last()) =~= seq![s[0]] + matching(
                d.skip(1),
                p,
            ).push(s.last()));
        }
    }
}

/// One yield of iteration: when the first match from position `a` on
/// stands at `j`, the matching entries from `a` are that entry followed by
/// the matching entries past it. This is the shape of one successful
/// `next` call.
pub proof fn lemma_iteration_step(e: Seq<(Seq<u8>, Seq<u8>)>, p: Seq<u8>, a: int, j: int)
    requires
        0 <= a <= j < e.len(),
        is_prefix(p, e[j].0),
        crate::iter::no_match_between(e, p, a, j),
    ensures
        matching(e.skip(a), p) == seq![e[j]] + matching(e.skip(j + 1), p),
    decreases j - a,
{
    lemma_matching_head(e.skip(a), p);
    assert(e.skip(a)[0] == e[a]);
    assert(e.skip(a).skip(1) =~= e.skip(a + 1));
    if a < j {
        assert(!is_prefix(p, e[a].0));
        lemma_iteration_step(e, p, a + 1, j);
    }
}

/// An exhausted iteration: when nothing matches from position `a` on, no
/// matching entry is left. This is the shape of a `next` call that returns
/// nothing.
pub proof fn lemma_iteration_exhausted(e: Seq<(Seq<u8>, Seq<u8>)>, p: Seq<u8>, a: int)
    requires
        0 <= a <= e.len(),
        crate::iter::no_match_between(e, p, a, e.len() as int),
    ensures
        matching(e.skip(a), p) == Seq::<(Seq<u8>, Seq<u8>)>::empty(),
    decreases e.len() - a,
{
    if a < e.len() {
        lemma_matching_head(e.skip(a), p);
        assert(e.skip(a)[0] == e[a]);
        assert(!is_prefix(p, e[a].0));
        assert(e.skip(a).skip(1) =~= e.skip(a + 1));
        lemma_iteration_exhausted(e, p, a + 1);
    } else {
        reveal(Seq::filter);
        assert(e.skip(a) =~= Seq::<(Seq<u8>, Seq<u8>)>::empty());
    }
}

/// Prefix completeness: the entries whose key starts with `p` are exactly
/// the stored pairs under `p` — no more, no fewer — and they stand in
/// ascending key order, which is the order iteration yields them in.
pub proof fn lemma_prefix_iteration_complete(db: &MockDB, p: Seq<u8>)
    requires
        db.wf(),
    ensures
        forall|kv: (Seq<u8>, Seq<u8>)|
            #[trigger] matching(db.entries(), p).contains(kv) <==> (db.as_map().contains_pair(
                kv.0,
                kv.1,
            ) && is_prefix(p, kv.0)),
        sorted(matching(db.entries(), p)),
{
    let e = db.entries();
    broadcast use vstd::seq_lib::group_filter_ensures;

    lemma_matching_sorted(e, p);
    assert forall|kv: (Seq<u8>, Seq<u8>)| #[trigger] matching(e, p).contains(kv) implies (
    db.as_map().contains_pair(kv.0, kv.1) && is_prefix(p, kv.0)) by {
        lemma_matching_subset(e, p, kv);
        let i = choose|i: int| 0 <= i < e.len() && e[i] == kv;
        lemma_map_of_contains_pair(e, kv.0, kv.1);
    }
    assert forall|kv: (Seq<u8>, Seq<u8>)| db.as_map().contains_pair(kv.0, kv.1) && is_prefix(
        p,
        kv.0,
    ) implies #[trigger] matching(e, p).contains(kv) by {
        lemma_map_of_contains_pair(e, kv.0, kv.1);
        let i = choose|i: int| 0 <= i < e.len() && #[trigger] e[i] == (kv.0, kv.1);
        assert(e.filter(|kv: (Seq<u8>, Seq<u8>)| is_prefix(p, kv.0)).contains(e[i]));
    }
}

/// Partial-state rejection: when a committed height marker exists, the
/// global fields and results are present, no stored key violates the
/// schema, nothing is undecodable, and yet one of the per-height scalar
/// fields is missing, reading the last block fails as inconsistent partial
/// state.
pub proof fn lemma_partial_state_rejected(m: Map<Seq<u8>, Seq<u8>>)
    requires
        u64_case(m, height_key()) == TriCase::Present,
        bytes_case(m, results_key(stored_height(m))) == TriCase::Present,
        u64_case(m, next_height_key()) == TriCase::Present,
        u64_case(m, next_time_key()) == TriCase::Present,
        !has_unknown_key(m, stored_height(m)),
        bytes_case(m, block_key(stored_height(m), hash_sfx())) != TriCase::Undecodable,
        u64_case(m, block_key(stored_height(m), epoch_sfx())) != TriCase::Undecodable,
        u64s_case(m, block_key(stored_height(m), pred_epochs_sfx())) != TriCase::Undecodable,
        u64_case(m, block_key(stored_height(m), address_gen_sfx())) != TriCase::Undecodable,
        !m.dom().contains(block_key(stored_height(m), hash_sfx())) || !m.dom().contains(
            block_key(stored_height(m), epoch_sfx()),
        ) || !m.dom().contains(block_key(stored_height(m), pred_epochs_sfx()))
            || !m.dom().contains(block_key(stored_height(m), address_gen_sfx())),
    ensures
        last_block_case(m) == LastBlockCase::Incomplete,
{
}

/// Unknown-namespace rejection: when a committed height marker exists, the
/// global fields and results are present, and any stored key lies in the
/// height's namespace with an unrecognized form, reading the last block
/// fails with the unknown-key error.
pub proof fn lemma_unknown_key_rejected(m: Map<Seq<u8>, Seq<u8>>)
    requires
        u64_case(m, height_key()) == TriCase::Present,
        bytes_case(m, results_key(stored_height(m))) == TriCase::Present,
        u64_case(m, next_height_key()) == TriCase::Present,
        u64_case(m, next_time_key()) == TriCase::Present,
        has_unknown_key(m, stored_height(m)),
    ensures
        last_block_case(m) == LastBlockCase::Violation,
{
}

/// The first byte of the decimal rendering of `h`.
spec fn dec_seq_first(h: u64) -> u8 {
    crate::schema::dec_seq(h as nat)[0]
}

} // verus!
