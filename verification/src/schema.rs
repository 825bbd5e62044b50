//! The physical key schema.
//!
//! Logical state maps to byte-string keys: `height` holds the latest
//! committed height; `next_epoch_min_start_height` and
//! `next_epoch_min_start_time` are global singletons; per-height data lives
//! under `<height>/...` with a fixed set of suffixes; block results live
//! under `results/<height>`; application state lives under
//! `subspace/<application key>`.

use vstd::prelude::*;

use crate::order::is_prefix;

verus! {

/// The bytes of `"height"`.
pub open spec fn height_key() -> Seq<u8> {
    seq![104, 101, 105, 103, 104, 116]
}

/// The bytes of `"height"`.
pub fn height_key_vec() -> (r: Vec<u8>)
    ensures
        r@ == height_key(),
{
    let mut r: Vec<u8> = Vec::new();
    r.push(104);
    r.push(101);
    r.push(105);
    r.push(103);
    r.push(104);
    r.push(116);
    proof {
        assert(r@ =~= height_key());
    }
    r
}

/// The bytes of `"next_epoch_min_start_height"`.
pub open spec fn next_height_key() -> Seq<u8> {
    seq![110, 101, 120, 116, 95, 101, 112, 111, 99, 104, 95, 109, 105, 110, 95, 115, 116, 97, 114, 116, 95, 104, 101, 105, 103, 104, 116]
}

/// The bytes of `"next_epoch_min_start_height"`.
pub fn next_height_key_vec() -> (r: Vec<u8>)
    ensures
        r@ == next_height_key(),
{
    let mut r: Vec<u8> = Vec::new();
    r.push(110);
    r.push(101);
    r.push(120);
    r.push(116);
    r.push(95);
    r.push(101);
    r.push(112);
    r.push(111);
    r.push(99);
    r.push(104);
    r.push(95);
    r.push(109);
    r.push(105);
    r.push(110);
    r.push(95);
    r.push(115);
    r.push(116);
    r.push(97);
    r.push(114);
    r.push(116);
    r.push(95);
    r.push(104);
    r.push(101);
    r.push(105);
    r.push(103);
    r.push(104);
    r.push(116);
    proof {
        assert(r@ =~= next_height_key());
    }
    r
}

/// The bytes of `"next_epoch_min_start_time"`.
pub open spec fn next_time_key() -> Seq<u8> {
    seq![110, 101, 120, 116, 95, 101, 112, 111, 99, 104, 95, 109, 105, 110, 95, 115, 116, 97, 114, 116, 95, 116, 105, 109, 101]
}

/// The bytes of `"next_epoch_min_start_time"`.
pub fn next_time_key_vec() -> (r: Vec<u8>)
    ensures
        r@ == next_time_key(),
{
    let mut r: Vec<u8> = Vec::new();
    r.push(110);
    r.push(101);
    r.push(120);
    r.push(116);
    r.push(95);
    r.push(101);
    r.push(112);
    r.push(111);
    r.push(99);
    r.push(104);
    r.push(95);
    r.push(109);
    r.push(105);
    r.push(110);
    r.push(95);
    r.push(115);
    r.push(116);
    r.push(97);
    r.push(114);
    r.push(116);
    r.push(95);
    r.push(116);
    r.push(105);
    r.push(109);
    r.push(101);
    proof {
        assert(r@ =~= next_time_key());
    }
    r
}

/// The bytes of `"results/"`.
pub open spec fn results_prefix() -> Seq<u8> {
    seq![114, 101, 115, 117, 108, 116, 115, 47]
}

/// The bytes of `"results/"`.
pub fn results_prefix_vec() -> (r: Vec<u8>)
    ensures
        r@ == results_prefix(),
{
    let mut r: Vec<u8> = Vec::new();
    r.push(114);
    r.push(101);
    r.push(115);
    r.push(117);
    r.push(108);
    r.push(116);
    r.push(115);
    r.push(47);
    proof {
        assert(r@ =~= results_prefix());
    }
    r
}

/// The bytes of `"subspace/"`.
pub open spec fn subspace_prefix() -> Seq<u8> {
    seq![115, 117, 98, 115, 112, 97, 99, 101, 47]
}

/// The bytes of `"subspace/"`.
pub fn subspace_prefix_vec() -> (r: Vec<u8>)
    ensures
        r@ == subspace_prefix(),
{
    let mut r: Vec<u8> = Vec::new();
    r.push(115);
    r.push(117);
    r.push(98);
    r.push(115);
    r.push(112);
    r.push(97);
    r.push(99);
    r.push(101);
    r.push(47);
    proof {
        assert(r@ =~= subspace_prefix());
    }
    r
}

/// The bytes of `"hash"`.
pub open spec fn hash_sfx() -> Seq<u8> {
    seq![104, 97, 115, 104]
}

/// The bytes of `"hash"`.
pub fn hash_sfx_vec() -> (r: Vec<u8>)
    ensures
        r@ == hash_sfx(),
{
    let mut r: Vec<u8> = Vec::new();
    r.push(104);
    r.push(97);
    r.push(115);
    r.push(104);
    proof {
        assert(r@ =~= hash_sfx());
    }
    r
}

/// The bytes of `"epoch"`.
pub open spec fn epoch_sfx() -> Seq<u8> {
    seq![101, 112, 111, 99, 104]
}

/// The bytes of `"epoch"`.
pub fn epoch_sfx_vec() -> (r: Vec<u8>)
    ensures
        r@ == epoch_sfx(),
{
    let mut r: Vec<u8> = Vec::new();
    r.push(101);
    r.push(112);
    r.push(111);
    r.push(99);
    r.push(104);
    proof {
        assert(r@ =~= epoch_sfx());
    }
    r
}

/// The bytes of `"pred_epochs"`.
pub open spec fn pred_epochs_sfx() -> Seq<u8> {
    seq![112, 114, 101, 100, 95, 101, 112, 111, 99, 104, 115]
}

/// The bytes of `"pred_epochs"`.
pub fn pred_epochs_sfx_vec() -> (r: Vec<u8>)
    ensures
        r@ == pred_epochs_sfx(),
{
    let mut r: Vec<u8> = Vec::new();
    r.push(112);
    r.push(114);
    r.push(101);
    r.push(100);
    r.push(95);
    r.push(101);
    r.push(112);
    r.push(111);
    r.push(99);
    r.push(104);
    r.push(115);
    proof {
        assert(r@ =~= pred_epochs_sfx());
    }
    r
}

/// The bytes of `"address_gen"`.
pub open spec fn address_gen_sfx() -> Seq<u8> {
    seq![97, 100, 100, 114, 101, 115, 115, 95, 103, 101, 110]
}

/// The bytes of `"address_gen"`.
pub fn address_gen_sfx_vec() -> (r: Vec<u8>)
    ensures
        r@ == address_gen_sfx(),
{
    let mut r: Vec<u8> = Vec::new();
    r.push(97);
    r.push(100);
    r.push(100);
    r.push(114);
    r.push(101);
    r.push(115);
    r.push(115);
    r.push(95);
    r.push(103);
    r.push(101);
    r.push(110);
    proof {
        assert(r@ =~= address_gen_sfx());
    }
    r
}

/// The bytes of `"header"`.
pub open spec fn header_sfx() -> Seq<u8> {
    seq![104, 101, 97, 100, 101, 114]
}

/// The bytes of `"header"`.
pub fn header_sfx_vec() -> (r: Vec<u8>)
    ensures
        r@ == header_sfx(),
{
    let mut r: Vec<u8> = Vec::new();
    r.push(104);
    r.push(101);
    r.push(97);
    r.push(100);
    r.push(101);
    r.push(114);
    proof {
        assert(r@ =~= header_sfx());
    }
    r
}

/// The bytes of `"tree/base/root"`.
pub open spec fn base_root_sfx() -> Seq<u8> {
    seq![116, 114, 101, 101, 47, 98, 97, 115, 101, 47, 114, 111, 111, 116]
}

/// The bytes of `"tree/base/root"`.
pub fn base_root_sfx_vec() -> (r: Vec<u8>)
    ensures
        r@ == base_root_sfx(),
{
    let mut r: Vec<u8> = Vec::new();
    r.push(116);
    r.push(114);
    r.push(101);
    r.push(101);
    r.push(47);
    r.push(98);
    r.push(97);
    r.push(115);
    r.push(101);
    r.push(47);
    r.push(114);
    r.push(111);
    r.push(111);
    r.push(116);
    proof {
        assert(r@ =~= base_root_sfx());
    }
    r
}

/// The bytes of `"tree/base/store"`.
pub open spec fn base_store_sfx() -> Seq<u8> {
    seq![116, 114, 101, 101, 47, 98, 97, 115, 101, 47, 115, 116, 111, 114, 101]
}

/// The bytes of `"tree/base/store"`.
pub fn base_store_sfx_vec() -> (r: Vec<u8>)
    ensures
        r@ == base_store_sfx(),
{
    let mut r: Vec<u8> = Vec::new();
    r.push(116);
    r.push(114);
    r.push(101);
    r.push(101);
    r.push(47);
    r.push(98);
    r.push(97);
    r.push(115);
    r.push(101);
    r.push(47);
    r.push(115);
    r.push(116);
    r.push(111);
    r.push(114);
    r.push(101);
    proof {
        assert(r@ =~= base_store_sfx());
    }
    r
}

/// The bytes of `"tree/account/root"`.
pub open spec fn account_root_sfx() -> Seq<u8> {
    seq![116, 114, 101, 101, 47, 97, 99, 99, 111, 117, 110, 116, 47, 114, 111, 111, 116]
}

/// The bytes of `"tree/account/root"`.
pub fn account_root_sfx_vec() -> (r: Vec<u8>)
    ensures
        r@ == account_root_sfx(),
{
    let mut r: Vec<u8> = Vec::new();
    r.push(116);
    r.push(114);
    r.push(101);
    r.push(101);
    r.push(47);
    r.push(97);
    r.push(99);
    r.push(99);
    r.push(111);
    r.push(117);
    r.push(110);
    r.push(116);
    r.push(47);
    r.push(114);
    r.push(111);
    r.push(111);
    r.push(116);
    proof {
        assert(r@ =~= account_root_sfx());
    }
    r
}

/// The bytes of `"tree/account/store"`.
pub open spec fn account_store_sfx() -> Seq<u8> {
    seq![116, 114, 101, 101, 47, 97, 99, 99, 111, 117, 110, 116, 47, 115, 116, 111, 114, 101]
}

/// The bytes of `"tree/account/store"`.
pub fn account_store_sfx_vec() -> (r: Vec<u8>)
    ensures
        r@ == account_store_sfx(),
{
    let mut r: Vec<u8> = Vec::new();
    r.push(116);
    r.push(114);
    r.push(101);
    r.push(101);
    r.push(47);
    r.push(97);
    r.push(99);
    r.push(99);
    r.push(111);
    r.push(117);
    r.push(110);
    r.push(116);
    r.push(47);
    r.push(115);
    r.push(116);
    r.push(111);
    r.push(114);
    r.push(101);
    proof {
        assert(r@ =~= account_store_sfx());
    }
    r
}

/// The bytes of `"tree/ibc/root"`.
pub open spec fn ibc_root_sfx() -> Seq<u8> {
    seq![116, 114, 101, 101, 47, 105, 98, 99, 47, 114, 111, 111, 116]
}

/// The bytes of `"tree/ibc/root"`.
pub fn ibc_root_sfx_vec() -> (r: Vec<u8>)
    ensures
        r@ == ibc_root_sfx(),
{
    let mut r: Vec<u8> = Vec::new();
    r.push(116);
    r.push(114);
    r.push(101);
    r.push(101);
    r.push(47);
    r.push(105);
    r.push(98);
    r.push(99);
    r.push(47);
    r.push(114);
    r.push(111);
    r.push(111);
    r.push(116);
    proof {
        assert(r@ =~= ibc_root_sfx());
    }
    r
}

/// The bytes of `"tree/ibc/store"`.
pub open spec fn ibc_store_sfx() -> Seq<u8> {
    seq![116, 114, 101, 101, 47, 105, 98, 99, 47, 115, 116, 111, 114, 101]
}

/// The bytes of `"tree/ibc/store"`.
pub fn ibc_store_sfx_vec() -> (r: Vec<u8>)
    ensures
        r@ == ibc_store_sfx(),
{
    let mut r: Vec<u8> = Vec::new();
    r.push(116);
    r.push(114);
    r.push(101);
    r.push(101);
    r.push(47);
    r.push(105);
    r.push(98);
    r.push(99);
    r.push(47);
    r.push(115);
    r.push(116);
    r.push(111);
    r.push(114);
    r.push(101);
    proof {
        assert(r@ =~= ibc_store_sfx());
    }
    r
}

/// The bytes of `"tree/pos/root"`.
pub open spec fn pos_root_sfx() -> Seq<u8> {
    seq![116, 114, 101, 101, 47, 112, 111, 115, 47, 114, 111, 111, 116]
}

/// The bytes of `"tree/pos/root"`.
pub fn pos_root_sfx_vec() -> (r: Vec<u8>)
    ensures
        r@ == pos_root_sfx(),
{
    let mut r: Vec<u8> = Vec::new();
    r.push(116);
    r.push(114);
    r.push(101);
    r.push(101);
    r.push(47);
    r.push(112);
    r.push(111);
    r.push(115);
    r.push(47);
    r.push(114);
    r.push(111);
    r.push(111);
    r.push(116);
    proof {
        assert(r@ =~= pos_root_sfx());
    }
    r
}

/// The bytes of `"tree/pos/store"`.
pub open spec fn pos_store_sfx() -> Seq<u8> {
    seq![116, 114, 101, 101, 47, 112, 111, 115, 47, 115, 116, 111, 114, 101]
}

/// The bytes of `"tree/pos/store"`.
pub fn pos_store_sfx_vec() -> (r: Vec<u8>)
    ensures
        r@ == pos_store_sfx(),
{
    let mut r: Vec<u8> = Vec::new();
    r.push(116);
    r.push(114);
    r.push(101);
    r.push(101);
    r.push(47);
    r.push(112);
    r.push(111);
    r.push(115);
    r.push(47);
    r.push(115);
    r.push(116);
    r.push(111);
    r.push(114);
    r.push(101);
    proof {
        assert(r@ =~= pos_store_sfx());
    }
    r
}


/// The decimal digits of `n`, most significant first.
pub open spec fn dec_seq(n: nat) -> Seq<u8>
    decreases n,
{
    if n < 10 {
        seq![(48 + n) as u8]
    } else {
        dec_seq(n / 10).push((48 + n % 10) as u8)
    }
}

pub open spec fn pow10(k: nat) -> nat
    decreases k,
{
    if k == 0 {
        1
    } else {
        10 * pow10((k - 1) as nat)
    }
}

pub proof fn lemma_dec_seq_digits(n: nat)
    ensures
        dec_seq(n).len() >= 1,
        forall|i: int| 0 <= i < dec_seq(n).len() ==> 48 <= #[trigger] dec_seq(n)[i] <= 57,
    decreases n,
{
    if n >= 10 {
        lemma_dec_seq_digits(n / 10);
    }
}

pub proof fn lemma_dec_seq_len(n: nat, k: nat)
    requires
        k >= 1,
        n < pow10(k),
    ensures
        dec_seq(n).len() <= k,
    decreases n,
{
    if n >= 10 {
        assert(pow10(k) == 10 * pow10((k - 1) as nat));
        lemma_dec_seq_len(n / 10, (k - 1) as nat);
    }
}

/// Any `u64` needs at most 20 decimal digits.
pub proof fn lemma_dec_seq_len_u64(n: u64)
    ensures
        1 <= dec_seq(n as nat).len() <= 20,
{
    lemma_dec_seq_digits(n as nat);
    assert(pow10(20) == 100000000000000000000) by {
        reveal_with_fuel(pow10, 21);
    }
    lemma_dec_seq_len(n as nat, 20);
}

/// Distinct numbers have distinct decimal renderings.
pub proof fn lemma_dec_seq_injective(a: nat, b: nat)
    requires
        dec_seq(a) == dec_seq(b),
    ensures
        a == b,
    decreases a,
{
    lemma_dec_seq_digits(a);
    lemma_dec_seq_digits(b);
    if a < 10 && b < 10 {
        assert(dec_seq(a)[0] == 48 + a);
        assert(dec_seq(b)[0] == 48 + b);
    } else if a >= 10 && b >= 10 {
        let da = dec_seq(a);
        let db = dec_seq(b);
        assert(da.last() == 48 + a % 10 && db.last() == 48 + b % 10);
        assert(da.drop_last() =~= dec_seq(a / 10) && db.drop_last() =~= dec_seq(b / 10));
        lemma_dec_seq_injective(a / 10, b / 10);
        assert(a == 10 * (a / 10) + a % 10 && b == 10 * (b / 10) + b % 10);
    } else {
        assert(dec_seq(a).len() == dec_seq(b).len());
        if a >= 10 {
            lemma_dec_seq_digits(a / 10);
            assert(dec_seq(a).len() >= 2 && dec_seq(b).len() == 1);
        } else {
            lemma_dec_seq_digits(b / 10);
            assert(dec_seq(b).len() >= 2 && dec_seq(a).len() == 1);
        }
    }
}

/// The decimal digits of `n`.
pub fn u64_to_dec(n: u64) -> (r: Vec<u8>)
    ensures
        r@ == dec_seq(n as nat),
    decreases n,
{
    if n < 10 {
        let mut r: Vec<u8> = Vec::new();
        r.push(48 + (n as u8));
        proof {
            assert(r@ =~= dec_seq(n as nat));
        }
        r
    } else {
        let mut r = u64_to_dec(n / 10);
        r.push(48 + ((n % 10) as u8));
        r
    }
}

/// The prefix `<height>/` of all keys scoped to one block height.
pub open spec fn height_prefix(h: u64) -> Seq<u8> {
    dec_seq(h as nat).push(47)
}

/// A key under one block height: `<height>/<suffix>`.
pub open spec fn block_key(h: u64, sfx: Seq<u8>) -> Seq<u8> {
    height_prefix(h) + sfx
}

/// The key `results/<height>` of one block's results.
pub open spec fn results_key(h: u64) -> Seq<u8> {
    results_prefix() + dec_seq(h as nat)
}

/// The key `subspace/<application key>` of one application entry.
pub open spec fn subspace_key(kb: Seq<u8>) -> Seq<u8> {
    subspace_prefix() + kb
}

/// `k` lies in the height-scoped namespace of `h`.
pub open spec fn in_range(k: Seq<u8>, h: u64) -> bool {
    is_prefix(height_prefix(h), k)
}

/// The height-scoped suffixes the schema recognizes.
pub open spec fn recognized_sfx(x: Seq<u8>) -> bool {
    ||| x == hash_sfx()
    ||| x == epoch_sfx()
    ||| x == pred_epochs_sfx()
    ||| x == address_gen_sfx()
    ||| x == header_sfx()
    ||| x == base_root_sfx()
    ||| x == base_store_sfx()
    ||| x == account_root_sfx()
    ||| x == account_store_sfx()
    ||| x == ibc_root_sfx()
    ||| x == ibc_store_sfx()
    ||| x == pos_root_sfx()
    ||| x == pos_store_sfx()
}

/// `k` is a well-formed key under the height-scoped namespace of `h`.
pub open spec fn recognized(k: Seq<u8>, h: u64) -> bool {
    in_range(k, h) && recognized_sfx(k.skip(height_prefix(h).len() as int))
}

pub proof fn lemma_block_key_parts(h: u64, sfx: Seq<u8>)
    ensures
        in_range(block_key(h, sfx), h),
        block_key(h, sfx).skip(height_prefix(h).len() as int) == sfx,
        recognized_sfx(sfx) ==> recognized(block_key(h, sfx), h),
{
    let p = height_prefix(h);
    let k = block_key(h, sfx);
    assert(k.take(p.len() as int) =~= p);
    assert(k.skip(p.len() as int) =~= sfx);
}

/// A key that does not open with a decimal digit lies in no height range.
pub proof fn lemma_nondigit_not_in_range(k: Seq<u8>, h: u64)
    requires
        k.len() == 0 || !(48 <= k[0] <= 57),
    ensures
        !in_range(k, h),
{
    lemma_dec_seq_digits(h as nat);
    if in_range(k, h) {
        let p = height_prefix(h);
        assert(k.take(p.len() as int)[0] == k[0]);
        assert(p[0] == dec_seq(h as nat)[0]);
    }
}

/// Height ranges of distinct heights are disjoint.
pub proof fn lemma_height_ranges_disjoint(a: u64, b: u64, k: Seq<u8>)
    requires
        a != b,
        in_range(k, a),
    ensures
        !in_range(k, b),
{
    if in_range(k, b) {
        let pa = height_prefix(a);
        let pb = height_prefix(b);
        let da = dec_seq(a as nat);
        let db = dec_seq(b as nat);
        lemma_dec_seq_digits(a as nat);
        lemma_dec_seq_digits(b as nat);
        assert forall|i: int| 0 <= i < pa.len() implies pa[i] == k[i] by {
            assert(pa[i] == k.take(pa.len() as int)[i]);
        }
        assert forall|i: int| 0 <= i < pb.len() implies pb[i] == k[i] by {
            assert(pb[i] == k.take(pb.len() as int)[i]);
        }
        if da.len() < db.len() {
            assert(pa[da.len() as int] == 47);
            assert(pb[da.len() as int] == db[da.len() as int]);
            assert(48 <= db[da.len() as int] <= 57);
        } else if db.len() < da.len() {
            assert(pb[db.len() as int] == 47);
            assert(pa[db.len() as int] == da[db.len() as int]);
            assert(48 <= da[db.len() as int] <= 57);
        } else {
            assert forall|i: int| 0 <= i < da.len() implies da[i] == db[i] by {
                assert(pa[i] == k[i]);
                assert(pb[i] == k[i]);
            }
            assert(da =~= db);
            lemma_dec_seq_injective(a as nat, b as nat);
        }
    }
}

/// Equal concatenations with the same left part have equal right parts.
pub proof fn lemma_concat_left_cancel(p: Seq<u8>, x: Seq<u8>, y: Seq<u8>)
    requires
        p + x == p + y,
    ensures
        x == y,
{
    assert((p + x).skip(p.len() as int) =~= x);
    assert((p + y).skip(p.len() as int) =~= y);
}

/// The prefix `<height>/`.
pub fn height_prefix_vec(h: u64) -> (r: Vec<u8>)
    ensures
        r@ == height_prefix(h),
{
    let mut r = u64_to_dec(h);
    r.push(47);
    r
}

/// The key `<height>/<suffix>`.
pub fn block_key_vec(h: u64, sfx: &[u8]) -> (r: Vec<u8>)
    ensures
        r@ == block_key(h, sfx@),
{
    let mut r = height_prefix_vec(h);
    crate::order::push_all(&mut r, sfx);
    r
}

/// The key `results/<height>`.
pub fn results_key_vec(h: u64) -> (r: Vec<u8>)
    ensures
        r@ == results_key(h),
{
    let mut r = results_prefix_vec();
    let d = u64_to_dec(h);
    crate::order::push_all(&mut r, d.as_slice());
    r
}

/// The key `subspace/<application key>`.
pub fn subspace_key_vec(kb: &[u8]) -> (r: Vec<u8>)
    ensures
        r@ == subspace_key(kb@),
{
    let mut r = subspace_prefix_vec();
    crate::order::push_all(&mut r, kb);
    r
}

} // verus!
