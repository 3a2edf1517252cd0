//! What holds of the light client over whole runs: the chain grows along the
//! parent links, the total difficulty adds up, stored headers and the
//! genesis header stay as they are.

use crate::error::Error;
use crate::header::{header_bare_hash, header_hash, HeaderView};
use crate::pow::{expected_difficulty, network_params, seal_parses, ParamsView};
use crate::proof_of_work::{block_basic_ok, light_mix_hash, seal_mix_hash, seal_nonce};
use crate::receipt::{law_proof_attests_one_receipt, receipt_attested, receipt_rlp, ReceiptView};
use crate::store::{find_by_hash, StoreView, TipView};
use crate::{
    basic_outcome, difficulty_outcome, is_final, pow_outcome, receipt_outcome, submit_outcome,
    Config,
};
use vstd::prelude::*;

verus! {

/// The store with nothing in it.
pub open spec fn empty_store(auth_best_number: u64) -> StoreView {
    StoreView { genesis: None, auth_best_number, headers: Seq::empty(), tip: None }
}

/// The store after every header of `hs` has been appended, in order.
pub open spec fn appended_all(s: StoreView, hs: Seq<HeaderView>) -> StoreView
    decreases hs.len(),
{
    if hs.len() == 0 {
        s
    } else {
        appended_all(s, hs.drop_last()).appended(hs.last())
    }
}

/// The sum of the difficulties of `hs`.
pub open spec fn difficulty_sum(hs: Seq<HeaderView>) -> nat
    decreases hs.len(),
{
    if hs.len() == 0 {
        0
    } else {
        difficulty_sum(hs.drop_last()) + hs.last().difficulty
    }
}

/// Appending headers raises the total difficulty by exactly the sum of their
/// difficulties.
pub proof fn law_total_difficulty_adds_up(s: StoreView, hs: Seq<HeaderView>)
    ensures
        appended_all(s, hs).total_difficulty() == s.total_difficulty() + difficulty_sum(hs),
    decreases hs.len(),
{
    if hs.len() > 0 {
        law_total_difficulty_adds_up(s, hs.drop_last());
    }
}

/// After headers have been appended, the tip is the last of them.
pub proof fn law_tip_is_last_appended(s: StoreView, hs: Seq<HeaderView>)
    requires
        hs.len() > 0,
    ensures
        appended_all(s, hs).tip is Some,
        appended_all(s, hs).tip.unwrap().hash == hs.last().hash,
        appended_all(s, hs).tip.unwrap().number == hs.last().number,
        appended_all(s, hs).tip.unwrap().parent_hash == hs.last().parent_hash,
{
}

/// Appending headers leaves the genesis header and the authority's
/// watermark as they are.
pub proof fn law_genesis_survives_appends(s: StoreView, hs: Seq<HeaderView>)
    ensures
        appended_all(s, hs).genesis == s.genesis,
        appended_all(s, hs).auth_best_number == s.auth_best_number,
    decreases hs.len(),
{
    if hs.len() > 0 {
        law_genesis_survives_appends(s, hs.drop_last());
    }
}

/// A header that is stored stays stored, unchanged, when another header is
/// appended or the genesis header is set.
pub proof fn law_stored_headers_stay(s: StoreView, h: HeaderView, hash: Seq<u8>)
    requires
        s.header(hash) is Some,
    ensures
        s.appended(h).header(hash) == s.header(hash),
        s.with_genesis(h).header(hash) == s.header(hash),
{
    assert(s.headers.push(h).drop_last() =~= s.headers);
}

/// A header whose declared hash is not the hash of its content is rejected
/// for that reason, whatever else holds of it.
pub proof fn law_hash_is_checked_first(s: StoreView, c: Config, h: HeaderView)
    requires
        h.hash != header_hash(h),
    ensures
        basic_outcome(s, h) == Err::<(), Error>(Error::HeaderHashMismatch),
        submit_outcome(s, c, h) == Err::<(), Error>(Error::HeaderHashMismatch),
{
}

/// No block counts as final while the authority's watermark lies below the
/// confirmation depth; otherwise exactly the blocks below the difference do.
pub proof fn law_finality_boundary(auth_best_number: u64, confirmations: u64, number: u64)
    ensures
        auth_best_number < confirmations ==> !is_final(auth_best_number, confirmations, number),
        auth_best_number >= confirmations ==> (is_final(auth_best_number, confirmations, number)
            <==> number < auth_best_number - confirmations),
{
}

/// A seal that does not parse is rejected as such; a seal that parses and
/// carries another mix hash than the computed one is rejected as a mismatch.
pub proof fn law_proof_of_work_outcomes(h: HeaderView, computed: Seq<u8>)
    ensures
        !seal_parses(h.seal) ==> pow_outcome(h) == Err::<(), Error>(Error::SealParseErr),
        seal_parses(h.seal) && light_mix_hash(h.number, header_bare_hash(h), seal_nonce(h.seal))
            == Some(computed) && computed != seal_mix_hash(h.seal) ==> pow_outcome(h) == Err::<
            (),
            Error,
        >(Error::MixHashVF),
        seal_parses(h.seal) && light_mix_hash(h.number, header_bare_hash(h), seal_nonce(h.seal))
            == Some(computed) && computed == seal_mix_hash(h.seal) ==> pow_outcome(h) is Ok,
{
}

/// Where a receipt is accepted for a block, every other receipt is refused
/// for the same block, place and proof.
pub proof fn law_other_receipts_are_refused(
    s: StoreView,
    number: u64,
    index: u64,
    blob: Seq<u8>,
    accepted: ReceiptView,
    other: ReceiptView,
)
    requires
        receipt_outcome(s, number, index, blob, accepted) is Ok,
        receipt_rlp(accepted).len() < 0x1_0000_0000_0000_0000,
        other != accepted,
    ensures
        receipt_outcome(s, number, index, blob, other) == Err::<(), Error>(Error::ReceiptVF),
{
    let h = s.header_by_number(number).unwrap();
    if receipt_attested(h.receipts_root, index, blob, other) {
        law_proof_attests_one_receipt(h.receipts_root, index, blob, accepted, other);
    }
}

/// No receipt is accepted for a block beyond the tip, whether or not a
/// header is stored for the block.
pub proof fn law_receipts_end_at_the_tip(
    s: StoreView,
    number: u64,
    index: u64,
    blob: Seq<u8>,
    receipt: ReceiptView,
)
    requires
        s.tip is Some,
        number > s.tip.unwrap().number,
    ensures
        receipt_outcome(s, number, index, blob, receipt) == Err::<(), Error>(Error::TooEarly),
{
}

/// Whether a stored header has its parent stored, one block below it.
pub open spec fn has_parent(s: StoreView, h: HeaderView) -> bool {
    match s.header(h.parent_hash) {
        Some(p) => p.hash == h.parent_hash && h.number == p.number + 1,
        None => false,
    }
}

/// Whether every stored header is the genesis header or has its parent
/// stored, one block below it.
pub open spec fn linked(s: StoreView) -> bool {
    forall|i: int|
        0 <= i < s.headers.len() ==> s.genesis == Some(#[trigger] s.headers[i]) || has_parent(
            s,
            s.headers[i],
        )
}

/// What is found under a hash has that hash.
pub proof fn lemma_found_has_hash(headers: Seq<HeaderView>, hash: Seq<u8>)
    ensures
        match find_by_hash(headers, hash) {
            Some(h) => h.hash == hash && exists|i: int|
                0 <= i < headers.len() && headers[i] == h,
            None => forall|i: int| 0 <= i < headers.len() ==> headers[i].hash != hash,
        },
    decreases headers.len(),
{
    if headers.len() > 0 {
        lemma_found_has_hash(headers.drop_last(), hash);
        match find_by_hash(headers.drop_last(), hash) {
            Some(h) => {
                let i = choose|i: int|
                    0 <= i < headers.drop_last().len() && headers.drop_last()[i] == h;
                assert(headers[i] == h);
            },
            None => {
                assert forall|i: int| 0 <= i < headers.len() && find_by_hash(headers, hash)
                    is None implies headers[i].hash != hash by {
                    if i < headers.len() - 1 {
                        assert(headers.drop_last()[i].hash != hash);
                    }
                }
                if headers.last().hash == hash {
                    assert(headers[headers.len() - 1] == headers.last());
                }
            },
        }
    }
}

/// The parent links hold in an empty store, and setting the genesis header
/// keeps them.
pub proof fn law_genesis_keeps_links(s: StoreView, g: HeaderView)
    requires
        linked(s),
        s.genesis is None,
    ensures
        linked(empty_store(s.auth_best_number)),
        linked(s.with_genesis(g)),
{
    let t = s.with_genesis(g);
    assert forall|i: int| 0 <= i < t.headers.len() implies t.genesis == Some(
        #[trigger] t.headers[i],
    ) || has_parent(t, t.headers[i]) by {
        if i < s.headers.len() {
            assert(t.headers[i] == s.headers[i]);
            assert(has_parent(s, s.headers[i]));
            law_stored_headers_stay(s, g, s.headers[i].parent_hash);
        }
    }
}

/// A header that passes the structural checks and is appended keeps the
/// parent links: every stored header, but the genesis header, has its parent
/// stored, one block below it.
pub proof fn law_submission_keeps_links(s: StoreView, h: HeaderView)
    requires
        linked(s),
        basic_outcome(s, h) is Ok,
    ensures
        linked(s.appended(h)),
{
    let t = s.appended(h);
    assert(t.headers =~= s.headers.push(h));
    assert forall|i: int| 0 <= i < t.headers.len() implies t.genesis == Some(
        #[trigger] t.headers[i],
    ) || has_parent(t, t.headers[i]) by {
        if i < s.headers.len() {
            assert(t.headers[i] == s.headers[i]);
            if s.genesis != Some(s.headers[i]) {
                assert(has_parent(s, s.headers[i]));
                law_stored_headers_stay(s, h, s.headers[i].parent_hash);
            }
        } else {
            assert(t.headers[i] == h);
            law_stored_headers_stay(s, h, h.parent_hash);
        }
    }
}

/// Whether a header is appended or refused for being too recent, the
/// parent links hold afterwards, where they held before and the header
/// passed the structural checks.
pub proof fn law_append_keeps_links(s: StoreView, c: Config, h: HeaderView)
    requires
        linked(s),
        basic_outcome(s, h) is Ok,
    ensures
        linked(
            if is_final(s.auth_best_number, c.confirmations, h.number) {
                s.appended(h)
            } else {
                s
            },
        ),
{
    law_submission_keeps_links(s, h);
}

/// After a header has been appended, the tip carries its hash, its number
/// and its parent hash, it is the header stored for its block number, and a
/// receipt for its block is accepted exactly where the proof attests it
/// under the receipts root of the header.
pub proof fn law_appended_header_is_read_back(
    s: StoreView,
    h: HeaderView,
    index: u64,
    blob: Seq<u8>,
    receipt: ReceiptView,
)
    ensures
        s.appended(h).tip == Some(
            TipView {
                hash: h.hash,
                number: h.number,
                parent_hash: h.parent_hash,
                total_difficulty: s.total_difficulty() + h.difficulty,
            },
        ),
        s.appended(h).header_by_number(h.number) == Some(h),
        s.appended(h).header(h.hash) is Some,
        receipt_outcome(s.appended(h), h.number, index, blob, receipt) == (if receipt_attested(
            h.receipts_root,
            index,
            blob,
            receipt,
        ) {
            Ok::<(), Error>(())
        } else {
            Err::<(), Error>(Error::ReceiptVF)
        }),
{
    assert(s.appended(h).headers.last() == h);
}

/// Whether each header of `chain` but the first names the one before it as
/// its parent and lies one block above it.
pub open spec fn parent_linked(chain: Seq<HeaderView>) -> bool {
    forall|i: int|
        0 < i < chain.len() ==> (#[trigger] chain[i]).parent_hash == chain[i - 1].hash && chain[i].number
            == chain[i - 1].number + 1
}

/// Whether no two headers of `chain` declare the same hash.
pub open spec fn distinct_hashes(chain: Seq<HeaderView>) -> bool {
    forall|i: int, j: int|
        0 <= i < j < chain.len() ==> (#[trigger] chain[i]).hash != (#[trigger] chain[j]).hash
}

/// Whether `h` passes every check that does not depend on the store, as a
/// child of `parent`: its hash, the basic rules, its difficulty and its
/// proof of work.
pub open spec fn passes_on(p: ParamsView, h: HeaderView, parent: HeaderView) -> bool {
    &&& h.hash == header_hash(h)
    &&& block_basic_ok(p, h, parent)
    &&& expected_difficulty(p, h.number, h.timestamp, parent) == h.difficulty
    &&& pow_outcome(h) is Ok
}

/// The store after `chain[0]` has been set as the genesis header of an empty
/// store and the next `k` headers of `chain` have been appended, in order.
pub open spec fn store_after(auth_best_number: u64, chain: Seq<HeaderView>, k: nat) -> StoreView
    decreases k,
{
    if k == 0 {
        empty_store(auth_best_number).with_genesis(chain[0])
    } else {
        store_after(auth_best_number, chain, (k - 1) as nat).appended(chain[k as int])
    }
}

/// What `store_after` holds: the first `k + 1` headers of the chain, each
/// found under its own hash.
proof fn lemma_store_after(auth_best_number: u64, chain: Seq<HeaderView>, k: nat)
    requires
        k < chain.len(),
        parent_linked(chain),
        distinct_hashes(chain),
    ensures
        store_after(auth_best_number, chain, k).headers == chain.subrange(0, k as int + 1),
        store_after(auth_best_number, chain, k).genesis == Some(chain[0]),
        store_after(auth_best_number, chain, k).auth_best_number == auth_best_number,
        chain[k as int].number == chain[0].number + k,
        forall|j: int|
            0 <= j <= k ==> store_after(auth_best_number, chain, k).header(
                (#[trigger] chain[j]).hash,
            ) == Some(chain[j]),
        k > 0 ==> store_after(auth_best_number, chain, k).tip is Some && store_after(
            auth_best_number,
            chain,
            k,
        ).tip.unwrap().hash == chain[k as int].hash && store_after(
            auth_best_number,
            chain,
            k,
        ).tip.unwrap().number == chain[k as int].number,
    decreases k,
{
    let now = store_after(auth_best_number, chain, k);
    if k == 0 {
        assert(now.headers =~= chain.subrange(0, 1));
        assert(now.headers.drop_last() =~= Seq::<HeaderView>::empty());
        assert(find_by_hash(now.headers.drop_last(), chain[0].hash) is None);
        assert(now.headers.last() == chain[0]);
        assert(now.header(chain[0].hash) == Some(chain[0]));
    } else {
        let before = store_after(auth_best_number, chain, (k - 1) as nat);
        lemma_store_after(auth_best_number, chain, (k - 1) as nat);
        assert(now.headers =~= chain.subrange(0, k as int + 1));
        assert(now.headers.drop_last() =~= before.headers);
        lemma_found_has_hash(before.headers, chain[k as int].hash);
        assert(find_by_hash(before.headers, chain[k as int].hash) is None) by {
            if find_by_hash(before.headers, chain[k as int].hash) is Some {
                let h = find_by_hash(before.headers, chain[k as int].hash).unwrap();
                let i = choose|i: int| 0 <= i < before.headers.len() && before.headers[i] == h;
                assert(chain[i].hash == chain[k as int].hash);
            }
        }
        assert forall|j: int| 0 <= j <= k implies now.header((#[trigger] chain[j]).hash) == Some(
            chain[j],
        ) by {
            if j < k {
                assert(before.header(chain[j].hash) == Some(chain[j]));
            } else {
                assert(now.headers.last() == chain[k as int]);
            }
        }
    }
}

/// Linkage. Take a chain of headers in which each header but the first names
/// the one before it as its parent and lies one block above it, no two
/// declare the same hash, and each but the first passes the checks of its
/// hash, its difficulty and its proof of work and is old enough to count as
/// final. Set the first as the genesis header of an empty store and submit
/// the others in order: each submission is accepted, and the tip ends at the
/// last header.
pub proof fn law_linkage(c: Config, auth_best_number: u64, chain: Seq<HeaderView>, k: nat)
    requires
        0 < k < chain.len(),
        parent_linked(chain),
        distinct_hashes(chain),
        forall|i: int|
            0 < i < chain.len() ==> passes_on(
                network_params(c.network),
                #[trigger] chain[i],
                chain[i - 1],
            ) && is_final(auth_best_number, c.confirmations, chain[i].number),
    ensures
        submit_outcome(store_after(auth_best_number, chain, (k - 1) as nat), c, chain[k as int])
            is Ok,
        store_after(auth_best_number, chain, k).tip is Some,
        store_after(auth_best_number, chain, k).tip.unwrap().hash == chain[k as int].hash,
        store_after(auth_best_number, chain, k).tip.unwrap().number == chain[k as int].number,
        linked(store_after(auth_best_number, chain, k)),
{
    let before = store_after(auth_best_number, chain, (k - 1) as nat);
    let h = chain[k as int];
    let parent = chain[k - 1];
    lemma_store_after(auth_best_number, chain, (k - 1) as nat);
    lemma_store_after(auth_best_number, chain, k);
    assert(passes_on(network_params(c.network), h, parent));
    assert(before.header(parent.hash) == Some(parent));
    assert(h.parent_hash == parent.hash);
    assert(basic_outcome(before, h) is Ok);
    assert(difficulty_outcome(before, network_params(c.network), h) is Ok);
    lemma_store_after_linked(auth_best_number, chain, k);
}

/// The parent links hold in every store that `store_after` describes.
proof fn lemma_store_after_linked(auth_best_number: u64, chain: Seq<HeaderView>, k: nat)
    requires
        k < chain.len(),
        parent_linked(chain),
        distinct_hashes(chain),
    ensures
        linked(store_after(auth_best_number, chain, k)),
    decreases k,
{
    let now = store_after(auth_best_number, chain, k);
    lemma_store_after(auth_best_number, chain, k);
    assert forall|i: int| 0 <= i < now.headers.len() implies now.genesis == Some(
        #[trigger] now.headers[i],
    ) || has_parent(now, now.headers[i]) by {
        assert(now.headers[i] == chain[i]);
        if i > 0 {
            assert(now.header(chain[i - 1].hash) == Some(chain[i - 1]));
            assert(chain[i].parent_hash == chain[i - 1].hash);
        }
    }
}

} // verus!
