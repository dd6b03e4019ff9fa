//! What the first two stages of a glossary search find: the entries that
//! the lower-cased term names exactly, else those that the first indexed
//! variant of the term names.
use vstd::prelude::*;
use crate::po_search::{
    EntryView, Pair, PoFileIndex, add_key, add_keys, dedup_pairs, dedup_positions, entry_pair, exact_keys,
    exact_map_of, exact_stage, first_five, first_indexed_variant, lookup, pairs_at, stage_candidates,
    variant_stage,
};
use crate::rank_laws::search_of;
use crate::search_laws::{lemma_dedup_positions, lemma_index_lists_entries, list_ok, lists_under};
use crate::text::lowercase;
use crate::variants::variants_spec;
use vstd::utf8::encode_utf8;

verus! {

/// The entry `e` is named by the key `k`: `k` is its lower-cased msgid or
/// one of that msgid's variants.
pub open spec fn names_entry(k: Seq<u8>, e: EntryView) -> bool {
    variants_spec(encode_utf8(e.1)).contains(k)
}

/// Every pair of `r` is the pair of an entry of `es` that `k` names.
pub open spec fn pairs_named_by(r: Seq<Pair>, es: Seq<EntryView>, k: Seq<u8>) -> bool {
    forall|q: int|
        #![trigger r[q]]
        0 <= q < r.len() ==> exists|i: int|
            #![trigger es[i]]
            0 <= i < es.len() && r[q] == entry_pair(es[i]) && names_entry(k, es[i])
}

/// A position listed under a key after recording `idx` under `keys` was
/// listed there before, or is `idx` with the key among `keys`.
proof fn lemma_add_keys_listed_from(m: Map<Seq<u8>, Seq<usize>>, keys: Seq<Seq<u8>>, idx: usize, k: Seq<u8>, x: usize)
    requires
        add_keys(m, keys, idx).contains_key(k),
        add_keys(m, keys, idx)[k].contains(x),
    ensures
        (m.contains_key(k) && m[k].contains(x)) || (x == idx && keys.contains(k)),
    decreases keys.len(),
{
    if keys.len() > 0 {
        let init = keys.drop_last();
        let m1 = add_keys(m, init, idx);
        let kl = keys.last();
        assert(keys[keys.len() - 1] == kl);
        if k == kl {
            if m1.contains_key(k) && m1[k].contains(x) {
                lemma_add_keys_listed_from(m, init, idx, k, x);
                if !(m.contains_key(k) && m[k].contains(x)) {
                    let j = choose|j: int| 0 <= j < init.len() && init[j] == k;
                    assert(keys[j] == init[j]);
                }
            } else {
                let l = add_key(m1, kl, idx)[k];
                let t = choose|t: int| 0 <= t < l.len() && l[t] == x;
                if m1.contains_key(k) {
                    if t < m1[k].len() {
                        assert(l[t] == m1[k][t]);
                    }
                }
            }
        } else {
            assert(add_key(m1, kl, idx)[k] == m1[k]);
            lemma_add_keys_listed_from(m, init, idx, k, x);
            if !(m.contains_key(k) && m[k].contains(x)) {
                let j = choose|j: int| 0 <= j < init.len() && init[j] == k;
                assert(keys[j] == init[j]);
            }
        }
    }
}

/// The exact-match map lists under a key only entries that the key names.
proof fn lemma_exact_map_listed_named(es: Seq<EntryView>, k: Seq<u8>, x: usize)
    requires
        es.len() <= usize::MAX,
        exact_map_of(es).contains_key(k),
        exact_map_of(es)[k].contains(x),
    ensures
        x < es.len(),
        names_entry(k, es[x as int]),
    decreases es.len(),
{
    let init = es.drop_last();
    let m0 = exact_map_of(init);
    let idx = (es.len() - 1) as usize;
    lemma_add_keys_listed_from(m0, exact_keys(es.last()), idx, k, x);
    if m0.contains_key(k) && m0[k].contains(x) {
        lemma_exact_map_listed_named(init, k, x);
        assert(init[x as int] == es[x as int]);
    } else {
        assert(es[x as int] == es.last());
    }
}

/// Removing repeated pairs keeps every pair.
proof fn lemma_dedup_pairs_keeps(s: Seq<Pair>, p: Pair)
    requires
        s.contains(p),
    ensures
        dedup_pairs(s).contains(p),
    decreases s.len(),
{
    let init = s.drop_last();
    let r = dedup_pairs(init);
    if s.last() == p {
        if !r.contains(p) {
            assert(r.push(p)[r.len() as int] == p);
        }
    } else {
        let w = choose|w: int| 0 <= w < s.len() && s[w] == p;
        assert(init[w] == s[w]);
        lemma_dedup_pairs_keeps(init, p);
        if !r.contains(s.last()) {
            let t = choose|t: int| 0 <= t < r.len() && r[t] == p;
            assert(r.push(s.last())[t] == p);
        }
    }
}

/// Removing repeated positions or pairs keeps only what was there.
proof fn lemma_dedup_pairs_from(s: Seq<Pair>, q: int)
    requires
        0 <= q < dedup_pairs(s).len(),
    ensures
        s.contains(dedup_pairs(s)[q]),
    decreases s.len(),
{
    let init = s.drop_last();
    let r = dedup_pairs(init);
    if q < r.len() {
        assert(dedup_pairs(s)[q] == r[q]);
        lemma_dedup_pairs_from(init, q);
        let w = choose|w: int| 0 <= w < init.len() && init[w] == r[q];
        assert(s[w] == init[w]);
    } else {
        assert(s[s.len() - 1] == s.last());
    }
}

/// One candidate found at positions listed under `k` is the pair of an
/// entry that `k` names.
proof fn lemma_stage_candidate_named(ix: PoFileIndex, k: Seq<u8>, idxs: Seq<usize>, r: Seq<Pair>, q: int)
    requires
        ix.wf(),
        ix.exact_view().contains_key(k),
        idxs == dedup_positions(ix.exact_view()[k]),
        r == first_five(dedup_pairs(pairs_at(ix.entries_view(), idxs))),
        0 <= q < r.len(),
    ensures
        exists|i: int|
            0 <= i < ix.entries_view().len() && r[q] == entry_pair(ix.entries_view()[i]) && names_entry(
                k,
                ix.entries_view()[i],
            ),
{
    let es = ix.entries_view();
    ix.lemma_wf_maps();
    let l = ix.exact_view()[k];
    lemma_dedup_positions(l);
    let c = pairs_at(es, idxs);
    let d = dedup_pairs(c);
    assert(r[q] == d[q]);
    lemma_dedup_pairs_from(c, q);
    let t = choose|t: int| 0 <= t < c.len() && c[t] == d[q];
    let x = idxs[t];
    assert(l.contains(x));
    lemma_exact_map_listed_named(es, k, x);
    assert(c[t] == entry_pair(es[x as int]));
    let xi = x as int;
    assert(0 <= xi < ix.entries_view().len() && r[q] == entry_pair(ix.entries_view()[xi]) && names_entry(
        k,
        ix.entries_view()[xi],
    ));
}

/// Removing repeated positions keeps the order of what it keeps.
proof fn lemma_dedup_positions_order(s: Seq<usize>, a: int, b: int)
    requires
        0 <= a < b < dedup_positions(s).len(),
    ensures
        exists|pa: int, pb: int|
            0 <= pa < pb < s.len() && #[trigger] s[pa] == dedup_positions(s)[a] && #[trigger] s[pb] == dedup_positions(
                s,
            )[b],
    decreases s.len(),
{
    let init = s.drop_last();
    let r = dedup_positions(init);
    let d = dedup_positions(s);
    lemma_dedup_positions(init);
    if b < r.len() {
        assert(d[a] == r[a] && d[b] == r[b]);
        lemma_dedup_positions_order(init, a, b);
        let (pa, pb) = choose|pa: int, pb: int|
            0 <= pa < pb < init.len() && #[trigger] init[pa] == r[a] && #[trigger] init[pb] == r[b];
        assert(s[pa] == init[pa] && s[pb] == init[pb]);
    } else {
        assert(d[a] == r[a]);
        assert(d[b] == s.last());
        assert(init.contains(r[a]));
        let pa = choose|pa: int| 0 <= pa < init.len() && init[pa] == r[a];
        assert(s[pa] == init[pa]);
        assert(s[s.len() - 1] == s.last());
    }
}

/// Two candidates found at positions listed under `k` come in the order of
/// their entries in the index.
proof fn lemma_stage_order(ix: PoFileIndex, k: Seq<u8>, idxs: Seq<usize>, r: Seq<Pair>, a: int, b: int)
    requires
        ix.wf(),
        ix.exact_view().contains_key(k),
        idxs == dedup_positions(ix.exact_view()[k]),
        r == first_five(dedup_pairs(pairs_at(ix.entries_view(), idxs))),
        0 <= a < b < r.len(),
    ensures
        pairs_in_order_at(r, ix.entries_view(), a, b),
{
    let es = ix.entries_view();
    let l = ix.exact_view()[k];
    lemma_index_lists_entries(ix);
    ix.lemma_wf_maps();
    assert(list_ok(l, es.len()));
    lemma_dedup_positions(l);
    let c = pairs_at(es, idxs);
    let d = dedup_pairs(c);
    crate::search_laws::lemma_dedup_pairs(c);
    assert(r[a] == d[a] && r[b] == d[b]);
    assert(d[a] != d[b]);
    crate::rank_laws::lemma_dedup_pairs_order(c, a, b);
    let (pa, pb) = choose|pa: int, pb: int| 0 <= pa < pb < c.len() && #[trigger] c[pa] == d[a] && #[trigger] c[pb] == d[b];
    lemma_dedup_positions_order(l, pa, pb);
    let (qa, qb) = choose|qa: int, qb: int| 0 <= qa < qb < l.len() && #[trigger] l[qa] == idxs[pa] && #[trigger] l[qb] == idxs[pb];
    let ia = idxs[pa] as int;
    let ib = idxs[pb] as int;
    assert(l[qa] <= l[qb]);
    assert(c[pa] == entry_pair(es[ia]));
    assert(c[pb] == entry_pair(es[ib]));
    assert(ia != ib);
    assert(0 <= ia < ib < ix.entries_view().len() && r[a] == entry_pair(ix.entries_view()[ia]) && r[b] == entry_pair(
        ix.entries_view()[ib],
    ));
}

/// The pairs at `a` and `b` of `r` are those of entries of `es` in that order.
pub open spec fn pairs_in_order_at(r: Seq<Pair>, es: Seq<EntryView>, a: int, b: int) -> bool {
    exists|ia: int, ib: int|
        #![trigger es[ia], es[ib]]
        0 <= ia < ib < es.len() && r[a] == entry_pair(es[ia]) && r[b] == entry_pair(es[ib])
}

/// The pairs of `r` come in the order of their entries in `es`.
pub open spec fn in_entry_order(r: Seq<Pair>, es: Seq<EntryView>) -> bool {
    forall|a: int, b: int| 0 <= a < b < r.len() ==> #[trigger] pairs_in_order_at(r, es, a, b)
}

/// The search result for candidates found at the positions `idxs`, all of
/// them listed under `k`: each candidate is the pair of an entry that `k`
/// names, and an entry listed under `k` that is left out is left out only
/// where five candidates were found.
#[verifier::spinoff_prover]
proof fn lemma_stage_from_key(ix: PoFileIndex, k: Seq<u8>, idxs: Seq<usize>, r: Seq<Pair>)
    requires
        ix.wf(),
        ix.exact_view().contains_key(k),
        idxs == dedup_positions(ix.exact_view()[k]),
        r == first_five(dedup_pairs(pairs_at(ix.entries_view(), idxs))),
    ensures
        pairs_named_by(r, ix.entries_view(), k),
        in_entry_order(r, ix.entries_view()),
        forall|i: int|
            0 <= i < ix.entries_view().len() && names_entry(k, #[trigger] ix.entries_view()[i]) && !r.contains(
                entry_pair(ix.entries_view()[i]),
            ) ==> r.len() == 5,
{
    let es = ix.entries_view();
    let exact = ix.exact_view();
    ix.lemma_wf_maps();
    lemma_index_lists_entries(ix);
    let l = exact[k];
    lemma_dedup_positions(l);
    let c = pairs_at(es, idxs);
    let d = dedup_pairs(c);
    assert forall|i: int|
        0 <= i < es.len() && names_entry(k, #[trigger] es[i]) && !r.contains(entry_pair(es[i])) implies r.len() == 5 by {
        let keys = exact_keys(es[i]);
        let j = choose|j: int| 0 <= j < keys.len() && keys[j] == k;
        assert(lists_under(exact, keys[j], i));
        let iu = i as usize;
        crate::rank_laws::lemma_dedup_positions_keeps(l, iu);
        let t = choose|t: int| 0 <= t < idxs.len() && idxs[t] == iu;
        assert(c[t] == entry_pair(es[i]));
        lemma_dedup_pairs_keeps(c, entry_pair(es[i]));
        let u = choose|u: int| 0 <= u < d.len() && d[u] == entry_pair(es[i]);
        if d.len() <= 5 {
            assert(r == d);
            assert(r[u] == entry_pair(es[i]));
        } else if u < 5 {
            assert(r[u] == d[u]);
        }
    }
    assert forall|q: int|
        #![trigger r[q]]
        0 <= q < r.len() implies exists|i: int|
        #![trigger ix.entries_view()[i]]
        0 <= i < ix.entries_view().len() && r[q] == entry_pair(ix.entries_view()[i]) && names_entry(
            k,
            ix.entries_view()[i],
        ) by {
        lemma_stage_candidate_named(ix, k, idxs, r, q);
    }
    assert(pairs_named_by(r, ix.entries_view(), k));
    assert forall|a: int, b: int| 0 <= a < b < r.len() implies #[trigger] pairs_in_order_at(r, ix.entries_view(), a, b) by {
        lemma_stage_order(ix, k, idxs, r, a, b);
    }
    assert(in_entry_order(r, ix.entries_view()));
}

/// Where the lower-cased term is a key of the exact-match map, the search
/// answers from it: each candidate is the pair of an entry whose
/// lower-cased msgid, or one of its variants, is the lower-cased term; the
/// candidates come in the order of their entries in the index; and such an
/// entry is left out only where five candidates were found.
#[verifier::spinoff_prover]
pub proof fn lemma_exact_stage_answers(ix: PoFileIndex, term: Seq<char>)
    requires
        ix.wf(),
        ix.exact_view().contains_key(encode_utf8(lowercase(term))),
    ensures
        pairs_named_by(search_of(ix, term), ix.entries_view(), encode_utf8(lowercase(term))),
        in_entry_order(search_of(ix, term), ix.entries_view()),
        forall|i: int|
            0 <= i < ix.entries_view().len() && names_entry(encode_utf8(lowercase(term)), #[trigger] ix.entries_view()[i])
                && !search_of(ix, term).contains(entry_pair(ix.entries_view()[i])) ==> search_of(ix, term).len() == 5,
{
    let exact = ix.exact_view();
    let lower = encode_utf8(lowercase(term));
    lemma_index_lists_entries(ix);
    assert(list_ok(exact[lower], ix.entries_view().len()));
    lemma_dedup_positions(exact[lower]);
    let p1 = exact_stage(exact, lower);
    assert(p1 == dedup_positions(exact[lower]));
    assert(p1.len() > 0);
    assert(stage_candidates(ix.entries_view(), exact, ix.words_view(), term) == pairs_at(ix.entries_view(), p1));
    lemma_stage_from_key(ix, lower, p1, search_of(ix, term));
}

/// The first indexed variant is the variant at the first position that
/// differs from the term and is a key.
proof fn lemma_first_indexed_at(vs: Seq<Seq<u8>>, lower: Seq<u8>, m: Map<Seq<u8>, Seq<usize>>, j: int)
    requires
        0 <= j < vs.len(),
        vs[j] != lower,
        m.contains_key(vs[j]),
        forall|j2: int| 0 <= j2 < j ==> vs[j2] == lower || !m.contains_key(#[trigger] vs[j2]),
    ensures
        first_indexed_variant(vs, lower, m) == Some(vs[j]),
    decreases j,
{
    if j > 0 {
        assert(vs[0] == lower || !m.contains_key(vs[0]));
        assert forall|j2: int| 0 <= j2 < j - 1 implies vs.drop_first()[j2] == lower || !m.contains_key(
            #[trigger] vs.drop_first()[j2],
        ) by {
            assert(vs.drop_first()[j2] == vs[j2 + 1]);
        }
        assert(vs.drop_first()[j - 1] == vs[j]);
        lemma_first_indexed_at(vs.drop_first(), lower, m, j - 1);
    }
}

/// Where the lower-cased term is no key of the exact-match map, the search
/// answers from the first of its variants, in order, that is one: each
/// candidate is the pair of an entry that this variant names; the
/// candidates come in the order of their entries in the index; and such an
/// entry is left out only where five candidates were found.
#[verifier::spinoff_prover]
pub proof fn lemma_variant_stage_answers(ix: PoFileIndex, term: Seq<char>, j: int)
    requires
        ix.wf(),
        !ix.exact_view().contains_key(encode_utf8(lowercase(term))),
        0 <= j < variants_spec(encode_utf8(lowercase(term))).len(),
        ix.exact_view().contains_key(variants_spec(encode_utf8(lowercase(term)))[j]),
        forall|j2: int|
            0 <= j2 < j ==> !ix.exact_view().contains_key(#[trigger] variants_spec(encode_utf8(lowercase(term)))[j2]),
    ensures
        pairs_named_by(search_of(ix, term), ix.entries_view(), variants_spec(encode_utf8(lowercase(term)))[j]),
        in_entry_order(search_of(ix, term), ix.entries_view()),
        forall|i: int|
            0 <= i < ix.entries_view().len() && names_entry(
                variants_spec(encode_utf8(lowercase(term)))[j],
                #[trigger] ix.entries_view()[i],
            ) && !search_of(ix, term).contains(entry_pair(ix.entries_view()[i])) ==> search_of(ix, term).len() == 5,
{
    let exact = ix.exact_view();
    let lower = encode_utf8(lowercase(term));
    let vs = variants_spec(lower);
    let v = vs[j];
    lemma_index_lists_entries(ix);
    assert(v != lower);
    lemma_first_indexed_at(vs, lower, exact, j);
    assert(exact_stage(exact, lower) =~= Seq::<usize>::empty());
    let p2 = variant_stage(exact, lower);
    assert(p2 == dedup_positions(exact[v]));
    assert(list_ok(exact[v], ix.entries_view().len()));
    lemma_dedup_positions(exact[v]);
    assert(p2.len() > 0);
    assert(stage_candidates(ix.entries_view(), exact, ix.words_view(), term) == pairs_at(ix.entries_view(), p2));
    lemma_stage_from_key(ix, v, p2, search_of(ix, term));
}

} // verus!
