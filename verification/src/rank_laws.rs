//! How a glossary search ranks what it finds through the words of a term,
//! when neither the term nor any of its variants is a msgid of the index.
use vstd::prelude::*;
use crate::po_search::{
    EntryView, Pair, PoFileIndex, by_score_desc, dedup_pairs, dedup_positions, entry_pair,
    exact_stage, first_five, first_indexed_variant, lookup, score_of, scored, search_spec,
    stage_candidates, term_words, variant_stage, with_score, word_hits, word_stage,
};
use crate::search_laws::{lemma_with_score_from, lemma_by_score_from, lemma_dedup_positions, lemma_index_lists_entries, list_ok, lists_under};
use crate::text::lowercase;
use crate::variants::{lemma_variants_start_with_word, variants_spec};
use crate::bytes::contains_seq;
use vstd::utf8::encode_utf8;

verus! {

/// The score of a pair for the words `tw`: how many of them (counted with
/// repetition) its msgid, lower-cased, contains.
pub open spec fn pair_score(p: Pair, tw: Seq<Seq<char>>) -> nat {
    score_of(lowercase(p.0), tw)
}

/// The pairs of `s` come in non-increasing order of score.
pub open spec fn ranked(s: Seq<Pair>, tw: Seq<Seq<char>>) -> bool {
    forall|a: int, b: int| 0 <= a <= b < s.len() ==> pair_score(#[trigger] s[a], tw) >= pair_score(#[trigger] s[b], tw)
}

/// Each scored pair carries its own score, which lies between 1 and the
/// number of words.
pub open spec fn scores_agree(cs: Seq<(nat, Pair)>, tw: Seq<Seq<char>>) -> bool {
    forall|j: int| 0 <= j < cs.len() ==> {
        &&& (#[trigger] cs[j]).0 == pair_score(cs[j].1, tw)
        &&& 1 <= cs[j].0 <= tw.len()
    }
}

/// The result of a search of the index `ix` for `term`.
pub open spec fn search_of(ix: PoFileIndex, term: Seq<char>) -> Seq<Pair> {
    search_spec(ix.entries_view(), ix.exact_view(), ix.words_view(), term)
}

/// A term scores no more than its number of words.
proof fn lemma_score_at_most(lower: Seq<char>, tw: Seq<Seq<char>>)
    ensures
        score_of(lower, tw) <= tw.len(),
    decreases tw.len(),
{
    if tw.len() > 0 {
        lemma_score_at_most(lower, tw.drop_last());
    }
}

/// The scored pairs of the positions `idxs` carry their own scores, and
/// each position whose entry scores is among them.
proof fn lemma_scored_agree(es: Seq<EntryView>, idxs: Seq<usize>, tw: Seq<Seq<char>>)
    requires
        forall|k: int| 0 <= k < idxs.len() ==> #[trigger] idxs[k] < es.len(),
        forall|i: int| 0 <= i < es.len() ==> (#[trigger] es[i]).1 == lowercase(es[i].0),
    ensures
        scores_agree(scored(es, idxs, tw), tw),
        forall|k: int| 0 <= k < idxs.len() && score_of(es[idxs[k] as int].1, tw) > 0 ==>
            scored(es, idxs, tw).contains((score_of(es[#[trigger] idxs[k] as int].1, tw), entry_pair(es[idxs[k] as int]))),
    decreases idxs.len(),
{
    if idxs.len() > 0 {
        let init = idxs.drop_last();
        assert forall|k: int| 0 <= k < init.len() implies #[trigger] init[k] < es.len() by {
            assert(init[k] == idxs[k]);
        }
        lemma_scored_agree(es, init, tw);
        let r = scored(es, init, tw);
        let s = scored(es, idxs, tw);
        let e = es[idxs.last() as int];
        lemma_score_at_most(e.1, tw);
        assert(idxs[idxs.len() - 1] == idxs.last());
        assert forall|j: int| 0 <= j < s.len() implies {
            &&& (#[trigger] s[j]).0 == pair_score(s[j].1, tw)
            &&& 1 <= s[j].0 <= tw.len()
        } by {
            if j < r.len() {
                assert(s[j] == r[j]);
            }
        }
        assert forall|k: int| 0 <= k < idxs.len() && score_of(es[idxs[k] as int].1, tw) > 0 implies
            s.contains((score_of(es[#[trigger] idxs[k] as int].1, tw), entry_pair(es[idxs[k] as int]))) by {
            if k < init.len() {
                assert(init[k] == idxs[k]);
                let x = (score_of(es[idxs[k] as int].1, tw), entry_pair(es[idxs[k] as int]));
                let w = choose|w: int| 0 <= w < r.len() && r[w] == x;
                assert(s[w] == r[w]);
            } else {
                assert(s[s.len() - 1] == (score_of(e.1, tw), entry_pair(e)));
            }
        }
    }
}

/// The pairs of score `k` all score `k`, and each scored pair of score `k`
/// is among them.
proof fn lemma_with_score_agree(cs: Seq<(nat, Pair)>, tw: Seq<Seq<char>>, k: nat)
    requires
        scores_agree(cs, tw),
    ensures
        forall|q: int| 0 <= q < with_score(cs, k).len() ==> pair_score(#[trigger] with_score(cs, k)[q], tw) == k,
        forall|j: int| 0 <= j < cs.len() && (#[trigger] cs[j]).0 == k ==> with_score(cs, k).contains(cs[j].1),
    decreases cs.len(),
{
    if cs.len() > 0 {
        let init = cs.drop_last();
        assert forall|j: int| 0 <= j < init.len() implies {
            &&& (#[trigger] init[j]).0 == pair_score(init[j].1, tw)
            &&& 1 <= init[j].0 <= tw.len()
        } by {
            assert(init[j] == cs[j]);
        }
        lemma_with_score_agree(init, tw, k);
        let r = with_score(init, k);
        let w = with_score(cs, k);
        assert(cs[cs.len() - 1] == cs.last());
        assert forall|q: int| 0 <= q < w.len() implies pair_score(#[trigger] w[q], tw) == k by {
            if q < r.len() {
                assert(w[q] == r[q]);
            }
        }
        assert forall|j: int| 0 <= j < cs.len() && (#[trigger] cs[j]).0 == k implies w.contains(cs[j].1) by {
            if j < init.len() {
                assert(init[j] == cs[j]);
                let t = choose|t: int| 0 <= t < r.len() && r[t] == cs[j].1;
                assert(w[t] == r[t]);
            } else {
                assert(w[w.len() - 1] == cs.last().1);
            }
        }
    }
}

/// Ranking by score gives the pairs from score `k` down in order, and
/// holds every scored pair of score at most `k`.
proof fn lemma_by_score_ranked(cs: Seq<(nat, Pair)>, tw: Seq<Seq<char>>, k: nat)
    requires
        scores_agree(cs, tw),
    ensures
        ranked(by_score_desc(cs, k), tw),
        forall|q: int| 0 <= q < by_score_desc(cs, k).len() ==> pair_score(#[trigger] by_score_desc(cs, k)[q], tw) <= k,
        forall|j: int| 0 <= j < cs.len() && (#[trigger] cs[j]).0 <= k ==> by_score_desc(cs, k).contains(cs[j].1),
    decreases k,
{
    if k > 0 {
        let k1 = (k - 1) as nat;
        lemma_by_score_ranked(cs, tw, k1);
        lemma_with_score_agree(cs, tw, k);
        let a = with_score(cs, k);
        let b = by_score_desc(cs, k1);
        let s = by_score_desc(cs, k);
        assert(s == a + b);
        assert forall|q: int| 0 <= q < s.len() implies pair_score(#[trigger] s[q], tw) <= k by {
            if q < a.len() {
                assert(s[q] == a[q]);
            } else {
                assert(s[q] == b[q - a.len()]);
            }
        }
        assert forall|x: int, y: int| 0 <= x <= y < s.len() implies pair_score(#[trigger] s[x], tw) >= pair_score(#[trigger] s[y], tw) by {
            if x < a.len() {
                assert(s[x] == a[x]);
                if y < a.len() {
                    assert(s[y] == a[y]);
                } else {
                    assert(s[y] == b[y - a.len()]);
                }
            } else {
                assert(s[x] == b[x - a.len()]);
                assert(s[y] == b[y - a.len()]);
            }
        }
        assert forall|j: int| 0 <= j < cs.len() && (#[trigger] cs[j]).0 <= k implies s.contains(cs[j].1) by {
            if cs[j].0 == k {
                let t = choose|t: int| 0 <= t < a.len() && a[t] == cs[j].1;
                assert(s[t] == a[t]);
            } else {
                let t = choose|t: int| 0 <= t < b.len() && b[t] == cs[j].1;
                assert(s[t + a.len()] == b[t]);
            }
        }
    } else {
        assert forall|j: int| 0 <= j < cs.len() && (#[trigger] cs[j]).0 <= k implies by_score_desc(cs, k).contains(cs[j].1) by {
            assert(1 <= cs[j].0);
        }
    }
}

/// Dropping repeated pairs keeps the order of scores and every pair.
proof fn lemma_dedup_ranked(s: Seq<Pair>, tw: Seq<Seq<char>>)
    requires
        ranked(s, tw),
    ensures
        ranked(dedup_pairs(s), tw),
        forall|p: Pair| s.contains(p) ==> #[trigger] dedup_pairs(s).contains(p),
        forall|q: int| 0 <= q < dedup_pairs(s).len() ==> s.contains(#[trigger] dedup_pairs(s)[q]),
    decreases s.len(),
{
    if s.len() > 0 {
        let init = s.drop_last();
        assert forall|a: int, b: int| 0 <= a <= b < init.len() implies pair_score(#[trigger] init[a], tw) >= pair_score(#[trigger] init[b], tw) by {
            assert(init[a] == s[a]);
            assert(init[b] == s[b]);
        }
        lemma_dedup_ranked(init, tw);
        let r = dedup_pairs(init);
        let d = dedup_pairs(s);
        assert(s[s.len() - 1] == s.last());
        assert forall|q: int| 0 <= q < d.len() implies s.contains(#[trigger] d[q]) by {
            if q < r.len() {
                assert(d[q] == r[q]);
                let w = choose|w: int| 0 <= w < init.len() && init[w] == r[q];
                assert(s[w] == init[w]);
            }
        }
        assert forall|a: int, b: int| 0 <= a <= b < d.len() implies pair_score(#[trigger] d[a], tw) >= pair_score(#[trigger] d[b], tw) by {
            if b < r.len() {
                assert(d[a] == r[a]);
                assert(d[b] == r[b]);
            } else if a < r.len() {
                assert(d[a] == r[a]);
                assert(d[b] == s.last());
                let w = choose|w: int| 0 <= w < init.len() && init[w] == r[a];
                assert(s[w] == init[w]);
            }
        }
        assert forall|p: Pair| s.contains(p) implies #[trigger] d.contains(p) by {
            let w = choose|w: int| 0 <= w < s.len() && s[w] == p;
            if r.contains(p) {
                let t = choose|t: int| 0 <= t < r.len() && r[t] == p;
                if !r.contains(s.last()) {
                    assert(d[t] == r.push(s.last())[t]);
                }
                assert(d[t] == p);
            } else if w < init.len() {
                assert(init[w] == s[w]);
                assert(init.contains(p));
                assert(dedup_pairs(init).contains(p));
            } else {
                assert(d[d.len() - 1] == p);
            }
        }
    }
}

/// Removing repeated positions keeps every position.
pub(crate) proof fn lemma_dedup_positions_keeps(s: Seq<usize>, x: usize)
    requires
        s.contains(x),
    ensures
        dedup_positions(s).contains(x),
    decreases s.len(),
{
    let init = s.drop_last();
    let r = dedup_positions(init);
    if s.last() == x {
        if r.contains(x) {
        } else {
            assert(r.push(x)[r.len() as int] == x);
        }
    } else {
        let w = choose|w: int| 0 <= w < s.len() && s[w] == x;
        assert(init[w] == s[w]);
        lemma_dedup_positions_keeps(init, x);
        if !r.contains(s.last()) {
            let t = choose|t: int| 0 <= t < r.len() && r[t] == x;
            assert(r.push(s.last())[t] == x);
        }
    }
}

/// Each position of the word hits is one listed under a word of the term,
/// and each position listed under a word of the term is a hit.
proof fn lemma_word_hits(m: Map<Seq<u8>, Seq<usize>>, tw: Seq<Seq<char>>)
    ensures
        forall|q: int| 0 <= q < word_hits(m, tw).len() ==> exists|w: int|
            0 <= w < tw.len() && lists_under(m, encode_utf8(tw[w]), #[trigger] word_hits(m, tw)[q] as int),
        forall|w: int, i: usize| 0 <= w < tw.len() && #[trigger] lists_under(m, encode_utf8(tw[w]), i as int)
            ==> word_hits(m, tw).contains(i),
    decreases tw.len(),
{
    if tw.len() > 0 {
        let init = tw.drop_last();
        lemma_word_hits(m, init);
        let a = word_hits(m, init);
        let key = encode_utf8(tw.last());
        let b = lookup(m, key);
        let h = word_hits(m, tw);
        assert(h == a + b);
        assert(tw[tw.len() - 1] == tw.last());
        assert forall|q: int| 0 <= q < h.len() implies exists|w: int|
            0 <= w < tw.len() && lists_under(m, encode_utf8(tw[w]), #[trigger] h[q] as int) by {
            if q < a.len() {
                assert(h[q] == a[q]);
                let w = choose|w: int| 0 <= w < init.len() && lists_under(m, encode_utf8(init[w]), a[q] as int);
                assert(init[w] == tw[w]);
            } else {
                assert(h[q] == b[q - a.len()]);
                assert(m.contains_key(key));
                assert(m[key][q - a.len()] == h[q]);
                assert(lists_under(m, encode_utf8(tw[tw.len() - 1]), h[q] as int));
            }
        }
        assert forall|w: int, i: usize| 0 <= w < tw.len() && #[trigger] lists_under(m, encode_utf8(tw[w]), i as int)
            implies h.contains(i) by {
            if w < init.len() {
                assert(init[w] == tw[w]);
                assert(lists_under(m, encode_utf8(init[w]), i as int));
                let t = choose|t: int| 0 <= t < a.len() && a[t] == i;
                assert(h[t] == a[t]);
            } else {
                let t = choose|t: int| 0 <= t < m[key].len() && m[key][t] == i;
                assert(h[a.len() + t] == b[t]);
            }
        }
    }
}

/// When neither the term nor any of its variants is a key of the exact
/// map, the search answers from the words of the term: no word, no
/// candidate; each candidate is the pair of an entry listed under one of
/// the words, whose msgid contains at least one of them; the candidates
/// come from the highest score down; and an entry listed under a word,
/// whose msgid contains one, that is left out is outranked by five
/// candidates that score at least as much.
#[verifier::rlimit(40)]
#[verifier::spinoff_prover]
pub proof fn lemma_word_search_ranks(ix: PoFileIndex, term: Seq<char>)
    requires
        ix.wf(),
        forall|j: int|
            0 <= j < variants_spec(encode_utf8(lowercase(term))).len() ==> !ix.exact_view().contains_key(
                #[trigger] variants_spec(encode_utf8(lowercase(term)))[j],
            ),
    ensures
        term_words(term).len() == 0 ==> search_of(ix, term).len() == 0,
        forall|q: int| 0 <= q < search_of(ix, term).len() ==> exists|i: int, w: int|
            0 <= i < ix.entries_view().len() && 0 <= w < term_words(term).len()
                && #[trigger] search_of(ix, term)[q] == entry_pair(ix.entries_view()[i])
                && lists_under(ix.words_view(), encode_utf8(term_words(term)[w]), i),
        forall|q: int| 0 <= q < search_of(ix, term).len() ==> pair_score(#[trigger] search_of(ix, term)[q], term_words(term)) >= 1,
        ranked(search_of(ix, term), term_words(term)),
        forall|i: int, w: int|
            0 <= i < ix.entries_view().len() && 0 <= w < term_words(term).len()
                && #[trigger] lists_under(ix.words_view(), encode_utf8(term_words(term)[w]), i)
                && pair_score(entry_pair(ix.entries_view()[i]), term_words(term)) >= 1
                && !search_of(ix, term).contains(entry_pair(ix.entries_view()[i])) ==> {
                &&& search_of(ix, term).len() == 5
                &&& forall|a: int| 0 <= a < 5 ==> pair_score(#[trigger] search_of(ix, term)[a], term_words(term))
                    >= pair_score(entry_pair(ix.entries_view()[i]), term_words(term))
            },
{
    let es = ix.entries_view();
    let exact = ix.exact_view();
    let wm = ix.words_view();
    let tw = term_words(term);
    let lower = encode_utf8(lowercase(term));
    lemma_index_lists_entries(ix);
    ix.lemma_wf_maps();
    // The first two stages find nothing.
    lemma_variants_start_with_word(lower);
    assert(!exact.contains_key(lower));
    assert(exact_stage(exact, lower) =~= Seq::<usize>::empty());
    lemma_no_indexed_variant(variants_spec(lower), lower, exact);
    assert(variant_stage(exact, lower) =~= Seq::<usize>::empty());
    assert(stage_candidates(es, exact, wm, term) == word_stage(es, wm, term));
    // The word stage.
    let hits = word_hits(wm, tw);
    lemma_word_hits(wm, tw);
    let idxs = dedup_positions(hits);
    lemma_dedup_positions(hits);
    assert forall|k: int| 0 <= k < idxs.len() implies #[trigger] idxs[k] < es.len() by {
        let t = choose|t: int| 0 <= t < hits.len() && hits[t] == idxs[k];
        let w = choose|w: int| 0 <= w < tw.len() && lists_under(wm, encode_utf8(tw[w]), hits[t] as int);
        assert(list_ok(wm[encode_utf8(tw[w])], es.len()));
        let u = choose|u: int| 0 <= u < wm[encode_utf8(tw[w])].len() && wm[encode_utf8(tw[w])][u] == hits[t];
    }
    let cs = scored(es, idxs, tw);
    lemma_scored_agree(es, idxs, tw);
    lemma_by_score_ranked(cs, tw, tw.len());
    let ranked_all = by_score_desc(cs, tw.len());
    lemma_dedup_ranked(ranked_all, tw);
    let d = dedup_pairs(ranked_all);
    let r = first_five(d);
    assert(r == search_of(ix, term));
    // Candidates.
    lemma_scored_at_positions(es, idxs, tw);
    lemma_by_score_from(cs, tw.len());
    assert forall|q: int| 0 <= q < r.len() implies exists|i: int, w: int|
        0 <= i < es.len() && 0 <= w < tw.len() && #[trigger] r[q] == entry_pair(es[i])
            && lists_under(wm, encode_utf8(tw[w]), i) by {
        assert(r[q] == d[q]);
        assert(ranked_all.contains(d[q]));
        let t = choose|t: int| 0 <= t < ranked_all.len() && ranked_all[t] == d[q];
        let j = choose|j: int| 0 <= j < cs.len() && #[trigger] ranked_all[t] == cs[j].1;
        let t2 = choose|t2: int| 0 <= t2 < idxs.len() && cs[j].1 == entry_pair(es[#[trigger] idxs[t2] as int]);
        let x = idxs[t2];
        assert(hits.contains(x));
        let t3 = choose|t3: int| 0 <= t3 < hits.len() && hits[t3] == x;
        let w = choose|w: int| 0 <= w < tw.len() && lists_under(wm, encode_utf8(tw[w]), #[trigger] hits[t3] as int);
        assert(0 <= x < es.len());
        assert(0 <= (x as int) < es.len() && 0 <= w < tw.len() && r[q] == entry_pair(es[x as int])
            && lists_under(wm, encode_utf8(tw[w]), x as int));
    }
    assert forall|q: int| 0 <= q < r.len() implies pair_score(#[trigger] r[q], tw) >= 1 by {
        assert(r[q] == d[q]);
        assert(ranked_all.contains(d[q]));
        let t = choose|t: int| 0 <= t < ranked_all.len() && ranked_all[t] == d[q];
        let j = choose|j: int| 0 <= j < cs.len() && #[trigger] ranked_all[t] == cs[j].1;
        assert(cs[j].0 == pair_score(cs[j].1, tw));
    }
    // Order.
    assert forall|a: int, b: int| 0 <= a <= b < r.len() implies pair_score(#[trigger] r[a], tw) >= pair_score(#[trigger] r[b], tw) by {
        assert(r[a] == d[a]);
        assert(r[b] == d[b]);
    }
    // Completeness.
    assert forall|i: int, w: int|
        0 <= i < es.len() && 0 <= w < tw.len() && #[trigger] lists_under(wm, encode_utf8(tw[w]), i)
            && pair_score(entry_pair(es[i]), tw) >= 1 && !r.contains(entry_pair(es[i])) implies {
        &&& r.len() == 5
        &&& forall|a: int| 0 <= a < 5 ==> pair_score(#[trigger] r[a], tw) >= pair_score(entry_pair(es[i]), tw)
    } by {
        let iu = i as usize;
        assert(lists_under(wm, encode_utf8(tw[w]), iu as int));
        assert(hits.contains(iu));
        lemma_dedup_positions_keeps(hits, iu);
        let k = choose|k: int| 0 <= k < idxs.len() && idxs[k] == iu;
        assert(es[i].1 == lowercase(es[i].0));
        assert(score_of(es[idxs[k] as int].1, tw) > 0);
        let x = (score_of(es[idxs[k] as int].1, tw), entry_pair(es[idxs[k] as int]));
        assert(cs.contains(x));
        let j = choose|j: int| 0 <= j < cs.len() && cs[j] == x;
        lemma_score_at_most(es[i].1, tw);
        assert(cs[j].0 <= tw.len());
        assert(ranked_all.contains(cs[j].1));
        assert(d.contains(entry_pair(es[i])));
        let t = choose|t: int| 0 <= t < d.len() && d[t] == entry_pair(es[i]);
        if d.len() <= 5 {
            assert(r == d);
            assert(r[t] == entry_pair(es[i]));
        } else {
            if t < 5 {
                assert(r[t] == d[t]);
            }
            assert forall|a: int| 0 <= a < 5 implies pair_score(#[trigger] r[a], tw) >= pair_score(entry_pair(es[i]), tw) by {
                assert(r[a] == d[a]);
                assert(pair_score(d[a], tw) >= pair_score(d[t], tw));
            }
        }
    }
}

/// Each scored pair is the pair of the entry at one of the positions.
proof fn lemma_scored_at_positions(es: Seq<EntryView>, idxs: Seq<usize>, tw: Seq<Seq<char>>)
    ensures
        forall|j: int| 0 <= j < scored(es, idxs, tw).len() ==> exists|t: int|
            0 <= t < idxs.len() && (#[trigger] scored(es, idxs, tw)[j]).1 == entry_pair(es[idxs[t] as int]),
    decreases idxs.len(),
{
    if idxs.len() > 0 {
        let init = idxs.drop_last();
        lemma_scored_at_positions(es, init, tw);
        let r = scored(es, init, tw);
        let s = scored(es, idxs, tw);
        assert forall|j: int| 0 <= j < s.len() implies exists|t: int|
            0 <= t < idxs.len() && (#[trigger] s[j]).1 == entry_pair(es[idxs[t] as int]) by {
            if j < r.len() {
                assert(s[j] == r[j]);
                let t = choose|t: int| 0 <= t < init.len() && r[j].1 == entry_pair(es[init[t] as int]);
                assert(init[t] == idxs[t]);
            } else {
                assert(idxs[idxs.len() - 1] == idxs.last());
            }
        }
    }
}

/// Where no variant is a key of the map, no variant is indexed.
proof fn lemma_no_indexed_variant(vs: Seq<Seq<u8>>, lower: Seq<u8>, m: Map<Seq<u8>, Seq<usize>>)
    requires
        forall|j: int| 0 <= j < vs.len() ==> !m.contains_key(#[trigger] vs[j]),
    ensures
        first_indexed_variant(vs, lower, m) is None,
    decreases vs.len(),
{
    if vs.len() > 0 {
        assert(!m.contains_key(vs[0]));
        assert forall|j: int| 0 <= j < vs.drop_first().len() implies !m.contains_key(#[trigger] vs.drop_first()[j]) by {
            assert(vs.drop_first()[j] == vs[j + 1]);
        }
        lemma_no_indexed_variant(vs.drop_first(), lower, m);
    }
}


/// The words of `tw` that `lower` contains (compared by UTF-8 bytes, as
/// `str::contains` compares), in order and with repetition.
pub open spec fn contained_words(lower: Seq<char>, tw: Seq<Seq<char>>) -> Seq<Seq<char>> {
    tw.filter(|w: Seq<char>| contains_seq(encode_utf8(lower), encode_utf8(w)))
}

/// The score of a lower-cased msgid is the number of the term's words it
/// contains, counted with repetition: a msgid that contains `k` of the
/// words scores `k`.
pub proof fn lemma_score_counts_words(lower: Seq<char>, tw: Seq<Seq<char>>)
    ensures
        score_of(lower, tw) == contained_words(lower, tw).len(),
        score_of(lower, tw) <= tw.len(),
    decreases tw.len(),
{
    reveal(Seq::filter);
    if tw.len() > 0 {
        lemma_score_counts_words(lower, tw.drop_last());
    }
}

/// Scores add up: the score for two lists of words, one after the other,
/// is the sum of the scores for each.
pub proof fn lemma_score_adds(lower: Seq<char>, a: Seq<Seq<char>>, b: Seq<Seq<char>>)
    ensures
        score_of(lower, a + b) == score_of(lower, a) + score_of(lower, b),
    decreases b.len(),
{
    if b.len() == 0 {
        assert(a + b =~= a);
    } else {
        assert((a + b).drop_last() =~= a + b.drop_last());
        assert((a + b).last() == b.last());
        lemma_score_adds(lower, a, b.drop_last());
    }
}

/// A word that the msgid contains adds one to its score, and one that it
/// does not contain adds nothing.
pub proof fn lemma_score_one_word(lower: Seq<char>, tw: Seq<Seq<char>>, w: Seq<char>)
    ensures
        contains_seq(encode_utf8(lower), encode_utf8(w)) ==> score_of(lower, tw.push(w)) == score_of(lower, tw) + 1,
        !contains_seq(encode_utf8(lower), encode_utf8(w)) ==> score_of(lower, tw.push(w)) == score_of(lower, tw),
{
    lemma_score_adds(lower, tw, seq![w]);
    assert(tw + seq![w] =~= tw.push(w));
    assert(seq![w].drop_last() =~= Seq::<Seq<char>>::empty());
    assert(seq![w].last() == w);
    assert(score_of(lower, Seq::<Seq<char>>::empty()) == 0);
    assert(score_of(lower, seq![w]) == score_of(lower, seq![w].drop_last()) + if contains_seq(
        encode_utf8(lower),
        encode_utf8(w),
    ) {
        1nat
    } else {
        0nat
    });
}


/// The positions of the entries that the words of the term hit, each
/// once, in the order in which they are first hit.
pub open spec fn hit_order(ix: PoFileIndex, term: Seq<char>) -> Seq<usize> {
    dedup_positions(word_hits(ix.words_view(), term_words(term)))
}

/// Dropping repeated pairs keeps the order of what it keeps.
pub(crate) proof fn lemma_dedup_pairs_order(s: Seq<Pair>, a: int, b: int)
    requires
        0 <= a < b < dedup_pairs(s).len(),
    ensures
        exists|pa: int, pb: int|
            0 <= pa < pb < s.len() && #[trigger] s[pa] == dedup_pairs(s)[a] && #[trigger] s[pb] == dedup_pairs(s)[b],
    decreases s.len(),
{
    let init = s.drop_last();
    let r = dedup_pairs(init);
    let d = dedup_pairs(s);
    if b < r.len() {
        assert(d[a] == r[a]);
        assert(d[b] == r[b]);
        lemma_dedup_pairs_order(init, a, b);
        let (pa, pb) = choose|pa: int, pb: int|
            0 <= pa < pb < init.len() && #[trigger] init[pa] == r[a] && #[trigger] init[pb] == r[b];
        assert(s[pa] == init[pa] && s[pb] == init[pb]);
    } else {
        assert(d[a] == r[a]);
        assert(d[b] == s.last());
        lemma_dedup_ranked_from(init, a);
        let pa = choose|pa: int| 0 <= pa < init.len() && init[pa] == r[a];
        assert(s[pa] == init[pa]);
        assert(s[s.len() - 1] == s.last());
    }
}

/// A pair kept by dropping repeats was there before.
proof fn lemma_dedup_ranked_from(s: Seq<Pair>, q: int)
    requires
        0 <= q < dedup_pairs(s).len(),
    ensures
        exists|p: int| 0 <= p < s.len() && s[p] == dedup_pairs(s)[q],
    decreases s.len(),
{
    let init = s.drop_last();
    let r = dedup_pairs(init);
    if q < r.len() {
        assert(dedup_pairs(s)[q] == r[q]);
        lemma_dedup_ranked_from(init, q);
        let p = choose|p: int| 0 <= p < init.len() && init[p] == r[q];
        assert(s[p] == init[p]);
    } else {
        assert(s[s.len() - 1] == s.last());
    }
}

/// The pairs of one score keep the order of the scored pairs.
proof fn lemma_with_score_order(cs: Seq<(nat, Pair)>, k: nat, a: int, b: int)
    requires
        0 <= a < b < with_score(cs, k).len(),
    ensures
        exists|ja: int, jb: int|
            0 <= ja < jb < cs.len() && #[trigger] cs[ja].1 == with_score(cs, k)[a] && #[trigger] cs[jb].1 == with_score(
                cs,
                k,
            )[b],
    decreases cs.len(),
{
    let init = cs.drop_last();
    let r = with_score(init, k);
    let w = with_score(cs, k);
    lemma_with_score_from(init, k);
    if b < r.len() {
        assert(w[a] == r[a] && w[b] == r[b]);
        lemma_with_score_order(init, k, a, b);
        let (ja, jb) = choose|ja: int, jb: int|
            0 <= ja < jb < init.len() && #[trigger] init[ja].1 == r[a] && #[trigger] init[jb].1 == r[b];
        assert(cs[ja] == init[ja] && cs[jb] == init[jb]);
    } else {
        assert(w[a] == r[a]);
        assert(w[b] == cs.last().1);
        let ja = choose|ja: int| 0 <= ja < init.len() && #[trigger] r[a] == init[ja].1;
        assert(cs[ja] == init[ja]);
        assert(cs[cs.len() - 1] == cs.last());
    }
}

/// Two ranked pairs of equal score keep the order of the scored pairs.
proof fn lemma_by_score_order(cs: Seq<(nat, Pair)>, tw: Seq<Seq<char>>, k: nat, a: int, b: int)
    requires
        scores_agree(cs, tw),
        0 <= a < b < by_score_desc(cs, k).len(),
        pair_score(by_score_desc(cs, k)[a], tw) == pair_score(by_score_desc(cs, k)[b], tw),
    ensures
        exists|ja: int, jb: int|
            0 <= ja < jb < cs.len() && #[trigger] cs[ja].1 == by_score_desc(cs, k)[a] && #[trigger] cs[jb].1
                == by_score_desc(cs, k)[b],
    decreases k,
{
    if k > 0 {
        let k1 = (k - 1) as nat;
        let g = with_score(cs, k);
        let rest = by_score_desc(cs, k1);
        let s = by_score_desc(cs, k);
        assert(s == g + rest);
        lemma_with_score_agree(cs, tw, k);
        lemma_by_score_ranked(cs, tw, k1);
        if b < g.len() {
            assert(s[a] == g[a] && s[b] == g[b]);
            lemma_with_score_order(cs, k, a, b);
        } else if a >= g.len() {
            assert(s[a] == rest[a - g.len()] && s[b] == rest[b - g.len()]);
            lemma_by_score_order(cs, tw, k1, a - g.len(), b - g.len());
        } else {
            assert(s[a] == g[a]);
            assert(s[b] == rest[b - g.len()]);
            assert(pair_score(g[a], tw) == k);
            assert(pair_score(rest[b - g.len()], tw) <= k1);
        }
    }
}

/// Each scored pair comes from a position, and two scored pairs keep the
/// order of their positions.
proof fn lemma_scored_order(es: Seq<EntryView>, idxs: Seq<usize>, tw: Seq<Seq<char>>, ja: int, jb: int)
    requires
        0 <= ja < jb < scored(es, idxs, tw).len(),
    ensures
        exists|ta: int, tb: int|
            0 <= ta < tb < idxs.len() && scored(es, idxs, tw)[ja].1 == entry_pair(es[#[trigger] idxs[ta] as int])
                && scored(es, idxs, tw)[jb].1 == entry_pair(es[#[trigger] idxs[tb] as int]),
    decreases idxs.len(),
{
    let init = idxs.drop_last();
    let r = scored(es, init, tw);
    let s = scored(es, idxs, tw);
    lemma_scored_at_positions(es, init, tw);
    if jb < r.len() {
        assert(s[ja] == r[ja] && s[jb] == r[jb]);
        lemma_scored_order(es, init, tw, ja, jb);
        let (ta, tb) = choose|ta: int, tb: int|
            0 <= ta < tb < init.len() && r[ja].1 == entry_pair(es[#[trigger] init[ta] as int]) && r[jb].1
                == entry_pair(es[#[trigger] init[tb] as int]);
        assert(idxs[ta] == init[ta] && idxs[tb] == init[tb]);
    } else {
        assert(s[ja] == r[ja]);
        let ta = choose|ta: int| 0 <= ta < init.len() && (#[trigger] r[ja]).1 == entry_pair(es[init[ta] as int]);
        assert(idxs[ta] == init[ta]);
        assert(idxs[idxs.len() - 1] == idxs.last());
    }
}

/// Under the conditions of the word stage, candidates of equal score come
/// in the order in which the words of the term first hit their entries.
#[verifier::rlimit(40)]
#[verifier::spinoff_prover]
pub proof fn lemma_word_search_ties_keep_hit_order(ix: PoFileIndex, term: Seq<char>, a: int, b: int)
    requires
        ix.wf(),
        forall|j: int|
            0 <= j < variants_spec(encode_utf8(lowercase(term))).len() ==> !ix.exact_view().contains_key(
                #[trigger] variants_spec(encode_utf8(lowercase(term)))[j],
            ),
        0 <= a < b < search_of(ix, term).len(),
        pair_score(search_of(ix, term)[a], term_words(term)) == pair_score(search_of(ix, term)[b], term_words(term)),
    ensures
        exists|ta: int, tb: int|
            0 <= ta < tb < hit_order(ix, term).len() && search_of(ix, term)[a] == entry_pair(
                ix.entries_view()[#[trigger] hit_order(ix, term)[ta] as int],
            ) && search_of(ix, term)[b] == entry_pair(ix.entries_view()[#[trigger] hit_order(ix, term)[tb] as int]),
{
    let es = ix.entries_view();
    let exact = ix.exact_view();
    let wm = ix.words_view();
    let tw = term_words(term);
    let lower = encode_utf8(lowercase(term));
    lemma_index_lists_entries(ix);
    ix.lemma_wf_maps();
    lemma_variants_start_with_word(lower);
    assert(!exact.contains_key(lower));
    assert(exact_stage(exact, lower) =~= Seq::<usize>::empty());
    lemma_no_indexed_variant(variants_spec(lower), lower, exact);
    assert(variant_stage(exact, lower) =~= Seq::<usize>::empty());
    let hits = word_hits(wm, tw);
    lemma_word_hits(wm, tw);
    let idxs = dedup_positions(hits);
    assert(idxs == hit_order(ix, term));
    lemma_dedup_positions(hits);
    assert forall|k: int| 0 <= k < idxs.len() implies #[trigger] idxs[k] < es.len() by {
        let t = choose|t: int| 0 <= t < hits.len() && hits[t] == idxs[k];
        let w = choose|w: int| 0 <= w < tw.len() && lists_under(wm, encode_utf8(tw[w]), hits[t] as int);
        assert(list_ok(wm[encode_utf8(tw[w])], es.len()));
        let u = choose|u: int| 0 <= u < wm[encode_utf8(tw[w])].len() && wm[encode_utf8(tw[w])][u] == hits[t];
    }
    let cs = scored(es, idxs, tw);
    lemma_scored_agree(es, idxs, tw);
    let bs = by_score_desc(cs, tw.len());
    let d = dedup_pairs(bs);
    let r = first_five(d);
    assert(r == search_of(ix, term));
    assert(r[a] == d[a] && r[b] == d[b]);
    lemma_dedup_pairs_order(bs, a, b);
    let (pa, pb) = choose|pa: int, pb: int| 0 <= pa < pb < bs.len() && #[trigger] bs[pa] == d[a] && #[trigger] bs[pb] == d[b];
    lemma_by_score_order(cs, tw, tw.len(), pa, pb);
    let (ja, jb) = choose|ja: int, jb: int| 0 <= ja < jb < cs.len() && #[trigger] cs[ja].1 == bs[pa] && #[trigger] cs[jb].1 == bs[pb];
    lemma_scored_order(es, idxs, tw, ja, jb);
    let (ta, tb) = choose|ta: int, tb: int|
        0 <= ta < tb < idxs.len() && cs[ja].1 == entry_pair(es[#[trigger] idxs[ta] as int]) && cs[jb].1 == entry_pair(
            es[#[trigger] idxs[tb] as int],
        );
    assert(0 <= ta < tb < hit_order(ix, term).len() && search_of(ix, term)[a] == entry_pair(
        ix.entries_view()[hit_order(ix, term)[ta] as int],
    ) && search_of(ix, term)[b] == entry_pair(ix.entries_view()[hit_order(ix, term)[tb] as int]));
}

} // verus!
