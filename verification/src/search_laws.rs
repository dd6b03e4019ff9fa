//! What every glossary search gives: at most five distinct candidates, each
//! the pair of an entry of the index, and at least one where an entry's
//! msgid or one of the term's variants matches the term.
use vstd::prelude::*;
use crate::po_search::{
    EntryView, Pair, PoFileIndex, add_key, add_keys, by_score_desc, dedup_pairs, dedup_positions,
    entry_pair, exact_keys, exact_map_of, exact_stage, first_five, first_indexed_variant, lookup,
    pairs_at, positions_below, scored, search_spec, stage_candidates, variant_stage, with_score,
    word_hits, word_stage, lemma_maps_below, word_keys, word_map_of,
};
use crate::po_search::{keeps_word, kept_lower, term_words};
use crate::text::{ascii_lower, ascii_lower_char, is_white_space, lowercase, words, words_from};
use vstd::utf8::{is_ascii_chars, is_ascii_chars_encode_utf8};
use crate::variants::{lemma_variants_start_with_word, variants_spec};
use vstd::utf8::encode_utf8;

verus! {

/// No pair occurs twice in `s`.
pub open spec fn no_repeats(s: Seq<Pair>) -> bool {
    forall|i: int, j: int| 0 <= i < j < s.len() ==> s[i] != s[j]
}

/// `p` is the pair of an entry of `es`.
pub open spec fn is_entry_pair(p: Pair, es: Seq<EntryView>) -> bool {
    exists|i: int| 0 <= i < es.len() && p == entry_pair(es[i])
}

/// Every pair of `s` is the pair of an entry of `es`.
pub open spec fn from_entries(s: Seq<Pair>, es: Seq<EntryView>) -> bool {
    forall|k: int| 0 <= k < s.len() ==> is_entry_pair(#[trigger] s[k], es)
}

pub(crate) proof fn lemma_dedup_pairs(s: Seq<Pair>)
    ensures
        no_repeats(dedup_pairs(s)),
        dedup_pairs(s).len() <= s.len(),
        s.len() > 0 ==> dedup_pairs(s).len() > 0,
        forall|k: int| 0 <= k < dedup_pairs(s).len() ==> s.contains(#[trigger] dedup_pairs(s)[k]),
    decreases s.len(),
{
    if s.len() > 0 {
        let init = s.drop_last();
        lemma_dedup_pairs(init);
        let r = dedup_pairs(init);
        assert forall|k: int| 0 <= k < dedup_pairs(s).len() implies s.contains(#[trigger] dedup_pairs(s)[k]) by {
            if k < r.len() {
                let w = choose|w: int| 0 <= w < init.len() && init[w] == r[k];
                assert(s[w] == init[w]);
            } else {
                assert(s[s.len() - 1] == s.last());
            }
        }
        if init.len() > 0 {
            assert(r.len() > 0);
        }
    }
}

proof fn lemma_first_five(s: Seq<Pair>)
    ensures
        first_five(s).len() <= 5,
        s.len() > 0 ==> first_five(s).len() > 0,
        no_repeats(s) ==> no_repeats(first_five(s)),
        forall|k: int| 0 <= k < first_five(s).len() ==> #[trigger] first_five(s)[k] == s[k],
{
}

pub(crate) proof fn lemma_dedup_positions(s: Seq<usize>)
    ensures
        s.len() > 0 ==> dedup_positions(s).len() > 0,
        forall|k: int| 0 <= k < dedup_positions(s).len() ==> s.contains(#[trigger] dedup_positions(s)[k]),
    decreases s.len(),
{
    if s.len() > 0 {
        let init = s.drop_last();
        lemma_dedup_positions(init);
        let r = dedup_positions(init);
        assert forall|k: int| 0 <= k < dedup_positions(s).len() implies s.contains(#[trigger] dedup_positions(s)[k]) by {
            if k < r.len() {
                let w = choose|w: int| 0 <= w < init.len() && init[w] == r[k];
                assert(s[w] == init[w]);
            } else {
                assert(s[s.len() - 1] == s.last());
            }
        }
        if init.len() > 0 {
            assert(r.len() > 0);
        }
    }
}

/// The positions at which entries are looked up are positions of entries.
proof fn lemma_pairs_at_from_entries(es: Seq<EntryView>, idxs: Seq<usize>)
    requires
        forall|k: int| 0 <= k < idxs.len() ==> #[trigger] idxs[k] < es.len(),
    ensures
        from_entries(pairs_at(es, idxs), es),
{
    assert forall|k: int| 0 <= k < pairs_at(es, idxs).len() implies is_entry_pair(
        #[trigger] pairs_at(es, idxs)[k],
        es,
    ) by {
        let i = idxs[k] as int;
        assert(0 <= i < es.len());
        assert(pairs_at(es, idxs)[k] == entry_pair(es[i]));
    }
}

proof fn lemma_word_hits_below(m: Map<Seq<u8>, Seq<usize>>, tw: Seq<Seq<char>>, n: nat)
    requires
        positions_below(m, n),
    ensures
        forall|k: int| 0 <= k < word_hits(m, tw).len() ==> #[trigger] word_hits(m, tw)[k] < n,
    decreases tw.len(),
{
    if tw.len() > 0 {
        lemma_word_hits_below(m, tw.drop_last(), n);
        let a = word_hits(m, tw.drop_last());
        let b = lookup(m, encode_utf8(tw.last()));
        assert forall|k: int| 0 <= k < word_hits(m, tw).len() implies #[trigger] word_hits(m, tw)[k] < n by {
            if k >= a.len() {
                let key = encode_utf8(tw.last());
                assert(m.contains_key(key));
                assert(m[key][k - a.len()] < n);
            }
        }
    }
}

/// Every scored pair is the pair of an entry at one of the positions.
proof fn lemma_scored_from_entries(es: Seq<EntryView>, idxs: Seq<usize>, tw: Seq<Seq<char>>)
    requires
        forall|k: int| 0 <= k < idxs.len() ==> #[trigger] idxs[k] < es.len(),
    ensures
        forall|k: int| 0 <= k < scored(es, idxs, tw).len() ==> exists|i: int|
            0 <= i < es.len() && (#[trigger] scored(es, idxs, tw)[k]).1 == entry_pair(es[i]),
    decreases idxs.len(),
{
    if idxs.len() > 0 {
        let init = idxs.drop_last();
        assert forall|k: int| 0 <= k < init.len() implies #[trigger] init[k] < es.len() by {
            assert(init[k] == idxs[k]);
        }
        lemma_scored_from_entries(es, init, tw);
        let r = scored(es, init, tw);
        assert forall|k: int| 0 <= k < scored(es, idxs, tw).len() implies exists|i: int|
            0 <= i < es.len() && (#[trigger] scored(es, idxs, tw)[k]).1 == entry_pair(es[i]) by {
            if k < r.len() {
                assert(scored(es, idxs, tw)[k] == r[k]);
            } else {
                assert(idxs[idxs.len() - 1] == idxs.last());
                assert(scored(es, idxs, tw)[k].1 == entry_pair(es[idxs.last() as int]));
            }
        }
    }
}

/// The pairs of one score are scored pairs.
pub(crate) proof fn lemma_with_score_from(cs: Seq<(nat, Pair)>, k: nat)
    ensures
        forall|q: int| 0 <= q < with_score(cs, k).len() ==> exists|j: int|
            0 <= j < cs.len() && #[trigger] with_score(cs, k)[q] == cs[j].1,
    decreases cs.len(),
{
    if cs.len() > 0 {
        let init = cs.drop_last();
        lemma_with_score_from(init, k);
        let r = with_score(init, k);
        assert forall|q: int| 0 <= q < with_score(cs, k).len() implies exists|j: int|
            0 <= j < cs.len() && #[trigger] with_score(cs, k)[q] == cs[j].1 by {
            if q < r.len() {
                let j = choose|j: int| 0 <= j < init.len() && #[trigger] r[q] == init[j].1;
                assert(cs[j] == init[j]);
                assert(with_score(cs, k)[q] == r[q]);
            } else {
                assert(cs[cs.len() - 1] == cs.last());
            }
        }
    }
}

/// The ranked pairs are scored pairs.
pub(crate) proof fn lemma_by_score_from(cs: Seq<(nat, Pair)>, k: nat)
    ensures
        forall|q: int| 0 <= q < by_score_desc(cs, k).len() ==> exists|j: int|
            0 <= j < cs.len() && #[trigger] by_score_desc(cs, k)[q] == cs[j].1,
    decreases k,
{
    if k > 0 {
        lemma_by_score_from(cs, (k - 1) as nat);
        lemma_with_score_from(cs, k);
        let a = with_score(cs, k);
        let b = by_score_desc(cs, (k - 1) as nat);
        assert forall|q: int| 0 <= q < by_score_desc(cs, k).len() implies exists|j: int|
            0 <= j < cs.len() && #[trigger] by_score_desc(cs, k)[q] == cs[j].1 by {
            if q < a.len() {
                assert(by_score_desc(cs, k)[q] == a[q]);
            } else {
                assert(by_score_desc(cs, k)[q] == b[q - a.len()]);
            }
        }
    }
}

/// The first indexed variant is a key of the map.
proof fn lemma_first_indexed_variant(vs: Seq<Seq<u8>>, lower: Seq<u8>, m: Map<Seq<u8>, Seq<usize>>)
    ensures
        first_indexed_variant(vs, lower, m) matches Some(v) ==> m.contains_key(v),
        (exists|j: int| 0 <= j < vs.len() && vs[j] != lower && m.contains_key(#[trigger] vs[j]))
            ==> first_indexed_variant(vs, lower, m) is Some,
    decreases vs.len(),
{
    if vs.len() > 0 {
        lemma_first_indexed_variant(vs.drop_first(), lower, m);
        if exists|j: int| 0 <= j < vs.len() && vs[j] != lower && m.contains_key(#[trigger] vs[j]) {
            let j = choose|j: int| 0 <= j < vs.len() && vs[j] != lower && m.contains_key(#[trigger] vs[j]);
            if j > 0 {
                assert(vs.drop_first()[j - 1] == vs[j]);
            }
        }
    }
}

/// Every candidate of a search, before duplicates are removed, is the
/// pair of an entry.
proof fn lemma_stage_candidates_from_entries(
    es: Seq<EntryView>,
    exact: Map<Seq<u8>, Seq<usize>>,
    words_map: Map<Seq<u8>, Seq<usize>>,
    term: Seq<char>,
)
    requires
        positions_below(exact, es.len()),
        positions_below(words_map, es.len()),
    ensures
        from_entries(stage_candidates(es, exact, words_map, term), es),
{
    let lower = encode_utf8(lowercase(term));
    let p1 = exact_stage(exact, lower);
    let p2 = variant_stage(exact, lower);
    lemma_dedup_positions(lookup(exact, lower));
    assert forall|k: int| 0 <= k < p1.len() implies #[trigger] p1[k] < es.len() by {
        let w = choose|w: int| 0 <= w < lookup(exact, lower).len() && lookup(exact, lower)[w] == p1[k];
        assert(exact.contains_key(lower));
        assert(exact[lower][w] < es.len());
    }
    if p1.len() > 0 {
        lemma_pairs_at_from_entries(es, p1);
    } else {
        let vs = variants_spec(lower);
        lemma_first_indexed_variant(vs, lower, exact);
        match first_indexed_variant(vs, lower, exact) {
            Some(v) => {
                lemma_dedup_positions(exact[v]);
                assert forall|k: int| 0 <= k < p2.len() implies #[trigger] p2[k] < es.len() by {
                    let w = choose|w: int| 0 <= w < exact[v].len() && exact[v][w] == p2[k];
                    assert(exact[v][w] < es.len());
                }
            },
            None => {},
        }
        if p2.len() > 0 {
            lemma_pairs_at_from_entries(es, p2);
        } else {
            let tw = crate::po_search::term_words(term);
            let hits = word_hits(words_map, tw);
            lemma_word_hits_below(words_map, tw, es.len());
            lemma_dedup_positions(hits);
            let idxs = dedup_positions(hits);
            assert forall|k: int| 0 <= k < idxs.len() implies #[trigger] idxs[k] < es.len() by {
                let w = choose|w: int| 0 <= w < hits.len() && hits[w] == idxs[k];
                assert(hits[w] < es.len());
            }
            lemma_scored_from_entries(es, idxs, tw);
            let cs = scored(es, idxs, tw);
            lemma_by_score_from(cs, tw.len());
            let s = word_stage(es, words_map, term);
            assert forall|k: int| 0 <= k < s.len() implies is_entry_pair(#[trigger] s[k], es) by {
                let j = choose|j: int| 0 <= j < cs.len() && #[trigger] by_score_desc(cs, tw.len())[k] == cs[j].1;
                assert(exists|i: int| 0 <= i < es.len() && (#[trigger] scored(es, idxs, tw)[j]).1 == entry_pair(es[i]));
            }
        }
    }
}

/// A glossary search gives at most five candidates, no pair twice, and
/// each the pair (msgid, msgstr) of an entry of the index.
pub proof fn lemma_search_candidates(ix: PoFileIndex, term: Seq<char>)
    requires
        ix.wf(),
    ensures
        search_spec(ix.entries_view(), ix.exact_view(), ix.words_view(), term).len() <= 5,
        no_repeats(search_spec(ix.entries_view(), ix.exact_view(), ix.words_view(), term)),
        from_entries(search_spec(ix.entries_view(), ix.exact_view(), ix.words_view(), term), ix.entries_view()),
{
    let es = ix.entries_view();
    ix.lemma_wf_maps();
    lemma_maps_below(es);
    let c = stage_candidates(es, ix.exact_view(), ix.words_view(), term);
    lemma_stage_candidates_from_entries(es, ix.exact_view(), ix.words_view(), term);
    lemma_dedup_pairs(c);
    let d = dedup_pairs(c);
    lemma_first_five(d);
    let s = first_five(d);
    assert forall|k: int| 0 <= k < s.len() implies is_entry_pair(#[trigger] s[k], es) by {
        assert(s[k] == d[k]);
        assert(c.contains(d[k]));
        let w = choose|w: int| 0 <= w < c.len() && c[w] == d[k];
        assert(is_entry_pair(c[w], es));
    }
}

/// Adding keys keeps every key, with a position recorded under it.
proof fn lemma_add_keys_keeps(m: Map<Seq<u8>, Seq<usize>>, keys: Seq<Seq<u8>>, idx: usize, k: Seq<u8>)
    requires
        m.contains_key(k),
        m[k].len() > 0,
    ensures
        add_keys(m, keys, idx).contains_key(k),
        add_keys(m, keys, idx)[k].len() > 0,
    decreases keys.len(),
{
    if keys.len() > 0 {
        lemma_add_keys_keeps(m, keys.drop_last(), idx, k);
    }
}

/// Adding keys records a position under each of them.
proof fn lemma_add_keys_has(m: Map<Seq<u8>, Seq<usize>>, keys: Seq<Seq<u8>>, idx: usize, j: int)
    requires
        0 <= j < keys.len(),
    ensures
        add_keys(m, keys, idx).contains_key(keys[j]),
        add_keys(m, keys, idx)[keys[j]].len() > 0,
    decreases keys.len(),
{
    let init = keys.drop_last();
    let m1 = add_keys(m, init, idx);
    if j < keys.len() - 1 {
        lemma_add_keys_has(m, init, idx, j);
        assert(init[j] == keys[j]);
        if keys[j] == keys.last() {
        } else {
            assert(add_key(m1, keys.last(), idx)[keys[j]] == m1[keys[j]]);
        }
    }
}

/// Every key of the exact map has a position recorded under it.
proof fn lemma_exact_keys_nonempty(es: Seq<EntryView>, k: Seq<u8>)
    requires
        exact_map_of(es).contains_key(k),
    ensures
        exact_map_of(es)[k].len() > 0,
    decreases es.len(),
{
    if es.len() > 0 {
        let m0 = exact_map_of(es.drop_last());
        let keys = exact_keys(es.last());
        let idx = (es.len() - 1) as usize;
        if m0.contains_key(k) {
            lemma_exact_keys_nonempty(es.drop_last(), k);
            lemma_add_keys_keeps(m0, keys, idx, k);
        } else {
            lemma_add_keys_key_from(m0, keys, idx, k);
            let j = choose|j: int| 0 <= j < keys.len() && keys[j] == k;
            lemma_add_keys_has(m0, keys, idx, j);
        }
    }
}

/// A key of the map after adding keys was a key before or one of the added.
proof fn lemma_add_keys_key_from(m: Map<Seq<u8>, Seq<usize>>, keys: Seq<Seq<u8>>, idx: usize, k: Seq<u8>)
    requires
        add_keys(m, keys, idx).contains_key(k),
        !m.contains_key(k),
    ensures
        exists|j: int| 0 <= j < keys.len() && keys[j] == k,
    decreases keys.len(),
{
    if keys.len() > 0 {
        let init = keys.drop_last();
        if keys.last() == k {
            assert(keys[keys.len() - 1] == k);
        } else {
            lemma_add_keys_key_from(m, init, idx, k);
            let j = choose|j: int| 0 <= j < init.len() && init[j] == k;
            assert(keys[j] == init[j]);
        }
    }
}

/// Each entry is found under every variant of its lower-cased msgid.
proof fn lemma_exact_map_has_entry(es: Seq<EntryView>, i: int, j: int)
    requires
        0 <= i < es.len(),
        0 <= j < exact_keys(es[i]).len(),
    ensures
        exact_map_of(es).contains_key(exact_keys(es[i])[j]),
        exact_map_of(es)[exact_keys(es[i])[j]].len() > 0,
    decreases es.len(),
{
    let init = es.drop_last();
    let m0 = exact_map_of(init);
    let idx = (es.len() - 1) as usize;
    if i == es.len() - 1 {
        lemma_add_keys_has(m0, exact_keys(es.last()), idx, j);
    } else {
        assert(init[i] == es[i]);
        lemma_exact_map_has_entry(init, i, j);
        lemma_add_keys_keeps(m0, exact_keys(es.last()), idx, exact_keys(es[i])[j]);
    }
}

/// A term whose lower-case form is the lower-cased msgid of an entry, or
/// has such a variant, finds at least one candidate.
pub proof fn lemma_search_finds_match(ix: PoFileIndex, term: Seq<char>, i: int, j: int)
    requires
        ix.wf(),
        0 <= i < ix.entries_view().len(),
        0 <= j < variants_spec(encode_utf8(lowercase(term))).len(),
        variants_spec(encode_utf8(lowercase(term)))[j] == encode_utf8(ix.entries_view()[i].1),
    ensures
        search_spec(ix.entries_view(), ix.exact_view(), ix.words_view(), term).len() > 0,
{
    let es = ix.entries_view();
    let exact = ix.exact_view();
    ix.lemma_wf_maps();
    let lower = encode_utf8(lowercase(term));
    let key = encode_utf8(es[i].1);
    lemma_variants_start_with_word(key);
    lemma_exact_map_has_entry(es, i, 0);
    assert(exact.contains_key(key));
    let p1 = exact_stage(exact, lower);
    if p1.len() == 0 {
        lemma_dedup_positions(lookup(exact, lower));
        if exact.contains_key(lower) {
            lemma_exact_keys_nonempty(es, lower);
        }
        assert(!exact.contains_key(lower));
        let vs = variants_spec(lower);
        assert(vs[j] != lower);
        lemma_first_indexed_variant(vs, lower, exact);
        let v = first_indexed_variant(vs, lower, exact)->0;
        lemma_exact_keys_nonempty(es, v);
        lemma_dedup_positions(exact[v]);
    } else {
    }
    let c = stage_candidates(es, exact, ix.words_view(), term);
    assert(c.len() > 0);
    lemma_dedup_pairs(c);
    lemma_first_five(dedup_pairs(c));
}


/// The ASCII lower-cased words of `ws`.
pub open spec fn lower_all(ws: Seq<Seq<char>>) -> Seq<Seq<char>> {
    ws.map_values(|w: Seq<char>| ascii_lower(w))
}

/// ASCII lower-casing keeps ASCII text ASCII, keeps its length and does
/// nothing the second time.
proof fn lemma_ascii_lower_text(s: Seq<char>)
    requires
        is_ascii_chars(s),
    ensures
        is_ascii_chars(ascii_lower(s)),
        ascii_lower(s).len() == s.len(),
        ascii_lower(ascii_lower(s)) == ascii_lower(s),
{
    assert forall|i: int| 0 <= i < s.len() implies '\0' <= #[trigger] ascii_lower(s)[i] <= '\u{7f}' by {
        assert(ascii_lower(s)[i] == ascii_lower_char(s[i]));
    }
    assert(ascii_lower(ascii_lower(s)) =~= ascii_lower(s));
}

/// An ASCII character is white space exactly when its lower-cased form is.
proof fn lemma_ascii_lower_white_space(c: char)
    requires
        '\0' <= c <= '\u{7f}',
    ensures
        is_white_space(ascii_lower_char(c)) == is_white_space(c),
{
}

/// Splitting ASCII text into words and lower-casing the words gives the
/// words of the lower-cased text; each word is ASCII.
proof fn lemma_words_from_ascii(s: Seq<char>, cur: Seq<char>)
    requires
        is_ascii_chars(s),
        is_ascii_chars(cur),
    ensures
        lower_all(words_from(s, cur)) == words_from(ascii_lower(s), ascii_lower(cur)),
        forall|k: int| 0 <= k < words_from(s, cur).len() ==> is_ascii_chars(#[trigger] words_from(s, cur)[k]),
    decreases s.len(),
{
    let e = Seq::<char>::empty();
    assert(ascii_lower(e) =~= e);
    if s.len() == 0 {
        assert(ascii_lower(s) =~= e);
        if cur.len() > 0 {
            assert(lower_all(seq![cur]) =~= seq![ascii_lower(cur)]);
        } else {
            assert(ascii_lower(cur) =~= e);
            assert(lower_all(Seq::<Seq<char>>::empty()) =~= Seq::<Seq<char>>::empty());
        }
    } else {
        let c = s[0];
        let ls = ascii_lower(s);
        assert(ls[0] == ascii_lower_char(c));
        assert(ls.drop_first() =~= ascii_lower(s.drop_first()));
        lemma_ascii_lower_white_space(c);
        if is_white_space(c) {
            lemma_words_from_ascii(s.drop_first(), e);
            let head = if cur.len() > 0 {
                seq![cur]
            } else {
                Seq::<Seq<char>>::empty()
            };
            let lhead = if ascii_lower(cur).len() > 0 {
                seq![ascii_lower(cur)]
            } else {
                Seq::<Seq<char>>::empty()
            };
            assert(lower_all(head) =~= lhead);
            let rest = words_from(s.drop_first(), e);
            assert(lower_all(head + rest) =~= lower_all(head) + lower_all(rest));
            assert forall|k: int| 0 <= k < (head + rest).len() implies is_ascii_chars(#[trigger] (head + rest)[k]) by {
                if k >= head.len() {
                    assert((head + rest)[k] == rest[k - head.len()]);
                }
            }
        } else {
            assert(is_ascii_chars(cur.push(c))) by {
                assert forall|i: int| 0 <= i < cur.push(c).len() implies '\0' <= #[trigger] cur.push(c)[i] <= '\u{7f}' by {
                    if i < cur.len() {
                        assert(cur.push(c)[i] == cur[i]);
                    }
                }
            }
            lemma_words_from_ascii(s.drop_first(), cur.push(c));
            assert(ascii_lower(cur.push(c)) =~= ascii_lower(cur).push(ascii_lower_char(c)));
        }
    }
}

/// Which of a list of ASCII words the search keeps, and how it lower-cases
/// them, depends only on their lower-cased forms.
proof fn lemma_kept_lower_ascii(ws: Seq<Seq<char>>)
    requires
        forall|k: int| 0 <= k < ws.len() ==> is_ascii_chars(#[trigger] ws[k]),
    ensures
        kept_lower(ws) == kept_lower(lower_all(ws)),
    decreases ws.len(),
{
    if ws.len() > 0 {
        let w = ws.last();
        assert(is_ascii_chars(ws[ws.len() - 1]));
        assert(lower_all(ws).drop_last() =~= lower_all(ws.drop_last()));
        assert(lower_all(ws).last() == ascii_lower(w));
        lemma_ascii_lower_text(w);
        is_ascii_chars_encode_utf8(w);
        is_ascii_chars_encode_utf8(ascii_lower(w));
        assert(keeps_word(w) == keeps_word(ascii_lower(w)));
        assert(lowercase(w) == lowercase(ascii_lower(w)));
        lemma_kept_lower_ascii(ws.drop_last());
    }
}

/// The search ignores letter case in ASCII terms: two terms written in
/// ASCII that lower-case to the same text find the same candidates.
pub proof fn lemma_search_ignores_ascii_case(ix: PoFileIndex, t1: Seq<char>, t2: Seq<char>)
    requires
        is_ascii_chars(t1),
        is_ascii_chars(t2),
        ascii_lower(t1) == ascii_lower(t2),
    ensures
        search_spec(ix.entries_view(), ix.exact_view(), ix.words_view(), t1) == search_spec(
            ix.entries_view(),
            ix.exact_view(),
            ix.words_view(),
            t2,
        ),
{
    let e = Seq::<char>::empty();
    assert(ascii_lower(e) =~= e);
    lemma_words_from_ascii(t1, e);
    lemma_words_from_ascii(t2, e);
    lemma_kept_lower_ascii(words(t1));
    lemma_kept_lower_ascii(words(t2));
    assert(term_words(t1) == term_words(t2));
    assert(lowercase(t1) == lowercase(t2));
    assert(stage_candidates(ix.entries_view(), ix.exact_view(), ix.words_view(), t1)
        == stage_candidates(ix.entries_view(), ix.exact_view(), ix.words_view(), t2));
}


/// A list that is not empty, in non-decreasing order, of positions below `n`.
pub open spec fn list_ok(l: Seq<usize>, n: nat) -> bool {
    &&& l.len() > 0
    &&& forall|a: int, b: int| 0 <= a <= b < l.len() ==> l[a] <= l[b]
    &&& forall|a: int| 0 <= a < l.len() ==> l[a] < n
}

/// Every list that `m` holds is non-empty, in non-decreasing order, and
/// names positions below `n`.
pub open spec fn lists_ordered(m: Map<Seq<u8>, Seq<usize>>, n: nat) -> bool {
    forall|k: Seq<u8>| #[trigger] m.contains_key(k) ==> list_ok(m[k], n)
}

/// `m` lists position `i` under the key `k`.
pub open spec fn lists_under(m: Map<Seq<u8>, Seq<usize>>, k: Seq<u8>, i: int) -> bool {
    m.contains_key(k) && m[k].contains(i as usize)
}

/// Recording positions up to `idx` under keys keeps the lists in order.
proof fn lemma_add_keys_ordered(m: Map<Seq<u8>, Seq<usize>>, keys: Seq<Seq<u8>>, idx: usize)
    requires
        lists_ordered(m, (idx + 1) as nat),
    ensures
        lists_ordered(add_keys(m, keys, idx), (idx + 1) as nat),
    decreases keys.len(),
{
    if keys.len() > 0 {
        lemma_add_keys_ordered(m, keys.drop_last(), idx);
        let m1 = add_keys(m, keys.drop_last(), idx);
        let k0 = keys.last();
        let m2 = add_key(m1, k0, idx);
        assert(m2 == add_keys(m, keys, idx));
        assert forall|k: Seq<u8>| #[trigger] m2.contains_key(k) implies list_ok(m2[k], (idx + 1) as nat) by {
            if k == k0 {
                if m1.contains_key(k0) {
                    let l = m1[k0];
                    assert(list_ok(l, (idx + 1) as nat));
                    assert(m2[k] == l.push(idx));
                    assert forall|a: int, b: int| 0 <= a <= b < l.push(idx).len() implies l.push(idx)[a] <= l.push(idx)[b] by {
                        if b == l.len() {
                            if a < l.len() {
                                assert(l[a] < idx + 1);
                            }
                        }
                    }
                } else {
                    assert(m2[k] == seq![idx]);
                }
            } else {
                assert(m2[k] == m1[k]);
            }
        }
    }
}

/// Recording a position under keys keeps every position already listed.
proof fn lemma_add_keys_keeps_listed(m: Map<Seq<u8>, Seq<usize>>, keys: Seq<Seq<u8>>, idx: usize, k: Seq<u8>, x: usize)
    requires
        m.contains_key(k),
        m[k].contains(x),
    ensures
        add_keys(m, keys, idx).contains_key(k),
        add_keys(m, keys, idx)[k].contains(x),
    decreases keys.len(),
{
    if keys.len() > 0 {
        lemma_add_keys_keeps_listed(m, keys.drop_last(), idx, k, x);
        let m1 = add_keys(m, keys.drop_last(), idx);
        if keys.last() == k {
            let j = choose|j: int| 0 <= j < m1[k].len() && m1[k][j] == x;
            assert(m1[k].push(idx)[j] == x);
        }
    }
}

/// Recording a position under keys lists it under each of them.
proof fn lemma_add_keys_lists(m: Map<Seq<u8>, Seq<usize>>, keys: Seq<Seq<u8>>, idx: usize, j: int)
    requires
        0 <= j < keys.len(),
    ensures
        add_keys(m, keys, idx).contains_key(keys[j]),
        add_keys(m, keys, idx)[keys[j]].contains(idx),
    decreases keys.len(),
{
    let init = keys.drop_last();
    let m1 = add_keys(m, init, idx);
    let k = keys[j];
    if j == keys.len() - 1 {
        let l = add_keys(m, keys, idx)[k];
        assert(l[l.len() - 1] == idx);
    } else {
        lemma_add_keys_lists(m, init, idx, j);
        assert(init[j] == k);
        if keys.last() == k {
            let i0 = choose|i0: int| 0 <= i0 < m1[k].len() && m1[k][i0] == idx;
            assert(m1[k].push(idx)[i0] == idx);
        }
    }
}

/// The exact-match map of entries holds ordered lists of their positions.
proof fn lemma_exact_map_ordered(es: Seq<EntryView>)
    requires
        es.len() <= usize::MAX,
    ensures
        lists_ordered(exact_map_of(es), es.len()),
    decreases es.len(),
{
    if es.len() > 0 {
        let idx = (es.len() - 1) as usize;
        lemma_exact_map_ordered(es.drop_last());
        lemma_add_keys_ordered(exact_map_of(es.drop_last()), exact_keys(es.last()), idx);
    }
}

/// The word map of entries holds ordered lists of their positions.
proof fn lemma_word_map_ordered(es: Seq<EntryView>)
    requires
        es.len() <= usize::MAX,
    ensures
        lists_ordered(word_map_of(es), es.len()),
    decreases es.len(),
{
    if es.len() > 0 {
        let idx = (es.len() - 1) as usize;
        lemma_word_map_ordered(es.drop_last());
        lemma_add_keys_ordered(word_map_of(es.drop_last()), word_keys(es.last()), idx);
    }
}

/// The exact-match map lists each entry under every variant of its lower-cased msgid.
proof fn lemma_exact_map_lists(es: Seq<EntryView>, i: int, j: int)
    requires
        es.len() <= usize::MAX,
        0 <= i < es.len(),
        0 <= j < exact_keys(es[i]).len(),
    ensures
        lists_under(exact_map_of(es), exact_keys(es[i])[j], i),
    decreases es.len(),
{
    let init = es.drop_last();
    let m0 = exact_map_of(init);
    let idx = (es.len() - 1) as usize;
    if i == es.len() - 1 {
        lemma_add_keys_lists(m0, exact_keys(es.last()), idx, j);
    } else {
        assert(init[i] == es[i]);
        lemma_exact_map_lists(init, i, j);
        lemma_add_keys_keeps_listed(m0, exact_keys(es.last()), idx, exact_keys(es[i])[j], i as usize);
    }
}

/// The word map lists each entry under every kept word of its msgid.
proof fn lemma_word_map_lists(es: Seq<EntryView>, i: int, j: int)
    requires
        es.len() <= usize::MAX,
        0 <= i < es.len(),
        0 <= j < word_keys(es[i]).len(),
    ensures
        lists_under(word_map_of(es), word_keys(es[i])[j], i),
    decreases es.len(),
{
    let init = es.drop_last();
    let m0 = word_map_of(init);
    let idx = (es.len() - 1) as usize;
    if i == es.len() - 1 {
        lemma_add_keys_lists(m0, word_keys(es.last()), idx, j);
    } else {
        assert(init[i] == es[i]);
        lemma_word_map_lists(init, i, j);
        lemma_add_keys_keeps_listed(m0, word_keys(es.last()), idx, word_keys(es[i])[j], i as usize);
    }
}

/// What the glossary index holds: each entry's lower-cased msgid is the
/// lower-case form of its msgid; each entry is listed under every variant
/// of its lower-cased msgid in the exact-match map and under every kept
/// word of its msgid in the word map; and every list of either map is
/// non-empty, in non-decreasing order, and names entries of the index.
pub proof fn lemma_index_lists_entries(ix: PoFileIndex)
    requires
        ix.wf(),
    ensures
        forall|i: int|
            0 <= i < ix.entries_view().len() ==> (#[trigger] ix.entries_view()[i]).1 == lowercase(
                ix.entries_view()[i].0,
            ),
        forall|i: int, j: int|
            0 <= i < ix.entries_view().len() && 0 <= j < exact_keys(ix.entries_view()[i]).len()
                ==> lists_under(ix.exact_view(), #[trigger] exact_keys(ix.entries_view()[i])[j], i),
        forall|i: int, j: int|
            0 <= i < ix.entries_view().len() && 0 <= j < word_keys(ix.entries_view()[i]).len()
                ==> lists_under(ix.words_view(), #[trigger] word_keys(ix.entries_view()[i])[j], i),
        lists_ordered(ix.exact_view(), ix.entries_view().len()),
        lists_ordered(ix.words_view(), ix.entries_view().len()),
{
    let es = ix.entries_view();
    ix.lemma_wf_maps();
    lemma_exact_map_ordered(es);
    lemma_word_map_ordered(es);
    assert forall|i: int, j: int|
        0 <= i < es.len() && 0 <= j < exact_keys(es[i]).len() implies lists_under(
        ix.exact_view(),
        #[trigger] exact_keys(es[i])[j],
        i,
    ) by {
        lemma_exact_map_lists(es, i, j);
    }
    assert forall|i: int, j: int|
        0 <= i < es.len() && 0 <= j < word_keys(es[i]).len() implies lists_under(
        ix.words_view(),
        #[trigger] word_keys(es[i])[j],
        i,
    ) by {
        lemma_word_map_lists(es, i, j);
    }
}

} // verus!
