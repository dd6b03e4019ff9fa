//! The glossary index over the game's PO translations, and the term search.
//!
//! The search has three stages: the exact lower-case term, then the first of
//! its inflection variants that is indexed, then the entries that share
//! words with the term, ranked by how many of the term's words they contain.
use vstd::prelude::*;
use crate::byte_index::ByteKeyIndex;
use crate::bytes::{bytes_contain, contains_seq};
use crate::models::{pairs_of, PoSearchResult, PoTranslationEntry};
use crate::error::{AppError, AppResult};
use crate::po_file::{message_views, parse_po_messages, po_text_is_safe, PoMessage, PoMessageView};
use crate::bytes::{bytes_start_with, starts_with};
use crate::text::{chars_of, concat2, has_prefix, lemma_prefix_of_concat};
use crate::text::{owned, split_whitespace, str_eq, string_views, to_lower, lowercase, words};
use crate::variants::{generate_variants, variants_spec, views};
use vstd::utf8::encode_utf8;

verus! {

broadcast use vstd::string::group_string_axioms;

/// The English words that never count as terms.
#[verifier::opaque]
pub open spec fn stop_word_list() -> Seq<Seq<char>> {
    seq![
        "a"@, "an"@, "the"@, "is"@, "are"@, "was"@, "were"@, "be"@, "been"@, "being"@, "have"@,
        "has"@, "had"@, "do"@, "does"@, "did"@, "will"@, "would"@, "shall"@, "should"@, "may"@,
        "might"@, "can"@, "could"@, "must"@, "of"@, "in"@, "to"@, "for"@, "with"@, "on"@, "at"@,
        "by"@, "from"@, "as"@, "into"@, "through"@, "during"@, "before"@, "after"@, "above"@,
        "below"@, "between"@, "out"@, "off"@, "over"@, "under"@, "again"@, "further"@, "then"@,
        "once"@, "and"@, "but"@, "or"@, "nor"@, "not"@, "so"@, "yet"@, "both"@, "either"@,
        "neither"@, "each"@, "every"@, "all"@, "any"@, "few"@, "more"@, "most"@, "other"@,
        "some"@, "such"@, "no"@, "only"@, "own"@, "same"@, "than"@, "too"@, "very"@, "just"@,
        "because"@, "if"@, "when"@, "while"@, "where"@, "how"@, "what"@, "which"@, "who"@,
        "whom"@, "this"@, "that"@, "these"@, "those"@, "it"@, "its"@, "he"@, "she"@, "they"@,
        "we"@, "you"@, "me"@, "my"@, "your"@, "his"@, "her"@, "our"@, "their"@, "i"@, "am"@,
    ]
}

/// The stop words, as strings.
fn stop_words() -> (res: Vec<&'static str>)
    ensures
        res@.map_values(|s: &str| s@) == stop_word_list(),
{
    let v = vec![
        "a", "an", "the", "is", "are", "was", "were", "be", "been", "being", "have",
        "has", "had", "do", "does", "did", "will", "would", "shall", "should", "may",
        "might", "can", "could", "must", "of", "in", "to", "for", "with", "on", "at",
        "by", "from", "as", "into", "through", "during", "before", "after", "above",
        "below", "between", "out", "off", "over", "under", "again", "further", "then",
        "once", "and", "but", "or", "nor", "not", "so", "yet", "both", "either",
        "neither", "each", "every", "all", "any", "few", "more", "most", "other",
        "some", "such", "no", "only", "own", "same", "than", "too", "very", "just",
        "because", "if", "when", "while", "where", "how", "what", "which", "who",
        "whom", "this", "that", "these", "those", "it", "its", "he", "she", "they",
        "we", "you", "me", "my", "your", "his", "her", "our", "their", "i", "am",
    ];
    proof {
        reveal(stop_word_list);
    }
    assert(v@.map_values(|s: &str| s@) =~= stop_word_list());
    v
}

/// `word`, lower-cased, is a stop word.
pub open spec fn is_stop_word_spec(word: Seq<char>) -> bool {
    stop_word_list().contains(lowercase(word))
}

/// Whether `word`, lower-cased, is one of the stop words.
pub fn is_stop_word(word: &str) -> (res: bool)
    ensures
        res == is_stop_word_spec(word@),
{
    let lower = to_lower(word);
    let list = stop_words();
    let n = list.len();
    let mut i: usize = 0;
    while i < n
        invariant
            n == list@.len(),
            list@.map_values(|s: &str| s@) == stop_word_list(),
            lower@ == lowercase(word@),
            i <= n,
            forall|j: int| 0 <= j < i ==> stop_word_list()[j] != lower@,
        decreases n - i,
    {
        assert(list@.map_values(|s: &str| s@)[i as int] == list@[i as int]@);
        if str_eq(lower.as_str(), list[i]) {
            assert(stop_word_list()[i as int] == lower@);
            assert(stop_word_list().contains(lower@));
            return true;
        }
        i = i + 1;
    }
    assert(!stop_word_list().contains(lower@));
    false
}

/// A word that counts towards a term: not a stop word, and of at least three bytes.
pub open spec fn keeps_word(w: Seq<char>) -> bool {
    !is_stop_word_spec(w) && encode_utf8(w).len() >= 3
}

/// The kept words of `ws`, lower-cased, in order.
pub open spec fn kept_lower(ws: Seq<Seq<char>>) -> Seq<Seq<char>>
    decreases ws.len(),
{
    if ws.len() == 0 {
        Seq::empty()
    } else if keeps_word(ws.last()) {
        kept_lower(ws.drop_last()).push(lowercase(ws.last()))
    } else {
        kept_lower(ws.drop_last())
    }
}

/// The words kept from two lists, one after the other, are those kept
/// from the first followed by those kept from the second; a single word is
/// kept, lower-cased, exactly when its lower-case form is no stop word and
/// it has at least three bytes.
pub proof fn lemma_kept_words(a: Seq<Seq<char>>, b: Seq<Seq<char>>)
    ensures
        kept_lower(a + b) == kept_lower(a) + kept_lower(b),
        forall|w: Seq<char>|
            #[trigger] kept_lower(seq![w]) == if !stop_word_list().contains(lowercase(w)) && encode_utf8(w).len() >= 3 {
                seq![lowercase(w)]
            } else {
                Seq::<Seq<char>>::empty()
            },
    decreases b.len(),
{
    assert forall|w: Seq<char>|
        #[trigger] kept_lower(seq![w]) == if !stop_word_list().contains(lowercase(w)) && encode_utf8(w).len() >= 3 {
            seq![lowercase(w)]
        } else {
            Seq::<Seq<char>>::empty()
        } by {
        assert(seq![w].drop_last() =~= Seq::<Seq<char>>::empty());
        assert(seq![w].last() == w);
        assert(kept_lower(Seq::<Seq<char>>::empty()) == Seq::<Seq<char>>::empty());
        assert(keeps_word(w) == (!stop_word_list().contains(lowercase(w)) && encode_utf8(w).len() >= 3));
        assert(Seq::<Seq<char>>::empty().push(lowercase(w)) =~= seq![lowercase(w)]);
    }
    if b.len() == 0 {
        assert(a + b =~= a);
        assert(kept_lower(a) + kept_lower(b) =~= kept_lower(a));
    } else {
        assert((a + b).drop_last() =~= a + b.drop_last());
        assert((a + b).last() == b.last());
        lemma_kept_words(a, b.drop_last());
        if keeps_word(b.last()) {
            assert((kept_lower(a) + kept_lower(b.drop_last())).push(lowercase(b.last())) =~= kept_lower(a)
                + kept_lower(b.drop_last()).push(lowercase(b.last())));
        }
    }
}

/// The words of a term that the search uses: its white-space separated
/// words that are no stop words and have at least three bytes, lower-cased.
pub open spec fn term_words(term: Seq<char>) -> Seq<Seq<char>> {
    kept_lower(words(term))
}

/// The words of `term` that the search uses, lower-cased.
pub fn split_and_filter(term: &str) -> (res: Vec<String>)
    ensures
        string_views(res@) == term_words(term@),
{
    let ws = split_whitespace(term);
    let n = ws.len();
    let mut out: Vec<String> = Vec::new();
    let mut i: usize = 0;
    while i < n
        invariant
            n == ws@.len(),
            string_views(ws@) == words(term@),
            i <= n,
            string_views(out@) == kept_lower(string_views(ws@).take(i as int)),
        decreases n - i,
    {
        let w = ws[i].as_str();
        let ghost before = string_views(out@);
        assert(string_views(ws@).take(i + 1).drop_last() =~= string_views(ws@).take(i as int));
        assert(string_views(ws@).take(i + 1).last() == w@);
        let ghost prefix = string_views(ws@).take(i + 1);
        assert(before == kept_lower(prefix.drop_last()));
        if !is_stop_word(w) && w.as_bytes().len() >= 3 {
            out.push(to_lower(w));
            assert(string_views(out@) =~= before.push(lowercase(w@)));
            assert(keeps_word(prefix.last()));
        } else {
            assert(!keeps_word(prefix.last()));
            assert(string_views(out@) == before);
        }
        assert(string_views(out@) == kept_lower(prefix));
        i = i + 1;
    }
    assert(string_views(ws@).take(n as int) =~= string_views(ws@));
    out
}

/// An index entry as (msgid, lower-cased msgid, msgstr).
pub type EntryView = (Seq<char>, Seq<char>, Seq<char>);

/// Records position `idx` under key `k` in multimap `m`.
pub open spec fn add_key(m: Map<Seq<u8>, Seq<usize>>, k: Seq<u8>, idx: usize) -> Map<Seq<u8>, Seq<usize>> {
    m.insert(k, if m.contains_key(k) { m[k].push(idx) } else { seq![idx] })
}

/// Records position `idx` under each of `keys`, in order.
pub open spec fn add_keys(m: Map<Seq<u8>, Seq<usize>>, keys: Seq<Seq<u8>>, idx: usize) -> Map<Seq<u8>, Seq<usize>>
    decreases keys.len(),
{
    if keys.len() == 0 {
        m
    } else {
        add_key(add_keys(m, keys.drop_last(), idx), keys.last(), idx)
    }
}

/// The keys an entry is found by exactly: the variants of its lower-cased msgid.
pub open spec fn exact_keys(e: EntryView) -> Seq<Seq<u8>> {
    variants_spec(encode_utf8(e.1))
}

/// The keys an entry is found by word: the kept words of its msgid, lower-cased.
pub open spec fn word_keys(e: EntryView) -> Seq<Seq<u8>> {
    term_words(e.0).map_values(|w: Seq<char>| encode_utf8(w))
}

/// The exact-match multimap of a list of entries.
pub open spec fn exact_map_of(es: Seq<EntryView>) -> Map<Seq<u8>, Seq<usize>>
    decreases es.len(),
{
    if es.len() == 0 {
        Map::empty()
    } else {
        add_keys(exact_map_of(es.drop_last()), exact_keys(es.last()), (es.len() - 1) as usize)
    }
}

/// The word multimap of a list of entries.
pub open spec fn word_map_of(es: Seq<EntryView>) -> Map<Seq<u8>, Seq<usize>>
    decreases es.len(),
{
    if es.len() == 0 {
        Map::empty()
    } else {
        add_keys(word_map_of(es.drop_last()), word_keys(es.last()), (es.len() - 1) as usize)
    }
}

/// One entry of the index.
pub struct PoIndexEntry {
    pub msgid: String,
    pub msgid_lower: String,
    pub msgstr: String,
}

impl PoIndexEntry {
    pub open spec fn view_triple(&self) -> EntryView {
        (self.msgid@, self.msgid_lower@, self.msgstr@)
    }
}

/// The glossary index: the accepted entries, the multimap from the
/// variants of each lower-cased msgid, and the multimap from its words.
pub struct PoFileIndex {
    entries: Vec<PoIndexEntry>,
    exact_map: ByteKeyIndex,
    word_index: ByteKeyIndex,
}

/// The entries of an index as triples.
pub open spec fn entry_views(v: Seq<PoIndexEntry>) -> Seq<EntryView> {
    v.map_values(|e: PoIndexEntry| e.view_triple())
}

impl PoFileIndex {
    /// The entries, as (msgid, lower-cased msgid, msgstr).
    pub closed spec fn entries_view(&self) -> Seq<EntryView> {
        entry_views(self.entries@)
    }

    /// The exact-match multimap.
    pub closed spec fn exact_view(&self) -> Map<Seq<u8>, Seq<usize>> {
        self.exact_map@
    }

    /// The word multimap.
    pub closed spec fn words_view(&self) -> Map<Seq<u8>, Seq<usize>> {
        self.word_index@
    }

    /// The multimaps are those of the entries, and each lower-cased msgid
    /// is the lower-case form of its msgid.
    pub closed spec fn wf(&self) -> bool {
        &&& self.exact_map.wf()
        &&& self.word_index.wf()
        &&& self.exact_map@ == exact_map_of(self.entries_view())
        &&& self.word_index@ == word_map_of(self.entries_view())
        &&& forall|i: int|
            0 <= i < self.entries@.len() ==> #[trigger] self.entries@[i].msgid_lower@
                == lowercase(self.entries@[i].msgid@)
    }

    /// A well-formed index holds the maps of its entries, and each
    /// lower-cased msgid is the lower-case form of its msgid.
    pub proof fn lemma_wf_maps(&self)
        requires
            self.wf(),
        ensures
            self.exact_view() == exact_map_of(self.entries_view()),
            self.words_view() == word_map_of(self.entries_view()),
            forall|i: int|
                0 <= i < self.entries_view().len() ==> (#[trigger] self.entries_view()[i]).1
                    == lowercase(self.entries_view()[i].0),
            self.entries_view().len() <= usize::MAX,
    {
        assert(self.entries@.len() == self.entries.len());
        assert forall|i: int| 0 <= i < self.entries_view().len() implies (#[trigger] self.entries_view()[i]).1
            == lowercase(self.entries_view()[i].0) by {
            assert(self.entries_view()[i] == self.entries@[i].view_triple());
        }
    }

    /// An index without entries.
    pub fn empty() -> (res: Self)
        ensures
            res.wf(),
            res.entries_view() == Seq::<EntryView>::empty(),
    {
        let r = PoFileIndex {
            entries: Vec::new(),
            exact_map: ByteKeyIndex::new(),
            word_index: ByteKeyIndex::new(),
        };
        assert(r.entries_view() =~= Seq::<EntryView>::empty());
        r
    }

    /// Adds an entry at the end, recording it under the variants of its
    /// lower-cased msgid and under the kept words of its msgid.
    fn add_entry(&mut self, msgid: String, msgid_lower: String, msgstr: String)
        requires
            old(self).wf(),
            msgid_lower@ == lowercase(msgid@),
        ensures
            final(self).wf(),
            final(self).entries_view() == old(self).entries_view().push(
                (msgid@, msgid_lower@, msgstr@),
            ),
    {
        let idx = self.entries.len();
        let ghost e: EntryView = (msgid@, msgid_lower@, msgstr@);
        let ghost ex0 = self.exact_map@;
        let ghost wd0 = self.word_index@;
        let vs = generate_variants(msgid_lower.as_str().as_bytes());
        let ghost keys = exact_keys(e);
        assert(views(vs@) == keys);
        let mut j: usize = 0;
        assert(keys.take(0) =~= Seq::<Seq<u8>>::empty());
        while j < vs.len()
            invariant
                j <= vs@.len(),
                views(vs@) == keys,
                self.exact_map.wf(),
                self.exact_map@ == add_keys(ex0, keys.take(j as int), idx),
                self.word_index == old(self).word_index,
                self.entries == old(self).entries,
            decreases vs@.len() - j,
        {
            assert(keys.take(j + 1).drop_last() =~= keys.take(j as int));
            assert(views(vs@)[j as int] == vs@[j as int]@);
            self.exact_map.push(vs[j].as_slice(), idx);
            j = j + 1;
        }
        assert(keys.take(vs@.len() as int) =~= keys);
        let ws = split_and_filter(msgid.as_str());
        let ghost wkeys = word_keys(e);
        assert(wkeys.len() == ws@.len());
        let mut k: usize = 0;
        assert(wkeys.take(0) =~= Seq::<Seq<u8>>::empty());
        while k < ws.len()
            invariant
                k <= ws@.len(),
                wkeys == term_words(msgid@).map_values(|w: Seq<char>| encode_utf8(w)),
                string_views(ws@) == term_words(msgid@),
                self.word_index.wf(),
                self.word_index@ == add_keys(wd0, wkeys.take(k as int), idx),
                self.exact_map.wf(),
                self.exact_map@ == add_keys(ex0, keys, idx),
                self.entries == old(self).entries,
            decreases ws@.len() - k,
        {
            assert(wkeys.take(k + 1).drop_last() =~= wkeys.take(k as int));
            assert(string_views(ws@)[k as int] == ws@[k as int]@);
            assert(wkeys[k as int] == encode_utf8(ws@[k as int]@));
            self.word_index.push(ws[k].as_str().as_bytes(), idx);
            k = k + 1;
        }
        assert(wkeys.take(ws@.len() as int) =~= wkeys);
        let ghost old_entries = self.entries_view();
        self.entries.push(PoIndexEntry { msgid, msgid_lower, msgstr });
        assert(self.entries_view() =~= old_entries.push(e));
        assert(self.entries_view().drop_last() =~= old_entries);
        assert forall|i: int| 0 <= i < self.entries@.len() implies #[trigger] self.entries@[i].msgid_lower@
            == lowercase(self.entries@[i].msgid@) by {
            if i < old_entries.len() {
                assert(self.entries@[i] == old(self).entries@[i]);
            }
        }
    }

    /// The candidates of the entries at `idxs`.
    fn pairs_for(&self, idxs: &Vec<usize>) -> (res: Vec<PoTranslationEntry>)
        requires
            forall|i: int| 0 <= i < idxs@.len() ==> idxs@[i] < self.entries@.len(),
        ensures
            pairs_of(res@) == pairs_at(self.entries_view(), idxs@),
    {
        let mut out: Vec<PoTranslationEntry> = Vec::new();
        let mut i: usize = 0;
        while i < idxs.len()
            invariant
                i <= idxs@.len(),
                forall|k: int| 0 <= k < idxs@.len() ==> idxs@[k] < self.entries@.len(),
                pairs_of(out@) == pairs_at(self.entries_view(), idxs@.take(i as int)),
            decreases idxs@.len() - i,
        {
            let e = &self.entries[idxs[i]];
            let ghost before = pairs_of(out@);
            let ne = PoTranslationEntry { original: e.msgid.clone(), translation: e.msgstr.clone() };
            assert(self.entries_view()[idxs@[i as int] as int] == e.view_triple());
            assert(ne.pair() == entry_pair(self.entries_view()[idxs@[i as int] as int]));
            out.push(ne);
            assert(pairs_of(out@) =~= before.push(ne.pair()));
            assert(pairs_at(self.entries_view(), idxs@.take(i + 1)) =~= pairs_at(
                self.entries_view(),
                idxs@.take(i as int),
            ).push(entry_pair(self.entries_view()[idxs@[i as int] as int])));
            i = i + 1;
        }
        assert(idxs@.take(idxs@.len() as int) =~= idxs@);
        out
    }

    /// The positions found through the first indexed variant of `lower`.
    fn variant_positions(&self, lower: &[u8]) -> (res: Vec<usize>)
        requires
            self.wf(),
        ensures
            res@ == variant_stage(self.exact_view(), lower@),
            forall|i: int| 0 <= i < res@.len() ==> res@[i] < self.entries@.len(),
    {
        proof {
            lemma_maps_below(self.entries_view());
        }
        let vs = generate_variants(lower);
        let ghost all = variants_spec(lower@);
        let mut j: usize = 0;
        assert(all.skip(0) =~= all);
        while j < vs.len()
            invariant
                self.wf(),
                j <= vs@.len(),
                views(vs@) == all,
                all == variants_spec(lower@),
                first_indexed_variant(all, lower@, self.exact_view()) == first_indexed_variant(
                    all.skip(j as int),
                    lower@,
                    self.exact_view(),
                ),
            decreases vs@.len() - j,
        {
            let v = vs[j].as_slice();
            assert(views(vs@)[j as int] == vs@[j as int]@);
            assert(all.skip(j as int)[0] == v@);
            assert(all.skip(j as int).drop_first() =~= all.skip(j + 1));
            if !crate::bytes::bytes_equal(v, lower) {
                match self.exact_map.get(v) {
                    Some(list) => {
                        proof {
                            lemma_maps_below(self.entries_view());
                            assert(positions_below(self.exact_view(), self.entries@.len()));
                            assert forall|i: int| 0 <= i < list@.len() implies list@[i] < self.entries@.len() by {
                                assert(self.exact_view().contains_key(v@));
                                assert(self.exact_view()[v@][i] == list@[i]);
                            }
                        }
                        return dedup_list(list, self.entries.len());
                    },
                    None => {},
                }
            }
            j = j + 1;
        }
        assert(all.skip(vs@.len() as int) =~= Seq::<Seq<u8>>::empty());
        Vec::new()
    }

    /// The candidates found through the words of `term`, ranked.
    fn word_candidates(&self, term: &str) -> (res: Vec<PoTranslationEntry>)
        requires
            self.wf(),
        ensures
            pairs_of(res@) == word_stage(self.entries_view(), self.words_view(), term@),
    {
        proof {
            lemma_maps_below(self.entries_view());
        }
        let n = self.entries.len();
        let ghost es = self.entries_view();
        let tw = split_and_filter(term);
        let ghost tws = string_views(tw@);
        assert(tws == term_words(term@));
        let mut hits: Vec<usize> = Vec::new();
        let mut i: usize = 0;
        assert(tws.take(0) =~= Seq::<Seq<char>>::empty());
        while i < tw.len()
            invariant
                self.wf(),
                n == self.entries@.len(),
                i <= tw@.len(),
                tws == string_views(tw@),
                hits@ == word_hits(self.words_view(), tws.take(i as int)),
                forall|k: int| 0 <= k < hits@.len() ==> hits@[k] < n,
            decreases tw@.len() - i,
        {
            assert(tws.take(i + 1).drop_last() =~= tws.take(i as int));
            assert(tws.take(i + 1).last() == tw@[i as int]@);
            let key = tw[i].as_str().as_bytes();
            match self.word_index.get(key) {
                Some(list) => {
                    let ghost before = hits@;
                    let mut t: usize = 0;
                    proof {
                        lemma_maps_below(self.entries_view());
                    }
                    while t < list.len()
                        invariant
                            t <= list@.len(),
                            self.words_view().contains_key(key@),
                            list@ == self.words_view()[key@],
                            positions_below(self.words_view(), n as nat),
                            hits@ == before + list@.take(t as int),
                            forall|k: int| 0 <= k < before.len() ==> before[k] < n,
                        decreases list@.len() - t,
                    {
                        assert(list@[t as int] < n);
                        hits.push(list[t]);
                        t = t + 1;
                        assert(hits@ =~= before + list@.take(t as int));
                    }
                    assert(list@.take(list@.len() as int) =~= list@);
                    assert(forall|k: int| 0 <= k < hits@.len() ==> hits@[k] < n) by {
                        assert forall|k: int| 0 <= k < hits@.len() implies hits@[k] < n by {
                            if k >= before.len() {
                                assert(hits@[k] == list@[k - before.len()]);
                            }
                        }
                    }
                },
                None => {
                    assert(lookup(self.words_view(), key@) =~= Seq::<usize>::empty());
                    assert(hits@ =~= hits@ + Seq::<usize>::empty());
                },
            }
            i = i + 1;
        }
        assert(tws.take(tw@.len() as int) =~= tws);
        let idxs = dedup_list(&hits, n);
        // score each entry by the number of term words its lower-cased msgid contains
        let mut scores: Vec<usize> = Vec::new();
        let mut cands: Vec<PoTranslationEntry> = Vec::new();
        let ghost sc_spec = scored(es, idxs@, tws);
        let mut a: usize = 0;
        assert(idxs@.take(0) =~= Seq::<usize>::empty());
        while a < idxs.len()
            invariant
                self.wf(),
                es == self.entries_view(),
                n == self.entries@.len(),
                a <= idxs@.len(),
                forall|k: int| 0 <= k < idxs@.len() ==> idxs@[k] < n,
                tws == string_views(tw@),
                scores@.len() == cands@.len(),
                scored(es, idxs@.take(a as int), tws) == Seq::new(
                    scores@.len(),
                    |k: int| (scores@[k] as nat, cands@[k].pair()),
                ),
            decreases idxs@.len() - a,
        {
            let e = &self.entries[idxs[a]];
            assert(es[idxs@[a as int] as int] == e.view_triple());
            let hay = e.msgid_lower.as_str().as_bytes();
            let mut sc: usize = 0;
            let mut b: usize = 0;
            assert(tws.take(0) =~= Seq::<Seq<char>>::empty());
            while b < tw.len()
                invariant
                    b <= tw@.len(),
                    tws == string_views(tw@),
                    hay@ == encode_utf8(e.msgid_lower@),
                    sc == score_of(e.msgid_lower@, tws.take(b as int)),
                    sc <= b,
                decreases tw@.len() - b,
            {
                assert(tws.take(b + 1).drop_last() =~= tws.take(b as int));
                assert(tws.take(b + 1).last() == tw@[b as int]@);
                if bytes_contain(hay, tw[b].as_str().as_bytes()) {
                    sc = sc + 1;
                }
                b = b + 1;
            }
            assert(tws.take(tw@.len() as int) =~= tws);
            assert(idxs@.take(a + 1).drop_last() =~= idxs@.take(a as int));
            assert(idxs@.take(a + 1).last() == idxs@[a as int]);
            let ghost before = scored(es, idxs@.take(a as int), tws);
            if sc > 0 {
                scores.push(sc);
                cands.push(PoTranslationEntry { original: e.msgid.clone(), translation: e.msgstr.clone() });
                assert(scored(es, idxs@.take(a + 1), tws) =~= Seq::new(
                    scores@.len(),
                    |k: int| (scores@[k] as nat, cands@[k].pair()),
                ));
            }
            a = a + 1;
        }
        assert(idxs@.take(idxs@.len() as int) =~= idxs@);
        assert(sc_spec == Seq::new(scores@.len(), |k: int| (scores@[k] as nat, cands@[k].pair())));
        // higher scores first, equal scores in order
        let mut out: Vec<PoTranslationEntry> = Vec::new();
        let mut k: usize = tw.len();
        assert(pairs_of(out@) =~= Seq::<Pair>::empty());
        assert(pairs_of(out@) + by_score_desc(sc_spec, k as nat) =~= by_score_desc(sc_spec, tws.len()));
        while k > 0
            invariant
                k <= tws.len(),
                tws.len() == tw@.len(),
                scores@.len() == cands@.len(),
                sc_spec == Seq::new(scores@.len(), |q: int| (scores@[q] as nat, cands@[q].pair())),
                pairs_of(out@) + by_score_desc(sc_spec, k as nat) == by_score_desc(sc_spec, tws.len()),
            decreases k,
        {
            let ghost before = pairs_of(out@);
            let mut c: usize = 0;
            assert(sc_spec.take(0) =~= Seq::<(nat, Pair)>::empty());
            assert(before + with_score(sc_spec.take(0), k as nat) =~= before);
            while c < scores.len()
                invariant
                    c <= scores@.len(),
                    scores@.len() == cands@.len(),
                    sc_spec == Seq::new(scores@.len(), |q: int| (scores@[q] as nat, cands@[q].pair())),
                    pairs_of(out@) == before + with_score(sc_spec.take(c as int), k as nat),
                decreases scores@.len() - c,
            {
                assert(sc_spec.take(c + 1).drop_last() =~= sc_spec.take(c as int));
                assert(sc_spec.take(c + 1).last() == (scores@[c as int] as nat, cands@[c as int].pair()));
                if scores[c] == k {
                    let ghost mid = pairs_of(out@);
                    out.push(copy_entry(&cands[c]));
                    assert(pairs_of(out@) =~= mid.push(cands@[c as int].pair()));
                }
                c = c + 1;
            }
            assert(sc_spec.take(scores@.len() as int) =~= sc_spec);
            assert(by_score_desc(sc_spec, k as nat) == with_score(sc_spec, k as nat) + by_score_desc(sc_spec, (k - 1) as nat));
            assert(pairs_of(out@) + by_score_desc(sc_spec, (k - 1) as nat) =~= before + (with_score(sc_spec, k as nat) + by_score_desc(sc_spec, (k - 1) as nat)));
            k = k - 1;
        }
        assert(pairs_of(out@) + by_score_desc(sc_spec, 0) =~= pairs_of(out@));
        out
    }

    /// Searches one term: the candidates of the first stage that finds
    /// any (exact, variant, words), each pair once, at most five.
    pub fn search_single_term(&self, term: &str) -> (res: PoSearchResult)
        requires
            self.wf(),
        ensures
            res.term@ == term@,
            pairs_of(res.candidates@) == search_spec(
                self.entries_view(),
                self.exact_view(),
                self.words_view(),
                term@,
            ),
    {
        proof {
            lemma_maps_below(self.entries_view());
        }
        let lower_s = to_lower(term);
        let lower = lower_s.as_str().as_bytes();
        let ghost lb = encode_utf8(lowercase(term@));
        assert(lower@ == lb);
        let p1: Vec<usize> = match self.exact_map.get(lower) {
            Some(list) => {
                proof {
                    assert forall|i: int| 0 <= i < list@.len() implies list@[i] < self.entries@.len() by {
                        assert(self.exact_view()[lower@][i] == list@[i]);
                    }
                }
                dedup_list(list, self.entries.len())
            },
            None => {
                assert(lookup(self.exact_view(), lb) =~= Seq::<usize>::empty());
                Vec::new()
            },
        };
        assert(p1@ == exact_stage(self.exact_view(), lb));
        let cands = if p1.len() > 0 {
            self.pairs_for(&p1)
        } else {
            let p2 = self.variant_positions(lower);
            if p2.len() > 0 {
                self.pairs_for(&p2)
            } else {
                self.word_candidates(term)
            }
        };
        PoSearchResult { term: owned(term), candidates: first_five_distinct(&cands) }
    }

    /// Searches each of `terms`, in order.
    pub fn search_terms(&self, terms: &[&str]) -> (res: Vec<PoSearchResult>)
        requires
            self.wf(),
        ensures
            res@.len() == terms@.len(),
            forall|i: int|
                0 <= i < terms@.len() ==> (#[trigger] res@[i]).term@ == terms@[i]@ && pairs_of(
                    res@[i].candidates@,
                ) == search_spec(
                    self.entries_view(),
                    self.exact_view(),
                    self.words_view(),
                    terms@[i]@,
                ),
    {
        let mut out: Vec<PoSearchResult> = Vec::new();
        let mut i: usize = 0;
        while i < terms.len()
            invariant
                self.wf(),
                i <= terms@.len(),
                out@.len() == i,
                forall|j: int|
                    0 <= j < i ==> (#[trigger] out@[j]).term@ == terms@[j]@ && pairs_of(
                        out@[j].candidates@,
                    ) == search_spec(
                        self.entries_view(),
                        self.exact_view(),
                        self.words_view(),
                        terms@[j]@,
                    ),
            decreases terms@.len() - i,
        {
            out.push(self.search_single_term(terms[i]));
            i = i + 1;
        }
        out
    }

    /// The number of entries.
    pub fn len(&self) -> (res: usize)
        ensures
            res == self.entries_view().len(),
    {
        self.entries.len()
    }
}


/// An original/translation pair.
pub type Pair = (Seq<char>, Seq<char>);

/// The candidate pair of an entry: its msgid and its msgstr.
pub open spec fn entry_pair(e: EntryView) -> Pair {
    (e.0, e.2)
}

/// All positions recorded in `m` are below `n`.
pub open spec fn positions_below(m: Map<Seq<u8>, Seq<usize>>, n: nat) -> bool {
    forall|k: Seq<u8>, i: int| #[trigger] m.contains_key(k) && 0 <= i < m[k].len() ==> #[trigger] m[k][i] < n
}

proof fn lemma_add_keys_below(m: Map<Seq<u8>, Seq<usize>>, keys: Seq<Seq<u8>>, idx: usize, n: nat)
    requires
        positions_below(m, n),
        idx < n,
    ensures
        positions_below(add_keys(m, keys, idx), n),
    decreases keys.len(),
{
    if keys.len() > 0 {
        lemma_add_keys_below(m, keys.drop_last(), idx, n);
        let m1 = add_keys(m, keys.drop_last(), idx);
        let k0 = keys.last();
        assert forall|k: Seq<u8>, i: int| #[trigger] add_key(m1, k0, idx).contains_key(k) && 0 <= i < add_key(m1, k0, idx)[k].len() implies #[trigger] add_key(m1, k0, idx)[k][i] < n by {
            if k == k0 && m1.contains_key(k0) {
                if i < m1[k0].len() {
                    assert(add_key(m1, k0, idx)[k][i] == m1[k0][i]);
                }
            }
        }
    }
}

/// The positions recorded in the maps of a list of entries are positions of entries.
pub proof fn lemma_maps_below(es: Seq<EntryView>)
    ensures
        positions_below(exact_map_of(es), es.len()),
        positions_below(word_map_of(es), es.len()),
    decreases es.len(),
{
    if es.len() > 0 {
        lemma_maps_below(es.drop_last());
        let n = es.len();
        assert(positions_below(exact_map_of(es.drop_last()), n));
        assert(positions_below(word_map_of(es.drop_last()), n));
        lemma_add_keys_below(exact_map_of(es.drop_last()), exact_keys(es.last()), (n - 1) as usize, n);
        lemma_add_keys_below(word_map_of(es.drop_last()), word_keys(es.last()), (n - 1) as usize, n);
    }
}

/// `s` with every repeated position after its first occurrence left out.
pub open spec fn dedup_positions(s: Seq<usize>) -> Seq<usize>
    decreases s.len(),
{
    if s.len() == 0 {
        Seq::empty()
    } else {
        let r = dedup_positions(s.drop_last());
        if r.contains(s.last()) {
            r
        } else {
            r.push(s.last())
        }
    }
}

/// `s` with every repeated pair after its first occurrence left out.
pub open spec fn dedup_pairs(s: Seq<Pair>) -> Seq<Pair>
    decreases s.len(),
{
    if s.len() == 0 {
        Seq::empty()
    } else {
        let r = dedup_pairs(s.drop_last());
        if r.contains(s.last()) {
            r
        } else {
            r.push(s.last())
        }
    }
}

/// The positions recorded under `k`, or none.
pub open spec fn lookup(m: Map<Seq<u8>, Seq<usize>>, k: Seq<u8>) -> Seq<usize> {
    if m.contains_key(k) {
        m[k]
    } else {
        Seq::empty()
    }
}

/// The first of `vs` that differs from `lower` and is a key of `m`.
pub open spec fn first_indexed_variant(vs: Seq<Seq<u8>>, lower: Seq<u8>, m: Map<Seq<u8>, Seq<usize>>) -> Option<Seq<u8>>
    decreases vs.len(),
{
    if vs.len() == 0 {
        None
    } else if vs[0] != lower && m.contains_key(vs[0]) {
        Some(vs[0])
    } else {
        first_indexed_variant(vs.drop_first(), lower, m)
    }
}

/// The positions recorded under each of the words `tw`, one word after the other.
pub open spec fn word_hits(m: Map<Seq<u8>, Seq<usize>>, tw: Seq<Seq<char>>) -> Seq<usize>
    decreases tw.len(),
{
    if tw.len() == 0 {
        Seq::empty()
    } else {
        word_hits(m, tw.drop_last()) + lookup(m, encode_utf8(tw.last()))
    }
}

/// How many of the words `tw` (counted with repetition) occur in `lower`.
pub open spec fn score_of(lower: Seq<char>, tw: Seq<Seq<char>>) -> nat
    decreases tw.len(),
{
    if tw.len() == 0 {
        0
    } else {
        score_of(lower, tw.drop_last()) + if contains_seq(encode_utf8(lower), encode_utf8(tw.last())) {
            1nat
        } else {
            0nat
        }
    }
}

/// The entries at `idxs` that contain at least one of the words, with their scores.
pub open spec fn scored(es: Seq<EntryView>, idxs: Seq<usize>, tw: Seq<Seq<char>>) -> Seq<(nat, Pair)>
    decreases idxs.len(),
{
    if idxs.len() == 0 {
        Seq::empty()
    } else {
        let r = scored(es, idxs.drop_last(), tw);
        let e = es[idxs.last() as int];
        if score_of(e.1, tw) > 0 {
            r.push((score_of(e.1, tw), entry_pair(e)))
        } else {
            r
        }
    }
}

/// The pairs of `cs` whose score is `k`, in order.
pub open spec fn with_score(cs: Seq<(nat, Pair)>, k: nat) -> Seq<Pair>
    decreases cs.len(),
{
    if cs.len() == 0 {
        Seq::empty()
    } else if cs.last().0 == k {
        with_score(cs.drop_last(), k).push(cs.last().1)
    } else {
        with_score(cs.drop_last(), k)
    }
}

/// The pairs of `cs` with scores from `k` down to 1: higher scores first,
/// equal scores in their order in `cs`.
pub open spec fn by_score_desc(cs: Seq<(nat, Pair)>, k: nat) -> Seq<Pair>
    decreases k,
{
    if k == 0 {
        Seq::empty()
    } else {
        with_score(cs, k) + by_score_desc(cs, (k - 1) as nat)
    }
}

/// The positions found for the exact lower-case term.
pub open spec fn exact_stage(exact: Map<Seq<u8>, Seq<usize>>, lower: Seq<u8>) -> Seq<usize> {
    dedup_positions(lookup(exact, lower))
}

/// The positions found for the first indexed variant of the term.
pub open spec fn variant_stage(exact: Map<Seq<u8>, Seq<usize>>, lower: Seq<u8>) -> Seq<usize> {
    match first_indexed_variant(variants_spec(lower), lower, exact) {
        Some(v) => dedup_positions(exact[v]),
        None => Seq::empty(),
    }
}

/// The ranked pairs found through the words of the term.
pub open spec fn word_stage(es: Seq<EntryView>, words_map: Map<Seq<u8>, Seq<usize>>, term: Seq<char>) -> Seq<Pair> {
    let tw = term_words(term);
    by_score_desc(scored(es, dedup_positions(word_hits(words_map, tw)), tw), tw.len())
}

/// The pairs of the entries at `idxs`.
pub open spec fn pairs_at(es: Seq<EntryView>, idxs: Seq<usize>) -> Seq<Pair> {
    idxs.map_values(|i: usize| entry_pair(es[i as int]))
}

/// The candidates of the first stage that finds any, before duplicates are removed.
pub open spec fn stage_candidates(
    es: Seq<EntryView>,
    exact: Map<Seq<u8>, Seq<usize>>,
    words_map: Map<Seq<u8>, Seq<usize>>,
    term: Seq<char>,
) -> Seq<Pair> {
    let lower = encode_utf8(lowercase(term));
    let p1 = exact_stage(exact, lower);
    let p2 = variant_stage(exact, lower);
    if p1.len() > 0 {
        pairs_at(es, p1)
    } else if p2.len() > 0 {
        pairs_at(es, p2)
    } else {
        word_stage(es, words_map, term)
    }
}

/// At most the first five of `s`.
pub open spec fn first_five(s: Seq<Pair>) -> Seq<Pair> {
    if s.len() <= 5 {
        s
    } else {
        s.take(5)
    }
}

/// The search result for `term`: the candidates of the first stage that
/// finds any, each pair once, at most five.
pub open spec fn search_spec(
    es: Seq<EntryView>,
    exact: Map<Seq<u8>, Seq<usize>>,
    words_map: Map<Seq<u8>, Seq<usize>>,
    term: Seq<char>,
) -> Seq<Pair> {
    first_five(dedup_pairs(stage_candidates(es, exact, words_map, term)))
}


/// The positions of `list`, each once, in order of first occurrence.
fn dedup_list(list: &Vec<usize>, n: usize) -> (res: Vec<usize>)
    requires
        forall|i: int| 0 <= i < list@.len() ==> list@[i] < n,
    ensures
        res@ == dedup_positions(list@),
        forall|i: int| 0 <= i < res@.len() ==> res@[i] < n,
{
    let mut seen: Vec<bool> = Vec::new();
    let mut t: usize = 0;
    while t < n
        invariant
            t <= n,
            seen@.len() == t,
            forall|j: int| 0 <= j < t ==> !seen@[j],
        decreases n - t,
    {
        seen.push(false);
        t = t + 1;
    }
    let mut res: Vec<usize> = Vec::new();
    let mut i: usize = 0;
    assert(list@.take(0) =~= Seq::<usize>::empty());
    while i < list.len()
        invariant
            i <= list@.len(),
            forall|k: int| 0 <= k < list@.len() ==> list@[k] < n,
            seen@.len() == n,
            res@ == dedup_positions(list@.take(i as int)),
            forall|j: int| 0 <= j < n ==> seen@[j] == res@.contains(j as usize),
            forall|k: int| 0 <= k < res@.len() ==> res@[k] < n,
        decreases list@.len() - i,
    {
        let x = list[i];
        assert(list@.take(i + 1).drop_last() =~= list@.take(i as int));
        assert(list@.take(i + 1).last() == x);
        if !seen[x] {
            let ghost before = res@;
            res.push(x);
            seen.set(x, true);
            assert forall|j: int| 0 <= j < n implies seen@[j] == res@.contains(j as usize) by {
                if j == x {
                    assert(res@[res@.len() - 1] == x);
                } else {
                    if res@.contains(j as usize) {
                        let w = choose|w: int| 0 <= w < res@.len() && res@[w] == j as usize;
                        assert(w < before.len());
                        assert(before[w] == j as usize);
                    }
                    if before.contains(j as usize) {
                        let w = choose|w: int| 0 <= w < before.len() && before[w] == j as usize;
                        assert(res@[w] == j as usize);
                    }
                }
            }
        }
        i = i + 1;
    }
    assert(list@.take(list@.len() as int) =~= list@);
    res
}

/// A copy of a candidate.
fn copy_entry(e: &PoTranslationEntry) -> (res: PoTranslationEntry)
    ensures
        res.pair() == e.pair(),
{
    PoTranslationEntry { original: e.original.clone(), translation: e.translation.clone() }
}

/// Whether `v` holds a candidate with the pair of `e`.
fn has_pair(v: &Vec<PoTranslationEntry>, e: &PoTranslationEntry) -> (res: bool)
    ensures
        res == pairs_of(v@).contains(e.pair()),
{
    let mut i: usize = 0;
    while i < v.len()
        invariant
            i <= v@.len(),
            forall|j: int| 0 <= j < i ==> pairs_of(v@)[j] != e.pair(),
        decreases v@.len() - i,
    {
        assert(pairs_of(v@)[i as int] == v@[i as int].pair());
        if v[i].original == e.original && v[i].translation == e.translation {
            assert(pairs_of(v@)[i as int] == e.pair());
            return true;
        }
        i = i + 1;
    }
    false
}

proof fn lemma_dedup_pairs_prefix(s: Seq<Pair>, i: int, j: int)
    requires
        0 <= i <= j <= s.len(),
    ensures
        dedup_pairs(s.take(j)).len() >= dedup_pairs(s.take(i)).len(),
        dedup_pairs(s.take(j)).take(dedup_pairs(s.take(i)).len() as int) == dedup_pairs(s.take(i)),
    decreases j - i,
{
    if i < j {
        lemma_dedup_pairs_prefix(s, i, j - 1);
        assert(s.take(j).drop_last() =~= s.take(j - 1));
        let a = dedup_pairs(s.take(i));
        let b = dedup_pairs(s.take(j - 1));
        let c = dedup_pairs(s.take(j));
        assert(c.take(a.len() as int) =~= b.take(a.len() as int));
    } else {
        assert(dedup_pairs(s.take(j)).take(dedup_pairs(s.take(i)).len() as int) =~= dedup_pairs(s.take(i)));
    }
}

/// The candidates with repeated pairs left out, at most five.
fn first_five_distinct(cands: &Vec<PoTranslationEntry>) -> (res: Vec<PoTranslationEntry>)
    ensures
        pairs_of(res@) == first_five(dedup_pairs(pairs_of(cands@))),
{
    let ghost s = pairs_of(cands@);
    let mut out: Vec<PoTranslationEntry> = Vec::new();
    let mut i: usize = 0;
    assert(s.take(0) =~= Seq::<Pair>::empty());
    assert(pairs_of(out@) =~= Seq::<Pair>::empty());
    while i < cands.len() && out.len() < 5
        invariant
            s == pairs_of(cands@),
            i <= cands@.len(),
            pairs_of(out@) == dedup_pairs(s.take(i as int)),
            out@.len() <= 5,
        decreases cands@.len() - i,
    {
        let ghost before = pairs_of(out@);
        assert(s.take(i + 1).drop_last() =~= s.take(i as int));
        assert(s.take(i + 1).last() == cands@[i as int].pair());
        if !has_pair(&out, &cands[i]) {
            out.push(copy_entry(&cands[i]));
            assert(pairs_of(out@) =~= before.push(cands@[i as int].pair()));
        }
        i = i + 1;
    }
    proof {
        lemma_dedup_pairs_prefix(s, i as int, s.len() as int);
        assert(s.take(s.len() as int) =~= s);
        let d = dedup_pairs(s);
        if i < s.len() {
            assert(out@.len() == 5);
            assert(d.take(5) =~= pairs_of(out@));
        } else {
            assert(s.take(i as int) =~= s);
        }
    }
    out
}


/// `parts` joined by `sep`.
pub open spec fn joined(parts: Seq<Seq<char>>, sep: Seq<char>) -> Seq<char>
    decreases parts.len(),
{
    if parts.len() == 0 {
        Seq::empty()
    } else if parts.len() == 1 {
        parts[0]
    } else {
        joined(parts.drop_last(), sep) + sep + parts.last()
    }
}

/// `parts` joined by `sep`.
pub fn join_strings(parts: &Vec<String>, sep: &str) -> (res: String)
    ensures
        res@ == joined(string_views(parts@), sep@),
{
    let mut res = String::new();
    let mut i: usize = 0;
    let ghost ps = string_views(parts@);
    assert(ps.take(0) =~= Seq::<Seq<char>>::empty());
    while i < parts.len()
        invariant
            i <= parts@.len(),
            ps == string_views(parts@),
            res@ == joined(ps.take(i as int), sep@),
        decreases parts@.len() - i,
    {
        assert(ps.take(i + 1).drop_last() =~= ps.take(i as int));
        assert(ps[i as int] == parts@[i as int]@);
        if i > 0 {
            res.append(sep);
        } else {
            assert(ps.take(1) =~= seq![ps[0]]);
        }
        res.append(parts[i].as_str());
        i = i + 1;
    }
    assert(ps.take(parts@.len() as int) =~= ps);
    res
}

/// The number of spaces in `s`.
pub open spec fn space_count(s: Seq<char>) -> nat
    decreases s.len(),
{
    if s.len() == 0 {
        0
    } else {
        space_count(s.drop_last()) + if s.last() == ' ' {
            1nat
        } else {
            0nat
        }
    }
}

/// The context of the messages that name the characters' lines.
pub open spec fn character_context_prefix() -> Seq<u8> {
    encode_utf8("STRINGS.CHARACTERS."@)
}

/// The translation text of a message: the plural forms joined by ", ",
/// or the singular translation (empty when polib has none).
pub open spec fn message_text(m: PoMessageView) -> Seq<char> {
    if m.6 {
        match m.3 {
            Some(p) => joined(p, ", "@),
            None => Seq::empty(),
        }
    } else {
        match m.2 {
            Some(s) => s,
            None => Seq::empty(),
        }
    }
}

/// A message becomes an index entry: it is translated and not fuzzy, its
/// context does not name a character line, its msgid has at most four
/// spaces (five words), its translation is not empty, and its lower-cased
/// msgid has at least three bytes.
pub open spec fn message_accepted(m: PoMessageView) -> bool {
    &&& m.4
    &&& !m.5
    &&& !starts_with(
        encode_utf8(
            match m.0 {
                Some(c) => c,
                None => Seq::empty(),
            },
        ),
        character_context_prefix(),
    )
    &&& space_count(m.1) < 5
    &&& message_text(m).len() > 0
    &&& encode_utf8(lowercase(m.1)).len() >= 3
}

/// The index entries of a list of messages, in order.
pub open spec fn entries_of_messages(ms: Seq<PoMessageView>) -> Seq<EntryView>
    decreases ms.len(),
{
    if ms.len() == 0 {
        Seq::empty()
    } else if message_accepted(ms.last()) {
        entries_of_messages(ms.drop_last()).push(
            (ms.last().1, lowercase(ms.last().1), message_text(ms.last())),
        )
    } else {
        entries_of_messages(ms.drop_last())
    }
}

/// The number of spaces in `s`.
fn count_spaces(s: &str) -> (res: usize)
    ensures
        res == space_count(s@),
{
    let cs = chars_of(s);
    let mut n: usize = 0;
    let mut i: usize = 0;
    assert(cs@.take(0) =~= Seq::<char>::empty());
    while i < cs.len()
        invariant
            i <= cs@.len(),
            n == space_count(cs@.take(i as int)),
            n <= i,
        decreases cs@.len() - i,
    {
        assert(cs@.take(i + 1).drop_last() =~= cs@.take(i as int));
        if cs[i] == ' ' {
            n = n + 1;
        }
        i = i + 1;
    }
    assert(cs@.take(cs@.len() as int) =~= cs@);
    n
}

/// The translation text of a message.
fn text_of_message(m: &PoMessage) -> (res: String)
    ensures
        res@ == message_text(m@),
{
    if m.is_plural {
        match &m.msgstr_plural {
            Some(p) => join_strings(p, ", "),
            None => String::new(),
        }
    } else {
        match &m.msgstr {
            Some(s) => s.clone(),
            None => String::new(),
        }
    }
}

/// The entries of all sources, one source after the other.
pub open spec fn entries_of_sources(msgs: Seq<Seq<PoMessageView>>) -> Seq<EntryView>
    decreases msgs.len(),
{
    if msgs.len() == 0 {
        Seq::empty()
    } else {
        entries_of_sources(msgs.drop_last()) + entries_of_messages(msgs.last())
    }
}

impl PoFileIndex {
    /// Adds the accepted messages of `messages` to the index, in order.
    pub(crate) fn add_messages(&mut self, messages: &Vec<PoMessage>)
        requires
            old(self).wf(),
        ensures
            final(self).wf(),
            final(self).entries_view() == old(self).entries_view() + entries_of_messages(
                message_views(messages@),
            ),
    {
        let ghost ms = message_views(messages@);
        let ghost e0 = self.entries_view();
        let mut i: usize = 0;
        assert(ms.take(0) =~= Seq::<PoMessageView>::empty());
        assert(e0 + entries_of_messages(ms.take(0)) =~= e0);
        while i < messages.len()
            invariant
                i <= messages@.len(),
                ms == message_views(messages@),
                self.wf(),
                self.entries_view() == e0 + entries_of_messages(ms.take(i as int)),
            decreases messages@.len() - i,
        {
            let m = &messages[i];
            assert(ms.take(i + 1).drop_last() =~= ms.take(i as int));
            assert(ms.take(i + 1).last() == m@);
            let ghost before = self.entries_view();
            let mut added = false;
            if m.is_translated && !m.is_fuzzy {
                let ghost ctx_view = match m@.0 {
                    Some(c) => c,
                    None => Seq::<char>::empty(),
                };
                let no_ctx = String::new();
                let ctx: &String = match &m.msgctxt {
                    Some(c) => c,
                    None => &no_ctx,
                };
                assert(ctx@ == ctx_view);
                let p = "STRINGS.CHARACTERS.".as_bytes();
                assert(p@ == character_context_prefix());
                let ctx_ok = !bytes_start_with(ctx.as_str().as_bytes(), p);
                assert(ctx_ok == !starts_with(encode_utf8(ctx_view), character_context_prefix()));
                if ctx_ok && count_spaces(m.msgid.as_str()) < 5 {
                    let text = text_of_message(m);
                    if !text.as_str().is_empty() {
                        let lower = to_lower(m.msgid.as_str());
                        if lower.as_str().as_bytes().len() >= 3 {
                            assert(message_accepted(m@));
                            self.add_entry(m.msgid.clone(), lower, text);
                            added = true;
                        }
                    }
                }
            }
            if added {
                assert(message_accepted(m@));
                assert(self.entries_view() == before.push(
                    (m@.1, lowercase(m@.1), message_text(m@)),
                ));
            } else {
                assert(!message_accepted(m@));
                assert(self.entries_view() == before);
            }
            assert(self.entries_view() =~= e0 + entries_of_messages(ms.take(i + 1)));
            i = i + 1;
        }
        assert(ms.take(messages@.len() as int) =~= ms);
    }
}

/// Builds the glossary index from PO texts, one after the other: each
/// text is parsed with polib, and its accepted messages become entries. A
/// text that polib rejects gives a `PoProcessing` error.
pub fn build_index_from_po_contents(contents: &[String]) -> (res: AppResult<PoFileIndex>)
    requires
        forall|i: int| 0 <= i < contents@.len() ==> po_text_is_safe(#[trigger] contents@[i]@),
    ensures
        match res {
            Ok(ix) => ix.wf() && exists|msgs: Seq<Seq<PoMessageView>>|
                msgs.len() == contents@.len() && (forall|i: int|
                    0 <= i < msgs.len() ==> crate::po_file::spec_po_messages(
                        #[trigger] contents@[i]@,
                    ) == Some(msgs[i])) && ix.entries_view() == entries_of_sources(msgs),
            Err(e) => (exists|i: int|
                0 <= i < contents@.len() && crate::po_file::spec_po_messages(
                    #[trigger] contents@[i]@,
                ) is None) && (e matches AppError::PoProcessing(m) && has_prefix(
                m@,
                "failed to parse PO: "@,
            )),
        },
{
    let mut ix = PoFileIndex::empty();
    let mut i: usize = 0;
    let ghost mut msgs: Seq<Seq<PoMessageView>> = Seq::empty();
    while i < contents.len()
        invariant
            i <= contents@.len(),
            forall|k: int| 0 <= k < contents@.len() ==> po_text_is_safe(#[trigger] contents@[k]@),
            ix.wf(),
            msgs.len() == i,
            forall|k: int|
                0 <= k < i ==> crate::po_file::spec_po_messages(#[trigger] contents@[k]@)
                    == Some(msgs[k]),
            ix.entries_view() == entries_of_sources(msgs),
        decreases contents@.len() - i,
    {
        match parse_po_messages(contents[i].as_str()) {
            Ok(messages) => {
                ix.add_messages(&messages);
                let ghost prev = msgs;
                proof {
                    msgs = msgs.push(message_views(messages@));
                }
                assert(msgs.drop_last() =~= prev);
            },
            Err(e) => {
                proof {
                    lemma_prefix_of_concat("failed to parse PO: "@, e@);
                }
                return Err(AppError::PoProcessing(concat2("failed to parse PO: ", e.as_str())));
            },
        }
        i = i + 1;
    }
    Ok(ix)
}

} // verus!
