//! English inflection variants of a lower-case word, on its UTF-8 bytes.
//!
//! The rules look at byte lengths and byte positions, as a string's `len()`
//! and `as_bytes()` do, so they are stated over the bytes of the word.
use vstd::prelude::*;
use crate::bytes::{bytes_end_with, ends_with, prefix_then, stem};

verus! {

/// The ASCII byte of 'a'.
pub const ASCII_A: u8 = 97;
/// The ASCII byte of 'c'.
pub const ASCII_C: u8 = 99;
/// The ASCII byte of 'd'.
pub const ASCII_D: u8 = 100;
/// The ASCII byte of 'e'.
pub const ASCII_E: u8 = 101;
/// The ASCII byte of 'f'.
pub const ASCII_F: u8 = 102;
/// The ASCII byte of 'g'.
pub const ASCII_G: u8 = 103;
/// The ASCII byte of 'h'.
pub const ASCII_H: u8 = 104;
/// The ASCII byte of 'i'.
pub const ASCII_I: u8 = 105;
/// The ASCII byte of 'l'.
pub const ASCII_L: u8 = 108;
/// The ASCII byte of 'n'.
pub const ASCII_N: u8 = 110;
/// The ASCII byte of 'o'.
pub const ASCII_O: u8 = 111;
/// The ASCII byte of 'r'.
pub const ASCII_R: u8 = 114;
/// The ASCII byte of 's'.
pub const ASCII_S: u8 = 115;
/// The ASCII byte of 't'.
pub const ASCII_T: u8 = 116;
/// The ASCII byte of 'u'.
pub const ASCII_U: u8 = 117;
/// The ASCII byte of 'v'.
pub const ASCII_V: u8 = 118;
/// The ASCII byte of 'x'.
pub const ASCII_X: u8 = 120;
/// The ASCII byte of 'y'.
pub const ASCII_Y: u8 = 121;
/// The ASCII byte of 'z'.
pub const ASCII_Z: u8 = 122;

/// The bytes of a suffix written as ASCII letters.
pub open spec fn sfx1(a: u8) -> Seq<u8> { seq![a] }
pub open spec fn sfx2(a: u8, b: u8) -> Seq<u8> { seq![a, b] }
pub open spec fn sfx3(a: u8, b: u8, c: u8) -> Seq<u8> { seq![a, b, c] }
pub open spec fn sfx4(a: u8, b: u8, c: u8, d: u8) -> Seq<u8> { seq![a, b, c, d] }

/// `b` is one of the ASCII vowels a, e, i, o, u.
pub open spec fn is_vowel_spec(b: u8) -> bool {
    b == 97u8 || b == 101u8 || b == 105u8 || b == 111u8 || b == 117u8
}

/// `vs` when `cond` holds, nothing otherwise.
pub open spec fn when(cond: bool, vs: Seq<Seq<u8>>) -> Seq<Seq<u8>> {
    if cond { vs } else { Seq::empty() }
}

/// Words ending in "ies": the singular in "y".
pub open spec fn rule_ies(w: Seq<u8>) -> Seq<Seq<u8>> {
    when(ends_with(w, sfx3(105, 101, 115)) && w.len() > 4, seq![stem(w, 3) + sfx1(121)])
}

/// Words ending in "ves": the singulars in "f" and "fe".
pub open spec fn rule_ves(w: Seq<u8>) -> Seq<Seq<u8>> {
    when(
        ends_with(w, sfx3(118, 101, 115)) && w.len() > 4,
        seq![stem(w, 3) + sfx1(102), stem(w, 3) + sfx2(102, 101)],
    )
}

/// Words ending in "ses", "xes", "zes", "ches", "shes": drop the "es".
pub open spec fn rule_es(w: Seq<u8>) -> Seq<Seq<u8>> {
    when(
        ends_with(w, sfx3(115, 101, 115)) || ends_with(w, sfx3(120, 101, 115)) || ends_with(
            w,
            sfx3(122, 101, 115),
        ) || ends_with(w, sfx4(99, 104, 101, 115)) || ends_with(w, sfx4(115, 104, 101, 115)),
        seq![stem(w, 2)],
    )
}

/// Words ending in "s" but not in "ss" or "us": drop the "s".
pub open spec fn rule_s(w: Seq<u8>) -> Seq<Seq<u8>> {
    when(
        ends_with(w, sfx1(115)) && !ends_with(w, sfx2(115, 115)) && !ends_with(w, sfx2(117, 115)),
        seq![stem(w, 1)],
    )
}

/// Words ending in "ing": the stem, the stem without a doubled consonant, the stem with "e".
pub open spec fn rule_ing(w: Seq<u8>) -> Seq<Seq<u8>> {
    when(
        ends_with(w, sfx3(105, 110, 103)) && w.len() > 5,
        seq![stem(w, 3)] + when(w.len() > 6 && w[w.len() - 4] == w[w.len() - 5], seq![stem(w, 4)])
            + seq![stem(w, 3) + sfx1(101)],
    )
}

/// Words ending in "ed": the stem, the stem without a doubled consonant, the stem with "e".
pub open spec fn rule_ed(w: Seq<u8>) -> Seq<Seq<u8>> {
    when(
        ends_with(w, sfx2(101, 100)) && w.len() > 4,
        seq![stem(w, 2)] + when(w.len() > 5 && w[w.len() - 3] == w[w.len() - 4], seq![stem(w, 3)])
            + seq![stem(w, 2) + sfx1(101)],
    )
}

/// Words ending in "ly": drop the "ly".
pub open spec fn rule_ly(w: Seq<u8>) -> Seq<Seq<u8>> {
    when(ends_with(w, sfx2(108, 121)) && w.len() > 4, seq![stem(w, 2)])
}

/// Words ending in "er": the stem and the stem with "e".
pub open spec fn rule_er(w: Seq<u8>) -> Seq<Seq<u8>> {
    when(ends_with(w, sfx2(101, 114)) && w.len() > 4, seq![stem(w, 2), stem(w, 2) + sfx1(101)])
}

/// Words ending in "est": the stem and the stem with "e".
pub open spec fn rule_est(w: Seq<u8>) -> Seq<Seq<u8>> {
    when(
        ends_with(w, sfx3(101, 115, 116)) && w.len() > 5,
        seq![stem(w, 3), stem(w, 3) + sfx1(101)],
    )
}

/// Words that end in none of "s", "ing", "ed": their plurals.
pub open spec fn rule_plural(w: Seq<u8>) -> Seq<Seq<u8>> {
    when(
        !ends_with(w, sfx1(115)) && !ends_with(w, sfx3(105, 110, 103)) && !ends_with(
            w,
            sfx2(101, 100),
        ),
        seq![w + sfx1(115)] + when(
            ends_with(w, sfx1(115)) || ends_with(w, sfx1(120)) || ends_with(w, sfx1(122))
                || ends_with(w, sfx2(99, 104)) || ends_with(w, sfx2(115, 104)),
            seq![w + sfx2(101, 115)],
        ) + when(
            ends_with(w, sfx1(121)) && w.len() > 2 && !is_vowel_spec(w[w.len() - 2]),
            seq![stem(w, 1) + sfx3(105, 101, 115)],
        ) + when(
            ends_with(w, sfx1(102)) && !ends_with(w, sfx2(102, 102)),
            seq![stem(w, 1) + sfx3(118, 101, 115)],
        ) + when(ends_with(w, sfx2(102, 101)), seq![stem(w, 2) + sfx3(118, 101, 115)]),
    )
}

/// All variants of `w`, in order: `w` itself, then what each rule gives.
/// A word of fewer than three bytes has itself as its only variant.
pub open spec fn variants_spec(w: Seq<u8>) -> Seq<Seq<u8>> {
    if w.len() < 3 {
        seq![w]
    } else {
        seq![w] + rule_ies(w) + rule_ves(w) + rule_es(w) + rule_s(w) + rule_ing(w) + rule_ed(w)
            + rule_ly(w) + rule_er(w) + rule_est(w) + rule_plural(w)
    }
}

/// Whether `b` is an ASCII vowel.
pub fn is_vowel(b: u8) -> (res: bool)
    ensures
        res == is_vowel_spec(b),
{
    b == ASCII_A || b == ASCII_E || b == ASCII_I || b == ASCII_O || b == ASCII_U
}

fn ends1(w: &[u8], a: u8) -> (res: bool)
    ensures
        res == ends_with(w@, sfx1(a)),
{
    let s: [u8; 1] = [a];
    let r = bytes_end_with(w, &s);
    assert(s@ =~= sfx1(a));
    r
}

fn ends2(w: &[u8], a: u8, b: u8) -> (res: bool)
    ensures
        res == ends_with(w@, sfx2(a, b)),
{
    let s: [u8; 2] = [a, b];
    let r = bytes_end_with(w, &s);
    assert(s@ =~= sfx2(a, b));
    r
}

fn ends3(w: &[u8], a: u8, b: u8, c: u8) -> (res: bool)
    ensures
        res == ends_with(w@, sfx3(a, b, c)),
{
    let s: [u8; 3] = [a, b, c];
    let r = bytes_end_with(w, &s);
    assert(s@ =~= sfx3(a, b, c));
    r
}

fn ends4(w: &[u8], a: u8, b: u8, c: u8, d: u8) -> (res: bool)
    ensures
        res == ends_with(w@, sfx4(a, b, c, d)),
{
    let s: [u8; 4] = [a, b, c, d];
    let r = bytes_end_with(w, &s);
    assert(s@ =~= sfx4(a, b, c, d));
    r
}

/// `w` without its last `k` bytes, followed by `tail`.
fn stem_then(w: &[u8], k: usize, tail: &[u8]) -> (res: Vec<u8>)
    requires
        k <= w@.len(),
    ensures
        res@ == stem(w@, k as int) + tail@,
{
    prefix_then(w, w.len() - k, tail)
}

fn stem_plain(w: &[u8], k: usize) -> (res: Vec<u8>)
    requires
        k <= w@.len(),
    ensures
        res@ == stem(w@, k as int),
{
    let e: [u8; 0] = [];
    let r = prefix_then(w, w.len() - k, &e);
    assert(e@ =~= Seq::<u8>::empty());
    assert(r@ =~= stem(w@, k as int));
    r
}

fn stem1(w: &[u8], k: usize, a: u8) -> (res: Vec<u8>)
    requires
        k <= w@.len(),
    ensures
        res@ == stem(w@, k as int) + sfx1(a),
{
    let s: [u8; 1] = [a];
    assert(s@ =~= sfx1(a));
    stem_then(w, k, &s)
}

fn stem2(w: &[u8], k: usize, a: u8, b: u8) -> (res: Vec<u8>)
    requires
        k <= w@.len(),
    ensures
        res@ == stem(w@, k as int) + sfx2(a, b),
{
    let s: [u8; 2] = [a, b];
    assert(s@ =~= sfx2(a, b));
    stem_then(w, k, &s)
}

fn stem3(w: &[u8], k: usize, a: u8, b: u8, c: u8) -> (res: Vec<u8>)
    requires
        k <= w@.len(),
    ensures
        res@ == stem(w@, k as int) + sfx3(a, b, c),
{
    let s: [u8; 3] = [a, b, c];
    assert(s@ =~= sfx3(a, b, c));
    stem_then(w, k, &s)
}

/// The views of a vector of byte strings.
pub open spec fn views(v: Seq<Vec<u8>>) -> Seq<Seq<u8>> {
    v.map_values(|x: Vec<u8>| x@)
}

fn push_variant(out: &mut Vec<Vec<u8>>, v: Vec<u8>)
    ensures
        views(final(out)@) == views(old(out)@).push(v@),
{
    out.push(v);
    assert(views(final(out)@) =~= views(old(out)@).push(v@));
}

fn apply_ies(w: &[u8], out: &mut Vec<Vec<u8>>)
    ensures
        views(final(out)@) == views(old(out)@) + rule_ies(w@),
{
    if ends3(w, ASCII_I, ASCII_E, ASCII_S) && w.len() > 4 {
        push_variant(out, stem1(w, 3, ASCII_Y));
    }
    assert(views(out@) =~= views(old(out)@) + rule_ies(w@));
}

fn apply_ves(w: &[u8], out: &mut Vec<Vec<u8>>)
    ensures
        views(final(out)@) == views(old(out)@) + rule_ves(w@),
{
    if ends3(w, ASCII_V, ASCII_E, ASCII_S) && w.len() > 4 {
        push_variant(out, stem1(w, 3, ASCII_F));
        push_variant(out, stem2(w, 3, ASCII_F, ASCII_E));
    }
    assert(views(out@) =~= views(old(out)@) + rule_ves(w@));
}

fn apply_es(w: &[u8], out: &mut Vec<Vec<u8>>)
    ensures
        views(final(out)@) == views(old(out)@) + rule_es(w@),
{
    if ends3(w, ASCII_S, ASCII_E, ASCII_S) || ends3(w, ASCII_X, ASCII_E, ASCII_S) || ends3(
        w,
        ASCII_Z,
        ASCII_E,
        ASCII_S,
    ) || ends4(w, ASCII_C, ASCII_H, ASCII_E, ASCII_S) || ends4(w, ASCII_S, ASCII_H, ASCII_E, ASCII_S) {
        push_variant(out, stem_plain(w, 2));
    }
    assert(views(out@) =~= views(old(out)@) + rule_es(w@));
}

fn apply_s(w: &[u8], out: &mut Vec<Vec<u8>>)
    ensures
        views(final(out)@) == views(old(out)@) + rule_s(w@),
{
    if ends1(w, ASCII_S) && !ends2(w, ASCII_S, ASCII_S) && !ends2(w, ASCII_U, ASCII_S) {
        push_variant(out, stem_plain(w, 1));
    }
    assert(views(out@) =~= views(old(out)@) + rule_s(w@));
}

fn apply_ing(w: &[u8], out: &mut Vec<Vec<u8>>)
    ensures
        views(final(out)@) == views(old(out)@) + rule_ing(w@),
{
    let len = w.len();
    if ends3(w, ASCII_I, ASCII_N, ASCII_G) && len > 5 {
        push_variant(out, stem_plain(w, 3));
        if len > 6 && w[len - 4] == w[len - 5] {
            push_variant(out, stem_plain(w, 4));
        }
        push_variant(out, stem1(w, 3, ASCII_E));
    }
    assert(views(out@) =~= views(old(out)@) + rule_ing(w@));
}

fn apply_ed(w: &[u8], out: &mut Vec<Vec<u8>>)
    ensures
        views(final(out)@) == views(old(out)@) + rule_ed(w@),
{
    let len = w.len();
    if ends2(w, ASCII_E, ASCII_D) && len > 4 {
        push_variant(out, stem_plain(w, 2));
        if len > 5 && w[len - 3] == w[len - 4] {
            push_variant(out, stem_plain(w, 3));
        }
        push_variant(out, stem1(w, 2, ASCII_E));
    }
    assert(views(out@) =~= views(old(out)@) + rule_ed(w@));
}

fn apply_ly(w: &[u8], out: &mut Vec<Vec<u8>>)
    ensures
        views(final(out)@) == views(old(out)@) + rule_ly(w@),
{
    if ends2(w, ASCII_L, ASCII_Y) && w.len() > 4 {
        push_variant(out, stem_plain(w, 2));
    }
    assert(views(out@) =~= views(old(out)@) + rule_ly(w@));
}

fn apply_er(w: &[u8], out: &mut Vec<Vec<u8>>)
    ensures
        views(final(out)@) == views(old(out)@) + rule_er(w@),
{
    if ends2(w, ASCII_E, ASCII_R) && w.len() > 4 {
        push_variant(out, stem_plain(w, 2));
        push_variant(out, stem1(w, 2, ASCII_E));
    }
    assert(views(out@) =~= views(old(out)@) + rule_er(w@));
}

fn apply_est(w: &[u8], out: &mut Vec<Vec<u8>>)
    ensures
        views(final(out)@) == views(old(out)@) + rule_est(w@),
{
    if ends3(w, ASCII_E, ASCII_S, ASCII_T) && w.len() > 5 {
        push_variant(out, stem_plain(w, 3));
        push_variant(out, stem1(w, 3, ASCII_E));
    }
    assert(views(out@) =~= views(old(out)@) + rule_est(w@));
}

fn apply_plural(w: &[u8], out: &mut Vec<Vec<u8>>)
    ensures
        views(final(out)@) == views(old(out)@) + rule_plural(w@),
{
    let len = w.len();
    if !ends1(w, ASCII_S) && !ends3(w, ASCII_I, ASCII_N, ASCII_G) && !ends2(w, ASCII_E, ASCII_D) {
        let s1: [u8; 1] = [ASCII_S];
        assert(s1@ =~= sfx1(115));
        push_variant(out, prefix_then(w, len, &s1));
        assert(w@.subrange(0, len as int) =~= w@);
        let ghost p0 = views(out@);
        if ends1(w, ASCII_S) || ends1(w, ASCII_X) || ends1(w, ASCII_Z) || ends2(w, ASCII_C, ASCII_H)
            || ends2(w, ASCII_S, ASCII_H) {
            let s2: [u8; 2] = [ASCII_E, ASCII_S];
            assert(s2@ =~= sfx2(101, 115));
            push_variant(out, prefix_then(w, len, &s2));
        }
        if ends1(w, ASCII_Y) && len > 2 && !is_vowel(w[len - 2]) {
            push_variant(out, stem3(w, 1, ASCII_I, ASCII_E, ASCII_S));
        }
        if ends1(w, ASCII_F) && !ends2(w, ASCII_F, ASCII_F) {
            push_variant(out, stem3(w, 1, ASCII_V, ASCII_E, ASCII_S));
        }
        if ends2(w, ASCII_F, ASCII_E) {
            push_variant(out, stem3(w, 2, ASCII_V, ASCII_E, ASCII_S));
        }
    }
    assert(views(out@) =~= views(old(out)@) + rule_plural(w@));
}

/// The inflection variants of a lower-case word given by its UTF-8 bytes:
/// the word itself first, then singular and plural forms, forms without
/// "ing", "ed", "ly", "er", "est", each rule in a fixed order.
pub fn generate_variants(word: &[u8]) -> (res: Vec<Vec<u8>>)
    ensures
        views(res@) == variants_spec(word@),
{
    let w = word;
    let len = w.len();
    let mut out: Vec<Vec<u8>> = Vec::new();
    let e: [u8; 0] = [];
    assert(e@ =~= Seq::<u8>::empty());
    assert(w@.subrange(0, len as int) + e@ =~= w@);
    push_variant(&mut out, prefix_then(w, len, &e));
    assert(views(out@) =~= seq![w@]);
    if len < 3 {
        return out;
    }
    apply_ies(w, &mut out);
    apply_ves(w, &mut out);
    apply_es(w, &mut out);
    apply_s(w, &mut out);
    apply_ing(w, &mut out);
    apply_ed(w, &mut out);
    apply_ly(w, &mut out);
    apply_er(w, &mut out);
    apply_est(w, &mut out);
    apply_plural(w, &mut out);
    out
}

/// The first variant of a word is the word itself, and a word of fewer
/// than three bytes has no other.
pub proof fn lemma_variants_start_with_word(w: Seq<u8>)
    ensures
        variants_spec(w).len() >= 1,
        variants_spec(w)[0] == w,
        w.len() < 3 ==> variants_spec(w) == seq![w],
{
    if w.len() >= 3 {
        let rest = rule_ies(w) + rule_ves(w) + rule_es(w) + rule_s(w) + rule_ing(w) + rule_ed(w)
            + rule_ly(w) + rule_er(w) + rule_est(w) + rule_plural(w);
        lemma_head(w, rest);
    }
}

proof fn lemma_head(w: Seq<u8>, rest: Seq<Seq<u8>>)
    ensures
        (seq![w] + rest).len() >= 1,
        (seq![w] + rest)[0] == w,
{
}


/// `w` ends with the byte `b` exactly when its last byte is `b`.
proof fn lemma_ends_with_byte(w: Seq<u8>, b: u8)
    requires
        w.len() >= 1,
    ensures
        ends_with(w, sfx1(b)) == (w[w.len() - 1] == b),
{
    if w[w.len() - 1] == b {
        assert(w.subrange(w.len() - 1, w.len() as int) =~= sfx1(b));
    } else if ends_with(w, sfx1(b)) {
        assert(w.subrange(w.len() - 1, w.len() as int)[0] == w[w.len() - 1]);
    }
}

/// A singular and its plural in "s" reach each other: among the variants
/// of a word of at least three bytes that ends in none of "s", "u", "ing"
/// and "ed" is the word with "s" added, and among the variants of that
/// plural is the word.
pub proof fn lemma_plural_round_trip(w: Seq<u8>)
    requires
        w.len() >= 3,
        !ends_with(w, sfx1(115)),
        !ends_with(w, sfx1(117)),
        !ends_with(w, sfx3(105, 110, 103)),
        !ends_with(w, sfx2(101, 100)),
    ensures
        variants_spec(w).contains(w + sfx1(115)),
        variants_spec(w + sfx1(115)).contains(w),
{
    let p = w + sfx1(115);
    let front = seq![w] + rule_ies(w) + rule_ves(w) + rule_es(w) + rule_s(w) + rule_ing(w)
        + rule_ed(w) + rule_ly(w) + rule_er(w) + rule_est(w);
    assert(rule_plural(w)[0] == p);
    assert(variants_spec(w) == front + rule_plural(w));
    assert(variants_spec(w)[front.len() as int] == p);
    lemma_ends_with_byte(w, 115);
    lemma_ends_with_byte(w, 117);
    lemma_ends_with_byte(p, 115);
    assert(p[p.len() - 1] == 115u8);
    assert(p[p.len() - 2] == w[w.len() - 1]);
    assert(!ends_with(p, sfx2(115, 115))) by {
        if ends_with(p, sfx2(115, 115)) {
            assert(p.subrange(p.len() - 2, p.len() as int)[0] == p[p.len() - 2]);
        }
    }
    assert(!ends_with(p, sfx2(117, 115))) by {
        if ends_with(p, sfx2(117, 115)) {
            assert(p.subrange(p.len() - 2, p.len() as int)[0] == p[p.len() - 2]);
        }
    }
    assert(stem(p, 1) =~= w);
    assert(rule_s(p) == seq![w]);
    let front2 = seq![p] + rule_ies(p) + rule_ves(p) + rule_es(p);
    let back2 = rule_ing(p) + rule_ed(p) + rule_ly(p) + rule_er(p) + rule_est(p) + rule_plural(p);
    assert(variants_spec(p) == front2 + rule_s(p) + back2);
    assert(variants_spec(p)[front2.len() as int] == w);
}


/// A sequence joined to another contains what either contains.
proof fn lemma_concat_contains(a: Seq<Seq<u8>>, b: Seq<Seq<u8>>, x: Seq<u8>)
    ensures
        a.contains(x) || b.contains(x) ==> (a + b).contains(x),
{
    if a.contains(x) {
        let i = choose|i: int| 0 <= i < a.len() && a[i] == x;
        assert((a + b)[i] == x);
    } else if b.contains(x) {
        let i = choose|i: int| 0 <= i < b.len() && b[i] == x;
        assert((a + b)[a.len() + i] == x);
    }
}

/// What any rule gives for a word of at least three bytes is one of its variants.
proof fn lemma_in_variants(w: Seq<u8>, x: Seq<u8>)
    requires
        w.len() >= 3,
        rule_ies(w).contains(x) || rule_ves(w).contains(x) || rule_es(w).contains(x) || rule_s(w).contains(x)
            || rule_ing(w).contains(x) || rule_ed(w).contains(x) || rule_ly(w).contains(x) || rule_er(w).contains(x)
            || rule_est(w).contains(x) || rule_plural(w).contains(x),
    ensures
        variants_spec(w).contains(x),
{
    let v0 = seq![w];
    let v1 = v0 + rule_ies(w);
    let v2 = v1 + rule_ves(w);
    let v3 = v2 + rule_es(w);
    let v4 = v3 + rule_s(w);
    let v5 = v4 + rule_ing(w);
    let v6 = v5 + rule_ed(w);
    let v7 = v6 + rule_ly(w);
    let v8 = v7 + rule_er(w);
    let v9 = v8 + rule_est(w);
    lemma_concat_contains(v0, rule_ies(w), x);
    lemma_concat_contains(v1, rule_ves(w), x);
    lemma_concat_contains(v2, rule_es(w), x);
    lemma_concat_contains(v3, rule_s(w), x);
    lemma_concat_contains(v4, rule_ing(w), x);
    lemma_concat_contains(v5, rule_ed(w), x);
    lemma_concat_contains(v6, rule_ly(w), x);
    lemma_concat_contains(v7, rule_er(w), x);
    lemma_concat_contains(v8, rule_est(w), x);
    lemma_concat_contains(v9, rule_plural(w), x);
    assert(variants_spec(w) == v9 + rule_plural(w));
}

/// The inflections that the variants of a word of at least three bytes
/// hold: the stem of a word in "ing" (with and without "e", and without a
/// doubled last consonant), of a word in "ed" likewise, the singular of a
/// plural in "ies", "ves", "es" or "s", the stem of a word in "ly", "er" or
/// "est" (with and without "e"), and the plurals of a word that ends in
/// none of "s", "ing", "ed".
#[verifier::rlimit(60)]
#[verifier::spinoff_prover]
pub proof fn lemma_variant_inflections(w: Seq<u8>)
    requires
        w.len() >= 3,
    ensures
        variants_spec(w).contains(w),
        ends_with(w, sfx3(105, 110, 103)) && w.len() > 5 ==> variants_spec(w).contains(stem(w, 3))
            && variants_spec(w).contains(stem(w, 3) + sfx1(101)),
        ends_with(w, sfx3(105, 110, 103)) && w.len() > 6 && w[w.len() - 4] == w[w.len() - 5]
            ==> variants_spec(w).contains(stem(w, 4)),
        ends_with(w, sfx2(101, 100)) && w.len() > 4 ==> variants_spec(w).contains(stem(w, 2))
            && variants_spec(w).contains(stem(w, 2) + sfx1(101)),
        ends_with(w, sfx2(101, 100)) && w.len() > 5 && w[w.len() - 3] == w[w.len() - 4]
            ==> variants_spec(w).contains(stem(w, 3)),
        ends_with(w, sfx3(105, 101, 115)) && w.len() > 4 ==> variants_spec(w).contains(stem(w, 3) + sfx1(121)),
        ends_with(w, sfx3(118, 101, 115)) && w.len() > 4 ==> variants_spec(w).contains(stem(w, 3) + sfx1(102))
            && variants_spec(w).contains(stem(w, 3) + sfx2(102, 101)),
        ends_with(w, sfx3(115, 101, 115)) || ends_with(w, sfx3(120, 101, 115)) || ends_with(w, sfx3(122, 101, 115))
            || ends_with(w, sfx4(99, 104, 101, 115)) || ends_with(w, sfx4(115, 104, 101, 115))
            ==> variants_spec(w).contains(stem(w, 2)),
        ends_with(w, sfx1(115)) && !ends_with(w, sfx2(115, 115)) && !ends_with(w, sfx2(117, 115))
            ==> variants_spec(w).contains(stem(w, 1)),
        ends_with(w, sfx2(108, 121)) && w.len() > 4 ==> variants_spec(w).contains(stem(w, 2)),
        ends_with(w, sfx2(101, 114)) && w.len() > 4 ==> variants_spec(w).contains(stem(w, 2))
            && variants_spec(w).contains(stem(w, 2) + sfx1(101)),
        ends_with(w, sfx3(101, 115, 116)) && w.len() > 5 ==> variants_spec(w).contains(stem(w, 3))
            && variants_spec(w).contains(stem(w, 3) + sfx1(101)),
        !ends_with(w, sfx1(115)) && !ends_with(w, sfx3(105, 110, 103)) && !ends_with(w, sfx2(101, 100))
            ==> variants_spec(w).contains(w + sfx1(115)),
        !ends_with(w, sfx1(115)) && !ends_with(w, sfx3(105, 110, 103)) && !ends_with(w, sfx2(101, 100)) && (
        ends_with(w, sfx1(120)) || ends_with(w, sfx1(122)) || ends_with(w, sfx2(99, 104)) || ends_with(
            w,
            sfx2(115, 104),
        )) ==> variants_spec(w).contains(w + sfx2(101, 115)),
        !ends_with(w, sfx1(115)) && !ends_with(w, sfx3(105, 110, 103)) && !ends_with(w, sfx2(101, 100))
            && ends_with(w, sfx1(121)) && !is_vowel_spec(w[w.len() - 2]) ==> variants_spec(w).contains(
            stem(w, 1) + sfx3(105, 101, 115),
        ),
        !ends_with(w, sfx1(115)) && !ends_with(w, sfx3(105, 110, 103)) && !ends_with(w, sfx2(101, 100))
            && ends_with(w, sfx1(102)) && !ends_with(w, sfx2(102, 102)) ==> variants_spec(w).contains(
            stem(w, 1) + sfx3(118, 101, 115),
        ),
        !ends_with(w, sfx1(115)) && !ends_with(w, sfx3(105, 110, 103)) && !ends_with(w, sfx2(101, 100))
            && ends_with(w, sfx2(102, 101)) ==> variants_spec(w).contains(stem(w, 2) + sfx3(118, 101, 115)),
{
    lemma_variants_start_with_word(w);
    assert(variants_spec(w)[0] == w);
    // ing
    if ends_with(w, sfx3(105, 110, 103)) && w.len() > 5 {
        let mid = when(w.len() > 6 && w[w.len() - 4] == w[w.len() - 5], seq![stem(w, 4)]);
        let r = seq![stem(w, 3)] + mid + seq![stem(w, 3) + sfx1(101)];
        assert(rule_ing(w) == r);
        assert(r[0] == stem(w, 3));
        assert(r[r.len() - 1] == stem(w, 3) + sfx1(101));
        lemma_in_variants(w, stem(w, 3));
        lemma_in_variants(w, stem(w, 3) + sfx1(101));
        if w.len() > 6 && w[w.len() - 4] == w[w.len() - 5] {
            assert(r[1] == stem(w, 4));
            lemma_in_variants(w, stem(w, 4));
        }
    }
    // ed
    if ends_with(w, sfx2(101, 100)) && w.len() > 4 {
        let mid = when(w.len() > 5 && w[w.len() - 3] == w[w.len() - 4], seq![stem(w, 3)]);
        let r = seq![stem(w, 2)] + mid + seq![stem(w, 2) + sfx1(101)];
        assert(rule_ed(w) == r);
        assert(r[0] == stem(w, 2));
        assert(r[r.len() - 1] == stem(w, 2) + sfx1(101));
        lemma_in_variants(w, stem(w, 2));
        lemma_in_variants(w, stem(w, 2) + sfx1(101));
        if w.len() > 5 && w[w.len() - 3] == w[w.len() - 4] {
            assert(r[1] == stem(w, 3));
            lemma_in_variants(w, stem(w, 3));
        }
    }
    if ends_with(w, sfx3(105, 101, 115)) && w.len() > 4 {
        assert(rule_ies(w)[0] == stem(w, 3) + sfx1(121));
        lemma_in_variants(w, stem(w, 3) + sfx1(121));
    }
    if ends_with(w, sfx3(118, 101, 115)) && w.len() > 4 {
        assert(rule_ves(w)[0] == stem(w, 3) + sfx1(102));
        assert(rule_ves(w)[1] == stem(w, 3) + sfx2(102, 101));
        lemma_in_variants(w, stem(w, 3) + sfx1(102));
        lemma_in_variants(w, stem(w, 3) + sfx2(102, 101));
    }
    if ends_with(w, sfx3(115, 101, 115)) || ends_with(w, sfx3(120, 101, 115)) || ends_with(w, sfx3(122, 101, 115))
        || ends_with(w, sfx4(99, 104, 101, 115)) || ends_with(w, sfx4(115, 104, 101, 115)) {
        assert(rule_es(w)[0] == stem(w, 2));
        lemma_in_variants(w, stem(w, 2));
    }
    if ends_with(w, sfx1(115)) && !ends_with(w, sfx2(115, 115)) && !ends_with(w, sfx2(117, 115)) {
        assert(rule_s(w)[0] == stem(w, 1));
        lemma_in_variants(w, stem(w, 1));
    }
    if ends_with(w, sfx2(108, 121)) && w.len() > 4 {
        assert(rule_ly(w)[0] == stem(w, 2));
        lemma_in_variants(w, stem(w, 2));
    }
    if ends_with(w, sfx2(101, 114)) && w.len() > 4 {
        assert(rule_er(w)[0] == stem(w, 2));
        assert(rule_er(w)[1] == stem(w, 2) + sfx1(101));
        lemma_in_variants(w, stem(w, 2));
        lemma_in_variants(w, stem(w, 2) + sfx1(101));
    }
    if ends_with(w, sfx3(101, 115, 116)) && w.len() > 5 {
        assert(rule_est(w)[0] == stem(w, 3));
        assert(rule_est(w)[1] == stem(w, 3) + sfx1(101));
        lemma_in_variants(w, stem(w, 3));
        lemma_in_variants(w, stem(w, 3) + sfx1(101));
    }
    if !ends_with(w, sfx1(115)) && !ends_with(w, sfx3(105, 110, 103)) && !ends_with(w, sfx2(101, 100)) {
        let p0 = seq![w + sfx1(115)];
        let p1 = when(
            ends_with(w, sfx1(115)) || ends_with(w, sfx1(120)) || ends_with(w, sfx1(122))
                || ends_with(w, sfx2(99, 104)) || ends_with(w, sfx2(115, 104)),
            seq![w + sfx2(101, 115)],
        );
        let p2 = when(
            ends_with(w, sfx1(121)) && w.len() > 2 && !is_vowel_spec(w[w.len() - 2]),
            seq![stem(w, 1) + sfx3(105, 101, 115)],
        );
        let p3 = when(ends_with(w, sfx1(102)) && !ends_with(w, sfx2(102, 102)), seq![stem(w, 1) + sfx3(118, 101, 115)]);
        let p4 = when(ends_with(w, sfx2(102, 101)), seq![stem(w, 2) + sfx3(118, 101, 115)]);
        assert(rule_plural(w) == p0 + p1 + p2 + p3 + p4);
        assert(p0[0] == w + sfx1(115));
        lemma_concat_contains(p0, p1, w + sfx1(115));
        lemma_concat_contains(p0 + p1, p2, w + sfx1(115));
        lemma_concat_contains(p0 + p1 + p2, p3, w + sfx1(115));
        lemma_concat_contains(p0 + p1 + p2 + p3, p4, w + sfx1(115));
        lemma_in_variants(w, w + sfx1(115));
        let x1 = w + sfx2(101, 115);
        if p1.len() > 0 {
            assert(p1[0] == x1);
            lemma_concat_contains(p0, p1, x1);
            lemma_concat_contains(p0 + p1, p2, x1);
            lemma_concat_contains(p0 + p1 + p2, p3, x1);
            lemma_concat_contains(p0 + p1 + p2 + p3, p4, x1);
            lemma_in_variants(w, x1);
        }
        let x2 = stem(w, 1) + sfx3(105, 101, 115);
        if p2.len() > 0 {
            assert(p2[0] == x2);
            lemma_concat_contains(p0 + p1, p2, x2);
            lemma_concat_contains(p0 + p1 + p2, p3, x2);
            lemma_concat_contains(p0 + p1 + p2 + p3, p4, x2);
            lemma_in_variants(w, x2);
        }
        let x3 = stem(w, 1) + sfx3(118, 101, 115);
        if p3.len() > 0 {
            assert(p3[0] == x3);
            lemma_concat_contains(p0 + p1 + p2, p3, x3);
            lemma_concat_contains(p0 + p1 + p2 + p3, p4, x3);
            lemma_in_variants(w, x3);
        }
        let x4 = stem(w, 2) + sfx3(118, 101, 115);
        if p4.len() > 0 {
            assert(p4[0] == x4);
            lemma_concat_contains(p0 + p1 + p2 + p3, p4, x4);
            lemma_in_variants(w, x4);
        }
    }
}


/// What a sequence joined to another contains, one of the two contains.
proof fn lemma_concat_contains_split(a: Seq<Seq<u8>>, b: Seq<Seq<u8>>, x: Seq<u8>)
    ensures
        (a + b).contains(x) ==> a.contains(x) || b.contains(x),
{
    if (a + b).contains(x) {
        let i = choose|i: int| 0 <= i < (a + b).len() && (a + b)[i] == x;
        if i < a.len() {
            assert(a[i] == x);
        } else {
            assert(b[i - a.len()] == x);
        }
    }
}

/// `x` is an inflection of `w` that the variants allow: the stem of a word
/// in "ing" or "ed" (with "e", or without a doubled last consonant), the
/// singular of a plural in "ies", "ves", "es" or "s", the stem of a word in
/// "ly", "er" or "est" (with "e" for "er" and "est"), or a plural of a word
/// that ends in none of "s", "ing", "ed".
pub open spec fn allowed_inflection(w: Seq<u8>, x: Seq<u8>) -> bool {
    let plural_base = !ends_with(w, sfx1(115)) && !ends_with(w, sfx3(105, 110, 103)) && !ends_with(w, sfx2(101, 100));
    ||| ends_with(w, sfx3(105, 110, 103)) && w.len() > 5 && (x == stem(w, 3) || x == stem(w, 3) + sfx1(101) || (w.len() > 6
        && w[w.len() - 4] == w[w.len() - 5] && x == stem(w, 4)))
    ||| ends_with(w, sfx2(101, 100)) && w.len() > 4 && (x == stem(w, 2) || x == stem(w, 2) + sfx1(101) || (w.len() > 5
        && w[w.len() - 3] == w[w.len() - 4] && x == stem(w, 3)))
    ||| ends_with(w, sfx3(105, 101, 115)) && w.len() > 4 && x == stem(w, 3) + sfx1(121)
    ||| ends_with(w, sfx3(118, 101, 115)) && w.len() > 4 && (x == stem(w, 3) + sfx1(102) || x == stem(w, 3) + sfx2(102, 101))
    ||| (ends_with(w, sfx3(115, 101, 115)) || ends_with(w, sfx3(120, 101, 115)) || ends_with(w, sfx3(122, 101, 115))
        || ends_with(w, sfx4(99, 104, 101, 115)) || ends_with(w, sfx4(115, 104, 101, 115))) && x == stem(w, 2)
    ||| ends_with(w, sfx1(115)) && !ends_with(w, sfx2(115, 115)) && !ends_with(w, sfx2(117, 115)) && x == stem(w, 1)
    ||| ends_with(w, sfx2(108, 121)) && w.len() > 4 && x == stem(w, 2)
    ||| ends_with(w, sfx2(101, 114)) && w.len() > 4 && (x == stem(w, 2) || x == stem(w, 2) + sfx1(101))
    ||| ends_with(w, sfx3(101, 115, 116)) && w.len() > 5 && (x == stem(w, 3) || x == stem(w, 3) + sfx1(101))
    ||| plural_base && x == w + sfx1(115)
    ||| plural_base && (ends_with(w, sfx1(120)) || ends_with(w, sfx1(122)) || ends_with(w, sfx2(99, 104)) || ends_with(
        w,
        sfx2(115, 104),
    )) && x == w + sfx2(101, 115)
    ||| plural_base && ends_with(w, sfx1(121)) && !is_vowel_spec(w[w.len() - 2]) && x == stem(w, 1) + sfx3(105, 101, 115)
    ||| plural_base && ends_with(w, sfx1(102)) && !ends_with(w, sfx2(102, 102)) && x == stem(w, 1) + sfx3(118, 101, 115)
    ||| plural_base && ends_with(w, sfx2(102, 101)) && x == stem(w, 2) + sfx3(118, 101, 115)
}

/// The variants of a word hold nothing but the word itself and the
/// inflections it allows; a word of fewer than three bytes has only itself.
#[verifier::rlimit(60)]
#[verifier::spinoff_prover]
pub proof fn lemma_variants_only_inflections(w: Seq<u8>, x: Seq<u8>)
    requires
        variants_spec(w).contains(x),
    ensures
        x == w || (w.len() >= 3 && allowed_inflection(w, x)),
{
    lemma_variants_start_with_word(w);
    if w.len() >= 3 && x != w {
        let v0 = seq![w];
        let v1 = v0 + rule_ies(w);
        let v2 = v1 + rule_ves(w);
        let v3 = v2 + rule_es(w);
        let v4 = v3 + rule_s(w);
        let v5 = v4 + rule_ing(w);
        let v6 = v5 + rule_ed(w);
        let v7 = v6 + rule_ly(w);
        let v8 = v7 + rule_er(w);
        let v9 = v8 + rule_est(w);
        assert(variants_spec(w) == v9 + rule_plural(w));
        lemma_concat_contains_split(v9, rule_plural(w), x);
        lemma_concat_contains_split(v8, rule_est(w), x);
        lemma_concat_contains_split(v7, rule_er(w), x);
        lemma_concat_contains_split(v6, rule_ly(w), x);
        lemma_concat_contains_split(v5, rule_ed(w), x);
        lemma_concat_contains_split(v4, rule_ing(w), x);
        lemma_concat_contains_split(v3, rule_s(w), x);
        lemma_concat_contains_split(v2, rule_es(w), x);
        lemma_concat_contains_split(v1, rule_ves(w), x);
        lemma_concat_contains_split(v0, rule_ies(w), x);
        assert(!v0.contains(x));
        // the rules with inner parts
        let ing_mid = when(w.len() > 6 && w[w.len() - 4] == w[w.len() - 5], seq![stem(w, 4)]);
        lemma_concat_contains_split(seq![stem(w, 3)] + ing_mid, seq![stem(w, 3) + sfx1(101)], x);
        lemma_concat_contains_split(seq![stem(w, 3)], ing_mid, x);
        let ed_mid = when(w.len() > 5 && w[w.len() - 3] == w[w.len() - 4], seq![stem(w, 3)]);
        lemma_concat_contains_split(seq![stem(w, 2)] + ed_mid, seq![stem(w, 2) + sfx1(101)], x);
        lemma_concat_contains_split(seq![stem(w, 2)], ed_mid, x);
        let p0 = seq![w + sfx1(115)];
        let p1 = when(
            ends_with(w, sfx1(115)) || ends_with(w, sfx1(120)) || ends_with(w, sfx1(122))
                || ends_with(w, sfx2(99, 104)) || ends_with(w, sfx2(115, 104)),
            seq![w + sfx2(101, 115)],
        );
        let p2 = when(
            ends_with(w, sfx1(121)) && w.len() > 2 && !is_vowel_spec(w[w.len() - 2]),
            seq![stem(w, 1) + sfx3(105, 101, 115)],
        );
        let p3 = when(ends_with(w, sfx1(102)) && !ends_with(w, sfx2(102, 102)), seq![stem(w, 1) + sfx3(118, 101, 115)]);
        let p4 = when(ends_with(w, sfx2(102, 101)), seq![stem(w, 2) + sfx3(118, 101, 115)]);
        lemma_concat_contains_split(p0 + p1 + p2 + p3, p4, x);
        lemma_concat_contains_split(p0 + p1 + p2, p3, x);
        lemma_concat_contains_split(p0 + p1, p2, x);
        lemma_concat_contains_split(p0, p1, x);
    }
}

} // verus!
