//! The analysis pipeline for command names.
//!
//! A raw field value first runs through a simple tokenizer that cuts it at
//! every character that is not an ASCII letter or digit, then through the
//! compound-identifier splitter, and finally through an ASCII lowercase
//! filter.  The composed pipeline is what the engine registers under the
//! analyzer name `"pascal"`.

use vstd::prelude::*;
use crate::chars::{
    byte_len, char_len, chars_of, is_token_char, lemma_byte_len_concat, lemma_byte_len_one,
    to_lower_seq, token_char,
};
use crate::splitter::{split_spans, split_token, sub_token_at, sub_tokens_of};
use crate::token::{shift_token, Token};

verus! {

/// The least index at or after `i` that does not hold a token character, or
/// the length of `s` when the token characters run to the end.
pub open spec fn next_sep(s: Seq<char>, i: int) -> int
    decreases s.len() - i when 0 <= i <= s.len()
{
    if i >= s.len() {
        s.len() as int
    } else if !is_token_char(s[i]) {
        i
    } else {
        next_sep(s, i + 1)
    }
}

pub proof fn lemma_next_sep(s: Seq<char>, i: int)
    requires
        0 <= i <= s.len(),
    ensures
        i <= next_sep(s, i) <= s.len(),
        forall|k: int| i <= k < next_sep(s, i) ==> is_token_char(s[k]),
    decreases s.len() - i,
{
    if i < s.len() && is_token_char(s[i]) {
        lemma_next_sep(s, i + 1);
    }
}

/// The spans `(start, end)` of the maximal token-character runs of `s` from
/// index `i` on, in order.
pub open spec fn simple_spans(s: Seq<char>, i: int) -> Seq<(int, int)>
    decreases s.len() - i when 0 <= i <= s.len() via simple_spans_decreases
{
    if i >= s.len() {
        Seq::empty()
    } else if !is_token_char(s[i]) {
        simple_spans(s, i + 1)
    } else {
        seq![(i, next_sep(s, i))] + simple_spans(s, next_sep(s, i))
    }
}

#[via_fn]
proof fn simple_spans_decreases(s: Seq<char>, i: int) {
    if i < s.len() && is_token_char(s[i]) {
        lemma_next_sep(s, i + 1);
    }
}

pub proof fn lemma_simple_spans(s: Seq<char>, i: int)
    requires
        0 <= i <= s.len(),
    ensures
        simple_spans(s, i).len() <= s.len() - i,
        forall|k: int|
            0 <= k < simple_spans(s, i).len() ==> i <= (#[trigger] simple_spans(s, i)[k]).0
                < simple_spans(s, i)[k].1 <= s.len(),
        forall|k: int|
            0 <= k < simple_spans(s, i).len() - 1 ==> (#[trigger] simple_spans(s, i)[k]).1
                <= simple_spans(s, i)[k + 1].0,
    decreases s.len() - i,
{
    if i < s.len() {
        if !is_token_char(s[i]) {
            lemma_simple_spans(s, i + 1);
        } else {
            let e = next_sep(s, i);
            lemma_next_sep(s, i);
            assert(next_sep(s, i) == next_sep(s, i + 1));
            lemma_next_sep(s, i + 1);
            lemma_simple_spans(s, e);
            let sp = simple_spans(s, i);
            let tail = simple_spans(s, e);
            assert(sp == seq![(i, e)] + tail);
            assert forall|k: int| 0 <= k < sp.len() implies i <= (#[trigger] sp[k]).0 < sp[k].1
                <= s.len() by {
                if k > 0 {
                    assert(sp[k] == tail[k - 1]);
                }
            }
            assert forall|k: int| 0 <= k < sp.len() - 1 implies (#[trigger] sp[k]).1 <= sp[k
                + 1].0 by {
                if k > 0 {
                    assert(sp[k] == tail[k - 1]);
                    assert(sp[k + 1] == tail[k]);
                } else {
                    if tail.len() > 0 {
                        assert(sp[1] == tail[0]);
                    }
                }
            }
        }
    }
}

/// The `k`-th simple token of `s`: its text is the `k`-th maximal run of
/// token characters, its offsets are the byte offsets of that run, its
/// position is `k`, and it occupies one position.
pub open spec fn simple_token_at(tok: Token, s: Seq<char>, k: int) -> bool {
    let sp = simple_spans(s, 0)[k];
    &&& tok.text@ == s.subrange(sp.0, sp.1)
    &&& tok.offset_from as int == byte_len(s.take(sp.0))
    &&& tok.offset_to as int == byte_len(s.take(sp.1))
    &&& tok.position == k
    &&& tok.position_length == 1
}

/// Cuts a text at every character that is not an ASCII letter or digit,
/// producing one token per maximal run of token characters, with exact byte
/// offsets and consecutive positions.
pub fn tokenize_simple(text: &str) -> (out: Vec<Token>)
    ensures
        out@.len() == simple_spans(text@, 0).len(),
        forall|k: int| 0 <= k < out@.len() ==> simple_token_at(#[trigger] out@[k], text@, k),
{
    let ghost s = text@;
    let total = text.as_bytes().len();
    let v = chars_of(text);
    let n = v.len();
    let mut out: Vec<Token> = Vec::new();
    let mut i: usize = 0;
    let mut off: usize = 0;
    proof {
        assert(s.take(0) =~= Seq::<char>::empty());
        assert(s.skip(0) =~= s);
        lemma_simple_spans(s, 0);
    }
    while i < n
        invariant
            n == s.len(),
            v@ == s,
            text@ == s,
            total == byte_len(s),
            i <= n,
            out@.len() <= i,
            out@.len() <= simple_spans(s, 0).len(),
            simple_spans(s, i as int) =~= simple_spans(s, 0).skip(out@.len() as int),
            off as int == byte_len(s.take(i as int)),
            off as int + byte_len(s.skip(i as int)) == total,
            forall|k: int| 0 <= k < out@.len() ==> simple_token_at(#[trigger] out@[k], s, k),
        decreases n - i,
    {
        let ghost spans = simple_spans(s, 0);
        let ghost done = out@.len() as int;
        let ghost old_i = i as int;
        let c = v[i];
        if token_char(c) {
            let mut e: usize = i + 1;
            proof {
                assert(next_sep(s, i as int) == next_sep(s, i as int + 1));
            }
            while e < n
                invariant
                    i < n,
                    n == s.len(),
                    v@ == s,
                    i + 1 <= e <= n,
                    next_sep(s, i as int) == next_sep(s, e as int),
                ensures
                    i + 1 <= e <= n,
                    next_sep(s, i as int) == next_sep(s, e as int),
                    e == n || !is_token_char(s[e as int]),
                decreases n - e,
            {
                if !token_char(v[e]) {
                    break;
                }
                e += 1;
            }
            proof {
                assert(next_sep(s, e as int) == e as int);
                assert(simple_spans(s, old_i) == seq![(old_i, e as int)] + simple_spans(
                    s,
                    e as int,
                ));
                assert(spans.skip(done).len() == spans.len() - done);
                assert(spans.skip(done)[0] == spans[done]);
                assert(spans[done] == (old_i, e as int));
            }
            let w = text.substring_char(i, e);
            let wlen = w.len();
            proof {
                assert(w@ == s.subrange(old_i, e as int));
                assert(s.skip(old_i) =~= s.subrange(old_i, e as int) + s.skip(e as int));
                lemma_byte_len_concat(s.subrange(old_i, e as int), s.skip(e as int));
                assert(off as int + wlen as int <= total as int);
                assert(s.take(e as int) =~= s.take(old_i) + s.subrange(old_i, e as int));
                lemma_byte_len_concat(s.take(old_i), s.subrange(old_i, e as int));
            }
            let tok = Token {
                text: w.to_owned(),
                offset_from: off,
                offset_to: off + wlen,
                position: out.len(),
                position_length: 1,
            };
            out.push(tok);
            off = off + wlen;
            i = e;
            proof {
                assert(spans.skip(done + 1) =~= spans.skip(done).skip(1));
                assert((seq![(old_i, e as int)] + simple_spans(s, e as int)).skip(1)
                    =~= simple_spans(s, e as int));
                assert(simple_spans(s, i as int) =~= simple_spans(s, 0).skip(
                    out@.len() as int,
                ));
                assert(simple_token_at(out@[done], s, done));
            }
        } else {
            let clen = char_len(c);
            proof {
                assert(simple_spans(s, old_i) == simple_spans(s, old_i + 1));
                assert(s.take(old_i + 1) =~= s.take(old_i) + seq![s[old_i]]);
                lemma_byte_len_concat(s.take(old_i), seq![s[old_i]]);
                lemma_byte_len_one(s[old_i]);
                assert(s.skip(old_i) =~= seq![s[old_i]] + s.skip(old_i + 1));
                lemma_byte_len_concat(seq![s[old_i]], s.skip(old_i + 1));
            }
            off = off + clen;
            i += 1;
        }
    }
    proof {
        assert(simple_spans(s, n as int).len() == 0);
        assert(simple_spans(s, 0).skip(out@.len() as int).len() == 0);
        assert(out@.len() == simple_spans(s, 0).len());
    }
    out
}

/// The number of words in the texts of the first `i` tokens.
pub open spec fn total_words(ts: Seq<Token>, i: int) -> int
    decreases i when 0 <= i <= ts.len()
{
    if i <= 0 {
        0
    } else {
        total_words(ts, i - 1) + split_spans(ts[i - 1].text@).len()
    }
}

/// The sub-tokens of the `i`-th input token stand in `out` starting at the
/// index `total_words(ts, i)`, with their positions advanced by the number
/// of extra sub-tokens that earlier input tokens produced.
pub open spec fn block_at(out: Seq<Token>, ts: Seq<Token>, i: int) -> bool {
    let base = total_words(ts, i);
    forall|j: int|
        0 <= j < split_spans(ts[i].text@).len() ==> sub_token_at(
            #[trigger] out[base + j],
            shift_token(ts[i], base - i),
            j,
        )
}

/// Runs the compound-identifier splitter over a whole token stream.
///
/// Each input token is replaced by its sub-tokens; the positions of later
/// sub-tokens are advanced by the number of extra sub-tokens that earlier
/// input tokens produced, so with consecutively positioned input tokens —
/// as the simple tokenizer emits them — positions stay strictly increasing
/// across the output stream (see `lemma_analyze_positions`).
#[verifier::rlimit(50)]
pub fn split_tokens(ts: &Vec<Token>) -> (out: Vec<Token>)
    requires
        forall|i: int| 0 <= i < ts@.len() ==> (#[trigger] ts@[i]).wf(),
        forall|i: int| 0 <= i < ts@.len() ==> (#[trigger] ts@[i]).text@.len() > 0,
        forall|i: int|
            0 <= i < ts@.len() ==> (#[trigger] ts@[i]).position as int + (total_words(ts@, i) - i)
                + ts@[i].text@.len() <= usize::MAX,
    ensures
        out@.len() == total_words(ts@, ts@.len() as int),
        forall|i: int| 0 <= i < ts@.len() ==> #[trigger] block_at(out@, ts@, i),
{
    let n = ts.len();
    let mut out: Vec<Token> = Vec::new();
    let mut i: usize = 0;
    while i < n
        invariant
            n == ts@.len(),
            i <= n,
            forall|k: int| 0 <= k < ts@.len() ==> (#[trigger] ts@[k]).wf(),
            forall|k: int| 0 <= k < ts@.len() ==> (#[trigger] ts@[k]).text@.len() > 0,
            forall|k: int|
                0 <= k < ts@.len() ==> (#[trigger] ts@[k]).position as int + (total_words(ts@, k)
                    - k) + ts@[k].text@.len() <= usize::MAX,
            i <= out@.len(),
            out@.len() == total_words(ts@, i as int),
            forall|k: int| 0 <= k < i ==> #[trigger] block_at(out@, ts@, k),
        decreases n - i,
    {
        let ghost base = out@.len() as int;
        let ghost old_out = out@;
        let t = &ts[i];
        let shift = out.len() - i;
        let shifted = Token {
            text: t.text.clone(),
            offset_from: t.offset_from,
            offset_to: t.offset_to,
            position: t.position + shift,
            position_length: t.position_length,
        };
        proof {
            assert(shifted == shift_token(ts@[i as int], base - i));
            crate::splitter::lemma_word_spans(shifted.text@, 0);
        }
        let mut subs = split_token(&shifted);
        let ghost subs_view = subs@;
        out.append(&mut subs);
        i += 1;
        proof {
            lemma_split_append(old_out, subs_view, ts@, i as int - 1);
        }
    }
    out
}

/// Appending the sub-tokens of the `i`-th input token extends a correct
/// output prefix for the first `i` input tokens to one for the first
/// `i + 1`.
proof fn lemma_split_append(old_out: Seq<Token>, subs: Seq<Token>, ts: Seq<Token>, i: int)
    requires
        0 <= i < ts.len(),
        old_out.len() == total_words(ts, i),
        forall|k: int| 0 <= k < i ==> #[trigger] block_at(old_out, ts, k),
        sub_tokens_of(subs, shift_token(ts[i], total_words(ts, i) - i)),
    ensures
        (old_out + subs).len() == total_words(ts, i + 1),
        forall|k: int| 0 <= k < i + 1 ==> #[trigger] block_at(old_out + subs, ts, k),
{
    let base = total_words(ts, i);
    let out = old_out + subs;
    assert(subs.len() == split_spans(ts[i].text@).len());
    assert(block_at(out, ts, i)) by {
        assert forall|j: int| 0 <= j < split_spans(ts[i].text@).len() implies sub_token_at(
            #[trigger] out[base + j],
            shift_token(ts[i], base - i),
            j,
        ) by {
            assert(out[base + j] == subs[j]);
        }
    }
    assert forall|k: int| 0 <= k < i implies #[trigger] block_at(out, ts, k) by {
        assert(block_at(old_out, ts, k));
        assert forall|j: int| 0 <= j < split_spans(ts[k].text@).len() implies sub_token_at(
            #[trigger] out[total_words(ts, k) + j],
            shift_token(ts[k], total_words(ts, k) - k),
            j,
        ) by {
            assert(total_words(ts, k + 1) == total_words(ts, k) + split_spans(ts[k].text@).len());
            lemma_total_words_mono(ts, 0, k);
            lemma_total_words_mono(ts, k + 1, i);
            assert(0 <= total_words(ts, k) + j < base);
            assert(out[total_words(ts, k) + j] == old_out[total_words(ts, k) + j]);
            assert(sub_token_at(
                old_out[total_words(ts, k) + j],
                shift_token(ts[k], total_words(ts, k) - k),
                j,
            ));
        }
    }
}

/// `total_words` never falls as the prefix grows.
proof fn lemma_total_words_mono(ts: Seq<Token>, i: int, j: int)
    requires
        0 <= i <= j <= ts.len(),
    ensures
        total_words(ts, i) <= total_words(ts, j),
    decreases j - i,
{
    if i < j {
        lemma_total_words_mono(ts, i, j - 1);
    }
}

/// `lt` is `t` with its text lowered and everything else unchanged.
pub open spec fn lowered_token(lt: Token, t: Token) -> bool {
    &&& lt.text@ == to_lower_seq(t.text@)
    &&& lt.offset_from == t.offset_from
    &&& lt.offset_to == t.offset_to
    &&& lt.position == t.position
    &&& lt.position_length == t.position_length
}

/// Lowers every token's text to ASCII lowercase, leaving offsets and
/// positions untouched.
pub fn lowercase_tokens(ts: &Vec<Token>) -> (out: Vec<Token>)
    ensures
        out@.len() == ts@.len(),
        forall|k: int| 0 <= k < ts@.len() ==> lowered_token(#[trigger] out@[k], ts@[k]),
{
    let mut out: Vec<Token> = Vec::new();
    let mut i: usize = 0;
    while i < ts.len()
        invariant
            i <= ts@.len(),
            out@.len() == i,
            forall|k: int| 0 <= k < i ==> lowered_token(#[trigger] out@[k], ts@[k]),
        decreases ts@.len() - i,
    {
        let t = &ts[i];
        let lt = Token {
            text: crate::chars::lower_string(t.text.as_str()),
            offset_from: t.offset_from,
            offset_to: t.offset_to,
            position: t.position,
            position_length: t.position_length,
        };
        out.push(lt);
        i += 1;
    }
    out
}

/// The text of the `k`-th simple token of `s`.
pub open spec fn span_text(s: Seq<char>, k: int) -> Seq<char> {
    s.subrange(simple_spans(s, 0)[k].0, simple_spans(s, 0)[k].1)
}

/// The number of words in the first `i` simple tokens of `s`.
pub open spec fn words_before(s: Seq<char>, i: int) -> int
    decreases i when 0 <= i
{
    if i <= 0 {
        0
    } else {
        words_before(s, i - 1) + split_spans(span_text(s, i - 1)).len()
    }
}

/// The `pascal` analyzer's token at flat index `words_before(s, i) + j`:
/// the lowered `j`-th word of the `i`-th simple token of `s`, with byte
/// offsets into `s` and a position advanced past all earlier words.
pub open spec fn pascal_token_at(tok: Token, s: Seq<char>, i: int, j: int) -> bool {
    let sp = simple_spans(s, 0)[i];
    let w = s.subrange(sp.0, sp.1);
    let wsp = split_spans(w)[j];
    &&& tok.text@ == to_lower_seq(w.subrange(wsp.0, wsp.1))
    &&& tok.offset_from as int == byte_len(s.take(sp.0)) + byte_len(w.take(wsp.0))
    &&& tok.offset_to as int == byte_len(s.take(sp.0)) + byte_len(w.take(wsp.1))
    &&& tok.position == words_before(s, i) + j
    &&& tok.position_length == 1
}

/// The words of the `i`-th simple token of `s` stand in `out` starting at
/// flat index `words_before(s, i)`.
pub open spec fn pascal_block_at(out: Seq<Token>, s: Seq<char>, i: int) -> bool {
    forall|j: int|
        0 <= j < split_spans(span_text(s, i)).len() ==> pascal_token_at(
            #[trigger] out[words_before(s, i) + j],
            s,
            i,
            j,
        )
}

/// The word counts of the simple tokens of `s` stay within the span chain:
/// all words of the first `i` simple tokens fit before the `i`-th span ends.
proof fn lemma_words_before_bound(s: Seq<char>, i: int)
    requires
        0 <= i <= simple_spans(s, 0).len(),
    ensures
        i <= words_before(s, i),
        i == 0 ==> words_before(s, i) == 0,
        i > 0 ==> words_before(s, i) <= simple_spans(s, 0)[i - 1].1,
    decreases i,
{
    lemma_simple_spans(s, 0);
    if i > 0 {
        lemma_words_before_bound(s, i - 1);
        let sp = simple_spans(s, 0)[i - 1];
        let w = span_text(s, i - 1);
        crate::splitter::lemma_word_spans(w, 0);
        assert(split_spans(w).len() >= 1);
        assert(split_spans(w).len() <= sp.1 - sp.0);
        if i >= 2 {
            assert(simple_spans(s, 0)[i - 2].1 <= sp.0);
        }
    }
}

/// The full `pascal` analyzer: simple tokenization, compound-identifier
/// splitting, and ASCII lowercasing, in that order.  The output holds, for
/// each maximal alphanumeric run of the text and each word of that run, one
/// lowered token with exact byte offsets into the text and strictly
/// increasing positions.
pub fn analyze_pascal(text: &str) -> (out: Vec<Token>)
    ensures
        out@.len() == words_before(text@, simple_spans(text@, 0).len() as int),
        forall|i: int|
            0 <= i < simple_spans(text@, 0).len() ==> #[trigger] pascal_block_at(out@, text@, i),
{
    let ghost s = text@;
    // Binding the byte length tells the prover that it fits in usize.
    let _byte_total = text.as_bytes().len();
    let simple = tokenize_simple(text);
    proof {
        lemma_simple_spans(s, 0);
        crate::chars::lemma_byte_len_ge_len(s);
        lemma_pipeline_requires(simple@, s);
    }
    let split = split_tokens(&simple);
    let out = lowercase_tokens(&split);
    proof {
        lemma_total_words_matches(simple@, s, simple@.len() as int);
        assert forall|i: int| 0 <= i < simple_spans(s, 0).len() implies #[trigger] pascal_block_at(
            out@,
            s,
            i,
        ) by {
            lemma_pascal_glue(out@, split@, simple@, s, i);
        }
    }
    out
}

/// Locates the simple token whose word block covers the flat index `k`.
proof fn lemma_locate_block(s: Seq<char>, k: int, i: int) -> (r: (int, int))
    requires
        0 <= i <= simple_spans(s, 0).len(),
        words_before(s, i) <= k < words_before(s, simple_spans(s, 0).len() as int),
    ensures
        i <= r.0 < simple_spans(s, 0).len(),
        0 <= r.1 < split_spans(span_text(s, r.0)).len(),
        k == words_before(s, r.0) + r.1,
    decreases simple_spans(s, 0).len() - i,
{
    let n = simple_spans(s, 0).len() as int;
    assert(i < n);
    if k < words_before(s, i + 1) {
        assert(words_before(s, i + 1) == words_before(s, i) + split_spans(span_text(s, i)).len());
        (i, k - words_before(s, i))
    } else {
        assert(words_before(s, i + 1) == words_before(s, i) + split_spans(span_text(s, i)).len());
        lemma_locate_block(s, k, i + 1)
    }
}

/// Across the whole `pascal` analyzer output, positions are exactly the
/// token indices: they start at zero and rise by one per emitted token.
pub proof fn lemma_analyze_positions(out: Seq<Token>, s: Seq<char>)
    requires
        out.len() == words_before(s, simple_spans(s, 0).len() as int),
        forall|i: int| 0 <= i < simple_spans(s, 0).len() ==> #[trigger] pascal_block_at(out, s, i),
    ensures
        forall|k: int| 0 <= k < out.len() ==> (#[trigger] out[k]).position == k,
{
    assert forall|k: int| 0 <= k < out.len() implies (#[trigger] out[k]).position == k by {
        assert(words_before(s, 0) == 0);
        let (i, j) = lemma_locate_block(s, k, 0);
        assert(pascal_block_at(out, s, i));
        assert(pascal_token_at(out[words_before(s, i) + j], s, i, j));
    }
}

/// Ties the three analysis stages together: for the `i`-th simple token of
/// `s`, the lowered split tokens stand in `out` as `pascal_token_at` says.
proof fn lemma_pascal_glue(out: Seq<Token>, split: Seq<Token>, simple: Seq<Token>, s: Seq<char>, i: int)
    requires
        byte_len(s) <= usize::MAX,
        simple.len() == simple_spans(s, 0).len(),
        forall|k: int| 0 <= k < simple.len() ==> simple_token_at(#[trigger] simple[k], s, k),
        0 <= i < simple.len(),
        block_at(split, simple, i),
        out.len() == split.len(),
        forall|k: int| 0 <= k < split.len() ==> lowered_token(#[trigger] out[k], split[k]),
        split.len() == total_words(simple, simple.len() as int),
    ensures
        pascal_block_at(out, s, i),
{
    lemma_simple_spans(s, 0);
    crate::chars::lemma_byte_len_ge_len(s);
    lemma_total_words_matches(simple, s, i);
    lemma_total_words_matches(simple, s, simple.len() as int);
    lemma_words_before_bound(s, i);
    let base = words_before(s, i);
    assert forall|j: int| 0 <= j < split_spans(span_text(s, i)).len() implies pascal_token_at(
        #[trigger] out[base + j],
        s,
        i,
        j,
    ) by {
        assert(simple_token_at(simple[i], s, i));
        assert(span_text(s, i) == simple[i].text@);
        assert(total_words(simple, i + 1) == total_words(simple, i) + split_spans(
            simple[i].text@,
        ).len());
        lemma_total_words_mono(simple, i + 1, simple.len() as int);
        assert(0 <= base + j < split.len());
        assert(sub_token_at(split[base + j], shift_token(simple[i], base - i), j));
        assert(lowered_token(out[base + j], split[base + j]));
    }
}

/// The simple tokens of `s` satisfy the requirements of `split_tokens`.
proof fn lemma_pipeline_requires(ts: Seq<Token>, s: Seq<char>)
    requires
        byte_len(s) <= usize::MAX,
        ts.len() == simple_spans(s, 0).len(),
        forall|k: int| 0 <= k < ts.len() ==> simple_token_at(#[trigger] ts[k], s, k),
    ensures
        forall|i: int| 0 <= i < ts.len() ==> (#[trigger] ts[i]).wf(),
        forall|i: int| 0 <= i < ts.len() ==> (#[trigger] ts[i]).text@.len() > 0,
        forall|i: int|
            0 <= i < ts.len() ==> (#[trigger] ts[i]).position as int + (total_words(ts, i) - i)
                + ts[i].text@.len() <= usize::MAX,
{
    lemma_simple_spans(s, 0);
    crate::chars::lemma_byte_len_ge_len(s);
    assert forall|i: int| 0 <= i < ts.len() implies (#[trigger] ts[i]).wf() && ts[i].text@.len()
        > 0 by {
        let sp = simple_spans(s, 0)[i];
        assert(s.take(sp.1) =~= s.take(sp.0) + s.subrange(sp.0, sp.1));
        lemma_byte_len_concat(s.take(sp.0), s.subrange(sp.0, sp.1));
    }
    assert forall|i: int| 0 <= i < ts.len() implies (#[trigger] ts[i]).position as int
        + (total_words(ts, i) - i) + ts[i].text@.len() <= usize::MAX by {
        lemma_total_words_matches(ts, s, i);
        lemma_words_before_bound(s, i);
        let sp = simple_spans(s, 0)[i];
        if i > 0 {
            assert(simple_spans(s, 0)[i - 1].1 <= sp.0);
        }
        assert(ts[i].position == i);
        assert(ts[i].text@.len() == sp.1 - sp.0);
        assert(words_before(s, i) + (sp.1 - sp.0) <= sp.1);
        assert(sp.1 <= s.len());
        crate::chars::lemma_byte_len_ge_len(s);
    }
}

/// Over simple tokens of `s`, `total_words` agrees with `words_before`.
proof fn lemma_total_words_matches(ts: Seq<Token>, s: Seq<char>, i: int)
    requires
        0 <= i <= ts.len(),
        ts.len() == simple_spans(s, 0).len(),
        forall|k: int| 0 <= k < ts.len() ==> simple_token_at(#[trigger] ts[k], s, k),
    ensures
        total_words(ts, i) == words_before(s, i),
    decreases i,
{
    if i > 0 {
        lemma_total_words_matches(ts, s, i - 1);
        assert(simple_token_at(ts[i - 1], s, i - 1));
        assert(ts[i - 1].text@ == span_text(s, i - 1));
    }
}

} // verus!
