//! The compound-identifier splitter.
//!
//! A token such as `HTMLContent` is segmented at case and digit transitions
//! into the words `HTML` and `Content`, each sub-token carrying exact byte
//! offsets into the original text and consecutive positions.

use vstd::prelude::*;
use crate::chars::{
    byte_len, chars_of, digit, is_digit, is_lower, is_upper, lemma_byte_len_concat,
    lemma_byte_len_pos, lower, upper,
};
use crate::token::{shift_token, Token};

verus! {

/// A word boundary stands before index `i` of `s` when one of these holds:
/// a lowercase-to-uppercase transition, the last uppercase letter of a run of
/// two or more uppercase letters that is immediately followed by a lowercase
/// letter, or a transition between a digit and a non-digit.
pub open spec fn is_boundary(s: Seq<char>, i: int) -> bool {
    &&& 1 <= i < s.len()
    &&& {
        ||| (is_lower(s[i - 1]) && is_upper(s[i]))
        ||| (is_upper(s[i - 1]) && is_upper(s[i]) && i + 1 < s.len() && is_lower(s[i + 1]))
        ||| (is_digit(s[i - 1]) != is_digit(s[i]))
    }
}

/// The least boundary index at or after `i`, or the length of `s` when no
/// boundary follows.
pub open spec fn next_boundary(s: Seq<char>, i: int) -> int
    decreases s.len() - i when 0 <= i <= s.len()
{
    if i >= s.len() {
        s.len() as int
    } else if is_boundary(s, i) {
        i
    } else {
        next_boundary(s, i + 1)
    }
}

pub proof fn lemma_next_boundary(s: Seq<char>, i: int)
    requires
        0 <= i <= s.len(),
    ensures
        i <= next_boundary(s, i) <= s.len(),
        forall|k: int| i <= k < next_boundary(s, i) ==> !is_boundary(s, k),
    decreases s.len() - i,
{
    if i < s.len() && !is_boundary(s, i) {
        lemma_next_boundary(s, i + 1);
    }
}

/// The spans `(start, end)` of the words of `s` from index `i` on, in order.
pub open spec fn word_spans(s: Seq<char>, i: int) -> Seq<(int, int)>
    decreases s.len() - i when 0 <= i <= s.len() via word_spans_decreases
{
    if i >= s.len() {
        Seq::empty()
    } else {
        seq![(i, next_boundary(s, i + 1))] + word_spans(s, next_boundary(s, i + 1))
    }
}

#[via_fn]
proof fn word_spans_decreases(s: Seq<char>, i: int) {
    if i < s.len() {
        lemma_next_boundary(s, i + 1);
    }
}

/// The word spans of a whole token text.
pub open spec fn split_spans(s: Seq<char>) -> Seq<(int, int)> {
    word_spans(s, 0)
}

/// Structural facts about the word spans of `s` from `i` on: the spans chain
/// without gaps from `i` to the end of `s`, each is nonempty, and none holds
/// an interior boundary.
pub proof fn lemma_word_spans(s: Seq<char>, i: int)
    requires
        0 <= i <= s.len(),
    ensures
        word_spans(s, i).len() <= s.len() - i,
        i < s.len() ==> word_spans(s, i).len() >= 1,
        i >= s.len() ==> word_spans(s, i).len() == 0,
        word_spans(s, i).len() > 0 ==> word_spans(s, i)[0].0 == i,
        word_spans(s, i).len() > 0 ==> word_spans(s, i)[word_spans(s, i).len() - 1].1
            == s.len(),
        forall|j: int|
            0 <= j < word_spans(s, i).len() ==> i <= (#[trigger] word_spans(s, i)[j]).0
                < word_spans(s, i)[j].1 <= s.len(),
        forall|j: int|
            0 <= j < word_spans(s, i).len() - 1 ==> (#[trigger] word_spans(s, i)[j]).1
                == word_spans(s, i)[j + 1].0,
    decreases s.len() - i,
{
    if i < s.len() {
        let e = next_boundary(s, i + 1);
        lemma_next_boundary(s, i + 1);
        lemma_word_spans(s, e);
        let sp = word_spans(s, i);
        let tail = word_spans(s, e);
        assert(sp == seq![(i, e)] + tail);
        assert forall|j: int| 0 <= j < sp.len() implies i <= (#[trigger] sp[j]).0 < sp[j].1
            <= s.len() by {
            if j > 0 {
                assert(sp[j] == tail[j - 1]);
            }
        }
        assert forall|j: int| 0 <= j < sp.len() - 1 implies (#[trigger] sp[j]).1 == sp[j + 1].0 by {
            if j > 0 {
                assert(sp[j] == tail[j - 1]);
                assert(sp[j + 1] == tail[j]);
            } else {
                if tail.len() > 0 {
                    assert(sp[1] == tail[0]);
                }
            }
        }
        if sp.len() > 0 {
            if tail.len() > 0 {
                assert(sp[sp.len() - 1] == tail[tail.len() - 1]);
            }
        }
    }
}

/// No word span of `s` holds an interior boundary.
pub proof fn lemma_word_span_interior(s: Seq<char>, i: int, j: int, k: int)
    requires
        0 <= i <= s.len(),
        0 <= j < word_spans(s, i).len(),
        word_spans(s, i)[j].0 < k < word_spans(s, i)[j].1,
    ensures
        !is_boundary(s, k),
    decreases s.len() - i,
{
    if i < s.len() {
        let e = next_boundary(s, i + 1);
        lemma_next_boundary(s, i + 1);
        if j == 0 {
            assert(word_spans(s, i)[0] == (i, e));
        } else {
            assert(word_spans(s, i)[j] == word_spans(s, e)[j - 1]);
            lemma_word_span_interior(s, e, j - 1, k);
        }
    }
}

/// The `j`-th sub-token of `t`: its text is the `j`-th word of `t`'s text,
/// its offsets stand at the byte offsets of that word within `t`'s range,
/// its position is `t`'s position advanced by `j`, and its position length
/// is `t`'s.
pub open spec fn sub_token_at(sub: Token, t: Token, j: int) -> bool {
    let s = t.text@;
    let sp = split_spans(s)[j];
    &&& sub.text@ == s.subrange(sp.0, sp.1)
    &&& sub.offset_from as int == t.offset_from as int + byte_len(s.take(sp.0))
    &&& sub.offset_to as int == t.offset_from as int + byte_len(s.take(sp.1))
    &&& sub.position as int == t.position as int + j
    &&& sub.position_length == t.position_length
}

/// `subs` is exactly the sequence of sub-tokens of `t`.
pub open spec fn sub_tokens_of(subs: Seq<Token>, t: Token) -> bool {
    &&& subs.len() == split_spans(t.text@).len()
    &&& forall|j: int| 0 <= j < subs.len() ==> sub_token_at(#[trigger] subs[j], t, j)
}

/// The sub-tokens of a well-formed token partition its offset range: the
/// first sub-token starts at the token's start offset, the last ends at its
/// end offset, consecutive sub-tokens meet with no gap or overlap, every
/// sub-token spans at least one byte, positions rise by exactly one per
/// sub-token, and every sub-token keeps the token's position length and is
/// itself well-formed.
pub proof fn lemma_sub_tokens_partition(subs: Seq<Token>, t: Token)
    requires
        t.wf(),
        sub_tokens_of(subs, t),
    ensures
        subs.len() > 0 ==> subs[0].offset_from == t.offset_from,
        subs.len() > 0 ==> subs[subs.len() - 1].offset_to == t.offset_to,
        forall|j: int|
            0 <= j < subs.len() - 1 ==> (#[trigger] subs[j]).offset_to == subs[j + 1].offset_from,
        forall|j: int| 0 <= j < subs.len() ==> (#[trigger] subs[j]).offset_from < subs[j].offset_to,
        forall|j: int|
            0 <= j < subs.len() ==> (#[trigger] subs[j]).position as int == t.position as int + j,
        forall|j: int|
            0 <= j < subs.len() ==> (#[trigger] subs[j]).position_length == t.position_length,
        forall|j: int| 0 <= j < subs.len() ==> (#[trigger] subs[j]).wf(),
{
    let s = t.text@;
    let sp = split_spans(s);
    lemma_word_spans(s, 0);
    if subs.len() > 0 {
        assert(s.take(0) =~= Seq::<char>::empty());
        assert(s.take(s.len() as int) =~= s);
        assert(sub_token_at(subs[0], t, 0));
        assert(sub_token_at(subs[subs.len() - 1], t, subs.len() - 1));
    }
    assert forall|j: int| 0 <= j < subs.len() implies (#[trigger] subs[j]).offset_from
        < subs[j].offset_to && subs[j].wf() by {
        assert(sub_token_at(subs[j], t, j));
        let (a, b) = sp[j];
        assert(s.take(b) =~= s.take(a) + s.subrange(a, b));
        lemma_byte_len_concat(s.take(a), s.subrange(a, b));
        lemma_byte_len_pos(s.subrange(a, b));
    }
    assert forall|j: int| 0 <= j < subs.len() - 1 implies (#[trigger] subs[j]).offset_to == subs[j
        + 1].offset_from by {
        assert(sub_token_at(subs[j], t, j));
        assert(sub_token_at(subs[j + 1], t, j + 1));
    }
}

/// No boundary stands after the given index.
proof fn lemma_next_boundary_clear(s: Seq<char>, i: int)
    requires
        0 <= i <= s.len(),
        forall|k: int| i <= k < s.len() ==> !is_boundary(s, k),
    ensures
        next_boundary(s, i) == s.len(),
    decreases s.len() - i,
{
    if i < s.len() {
        lemma_next_boundary_clear(s, i + 1);
    }
}

/// Splitting is idempotent: a word cut out of a token's text holds no
/// boundary of its own, so splitting it again yields that single word.
pub proof fn lemma_split_idempotent(s: Seq<char>, j: int)
    requires
        0 <= j < split_spans(s).len(),
    ensures
        split_spans(s.subrange(split_spans(s)[j].0, split_spans(s)[j].1)) =~= seq![
            (0, split_spans(s)[j].1 - split_spans(s)[j].0),
        ],
{
    lemma_word_spans(s, 0);
    let (a, b) = split_spans(s)[j];
    let w = s.subrange(a, b);
    assert forall|k: int| 1 <= k < w.len() implies !is_boundary(w, k) by {
        assert(w[k - 1] == s[a + k - 1]);
        assert(w[k] == s[a + k]);
        if k + 1 < w.len() {
            assert(w[k + 1] == s[a + k + 1]);
        }
        lemma_word_span_interior(s, 0, j, a + k);
        if is_boundary(w, k) {
            assert(is_boundary(s, a + k));
        }
    }
    lemma_next_boundary_clear(w, 1);
    assert(word_spans(w, 0) == seq![(0, w.len() as int)] + word_spans(w, w.len() as int));
    assert(word_spans(w, w.len() as int) =~= Seq::<(int, int)>::empty());
    assert(split_spans(w) =~= seq![(0, b - a)]);
}

/// Decides whether a word boundary stands before index `i` of `v`.
fn boundary_at(v: &Vec<char>, i: usize) -> (b: bool)
    requires
        1 <= i < v@.len(),
    ensures
        b == is_boundary(v@, i as int),
{
    let n = v.len();
    let a = v[i - 1];
    let c = v[i];
    if lower(a) && upper(c) {
        true
    } else if upper(a) && upper(c) && i < n - 1 && lower(v[i + 1]) {
        true
    } else {
        digit(a) != digit(c)
    }
}

/// Splits a token at the word boundaries of its text.
///
/// The sub-tokens' offset ranges partition the token's offset range with no
/// gaps or overlaps, their positions rise by one per sub-token starting at
/// the token's own position, and each keeps the token's position length.
/// A token whose text holds no boundary comes back as a single sub-token; an
/// empty text yields no sub-tokens.
pub fn split_token(t: &Token) -> (out: Vec<Token>)
    requires
        t.wf(),
        t.position as int + t.text@.len() <= usize::MAX,
    ensures
        sub_tokens_of(out@, *t),
{
    let ghost s = t.text@;
    let v = chars_of(t.text.as_str());
    let n = v.len();
    let mut out: Vec<Token> = Vec::new();
    let mut start: usize = 0;
    let mut off: usize = t.offset_from;
    proof {
        assert(s.take(0) =~= Seq::<char>::empty());
        assert(byte_len(s.take(0)) == 0);
        assert(s.skip(0) =~= s);
        lemma_word_spans(s, 0);
    }
    while start < n
        invariant
            n == s.len(),
            v@ == s,
            t.text@ == s,
            t.wf(),
            t.position as int + s.len() <= usize::MAX,
            start <= n,
            out@.len() <= start,
            out@.len() <= split_spans(s).len(),
            word_spans(s, start as int) =~= split_spans(s).skip(out@.len() as int),
            off as int == t.offset_from as int + byte_len(s.take(start as int)),
            off as int + byte_len(s.skip(start as int)) == t.offset_to as int,
            forall|j: int| 0 <= j < out@.len() ==> sub_token_at(#[trigger] out@[j], *t, j),
        decreases n - start,
    {
        let ghost spans = split_spans(s);
        let ghost done = out@.len() as int;
        let ghost old_start = start as int;
        // Find the end of the word that starts at `start`.
        let mut e: usize = start + 1;
        while e < n
            invariant
                start < n,
                n == s.len(),
                v@ == s,
                start + 1 <= e <= n,
                next_boundary(s, start as int + 1) == next_boundary(s, e as int),
            ensures
                start + 1 <= e <= n,
                next_boundary(s, start as int + 1) == next_boundary(s, e as int),
                e == n || is_boundary(s, e as int),
            decreases n - e,
        {
            if boundary_at(&v, e) {
                break;
            }
            e += 1;
        }
        proof {
            assert(next_boundary(s, e as int) == e as int);
            lemma_next_boundary(s, start as int + 1);
            assert(word_spans(s, start as int) == seq![(start as int, e as int)] + word_spans(
                s,
                e as int,
            ));
            assert(spans.skip(done).len() == spans.len() - done);
            assert(spans.skip(done)[0] == spans[done]);
            assert(spans[done] == (start as int, e as int));
        }
        let w = t.text.as_str().substring_char(start, e);
        let wlen = w.len();
        proof {
            assert(w@ == s.subrange(start as int, e as int));
            assert(s.skip(start as int) =~= s.subrange(start as int, e as int) + s.skip(e as int));
            lemma_byte_len_concat(s.subrange(start as int, e as int), s.skip(e as int));
            assert(off as int + wlen as int <= t.offset_to as int);
            assert(s.take(e as int) =~= s.take(start as int) + s.subrange(
                start as int,
                e as int,
            ));
            lemma_byte_len_concat(s.take(start as int), s.subrange(start as int, e as int));
            lemma_word_spans(s, 0);
        }
        let sub = Token {
            text: w.to_owned(),
            offset_from: off,
            offset_to: off + wlen,
            position: t.position + out.len(),
            position_length: t.position_length,
        };
        out.push(sub);
        off = off + wlen;
        start = e;
        proof {
            assert(spans.skip(done + 1) =~= spans.skip(done).skip(1));
            assert((seq![(old_start, e as int)] + word_spans(s, e as int)).skip(1)
                =~= word_spans(s, e as int));
            assert(word_spans(s, start as int) =~= split_spans(s).skip(out@.len() as int));
            assert(sub_token_at(out@[done], *t, done));
            assert(forall|j: int|
                0 <= j < out@.len() ==> sub_token_at(#[trigger] out@[j], *t, j));
        }
    }
    proof {
        assert(s.skip(n as int) =~= Seq::<char>::empty());
        assert(word_spans(s, n as int).len() == 0);
        assert(split_spans(s).skip(out@.len() as int).len() == 0);
        assert(out@.len() == split_spans(s).len());
    }
    out
}

/// The compound-identifier token filter.  `transform` wraps an upstream
/// token stream in a stream that hands out the split sub-tokens.  The
/// filter holds no state and may wrap any number of streams.
#[derive(Clone, Copy)]
pub struct PascalSplitter;

impl PascalSplitter {
    /// Wraps an upstream token stream in a splitting stream.
    pub fn transform(&self, upstream: Vec<Token>) -> (st: PascalSplitterStream)
        ensures
            st.inv(),
            st.upstream == upstream,
            st.pulled == 0,
            st.pending@.len() == 0,
            st.emitted == 0,
            st.shift == 0,
            !st.done,
    {
        PascalSplitterStream::new(upstream)
    }
}

/// The streaming state machine behind `PascalSplitter`.
///
/// Each `advance` call emits the next pending sub-token, pulling and
/// splitting the next upstream token when none is pending.  The positions of
/// sub-tokens of later upstream tokens are advanced by the number of extra
/// sub-tokens that earlier upstream tokens produced, so with consecutively
/// positioned upstream tokens the emitted positions rise by one per
/// sub-token.  An upstream token that is ill-formed, splits into no words,
/// or would push a position past the machine's range ends the stream, for
/// safety.
pub struct PascalSplitterStream {
    /// The upstream tokens, in order.
    pub upstream: Vec<Token>,
    /// How many upstream tokens have been pulled.
    pub pulled: usize,
    /// The sub-tokens of the last pulled upstream token.
    pub pending: Vec<Token>,
    /// How many of `pending` have been emitted.
    pub emitted: usize,
    /// The token emitted by the last successful `advance`.
    pub token: Token,
    /// The position shift applied to the last pulled upstream token.
    pub shift: usize,
    /// Whether the stream has ended.
    pub done: bool,
}

impl PascalSplitterStream {
    /// The stream's invariant: the pending tokens are exactly the
    /// sub-tokens of the last pulled upstream token, position-shifted.
    pub open spec fn inv(self) -> bool {
        &&& self.pulled <= self.upstream@.len()
        &&& self.emitted <= self.pending@.len()
        &&& (self.pulled == 0 ==> self.pending@.len() == 0)
        &&& (self.pulled > 0 && !self.done ==> sub_tokens_of(
            self.pending@,
            shift_token(self.upstream@[self.pulled - 1], self.shift as int),
        ))
        &&& (self.pulled > 0 && !self.done ==> self.pending@.len() >= 1)
    }

    /// The position shift the next pulled upstream token would get: the
    /// shift so far plus the extra sub-tokens of the last pulled token.
    pub open spec fn next_shift(self) -> int {
        if self.pulled == 0 {
            0
        } else {
            self.shift + self.pending@.len() - 1
        }
    }

    /// The next upstream token exists and can be pulled: it is
    /// well-formed, splits into at least one word, and its shifted
    /// positions stay within the machine's range.
    pub open spec fn can_pull(self) -> bool {
        &&& self.pulled < self.upstream@.len()
        &&& self.next_shift() <= usize::MAX
        &&& {
            let t = self.upstream@[self.pulled as int];
            &&& t.wf()
            &&& t.position + self.next_shift() <= usize::MAX
            &&& t.position + self.next_shift() + byte_len(t.text@) <= usize::MAX
            &&& split_spans(t.text@).len() >= 1
        }
    }

    /// Builds a stream over the given upstream tokens; nothing is pulled or
    /// emitted yet.
    pub fn new(upstream: Vec<Token>) -> (st: PascalSplitterStream)
        ensures
            st.inv(),
            st.upstream == upstream,
            st.pulled == 0,
            st.pending@.len() == 0,
            st.emitted == 0,
            st.shift == 0,
            !st.done,
    {
        PascalSplitterStream {
            upstream,
            pulled: 0,
            pending: Vec::new(),
            emitted: 0,
            token: Token::new(String::new(), 0, 0, 0, 1),
            shift: 0,
            done: false,
        }
    }

    /// Emits the next sub-token into `self.token`, pulling and splitting
    /// the next upstream token when no sub-token is pending.  Returns
    /// false exactly when the stream is exhausted: it has ended, or
    /// nothing is pending and no further upstream token can be pulled;
    /// a false return ends the stream for good.
    pub fn advance(&mut self) -> (more: bool)
        requires
            old(self).inv(),
        ensures
            final(self).inv(),
            final(self).upstream == old(self).upstream,
            more == (!old(self).done && (old(self).emitted < old(self).pending@.len() || old(
                self,
            ).can_pull())),
            !more ==> final(self).done,
            more && old(self).emitted < old(self).pending@.len() ==> {
                &&& final(self).pulled == old(self).pulled
                &&& final(self).pending == old(self).pending
                &&& final(self).shift == old(self).shift
                &&& final(self).emitted == old(self).emitted + 1
                &&& final(self).token == old(self).pending@[old(self).emitted as int]
                &&& !final(self).done
            },
            more && old(self).emitted >= old(self).pending@.len() ==> {
                &&& final(self).pulled == old(self).pulled + 1
                &&& final(self).shift == old(self).next_shift()
                &&& sub_tokens_of(
                    final(self).pending@,
                    shift_token(
                        old(self).upstream@[old(self).pulled as int],
                        old(self).next_shift(),
                    ),
                )
                &&& final(self).emitted == 1
                &&& final(self).token == final(self).pending@[0]
                &&& !final(self).done
            },
    {
        if self.done {
            return false;
        }
        if self.emitted >= self.pending.len() {
            if self.pulled >= self.upstream.len() {
                self.done = true;
                return false;
            }
            let next_shift: usize = if self.pulled == 0 {
                0
            } else {
                let extra = self.pending.len() - 1;
                if extra > usize::MAX - self.shift {
                    self.done = true;
                    return false;
                }
                self.shift + extra
            };
            let t = self.upstream[self.pulled].duplicate();
            let blen = t.text.as_str().as_bytes().len();
            if !(t.offset_from <= t.offset_to && t.offset_to - t.offset_from == blen) {
                self.done = true;
                return false;
            }
            if t.position > usize::MAX - next_shift {
                self.done = true;
                return false;
            }
            let pos2 = t.position + next_shift;
            if blen > usize::MAX - pos2 {
                self.done = true;
                return false;
            }
            proof {
                crate::chars::lemma_byte_len_ge_len(t.text@);
            }
            let shifted = Token {
                text: t.text,
                offset_from: t.offset_from,
                offset_to: t.offset_to,
                position: pos2,
                position_length: t.position_length,
            };
            proof {
                assert(shifted == shift_token(
                    self.upstream@[self.pulled as int],
                    next_shift as int,
                ));
            }
            let subs = split_token(&shifted);
            if subs.len() == 0 {
                self.done = true;
                self.pending = subs;
                self.emitted = 0;
                self.shift = next_shift;
                self.pulled = self.pulled + 1;
                return false;
            }
            self.pending = subs;
            self.emitted = 0;
            self.shift = next_shift;
            self.pulled = self.pulled + 1;
        }
        let tok = self.pending[self.emitted].duplicate();
        self.token = tok;
        self.emitted += 1;
        true
    }

    /// The token emitted by the last successful `advance`.
    pub fn token(&self) -> (t: &Token)
        ensures
            *t == self.token,
    {
        &self.token
    }
}

} // verus!