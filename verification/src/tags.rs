//! Storage format for tag lists.
//!
//! A record's tags are stored as a single space-joined string and
//! reconstructed by splitting on spaces, trimming each fragment and
//! discarding empty fragments.  Tags that are empty, whitespace-only or hold
//! internal whitespace cannot round-trip through this format; that is an
//! accepted limitation of the storage format.

use vstd::prelude::*;
use crate::chars::{chars_of, is_space, space};

verus! {

/// The tags joined with single spaces.
pub open spec fn join_spec(tags: Seq<Seq<char>>) -> Seq<char>
    decreases tags.len(),
{
    if tags.len() == 0 {
        Seq::empty()
    } else if tags.len() == 1 {
        tags[0]
    } else {
        tags[0] + seq![' '] + join_spec(tags.drop_first())
    }
}

/// The least index at or after `i` that holds a space, or the length of `s`.
pub open spec fn next_space(s: Seq<char>, i: int) -> int
    decreases s.len() - i when 0 <= i <= s.len()
{
    if i >= s.len() {
        s.len() as int
    } else if s[i] == ' ' {
        i
    } else {
        next_space(s, i + 1)
    }
}

pub proof fn lemma_next_space(s: Seq<char>, i: int)
    requires
        0 <= i <= s.len(),
    ensures
        i <= next_space(s, i) <= s.len(),
        forall|k: int| i <= k < next_space(s, i) ==> s[k] != ' ',
        next_space(s, i) < s.len() ==> s[next_space(s, i)] == ' ',
    decreases s.len() - i,
{
    if i < s.len() && s[i] != ' ' {
        lemma_next_space(s, i + 1);
    }
}

/// `s` with its leading ASCII whitespace removed.
pub open spec fn lstrip(s: Seq<char>) -> Seq<char>
    decreases s.len(),
{
    if s.len() > 0 && is_space(s[0]) {
        lstrip(s.drop_first())
    } else {
        s
    }
}

/// `s` with its trailing ASCII whitespace removed.
pub open spec fn rstrip(s: Seq<char>) -> Seq<char>
    decreases s.len(),
{
    if s.len() > 0 && is_space(s.last()) {
        rstrip(s.drop_last())
    } else {
        s
    }
}

/// `s` with its surrounding ASCII whitespace removed.
pub open spec fn trim_spec(s: Seq<char>) -> Seq<char> {
    rstrip(lstrip(s))
}

pub proof fn lemma_lstrip_range(s: Seq<char>, a: int)
    requires
        0 <= a <= s.len(),
        forall|k: int| 0 <= k < a ==> is_space(s[k]),
        a < s.len() ==> !is_space(s[a]),
    ensures
        lstrip(s) =~= s.skip(a),
    decreases a,
{
    if a > 0 {
        assert(is_space(s[0]));
        assert forall|k: int| 0 <= k < a - 1 implies is_space(#[trigger] s.drop_first()[k]) by {
            assert(s.drop_first()[k] == s[k + 1]);
        }
        lemma_lstrip_range(s.drop_first(), a - 1);
        assert(s.drop_first().skip(a - 1) =~= s.skip(a));
    } else {
        assert(s.skip(0) =~= s);
    }
}

pub proof fn lemma_rstrip_range(s: Seq<char>, b: int)
    requires
        0 <= b <= s.len(),
        forall|k: int| b <= k < s.len() ==> is_space(s[k]),
        b > 0 ==> !is_space(s[b - 1]),
    ensures
        rstrip(s) =~= s.take(b),
    decreases s.len() - b,
{
    if b < s.len() {
        assert(is_space(s.last()));
        assert forall|k: int| b <= k < s.drop_last().len() implies is_space(
            #[trigger] s.drop_last()[k],
        ) by {
            assert(s.drop_last()[k] == s[k]);
        }
        lemma_rstrip_range(s.drop_last(), b);
        assert(s.drop_last().take(b) =~= s.take(b));
    } else {
        assert(s.take(s.len() as int) =~= s);
    }
}

/// A sequence with no whitespace at all is untouched by trimming.
pub proof fn lemma_trim_clean(s: Seq<char>)
    requires
        forall|k: int| 0 <= k < s.len() ==> !is_space(s[k]),
    ensures
        trim_spec(s) == s,
{
    lemma_lstrip_range(s, 0);
    assert(s.skip(0) =~= s);
    lemma_rstrip_range(s, s.len() as int);
    assert(s.take(s.len() as int) =~= s);
}

/// The reconstructed tag list of a stored tags string: the fragments
/// between spaces, trimmed, with empty fragments discarded, from `i` on.
pub open spec fn split_tags_spec(s: Seq<char>, i: int) -> Seq<Seq<char>>
    decreases s.len() - i when 0 <= i <= s.len() via split_tags_spec_decreases
{
    let e = next_space(s, i);
    let t = trim_spec(s.subrange(i, e));
    let head: Seq<Seq<char>> = if t.len() > 0 {
        seq![t]
    } else {
        Seq::empty()
    };
    if e >= s.len() {
        head
    } else {
        head + split_tags_spec(s, e + 1)
    }
}

#[via_fn]
proof fn split_tags_spec_decreases(s: Seq<char>, i: int) {
    lemma_next_space(s, i);
}

/// `next_space` finds exactly the position after a clear run.
proof fn lemma_next_space_at(s: Seq<char>, i: int, e: int)
    requires
        0 <= i <= e <= s.len(),
        forall|k: int| i <= k < e ==> s[k] != ' ',
        e < s.len() ==> s[e] == ' ',
    ensures
        next_space(s, i) == e,
    decreases e - i,
{
    if i < e {
        lemma_next_space_at(s, i + 1, e);
    }
}

/// The round trip from `i` on: when the suffix of `s` is the join of `ts`,
/// splitting the suffix reproduces `ts`.
proof fn lemma_round_trip_from(s: Seq<char>, i: int, ts: Seq<Seq<char>>)
    requires
        0 <= i <= s.len(),
        s.skip(i) =~= join_spec(ts),
        forall|k: int| 0 <= k < ts.len() ==> (#[trigger] ts[k]).len() > 0,
        forall|k: int, c: int|
            0 <= k < ts.len() && 0 <= c < ts[k].len() ==> !is_space(#[trigger] ts[k][c]),
    ensures
        split_tags_spec(s, i) =~~= ts,
    decreases ts.len(),
{
    if ts.len() == 0 {
        assert(s.skip(i).len() == 0);
        assert(i == s.len());
        assert(next_space(s, i) == i);
        assert(s.subrange(i, i) =~= Seq::<char>::empty());
        lemma_trim_clean(Seq::<char>::empty());
    } else {
        let t0 = ts[0];
        let e = i + t0.len();
        if ts.len() == 1 {
            assert(join_spec(ts) == t0);
        } else {
            assert(join_spec(ts) =~= t0 + seq![' '] + join_spec(ts.drop_first()));
        }
        assert(s.skip(i).len() >= t0.len());
        assert(e <= s.len());
        assert forall|k: int| i <= k < e implies s[k] != ' ' by {
            assert(s[k] == s.skip(i)[k - i]);
            assert(join_spec(ts)[k - i] == t0[k - i]);
            assert(!is_space(t0[k - i]));
        }
        if ts.len() == 1 {
            assert(s.skip(i).len() == t0.len());
            assert(e == s.len());
            lemma_next_space_at(s, i, e);
            assert(s.subrange(i, e) =~= t0);
            lemma_trim_clean(t0);
            assert(split_tags_spec(s, i) =~~= seq![t0]);
            assert(seq![t0] =~~= ts);
        } else {
            let rest = ts.drop_first();
            assert(join_spec(ts) =~= t0 + seq![' '] + join_spec(rest));
            assert(s[e] == s.skip(i)[t0.len() as int]);
            assert(s[e] == ' ');
            assert(e < s.len());
            lemma_next_space_at(s, i, e);
            assert(s.subrange(i, e) =~= t0);
            lemma_trim_clean(t0);
            assert(s.skip(e + 1) =~= s.skip(i).skip(t0.len() as int + 1));
            assert((t0 + seq![' '] + join_spec(rest)).skip(t0.len() as int + 1) =~= join_spec(rest));
            assert(s.skip(e + 1) =~= join_spec(rest));
            assert forall|k: int, c: int|
                0 <= k < rest.len() && 0 <= c < rest[k].len() implies !is_space(
                #[trigger] rest[k][c],
            ) by {
                assert(rest[k] == ts[k + 1]);
            }
            lemma_round_trip_from(s, e + 1, rest);
            assert(split_tags_spec(s, i) =~~= seq![t0] + split_tags_spec(s, e + 1));
            assert(seq![t0] + rest =~~= ts);
        }
    }
}

/// Joining a tag list with single spaces and then splitting on spaces,
/// trimming and discarding empty fragments reproduces the original tags in
/// their original order, provided every tag is nonempty and holds no
/// whitespace.
pub proof fn lemma_tags_round_trip(tags: Seq<Seq<char>>)
    requires
        forall|k: int| 0 <= k < tags.len() ==> (#[trigger] tags[k]).len() > 0,
        forall|k: int, c: int|
            0 <= k < tags.len() && 0 <= c < tags[k].len() ==> !is_space(#[trigger] tags[k][c]),
    ensures
        split_tags_spec(join_spec(tags), 0) =~~= tags,
{
    let s = join_spec(tags);
    assert(s.skip(0) =~= s);
    lemma_round_trip_from(s, 0, tags);
}

/// Joins a tag list with single spaces.
pub fn join_tags(tags: &Vec<String>) -> (r: String)
    ensures
        r@ == join_spec(tags.deep_view()),
{
    let ghost views = tags.deep_view();
    let mut r = String::new();
    let mut i: usize = 0;
    proof {
        assert(views.len() == tags@.len());
    }
    while i < tags.len()
        invariant
            i <= tags@.len(),
            views == tags.deep_view(),
            views.len() == tags@.len(),
            forall|k: int| 0 <= k < tags@.len() ==> views[k] == tags@[k]@,
            i == 0 ==> r@ =~= Seq::<char>::empty(),
            0 < i < tags@.len() ==> join_spec(views) =~= r@ + seq![' '] + join_spec(
                views.skip(i as int),
            ),
            i == tags@.len() && i > 0 ==> r@ =~= join_spec(views),
        decreases tags@.len() - i,
    {
        if i > 0 {
            r.append(" ");
            proof {
                reveal_strlit(" ");
            }
        }
        r.append(tags[i].as_str());
        i += 1;
        proof {
            if i < tags@.len() {
                assert(views.skip(i as int - 1).drop_first() =~= views.skip(i as int));
                assert(join_spec(views.skip(i as int - 1)) =~= views[i as int - 1] + seq![' ']
                    + join_spec(views.skip(i as int)));
            } else {
                if i as int - 1 > 0 {
                    assert(views.skip(i as int - 1) =~= seq![views[i as int - 1]]);
                    assert(join_spec(views.skip(i as int - 1)) =~= views[i as int - 1]);
                } else {
                    assert(views.skip(0) =~= views);
                }
            }
        }
    }
    proof {
        if tags@.len() == 0 {
            assert(r@ =~= join_spec(views));
        }
    }
    r
}

/// Trims surrounding ASCII whitespace from a string.
pub fn trim_str(text: &str) -> (r: String)
    ensures
        r@ == trim_spec(text@),
{
    let ghost s = text@;
    let v = chars_of(text);
    let n = v.len();
    let mut a: usize = 0;
    while a < n && space(v[a])
        invariant
            a <= n,
            n == s.len(),
            v@ == s,
            forall|k: int| 0 <= k < a ==> is_space(s[k]),
        decreases n - a,
    {
        a += 1;
    }
    let mut b: usize = n;
    while b > a && space(v[b - 1])
        invariant
            a <= b <= n,
            n == s.len(),
            v@ == s,
            forall|k: int| b <= k < n ==> is_space(s[k]),
        decreases b,
    {
        b -= 1;
    }
    proof {
        lemma_lstrip_range(s, a as int);
        let ls = s.skip(a as int);
        assert forall|k: int| b - a <= k < ls.len() implies is_space(#[trigger] ls[k]) by {
            assert(ls[k] == s[a + k]);
        }
        if b > a {
            assert(ls[b - a - 1] == s[b as int - 1]);
        }
        lemma_rstrip_range(ls, b - a as int);
        assert(trim_spec(s) =~= ls.take(b - a as int));
        assert(trim_spec(s) =~= s.subrange(a as int, b as int));
    }
    let r = text.substring_char(a, b);
    r.to_owned()
}

/// Splits a stored tags string on spaces, trims each fragment and discards
/// empty fragments, reconstructing the tag list.
pub fn split_tags(stored: &str) -> (out: Vec<String>)
    ensures
        out.deep_view() == split_tags_spec(stored@, 0),
{
    let ghost s = stored@;
    let v = chars_of(stored);
    let n = v.len();
    let mut out: Vec<String> = Vec::new();
    let mut i: usize = 0;
    let mut finished = false;
    while !finished
        invariant
            n == s.len(),
            v@ == s,
            stored@ == s,
            i <= n,
            finished ==> out.deep_view() =~= split_tags_spec(s, 0),
            !finished ==> split_tags_spec(s, 0) =~= out.deep_view() + split_tags_spec(
                s,
                i as int,
            ),
        decreases n - i + (if finished { 0int } else { 1int }),
    {
        let ghost old_i = i as int;
        // Find the end of the current fragment.
        let mut e: usize = i;
        while e < n
            invariant
                i <= e <= n,
                n == s.len(),
                v@ == s,
                next_space(s, i as int) == next_space(s, e as int),
            ensures
                i <= e <= n,
                next_space(s, i as int) == next_space(s, e as int),
                e == n || s[e as int] == ' ',
            decreases n - e,
        {
            if v[e] == ' ' {
                break;
            }
            e += 1;
        }
        proof {
            assert(next_space(s, e as int) == e as int);
        }
        // Trim the fragment in place.
        let mut a: usize = i;
        while a < e && space(v[a])
            invariant
                i <= a <= e <= n,
                n == s.len(),
                v@ == s,
                forall|k: int| i <= k < a ==> is_space(s[k]),
            decreases e - a,
        {
            a += 1;
        }
        let mut b: usize = e;
        while b > a && space(v[b - 1])
            invariant
                a <= b <= e <= n,
                n == s.len(),
                v@ == s,
                forall|k: int| b <= k < e ==> is_space(s[k]),
            decreases b,
        {
            b -= 1;
        }
        let ghost frag = s.subrange(old_i, e as int);
        proof {
            assert forall|k: int| 0 <= k < a - old_i implies is_space(#[trigger] frag[k]) by {
                assert(frag[k] == s[old_i + k]);
            }
            if a < e {
                assert(frag[a - old_i] == s[a as int]);
            }
            lemma_lstrip_range(frag, a - old_i);
            let lf = frag.skip(a - old_i);
            assert forall|k: int| b - a <= k < lf.len() implies is_space(#[trigger] lf[k]) by {
                assert(lf[k] == s[a + k]);
            }
            if b > a {
                assert(lf[b - a - 1] == s[b as int - 1]);
            }
            lemma_rstrip_range(lf, b - a as int);
            assert(trim_spec(frag) =~= lf.take(b - a as int));
            assert(trim_spec(frag) =~= s.subrange(a as int, b as int));
        }
        if b > a {
            let t = stored.substring_char(a, b);
            out.push(t.to_owned());
            proof {
                assert(out.deep_view() =~= out.deep_view().take(out@.len() - 1).push(
                    s.subrange(a as int, b as int),
                ));
            }
        }
        proof {
            let e_i = e as int;
            if e_i >= s.len() {
                assert(split_tags_spec(s, old_i) =~= if trim_spec(frag).len() > 0 {
                    seq![trim_spec(frag)]
                } else {
                    Seq::<Seq<char>>::empty()
                });
            }
        }
        if e >= n {
            finished = true;
            proof {
                assert(out.deep_view() =~= split_tags_spec(s, 0));
            }
        } else {
            i = e + 1;
            proof {
                assert(split_tags_spec(s, old_i) =~= (if trim_spec(frag).len() > 0 {
                    seq![trim_spec(frag)]
                } else {
                    Seq::<Seq<char>>::empty()
                }) + split_tags_spec(s, i as int));
                assert(split_tags_spec(s, 0) =~= out.deep_view() + split_tags_spec(s, i as int));
            }
        }
    }
    out
}

} // verus!
