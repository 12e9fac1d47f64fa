//! Gallery metadata extraction.
//!
//! Gallery module metadata arrives as heterogeneous structured documents
//! whose field names vary in spelling.  The ingestion edge parses the raw
//! documents and hands them in as `Meta` values; this module holds the
//! prioritized candidate-key lookups and the record assembly.  A missing
//! or blank value is represented by the `None` sentinel.

use vstd::prelude::*;
use crate::cmdlet::Cmdlet;
use crate::error::FindCmdletError;
use crate::chars::{to_lower, to_lower_seq};
use crate::tags::{trim_spec, trim_str};

verus! {

/// A structured metadata value, as far as the extraction logic reads it:
/// null, a text, a list, a map of named members, or anything else (a
/// number, a boolean) that only matters by being present.
#[derive(Debug)]
pub enum Meta {
    Null,
    Text(String),
    List(Vec<Meta>),
    Object(Vec<(String, Meta)>),
    Other,
}

/// The first member of the entry list with the given name.
pub open spec fn spec_lookup_entries(entries: Seq<(String, Meta)>, key: Seq<char>) -> Option<
    Meta,
>
    decreases entries.len(),
{
    if entries.len() == 0 {
        None
    } else if entries[0].0@ == key {
        Some(entries[0].1)
    } else {
        spec_lookup_entries(entries.drop_first(), key)
    }
}

/// The member of the map with the given name, if the value is a map and
/// has one.
pub open spec fn spec_lookup(m: Meta, key: Seq<char>) -> Option<Meta> {
    match m {
        Meta::Object(entries) => spec_lookup_entries(entries@, key),
        _ => None,
    }
}

/// A blank value: null, or a text that trims to nothing.
pub open spec fn spec_blank(m: Meta) -> bool {
    match m {
        Meta::Null => true,
        Meta::Text(s) => trim_spec(s@).len() == 0,
        _ => false,
    }
}

/// Normalizes a lookup outcome: a blank value becomes the `None` sentinel.
pub open spec fn spec_norm(o: Option<Meta>) -> Option<Meta> {
    match o {
        Some(m) => if spec_blank(m) {
            None
        } else {
            Some(m)
        },
        None => None,
    }
}

/// The prioritized two-key lookup: the first candidate's value unless it
/// is blank, else the second candidate's value unless it is blank, else
/// the `None` sentinel.
pub open spec fn spec_try_index(m: Meta, k1: Seq<char>, k2: Seq<char>) -> Option<Meta> {
    match spec_norm(spec_lookup(m, k1)) {
        Some(v) => Some(v),
        None => spec_norm(spec_lookup(m, k2)),
    }
}

/// The prioritized four-key lookup.
pub open spec fn spec_try_index4(
    m: Meta,
    k1: Seq<char>,
    k2: Seq<char>,
    k3: Seq<char>,
    k4: Seq<char>,
) -> Option<Meta> {
    match spec_try_index(m, k1, k2) {
        Some(v) => Some(v),
        None => spec_try_index(m, k3, k4),
    }
}

/// The text of a value, if it is a text.
pub open spec fn spec_as_text(o: Option<Meta>) -> Option<Seq<char>> {
    match o {
        Some(Meta::Text(s)) => Some(s@),
        _ => None,
    }
}

impl Meta {
    /// Whether the value is blank: null, or a text that trims to nothing.
    pub fn is_empty_str_val(&self) -> (r: bool)
        ensures
            r == spec_blank(*self),
    {
        match self {
            Meta::Null => true,
            Meta::Text(s) => trim_str(s.as_str()).as_str().is_empty(),
            _ => false,
        }
    }

    /// The member with the given name, if this is a map that has one.
    pub fn get<'a>(&'a self, key: &str) -> (r: Option<&'a Meta>)
        ensures
            r matches Some(v) ==> spec_lookup(*self, key@) == Some(*v),
            r is None ==> spec_lookup(*self, key@) is None,
    {
        match self {
            Meta::Object(entries) => {
                let n = entries.len();
                let mut i: usize = 0;
                proof {
                    assert(entries@.skip(0) =~= entries@);
                }
                while i < n
                    invariant
                        i <= n,
                        n == entries@.len(),
                        spec_lookup(*self, key@) == spec_lookup_entries(entries@, key@),
                        spec_lookup_entries(entries@, key@) == spec_lookup_entries(
                            entries@.skip(i as int),
                            key@,
                        ),
                    decreases n - i,
                {
                    proof {
                        assert(entries@.skip(i as int)[0] == entries@[i as int]);
                        assert(entries@.skip(i as int).drop_first() =~= entries@.skip(
                            i as int + 1,
                        ));
                    }
                    if crate::chars::str_eq(entries[i].0.as_str(), key) {
                        proof {
                            assert(spec_lookup_entries(entries@.skip(i as int), key@) == Some(
                                entries@[i as int].1,
                            ));
                        }
                        return Some(&entries[i].1);
                    }
                    i += 1;
                }
                proof {
                    assert(entries@.skip(n as int).len() == 0);
                }
                Option::None
            },
            _ => Option::None,
        }
    }

    /// Looks the first candidate key up; a blank outcome falls back to the
    /// second candidate, and a blank fallback becomes the `None` sentinel.
    pub fn try_index<'a>(&'a self, idx1: &str, idx2: &str) -> (r: Option<&'a Meta>)
        ensures
            r matches Some(v) ==> spec_try_index(*self, idx1@, idx2@) == Some(*v),
            r is None ==> spec_try_index(*self, idx1@, idx2@) is None,
    {
        match self.get(idx1) {
            Some(v) => {
                if v.is_empty_str_val() {
                    match self.get(idx2) {
                        Some(w) => {
                            if w.is_empty_str_val() {
                                Option::None
                            } else {
                                Some(w)
                            }
                        },
                        Option::None => Option::None,
                    }
                } else {
                    Some(v)
                }
            },
            Option::None => {
                match self.get(idx2) {
                    Some(w) => {
                        if w.is_empty_str_val() {
                            Option::None
                        } else {
                            Some(w)
                        }
                    },
                    Option::None => Option::None,
                }
            },
        }
    }

    /// The prioritized four-key lookup.
    pub fn try_index4<'a>(&'a self, idx1: &str, idx2: &str, idx3: &str, idx4: &str) -> (r: Option<
        &'a Meta,
    >)
        ensures
            r matches Some(v) ==> spec_try_index4(*self, idx1@, idx2@, idx3@, idx4@) == Some(*v),
            r is None ==> spec_try_index4(*self, idx1@, idx2@, idx3@, idx4@) is None,
    {
        match self.try_index(idx1, idx2) {
            Some(v) => Some(v),
            Option::None => self.try_index(idx3, idx4),
        }
    }

    /// The text of the value, if it is a text.
    pub fn as_text<'a>(&'a self) -> (r: Option<&'a String>)
        ensures
            r matches Some(s) ==> *self matches Meta::Text(t) && t == *s,
            r is None ==> !(*self matches Meta::Text(_)),
    {
        match self {
            Meta::Text(s) => Some(s),
            _ => Option::None,
        }
    }

    /// The first element, if the value is a nonempty list.
    pub fn first<'a>(&'a self) -> (r: Option<&'a Meta>)
        ensures
            r matches Some(v) ==> *self matches Meta::List(l) && l@.len() > 0 && l@[0] == *v,
            r is None ==> !(*self matches Meta::List(l) && l@.len() > 0),
    {
        match self {
            Meta::List(l) => {
                if l.len() > 0 {
                    Some(&l[0])
                } else {
                    Option::None
                }
            },
            _ => Option::None,
        }
    }
}


/// Lexicographic order on character sequences, by code point.
pub open spec fn seq_le(a: Seq<char>, b: Seq<char>) -> bool
    decreases a.len(),
{
    if a.len() == 0 {
        true
    } else if b.len() == 0 {
        false
    } else if a[0] != b[0] {
        (a[0] as u32) < (b[0] as u32)
    } else {
        seq_le(a.drop_first(), b.drop_first())
    }
}

/// Case-insensitive lexicographic order: compare the ASCII-lowered texts.
pub open spec fn ci_le(a: Seq<char>, b: Seq<char>) -> bool {
    seq_le(to_lower_seq(a), to_lower_seq(b))
}

/// Case-insensitive equality: the ASCII-lowered texts agree.
pub open spec fn ci_eq(a: Seq<char>, b: Seq<char>) -> bool {
    to_lower_seq(a) == to_lower_seq(b)
}

proof fn lemma_seq_le_total(a: Seq<char>, b: Seq<char>)
    ensures
        seq_le(a, b) || seq_le(b, a),
    decreases a.len(),
{
    if a.len() > 0 && b.len() > 0 {
        if a[0] == b[0] {
            lemma_seq_le_total(a.drop_first(), b.drop_first());
        } else if (a[0] as u32) == (b[0] as u32) {
            vstd::utf8::char_u32_cast(a[0], a[0] as u32);
            vstd::utf8::char_u32_cast(b[0], b[0] as u32);
        }
    }
}

/// When two sequences agree on a prefix, their order is decided past it.
proof fn lemma_seq_le_skip(a: Seq<char>, b: Seq<char>, i: int)
    requires
        0 <= i <= a.len(),
        i <= b.len(),
        forall|k: int| 0 <= k < i ==> a[k] == b[k],
    ensures
        seq_le(a, b) == seq_le(a.skip(i), b.skip(i)),
    decreases i,
{
    if i > 0 {
        assert(a[0] == b[0]);
        assert(a.len() > 0 && b.len() > 0);
        assert forall|k: int| 0 <= k < i - 1 implies a.drop_first()[k] == b.drop_first()[k] by {
            assert(a.drop_first()[k] == a[k + 1]);
            assert(b.drop_first()[k] == b[k + 1]);
        }
        lemma_seq_le_skip(a.drop_first(), b.drop_first(), i - 1);
        assert(a.drop_first().skip(i - 1) =~= a.skip(i));
        assert(b.drop_first().skip(i - 1) =~= b.skip(i));
    } else {
        assert(a.skip(0) =~= a);
        assert(b.skip(0) =~= b);
    }
}

/// Decides the case-insensitive lexicographic order of two strings.
pub fn ci_le_str(a: &str, b: &str) -> (r: bool)
    ensures
        r == ci_le(a@, b@),
{
    let ghost la = to_lower_seq(a@);
    let ghost lb = to_lower_seq(b@);
    let na = a.unicode_len();
    let nb = b.unicode_len();
    let mut i: usize = 0;
    loop
        invariant
            i <= na,
            i <= nb,
            na == a@.len(),
            nb == b@.len(),
            la == to_lower_seq(a@),
            lb == to_lower_seq(b@),
            forall|k: int| 0 <= k < i ==> la[k] == lb[k],
        ensures
            (i == na || i == nb || la[i as int] != lb[i as int]),
            i <= na && i <= nb,
            forall|k: int| 0 <= k < i ==> la[k] == lb[k],
        decreases na - i,
    {
        if i >= na || i >= nb {
            break;
        }
        let ca = to_lower(a.get_char(i));
        let cb = to_lower(b.get_char(i));
        if ca != cb {
            break;
        }
        i += 1;
    }
    proof {
        lemma_seq_le_skip(la, lb, i as int);
    }
    if i >= na {
        proof {
            assert(la.skip(i as int).len() == 0);
        }
        true
    } else if i >= nb {
        proof {
            assert(lb.skip(i as int).len() == 0);
            assert(la.skip(i as int).len() > 0);
        }
        false
    } else {
        let ca = to_lower(a.get_char(i));
        let cb = to_lower(b.get_char(i));
        proof {
            assert(la.skip(i as int)[0] == la[i as int]);
            assert(lb.skip(i as int)[0] == lb[i as int]);
            assert(la[i as int] != lb[i as int]);
        }
        (ca as u32) < (cb as u32)
    }
}

/// Decides case-insensitive equality of two strings.
pub fn ci_eq_str(a: &str, b: &str) -> (r: bool)
    ensures
        r == ci_eq(a@, b@),
{
    let la = crate::chars::lower_string(a);
    let lb = crate::chars::lower_string(b);
    crate::chars::str_eq(la.as_str(), lb.as_str())
}

/// A tag list in case-insensitive sorted order.
pub open spec fn sorted_ci(ts: Seq<String>) -> bool {
    forall|i: int| 0 <= i < ts.len() - 1 ==> ci_le(#[trigger] ts[i]@, ts[i + 1]@)
}

/// Inserting an element anywhere adds exactly it to the multiset.
proof fn lemma_insert_to_multiset(s: Seq<String>, i: int, a: String)
    requires
        0 <= i <= s.len(),
    ensures
        s.insert(i, a).to_multiset() =~= s.to_multiset().insert(a),
{
    broadcast use vstd::seq_lib::group_to_multiset_ensures;

    let t = s.insert(i, a);
    assert(t[i] == a);
    assert(t.remove(i) =~= s);
    assert(t.remove(i).to_multiset() =~= t.to_multiset().remove(a));
    assert(t.contains(a));
    assert(t.to_multiset().count(a) > 0);
    assert(t.to_multiset().remove(a).insert(a) =~= t.to_multiset());
}

/// Sorts a tag list into case-insensitive order, keeping the multiset of
/// tags.
pub fn sort_tags_ci(tags: Vec<String>) -> (out: Vec<String>)
    ensures
        sorted_ci(out@),
        out@.to_multiset() == tags@.to_multiset(),
{
    broadcast use vstd::seq_lib::group_to_multiset_ensures;

    let mut out: Vec<String> = Vec::new();
    let mut i: usize = 0;
    proof {
        assert(tags@.take(0) =~= Seq::<String>::empty());
        assert(Seq::<String>::empty().to_multiset() =~= out@.to_multiset());
    }
    while i < tags.len()
        invariant
            i <= tags@.len(),
            sorted_ci(out@),
            out@.to_multiset() == tags@.take(i as int).to_multiset(),
        decreases tags@.len() - i,
    {
        let x = tags[i].clone();
        let ghost old_out = out@;
        // Find the first position whose element does not precede `x`.
        let mut k: usize = 0;
        while k < out.len()
            invariant
                k <= out@.len(),
                out@ == old_out,
                forall|j: int| 0 <= j < k ==> ci_le(#[trigger] out@[j]@, x@),
            ensures
                k <= out@.len(),
                out@ == old_out,
                forall|j: int| 0 <= j < k ==> ci_le(#[trigger] out@[j]@, x@),
                k < out@.len() ==> !ci_le(out@[k as int]@, x@),
            decreases out@.len() - k,
        {
            if !ci_le_str(out[k].as_str(), x.as_str()) {
                break;
            }
            k += 1;
        }
        proof {
            if k < out@.len() {
                lemma_seq_le_total(to_lower_seq(out@[k as int]@), to_lower_seq(x@));
                assert(ci_le(x@, out@[k as int]@));
            }
        }
        out.insert(k, x);
        proof {
            assert(sorted_ci(out@)) by {
                assert forall|j: int| 0 <= j < out@.len() - 1 implies ci_le(
                    #[trigger] out@[j]@,
                    out@[j + 1]@,
                ) by {
                    if j < k as int - 1 {
                        assert(out@[j] == old_out[j]);
                        assert(out@[j + 1] == old_out[j + 1]);
                    } else if j == k as int - 1 {
                        assert(out@[j] == old_out[j]);
                    } else if j == k as int {
                    } else {
                        assert(out@[j] == old_out[j - 1]);
                        assert(out@[j + 1] == old_out[j]);
                    }
                }
            }
            lemma_insert_to_multiset(old_out, k as int, tags@[i as int]);
            broadcast use vstd::seq_lib::group_to_multiset_ensures;

            let prefix = tags@.take(i as int);
            assert(prefix.push(tags@[i as int]).to_multiset() =~= prefix.to_multiset().insert(
                tags@[i as int],
            ));
            assert(tags@.take(i as int + 1) =~= prefix.push(tags@[i as int]));
            assert(tags@.take(i as int + 1).to_multiset() =~= prefix.to_multiset().insert(
                tags@[i as int],
            ));
        }
        i += 1;
    }
    proof {
        assert(tags@.take(tags@.len() as int) =~= tags@);
    }
    out
}

proof fn lemma_seq_le_trans(a: Seq<char>, b: Seq<char>, c: Seq<char>)
    requires
        seq_le(a, b),
        seq_le(b, c),
    ensures
        seq_le(a, c),
    decreases a.len(),
{
    if a.len() > 0 {
        assert(b.len() > 0);
        assert(c.len() > 0);
        if a[0] == b[0] && b[0] == c[0] {
            lemma_seq_le_trans(a.drop_first(), b.drop_first(), c.drop_first());
        }
    }
}

/// In a case-insensitively sorted list, any earlier tag precedes any
/// later one.
proof fn lemma_sorted_ci_pair(ts: Seq<String>, x: int, y: int)
    requires
        sorted_ci(ts),
        0 <= x <= y < ts.len(),
    ensures
        ci_le(ts[x]@, ts[y]@),
    decreases y - x,
{
    if x == y {
        lemma_seq_le_total(to_lower_seq(ts[x]@), to_lower_seq(ts[x]@));
    } else {
        lemma_sorted_ci_pair(ts, x, y - 1);
        assert(ci_le(ts[y - 1]@, ts[y]@));
        lemma_seq_le_trans(
            to_lower_seq(ts[x]@),
            to_lower_seq(ts[y - 1]@),
            to_lower_seq(ts[y]@),
        );
    }
}

/// Some kept tag is case-insensitively equal to `t`.
pub open spec fn has_ci_rep(t: Seq<char>, out: Seq<String>) -> bool {
    exists|k: int| 0 <= k < out.len() && ci_eq(t, (#[trigger] out[k])@)
}

/// `t` opens a run of the list: it stands at some index whose predecessor,
/// if any, is not case-insensitively equal to it.
pub open spec fn run_first(tags: Seq<String>, t: String) -> bool {
    exists|j: int|
        0 <= j < tags.len() && (#[trigger] tags[j]) == t && (j == 0 || !ci_eq(
            tags[j - 1]@,
            tags[j]@,
        ))
}

/// Keeping the tag at `i` preserves the dedup loop's shape: order,
/// adjacent distinctness, membership and run-opening carry to the
/// extended list.
proof fn lemma_dedup_keep(
    tags: Seq<String>,
    old_out: Seq<String>,
    out: Seq<String>,
    i: int,
    last_src: int,
)
    requires
        sorted_ci(tags),
        0 <= i < tags.len(),
        out == old_out.push(tags[i]),
        sorted_ci(old_out),
        forall|k: int| 0 <= k < old_out.len() - 1 ==> !ci_eq((#[trigger] old_out[k])@, old_out[k + 1]@),
        forall|k: int| 0 <= k < old_out.len() ==> tags.contains(#[trigger] old_out[k]),
        forall|k: int| 0 <= k < old_out.len() ==> run_first(tags, #[trigger] old_out[k]),
        old_out.len() > 0 ==> 0 <= last_src < i && old_out[old_out.len() - 1] == tags[last_src],
        old_out.len() > 0 ==> forall|j: int|
            last_src < j < i ==> ci_eq((#[trigger] tags[j])@, tags[last_src]@),
        old_out.len() > 0 ==> !ci_eq(tags[i]@, tags[last_src]@),
        old_out.len() == 0 ==> i == 0,
    ensures
        sorted_ci(out),
        forall|k: int| 0 <= k < out.len() - 1 ==> !ci_eq((#[trigger] out[k])@, out[k + 1]@),
        forall|k: int| 0 <= k < out.len() ==> tags.contains(#[trigger] out[k]),
        forall|k: int| 0 <= k < out.len() ==> run_first(tags, #[trigger] out[k]),
{
    assert(tags.contains(tags[i]));
    assert(out[out.len() - 1] == tags[i]);
    assert forall|k: int| 0 <= k < out.len() - 1 implies !ci_eq(
        (#[trigger] out[k])@,
        out[k + 1]@,
    ) by {
        if k < out.len() - 2 {
            assert(out[k] == old_out[k]);
            assert(out[k + 1] == old_out[k + 1]);
        } else {
            assert(out[k] == old_out[old_out.len() - 1]);
        }
    }
    assert(sorted_ci(out)) by {
        assert forall|k: int| 0 <= k < out.len() - 1 implies ci_le(
            (#[trigger] out[k])@,
            out[k + 1]@,
        ) by {
            if k < out.len() - 2 {
                assert(out[k] == old_out[k]);
                assert(out[k + 1] == old_out[k + 1]);
            } else {
                assert(out[k] == old_out[old_out.len() - 1]);
                if old_out.len() > 0 {
                    lemma_sorted_ci_pair(tags, last_src, i);
                }
            }
        }
    }
    // The kept tag opens a run: its predecessor, if any, is not
    // case-insensitively equal to it.
    if i > 0 {
        if last_src < i - 1 {
            assert(ci_eq(tags[i - 1]@, tags[last_src]@));
        }
        assert(!ci_eq(tags[i - 1]@, tags[i]@));
    }
    assert(run_first(tags, tags[i]));
    assert forall|k: int| 0 <= k < out.len() implies run_first(tags, #[trigger] out[k]) by {
        if k < out.len() - 1 {
            assert(out[k] == old_out[k]);
        }
    }
}

/// A tag list whose every element up to `i` already has a kept
/// representative keeps that property when the list grows at most at the
/// end and the tag at `i` matches the last kept element.
proof fn lemma_rep_extend(tags: Seq<String>, old_out: Seq<String>, out: Seq<String>, i: int)
    requires
        0 <= i < tags.len(),
        old_out.len() <= out.len(),
        forall|k: int| 0 <= k < old_out.len() ==> out[k] == old_out[k],
        forall|j: int| 0 <= j < i ==> has_ci_rep((#[trigger] tags[j])@, old_out),
        out.len() > 0,
        ci_eq(tags[i]@, out[out.len() - 1]@),
    ensures
        forall|j: int| 0 <= j < i + 1 ==> has_ci_rep((#[trigger] tags[j])@, out),
{
    assert forall|j: int| 0 <= j < i + 1 implies has_ci_rep((#[trigger] tags[j])@, out) by {
        if j < i {
            let k0 = choose|k: int|
                0 <= k < old_out.len() && ci_eq(tags[j]@, (#[trigger] old_out[k])@);
            assert(0 <= k0 < out.len() && ci_eq(tags[j]@, out[k0]@));
        } else {
            assert(0 <= out.len() - 1 < out.len());
        }
    }
}

/// Drops every tag that repeats, case-insensitively, the tag kept just
/// before it; of each run of case-insensitively equal tags exactly the
/// first one stays.  No tag is lost beyond case folding: every input tag
/// is case-insensitively equal to some kept tag.
pub fn dedup_tags_ci(tags: Vec<String>) -> (out: Vec<String>)
    requires
        sorted_ci(tags@),
    ensures
        sorted_ci(out@),
        forall|i: int| 0 <= i < out@.len() - 1 ==> !ci_eq((#[trigger] out@[i])@, out@[i + 1]@),
        forall|i: int| 0 <= i < out@.len() ==> tags@.contains(#[trigger] out@[i]),
        forall|i: int| 0 <= i < out@.len() ==> run_first(tags@, #[trigger] out@[i]),
        forall|j: int| 0 <= j < tags@.len() ==> has_ci_rep((#[trigger] tags@[j])@, out@),
{
    let mut out: Vec<String> = Vec::new();
    let ghost mut last_src: int = 0;
    let mut i: usize = 0;
    while i < tags.len()
        invariant
            i <= tags@.len(),
            sorted_ci(tags@),
            sorted_ci(out@),
            forall|k: int| 0 <= k < out@.len() - 1 ==> !ci_eq((#[trigger] out@[k])@, out@[k + 1]@),
            forall|k: int| 0 <= k < out@.len() ==> tags@.contains(#[trigger] out@[k]),
            forall|k: int| 0 <= k < out@.len() ==> run_first(tags@, #[trigger] out@[k]),
            forall|j: int| 0 <= j < i ==> has_ci_rep((#[trigger] tags@[j])@, out@),
            i > 0 ==> out@.len() > 0,
            out@.len() > 0 ==> 0 <= last_src < i && out@[out@.len() - 1] == tags@[last_src],
            out@.len() > 0 ==> forall|j: int|
                last_src < j < i ==> ci_eq((#[trigger] tags@[j])@, tags@[last_src]@),
        decreases tags@.len() - i,
    {
        let ghost old_out = out@;
        let mut keep = false;
        if out.len() == 0 {
            keep = true;
        } else {
            let last = out.len() - 1;
            if !ci_eq_str(tags[i].as_str(), out[last].as_str()) {
                keep = true;
            }
        }
        if keep {
            out.push(tags[i].clone());
            proof {
                lemma_dedup_keep(tags@, old_out, out@, i as int, last_src);
                lemma_rep_extend(tags@, old_out, out@, i as int);
                last_src = i as int;
            }
        } else {
            proof {
                lemma_rep_extend(tags@, old_out, out@, i as int);
                assert forall|j: int| last_src < j < i + 1 implies ci_eq(
                    (#[trigger] tags@[j])@,
                    tags@[last_src]@,
                ) by {
                    if j == i as int {
                        assert(ci_eq(tags@[j]@, out@[out@.len() - 1]@));
                    }
                }
            }
        }
        i += 1;
    }
    out
}

/// The raw tag texts of a tag list: the text elements whose trimmed text
/// is nonempty, kept untrimmed, in order.
pub open spec fn spec_raw_tags(items: Seq<Meta>) -> Seq<String>
    decreases items.len(),
{
    if items.len() == 0 {
        Seq::empty()
    } else {
        let head: Seq<String> = match items[0] {
            Meta::Text(s) => if trim_spec(s@).len() > 0 {
                seq![s]
            } else {
                Seq::empty()
            },
            _ => Seq::empty(),
        };
        head + spec_raw_tags(items.drop_first())
    }
}

proof fn lemma_raw_tags_concat(a: Seq<Meta>, b: Seq<Meta>)
    ensures
        spec_raw_tags(a + b) =~= spec_raw_tags(a) + spec_raw_tags(b),
    decreases a.len(),
{
    if a.len() == 0 {
        assert(a + b =~= b);
        assert(spec_raw_tags(a) =~= Seq::<String>::empty());
    } else {
        assert((a + b)[0] == a[0]);
        assert((a + b).drop_first() =~= a.drop_first() + b);
        lemma_raw_tags_concat(a.drop_first(), b);
    }
}

/// The tag list of a module document: the elements of its `Tags` (or
/// `tags`) member when that member is a list, else nothing.
pub open spec fn spec_tags_list(module: Meta) -> Seq<Meta> {
    match spec_try_index(module, "Tags"@, "tags"@) {
        Some(Meta::List(l)) => l@,
        _ => Seq::empty(),
    }
}

/// Collects the raw tag texts of a module document.
fn raw_tags(module: &Meta) -> (out: Vec<String>)
    ensures
        out@ == spec_raw_tags(spec_tags_list(*module)),
{
    let ghost items = spec_tags_list(*module);
    let mut out: Vec<String> = Vec::new();
    let list = match module.try_index("Tags", "tags") {
        Some(v) => match v {
            Meta::List(l) => l,
            _ => {
                proof {
                    assert(spec_raw_tags(items) =~= Seq::<String>::empty());
                }
                return out;
            },
        },
        Option::None => {
            proof {
                assert(spec_raw_tags(items) =~= Seq::<String>::empty());
            }
            return out;
        },
    };
    let n = list.len();
    let mut i: usize = 0;
    proof {
        assert(items =~= list@);
        assert(items.take(0) =~= Seq::<Meta>::empty());
        assert(spec_raw_tags(items.take(0)) =~= Seq::<String>::empty());
    }
    while i < n
        invariant
            i <= n,
            n == list@.len(),
            items == list@,
            out@ == spec_raw_tags(items.take(i as int)),
        decreases n - i,
    {
        let ghost old_out = out@;
        match &list[i] {
            Meta::Text(s) => {
                let t = trim_str(s.as_str());
                if !t.as_str().is_empty() {
                    out.push(s.clone());
                }
            },
            _ => {},
        }
        i += 1;
        proof {
            let one = seq![items[i as int - 1]];
            assert(items.take(i as int) =~= items.take(i as int - 1) + one);
            lemma_raw_tags_concat(items.take(i as int - 1), one);
            assert(one.drop_first() =~= Seq::<Meta>::empty());
            assert(one[0] == items[i as int - 1]);
            assert(spec_raw_tags(Seq::<Meta>::empty()) =~= Seq::<String>::empty());
            assert(out@ =~= spec_raw_tags(items.take(i as int)));
        }
    }
    proof {
        assert(items.take(n as int) =~= items);
    }
    out
}

/// Two sequences with the same multiset hold the same elements.
proof fn lemma_multiset_same_contains(a: Seq<String>, b: Seq<String>, x: String)
    requires
        a.to_multiset() == b.to_multiset(),
        a.contains(x),
    ensures
        b.contains(x),
{
    broadcast use vstd::seq_lib::group_to_multiset_ensures;

    assert(a.to_multiset().count(x) > 0);
}

/// Transfers containment facts across a sort-and-dedup pipeline.
proof fn lemma_tags_transfer(raw_spec: Seq<String>, sorted_view: Seq<String>, out: Seq<String>)
    requires
        sorted_view.to_multiset() == raw_spec.to_multiset(),
        forall|i: int| 0 <= i < out.len() ==> sorted_view.contains(#[trigger] out[i]),
        forall|j: int| 0 <= j < sorted_view.len() ==> has_ci_rep((#[trigger] sorted_view[j])@, out),
    ensures
        forall|i: int| 0 <= i < out.len() ==> raw_spec.contains(#[trigger] out[i]),
        forall|j: int| 0 <= j < raw_spec.len() ==> has_ci_rep((#[trigger] raw_spec[j])@, out),
{
    assert forall|i: int| 0 <= i < out.len() implies raw_spec.contains(#[trigger] out[i]) by {
        lemma_multiset_same_contains(sorted_view, raw_spec, out[i]);
    }
    assert forall|j: int| 0 <= j < raw_spec.len() implies has_ci_rep(
        (#[trigger] raw_spec[j])@,
        out,
    ) by {
        assert(raw_spec.contains(raw_spec[j]));
        lemma_multiset_same_contains(raw_spec, sorted_view, raw_spec[j]);
        let k0 = choose|k: int| 0 <= k < sorted_view.len() && sorted_view[k] == raw_spec[j];
        assert(has_ci_rep(sorted_view[k0]@, out));
    }
}

/// The tags of a module document: the raw tag texts, sorted
/// case-insensitively, with case-insensitive repetitions of a kept tag
/// dropped.
pub fn extract_tags(module: &Meta) -> (out: Vec<String>)
    ensures
        sorted_ci(out@),
        forall|i: int| 0 <= i < out@.len() - 1 ==> !ci_eq((#[trigger] out@[i])@, out@[i + 1]@),
        forall|i: int|
            0 <= i < out@.len() ==> spec_raw_tags(spec_tags_list(*module)).contains(
                #[trigger] out@[i],
            ),
        forall|j: int|
            0 <= j < spec_raw_tags(spec_tags_list(*module)).len() ==> has_ci_rep(
                (#[trigger] spec_raw_tags(spec_tags_list(*module))[j])@,
                out@,
            ),
{
    let ghost raw_spec = spec_raw_tags(spec_tags_list(*module));
    let raw = raw_tags(module);
    let sorted = sort_tags_ci(raw);
    let ghost sorted_view = sorted@;
    let out = dedup_tags_ci(sorted);
    proof {
        lemma_tags_transfer(raw_spec, sorted_view, out@);
    }
    out
}

/// Module identity extracted from a gallery metadata file, with the
/// documentation directory the module's files stand under.
#[derive(Debug)]
pub struct ModuleMetaData {
    pub name: String,
    pub version: String,
    pub docs_dir: String,
}

/// The name of the module named in a metadata document.
pub open spec fn spec_module_name(json: Meta) -> Option<Seq<char>> {
    spec_as_text(spec_try_index(json, "Name"@, "name"@))
}

/// The version of the module named in a metadata document.
pub open spec fn spec_module_version(json: Meta) -> Option<Seq<char>> {
    spec_as_text(spec_try_index(json, "Version"@, "version"@))
}

/// Reads a module's identity out of its gallery metadata document.
/// Fails with the matching error exactly when the name or the version is
/// missing, not text, or blank.
pub fn process_metadata_json(json: &Meta, docs_dir: String) -> (r: Result<
    ModuleMetaData,
    FindCmdletError,
>)
    ensures
        r is Ok <==> spec_module_name(*json) is Some && spec_module_version(*json) is Some,
        r matches Ok(m) ==> {
            &&& Some(m.name@) == spec_module_name(*json)
            &&& Some(m.version@) == spec_module_version(*json)
        },
        r matches Err(e) ==> {
            &&& (e matches FindCmdletError::MissingModuleName <==> spec_module_name(*json)
                is None)
            &&& (e matches FindCmdletError::MissingModuleVersion <==> spec_module_name(*json)
                is Some && spec_module_version(*json) is None)
        },
{
    let name = match meta_text(json.try_index("Name", "name")) {
        Some(s) => s.clone(),
        Option::None => { return Err(FindCmdletError::MissingModuleName) },
    };
    let version = match meta_text(json.try_index("Version", "version")) {
        Some(s) => s.clone(),
        Option::None => { return Err(FindCmdletError::MissingModuleVersion) },
    };
    Ok(ModuleMetaData { name, version, docs_dir })
}


/// The prioritized lookup applied through the `None` sentinel.
pub open spec fn spec_try_index_opt(o: Option<Meta>, k1: Seq<char>, k2: Seq<char>) -> Option<
    Meta,
> {
    match o {
        Some(m) => spec_try_index(m, k1, k2),
        None => None,
    }
}

/// The first element behind a lookup outcome, if it is a nonempty list.
pub open spec fn spec_first_opt(o: Option<Meta>) -> Option<Meta> {
    match o {
        Some(Meta::List(l)) => if l@.len() > 0 {
            Some(l@[0])
        } else {
            None
        },
        _ => None,
    }
}

/// The name of the cmdlet described by a help document: its `name` (or
/// `Name`) member, or the same member of its `details` (or `Details`)
/// member.
pub open spec fn spec_cmdlet_name(help: Meta) -> Option<Seq<char>> {
    match spec_as_text(spec_try_index(help, "name"@, "Name"@)) {
        Some(s) => Some(s),
        None => spec_as_text(
            spec_try_index_opt(spec_try_index(help, "details"@, "Details"@), "name"@, "Name"@),
        ),
    }
}

/// The help link of a cmdlet: the command document's `HelpUri` member in
/// any of its spellings, else the module document's `ProjectUri` member.
pub open spec fn spec_cmdlet_url(command: Meta, module: Meta) -> Option<Seq<char>> {
    match spec_as_text(
        spec_try_index4(command, "HelpUri"@, "helpUri"@, "Helpuri"@, "helpuri"@),
    ) {
        Some(s) => Some(s),
        None => spec_as_text(
            spec_try_index4(module, "ProjectUri"@, "projectUri"@, "Projecturi"@, "projecturi"@),
        ),
    }
}

/// The gallery page of a module, used when no help link is recorded.
pub open spec fn spec_gallery_url(name: Seq<char>, version: Seq<char>) -> Seq<char> {
    "https://www.powershellgallery.com/packages/"@ + name + "/"@ + version
}

/// The synopsis of a help document, or nothing.
pub open spec fn spec_cmdlet_synopsis(help: Meta) -> Option<Seq<char>> {
    spec_as_text(spec_try_index(help, "synopsis"@, "Synopsis"@))
}

/// The description text chain of a help document: the `text` member of
/// the first element of its `description` member, with a fallback through
/// its `details` member.
pub open spec fn spec_cmdlet_description(help: Meta) -> Option<Seq<char>> {
    match spec_as_text(
        spec_try_index_opt(
            spec_first_opt(spec_try_index(help, "description"@, "Description"@)),
            "text"@,
            "Text"@,
        ),
    ) {
        Some(s) => Some(s),
        None => spec_as_text(
            spec_try_index_opt(
                spec_first_opt(
                    spec_try_index_opt(
                        spec_try_index(help, "details"@, "Details"@),
                        "description"@,
                        "Description"@,
                    ),
                ),
                "text"@,
                "Text"@,
            ),
        ),
    }
}

/// The first element behind a lookup outcome, if it is a nonempty list.
fn first_opt<'a>(o: Option<&'a Meta>) -> (r: Option<&'a Meta>)
    ensures
        r matches Some(v) ==> spec_first_opt(opt_deref(o)) == Some(*v),
        r is None ==> spec_first_opt(opt_deref(o)) is None,
{
    match o {
        Some(m) => m.first(),
        Option::None => Option::None,
    }
}

/// The value behind an optional reference.
pub open spec fn opt_deref(o: Option<&Meta>) -> Option<Meta> {
    match o {
        Some(m) => Some(*m),
        None => None,
    }
}

/// The prioritized lookup applied through the `None` sentinel.
fn try_index_opt<'a>(o: Option<&'a Meta>, k1: &str, k2: &str) -> (r: Option<&'a Meta>)
    ensures
        r matches Some(v) ==> spec_try_index_opt(opt_deref(o), k1@, k2@) == Some(*v),
        r is None ==> spec_try_index_opt(opt_deref(o), k1@, k2@) is None,
{
    match o {
        Some(m) => m.try_index(k1, k2),
        Option::None => Option::None,
    }
}

/// Assembles a cmdlet record from a module's metadata and the parsed
/// module, command and help documents of one command.  Fails with a
/// missing-name error exactly when no cmdlet name can be found; the
/// syntax and notes attributes are not recorded in gallery data and stay
/// empty.
pub fn process_file_json(
    module_metadata: &ModuleMetaData,
    module_json: &Meta,
    command_json: &Meta,
    help_json: &Meta,
) -> (r: Result<Cmdlet, FindCmdletError>)
    ensures
        r is Ok <==> spec_cmdlet_name(*help_json) is Some,
        r is Err ==> r matches Err(FindCmdletError::MissingCmdletName),
        r matches Ok(c) ==> {
            &&& c.module@ == module_metadata.name@
            &&& c.module_version@ == module_metadata.version@
            &&& Some(c.name@) == spec_trimmed(spec_cmdlet_name(*help_json))
            &&& c.url@ == trim_spec(
                match spec_cmdlet_url(*command_json, *module_json) {
                    Some(u) => u,
                    None => spec_gallery_url(module_metadata.name@, module_metadata.version@),
                },
            )
            &&& c.synopsis@ == trim_spec(
                match spec_cmdlet_synopsis(*help_json) {
                    Some(x) => x,
                    None => Seq::empty(),
                },
            )
            &&& c.syntax@ == Seq::<char>::empty()
            &&& c.description@ == trim_spec(
                match spec_cmdlet_description(*help_json) {
                    Some(x) => x,
                    None => Seq::empty(),
                },
            )
            &&& c.notes@ == Seq::<char>::empty()
            &&& sorted_ci(c.tags@)
            &&& forall|i: int|
                0 <= i < c.tags@.len() - 1 ==> !ci_eq((#[trigger] c.tags@[i])@, c.tags@[i + 1]@)
            &&& forall|i: int|
                0 <= i < c.tags@.len() ==> spec_raw_tags(spec_tags_list(*module_json)).contains(
                    #[trigger] c.tags@[i],
                )
            &&& forall|j: int|
                0 <= j < spec_raw_tags(spec_tags_list(*module_json)).len() ==> has_ci_rep(
                    (#[trigger] spec_raw_tags(spec_tags_list(*module_json))[j])@,
                    c.tags@,
                )
        },
{
    let name_text = match meta_text(help_json.try_index("name", "Name")) {
        Some(sv) => Some(sv.clone()),
        Option::None => {
            match meta_text(
                try_index_opt(help_json.try_index("details", "Details"), "name", "Name"),
            ) {
                Some(sv) => Some(sv.clone()),
                Option::None => Option::None,
            }
        },
    };
    let name = match name_text {
        Some(sv) => trim_str(sv.as_str()),
        Option::None => { return Err(FindCmdletError::MissingCmdletName) },
    };

    let url_text = match meta_text(
        command_json.try_index4("HelpUri", "helpUri", "Helpuri", "helpuri"),
    ) {
        Some(sv) => Some(sv.clone()),
        Option::None => {
            match meta_text(
                module_json.try_index4("ProjectUri", "projectUri", "Projecturi", "projecturi"),
            ) {
                Some(sv) => Some(sv.clone()),
                Option::None => Option::None,
            }
        },
    };
    let url = match url_text {
        Some(sv) => trim_str(sv.as_str()),
        Option::None => {
            let mut u = String::from_str("https://www.powershellgallery.com/packages/");
            u.append(module_metadata.name.as_str());
            u.append("/");
            u.append(module_metadata.version.as_str());
            trim_str(u.as_str())
        },
    };

    let tags = extract_tags(module_json);

    let synopsis = match meta_text(help_json.try_index("synopsis", "Synopsis")) {
        Some(sv) => trim_str(sv.as_str()),
        Option::None => {
            proof {
                assert(trim_spec(Seq::<char>::empty()) =~= Seq::<char>::empty());
            }
            String::new()
        },
    };

    let description_text = match meta_text(
        try_index_opt(
            first_opt(help_json.try_index("description", "Description")),
            "text",
            "Text",
        ),
    ) {
        Some(sv) => Some(sv.clone()),
        Option::None => {
            match meta_text(
                try_index_opt(
                    first_opt(
                        try_index_opt(
                            help_json.try_index("details", "Details"),
                            "description",
                            "Description",
                        ),
                    ),
                    "text",
                    "Text",
                ),
            ) {
                Some(sv) => Some(sv.clone()),
                Option::None => Option::None,
            }
        },
    };
    let description = match description_text {
        Some(sv) => trim_str(sv.as_str()),
        Option::None => {
            proof {
                assert(trim_spec(Seq::<char>::empty()) =~= Seq::<char>::empty());
            }
            String::new()
        },
    };

    Ok(Cmdlet {
        module: module_metadata.name.clone(),
        module_version: module_metadata.version.clone(),
        name,
        url,
        tags,
        synopsis,
        syntax: String::new(),
        description,
        notes: String::new(),
    })
}

/// The trimmed text behind an optional text.
pub open spec fn spec_trimmed(o: Option<Seq<char>>) -> Option<Seq<char>> {
    match o {
        Some(s) => Some(trim_spec(s)),
        None => None,
    }
}

/// The text behind a lookup outcome, if the outcome is a text value.
fn meta_text<'a>(o: Option<&'a Meta>) -> (r: Option<&'a String>)
    ensures
        r matches Some(s) ==> o matches Some(m) && *m matches Meta::Text(t) && t == *s,
        r is None ==> !(o matches Some(m) && *m matches Meta::Text(_)),
{
    match o {
        Some(m) => m.as_text(),
        Option::None => Option::None,
    }
}

} // verus!
