//! Help-file ingestion: front matter and section extraction.
//!
//! A help file opens with a metadata block fenced by `---` marker lines;
//! the text after the block is the help body.  The parsing of the metadata
//! block and of the body's markup happens at the ingestion edge; this
//! module locates the block in the raw text, folds the body's heading and
//! text events into named sections, and assembles the cmdlet record.

use vstd::prelude::*;
use crate::chars::{chars_of, to_upper_seq, upper_string};
use crate::cmdlet::Cmdlet;
use crate::error::FindCmdletError;
use crate::gallery::Meta;

verus! {

/// A `---` marker stands at index `i`.
pub open spec fn is_marker(s: Seq<char>, i: int) -> bool {
    &&& 0 <= i
    &&& i + 3 <= s.len()
    &&& s[i] == '-'
    &&& s[i + 1] == '-'
    &&& s[i + 2] == '-'
}

/// The length of the line break just after the marker at `i`: 2 for CRLF,
/// 1 for LF, 0 when none follows.
pub open spec fn nl_after(s: Seq<char>, i: int) -> int {
    if i + 5 <= s.len() && s[i + 3] == '\r' && s[i + 4] == '\n' {
        2
    } else if i + 4 <= s.len() && s[i + 3] == '\n' {
        1
    } else {
        0
    }
}

/// The least marker index at or after `i`, or the length of `s`.
pub open spec fn next_marker(s: Seq<char>, i: int) -> int
    decreases s.len() - i when 0 <= i <= s.len()
{
    if i >= s.len() {
        s.len() as int
    } else if is_marker(s, i) {
        i
    } else {
        next_marker(s, i + 1)
    }
}

pub proof fn lemma_next_marker(s: Seq<char>, i: int)
    requires
        0 <= i <= s.len(),
    ensures
        i <= next_marker(s, i) <= s.len(),
        next_marker(s, i) < s.len() ==> is_marker(s, next_marker(s, i)),
        forall|k: int| i <= k < next_marker(s, i) ==> !is_marker(s, k),
    decreases s.len() - i,
{
    if i < s.len() && !is_marker(s, i) {
        lemma_next_marker(s, i + 1);
    }
}

/// The end marker of the metadata block: the first marker at or after `i`
/// in the non-overlapping scan that a line break follows; markers without
/// a line break are stepped over.
pub open spec fn find_end(s: Seq<char>, i: int) -> Option<int>
    decreases s.len() - i when 0 <= i <= s.len() via find_end_decreases
{
    let j = next_marker(s, i);
    if j >= s.len() {
        None
    } else if nl_after(s, j) > 0 {
        Some(j)
    } else if j + 3 > s.len() {
        None
    } else {
        find_end(s, j + 3)
    }
}

#[via_fn]
proof fn find_end_decreases(s: Seq<char>, i: int) {
    lemma_next_marker(s, i);
}

pub proof fn lemma_find_end(s: Seq<char>, i: int)
    requires
        0 <= i <= s.len(),
    ensures
        find_end(s, i) matches Some(j) ==> i <= j && is_marker(s, j) && nl_after(s, j) > 0 && j
            + 3 <= s.len(),
    decreases s.len() - i,
{
    lemma_next_marker(s, i);
    let j = next_marker(s, i);
    if j < s.len() && nl_after(s, j) == 0 && j + 3 <= s.len() {
        lemma_find_end(s, j + 3);
    }
}

/// Where the raw text's metadata block and body stand: the outcome of the
/// front-matter scan.
pub open spec fn front_matter_spec(s: Seq<char>) -> Result<(Seq<char>, Seq<char>), FindCmdletError> {
    if is_marker(s, 0) && nl_after(s, 0) > 0 {
        match find_end(s, 3) {
            Some(j) => Ok(
                (s.subrange(3 + nl_after(s, 0), j), s.skip(j + 3 + nl_after(s, j))),
            ),
            None => Err(FindCmdletError::MissingMetaDataEnd),
        }
    } else {
        if next_marker(s, 0) < s.len() && next_marker(s, 0) != 0 {
            Err(FindCmdletError::MissingMetaDataStart)
        } else if next_marker(s, 0) == 0 && 3 <= s.len() && next_marker(s, 3) < s.len() {
            Err(FindCmdletError::MissingMetaDataStart)
        } else {
            Err(FindCmdletError::MissingMetaDataEnd)
        }
    }
}

/// Checks for a `---` marker at index `i`.
fn marker_at(v: &Vec<char>, i: usize) -> (b: bool)
    requires
        i <= v@.len(),
    ensures
        b == is_marker(v@, i as int),
{
    let n = v.len();
    n >= 3 && i <= n - 3 && v[i] == '-' && v[i + 1] == '-' && v[i + 2] == '-'
}

/// Measures the line break just after the marker at `i`.
fn nl_len_at(v: &Vec<char>, i: usize) -> (n: usize)
    requires
        i + 3 <= v@.len(),
    ensures
        n == nl_after(v@, i as int),
{
    let n = v.len();
    if n >= 5 && i <= n - 5 && v[i + 3] == '\r' && v[i + 4] == '\n' {
        2
    } else if n >= 4 && i <= n - 4 && v[i + 3] == '\n' {
        1
    } else {
        0
    }
}

/// Finds the least marker index at or after `i`.
fn scan_marker(v: &Vec<char>, i: usize) -> (j: usize)
    requires
        i <= v@.len(),
    ensures
        j == next_marker(v@, i as int),
        i <= j <= v@.len(),
{
    let ghost s = v@;
    let n = v.len();
    let mut j: usize = i;
    while j < n
        invariant
            i <= j <= n,
            n == s.len(),
            v@ == s,
            next_marker(s, i as int) == next_marker(s, j as int),
        ensures
            i <= j <= n,
            next_marker(s, i as int) == next_marker(s, j as int),
            j == n || is_marker(s, j as int),
        decreases n - j,
    {
        if marker_at(v, j) {
            break;
        }
        j += 1;
    }
    proof {
        assert(next_marker(s, j as int) == j as int);
    }
    j
}

/// Finds the closing marker line at or after `start`.
fn find_end_exec(v: &Vec<char>, start: usize) -> (r: Option<usize>)
    requires
        start <= v@.len(),
    ensures
        r matches Some(j) ==> find_end(v@, start as int) == Some(j as int) && j as int + 3
            <= v@.len(),
        r is None ==> find_end(v@, start as int) is None,
{
    let ghost s = v@;
    let n = v.len();
    let mut i: usize = start;
    loop
        invariant
            start <= i <= n,
            n == s.len(),
            v@ == s,
            find_end(s, start as int) == find_end(s, i as int),
        decreases n - i,
    {
        let j = scan_marker(v, i);
        proof {
            lemma_next_marker(s, i as int);
        }
        if j >= n {
            proof {
                assert(find_end(s, i as int) is None);
            }
            return Option::None;
        }
        if nl_len_at(v, j) > 0 {
            proof {
                assert(find_end(s, i as int) == Some(j as int));
            }
            return Some(j);
        }
        if n - j < 3 {
            proof {
                assert(find_end(s, i as int) is None);
            }
            return Option::None;
        }
        proof {
            assert(find_end(s, i as int) == find_end(s, j as int + 3));
        }
        i = j + 3;
    }
}

/// Splits a raw help file into its metadata block and its body.
///
/// The text must open with a `---` marker line; the block runs to the next
/// `---` marker that a line break follows.  A text that does not open with
/// a marker line is rejected as missing its metadata start when any marker
/// occurs later, and as missing its metadata end otherwise; a text whose
/// block never closes is rejected as missing its metadata end.
pub fn split_front_matter(text: &str) -> (r: Result<(String, String), FindCmdletError>)
    ensures
        r matches Ok(p) ==> front_matter_spec(text@) matches Ok(q) && p.0@ == q.0 && p.1@ == q.1,
        r matches Err(e) ==> front_matter_spec(text@) matches Err(e2) && e == e2,
{
    let ghost s = text@;
    let v = chars_of(text);
    let n = v.len();
    let first = scan_marker(&v, 0);
    proof {
        lemma_next_marker(s, 0);
    }
    if !(first == 0 && nl_len_at_checked(&v, 0) > 0) {
        // No opening marker line.
        if first < n && first != 0 {
            return Err(FindCmdletError::MissingMetaDataStart);
        }
        if first == 0 && 3 <= n {
            let second = scan_marker(&v, 3);
            if second < n {
                return Err(FindCmdletError::MissingMetaDataStart);
            }
        }
        return Err(FindCmdletError::MissingMetaDataEnd);
    }
    let add = nl_len_at(&v, 0);
    let yaml_start = 3 + add;
    match find_end_exec(&v, 3) {
        Some(j) => {
            proof {
                lemma_find_end(s, 3);
                assert(is_marker(s, j as int));
                assert(s[j as int] == '-');
                if add == 2 {
                    assert(s[3] == '\r' && s[4] == '\n');
                } else {
                    assert(s[3] == '\n');
                }
                assert(yaml_start as int <= j as int);
            }
            let nl = nl_len_at(&v, j);
            proof {
                assert(nl > 0);
                if nl == 2 {
                    assert(j as int + 5 <= n as int);
                } else {
                    assert(j as int + 4 <= n as int);
                }
            }
            let yaml = text.substring_char(yaml_start, j);
            let body = text.substring_char(j + 3 + nl, n);
            proof {
                assert(s.skip(j as int + 3 + nl as int) =~= s.subrange(
                    j as int + 3 + nl as int,
                    n as int,
                ));
            }
            Ok((yaml.to_owned(), body.to_owned()))
        },
        Option::None => Err(FindCmdletError::MissingMetaDataEnd),
    }
}

/// Measures the line break after the marker at `i`, or zero when no
/// marker line stands there.
fn nl_len_at_checked(v: &Vec<char>, i: usize) -> (n: usize)
    requires
        i <= v@.len(),
    ensures
        i as int + 3 <= v@.len() ==> n == nl_after(v@, i as int),
        !(i as int + 3 <= v@.len()) ==> n == 0,
{
    let n = v.len();
    if n >= 3 && i <= n - 3 {
        nl_len_at(v, i)
    } else {
        0
    }
}


/// The reading state of the section fold.
#[derive(Clone, Copy, PartialEq, Eq, Structural)]
pub enum MDState {
    FindHeading,
    StoreHeading,
    StoreText,
}

/// One event of the parsed help body, in document order: a text node,
/// which knows whether it stands directly under a heading, or a heading
/// with its level.
pub enum MdEvent {
    Text { content: String, in_heading: bool },
    Heading { level: u8 },
}

/// The section fold: headings of level two close the current section and
/// open a new one; the first text directly under a heading names the
/// section; all later text joins the section's body.
pub open spec fn run_md(
    events: Seq<MdEvent>,
    st: MDState,
    h: Seq<char>,
    t: Seq<char>,
    acc: Seq<(Seq<char>, Seq<char>)>,
) -> Seq<(Seq<char>, Seq<char>)>
    decreases events.len(),
{
    if events.len() == 0 {
        acc.push((h, t))
    } else {
        let rest = events.drop_first();
        match events[0] {
            MdEvent::Text { content, in_heading } => {
                if st is StoreHeading {
                    if in_heading {
                        run_md(rest, MDState::StoreText, h + content@, t, acc)
                    } else {
                        run_md(rest, st, h, t, acc)
                    }
                } else if st is StoreText {
                    run_md(rest, st, h, t + content@, acc)
                } else {
                    run_md(rest, st, h, t, acc)
                }
            },
            MdEvent::Heading { level } => {
                if level == 2 {
                    run_md(rest, MDState::StoreHeading, Seq::empty(), Seq::empty(), acc.push((h, t)))
                } else {
                    run_md(rest, st, h, t, acc)
                }
            },
        }
    }
}

/// The sections of a help body's event stream.
pub open spec fn sections_spec(events: Seq<MdEvent>) -> Seq<(Seq<char>, Seq<char>)> {
    run_md(events, MDState::FindHeading, Seq::empty(), Seq::empty(), Seq::empty())
}

/// Folds the help body's events into `(heading, text)` sections.
pub fn collect_sections(events: &Vec<MdEvent>) -> (out: Vec<(String, String)>)
    ensures
        out@.len() == sections_spec(events@).len(),
        forall|k: int|
            0 <= k < out@.len() ==> (#[trigger] out@[k]).0@ == sections_spec(events@)[k].0
                && out@[k].1@ == sections_spec(events@)[k].1,
{
    let ghost full = sections_spec(events@);
    let mut out: Vec<(String, String)> = Vec::new();
    let ghost acc: Seq<(Seq<char>, Seq<char>)> = Seq::empty();
    let mut state = MDState::FindHeading;
    let mut cur_h = String::new();
    let mut cur_t = String::new();
    let mut i: usize = 0;
    proof {
        assert(events@.skip(0) =~= events@);
    }
    while i < events.len()
        invariant
            i <= events@.len(),
            out@.len() == acc.len(),
            forall|k: int|
                0 <= k < out@.len() ==> (#[trigger] out@[k]).0@ == acc[k].0 && out@[k].1@
                    == acc[k].1,
            full == run_md(events@.skip(i as int), state, cur_h@, cur_t@, acc),
            full == sections_spec(events@),
        decreases events@.len() - i,
    {
        let ghost old_acc = acc;
        proof {
            assert(events@.skip(i as int)[0] == events@[i as int]);
            assert(events@.skip(i as int).drop_first() =~= events@.skip(i as int + 1));
        }
        match &events[i] {
            MdEvent::Text { content, in_heading } => {
                match state {
                    MDState::StoreHeading => {
                        if *in_heading {
                            cur_h.append(content.as_str());
                            state = MDState::StoreText;
                        }
                    },
                    MDState::StoreText => {
                        cur_t.append(content.as_str());
                    },
                    MDState::FindHeading => {},
                }
            },
            MdEvent::Heading { level } => {
                if *level == 2 {
                    out.push((cur_h, cur_t));
                    proof {
                        acc = acc.push((cur_h@, cur_t@));
                    }
                    cur_h = String::new();
                    cur_t = String::new();
                    state = MDState::StoreHeading;
                }
            },
        }
        i += 1;
    }
    out.push((cur_h, cur_t));
    proof {
        assert(events@.skip(events@.len() as int).len() == 0);
        assert(full == acc.push((cur_h@, cur_t@)));
    }
    out
}

/// The body text of the last section whose heading, raised to ASCII
/// uppercase, equals `key`; empty when no section matches.
pub open spec fn pick_section(secs: Seq<(Seq<char>, Seq<char>)>, key: Seq<char>) -> Seq<char>
    decreases secs.len(),
{
    if secs.len() == 0 {
        Seq::empty()
    } else if to_upper_seq(secs.last().0) == key {
        secs.last().1
    } else {
        pick_section(secs.drop_last(), key)
    }
}

/// Picks the body of the last section with the given uppercase heading.
pub fn find_section(sections: &Vec<(String, String)>, key: &str) -> (r: String)
    ensures
        r@ == pick_section(
            sections@.map_values(|p: (String, String)| (p.0@, p.1@)),
            key@,
        ),
{
    let ghost views = sections@.map_values(|p: (String, String)| (p.0@, p.1@));
    let mut r = String::new();
    let mut i: usize = 0;
    proof {
        assert(views.take(0) =~= Seq::<(Seq<char>, Seq<char>)>::empty());
    }
    while i < sections.len()
        invariant
            i <= sections@.len(),
            views == sections@.map_values(|p: (String, String)| (p.0@, p.1@)),
            views.len() == sections@.len(),
            r@ == pick_section(views.take(i as int), key@),
        decreases sections@.len() - i,
    {
        let u = upper_string(sections[i].0.as_str());
        if crate::chars::str_eq(u.as_str(), key) {
            r = sections[i].1.clone();
        }
        i += 1;
        proof {
            assert(views.take(i as int).last() == views[i as int - 1]);
            assert(views[i as int - 1].0 == sections@[i as int - 1].0@);
            assert(views.take(i as int).drop_last() =~= views.take(i as int - 1));
        }
    }
    proof {
        assert(views.take(views.len() as int) =~= views);
    }
    r
}


/// The least index at or after `i` that holds a comma, or the length.
pub open spec fn next_comma(s: Seq<char>, i: int) -> int
    decreases s.len() - i when 0 <= i <= s.len()
{
    if i >= s.len() {
        s.len() as int
    } else if s[i] == ',' {
        i
    } else {
        next_comma(s, i + 1)
    }
}

proof fn lemma_next_comma(s: Seq<char>, i: int)
    requires
        0 <= i <= s.len(),
    ensures
        i <= next_comma(s, i) <= s.len(),
    decreases s.len() - i,
{
    if i < s.len() && s[i] != ',' {
        lemma_next_comma(s, i + 1);
    }
}

/// The fragments of `s` between commas from `i` on, kept as they stand:
/// no trimming, empty fragments included.
pub open spec fn comma_split(s: Seq<char>, i: int) -> Seq<Seq<char>>
    decreases s.len() - i when 0 <= i <= s.len() via comma_split_decreases
{
    let e = next_comma(s, i);
    if e >= s.len() {
        seq![s.subrange(i, s.len() as int)]
    } else {
        seq![s.subrange(i, e)] + comma_split(s, e + 1)
    }
}

#[via_fn]
proof fn comma_split_decreases(s: Seq<char>, i: int) {
    lemma_next_comma(s, i);
}

/// Splits a keyword list on commas, keeping every fragment as it stands.
pub fn split_commas(text: &str) -> (out: Vec<String>)
    ensures
        out.deep_view() == comma_split(text@, 0),
{
    let ghost s = text@;
    let v = chars_of(text);
    let n = v.len();
    let mut out: Vec<String> = Vec::new();
    let mut i: usize = 0;
    let mut finished = false;
    while !finished
        invariant
            n == s.len(),
            v@ == s,
            text@ == s,
            i <= n,
            finished ==> out.deep_view() =~= comma_split(s, 0),
            !finished ==> comma_split(s, 0) =~= out.deep_view() + comma_split(s, i as int),
        decreases n - i + (if finished { 0int } else { 1int }),
    {
        let ghost old_i = i as int;
        let mut e: usize = i;
        while e < n
            invariant
                i <= e <= n,
                n == s.len(),
                v@ == s,
                next_comma(s, i as int) == next_comma(s, e as int),
            ensures
                i <= e <= n,
                next_comma(s, i as int) == next_comma(s, e as int),
                e == n || s[e as int] == ',',
            decreases n - e,
        {
            if v[e] == ',' {
                break;
            }
            e += 1;
        }
        proof {
            assert(next_comma(s, e as int) == e as int);
        }
        let frag = text.substring_char(i, e);
        out.push(frag.to_owned());
        proof {
            assert(out.deep_view() =~= out.deep_view().take(out@.len() - 1).push(
                s.subrange(old_i, e as int),
            ));
        }
        if e >= n {
            finished = true;
            proof {
                assert(comma_split(s, old_i) =~= seq![s.subrange(old_i, n as int)]);
                assert(out.deep_view() =~= comma_split(s, 0));
            }
        } else {
            i = e + 1;
            proof {
                assert(comma_split(s, old_i) =~= seq![s.subrange(old_i, e as int)] + comma_split(
                    s,
                    i as int,
                ));
                assert(comma_split(s, 0) =~= out.deep_view() + comma_split(s, i as int));
            }
        }
    }
    out
}

/// The text member of a metadata map, when present and textual.
pub open spec fn md_field(m: Meta, key: Seq<char>) -> Option<Seq<char>> {
    match crate::gallery::spec_lookup(m, key) {
        Some(Meta::Text(s)) => Some(s@),
        _ => None,
    }
}

/// Assembles a cmdlet record from a help file's parsed metadata documents
/// and its body's events.  The metadata must be a single map; its `title`
/// names the cmdlet, its `online version` links the help, and its
/// `keywords`, split on commas, tag it.  The synopsis, syntax, description
/// and notes come from the body's sections.  The module name and version
/// are not recorded in help files.
pub fn process_file_md(docs: &Vec<Meta>, events: &Vec<MdEvent>) -> (r: Result<
    Cmdlet,
    FindCmdletError,
>)
    ensures
        r is Ok <==> docs@.len() == 1 && (docs@[0] matches Meta::Object(_)) && md_field(
            docs@[0],
            "title"@,
        ) is Some && md_field(docs@[0], "online version"@) is Some,
        r matches Err(e) ==> {
            &&& (e matches FindCmdletError::UnexpectedMetaData <==> !(docs@.len() == 1 && docs@[0]
                matches Meta::Object(_)))
            &&& (e matches FindCmdletError::MissingCmdletName <==> docs@.len() == 1 && (docs@[0]
                matches Meta::Object(_)) && md_field(docs@[0], "title"@) is None)
            &&& (e matches FindCmdletError::MissingCmdletUrl <==> docs@.len() == 1 && (docs@[0]
                matches Meta::Object(_)) && md_field(docs@[0], "title"@) is Some && md_field(
                docs@[0],
                "online version"@,
            ) is None)
        },
        r matches Ok(c) ==> {
            &&& Some(c.name@) == md_field(docs@[0], "title"@)
            &&& Some(c.url@) == md_field(docs@[0], "online version"@)
            &&& c.tags.deep_view() == comma_split(
                match md_field(docs@[0], "keywords"@) {
                    Some(k) => k,
                    None => Seq::empty(),
                },
                0,
            )
            &&& c.synopsis@ == pick_section(sections_spec(events@), "SYNOPSIS"@)
            &&& c.syntax@ == pick_section(sections_spec(events@), "SYNTAX"@)
            &&& c.description@ == pick_section(sections_spec(events@), "DESCRIPTION"@)
            &&& c.notes@ == pick_section(sections_spec(events@), "NOTES"@)
            &&& c.module@ == "TODO"@
            &&& c.module_version@ == "TODO"@
        },
{
    if docs.len() != 1 {
        return Err(FindCmdletError::UnexpectedMetaData);
    }
    let meta = &docs[0];
    let is_map = match meta {
        Meta::Object(_) => true,
        _ => false,
    };
    if !is_map {
        return Err(FindCmdletError::UnexpectedMetaData);
    }

    let name = match text_member(meta, "title") {
        Some(t) => t,
        Option::None => { return Err(FindCmdletError::MissingCmdletName) },
    };
    let url = match text_member(meta, "online version") {
        Some(t) => t,
        Option::None => { return Err(FindCmdletError::MissingCmdletUrl) },
    };
    let keywords = match text_member(meta, "keywords") {
        Some(t) => t,
        Option::None => String::new(),
    };
    let tags = split_commas(keywords.as_str());

    let sections = collect_sections(events);
    let ghost views = sections@.map_values(|p: (String, String)| (p.0@, p.1@));
    proof {
        assert(views =~= sections_spec(events@));
    }
    let synopsis = find_section(&sections, "SYNOPSIS");
    let syntax = find_section(&sections, "SYNTAX");
    let description = find_section(&sections, "DESCRIPTION");
    let notes = find_section(&sections, "NOTES");

    Ok(Cmdlet {
        module: String::from_str("TODO"),
        module_version: String::from_str("TODO"),
        name,
        url,
        tags,
        synopsis,
        syntax,
        description,
        notes,
    })
}

/// The text member of a metadata map, cloned, when present and textual.
fn text_member(m: &Meta, key: &str) -> (r: Option<String>)
    ensures
        r matches Some(t) ==> md_field(*m, key@) == Some(t@),
        r is None ==> md_field(*m, key@) is None,
{
    match m.get(key) {
        Some(v) => {
            match v.as_text() {
                Some(t) => Some(t.clone()),
                Option::None => Option::None,
            }
        },
        Option::None => Option::None,
    }
}

} // verus!