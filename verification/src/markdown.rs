//! Extraction of repository links from a markdown list document.
//!
//! The grammar this library reads is the part of markdown that list
//! documents use: ATX headings (`## Title`) build a section path, fenced
//! code blocks (```` ``` ````) are skipped, and inline links `[label](url)`
//! are collected line by line, in document order. A heading of level one is
//! a document title and does not touch the section path; a heading of level
//! `L >= 2` replaces the path entry at depth `L - 2` and discards deeper
//! entries. Link labels may hold nested brackets; image links (`![...]`) are
//! not collected. URLs that do not resolve to a known source are silently
//! dropped.

use vstd::prelude::*;
use crate::source::{spec_parse_url, IdentV, LinkV, RepoIdent, RepoLink};
use crate::strutil::{
    find_char_from, first_occ, lemma_first_occ, lemma_first_occ_is, spec_starts_with, spec_trim,
    starts_with_str, trim_ws,
};

verus! {

/// Markdown that this extractor cannot read. The grammar accepts every
/// input, so no function of this module ever returns it; it is the error
/// type of `parse_markdown`'s result.
#[derive(Clone, Copy, Debug, PartialEq, Eq, Structural)]
pub struct ParseError {
}

/// Number of `#` characters at the start of a line.
pub open spec fn leading_hashes(line: Seq<char>) -> int
    decreases line.len(),
{
    if line.len() > 0 && line[0] == '#' {
        1 + leading_hashes(line.drop_first())
    } else {
        0
    }
}

/// Characterization of `leading_hashes`.
pub proof fn lemma_leading_hashes_is(line: Seq<char>, k: int)
    requires
        0 <= k <= line.len(),
        forall|j: int| 0 <= j < k ==> line[j] == '#',
        k < line.len() ==> line[k] != '#',
    ensures
        leading_hashes(line) == k,
    decreases k,
{
    if k > 0 {
        lemma_leading_hashes_is(line.drop_first(), k - 1);
    }
}

/// The heading level of a line: the number of leading `#` when it is
/// between one and six and followed by a space or the end of the line;
/// zero when the line is not a heading.
pub open spec fn heading_level(line: Seq<char>) -> int {
    let h = leading_hashes(line);
    if 1 <= h <= 6 && (h == line.len() || line[h] == ' ') {
        h
    } else {
        0
    }
}

/// The title of a heading line: everything after the `#` marks, trimmed.
pub open spec fn heading_title(line: Seq<char>) -> Seq<char> {
    spec_trim(line.skip(heading_level(line)))
}

/// Does this line open or close a fenced code block?
pub open spec fn is_fence(line: Seq<char>) -> bool {
    spec_starts_with(line, "```"@)
}

/// A heading of level `lvl + 1` replaces the section path entry at depth
/// `lvl - 1`, discarding deeper entries; a heading deeper than the current
/// path appends.
pub open spec fn apply_heading(
    stack: Seq<Seq<char>>,
    lvl: int,
    title: Seq<char>,
) -> Seq<Seq<char>> {
    if stack.len() < lvl {
        stack.push(title)
    } else {
        stack.take(lvl - 1).push(title)
    }
}

/// The index of the closing bracket matching nesting depth `depth`, looking
/// from `j` on; `line.len()` when there is none.
pub open spec fn match_close(
    line: Seq<char>,
    j: int,
    open: char,
    close: char,
    depth: int,
) -> int
    decreases line.len() - j,
{
    if j < 0 || j >= line.len() {
        line.len() as int
    } else if line[j] == close {
        if depth == 0 {
            j
        } else {
            match_close(line, j + 1, open, close, depth - 1)
        }
    } else if line[j] == open {
        match_close(line, j + 1, open, close, depth + 1)
    } else {
        match_close(line, j + 1, open, close, depth)
    }
}

/// `match_close` stays within the line.
pub proof fn lemma_match_close_bounds(line: Seq<char>, j: int, open: char, close: char, depth: int)
    requires
        0 <= j <= line.len(),
    ensures
        j <= match_close(line, j, open, close, depth) <= line.len(),
    decreases line.len() - j,
{
    if j < line.len() {
        if line[j] == close && depth == 0 {
        } else if line[j] == close {
            lemma_match_close_bounds(line, j + 1, open, close, depth - 1);
        } else if line[j] == open {
            lemma_match_close_bounds(line, j + 1, open, close, depth + 1);
        } else {
            lemma_match_close_bounds(line, j + 1, open, close, depth);
        }
    }
}

/// The link starting with the `[` at position `j`, if it is well-formed:
/// the destination between the parentheses and the position right after the
/// closing parenthesis.
pub open spec fn link_at(line: Seq<char>, j: int) -> Option<(Seq<char>, int)> {
    let rb = match_close(line, j + 1, '[', ']', 0);
    if rb >= line.len() {
        None
    } else if rb + 1 >= line.len() || line[rb + 1] != '(' {
        None
    } else {
        let cp = match_close(line, rb + 2, '(', ')', 0);
        if cp >= line.len() {
            None
        } else {
            Some((line.subrange(rb + 2, cp), cp + 1))
        }
    }
}

/// The links found in `line` from position `j` on, each annotated with the
/// given section path. A `[` opens a candidate link unless it belongs to an
/// image; a candidate whose destination does not resolve contributes
/// nothing.
pub open spec fn links_in_line(line: Seq<char>, section: Seq<Seq<char>>, j: int) -> Seq<LinkV>
    decreases line.len() - j,
{
    if j < 0 || j >= line.len() {
        Seq::empty()
    } else if line[j] == '[' && !(j > 0 && line[j - 1] == '!') {
        match link_at(line, j) {
            Some(dest_end) => {
                let here = match spec_parse_url(dest_end.0) {
                    Ok(id) => seq![LinkV { ident: id, section }],
                    Err(_) => Seq::empty(),
                };
                let k = if dest_end.1 <= j {
                    j + 1
                } else {
                    dest_end.1
                };
                here + links_in_line(line, section, k)
            },
            None => links_in_line(line, section, j + 1),
        }
    } else {
        links_in_line(line, section, j + 1)
    }
}

/// The end of the line that starts at `i`: the next newline, or the end of
/// the document.
pub open spec fn line_end(s: Seq<char>, i: int) -> int {
    i + first_occ(s.skip(i), '\n')
}

/// The links of the document from position `i` on, given the section path
/// and fence state reached so far.
pub open spec fn scan_doc(s: Seq<char>, i: int, stack: Seq<Seq<char>>, fence: bool) -> Seq<LinkV>
    decreases s.len() - i,
{
    if i < 0 || i >= s.len() {
        Seq::empty()
    } else {
        let e = line_end(s, i);
        let e2 = if e < i {
            i
        } else if e > s.len() {
            s.len() as int
        } else {
            e
        };
        let line = s.subrange(i, e2);
        let next = if e2 + 1 > s.len() {
            s.len() as int
        } else {
            e2 + 1
        };
        if is_fence(line) {
            scan_doc(s, next, stack, !fence)
        } else if fence {
            scan_doc(s, next, stack, fence)
        } else if heading_level(line) >= 2 {
            scan_doc(
                s,
                next,
                apply_heading(stack, heading_level(line) - 1, heading_title(line)),
                fence,
            )
        } else if heading_level(line) == 1 {
            scan_doc(s, next, stack, fence)
        } else {
            links_in_line(line, stack, 0) + scan_doc(s, next, stack, fence)
        }
    }
}

/// All repository links of a markdown document, in document order, each
/// annotated with the section path active where it appeared.
pub open spec fn spec_extract(s: Seq<char>) -> Seq<LinkV> {
    scan_doc(s, 0, Seq::empty(), false)
}

/// Executable mirror of `match_close`.
fn match_close_exec(line: &str, j: usize, open: char, close: char) -> (r: usize)
    requires
        j <= line@.len(),
    ensures
        r == match_close(line@, j as int, open, close, 0),
        j <= r <= line@.len(),
{
    let len: usize = line.unicode_len();
    let mut k: usize = j;
    let mut depth: usize = 0;
    loop
        invariant
            j <= k <= len,
            len == line@.len(),
            depth <= k - j,
            match_close(line@, j as int, open, close, 0) == match_close(
                line@,
                k as int,
                open,
                close,
                depth as int,
            ),
        decreases len - k,
    {
        if k >= len {
            return len;
        }
        let c = line.get_char(k);
        if c == close {
            if depth == 0 {
                proof {
                    lemma_match_close_bounds(line@, j as int, open, close, 0);
                }
                return k;
            }
            depth = depth - 1;
        } else if c == open {
            depth = depth + 1;
        }
        k = k + 1;
    }
}

/// Executable mirror of `leading_hashes` and `heading_level`.
fn heading_level_exec(line: &str) -> (r: usize)
    ensures
        r == heading_level(line@),
        r <= line@.len(),
{
    let len: usize = line.unicode_len();
    let mut k: usize = 0;
    while k < len && line.get_char(k) == '#'
        invariant
            0 <= k <= len,
            len == line@.len(),
            forall|j: int| 0 <= j < k ==> line@[j] == '#',
        decreases len - k,
    {
        k = k + 1;
    }
    proof {
        lemma_leading_hashes_is(line@, k as int);
    }
    if 1 <= k && k <= 6 && (k == len || line.get_char(k) == ' ') {
        k
    } else {
        0
    }
}

/// Clones a section path.
fn clone_section(section: &Vec<String>) -> (r: Vec<String>)
    ensures
        r.deep_view() == section.deep_view(),
{
    let r = section.clone();
    proof {
        assert(r.deep_view() =~= section.deep_view());
    }
    r
}

/// Collects the links of one line, annotated with the current section path.
#[verifier::loop_isolation(false)]
fn scan_line_links(line: &str, section: &Vec<String>, out: &mut Vec<RepoLink>)
    ensures
        final(out).deep_view() == old(out).deep_view() + links_in_line(
            line@,
            section.deep_view(),
            0,
        ),
{
    let ghost base = out.deep_view();
    let ghost sec = section.deep_view();
    let len: usize = line.unicode_len();
    let mut j: usize = 0;
    proof {
        assert(base + links_in_line(line@, sec, 0) =~= out.deep_view() + links_in_line(
            line@,
            sec,
            0,
        ));
    }
    while j < len
        invariant
            0 <= j <= len,
            len == line@.len(),
            sec == section.deep_view(),
            base + links_in_line(line@, sec, 0) =~= out.deep_view() + links_in_line(
                line@,
                sec,
                j as int,
            ),
        decreases len - j,
    {
        let c = line.get_char(j);
        if c == '[' && !(j > 0 && line.get_char(j - 1) == '!') {
            let rb = match_close_exec(line, j + 1, '[', ']');
            if rb < len && rb + 1 < len && line.get_char(rb + 1) == '(' {
                let cp = match_close_exec(line, rb + 2, '(', ')');
                if cp < len {
                    let dest = line.substring_char(rb + 2, cp);
                    proof {
                        assert(link_at(line@, j as int) == Some(
                            (line@.subrange(rb + 2, cp as int), cp + 1 as int),
                        ));
                        assert(dest@ == line@.subrange(rb + 2, cp as int));
                    }
                    match RepoIdent::parse_url(dest) {
                        Ok(id) => {
                            let link = RepoLink { ident: id, section: clone_section(section) };
                            out.push(link);
                            proof {
                                assert(out.deep_view() =~= out.deep_view().drop_last().push(
                                    LinkV { ident: id@, section: sec },
                                ));
                                assert(base + links_in_line(line@, sec, 0) =~= out.deep_view()
                                    + links_in_line(line@, sec, cp + 1 as int));
                            }
                        },
                        Err(_) => {
                            proof {
                                assert(base + links_in_line(line@, sec, 0) =~= out.deep_view()
                                    + links_in_line(line@, sec, cp + 1 as int));
                            }
                        },
                    }
                    j = cp + 1;
                } else {
                    proof {
                        assert(link_at(line@, j as int) is None);
                    }
                    j = j + 1;
                }
            } else {
                proof {
                    assert(link_at(line@, j as int) is None);
                }
                j = j + 1;
            }
        } else {
            j = j + 1;
        }
    }
}

/// Applies a heading of the given level to the section path.
fn apply_heading_exec(section: &mut Vec<String>, lvl: usize, title: String)
    requires
        lvl >= 1,
    ensures
        final(section).deep_view() == apply_heading(old(section).deep_view(), lvl as int, title@),
{
    let ghost s0 = section.deep_view();
    if section.len() < lvl {
        section.push(title);
        proof {
            assert(section.deep_view() =~= s0.push(title@));
        }
    } else {
        section.truncate(lvl - 1);
        proof {
            assert(section.deep_view() =~= s0.take(lvl - 1));
        }
        section.push(title);
        proof {
            assert(section.deep_view() =~= s0.take(lvl - 1).push(title@));
        }
    }
}

/// Reads a markdown document and returns its repository links, in document
/// order, each annotated with the heading path active where it appeared.
/// Every input is readable: the result is always `Ok`.
#[verifier::loop_isolation(false)]
pub fn parse_markdown(input: &str) -> (r: Result<Vec<RepoLink>, ParseError>)
    ensures
        r matches Ok(links) && links.deep_view() == spec_extract(input@),
{
    let len: usize = input.unicode_len();
    let mut links: Vec<RepoLink> = Vec::new();
    let mut section: Vec<String> = Vec::new();
    let mut fence: bool = false;
    let mut i: usize = 0;
    proof {
        assert(links.deep_view() =~= Seq::<LinkV>::empty());
        assert(section.deep_view() =~= Seq::<Seq<char>>::empty());
        assert(links.deep_view() + scan_doc(input@, 0, section.deep_view(), false) =~= spec_extract(
            input@,
        ));
    }
    while i < len
        invariant
            0 <= i <= len,
            len == input@.len(),
            spec_extract(input@) =~= links.deep_view() + scan_doc(
                input@,
                i as int,
                section.deep_view(),
                fence,
            ),
        decreases len - i,
    {
        let e = match find_char_from(input, i, '\n') {
            Some(j) => j,
            None => len,
        };
        proof {
            lemma_first_occ_is(input@.skip(i as int), '\n', e - i);
            assert(line_end(input@, i as int) == e);
        }
        let line = input.substring_char(i, e);
        proof {
            assert(line@ == input@.subrange(i as int, e as int));
        }
        let h = heading_level_exec(line);
        if starts_with_str(line, "```") {
            fence = !fence;
        } else if fence {
            // inside a code block: no headings, no links
        } else if h >= 2 {
            let title = trim_ws(line.substring_char(h, line.unicode_len())).to_owned();
            proof {
                assert(line@.subrange(h as int, line@.len() as int) =~= line@.skip(h as int));
                assert(title@ == heading_title(line@));
            }
            apply_heading_exec(&mut section, h - 1, title);
        } else if h == 1 {
            // a document title: ignored
        } else {
            scan_line_links(line, &section, &mut links);
        }
        if e < len {
            i = e + 1;
        } else {
            proof {
                assert(scan_doc(input@, e + 1 as int, section.deep_view(), fence)
                    =~= Seq::<LinkV>::empty());
                assert(scan_doc(input@, len as int, section.deep_view(), fence)
                    =~= Seq::<LinkV>::empty());
            }
            i = len;
        }
    }
    Ok(links)
}

} // verus!
