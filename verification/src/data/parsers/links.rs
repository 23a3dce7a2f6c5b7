//! The link record extractor: one raw dump line holds zero or more batched
//! link rows; each row in the primary content namespace whose destination
//! title the page index knows yields one resolved edge. Resolution happens
//! at parse time, so this extractor can only run once the page index is
//! fully built; rows whose title is unknown are dropped silently.
//!
//! A row has the shape `(from,0,'title',0,N)` where `from` is the linking
//! page's id, the two literal `0`s pin the namespaces, `title` is the
//! destination title, and `N` is an optional digit run. Rows of other
//! namespaces or broken rows are skipped without error.

use vstd::prelude::*;

use crate::data::links::LinkResolved;
use crate::data::maps::page_map::PageMap;
use crate::data::parsers::common::{
    char_at_is, digits_end, digits_to_id, id_of_digits, nonquote_end, scan_digits, scan_nonquote,
    str_chars,
};

verus! {

/// The link row starting exactly at `i`, if any: the source id, the
/// destination title, and the position just past the row.
pub open spec fn try_link_row(s: Seq<char>, i: int) -> Option<(i32, Seq<char>, int)> {
    if !(0 <= i && i < s.len() && s[i] == '(') {
        None
    } else {
        let d1 = i + 1;
        let e1 = digits_end(s, d1);
        if e1 == d1 || e1 + 4 > s.len() || s[e1] != ',' || s[e1 + 1] != '0' || s[e1 + 2] != ','
            || s[e1 + 3] != '\'' {
            None
        } else {
            let t1 = e1 + 4;
            let t2 = nonquote_end(s, t1);
            if t2 == t1 || t2 + 4 > s.len() || s[t2 + 1] != ',' || s[t2 + 2] != '0' || s[t2 + 3]
                != ',' {
                None
            } else {
                let dg1 = t2 + 4;
                let edg = digits_end(s, dg1);
                if edg >= s.len() || s[edg] != ')' {
                    None
                } else {
                    match id_of_digits(s, d1, e1) {
                        None => None,
                        Some(from) => Some((from, s.subrange(t1, t2), edg + 1)),
                    }
                }
            }
        }
    }
}

/// Every resolved edge of the line, scanning left to right: a matching row
/// whose destination title the map knows contributes the edge from its
/// source id to the title's id; other titles are dropped.
pub open spec fn resolved_link_rows(s: Seq<char>, i: int, ids: Map<Seq<char>, i32>) -> Seq<
    LinkResolved,
>
    decreases s.len() - i when 0 <= i <= s.len()
{
    if i >= s.len() {
        Seq::empty()
    } else {
        match try_link_row(s, i) {
            Some((from, title, j)) => {
                let rest = if i < j <= s.len() {
                    resolved_link_rows(s, j, ids)
                } else {
                    Seq::empty()
                };
                if ids.dom().contains(title) {
                    seq![(from, ids[title])] + rest
                } else {
                    rest
                }
            },
            None => resolved_link_rows(s, i + 1, ids),
        }
    }
}

/// The resolved edges of many lines, in line order.
pub open spec fn link_records_of_lines(lines: Seq<Seq<char>>, ids: Map<Seq<char>, i32>) -> Seq<
    LinkResolved,
>
    decreases lines.len(),
{
    if lines.len() == 0 {
        Seq::empty()
    } else {
        resolved_link_rows(lines.first(), 0, ids) + link_records_of_lines(
            lines.drop_first(),
            ids,
        )
    }
}

/// Law: however a batch of lines is divided among parsing workers,
/// concatenating the workers' outputs gives the same resolved edges.
pub proof fn lemma_link_records_split(
    l1: Seq<Seq<char>>,
    l2: Seq<Seq<char>>,
    ids: Map<Seq<char>, i32>,
)
    ensures
        link_records_of_lines(l1 + l2, ids) == link_records_of_lines(l1, ids)
            + link_records_of_lines(l2, ids),
    decreases l1.len(),
{
    if l1.len() == 0 {
        assert(l1 + l2 =~= l2);
        assert(link_records_of_lines(l1, ids) + link_records_of_lines(l2, ids)
            =~= link_records_of_lines(l2, ids));
    } else {
        lemma_link_records_split(l1.drop_first(), l2, ids);
        assert((l1 + l2).drop_first() =~= l1.drop_first() + l2);
        assert((l1 + l2).first() == l1.first());
        let a = resolved_link_rows(l1.first(), 0, ids);
        let b = link_records_of_lines(l1.drop_first(), ids);
        let c = link_records_of_lines(l2, ids);
        assert(link_records_of_lines(l1 + l2, ids) == a + (b + c));
        assert(a + (b + c) =~= (a + b) + c);
    }
}

/// Finds the link row starting exactly at `i`, executably: the source id,
/// the destination title's bounds, and the position just past the row.
fn try_link_row_at(s: &Vec<char>, i: usize) -> (result: Option<(i32, usize, usize, usize)>)
    requires
        i <= s@.len(),
    ensures
        match result {
            Some((from, t1, t2, j)) => {
                &&& try_link_row(s@, i as int) == Some(
                    (from, s@.subrange(t1 as int, t2 as int), j as int),
                )
                &&& i < j <= s@.len()
                &&& t1 <= t2 <= s@.len()
            },
            None => try_link_row(s@, i as int) is None,
        },
{
    let n = s.len();
    if !char_at_is(s, i, '(') {
        return None;
    }
    let d1 = i + 1;
    let e1 = scan_digits(s, d1);
    if e1 == d1 || !char_at_is(s, e1, ',') || !char_at_is(s, e1 + 1, '0') || !char_at_is(
        s,
        e1 + 2,
        ',',
    ) || !char_at_is(s, e1 + 3, '\'') {
        return None;
    }
    let t1 = e1 + 4;
    let t2 = scan_nonquote(s, t1);
    if t2 == t1 || t2 >= n || !char_at_is(s, t2 + 1, ',') || !char_at_is(s, t2 + 2, '0')
        || !char_at_is(s, t2 + 3, ',') {
        return None;
    }
    let dg1 = t2 + 4;
    let edg = scan_digits(s, dg1);
    if edg >= n || !char_at_is(s, edg, ')') {
        return None;
    }
    proof {
        crate::data::parsers::common::lemma_digits_end_range(s@, d1 as int);
    }
    match digits_to_id(s, d1, e1) {
        None => None,
        Some(from) => Some((from, t1, t2, edg + 1)),
    }
}

/// Extracts every link row of one raw dump line and resolves each
/// destination title against the already built page index; rows outside the
/// primary namespace, broken rows and unknown titles contribute nothing.
pub fn sync_parse_link_entry(line: &str, resolver: &PageMap) -> (result: Vec<LinkResolved>)
    ensures
        result@ == resolved_link_rows(line@, 0, resolver.ids()),
{
    let chars = str_chars(line);
    let mut out: Vec<LinkResolved> = Vec::new();
    let mut i: usize = 0;
    while i < chars.len()
        invariant
            chars@ == line@,
            i <= chars@.len(),
            resolved_link_rows(line@, 0, resolver.ids()) == out@ + resolved_link_rows(
                line@,
                i as int,
                resolver.ids(),
            ),
        decreases chars@.len() - i,
    {
        match try_link_row_at(&chars, i) {
            Some((from, t1, t2, j)) => {
                let title = line.substring_char(t1, t2);
                let ghost before = out@;
                match resolver.name_to_id(title) {
                    Some(to) => {
                        out.push((from, to));
                        proof {
                            assert((before + seq![(from, to)]) + resolved_link_rows(
                                line@,
                                j as int,
                                resolver.ids(),
                            ) =~= before + (seq![(from, to)] + resolved_link_rows(
                                line@,
                                j as int,
                                resolver.ids(),
                            )));
                        }
                    },
                    None => {},
                }
                i = j;
            },
            None => {
                i = i + 1;
            },
        }
    }
    proof {
        assert(resolved_link_rows(line@, chars@.len() as int, resolver.ids()) == Seq::<
            LinkResolved,
        >::empty());
        assert(out@ + Seq::<LinkResolved>::empty() =~= out@);
    }
    out
}

} // verus!
