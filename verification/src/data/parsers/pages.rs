//! The page record extractor: one raw dump line holds zero or more batched
//! page rows; each row in the primary content namespace yields one `Page`.
//!
//! A row has the shape
//! `(id,0,'title',R,D,F,'s1','s2',N1,N2,'s3',rest)` where `id` is the page
//! id, the literal `0` pins the namespace, `R` and `D` are 0-or-1 flags (`R`
//! is the redirect flag), `F` is a run of digits and dots, `s1..s3` are
//! quoteless strings, `N1` is an optional and `N2` a mandatory digit run,
//! and `rest` runs to the row's closing parenthesis. Rows of other
//! namespaces or broken rows are skipped without error.

use vstd::prelude::*;

use crate::data::parsers::common::{
    char_at_is, digit_dots_end, digits_end, digits_to_id, id_of_digits, nonparen_end,
    nonquote_end, scan_digit_dots, scan_digits, scan_nonparen, scan_nonquote, str_chars,
};
use crate::pages::{Page, PageModel};

verus! {

/// The page row starting exactly at `i`, if any: the parsed record and the
/// position just past the row. Runs are maximal, so the result is the one a
/// left-to-right scan finds.
pub open spec fn try_page_row(s: Seq<char>, i: int) -> Option<(PageModel, int)> {
    if !(0 <= i && i < s.len() && s[i] == '(') {
        None
    } else {
        let d1 = i + 1;
        let e1 = digits_end(s, d1);
        if e1 == d1 || e1 + 4 > s.len() || s[e1] != ',' || s[e1 + 1] != '0' || s[e1 + 2] != ','
            || s[e1 + 3] != '\'' {
            None
        } else {
            let t1 = e1 + 4;
            let t2 = nonquote_end(s, t1);
            if t2 == t1 || t2 + 2 > s.len() || s[t2 + 1] != ',' {
                None
            } else {
                let f1 = t2 + 2;
                if f1 + 4 > s.len() || !(s[f1] == '0' || s[f1] == '1') || s[f1 + 1] != ',' || !(
                s[f1 + 2] == '0' || s[f1 + 2] == '1') || s[f1 + 3] != ',' {
                    None
                } else {
                    let dd1 = f1 + 4;
                    let edd = digit_dots_end(s, dd1);
                    if edd == dd1 || edd + 2 > s.len() || s[edd] != ',' || s[edd + 1] != '\'' {
                        None
                    } else {
                        let q1 = edd + 2;
                        let eq1 = nonquote_end(s, q1);
                        if eq1 + 3 > s.len() || s[eq1 + 1] != ',' || s[eq1 + 2] != '\'' {
                            None
                        } else {
                            let q2 = eq1 + 3;
                            let eq2 = nonquote_end(s, q2);
                            if eq2 + 2 > s.len() || s[eq2 + 1] != ',' {
                                None
                            } else {
                                let dg1 = eq2 + 2;
                                let edg1 = digits_end(s, dg1);
                                if edg1 >= s.len() || s[edg1] != ',' {
                                    None
                                } else {
                                    let dg2 = edg1 + 1;
                                    let edg2 = digits_end(s, dg2);
                                    if edg2 == dg2 || edg2 + 2 > s.len() || s[edg2] != ',' || s[edg2
                                        + 1] != '\'' {
                                        None
                                    } else {
                                        let q3 = edg2 + 2;
                                        let eq3 = nonquote_end(s, q3);
                                        if eq3 + 2 > s.len() || s[eq3 + 1] != ',' {
                                            None
                                        } else {
                                            let np1 = eq3 + 2;
                                            let enp = nonparen_end(s, np1);
                                            if enp >= s.len() {
                                                None
                                            } else {
                                                match id_of_digits(s, d1, e1) {
                                                    None => None,
                                                    Some(id) => Some(
                                                        (
                                                            PageModel {
                                                                id,
                                                                title: s.subrange(t1, t2),
                                                                redirect: s[f1] == '1',
                                                            },
                                                            enp + 1,
                                                        ),
                                                    ),
                                                }
                                            }
                                        }
                                    }
                                }
                            }
                        }
                    }
                }
            }
        }
    }
}

/// Every page row of the line, scanning left to right: a row consumes its
/// text, anything else advances one character.
pub open spec fn page_rows(s: Seq<char>, i: int) -> Seq<PageModel>
    decreases s.len() - i when 0 <= i <= s.len()
{
    if i >= s.len() {
        Seq::empty()
    } else {
        match try_page_row(s, i) {
            Some((p, j)) => if i < j <= s.len() {
                seq![p] + page_rows(s, j)
            } else {
                seq![p]
            },
            None => page_rows(s, i + 1),
        }
    }
}

/// The page records of many lines, in line order.
pub open spec fn page_records_of_lines(lines: Seq<Seq<char>>) -> Seq<PageModel>
    decreases lines.len(),
{
    if lines.len() == 0 {
        Seq::empty()
    } else {
        page_rows(lines.first(), 0) + page_records_of_lines(lines.drop_first())
    }
}

/// Law: the records of a batch of lines split at any point are the records
/// of the two halves, one after the other. However the lines are divided
/// among parsing workers, concatenating the workers' outputs gives the same
/// records, and in particular the same count; a line with no matching row
/// contributes nothing.
pub proof fn lemma_page_records_split(l1: Seq<Seq<char>>, l2: Seq<Seq<char>>)
    ensures
        page_records_of_lines(l1 + l2) == page_records_of_lines(l1)
            + page_records_of_lines(l2),
    decreases l1.len(),
{
    if l1.len() == 0 {
        assert(l1 + l2 =~= l2);
        assert(page_records_of_lines(l1) + page_records_of_lines(l2) =~= page_records_of_lines(
            l2,
        ));
    } else {
        lemma_page_records_split(l1.drop_first(), l2);
        assert((l1 + l2).drop_first() =~= l1.drop_first() + l2);
        assert((l1 + l2).first() == l1.first());
        let a = page_rows(l1.first(), 0);
        let b = page_records_of_lines(l1.drop_first());
        let c = page_records_of_lines(l2);
        assert(page_records_of_lines(l1 + l2) == a + (b + c));
        assert(a + (b + c) =~= (a + b) + c);
    }
}

/// Finds the page row starting exactly at `i`, executably: the id, the
/// title's bounds, the redirect flag, and the position just past the row.
fn try_page_row_at(s: &Vec<char>, i: usize) -> (result: Option<(i32, usize, usize, bool, usize)>)
    requires
        i <= s@.len(),
    ensures
        match result {
            Some((id, t1, t2, redirect, j)) => {
                &&& try_page_row(s@, i as int) == Some(
                    (
                        PageModel {
                            id,
                            title: s@.subrange(t1 as int, t2 as int),
                            redirect,
                        },
                        j as int,
                    ),
                )
                &&& i < j <= s@.len()
                &&& t1 <= t2 <= s@.len()
            },
            None => try_page_row(s@, i as int) is None,
        },
{
    let n = s.len();
    if !char_at_is(s, i, '(') {
        return None;
    }
    let d1 = i + 1;
    let e1 = scan_digits(s, d1);
    if e1 == d1 || !char_at_is(s, e1, ',') || !char_at_is(s, e1 + 1, '0') || !char_at_is(
        s,
        e1 + 2,
        ',',
    ) || !char_at_is(s, e1 + 3, '\'') {
        return None;
    }
    let t1 = e1 + 4;
    let t2 = scan_nonquote(s, t1);
    if t2 == t1 || t2 >= n || !char_at_is(s, t2 + 1, ',') {
        return None;
    }
    let f1 = t2 + 2;
    if f1 >= n {
        return None;
    }
    let redirect = char_at_is(s, f1, '1');
    if !(char_at_is(s, f1, '0') || redirect) || !char_at_is(s, f1 + 1, ',') {
        return None;
    }
    if f1 + 2 >= n {
        return None;
    }
    if !(char_at_is(s, f1 + 2, '0') || char_at_is(s, f1 + 2, '1')) || !char_at_is(s, f1 + 3, ',') {
        return None;
    }
    let dd1 = f1 + 4;
    if dd1 > n {
        return None;
    }
    let edd = scan_digit_dots(s, dd1);
    if edd == dd1 || !char_at_is(s, edd, ',') || !char_at_is(s, edd + 1, '\'') {
        return None;
    }
    let q1 = edd + 2;
    let eq1 = scan_nonquote(s, q1);
    if eq1 >= n || !char_at_is(s, eq1 + 1, ',') || !char_at_is(s, eq1 + 2, '\'') {
        return None;
    }
    let q2 = eq1 + 3;
    let eq2 = scan_nonquote(s, q2);
    if eq2 >= n || !char_at_is(s, eq2 + 1, ',') {
        return None;
    }
    let dg1 = eq2 + 2;
    if dg1 > n {
        return None;
    }
    let edg1 = scan_digits(s, dg1);
    if !char_at_is(s, edg1, ',') {
        return None;
    }
    let dg2 = edg1 + 1;
    let edg2 = scan_digits(s, dg2);
    if edg2 == dg2 || !char_at_is(s, edg2, ',') || !char_at_is(s, edg2 + 1, '\'') {
        return None;
    }
    let q3 = edg2 + 2;
    let eq3 = scan_nonquote(s, q3);
    if eq3 >= n || !char_at_is(s, eq3 + 1, ',') {
        return None;
    }
    let np1 = eq3 + 2;
    if np1 > n {
        return None;
    }
    let enp = scan_nonparen(s, np1);
    if enp >= n {
        return None;
    }
    proof {
        crate::data::parsers::common::lemma_digits_end_range(s@, d1 as int);
    }
    match digits_to_id(s, d1, e1) {
        None => None,
        Some(id) => Some((id, t1, t2, redirect, enp + 1)),
    }
}

/// Extracts every page row of one raw dump line; rows outside the primary
/// namespace or too broken to match contribute nothing.
pub fn parse_page_entry(line: &str) -> (result: Vec<Page>)
    ensures
        result@.map_values(|p: Page| p@) == page_rows(line@, 0),
{
    let chars = str_chars(line);
    let mut out: Vec<Page> = Vec::new();
    let mut i: usize = 0;
    while i < chars.len()
        invariant
            chars@ == line@,
            i <= chars@.len(),
            page_rows(line@, 0) == out@.map_values(|p: Page| p@) + page_rows(line@, i as int),
        decreases chars@.len() - i,
    {
        match try_page_row_at(&chars, i) {
            Some((id, t1, t2, redirect, j)) => {
                let title = line.substring_char(t1, t2).to_owned();
                let ghost before = out@;
                out.push(Page { id, title, redirect });
                proof {
                    let p = PageModel {
                        id,
                        title: line@.subrange(t1 as int, t2 as int),
                        redirect,
                    };
                    assert(out@.map_values(|q: Page| q@) =~= before.map_values(|q: Page| q@)
                        + seq![p]);
                    assert((before.map_values(|q: Page| q@) + seq![p]) + page_rows(
                        line@,
                        j as int,
                    ) =~= before.map_values(|q: Page| q@) + (seq![p] + page_rows(
                        line@,
                        j as int,
                    )));
                }
                i = j;
            },
            None => {
                i = i + 1;
            },
        }
    }
    proof {
        assert(page_rows(line@, chars@.len() as int) == Seq::<PageModel>::empty());
        assert(out@.map_values(|p: Page| p@) + Seq::<PageModel>::empty() =~= out@.map_values(
            |p: Page| p@,
        ));
    }
    out
}

} // verus!
