//! The redirect record extractor: one raw dump line holds zero or more
//! batched redirect rows; each row in the primary content namespace yields
//! one `Redirect`.
//!
//! A row has the shape `(id,0,'title','s1','s2')` where `id` is the
//! redirecting page's id, the literal `0` pins the namespace, `title` is the
//! target title, and `s1`, `s2` are quoteless strings. Rows of other
//! namespaces or broken rows are skipped without error.

use vstd::prelude::*;

use crate::data::parsers::common::{
    char_at_is, digits_end, digits_to_id, id_of_digits, nonquote_end, scan_digits, scan_nonquote,
    str_chars,
};
use crate::redirects::{Redirect, RedirectModel};

verus! {

/// The redirect row starting exactly at `i`, if any: the parsed record and
/// the position just past the row.
pub open spec fn try_redirect_row(s: Seq<char>, i: int) -> Option<(RedirectModel, int)> {
    if !(0 <= i && i < s.len() && s[i] == '(') {
        None
    } else {
        let d1 = i + 1;
        let e1 = digits_end(s, d1);
        if e1 == d1 || e1 + 4 > s.len() || s[e1] != ',' || s[e1 + 1] != '0' || s[e1 + 2] != ','
            || s[e1 + 3] != '\'' {
            None
        } else {
            let t1 = e1 + 4;
            let t2 = nonquote_end(s, t1);
            if t2 == t1 || t2 + 3 > s.len() || s[t2 + 1] != ',' || s[t2 + 2] != '\'' {
                None
            } else {
                let q1 = t2 + 3;
                let eq1 = nonquote_end(s, q1);
                if eq1 + 3 > s.len() || s[eq1 + 1] != ',' || s[eq1 + 2] != '\'' {
                    None
                } else {
                    let q2 = eq1 + 3;
                    let eq2 = nonquote_end(s, q2);
                    if eq2 + 2 > s.len() || s[eq2 + 1] != ')' {
                        None
                    } else {
                        match id_of_digits(s, d1, e1) {
                            None => None,
                            Some(id) => Some(
                                (RedirectModel { id, title: s.subrange(t1, t2) }, eq2 + 2),
                            ),
                        }
                    }
                }
            }
        }
    }
}

/// Every redirect row of the line, scanning left to right.
pub open spec fn redirect_rows(s: Seq<char>, i: int) -> Seq<RedirectModel>
    decreases s.len() - i when 0 <= i <= s.len()
{
    if i >= s.len() {
        Seq::empty()
    } else {
        match try_redirect_row(s, i) {
            Some((r, j)) => if i < j <= s.len() {
                seq![r] + redirect_rows(s, j)
            } else {
                seq![r]
            },
            None => redirect_rows(s, i + 1),
        }
    }
}

/// The redirect records of many lines, in line order.
pub open spec fn redirect_records_of_lines(lines: Seq<Seq<char>>) -> Seq<RedirectModel>
    decreases lines.len(),
{
    if lines.len() == 0 {
        Seq::empty()
    } else {
        redirect_rows(lines.first(), 0) + redirect_records_of_lines(lines.drop_first())
    }
}

/// Law: however a batch of lines is divided among parsing workers,
/// concatenating the workers' outputs gives the same redirect records.
pub proof fn lemma_redirect_records_split(l1: Seq<Seq<char>>, l2: Seq<Seq<char>>)
    ensures
        redirect_records_of_lines(l1 + l2) == redirect_records_of_lines(l1)
            + redirect_records_of_lines(l2),
    decreases l1.len(),
{
    if l1.len() == 0 {
        assert(l1 + l2 =~= l2);
        assert(redirect_records_of_lines(l1) + redirect_records_of_lines(l2)
            =~= redirect_records_of_lines(l2));
    } else {
        lemma_redirect_records_split(l1.drop_first(), l2);
        assert((l1 + l2).drop_first() =~= l1.drop_first() + l2);
        assert((l1 + l2).first() == l1.first());
        let a = redirect_rows(l1.first(), 0);
        let b = redirect_records_of_lines(l1.drop_first());
        let c = redirect_records_of_lines(l2);
        assert(redirect_records_of_lines(l1 + l2) == a + (b + c));
        assert(a + (b + c) =~= (a + b) + c);
    }
}

/// Finds the redirect row starting exactly at `i`, executably: the id, the
/// target title's bounds, and the position just past the row.
fn try_redirect_row_at(s: &Vec<char>, i: usize) -> (result: Option<(i32, usize, usize, usize)>)
    requires
        i <= s@.len(),
    ensures
        match result {
            Some((id, t1, t2, j)) => {
                &&& try_redirect_row(s@, i as int) == Some(
                    (
                        RedirectModel { id, title: s@.subrange(t1 as int, t2 as int) },
                        j as int,
                    ),
                )
                &&& i < j <= s@.len()
                &&& t1 <= t2 <= s@.len()
            },
            None => try_redirect_row(s@, i as int) is None,
        },
{
    let n = s.len();
    if !char_at_is(s, i, '(') {
        return None;
    }
    let d1 = i + 1;
    let e1 = scan_digits(s, d1);
    if e1 == d1 || !char_at_is(s, e1, ',') || !char_at_is(s, e1 + 1, '0') || !char_at_is(
        s,
        e1 + 2,
        ',',
    ) || !char_at_is(s, e1 + 3, '\'') {
        return None;
    }
    let t1 = e1 + 4;
    let t2 = scan_nonquote(s, t1);
    if t2 == t1 || t2 >= n || !char_at_is(s, t2 + 1, ',') || !char_at_is(s, t2 + 2, '\'') {
        return None;
    }
    let q1 = t2 + 3;
    let eq1 = scan_nonquote(s, q1);
    if eq1 >= n || !char_at_is(s, eq1 + 1, ',') || !char_at_is(s, eq1 + 2, '\'') {
        return None;
    }
    let q2 = eq1 + 3;
    let eq2 = scan_nonquote(s, q2);
    if eq2 >= n || !char_at_is(s, eq2 + 1, ')') {
        return None;
    }
    proof {
        crate::data::parsers::common::lemma_digits_end_range(s@, d1 as int);
    }
    match digits_to_id(s, d1, e1) {
        None => None,
        Some(id) => Some((id, t1, t2, eq2 + 2)),
    }
}

/// Extracts every redirect row of one raw dump line; rows outside the
/// primary namespace or too broken to match contribute nothing.
pub fn parse_redirect_entry(line: &str) -> (result: Vec<Redirect>)
    ensures
        result@.map_values(|r: Redirect| r@) == redirect_rows(line@, 0),
{
    let chars = str_chars(line);
    let mut out: Vec<Redirect> = Vec::new();
    let mut i: usize = 0;
    while i < chars.len()
        invariant
            chars@ == line@,
            i <= chars@.len(),
            redirect_rows(line@, 0) == out@.map_values(|r: Redirect| r@) + redirect_rows(
                line@,
                i as int,
            ),
        decreases chars@.len() - i,
    {
        match try_redirect_row_at(&chars, i) {
            Some((id, t1, t2, j)) => {
                let title = line.substring_char(t1, t2).to_owned();
                let ghost before = out@;
                out.push(Redirect { id, title });
                proof {
                    let r = RedirectModel { id, title: line@.subrange(t1 as int, t2 as int) };
                    assert(out@.map_values(|q: Redirect| q@) =~= before.map_values(
                        |q: Redirect| q@,
                    ) + seq![r]);
                    assert((before.map_values(|q: Redirect| q@) + seq![r]) + redirect_rows(
                        line@,
                        j as int,
                    ) =~= before.map_values(|q: Redirect| q@) + (seq![r] + redirect_rows(
                        line@,
                        j as int,
                    )));
                }
                i = j;
            },
            None => {
                i = i + 1;
            },
        }
    }
    proof {
        assert(redirect_rows(line@, chars@.len() as int) == Seq::<RedirectModel>::empty());
        assert(out@.map_values(|r: Redirect| r@) + Seq::<RedirectModel>::empty()
            =~= out@.map_values(|r: Redirect| r@));
    }
    out
}

} // verus!
