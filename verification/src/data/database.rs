//! The snapshot store: the pair (page index, link graph) as one
//! self-describing binary blob, written and read as a whole.
//!
//! The blob is a sequence of 64-bit little-endian words: the page records,
//! the redirect records and the resolved edges, each list behind its count.
//! Ids travel as two's-complement words, titles as a length followed by one
//! word per character. Reading rebuilds the index and the graph from the
//! decoded records with the same constructors a derive run uses, so the
//! result answers every lookup exactly as the written pair did.

use std::collections::VecDeque;
use vstd::prelude::*;
use vstd::bytes::{spec_u64_from_le_bytes, spec_u64_to_le_bytes, u64_from_le_bytes, u64_to_le_bytes};
use vstd::utf8::is_scalar;

use crate::data::links::LinkResolved;
use crate::data::maps::link_map::{build_forward, LinkMap};
use crate::data::maps::page_map::{build_ids, build_names, build_redirects, PageMap};
use crate::data::parsers::common::{char_from_u32, chars_to_string};
use crate::indication::ProgressBuilder;
use crate::pages::{Page, PageModel};
use crate::redirects::{Redirect, RedirectModel};

verus! {

broadcast use vstd::utf8::char_is_scalar, vstd::utf8::char_u32_cast;

/// What a snapshot holds: the records the page index was built from and the
/// edges the link graph was built from.
pub struct SnapshotModel {
    pub pages: Seq<PageModel>,
    pub redirects: Seq<RedirectModel>,
    pub links: Seq<LinkResolved>,
}

// ---------------------------------------------------------------------------
// Word-level encoding
// ---------------------------------------------------------------------------

/// A page id as a word: its two's-complement 32-bit image.
pub open spec fn id_word(x: i32) -> u64 {
    if x >= 0 {
        x as u64
    } else {
        ((x as int) + 0x1_0000_0000) as u64
    }
}

/// The id a word stands for, if it fits 32 bits.
pub open spec fn word_id(w: u64) -> Option<i32> {
    if w < 0x8000_0000 {
        Some(w as i32)
    } else if w < 0x1_0000_0000 {
        Some(((w as int) - 0x1_0000_0000) as i32)
    } else {
        None
    }
}

/// A character as a word: its code point.
pub open spec fn char_word(c: char) -> u64 {
    (c as u32) as u64
}

/// Whether a word is the code point of some character.
pub open spec fn valid_char_word(w: u64) -> bool {
    w <= 0xFFFF_FFFF && is_scalar(w as u32)
}

/// The character a valid word stands for.
pub open spec fn word_char(w: u64) -> char {
    (w as u32) as char
}

/// A title as words: its length, then one word per character.
pub open spec fn enc_title(t: Seq<char>) -> Seq<u64> {
    seq![t.len() as u64] + t.map_values(|c: char| char_word(c))
}

/// A page record as words: id, redirect flag, title.
pub open spec fn enc_page(p: PageModel) -> Seq<u64> {
    seq![
        id_word(p.id),
        if p.redirect {
            1u64
        } else {
            0u64
        },
    ] + enc_title(p.title)
}

/// A list of page records as words, in order.
pub open spec fn enc_pages(ps: Seq<PageModel>) -> Seq<u64>
    decreases ps.len(),
{
    if ps.len() == 0 {
        Seq::empty()
    } else {
        enc_page(ps.first()) + enc_pages(ps.drop_first())
    }
}

/// A redirect record as words: id, target title.
pub open spec fn enc_redirect(r: RedirectModel) -> Seq<u64> {
    seq![id_word(r.id)] + enc_title(r.title)
}

/// A list of redirect records as words, in order.
pub open spec fn enc_redirects(rs: Seq<RedirectModel>) -> Seq<u64>
    decreases rs.len(),
{
    if rs.len() == 0 {
        Seq::empty()
    } else {
        enc_redirect(rs.first()) + enc_redirects(rs.drop_first())
    }
}

/// An edge as words: source id, destination id.
pub open spec fn enc_link(l: LinkResolved) -> Seq<u64> {
    seq![id_word(l.0), id_word(l.1)]
}

/// A list of edges as words, in order.
pub open spec fn enc_links(ls: Seq<LinkResolved>) -> Seq<u64>
    decreases ls.len(),
{
    if ls.len() == 0 {
        Seq::empty()
    } else {
        enc_link(ls.first()) + enc_links(ls.drop_first())
    }
}

/// The whole snapshot as words: each record list behind its count.
pub open spec fn encode_words(m: SnapshotModel) -> Seq<u64> {
    seq![m.pages.len() as u64] + enc_pages(m.pages) + seq![m.redirects.len() as u64]
        + enc_redirects(m.redirects) + seq![m.links.len() as u64] + enc_links(m.links)
}

/// Words as bytes, each in little-endian order.
pub open spec fn words_bytes(ws: Seq<u64>) -> Seq<u8>
    decreases ws.len(),
{
    if ws.len() == 0 {
        Seq::empty()
    } else {
        spec_u64_to_le_bytes(ws.first()) + words_bytes(ws.drop_first())
    }
}

/// The whole snapshot as bytes.
pub open spec fn spec_encode(m: SnapshotModel) -> Seq<u8> {
    words_bytes(encode_words(m))
}

// ---------------------------------------------------------------------------
// Word-level decoding
// ---------------------------------------------------------------------------

/// Reads a title at `cur`: a length word, then that many character words.
pub open spec fn dec_title(ws: Seq<u64>, cur: int) -> Option<(Seq<char>, int)> {
    if cur < 0 || cur >= ws.len() {
        None
    } else {
        let n = ws[cur] as int;
        if cur + 1 + n > ws.len() {
            None
        } else if !(forall|j: int| cur + 1 <= j < cur + 1 + n ==> valid_char_word(#[trigger] ws[j])) {
            None
        } else {
            Some((Seq::new(n as nat, |k: int| word_char(ws[cur + 1 + k])), cur + 1 + n))
        }
    }
}

/// Reads one page record at `cur`.
pub open spec fn dec_page(ws: Seq<u64>, cur: int) -> Option<(PageModel, int)> {
    if cur < 0 || cur + 2 > ws.len() {
        None
    } else {
        match word_id(ws[cur]) {
            None => None,
            Some(id) => {
                let flag = ws[cur + 1];
                if flag > 1 {
                    None
                } else {
                    match dec_title(ws, cur + 2) {
                        None => None,
                        Some((title, c2)) => Some(
                            (PageModel { id, title, redirect: flag == 1 }, c2),
                        ),
                    }
                }
            },
        }
    }
}

/// Reads `count` page records starting at `cur`.
pub open spec fn dec_pages(ws: Seq<u64>, cur: int, count: int) -> Option<(Seq<PageModel>, int)>
    decreases count,
{
    if count <= 0 {
        Some((Seq::empty(), cur))
    } else {
        match dec_page(ws, cur) {
            None => None,
            Some((p, c2)) => match dec_pages(ws, c2, count - 1) {
                None => None,
                Some((ps, c3)) => Some((seq![p] + ps, c3)),
            },
        }
    }
}

/// Reads one redirect record at `cur`.
pub open spec fn dec_redirect(ws: Seq<u64>, cur: int) -> Option<(RedirectModel, int)> {
    if cur < 0 || cur >= ws.len() {
        None
    } else {
        match word_id(ws[cur]) {
            None => None,
            Some(id) => match dec_title(ws, cur + 1) {
                None => None,
                Some((title, c2)) => Some((RedirectModel { id, title }, c2)),
            },
        }
    }
}

/// Reads `count` redirect records starting at `cur`.
pub open spec fn dec_redirects(ws: Seq<u64>, cur: int, count: int) -> Option<
    (Seq<RedirectModel>, int),
>
    decreases count,
{
    if count <= 0 {
        Some((Seq::empty(), cur))
    } else {
        match dec_redirect(ws, cur) {
            None => None,
            Some((r, c2)) => match dec_redirects(ws, c2, count - 1) {
                None => None,
                Some((rs, c3)) => Some((seq![r] + rs, c3)),
            },
        }
    }
}

/// Reads one edge at `cur`.
pub open spec fn dec_link(ws: Seq<u64>, cur: int) -> Option<(LinkResolved, int)> {
    if cur < 0 || cur + 2 > ws.len() {
        None
    } else {
        match word_id(ws[cur]) {
            None => None,
            Some(from) => match word_id(ws[cur + 1]) {
                None => None,
                Some(to) => Some(((from, to), cur + 2)),
            },
        }
    }
}

/// Reads `count` edges starting at `cur`.
pub open spec fn dec_links(ws: Seq<u64>, cur: int, count: int) -> Option<(Seq<LinkResolved>, int)>
    decreases count,
{
    if count <= 0 {
        Some((Seq::empty(), cur))
    } else {
        match dec_link(ws, cur) {
            None => None,
            Some((l, c2)) => match dec_links(ws, c2, count - 1) {
                None => None,
                Some((ls, c3)) => Some((seq![l] + ls, c3)),
            },
        }
    }
}

/// Reads a whole snapshot from words; trailing words make the blob invalid.
pub open spec fn decode_words(ws: Seq<u64>) -> Option<SnapshotModel> {
    if ws.len() < 1 {
        None
    } else {
        match dec_pages(ws, 1, ws[0] as int) {
            None => None,
            Some((pages, c1)) => {
                if c1 >= ws.len() {
                    None
                } else {
                    match dec_redirects(ws, c1 + 1, ws[c1] as int) {
                        None => None,
                        Some((redirects, c2)) => {
                            if c2 >= ws.len() {
                                None
                            } else {
                                match dec_links(ws, c2 + 1, ws[c2] as int) {
                                    None => None,
                                    Some((links, c3)) => {
                                        if c3 == ws.len() {
                                            Some(SnapshotModel { pages, redirects, links })
                                        } else {
                                            None
                                        }
                                    },
                                }
                            }
                        },
                    }
                }
            },
        }
    }
}

/// Bytes as words, eight at a time; a length not divisible by eight makes
/// the blob invalid.
pub open spec fn bytes_words(bytes: Seq<u8>) -> Option<Seq<u64>> {
    if bytes.len() % 8 != 0 {
        None
    } else {
        Some(
            Seq::new(
                (bytes.len() / 8) as nat,
                |i: int| spec_u64_from_le_bytes(bytes.subrange(8 * i, 8 * i + 8)),
            ),
        )
    }
}

/// Reads a whole snapshot from bytes.
pub open spec fn spec_decode(bytes: Seq<u8>) -> Option<SnapshotModel> {
    match bytes_words(bytes) {
        None => None,
        Some(ws) => decode_words(ws),
    }
}

// ---------------------------------------------------------------------------
// Round trip
// ---------------------------------------------------------------------------

/// Whether every record list and every title fits the counts the format
/// stores; every value built from in-memory vectors does.
pub open spec fn snapshot_bounded(m: SnapshotModel) -> bool {
    &&& m.pages.len() <= u64::MAX
    &&& m.redirects.len() <= u64::MAX
    &&& m.links.len() <= u64::MAX
    &&& forall|i: int|
        0 <= i < m.pages.len() ==> (#[trigger] m.pages[i]).title.len() <= u64::MAX
    &&& forall|i: int|
        0 <= i < m.redirects.len() ==> (#[trigger] m.redirects[i]).title.len() <= u64::MAX
}

/// A word survives the byte round trip.
proof fn lemma_word_bytes_len(ws: Seq<u64>)
    ensures
        words_bytes(ws).len() == 8 * ws.len(),
    decreases ws.len(),
{
    vstd::bytes::lemma_auto_spec_u64_to_from_le_bytes();
    if ws.len() > 0 {
        lemma_word_bytes_len(ws.drop_first());
    }
}

/// Appending one word appends its eight bytes.
proof fn lemma_words_bytes_push(ws: Seq<u64>, w: u64)
    ensures
        words_bytes(ws.push(w)) == words_bytes(ws) + spec_u64_to_le_bytes(w),
    decreases ws.len(),
{
    if ws.len() == 0 {
        assert(ws.push(w).drop_first() =~= Seq::<u64>::empty());
        assert(words_bytes(Seq::<u64>::empty()) == Seq::<u8>::empty());
        assert(words_bytes(ws.push(w)) =~= words_bytes(ws) + spec_u64_to_le_bytes(w));
    } else {
        lemma_words_bytes_push(ws.drop_first(), w);
        assert(ws.push(w).drop_first() =~= ws.drop_first().push(w));
        assert(ws.push(w).first() == ws.first());
        let a = spec_u64_to_le_bytes(ws.first());
        let b = words_bytes(ws.drop_first());
        let c = spec_u64_to_le_bytes(w);
        assert(words_bytes(ws.push(w)) == a + (b + c));
        assert(a + (b + c) =~= (a + b) + c);
    }
}

/// The bytes of a word list decode back to exactly those words.
proof fn lemma_bytes_words_round_trip(ws: Seq<u64>)
    ensures
        bytes_words(words_bytes(ws)) == Some(ws),
    decreases ws.len(),
{
    vstd::bytes::lemma_auto_spec_u64_to_from_le_bytes();
    lemma_word_bytes_len(ws);
    let bytes = words_bytes(ws);
    if ws.len() == 0 {
        assert(bytes_words(bytes) == Some(Seq::<u64>::empty()));
        assert(Seq::<u64>::empty() =~= ws);
    } else {
        let rest = ws.drop_first();
        lemma_bytes_words_round_trip(rest);
        lemma_word_bytes_len(rest);
        let restb = words_bytes(rest);
        assert(bytes =~= spec_u64_to_le_bytes(ws.first()) + restb);
        let dec = bytes_words(bytes)->0;
        assert forall|i: int| 0 <= i < ws.len() implies dec[i] == ws[i] by {
            if i == 0 {
                assert(bytes.subrange(0, 8) =~= spec_u64_to_le_bytes(ws.first()));
            } else {
                assert(bytes.subrange(8 * i, 8 * i + 8) =~= restb.subrange(
                    8 * (i - 1),
                    8 * (i - 1) + 8,
                ));
                assert(bytes_words(restb)->0[i - 1] == rest[i - 1]);
            }
        }
        assert(dec =~= ws);
    }
}

/// Appending one page record appends its words.
proof fn lemma_enc_pages_push(ps: Seq<PageModel>, p: PageModel)
    ensures
        enc_pages(ps.push(p)) == enc_pages(ps) + enc_page(p),
    decreases ps.len(),
{
    if ps.len() == 0 {
        assert(ps.push(p).drop_first() =~= Seq::<PageModel>::empty());
        assert(enc_pages(Seq::<PageModel>::empty()) == Seq::<u64>::empty());
        assert(enc_pages(ps.push(p)) =~= enc_pages(ps) + enc_page(p));
    } else {
        lemma_enc_pages_push(ps.drop_first(), p);
        assert(ps.push(p).drop_first() =~= ps.drop_first().push(p));
        assert(ps.push(p).first() == ps.first());
        let a = enc_page(ps.first());
        let b = enc_pages(ps.drop_first());
        let c = enc_page(p);
        assert(enc_pages(ps.push(p)) == a + (b + c));
        assert(a + (b + c) =~= (a + b) + c);
    }
}

/// Appending one redirect record appends its words.
proof fn lemma_enc_redirects_push(rs: Seq<RedirectModel>, r: RedirectModel)
    ensures
        enc_redirects(rs.push(r)) == enc_redirects(rs) + enc_redirect(r),
    decreases rs.len(),
{
    if rs.len() == 0 {
        assert(rs.push(r).drop_first() =~= Seq::<RedirectModel>::empty());
        assert(enc_redirects(Seq::<RedirectModel>::empty()) == Seq::<u64>::empty());
        assert(enc_redirects(rs.push(r)) =~= enc_redirects(rs) + enc_redirect(r));
    } else {
        lemma_enc_redirects_push(rs.drop_first(), r);
        assert(rs.push(r).drop_first() =~= rs.drop_first().push(r));
        assert(rs.push(r).first() == rs.first());
        let a = enc_redirect(rs.first());
        let b = enc_redirects(rs.drop_first());
        let c = enc_redirect(r);
        assert(enc_redirects(rs.push(r)) == a + (b + c));
        assert(a + (b + c) =~= (a + b) + c);
    }
}

/// Appending one edge appends its words.
proof fn lemma_enc_links_push(ls: Seq<LinkResolved>, l: LinkResolved)
    ensures
        enc_links(ls.push(l)) == enc_links(ls) + enc_link(l),
    decreases ls.len(),
{
    if ls.len() == 0 {
        assert(ls.push(l).drop_first() =~= Seq::<LinkResolved>::empty());
        assert(enc_links(Seq::<LinkResolved>::empty()) == Seq::<u64>::empty());
        assert(enc_links(ls.push(l)) =~= enc_links(ls) + enc_link(l));
    } else {
        lemma_enc_links_push(ls.drop_first(), l);
        assert(ls.push(l).drop_first() =~= ls.drop_first().push(l));
        assert(ls.push(l).first() == ls.first());
        let a = enc_link(ls.first());
        let b = enc_links(ls.drop_first());
        let c = enc_link(l);
        assert(enc_links(ls.push(l)) == a + (b + c));
        assert(a + (b + c) =~= (a + b) + c);
    }
}

/// A character's word is a valid character word and stands for the
/// character.
proof fn lemma_char_word(c: char)
    ensures
        valid_char_word(char_word(c)),
        word_char(char_word(c)) == c,
{
    let u = c as u32;
    assert((u as u64) <= 0xFFFF_FFFFu64) by (bit_vector);
    assert(((u as u64) as u32) == u) by (bit_vector);
}

/// An id survives the word round trip.
proof fn lemma_id_round_trip(x: i32)
    ensures
        word_id(id_word(x)) == Some(x),
{
}

/// A subrange of a subrange is the subrange at the shifted bounds.
proof fn lemma_subrange_shift(ws: Seq<u64>, lo: int, hi: int, a: int, b: int)
    requires
        0 <= lo <= hi <= ws.len(),
        lo <= a <= b <= hi,
    ensures
        ws.subrange(a, b) == ws.subrange(lo, hi).subrange(a - lo, b - lo),
{
    assert(ws.subrange(a, b) =~= ws.subrange(lo, hi).subrange(a - lo, b - lo));
}

/// A title's words decode back to the title when they sit at `cur` inside a
/// larger word list.
proof fn lemma_dec_title_enc(ws: Seq<u64>, cur: int, t: Seq<char>)
    requires
        t.len() <= u64::MAX,
        0 <= cur,
        cur + enc_title(t).len() <= ws.len(),
        ws.subrange(cur, cur + enc_title(t).len()) == enc_title(t),
    ensures
        dec_title(ws, cur) == Some((t, cur + enc_title(t).len())),
{
    let enc = enc_title(t);
    let l = enc.len() as int;
    let sub = ws.subrange(cur, cur + l);
    assert(sub[0] == ws[cur + 0]);
    assert(enc[0] == t.len() as u64);
    assert(ws[cur] == t.len() as u64);
    assert forall|j: int| cur + 1 <= j < cur + 1 + t.len() implies #[trigger] ws[j] == char_word(
        t[j - cur - 1],
    ) by {
        let k = j - cur - 1;
        assert(sub[j - cur] == ws[cur + (j - cur)]);
        assert(enc[j - cur] == t.map_values(|c: char| char_word(c))[k]);
        assert(t.map_values(|c: char| char_word(c))[k] == char_word(t[k]));
    }
    assert forall|j: int| cur + 1 <= j < cur + 1 + t.len() implies valid_char_word(
        #[trigger] ws[j],
    ) by {
        let c = t[j - cur - 1];
        assert(ws[j] == char_word(c));
        lemma_char_word(c);
    }
    let dec = Seq::new(t.len(), |k: int| word_char(ws[cur + 1 + k]));
    assert forall|k: int| 0 <= k < t.len() implies dec[k] == t[k] by {
        let c = t[k];
        assert(ws[cur + 1 + k] == char_word(c));
        lemma_char_word(c);
    }
    assert(dec =~= t);
}

/// A page record's words decode back to the record.
proof fn lemma_dec_page_enc(ws: Seq<u64>, cur: int, p: PageModel)
    requires
        p.title.len() <= u64::MAX,
        0 <= cur,
        cur + enc_page(p).len() <= ws.len(),
        ws.subrange(cur, cur + enc_page(p).len()) == enc_page(p),
    ensures
        dec_page(ws, cur) == Some((p, cur + enc_page(p).len())),
{
    let e = enc_page(p);
    let l = e.len() as int;
    let lt = enc_title(p.title).len() as int;
    let sub = ws.subrange(cur, cur + l);
    assert(sub[0] == ws[cur + 0]);
    assert(e[0] == id_word(p.id));
    assert(ws[cur] == id_word(p.id));
    lemma_id_round_trip(p.id);
    assert(sub[1] == ws[cur + 1]);
    assert(e[1] == (if p.redirect {
        1u64
    } else {
        0u64
    }));
    lemma_subrange_shift(ws, cur, cur + l, cur + 2, cur + l);
    assert(sub.subrange(2, l) =~= enc_title(p.title));
    assert(ws.subrange(cur + 2, cur + 2 + lt) == enc_title(p.title));
    lemma_dec_title_enc(ws, cur + 2, p.title);
}

/// A page list's words decode back to the list.
proof fn lemma_dec_pages_enc(ws: Seq<u64>, cur: int, ps: Seq<PageModel>)
    requires
        forall|i: int| 0 <= i < ps.len() ==> (#[trigger] ps[i]).title.len() <= u64::MAX,
        0 <= cur,
        cur + enc_pages(ps).len() <= ws.len(),
        ws.subrange(cur, cur + enc_pages(ps).len()) == enc_pages(ps),
    ensures
        dec_pages(ws, cur, ps.len() as int) == Some((ps, cur + enc_pages(ps).len())),
    decreases ps.len(),
{
    if ps.len() == 0 {
        assert(Seq::<PageModel>::empty() =~= ps);
    } else {
        let p = ps.first();
        let rest = ps.drop_first();
        let lp = enc_page(p).len() as int;
        let l = enc_pages(ps).len() as int;
        let sub = ws.subrange(cur, cur + l);
        lemma_subrange_shift(ws, cur, cur + l, cur, cur + lp);
        assert(sub.subrange(0, lp) =~= enc_page(p));
        assert(ws.subrange(cur, cur + lp) == enc_page(p));
        assert(p.title.len() <= u64::MAX) by {
            assert(ps[0] == p);
        }
        lemma_dec_page_enc(ws, cur, p);
        lemma_subrange_shift(ws, cur, cur + l, cur + lp, cur + l);
        assert(sub.subrange(lp, l) =~= enc_pages(rest));
        assert(ws.subrange(cur + lp, cur + lp + enc_pages(rest).len()) == enc_pages(rest));
        assert forall|i: int| 0 <= i < rest.len() implies (#[trigger] rest[i]).title.len()
            <= u64::MAX by {
            assert(ps[i + 1] == rest[i]);
        }
        lemma_dec_pages_enc(ws, cur + lp, rest);
        assert(seq![p] + rest =~= ps);
    }
}

/// A redirect record's words decode back to the record.
proof fn lemma_dec_redirect_enc(ws: Seq<u64>, cur: int, r: RedirectModel)
    requires
        r.title.len() <= u64::MAX,
        0 <= cur,
        cur + enc_redirect(r).len() <= ws.len(),
        ws.subrange(cur, cur + enc_redirect(r).len()) == enc_redirect(r),
    ensures
        dec_redirect(ws, cur) == Some((r, cur + enc_redirect(r).len())),
{
    let e = enc_redirect(r);
    let l = e.len() as int;
    let lt = enc_title(r.title).len() as int;
    let sub = ws.subrange(cur, cur + l);
    assert(sub[0] == ws[cur + 0]);
    assert(e[0] == id_word(r.id));
    assert(ws[cur] == id_word(r.id));
    lemma_id_round_trip(r.id);
    lemma_subrange_shift(ws, cur, cur + l, cur + 1, cur + l);
    assert(sub.subrange(1, l) =~= enc_title(r.title));
    assert(ws.subrange(cur + 1, cur + 1 + lt) == enc_title(r.title));
    lemma_dec_title_enc(ws, cur + 1, r.title);
}

/// A redirect list's words decode back to the list.
proof fn lemma_dec_redirects_enc(ws: Seq<u64>, cur: int, rs: Seq<RedirectModel>)
    requires
        forall|i: int| 0 <= i < rs.len() ==> (#[trigger] rs[i]).title.len() <= u64::MAX,
        0 <= cur,
        cur + enc_redirects(rs).len() <= ws.len(),
        ws.subrange(cur, cur + enc_redirects(rs).len()) == enc_redirects(rs),
    ensures
        dec_redirects(ws, cur, rs.len() as int) == Some((rs, cur + enc_redirects(rs).len())),
    decreases rs.len(),
{
    if rs.len() == 0 {
        assert(Seq::<RedirectModel>::empty() =~= rs);
    } else {
        let r = rs.first();
        let rest = rs.drop_first();
        let lr = enc_redirect(r).len() as int;
        let l = enc_redirects(rs).len() as int;
        let sub = ws.subrange(cur, cur + l);
        lemma_subrange_shift(ws, cur, cur + l, cur, cur + lr);
        assert(sub.subrange(0, lr) =~= enc_redirect(r));
        assert(ws.subrange(cur, cur + lr) == enc_redirect(r));
        assert(r.title.len() <= u64::MAX) by {
            assert(rs[0] == r);
        }
        lemma_dec_redirect_enc(ws, cur, r);
        lemma_subrange_shift(ws, cur, cur + l, cur + lr, cur + l);
        assert(sub.subrange(lr, l) =~= enc_redirects(rest));
        assert(ws.subrange(cur + lr, cur + lr + enc_redirects(rest).len()) == enc_redirects(
            rest,
        ));
        assert forall|i: int| 0 <= i < rest.len() implies (#[trigger] rest[i]).title.len()
            <= u64::MAX by {
            assert(rs[i + 1] == rest[i]);
        }
        lemma_dec_redirects_enc(ws, cur + lr, rest);
        assert(seq![r] + rest =~= rs);
    }
}

/// An edge list's words decode back to the list.
proof fn lemma_dec_links_enc(ws: Seq<u64>, cur: int, ls: Seq<LinkResolved>)
    requires
        0 <= cur,
        cur + enc_links(ls).len() <= ws.len(),
        ws.subrange(cur, cur + enc_links(ls).len()) == enc_links(ls),
    ensures
        dec_links(ws, cur, ls.len() as int) == Some((ls, cur + enc_links(ls).len())),
    decreases ls.len(),
{
    if ls.len() == 0 {
        assert(Seq::<LinkResolved>::empty() =~= ls);
    } else {
        let l0 = ls.first();
        let rest = ls.drop_first();
        let l = enc_links(ls).len() as int;
        let sub = ws.subrange(cur, cur + l);
        assert(sub[0] == ws[cur + 0]);
        assert(enc_links(ls)[0] == id_word(l0.0));
        assert(ws[cur] == id_word(l0.0));
        assert(sub[1] == ws[cur + 1]);
        assert(enc_links(ls)[1] == id_word(l0.1));
        assert(ws[cur + 1] == id_word(l0.1));
        lemma_id_round_trip(l0.0);
        lemma_id_round_trip(l0.1);
        lemma_subrange_shift(ws, cur, cur + l, cur + 2, cur + l);
        assert(sub.subrange(2, l) =~= enc_links(rest));
        assert(ws.subrange(cur + 2, cur + 2 + enc_links(rest).len()) == enc_links(rest));
        lemma_dec_links_enc(ws, cur + 2, rest);
        assert(seq![l0] + rest =~= ls);
    }
}

/// Law: reading a written snapshot gives back exactly the records that were
/// written, for every snapshot whose lists and titles fit the format's
/// 64-bit counts (every in-memory snapshot does). Since the page index and
/// the link graph are rebuilt from those records by the same constructors,
/// every lookup answers as it did before the round trip.
pub proof fn lemma_snapshot_round_trip(m: SnapshotModel)
    requires
        snapshot_bounded(m),
    ensures
        spec_decode(spec_encode(m)) == Some(m),
{
    let ws = encode_words(m);
    lemma_bytes_words_round_trip(ws);
    let c0: int = 1;
    let c1 = c0 + enc_pages(m.pages).len() as int;
    let c2 = c1 + 1 + enc_redirects(m.redirects).len() as int;
    let c3 = c2 + 1 + enc_links(m.links).len() as int;
    assert(ws.len() == c3);
    assert(ws[0] == m.pages.len() as u64);
    assert(ws.subrange(c0, c1) =~= enc_pages(m.pages));
    lemma_dec_pages_enc(ws, c0, m.pages);
    assert(ws[c1] == m.redirects.len() as u64);
    assert(ws.subrange(c1 + 1, c2) =~= enc_redirects(m.redirects));
    lemma_dec_redirects_enc(ws, c1 + 1, m.redirects);
    assert(ws[c2] == m.links.len() as u64);
    assert(ws.subrange(c2 + 1, c3) =~= enc_links(m.links));
    lemma_dec_links_enc(ws, c2 + 1, m.links);
}

// ---------------------------------------------------------------------------
// The database and its executable codec
// ---------------------------------------------------------------------------

/// The pair a snapshot stores: the link graph and the page index.
pub struct Database {
    pub links: LinkMap,
    pub pages: PageMap,
}

impl Database {
    /// Pairs an already built link graph and page index.
    pub fn new(links: LinkMap, pages: PageMap) -> (result: Self)
        ensures
            result.links == links,
            result.pages == pages,
    {
        Self { links, pages }
    }

    /// The records and edges this database was built from.
    pub open spec fn snapshot_model(&self) -> SnapshotModel {
        SnapshotModel {
            pages: self.pages.page_records(),
            redirects: self.pages.redirect_records(),
            links: self.links.edges(),
        }
    }

    /// Serializes the pair into one binary blob.
    pub fn to_bytes(&self) -> (result: Vec<u8>)
        ensures
            result@ == spec_encode(self.snapshot_model()),
            snapshot_bounded(self.snapshot_model()),
    {
        let pages = self.pages.pages_vec();
        let redirects = self.pages.redirects_vec();
        let links = self.links.edges_vec();
        let ghost pmodels = pages@.map_values(|p: Page| p@);
        let ghost rmodels = redirects@.map_values(|r: Redirect| r@);

        let mut words: Vec<u64> = Vec::new();

        words.push(pages.len() as u64);
        let np = pages.len();
        for i in 0..np
            invariant
                np == pages@.len(),
                pmodels == pages@.map_values(|p: Page| p@),
                words@ == seq![(pmodels.len() as u64)] + enc_pages(pmodels.take(i as int)),
                forall|j: int|
                    0 <= j < i ==> (#[trigger] pmodels[j]).title.len() <= u64::MAX,
        {
            push_page(&mut words, &pages[i]);
            proof {
                lemma_enc_pages_push(pmodels.take(i as int), pmodels[i as int]);
                assert(pmodels.take(i as int).push(pmodels[i as int]) =~= pmodels.take(i + 1));
                assert(words@ =~= seq![(pmodels.len() as u64)] + enc_pages(pmodels.take(i + 1)));
            }
        }
        proof {
            assert(pmodels.take(np as int) =~= pmodels);
        }

        let ghost words1 = words@;
        words.push(redirects.len() as u64);
        let nr = redirects.len();
        for i in 0..nr
            invariant
                nr == redirects@.len(),
                rmodels == redirects@.map_values(|r: Redirect| r@),
                words@ == words1 + seq![(rmodels.len() as u64)] + enc_redirects(
                    rmodels.take(i as int),
                ),
                forall|j: int|
                    0 <= j < i ==> (#[trigger] rmodels[j]).title.len() <= u64::MAX,
                forall|j: int|
                    0 <= j < pmodels.len() ==> (#[trigger] pmodels[j]).title.len() <= u64::MAX,
        {
            push_redirect(&mut words, &redirects[i]);
            proof {
                lemma_enc_redirects_push(rmodels.take(i as int), rmodels[i as int]);
                assert(rmodels.take(i as int).push(rmodels[i as int]) =~= rmodels.take(i + 1));
                assert(words@ =~= words1 + seq![(rmodels.len() as u64)] + enc_redirects(
                    rmodels.take(i + 1),
                ));
            }
        }
        proof {
            assert(rmodels.take(nr as int) =~= rmodels);
        }

        let ghost words2 = words@;
        words.push(links.len() as u64);
        let nl = links.len();
        for i in 0..nl
            invariant
                nl == links@.len(),
                links@ == self.links.edges(),
                words@ == words2 + seq![(links@.len() as u64)] + enc_links(links@.take(i as int)),
                snapshot_bounded(self.snapshot_model()),
        {
            let (from, to) = links[i];
            words.push(id_to_word(from));
            words.push(id_to_word(to));
            proof {
                lemma_enc_links_push(links@.take(i as int), links@[i as int]);
                assert(links@.take(i as int).push(links@[i as int]) =~= links@.take(i + 1));
                assert(words@ =~= words2 + seq![(links@.len() as u64)] + enc_links(
                    links@.take(i + 1),
                ));
            }
        }
        proof {
            assert(links@.take(nl as int) =~= links@);
            assert(words@ =~= encode_words(self.snapshot_model()));
        }

        let mut bytes: Vec<u8> = Vec::new();
        let nw = words.len();
        for i in 0..nw
            invariant
                nw == words@.len(),
                words@ == encode_words(self.snapshot_model()),
                bytes@ == words_bytes(words@.take(i as int)),
        {
            let mut chunk = u64_to_le_bytes(words[i]);
            bytes.append(&mut chunk);
            proof {
                lemma_words_bytes_push(words@.take(i as int), words@[i as int]);
                assert(words@.take(i as int).push(words@[i as int]) =~= words@.take(i + 1));
            }
        }
        proof {
            assert(words@.take(nw as int) =~= words@);
        }
        bytes
    }

    /// Deserializes one binary blob back into the pair, rebuilding the page
    /// index and the link graph from the decoded records. A blob that is
    /// not exactly a written snapshot (truncated, oversized, or corrupted)
    /// fails as a whole.
    pub fn from_bytes(bytes: &Vec<u8>) -> (result: Option<Database>)
        ensures
            match result {
                Some(db) => {
                    &&& spec_decode(bytes@) == Some(db.snapshot_model())
                    &&& db.pages.names() == build_names(db.pages.page_records())
                    &&& db.pages.ids() == build_ids(db.pages.page_records())
                    &&& db.pages.redirs() == build_redirects(
                        db.pages.redirect_records(),
                        db.pages.ids(),
                    )
                    &&& db.links@ == build_forward(db.links.edges())
                },
                None => spec_decode(bytes@) is None,
            },
    {
        let words = match bytes_to_words(bytes) {
            Some(words) => words,
            None => {
                return None;
            },
        };
        if words.len() < 1 {
            return None;
        }
        let np = words[0];
        let (pages, c1) = match read_pages(&words, 1, np) {
            Some(r) => r,
            None => {
                return None;
            },
        };
        if c1 >= words.len() {
            return None;
        }
        let nr = words[c1];
        let (redirects, c2) = match read_redirects(&words, c1 + 1, nr) {
            Some(r) => r,
            None => {
                return None;
            },
        };
        if c2 >= words.len() {
            return None;
        }
        let nl = words[c2];
        let (links, c3) = match read_links(&words, c2 + 1, nl) {
            Some(r) => r,
            None => {
                return None;
            },
        };
        if c3 != words.len() {
            return None;
        }
        let page_map = PageMap::new_with_progress(pages, redirects, ProgressBuilder::empty());
        let link_map = LinkMap::new_with_progress(links, ProgressBuilder::empty());
        Some(Database::new(link_map, page_map))
    }
}

/// An id as a word, executably.
fn id_to_word(x: i32) -> (result: u64)
    ensures
        result == id_word(x),
{
    if x >= 0 {
        x as u64
    } else {
        ((x as i64) + 0x1_0000_0000) as u64
    }
}

/// The id a word stands for, executably.
fn word_to_id(w: u64) -> (result: Option<i32>)
    ensures
        result == word_id(w),
{
    if w < 0x8000_0000 {
        Some(w as i32)
    } else if w < 0x1_0000_0000 {
        Some(((w as i64) - 0x1_0000_0000) as i32)
    } else {
        None
    }
}

/// Appends one page record's words.
fn push_page(words: &mut Vec<u64>, page: &Page)
    ensures
        final(words)@ == old(words)@ + enc_page(page@),
        page@.title.len() <= u64::MAX,
{
    words.push(id_to_word(page.id));
    words.push(if page.redirect { 1 } else { 0 });
    push_title(words, page.title.as_str());
    proof {
        assert(final(words)@ =~= old(words)@ + enc_page(page@));
    }
}

/// Appends one redirect record's words.
fn push_redirect(words: &mut Vec<u64>, redirect: &Redirect)
    ensures
        final(words)@ == old(words)@ + enc_redirect(redirect@),
        redirect@.title.len() <= u64::MAX,
{
    words.push(id_to_word(redirect.id));
    push_title(words, redirect.title.as_str());
    proof {
        assert(final(words)@ =~= old(words)@ + enc_redirect(redirect@));
    }
}

/// Appends a title's words: its length, then one word per character.
fn push_title(words: &mut Vec<u64>, title: &str)
    ensures
        final(words)@ == old(words)@ + enc_title(title@),
        title@.len() <= u64::MAX,
{
    let n = title.unicode_len();
    words.push(n as u64);
    for k in 0..n
        invariant
            n == title@.len(),
            words@ == old(words)@ + seq![(title@.len() as u64)] + title@.take(
                k as int,
            ).map_values(|c: char| char_word(c)),
    {
        let c = title.get_char(k);
        words.push((c as u32) as u64);
        proof {
            assert(title@.take(k as int).push(title@[k as int]) =~= title@.take(k + 1));
            assert(title@.take(k + 1).map_values(|c: char| char_word(c)) =~= title@.take(
                k as int,
            ).map_values(|c: char| char_word(c)).push(char_word(title@[k as int])));
            assert(words@ =~= old(words)@ + seq![(title@.len() as u64)] + title@.take(
                k + 1,
            ).map_values(|c: char| char_word(c)));
        }
    }
    proof {
        assert(title@.take(n as int) =~= title@);
        assert(final(words)@ =~= old(words)@ + enc_title(title@));
    }
}

/// Turns the blob's bytes into words, eight at a time.
fn bytes_to_words(bytes: &Vec<u8>) -> (result: Option<Vec<u64>>)
    ensures
        match result {
            Some(words) => bytes_words(bytes@) == Some(words@),
            None => bytes_words(bytes@) is None,
        },
{
    proof {
        vstd::bytes::lemma_auto_spec_u64_to_from_le_bytes();
    }
    if bytes.len() % 8 != 0 {
        return None;
    }
    let n = bytes.len() / 8;
    proof {
        assert(8 * n == bytes@.len());
    }
    let mut words: Vec<u64> = Vec::new();
    for i in 0..n
        invariant
            bytes@.len() % 8 == 0,
            n == bytes@.len() / 8,
            8 * n == bytes@.len(),
            bytes@.len() <= usize::MAX,
            words@.len() == i,
            forall|j: int|
                0 <= j < i ==> #[trigger] words@[j] == spec_u64_from_le_bytes(
                    bytes@.subrange(8 * j, 8 * j + 8),
                ),
    {
        let mut chunk: Vec<u8> = Vec::new();
        for k in 0..8usize
            invariant
                n == bytes@.len() / 8,
                bytes@.len() % 8 == 0,
                8 * n == bytes@.len(),
                bytes@.len() <= usize::MAX,
                i < n,
                chunk@.len() == k,
                chunk@ == bytes@.subrange(8 * i as int, 8 * i as int + k as int),
        {
            chunk.push(bytes[8 * i + k]);
            proof {
                assert(chunk@ =~= bytes@.subrange(8 * i as int, 8 * i as int + (k + 1)));
            }
        }
        let w = u64_from_le_bytes(chunk.as_slice());
        words.push(w);
    }
    proof {
        let dec = bytes_words(bytes@)->0;
        assert(words@ =~= dec);
    }
    Some(words)
}

/// Reads a title at `cur`, executably.
fn read_title(ws: &Vec<u64>, cur: usize) -> (result: Option<(String, usize)>)
    ensures
        match result {
            Some((t, c2)) => dec_title(ws@, cur as int) == Some((t@, c2 as int)) && cur <= c2
                <= ws@.len(),
            None => dec_title(ws@, cur as int) is None,
        },
{
    if cur >= ws.len() {
        return None;
    }
    let n_word = ws[cur];
    let rem = (ws.len() - (cur + 1)) as u64;
    if n_word > rem {
        return None;
    }
    let n = n_word as usize;
    let mut chars: Vec<char> = Vec::new();
    for k in 0..n
        invariant
            cur < ws@.len(),
            n as int == ws@[cur as int] as int,
            cur + 1 + n <= ws@.len(),
            ws@.len() <= usize::MAX,
            chars@.len() == k,
            forall|j: int| cur + 1 <= j < cur + 1 + k ==> valid_char_word(#[trigger] ws@[j]),
            forall|j: int|
                0 <= j < k ==> #[trigger] chars@[j] == word_char(ws@[cur as int + 1 + j]),
    {
        let w = ws[cur + 1 + k];
        if w > 0xFFFF_FFFF {
            proof {
                assert(!valid_char_word(ws@[cur as int + 1 + k as int]));
            }
            return None;
        }
        match char_from_u32(w as u32) {
            Some(c) => {
                chars.push(c);
                proof {
                    let u = w as u32;
                    assert(c as u32 == u);
                    vstd::utf8::char_u32_cast(c, u);
                    assert(word_char(ws@[cur as int + 1 + k as int]) == (u as char));
                    assert((u as char) == c);
                }
            },
            None => {
                proof {
                    assert(!valid_char_word(ws@[cur as int + 1 + k as int]));
                }
                return None;
            },
        }
    }
    let title = chars_to_string(&chars);
    proof {
        let dec = Seq::new(n as nat, |k: int| word_char(ws@[cur as int + 1 + k]));
        assert(title@ =~= dec);
    }
    Some((title, cur + 1 + n))
}

/// Reads one page record at `cur`, executably.
fn read_page(ws: &Vec<u64>, cur: usize) -> (result: Option<(Page, usize)>)
    ensures
        match result {
            Some((p, c2)) => dec_page(ws@, cur as int) == Some((p@, c2 as int)) && cur <= c2
                <= ws@.len(),
            None => dec_page(ws@, cur as int) is None,
        },
{
    if ws.len() < 2 || cur > ws.len() - 2 {
        return None;
    }
    let id = match word_to_id(ws[cur]) {
        Some(id) => id,
        None => {
            return None;
        },
    };
    let flag = ws[cur + 1];
    if flag > 1 {
        return None;
    }
    match read_title(ws, cur + 2) {
        Some((title, c2)) => Some((Page { id, title, redirect: flag == 1 }, c2)),
        None => None,
    }
}

/// Reads `count` page records starting at `cur`, executably.
fn read_pages(ws: &Vec<u64>, cur: usize, count: u64) -> (result: Option<(VecDeque<Page>, usize)>)
    requires
        cur <= ws@.len(),
    ensures
        match result {
            Some((v, c2)) => dec_pages(ws@, cur as int, count as int) == Some(
                (v@.map_values(|p: Page| p@), c2 as int),
            ) && cur <= c2 <= ws@.len(),
            None => dec_pages(ws@, cur as int, count as int) is None,
        },
    decreases count,
{
    if count == 0 {
        let v: VecDeque<Page> = VecDeque::new();
        proof {
            assert(v@.map_values(|p: Page| p@) =~= Seq::<PageModel>::empty());
        }
        return Some((v, cur));
    }
    match read_page(ws, cur) {
        None => None,
        Some((p, c2)) => match read_pages(ws, c2, count - 1) {
            None => None,
            Some((mut v, c3)) => {
                let ghost tail = v@;
                v.push_front(p);
                proof {
                    assert(v@.map_values(|q: Page| q@) =~= seq![p@] + tail.map_values(
                        |q: Page| q@,
                    ));
                }
                Some((v, c3))
            },
        },
    }
}

/// Reads one redirect record at `cur`, executably.
fn read_redirect(ws: &Vec<u64>, cur: usize) -> (result: Option<(Redirect, usize)>)
    ensures
        match result {
            Some((r, c2)) => dec_redirect(ws@, cur as int) == Some((r@, c2 as int)) && cur <= c2
                <= ws@.len(),
            None => dec_redirect(ws@, cur as int) is None,
        },
{
    if cur >= ws.len() {
        return None;
    }
    let id = match word_to_id(ws[cur]) {
        Some(id) => id,
        None => {
            return None;
        },
    };
    match read_title(ws, cur + 1) {
        Some((title, c2)) => Some((Redirect { id, title }, c2)),
        None => None,
    }
}

/// Reads `count` redirect records starting at `cur`, executably.
fn read_redirects(ws: &Vec<u64>, cur: usize, count: u64) -> (result: Option<
    (VecDeque<Redirect>, usize),
>)
    requires
        cur <= ws@.len(),
    ensures
        match result {
            Some((v, c2)) => dec_redirects(ws@, cur as int, count as int) == Some(
                (v@.map_values(|r: Redirect| r@), c2 as int),
            ) && cur <= c2 <= ws@.len(),
            None => dec_redirects(ws@, cur as int, count as int) is None,
        },
    decreases count,
{
    if count == 0 {
        let v: VecDeque<Redirect> = VecDeque::new();
        proof {
            assert(v@.map_values(|r: Redirect| r@) =~= Seq::<RedirectModel>::empty());
        }
        return Some((v, cur));
    }
    match read_redirect(ws, cur) {
        None => None,
        Some((r, c2)) => match read_redirects(ws, c2, count - 1) {
            None => None,
            Some((mut v, c3)) => {
                let ghost tail = v@;
                v.push_front(r);
                proof {
                    assert(v@.map_values(|q: Redirect| q@) =~= seq![r@] + tail.map_values(
                        |q: Redirect| q@,
                    ));
                }
                Some((v, c3))
            },
        },
    }
}

/// Reads `count` edges starting at `cur`, executably.
fn read_links(ws: &Vec<u64>, cur: usize, count: u64) -> (result: Option<
    (VecDeque<LinkResolved>, usize),
>)
    requires
        cur <= ws@.len(),
    ensures
        match result {
            Some((v, c2)) => dec_links(ws@, cur as int, count as int) == Some((v@, c2 as int))
                && cur <= c2 <= ws@.len(),
            None => dec_links(ws@, cur as int, count as int) is None,
        },
    decreases count,
{
    if count == 0 {
        let v: VecDeque<LinkResolved> = VecDeque::new();
        proof {
            assert(v@ =~= Seq::<LinkResolved>::empty());
        }
        return Some((v, cur));
    }
    if ws.len() < 2 || cur > ws.len() - 2 {
        return None;
    }
    let from = match word_to_id(ws[cur]) {
        Some(from) => from,
        None => {
            return None;
        },
    };
    let to = match word_to_id(ws[cur + 1]) {
        Some(to) => to,
        None => {
            return None;
        },
    };
    match read_links(ws, cur + 2, count - 1) {
        None => None,
        Some((mut v, c3)) => {
            let ghost tail = v@;
            v.push_front((from, to));
            proof {
                assert(v@ =~= seq![(from, to)] + tail);
            }
            Some((v, c3))
        },
    }
}

} // verus!
