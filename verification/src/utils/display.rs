//! The earlier message formatter: it reads `{}` placeholders straight from
//! the format string. Literal text is kept as written, escaped braces
//! included, and a `{` always begins a new literal part. A message whose
//! format takes no arguments is written without its commas.
use vstd::prelude::*;
use vstd::utf8::*;

use crate::utils::array::{slice, Array};
use crate::utils::fmt::{
    append_bytes, arg_bytes, arg_count, assemble, c_string, str_from_utf8, texts_utf8,
    to_c_string, PartView, CLOSE_BRACE, OPEN_BRACE,
};

verus! {

broadcast use vstd::string::group_string_axioms;

/// A part of a format string.
#[derive(Debug)]
pub enum Part<'a> {
    Arg,
    Text(&'a str),
}

impl<'a> View for Part<'a> {
    type V = PartView;

    open spec fn view(&self) -> PartView {
        match self {
            Part::Arg => PartView::Arg,
            Part::Text(s) => PartView::Text(encode_utf8(s@)),
        }
    }
}

/// The views of a sequence of parts.
pub open spec fn part_views<'a>(ps: Seq<Part<'a>>) -> Seq<PartView> {
    ps.map_values(|p: Part<'a>| p@)
}

/// The literal text gathered so far, as a part (if there is any).
pub open spec fn flushed(cur: Option<Seq<u8>>) -> Seq<PartView> {
    match cur {
        Some(t) => seq![PartView::Text(t)],
        None => Seq::empty(),
    }
}

/// The literal text gathered so far.
pub open spec fn pending(cur: Option<Seq<u8>>) -> Seq<u8> {
    match cur {
        Some(t) => t,
        None => Seq::empty(),
    }
}

/// Puts parts (holding `args` argument places) in front of the rest.
pub open spec fn with_parts(
    head: Seq<PartView>,
    args: nat,
    rest: Option<(Seq<PartView>, nat)>,
) -> Option<(Seq<PartView>, nat)> {
    match rest {
        Some((ps, n)) => Some((head + ps, args + n)),
        None => None,
    }
}

/// The parts of a format string, read from the front with the literal text
/// `cur` gathered so far. `{}` is an argument place; `{{` ends the current
/// literal part and begins a new one with the two braces; `}}` belongs to
/// the literal text; a `{` at the very end is dropped. `None` when a `{` is
/// followed by anything else or a `}` stands alone; otherwise the parts and
/// the number of argument places.
pub open spec fn scan(b: Seq<u8>, cur: Option<Seq<u8>>) -> Option<(Seq<PartView>, nat)>
    decreases b.len(),
{
    if b.len() == 0 {
        Some((flushed(cur), 0))
    } else if b[0] == OPEN_BRACE {
        if b.len() == 1 {
            Some((flushed(cur), 0))
        } else if b[1] == OPEN_BRACE {
            with_parts(flushed(cur), 0, scan(b.skip(2), Some(seq![OPEN_BRACE, OPEN_BRACE])))
        } else if b[1] == CLOSE_BRACE {
            with_parts(flushed(cur).push(PartView::Arg), 1, scan(b.skip(2), None))
        } else {
            None
        }
    } else if b[0] == CLOSE_BRACE {
        if b.len() >= 2 && b[1] == CLOSE_BRACE {
            scan(b.skip(2), Some(pending(cur) + seq![CLOSE_BRACE, CLOSE_BRACE]))
        } else {
            None
        }
    } else {
        scan(b.skip(1), Some(pending(cur).push(b[0])))
    }
}

/// The parts of a format string that keeps the syntax.
pub open spec fn scanned_parts(b: Seq<u8>) -> Seq<PartView> {
    scan(b, None).unwrap().0
}

/// The number of argument places of a format string that keeps the syntax.
pub open spec fn scanned_args(b: Seq<u8>) -> nat {
    scan(b, None).unwrap().1
}

/// At a `{`, the text gathered so far is emitted first.
pub proof fn lemma_scan_flush(b: Seq<u8>, cur: Option<Seq<u8>>)
    requires
        b.len() >= 1,
        b[0] == OPEN_BRACE,
    ensures
        scan(b, cur) == with_parts(flushed(cur), 0, scan(b, None)),
{
    assert(flushed(cur) + Seq::<PartView>::empty() =~= flushed(cur));
    if b.len() >= 2 && b[1] == OPEN_BRACE {
        let r = scan(b.skip(2), Some(seq![OPEN_BRACE, OPEN_BRACE]));
        if r is Some {
            assert(Seq::<PartView>::empty() + r.unwrap().0 =~= r.unwrap().0);
        }
    } else if b.len() >= 2 && b[1] == CLOSE_BRACE {
        let r = scan(b.skip(2), None);
        if r is Some {
            assert(flushed(cur).push(PartView::Arg) =~= flushed(cur) + seq![PartView::Arg]);
            assert(Seq::<PartView>::empty().push(PartView::Arg) =~= seq![PartView::Arg]);
            assert(flushed(cur) + (seq![PartView::Arg] + r.unwrap().0) =~= flushed(cur).push(
                PartView::Arg,
            ) + r.unwrap().0);
        }
    }
}

/// Parts put in front in two steps are the parts put in front at once.
pub proof fn lemma_with_parts_assoc(
    p: Seq<PartView>,
    c: nat,
    q: Seq<PartView>,
    d: nat,
    r: Option<(Seq<PartView>, nat)>,
)
    ensures
        with_parts(p, c, with_parts(q, d, r)) == with_parts(p + q, c + d, r),
{
    if r is Some {
        assert(p + (q + r.unwrap().0) =~= (p + q) + r.unwrap().0);
    }
}

/// The literal text gathered since `text_i`, if any.
pub open spec fn gathered(b: Seq<u8>, text_i: Option<usize>, i: int) -> Option<Seq<u8>> {
    match text_i {
        Some(s) => Some(b.subrange(s as int, i)),
        None => None,
    }
}

/// The literal text from `s` up to `e`, which must be UTF-8.
fn text_part<'a>(bytes: &'a [u8], s: usize, e: usize) -> (p: Part<'a>)
    requires
        s <= e <= bytes@.len(),
        valid_utf8(bytes@.subrange(s as int, e as int)),
    ensures
        p@ == PartView::Text(bytes@.subrange(s as int, e as int)),
{
    let t = slice(bytes, s..e);
    match str_from_utf8(t) {
        Some(st) => Part::Text(st),
        None => Part::Arg,
    }
}

/// Reads a format string into parts, as `scan` describes; also gives the
/// number of argument places.
fn scan_parts<'a>(bytes: &'a [u8]) -> (r: (Vec<Part<'a>>, usize))
    requires
        scan(bytes@, None) is Some,
        texts_utf8(scanned_parts(bytes@)),
    ensures
        part_views(r.0@) == scanned_parts(bytes@),
        r.1 == scanned_args(bytes@),
{
    let ghost b = bytes@;
    let ghost total = scan(b, None);
    let len = bytes.len();
    let mut parts: Vec<Part<'a>> = Vec::new();
    let mut i: usize = 0;
    let mut text_i: Option<usize> = None;
    let mut in_brace = false;
    let mut count: usize = 0;
    proof {
        assert(b.skip(0) =~= b);
        lemma_with_parts_assoc(Seq::empty(), 0, Seq::empty(), 0, total);
        assert(Seq::<PartView>::empty() + Seq::<PartView>::empty() =~= Seq::<PartView>::empty());
        if total is Some {
            assert(Seq::<PartView>::empty() + total.unwrap().0 =~= total.unwrap().0);
        }
    }
    while i < len
        invariant
            b == bytes@,
            len == b.len(),
            i <= len,
            total == scan(b, None),
            total is Some,
            texts_utf8(total.unwrap().0),
            count <= i,
            text_i matches Some(s) ==> s <= i,
            !in_brace ==> total == with_parts(
                part_views(parts@),
                count as nat,
                scan(b.skip(i as int), gathered(b, text_i, i as int)),
            ),
            in_brace ==> 1 <= i && b[i - 1] == OPEN_BRACE && text_i is None && total == with_parts(
                part_views(parts@),
                count as nat,
                scan(b.skip(i - 1), None),
            ),
        decreases len - i,
    {
        let ch = bytes[i];
        let ghost pv = part_views(parts@);
        if ch == OPEN_BRACE {
            if in_brace {
                proof {
                    let t = b.skip(i - 1);
                    assert(t[0] == OPEN_BRACE && t[1] == OPEN_BRACE);
                    assert(t.skip(2) =~= b.skip(i + 1));
                    assert(b.subrange(i - 1, i + 1) =~= seq![OPEN_BRACE, OPEN_BRACE]);
                    lemma_with_parts_assoc(
                        pv,
                        count as nat,
                        Seq::empty(),
                        0,
                        scan(b.skip(i + 1), Some(seq![OPEN_BRACE, OPEN_BRACE])),
                    );
                    assert(pv + Seq::<PartView>::empty() =~= pv);
                }
                in_brace = false;
                text_i = Some(i - 1);
            } else {
                let ghost cur = gathered(b, text_i, i as int);
                proof {
                    lemma_scan_flush(b.skip(i as int), cur);
                    lemma_with_parts_assoc(
                        pv,
                        count as nat,
                        flushed(cur),
                        0,
                        scan(b.skip(i as int), None),
                    );
                }
                if let Some(s) = text_i {
                    proof {
                        let k = pv.len() as int;
                        assert(total.unwrap().0[k] == PartView::Text(b.subrange(s as int, i as int)));
                    }
                    let part = text_part(bytes, s, i);
                    let ghost before = parts@;
                    parts.push(part);
                    proof {
                        assert(part_views(parts@) =~= part_views(before) + flushed(cur));
                    }
                    text_i = None;
                } else {
                    assert(pv + flushed(cur) =~= pv);
                }
                in_brace = true;
            }
        } else if ch == CLOSE_BRACE {
            if !in_brace {
                proof {
                    let t = b.skip(i as int);
                    assert(t[0] == CLOSE_BRACE);
                    assert(t[1] == b[i + 1]);
                    assert(t.skip(2) =~= b.skip(i + 2));
                }
                let ghost cur = gathered(b, text_i, i as int);
                if text_i.is_none() {
                    text_i = Some(i);
                }
                proof {
                    let s = text_i.unwrap();
                    assert(b.subrange(s as int, i + 2) =~= pending(cur) + seq![CLOSE_BRACE, CLOSE_BRACE]);
                }
                i = i + 1;
            } else {
                proof {
                    let t = b.skip(i - 1);
                    assert(t[0] == OPEN_BRACE && t[1] == CLOSE_BRACE);
                    assert(t.skip(2) =~= b.skip(i + 1));
                    assert(flushed(None).push(PartView::Arg) =~= seq![PartView::Arg]);
                    lemma_with_parts_assoc(
                        pv,
                        count as nat,
                        seq![PartView::Arg],
                        1,
                        scan(b.skip(i + 1), None),
                    );
                }
                in_brace = false;
                count = count + 1;
                let ghost before = parts@;
                parts.push(Part::Arg);
                proof {
                    assert(part_views(parts@) =~= part_views(before) + seq![PartView::Arg]);
                }
            }
        } else {
            proof {
                if in_brace {
                    assert(b.skip(i - 1)[1] == ch);
                }
                let t = b.skip(i as int);
                assert(t[0] == ch);
                assert(t.skip(1) =~= b.skip(i + 1));
            }
            let ghost cur = gathered(b, text_i, i as int);
            if text_i.is_none() {
                text_i = Some(i);
            }
            proof {
                let s = text_i.unwrap();
                assert(b.subrange(s as int, i + 1) =~= pending(cur).push(ch));
            }
        }
        i = i + 1;
    }
    proof {
        assert(b.skip(len as int) =~= Seq::<u8>::empty());
        if in_brace {
            assert(b.skip(len - 1).len() == 1);
        }
    }
    if let Some(s) = text_i {
        proof {
            let k = part_views(parts@).len() as int;
            assert(total.unwrap().0[k] == PartView::Text(b.subrange(s as int, len as int)));
        }
        let part = text_part(bytes, s, len);
        let ghost before = parts@;
        parts.push(part);
        proof {
            assert(part_views(parts@) =~= part_views(before).push(part@));
            assert(part_views(before) + seq![part@] =~= part_views(parts@));
        }
    } else {
        proof {
            assert(part_views(parts@) + Seq::<PartView>::empty() =~= part_views(parts@));
        }
    }
    (parts, count)
}

/// Reads a format string of `N` bytes with `ARGS` placeholders into at most
/// `PARTS` parts (see `scan`); its literal parts must be UTF-8.
pub fn format_str<'a, const N: usize, const PARTS: usize, const ARGS: usize>(
    bytes: &'a [u8],
) -> (r: Array<PARTS, Part<'a>>)
    requires
        N == bytes@.len(),
        scan(bytes@, None) is Some,
        scanned_args(bytes@) == ARGS,
        scanned_parts(bytes@).len() <= PARTS,
        texts_utf8(scanned_parts(bytes@)),
    ensures
        r.wf(),
        part_views(r@) == scanned_parts(bytes@),
{
    let (parts, _count) = scan_parts(bytes);
    Array::from_vec(parts)
}

/// Both halves of a sequence of parts have UTF-8 literal text.
pub proof fn lemma_texts_concat(p: Seq<PartView>, q: Seq<PartView>)
    requires
        texts_utf8(p),
        texts_utf8(q),
    ensures
        texts_utf8(p + q),
{
    assert forall|k: int| 0 <= k < (p + q).len() implies (#[trigger] (p + q)[k] matches PartView::Text(t)
        ==> valid_utf8(t)) by {
        if k < p.len() {
            assert((p + q)[k] == p[k]);
        } else {
            assert((p + q)[k] == q[k - p.len()]);
        }
    }
}

/// Counting argument places adds up over concatenation.
pub proof fn lemma_arg_count_concat(p: Seq<PartView>, q: Seq<PartView>)
    ensures
        arg_count(p + q) == arg_count(p) + arg_count(q),
    decreases p.len(),
{
    if p.len() == 0 {
        assert(p + q =~= q);
    } else {
        lemma_arg_count_concat(p.drop_first(), q);
        assert((p + q).drop_first() =~= p.drop_first() + q);
    }
}

/// The literal parts of a UTF-8 format string are UTF-8: they are cut at
/// braces. (Stated with the text `cur` gathered so far.)
pub proof fn lemma_scan_utf8(b: Seq<u8>, cur: Option<Seq<u8>>)
    requires
        scan(b, cur) is Some,
        valid_utf8(pending(cur) + b),
    ensures
        texts_utf8(scan(b, cur).unwrap().0),
    decreases b.len(),
{
    let t = pending(cur);
    let whole = t + b;
    if b.len() == 0 {
        assert(whole =~= t);
    } else if b[0] == OPEN_BRACE {
        assert(whole[t.len() as int] == OPEN_BRACE);
        is_char_boundary_iff_is_leading_byte(whole, t.len() as int);
        valid_utf8_split(whole, t.len() as int);
        assert(whole.subrange(0, t.len() as int) =~= t);
        assert(whole.subrange(t.len() as int, whole.len() as int) =~= b);
        assert(texts_utf8(flushed(cur)));
        if b.len() == 1 {
        } else if b[1] == OPEN_BRACE {
            let nt = seq![OPEN_BRACE, OPEN_BRACE];
            assert(nt + b.skip(2) =~= b);
            lemma_scan_utf8(b.skip(2), Some(nt));
            lemma_texts_concat(flushed(cur), scan(b.skip(2), Some(nt)).unwrap().0);
        } else {
            crate::utils::fmt::lemma_skip_ascii(b);
            crate::utils::fmt::lemma_skip_ascii(b.skip(1));
            assert(b.skip(1).skip(1) =~= b.skip(2));
            assert(Seq::<u8>::empty() + b.skip(2) =~= b.skip(2));
            lemma_scan_utf8(b.skip(2), None);
            assert(texts_utf8(flushed(cur).push(PartView::Arg))) by {
                assert forall|k: int| 0 <= k < flushed(cur).push(PartView::Arg).len() implies (
                #[trigger] flushed(cur).push(PartView::Arg)[k] matches PartView::Text(x)
                    ==> valid_utf8(x)) by {
                    if k < flushed(cur).len() {
                        assert(flushed(cur).push(PartView::Arg)[k] == flushed(cur)[k]);
                    }
                }
            }
            lemma_texts_concat(
                flushed(cur).push(PartView::Arg),
                scan(b.skip(2), None).unwrap().0,
            );
        }
    } else if b[0] == CLOSE_BRACE {
        let nt = t + seq![CLOSE_BRACE, CLOSE_BRACE];
        assert(nt + b.skip(2) =~= whole);
        lemma_scan_utf8(b.skip(2), Some(nt));
    } else {
        let nt = t.push(b[0]);
        assert(nt + b.skip(1) =~= whole);
        lemma_scan_utf8(b.skip(1), Some(nt));
    }
}

/// The count of argument places is the number of `Arg` parts.
pub proof fn lemma_scan_args(b: Seq<u8>, cur: Option<Seq<u8>>)
    requires
        scan(b, cur) is Some,
    ensures
        arg_count(scan(b, cur).unwrap().0) == scan(b, cur).unwrap().1,
    decreases b.len(),
{
    assert(arg_count(flushed(cur)) == 0) by {
        reveal_with_fuel(arg_count, 2);
        if cur is Some {
            assert(flushed(cur).drop_first() =~= Seq::<PartView>::empty());
        }
    }
    if b.len() == 0 {
    } else if b[0] == OPEN_BRACE {
        if b.len() == 1 {
        } else if b[1] == OPEN_BRACE {
            let nt = seq![OPEN_BRACE, OPEN_BRACE];
            lemma_scan_args(b.skip(2), Some(nt));
            lemma_arg_count_concat(flushed(cur), scan(b.skip(2), Some(nt)).unwrap().0);
        } else {
            lemma_scan_args(b.skip(2), None);
            let head = flushed(cur).push(PartView::Arg);
            assert(head =~= flushed(cur) + seq![PartView::Arg]);
            lemma_arg_count_concat(flushed(cur), seq![PartView::Arg]);
            assert(arg_count(seq![PartView::Arg]) == 1) by {
                reveal_with_fuel(arg_count, 2);
                assert(seq![PartView::Arg].drop_first() =~= Seq::<PartView>::empty());
            }
            lemma_arg_count_concat(head, scan(b.skip(2), None).unwrap().0);
        }
    } else if b[0] == CLOSE_BRACE {
        lemma_scan_args(b.skip(2), Some(pending(cur) + seq![CLOSE_BRACE, CLOSE_BRACE]));
    } else {
        lemma_scan_args(b.skip(1), Some(pending(cur).push(b[0])));
    }
}

/// The comma.
pub const COMMA: u8 = 0x2c;

/// Bytes with every comma left out.
pub open spec fn without_commas(b: Seq<u8>) -> Seq<u8>
    decreases b.len(),
{
    if b.len() == 0 {
        b
    } else if b.last() == COMMA {
        without_commas(b.drop_last())
    } else {
        without_commas(b.drop_last()).push(b.last())
    }
}

/// The text of a message: its parts joined, each argument place filled
/// with the next argument; a message without arguments loses its commas.
pub open spec fn message_text(ps: Seq<PartView>, args: Seq<Seq<u8>>) -> Seq<u8> {
    if args.len() == 0 {
        without_commas(assemble(ps, args))
    } else {
        assemble(ps, args)
    }
}

/// Leaves the commas out of a buffer.
fn drop_commas(buf: Vec<u8>) -> (r: Vec<u8>)
    ensures
        r@ == without_commas(buf@),
{
    let mut out: Vec<u8> = Vec::new();
    let mut i: usize = 0;
    proof {
        assert(buf@.take(0) =~= Seq::<u8>::empty());
    }
    while i < buf.len()
        invariant
            i <= buf@.len(),
            out@ == without_commas(buf@.take(i as int)),
        decreases buf@.len() - i,
    {
        let x = buf[i];
        proof {
            assert(buf@.take(i + 1).drop_last() =~= buf@.take(i as int));
            assert(buf@.take(i + 1).last() == x);
        }
        if x != COMMA {
            out.push(x);
        }
        i = i + 1;
    }
    assert(buf@.take(buf@.len() as int) =~= buf@);
    out
}

/// Formats a message: the parts of `fmt` (see `scan`) joined, each argument
/// place filled with the next argument's bytes, as a C string (NUL bytes
/// inside become spaces, and one NUL byte ends it). A format that takes no
/// arguments is written without its commas. The format string keeps the
/// syntax, has one placeholder per argument and at most twice as many parts
/// as arguments, plus one.
pub fn format_c(fmt: &str, args: &[Vec<u8>]) -> (c: Vec<u8>)
    requires
        scan(encode_utf8(fmt@), None) is Some,
        scanned_args(encode_utf8(fmt@)) == args@.len(),
        scanned_parts(encode_utf8(fmt@)).len() <= 2 * args@.len() + 1,
    ensures
        c@ == c_string(message_text(scanned_parts(encode_utf8(fmt@)), arg_bytes(args@))),
{
    let bytes = fmt.as_bytes();
    let ghost a = arg_bytes(args@);
    proof {
        encode_utf8_valid_utf8(fmt@);
        assert(pending(None) + bytes@ =~= bytes@);
        lemma_scan_utf8(bytes@, None);
        lemma_scan_args(bytes@, None);
    }
    let (parts, _count) = scan_parts(bytes);
    let ghost pv = part_views(parts@);
    let mut buf: Vec<u8> = Vec::new();
    let mut j: usize = 0;
    let mut k: usize = 0;
    proof {
        assert(pv.skip(0) =~= pv);
        assert(a.skip(0) =~= a);
    }
    while j < parts.len()
        invariant
            pv == part_views(parts@),
            a == arg_bytes(args@),
            j <= parts@.len(),
            k <= args@.len(),
            arg_count(pv.skip(j as int)) + k == args@.len(),
            buf@ + assemble(pv.skip(j as int), a.skip(k as int)) == assemble(pv, a),
        decreases parts@.len() - j,
    {
        let ghost rest = pv.skip(j as int);
        assert(rest[0] == parts@[j as int]@);
        assert(rest.drop_first() =~= pv.skip(j + 1));
        match &parts[j] {
            Part::Arg => {
                assert(a.skip(k as int)[0] == args@[k as int]@);
                assert(a.skip(k as int).drop_first() =~= a.skip(k + 1));
                append_bytes(&mut buf, args[k].as_slice());
                k = k + 1;
            },
            Part::Text(s) => {
                append_bytes(&mut buf, s.as_bytes());
            },
        }
        j = j + 1;
    }
    proof {
        assert(pv.skip(j as int) =~= Seq::<PartView>::empty());
        assert(buf@ + Seq::<u8>::empty() =~= buf@);
    }
    if args.len() == 0 {
        to_c_string(drop_commas(buf))
    } else {
        to_c_string(buf)
    }
}

} // verus!
