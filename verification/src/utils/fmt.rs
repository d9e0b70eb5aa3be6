//! Format strings with `{}` placeholders, prepared before use: each
//! placeholder becomes a NUL byte and each escaped brace (`{{`, `}}`) a single
//! brace. The prepared bytes are then cut into literal pieces and argument
//! slots, and a message is assembled from them.
use vstd::prelude::*;
use vstd::utf8::*;

use crate::utils::array::{slice, Array};

verus! {

broadcast use vstd::string::group_string_axioms;

/// The byte `{`.
pub const OPEN_BRACE: u8 = 0x7b;

/// The byte `}`.
pub const CLOSE_BRACE: u8 = 0x7d;

/// The byte that a NUL inside a message is replaced with.
pub const SPACE: u8 = 0x20;

// ---------------------------------------------------------------------------
// Preparing a format string

/// Adds a prepared piece in front of the rest of the preparation.
pub open spec fn prefixed(
    head: Seq<u8>,
    args: nat,
    rest: Option<(Seq<u8>, nat)>,
) -> Option<(Seq<u8>, nat)> {
    match rest {
        Some((o, n)) => Some((head + o, args + n)),
        None => None,
    }
}

/// The format syntax: `{{` stands for `{`, `}}` for `}`, `{}` for an
/// argument (prepared as a NUL byte), and any other byte except NUL for
/// itself. `None` when the text breaks the syntax (a lone brace, a brace
/// around anything else, or a NUL byte); otherwise the prepared bytes and the
/// number of placeholders.
pub open spec fn prepared(b: Seq<u8>) -> Option<(Seq<u8>, nat)>
    decreases b.len(),
{
    if b.len() == 0 {
        Some((Seq::empty(), 0))
    } else if b[0] == 0 {
        None
    } else if b[0] == OPEN_BRACE || b[0] == CLOSE_BRACE {
        if b.len() >= 2 && b[1] == b[0] {
            prefixed(seq![b[0]], 0, prepared(b.skip(2)))
        } else if b.len() >= 2 && b[0] == OPEN_BRACE && b[1] == CLOSE_BRACE {
            prefixed(seq![0u8], 1, prepared(b.skip(2)))
        } else {
            None
        }
    } else {
        prefixed(seq![b[0]], 0, prepared(b.skip(1)))
    }
}

/// The prepared bytes of a format string that keeps the syntax.
pub open spec fn prepared_text(b: Seq<u8>) -> Seq<u8> {
    prepared(b).unwrap().0
}

/// The number of placeholders of a format string that keeps the syntax.
pub open spec fn placeholders(b: Seq<u8>) -> nat {
    prepared(b).unwrap().1
}

/// Preparing never lengthens the text, and each placeholder takes two bytes.
pub proof fn lemma_prepared_len(b: Seq<u8>)
    requires
        prepared(b) is Some,
    ensures
        prepared_text(b).len() <= b.len(),
        2 * placeholders(b) <= b.len(),
    decreases b.len(),
{
    if b.len() == 0 {
    } else if b[0] == OPEN_BRACE || b[0] == CLOSE_BRACE {
        lemma_prepared_len(b.skip(2));
    } else {
        lemma_prepared_len(b.skip(1));
    }
}

/// Prepares a format string: the bytes that `prepared` gives, and the number
/// of placeholders.
fn prepare(bytes: &[u8]) -> (r: (Vec<u8>, usize))
    requires
        prepared(bytes@) is Some,
    ensures
        prepared(bytes@) == Some((r.0@, r.1 as nat)),
{
    let n = bytes.len();
    let mut out: Vec<u8> = Vec::new();
    let mut i: usize = 0;
    let mut in_brace = false;
    let mut count: usize = 0;
    proof {
        assert(bytes@.skip(0) =~= bytes@);
        assert(Seq::<u8>::empty() + prepared_text(bytes@) =~= prepared_text(bytes@));
    }
    while i < n
        invariant
            n == bytes@.len(),
            i <= n,
            in_brace ==> i >= 1 && bytes@[i - 1] == OPEN_BRACE,
            count <= i,
            prepared(bytes@) is Some,
            prepared(bytes@) == prefixed(
                out@,
                count as nat,
                prepared(bytes@.skip(if in_brace { i - 1 } else { i as int })),
            ),
        decreases n - i,
    {
        let ch = bytes[i];
        let ghost b = bytes@;
        if ch == OPEN_BRACE {
            if in_brace {
                proof {
                    assert(b.skip(i - 1).skip(2) =~= b.skip(i + 1));
                }
                in_brace = false;
                out.push(ch);
            } else {
                in_brace = true;
            }
        } else if ch == CLOSE_BRACE {
            if !in_brace {
                proof {
                    assert(b.skip(i as int)[0] == CLOSE_BRACE);
                    assert(b.skip(i as int).skip(2) =~= b.skip(i + 2));
                }
                out.push(ch);
                i = i + 1;
            } else {
                proof {
                    assert(b.skip(i - 1).skip(2) =~= b.skip(i + 1));
                }
                in_brace = false;
                count = count + 1;
                out.push(0);
            }
        } else {
            proof {
                if in_brace {
                    assert(b.skip(i - 1)[1] == ch);
                }
                assert(b.skip(i as int)[0] == ch);
                assert(b.skip(i as int).skip(1) =~= b.skip(i + 1));
            }
            out.push(ch);
        }
        i = i + 1;
    }
    proof {
        if in_brace {
            assert(bytes@.skip(i - 1).len() == 1);
        }
        assert(bytes@.skip(i as int) =~= Seq::<u8>::empty());
        assert(out@ + Seq::<u8>::empty() =~= out@);
    }
    (out, count)
}

/// Prepares the format string `bytes`, which holds `args` placeholders and
/// is `N` bytes long: placeholders become NUL bytes, escaped braces single
/// braces.
pub fn prep_str<const N: usize>(bytes: &[u8], args: usize) -> (r: Array<N, u8>)
    requires
        N == bytes@.len(),
        prepared(bytes@) is Some,
        placeholders(bytes@) == args,
    ensures
        r.wf(),
        r@ == prepared_text(bytes@),
{
    proof {
        lemma_prepared_len(bytes@);
    }
    let (o, _count) = prepare(bytes);
    Array::from_vec(o)
}

/// A prepared format string keeps the text of a UTF-8 one UTF-8: only ASCII
/// bytes are dropped or replaced. (Stated for the text after any UTF-8
/// prefix `p`.)
pub proof fn lemma_prepared_utf8(p: Seq<u8>, b: Seq<u8>)
    requires
        prepared(b) is Some,
        valid_utf8(p + b),
    ensures
        valid_utf8(p + prepared_text(b)),
    decreases b.len(),
{
    if b.len() == 0 {
        assert(p + b =~= p);
        assert(p + prepared_text(b) =~= p);
    } else if b[0] == OPEN_BRACE || b[0] == CLOSE_BRACE {
        let whole = p + b;
        let rest = b.skip(2);
        let c: u8 = if b[1] == b[0] { b[0] } else { 0u8 };
        assert(whole[p.len() as int] == b[0]);
        is_char_boundary_iff_is_leading_byte(whole, p.len() as int);
        valid_utf8_split(whole, p.len() as int);
        assert(whole.subrange(0, p.len() as int) =~= p);
        assert(whole.subrange(p.len() as int, whole.len() as int) =~= b);
        lemma_skip_ascii(b);
        lemma_skip_ascii(b.skip(1));
        assert(b.skip(1).skip(1) =~= rest);
        lemma_ascii_utf8(c);
        valid_utf8_concat(p, seq![c]);
        valid_utf8_concat(p + seq![c], rest);
        lemma_prepared_utf8(p + seq![c], rest);
        assert(prepared_text(b) == seq![c] + prepared_text(rest));
        assert(p + seq![c] + prepared_text(rest) =~= p + prepared_text(b));
    } else {
        let rest = b.skip(1);
        assert(p.push(b[0]) + rest =~= p + b);
        lemma_prepared_utf8(p.push(b[0]), rest);
        assert(prepared_text(b) == seq![b[0]] + prepared_text(rest));
        assert(p.push(b[0]) + prepared_text(rest) =~= p + prepared_text(b));
    }
}

/// A single ASCII byte is UTF-8.
pub proof fn lemma_ascii_utf8(c: u8)
    requires
        c <= 0x7f,
    ensures
        valid_utf8(seq![c]),
{
    reveal_with_fuel(valid_utf8, 2);
    assert((c & 0x7F) as u32 == c as u32) by (bit_vector)
        requires
            c <= 0x7f,
    ;
    assert(pop_first_scalar(seq![c]) =~= Seq::<u8>::empty());
}

/// Dropping a leading ASCII byte keeps UTF-8 text UTF-8.
pub proof fn lemma_skip_ascii(b: Seq<u8>)
    requires
        valid_utf8(b),
        b.len() > 0,
        b[0] <= 0x7f,
    ensures
        valid_utf8(b.skip(1)),
{
    assert(pop_first_scalar(b) =~= b.skip(1));
}

// ---------------------------------------------------------------------------
// Cutting prepared bytes into parts

/// A part of a formatted message: an argument's place, or literal text
/// (by its bytes).
pub ghost enum PartView {
    Arg,
    Text(Seq<u8>),
}

/// A part of a prepared format string.
#[derive(Debug)]
pub enum Part<'a> {
    /// Placeholder for a formatting argument.
    Arg,
    /// Literal text segment.
    Text(&'a str),
}

impl<'a> View for Part<'a> {
    type V = PartView;

    open spec fn view(&self) -> PartView {
        match self {
            Part::Arg => PartView::Arg,
            Part::Text(s) => PartView::Text(encode_utf8(s@)),
        }
    }
}

/// The views of a sequence of parts.
pub open spec fn part_views<'a>(ps: Seq<Part<'a>>) -> Seq<PartView> {
    ps.map_values(|p: Part<'a>| p@)
}

/// Whether every literal part is UTF-8 text.
pub open spec fn texts_utf8(ps: Seq<PartView>) -> bool {
    forall|k: int| 0 <= k < ps.len() ==> (#[trigger] ps[k] matches PartView::Text(t) ==> valid_utf8(t))
}

/// The length of the run of non-NUL bytes that `b` starts with.
pub open spec fn text_len(b: Seq<u8>) -> nat
    decreases b.len(),
{
    if b.len() == 0 || b[0] == 0 {
        0
    } else {
        1 + text_len(b.skip(1))
    }
}

/// `text_len` counts exactly the leading non-NUL bytes.
pub proof fn lemma_text_len(b: Seq<u8>)
    ensures
        text_len(b) <= b.len(),
        b.len() > 0 && b[0] != 0 ==> text_len(b) >= 1,
    decreases b.len(),
{
    if b.len() > 0 && b[0] != 0 {
        lemma_text_len(b.skip(1));
    }
}

/// A run of non-NUL bytes from `s` that ends at `e` (at a NUL or at the end)
/// is `e - s` long.
pub proof fn lemma_text_run(b: Seq<u8>, s: int, e: int)
    requires
        0 <= s <= e <= b.len(),
        forall|j: int| s <= j < e ==> b[j] != 0,
        e == b.len() || b[e] == 0,
    ensures
        text_len(b.skip(s)) == e - s,
    decreases e - s,
{
    if s < e {
        assert(b.skip(s).skip(1) =~= b.skip(s + 1));
        lemma_text_run(b, s + 1, e);
    }
}

/// Prepared bytes cut into parts: each NUL byte is an argument's place, each
/// maximal run of other bytes a literal part.
pub open spec fn parts_of(b: Seq<u8>) -> Seq<PartView>
    decreases b.len(),
{
    if b.len() == 0 {
        Seq::empty()
    } else if b[0] == 0 {
        seq![PartView::Arg] + parts_of(b.skip(1))
    } else {
        let k = text_len(b);
        proof {
            lemma_text_len(b);
        }
        seq![PartView::Text(b.take(k as int))] + parts_of(b.skip(k as int))
    }
}

/// `core::str::from_utf8`: the bytes read as a string slice, or `None` when
/// they are not UTF-8. Claimed: the result is `Some` exactly for UTF-8 bytes,
/// and then the string's bytes are the given ones.
#[verifier::external_body]
pub(crate) fn str_from_utf8<'a>(b: &'a [u8]) -> (r: Option<&'a str>)
    ensures
        r is Some <==> valid_utf8(b@),
        r matches Some(s) ==> encode_utf8(s@) == b@,
{
    core::str::from_utf8(b).ok()
}

/// The literal text from `s` up to `e`, which must be UTF-8.
fn text_part<'a>(bytes: &'a [u8], s: usize, e: usize) -> (p: Part<'a>)
    requires
        s <= e <= bytes@.len(),
        valid_utf8(bytes@.subrange(s as int, e as int)),
    ensures
        p@ == PartView::Text(bytes@.subrange(s as int, e as int)),
{
    let t = slice(bytes, s..e);
    match str_from_utf8(t) {
        Some(st) => Part::Text(st),
        None => Part::Arg,
    }
}

/// Cuts prepared bytes into parts, as `parts_of` describes.
fn split_parts<'a>(bytes: &'a [u8]) -> (parts: Vec<Part<'a>>)
    requires
        texts_utf8(parts_of(bytes@)),
    ensures
        part_views(parts@) == parts_of(bytes@),
{
    let ghost b = bytes@;
    let len = bytes.len();
    let mut parts: Vec<Part<'a>> = Vec::new();
    let mut i: usize = 0;
    let mut text_i: Option<usize> = None;
    proof {
        assert(b.skip(0) =~= b);
        assert(part_views(parts@) + parts_of(b) =~= parts_of(b));
    }
    while i < len
        invariant
            b == bytes@,
            len == b.len(),
            i <= len,
            texts_utf8(parts_of(b)),
            text_i matches Some(s) ==> s < i && forall|j: int| s <= j < i ==> b[j] != 0,
            part_views(parts@) + parts_of(
                b.skip(
                    match text_i {
                        Some(s) => s as int,
                        None => i as int,
                    },
                ),
            ) == parts_of(b),
        decreases len - i,
    {
        let ch = bytes[i];
        if ch == 0 {
            if let Some(s) = text_i {
                proof {
                    lemma_text_run(b, s as int, i as int);
                    assert(b.skip(s as int).take(i - s) =~= b.subrange(s as int, i as int));
                    assert(b.skip(s as int).skip(i - s) =~= b.skip(i as int));
                    let k = part_views(parts@).len() as int;
                    assert(parts_of(b)[k] == PartView::Text(b.subrange(s as int, i as int)));
                }
                let part = text_part(bytes, s, i);
                let ghost before = parts@;
                parts.push(part);
                proof {
                    assert(part_views(parts@) =~= part_views(before).push(part@));
                    assert(part_views(before) + parts_of(b.skip(s as int)) =~= part_views(parts@)
                        + parts_of(b.skip(i as int)));
                }
                text_i = None;
            }
            let ghost before = parts@;
            parts.push(Part::Arg);
            proof {
                assert(b.skip(i as int).skip(1) =~= b.skip(i + 1));
                assert(part_views(parts@) =~= part_views(before).push(PartView::Arg));
                assert(part_views(before) + parts_of(b.skip(i as int)) =~= part_views(parts@)
                    + parts_of(b.skip(i + 1)));
            }
        } else if text_i.is_none() {
            text_i = Some(i);
        }
        i = i + 1;
    }
    if let Some(s) = text_i {
        proof {
            lemma_text_run(b, s as int, len as int);
            assert(b.skip(s as int).take(len - s) =~= b.subrange(s as int, len as int));
            assert(b.skip(s as int).skip(len - s) =~= b.skip(len as int));
            let k = part_views(parts@).len() as int;
            assert(parts_of(b)[k] == PartView::Text(b.subrange(s as int, len as int)));
        }
        let part = text_part(bytes, s, len);
        let ghost before = parts@;
        parts.push(part);
        proof {
            assert(part_views(parts@) =~= part_views(before).push(part@));
            assert(part_views(before) + parts_of(b.skip(s as int)) =~= part_views(parts@)
                + parts_of(b.skip(len as int)));
        }
    }
    proof {
        assert(b.skip(len as int) =~= Seq::<u8>::empty());
        assert(part_views(parts@) + Seq::<PartView>::empty() =~= part_views(parts@));
    }
    parts
}

/// Cuts prepared bytes into at most `PARTS` parts: NUL bytes are argument
/// places, the runs between them literal text (which must be UTF-8).
pub fn format_str<'a, const PARTS: usize>(bytes: &'a [u8]) -> (r: Array<PARTS, Part<'a>>)
    requires
        texts_utf8(parts_of(bytes@)),
        parts_of(bytes@).len() <= PARTS,
    ensures
        r.wf(),
        part_views(r@) == parts_of(bytes@),
{
    let parts = split_parts(bytes);
    Array::from_vec(parts)
}

/// Literal parts of UTF-8 bytes are UTF-8: they are cut at NUL bytes.
pub proof fn lemma_parts_utf8(b: Seq<u8>)
    requires
        valid_utf8(b),
    ensures
        texts_utf8(parts_of(b)),
    decreases b.len(),
{
    if b.len() == 0 {
    } else if b[0] == 0 {
        lemma_skip_ascii(b);
        lemma_parts_utf8(b.skip(1));
        assert forall|k: int| 0 <= k < parts_of(b).len() implies (#[trigger] parts_of(b)[k] matches PartView::Text(t)
            ==> valid_utf8(t)) by {
            if k > 0 {
                assert(parts_of(b)[k] == parts_of(b.skip(1))[k - 1]);
            }
        }
    } else {
        let k = text_len(b) as int;
        lemma_text_len(b);
        lemma_text_stop(b);
        if k < b.len() {
            is_char_boundary_iff_is_leading_byte(b, k);
        } else {
            is_char_boundary_start_end_of_seq(b);
        }
        valid_utf8_split(b, k);
        assert(b.subrange(0, k) =~= b.take(k));
        assert(b.subrange(k, b.len() as int) =~= b.skip(k));
        lemma_parts_utf8(b.skip(k));
        assert forall|j: int| 0 <= j < parts_of(b).len() implies (#[trigger] parts_of(b)[j] matches PartView::Text(t)
            ==> valid_utf8(t)) by {
            if j > 0 {
                assert(parts_of(b)[j] == parts_of(b.skip(k))[j - 1]);
            }
        }
    }
}

/// The run that `text_len` counts stops at a NUL byte or at the end.
pub proof fn lemma_text_stop(b: Seq<u8>)
    ensures
        text_len(b) < b.len() ==> b[text_len(b) as int] == 0,
        forall|j: int| 0 <= j < text_len(b) ==> b[j] != 0,
    decreases b.len(),
{
    lemma_text_len(b);
    if b.len() > 0 && b[0] != 0 {
        lemma_text_len(b.skip(1));
        lemma_text_stop(b.skip(1));
        assert forall|j: int| 0 <= j < text_len(b) implies b[j] != 0 by {
            if j > 0 {
                assert(b[j] == b.skip(1)[j - 1]);
            }
        }
    }
}

/// Parts joined back into prepared bytes: an argument place as a NUL byte,
/// literal text as it is.
pub open spec fn joined(ps: Seq<PartView>) -> Seq<u8>
    decreases ps.len(),
{
    if ps.len() == 0 {
        Seq::empty()
    } else {
        match ps[0] {
            PartView::Arg => seq![0u8] + joined(ps.drop_first()),
            PartView::Text(t) => t + joined(ps.drop_first()),
        }
    }
}

/// No literal part is empty, and no literal part follows another.
pub open spec fn cut_at_nuls(ps: Seq<PartView>) -> bool {
    &&& forall|k: int| 0 <= k < ps.len() ==> (#[trigger] ps[k] matches PartView::Text(t) ==> t.len() > 0)
    &&& forall|k: int| 0 <= k < ps.len() - 1 ==> (#[trigger] ps[k] is Text ==> ps[k + 1] is Arg)
}

/// Cutting prepared bytes into parts loses nothing: joining the parts gives
/// the bytes back, no literal part is empty or follows another, and there is
/// one argument place per NUL byte.
pub proof fn law_parts_round_trip(b: Seq<u8>)
    ensures
        joined(parts_of(b)) == b,
        cut_at_nuls(parts_of(b)),
        arg_count(parts_of(b)) == nul_count(b),
    decreases b.len(),
{
    lemma_parts_assemble(b, Seq::empty());
    let ps = parts_of(b);
    if b.len() == 0 {
    } else if b[0] == 0 {
        law_parts_round_trip(b.skip(1));
        let rest = parts_of(b.skip(1));
        assert(ps.drop_first() =~= rest);
        assert(seq![0u8] + b.skip(1) =~= b);
        assert forall|k: int| 0 <= k < ps.len() - 1 && #[trigger] ps[k] is Text implies ps[k + 1] is Arg by {
            if k > 0 {
                assert(ps[k] == rest[k - 1]);
                assert(ps[k + 1] == rest[k]);
            }
        }
        assert forall|k: int| 0 <= k < ps.len() && #[trigger] ps[k] is Text implies ps[k]->Text_0.len() > 0 by {
            if k > 0 {
                assert(ps[k] == rest[k - 1]);
            }
        }
    } else {
        let k = text_len(b) as int;
        lemma_text_len(b);
        lemma_text_stop(b);
        law_parts_round_trip(b.skip(k));
        let rest = parts_of(b.skip(k));
        assert(ps.drop_first() =~= rest);
        assert(b.take(k) + b.skip(k) =~= b);
        if k < b.len() {
            assert(b.skip(k)[0] == 0);
            assert(rest[0] is Arg);
        } else {
            assert(b.skip(k).len() == 0);
        }
        assert forall|j: int| 0 <= j < ps.len() - 1 && #[trigger] ps[j] is Text implies ps[j + 1] is Arg by {
            assert(ps[j + 1] == rest[j]);
            if j > 0 {
                assert(ps[j] == rest[j - 1]);
            }
        }
        assert forall|j: int| 0 <= j < ps.len() && #[trigger] ps[j] is Text implies ps[j]->Text_0.len() > 0 by {
            if j > 0 {
                assert(ps[j] == rest[j - 1]);
            }
        }
    }
}

/// The number of maximal runs of non-NUL bytes in `b`, when the byte
/// before `b` was a NUL (or there was none) exactly when `after_nul`.
pub open spec fn runs_after(b: Seq<u8>, after_nul: bool) -> nat
    decreases b.len(),
{
    if b.len() == 0 {
        0
    } else {
        (if b[0] != 0 && after_nul { 1nat } else { 0nat }) + runs_after(b.skip(1), b[0] == 0)
    }
}

/// The number of maximal runs of non-NUL bytes in `b`.
pub open spec fn text_runs(b: Seq<u8>) -> nat {
    runs_after(b, true)
}

proof fn lemma_runs_in_run(b: Seq<u8>, k: int, after_nul: bool)
    requires
        0 < k <= b.len(),
        forall|j: int| 0 <= j < k ==> b[j] != 0,
    ensures
        runs_after(b, after_nul) == (if after_nul { 1nat } else { 0nat }) + runs_after(b.skip(k), false),
    decreases k,
{
    if k > 1 {
        lemma_runs_in_run(b.skip(1), k - 1, false);
        assert(b.skip(1).skip(k - 1) =~= b.skip(k));
    }
}

/// Cutting bytes gives one part per NUL byte and one per run of other
/// bytes: at most `PARTS` parts exactly when there are at most `PARTS` NUL
/// bytes and runs together.
pub proof fn law_parts_count(b: Seq<u8>)
    ensures
        parts_of(b).len() == nul_count(b) + text_runs(b),
    decreases b.len(),
{
    if b.len() > 0 {
        if b[0] == 0 {
            law_parts_count(b.skip(1));
            assert(runs_after(b.skip(1), true) == text_runs(b.skip(1)));
        } else {
            let k = text_len(b) as int;
            lemma_text_len(b);
            lemma_text_stop(b);
            law_parts_count(b.skip(k));
            lemma_runs_in_run(b, k, true);
            lemma_substitute_run(b, k, Seq::empty());
            if k < b.len() {
                assert(b.skip(k)[0] == 0);
                assert(runs_after(b.skip(k), false) == runs_after(b.skip(k), true));
            }
        }
    }
}

/// Prepared bytes written in the format syntax again: a NUL byte as `{}`, a
/// brace doubled, any other byte as itself.
pub open spec fn escaped(p: Seq<u8>) -> Seq<u8>
    decreases p.len(),
{
    if p.len() == 0 {
        Seq::empty()
    } else if p[0] == 0 {
        seq![OPEN_BRACE, CLOSE_BRACE] + escaped(p.skip(1))
    } else if p[0] == OPEN_BRACE || p[0] == CLOSE_BRACE {
        seq![p[0], p[0]] + escaped(p.skip(1))
    } else {
        seq![p[0]] + escaped(p.skip(1))
    }
}

/// Preparing a format string loses nothing: writing the prepared bytes in
/// the format syntax again gives the format string back; they hold one NUL
/// byte per placeholder and are no longer than the format string.
pub proof fn law_prepared_round_trip(b: Seq<u8>)
    requires
        prepared(b) is Some,
    ensures
        escaped(prepared_text(b)) == b,
        nul_count(prepared_text(b)) == placeholders(b),
        prepared_text(b).len() <= b.len(),
    decreases b.len(),
{
    lemma_prepared_nuls(b);
    lemma_prepared_len(b);
    if b.len() > 0 {
        let o = prepared_text(b);
        if b[0] == OPEN_BRACE || b[0] == CLOSE_BRACE {
            law_prepared_round_trip(b.skip(2));
            assert(o.skip(1) =~= prepared_text(b.skip(2)));
            assert(b.take(2) + b.skip(2) =~= b);
            if b[1] == b[0] {
                assert(seq![b[0], b[0]] =~= b.take(2));
            } else {
                assert(seq![OPEN_BRACE, CLOSE_BRACE] =~= b.take(2));
            }
        } else {
            law_prepared_round_trip(b.skip(1));
            assert(o.skip(1) =~= prepared_text(b.skip(1)));
            assert(seq![b[0]] + b.skip(1) =~= b);
        }
    }
}

// ---------------------------------------------------------------------------
// Assembling a message

/// The number of NUL bytes in `b`.
pub open spec fn nul_count(b: Seq<u8>) -> nat
    decreases b.len(),
{
    if b.len() == 0 {
        0
    } else {
        (if b[0] == 0 { 1nat } else { 0nat }) + nul_count(b.skip(1))
    }
}

/// The number of argument places among parts.
pub open spec fn arg_count(ps: Seq<PartView>) -> nat
    decreases ps.len(),
{
    if ps.len() == 0 {
        0
    } else {
        (if ps[0] is Arg { 1nat } else { 0nat }) + arg_count(ps.drop_first())
    }
}

/// Prepared bytes with each NUL byte replaced with the next argument.
pub open spec fn substitute(b: Seq<u8>, args: Seq<Seq<u8>>) -> Seq<u8>
    decreases b.len(),
{
    if b.len() == 0 {
        Seq::empty()
    } else if b[0] == 0 {
        args[0] + substitute(b.skip(1), args.drop_first())
    } else {
        seq![b[0]] + substitute(b.skip(1), args)
    }
}

/// Parts joined: literal text as it is, each argument place filled with the
/// next argument.
pub open spec fn assemble(ps: Seq<PartView>, args: Seq<Seq<u8>>) -> Seq<u8>
    decreases ps.len(),
{
    if ps.len() == 0 {
        Seq::empty()
    } else {
        match ps[0] {
            PartView::Arg => args[0] + assemble(ps.drop_first(), args.drop_first()),
            PartView::Text(t) => t + assemble(ps.drop_first(), args),
        }
    }
}

/// A message as a C string: each NUL byte inside it becomes a space, and a
/// single NUL byte ends it.
pub open spec fn c_string(b: Seq<u8>) -> Seq<u8> {
    b.map_values(|x: u8| if x == 0 { SPACE } else { x }).push(0)
}

/// A message made a C string is one: it keeps every byte but NUL, turns
/// each NUL into a space, and ends with the only NUL it holds.
pub proof fn law_c_string_one_nul(b: Seq<u8>)
    ensures
        c_string(b).len() == b.len() + 1,
        c_string(b).last() == 0,
        forall|i: int|
            0 <= i < b.len() ==> #[trigger] c_string(b)[i] != 0 && (b[i] != 0 ==> c_string(b)[i]
                == b[i]) && (b[i] == 0 ==> c_string(b)[i] == SPACE),
{
}

/// The bytes of each argument.
pub open spec fn arg_bytes(args: Seq<Vec<u8>>) -> Seq<Seq<u8>> {
    args.map_values(|v: Vec<u8>| v@)
}

/// Preparing leaves one NUL byte per placeholder.
pub proof fn lemma_prepared_nuls(b: Seq<u8>)
    requires
        prepared(b) is Some,
    ensures
        nul_count(prepared_text(b)) == placeholders(b),
    decreases b.len(),
{
    if b.len() == 0 {
    } else {
        let rest = if b[0] == OPEN_BRACE || b[0] == CLOSE_BRACE { b.skip(2) } else { b.skip(1) };
        lemma_prepared_nuls(rest);
        let o = prepared_text(b);
        assert(o.skip(1) =~= prepared_text(rest));
    }
}

/// Substituting over a run of non-NUL bytes copies the run.
pub proof fn lemma_substitute_run(b: Seq<u8>, k: int, args: Seq<Seq<u8>>)
    requires
        0 <= k <= b.len(),
        forall|j: int| 0 <= j < k ==> b[j] != 0,
    ensures
        substitute(b, args) == b.take(k) + substitute(b.skip(k), args),
        nul_count(b) == nul_count(b.skip(k)),
    decreases k,
{
    if k == 0 {
        assert(b.skip(0) =~= b);
        assert(b.take(0) + substitute(b, args) =~= substitute(b, args));
    } else {
        lemma_substitute_run(b.skip(1), k - 1, args);
        assert(b.skip(1).skip(k - 1) =~= b.skip(k));
        assert(seq![b[0]] + b.skip(1).take(k - 1) =~= b.take(k));
        assert(seq![b[0]] + (b.skip(1).take(k - 1) + substitute(b.skip(k), args)) =~= b.take(k)
            + substitute(b.skip(k), args));
    }
}

/// Joining the parts of prepared bytes substitutes the arguments into them,
/// and there is one argument place per NUL byte.
pub proof fn lemma_parts_assemble(b: Seq<u8>, args: Seq<Seq<u8>>)
    ensures
        assemble(parts_of(b), args) == substitute(b, args),
        arg_count(parts_of(b)) == nul_count(b),
    decreases b.len(),
{
    if b.len() == 0 {
    } else if b[0] == 0 {
        lemma_parts_assemble(b.skip(1), args.drop_first());
        lemma_parts_assemble(b.skip(1), args);
        assert(parts_of(b).drop_first() =~= parts_of(b.skip(1)));
    } else {
        let k = text_len(b) as int;
        lemma_text_len(b);
        lemma_text_stop(b);
        lemma_parts_assemble(b.skip(k), args);
        lemma_substitute_run(b, k, args);
        assert(parts_of(b).drop_first() =~= parts_of(b.skip(k)));
    }
}

/// The parts of a prepared format string hold one argument place per
/// placeholder, so filling them never runs out of arguments when there is
/// one argument per placeholder; and their literal text is UTF-8 when the
/// format string is.
pub proof fn law_prepared_parts(b: Seq<u8>)
    requires
        prepared(b) is Some,
    ensures
        arg_count(parts_of(prepared_text(b))) == placeholders(b),
        valid_utf8(b) ==> texts_utf8(parts_of(prepared_text(b))),
{
    lemma_prepared_nuls(b);
    lemma_parts_assemble(prepared_text(b), Seq::empty());
    if valid_utf8(b) {
        assert(Seq::<u8>::empty() + b =~= b);
        lemma_prepared_utf8(Seq::empty(), b);
        assert(Seq::<u8>::empty() + prepared_text(b) =~= prepared_text(b));
        lemma_parts_utf8(prepared_text(b));
    }
}

/// Appends bytes to a buffer.
pub(crate) fn append_bytes(buf: &mut Vec<u8>, b: &[u8])
    ensures
        final(buf)@ == old(buf)@ + b@,
{
    let mut i: usize = 0;
    while i < b.len()
        invariant
            i <= b@.len(),
            buf@ == old(buf)@ + b@.take(i as int),
        decreases b@.len() - i,
    {
        buf.push(b[i]);
        assert(old(buf)@ + b@.take(i as int) + seq![b@[i as int]] =~= old(buf)@ + b@.take(i + 1));
        i = i + 1;
    }
    assert(b@.take(b@.len() as int) =~= b@);
}

/// Makes a message a C string (see `c_string`).
pub(crate) fn to_c_string(buf: Vec<u8>) -> (c: Vec<u8>)
    ensures
        c@ == c_string(buf@),
{
    let mut buf = buf;
    let ghost orig = buf@;
    let mut i: usize = 0;
    while i < buf.len()
        invariant
            buf@.len() == orig.len(),
            i <= buf@.len(),
            forall|j: int| 0 <= j < i ==> buf@[j] == (if orig[j] == 0 { SPACE } else { orig[j] }),
            forall|j: int| i <= j < buf@.len() ==> buf@[j] == orig[j],
        decreases buf@.len() - i,
    {
        if buf[i] == 0 {
            buf.set(i, SPACE);
        }
        i = i + 1;
    }
    buf.push(0);
    assert(buf@ =~= c_string(orig));
    buf
}

/// Formats a message: `fmt` with its placeholders replaced with the
/// arguments' bytes in order, as a C string (NUL bytes inside become spaces,
/// and one NUL byte ends it). The format string keeps the syntax and has one
/// placeholder per argument.
pub fn format_c(fmt: &str, args: &[Vec<u8>]) -> (c: Vec<u8>)
    requires
        prepared(encode_utf8(fmt@)) is Some,
        placeholders(encode_utf8(fmt@)) == args@.len(),
    ensures
        c@ == c_string(substitute(prepared_text(encode_utf8(fmt@)), arg_bytes(args@))),
{
    let bytes = fmt.as_bytes();
    let (prep, _n) = prepare(bytes);
    let ghost a = arg_bytes(args@);
    proof {
        encode_utf8_valid_utf8(fmt@);
        assert(Seq::<u8>::empty() + bytes@ =~= bytes@);
        lemma_prepared_utf8(Seq::<u8>::empty(), bytes@);
        assert(Seq::<u8>::empty() + prep@ =~= prep@);
        lemma_parts_utf8(prep@);
        lemma_parts_assemble(prep@, a);
        lemma_prepared_nuls(bytes@);
    }
    let parts = split_parts(prep.as_slice());
    let ghost pv = part_views(parts@);
    let mut buf: Vec<u8> = Vec::new();
    let mut j: usize = 0;
    let mut k: usize = 0;
    proof {
        assert(pv.skip(0) =~= pv);
        assert(a.skip(0) =~= a);
    }
    while j < parts.len()
        invariant
            pv == part_views(parts@),
            a == arg_bytes(args@),
            j <= parts@.len(),
            k <= args@.len(),
            arg_count(pv.skip(j as int)) + k == args@.len(),
            buf@ + assemble(pv.skip(j as int), a.skip(k as int)) == assemble(pv, a),
        decreases parts@.len() - j,
    {
        let ghost rest = pv.skip(j as int);
        assert(rest[0] == parts@[j as int]@);
        assert(rest.drop_first() =~= pv.skip(j + 1));
        match &parts[j] {
            Part::Arg => {
                assert(a.skip(k as int)[0] == args@[k as int]@);
                assert(a.skip(k as int).drop_first() =~= a.skip(k + 1));
                append_bytes(&mut buf, args[k].as_slice());
                k = k + 1;
            },
            Part::Text(s) => {
                append_bytes(&mut buf, s.as_bytes());
            },
        }
        j = j + 1;
    }
    proof {
        assert(pv.skip(j as int) =~= Seq::<PartView>::empty());
        assert(buf@ + Seq::<u8>::empty() =~= buf@);
    }
    to_c_string(buf)
}

} // verus!
