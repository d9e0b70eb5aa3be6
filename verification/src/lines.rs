//! A rule file read line by line: reading a rule never looks past the end
//! of its line, and does not depend on the line's number, so the rules of
//! a file are the rules of its lines, in order.
use vstd::prelude::*;

use crate::config::{
    parse_file_spec, spec_cmd, spec_collect, spec_identity, spec_options, spec_persist, spec_rule,
    spec_rules, spec_setenv, spec_target, FileOutcome, ParsingV, RuleResult,
};
use crate::tokenizer::{
    cursor_next, cursor_peek, flush_end, flush_token, initial_machine, run, step, tokenize_spec,
    Cursor, Item, Machine, QuoteView, TokenView,
};

verus! {

/// The token an item holds (an empty one for a `NewLine`).
pub open spec fn token_of(it: Item) -> TokenView {
    match it {
        Item::Token(t, _) => t,
        Item::NewLine(_) => TokenView { text: Seq::empty(), quoted: None },
    }
}

/// `s` is one line's items: tokens, then its `NewLine` at `k`, and nothing
/// after; `t` starts with the same tokens (whatever their line numbers) and
/// a `NewLine` at `k` too.
pub open spec fn same_line(s: Seq<Item>, t: Seq<Item>, k: int) -> bool {
    &&& 0 <= k
    &&& s.len() == k + 1
    &&& k < t.len()
    &&& s[k] is NewLine
    &&& t[k] is NewLine
    &&& forall|j: int| #![trigger s[j]] 0 <= j < k ==> s[j] is Token && t[j] is Token
    &&& forall|j: int| #![trigger s[j]] 0 <= j < k ==> token_of(s[j]) == token_of(t[j])
}

/// A rule read from one line alone, when it is read, is read from the same
/// tokens elsewhere alike, and both readings stop right after the line.
pub open spec fn read_alike(a: RuleResult, b: RuleResult, c: Cursor, d: Cursor, k: int) -> bool {
    a.outcome is Parsed ==> {
        &&& b.outcome == a.outcome
        &&& b.ignored == a.ignored
        &&& a.cursor.stream == c.stream.skip(k + 1)
        &&& b.cursor.stream == d.stream.skip(k + 1)
    }
}

proof fn lemma_next_alike(c: Cursor, d: Cursor, k: int)
    requires
        same_line(c.stream, d.stream, k),
    ensures
        k > 0 ==> {
            &&& cursor_next(c).0 is Some
            &&& cursor_next(c).0 == cursor_next(d).0
            &&& cursor_next(c).0 == Some(token_of(c.stream[0]))
            &&& same_line(cursor_next(c).1.stream, cursor_next(d).1.stream, k - 1)
            &&& cursor_next(c).1.stream.skip(k) == c.stream.skip(k + 1)
            &&& cursor_next(d).1.stream.skip(k) == d.stream.skip(k + 1)
        },
        k == 0 ==> {
            &&& cursor_next(c).0 is None
            &&& cursor_next(d).0 is None
            &&& cursor_next(c).1.stream == c.stream.skip(1)
            &&& cursor_next(d).1.stream == d.stream.skip(1)
            &&& cursor_next(c).1.stream.len() == 0
        },
        k > 0 ==> {
            &&& cursor_peek(c).0 is Some
            &&& cursor_peek(c).0 == cursor_peek(d).0
            &&& cursor_peek(c).0 == Some(token_of(c.stream[0]))
        },
        k == 0 ==> cursor_peek(c).0 is None && cursor_peek(d).0 is None,
        cursor_peek(c).1.stream == c.stream,
        cursor_peek(d).1.stream == d.stream,
{
    let s = c.stream;
    let t = d.stream;
    if k > 0 {
        assert(s[0] is Token && t[0] is Token && token_of(s[0]) == token_of(t[0]));
        let s1 = s.drop_first();
        let t1 = t.drop_first();
        assert forall|j: int| #![trigger s1[j]] 0 <= j < k - 1 implies s1[j] is Token && t1[j] is Token
            && token_of(s1[j]) == token_of(t1[j]) by {
            assert(s1[j] == s[j + 1]);
            assert(t1[j] == t[j + 1]);
        }
        assert(s1[k - 1] == s[k]);
        assert(t1[k - 1] == t[k]);
        assert(s1.skip(k) =~= s.skip(k + 1));
        assert(t1.skip(k) =~= t.skip(k + 1));
    } else {
        assert(s.drop_first() =~= s.skip(1));
        assert(t.drop_first() =~= t.skip(1));
    }
}

proof fn lemma_collect_alike(c: Cursor, d: Cursor, k: int)
    requires
        same_line(c.stream, d.stream, k),
    ensures
        spec_collect(c).0 == spec_collect(d).0,
        spec_collect(c).1.stream == c.stream.skip(k + 1),
        spec_collect(d).1.stream == d.stream.skip(k + 1),
    decreases k,
{
    lemma_next_alike(c, d, k);
    if k > 0 {
        lemma_collect_alike(cursor_next(c).1, cursor_next(d).1, k - 1);
    }
}

proof fn lemma_cmd_alike(c: Cursor, d: Cursor, k: int, pc: ParsingV, ign: Seq<Seq<char>>)
    requires
        same_line(c.stream, d.stream, k),
    ensures
        read_alike(spec_cmd(c, pc, ign), spec_cmd(d, pc, ign), c, d, k),
{
    lemma_next_alike(c, d, k);
    if k > 0 {
        let (c5, d5) = (cursor_next(c).1, cursor_next(d).1);
        lemma_next_alike(c5, d5, k - 1);
        if k > 1 {
            let (c6, d6) = (cursor_next(c5).1, cursor_next(d5).1);
            lemma_next_alike(c6, d6, k - 2);
            if k > 2 {
                let (c7, d7) = (cursor_next(c6).1, cursor_next(d6).1);
                lemma_collect_alike(c7, d7, k - 3);
            }
        }
    }
}

proof fn lemma_target_alike(c: Cursor, d: Cursor, k: int, pc: ParsingV, ign: Seq<Seq<char>>)
    requires
        same_line(c.stream, d.stream, k),
    ensures
        read_alike(spec_target(c, pc, ign), spec_target(d, pc, ign), c, d, k),
{
    lemma_next_alike(c, d, k);
    let (c2, d2) = (cursor_peek(c).1, cursor_peek(d).1);
    lemma_cmd_alike(c2, d2, k, ParsingV { target: None, ..pc }, ign);
    if k > 0 {
        lemma_next_alike(c2, d2, k);
        let (c3, d3) = (cursor_next(c2).1, cursor_next(d2).1);
        lemma_next_alike(c3, d3, k - 1);
        if k > 1 {
            let (c4, d4) = (cursor_next(c3).1, cursor_next(d3).1);
            let tt = cursor_next(c3).0->0;
            lemma_cmd_alike(c4, d4, k - 2, ParsingV { target: Some(tt.text), ..pc }, ign);
        }
    }
}

proof fn lemma_identity_alike(c: Cursor, d: Cursor, k: int, pc: ParsingV, ign: Seq<Seq<char>>)
    requires
        same_line(c.stream, d.stream, k),
    ensures
        read_alike(spec_identity(c, pc, ign), spec_identity(d, pc, ign), c, d, k),
{
    lemma_next_alike(c, d, k);
    if k > 0 {
        let (c1, d1) = (cursor_next(c).1, cursor_next(d).1);
        let t = cursor_next(c).0->0;
        match crate::config::identity_of(t.text) {
            Some(id) => {
                lemma_target_alike(c1, d1, k - 1, ParsingV { identity: Some(id), ..pc }, ign);
            },
            None => {},
        }
    }
}

proof fn lemma_setenv_alike(c: Cursor, d: Cursor, k: int, pc: ParsingV, ign: Seq<Seq<char>>)
    requires
        same_line(c.stream, d.stream, k),
    ensures
        read_alike(spec_setenv(c, pc, ign), spec_setenv(d, pc, ign), c, d, k),
    decreases k, 0int,
{
    lemma_next_alike(c, d, k);
    if k > 0 {
        let (c1, d1) = (cursor_next(c).1, cursor_next(d).1);
        let r = spec_setenv(c, pc, ign);
        let t = cursor_next(c).0->0;
        if r.outcome is Parsed {
            if crate::config::key(Some(t), "}"@) {
                lemma_options_alike(c1, d1, k - 1, pc, ign);
            } else if t.quoted is None && t.text.len() > 0 && t.text[0] == '-' {
                if t.text.len() > 1 {
                    lemma_setenv_alike(
                        c1,
                        d1,
                        k - 1,
                        crate::config::push_env(
                            pc,
                            crate::config::EnvV::Remove(t.text.drop_first()),
                        ),
                        ign,
                    );
                }
            } else {
                match crate::config::split_once(crate::config::before_quoted(t), '=') {
                    Some((kk, vu)) => {
                        let val = t.text.subrange(kk.len() as int + 1, t.text.len() as int);
                        lemma_setenv_alike(
                            c1,
                            d1,
                            k - 1,
                            crate::config::push_env(
                                pc,
                                crate::config::EnvV::Assign(
                                    kk,
                                    crate::config::env_value(val, vu),
                                ),
                            ),
                            ign,
                        );
                    },
                    None => {
                        if t.quoted is None {
                            lemma_setenv_alike(
                                c1,
                                d1,
                                k - 1,
                                crate::config::push_env(pc, crate::config::EnvV::Keep(t.text)),
                                ign,
                            );
                        } else {
                            lemma_setenv_alike(c1, d1, k - 1, pc, ign.push(t.text));
                        }
                    },
                }
            }
        }
    }
}

proof fn lemma_persist_alike(c: Cursor, d: Cursor, k: int, pc: ParsingV, ign: Seq<Seq<char>>)
    requires
        same_line(c.stream, d.stream, k),
    ensures
        read_alike(spec_persist(c, pc, ign), spec_persist(d, pc, ign), c, d, k),
    decreases k, 1int,
{
    let o = pc.options;
    lemma_next_alike(c, d, k);
    let (c3, d3) = (cursor_peek(c).1, cursor_peek(d).1);
    lemma_options_alike(
        c3,
        d3,
        k,
        crate::config::with_options(pc, crate::config::OptionsV { persist: Some((300, 0)), ..o }),
        ign,
    );
    if k > 0 {
        lemma_next_alike(c3, d3, k);
        let (c4, d4) = (cursor_next(c3).1, cursor_next(d3).1);
        lemma_next_alike(c4, d4, k - 1);
        if k > 1 {
            let (c5, d5) = (cursor_next(c4).1, cursor_next(d4).1);
            lemma_next_alike(c5, d5, k - 2);
            let dt = cursor_next(c4).0->0;
            match crate::timestamp::parse_duration(dt.text) {
                Ok(secs) => {
                    let pc2 = crate::config::with_options(
                        pc,
                        crate::config::OptionsV { persist: Some((secs, 0)), ..o },
                    );
                    if k > 2 {
                        let (c6, d6) = (cursor_next(c5).1, cursor_next(d5).1);
                        lemma_options_alike(c6, d6, k - 3, pc2, ign);
                    }
                },
                Err(_) => {},
            }
        }
    }
}

proof fn lemma_options_alike(c: Cursor, d: Cursor, k: int, pc: ParsingV, ign: Seq<Seq<char>>)
    requires
        same_line(c.stream, d.stream, k),
    ensures
        read_alike(spec_options(c, pc, ign), spec_options(d, pc, ign), c, d, k),
    decreases k, 0int,
{
    lemma_next_alike(c, d, k);
    if k > 0 {
        let (c1, d1) = (cursor_peek(c).1, cursor_peek(d).1);
        let t = cursor_peek(c).0->0;
        lemma_next_alike(c1, d1, k);
        let (c2, d2) = (cursor_next(c1).1, cursor_next(d1).1);
        lemma_identity_alike(c1, d1, k, pc, ign);
        if t.quoted is None {
            if crate::config::set_flag(pc, t.text) is Some {
                lemma_options_alike(c2, d2, k - 1, crate::config::set_flag(pc, t.text)->0, ign);
            } else if t.text == "persist"@ {
                lemma_persist_alike(c2, d2, k - 1, pc, ign);
            } else if t.text == "setenv"@ {
                lemma_next_alike(c2, d2, k - 1);
                if k > 1 {
                    let (c3, d3) = (cursor_next(c2).1, cursor_next(d2).1);
                    lemma_setenv_alike(c3, d3, k - 2, pc, ign);
                }
            }
        }
    }
}

/// A rule read from one line alone reads alike from the same tokens at the
/// head of any stream, and both readings stop right after the line.
pub proof fn lemma_rule_alike(c: Cursor, d: Cursor, k: int, ign: Seq<Seq<char>>)
    requires
        same_line(c.stream, d.stream, k),
    ensures
        read_alike(spec_rule(c, ign), spec_rule(d, ign), c, d, k),
{
    lemma_next_alike(c, d, k);
    if k > 0 {
        let (c1, d1) = (cursor_next(c).1, cursor_next(d).1);
        lemma_options_alike(
            c1,
            d1,
            k - 1,
            ParsingV { action: Some(crate::config::Action::Permit), ..crate::config::empty_parsing() },
            ign,
        );
        lemma_options_alike(
            c1,
            d1,
            k - 1,
            ParsingV { action: Some(crate::config::Action::Deny), ..crate::config::empty_parsing() },
            ign,
        );
    }
}

// ---------------------------------------------------------------------------
// The lexer, line by line

/// The lexer's state at the start of line `line`, with nothing pending.
pub open spec fn clean_machine(line: int) -> Machine {
    Machine { line, ..initial_machine() }
}

/// The state reached and the items handed out for the characters `s`,
/// without the end of the input.
pub open spec fn steps(m: Machine, s: Seq<char>) -> (Machine, Seq<Item>)
    decreases s.len(),
{
    if s.len() == 0 {
        (m, Seq::empty())
    } else {
        let (m2, out) = step(m, s[0]);
        let (m3, out2) = steps(m2, s.drop_first());
        (m3, out + out2)
    }
}

/// Items moved `d` lines further down.
pub open spec fn shift_item(it: Item, d: int) -> Item {
    match it {
        Item::Token(t, l) => Item::Token(t, l + d),
        Item::NewLine(l) => Item::NewLine(l + d),
    }
}

pub open spec fn shift_items(items: Seq<Item>, d: int) -> Seq<Item> {
    items.map_values(|it: Item| shift_item(it, d))
}

proof fn lemma_run_split(m: Machine, a: Seq<char>, b: Seq<char>)
    ensures
        run(m, a + b) == steps(m, a).1 + run(steps(m, a).0, b),
    decreases a.len(),
{
    if a.len() == 0 {
        assert(a + b =~= b);
        assert(Seq::<Item>::empty() + run(m, b) =~= run(m, b));
    } else {
        assert((a + b)[0] == a[0]);
        assert((a + b).drop_first() =~= a.drop_first() + b);
        let (m2, out) = step(m, a[0]);
        lemma_run_split(m2, a.drop_first(), b);
        let (m3, out2) = steps(m2, a.drop_first());
        assert(out + (out2 + run(m3, b)) =~= (out + out2) + run(m3, b));
    }
}

proof fn lemma_shift_concat(a: Seq<Item>, b: Seq<Item>, d: int)
    ensures
        shift_items(a + b, d) == shift_items(a, d) + shift_items(b, d),
{
    assert(shift_items(a + b, d) =~= shift_items(a, d) + shift_items(b, d));
}

proof fn lemma_flush_shift(m: Machine, d: int)
    ensures
        flush_token(Machine { line: m.line + d, ..m }).0 == (Machine {
            line: flush_token(m).0.line + d,
            ..flush_token(m).0
        }),
        flush_token(Machine { line: m.line + d, ..m }).1 == shift_items(flush_token(m).1, d),
        flush_token(m).0.line == m.line,
{
    let m2 = Machine { line: m.line + d, ..m };
    assert(flush_token(m2).1 =~= shift_items(flush_token(m).1, d));
}

/// The lexer does the same on any line, only the line numbers differ.
proof fn lemma_step_shift(m: Machine, ch: char, d: int)
    ensures
        step(Machine { line: m.line + d, ..m }, ch).0 == (Machine {
            line: step(m, ch).0.line + d,
            ..step(m, ch).0
        }),
        step(Machine { line: m.line + d, ..m }, ch).1 == shift_items(step(m, ch).1, d),
{
    let m2 = Machine { line: m.line + d, ..m };
    let m0 = if m.skipping {
        Machine { skipping: false, ..m }
    } else {
        m
    };
    let m02 = if m2.skipping {
        Machine { skipping: false, ..m2 }
    } else {
        m2
    };
    assert(m02 == Machine { line: m0.line + d, ..m0 });
    lemma_flush_shift(m0, d);
    let (m1, out1) = flush_token(m0);
    let (n1, nout1) = flush_token(m02);
    if m.skipping && ch != '\n' {
        assert(step(m2, ch).1 =~= shift_items(step(m, ch).1, d));
    } else if m0.escaped || (m0.quoted && ch != '"' && ch != '\\') {
        assert(step(m2, ch).1 =~= shift_items(step(m, ch).1, d));
    } else if ch == '\n' {
        if !m1.token_empty {
            lemma_shift_concat(out1, seq![Item::NewLine(m1.line)], d);
            assert(shift_items(seq![Item::NewLine(m1.line)], d) =~= seq![Item::NewLine(n1.line)]);
            assert(out1.push(Item::NewLine(m1.line)) =~= out1 + seq![Item::NewLine(m1.line)]);
            assert(nout1.push(Item::NewLine(n1.line)) =~= nout1 + seq![Item::NewLine(n1.line)]);
        }
    } else if crate::tokenizer::is_ascii_ws(ch) {
    } else if ch == '{' || ch == '}' {
        let (m3, t) = crate::tokenizer::finish_token(Machine { token: m1.token.push(ch), ..m1 });
        let (n3, nt) = crate::tokenizer::finish_token(Machine { token: n1.token.push(ch), ..n1 });
        assert(nt == t);
        lemma_shift_concat(out1, seq![Item::Token(t, m3.line)], d);
        assert(shift_items(seq![Item::Token(t, m3.line)], d) =~= seq![Item::Token(t, n3.line)]);
        assert(out1.push(Item::Token(t, m3.line)) =~= out1 + seq![Item::Token(t, m3.line)]);
        assert(nout1.push(Item::Token(nt, n3.line)) =~= nout1 + seq![Item::Token(nt, n3.line)]);
    } else {
        assert(step(m2, ch).1 =~= shift_items(step(m, ch).1, d));
    }
}

proof fn lemma_steps_shift(m: Machine, s: Seq<char>, d: int)
    ensures
        steps(Machine { line: m.line + d, ..m }, s).0 == (Machine {
            line: steps(m, s).0.line + d,
            ..steps(m, s).0
        }),
        steps(Machine { line: m.line + d, ..m }, s).1 == shift_items(steps(m, s).1, d),
    decreases s.len(),
{
    if s.len() == 0 {
        assert(shift_items(Seq::empty(), d) =~= Seq::<Item>::empty());
    } else {
        let (ma, outa) = step(m, s[0]);
        lemma_step_shift(m, s[0], d);
        lemma_steps_shift(ma, s.drop_first(), d);
        lemma_shift_concat(outa, steps(ma, s.drop_first()).1, d);
    }
}

/// A line that the lexer reads plainly: no newline, backslash or double quote.
pub open spec fn plain_line(l: Seq<char>) -> bool {
    forall|i: int| 0 <= i < l.len() ==> l[i] != '\n' && l[i] != '\\' && l[i] != '"'
}

/// A token of a single brace.
pub open spec fn brace_item(it: Item) -> bool {
    it matches Item::Token(t, _) && (t.text == seq!['{'] || t.text == seq!['}'])
}

/// The lexer inside a plain line `L`: nothing escaped or quoted; every item
/// handed out on the line is a token; while no `NewLine` is owed, they are
/// all single braces.
pub open spec fn inside_line(m: Machine, out: Seq<Item>) -> bool {
    &&& m.quote == QuoteView::Unquoted
    &&& !m.escaped
    &&& !m.quoted
    &&& forall|j: int| 0 <= j < out.len() ==> #[trigger] out[j] is Token
    &&& m.token_empty ==> forall|j: int| 0 <= j < out.len() ==> brace_item(#[trigger] out[j])
    &&& !m.token_empty ==> out.len() > 0
}

proof fn lemma_inside_line(m: Machine, out: Seq<Item>, l: Seq<char>)
    requires
        inside_line(m, out),
        plain_line(l),
    ensures
        inside_line(steps(m, l).0, out + steps(m, l).1),
        steps(m, l).0.line == m.line,
    decreases l.len(),
{
    if l.len() > 0 {
        let ch = l[0];
        let (m2, o) = step(m, ch);
        let m0 = if m.skipping {
            Machine { skipping: false, ..m }
        } else {
            m
        };
        let (m1, out1) = flush_token(m0);
        let all = out + o;
        if m.skipping {
        } else if ch == '{' || ch == '}' {
            let (m3, t) = crate::tokenizer::finish_token(Machine { token: m1.token.push(ch), ..m1 });
            assert(o == out1.push(Item::Token(t, m3.line)));
            assert(m1.token.len() == 0);
            assert(m1.token.push(ch) =~= seq![ch]);
            if ch == '{' {
                assert(seq![ch] =~= seq!['{']);
            } else {
                assert(seq![ch] =~= seq!['}']);
            }
            assert(brace_item(Item::Token(t, m3.line)));
            assert forall|j: int| 0 <= j < all.len() implies #[trigger] all[j] is Token by {
                if j < out.len() {
                    assert(all[j] == out[j]);
                } else if j - out.len() < out1.len() {
                    assert(all[j] == out1[j - out.len()]);
                } else {
                    assert(all[j] == Item::Token(t, m3.line));
                }
            }
            if m2.token_empty {
                assert(out1.len() == 0);
                assert forall|j: int| 0 <= j < all.len() implies brace_item(#[trigger] all[j]) by {
                    if j < out.len() {
                        assert(all[j] == out[j]);
                    } else {
                        assert(all[j] == Item::Token(t, m3.line));
                    }
                }
            }
        } else if crate::tokenizer::is_ascii_ws(ch) {
            assert forall|j: int| 0 <= j < all.len() implies #[trigger] all[j] is Token by {
                if j < out.len() {
                    assert(all[j] == out[j]);
                } else {
                    assert(all[j] == out1[j - out.len()]);
                }
            }
            if m2.token_empty {
                assert(o.len() == 0);
                assert(all =~= out);
            }
        } else {
            assert(o.len() == 0);
            assert(all =~= out);
        }
        assert(l.drop_first().len() < l.len());
        assert(plain_line(l.drop_first())) by {
            assert forall|i: int| 0 <= i < l.drop_first().len() implies l.drop_first()[i] != '\n'
                && l.drop_first()[i] != '\\' && l.drop_first()[i] != '"' by {
                assert(l.drop_first()[i] == l[i + 1]);
            }
        }
        lemma_inside_line(m2, all, l.drop_first());
        let (m4, o2) = steps(m2, l.drop_first());
        assert(out + (o + o2) =~= all + o2);
    }
}

/// What the lexer hands out for a plain line and its newline, from the start
/// of line `line`: tokens of that line, then its `NewLine` unless they are
/// all single braces; and it is at the start of the next line.
proof fn lemma_line_items(line: int, l: Seq<char>)
    requires
        plain_line(l),
    ensures
        steps(clean_machine(line), l + seq!['\n']).0 == clean_machine(line + 1),
        ({
            let s = steps(clean_machine(line), l + seq!['\n']).1;
            &&& forall|j: int| 0 <= j < s.len() - 1 ==> #[trigger] s[j] is Token
            &&& (s.len() > 1 && s.last() is NewLine) || forall|j: int| 0 <= j < s.len() ==> brace_item(
                #[trigger] s[j],
            )
        }),
{
    let m = clean_machine(line);
    lemma_inside_line(m, Seq::empty(), l);
    let (ml, ol) = steps(m, l);
    assert(Seq::<Item>::empty() + ol =~= ol);
    lemma_run_split_steps(m, l, seq!['\n']);
    let nl = seq!['\n'];
    assert(nl.drop_first() =~= Seq::<char>::empty());
    let (m2, o2) = step(ml, '\n');
    let m0 = if ml.skipping {
        Machine { skipping: false, ..ml }
    } else {
        ml
    };
    let (m1, out1) = flush_token(m0);
    assert(m1.token =~= Seq::<char>::empty());
    assert(o2 + Seq::<Item>::empty() =~= o2);
    assert(m2 == clean_machine(line + 1));
    assert(nl[0] == '\n');
    assert(steps(m2, nl.drop_first()) == (m2, Seq::<Item>::empty()));
    assert(steps(ml, nl).0 == m2);
    assert(steps(ml, nl).1 == o2 + Seq::<Item>::empty());
    assert(steps(ml, nl).1 == o2);
    let s = ol + o2;
    assert(steps(m, l + nl).1 == s);
    if !m1.token_empty {
        assert(s.last() is NewLine);
        assert forall|j: int| 0 <= j < s.len() - 1 implies #[trigger] s[j] is Token by {
            if j < ol.len() {
                assert(s[j] == ol[j]);
            } else {
                assert(s[j] == out1[j - ol.len()]);
            }
        }
    } else {
        assert(out1.len() == 0);
        assert(s =~= ol);
    }
}

proof fn lemma_run_split_steps(m: Machine, a: Seq<char>, b: Seq<char>)
    ensures
        steps(m, a + b) == (steps(steps(m, a).0, b).0, steps(m, a).1 + steps(steps(m, a).0, b).1),
    decreases a.len(),
{
    if a.len() == 0 {
        assert(a + b =~= b);
        assert(Seq::<Item>::empty() + steps(m, b).1 =~= steps(m, b).1);
    } else {
        assert((a + b)[0] == a[0]);
        assert((a + b).drop_first() =~= a.drop_first() + b);
        let (m2, out) = step(m, a[0]);
        lemma_run_split_steps(m2, a.drop_first(), b);
        let (m3, out2) = steps(m2, a.drop_first());
        let (m4, out3) = steps(m3, b);
        assert(out + (out2 + out3) =~= (out + out2) + out3);
    }
}

// ---------------------------------------------------------------------------
// The file

/// A file made of lines, each followed by a newline.
pub open spec fn lines_text(ls: Seq<Seq<char>>) -> Seq<char>
    decreases ls.len(),
{
    if ls.len() == 0 {
        Seq::empty()
    } else {
        ls[0] + seq!['\n'] + lines_text(ls.drop_first())
    }
}

/// The rules read from each line alone (with its newline), one line after
/// the other.
pub open spec fn line_rules(ls: Seq<Seq<char>>, ign: Seq<Seq<char>>) -> Seq<crate::config::ConfigV>
    decreases ls.len(),
{
    if ls.len() == 0 {
        Seq::empty()
    } else {
        (match parse_file_spec(ls[0] + seq!['\n'], ign).0 {
            FileOutcome::Parsed(s) => s,
            _ => Seq::empty(),
        }) + line_rules(ls.drop_first(), ign)
    }
}

/// The items of a plain line followed by the rest of a file: the line's own
/// items, moved down to its line, then those of the rest.
proof fn lemma_line_stream(line: int, l: Seq<char>, rest: Seq<char>)
    requires
        plain_line(l),
    ensures
        run(clean_machine(line), (l + seq!['\n']) + rest) == shift_items(
            tokenize_spec(l + seq!['\n']),
            line - 1,
        ) + run(clean_machine(line + 1), rest),
        ({
            let s = tokenize_spec(l + seq!['\n']);
            &&& forall|j: int| 0 <= j < s.len() - 1 ==> #[trigger] s[j] is Token
            &&& (s.len() > 1 && s.last() is NewLine) || forall|j: int| 0 <= j < s.len() ==> brace_item(
                #[trigger] s[j],
            )
        }),
{
    let nl = seq!['\n'];
    lemma_line_items(line, l);
    lemma_line_items(1, l);
    lemma_run_split(clean_machine(line), l + nl, rest);
    let s1 = steps(clean_machine(1), l + nl).1;
    assert(clean_machine(line) == Machine { line: clean_machine(1).line + (line - 1), ..clean_machine(1) });
    lemma_steps_shift(clean_machine(1), l + nl, line - 1);
    assert(initial_machine() == clean_machine(1));
    lemma_run_split(clean_machine(1), l + nl, Seq::empty());
    assert((l + nl) + Seq::<char>::empty() =~= l + nl);
    let m2 = clean_machine(2);
    assert(run(m2, Seq::empty()) == flush_end(m2));
    assert(flush_end(m2) =~= Seq::<Item>::empty());
    assert(s1 + Seq::<Item>::empty() =~= s1);
    assert(tokenize_spec(l + nl) == s1);
}

/// A line's own items, read as rules alone, are read alike at the head of
/// a file, and the reading goes on with the rest of the file.
proof fn lemma_line_rules(
    s1: Seq<Item>,
    dd: int,
    rr: Seq<Item>,
    ign: Seq<Seq<char>>,
    x: int,
    r0: (FileOutcome, Seq<Seq<char>>),
)
    requires
        forall|j: int| 0 <= j < s1.len() - 1 ==> #[trigger] s1[j] is Token,
        (s1.len() > 1 && s1.last() is NewLine) || forall|j: int| 0 <= j < s1.len() ==> brace_item(
            #[trigger] s1[j],
        ),
        spec_rules(Cursor { stream: s1, line: 1 }, ign).0 is Parsed,
        spec_rules(Cursor { stream: s1, line: 1 }, ign).1 == ign,
        forall|y: int| #[trigger] spec_rules(Cursor { stream: rr, line: y }, ign) == r0,
    ensures
        spec_rules(Cursor { stream: shift_items(s1, dd) + rr, line: x }, ign)
            == crate::config::prepend_all(
            spec_rules(Cursor { stream: s1, line: 1 }, ign).0->Parsed_0,
            r0,
        ),
{
    let per = spec_rules(Cursor { stream: s1, line: 1 }, ign);
    let sh = shift_items(s1, dd);
    let f = sh + rr;
    let d = Cursor { stream: f, line: x };
    if s1.len() == 0 {
        assert(f =~= rr);
        assert(per.0 == FileOutcome::Parsed(Seq::<crate::config::ConfigV>::empty()));
        assert(spec_rules(d, ign) == r0);
        if r0.0 is Parsed {
            assert(Seq::<crate::config::ConfigV>::empty() + r0.0->Parsed_0 =~= r0.0->Parsed_0);
        }
    } else {
        let c = Cursor { stream: s1, line: 1 };
        let c1 = cursor_peek(c).1;
        assert(s1[0] is Token) by {
            if !(s1.len() > 1 && s1.last() is NewLine) {
                assert(brace_item(s1[0]));
            }
        }
        let t0 = token_of(s1[0]);
        let r = spec_rule(c1, ign);
        assert(r.outcome is Parsed);
        let cfg = r.outcome->Parsed_0;
        let k = s1.len() - 1;
        assert(s1.len() > 1 && s1.last() is NewLine) by {
            reveal_strlit("permit");
            reveal_strlit("deny");
            if !(s1.len() > 1 && s1.last() is NewLine) {
                assert(brace_item(s1[0]));
                assert(t0.text.len() == 1);
            }
        }
        let d1 = cursor_peek(d).1;
        assert(same_line(c1.stream, d1.stream, k)) by {
            assert forall|j: int| #![trigger s1[j]] 0 <= j < k implies s1[j] is Token && f[j] is Token
                && token_of(s1[j]) == token_of(f[j]) by {
                assert(f[j] == sh[j]);
            }
            assert(f[k] == sh[k]);
        }
        lemma_rule_alike(c1, d1, k, ign);
        assert(s1.skip(k + 1) =~= Seq::<Item>::empty());
        assert(f.skip(k + 1) =~= rr);
        assert(r.cursor.stream.len() == 0);
        assert(spec_rules(r.cursor, r.ignored) == (
        FileOutcome::Parsed(Seq::<crate::config::ConfigV>::empty()), r.ignored));
        assert(per == crate::config::prepend(cfg, spec_rules(r.cursor, r.ignored)));
        assert(r.ignored == ign);
        assert(seq![cfg] + Seq::<crate::config::ConfigV>::empty() =~= seq![cfg]);
        assert(per.0 == FileOutcome::Parsed(seq![cfg]));
        let r2 = spec_rule(d1, ign);
        assert(r2.cursor.stream == rr);
        assert(r2.cursor == Cursor { stream: rr, line: r2.cursor.line });
        assert(spec_rules(Cursor { stream: rr, line: r2.cursor.line }, ign) == r0);
        assert(spec_rules(r2.cursor, ign) == r0);
        assert(spec_rules(d, ign) == crate::config::prepend(cfg, r0));
        if r0.0 is Parsed {
            assert(seq![cfg] + r0.0->Parsed_0 =~= seq![cfg] + r0.0->Parsed_0);
        }
    }
}

proof fn lemma_lines_from(ls: Seq<Seq<char>>, ign: Seq<Seq<char>>, line: int, x: int)
    requires
        forall|i: int| 0 <= i < ls.len() ==> plain_line(#[trigger] ls[i]),
        forall|i: int|
            0 <= i < ls.len() ==> (#[trigger] parse_file_spec(ls[i] + seq!['\n'], ign)).0 is Parsed
                && parse_file_spec(ls[i] + seq!['\n'], ign).1 == ign,
    ensures
        spec_rules(Cursor { stream: run(clean_machine(line), lines_text(ls)), line: x }, ign) == (
        FileOutcome::Parsed(line_rules(ls, ign)), ign),
    decreases ls.len(),
{
    if ls.len() == 0 {
        let m = clean_machine(line);
        assert(run(m, Seq::empty()) == flush_end(m));
        assert(flush_end(m) =~= Seq::<Item>::empty());
    } else {
        let l = ls[0];
        let nl = seq!['\n'];
        let rest = ls.drop_first();
        assert(plain_line(l));
        assert forall|i: int| 0 <= i < rest.len() implies plain_line(#[trigger] rest[i]) by {
            assert(rest[i] == ls[i + 1]);
        }
        assert forall|i: int| 0 <= i < rest.len() implies (#[trigger] parse_file_spec(rest[i] + seq!['\n'], ign)).0 is Parsed
            && parse_file_spec(rest[i] + seq!['\n'], ign).1 == ign by {
            assert(rest[i] == ls[i + 1]);
        }
        let per = parse_file_spec(l + nl, ign);
        assert(per.0 is Parsed && per.1 == ign);
        lemma_line_stream(line, l, lines_text(rest));
        let rr = run(clean_machine(line + 1), lines_text(rest));
        let r0 = (FileOutcome::Parsed(line_rules(rest, ign)), ign);
        assert forall|y: int| #[trigger] spec_rules(Cursor { stream: rr, line: y }, ign) == r0 by {
            lemma_lines_from(rest, ign, line + 1, y);
        }
        let s1 = tokenize_spec(l + nl);
        lemma_line_rules(s1, line - 1, rr, ign, x, r0);
        assert(lines_text(ls) == (l + nl) + lines_text(rest));
    }
}

/// The rules of a file made of plain lines (no backslash or double quote),
/// each of which reads alone as rules (blank and comment lines read as
/// none) without skipping a `setenv` entry, are the rules of its lines, in
/// the order of the lines.
pub proof fn law_file_is_its_lines(ls: Seq<Seq<char>>, ign: Seq<Seq<char>>)
    requires
        forall|i: int| 0 <= i < ls.len() ==> plain_line(#[trigger] ls[i]),
        forall|i: int|
            0 <= i < ls.len() ==> (#[trigger] parse_file_spec(ls[i] + seq!['\n'], ign)).0 is Parsed
                && parse_file_spec(ls[i] + seq!['\n'], ign).1 == ign,
    ensures
        parse_file_spec(lines_text(ls), ign) == (FileOutcome::Parsed(line_rules(ls, ign)), ign),
{
    assert(initial_machine() == clean_machine(1));
    lemma_lines_from(ls, ign, 1, 1);
}

} // verus!
