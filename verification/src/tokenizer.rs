//! The lexer of the rule file.
//!
//! Characters are read one at a time by a small automaton. Tokens are
//! separated by ASCII whitespace; `{` and `}` are tokens of their own; `#`
//! starts a comment that runs to the end of the line; `\` escapes the next
//! character (an escaped newline joins two lines); double quotes group
//! characters, whitespace included, and the first non-empty quoted span of a
//! token is remembered. A `NewLine` item ends every line that produced a token.
use vstd::prelude::*;
use vstd::string::StrSliceExecFns;

use crate::text::{chars_of, string_of};

verus! {

broadcast use vstd::string::group_string_axioms;

// ---------------------------------------------------------------------------
// Mathematical model

/// What a token holds: its characters and, if it has one, the span (in
/// characters) of its quoted part.
pub ghost struct TokenView {
    pub text: Seq<char>,
    pub quoted: Option<(int, int)>,
}

/// One item of the lexer's output.
pub ghost enum Item {
    Token(TokenView, int),
    NewLine(int),
}

/// Where the lexer stands inside a pair of double quotes.
pub ghost enum QuoteView {
    Unquoted,
    Half(int),
    Full(int, int),
}

/// The lexer's state between two characters.
pub ghost struct Machine {
    pub token: Seq<char>,
    pub quote: QuoteView,
    pub skipping: bool,
    pub token_empty: bool,
    pub line: int,
    pub escaped: bool,
    pub quoted: bool,
}

/// The state before the first character.
pub open spec fn initial_machine() -> Machine {
    Machine {
        token: Seq::empty(),
        quote: QuoteView::Unquoted,
        skipping: false,
        token_empty: true,
        line: 1,
        escaped: false,
        quoted: false,
    }
}

/// Rust's `char::is_ascii_whitespace`.
pub open spec fn is_ascii_ws(c: char) -> bool {
    c == ' ' || c == '\t' || c == '\n' || c == '\x0C' || c == '\r'
}

pub open spec fn quote_span(q: QuoteView) -> Option<(int, int)> {
    match q {
        QuoteView::Full(a, b) => Some((a, b)),
        _ => None,
    }
}

/// Closes the current token: its text and quoted span are handed out, and the
/// buffer and the quote state start afresh.
pub open spec fn finish_token(m: Machine) -> (Machine, TokenView) {
    (
        Machine { token: Seq::empty(), quote: QuoteView::Unquoted, ..m },
        TokenView { text: m.token, quoted: quote_span(m.quote) },
    )
}

/// Hands out the current token if it is not empty.
pub open spec fn flush_token(m: Machine) -> (Machine, Seq<Item>) {
    if m.token.len() > 0 {
        let (m1, t) = finish_token(m);
        (Machine { token_empty: false, ..m1 }, seq![Item::Token(t, m.line)])
    } else {
        (m, Seq::empty())
    }
}

/// The state reached on a double quote, before the character is consumed.
pub open spec fn on_quote(m: Machine) -> Machine {
    let q = !m.quoted;
    let len = m.token.len() as int;
    let quote = match m.quote {
        QuoteView::Unquoted => if q {
            QuoteView::Half(len)
        } else {
            QuoteView::Unquoted
        },
        QuoteView::Half(start) => if !q && len > start {
            QuoteView::Full(start, len)
        } else {
            QuoteView::Half(start)
        },
        QuoteView::Full(a, b) => QuoteView::Full(a, b),
    };
    Machine { quoted: q, quote, ..m }
}

/// One step of the automaton, for a character that is not skipped as part of
/// a comment.
pub open spec fn step_active(m: Machine, ch: char) -> (Machine, Seq<Item>) {
    if m.escaped {
        if ch == '\n' {
            (Machine { line: m.line + 1, escaped: false, ..m }, Seq::empty())
        } else {
            (Machine { token: m.token.push(ch), escaped: false, ..m }, Seq::empty())
        }
    } else if m.quoted && ch != '"' && ch != '\\' {
        (Machine { token: m.token.push(ch), ..m }, Seq::empty())
    } else if ch == '\n' {
        let (m1, out1) = flush_token(m);
        if !m1.token_empty {
            (
                Machine { token_empty: true, line: m1.line + 1, ..m1 },
                out1.push(Item::NewLine(m1.line)),
            )
        } else {
            (Machine { line: m1.line + 1, ..m1 }, out1)
        }
    } else if is_ascii_ws(ch) {
        flush_token(m)
    } else if ch == '{' || ch == '}' {
        let (m1, out1) = flush_token(m);
        let (m2, t) = finish_token(Machine { token: m1.token.push(ch), ..m1 });
        (m2, out1.push(Item::Token(t, m2.line)))
    } else if ch == '#' {
        (Machine { skipping: true, ..m }, Seq::empty())
    } else if ch == '\\' {
        (Machine { escaped: true, ..m }, Seq::empty())
    } else if ch == '"' {
        (on_quote(m), Seq::empty())
    } else {
        (Machine { token: m.token.push(ch), ..m }, Seq::empty())
    }
}

/// One step of the automaton: the new state and the items handed out.
pub open spec fn step(m: Machine, ch: char) -> (Machine, Seq<Item>) {
    if m.skipping && ch != '\n' {
        (m, Seq::empty())
    } else if m.skipping {
        step_active(Machine { skipping: false, ..m }, ch)
    } else {
        step_active(m, ch)
    }
}

/// What is handed out at the end of the input.
pub open spec fn flush_end(m: Machine) -> Seq<Item> {
    let (m1, out1) = flush_token(m);
    if !m1.token_empty {
        out1.push(Item::NewLine(m1.line))
    } else {
        out1
    }
}

/// The items handed out from state `m` for the characters `s`, end of input included.
pub open spec fn run(m: Machine, s: Seq<char>) -> Seq<Item>
    decreases s.len(),
{
    if s.len() == 0 {
        flush_end(m)
    } else {
        let (m2, out) = step(m, s[0]);
        out + run(m2, s.drop_first())
    }
}

/// The whole output of the lexer on a text.
pub open spec fn tokenize_spec(content: Seq<char>) -> Seq<Item> {
    run(initial_machine(), content)
}

/// Every token in `items` holds at least one character.
pub open spec fn tokens_nonempty(items: Seq<Item>) -> bool {
    forall|i: int|
        0 <= i < items.len() ==> (#[trigger] items[i] matches Item::Token(t, _) ==> t.text.len() > 0)
}

/// Every `NewLine` in `items` directly follows a token; the first item may be
/// a `NewLine` only when `first_ok` holds.
pub open spec fn newlines_follow_tokens(items: Seq<Item>, first_ok: bool) -> bool {
    forall|i: int|
        0 <= i < items.len() ==> (#[trigger] items[i] is NewLine ==> (i == 0 && first_ok) || (i > 0
            && items[i - 1] is Token))
}

proof fn lemma_flush_items(m: Machine)
    ensures
        tokens_nonempty(flush_token(m).1),
        flush_token(m).1.len() <= 1,
        flush_token(m).1.len() == 1 ==> flush_token(m).1[0] is Token && !flush_token(m).0.token_empty,
        flush_token(m).1.len() == 0 ==> flush_token(m).0 == m,
        flush_token(m).0.token.len() == 0,
        flush_token(m).0.line == m.line,
{
}

/// What one step hands out: non-empty tokens, and `NewLine`s only after a
/// token (or first, when a token was handed out on the line before the step).
proof fn lemma_step_items(m: Machine, ch: char)
    ensures
        tokens_nonempty(step(m, ch).1),
        newlines_follow_tokens(step(m, ch).1, !m.token_empty),
        step(m, ch).1.len() == 0 ==> step(m, ch).0.token_empty == m.token_empty,
        step(m, ch).1.len() > 0 && !step(m, ch).0.token_empty ==> step(m, ch).1.last() is Token,
{
    let m0 = if m.skipping {
        Machine { skipping: false, ..m }
    } else {
        m
    };
    lemma_flush_items(m0);
    let (m1, out1) = flush_token(m0);
    if !(m.skipping && ch != '\n') && !m0.escaped && !(m0.quoted && ch != '"' && ch != '\\') {
        if ch == '\n' {
            if !m1.token_empty {
                let out = out1.push(Item::NewLine(m1.line));
                assert(out.last() is NewLine);
                assert forall|i: int| 0 <= i < out.len() implies (#[trigger] out[i] is NewLine ==> (i
                    == 0 && !m.token_empty) || (i > 0 && out[i - 1] is Token)) by {
                    if i < out1.len() {
                        assert(out[i] == out1[i]);
                    }
                }
                assert(tokens_nonempty(out)) by {
                    assert forall|i: int| 0 <= i < out.len() implies (#[trigger] out[i] matches Item::Token(
                        t,
                        _,
                    ) ==> t.text.len() > 0) by {
                        if i < out1.len() {
                            assert(out[i] == out1[i]);
                        }
                    }
                }
            }
        } else if ch == '{' || ch == '}' {
            let (m2, t) = finish_token(Machine { token: m1.token.push(ch), ..m1 });
            let out = out1.push(Item::Token(t, m2.line));
            assert(t.text.len() == 1);
            assert(tokens_nonempty(out)) by {
                assert forall|i: int| 0 <= i < out.len() implies (#[trigger] out[i] matches Item::Token(
                    t2,
                    _,
                ) ==> t2.text.len() > 0) by {
                    if i < out1.len() {
                        assert(out[i] == out1[i]);
                    }
                }
            }
            assert forall|i: int| 0 <= i < out.len() implies (#[trigger] out[i] is NewLine ==> (i == 0
                && !m.token_empty) || (i > 0 && out[i - 1] is Token)) by {
                if i < out1.len() {
                    assert(out[i] == out1[i]);
                }
            }
        }
    }
}

/// Joining two runs of items keeps the properties, when the second may
/// start with a `NewLine` only right after a token of the first.
proof fn lemma_items_concat(a: Seq<Item>, b: Seq<Item>, first_ok: bool, mid_ok: bool)
    requires
        tokens_nonempty(a),
        tokens_nonempty(b),
        newlines_follow_tokens(a, first_ok),
        newlines_follow_tokens(b, mid_ok),
        mid_ok ==> (a.len() > 0 && a.last() is Token) || (a.len() == 0 && first_ok),
    ensures
        tokens_nonempty(a + b),
        newlines_follow_tokens(a + b, first_ok),
{
    assert forall|i: int| 0 <= i < (a + b).len() implies (#[trigger] (a + b)[i] matches Item::Token(
        t,
        _,
    ) ==> t.text.len() > 0) by {
        if i < a.len() {
            assert((a + b)[i] == a[i]);
        } else {
            assert((a + b)[i] == b[i - a.len()]);
        }
    }
    assert forall|i: int| 0 <= i < (a + b).len() implies (#[trigger] (a + b)[i] is NewLine ==> (i
        == 0 && first_ok) || (i > 0 && (a + b)[i - 1] is Token)) by {
        if i < a.len() {
            assert((a + b)[i] == a[i]);
            if i > 0 {
                assert((a + b)[i - 1] == a[i - 1]);
            }
        } else {
            assert((a + b)[i] == b[i - a.len()]);
            if i - a.len() > 0 {
                assert((a + b)[i - 1] == b[i - 1 - a.len()]);
            } else if a.len() > 0 {
                assert((a + b)[i - 1] == a.last());
            }
        }
    }
}

/// The items handed out from any state keep both properties.
proof fn lemma_run_items(m: Machine, s: Seq<char>)
    ensures
        tokens_nonempty(run(m, s)),
        newlines_follow_tokens(run(m, s), !m.token_empty),
    decreases s.len(),
{
    if s.len() == 0 {
        lemma_flush_items(m);
        let (m1, out1) = flush_token(m);
        let out = flush_end(m);
        assert forall|i: int| 0 <= i < out.len() implies (#[trigger] out[i] is NewLine ==> (i == 0
            && !m.token_empty) || (i > 0 && out[i - 1] is Token)) by {
            if i < out1.len() {
                assert(out[i] == out1[i]);
            }
        }
        assert(tokens_nonempty(out)) by {
            assert forall|i: int| 0 <= i < out.len() implies (#[trigger] out[i] matches Item::Token(
                t,
                _,
            ) ==> t.text.len() > 0) by {
                if i < out1.len() {
                    assert(out[i] == out1[i]);
                }
            }
        }
    } else {
        let (m2, out) = step(m, s[0]);
        lemma_step_items(m, s[0]);
        lemma_run_items(m2, s.drop_first());
        lemma_items_concat(out, run(m2, s.drop_first()), !m.token_empty, !m2.token_empty);
    }
}

/// The lexer hands out no empty token, and each `NewLine` it hands out
/// ends a line on which it handed out a token: it never comes first and
/// never follows another `NewLine`.
pub proof fn law_tokenize_items(content: Seq<char>)
    ensures
        tokens_nonempty(tokenize_spec(content)),
        newlines_follow_tokens(tokenize_spec(content), false),
{
    lemma_run_items(initial_machine(), content);
}

/// The line an item belongs to.
pub open spec fn item_line(it: Item) -> int {
    match it {
        Item::Token(_, l) => l,
        Item::NewLine(l) => l,
    }
}

/// The number of newline characters in a text.
pub open spec fn newline_count(s: Seq<char>) -> nat
    decreases s.len(),
{
    if s.len() == 0 {
        0
    } else {
        (if s[0] == '\n' { 1nat } else { 0nat }) + newline_count(s.drop_first())
    }
}

/// The items' lines lie between `lo` and `hi` and never go down.
pub open spec fn lines_ordered(items: Seq<Item>, lo: int, hi: int) -> bool {
    &&& forall|i: int| 0 <= i < items.len() ==> lo <= #[trigger] item_line(items[i]) <= hi
    &&& forall|i: int, j: int|
        0 <= i <= j < items.len() ==> item_line(#[trigger] items[i]) <= item_line(#[trigger] items[j])
}

proof fn lemma_flush_lines(m: Machine)
    ensures
        lines_ordered(flush_token(m).1, m.line, m.line),
        lines_ordered(flush_end(m), m.line, m.line),
{
    let (m1, out1) = flush_token(m);
    let out = flush_end(m);
    assert forall|i: int| 0 <= i < out.len() implies item_line(#[trigger] out[i]) == m.line by {
        if i < out1.len() {
            assert(out[i] == out1[i]);
        }
    }
}

/// One step hands out items of the current line only, and moves to the next
/// line at most once, on a newline character.
proof fn lemma_step_lines(m: Machine, ch: char)
    ensures
        lines_ordered(step(m, ch).1, m.line, m.line),
        m.line <= step(m, ch).0.line <= m.line + (if ch == '\n' { 1int } else { 0int }),
{
    let m0 = if m.skipping {
        Machine { skipping: false, ..m }
    } else {
        m
    };
    lemma_flush_lines(m0);
    let (m1, out1) = flush_token(m0);
    let out = step(m, ch).1;
    if !(m.skipping && ch != '\n') && !m0.escaped && !(m0.quoted && ch != '"' && ch != '\\') {
        if ch == '\n' || ch == '{' || ch == '}' {
            assert forall|i: int| 0 <= i < out.len() implies item_line(#[trigger] out[i]) == m.line by {
                if i < out1.len() {
                    assert(out[i] == out1[i]);
                }
            }
        }
    }
}

proof fn lemma_lines_concat(a: Seq<Item>, b: Seq<Item>, l: int, lo: int, hi: int)
    requires
        lines_ordered(a, l, l),
        lines_ordered(b, lo, hi),
        l <= lo,
        l <= hi,
    ensures
        lines_ordered(a + b, l, hi),
{
    let c = a + b;
    assert forall|i: int| 0 <= i < c.len() implies l <= #[trigger] item_line(c[i]) <= hi by {
        if i < a.len() {
            assert(c[i] == a[i]);
        } else {
            assert(c[i] == b[i - a.len()]);
        }
    }
    assert forall|i: int, j: int| 0 <= i <= j < c.len() implies item_line(#[trigger] c[i])
        <= item_line(#[trigger] c[j]) by {
        if i < a.len() {
            assert(c[i] == a[i]);
        } else {
            assert(c[i] == b[i - a.len()]);
        }
        if j < a.len() {
            assert(c[j] == a[j]);
        } else {
            assert(c[j] == b[j - a.len()]);
        }
    }
}

proof fn lemma_run_lines(m: Machine, s: Seq<char>)
    ensures
        lines_ordered(run(m, s), m.line, m.line + newline_count(s)),
    decreases s.len(),
{
    if s.len() == 0 {
        lemma_flush_lines(m);
    } else {
        let (m2, out) = step(m, s[0]);
        lemma_step_lines(m, s[0]);
        lemma_run_lines(m2, s.drop_first());
        lemma_lines_concat(out, run(m2, s.drop_first()), m.line, m2.line, m2.line + newline_count(
            s.drop_first(),
        ));
    }
}

/// The lines of the lexer's items start at 1, never go down, and never pass
/// one more than the number of newline characters in the text.
pub proof fn law_tokenize_lines(content: Seq<char>)
    ensures
        lines_ordered(tokenize_spec(content), 1, 1 + newline_count(content) as int),
{
    lemma_run_lines(initial_machine(), content);
}

// ---------------------------------------------------------------------------
// Tokens

#[derive(Debug)]
pub struct Token {
    str: String,
    quoted: Option<(usize, usize)>,
}

impl Token {
    #[verifier::type_invariant]
    spec fn well_formed(self) -> bool {
        self.quoted matches Some((a, b)) ==> a <= b <= self.str@.len()
    }

    pub closed spec fn view(&self) -> TokenView {
        TokenView {
            text: self.str@,
            quoted: match self.quoted {
                Some((a, b)) => Some((a as int, b as int)),
                None => None,
            },
        }
    }

    pub fn into_string(self) -> (s: String)
        ensures
            s@ == self@.text,
    {
        self.str
    }

    /// Whether the token is exactly `key`, written without quotes.
    pub fn is_key(&self, key: &str) -> (b: bool)
        ensures
            b == (self@.text == key@ && self@.quoted is None),
    {
        self.quoted.is_none() && str_eq(self.str.as_str(), key)
    }

    pub fn as_str(&self) -> (s: &str)
        ensures
            s@ == self@.text,
    {
        self.str.as_str()
    }

    pub fn quoted(&self) -> (b: bool)
        ensures
            b == self@.quoted is Some,
    {
        self.quoted.is_some()
    }

    /// The quoted part of the token, if it has one.
    pub fn quote_str(&self) -> (r: Option<&str>)
        ensures
            match self@.quoted {
                Some((a, b)) => r matches Some(s) && s@ == self@.text.subrange(a, b),
                None => r is None,
            },
    {
        proof {
            use_type_invariant(self);
        }
        match self.quoted {
            Some((a, b)) => Some(self.str.as_str().substring_char(a, b)),
            None => None,
        }
    }

    /// The text before the quoted part; the whole text if there is none.
    pub fn before_quoted(&self) -> (s: &str)
        ensures
            self@.quoted matches Some((a, b)) ==> 0 <= a <= b <= self@.text.len(),
            match self@.quoted {
                Some((a, b)) => s@ == self@.text.subrange(0, a),
                None => s@ == self@.text,
            },
    {
        proof {
            use_type_invariant(self);
        }
        match self.quoted {
            Some((a, _)) => self.str.as_str().substring_char(0, a),
            None => self.str.as_str(),
        }
    }

    /// A copy of the token.
    pub fn duplicate(&self) -> (t: Token)
        ensures
            t@ == self@,
    {
        proof {
            use_type_invariant(self);
        }
        Token { str: self.str.clone(), quoted: self.quoted }
    }
}

/// Whether two string slices hold the same characters.
pub fn str_eq(a: &str, b: &str) -> (r: bool)
    ensures
        r == (a@ == b@),
{
    let x = chars_of(a);
    let y = chars_of(b);
    chars_eq(x.as_slice(), y.as_slice())
}

/// Whether two character slices are equal.
pub fn chars_eq(a: &[char], b: &[char]) -> (r: bool)
    ensures
        r == (a@ == b@),
{
    if a.len() != b.len() {
        return false;
    }
    let mut i: usize = 0;
    while i < a.len()
        invariant
            i <= a@.len(),
            a@.len() == b@.len(),
            forall|j: int| 0 <= j < i ==> a@[j] == b@[j],
        decreases a@.len() - i,
    {
        if a[i] != b[i] {
            return false;
        }
        i = i + 1;
    }
    assert(a@ =~= b@);
    true
}

/// One item of the lexer's output: a token with its line, or the end of a line.
#[derive(Debug)]
pub enum State {
    Token(Token, usize),
    NewLine(usize),
}

impl State {
    pub open spec fn view(&self) -> Item {
        match self {
            State::Token(t, l) => Item::Token(t@, *l as int),
            State::NewLine(l) => Item::NewLine(*l as int),
        }
    }
}

pub open spec fn items_of(v: Seq<State>) -> Seq<Item> {
    v.map_values(|s: State| s@)
}

#[derive(Debug)]
enum QuoteState {
    Unquoted,
    Half(usize),
    Full(usize, usize),
}

impl QuoteState {
    spec fn view(&self) -> QuoteView {
        match self {
            QuoteState::Unquoted => QuoteView::Unquoted,
            QuoteState::Half(a) => QuoteView::Half(*a as int),
            QuoteState::Full(a, b) => QuoteView::Full(*a as int, *b as int),
        }
    }

    /// Takes the quote state out, leaving `None`; a complete span is returned.
    fn take_option(&mut self) -> (r: Option<(usize, usize)>)
        ensures
            final(self)@ == QuoteView::Unquoted,
            match old(self)@ {
                QuoteView::Full(a, b) => r == Some((a as usize, b as usize)),
                _ => r is None,
            },
    {
        let r = match *self {
            QuoteState::Full(a, b) => Some((a, b)),
            _ => None,
        };
        *self = QuoteState::Unquoted;
        r
    }
}

// ---------------------------------------------------------------------------
// The incremental lexer

/// The lexer, handing out one item at a time.
pub struct TokenizerInner {
    content: Vec<char>,
    pos: usize,
    token: Vec<char>,
    quote_state: QuoteState,
    skipping_comment: bool,
    token_empty: bool,
    line_count: usize,
    escaped: bool,
    quoted: bool,
    pending: Vec<State>,
    finished: bool,
}

pub open spec fn quote_ok(q: QuoteView, len: int) -> bool {
    match q {
        QuoteView::Unquoted => true,
        QuoteView::Half(a) => 0 <= a <= len,
        QuoteView::Full(a, b) => 0 <= a < b <= len,
    }
}

impl TokenizerInner {
    pub closed spec fn machine(&self) -> Machine {
        Machine {
            token: self.token@,
            quote: self.quote_state@,
            skipping: self.skipping_comment,
            token_empty: self.token_empty,
            line: self.line_count as int,
            escaped: self.escaped,
            quoted: self.quoted,
        }
    }

    /// The items still to be handed out.
    pub closed spec fn remaining(&self) -> Seq<Item> {
        items_of(self.pending@) + if self.finished {
            Seq::<Item>::empty()
        } else {
            run(self.machine(), self.content@.subrange(self.pos as int, self.content@.len() as int))
        }
    }

    pub closed spec fn wf(&self) -> bool {
        &&& self.pos <= self.content@.len() < usize::MAX
        &&& 1 <= self.line_count <= self.pos + 1
        &&& self.token@.len() <= self.pos
        &&& quote_ok(self.quote_state@, self.token@.len() as int)
    }

    pub fn new(content: &str) -> (t: Self)
        requires
            content@.len() < usize::MAX,
        ensures
            t.wf(),
            t.remaining() == tokenize_spec(content@),
    {
        let content = chars_of(content);
        let t = TokenizerInner {
            content,
            pos: 0,
            token: Vec::new(),
            quote_state: QuoteState::Unquoted,
            skipping_comment: false,
            token_empty: true,
            line_count: 1,
            escaped: false,
            quoted: false,
            pending: Vec::new(),
            finished: false,
        };
        assert(t.machine() == initial_machine());
        assert(items_of(t.pending@) =~= Seq::<Item>::empty());
        assert(t.content@.subrange(0, t.content@.len() as int) =~= t.content@);
        assert(t.remaining() =~= tokenize_spec(t.content@));
        t
    }

    fn finish_token(&mut self) -> (t: Token)
        requires
            old(self).wf(),
        ensures
            final(self).wf(),
            (final(self).machine(), t@) == finish_token(old(self).machine()),
            final(self).content == old(self).content,
            final(self).pos == old(self).pos,
            final(self).pending == old(self).pending,
            final(self).finished == old(self).finished,
    {
        let quoted = self.quote_state.take_option();
        let str = string_of(self.token.as_slice());
        self.token = Vec::new();
        let t = Token { str, quoted };
        assert(self.machine() =~= finish_token(old(self).machine()).0);
        t
    }

    fn flush_token(&mut self)
        requires
            old(self).wf(),
        ensures
            final(self).wf(),
            final(self).machine() == flush_token(old(self).machine()).0,
            items_of(final(self).pending@) == items_of(old(self).pending@) + flush_token(
                old(self).machine(),
            ).1,
            final(self).content == old(self).content,
            final(self).pos == old(self).pos,
            final(self).finished == old(self).finished,
    {
        if self.token.len() > 0 {
            let line = self.line_count;
            let t = self.finish_token();
            self.token_empty = false;
            self.pending.push(State::Token(t, line));
            assert(items_of(self.pending@) =~= items_of(old(self).pending@) + flush_token(
                old(self).machine(),
            ).1);
        } else {
            assert(items_of(self.pending@) =~= items_of(old(self).pending@) + Seq::<Item>::empty());
        }
    }

    /// Feeds the next character of the input to the automaton.
    fn feed(&mut self, ch: char)
        requires
            old(self).wf(),
            old(self).pos < old(self).content@.len(),
            ch == old(self).content@[old(self).pos as int],
        ensures
            final(self).wf(),
            final(self).pos == old(self).pos + 1,
            final(self).content == old(self).content,
            final(self).finished == old(self).finished,
            final(self).machine() == step(old(self).machine(), ch).0,
            items_of(final(self).pending@) == items_of(old(self).pending@) + step(
                old(self).machine(),
                ch,
            ).1,
    {
        let ghost m0 = self.machine();
        let ghost p0 = items_of(self.pending@);
        if self.skipping_comment {
            if ch != '\n' {
                self.pos = self.pos + 1;
                assert(items_of(self.pending@) =~= p0 + Seq::<Item>::empty());
                return;
            }
            self.skipping_comment = false;
        }
        let ghost m1 = self.machine();
        assert(step(m0, ch) == step_active(m1, ch));
        if self.escaped {
            if ch == '\n' {
                self.line_count = self.line_count + 1;
            } else {
                self.token.push(ch);
            }
            self.escaped = false;
            self.pos = self.pos + 1;
            assert(self.machine() =~= step_active(m1, ch).0);
            assert(items_of(self.pending@) =~= p0 + Seq::<Item>::empty());
            return;
        }
        if self.quoted && ch != '"' && ch != '\\' {
            self.token.push(ch);
            self.pos = self.pos + 1;
            assert(self.machine() =~= step_active(m1, ch).0);
            assert(items_of(self.pending@) =~= p0 + Seq::<Item>::empty());
            return;
        }
        if ch == '\n' {
            self.flush_token();
            let ghost p1 = items_of(self.pending@);
            let ghost m2 = self.machine();
            if !self.token_empty {
                let line = self.line_count;
                self.token_empty = true;
                self.pending.push(State::NewLine(line));
                assert(items_of(self.pending@) =~= p1.push(Item::NewLine(line as int)));
            }
            self.line_count = self.line_count + 1;
            self.pos = self.pos + 1;
            assert(self.machine() =~= step_active(m1, ch).0);
            assert(items_of(self.pending@) =~= p0 + step_active(m1, ch).1);
        } else if ch == ' ' || ch == '\t' || ch == '\x0C' || ch == '\r' {
            self.flush_token();
            self.pos = self.pos + 1;
        } else if ch == '{' || ch == '}' {
            self.flush_token();
            let ghost p1 = items_of(self.pending@);
            let ghost m2 = self.machine();
            self.pos = self.pos + 1;
            self.token.push(ch);
            let t = self.finish_token();
            let line = self.line_count;
            self.pending.push(State::Token(t, line));
            assert(items_of(self.pending@) =~= p1.push(Item::Token(t@, line as int)));
            assert(items_of(self.pending@) =~= p0 + step_active(m1, ch).1);
        } else if ch == '#' {
            self.skipping_comment = true;
            self.pos = self.pos + 1;
            assert(items_of(self.pending@) =~= p0 + Seq::<Item>::empty());
        } else if ch == '\\' {
            self.escaped = true;
            self.pos = self.pos + 1;
            assert(items_of(self.pending@) =~= p0 + Seq::<Item>::empty());
        } else if ch == '"' {
            self.quoted = !self.quoted;
            let len = self.token.len();
            match self.quote_state {
                QuoteState::Unquoted => {
                    if self.quoted {
                        self.quote_state = QuoteState::Half(len);
                    }
                },
                QuoteState::Half(start) => {
                    if !self.quoted && len > start {
                        self.quote_state = QuoteState::Full(start, len);
                    }
                },
                QuoteState::Full(_, _) => {},
            }
            self.pos = self.pos + 1;
            assert(self.machine() =~= step_active(m1, ch).0);
            assert(items_of(self.pending@) =~= p0 + Seq::<Item>::empty());
        } else {
            self.token.push(ch);
            self.pos = self.pos + 1;
            assert(self.machine() =~= step_active(m1, ch).0);
            assert(items_of(self.pending@) =~= p0 + Seq::<Item>::empty());
        }
    }

    /// Hands out what is left at the end of the input.
    fn finish(&mut self)
        requires
            old(self).wf(),
            !old(self).finished,
        ensures
            final(self).wf(),
            final(self).finished,
            final(self).content == old(self).content,
            final(self).pos == old(self).pos,
            items_of(final(self).pending@) == items_of(old(self).pending@) + flush_end(
                old(self).machine(),
            ),
    {
        let ghost p0 = items_of(self.pending@);
        self.flush_token();
        let ghost p1 = items_of(self.pending@);
        if !self.token_empty {
            let line = self.line_count;
            self.pending.push(State::NewLine(line));
            assert(items_of(self.pending@) =~= p1.push(Item::NewLine(line as int)));
        }
        self.finished = true;
    }

    /// The next item of the output, or `None` once the input is used up.
    /// The items are those of the generator that `Config::parse` reads
    /// from: after a token that ends at a newline or at a `#`, the line's
    /// `NewLine` comes next, with no `None` in between; `None` comes only
    /// once the input is used up, after a pending token and its line's
    /// `NewLine` are handed out.
    pub fn next_impl(&mut self) -> (r: Option<State>)
        requires
            old(self).wf(),
        ensures
            final(self).wf(),
            old(self).remaining().len() == 0 ==> r is None && final(self).remaining().len() == 0,
            old(self).remaining().len() > 0 ==> (r matches Some(s) && s@ == old(
                self,
            ).remaining()[0] && final(self).remaining() == old(self).remaining().drop_first()),
    {
        let ghost whole = self.remaining();
        while self.pending.len() == 0 && !self.finished
            invariant
                self.wf(),
                self.remaining() == whole,
            decreases self.content@.len() - self.pos + if self.finished {
                0int
            } else {
                1
            },
        {
            let ghost rest = self.content@.subrange(self.pos as int, self.content@.len() as int);
            assert(items_of(self.pending@) =~= Seq::<Item>::empty());
            if self.pos < self.content.len() {
                let ch = self.content[self.pos];
                let ghost m = self.machine();
                self.feed(ch);
                assert(rest.drop_first() =~= self.content@.subrange(
                    self.pos as int,
                    self.content@.len() as int,
                ));
                assert(rest[0] == ch);
                assert(run(m, rest) == step(m, ch).1 + run(step(m, ch).0, rest.drop_first()));
                assert(self.remaining() =~= whole);
            } else {
                assert(rest.len() == 0);
                let ghost m = self.machine();
                self.finish();
                assert(self.remaining() =~= whole);
            }
        }
        if self.pending.len() == 0 {
            assert(self.remaining() =~= Seq::<Item>::empty());
            None
        } else {
            let ghost p = self.pending@;
            let s = self.pending.remove(0);
            assert(items_of(self.pending@) =~= items_of(p).drop_first());
            assert(self.remaining() =~= whole.drop_first());
            Some(s)
        }
    }
}

// ---------------------------------------------------------------------------
// The cursor the rule parser reads from

/// The parser's view of the lexer: the items still to come, and the line of
/// the last item looked at.
pub ghost struct Cursor {
    pub stream: Seq<Item>,
    pub line: int,
}

/// Looking at the next item without consuming it: a token is returned, the
/// end of a line or of the input gives `None`; the line follows the item.
pub open spec fn cursor_peek(c: Cursor) -> (Option<TokenView>, Cursor) {
    if c.stream.len() == 0 {
        (None, c)
    } else {
        match c.stream[0] {
            Item::NewLine(l) => (None, Cursor { line: l, ..c }),
            Item::Token(t, l) => (Some(t), Cursor { line: l, ..c }),
        }
    }
}

/// Consuming the next item: a token is returned, the end of a line gives
/// `None` (and is consumed); at the end of the input nothing changes.
pub open spec fn cursor_next(c: Cursor) -> (Option<TokenView>, Cursor) {
    if c.stream.len() == 0 {
        (None, c)
    } else {
        match c.stream[0] {
            Item::NewLine(l) => (None, Cursor { stream: c.stream.drop_first(), line: l }),
            Item::Token(t, l) => (Some(t), Cursor { stream: c.stream.drop_first(), line: l }),
        }
    }
}

/// The lexer with one item of look-ahead and the current line number.
pub struct Tokenizer {
    tokenizer: TokenizerInner,
    peeked: Option<State>,
    line: usize,
}

pub open spec fn opt_token_view(t: Option<&Token>) -> Option<TokenView> {
    match t {
        Some(t) => Some(t@),
        None => None,
    }
}

pub open spec fn opt_owned_token_view(t: Option<Token>) -> Option<TokenView> {
    match t {
        Some(t) => Some(t@),
        None => None,
    }
}

impl Tokenizer {
    pub closed spec fn view(&self) -> Cursor {
        Cursor {
            stream: match self.peeked {
                Some(s) => seq![s@] + self.tokenizer.remaining(),
                None => self.tokenizer.remaining(),
            },
            line: self.line as int,
        }
    }

    pub closed spec fn wf(&self) -> bool {
        self.tokenizer.wf()
    }

    /// The line of the last item looked at.
    pub fn line(&self) -> (l: usize)
        ensures
            l == self@.line,
    {
        self.line
    }

    fn fill(&mut self)
        requires
            old(self).wf(),
        ensures
            final(self).wf(),
            final(self)@ == old(self)@,
            final(self).line == old(self).line,
            final(self)@.stream.len() > 0 ==> final(self).peeked is Some,
    {
        if self.peeked.is_none() {
            self.peeked = self.tokenizer.next_impl();
            assert(self@.stream =~= old(self)@.stream);
        }
    }

    /// Looks at the next item; a token is returned, the end of a line or of
    /// the input gives `None`.
    pub fn peek(&mut self) -> (r: Option<&Token>)
        requires
            old(self).wf(),
        ensures
            final(self).wf(),
            opt_token_view(r) == cursor_peek(old(self)@).0,
            final(self)@ == cursor_peek(old(self)@).1,
    {
        self.fill();
        match &self.peeked {
            Some(State::Token(t, l)) => {
                self.line = *l;
                Some(t)
            },
            Some(State::NewLine(l)) => {
                self.line = *l;
                None
            },
            None => None,
        }
    }

    /// Whether the next item is a token, that is whether another rule starts here.
    pub fn next_line(&mut self) -> (b: bool)
        requires
            old(self).wf(),
        ensures
            final(self).wf(),
            b == cursor_peek(old(self)@).0 is Some,
            final(self)@ == cursor_peek(old(self)@).1,
    {
        self.peek().is_some()
    }

    /// Consumes the next item; a token is returned, the end of a line gives `None`.
    pub fn next(&mut self) -> (r: Option<Token>)
        requires
            old(self).wf(),
        ensures
            final(self).wf(),
            opt_owned_token_view(r) == cursor_next(old(self)@).0,
            final(self)@ == cursor_next(old(self)@).1,
    {
        self.fill();
        let ghost c = self@;
        match self.peeked.take() {
            Some(State::Token(t, l)) => {
                self.line = l;
                assert(self@.stream =~= c.stream.drop_first());
                Some(t)
            },
            Some(State::NewLine(l)) => {
                self.line = l;
                assert(self@.stream =~= c.stream.drop_first());
                None
            },
            None => None,
        }
    }
}

/// Starts the lexer on a text; the line number starts at 1.
pub fn gen_tokenizer(content: &str) -> (t: Tokenizer)
    requires
        content@.len() < usize::MAX,
    ensures
        t.wf(),
        t@ == (Cursor { stream: tokenize_spec(content@), line: 1 }),
{
    Tokenizer { tokenizer: TokenizerInner::new(content), peeked: None, line: 1 }
}

} // verus!
