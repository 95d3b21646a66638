use crate::token::{self, literal, Kind, Token};

use vstd::prelude::*;

verus! {

/// An ASCII letter, `a`-`z` or `A`-`Z`.
pub open spec fn is_letter_byte(b: u8) -> bool {
    (('a' as u8) <= b && b <= ('z' as u8)) || (('A' as u8) <= b && b <= ('Z' as u8))
}

/// An ASCII digit, `0`-`9`.
pub open spec fn is_digit_byte(b: u8) -> bool {
    ('0' as u8) <= b && b <= ('9' as u8)
}

/// A byte that may continue an identifier: a letter or a digit.
pub open spec fn is_ident_byte(b: u8) -> bool {
    is_letter_byte(b) || is_digit_byte(b)
}

/// Whitespace: space, tab, newline or carriage return.
pub open spec fn is_whitespace_byte(b: u8) -> bool {
    b == (' ' as u8) || b == ('\t' as u8) || b == ('\n' as u8) || b == ('\r' as u8)
}

/// One of the eight fixed single-byte punctuation marks.
pub open spec fn is_punct_byte(b: u8) -> bool {
    ||| b == literal::ASSIGN
    ||| b == literal::SEMICOLON
    ||| b == literal::LPAREN
    ||| b == literal::RPAREN
    ||| b == literal::COMMA
    ||| b == literal::PLUS
    ||| b == literal::LBRACE
    ||| b == literal::RBRACE
}

/// The kind a fixed punctuation byte maps to.
pub open spec fn punct_kind(b: u8) -> Kind {
    if b == literal::ASSIGN {
        Kind::ASSIGN
    } else if b == literal::SEMICOLON {
        Kind::SEMICOLON
    } else if b == literal::LPAREN {
        Kind::LPAREN
    } else if b == literal::RPAREN {
        Kind::RPAREN
    } else if b == literal::COMMA {
        Kind::COMMA
    } else if b == literal::PLUS {
        Kind::PLUS
    } else if b == literal::LBRACE {
        Kind::LBRACE
    } else {
        Kind::RBRACE
    }
}

/// The predicate a whitespace run is maximal for.
pub open spec fn whitespace_pred() -> spec_fn(u8) -> bool {
    |b: u8| is_whitespace_byte(b)
}

/// The predicate an identifier run is maximal for.
pub open spec fn ident_pred() -> spec_fn(u8) -> bool {
    |b: u8| is_ident_byte(b)
}

/// The predicate an integer-literal run is maximal for.
pub open spec fn digit_pred() -> spec_fn(u8) -> bool {
    |b: u8| is_digit_byte(b)
}

/// The offset of the first byte at or after `pos` that fails `f` (or the
/// end of the input): the end of the maximal run of `f`-bytes at `pos`.
pub open spec fn run_end(input: Seq<u8>, pos: int, f: spec_fn(u8) -> bool) -> int
    decreases input.len() - pos,
{
    if 0 <= pos < input.len() && f(input[pos]) {
        run_end(input, pos + 1, f)
    } else {
        pos
    }
}

/// Where the cursor stands after skipping the whitespace run at `pos`.
pub open spec fn skip_whitespace(input: Seq<u8>, pos: int) -> int {
    run_end(input, pos, whitespace_pred())
}

/// The end of the maximal identifier run (letters and digits) at `pos`.
pub open spec fn ident_end(input: Seq<u8>, pos: int) -> int {
    run_end(input, pos, ident_pred())
}

/// The end of the maximal digit run at `pos`.
pub open spec fn digit_end(input: Seq<u8>, pos: int) -> int {
    run_end(input, pos, digit_pred())
}

/// What the end of a maximal run is: it lies between `pos` and the end of
/// the input, every byte before it (from `pos` on) satisfies `f`, and the
/// byte at it, if any, does not.
pub proof fn lemma_run_end(input: Seq<u8>, pos: int, f: spec_fn(u8) -> bool)
    requires
        0 <= pos <= input.len(),
    ensures
        pos <= run_end(input, pos, f) <= input.len(),
        forall|i: int| pos <= i < run_end(input, pos, f) ==> f(input[i]),
        run_end(input, pos, f) < input.len() ==> !f(input[run_end(input, pos, f)]),
    decreases input.len() - pos,
{
    if pos < input.len() && f(input[pos]) {
        lemma_run_end(input, pos + 1, f);
    }
}

/// What one call to the advancing operation yields when the cursor stands
/// at `pos`: the token's kind, the token's text, and the cursor afterward.
///
/// Whitespace is skipped first; then the byte under the cursor is
/// classified: none left is `EOF`, a fixed punctuation byte is its own
/// one-byte token, a letter starts a maximal identifier run resolved
/// against the keyword table, a digit starts a maximal integer run, and
/// anything else is a one-byte `ILLEGAL` token.
pub open spec fn spec_next_token(input: Seq<u8>, pos: int) -> (Kind, Seq<u8>, int)
    recommends
        0 <= pos <= input.len(),
{
    let start = skip_whitespace(input, pos);
    if start >= input.len() {
        (Kind::EOF, Seq::<u8>::empty(), start)
    } else {
        let b = input[start];
        if is_punct_byte(b) {
            (punct_kind(b), seq![b], start + 1)
        } else if is_letter_byte(b) {
            let end = ident_end(input, start);
            (token::spec_lookup_keyword(input.subrange(start, end)), input.subrange(start, end), end)
        } else if is_digit_byte(b) {
            let end = digit_end(input, start);
            (Kind::INT, input.subrange(start, end), end)
        } else {
            (Kind::ILLEGAL, seq![b], start + 1)
        }
    }
}

/// Progress: one call to the advancing operation never moves the cursor
/// backward or past the end, and moves it forward by at least one byte
/// unless it yielded `EOF`.
pub proof fn lemma_next_token_progress(input: Seq<u8>, pos: int)
    requires
        0 <= pos <= input.len(),
    ensures
        pos <= spec_next_token(input, pos).2 <= input.len(),
        spec_next_token(input, pos).0 != Kind::EOF ==> spec_next_token(input, pos).2 >= pos + 1,
{
    lemma_run_end(input, pos, whitespace_pred());
    let start = skip_whitespace(input, pos);
    if start < input.len() {
        let b = input[start];
        if is_punct_byte(b) {
        } else if is_letter_byte(b) {
            lemma_run_end(input, start + 1, ident_pred());
        } else if is_digit_byte(b) {
            lemma_run_end(input, start + 1, digit_pred());
        }
    }
}

/// Idempotence of the terminal state: a call that yields `EOF` has empty
/// text and parks the cursor where every later call yields `EOF` with
/// empty text again, without moving the cursor.
pub proof fn lemma_eof_is_terminal(input: Seq<u8>, pos: int)
    requires
        0 <= pos <= input.len(),
        spec_next_token(input, pos).0 == Kind::EOF,
    ensures
        spec_next_token(input, pos).1 == Seq::<u8>::empty(),
        spec_next_token(input, spec_next_token(input, pos).2).0 == Kind::EOF,
        spec_next_token(input, spec_next_token(input, pos).2).1 == Seq::<u8>::empty(),
        spec_next_token(input, spec_next_token(input, pos).2).2 == spec_next_token(input, pos).2,
{
    lemma_run_end(input, pos, whitespace_pred());
}

/// The cursor of a fresh scanner after `n` calls to the advancing
/// operation; equivalently, the cursor the call with 0-based index `n`
/// starts from.
pub open spec fn cursor_before_call(input: Seq<u8>, n: nat) -> int
    decreases n,
{
    if n == 0 {
        0
    } else {
        spec_next_token(input, cursor_before_call(input, (n - 1) as nat)).2
    }
}

/// The kind that the call with 0-based index `n` on a fresh scanner yields.
pub open spec fn kind_of_call(input: Seq<u8>, n: nat) -> Kind {
    spec_next_token(input, cursor_before_call(input, n)).0
}

/// The cursor stays within the input over any number of calls.
proof fn lemma_cursor_before_call_bounds(input: Seq<u8>, n: nat)
    ensures
        0 <= cursor_before_call(input, n) <= input.len(),
    decreases n,
{
    if n > 0 {
        lemma_cursor_before_call_bounds(input, (n - 1) as nat);
        lemma_next_token_progress(input, cursor_before_call(input, (n - 1) as nat));
    }
}

/// Either call `n` already yields `EOF`, or `n + 1` calls have moved the
/// cursor forward by at least `n + 1` bytes.
proof fn lemma_calls_advance(input: Seq<u8>, n: nat)
    ensures
        kind_of_call(input, n) == Kind::EOF || cursor_before_call(input, (n + 1) as nat) >= n + 1,
    decreases n,
{
    lemma_cursor_before_call_bounds(input, n);
    lemma_next_token_progress(input, cursor_before_call(input, n));
    if n > 0 {
        lemma_calls_advance(input, (n - 1) as nat);
        if kind_of_call(input, (n - 1) as nat) == Kind::EOF {
            lemma_cursor_before_call_bounds(input, (n - 1) as nat);
            lemma_eof_is_terminal(input, cursor_before_call(input, (n - 1) as nat));
        }
    }
}

/// Once call `n` on a fresh scanner has yielded `EOF`, every later call
/// yields `EOF` with empty text as well.
pub proof fn lemma_eof_persists(input: Seq<u8>, n: nat, m: nat)
    requires
        kind_of_call(input, n) == Kind::EOF,
        n <= m,
    ensures
        kind_of_call(input, m) == Kind::EOF,
        spec_next_token(input, cursor_before_call(input, m)).1 == Seq::<u8>::empty(),
    decreases m - n,
{
    if m == n {
        lemma_cursor_before_call_bounds(input, n);
        lemma_eof_is_terminal(input, cursor_before_call(input, n));
    } else {
        lemma_eof_persists(input, n, (m - 1) as nat);
        lemma_cursor_before_call_bounds(input, (m - 1) as nat);
        lemma_eof_is_terminal(input, cursor_before_call(input, (m - 1) as nat));
    }
}

/// Termination: on any input, the advancing operation yields `EOF` within
/// `input.len() + 1` calls on a fresh scanner — every call with 0-based
/// index at least `input.len()` yields `EOF`.
pub proof fn lemma_scan_terminates(input: Seq<u8>, n: nat)
    requires
        n >= input.len(),
    ensures
        kind_of_call(input, n) == Kind::EOF,
{
    if n == 0 {
        lemma_run_end(input, 0, whitespace_pred());
    } else {
        lemma_calls_advance(input, (n - 1) as nat);
        if kind_of_call(input, (n - 1) as nat) == Kind::EOF {
            lemma_cursor_before_call_bounds(input, (n - 1) as nat);
            lemma_eof_is_terminal(input, cursor_before_call(input, (n - 1) as nat));
        } else {
            lemma_cursor_before_call_bounds(input, n);
            lemma_run_end(input, cursor_before_call(input, n), whitespace_pred());
        }
    }
}

/// The concatenation, in order, of the text of every token a scan from
/// `pos` yields before its `EOF` token.
pub open spec fn spec_tokens_text(input: Seq<u8>, pos: int) -> Seq<u8>
    decreases input.len() - pos,
        when 0 <= pos <= input.len()
{
    let r = spec_next_token(input, pos);
    if r.0 == Kind::EOF {
        Seq::<u8>::empty()
    } else {
        proof {
            lemma_next_token_progress(input, pos);
        }
        r.1 + spec_tokens_text(input, r.2)
    }
}

/// `input` from `pos` on, with all whitespace bytes removed.
pub open spec fn spec_strip_whitespace(input: Seq<u8>, pos: int) -> Seq<u8>
    decreases input.len() - pos,
{
    if !(0 <= pos < input.len()) {
        Seq::<u8>::empty()
    } else if is_whitespace_byte(input[pos]) {
        spec_strip_whitespace(input, pos + 1)
    } else {
        seq![input[pos]] + spec_strip_whitespace(input, pos + 1)
    }
}

/// Removing whitespace from a stretch of pure whitespace leaves only what
/// the tail contributes.
proof fn lemma_strip_whitespace_skip(input: Seq<u8>, pos: int, end: int)
    requires
        0 <= pos <= end <= input.len(),
        forall|i: int| pos <= i < end ==> is_whitespace_byte(input[i]),
    ensures
        spec_strip_whitespace(input, pos) == spec_strip_whitespace(input, end),
    decreases end - pos,
{
    if pos < end {
        lemma_strip_whitespace_skip(input, pos + 1, end);
    }
}

/// A stretch free of whitespace survives whitespace removal unchanged.
proof fn lemma_strip_whitespace_run(input: Seq<u8>, pos: int, end: int)
    requires
        0 <= pos <= end <= input.len(),
        forall|i: int| pos <= i < end ==> !is_whitespace_byte(input[i]),
    ensures
        spec_strip_whitespace(input, pos) == input.subrange(pos, end) + spec_strip_whitespace(
            input,
            end,
        ),
    decreases end - pos,
{
    if pos == end {
        assert(input.subrange(pos, end) =~= Seq::<u8>::empty());
        assert(spec_strip_whitespace(input, pos) =~= Seq::<u8>::empty() + spec_strip_whitespace(
            input,
            pos,
        ));
    } else {
        lemma_strip_whitespace_run(input, pos + 1, end);
        assert(input.subrange(pos, end) =~= seq![input[pos]] + input.subrange(pos + 1, end));
        assert((seq![input[pos]] + input.subrange(pos + 1, end)) + spec_strip_whitespace(
            input,
            end,
        ) =~= seq![input[pos]] + (input.subrange(pos + 1, end) + spec_strip_whitespace(
            input,
            end,
        )));
    }
}

/// Round trip from any cursor: see `lemma_round_trip`.
proof fn lemma_round_trip_from(input: Seq<u8>, pos: int)
    requires
        0 <= pos <= input.len(),
        forall|i: int|
            0 <= i < input.len() ==> is_whitespace_byte(input[i]) || is_ident_byte(input[i])
                || is_punct_byte(input[i]),
    ensures
        spec_tokens_text(input, pos) == spec_strip_whitespace(input, pos),
    decreases input.len() - pos,
{
    lemma_run_end(input, pos, whitespace_pred());
    lemma_next_token_progress(input, pos);
    let start = skip_whitespace(input, pos);
    let r = spec_next_token(input, pos);
    lemma_strip_whitespace_skip(input, pos, start);
    if r.0 != Kind::EOF {
        let b = input[start];
        if is_punct_byte(b) {
            lemma_round_trip_from(input, start + 1);
            assert(spec_strip_whitespace(input, start) == seq![b] + spec_strip_whitespace(
                input,
                start + 1,
            ));
        } else if is_letter_byte(b) {
            let end = ident_end(input, start);
            lemma_run_end(input, start, ident_pred());
            assert(forall|i: int| start <= i < end ==> !is_whitespace_byte(input[i]));
            lemma_strip_whitespace_run(input, start, end);
            lemma_round_trip_from(input, end);
        } else if is_digit_byte(b) {
            let end = digit_end(input, start);
            lemma_run_end(input, start, digit_pred());
            assert(forall|i: int| start <= i < end ==> !is_whitespace_byte(input[i]));
            lemma_strip_whitespace_run(input, start, end);
            lemma_round_trip_from(input, end);
        }
    }
}

/// Round trip: on an input made only of whitespace, letters, digits and
/// the fixed punctuation bytes, the concatenation of all token texts, in
/// order, equals the input with all whitespace removed.
pub proof fn lemma_round_trip(input: Seq<u8>)
    requires
        forall|i: int|
            0 <= i < input.len() ==> is_whitespace_byte(input[i]) || is_ident_byte(input[i])
                || is_punct_byte(input[i]),
    ensures
        spec_tokens_text(input, 0) == spec_strip_whitespace(input, 0),
{
    lemma_round_trip_from(input, 0);
}

/// The scanner: a cursor over the borrowed input bytes.
///
/// `position` is the offset of the byte currently being inspected,
/// `read_position` the offset of the next byte to inspect, and `ch` the
/// cached byte at `position` (`None` once the cursor has passed the end).
#[derive(Debug)]
pub struct Lexer<'a> {
    ch: Option<u8>,
    input: &'a [u8],
    position: usize,
    read_position: usize,
}

impl<'a> Lexer<'a> {
    /// The scanner's cursor invariant: the cursor never points past the
    /// end, lookahead is exactly one byte, and `ch` caches the byte under
    /// the cursor (or the end-of-input sentinel).
    pub closed spec fn wf(self) -> bool {
        &&& self.input@.len() < usize::MAX
        &&& self.position <= self.input@.len()
        &&& self.read_position == self.position + 1
        &&& self.ch == (if self.position < self.input@.len() {
            Some(self.input@[self.position as int])
        } else {
            None::<u8>
        })
    }

    /// The input bytes the scanner was constructed over.
    pub closed spec fn input_view(self) -> Seq<u8> {
        self.input@
    }

    /// The offset of the byte currently being inspected.
    pub closed spec fn cursor(self) -> int {
        self.position as int
    }

    /// Construct a scanner positioned at the first byte of `input` (or
    /// already at end-of-input if `input` is empty).
    pub fn new(input: &'a [u8]) -> (lex: Self)
        requires
            input@.len() < usize::MAX,
        ensures
            lex.wf(),
            lex.input_view() == input@,
            lex.cursor() == 0,
    {
        let mut lex = Lexer { input, ch: None, position: 0, read_position: 0 };

        lex.read_char();

        lex
    }

    /// Advance the cursor by one byte and refresh the cached byte.
    fn read_char(&mut self)
        requires
            old(self).read_position <= old(self).input@.len(),
            old(self).input@.len() < usize::MAX,
        ensures
            final(self).input == old(self).input,
            final(self).position == old(self).read_position,
            final(self).read_position == old(self).read_position + 1,
            final(self).ch == (if final(self).position < final(self).input@.len() {
                Some(final(self).input@[final(self).position as int])
            } else {
                None::<u8>
            }),
    {
        if self.read_position >= self.input.len() {
            self.ch = None;
        } else {
            self.ch = Some(self.input[self.read_position]);
        }

        self.position = self.read_position;
        self.read_position = self.read_position + 1;
    }

    /// Produce the next token and advance the cursor past it.
    ///
    /// Exactly `spec_next_token` at the current cursor: the returned
    /// token's kind and text are the specified ones, and the cursor ends
    /// up at the specified offset (unchanged once the input is exhausted).
    pub fn next_token(&mut self) -> (tok: Token)
        requires
            old(self).wf(),
        ensures
            final(self).wf(),
            final(self).input_view() == old(self).input_view(),
            tok.kind == spec_next_token(old(self).input_view(), old(self).cursor()).0,
            tok.literal@ == spec_next_token(old(self).input_view(), old(self).cursor()).1,
            final(self).cursor() == spec_next_token(old(self).input_view(), old(self).cursor()).2,
    {
        let tok: Token;

        self.eat_whitespace();
        match self.ch {
            None => {
                return Token { kind: Kind::EOF, literal: Vec::new() };
            },
            Some(b) => {
                if b == literal::ASSIGN {
                    tok = Lexer::new_token(Kind::ASSIGN, b);
                } else if b == literal::SEMICOLON {
                    tok = Lexer::new_token(Kind::SEMICOLON, b);
                } else if b == literal::LPAREN {
                    tok = Lexer::new_token(Kind::LPAREN, b);
                } else if b == literal::RPAREN {
                    tok = Lexer::new_token(Kind::RPAREN, b);
                } else if b == literal::COMMA {
                    tok = Lexer::new_token(Kind::COMMA, b);
                } else if b == literal::PLUS {
                    tok = Lexer::new_token(Kind::PLUS, b);
                } else if b == literal::LBRACE {
                    tok = Lexer::new_token(Kind::LBRACE, b);
                } else if b == literal::RBRACE {
                    tok = Lexer::new_token(Kind::RBRACE, b);
                } else if Lexer::is_letter(b) {
                    let lit = self.read_identifier();
                    let kind = Token::lookup_keyword(lit.as_slice());
                    return Token { kind, literal: lit };
                } else if Lexer::is_Digit(b) {
                    let lit = self.read_digit();
                    return Token { kind: Kind::INT, literal: lit };
                } else {
                    tok = Lexer::new_token(Kind::ILLEGAL, b);
                }
            },
        }

        self.read_char();

        tok
    }

    /// Advance the cursor past the run of whitespace under it, if any.
    fn eat_whitespace(&mut self)
        requires
            old(self).wf(),
        ensures
            final(self).wf(),
            final(self).input == old(self).input,
            final(self).cursor() == skip_whitespace(old(self).input_view(), old(self).cursor()),
    {
        let ghost inp = self.input@;
        let ghost start = self.position as int;

        while self.ch.is_some() && Lexer::is_whitespace(self.ch.unwrap())
            invariant
                self.wf(),
                self.input@ == inp,
                self.position as int >= start,
                skip_whitespace(inp, start) == skip_whitespace(inp, self.position as int),
            decreases inp.len() - self.position,
        {
            self.read_char();
        }
    }

    /// Whether `l` is an ASCII letter.
    fn is_letter(l: u8) -> (r: bool)
        ensures
            r == is_letter_byte(l),
    {
        (('a' as u8) <= l && l <= ('z' as u8)) || (('A' as u8) <= l && l <= ('Z' as u8))
    }

    /// Whether `l` is an ASCII digit.
    #[allow(non_snake_case)]
    fn is_Digit(l: u8) -> (r: bool)
        ensures
            r == is_digit_byte(l),
    {
        ('0' as u8) <= l && l <= ('9' as u8)
    }

    /// Whether `l` is a whitespace byte (space, tab, newline, carriage return).
    fn is_whitespace(l: u8) -> (r: bool)
        ensures
            r == is_whitespace_byte(l),
    {
        l == (' ' as u8) || l == ('\t' as u8) || l == ('\n' as u8) || l == ('\r' as u8)
    }

    /// Consume the maximal run of letters and digits under the cursor and
    /// return it; the cursor ends on the first byte after the run.
    fn read_identifier(&mut self) -> (r: Vec<u8>)
        requires
            old(self).wf(),
            old(self).cursor() < old(self).input_view().len(),
            is_ident_byte(old(self).input_view()[old(self).cursor()]),
        ensures
            final(self).wf(),
            final(self).input == old(self).input,
            final(self).cursor() == ident_end(old(self).input_view(), old(self).cursor()),
            r@ == old(self).input_view().subrange(old(self).cursor(), final(self).cursor()),
    {
        let ghost inp = self.input@;
        let ghost start = self.position as int;
        let mut out: Vec<u8> = Vec::new();

        while self.ch.is_some() && (Lexer::is_letter(self.ch.unwrap()) || Lexer::is_Digit(
            self.ch.unwrap(),
        ))
            invariant
                self.wf(),
                self.input@ == inp,
                0 <= start <= self.position as int,
                ident_end(inp, start) == ident_end(inp, self.position as int),
                out@ == inp.subrange(start, self.position as int),
            decreases inp.len() - self.position,
        {
            let b = self.ch.unwrap();
            out.push(b);
            self.read_char();
            proof {
                assert(out@ =~= inp.subrange(start, self.position as int));
            }
        }

        out
    }

    /// Consume the maximal run of digits under the cursor and return it;
    /// the cursor ends on the first byte after the run.
    fn read_digit(&mut self) -> (r: Vec<u8>)
        requires
            old(self).wf(),
            old(self).cursor() < old(self).input_view().len(),
            is_digit_byte(old(self).input_view()[old(self).cursor()]),
        ensures
            final(self).wf(),
            final(self).input == old(self).input,
            final(self).cursor() == digit_end(old(self).input_view(), old(self).cursor()),
            r@ == old(self).input_view().subrange(old(self).cursor(), final(self).cursor()),
    {
        let ghost inp = self.input@;
        let ghost start = self.position as int;
        let mut out: Vec<u8> = Vec::new();

        while self.ch.is_some() && Lexer::is_Digit(self.ch.unwrap())
            invariant
                self.wf(),
                self.input@ == inp,
                0 <= start <= self.position as int,
                digit_end(inp, start) == digit_end(inp, self.position as int),
                out@ == inp.subrange(start, self.position as int),
            decreases inp.len() - self.position,
        {
            let b = self.ch.unwrap();
            out.push(b);
            self.read_char();
            proof {
                assert(out@ =~= inp.subrange(start, self.position as int));
            }
        }

        out
    }

    /// Build a token of kind `kind` whose text is the one byte `ch`.
    fn new_token(kind: Kind, ch: u8) -> (tok: Token)
        ensures
            tok.kind == kind,
            tok.literal@ == seq![ch],
    {
        let mut literal: Vec<u8> = Vec::new();
        literal.push(ch);
        proof {
            assert(literal@ =~= seq![ch]);
        }
        Token { kind, literal }
    }
}

} // verus!
