//! Lexical analysis: the source text is turned into a sequence of
//! typed tokens, by longest match, covering the input in order.
//!
//! The scanner is modeled by `spec_scan`, which reads one token at a
//! position, and `spec_lex`, which iterates it. Besides the token
//! list the model records each token's raw source span and the way
//! scanning stopped: a clean end of input, a silent stop (an
//! unterminated string literal or an unrecognized character), or a
//! fatal integer-literal overflow that aborts the whole compilation.

use vstd::prelude::*;
use vstd::string::StrSliceExecFns;

verus! {

/// One lexeme. String-like lexemes borrow their span from the input;
/// the span of a string literal includes its delimiters.
#[allow(missing_docs)]
#[derive(Clone, Copy, Debug, Eq, PartialEq)]
pub enum Lexme<'input> {
    Fn,
    ParenLeft,
    ParenRight,
    BraceLeft,
    BraceRight,
    DoubleColon,
    Ident(&'input str),
    Newline,
    Space(&'input str),
    Integer(u64),
    Str(&'input str),
    Comma,
}

/// The mathematical image of a lexeme: payloads as character
/// sequences.
pub enum LexmeModel {
    Fn,
    ParenLeft,
    ParenRight,
    BraceLeft,
    BraceRight,
    DoubleColon,
    Ident(Seq<char>),
    Newline,
    Space(Seq<char>),
    Integer(u64),
    Str(Seq<char>),
    Comma,
}

impl<'input> Lexme<'input> {
    /// The model of this lexeme.
    pub open spec fn model(self) -> LexmeModel {
        match self {
            Lexme::Fn => LexmeModel::Fn,
            Lexme::ParenLeft => LexmeModel::ParenLeft,
            Lexme::ParenRight => LexmeModel::ParenRight,
            Lexme::BraceLeft => LexmeModel::BraceLeft,
            Lexme::BraceRight => LexmeModel::BraceRight,
            Lexme::DoubleColon => LexmeModel::DoubleColon,
            Lexme::Ident(s) => LexmeModel::Ident(s@),
            Lexme::Newline => LexmeModel::Newline,
            Lexme::Space(s) => LexmeModel::Space(s@),
            Lexme::Integer(n) => LexmeModel::Integer(n),
            Lexme::Str(s) => LexmeModel::Str(s@),
            Lexme::Comma => LexmeModel::Comma,
        }
    }
}

/// A character run kind: the three token classes scanned as maximal
/// runs.
#[derive(Clone, Copy, Debug, Eq, PartialEq)]
pub enum RunKind {
    /// ASCII letters and underscore.
    IdentRun,
    /// ASCII digits.
    DigitRun,
    /// Whitespace other than newline.
    SpaceRun,
}

/// Whitespace, by the Unicode White_Space property (what
/// `char::is_whitespace` recognizes).
pub open spec fn spec_is_white(c: char) -> bool {
    let u = c as u32;
    u == 0x09 || u == 0x0A || u == 0x0B || u == 0x0C || u == 0x0D || u == 0x20 || u == 0x85 || u
        == 0xA0 || u == 0x1680 || (0x2000 <= u && u <= 0x200A) || u == 0x2028 || u == 0x2029 || u
        == 0x202F || u == 0x205F || u == 0x3000
}

/// An identifier character: ASCII letter or underscore. Digits are
/// deliberately not permitted inside identifiers.
pub open spec fn spec_is_ident_char(c: char) -> bool {
    let u = c as u32;
    (0x61 <= u && u <= 0x7A) || (0x41 <= u && u <= 0x5A) || u == 0x5F
}

/// An ASCII digit.
pub open spec fn spec_is_digit(c: char) -> bool {
    let u = c as u32;
    0x30 <= u && u <= 0x39
}

/// Membership of a character in a run of the given kind. A space run
/// excludes newline: newlines are their own tokens.
pub open spec fn spec_in_run(k: RunKind, c: char) -> bool {
    match k {
        RunKind::IdentRun => spec_is_ident_char(c),
        RunKind::DigitRun => spec_is_digit(c),
        RunKind::SpaceRun => spec_is_white(c) && c != '\n',
    }
}

fn is_white_char(c: char) -> (r: bool)
    ensures
        r == spec_is_white(c),
{
    let u = c as u32;
    u == 0x09 || u == 0x0A || u == 0x0B || u == 0x0C || u == 0x0D || u == 0x20 || u == 0x85 || u
        == 0xA0 || u == 0x1680 || (0x2000 <= u && u <= 0x200A) || u == 0x2028 || u == 0x2029 || u
        == 0x202F || u == 0x205F || u == 0x3000
}

fn in_run(k: RunKind, c: char) -> (r: bool)
    ensures
        r == spec_in_run(k, c),
{
    let u = c as u32;
    match k {
        RunKind::IdentRun => (0x61 <= u && u <= 0x7A) || (0x41 <= u && u <= 0x5A) || u == 0x5F,
        RunKind::DigitRun => 0x30 <= u && u <= 0x39,
        RunKind::SpaceRun => is_white_char(c) && c != '\n',
    }
}

/// Where the maximal run of kind `k` starting at `i` ends.
pub open spec fn spec_run_end(s: Seq<char>, i: int, k: RunKind) -> int
    decreases s.len() - i,
    when 0 <= i <= s.len()
{
    if i < s.len() && spec_in_run(k, s[i]) {
        spec_run_end(s, i + 1, k)
    } else {
        i
    }
}

proof fn lemma_run_end(s: Seq<char>, i: int, k: RunKind)
    requires
        0 <= i <= s.len(),
    ensures
        i <= spec_run_end(s, i, k) <= s.len(),
        forall|j: int| i <= j < spec_run_end(s, i, k) ==> spec_in_run(k, s[j]),
        spec_run_end(s, i, k) < s.len() ==> !spec_in_run(k, s[spec_run_end(s, i, k)]),
    decreases s.len() - i,
{
    if i < s.len() && spec_in_run(k, s[i]) {
        lemma_run_end(s, i + 1, k);
    }
}

/// The position just past the closing quote of a string literal whose
/// content starts at `i`, if the literal is terminated.
pub open spec fn spec_str_end(s: Seq<char>, i: int) -> Option<int>
    decreases s.len() - i,
    when 0 <= i <= s.len()
{
    if i >= s.len() {
        None
    } else if s[i] == '\'' {
        Some(i + 1)
    } else {
        spec_str_end(s, i + 1)
    }
}

proof fn lemma_str_end(s: Seq<char>, i: int)
    requires
        0 <= i <= s.len(),
    ensures
        match spec_str_end(s, i) {
            Some(j) => i + 1 <= j <= s.len() && s[j - 1] == '\'' && (forall|q: int|
                i <= q < j - 1 ==> s[q] != '\''),
            None => forall|q: int| i <= q < s.len() ==> s[q] != '\'',
        },
    decreases s.len() - i,
{
    if i < s.len() && s[i] != '\'' {
        lemma_str_end(s, i + 1);
    }
}

/// The value of a digit string, most significant digit first.
pub open spec fn spec_digits_val(d: Seq<char>) -> int
    decreases d.len(),
{
    if d.len() == 0 {
        0
    } else {
        spec_digits_val(d.take(d.len() - 1)) * 10 + (d[d.len() - 1] as u32 - 0x30)
    }
}

proof fn lemma_digits_val_nonneg(d: Seq<char>)
    requires
        forall|j: int| 0 <= j < d.len() ==> spec_is_digit(d[j]),
    ensures
        spec_digits_val(d) >= 0,
    decreases d.len(),
{
    if d.len() > 0 {
        lemma_digits_val_nonneg(d.take(d.len() - 1));
    }
}

/// A digit string's value only grows as digits are appended.
proof fn lemma_digits_val_prefix(d: Seq<char>, n: int)
    requires
        forall|j: int| 0 <= j < d.len() ==> spec_is_digit(d[j]),
        0 <= n <= d.len(),
    ensures
        spec_digits_val(d.take(n)) <= spec_digits_val(d),
    decreases d.len() - n,
{
    if n == d.len() {
        assert(d.take(n) =~= d);
    } else {
        lemma_digits_val_prefix(d, n + 1);
        let p = d.take(n + 1);
        assert(p.take(p.len() - 1) =~= d.take(n));
        lemma_digits_val_nonneg(d.take(n));
        assert(spec_digits_val(d.take(n)) <= spec_digits_val(p));
    }
}

/// The outcome of scanning one token at a position.
pub enum ScanStep {
    /// A token and the position just past its span.
    Tok(LexmeModel, int),
    /// The position is the end of the input.
    End,
    /// An unterminated string literal or an unrecognized character:
    /// token production stops silently.
    Stuck,
    /// An integer literal beyond 64 bits: compilation aborts.
    Fatal,
}

/// Reads one token at `pos`: `::` by two-character lookahead first,
/// then single-character dispatch, then the maximal-run scanners.
pub open spec fn spec_scan(s: Seq<char>, pos: int) -> ScanStep {
    if pos >= s.len() {
        ScanStep::End
    } else if pos + 1 < s.len() && s[pos] == ':' && s[pos + 1] == ':' {
        ScanStep::Tok(LexmeModel::DoubleColon, pos + 2)
    } else if s[pos] == ',' {
        ScanStep::Tok(LexmeModel::Comma, pos + 1)
    } else if s[pos] == '(' {
        ScanStep::Tok(LexmeModel::ParenLeft, pos + 1)
    } else if s[pos] == ')' {
        ScanStep::Tok(LexmeModel::ParenRight, pos + 1)
    } else if s[pos] == '{' {
        ScanStep::Tok(LexmeModel::BraceLeft, pos + 1)
    } else if s[pos] == '}' {
        ScanStep::Tok(LexmeModel::BraceRight, pos + 1)
    } else if s[pos] == '\n' {
        ScanStep::Tok(LexmeModel::Newline, pos + 1)
    } else if s[pos] == '\'' {
        match spec_str_end(s, pos + 1) {
            Some(j) => ScanStep::Tok(LexmeModel::Str(s.subrange(pos, j)), j),
            None => ScanStep::Stuck,
        }
    } else if spec_is_digit(s[pos]) {
        let j = spec_run_end(s, pos, RunKind::DigitRun);
        let v = spec_digits_val(s.subrange(pos, j));
        if v > 0xFFFF_FFFF_FFFF_FFFF {
            ScanStep::Fatal
        } else {
            ScanStep::Tok(LexmeModel::Integer(v as u64), j)
        }
    } else if spec_is_ident_char(s[pos]) {
        let j = spec_run_end(s, pos, RunKind::IdentRun);
        let w = s.subrange(pos, j);
        if w == seq!['f', 'n'] {
            ScanStep::Tok(LexmeModel::Fn, j)
        } else {
            ScanStep::Tok(LexmeModel::Ident(w), j)
        }
    } else if spec_is_white(s[pos]) {
        let j = spec_run_end(s, pos, RunKind::SpaceRun);
        ScanStep::Tok(LexmeModel::Space(s.subrange(pos, j)), j)
    } else {
        ScanStep::Stuck
    }
}

/// A produced token's span lies strictly between its start and the
/// end of the input.
pub proof fn lemma_scan_advances(s: Seq<char>, pos: int)
    requires
        0 <= pos <= s.len(),
    ensures
        match spec_scan(s, pos) {
            ScanStep::Tok(t, end) => pos < end <= s.len(),
            _ => true,
        },
{
    if pos < s.len() {
        lemma_str_end(s, pos + 1);
        lemma_run_end(s, pos + 1, RunKind::DigitRun);
        lemma_run_end(s, pos + 1, RunKind::IdentRun);
        lemma_run_end(s, pos + 1, RunKind::SpaceRun);
    }
}

/// The way token production stopped.
pub enum LexStop {
    CleanEnd,
    Stuck,
    Fatal,
}

/// The complete result of lexing from a position: the tokens, their
/// raw source spans (parallel to the tokens), the stop position, and
/// the stop kind.
pub struct LexModel {
    /// The produced tokens in order.
    pub toks: Seq<LexmeModel>,
    /// The raw source span of each token, in the same order.
    pub spans: Seq<Seq<char>>,
    /// The position where scanning stopped.
    pub end: int,
    /// How scanning stopped.
    pub stop: LexStop,
}

/// All tokens from `pos` to wherever scanning stops.
pub open spec fn spec_lex(s: Seq<char>, pos: int) -> LexModel
    decreases s.len() - pos,
    when 0 <= pos <= s.len()
    via spec_lex_decreases
{
    match spec_scan(s, pos) {
        ScanStep::Tok(t, end) => {
            let rest = spec_lex(s, end);
            LexModel {
                toks: seq![t] + rest.toks,
                spans: seq![s.subrange(pos, end)] + rest.spans,
                end: rest.end,
                stop: rest.stop,
            }
        },
        ScanStep::End => LexModel { toks: seq![], spans: seq![], end: pos, stop: LexStop::CleanEnd },
        ScanStep::Stuck => LexModel { toks: seq![], spans: seq![], end: pos, stop: LexStop::Stuck },
        ScanStep::Fatal => LexModel { toks: seq![], spans: seq![], end: pos, stop: LexStop::Fatal },
    }
}

#[via_fn]
proof fn spec_lex_decreases(s: Seq<char>, pos: int) {
    lemma_scan_advances(s, pos);
}

/// Basic bounds on a lexing result.
pub proof fn lemma_lex_bounds(s: Seq<char>, pos: int)
    requires
        0 <= pos <= s.len(),
    ensures
        pos <= spec_lex(s, pos).end <= s.len(),
        spec_lex(s, pos).stop is CleanEnd ==> spec_lex(s, pos).end == s.len(),
        spec_lex(s, pos).toks.len() == spec_lex(s, pos).spans.len(),
    decreases s.len() - pos,
{
    lemma_scan_advances(s, pos);
    match spec_scan(s, pos) {
        ScanStep::Tok(t, end) => {
            lemma_lex_bounds(s, end);
        },
        _ => {},
    }
}

proof fn lemma_spans_tile(s: Seq<char>, pos: int)
    requires
        0 <= pos <= s.len(),
    ensures
        spec_lex(s, pos).spans.flatten() == s.subrange(pos, spec_lex(s, pos).end),
    decreases s.len() - pos,
{
    lemma_scan_advances(s, pos);
    lemma_lex_bounds(s, pos);
    match spec_scan(s, pos) {
        ScanStep::Tok(t, end) => {
            lemma_spans_tile(s, end);
            lemma_lex_bounds(s, end);
            let rest = spec_lex(s, end);
            let all = spec_lex(s, pos).spans;
            assert(all[0] == s.subrange(pos, end));
            assert(all.drop_first() =~= rest.spans);
            assert(all.flatten() == all.first() + all.drop_first().flatten());
            assert(all.flatten() =~= s.subrange(pos, rest.end));
        },
        _ => {
            assert(spec_lex(s, pos).spans.flatten() =~= s.subrange(pos, pos));
        },
    }
}

/// Law: for any input that the lexer consumes completely (no
/// unterminated string literal, no unrecognized character, no
/// integer-literal overflow), concatenating the raw source spans of
/// all produced tokens, in order, reproduces the input exactly.
pub proof fn lemma_token_spans_roundtrip(s: Seq<char>)
    requires
        spec_lex(s, 0).stop is CleanEnd,
    ensures
        spec_lex(s, 0).spans.flatten() == s,
{
    lemma_lex_bounds(s, 0);
    lemma_spans_tile(s, 0);
    assert(s.subrange(0, s.len() as int) =~= s);
}

/// The lexer: a restartable, finite, forward-only token producer over
/// the borrowed source text.
#[derive(Clone, Debug)]
pub struct Lexer<'input> {
    /// The full source text.
    pub input: &'input str,
    /// The character position of the next token.
    pub pos: usize,
    /// Set once an integer-literal overflow is hit; no further tokens
    /// are produced.
    pub fatal: bool,
}

impl<'input> Lexer<'input> {
    /// The lexer position stays within the input.
    pub open spec fn wf(self) -> bool {
        self.pos <= self.input@.len()
    }

    /// A fresh lexer at the start of the input.
    pub fn new(input: &'input str) -> (r: Self)
        ensures
            r.input == input,
            r.pos == 0,
            !r.fatal,
            r.wf(),
    {
        Lexer { input, pos: 0, fatal: false }
    }

    /// Scans the maximal run of kind `k` from `start`.
    fn run_to_end(&self, n: usize, start: usize, k: RunKind) -> (r: usize)
        requires
            start <= n,
            n == self.input@.len(),
        ensures
            r == spec_run_end(self.input@, start as int, k),
            start <= r <= n,
    {
        let s = self.input;
        let mut j = start;
        loop
            invariant
                start <= j <= n,
                n == s@.len(),
                spec_run_end(s@, start as int, k) == spec_run_end(s@, j as int, k),
            ensures
                start <= j <= n,
                j == spec_run_end(s@, start as int, k),
            decreases n - j,
        {
            if j >= n {
                break ;
            }
            let c = s.get_char(j);
            if !in_run(k, c) {
                break ;
            }
            j = j + 1;
        }
        j
    }

    /// Finds the end of a string literal whose content starts at
    /// `start` (just past the opening quote).
    fn quote_to_end(&self, n: usize, start: usize) -> (r: Option<usize>)
        requires
            start <= n,
            n == self.input@.len(),
        ensures
            match r {
                Some(j) => spec_str_end(self.input@, start as int) == Some(j as int) && start < j
                    <= n,
                None => spec_str_end(self.input@, start as int) is None,
            },
    {
        let s = self.input;
        let mut j = start;
        loop
            invariant
                s == self.input,
                start <= j <= n,
                n == s@.len(),
                spec_str_end(s@, start as int) == spec_str_end(s@, j as int),
            decreases n - j,
        {
            if j >= n {
                return None;
            }
            let c = s.get_char(j);
            if c == '\'' {
                return Some(j + 1);
            }
            j = j + 1;
        }
    }

    /// Parses the digit run from `start`, detecting 64-bit overflow.
    fn digits_to_value(&self, n: usize, start: usize) -> (r: Option<(u64, usize)>)
        requires
            start < n,
            n == self.input@.len(),
            spec_is_digit(self.input@[start as int]),
        ensures
            ({
                let j = spec_run_end(self.input@, start as int, RunKind::DigitRun);
                let v = spec_digits_val(self.input@.subrange(start as int, j));
                match r {
                    Some(p) => v <= 0xFFFF_FFFF_FFFF_FFFF && p.0 == v && p.1 == j && start < p.1
                        <= n,
                    None => v > 0xFFFF_FFFF_FFFF_FFFF,
                }
            }),
    {
        let s = self.input;
        proof {
            assert(spec_run_end(s@, start as int, RunKind::DigitRun) == spec_run_end(
                s@,
                start as int + 1,
                RunKind::DigitRun,
            ));
            lemma_run_end(s@, start as int + 1, RunKind::DigitRun);
            lemma_run_end(s@, start as int, RunKind::DigitRun);
        }
        let jend = self.run_to_end(n, start, RunKind::DigitRun);
        let ghost full = s@.subrange(start as int, jend as int);
        proof {
            assert(forall|q: int| 0 <= q < full.len() ==> spec_is_digit(full[q]));
        }
        let mut acc: u64 = 0;
        let mut j = start;
        proof {
            assert(s@.subrange(start as int, start as int) =~= Seq::<char>::empty());
        }
        while j < jend
            invariant
                s == self.input,
                start <= j <= jend,
                jend <= n,
                n == s@.len(),
                jend == spec_run_end(s@, start as int, RunKind::DigitRun),
                full == s@.subrange(start as int, jend as int),
                forall|q: int| 0 <= q < full.len() ==> spec_is_digit(full[q]),
                forall|q: int| start <= q < jend ==> spec_in_run(RunKind::DigitRun, s@[q]),
                acc == spec_digits_val(s@.subrange(start as int, j as int)),
            decreases jend - j,
        {
            let c = s.get_char(j);
            assert(spec_is_digit(s@[j as int]));
            let d = (c as u32 - 0x30) as u64;
            if acc > 0xFFFF_FFFF_FFFF_FFFF / 10 || (acc == 0xFFFF_FFFF_FFFF_FFFF / 10 && d > 5) {
                proof {
                    let upto = s@.subrange(start as int, j as int + 1);
                    assert(upto.take(upto.len() - 1) =~= s@.subrange(start as int, j as int));
                    assert(spec_digits_val(upto) == acc * 10 + d);
                    assert(acc * 10 + d > 0xFFFF_FFFF_FFFF_FFFF);
                    assert(upto =~= full.take(j + 1 - start));
                    lemma_digits_val_prefix(full, j + 1 - start);
                    assert(spec_digits_val(full) > 0xFFFF_FFFF_FFFF_FFFF);
                }
                return None;
            }
            assert(acc * 10 + d <= 0xFFFF_FFFF_FFFF_FFFF);
            acc = acc * 10 + d;
            j = j + 1;
            proof {
                let upto = s@.subrange(start as int, j as int);
                assert(upto.take(upto.len() - 1) =~= s@.subrange(start as int, j as int - 1));
                assert(acc == spec_digits_val(upto));
            }
        }
        Some((acc, jend))
    }

    /// Produces the next token, or `None` when the input is exhausted
    /// or token production has stopped. A 64-bit integer-literal
    /// overflow sets `fatal`, which makes the whole compilation abort.
    pub fn next(&mut self) -> (r: Option<Lexme<'input>>)
        requires
            old(self).wf(),
        ensures
            final(self).wf(),
            final(self).input@ == old(self).input@,
            old(self).fatal ==> r is None && final(self).pos == old(self).pos && final(self).fatal,
            !old(self).fatal ==> match spec_scan(old(self).input@, old(self).pos as int) {
                ScanStep::Tok(t, end) => (r matches Some(l) && l.model() == t) && final(self).pos
                    == end && !final(self).fatal,
                ScanStep::End => r is None && final(self).pos == old(self).pos
                    && !final(self).fatal,
                ScanStep::Stuck => r is None && final(self).pos == old(self).pos
                    && !final(self).fatal,
                ScanStep::Fatal => r is None && final(self).pos == old(self).pos
                    && final(self).fatal,
            },
    {
        if self.fatal {
            return None;
        }
        let s = self.input;
        let n = s.unicode_len();
        let pos = self.pos;
        if pos >= n {
            return None;
        }
        let c = s.get_char(pos);
        if pos + 1 < n && c == ':' {
            let c1 = s.get_char(pos + 1);
            if c1 == ':' {
                self.pos = pos + 2;
                return Some(Lexme::DoubleColon);
            }
        }
        if c == ',' {
            self.pos = pos + 1;
            return Some(Lexme::Comma);
        }
        if c == '(' {
            self.pos = pos + 1;
            return Some(Lexme::ParenLeft);
        }
        if c == ')' {
            self.pos = pos + 1;
            return Some(Lexme::ParenRight);
        }
        if c == '{' {
            self.pos = pos + 1;
            return Some(Lexme::BraceLeft);
        }
        if c == '}' {
            self.pos = pos + 1;
            return Some(Lexme::BraceRight);
        }
        if c == '\n' {
            self.pos = pos + 1;
            return Some(Lexme::Newline);
        }
        if c == '\'' {
            match self.quote_to_end(n, pos + 1) {
                Some(j) => {
                    let span = s.substring_char(pos, j);
                    self.pos = j;
                    return Some(Lexme::Str(span));
                },
                None => {
                    return None;
                },
            }
        }
        if 0x30 <= c as u32 && c as u32 <= 0x39 {
            match self.digits_to_value(n, pos) {
                Some((v, j)) => {
                    self.pos = j;
                    return Some(Lexme::Integer(v));
                },
                None => {
                    self.fatal = true;
                    return None;
                },
            }
        }
        let u = c as u32;
        if (0x61 <= u && u <= 0x7A) || (0x41 <= u && u <= 0x5A) || u == 0x5F {
            proof {
                assert(spec_run_end(s@, pos as int, RunKind::IdentRun) == spec_run_end(
                    s@,
                    pos as int + 1,
                    RunKind::IdentRun,
                ));
                lemma_run_end(s@, pos as int + 1, RunKind::IdentRun);
            }
            let j = self.run_to_end(n, pos + 1, RunKind::IdentRun);
            let span = s.substring_char(pos, j);
            self.pos = j;
            let mut isfn = false;
            if j - pos == 2 {
                let k0 = s.get_char(pos);
                let k1 = s.get_char(pos + 1);
                if k0 == 'f' && k1 == 'n' {
                    isfn = true;
                }
            }
            proof {
                let w = s@.subrange(pos as int, j as int);
                if isfn {
                    assert(w =~= seq!['f', 'n']);
                } else {
                    if w == seq!['f', 'n'] {
                        assert(w.len() == 2);
                        assert(w[0] == 'f' && w[1] == 'n');
                        assert(s@[pos as int] == 'f' && s@[pos as int + 1] == 'n');
                        assert(false);
                    }
                }
            }
            if isfn {
                return Some(Lexme::Fn);
            }
            return Some(Lexme::Ident(span));
        }
        if is_white_char(c) {
            proof {
                assert(spec_run_end(s@, pos as int, RunKind::SpaceRun) == spec_run_end(
                    s@,
                    pos as int + 1,
                    RunKind::SpaceRun,
                ));
                lemma_run_end(s@, pos as int + 1, RunKind::SpaceRun);
            }
            let j = self.run_to_end(n, pos + 1, RunKind::SpaceRun);
            let span = s.substring_char(pos, j);
            self.pos = j;
            return Some(Lexme::Space(span));
        }
        None
    }
}

} // verus!
