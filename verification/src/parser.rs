//! Recursive-descent parsing with single-token lookahead.
//!
//! The parser is maximally lenient and produces no diagnostics: at
//! the top level anything but a function declaration is discarded; a
//! function whose name or parameter list is malformed is dropped
//! entirely; a body whose closing delimiters are missing is cut short
//! but keeps the syscalls accumulated so far.
//!
//! Every `do_` step is modeled by a `sp_` spec function over the
//! token sequence, and `parse` is modeled by `sp_parse`.

use vstd::prelude::*;
use vstd::string::StrSliceExecFns;

use crate::lexer::{spec_lex, Lexer, Lexme, LexmeModel};

verus! {

/// One syscall argument: absent, an unsigned 64-bit integer, or a
/// string literal (kept with its quote delimiters).
#[derive(Clone, Debug)]
pub enum Argument {
    Absent,
    U64(u64),
    Str(String),
}

/// The model of an argument: string payloads as character sequences.
pub enum ArgModel {
    Absent,
    U64(u64),
    Str(Seq<char>),
}

impl View for Argument {
    type V = ArgModel;

    open spec fn view(&self) -> ArgModel {
        match self {
            Argument::Absent => ArgModel::Absent,
            Argument::U64(n) => ArgModel::U64(*n),
            Argument::Str(s) => ArgModel::Str(s@),
        }
    }
}

/// A parsed syscall invocation. Only `arg0` ever influences code
/// generation; `arg1` and `arg2` are parsed and retained.
#[derive(Clone, Debug)]
pub struct Syscall {
    pub id: u64,
    pub arg0: Argument,
    pub arg1: Argument,
    pub arg2: Argument,
}

/// The model of a syscall.
pub struct SyscallModel {
    pub id: u64,
    pub arg0: ArgModel,
    pub arg1: ArgModel,
    pub arg2: ArgModel,
}

impl View for Syscall {
    type V = SyscallModel;

    open spec fn view(&self) -> SyscallModel {
        SyscallModel { id: self.id, arg0: self.arg0@, arg1: self.arg1@, arg2: self.arg2@ }
    }
}

/// A parsed function: a name and an ordered body of syscalls.
#[derive(Clone, Debug)]
pub struct Function {
    pub ident: String,
    pub body: Vec<Syscall>,
}

/// The model of a function.
pub struct FunctionModel {
    pub ident: Seq<char>,
    pub body: Seq<SyscallModel>,
}

impl View for Function {
    type V = FunctionModel;

    open spec fn view(&self) -> FunctionModel {
        FunctionModel {
            ident: self.ident@,
            body: self.body@.map_values(|s: Syscall| s@),
        }
    }
}

impl Function {
    /// A function with the given name and an empty body.
    pub fn new(ident: String) -> (r: Self)
        ensures
            r@.ident == ident@,
            r@.body == Seq::<SyscallModel>::empty(),
    {
        let r = Function { ident, body: Vec::new() };
        proof {
            assert(r@.body =~= Seq::<SyscallModel>::empty());
        }
        r
    }
}

/// A parsed source tree: the ordered sequence of functions.
#[derive(Clone, Debug)]
pub struct Source {
    pub functions: Vec<Function>,
}

impl View for Source {
    type V = Seq<FunctionModel>;

    open spec fn view(&self) -> Seq<FunctionModel> {
        self.functions@.map_values(|f: Function| f@)
    }
}

impl Source {
    /// An empty source tree.
    pub fn new() -> (r: Self)
        ensures
            r@ == Seq::<FunctionModel>::empty(),
    {
        let r = Source { functions: Vec::new() };
        proof {
            assert(r@ =~= Seq::<FunctionModel>::empty());
        }
        r
    }
}

/// Skips whitespace and newline tokens.
pub open spec fn sp_skip_ws(toks: Seq<LexmeModel>, i: int) -> int
    decreases toks.len() - i,
    when 0 <= i <= toks.len()
{
    if i < toks.len() && (toks[i] is Space || toks[i] is Newline) {
        sp_skip_ws(toks, i + 1)
    } else {
        i
    }
}

pub proof fn lemma_sp_skip_ws(toks: Seq<LexmeModel>, i: int)
    requires
        0 <= i <= toks.len(),
    ensures
        i <= sp_skip_ws(toks, i) <= toks.len(),
    decreases toks.len() - i,
{
    if i < toks.len() && (toks[i] is Space || toks[i] is Newline) {
        lemma_sp_skip_ws(toks, i + 1);
    }
}

/// The identifier part of a path: identifiers, each optionally
/// followed by a `::` separator.
pub open spec fn sp_idents(toks: Seq<LexmeModel>, i: int) -> (Seq<Seq<char>>, int)
    decreases toks.len() - i,
    when 0 <= i <= toks.len()
{
    if i < toks.len() && toks[i] is Ident {
        let name = toks[i]->Ident_0;
        if i + 1 < toks.len() && toks[i + 1] is DoubleColon {
            let r = sp_idents(toks, i + 2);
            (seq![name] + r.0, r.1)
        } else {
            let r = sp_idents(toks, i + 1);
            (seq![name] + r.0, r.1)
        }
    } else {
        (Seq::empty(), i)
    }
}

pub proof fn lemma_sp_idents(toks: Seq<LexmeModel>, i: int)
    requires
        0 <= i <= toks.len(),
    ensures
        i <= sp_idents(toks, i).1 <= toks.len(),
        sp_idents(toks, i).0.len() > 0 ==> sp_idents(toks, i).1 >= i + 1,
    decreases toks.len() - i,
{
    if i < toks.len() && toks[i] is Ident {
        if i + 1 < toks.len() && toks[i + 1] is DoubleColon {
            lemma_sp_idents(toks, i + 2);
        } else {
            lemma_sp_idents(toks, i + 1);
        }
    }
}

/// A dotted path: an optional leading `::` (recorded as a literal
/// `::` element) followed by identifiers.
pub open spec fn sp_path(toks: Seq<LexmeModel>, i: int) -> (Seq<Seq<char>>, int) {
    if i < toks.len() && toks[i] is DoubleColon {
        let r = sp_idents(toks, i + 1);
        (seq!["::"@] + r.0, r.1)
    } else {
        sp_idents(toks, i)
    }
}

pub proof fn lemma_sp_path(toks: Seq<LexmeModel>, i: int)
    requires
        0 <= i <= toks.len(),
    ensures
        i <= sp_path(toks, i).1 <= toks.len(),
        sp_path(toks, i).0.len() > 0 ==> sp_path(toks, i).1 >= i + 1,
{
    if i < toks.len() && toks[i] is DoubleColon {
        lemma_sp_idents(toks, i + 1);
    } else {
        lemma_sp_idents(toks, i);
    }
}

/// One argument: an integer, else a string literal, else absent.
pub open spec fn sp_argument(toks: Seq<LexmeModel>, i: int) -> (ArgModel, int) {
    if i < toks.len() && toks[i] is Integer {
        (ArgModel::U64(toks[i]->Integer_0), i + 1)
    } else if i < toks.len() && toks[i] is Str {
        (ArgModel::Str(toks[i]->Str_0), i + 1)
    } else {
        (ArgModel::Absent, i)
    }
}

/// The position after the optional comma at `i`.
pub open spec fn sp_comma_opt(toks: Seq<LexmeModel>, i: int) -> int {
    if i < toks.len() && toks[i] is Comma {
        i + 1
    } else {
        i
    }
}

/// The comma-and-argument step inside a syscall's parenthesized
/// list: skip space, optional comma, skip space, one argument.
pub open spec fn sp_call_arg(toks: Seq<LexmeModel>, i: int) -> (ArgModel, int) {
    let p1 = sp_skip_ws(toks, i);
    let p2 = sp_comma_opt(toks, p1);
    let p3 = sp_skip_ws(toks, p2);
    sp_argument(toks, p3)
}

pub proof fn lemma_sp_call_arg(toks: Seq<LexmeModel>, i: int)
    requires
        0 <= i <= toks.len(),
    ensures
        i <= sp_call_arg(toks, i).1 <= toks.len(),
{
    lemma_sp_skip_ws(toks, i);
    let p1 = sp_skip_ws(toks, i);
    let p2 = sp_comma_opt(toks, p1);
    lemma_sp_skip_ws(toks, p2);
}

/// The body loop: paths are read until an empty one ends the loop;
/// only a `sys::syscall` head parses as a syscall, any other path is
/// ignored. A missing delimiter aborts the body, keeping the
/// syscalls accumulated so far.
pub open spec fn sp_body_loop(toks: Seq<LexmeModel>, i: int, acc: Seq<SyscallModel>) -> (
    Seq<SyscallModel>,
    int,
)
    decreases toks.len() - i,
    when 0 <= i <= toks.len()
    via sp_body_loop_decreases
{
    let p1 = sp_skip_ws(toks, i);
    let path = sp_path(toks, p1).0;
    let p2 = sp_path(toks, p1).1;
    if path.len() == 0 {
        let p3 = sp_skip_ws(toks, p2);
        if p3 < toks.len() && toks[p3] is BraceRight {
            (acc, p3 + 1)
        } else {
            (acc, p3)
        }
    } else if path.len() >= 2 && path[0] == "sys"@ && path[1] == "syscall"@ {
        let p3 = sp_skip_ws(toks, p2);
        if !(p3 < toks.len() && toks[p3] is ParenLeft) {
            (acc, p3)
        } else {
            let p4 = p3 + 1;
            if !(p4 < toks.len() && toks[p4] is Integer) {
                (acc, p4)
            } else {
                let id = toks[p4]->Integer_0;
                let a0 = sp_call_arg(toks, p4 + 1);
                let a1 = sp_call_arg(toks, a0.1);
                let a2 = sp_call_arg(toks, a1.1);
                let p5 = sp_skip_ws(toks, a2.1);
                let p6 = sp_comma_opt(toks, p5);
                let sc = SyscallModel { id, arg0: a0.0, arg1: a1.0, arg2: a2.0 };
                let p7 = sp_skip_ws(toks, p6);
                if p7 < toks.len() && toks[p7] is ParenRight {
                    sp_body_loop(toks, p7 + 1, acc + seq![sc])
                } else {
                    (acc + seq![sc], p7)
                }
            }
        }
    } else {
        sp_body_loop(toks, p2, acc)
    }
}

#[via_fn]
proof fn sp_body_loop_decreases(toks: Seq<LexmeModel>, i: int, acc: Seq<SyscallModel>) {
    lemma_sp_skip_ws(toks, i);
    let p1 = sp_skip_ws(toks, i);
    lemma_sp_path(toks, p1);
    let p2 = sp_path(toks, p1).1;
    if 0 <= p2 <= toks.len() {
        lemma_sp_skip_ws(toks, p2);
        let p3 = sp_skip_ws(toks, p2);
        if p3 + 2 <= toks.len() {
            lemma_sp_call_arg(toks, p3 + 2);
            let a0 = sp_call_arg(toks, p3 + 2);
            lemma_sp_call_arg(toks, a0.1);
            let a1 = sp_call_arg(toks, a0.1);
            lemma_sp_call_arg(toks, a1.1);
            let a2 = sp_call_arg(toks, a1.1);
            lemma_sp_skip_ws(toks, a2.1);
            let p5 = sp_skip_ws(toks, a2.1);
            let p6 = sp_comma_opt(toks, p5);
            if 0 <= p6 <= toks.len() {
                lemma_sp_skip_ws(toks, p6);
            }
        }
    }
}

pub proof fn lemma_sp_body_loop(toks: Seq<LexmeModel>, i: int, acc: Seq<SyscallModel>)
    requires
        0 <= i <= toks.len(),
    ensures
        i <= sp_body_loop(toks, i, acc).1 <= toks.len(),
    decreases toks.len() - i,
{
    lemma_sp_skip_ws(toks, i);
    let p1 = sp_skip_ws(toks, i);
    lemma_sp_path(toks, p1);
    let path = sp_path(toks, p1).0;
    let p2 = sp_path(toks, p1).1;
    lemma_sp_skip_ws(toks, p2);
    if path.len() == 0 {
    } else if path.len() >= 2 && path[0] == "sys"@ && path[1] == "syscall"@ {
        let p3 = sp_skip_ws(toks, p2);
        if p3 < toks.len() && toks[p3] is ParenLeft {
            let p4 = p3 + 1;
            if p4 < toks.len() && toks[p4] is Integer {
                lemma_sp_call_arg(toks, p4 + 1);
                let a0 = sp_call_arg(toks, p4 + 1);
                lemma_sp_call_arg(toks, a0.1);
                let a1 = sp_call_arg(toks, a0.1);
                lemma_sp_call_arg(toks, a1.1);
                let a2 = sp_call_arg(toks, a1.1);
                lemma_sp_skip_ws(toks, a2.1);
                let p5 = sp_skip_ws(toks, a2.1);
                let p6 = sp_comma_opt(toks, p5);
                lemma_sp_skip_ws(toks, p6);
                let p7 = sp_skip_ws(toks, p6);
                if p7 < toks.len() && toks[p7] is ParenRight {
                    lemma_sp_body_loop(toks, p7 + 1, acc + seq![
                        SyscallModel {
                            id: toks[p4]->Integer_0,
                            arg0: a0.0,
                            arg1: a1.0,
                            arg2: a2.0,
                        },
                    ]);
                }
            }
        }
    } else {
        lemma_sp_body_loop(toks, p2, acc);
    }
}

/// A function body: `{`, the body loop, `}`. A missing opening brace
/// yields an empty body at the position reached.
pub open spec fn sp_body(toks: Seq<LexmeModel>, i: int) -> (Seq<SyscallModel>, int) {
    let p = sp_skip_ws(toks, i);
    if p < toks.len() && toks[p] is BraceLeft {
        sp_body_loop(toks, p + 1, Seq::empty())
    } else {
        (Seq::empty(), p)
    }
}

pub proof fn lemma_sp_body(toks: Seq<LexmeModel>, i: int)
    requires
        0 <= i <= toks.len(),
    ensures
        i <= sp_body(toks, i).1 <= toks.len(),
{
    lemma_sp_skip_ws(toks, i);
    let p = sp_skip_ws(toks, i);
    if p < toks.len() && toks[p] is BraceLeft {
        lemma_sp_body_loop(toks, p + 1, Seq::empty());
    }
}

/// An empty parameter list: `(` then `)`, with space allowed around.
pub open spec fn sp_params(toks: Seq<LexmeModel>, i: int) -> (bool, int) {
    let p1 = sp_skip_ws(toks, i);
    if !(p1 < toks.len() && toks[p1] is ParenLeft) {
        (false, p1)
    } else {
        let p2 = sp_skip_ws(toks, p1 + 1);
        if !(p2 < toks.len() && toks[p2] is ParenRight) {
            (false, p2)
        } else {
            (true, p2 + 1)
        }
    }
}

pub proof fn lemma_sp_params(toks: Seq<LexmeModel>, i: int)
    requires
        0 <= i <= toks.len(),
    ensures
        i <= sp_params(toks, i).1 <= toks.len(),
{
    lemma_sp_skip_ws(toks, i);
    let p1 = sp_skip_ws(toks, i);
    if p1 < toks.len() && toks[p1] is ParenLeft {
        lemma_sp_skip_ws(toks, p1 + 1);
    }
}

/// A function declaration after its `fn` keyword: name, empty
/// parameter list, body. A missing name or parameter list drops the
/// function entirely.
pub open spec fn sp_fn(toks: Seq<LexmeModel>, i: int) -> (Option<FunctionModel>, int) {
    let p1 = sp_skip_ws(toks, i);
    if !(p1 < toks.len() && toks[p1] is Ident) {
        (None, p1)
    } else {
        let name = toks[p1]->Ident_0;
        let pp = sp_params(toks, p1 + 1);
        if !pp.0 {
            (None, pp.1)
        } else {
            let b = sp_body(toks, pp.1);
            (Some(FunctionModel { ident: name, body: b.0 }), b.1)
        }
    }
}

pub proof fn lemma_sp_fn(toks: Seq<LexmeModel>, i: int)
    requires
        0 <= i <= toks.len(),
    ensures
        i <= sp_fn(toks, i).1 <= toks.len(),
{
    lemma_sp_skip_ws(toks, i);
    let p1 = sp_skip_ws(toks, i);
    if p1 < toks.len() && toks[p1] is Ident {
        lemma_sp_params(toks, p1 + 1);
        let pp = sp_params(toks, p1 + 1);
        if pp.0 {
            lemma_sp_body(toks, pp.1);
        }
    }
}

/// The top level: functions are collected; any other token is
/// silently discarded.
pub open spec fn sp_parse(toks: Seq<LexmeModel>, i: int) -> Seq<FunctionModel>
    decreases toks.len() - i,
    when 0 <= i <= toks.len()
    via sp_parse_decreases
{
    let p = sp_skip_ws(toks, i);
    if p >= toks.len() {
        Seq::empty()
    } else if toks[p] is Fn {
        let f = sp_fn(toks, p + 1);
        let rest = sp_parse(toks, f.1);
        match f.0 {
            Some(fm) => seq![fm] + rest,
            None => rest,
        }
    } else {
        sp_parse(toks, p + 1)
    }
}

#[via_fn]
proof fn sp_parse_decreases(toks: Seq<LexmeModel>, i: int) {
    lemma_sp_skip_ws(toks, i);
    let p = sp_skip_ws(toks, i);
    if p < toks.len() {
        lemma_sp_fn(toks, p + 1);
    }
}

/// The models of a token vector, in order.
pub open spec fn models_of<'a>(ts: Seq<Lexme<'a>>) -> Seq<LexmeModel> {
    Seq::new(ts.len(), |i: int| ts[i].model())
}

/// The views of a vector of strings, in order.
pub open spec fn strs_of(ss: Seq<String>) -> Seq<Seq<char>> {
    Seq::new(ss.len(), |i: int| ss[i]@)
}

/// The models of a vector of syscalls, in order.
pub open spec fn calls_of(ss: Seq<Syscall>) -> Seq<SyscallModel> {
    Seq::new(ss.len(), |i: int| ss[i]@)
}

/// String equality by characters.
fn str_eq(a: &str, b: &str) -> (r: bool)
    ensures
        r == (a@ == b@),
{
    let na = a.unicode_len();
    let nb = b.unicode_len();
    if na != nb {
        return false;
    }
    let mut i: usize = 0;
    while i < na
        invariant
            i <= na,
            na == a@.len(),
            na == b@.len(),
            forall|q: int| 0 <= q < i ==> a@[q] == b@[q],
        decreases na - i,
    {
        if a.get_char(i) != b.get_char(i) {
            return false;
        }
        i = i + 1;
    }
    proof {
        assert(a@ =~= b@);
    }
    true
}

/// The parser: the materialized token stream, the lookahead
/// position, and whether lexing ended in the fatal
/// integer-literal-overflow condition.
#[derive(Clone, Debug)]
pub struct Parser<'input> {
    /// The token stream the lexer produced.
    pub tokens: Vec<Lexme<'input>>,
    /// The position of the lookahead token.
    pub pos: usize,
    /// Whether lexing aborted on an integer-literal overflow.
    pub fatal: bool,
}

impl<'input> Parser<'input> {
    /// The token models this parser reads.
    pub open spec fn toks(self) -> Seq<LexmeModel> {
        models_of(self.tokens@)
    }

    /// The lookahead position stays within the stream.
    pub open spec fn wf(self) -> bool {
        self.pos <= self.tokens@.len()
    }

    /// A fresh parser: the lexer is run to completion over the input.
    pub fn new(input: &'input str) -> (r: Self)
        ensures
            r.wf(),
            r.pos == 0,
            r.toks() == spec_lex(input@, 0).toks,
            r.fatal == (spec_lex(input@, 0).stop is Fatal),
    {
        let mut lexer = Lexer::new(input);
        let mut tokens: Vec<Lexme<'input>> = Vec::new();
        proof {
            assert(models_of(tokens@) =~= Seq::<LexmeModel>::empty());
            crate::lexer::lemma_lex_bounds(input@, 0);
        }
        loop
            invariant
                lexer.wf(),
                lexer.input@ == input@,
                !lexer.fatal ==> spec_lex(input@, 0).toks == models_of(tokens@) + spec_lex(
                    input@,
                    lexer.pos as int,
                ).toks && spec_lex(input@, 0).stop == spec_lex(input@, lexer.pos as int).stop,
                lexer.fatal ==> spec_lex(input@, 0).toks == models_of(tokens@) && spec_lex(
                    input@,
                    0,
                ).stop is Fatal,
            ensures
                models_of(tokens@) == spec_lex(input@, 0).toks,
                lexer.fatal == (spec_lex(input@, 0).stop is Fatal),
            decreases input@.len() - lexer.pos,
        {
            let ghost pre = lexer;
            let ghost pretoks = tokens@;
            let next = lexer.next();
            match next {
                Some(l) => {
                    tokens.push(l);
                    proof {
                        crate::lexer::lemma_scan_advances(input@, pre.pos as int);
                        assert(models_of(tokens@) =~= models_of(pretoks) + seq![l.model()]);
                        let step = crate::lexer::spec_scan(input@, pre.pos as int);
                        assert(step matches crate::lexer::ScanStep::Tok(t, end) && l.model() == t
                            && lexer.pos == end);
                        assert(spec_lex(input@, pre.pos as int).toks == seq![l.model()] + spec_lex(
                            input@,
                            lexer.pos as int,
                        ).toks);
                        assert(spec_lex(input@, 0).toks =~= models_of(tokens@) + spec_lex(
                            input@,
                            lexer.pos as int,
                        ).toks);
                    }
                },
                None => {
                    proof {
                        if !pre.fatal {
                            let step = crate::lexer::spec_scan(input@, pre.pos as int);
                            assert(spec_lex(input@, pre.pos as int).toks
                                == Seq::<LexmeModel>::empty());
                            assert(spec_lex(input@, 0).toks =~= models_of(tokens@));
                        }
                    }
                    break ;
                },
            }
        }
        Parser { tokens, pos: 0, fatal: lexer.fatal }
    }

    /// Skips whitespace and newline tokens.
    pub fn do_space(&mut self)
        requires
            old(self).wf(),
        ensures
            final(self).wf(),
            final(self).tokens@ == old(self).tokens@,
            final(self).fatal == old(self).fatal,
            final(self).pos == sp_skip_ws(old(self).toks(), old(self).pos as int),
    {
        let ghost toks = self.toks();
        let ghost i0 = self.pos as int;
        loop
            invariant
                self.wf(),
                toks == self.toks(),
                i0 <= self.pos <= self.tokens@.len(),
                sp_skip_ws(toks, self.pos as int) == sp_skip_ws(toks, i0),
                self.fatal == old(self).fatal,
                self.tokens@ == old(self).tokens@,
            ensures
                self.wf(),
                self.tokens@ == old(self).tokens@,
                self.fatal == old(self).fatal,
                self.pos == sp_skip_ws(toks, i0),
            decreases self.tokens@.len() - self.pos,
        {
            if self.pos >= self.tokens.len() {
                break ;
            }
            let t = self.tokens[self.pos];
            match t {
                Lexme::Space(_) => {
                    self.pos = self.pos + 1;
                },
                Lexme::Newline => {
                    self.pos = self.pos + 1;
                },
                _ => {
                    proof {
                        assert(toks[self.pos as int] == t.model());
                    }
                    break ;
                },
            }
        }
    }

    /// Consumes a `(` if it is next.
    pub fn do_paren_left(&mut self) -> (r: Option<()>)
        requires
            old(self).wf(),
        ensures
            final(self).wf(),
            final(self).tokens@ == old(self).tokens@,
            final(self).fatal == old(self).fatal,
            ({
                let toks = old(self).toks();
                let i = old(self).pos as int;
                if i < toks.len() && toks[i] is ParenLeft {
                    r is Some && final(self).pos == i + 1
                } else {
                    r is None && final(self).pos == i
                }
            }),
    {
        if self.pos < self.tokens.len() {
            let t = self.tokens[self.pos];
            proof {
                assert(old(self).toks()[self.pos as int] == t.model());
            }
            match t {
                Lexme::ParenLeft => {
                    self.pos = self.pos + 1;
                    return Some(());
                },
                _ => {},
            }
        }
        None
    }

    /// Consumes a `)` if it is next.
    pub fn do_paren_right(&mut self) -> (r: Option<()>)
        requires
            old(self).wf(),
        ensures
            final(self).wf(),
            final(self).tokens@ == old(self).tokens@,
            final(self).fatal == old(self).fatal,
            ({
                let toks = old(self).toks();
                let i = old(self).pos as int;
                if i < toks.len() && toks[i] is ParenRight {
                    r is Some && final(self).pos == i + 1
                } else {
                    r is None && final(self).pos == i
                }
            }),
    {
        if self.pos < self.tokens.len() {
            let t = self.tokens[self.pos];
            proof {
                assert(old(self).toks()[self.pos as int] == t.model());
            }
            match t {
                Lexme::ParenRight => {
                    self.pos = self.pos + 1;
                    return Some(());
                },
                _ => {},
            }
        }
        None
    }

    /// Consumes a `{` if it is next.
    pub fn do_brace_left(&mut self) -> (r: Option<()>)
        requires
            old(self).wf(),
        ensures
            final(self).wf(),
            final(self).tokens@ == old(self).tokens@,
            final(self).fatal == old(self).fatal,
            ({
                let toks = old(self).toks();
                let i = old(self).pos as int;
                if i < toks.len() && toks[i] is BraceLeft {
                    r is Some && final(self).pos == i + 1
                } else {
                    r is None && final(self).pos == i
                }
            }),
    {
        if self.pos < self.tokens.len() {
            let t = self.tokens[self.pos];
            proof {
                assert(old(self).toks()[self.pos as int] == t.model());
            }
            match t {
                Lexme::BraceLeft => {
                    self.pos = self.pos + 1;
                    return Some(());
                },
                _ => {},
            }
        }
        None
    }

    /// Consumes a `}` if it is next.
    pub fn do_brace_right(&mut self) -> (r: Option<()>)
        requires
            old(self).wf(),
        ensures
            final(self).wf(),
            final(self).tokens@ == old(self).tokens@,
            final(self).fatal == old(self).fatal,
            ({
                let toks = old(self).toks();
                let i = old(self).pos as int;
                if i < toks.len() && toks[i] is BraceRight {
                    r is Some && final(self).pos == i + 1
                } else {
                    r is None && final(self).pos == i
                }
            }),
    {
        if self.pos < self.tokens.len() {
            let t = self.tokens[self.pos];
            proof {
                assert(old(self).toks()[self.pos as int] == t.model());
            }
            match t {
                Lexme::BraceRight => {
                    self.pos = self.pos + 1;
                    return Some(());
                },
                _ => {},
            }
        }
        None
    }

    /// Consumes a `::` if it is next.
    pub fn do_double_colon(&mut self) -> (r: Option<()>)
        requires
            old(self).wf(),
        ensures
            final(self).wf(),
            final(self).tokens@ == old(self).tokens@,
            final(self).fatal == old(self).fatal,
            ({
                let toks = old(self).toks();
                let i = old(self).pos as int;
                if i < toks.len() && toks[i] is DoubleColon {
                    r is Some && final(self).pos == i + 1
                } else {
                    r is None && final(self).pos == i
                }
            }),
    {
        if self.pos < self.tokens.len() {
            let t = self.tokens[self.pos];
            proof {
                assert(old(self).toks()[self.pos as int] == t.model());
            }
            match t {
                Lexme::DoubleColon => {
                    self.pos = self.pos + 1;
                    return Some(());
                },
                _ => {},
            }
        }
        None
    }

    /// Consumes a `,` if it is next.
    pub fn do_comma(&mut self) -> (r: Option<()>)
        requires
            old(self).wf(),
        ensures
            final(self).wf(),
            final(self).tokens@ == old(self).tokens@,
            final(self).fatal == old(self).fatal,
            ({
                let toks = old(self).toks();
                let i = old(self).pos as int;
                if i < toks.len() && toks[i] is Comma {
                    r is Some && final(self).pos == i + 1
                } else {
                    r is None && final(self).pos == i
                }
            }),
    {
        if self.pos < self.tokens.len() {
            let t = self.tokens[self.pos];
            proof {
                assert(old(self).toks()[self.pos as int] == t.model());
            }
            match t {
                Lexme::Comma => {
                    self.pos = self.pos + 1;
                    return Some(());
                },
                _ => {},
            }
        }
        None
    }

    /// Consumes an identifier if it is next, returning its text.
    pub fn do_ident(&mut self) -> (r: Option<String>)
        requires
            old(self).wf(),
        ensures
            final(self).wf(),
            final(self).tokens@ == old(self).tokens@,
            final(self).fatal == old(self).fatal,
            ({
                let toks = old(self).toks();
                let i = old(self).pos as int;
                if i < toks.len() && toks[i] is Ident {
                    (r matches Some(w) && w@ == toks[i]->Ident_0) && final(self).pos == i + 1
                } else {
                    r is None && final(self).pos == i
                }
            }),
    {
        if self.pos < self.tokens.len() {
            let t = self.tokens[self.pos];
            proof {
                assert(old(self).toks()[self.pos as int] == t.model());
            }
            match t {
                Lexme::Ident(s) => {
                    self.pos = self.pos + 1;
                    return Some(s.to_owned());
                },
                _ => {},
            }
        }
        None
    }

    /// Consumes a string literal if it is next, returning its raw
    /// span (delimiters included).
    pub fn do_string(&mut self) -> (r: Option<String>)
        requires
            old(self).wf(),
        ensures
            final(self).wf(),
            final(self).tokens@ == old(self).tokens@,
            final(self).fatal == old(self).fatal,
            ({
                let toks = old(self).toks();
                let i = old(self).pos as int;
                if i < toks.len() && toks[i] is Str {
                    (r matches Some(w) && w@ == toks[i]->Str_0) && final(self).pos == i + 1
                } else {
                    r is None && final(self).pos == i
                }
            }),
    {
        if self.pos < self.tokens.len() {
            let t = self.tokens[self.pos];
            proof {
                assert(old(self).toks()[self.pos as int] == t.model());
            }
            match t {
                Lexme::Str(s) => {
                    self.pos = self.pos + 1;
                    return Some(s.to_owned());
                },
                _ => {},
            }
        }
        None
    }

    /// Consumes an integer literal if it is next, returning its value.
    pub fn do_integer(&mut self) -> (r: Option<u64>)
        requires
            old(self).wf(),
        ensures
            final(self).wf(),
            final(self).tokens@ == old(self).tokens@,
            final(self).fatal == old(self).fatal,
            ({
                let toks = old(self).toks();
                let i = old(self).pos as int;
                if i < toks.len() && toks[i] is Integer {
                    (r matches Some(n) && n == toks[i]->Integer_0) && final(self).pos == i + 1
                } else {
                    r is None && final(self).pos == i
                }
            }),
    {
        if self.pos < self.tokens.len() {
            let t = self.tokens[self.pos];
            proof {
                assert(old(self).toks()[self.pos as int] == t.model());
            }
            match t {
                Lexme::Integer(n) => {
                    self.pos = self.pos + 1;
                    return Some(n);
                },
                _ => {},
            }
        }
        None
    }

    /// One argument: an integer, else a string literal, else absent.
    pub fn do_argument(&mut self) -> (r: Argument)
        requires
            old(self).wf(),
        ensures
            final(self).wf(),
            final(self).tokens@ == old(self).tokens@,
            final(self).fatal == old(self).fatal,
            r@ == sp_argument(old(self).toks(), old(self).pos as int).0,
            final(self).pos == sp_argument(old(self).toks(), old(self).pos as int).1,
    {
        match self.do_integer() {
            Some(n) => {
                return Argument::U64(n);
            },
            None => {},
        }
        match self.do_string() {
            Some(s) => {
                return Argument::Str(s);
            },
            None => {},
        }
        Argument::Absent
    }

    /// A dotted path: an optional leading `::`, then identifiers
    /// separated by `::`. An empty result means no path was present.
    pub fn do_path(&mut self) -> (r: Vec<String>)
        requires
            old(self).wf(),
        ensures
            final(self).wf(),
            final(self).tokens@ == old(self).tokens@,
            final(self).fatal == old(self).fatal,
            strs_of(r@) == sp_path(old(self).toks(), old(self).pos as int).0,
            final(self).pos == sp_path(old(self).toks(), old(self).pos as int).1,
    {
        let ghost toks = self.toks();
        let ghost i0 = self.pos as int;
        let mut path: Vec<String> = Vec::new();
        if self.do_double_colon().is_some() {
            path.push("::".to_owned());
            proof {
                assert(strs_of(path@) =~= seq!["::"@]);
            }
        } else {
            proof {
                assert(strs_of(path@) =~= Seq::<Seq<char>>::empty());
            }
        }
        loop
            invariant
                self.wf(),
                toks == self.toks(),
                self.tokens@ == old(self).tokens@,
                self.fatal == old(self).fatal,
                self.pos <= self.tokens@.len(),
                sp_path(toks, i0).0 == strs_of(path@) + sp_idents(toks, self.pos as int).0,
                sp_path(toks, i0).1 == sp_idents(toks, self.pos as int).1,
            ensures
                self.wf(),
                self.tokens@ == old(self).tokens@,
                self.fatal == old(self).fatal,
                strs_of(path@) == sp_path(toks, i0).0,
                self.pos == sp_path(toks, i0).1,
            decreases self.tokens@.len() - self.pos,
        {
            let ghost p = self.pos as int;
            let ghost prepath = path@;
            let id_opt = self.do_ident();
            match id_opt {
                Some(id) => {
                    path.push(id);
                    self.do_double_colon();
                    proof {
                        let name = toks[p]->Ident_0;
                        assert(strs_of(path@) =~= strs_of(prepath) + seq![name]);
                        assert(sp_idents(toks, p).0 =~= seq![name] + sp_idents(
                            toks,
                            self.pos as int,
                        ).0);
                        assert(sp_path(toks, i0).0 =~= strs_of(path@) + sp_idents(
                            toks,
                            self.pos as int,
                        ).0);
                    }
                },
                None => {
                    proof {
                        assert(sp_idents(toks, p).0 =~= Seq::<Seq<char>>::empty());
                        assert(sp_path(toks, i0).0 =~= strs_of(path@));
                    }
                    break ;
                },
            }
        }
        path
    }

    /// An empty parameter list: `(` then `)`.
    pub fn do_parameters(&mut self) -> (r: Option<()>)
        requires
            old(self).wf(),
        ensures
            final(self).wf(),
            final(self).tokens@ == old(self).tokens@,
            final(self).fatal == old(self).fatal,
            r is Some == sp_params(old(self).toks(), old(self).pos as int).0,
            final(self).pos == sp_params(old(self).toks(), old(self).pos as int).1,
    {
        self.do_space();
        if self.do_paren_left().is_none() {
            return None;
        }
        self.do_space();
        if self.do_paren_right().is_none() {
            return None;
        }
        Some(())
    }


    /// A function body: `{`, repeated paths with syscall parsing,
    /// `}`. A missing opening brace yields an empty body; a missing
    /// later delimiter aborts the loop keeping what was accumulated.
    pub fn do_body(&mut self) -> (r: Vec<Syscall>)
        requires
            old(self).wf(),
        ensures
            final(self).wf(),
            final(self).tokens@ == old(self).tokens@,
            final(self).fatal == old(self).fatal,
            calls_of(r@) == sp_body(old(self).toks(), old(self).pos as int).0,
            final(self).pos == sp_body(old(self).toks(), old(self).pos as int).1,
    {
        let ghost toks = self.toks();
        let ghost i0 = self.pos as int;
        self.do_space();
        if self.do_brace_left().is_none() {
            let r: Vec<Syscall> = Vec::new();
            proof {
                assert(calls_of(r@) =~= Seq::<SyscallModel>::empty());
            }
            return r;
        }
        let ghost istart = self.pos as int;
        let mut syscalls: Vec<Syscall> = Vec::new();
        proof {
            assert(calls_of(syscalls@) =~= Seq::<SyscallModel>::empty());
        }
        loop
            invariant_except_break
                self.wf(),
                toks == self.toks(),
                self.tokens@ == old(self).tokens@,
                self.fatal == old(self).fatal,
                0 <= istart <= self.pos <= self.tokens@.len(),
                sp_body_loop(toks, istart, Seq::<SyscallModel>::empty()) == sp_body_loop(
                    toks,
                    self.pos as int,
                    calls_of(syscalls@),
                ),
            ensures
                self.wf(),
                self.tokens@ == old(self).tokens@,
                self.fatal == old(self).fatal,
                calls_of(syscalls@) == sp_body_loop(toks, istart, Seq::<SyscallModel>::empty()).0,
                self.pos == sp_body_loop(toks, istart, Seq::<SyscallModel>::empty()).1,
            decreases self.tokens@.len() - self.pos,
        {
            let ghost ptop = self.pos as int;
            let ghost acc0 = calls_of(syscalls@);
            proof {
                lemma_sp_skip_ws(toks, ptop);
            }
            self.do_space();
            let path = self.do_path();
            proof {
                lemma_sp_path(toks, sp_skip_ws(toks, ptop));
            }
            if path.len() == 0 {
                proof {
                    lemma_sp_skip_ws(toks, self.pos as int);
                }
                self.do_space();
                self.do_brace_right();
                proof {
                    assert(sp_body_loop(toks, ptop, acc0) == (acc0, self.pos as int));
                }
                break ;
            }
            let is_sys = path.len() >= 2 && str_eq(path[0].as_str(), "sys") && str_eq(
                path[1].as_str(),
                "syscall",
            );
            proof {
                let spath = sp_path(toks, sp_skip_ws(toks, ptop)).0;
                assert(spath.len() == path@.len());
                if path@.len() >= 2 {
                    assert(spath[0] == path@[0]@ && spath[1] == path@[1]@);
                }
                assert(is_sys == (spath.len() >= 2 && spath[0] == "sys"@ && spath[1]
                    == "syscall"@));
            }
            if !is_sys {
                proof {
                    assert(sp_body_loop(toks, ptop, acc0) == sp_body_loop(
                        toks,
                        self.pos as int,
                        acc0,
                    ));
                    assert(self.pos > ptop);
                }
            } else {
                proof {
                    lemma_sp_skip_ws(toks, self.pos as int);
                }
                self.do_space();
                if self.do_paren_left().is_none() {
                    proof {
                        assert(sp_body_loop(toks, ptop, acc0) == (acc0, self.pos as int));
                    }
                    break ;
                }
                let id_opt = self.do_integer();
                if id_opt.is_none() {
                    proof {
                        assert(sp_body_loop(toks, ptop, acc0) == (acc0, self.pos as int));
                    }
                    break ;
                }
                let id = id_opt.unwrap();
                let ghost pid = self.pos as int;
                proof {
                    lemma_sp_call_arg(toks, pid);
                }
                self.do_space();
                self.do_comma();
                self.do_space();
                let arg0 = self.do_argument();
                let ghost a0 = arg0@;
                proof {
                    assert((a0, self.pos as int) == sp_call_arg(toks, pid));
                    lemma_sp_call_arg(toks, self.pos as int);
                }
                let ghost pa1 = self.pos as int;
                self.do_space();
                self.do_comma();
                self.do_space();
                let arg1 = self.do_argument();
                let ghost a1 = arg1@;
                proof {
                    assert((a1, self.pos as int) == sp_call_arg(toks, pa1));
                    lemma_sp_call_arg(toks, self.pos as int);
                }
                let ghost pa2 = self.pos as int;
                self.do_space();
                self.do_comma();
                self.do_space();
                let arg2 = self.do_argument();
                let ghost a2 = arg2@;
                proof {
                    assert((a2, self.pos as int) == sp_call_arg(toks, pa2));
                    lemma_sp_skip_ws(toks, self.pos as int);
                }
                self.do_space();
                self.do_comma();
                let ghost presys = syscalls@;
                syscalls.push(Syscall { id, arg0, arg1, arg2 });
                proof {
                    assert(calls_of(syscalls@) =~= calls_of(presys) + seq![
                        SyscallModel { id, arg0: a0, arg1: a1, arg2: a2 },
                    ]);
                    lemma_sp_skip_ws(toks, self.pos as int);
                }
                self.do_space();
                if self.do_paren_right().is_none() {
                    proof {
                        assert(sp_body_loop(toks, ptop, acc0) == (
                            calls_of(syscalls@),
                            self.pos as int,
                        ));
                    }
                    break ;
                }
                proof {
                    assert(sp_body_loop(toks, ptop, acc0) == sp_body_loop(
                        toks,
                        self.pos as int,
                        calls_of(syscalls@),
                    ));
                    assert(self.pos > ptop);
                }
            }
        }
        syscalls
    }

    /// A function declaration after its `fn` keyword: name, empty
    /// parameter list, body. Failure before the body drops the
    /// function entirely.
    pub fn do_fn(&mut self) -> (r: Option<Function>)
        requires
            old(self).wf(),
        ensures
            final(self).wf(),
            final(self).tokens@ == old(self).tokens@,
            final(self).fatal == old(self).fatal,
            ({
                let f = sp_fn(old(self).toks(), old(self).pos as int);
                (match f.0 {
                    Some(fm) => r matches Some(g) && g@ == fm,
                    None => r is None,
                }) && final(self).pos == f.1
            }),
    {
        let ghost toks = self.toks();
        let ghost i0 = self.pos as int;
        self.do_space();
        let ident_opt = self.do_ident();
        if ident_opt.is_none() {
            return None;
        }
        let ident = ident_opt.unwrap();
        let ghost name = ident@;
        if self.do_parameters().is_none() {
            return None;
        }
        let ghost pbody = self.pos as int;
        let body = self.do_body();
        let f = Function { ident, body };
        proof {
            let sf = sp_fn(toks, i0);
            assert(f@.body =~= calls_of(f.body@));
            assert(f@ == FunctionModel { ident: name, body: sp_body(toks, pbody).0 });
            assert(sf.0 == Some(FunctionModel { ident: name, body: sp_body(toks, pbody).0 }));
        }
        Some(f)
    }

    /// The top level: collects function declarations, silently
    /// discarding anything else, until the input is exhausted.
    pub fn parse(&mut self) -> (r: Source)
        requires
            old(self).wf(),
        ensures
            final(self).wf(),
            final(self).tokens@ == old(self).tokens@,
            final(self).fatal == old(self).fatal,
            r@ == sp_parse(old(self).toks(), old(self).pos as int),
    {
        let ghost toks = self.toks();
        let ghost i0 = self.pos as int;
        let mut source = Source::new();
        loop
            invariant
                self.wf(),
                toks == self.toks(),
                self.tokens@ == old(self).tokens@,
                self.fatal == old(self).fatal,
                0 <= self.pos <= self.tokens@.len(),
                sp_parse(toks, i0) == source@ + sp_parse(toks, self.pos as int),
            ensures
                self.wf(),
                self.tokens@ == old(self).tokens@,
                self.fatal == old(self).fatal,
                source@ == sp_parse(toks, i0),
            decreases self.tokens@.len() - self.pos,
        {
            let ghost ptop = self.pos as int;
            let ghost pre = source@;
            proof {
                lemma_sp_skip_ws(toks, ptop);
            }
            self.do_space();
            if self.pos >= self.tokens.len() {
                proof {
                    assert(sp_parse(toks, ptop) == Seq::<FunctionModel>::empty());
                    assert(sp_parse(toks, i0) =~= source@);
                }
                break ;
            }
            let t = self.tokens[self.pos];
            proof {
                assert(toks[self.pos as int] == t.model());
            }
            match t {
                Lexme::Fn => {
                    let ghost p = self.pos as int;
                    self.pos = self.pos + 1;
                    proof {
                        lemma_sp_fn(toks, p + 1);
                    }
                    let f_opt = self.do_fn();
                    match f_opt {
                        Some(f) => {
                            let ghost fv = f@;
                            source.functions.push(f);
                            proof {
                                assert(source@ =~= pre + seq![fv]);
                                assert(sp_parse(toks, ptop) == seq![fv] + sp_parse(
                                    toks,
                                    self.pos as int,
                                ));
                                assert(sp_parse(toks, i0) =~= source@ + sp_parse(
                                    toks,
                                    self.pos as int,
                                ));
                                assert(self.pos > ptop);
                            }
                        },
                        None => {
                            proof {
                                assert(sp_parse(toks, ptop) == sp_parse(toks, self.pos as int));
                                assert(self.pos > ptop);
                            }
                        },
                    }
                },
                _ => {
                    self.pos = self.pos + 1;
                    proof {
                        assert(sp_parse(toks, ptop) == sp_parse(toks, self.pos as int));
                    }
                },
            }
        }
        source
    }
}

} // verus!
