//! The tokenizer.
//!
//! A [`Lexer`] holds the source text and a cursor into it. The cursor is the
//! position of the last character that was consumed, so the next token is
//! looked for from the character behind the cursor. Position 0 holds a line
//! feed that [`Lexer::new`] puts in front of the program: a cursor of 0 stands
//! in front of its first character.
//!
//! What the tokenizer does is defined on plain sequences of characters:
//! [`scan`] gives the token that follows a cursor and the cursor behind it,
//! [`seek_from`] and [`skip_from`] give where the two scanning primitives
//! stop, and [`register_from`] gives the table of functions.

use crate::error::Error;
use crate::scope::VarStore;
use crate::text::{
    ascii_alpha, ascii_digit, ascii_space, decimal_value, is_alpha, is_digit, is_space,
};
use crate::token::{Action, Glyph, Op, Operator, Token};
use crate::value::{text_false, text_true, Operand, Value};
use vstd::prelude::*;
use vstd::string::StrSliceExecFns;

verus! {

/// The runs of characters that the tokenizer reads in one go.
#[derive(Clone, Copy, Debug)]
pub enum Run {
    /// Decimal digits: ends at the first character that is no digit.
    Digits,
    /// A name: letters, and ends at the first character that is no letter.
    Name,
    /// The rest of a line: ends at a line feed.
    Line,
    /// The inside of a text literal: ends at the given quote.
    Quoted(char),
}

/// Whether the character `c` ends a run of the given kind. The character
/// that ends a run is not part of it.
pub open spec fn ends_run(kind: Run, c: char) -> bool {
    match kind {
        Run::Digits => !is_digit(c),
        Run::Name => !is_alpha(c),
        Run::Line => c == '\n',
        Run::Quoted(q) => c == q,
    }
}

/// Where the run that starts at `from` ends: the first position at or behind
/// `from` whose character ends the run, or the length of the source where
/// there is none.
pub open spec fn run_end(src: Seq<char>, from: int, kind: Run) -> int
    decreases src.len() - from,
{
    if from >= src.len() {
        src.len() as int
    } else if ends_run(kind, src[from]) {
        from
    } else {
        run_end(src, from + 1, kind)
    }
}

/// `run_end` is the first position that ends the run.
pub proof fn lemma_run_end(src: Seq<char>, from: int, kind: Run)
    requires
        0 <= from <= src.len(),
    ensures
        from <= run_end(src, from, kind) <= src.len(),
        forall|i: int| from <= i < run_end(src, from, kind) ==> !ends_run(kind, #[trigger] src[i]),
        run_end(src, from, kind) < src.len() ==> ends_run(
            kind,
            src[run_end(src, from, kind)],
        ),
    decreases src.len() - from,
{
    if from < src.len() && !ends_run(kind, src[from]) {
        lemma_run_end(src, from + 1, kind);
    }
}

/// Whether the characters of `pat` stand in `src` from position `at` on.
pub open spec fn occurs_at(src: Seq<char>, at: int, pat: Seq<char>) -> bool {
    &&& 0 <= at
    &&& at + pat.len() <= src.len()
    &&& src.subrange(at, at + pat.len()) == pat
}

/// The two slashes that start a comment.
pub open spec fn comment_mark() -> Seq<char> {
    seq!['/', '/']
}

/// Where the next token starts when the cursor is `cur`: the first position
/// behind the cursor that is neither whitespace nor part of a comment. A
/// comment runs from two slashes to the end of the line. The result is the
/// length of the source where no token follows.
pub open spec fn token_start(src: Seq<char>, cur: int) -> int
    decreases src.len() - cur,
    when 0 <= cur
{
    let p = cur + 1;
    if p >= src.len() {
        src.len() as int
    } else if occurs_at(src, p, comment_mark()) {
        proof {
            lemma_run_end(src, p + 1, Run::Line);
        }
        token_start(src, run_end(src, p + 1, Run::Line))
    } else if is_space(src[p]) {
        token_start(src, p)
    } else {
        p
    }
}

/// The result of looking for a token.
pub enum Scan {
    /// A token, and the cursor behind it.
    Found { token: Token, end: int },
    /// The source is exhausted.
    Exhausted,
    /// What follows is no token.
    Failed(Error),
}

/// The token made of the one character `c`, for the characters that are a
/// token by themselves.
pub open spec fn single(c: char) -> Option<Token> {
    if c == '<' {
        Some(Token::Action(Action::LessThan))
    } else if c == '>' {
        Some(Token::Action(Action::GreaterThan))
    } else if c == '+' {
        Some(Token::Action(Action::Add))
    } else if c == '-' {
        Some(Token::Action(Action::Sub))
    } else if c == '.' {
        Some(Token::Action(Action::Print))
    } else if c == '*' {
        Some(Token::Action(Action::Mul))
    } else if c == '/' {
        Some(Token::Action(Action::Div))
    } else if c == '?' {
        Some(Token::Action(Action::Cond))
    } else if c == ',' {
        Some(Token::Action(Action::Pop))
    } else if c == ';' {
        Some(Token::Action(Action::Clear))
    } else if c == '{' {
        Some(Token::Mark(Glyph::OpenSquiggle))
    } else if c == '}' {
        Some(Token::Mark(Glyph::CloseSquiggle))
    } else if c == '~' {
        Some(Token::Mark(Glyph::Loop))
    } else if c == '$' {
        Some(Token::Mark(Glyph::Break))
    } else if c == ':' {
        Some(Token::Mark(Glyph::Else))
    } else if c == '#' {
        Some(Token::Mark(Glyph::Define))
    } else {
        None
    }
}

/// The token that starts at position `p`, which holds neither whitespace nor
/// the start of a comment. The rules, in order of priority:
///
/// - a run of digits is an integer literal, read in base ten;
/// - `true` and `false` are the boolean literals;
/// - a single or double quote opens a text literal, which runs up to the next
///   quote of the same kind, with no escapes; a literal that the end of the
///   source cuts off, with no such quote behind it, is an error;
/// - `==`, `!=` and `[]` are the operators of two characters;
/// - `=` assigns to the name that follows it directly;
/// - the other operators and the structural marks are one character each;
/// - a letter starts a name, to be looked up or called;
/// - anything else is an error.
///
/// A name is a run of letters: it ends in front of the first character that
/// is no letter. The name behind `=` is empty where no letter follows.
pub open spec fn token_at(src: Seq<char>, p: int) -> Scan {
    let c = src[p];
    if is_digit(c) {
        let e = run_end(src, p, Run::Digits);
        let n = decimal_value(src.subrange(p, e));
        if n <= i32::MAX {
            Scan::Found { token: Token::Literal(Value::Int(n as int)), end: e - 1 }
        } else {
            Scan::Failed(Error::NumberTooLarge)
        }
    } else if occurs_at(src, p, text_true()) {
        Scan::Found { token: Token::Literal(Value::Bool(true)), end: p + 3 }
    } else if occurs_at(src, p, text_false()) {
        Scan::Found { token: Token::Literal(Value::Bool(false)), end: p + 4 }
    } else if c == '"' || c == '\'' {
        let e = run_end(src, p + 1, Run::Quoted(c));
        if e < src.len() {
            Scan::Found { token: Token::Literal(Value::Text(src.subrange(p + 1, e))), end: e }
        } else {
            Scan::Failed(Error::UnterminatedText)
        }
    } else if occurs_at(src, p, seq!['=', '=']) {
        Scan::Found { token: Token::Action(Action::Equal), end: p + 1 }
    } else if occurs_at(src, p, seq!['!', '=']) {
        Scan::Found { token: Token::Action(Action::NotEqual), end: p + 1 }
    } else if occurs_at(src, p, seq!['[', ']']) {
        Scan::Found { token: Token::Action(Action::Index), end: p + 1 }
    } else if c == '=' {
        let e = run_end(src, p + 1, Run::Name);
        Scan::Found { token: Token::Action(Action::Assign(src.subrange(p + 1, e))), end: e - 1 }
    } else if single(c) is Some {
        Scan::Found { token: single(c)->0, end: p }
    } else if is_alpha(c) {
        let e = run_end(src, p, Run::Name);
        Scan::Found { token: Token::Action(Action::Access(src.subrange(p, e))), end: e - 1 }
    } else {
        Scan::Failed(Error::UnrecognizedChar(c))
    }
}

/// The token that follows the cursor `cur`.
pub open spec fn scan(src: Seq<char>, cur: int) -> Scan {
    let p = token_start(src, cur);
    if p >= src.len() {
        Scan::Exhausted
    } else {
        token_at(src, p)
    }
}

/// The next token starts behind the cursor.
pub proof fn lemma_token_start(src: Seq<char>, cur: int)
    requires
        0 <= cur <= src.len(),
    ensures
        cur < token_start(src, cur) || token_start(src, cur) == src.len(),
        token_start(src, cur) <= src.len(),
    decreases src.len() - cur,
{
    let p = cur + 1;
    if p >= src.len() {
    } else if occurs_at(src, p, comment_mark()) {
        lemma_run_end(src, p + 1, Run::Line);
        lemma_token_start(src, run_end(src, p + 1, Run::Line));
    } else if is_space(src[p]) {
        lemma_token_start(src, p);
    }
}

/// A token consumes at least one character, and the cursor behind it is
/// within the source.
pub proof fn lemma_scan_advances(src: Seq<char>, cur: int)
    requires
        0 <= cur <= src.len(),
    ensures
        scan(src, cur) matches Scan::Found { end, .. } ==> cur < end <= src.len(),
{
    lemma_token_start(src, cur);
    let p = token_start(src, cur);
    if p < src.len() {
        lemma_run_end(src, p, Run::Digits);
        lemma_run_end(src, p, Run::Name);
        lemma_run_end(src, p + 1, Run::Name);
        if p + 1 < src.len() {
            lemma_run_end(src, p + 1, Run::Quoted(src[p]));
        }
    }
}

/// Where a search for the token `target` stops when it starts with the
/// cursor at `cur`: at the cursor in front of the first token equal to
/// `target`, so that this token is the next one to be produced. The search
/// fails with `missing` where the source is exhausted first, and with the
/// tokenizer's own error where it meets something that is no token.
pub open spec fn seek_from(src: Seq<char>, cur: int, target: Token, missing: Error) -> Result<
    int,
    Error,
>
    decreases src.len() - cur,
    when 0 <= cur <= src.len()
{
    match scan(src, cur) {
        Scan::Found { token, end } => if token == target {
            Ok(cur)
        } else {
            proof {
                lemma_scan_advances(src, cur);
            }
            seek_from(src, end, target, missing)
        },
        Scan::Exhausted => Err(missing),
        Scan::Failed(e) => Err(e),
    }
}

/// Where skipping a body stops when it starts with the cursor at `cur`,
/// `depth` braces being open: behind the closing brace that brings the depth
/// back to zero. Tokens in front of the first opening brace are skipped with
/// the body. A closing brace while no brace is open, and the end of the
/// source, make the body unbalanced.
pub open spec fn skip_from(src: Seq<char>, cur: int, depth: nat) -> Result<int, Error>
    decreases src.len() - cur,
    when 0 <= cur <= src.len()
{
    match scan(src, cur) {
        Scan::Found { token, end } => {
            proof {
                lemma_scan_advances(src, cur);
            }
            if token == Token::Mark(Glyph::OpenSquiggle) {
                skip_from(src, end, depth + 1)
            } else if token == Token::Mark(Glyph::CloseSquiggle) {
                if depth == 0 {
                    Err(Error::UnbalancedBody)
                } else if depth == 1 {
                    Ok(end)
                } else {
                    skip_from(src, end, (depth - 1) as nat)
                }
            } else {
                skip_from(src, end, depth)
            }
        },
        Scan::Exhausted => Err(Error::UnbalancedBody),
        Scan::Failed(e) => Err(e),
    }
}

/// A search stops between where it started and the end of the source.
pub proof fn lemma_seek_bounds(src: Seq<char>, cur: int, target: Token, missing: Error)
    requires
        0 <= cur <= src.len(),
    ensures
        seek_from(src, cur, target, missing) matches Ok(pos) ==> cur <= pos < src.len() && (scan(
            src,
            pos,
        ) matches Scan::Found { token, .. } && token == target),
    decreases src.len() - cur,
{
    lemma_scan_advances(src, cur);
    match scan(src, cur) {
        Scan::Found { token, end } => {
            if token != target {
                lemma_seek_bounds(src, end, target, missing);
            }
        },
        _ => {},
    }
}

/// A skipped body ends behind where the skip started, within the source.
pub proof fn lemma_skip_bounds(src: Seq<char>, cur: int, depth: nat)
    requires
        0 <= cur <= src.len(),
    ensures
        skip_from(src, cur, depth) matches Ok(pos) ==> cur < pos <= src.len(),
    decreases src.len() - cur,
{
    lemma_scan_advances(src, cur);
    match scan(src, cur) {
        Scan::Found { token, end } => {
            if token == Token::Mark(Glyph::OpenSquiggle) {
                lemma_skip_bounds(src, end, depth + 1);
            } else if token == Token::Mark(Glyph::CloseSquiggle) {
                if depth > 1 {
                    lemma_skip_bounds(src, end, (depth - 1) as nat);
                }
            } else {
                lemma_skip_bounds(src, end, depth);
            }
        },
        _ => {},
    }
}

/// The table of functions that a pass over the source from the cursor `cur`
/// on adds to `table`, and the error that ended the pass, if any.
///
/// The pass goes character by character and looks only for comments, which
/// it skips, and for define marks. Behind a define mark it reads a name, which
/// is a run of letters and may be empty, looks for the next opening brace,
/// and enters the name with the cursor in front of that brace. It then goes
/// on behind that cursor: it does not skip the body, so a function defined
/// within another body is entered too, and a later definition of a name
/// replaces an earlier one.
pub open spec fn register_from(src: Seq<char>, cur: int, table: Map<Seq<char>, usize>) -> (
    Map<Seq<char>, usize>,
    Option<Error>,
)
    decreases src.len() - cur,
    when 0 <= cur <= src.len()
{
    let p = cur + 1;
    if p >= src.len() {
        (table, None)
    } else if occurs_at(src, p, comment_mark()) {
        proof {
            lemma_run_end(src, p + 1, Run::Line);
        }
        register_from(src, run_end(src, p + 1, Run::Line), table)
    } else if src[p] == '#' {
        let e = run_end(src, p + 1, Run::Name);
        match seek_from(
            src,
            e - 1,
            Token::Mark(Glyph::OpenSquiggle),
            Error::MissingBody,
        ) {
            Ok(pos) => {
                proof {
                    lemma_run_end(src, p + 1, Run::Name);
                    lemma_seek_bounds(
                        src,
                        e - 1,
                        Token::Mark(Glyph::OpenSquiggle),
                        Error::MissingBody,
                    );
                }
                register_from(src, pos, table.insert(src.subrange(p + 1, e), pos as usize))
            },
            Err(err) => (table, Some(err)),
        }
    } else {
        register_from(src, p, table)
    }
}

/// A pass enters only cursors that lie within the source.
pub proof fn lemma_register_bounds(src: Seq<char>, cur: int, table: Map<Seq<char>, usize>)
    requires
        0 <= cur <= src.len() <= usize::MAX,
        forall|name: Seq<char>| #[trigger] table.contains_key(name) ==> table[name] <= src.len(),
    ensures
        forall|name: Seq<char>| #[trigger]
            register_from(src, cur, table).0.contains_key(name) ==> register_from(
                src,
                cur,
                table,
            ).0[name] <= src.len(),
    decreases src.len() - cur,
{
    let p = cur + 1;
    if p >= src.len() {
    } else if occurs_at(src, p, comment_mark()) {
        let next = run_end(src, p + 1, Run::Line);
        lemma_run_end(src, p + 1, Run::Line);
        lemma_register_bounds(src, next, table);
        assert(register_from(src, cur, table) == register_from(src, next, table));
    } else if src[p] == '#' {
        let e = run_end(src, p + 1, Run::Name);
        lemma_run_end(src, p + 1, Run::Name);
        let from = e - 1;
        lemma_seek_bounds(src, from, Token::Mark(Glyph::OpenSquiggle), Error::MissingBody);
        match seek_from(src, from, Token::Mark(Glyph::OpenSquiggle), Error::MissingBody) {
            Ok(pos) => {
                let entered = table.insert(src.subrange(p + 1, e), pos as usize);
                lemma_register_bounds(src, pos, entered);
                assert(register_from(src, cur, table) == register_from(src, pos, entered));
            },
            Err(_) => {},
        }
    } else {
        lemma_register_bounds(src, p, table);
        assert(register_from(src, cur, table) == register_from(src, p, table));
    }
}

/// The source text and the cursor into it.
pub struct Lexer {
    chars: Vec<char>,
    current: usize,
}

fn ends(kind: Run, c: char) -> (b: bool)
    ensures
        b == ends_run(kind, c),
{
    match kind {
        Run::Digits => !ascii_digit(c),
        Run::Name => !ascii_alpha(c),
        Run::Line => c == '\n',
        Run::Quoted(q) => c == q,
    }
}

fn single_op(c: char) -> (r: Option<Op>)
    ensures
        match single(c) {
            Some(t) => r matches Some(op) && op@ == t,
            None => r is None,
        },
{
    if c == '<' {
        Some(Op::Operator(Operator::LessThan))
    } else if c == '>' {
        Some(Op::Operator(Operator::GreaterThan))
    } else if c == '+' {
        Some(Op::Operator(Operator::Add))
    } else if c == '-' {
        Some(Op::Operator(Operator::Sub))
    } else if c == '.' {
        Some(Op::Operator(Operator::Print))
    } else if c == '*' {
        Some(Op::Operator(Operator::Mul))
    } else if c == '/' {
        Some(Op::Operator(Operator::Div))
    } else if c == '?' {
        Some(Op::Operator(Operator::Cond))
    } else if c == ',' {
        Some(Op::Operator(Operator::Pop))
    } else if c == ';' {
        Some(Op::Operator(Operator::Clear))
    } else if c == '{' {
        Some(Op::Glyph(Glyph::OpenSquiggle))
    } else if c == '}' {
        Some(Op::Glyph(Glyph::CloseSquiggle))
    } else if c == '~' {
        Some(Op::Glyph(Glyph::Loop))
    } else if c == '$' {
        Some(Op::Glyph(Glyph::Break))
    } else if c == ':' {
        Some(Op::Glyph(Glyph::Else))
    } else if c == '#' {
        Some(Op::Glyph(Glyph::Define))
    } else {
        None
    }
}

impl Lexer {
    #[verifier::type_invariant]
    spec fn inv(&self) -> bool {
        self.current <= self.chars.len()
    }

    /// The source text, with the line feed in front of the program.
    pub closed spec fn source(&self) -> Seq<char> {
        self.chars@
    }

    /// The cursor: the position of the last character consumed.
    pub closed spec fn cursor(&self) -> int {
        self.current as int
    }

    /// The source is held in memory, so that every position in it is a
    /// `usize`.
    pub proof fn lemma_source_fits(&self)
        ensures
            self.source().len() <= usize::MAX,
    {
        assert(self.chars@.len() == self.chars.len());
    }

    /// A tokenizer for the program `file`, with the cursor in front of its
    /// first character.
    pub fn new(file: String) -> (l: Lexer)
        ensures
            l.source() == seq!['\n'] + file@,
            l.cursor() == 0,
    {
        let mut chars: Vec<char> = Vec::new();
        chars.push('\n');
        for c in it: file.as_str().chars()
            invariant
                chars@ == seq!['\n'] + it.seq().take(it.index() as int),
        {
            chars.push(c);
        }
        Lexer { chars, current: 0 }
    }

    /// The cursor, which is never behind the end of the source.
    pub fn position(&self) -> (p: usize)
        ensures
            p == self.cursor(),
            p <= self.source().len(),
    {
        proof {
            use_type_invariant(self);
        }
        self.current
    }

    /// The length of the source.
    pub fn len(&self) -> (n: usize)
        ensures
            n == self.source().len(),
    {
        self.chars.len()
    }

    /// Moves the cursor to `pos`.
    pub fn jump(&mut self, pos: usize)
        requires
            pos <= old(self).source().len(),
        ensures
            final(self).source() == old(self).source(),
            final(self).cursor() == pos,
    {
        self.current = pos;
    }

    /// The source from the cursor to its end, for an error report.
    pub fn context(&self) -> (s: String)
        ensures
            s@ == self.source().subrange(self.cursor(), self.source().len() as int),
    {
        proof {
            use_type_invariant(self);
        }
        self.slice(self.current, self.chars.len())
    }

    fn slice(&self, from: usize, to: usize) -> (s: String)
        requires
            from <= to <= self.source().len(),
        ensures
            s@ == self.source().subrange(from as int, to as int),
    {
        let mut s = String::new();
        let mut i = from;
        while i < to
            invariant
                from <= i <= to <= self.chars@.len(),
                s@ == self.chars@.subrange(from as int, i as int),
            decreases to - i,
        {
            s.push(self.chars[i]);
            i += 1;
        }
        s
    }

    fn scan_run(&self, from: usize, kind: Run) -> (e: usize)
        requires
            from <= self.source().len(),
        ensures
            e == run_end(self.source(), from as int, kind),
            from <= e <= self.source().len(),
    {
        let mut i = from;
        while i < self.chars.len() && !ends(kind, self.chars[i])
            invariant
                from <= i <= self.chars@.len(),
                run_end(self.chars@, from as int, kind) == run_end(self.chars@, i as int, kind),
            decreases self.chars@.len() - i,
        {
            i += 1;
        }
        i
    }

    /// Whether the characters of `s` stand in the source from the cursor on.
    /// If so, the cursor moves to the last of them.
    pub fn is_str(&mut self, s: &str) -> (b: bool)
        requires
            s@.len() >= 1,
        ensures
            final(self).source() == old(self).source(),
            b == occurs_at(old(self).source(), old(self).cursor(), s@),
            final(self).cursor() == if b {
                old(self).cursor() + s@.len() - 1
            } else {
                old(self).cursor()
            },
    {
        proof {
            use_type_invariant(&*self);
        }
        let n = s.unicode_len();
        let len = self.chars.len();
        if n > len - self.current {
            return false;
        }
        let mut i: usize = 0;
        while i < n
            invariant
                n == s@.len(),
                i <= n,
                len == self.chars@.len(),
                self.current + n <= len,
                forall|j: int| 0 <= j < i ==> self.chars@[self.current + j] == s@[j],
            decreases n - i,
        {
            if self.chars[self.current + i] != s.get_char(i) {
                return false;
            }
            i += 1;
        }
        assert(self.chars@.subrange(self.current as int, self.current + n) =~= s@);
        self.current = self.current + n - 1;
        true
    }

    /// Moves the cursor to the end of the line: to the next line feed at or
    /// behind the cursor, or to the end of the source.
    pub fn comment(&mut self)
        ensures
            final(self).source() == old(self).source(),
            final(self).cursor() == run_end(old(self).source(), old(self).cursor(), Run::Line),
    {
        proof {
            use_type_invariant(&*self);
        }
        let e = self.scan_run(self.current, Run::Line);
        self.current = e;
    }

    /// Reads a name: the cursor first moves on by `offset`, and the name is
    /// the run of letters that starts there. The cursor ends on the last
    /// letter of the name; where the name is empty, it ends one position in
    /// front of where the name would have started.
    pub fn read_until_space(&mut self, offset: usize) -> (s: String)
        requires
            1 <= old(self).cursor() + offset <= old(self).source().len(),
        ensures
            final(self).source() == old(self).source(),
            ({
                let from = old(self).cursor() + offset;
                let e = run_end(old(self).source(), from, Run::Name);
                s@ == old(self).source().subrange(from, e) && final(self).cursor() == e - 1
            }),
    {
        let len = self.chars.len();
        let from = self.current + offset;
        let e = self.scan_run(from, Run::Name);
        let s = self.slice(from, e);
        self.current = e - 1;
        s
    }

    /// Reads the integer literal whose first digit stands at the cursor. The
    /// cursor ends on its last digit.
    pub fn read_num(&mut self) -> (r: Result<i32, Error>)
        requires
            old(self).cursor() < old(self).source().len(),
            is_digit(old(self).source()[old(self).cursor()]),
        ensures
            final(self).source() == old(self).source(),
            ({
                let src = old(self).source();
                let p = old(self).cursor();
                let e = run_end(src, p, Run::Digits);
                let n = decimal_value(src.subrange(p, e));
                if n <= i32::MAX {
                    r == Ok::<i32, Error>(n as i32) && final(self).cursor() == e - 1
                } else {
                    r == Err::<i32, Error>(Error::NumberTooLarge) && final(self).cursor() == p
                }
            }),
    {
        let start = self.current;
        let mut i = start;
        let mut acc: u64 = 0;
        let mut fits = true;
        while i < self.chars.len() && ascii_digit(self.chars[i])
            invariant
                start <= i <= self.chars@.len(),
                run_end(self.chars@, start as int, Run::Digits) == run_end(
                    self.chars@,
                    i as int,
                    Run::Digits,
                ),
                fits ==> acc == decimal_value(self.chars@.subrange(start as int, i as int)) && acc
                    <= i32::MAX,
                !fits ==> decimal_value(self.chars@.subrange(start as int, i as int)) > i32::MAX,
            decreases self.chars@.len() - i,
        {
            let d = (self.chars[i] as u32 - '0' as u32) as u64;
            assert(self.chars@.subrange(start as int, i + 1).drop_last() =~= self.chars@.subrange(
                start as int,
                i as int,
            ));
            if fits {
                let next = acc * 10 + d;
                if next > i32::MAX as u64 {
                    fits = false;
                } else {
                    acc = next;
                }
            }
            i += 1;
        }
        if fits {
            self.current = i - 1;
            Ok(acc as i32)
        } else {
            Err(Error::NumberTooLarge)
        }
    }

    /// Reads the text literal whose opening quote stands at the cursor. The
    /// text runs up to the next quote of the same kind, on which the cursor
    /// ends. A literal without that quote is an error.
    pub fn read_str(&mut self) -> (r: Result<String, Error>)
        requires
            old(self).cursor() < old(self).source().len(),
        ensures
            final(self).source() == old(self).source(),
            ({
                let src = old(self).source();
                let p = old(self).cursor();
                let e = run_end(src, p + 1, Run::Quoted(src[p]));
                if e < src.len() {
                    r matches Ok(s) && s@ == src.subrange(p + 1, e) && final(self).cursor() == e
                } else {
                    r == Err::<String, Error>(Error::UnterminatedText) && final(self).cursor()
                        == p
                }
            }),
    {
        let n = self.chars.len();
        let q = self.chars[self.current];
        let from = self.current + 1;
        let e = self.scan_run(from, Run::Quoted(q));
        if e >= n {
            return Err(Error::UnterminatedText);
        }
        let s = self.slice(from, e);
        self.current = e;
        Ok(s)
    }

    /// Produces the next token and moves the cursor behind it. Whitespace and
    /// comments in front of the token are skipped. The result is `None`
    /// where the source is exhausted.
    pub fn next(&mut self) -> (r: Result<Option<Op>, Error>)
        ensures
            final(self).source() == old(self).source(),
            match scan(old(self).source(), old(self).cursor()) {
                Scan::Found { token, end } => {
                    &&& r matches Ok(Some(op)) && op@ == token
                    &&& final(self).cursor() == end
                },
                Scan::Exhausted => {
                    &&& r matches Ok(None)
                    &&& final(self).cursor() == old(self).source().len()
                },
                Scan::Failed(e) => {
                    &&& r == Err::<Option<Op>, Error>(e)
                    &&& final(self).cursor() == old(self).cursor()
                },
            },
    {
        proof {
            use_type_invariant(&*self);
            reveal_strlit("//");
            reveal_strlit("true");
            reveal_strlit("false");
            reveal_strlit("==");
            reveal_strlit("!=");
            reveal_strlit("[]");
        }
        let start = self.current;
        let n = self.chars.len();
        loop
            invariant
                self.chars@ == old(self).chars@,
                n == self.chars@.len(),
                start == old(self).current,
                start <= self.current <= n,
                token_start(self.chars@, self.current as int) == token_start(
                    self.chars@,
                    start as int,
                ),
                "//"@ == comment_mark(),
                "true"@ == text_true(),
                "false"@ == text_false(),
                "=="@ == seq!['=', '='],
                "!="@ == seq!['!', '='],
                "[]"@ == seq!['[', ']'],
            decreases n - self.current,
        {
            if self.current >= n || self.current + 1 >= n {
                self.current = n;
                return Ok(None);
            }
            self.current = self.current + 1;
            let c = self.chars[self.current];
            if self.is_str("//") {
                proof {
                    lemma_run_end(self.chars@, self.current as int, Run::Line);
                }
                self.comment();
            } else if ascii_digit(c) {
                match self.read_num() {
                    Ok(v) => {
                        return Ok(Some(Op::Operand(Operand::Int(v))));
                    },
                    Err(e) => {
                        self.current = start;
                        return Err(e);
                    },
                }
            } else if self.is_str("true") {
                return Ok(Some(Op::Operand(Operand::Bool(true))));
            } else if self.is_str("false") {
                return Ok(Some(Op::Operand(Operand::Bool(false))));
            } else if c == '"' || c == '\'' {
                match self.read_str() {
                    Ok(s) => {
                        return Ok(Some(Op::Operand(Operand::String(s))));
                    },
                    Err(e) => {
                        self.current = start;
                        return Err(e);
                    },
                }
            } else if self.is_str("==") {
                return Ok(Some(Op::Operator(Operator::Equal)));
            } else if self.is_str("!=") {
                return Ok(Some(Op::Operator(Operator::NotEqual)));
            } else if self.is_str("[]") {
                return Ok(Some(Op::Operator(Operator::Index)));
            } else if c == '=' {
                let name = self.read_until_space(1);
                return Ok(Some(Op::Operator(Operator::Assign(name))));
            } else {
                match single_op(c) {
                    Some(op) => {
                        return Ok(Some(op));
                    },
                    None => {
                        if ascii_alpha(c) {
                            let name = self.read_until_space(0);
                            return Ok(Some(Op::Operator(Operator::Access(name))));
                        } else if !ascii_space(c) {
                            self.current = start;
                            return Err(Error::UnrecognizedChar(c));
                        }
                    },
                }
            }
        }
    }

    /// The next token, with the cursor left where it is.
    pub fn peek(&mut self) -> (r: Result<Option<Op>, Error>)
        ensures
            final(self).source() == old(self).source(),
            final(self).cursor() == old(self).cursor(),
            match scan(old(self).source(), old(self).cursor()) {
                Scan::Found { token, end } => r matches Ok(Some(op)) && op@ == token,
                Scan::Exhausted => r matches Ok(None),
                Scan::Failed(e) => r == Err::<Option<Op>, Error>(e),
            },
    {
        proof {
            use_type_invariant(&*self);
        }
        let old_pos = self.current;
        let op = self.next();
        self.current = old_pos;
        op
    }


    /// Moves the cursor forward until the token `op` is the next one to be
    /// produced. Fails with `err` where the source holds no such token behind
    /// the cursor.
    pub fn seek(&mut self, op: Op, err: Error) -> (r: Result<(), Error>)
        ensures
            final(self).source() == old(self).source(),
            match seek_from(old(self).source(), old(self).cursor(), op@, err) {
                Ok(pos) => r is Ok && final(self).cursor() == pos,
                Err(e) => r == Err::<(), Error>(e) && final(self).cursor() == old(self).cursor(),
            },
    {
        proof {
            use_type_invariant(&*self);
        }
        let start = self.current;
        let mut before = self.current;
        loop
            invariant
                self.chars@ == old(self).chars@,
                start == old(self).current,
                start <= before <= self.chars@.len(),
                before == self.current,
                seek_from(self.chars@, before as int, op@, err) == seek_from(
                    self.chars@,
                    start as int,
                    op@,
                    err,
                ),
            decreases self.chars@.len() - self.current,
        {
            proof {
                lemma_scan_advances(self.chars@, before as int);
            }
            match self.next() {
                Ok(Some(o)) => {
                    if o == op {
                        self.current = before;
                        return Ok(());
                    }
                },
                Ok(None) => {
                    self.current = start;
                    return Err(err);
                },
                Err(e) => {
                    self.current = start;
                    return Err(e);
                },
            }
            before = self.current;
        }
    }

    /// Skips a body: moves the cursor behind the closing brace that matches
    /// the next opening brace. Nested bodies are skipped with it.
    pub fn exit_body(&mut self) -> (r: Result<(), Error>)
        ensures
            final(self).source() == old(self).source(),
            match skip_from(old(self).source(), old(self).cursor(), 0) {
                Ok(pos) => r is Ok && final(self).cursor() == pos,
                Err(e) => r == Err::<(), Error>(e) && final(self).cursor() == old(self).cursor(),
            },
    {
        proof {
            use_type_invariant(&*self);
        }
        let start = self.current;
        let mut skips: usize = 0;
        loop
            invariant
                self.chars@ == old(self).chars@,
                start == old(self).current,
                start <= self.current <= self.chars@.len(),
                skips <= self.current,
                skip_from(self.chars@, self.current as int, skips as nat) == skip_from(
                    self.chars@,
                    start as int,
                    0,
                ),
            decreases self.chars@.len() - self.current,
        {
            proof {
                lemma_scan_advances(self.chars@, self.current as int);
            }
            match self.next() {
                Ok(Some(op)) => match op {
                    Op::Glyph(Glyph::OpenSquiggle) => {
                        skips += 1;
                    },
                    Op::Glyph(Glyph::CloseSquiggle) => {
                        if skips == 0 {
                            self.current = start;
                            return Err(Error::UnbalancedBody);
                        } else if skips == 1 {
                            return Ok(());
                        } else {
                            skips -= 1;
                        }
                    },
                    _ => {},
                },
                Ok(None) => {
                    self.current = start;
                    return Err(Error::UnbalancedBody);
                },
                Err(e) => {
                    self.current = start;
                    return Err(e);
                },
            }
        }
    }

    /// Finds the function definitions from the cursor on and enters them in
    /// the table of `var_store`; then moves the cursor to the start of the
    /// source. Where the pass fails, the table holds what was entered up to
    /// there and the cursor is left where it was.
    pub fn register_functions(&mut self, var_store: &mut VarStore) -> (r: Result<(), Error>)
        ensures
            final(self).source() == old(self).source(),
            final(var_store).scopes() == old(var_store).scopes(),
            ({
                let (table, failure) = register_from(
                    old(self).source(),
                    old(self).cursor(),
                    old(var_store).funcs(),
                );
                &&& final(var_store).funcs() == table
                &&& match failure {
                    None => r is Ok && final(self).cursor() == 0,
                    Some(e) => {
                        &&& r == Err::<(), Error>(e)
                        &&& final(self).cursor() == old(self).cursor()
                    },
                }
            }),
    {
        proof {
            use_type_invariant(&*self);
            reveal_strlit("//");
        }
        let start = self.current;
        let n = self.chars.len();
        while self.current < n && self.current + 1 < n
            invariant
                self.chars@ == old(self).chars@,
                n == self.chars@.len(),
                start == old(self).current,
                start <= self.current <= n,
                var_store.scopes() == old(var_store).scopes(),
                register_from(self.chars@, self.current as int, var_store.funcs()) == register_from(
                    self.chars@,
                    start as int,
                    old(var_store).funcs(),
                ),
                "//"@ == comment_mark(),
            decreases n - self.current,
        {
            self.current = self.current + 1;
            let c = self.chars[self.current];
            if self.is_str("//") {
                proof {
                    lemma_run_end(self.chars@, self.current as int, Run::Line);
                }
                self.comment();
            } else if c == '#' {
                proof {
                    let e = run_end(self.chars@, self.current + 1, Run::Name);
                    lemma_run_end(self.chars@, self.current + 1, Run::Name);
                    lemma_seek_bounds(
                        self.chars@,
                        e - 1,
                        Token::Mark(Glyph::OpenSquiggle),
                        Error::MissingBody,
                    );
                }
                let name = self.read_until_space(1);
                match self.seek(Op::Glyph(Glyph::OpenSquiggle), Error::MissingBody) {
                    Ok(()) => {
                        var_store.set_func(name, self.current);
                    },
                    Err(e) => {
                        self.current = start;
                        return Err(e);
                    },
                }
            }
        }
        self.current = 0;
        Ok(())
    }
}

} // verus!
