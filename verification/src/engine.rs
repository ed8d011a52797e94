//! The execution engine.
//!
//! The engine takes one token after the other from the tokenizer and applies
//! it to the operand stack, the scope store and the stack of control-flow
//! frames. A loop, a break, a call and a return are jumps of the cursor.
//!
//! [`Machine`] is the state of a run as plain mathematical data, and [`step`]
//! defines what one token does to it. [`Interpreter::step`] does exactly that.

use crate::error::Error;
use crate::lexer::{
    lemma_register_bounds, lemma_scan_advances, lemma_seek_bounds, lemma_skip_bounds,
    register_from, scan, seek_from, skip_from, Lexer, Scan,
};
use crate::scope::{bind, lookup, Scope, VarStore};
use crate::stack::{
    add_spec, cond_spec, div_spec, equal_spec, greater_spec, index_spec, less_spec, mul_spec,
    sub_spec, top_line, OpStack,
};
use crate::token::{Action, Glyph, Op, Operator, Token};
use crate::value::Value;
use vstd::prelude::*;

verus! {

/// A control-flow frame: what the closing brace of an open body has to do.
#[derive(Clone, Copy, Debug, PartialEq, Eq, Structural)]
pub enum Brace {
    /// A plain body: nothing.
    Open,
    /// The body of a loop: go back to the cursor behind its opening brace.
    OpenFor(usize),
    /// The body of a function: return to the cursor of the call.
    OpenFunc(usize),
}

/// The state of a run.
#[verifier::ext_equal]
pub struct Machine {
    /// The source text.
    pub src: Seq<char>,
    /// The cursor into it.
    pub cursor: int,
    /// The operand stack, the top last.
    pub stack: Seq<Value>,
    /// The scopes, the global one first.
    pub scopes: Seq<Scope>,
    /// The table of functions.
    pub funcs: Map<Seq<char>, usize>,
    /// The open bodies, the innermost last.
    pub frames: Seq<Brace>,
    /// A loop mark was seen, and the next opening brace opens its body.
    pub loop_pending: bool,
    /// A call has jumped to a function, and the next opening brace opens its
    /// body: the cursor to return to.
    pub call_pending: Option<usize>,
}

/// What one step of a run does.
#[verifier::ext_equal]
pub enum Effect {
    /// The run goes on in the state `machine`, after writing the line
    /// `output` if there is one.
    Next { machine: Machine, output: Option<Seq<char>> },
    /// The run has come to its end.
    Halt,
    /// The run is aborted.
    Fail(Error),
}

/// The number of function bodies among the frames.
pub open spec fn calls(frames: Seq<Brace>) -> nat
    decreases frames.len(),
{
    if frames.len() == 0 {
        0
    } else if frames.last() is OpenFunc {
        calls(frames.drop_last()) + 1
    } else {
        calls(frames.drop_last())
    }
}

/// The position among the frames of the innermost one that is not plain, or
/// -1 where all are plain: the frame that a break leaves.
pub open spec fn exit_frame(frames: Seq<Brace>) -> int
    decreases frames.len(),
{
    if frames.len() == 0 {
        -1
    } else if frames.last() is Open {
        exit_frame(frames.drop_last())
    } else {
        frames.len() - 1
    }
}

/// Whether the cursor that a frame holds can be jumped to.
pub open spec fn frame_ok(src: Seq<char>, frame: Brace) -> bool {
    match frame {
        Brace::Open => true,
        Brace::OpenFor(pos) => 1 <= pos <= src.len(),
        Brace::OpenFunc(ret) => ret <= src.len(),
    }
}

impl Machine {
    /// The state in which a run of the source `src` with the functions
    /// `funcs` starts: the cursor at the start, an empty operand stack, an empty
    /// global scope, no open body.
    pub open spec fn initial(src: Seq<char>, funcs: Map<Seq<char>, usize>) -> Machine {
        Machine {
            src,
            cursor: 0,
            stack: Seq::empty(),
            scopes: seq![Map::empty()],
            funcs,
            frames: Seq::empty(),
            loop_pending: false,
            call_pending: None,
        }
    }

    /// What holds of every state that a run reaches: every cursor that the
    /// state holds lies within the source, and besides the global scope there
    /// is a scope for every call that has not returned.
    pub open spec fn valid(self) -> bool {
        &&& 0 <= self.cursor <= self.src.len() <= usize::MAX
        &&& self.scopes.len() >= 1 + calls(self.frames) + if self.call_pending is Some {
            1nat
        } else {
            0nat
        }
        &&& forall|i: int|
            0 <= i < self.frames.len() ==> frame_ok(self.src, #[trigger] self.frames[i])
        &&& forall|name: Seq<char>| #[trigger]
            self.funcs.contains_key(name) ==> self.funcs[name] <= self.src.len()
        &&& self.call_pending matches Some(ret) ==> ret <= self.src.len()
    }

    /// The run goes on in this state, without output.
    pub open spec fn go(self) -> Effect {
        Effect::Next { machine: self, output: None }
    }

    /// The run goes on with the operand stack that `r` gives, or fails with
    /// the error that it gives.
    pub open spec fn with_stack(self, r: Result<Seq<Value>, Error>) -> Effect {
        match r {
            Ok(stack) => Machine { stack, ..self }.go(),
            Err(e) => Effect::Fail(e),
        }
    }

    /// What an action does.
    ///
    /// A name is looked up among the variables first, and its value pushed.
    /// A name that is no variable but a function is called: the cursor is kept
    /// as the place to return to, a new scope is opened, and the cursor jumps in
    /// front of the function's body.
    pub open spec fn act(self, a: Action) -> Effect {
        match a {
            Action::Add => self.with_stack(add_spec(self.stack)),
            Action::Sub => self.with_stack(sub_spec(self.stack)),
            Action::Mul => self.with_stack(mul_spec(self.stack)),
            Action::Div => self.with_stack(div_spec(self.stack)),
            Action::Equal => self.with_stack(equal_spec(self.stack, false)),
            Action::NotEqual => self.with_stack(equal_spec(self.stack, true)),
            Action::LessThan => self.with_stack(less_spec(self.stack)),
            Action::GreaterThan => self.with_stack(greater_spec(self.stack)),
            Action::Index => self.with_stack(index_spec(self.stack)),
            Action::Print => Effect::Next { machine: self, output: Some(top_line(self.stack)) },
            Action::Pop => if self.stack.len() > 0 {
                Machine { stack: self.stack.drop_last(), ..self }.go()
            } else {
                Effect::Fail(Error::StackUnderflow)
            },
            Action::Clear => Machine { stack: Seq::empty(), ..self }.go(),
            Action::Cond => match cond_spec(self.stack, self.src, self.cursor) {
                Ok((stack, cursor)) => Machine { stack, cursor, ..self }.go(),
                Err(e) => Effect::Fail(e),
            },
            Action::Assign(name) => if self.stack.len() > 0 {
                Machine {
                    stack: self.stack.drop_last(),
                    scopes: bind(self.scopes, name, self.stack.last()),
                    ..self
                }.go()
            } else {
                Effect::Fail(Error::EmptyAssign)
            },
            Action::Access(name) => match lookup(self.scopes, name) {
                Some(v) => Machine { stack: self.stack.push(v), ..self }.go(),
                None => if self.funcs.contains_key(name) {
                    Machine {
                        cursor: self.funcs[name] as int,
                        scopes: self.scopes.push(Map::empty()),
                        call_pending: Some(self.cursor as usize),
                        ..self
                    }.go()
                } else {
                    Effect::Fail(Error::UnknownName)
                },
            },
        }
    }

    /// What an opening brace does: it opens the body of the pending loop, or
    /// else of the pending call, or else a plain body.
    pub open spec fn open(self) -> Effect {
        if self.loop_pending {
            Machine {
                frames: self.frames.push(Brace::OpenFor(self.cursor as usize)),
                loop_pending: false,
                ..self
            }.go()
        } else if self.call_pending is Some {
            Machine {
                frames: self.frames.push(Brace::OpenFunc(self.call_pending->0)),
                call_pending: None,
                ..self
            }.go()
        } else {
            Machine { frames: self.frames.push(Brace::Open), ..self }.go()
        }
    }

    /// What a closing brace does. It closes a plain body. It sends a loop
    /// round: the cursor goes back behind the opening brace, and the frame
    /// stays. It returns from a function: the cursor goes back to the call, the
    /// scope of the call is dropped and the frame closed.
    pub open spec fn close(self) -> Effect {
        if self.frames.len() == 0 {
            Effect::Fail(Error::UnmatchedClose)
        } else {
            match self.frames.last() {
                Brace::Open => Machine { frames: self.frames.drop_last(), ..self }.go(),
                Brace::OpenFor(pos) => Machine { cursor: pos as int, ..self }.go(),
                Brace::OpenFunc(ret) => Machine {
                    cursor: ret as int,
                    scopes: self.scopes.drop_last(),
                    frames: self.frames.drop_last(),
                    ..self
                }.go(),
            }
        }
    }

    /// What a break does. The plain frames on top are closed. Where a loop
    /// frame is below them, the body of the loop is skipped from in front of
    /// its opening brace, and the frame closed. Where a function frame is
    /// below them, the break acts as a return: the cursor goes back to the
    /// call and the frame is closed. The operand stack is not unwound, and the
    /// scope of the call stays open. Whether a break should leave a function
    /// at all is an open question of the language; programs may rely on it.
    pub open spec fn leave(self) -> Effect {
        let i = exit_frame(self.frames);
        if i < 0 {
            Effect::Fail(Error::BreakOutsideLoop)
        } else {
            match self.frames[i] {
                Brace::OpenFor(pos) => match skip_from(self.src, pos - 1, 0) {
                    Ok(end) => Machine { cursor: end, frames: self.frames.take(i), ..self }.go(),
                    Err(e) => Effect::Fail(e),
                },
                Brace::OpenFunc(ret) => Machine {
                    cursor: ret as int,
                    frames: self.frames.take(i),
                    ..self
                }.go(),
                Brace::Open => Effect::Fail(Error::BreakOutsideLoop),
            }
        }
    }

    /// What an else mark or a define mark does when the run meets it: the
    /// body behind it is skipped. An else mark is met where the body in front
    /// of it has run; the body of a function runs only when it is called.
    pub open spec fn pass_body(self) -> Effect {
        let body = Token::Mark(Glyph::OpenSquiggle);
        match seek_from(self.src, self.cursor, body, Error::MissingBody) {
            Ok(pos) => match skip_from(self.src, pos, 0) {
                Ok(end) => Machine { cursor: end, ..self }.go(),
                Err(e) => Effect::Fail(e),
            },
            Err(e) => Effect::Fail(e),
        }
    }

    /// What a structural mark does.
    pub open spec fn mark(self, g: Glyph) -> Effect {
        match g {
            Glyph::Loop => Machine { loop_pending: true, ..self }.go(),
            Glyph::OpenSquiggle => self.open(),
            Glyph::CloseSquiggle => self.close(),
            Glyph::Break => self.leave(),
            Glyph::Else => self.pass_body(),
            Glyph::Define => self.pass_body(),
        }
    }

    /// What the token `token` does, the cursor standing behind it.
    pub open spec fn apply(self, token: Token) -> Effect {
        match token {
            Token::Literal(v) => Machine { stack: self.stack.push(v), ..self }.go(),
            Token::Action(a) => self.act(a),
            Token::Mark(g) => self.mark(g),
        }
    }
}

/// One step of a run: the next token is produced and applied. A run ends
/// where the source is exhausted, and ends well only if no body is open then
/// and no loop mark waits for its body.
pub open spec fn step(m: Machine) -> Effect {
    match scan(m.src, m.cursor) {
        Scan::Found { token, end } => Machine { cursor: end, ..m }.apply(token),
        Scan::Exhausted => if m.frames.len() > 0 {
            Effect::Fail(Error::UnclosedBody)
        } else if m.loop_pending {
            Effect::Fail(Error::MissingBody)
        } else {
            Effect::Halt
        },
        Scan::Failed(e) => Effect::Fail(e),
    }
}

/// How a run of a bounded number of steps ended.
#[derive(Clone, Copy, Debug, PartialEq, Eq, Structural)]
pub enum Status {
    /// The source is exhausted and nothing is left open.
    Finished,
    /// The run was aborted.
    Failed(Error),
    /// The steps were used up before the run came to an end.
    Paused,
}

/// A run of a bounded number of steps: the state it leads to, the lines it
/// writes, and how it ends.
#[verifier::ext_equal]
pub struct Trace {
    pub machine: Machine,
    pub output: Seq<Seq<char>>,
    pub status: Status,
}

impl Trace {
    /// The run that ends in the state `machine` at once, with nothing
    /// written.
    pub open spec fn end(machine: Machine, status: Status) -> Trace {
        Trace { machine, output: Seq::empty(), status }
    }
}

/// The run of at most `limit` steps from the state `m`. A program may loop
/// for ever: then every bounded run of it is paused.
pub open spec fn run(m: Machine, limit: nat) -> Trace
    decreases limit,
{
    if limit == 0 {
        Trace::end(m, Status::Paused)
    } else {
        match step(m) {
            Effect::Next { machine, output } => {
                let rest = run(machine, (limit - 1) as nat);
                match output {
                    Some(line) => Trace { output: seq![line] + rest.output, ..rest },
                    None => rest,
                }
            },
            Effect::Halt => Trace::end(m, Status::Finished),
            Effect::Fail(e) => Trace::end(m, Status::Failed(e)),
        }
    }
}

/// What a vector of lines stands for.
pub open spec fn lines(v: Seq<String>) -> Seq<Seq<char>> {
    Seq::new(v.len(), |i: int| v[i]@)
}

/// Closing frames does not add calls.
pub proof fn lemma_calls_take(frames: Seq<Brace>, i: int)
    requires
        0 <= i <= frames.len(),
    ensures
        calls(frames.take(i)) <= calls(frames),
    decreases frames.len(),
{
    if i < frames.len() {
        assert(frames.drop_last().take(i) =~= frames.take(i));
        lemma_calls_take(frames.drop_last(), i);
    } else {
        assert(frames.take(i) =~= frames);
    }
}

/// The frame that a break leaves is the innermost one that is not plain.
pub proof fn lemma_exit_frame(frames: Seq<Brace>)
    ensures
        -1 <= exit_frame(frames) < frames.len(),
        exit_frame(frames) >= 0 ==> !(frames[exit_frame(frames)] is Open),
        forall|j: int| exit_frame(frames) < j < frames.len() ==> #[trigger] frames[j] is Open,
    decreases frames.len(),
{
    if frames.len() > 0 && frames.last() is Open {
        lemma_exit_frame(frames.drop_last());
        assert forall|j: int| exit_frame(frames) < j < frames.len() implies #[trigger] frames[j]
            is Open by {
            if j < frames.len() - 1 {
                assert(frames.drop_last()[j] is Open);
            }
        }
    }
}

/// A step keeps the source and the table of functions, and leads from a
/// valid state to a valid state.
pub proof fn lemma_step_valid(m: Machine)
    requires
        m.valid(),
    ensures
        step(m) matches Effect::Next { machine, .. } ==> machine.valid() && machine.src == m.src
            && machine.funcs == m.funcs,
{
    lemma_scan_advances(m.src, m.cursor);
    match scan(m.src, m.cursor) {
        Scan::Found { token, end } => {
            let at = Machine { cursor: end, ..m };
            lemma_apply_valid(at, token);
        },
        _ => {},
    }
}

/// Applying a token keeps the source and the table of functions, and leads
/// from a valid state to a valid state.
pub proof fn lemma_apply_valid(m: Machine, token: Token)
    requires
        m.valid(),
        m.cursor >= 1,
    ensures
        m.apply(token) matches Effect::Next { machine, .. } ==> machine.valid() && machine.src
            == m.src && machine.funcs == m.funcs,
{
    match token {
        Token::Literal(v) => {},
        Token::Action(a) => {
            match a {
                Action::Cond => {
                    lemma_skip_bounds(m.src, m.cursor, 0);
                    if let Ok(behind) = skip_from(m.src, m.cursor, 0) {
                        lemma_scan_advances(m.src, behind);
                    }
                },
                _ => {},
            }
        },
        Token::Mark(g) => {
            match g {
                Glyph::Loop => {},
                Glyph::OpenSquiggle => {
                    if m.loop_pending {
                        let f = m.frames.push(Brace::OpenFor(m.cursor as usize));
                        assert(f.drop_last() =~= m.frames);
                    } else if m.call_pending is Some {
                        let f = m.frames.push(Brace::OpenFunc(m.call_pending->0));
                        assert(f.drop_last() =~= m.frames);
                    } else {
                        let f = m.frames.push(Brace::Open);
                        assert(f.drop_last() =~= m.frames);
                    }
                },
                Glyph::CloseSquiggle => {},
                Glyph::Break => {
                    lemma_exit_frame(m.frames);
                    let i = exit_frame(m.frames);
                    if i >= 0 {
                        lemma_calls_take(m.frames, i);
                        match m.frames[i] {
                            Brace::OpenFor(pos) => {
                                lemma_skip_bounds(m.src, pos - 1, 0);
                            },
                            _ => {},
                        }
                    }
                },
                _ => {
                    lemma_seek_bounds(
                        m.src,
                        m.cursor,
                        Token::Mark(Glyph::OpenSquiggle),
                        Error::MissingBody,
                    );
                    if let Ok(pos) = seek_from(
                        m.src,
                        m.cursor,
                        Token::Mark(Glyph::OpenSquiggle),
                        Error::MissingBody,
                    ) {
                        lemma_skip_bounds(m.src, pos, 0);
                    }
                },
            }
        },
    }
}

/// What a step of the interpreter reports.
#[derive(Debug, PartialEq, Eq)]
pub enum Event {
    /// A token was applied.
    Continue,
    /// A token was applied, and this line is to be written out.
    Output(String),
    /// The run has come to its end.
    Done,
}

/// Whether the report `r` of a step, and the state `after` it, are what
/// `effect` says of a step from the state `before`. A step that ends the run,
/// well or not, leaves the state as it was.
pub open spec fn agrees(
    before: Machine,
    after: Machine,
    r: Result<Event, Error>,
    effect: Effect,
) -> bool {
    match effect {
        Effect::Next { machine, output } => after == machine && match output {
            Some(line) => r matches Ok(Event::Output(s)) && s@ == line,
            None => r matches Ok(Event::Continue),
        },
        Effect::Halt => after == before && r matches Ok(Event::Done),
        Effect::Fail(e) => after == before && r == Err::<Event, Error>(e),
    }
}

/// As `agrees`, but that after a step that ends the run the cursor may
/// stand anywhere.
spec fn agrees_but_cursor(
    before: Machine,
    after: Machine,
    r: Result<Event, Error>,
    effect: Effect,
) -> bool {
    match effect {
        Effect::Next { .. } => agrees(before, after, r, effect),
        _ => agrees(before, Machine { cursor: before.cursor, ..after }, r, effect) && 0
            <= after.cursor <= after.src.len(),
    }
}

/// An interpreter: the tokenizer, the operand stack, the scope store and the
/// control-flow frames of one run. Its view is the [`Machine`] it stands for.
pub struct Interpreter {
    lex: Lexer,
    stack: OpStack,
    var_store: VarStore,
    loop_stack: Vec<Brace>,
    for_open: bool,
    func_open: Option<usize>,
}

impl View for Interpreter {
    type V = Machine;

    closed spec fn view(&self) -> Machine {
        Machine {
            src: self.lex.source(),
            cursor: self.lex.cursor(),
            stack: self.stack@,
            scopes: self.var_store.scopes(),
            funcs: self.var_store.funcs(),
            frames: self.loop_stack@,
            loop_pending: self.for_open,
            call_pending: self.func_open,
        }
    }
}

fn lift(r: Result<(), Error>) -> (e: Result<Event, Error>)
    ensures
        match r {
            Ok(_) => e matches Ok(Event::Continue),
            Err(x) => e == Err::<Event, Error>(x),
        },
{
    match r {
        Ok(()) => Ok(Event::Continue),
        Err(x) => Err(x),
    }
}

impl Interpreter {
    /// An interpreter for the program `source`, ready to run: the functions
    /// that the program defines are entered in the table, and the cursor
    /// stands in front of the first character.
    pub fn new(source: String) -> (r: Result<Interpreter, Error>)
        ensures
            ({
                let src = seq!['\n'] + source@;
                match register_from(src, 0, Map::empty()) {
                    (funcs, None) => r matches Ok(i) && i@ == Machine::initial(src, funcs)
                        && i@.valid(),
                    (_, Some(e)) => r matches Err(x) && x == e,
                }
            }),
    {
        let mut lex = Lexer::new(source);
        let mut var_store = VarStore::new();
        proof {
            lex.lemma_source_fits();
            lemma_register_bounds(lex.source(), 0, Map::empty());
        }
        match lex.register_functions(&mut var_store) {
            Ok(()) => {
                let i = Interpreter {
                    lex,
                    stack: OpStack::new(),
                    var_store,
                    loop_stack: Vec::new(),
                    for_open: false,
                    func_open: None,
                };
                Ok(i)
            },
            Err(e) => Err(e),
        }
    }

    /// The source from the cursor to its end. After a step that failed, the
    /// token that made it fail stands at its front.
    pub fn context(&self) -> (s: String)
        ensures
            s@ == self@.src.subrange(self@.cursor, self@.src.len() as int),
    {
        self.lex.context()
    }

    /// Takes one step: produces the next token and applies it. A step that
    /// ends the run, well or with an error, leaves the interpreter as it was,
    /// so that the error can be reported with its context.
    pub fn step(&mut self) -> (r: Result<Event, Error>)
        requires
            old(self)@.valid(),
        ensures
            final(self)@.valid(),
            agrees(old(self)@, final(self)@, r, step(old(self)@)),
    {
        let start = self.lex.position();
        proof {
            lemma_step_valid(self@);
        }
        let r = self.advance();
        match r {
            Ok(Event::Done) => {
                self.lex.jump(start);
                Ok(Event::Done)
            },
            Err(e) => {
                self.lex.jump(start);
                Err(e)
            },
            other => other,
        }
    }

    /// Runs at most `limit` steps and returns the lines written and how the
    /// run ended. A paused run can be taken up again.
    pub fn run(&mut self, limit: usize) -> (r: (Vec<String>, Status))
        requires
            old(self)@.valid(),
        ensures
            final(self)@.valid(),
            final(self)@ == run(old(self)@, limit as nat).machine,
            lines(r.0@) == run(old(self)@, limit as nat).output,
            r.1 == run(old(self)@, limit as nat).status,
    {
        let mut out: Vec<String> = Vec::new();
        let mut left = limit;
        let mut status = Status::Paused;
        while left > 0
            invariant_except_break
                status == Status::Paused,
                run(old(self)@, limit as nat).machine == run(self@, left as nat).machine,
                run(old(self)@, limit as nat).status == run(self@, left as nat).status,
                run(old(self)@, limit as nat).output == lines(out@) + run(
                    self@,
                    left as nat,
                ).output,
            invariant
                self@.valid(),
                lines(out@) + Seq::<Seq<char>>::empty() == lines(out@),
            ensures
                run(old(self)@, limit as nat).machine == self@,
                run(old(self)@, limit as nat).status == status,
                run(old(self)@, limit as nat).output == lines(out@),
            decreases left,
        {
            match self.step() {
                Ok(Event::Continue) => {
                    left -= 1;
                },
                Ok(Event::Output(line)) => {
                    out.push(line);
                    left -= 1;
                },
                Ok(Event::Done) => {
                    status = Status::Finished;
                    break ;
                },
                Err(e) => {
                    status = Status::Failed(e);
                    break ;
                },
            }
        }
        (out, status)
    }

    fn advance(&mut self) -> (r: Result<Event, Error>)
        requires
            old(self)@.valid(),
        ensures
            agrees_but_cursor(old(self)@, final(self)@, r, step(old(self)@)),
    {
        proof {
            lemma_scan_advances(self@.src, self@.cursor);
        }
        match self.lex.next() {
            Err(e) => Err(e),
            Ok(None) => {
                if self.loop_stack.len() > 0 {
                    Err(Error::UnclosedBody)
                } else if self.for_open {
                    Err(Error::MissingBody)
                } else {
                    Ok(Event::Done)
                }
            },
            Ok(Some(op)) => match op {
                Op::Operand(o) => {
                    self.stack.push(o);
                    Ok(Event::Continue)
                },
                Op::Operator(o) => self.do_operator(o),
                Op::Glyph(g) => self.do_glyph(g),
            },
        }
    }

    fn do_operator(&mut self, o: Operator) -> (r: Result<Event, Error>)
        requires
            old(self)@.valid(),
        ensures
            agrees_but_cursor(old(self)@, final(self)@, r, old(self)@.act(o@)),
    {
        match o {
            Operator::Add => lift(self.stack.add()),
            Operator::Sub => lift(self.stack.sub()),
            Operator::Mul => lift(self.stack.mul()),
            Operator::Div => lift(self.stack.div()),
            Operator::Equal => lift(self.stack.equal()),
            Operator::NotEqual => lift(self.stack.not_equal()),
            Operator::LessThan => lift(self.stack.less_than()),
            Operator::GreaterThan => lift(self.stack.greater_than()),
            Operator::Index => lift(self.stack.get_index()),
            Operator::Print => Ok(Event::Output(self.stack.top_text())),
            Operator::Pop => lift(self.stack.silent_pop()),
            Operator::Clear => {
                self.stack.clear();
                Ok(Event::Continue)
            },
            Operator::Cond => lift(self.stack.cond(&mut self.lex)),
            Operator::Assign(name) => lift(self.stack.assign(&mut self.var_store, name)),
            Operator::Access(name) => {
                if self.stack.access(&mut self.var_store, name.as_str()) {
                    Ok(Event::Continue)
                } else {
                    match self.var_store.get_func(name.as_str()) {
                        Some(pos) => {
                            self.func_open = Some(self.lex.position());
                            self.lex.jump(pos);
                            self.var_store.new_scope();
                            Ok(Event::Continue)
                        },
                        None => Err(Error::UnknownName),
                    }
                }
            },
        }
    }

    fn do_glyph(&mut self, g: Glyph) -> (r: Result<Event, Error>)
        requires
            old(self)@.valid(),
            old(self)@.cursor >= 1,
        ensures
            agrees_but_cursor(old(self)@, final(self)@, r, old(self)@.mark(g)),
    {
        match g {
            Glyph::Loop => {
                self.for_open = true;
                Ok(Event::Continue)
            },
            Glyph::OpenSquiggle => {
                if self.for_open {
                    self.loop_stack.push(Brace::OpenFor(self.lex.position()));
                    self.for_open = false;
                } else {
                    match self.func_open {
                        Some(ret) => {
                            self.loop_stack.push(Brace::OpenFunc(ret));
                            self.func_open = None;
                        },
                        None => {
                            self.loop_stack.push(Brace::Open);
                        },
                    }
                }
                Ok(Event::Continue)
            },
            Glyph::CloseSquiggle => {
                let n = self.loop_stack.len();
                if n == 0 {
                    return Err(Error::UnmatchedClose);
                }
                match self.loop_stack[n - 1] {
                    Brace::Open => {
                        self.loop_stack.pop();
                    },
                    Brace::OpenFor(pos) => {
                        self.lex.jump(pos);
                    },
                    Brace::OpenFunc(ret) => {
                        self.lex.jump(ret);
                        self.var_store.destroy_scope();
                        self.loop_stack.pop();
                    },
                }
                Ok(Event::Continue)
            },
            Glyph::Break => self.do_break(),
            Glyph::Else => self.skip_next_body(),
            Glyph::Define => self.skip_next_body(),
        }
    }

    fn do_break(&mut self) -> (r: Result<Event, Error>)
        requires
            old(self)@.valid(),
        ensures
            agrees_but_cursor(old(self)@, final(self)@, r, old(self)@.leave()),
    {
        let mut i = self.loop_stack.len();
        assert(self.loop_stack@.take(i as int) =~= self.loop_stack@);
        while i > 0 && matches!(self.loop_stack[i - 1], Brace::Open)
            invariant
                i <= self.loop_stack@.len(),
                exit_frame(self.loop_stack@) == exit_frame(self.loop_stack@.take(i as int)),
            decreases i,
        {
            assert(self.loop_stack@.take(i as int).drop_last() =~= self.loop_stack@.take(i - 1));
            i -= 1;
        }
        if i == 0 {
            return Err(Error::BreakOutsideLoop);
        }
        match self.loop_stack[i - 1] {
            Brace::OpenFor(pos) => {
                self.lex.jump(pos - 1);
                match self.lex.exit_body() {
                    Ok(()) => {},
                    Err(e) => {
                        return Err(e);
                    },
                }
            },
            Brace::OpenFunc(ret) => {
                self.lex.jump(ret);
            },
            Brace::Open => {},
        }
        self.loop_stack.truncate(i - 1);
        Ok(Event::Continue)
    }

    fn skip_next_body(&mut self) -> (r: Result<Event, Error>)
        requires
            old(self)@.valid(),
        ensures
            agrees_but_cursor(old(self)@, final(self)@, r, old(self)@.pass_body()),
    {
        proof {
            lemma_seek_bounds(
                self@.src,
                self@.cursor,
                Token::Mark(Glyph::OpenSquiggle),
                Error::MissingBody,
            );
        }
        match self.lex.seek(Op::Glyph(Glyph::OpenSquiggle), Error::MissingBody) {
            Ok(()) => lift(self.lex.exit_body()),
            Err(e) => Err(e),
        }
    }
}

} // verus!
