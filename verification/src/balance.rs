//! The structural balance of a run.
//!
//! A well-formed program never closes a body that is not open, and ends with
//! no body left open. [`sound`] says what makes the text of a program
//! well-formed from a cursor on, [`balanced`] is what then holds of every
//! state of a run, and [`lemma_run_balanced`] is the law.

use crate::engine::{
    exit_frame, lemma_exit_frame, lemma_step_valid, run, step, Brace, Effect, Machine, Status,
};
use crate::error::Error;
use crate::lexer::{
    comment_mark, lemma_register_bounds, lemma_run_end, lemma_scan_advances,
    lemma_seek_bounds, lemma_skip_bounds, lemma_token_start, occurs_at, register_from, run_end,
    scan, seek_from, skip_from, token_start, Run, Scan,
};
use crate::token::{Action, Glyph, Token};
use vstd::prelude::*;

verus! {

/// The opening brace as a token.
pub open spec fn open_brace() -> Token {
    Token::Mark(Glyph::OpenSquiggle)
}

/// The closing brace as a token.
pub open spec fn close_brace() -> Token {
    Token::Mark(Glyph::CloseSquiggle)
}

/// Whether the token that follows the cursor `cur` is an opening brace.
pub open spec fn opens(src: Seq<char>, cur: int) -> bool {
    scan(src, cur) matches Scan::Found { token, .. } && token == open_brace()
}

/// Whether an opening brace follows the cursor `cur` with no closing brace
/// in front of it.
pub open spec fn reaches_body(src: Seq<char>, cur: int) -> bool
    decreases src.len() - cur,
    when 0 <= cur <= src.len()
{
    match scan(src, cur) {
        Scan::Found { token, end } => {
            proof {
                lemma_scan_advances(src, cur);
            }
            token == open_brace() || (token != close_brace() && reaches_body(src, end))
        },
        _ => false,
    }
}

/// Whether the text is well-formed from the cursor `cur` on, `open` bodies
/// being open there:
///
/// - every closing brace closes a body that is open, and where the source
///   ends no body is open;
/// - an opening brace follows every loop mark directly;
/// - an opening brace follows every else mark and every define mark, with
///   no closing brace in front of it.
///
/// Text behind something that is no token is not looked at: a run ends
/// there.
pub open spec fn sound(src: Seq<char>, cur: int, open: nat) -> bool
    decreases src.len() - cur,
    when 0 <= cur <= src.len()
{
    match scan(src, cur) {
        Scan::Found { token, end } => {
            proof {
                lemma_scan_advances(src, cur);
            }
            if token == open_brace() {
                sound(src, end, open + 1)
            } else if token == close_brace() {
                open > 0 && sound(src, end, (open - 1) as nat)
            } else {
                &&& sound(src, end, open)
                &&& token == Token::Mark(Glyph::Loop) ==> opens(src, end)
                &&& token == Token::Mark(Glyph::Else) || token == Token::Mark(Glyph::Define)
                    ==> reaches_body(src, end)
            }
        },
        Scan::Exhausted => open == 0,
        Scan::Failed(_) => true,
    }
}

/// The number of frames that belong to the innermost call: the function
/// frame that is innermost and the frames above it, or all frames where no
/// call is active.
pub open spec fn segment(frames: Seq<Brace>) -> nat
    decreases frames.len(),
{
    if frames.len() == 0 {
        0
    } else if frames.last() is OpenFunc {
        1
    } else {
        1 + segment(frames.drop_last())
    }
}

/// Skipping a body keeps the text well-formed: the bodies that were open in
/// front of the skipped body are open behind it.
pub proof fn lemma_sound_skip(src: Seq<char>, cur: int, depth: nat, open: nat)
    requires
        0 <= cur <= src.len(),
        sound(src, cur, open + depth),
        skip_from(src, cur, depth) is Ok,
    ensures
        sound(src, skip_from(src, cur, depth)->Ok_0, open),
    decreases src.len() - cur,
{
    lemma_scan_advances(src, cur);
    match scan(src, cur) {
        Scan::Found { token, end } => {
            if token == open_brace() {
                lemma_sound_skip(src, end, depth + 1, open);
            } else if token == close_brace() {
                if depth > 1 {
                    lemma_sound_skip(src, end, (depth - 1) as nat, open);
                }
            } else {
                lemma_sound_skip(src, end, depth, open);
            }
        },
        _ => {},
    }
}

/// Where an opening brace follows with no closing brace in front of it, the
/// search for it succeeds and keeps the text well-formed.
pub proof fn lemma_sound_seek(src: Seq<char>, cur: int, open: nat)
    requires
        0 <= cur <= src.len(),
        sound(src, cur, open),
        reaches_body(src, cur),
    ensures
        seek_from(src, cur, open_brace(), Error::MissingBody) matches Ok(pos) && sound(
            src,
            pos,
            open,
        ) && cur <= pos <= src.len(),
    decreases src.len() - cur,
{
    lemma_scan_advances(src, cur);
    match scan(src, cur) {
        Scan::Found { token, end } => {
            if token != open_brace() {
                lemma_sound_seek(src, end, open);
            }
        },
        _ => {},
    }
}

/// An opening brace is found again from the cursor in front of it.
pub proof fn lemma_rescan_open(src: Seq<char>, cur: int)
    requires
        0 <= cur <= src.len(),
        opens(src, cur),
    ensures
        scan(src, cur) matches Scan::Found { end, .. } && end >= 1 && (scan(src, end - 1)
            matches Scan::Found { token: t2, end: e2 } && t2 == open_brace() && e2 == end),
{
    lemma_token_start(src, cur);
    let p = token_start(src, cur);
    assert(src[p] == '{');
    assert(!occurs_at(src, p, comment_mark()));
    assert(token_start(src, p - 1) == p);
}

/// Frames on top of a frame add to its segment, but for a function frame,
/// which starts a segment.
pub proof fn lemma_segment_push(frames: Seq<Brace>, f: Brace)
    ensures
        segment(frames.push(f)) == if f is OpenFunc {
            1nat
        } else {
            segment(frames) + 1
        },
        frames.push(f).take(frames.len() as int) == frames,
{
}

/// What the frame at position `j` holds: the cursor of a loop frame stands
/// behind an opening brace, and the text is well-formed from the cursor of a
/// loop or function frame on, for the bodies that are open when the run jumps
/// there.
pub open spec fn frame_sound(src: Seq<char>, frames: Seq<Brace>, j: int) -> bool {
    match frames[j] {
        Brace::Open => true,
        Brace::OpenFor(pos) => {
            &&& pos >= 1
            &&& scan(src, pos - 1) matches Scan::Found { token, end } && token == open_brace()
                && end == pos
            &&& sound(src, pos as int, segment(frames.take(j + 1)))
        },
        Brace::OpenFunc(ret) => sound(src, ret as int, segment(frames.take(j))),
    }
}

/// Whether every frame holds what `frame_sound` asks of it.
pub open spec fn frames_sound(src: Seq<char>, frames: Seq<Brace>) -> bool {
    forall|j: int| 0 <= j < frames.len() ==> #[trigger] frame_sound(src, frames, j)
}

/// Whether every function of the table stands in front of an opening brace,
/// with well-formed text from there on.
pub open spec fn funcs_sound(src: Seq<char>, funcs: Map<Seq<char>, usize>) -> bool {
    forall|name: Seq<char>| #[trigger]
        funcs.contains_key(name) ==> opens(src, funcs[name] as int) && sound(
            src,
            funcs[name] as int,
            0,
        )
}

/// Whether every function of the table stands in front of an opening brace.
pub open spec fn funcs_open(src: Seq<char>, funcs: Map<Seq<char>, usize>) -> bool {
    forall|name: Seq<char>| #[trigger] funcs.contains_key(name) ==> opens(src, funcs[name] as int)
}

/// What holds of every state of a run of a well-formed program: the text
/// from the cursor on closes just the bodies that are open since the
/// innermost call, and the same holds of every cursor that the run may jump
/// to.
pub open spec fn balanced(m: Machine) -> bool {
    &&& match m.call_pending {
        None => sound(m.src, m.cursor, segment(m.frames)),
        Some(ret) => {
            &&& !m.loop_pending
            &&& opens(m.src, m.cursor)
            &&& sound(m.src, m.cursor, 0)
            &&& sound(m.src, ret as int, segment(m.frames))
        },
    }
    &&& m.loop_pending ==> opens(m.src, m.cursor)
    &&& frames_sound(m.src, m.frames)
    &&& funcs_sound(m.src, m.funcs)
}

/// A program with the functions `funcs` is well-formed where its text is
/// well-formed from the start, with no body open, and from the front of the
/// body of each function, with no body open there either: functions are
/// defined outside of all bodies.
pub open spec fn well_formed(src: Seq<char>, funcs: Map<Seq<char>, usize>) -> bool {
    &&& sound(src, 0, 0)
    &&& forall|name: Seq<char>| #[trigger]
        funcs.contains_key(name) ==> sound(src, funcs[name] as int, 0)
}

/// The frames below position `n` hold what they held before frames from
/// that position on were opened or closed.
proof fn lemma_frames_prefix(src: Seq<char>, before: Seq<Brace>, after: Seq<Brace>, n: int)
    requires
        0 <= n <= before.len(),
        n <= after.len(),
        after.take(n) =~= before.take(n),
        frames_sound(src, before),
    ensures
        forall|j: int| 0 <= j < n ==> #[trigger] frame_sound(src, after, j),
{
    assert forall|j: int| 0 <= j < n implies #[trigger] frame_sound(src, after, j) by {
        assert(frame_sound(src, before, j));
        assert(after[j] == after.take(n)[j]);
        assert(after.take(j + 1) =~= after.take(n).take(j + 1));
        assert(before.take(j + 1) =~= before.take(n).take(j + 1));
        assert(after.take(j) =~= after.take(n).take(j));
        assert(before.take(j) =~= before.take(n).take(j));
    }
}

/// An opening brace keeps the run balanced.
proof fn lemma_open(m: Machine)
    requires
        m.valid(),
        frames_sound(m.src, m.frames),
        funcs_sound(m.src, m.funcs),
        match m.call_pending {
            Some(ret) => !m.loop_pending && sound(m.src, m.cursor, 1) && sound(
                m.src,
                ret as int,
                segment(m.frames),
            ),
            None => sound(m.src, m.cursor, segment(m.frames) + 1),
        },
        m.loop_pending ==> m.cursor >= 1 && (scan(m.src, m.cursor - 1) matches Scan::Found {
            token,
            end,
        } && token == open_brace() && end == m.cursor),
    ensures
        m.open() matches Effect::Next { machine, .. } && balanced(machine),
{
    let src = m.src;
    let f = if m.loop_pending {
        Brace::OpenFor(m.cursor as usize)
    } else if m.call_pending is Some {
        Brace::OpenFunc(m.call_pending->0)
    } else {
        Brace::Open
    };
    let after = m.frames.push(f);
    let n = m.frames.len() as int;
    lemma_segment_push(m.frames, f);
    lemma_frames_prefix(src, m.frames, after, n);
    assert(after.take(n + 1) =~= after);
    assert(frame_sound(src, after, n));
    assert(frames_sound(src, after));
    assert(m.open()->machine.frames == after);
}

/// A closing brace keeps the run balanced.
proof fn lemma_close(m: Machine)
    requires
        m.valid(),
        frames_sound(m.src, m.frames),
        funcs_sound(m.src, m.funcs),
        m.call_pending is None,
        !m.loop_pending,
        segment(m.frames) > 0,
        sound(m.src, m.cursor, (segment(m.frames) - 1) as nat),
    ensures
        m.close() matches Effect::Next { machine, .. } && balanced(machine),
{
    let src = m.src;
    let top = m.frames.len() - 1;
    assert(frame_sound(src, m.frames, top));
    assert(m.frames.take(top + 1) =~= m.frames);
    if !(m.frames.last() is OpenFor) {
        lemma_frames_prefix(src, m.frames, m.frames.drop_last(), top);
    }
}

/// A break keeps the run balanced.
proof fn lemma_leave(m: Machine)
    requires
        m.valid(),
        frames_sound(m.src, m.frames),
        funcs_sound(m.src, m.funcs),
        m.call_pending is None,
        !m.loop_pending,
    ensures
        m.leave() matches Effect::Next { machine, .. } ==> balanced(machine),
{
    let src = m.src;
    lemma_exit_frame(m.frames);
    let i = exit_frame(m.frames);
    if i >= 0 {
        let below = m.frames.take(i);
        assert(frame_sound(src, m.frames, i));
        lemma_frames_prefix(src, m.frames, below, i);
        assert(m.frames.take(i + 1).drop_last() =~= below);
        match m.frames[i] {
            Brace::OpenFor(pos) => {
                if skip_from(src, pos - 1, 0) is Ok {
                    lemma_sound_skip(src, pos as int, 1, segment(below));
                }
            },
            _ => {},
        }
    }
}

/// Passing the body behind an else mark or a define mark keeps the run
/// balanced.
proof fn lemma_pass_body(m: Machine)
    requires
        m.valid(),
        frames_sound(m.src, m.frames),
        funcs_sound(m.src, m.funcs),
        m.call_pending is None,
        !m.loop_pending,
        sound(m.src, m.cursor, segment(m.frames)),
        reaches_body(m.src, m.cursor),
    ensures
        m.pass_body() != Effect::Fail(Error::MissingBody),
        m.pass_body() matches Effect::Next { machine, .. } ==> balanced(machine),
{
    let src = m.src;
    let k = segment(m.frames);
    lemma_sound_seek(src, m.cursor, k);
    let pos = seek_from(src, m.cursor, open_brace(), Error::MissingBody)->Ok_0;
    lemma_skip_errors(src, pos, 0);
    if skip_from(src, pos, 0) is Ok {
        lemma_sound_skip(src, pos, 0, k);
    }
}

/// A conditional keeps the run balanced.
proof fn lemma_cond(m: Machine)
    requires
        m.valid(),
        frames_sound(m.src, m.frames),
        funcs_sound(m.src, m.funcs),
        m.call_pending is None,
        !m.loop_pending,
        sound(m.src, m.cursor, segment(m.frames)),
    ensures
        m.act(Action::Cond) matches Effect::Next { machine, .. } ==> balanced(machine),
{
    let src = m.src;
    let k = segment(m.frames);
    if m.stack.len() > 0 && m.stack.last() is Bool && !(m.stack.last()->Bool_0) {
        if skip_from(src, m.cursor, 0) is Ok {
            lemma_skip_bounds(src, m.cursor, 0);
            lemma_sound_skip(src, m.cursor, 0, k);
            let behind = skip_from(src, m.cursor, 0)->Ok_0;
            lemma_scan_advances(src, behind);
        }
    }
}

/// An action other than a conditional keeps the run balanced.
proof fn lemma_act(m: Machine, a: Action)
    requires
        m.valid(),
        frames_sound(m.src, m.frames),
        funcs_sound(m.src, m.funcs),
        m.call_pending is None,
        !m.loop_pending,
        sound(m.src, m.cursor, segment(m.frames)),
        a != Action::Cond,
    ensures
        m.act(a) matches Effect::Next { machine, .. } ==> balanced(machine),
{
}

/// The errors of the tokenizer are the lexical ones.
pub open spec fn lexical(e: Error) -> bool {
    e is UnrecognizedChar || e is UnterminatedText || e is NumberTooLarge
}

/// A skip fails on an unbalanced body or on something that is no token.
pub proof fn lemma_skip_errors(src: Seq<char>, cur: int, depth: nat)
    requires
        0 <= cur <= src.len(),
    ensures
        skip_from(src, cur, depth) matches Err(e) ==> e == Error::UnbalancedBody || lexical(e),
    decreases src.len() - cur,
{
    lemma_scan_advances(src, cur);
    match scan(src, cur) {
        Scan::Found { token, end } => {
            if token == open_brace() {
                lemma_skip_errors(src, end, depth + 1);
            } else if token == close_brace() {
                if depth > 1 {
                    lemma_skip_errors(src, end, (depth - 1) as nat);
                }
            } else {
                lemma_skip_errors(src, end, depth);
            }
        },
        _ => {},
    }
}

/// A token that is applied keeps the run balanced, finds a body open where
/// it closes one, and finds the body that it has to pass.
pub proof fn lemma_apply_balanced(before: Machine)
    requires
        before.valid(),
        balanced(before),
        scan(before.src, before.cursor) is Found,
    ensures
        ({
            let token = scan(before.src, before.cursor)->token;
            let end = scan(before.src, before.cursor)->end;
            let effect = Machine { cursor: end, ..before }.apply(token);
            &&& effect matches Effect::Next { machine, .. } ==> balanced(machine)
            &&& effect != Effect::Fail(Error::UnmatchedClose)
            &&& effect != Effect::Fail(Error::UnclosedBody)
            &&& effect != Effect::Fail(Error::MissingBody)
        }),
{
    let src = before.src;
    let token = scan(src, before.cursor)->token;
    let end = scan(src, before.cursor)->end;
    let m = Machine { cursor: end, ..before };
    let k = segment(m.frames);
    lemma_scan_advances(src, before.cursor);
    if token == open_brace() {
        if m.loop_pending {
            lemma_rescan_open(src, before.cursor);
        }
        lemma_open(m);
    } else {
        if token == close_brace() {
            lemma_close(m);
        } else {
            match token {
                Token::Literal(v) => {},
                Token::Action(a) => {
                    if a == Action::Cond {
                        lemma_cond(m);
                        lemma_skip_errors(src, end, 0);
                    } else {
                        lemma_act(m, a);
                    }
                },
                Token::Mark(g) => {
                    match g {
                        Glyph::Loop => {},
                        Glyph::Break => {
                            lemma_leave(m);
                            lemma_exit_frame(m.frames);
                            let i = exit_frame(m.frames);
                            if i >= 0 {
                                match m.frames[i] {
                                    Brace::OpenFor(pos) => {
                                        lemma_skip_errors(src, pos - 1, 0);
                                    },
                                    _ => {},
                                }
                            }
                        },
                        _ => {
                            lemma_pass_body(m);
                            lemma_sound_seek(src, end, k);
                            let pos = seek_from(src, end, open_brace(), Error::MissingBody)->Ok_0;
                            lemma_skip_errors(src, pos, 0);
                        },
                    }
                },
            }
        }
    }
}

/// A step keeps a run balanced. It does not fail on a missing body or on a
/// brace without its partner, and where the source is exhausted no body is
/// open, so that the run ends well.
pub proof fn lemma_step_balanced(m: Machine)
    requires
        m.valid(),
        balanced(m),
    ensures
        step(m) matches Effect::Next { machine, .. } ==> balanced(machine),
        step(m) != Effect::Fail(Error::UnmatchedClose),
        step(m) != Effect::Fail(Error::UnclosedBody),
        step(m) != Effect::Fail(Error::MissingBody),
        scan(m.src, m.cursor) is Exhausted ==> m.frames.len() == 0 && step(m) is Halt,
{
    lemma_scan_advances(m.src, m.cursor);
    match scan(m.src, m.cursor) {
        Scan::Found { token, end } => {
            lemma_apply_balanced(m);
        },
        _ => {},
    }
}

/// The pass that finds the functions enters each of them with the cursor
/// in front of an opening brace.
pub proof fn lemma_register_opens(src: Seq<char>, cur: int, table: Map<Seq<char>, usize>)
    requires
        0 <= cur <= src.len() <= usize::MAX,
        funcs_open(src, table),
    ensures
        funcs_open(src, register_from(src, cur, table).0),
    decreases src.len() - cur,
{
    let p = cur + 1;
    if p >= src.len() {
    } else if occurs_at(src, p, comment_mark()) {
        lemma_run_end(src, p + 1, Run::Line);
        let next = run_end(src, p + 1, Run::Line);
        lemma_register_opens(src, next, table);
    } else if src[p] == '#' {
        let e = run_end(src, p + 1, Run::Name);
        lemma_run_end(src, p + 1, Run::Name);
        let from = e - 1;
        lemma_seek_bounds(src, from, open_brace(), Error::MissingBody);
        match seek_from(src, from, open_brace(), Error::MissingBody) {
            Ok(pos) => {
                let entered = table.insert(src.subrange(p + 1, e), pos as usize);
                assert(funcs_open(src, entered));
                lemma_register_opens(src, pos, entered);
            },
            Err(_) => {},
        }
    } else {
        lemma_register_opens(src, p, table);
    }
}

/// Every state of a run from a balanced state is balanced. The run does not
/// fail on a missing body or on a brace without its partner, and where it
/// comes to the end of the source no body is open.
pub proof fn lemma_run_balanced(m: Machine, limit: nat)
    requires
        m.valid(),
        balanced(m),
    ensures
        ({
            let t = run(m, limit);
            &&& t.machine.valid()
            &&& balanced(t.machine)
            &&& t.status != Status::Failed(Error::UnmatchedClose)
            &&& t.status != Status::Failed(Error::UnclosedBody)
            &&& t.status != Status::Failed(Error::MissingBody)
            &&& scan(t.machine.src, t.machine.cursor) is Exhausted ==> t.machine.frames.len() == 0
        }),
    decreases limit,
{
    lemma_step_balanced(m);
    lemma_step_valid(m);
    if limit > 0 {
        match step(m) {
            Effect::Next { machine, .. } => {
                lemma_run_balanced(machine, (limit - 1) as nat);
            },
            _ => {},
        }
    }
}

/// The structural balance of a run: a well-formed program, run from its
/// start for any number of steps, closes no body that is not open and misses
/// no body, and where the run comes to the end of the source the stack of
/// frames is empty.
pub proof fn lemma_balance(src: Seq<char>, limit: nat)
    requires
        src.len() <= usize::MAX,
        well_formed(src, register_from(src, 0, Map::empty()).0),
    ensures
        ({
            let t = run(Machine::initial(src, register_from(src, 0, Map::empty()).0), limit);
            &&& t.status != Status::Failed(Error::UnmatchedClose)
            &&& t.status != Status::Failed(Error::UnclosedBody)
            &&& t.status != Status::Failed(Error::MissingBody)
            &&& t.status is Finished ==> t.machine.frames.len() == 0
            &&& scan(t.machine.src, t.machine.cursor) is Exhausted ==> t.machine.frames.len() == 0
        }),
{
    let funcs = register_from(src, 0, Map::empty()).0;
    let m = Machine::initial(src, funcs);
    lemma_register_opens(src, 0, Map::empty());
    lemma_register_bounds(src, 0, Map::empty());
    lemma_run_balanced(m, limit);
    lemma_run_finished(m, limit);
}

/// A run that is finished has come to the end of the source.
pub proof fn lemma_run_finished(m: Machine, limit: nat)
    ensures
        run(m, limit).status is Finished ==> scan(
            run(m, limit).machine.src,
            run(m, limit).machine.cursor,
        ) is Exhausted,
    decreases limit,
{
    if limit > 0 {
        match step(m) {
            Effect::Next { machine, .. } => {
                lemma_run_finished(machine, (limit - 1) as nat);
            },
            _ => {},
        }
    }
}

} // verus!
