//! Whitespace and comments between tokens.
//!
//! The tokenizer looks only at what stands behind the cursor
//! ([`lemma_scan_local`]), and it skips whitespace and comments in front of a
//! token. So the tokens of a program do not change where whitespace or a
//! comment is put between two of them
//! ([`lemma_whitespace_between_tokens`], [`lemma_comment_between_tokens`]).
//! The one exception is a comment behind a slash: three slashes in a row
//! are a comment from the first on.

use crate::error::Error;
use crate::lexer::{
    comment_mark, ends_run, lemma_run_end, lemma_scan_advances, lemma_token_start, occurs_at,
    run_end, scan, single, token_at, token_start, Run, Scan,
};
use crate::text::{is_alpha, is_digit, is_space};
use crate::token::Token;
use crate::value::{text_false, text_true};
use vstd::prelude::*;

verus! {

/// The tokens that follow the cursor `cur`, up to the end of the source or
/// to what is no token, and the error that ended them, if any.
pub open spec fn tokens_from(src: Seq<char>, cur: int) -> (Seq<Token>, Option<Error>)
    decreases src.len() - cur,
    when 0 <= cur <= src.len()
{
    match scan(src, cur) {
        Scan::Found { token, end } => {
            proof {
                lemma_scan_advances(src, cur);
            }
            (seq![token] + tokens_from(src, end).0, tokens_from(src, end).1)
        },
        Scan::Exhausted => (Seq::empty(), None),
        Scan::Failed(e) => (Seq::empty(), Some(e)),
    }
}

/// Whether the source `b` behind the cursor `d` is the source `a` behind the
/// cursor `c`, character by character.
pub open spec fn same_rest(a: Seq<char>, c: int, b: Seq<char>, d: int) -> bool {
    &&& 0 <= c <= a.len()
    &&& 0 <= d <= b.len()
    &&& a.len() - c == b.len() - d
    &&& forall|i: int| c < i < a.len() ==> #[trigger] a[i] == b[i + d - c]
}

/// The result of a scan with its cursor moved on by `by`.
pub open spec fn moved(s: Scan, by: int) -> Scan {
    match s {
        Scan::Found { token, end } => Scan::Found { token, end: end + by },
        other => other,
    }
}

/// A stretch of the one source is the stretch of the other that stands
/// where it stands.
proof fn lemma_same_stretch(a: Seq<char>, c: int, b: Seq<char>, d: int, from: int, to: int)
    requires
        same_rest(a, c, b, d),
        c < from <= to <= a.len(),
    ensures
        a.subrange(from, to) == b.subrange(from + d - c, to + d - c),
{
    let k = d - c;
    assert forall|j: int| 0 <= j < to - from implies a.subrange(from, to)[j] == b.subrange(
        from + k,
        to + k,
    )[j] by {
        assert(a[from + j] == b[from + j + d - c]);
    }
    assert(a.subrange(from, to) =~= b.subrange(from + k, to + k));
}

/// A run ends in the one source where it ends in the other.
proof fn lemma_run_local(a: Seq<char>, c: int, b: Seq<char>, d: int, from: int, kind: Run)
    requires
        same_rest(a, c, b, d),
        c < from <= a.len(),
    ensures
        run_end(b, from + d - c, kind) == run_end(a, from, kind) + d - c,
    decreases a.len() - from,
{
    if from < a.len() {
        assert(a[from] == b[from + d - c]);
        lemma_run_local(a, c, b, d, from + 1, kind);
    }
}

/// A pattern stands in the one source where it stands in the other.
proof fn lemma_occurs_local(a: Seq<char>, c: int, b: Seq<char>, d: int, at: int, pat: Seq<char>)
    requires
        same_rest(a, c, b, d),
        c < at <= a.len(),
    ensures
        occurs_at(b, at + d - c, pat) == occurs_at(a, at, pat),
{
    if at + pat.len() <= a.len() {
        lemma_same_stretch(a, c, b, d, at, at + pat.len());
    }
}

/// The next token starts in the one source where it starts in the other.
proof fn lemma_start_local(a: Seq<char>, c: int, b: Seq<char>, d: int, cur: int)
    requires
        same_rest(a, c, b, d),
        c <= cur <= a.len(),
    ensures
        token_start(b, cur + d - c) == token_start(a, cur) + d - c,
    decreases a.len() - cur,
{
    let p = cur + 1;
    if p < a.len() {
        assert(a[p] == b[p + d - c]);
        lemma_occurs_local(a, c, b, d, p, comment_mark());
        if occurs_at(a, p, comment_mark()) {
            lemma_run_end(a, p + 1, Run::Line);
            lemma_run_local(a, c, b, d, p + 1, Run::Line);
            lemma_start_local(a, c, b, d, run_end(a, p + 1, Run::Line));
        } else if is_space(a[p]) {
            lemma_start_local(a, c, b, d, p);
        }
    }
}

/// The token that starts at a position of the one source is the token that
/// starts there in the other.
proof fn lemma_token_local(a: Seq<char>, c: int, b: Seq<char>, d: int, p: int)
    requires
        same_rest(a, c, b, d),
        c < p < a.len(),
    ensures
        token_at(b, p + d - c) == moved(token_at(a, p), d - c),
{
    assert(a[p] == b[p + d - c]);
    lemma_run_local(a, c, b, d, p, Run::Digits);
    lemma_run_local(a, c, b, d, p, Run::Name);
    lemma_run_local(a, c, b, d, p + 1, Run::Name);
    lemma_run_local(a, c, b, d, p + 1, Run::Quoted(a[p]));
    lemma_run_end(a, p, Run::Digits);
    lemma_run_end(a, p, Run::Name);
    lemma_run_end(a, p + 1, Run::Name);
    lemma_run_end(a, p + 1, Run::Quoted(a[p]));
    lemma_same_stretch(a, c, b, d, p, run_end(a, p, Run::Digits));
    lemma_same_stretch(a, c, b, d, p, run_end(a, p, Run::Name));
    lemma_same_stretch(a, c, b, d, p + 1, run_end(a, p + 1, Run::Name));
    lemma_same_stretch(a, c, b, d, p + 1, run_end(a, p + 1, Run::Quoted(a[p])));
    lemma_occurs_local(a, c, b, d, p, text_true());
    lemma_occurs_local(a, c, b, d, p, text_false());
    lemma_occurs_local(a, c, b, d, p, seq!['=', '=']);
    lemma_occurs_local(a, c, b, d, p, seq!['!', '=']);
    lemma_occurs_local(a, c, b, d, p, seq!['[', ']']);
}

/// The tokenizer looks only at what stands behind the cursor: where two
/// sources are the same behind two cursors, the same token follows both, as
/// many characters on.
pub proof fn lemma_scan_local(a: Seq<char>, c: int, b: Seq<char>, d: int)
    requires
        same_rest(a, c, b, d),
    ensures
        scan(b, d) == moved(scan(a, c), d - c),
{
    lemma_start_local(a, c, b, d, c);
    lemma_token_start(a, c);
    let p = token_start(a, c);
    if p < a.len() {
        lemma_token_local(a, c, b, d, p);
    }
}

/// Where two sources are the same behind two cursors, the same tokens
/// follow both.
pub proof fn lemma_tokens_local(a: Seq<char>, c: int, b: Seq<char>, d: int)
    requires
        same_rest(a, c, b, d),
    ensures
        tokens_from(b, d) == tokens_from(a, c),
    decreases a.len() - c,
{
    lemma_scan_local(a, c, b, d);
    lemma_scan_advances(a, c);
    match scan(a, c) {
        Scan::Found { token, end } => {
            assert(same_rest(a, end, b, end + d - c)) by {
                assert forall|i: int| end < i < a.len() implies #[trigger] a[i] == b[i + (end + d
                    - c) - end] by {
                    assert(a[i] == b[i + d - c]);
                }
            }
            lemma_tokens_local(a, end, b, end + d - c);
        },
        _ => {},
    }
}

/// Whitespace behind the cursor is skipped.
pub proof fn lemma_skip_whitespace(src: Seq<char>, c: int, n: nat)
    requires
        0 <= c,
        c + n < src.len(),
        forall|i: int| c < i <= c + n ==> is_space(#[trigger] src[i]),
    ensures
        token_start(src, c) == token_start(src, c + n),
        scan(src, c) == scan(src, c + n),
        tokens_from(src, c) == tokens_from(src, c + n),
    decreases n,
{
    if n > 0 {
        let p = c + 1;
        assert(is_space(src[p]));
        assert(!occurs_at(src, p, comment_mark())) by {
            if occurs_at(src, p, comment_mark()) {
                assert(src.subrange(p, p + 2)[0] == '/');
            }
        }
        lemma_skip_whitespace(src, p, (n - 1) as nat);
    }
}

/// A comment behind the cursor is skipped up to the end of its line.
pub proof fn lemma_skip_comment(src: Seq<char>, c: int)
    requires
        0 <= c,
        occurs_at(src, c + 1, comment_mark()),
    ensures
        token_start(src, c) == token_start(src, run_end(src, c + 2, Run::Line)),
        scan(src, c) == scan(src, run_end(src, c + 2, Run::Line)),
        tokens_from(src, c) == tokens_from(src, run_end(src, c + 2, Run::Line)),
{
    lemma_run_end(src, c + 2, Run::Line);
}

/// Whitespace or a comment that is put behind a cursor does not change the
/// tokens that follow the cursor: where the source `b` has `n` characters
/// behind the cursor that the tokenizer skips, and is the source `a` from
/// there on, the tokens of `b` are those of `a`.
pub proof fn lemma_skipped_behind_cursor(a: Seq<char>, b: Seq<char>, c: int, n: nat)
    requires
        same_rest(a, c, b, c + n),
        token_start(b, c) == token_start(b, c + n),
    ensures
        scan(b, c) == moved(scan(a, c), n as int),
        tokens_from(b, c) == tokens_from(a, c),
{
    lemma_scan_local(a, c, b, c + n);
    lemma_tokens_local(a, c, b, c + n);
}

/// Whether the cursor `c` stands between two tokens of the run of tokens
/// that starts at the cursor `from`: it is `from`, or the cursor behind one of
/// the tokens that follow.
pub open spec fn between_tokens(src: Seq<char>, from: int, c: int) -> bool
    decreases src.len() - from,
    when 0 <= from <= src.len()
{
    from == c || (from < c && match scan(src, from) {
        Scan::Found { token, end } => {
            proof {
                lemma_scan_advances(src, from);
            }
            end <= c && between_tokens(src, end, c)
        },
        _ => false,
    })
}

/// Whether the character `next` parts a token that ends with the
/// character `last` from what follows: it goes on no number, no name and no
/// operator of two characters, and starts no comment together with `last`.
/// Whitespace parts every token from what follows, and so does a slash
/// behind anything but a slash.
pub open spec fn parts(last: char, next: char) -> bool {
    &&& !is_digit(next)
    &&& !is_alpha(next)
    &&& next != '='
    &&& next != ']'
    &&& !(last == '/' && next == '/')
}

/// Whether the two sources are the same up to the position `c`, and the
/// second goes on with a character that parts the token that ends there from
/// what follows.
pub open spec fn same_front(a: Seq<char>, b: Seq<char>, c: int) -> bool {
    &&& 0 <= c < a.len()
    &&& c + 1 < b.len()
    &&& forall|i: int| 0 <= i <= c ==> #[trigger] a[i] == b[i]
    &&& parts(a[c], b[c + 1])
}

/// A run that ends in the common front, or at its end, ends at the same
/// place in both sources.
proof fn lemma_run_front(a: Seq<char>, b: Seq<char>, c: int, from: int, kind: Run)
    requires
        same_front(a, b, c),
        0 <= from <= c + 1,
        run_end(a, from, kind) <= c + 1,
        kind is Digits || kind is Name,
    ensures
        run_end(b, from, kind) == run_end(a, from, kind),
    decreases c + 1 - from,
{
    lemma_run_end(a, from, kind);
    if from <= c {
        assert(a[from] == b[from]);
        if !ends_run(kind, a[from]) {
            lemma_run_front(a, b, c, from + 1, kind);
        }
    }
}

/// A run that ends within the common front ends at the same place in both
/// sources.
proof fn lemma_run_within(a: Seq<char>, b: Seq<char>, c: int, from: int, kind: Run)
    requires
        same_front(a, b, c),
        0 <= from <= c,
        run_end(a, from, kind) <= c,
    ensures
        run_end(b, from, kind) == run_end(a, from, kind),
    decreases c + 1 - from,
{
    lemma_run_end(a, from, kind);
    assert(a[from] == b[from]);
    if !ends_run(kind, a[from]) {
        lemma_run_within(a, b, c, from + 1, kind);
    }
}

/// A stretch of the common front is the same in both sources.
proof fn lemma_front_stretch(a: Seq<char>, b: Seq<char>, c: int, from: int, to: int)
    requires
        same_front(a, b, c),
        0 <= from <= to <= c + 1,
    ensures
        a.subrange(from, to) == b.subrange(from, to),
{
    assert forall|j: int| 0 <= j < to - from implies a.subrange(from, to)[j] == b.subrange(
        from,
        to,
    )[j] by {
        assert(a[from + j] == b[from + j]);
    }
    assert(a.subrange(from, to) =~= b.subrange(from, to));
}

/// A pattern that the character behind the common front is no part of,
/// and that does not reach beyond the front where it stands in the first
/// source, stands at a position of the front in both sources or in neither.
proof fn lemma_occurs_front(a: Seq<char>, b: Seq<char>, c: int, at: int, pat: Seq<char>)
    requires
        same_front(a, b, c),
        0 <= at <= c,
        forall|j: int| 1 <= j < pat.len() ==> b[c + 1] != #[trigger] pat[j],
        occurs_at(a, at, pat) ==> at + pat.len() <= c + 1,
    ensures
        occurs_at(b, at, pat) == occurs_at(a, at, pat),
{
    if at + pat.len() <= c + 1 {
        lemma_front_stretch(a, b, c, at, at + pat.len());
    } else {
        if occurs_at(b, at, pat) {
            let j = c + 1 - at;
            assert(b.subrange(at, at + pat.len())[j] == pat[j]);
        }
    }
}

/// A token starts at the same place in both sources where it starts within
/// the common front.
proof fn lemma_start_front(a: Seq<char>, b: Seq<char>, c: int, cur: int)
    requires
        same_front(a, b, c),
        0 <= cur <= c,
        token_start(a, cur) <= c,
    ensures
        token_start(b, cur) == token_start(a, cur),
    decreases a.len() - cur,
{
    let p = cur + 1;
    lemma_token_start(a, cur);
    assert(p <= c);
    assert(a[p] == b[p]);
    if occurs_at(a, p, comment_mark()) {
        let line = run_end(a, p + 1, Run::Line);
        lemma_run_end(a, p + 1, Run::Line);
        lemma_token_start(a, line);
        assert(line < c);
        lemma_run_within(a, b, c, p + 1, Run::Line);
        lemma_front_stretch(a, b, c, p, p + 2);
        lemma_start_front(a, b, c, line);
    } else {
        assert(!occurs_at(b, p, comment_mark())) by {
            if occurs_at(b, p, comment_mark()) {
                if p + 2 <= c + 1 {
                    lemma_front_stretch(a, b, c, p, p + 2);
                } else {
                    assert(b.subrange(p, p + 2)[0] == '/');
                    assert(b.subrange(p, p + 2)[1] == '/');
                }
            }
        }
        if is_space(a[p]) {
            lemma_start_front(a, b, c, p);
        }
    }
}

/// A token that ends within the common front is the same in both sources.
proof fn lemma_token_front(a: Seq<char>, b: Seq<char>, c: int, p: int)
    requires
        same_front(a, b, c),
        0 <= p <= c,
        token_at(a, p) matches Scan::Found { end, .. } && end <= c,
    ensures
        token_at(b, p) == token_at(a, p),
{
    let x = a[p];
    assert(x == b[p]);
    let yes = text_true();
    let no = text_false();
    let equal = seq!['=', '='];
    let differ = seq!['!', '='];
    let index = seq!['[', ']'];
    assert(occurs_at(a, p, yes) ==> x == 't') by {
        if occurs_at(a, p, yes) {
            assert(a.subrange(p, p + 4)[0] == 't');
        }
    }
    assert(occurs_at(a, p, no) ==> x == 'f') by {
        if occurs_at(a, p, no) {
            assert(a.subrange(p, p + 5)[0] == 'f');
        }
    }
    assert(occurs_at(a, p, equal) ==> x == '=') by {
        if occurs_at(a, p, equal) {
            assert(a.subrange(p, p + 2)[0] == '=');
        }
    }
    assert(occurs_at(a, p, differ) ==> x == '!') by {
        if occurs_at(a, p, differ) {
            assert(a.subrange(p, p + 2)[0] == '!');
        }
    }
    assert(occurs_at(a, p, index) ==> x == '[') by {
        if occurs_at(a, p, index) {
            assert(a.subrange(p, p + 2)[0] == '[');
        }
    }
    lemma_occurs_front(a, b, c, p, yes);
    lemma_occurs_front(a, b, c, p, no);
    lemma_occurs_front(a, b, c, p, equal);
    lemma_occurs_front(a, b, c, p, differ);
    lemma_occurs_front(a, b, c, p, index);
    lemma_run_end(a, p, Run::Digits);
    lemma_run_end(a, p, Run::Name);
    lemma_run_end(a, p + 1, Run::Name);
    lemma_run_end(a, p + 1, Run::Quoted(x));
    if is_digit(x) {
        let e = run_end(a, p, Run::Digits);
        lemma_run_front(a, b, c, p, Run::Digits);
        lemma_front_stretch(a, b, c, p, e);
    } else if occurs_at(a, p, yes) || occurs_at(a, p, no) {
    } else if x == '"' || x == '\'' {
        lemma_run_within(a, b, c, p + 1, Run::Quoted(x));
        lemma_front_stretch(a, b, c, p + 1, run_end(a, p + 1, Run::Quoted(x)));
    } else if occurs_at(a, p, equal) || occurs_at(a, p, differ) || occurs_at(a, p, index) {
    } else if x == '=' {
        let e = run_end(a, p + 1, Run::Name);
        lemma_run_front(a, b, c, p + 1, Run::Name);
        lemma_front_stretch(a, b, c, p + 1, e);
    } else if single(x) is Some {
    } else if is_alpha(x) {
        let e = run_end(a, p, Run::Name);
        lemma_run_front(a, b, c, p, Run::Name);
        lemma_front_stretch(a, b, c, p, e);
    }
}

/// A token that ends within the common front is the token that follows
/// the same cursor in the other source.
proof fn lemma_scan_front(a: Seq<char>, b: Seq<char>, c: int, cur: int)
    requires
        same_front(a, b, c),
        0 <= cur <= c,
        scan(a, cur) matches Scan::Found { end, .. } && end <= c,
    ensures
        scan(b, cur) == scan(a, cur),
{
    let p = token_start(a, cur);
    lemma_token_start(a, cur);
    assert(p <= c) by {
        lemma_run_end(a, p, Run::Digits);
        lemma_run_end(a, p, Run::Name);
        lemma_run_end(a, p + 1, Run::Name);
        lemma_run_end(a, p + 1, Run::Quoted(a[p]));
    }
    lemma_start_front(a, b, c, cur);
    lemma_token_front(a, b, c, p);
}

/// Whitespace and comments between two tokens do not change the tokens of
/// a program. The source `b` is the source `a` with `n` characters put in
/// behind the cursor `c`, which stands between two tokens of `a`. The
/// tokenizer skips these characters, and the first of them parts the token in
/// front of it from what follows. Then the tokens of `b` are those of `a`,
/// and so is the error that ends them, if any.
pub proof fn lemma_skipped_between_tokens(a: Seq<char>, b: Seq<char>, from: int, c: int, n: nat)
    requires
        0 <= from <= c < a.len(),
        between_tokens(a, from, c),
        forall|i: int| 0 <= i <= c ==> #[trigger] a[i] == b[i],
        same_rest(a, c, b, c + n),
        token_start(b, c) == token_start(b, c + n),
        n > 0 ==> parts(a[c], b[c + 1]),
    ensures
        tokens_from(b, from) == tokens_from(a, from),
    decreases c - from,
{
    if n == 0 {
        assert(a =~= b) by {
            assert forall|i: int| 0 <= i < a.len() implies a[i] == b[i] by {
                if i > c {
                    assert(a[i] == b[i + (c + n) - c]);
                }
            }
        }
    } else if from == c {
        lemma_skipped_behind_cursor(a, b, c, n);
    } else {
        lemma_scan_advances(a, from);
        lemma_scan_front(a, b, c, from);
        let end = scan(a, from)->end;
        lemma_skipped_between_tokens(a, b, end, c, n);
    }
}

/// Whitespace between two tokens does not change the tokens of a program:
/// the characters put in behind the cursor `c` are all whitespace.
pub proof fn lemma_whitespace_between_tokens(
    a: Seq<char>,
    b: Seq<char>,
    from: int,
    c: int,
    n: nat,
)
    requires
        0 <= from <= c < a.len(),
        between_tokens(a, from, c),
        forall|i: int| 0 <= i <= c ==> #[trigger] a[i] == b[i],
        same_rest(a, c, b, c + n),
        forall|i: int| c < i <= c + n ==> is_space(#[trigger] b[i]),
    ensures
        tokens_from(b, from) == tokens_from(a, from),
{
    lemma_skip_whitespace(b, c, n);
    if n > 0 {
        assert(is_space(b[c + 1]));
    }
    lemma_skipped_between_tokens(a, b, from, c, n);
}

/// A comment between two tokens does not change the tokens of a program,
/// unless it stands behind a slash, with which it would start a comment one
/// character earlier. The `n` characters put in behind the cursor `c` start
/// with two slashes and end with the first line feed behind them, or with
/// the source.
pub proof fn lemma_comment_between_tokens(
    a: Seq<char>,
    b: Seq<char>,
    from: int,
    c: int,
    n: nat,
)
    requires
        0 <= from <= c < a.len(),
        between_tokens(a, from, c),
        forall|i: int| 0 <= i <= c ==> #[trigger] a[i] == b[i],
        same_rest(a, c, b, c + n),
        occurs_at(b, c + 1, comment_mark()),
        n >= 2,
        run_end(b, c + 2, Run::Line) >= c + n,
        b[c + n] == '\n' || c + n + 1 == b.len(),
        a[c] != '/',
    ensures
        tokens_from(b, from) == tokens_from(a, from),
{
    lemma_skip_comment(b, c);
    assert(b.subrange(c + 1, c + 3)[0] == '/');
    lemma_run_end(b, c + 2, Run::Line);
    assert(token_start(b, c) == token_start(b, c + n));
    lemma_skipped_between_tokens(a, b, from, c, n);
}

} // verus!
