//! The key-path grammar, and its checker.
//!
//! A key path is a sequence of segments: bare keys separated by dots (`a.b`), numeric
//! indices in brackets (`a[0]`), and quoted keys in brackets (`a["x.y"]`, `a['x']`).
use vstd::prelude::*;
use crate::errors::{PathError, PathErrorView};
use crate::path::{SegView, ValuePath};
use crate::text::{chars_of, owned, string_from_range};

verus! {

/// Where the checker stands inside a bracket.
#[derive(Clone, Copy, PartialEq, Eq, Structural)]
pub enum BracketState {
    /// just saw `[`
    Start,
    /// digits of an array index
    Index,
    /// inside `"..."` or `'...'`
    Quoted { q: char },
    /// finished a quoted key; `]` must follow
    ExpectClose,
    /// an unquoted key inside brackets, which is not allowed
    Bare,
}

/// Where the checker stands in the key path.
#[derive(Clone, Copy, PartialEq, Eq, Structural)]
pub enum ScanState {
    BetweenSeg,
    BareKey,
    Bracket(BracketState),
}

/// The ways one character can break the grammar.
#[derive(Clone, Copy, PartialEq, Eq, Structural)]
pub enum ScanFault {
    /// `]` outside a bracket
    UnmatchedClose,
    /// `[]`
    EmptyBrackets,
    /// a non-digit after the digits of an index
    NonDigitIndex,
    /// something other than `]` after a closing quote
    AfterQuote,
    /// `]` closing an unquoted, non-numeric bracket content
    BareContent,
}

/// What reading one character does.
#[derive(Clone, Copy, PartialEq, Eq, Structural)]
pub enum Step {
    Next(ScanState),
    Fail(ScanFault),
}

/// The grammar's transition on one character.
pub open spec fn scan_step(st: ScanState, c: char) -> Step {
    match st {
        ScanState::BetweenSeg => if c == '[' {
            Step::Next(ScanState::Bracket(BracketState::Start))
        } else if c == ']' {
            Step::Fail(ScanFault::UnmatchedClose)
        } else {
            Step::Next(ScanState::BareKey)
        },
        ScanState::BareKey => if c == '.' {
            Step::Next(ScanState::BetweenSeg)
        } else if c == '[' {
            Step::Next(ScanState::Bracket(BracketState::Start))
        } else if c == ']' {
            Step::Fail(ScanFault::UnmatchedClose)
        } else {
            Step::Next(ScanState::BareKey)
        },
        ScanState::Bracket(b) => match b {
            BracketState::Start => if c == '"' || c == '\'' {
                Step::Next(ScanState::Bracket(BracketState::Quoted { q: c }))
            } else if c == ']' {
                Step::Fail(ScanFault::EmptyBrackets)
            } else if crate::text::is_digit(c) {
                Step::Next(ScanState::Bracket(BracketState::Index))
            } else {
                Step::Next(ScanState::Bracket(BracketState::Bare))
            },
            BracketState::Index => if c == ']' {
                Step::Next(ScanState::BetweenSeg)
            } else if crate::text::is_digit(c) {
                Step::Next(ScanState::Bracket(BracketState::Index))
            } else {
                Step::Fail(ScanFault::NonDigitIndex)
            },
            BracketState::Quoted { q } => if c == q {
                Step::Next(ScanState::Bracket(BracketState::ExpectClose))
            } else {
                Step::Next(ScanState::Bracket(BracketState::Quoted { q }))
            },
            BracketState::ExpectClose => if c == ']' {
                Step::Next(ScanState::BetweenSeg)
            } else {
                Step::Fail(ScanFault::AfterQuote)
            },
            BracketState::Bare => if c == ']' {
                Step::Fail(ScanFault::BareContent)
            } else {
                Step::Next(ScanState::Bracket(BracketState::Bare))
            },
        },
    }
}

/// Whether reading `c` in state `st` opens a bracket.
pub open spec fn opens_bracket(st: ScanState, c: char) -> bool {
    c == '[' && (st == ScanState::BetweenSeg || st == ScanState::BareKey)
}

/// How a run of the grammar over a whole text ends.
pub enum ScanEnd {
    /// every character was read; the state reached
    Finished(ScanState),
    /// the character at `at` broke the grammar; `open` is where the last bracket opened
    Failed { fault: ScanFault, at: int, open: int },
}

/// Runs the grammar over `s[i..]`, from state `st`, with the last bracket opened at `open`.
pub open spec fn scan_from(s: Seq<char>, i: int, st: ScanState, open: int) -> ScanEnd
    decreases s.len() - i,
{
    if i < 0 || i >= s.len() {
        ScanEnd::Finished(st)
    } else {
        match scan_step(st, s[i]) {
            Step::Next(next) => scan_from(
                s,
                i + 1,
                next,
                if opens_bracket(st, s[i]) { i } else { open },
            ),
            Step::Fail(fault) => ScanEnd::Failed { fault, at: i, open },
        }
    }
}

/// Whether a run of the grammar ended in a state that accepts the text.
pub open spec fn accepting_end(e: ScanEnd) -> bool {
    e matches ScanEnd::Finished(st) && (st == ScanState::BetweenSeg || st == ScanState::BareKey)
}

/// Whether `s` holds two dots in a row.
pub open spec fn has_double_dot(s: Seq<char>) -> bool {
    exists|k: int| 0 <= k && k + 1 < s.len() && s[k] == '.' && #[trigger] s[k + 1] == '.'
}

/// The reason named for each fault.
pub open spec fn fault_reason(f: ScanFault) -> Seq<char> {
    match f {
        ScanFault::UnmatchedClose => "unmatched closing bracket"@,
        ScanFault::EmptyBrackets => "empty brackets not allowed"@,
        ScanFault::NonDigitIndex => "array index must contain only digits"@,
        ScanFault::AfterQuote => "quoted key must be immediately followed by ']'"@,
        ScanFault::BareContent => "bracket content must be either a quoted string or numeric index"@,
    }
}

/// The text named for a fault at `at`: all of `s` up to it for a stray `]`, and from the
/// opening bracket up to it otherwise.
pub open spec fn fault_segment(s: Seq<char>, f: ScanFault, at: int, open: int) -> Seq<char> {
    match f {
        ScanFault::UnmatchedClose => s.take(at + 1),
        _ => s.subrange(open, at + 1),
    }
}

/// An `InvalidSegment` error at the root.
pub open spec fn invalid_at_root(segment: Seq<char>, reason: Seq<char>) -> PathErrorView {
    PathErrorView::InvalidSegment { prefix: Seq::<SegView>::empty(), segment, reason }
}

/// What checking the key-path text `s` gives.
pub open spec fn path_syntax_outcome(s: Seq<char>) -> Result<(), PathErrorView> {
    if s.len() == 0 {
        Err(PathErrorView::EmptyPath)
    } else if s[0] == '.' {
        Err(invalid_at_root(s, "path cannot start with dot"@))
    } else if s.last() == '.' {
        Err(invalid_at_root(s, "path cannot end with dot"@))
    } else if has_double_dot(s) {
        Err(invalid_at_root(s, "consecutive dots not allowed"@))
    } else {
        match scan_from(s, 0, ScanState::BetweenSeg, 0) {
            ScanEnd::Failed { fault, at, open } => Err(
                invalid_at_root(fault_segment(s, fault, at, open), fault_reason(fault)),
            ),
            ScanEnd::Finished(st) => match st {
                ScanState::BetweenSeg | ScanState::BareKey => Ok(()),
                ScanState::Bracket(BracketState::Quoted { .. }) => Err(
                    invalid_at_root(s, "unclosed quote in bracket"@),
                ),
                ScanState::Bracket(_) => Err(invalid_at_root(s, "unclosed bracket"@)),
            },
        }
    }
}

/// Whether `s` is a well-formed key path.
pub open spec fn is_valid_path(s: Seq<char>) -> bool {
    path_syntax_outcome(s) is Ok
}

fn scan_step_exec(st: ScanState, c: char) -> (res: Step)
    ensures
        res == scan_step(st, c),
{
    match st {
        ScanState::BetweenSeg => if c == '[' {
            Step::Next(ScanState::Bracket(BracketState::Start))
        } else if c == ']' {
            Step::Fail(ScanFault::UnmatchedClose)
        } else {
            Step::Next(ScanState::BareKey)
        },
        ScanState::BareKey => if c == '.' {
            Step::Next(ScanState::BetweenSeg)
        } else if c == '[' {
            Step::Next(ScanState::Bracket(BracketState::Start))
        } else if c == ']' {
            Step::Fail(ScanFault::UnmatchedClose)
        } else {
            Step::Next(ScanState::BareKey)
        },
        ScanState::Bracket(b) => match b {
            BracketState::Start => if c == '"' || c == '\'' {
                Step::Next(ScanState::Bracket(BracketState::Quoted { q: c }))
            } else if c == ']' {
                Step::Fail(ScanFault::EmptyBrackets)
            } else if '0' <= c && c <= '9' {
                Step::Next(ScanState::Bracket(BracketState::Index))
            } else {
                Step::Next(ScanState::Bracket(BracketState::Bare))
            },
            BracketState::Index => if c == ']' {
                Step::Next(ScanState::BetweenSeg)
            } else if '0' <= c && c <= '9' {
                Step::Next(ScanState::Bracket(BracketState::Index))
            } else {
                Step::Fail(ScanFault::NonDigitIndex)
            },
            BracketState::Quoted { q } => if c == q {
                Step::Next(ScanState::Bracket(BracketState::ExpectClose))
            } else {
                Step::Next(ScanState::Bracket(BracketState::Quoted { q }))
            },
            BracketState::ExpectClose => if c == ']' {
                Step::Next(ScanState::BetweenSeg)
            } else {
                Step::Fail(ScanFault::AfterQuote)
            },
            BracketState::Bare => if c == ']' {
                Step::Fail(ScanFault::BareContent)
            } else {
                Step::Next(ScanState::Bracket(BracketState::Bare))
            },
        },
    }
}

fn fault_reason_exec(f: ScanFault) -> (res: String)
    ensures
        res@ == fault_reason(f),
{
    match f {
        ScanFault::UnmatchedClose => owned("unmatched closing bracket"),
        ScanFault::EmptyBrackets => owned("empty brackets not allowed"),
        ScanFault::NonDigitIndex => owned("array index must contain only digits"),
        ScanFault::AfterQuote => owned("quoted key must be immediately followed by ']'"),
        ScanFault::BareContent => owned(
            "bracket content must be either a quoted string or numeric index",
        ),
    }
}

fn root_error(segment: String, reason: &str) -> (res: PathError)
    ensures
        res@ == invalid_at_root(segment@, reason@),
{
    PathError::invalid_seg(ValuePath::new(), segment, owned(reason))
}

/// Checks the key-path text `input` against the grammar; the error names the first fault.
pub fn validate_path_syntax(input: &str) -> (res: Result<(), PathError>)
    ensures
        match res {
            Ok(_) => path_syntax_outcome(input@) is Ok,
            Err(e) => path_syntax_outcome(input@) == Err::<(), PathErrorView>(e@),
        },
{
    let chars = chars_of(input);
    let n = chars.len();
    if n == 0 {
        return Err(PathError::EmptyPath);
    }
    if chars[0] == '.' {
        return Err(root_error(owned(input), "path cannot start with dot"));
    }
    if chars[n - 1] == '.' {
        return Err(root_error(owned(input), "path cannot end with dot"));
    }
    let mut k: usize = 0;
    while k < n - 1
        invariant
            n == chars@.len() == input@.len(),
            chars@ == input@,
            0 < n,
            k <= n,
            input@[0] != '.',
            input@.last() != '.',
            forall|j: int| 0 <= j < k && j + 1 < n ==> !(chars@[j] == '.' && #[trigger] chars@[j + 1] == '.'),
        decreases n - k,
    {
        if chars[k] == '.' && chars[k + 1] == '.' {
            assert(input@[k + 1] == '.');
            assert(has_double_dot(input@));
            return Err(root_error(owned(input), "consecutive dots not allowed"));
        }
        k += 1;
    }
    assert(!has_double_dot(input@));
    let mut state = ScanState::BetweenSeg;
    let mut open: usize = 0;
    let mut i: usize = 0;
    while i < n
        invariant
            n == chars@.len() == input@.len(),
            chars@ == input@,
            i <= n,
            open <= i,
            input@[0] != '.',
            input@.last() != '.',
            !has_double_dot(input@),
            scan_from(input@, i as int, state, open as int) == scan_from(input@, 0, ScanState::BetweenSeg, 0),
        decreases n - i,
    {
        let c = chars[i];
        match scan_step_exec(state, c) {
            Step::Next(next) => {
                if c == '[' && (state == ScanState::BetweenSeg || state == ScanState::BareKey) {
                    open = i;
                }
                state = next;
            },
            Step::Fail(fault) => {
                let segment = match fault {
                    ScanFault::UnmatchedClose => string_from_range(&chars, 0, i + 1),
                    _ => string_from_range(&chars, open, i + 1),
                };
                assert(segment@ == fault_segment(input@, fault, i as int, open as int));
                return Err(PathError::invalid_seg(ValuePath::new(), segment, fault_reason_exec(fault)));
            },
        }
        i += 1;
    }
    match state {
        ScanState::BetweenSeg | ScanState::BareKey => Ok(()),
        ScanState::Bracket(BracketState::Quoted { .. }) => Err(
            root_error(owned(input), "unclosed quote in bracket"),
        ),
        ScanState::Bracket(_) => Err(root_error(owned(input), "unclosed bracket")),
    }
}

} // verus!

verus! {

/// A bracketed index: `[`, one or more ASCII digits, `]`.
pub open spec fn is_index_group(t: Seq<char>) -> bool {
    &&& t.len() >= 3
    &&& t[0] == '['
    &&& t.last() == ']'
    &&& forall|k: int| 1 <= k < t.len() - 1 ==> crate::text::is_digit(#[trigger] t[k])
}

/// A bracketed quoted key: `[`, a quote (`"` or `'`), any characters but that quote, the
/// same quote again, `]`.
pub open spec fn is_quoted_group(t: Seq<char>) -> bool {
    &&& t.len() >= 4
    &&& t[0] == '['
    &&& t.last() == ']'
    &&& (t[1] == '"' || t[1] == '\'')
    &&& t[t.len() - 2] == t[1]
    &&& forall|k: int| 2 <= k < t.len() - 2 ==> #[trigger] t[k] != t[1]
}

/// One token of a key path: a character other than a bracket, or a bracketed group.
pub open spec fn is_path_token(t: Seq<char>) -> bool {
    ||| (t.len() == 1 && t[0] != '[' && t[0] != ']')
    ||| is_index_group(t)
    ||| is_quoted_group(t)
}

/// Whether `s` is a run of tokens, one after the other.
pub open spec fn is_token_string(s: Seq<char>) -> bool {
    exists|toks: Seq<Seq<char>>| toks.flatten() == s && forall|k: int| 0 <= k < toks.len() ==> is_path_token(#[trigger] toks[k])
}

/// Whether the checker stands between segments or in a bare key.
pub open spec fn at_boundary(st: ScanState) -> bool {
    st == ScanState::BetweenSeg || st == ScanState::BareKey
}

/// Acceptance does not depend on where the last bracket opened, nor on which boundary
/// state the checker stands in.
proof fn lemma_scan_equiv(s: Seq<char>, i: int, st1: ScanState, o1: int, st2: ScanState, o2: int)
    requires
        st1 == st2 || (at_boundary(st1) && at_boundary(st2)),
    ensures
        accepting_end(scan_from(s, i, st1, o1)) == accepting_end(scan_from(s, i, st2, o2)),
    decreases s.len() - i,
{
    if 0 <= i < s.len() {
        let c = s[i];
        match (scan_step(st1, c), scan_step(st2, c)) {
            (Step::Next(n1), Step::Next(n2)) => {
                lemma_scan_equiv(
                    s,
                    i + 1,
                    n1,
                    if opens_bracket(st1, c) { i } else { o1 },
                    n2,
                    if opens_bracket(st2, c) { i } else { o2 },
                );
            },
            _ => {},
        }
    }
}

/// Running the checker over `a + b` from inside `b` is running it over `b`.
proof fn lemma_scan_shift(a: Seq<char>, b: Seq<char>, j: int, st: ScanState, o1: int, o2: int)
    requires
        0 <= j <= b.len(),
    ensures
        accepting_end(scan_from(a + b, a.len() + j, st, o1)) == accepting_end(scan_from(b, j, st, o2)),
    decreases b.len() - j,
{
    if j < b.len() {
        let c = b[j];
        assert((a + b)[a.len() + j] == c);
        if let Step::Next(n) = scan_step(st, c) {
            lemma_scan_shift(a, b, j + 1, n, if opens_bracket(st, c) { a.len() + j } else { o1 }, if opens_bracket(st, c) { j } else { o2 });
        }
    }
}

/// Reading an unquoted bare bracket content never ends in acceptance.
pub(crate) proof fn lemma_bare_rejected(s: Seq<char>, i: int, open: int)
    ensures
        !accepting_end(scan_from(s, i, ScanState::Bracket(BracketState::Bare), open)),
    decreases s.len() - i,
{
    if 0 <= i < s.len() {
        lemma_bare_rejected(s, i + 1, open);
    }
}

proof fn lemma_digit_run(s: Seq<char>, j: int, e: int, o: int)
    requires
        0 <= j <= e <= s.len(),
        forall|k: int| j <= k < e ==> crate::text::is_digit(#[trigger] s[k]),
    ensures
        scan_from(s, j, ScanState::Bracket(BracketState::Index), o) == scan_from(s, e, ScanState::Bracket(BracketState::Index), o),
    decreases e - j,
{
    if j < e {
        lemma_digit_run(s, j + 1, e, o);
    }
}

proof fn lemma_quoted_run(s: Seq<char>, j: int, e: int, q: char, o: int)
    requires
        0 <= j <= e <= s.len(),
        forall|k: int| j <= k < e ==> #[trigger] s[k] != q,
    ensures
        scan_from(s, j, ScanState::Bracket(BracketState::Quoted { q }), o) == scan_from(s, e, ScanState::Bracket(BracketState::Quoted { q }), o),
    decreases e - j,
{
    if j < e {
        lemma_quoted_run(s, j + 1, e, q, o);
    }
}

/// From a boundary state, a token followed by `r` is accepted exactly when `r` is.
proof fn lemma_token_step(t: Seq<char>, r: Seq<char>, st: ScanState, o: int)
    requires
        is_path_token(t),
        at_boundary(st),
    ensures
        accepting_end(scan_from(t + r, 0, st, o)) == accepting_end(scan_from(r, 0, ScanState::BetweenSeg, 0)),
{
    let s = t + r;
    assert forall|k: int| 0 <= k < t.len() implies #[trigger] s[k] == t[k] by {}
    if t.len() == 1 && t[0] != '[' && t[0] != ']' {
        let n = match scan_step(st, t[0]) {
            Step::Next(n) => n,
            Step::Fail(_) => st,
        };
        let o1 = if opens_bracket(st, t[0]) { 0 } else { o };
        assert(scan_from(s, 0, st, o) == scan_from(s, 1, n, o1));
        lemma_scan_shift(t, r, 0, n, o1, 0);
        lemma_scan_equiv(r, 0, n, 0, ScanState::BetweenSeg, 0);
    } else {
        let e = t.len() - 1;
        assert(s[0] == '[');
        assert(scan_from(s, 0, st, o) == scan_from(s, 1, ScanState::Bracket(BracketState::Start), 0));
        if is_index_group(t) {
            assert(crate::text::is_digit(t[1]));
            assert(scan_from(s, 1, ScanState::Bracket(BracketState::Start), 0) == scan_from(s, 2, ScanState::Bracket(BracketState::Index), 0));
            lemma_digit_run(s, 2, e, 0);
            assert(s[e] == ']');
            assert(scan_from(s, e, ScanState::Bracket(BracketState::Index), 0) == scan_from(s, e + 1, ScanState::BetweenSeg, 0));
        } else {
            let q = t[1];
            assert(scan_from(s, 1, ScanState::Bracket(BracketState::Start), 0) == scan_from(s, 2, ScanState::Bracket(BracketState::Quoted { q }), 0));
            lemma_quoted_run(s, 2, e - 1, q, 0);
            assert(s[e - 1] == q);
            assert(s[e] == ']');
            assert(scan_from(s, e - 1, ScanState::Bracket(BracketState::Quoted { q }), 0) == scan_from(s, e, ScanState::Bracket(BracketState::ExpectClose), 0));
            assert(scan_from(s, e, ScanState::Bracket(BracketState::ExpectClose), 0) == scan_from(s, e + 1, ScanState::BetweenSeg, 0));
        }
        lemma_scan_shift(t, r, 0, ScanState::BetweenSeg, 0, 0);
    }
}

proof fn lemma_tokens_accepted(toks: Seq<Seq<char>>, st: ScanState, o: int)
    requires
        at_boundary(st),
        forall|k: int| 0 <= k < toks.len() ==> is_path_token(#[trigger] toks[k]),
    ensures
        accepting_end(scan_from(toks.flatten(), 0, st, o)),
    decreases toks.len(),
{
    if toks.len() > 0 {
        let rest = toks.drop_first();
        assert forall|k: int| 0 <= k < rest.len() implies is_path_token(#[trigger] rest[k]) by {
            assert(rest[k] == toks[k + 1]);
        }
        lemma_tokens_accepted(rest, ScanState::BetweenSeg, 0);
        assert(is_path_token(toks[0]));
        lemma_token_step(toks[0], rest.flatten(), st, o);
    }
}

/// Where an index that the checker accepts closes.
proof fn lemma_index_close(s: Seq<char>, j: int, o: int) -> (e: int)
    requires
        0 <= j <= s.len(),
        accepting_end(scan_from(s, j, ScanState::Bracket(BracketState::Index), o)),
    ensures
        j <= e < s.len(),
        s[e] == ']',
        forall|k: int| j <= k < e ==> crate::text::is_digit(#[trigger] s[k]),
        accepting_end(scan_from(s, e + 1, ScanState::BetweenSeg, o)),
    decreases s.len() - j,
{
    if s[j] == ']' {
        j
    } else {
        lemma_index_close(s, j + 1, o)
    }
}

/// Where a quoted key that the checker accepts closes.
proof fn lemma_quote_close(s: Seq<char>, j: int, q: char, o: int) -> (e: int)
    requires
        0 <= j <= s.len(),
        accepting_end(scan_from(s, j, ScanState::Bracket(BracketState::Quoted { q }), o)),
    ensures
        j <= e,
        e + 1 < s.len(),
        s[e] == q,
        s[e + 1] == ']',
        forall|k: int| j <= k < e ==> #[trigger] s[k] != q,
        accepting_end(scan_from(s, e + 2, ScanState::BetweenSeg, o)),
    decreases s.len() - j,
{
    if s[j] == q {
        assert(scan_from(s, j, ScanState::Bracket(BracketState::Quoted { q }), o) == scan_from(s, j + 1, ScanState::Bracket(BracketState::ExpectClose), o));
        if j + 1 < s.len() {
            if s[j + 1] == ']' {
                assert(scan_from(s, j + 1, ScanState::Bracket(BracketState::ExpectClose), o) == scan_from(s, j + 2, ScanState::BetweenSeg, o));
            } else {
                assert(scan_from(s, j + 1, ScanState::Bracket(BracketState::ExpectClose), o) is Failed);
            }
        }
        j
    } else {
        lemma_quote_close(s, j + 1, q, o)
    }
}

/// The tokens of a text that the checker accepts from a boundary state.
proof fn lemma_accepted_tokens(s: Seq<char>, st: ScanState, o: int) -> (toks: Seq<Seq<char>>)
    requires
        at_boundary(st),
        accepting_end(scan_from(s, 0, st, o)),
    ensures
        toks.flatten() == s,
        forall|k: int| 0 <= k < toks.len() ==> is_path_token(#[trigger] toks[k]),
    decreases s.len(),
{
    if s.len() == 0 {
        let toks = Seq::<Seq<char>>::empty();
        assert(toks.flatten() =~= s);
        toks
    } else {
        if s[0] == '[' {
            assert(scan_from(s, 0, st, o) == scan_from(s, 1, ScanState::Bracket(BracketState::Start), 0));
            if s.len() > 1 {
                let c = s[1];
                match scan_step(ScanState::Bracket(BracketState::Start), c) {
                    Step::Next(n) => {
                        assert(scan_from(s, 1, ScanState::Bracket(BracketState::Start), 0) == scan_from(s, 2, n, 0));
                    },
                    Step::Fail(_) => {},
                }
            }
        }
        let e: int = if s[0] == '[' {
            if s.len() > 1 && (s[1] == '"' || s[1] == '\'') {
                let q = s[1];
                let c = lemma_quote_close(s, 2, q, 0);
                c + 2
            } else if s.len() > 1 && crate::text::is_digit(s[1]) {
                let c = lemma_index_close(s, 2, 0);
                c + 1
            } else {
                if s.len() > 1 {
                    lemma_bare_rejected(s, 2, 0);
                }
                0
            }
        } else {
            1
        };
        assert(0 < e <= s.len());
        let t = s.take(e);
        let r = s.skip(e);
        assert(s =~= t + r);
        assert(is_path_token(t));
        lemma_scan_shift(t, r, 0, ScanState::BetweenSeg, 0, 0);
        if s[0] != '[' {
            let n = match scan_step(st, s[0]) {
                Step::Next(n) => n,
                Step::Fail(_) => st,
            };
            lemma_scan_shift(t, r, 0, n, if opens_bracket(st, s[0]) { 0 } else { o }, 0);
            lemma_scan_equiv(r, 0, n, 0, ScanState::BetweenSeg, 0);
        } else {
            lemma_scan_equiv(s, e, ScanState::BetweenSeg, 0, ScanState::BetweenSeg, t.len() as int);
        }
        let rest = lemma_accepted_tokens(r, ScanState::BetweenSeg, 0);
        let toks = seq![t] + rest;
        assert(toks.drop_first() =~= rest);
        assert(toks.flatten() =~= t + rest.flatten());
        assert forall|k: int| 0 <= k < toks.len() implies is_path_token(#[trigger] toks[k]) by {
            if k > 0 {
                assert(toks[k] == rest[k - 1]);
            }
        }
        toks
    }
}

/// The key-path grammar as a language: a text is a well-formed key path exactly when it is
/// not empty, neither starts nor ends with a dot, holds no two dots in a row, and is a run
/// of tokens, each a character other than a bracket, `[` digits `]`, or a quoted key
/// `["..."]` / `['...']` whose content holds no copy of its quote.
pub proof fn lemma_valid_path_grammar(s: Seq<char>)
    ensures
        is_valid_path(s) <==> {
            &&& s.len() > 0
            &&& s[0] != '.'
            &&& s.last() != '.'
            &&& !has_double_dot(s)
            &&& is_token_string(s)
        },
{
    if is_token_string(s) {
        let toks = choose|toks: Seq<Seq<char>>| toks.flatten() == s && forall|k: int| 0 <= k < toks.len() ==> is_path_token(#[trigger] toks[k]);
        lemma_tokens_accepted(toks, ScanState::BetweenSeg, 0);
    }
    if accepting_end(scan_from(s, 0, ScanState::BetweenSeg, 0)) {
        let toks = lemma_accepted_tokens(s, ScanState::BetweenSeg, 0);
        assert(toks.flatten() == s);
    }
}

} // verus!
