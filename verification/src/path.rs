//! Key paths: their segments, and the reading of validated key-path text into segments.
use vstd::prelude::*;
use crate::errors::{PathError, PathErrorView};
use crate::text::{all_digits, is_digit, usize_from_decimal};
use crate::validate::{
    has_double_dot, is_path_token, is_token_string,
    accepting_end, is_valid_path, lemma_bare_rejected, opens_bracket, path_syntax_outcome, scan_from,
    scan_step, validate_path_syntax, BracketState, ScanState, Step,
};

verus! {

/// The result of a key-path operation.
pub type PathResult<T> = Result<T, PathError>;

/// One step of a key path: a key of an object or an index of an array.
#[derive(Debug, PartialEq, Eq)]
pub enum PathSeg {
    Key(String),
    Index(usize),
}

/// A [`PathSeg`] as a plain value.
pub enum SegView {
    Key(Seq<char>),
    Index(usize),
}

impl View for PathSeg {
    type V = SegView;

    open spec fn view(&self) -> SegView {
        match self {
            PathSeg::Key(k) => SegView::Key(k@),
            PathSeg::Index(i) => SegView::Index(*i),
        }
    }
}

impl Clone for PathSeg {
    fn clone(&self) -> (res: Self)
        ensures
            res@ == self@,
    {
        match self {
            PathSeg::Key(k) => PathSeg::Key(k.clone()),
            PathSeg::Index(i) => PathSeg::Index(*i),
        }
    }
}

/// A key path: the segments to follow from a document's root, in order.
#[derive(Debug, PartialEq, Eq, Default)]
pub struct ValuePath(pub Vec<PathSeg>);

impl View for ValuePath {
    type V = Seq<SegView>;

    open spec fn view(&self) -> Seq<SegView> {
        self.0@.map_values(|s: PathSeg| s@)
    }
}

impl Clone for ValuePath {
    fn clone(&self) -> (res: Self)
        ensures
            res@ == self@,
    {
        let mut out: Vec<PathSeg> = Vec::new();
        let n = self.0.len();
        let mut k: usize = 0;
        while k < n
            invariant
                k <= n == self.0@.len(),
                out@.len() == k,
                forall|j: int| 0 <= j < k ==> #[trigger] out@[j]@ == self.0@[j]@,
            decreases n - k,
        {
            out.push(self.0[k].clone());
            k += 1;
        }
        let res = ValuePath(out);
        assert(res@ =~= self@);
        res
    }
}

impl ValuePath {
    pub fn new() -> (res: Self)
        ensures
            res@ == Seq::<SegView>::empty(),
    {
        let res = ValuePath(Vec::new());
        assert(res@ =~= Seq::<SegView>::empty());
        res
    }

    pub fn push_key(&mut self, k: String)
        ensures
            final(self)@ == old(self)@.push(SegView::Key(k@)),
    {
        self.0.push(PathSeg::Key(k));
        assert(self@ =~= old(self)@.push(SegView::Key(k@)));
    }

    pub fn push_index(&mut self, i: usize) -> (res: Result<(), PathError>)
        ensures
            res is Ok,
            final(self)@ == old(self)@.push(SegView::Index(i)),
    {
        self.0.push(PathSeg::Index(i));
        assert(self@ =~= old(self)@.push(SegView::Index(i)));
        Ok(())
    }

    /// Appends the index written in decimal by `s`; when `s` is not such an index
    /// (as `str::parse::<usize>` decides), the path is left as it was and the error names it.
    pub fn push_index_from_str(&mut self, s: &str) -> (res: Result<(), PathError>)
        ensures
            match crate::text::usize_from_decimal(s@) {
                Some(n) => res is Ok && final(self)@ == old(self)@.push(SegView::Index(n)),
                None => res matches Err(e) && e@ == (PathErrorView::InvalidIndex {
                    prefix: old(self)@,
                    raw: s@,
                }) && final(self)@ == old(self)@,
            },
    {
        let prefix = self.clone();
        match crate::text::parse_usize(s) {
            Some(idx) => self.push_index(idx),
            None => Err(PathError::invalid_index(prefix, crate::text::owned(s))),
        }
    }

    pub fn pop(&mut self)
        ensures
            final(self)@ == (if old(self)@.len() > 0 { old(self)@.drop_last() } else { old(self)@ }),
    {
        let _ = self.0.pop();
        assert(self@ =~= (if old(self)@.len() > 0 { old(self)@.drop_last() } else { old(self)@ }));
    }

    /// Whether the path has no segment.
    pub fn is_empty(&self) -> (res: bool)
        ensures
            res == (self@.len() == 0),
    {
        self.0.len() == 0
    }

    pub fn len(&self) -> (res: usize)
        ensures
            res == self@.len(),
    {
        self.0.len()
    }
}

/// Popping a segment just pushed gives back the path as it was: what `pop` makes of
/// `p.push(s)` is `p`.
pub proof fn lemma_pop_undoes_push(p: Seq<SegView>, s: SegView)
    ensures
        (if p.push(s).len() > 0 { p.push(s).drop_last() } else { p.push(s) }) == p,
{
    assert(p.push(s).drop_last() =~= p);
}

} // verus!

verus! {

/// Key-path text that the grammar accepts.
pub struct ValidatedPath(String);

impl View for ValidatedPath {
    type V = Seq<char>;

    closed spec fn view(&self) -> Seq<char> {
        self.0@
    }
}

impl ValidatedPath {
    #[verifier::type_invariant]
    closed spec fn accepted(self) -> bool {
        is_valid_path(self.0@)
    }

    /// Checks `path` against the key-path grammar and keeps it when it is accepted.
    pub fn new(path: &str) -> (res: Result<Self, PathError>)
        ensures
            match res {
                Ok(v) => v@ == path@ && is_valid_path(path@),
                Err(e) => path_syntax_outcome(path@) == Err::<(), PathErrorView>(e@),
            },
    {
        validate_path_syntax(path)?;
        Ok(ValidatedPath(crate::text::owned(path)))
    }

    /// The accepted text.
    pub fn as_str(&self) -> (res: &str)
        ensures
            res@ == self@,
            is_valid_path(self@),
    {
        proof {
            use_type_invariant(self);
        }
        self.0.as_str()
    }
}

impl core::str::FromStr for ValidatedPath {
    type Err = PathError;

    fn from_str(s: &str) -> (res: Result<Self, Self::Err>)
        ensures
            match res {
                Ok(v) => v@ == s@ && is_valid_path(s@),
                Err(e) => path_syntax_outcome(s@) == Err::<(), PathErrorView>(e@),
            },
    {
        ValidatedPath::new(s)
    }
}

impl<'a> TryFrom<&'a str> for ValidatedPath {
    type Error = PathError;

    fn try_from(s: &'a str) -> (res: Result<Self, Self::Error>)
        ensures
            match res {
                Ok(v) => v@ == s@ && is_valid_path(s@),
                Err(e) => path_syntax_outcome(s@) == Err::<(), PathErrorView>(e@),
            },
    {
        ValidatedPath::new(s)
    }
}

/// `try_from` states its result in its own contract (that of [`ValidatedPath::new`]); no
/// general conversion spec is claimed.
impl<'a> vstd::std_specs::convert::TryFromSpecImpl<&'a str> for ValidatedPath {
    open spec fn obeys_try_from_spec() -> bool {
        false
    }

    open spec fn try_from_spec(v: &'a str) -> Result<Self, PathError> {
        Err(PathError::EmptyPath)
    }
}

/// Where the reader of key-path text stands.
#[derive(Clone, Copy, PartialEq, Eq, Structural)]
pub enum ParseMode {
    Default,
    InBracket,
    InQuotes { q: char },
}

/// How reading key-path text into segments ends.
pub enum ParseEnd {
    /// the segments read
    Done(Seq<SegView>),
    /// the digits `raw` in brackets after the segments `prefix` are not a `usize`
    BadIndex { prefix: Seq<SegView>, raw: Seq<char> },
    /// the text is not one the grammar accepts, and the reader cannot go on
    Stuck,
}

/// The segments after ending a key being read: the pending characters, if any, form a key.
pub open spec fn flush_key(out: Seq<SegView>, buf: Seq<char>) -> Seq<SegView> {
    if buf.len() > 0 {
        out.push(SegView::Key(buf))
    } else {
        out
    }
}

/// Reads `s[i..]` in mode `mode`, with pending characters `buf` and segments `out` so far.
pub open spec fn parse_from(
    s: Seq<char>,
    i: int,
    mode: ParseMode,
    buf: Seq<char>,
    out: Seq<SegView>,
) -> ParseEnd
    decreases s.len() - i,
{
    if i < 0 || i >= s.len() {
        match mode {
            ParseMode::Default => ParseEnd::Done(flush_key(out, buf)),
            _ => ParseEnd::Stuck,
        }
    } else {
        let c = s[i];
        match mode {
            ParseMode::Default => if c == '.' {
                parse_from(s, i + 1, ParseMode::Default, Seq::empty(), flush_key(out, buf))
            } else if c == '[' {
                parse_from(s, i + 1, ParseMode::InBracket, Seq::empty(), flush_key(out, buf))
            } else {
                parse_from(s, i + 1, ParseMode::Default, buf.push(c), out)
            },
            ParseMode::InBracket => if is_digit(c) {
                parse_from(s, i + 1, ParseMode::InBracket, buf.push(c), out)
            } else if c == ']' {
                if buf.len() > 0 {
                    match usize_from_decimal(buf) {
                        Some(n) => parse_from(
                            s,
                            i + 1,
                            ParseMode::Default,
                            Seq::empty(),
                            out.push(SegView::Index(n)),
                        ),
                        None => ParseEnd::BadIndex { prefix: out, raw: buf },
                    }
                } else {
                    parse_from(s, i + 1, ParseMode::Default, buf, out)
                }
            } else if c == '"' || c == '\'' {
                parse_from(s, i + 1, ParseMode::InQuotes { q: c }, buf, out)
            } else {
                ParseEnd::Stuck
            },
            ParseMode::InQuotes { q } => if c == q {
                parse_from(s, i + 1, ParseMode::InBracket, Seq::empty(), flush_key(out, buf))
            } else {
                parse_from(s, i + 1, ParseMode::InQuotes { q }, buf.push(c), out)
            },
        }
    }
}

/// What reading the key-path text `s` into segments gives.
pub open spec fn parse_outcome(s: Seq<char>) -> ParseEnd {
    parse_from(s, 0, ParseMode::Default, Seq::empty(), Seq::empty())
}

/// How the grammar's state and the reader's state correspond while both read the same text.
pub open spec fn in_step(v: ScanState, m: ParseMode, buf: Seq<char>) -> bool {
    match v {
        ScanState::BetweenSeg | ScanState::BareKey => m == ParseMode::Default,
        ScanState::Bracket(b) => match b {
            BracketState::Start | BracketState::ExpectClose => m == ParseMode::InBracket
                && buf.len() == 0,
            BracketState::Index => m == ParseMode::InBracket && buf.len() > 0 && all_digits(buf),
            BracketState::Quoted { q } => m == (ParseMode::InQuotes { q }),
            BracketState::Bare => true,
        },
    }
}

proof fn lemma_digits_push(buf: Seq<char>, c: char)
    requires
        all_digits(buf),
        is_digit(c),
    ensures
        all_digits(buf.push(c)),
{
    assert forall|k: int| 0 <= k < buf.push(c).len() implies is_digit(#[trigger] buf.push(c)[k]) by {
        if k < buf.len() {
            assert(buf.push(c)[k] == buf[k]);
        }
    }
}

/// While the grammar goes on to accept the rest of the text, the reader never gets stuck.
proof fn lemma_reader_follows_grammar(
    s: Seq<char>,
    i: int,
    v: ScanState,
    open: int,
    m: ParseMode,
    buf: Seq<char>,
    out: Seq<SegView>,
)
    requires
        0 <= i <= s.len(),
        in_step(v, m, buf),
        accepting_end(scan_from(s, i, v, open)),
    ensures
        !(parse_from(s, i, m, buf, out) is Stuck),
    decreases s.len() - i,
{
    if i < s.len() {
        let c = s[i];
        let nopen = if opens_bracket(v, c) { i } else { open };
        if v == ScanState::Bracket(BracketState::Bare) {
            lemma_bare_rejected(s, i, open);
        }
        match scan_step(v, c) {
            Step::Next(nv) => {
                match m {
                    ParseMode::Default => {
                        if c == '.' {
                            lemma_reader_follows_grammar(s, i + 1, nv, nopen, ParseMode::Default, Seq::empty(), flush_key(out, buf));
                        } else if c == '[' {
                            lemma_reader_follows_grammar(s, i + 1, nv, nopen, ParseMode::InBracket, Seq::empty(), flush_key(out, buf));
                        } else {
                            lemma_reader_follows_grammar(s, i + 1, nv, nopen, ParseMode::Default, buf.push(c), out);
                        }
                    },
                    ParseMode::InBracket => {
                        if nv == ScanState::Bracket(BracketState::Bare) {
                            lemma_bare_rejected(s, i + 1, nopen);
                        } else if is_digit(c) {
                            if v == ScanState::Bracket(BracketState::Index) {
                                lemma_digits_push(buf, c);
                            } else {
                                assert(buf.push(c)[0] == c);
                                assert(all_digits(buf.push(c)));
                            }
                            lemma_reader_follows_grammar(s, i + 1, nv, nopen, ParseMode::InBracket, buf.push(c), out);
                        } else if c == ']' {
                            if buf.len() > 0 {
                                if let Some(n) = usize_from_decimal(buf) {
                                    lemma_reader_follows_grammar(s, i + 1, nv, nopen, ParseMode::Default, Seq::empty(), out.push(SegView::Index(n)));
                                }
                            } else {
                                lemma_reader_follows_grammar(s, i + 1, nv, nopen, ParseMode::Default, buf, out);
                            }
                        } else if c == '"' || c == '\'' {
                            lemma_reader_follows_grammar(s, i + 1, nv, nopen, ParseMode::InQuotes { q: c }, buf, out);
                        }
                    },
                    ParseMode::InQuotes { q } => {
                        if c == q {
                            lemma_reader_follows_grammar(s, i + 1, nv, nopen, ParseMode::InBracket, Seq::empty(), flush_key(out, buf));
                        } else {
                            lemma_reader_follows_grammar(s, i + 1, nv, nopen, ParseMode::InQuotes { q }, buf.push(c), out);
                        }
                    },
                }
            },
            Step::Fail(_) => {},
        }
    }
}

/// Every key path that the grammar accepts is read into segments without the reader
/// getting stuck: the result is the segments, or an index too large for a `usize`.
pub proof fn lemma_accepted_paths_are_read(s: Seq<char>)
    requires
        is_valid_path(s),
    ensures
        !(parse_outcome(s) is Stuck),
{
    lemma_reader_follows_grammar(s, 0, ScanState::BetweenSeg, 0, ParseMode::Default, Seq::empty(), Seq::empty());
}

} // verus!

verus! {

/// Reads validated key-path text into its segments: bare keys between dots, quoted keys
/// in brackets (empty ones are dropped), and indices in brackets.  The one failure is an
/// index too large for a `usize`.
pub fn create_value_path(validated_path: &ValidatedPath) -> (res: Result<ValuePath, PathError>)
    ensures
        !(parse_outcome(validated_path@) is Stuck),
        match res {
            Ok(p) => parse_outcome(validated_path@) == ParseEnd::Done(p@),
            Err(e) => parse_outcome(validated_path@) matches ParseEnd::BadIndex { prefix, raw }
                && e@ == (PathErrorView::InvalidIndex { prefix, raw }),
        },
{
    let text = validated_path.as_str();
    let ghost s = text@;
    proof {
        lemma_accepted_paths_are_read(s);
    }
    let characters = crate::text::chars_of(text);
    let n = characters.len();
    let mut output_path = ValuePath::new();
    let mut buffer = String::new();
    let mut mode = ParseMode::Default;
    let ghost mut grammar = ScanState::BetweenSeg;
    let ghost mut open: int = 0;
    let mut i: usize = 0;
    while i < n
        invariant
            n == characters@.len() == s.len(),
            characters@ == s,
            s == validated_path@,
            i <= n,
            in_step(grammar, mode, buffer@),
            accepting_end(scan_from(s, i as int, grammar, open)),
            parse_from(s, i as int, mode, buffer@, output_path@) == parse_outcome(s),
        decreases n - i,
    {
        let character = characters[i];
        let ghost next_open = if opens_bracket(grammar, character) { i as int } else { open };
        proof {
            lemma_reader_follows_grammar(s, i as int, grammar, open, mode, buffer@, output_path@);
            if grammar == ScanState::Bracket(BracketState::Bare) {
                lemma_bare_rejected(s, i as int, open);
            }
        }
        let ghost next_grammar = match scan_step(grammar, character) {
            Step::Next(g) => g,
            Step::Fail(_) => grammar,
        };
        match mode {
            ParseMode::Default => {
                if character == '.' || character == '[' {
                    if !buffer.as_str().is_empty() {
                        output_path.push_key(buffer);
                        buffer = String::new();
                    }
                    if character == '[' {
                        mode = ParseMode::InBracket;
                    }
                } else {
                    crate::text::push_char(&mut buffer, character);
                }
            },
            ParseMode::InBracket => {
                if '0' <= character && character <= '9' {
                    proof {
                        if grammar == ScanState::Bracket(BracketState::Index) {
                            lemma_digits_push(buffer@, character);
                        } else {
                            assert(buffer@.push(character)[0] == character);
                            assert(all_digits(buffer@.push(character)));
                        }
                    }
                    crate::text::push_char(&mut buffer, character);
                } else if character == ']' {
                    if !buffer.as_str().is_empty() {
                        output_path.push_index_from_str(buffer.as_str())?;
                        buffer = String::new();
                    }
                    mode = ParseMode::Default;
                } else if character == '"' || character == '\'' {
                    mode = ParseMode::InQuotes { q: character };
                } else {
                    proof {
                        assert(false);
                    }
                }
            },
            ParseMode::InQuotes { q } => {
                if character == q {
                    if !buffer.as_str().is_empty() {
                        output_path.push_key(buffer);
                        buffer = String::new();
                    }
                    mode = ParseMode::InBracket;
                } else {
                    crate::text::push_char(&mut buffer, character);
                }
            },
        }
        proof {
            if buffer@.len() == 0 {
                assert(buffer@ =~= Seq::<char>::empty());
            }
            grammar = next_grammar;
            open = next_open;
        }
        i += 1;
    }
    if !buffer.as_str().is_empty() {
        output_path.push_key(buffer);
    }
    Ok(output_path)
}

} // verus!

verus! {

/// How a segment is shown on its own: `.key` or `[index]`.
pub open spec fn seg_text(s: SegView) -> Seq<char> {
    match s {
        SegView::Key(k) => seq!['.'] + k,
        SegView::Index(i) => seq!['['] + crate::text::decimal_text(i as nat) + seq![']'],
    }
}

/// How a path is shown: keys joined by dots (the first without one), indices in brackets.
pub open spec fn path_text(p: Seq<SegView>) -> Seq<char>
    decreases p.len(),
{
    if p.len() == 0 {
        Seq::empty()
    } else {
        path_text(p.drop_last()) + match p.last() {
            SegView::Key(k) => if p.len() == 1 { k } else { seq!['.'] + k },
            SegView::Index(i) => seq!['['] + crate::text::decimal_text(i as nat) + seq![']'],
        }
    }
}

impl PathSeg {
    /// This segment as shown on its own: `.key` or `[index]`.
    pub fn to_display_string(&self) -> (res: String)
        ensures
            res@ == seg_text(self@),
    {
        match self {
            PathSeg::Key(key) => {
                proof {
                    reveal_strlit(".");
                }
                let mut out = crate::text::owned(".");
                out.append(key.as_str());
                assert(out@ =~= seg_text(self@));
                out
            },
            PathSeg::Index(idx) => {
                proof {
                    reveal_strlit("[");
                    reveal_strlit("]");
                }
                let mut out = crate::text::owned("[");
                crate::text::push_decimal(&mut out, *idx);
                out.append("]");
                assert(out@ =~= seg_text(self@));
                out
            },
        }
    }
}

impl ValuePath {
    /// This path as shown: `top.list[2].name`.
    pub fn to_display_string(&self) -> (res: String)
        ensures
            res@ == path_text(self@),
    {
        let mut out = String::new();
        let n = self.0.len();
        let mut i: usize = 0;
        proof {
            reveal_strlit(".");
            reveal_strlit("[");
            reveal_strlit("]");
        }
        while i < n
            invariant
                i <= n == self.0@.len() == self@.len(),
                out@ == path_text(self@.take(i as int)),
                "."@ == seq!['.'],
                "["@ == seq!['['],
                "]"@ == seq![']'],
            decreases n - i,
        {
            let ghost before = out@;
            assert(self@.take(i + 1).drop_last() =~= self@.take(i as int));
            assert(self@.take(i + 1).last() == self.0@[i as int]@);
            match &self.0[i] {
                PathSeg::Key(k) => {
                    if i == 0 {
                        out.append(k.as_str());
                    } else {
                        out.append(".");
                        out.append(k.as_str());
                    }
                },
                PathSeg::Index(idx) => {
                    out.append("[");
                    crate::text::push_decimal(&mut out, *idx);
                    out.append("]");
                },
            }
            assert(out@ =~= path_text(self@.take(i + 1)));
            i += 1;
        }
        assert(self@.take(n as int) =~= self@);
        out
    }
}

} // verus!

verus! {

/// A key that can be written bare in a path: not empty, and free of dots and brackets.
pub open spec fn is_plain_key(k: Seq<char>) -> bool {
    &&& k.len() > 0
    &&& forall|i: int| 0 <= i < k.len() ==> #[trigger] k[i] != '.' && k[i] != '[' && k[i] != ']'
}

/// A path with at least one segment whose keys can all be written bare.
pub open spec fn is_plain_path(p: Seq<SegView>) -> bool {
    &&& p.len() > 0
    &&& forall|j: int| 0 <= j < p.len() ==> (#[trigger] p[j] matches SegView::Key(k) ==> is_plain_key(k))
}

proof fn lemma_digit_value_of_char(d: nat)
    requires
        d < 10,
    ensures
        is_digit(crate::text::digit_char(d)),
        crate::text::digit_value(crate::text::digit_char(d)) == d,
{
    let c = crate::text::digit_char(d);
    assert(('0' as u32) == 48);
    assert(c as int == 48 + d);
}

proof fn lemma_decimal_text_reads_back(n: nat)
    ensures
        crate::text::decimal_text(n).len() > 0,
        all_digits(crate::text::decimal_text(n)),
        crate::text::decimal_value(crate::text::decimal_text(n)) == n,
    decreases n,
{
    let d = crate::text::decimal_text(n);
    lemma_digit_value_of_char(n % 10);
    if n >= 10 {
        lemma_decimal_text_reads_back(n / 10);
        let h = crate::text::decimal_text(n / 10);
        assert(d == h.push(crate::text::digit_char(n % 10)));
        assert(d.drop_last() =~= h);
        assert(d.last() == crate::text::digit_char(n % 10));
        assert((n / 10) * 10 + n % 10 == n) by (nonlinear_arith);
        assert(crate::text::decimal_value(d) == crate::text::decimal_value(h) * 10 + crate::text::digit_value(d.last()));
        assert forall|k: int| 0 <= k < d.len() implies is_digit(#[trigger] d[k]) by {
            if k < h.len() {
                assert(d[k] == h[k]);
            }
        }
    } else {
        assert(d.drop_last() =~= Seq::<char>::empty());
        assert(d.last() == crate::text::digit_char(n % 10));
        assert(n % 10 == n);
        assert(crate::text::decimal_value(d) == crate::text::decimal_value(d.drop_last()) * 10 + crate::text::digit_value(d.last()));
    }
}

/// The digits of an index read back as that index.
proof fn lemma_index_text_reads_back(n: usize)
    ensures
        usize_from_decimal(crate::text::decimal_text(n as nat)) == Some(n),
{
    lemma_decimal_text_reads_back(n as nat);
    let d = crate::text::decimal_text(n as nat);
    assert(is_digit(d[0]));
    assert(crate::text::without_plus(d) == d);
}

} // verus!

verus! {

/// What a reader that has read all of `path_text(p)` still holds: the last key, not yet
/// ended, and the segments before it; or nothing pending after an index.
pub open spec fn pending(p: Seq<SegView>) -> (Seq<char>, Seq<SegView>) {
    if p.len() > 0 && p.last() is Key {
        (p.last()->Key_0, p.drop_last())
    } else {
        (Seq::empty(), p)
    }
}

/// Whether every key of `p` can be written bare.
pub open spec fn keys_plain(p: Seq<SegView>) -> bool {
    forall|j: int| 0 <= j < p.len() ==> (#[trigger] p[j] matches SegView::Key(k) ==> is_plain_key(k))
}

proof fn lemma_key_chars_run(s: Seq<char>, j: int, e: int, b: Seq<char>, o: Seq<SegView>)
    requires
        0 <= j <= e <= s.len(),
        forall|k: int| j <= k < e ==> #[trigger] s[k] != '.' && s[k] != '[',
    ensures
        parse_from(s, j, ParseMode::Default, b, o) == parse_from(s, e, ParseMode::Default, b + s.subrange(j, e), o),
    decreases e - j,
{
    if j < e {
        lemma_key_chars_run(s, j + 1, e, b.push(s[j]), o);
        assert(b.push(s[j]) + s.subrange(j + 1, e) =~= b + s.subrange(j, e));
    } else {
        assert(b + s.subrange(j, e) =~= b);
    }
}

proof fn lemma_digit_chars_run(s: Seq<char>, j: int, e: int, b: Seq<char>, o: Seq<SegView>)
    requires
        0 <= j <= e <= s.len(),
        forall|k: int| j <= k < e ==> is_digit(#[trigger] s[k]),
    ensures
        parse_from(s, j, ParseMode::InBracket, b, o) == parse_from(s, e, ParseMode::InBracket, b + s.subrange(j, e), o),
    decreases e - j,
{
    if j < e {
        lemma_digit_chars_run(s, j + 1, e, b.push(s[j]), o);
        assert(b.push(s[j]) + s.subrange(j + 1, e) =~= b + s.subrange(j, e));
    } else {
        assert(b + s.subrange(j, e) =~= b);
    }
}

proof fn lemma_flush_pending(q: Seq<SegView>)
    requires
        keys_plain(q),
    ensures
        flush_key(pending(q).1, pending(q).0) == q,
{
    if q.len() > 0 && q.last() is Key {
        assert(q[q.len() - 1] == q.last());
        assert(q.drop_last().push(q.last()) =~= q);
    }
}

/// Reading `path_text(p)`, followed by anything, leaves the reader at its end with
/// `pending(p)`.
proof fn lemma_plain_path_read(p: Seq<SegView>, r: Seq<char>)
    requires
        keys_plain(p),
    ensures
        parse_from(path_text(p) + r, 0, ParseMode::Default, Seq::empty(), Seq::empty()) == parse_from(
            path_text(p) + r,
            path_text(p).len() as int,
            ParseMode::Default,
            pending(p).0,
            pending(p).1,
        ),
    decreases p.len(),
{
    if p.len() > 0 {
        let q = p.drop_last();
        let t = path_text(q);
        let piece: Seq<char> = match p.last() {
            SegView::Key(k) => if p.len() == 1 { k } else { seq!['.'] + k },
            SegView::Index(i) => seq!['['] + crate::text::decimal_text(i as nat) + seq![']'],
        };
        assert(path_text(p) == t + piece);
        let s = path_text(p) + r;
        let tl: int = t.len() as int;
        let pl: int = piece.len() as int;
        assert(s =~= t + (piece + r));
        assert forall|j: int| 0 <= j < q.len() implies (#[trigger] q[j] matches SegView::Key(k) ==> is_plain_key(k)) by {
            assert(q[j] == p[j]);
        }
        lemma_plain_path_read(q, piece + r);
        assert(path_text(q) + (piece + r) == s);
        let pq = pending(q);
        assert(parse_from(s, 0, ParseMode::Default, Seq::empty(), Seq::empty()) == parse_from(s, tl, ParseMode::Default, pq.0, pq.1));
        assert forall|k: int| 0 <= k < piece.len() implies #[trigger] s[t.len() + k] == piece[k] by {}
        assert(p[p.len() - 1] == p.last());
        lemma_flush_pending(q);
        assert(path_text(p).len() == tl + pl);
        match p.last() {
            SegView::Key(k) => {
                let start: int = if p.len() == 1 { 0 } else { 1 };
                if p.len() > 1 {
                    assert(s[tl] == '.');
                    assert(parse_from(s, tl, ParseMode::Default, pq.0, pq.1) == parse_from(s, tl + 1, ParseMode::Default, Seq::empty(), flush_key(pq.1, pq.0)));
                }
                assert(piece.subrange(start, piece.len() as int) =~= k);
                assert forall|m: int| tl + start <= m < tl + pl implies #[trigger] s[m] != '.' && s[m] != '[' by {
                    assert(s[m] == piece[m - t.len()]);
                    assert(piece[m - t.len()] == k[m - t.len() - start]);
                }
                lemma_key_chars_run(s, tl + start, tl + pl, Seq::empty(), q);
                assert(s.subrange(tl + start, tl + pl) =~= k);
                assert(Seq::<char>::empty() + k =~= k);
                if p.len() == 1 {
                    assert(q =~= Seq::<SegView>::empty());
                    assert(t =~= Seq::<char>::empty());
                    assert(pq.0 =~= Seq::<char>::empty());
                }
                assert(pending(p) == (k, q));
                assert(parse_from(s, tl + start, ParseMode::Default, Seq::empty(), q) == parse_from(s, tl + pl, ParseMode::Default, k, q));
                assert(parse_from(s, tl, ParseMode::Default, pq.0, pq.1) == parse_from(s, tl + pl, ParseMode::Default, pending(p).0, pending(p).1));
            },
            SegView::Index(i) => {
                let d = crate::text::decimal_text(i as nat);
                let dl: int = d.len() as int;
                lemma_decimal_text_reads_back(i as nat);
                lemma_index_text_reads_back(i);
                assert(s[tl] == '[');
                assert(parse_from(s, tl, ParseMode::Default, pq.0, pq.1) == parse_from(s, tl + 1, ParseMode::InBracket, Seq::empty(), q));
                assert forall|m: int| tl + 1 <= m < tl + 1 + dl implies is_digit(#[trigger] s[m]) by {
                    assert(s[m] == piece[m - t.len()]);
                    assert(piece[m - t.len()] == d[m - t.len() - 1]);
                }
                lemma_digit_chars_run(s, tl + 1, tl + 1 + dl, Seq::empty(), q);
                assert(s.subrange(tl + 1, tl + 1 + dl) =~= d);
                assert(Seq::<char>::empty() + d =~= d);
                assert(s[tl + 1 + dl] == ']');
                assert(q.push(SegView::Index(i)) =~= p);
                assert(parse_from(s, tl + 1 + dl, ParseMode::InBracket, d, q) == parse_from(s, tl + 2 + dl, ParseMode::Default, Seq::empty(), p));
                assert(pl == dl + 2);
                assert(pending(p) == (Seq::<char>::empty(), p));
                assert(parse_from(s, tl, ParseMode::Default, pq.0, pq.1) == parse_from(s, tl + pl, ParseMode::Default, pending(p).0, pending(p).1));
            },
        }
    } else {
        assert(p =~= Seq::<SegView>::empty());
        assert(path_text(p) =~= Seq::<char>::empty());
    }
}

} // verus!

verus! {

proof fn lemma_flatten_concat(a: Seq<Seq<char>>, b: Seq<Seq<char>>)
    ensures
        (a + b).flatten() == a.flatten() + b.flatten(),
    decreases a.len(),
{
    if a.len() == 0 {
        assert(a + b =~= b);
        assert(a.flatten() + b.flatten() =~= b.flatten());
    } else {
        lemma_flatten_concat(a.drop_first(), b);
        assert((a + b).drop_first() =~= a.drop_first() + b);
        assert((a + b).first() == a.first());
        assert(a.first() + (a.drop_first().flatten() + b.flatten()) =~= (a.first() + a.drop_first().flatten()) + b.flatten());
    }
}

proof fn lemma_token_string_concat(a: Seq<char>, b: Seq<char>)
    requires
        is_token_string(a),
        is_token_string(b),
    ensures
        is_token_string(a + b),
{
    let ta = choose|toks: Seq<Seq<char>>| toks.flatten() == a && forall|k: int| 0 <= k < toks.len() ==> is_path_token(#[trigger] toks[k]);
    let tb = choose|toks: Seq<Seq<char>>| toks.flatten() == b && forall|k: int| 0 <= k < toks.len() ==> is_path_token(#[trigger] toks[k]);
    lemma_flatten_concat(ta, tb);
    assert forall|k: int| 0 <= k < (ta + tb).len() implies is_path_token(#[trigger] (ta + tb)[k]) by {
        if k < ta.len() {
            assert((ta + tb)[k] == ta[k]);
        } else {
            assert((ta + tb)[k] == tb[k - ta.len()]);
        }
    }
}

proof fn lemma_single_token(t: Seq<char>)
    requires
        is_path_token(t),
    ensures
        is_token_string(t),
{
    let toks = seq![t];
    assert(toks.drop_first() =~= Seq::<Seq<char>>::empty());
    assert(toks.first() == t);
    assert(Seq::<Seq<char>>::empty().flatten() == Seq::<char>::empty());
    assert(toks.flatten() == t + Seq::<char>::empty());
    assert(t + Seq::<char>::empty() =~= t);
    assert forall|k: int| 0 <= k < toks.len() implies is_path_token(#[trigger] toks[k]) by {}
}

proof fn lemma_bracket_free_tokens(s: Seq<char>)
    requires
        forall|i: int| 0 <= i < s.len() ==> #[trigger] s[i] != '[' && s[i] != ']',
    ensures
        is_token_string(s),
    decreases s.len(),
{
    if s.len() == 0 {
        let toks = Seq::<Seq<char>>::empty();
        assert(toks.flatten() =~= s);
    } else {
        let rest = s.drop_first();
        assert forall|i: int| 0 <= i < rest.len() implies #[trigger] rest[i] != '[' && rest[i] != ']' by {
            assert(rest[i] == s[i + 1]);
        }
        lemma_bracket_free_tokens(rest);
        lemma_single_token(seq![s[0]]);
        lemma_token_string_concat(seq![s[0]], rest);
        assert(seq![s[0]] + rest =~= s);
    }
}

/// The shape of the text of a plain path: it neither starts nor ends with a dot, holds no
/// two dots in a row, ends in a key character or `]`, and is a run of tokens.
proof fn lemma_plain_path_text(p: Seq<SegView>)
    requires
        p.len() > 0,
        keys_plain(p),
    ensures
        path_text(p).len() > 0,
        path_text(p)[0] != '.',
        path_text(p).last() != '.',
        path_text(p).last() != '[',
        !has_double_dot(path_text(p)),
        is_token_string(path_text(p)),
    decreases p.len(),
{
    let q = p.drop_last();
    let t = path_text(q);
    let text = path_text(p);
    assert(p[p.len() - 1] == p.last());
    assert forall|j: int| 0 <= j < q.len() implies (#[trigger] q[j] matches SegView::Key(k) ==> is_plain_key(k)) by {
        assert(q[j] == p[j]);
    }
    let piece: Seq<char> = match p.last() {
        SegView::Key(k) => if p.len() == 1 { k } else { seq!['.'] + k },
        SegView::Index(i) => seq!['['] + crate::text::decimal_text(i as nat) + seq![']'],
    };
    assert(text == t + piece);
    let tl: int = t.len() as int;
    if q.len() > 0 {
        lemma_plain_path_text(q);
    } else {
        assert(t =~= Seq::<char>::empty());
    }
    assert forall|m: int| 0 <= m < piece.len() implies #[trigger] text[tl + m] == piece[m] by {}
    assert forall|m: int| 0 <= m < tl implies #[trigger] text[m] == t[m] by {}
    match p.last() {
        SegView::Key(k) => {
            assert(is_plain_key(k));
            assert forall|i: int| 0 <= i < k.len() implies #[trigger] k[i] != '[' && k[i] != ']' by {}
            lemma_bracket_free_tokens(k);
            if p.len() == 1 {
                assert(text =~= k);
            } else {
                assert(piece[0] == '.');
                assert forall|m: int| 1 <= m < piece.len() implies #[trigger] piece[m] != '.' && piece[m] != '[' && piece[m] != ']' by {
                    assert(piece[m] == k[m - 1]);
                }
                lemma_single_token(seq!['.']);
                lemma_token_string_concat(seq!['.'], k);
                lemma_token_string_concat(t, piece);
                assert(piece.last() == k.last());
                assert forall|m: int| 0 <= m && m + 1 < text.len() implies !(text[m] == '.' && #[trigger] text[m + 1] == '.') by {
                    if m + 1 < tl {
                        assert(text[m] == t[m] && text[m + 1] == t[m + 1]);
                    } else if m + 1 == tl {
                        assert(text[m] == t.last());
                    } else {
                        assert(text[m + 1] == piece[m + 1 - tl]);
                    }
                }
            }
        },
        SegView::Index(i) => {
            let d = crate::text::decimal_text(i as nat);
            lemma_decimal_text_reads_back(i as nat);
            assert(piece.len() == d.len() + 2);
            assert forall|m: int| 1 <= m < piece.len() - 1 implies is_digit(#[trigger] piece[m]) by {
                assert(piece[m] == d[m - 1]);
            }
            assert(crate::validate::is_index_group(piece));
            lemma_single_token(piece);
            if q.len() > 0 {
                lemma_token_string_concat(t, piece);
            } else {
                assert(text =~= piece);
            }
            assert forall|m: int| 0 <= m < piece.len() implies #[trigger] piece[m] != '.' by {
                if 1 <= m < piece.len() - 1 {
                    assert(is_digit(piece[m]));
                }
            }
            assert forall|m: int| 0 <= m && m + 1 < text.len() implies !(text[m] == '.' && #[trigger] text[m + 1] == '.') by {
                if m + 1 < tl {
                    assert(text[m] == t[m] && text[m + 1] == t[m + 1]);
                } else {
                    assert(text[m + 1] == piece[m + 1 - tl]);
                }
            }
        },
    }
}

/// Showing a plain path (one or more segments, every key non-empty and free of dots and
/// brackets) gives a well-formed key path, and reading that text gives back the path.
pub proof fn lemma_shown_plain_path_reads_back(p: Seq<SegView>)
    requires
        is_plain_path(p),
    ensures
        is_valid_path(path_text(p)),
        parse_outcome(path_text(p)) == ParseEnd::Done(p),
{
    assert forall|j: int| 0 <= j < p.len() implies (#[trigger] p[j] matches SegView::Key(k) ==> is_plain_key(k)) by {}
    lemma_plain_path_text(p);
    crate::validate::lemma_valid_path_grammar(path_text(p));
    lemma_plain_path_read(p, Seq::empty());
    assert(path_text(p) + Seq::<char>::empty() =~= path_text(p));
    lemma_flush_pending(p);
}

} // verus!

verus! {

proof fn lemma_quoted_chars_run(s: Seq<char>, j: int, e: int, q: char, b: Seq<char>, o: Seq<SegView>)
    requires
        0 <= j <= e <= s.len(),
        forall|k: int| j <= k < e ==> #[trigger] s[k] != q,
    ensures
        parse_from(s, j, ParseMode::InQuotes { q }, b, o) == parse_from(s, e, ParseMode::InQuotes { q }, b + s.subrange(j, e), o),
    decreases e - j,
{
    if j < e {
        lemma_quoted_chars_run(s, j + 1, e, q, b.push(s[j]), o);
        assert(b.push(s[j]) + s.subrange(j + 1, e) =~= b + s.subrange(j, e));
    } else {
        assert(b + s.subrange(j, e) =~= b);
    }
}

/// Reading `s` followed by the group `[q t q]` from any point of `s` whose reading ends in
/// the segments `p` ends in `p` followed by the key `t`.
proof fn lemma_parse_then_quoted(
    s: Seq<char>,
    i: int,
    m: ParseMode,
    b: Seq<char>,
    o: Seq<SegView>,
    q: char,
    t: Seq<char>,
    p: Seq<SegView>,
)
    requires
        0 <= i <= s.len(),
        q == '"' || q == '\'',
        t.len() > 0,
        forall|k: int| 0 <= k < t.len() ==> #[trigger] t[k] != q,
        parse_from(s, i, m, b, o) == ParseEnd::Done(p),
    ensures
        parse_from(s + (seq!['[', q] + t + seq![q, ']']), i, m, b, o) == ParseEnd::Done(p.push(SegView::Key(t))),
    decreases s.len() - i,
{
    let g = seq!['[', q] + t + seq![q, ']'];
    let sg = s + g;
    let n: int = s.len() as int;
    let tl: int = t.len() as int;
    if i == n {
        assert(m == ParseMode::Default);
        assert(flush_key(o, b) == p);
        assert forall|k: int| 0 <= k < g.len() implies #[trigger] sg[n + k] == g[k] by {}
        assert(sg[n] == '[');
        assert(sg[n + 1] == q);
        assert(parse_from(sg, n, m, b, o) == parse_from(sg, n + 1, ParseMode::InBracket, Seq::empty(), p));
        assert(parse_from(sg, n + 1, ParseMode::InBracket, Seq::empty(), p) == parse_from(sg, n + 2, ParseMode::InQuotes { q }, Seq::empty(), p));
        assert forall|k: int| n + 2 <= k < n + 2 + tl implies #[trigger] sg[k] != q by {
            assert(sg[k] == g[k - n]);
            assert(g[k - n] == t[k - n - 2]);
        }
        lemma_quoted_chars_run(sg, n + 2, n + 2 + tl, q, Seq::empty(), p);
        assert(sg.subrange(n + 2, n + 2 + tl) =~= t);
        assert(Seq::<char>::empty() + t =~= t);
        assert(sg[n + 2 + tl] == q);
        assert(sg[n + 3 + tl] == ']');
        assert(flush_key(p, t) == p.push(SegView::Key(t)));
        assert(parse_from(sg, n + 2 + tl, ParseMode::InQuotes { q }, t, p) == parse_from(sg, n + 3 + tl, ParseMode::InBracket, Seq::empty(), p.push(SegView::Key(t))));
        assert(parse_from(sg, n + 3 + tl, ParseMode::InBracket, Seq::empty(), p.push(SegView::Key(t))) == parse_from(sg, n + 4 + tl, ParseMode::Default, Seq::empty(), p.push(SegView::Key(t))));
        assert(sg.len() == n + 4 + tl);
        assert(flush_key(p.push(SegView::Key(t)), Seq::empty()) == p.push(SegView::Key(t)));
    } else {
        let c = s[i];
        assert(sg[i] == c);
        match m {
            ParseMode::Default => {
                if c == '.' {
                    lemma_parse_then_quoted(s, i + 1, ParseMode::Default, Seq::empty(), flush_key(o, b), q, t, p);
                } else if c == '[' {
                    lemma_parse_then_quoted(s, i + 1, ParseMode::InBracket, Seq::empty(), flush_key(o, b), q, t, p);
                } else {
                    lemma_parse_then_quoted(s, i + 1, ParseMode::Default, b.push(c), o, q, t, p);
                }
            },
            ParseMode::InBracket => {
                if is_digit(c) {
                    lemma_parse_then_quoted(s, i + 1, ParseMode::InBracket, b.push(c), o, q, t, p);
                } else if c == ']' {
                    if b.len() > 0 {
                        if let Some(x) = usize_from_decimal(b) {
                            lemma_parse_then_quoted(s, i + 1, ParseMode::Default, Seq::empty(), o.push(SegView::Index(x)), q, t, p);
                        }
                    } else {
                        lemma_parse_then_quoted(s, i + 1, ParseMode::Default, b, o, q, t, p);
                    }
                } else if c == '"' || c == '\'' {
                    lemma_parse_then_quoted(s, i + 1, ParseMode::InQuotes { q: c }, b, o, q, t, p);
                }
            },
            ParseMode::InQuotes { q: q2 } => {
                if c == q2 {
                    lemma_parse_then_quoted(s, i + 1, ParseMode::InBracket, Seq::empty(), flush_key(o, b), q, t, p);
                } else {
                    lemma_parse_then_quoted(s, i + 1, ParseMode::InQuotes { q: q2 }, b.push(c), o, q, t, p);
                }
            },
        }
    }
}

/// A quoted bracket segment `["t"]` or `['t']`, whose content `t` is not empty and holds no
/// copy of its quote, is read as the single key `t`, whatever characters `t` holds, digits
/// included: appending it to key-path text that reads into the segments `p` gives text that
/// reads into `p` followed by the key `t`.
pub proof fn lemma_quoted_segment_is_key(s: Seq<char>, q: char, t: Seq<char>, p: Seq<SegView>)
    requires
        q == '"' || q == '\'',
        t.len() > 0,
        forall|k: int| 0 <= k < t.len() ==> #[trigger] t[k] != q,
        parse_outcome(s) == ParseEnd::Done(p),
    ensures
        parse_outcome(s + (seq!['[', q] + t + seq![q, ']'])) == ParseEnd::Done(p.push(SegView::Key(t))),
{
    lemma_parse_then_quoted(s, 0, ParseMode::Default, Seq::empty(), Seq::empty(), q, t, p);
}

} // verus!
