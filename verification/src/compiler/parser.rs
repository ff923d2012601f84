//! A single-pass pushdown parser for the rule language. An explicit stack of
//! pending grammar obligations replaces recursive-descent call frames: each
//! character either satisfies the topmost obligation, grows it, closes it and
//! is re-dispatched against the next one, or is a positioned syntax error.
//!
//! The grammar currently accepts one package declaration,
//! `pkg <dotted-identifier> ;`, interleaved with whitespace and `#`-comments.

use vstd::prelude::*;
use crate::compiler::readchars;
use crate::compiler::readchars::ReadChars;
use crate::compiler::readchars::decoded_chars;
use crate::compiler::readchars::decode_fails;

verus! {

/// One pending unit of grammar held on the obligation stack.
#[derive(Copy, Clone)]
pub enum State {
    /// Inside a `#`-comment, which only a newline terminates.
    Comment,
    /// The acceptance marker: the whole statement has been satisfied.
    Root,
    /// The `p` of the `pkg` keyword (or the `#` opening a comment).
    PkgP,
    /// The `k` of the `pkg` keyword.
    PkgK,
    /// The `g` of the `pkg` keyword.
    PkgG,
    /// One identifier segment of the dotted package name.
    PkgIdentifier,
    /// An optional further `.`-separated segment.
    OptionalPkgNameDot,
    /// The closing `;`.
    Semi,
}

/// What the parser was expecting when it stopped.
#[derive(Copy, Clone, Debug, PartialEq, Eq)]
pub enum Expectation {
    /// The start of the package statement: `p`, or a `#` comment.
    PackageStart,
    /// The `k` of the `pkg` keyword.
    KeywordK,
    /// The `g` of the `pkg` keyword.
    KeywordG,
    /// The first character of an identifier segment.
    Identifier,
    /// The closing `;`.
    Semicolon,
    /// The end of the input: nothing may follow the statement.
    EndOfInput,
    /// More input: the input ended with obligations still pending.
    MoreInput,
}

/// A parse failure, carrying the 1-based (line, column) position at
/// detection time.
#[derive(Debug)]
pub enum Error {
    /// The input bytes are not valid UTF-8 at this position; wraps the
    /// decoder's error.
    Utf8Error((usize, usize), readchars::Error),
    /// The character at this position satisfies no transition of the
    /// current obligation.
    ParseError((usize, usize), Expectation),
    /// The obligation stack was unexpectedly empty: an internal invariant
    /// violation that a consistent grammar table never produces.
    InvalidState((usize, usize)),
}

/// The description owed for each failure kind.
pub open spec fn spec_message(e: Error) -> Seq<char> {
    match e {
        Error::Utf8Error(p, u) => "Invalid UTF-8 in input"@,
        Error::ParseError(p, exp) => match exp {
            Expectation::PackageStart => "Unexpected input, expecting start of package (ex: \"pkg my.package.name;\")"@,
            Expectation::KeywordK => "Unexpected input, expecting start of package (ex: \"pkg my.package.name;\")"@,
            Expectation::KeywordG => "Unexpected input, expecting start of package (ex: \"pkg my.package.name;\")"@,
            Expectation::Identifier => "Unexpected input, expecting identifier"@,
            Expectation::Semicolon => "Unexpected input, expecting \";\""@,
            Expectation::EndOfInput => "Unexpected input, expecting end of input"@,
            Expectation::MoreInput => "Unexpected end of input"@,
        },
        Error::InvalidState(p) => "Invalid parser state"@,
    }
}

impl Error {
    /// The failure's description, formatted directly from its kind.
    pub fn message(&self) -> (m: &'static str)
        ensures
            m@ == spec_message(*self),
    {
        match self {
            Error::Utf8Error(..) => "Invalid UTF-8 in input",
            Error::ParseError(p, exp) => match exp {
                Expectation::PackageStart => "Unexpected input, expecting start of package (ex: \"pkg my.package.name;\")",
                Expectation::KeywordK => "Unexpected input, expecting start of package (ex: \"pkg my.package.name;\")",
                Expectation::KeywordG => "Unexpected input, expecting start of package (ex: \"pkg my.package.name;\")",
                Expectation::Identifier => "Unexpected input, expecting identifier",
                Expectation::Semicolon => "Unexpected input, expecting \";\"",
                Expectation::EndOfInput => "Unexpected input, expecting end of input",
                Expectation::MoreInput => "Unexpected end of input",
            },
            Error::InvalidState(..) => "Invalid parser state",
        }
    }

    /// The 1-based (line, column) position carried by the failure.
    pub fn position(&self) -> (p: (usize, usize))
        ensures
            p == match *self {
                Error::Utf8Error(q, u) => q,
                Error::ParseError(q, exp) => q,
                Error::InvalidState(q) => q,
            },
    {
        match self {
            Error::Utf8Error(q, _) => *q,
            Error::ParseError(q, _) => *q,
            Error::InvalidState(q) => *q,
        }
    }
}

/// Whitespace, by the Unicode White_Space property: the parser treats these
/// characters as transparent, except that a newline ends a comment and
/// advances the line count.
pub open spec fn is_ws(c: char) -> bool {
    let u = c as u32;
    ||| u == 0x20
    ||| (0x09 <= u && u <= 0x0d)
    ||| u == 0x85
    ||| u == 0xa0
    ||| u == 0x1680
    ||| (0x2000 <= u && u <= 0x200a)
    ||| u == 0x2028
    ||| u == 0x2029
    ||| u == 0x202f
    ||| u == 0x205f
    ||| u == 0x3000
}

/// The name of what `char::is_alphabetic` returns: the Unicode Alphabetic
/// property, a function of the character alone.
pub uninterp spec fn alphabetic(c: char) -> bool;

/// The name of what `char::is_alphanumeric` returns: the Unicode Alphabetic
/// and Number properties, a function of the character alone.
pub uninterp spec fn alphanumeric(c: char) -> bool;

/// Relies on char::is_alphabetic: whether the character has the Unicode
/// Alphabetic property, which depends on the character alone.
#[verifier::external_body]
fn char_is_alphabetic(c: char) -> (r: bool)
    ensures
        r == alphabetic(c),
{
    c.is_alphabetic()
}

/// Relies on char::is_alphanumeric: whether the character has the Unicode
/// Alphabetic property or is a number, which depends on the character alone.
#[verifier::external_body]
fn char_is_alphanumeric(c: char) -> (r: bool)
    ensures
        r == alphanumeric(c),
{
    c.is_alphanumeric()
}

/// Whether the character is whitespace, per [`is_ws`]. This matches what
/// `char::is_whitespace` returns: the White_Space character list.
fn char_is_whitespace(c: char) -> (r: bool)
    ensures
        r == is_ws(c),
{
    let u = c as u32;
    u == 0x20 || (0x09 <= u && u <= 0x0d) || u == 0x85 || u == 0xa0 || u == 0x1680 || (0x2000 <= u
        && u <= 0x200a) || u == 0x2028 || u == 0x2029 || u == 0x202f || u == 0x205f || u == 0x3000
}

/// True for characters that may start an identifier segment.
pub open spec fn spec_identifier_start(c: char) -> bool {
    alphabetic(c) || c == '_'
}

/// The obligation stack a parser is seeded with, bottom to top: the top
/// holds the most immediate obligation.
pub open spec fn init_stack() -> Seq<State> {
    seq![
        State::Root,
        State::Semi,
        State::OptionalPkgNameDot,
        State::PkgIdentifier,
        State::PkgG,
        State::PkgK,
        State::PkgP,
    ]
}

/// The stacks a parse can reach: never empty, the acceptance marker at the
/// bottom and nowhere else.
pub open spec fn wf_stack(stack: Seq<State>) -> bool {
    &&& stack.len() > 0
    &&& stack[0] is Root
    &&& forall|j: int| 1 <= j < stack.len() ==> !(stack[j] is Root)
}

/// One non-whitespace character dispatched against the obligation stack:
/// yields the new stack and segment marker, or the unmet expectation. A
/// satisfied optional obligation is popped and the character re-dispatched.
pub open spec fn spec_dispatch(stack: Seq<State>, started: bool, c: char) -> Result<
    (Seq<State>, bool),
    Expectation,
>
    decreases stack.len(),
{
    if stack.len() == 0 {
        Err(Expectation::MoreInput)
    } else {
        let rest = stack.drop_last();
        match stack.last() {
            State::Comment => Ok((stack, started)),
            State::PkgP => if c == '#' {
                Ok((stack.push(State::Comment), started))
            } else if c == 'p' {
                Ok((rest, started))
            } else {
                Err(Expectation::PackageStart)
            },
            State::PkgK => if c == 'k' {
                Ok((rest, started))
            } else {
                Err(Expectation::KeywordK)
            },
            State::PkgG => if c == 'g' {
                Ok((rest, started))
            } else {
                Err(Expectation::KeywordG)
            },
            State::PkgIdentifier => if !started {
                if spec_identifier_start(c) {
                    Ok((stack, true))
                } else {
                    Err(Expectation::Identifier)
                }
            } else if alphanumeric(c) {
                Ok((stack, started))
            } else {
                spec_dispatch(rest, started, c)
            },
            State::OptionalPkgNameDot => if c == '.' {
                Ok((stack.push(State::PkgIdentifier), false))
            } else {
                spec_dispatch(rest, started, c)
            },
            State::Semi => if c == ';' {
                Ok((rest, started))
            } else {
                Err(Expectation::Semicolon)
            },
            State::Root => Err(Expectation::EndOfInput),
        }
    }
}

/// One character consumed: whitespace is transparent, except that a newline
/// closes a comment; anything else goes to the obligation stack.
pub open spec fn spec_consume(stack: Seq<State>, started: bool, c: char) -> Result<
    (Seq<State>, bool),
    Expectation,
> {
    if is_ws(c) {
        if c == '\n' && stack.len() > 0 && stack.last() is Comment {
            Ok((stack.drop_last(), started))
        } else {
            Ok((stack, started))
        }
    } else {
        spec_dispatch(stack, started, c)
    }
}

/// The rest of a parse from character `i` on: acceptance, or the index of
/// the offending character with the unmet expectation; the input's length
/// as index, with `MoreInput`, means the input ended too early.
pub open spec fn spec_run(stack: Seq<State>, started: bool, cs: Seq<char>, i: int) -> Result<
    (),
    (int, Expectation),
>
    decreases cs.len() - i,
{
    if i < 0 || i >= cs.len() {
        if stack.len() > 0 && stack.last() is Root {
            Ok(())
        } else {
            Err((cs.len() as int, Expectation::MoreInput))
        }
    } else {
        match spec_consume(stack, started, cs[i]) {
            Ok(ss) => spec_run(ss.0, ss.1, cs, i + 1),
            Err(e) => Err((i, e)),
        }
    }
}

/// The outcome of parsing a character sequence from the seeded stack.
pub open spec fn spec_parse(cs: Seq<char>) -> Result<(), (int, Expectation)> {
    spec_run(init_stack(), false, cs, 0)
}

/// How many newlines the consumed characters hold: the line count past the
/// first is their number.
pub open spec fn nl_count(cs: Seq<char>) -> int
    decreases cs.len(),
{
    if cs.len() == 0 {
        0
    } else {
        nl_count(cs.drop_last()) + if cs.last() == '\n' {
            1int
        } else {
            0int
        }
    }
}

/// How many characters follow the last newline of the consumed characters:
/// the column count on the current line.
pub open spec fn col_count(cs: Seq<char>) -> int
    decreases cs.len(),
{
    if cs.len() == 0 {
        0
    } else if cs.last() == '\n' {
        0
    } else {
        col_count(cs.drop_last()) + 1
    }
}

/// The 1-based line on which character `i` stands.
pub open spec fn line_at(cs: Seq<char>, i: int) -> int {
    1 + nl_count(cs.take(i))
}

/// The 1-based column at which character `i` stands.
pub open spec fn col_at(cs: Seq<char>, i: int) -> int {
    col_count(cs.take(i)) + 1
}

/// The result owed for byte input `bs`: a syntax error is positioned at the
/// offending character; a decode failure one column past the characters that
/// decoded; a too-early end of input at the last consumed character.
pub open spec fn spec_parse_result(bs: Seq<u8>) -> Result<(), Error> {
    let cs = decoded_chars(bs);
    let n = cs.len() as int;
    match spec_parse(cs) {
        Err(ae) => if ae.0 < n {
            Err(
                Error::ParseError((line_at(cs, ae.0) as usize, col_at(cs, ae.0) as usize), ae.1),
            )
        } else if decode_fails(bs) {
            Err(
                Error::Utf8Error(
                    (line_at(cs, n) as usize, col_at(cs, n) as usize),
                    readchars::Error::Utf8Error,
                ),
            )
        } else {
            Err(Error::ParseError((line_at(cs, n) as usize, col_count(cs) as usize), ae.1))
        },
        Ok(u) => if decode_fails(bs) {
            Err(
                Error::Utf8Error(
                    (line_at(cs, n) as usize, col_at(cs, n) as usize),
                    readchars::Error::Utf8Error,
                ),
            )
        } else {
            Ok(())
        },
    }
}

/// The position counters stay within the length of what was consumed.
proof fn lemma_count_bounds(cs: Seq<char>)
    ensures
        0 <= nl_count(cs) <= cs.len(),
        0 <= col_count(cs) <= cs.len(),
    decreases cs.len(),
{
    if cs.len() > 0 {
        lemma_count_bounds(cs.drop_last());
    }
}

/// Consuming one further character updates the position counters exactly as
/// the parser does: a newline opens a fresh column on the next line.
proof fn lemma_count_step(cs: Seq<char>, i: int)
    requires
        0 <= i < cs.len(),
    ensures
        nl_count(cs.take(i + 1)) == nl_count(cs.take(i)) + if cs[i] == '\n' {
            1int
        } else {
            0int
        },
        col_count(cs.take(i + 1)) == if cs[i] == '\n' {
            0int
        } else {
            col_count(cs.take(i)) + 1
        },
{
    assert(cs.take(i + 1).drop_last() =~= cs.take(i));
    assert(cs.take(i + 1).last() == cs[i]);
}

/// Newlines in a concatenation: the counts add.
proof fn lemma_nl_count_concat(a: Seq<char>, b: Seq<char>)
    ensures
        nl_count(a + b) == nl_count(a) + nl_count(b),
    decreases b.len(),
{
    if b.len() == 0 {
        assert(a + b =~= a);
    } else {
        assert((a + b).drop_last() =~= a + b.drop_last());
        lemma_nl_count_concat(a, b.drop_last());
    }
}

/// A sequence without newlines adds nothing to the newline count.
proof fn lemma_nl_count_free(v: Seq<char>)
    requires
        forall|j: int| 0 <= j < v.len() ==> v[j] != '\n',
    ensures
        nl_count(v) == 0,
    decreases v.len(),
{
    if v.len() > 0 {
        lemma_nl_count_free(v.drop_last());
    }
}

/// The column counter counts exactly the characters on the current line.
proof fn lemma_col_count_line(u: Seq<char>, v: Seq<char>)
    requires
        u.len() == 0 || u.last() == '\n',
        forall|j: int| 0 <= j < v.len() ==> v[j] != '\n',
    ensures
        col_count(u + v) == v.len(),
    decreases v.len(),
{
    if v.len() == 0 {
        assert(u + v =~= u);
    } else {
        assert((u + v).drop_last() =~= u + v.drop_last());
        lemma_col_count_line(u, v.drop_last());
    }
}

/// Position accuracy: when the characters before index `i` consist of a
/// prefix `u` through the input's last newline (`nl_count(u)` newlines in
/// all) followed by the characters `v` of the final line, a failure on the
/// character at index `i` is reported at line `nl_count(u) + 1` and column
/// `v.len() + 1`, both 1-based.
pub proof fn lemma_failure_position(cs: Seq<char>, i: int, u: Seq<char>, v: Seq<char>)
    requires
        0 <= i <= cs.len(),
        cs.take(i) == u + v,
        u.len() == 0 || u.last() == '\n',
        forall|j: int| 0 <= j < v.len() ==> v[j] != '\n',
    ensures
        line_at(cs, i) == 1 + nl_count(u),
        col_at(cs, i) == v.len() + 1,
{
    lemma_nl_count_concat(u, v);
    lemma_nl_count_free(v);
    lemma_col_count_line(u, v);
}

/// The pushdown parser: 1-based position counters, the obligation stack,
/// and the accumulator for the dotted package name, with an explicit marker
/// for whether the current segment has begun.
pub struct Parser {
    line: usize,
    column: usize,
    state_stack: Vec<State>,
    string_buffer: Vec<char>,
    segment_started: bool,
}

impl Parser {
    /// A fresh parser, seeded with the obligation stack of the grammar.
    fn new() -> (p: Parser)
        ensures
            p.line == 1,
            p.column == 0,
            p.state_stack@ == init_stack(),
            !p.segment_started,
    {
        let p = Parser {
            line: 1,
            column: 0,
            state_stack: vec![
                State::Root,
                State::Semi,
                State::OptionalPkgNameDot,
                State::PkgIdentifier,
                State::PkgG,
                State::PkgK,
                State::PkgP,
            ],
            string_buffer: Vec::new(),
            segment_started: false,
        };
        proof {
            assert(p.state_stack@ =~= init_stack());
        }
        p
    }

    /// Parses the byte input: accepts exactly one package declaration,
    /// `pkg <dotted-identifier> ;`, interleaved with whitespace and
    /// `#`-comments, and reports the first failure with its 1-based
    /// position.
    pub fn parse(input: Vec<u8>) -> (r: Result<(), Error>)
        requires
            input@.len() < usize::MAX,
        ensures
            r == spec_parse_result(input@),
            r is Ok <==> spec_parse(decoded_chars(input@)) is Ok && !decode_fails(input@),
            r matches Err(e) ==> !(e is InvalidState),
    {
        let mut parser = Self::new();
        parser.parse_now(input)
    }

    /// Runs the parse over the given bytes; the parser must be freshly
    /// seeded, and one instance serves one parse.
    fn parse_now(&mut self, input: Vec<u8>) -> (r: Result<(), Error>)
        requires
            old(self).line == 1,
            old(self).column == 0,
            old(self).state_stack@ == init_stack(),
            !old(self).segment_started,
            input@.len() < usize::MAX,
        ensures
            r == spec_parse_result(input@),
    {
        let ghost bs = input@;
        let ghost cs = decoded_chars(bs);
        proof {
            readchars::lemma_decoded_chars_len(bs);
            assert(cs.skip(0) =~= cs);
            assert(cs.take(0) =~= Seq::<char>::empty());
        }
        let mut chars = ReadChars::from(input);
        let ghost mut i: int = 0;
        loop
            invariant
                chars.wf(),
                !chars.has_failed(),
                0 <= i <= cs.len(),
                bs == input@,
                cs == decoded_chars(bs),
                cs.len() <= bs.len(),
                bs.len() < usize::MAX,
                decoded_chars(chars.remaining()) == cs.skip(i),
                decode_fails(chars.remaining()) == decode_fails(bs),
                wf_stack(self.state_stack@),
                spec_run(self.state_stack@, self.segment_started, cs, i) == spec_parse(cs),
                self.line as int == 1 + nl_count(cs.take(i)),
                self.column as int == col_count(cs.take(i)),
            ensures
                i == cs.len(),
                !decode_fails(bs),
                wf_stack(self.state_stack@),
                spec_run(self.state_stack@, self.segment_started, cs, i) == spec_parse(cs),
                self.line as int == 1 + nl_count(cs.take(i)),
                self.column as int == col_count(cs.take(i)),
            decreases cs.len() - i,
        {
            let ghost rem = chars.remaining();
            match chars.next() {
                None => {
                    break ;
                },
                Some(res) => {
                    proof {
                        lemma_count_bounds(cs.take(i));
                    }
                    self.column = self.column + 1;
                    match res {
                        Err(e) => {
                            proof {
                                assert(cs.skip(i).len() == 0);
                                assert(i == cs.len());
                                assert(cs.take(i) =~= cs);
                            }
                            return Err(Error::Utf8Error((self.line, self.column), e));
                        },
                        Ok(c) => {
                            proof {
                                assert(cs.skip(i).len() > 0);
                                assert(cs.skip(i)[0] == cs[i]);
                                assert(c == cs[i]);
                            }
                            match self.consume_char(c) {
                                Err(err) => {
                                    return Err(err);
                                },
                                Ok(u) => {
                                    proof {
                                        lemma_count_step(cs, i);
                                        assert(cs.skip(i).drop_first() =~= cs.skip(i + 1));
                                        i = i + 1;
                                    }
                                },
                            }
                        },
                    }
                },
            }
        }
        proof {
            assert(cs.skip(i).len() == 0);
            assert(i == cs.len());
            assert(cs.take(i) =~= cs);
        }
        if let State::Root = self.pop()? {
            Ok(())
        } else {
            self.parse_err(Expectation::MoreInput)
        }
    }

    /// A syntax error at the current position, naming what was expected.
    fn parse_err(&self, exp: Expectation) -> (r: Result<(), Error>)
        ensures
            r == Err::<(), Error>(Error::ParseError((self.line, self.column), exp)),
    {
        Err(Error::ParseError((self.line, self.column), exp))
    }

    /// A `#` opens a comment: push that obligation and consume the character.
    fn transitions_to_comment(&mut self, c: char) -> (r: bool)
        ensures
            r == (c == '#'),
            c == '#' ==> final(self).state_stack@ == old(self).state_stack@.push(State::Comment),
            c != '#' ==> final(self).state_stack@ == old(self).state_stack@,
            final(self).line == old(self).line,
            final(self).column == old(self).column,
            final(self).segment_started == old(self).segment_started,
    {
        if c == '#' {
            self.push(State::Comment);
            true
        } else {
            false
        }
    }

    /// True for characters that may start an identifier segment.
    fn is_identifier_start(c: char) -> (r: bool)
        ensures
            r == spec_identifier_start(c),
    {
        char_is_alphabetic(c) || c == '_'
    }

    /// Pushes a new obligation onto the stack.
    fn push(&mut self, state: State)
        ensures
            final(self).state_stack@ == old(self).state_stack@.push(state),
            final(self).line == old(self).line,
            final(self).column == old(self).column,
            final(self).segment_started == old(self).segment_started,
    {
        self.state_stack.push(state)
    }

    /// Pops the topmost obligation; an empty stack is an internal invariant
    /// violation.
    fn pop(&mut self) -> (r: Result<State, Error>)
        ensures
            old(self).state_stack@.len() > 0 ==> r == Ok::<State, Error>(
                old(self).state_stack@.last(),
            ) && final(self).state_stack@ == old(self).state_stack@.drop_last(),
            old(self).state_stack@.len() == 0 ==> r == Err::<State, Error>(
                Error::InvalidState((old(self).line, old(self).column)),
            ) && final(self).state_stack@ == old(self).state_stack@,
            final(self).line == old(self).line,
            final(self).column == old(self).column,
            final(self).segment_started == old(self).segment_started,
    {
        match self.state_stack.pop() {
            Some(state) => Ok(state),
            None => Err(Error::InvalidState((self.line, self.column))),
        }
    }

    /// Consumes one character: whitespace is transparent, except that a
    /// newline advances the position and closes a comment; anything else is
    /// dispatched against the obligation stack.
    fn consume_char(&mut self, c: char) -> (r: Result<(), Error>)
        requires
            wf_stack(old(self).state_stack@),
            old(self).line < usize::MAX,
        ensures
            match spec_consume(old(self).state_stack@, old(self).segment_started, c) {
                Ok(ss) => {
                    &&& r == Ok::<(), Error>(())
                    &&& final(self).state_stack@ == ss.0
                    &&& final(self).segment_started == ss.1
                    &&& wf_stack(ss.0)
                    &&& final(self).line as int == if c == '\n' {
                        old(self).line + 1
                    } else {
                        old(self).line as int
                    }
                    &&& final(self).column as int == if c == '\n' {
                        0int
                    } else {
                        old(self).column as int
                    }
                },
                Err(exp) => r == Err::<(), Error>(
                    Error::ParseError((old(self).line, old(self).column), exp),
                ),
            },
    {
        if char_is_whitespace(c) {
            if c == '\n' {
                self.column = 0;
                self.line = self.line + 1;
                // A comment terminates at the end of its line.
                if let State::Comment = self.peek()? {
                    self.pop()?;
                }
            }
            return Ok(());
        }
        loop
            invariant
                !is_ws(c),
                wf_stack(self.state_stack@),
                self.line == old(self).line,
                self.column == old(self).column,
                self.segment_started == old(self).segment_started,
                spec_dispatch(self.state_stack@, self.segment_started, c) == spec_dispatch(
                    old(self).state_stack@,
                    old(self).segment_started,
                    c,
                ),
            decreases self.state_stack@.len(),
        {
            match self.peek()? {
                State::Comment => {
                    // Everything up to the end of the line is ignored.
                    return Ok(());
                },
                State::PkgP => {
                    if self.transitions_to_comment(c) {
                        return Ok(());
                    } else if c == 'p' {
                        self.pop()?;
                        return Ok(());
                    } else {
                        return self.parse_err(Expectation::PackageStart);
                    }
                },
                State::PkgK => {
                    if c == 'k' {
                        self.pop()?;
                        return Ok(());
                    } else {
                        return self.parse_err(Expectation::KeywordK);
                    }
                },
                State::PkgG => {
                    if c == 'g' {
                        self.pop()?;
                        return Ok(());
                    } else {
                        return self.parse_err(Expectation::KeywordG);
                    }
                },
                State::PkgIdentifier => {
                    if !self.segment_started {
                        if Self::is_identifier_start(c) {
                            self.string_buffer.push(c);
                            self.segment_started = true;
                            return Ok(());
                        } else {
                            return self.parse_err(Expectation::Identifier);
                        }
                    } else if char_is_alphanumeric(c) {
                        self.string_buffer.push(c);
                        return Ok(());
                    } else {
                        // The segment is complete; re-dispatch this character.
                        self.pop()?;
                    }
                },
                State::OptionalPkgNameDot => {
                    if c == '.' {
                        // Another dot: a further segment must follow.
                        self.string_buffer.push('.');
                        self.push(State::PkgIdentifier);
                        self.segment_started = false;
                        return Ok(());
                    } else {
                        // No further segment; re-dispatch this character.
                        self.pop()?;
                    }
                },
                State::Semi => {
                    if c == ';' {
                        self.pop()?;
                        return Ok(());
                    } else {
                        return self.parse_err(Expectation::Semicolon);
                    }
                },
                State::Root => {
                    return self.parse_err(Expectation::EndOfInput);
                },
            }
        }
    }

    /// Reads the topmost obligation without popping it.
    fn peek(&self) -> (r: Result<State, Error>)
        ensures
            self.state_stack@.len() > 0 ==> r == Ok::<State, Error>(self.state_stack@.last()),
            self.state_stack@.len() == 0 ==> r == Err::<State, Error>(
                Error::InvalidState((self.line, self.column)),
            ),
    {
        if self.state_stack.len() > 0 {
            Ok(self.state_stack[self.state_stack.len() - 1])
        } else {
            Err(Error::InvalidState((self.line, self.column)))
        }
    }
}

} // verus!
