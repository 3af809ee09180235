//! The streaming rewrite: an incremental parser driver with a nesting stack,
//! and the filter that forwards every parsed span except custom sections of
//! one name.
//!
//! The driver does no I/O of its own. Each call of [`Rewriter::next_action`]
//! says what the caller has to do next: read more input and hand it over with
//! [`Rewriter::supply`], write a span of bytes to the output, or nothing (a
//! span was stripped). The pass is over once [`Rewriter::is_finished`] holds.

use vstd::prelude::*;

use wasmparser::{BinaryReaderError, Chunk, Parser, Payload};

use crate::section::{is_named, split_sections, RewriteError};

verus! {

/// wasmparser's incremental `Parser`, carried through opaquely: one per
/// module or nested module being parsed.
#[verifier::external_type_specification]
#[verifier::external_body]
pub struct ExParser(Parser);

/// wasmparser's parse error, which the pass reports as malformed input.
#[verifier::external_type_specification]
#[verifier::external_body]
pub struct ExBinaryReaderError(BinaryReaderError);

/// Relies on wasmparser's `Parser::new`, which makes a parser that expects a
/// module header at the given offset; nothing about the parser is assumed.
pub assume_specification[ Parser::new ](offset: u64) -> Parser;

/// What one parsed span of the input is.
pub enum Event {
    /// Any span that is neither of the others.
    Content,
    /// The size of a nested module; the parser for its contents comes with it.
    Enter(Parser),
    /// A custom section, with its name.
    Custom(Vec<u8>),
    /// The end of the module or nested module being parsed.
    End,
}

/// The outcome of one parse attempt on the staging buffer.
pub enum Step {
    /// More input is needed; the number is how many more bytes to read.
    NeedMoreData(u64),
    /// The first `consumed` bytes of the buffer were parsed as `event`.
    Parsed { consumed: usize, event: Event },
}

/// What the caller has to do after one step of the rewrite.
pub enum Action {
    /// Read up to this many bytes of input and hand them to `supply`.
    Read(u64),
    /// Write these bytes to the output.
    Write(Vec<u8>),
    /// Nothing: the span just parsed was stripped.
    Skip,
}

/// What wasmparser's `Parser::parse` gives for a parser state, the data handed
/// to it and the end-of-input flag: `None` where it fails.
pub uninterp spec fn parse_outcome(p: Parser, data: Seq<u8>, eof: bool) -> Option<Step>;

/// Relies on wasmparser's `Parser::parse`, whose result depends on the parser
/// state, the data and `eof` alone. A `NeedMoreData` answer comes only when
/// `eof` is false (at end of input it fails instead), and `consumed` is the
/// position its reader reached within `data`, so never past its end. A custom
/// section is read as its id, its length and then exactly that many bytes, the
/// name being read from within them: the span consumed is that one section.
#[verifier::external_body]
fn parse_step(parser: &mut Parser, data: &[u8], eof: bool) -> (r: Result<Step, BinaryReaderError>)
    ensures
        r is Ok <==> parse_outcome(*old(parser), data@, eof) is Some,
        r matches Ok(s) ==> parse_outcome(*old(parser), data@, eof) == Some(s),
        match r {
            Ok(Step::NeedMoreData(_)) => !eof,
            Ok(Step::Parsed { consumed, .. }) => consumed <= data@.len(),
            Err(_) => true,
        },
        r matches Ok(Step::Parsed { consumed, event: Event::Custom(name) }) ==> {
            &&& split_sections(data@.subrange(0, consumed as int)) matches Some(secs)
            &&& secs.len() == 1
            &&& is_named(secs[0], name@)
        },
{
    Ok(match parser.parse(data, eof)? {
        Chunk::NeedMoreData(hint) => Step::NeedMoreData(hint),
        Chunk::Parsed { consumed, payload } => Step::Parsed {
            consumed,
            event: match payload {
                Payload::ModuleCodeSectionEntry { parser, .. } => Event::Enter(parser),
                Payload::CustomSection { name, .. } => Event::Custom(name.as_bytes().to_vec()),
                Payload::End => Event::End,
                _ => Event::Content,
            },
        },
    })
}

/// Whether two byte strings are equal.
pub fn bytes_equal(a: &[u8], b: &[u8]) -> (r: bool)
    ensures
        r == (a@ == b@),
{
    if a.len() != b.len() {
        return false;
    }
    let mut i: usize = 0;
    while i < a.len()
        invariant
            a@.len() == b@.len(),
            i <= a@.len(),
            a@.subrange(0, i as int) == b@.subrange(0, i as int),
        decreases a@.len() - i,
    {
        if a[i] != b[i] {
            assert(a@.subrange(0, i + 1)[i as int] != b@.subrange(0, i + 1)[i as int]);
            return false;
        }
        assert(a@.subrange(0, i + 1) =~= a@.subrange(0, i as int).push(a@[i as int]));
        assert(b@.subrange(0, i + 1) =~= b@.subrange(0, i as int).push(b@[i as int]));
        i = i + 1;
    }
    assert(a@ =~= a@.subrange(0, i as int));
    assert(b@ =~= b@.subrange(0, i as int));
    true
}

/// The state of one rewrite pass.
pub struct Rewriter {
    section: Vec<u8>,
    parser: Parser,
    stack: Vec<Parser>,
    buffer: Vec<u8>,
    eof: bool,
    awaiting: bool,
    want: u64,
    finished: bool,
    input: Ghost<Seq<u8>>,
    taken: Ghost<Seq<u8>>,
    output: Ghost<Seq<u8>>,
    stripped: Ghost<nat>,
}

impl Rewriter {
    /// The name of the custom sections being stripped.
    pub closed spec fn section(&self) -> Seq<u8> {
        self.section@
    }

    /// The parser of the innermost structure being parsed.
    pub closed spec fn parser(&self) -> Parser {
        self.parser
    }

    /// The suspended parsers of the enclosing structures, innermost last.
    pub closed spec fn stack(&self) -> Seq<Parser> {
        self.stack@
    }

    /// The staging buffer: input handed over and not yet consumed.
    pub closed spec fn buffered(&self) -> Seq<u8> {
        self.buffer@
    }

    /// Whether the last read handed over no bytes.
    pub closed spec fn at_eof(&self) -> bool {
        self.eof
    }

    /// Whether a read was asked for and its bytes not yet handed over, and
    /// how many bytes it asked for.
    pub closed spec fn pending_read(&self) -> Option<u64> {
        if self.awaiting {
            Some(self.want)
        } else {
            None
        }
    }

    /// Whether the outermost structure has ended.
    pub closed spec fn finished(&self) -> bool {
        self.finished
    }

    /// Every byte handed over so far.
    pub closed spec fn input(&self) -> Seq<u8> {
        self.input@
    }

    /// The bytes consumed by the parser so far.
    pub closed spec fn taken(&self) -> Seq<u8> {
        self.taken@
    }

    /// Every byte the caller was told to write so far.
    pub closed spec fn output(&self) -> Seq<u8> {
        self.output@
    }

    /// How many spans were stripped so far.
    pub closed spec fn stripped(&self) -> nat {
        self.stripped@
    }

    /// The input handed over is what was consumed followed by the staging
    /// buffer; while nothing was stripped, the output is what was consumed.
    pub closed spec fn wf(&self) -> bool {
        &&& self.input@ == self.taken@ + self.buffer@
        &&& self.stripped@ == 0 ==> self.output@ == self.taken@
        &&& self.awaiting ==> !self.finished
    }

    /// Starts a pass that strips the custom sections named `section`.
    pub fn new(section: Vec<u8>) -> (r: Self)
        ensures
            r.wf(),
            r.section() == section@,
            r.stack().len() == 0,
            r.buffered().len() == 0,
            r.input().len() == 0,
            r.output().len() == 0,
            r.stripped() == 0,
            !r.at_eof(),
            r.pending_read() is None,
            !r.finished(),
    {
        Rewriter {
            section,
            parser: Parser::new(0),
            stack: Vec::new(),
            buffer: Vec::new(),
            eof: false,
            awaiting: false,
            want: 0,
            finished: false,
            input: Ghost(Seq::empty()),
            taken: Ghost(Seq::empty()),
            output: Ghost(Seq::empty()),
            stripped: Ghost(0),
        }
    }

    /// Whether the outermost structure has ended.
    pub fn is_finished(&self) -> (r: bool)
        ensures
            r == self.finished(),
    {
        self.finished
    }

    /// Whether `event` is a custom section of the name being stripped.
    pub open spec fn strips(&self, event: Event) -> bool {
        event matches Event::Custom(name) && name@ == self.section()
    }

    /// The first `n` bytes of the staging buffer moved to what was consumed;
    /// nothing else about the input changed.
    pub open spec fn drained(old: Self, new: Self, n: nat) -> bool {
        &&& n <= old.buffered().len()
        &&& new.buffered() == old.buffered().subrange(n as int, old.buffered().len() as int)
        &&& new.taken() == old.taken() + old.buffered().subrange(0, n as int)
        &&& new.pending_read() is None
    }

    /// The outcome of one step of the pass, from state `old` to state `new`
    /// with result `r`, given the parse outcome `step` (see [`Self::apply`]).
    pub open spec fn applied(old: Self, new: Self, step: Step, r: Result<Action, RewriteError>) -> bool {
        match step {
            Step::NeedMoreData(hint) => if old.at_eof() {
                &&& r == Err::<Action, RewriteError>(RewriteError::MalformedInput)
                &&& new == old
            } else {
                &&& r matches Ok(Action::Read(n)) && n == hint
                &&& new.pending_read() == Some(hint)
                &&& new.buffered() == old.buffered()
                &&& new.taken() == old.taken()
                &&& new.output() == old.output()
                &&& new.stripped() == old.stripped()
                &&& new.parser() == old.parser()
                &&& new.stack() == old.stack()
                &&& !new.finished()
            },
            Step::Parsed { consumed, event } => if consumed > old.buffered().len() {
                &&& r == Err::<Action, RewriteError>(RewriteError::MalformedInput)
                &&& new == old
            } else if old.strips(event) {
                &&& r matches Ok(Action::Skip)
                &&& Self::drained(old, new, consumed as nat)
                &&& new.output() == old.output()
                &&& new.stripped() == old.stripped() + 1
                &&& new.parser() == old.parser()
                &&& new.stack() == old.stack()
                &&& !new.finished()
            } else {
                &&& r matches Ok(Action::Write(b)) && b@ == old.buffered().subrange(
                    0,
                    consumed as int,
                )
                &&& Self::drained(old, new, consumed as nat)
                &&& new.output() == old.output() + old.buffered().subrange(
                    0,
                    consumed as int,
                )
                &&& new.stripped() == old.stripped()
                &&& match event {
                    Event::Enter(p) => {
                        &&& new.parser() == p
                        &&& new.stack() == old.stack().push(old.parser())
                        &&& !new.finished()
                    },
                    Event::End => if old.stack().len() > 0 {
                        &&& new.parser() == old.stack().last()
                        &&& new.stack() == old.stack().drop_last()
                        &&& !new.finished()
                    } else {
                        &&& new.parser() == old.parser()
                        &&& new.stack() == old.stack()
                        &&& new.finished()
                    },
                    _ => {
                        &&& new.parser() == old.parser()
                        &&& new.stack() == old.stack()
                        &&& !new.finished()
                    },
                }
            },
        }
    }

    /// Takes the outcome of one parse attempt and decides what follows.
    ///
    /// A request for more data becomes a read, or a malformed input error at
    /// end of input. A parsed span is drained from the staging buffer; it is
    /// stripped if it is a custom section of the configured name and written
    /// otherwise. Entering a nested module suspends the current parser on the
    /// stack; an end pops the stack, or ends the pass when it is empty.
    pub fn apply(&mut self, step: Step) -> (r: Result<Action, RewriteError>)
        requires
            old(self).wf(),
            !old(self).finished(),
            old(self).pending_read() is None,
        ensures
            final(self).wf(),
            final(self).section() == old(self).section(),
            final(self).input() == old(self).input(),
            final(self).at_eof() == old(self).at_eof(),
            Self::applied(*old(self), *final(self), step, r),
    {
        match step {
            Step::NeedMoreData(hint) => {
                if self.eof {
                    return Err(RewriteError::MalformedInput);
                }
                self.awaiting = true;
                self.want = hint;
                Ok(Action::Read(hint))
            },
            Step::Parsed { consumed, event } => {
                if consumed > self.buffer.len() {
                    return Err(RewriteError::MalformedInput);
                }
                let ghost old_buffer = self.buffer@;
                let mut head = self.buffer.split_off(consumed);
                core::mem::swap(&mut self.buffer, &mut head);
                self.taken = Ghost(self.taken@ + head@);
                assert(self.input@ =~= self.taken@ + self.buffer@);
                let strip = match &event {
                    Event::Custom(name) => bytes_equal(name.as_slice(), self.section.as_slice()),
                    _ => false,
                };
                if strip {
                    self.stripped = Ghost(self.stripped@ + 1);
                    return Ok(Action::Skip);
                }
                match event {
                    Event::Enter(p) => {
                        let mut p = p;
                        core::mem::swap(&mut self.parser, &mut p);
                        self.stack.push(p);
                    },
                    Event::End => {
                        match self.stack.pop() {
                            Some(p) => {
                                self.parser = p;
                            },
                            None => {
                                self.finished = true;
                            },
                        }
                    },
                    _ => {},
                }
                self.output = Ghost(self.output@ + head@);
                Ok(Action::Write(head))
            },
        }
    }

    /// Whether `a` and `b` agree on everything but the current parser.
    pub open spec fn same_but_parser(a: Self, b: Self) -> bool {
        &&& a.wf() == b.wf()
        &&& a.section() == b.section()
        &&& a.stack() == b.stack()
        &&& a.buffered() == b.buffered()
        &&& a.at_eof() == b.at_eof()
        &&& a.pending_read() == b.pending_read()
        &&& a.finished() == b.finished()
        &&& a.input() == b.input()
        &&& a.taken() == b.taken()
        &&& a.output() == b.output()
        &&& a.stripped() == b.stripped()
    }

    /// What the parser gives for the current state of the pass.
    pub open spec fn outcome(&self) -> Option<Step> {
        parse_outcome(self.parser(), self.buffered(), self.at_eof())
    }

    /// Runs one parse attempt on the staging buffer and decides what follows
    /// (see [`Self::apply`]). It fails, with a malformed input error, exactly
    /// when the parser does. A stripped span is exactly one whole custom
    /// section of the configured name.
    pub fn next_action(&mut self) -> (r: Result<Action, RewriteError>)
        requires
            old(self).wf(),
            !old(self).finished(),
            old(self).pending_read() is None,
        ensures
            final(self).wf(),
            final(self).section() == old(self).section(),
            final(self).input() == old(self).input(),
            final(self).at_eof() == old(self).at_eof(),
            r is Err <==> old(self).outcome() is None,
            match old(self).outcome() {
                None => {
                    &&& r == Err::<Action, RewriteError>(RewriteError::MalformedInput)
                    &&& Self::same_but_parser(*old(self), *final(self))
                },
                Some(step) => {
                    &&& exists|mid: Self|
                        Self::same_but_parser(*old(self), mid) && #[trigger] Self::applied(
                            mid,
                            *final(self),
                            step,
                            r,
                        )
                    &&& match step {
                        Step::NeedMoreData(hint) => {
                            &&& r matches Ok(Action::Read(n)) && n == hint
                            &&& final(self).pending_read() == Some(hint)
                            &&& final(self).buffered() == old(self).buffered()
                            &&& final(self).taken() == old(self).taken()
                            &&& final(self).output() == old(self).output()
                            &&& final(self).stripped() == old(self).stripped()
                            &&& final(self).stack() == old(self).stack()
                            &&& !final(self).finished()
                        },
                        Step::Parsed { consumed, event } => {
                            &&& Self::drained(*old(self), *final(self), consumed as nat)
                            &&& if old(self).strips(event) {
                                &&& r matches Ok(Action::Skip)
                                &&& split_sections(old(self).buffered().subrange(0, consumed as int))
                                    matches Some(secs)
                                &&& secs.len() == 1
                                &&& is_named(secs[0], old(self).section())
                                &&& final(self).output() == old(self).output()
                                &&& final(self).stripped() == old(self).stripped() + 1
                            } else {
                                &&& r matches Ok(Action::Write(b)) && b@
                                    == old(self).buffered().subrange(0, consumed as int)
                                &&& final(self).output() == old(self).output()
                                    + old(self).buffered().subrange(0, consumed as int)
                                &&& final(self).stripped() == old(self).stripped()
                            }
                            &&& match event {
                                Event::Enter(p) => {
                                    &&& final(self).parser() == p
                                    &&& final(self).stack().drop_last() == old(self).stack()
                                    &&& final(self).stack().len() == old(self).stack().len() + 1
                                    &&& !final(self).finished()
                                },
                                Event::End => if old(self).stack().len() > 0 {
                                    &&& final(self).parser() == old(self).stack().last()
                                    &&& final(self).stack() == old(self).stack().drop_last()
                                    &&& !final(self).finished()
                                } else {
                                    &&& final(self).stack() == old(self).stack()
                                    &&& final(self).finished()
                                },
                                _ => {
                                    &&& final(self).stack() == old(self).stack()
                                    &&& !final(self).finished()
                                },
                            }
                        },
                    }
                },
            },
    {
        let step = match parse_step(&mut self.parser, self.buffer.as_slice(), self.eof) {
            Ok(step) => step,
            Err(_) => return Err(RewriteError::MalformedInput),
        };
        let ghost mid = *self;
        let ghost taken_step = step;
        let r = self.apply(step);
        proof {
            assert(Self::same_but_parser(*old(self), mid));
            assert(Self::applied(mid, *self, taken_step, r));
            match taken_step {
                Step::Parsed { consumed, event } => {
                    if let Event::Enter(p) = event {
                        assert(self.stack@.drop_last() =~= old(self).stack@);
                    }
                },
                _ => {},
            }
        }
        r
    }

    /// Hands over the bytes read for the pending request; no bytes means the
    /// input has ended.
    pub fn supply(&mut self, data: &[u8])
        requires
            old(self).wf(),
            old(self).pending_read() matches Some(n) && data@.len() <= n,
        ensures
            final(self).wf(),
            final(self).buffered() == old(self).buffered() + data@,
            final(self).input() == old(self).input() + data@,
            final(self).at_eof() == (data@.len() == 0),
            final(self).pending_read() is None,
            final(self).section() == old(self).section(),
            final(self).parser() == old(self).parser(),
            final(self).stack() == old(self).stack(),
            final(self).taken() == old(self).taken(),
            final(self).output() == old(self).output(),
            final(self).stripped() == old(self).stripped(),
            final(self).finished() == old(self).finished(),
    {
        crate::section::append_bytes(&mut self.buffer, data);
        self.eof = data.len() == 0;
        self.awaiting = false;
        self.want = 0;
        self.input = Ghost(self.input@ + data@);
        assert(self.input@ =~= self.taken@ + self.buffer@);
    }
}

/// While no section has been stripped, the bytes written are exactly the bytes
/// consumed, at every nesting depth; once the pass has finished with nothing
/// left in the staging buffer, they are exactly the input.
pub proof fn lemma_passthrough(r: Rewriter)
    requires
        r.wf(),
        r.stripped() == 0,
    ensures
        r.output() == r.taken(),
        r.finished() && r.buffered().len() == 0 ==> r.output() == r.input(),
{
    if r.buffered().len() == 0 {
        assert(r.taken() + r.buffered() =~= r.taken());
    }
}

/// Entering a nested module and then reaching its end resumes the enclosing
/// parser with the nesting stack as it was, leaves the pass going, and writes
/// both spans in input order.
pub proof fn lemma_nested_resume(
    r0: Rewriter,
    r1: Rewriter,
    r2: Rewriter,
    enter: usize,
    inner: Parser,
    a1: Result<Action, RewriteError>,
    end: usize,
    a2: Result<Action, RewriteError>,
)
    requires
        r0.wf(),
        enter <= r0.buffered().len(),
        Rewriter::applied(r0, r1, Step::Parsed { consumed: enter, event: Event::Enter(inner) }, a1),
        end <= r1.buffered().len(),
        Rewriter::applied(r1, r2, Step::Parsed { consumed: end, event: Event::End }, a2),
    ensures
        r1.stack().len() == r0.stack().len() + 1,
        r2.parser() == r0.parser(),
        r2.stack() == r0.stack(),
        !r2.finished(),
        r2.stripped() == r0.stripped(),
        r2.output() == r0.output() + r0.buffered().subrange(0, enter + end),
        r2.buffered() == r0.buffered().subrange(enter + end, r0.buffered().len() as int),
{
    let b = r0.buffered();
    assert(r1.buffered() =~= b.subrange(enter as int, b.len() as int));
    assert(b.subrange(0, enter as int) + r1.buffered().subrange(0, end as int) =~= b.subrange(
        0,
        enter + end,
    ));
    assert(r1.stack().drop_last() =~= r0.stack());
    assert(r2.buffered() =~= b.subrange(enter + end, b.len() as int));
}

} // verus!
