//! Chain parsing: a token sequence becomes an ordered list of execution
//! units, each annotated with where its input and output streams connect.
//!
//! A single left-to-right scan accumulates the current command's words and a
//! pending stdin and stdout source (both initially inherited). A pipe closes
//! the current unit, wiring its output and the next unit's input to the
//! shared pipe; a redirection binds the pending source to a file named by
//! the following word, the last one winning. A trailing operator with no
//! command to its left (or, for a pipe, to its right) is a parse error, and
//! an erroneous line produces no units at all.

use vstd::prelude::*;

use crate::token::Token;
use crate::token::TokenView;
use crate::token::toks_view;

verus! {

/// The direction of one end of an anonymous pipe.
#[derive(Debug, PartialEq, Eq, Clone, Copy, Structural)]
pub enum PipeEndpoint {
    Read,
    Write,
}

/// One stream endpoint of an execution unit.
#[derive(Debug, PartialEq, Clone)]
pub enum ExecutionSource {
    /// The interpreter's own corresponding stream (the terminal).
    Inherit,
    /// The anonymous pipe shared with the adjacent unit in the chain.
    Pipe(PipeEndpoint),
    /// A named file; the flag asks for appending rather than truncation
    /// when the file is written.
    File(String, bool),
}

/// The mathematical content of an `ExecutionSource`.
pub enum SourceView {
    Inherit,
    Pipe(PipeEndpoint),
    File(Seq<char>, bool),
}

impl View for ExecutionSource {
    type V = SourceView;

    open spec fn view(&self) -> SourceView {
        match self {
            ExecutionSource::Inherit => SourceView::Inherit,
            ExecutionSource::Pipe(e) => SourceView::Pipe(*e),
            ExecutionSource::File(p, a) => SourceView::File(p@, *a),
        }
    }
}

/// One node of the execution plan: a program to spawn with its arguments
/// and resolved stream endpoints.
#[derive(Debug)]
pub enum CommandPart {
    Execute { name: String, args: Vec<String>, stdin: ExecutionSource, stdout: ExecutionSource },
}

/// The mathematical content of a `CommandPart`.
pub struct UnitView {
    pub name: Seq<char>,
    pub args: Seq<Seq<char>>,
    pub stdin: SourceView,
    pub stdout: SourceView,
}

impl View for CommandPart {
    type V = UnitView;

    open spec fn view(&self) -> UnitView {
        match self {
            CommandPart::Execute { name, args, stdin, stdout } => UnitView {
                name: name@,
                args: args@.map_values(|a: String| a@),
                stdin: stdin@,
                stdout: stdout@,
            },
        }
    }
}

/// The views of a unit sequence, element by element.
pub open spec fn units_view(ps: Seq<CommandPart>) -> Seq<UnitView> {
    ps.map_values(|p: CommandPart| p@)
}

/// The views of a word list, element by element.
pub open spec fn words_view(ws: Seq<String>) -> Seq<Seq<char>> {
    ws.map_values(|w: String| w@)
}

/// Why a token sequence could not be parsed into a chain.
#[derive(Debug, PartialEq, Eq, Clone, Copy, Structural)]
pub enum ParseError {
    /// An operator stood where a command was required: a pipe or
    /// redirection with no command before it, or input that ended right
    /// after a pipe.
    MissingCommand,
    /// A redirection operator was not followed by a filename word.
    MissingRedirectTarget,
}

impl ParseError {
    /// The human-readable cause of this error.
    pub open spec fn spec_message(self) -> Seq<char> {
        match self {
            ParseError::MissingCommand => "command expected next to an operator"@,
            ParseError::MissingRedirectTarget => "redirection must be followed by a filename"@,
        }
    }

    /// The human-readable cause of this error.
    pub fn message(&self) -> (r: &str)
        ensures
            r@ == self.spec_message(),
    {
        match self {
            ParseError::MissingCommand => "command expected next to an operator",
            ParseError::MissingRedirectTarget => "redirection must be followed by a filename",
        }
    }
}

/// The unit closed over the accumulated words: the first word is the
/// program name, the rest its arguments, in order.
pub open spec fn mk_unit(words: Seq<Seq<char>>, stdin: SourceView, stdout: SourceView) -> UnitView
    recommends
        words.len() > 0,
{
    UnitView { name: words[0], args: words.drop_first(), stdin, stdout }
}

/// The parse of the tokens from position `i` on: `cur` holds the words of
/// the command being accumulated, `pin` and `pout` the pending stream
/// sources for the unit it will close into. At the end of input, a pending
/// pipe-read stdin with no accumulated word means the line ended in a bare
/// pipe, which is an error; otherwise whatever was accumulated (possibly
/// nothing) is closed out.
pub open spec fn spec_parse_from(
    toks: Seq<TokenView>,
    i: int,
    cur: Seq<Seq<char>>,
    pin: SourceView,
    pout: SourceView,
) -> Result<Seq<UnitView>, ParseError>
    decreases toks.len() - i,
{
    if i < 0 || i >= toks.len() {
        if cur.len() > 0 {
            Ok(seq![mk_unit(cur, pin, pout)])
        } else if pin is Pipe {
            Err(ParseError::MissingCommand)
        } else {
            Ok(Seq::empty())
        }
    } else {
        match toks[i] {
            TokenView::Word(w) => spec_parse_from(toks, i + 1, cur.push(w), pin, pout),
            TokenView::Pipe => if cur.len() == 0 {
                Err(ParseError::MissingCommand)
            } else {
                match spec_parse_from(
                    toks,
                    i + 1,
                    Seq::empty(),
                    SourceView::Pipe(PipeEndpoint::Read),
                    SourceView::Inherit,
                ) {
                    Ok(units) => Ok(
                        seq![mk_unit(cur, pin, SourceView::Pipe(PipeEndpoint::Write))] + units,
                    ),
                    Err(e) => Err(e),
                }
            },
            TokenView::RedirectIn => if cur.len() == 0 {
                Err(ParseError::MissingCommand)
            } else if i + 1 < toks.len() && toks[i + 1] is Word {
                spec_parse_from(toks, i + 2, cur, SourceView::File(toks[i + 1]->Word_0, false), pout)
            } else {
                Err(ParseError::MissingRedirectTarget)
            },
            TokenView::RedirectOut => if cur.len() == 0 {
                Err(ParseError::MissingCommand)
            } else if i + 1 < toks.len() && toks[i + 1] is Word {
                spec_parse_from(toks, i + 2, cur, pin, SourceView::File(toks[i + 1]->Word_0, false))
            } else {
                Err(ParseError::MissingRedirectTarget)
            },
            TokenView::RedirectAppend => if cur.len() == 0 {
                Err(ParseError::MissingCommand)
            } else if i + 1 < toks.len() && toks[i + 1] is Word {
                spec_parse_from(toks, i + 2, cur, pin, SourceView::File(toks[i + 1]->Word_0, true))
            } else {
                Err(ParseError::MissingRedirectTarget)
            },
        }
    }
}

/// The parse of a whole token sequence into an execution plan.
pub open spec fn spec_parse(toks: Seq<TokenView>) -> Result<Seq<UnitView>, ParseError> {
    spec_parse_from(toks, 0, Seq::empty(), SourceView::Inherit, SourceView::Inherit)
}

/// Units already closed out, combined with the parse of the rest.
pub open spec fn combine(
    done: Seq<UnitView>,
    rest: Result<Seq<UnitView>, ParseError>,
) -> Result<Seq<UnitView>, ParseError> {
    match rest {
        Ok(us) => Ok(done + us),
        Err(e) => Err(e),
    }
}

/// Builds the unit closed over the accumulated words.
fn close_unit(cur: &Vec<String>, stdin: ExecutionSource, stdout: ExecutionSource) -> (u:
    CommandPart)
    requires
        cur@.len() > 0,
    ensures
        u@ == mk_unit(words_view(cur@), stdin@, stdout@),
{
    let name: String = cur[0].clone();
    let mut args: Vec<String> = Vec::new();
    let mut k: usize = 1;
    while k < cur.len()
        invariant
            1 <= k <= cur@.len(),
            words_view(args@) == words_view(cur@).subrange(1, k as int),
        decreases cur@.len() - k,
    {
        let ghost olda = args@;
        let ghost gk = k as int;
        args.push(cur[k].clone());
        k = k + 1;
        proof {
            assert(words_view(olda).len() == olda.len());
            assert forall|m: int| 0 <= m < args@.len() implies words_view(args@)[m]
                == words_view(cur@).subrange(1, k as int)[m] by {
                assert(words_view(args@)[m] == args@[m]@);
                assert(words_view(cur@).subrange(1, k as int)[m] == words_view(cur@)[1 + m]);
                if m < olda.len() {
                    assert(words_view(olda)[m] == words_view(cur@).subrange(1, gk)[m]);
                    assert(words_view(cur@).subrange(1, gk)[m] == words_view(cur@)[1 + m]);
                }
            }
            assert(words_view(args@) =~= words_view(cur@).subrange(1, k as int));
        }
    }
    let u = CommandPart::Execute { name, args, stdin, stdout };
    proof {
        assert(words_view(cur@).subrange(1, cur@.len() as int) =~= words_view(
            cur@,
        ).drop_first());
        assert(u@.args =~= mk_unit(words_view(cur@), stdin@, stdout@).args);
    }
    u
}

/// Parses a token sequence into an ordered execution plan.
///
/// Words accumulate into the current command; a pipe closes it with its
/// output wired to the shared pipe and the next command's input wired to
/// the other end; a redirection binds the pending input or output source to
/// the named file (for `>>`, in append mode), the last binding winning. An
/// empty token sequence yields an empty plan. An operator with no command
/// where one is required fails with `ParseError::MissingCommand`; a
/// redirection not followed by a filename word fails with
/// `ParseError::MissingRedirectTarget`; an erroneous line yields no units.
pub fn parse_command_chain(tokens: Vec<Token>) -> (res: Result<Vec<CommandPart>, ParseError>)
    ensures
        match res {
            Ok(parts) => spec_parse(toks_view(tokens@)) == Ok::<Seq<UnitView>, ParseError>(
                units_view(parts@),
            ),
            Err(e) => spec_parse(toks_view(tokens@)) == Err::<Seq<UnitView>, ParseError>(e),
        },
{
    let ghost tv = toks_view(tokens@);
    let n: usize = tokens.len();
    let mut parts: Vec<CommandPart> = Vec::new();
    let mut cur: Vec<String> = Vec::new();
    let mut pin: ExecutionSource = ExecutionSource::Inherit;
    let mut pout: ExecutionSource = ExecutionSource::Inherit;
    let mut i: usize = 0;
    proof {
        assert(units_view(parts@) =~= Seq::<UnitView>::empty());
        assert(words_view(cur@) =~= Seq::<Seq<char>>::empty());
        assert(Seq::<UnitView>::empty() + spec_parse(tv)->Ok_0 =~= spec_parse(tv)->Ok_0);
    }
    while i < n
        invariant
            i <= n,
            n == tokens@.len(),
            tv == toks_view(tokens@),
            spec_parse(tv) == combine(
                units_view(parts@),
                spec_parse_from(tv, i as int, words_view(cur@), pin@, pout@),
            ),
        decreases n - i,
    {
        let ghost gdone = units_view(parts@);
        let ghost gcur = words_view(cur@);
        let ghost gpin = pin@;
        let ghost gpout = pout@;
        let ghost gi = i as int;
        proof {
            assert(tv[gi] == tokens@[gi]@);
        }
        match &tokens[i] {
            Token::Word(w) => {
                cur.push(w.clone());
                i = i + 1;
                proof {
                    assert(words_view(cur@) =~= gcur.push(w@));
                }
            },
            Token::Pipe => {
                if cur.len() == 0 {
                    proof {
                        assert(spec_parse(tv) == Err::<Seq<UnitView>, ParseError>(
                            ParseError::MissingCommand,
                        ));
                    }
                    return Err(ParseError::MissingCommand);
                }
                let unit: CommandPart = close_unit(
                    &cur,
                    pin,
                    ExecutionSource::Pipe(PipeEndpoint::Write),
                );
                let ghost mid = parts@;
                parts.push(unit);
                cur = Vec::new();
                pin = ExecutionSource::Pipe(PipeEndpoint::Read);
                pout = ExecutionSource::Inherit;
                i = i + 1;
                proof {
                    assert(units_view(parts@) =~= units_view(mid).push(
                        mk_unit(gcur, gpin, SourceView::Pipe(PipeEndpoint::Write)),
                    ));
                    assert(words_view(cur@) =~= Seq::<Seq<char>>::empty());
                    let rest = spec_parse_from(
                        tv,
                        i as int,
                        Seq::empty(),
                        SourceView::Pipe(PipeEndpoint::Read),
                        SourceView::Inherit,
                    );
                    if rest is Ok {
                        assert(units_view(parts@) + rest->Ok_0 =~= gdone + (
                        seq![mk_unit(gcur, gpin, SourceView::Pipe(PipeEndpoint::Write))]
                            + rest->Ok_0));
                    }
                }
            },
            Token::RedirectIn => {
                if cur.len() == 0 {
                    proof {
                        assert(spec_parse(tv) == Err::<Seq<UnitView>, ParseError>(
                            ParseError::MissingCommand,
                        ));
                    }
                    return Err(ParseError::MissingCommand);
                }
                if i + 1 < n {
                    proof {
                        assert(tv[gi + 1] == tokens@[gi + 1]@);
                    }
                    match &tokens[i + 1] {
                        Token::Word(f) => {
                            pin = ExecutionSource::File(f.clone(), false);
                            i = i + 2;
                        },
                        _ => {
                            proof {
                                assert(spec_parse(tv) == Err::<Seq<UnitView>, ParseError>(
                                    ParseError::MissingRedirectTarget,
                                ));
                            }
                            return Err(ParseError::MissingRedirectTarget);
                        },
                    }
                } else {
                    proof {
                        assert(spec_parse(tv) == Err::<Seq<UnitView>, ParseError>(
                            ParseError::MissingRedirectTarget,
                        ));
                    }
                    return Err(ParseError::MissingRedirectTarget);
                }
            },
            Token::RedirectOut => {
                if cur.len() == 0 {
                    proof {
                        assert(spec_parse(tv) == Err::<Seq<UnitView>, ParseError>(
                            ParseError::MissingCommand,
                        ));
                    }
                    return Err(ParseError::MissingCommand);
                }
                if i + 1 < n {
                    proof {
                        assert(tv[gi + 1] == tokens@[gi + 1]@);
                    }
                    match &tokens[i + 1] {
                        Token::Word(f) => {
                            pout = ExecutionSource::File(f.clone(), false);
                            i = i + 2;
                        },
                        _ => {
                            proof {
                                assert(spec_parse(tv) == Err::<Seq<UnitView>, ParseError>(
                                    ParseError::MissingRedirectTarget,
                                ));
                            }
                            return Err(ParseError::MissingRedirectTarget);
                        },
                    }
                } else {
                    proof {
                        assert(spec_parse(tv) == Err::<Seq<UnitView>, ParseError>(
                            ParseError::MissingRedirectTarget,
                        ));
                    }
                    return Err(ParseError::MissingRedirectTarget);
                }
            },
            Token::RedirectAppend => {
                if cur.len() == 0 {
                    proof {
                        assert(spec_parse(tv) == Err::<Seq<UnitView>, ParseError>(
                            ParseError::MissingCommand,
                        ));
                    }
                    return Err(ParseError::MissingCommand);
                }
                if i + 1 < n {
                    proof {
                        assert(tv[gi + 1] == tokens@[gi + 1]@);
                    }
                    match &tokens[i + 1] {
                        Token::Word(f) => {
                            pout = ExecutionSource::File(f.clone(), true);
                            i = i + 2;
                        },
                        _ => {
                            proof {
                                assert(spec_parse(tv) == Err::<Seq<UnitView>, ParseError>(
                                    ParseError::MissingRedirectTarget,
                                ));
                            }
                            return Err(ParseError::MissingRedirectTarget);
                        },
                    }
                } else {
                    proof {
                        assert(spec_parse(tv) == Err::<Seq<UnitView>, ParseError>(
                            ParseError::MissingRedirectTarget,
                        ));
                    }
                    return Err(ParseError::MissingRedirectTarget);
                }
            },
        }
    }
    if cur.len() > 0 {
        let unit: CommandPart = close_unit(&cur, pin, pout);
        let ghost mid = parts@;
        let ghost gcur = words_view(cur@);
        let ghost gpin = pin@;
        let ghost gpout = pout@;
        parts.push(unit);
        proof {
            assert(units_view(parts@) =~= units_view(mid).push(mk_unit(gcur, gpin, gpout)));
            assert(units_view(mid) + seq![mk_unit(gcur, gpin, gpout)] =~= units_view(parts@));
            assert(spec_parse(tv) == Ok::<Seq<UnitView>, ParseError>(units_view(parts@)));
        }
        Ok(parts)
    } else {
        let ended_after_pipe: bool = match &pin {
            ExecutionSource::Pipe(_) => true,
            _ => false,
        };
        if ended_after_pipe {
            proof {
                assert(spec_parse(tv) == Err::<Seq<UnitView>, ParseError>(
                    ParseError::MissingCommand,
                ));
            }
            Err(ParseError::MissingCommand)
        } else {
            proof {
                assert(units_view(parts@) + Seq::<UnitView>::empty() =~= units_view(parts@));
                assert(spec_parse(tv) == Ok::<Seq<UnitView>, ParseError>(units_view(parts@)));
            }
            Ok(parts)
        }
    }
}

/// Any parse of a token sequence whose last token is a pipe fails,
/// whatever has been accumulated so far.
proof fn lemma_parse_from_trailing_pipe_fails(
    toks: Seq<TokenView>,
    i: int,
    cur: Seq<Seq<char>>,
    pin: SourceView,
    pout: SourceView,
)
    requires
        0 <= i < toks.len(),
        toks[toks.len() - 1] is Pipe,
    ensures
        spec_parse_from(toks, i, cur, pin, pout) is Err,
    decreases toks.len() - i,
{
    let last = toks.len() - 1;
    match toks[i] {
        TokenView::Word(w) => {
            lemma_parse_from_trailing_pipe_fails(toks, i + 1, cur.push(w), pin, pout);
        },
        TokenView::Pipe => {
            if cur.len() > 0 && i < last {
                lemma_parse_from_trailing_pipe_fails(
                    toks,
                    i + 1,
                    Seq::empty(),
                    SourceView::Pipe(PipeEndpoint::Read),
                    SourceView::Inherit,
                );
            }
        },
        TokenView::RedirectIn => {
            if cur.len() > 0 && i + 1 < toks.len() && toks[i + 1] is Word {
                lemma_parse_from_trailing_pipe_fails(
                    toks,
                    i + 2,
                    cur,
                    SourceView::File(toks[i + 1]->Word_0, false),
                    pout,
                );
            }
        },
        TokenView::RedirectOut => {
            if cur.len() > 0 && i + 1 < toks.len() && toks[i + 1] is Word {
                lemma_parse_from_trailing_pipe_fails(
                    toks,
                    i + 2,
                    cur,
                    pin,
                    SourceView::File(toks[i + 1]->Word_0, false),
                );
            }
        },
        TokenView::RedirectAppend => {
            if cur.len() > 0 && i + 1 < toks.len() && toks[i + 1] is Word {
                lemma_parse_from_trailing_pipe_fails(
                    toks,
                    i + 2,
                    cur,
                    pin,
                    SourceView::File(toks[i + 1]->Word_0, true),
                );
            }
        },
    }
}

/// A token sequence ending in a bare pipe never parses: the result is
/// always an error, so no execution units are produced for such a line.
pub proof fn lemma_parse_trailing_pipe_fails(toks: Seq<TokenView>)
    requires
        toks.len() > 0,
        toks[toks.len() - 1] is Pipe,
    ensures
        spec_parse(toks) is Err,
{
    lemma_parse_from_trailing_pipe_fails(
        toks,
        0,
        Seq::empty(),
        SourceView::Inherit,
        SourceView::Inherit,
    );
}

/// Whether the token is a redirection operator.
pub open spec fn is_redirect(t: TokenView) -> bool {
    t is RedirectIn || t is RedirectOut || t is RedirectAppend
}

/// Any parse that has yet to pass a redirection operator standing at `i`
/// with no word after it fails: the scan either errs before `i` or reaches
/// `i`, where the missing filename (or the missing command before the
/// operator) is an error.
proof fn lemma_parse_from_bad_redirect_fails(
    toks: Seq<TokenView>,
    j: int,
    i: int,
    cur: Seq<Seq<char>>,
    pin: SourceView,
    pout: SourceView,
)
    requires
        0 <= j <= i < toks.len(),
        is_redirect(toks[i]),
        i + 1 >= toks.len() || !(toks[i + 1] is Word),
    ensures
        spec_parse_from(toks, j, cur, pin, pout) is Err,
    decreases toks.len() - j,
{
    if j < i {
        match toks[j] {
            TokenView::Word(w) => {
                lemma_parse_from_bad_redirect_fails(toks, j + 1, i, cur.push(w), pin, pout);
            },
            TokenView::Pipe => {
                if cur.len() > 0 {
                    lemma_parse_from_bad_redirect_fails(
                        toks,
                        j + 1,
                        i,
                        Seq::empty(),
                        SourceView::Pipe(PipeEndpoint::Read),
                        SourceView::Inherit,
                    );
                }
            },
            TokenView::RedirectIn => {
                if cur.len() > 0 && j + 1 < toks.len() && toks[j + 1] is Word {
                    lemma_parse_from_bad_redirect_fails(
                        toks,
                        j + 2,
                        i,
                        cur,
                        SourceView::File(toks[j + 1]->Word_0, false),
                        pout,
                    );
                }
            },
            TokenView::RedirectOut => {
                if cur.len() > 0 && j + 1 < toks.len() && toks[j + 1] is Word {
                    lemma_parse_from_bad_redirect_fails(
                        toks,
                        j + 2,
                        i,
                        cur,
                        pin,
                        SourceView::File(toks[j + 1]->Word_0, false),
                    );
                }
            },
            TokenView::RedirectAppend => {
                if cur.len() > 0 && j + 1 < toks.len() && toks[j + 1] is Word {
                    lemma_parse_from_bad_redirect_fails(
                        toks,
                        j + 2,
                        i,
                        cur,
                        pin,
                        SourceView::File(toks[j + 1]->Word_0, true),
                    );
                }
            },
        }
    }
}

/// A token sequence holding a redirection operator with no word after it
/// - an output redirection with no filename, and likewise an input or
/// append redirection - never parses: the result is always an error, so
/// no execution units are produced for such a line.
pub proof fn lemma_parse_redirect_without_filename_fails(toks: Seq<TokenView>, i: int)
    requires
        0 <= i < toks.len(),
        is_redirect(toks[i]),
        i + 1 >= toks.len() || !(toks[i + 1] is Word),
    ensures
        spec_parse(toks) is Err,
{
    lemma_parse_from_bad_redirect_fails(
        toks,
        0,
        i,
        Seq::empty(),
        SourceView::Inherit,
        SourceView::Inherit,
    );
}

/// The word tokens carrying the given texts, in order.
pub open spec fn words_toks(ws: Seq<Seq<char>>) -> Seq<TokenView> {
    ws.map_values(|w: Seq<char>| TokenView::Word(w))
}

/// A run of word tokens only moves the words into the accumulator.
proof fn lemma_parse_words_run(
    toks: Seq<TokenView>,
    i: int,
    ws: Seq<Seq<char>>,
    cur: Seq<Seq<char>>,
    pin: SourceView,
    pout: SourceView,
)
    requires
        0 <= i,
        i + ws.len() <= toks.len(),
        forall|m: int| 0 <= m < ws.len() ==> toks[i + m] == TokenView::Word(ws[m]),
    ensures
        spec_parse_from(toks, i, cur, pin, pout) == spec_parse_from(
            toks,
            i + ws.len(),
            cur + ws,
            pin,
            pout,
        ),
    decreases ws.len(),
{
    if ws.len() == 0 {
        assert(cur + ws =~= cur);
    } else {
        assert(toks[i] == TokenView::Word(ws[0]));
        assert forall|m: int| 0 <= m < ws.drop_first().len() implies toks[i + 1 + m]
            == TokenView::Word(ws.drop_first()[m]) by {
            assert(ws.drop_first()[m] == ws[m + 1]);
        }
        lemma_parse_words_run(toks, i + 1, ws.drop_first(), cur.push(ws[0]), pin, pout);
        assert(cur.push(ws[0]) + ws.drop_first() =~= cur + ws);
    }
}

/// A chain of three commands joined by two pipes parses into exactly three
/// units with exactly two pipe boundaries, each created as a matched
/// write/read pair: the first unit is the only one whose stdin is
/// inherited, the last the only one whose stdout is inherited, and each
/// boundary wires one unit's output to the next unit's input.
pub proof fn lemma_three_stage_pipeline(w1: Seq<Seq<char>>, w2: Seq<Seq<char>>, w3: Seq<Seq<char>>)
    requires
        w1.len() > 0,
        w2.len() > 0,
        w3.len() > 0,
    ensures
        ({
            let toks = words_toks(w1) + seq![TokenView::Pipe] + words_toks(w2)
                + seq![TokenView::Pipe] + words_toks(w3);
            spec_parse(toks) == Ok::<Seq<UnitView>, ParseError>(
                seq![
                    mk_unit(
                        w1,
                        SourceView::Inherit,
                        SourceView::Pipe(PipeEndpoint::Write),
                    ),
                    mk_unit(
                        w2,
                        SourceView::Pipe(PipeEndpoint::Read),
                        SourceView::Pipe(PipeEndpoint::Write),
                    ),
                    mk_unit(
                        w3,
                        SourceView::Pipe(PipeEndpoint::Read),
                        SourceView::Inherit,
                    ),
                ],
            )
        }),
{
    let toks = words_toks(w1) + seq![TokenView::Pipe] + words_toks(w2) + seq![TokenView::Pipe]
        + words_toks(w3);
    let l1 = w1.len() as int;
    let l2 = w2.len() as int;
    let l3 = w3.len() as int;
    assert(toks.len() == l1 + l2 + l3 + 2);
    assert forall|m: int| 0 <= m < l1 implies toks[m] == TokenView::Word(w1[m]) by {
        assert(toks[m] == words_toks(w1)[m]);
    }
    assert forall|m: int| 0 <= m < l2 implies toks[l1 + 1 + m] == TokenView::Word(w2[m]) by {
        assert(toks[l1 + 1 + m] == words_toks(w2)[m]);
    }
    assert forall|m: int| 0 <= m < l3 implies toks[l1 + l2 + 2 + m] == TokenView::Word(w3[m]) by {
        assert(toks[l1 + l2 + 2 + m] == words_toks(w3)[m]);
    }
    assert(toks[l1] == TokenView::Pipe);
    assert(toks[l1 + 1 + l2] == TokenView::Pipe);

    lemma_parse_words_run(
        toks,
        l1 + l2 + 2,
        w3,
        Seq::empty(),
        SourceView::Pipe(PipeEndpoint::Read),
        SourceView::Inherit,
    );
    assert(Seq::<Seq<char>>::empty() + w3 =~= w3);
    assert(spec_parse_from(
        toks,
        l1 + l2 + 2,
        Seq::empty(),
        SourceView::Pipe(PipeEndpoint::Read),
        SourceView::Inherit,
    ) == Ok::<Seq<UnitView>, ParseError>(
        seq![mk_unit(w3, SourceView::Pipe(PipeEndpoint::Read), SourceView::Inherit)],
    ));

    lemma_parse_words_run(
        toks,
        l1 + 1,
        w2,
        Seq::empty(),
        SourceView::Pipe(PipeEndpoint::Read),
        SourceView::Inherit,
    );
    assert(Seq::<Seq<char>>::empty() + w2 =~= w2);
    assert(spec_parse_from(
        toks,
        l1 + 1,
        Seq::empty(),
        SourceView::Pipe(PipeEndpoint::Read),
        SourceView::Inherit,
    ) == Ok::<Seq<UnitView>, ParseError>(
        seq![
            mk_unit(
                w2,
                SourceView::Pipe(PipeEndpoint::Read),
                SourceView::Pipe(PipeEndpoint::Write),
            ),
            mk_unit(w3, SourceView::Pipe(PipeEndpoint::Read), SourceView::Inherit),
        ],
    )) by {
        assert(seq![
            mk_unit(
                w2,
                SourceView::Pipe(PipeEndpoint::Read),
                SourceView::Pipe(PipeEndpoint::Write),
            ),
        ] + seq![mk_unit(w3, SourceView::Pipe(PipeEndpoint::Read), SourceView::Inherit)] =~= seq![
            mk_unit(
                w2,
                SourceView::Pipe(PipeEndpoint::Read),
                SourceView::Pipe(PipeEndpoint::Write),
            ),
            mk_unit(w3, SourceView::Pipe(PipeEndpoint::Read), SourceView::Inherit),
        ]);
    }

    lemma_parse_words_run(toks, 0, w1, Seq::empty(), SourceView::Inherit, SourceView::Inherit);
    assert(Seq::<Seq<char>>::empty() + w1 =~= w1);
    assert(seq![mk_unit(w1, SourceView::Inherit, SourceView::Pipe(PipeEndpoint::Write))] + seq![
        mk_unit(
            w2,
            SourceView::Pipe(PipeEndpoint::Read),
            SourceView::Pipe(PipeEndpoint::Write),
        ),
        mk_unit(w3, SourceView::Pipe(PipeEndpoint::Read), SourceView::Inherit),
    ] =~= seq![
        mk_unit(w1, SourceView::Inherit, SourceView::Pipe(PipeEndpoint::Write)),
        mk_unit(
            w2,
            SourceView::Pipe(PipeEndpoint::Read),
            SourceView::Pipe(PipeEndpoint::Write),
        ),
        mk_unit(w3, SourceView::Pipe(PipeEndpoint::Read), SourceView::Inherit),
    ]);
}

/// Well-formedness of an execution plan: no dangling pipe ends. A unit's
/// output is wired to a pipe exactly when another unit follows it, and
/// then as the write end; a unit's input is wired to a pipe only as the
/// read end; and the first unit's input is never a pipe. In particular
/// the last unit's output is never a pipe.
pub open spec fn plan_wellformed(units: Seq<UnitView>) -> bool {
    &&& forall|k: int|
        0 <= k < units.len() ==> ((#[trigger] units[k]).stdout is Pipe <==> k + 1 < units.len())
    &&& forall|k: int|
        0 <= k < units.len() ==> ((#[trigger] units[k]).stdout is Pipe ==> units[k].stdout
            == SourceView::Pipe(PipeEndpoint::Write))
    &&& forall|k: int|
        0 <= k < units.len() ==> ((#[trigger] units[k]).stdin is Pipe ==> units[k].stdin
            == SourceView::Pipe(PipeEndpoint::Read))
    &&& units.len() > 0 ==> !(units[0].stdin is Pipe)
}

/// Every successful parse yields a well-formed suffix plan, as long as the
/// pending input is at most a pipe read end and the pending output is not
/// a pipe; and the plan is non-empty whenever a command is accumulated or
/// a pipe is pending.
proof fn lemma_parse_from_wellformed(
    toks: Seq<TokenView>,
    i: int,
    cur: Seq<Seq<char>>,
    pin: SourceView,
    pout: SourceView,
)
    requires
        0 <= i <= toks.len(),
        pin is Pipe ==> pin == SourceView::Pipe(PipeEndpoint::Read),
        !(pout is Pipe),
        spec_parse_from(toks, i, cur, pin, pout) is Ok,
    ensures
        ({
            let units = spec_parse_from(toks, i, cur, pin, pout)->Ok_0;
            &&& forall|k: int|
                0 <= k < units.len() ==> ((#[trigger] units[k]).stdout is Pipe <==> k + 1
                    < units.len())
            &&& forall|k: int|
                0 <= k < units.len() ==> ((#[trigger] units[k]).stdout is Pipe ==> units[k].stdout
                    == SourceView::Pipe(PipeEndpoint::Write))
            &&& forall|k: int|
                0 <= k < units.len() ==> ((#[trigger] units[k]).stdin is Pipe ==> units[k].stdin
                    == SourceView::Pipe(PipeEndpoint::Read))
            &&& units.len() > 0 && units[0].stdin is Pipe ==> pin is Pipe
            &&& cur.len() > 0 || pin is Pipe ==> units.len() > 0
        }),
    decreases toks.len() - i,
{
    if i < toks.len() {
        match toks[i] {
            TokenView::Word(w) => {
                lemma_parse_from_wellformed(toks, i + 1, cur.push(w), pin, pout);
            },
            TokenView::Pipe => {
                lemma_parse_from_wellformed(
                    toks,
                    i + 1,
                    Seq::empty(),
                    SourceView::Pipe(PipeEndpoint::Read),
                    SourceView::Inherit,
                );
                let rest = spec_parse_from(
                    toks,
                    i + 1,
                    Seq::empty(),
                    SourceView::Pipe(PipeEndpoint::Read),
                    SourceView::Inherit,
                )->Ok_0;
                let units = spec_parse_from(toks, i, cur, pin, pout)->Ok_0;
                assert(units == seq![
                    mk_unit(cur, pin, SourceView::Pipe(PipeEndpoint::Write)),
                ] + rest);
                assert(rest.len() > 0);
                assert forall|k: int| 0 <= k < units.len() implies ((#[trigger] units[k]).stdout
                    is Pipe <==> k + 1 < units.len()) by {
                    if k > 0 {
                        assert(units[k] == rest[k - 1]);
                    }
                }
                assert forall|k: int| 0 <= k < units.len() implies ((#[trigger] units[k]).stdout
                    is Pipe ==> units[k].stdout == SourceView::Pipe(PipeEndpoint::Write)) by {
                    if k > 0 {
                        assert(units[k] == rest[k - 1]);
                    }
                }
                assert forall|k: int| 0 <= k < units.len() implies ((#[trigger] units[k]).stdin
                    is Pipe ==> units[k].stdin == SourceView::Pipe(PipeEndpoint::Read)) by {
                    if k > 0 {
                        assert(units[k] == rest[k - 1]);
                    }
                }
            },
            TokenView::RedirectIn => {
                lemma_parse_from_wellformed(
                    toks,
                    i + 2,
                    cur,
                    SourceView::File(toks[i + 1]->Word_0, false),
                    pout,
                );
            },
            TokenView::RedirectOut => {
                lemma_parse_from_wellformed(
                    toks,
                    i + 2,
                    cur,
                    pin,
                    SourceView::File(toks[i + 1]->Word_0, false),
                );
            },
            TokenView::RedirectAppend => {
                lemma_parse_from_wellformed(
                    toks,
                    i + 2,
                    cur,
                    pin,
                    SourceView::File(toks[i + 1]->Word_0, true),
                );
            },
        }
    }
}

/// Every plan the parser accepts is well-formed: pipe ends only come in
/// matched adjacent pairs, so no write end dangles at the tail of a chain
/// and no read end stands at its head.
pub proof fn lemma_parse_plan_wellformed(toks: Seq<TokenView>)
    requires
        spec_parse(toks) is Ok,
    ensures
        plan_wellformed(spec_parse(toks)->Ok_0),
{
    lemma_parse_from_wellformed(
        toks,
        0,
        Seq::empty(),
        SourceView::Inherit,
        SourceView::Inherit,
    );
}

} // verus!
