//! Lexical tokenization: one line of input text becomes a flat sequence of
//! word and operator tokens.
//!
//! Variable expansion runs first, at the character level (see
//! [`crate::expand`]); the splitter then walks the tagged characters. Raw
//! spaces outside double quotes separate words; raw `|`, `<` and `>`
//! outside quotes terminate the current word and become operator tokens,
//! with `>>` read as a single append operator; substituted characters are
//! always word content. Finally a word that both begins and ends with a
//! double quote loses exactly one leading and one trailing quote.
//!
//! Tokenization is total: malformed input (an unclosed quote, a dangling
//! `$`) degrades to best-effort words, never to an error.

use vstd::prelude::*;

use crate::expand::brace_end;
use crate::expand::expand_tagged;
use crate::expand::is_name_start_char;
use crate::expand::lemma_brace_end_bounds;
use crate::expand::lemma_name_end_bounds;
use crate::expand::name_end;
use crate::expand::spec_expand;
use crate::expand::spec_expand_from;
use crate::expand::subst_chars;
use crate::shellenv::lookup;
use crate::strutil::dec_digits;
use crate::shellenv::ShellEnv;
use crate::shellenv::ShellEnvView;
use crate::strutil::chars_of;
use crate::strutil::string_of;

verus! {

/// One lexical unit of an input line.
#[derive(Debug, PartialEq, Clone)]
pub enum Token {
    /// A word: a program name, argument or redirection target, fully
    /// expanded and unquoted.
    Word(String),
    /// The `|` operator.
    Pipe,
    /// The `<` operator.
    RedirectIn,
    /// The `>` operator.
    RedirectOut,
    /// The `>>` operator.
    RedirectAppend,
}

/// The mathematical content of a `Token`.
pub enum TokenView {
    Word(Seq<char>),
    Pipe,
    RedirectIn,
    RedirectOut,
    RedirectAppend,
}

impl View for Token {
    type V = TokenView;

    open spec fn view(&self) -> TokenView {
        match self {
            Token::Word(s) => TokenView::Word(s@),
            Token::Pipe => TokenView::Pipe,
            Token::RedirectIn => TokenView::RedirectIn,
            Token::RedirectOut => TokenView::RedirectOut,
            Token::RedirectAppend => TokenView::RedirectAppend,
        }
    }
}

/// The views of a token sequence, element by element.
pub open spec fn toks_view(ts: Seq<Token>) -> Seq<TokenView> {
    ts.map_values(|t: Token| t@)
}

/// Whether `c` is an operator-introducing character.
pub open spec fn is_op_char(c: char) -> bool {
    c == '|' || c == '<' || c == '>'
}

/// One leading and one trailing double quote stripped, when the word both
/// begins and ends with one.
pub open spec fn strip_word(w: Seq<char>) -> Seq<char> {
    if w.len() >= 2 && w[0] == '"' && w[w.len() - 1] == '"' {
        w.subrange(1, w.len() - 1)
    } else {
        w
    }
}

/// Quote stripping applied to a word token; operators are untouched.
pub open spec fn strip_tok(t: TokenView) -> TokenView {
    match t {
        TokenView::Word(w) => TokenView::Word(strip_word(w)),
        _ => t,
    }
}

/// Quote stripping applied across a token sequence.
pub open spec fn strip_all(ts: Seq<TokenView>) -> Seq<TokenView> {
    ts.map_values(|t: TokenView| strip_tok(t))
}

/// The accumulated word as a pending token, or nothing when it is empty.
pub open spec fn flush(cur: Seq<char>) -> Seq<TokenView> {
    if cur.len() > 0 {
        seq![TokenView::Word(cur)]
    } else {
        Seq::empty()
    }
}

/// The split of expanded, tagged text into tokens, from position `i` on,
/// with `cur` the word accumulated so far and `inq` whether the scan stands
/// inside double quotes. Only raw characters (whose flag is false) act as
/// quotes, separators or operators; substituted ones are word content.
pub open spec fn spec_split_from(
    t: Seq<(char, bool)>,
    i: int,
    cur: Seq<char>,
    inq: bool,
) -> Seq<TokenView>
    decreases t.len() - i,
{
    if i < 0 || i >= t.len() {
        flush(cur)
    } else {
        let c = t[i].0;
        let raw = !t[i].1;
        if raw && c == '"' {
            spec_split_from(t, i + 1, cur.push('"'), !inq)
        } else if raw && !inq && c == ' ' {
            flush(cur) + spec_split_from(t, i + 1, Seq::empty(), inq)
        } else if raw && !inq && c == '|' {
            flush(cur) + seq![TokenView::Pipe] + spec_split_from(t, i + 1, Seq::empty(), inq)
        } else if raw && !inq && c == '<' {
            flush(cur) + seq![TokenView::RedirectIn] + spec_split_from(t, i + 1, Seq::empty(), inq)
        } else if raw && !inq && c == '>' {
            if i + 1 < t.len() && t[i + 1].0 == '>' && !t[i + 1].1 {
                flush(cur) + seq![TokenView::RedirectAppend] + spec_split_from(
                    t,
                    i + 2,
                    Seq::empty(),
                    inq,
                )
            } else {
                flush(cur) + seq![TokenView::RedirectOut] + spec_split_from(
                    t,
                    i + 1,
                    Seq::empty(),
                    inq,
                )
            }
        } else {
            spec_split_from(t, i + 1, cur.push(c), inq)
        }
    }
}

/// The tokens of one line of input: expansion, splitting, quote stripping.
pub open spec fn spec_tokenize(s: Seq<char>, env: ShellEnvView) -> Seq<TokenView> {
    strip_all(spec_split_from(spec_expand(s, env), 0, Seq::empty(), false))
}

/// Closes the accumulated word, if any: strips one surrounding quote pair
/// and appends the word to the token list; the accumulator is emptied.
fn flush_word(toks: &mut Vec<Token>, cur: &mut Vec<char>)
    ensures
        toks_view(final(toks)@) == toks_view(old(toks)@) + strip_all(flush(old(cur)@)),
        final(cur)@ == Seq::<char>::empty(),
{
    if cur.len() > 0 {
        let w: String = if cur.len() >= 2 && cur[0] == '"' && cur[cur.len() - 1] == '"' {
            let mut mid: Vec<char> = Vec::new();
            let mut k: usize = 1;
            while k < cur.len() - 1
                invariant
                    1 <= k <= cur.len() - 1,
                    cur.len() >= 2,
                    mid@ == cur@.subrange(1, k as int),
                decreases cur.len() - 1 - k,
            {
                mid.push(cur[k]);
                k = k + 1;
                proof {
                    assert(mid@ =~= cur@.subrange(1, k as int));
                }
            }
            string_of(&mid)
        } else {
            string_of(cur)
        };
        proof {
            assert(w@ == strip_word(cur@));
        }
        toks.push(Token::Word(w));
        *cur = Vec::new();
        proof {
            assert(toks_view(toks@) =~= toks_view(old(toks)@) + strip_all(flush(old(cur)@)));
        }
    } else {
        proof {
            assert(toks_view(toks@) =~= toks_view(old(toks)@) + strip_all(flush(old(cur)@)));
        }
    }
}

/// Converts one line of input text into its token sequence: variable
/// expansion first, then quote-respecting word splitting and operator
/// recognition, then quote stripping. Total: every input yields a token
/// sequence, never an error.
pub fn tokenize(input: &str, env: &ShellEnv) -> (res: Vec<Token>)
    ensures
        toks_view(res@) == spec_tokenize(input@, env@),
{
    let cs: Vec<char> = chars_of(input);
    let tagged: Vec<(char, bool)> = expand_tagged(&cs, env);
    let n: usize = tagged.len();
    let mut toks: Vec<Token> = Vec::new();
    let mut cur: Vec<char> = Vec::new();
    let mut inq: bool = false;
    let mut i: usize = 0;
    while i < n
        invariant
            i <= n,
            n == tagged@.len(),
            tagged@ == spec_expand(cs@, env@),
            toks_view(toks@) + strip_all(spec_split_from(tagged@, i as int, cur@, inq))
                == spec_tokenize(cs@, env@),
        decreases n - i,
    {
        let ghost prevt = toks@;
        let ghost gcur = cur@;
        let ghost ginq = inq;
        let ghost gi = i as int;
        let c: char = tagged[i].0;
        let raw: bool = !tagged[i].1;
        if raw && c == '"' {
            cur.push('"');
            inq = !inq;
            i = i + 1;
        } else if raw && !inq && c == ' ' {
            flush_word(&mut toks, &mut cur);
            i = i + 1;
        } else if raw && !inq && c == '|' {
            flush_word(&mut toks, &mut cur);
            let ghost mid = toks@;
            toks.push(Token::Pipe);
            proof {
                assert(toks_view(toks@) =~= toks_view(mid).push(TokenView::Pipe));
            }
            i = i + 1;
        } else if raw && !inq && c == '<' {
            flush_word(&mut toks, &mut cur);
            let ghost mid = toks@;
            toks.push(Token::RedirectIn);
            proof {
                assert(toks_view(toks@) =~= toks_view(mid).push(TokenView::RedirectIn));
            }
            i = i + 1;
        } else if raw && !inq && c == '>' {
            flush_word(&mut toks, &mut cur);
            let ghost mid = toks@;
            if i + 1 < n && tagged[i + 1].0 == '>' && !tagged[i + 1].1 {
                toks.push(Token::RedirectAppend);
                proof {
                    assert(toks_view(toks@) =~= toks_view(mid).push(TokenView::RedirectAppend));
                }
                i = i + 2;
            } else {
                toks.push(Token::RedirectOut);
                proof {
                    assert(toks_view(toks@) =~= toks_view(mid).push(TokenView::RedirectOut));
                }
                i = i + 1;
            }
        } else {
            cur.push(c);
            i = i + 1;
        }
        proof {
            assert(toks_view(toks@) + strip_all(spec_split_from(tagged@, i as int, cur@, inq))
                =~= toks_view(prevt) + strip_all(spec_split_from(tagged@, gi, gcur, ginq)));
        }
    }
    flush_word(&mut toks, &mut cur);
    proof {
        assert(toks_view(toks@) =~= spec_tokenize(cs@, env@));
    }
    toks
}

/// The characters of `s` from `i` on, kept as they stand and marked raw.
pub open spec fn raw_tail(s: Seq<char>, i: int) -> Seq<(char, bool)> {
    Seq::new((s.len() - i) as nat, |m: int| (s[i + m], false))
}

/// Expansion leaves text without dollar signs untouched: every character
/// passes through raw.
proof fn lemma_expand_plain(s: Seq<char>, i: int, env: ShellEnvView)
    requires
        0 <= i <= s.len(),
        forall|k: int| 0 <= k < s.len() ==> s[k] != '$',
    ensures
        spec_expand_from(s, i, env) == raw_tail(s, i),
    decreases s.len() - i,
{
    if i < s.len() {
        lemma_expand_plain(s, i + 1, env);
        assert(seq![(s[i], false)] + raw_tail(s, i + 1) =~= raw_tail(s, i));
    } else {
        assert(spec_expand_from(s, i, env) =~= raw_tail(s, i));
    }
}

/// The characters of the tagged text from `i` on, tags dropped.
pub open spec fn tail_chars(t: Seq<(char, bool)>, i: int) -> Seq<char> {
    Seq::new((t.len() - i) as nat, |m: int| t[i + m].0)
}

/// Splitting text that holds no quote, separator or operator character
/// only extends the accumulated word.
proof fn lemma_split_plain(t: Seq<(char, bool)>, i: int, cur: Seq<char>, inq: bool)
    requires
        0 <= i <= t.len(),
        forall|k: int| 0 <= k < t.len() ==> t[k].0 != '"' && t[k].0 != ' ' && !is_op_char(
            t[k].0,
        ),
    ensures
        spec_split_from(t, i, cur, inq) == flush(cur + tail_chars(t, i)),
    decreases t.len() - i,
{
    if i < t.len() {
        lemma_split_plain(t, i + 1, cur.push(t[i].0), inq);
        assert(cur.push(t[i].0) + tail_chars(t, i + 1) =~= cur + tail_chars(t, i));
    } else {
        assert(cur + tail_chars(t, i) =~= cur);
    }
}

/// Idempotence of tokenization on plain words: re-tokenizing the literal
/// text of a produced word token that holds no dollar sign, quote, space
/// or operator character yields that same single word again, whatever the
/// expansion context. (A produced word may also hold spaces or operator
/// characters - from quoting or from a substituted value - and
/// re-tokenizing such text splits it anew, so those are left out here.)
pub proof fn lemma_retokenize_plain_word(w: Seq<char>, env: ShellEnvView)
    requires
        w.len() > 0,
        forall|k: int| 0 <= k < w.len() ==> w[k] != '$' && w[k] != '"' && w[k] != ' '
            && !is_op_char(w[k]),
    ensures
        spec_tokenize(w, env) == seq![TokenView::Word(w)],
{
    lemma_expand_plain(w, 0, env);
    let t = spec_expand(w, env);
    assert forall|k: int| 0 <= k < t.len() implies t[k].0 != '"' && t[k].0 != ' '
        && !is_op_char(t[k].0) by {
        assert(t[k] == (w[k], false));
    }
    lemma_split_plain(t, 0, Seq::empty(), false);
    assert(Seq::empty() + tail_chars(t, 0) =~= w);
    assert(spec_split_from(t, 0, Seq::empty(), false) == seq![TokenView::Word(w)]);
    assert(strip_word(w) == w);
    assert(strip_all(seq![TokenView::Word(w)]) =~= seq![TokenView::Word(w)]);
}

/// The quote-respecting runs of the tagged text from `i` on: maximal
/// stretches not split by a raw space outside double quotes, with `cur`
/// the run accumulated so far and `inq` whether the scan stands inside
/// quotes. This is the splitter with every operator reading removed.
pub open spec fn word_runs_from(
    t: Seq<(char, bool)>,
    i: int,
    cur: Seq<char>,
    inq: bool,
) -> Seq<Seq<char>>
    decreases t.len() - i,
{
    if i < 0 || i >= t.len() {
        if cur.len() > 0 {
            seq![cur]
        } else {
            Seq::empty()
        }
    } else {
        let c = t[i].0;
        let raw = !t[i].1;
        if raw && c == '"' {
            word_runs_from(t, i + 1, cur.push('"'), !inq)
        } else if raw && !inq && c == ' ' {
            (if cur.len() > 0 {
                seq![cur]
            } else {
                Seq::empty()
            }) + word_runs_from(t, i + 1, Seq::empty(), inq)
        } else {
            word_runs_from(t, i + 1, cur.push(c), inq)
        }
    }
}

/// The quote-respecting, space-delimited runs of tagged text.
pub open spec fn word_runs(t: Seq<(char, bool)>) -> Seq<Seq<char>> {
    word_runs_from(t, 0, Seq::empty(), false)
}

/// Without raw operator characters, splitting is exactly the run
/// decomposition: one word per run, in order.
proof fn lemma_split_is_runs(t: Seq<(char, bool)>, i: int, cur: Seq<char>, inq: bool)
    requires
        0 <= i <= t.len(),
        no_raw_ops(t),
    ensures
        spec_split_from(t, i, cur, inq) == word_runs_from(t, i, cur, inq).map_values(
            |w: Seq<char>| TokenView::Word(w),
        ),
    decreases t.len() - i,
{
    let f = |w: Seq<char>| TokenView::Word(w);
    if i >= t.len() {
        assert(spec_split_from(t, i, cur, inq) =~= word_runs_from(t, i, cur, inq).map_values(f));
    } else {
        let c = t[i].0;
        let raw = !t[i].1;
        if raw && c == '"' {
            lemma_split_is_runs(t, i + 1, cur.push('"'), !inq);
        } else if raw && !inq && c == ' ' {
            lemma_split_is_runs(t, i + 1, Seq::empty(), inq);
            assert(flush(cur) + word_runs_from(t, i + 1, Seq::empty(), inq).map_values(f)
                =~= word_runs_from(t, i, cur, inq).map_values(f));
        } else {
            lemma_split_is_runs(t, i + 1, cur.push(c), inq);
        }
    }
}

/// No raw operator character stands in the tagged text: every character
/// is substitution output or not an operator.
pub open spec fn no_raw_ops(t: Seq<(char, bool)>) -> bool {
    forall|j: int| 0 <= j < t.len() ==> (#[trigger] t[j]).1 || !is_op_char(t[j].0)
}

proof fn lemma_no_raw_ops_concat(a: Seq<(char, bool)>, b: Seq<(char, bool)>)
    requires
        no_raw_ops(a),
        no_raw_ops(b),
    ensures
        no_raw_ops(a + b),
{
    assert forall|j: int| 0 <= j < (a + b).len() implies (#[trigger] (a + b)[j]).1 || !is_op_char(
        (a + b)[j].0,
    ) by {
        if j < a.len() {
            assert((a + b)[j] == a[j]);
        } else {
            assert((a + b)[j] == b[j - a.len()]);
        }
    }
}

proof fn lemma_no_raw_ops_subst(x: Seq<char>)
    ensures
        no_raw_ops(subst_chars(x)),
{
    assert forall|j: int| 0 <= j < subst_chars(x).len() implies (#[trigger] subst_chars(x)[j]).1
        || !is_op_char(subst_chars(x)[j].0) by {
        assert(subst_chars(x)[j] == (x[j], true));
    }
}

/// Expansion of text without operator characters yields no raw operator
/// characters: substituted characters are marked, and the characters it
/// keeps come from the input or are dollar signs and backslashes.
proof fn lemma_expand_no_raw_ops(s: Seq<char>, i: int, env: ShellEnvView)
    requires
        0 <= i <= s.len(),
        forall|k: int| 0 <= k < s.len() ==> !is_op_char(s[k]),
    ensures
        no_raw_ops(spec_expand_from(s, i, env)),
    decreases s.len() - i,
{
    if i < s.len() {
        if s[i] == '\\' {
            if i + 1 < s.len() && s[i + 1] == '$' {
                lemma_expand_no_raw_ops(s, i + 2, env);
                lemma_no_raw_ops_concat(seq![('$', false)], spec_expand_from(s, i + 2, env));
            } else {
                lemma_expand_no_raw_ops(s, i + 1, env);
                lemma_no_raw_ops_concat(seq![('\\', false)], spec_expand_from(s, i + 1, env));
            }
        } else if s[i] == '$' && i + 1 < s.len() {
            if s[i + 1] == '{' {
                lemma_brace_end_bounds(s, i + 2);
                let close = brace_end(s, i + 2);
                let nxt = if close < s.len() {
                    close + 1
                } else {
                    close
                };
                lemma_expand_no_raw_ops(s, nxt, env);
                lemma_no_raw_ops_subst(lookup(env.vars, s.subrange(i + 2, close)));
                lemma_no_raw_ops_concat(
                    subst_chars(lookup(env.vars, s.subrange(i + 2, close))),
                    spec_expand_from(s, nxt, env),
                );
            } else if s[i + 1] == '$' {
                lemma_expand_no_raw_ops(s, i + 2, env);
                lemma_no_raw_ops_subst(dec_digits(env.pid as int));
                lemma_no_raw_ops_concat(
                    subst_chars(dec_digits(env.pid as int)),
                    spec_expand_from(s, i + 2, env),
                );
            } else if s[i + 1] == '0' {
                lemma_expand_no_raw_ops(s, i + 2, env);
                lemma_no_raw_ops_subst(env.shell_name);
                lemma_no_raw_ops_concat(
                    subst_chars(env.shell_name),
                    spec_expand_from(s, i + 2, env),
                );
            } else if is_name_start_char(s[i + 1]) {
                lemma_name_end_bounds(s, i + 2);
                let stop = name_end(s, i + 2);
                lemma_expand_no_raw_ops(s, stop, env);
                lemma_no_raw_ops_subst(lookup(env.vars, s.subrange(i + 1, stop)));
                lemma_no_raw_ops_concat(
                    subst_chars(lookup(env.vars, s.subrange(i + 1, stop))),
                    spec_expand_from(s, stop, env),
                );
            } else {
                lemma_expand_no_raw_ops(s, i + 1, env);
                lemma_no_raw_ops_concat(seq![('$', false)], spec_expand_from(s, i + 1, env));
            }
        } else {
            lemma_expand_no_raw_ops(s, i + 1, env);
            lemma_no_raw_ops_concat(seq![(s[i], false)], spec_expand_from(s, i + 1, env));
        }
    }
}

/// For input without operator characters, tokenization yields words only:
/// exactly one word token per space-delimited, quote-respecting run of
/// the expanded text, in original order, each with one surrounding quote
/// pair stripped.
pub proof fn lemma_tokenize_words_only(s: Seq<char>, env: ShellEnvView)
    requires
        forall|k: int| 0 <= k < s.len() ==> !is_op_char(s[k]),
    ensures
        spec_tokenize(s, env) == word_runs(spec_expand(s, env)).map_values(
            |w: Seq<char>| TokenView::Word(strip_word(w)),
        ),
        forall|j: int| 0 <= j < spec_tokenize(s, env).len() ==> (#[trigger] spec_tokenize(
            s,
            env,
        )[j]) is Word,
{
    lemma_expand_no_raw_ops(s, 0, env);
    let t = spec_expand(s, env);
    lemma_split_is_runs(t, 0, Seq::empty(), false);
    assert(spec_tokenize(s, env) =~= word_runs(t).map_values(
        |w: Seq<char>| TokenView::Word(strip_word(w)),
    ));
}

} // verus!
