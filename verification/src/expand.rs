//! Variable expansion: the character-level pass that rewrites `$`-forms in an
//! input line before it is split into tokens.
//!
//! The pass recognizes `\$` (a literal dollar sign), `$$` (the interpreter's
//! process id in decimal), `$0` (the interpreter's invocation name),
//! `${NAME}` and `$NAME` (the value bound to `NAME`, empty when unset); a `$`
//! followed by none of these, and a backslash followed by anything but `$`,
//! are kept literally.
//!
//! Every produced character carries a flag saying whether it came out of a
//! substitution. Substituted characters are plain word content: the splitter
//! never reads them as quotes, operators or separators, so an expanded value
//! that happens to contain `|` or a space stays inside the current word.

use vstd::prelude::*;

use crate::shellenv::ShellEnv;
use crate::shellenv::ShellEnvView;
use crate::shellenv::lookup;
use crate::strutil::dec_digits;
use crate::strutil::push_dec;
use crate::strutil::chars_of;

verus! {

/// Whether `c` may start a variable name: an ASCII letter or underscore.
pub open spec fn is_name_start_char(c: char) -> bool {
    let u = c as u32;
    (65 <= u <= 90) || (97 <= u <= 122) || u == 95
}

/// Whether `c` may continue a variable name: an ASCII letter, digit or
/// underscore.
pub open spec fn is_name_char(c: char) -> bool {
    is_name_start_char(c) || (48 <= c as u32 <= 57)
}

/// The index of the first `'}'` at or after `j`, or the length of `s` if
/// there is none.
pub open spec fn brace_end(s: Seq<char>, j: int) -> int
    decreases s.len() - j,
{
    if j < 0 || j >= s.len() {
        s.len() as int
    } else if s[j] == '}' {
        j
    } else {
        brace_end(s, j + 1)
    }
}

/// The index of the first character at or after `j` that cannot continue a
/// variable name, or the length of `s` if every one can.
pub open spec fn name_end(s: Seq<char>, j: int) -> int
    decreases s.len() - j,
{
    if j < 0 || j >= s.len() {
        s.len() as int
    } else if is_name_char(s[j]) {
        name_end(s, j + 1)
    } else {
        j
    }
}

pub proof fn lemma_brace_end_bounds(s: Seq<char>, j: int)
    requires
        0 <= j <= s.len(),
    ensures
        j <= brace_end(s, j) <= s.len(),
        brace_end(s, j) < s.len() ==> s[brace_end(s, j)] == '}',
        forall|m: int| j <= m < brace_end(s, j) ==> s[m] != '}',
    decreases s.len() - j,
{
    if j < s.len() && s[j] != '}' {
        lemma_brace_end_bounds(s, j + 1);
    }
}

pub proof fn lemma_name_end_bounds(s: Seq<char>, j: int)
    requires
        0 <= j <= s.len(),
    ensures
        j <= name_end(s, j) <= s.len(),
        name_end(s, j) < s.len() ==> !is_name_char(s[name_end(s, j)]),
        forall|m: int| j <= m < name_end(s, j) ==> is_name_char(s[m]),
    decreases s.len() - j,
{
    if j < s.len() && is_name_char(s[j]) {
        lemma_name_end_bounds(s, j + 1);
    }
}

/// Marks every character of a substituted value as substitution output.
pub open spec fn subst_chars(s: Seq<char>) -> Seq<(char, bool)> {
    s.map_values(|c: char| (c, true))
}

/// The expansion of `s` from position `i` on, as tagged characters: the flag
/// is true exactly on substitution output.
pub open spec fn spec_expand_from(s: Seq<char>, i: int, env: ShellEnvView) -> Seq<(char, bool)>
    decreases s.len() - i,
{
    if i < 0 || i >= s.len() {
        Seq::empty()
    } else if s[i] == '\\' {
        if i + 1 < s.len() && s[i + 1] == '$' {
            seq![('$', false)] + spec_expand_from(s, i + 2, env)
        } else {
            seq![('\\', false)] + spec_expand_from(s, i + 1, env)
        }
    } else if s[i] == '$' && i + 1 < s.len() {
        if s[i + 1] == '{' {
            let close = brace_end(s, i + 2);
            proof {
                lemma_brace_end_bounds(s, i + 2);
            }
            subst_chars(lookup(env.vars, s.subrange(i + 2, close))) + spec_expand_from(
                s,
                if close < s.len() {
                    close + 1
                } else {
                    close
                },
                env,
            )
        } else if s[i + 1] == '$' {
            subst_chars(dec_digits(env.pid as int)) + spec_expand_from(s, i + 2, env)
        } else if s[i + 1] == '0' {
            subst_chars(env.shell_name) + spec_expand_from(s, i + 2, env)
        } else if is_name_start_char(s[i + 1]) {
            let stop = name_end(s, i + 2);
            proof {
                lemma_name_end_bounds(s, i + 2);
            }
            subst_chars(lookup(env.vars, s.subrange(i + 1, stop))) + spec_expand_from(
                s,
                stop,
                env,
            )
        } else {
            seq![('$', false)] + spec_expand_from(s, i + 1, env)
        }
    } else {
        seq![(s[i], false)] + spec_expand_from(s, i + 1, env)
    }
}

/// The expansion of a whole line, as tagged characters.
pub open spec fn spec_expand(s: Seq<char>, env: ShellEnvView) -> Seq<(char, bool)> {
    spec_expand_from(s, 0, env)
}

/// The expansion of a whole line, as plain text.
pub open spec fn expanded_text(s: Seq<char>, env: ShellEnvView) -> Seq<char> {
    spec_expand(s, env).map_values(|t: (char, bool)| t.0)
}

/// Whether `c` may continue a variable name (executable form).
fn name_char(c: char) -> (r: bool)
    ensures
        r == is_name_char(c),
{
    let u: u32 = c as u32;
    (65 <= u && u <= 90) || (97 <= u && u <= 122) || u == 95 || (48 <= u && u <= 57)
}

/// Whether `c` may start a variable name (executable form).
fn name_start_char(c: char) -> (r: bool)
    ensures
        r == is_name_start_char(c),
{
    let u: u32 = c as u32;
    (65 <= u && u <= 90) || (97 <= u && u <= 122) || u == 95
}

/// Appends a substituted value to the expansion output, marking every
/// character as substitution output.
fn push_subst(out: &mut Vec<(char, bool)>, val: &str)
    ensures
        final(out)@ == old(out)@ + subst_chars(val@),
{
    let n: usize = val.unicode_len();
    let mut k: usize = 0;
    while k < n
        invariant
            k <= n,
            n == val@.len(),
            out@ == old(out)@ + subst_chars(val@).take(k as int),
        decreases n - k,
    {
        out.push((val.get_char(k), true));
        k = k + 1;
        proof {
            assert(out@ =~= old(out)@ + subst_chars(val@).take(k as int));
        }
    }
    proof {
        assert(out@ =~= old(out)@ + subst_chars(val@));
    }
}

/// Expands every `$`-form of `cs`, tagging substitution output.
pub fn expand_tagged(cs: &Vec<char>, env: &ShellEnv) -> (out: Vec<(char, bool)>)
    ensures
        out@ == spec_expand(cs@, env@),
{
    let n: usize = cs.len();
    let mut out: Vec<(char, bool)> = Vec::new();
    let mut i: usize = 0;
    while i < n
        invariant
            i <= n,
            n == cs@.len(),
            out@ + spec_expand_from(cs@, i as int, env@) == spec_expand(cs@, env@),
        decreases n - i,
    {
        let ghost prev = out@;
        let ghost gi = i as int;
        let c: char = cs[i];
        if c == '\\' {
            if i + 1 < n && cs[i + 1] == '$' {
                out.push(('$', false));
                i = i + 2;
            } else {
                out.push(('\\', false));
                i = i + 1;
            }
        } else if c == '$' && i + 1 < n {
            let next: char = cs[i + 1];
            if next == '{' {
                let mut j: usize = i + 2;
                let mut name: Vec<char> = Vec::new();
                while j < n && cs[j] != '}'
                    invariant
                        i + 2 <= j <= n,
                        n == cs@.len(),
                        name@ == cs@.subrange(gi + 2, j as int),
                        forall|m: int| gi + 2 <= m < j ==> cs@[m] != '}',
                        gi == i,
                    decreases n - j,
                {
                    name.push(cs[j]);
                    j = j + 1;
                    proof {
                        assert(name@ =~= cs@.subrange(gi + 2, j as int));
                    }
                }
                proof {
                    lemma_brace_end_bounds(cs@, gi + 2);
                    assert(brace_end(cs@, gi + 2) == j as int) by {
                        lemma_brace_end_at(cs@, gi + 2, j as int);
                    }
                }
                let val: &str = env.get_var(&name);
                push_subst(&mut out, val);
                i = if j < n {
                    j + 1
                } else {
                    j
                };
            } else if next == '$' {
                let mut digits: String = String::new();
                push_dec(&mut digits, env.pid);
                proof {
                    assert(digits@ =~= dec_digits(env@.pid as int));
                }
                push_subst(&mut out, digits.as_str());
                i = i + 2;
            } else if next == '0' {
                push_subst(&mut out, env.shell_name.as_str());
                i = i + 2;
            } else if name_start_char(next) {
                let mut j: usize = i + 2;
                let mut name: Vec<char> = Vec::new();
                name.push(next);
                proof {
                    assert(name@ =~= cs@.subrange(gi + 1, gi + 2));
                }
                while j < n && name_char(cs[j])
                    invariant
                        i + 2 <= j <= n,
                        n == cs@.len(),
                        name@ == cs@.subrange(gi + 1, j as int),
                        forall|m: int| gi + 2 <= m < j ==> is_name_char(cs@[m]),
                        gi == i,
                    decreases n - j,
                {
                    name.push(cs[j]);
                    j = j + 1;
                    proof {
                        assert(name@ =~= cs@.subrange(gi + 1, j as int));
                    }
                }
                proof {
                    lemma_name_end_bounds(cs@, gi + 2);
                    assert(name_end(cs@, gi + 2) == j as int) by {
                        lemma_name_end_at(cs@, gi + 2, j as int);
                    }
                }
                let val: &str = env.get_var(&name);
                push_subst(&mut out, val);
                i = j;
            } else {
                out.push(('$', false));
                i = i + 1;
            }
        } else {
            out.push((c, false));
            i = i + 1;
        }
        proof {
            assert(out@ + spec_expand_from(cs@, i as int, env@) =~= prev + spec_expand_from(
                cs@,
                gi,
                env@,
            ));
        }
    }
    proof {
        assert(spec_expand_from(cs@, i as int, env@) =~= Seq::<(char, bool)>::empty());
        assert(out@ =~= spec_expand(cs@, env@));
    }
    out
}

/// The first `'}'` at or after `j` stands exactly where the scan stopped.
proof fn lemma_brace_end_at(s: Seq<char>, j: int, k: int)
    requires
        0 <= j <= k <= s.len(),
        forall|m: int| j <= m < k ==> s[m] != '}',
        k < s.len() ==> s[k] == '}',
    ensures
        brace_end(s, j) == k,
    decreases k - j,
{
    if j < k {
        lemma_brace_end_at(s, j + 1, k);
    }
}

/// The first non-name character at or after `j` stands exactly where the
/// scan stopped.
proof fn lemma_name_end_at(s: Seq<char>, j: int, k: int)
    requires
        0 <= j <= k <= s.len(),
        forall|m: int| j <= m < k ==> is_name_char(s[m]),
        k < s.len() ==> !is_name_char(s[k]),
    ensures
        name_end(s, j) == k,
    decreases k - j,
{
    if j < k {
        lemma_name_end_at(s, j + 1, k);
    }
}

/// The expanded form of one line of input, with all `$`-forms substituted:
/// `\$` becomes a literal dollar sign, `$$` the interpreter's process id,
/// `$0` its invocation name, `${NAME}` and `$NAME` the value bound to `NAME`
/// (empty when unset), and everything else is kept as it stands.
pub fn expand_env_vars(input: &str, env: &ShellEnv) -> (res: String)
    ensures
        res@ == expanded_text(input@, env@),
{
    let cs: Vec<char> = chars_of(input);
    let tagged: Vec<(char, bool)> = expand_tagged(&cs, env);
    let mut res: String = String::new();
    let mut k: usize = 0;
    while k < tagged.len()
        invariant
            k <= tagged.len(),
            tagged@ == spec_expand(cs@, env@),
            res@ == expanded_text(cs@, env@).take(k as int),
        decreases tagged.len() - k,
    {
        crate::strutil::push_char(&mut res, tagged[k].0);
        k = k + 1;
        proof {
            assert(res@ =~= expanded_text(cs@, env@).take(k as int));
        }
    }
    proof {
        assert(res@ =~= expanded_text(input@, env@));
    }
    res
}

} // verus!
