//! The expansion context: the variable bindings, process id and invocation
//! name that `$`-forms in an input line refer to.
//!
//! The interpreter's front end fills this in from the process environment;
//! the lexer only ever reads it as plain values, so everything downstream of
//! it is verified for every possible context.

use vstd::prelude::*;

verus! {

/// The values that variable expansion draws from: named variables, the
/// interpreter's process id (for `$$`) and its own invocation name (for `$0`).
pub struct ShellEnv {
    /// Variable bindings, looked up by name; the first match wins.
    pub vars: Vec<(String, String)>,
    /// The interpreter's process id, substituted for `$$` in decimal.
    pub pid: u64,
    /// The interpreter's invocation name, substituted for `$0`.
    pub shell_name: String,
}

/// The mathematical content of a `ShellEnv`.
pub struct ShellEnvView {
    pub vars: Seq<(Seq<char>, Seq<char>)>,
    pub pid: u64,
    pub shell_name: Seq<char>,
}

impl View for ShellEnv {
    type V = ShellEnvView;

    open spec fn view(&self) -> ShellEnvView {
        ShellEnvView {
            vars: self.vars@.map_values(|p: (String, String)| (p.0@, p.1@)),
            pid: self.pid,
            shell_name: self.shell_name@,
        }
    }
}

/// The value bound to `name`: the second component of the first pair whose
/// first component is `name`, or the empty string if there is none (an unset
/// variable expands to nothing).
pub open spec fn lookup(vars: Seq<(Seq<char>, Seq<char>)>, name: Seq<char>) -> Seq<char>
    decreases vars.len(),
{
    if vars.len() == 0 {
        Seq::empty()
    } else if vars[0].0 == name {
        vars[0].1
    } else {
        lookup(vars.drop_first(), name)
    }
}

impl ShellEnv {
    /// The value bound to the given variable name, or `""` if unset.
    pub fn get_var(&self, name: &Vec<char>) -> (r: &str)
        ensures
            r@ == lookup(self@.vars, name@),
    {
        let mut k: usize = 0;
        proof {
            assert(self@.vars.skip(0) =~= self@.vars);
        }
        while k < self.vars.len()
            invariant
                k <= self.vars.len(),
                lookup(self@.vars, name@) == lookup(self@.vars.skip(k as int), name@),
            decreases self.vars.len() - k,
        {
            proof {
                assert(self@.vars.skip(k as int)[0] == (self.vars@[k as int].0@,
                self.vars@[k as int].1@));
                assert(self@.vars.skip(k as int).drop_first() =~= self@.vars.skip(k as int + 1));
            }
            if crate::strutil::string_eq_chars(&self.vars[k].0, name) {
                return self.vars[k].1.as_str();
            }
            k = k + 1;
        }
        proof {
            assert(self@.vars.skip(k as int).len() == 0);
        }
        let r: &str = "";
        proof {
            reveal_strlit("");
            assert(r@ =~= Seq::<char>::empty());
        }
        r
    }
}

} // verus!
