//! The interpreter context and its host.
//!
//! The context carries the variable store, the two loop-control flags, the
//! buffered output lines, and a pending exit request. The host performs what
//! the engine itself cannot: file reads and writes and clearing the screen.
//! An in-memory host lives here so the whole engine can run self-contained.

use vstd::prelude::*;

use crate::store::Variables;
use crate::text::{str_eq, string_concat, string_push_char};

verus! {

/// Whether two stores hold the same five tables.
pub open spec fn vars_model_eq(a: Variables, b: Variables) -> bool {
    &&& a.ints() == b.ints()
    &&& a.floats() == b.floats()
    &&& a.strings() == b.strings()
    &&& a.arrays() == b.arrays()
    &&& a.dicts() == b.dicts()
}

/// What the engine asks of its surroundings. No behaviour is assumed of an
/// implementation: callers state only what holds of every outcome.
pub trait Host {
    /// The content of a file, or a message on failure.
    fn read_file(&mut self, filename: &str) -> Result<String, String>;

    /// Writes (append or truncate) a line of content; a message on failure.
    fn write_file(&mut self, filename: &str, content: &str, append: bool) -> Result<(), String>;

    /// Clears the screen, where there is one.
    fn clear_screen(&mut self);

    /// Shows the full help text.
    fn show_all_help(&mut self);

    /// Shows the list of command names.
    fn show_command_list(&mut self);

    /// Shows the help of one command.
    fn show_command_help(&mut self, name: &str);
}

/// A host over an in-memory file table.
pub struct MemHost {
    pub files: Vec<(String, String)>,
}

impl MemHost {
    pub fn new() -> (r: MemHost)
        ensures
            r.files@.len() == 0,
    {
        MemHost { files: Vec::new() }
    }
}

impl Host for MemHost {
    fn read_file(&mut self, filename: &str) -> Result<String, String> {
        let mut i: usize = 0;
        while i < self.files.len()
            invariant
                0 <= i <= self.files@.len(),
            decreases self.files@.len() - i,
        {
            if str_eq(self.files[i].0.as_str(), filename) {
                return Ok(crate::value::clone_string(&self.files[i].1));
            }
            i = i + 1;
        }
        Err(filename.to_owned())
    }

    fn write_file(&mut self, filename: &str, content: &str, append: bool) -> Result<(), String> {
        let line = string_push_char(content, '\n');
        let mut i: usize = 0;
        while i < self.files.len()
            invariant
                0 <= i <= self.files@.len(),
            decreases self.files@.len() - i,
        {
            if str_eq(self.files[i].0.as_str(), filename) {
                if append {
                    let joined = string_concat(self.files[i].1.as_str(), line.as_str());
                    self.files[i] = (filename.to_owned(), joined);
                } else {
                    self.files[i] = (filename.to_owned(), line);
                }
                return Ok(());
            }
            i = i + 1;
        }
        self.files.push((filename.to_owned(), line));
        Ok(())
    }

    fn clear_screen(&mut self) {
    }

    fn show_all_help(&mut self) {
    }

    fn show_command_list(&mut self) {
    }

    fn show_command_help(&mut self, name: &str) {
        let _ = name;
    }
}

/// The interpreter context: the store, the loop flags, buffered output and a
/// pending exit.
pub struct Interp {
    pub vars: Variables,
    pub break_flag: bool,
    pub continue_flag: bool,
    pub out: Vec<String>,
    pub exit_code: Option<i32>,
}

impl Interp {
    /// The store's tables keep their invariants.
    pub open spec fn wf(&self) -> bool {
        self.vars.wf()
    }

    /// The output lines, as text.
    pub open spec fn out_model(&self) -> Seq<Seq<char>> {
        self.out@.map_values(|t: String| t@)
    }

    /// A fresh context: empty store, flags down, no output, no exit.
    pub fn new() -> (r: Interp)
        ensures
            r.wf(),
            !r.break_flag,
            !r.continue_flag,
            r.out_model() == Seq::<Seq<char>>::empty(),
            r.exit_code is None,
            r.vars.ints().len() == 0,
            r.vars.floats().len() == 0,
            r.vars.strings().len() == 0,
            r.vars.arrays().len() == 0,
            r.vars.dicts().len() == 0,
    {
        let r = Interp {
            vars: Variables::new(),
            break_flag: false,
            continue_flag: false,
            out: Vec::new(),
            exit_code: None,
        };
        proof {
            assert(r.out_model() =~= Seq::<Seq<char>>::empty());
        }
        r
    }

    /// Raises or lowers the break flag.
    pub fn set_break_flag(&mut self, value: bool)
        ensures
            final(self).break_flag == value,
            final(self).continue_flag == old(self).continue_flag,
            vars_model_eq(final(self).vars, old(self).vars),
            final(self).out == old(self).out,
            final(self).exit_code == old(self).exit_code,
    {
        self.break_flag = value;
    }

    /// Raises or lowers the continue flag.
    pub fn set_continue_flag(&mut self, value: bool)
        ensures
            final(self).continue_flag == value,
            final(self).break_flag == old(self).break_flag,
            vars_model_eq(final(self).vars, old(self).vars),
            final(self).out == old(self).out,
            final(self).exit_code == old(self).exit_code,
    {
        self.continue_flag = value;
    }

    /// Whether the break flag is up.
    pub fn should_break(&self) -> (r: bool)
        ensures
            r == self.break_flag,
    {
        self.break_flag
    }

    /// Whether the continue flag is up.
    pub fn should_continue(&self) -> (r: bool)
        ensures
            r == self.continue_flag,
    {
        self.continue_flag
    }

    /// Lowers both loop flags, as a loop does on exit and on a fresh pass.
    pub fn reset_loop_flags(&mut self)
        ensures
            !final(self).break_flag,
            !final(self).continue_flag,
            vars_model_eq(final(self).vars, old(self).vars),
            final(self).out == old(self).out,
            final(self).exit_code == old(self).exit_code,
    {
        self.break_flag = false;
        self.continue_flag = false;
    }

    /// Appends one output line.
    pub fn emit(&mut self, line: String)
        ensures
            final(self).out_model() == old(self).out_model().push(line@),
            vars_model_eq(final(self).vars, old(self).vars),
            final(self).break_flag == old(self).break_flag,
            final(self).continue_flag == old(self).continue_flag,
            final(self).exit_code == old(self).exit_code,
    {
        let ghost out0 = self.out@;
        self.out.push(line);
        proof {
            assert forall|k: int| 0 <= k < self.out@.len() implies (#[trigger] self.out@[k])@
                == old(self).out_model().push(line@)[k] by {
                if k < out0.len() {
                    assert(self.out@[k] == out0[k]);
                    assert(out0.map_values(|t: String| t@)[k] == out0[k]@);
                }
            }
            assert(self.out_model() =~= old(self).out_model().push(line@));
        }
    }
}

} // verus!
