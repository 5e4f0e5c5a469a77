//! Command handling for an interactive prompt.
//!
//! The prompt knows a small set of colon commands beside plain path
//! expressions.  The decisions live here; reading lines, printing and
//! exiting are the front end's business, which receives them as structured
//! actions.

use vstd::prelude::*;

use crate::assist::{Assist, NextOptions};
use crate::node_tree::NodeTree;
use crate::print::{pretty_format, NodePrinterSettings};
use crate::root::Root;
use crate::tokens::push_char;

verus! {

broadcast use vstd::std_specs::vec::group_vec_axioms;

/// Prompt configuration.
pub struct Settings {
    pub history_file: Option<String>,
    pub initial_command: Option<String>,
}

impl Default for Settings {
    fn default() -> (r: Self)
        ensures
            r.history_file is None,
            r.initial_command is None,
    {
        Self { history_file: None, initial_command: None }
    }
}

/// One event from the line editor.
pub enum Interaction {
    Line(String),
    CtrlC,
    CtrlD,
    ReadFailed,
}

/// What the prompt loop should do next.
pub enum Response {
    Continue,
    Exit,
}

/// What a typed line asks for, decided by `Commands::handle_cmd`; the
/// front end performs it.
pub enum CmdAction {
    /// Print the help screen and the registered root names.
    ShowHelp,
    /// Leave the prompt.
    Quit,
    /// Evaluate a path expression.
    Evaluate(String),
    /// Nothing to do.
    Nothing,
}

/// The prompt's default rendering of a query result: 120 columns, four
/// spaces per indent level.  The front end writes the text out.
pub fn print(elem: &NodeTree) -> (r: String) {
    pretty_format(elem, &NodePrinterSettings { max_line_length: 120, indent_step: 4 })
}

/// The closed set of prompt commands: help, exit, and the default handler
/// that evaluates whatever else was typed.
pub struct Commands {
    names: Vec<String>,
}

/// Split on single spaces, keeping empty parts, as a shell-like line
/// splitter would.
fn split_spaces(s: &str) -> (r: Vec<String>) {
    let chars = crate::tokens::str_to_chars(s);
    let mut parts: Vec<String> = Vec::new();
    let mut cur = String::new();
    let mut i: usize = 0;
    while i < chars.len()
        decreases chars@.len() - i,
    {
        let c = chars[i];
        if c == ' ' {
            parts.push(cur);
            cur = String::new();
        } else {
            push_char(&mut cur, c);
        }
        i = i + 1;
    }
    parts.push(cur);
    parts
}

fn str_eq_p(a: &str, b: &str) -> (r: bool)
    ensures
        r == (a@ == b@),
{
    let ca = crate::tokens::str_to_chars(a);
    let cb = crate::tokens::str_to_chars(b);
    crate::tokens::chars_eq(&ca, &cb)
}

fn str_prefix_p(a: &str, b: &str) -> (r: bool)
    ensures
        r == a@.is_prefix_of(b@),
{
    let ca = crate::tokens::str_to_chars(a);
    let cb = crate::tokens::str_to_chars(b);
    crate::deser::chars_prefix(&ca, &cb)
}

/// The character prefix of a string.
fn str_take(s: &str, n: usize) -> (r: String) {
    let chars = crate::tokens::str_to_chars(s);
    let mut out = String::new();
    let mut i: usize = 0;
    let stop = if n < chars.len() {
        n
    } else {
        chars.len()
    };
    while i < stop
        invariant
            stop <= chars@.len(),
        decreases stop - i,
    {
        push_char(&mut out, chars[i]);
        i = i + 1;
    }
    out
}

/// The characters of a string from an index on.
fn str_skip(s: &str, n: usize) -> (r: String) {
    let chars = crate::tokens::str_to_chars(s);
    let mut out = String::new();
    let mut i: usize = n;
    while i < chars.len()
        decreases chars@.len() - i,
    {
        push_char(&mut out, chars[i]);
        i = i + 1;
    }
    out
}

fn str_len(s: &str) -> (r: usize)
    ensures
        r == s@.len(),
{
    s.unicode_len()
}

impl Commands {
    /// The built-in command table.
    pub fn new() -> (r: Commands) {
        let mut names: Vec<String> = Vec::new();
        names.push(":exit".to_owned());
        names.push(":help".to_owned());
        Commands { names }
    }

    /// Decide what a typed line asks for.  `?` and `:help` ask for help,
    /// `:exit` asks to leave, an empty line asks for nothing, and any
    /// other line is a path expression to evaluate.
    pub fn handle_cmd(&self, line: &str) -> (r: CmdAction) {
        let params = split_spaces(line);
        if params.len() == 1 && str_eq_p(params[0].as_str(), "?") {
            return CmdAction::ShowHelp;
        }
        if params.len() == 1 && str_eq_p(params[0].as_str(), "") {
            return CmdAction::Nothing;
        }
        if params.len() >= 1 {
            if str_eq_p(params[0].as_str(), ":help") {
                return CmdAction::ShowHelp;
            }
            if str_eq_p(params[0].as_str(), ":exit") {
                return CmdAction::Quit;
            }
        }
        CmdAction::Evaluate(line.to_owned())
    }

    /// Completion assistance for a partially typed line: a lone `?` or
    /// `:` is one pending character; a unique colon-command prefix offers
    /// its completion; anything else is completed as a path expression
    /// against the root dictionary.
    pub fn get_next_options(&self, root: &mut Root, line: &str, pos: usize) -> (r: Assist<
        String,
    >) {
        if str_eq_p(line, "?") || str_eq_p(line, ":") {
            let mut assist: Assist<String> = Assist::default();
            assist.pend_one();
            return assist;
        }
        let head = str_take(line, pos);
        let parts = split_spaces(head.as_str());
        let mut prefix = String::new();
        let mut k: usize = 0;
        while k < parts.len()
            decreases parts@.len() - k,
        {
            if !str_eq_p(parts[k].as_str(), "") {
                prefix = parts[k].clone();
                break;
            }
            k = k + 1;
        }
        let mut matching: Vec<String> = Vec::new();
        let mut m: usize = 0;
        while m < self.names.len()
            decreases self.names@.len() - m,
        {
            if str_prefix_p(prefix.as_str(), self.names[m].as_str()) {
                matching.push(self.names[m].clone());
            }
            m = m + 1;
        }
        if matching.len() == 1 {
            let match1 = matching[0].clone();
            let mut reconstruct = String::new();
            let mut first = true;
            let mut k2: usize = 0;
            let mut replaced = false;
            while k2 < parts.len()
                decreases parts@.len() - k2,
            {
                if !first {
                    push_char(&mut reconstruct, ' ');
                }
                let part = &parts[k2];
                if !replaced && !str_eq_p(part.as_str(), "") && str_prefix_p(
                    part.as_str(),
                    match1.as_str(),
                ) {
                    reconstruct.append(match1.as_str());
                    replaced = true;
                    first = false;
                    break;
                } else {
                    reconstruct.append(part.as_str());
                }
                first = false;
                k2 = k2 + 1;
            }
            if str_prefix_p(head.as_str(), reconstruct.as_str()) {
                let assist: Assist<String> = Assist::default();
                let assist = assist.bump_valid(pos);
                let tail = str_skip(reconstruct.as_str(), pos);
                let mut opts: Vec<String> = Vec::new();
                opts.push(tail);
                let mut assist = assist;
                assist.set_next_options(NextOptions::Avail(0, opts));
                return assist;
            }
            let rec_len = str_len(reconstruct.as_str());
            if str_prefix_p(reconstruct.as_str(), head.as_str()) {
                let deeper = str_skip(line, rec_len);
                let dchars = crate::tokens::str_to_chars(deeper.as_str());
                let mut nospace: usize = 0;
                while nospace < dchars.len() && dchars[nospace] == ' '
                    invariant
                        nospace <= dchars@.len(),
                    decreases dchars@.len() - nospace,
                {
                    nospace = nospace + 1;
                }
                let sub_line = str_skip(deeper.as_str(), nospace);
                let sub = root.probe(sub_line.as_str()).1;
                if rec_len <= usize::MAX - nospace {
                    return sub.bump_valid(rec_len + nospace);
                }
                return sub;
            }
            let assist: Assist<String> = Assist::default();
            return assist;
        }
        let mut nonempty = false;
        let mut k3: usize = 0;
        while k3 < parts.len()
            decreases parts@.len() - k3,
        {
            if !str_eq_p(parts[k3].as_str(), "") {
                nonempty = true;
            }
            k3 = k3 + 1;
        }
        if nonempty {
            root.probe(line).1
        } else {
            let assist: Assist<String> = Assist::default();
            assist
        }
    }
}

} // verus!
