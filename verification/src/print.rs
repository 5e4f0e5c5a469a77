//! Multi-line pretty rendering of a node tree.
//!
//! Lines wrap when a node's precomputed rendered size would overflow the
//! configured width; nested groups indent by a fixed step.  Nodes that
//! stand for multiply-referenced shared objects are prefixed with a
//! bracketed index, and each `Repeated` marker prints the index of the
//! object it repeats.

use vstd::prelude::*;

use crate::node_tree::{NodeInfo, NodeTree};
use crate::tokens::push_char;

verus! {

broadcast use vstd::std_specs::vec::group_vec_axioms;

/// Layout settings for the pretty printer.
pub struct NodePrinterSettings {
    pub max_line_length: u16,
    pub indent_step: u16,
}

/// The running layout state while printing.
struct Printer {
    max_line_length: usize,
    indent_step: usize,
    indent: usize,
    line_used: usize,
    item_linebreak: bool,
    out: String,
}

/// The identity tags that occur on `Repeated` markers anywhere in the
/// tree: exactly the multiply-referenced objects.
#[verifier::loop_isolation(false)]
fn collect_repeated_ids(elem: &NodeTree, acc: &mut Vec<usize>)
    decreases elem,
{
    match &elem.info {
        NodeInfo::Repeated => {
            match &elem.meta {
                Some(w) => {
                    acc.push(w.0);
                },
                None => {},
            }
        },
        NodeInfo::Grouped(_, sub, _) => {
            collect_repeated_ids(sub, acc);
        },
        NodeInfo::Delimited(_, v) => {
            let mut i: usize = 0;
            while i < v.len()
                decreases v@.len() - i,
            {
                proof {
                    assert(decreases_to!(elem => elem.info));
                }
                collect_repeated_ids(&v[i], acc);
                i = i + 1;
            }
        },
        NodeInfo::Named(a, b) => {
            collect_repeated_ids(a, acc);
            collect_repeated_ids(b, acc);
        },
        NodeInfo::Tuple(a, _, b) => {
            collect_repeated_ids(a, acc);
            collect_repeated_ids(b, acc);
        },
        _ => {},
    }
}

fn find_id(seen: &Vec<usize>, id: usize) -> (r: Option<usize>)
    ensures
        r matches Some(k) ==> k < seen@.len() && seen@[k as int] == id,
{
    let mut i: usize = 0;
    while i < seen.len()
        invariant
            i <= seen@.len(),
        decreases seen@.len() - i,
    {
        if seen[i] == id {
            return Some(i);
        }
        i = i + 1;
    }
    None
}

impl Printer {
    fn write(&mut self, s: &str) {
        if self.line_used == 0 {
            let mut sp: usize = 0;
            while sp < self.indent
                decreases self.indent - sp,
            {
                push_char(&mut self.out, ' ');
                sp = sp + 1;
            }
        }
        self.out.append(s);
        let add = s.unicode_len();
        self.line_used = if self.line_used <= usize::MAX - add {
            self.line_used + add
        } else {
            usize::MAX
        };
    }

    fn end_line(&mut self) {
        push_char(&mut self.out, '\n');
        self.line_used = 0;
    }

    fn up_indent(&mut self) {
        self.indent = if self.indent <= usize::MAX - self.indent_step {
            self.indent + self.indent_step
        } else {
            usize::MAX
        };
    }

    fn down_indent(&mut self) {
        self.indent = if self.indent >= self.indent_step {
            self.indent - self.indent_step
        } else {
            0
        };
    }

    #[verifier::loop_isolation(false)]
    fn inner_pretty_print(&mut self, elem: &NodeTree, shared: &Vec<usize>)
        decreases elem,
    {
        let mut repeated_idx: usize = 0;
        match &elem.meta {
            Some(w) => {
                let id = w.0;
                let is_repeated = match &elem.info {
                    NodeInfo::Repeated => true,
                    _ => false,
                };
                match find_id(shared, id) {
                    Some(k) => {
                        if is_repeated {
                            repeated_idx = k;
                        } else {
                            let mut tag = String::new();
                            push_char(&mut tag, '[');
                            push_char(&mut tag, '#');
                            let kn = if (k as u64) < 0xffff_ffff_ffff_ffffu64 {
                                (k as u64) + 1
                            } else {
                                k as u64
                            };
                            let num = crate::access::u64_to_string(kn);
                            tag.append(num.as_str());
                            tag.append("] ");
                            self.write(tag.as_str());
                        }
                    },
                    None => {},
                }
            },
            None => {},
        }
        match &elem.info {
            NodeInfo::Grouped(prefix, sub, end) => {
                let mut open = String::new();
                push_char(&mut open, *prefix);
                self.write(open.as_str());
                let item_linebreak = self.item_linebreak;
                let mut indented = false;
                let has_space = match &sub.info {
                    NodeInfo::Delimited(_, v) => v.len() > 0 && *prefix != '(',
                    _ => true,
                };
                let width = self.max_line_length;
                let over = if elem.size <= usize::MAX - self.indent {
                    self.indent + elem.size > width
                } else {
                    true
                };
                if over {
                    self.item_linebreak = true;
                    self.up_indent();
                    self.end_line();
                    indented = true;
                } else {
                    self.item_linebreak = false;
                    if has_space {
                        self.write(" ");
                    }
                }
                self.inner_pretty_print(sub, shared);
                self.item_linebreak = item_linebreak;
                if indented {
                    self.down_indent();
                    self.end_line();
                } else if has_space {
                    self.write(" ");
                }
                let mut close = String::new();
                push_char(&mut close, *end);
                self.write(close.as_str());
            },
            NodeInfo::Delimited(delimiter, v) => {
                let mut i: usize = 0;
                while i < v.len()
                    decreases v@.len() - i,
                {
                    if i > 0 {
                        let mut d = String::new();
                        push_char(&mut d, *delimiter);
                        if self.item_linebreak {
                            self.write(d.as_str());
                            self.end_line();
                        } else {
                            d.append(" ");
                            self.write(d.as_str());
                        }
                    }
                    proof {
                        assert(decreases_to!(elem => elem.info));
                    }
                    self.inner_pretty_print(&v[i], shared);
                    i = i + 1;
                }
            },
            NodeInfo::Tuple(key, sep, value) => {
                self.inner_pretty_print(key, shared);
                let mut s = sep.clone();
                s.append(" ");
                self.write(s.as_str());
                self.inner_pretty_print(value, shared);
            },
            NodeInfo::Named(item, next) => {
                self.inner_pretty_print(item, shared);
                self.write(" ");
                self.inner_pretty_print(next, shared);
            },
            NodeInfo::Limited => {
                self.write("...<<<>>>...");
            },
            NodeInfo::Pending(_) => {
                self.write("< - hole - >");
            },
            NodeInfo::Repeated => {
                let mut tag = String::new();
                push_char(&mut tag, '[');
                push_char(&mut tag, '#');
                let rn = if (repeated_idx as u64) < 0xffff_ffff_ffff_ffffu64 {
                    (repeated_idx as u64) + 1
                } else {
                    repeated_idx as u64
                };
                let num = crate::access::u64_to_string(rn);
                tag.append(num.as_str());
                push_char(&mut tag, ']');
                self.write(tag.as_str());
            },
            NodeInfo::BorrowedMut => {
                self.write("< borrowed-mut >");
            },
            NodeInfo::Locked => {
                self.write("< locked >");
            },
            NodeInfo::Leaf(s) => {
                let t = s.clone();
                self.write(t.as_str());
            },
        }
    }

    fn inner_pretty_end(&mut self, elem: &NodeTree, shared: &Vec<usize>) {
        self.inner_pretty_print(elem, shared);
        if self.line_used > 0 {
            self.end_line();
        }
    }
}

/// Render a node tree into indented, line-wrapped text.
pub fn pretty_format(elem: &NodeTree, settings: &NodePrinterSettings) -> (r: String) {
    let mut shared: Vec<usize> = Vec::new();
    collect_repeated_ids(elem, &mut shared);
    let mut state = Printer {
        max_line_length: settings.max_line_length as usize,
        indent_step: settings.indent_step as usize,
        indent: 0,
        line_used: 0,
        item_linebreak: true,
        out: String::new(),
    };
    state.inner_pretty_end(elem, &shared);
    let Printer { out, .. } = state;
    out
}

} // verus!
