//! The canonical printer: a well-formed tree back to notation text.

use vstd::prelude::*;
use vstd::string::StringExecFns;
use crate::ast::{lemma_nodes_view, node_view, NodeView, ParseNode, Terminal};
use crate::digits::{dec_str, u32_to_string};

verus! {

/// The canonical text of a tree: decimal digits for integer leaves, `h`/`l`
/// for direction leaves, `<count>d<size>`, `<term>r<count><direction>`, and
/// operators padded with single spaces. Implicit counts were filled in by
/// the parser, so the canonical text always writes them out.
pub open spec fn spec_print(v: NodeView) -> Seq<char>
    decreases v,
{
    match v.entry {
        Terminal::Higher => seq!['h'],
        Terminal::Lower => seq!['l'],
        Terminal::Integer(n) => dec_str(n as nat),
        Terminal::Dice => {
            if v.children.len() == 2 {
                spec_print(v.children[0]) + seq!['d'] + spec_print(v.children[1])
            } else {
                Seq::empty()
            }
        },
        Terminal::Remove => {
            if v.children.len() == 3 {
                spec_print(v.children[0]) + seq!['r'] + spec_print(v.children[1]) + spec_print(
                    v.children[2],
                )
            } else {
                Seq::empty()
            }
        },
        Terminal::Add => {
            if v.children.len() == 2 {
                spec_print(v.children[0]) + seq![' ', '+', ' '] + spec_print(v.children[1])
            } else {
                Seq::empty()
            }
        },
        Terminal::Subtract => {
            if v.children.len() == 2 {
                spec_print(v.children[0]) + seq![' ', '-', ' '] + spec_print(v.children[1])
            } else {
                Seq::empty()
            }
        },
    }
}

/// Render a tree into its canonical textual form.
///
/// The tree must satisfy the arity invariant; every tree `parse` returns
/// does. Printing is recursive and purely a function of the tree.
pub fn print(tree: &ParseNode) -> (r: String)
    requires
        tree@.wf(),
    ensures
        r@ == spec_print(tree@),
    decreases *tree,
{
    proof {
        lemma_nodes_view(tree.children@);
    }
    match &tree.entry {
        Terminal::Higher => {
            proof {
                reveal_strlit("h");
                assert("h"@ =~= seq!['h']);
            }
            String::from_str("h")
        },
        Terminal::Lower => {
            proof {
                reveal_strlit("l");
                assert("l"@ =~= seq!['l']);
            }
            String::from_str("l")
        },
        Terminal::Integer(n) => u32_to_string(*n),
        Terminal::Dice => {
            let mut out = print(&tree.children[0]);
            proof {
                reveal_strlit("d");
                assert("d"@ =~= seq!['d']);
            }
            out.append("d");
            let size_text = print(&tree.children[1]);
            out.append(size_text.as_str());
            out
        },
        Terminal::Remove => {
            let mut out = print(&tree.children[0]);
            proof {
                reveal_strlit("r");
                assert("r"@ =~= seq!['r']);
            }
            out.append("r");
            let count_text = print(&tree.children[1]);
            out.append(count_text.as_str());
            let direction_text = print(&tree.children[2]);
            out.append(direction_text.as_str());
            out
        },
        Terminal::Add => {
            let mut out = print(&tree.children[0]);
            proof {
                reveal_strlit(" + ");
                assert(" + "@ =~= seq![' ', '+', ' ']);
            }
            out.append(" + ");
            let right_text = print(&tree.children[1]);
            out.append(right_text.as_str());
            out
        },
        Terminal::Subtract => {
            let mut out = print(&tree.children[0]);
            proof {
                reveal_strlit(" - ");
                assert(" - "@ =~= seq![' ', '-', ' ']);
            }
            out.append(" - ");
            let right_text = print(&tree.children[1]);
            out.append(right_text.as_str());
            out
        },
    }
}

} // verus!
