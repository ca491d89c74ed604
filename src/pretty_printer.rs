use vstd::prelude::*;

use crate::ast::SyntaxNode;

verus! {

/// One row of a tree outline: a node's depth, kind and text.
#[derive(Debug, Clone)]
pub struct OutlineRow {
    pub depth: usize,
    pub kind: String,
    pub text: String,
}

impl View for OutlineRow {
    type V = (usize, Seq<char>, Seq<char>);

    open spec fn view(&self) -> (usize, Seq<char>, Seq<char>) {
        (self.depth, self.kind@, self.text@)
    }
}

/// The depth of a child, held at the largest `usize`.
pub open spec fn deeper(d: usize) -> usize {
    if d < usize::MAX {
        (d + 1) as usize
    } else {
        d
    }
}

/// The rows of a node and every node below it, in pre-order.
pub open spec fn outline(n: SyntaxNode, depth: usize) -> Seq<(usize, Seq<char>, Seq<char>)>
    decreases n,
{
    proof {
        assert(decreases_to!(n => n.children));
    }
    seq![(depth, n.kind@, n.text@)] + outline_all(n.children@, deeper(depth))
}

pub open spec fn outline_all(s: Seq<SyntaxNode>, depth: usize) -> Seq<(usize, Seq<char>, Seq<char>)>
    decreases s,
{
    if s.len() == 0 {
        Seq::empty()
    } else {
        outline_all(s.subrange(0, s.len() - 1), depth) + outline(s[s.len() - 1], depth)
    }
}

pub open spec fn rows_view(r: Seq<OutlineRow>) -> Seq<(usize, Seq<char>, Seq<char>)> {
    r.map_values(|x: OutlineRow| x@)
}

/// Lists the nodes of a tree with their depth, for a debug dump.
pub struct PrettyPrinter {
    src: String,
}

impl PrettyPrinter {
    pub fn new(src: &str) -> (r: PrettyPrinter)
        ensures
            r.source() == src@,
    {
        PrettyPrinter { src: String::from_str(src) }
    }

    pub closed spec fn source(&self) -> Seq<char> {
        self.src@
    }

    /// Every node of the tree in pre-order, the root at depth 0.
    pub fn print_module(&self, root: &SyntaxNode) -> (r: Vec<OutlineRow>)
        ensures
            rows_view(r@) == outline(*root, 0),
    {
        let mut out: Vec<OutlineRow> = Vec::new();
        assert(rows_view(out@) =~= Seq::empty());
        Self::print_visit(root, 0, &mut out);
        assert(rows_view(out@) =~= outline(*root, 0));
        out
    }

    /// Append the rows of a node and every node below it.
    pub fn print_visit(n: &SyntaxNode, depth: usize, out: &mut Vec<OutlineRow>)
        ensures
            rows_view(final(out)@) == rows_view(old(out)@) + outline(*n, depth),
        decreases n,
    {
        let ghost before = rows_view(out@);
        out.push(OutlineRow { depth, kind: n.kind.clone(), text: n.text.clone() });
        let next = if depth < usize::MAX {
            depth + 1
        } else {
            depth
        };
        let ghost first = rows_view(out@);
        assert(first =~= before + seq![(depth, n.kind@, n.text@)]);
        let ghost cs = n.children@;
        assert(cs.take(0) =~= Seq::<SyntaxNode>::empty());
        assert(first + outline_all(cs.take(0), next) =~= first);
        let mut i: usize = 0;
        while i < n.children.len()
            invariant
                cs == n.children@,
                next == deeper(depth),
                0 <= i <= cs.len(),
                rows_view(out@) == first + outline_all(cs.take(i as int), next),
            decreases n.children.len() - i,
        {
            proof {
                assert(cs.take(i + 1).subrange(0, i as int) =~= cs.take(i as int));
                assert(decreases_to!(n.children => n.children[i as int]));
            }
            Self::print_visit(&n.children[i], next, out);
            proof {
                assert(rows_view(out@) =~= first + outline_all(cs.take(i + 1), next));
            }
            i = i + 1;
        }
        assert(cs.take(cs.len() as int) =~= cs);
        assert(rows_view(out@) =~= before + outline(*n, depth));
    }
}

} // verus!
