//! The graph rendering of a plan: a dot digraph with one node per step and
//! one edge per flow.

use crate::solution::{Process, Solution, Source, Throughput};
use crate::text::format_belts;
use vstd::prelude::*;

verus! {

/// Numbers the intermediate nodes so repeated items stay distinct.
pub struct Counter {
    mid_count: u64,
}

impl Counter {
    /// How many intermediate node names were handed out.
    pub closed spec fn spec_count(&self) -> u64 {
        self.mid_count
    }

    /// A counter that has handed out nothing.
    pub fn new() -> (r: Counter)
        ensures
            r.spec_count() == 0,
    {
        Counter { mid_count: 0 }
    }

    /// The next free node number; saturates rather than repeating early.
    pub fn next_mid(&mut self) -> (r: u64)
        ensures
            r == old(self).spec_count(),
            final(self).spec_count() == crate::num::sat64(old(self).spec_count() + 1),
    {
        let v = self.mid_count;
        self.mid_count = crate::num::sat_add(self.mid_count, 1);
        v
    }
}

/// A name with every hyphen replaced by an underscore, safe for dot.
pub open spec fn spec_escape(s: Seq<char>) -> Seq<char> {
    s.map_values(
        |c: char|
            if c == '-' {
                '_'
            } else {
                c
            },
    )
}

/// Replaces hyphens with underscores so the name can be a dot identifier.
pub fn name_escape(name: &str) -> (r: String)
    ensures
        r@ == spec_escape(name@),
{
    let n = name.unicode_len();
    let mut out = String::new();
    proof {
        reveal_strlit("-");
        reveal_strlit("_");
        assert(out@ =~= spec_escape(name@).subrange(0, 0));
    }
    let mut i: usize = 0;
    while i < n
        invariant
            i <= n,
            n == name@.len(),
            out@ == spec_escape(name@).subrange(0, i as int),
        decreases n - i,
    {
        let c = name.get_char(i);
        if c == '-' {
            out.append("_");
        } else {
            let piece = name.substring_char(i, i + 1);
            out.append(piece);
        }
        proof {
            reveal_strlit("_");
            reveal_strlit("-");
            assert(out@ =~= spec_escape(name@).subrange(0, i + 1 as int)) by {
                assert(spec_escape(name@)[i as int] == if name@[i as int] == '-' {
                    '_'
                } else {
                    name@[i as int]
                });
                assert("_"@ =~= seq!['_']);
                assert(name@.subrange(i as int, i + 1 as int) =~= seq![name@[i as int]]);
                assert(spec_escape(name@).subrange(0, i + 1 as int) =~= spec_escape(
                    name@,
                ).subrange(0, i as int).push(spec_escape(name@)[i as int]));
            }
        }
        i = i + 1;
    }
    proof {
        assert(spec_escape(name@).subrange(0, n as int) =~= spec_escape(name@));
    }
    out
}

/// Renders a plan as a dot digraph.
pub struct GraphFormatter {
    counter: Counter,
}

impl GraphFormatter {
    /// A fresh graph formatter.
    pub fn new() -> (r: GraphFormatter) {
        GraphFormatter { counter: Counter::new() }
    }

    /// The whole plan as a digraph, or nothing: a graph cannot show missing
    /// items, and needs at least one tree to anchor its ranks.
    pub fn format(&mut self, solution: &Solution) -> (r: Option<String>)
        ensures
            r is Some <==> (solution.missings@.len() == 0 && solution.trees@.len() > 0),
    {
        if solution.missings.len() > 0 {
            return None;
        }
        if solution.trees.len() == 0 {
            return None;
        }
        proof {
            reveal_strlit("digraph solution {\n");
            reveal_strlit("  graph [\n    rankdir = RL,\n    layout = dot\n  ];\n\n");
            reveal_strlit("  node [\n  ];\n\n  edge [\n  ];\n\n");
            reveal_strlit("\n");
            reveal_strlit("    {rank = max; proc_");
            reveal_strlit(";}\n");
            reveal_strlit("}\n");
        }
        let mut out = String::new();
        out.append("digraph solution {\n");
        out.append("  graph [\n    rankdir = RL,\n    layout = dot\n  ];\n\n");
        out.append("  node [\n  ];\n\n  edge [\n  ];\n\n");
        let sources = self.format_sources(&solution.sources);
        out.append(sources.as_str());
        out.append("\n");
        let n = solution.trees.len();
        let mut i: usize = 0;
        while i < n
            invariant
                i <= n,
                n == solution.trees@.len(),
            decreases n - i,
        {
            out.append("\n");
            let tree = self.format_proc_tree(&solution.trees[i]);
            out.append(tree.as_str());
            i = i + 1;
        }
        out.append("    {rank = max; proc_");
        let root = name_escape(solution.trees[0].process.throughput.name());
        out.append(root.as_str());
        out.append(";}\n");
        out.append("}\n");
        Some(out)
    }

    /// One tree: a box for its root item and edges for its flows.
    fn format_proc_tree(&mut self, tree: &crate::solution::ProcessingTree) -> (r: String) {
        proof {
            reveal_strlit("    proc_");
            reveal_strlit(" [label=\"");
            reveal_strlit("\", shape=box];\n");
        }
        let process = &tree.process;
        let mut out = String::new();
        out.append("    proc_");
        let ne = name_escape(process.throughput.name());
        out.append(ne.as_str());
        out.append(" [label=\"");
        out.append(process.throughput.name());
        out.append("\", shape=box];\n");
        let node = process.throughput.name().to_owned();
        let n = process.sources.len();
        let mut i: usize = 0;
        while i < n
            invariant
                i <= n,
                n == process.sources@.len(),
            decreases n - i,
        {
            let edge = self.format_source(&process.sources[i], node.as_str());
            out.append(edge.as_str());
            i = i + 1;
        }
        out
    }

    /// One intermediate step: a numbered box and edges for its flows.
    fn format_proc(&mut self, process: &Process) -> (r: (String, String))
        decreases *process, 1int,
    {
        proof {
            reveal_strlit("_");
            reveal_strlit("    proc_");
            reveal_strlit(" [label=\"");
            reveal_strlit("\", shape=box];\n");
        }
        let mut node = process.throughput.name().to_owned();
        node.append("_");
        let mid = self.counter.next_mid();
        let midstr = crate::dec::u64_to_string(mid);
        node.append(midstr.as_str());
        let mut out = String::new();
        out.append("    proc_");
        let ne = name_escape(node.as_str());
        out.append(ne.as_str());
        out.append(" [label=\"");
        out.append(process.throughput.name());
        out.append("\", shape=box];\n");
        let n = process.sources.len();
        let mut i: usize = 0;
        while i < n
            invariant
                i <= n,
                n == process.sources@.len(),
            decreases n - i,
        {
            let edge = self.format_source(&process.sources[i], node.as_str());
            out.append(edge.as_str());
            i = i + 1;
        }
        (out, node)
    }

    /// One edge into the consuming node, from a nested step, a merged
    /// demand or a raw source.
    fn format_source(&mut self, source: &Source, to_name: &str) -> (r: String)
        decreases *source, 2int,
    {
        proof {
            reveal_strlit("    proc_");
            reveal_strlit("    source_");
            reveal_strlit(" -> proc_");
            reveal_strlit(" [label=");
            reveal_strlit("];\n");
        }
        match source {
            Source::Process(process) => {
                let (body, ch_name) = self.format_proc(process);
                let mut out = body;
                out.append("    proc_");
                let m = name_escape(ch_name.as_str());
                out.append(m.as_str());
                out.append(" -> proc_");
                let to = name_escape(to_name);
                out.append(to.as_str());
                out.append(" [label=");
                let f = format_belts(process.throughput.throughput());
                out.append(f.as_str());
                out.append("];\n");
                out
            },
            Source::Merged(th) => {
                let mut out = String::new();
                out.append("    proc_");
                let m = name_escape(th.name());
                out.append(m.as_str());
                out.append(" -> proc_");
                let to = name_escape(to_name);
                out.append(to.as_str());
                out.append(" [label=");
                let f = format_belts(th.throughput());
                out.append(f.as_str());
                out.append("];\n");
                out
            },
            Source::Source(th) => {
                let mut out = String::new();
                out.append("    source_");
                let m = name_escape(th.name());
                out.append(m.as_str());
                out.append(" -> proc_");
                let to = name_escape(to_name);
                out.append(to.as_str());
                out.append(" [label=");
                let f = format_belts(th.throughput());
                out.append(f.as_str());
                out.append("];\n");
                out
            },
        }
    }

    /// The raw-source nodes, all on the lowest rank.
    fn format_sources(&mut self, sources: &Vec<Throughput>) -> (r: String) {
        proof {
            reveal_strlit("    // source nodes\n");
            reveal_strlit("    source_");
            reveal_strlit(" [label=\"");
            reveal_strlit("\", shape=doublecircle];\n");
            reveal_strlit("    {rank = min;");
            reveal_strlit(" source_");
            reveal_strlit(";");
            reveal_strlit("}\n");
        }
        let mut out = String::new();
        out.append("    // source nodes\n");
        let n = sources.len();
        let mut i: usize = 0;
        while i < n
            invariant
                i <= n,
                n == sources@.len(),
            decreases n - i,
        {
            out.append("    source_");
            let ne = name_escape(sources[i].name());
            out.append(ne.as_str());
            out.append(" [label=\"");
            out.append(sources[i].name());
            out.append("\", shape=doublecircle];\n");
            i = i + 1;
        }
        out.append("    {rank = min;");
        let mut i: usize = 0;
        while i < n
            invariant
                i <= n,
                n == sources@.len(),
            decreases n - i,
        {
            out.append(" source_");
            let ne = name_escape(sources[i].name());
            out.append(ne.as_str());
            out.append(";");
            i = i + 1;
        }
        out.append("}\n");
        out
    }
}

} // verus!
