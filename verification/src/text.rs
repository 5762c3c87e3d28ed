//! The plain-text rendering of a plan: one indented line per crafting step,
//! then the raw-source totals, then the missing items.

use crate::dec::u64_to_string;
use crate::num::{div_ceil_u64, SCALE};
use crate::solution::{Missing, Process, Solution, Source, Throughput};
use vstd::prelude::*;

verus! {

/// One belt's capacity, in scaled items per second.
pub const BELT_THROUGHPUT: u64 = 40 * SCALE;

/// A scaled rate as a decimal with two places, rounded up.
pub fn format_rate2(r: u64) -> (s: String)
    ensures
        s@.len() > 0,
{
    let v = div_ceil_u64(r, 10_000);
    let mut out = u64_to_string(v / 100);
    proof {
        reveal_strlit(".");
    }
    out.append(".");
    let frac = u64_to_string(v % 100 / 10);
    out.append(frac.as_str());
    let frac2 = u64_to_string(v % 100 % 10);
    out.append(frac2.as_str());
    out
}

/// A scaled rate as a decimal with one place, rounded up.
pub fn format_rate1(r: u64) -> (s: String)
    ensures
        s@.len() > 0,
{
    let v = div_ceil_u64(r, 100_000);
    let mut out = u64_to_string(v / 10);
    proof {
        reveal_strlit(".");
    }
    out.append(".");
    let frac = u64_to_string(v % 10);
    out.append(frac.as_str());
    out
}

/// How many belts a rate fills, with one decimal place.
pub fn format_belts(r: u64) -> (s: String)
    ensures
        s@.len() > 0,
{
    let tenths = crate::num::mul_div_ceil(r, 10, BELT_THROUGHPUT);
    let mut out = u64_to_string(tenths / 10);
    proof {
        reveal_strlit(".");
    }
    out.append(".");
    let frac = u64_to_string(tenths % 10);
    out.append(frac.as_str());
    out
}

/// Renders a plan as indented text.
pub struct TextFormatter {}

impl TextFormatter {
    /// A fresh text formatter.
    pub fn new() -> (r: TextFormatter) {
        TextFormatter {  }
    }

    /// The whole plan: every tree, the source totals, the missing items.
    pub fn format(&self, solution: &Solution) -> (r: String)
        ensures
            r@.len() > 0,
    {
        let mut out = String::new();
        proof {
            reveal_strlit("\n");
        }
        let n = solution.trees.len();
        let mut i: usize = 0;
        while i < n
            invariant
                i <= n,
                n == solution.trees@.len(),
            decreases n - i,
        {
            out.append("\n");
            let tree = self.format_proc_tree(&solution.trees[i]);
            out.append(tree.as_str());
            i = i + 1;
        }
        out.append("\n");
        let sources = self.format_sources(&solution.sources);
        out.append(sources.as_str());
        out.append("\n");
        let missings = self.format_missings(&solution.missings);
        out.append(missings.as_str());
        out
    }

    /// One tree: a header line, then its root step.
    fn format_proc_tree(&self, tree: &crate::solution::ProcessingTree) -> (r: String) {
        proof {
            reveal_strlit("[ ] Processing tree [");
            reveal_strlit("]:\n");
        }
        let mut out = String::new();
        out.append("[ ] Processing tree [");
        out.append(tree.process.throughput.name());
        out.append("]:\n");
        let body = self.format_proc(&tree.process, 1);
        out.append(body.as_str());
        out
    }

    /// One step: its demand, machine, machine count and craft rate, then
    /// every ingredient source one level deeper.
    fn format_proc(&self, process: &Process, depth: usize) -> (r: String)
        decreases *process, 1int,
    {
        proof {
            reveal_strlit(": ");
            reveal_strlit(" ");
            reveal_strlit(" units, ");
            reveal_strlit(" craft/s\n");
        }
        let mut out = indent(depth);
        let th = self.format_throughput(&process.throughput);
        out.append(th.as_str());
        out.append(": ");
        out.append(process.processer.name());
        out.append(" ");
        let num = u64_to_string(process.processer_num);
        out.append(num.as_str());
        out.append(" units, ");
        let craft = format_rate2(process.craft_per_sec);
        out.append(craft.as_str());
        out.append(" craft/s\n");
        let next_depth: usize = if depth < 64 {
            depth + 1
        } else {
            depth
        };
        let n = process.sources.len();
        let mut i: usize = 0;
        while i < n
            invariant
                i <= n,
                n == process.sources@.len(),
            decreases n - i,
        {
            let line = self.format_source(&process.sources[i], next_depth);
            out.append(line.as_str());
            i = i + 1;
        }
        out
    }

    /// One ingredient source: a nested step, a merged demand or a raw draw.
    fn format_source(&self, source: &Source, depth: usize) -> (r: String)
        decreases *source, 0int,
    {
        proof {
            reveal_strlit("merged ");
            reveal_strlit("source of ");
            reveal_strlit("\n");
        }
        match source {
            Source::Process(process) => self.format_proc(process, depth),
            Source::Merged(th) => {
                let mut out = indent(depth);
                out.append("merged ");
                let t = self.format_throughput(th);
                out.append(t.as_str());
                out.append("\n");
                out
            },
            Source::Source(th) => {
                let mut out = indent(depth);
                out.append("source of ");
                let t = self.format_throughput(th);
                out.append(t.as_str());
                out.append("\n");
                out
            },
        }
    }

    /// The raw-source totals, one line per item.
    fn format_sources(&self, sources: &Vec<Throughput>) -> (r: String) {
        proof {
            reveal_strlit("Source throughputs:\n");
            reveal_strlit("    ");
            reveal_strlit("\n");
        }
        let mut out = String::new();
        out.append("Source throughputs:\n");
        let n = sources.len();
        let mut i: usize = 0;
        while i < n
            invariant
                i <= n,
                n == sources@.len(),
            decreases n - i,
        {
            out.append("    ");
            let t = self.format_throughput(&sources[i]);
            out.append(t.as_str());
            out.append("\n");
            i = i + 1;
        }
        out
    }

    /// A named rate: items also show how many belts they fill.
    fn format_throughput(&self, th: &Throughput) -> (r: String) {
        proof {
            reveal_strlit(": ");
            reveal_strlit(" item/s (");
            reveal_strlit(" B)");
            reveal_strlit(" unit/s");
        }
        match th {
            Throughput::Item(n, t) => {
                let mut out = n.clone();
                out.append(": ");
                let rate = format_rate2(*t);
                out.append(rate.as_str());
                out.append(" item/s (");
                let belts = format_belts(*t);
                out.append(belts.as_str());
                out.append(" B)");
                out
            },
            Throughput::Liquid(n, t) => {
                let mut out = n.clone();
                out.append(": ");
                let rate = format_rate2(*t);
                out.append(rate.as_str());
                out.append(" unit/s");
                out
            },
        }
    }

    /// The missing items, each with its suggestions.
    fn format_missings(&self, missings: &Vec<Missing>) -> (r: String) {
        proof {
            reveal_strlit("WARNING: ");
            reveal_strlit(" is missing.");
            reveal_strlit(" Did you mean ");
            reveal_strlit(", ");
            reveal_strlit("?");
            reveal_strlit("\n");
        }
        let mut out = String::new();
        let n = missings.len();
        let mut i: usize = 0;
        while i < n
            invariant
                i <= n,
                n == missings@.len(),
            decreases n - i,
        {
            out.append("WARNING: ");
            out.append(missings[i].name.as_str());
            out.append(" is missing.");
            let cands = &missings[i].candidates;
            let m = cands.len();
            if m > 0 {
                out.append(" Did you mean ");
                let mut j: usize = 0;
                while j < m
                    invariant
                        j <= m,
                        m == cands@.len(),
                    decreases m - j,
                {
                    if j > 0 {
                        out.append(", ");
                    }
                    out.append(cands[j].as_str());
                    j = j + 1;
                }
                out.append("?");
            }
            out.append("\n");
            i = i + 1;
        }
        out
    }
}

/// Four spaces per nesting level; very deep trees stop indenting further.
fn indent(depth: usize) -> (r: String) {
    proof {
        reveal_strlit("    ");
    }
    let mut out = String::new();
    let levels: usize = if depth > 64 {
        64
    } else {
        depth
    };
    let mut i: usize = 0;
    while i < levels
        invariant
            i <= levels,
        decreases levels - i,
    {
        out.append("    ");
        i = i + 1;
    }
    out
}

} // verus!
