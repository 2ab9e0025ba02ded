//! Formatting options.
use vstd::prelude::*;

verus! {

/// Configuration of the formatter.
#[derive(Debug, Clone)]
pub struct Config {
    /// Number of spaces per indentation level (default: 4)
    pub indent_size: usize,
    /// Use one tab per indentation level instead of spaces
    pub use_tabs: bool,
}

/// The text emitted for `depth` levels of indentation.
pub open spec fn indent_text(use_tabs: bool, indent_size: nat, depth: nat) -> Seq<char> {
    if use_tabs {
        Seq::new(depth, |i: int| '\t')
    } else {
        Seq::new(depth * indent_size, |i: int| ' ')
    }
}

impl Default for Config {
    fn default() -> (r: Self)
        ensures
            r.indent_size == 4,
            !r.use_tabs,
    {
        Config { indent_size: 4, use_tabs: false }
    }
}

impl Config {
    /// The default configuration: four spaces per level.
    pub fn new() -> (r: Self)
        ensures
            r.indent_size == 4,
            !r.use_tabs,
    {
        Config { indent_size: 4, use_tabs: false }
    }

    pub fn with_indent_size(self, size: usize) -> (r: Self)
        ensures
            r.indent_size == size,
            r.use_tabs == self.use_tabs,
    {
        let mut c = self;
        c.indent_size = size;
        c
    }

    pub fn with_tabs(self) -> (r: Self)
        ensures
            r.indent_size == self.indent_size,
            r.use_tabs,
    {
        let mut c = self;
        c.use_tabs = true;
        c
    }

    pub open spec fn spec_indent(&self, depth: nat) -> Seq<char> {
        indent_text(self.use_tabs, self.indent_size as nat, depth)
    }

    /// The indentation for a given depth: one tab per level in tab mode,
    /// else `indent_size` spaces per level.
    pub fn indent(&self, depth: usize) -> (r: String)
        ensures
            r@ == self.spec_indent(depth as nat),
    {
        let mut r = String::new();
        let mut level: usize = 0;
        while level < depth
            invariant
                level <= depth,
                r@ == self.spec_indent(level as nat),
            decreases depth - level,
        {
            if self.use_tabs {
                r.push('\t');
                assert(r@ =~= self.spec_indent((level + 1) as nat));
            } else {
                let mut k: usize = 0;
                while k < self.indent_size
                    invariant
                        level < depth,
                        k <= self.indent_size,
                        !self.use_tabs,
                        r@ =~= Seq::new((level * self.indent_size + k) as nat, |i: int| ' '),
                    decreases self.indent_size - k,
                {
                    r.push(' ');
                    k = k + 1;
                }
                assert((level + 1) * self.indent_size == level * self.indent_size
                    + self.indent_size) by (nonlinear_arith);
                assert(r@ =~= self.spec_indent((level + 1) as nat));
            }
            level = level + 1;
        }
        r
    }
}

} // verus!
