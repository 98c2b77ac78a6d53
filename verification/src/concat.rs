//! Concatenation of code fragments.

use vstd::prelude::*;

use crate::render_items;
use crate::Code;
use crate::Format;

verus! {

/// A concatenation of code fragments, rendered back to back with no
/// separator and no indentation change of its own.
#[derive(Debug, PartialEq)]
pub struct Concat {
    /// The fragments, in order.
    pub body: Vec<Code>,
}

impl Concat {
    /// A concatenation with no fragments.
    pub fn empty() -> (c: Concat)
        ensures
            c.body@ == Seq::<Code>::empty(),
    {
        Concat { body: Vec::new() }
    }

    /// A concatenation of the given fragments.
    pub fn new(body: Vec<Code>) -> (c: Concat)
        ensures
            c == (Concat { body }),
    {
        Concat { body }
    }

    /// Whether the concatenation has no fragments at all.
    pub fn is_empty(&self) -> (r: bool)
        ensures
            r == (self.body@.len() == 0),
    {
        self.body.len() == 0
    }
}

impl crate::FormatCode for Concat {
    /// The line model of a concatenation: the fragments one after the other,
    /// only the first inheriting the external `connect` flag.
    open spec fn rendered(
        &self,
        fmt: Format,
        out: Seq<Seq<char>>,
        connect: bool,
        indent: Seq<char>,
    ) -> Seq<Seq<char>> {
        render_items(self.body@, 0, fmt, out, connect, false, indent)
    }

    /// The line-count bound of a concatenation: the sum over its fragments.
    open spec fn size_bound(&self) -> int {
        crate::hint_items(self.body@, 0)
    }

    fn format_into_vec_with(&self, format: &Format, out: &mut Vec<String>, connect: bool, indent: &str) {
        render_concat_into(self, format, out, connect, indent)
    }

    fn size_hint(&self) -> (n: usize) {
        let n = crate::hint_items_exec(&self.body);
        proof {
            assert(crate::FormatCode::size_bound(self) == crate::hint_items(self.body@, 0));
        }
        n
    }
}

/// Renders the fragments back to back: only the first inherits the externally
/// imposed `connect` flag.
pub(crate) fn render_concat_into(
    cc: &Concat,
    fmt: &Format,
    out: &mut Vec<String>,
    connect: bool,
    indent: &str,
)
    ensures
        final(out).deep_view() == render_items(
            cc.body@,
            0,
            *fmt,
            old(out).deep_view(),
            connect,
            false,
            indent@,
        ),
    decreases *cc, 1int, 0int,
{
    let ghost pre = old(out).deep_view();
    let n = cc.body.len();
    let mut i: usize = 0;
    while i < n
        invariant
            i <= n,
            n == cc.body@.len(),
            render_items(
                cc.body@,
                i as int,
                *fmt,
                out.deep_view(),
                if i == 0 {
                    connect
                } else {
                    false
                },
                false,
                indent@,
            ) == render_items(cc.body@, 0, *fmt, pre, connect, false, indent@),
        decreases n - i,
    {
        let conn = if i == 0 {
            connect
        } else {
            false
        };
        crate::render_code_into(&cc.body[i], fmt, out, conn, indent);
        i = i + 1;
    }
}

} // verus!
