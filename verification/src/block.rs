//! Blocks: a start line, an indented or inlined body, and an end line.

use vstd::prelude::*;

use crate::append_line;
use crate::indent_unit;
use crate::inline_block;
use crate::inline_intrinsic_block;
use crate::render_block;
use crate::render_items;
use crate::Code;
use crate::Concat;
use crate::Format;
use crate::InlineMode;

verus! {

/// A block of code with a starting line, an ending line, and an indented body.
#[derive(Debug, PartialEq)]
pub struct Block {
    /// Whether the start line should be glued to the end of the previous line
    /// (for example, `else {`).
    pub connect: bool,
    /// The start of the block (for example, `if (x) {`).
    pub start: String,
    /// The end of the block (for example, `}`).
    pub end: String,
    /// The body of the block, indented unless the block is inlined.
    pub concat_body: Concat,
    /// When to render the whole block as a single line.
    pub inline_mode: InlineMode,
}

impl Block {
    /// A block with an empty body.
    pub fn empty(start: &str, end: &str) -> (b: Block)
        ensures
            b.connect == false,
            b.start@ == start@,
            b.end@ == end@,
            b.concat_body.body@ == Seq::<Code>::empty(),
            b.inline_mode == InlineMode::Intrinsic,
    {
        Block {
            connect: false,
            start: start.to_owned(),
            end: end.to_owned(),
            concat_body: Concat::empty(),
            inline_mode: InlineMode::Intrinsic,
        }
    }

    /// A block with the given start line, body, and end line.
    pub fn new(start: &str, body: Vec<Code>, end: &str) -> (b: Block)
        ensures
            b.connect == false,
            b.start@ == start@,
            b.end@ == end@,
            b.concat_body.body == body,
            b.inline_mode == InlineMode::Intrinsic,
    {
        Block {
            connect: false,
            start: start.to_owned(),
            end: end.to_owned(),
            concat_body: Concat::new(body),
            inline_mode: InlineMode::Intrinsic,
        }
    }

    /// Marks the block as starting on the same line the previous fragment
    /// ended on.
    pub fn connected(self) -> (b: Block)
        ensures
            b == (Block { connect: true, ..self }),
    {
        Block { connect: true, ..self }
    }

    /// Sets whether to render the block as one line: the caller passes the
    /// already-decided condition.
    pub fn inline_when(self, condition: bool) -> (b: Block)
        ensures
            b == (Block {
                inline_mode: if condition {
                    InlineMode::Always
                } else {
                    InlineMode::Never
                },
                ..self
            }),
    {
        if condition {
            Block { inline_mode: InlineMode::Always, ..self }
        } else {
            Block { inline_mode: InlineMode::Never, ..self }
        }
    }

    /// Sets the block to always render as one line.
    pub fn inlined(self) -> (b: Block)
        ensures
            b == (Block { inline_mode: InlineMode::Always, ..self }),
    {
        Block { inline_mode: InlineMode::Always, ..self }
    }

    /// The body of the block.
    pub fn body(&self) -> (r: &Vec<Code>)
        ensures
            r == &self.concat_body.body,
    {
        &self.concat_body.body
    }

    /// Whether this block renders as a single line.
    pub fn should_inline(&self) -> (r: bool)
        ensures
            r == inline_block(*self),
        decreases *self, 3int,
    {
        match self.inline_mode {
            InlineMode::Intrinsic => self.should_inline_intrinsic(),
            InlineMode::Always => true,
            InlineMode::Never => false,
        }
    }

    /// The intrinsic inline rule: the body is one child that itself inlines.
    pub fn should_inline_intrinsic(&self) -> (r: bool)
        ensures
            r == inline_intrinsic_block(*self),
        decreases *self, 2int,
    {
        self.concat_body.body.len() == 1 && self.concat_body.body[0].should_inline()
    }
}

impl crate::FormatCode for Block {
    /// The line model of a block.
    open spec fn rendered(
        &self,
        fmt: Format,
        out: Seq<Seq<char>>,
        connect: bool,
        indent: Seq<char>,
    ) -> Seq<Seq<char>> {
        render_block(*self, fmt, out, connect, indent)
    }

    /// The line-count bound of a block: its body's bound, plus the start and
    /// end lines.
    open spec fn size_bound(&self) -> int {
        crate::hint_items(self.concat_body.body@, 0) + 2
    }

    fn format_into_vec_with(&self, format: &Format, out: &mut Vec<String>, connect: bool, indent: &str) {
        render_block_into(self, format, out, connect, indent)
    }

    fn size_hint(&self) -> (n: usize) {
        proof {
            crate::lemma_hint_items_nonneg(self.concat_body.body@, 0);
        }
        let n = crate::saturating_add(crate::hint_items_exec(&self.concat_body.body), 2);
        proof {
            assert(crate::FormatCode::size_bound(self) == crate::hint_items(
                self.concat_body.body@,
                0,
            ) + 2);
        }
        n
    }
}

/// Builds the indentation string one level deeper than `indent`.
fn deepen_indent(fmt: &Format, indent: &str) -> (r: String)
    ensures
        r@ == indent_unit(*fmt) + indent@,
{
    let mut deeper = String::new();
    if fmt.indent < 0 {
        proof {
            reveal_strlit("\t");
            assert("\t"@ =~= seq!['\t']);
        }
        deeper.append("\t");
    } else {
        let k = fmt.indent as usize;
        let mut j: usize = 0;
        proof {
            reveal_strlit(" ");
            assert(" "@ =~= seq![' ']);
        }
        while j < k
            invariant
                j <= k,
                " "@ == seq![' '],
                deeper@ == Seq::new(j as nat, |i: int| ' '),
            decreases k - j,
        {
            deeper.append(" ");
            proof {
                assert(deeper@ =~= Seq::new((j + 1) as nat, |i: int| ' '));
            }
            j = j + 1;
        }
        proof {
            assert(deeper@ =~= indent_unit(*fmt));
        }
    }
    deeper.append(indent);
    deeper
}

/// Renders the block: its start line (glued on when the block or the caller
/// asks to connect), its body, and its end line.
pub(crate) fn render_block_into(
    b: &Block,
    fmt: &Format,
    out: &mut Vec<String>,
    connect: bool,
    indent: &str,
)
    ensures
        final(out).deep_view() == render_block(*b, *fmt, old(out).deep_view(), connect, indent@),
    decreases *b, 3int, 0int,
{
    let conn = b.connect || connect;
    append_line(out, b.start.as_str(), conn, indent);
    let ghost started = out.deep_view();
    let inlined = b.should_inline();
    let n = b.concat_body.body.len();
    if inlined {
        let mut i: usize = 0;
        while i < n
            invariant
                i <= n,
                n == b.concat_body.body@.len(),
                render_items(b.concat_body.body@, i as int, *fmt, out.deep_view(), true, true, indent@)
                    == render_items(b.concat_body.body@, 0, *fmt, started, true, true, indent@),
            decreases n - i,
        {
            crate::render_code_into(&b.concat_body.body[i], fmt, out, true, indent);
            i = i + 1;
        }
    } else {
        let deeper = deepen_indent(fmt, indent);
        let mut i: usize = 0;
        while i < n
            invariant
                i <= n,
                n == b.concat_body.body@.len(),
                deeper@ == indent_unit(*fmt) + indent@,
                render_items(
                    b.concat_body.body@,
                    i as int,
                    *fmt,
                    out.deep_view(),
                    false,
                    false,
                    deeper@,
                ) == render_items(b.concat_body.body@, 0, *fmt, started, false, false, deeper@),
            decreases n - i,
        {
            crate::render_code_into(&b.concat_body.body[i], fmt, out, false, deeper.as_str());
            i = i + 1;
        }
    }
    append_line(out, b.end.as_str(), inlined, indent);
}

} // verus!
