//! A small engine that renders a tree of code fragments (lines, indented
//! blocks, separated lists, and concatenations) into an ordered sequence of
//! text lines, applying indentation, optional single-line inlining,
//! continuation joins (such as `} else {`), and separator rules.
//!
//! The heart of the crate is the line model: a family of specification
//! functions over `Seq<Seq<char>>` that state exactly which lines a fragment
//! tree produces. Every executable renderer is proved to agree with it.

use vstd::prelude::*;

mod block;
pub use block::Block;
mod concat;
pub use concat::Concat;
mod list;
pub use list::List;
pub use list::Trailing;
mod laws;

verus! {

/// A code fragment.
#[derive(Debug, PartialEq)]
pub enum Code {
    /// A single line of output text.
    Line(String),
    /// A block with a start line, an indented body, and an end line.
    Block(Box<Block>),
    /// A concatenation of fragments, rendered back to back.
    Concat(Concat),
    /// A list of fragments joined by a separator.
    List(List),
}

/// When a block or list renders as a single line.
#[derive(Debug, PartialEq, Eq, Structural, Clone, Copy)]
pub enum InlineMode {
    /// Inline exactly when the body is a single child that itself inlines.
    Intrinsic,
    /// Always inline.
    Always,
    /// Never inline.
    Never,
}

/// Formatting options.
#[derive(Debug, PartialEq, Eq, Structural, Clone, Copy)]
pub struct Format {
    /// The number of spaces to indent per level; any negative value means one
    /// tab character per level.
    pub indent: i32,
}

impl Default for Format {
    /// The default format: four spaces per indentation level.
    fn default() -> (f: Format)
        ensures
            f == (Format { indent: 4 }),
    {
        Format { indent: 4 }
    }
}

impl Format {
    /// A format with the given indent.
    pub fn indent(indent: i32) -> (f: Format)
        ensures
            f == (Format { indent }),
    {
        Format { indent }
    }

    /// Sets the indent.
    pub fn set_indent(self, indent: i32) -> (f: Format)
        ensures
            f == (Format { indent }),
    {
        Format { indent }
    }

    /// A format that indents with tabs.
    pub fn indent_tab() -> (f: Format)
        ensures
            f == (Format { indent: -1i32 }),
    {
        Format { indent: -1 }
    }

    /// Sets the indent to tabs.
    pub fn set_indent_tab(self) -> (f: Format)
        ensures
            f == (Format { indent: -1i32 }),
    {
        Format { indent: -1 }
    }
}

/// One indentation step of the format: `indent` spaces, or one tab when the
/// format asks for tabs.
pub open spec fn indent_unit(fmt: Format) -> Seq<char> {
    if fmt.indent < 0 {
        seq!['\t']
    } else {
        Seq::new(fmt.indent as nat, |i: int| ' ')
    }
}

/// Whether the fragment renders as a single line.
pub open spec fn inline_code(c: Code) -> bool
    decreases c, 2int,
{
    match c {
        Code::Block(b) => inline_block(*b),
        Code::List(l) => inline_list(l),
        _ => false,
    }
}

/// Whether the block renders as a single line.
pub open spec fn inline_block(b: Block) -> bool
    decreases b, 1int,
{
    match b.inline_mode {
        InlineMode::Intrinsic => inline_intrinsic_block(b),
        InlineMode::Always => true,
        InlineMode::Never => false,
    }
}

/// The intrinsic inline rule for blocks: a single child that itself inlines.
pub open spec fn inline_intrinsic_block(b: Block) -> bool
    decreases b, 0int,
{
    b.concat_body.body@.len() == 1 && inline_code(b.concat_body.body@[0])
}

/// Whether the list renders as a single line.
pub open spec fn inline_list(l: List) -> bool
    decreases l, 1int,
{
    match l.inline_mode {
        InlineMode::Intrinsic => inline_intrinsic_list(l),
        InlineMode::Always => true,
        InlineMode::Never => false,
    }
}

/// The intrinsic inline rule for lists: a single item that itself inlines.
pub open spec fn inline_intrinsic_list(l: List) -> bool
    decreases l, 0int,
{
    l.concat_body.body@.len() == 1 && inline_code(l.concat_body.body@[0])
}

/// Whether the fragment renders to no lines at all: a concatenation or a list
/// with no items. Lines and blocks always produce output.
pub open spec fn empty_code(c: Code) -> bool {
    match c {
        Code::Concat(cc) => cc.body@.len() == 0,
        Code::List(l) => l.concat_body.body@.len() == 0,
        _ => false,
    }
}

/// Whether the character is whitespace, in the sense used when deciding that
/// an output line holds no visible text.
pub open spec fn is_space(c: char) -> bool {
    ||| c == ' '
    ||| c == '\t'
    ||| c == '\n'
    ||| c == '\r'
    ||| c == '\u{0b}'
    ||| c == '\u{0c}'
    ||| c == '\u{85}'
    ||| c == '\u{a0}'
    ||| c == '\u{1680}'
    ||| c == '\u{2000}'
    ||| c == '\u{2001}'
    ||| c == '\u{2002}'
    ||| c == '\u{2003}'
    ||| c == '\u{2004}'
    ||| c == '\u{2005}'
    ||| c == '\u{2006}'
    ||| c == '\u{2007}'
    ||| c == '\u{2008}'
    ||| c == '\u{2009}'
    ||| c == '\u{200a}'
    ||| c == '\u{2028}'
    ||| c == '\u{2029}'
    ||| c == '\u{202f}'
    ||| c == '\u{205f}'
    ||| c == '\u{3000}'
}

/// Whether the line consists of whitespace alone (an empty line is blank).
pub open spec fn blank(s: Seq<char>) -> bool {
    forall|i: int| 0 <= i < s.len() ==> is_space(#[trigger] s[i])
}

/// The effect of appending one logical line to the output.
///
/// With `connect` set and a non-empty buffer, the text is glued onto the last
/// line, separated by one space unless that line is empty or is exactly the
/// indent string. Otherwise a blank last line first loses its stray
/// indentation, and then `indent + text` is pushed as a new line.
pub open spec fn append_lines(
    out: Seq<Seq<char>>,
    text: Seq<char>,
    connect: bool,
    indent: Seq<char>,
) -> Seq<Seq<char>> {
    if connect && out.len() > 0 {
        let last = out.last();
        let glued = if last.len() > 0 && last != indent {
            last + seq![' '] + text
        } else {
            last + text
        };
        out.update(out.len() - 1, glued)
    } else {
        let trimmed = if out.len() > 0 && blank(out.last()) {
            out.update(out.len() - 1, Seq::<char>::empty())
        } else {
            out
        };
        trimmed.push(indent + text)
    }
}

/// The lines produced by rendering the fragment after `out`, gluing its first
/// line onto the last line of `out` when `connect` is set.
pub open spec fn render_code(
    c: Code,
    fmt: Format,
    out: Seq<Seq<char>>,
    connect: bool,
    indent: Seq<char>,
) -> Seq<Seq<char>>
    decreases c, 0int, 0int,
{
    match c {
        Code::Line(t) => append_lines(out, t@, connect, indent),
        Code::Block(b) => render_block(*b, fmt, out, connect, indent),
        Code::Concat(cc) => render_items(cc.body@, 0, fmt, out, connect, false, indent),
        Code::List(l) => render_list(l, fmt, out, connect, indent),
    }
}

/// The lines produced by rendering the items from index `i` on, one after the
/// other: item `i` with the `connect_first` flag, all later items with
/// `connect_rest`.
pub open spec fn render_items(
    items: Seq<Code>,
    i: int,
    fmt: Format,
    out: Seq<Seq<char>>,
    connect_first: bool,
    connect_rest: bool,
    indent: Seq<char>,
) -> Seq<Seq<char>>
    decreases items, 0int, items.len() - i,
{
    if i < 0 || i >= items.len() {
        out
    } else {
        render_items(
            items,
            i + 1,
            fmt,
            render_code(items[i], fmt, out, connect_first, indent),
            connect_rest,
            connect_rest,
            indent,
        )
    }
}

/// The lines produced by rendering the block: its start line, its body
/// (either glued onto the start line or indented one step deeper), and its
/// end line.
pub open spec fn render_block(
    b: Block,
    fmt: Format,
    out: Seq<Seq<char>>,
    connect: bool,
    indent: Seq<char>,
) -> Seq<Seq<char>>
    decreases b, 1int, 0int,
{
    let started = append_lines(out, b.start@, b.connect || connect, indent);
    let inlined = inline_block(b);
    let rendered = if inlined {
        render_items(b.concat_body.body@, 0, fmt, started, true, true, indent)
    } else {
        render_items(b.concat_body.body@, 0, fmt, started, false, false, indent_unit(fmt) + indent)
    };
    append_lines(rendered, b.end@, inlined, indent)
}

/// The lines produced by rendering the list: its non-empty items joined by
/// the separator, with the item-connection rule and the trailing-separator
/// policy applied.
pub open spec fn render_list(
    l: List,
    fmt: Format,
    out: Seq<Seq<char>>,
    connect: bool,
    indent: Seq<char>,
) -> Seq<Seq<char>>
    decreases l, 1int, 0int,
{
    let after = render_list_items(
        l.concat_body.body@,
        0,
        fmt,
        out,
        l.separator@,
        inline_list(l),
        connect,
        false,
        connect,
        indent,
    );
    let trail = match l.trailing {
        Trailing::IfMultiLine => after.len() > out.len() + 1,
        Trailing::Always => true,
        Trailing::Never => false,
    };
    if trail && after.len() > 0 {
        after.update(after.len() - 1, after.last() + l.separator@)
    } else {
        after
    }
}

/// The lines produced by rendering the list items from index `i` on.
///
/// Empty items are skipped. Before every item but the first rendered one, the
/// separator is appended to the current last line. The first rendered item
/// carries the externally imposed `ext_connect` flag; a later item is glued
/// onto the previous line when the whole list inlines, or when the item
/// before it spanned several lines and this item is not itself a block that
/// inlines.
pub open spec fn render_list_items(
    items: Seq<Code>,
    i: int,
    fmt: Format,
    out: Seq<Seq<char>>,
    sep: Seq<char>,
    inlined: bool,
    ext_connect: bool,
    appended: bool,
    prev_allow: bool,
    indent: Seq<char>,
) -> Seq<Seq<char>>
    decreases items, 0int, items.len() - i,
{
    if i < 0 || i >= items.len() {
        out
    } else if empty_code(items[i]) {
        render_list_items(items, i + 1, fmt, out, sep, inlined, ext_connect, appended, prev_allow, indent)
    } else {
        let c = items[i];
        let out1 = if out.len() > 0 && appended {
            out.update(out.len() - 1, out.last() + sep)
        } else {
            out
        };
        let conn = if appended {
            inlined || (prev_allow && !(c matches Code::Block(b) && inline_block(*b)))
        } else {
            ext_connect
        };
        let out2 = render_code(c, fmt, out1, conn, indent);
        render_list_items(
            items,
            i + 1,
            fmt,
            out2,
            sep,
            inlined,
            ext_connect,
            true,
            out2.len() > out.len() + 1,
            indent,
        )
    }
}

/// The lines produced by rendering the fragment on its own: from an empty
/// buffer, unconnected, with no indentation.
pub open spec fn rendered_code(c: Code, fmt: Format) -> Seq<Seq<char>> {
    render_code(c, fmt, Seq::empty(), false, Seq::empty())
}

/// The lines joined into one string with a newline between consecutive lines.
pub open spec fn join_lines(lines: Seq<Seq<char>>) -> Seq<char>
    decreases lines.len(),
{
    if lines.len() == 0 {
        Seq::empty()
    } else if lines.len() == 1 {
        lines[0]
    } else {
        join_lines(lines.drop_last()) + seq!['\n'] + lines.last()
    }
}

/// The text with every trailing newline removed.
pub open spec fn strip_newlines(t: Seq<char>) -> Seq<char>
    decreases t.len(),
{
    if t.len() > 0 && t.last() == '\n' {
        strip_newlines(t.drop_last())
    } else {
        t
    }
}

/// Stripping trailing newlines ignores a wholly-newline suffix.
proof fn lemma_strip_take(t: Seq<char>, k: int)
    requires
        0 <= k <= t.len(),
        forall|j: int| k <= j < t.len() ==> t[j] == '\n',
    ensures
        strip_newlines(t) == strip_newlines(t.take(k)),
    decreases t.len() - k,
{
    if k < t.len() {
        assert(t.last() == '\n');
        let shorter = t.drop_last();
        assert(forall|j: int| k <= j < shorter.len() ==> shorter[j] == '\n');
        lemma_strip_take(shorter, k);
        assert(shorter.take(k) =~= t.take(k));
    } else {
        assert(t.take(k) =~= t);
    }
}

/// Replaces whatever run of newlines ends the text with exactly one.
fn terminate(s: &str) -> (r: String)
    ensures
        r@ == strip_newlines(s@) + seq!['\n'],
{
    let n = s.unicode_len();
    let mut k = n;
    while k > 0 && s.get_char(k - 1) == '\n'
        invariant
            k <= n,
            n == s@.len(),
            forall|j: int| k <= j < n ==> s@[j] == '\n',
        decreases k,
    {
        k = k - 1;
    }
    let prefix = s.substring_char(0, k);
    let mut r = prefix.to_owned();
    proof {
        reveal_strlit("\n");
        assert("\n"@ =~= seq!['\n']);
        lemma_strip_take(s@, k as int);
        assert(s@.subrange(0, k as int) =~= s@.take(k as int));
        if k > 0 {
            assert(s@.take(k as int).last() == s@[k as int - 1]);
            assert(strip_newlines(s@.take(k as int)) == s@.take(k as int));
        } else {
            assert(s@.take(0) =~= Seq::<char>::empty());
        }
    }
    r.append("\n");
    r
}

/// An upper bound on the number of lines the fragment can add to the output.
pub open spec fn hint_code(c: Code) -> int
    decreases c, 1int, 0int,
{
    match c {
        Code::Line(_) => 1,
        Code::Block(b) => hint_items(b.concat_body.body@, 0) + 2,
        Code::Concat(cc) => hint_items(cc.body@, 0),
        Code::List(l) => hint_items(l.concat_body.body@, 0),
    }
}

/// The sum of the line-count bounds of the items from index `i` on.
pub open spec fn hint_items(items: Seq<Code>, i: int) -> int
    decreases items, 0int, items.len() - i,
{
    if i < 0 || i >= items.len() {
        0
    } else {
        hint_code(items[i]) + hint_items(items, i + 1)
    }
}

/// The value `h` capped at the largest `usize`.
pub open spec fn cap_usize(h: int) -> int {
    if h <= usize::MAX as int {
        h
    } else {
        usize::MAX as int
    }
}

/// Every fragment's line-count bound is non-negative.
pub proof fn lemma_hint_code_nonneg(c: Code)
    ensures
        hint_code(c) >= 0,
    decreases c, 1int, 0int,
{
    match c {
        Code::Line(_) => {},
        Code::Block(b) => lemma_hint_items_nonneg(b.concat_body.body@, 0),
        Code::Concat(cc) => lemma_hint_items_nonneg(cc.body@, 0),
        Code::List(l) => lemma_hint_items_nonneg(l.concat_body.body@, 0),
    }
}

/// The summed line-count bound of a run of items is non-negative.
pub proof fn lemma_hint_items_nonneg(items: Seq<Code>, i: int)
    ensures
        hint_items(items, i) >= 0,
    decreases items, 0int, items.len() - i,
{
    if 0 <= i < items.len() {
        lemma_hint_code_nonneg(items[i]);
        lemma_hint_items_nonneg(items, i + 1);
    }
}

/// Adds without overflowing: the sum, capped at the largest `usize`.
pub(crate) fn saturating_add(a: usize, b: usize) -> (r: usize)
    ensures
        r as int == cap_usize(a as int + b as int),
{
    if a > usize::MAX - b {
        usize::MAX
    } else {
        a + b
    }
}

/// An upper bound on the number of lines the fragment can produce, capped at
/// the largest `usize`.
pub(crate) fn hint_code_exec(c: &Code) -> (n: usize)
    ensures
        n as int == cap_usize(hint_code(*c)),
    decreases *c, 1int, 0int,
{
    match c {
        Code::Line(_) => 1,
        Code::Block(b) => {
            proof {
                lemma_hint_items_nonneg(b.concat_body.body@, 0);
            }
            saturating_add(hint_items_exec(&b.concat_body.body), 2)
        },
        Code::Concat(cc) => hint_items_exec(&cc.body),
        Code::List(l) => hint_items_exec(&l.concat_body.body),
    }
}

/// The summed line-count bound of the items, capped at the largest `usize`.
pub(crate) fn hint_items_exec(items: &Vec<Code>) -> (n: usize)
    ensures
        n as int == cap_usize(hint_items(items@, 0)),
    decreases items@, 0int, 0int,
{
    let len = items.len();
    let mut acc: usize = 0;
    let mut i: usize = 0;
    proof {
        lemma_hint_items_nonneg(items@, 0);
    }
    while i < len
        invariant
            i <= len,
            len == items@.len(),
            hint_items(items@, i as int) >= 0,
            acc as int == cap_usize(hint_items(items@, 0) - hint_items(items@, i as int)),
        decreases len - i,
    {
        let h = hint_code_exec(&items[i]);
        proof {
            lemma_hint_code_nonneg(items@[i as int]);
            lemma_hint_items_nonneg(items@, i as int + 1);
            assert(hint_items(items@, i as int) == hint_code(items@[i as int]) + hint_items(
                items@,
                i as int + 1,
            ));
        }
        acc = saturating_add(acc, h);
        i = i + 1;
    }
    acc
}

/// The lines joined into one string, with a newline between consecutive lines.
fn join_all(lines: &Vec<String>) -> (r: String)
    ensures
        r@ == join_lines(lines.deep_view()),
{
    let mut s = String::new();
    let n = lines.len();
    let mut i: usize = 0;
    proof {
        reveal_strlit("\n");
        assert("\n"@ =~= seq!['\n']);
    }
    while i < n
        invariant
            i <= n,
            n == lines@.len(),
            "\n"@ == seq!['\n'],
            s@ == join_lines(lines.deep_view().take(i as int)),
        decreases n - i,
    {
        if i > 0 {
            s.append("\n");
        }
        s.append(lines[i].as_str());
        proof {
            let dv = lines.deep_view();
            let k = i as int;
            assert(dv.take(k + 1).drop_last() =~= dv.take(k));
            assert(dv.take(k + 1).last() == dv[k]);
            if k == 0 {
                assert(join_lines(dv.take(1)) == dv.take(1)[0]);
                assert(s@ == join_lines(dv.take(k + 1)));
            } else {
                assert(join_lines(dv.take(k + 1)) == join_lines(dv.take(k)) + seq!['\n'] + dv[k]);
                assert(s@ == join_lines(dv.take(k + 1)));
            }
        }
        i = i + 1;
    }
    proof {
        assert(lines.deep_view().take(n as int) =~= lines.deep_view());
    }
    s
}

/// Renders fragments to text.
pub trait FormatCode {
    /// The lines this fragment produces when rendered after `out`, gluing its
    /// first line onto the last line of `out` when `connect` is set.
    spec fn rendered(
        &self,
        fmt: Format,
        out: Seq<Seq<char>>,
        connect: bool,
        indent: Seq<char>,
    ) -> Seq<Seq<char>>;

    /// An upper bound on the number of lines this fragment can produce.
    spec fn size_bound(&self) -> int;

    /// Renders this fragment into the buffer, with the given configuration,
    /// connection flag, and indentation prefix.
    fn format_into_vec_with(&self, format: &Format, out: &mut Vec<String>, connect: bool, indent: &str)
        ensures
            final(out).deep_view() == self.rendered(
                *format,
                old(out).deep_view(),
                connect,
                indent@,
            ),
    ;

    /// An upper bound on the line count, for pre-sizing the output buffer.
    fn size_hint(&self) -> (n: usize)
        ensures
            n as int == cap_usize(self.size_bound()),
    ;

    /// Renders this fragment on its own, as a vector of lines.
    fn format_vec_with(&self, format: &Format) -> (lines: Vec<String>)
        ensures
            lines.deep_view() == self.rendered(*format, Seq::empty(), false, Seq::empty()),
    {
        let hint = self.size_hint();
        let mut out: Vec<String> = Vec::with_capacity(hint);
        proof {
            reveal_strlit("");
            assert(""@ =~= Seq::<char>::empty());
            assert(out.deep_view() =~= Seq::<Seq<char>>::empty());
        }
        self.format_into_vec_with(format, &mut out, false, "");
        out
    }

    /// Renders this fragment on its own, with the lines joined by newlines.
    fn format_with(&self, format: &Format) -> (s: String)
        ensures
            s@ == join_lines(self.rendered(*format, Seq::empty(), false, Seq::empty())),
    {
        let lines = self.format_vec_with(format);
        join_all(&lines)
    }

    /// Renders this fragment on its own, with the lines joined by newlines
    /// and the result guaranteed to end with exactly one line terminator.
    fn format_terminated(&self, format: &Format) -> (s: String)
        ensures
            s@ == strip_newlines(
                join_lines(self.rendered(*format, Seq::empty(), false, Seq::empty())),
            ) + seq!['\n'],
    {
        let joined = self.format_with(format);
        terminate(joined.as_str())
    }

    /// Renders this fragment on its own with the default format.
    fn format(&self) -> (s: String)
        ensures
            s@ == join_lines(
                self.rendered((Format { indent: 4 }), Seq::empty(), false, Seq::empty()),
            ),
    {
        self.format_with(&Format::default())
    }
}

impl FormatCode for Code {
    /// The line model of a fragment.
    open spec fn rendered(
        &self,
        fmt: Format,
        out: Seq<Seq<char>>,
        connect: bool,
        indent: Seq<char>,
    ) -> Seq<Seq<char>> {
        render_code(*self, fmt, out, connect, indent)
    }

    /// The line-count bound of a fragment.
    open spec fn size_bound(&self) -> int {
        hint_code(*self)
    }

    fn format_into_vec_with(&self, format: &Format, out: &mut Vec<String>, connect: bool, indent: &str) {
        render_code_into(self, format, out, connect, indent)
    }

    fn size_hint(&self) -> (n: usize) {
        let n = hint_code_exec(self);
        proof {
            assert(self.size_bound() == hint_code(*self));
        }
        n
    }
}

/// Whether the character is whitespace.
fn char_is_space(c: char) -> (r: bool)
    ensures
        r == is_space(c),
{
    c == ' ' || c == '\t' || c == '\n' || c == '\r' || c == '\u{0b}' || c == '\u{0c}' || c
        == '\u{85}' || c == '\u{a0}' || c == '\u{1680}' || c == '\u{2000}' || c == '\u{2001}' || c
        == '\u{2002}' || c == '\u{2003}' || c == '\u{2004}' || c == '\u{2005}' || c == '\u{2006}'
        || c == '\u{2007}' || c == '\u{2008}' || c == '\u{2009}' || c == '\u{200a}' || c
        == '\u{2028}' || c == '\u{2029}' || c == '\u{202f}' || c == '\u{205f}' || c == '\u{3000}'
}

/// Whether the string consists of whitespace alone.
fn str_is_blank(s: &str) -> (r: bool)
    ensures
        r == blank(s@),
{
    let n = s.unicode_len();
    let mut i: usize = 0;
    while i < n
        invariant
            i <= n,
            n == s@.len(),
            forall|j: int| 0 <= j < i ==> is_space(#[trigger] s@[j]),
        decreases n - i,
    {
        if !char_is_space(s.get_char(i)) {
            return false;
        }
        i = i + 1;
    }
    true
}

/// Whether two string slices hold the same characters.
fn str_eq(a: &str, b: &str) -> (r: bool)
    ensures
        r == (a@ == b@),
{
    let n = a.unicode_len();
    if n != b.unicode_len() {
        return false;
    }
    let mut i: usize = 0;
    while i < n
        invariant
            i <= n,
            n == a@.len(),
            n == b@.len(),
            forall|j: int| 0 <= j < i ==> a@[j] == b@[j],
        decreases n - i,
    {
        if a.get_char(i) != b.get_char(i) {
            return false;
        }
        i = i + 1;
    }
    proof {
        assert(a@ =~= b@);
    }
    true
}

/// Appends one logical line to the output buffer, gluing it onto the previous
/// line when `connect` asks for that.
pub(crate) fn append_line(out: &mut Vec<String>, line: &str, connect: bool, indent: &str)
    ensures
        final(out).deep_view() == append_lines(old(out).deep_view(), line@, connect, indent@),
{
    let ghost pre = old(out).deep_view();
    if connect && out.len() > 0 {
        let mut last = out.pop().unwrap();
        if !last.as_str().is_empty() && !str_eq(last.as_str(), indent) {
            proof {
                reveal_strlit(" ");
                assert(" "@ =~= seq![' ']);
            }
            last.append(" ");
        }
        last.append(line);
        out.push(last);
        proof {
            assert(final(out).deep_view() =~~= append_lines(pre, line@, connect, indent@));
        }
        return ;
    }
    if out.len() > 0 {
        let blank_last = str_is_blank(out[out.len() - 1].as_str());
        if blank_last {
            let _ = out.pop();
            out.push(String::new());
        }
    }
    let mut fresh = indent.to_owned();
    fresh.append(line);
    out.push(fresh);
    proof {
        assert(final(out).deep_view() =~~= append_lines(pre, line@, connect, indent@));
    }
}

/// Renders the fragment into the buffer.
pub(crate) fn render_code_into(
    c: &Code,
    fmt: &Format,
    out: &mut Vec<String>,
    connect: bool,
    indent: &str,
)
    ensures
        final(out).deep_view() == render_code(*c, *fmt, old(out).deep_view(), connect, indent@),
    decreases *c, 0int, 0int,
{
    match c {
        Code::Line(line) => append_line(out, line.as_str(), connect, indent),
        Code::Block(body) => crate::block::render_block_into(body, fmt, out, connect, indent),
        Code::Concat(body) => crate::concat::render_concat_into(body, fmt, out, connect, indent),
        Code::List(body) => crate::list::render_list_into(body, fmt, out, connect, indent),
    }
}

impl Code {
    /// Whether this fragment renders as a single line.
    pub fn should_inline(&self) -> (r: bool)
        ensures
            r == inline_code(*self),
        decreases *self, 2int,
    {
        match self {
            Code::Block(block) => block.should_inline(),
            Code::List(list) => list.should_inline(),
            _ => false,
        }
    }

    /// Whether this fragment renders to no lines at all.
    pub fn is_empty(&self) -> (r: bool)
        ensures
            r == empty_code(*self),
    {
        match self {
            Code::Concat(concat) => concat.is_empty(),
            Code::List(list) => list.is_empty(),
            _ => false,
        }
    }
}

} // verus!
