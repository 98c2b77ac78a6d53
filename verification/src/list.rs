//! Lists: code fragments joined by a separator.

use vstd::prelude::*;

use crate::inline_intrinsic_list;
use crate::inline_list;
use crate::render_list;
use crate::render_list_items;
use crate::Code;
use crate::Concat;
use crate::Format;
use crate::InlineMode;

verus! {

/// A list of code fragments separated by a separator.
#[derive(Debug, PartialEq)]
pub struct List {
    /// The items of the list, in order.
    pub concat_body: Concat,
    /// The separator placed between consecutive non-empty items.
    pub separator: String,
    /// The trailing-separator policy.
    pub trailing: Trailing,
    /// When to render the whole list as a single line.
    pub inline_mode: InlineMode,
}

/// Trailing-separator policy for a list.
#[derive(Debug, Clone, Copy, PartialEq, Eq, Structural)]
pub enum Trailing {
    /// Add a trailing separator when the list spans several lines.
    IfMultiLine,
    /// Always add a trailing separator.
    Always,
    /// Never add a trailing separator.
    Never,
}

impl List {
    /// A list with no items.
    pub fn empty(sep: &str) -> (l: List)
        ensures
            l.concat_body.body@ == Seq::<Code>::empty(),
            l.separator@ == sep@,
            l.trailing == Trailing::IfMultiLine,
            l.inline_mode == InlineMode::Intrinsic,
    {
        List {
            concat_body: Concat::empty(),
            separator: sep.to_owned(),
            trailing: Trailing::IfMultiLine,
            inline_mode: InlineMode::Intrinsic,
        }
    }

    /// A list of the given items.
    pub fn new(sep: &str, body: Vec<Code>) -> (l: List)
        ensures
            l.concat_body.body == body,
            l.separator@ == sep@,
            l.trailing == Trailing::IfMultiLine,
            l.inline_mode == InlineMode::Intrinsic,
    {
        List {
            concat_body: Concat::new(body),
            separator: sep.to_owned(),
            trailing: Trailing::IfMultiLine,
            inline_mode: InlineMode::Intrinsic,
        }
    }

    /// Never add a trailing separator.
    pub fn no_trail(self) -> (l: List)
        ensures
            l == (List { trailing: Trailing::Never, ..self }),
    {
        List { trailing: Trailing::Never, ..self }
    }

    /// Add a trailing separator even when the list renders on one line.
    pub fn always_trail(self) -> (l: List)
        ensures
            l == (List { trailing: Trailing::Always, ..self }),
    {
        List { trailing: Trailing::Always, ..self }
    }

    /// Sets whether to render the list as one line: the caller passes the
    /// already-decided condition.
    pub fn inline_when(self, condition: bool) -> (l: List)
        ensures
            l == (List {
                inline_mode: if condition {
                    InlineMode::Always
                } else {
                    InlineMode::Never
                },
                ..self
            }),
    {
        if condition {
            List { inline_mode: InlineMode::Always, ..self }
        } else {
            List { inline_mode: InlineMode::Never, ..self }
        }
    }

    /// Sets the list to always render as one line.
    pub fn inlined(self) -> (l: List)
        ensures
            l == (List { inline_mode: InlineMode::Always, ..self }),
    {
        List { inline_mode: InlineMode::Always, ..self }
    }

    /// The items of the list.
    pub fn body(&self) -> (r: &Vec<Code>)
        ensures
            r == &self.concat_body.body,
    {
        &self.concat_body.body
    }

    /// Whether the list has no items at all.
    pub fn is_empty(&self) -> (r: bool)
        ensures
            r == (self.concat_body.body@.len() == 0),
    {
        self.concat_body.is_empty()
    }

    /// Whether this list renders as a single line.
    pub fn should_inline(&self) -> (r: bool)
        ensures
            r == inline_list(*self),
        decreases *self, 3int,
    {
        match self.inline_mode {
            InlineMode::Intrinsic => self.should_inline_intrinsic(),
            InlineMode::Always => true,
            InlineMode::Never => false,
        }
    }

    /// The intrinsic inline rule: the body is one item that itself inlines.
    pub fn should_inline_intrinsic(&self) -> (r: bool)
        ensures
            r == inline_intrinsic_list(*self),
        decreases *self, 2int,
    {
        self.concat_body.body.len() == 1 && self.concat_body.body[0].should_inline()
    }
}

impl crate::FormatCode for List {
    /// The line model of a list.
    open spec fn rendered(
        &self,
        fmt: Format,
        out: Seq<Seq<char>>,
        connect: bool,
        indent: Seq<char>,
    ) -> Seq<Seq<char>> {
        render_list(*self, fmt, out, connect, indent)
    }

    /// The line-count bound of a list: the sum over its items.
    open spec fn size_bound(&self) -> int {
        crate::hint_items(self.concat_body.body@, 0)
    }

    fn format_into_vec_with(&self, format: &Format, out: &mut Vec<String>, connect: bool, indent: &str) {
        render_list_into(self, format, out, connect, indent)
    }

    fn size_hint(&self) -> (n: usize) {
        let n = crate::hint_items_exec(&self.concat_body.body);
        proof {
            assert(crate::FormatCode::size_bound(self) == crate::hint_items(
                self.concat_body.body@,
                0,
            ));
        }
        n
    }
}

/// Appends the separator to the last line of the buffer, if there is one.
fn push_separator(out: &mut Vec<String>, sep: &str)
    ensures
        final(out).deep_view() == if old(out).deep_view().len() > 0 {
            old(out).deep_view().update(
                old(out).deep_view().len() - 1,
                old(out).deep_view().last() + sep@,
            )
        } else {
            old(out).deep_view()
        },
{
    let ghost pre = old(out).deep_view();
    if out.len() > 0 {
        let mut last = out.pop().unwrap();
        last.append(sep);
        out.push(last);
        proof {
            assert(final(out).deep_view() =~~= pre.update(pre.len() - 1, pre.last() + sep@));
        }
    }
}

/// Renders the list: its non-empty items joined by the separator, with the
/// item-connection rule and the trailing-separator policy applied.
pub(crate) fn render_list_into(
    l: &List,
    fmt: &Format,
    out: &mut Vec<String>,
    connect: bool,
    indent: &str,
)
    ensures
        final(out).deep_view() == render_list(*l, *fmt, old(out).deep_view(), connect, indent@),
    decreases *l, 3int, 0int,
{
    let ghost initial = old(out).deep_view();
    let initial_len = out.len();
    let inlined = l.should_inline();
    let mut appended = false;
    let mut prev_allow = connect;
    let n = l.concat_body.body.len();
    let mut i: usize = 0;
    while i < n
        invariant
            i <= n,
            n == l.concat_body.body@.len(),
            out.deep_view().len() == out@.len(),
            render_list_items(
                l.concat_body.body@,
                i as int,
                *fmt,
                out.deep_view(),
                l.separator@,
                inlined,
                connect,
                appended,
                prev_allow,
                indent@,
            ) == render_list_items(
                l.concat_body.body@,
                0,
                *fmt,
                initial,
                l.separator@,
                inlined,
                connect,
                false,
                connect,
                indent@,
            ),
        decreases n - i,
    {
        let ghost pre = out.deep_view();
        let ghost items = l.concat_body.body@;
        let ghost pre_appended = appended;
        let ghost pre_allow = prev_allow;
        let code = &l.concat_body.body[i];
        if !code.is_empty() {
            let before_len = out.len();
            if appended {
                push_separator(out, l.separator.as_str());
            }
            let ghost mid = out.deep_view();
            proof {
                assert(mid == if pre.len() > 0 && pre_appended {
                    pre.update(pre.len() - 1, pre.last() + l.separator@)
                } else {
                    pre
                });
            }
            let conn = if appended {
                inlined || (prev_allow && match code {
                    Code::Block(b) => !b.should_inline(),
                    _ => true,
                })
            } else {
                connect
            };
            crate::render_code_into(code, fmt, out, conn, indent);
            prev_allow = out.len() > before_len && out.len() - before_len > 1;
            appended = true;
            proof {
                assert(out.deep_view().len() == out@.len());
                assert(prev_allow == (out.deep_view().len() > pre.len() + 1));
                assert(render_list_items(
                    items,
                    i as int,
                    *fmt,
                    pre,
                    l.separator@,
                    inlined,
                    connect,
                    pre_appended,
                    pre_allow,
                    indent@,
                ) == render_list_items(
                    items,
                    i as int + 1,
                    *fmt,
                    out.deep_view(),
                    l.separator@,
                    inlined,
                    connect,
                    true,
                    prev_allow,
                    indent@,
                ));
            }
        } else {
            proof {
                assert(render_list_items(
                    items,
                    i as int,
                    *fmt,
                    pre,
                    l.separator@,
                    inlined,
                    connect,
                    pre_appended,
                    pre_allow,
                    indent@,
                ) == render_list_items(
                    items,
                    i as int + 1,
                    *fmt,
                    pre,
                    l.separator@,
                    inlined,
                    connect,
                    pre_appended,
                    pre_allow,
                    indent@,
                ));
            }
        }
        i = i + 1;
    }
    let ghost after = out.deep_view();
    proof {
        assert(after == render_list_items(
            l.concat_body.body@,
            0,
            *fmt,
            initial,
            l.separator@,
            inlined,
            connect,
            false,
            connect,
            indent@,
        ));
        assert(after.len() == out@.len());
        assert(initial.len() == initial_len);
    }
    let trail = match l.trailing {
        Trailing::IfMultiLine => out.len() > initial_len && out.len() - initial_len > 1,
        Trailing::Always => true,
        Trailing::Never => false,
    };
    if trail {
        push_separator(out, l.separator.as_str());
    }
}

} // verus!
