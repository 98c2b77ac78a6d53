//! Laws of the renderer, stated and proved over the line model.

use vstd::prelude::*;

use crate::append_lines;
use crate::blank;
use crate::inline_block;
use crate::inline_intrinsic_block;
use crate::inline_list;
use crate::is_space;
use crate::render_block;
use crate::render_code;
use crate::render_items;
use crate::render_list;
use crate::render_list_items;
use crate::rendered_code;
use crate::Block;
use crate::Code;
use crate::Concat;
use crate::Format;
use crate::InlineMode;
use crate::List;
use crate::Trailing;

verus! {

/// Rendering is deterministic: the same tree and the same configuration give
/// the same lines, however often they are rendered.
pub proof fn lemma_render_deterministic(c1: Code, c2: Code, fmt1: Format, fmt2: Format)
    requires
        c1 == c2,
        fmt1 == fmt2,
    ensures
        rendered_code(c1, fmt1) == rendered_code(c2, fmt2),
{
}

/// A concatenation built from zero items renders to an empty line sequence.
pub proof fn lemma_render_empty_concat(cc: Concat, fmt: Format)
    requires
        cc.body@.len() == 0,
    ensures
        rendered_code(Code::Concat(cc), fmt) == Seq::<Seq<char>>::empty(),
{
}

/// A list built from zero items renders to an empty line sequence, whatever
/// its trailing policy.
pub proof fn lemma_render_empty_list(l: List, fmt: Format)
    requires
        l.concat_body.body@.len() == 0,
    ensures
        rendered_code(Code::List(l), fmt) == Seq::<Seq<char>>::empty(),
{
    let after = render_list_items(
        l.concat_body.body@,
        0,
        fmt,
        Seq::empty(),
        l.separator@,
        inline_list(l),
        false,
        false,
        false,
        Seq::empty(),
    );
    assert(after == Seq::<Seq<char>>::empty());
    assert(rendered_code(Code::List(l), fmt) == render_list(l, fmt, Seq::empty(), false, Seq::empty()));
}

/// A block with zero body items renders to exactly two lines: its start and
/// its end. A start line of whitespace alone is collapsed to the empty line
/// when the end line is appended. Forcing such a block to inline instead
/// glues the end onto the start line, so always-inlined blocks are left out.
pub proof fn lemma_render_empty_block(b: Block, fmt: Format)
    requires
        b.concat_body.body@.len() == 0,
        b.inline_mode != InlineMode::Always,
    ensures
        ({
            let ls = render_block(b, fmt, Seq::empty(), false, Seq::empty());
            &&& ls.len() == 2
            &&& ls[0] == if blank(b.start@) {
                Seq::<char>::empty()
            } else {
                b.start@
            }
            &&& ls[1] == b.end@
        }),
{
    let started = append_lines(Seq::empty(), b.start@, b.connect || false, Seq::empty());
    assert(Seq::<char>::empty() + b.start@ =~= b.start@);
    assert(started =~= seq![b.start@]);
    assert(!inline_block(b));
    assert(render_items(b.concat_body.body@, 0, fmt, started, false, false, crate::indent_unit(fmt) + Seq::empty())
        == started);
    let ls = append_lines(started, b.end@, false, Seq::empty());
    assert(Seq::<char>::empty() + b.end@ =~= b.end@);
    assert(ls.len() == 2);
}

/// Forcing a block to always inline when its body is a single child that
/// itself inlines changes nothing: the intrinsic rule already inlines it.
pub proof fn lemma_inline_idempotent(
    b: Block,
    fmt: Format,
    out: Seq<Seq<char>>,
    connect: bool,
    indent: Seq<char>,
)
    requires
        b.inline_mode == InlineMode::Intrinsic,
        inline_intrinsic_block(b),
    ensures
        render_block((Block { inline_mode: InlineMode::Always, ..b }), fmt, out, connect, indent)
            == render_block(b, fmt, out, connect, indent),
{
    let b2 = Block { inline_mode: InlineMode::Always, ..b };
    assert(inline_block(b2));
    assert(inline_block(b));
}

/// For a list that spans several lines, rendering with the `IfMultiLine`
/// trailing policy gives the same lines as rendering with `Always`.
pub proof fn lemma_trailing_multiline(
    l: List,
    fmt: Format,
    out: Seq<Seq<char>>,
    connect: bool,
    indent: Seq<char>,
)
    requires
        ({
            let after = render_list_items(
                l.concat_body.body@,
                0,
                fmt,
                out,
                l.separator@,
                inline_list(l),
                connect,
                false,
                connect,
                indent,
            );
            after.len() > out.len() + 1
        }),
    ensures
        render_list((List { trailing: Trailing::IfMultiLine, ..l }), fmt, out, connect, indent)
            == render_list((List { trailing: Trailing::Always, ..l }), fmt, out, connect, indent),
{
    let l1 = List { trailing: Trailing::IfMultiLine, ..l };
    let l2 = List { trailing: Trailing::Always, ..l };
    assert(inline_list(l1) == inline_list(l));
    assert(inline_list(l2) == inline_list(l));
}

/// For a list that renders on a single line (or to nothing), rendering with
/// the `IfMultiLine` trailing policy gives the same lines as with `Never`.
pub proof fn lemma_trailing_singleline(
    l: List,
    fmt: Format,
    out: Seq<Seq<char>>,
    connect: bool,
    indent: Seq<char>,
)
    requires
        ({
            let after = render_list_items(
                l.concat_body.body@,
                0,
                fmt,
                out,
                l.separator@,
                inline_list(l),
                connect,
                false,
                connect,
                indent,
            );
            after.len() <= out.len() + 1
        }),
    ensures
        render_list((List { trailing: Trailing::IfMultiLine, ..l }), fmt, out, connect, indent)
            == render_list((List { trailing: Trailing::Never, ..l }), fmt, out, connect, indent),
{
    let l1 = List { trailing: Trailing::IfMultiLine, ..l };
    let l2 = List { trailing: Trailing::Never, ..l };
    assert(inline_list(l1) == inline_list(l));
    assert(inline_list(l2) == inline_list(l));
}

/// Appending a line never shrinks the buffer, and always leaves at least one
/// line behind.
proof fn lemma_append_grows(out: Seq<Seq<char>>, text: Seq<char>, connect: bool, indent: Seq<char>)
    ensures
        append_lines(out, text, connect, indent).len() >= out.len(),
        append_lines(out, text, connect, indent).len() >= 1,
{
}

/// Rendering a fragment never removes lines from the buffer.
pub proof fn lemma_render_grows_code(
    c: Code,
    fmt: Format,
    out: Seq<Seq<char>>,
    connect: bool,
    indent: Seq<char>,
)
    ensures
        render_code(c, fmt, out, connect, indent).len() >= out.len(),
    decreases c, 0int, 0int,
{
    match c {
        Code::Line(t) => {},
        Code::Block(b) => lemma_render_grows_block(*b, fmt, out, connect, indent),
        Code::Concat(cc) => lemma_render_grows_items(cc.body@, 0, fmt, out, connect, false, indent),
        Code::List(l) => lemma_render_grows_list(l, fmt, out, connect, indent),
    }
}

/// Rendering a run of items never removes lines from the buffer.
pub proof fn lemma_render_grows_items(
    items: Seq<Code>,
    i: int,
    fmt: Format,
    out: Seq<Seq<char>>,
    connect_first: bool,
    connect_rest: bool,
    indent: Seq<char>,
)
    ensures
        render_items(items, i, fmt, out, connect_first, connect_rest, indent).len() >= out.len(),
    decreases items, 0int, items.len() - i,
{
    if 0 <= i < items.len() {
        let mid = render_code(items[i], fmt, out, connect_first, indent);
        lemma_render_grows_code(items[i], fmt, out, connect_first, indent);
        lemma_render_grows_items(items, i + 1, fmt, mid, connect_rest, connect_rest, indent);
    }
}

/// Rendering a block never removes lines from the buffer.
pub proof fn lemma_render_grows_block(
    b: Block,
    fmt: Format,
    out: Seq<Seq<char>>,
    connect: bool,
    indent: Seq<char>,
)
    ensures
        render_block(b, fmt, out, connect, indent).len() >= out.len(),
        render_block(b, fmt, out, connect, indent).len() >= 1,
    decreases b, 1int, 0int,
{
    let started = append_lines(out, b.start@, b.connect || connect, indent);
    if inline_block(b) {
        lemma_render_grows_items(b.concat_body.body@, 0, fmt, started, true, true, indent);
    } else {
        lemma_render_grows_items(
            b.concat_body.body@,
            0,
            fmt,
            started,
            false,
            false,
            crate::indent_unit(fmt) + indent,
        );
    }
}

/// Rendering a list never removes lines from the buffer.
pub proof fn lemma_render_grows_list(
    l: List,
    fmt: Format,
    out: Seq<Seq<char>>,
    connect: bool,
    indent: Seq<char>,
)
    ensures
        render_list(l, fmt, out, connect, indent).len() >= out.len(),
    decreases l, 1int, 0int,
{
    lemma_render_grows_list_items(
        l.concat_body.body@,
        0,
        fmt,
        out,
        l.separator@,
        inline_list(l),
        connect,
        false,
        connect,
        indent,
    );
}

/// Rendering a run of list items never removes lines from the buffer.
pub proof fn lemma_render_grows_list_items(
    items: Seq<Code>,
    i: int,
    fmt: Format,
    out: Seq<Seq<char>>,
    sep: Seq<char>,
    inlined: bool,
    ext_connect: bool,
    appended: bool,
    prev_allow: bool,
    indent: Seq<char>,
)
    ensures
        render_list_items(
            items,
            i,
            fmt,
            out,
            sep,
            inlined,
            ext_connect,
            appended,
            prev_allow,
            indent,
        ).len() >= out.len(),
    decreases items, 0int, items.len() - i,
{
    if 0 <= i < items.len() {
        if crate::empty_code(items[i]) {
            lemma_render_grows_list_items(
                items,
                i + 1,
                fmt,
                out,
                sep,
                inlined,
                ext_connect,
                appended,
                prev_allow,
                indent,
            );
        } else {
            let c = items[i];
            let out1 = if out.len() > 0 && appended {
                out.update(out.len() - 1, out.last() + sep)
            } else {
                out
            };
            let conn = if appended {
                inlined || (prev_allow && !(c matches Code::Block(b) && inline_block(*b)))
            } else {
                ext_connect
            };
            let out2 = render_code(c, fmt, out1, conn, indent);
            lemma_render_grows_code(c, fmt, out1, conn, indent);
            lemma_render_grows_list_items(
                items,
                i + 1,
                fmt,
                out2,
                sep,
                inlined,
                ext_connect,
                true,
                out2.len() > out.len() + 1,
                indent,
            );
        }
    }
}

/// Rendering a fragment adds at most its line-count bound: `size_hint` may
/// over-estimate, but it never under-estimates.
pub proof fn lemma_hint_bounds_code(
    c: Code,
    fmt: Format,
    out: Seq<Seq<char>>,
    connect: bool,
    indent: Seq<char>,
)
    ensures
        render_code(c, fmt, out, connect, indent).len() <= out.len() + crate::hint_code(c),
    decreases c, 0int, 0int,
{
    match c {
        Code::Line(t) => {},
        Code::Block(b) => lemma_hint_bounds_block(*b, fmt, out, connect, indent),
        Code::Concat(cc) => lemma_hint_bounds_items(cc.body@, 0, fmt, out, connect, false, indent),
        Code::List(l) => lemma_hint_bounds_list(l, fmt, out, connect, indent),
    }
}

/// Rendering a run of items adds at most the sum of their line-count bounds.
pub proof fn lemma_hint_bounds_items(
    items: Seq<Code>,
    i: int,
    fmt: Format,
    out: Seq<Seq<char>>,
    connect_first: bool,
    connect_rest: bool,
    indent: Seq<char>,
)
    ensures
        render_items(items, i, fmt, out, connect_first, connect_rest, indent).len() <= out.len()
            + crate::hint_items(items, i),
    decreases items, 0int, items.len() - i,
{
    crate::lemma_hint_items_nonneg(items, i);
    if 0 <= i < items.len() {
        let mid = render_code(items[i], fmt, out, connect_first, indent);
        lemma_hint_bounds_code(items[i], fmt, out, connect_first, indent);
        lemma_hint_bounds_items(items, i + 1, fmt, mid, connect_rest, connect_rest, indent);
    }
}

/// Rendering a block adds at most its body's bound plus its two own lines.
pub proof fn lemma_hint_bounds_block(
    b: Block,
    fmt: Format,
    out: Seq<Seq<char>>,
    connect: bool,
    indent: Seq<char>,
)
    ensures
        render_block(b, fmt, out, connect, indent).len() <= out.len() + crate::hint_items(
            b.concat_body.body@,
            0,
        ) + 2,
    decreases b, 1int, 0int,
{
    let started = append_lines(out, b.start@, b.connect || connect, indent);
    if inline_block(b) {
        lemma_hint_bounds_items(b.concat_body.body@, 0, fmt, started, true, true, indent);
    } else {
        lemma_hint_bounds_items(
            b.concat_body.body@,
            0,
            fmt,
            started,
            false,
            false,
            crate::indent_unit(fmt) + indent,
        );
    }
}

/// Rendering a list adds at most the sum of its items' bounds.
pub proof fn lemma_hint_bounds_list(
    l: List,
    fmt: Format,
    out: Seq<Seq<char>>,
    connect: bool,
    indent: Seq<char>,
)
    ensures
        render_list(l, fmt, out, connect, indent).len() <= out.len() + crate::hint_items(
            l.concat_body.body@,
            0,
        ),
    decreases l, 1int, 0int,
{
    lemma_hint_bounds_list_items(
        l.concat_body.body@,
        0,
        fmt,
        out,
        l.separator@,
        inline_list(l),
        connect,
        false,
        connect,
        indent,
    );
}

/// Rendering a run of list items adds at most the sum of their bounds.
pub proof fn lemma_hint_bounds_list_items(
    items: Seq<Code>,
    i: int,
    fmt: Format,
    out: Seq<Seq<char>>,
    sep: Seq<char>,
    inlined: bool,
    ext_connect: bool,
    appended: bool,
    prev_allow: bool,
    indent: Seq<char>,
)
    ensures
        render_list_items(items, i, fmt, out, sep, inlined, ext_connect, appended, prev_allow, indent).len()
            <= out.len() + crate::hint_items(items, i),
    decreases items, 0int, items.len() - i,
{
    crate::lemma_hint_items_nonneg(items, i);
    if 0 <= i < items.len() {
        crate::lemma_hint_code_nonneg(items[i]);
        if crate::empty_code(items[i]) {
            lemma_hint_bounds_list_items(
                items,
                i + 1,
                fmt,
                out,
                sep,
                inlined,
                ext_connect,
                appended,
                prev_allow,
                indent,
            );
        } else {
            let c = items[i];
            let out1 = if out.len() > 0 && appended {
                out.update(out.len() - 1, out.last() + sep)
            } else {
                out
            };
            let conn = if appended {
                inlined || (prev_allow && !(c matches Code::Block(b) && inline_block(*b)))
            } else {
                ext_connect
            };
            let out2 = render_code(c, fmt, out1, conn, indent);
            lemma_hint_bounds_code(c, fmt, out1, conn, indent);
            lemma_hint_bounds_list_items(
                items,
                i + 1,
                fmt,
                out2,
                sep,
                inlined,
                ext_connect,
                true,
                out2.len() > out.len() + 1,
                indent,
            );
        }
    }
}

/// Appending a line reads the buffer only through its last line: the lines
/// before it are carried over unchanged.
proof fn lemma_context_append(out: Seq<Seq<char>>, text: Seq<char>, connect: bool, indent: Seq<char>)
    requires
        out.len() > 0,
    ensures
        append_lines(out, text, connect, indent) == out.drop_last() + append_lines(
            seq![out.last()],
            text,
            connect,
            indent,
        ),
{
    assert(append_lines(out, text, connect, indent) =~= out.drop_last() + append_lines(
        seq![out.last()],
        text,
        connect,
        indent,
    ));
}

/// Rendering a fragment reads the buffer only through its last line: the
/// lines before it are carried over unchanged.
pub proof fn lemma_context_code(
    c: Code,
    fmt: Format,
    out: Seq<Seq<char>>,
    connect: bool,
    indent: Seq<char>,
)
    requires
        out.len() > 0,
    ensures
        render_code(c, fmt, out, connect, indent) == out.drop_last() + render_code(
            c,
            fmt,
            seq![out.last()],
            connect,
            indent,
        ),
    decreases c, 0int, 0int,
{
    match c {
        Code::Line(t) => lemma_context_append(out, t@, connect, indent),
        Code::Block(b) => lemma_context_block(*b, fmt, out, connect, indent),
        Code::Concat(cc) => lemma_context_items(cc.body@, 0, fmt, out, connect, false, indent),
        Code::List(l) => lemma_context_list(l, fmt, out, connect, indent),
    }
}

/// Rendering a run of items reads the buffer only through its last line.
pub proof fn lemma_context_items(
    items: Seq<Code>,
    i: int,
    fmt: Format,
    out: Seq<Seq<char>>,
    connect_first: bool,
    connect_rest: bool,
    indent: Seq<char>,
)
    requires
        out.len() > 0,
    ensures
        render_items(items, i, fmt, out, connect_first, connect_rest, indent) == out.drop_last()
            + render_items(items, i, fmt, seq![out.last()], connect_first, connect_rest, indent),
    decreases items, 0int, items.len() - i,
{
    let ctx = out.drop_last();
    let single = seq![out.last()];
    if i < 0 || i >= items.len() {
        assert(out =~= ctx + single);
    } else {
        let x = render_code(items[i], fmt, out, connect_first, indent);
        let y = render_code(items[i], fmt, single, connect_first, indent);
        lemma_context_code(items[i], fmt, out, connect_first, indent);
        lemma_render_grows_code(items[i], fmt, single, connect_first, indent);
        assert(x == ctx + y);
        assert(y.len() >= 1);
        assert(x.len() >= 1);
        lemma_context_items(items, i + 1, fmt, x, connect_rest, connect_rest, indent);
        lemma_context_items(items, i + 1, fmt, y, connect_rest, connect_rest, indent);
        assert(x.drop_last() =~= ctx + y.drop_last());
        assert(x.last() == y.last());
        assert((ctx + y.drop_last()) + render_items(
            items,
            i + 1,
            fmt,
            seq![y.last()],
            connect_rest,
            connect_rest,
            indent,
        ) =~= ctx + (y.drop_last() + render_items(
            items,
            i + 1,
            fmt,
            seq![y.last()],
            connect_rest,
            connect_rest,
            indent,
        )));
    }
}

/// Rendering a block reads the buffer only through its last line.
pub proof fn lemma_context_block(
    b: Block,
    fmt: Format,
    out: Seq<Seq<char>>,
    connect: bool,
    indent: Seq<char>,
)
    requires
        out.len() > 0,
    ensures
        render_block(b, fmt, out, connect, indent) == out.drop_last() + render_block(
            b,
            fmt,
            seq![out.last()],
            connect,
            indent,
        ),
    decreases b, 1int, 0int,
{
    let ctx = out.drop_last();
    let single = seq![out.last()];
    let conn = b.connect || connect;
    let s1 = append_lines(out, b.start@, conn, indent);
    let s0 = append_lines(single, b.start@, conn, indent);
    lemma_context_append(out, b.start@, conn, indent);
    lemma_append_grows(single, b.start@, conn, indent);
    lemma_append_grows(out, b.start@, conn, indent);
    assert(s1 == ctx + s0);
    assert(s1.drop_last() =~= ctx + s0.drop_last());
    assert(s1.last() == s0.last());
    let items = b.concat_body.body@;
    let flag = inline_block(b);
    let ind2 = if flag {
        indent
    } else {
        crate::indent_unit(fmt) + indent
    };
    let cf = flag;
    let body1 = render_items(items, 0, fmt, s1, cf, cf, ind2);
    let body0 = render_items(items, 0, fmt, s0, cf, cf, ind2);
    lemma_context_items(items, 0, fmt, s1, cf, cf, ind2);
    lemma_context_items(items, 0, fmt, s0, cf, cf, ind2);
    lemma_render_grows_items(items, 0, fmt, s0, cf, cf, ind2);
    assert(body1 == s1.drop_last() + render_items(items, 0, fmt, seq![s1.last()], cf, cf, ind2));
    assert(body0 == s0.drop_last() + render_items(items, 0, fmt, seq![s0.last()], cf, cf, ind2));
    assert(body1 =~= ctx + body0);
    assert(body0.len() >= 1);
    lemma_context_append(body1, b.end@, flag, indent);
    lemma_context_append(body0, b.end@, flag, indent);
    assert(body1.drop_last() =~= ctx + body0.drop_last());
    assert(body1.last() == body0.last());
    assert(append_lines(body1, b.end@, flag, indent) =~= ctx + append_lines(
        body0,
        b.end@,
        flag,
        indent,
    ));
}

/// Rendering a list reads the buffer only through its last line.
pub proof fn lemma_context_list(
    l: List,
    fmt: Format,
    out: Seq<Seq<char>>,
    connect: bool,
    indent: Seq<char>,
)
    requires
        out.len() > 0,
    ensures
        render_list(l, fmt, out, connect, indent) == out.drop_last() + render_list(
            l,
            fmt,
            seq![out.last()],
            connect,
            indent,
        ),
    decreases l, 1int, 0int,
{
    let ctx = out.drop_last();
    let single = seq![out.last()];
    let items = l.concat_body.body@;
    let sep = l.separator@;
    let flag = inline_list(l);
    let after1 = render_list_items(items, 0, fmt, out, sep, flag, connect, false, connect, indent);
    let after0 = render_list_items(
        items,
        0,
        fmt,
        single,
        sep,
        flag,
        connect,
        false,
        connect,
        indent,
    );
    lemma_context_list_items(items, 0, fmt, out, sep, flag, connect, false, connect, indent);
    lemma_render_grows_list_items(items, 0, fmt, single, sep, flag, connect, false, connect, indent);
    assert(after1 == ctx + after0);
    assert(after0.len() >= 1);
    assert(after1.len() >= 1);
    let trail1 = match l.trailing {
        Trailing::IfMultiLine => after1.len() > out.len() + 1,
        Trailing::Always => true,
        Trailing::Never => false,
    };
    let trail0 = match l.trailing {
        Trailing::IfMultiLine => after0.len() > single.len() + 1,
        Trailing::Always => true,
        Trailing::Never => false,
    };
    assert(trail1 == trail0);
    if trail1 {
        assert(after1.update(after1.len() - 1, after1.last() + sep) =~= ctx + after0.update(
            after0.len() - 1,
            after0.last() + sep,
        ));
    }
}

/// Rendering a run of list items reads the buffer only through its last line.
pub proof fn lemma_context_list_items(
    items: Seq<Code>,
    i: int,
    fmt: Format,
    out: Seq<Seq<char>>,
    sep: Seq<char>,
    inlined: bool,
    ext_connect: bool,
    appended: bool,
    prev_allow: bool,
    indent: Seq<char>,
)
    requires
        out.len() > 0,
    ensures
        render_list_items(items, i, fmt, out, sep, inlined, ext_connect, appended, prev_allow, indent)
            == out.drop_last() + render_list_items(
            items,
            i,
            fmt,
            seq![out.last()],
            sep,
            inlined,
            ext_connect,
            appended,
            prev_allow,
            indent,
        ),
    decreases items, 0int, items.len() - i,
{
    let ctx = out.drop_last();
    let single = seq![out.last()];
    if i < 0 || i >= items.len() {
        assert(out =~= ctx + single);
    } else if crate::empty_code(items[i]) {
        lemma_context_list_items(
            items,
            i + 1,
            fmt,
            out,
            sep,
            inlined,
            ext_connect,
            appended,
            prev_allow,
            indent,
        );
    } else {
        let c = items[i];
        let out1 = if out.len() > 0 && appended {
            out.update(out.len() - 1, out.last() + sep)
        } else {
            out
        };
        let single1 = if single.len() > 0 && appended {
            single.update(single.len() - 1, single.last() + sep)
        } else {
            single
        };
        assert(out1.drop_last() =~= ctx);
        assert(single1 =~= seq![out1.last()]);
        let conn = if appended {
            inlined || (prev_allow && !(c matches Code::Block(b) && inline_block(*b)))
        } else {
            ext_connect
        };
        let x = render_code(c, fmt, out1, conn, indent);
        let y = render_code(c, fmt, single1, conn, indent);
        lemma_context_code(c, fmt, out1, conn, indent);
        lemma_render_grows_code(c, fmt, single1, conn, indent);
        assert(x == out1.drop_last() + render_code(c, fmt, seq![out1.last()], conn, indent));
        assert(x == ctx + y);
        assert(y.len() >= 1);
        assert(x.len() >= 1);
        let pa1 = x.len() > out.len() + 1;
        let pa0 = y.len() > single.len() + 1;
        assert(pa1 == pa0);
        lemma_context_list_items(items, i + 1, fmt, x, sep, inlined, ext_connect, true, pa1, indent);
        lemma_context_list_items(items, i + 1, fmt, y, sep, inlined, ext_connect, true, pa0, indent);
        assert(x.drop_last() =~= ctx + y.drop_last());
        assert(x.last() == y.last());
        assert((ctx + y.drop_last()) + render_list_items(
            items,
            i + 1,
            fmt,
            seq![y.last()],
            sep,
            inlined,
            ext_connect,
            true,
            pa0,
            indent,
        ) =~= ctx + (y.drop_last() + render_list_items(
            items,
            i + 1,
            fmt,
            seq![y.last()],
            sep,
            inlined,
            ext_connect,
            true,
            pa0,
            indent,
        )));
    }
}

/// A concatenation whose right part holds a visible character is not blank.
proof fn lemma_blank_concat(a: Seq<char>, b: Seq<char>)
    requires
        !blank(b),
    ensures
        !blank(a + b),
{
    let i = choose|i: int| 0 <= i < b.len() && !is_space(b[i]);
    assert((a + b)[a.len() + i] == b[i]);
}

/// A block that does not connect renders after a single non-blank line just
/// as it renders from an empty buffer: the previous line is left alone and
/// the block's lines follow it.
pub proof fn lemma_block_fresh(b: Block, fmt: Format, prev: Seq<char>, indent: Seq<char>)
    requires
        !b.connect,
        !blank(prev),
    ensures
        render_block(b, fmt, seq![prev], false, indent) == seq![prev] + render_block(
            b,
            fmt,
            Seq::empty(),
            false,
            indent,
        ),
{
    let ctx = seq![prev];
    let s1 = append_lines(ctx, b.start@, false, indent);
    let s0 = append_lines(Seq::empty(), b.start@, false, indent);
    assert(s1 =~= ctx + s0);
    assert(s1.drop_last() =~= ctx + s0.drop_last());
    assert(s1.last() == s0.last());
    let items = b.concat_body.body@;
    let flag = inline_block(b);
    let ind2 = if flag {
        indent
    } else {
        crate::indent_unit(fmt) + indent
    };
    let body1 = render_items(items, 0, fmt, s1, flag, flag, ind2);
    let body0 = render_items(items, 0, fmt, s0, flag, flag, ind2);
    lemma_context_items(items, 0, fmt, s1, flag, flag, ind2);
    lemma_context_items(items, 0, fmt, s0, flag, flag, ind2);
    lemma_render_grows_items(items, 0, fmt, s0, flag, flag, ind2);
    assert(body1 =~= ctx + body0);
    assert(body0.len() >= 1);
    lemma_context_append(body1, b.end@, flag, indent);
    lemma_context_append(body0, b.end@, flag, indent);
    assert(body1.drop_last() =~= ctx + body0.drop_last());
    assert(body1.last() == body0.last());
    assert(append_lines(body1, b.end@, flag, indent) =~= ctx + append_lines(
        body0,
        b.end@,
        flag,
        indent,
    ));
}

/// A block that does not inline always ends with its own end line, at the
/// block's indent.
pub proof fn lemma_block_last(
    b: Block,
    fmt: Format,
    out: Seq<Seq<char>>,
    connect: bool,
    indent: Seq<char>,
)
    requires
        !inline_block(b),
    ensures
        render_block(b, fmt, out, connect, indent).len() >= 1,
        render_block(b, fmt, out, connect, indent).last() == indent + b.end@,
{
}

/// Nesting a non-inlined, non-connected block one level deeper shifts it by
/// exactly one indent unit: a block whose body is a single such inner block
/// renders as its own start line at the outer indent, the inner block's
/// rendering at one indent unit deeper, and its own end line at the outer
/// indent. Repeated wrapping therefore prefixes a fragment's lines with one
/// more indent unit per enclosing block.
pub proof fn lemma_indent_monotonic(outer: Block, inner: Block, fmt: Format, indent: Seq<char>)
    requires
        !outer.connect,
        !inner.connect,
        !inline_block(outer),
        !inline_block(inner),
        !blank(outer.start@),
        !blank(inner.end@),
        outer.concat_body.body@.len() == 1,
        outer.concat_body.body@[0] matches Code::Block(bx) && *bx == inner,
    ensures
        render_block(outer, fmt, Seq::empty(), false, indent) == seq![indent + outer.start@]
            + render_block(inner, fmt, Seq::empty(), false, crate::indent_unit(fmt) + indent)
            + seq![indent + outer.end@],
{
    let items = outer.concat_body.body@;
    let deeper = crate::indent_unit(fmt) + indent;
    let s0 = append_lines(Seq::empty(), outer.start@, false, indent);
    assert(s0 =~= seq![indent + outer.start@]);
    let body = render_items(items, 0, fmt, s0, false, false, deeper);
    assert(render_code(items[0], fmt, s0, false, deeper) == render_block(
        inner,
        fmt,
        s0,
        false,
        deeper,
    ));
    lemma_blank_concat(indent, outer.start@);
    assert(s0 == seq![indent + outer.start@]);
    lemma_block_fresh(inner, fmt, indent + outer.start@, deeper);
    let nested = render_block(inner, fmt, Seq::empty(), false, deeper);
    assert(render_block(inner, fmt, s0, false, deeper) == s0 + nested);
    lemma_block_last(inner, fmt, Seq::empty(), false, deeper);
    assert(nested.len() >= 1);
    assert(body == render_items(
        items,
        1,
        fmt,
        render_code(items[0], fmt, s0, false, deeper),
        false,
        false,
        deeper,
    ));
    assert(render_items(items, 1, fmt, s0 + nested, false, false, deeper) == s0 + nested);
    assert(body == s0 + nested);
    lemma_blank_concat(deeper, inner.end@);
    assert((s0 + nested).last() == deeper + inner.end@);
    assert(!blank((s0 + nested).last()));
    let fin = append_lines(s0 + nested, outer.end@, false, indent);
    assert(fin =~= (seq![indent + outer.start@] + nested) + seq![indent + outer.end@]);
    assert(render_block(outer, fmt, Seq::empty(), false, indent) == fin);
}

/// Whether level `k` of the chain is a block whose whole body is the chain's
/// next block.
pub open spec fn wraps_next(chain: Seq<Block>, k: int) -> bool {
    &&& chain[k].concat_body.body@.len() == 1
    &&& chain[k].concat_body.body@[0] matches Code::Block(bx) && *bx == chain[k + 1]
}

/// Whether level `k` of the chain is an ordinary wrapper: not connected, not
/// inlined, with visible text in its start and end lines.
pub open spec fn plain_wrapper(chain: Seq<Block>, k: int) -> bool {
    &&& !chain[k].connect
    &&& !inline_block(chain[k])
    &&& !blank(chain[k].start@)
    &&& !blank(chain[k].end@)
}

/// Whether the chain is a tower of plain wrappers, each holding the next as
/// its only body item.
pub open spec fn nested_chain(chain: Seq<Block>) -> bool {
    &&& forall|k: int| 0 <= k < chain.len() - 1 ==> #[trigger] wraps_next(chain, k)
    &&& forall|k: int| 0 <= k < chain.len() ==> #[trigger] plain_wrapper(chain, k)
}

/// The lines a tower of wrappers lays out, level `k` on down: each level
/// contributes its start line and its end line at its own indent, and every
/// deeper level sits one indent unit further in.
pub open spec fn nested_lines(chain: Seq<Block>, k: int, fmt: Format, indent: Seq<char>) -> Seq<
    Seq<char>,
>
    decreases chain.len() - k,
{
    if k < 0 || k >= chain.len() {
        Seq::empty()
    } else if k == chain.len() - 1 {
        render_block(chain[k], fmt, Seq::empty(), false, indent)
    } else {
        seq![indent + chain[k].start@] + nested_lines(
            chain,
            k + 1,
            fmt,
            crate::indent_unit(fmt) + indent,
        ) + seq![indent + chain[k].end@]
    }
}

/// Indentation grows monotonically with nesting: a block nested inside `n`
/// enclosing plain wrappers renders with each wrapper's start and end lines
/// at that wrapper's depth, and every level indented exactly one unit more
/// than the one around it.
pub proof fn lemma_indent_monotonic_chain(
    chain: Seq<Block>,
    k: int,
    fmt: Format,
    indent: Seq<char>,
)
    requires
        0 <= k < chain.len(),
        nested_chain(chain),
    ensures
        render_block(chain[k], fmt, Seq::empty(), false, indent) == nested_lines(
            chain,
            k,
            fmt,
            indent,
        ),
    decreases chain.len() - k,
{
    assert(plain_wrapper(chain, k));
    if k < chain.len() - 1 {
        assert(wraps_next(chain, k));
        assert(plain_wrapper(chain, k + 1));
        lemma_indent_monotonic_chain(chain, k + 1, fmt, crate::indent_unit(fmt) + indent);
        lemma_indent_monotonic(chain[k], chain[k + 1], fmt, indent);
    }
}

} // verus!

