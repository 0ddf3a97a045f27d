//! A text rendering of a layout tree: one line per block tag (with its
//! notable style) and per line of text, indented by depth.
use vstd::prelude::*;
use crate::layout::{BoxKind, BoxModel, BoxStyle, LayoutBox, LayoutKind};
use crate::style::{FontWeight, append_str};
use crate::text::{chars_of, rtrim, str_is, string_of, is_whitespace};

verus! {

pub open spec fn indent(depth: usize) -> Seq<char> {
    Seq::new((2 * depth) as nat, |i: int| ' ')
}

/// The notable parts of a block's style: a color other than `default`, a
/// background, bold text.
pub open spec fn suffix_of(st: BoxStyle) -> Seq<char> {
    (if st.color != "default"@ {
        " color="@ + st.color
    } else {
        Seq::empty()
    }) + (match st.background {
        Some(bg) => " bg="@ + bg,
        None => Seq::empty(),
    }) + (if st.font_weight == FontWeight::Bold {
        " weight=bold"@
    } else {
        Seq::empty()
    })
}

pub open spec fn child_depth(b: BoxModel, depth: usize) -> usize {
    match b.kind {
        BoxKind::Document => depth,
        _ => if depth < usize::MAX {
            (depth + 1) as usize
        } else {
            depth
        },
    }
}

/// The text of a box at `depth`: its tag line, its lines of text, then its
/// children one level deeper (the document adds no level).
pub open spec fn render_text(b: BoxModel, depth: usize) -> Seq<char>
    decreases b, b.children.len() + 1,
{
    let head = match b.kind {
        BoxKind::Block(tag) => indent(depth) + "<"@ + tag + suffix_of(b.style) + ">\n"@,
        _ => Seq::empty(),
    };
    head + render_lines(b.lines.map_values(|l: crate::layout::Line| l.text), depth) + render_kids(
        b,
        b.children.len() as int,
        child_depth(b, depth),
    )
}

pub open spec fn render_lines(texts: Seq<Seq<char>>, depth: usize) -> Seq<char>
    decreases texts.len(),
{
    if texts.len() == 0 {
        Seq::empty()
    } else {
        render_lines(texts.drop_last(), depth) + indent(depth) + texts.last() + "\n"@
    }
}

pub open spec fn render_kids(b: BoxModel, k: int, depth: usize) -> Seq<char>
    decreases b, k,
{
    if k <= 0 || k > b.children.len() {
        Seq::empty()
    } else {
        render_kids(b, k - 1, depth) + render_text(b.children[k - 1], depth)
    }
}

/// The text rendering of a layout, without trailing whitespace.
pub open spec fn render_spec(b: BoxModel) -> Seq<char> {
    rtrim(render_text(b, 0))
}

fn push_lit(out: &mut String, lit: &str)
    ensures
        final(out)@ == old(out)@ + lit@,
{
    let v = chars_of(lit);
    let s = string_of(&v, 0, v.len());
    assert(v@.subrange(0, v.len() as int) =~= lit@);
    append_str(out, &s);
}

fn push_indent(out: &mut String, depth: usize)
    ensures
        final(out)@ == old(out)@ + indent(depth),
{
    let mut i: usize = 0;
    while i < depth
        invariant
            i <= depth,
            out@ == old(out)@ + Seq::new((2 * i) as nat, |j: int| ' '),
        decreases depth - i,
    {
        out.push(' ');
        out.push(' ');
        assert(Seq::new((2 * (i + 1)) as nat, |j: int| ' ') =~= Seq::new(
            (2 * i) as nat,
            |j: int| ' ',
        ).push(' ').push(' '));
        i = i + 1;
    }
}

fn style_suffix(layout: &LayoutBox) -> (r: String)
    ensures
        r@ == suffix_of(layout@.style),
{
    let mut out = String::new();
    if !str_is(layout.style.color.as_str(), "default") {
        push_lit(&mut out, " color=");
        append_str(&mut out, &layout.style.color);
    }
    let ghost a = out@;
    if let Some(background) = &layout.style.background_color {
        push_lit(&mut out, " bg=");
        append_str(&mut out, background);
    }
    let ghost b = out@;
    if layout.style.font_weight == FontWeight::Bold {
        push_lit(&mut out, " weight=bold");
    }
    proof {
        let st = layout@.style;
        let p1 = if st.color != "default"@ {
            " color="@ + st.color
        } else {
            Seq::empty()
        };
        let p2 = match st.background {
            Some(bg) => " bg="@ + bg,
            None => Seq::empty(),
        };
        assert(a =~= p1);
        assert(b =~= p1 + p2);
        assert(out@ =~= suffix_of(st));
    }
    out
}

/// Appends the rendering of a box (see `render_text`).
pub fn render_box(layout: &LayoutBox, depth: usize, output: &mut String)
    ensures
        final(output)@ == old(output)@ + render_text(layout@, depth),
    decreases layout,
{
    let ghost b = layout@;
    let ghost out0 = output@;
    match &layout.kind {
        LayoutKind::Block { tag_name } => {
            push_indent(output, depth);
            push_lit(output, "<");
            append_str(output, tag_name);
            let suffix = style_suffix(layout);
            append_str(output, &suffix);
            push_lit(output, ">\n");
        },
        _ => {},
    }
    let ghost head = output@;
    proof {
        let h = match b.kind {
            BoxKind::Block(tag) => indent(depth) + "<"@ + tag + suffix_of(b.style) + ">\n"@,
            _ => Seq::empty(),
        };
        assert(head =~= out0 + h);
    }
    let ghost texts = b.lines.map_values(|l: crate::layout::Line| l.text);
    let mut i: usize = 0;
    while i < layout.lines.len()
        invariant
            i <= layout.lines.len(),
            b == layout@,
            texts == b.lines.map_values(|l: crate::layout::Line| l.text),
            output@ == head + render_lines(texts.subrange(0, i as int), depth),
        decreases layout.lines.len() - i,
    {
        push_indent(output, depth);
        append_str(output, &layout.lines[i].text);
        push_lit(output, "\n");
        proof {
            assert(texts.subrange(0, i + 1).drop_last() =~= texts.subrange(0, i as int));
            assert(texts[i as int] == layout.lines@[i as int].text@);
        }
        i = i + 1;
    }
    proof {
        assert(texts.subrange(0, i as int) =~= texts);
    }
    let ghost mid = output@;
    let next_depth = match &layout.kind {
        LayoutKind::Document => depth,
        _ => depth.saturating_add(1),
    };
    let mut k: usize = 0;
    while k < layout.children.len()
        invariant
            k <= layout.children.len(),
            b == layout@,
            next_depth == child_depth(b, depth),
            output@ == mid + render_kids(b, k as int, next_depth),
        decreases layout.children.len() - k,
    {
        let child = &layout.children[k];
        proof {
            assert(b.children[k as int] == child@);
        }
        render_box(child, next_depth, output);
        k = k + 1;
    }
    proof {
        assert(output@ =~= out0 + render_text(b, depth));
    }
}

/// Renders a layout as text (see `render_spec`).
pub fn render(layout: &LayoutBox) -> (r: String)
    ensures
        r@ == render_spec(layout@),
{
    let mut output = String::new();
    render_box(layout, 0, &mut output);
    assert(output@ =~= render_text(layout@, 0));
    let v = chars_of(output.as_str());
    let mut e = v.len();
    proof {
        assert(v@.subrange(0, e as int) =~= v@);
    }
    while e > 0 && is_whitespace(v[e - 1])
        invariant
            e <= v.len(),
            rtrim(v@) == rtrim(v@.subrange(0, e as int)),
        decreases e,
    {
        assert(v@.subrange(0, e as int).drop_last() =~= v@.subrange(0, e - 1));
        e = e - 1;
    }
    string_of(&v, 0, e)
}

} // verus!
