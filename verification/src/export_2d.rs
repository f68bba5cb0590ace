//! Text rules of the 2D panel exports.

use vstd::prelude::*;
use vstd::string::StringExecFns;
use crate::text::{push_char, tagged_at};

verus! {

/// What one character becomes inside XML text or an attribute value.
pub open spec fn xml_escape_char(c: char) -> Seq<char> {
    if c == '&' {
        seq!['&', 'a', 'm', 'p', ';']
    } else if c == '<' {
        seq!['&', 'l', 't', ';']
    } else if c == '>' {
        seq!['&', 'g', 't', ';']
    } else if c == '"' {
        seq!['&', 'q', 'u', 'o', 't', ';']
    } else {
        seq![c]
    }
}

/// `s` with `&`, `<`, `>` and `"` replaced by their XML entities, every other character kept.
pub open spec fn xml_escaped(s: Seq<char>) -> Seq<char>
    decreases s.len(),
{
    if s.len() == 0 {
        Seq::empty()
    } else {
        xml_escaped(s.drop_last()) + xml_escape_char(s.last())
    }
}

/// Escaped text never holds a raw `<`, `>` or `"`.
pub proof fn lemma_escaped_has_no_markup(s: Seq<char>)
    ensures
        forall|i: int|
            0 <= i < xml_escaped(s).len() ==> {
                let c = #[trigger] xml_escaped(s)[i];
                c != '<' && c != '>' && c != '"'
            },
    decreases s.len(),
{
    if s.len() > 0 {
        lemma_escaped_has_no_markup(s.drop_last());
        let a = xml_escaped(s.drop_last());
        let b = xml_escape_char(s.last());
        assert forall|i: int| 0 <= i < xml_escaped(s).len() implies {
            let c = #[trigger] xml_escaped(s)[i];
            c != '<' && c != '>' && c != '"'
        } by {
            if i < a.len() {
                assert(xml_escaped(s)[i] == a[i]);
            } else {
                assert(xml_escaped(s)[i] == b[i - a.len()]);
            }
        }
    }
}

/// Decodes the four entities produced by escaping; every other character stands for itself.
pub open spec fn xml_unescaped(s: Seq<char>) -> Seq<char>
    decreases s.len(),
{
    if s.len() == 0 {
        Seq::empty()
    } else if s.len() >= 5 && s.take(5) == seq!['&', 'a', 'm', 'p', ';'] {
        seq!['&'] + xml_unescaped(s.skip(5))
    } else if s.len() >= 4 && s.take(4) == seq!['&', 'l', 't', ';'] {
        seq!['<'] + xml_unescaped(s.skip(4))
    } else if s.len() >= 4 && s.take(4) == seq!['&', 'g', 't', ';'] {
        seq!['>'] + xml_unescaped(s.skip(4))
    } else if s.len() >= 6 && s.take(6) == seq!['&', 'q', 'u', 'o', 't', ';'] {
        seq!['"'] + xml_unescaped(s.skip(6))
    } else {
        seq![s[0]] + xml_unescaped(s.skip(1))
    }
}

proof fn lemma_unescape_escaped_char(c: char, t: Seq<char>)
    ensures
        xml_unescaped(xml_escape_char(c) + t) == seq![c] + xml_unescaped(t),
{
    let u = xml_escape_char(c) + t;
    let amp = seq!['&', 'a', 'm', 'p', ';'];
    let lt = seq!['&', 'l', 't', ';'];
    let gt = seq!['&', 'g', 't', ';'];
    let quot = seq!['&', 'q', 'u', 'o', 't', ';'];
    if c == '&' {
        assert(u.take(5) =~= amp);
        assert(u.skip(5) =~= t);
    } else if c == '<' {
        assert(u[1] == 'l');
        assert(u.len() >= 5 ==> u.take(5)[1] != amp[1]);
        assert(u.take(4) =~= lt);
        assert(u.skip(4) =~= t);
    } else if c == '>' {
        assert(u[1] == 'g');
        assert(u.len() >= 5 ==> u.take(5)[1] != amp[1]);
        assert(u.take(4)[1] != lt[1]);
        assert(u.take(4) =~= gt);
        assert(u.skip(4) =~= t);
    } else if c == '"' {
        assert(u[1] == 'q');
        assert(u.take(5)[1] != amp[1]);
        assert(u.take(4)[1] != lt[1]);
        assert(u.take(4)[1] != gt[1]);
        assert(u.take(6) =~= quot);
        assert(u.skip(6) =~= t);
    } else {
        assert(u[0] == c);
        assert(u.len() >= 5 ==> u.take(5)[0] != amp[0]);
        assert(u.len() >= 4 ==> u.take(4)[0] != lt[0]);
        assert(u.len() >= 4 ==> u.take(4)[0] != gt[0]);
        assert(u.len() >= 6 ==> u.take(6)[0] != quot[0]);
        assert(u.skip(1) =~= t);
    }
}

proof fn lemma_escaped_from_front(s: Seq<char>)
    requires
        s.len() > 0,
    ensures
        xml_escaped(s) == xml_escape_char(s[0]) + xml_escaped(s.drop_first()),
    decreases s.len(),
{
    if s.len() == 1 {
        assert(s.drop_last() =~= Seq::<char>::empty());
        assert(s.drop_first() =~= Seq::<char>::empty());
        assert(xml_escaped(s.drop_last()) == Seq::<char>::empty());
        assert(xml_escaped(s.drop_first()) == Seq::<char>::empty());
        assert(s.last() == s[0]);
        assert(xml_escaped(s) =~= xml_escape_char(s[0]) + xml_escaped(s.drop_first()));
    } else {
        lemma_escaped_from_front(s.drop_last());
        assert(s.drop_last().drop_first() =~= s.drop_first().drop_last());
        assert(s.drop_last()[0] == s[0]);
        assert(s.drop_first().last() == s.last());
        assert(xml_escaped(s) =~= xml_escape_char(s[0]) + xml_escaped(s.drop_first()));
    }
}

/// Escaping loses nothing: decoding the entities gives back the original text.
pub proof fn lemma_unescape_after_escape(s: Seq<char>)
    ensures
        xml_unescaped(xml_escaped(s)) == s,
    decreases s.len(),
{
    if s.len() == 0 {
        assert(xml_escaped(s) =~= Seq::<char>::empty());
    } else {
        lemma_escaped_from_front(s);
        lemma_unescape_after_escape(s.drop_first());
        lemma_unescape_escaped_char(s[0], xml_escaped(s.drop_first()));
        assert(seq![s[0]] + s.drop_first() =~= s);
    }
}

/// Text without `&`, `<`, `>` or `"` is left as it is.
pub proof fn lemma_escape_plain_text_unchanged(s: Seq<char>)
    requires
        forall|i: int|
            0 <= i < s.len() ==> {
                let c = #[trigger] s[i];
                c != '&' && c != '<' && c != '>' && c != '"'
            },
    ensures
        xml_escaped(s) == s,
    decreases s.len(),
{
    if s.len() > 0 {
        let t = s.drop_last();
        assert forall|i: int| 0 <= i < t.len() implies {
            let c = #[trigger] t[i];
            c != '&' && c != '<' && c != '>' && c != '"'
        } by {
            assert(t[i] == s[i]);
        }
        lemma_escape_plain_text_unchanged(t);
        assert(s.last() == s[s.len() - 1]);
        assert(xml_escaped(s) =~= s);
    }
}

fn push_escaped_char(out: &mut String, c: char)
    ensures
        final(out)@ == old(out)@ + xml_escape_char(c),
{
    let ghost before = out@;
    if c == '&' {
        push_char(out, '&');
        push_char(out, 'a');
        push_char(out, 'm');
        push_char(out, 'p');
        push_char(out, ';');
    } else if c == '<' {
        push_char(out, '&');
        push_char(out, 'l');
        push_char(out, 't');
        push_char(out, ';');
    } else if c == '>' {
        push_char(out, '&');
        push_char(out, 'g');
        push_char(out, 't');
        push_char(out, ';');
    } else if c == '"' {
        push_char(out, '&');
        push_char(out, 'q');
        push_char(out, 'u');
        push_char(out, 'o');
        push_char(out, 't');
        push_char(out, ';');
    } else {
        push_char(out, c);
    }
    assert(out@ =~= before + xml_escape_char(c));
}

/// Escapes `s` for XML text and attribute values.
pub fn escape_xml(s: &str) -> (r: String)
    ensures
        r@ == xml_escaped(s@),
        forall|i: int| 0 <= i < r@.len() ==> #[trigger] r@[i] != '<' && r@[i] != '>' && r@[i] != '"',
        xml_unescaped(r@) == s@,
{
    broadcast use vstd::string::group_string_axioms;
    let mut out = String::new();
    for c in it: s.chars()
        invariant
            it.seq() == s@,
            out@ == xml_escaped(s@.take(it.index() as int)),
    {
        push_escaped_char(&mut out, c);
        assert(s@.take(it.index() as int + 1).drop_last() =~= s@.take(it.index() as int));
    }
    assert(s@.take(s@.len() as int) =~= s@);
    proof {
        lemma_escaped_has_no_markup(s@);
        lemma_unescape_after_escape(s@);
    }
    out
}

/// One panel of the SVG cut sheet, its numbers already rendered as text.
pub struct SvgPanelText {
    /// Part id, used as the group id.
    pub id: String,
    /// Part label, shown as the caption (escaped on output).
    pub label: String,
    /// Horizontal offset of the panel on the sheet.
    pub x: String,
    /// Vertical offset of the panel on the sheet.
    pub y: String,
    /// Rectangle width.
    pub width: String,
    /// Rectangle height.
    pub height: String,
    /// Baseline of the dimension caption.
    pub caption_y: String,
    /// Width rounded to whole millimetres, for the caption.
    pub width_rounded: String,
    /// Height rounded to whole millimetres, for the caption.
    pub height_rounded: String,
}

/// The SVG group of one panel: outline rectangle, escaped label and dimension caption.
pub open spec fn svg_panel_group(p: SvgPanelText) -> Seq<char> {
    "  <g id=\""@ + p.id@ + "\" transform=\"translate("@ + p.x@ + ","@ + p.y@ + ")\">\n"@
        + "    <rect x=\"0\" y=\"0\" width=\""@ + p.width@ + "\" height=\""@ + p.height@
        + "\" fill=\"none\" stroke=\"#111\" stroke-width=\"2\"/>\n"@
        + "    <text x=\"4\" y=\"18\" font-size=\"16\" fill=\"#333\">"@ + xml_escaped(p.label@)
        + "</text>\n"@ + "    <text x=\"4\" y=\""@ + p.caption_y@
        + "\" font-size=\"12\" fill=\"#666\">"@ + p.width_rounded@ + " × "@ + p.height_rounded@
        + " mm</text>\n"@ + "  </g>\n"@
}

/// Where the `translate(` arguments of a panel's group begin.
pub open spec fn svg_translate_start(p: SvgPanelText) -> int {
    ("  <g id=\""@ + p.id@ + "\" transform=\"translate("@).len() as int
}

/// A panel's group is moved to the panel's place on the sheet: right after `translate(` comes
/// the panel's x text, then `,`, then its y text, then `)`, so the group sits at `(x, y)`.
pub proof fn lemma_svg_group_translate(p: SvgPanelText)
    ensures
        ({
            let g = svg_panel_group(p);
            let k = svg_translate_start(p);
            let kx = k + p.x@.len();
            let ky = kx + 1 + p.y@.len();
            &&& ky < g.len()
            &&& g.subrange(k - 10, k) == "translate("@
            &&& g.subrange(k, kx) == p.x@
            &&& g[kx] == ','
            &&& g.subrange(kx + 1, ky) == p.y@
            &&& g[ky] == ')'
        }),
{
    reveal_strlit("translate(");
    reveal_strlit(",");
    reveal_strlit(")\">\n");
    reveal_strlit("\" transform=\"translate(");
    let g = svg_panel_group(p);
    let pre = "  <g id=\""@ + p.id@ + "\" transform=\"translate("@;
    let k = svg_translate_start(p);
    let kx = k + p.x@.len();
    let ky = kx + 1 + p.y@.len();
    let head = pre + p.x@ + ","@ + p.y@ + ")\">\n"@;
    let rest = g.subrange(head.len() as int, g.len() as int);
    assert(g =~= head + rest);
    assert(g.subrange(k - 10, k) =~= "translate("@);
    assert(g.subrange(k, kx) =~= p.x@);
    assert(g[kx] == ',');
    assert(g.subrange(kx + 1, ky) =~= p.y@);
    assert(g[ky] == ')');
}

/// A panel's outline rectangle has the panel's size: right after the group's opening tag, the
/// rectangle's `width` is the panel's width text and its `height` the panel's height text.
pub proof fn lemma_svg_group_rect_size(p: SvgPanelText)
    ensures
        ({
            let g = svg_panel_group(p);
            let kw: int = svg_translate_start(p) + p.x@.len() + 1 + p.y@.len() + 4 + 29;
            let kh: int = kw + p.width@.len() + 10;
            &&& tagged_at(g, kw, "    <rect x=\"0\" y=\"0\" width=\""@, p.width@)
            &&& tagged_at(g, kh, "\" height=\""@, p.height@)
        }),
{
    reveal_strlit("    <rect x=\"0\" y=\"0\" width=\"");
    reveal_strlit("\" height=\"");
    reveal_strlit(",");
    reveal_strlit(")\">\n");
    let g = svg_panel_group(p);
    let pre = "  <g id=\""@ + p.id@ + "\" transform=\"translate("@;
    let kw: int = svg_translate_start(p) + p.x@.len() + 1 + p.y@.len() + 4 + 29;
    let kh: int = kw + p.width@.len() + 10;
    let head = pre + p.x@ + ","@ + p.y@ + ")\">\n"@ + "    <rect x=\"0\" y=\"0\" width=\""@
        + p.width@ + "\" height=\""@ + p.height@;
    let rest = g.subrange(head.len() as int, g.len() as int);
    assert(g =~= head + rest);
    assert(g.subrange(kw - 29, kw) =~= "    <rect x=\"0\" y=\"0\" width=\""@);
    assert(g.subrange(kw, kw + p.width@.len()) =~= p.width@);
    assert(g.subrange(kh - 10, kh) =~= "\" height=\""@);
    assert(g.subrange(kh, kh + p.height@.len()) =~= p.height@);
}

/// The groups of the first `count` panels.
pub open spec fn svg_panel_groups(panels: Seq<SvgPanelText>, count: nat) -> Seq<char>
    decreases count,
{
    if count == 0 {
        Seq::empty()
    } else {
        svg_panel_groups(panels, (count - 1) as nat) + svg_panel_group(panels[count - 1])
    }
}

/// The groups of the first `count` panels depend on those panels alone.
pub proof fn lemma_svg_groups_agree(a: Seq<SvgPanelText>, b: Seq<SvgPanelText>, count: nat)
    requires
        count <= a.len(),
        count <= b.len(),
        forall|j: int| 0 <= j < count ==> a[j] == b[j],
    ensures
        svg_panel_groups(a, count) == svg_panel_groups(b, count),
    decreases count,
{
    if count > 0 {
        lemma_svg_groups_agree(a, b, (count - 1) as nat);
    }
}

/// The sheet body is the panels' groups in panel order: around the group of panel `i` stand
/// exactly the groups of the panels before it and, after it, those of the panels after it.
pub proof fn lemma_svg_groups_split(panels: Seq<SvgPanelText>, i: nat, n: nat)
    requires
        i < n <= panels.len(),
    ensures
        svg_panel_groups(panels, n) == svg_panel_groups(panels, i) + svg_panel_group(panels[i as int])
            + svg_panel_groups(panels.subrange(i as int + 1, n as int), (n - i - 1) as nat),
    decreases n,
{
    let after = panels.subrange(i as int + 1, n as int);
    if n == i + 1 {
        assert(svg_panel_groups(after, 0) =~= Seq::<char>::empty());
        assert(svg_panel_groups(panels, n) =~= svg_panel_groups(panels, i) + svg_panel_group(
            panels[i as int],
        ) + svg_panel_groups(after, 0));
    } else {
        let m = (n - i - 1) as nat;
        let shorter = panels.subrange(i as int + 1, n - 1);
        lemma_svg_groups_split(panels, i, (n - 1) as nat);
        lemma_svg_groups_agree(shorter, after, (m - 1) as nat);
        assert(after[m - 1] == panels[n - 1]);
        assert(svg_panel_groups(after, m) == svg_panel_groups(after, (m - 1) as nat)
            + svg_panel_group(panels[n - 1]));
        assert(svg_panel_groups(panels, n) =~= svg_panel_groups(panels, i) + svg_panel_group(
            panels[i as int],
        ) + svg_panel_groups(after, m));
    }
}

/// The SVG sheet around the panel groups, with the sheet size given as text.
pub open spec fn svg_sheet(width: Seq<char>, height: Seq<char>, body: Seq<char>) -> Seq<char> {
    "<svg xmlns=\"http://www.w3.org/2000/svg\" width=\""@ + width + "\" height=\""@ + height
        + "\" viewBox=\"0 0 "@ + width + " "@ + height + "\">\n"@ + body + "</svg>"@
}

/// The sheet's size stands where SVG reads it: the width text after `width="` and again as the
/// third `viewBox` number, the height text after `height="` and as the fourth `viewBox` number;
/// the panel groups follow the opening tag, and the closing tag ends the document.
pub proof fn lemma_svg_sheet_size(width: Seq<char>, height: Seq<char>, body: Seq<char>)
    ensures
        ({
            let s = svg_sheet(width, height, body);
            let kw: int = 47;
            let kh: int = kw + width.len() + 10;
            let kvw: int = kh + height.len() + 15;
            let kvh: int = kvw + width.len() + 1;
            let kb: int = kvh + height.len() + 3;
            &&& tagged_at(s, kw, "width=\""@, width)
            &&& tagged_at(s, kh, "\" height=\""@, height)
            &&& tagged_at(s, kvw, "viewBox=\"0 0 "@, width)
            &&& tagged_at(s, kvh, " "@, height)
            &&& tagged_at(s, kb, "\">\n"@, body)
            &&& s.subrange(kb + body.len(), s.len() as int) == "</svg>"@
        }),
{
    reveal_strlit("<svg xmlns=\"http://www.w3.org/2000/svg\" width=\"");
    reveal_strlit("width=\"");
    reveal_strlit("\" height=\"");
    reveal_strlit("\" viewBox=\"0 0 ");
    reveal_strlit("viewBox=\"0 0 ");
    reveal_strlit(" ");
    reveal_strlit("\">\n");
    reveal_strlit("</svg>");
    let s = svg_sheet(width, height, body);
    let kw: int = 47;
    let kh: int = kw + width.len() + 10;
    let kvw: int = kh + height.len() + 15;
    let kvh: int = kvw + width.len() + 1;
    let kb: int = kvh + height.len() + 3;
    assert(s.subrange(kw - 7, kw) =~= "width=\""@);
    assert(s.subrange(kw, kw + width.len()) =~= width);
    assert(s.subrange(kh - 10, kh) =~= "\" height=\""@);
    assert(s.subrange(kh, kh + height.len()) =~= height);
    assert(s.subrange(kvw - 13, kvw) =~= "viewBox=\"0 0 "@);
    assert(s.subrange(kvw, kvw + width.len()) =~= width);
    assert(s.subrange(kvh - 1, kvh) =~= " "@);
    assert(s.subrange(kvh, kvh + height.len()) =~= height);
    assert(s.subrange(kb - 3, kb) =~= "\">\n"@);
    assert(s.subrange(kb, kb + body.len()) =~= body);
    assert(s.subrange(kb + body.len(), s.len() as int) =~= "</svg>"@);
}

fn push_svg_panel_group(out: &mut String, p: &SvgPanelText)
    ensures
        final(out)@ == old(out)@ + svg_panel_group(*p),
{
    let ghost before = out@;
    out.append("  <g id=\"");
    out.append(p.id.as_str());
    out.append("\" transform=\"translate(");
    out.append(p.x.as_str());
    out.append(",");
    out.append(p.y.as_str());
    out.append(")\">\n");
    out.append("    <rect x=\"0\" y=\"0\" width=\"");
    out.append(p.width.as_str());
    out.append("\" height=\"");
    out.append(p.height.as_str());
    out.append("\" fill=\"none\" stroke=\"#111\" stroke-width=\"2\"/>\n");
    out.append("    <text x=\"4\" y=\"18\" font-size=\"16\" fill=\"#333\">");
    let label = escape_xml(p.label.as_str());
    out.append(label.as_str());
    out.append("</text>\n");
    out.append("    <text x=\"4\" y=\"");
    out.append(p.caption_y.as_str());
    out.append("\" font-size=\"12\" fill=\"#666\">");
    out.append(p.width_rounded.as_str());
    out.append(" × ");
    out.append(p.height_rounded.as_str());
    out.append(" mm</text>\n");
    out.append("  </g>\n");
    assert(out@ =~= before + svg_panel_group(*p));
}

/// The SVG cut sheet: one group per panel in order, inside an `svg` element of the given size.
pub fn svg_document(width: &str, height: &str, panels: &Vec<SvgPanelText>) -> (svg: String)
    ensures
        svg@ == svg_sheet(width@, height@, svg_panel_groups(panels@, panels@.len())),
{
    let mut body = String::new();
    let mut i: usize = 0;
    while i < panels.len()
        invariant
            i <= panels@.len(),
            body@ == svg_panel_groups(panels@, i as nat),
        decreases panels.len() - i,
    {
        push_svg_panel_group(&mut body, &panels[i]);
        i = i + 1;
    }
    let mut svg = String::from_str("<svg xmlns=\"http://www.w3.org/2000/svg\" width=\"");
    svg.append(width);
    svg.append("\" height=\"");
    svg.append(height);
    svg.append("\" viewBox=\"0 0 ");
    svg.append(width);
    svg.append(" ");
    svg.append(height);
    svg.append("\">\n");
    svg.append(body.as_str());
    svg.append("</svg>");
    assert(svg@ =~= svg_sheet(width@, height@, svg_panel_groups(panels@, panels@.len())));
    svg
}

/// One panel outline of the DXF drawing: a layer name and the rectangle's edges as text.
pub struct DxfRectText {
    /// Layer name (the part id).
    pub layer: String,
    /// X of the left edge.
    pub left: String,
    /// X of the right edge.
    pub right: String,
    /// Y of the bottom edge.
    pub bottom: String,
    /// Y of the top edge.
    pub top: String,
    /// Z of the drawing plane.
    pub z: String,
}

/// The DXF header up to and including the opening of the ENTITIES section.
pub open spec fn dxf_header() -> Seq<char> {
    "0\nSECTION\n2\nHEADER\n9\n$ACADVER\n1\nAC1014\n0\nENDSEC\n0\nSECTION\n2\nENTITIES\n"@
}

/// The end of the ENTITIES section and of the file.
pub open spec fn dxf_footer() -> Seq<char> {
    "0\nENDSEC\n0\nEOF\n"@
}

/// One LINE entity on `layer` from `(ax, ay, az)` to `(bx, by, bz)`.
pub open spec fn dxf_line(
    layer: Seq<char>,
    ax: Seq<char>,
    ay: Seq<char>,
    az: Seq<char>,
    bx: Seq<char>,
    by: Seq<char>,
    bz: Seq<char>,
) -> Seq<char> {
    "0\nLINE\n8\n"@ + layer + "\n10\n"@ + ax + "\n20\n"@ + ay + "\n30\n"@ + az + "\n11\n"@ + bx
        + "\n21\n"@ + by + "\n31\n"@ + bz + "\n"@
}

/// Each value of a LINE entity follows its own group code: 8 the layer, 10/20/30 the start
/// point's x/y/z, 11/21/31 the end point's x/y/z, in that order, and the entity ends the line.
pub proof fn lemma_dxf_line_group_codes(
    layer: Seq<char>,
    ax: Seq<char>,
    ay: Seq<char>,
    az: Seq<char>,
    bx: Seq<char>,
    by: Seq<char>,
    bz: Seq<char>,
)
    ensures
        ({
            let g = dxf_line(layer, ax, ay, az, bx, by, bz);
            let p10: int = 9 + layer.len() as int + 4;
            let p20: int = p10 + ax.len() + 4;
            let p30: int = p20 + ay.len() + 4;
            let p11: int = p30 + az.len() + 4;
            let p21: int = p11 + bx.len() + 4;
            let p31: int = p21 + by.len() + 4;
            &&& tagged_at(g, 9, "0\nLINE\n8\n"@, layer)
            &&& tagged_at(g, p10, "\n10\n"@, ax)
            &&& tagged_at(g, p20, "\n20\n"@, ay)
            &&& tagged_at(g, p30, "\n30\n"@, az)
            &&& tagged_at(g, p11, "\n11\n"@, bx)
            &&& tagged_at(g, p21, "\n21\n"@, by)
            &&& tagged_at(g, p31, "\n31\n"@, bz)
            &&& g.len() == p31 + bz.len() + 1
            &&& g.last() == '\n'
        }),
{
    reveal_strlit("0\nLINE\n8\n");
    reveal_strlit("\n10\n");
    reveal_strlit("\n20\n");
    reveal_strlit("\n30\n");
    reveal_strlit("\n11\n");
    reveal_strlit("\n21\n");
    reveal_strlit("\n31\n");
    reveal_strlit("\n");
    let g = dxf_line(layer, ax, ay, az, bx, by, bz);
    let p10: int = 9 + layer.len() as int + 4;
    let p20: int = p10 + ax.len() + 4;
    let p30: int = p20 + ay.len() + 4;
    let p11: int = p30 + az.len() + 4;
    let p21: int = p11 + bx.len() + 4;
    let p31: int = p21 + by.len() + 4;
    assert(g.subrange(0, 9) =~= "0\nLINE\n8\n"@);
    assert(g.subrange(9, 9 + layer.len() as int) =~= layer);
    assert(g.subrange(p10 - 4, p10) =~= "\n10\n"@);
    assert(g.subrange(p10, p10 + ax.len() as int) =~= ax);
    assert(g.subrange(p20 - 4, p20) =~= "\n20\n"@);
    assert(g.subrange(p20, p20 + ay.len() as int) =~= ay);
    assert(g.subrange(p30 - 4, p30) =~= "\n30\n"@);
    assert(g.subrange(p30, p30 + az.len() as int) =~= az);
    assert(g.subrange(p11 - 4, p11) =~= "\n11\n"@);
    assert(g.subrange(p11, p11 + bx.len() as int) =~= bx);
    assert(g.subrange(p21 - 4, p21) =~= "\n21\n"@);
    assert(g.subrange(p21, p21 + by.len() as int) =~= by);
    assert(g.subrange(p31 - 4, p31) =~= "\n31\n"@);
    assert(g.subrange(p31, p31 + bz.len() as int) =~= bz);
}

/// A closed rectangle as four LINE entities, counter-clockwise from the bottom-left corner.
pub open spec fn dxf_rect(r: DxfRectText) -> Seq<char> {
    dxf_line(r.layer@, r.left@, r.bottom@, r.z@, r.right@, r.bottom@, r.z@) + dxf_line(
        r.layer@,
        r.right@,
        r.bottom@,
        r.z@,
        r.right@,
        r.top@,
        r.z@,
    ) + dxf_line(r.layer@, r.right@, r.top@, r.z@, r.left@, r.top@, r.z@) + dxf_line(
        r.layer@,
        r.left@,
        r.top@,
        r.z@,
        r.left@,
        r.bottom@,
        r.z@,
    )
}

/// LINE entities on `layer` along a path of `(x, y)` corners at height `z`: one from each
/// corner to the next, so every line starts where the one before it ends.
pub open spec fn dxf_path(layer: Seq<char>, pts: Seq<(Seq<char>, Seq<char>)>, z: Seq<char>) -> Seq<
    char,
>
    decreases pts.len(),
{
    if pts.len() < 2 {
        Seq::empty()
    } else {
        let a = pts[pts.len() - 2];
        let b = pts[pts.len() - 1];
        dxf_path(layer, pts.drop_last(), z) + dxf_line(layer, a.0, a.1, z, b.0, b.1, z)
    }
}

/// The corners of a panel outline in drawing order, back to the first one.
pub open spec fn dxf_rect_corners(r: DxfRectText) -> Seq<(Seq<char>, Seq<char>)> {
    seq![
        (r.left@, r.bottom@),
        (r.right@, r.bottom@),
        (r.right@, r.top@),
        (r.left@, r.top@),
        (r.left@, r.bottom@),
    ]
}

/// A panel outline is its four edges drawn as one closed path: the lines go
/// (left, bottom) → (right, bottom) → (right, top) → (left, top) → (left, bottom), each starting
/// where the previous one ends, and each keeps either its x or its y, so every edge is
/// axis-parallel.
pub proof fn lemma_dxf_rect_is_closed_outline(r: DxfRectText)
    ensures
        dxf_rect(r) == dxf_path(r.layer@, dxf_rect_corners(r), r.z@),
        dxf_rect_corners(r).len() == 5,
        dxf_rect_corners(r)[0] == (r.left@, r.bottom@),
        dxf_rect_corners(r)[1] == (r.right@, r.bottom@),
        dxf_rect_corners(r)[2] == (r.right@, r.top@),
        dxf_rect_corners(r)[3] == (r.left@, r.top@),
        dxf_rect_corners(r)[4] == dxf_rect_corners(r)[0],
        forall|i: int|
            0 <= i < 4 ==> (#[trigger] dxf_rect_corners(r)[i]).0 == dxf_rect_corners(r)[i + 1].0
                || dxf_rect_corners(r)[i].1 == dxf_rect_corners(r)[i + 1].1,
{
    let c = dxf_rect_corners(r);
    let l = r.layer@;
    let z = r.z@;
    assert(c.drop_last().drop_last().drop_last().drop_last() =~= seq![c[0]]);
    assert(dxf_path(l, seq![c[0]], z) =~= Seq::<char>::empty());
    assert(c.drop_last().drop_last().drop_last() =~= seq![c[0], c[1]]);
    assert(c.drop_last().drop_last() =~= seq![c[0], c[1], c[2]]);
    assert(c.drop_last() =~= seq![c[0], c[1], c[2], c[3]]);
    assert(dxf_path(l, seq![c[0], c[1]], z) =~= dxf_line(l, c[0].0, c[0].1, z, c[1].0, c[1].1, z));
    let p2 = dxf_path(l, seq![c[0], c[1]], z);
    let p3 = dxf_path(l, seq![c[0], c[1], c[2]], z);
    let p4 = dxf_path(l, seq![c[0], c[1], c[2], c[3]], z);
    assert(seq![c[0], c[1], c[2]].drop_last() =~= seq![c[0], c[1]]);
    assert(seq![c[0], c[1], c[2], c[3]].drop_last() =~= seq![c[0], c[1], c[2]]);
    assert(p3 == p2 + dxf_line(l, c[1].0, c[1].1, z, c[2].0, c[2].1, z));
    assert(p4 == p3 + dxf_line(l, c[2].0, c[2].1, z, c[3].0, c[3].1, z));
    assert(dxf_path(l, c, z) == p4 + dxf_line(l, c[3].0, c[3].1, z, c[4].0, c[4].1, z));
    assert(dxf_rect(r) =~= dxf_path(l, c, z));
}

/// The rectangles of the first `count` panels.
pub open spec fn dxf_rects(rects: Seq<DxfRectText>, count: nat) -> Seq<char>
    decreases count,
{
    if count == 0 {
        Seq::empty()
    } else {
        dxf_rects(rects, (count - 1) as nat) + dxf_rect(rects[count - 1])
    }
}

/// The rectangles of the first `count` panels depend on those panels alone.
pub proof fn lemma_dxf_rects_agree(a: Seq<DxfRectText>, b: Seq<DxfRectText>, count: nat)
    requires
        count <= a.len(),
        count <= b.len(),
        forall|j: int| 0 <= j < count ==> a[j] == b[j],
    ensures
        dxf_rects(a, count) == dxf_rects(b, count),
    decreases count,
{
    if count > 0 {
        lemma_dxf_rects_agree(a, b, (count - 1) as nat);
    }
}

/// The drawing's entities are the panels' outlines in panel order: around the outline of panel
/// `i` stand exactly the outlines of the panels before it and, after it, those after it.
pub proof fn lemma_dxf_rects_split(panels: Seq<DxfRectText>, i: nat, n: nat)
    requires
        i < n <= panels.len(),
    ensures
        dxf_rects(panels, n) == dxf_rects(panels, i) + dxf_rect(panels[i as int])
            + dxf_rects(panels.subrange(i as int + 1, n as int), (n - i - 1) as nat),
    decreases n,
{
    let after = panels.subrange(i as int + 1, n as int);
    let before = dxf_rects(panels, i);
    let here = dxf_rect(panels[i as int]);
    if n == i + 1 {
        assert(dxf_rects(after, 0) == Seq::<char>::empty());
        lemma_append_empty(before + here);
    } else {
        let m = (n - i - 1) as nat;
        let shorter = panels.subrange(i as int + 1, n - 1);
        lemma_dxf_rects_split(panels, i, (n - 1) as nat);
        lemma_dxf_rects_agree(shorter, after, (m - 1) as nat);
        assert(after[m - 1] == panels[n - 1]);
        assert(dxf_rects(after, m) == dxf_rects(after, (m - 1) as nat) + dxf_rect(panels[n - 1]));
        lemma_append_regroup(before, here, dxf_rects(shorter, (m - 1) as nat), dxf_rect(panels[n - 1]));
    }
}

proof fn lemma_append_empty(x: Seq<char>)
    ensures
        x + Seq::<char>::empty() == x,
{
    assert(x + Seq::<char>::empty() =~= x);
}

proof fn lemma_append_regroup(a: Seq<char>, b: Seq<char>, c: Seq<char>, d: Seq<char>)
    ensures
        a + b + c + d == a + b + (c + d),
{
    assert(a + b + c + d =~= a + b + (c + d));
}

fn push_dxf_line(
    out: &mut String,
    layer: &str,
    ax: &str,
    ay: &str,
    az: &str,
    bx: &str,
    by: &str,
    bz: &str,
)
    ensures
        final(out)@ == old(out)@ + dxf_line(layer@, ax@, ay@, az@, bx@, by@, bz@),
{
    let ghost before = out@;
    out.append("0\nLINE\n8\n");
    out.append(layer);
    out.append("\n10\n");
    out.append(ax);
    out.append("\n20\n");
    out.append(ay);
    out.append("\n30\n");
    out.append(az);
    out.append("\n11\n");
    out.append(bx);
    out.append("\n21\n");
    out.append(by);
    out.append("\n31\n");
    out.append(bz);
    out.append("\n");
    assert(out@ =~= before + dxf_line(layer@, ax@, ay@, az@, bx@, by@, bz@));
}

fn push_dxf_rect(out: &mut String, r: &DxfRectText)
    ensures
        final(out)@ == old(out)@ + dxf_rect(*r),
{
    let ghost before = out@;
    let (layer, l, rt, b, t, z) = (
        r.layer.as_str(),
        r.left.as_str(),
        r.right.as_str(),
        r.bottom.as_str(),
        r.top.as_str(),
        r.z.as_str(),
    );
    push_dxf_line(out, layer, l, b, z, rt, b, z);
    push_dxf_line(out, layer, rt, b, z, rt, t, z);
    push_dxf_line(out, layer, rt, t, z, l, t, z);
    push_dxf_line(out, layer, l, t, z, l, b, z);
    assert(out@ =~= before + dxf_rect(*r));
}

/// Minimal ASCII DXF (R12 style): header, one closed rectangle of LINE entities per panel in
/// order, then the end of file.
pub fn dxf_document(rects: &Vec<DxfRectText>) -> (dxf: String)
    ensures
        dxf@ == dxf_header() + dxf_rects(rects@, rects@.len()) + dxf_footer(),
{
    let mut out = String::from_str(
        "0\nSECTION\n2\nHEADER\n9\n$ACADVER\n1\nAC1014\n0\nENDSEC\n0\nSECTION\n2\nENTITIES\n",
    );
    let mut i: usize = 0;
    while i < rects.len()
        invariant
            i <= rects@.len(),
            out@ == dxf_header() + dxf_rects(rects@, i as nat),
        decreases rects.len() - i,
    {
        push_dxf_rect(&mut out, &rects[i]);
        assert(out@ =~= dxf_header() + dxf_rects(rects@, (i + 1) as nat));
        i = i + 1;
    }
    out.append("0\nENDSEC\n0\nEOF\n");
    out
}

} // verus!
