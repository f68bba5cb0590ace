//! Cut-list CSV: header, column order and row framing. Dimensions arrive already as text.

use vstd::prelude::*;
use vstd::string::StringExecFns;
use crate::text::{
    decimal, decimal_value, is_digit_run, lemma_decimal_is_digit_run, lemma_decimal_value,
    push_char, push_decimal, tagged_at,
};

verus! {

/// One cut-list row with its dimensions already rendered as text.
pub struct BomCsvFields {
    /// Part id, e.g. `back` or `shelf_001`.
    pub id: String,
    /// Human-readable part name.
    pub label: String,
    /// Rendered in-plane width (mm).
    pub width_mm: String,
    /// Rendered in-plane height (mm).
    pub height_mm: String,
    /// Number of identical parts.
    pub qty: u32,
    /// Rendered board thickness (mm) when known.
    pub thickness_mm: Option<String>,
}

/// The header line of the cut-list CSV.
pub open spec fn bom_csv_header() -> Seq<char> {
    "id,label,width_mm,height_mm,qty,thickness_mm\n"@
}

/// The thickness column of a row: the rendered thickness, or nothing when it is unknown.
pub open spec fn bom_thickness_field(r: BomCsvFields) -> Seq<char> {
    match r.thickness_mm {
        Some(t) => t@,
        None => Seq::empty(),
    }
}

/// One CSV line: the six columns separated by commas; an unknown thickness is an empty field.
pub open spec fn bom_csv_line(r: BomCsvFields) -> Seq<char> {
    r.id@ + seq![','] + r.label@ + seq![','] + r.width_mm@ + seq![','] + r.height_mm@ + seq![',']
        + decimal(r.qty as nat) + seq![','] + bom_thickness_field(r) + seq!['\n']
}

/// A cut-list line holds the columns in header order: id, label, width, height, quantity and
/// thickness, each after the comma that ends the one before it; the quantity is a run of digits
/// that reads back as the row's count, and the line ends with a line break.
pub proof fn lemma_bom_csv_line_columns(r: BomCsvFields)
    ensures
        ({
            let line = bom_csv_line(r);
            let q = decimal(r.qty as nat);
            let k1: int = r.id@.len() as int + 1;
            let k2: int = k1 + r.label@.len() + 1;
            let k3: int = k2 + r.width_mm@.len() + 1;
            let k4: int = k3 + r.height_mm@.len() + 1;
            let k5: int = k4 + q.len() + 1;
            &&& line.subrange(0, r.id@.len() as int) == r.id@
            &&& tagged_at(line, k1, seq![','], r.label@)
            &&& tagged_at(line, k2, seq![','], r.width_mm@)
            &&& tagged_at(line, k3, seq![','], r.height_mm@)
            &&& tagged_at(line, k4, seq![','], q)
            &&& is_digit_run(q) && decimal_value(q) == r.qty
            &&& tagged_at(line, k5, seq![','], bom_thickness_field(r))
            &&& line.len() == k5 + bom_thickness_field(r).len() + 1
            &&& line.last() == '\n'
        }),
{
    let line = bom_csv_line(r);
    let q = decimal(r.qty as nat);
    lemma_decimal_is_digit_run(r.qty as nat);
    lemma_decimal_value(r.qty as nat);
    let t = bom_thickness_field(r);
    let c = seq![','];
    let k1: int = r.id@.len() as int + 1;
    let k2: int = k1 + r.label@.len() + 1;
    let k3: int = k2 + r.width_mm@.len() + 1;
    let k4: int = k3 + r.height_mm@.len() + 1;
    let k5: int = k4 + q.len() + 1;
    assert(line =~= r.id@ + c + r.label@ + c + r.width_mm@ + c + r.height_mm@ + c + q + c + t
        + seq!['\n']);
    assert(line.subrange(0, r.id@.len() as int) =~= r.id@);
    assert(line.subrange(k1 - 1, k1) =~= c);
    assert(line.subrange(k1, k1 + r.label@.len()) =~= r.label@);
    assert(line.subrange(k2 - 1, k2) =~= c);
    assert(line.subrange(k2, k2 + r.width_mm@.len()) =~= r.width_mm@);
    assert(line.subrange(k3 - 1, k3) =~= c);
    assert(line.subrange(k3, k3 + r.height_mm@.len()) =~= r.height_mm@);
    assert(line.subrange(k4 - 1, k4) =~= c);
    assert(line.subrange(k4, k4 + q.len()) =~= q);
    assert(line.subrange(k5 - 1, k5) =~= c);
    assert(line.subrange(k5, k5 + t.len()) =~= t);
}

/// The lines of the first `count` rows.
pub open spec fn bom_csv_lines(rows: Seq<BomCsvFields>, count: nat) -> Seq<char>
    decreases count,
{
    if count == 0 {
        Seq::empty()
    } else {
        bom_csv_lines(rows, (count - 1) as nat) + bom_csv_line(rows[count - 1])
    }
}

/// The lines of the first `count` rows depend on those rows alone.
pub proof fn lemma_bom_csv_lines_agree(a: Seq<BomCsvFields>, b: Seq<BomCsvFields>, count: nat)
    requires
        count <= a.len(),
        count <= b.len(),
        forall|j: int| 0 <= j < count ==> a[j] == b[j],
    ensures
        bom_csv_lines(a, count) == bom_csv_lines(b, count),
    decreases count,
{
    if count > 0 {
        lemma_bom_csv_lines_agree(a, b, (count - 1) as nat);
    }
}

/// The cut list keeps the rows' order: around the line of row `i` stand exactly the lines of
/// the rows before it and, after it, those of the rows after it.
pub proof fn lemma_bom_csv_lines_split(rows: Seq<BomCsvFields>, i: nat, n: nat)
    requires
        i < n <= rows.len(),
    ensures
        bom_csv_lines(rows, n) == bom_csv_lines(rows, i) + bom_csv_line(rows[i as int])
            + bom_csv_lines(rows.subrange(i as int + 1, n as int), (n - i - 1) as nat),
    decreases n,
{
    let after = rows.subrange(i as int + 1, n as int);
    if n == i + 1 {
        assert(bom_csv_lines(after, 0) =~= Seq::<char>::empty());
        assert(bom_csv_lines(rows, n) =~= bom_csv_lines(rows, i) + bom_csv_line(
            rows[i as int],
        ) + bom_csv_lines(after, 0));
    } else {
        let m = (n - i - 1) as nat;
        let shorter = rows.subrange(i as int + 1, n - 1);
        lemma_bom_csv_lines_split(rows, i, (n - 1) as nat);
        lemma_bom_csv_lines_agree(shorter, after, (m - 1) as nat);
        assert(after[m - 1] == rows[n - 1]);
        assert(bom_csv_lines(after, m) == bom_csv_lines(after, (m - 1) as nat)
            + bom_csv_line(rows[n - 1]));
        assert(bom_csv_lines(rows, n) =~= bom_csv_lines(rows, i) + bom_csv_line(
            rows[i as int],
        ) + bom_csv_lines(after, m));
    }
}

fn push_bom_csv_line(out: &mut String, r: &BomCsvFields)
    ensures
        final(out)@ == old(out)@ + bom_csv_line(*r),
{
    let ghost before = out@;
    out.append(r.id.as_str());
    push_char(out, ',');
    out.append(r.label.as_str());
    push_char(out, ',');
    out.append(r.width_mm.as_str());
    push_char(out, ',');
    out.append(r.height_mm.as_str());
    push_char(out, ',');
    push_decimal(out, r.qty as u64);
    push_char(out, ',');
    match &r.thickness_mm {
        Some(t) => out.append(t.as_str()),
        None => {},
    }
    push_char(out, '\n');
    assert(out@ =~= before + bom_csv_line(*r));
}

/// The cut-list CSV of `rows`: the header line, then one line per row in order.
pub fn bom_csv(rows: &Vec<BomCsvFields>) -> (csv: String)
    ensures
        csv@ == bom_csv_header() + bom_csv_lines(rows@, rows@.len()),
{
    let mut out = String::from_str("id,label,width_mm,height_mm,qty,thickness_mm\n");
    let mut i: usize = 0;
    while i < rows.len()
        invariant
            i <= rows@.len(),
            out@ == bom_csv_header() + bom_csv_lines(rows@, i as nat),
        decreases rows.len() - i,
    {
        push_bom_csv_line(&mut out, &rows[i]);
        assert(bom_csv_lines(rows@, (i + 1) as nat) == bom_csv_lines(rows@, i as nat)
            + bom_csv_line(rows@[i as int]));
        assert(out@ =~= bom_csv_header() + bom_csv_lines(rows@, (i + 1) as nat));
        i = i + 1;
    }
    out
}

} // verus!
