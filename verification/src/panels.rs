//! Names of the stock panels listed for cut lists and 2D exports.

use vstd::prelude::*;
use vstd::string::StringExecFns;
use crate::text::{
    decimal, decimal_value, is_digit_run, lemma_decimal_is_digit_run, lemma_decimal_value,
    lemma_zero_padded_reads_back, pow10, lemma_decimal_injective, lemma_zero_padded_injective, push_decimal,
    push_zero_padded, zero_padded,
};

verus! {

/// Part id of the `n`-th shelf board (1-based): `shelf_` and `n` with at least three digits.
pub open spec fn shelf_panel_id_spec(n: nat) -> Seq<char> {
    seq!['s', 'h', 'e', 'l', 'f', '_'] + zero_padded(n, 3)
}

/// Label of the `n`-th shelf board (1-based): `Shelf ` and `n`.
pub open spec fn shelf_panel_label_spec(n: nat) -> Seq<char> {
    seq!['S', 'h', 'e', 'l', 'f', ' '] + decimal(n)
}

/// Part id of the `n`-th shelf board, counted from 1 upward.
pub fn shelf_panel_id(n: usize) -> (id: String)
    ensures
        id@ == shelf_panel_id_spec(n as nat),
{
    let mut id = String::from_str("shelf_");
    proof {
        reveal_strlit("shelf_");
    }
    push_zero_padded(&mut id, n as u64, 3);
    assert(id@ =~= shelf_panel_id_spec(n as nat));
    id
}

/// Label of the `n`-th shelf board, counted from 1 upward.
pub fn shelf_panel_label(n: usize) -> (label: String)
    ensures
        label@ == shelf_panel_label_spec(n as nat),
{
    let mut label = String::from_str("Shelf ");
    proof {
        reveal_strlit("Shelf ");
    }
    push_decimal(&mut label, n as u64);
    assert(label@ =~= shelf_panel_label_spec(n as nat));
    label
}

/// A shelf's part id is `shelf_` followed by a run of at least three digits that reads back
/// as the shelf's number, exactly three for the first 999 shelves; its label is `Shelf `
/// followed by the number's digits.
pub proof fn lemma_shelf_names_read_back(n: nat)
    ensures
        ({
            let id = shelf_panel_id_spec(n);
            let digits = id.subrange(6, id.len() as int);
            &&& id.len() >= 9
            &&& id.subrange(0, 6) == "shelf_"@
            &&& is_digit_run(digits)
            &&& decimal_value(digits) == n
            &&& n < 1000 ==> id.len() == 9
        }),
        ({
            let label = shelf_panel_label_spec(n);
            let digits = label.subrange(6, label.len() as int);
            &&& label.subrange(0, 6) == "Shelf "@
            &&& is_digit_run(digits)
            &&& decimal_value(digits) == n
        }),
{
    reveal_strlit("shelf_");
    reveal_strlit("Shelf ");
    reveal_with_fuel(pow10, 4);
    lemma_zero_padded_reads_back(n, 3);
    lemma_decimal_is_digit_run(n);
    lemma_decimal_value(n);
    let id = shelf_panel_id_spec(n);
    assert(id.subrange(0, 6) =~= "shelf_"@);
    assert(id.subrange(6, id.len() as int) =~= zero_padded(n, 3));
    let label = shelf_panel_label_spec(n);
    assert(label.subrange(0, 6) =~= "Shelf "@);
    assert(label.subrange(6, label.len() as int) =~= decimal(n));
}

/// Distinct shelves get distinct part ids and distinct labels.
pub proof fn lemma_shelf_names_distinct(a: nat, b: nat)
    requires
        a != b,
    ensures
        shelf_panel_id_spec(a) != shelf_panel_id_spec(b),
        shelf_panel_label_spec(a) != shelf_panel_label_spec(b),
{
    if shelf_panel_id_spec(a) == shelf_panel_id_spec(b) {
        assert(shelf_panel_id_spec(a).subrange(6, shelf_panel_id_spec(a).len() as int)
            =~= zero_padded(a, 3));
        assert(shelf_panel_id_spec(b).subrange(6, shelf_panel_id_spec(b).len() as int)
            =~= zero_padded(b, 3));
        lemma_zero_padded_injective(a, b, 3);
    }
    if shelf_panel_label_spec(a) == shelf_panel_label_spec(b) {
        assert(shelf_panel_label_spec(a).subrange(6, shelf_panel_label_spec(a).len() as int)
            =~= decimal(a));
        assert(shelf_panel_label_spec(b).subrange(6, shelf_panel_label_spec(b).len() as int)
            =~= decimal(b));
        lemma_decimal_injective(a, b);
    }
}

} // verus!
