//! Every binary row of a given width, in lexicographic order.

use crate::evolution::is_row;
use crate::grid::row_views;
use crate::rule::bit_of;
use itertools::Itertools;
use vstd::arithmetic::div_mod::{lemma_div_denominator, lemma_fundamental_div_mod};
use vstd::arithmetic::power::pow;
use vstd::arithmetic::power2::{lemma_pow2, lemma_pow2_pos, lemma_pow2_unfold, pow2};
use vstd::prelude::*;

verus! {

/// The `k`-th binary row of width `width`: the binary numeral of `k` in
/// `width` digits, most significant digit first.
pub open spec fn binary_row(k: nat, width: nat) -> Seq<u8> {
    Seq::new(width, |i: int| bit_of(k, (width - 1 - i) as nat) as u8)
}

/// All `2^width` binary rows of width `width`, counting up from 0. Read as
/// sequences of cells, that is their lexicographic order.
pub open spec fn all_rows(width: nat) -> Seq<Seq<u8>> {
    Seq::new(pow2(width), |k: int| binary_row(k as nat, width))
}

/// The number that a row of cells spells in binary, first cell most
/// significant.
pub open spec fn row_value(row: Seq<u8>) -> nat
    decreases row.len(),
{
    if row.len() == 0 {
        0
    } else {
        2 * row_value(row.drop_last()) + row.last() as nat
    }
}

/// Bit `e + 1` of `k` is bit `e` of `k / 2`.
proof fn lemma_bit_shift(k: nat, e: nat)
    ensures
        bit_of(k, e + 1) == bit_of(k / 2, e),
{
    lemma_pow2_unfold(e + 1);
    lemma_pow2_pos(e);
    lemma_div_denominator(k as int, 2, pow2(e) as int);
}

/// Without its last cell, the `k`-th row of width `width + 1` is row `k / 2`
/// of width `width`, and its last cell is `k % 2`.
proof fn lemma_binary_row_unfold(k: nat, width: nat)
    ensures
        binary_row(k, width + 1).drop_last() == binary_row(k / 2, width),
        binary_row(k, width + 1).last() == k % 2,
{
    let long = binary_row(k, width + 1);
    let short = binary_row(k / 2, width);
    assert forall|i: int| 0 <= i < width implies long.drop_last()[i] == short[i] by {
        lemma_bit_shift(k, (width - 1 - i) as nat);
    }
    assert(long.drop_last() =~= short);
    assert(pow2(0) == 1) by {
        vstd::arithmetic::power2::lemma2_to64();
    }
}

/// Every binary row is a row of `width` cells.
pub proof fn lemma_binary_row_is_row(k: nat, width: nat)
    ensures
        is_row(binary_row(k, width)),
        binary_row(k, width).len() == width,
{
}

/// The `k`-th row spells `k`: the rows come in increasing numeric order,
/// which for rows of one width is the lexicographic order of their cells.
pub proof fn lemma_row_value_of_binary_row(k: nat, width: nat)
    requires
        k < pow2(width),
    ensures
        row_value(binary_row(k, width)) == k,
    decreases width,
{
    if width == 0 {
        assert(pow2(0) == 1) by {
            vstd::arithmetic::power2::lemma2_to64();
        }
    } else {
        let w = (width - 1) as nat;
        lemma_pow2_unfold(width);
        lemma_binary_row_unfold(k, w);
        lemma_row_value_of_binary_row(k / 2, w);
        lemma_fundamental_div_mod(k as int, 2);
    }
}

/// Every row of `width` cells occurs in the enumeration, at the place that it
/// spells.
pub proof fn lemma_row_occurs(row: Seq<u8>)
    requires
        is_row(row),
    ensures
        row_value(row) < pow2(row.len()),
        all_rows(row.len())[row_value(row) as int] == row,
    decreases row.len(),
{
    if row.len() == 0 {
        assert(pow2(0) == 1) by {
            vstd::arithmetic::power2::lemma2_to64();
        }
        assert(binary_row(0, 0) =~= row);
    } else {
        let w = (row.len() - 1) as nat;
        let init = row.drop_last();
        let k = row_value(row);
        lemma_row_occurs(init);
        lemma_pow2_unfold(row.len());
        assert(row.last() <= 1);
        assert(k / 2 == row_value(init) && k % 2 == row.last());
        lemma_binary_row_unfold(k, w);
        assert(binary_row(k, row.len()).drop_last() == init);
        assert(binary_row(k, row.len()) =~= init.push(row.last()));
        assert(init.push(row.last()) =~= row);
    }
}

/// The enumeration of width `width` has `2^width` rows and holds no row
/// twice.
pub proof fn lemma_all_rows_distinct(width: nat)
    ensures
        all_rows(width).len() == pow2(width),
        all_rows(width).no_duplicates(),
{
    assert forall|j: int, k: int|
        0 <= j < all_rows(width).len() && 0 <= k < all_rows(width).len() && j != k implies all_rows(
        width,
    )[j] != all_rows(width)[k] by {
        lemma_row_value_of_binary_row(j as nat, width);
        lemma_row_value_of_binary_row(k as nat, width);
    }
}

/// Digit `e` of `k` written in base `base`, counted from the least
/// significant one.
pub open spec fn digit_of(k: nat, base: nat, e: nat) -> nat {
    ((k as int / pow(base as int, e)) % (base as int)) as nat
}

/// Element `k` of the cartesian product of `width` copies of a range of
/// `base` numbers that starts at `low`, the elements taken in lexicographic
/// order: its coordinates are the digits of `k` in that base, most
/// significant first, each counted from `low`.
pub open spec fn product_row(k: nat, low: u8, base: nat, width: nat) -> Seq<u8> {
    Seq::new(width, |i: int| (low + digit_of(k, base, (width - 1 - i) as nat)) as u8)
}

/// In base 2 from 0, the elements of the product are the binary rows.
proof fn lemma_binary_product_row(k: nat, width: nat)
    ensures
        product_row(k, 0, 2, width) == binary_row(k, width),
{
    assert forall|i: int| 0 <= i < width implies #[trigger] product_row(k, 0, 2, width)[i]
        == binary_row(k, width)[i] by {
        lemma_pow2((width - 1 - i) as nat);
    }
    assert(product_row(k, 0, 2, width) =~= binary_row(k, width));
}

/// `itertools::repeat_n(low..=high, width)` handed to
/// `Itertools::multi_cartesian_product` and collected by
/// `Itertools::collect_vec`: the cartesian product of `width` copies of the
/// range, each element a vector of `width` numbers, in lexicographic order
/// (the last coordinate changes fastest). For `width` 0 that is one empty
/// vector. The product has as many elements as the range has numbers, to the
/// power `width`, and they must fit in a vector.
#[verifier::external_body]
fn cartesian_power(low: u8, high: u8, width: usize) -> (rows: Vec<Vec<u8>>)
    requires
        low <= high,
        pow(high - low + 1, width as nat) <= usize::MAX,
    ensures
        row_views(rows@) == Seq::new(
            pow(high - low + 1, width as nat) as nat,
            |k: int| product_row(k as nat, low, (high - low + 1) as nat, width as nat),
        ),
{
    itertools::repeat_n(low..=high, width).multi_cartesian_product().collect_vec()
}

/// Generate all the unique permutations of input for a given input size:
/// every binary row of width `input_size`, in lexicographic order.
pub fn permutations(input_size: usize) -> (rows: Vec<Vec<u8>>)
    requires
        pow2(input_size as nat) <= usize::MAX,
    ensures
        row_views(rows@) == all_rows(input_size as nat),
        rows@.len() == pow2(input_size as nat),
        forall|k: int|
            0 <= k < rows@.len() ==> (#[trigger] rows@[k])@ == binary_row(
                k as nat,
                input_size as nat,
            ),
        row_views(rows@).no_duplicates(),
{
    proof {
        lemma_pow2(input_size as nat);
    }
    let rows = cartesian_power(0, 1, input_size);
    proof {
        let width = input_size as nat;
        assert forall|k: int| 0 <= k < pow2(width) implies #[trigger] row_views(rows@)[k]
            == all_rows(width)[k] by {
            lemma_binary_product_row(k as nat, width);
        }
        assert(row_views(rows@) =~= all_rows(width));
        lemma_all_rows_distinct(width);
        assert forall|k: int| 0 <= k < rows@.len() implies (#[trigger] rows@[k])@ == binary_row(
            k as nat,
            width,
        ) by {
            assert(row_views(rows@)[k] == rows@[k]@);
        }
    }
    rows
}

} // verus!
