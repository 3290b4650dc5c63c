use crate::error::CaError;
use vstd::arithmetic::power2::{lemma2_to64, pow2};
use vstd::prelude::*;

verus! {

/// Bit `k` of `n`, counted from the least significant one.
pub open spec fn bit_of(n: nat, k: nat) -> nat {
    (n / pow2(k)) % 2
}

/// A rule table has one cell, 0 or 1, for each of the eight neighbourhood
/// codes.
pub open spec fn is_table(table: Seq<u8>) -> bool {
    &&& table.len() == 8
    &&& forall|k: int| 0 <= k < 8 ==> #[trigger] table[k] <= 1
}

/// What `table` answers for the neighbourhood `code`: its entry for one of the
/// eight codes, 0 for anything else.
pub open spec fn lookup_spec(table: Seq<u8>, code: int) -> u8 {
    if 0 <= code < 8 {
        table[code]
    } else {
        0
    }
}

/// The Wolfram number of a table: the number whose bit `k` is the output for
/// neighbourhood code `k`.
pub open spec fn wolfram_number(table: Seq<u8>) -> nat {
    (table[0] + 2 * table[1] + 4 * table[2] + 8 * table[3] + 16 * table[4] + 32 * table[5] + 64
        * table[6] + 128 * table[7]) as nat
}

/// Round trip: a table that holds the bits of `n` answers bit `k` of `n` for
/// the neighbourhood code `k`, and its Wolfram number is `n`.
pub proof fn lemma_number_round_trip(table: Seq<u8>, n: u8, k: u8)
    requires
        table.len() == 8,
        forall|j: int| 0 <= j < 8 ==> #[trigger] table[j] == bit_of(n as nat, j as nat),
        k < 8,
    ensures
        lookup_spec(table, k as int) == bit_of(n as nat, k as nat),
        wolfram_number(table) == n,
{
    lemma2_to64();
    assert(table[0] == bit_of(n as nat, 0));
    assert(table[1] == bit_of(n as nat, 1));
    assert(table[2] == bit_of(n as nat, 2));
    assert(table[3] == bit_of(n as nat, 3));
    assert(table[4] == bit_of(n as nat, 4));
    assert(table[5] == bit_of(n as nat, 5));
    assert(table[6] == bit_of(n as nat, 6));
    assert(table[7] == bit_of(n as nat, 7));
    assert(n == (n / 1) % 2 + 2 * ((n / 2) % 2) + 4 * ((n / 4) % 2) + 8 * ((n / 8) % 2) + 16 * ((n
        / 16) % 2) + 32 * ((n / 32) % 2) + 64 * ((n / 64) % 2) + 128 * ((n / 128) % 2))
        by (bit_vector);
}

/// An elementary rule: the next state of a cell for each of the eight
/// neighbourhoods `(left, center, right)`.
///
/// The table is kept by neighbourhood code `4 * left + 2 * center + right`, so
/// a lookup is one array access.
#[derive(Clone, Copy, Debug)]
pub struct Rule {
    table: [u8; 8],
}

impl View for Rule {
    type V = Seq<u8>;

    /// The table by neighbourhood code: entry `k` is the output for code `k`.
    closed spec fn view(&self) -> Seq<u8> {
        self.table@
    }
}

impl Rule {
    /// Every rule holds a table of eight cells.
    #[verifier::type_invariant]
    pub open spec fn well_formed(self) -> bool {
        is_table(self@)
    }

    /// Build a rule from its eight outputs in Wolfram order: `map[0]` is the
    /// output for neighbourhood `111`, `map[1]` for `110`, down to `map[7]`
    /// for `000`.
    ///
    /// Succeeds exactly when every entry is 0 or 1; otherwise reports the
    /// first entry that is not.
    pub fn new(map: [u8; 8]) -> (r: Result<Rule, CaError>)
        ensures
            r is Ok <==> (forall|j: int| 0 <= j < 8 ==> map@[j] <= 1),
            r matches Ok(rule) ==> is_table(rule@) && forall|k: int|
                0 <= k < 8 ==> #[trigger] rule@[k] == map@[7 - k],
            r matches Err(e) ==> exists|j: int|
                0 <= j < 8 && #[trigger] map@[j] > 1 && e == (CaError::InvalidRule { found: map@[j] })
                    && forall|i: int| 0 <= i < j ==> map@[i] <= 1,
    {
        let mut i: usize = 0;
        while i < 8
            invariant
                i <= 8,
                forall|j: int| 0 <= j < i ==> map@[j] <= 1,
            decreases 8 - i,
        {
            let x: u8 = map[i];
            if x > 1 {
                return Err(CaError::InvalidRule { found: x });
            }
            i += 1;
        }
        let table: [u8; 8] = [map[7], map[6], map[5], map[4], map[3], map[2], map[1], map[0]];
        Ok(Rule { table })
    }

    /// The rule with Wolfram number `num`: its output for neighbourhood code
    /// `k` is bit `k` of `num`. Every `u8` names a rule, so this never fails.
    pub fn number(num: u8) -> (r: Result<Rule, CaError>)
        ensures
            r matches Ok(rule) && is_table(rule@) && wolfram_number(rule@) == num && forall|k: int|
                0 <= k < 8 ==> #[trigger] rule@[k] == bit_of(num as nat, k as nat),
    {
        let map: [u8; 8] = [
            (num >> 7) & 1,
            (num >> 6) & 1,
            (num >> 5) & 1,
            (num >> 4) & 1,
            (num >> 3) & 1,
            (num >> 2) & 1,
            (num >> 1) & 1,
            num & 1,
        ];
        proof {
            lemma2_to64();
            assert((num >> 7) & 1 == (num / 128) % 2) by (bit_vector);
            assert((num >> 6) & 1 == (num / 64) % 2) by (bit_vector);
            assert((num >> 5) & 1 == (num / 32) % 2) by (bit_vector);
            assert((num >> 4) & 1 == (num / 16) % 2) by (bit_vector);
            assert((num >> 3) & 1 == (num / 8) % 2) by (bit_vector);
            assert((num >> 2) & 1 == (num / 4) % 2) by (bit_vector);
            assert((num >> 1) & 1 == (num / 2) % 2) by (bit_vector);
            assert(num & 1 == (num / 1) % 2) by (bit_vector);
        }
        let r = Rule::new(map);
        proof {
            if let Ok(rule) = r {
                lemma_number_round_trip(rule@, num, 0);
            }
        }
        r
    }

    /// The output for the neighbourhood with code `input`. Codes above 7 name
    /// no neighbourhood and give 0.
    pub fn lookup(&self, input: u8) -> (out: u8)
        ensures
            out == lookup_spec(self@, input as int),
            out <= 1,
    {
        proof {
            use_type_invariant(self);
        }
        if input < 8 {
            self.table[input as usize]
        } else {
            0
        }
    }
}

} // verus!
