//! The lattice of gradient noise: three shuffled tables that scatter the
//! corners of each lattice cell over the table of gradients.

use vstd::prelude::*;
use crate::random::random_below;

verus! {

/// The number of gradients, and the length of each table.
pub const POINT_COUNT: usize = 256;

/// The three tables of a noise generator. Each holds the numbers below
/// [`POINT_COUNT`] in a shuffled order.
pub struct PerlinGenerator {
    pub perm_x: [usize; 256],
    pub perm_y: [usize; 256],
    pub perm_z: [usize; 256],
}

/// The numbers below [`POINT_COUNT`] in ascending order.
pub open spec fn in_sequence() -> Seq<usize> {
    Seq::new(256, |i: int| i as usize)
}

/// `table` holds every number below [`POINT_COUNT`] exactly once.
pub open spec fn is_shuffle(table: Seq<usize>) -> bool {
    table.to_multiset() == in_sequence().to_multiset()
}

/// The place of a lattice coordinate in a table: the coordinate, wrapped
/// round at [`POINT_COUNT`].
pub open spec fn wrap(coordinate: int) -> int {
    coordinate % 256
}

/// The number that stands at place `i` of a table in ascending order.
fn own_place(i: usize) -> (n: usize)
    ensures
        n == i,
{
    i
}

/// The table in ascending order.
///
/// Calls `array_init::array_init`, which fills place `i` of a new array with
/// what the function handed to it returns for `i`, for every place of the
/// array. The function handed to it returns `i`.
#[verifier::external_body]
fn ascending_table() -> (table: [usize; 256])
    ensures
        table@ == in_sequence(),
{
    array_init::array_init(own_place)
}

/// Exchanging two entries of a list keeps what the list holds, and how
/// often.
pub proof fn lemma_swap_keeps_contents(before: Seq<usize>, after: Seq<usize>, i: int, k: int)
    requires
        0 <= i < before.len(),
        0 <= k < before.len(),
        after == before.update(i, before[k]).update(k, before[i]),
    ensures
        after.to_multiset() == before.to_multiset(),
{
    broadcast use vstd::multiset::group_multiset_axioms;

    let between = before.update(i, before[k]);
    vstd::seq_lib::to_multiset_update(before, i, before[k]);
    vstd::seq_lib::to_multiset_update(between, k, before[i]);
    vstd::seq_lib::to_multiset_contains(before, before[i]);
    vstd::seq_lib::to_multiset_contains(before, before[k]);
    assert(before.contains(before[i]));
    assert(before.contains(before[k]));
    assert(after.to_multiset() =~= before.to_multiset());
}

/// A shuffle holds only numbers below [`POINT_COUNT`], and holds each of
/// them.
pub proof fn lemma_shuffle_in_range(table: Seq<usize>)
    requires
        is_shuffle(table),
    ensures
        table.len() == 256,
        forall|i: int| 0 <= i < table.len() ==> #[trigger] table[i] < 256,
        forall|n: usize| n < 256 ==> table.contains(n),
{
    table.to_multiset_ensures();
    in_sequence().to_multiset_ensures();
    assert forall|i: int| 0 <= i < table.len() implies #[trigger] table[i] < 256 by {
        let n = table[i];
        assert(table.contains(n));
        vstd::seq_lib::to_multiset_contains(table, n);
        vstd::seq_lib::to_multiset_contains(in_sequence(), n);
        assert(in_sequence().contains(n));
    }
    assert forall|n: usize| n < 256 implies table.contains(n) by {
        assert(in_sequence()[n as int] == n);
        assert(in_sequence().contains(n));
        vstd::seq_lib::to_multiset_contains(table, n);
        vstd::seq_lib::to_multiset_contains(in_sequence(), n);
    }
}

/// Shuffles the first `n` entries of `table`: from the last of them down to
/// the second, each changes places with one drawn from those before it. So
/// the table holds what it held, and no entry of the `n` is where it was.
pub fn permute(table: &mut [usize; 256], n: usize)
    requires
        n <= 256,
    ensures
        final(table)@.to_multiset() == old(table)@.to_multiset(),
        forall|i: int| n <= i < 256 ==> final(table)@[i] == old(table)@[i],
        exists|origin: Seq<int>| shuffled(old(table)@, final(table)@, origin, n as int),
{
    let ghost mut origin: Seq<int> = Seq::new(256, |k: int| k);
    if n < 2 {
        assert(shuffled(table@, table@, origin, n as int));
        return ;
    }
    let mut i: usize = n - 1;
    while i >= 1
        invariant
            2 <= n <= 256,
            i < n,
            table@.to_multiset() == old(table)@.to_multiset(),
            forall|k: int| n <= k < 256 ==> table@[k] == old(table)@[k],
            shuffling(old(table)@, table@, origin, n as int, i as int),
        decreases i,
    {
        let target = random_below(i);
        let ghost before = table@;
        let ghost came_from = origin;
        exchange(table, i, target);
        proof {
            origin = came_from.update(i as int, came_from[target as int]).update(
                target as int,
                came_from[i as int],
            );
            lemma_swap_keeps_contents(before, table@, i as int, target as int);
            lemma_shuffle_step(
                old(table)@,
                before,
                table@,
                came_from,
                origin,
                n as int,
                i as int,
                target as int,
            );
        }
        i = i - 1;
    }
    assert(shuffled(old(table)@, table@, origin, n as int));
}

/// The entries at the places `i` and `target` of `table` change places.
pub fn exchange(table: &mut [usize; 256], i: usize, target: usize)
    requires
        i < 256,
        target < 256,
    ensures
        final(table)@ == old(table)@.update(i as int, old(table)@[target as int]).update(
            target as int,
            old(table)@[i as int],
        ),
{
    let moved = table[i];
    let other = table[target];
    table[i] = other;
    table[target] = moved;
    assert(table@ =~= old(table)@.update(i as int, old(table)@[target as int]).update(
        target as int,
        old(table)@[i as int],
    ));
}

/// `origin` says where the entries of a table came from in a shuffle of its
/// first `n` entries: the entry at place `k` of `after` stood at place
/// `origin[k]` of `before`, no two entries came from the same place, the
/// entries from place `n` on have stayed, and, where there are two entries
/// or more to shuffle, none of them has.
pub open spec fn shuffled(before: Seq<usize>, after: Seq<usize>, origin: Seq<int>, n: int) -> bool {
    &&& origin.len() == 256
    &&& forall|k: int|
        0 <= k < 256 ==> 0 <= #[trigger] origin[k] < 256 && after[k] == before[origin[k]]
    &&& forall|a: int, b: int| 0 <= a < b < 256 ==> #[trigger] origin[a] != #[trigger] origin[b]
    &&& forall|k: int| n <= k < 256 ==> #[trigger] origin[k] == k
    &&& forall|k: int| 0 <= k < n ==> #[trigger] origin[k] < n
    &&& n >= 2 ==> forall|k: int| 0 <= k < n ==> #[trigger] origin[k] != k
}

/// The state of a shuffle that has dealt with the places above `i`: those
/// hold entries from elsewhere, for good. Each place up to `i` holds its own
/// entry still, or one that came down from a place above `i`.
pub open spec fn shuffling(
    before: Seq<usize>,
    after: Seq<usize>,
    origin: Seq<int>,
    n: int,
    i: int,
) -> bool {
    &&& origin.len() == 256
    &&& forall|k: int|
        0 <= k < 256 ==> 0 <= #[trigger] origin[k] < 256 && after[k] == before[origin[k]]
    &&& forall|a: int, b: int| 0 <= a < b < 256 ==> #[trigger] origin[a] != #[trigger] origin[b]
    &&& forall|k: int| n <= k < 256 ==> #[trigger] origin[k] == k
    &&& forall|k: int| 0 <= k < n ==> #[trigger] origin[k] < n
    &&& forall|k: int| i < k < n ==> #[trigger] origin[k] != k
    &&& forall|k: int| 0 <= k <= i ==> #[trigger] origin[k] == k || origin[k] > i
    &&& i == 0 ==> origin[0] != 0
}

/// One step of a shuffle: the entry at place `i` changes places with one
/// before it, and place `i` is dealt with.
proof fn lemma_shuffle_step(
    start: Seq<usize>,
    before: Seq<usize>,
    after: Seq<usize>,
    came_from: Seq<int>,
    origin: Seq<int>,
    n: int,
    i: int,
    target: int,
)
    requires
        0 <= target < i < n <= 256,
        before.len() == 256,
        shuffling(start, before, came_from, n, i),
        after == before.update(i, before[target]).update(target, before[i]),
        origin == came_from.update(i, came_from[target]).update(target, came_from[i]),
    ensures
        shuffling(start, after, origin, n, i - 1),
{
    let at = |k: int|
        if k == i {
            target
        } else if k == target {
            i
        } else {
            k
        };
    assert forall|k: int| 0 <= k < 256 implies 0 <= #[trigger] origin[k] < 256 && after[k]
        == start[origin[k]] by {
        assert(origin[k] == came_from[at(k)]);
        assert(after[k] == before[at(k)]);
    }
    assert forall|a: int, b: int| 0 <= a < b < 256 implies #[trigger] origin[a]
        != #[trigger] origin[b] by {
        assert(origin[a] == came_from[at(a)]);
        assert(origin[b] == came_from[at(b)]);
        if at(a) < at(b) {
            assert(came_from[at(a)] != came_from[at(b)]);
        } else {
            assert(came_from[at(b)] != came_from[at(a)]);
        }
    }
    assert forall|k: int| n <= k < 256 implies #[trigger] origin[k] == k by {
        assert(origin[k] == came_from[k]);
    }
    assert forall|k: int| 0 <= k < n implies #[trigger] origin[k] < n by {
        assert(origin[k] == came_from[at(k)]);
    }
    assert forall|k: int| i - 1 < k < n implies #[trigger] origin[k] != k by {
        if k == i {
            assert(origin[i] == came_from[target]);
            assert(came_from[target] == target || came_from[target] > i);
        } else {
            assert(origin[k] == came_from[k]);
        }
    }
    assert forall|k: int| 0 <= k <= i - 1 implies #[trigger] origin[k] == k || origin[k] > i
        - 1 by {
        if k == target {
            assert(origin[target] == came_from[i]);
            assert(came_from[i] == i || came_from[i] > i);
        } else {
            assert(origin[k] == came_from[k]);
            assert(came_from[k] == k || came_from[k] > i);
        }
    }
    if i - 1 == 0 {
        assert(target == 0);
        assert(origin[0] == came_from[i]);
        assert(came_from[i] == i || came_from[i] > i);
    }
}

/// A freshly shuffled table: the table in ascending order, shuffled from
/// end to end. It holds every number below [`POINT_COUNT`] once, and none
/// of them at the place of its own number.
pub fn perlin_generate_perm() -> (table: [usize; 256])
    ensures
        is_shuffle(table@),
        forall|k: int| 0 <= k < 256 ==> #[trigger] table@[k] != k,
{
    let mut table = ascending_table();
    let ghost ascending = table@;
    permute(&mut table, POINT_COUNT);
    proof {
        let origin = choose|origin: Seq<int>| shuffled(ascending, table@, origin, 256);
        assert forall|k: int| 0 <= k < 256 implies #[trigger] table@[k] != k by {
            assert(table@[k] == ascending[origin[k]]);
            assert(origin[k] != k);
        }
    }
    table
}

/// Exclusive or keeps numbers below 256 below 256.
proof fn lemma_xor_stays_below(a: usize, b: usize, c: usize)
    requires
        a < 256,
        b < 256,
        c < 256,
    ensures
        (a ^ b ^ c) < 256,
{
    assert((a ^ b ^ c) < 256) by (bit_vector)
        requires
            a < 256,
            b < 256,
            c < 256,
    ;
}

impl PerlinGenerator {
    /// Each table is a shuffle.
    pub open spec fn wf(self) -> bool {
        is_shuffle(self.perm_x@) && is_shuffle(self.perm_y@) && is_shuffle(self.perm_z@)
    }

    /// The number of the gradient at the lattice point (`i`, `j`, `k`): the
    /// entries of the three tables at the wrapped coordinates, combined by
    /// exclusive or.
    pub open spec fn gradient_index(self, i: int, j: int, k: int) -> usize {
        self.perm_x@[wrap(i)] ^ self.perm_y@[wrap(j)] ^ self.perm_z@[wrap(k)]
    }

    /// A generator with three freshly shuffled tables, in none of which a
    /// number stands at its own place.
    pub fn new() -> (generator: PerlinGenerator)
        ensures
            generator.wf(),
            forall|k: int| 0 <= k < 256 ==> #[trigger] generator.perm_x@[k] != k,
            forall|k: int| 0 <= k < 256 ==> #[trigger] generator.perm_y@[k] != k,
            forall|k: int| 0 <= k < 256 ==> #[trigger] generator.perm_z@[k] != k,
    {
        PerlinGenerator {
            perm_x: perlin_generate_perm(),
            perm_y: perlin_generate_perm(),
            perm_z: perlin_generate_perm(),
        }
    }

    /// The numbers of the gradients at the eight corners of the lattice cell
    /// whose lowest corner is (`i`, `j`, `k`). The corner that lies `di`,
    /// `dj` and `dk` further along the axes, each 0 or 1, stands at place
    /// `4 di + 2 dj + dk`.
    pub fn corners(&self, i: i32, j: i32, k: i32) -> (found: [usize; 8])
        requires
            self.wf(),
        ensures
            forall|di: int, dj: int, dk: int|
                0 <= di < 2 && 0 <= dj < 2 && 0 <= dk < 2 ==> #[trigger] found[4 * di + 2 * dj + dk]
                    == self.gradient_index(i + di, j + dj, k + dk),
            forall|n: int| 0 <= n < 8 ==> #[trigger] found[n] < 256,
    {
        let i0 = place(i, 0);
        let i1 = place(i, 1);
        let j0 = place(j, 0);
        let j1 = place(j, 1);
        let k0 = place(k, 0);
        let k1 = place(k, 1);
        proof {
            lemma_shuffle_in_range(self.perm_x@);
            lemma_shuffle_in_range(self.perm_y@);
            lemma_shuffle_in_range(self.perm_z@);
            lemma_xor_stays_below(self.perm_x@[i0 as int], self.perm_y@[j0 as int], self.perm_z@[k0 as int]);
            lemma_xor_stays_below(self.perm_x@[i0 as int], self.perm_y@[j0 as int], self.perm_z@[k1 as int]);
            lemma_xor_stays_below(self.perm_x@[i0 as int], self.perm_y@[j1 as int], self.perm_z@[k0 as int]);
            lemma_xor_stays_below(self.perm_x@[i0 as int], self.perm_y@[j1 as int], self.perm_z@[k1 as int]);
            lemma_xor_stays_below(self.perm_x@[i1 as int], self.perm_y@[j0 as int], self.perm_z@[k0 as int]);
            lemma_xor_stays_below(self.perm_x@[i1 as int], self.perm_y@[j0 as int], self.perm_z@[k1 as int]);
            lemma_xor_stays_below(self.perm_x@[i1 as int], self.perm_y@[j1 as int], self.perm_z@[k0 as int]);
            lemma_xor_stays_below(self.perm_x@[i1 as int], self.perm_y@[j1 as int], self.perm_z@[k1 as int]);
        }
        let found = [
            self.perm_x[i0] ^ self.perm_y[j0] ^ self.perm_z[k0],
            self.perm_x[i0] ^ self.perm_y[j0] ^ self.perm_z[k1],
            self.perm_x[i0] ^ self.perm_y[j1] ^ self.perm_z[k0],
            self.perm_x[i0] ^ self.perm_y[j1] ^ self.perm_z[k1],
            self.perm_x[i1] ^ self.perm_y[j0] ^ self.perm_z[k0],
            self.perm_x[i1] ^ self.perm_y[j0] ^ self.perm_z[k1],
            self.perm_x[i1] ^ self.perm_y[j1] ^ self.perm_z[k0],
            self.perm_x[i1] ^ self.perm_y[j1] ^ self.perm_z[k1],
        ];
        assert forall|di: int, dj: int, dk: int|
            0 <= di < 2 && 0 <= dj < 2 && 0 <= dk < 2 implies #[trigger] found[4 * di + 2 * dj + dk]
                == self.gradient_index(i + di, j + dj, k + dk) by {
            let n = 4 * di + 2 * dj + dk;
            assert(n == 0 || n == 1 || n == 2 || n == 3 || n == 4 || n == 5 || n == 6 || n == 7);
        }
        found
    }
}

/// The place in a table of the lattice coordinate `step` beyond
/// `coordinate`.
pub fn place(coordinate: i32, step: i32) -> (at: usize)
    requires
        0 <= step <= 1,
    ensures
        at == wrap(coordinate + step),
        at < 256,
{
    let low = coordinate & 255;
    assert(0 <= low < 256 && low == coordinate as int % 256) by (bit_vector)
        requires
            low == coordinate & 255,
    ;
    let next: i32 = low + step;
    let moved = next & 255;
    assert(0 <= moved < 256 && moved == next as int % 256) by (bit_vector)
        requires
            moved == next & 255,
    ;
    assert((coordinate + step) % 256 == ((coordinate as int % 256) + step) % 256) by {
        vstd::arithmetic::div_mod::lemma_add_mod_noop(coordinate as int, step as int, 256);
        vstd::arithmetic::div_mod::lemma_small_mod(step as nat, 256);
    }
    moved as usize
}

} // verus!
