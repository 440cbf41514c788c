use vstd::prelude::*;
use rand::seq::SliceRandom;

use crate::state::{Tile, TileStatus};

verus! {

/// The views of a sequence of owned strings.
pub open spec fn value_views(vals: Seq<String>) -> Seq<Seq<char>> {
    vals.map_values(|s: String| s@)
}

/// How often a symbol occurs in a list of owned strings.
pub open spec fn vcount(vals: Seq<String>, v: Seq<char>) -> nat {
    value_views(vals).to_multiset().count(v)
}

/// Some pool element carries exactly this view.
pub open spec fn pool_has_view(pool: Seq<String>, v: Seq<char>) -> bool {
    exists|j: int| 0 <= j < pool.len() && (#[trigger] pool[j])@ == v
}

/// No two pool elements carry the same view.
pub open spec fn distinct_views(pool: Seq<String>) -> bool {
    forall|i: int, j: int| 0 <= i < j < pool.len() ==> pool[i]@ != pool[j]@
}

/// The views of the values of a sequence of tiles.
pub open spec fn tile_value_views(tiles: Seq<Tile>) -> Seq<Seq<char>> {
    tiles.map_values(|t: Tile| t.value@)
}

/// How often a symbol occurs on a board.
pub open spec fn board_vcount(tiles: Seq<Tile>, v: Seq<char>) -> nat {
    tile_value_views(tiles).to_multiset().count(v)
}

/// The values of the hidden tiles, in board order.
pub open spec fn hidden_values(tiles: Seq<Tile>) -> Seq<Seq<char>>
    decreases tiles.len(),
{
    if tiles.len() == 0 {
        Seq::empty()
    } else {
        let rest = hidden_values(tiles.drop_last());
        if tiles.last().status == TileStatus::Hidden {
            rest.push(tiles.last().value@)
        } else {
            rest
        }
    }
}

/// A freshly generated board for the given grid: hidden symbol tiles first,
/// whose non-empty values group into whole match groups, then the few
/// pre-matched empty filler tiles.
pub open spec fn fresh_board(tiles: Seq<Tile>, cols: int, rows: int, msize: int) -> bool {
    let total = cols * rows;
    let remainder = total % msize;
    &&& tiles.len() == total
    &&& forall|i: int|
        0 <= i < total - remainder ==> (#[trigger] tiles[i]).status == TileStatus::Hidden
            && tiles[i].value@.len() > 0
    &&& forall|i: int|
        total - remainder <= i < total ==> (#[trigger] tiles[i]).status == TileStatus::Matched
            && tiles[i].value@.len() == 0
    &&& forall|v: Seq<char>| v.len() > 0 ==> #[trigger] board_vcount(tiles, v) as int % msize == 0
}

/// Extending a prefix by one tile adds its value to the hidden values
/// exactly when that tile is hidden.
pub(crate) proof fn lemma_hidden_values_take_step(s: Seq<Tile>, i: int)
    requires
        0 <= i < s.len(),
    ensures
        hidden_values(s.take(i + 1)) == (if s[i].status == TileStatus::Hidden {
            hidden_values(s.take(i)).push(s[i].value@)
        } else {
            hidden_values(s.take(i))
        }),
{
    assert(s.take(i + 1).drop_last() =~= s.take(i));
    assert(s.take(i + 1).last() == s[i]);
}

/// How many tiles are currently hidden.
pub fn count_hidden(tiles: &Vec<Tile>) -> (r: usize)
    ensures
        r == hidden_values(tiles@).len(),
{
    let mut count: usize = 0;
    let mut i: usize = 0;
    while i < tiles.len()
        invariant
            i <= tiles@.len(),
            count <= i,
            count == hidden_values(tiles@.take(i as int)).len(),
        decreases tiles@.len() - i,
    {
        proof {
            lemma_hidden_values_take_step(tiles@, i as int);
        }
        if tiles[i].status == TileStatus::Hidden {
            count += 1;
        }
        i += 1;
    }
    proof {
        assert(tiles@.take(tiles@.len() as int) =~= tiles@);
    }
    count
}

/// Relies on rand's `SliceRandom::shuffle`: an in-place permutation of the
/// slice, picked uniformly at random; the multiset of elements is unchanged.
#[verifier::external_body]
pub(crate) fn shuffle_values(v: &mut Vec<String>)
    ensures
        final(v)@.len() == old(v)@.len(),
        value_views(final(v)@).to_multiset() == value_views(old(v)@).to_multiset(),
{
    let mut rng = rand::rng();
    v.shuffle(&mut rng);
}

/// Relies on rand's `SliceRandom::shuffle`: an in-place permutation of the
/// slice, picked uniformly at random; the multiset of elements is unchanged.
#[verifier::external_body]
pub(crate) fn shuffle_indices(v: &mut Vec<usize>)
    ensures
        final(v)@.len() == old(v)@.len(),
        final(v)@.to_multiset() == old(v)@.to_multiset(),
{
    let mut rng = rand::rng();
    v.shuffle(&mut rng);
}

/// A count that is a multiple of `m` stays one after adding `m`.
proof fn lemma_mod_add_self(a: int, m: int)
    requires
        m >= 1,
        a >= 0,
        a % m == 0,
    ensures
        (a + m) % m == 0,
{
    assert((a + m) % m == 0) by (nonlinear_arith)
        requires
            m >= 1,
            a >= 0,
            a % m == 0,
    ;
}

/// Pushing one string extends the symbol counts by exactly one occurrence.
proof fn lemma_vcount_push(vals: Seq<String>, x: String)
    ensures
        forall|v: Seq<char>|
            #[trigger] vcount(vals.push(x), v) == vcount(vals, v) + (if x@ == v {
                1nat
            } else {
                0nat
            }),
{
    broadcast use vstd::seq_lib::group_to_multiset_ensures;

    assert(value_views(vals.push(x)) =~= value_views(vals).push(x@));
    assert forall|v: Seq<char>|
        #[trigger] vcount(vals.push(x), v) == vcount(vals, v) + (if x@ == v {
            1nat
        } else {
            0nat
        }) by {
        assert(value_views(vals).push(x@).to_multiset() =~= value_views(
            vals,
        ).to_multiset().insert(x@));
    }
}

/// A multiset-preserving rearrangement keeps every element's view non-empty
/// when all views were non-empty before.
proof fn lemma_views_nonempty_preserved(a: Seq<String>, b: Seq<String>)
    requires
        value_views(a).to_multiset() == value_views(b).to_multiset(),
        forall|i: int| 0 <= i < a.len() ==> a[i]@.len() > 0,
    ensures
        forall|i: int| 0 <= i < b.len() ==> b[i]@.len() > 0,
{
    broadcast use vstd::seq_lib::group_to_multiset_ensures;

    assert forall|i: int| 0 <= i < b.len() implies b[i]@.len() > 0 by {
        let v = value_views(b)[i];
        assert(value_views(b).contains(v));
        assert(value_views(b).to_multiset().count(v) > 0);
        assert(value_views(a).to_multiset().count(v) > 0);
        assert(value_views(a).contains(v));
        let j = choose|j: int| 0 <= j < value_views(a).len() && value_views(a)[j] == v;
        assert(a[j]@.len() > 0);
    }
}

/// A multiset-preserving rearrangement keeps every element's view among
/// the views present before.
proof fn lemma_views_membership(a: Seq<String>, b: Seq<String>)
    requires
        value_views(a).to_multiset() == value_views(b).to_multiset(),
    ensures
        forall|i: int| 0 <= i < b.len() ==> pool_has_view(a, (#[trigger] b[i])@),
{
    broadcast use vstd::seq_lib::group_to_multiset_ensures;

    assert forall|i: int| 0 <= i < b.len() implies pool_has_view(a, (#[trigger] b[i])@) by {
        let v = value_views(b)[i];
        assert(value_views(b).contains(v));
        assert(value_views(b).to_multiset().count(v) > 0);
        assert(value_views(a).to_multiset().count(v) > 0);
        assert(value_views(a).contains(v));
        let j = choose|j: int| 0 <= j < value_views(a).len() && value_views(a)[j] == v;
        assert((a[j])@ == v);
    }
}

/// A multiset-preserving rearrangement keeps the views pairwise distinct.
proof fn lemma_views_distinct_preserved(a: Seq<String>, b: Seq<String>)
    requires
        value_views(a).to_multiset() == value_views(b).to_multiset(),
        distinct_views(a),
    ensures
        distinct_views(b),
{
    broadcast use vstd::seq_lib::group_to_multiset_ensures;

    assert(value_views(a).no_duplicates()) by {
        assert forall|i: int, j: int|
            0 <= i < value_views(a).len() && 0 <= j < value_views(a).len() && i != j
            implies value_views(a)[i] != value_views(a)[j] by {
            if i < j {
                assert(a[i]@ != a[j]@);
            } else {
                assert(a[j]@ != a[i]@);
            }
        }
    }
    value_views(a).lemma_multiset_has_no_duplicates();
    assert forall|x: Seq<char>| value_views(b).to_multiset().contains(x) implies value_views(
        b,
    ).to_multiset().count(x) == 1 by {
        assert(value_views(a).to_multiset().count(x) == value_views(b).to_multiset().count(x));
    }
    value_views(b).lemma_multiset_has_no_duplicates_conv();
    assert forall|i: int, j: int| 0 <= i < j < b.len() implies (b[i])@ != (b[j])@ by {
        assert(value_views(b)[i] != value_views(b)[j]);
    }
}

/// Build a fresh board: `cols * rows` tiles, the hidden ones carrying
/// `(cols * rows) / match_size` symbol groups of `match_size` equal values
/// drawn (cyclically) from a shuffled copy of `pool`, shuffled uniformly, and
/// `(cols * rows) % match_size` pre-matched filler tiles with empty values at
/// the end.
pub fn generate_board(cols: i32, rows: i32, match_size: usize, pool: &Vec<String>) -> (r: Vec<Tile>)
    requires
        1 <= cols <= 100,
        1 <= rows <= 100,
        1 <= match_size,
        pool@.len() >= 1,
        forall|i: int| 0 <= i < pool@.len() ==> (#[trigger] pool@[i])@.len() > 0,
    ensures
        fresh_board(r@, cols as int, rows as int, match_size as int),
        forall|i: int|
            0 <= i < r@.len() && (#[trigger] r@[i]).value@.len() > 0 ==> pool_has_view(
                pool@,
                r@[i].value@,
            ),
        (distinct_views(pool@) && ((cols as int) * (rows as int)) / (match_size as int)
            <= pool@.len()) ==> forall|v: Seq<char>|
            v.len() > 0 ==> (#[trigger] board_vcount(r@, v)) == 0 || board_vcount(r@, v)
                == match_size,
{
    proof {
        assert((cols as int) * (rows as int) <= 10000) by (nonlinear_arith)
            requires
                1 <= cols <= 100,
                1 <= rows <= 100,
        ;
    }
    let total: usize = (cols as usize) * (rows as usize);
    let group_count: usize = total / match_size;
    let remainder: usize = total % match_size;
    proof {
        assert(group_count * match_size + remainder == total) by (nonlinear_arith)
            requires
                group_count == total / match_size,
                remainder == total % match_size,
                match_size >= 1,
        ;
    }

    let mut symbol_pool: Vec<String> = Vec::new();
    let mut i: usize = 0;
    while i < pool.len()
        invariant
            i <= pool@.len(),
            symbol_pool@.len() == i,
            forall|k: int| 0 <= k < pool@.len() ==> (#[trigger] pool@[k])@.len() > 0,
            forall|k: int| 0 <= k < i ==> (#[trigger] symbol_pool@[k])@ == pool@[k]@,
            forall|k: int| 0 <= k < i ==> (#[trigger] symbol_pool@[k])@.len() > 0,
        decreases pool@.len() - i,
    {
        symbol_pool.push(pool[i].clone());
        i += 1;
    }
    let ghost pre_pool = symbol_pool@;
    shuffle_values(&mut symbol_pool);
    proof {
        lemma_views_nonempty_preserved(pre_pool, symbol_pool@);
        lemma_views_membership(pre_pool, symbol_pool@);
        assert forall|k: int| 0 <= k < symbol_pool@.len() implies pool_has_view(
            pool@,
            (#[trigger] symbol_pool@[k])@,
        ) by {
            let j = choose|j: int|
                0 <= j < pre_pool.len() && (#[trigger] pre_pool[j])@ == symbol_pool@[k]@;
            assert((pool@[j])@ == symbol_pool@[k]@);
        }
        if distinct_views(pool@) {
            assert(distinct_views(pre_pool)) by {
                assert forall|i1: int, j1: int| 0 <= i1 < j1 < pre_pool.len() implies (
                pre_pool[i1])@ != (pre_pool[j1])@ by {
                    assert((pool@[i1])@ != (pool@[j1])@);
                }
            }
            lemma_views_distinct_preserved(pre_pool, symbol_pool@);
        }
    }

    let mut values: Vec<String> = Vec::new();
    proof {
        broadcast use vstd::seq_lib::group_to_multiset_ensures;

        assert(value_views(values@) =~= Seq::<Seq<char>>::empty());
        assert forall|v: Seq<char>| #[trigger] vcount(values@, v) as int % match_size as int
            == 0 by {
            assert(!value_views(values@).contains(v));
            assert(vcount(values@, v) == 0);
        }
    }
    let mut g: usize = 0;
    while g < group_count
        invariant
            g <= group_count,
            group_count * match_size <= total <= 10000,
            match_size >= 1,
            symbol_pool@.len() == pool@.len() >= 1,
            forall|k: int| 0 <= k < symbol_pool@.len() ==> (#[trigger] symbol_pool@[k])@.len() > 0,
            values@.len() == g * match_size,
            forall|k: int| 0 <= k < values@.len() ==> (#[trigger] values@[k])@.len() > 0,
            forall|v: Seq<char>| #[trigger] vcount(values@, v) as int % match_size as int == 0,
            forall|k: int|
                0 <= k < symbol_pool@.len() ==> pool_has_view(
                    pool@,
                    (#[trigger] symbol_pool@[k])@,
                ),
            forall|k: int|
                0 <= k < values@.len() ==> pool_has_view(pool@, (#[trigger] values@[k])@),
            (distinct_views(pool@) && group_count <= pool@.len()) ==> distinct_views(symbol_pool@),
            (distinct_views(pool@) && group_count <= pool@.len()) ==> (forall|v: Seq<char>|
                #[trigger] vcount(values@, v) <= match_size),
            (distinct_views(pool@) && group_count <= pool@.len()) ==> (forall|k: int|
                g <= k < group_count ==> #[trigger] vcount(values@, (symbol_pool@[k])@) == 0),
        decreases group_count - g,
    {
        proof {
            assert((g + 1) * match_size <= group_count * match_size && (g + 1) * match_size == g
                * match_size + match_size) by (nonlinear_arith)
                requires
                    g + 1 <= group_count,
                    match_size >= 1,
            ;
        }
        let sym = symbol_pool[g % symbol_pool.len()].clone();
        proof {
            assert(pool_has_view(pool@, sym@));
            if distinct_views(pool@) && group_count <= pool@.len() {
                assert((g as int) % (symbol_pool@.len() as int) == g as int) by (nonlinear_arith)
                    requires
                        0 <= (g as int) < symbol_pool@.len() as int,
                ;
                assert(sym@ == (symbol_pool@[g as int])@);
            }
        }
        let ghost entry = values@;
        let mut j: usize = 0;
        while j < match_size
            invariant
                j <= match_size,
                sym@.len() > 0,
                pool_has_view(pool@, sym@),
                values@.len() == entry.len() + j,
                forall|k: int| 0 <= k < values@.len() ==> (#[trigger] values@[k])@.len() > 0,
                forall|k: int|
                    0 <= k < entry.len() ==> (#[trigger] values@[k])@ == entry[k]@,
                forall|k: int| entry.len() <= k < values@.len() ==> (#[trigger] values@[k])@ == sym@,
                forall|v: Seq<char>|
                    #[trigger] vcount(values@, v) == vcount(entry, v) + (if v == sym@ {
                        j as nat
                    } else {
                        0nat
                    }),
            decreases match_size - j,
        {
            let ghost before = values@;
            values.push(sym.clone());
            proof {
                lemma_vcount_push(before, values@[values@.len() - 1]);
                assert(values@ == before.push(values@[values@.len() - 1]));
            }
            j += 1;
        }
        proof {
            assert forall|v: Seq<char>|
                #[trigger] vcount(values@, v) as int % match_size as int == 0 by {
                assert(vcount(entry, v) as int % match_size as int == 0);
                if v == sym@ {
                    lemma_mod_add_self(vcount(entry, v) as int, match_size as int);
                }
            }
            assert forall|k: int| 0 <= k < values@.len() implies pool_has_view(
                pool@,
                (#[trigger] values@[k])@,
            ) by {
                if k < entry.len() {
                    assert(values@[k]@ == entry[k]@);
                    assert(pool_has_view(pool@, (entry[k])@));
                } else {
                    assert(values@[k]@ == sym@);
                }
            }
            if distinct_views(pool@) && group_count <= pool@.len() {
                assert(sym@ == (symbol_pool@[g as int])@);
                assert(vcount(entry, sym@) == 0);
                assert forall|v: Seq<char>| #[trigger] vcount(values@, v) <= match_size by {
                    if v == sym@ {
                        assert(vcount(values@, v) == match_size);
                    } else {
                        assert(vcount(values@, v) == vcount(entry, v));
                    }
                }
                assert forall|k: int| g + 1 <= k < group_count implies #[trigger] vcount(
                    values@,
                    (symbol_pool@[k])@,
                ) == 0 by {
                    assert((symbol_pool@[k])@ != (symbol_pool@[g as int])@);
                    assert(vcount(values@, (symbol_pool@[k])@) == vcount(
                        entry,
                        (symbol_pool@[k])@,
                    ));
                }
            }
        }
        g += 1;
    }

    let ghost pre_values = values@;
    shuffle_values(&mut values);
    proof {
        lemma_views_nonempty_preserved(pre_values, values@);
        lemma_views_membership(pre_values, values@);
        assert forall|k: int| 0 <= k < values@.len() implies pool_has_view(
            pool@,
            (#[trigger] values@[k])@,
        ) by {
            let j = choose|j: int|
                0 <= j < pre_values.len() && (#[trigger] pre_values[j])@ == values@[k]@;
            assert(pool_has_view(pool@, (pre_values[j])@));
        }
        if distinct_views(pool@) && group_count <= pool@.len() {
            assert forall|v: Seq<char>| #[trigger] vcount(values@, v) <= match_size by {
                assert(vcount(values@, v) == vcount(pre_values, v));
            }
        }
        broadcast use vstd::seq_lib::group_to_multiset_ensures;

        assert(value_views(values@).to_multiset().len() == value_views(
            pre_values,
        ).to_multiset().len());
        assert(value_views(values@).len() == values@.len());
        assert(value_views(pre_values).len() == pre_values.len());
    }

    let hidden_count: usize = values.len();
    let mut tiles: Vec<Tile> = Vec::new();
    let mut k: usize = 0;
    while k < hidden_count
        invariant
            k <= hidden_count,
            hidden_count == values@.len(),
            tiles@.len() == k,
            forall|t: int|
                0 <= t < k ==> (#[trigger] tiles@[t]).status == TileStatus::Hidden
                    && tiles@[t].value@ == values@[t]@,
        decreases hidden_count - k,
    {
        tiles.push(Tile { value: values[k].clone(), status: TileStatus::Hidden });
        k += 1;
    }

    let mut f: usize = 0;
    while f < remainder
        invariant
            f <= remainder,
            hidden_count == values@.len(),
            tiles@.len() == hidden_count + f,
            forall|t: int|
                0 <= t < hidden_count ==> (#[trigger] tiles@[t]).status == TileStatus::Hidden
                    && tiles@[t].value@ == values@[t]@,
            forall|t: int|
                hidden_count <= t < tiles@.len() ==> (#[trigger] tiles@[t]).status
                    == TileStatus::Matched && tiles@[t].value@.len() == 0,
        decreases remainder - f,
    {
        tiles.push(Tile { value: String::new(), status: TileStatus::Matched });
        f += 1;
    }

    proof {
        assert(tiles@.len() == total);
        assert(total as int == (cols as int) * (rows as int));
        assert(total as int % match_size as int == remainder as int);
        assert(hidden_count as int == total - remainder);
        assert forall|v: Seq<char>| v.len() > 0 implies #[trigger] board_vcount(tiles@, v) as int
            % match_size as int == 0 by {
            lemma_board_vcount_from_values(tiles@, values@, v);
            assert(vcount(pre_values, v) as int % match_size as int == 0);
            assert(vcount(values@, v) == vcount(pre_values, v));
        }
        assert forall|i: int|
            0 <= i < tiles@.len() && (#[trigger] tiles@[i]).value@.len() > 0 implies pool_has_view(
            pool@,
            tiles@[i].value@,
        ) by {
            assert(i < hidden_count);
            assert(tiles@[i].value@ == values@[i]@);
            assert(pool_has_view(pool@, (values@[i])@));
        }
        if distinct_views(pool@) && ((cols as int) * (rows as int)) / (match_size as int)
            <= pool@.len() {
            assert(group_count as int == ((cols as int) * (rows as int)) / (match_size as int));
            assert forall|v: Seq<char>| v.len() > 0 implies (#[trigger] board_vcount(tiles@, v))
                == 0 || board_vcount(tiles@, v) == match_size by {
                lemma_board_vcount_from_values(tiles@, values@, v);
                assert(vcount(values@, v) <= match_size);
                assert(vcount(values@, v) as int % match_size as int == 0) by {
                    assert(vcount(values@, v) == vcount(pre_values, v));
                }
                let c = vcount(values@, v) as int;
                if 0 < c < match_size as int {
                    assert(c % match_size as int == c) by (nonlinear_arith)
                        requires
                            0 <= c < match_size as int,
                    ;
                }
            }
        }
    }
    tiles
}

/// When `idxs` lists exactly the hidden positions of `tiles` in increasing
/// order and `vals` gives the values seen there, those values are precisely
/// the board's hidden values in board order.
pub(crate) proof fn lemma_hidden_values_match(tiles: Seq<Tile>, idxs: Seq<usize>, vals: Seq<Seq<char>>)
    requires
        idxs.len() == vals.len(),
        forall|j: int| 0 <= j < idxs.len() ==> (#[trigger] idxs[j]) < tiles.len(),
        forall|j1: int, j2: int| 0 <= j1 < j2 < idxs.len() ==> idxs[j1] < idxs[j2],
        forall|j: int|
            0 <= j < idxs.len() ==> (#[trigger] tiles[idxs[j] as int]).status == TileStatus::Hidden
                && tiles[idxs[j] as int].value@ == vals[j],
        forall|i: int|
            0 <= i < tiles.len() && (#[trigger] tiles[i]).status == TileStatus::Hidden ==> exists|
                j: int,
            | 0 <= j < idxs.len() && idxs[j] == i,
    ensures
        hidden_values(tiles) == vals,
    decreases tiles.len(),
{
    if tiles.len() == 0 {
        assert(idxs.len() == 0) by {
            if idxs.len() > 0 {
                assert(idxs[0] < tiles.len());
            }
        }
        assert(vals =~= Seq::<Seq<char>>::empty());
    } else {
        let n = tiles.len() - 1;
        let prefix = tiles.drop_last();
        if tiles[n].status == TileStatus::Hidden {
            let j0 = choose|j: int| 0 <= j < idxs.len() && idxs[j] == n;
            assert(j0 == idxs.len() - 1) by {
                if j0 < idxs.len() - 1 {
                    assert(idxs[j0] < idxs[idxs.len() - 1]);
                    assert(idxs[idxs.len() - 1] < tiles.len());
                }
            }
            assert forall|j: int| 0 <= j < idxs.len() - 1 implies (#[trigger] idxs[j])
                < prefix.len() by {
                assert(idxs[j] < idxs[idxs.len() - 1]);
            }
            assert forall|i: int|
                0 <= i < prefix.len() && (#[trigger] prefix[i]).status == TileStatus::Hidden
                implies exists|j: int| 0 <= j < idxs.len() - 1 && idxs.drop_last()[j] == i by {
                assert(tiles[i].status == TileStatus::Hidden);
                let j = choose|j: int| 0 <= j < idxs.len() && idxs[j] == i;
                assert(j != idxs.len() - 1);
                assert(idxs.drop_last()[j] == i);
            }
            lemma_hidden_values_match(prefix, idxs.drop_last(), vals.drop_last());
            assert(vals =~= vals.drop_last().push(vals[idxs.len() - 1]));
        } else {
            assert forall|j: int| 0 <= j < idxs.len() implies (#[trigger] idxs[j])
                < prefix.len() by {
                assert(tiles[idxs[j] as int].status == TileStatus::Hidden);
                if idxs[j] == n {
                    assert(tiles[n].status == TileStatus::Hidden);
                }
            }
            lemma_hidden_values_match(prefix, idxs, vals);
        }
    }
}

/// On a board whose prefix carries exactly the given values and whose tail is
/// all empty-valued filler, any non-empty symbol occurs as often as it does
/// among the values.
proof fn lemma_board_vcount_from_values(tiles: Seq<Tile>, values: Seq<String>, v: Seq<char>)
    requires
        v.len() > 0,
        values.len() <= tiles.len(),
        forall|t: int|
            0 <= t < values.len() ==> (#[trigger] tiles[t]).value@ == values[t]@,
        forall|t: int|
            values.len() <= t < tiles.len() ==> (#[trigger] tiles[t]).value@.len() == 0,
    ensures
        board_vcount(tiles, v) == vcount(values, v),
    decreases tiles.len(),
{
    broadcast use vstd::seq_lib::group_to_multiset_ensures;

    if tiles.len() == 0 {
        assert(tile_value_views(tiles) =~= Seq::<Seq<char>>::empty());
        assert(value_views(values) =~= Seq::<Seq<char>>::empty());
    } else if tiles.len() > values.len() {
        let prefix = tiles.drop_last();
        lemma_board_vcount_from_values(prefix, values, v);
        assert(tile_value_views(tiles) =~= tile_value_views(prefix).push(tiles.last().value@));
        assert(tile_value_views(prefix).push(tiles.last().value@).to_multiset()
            =~= tile_value_views(prefix).to_multiset().insert(tiles.last().value@));
        assert(tiles.last().value@ != v);
    } else {
        let prefix = tiles.drop_last();
        let vprefix = values.drop_last();
        lemma_board_vcount_from_values(prefix, vprefix, v);
        assert(tile_value_views(tiles) =~= tile_value_views(prefix).push(tiles.last().value@));
        assert(tile_value_views(prefix).push(tiles.last().value@).to_multiset()
            =~= tile_value_views(prefix).to_multiset().insert(tiles.last().value@));
        assert(value_views(values) =~= value_views(vprefix).push(values.last()@));
        assert(value_views(vprefix).push(values.last()@).to_multiset() =~= value_views(
            vprefix,
        ).to_multiset().insert(values.last()@));
        assert(tiles.last().value@ == values.last()@);
    }
}

} // verus!
