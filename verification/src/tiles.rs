//! The rule that collapses one line of tiles, as mathematics.
//!
//! A tile is stored as its rank: rank `n` stands for the value `2^n`, and rank 0 for an
//! empty cell. Collapsing a line toward its front removes the gaps, joins equal
//! neighbours pairwise from the front into one tile of the next rank, and fills the line
//! up with empty cells. Collapsing toward the back is the same seen from the other end.

use vstd::prelude::*;
use crate::board::TileType;

verus! {

/// The tiles of `line` in order, without the empty cells between them.
pub open spec fn compact(line: Seq<TileType>) -> Seq<TileType>
    decreases line.len(),
{
    if line.len() == 0 {
        Seq::empty()
    } else if line[0] == 0 {
        compact(line.skip(1))
    } else {
        seq![line[0]] + compact(line.skip(1))
    }
}

/// Joins equal neighbours of `tiles` pairwise, from the front. A joined tile takes no
/// part in a second join: four equal tiles become two, not one.
pub open spec fn merge_pairs(tiles: Seq<TileType>) -> Seq<TileType>
    decreases tiles.len(),
{
    if tiles.len() == 0 {
        Seq::empty()
    } else if tiles.len() >= 2 && tiles[0] == tiles[1] {
        seq![(tiles[0] + 1) as TileType] + merge_pairs(tiles.skip(2))
    } else {
        seq![tiles[0]] + merge_pairs(tiles.skip(1))
    }
}

/// No pair that `merge_pairs` joins already has the highest rank a tile can hold.
pub open spec fn pairs_fit(tiles: Seq<TileType>) -> bool
    decreases tiles.len(),
{
    if tiles.len() < 2 {
        true
    } else if tiles[0] == tiles[1] {
        tiles[0] < TileType::MAX && pairs_fit(tiles.skip(2))
    } else {
        pairs_fit(tiles.skip(1))
    }
}

/// `n` empty cells.
pub open spec fn gaps(n: nat) -> Seq<TileType> {
    Seq::new(n, |i: int| 0)
}

/// `line` collapsed toward its front: its tiles joined pairwise, then empty cells up to
/// the length of `line`.
pub open spec fn merge_line(line: Seq<TileType>) -> Seq<TileType> {
    let joined = merge_pairs(compact(line));
    joined + gaps((line.len() - joined.len()) as nat)
}

/// Collapsing `line` joins no pair of the highest rank, so every joined rank fits a tile.
pub open spec fn line_fits(line: Seq<TileType>) -> bool {
    pairs_fit(compact(line))
}

/// No two neighbours in `tiles` are equal.
pub open spec fn no_equal_neighbours(tiles: Seq<TileType>) -> bool {
    forall|i: int| 0 <= i < tiles.len() - 1 ==> tiles[i] != #[trigger] tiles[i + 1]
}

/// No cell of `tiles` is empty.
pub open spec fn all_tiles(tiles: Seq<TileType>) -> bool {
    forall|i: int| 0 <= i < tiles.len() ==> #[trigger] tiles[i] != 0
}

/// What `compact` does with the cell at position `i`: drop a gap, keep a tile.
pub proof fn lemma_compact_step(line: Seq<TileType>, i: int)
    requires
        0 <= i < line.len(),
    ensures
        compact(line.skip(i)) == if line[i] == 0 {
            compact(line.skip(i + 1))
        } else {
            seq![line[i]] + compact(line.skip(i + 1))
        },
{
    assert(line.skip(i).skip(1) =~= line.skip(i + 1));
}

/// Two equal tiles at the front are joined; the rest is treated on its own.
pub proof fn lemma_join_front(tile: TileType, rest: Seq<TileType>)
    ensures
        merge_pairs(seq![tile, tile] + rest) == seq![(tile + 1) as TileType] + merge_pairs(rest),
        pairs_fit(seq![tile, tile] + rest) == (tile < TileType::MAX && pairs_fit(rest)),
{
    assert((seq![tile, tile] + rest).skip(2) =~= rest);
}

/// A tile at the front that differs from its neighbour stays as it is.
pub proof fn lemma_keep_front(tile: TileType, rest: Seq<TileType>)
    requires
        rest.len() == 0 || rest[0] != tile,
    ensures
        merge_pairs(seq![tile] + rest) == seq![tile] + merge_pairs(rest),
        pairs_fit(seq![tile] + rest) == pairs_fit(rest),
{
    assert((seq![tile] + rest).skip(1) =~= rest);
    if rest.len() == 0 {
        assert(pairs_fit(rest));
    }
}

/// `compact` keeps only tiles, and no more cells than the line has; a line that loses
/// nothing had no gap.
pub proof fn lemma_compact_bounds(line: Seq<TileType>)
    ensures
        compact(line).len() <= line.len(),
        all_tiles(compact(line)),
        compact(line).len() == line.len() ==> compact(line) == line,
        all_tiles(line) ==> compact(line) == line,
    decreases line.len(),
{
    if line.len() > 0 {
        lemma_compact_bounds(line.skip(1));
        if line[0] != 0 {
            if compact(line).len() == line.len() {
                assert(compact(line) =~= line) by {
                    assert(seq![line[0]] + line.skip(1) =~= line);
                }
            }
        }
        if all_tiles(line) {
            assert(all_tiles(line.skip(1))) by {
                let rest = line.skip(1);
                assert forall|i: int| 0 <= i < rest.len() implies #[trigger] rest[i] != 0 by {
                    assert(line[i + 1] != 0);
                }
            }
            assert(line[0] != 0);
            assert(seq![line[0]] + line.skip(1) =~= line);
        }
    } else {
        assert(compact(line) =~= line);
    }
}

/// Joining never lengthens; where it keeps the length it joined nothing.
pub proof fn lemma_merge_pairs_bounds(tiles: Seq<TileType>)
    ensures
        merge_pairs(tiles).len() <= tiles.len(),
        merge_pairs(tiles).len() == tiles.len() <==> no_equal_neighbours(tiles),
        no_equal_neighbours(tiles) ==> merge_pairs(tiles) == tiles,
    decreases tiles.len(),
{
    if tiles.len() == 0 {
        assert(merge_pairs(tiles) =~= tiles);
    } else if tiles.len() >= 2 && tiles[0] == tiles[1] {
        lemma_merge_pairs_bounds(tiles.skip(2));
        assert(tiles[0int] == tiles[0int + 1]);
    } else {
        let rest = tiles.skip(1);
        lemma_merge_pairs_bounds(rest);
        assert(seq![tiles[0]] + rest =~= tiles);
        if no_equal_neighbours(tiles) {
            assert forall|i: int| 0 <= i < rest.len() - 1 implies rest[i] != #[trigger] rest[i + 1]
            by {
                assert(tiles[i + 1] != tiles[i + 1 + 1]);
            }
        }
        if no_equal_neighbours(rest) {
            assert forall|i: int| 0 <= i < tiles.len() - 1 implies tiles[i] != #[trigger] tiles[i + 1]
            by {
                if i > 0 {
                    assert(rest[i - 1] != rest[i - 1 + 1]);
                }
            }
        }
    }
}

/// Joining tiles whose joined ranks fit yields tiles: no joined cell is empty.
pub proof fn lemma_merge_pairs_tiles(tiles: Seq<TileType>)
    requires
        all_tiles(tiles),
        pairs_fit(tiles),
    ensures
        all_tiles(merge_pairs(tiles)),
    decreases tiles.len(),
{
    if tiles.len() == 0 {
    } else if tiles.len() >= 2 && tiles[0] == tiles[1] {
        let rest = tiles.skip(2);
        assert forall|i: int| 0 <= i < rest.len() implies #[trigger] rest[i] != 0 by {
            assert(tiles[i + 2] != 0);
        }
        lemma_merge_pairs_tiles(rest);
    } else {
        let rest = tiles.skip(1);
        assert forall|i: int| 0 <= i < rest.len() implies #[trigger] rest[i] != 0 by {
            assert(tiles[i + 1] != 0);
        }
        lemma_merge_pairs_tiles(rest);
    }
}

/// A collapsed line is as long as the line it came from, and is its joined tiles
/// followed by gaps only.
pub proof fn lemma_merge_line_shape(line: Seq<TileType>)
    ensures
        merge_pairs(compact(line)).len() <= line.len(),
        merge_line(line).len() == line.len(),
        forall|i: int|
            0 <= i < merge_pairs(compact(line)).len() ==> #[trigger] merge_line(line)[i]
                == merge_pairs(compact(line))[i],
        forall|i: int|
            merge_pairs(compact(line)).len() <= i < line.len() ==> #[trigger] merge_line(line)[i]
                == 0,
{
    lemma_compact_bounds(line);
    lemma_merge_pairs_bounds(compact(line));
}

/// Tiles followed by gaps lose exactly the gaps when compacted.
pub proof fn lemma_compact_tiles_then_gaps(tiles: Seq<TileType>, n: nat)
    requires
        all_tiles(tiles),
    ensures
        compact(tiles + gaps(n)) == tiles,
    decreases tiles.len(), n,
{
    let line = tiles + gaps(n);
    if tiles.len() > 0 {
        let rest = tiles.skip(1);
        assert(line.skip(1) =~= rest + gaps(n));
        assert(tiles[0] != 0);
        assert forall|i: int| 0 <= i < rest.len() implies #[trigger] rest[i] != 0 by {
            assert(tiles[i + 1] != 0);
        }
        lemma_compact_tiles_then_gaps(rest, n);
        assert(seq![tiles[0]] + rest =~= tiles);
    } else if n > 0 {
        assert(line.skip(1) =~= tiles + gaps((n - 1) as nat));
        lemma_compact_tiles_then_gaps(tiles, (n - 1) as nat);
    } else {
        assert(line =~= tiles);
    }
}

/// Every rank of `line` is below the highest a tile can hold.
pub open spec fn below_highest(line: Seq<TileType>) -> bool {
    forall|i: int| 0 <= i < line.len() ==> #[trigger] line[i] < TileType::MAX
}

/// A line without a tile of the highest rank can always be collapsed.
pub proof fn lemma_low_ranks_fit(line: Seq<TileType>)
    requires
        below_highest(line),
    ensures
        line_fits(line),
        below_highest(compact(line)),
    decreases line.len(),
{
    if line.len() > 0 {
        let rest = line.skip(1);
        assert forall|i: int| 0 <= i < rest.len() implies #[trigger] rest[i] < TileType::MAX by {
            assert(line[i + 1] < TileType::MAX);
        }
        lemma_low_ranks_fit(rest);
        assert(line[0] < TileType::MAX);
    }
    lemma_low_pairs_fit(compact(line));
}

/// Tiles below the highest rank can always be joined.
pub proof fn lemma_low_pairs_fit(tiles: Seq<TileType>)
    requires
        below_highest(tiles),
    ensures
        pairs_fit(tiles),
    decreases tiles.len(),
{
    if tiles.len() >= 2 {
        let skipped: int = if tiles[0] == tiles[1] {
            2
        } else {
            1
        };
        let rest = tiles.skip(skipped);
        assert forall|i: int| 0 <= i < rest.len() implies #[trigger] rest[i] < TileType::MAX by {
            assert(tiles[i + skipped] < TileType::MAX);
        }
        lemma_low_pairs_fit(rest);
        assert(tiles[0] < TileType::MAX);
    }
}

/// A line that collapsing changes has an empty cell afterwards: either a gap closed or
/// two tiles became one.
pub proof fn lemma_changed_line_has_gap(line: Seq<TileType>)
    requires
        merge_line(line) != line,
    ensures
        exists|i: int| 0 <= i < line.len() && #[trigger] merge_line(line)[i] == 0,
{
    let joined = merge_pairs(compact(line));
    lemma_merge_line_shape(line);
    lemma_compact_bounds(line);
    lemma_merge_pairs_bounds(compact(line));
    if joined.len() == line.len() {
        assert(merge_line(line) =~= line);
    } else {
        assert(merge_line(line)[joined.len() as int] == 0);
    }
}

/// A line is settled when its tiles stand at the front without a gap between them
/// and no two neighbours among them are equal.
pub open spec fn settled(line: Seq<TileType>) -> bool {
    &&& no_equal_neighbours(compact(line))
    &&& line == compact(line) + gaps((line.len() - compact(line).len()) as nat)
}

/// A settled line cannot collapse further.
pub proof fn lemma_settled_line_stays(line: Seq<TileType>)
    requires
        settled(line),
    ensures
        merge_line(line) == line,
{
    lemma_merge_pairs_bounds(compact(line));
}

/// Collapsing `line` once leaves no two equal tiles side by side.
pub open spec fn settles_at_once(line: Seq<TileType>) -> bool {
    no_equal_neighbours(merge_pairs(compact(line)))
}

/// Collapsing a second time changes nothing, provided the first pass left no two equal
/// tiles side by side.
pub proof fn lemma_merge_twice(line: Seq<TileType>)
    requires
        line_fits(line),
        settles_at_once(line),
    ensures
        merge_line(merge_line(line)) == merge_line(line),
        settled(merge_line(line)),
{
    let joined = merge_pairs(compact(line));
    lemma_merge_line_shape(line);
    lemma_compact_bounds(line);
    lemma_merge_pairs_tiles(compact(line));
    lemma_compact_tiles_then_gaps(joined, (line.len() - joined.len()) as nat);
    lemma_settled_line_stays(merge_line(line));
}

/// Where the first pass leaves two equal tiles side by side, a second pass joins them:
/// collapsing twice then differs from collapsing once.
pub proof fn lemma_merge_twice_differs(line: Seq<TileType>)
    requires
        line_fits(line),
        !settles_at_once(line),
    ensures
        merge_line(merge_line(line)) != merge_line(line),
{
    let joined = merge_pairs(compact(line));
    let once = merge_line(line);
    lemma_merge_line_shape(line);
    lemma_compact_bounds(line);
    lemma_merge_pairs_tiles(compact(line));
    lemma_compact_tiles_then_gaps(joined, (line.len() - joined.len()) as nat);
    lemma_merge_pairs_bounds(joined);
    lemma_merge_line_shape(once);
    let again = merge_pairs(joined);
    assert(merge_line(once)[again.len() as int] == 0);
    assert(once[again.len() as int] == joined[again.len() as int]);
    assert(joined[again.len() as int] != 0);
}

/// `line` as it is seen from the end that it collapses toward: as it stands, or turned
/// round where it collapses toward its back.
pub open spec fn facing(line: Seq<TileType>, toward_back: bool) -> Seq<TileType> {
    if toward_back {
        line.reverse()
    } else {
        line
    }
}

/// `line` collapsed toward its front, or toward its back where `toward_back` says so.
pub open spec fn collapse(line: Seq<TileType>, toward_back: bool) -> Seq<TileType> {
    facing(merge_line(facing(line, toward_back)), toward_back)
}

/// Collapsing `line` in the given direction joins no pair of the highest rank.
pub open spec fn collapse_fits(line: Seq<TileType>, toward_back: bool) -> bool {
    line_fits(facing(line, toward_back))
}

/// Collapsing `line` once in the given direction leaves no two equal tiles side by
/// side.
pub open spec fn collapse_settles(line: Seq<TileType>, toward_back: bool) -> bool {
    settles_at_once(facing(line, toward_back))
}

/// Turning a line round twice gives the line.
pub proof fn lemma_facing_twice(line: Seq<TileType>, toward_back: bool)
    ensures
        facing(facing(line, toward_back), toward_back) == line,
        facing(line, toward_back).len() == line.len(),
{
    assert(line.reverse().reverse() =~= line);
}

/// A collapsed line is as long as the line it came from.
pub proof fn lemma_collapse_length(line: Seq<TileType>, toward_back: bool)
    ensures
        collapse(line, toward_back).len() == line.len(),
{
    lemma_merge_line_shape(facing(line, toward_back));
}

/// A line that collapsing changes, in either direction, has an empty cell afterwards.
pub proof fn lemma_changed_collapse_has_gap(line: Seq<TileType>, toward_back: bool)
    requires
        collapse(line, toward_back) != line,
    ensures
        exists|i: int| 0 <= i < line.len() && #[trigger] collapse(line, toward_back)[i] == 0,
{
    let seen = facing(line, toward_back);
    lemma_facing_twice(line, toward_back);
    lemma_merge_line_shape(seen);
    lemma_changed_line_has_gap(seen);
    let i = choose|i: int| 0 <= i < seen.len() && #[trigger] merge_line(seen)[i] == 0;
    if toward_back {
        assert(collapse(line, toward_back)[line.len() - 1 - i] == 0);
    } else {
        assert(collapse(line, toward_back)[i] == 0);
    }
}

/// Collapsing twice in one direction gives what collapsing once gives, provided the
/// first pass left no two equal tiles side by side.
pub proof fn lemma_collapse_twice(line: Seq<TileType>, toward_back: bool)
    requires
        collapse_fits(line, toward_back),
        collapse_settles(line, toward_back),
    ensures
        collapse(collapse(line, toward_back), toward_back) == collapse(line, toward_back),
{
    let seen = facing(line, toward_back);
    lemma_merge_twice(seen);
    lemma_facing_twice(merge_line(seen), toward_back);
}

/// Where the first pass leaves two equal tiles side by side, a second pass in the same
/// direction joins them: collapsing twice then differs from collapsing once.
pub proof fn lemma_collapse_twice_differs(line: Seq<TileType>, toward_back: bool)
    requires
        collapse_fits(line, toward_back),
        !collapse_settles(line, toward_back),
    ensures
        collapse(collapse(line, toward_back), toward_back) != collapse(line, toward_back),
{
    let seen = facing(line, toward_back);
    lemma_merge_twice_differs(seen);
    lemma_facing_twice(merge_line(seen), toward_back);
    lemma_facing_twice(merge_line(merge_line(seen)), toward_back);
}

/// A line without a tile of the highest rank can be collapsed in both directions.
pub proof fn lemma_low_ranks_collapse(line: Seq<TileType>, toward_back: bool)
    requires
        below_highest(line),
    ensures
        collapse_fits(line, toward_back),
{
    lemma_low_ranks_fit(facing(line, toward_back));
}

} // verus!
