//! The character grid: which cell a position falls into, and the text of
//! the grid with every particle marked.

use vstd::prelude::*;
use vstd::string::StringExecFns;
use crate::arena::Arena;
use crate::geometry::Point;
use crate::particles::{after_ticks, all_inside, all_wf, lemma_store_stays_inside, Node};

verus! {

/// Numbers of columns `.0` and rows `.1` of a grid.
pub type Size = (usize, usize);

/// A cell of a grid, by its column `.0` and its row `.1`.
pub type Coordinate = (usize, usize);

/// The cell that a position falls into along one axis:
/// `position / extent * cells`, floored, and held to the range of an index
/// (0 for a position before the origin).
pub open spec fn cell_index(position: int, extent: int, cells: int) -> int {
    if position < 0 {
        0
    } else if (position * cells) / extent > usize::MAX {
        usize::MAX as int
    } else {
        (position * cells) / extent
    }
}

/// The column that a point falls into.
pub open spec fn board_column(point: Point, resolution: Size, arena: Arena) -> int {
    cell_index(point.0 as int, arena.width as int, resolution.0 as int)
}

/// The row that a point falls into.
pub open spec fn board_row(point: Point, resolution: Size, arena: Arena) -> int {
    cell_index(point.1 as int, arena.height as int, resolution.1 as int)
}

/// Whether a point falls into a cell of the grid.
pub open spec fn on_board(point: Point, resolution: Size, arena: Arena) -> bool {
    board_column(point, resolution, arena) < resolution.0 && board_row(point, resolution, arena)
        < resolution.1
}

/// Whether one of the first `upto` particles falls into the cell.
pub open spec fn marked(
    nodes: Seq<Node>,
    upto: int,
    resolution: Size,
    arena: Arena,
    column: int,
    row: int,
) -> bool {
    exists|k: int|
        0 <= k < upto && board_column((#[trigger] nodes[k]).position, resolution, arena) == column
            && board_row(nodes[k].position, resolution, arena) == row
}

/// The character of a cell: `'O'` where a particle falls into it, `'.'`
/// where none does.
pub open spec fn cell_char(
    nodes: Seq<Node>,
    resolution: Size,
    arena: Arena,
    column: int,
    row: int,
) -> char {
    if marked(nodes, nodes.len() as int, resolution, arena, column, row) {
        'O'
    } else {
        '.'
    }
}

/// The text of one row: one character for each column.
pub open spec fn row_text(nodes: Seq<Node>, resolution: Size, arena: Arena, row: int) -> Seq<
    char,
> {
    Seq::new(resolution.0 as nat, |column: int| cell_char(nodes, resolution, arena, column, row))
}

/// The text of the first `rows` rows, one row per line, with a line feed
/// between two rows and none at the end.
pub open spec fn board_text(nodes: Seq<Node>, resolution: Size, arena: Arena, rows: nat) -> Seq<
    char,
>
    decreases rows,
{
    if rows == 0 {
        Seq::empty()
    } else if rows == 1 {
        row_text(nodes, resolution, arena, 0)
    } else {
        board_text(nodes, resolution, arena, (rows - 1) as nat) + seq!['\n'] + row_text(
            nodes,
            resolution,
            arena,
            rows - 1,
        )
    }
}

/// The control sequence that clears the terminal: escape, `[2J`.
pub open spec fn clear_sequence() -> Seq<char> {
    seq!['\u{1b}', '[', '2', 'J']
}

/// The text of one frame: the clear sequence, the rows of the grid, and a
/// line feed after the last row.
pub open spec fn frame_text(nodes: Seq<Node>, resolution: Size, arena: Arena) -> Seq<char> {
    clear_sequence() + board_text(nodes, resolution, arena, resolution.1 as nat) + seq!['\n']
}

/// A position before the far wall falls into a cell of the grid, and a
/// position on the far wall falls just beyond the last cell.
pub proof fn lemma_cell_in_grid(position: int, extent: int, cells: int)
    requires
        0 <= position <= extent,
        0 < extent,
        0 <= cells <= usize::MAX,
    ensures
        position < extent && cells > 0 ==> 0 <= cell_index(position, extent, cells) < cells,
        position == extent ==> cell_index(position, extent, cells) == cells,
        0 <= cell_index(position, extent, cells) <= cells,
{
    let q = (position * cells) / extent;
    vstd::arithmetic::div_mod::lemma_fundamental_div_mod(position * cells, extent);
    let r = (position * cells) % extent;
    assert(0 <= q <= cells && (position < extent && cells > 0 ==> q < cells) && (position
        == extent ==> q == cells)) by (nonlinear_arith)
        requires
            position * cells == extent * q + r,
            0 <= r < extent,
            0 <= position <= extent,
            0 <= cells,
    ;
}

/// A point inside the arena and off its right and bottom walls falls into a
/// cell of the grid.
pub proof fn lemma_on_board(point: Point, resolution: Size, arena: Arena)
    requires
        arena.wf(),
        0 <= point.0 < arena.width,
        0 <= point.1 < arena.height,
        resolution.0 > 0,
        resolution.1 > 0,
    ensures
        on_board(point, resolution, arena),
{
    lemma_cell_in_grid(point.0 as int, arena.width as int, resolution.0 as int);
    lemma_cell_in_grid(point.1 as int, arena.height as int, resolution.1 as int);
}

/// However many ticks have passed, a particle of a store that began inside
/// the arena falls into a cell of the grid, unless it stands on the right or
/// the bottom wall.
pub proof fn lemma_marker_on_board(
    nodes: Seq<Node>,
    arena: Arena,
    resolution: Size,
    ticks: nat,
    i: int,
)
    requires
        arena.wf(),
        all_wf(nodes),
        all_inside(nodes, arena),
        resolution.0 > 0,
        resolution.1 > 0,
        0 <= i < nodes.len(),
        after_ticks(nodes, arena, ticks)[i].position.0 < arena.width,
        after_ticks(nodes, arena, ticks)[i].position.1 < arena.height,
    ensures
        on_board(after_ticks(nodes, arena, ticks)[i].position, resolution, arena),
{
    lemma_store_stays_inside(nodes, arena, ticks);
    lemma_on_board(after_ticks(nodes, arena, ticks)[i].position, resolution, arena);
}

/// Computes the cell that a position falls into along one axis.
fn cell_of(position: i32, extent: i32, cells: usize) -> (cell: usize)
    requires
        extent > 0,
    ensures
        cell == cell_index(position as int, extent as int, cells as int),
{
    if position < 0 {
        return 0;
    }
    assert(0 <= position * cells <= 0x7FFF_FFFF * 0xFFFF_FFFF_FFFF_FFFF) by (nonlinear_arith)
        requires
            0 <= position <= 0x7FFF_FFFF,
            0 <= cells <= 0xFFFF_FFFF_FFFF_FFFF,
    ;
    let scaled: u128 = position as u128 * cells as u128;
    let cell: u128 = scaled / extent as u128;
    if cell > usize::MAX as u128 {
        usize::MAX
    } else {
        cell as usize
    }
}

/// Maps a point of the arena to its cell of the grid, each axis on its own:
/// `position / extent * cells`, floored.
pub fn point_to_board_coord(point: Point, resolution: Size, arena: &Arena) -> (coord: Coordinate)
    requires
        arena.wf(),
    ensures
        coord.0 == board_column(point, resolution, *arena),
        coord.1 == board_row(point, resolution, *arena),
        0 <= point.0 < arena.width && 0 <= point.1 < arena.height && resolution.0 > 0
            && resolution.1 > 0 ==> coord.0 < resolution.0 && coord.1 < resolution.1,
{
    proof {
        if 0 <= point.0 < arena.width && 0 <= point.1 < arena.height && resolution.0 > 0
            && resolution.1 > 0 {
            lemma_on_board(point, resolution, *arena);
        }
    }
    (cell_of(point.0, arena.width, resolution.0), cell_of(point.1, arena.height, resolution.1))
}

/// Draws one frame as text: the sequence that clears the terminal, then
/// one line for each row of the grid, with `'O'` in every cell that a
/// particle falls into and `'.'` in every other, and a line feed after each
/// line.
///
/// Particles that share a cell show as one mark.
pub fn render(nodes: &Vec<Node>, resolution: Size, arena: &Arena) -> (text: String)
    requires
        arena.wf(),
        forall|i: int|
            0 <= i < nodes@.len() ==> on_board((#[trigger] nodes@[i]).position, resolution, *arena),
    ensures
        text@ == frame_text(nodes@, resolution, *arena),
{
    let mut text: String = String::new();
    let mut row: usize = 0;
    proof {
        reveal_strlit("\u{1b}[2J");
        reveal_strlit("\n");
        reveal_strlit("O");
        reveal_strlit(".");
        assert("\u{1b}[2J"@ =~= clear_sequence());
    }
    text.append("\u{1b}[2J");
    while row < resolution.1
        invariant
            arena.wf(),
            row <= resolution.1,
            forall|i: int|
                0 <= i < nodes@.len() ==> on_board(
                    (#[trigger] nodes@[i]).position,
                    resolution,
                    *arena,
                ),
            text@ == clear_sequence() + board_text(nodes@, resolution, *arena, row as nat),
            "\n"@ =~= seq!['\n'],
            "O"@ =~= seq!['O'],
            "."@ =~= seq!['.'],
        decreases resolution.1 - row,
    {
        let marks: Vec<bool> = row_marks(nodes, resolution, arena, row);
        if row > 0 {
            text.append("\n");
        }
        let ghost before: Seq<char> = text@;
        let mut column: usize = 0;
        while column < resolution.0
            invariant
                column <= resolution.0,
                marks@.len() == resolution.0,
                forall|c: int|
                    0 <= c < resolution.0 ==> (#[trigger] marks@[c] <==> marked(
                        nodes@,
                        nodes@.len() as int,
                        resolution,
                        *arena,
                        c,
                        row as int,
                    )),
                text@ =~= before + row_text(nodes@, resolution, *arena, row as int).subrange(
                    0,
                    column as int,
                ),
                "O"@ =~= seq!['O'],
                "."@ =~= seq!['.'],
            decreases resolution.0 - column,
        {
            if marks[column] {
                text.append("O");
            } else {
                text.append(".");
            }
            column += 1;
        }
        proof {
            let line = row_text(nodes@, resolution, *arena, row as int);
            assert(line.subrange(0, resolution.0 as int) =~= line);
            let drawn = board_text(nodes@, resolution, *arena, row as nat);
            if row > 0 {
                assert(text@ =~= clear_sequence() + (drawn + seq!['\n'] + line));
            } else {
                assert(drawn =~= Seq::<char>::empty());
                assert(text@ =~= clear_sequence() + line);
            }
        }
        row += 1;
    }
    text.append("\n");
    text
}

/// Marks the columns of one row that a particle falls into.
fn row_marks(nodes: &Vec<Node>, resolution: Size, arena: &Arena, row: usize) -> (marks: Vec<bool>)
    requires
        arena.wf(),
        forall|i: int|
            0 <= i < nodes@.len() ==> on_board((#[trigger] nodes@[i]).position, resolution, *arena),
    ensures
        marks@.len() == resolution.0,
        forall|c: int|
            0 <= c < resolution.0 ==> (#[trigger] marks@[c] <==> marked(
                nodes@,
                nodes@.len() as int,
                resolution,
                *arena,
                c,
                row as int,
            )),
{
    let mut marks: Vec<bool> = Vec::new();
    let mut column: usize = 0;
    while column < resolution.0
        invariant
            column <= resolution.0,
            marks@.len() == column,
            forall|c: int| 0 <= c < column ==> !(#[trigger] marks@[c]),
        decreases resolution.0 - column,
    {
        marks.push(false);
        column += 1;
    }
    let mut i: usize = 0;
    while i < nodes.len()
        invariant
            arena.wf(),
            i <= nodes@.len(),
            marks@.len() == resolution.0,
            forall|k: int|
                0 <= k < nodes@.len() ==> on_board(
                    (#[trigger] nodes@[k]).position,
                    resolution,
                    *arena,
                ),
            forall|c: int|
                0 <= c < resolution.0 ==> (#[trigger] marks@[c] <==> marked(
                    nodes@,
                    i as int,
                    resolution,
                    *arena,
                    c,
                    row as int,
                )),
        decreases nodes@.len() - i,
    {
        let coord: Coordinate = point_to_board_coord(nodes[i].position, resolution, arena);
        let ghost old_marks: Seq<bool> = marks@;
        if coord.1 == row {
            marks.set(coord.0, true);
        }
        proof {
            assert forall|c: int| 0 <= c < resolution.0 implies (#[trigger] marks@[c] <==> marked(
                nodes@,
                i + 1,
                resolution,
                *arena,
                c,
                row as int,
            )) by {
                let here = board_column(nodes@[i as int].position, resolution, *arena) == c
                    && board_row(nodes@[i as int].position, resolution, *arena) == row;
                if marked(nodes@, i + 1, resolution, *arena, c, row as int) {
                    let k = choose|k: int|
                        0 <= k < i + 1 && board_column(
                            (#[trigger] nodes@[k]).position,
                            resolution,
                            *arena,
                        ) == c && board_row(nodes@[k].position, resolution, *arena) == row;
                    if k < i {
                        assert(marked(nodes@, i as int, resolution, *arena, c, row as int));
                    }
                }
                if marked(nodes@, i as int, resolution, *arena, c, row as int) || here {
                    assert(marked(nodes@, i + 1, resolution, *arena, c, row as int));
                }
            }
        }
        i += 1;
    }
    marks
}

} // verus!
