//! The presenter: compares a new frame with the one shown before and lists
//! the cells that have to be rewritten, and decides when the next frame is
//! due.

use vstd::prelude::*;
use crate::grid::{Grid, cell_index, lemma_cell_index};

verus! {

/// One cell to rewrite on the display: its row and column, counted from
/// zero, and the character to show there.
#[derive(Clone, Copy, Debug, PartialEq, Eq, Structural)]
pub struct CellUpdate {
    pub row: usize,
    pub col: usize,
    pub glyph: char,
}

/// What to do at one turn of the display loop: whether to build and show a
/// frame, and how long to sleep afterwards.
#[derive(Clone, Copy, Debug, PartialEq, Eq, Structural)]
pub struct Pace {
    pub render: bool,
    pub sleep: u64,
}

/// Whether two frames differ in the cell at a place.
pub open spec fn differs(new: Seq<char>, old: Seq<char>) -> spec_fn(int) -> bool {
    |i: int| new[i] != old[i]
}

/// The places `0, 1, ..` up to `n`, without `n`.
pub open spec fn places(n: nat) -> Seq<int> {
    Seq::new(n, |i: int| i)
}

/// The update that shows the cell of `new` at a place, on a display that is
/// `cols` wide.
pub open spec fn update_at(new: Seq<char>, cols: int) -> spec_fn(int) -> CellUpdate {
    |i: int| CellUpdate { row: (i / cols) as usize, col: (i % cols) as usize, glyph: new[i] }
}

/// The updates for the first `n` cells: one for each cell in which `new`
/// differs from `old`, in the order of the cells.
pub open spec fn updates_before(new: Seq<char>, old: Seq<char>, cols: int, n: nat) -> Seq<
    CellUpdate,
> {
    places(n).filter(differs(new, old)).map_values(update_at(new, cols))
}

/// The updates that turn a display showing `old` into one showing `new`.
pub open spec fn screen_updates(new: Seq<char>, old: Seq<char>, cols: int) -> Seq<CellUpdate> {
    updates_before(new, old, cols, new.len())
}

/// When to show a frame: as soon as `interval` has passed since the last
/// one. After a frame the loop sleeps for a whole interval, before it for
/// what is left of the running one.
pub open spec fn pace_spec(elapsed: u64, interval: u64) -> Pace {
    if elapsed >= interval {
        Pace { render: true, sleep: interval }
    } else {
        Pace { render: false, sleep: (interval - elapsed) as u64 }
    }
}

proof fn lemma_updates_step(new: Seq<char>, old: Seq<char>, cols: int, n: nat)
    ensures
        updates_before(new, old, cols, n + 1) == (if new[n as int] != old[n as int] {
            updates_before(new, old, cols, n).push(update_at(new, cols)(n as int))
        } else {
            updates_before(new, old, cols, n)
        }),
        updates_before(new, old, cols, 0) == Seq::<CellUpdate>::empty(),
{
    let pred = differs(new, old);
    let f = update_at(new, cols);
    assert(places(n + 1) =~= places(n).push(n as int));
    places(n).lemma_filter_push(n as int, pred);
    let kept = places(n).filter(pred);
    if pred(n as int) {
        assert(kept.push(n as int).map_values(f) =~= kept.map_values(f).push(f(n as int)));
    }
    assert(places(0) =~= Seq::<int>::empty());
    places(0).lemma_filter_len(pred);
    assert(places(0).filter(pred).map_values(f) =~= Seq::<CellUpdate>::empty());
}

/// Two frames that are equal cell by cell need no update.
pub proof fn lemma_same_frame_no_updates(frame: Seq<char>, cols: int)
    ensures
        screen_updates(frame, frame, cols) == Seq::<CellUpdate>::empty(),
{
    let pred = differs(frame, frame);
    let kept = places(frame.len()).filter(pred);
    if kept.len() > 0 {
        places(frame.len()).lemma_filter_pred(pred, 0);
        assert(pred(kept[0]));
    }
    assert(kept.map_values(update_at(frame, cols)) =~= Seq::<CellUpdate>::empty());
}

/// Every update shows, at a place inside the frame where the frames
/// differ, the character of the new frame; the updates come in the order of
/// the cells.
pub proof fn lemma_updates_sound(new: Seq<char>, old: Seq<char>, cols: int, j: int)
    requires
        0 <= j < screen_updates(new, old, cols).len(),
    ensures
        ({
            let kept = places(new.len()).filter(differs(new, old));
            let i = kept[j];
            &&& kept.len() == screen_updates(new, old, cols).len()
            &&& 0 <= i < new.len()
            &&& new[i] != old[i]
            &&& screen_updates(new, old, cols)[j] == update_at(new, cols)(i)
        }),
{
    let pred = differs(new, old);
    let kept = places(new.len()).filter(pred);
    places(new.len()).lemma_filter_pred(pred, j);
    assert(kept.contains(kept[j]));
    places(new.len()).lemma_filter_contains_rev(pred, kept[j]);
}

/// Every cell in which the frames differ has its update.
pub proof fn lemma_updates_complete(new: Seq<char>, old: Seq<char>, cols: int, i: int)
    requires
        0 <= i < new.len(),
        new[i] != old[i],
    ensures
        screen_updates(new, old, cols).contains(update_at(new, cols)(i)),
{
    let pred = differs(new, old);
    let kept = places(new.len()).filter(pred);
    places(new.len()).lemma_filter_contains(pred, i);
    assert(places(new.len())[i] == i);
    let j = choose|j: int| 0 <= j < kept.len() && kept[j] == i;
    assert(kept.map_values(update_at(new, cols))[j] == update_at(new, cols)(i));
}

/// What a display shows after the first `n` of `updates` have been written
/// to it, when it showed `shown` before and is `cols` wide.
pub open spec fn replayed(shown: Seq<char>, updates: Seq<CellUpdate>, cols: int, n: nat) -> Seq<
    char,
>
    decreases n,
{
    if n == 0 {
        shown
    } else {
        replayed(shown, updates, cols, (n - 1) as nat).update(
            cell_index(cols, updates[n - 1].row as int, updates[n - 1].col as int),
            updates[n - 1].glyph,
        )
    }
}

proof fn lemma_replay_before(new: Seq<char>, old: Seq<char>, cols: int, n: nat)
    requires
        new.len() == old.len(),
        n <= new.len() <= usize::MAX,
        cols > 0,
    ensures
        ({
            let updates = updates_before(new, old, cols, n);
            let shown = replayed(old, updates, cols, updates.len());
            &&& shown.len() == old.len()
            &&& forall|i: int| 0 <= i < n ==> shown[i] == new[i]
            &&& forall|i: int| n <= i < old.len() ==> shown[i] == old[i]
        }),
    decreases n,
{
    if n == 0 {
        lemma_updates_step(new, old, cols, 0);
    } else {
        let m = (n - 1) as nat;
        lemma_replay_before(new, old, cols, m);
        lemma_updates_step(new, old, cols, m);
        let before = updates_before(new, old, cols, m);
        let updates = updates_before(new, old, cols, n);
        if new[m as int] != old[m as int] {
            let u = update_at(new, cols)(m as int);
            assert(updates == before.push(u));
            lemma_replay_prefix(old, before, updates, cols, before.len());
            assert(0 <= (m as int) / cols <= m && 0 <= (m as int) % cols < cols && cell_index(
                cols,
                (m as int) / cols,
                (m as int) % cols,
            ) == m) by (nonlinear_arith)
                requires
                    cols > 0,
                    m >= 0,
            ;
        }
    }
}

proof fn lemma_replay_prefix(
    shown: Seq<char>,
    a: Seq<CellUpdate>,
    b: Seq<CellUpdate>,
    cols: int,
    n: nat,
)
    requires
        n <= a.len() <= b.len(),
        forall|i: int| 0 <= i < n ==> a[i] == b[i],
    ensures
        replayed(shown, a, cols, n) == replayed(shown, b, cols, n),
    decreases n,
{
    if n > 0 {
        lemma_replay_prefix(shown, a, b, cols, (n - 1) as nat);
    }
}

/// Writing the updates to a display that shows the old frame makes it show
/// the new one.
pub proof fn lemma_updates_replay(new: Seq<char>, old: Seq<char>, cols: int)
    requires
        new.len() == old.len(),
        new.len() <= usize::MAX,
        cols > 0,
    ensures
        replayed(
            old,
            screen_updates(new, old, cols),
            cols,
            screen_updates(new, old, cols).len(),
        ) == new,
{
    lemma_replay_before(new, old, cols, new.len());
    let updates = screen_updates(new, old, cols);
    assert(replayed(old, updates, cols, updates.len()) =~= new);
}

/// Lists the cells of `screen` that differ from `last_screen`, row by row,
/// each with its character in `screen`.
pub fn update_screen(screen: &Grid<char>, last_screen: &Grid<char>) -> (updates: Vec<CellUpdate>)
    requires
        screen.wf(),
        last_screen.wf(),
        screen.same_shape(last_screen),
    ensures
        updates@ == screen_updates(screen@, last_screen@, screen.cols() as int),
{
    let rows: usize = screen.height();
    let cols: usize = screen.width();
    let mut updates: Vec<CellUpdate> = Vec::new();
    let mut row: usize = 0;
    proof {
        screen.lemma_len();
        last_screen.lemma_len();
        lemma_updates_step(screen@, last_screen@, cols as int, 0);
        assert(0 * cols == 0) by (nonlinear_arith);
    }
    while row < rows
        invariant
            row <= rows,
            rows == screen.rows(),
            cols == screen.cols(),
            screen.wf(),
            last_screen.wf(),
            screen.same_shape(last_screen),
            screen@.len() == cols * rows,
            last_screen@.len() == cols * rows,
            updates@ == updates_before(screen@, last_screen@, cols as int, (row * cols) as nat),
        decreases rows - row,
    {
        let mut col: usize = 0;
        while col < cols
            invariant
                row < rows,
                col <= cols,
                rows == screen.rows(),
                cols == screen.cols(),
                screen.wf(),
                last_screen.wf(),
                screen.same_shape(last_screen),
                screen@.len() == cols * rows,
                last_screen@.len() == cols * rows,
                updates@ == updates_before(
                    screen@,
                    last_screen@,
                    cols as int,
                    (row * cols + col) as nat,
                ),
            decreases cols - col,
        {
            proof {
                lemma_cell_index(cols as int, rows as int, row as int, col as int);
                lemma_updates_step(
                    screen@,
                    last_screen@,
                    cols as int,
                    (row * cols + col) as nat,
                );
            }
            let glyph: char = screen.get(row, col);
            if glyph != last_screen.get(row, col) {
                updates.push(CellUpdate { row, col, glyph });
            }
            col = col + 1;
        }
        proof {
            assert((row + 1) * cols == row * cols + cols) by (nonlinear_arith);
        }
        row = row + 1;
    }
    proof {
        assert(rows * cols == cols * rows) by (nonlinear_arith);
    }
    updates
}

/// Returns the time between two frames, in milliseconds, for a display that
/// shows `fps` frames per second.
pub fn frame_interval(fps: u64) -> (millis: u64)
    requires
        fps > 0,
    ensures
        millis == 1000int / (fps as int),
{
    1000 / fps
}

/// Decides what the display loop does next, `elapsed` after the last frame
/// was shown, when a frame is due every `interval`.
pub fn next_tick(elapsed: u64, interval: u64) -> (pace: Pace)
    ensures
        pace == pace_spec(elapsed, interval),
{
    if elapsed >= interval {
        Pace { render: true, sleep: interval }
    } else {
        Pace { render: false, sleep: interval - elapsed }
    }
}

} // verus!
