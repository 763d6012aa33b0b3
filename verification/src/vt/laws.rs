//! What each thing that a program writes does to the screen, cell by cell.

use vstd::prelude::*;

use crate::text::{is_white, trim_end};
use crate::vt::events::VtEventView;
use crate::vt::screen::{
    columns, law_events_keep_the_screen_valid, lossy, signal_in, signals_in, AttentionSignalView,
    ScreenState,
};

verus! {

/// The two screens have the same size and show the same, and both or neither is that of a full-screen
/// program; their cursors may stand in different places.
pub open spec fn shows_the_same(a: ScreenState, b: ScreenState) -> bool {
    &&& a.cols == b.cols
    &&& a.rows == b.rows
    &&& a.grid == b.grid
    &&& a.alt == b.alt
}

/// The cell in column `x` of row `y` holds the same on both screens.
pub open spec fn same_cell(a: ScreenState, b: ScreenState, x: int, y: int) -> bool {
    a.grid[y][x] == b.grid[y][x]
}

/// A control sequence that is not a private one.
pub open spec fn csi(params: Seq<Seq<u16>>, action: char) -> VtEventView {
    VtEventView::Csi { params, intermediates: seq![], action }
}

/// A private control sequence.
pub open spec fn private_csi(params: Seq<Seq<u16>>, action: char) -> VtEventView {
    VtEventView::Csi { params, intermediates: seq![0x3fu8], action }
}

/// What stands before the last character of a control sequence matters only in that a question mark makes
/// the sequence a private one.
pub proof fn law_only_a_question_mark_makes_private(
    s: ScreenState,
    params: Seq<Seq<u16>>,
    intermediates: Seq<u8>,
    action: char,
)
    ensures
        s.after(VtEventView::Csi { params, intermediates, action }) == s.after(
            if intermediates.len() > 0 && intermediates[0] == '?' as u8 {
                private_csi(params, action)
            } else {
                csi(params, action)
            },
        ),
{
}

/// The parameters ask for this number at index `i`: for one where there is none, or a zero.
pub open spec fn asks_for(params: Seq<Seq<u16>>, i: int, n: u16) -> bool {
    if params.len() > i && params[i].len() > 0 && params[i][0] != 0 {
        params[i][0] == n
    } else {
        n == 1
    }
}

/// `A` moves the cursor up and `B` down, by the number asked for, and no further than to the edge; nothing
/// else changes.
pub proof fn law_up_and_down(s: ScreenState, params: Seq<Seq<u16>>, n: u16)
    requires
        s.valid(),
        asks_for(params, 0, n),
    ensures
        ({
            let up = s.after(csi(params, 'A'));
            let down = s.after(csi(params, 'B'));
            &&& shows_the_same(up, s) && up.cx == s.cx
            &&& up.cy <= s.cy
            &&& s.cy >= n ==> s.cy - up.cy == n
            &&& s.cy < n ==> up.cy == 0
            &&& shows_the_same(down, s) && down.cx == s.cx
            &&& s.cy <= down.cy < s.rows
            &&& s.cy + n < s.rows ==> down.cy - s.cy == n
            &&& s.cy + n >= s.rows ==> down.cy == s.rows - 1
        }),
{
}

/// `A` and `B` lead back to where the cursor was, where the first of the two met no edge.
pub proof fn law_up_undoes_down(s: ScreenState, params: Seq<Seq<u16>>, n: u16)
    requires
        s.valid(),
        asks_for(params, 0, n),
    ensures
        s.cy >= n ==> s.after(csi(params, 'A')).after(csi(params, 'B')) == s,
        s.cy + n < s.rows ==> s.after(csi(params, 'B')).after(csi(params, 'A')) == s,
{
    law_up_and_down(s, params, n);
    law_events_keep_the_screen_valid(s, seq![csi(params, 'A')]);
    law_up_and_down(s.after(csi(params, 'A')), params, n);
    law_up_and_down(s.after(csi(params, 'B')), params, n);
    assert(s.cy >= n ==> s.after(csi(params, 'A')).after(csi(params, 'B')) =~= s);
    assert(s.cy + n < s.rows ==> s.after(csi(params, 'B')).after(csi(params, 'A')) =~= s);
}

/// `C` moves the cursor to the right and `D` to the left, by the number asked for, and no further than to
/// the edge; nothing else changes.
pub proof fn law_right_and_left(s: ScreenState, params: Seq<Seq<u16>>, n: u16)
    requires
        s.valid(),
        asks_for(params, 0, n),
    ensures
        ({
            let right = s.after(csi(params, 'C'));
            let left = s.after(csi(params, 'D'));
            &&& shows_the_same(right, s) && right.cy == s.cy
            &&& s.cx + n < s.cols ==> right.cx - s.cx == n
            &&& s.cx + n >= s.cols ==> right.cx == s.cols - 1
            &&& shows_the_same(left, s) && left.cy == s.cy
            &&& left.cx <= s.cx
            &&& s.cx >= n ==> s.cx - left.cx == n
            &&& s.cx < n ==> left.cx == 0
        }),
{
}

/// `C` and `D` lead back to where the cursor was, where the first of the two met no edge.
pub proof fn law_right_undoes_left(s: ScreenState, params: Seq<Seq<u16>>, n: u16)
    requires
        s.valid(),
        asks_for(params, 0, n),
        s.cx < s.cols,
    ensures
        s.cx >= n ==> s.after(csi(params, 'D')).after(csi(params, 'C')) == s,
        s.cx + n < s.cols ==> s.after(csi(params, 'C')).after(csi(params, 'D')) == s,
{
    law_right_and_left(s, params, n);
    law_right_and_left(s.after(csi(params, 'C')), params, n);
    law_right_and_left(s.after(csi(params, 'D')), params, n);
    assert(s.cx >= n ==> s.after(csi(params, 'D')).after(csi(params, 'C')) =~= s);
    assert(s.cx + n < s.cols ==> s.after(csi(params, 'C')).after(csi(params, 'D')) =~= s);
}

/// `G` puts the cursor into a column, `d` into a row, `H` and `f` into a row and a column, counted from
/// one, and no further than to the edge; nothing else changes.
pub proof fn law_the_cursor_goes_where_it_is_put(
    s: ScreenState,
    params: Seq<Seq<u16>>,
    action: char,
    n: u16,
    m: u16,
)
    requires
        s.valid(),
        asks_for(params, 0, n),
        asks_for(params, 1, m),
        action == 'H' || action == 'f',
    ensures
        ({
            let col = s.after(csi(params, 'G'));
            let row = s.after(csi(params, 'd'));
            let both = s.after(csi(params, action));
            &&& shows_the_same(col, s) && col.cy == s.cy
            &&& n <= s.cols ==> col.cx + 1 == n
            &&& n > s.cols ==> col.cx + 1 == s.cols
            &&& shows_the_same(row, s) && row.cx == s.cx
            &&& n <= s.rows ==> row.cy + 1 == n
            &&& n > s.rows ==> row.cy + 1 == s.rows
            &&& shows_the_same(both, s)
            &&& n <= s.rows ==> both.cy + 1 == n
            &&& n > s.rows ==> both.cy + 1 == s.rows
            &&& m <= s.cols ==> both.cx + 1 == m
            &&& m > s.cols ==> both.cx + 1 == s.cols
        }),
{
}

/// Which part of a line or of the screen is erased: what is asked for, or the rest where nothing is.
pub open spec fn asks_for_part(params: Seq<Seq<u16>>, part: u16) -> bool {
    if params.len() > 0 && params[0].len() > 0 {
        params[0][0] == part
    } else {
        part == 0
    }
}

/// `K` erases cells of the row of the cursor: from the cursor on, up to it, or all of them. Every other
/// cell stays, and the cursor does.
pub proof fn law_erasing_in_the_line(s: ScreenState, params: Seq<Seq<u16>>, part: u16, x: int, y: int)
    requires
        s.valid(),
        asks_for_part(params, part),
        0 <= x < s.cols,
        0 <= y < s.rows,
    ensures
        ({
            let t = s.after(csi(params, 'K'));
            let hit = y == s.cy && ((part == 0 && x >= s.cx) || (part == 1 && x <= s.cx) || part == 2);
            &&& hit ==> t.grid[y][x] == ' '
            &&& !hit ==> same_cell(t, s, x, y)
            &&& (t.cx, t.cy, t.cols, t.rows, t.alt) == (s.cx, s.cy, s.cols, s.rows, s.alt)
        }),
{
}

/// `J` erases cells of the screen: from the cursor to the end, from the start to the cursor, or all of
/// them. Every other cell stays, and the cursor does.
pub proof fn law_erasing_on_the_screen(s: ScreenState, params: Seq<Seq<u16>>, part: u16, x: int, y: int)
    requires
        s.valid(),
        asks_for_part(params, part),
        0 <= x < s.cols,
        0 <= y < s.rows,
    ensures
        ({
            let t = s.after(csi(params, 'J'));
            let behind = y > s.cy || (y == s.cy && x >= s.cx);
            let before = y < s.cy || (y == s.cy && x <= s.cx);
            let hit = (part == 0 && behind) || (part == 1 && before) || part == 2 || part == 3;
            &&& hit ==> t.grid[y][x] == ' '
            &&& !hit ==> same_cell(t, s, x, y)
            &&& (t.cx, t.cy, t.cols, t.rows, t.alt) == (s.cx, s.cy, s.cols, s.rows, s.alt)
        }),
{
}

/// Every other control sequence, such as one for colours, changes nothing.
pub proof fn law_other_sequences_change_nothing(s: ScreenState, params: Seq<Seq<u16>>, action: char)
    requires
        !seq!['A', 'B', 'C', 'D', 'G', 'd', 'H', 'f', 'J', 'K'].contains(action),
    ensures
        s.after(csi(params, action)) == s,
{
    let known = seq!['A', 'B', 'C', 'D', 'G', 'd', 'H', 'f', 'J', 'K'];
    assert(known[0] == 'A' && known[1] == 'B' && known[2] == 'C' && known[3] == 'D' && known[4] == 'G');
    assert(known[5] == 'd' && known[6] == 'H' && known[7] == 'f' && known[8] == 'J' && known[9] == 'K');
}

/// One of the parameters is this number.
pub open spec fn has_param(params: Seq<Seq<u16>>, n: u16) -> bool {
    exists|i: int| 0 <= i < params.len() && (#[trigger] params[i]).len() > 0 && params[i][0] == n
}

/// A full-screen program takes the screen over by a private `h`, with one of three numbers, and gives it
/// back by a private `l`. Either clears the screen and puts the cursor into the corner, unless the screen
/// is in that state already; then nothing changes. No other private sequence changes anything.
pub proof fn law_the_screen_is_taken_over(s: ScreenState, params: Seq<Seq<u16>>, action: char)
    requires
        s.valid(),
    ensures
        ({
            let t = s.after(private_csi(params, action));
            let named = has_param(params, 1049) || has_param(params, 1047) || has_param(params, 47);
            let taken = named && action == 'h' && !s.alt;
            let given_back = named && action == 'l' && s.alt;
            &&& taken || given_back ==> {
                &&& t.alt == taken
                &&& (t.cx, t.cy, t.cols, t.rows) == (0u16, 0u16, s.cols, s.rows)
                &&& forall|x: int, y: int|
                    0 <= x < s.cols && 0 <= y < s.rows ==> #[trigger] t.grid[y][x] == ' '
            }
            &&& !taken && !given_back ==> t == s
        }),
{
    let t = s.after(private_csi(params, action));
    assert(seq![0x3fu8][0] == 0x3f);
    assert forall|i: int| 0 <= i < params.len() && crate::vt::screen::is_alt(
        #[trigger] crate::vt::screen::plain_param(params, i),
    ) implies has_param(params, 1049) || has_param(params, 1047) || has_param(params, 47) by {
        assert(params[i].len() > 0);
    }
    if has_param(params, 1049) || has_param(params, 1047) || has_param(params, 47) {
        let i = choose|i: int|
            0 <= i < params.len() && (#[trigger] params[i]).len() > 0 && (params[i][0] == 1049
                || params[i][0] == 1047 || params[i][0] == 47);
        assert(crate::vt::screen::is_alt(crate::vt::screen::plain_param(params, i)));
    }
}

/// A line feed moves the cursor one row down, and a reverse one (`ESC M`) one row up, in the same column.
/// At the edge the rows move instead, one goes, and a blank one comes.
pub proof fn law_line_feeds(s: ScreenState, x: int, y: int)
    requires
        s.valid(),
        0 <= x < s.cols,
        0 <= y < s.rows,
    ensures
        ({
            let t = s.after(VtEventView::Execute(0x0a));
            &&& (t.cx, t.cols, t.rows, t.alt) == (s.cx, s.cols, s.rows, s.alt)
            &&& s.cy + 1 < s.rows ==> t.cy == s.cy + 1 && same_cell(t, s, x, y)
            &&& s.cy + 1 == s.rows ==> t.cy == s.cy && t.grid[y][x] == (if y + 1 < s.rows {
                s.grid[y + 1][x]
            } else {
                ' '
            })
        }),
        ({
            let t = s.after(VtEventView::Esc(0x4d));
            &&& (t.cx, t.cols, t.rows, t.alt) == (s.cx, s.cols, s.rows, s.alt)
            &&& s.cy > 0 ==> t.cy == s.cy - 1 && same_cell(t, s, x, y)
            &&& s.cy == 0 ==> t.cy == 0 && t.grid[y][x] == (if y > 0 {
                s.grid[y - 1][x]
            } else {
                ' '
            })
        }),
        s.after(VtEventView::Esc(0x44)) == s.after(VtEventView::Execute(0x0a)),
        s.after(VtEventView::Esc(0x45)) == s.after(VtEventView::Execute(0x0d)).after(
            VtEventView::Execute(0x0a),
        ),
{
}

/// A carriage return puts the cursor at the start of its row, a backspace one column back, a tab to the
/// next column that eight divides, or to the last. Nothing else changes, and of the other control
/// characters nothing does.
pub proof fn law_control_characters(s: ScreenState, other: u8)
    requires
        s.valid(),
        !(other == 0x08 || other == 0x09 || other == 0x0a || other == 0x0d),
    ensures
        ({
            let back = s.after(VtEventView::Execute(0x08));
            let tab = s.after(VtEventView::Execute(0x09));
            let start = s.after(VtEventView::Execute(0x0d));
            &&& shows_the_same(back, s) && back.cy == s.cy
            &&& s.cx > 0 ==> back.cx + 1 == s.cx
            &&& s.cx == 0 ==> back.cx == 0
            &&& shows_the_same(tab, s) && tab.cy == s.cy
            &&& tab.cx < s.cols
            &&& tab.cx == s.cols - 1 || (tab.cx % 8 == 0 && s.cx < tab.cx <= s.cx + 8)
            &&& s.cx + 8 < s.cols ==> tab.cx % 8 == 0 && s.cx < tab.cx <= s.cx + 8
            &&& shows_the_same(start, s) && start.cy == s.cy && start.cx == 0
        }),
        s.after(VtEventView::Execute(other)) == s,
{
}

/// Every other escape sequence, and every operating system command, leaves the screen alone.
pub proof fn law_other_escapes_change_nothing(s: ScreenState, byte: u8, parts: Seq<Seq<u8>>)
    requires
        !(byte == 0x44 || byte == 0x45 || byte == 0x4d),
    ensures
        s.after(VtEventView::Esc(byte)) == s,
        s.after(VtEventView::Osc(parts)) == s,
{
}

/// A character that fits into the row stands where the cursor was, the cell behind a wide one is blank,
/// the cursor is behind it, and every other cell stays as it was. A character without width changes
/// nothing.
pub proof fn law_a_character_stands_at_the_cursor(s: ScreenState, c: char, x: int, y: int)
    requires
        s.valid(),
        0 <= x < s.cols,
        0 <= y < s.rows,
        s.cx + columns(c) <= s.cols,
    ensures
        ({
            let t = s.after(VtEventView::Print(c));
            let w = columns(c);
            &&& w == 0 ==> t == s
            &&& w > 0 ==> {
                &&& (t.cy, t.cols, t.rows, t.alt) == (s.cy, s.cols, s.rows, s.alt)
                &&& t.cx == s.cx + w
                &&& t.grid[s.cy as int][s.cx as int] == c
                &&& w == 2 ==> t.grid[s.cy as int][s.cx + 1] == ' '
                &&& !(y == s.cy && (x == s.cx || (w == 2 && x == s.cx + 1))) ==> same_cell(t, s, x, y)
            }
        }),
{
}

/// A character that does not fit into the row goes to the start of the next, as if the row had been ended
/// first.
pub proof fn law_a_character_wraps(s: ScreenState, c: char)
    requires
        s.valid(),
        columns(c) > 0,
        s.cx + columns(c) > s.cols,
        columns(c) <= s.cols,
    ensures
        s.after(VtEventView::Print(c)) == s.after(VtEventView::Execute(0x0d)).after(
            VtEventView::Execute(0x0a),
        ).after(VtEventView::Print(c)),
        s.after(VtEventView::Print(c)).cx == columns(c),
{
}

/// A new screen is blank, with the cursor in the corner; so is a resized one, with the cursor where it was
/// as far as there is room, and still that of a full-screen program where it was.
pub proof fn law_new_and_resized_screens_are_blank(s: ScreenState, cols: u16, rows: u16, x: int, y: int)
    requires
        cols > 0,
        rows > 0,
        0 <= x < cols,
        0 <= y < rows,
    ensures
        ({
            let t = s.resized(cols, rows);
            &&& (t.cols, t.rows, t.alt) == (cols, rows, s.alt)
            &&& t.grid.len() == rows && t.grid[y].len() == cols && t.grid[y][x] == ' '
            &&& s.cx < cols ==> t.cx == s.cx
            &&& s.cx >= cols ==> t.cx + 1 == cols
            &&& s.cy < rows ==> t.cy == s.cy
            &&& s.cy >= rows ==> t.cy + 1 == rows
        }),
        ({
            let t = ScreenState::empty(cols, rows);
            &&& (t.cols, t.rows, t.cx, t.cy, t.alt) == (cols, rows, 0u16, 0u16, false)
            &&& t.grid.len() == rows && t.grid[y].len() == cols && t.grid[y][x] == ' '
        }),
{
}

proof fn lemma_trim_end(s: Seq<char>)
    ensures
        trim_end(s).is_prefix_of(s),
        trim_end(s).len() > 0 ==> !is_white(trim_end(s).last()),
        forall|k: int| trim_end(s).len() <= k < s.len() ==> is_white(#[trigger] s[k]),
    decreases s.len(),
{
    if s.len() > 0 && is_white(s.last()) {
        let rest = s.drop_last();
        lemma_trim_end(rest);
        assert forall|k: int| trim_end(s).len() <= k < s.len() implies is_white(#[trigger] s[k]) by {
            if k < rest.len() {
                assert(s[k] == rest[k]);
            }
        }
        assert(trim_end(s) =~= s.take(trim_end(s).len() as int));
    } else {
        assert(s =~= s.take(s.len() as int));
    }
}

/// A line reads as its cells do, up to the last that is not white space.
pub proof fn law_a_line_reads_as_its_cells(s: ScreenState, y: int)
    requires
        s.valid(),
        0 <= y < s.rows,
    ensures
        ({
            let line = s.line_at(y);
            &&& line.len() <= s.cols
            &&& forall|x: int| 0 <= x < line.len() ==> #[trigger] line[x] == s.grid[y][x]
            &&& forall|x: int| line.len() <= x < s.cols ==> is_white(#[trigger] s.grid[y][x])
            &&& line.len() > 0 ==> !is_white(line.last())
        }),
        forall|other: int| other < 0 || other >= s.rows ==> (#[trigger] s.line_at(other)).len() == 0,
{
    lemma_trim_end(s.grid[y]);
    let line = s.line_at(y);
    assert forall|x: int| 0 <= x < line.len() implies #[trigger] line[x] == s.grid[y][x] by {
        assert(line == s.grid[y].take(line.len() as int));
    }
}

/// The line at rest is the lowest one that holds more than white space; there is none only where no line
/// does.
pub proof fn law_the_line_at_rest_is_the_lowest(s: ScreenState, to: int)
    requires
        0 <= to,
    ensures
        s.last_line(to).len() > 0 ==> exists|y: int|
            {
                &&& 0 <= y < to
                &&& s.last_line(to) == #[trigger] s.line_at(y)
                &&& forall|below: int| y < below < to ==> (#[trigger] s.line_at(below)).len() == 0
            },
        s.last_line(to).len() == 0 ==> forall|y: int| 0 <= y < to ==> (#[trigger] s.line_at(y)).len() == 0,
    decreases to,
{
    if to > 0 {
        if s.line_at(to - 1).len() == 0 {
            law_the_line_at_rest_is_the_lowest(s, to - 1);
            if s.last_line(to).len() > 0 {
                let y = choose|y: int|
                    {
                        &&& 0 <= y < to - 1
                        &&& s.last_line(to - 1) == #[trigger] s.line_at(y)
                        &&& forall|below: int|
                            y < below < to - 1 ==> (#[trigger] s.line_at(below)).len() == 0
                    };
                assert(s.last_line(to) == s.line_at(y));
            }
        } else {
            assert(s.last_line(to) == s.line_at(to - 1));
        }
    }
}

/// A bell asks for attention, and so do the commands `9` and `777;notify`, with what they say; nothing else
/// that a program writes does.
pub proof fn law_what_asks_for_attention(event: VtEventView, body: Seq<u8>, title: Seq<u8>)
    ensures
        signal_in(VtEventView::Execute(0x07)) == Some(AttentionSignalView::Bell),
        signal_in(VtEventView::Osc(seq![seq![0x39u8], body])) == Some(
            (AttentionSignalView::Notify { title: seq![], body: lossy(body) }),
        ),
        signal_in(
            VtEventView::Osc(
                seq![
                    seq![0x37u8, 0x37u8, 0x37u8],
                    seq![0x6eu8, 0x6fu8, 0x74u8, 0x69u8, 0x66u8, 0x79u8],
                    title,
                    body,
                ],
            ),
        ) == Some((AttentionSignalView::Notify { title: lossy(title), body: lossy(body) })),
        signal_in(event) is Some ==> {
            ||| event == VtEventView::Execute(0x07)
            ||| event matches VtEventView::Osc(parts) && parts.len() > 0 && (parts[0] == seq![0x39u8]
                || parts[0] == seq![0x37u8, 0x37u8, 0x37u8])
        },
        signals_in(seq![event]).len() == (if signal_in(event) is Some {
            1nat
        } else {
            0nat
        }),
{
    let nine = seq![seq![0x39u8], body];
    assert(nine[0] == seq![0x39u8] && nine[1] == body);
    let three = seq![
        seq![0x37u8, 0x37u8, 0x37u8],
        seq![0x6eu8, 0x6fu8, 0x74u8, 0x69u8, 0x66u8, 0x79u8],
        title,
        body,
    ];
    assert(three[0] == seq![0x37u8, 0x37u8, 0x37u8]);
    assert(three[0].len() == 3 && seq![0x39u8].len() == 1);
    assert(three[2] == title && three[3] == body);
    assert(seq![event].drop_last() =~= Seq::<VtEventView>::empty());
    assert(seq![event].last() == event);
    reveal_with_fuel(signals_in, 2);
}

/// What is shown of a screen is its lines from the top, as many as it is high.
pub proof fn law_a_screen_is_shown_line_by_line(s: ScreenState, y: int)
    requires
        s.valid(),
        0 <= y < s.rows,
    ensures
        s.shown().len() == s.rows,
        s.shown()[y] == s.line_at(y),
{
}

} // verus!
