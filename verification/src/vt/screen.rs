//! The visible screen of a terminal: characters, the cursor, and whether a full-screen program has
//! taken it over. Enough to read the line at the bottom.

use vstd::prelude::*;
use vstd::utf8::{decode_utf8, valid_utf8};

use unicode_width::UnicodeWidthChar;

use crate::text;
use crate::text::trim_end;
use crate::vt::events;
use crate::vt::events::{event_views, fed_to, vt_events, VtEvent, VtEventView};

verus! {

/// Something in the output that asks for attention.
#[derive(Debug, Clone, PartialEq, Eq)]
pub enum AttentionSignal {
    Bell,
    Notify { title: String, body: String },
}

/// What a signal says.
pub enum AttentionSignalView {
    Bell,
    Notify { title: Seq<char>, body: Seq<char> },
}

impl View for AttentionSignal {
    type V = AttentionSignalView;

    open spec fn view(&self) -> AttentionSignalView {
        match self {
            AttentionSignal::Bell => AttentionSignalView::Bell,
            AttentionSignal::Notify { title, body } => AttentionSignalView::Notify {
                title: title@,
                body: body@,
            },
        }
    }
}

/// What the signals say.
pub open spec fn signal_views(signals: Seq<AttentionSignal>) -> Seq<AttentionSignalView> {
    signals.map_values(|s: AttentionSignal| s@)
}

/// No character takes more columns than this.
pub const WIDEST: u16 = 3;

/// How many columns a character takes; none for a control character.
pub uninterp spec fn char_width(c: char) -> Option<usize>;

/// The character is a control character.
pub open spec fn is_control(c: char) -> bool {
    c < ' ' || 0x7f <= c as u32 <= 0x9f
}

/// `UnicodeWidthChar::width`: the result is a function of the character alone, here `char_width`. A
/// control character has no width, and no other is without one; a printable ASCII character takes one
/// column, and none takes more than three.
#[verifier::external_body]
fn width_of(c: char) -> (w: Option<usize>)
    ensures
        w == char_width(c),
        w is None <==> is_control(c),
        ' ' <= c <= '~' ==> w == Some(1usize),
        w matches Some(n) ==> n <= WIDEST,
{
    UnicodeWidthChar::width(c)
}

/// The text that bytes stand for, with a mark for what is no UTF-8.
pub uninterp spec fn lossy(bytes: Seq<u8>) -> Seq<char>;

/// `String::from_utf8_lossy`: the result is a function of the bytes alone, here `lossy`, and is the text
/// that the bytes encode where they are UTF-8.
#[verifier::external_body]
pub(crate) fn text_from_utf8_lossy(bytes: &[u8]) -> (s: String)
    ensures
        s@ == lossy(bytes@),
        valid_utf8(bytes@) ==> s@ == decode_utf8(bytes@),
{
    String::from_utf8_lossy(bytes).into_owned()
}

/// A row of blanks.
pub open spec fn blank_row(cols: u16) -> Seq<char> {
    Seq::new(cols as nat, |i: int| ' ')
}

/// Rows of blanks.
pub open spec fn blank_grid(cols: u16, rows: u16) -> Seq<Seq<char>> {
    Seq::new(rows as nat, |i: int| blank_row(cols))
}

/// A row with blanks from index `from` on and before `to`.
pub open spec fn blanked(row: Seq<char>, from: int, to: int) -> Seq<char> {
    Seq::new(
        row.len(),
        |i: int|
            if from <= i < to {
                ' '
            } else {
                row[i]
            },
    )
}

/// The smaller of two numbers.
pub open spec fn least(a: int, b: int) -> u16 {
    if a <= b {
        a as u16
    } else {
        b as u16
    }
}

/// `a - b`, but not below 0.
pub open spec fn minus(a: int, b: int) -> int {
    if a <= b {
        0
    } else {
        a - b
    }
}

/// A screen.
#[verifier::ext_equal]
pub struct ScreenState {
    pub cols: u16,
    pub rows: u16,
    pub grid: Seq<Seq<char>>,
    /// The column of the cursor.
    pub cx: u16,
    /// The row of the cursor.
    pub cy: u16,
    /// A full-screen program has taken the screen over.
    pub alt: bool,
}

/// The parameter at index `i`; `d` where it is 0 or there is none.
pub open spec fn param(params: Seq<Seq<u16>>, i: int, d: u16) -> u16 {
    let v = plain_param(params, i);
    if v == 0 {
        d
    } else {
        v
    }
}

/// The parameter at index `i`; 0 where there is none.
pub open spec fn plain_param(params: Seq<Seq<u16>>, i: int) -> u16 {
    if 0 <= i < params.len() && params[i].len() > 0 {
        params[i][0]
    } else {
        0
    }
}

/// One of the parameters stands for the screen of full-screen programs.
pub open spec fn names_alt(params: Seq<Seq<u16>>) -> bool {
    exists|i: int| 0 <= i < params.len() && is_alt(#[trigger] plain_param(params, i))
}

/// The parameter stands for the screen of full-screen programs.
pub open spec fn is_alt(p: u16) -> bool {
    p == 1049 || p == 1047 || p == 47
}

impl ScreenState {
    /// The grid has the size of the screen, which is not empty, and the cursor is in one of the rows.
    pub open spec fn valid(self) -> bool {
        &&& self.cols > 0
        &&& self.rows > 0
        &&& self.grid.len() == self.rows
        &&& forall|y: int| 0 <= y < self.rows ==> (#[trigger] self.grid[y]).len() == self.cols
        &&& self.cy < self.rows
    }

    /// The cursor is in one of the columns, or right behind the last. A screen too narrow for the widest
    /// character may have it further out.
    pub open spec fn cursor_fits(self) -> bool {
        self.cols < WIDEST || self.cx <= self.cols
    }

    /// An empty screen.
    pub open spec fn empty(cols: u16, rows: u16) -> ScreenState {
        ScreenState { cols, rows, grid: blank_grid(cols, rows), cx: 0, cy: 0, alt: false }
    }

    /// One row further down, with the rows moved up where there is none.
    pub open spec fn line_fed(self) -> ScreenState {
        if self.cy + 1 >= self.rows {
            ScreenState { grid: self.grid.drop_first().push(blank_row(self.cols)), ..self }
        } else {
            ScreenState { cy: (self.cy + 1) as u16, ..self }
        }
    }

    /// One row further up, with the rows moved down where there is none.
    pub open spec fn line_unfed(self) -> ScreenState {
        if self.cy == 0 {
            ScreenState { grid: seq![blank_row(self.cols)] + self.grid.drop_last(), ..self }
        } else {
            ScreenState { cy: (self.cy - 1) as u16, ..self }
        }
    }

    /// With a character written that takes `w` columns, at the start of the next row where there is not
    /// room enough.
    pub open spec fn written(self, c: char, w: u16) -> ScreenState {
        if w == 0 {
            self
        } else {
            let s = if self.cx + w > self.cols {
                ScreenState { cx: 0, ..self }.line_fed()
            } else {
                self
            };
            let row = s.grid[s.cy as int];
            let with_char = if s.cx < row.len() {
                row.update(s.cx as int, c)
            } else {
                row
            };
            let with_room = if w == 2 && s.cx + 1 < row.len() {
                with_char.update(s.cx + 1, ' ')
            } else {
                with_char
            };
            ScreenState {
                grid: s.grid.update(s.cy as int, with_room),
                cx: least(s.cx + w, 0xffff),
                ..s
            }
        }
    }

    /// With a row blanked from index `from` on and before `to`.
    pub open spec fn row_blanked(self, y: int, from: int, to: int) -> ScreenState {
        ScreenState { grid: self.grid.update(y, blanked(self.grid[y], from, to)), ..self }
    }

    /// With a part of the row of the cursor erased: from the cursor on, up to it, or all of it.
    pub open spec fn line_erased(self, mode: u16) -> ScreenState {
        if mode == 0 {
            self.row_blanked(self.cy as int, self.cx as int, self.cols as int)
        } else if mode == 1 {
            self.row_blanked(self.cy as int, 0, self.cx + 1)
        } else if mode == 2 {
            self.row_blanked(self.cy as int, 0, self.cols as int)
        } else {
            self
        }
    }

    /// With whole rows blanked, from index `from` on and before `to`.
    pub open spec fn rows_blanked(self, from: int, to: int) -> ScreenState {
        ScreenState {
            grid: Seq::new(
                self.grid.len(),
                |y: int|
                    if from <= y < to {
                        blank_row(self.cols)
                    } else {
                        self.grid[y]
                    },
            ),
            ..self
        }
    }

    /// With a part of the screen erased: from the cursor on, up to it, or all of it.
    pub open spec fn display_erased(self, mode: u16) -> ScreenState {
        if mode == 0 {
            self.line_erased(0).rows_blanked(self.cy + 1, self.rows as int)
        } else if mode == 1 {
            self.line_erased(1).rows_blanked(0, self.cy as int)
        } else if mode == 2 || mode == 3 {
            self.rows_blanked(0, self.rows as int)
        } else {
            self
        }
    }

    /// With the screen taken over by a full-screen program, or given back. Each clears it.
    pub open spec fn taken_over(self, on: bool) -> ScreenState {
        if on == self.alt {
            self
        } else {
            ScreenState { alt: on, cx: 0, cy: 0, ..self.rows_blanked(0, self.rows as int) }
        }
    }

    /// After a control character.
    pub open spec fn executed(self, byte: u8) -> ScreenState {
        if byte == 0x0a {
            self.line_fed()
        } else if byte == 0x0d {
            ScreenState { cx: 0, ..self }
        } else if byte == 0x08 {
            ScreenState { cx: minus(self.cx as int, 1) as u16, ..self }
        } else if byte == 0x09 {
            ScreenState { cx: least((self.cx / 8 + 1) * 8, self.cols - 1), ..self }
        } else {
            self
        }
    }

    /// After a control sequence. Of the private ones, only those that stand for the screen of
    /// full-screen programs count.
    pub open spec fn controlled(self, params: Seq<Seq<u16>>, private: bool, action: char) -> ScreenState {
        if private {
            if (action == 'h' || action == 'l') && names_alt(params) {
                self.taken_over(action == 'h')
            } else {
                self
            }
        } else if action == 'A' {
            ScreenState { cy: minus(self.cy as int, param(params, 0, 1) as int) as u16, ..self }
        } else if action == 'B' {
            ScreenState { cy: least(self.cy + param(params, 0, 1), self.rows - 1), ..self }
        } else if action == 'C' {
            ScreenState { cx: least(self.cx + param(params, 0, 1), self.cols - 1), ..self }
        } else if action == 'D' {
            ScreenState { cx: minus(self.cx as int, param(params, 0, 1) as int) as u16, ..self }
        } else if action == 'G' {
            ScreenState { cx: least(param(params, 0, 1) - 1, self.cols - 1), ..self }
        } else if action == 'd' {
            ScreenState { cy: least(param(params, 0, 1) - 1, self.rows - 1), ..self }
        } else if action == 'H' || action == 'f' {
            ScreenState {
                cy: least(param(params, 0, 1) - 1, self.rows - 1),
                cx: least(param(params, 1, 1) - 1, self.cols - 1),
                ..self
            }
        } else if action == 'J' {
            self.display_erased(plain_param(params, 0))
        } else if action == 'K' {
            self.line_erased(plain_param(params, 0))
        } else {
            self
        }
    }

    /// After an escape sequence.
    pub open spec fn escaped(self, byte: u8) -> ScreenState {
        if byte == 0x44 {
            self.line_fed()
        } else if byte == 0x4d {
            self.line_unfed()
        } else if byte == 0x45 {
            ScreenState { cx: 0, ..self }.line_fed()
        } else {
            self
        }
    }

    /// After one event.
    pub open spec fn after(self, event: VtEventView) -> ScreenState {
        match event {
            VtEventView::Print(c) => self.written(c, columns(c)),
            VtEventView::Execute(byte) => self.executed(byte),
            VtEventView::Osc(parts) => self,
            VtEventView::Csi { params, intermediates, action } => self.controlled(
                params,
                intermediates.len() > 0 && intermediates[0] == 0x3f,
                action,
            ),
            VtEventView::Esc(byte) => self.escaped(byte),
        }
    }

    /// After events.
    pub open spec fn after_all(self, events: Seq<VtEventView>) -> ScreenState
        decreases events.len(),
    {
        if events.len() == 0 {
            self
        } else {
            self.after_all(events.drop_last()).after(events.last())
        }
    }

    /// In another size: empty, with the cursor where it was as far as there is room.
    pub open spec fn resized(self, cols: u16, rows: u16) -> ScreenState {
        ScreenState {
            cols,
            rows,
            grid: blank_grid(cols, rows),
            cx: least(self.cx as int, cols - 1),
            cy: least(self.cy as int, rows - 1),
            alt: self.alt,
        }
    }

    /// A row without the white space at its end; nothing for a row that is not there.
    pub open spec fn line_at(self, row: int) -> Seq<char> {
        if 0 <= row < self.grid.len() {
            trim_end(self.grid[row])
        } else {
            seq![]
        }
    }

    /// The rows, each without the white space at its end.
    pub open spec fn shown(self) -> Seq<Seq<char>> {
        self.grid.map_values(|r: Seq<char>| trim_end(r))
    }

    /// The last row before index `to` that holds more than white space.
    pub open spec fn last_line(self, to: int) -> Seq<char>
        decreases to,
    {
        if to <= 0 {
            seq![]
        } else if self.line_at(to - 1).len() > 0 {
            self.line_at(to - 1)
        } else {
            self.last_line(to - 1)
        }
    }
}

/// How many columns a character takes on the screen.
pub open spec fn columns(c: char) -> u16 {
    match char_width(c) {
        Some(w) => w as u16,
        None => 0,
    }
}

/// The part at index `i`, as text; nothing where there is none.
pub open spec fn part_text(parts: Seq<Seq<u8>>, i: int) -> Seq<char> {
    if 0 <= i < parts.len() {
        lossy(parts[i])
    } else {
        seq![]
    }
}

/// The signal in one event.
pub open spec fn signal_in(event: VtEventView) -> Option<AttentionSignalView> {
    match event {
        VtEventView::Execute(byte) => if byte == 0x07 {
            Some(AttentionSignalView::Bell)
        } else {
            None
        },
        VtEventView::Osc(parts) => if parts.len() > 0 && parts[0] == seq![0x39u8] {
            Some(AttentionSignalView::Notify { title: seq![], body: part_text(parts, 1) })
        } else if parts.len() > 1 && parts[0] == seq![0x37u8, 0x37u8, 0x37u8] && parts[1] == seq![
            0x6eu8,
            0x6fu8,
            0x74u8,
            0x69u8,
            0x66u8,
            0x79u8,
        ] {
            Some(
                AttentionSignalView::Notify { title: part_text(parts, 2), body: part_text(parts, 3) },
            )
        } else {
            None
        },
        _ => None,
    }
}

/// The signals in events, in order.
pub open spec fn signals_in(events: Seq<VtEventView>) -> Seq<AttentionSignalView>
    decreases events.len(),
{
    if events.len() == 0 {
        seq![]
    } else {
        let before = signals_in(events.drop_last());
        match signal_in(events.last()) {
            Some(s) => before.push(s),
            None => before,
        }
    }
}

proof fn lemma_written_keeps_valid(s: ScreenState, c: char, w: u16)
    requires
        s.valid(),
    ensures
        s.written(c, w).valid(),
        s.written(c, w).cols == s.cols,
        s.written(c, w).rows == s.rows,
        s.cx <= s.cols && w <= s.cols ==> s.written(c, w).cx <= s.cols,
{
}

proof fn lemma_event_keeps_valid(s: ScreenState, event: VtEventView)
    requires
        s.valid(),
    ensures
        s.after(event).valid(),
        s.after(event).cols == s.cols,
        s.after(event).rows == s.rows,
        s.cx <= s.cols && (event matches VtEventView::Print(c) ==> columns(c) <= s.cols) ==> s.after(
            event,
        ).cx <= s.cols,
{
    if let VtEventView::Print(c) = event {
        lemma_written_keeps_valid(s, c, columns(c));
    }
}

/// Whatever is read, the screen keeps its shape and the cursor stays in it.
pub proof fn law_events_keep_the_screen_valid(s: ScreenState, events: Seq<VtEventView>)
    requires
        s.valid(),
    ensures
        s.after_all(events).valid(),
        s.after_all(events).cols == s.cols,
        s.after_all(events).rows == s.rows,
    decreases events.len(),
{
    if events.len() > 0 {
        law_events_keep_the_screen_valid(s, events.drop_last());
        lemma_event_keeps_valid(s.after_all(events.drop_last()), events.last());
    }
}

/// Reading events in two goes comes to the same as reading them in one.
pub proof fn law_events_can_be_read_in_parts(
    s: ScreenState,
    a: Seq<VtEventView>,
    b: Seq<VtEventView>,
)
    ensures
        s.after_all(a + b) == s.after_all(a).after_all(b),
        signals_in(a + b) == signals_in(a) + signals_in(b),
    decreases b.len(),
{
    if b.len() == 0 {
        assert(a + b =~= a);
        assert(signals_in(a) + signals_in(b) =~= signals_in(a));
    } else {
        assert((a + b).drop_last() =~= a + b.drop_last());
        assert((a + b).last() == b.last());
        law_events_can_be_read_in_parts(s, a, b.drop_last());
        match signal_in(b.last()) {
            Some(x) => {
                assert(signals_in(a) + signals_in(b) =~= (signals_in(a) + signals_in(
                    b.drop_last(),
                )).push(x));
            },
            None => {},
        }
    }
}

/// The cursor stays in the columns of the screen, or right behind the last, as long as no character is
/// wider than the screen.
pub proof fn law_cursor_stays_on_the_screen(s: ScreenState, events: Seq<VtEventView>)
    requires
        s.valid(),
        s.cx <= s.cols,
        forall|k: int| 0 <= k < events.len() ==> ((#[trigger] events[k]) matches VtEventView::Print(c) ==> columns(c) <= s.cols),
    ensures
        s.after_all(events).cx <= s.cols,
        s.after_all(events).cy < s.rows,
    decreases events.len(),
{
    law_events_keep_the_screen_valid(s, events);
    if events.len() > 0 {
        law_events_keep_the_screen_valid(s, events.drop_last());
        assert forall|k: int| 0 <= k < events.drop_last().len() implies ((
        #[trigger] events.drop_last()[k]) matches VtEventView::Print(c) ==> columns(c) <= s.cols) by {
            assert(events[k] == events.drop_last()[k]);
        }
        law_cursor_stays_on_the_screen(s, events.drop_last());
        assert(events[events.len() - 1] == events.last());
        lemma_event_keeps_valid(s.after_all(events.drop_last()), events.last());
    }
}

proof fn lemma_trim_end_is_short(s: Seq<char>)
    ensures
        trim_end(s).len() <= s.len(),
    decreases s.len(),
{
    if s.len() > 0 {
        lemma_trim_end_is_short(s.drop_last());
    }
}

/// No line of a screen is longer than the screen is wide.
pub proof fn law_lines_fit_the_screen(s: ScreenState, row: int)
    requires
        s.valid(),
    ensures
        s.line_at(row).len() <= s.cols,
{
    if 0 <= row < s.grid.len() {
        lemma_trim_end_is_short(s.grid[row]);
    }
}

/// A resized screen is valid, and of the size asked for.
pub proof fn law_resizing_keeps_the_screen_valid(s: ScreenState, cols: u16, rows: u16)
    requires
        cols > 0,
        rows > 0,
    ensures
        s.resized(cols, rows).valid(),
{
}

/// What the rows hold.
pub open spec fn grid_view(grid: Seq<Vec<char>>) -> Seq<Seq<char>> {
    grid.map_values(|r: Vec<char>| r@)
}

/// The visible screen of a terminal, and the parser that its output goes through.
pub struct Screen {
    parser: vte::Parser,
    cols: u16,
    rows: u16,
    grid: Vec<Vec<char>>,
    cx: u16,
    cy: u16,
    alt: bool,
}

fn blank(cols: u16) -> (row: Vec<char>)
    ensures
        row@ == blank_row(cols),
{
    let mut row: Vec<char> = Vec::new();
    let mut i: u16 = 0;
    while i < cols
        invariant
            i <= cols,
            row@ == blank_row(i),
        decreases cols - i,
    {
        row.push(' ');
        i = i + 1;
        assert(row@ =~= blank_row(i));
    }
    row
}

fn blanks(cols: u16, rows: u16) -> (grid: Vec<Vec<char>>)
    ensures
        grid_view(grid@) == blank_grid(cols, rows),
{
    let mut grid: Vec<Vec<char>> = Vec::new();
    let mut i: u16 = 0;
    assert(grid_view(grid@) =~= blank_grid(cols, 0));
    while i < rows
        invariant
            i <= rows,
            grid_view(grid@) == blank_grid(cols, i),
        decreases rows - i,
    {
        let ghost before = grid@;
        let row = blank(cols);
        grid.push(row);
        i = i + 1;
        assert(grid_view(grid@) =~= grid_view(before).push(row@));
        assert(grid_view(grid@) =~= blank_grid(cols, i));
    }
    grid
}

fn row_text(row: &Vec<char>) -> (s: String)
    ensures
        s@ == trim_end(row@),
{
    let all = text::text_of(row);
    text::trim_right(&all)
}

fn is_part(part: &Vec<u8>, wanted: &[u8]) -> (yes: bool)
    ensures
        yes == (part@ == wanted@),
{
    if part.len() != wanted.len() {
        return false;
    }
    let mut i: usize = 0;
    while i < part.len()
        invariant
            i <= part.len(),
            part.len() == wanted.len(),
            forall|k: int| 0 <= k < i ==> part@[k] == wanted@[k],
        decreases part.len() - i,
    {
        if part[i] != wanted[i] {
            return false;
        }
        i = i + 1;
    }
    assert(part@ =~= wanted@);
    true
}

fn text_at(parts: &Vec<Vec<u8>>, i: usize) -> (s: String)
    ensures
        s@ == part_text(parts@.map_values(|p: Vec<u8>| p@), i as int),
{
    if i < parts.len() {
        text_from_utf8_lossy(&parts[i])
    } else {
        let s = String::new();
        assert(s@ =~= seq![]);
        s
    }
}

fn osc_signal(parts: &Vec<Vec<u8>>) -> (s: Option<AttentionSignal>)
    ensures
        (match s {
            Some(x) => Some(x@),
            None => None,
        }) == signal_in(VtEventView::Osc(parts@.map_values(|p: Vec<u8>| p@))),
{
    let ghost views = parts@.map_values(|p: Vec<u8>| p@);
    if parts.len() == 0 {
        return None;
    }
    let nine: [u8; 1] = [0x39];
    let sevens: [u8; 3] = [0x37, 0x37, 0x37];
    let notify: [u8; 6] = [0x6e, 0x6f, 0x74, 0x69, 0x66, 0x79];
    assert(nine@ =~= seq![0x39u8]);
    assert(sevens@ =~= seq![0x37u8, 0x37u8, 0x37u8]);
    assert(notify@ =~= seq![0x6eu8, 0x6fu8, 0x74u8, 0x69u8, 0x66u8, 0x79u8]);
    assert(views[0] == parts@[0]@);
    if is_part(&parts[0], &nine) {
        let title = String::new();
        assert(title@ =~= seq![]);
        return Some(AttentionSignal::Notify { title, body: text_at(parts, 1) });
    }
    if parts.len() > 1 {
        assert(views[1] == parts@[1]@);
        if is_part(&parts[0], &sevens) && is_part(&parts[1], &notify) {
            return Some(AttentionSignal::Notify { title: text_at(parts, 2), body: text_at(parts, 3) });
        }
    }
    None
}

fn first_of(params: &Vec<Vec<u16>>, i: usize) -> (v: u16)
    ensures
        v == plain_param(params@.map_values(|p: Vec<u16>| p@), i as int),
{
    if i < params.len() && params[i].len() > 0 {
        params[i][0]
    } else {
        0
    }
}

fn first_or(params: &Vec<Vec<u16>>, i: usize, d: u16) -> (v: u16)
    ensures
        v == param(params@.map_values(|p: Vec<u16>| p@), i as int, d),
{
    let v = first_of(params, i);
    if v == 0 {
        d
    } else {
        v
    }
}

fn has_alt(params: &Vec<Vec<u16>>) -> (yes: bool)
    ensures
        yes == names_alt(params@.map_values(|p: Vec<u16>| p@)),
{
    let ghost views = params@.map_values(|p: Vec<u16>| p@);
    let mut i: usize = 0;
    while i < params.len()
        invariant
            i <= params.len(),
            views == params@.map_values(|p: Vec<u16>| p@),
            forall|k: int| 0 <= k < i ==> !is_alt(#[trigger] plain_param(views, k)),
        decreases params.len() - i,
    {
        let p = first_of(params, i);
        if p == 1049 || p == 1047 || p == 47 {
            assert(is_alt(plain_param(views, i as int)));
            return true;
        }
        i = i + 1;
    }
    false
}

fn min_u16(a: u32, b: u16) -> (m: u16)
    ensures
        m == least(a as int, b as int),
{
    if a <= b as u32 {
        a as u16
    } else {
        b
    }
}

impl Screen {
    /// The screen, as the methods speak of it.
    pub closed spec fn state(&self) -> ScreenState {
        ScreenState {
            cols: self.cols,
            rows: self.rows,
            grid: grid_view(self.grid@),
            cx: self.cx,
            cy: self.cy,
            alt: self.alt,
        }
    }

    /// The pieces of output that the screen has been fed since it was made.
    pub closed spec fn fed(&self) -> Seq<Seq<u8>> {
        fed_to(self.parser)
    }

    /// An empty screen, at least one column wide and one row high.
    pub fn new(cols: u16, rows: u16) -> (s: Screen)
        ensures
            s.state() == ScreenState::empty(
                if cols == 0 {
                    1
                } else {
                    cols
                },
                if rows == 0 {
                    1
                } else {
                    rows
                },
            ),
            s.state().valid(),
            s.state().cursor_fits(),
            s.fed() == Seq::<Seq<u8>>::empty(),
    {
        let cols = if cols == 0 {
            1
        } else {
            cols
        };
        let rows = if rows == 0 {
            1
        } else {
            rows
        };
        Screen {
            parser: events::new_parser(),
            cols,
            rows,
            grid: blanks(cols, rows),
            cx: 0,
            cy: 0,
            alt: false,
        }
    }

    fn line_feed(&mut self)
        requires
            old(self).state().valid(),
        ensures
            final(self).state() == old(self).state().line_fed(),
            final(self).fed() == old(self).fed(),
    {
        if self.cy + 1 >= self.rows {
            let ghost before = self.grid@;
            self.grid.remove(0);
            let row = blank(self.cols);
            self.grid.push(row);
            assert(grid_view(self.grid@) =~= grid_view(before).drop_first().push(row@));
        } else {
            self.cy = self.cy + 1;
        }
    }

    fn reverse_index(&mut self)
        requires
            old(self).state().valid(),
        ensures
            final(self).state() == old(self).state().line_unfed(),
            final(self).fed() == old(self).fed(),
    {
        if self.cy == 0 {
            let ghost before = self.grid@;
            self.grid.pop();
            let row = blank(self.cols);
            self.grid.insert(0, row);
            assert(grid_view(self.grid@) =~= seq![row@] + grid_view(before).drop_last());
        } else {
            self.cy = self.cy - 1;
        }
    }

    fn put_char(&mut self, c: char)
        requires
            old(self).state().valid(),
        ensures
            final(self).state() == old(self).state().written(c, columns(c)),
            final(self).fed() == old(self).fed(),
            old(self).state().cursor_fits() ==> final(self).state().cursor_fits(),
            is_control(c) ==> columns(c) == 0,
            ' ' <= c <= '~' ==> columns(c) == 1,
    {
        let w: u16 = match width_of(c) {
            Some(n) => n as u16,
            None => 0,
        };
        if w == 0 {
            return;
        }
        if self.cx as u32 + w as u32 > self.cols as u32 {
            self.cx = 0;
            self.line_feed();
        }
        let ghost s = self.state();
        let ghost before = self.grid@;
        let x = self.cx as usize;
        let y = self.cy as usize;
        assert(s.valid());
        assert(s.grid == grid_view(before));
        let mut row: Vec<char> = Vec::new();
        std::mem::swap(&mut row, &mut self.grid[y]);
        if x < row.len() {
            row.set(x, c);
        }
        if w == 2 && x + 1 < row.len() {
            row.set(x + 1, ' ');
        }
        self.grid[y] = row;
        assert(grid_view(self.grid@) =~= grid_view(before).update(y as int, row@));
        self.cx = self.cx.saturating_add(w);
    }

    fn blank_in_row(&mut self, y: usize, from: usize, to: usize)
        requires
            y < old(self).state().grid.len(),
        ensures
            final(self).state() == old(self).state().row_blanked(y as int, from as int, to as int),
            final(self).fed() == old(self).fed(),
    {
        let ghost before = self.grid@;
        assert(grid_view(before)[y as int] == before[y as int]@);
        let mut row: Vec<char> = Vec::new();
        std::mem::swap(&mut row, &mut self.grid[y]);
        let ghost old_row = row@;
        let mut i: usize = from;
        while i < to && i < row.len()
            invariant
                from <= i,
                i <= to || i == from,
                row@.len() == old_row.len(),
                row@ == blanked(old_row, from as int, i as int),
            decreases to - i,
        {
            row.set(i, ' ');
            i = i + 1;
            assert(row@ =~= blanked(old_row, from as int, i as int));
        }
        assert(row@ =~= blanked(old_row, from as int, to as int));
        self.grid[y] = row;
        assert(grid_view(self.grid@) =~= grid_view(before).update(y as int, row@));
    }

    fn blank_rows(&mut self, from: usize, to: usize)
        requires
            old(self).state().valid(),
            from <= to <= old(self).state().rows,
        ensures
            final(self).state() == old(self).state().rows_blanked(from as int, to as int),
            final(self).fed() == old(self).fed(),
    {
        let ghost s = self.state();
        let mut i: usize = from;
        assert(self.state() =~= s.rows_blanked(from as int, from as int));
        while i < to
            invariant
                from <= i <= to <= s.rows,
                s.valid(),
                self.state() == s.rows_blanked(from as int, i as int),
                self.fed() == old(self).fed(),
                s == old(self).state(),
            decreases to - i,
        {
            let ghost before = self.grid@;
            assert(grid_view(before) == self.state().grid);
            let row = blank(self.cols);
            self.grid.set(i, row);
            assert(grid_view(self.grid@) =~= grid_view(before).update(i as int, row@));
            i = i + 1;
            assert(self.state() =~= s.rows_blanked(from as int, i as int));
        }
    }

    fn erase_line(&mut self, mode: u16)
        requires
            old(self).state().valid(),
        ensures
            final(self).state() == old(self).state().line_erased(mode),
            final(self).fed() == old(self).fed(),
    {
        let x = self.cx as usize;
        let y = self.cy as usize;
        if mode == 0 {
            self.blank_in_row(y, x, self.cols as usize);
        } else if mode == 1 {
            self.blank_in_row(y, 0, x + 1);
        } else if mode == 2 {
            self.blank_in_row(y, 0, self.cols as usize);
        }
    }

    fn erase_display(&mut self, mode: u16)
        requires
            old(self).state().valid(),
        ensures
            final(self).state() == old(self).state().display_erased(mode),
            final(self).fed() == old(self).fed(),
    {
        let y = self.cy as usize;
        let rows = self.rows as usize;
        if mode == 0 {
            self.erase_line(0);
            self.blank_rows(y + 1, rows);
        } else if mode == 1 {
            self.erase_line(1);
            self.blank_rows(0, y);
        } else if mode == 2 || mode == 3 {
            self.blank_rows(0, rows);
        }
    }

    fn set_alt(&mut self, on: bool)
        requires
            old(self).state().valid(),
        ensures
            final(self).state() == old(self).state().taken_over(on),
            final(self).fed() == old(self).fed(),
    {
        if on != self.alt {
            self.alt = on;
            self.blank_rows(0, self.rows as usize);
            self.cx = 0;
            self.cy = 0;
        }
    }

    fn execute(&mut self, byte: u8)
        requires
            old(self).state().valid(),
        ensures
            final(self).state() == old(self).state().executed(byte),
            final(self).fed() == old(self).fed(),
    {
        if byte == 0x0a {
            self.line_feed();
        } else if byte == 0x0d {
            self.cx = 0;
        } else if byte == 0x08 {
            self.cx = self.cx.saturating_sub(1);
        } else if byte == 0x09 {
            let next: u32 = (self.cx as u32 / 8 + 1) * 8;
            self.cx = min_u16(next, self.cols - 1);
        }
    }

    fn csi_dispatch(&mut self, params: &Vec<Vec<u16>>, private: bool, action: char)
        requires
            old(self).state().valid(),
        ensures
            final(self).state() == old(self).state().controlled(
                params@.map_values(|p: Vec<u16>| p@),
                private,
                action,
            ),
            final(self).fed() == old(self).fed(),
    {
        if private {
            if (action == 'h' || action == 'l') && has_alt(params) {
                self.set_alt(action == 'h');
            }
            return;
        }
        let max_x = self.cols - 1;
        let max_y = self.rows - 1;
        if action == 'A' {
            self.cy = self.cy.saturating_sub(first_or(params, 0, 1));
        } else if action == 'B' {
            self.cy = min_u16(self.cy as u32 + first_or(params, 0, 1) as u32, max_y);
        } else if action == 'C' {
            self.cx = min_u16(self.cx as u32 + first_or(params, 0, 1) as u32, max_x);
        } else if action == 'D' {
            self.cx = self.cx.saturating_sub(first_or(params, 0, 1));
        } else if action == 'G' {
            self.cx = min_u16((first_or(params, 0, 1) - 1) as u32, max_x);
        } else if action == 'd' {
            self.cy = min_u16((first_or(params, 0, 1) - 1) as u32, max_y);
        } else if action == 'H' || action == 'f' {
            self.cy = min_u16((first_or(params, 0, 1) - 1) as u32, max_y);
            self.cx = min_u16((first_or(params, 1, 1) - 1) as u32, max_x);
        } else if action == 'J' {
            self.erase_display(first_of(params, 0));
        } else if action == 'K' {
            self.erase_line(first_of(params, 0));
        }
    }

    fn esc_dispatch(&mut self, byte: u8)
        requires
            old(self).state().valid(),
        ensures
            final(self).state() == old(self).state().escaped(byte),
            final(self).fed() == old(self).fed(),
    {
        if byte == 0x44 {
            self.line_feed();
        } else if byte == 0x4d {
            self.reverse_index();
        } else if byte == 0x45 {
            self.cx = 0;
            self.line_feed();
        }
    }

    /// Do what one event asks for; a signal in it comes back.
    pub fn apply(&mut self, event: &VtEvent) -> (signal: Option<AttentionSignal>)
        requires
            old(self).state().valid(),
        ensures
            final(self).state() == old(self).state().after(event@),
            final(self).state().valid(),
            old(self).state().cursor_fits() ==> final(self).state().cursor_fits(),
            event matches VtEvent::Print(c) ==> {
                &&& is_control(*c) ==> columns(*c) == 0
                &&& ' ' <= *c <= '~' ==> columns(*c) == 1
            },
            final(self).fed() == old(self).fed(),
            (match signal {
                Some(x) => Some(x@),
                None => None,
            }) == signal_in(event@),
    {
        match event {
            VtEvent::Print(c) => {
                self.put_char(*c);
                None
            },
            VtEvent::Execute(byte) => {
                self.execute(*byte);
                if *byte == 0x07 {
                    Some(AttentionSignal::Bell)
                } else {
                    None
                }
            },
            VtEvent::Osc(parts) => osc_signal(parts),
            VtEvent::Csi { params, intermediates, action } => {
                let private = intermediates.len() > 0 && intermediates[0] == 0x3f;
                self.csi_dispatch(params, private, *action);
                None
            },
            VtEvent::Esc(byte) => {
                self.esc_dispatch(*byte);
                None
            },
        }
    }

    /// Do what events ask for; the signals in them come back, in order.
    pub fn apply_all(&mut self, events: &[VtEvent]) -> (signals: Vec<AttentionSignal>)
        requires
            old(self).state().valid(),
        ensures
            final(self).state() == old(self).state().after_all(event_views(events@)),
            final(self).state().valid(),
            old(self).state().cursor_fits() ==> final(self).state().cursor_fits(),
            final(self).fed() == old(self).fed(),
            signal_views(signals@) == signals_in(event_views(events@)),
    {
        let ghost views = event_views(events@);
        let mut signals: Vec<AttentionSignal> = Vec::new();
        let mut i: usize = 0;
        assert(views.take(0) =~= seq![]);
        assert(signal_views(signals@) =~= seq![]);
        while i < events.len()
            invariant
                i <= events.len(),
                views == event_views(events@),
                self.state().valid(),
                old(self).state().cursor_fits() ==> self.state().cursor_fits(),
                self.fed() == old(self).fed(),
                self.state() == old(self).state().after_all(views.take(i as int)),
                signal_views(signals@) == signals_in(views.take(i as int)),
            decreases events.len() - i,
        {
            assert(views.take(i + 1).drop_last() =~= views.take(i as int));
            assert(views.take(i + 1).last() == events@[i as int]@);
            let ghost before = signals@;
            match self.apply(&events[i]) {
                Some(s) => {
                    signals.push(s);
                    assert(signal_views(signals@) =~= signal_views(before).push(s@));
                },
                None => {},
            }
            i = i + 1;
        }
        assert(views.take(views.len() as int) =~= views);
        signals
    }

    /// Read output; the signals in it come back, in order.
    pub fn feed(&mut self, bytes: &[u8]) -> (signals: Vec<AttentionSignal>)
        requires
            old(self).state().valid(),
        ensures
            final(self).fed() == old(self).fed().push(bytes@),
            final(self).state() == old(self).state().after_all(vt_events(old(self).fed(), bytes@)),
            final(self).state().valid(),
            old(self).state().cursor_fits() ==> final(self).state().cursor_fits(),
            signal_views(signals@) == signals_in(vt_events(old(self).fed(), bytes@)),
            bytes@.len() == 0 ==> signals@.len() == 0 && final(self).state() == old(self).state(),
    {
        let events = events::advance(&mut self.parser, bytes);
        let signals = self.apply_all(&events);
        assert(signal_views(signals@).len() == signals@.len());
        assert(event_views(events@).len() == events@.len());
        signals
    }

    /// The column and the row of the cursor.
    pub fn cursor(&self) -> (c: (u16, u16))
        ensures
            c == (self.state().cx, self.state().cy),
    {
        (self.cx, self.cy)
    }

    /// A row without the white space at its end; nothing for a row that is not there.
    pub fn line(&self, row: u16) -> (s: String)
        ensures
            s@ == self.state().line_at(row as int),
    {
        let y = row as usize;
        if y < self.grid.len() {
            assert(self.state().grid[y as int] == self.grid@[y as int]@);
            row_text(&self.grid[y])
        } else {
            let s = String::new();
            assert(s@ =~= seq![]);
            s
        }
    }

    /// Take another size, at least one column wide and one row high. What was on the screen goes.
    pub fn resize(&mut self, cols: u16, rows: u16)
        ensures
            final(self).state() == old(self).state().resized(
                if cols == 0 {
                    1
                } else {
                    cols
                },
                if rows == 0 {
                    1
                } else {
                    rows
                },
            ),
            final(self).state().valid(),
            final(self).state().cursor_fits(),
            final(self).fed() == old(self).fed(),
    {
        let cols = if cols == 0 {
            1
        } else {
            cols
        };
        let rows = if rows == 0 {
            1
        } else {
            rows
        };
        self.cols = cols;
        self.rows = rows;
        self.grid = blanks(cols, rows);
        self.cx = min_u16(self.cx as u32, cols - 1);
        self.cy = min_u16(self.cy as u32, rows - 1);
    }

    /// Whether a full-screen program has taken the screen over.
    pub fn is_alt_screen(&self) -> (yes: bool)
        ensures
            yes == self.state().alt,
    {
        self.alt
    }

    /// The last row that holds more than white space, without the white space at its end.
    pub fn last_nonempty_line(&self) -> (s: String)
        ensures
            s@ == self.state().last_line(self.state().grid.len() as int),
    {
        let mut i: usize = self.grid.len();
        while i > 0
            invariant
                i <= self.grid.len(),
                self.state().last_line(self.state().grid.len() as int) == self.state().last_line(i as int),
            decreases i,
        {
            assert(self.state().grid[i - 1] == self.grid@[i - 1]@);
            let t = row_text(&self.grid[i - 1]);
            if !t.as_str().is_empty() {
                return t;
            }
            i = i - 1;
        }
        let s = String::new();
        assert(s@ =~= seq![]);
        s
    }

    /// The rows, each without the white space at its end.
    pub fn snapshot(&self) -> (lines: Vec<String>)
        ensures
            text::texts(lines@) == self.state().shown(),
    {
        let mut lines: Vec<String> = Vec::new();
        let mut i: usize = 0;
        while i < self.grid.len()
            invariant
                i <= self.grid.len(),
                lines@.len() == i,
                forall|k: int| 0 <= k < i ==> (#[trigger] lines@[k])@ == trim_end(self.grid@[k]@),
            decreases self.grid.len() - i,
        {
            lines.push(row_text(&self.grid[i]));
            i = i + 1;
        }
        assert(text::texts(lines@) =~= self.state().grid.map_values(|r: Seq<char>| trim_end(r)));
        lines
    }
}

} // verus!
