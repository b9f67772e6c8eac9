use vstd::prelude::*;

use crate::grid::{
    lemma_pow3_monotonic,
    cell_keyseq, cell_visible, is_last_chosen, lemma_chosen_subcell_is, chosen_subcell, fits_i32, in_grid, is_last_visible, lemma_selected_cell_is, or_unknown, is_subcell, subcell_chosen, subcell_font, subcell_key, subcell_y, grid_labels, grid_letters, grid_letters_fit, grid_line_segments,
    grid_lines, lemma_pow3_fits, pow3, pow3_i32, refine_letters_fit, refine_lines, refine_lines_fit,
    selected_cell, smaller_grid_letters, smaller_grid_lines, subcell_labels, subcell_target, Label,
    Segment,
};
use crate::ascii::{lemma_upper_idempotent, same_ignoring_case, upper};
use crate::keys::{padded_row, KeyDistribution};
use crate::{GRID_HEIGHT, GRID_WIDTH};

verus! {

/// The overlay's key table: the three letter rows of a Spanish keyboard.
pub open spec fn overlay_rows() -> Seq<Seq<Option<char>>> {
    seq![
        padded_row(seq!['q', 'w', 'e', 'r', 't', 'y', 'u', 'i', 'o', 'p'], 10),
        padded_row(seq!['a', 's', 'd', 'f', 'g', 'h', 'j', 'k', 'l', 'ñ'], 10),
        padded_row(seq!['z', 'x', 'c', 'v', 'b', 'n', 'm', ',', '.', '-'], 10),
    ]
}

/// The overlay's key table.
pub fn overlay_keys() -> (kd: KeyDistribution<10>)
    ensures
        kd.rows() == overlay_rows(),
{
    let first = ['q', 'w', 'e', 'r', 't', 'y', 'u', 'i', 'o', 'p'];
    let second = ['a', 's', 'd', 'f', 'g', 'h', 'j', 'k', 'l', 'ñ'];
    let third = ['z', 'x', 'c', 'v', 'b', 'n', 'm', ',', '.', '-'];
    assert(first@ =~= seq!['q', 'w', 'e', 'r', 't', 'y', 'u', 'i', 'o', 'p']);
    assert(second@ =~= seq!['a', 's', 'd', 'f', 'g', 'h', 'j', 'k', 'l', 'ñ']);
    assert(third@ =~= seq!['z', 'x', 'c', 'v', 'b', 'n', 'm', ',', '.', '-']);
    KeyDistribution::<10>::new(first, second, third)
}

/// The monitor and the size of one grid cell on it, in pixels.
///
/// The monitor's sizes are those that raylib reports, which are never
/// negative: `GetMonitorWidth` and `GetMonitorHeight` give the size of the
/// monitor's video mode, or 0 where there is no such monitor. So cells and
/// letters have non-negative sizes too, and the grid functions ask for that.
#[derive(Clone, Copy, Debug, PartialEq, Eq, Structural)]
pub struct Screen {
    pub mon_w: i32,
    pub mon_h: i32,
    pub cell_width: i32,
    pub cell_height: i32,
    pub font_size: i32,
}

impl Screen {
    /// The cells split the monitor into the grid, and letters are as tall as a cell.
    pub open spec fn wf(&self) -> bool {
        &&& 0 <= self.mon_w
        &&& 0 <= self.mon_h
        &&& self.cell_width == self.mon_w / GRID_WIDTH
        &&& self.cell_height == self.mon_h / GRID_HEIGHT
        &&& self.font_size == self.cell_height
    }

    /// The grid on a monitor of `mon_w` by `mon_h` pixels.
    pub fn new(mon_w: i32, mon_h: i32) -> (s: Screen)
        requires
            0 <= mon_w,
            0 <= mon_h,
        ensures
            s.wf(),
            s.mon_w == mon_w,
            s.mon_h == mon_h,
    {
        let cell_width = mon_w / GRID_WIDTH;
        let cell_height = mon_h / GRID_HEIGHT;
        Screen { mon_w, mon_h, cell_width, cell_height, font_size: cell_height }
    }

    /// Everything drawn over the whole grid stays inside `i32`.
    pub proof fn lemma_fits(&self)
        requires
            self.wf(),
        ensures
            0 <= self.cell_width,
            0 <= self.cell_height,
            self.cell_width * GRID_WIDTH <= self.mon_w,
            self.cell_height * GRID_HEIGHT <= self.mon_h,
            grid_letters_fit(self.cell_width, self.font_size, self.cell_height),
            fits_i32(self.cell_height * (GRID_HEIGHT - 1)),
            fits_i32(self.cell_width * (GRID_WIDTH - 1)),
    {
        let w = self.mon_w as int;
        let h = self.mon_h as int;
        assert(self.cell_width * GRID_WIDTH <= w && 0 <= self.cell_width) by (nonlinear_arith)
            requires
                self.cell_width == w / 10,
                0 <= w,
        ;
        assert(self.cell_height * GRID_HEIGHT <= h && 0 <= self.cell_height) by (nonlinear_arith)
            requires
                self.cell_height == h / 13,
                0 <= h,
        ;
    }
}

/// Where the overlay stands, as plain values.
pub enum OverlayModel {
    Selecting { key_seq: Seq<char> },
    Specifying {
        base_y: i32,
        base_x: i32,
        spec_key_seq: Seq<char>,
        len_of_last_move: Option<usize>,
    },
}

/// Where the overlay stands between two frames.
pub enum OverlayState {
    /// The grid is shown and up to one key of a cell's pair has been typed.
    Selecting { key_seq: Vec<char> },
    /// A cell was picked; its parts are refined three by three. `base_y` and
    /// `base_x` are the top-left corner of the part being refined, in pixels.
    Specifying {
        base_y: i32,
        base_x: i32,
        spec_key_seq: Vec<char>,
        /// The pointer moves only when the number of typed keys has changed
        /// since the last move; this holds that number as it was at the last
        /// move, `None` before the first.
        len_of_last_move: Option<usize>,
    },
}

impl View for OverlayState {
    type V = OverlayModel;

    open spec fn view(&self) -> OverlayModel {
        match self {
            OverlayState::Selecting { key_seq } => OverlayModel::Selecting { key_seq: key_seq@ },
            OverlayState::Specifying { base_y, base_x, spec_key_seq, len_of_last_move } => {
                OverlayModel::Specifying {
                    base_y: *base_y,
                    base_x: *base_x,
                    spec_key_seq: spec_key_seq@,
                    len_of_last_move: *len_of_last_move,
                }
            },
        }
    }
}

/// What holds of every state that the overlay reaches: while selecting, at
/// most one key is typed; while refining, the moves never outnumber the keys.
pub open spec fn overlay_wf(st: OverlayModel) -> bool {
    match st {
        OverlayModel::Selecting { key_seq } => key_seq.len() <= 1,
        OverlayModel::Specifying { spec_key_seq, len_of_last_move, .. } => {
            len_of_last_move matches Some(l) ==> l <= spec_key_seq.len()
        },
    }
}

impl OverlayState {
    /// The overlay as it opens: selecting, nothing typed.
    pub fn new() -> (st: OverlayState)
        ensures
            st@ == (OverlayModel::Selecting { key_seq: Seq::empty() }),
            overlay_wf(st@),
    {
        OverlayState::Selecting { key_seq: Vec::new() }
    }

    /// Whether a cell has been picked and is being refined.
    pub fn is_specifying(&self) -> (b: bool)
        ensures
            b == (self@ is Specifying),
    {
        match self {
            OverlayState::Selecting { .. } => false,
            OverlayState::Specifying { .. } => true,
        }
    }
}

/// What the keyboard reported in one frame.
#[derive(Clone, Copy, Debug, PartialEq, Eq, Structural)]
pub struct FrameInput {
    /// Space went down this frame: close the overlay and click.
    pub space_pressed: bool,
    /// Left shift went down this frame (asks for the right button).
    pub shift_pressed: bool,
    /// Left shift is held.
    pub shift_down: bool,
    pub left_down: bool,
    pub right_down: bool,
    pub up_down: bool,
    pub down_down: bool,
    pub h_down: bool,
    pub j_down: bool,
    pub k_down: bool,
    pub l_down: bool,
    /// The character typed this frame, if any.
    pub char_pressed: Option<char>,
}

/// The character typed this frame, space aside.
pub open spec fn typed_char(input: FrameInput) -> Option<char> {
    match input.char_pressed {
        Some(c) => if c == ' ' {
            None
        } else {
            Some(c)
        },
        None => None,
    }
}

/// `seq` with the typed character added, unless shift is held.
pub open spec fn with_typed(seq: Seq<char>, input: FrameInput) -> Seq<char> {
    match typed_char(input) {
        Some(c) => if input.shift_down {
            seq
        } else {
            seq.push(c)
        },
        None => seq,
    }
}

/// One small move `(dy, dx)` when its key is held with shift as it asks.
pub open spec fn nudge(held: bool, must_shift: bool, shift_down: bool, dy: isize, dx: isize) -> Seq<
    (isize, isize),
> {
    if held && must_shift == shift_down {
        seq![(dy, dx)]
    } else {
        Seq::empty()
    }
}

/// The small moves of a frame: the arrows without shift, `h`, `j`, `k`, `l` with it.
pub open spec fn nudges_of(input: FrameInput) -> Seq<(isize, isize)> {
    nudge(input.left_down, false, input.shift_down, 0, -10isize) + nudge(
        input.right_down,
        false,
        input.shift_down,
        0,
        10,
    ) + nudge(input.up_down, false, input.shift_down, -10isize, 0) + nudge(
        input.down_down,
        false,
        input.shift_down,
        10,
        0,
    ) + nudge(input.h_down, true, input.shift_down, 0, -10isize) + nudge(
        input.j_down,
        true,
        input.shift_down,
        10,
        0,
    ) + nudge(input.k_down, true, input.shift_down, -10isize, 0) + nudge(
        input.l_down,
        true,
        input.shift_down,
        0,
        10,
    )
}

fn push_nudge(
    nudges: &mut Vec<(isize, isize)>,
    held: bool,
    must_shift: bool,
    shift_down: bool,
    dy: isize,
    dx: isize,
)
    ensures
        final(nudges)@ == old(nudges)@ + nudge(held, must_shift, shift_down, dy, dx),
{
    if held && must_shift == shift_down {
        nudges.push((dy, dx));
    }
    assert(nudges@ =~= old(nudges)@ + nudge(held, must_shift, shift_down, dy, dx));
}

/// The small relative moves that the held keys ask for, in the order they are made.
pub fn frame_nudges(input: &FrameInput) -> (nudges: Vec<(isize, isize)>)
    ensures
        nudges@ == nudges_of(*input),
{
    let mut nudges: Vec<(isize, isize)> = Vec::new();
    let sd = input.shift_down;
    push_nudge(&mut nudges, input.left_down, false, sd, 0, -10);
    push_nudge(&mut nudges, input.right_down, false, sd, 0, 10);
    push_nudge(&mut nudges, input.up_down, false, sd, -10, 0);
    push_nudge(&mut nudges, input.down_down, false, sd, 10, 0);
    push_nudge(&mut nudges, input.h_down, true, sd, 0, -10);
    push_nudge(&mut nudges, input.j_down, true, sd, 10, 0);
    push_nudge(&mut nudges, input.k_down, true, sd, -10, 0);
    push_nudge(&mut nudges, input.l_down, true, sd, 0, 10);
    assert(nudges@ =~= nudges_of(*input));
    nudges
}

/// What a frame asks for, as plain values.
pub enum FrameView {
    Close { click: Seq<char> },
    Continue {
        nudges: Seq<(isize, isize)>,
        lines: Seq<Segment>,
        labels: Seq<Label>,
        moveto: Option<(usize, usize)>,
    },
}

/// What a frame asks of the window and the pointer.
pub enum FrameOutcome {
    /// Close the overlay, then click the button named `click`.
    Close { click: String },
    /// Make the small relative moves `(dy, dx)` in order, draw `lines` and
    /// `labels`, then move the pointer to `moveto` as `(y, x)` if it is given.
    Continue {
        nudges: Vec<(isize, isize)>,
        lines: Vec<Segment>,
        labels: Vec<Label>,
        moveto: Option<(usize, usize)>,
    },
}

impl View for FrameOutcome {
    type V = FrameView;

    open spec fn view(&self) -> FrameView {
        match self {
            FrameOutcome::Close { click } => FrameView::Close { click: click@ },
            FrameOutcome::Continue { nudges, lines, labels, moveto } => FrameView::Continue {
                nudges: nudges@,
                lines: lines@,
                labels: labels@,
                moveto: *moveto,
            },
        }
    }
}

/// The button clicked when the overlay closes: the right one with shift, else the left one.
pub open spec fn click_button(input: FrameInput) -> Seq<char> {
    if input.shift_pressed {
        seq!['3']
    } else {
        seq!['1']
    }
}

/// The frame neither selects with two keys that name no cell, nor refines
/// past the depth or the pixel range that `i32` holds.
pub open spec fn frame_defined(
    st: OverlayModel,
    keys: KeyDistribution<10>,
    scr: Screen,
    input: FrameInput,
) -> bool {
    input.space_pressed || match st {
        OverlayModel::Selecting { key_seq } => {
            let ks = with_typed(key_seq, input);
            ks.len() == 2 ==> selected_cell(keys, ks) is Some
        },
        OverlayModel::Specifying { base_y, base_x, spec_key_seq, .. } => {
            let rec = spec_key_seq.len() + 1int;
            &&& spec_key_seq.len() <= 18
            &&& refine_lines_fit(scr.cell_height, base_y, scr.cell_width, base_x, rec)
            &&& refine_letters_fit(
                keys,
                typed_char(input),
                scr.cell_width,
                scr.cell_height,
                base_y,
                base_x,
                scr.font_size,
                rec,
            )
        },
    }
}

/// The next state of the overlay and what the frame asks for.
pub open spec fn frame_model(
    st: OverlayModel,
    keys: KeyDistribution<10>,
    scr: Screen,
    input: FrameInput,
) -> (OverlayModel, FrameView) {
    if input.space_pressed {
        (st, FrameView::Close { click: click_button(input) })
    } else {
        let nudges = nudges_of(input);
        let grid = grid_line_segments(scr.cell_height, scr.mon_w, scr.cell_width, scr.mon_h);
        match st {
            OverlayModel::Selecting { key_seq } => {
                let ks = with_typed(key_seq, input);
                let labels = grid_labels(
                    keys,
                    ks,
                    scr.cell_width,
                    scr.font_size,
                    scr.cell_height,
                    GRID_HEIGHT as int,
                );
                match selected_cell(keys, ks) {
                    Some((y, x)) => (
                        OverlayModel::Specifying {
                            base_y: (y * scr.cell_height) as i32,
                            base_x: (x * scr.cell_width) as i32,
                            spec_key_seq: Seq::empty(),
                            len_of_last_move: None,
                        },
                        FrameView::Continue {
                            nudges,
                            lines: grid,
                            labels,
                            moveto: Some(
                                (
                                    (y * scr.cell_height + scr.cell_height / 2) as usize,
                                    (x * scr.cell_width + scr.cell_width / 2) as usize,
                                ),
                            ),
                        },
                    ),
                    None => (
                        OverlayModel::Selecting { key_seq: ks },
                        FrameView::Continue { nudges, lines: grid, labels, moveto: None },
                    ),
                }
            },
            OverlayModel::Specifying { base_y, base_x, spec_key_seq, len_of_last_move } => {
                let len = spec_key_seq.len();
                let rec = len + 1int;
                let s = pow3(rec as nat);
                let lines = grid + refine_lines(
                    scr.cell_height,
                    base_y,
                    scr.cell_width,
                    base_x,
                    rec,
                );
                let labels = subcell_labels(
                    keys,
                    scr.cell_width,
                    scr.cell_height,
                    base_y,
                    base_x,
                    scr.font_size,
                    rec,
                    3,
                );
                let sks = with_typed(spec_key_seq, input);
                let stay = (
                    OverlayModel::Specifying {
                        base_y,
                        base_x,
                        spec_key_seq: sks,
                        len_of_last_move,
                    },
                    FrameView::Continue { nudges, lines, labels, moveto: None },
                );
                match chosen_subcell(keys, typed_char(input)) {
                    Some((i, j)) => if len_of_last_move == Some(len as usize) {
                        stay
                    } else {
                        let t = subcell_target(
                            scr.cell_width,
                            scr.cell_height,
                            base_y,
                            base_x,
                            scr.font_size,
                            rec,
                            i,
                            j,
                        );
                        (
                            OverlayModel::Specifying {
                                base_y: (base_y + ((scr.cell_height as int) / s) * i) as i32,
                                base_x: (base_x + ((scr.cell_width as int) / s) * j) as i32,
                                spec_key_seq: sks,
                                len_of_last_move: Some(len as usize),
                            },
                            FrameView::Continue {
                                nudges,
                                lines,
                                labels,
                                moveto: Some((t.0 as usize, t.1 as usize)),
                            },
                        )
                    },
                    None => stay,
                }
            },
        }
    }
}

fn typed_of(input: &FrameInput) -> (t: Option<char>)
    ensures
        t == typed_char(*input),
{
    match input.char_pressed {
        Some(c) => if c == ' ' {
            None
        } else {
            Some(c)
        },
        None => None,
    }
}

/// One frame of the overlay: from the state and the keys of the frame, the
/// next state and what to draw and where to move.
pub fn frame(state: OverlayState, keys: &KeyDistribution<10>, screen: &Screen, input: &FrameInput) -> (res: (
    OverlayState,
    FrameOutcome,
))
    requires
        screen.wf(),
        overlay_wf(state@),
        frame_defined(state@, *keys, *screen, *input),
    ensures
        (res.0@, res.1@) == frame_model(state@, *keys, *screen, *input),
        overlay_wf(res.0@),
{
    let ghost st = state@;
    if input.space_pressed {
        let click = if input.shift_pressed {
            String::from_str("3")
        } else {
            String::from_str("1")
        };
        proof {
            reveal_strlit("3");
            reveal_strlit("1");
            assert(click@ =~= click_button(*input));
        }
        return (state, FrameOutcome::Close { click });
    }
    let nudges = frame_nudges(input);
    proof {
        screen.lemma_fits();
    }
    let mut lines = grid_lines(screen.cell_height, screen.mon_w, screen.cell_width, screen.mon_h);
    let typed = typed_of(input);
    match state {
        OverlayState::Selecting { mut key_seq } => {
            if let Some(c) = typed {
                if !input.shift_down {
                    key_seq.push(c);
                }
            }
            assert(key_seq@ == with_typed(st->key_seq, *input));
            let (labels, dest) = grid_letters(
                keys,
                screen.cell_width,
                screen.font_size,
                screen.cell_height,
                key_seq.as_slice(),
            );
            if key_seq.len() == 2 {
                match dest {
                    Some((y, x)) => {
                        let ch = screen.cell_height;
                        let cw = screen.cell_width;
                        assert(0 <= y * ch + ch / 2 <= ch * GRID_HEIGHT) by (nonlinear_arith)
                            requires
                                0 <= y < GRID_HEIGHT,
                                0 <= ch,
                        ;
                        assert(0 <= x * cw + cw / 2 <= cw * GRID_WIDTH) by (nonlinear_arith)
                            requires
                                0 <= x < GRID_WIDTH,
                                0 <= cw,
                        ;
                        let moveto = Some(((y * ch + ch / 2) as usize, (x * cw + cw / 2) as usize));
                        let next = OverlayState::Specifying {
                            base_y: y * ch,
                            base_x: x * cw,
                            spec_key_seq: Vec::new(),
                            len_of_last_move: None,
                        };
                        assert(next@ == frame_model(st, *keys, *screen, *input).0);
                        (next, FrameOutcome::Continue { nudges, lines, labels, moveto })
                    },
                    None => {
                        proof {
                            assert(false);
                        }
                        (
                            OverlayState::Selecting { key_seq },
                            FrameOutcome::Continue { nudges, lines, labels, moveto: None },
                        )
                    },
                }
            } else {
                (
                    OverlayState::Selecting { key_seq },
                    FrameOutcome::Continue { nudges, lines, labels, moveto: None },
                )
            }
        },
        OverlayState::Specifying { mut base_y, mut base_x, mut spec_key_seq, mut len_of_last_move } => {
            let rec_level = spec_key_seq.len() as i32 + 1;
            let mut more = smaller_grid_lines(
                screen.cell_height,
                base_y,
                screen.cell_width,
                base_x,
                rec_level,
            );
            lines.append(&mut more);
            let (labels, dest) = smaller_grid_letters(
                keys,
                screen.cell_width,
                screen.cell_height,
                base_y,
                base_x,
                screen.font_size,
                typed,
                rec_level,
            );
            let mut moveto: Option<(usize, usize)> = None;
            if let Some(((y, x), (i, j))) = dest {
                let moved_already = match len_of_last_move {
                    Some(l) => l == spec_key_seq.len(),
                    None => false,
                };
                if !moved_already {
                    len_of_last_move = Some(spec_key_seq.len());
                    moveto = Some((y as usize, x as usize));
                    proof {
                        lemma_pow3_fits(rec_level as nat);
                    }
                    let s = pow3_i32(rec_level as u32);
                    let qy = screen.cell_height / s;
                    let qx = screen.cell_width / s;
                    assert(0 <= qy * i <= qy * 3) by (nonlinear_arith)
                        requires
                            0 <= qy,
                            0 <= i < 3,
                    ;
                    assert(0 <= qx * j <= qx * 3) by (nonlinear_arith)
                        requires
                            0 <= qx,
                            0 <= j < 3,
                    ;
                    base_y = base_y + qy * i;
                    base_x = base_x + qx * j;
                }
            }
            if let Some(c) = typed {
                if !input.shift_down {
                    spec_key_seq.push(c);
                }
            }
            let next = OverlayState::Specifying { base_y, base_x, spec_key_seq, len_of_last_move };
            (next, FrameOutcome::Continue { nudges, lines, labels, moveto })
        },
    }
}

/// Why a frame cannot be carried out.
#[derive(Clone, Copy, Debug, PartialEq, Eq, Structural)]
pub enum FaultKind {
    /// Two keys were typed that name no cell.
    NoCellForKeys,
    /// The refinement went deeper, or further out, than `i32` arithmetic reaches.
    Overflow,
}

/// A frame that cannot be carried out, with the small moves made before the failure.
pub struct FrameFault {
    pub kind: FaultKind,
    pub nudges: Vec<(isize, isize)>,
}

fn chosen_fits(
    keys: &KeyDistribution<10>,
    typed: Option<char>,
    base_y: i64,
    ch: i64,
    s: i64,
    tail: i64,
    i: i32,
    j: i32,
) -> (b: bool)
    requires
        is_subcell(i as int, j as int),
        0 <= ch <= i32::MAX,
        1 <= s,
        i32::MIN <= base_y <= i32::MAX,
        0 <= tail <= i32::MAX,
    ensures
        b == (subcell_chosen(*keys, typed, i as int, j as int) ==> subcell_y(
            ch as i32,
            base_y as i32,
            s as int,
            i as int,
        ) + tail <= i32::MAX),
{
    let key = match keys.get(i, j + 5) {
        Some(c) => c,
        None => '?',
    };
    let chosen = match typed {
        Some(c) => c == key,
        None => false,
    };
    if chosen {
        assert(0 <= i * ch <= 2 * i32::MAX) by (nonlinear_arith)
            requires
                0 <= i <= 2,
                0 <= ch <= i32::MAX,
        ;
        assert(0 <= (i * ch) / (s as int) <= i * ch) by (nonlinear_arith)
            requires
                0 <= i * ch,
                1 <= s,
        ;
        assert(0 <= ch / s <= ch) by (nonlinear_arith)
            requires
                0 <= ch,
                1 <= s,
        ;
        base_y + (i as i64) * ch / s - ch / s / 2 + tail <= i32::MAX as i64
    } else {
        true
    }
}

/// Whether a refinement frame stays within the depth and the pixel range of `i32`.
fn refine_fits(
    keys: &KeyDistribution<10>,
    typed: Option<char>,
    screen: &Screen,
    base_y: i32,
    base_x: i32,
    len: usize,
) -> (b: bool)
    requires
        screen.wf(),
    ensures
        b == ({
            let rec = len + 1int;
            &&& len <= 18
            &&& refine_lines_fit(screen.cell_height, base_y, screen.cell_width, base_x, rec)
            &&& refine_letters_fit(
                *keys,
                typed,
                screen.cell_width,
                screen.cell_height,
                base_y,
                base_x,
                screen.font_size,
                rec,
            )
        }),
{
    if len > 18 {
        return false;
    }
    proof {
        screen.lemma_fits();
        lemma_pow3_fits((len + 1) as nat);
        lemma_pow3_fits(len as nat);
    }
    let rec: i64 = len as i64 + 1;
    let s: i64 = pow3_i32(len as u32 + 1) as i64;
    let p: i64 = pow3_i32(len as u32) as i64;
    let cw: i64 = screen.cell_width as i64;
    let ch: i64 = screen.cell_height as i64;
    let fs: i64 = screen.font_size as i64;
    let by: i64 = base_y as i64;
    let bx: i64 = base_x as i64;
    let lo: i64 = i32::MIN as i64;
    let hi: i64 = i32::MAX as i64;
    let f: i64 = fs / (2 * rec);
    let tail: i64 = f / (2 * rec);
    assert(0 <= f <= fs && 0 <= tail <= f) by (nonlinear_arith)
        requires
            f == (fs as int) / (2 * rec),
            tail == (f as int) / (2 * rec),
            0 <= fs,
            1 <= rec,
    ;
    assert(0 <= cw / s <= cw && 0 <= ch / s <= ch && 0 <= cw / p <= cw && 0 <= ch / p <= ch)
        by (nonlinear_arith)
        requires
            0 <= cw,
            0 <= ch,
            1 <= s,
            1 <= p,
    ;
    assert(0 <= (2 * cw) / (s as int) <= 2 * cw && 0 <= (2 * ch) / (s as int) <= 2 * ch) by (nonlinear_arith)
        requires
            0 <= cw,
            0 <= ch,
            1 <= s,
    ;
    let lines_ok = lo <= bx + cw / s * 3 && bx + cw / s * 3 <= hi && lo <= by + ch / s * 3 && by
        + ch / s * 3 <= hi && lo <= bx + cw / p && bx + cw / p <= hi && lo <= by + ch / p && by
        + ch / p <= hi;
    let letters_ok = 2 * cw <= hi && 2 * ch <= hi && bx + (2 * cw) / s + cw / s / 2 <= hi && by + (2
        * ch) / s <= hi && lo <= by - ch / s / 2;
    let c00 = chosen_fits(keys, typed, by, ch, s, tail, 0, 0);
    let c01 = chosen_fits(keys, typed, by, ch, s, tail, 0, 1);
    let c02 = chosen_fits(keys, typed, by, ch, s, tail, 0, 2);
    let c10 = chosen_fits(keys, typed, by, ch, s, tail, 1, 0);
    let c12 = chosen_fits(keys, typed, by, ch, s, tail, 1, 2);
    let c20 = chosen_fits(keys, typed, by, ch, s, tail, 2, 0);
    let c21 = chosen_fits(keys, typed, by, ch, s, tail, 2, 1);
    let c22 = chosen_fits(keys, typed, by, ch, s, tail, 2, 2);
    let chosen_ok = c00 && c01 && c02 && c10 && c12 && c20 && c21 && c22;
    proof {
        let rl = len + 1int;
        assert(f == subcell_font(screen.font_size, rl));
        if chosen_ok {
            assert forall|i: int, j: int|
                is_subcell(i, j) && #[trigger] subcell_chosen(*keys, typed, i, j) implies subcell_y(
                screen.cell_height,
                base_y,
                s as int,
                i,
            ) + tail <= i32::MAX by {
                assert(i == 0 || i == 1 || i == 2);
                assert(j == 0 || j == 1 || j == 2);
            }
        }
    }
    lines_ok && letters_ok && chosen_ok
}

/// One frame, or, where the overlay would fail on it, the reason and the
/// small moves made before the failure; the state is then left as it was.
pub fn checked_frame(
    state: OverlayState,
    keys: &KeyDistribution<10>,
    screen: &Screen,
    input: &FrameInput,
) -> (res: (OverlayState, Result<FrameOutcome, FrameFault>))
    requires
        screen.wf(),
        overlay_wf(state@),
    ensures
        overlay_wf(res.0@),
        frame_defined(state@, *keys, *screen, *input) ==> (res.1 matches Ok(out) && (res.0@, out@)
            == frame_model(state@, *keys, *screen, *input)),
        !frame_defined(state@, *keys, *screen, *input) ==> {
            &&& res.0@ == state@
            &&& (res.1 matches Err(fault) && fault.nudges@ == nudges_of(*input) && fault.kind == (
            if state@ is Selecting {
                FaultKind::NoCellForKeys
            } else {
                FaultKind::Overflow
            }))
        },
{
    let defined = if input.space_pressed {
        true
    } else {
        let typed = typed_of(input);
        match &state {
            OverlayState::Selecting { key_seq } => {
                match typed {
                    Some(c) => if !input.shift_down && key_seq.len() == 1 {
                        let probe = vec![key_seq[0], c];
                        assert(probe@ =~= with_typed(key_seq@, *input));
                        proof {
                            screen.lemma_fits();
                        }
                        let (_labels, dest) = grid_letters(
                            keys,
                            screen.cell_width,
                            screen.font_size,
                            screen.cell_height,
                            probe.as_slice(),
                        );
                        dest.is_some()
                    } else {
                        true
                    },
                    None => true,
                }
            },
            OverlayState::Specifying { base_y, base_x, spec_key_seq, .. } => {
                refine_fits(keys, typed, screen, *base_y, *base_x, spec_key_seq.len())
            },
        }
    };
    if defined {
        let (next, out) = frame(state, keys, screen, input);
        (next, Ok(out))
    } else {
        let nudges = frame_nudges(input);
        let kind = if state.is_specifying() {
            FaultKind::Overflow
        } else {
            FaultKind::NoCellForKeys
        };
        (state, Err(FrameFault { kind, nudges }))
    }
}

/// The two keys, as the layout shows them, that name the cell in row `i`
/// and column `j`: the column's key from the top row, then the row's key.
pub open spec fn typed_keys_of_cell(i: int, j: int) -> Seq<char> {
    seq![
        overlay_rows()[0][j]->Some_0,
        overlay_rows()[i % 2 + 1][i / 2]->Some_0,
    ]
}

proof fn lemma_layout_first_keys(kd: KeyDistribution<10>)
    requires
        kd.rows() == overlay_rows(),
    ensures
        forall|j: int|
            0 <= j < 10 ==> kd.key_at(0, j) == #[trigger] overlay_rows()[0][j] && kd.key_at(0, j)
                is Some,
        forall|j1: int, j2: int|
            0 <= j1 < 10 && 0 <= j2 < 10 && upper(or_unknown(#[trigger] kd.key_at(0, j1))) == upper(
                or_unknown(#[trigger] kd.key_at(0, j2)),
            ) ==> j1 == j2,
{
    kd.lemma_rows_shape();
}

proof fn lemma_layout_second_keys(kd: KeyDistribution<10>)
    requires
        kd.rows() == overlay_rows(),
    ensures
        forall|i: int|
            0 <= i < GRID_HEIGHT ==> kd.key_at(i % 2 + 1, i / 2) == #[trigger] overlay_rows()[i % 2
                + 1][i / 2] && kd.key_at(i % 2 + 1, i / 2) is Some,
        forall|i1: int, i2: int|
            0 <= i1 < GRID_HEIGHT && 0 <= i2 < GRID_HEIGHT && upper(
                or_unknown(#[trigger] kd.key_at(i1 % 2 + 1, i1 / 2)),
            ) == upper(or_unknown(#[trigger] kd.key_at(i2 % 2 + 1, i2 / 2))) ==> i1 == i2,
{
    kd.lemma_rows_shape();
}

/// With the overlay's layout, typing the two keys shown on a cell, in either
/// case, selects that cell and no other.
pub proof fn lemma_cell_keys_select_cell(kd: KeyDistribution<10>, i: int, j: int, typed: Seq<char>)
    requires
        kd.rows() == overlay_rows(),
        in_grid(i, j),
        typed.len() == 2,
        same_ignoring_case(typed[0], typed_keys_of_cell(i, j)[0]),
        same_ignoring_case(typed[1], typed_keys_of_cell(i, j)[1]),
    ensures
        selected_cell(kd, typed) == Some((i, j)),
        forall|y: int, x: int| in_grid(y, x) && cell_visible(kd, typed, y, x) ==> y == i && x == j,
{
    lemma_layout_first_keys(kd);
    lemma_layout_second_keys(kd);
    let k0 = overlay_rows()[0][j];
    let k1 = overlay_rows()[i % 2 + 1][i / 2];
    assert(kd.key_at(0, j) == k0);
    assert(kd.key_at(i % 2 + 1, i / 2) == k1);
    lemma_upper_idempotent(k0->Some_0);
    lemma_upper_idempotent(k1->Some_0);
    assert(cell_visible(kd, typed, i, j));
    assert forall|y: int, x: int| in_grid(y, x) && cell_visible(kd, typed, y, x) implies y == i
        && x == j by {
        let ks = cell_keyseq(kd, y, x);
        assert(same_ignoring_case(typed[0], ks[0]));
        assert(same_ignoring_case(typed[1], ks[1]));
        lemma_upper_idempotent(or_unknown(kd.key_at(0, x)));
        lemma_upper_idempotent(or_unknown(kd.key_at(y % 2 + 1, y / 2)));
        assert(upper(or_unknown(kd.key_at(0, x))) == upper(or_unknown(kd.key_at(0, j))));
        assert(upper(or_unknown(kd.key_at(y % 2 + 1, y / 2))) == upper(
            or_unknown(kd.key_at(i % 2 + 1, i / 2)),
        ));
    }
    assert(is_last_visible(kd, typed, i, j));
    lemma_selected_cell_is(kd, typed, i, j);
}

/// With the overlay's layout, pressing the key shown on one of the eight
/// parts of a cell picks that part.
pub proof fn lemma_subcell_key_picks_subcell(kd: KeyDistribution<10>, i: int, j: int)
    requires
        kd.rows() == overlay_rows(),
        is_subcell(i, j),
    ensures
        subcell_key(kd, i, j) != ' ',
        chosen_subcell(kd, Some(subcell_key(kd, i, j))) == Some((i, j)),
{
    kd.lemma_rows_shape();
    let k = Some(subcell_key(kd, i, j));
    assert forall|i2: int, j2: int| is_subcell(i2, j2) && subcell_chosen(kd, k, i2, j2) implies i2
        == i && j2 == j by {
        assert(kd.key_at(i2, j2 + 5) == overlay_rows()[i2][j2 + 5]);
        assert(kd.key_at(i, j + 5) == overlay_rows()[i][j + 5]);
    }
    assert(kd.key_at(i, j + 5) == overlay_rows()[i][j + 5]);
    assert(is_last_chosen(kd, k, i, j));
    lemma_chosen_subcell_is(kd, k, i, j);
}

/// With the overlay's layout, typing a cell's two keys on two frames of the
/// freshly opened overlay moves the pointer to the centre of that cell and
/// starts refining it from its top-left corner.
pub proof fn lemma_two_keys_move_to_cell(
    kd: KeyDistribution<10>,
    scr: Screen,
    first: FrameInput,
    second: FrameInput,
    i: int,
    j: int,
)
    requires
        kd.rows() == overlay_rows(),
        scr.wf(),
        in_grid(i, j),
        !first.space_pressed && !first.shift_down,
        !second.space_pressed && !second.shift_down,
        first.char_pressed matches Some(a) && same_ignoring_case(a, typed_keys_of_cell(i, j)[0]),
        second.char_pressed matches Some(b) && same_ignoring_case(b, typed_keys_of_cell(i, j)[1]),
    ensures
        ({
            let start = OverlayModel::Selecting { key_seq: Seq::empty() };
            let (s1, o1) = frame_model(start, kd, scr, first);
            let (s2, o2) = frame_model(s1, kd, scr, second);
            &&& frame_defined(start, kd, scr, first)
            &&& s1 == OverlayModel::Selecting { key_seq: seq![first.char_pressed->Some_0] }
            &&& o1 matches FrameView::Continue { moveto, .. } && moveto is None
            &&& frame_defined(s1, kd, scr, second)
            &&& s2 == OverlayModel::Specifying {
                base_y: (i * scr.cell_height) as i32,
                base_x: (j * scr.cell_width) as i32,
                spec_key_seq: Seq::empty(),
                len_of_last_move: None,
            }
            &&& o2 matches FrameView::Continue { moveto, .. } && moveto == Some(
                (
                    (i * scr.cell_height + scr.cell_height / 2) as usize,
                    (j * scr.cell_width + scr.cell_width / 2) as usize,
                ),
            )
        }),
{
    let a = first.char_pressed->Some_0;
    let b = second.char_pressed->Some_0;
    lemma_layout_first_keys(kd);
    lemma_layout_second_keys(kd);
    assert(typed_keys_of_cell(i, j)[0] != ' ');
    assert(typed_keys_of_cell(i, j)[1] != ' ');
    lemma_upper_idempotent(typed_keys_of_cell(i, j)[0]);
    assert(a != ' ');
    assert(b != ' ');
    let ks1 = seq![a];
    let ks2 = seq![a, b];
    assert(with_typed(Seq::empty(), first) =~= ks1);
    assert(with_typed(ks1, second) =~= ks2);
    lemma_cell_keys_select_cell(kd, i, j, ks2);
}

/// `3^(k + m) == 3^k * 3^m`.
proof fn lemma_pow3_add(k: nat, m: nat)
    ensures
        pow3(k + m) == pow3(k) * pow3(m),
    decreases m,
{
    if m > 0 {
        lemma_pow3_add(k, (m - 1) as nat);
        let a = pow3(k);
        let b = pow3((m - 1) as nat);
        assert(pow3(k + m) == 3 * pow3((k + m - 1) as nat));
        assert(3 * (a * b) == a * (3 * b)) by (nonlinear_arith);
    }
}

/// The least depth at which the next move of a refinement can be made.
pub open spec fn next_move_depth(len_of_last_move: Option<usize>) -> int {
    match len_of_last_move {
        None => 1,
        Some(l) => l + 2,
    }
}

/// An offset into a cell of side `cell` that moves at depths `k + 1` and
/// deeper cannot push out of the cell: `0 <= off <= cell * (1 - 1 / 3^k)`.
pub open spec fn offset_bound(off: int, cell: int, k: nat) -> bool {
    0 <= off && pow3(k) * off <= (pow3(k) - 1) * cell
}

/// A refinement begun in cell `(i0, j0)`: its corner is within the cell by an
/// offset that the moves still to come cannot push out of it.
pub open spec fn refining_within(st: OverlayModel, scr: Screen, i0: int, j0: int) -> bool {
    match st {
        OverlayModel::Selecting { .. } => false,
        OverlayModel::Specifying { base_y, base_x, spec_key_seq, len_of_last_move } => {
            let k = (next_move_depth(len_of_last_move) - 1) as nat;
            &&& len_of_last_move matches Some(l) ==> l <= spec_key_seq.len()
            &&& offset_bound(base_y - i0 * scr.cell_height, scr.cell_height as int, k)
            &&& offset_bound(base_x - j0 * scr.cell_width, scr.cell_width as int, k)
        },
    }
}

proof fn lemma_offset_step(off: int, cell: int, k: nat, r: nat, i: int)
    requires
        0 <= cell,
        k < r,
        0 <= i <= 2,
        offset_bound(off, cell, k),
    ensures
        offset_bound(off + (cell / pow3(r)) * i, cell, r),
{
    let d = (r - k) as nat;
    lemma_pow3_add(k, d);
    lemma_pow3_monotonic(0, k);
    lemma_pow3_monotonic(1, d);
    assert(pow3(1) == 3) by {
        reveal_with_fuel(pow3, 2);
    }
    let a = pow3(k);
    let b = pow3(d);
    assert(pow3(r) == a * b);
    let q = cell / (a * b);
    assert(a * b >= 3 && 0 <= q && (a * b) * q <= cell) by (nonlinear_arith)
        requires
            a >= 1,
            b >= 3,
            q == cell / (a * b),
            0 <= cell,
    ;
    assert(0 <= q * i && (a * b) * (q * i) <= 2 * cell) by (nonlinear_arith)
        requires
            0 <= q,
            0 <= i <= 2,
            (a * b) * q <= cell,
            0 <= cell,
    ;
    assert((a * b) * off <= (a * b - b) * cell) by (nonlinear_arith)
        requires
            a * off <= (a - 1) * cell,
            b >= 3,
    ;
    assert((a * b) * (off + q * i) <= (a * b - 1) * cell) by (nonlinear_arith)
        requires
            (a * b) * off <= (a * b - b) * cell,
            (a * b) * (q * i) <= 2 * cell,
            b >= 3,
            0 <= cell,
    ;
}

proof fn lemma_offset_inside(off: int, cell: int, k: nat)
    requires
        0 <= cell,
        offset_bound(off, cell, k),
    ensures
        cell > 0 ==> off < cell,
        cell == 0 ==> off == 0,
{
    lemma_pow3_monotonic(0, k);
    let a = pow3(k);
    assert(cell > 0 ==> off < cell) by (nonlinear_arith)
        requires
            a >= 1,
            0 <= off,
            a * off <= (a - 1) * cell,
    ;
    assert(cell == 0 ==> off == 0) by (nonlinear_arith)
        requires
            a >= 1,
            0 <= off,
            a * off <= (a - 1) * cell,
    ;
}

proof fn lemma_chosen_is_subcell(kd: KeyDistribution<10>, last_pressed: Option<char>)
    ensures
        chosen_subcell(kd, last_pressed) matches Some((i, j)) ==> is_subcell(i, j),
{
    if let Some((i, j)) = chosen_subcell(kd, last_pressed) {
        assert(is_last_chosen(kd, last_pressed, i, j));
    }
}

/// Every defined frame keeps a refinement begun in cell `(i0, j0)` within it.
pub proof fn lemma_frame_keeps_within(
    kd: KeyDistribution<10>,
    scr: Screen,
    st: OverlayModel,
    input: FrameInput,
    i0: int,
    j0: int,
)
    requires
        scr.wf(),
        refining_within(st, scr, i0, j0),
        frame_defined(st, kd, scr, input),
    ensures
        refining_within(frame_model(st, kd, scr, input).0, scr, i0, j0),
{
    scr.lemma_fits();
    if !input.space_pressed {
        if let OverlayModel::Specifying { base_y, base_x, spec_key_seq, len_of_last_move } = st {
            let len = spec_key_seq.len();
            let rec = len + 1int;
            let s = pow3(rec as nat);
            lemma_pow3_fits(rec as nat);
            lemma_chosen_is_subcell(kd, typed_char(input));
            if let Some((i, j)) = chosen_subcell(kd, typed_char(input)) {
                if len_of_last_move != Some(len as usize) {
                    let k = (next_move_depth(len_of_last_move) - 1) as nat;
                    let ch = scr.cell_height as int;
                    let cw = scr.cell_width as int;
                    assert(0 <= (ch / s) * i <= (ch / s) * 3) by (nonlinear_arith)
                        requires
                            0 <= ch,
                            s >= 1,
                            0 <= i <= 2,
                    ;
                    assert(0 <= (cw / s) * j <= (cw / s) * 3) by (nonlinear_arith)
                        requires
                            0 <= cw,
                            s >= 1,
                            0 <= j <= 2,
                    ;
                    lemma_offset_step(base_y - i0 * ch, ch, k, rec as nat, i);
                    lemma_offset_step(base_x - j0 * cw, cw, k, rec as nat, j);
                }
            }
        }
    }
}

/// The state after each frame of `inputs` in turn.
pub open spec fn run_frames(
    st: OverlayModel,
    kd: KeyDistribution<10>,
    scr: Screen,
    inputs: Seq<FrameInput>,
) -> OverlayModel
    decreases inputs.len(),
{
    if inputs.len() == 0 {
        st
    } else {
        run_frames(frame_model(st, kd, scr, inputs[0]).0, kd, scr, inputs.drop_first())
    }
}

/// Every frame of `inputs`, in turn, is defined.
pub open spec fn frames_defined(
    st: OverlayModel,
    kd: KeyDistribution<10>,
    scr: Screen,
    inputs: Seq<FrameInput>,
) -> bool
    decreases inputs.len(),
{
    inputs.len() == 0 || (frame_defined(st, kd, scr, inputs[0]) && frames_defined(
        frame_model(st, kd, scr, inputs[0]).0,
        kd,
        scr,
        inputs.drop_first(),
    ))
}

proof fn lemma_run_keeps_within(
    kd: KeyDistribution<10>,
    scr: Screen,
    st: OverlayModel,
    inputs: Seq<FrameInput>,
    i0: int,
    j0: int,
)
    requires
        scr.wf(),
        refining_within(st, scr, i0, j0),
        frames_defined(st, kd, scr, inputs),
    ensures
        refining_within(run_frames(st, kd, scr, inputs), scr, i0, j0),
    decreases inputs.len(),
{
    if inputs.len() > 0 {
        lemma_frame_keeps_within(kd, scr, st, inputs[0], i0, j0);
        lemma_run_keeps_within(
            kd,
            scr,
            frame_model(st, kd, scr, inputs[0]).0,
            inputs.drop_first(),
            i0,
            j0,
        );
    }
}

/// Once cell `(i0, j0)` is picked, no sequence of frames moves the corner
/// being refined out of that cell: each move goes a deeper level down, by
/// at most two thirds of that level's part.
pub proof fn lemma_refining_stays_in_cell(
    kd: KeyDistribution<10>,
    scr: Screen,
    i0: int,
    j0: int,
    spec_key_seq: Seq<char>,
    inputs: Seq<FrameInput>,
)
    requires
        scr.wf(),
        in_grid(i0, j0),
        frames_defined(
            OverlayModel::Specifying {
                base_y: (i0 * scr.cell_height) as i32,
                base_x: (j0 * scr.cell_width) as i32,
                spec_key_seq,
                len_of_last_move: None,
            },
            kd,
            scr,
            inputs,
        ),
    ensures
        run_frames(
            OverlayModel::Specifying {
                base_y: (i0 * scr.cell_height) as i32,
                base_x: (j0 * scr.cell_width) as i32,
                spec_key_seq,
                len_of_last_move: None,
            },
            kd,
            scr,
            inputs,
        ) matches OverlayModel::Specifying { base_y, base_x, .. } && {
            &&& i0 * scr.cell_height <= base_y
            &&& scr.cell_height > 0 ==> base_y < (i0 + 1) * scr.cell_height
            &&& scr.cell_height == 0 ==> base_y == i0 * scr.cell_height
            &&& j0 * scr.cell_width <= base_x
            &&& scr.cell_width > 0 ==> base_x < (j0 + 1) * scr.cell_width
            &&& scr.cell_width == 0 ==> base_x == j0 * scr.cell_width
        },
{
    scr.lemma_fits();
    let ch = scr.cell_height as int;
    let cw = scr.cell_width as int;
    assert(0 <= i0 * ch <= scr.mon_h && 0 <= j0 * cw <= scr.mon_w) by (nonlinear_arith)
        requires
            0 <= i0 < GRID_HEIGHT,
            0 <= j0 < GRID_WIDTH,
            0 <= ch,
            0 <= cw,
            ch * GRID_HEIGHT <= scr.mon_h,
            cw * GRID_WIDTH <= scr.mon_w,
    ;
    let start = OverlayModel::Specifying {
        base_y: (i0 * scr.cell_height) as i32,
        base_x: (j0 * scr.cell_width) as i32,
        spec_key_seq,
        len_of_last_move: None,
    };
    assert(pow3(0) == 1);
    assert(refining_within(start, scr, i0, j0));
    lemma_run_keeps_within(kd, scr, start, inputs, i0, j0);
    let end = run_frames(start, kd, scr, inputs);
    if let OverlayModel::Specifying { base_y, base_x, len_of_last_move, .. } = end {
        let k = (next_move_depth(len_of_last_move) - 1) as nat;
        lemma_offset_inside(base_y - i0 * ch, ch, k);
        lemma_offset_inside(base_x - j0 * cw, cw, k);
        assert((i0 + 1) * ch == i0 * ch + ch && (j0 + 1) * cw == j0 * cw + cw) by (nonlinear_arith);
    }
}

/// While refining, the pointer moves only when the number of typed keys has
/// changed since the last move, and the move records that number.
pub proof fn lemma_refining_moves_once_per_length(
    kd: KeyDistribution<10>,
    scr: Screen,
    st: OverlayModel,
    input: FrameInput,
)
    requires
        st matches OverlayModel::Specifying { .. },
        frame_model(st, kd, scr, input).1 matches FrameView::Continue { moveto, .. } && moveto is Some,
    ensures
        ({
            let len = st->spec_key_seq.len();
            &&& st->len_of_last_move != Some(len as usize)
            &&& frame_model(st, kd, scr, input).0->len_of_last_move == Some(len as usize)
        }),
{
}

proof fn lemma_div_le(a: int, d: int)
    requires
        0 <= a,
        1 <= d,
    ensures
        0 <= a / d <= a,
{
    assert(0 <= a / d <= a) by (nonlinear_arith)
        requires
            0 <= a,
            1 <= d,
    ;
}

/// On a monitor of at most half the `i32` range each way, a refinement begun
/// in cell `(i0, j0)` with at most 18 typed keys is always defined: no frame
/// overflows, whatever keys it brings. Depth 19 is the first that overflows.
pub proof fn lemma_refining_frame_defined(
    kd: KeyDistribution<10>,
    scr: Screen,
    st: OverlayModel,
    input: FrameInput,
    i0: int,
    j0: int,
)
    requires
        scr.wf(),
        scr.mon_w <= i32::MAX / 2,
        scr.mon_h <= i32::MAX / 2,
        in_grid(i0, j0),
        refining_within(st, scr, i0, j0),
        st->spec_key_seq.len() <= 18,
    ensures
        frame_defined(st, kd, scr, input),
{
    scr.lemma_fits();
    if let OverlayModel::Specifying { base_y, base_x, spec_key_seq, len_of_last_move } = st {
        let ch = scr.cell_height as int;
        let cw = scr.cell_width as int;
        let fs = scr.font_size as int;
        let len = spec_key_seq.len();
        let rec = len + 1int;
        let s = pow3(rec as nat);
        let p = pow3((rec - 1) as nat);
        lemma_pow3_fits(rec as nat);
        lemma_pow3_fits((rec - 1) as nat);
        let k = (next_move_depth(len_of_last_move) - 1) as nat;
        lemma_offset_inside(base_y - i0 * ch, ch, k);
        lemma_offset_inside(base_x - j0 * cw, cw, k);
        assert(0 <= i0 * ch && (i0 + 1) * ch <= scr.mon_h) by (nonlinear_arith)
            requires
                0 <= i0 < GRID_HEIGHT,
                0 <= ch,
                ch * GRID_HEIGHT <= scr.mon_h,
        ;
        assert(0 <= j0 * cw && (j0 + 1) * cw <= scr.mon_w) by (nonlinear_arith)
            requires
                0 <= j0 < GRID_WIDTH,
                0 <= cw,
                cw * GRID_WIDTH <= scr.mon_w,
        ;
        assert((i0 + 1) * ch == i0 * ch + ch && (j0 + 1) * cw == j0 * cw + cw) by (nonlinear_arith);
        assert(0 <= base_y <= scr.mon_h && ch <= scr.mon_h);
        assert(0 <= base_x <= scr.mon_w && cw <= scr.mon_w);
        lemma_div_le(ch, s);
        lemma_div_le(cw, s);
        lemma_div_le(ch, p);
        lemma_div_le(cw, p);
        lemma_div_le(2 * ch, s);
        lemma_div_le(2 * cw, s);
        lemma_div_le(ch / s, 2);
        lemma_div_le(cw / s, 2);
        let f = subcell_font(scr.font_size, rec);
        lemma_div_le(fs, 2 * rec);
        lemma_div_le(f, 2 * rec);
        assert(refine_lines_fit(scr.cell_height, base_y, scr.cell_width, base_x, rec));
        assert forall|i: int, j: int|
            is_subcell(i, j) && #[trigger] subcell_chosen(kd, typed_char(input), i, j) implies subcell_y(
            scr.cell_height,
            base_y,
            s,
            i,
        ) + f / (2 * rec) <= i32::MAX by {
            assert(0 <= i * ch <= 2 * ch) by (nonlinear_arith)
                requires
                    0 <= i <= 2,
                    0 <= ch,
            ;
            lemma_div_le(i * ch, s);
        }
        assert(refine_letters_fit(
            kd,
            typed_char(input),
            scr.cell_width,
            scr.cell_height,
            base_y,
            base_x,
            scr.font_size,
            rec,
        ));
    }
}

/// On a monitor of at most half the `i32` range each way, every frame of a
/// refinement begun in cell `(i0, j0)` is defined as long as no state along
/// the way holds more than 18 typed keys; each frame adds at most one key.
pub proof fn lemma_refining_run_defined(
    kd: KeyDistribution<10>,
    scr: Screen,
    st: OverlayModel,
    inputs: Seq<FrameInput>,
    i0: int,
    j0: int,
)
    requires
        scr.wf(),
        scr.mon_w <= i32::MAX / 2,
        scr.mon_h <= i32::MAX / 2,
        in_grid(i0, j0),
        refining_within(st, scr, i0, j0),
        st->spec_key_seq.len() + inputs.len() <= 19,
    ensures
        frames_defined(st, kd, scr, inputs),
    decreases inputs.len(),
{
    if inputs.len() > 0 {
        lemma_refining_frame_defined(kd, scr, st, inputs[0], i0, j0);
        lemma_frame_keeps_within(kd, scr, st, inputs[0], i0, j0);
        let next = frame_model(st, kd, scr, inputs[0]).0;
        assert(next->spec_key_seq.len() <= st->spec_key_seq.len() + 1);
        lemma_refining_run_defined(kd, scr, next, inputs.drop_first(), i0, j0);
    }
}

/// The total of the rows `dy` of a list of moves.
pub open spec fn total_dy(moves: Seq<(isize, isize)>) -> int
    decreases moves.len(),
{
    if moves.len() == 0 {
        0
    } else {
        total_dy(moves.drop_last()) + moves.last().0
    }
}

/// The total of the columns `dx` of a list of moves.
pub open spec fn total_dx(moves: Seq<(isize, isize)>) -> int
    decreases moves.len(),
{
    if moves.len() == 0 {
        0
    } else {
        total_dx(moves.drop_last()) + moves.last().1
    }
}

/// 1 for a held key, 0 for one that is not.
pub open spec fn held(b: bool) -> int {
    if b {
        1
    } else {
        0
    }
}

proof fn lemma_totals_add(a: Seq<(isize, isize)>, b: Seq<(isize, isize)>)
    ensures
        total_dy(a + b) == total_dy(a) + total_dy(b),
        total_dx(a + b) == total_dx(a) + total_dx(b),
    decreases b.len(),
{
    if b.len() == 0 {
        assert(a + b =~= a);
    } else {
        lemma_totals_add(a, b.drop_last());
        assert((a + b).drop_last() =~= a + b.drop_last());
    }
}

proof fn lemma_nudge_totals(h: bool, must: bool, sd: bool, dy: isize, dx: isize)
    ensures
        total_dy(nudge(h, must, sd, dy, dx)) == if h && must == sd { dy as int } else { 0 },
        total_dx(nudge(h, must, sd, dy, dx)) == if h && must == sd { dx as int } else { 0 },
        nudge(h, must, sd, dy, dx).len() == held(h && must == sd),
{
    let n = nudge(h, must, sd, dy, dx);
    if h && must == sd {
        assert(n.drop_last() =~= Seq::<(isize, isize)>::empty());
        assert(total_dy(n.drop_last()) == 0 && total_dx(n.drop_last()) == 0);
    } else {
        assert(total_dy(n) == 0 && total_dx(n) == 0);
    }
}

/// The small moves of a frame go 10 pixels in each held key's direction:
/// without shift, the Up arrow moves up (`dy` -10), Down down (+10), Left
/// left (`dx` -10) and Right right (+10); with shift, `k` moves up, `j`
/// down, `h` left and `l` right. Each held key of the right kind makes one
/// move, of 10 pixels along one axis, and no other key makes any.
pub proof fn lemma_nudges_follow_keys(input: FrameInput)
    ensures
        ({
            let n = nudges_of(input);
            let sd = input.shift_down;
            &&& total_dy(n) == 10 * if sd {
                held(input.j_down) - held(input.k_down)
            } else {
                held(input.down_down) - held(input.up_down)
            }
            &&& total_dx(n) == 10 * if sd {
                held(input.l_down) - held(input.h_down)
            } else {
                held(input.right_down) - held(input.left_down)
            }
            &&& n.len() == if sd {
                held(input.h_down) + held(input.j_down) + held(input.k_down) + held(input.l_down)
            } else {
                held(input.left_down) + held(input.right_down) + held(input.up_down) + held(
                    input.down_down,
                )
            }
            &&& forall|m: int|
                0 <= m < n.len() ==> ((#[trigger] n[m]).0 == 0 && (n[m].1 == 10 || n[m].1 == -10))
                    || (n[m].1 == 0 && (n[m].0 == 10 || n[m].0 == -10))
        }),
{
    let sd = input.shift_down;
    let p0 = nudge(input.left_down, false, sd, 0, -10isize);
    let p1 = nudge(input.right_down, false, sd, 0, 10);
    let p2 = nudge(input.up_down, false, sd, -10isize, 0);
    let p3 = nudge(input.down_down, false, sd, 10, 0);
    let p4 = nudge(input.h_down, true, sd, 0, -10isize);
    let p5 = nudge(input.j_down, true, sd, 10, 0);
    let p6 = nudge(input.k_down, true, sd, -10isize, 0);
    let p7 = nudge(input.l_down, true, sd, 0, 10);
    lemma_nudge_totals(input.left_down, false, sd, 0, -10isize);
    lemma_nudge_totals(input.right_down, false, sd, 0, 10);
    lemma_nudge_totals(input.up_down, false, sd, -10isize, 0);
    lemma_nudge_totals(input.down_down, false, sd, 10, 0);
    lemma_nudge_totals(input.h_down, true, sd, 0, -10isize);
    lemma_nudge_totals(input.j_down, true, sd, 10, 0);
    lemma_nudge_totals(input.k_down, true, sd, -10isize, 0);
    lemma_nudge_totals(input.l_down, true, sd, 0, 10);
    let a1 = p0 + p1;
    let a2 = a1 + p2;
    let a3 = a2 + p3;
    let a4 = a3 + p4;
    let a5 = a4 + p5;
    let a6 = a5 + p6;
    let a7 = a6 + p7;
    lemma_totals_add(p0, p1);
    lemma_totals_add(a1, p2);
    lemma_totals_add(a2, p3);
    lemma_totals_add(a3, p4);
    lemma_totals_add(a4, p5);
    lemma_totals_add(a5, p6);
    lemma_totals_add(a6, p7);
    assert(nudges_of(input) == a7);
    let n = a7;
    assert forall|m: int| 0 <= m < n.len() implies ((#[trigger] n[m]).0 == 0 && (n[m].1 == 10
        || n[m].1 == -10)) || (n[m].1 == 0 && (n[m].0 == 10 || n[m].0 == -10)) by {
        let parts = seq![p0, p1, p2, p3, p4, p5, p6, p7];
        assert forall|q: int, t: int| 0 <= q < 8 && 0 <= t < parts[q].len() implies (
        #[trigger] parts[q][t]).0 == 0 && (parts[q][t].1 == 10 || parts[q][t].1 == -10) || (
        parts[q][t].1 == 0 && (parts[q][t].0 == 10 || parts[q][t].0 == -10)) by {
            assert(t == 0);
        }
        if m < a1.len() {
            if m < p0.len() {
                assert(n[m] == parts[0][m]);
            } else {
                assert(n[m] == parts[1][m - p0.len()]);
            }
        } else if m < a2.len() {
            assert(n[m] == parts[2][m - a1.len()]);
        } else if m < a3.len() {
            assert(n[m] == parts[3][m - a2.len()]);
        } else if m < a4.len() {
            assert(n[m] == parts[4][m - a3.len()]);
        } else if m < a5.len() {
            assert(n[m] == parts[5][m - a4.len()]);
        } else if m < a6.len() {
            assert(n[m] == parts[6][m - a5.len()]);
        } else {
            assert(n[m] == parts[7][m - a6.len()]);
        }
    }
}

/// The overlay names columns by the top letter row of the keyboard, and rows
/// by its home and bottom rows in turn: typing the `j`-th key of
/// `q w e r t y u i o p` and then the `k`-th key of `a s d f g h j` selects
/// row `2k`, column `j`; with the `k`-th key of `z x c v b n m` instead it
/// selects row `2k + 1`.
pub proof fn lemma_keyboard_rows_name_cells(kd: KeyDistribution<10>, j: int, k: int)
    requires
        kd.rows() == overlay_rows(),
        0 <= j < 10,
        0 <= k < 7,
    ensures
        selected_cell(
            kd,
            seq![
                seq!['q', 'w', 'e', 'r', 't', 'y', 'u', 'i', 'o', 'p'][j],
                seq!['a', 's', 'd', 'f', 'g', 'h', 'j'][k],
            ],
        ) == Some((2 * k, j)),
        k < 6 ==> selected_cell(
            kd,
            seq![
                seq!['q', 'w', 'e', 'r', 't', 'y', 'u', 'i', 'o', 'p'][j],
                seq!['z', 'x', 'c', 'v', 'b', 'n', 'm'][k],
            ],
        ) == Some((2 * k + 1, j)),
{
    let top = seq!['q', 'w', 'e', 'r', 't', 'y', 'u', 'i', 'o', 'p'];
    let home = seq!['a', 's', 'd', 'f', 'g', 'h', 'j'];
    let bottom = seq!['z', 'x', 'c', 'v', 'b', 'n', 'm'];
    let row1 = seq!['a', 's', 'd', 'f', 'g', 'h', 'j', 'k', 'l', 'ñ'];
    let row2 = seq!['z', 'x', 'c', 'v', 'b', 'n', 'm', ',', '.', '-'];
    assert(home[k] == row1[k]);
    assert(k < 6 ==> bottom[k] == row2[k]);
    assert(typed_keys_of_cell(2 * k, j) == seq![top[j], home[k]]);
    lemma_cell_keys_select_cell(kd, 2 * k, j, seq![top[j], home[k]]);
    if k < 6 {
        assert(typed_keys_of_cell(2 * k + 1, j) == seq![top[j], bottom[k]]);
        lemma_cell_keys_select_cell(kd, 2 * k + 1, j, seq![top[j], bottom[k]]);
    }
}

} // verus!
