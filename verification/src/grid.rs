use vstd::prelude::*;

use crate::ascii::{is_prefix_ignoring_case, is_prefix_of, same_ignoring_case, to_ascii_uppercase, upper};
use crate::keys::KeyDistribution;
use crate::{GRID_HEIGHT, GRID_WIDTH, PADDING_H, PADDING_W};

verus! {

/// A line to draw, from `(x1, y1)` to `(x2, y2)`, in pixels.
#[derive(Clone, Copy, Debug, PartialEq, Eq, Structural)]
pub struct Segment {
    pub x1: i32,
    pub y1: i32,
    pub x2: i32,
    pub y2: i32,
}

/// A character to draw with its top-left corner at `(x, y)`.
#[derive(Clone, Copy, Debug, PartialEq, Eq, Structural)]
pub struct Label {
    pub text: char,
    pub x: i32,
    pub y: i32,
    pub font_size: i32,
}

pub open spec fn fits_i32(x: int) -> bool {
    i32::MIN <= x <= i32::MAX
}

/// The remainder of `a / b` as Rust computes it: truncated towards zero, with
/// the sign of `a`.
pub open spec fn trunc_rem(a: int, b: int) -> int {
    if a >= 0 {
        a % b
    } else {
        -((-a) % b)
    }
}

/// The quotient `a / b` as Rust computes it, truncated towards zero.
pub open spec fn trunc_div(a: int, b: int) -> int {
    if a >= 0 {
        a / b
    } else {
        -((-a) / b)
    }
}

/// A key, or `?` where the layout has none.
pub open spec fn or_unknown(k: Option<char>) -> char {
    match k {
        Some(c) => c,
        None => '?',
    }
}

/// The two keys, in upper case, that select the cell in row `i` and column `j`:
/// the first names the column, the second the row.
pub open spec fn cell_keyseq<const W: usize>(keys: KeyDistribution<W>, i: int, j: int) -> Seq<char> {
    seq![
        upper(or_unknown(keys.key_at(0, j))),
        upper(or_unknown(keys.key_at(trunc_rem(i, 2) + 1, trunc_div(i, 2)))),
    ]
}

pub open spec fn in_grid(i: int, j: int) -> bool {
    0 <= i < GRID_HEIGHT && 0 <= j < GRID_WIDTH
}

/// Cell `(i2, j2)` comes after cell `(i1, j1)` in reading order.
pub open spec fn comes_after(i1: int, j1: int, i2: int, j2: int) -> bool {
    i1 < i2 || (i1 == i2 && j1 < j2)
}

/// The cell's letters are shown for the keys typed so far: nothing was typed,
/// or what was typed starts the cell's key sequence.
pub open spec fn cell_visible<const W: usize>(
    keys: KeyDistribution<W>,
    pressed: Seq<char>,
    i: int,
    j: int,
) -> bool {
    pressed.len() == 0 || is_prefix_ignoring_case(pressed, cell_keyseq(keys, i, j))
}

/// The two labels of cell `(i, j)`.
pub open spec fn cell_labels<const W: usize>(
    keys: KeyDistribution<W>,
    cell_width: i32,
    font_size: i32,
    cell_height: i32,
    i: int,
    j: int,
) -> Seq<Label> {
    let ks = cell_keyseq(keys, i, j);
    let y = (i * cell_height + PADDING_H) as i32;
    seq![
        Label {
            text: ks[0],
            x: (j * cell_width + PADDING_W + font_size / 4) as i32,
            y,
            font_size,
        },
        Label {
            text: ks[1],
            x: (j * cell_width + PADDING_W + 3 * font_size / 4) as i32,
            y,
            font_size,
        },
    ]
}

/// Labels of the visible cells among the first `c` cells of row `i`.
pub open spec fn row_labels<const W: usize>(
    keys: KeyDistribution<W>,
    pressed: Seq<char>,
    cell_width: i32,
    font_size: i32,
    cell_height: i32,
    i: int,
    c: int,
) -> Seq<Label>
    decreases c,
{
    if c <= 0 {
        Seq::empty()
    } else {
        row_labels(keys, pressed, cell_width, font_size, cell_height, i, c - 1) + if cell_visible(
            keys,
            pressed,
            i,
            c - 1,
        ) {
            cell_labels(keys, cell_width, font_size, cell_height, i, c - 1)
        } else {
            Seq::empty()
        }
    }
}

/// Labels of the visible cells of the first `r` rows, in reading order.
pub open spec fn grid_labels<const W: usize>(
    keys: KeyDistribution<W>,
    pressed: Seq<char>,
    cell_width: i32,
    font_size: i32,
    cell_height: i32,
    r: int,
) -> Seq<Label>
    decreases r,
{
    if r <= 0 {
        Seq::empty()
    } else {
        grid_labels(keys, pressed, cell_width, font_size, cell_height, r - 1) + row_labels(
            keys,
            pressed,
            cell_width,
            font_size,
            cell_height,
            r - 1,
            GRID_WIDTH as int,
        )
    }
}

/// The letters of every cell can be placed without leaving `i32`.
/// Sizes are those of a `Screen`, never negative.
pub open spec fn grid_letters_fit(cell_width: i32, font_size: i32, cell_height: i32) -> bool {
    &&& 0 <= cell_width
    &&& 0 <= font_size
    &&& 0 <= cell_height
    &&& 3 * font_size <= i32::MAX
    &&& (GRID_WIDTH - 1) * cell_width + PADDING_W + 3 * font_size / 4 <= i32::MAX
    &&& (GRID_HEIGHT - 1) * cell_height + PADDING_H <= i32::MAX
}

/// Cell `(y, x)` is shown, and no cell after it in reading order is.
pub open spec fn is_last_visible<const W: usize>(
    keys: KeyDistribution<W>,
    pressed: Seq<char>,
    y: int,
    x: int,
) -> bool {
    &&& in_grid(y, x)
    &&& cell_visible(keys, pressed, y, x)
    &&& forall|y2: int, x2: int|
        in_grid(y2, x2) && comes_after(y, x, y2, x2) ==> !cell_visible(keys, pressed, y2, x2)
}

/// The cell that two typed keys select: the last shown cell in reading order.
pub open spec fn selected_cell<const W: usize>(keys: KeyDistribution<W>, pressed: Seq<char>) -> Option<
    (int, int),
> {
    if pressed.len() == 2 && exists|y: int, x: int| #[trigger] is_last_visible(keys, pressed, y, x) {
        Some(choose|y: int, x: int| #[trigger] is_last_visible(keys, pressed, y, x))
    } else {
        None
    }
}

/// At most one cell is the last shown one.
pub proof fn lemma_last_visible_unique<const W: usize>(
    keys: KeyDistribution<W>,
    pressed: Seq<char>,
    y1: int,
    x1: int,
    y2: int,
    x2: int,
)
    requires
        is_last_visible(keys, pressed, y1, x1),
        is_last_visible(keys, pressed, y2, x2),
    ensures
        y1 == y2 && x1 == x2,
{
    if comes_after(y1, x1, y2, x2) {
        assert(!cell_visible(keys, pressed, y2, x2));
    } else if comes_after(y2, x2, y1, x1) {
        assert(!cell_visible(keys, pressed, y1, x1));
    }
}

/// The selected cell is the one cell that is last shown.
pub proof fn lemma_selected_cell_is<const W: usize>(
    keys: KeyDistribution<W>,
    pressed: Seq<char>,
    y: int,
    x: int,
)
    requires
        pressed.len() == 2,
        is_last_visible(keys, pressed, y, x),
    ensures
        selected_cell(keys, pressed) == Some((y, x)),
{
    let (cy, cx) = choose|cy: int, cx: int| #[trigger] is_last_visible(keys, pressed, cy, cx);
    lemma_last_visible_unique(keys, pressed, y, x, cy, cx);
}

/// The keys that select the cell in row `i` and column `j`, in upper case:
/// the first names the column, the second the row.
pub fn keyseq_associated_to_cell<const W: usize>(
    keys: &KeyDistribution<W>,
    i: i32,
    j: i32,
) -> (ks: [char; 2])
    requires
        -1 <= i,
        0 <= j,
    ensures
        ks@ == cell_keyseq(*keys, i as int, j as int),
{
    let first = match keys.get(0, j) {
        Some(c) => c,
        None => '?',
    };
    let second = match keys.get(i % 2 + 1, i / 2) {
        Some(c) => c,
        None => '?',
    };
    let ks = [to_ascii_uppercase(first), to_ascii_uppercase(second)];
    assert(ks@ =~= cell_keyseq(*keys, i as int, j as int));
    ks
}

/// The cell's letters are shown for the keys typed so far.
pub fn is_cell_visible<const W: usize>(
    keys: &KeyDistribution<W>,
    pressed_keys: &[char],
    i: i32,
    j: i32,
) -> (b: bool)
    requires
        -1 <= i,
        0 <= j,
    ensures
        b == cell_visible(*keys, pressed_keys@, i as int, j as int),
{
    let curr_keyseq = keyseq_associated_to_cell(keys, i, j);
    pressed_keys.len() == 0 || is_prefix_of(pressed_keys, curr_keyseq.as_slice())
}

/// The labels of every visible cell in reading order, and, once two keys are
/// typed, the last visible cell in reading order.
pub fn grid_letters<const W: usize>(
    keys: &KeyDistribution<W>,
    cell_width: i32,
    font_size: i32,
    cell_height: i32,
    pressed_keys: &[char],
) -> (res: (Vec<Label>, Option<(i32, i32)>))
    requires
        grid_letters_fit(cell_width, font_size, cell_height),
    ensures
        res.0@ == grid_labels(
            *keys,
            pressed_keys@,
            cell_width,
            font_size,
            cell_height,
            GRID_HEIGHT as int,
        ),
        pressed_keys@.len() != 2 ==> res.1 is None,
        pressed_keys@.len() == 2 ==> (res.1 is None <==> forall|y: int, x: int|
            in_grid(y, x) ==> !cell_visible(*keys, pressed_keys@, y, x)),
        res.1 matches Some((y, x)) ==> selected_cell(*keys, pressed_keys@) == Some(
            (y as int, x as int),
        ),
        res.1 is None ==> selected_cell(*keys, pressed_keys@) is None,
        res.1 matches Some((y, x)) ==> {
            &&& in_grid(y as int, x as int)
            &&& cell_visible(*keys, pressed_keys@, y as int, x as int)
            &&& forall|y2: int, x2: int|
                in_grid(y2, x2) && comes_after(y as int, x as int, y2, x2) ==> !cell_visible(
                    *keys,
                    pressed_keys@,
                    y2,
                    x2,
                )
        },
{
    let mut labels: Vec<Label> = Vec::new();
    let mut moveto_dest: Option<(i32, i32)> = None;
    let ghost pressed = pressed_keys@;
    let ghost kd = *keys;
    let mut i: i32 = 0;
    while i < GRID_HEIGHT
        invariant
            0 <= i <= GRID_HEIGHT,
            pressed == pressed_keys@,
            kd == *keys,
            grid_letters_fit(cell_width, font_size, cell_height),
            labels@ == grid_labels(kd, pressed, cell_width, font_size, cell_height, i as int),
            pressed.len() != 2 ==> moveto_dest is None,
            pressed.len() == 2 ==> (moveto_dest is None <==> forall|y: int, x: int|
                in_grid(y, x) && y < i ==> !cell_visible(kd, pressed, y, x)),
            moveto_dest matches Some((y, x)) ==> {
                &&& in_grid(y as int, x as int)
                &&& y < i
                &&& cell_visible(kd, pressed, y as int, x as int)
                &&& forall|y2: int, x2: int|
                    in_grid(y2, x2) && y2 < i && comes_after(y as int, x as int, y2, x2)
                        ==> !cell_visible(kd, pressed, y2, x2)
            },
        decreases GRID_HEIGHT - i,
    {
        let ghost row_start = labels@;
        let mut j: i32 = 0;
        while j < GRID_WIDTH
            invariant
                0 <= i < GRID_HEIGHT,
                0 <= j <= GRID_WIDTH,
                pressed == pressed_keys@,
                kd == *keys,
                grid_letters_fit(cell_width, font_size, cell_height),
                row_start == grid_labels(kd, pressed, cell_width, font_size, cell_height, i as int),
                labels@ == row_start + row_labels(
                    kd,
                    pressed,
                    cell_width,
                    font_size,
                    cell_height,
                    i as int,
                    j as int,
                ),
                pressed.len() != 2 ==> moveto_dest is None,
                pressed.len() == 2 ==> (moveto_dest is None <==> forall|y: int, x: int|
                    in_grid(y, x) && comes_after(y, x, i as int, j as int) ==> !cell_visible(
                        kd,
                        pressed,
                        y,
                        x,
                    )),
                moveto_dest matches Some((y, x)) ==> {
                    &&& in_grid(y as int, x as int)
                    &&& comes_after(y as int, x as int, i as int, j as int)
                    &&& cell_visible(kd, pressed, y as int, x as int)
                    &&& forall|y2: int, x2: int|
                        in_grid(y2, x2) && comes_after(y2, x2, i as int, j as int) && comes_after(
                            y as int,
                            x as int,
                            y2,
                            x2,
                        ) ==> !cell_visible(kd, pressed, y2, x2)
                },
            decreases GRID_WIDTH - j,
        {
            let visible = is_cell_visible(keys, pressed_keys, i, j);
            if visible {
                if pressed_keys.len() == 2 {
                    moveto_dest = Some((i, j));
                }
                assert(cell_visible(kd, pressed, i as int, j as int));
                assert(in_grid(i as int, j as int) && comes_after(i as int, j as int, i as int, j + 1));
                let ks = keyseq_associated_to_cell(keys, i, j);
                assert(j * cell_width <= (GRID_WIDTH - 1) * cell_width) by (nonlinear_arith)
                    requires
                        0 <= j < GRID_WIDTH,
                        0 <= cell_width,
                ;
                assert(i * cell_height <= (GRID_HEIGHT - 1) * cell_height) by (nonlinear_arith)
                    requires
                        0 <= i < GRID_HEIGHT,
                        0 <= cell_height,
                ;
                assert(0 <= j * cell_width) by (nonlinear_arith)
                    requires
                        0 <= j,
                        0 <= cell_width,
                ;
                assert(0 <= i * cell_height) by (nonlinear_arith)
                    requires
                        0 <= i,
                        0 <= cell_height,
                ;
                let y = i * cell_height + PADDING_H;
                labels.push(
                    Label {
                        text: ks[0],
                        x: j * cell_width + PADDING_W + font_size / 4,
                        y,
                        font_size,
                    },
                );
                labels.push(
                    Label {
                        text: ks[1],
                        x: j * cell_width + PADDING_W + 3 * font_size / 4,
                        y,
                        font_size,
                    },
                );
                assert(labels@ =~= row_start + row_labels(
                    kd,
                    pressed,
                    cell_width,
                    font_size,
                    cell_height,
                    i as int,
                    j + 1,
                ));
            } else {
                if pressed_keys.len() == 2 && moveto_dest.is_none() {
                    assert forall|y: int, x: int|
                        in_grid(y, x) && comes_after(y, x, i as int, j + 1) implies !cell_visible(
                        kd,
                        pressed,
                        y,
                        x,
                    ) by {
                        if y == i && x == j {
                        } else {
                            assert(comes_after(y, x, i as int, j as int));
                        }
                    }
                }
                assert(labels@ =~= row_start + row_labels(
                    kd,
                    pressed,
                    cell_width,
                    font_size,
                    cell_height,
                    i as int,
                    j + 1,
                ));
            }
            j += 1;
        }
        assert(labels@ =~= grid_labels(kd, pressed, cell_width, font_size, cell_height, i + 1));
        i += 1;
    }
    proof {
        if let Some((y, x)) = moveto_dest {
            assert(is_last_visible(kd, pressed, y as int, x as int));
            lemma_selected_cell_is(kd, pressed, y as int, x as int);
        } else if pressed.len() == 2 {
            assert forall|y: int, x: int| !is_last_visible(kd, pressed, y, x) by {
                if in_grid(y, x) {
                    assert(!cell_visible(kd, pressed, y, x));
                }
            }
        }
    }
    (labels, moveto_dest)
}

/// The line across row `i` of the grid.
pub open spec fn row_line(cell_height: i32, mon_w: i32, i: int) -> Segment {
    Segment { x1: 0, y1: (cell_height * i) as i32, x2: mon_w, y2: (cell_height * i) as i32 }
}

/// The line down column `j` of the grid.
pub open spec fn column_line(cell_width: i32, mon_h: i32, j: int) -> Segment {
    Segment { x1: (cell_width * j) as i32, y1: 0, x2: (cell_width * j) as i32, y2: mon_h }
}

/// The grid's lines: one across each row, then one down each column.
pub open spec fn grid_line_segments(
    cell_height: i32,
    mon_w: i32,
    cell_width: i32,
    mon_h: i32,
) -> Seq<Segment> {
    Seq::new(GRID_HEIGHT as nat, |i: int| row_line(cell_height, mon_w, i)) + Seq::new(
        GRID_WIDTH as nat,
        |j: int| column_line(cell_width, mon_h, j),
    )
}

/// The lines that split the screen into the selection grid.
pub fn grid_lines(cell_height: i32, mon_w: i32, cell_width: i32, mon_h: i32) -> (lines: Vec<
    Segment,
>)
    requires
        fits_i32(cell_height * (GRID_HEIGHT - 1)),
        fits_i32(cell_width * (GRID_WIDTH - 1)),
    ensures
        lines@ == grid_line_segments(cell_height, mon_w, cell_width, mon_h),
{
    let mut lines: Vec<Segment> = Vec::new();
    let mut i: i32 = 0;
    while i < GRID_HEIGHT
        invariant
            0 <= i <= GRID_HEIGHT,
            fits_i32(cell_height * (GRID_HEIGHT - 1)),
            lines@ == Seq::new(i as nat, |k: int| row_line(cell_height, mon_w, k)),
        decreases GRID_HEIGHT - i,
    {
        assert(fits_i32(cell_height * i)) by (nonlinear_arith)
            requires
                0 <= i < GRID_HEIGHT,
                fits_i32(cell_height * (GRID_HEIGHT - 1)),
        ;
        let y = cell_height * i;
        lines.push(Segment { x1: 0, y1: y, x2: mon_w, y2: y });
        assert(lines@ =~= Seq::new((i + 1) as nat, |k: int| row_line(cell_height, mon_w, k)));
        i += 1;
    }
    let ghost rows = lines@;
    let mut j: i32 = 0;
    while j < GRID_WIDTH
        invariant
            0 <= j <= GRID_WIDTH,
            fits_i32(cell_width * (GRID_WIDTH - 1)),
            rows == Seq::new(GRID_HEIGHT as nat, |k: int| row_line(cell_height, mon_w, k)),
            lines@ == rows + Seq::new(j as nat, |k: int| column_line(cell_width, mon_h, k)),
        decreases GRID_WIDTH - j,
    {
        assert(fits_i32(cell_width * j)) by (nonlinear_arith)
            requires
                0 <= j < GRID_WIDTH,
                fits_i32(cell_width * (GRID_WIDTH - 1)),
        ;
        let x = cell_width * j;
        lines.push(Segment { x1: x, y1: 0, x2: x, y2: mon_h });
        assert(lines@ =~= rows + Seq::new((j + 1) as nat, |k: int| column_line(cell_width, mon_h, k)));
        j += 1;
    }
    lines
}

/// Three to the power `n`.
pub open spec fn pow3(n: nat) -> int
    decreases n,
{
    if n == 0 {
        1
    } else {
        3 * pow3((n - 1) as nat)
    }
}

/// Powers of three grow with the exponent and stay positive.
pub proof fn lemma_pow3_monotonic(m: nat, n: nat)
    requires
        m <= n,
    ensures
        1 <= pow3(m) <= pow3(n),
    decreases n,
{
    if n > m {
        lemma_pow3_monotonic(m, (n - 1) as nat);
    } else if m > 0 {
        lemma_pow3_monotonic((m - 1) as nat, (m - 1) as nat);
    }
}

/// The largest power of three that an `i32` holds is the nineteenth.
pub proof fn lemma_pow3_fits(n: nat)
    requires
        n <= 19,
    ensures
        1 <= pow3(n) <= 1162261467,
        n >= 1 ==> pow3(n) == 3 * pow3((n - 1) as nat),
{
    lemma_pow3_monotonic(n, 19);
    assert(pow3(19) == 1162261467) by {
        reveal_with_fuel(pow3, 20);
    }
}

/// `3^n` for an exponent whose power fits in an `i32`.
pub fn pow3_i32(n: u32) -> (p: i32)
    requires
        n <= 19,
    ensures
        p == pow3(n as nat),
{
    let mut p: i32 = 1;
    let mut k: u32 = 0;
    while k < n
        invariant
            k <= n <= 19,
            p == pow3(k as nat),
        decreases n - k,
    {
        proof {
            lemma_pow3_fits((k + 1) as nat);
        }
        p = p * 3;
        k += 1;
    }
    p
}

/// The pair of lines at offset `delta` inside the cell being refined: one
/// down, then one across.
pub open spec fn refine_line_pair(
    cell_height: i32,
    base_y: i32,
    cell_width: i32,
    base_x: i32,
    recursion_level: int,
    delta: int,
) -> Seq<Segment> {
    let s = pow3(recursion_level as nat);
    let p = pow3((recursion_level - 1) as nat);
    let bx = (base_x + (cell_width as int) / s * delta) as i32;
    let by = (base_y + (cell_height as int) / s * delta) as i32;
    seq![
        Segment { x1: bx, y1: base_y, x2: bx, y2: (base_y + (cell_height as int) / p) as i32 },
        Segment { x1: base_x, y1: by, x2: (base_x + (cell_width as int) / p) as i32, y2: by },
    ]
}

/// The lines that split the cell at `(base_x, base_y)` into three by three parts.
pub open spec fn refine_lines(
    cell_height: i32,
    base_y: i32,
    cell_width: i32,
    base_x: i32,
    recursion_level: int,
) -> Seq<Segment> {
    refine_line_pair(cell_height, base_y, cell_width, base_x, recursion_level, 0)
        + refine_line_pair(cell_height, base_y, cell_width, base_x, recursion_level, 1)
        + refine_line_pair(cell_height, base_y, cell_width, base_x, recursion_level, 2)
        + refine_line_pair(cell_height, base_y, cell_width, base_x, recursion_level, 3)
}

/// The lines of a refinement can be computed without leaving `i32`.
/// Sizes are those of a `Screen`, never negative.
pub open spec fn refine_lines_fit(
    cell_height: i32,
    base_y: i32,
    cell_width: i32,
    base_x: i32,
    recursion_level: int,
) -> bool {
    let s = pow3(recursion_level as nat);
    let p = pow3((recursion_level - 1) as nat);
    &&& 1 <= recursion_level <= 19
    &&& 0 <= cell_width
    &&& 0 <= cell_height
    &&& fits_i32(base_x + (cell_width as int) / s * 3)
    &&& fits_i32(base_y + (cell_height as int) / s * 3)
    &&& fits_i32(base_x + (cell_width as int) / p)
    &&& fits_i32(base_y + (cell_height as int) / p)
}

/// The lines that split the cell whose top-left corner is `(base_x, base_y)`
/// into three by three parts, at depth `recursion_level`.
pub fn smaller_grid_lines(
    cell_height: i32,
    base_y: i32,
    cell_width: i32,
    base_x: i32,
    recursion_level: i32,
) -> (lines: Vec<Segment>)
    requires
        refine_lines_fit(cell_height, base_y, cell_width, base_x, recursion_level as int),
    ensures
        lines@ == refine_lines(cell_height, base_y, cell_width, base_x, recursion_level as int),
{
    proof {
        lemma_pow3_fits(recursion_level as nat);
        lemma_pow3_fits((recursion_level - 1) as nat);
        lemma_pow3_monotonic(1, recursion_level as nat);
        assert(pow3(1) == 3) by {
            reveal_with_fuel(pow3, 2);
        }
    }
    let s = pow3_i32(recursion_level as u32);
    let p = pow3_i32(recursion_level as u32 - 1);
    let mut lines: Vec<Segment> = Vec::new();
    let mut delta: i32 = 0;
    while delta <= 3
        invariant
            0 <= delta <= 4,
            refine_lines_fit(cell_height, base_y, cell_width, base_x, recursion_level as int),
            s == pow3(recursion_level as nat),
            p == pow3((recursion_level - 1) as nat),
            3 <= s,
            1 <= p,
            lines@ == if delta == 0 {
                Seq::empty()
            } else if delta == 1 {
                refine_line_pair(cell_height, base_y, cell_width, base_x, recursion_level as int, 0)
            } else if delta == 2 {
                refine_line_pair(cell_height, base_y, cell_width, base_x, recursion_level as int, 0)
                    + refine_line_pair(cell_height, base_y, cell_width, base_x, recursion_level as int, 1)
            } else if delta == 3 {
                refine_line_pair(cell_height, base_y, cell_width, base_x, recursion_level as int, 0)
                    + refine_line_pair(cell_height, base_y, cell_width, base_x, recursion_level as int, 1)
                    + refine_line_pair(cell_height, base_y, cell_width, base_x, recursion_level as int, 2)
            } else {
                refine_lines(cell_height, base_y, cell_width, base_x, recursion_level as int)
            },
        decreases 4 - delta,
    {
        let ghost before = lines@;
        let qx = cell_width / s;
        let qy = cell_height / s;
        assert(qx * 3 <= cell_width) by (nonlinear_arith)
            requires
                qx == cell_width / s,
                s >= 3,
                cell_width >= 0,
        ;
        assert(qy * 3 <= cell_height) by (nonlinear_arith)
            requires
                qy == cell_height / s,
                s >= 3,
                cell_height >= 0,
        ;
        assert(0 <= qx * delta <= qx * 3) by (nonlinear_arith)
            requires
                0 <= qx,
                0 <= delta <= 3,
        ;
        assert(0 <= qy * delta <= qy * 3) by (nonlinear_arith)
            requires
                0 <= qy,
                0 <= delta <= 3,
        ;
        let bx = base_x + qx * delta;
        let by = base_y + qy * delta;
        lines.push(Segment { x1: bx, y1: base_y, x2: bx, y2: base_y + cell_height / p });
        lines.push(Segment { x1: base_x, y1: by, x2: base_x + cell_width / p, y2: by });
        assert(lines@ =~= before + refine_line_pair(
            cell_height,
            base_y,
            cell_width,
            base_x,
            recursion_level as int,
            delta as int,
        ));
        delta += 1;
    }
    lines
}

/// The eight parts around the centre of a cell split three by three.
pub open spec fn is_subcell(i: int, j: int) -> bool {
    0 <= i < 3 && 0 <= j < 3 && !(i == 1 && j == 1)
}

/// The key that picks part `(i, j)`: row `i`, column `j + 5` of the layout.
pub open spec fn subcell_key<const W: usize>(keys: KeyDistribution<W>, i: int, j: int) -> char {
    or_unknown(keys.key_at(i, j + 5))
}

/// Horizontal position of the letter of part column `j`.
pub open spec fn subcell_x(cell_width: i32, base_x: i32, s: int, j: int) -> int {
    base_x + (j * cell_width) / s + ((cell_width as int) / s) / 2
}

/// Vertical position of the letter of part row `i`.
pub open spec fn subcell_y(cell_height: i32, base_y: i32, s: int, i: int) -> int {
    base_y + (i * cell_height) / s - ((cell_height as int) / s) / 2
}

/// Font size of the letters at depth `recursion_level`.
pub open spec fn subcell_font(font_size: i32, recursion_level: int) -> int {
    (font_size as int) / (2 * recursion_level)
}

/// The letter drawn for part `(i, j)`.
pub open spec fn subcell_label<const W: usize>(
    keys: KeyDistribution<W>,
    cell_width: i32,
    cell_height: i32,
    base_y: i32,
    base_x: i32,
    font_size: i32,
    recursion_level: int,
    i: int,
    j: int,
) -> Label {
    let s = pow3(recursion_level as nat);
    Label {
        text: subcell_key(keys, i, j),
        x: subcell_x(cell_width, base_x, s, j) as i32,
        y: subcell_y(cell_height, base_y, s, i) as i32,
        font_size: subcell_font(font_size, recursion_level) as i32,
    }
}

/// Where the pointer goes when part `(i, j)` is picked, as `(y, x)`.
pub open spec fn subcell_target(
    cell_width: i32,
    cell_height: i32,
    base_y: i32,
    base_x: i32,
    font_size: i32,
    recursion_level: int,
    i: int,
    j: int,
) -> (i32, i32) {
    let s = pow3(recursion_level as nat);
    let f = subcell_font(font_size, recursion_level);
    (
        (subcell_y(cell_height, base_y, s, i) + f / (2 * recursion_level)) as i32,
        subcell_x(cell_width, base_x, s, j) as i32,
    )
}

/// The key just pressed picks part `(i, j)`.
pub open spec fn subcell_chosen<const W: usize>(
    keys: KeyDistribution<W>,
    last_pressed: Option<char>,
    i: int,
    j: int,
) -> bool {
    last_pressed == Some(subcell_key(keys, i, j))
}

/// Part `(i, j)` is picked by the key just pressed, and no part after it is.
pub open spec fn is_last_chosen<const W: usize>(
    keys: KeyDistribution<W>,
    last_pressed: Option<char>,
    i: int,
    j: int,
) -> bool {
    &&& is_subcell(i, j)
    &&& subcell_chosen(keys, last_pressed, i, j)
    &&& forall|i2: int, j2: int|
        is_subcell(i2, j2) && comes_after(i, j, i2, j2) ==> !subcell_chosen(
            keys,
            last_pressed,
            i2,
            j2,
        )
}

/// The part that the key just pressed picks, if any.
pub open spec fn chosen_subcell<const W: usize>(
    keys: KeyDistribution<W>,
    last_pressed: Option<char>,
) -> Option<(int, int)> {
    if exists|i: int, j: int| #[trigger] is_last_chosen(keys, last_pressed, i, j) {
        Some(choose|i: int, j: int| #[trigger] is_last_chosen(keys, last_pressed, i, j))
    } else {
        None
    }
}

/// The picked part is the one part that is last picked.
pub proof fn lemma_chosen_subcell_is<const W: usize>(
    keys: KeyDistribution<W>,
    last_pressed: Option<char>,
    i: int,
    j: int,
)
    requires
        is_last_chosen(keys, last_pressed, i, j),
    ensures
        chosen_subcell(keys, last_pressed) == Some((i, j)),
{
    let (ci, cj) = choose|ci: int, cj: int| #[trigger] is_last_chosen(keys, last_pressed, ci, cj);
    if comes_after(i, j, ci, cj) {
        assert(!subcell_chosen(keys, last_pressed, ci, cj));
    } else if comes_after(ci, cj, i, j) {
        assert(!subcell_chosen(keys, last_pressed, i, j));
    }
}

/// Letters of the parts among the first `c` columns of part row `i`.
pub open spec fn subcell_row_labels<const W: usize>(
    keys: KeyDistribution<W>,
    cell_width: i32,
    cell_height: i32,
    base_y: i32,
    base_x: i32,
    font_size: i32,
    recursion_level: int,
    i: int,
    c: int,
) -> Seq<Label>
    decreases c,
{
    if c <= 0 {
        Seq::empty()
    } else {
        subcell_row_labels(
            keys,
            cell_width,
            cell_height,
            base_y,
            base_x,
            font_size,
            recursion_level,
            i,
            c - 1,
        ) + if is_subcell(i, c - 1) {
            seq![
                subcell_label(
                    keys,
                    cell_width,
                    cell_height,
                    base_y,
                    base_x,
                    font_size,
                    recursion_level,
                    i,
                    c - 1,
                ),
            ]
        } else {
            Seq::empty()
        }
    }
}

/// Letters of the parts in the first `r` part rows, in reading order.
pub open spec fn subcell_labels<const W: usize>(
    keys: KeyDistribution<W>,
    cell_width: i32,
    cell_height: i32,
    base_y: i32,
    base_x: i32,
    font_size: i32,
    recursion_level: int,
    r: int,
) -> Seq<Label>
    decreases r,
{
    if r <= 0 {
        Seq::empty()
    } else {
        subcell_labels(
            keys,
            cell_width,
            cell_height,
            base_y,
            base_x,
            font_size,
            recursion_level,
            r - 1,
        ) + subcell_row_labels(
            keys,
            cell_width,
            cell_height,
            base_y,
            base_x,
            font_size,
            recursion_level,
            r - 1,
            3,
        )
    }
}

/// The letters of a refinement can be placed without leaving `i32`.
/// Sizes are those of a `Screen`, never negative.
pub open spec fn refine_letters_fit<const W: usize>(
    keys: KeyDistribution<W>,
    last_pressed: Option<char>,
    cell_width: i32,
    cell_height: i32,
    base_y: i32,
    base_x: i32,
    font_size: i32,
    recursion_level: int,
) -> bool {
    let s = pow3(recursion_level as nat);
    let f = subcell_font(font_size, recursion_level);
    &&& 1 <= recursion_level <= 19
    &&& 0 <= cell_width
    &&& 0 <= cell_height
    &&& 0 <= font_size
    &&& 2 * cell_width <= i32::MAX
    &&& 2 * cell_height <= i32::MAX
    &&& base_x + (2 * cell_width) / s + ((cell_width as int) / s) / 2 <= i32::MAX
    &&& base_y + (2 * cell_height) / s <= i32::MAX
    &&& i32::MIN <= base_y - ((cell_height as int) / s) / 2
    &&& forall|i: int, j: int|
        is_subcell(i, j) && #[trigger] subcell_chosen(keys, last_pressed, i, j) ==> subcell_y(
            cell_height,
            base_y,
            s,
            i,
        ) + f / (2 * recursion_level) <= i32::MAX
}

/// The letters of the eight parts around the centre of the cell at
/// `(base_x, base_y)`, and, when the key just pressed names one of them, the
/// last such part in reading order with the point the pointer goes to.
pub fn smaller_grid_letters<const W: usize>(
    keys: &KeyDistribution<W>,
    cell_width: i32,
    cell_height: i32,
    base_y: i32,
    base_x: i32,
    font_size: i32,
    last_pressed: Option<char>,
    recursion_level: i32,
) -> (res: (Vec<Label>, Option<((i32, i32), (i32, i32))>))
    requires
        refine_letters_fit(
            *keys,
            last_pressed,
            cell_width,
            cell_height,
            base_y,
            base_x,
            font_size,
            recursion_level as int,
        ),
    ensures
        res.0@ == subcell_labels(
            *keys,
            cell_width,
            cell_height,
            base_y,
            base_x,
            font_size,
            recursion_level as int,
            3,
        ),
        res.1 is None <==> forall|i: int, j: int|
            is_subcell(i, j) ==> !subcell_chosen(*keys, last_pressed, i, j),
        res.1 matches Some((_t, (i, j))) ==> chosen_subcell(*keys, last_pressed) == Some(
            (i as int, j as int),
        ),
        res.1 is None ==> chosen_subcell(*keys, last_pressed) is None,
        res.1 matches Some((target, (i, j))) ==> {
            &&& is_subcell(i as int, j as int)
            &&& subcell_chosen(*keys, last_pressed, i as int, j as int)
            &&& target == subcell_target(
                cell_width,
                cell_height,
                base_y,
                base_x,
                font_size,
                recursion_level as int,
                i as int,
                j as int,
            )
            &&& forall|i2: int, j2: int|
                is_subcell(i2, j2) && comes_after(i as int, j as int, i2, j2) ==> !subcell_chosen(
                    *keys,
                    last_pressed,
                    i2,
                    j2,
                )
        },
{
    proof {
        lemma_pow3_fits(recursion_level as nat);
        lemma_pow3_monotonic(1, recursion_level as nat);
        assert(pow3(1) == 3) by {
            reveal_with_fuel(pow3, 2);
        }
    }
    let ghost kd = *keys;
    let ghost rl = recursion_level as int;
    let s = pow3_i32(recursion_level as u32);
    let small_font = font_size / (2 * recursion_level);
    let qx = cell_width / s;
    let qy = cell_height / s;
    let mut labels: Vec<Label> = Vec::new();
    let mut ret: Option<((i32, i32), (i32, i32))> = None;
    let mut i: i32 = 0;
    while i < 3
        invariant
            0 <= i <= 3,
            kd == *keys,
            rl == recursion_level,
            refine_letters_fit(kd, last_pressed, cell_width, cell_height, base_y, base_x, font_size, rl),
            s == pow3(rl as nat),
            3 <= s,
            small_font == subcell_font(font_size, rl),
            qx == (cell_width as int) / (s as int),
            qy == (cell_height as int) / (s as int),
            labels@ == subcell_labels(
                kd,
                cell_width,
                cell_height,
                base_y,
                base_x,
                font_size,
                rl,
                i as int,
            ),
            ret is None <==> forall|i2: int, j2: int|
                is_subcell(i2, j2) && i2 < i ==> !subcell_chosen(kd, last_pressed, i2, j2),
            ret matches Some((target, (y, x))) ==> {
                &&& is_subcell(y as int, x as int)
                &&& y < i
                &&& subcell_chosen(kd, last_pressed, y as int, x as int)
                &&& target == subcell_target(
                    cell_width,
                    cell_height,
                    base_y,
                    base_x,
                    font_size,
                    rl,
                    y as int,
                    x as int,
                )
                &&& forall|i2: int, j2: int|
                    is_subcell(i2, j2) && i2 < i && comes_after(y as int, x as int, i2, j2)
                        ==> !subcell_chosen(kd, last_pressed, i2, j2)
            },
        decreases 3 - i,
    {
        let ghost row_start = labels@;
        let mut j: i32 = 0;
        while j < 3
            invariant
                0 <= i < 3,
                0 <= j <= 3,
                kd == *keys,
                rl == recursion_level,
                refine_letters_fit(kd, last_pressed, cell_width, cell_height, base_y, base_x, font_size, rl),
                s == pow3(rl as nat),
                3 <= s,
                small_font == subcell_font(font_size, rl),
                qx == (cell_width as int) / (s as int),
                qy == (cell_height as int) / (s as int),
                row_start == subcell_labels(
                    kd,
                    cell_width,
                    cell_height,
                    base_y,
                    base_x,
                    font_size,
                    rl,
                    i as int,
                ),
                labels@ == row_start + subcell_row_labels(
                    kd,
                    cell_width,
                    cell_height,
                    base_y,
                    base_x,
                    font_size,
                    rl,
                    i as int,
                    j as int,
                ),
                ret is None <==> forall|i2: int, j2: int|
                    is_subcell(i2, j2) && comes_after(i2, j2, i as int, j as int)
                        ==> !subcell_chosen(kd, last_pressed, i2, j2),
                ret matches Some((target, (y, x))) ==> {
                    &&& is_subcell(y as int, x as int)
                    &&& comes_after(y as int, x as int, i as int, j as int)
                    &&& subcell_chosen(kd, last_pressed, y as int, x as int)
                    &&& target == subcell_target(
                        cell_width,
                        cell_height,
                        base_y,
                        base_x,
                        font_size,
                        rl,
                        y as int,
                        x as int,
                    )
                    &&& forall|i2: int, j2: int|
                        is_subcell(i2, j2) && comes_after(i2, j2, i as int, j as int)
                            && comes_after(y as int, x as int, i2, j2) ==> !subcell_chosen(
                            kd,
                            last_pressed,
                            i2,
                            j2,
                        )
                },
            decreases 3 - j,
        {
            let ghost before = labels@;
            let ghost ret_before = ret;
            if !(i == 1 && j == 1) {
                assert((j * cell_width) / (s as int) <= (2 * cell_width) / (s as int))
                    by (nonlinear_arith)
                    requires
                        0 <= j <= 2,
                        0 <= cell_width,
                        3 <= s,
                ;
                assert(0 <= (j * cell_width) / (s as int)) by (nonlinear_arith)
                    requires
                        0 <= j <= 2,
                        0 <= cell_width,
                        3 <= s,
                ;
                assert((i * cell_height) / (s as int) <= (2 * cell_height) / (s as int))
                    by (nonlinear_arith)
                    requires
                        0 <= i <= 2,
                        0 <= cell_height,
                        3 <= s,
                ;
                assert(0 <= (i * cell_height) / (s as int)) by (nonlinear_arith)
                    requires
                        0 <= i <= 2,
                        0 <= cell_height,
                        3 <= s,
                ;
                let text_x = base_x + j * cell_width / s + qx / 2;
                let text_y = base_y + i * cell_height / s - qy / 2;
                let key_text = match keys.get(i, j + 5) {
                    Some(c) => c,
                    None => '?',
                };
                labels.push(Label { text: key_text, x: text_x, y: text_y, font_size: small_font });
                let chosen = match last_pressed {
                    Some(l) => l == key_text,
                    None => false,
                };
                if chosen {
                    assert(subcell_chosen(kd, last_pressed, i as int, j as int));
                    ret = Some(((text_y + small_font / (2 * recursion_level), text_x), (i, j)));
                }
                assert(labels@ =~= row_start + subcell_row_labels(
                    kd,
                    cell_width,
                    cell_height,
                    base_y,
                    base_x,
                    font_size,
                    rl,
                    i as int,
                    j + 1,
                ));
                if !chosen && ret.is_none() {
                    assert forall|i2: int, j2: int|
                        is_subcell(i2, j2) && comes_after(i2, j2, i as int, j + 1)
                            implies !subcell_chosen(kd, last_pressed, i2, j2) by {
                        if i2 == i && j2 == j {
                        } else {
                            assert(comes_after(i2, j2, i as int, j as int));
                        }
                    }
                }
                if chosen {
                    assert(is_subcell(i as int, j as int) && comes_after(
                        i as int,
                        j as int,
                        i as int,
                        j + 1,
                    ) && subcell_chosen(kd, last_pressed, i as int, j as int));
                }
            } else {
                assert(labels@ =~= row_start + subcell_row_labels(
                    kd,
                    cell_width,
                    cell_height,
                    base_y,
                    base_x,
                    font_size,
                    rl,
                    i as int,
                    j + 1,
                ));
                if ret.is_none() {
                    assert forall|i2: int, j2: int|
                        is_subcell(i2, j2) && comes_after(i2, j2, i as int, j + 1)
                            implies !subcell_chosen(kd, last_pressed, i2, j2) by {
                        assert(comes_after(i2, j2, i as int, j as int));
                    }
                }
            }
            j += 1;
        }
        assert(labels@ =~= subcell_labels(
            kd,
            cell_width,
            cell_height,
            base_y,
            base_x,
            font_size,
            rl,
            i + 1,
        ));
        i += 1;
    }
    proof {
        if let Some((_t, (y, x))) = ret {
            assert(is_last_chosen(kd, last_pressed, y as int, x as int));
            lemma_chosen_subcell_is(kd, last_pressed, y as int, x as int);
        } else {
            assert forall|y: int, x: int| !is_last_chosen(kd, last_pressed, y, x) by {
                if is_subcell(y, x) {
                    assert(!subcell_chosen(kd, last_pressed, y, x));
                }
            }
        }
    }
    (labels, ret)
}

/// With nothing typed every cell is shown, and typing one more key never
/// shows a cell that was hidden.
pub proof fn lemma_typing_only_hides<const W: usize>(
    keys: KeyDistribution<W>,
    pressed: Seq<char>,
    c: char,
    i: int,
    j: int,
)
    ensures
        cell_visible(keys, Seq::empty(), i, j),
        cell_visible(keys, pressed.push(c), i, j) ==> cell_visible(keys, pressed, i, j),
{
    let more = pressed.push(c);
    if cell_visible(keys, more, i, j) && pressed.len() > 0 {
        let ks = cell_keyseq(keys, i, j);
        assert forall|k: int| 0 <= k < pressed.len() implies same_ignoring_case(
            pressed[k],
            ks[k],
        ) by {
            assert(more[k] == pressed[k]);
        }
    }
}

proof fn lemma_multiple_fits(c: int, i: int, n: int)
    requires
        0 <= i <= n,
        fits_i32(c * n),
    ensures
        fits_i32(c * i),
        c * (i + 1) == c * i + c,
{
    assert(fits_i32(c * i)) by (nonlinear_arith)
        requires
            0 <= i <= n,
            fits_i32(c * n),
    ;
    assert(c * (i + 1) == c * i + c) by (nonlinear_arith);
}

/// The grid has a line across the top of each of its 13 rows, from the left
/// edge to `mon_w`, starting at the top and one cell height apart; then a line
/// down the left of each of its 10 columns, from the top to `mon_h`, starting
/// at the left and one cell width apart.
pub proof fn lemma_grid_lines_evenly_spaced(cell_height: i32, mon_w: i32, cell_width: i32, mon_h: i32)
    requires
        fits_i32(cell_height * (GRID_HEIGHT - 1)),
        fits_i32(cell_width * (GRID_WIDTH - 1)),
    ensures
        ({
            let l = grid_line_segments(cell_height, mon_w, cell_width, mon_h);
            &&& l.len() == GRID_HEIGHT + GRID_WIDTH
            &&& l[0].y1 == 0
            &&& forall|i: int|
                0 <= i < GRID_HEIGHT ==> (#[trigger] l[i]).x1 == 0 && l[i].x2 == mon_w && l[i].y1
                    == l[i].y2
            &&& forall|i: int|
                0 <= i < GRID_HEIGHT - 1 ==> #[trigger] l[i + 1].y1 == l[i].y1 + cell_height
            &&& l[GRID_HEIGHT as int].x1 == 0
            &&& forall|j: int|
                GRID_HEIGHT <= j < GRID_HEIGHT + GRID_WIDTH ==> (#[trigger] l[j]).y1 == 0 && l[j].y2
                    == mon_h && l[j].x1 == l[j].x2
            &&& forall|j: int|
                GRID_HEIGHT <= j < GRID_HEIGHT + GRID_WIDTH - 1 ==> #[trigger] l[j + 1].x1 == l[j].x1
                    + cell_width
        }),
{
    let l = grid_line_segments(cell_height, mon_w, cell_width, mon_h);
    assert forall|i: int| 0 <= i < GRID_HEIGHT - 1 implies #[trigger] l[i + 1].y1 == l[i].y1
        + cell_height by {
        lemma_multiple_fits(cell_height as int, i, 12);
        lemma_multiple_fits(cell_height as int, i + 1, 12);
    }
    assert forall|j: int| GRID_HEIGHT <= j < GRID_HEIGHT + GRID_WIDTH - 1 implies #[trigger] l[j
        + 1].x1 == l[j].x1 + cell_width by {
        lemma_multiple_fits(cell_width as int, j - 13, 9);
        lemma_multiple_fits(cell_width as int, j - 12, 9);
    }
    assert(cell_height * 0 == 0);
    assert(cell_width * 0 == 0);
}

} // verus!
