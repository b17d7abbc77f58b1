//! Monochrome framebuffer with XOR sprite drawing, toroidal wrap-around and
//! collision detection.
use vstd::prelude::*;

verus! {

/// Number of pixel rows.
pub const VIDEO_HEIGHT: usize = 32;

/// Number of pixel columns.
pub const VIDEO_WIDTH: usize = 64;

/// Number of cells in the framebuffer.
pub const VIDEO_SIZE: usize = 2048;

/// Abstract contents of a framebuffer: its cells in row-major order and the
/// dirty flag.
pub ghost struct DisplayView {
    pub video: Seq<u32>,
    pub dirty: bool,
}

/// A well-formed grid: the right number of cells, each 0 or 1.
pub open spec fn valid_video(v: Seq<u32>) -> bool {
    &&& v.len() == VIDEO_SIZE
    &&& forall|c: int| 0 <= c < v.len() ==> #[trigger] v[c] <= 1
}

/// The cell hit by column `col` of sprite row `row` drawn at `(x, y)`, both
/// axes wrapping around.
pub open spec fn pixel_index(x: int, y: int, row: int, col: int) -> int {
    ((y % (VIDEO_HEIGHT as int) + row) % (VIDEO_HEIGHT as int)) * (VIDEO_WIDTH as int) + (x
        % (VIDEO_WIDTH as int) + col) % (VIDEO_WIDTH as int)
}

/// Whether column `col` (0 = leftmost, the most significant bit) of a sprite
/// byte is set.
pub open spec fn sprite_bit(byte: u8, col: int) -> bool {
    byte & (0x80u8 >> (col as u8)) != 0
}

/// Flips cell `c`.
pub open spec fn toggle(v: Seq<u32>, c: int) -> Seq<u32> {
    v.update(c, v[c] ^ 1u32)
}

/// The grid after the first `n` columns of sprite row `row` are XORed in.
pub open spec fn draw_row(v: Seq<u32>, x: int, y: int, row: int, byte: u8, n: nat) -> Seq<u32>
    decreases n,
{
    if n == 0 {
        v
    } else {
        let w = draw_row(v, x, y, row, byte, (n - 1) as nat);
        if sprite_bit(byte, n - 1) {
            toggle(w, pixel_index(x, y, row, n - 1))
        } else {
            w
        }
    }
}

/// Whether drawing the first `n` columns of sprite row `row` turns off a lit
/// cell.
pub open spec fn row_collides(v: Seq<u32>, x: int, y: int, row: int, byte: u8, n: nat) -> bool
    decreases n,
{
    if n == 0 {
        false
    } else {
        row_collides(v, x, y, row, byte, (n - 1) as nat) || (sprite_bit(byte, n - 1) && draw_row(
            v,
            x,
            y,
            row,
            byte,
            (n - 1) as nat,
        )[pixel_index(x, y, row, n - 1)] == 1)
    }
}

/// The grid after the first `m` rows of the sprite are XORed in.
pub open spec fn draw_rows(v: Seq<u32>, x: int, y: int, sprite: Seq<u8>, m: nat) -> Seq<u32>
    decreases m,
{
    if m == 0 {
        v
    } else {
        draw_row(draw_rows(v, x, y, sprite, (m - 1) as nat), x, y, m - 1, sprite[m - 1], 8)
    }
}

/// Whether drawing the first `m` rows of the sprite turns off a lit cell.
pub open spec fn rows_collide(v: Seq<u32>, x: int, y: int, sprite: Seq<u8>, m: nat) -> bool
    decreases m,
{
    if m == 0 {
        false
    } else {
        rows_collide(v, x, y, sprite, (m - 1) as nat) || row_collides(
            draw_rows(v, x, y, sprite, (m - 1) as nat),
            x,
            y,
            m - 1,
            sprite[m - 1],
            8,
        )
    }
}

/// The grid after a whole sprite is drawn at `(x, y)`.
pub open spec fn drawn(v: Seq<u32>, x: int, y: int, sprite: Seq<u8>) -> Seq<u32> {
    draw_rows(v, x, y, sprite, sprite.len())
}

/// The collision flag of drawing a whole sprite at `(x, y)`.
pub open spec fn collision_flag(v: Seq<u32>, x: int, y: int, sprite: Seq<u8>) -> u8 {
    if rows_collide(v, x, y, sprite, sprite.len()) {
        1
    } else {
        0
    }
}

/// The grid with every cell off.
pub open spec fn blank_video() -> Seq<u32> {
    Seq::new(VIDEO_SIZE as nat, |c: int| 0u32)
}

pub proof fn lemma_pixel_index_in_range(x: int, y: int, row: int, col: int)
    requires
        x >= 0,
        y >= 0,
        row >= 0,
        col >= 0,
    ensures
        0 <= pixel_index(x, y, row, col) < VIDEO_SIZE,
{
    let r = (y % 32 + row) % 32;
    let c = (x % 64 + col) % 64;
    assert(0 <= r < 32 && 0 <= c < 64);
    assert(0 <= r * 64 + c < 2048) by (nonlinear_arith)
        requires
            0 <= r < 32,
            0 <= c < 64,
    ;
}

pub proof fn lemma_flip_is_bit(a: u32)
    requires
        a <= 1,
    ensures
        a ^ 1u32 <= 1,
        a ^ 1u32 == 1 - a,
{
    assert(a <= 1u32 ==> (a ^ 1u32 <= 1u32 && (a ^ 1u32) == (1u32 - a) as u32)) by (bit_vector);
}

proof fn lemma_draw_row_valid(v: Seq<u32>, x: int, y: int, row: int, byte: u8, n: nat)
    requires
        valid_video(v),
        x >= 0,
        y >= 0,
        row >= 0,
    ensures
        valid_video(draw_row(v, x, y, row, byte, n)),
    decreases n,
{
    if n > 0 {
        let w = draw_row(v, x, y, row, byte, (n - 1) as nat);
        lemma_draw_row_valid(v, x, y, row, byte, (n - 1) as nat);
        if sprite_bit(byte, n - 1) {
            let c = pixel_index(x, y, row, n - 1);
            lemma_pixel_index_in_range(x, y, row, n - 1);
            lemma_flip_is_bit(w[c]);
            let t = toggle(w, c);
            assert forall|k: int| 0 <= k < t.len() implies #[trigger] t[k] <= 1 by {
                if k != c {
                    assert(t[k] == w[k]);
                }
            }
        }
    }
}

proof fn lemma_draw_rows_valid(v: Seq<u32>, x: int, y: int, sprite: Seq<u8>, m: nat)
    requires
        valid_video(v),
        x >= 0,
        y >= 0,
        m <= sprite.len(),
    ensures
        valid_video(draw_rows(v, x, y, sprite, m)),
    decreases m,
{
    if m > 0 {
        lemma_draw_rows_valid(v, x, y, sprite, (m - 1) as nat);
        lemma_draw_row_valid(
            draw_rows(v, x, y, sprite, (m - 1) as nat),
            x,
            y,
            m - 1,
            sprite[m - 1],
            8,
        );
    }
}

/// Whether one of the first `n` columns of sprite row `row` lands on cell `c`.
pub open spec fn row_hits(x: int, y: int, row: int, byte: u8, n: nat, c: int) -> bool
    decreases n,
{
    if n == 0 {
        false
    } else {
        row_hits(x, y, row, byte, (n - 1) as nat, c) || (sprite_bit(byte, n - 1) && pixel_index(
            x,
            y,
            row,
            n - 1,
        ) == c)
    }
}

/// Whether the first `m` rows of the sprite land on cell `c` an odd number of
/// times.
pub open spec fn rows_flip(x: int, y: int, sprite: Seq<u8>, m: nat, c: int) -> bool
    decreases m,
{
    if m == 0 {
        false
    } else {
        rows_flip(x, y, sprite, (m - 1) as nat, c) != row_hits(x, y, m - 1, sprite[m - 1], 8, c)
    }
}

/// Whether some of the first `m` rows of the sprite land on cell `c`.
pub open spec fn rows_hit(x: int, y: int, sprite: Seq<u8>, m: nat, c: int) -> bool
    decreases m,
{
    if m == 0 {
        false
    } else {
        rows_hit(x, y, sprite, (m - 1) as nat, c) || row_hits(x, y, m - 1, sprite[m - 1], 8, c)
    }
}

proof fn lemma_columns_distinct(x: int, y: int, row: int, c1: int, c2: int)
    requires
        x >= 0,
        y >= 0,
        row >= 0,
        0 <= c1 < c2 < 8,
    ensures
        pixel_index(x, y, row, c1) != pixel_index(x, y, row, c2),
{
    let r = (y % 32 + row) % 32;
    let a = x % 64;
    assert(0 <= a < 64);
    let p1 = (a + c1) % 64;
    let p2 = (a + c2) % 64;
    assert(p1 != p2) by {
        if a + c2 < 64 {
            assert(p2 == a + c2);
            assert(p1 == a + c1);
        } else if a + c1 >= 64 {
            assert(p2 == a + c2 - 64);
            assert(p1 == a + c1 - 64);
        } else {
            assert(p2 == a + c2 - 64);
            assert(p1 == a + c1);
        }
    }
    assert(0 <= p1 < 64 && 0 <= p2 < 64);
    assert(r * 64 + p1 != r * 64 + p2);
}

/// Cell by cell, drawing part of a row flips exactly the cells it lands on.
proof fn lemma_draw_row_cell(v: Seq<u32>, x: int, y: int, row: int, byte: u8, n: nat, c: int)
    requires
        valid_video(v),
        x >= 0,
        y >= 0,
        row >= 0,
        n <= 8,
        0 <= c < VIDEO_SIZE,
    ensures
        draw_row(v, x, y, row, byte, n)[c] == (if row_hits(x, y, row, byte, n, c) {
            v[c] ^ 1u32
        } else {
            v[c]
        }),
    decreases n,
{
    if n > 0 {
        let m = (n - 1) as nat;
        lemma_draw_row_cell(v, x, y, row, byte, m, c);
        lemma_draw_row_valid(v, x, y, row, byte, m);
        let p = pixel_index(x, y, row, m as int);
        lemma_pixel_index_in_range(x, y, row, m as int);
        if sprite_bit(byte, m as int) && p == c {
            assert(!row_hits(x, y, row, byte, m, c)) by {
                lemma_row_hits_below(x, y, row, byte, m, m as int);
            }
        }
    }
}

/// Columns below `n` never land where column `col >= n` does.
proof fn lemma_row_hits_below(x: int, y: int, row: int, byte: u8, n: nat, col: int)
    requires
        x >= 0,
        y >= 0,
        row >= 0,
        n <= col < 8,
    ensures
        !row_hits(x, y, row, byte, n, pixel_index(x, y, row, col)),
    decreases n,
{
    if n > 0 {
        lemma_row_hits_below(x, y, row, byte, (n - 1) as nat, col);
        lemma_columns_distinct(x, y, row, n - 1, col);
    }
}

/// Cell by cell, drawing rows flips exactly the cells they land on an odd
/// number of times.
proof fn lemma_draw_rows_cell(v: Seq<u32>, x: int, y: int, sprite: Seq<u8>, m: nat, c: int)
    requires
        valid_video(v),
        x >= 0,
        y >= 0,
        m <= sprite.len(),
        0 <= c < VIDEO_SIZE,
    ensures
        draw_rows(v, x, y, sprite, m)[c] == (if rows_flip(x, y, sprite, m, c) {
            v[c] ^ 1u32
        } else {
            v[c]
        }),
    decreases m,
{
    if m > 0 {
        let k = (m - 1) as nat;
        lemma_draw_rows_cell(v, x, y, sprite, k, c);
        lemma_draw_rows_valid(v, x, y, sprite, k);
        let w = draw_rows(v, x, y, sprite, k);
        lemma_draw_row_cell(w, x, y, k as int, sprite[k as int], 8, c);
        lemma_flip_is_bit(v[c]);
        lemma_flip_is_bit(v[c] ^ 1u32);
    }
}

/// A row that lands on a lit cell it has not touched before collides.
proof fn lemma_row_collides_on_lit(v: Seq<u32>, x: int, y: int, row: int, byte: u8, n: nat, c: int)
    requires
        valid_video(v),
        x >= 0,
        y >= 0,
        row >= 0,
        n <= 8,
        0 <= c < VIDEO_SIZE,
        row_hits(x, y, row, byte, n, c),
        v[c] == 1,
    ensures
        row_collides(v, x, y, row, byte, n),
    decreases n,
{
    let m = (n - 1) as nat;
    if row_hits(x, y, row, byte, m, c) {
        lemma_row_collides_on_lit(v, x, y, row, byte, m, c);
    } else {
        lemma_draw_row_cell(v, x, y, row, byte, m, c);
    }
}

/// Rows that land on a cell lit at the start collide.
proof fn lemma_rows_collide_on_lit(v: Seq<u32>, x: int, y: int, sprite: Seq<u8>, m: nat, c: int)
    requires
        valid_video(v),
        x >= 0,
        y >= 0,
        m <= sprite.len(),
        0 <= c < VIDEO_SIZE,
        rows_hit(x, y, sprite, m, c),
        v[c] == 1,
    ensures
        rows_collide(v, x, y, sprite, m),
    decreases m,
{
    let k = (m - 1) as nat;
    if rows_hit(x, y, sprite, k, c) {
        lemma_rows_collide_on_lit(v, x, y, sprite, k, c);
    } else {
        lemma_rows_flip_hit(x, y, sprite, k, c);
        lemma_draw_rows_cell(v, x, y, sprite, k, c);
        lemma_draw_rows_valid(v, x, y, sprite, k);
        lemma_row_collides_on_lit(
            draw_rows(v, x, y, sprite, k),
            x,
            y,
            k as int,
            sprite[k as int],
            8,
            c,
        );
    }
}

/// A cell landed on an odd number of times is landed on.
proof fn lemma_rows_flip_hit(x: int, y: int, sprite: Seq<u8>, m: nat, c: int)
    ensures
        rows_flip(x, y, sprite, m, c) ==> rows_hit(x, y, sprite, m, c),
    decreases m,
{
    if m > 0 {
        lemma_rows_flip_hit(x, y, sprite, (m - 1) as nat, c);
    }
}

/// Drawing the same sprite twice at the same place restores the grid, and
/// the second drawing reports a collision whenever the first one lit a cell.
pub proof fn lemma_draw_twice(v: Seq<u32>, x: int, y: int, sprite: Seq<u8>)
    requires
        valid_video(v),
        x >= 0,
        y >= 0,
    ensures
        drawn(drawn(v, x, y, sprite), x, y, sprite) == v,
        forall|c: int|
            0 <= c < VIDEO_SIZE && v[c] == 0 && #[trigger] drawn(v, x, y, sprite)[c] == 1
                ==> collision_flag(drawn(v, x, y, sprite), x, y, sprite) == 1,
{
    let n = sprite.len();
    let w = drawn(v, x, y, sprite);
    lemma_draw_rows_valid(v, x, y, sprite, n);
    assert forall|c: int| 0 <= c < VIDEO_SIZE implies #[trigger] drawn(w, x, y, sprite)[c]
        == v[c] by {
        lemma_draw_rows_cell(v, x, y, sprite, n, c);
        lemma_draw_rows_cell(w, x, y, sprite, n, c);
        lemma_flip_is_bit(v[c]);
        lemma_flip_is_bit(v[c] ^ 1u32);
    }
    lemma_draw_rows_valid(w, x, y, sprite, n);
    assert(drawn(w, x, y, sprite) =~= v);
    assert forall|c: int|
        0 <= c < VIDEO_SIZE && v[c] == 0 && #[trigger] drawn(v, x, y, sprite)[c] == 1 implies
        collision_flag(w, x, y, sprite) == 1 by {
        lemma_draw_rows_cell(v, x, y, sprite, n, c);
        lemma_rows_flip_hit(x, y, sprite, n, c);
        lemma_rows_collide_on_lit(w, x, y, sprite, n, c);
    }
}

/// The screen row that sprite row `row` drawn at height `y` lands on.
pub open spec fn screen_row(y: int, row: int) -> int {
    (y % (VIDEO_HEIGHT as int) + row) % (VIDEO_HEIGHT as int)
}

proof fn lemma_row_hits_screen_row(x: int, y: int, row: int, byte: u8, n: nat, c: int)
    requires
        x >= 0,
        y >= 0,
        row >= 0,
        row_hits(x, y, row, byte, n, c),
    ensures
        c / 64 == screen_row(y, row),
    decreases n,
{
    if row_hits(x, y, row, byte, (n - 1) as nat, c) {
        lemma_row_hits_screen_row(x, y, row, byte, (n - 1) as nat, c);
    } else {
        let r = screen_row(y, row);
        let cc = (x % 64 + n - 1) % 64;
        assert(0 <= r < 32 && 0 <= cc < 64);
        assert(c == r * 64 + cc);
        assert((r * 64 + cc) / 64 == r) by (nonlinear_arith)
            requires
                0 <= cc < 64,
        ;
    }
}

proof fn lemma_screen_rows_distinct(y: int, j: int, k: int)
    requires
        y >= 0,
        0 <= j < k < 32,
    ensures
        screen_row(y, j) != screen_row(y, k),
{
    let a = y % 32;
    assert(0 <= a < 32);
    if a + k < 32 {
    } else if a + j >= 32 {
    } else {
        assert(screen_row(y, k) == a + k - 32);
        assert(screen_row(y, j) == a + j);
    }
}

/// Rows before row `k` never land on a cell that row `k` lands on.
proof fn lemma_earlier_rows_miss(x: int, y: int, sprite: Seq<u8>, m: nat, k: int, c: int)
    requires
        x >= 0,
        y >= 0,
        m <= k < 32,
        c / 64 == screen_row(y, k),
    ensures
        !rows_hit(x, y, sprite, m, c),
    decreases m,
{
    if m > 0 {
        lemma_earlier_rows_miss(x, y, sprite, (m - 1) as nat, k, c);
        if row_hits(x, y, m - 1, sprite[m - 1], 8, c) {
            lemma_row_hits_screen_row(x, y, m - 1, sprite[m - 1], 8, c);
            lemma_screen_rows_distinct(y, m - 1, k);
        }
    }
}

/// A sprite no taller than the screen lands on each cell at most once, so it
/// flips exactly the cells it lands on.
proof fn lemma_short_sprite_flips_hits(x: int, y: int, sprite: Seq<u8>, m: nat, c: int)
    requires
        x >= 0,
        y >= 0,
        m <= 32,
    ensures
        rows_flip(x, y, sprite, m, c) == rows_hit(x, y, sprite, m, c),
    decreases m,
{
    if m > 0 {
        let k = (m - 1) as nat;
        lemma_short_sprite_flips_hits(x, y, sprite, k, c);
        if row_hits(x, y, k as int, sprite[k as int], 8, c) {
            lemma_row_hits_screen_row(x, y, k as int, sprite[k as int], 8, c);
            lemma_earlier_rows_miss(x, y, sprite, k, k as int, c);
        }
    }
}

/// A row that collides lands on a cell lit before the row is drawn.
proof fn lemma_row_collision_lit(v: Seq<u32>, x: int, y: int, row: int, byte: u8, n: nat) -> (c: int)
    requires
        valid_video(v),
        x >= 0,
        y >= 0,
        row >= 0,
        n <= 8,
        row_collides(v, x, y, row, byte, n),
    ensures
        0 <= c < VIDEO_SIZE,
        row_hits(x, y, row, byte, n, c),
        v[c] == 1,
    decreases n,
{
    let m = (n - 1) as nat;
    if row_collides(v, x, y, row, byte, m) {
        let c = lemma_row_collision_lit(v, x, y, row, byte, m);
        c
    } else {
        let p = pixel_index(x, y, row, m as int);
        lemma_pixel_index_in_range(x, y, row, m as int);
        lemma_draw_row_cell(v, x, y, row, byte, m, p);
        lemma_row_hits_below(x, y, row, byte, m, m as int);
        p
    }
}

/// When a sprite no taller than the screen collides, it lands on a cell that
/// was lit before it was drawn.
proof fn lemma_rows_collision_lit(v: Seq<u32>, x: int, y: int, sprite: Seq<u8>, m: nat) -> (c: int)
    requires
        valid_video(v),
        x >= 0,
        y >= 0,
        m <= sprite.len(),
        m <= 32,
        rows_collide(v, x, y, sprite, m),
    ensures
        0 <= c < VIDEO_SIZE,
        rows_hit(x, y, sprite, m, c),
        v[c] == 1,
    decreases m,
{
    let k = (m - 1) as nat;
    if rows_collide(v, x, y, sprite, k) {
        let c = lemma_rows_collision_lit(v, x, y, sprite, k);
        c
    } else {
        lemma_draw_rows_valid(v, x, y, sprite, k);
        let w = draw_rows(v, x, y, sprite, k);
        let c = lemma_row_collision_lit(w, x, y, k as int, sprite[k as int], 8);
        lemma_row_hits_screen_row(x, y, k as int, sprite[k as int], 8, c);
        lemma_earlier_rows_miss(x, y, sprite, k, k as int, c);
        lemma_rows_flip_hit(x, y, sprite, k, c);
        lemma_draw_rows_cell(v, x, y, sprite, k, c);
        c
    }
}

proof fn lemma_row_hits_bit(x: int, y: int, row: int, byte: u8, n: nat, col: int)
    requires
        0 <= col < n,
        sprite_bit(byte, col),
    ensures
        row_hits(x, y, row, byte, n, pixel_index(x, y, row, col)),
    decreases n,
{
    if col < n - 1 {
        lemma_row_hits_bit(x, y, row, byte, (n - 1) as nat, col);
    }
}

proof fn lemma_rows_hit_row(x: int, y: int, sprite: Seq<u8>, m: nat, j: int, c: int)
    requires
        0 <= j < m,
        row_hits(x, y, j, sprite[j], 8, c),
    ensures
        rows_hit(x, y, sprite, m, c),
    decreases m,
{
    if j < m - 1 {
        lemma_rows_hit_row(x, y, sprite, (m - 1) as nat, j, c);
    }
}

proof fn lemma_nonzero_byte_has_bit(byte: u8) -> (col: int)
    requires
        byte != 0,
    ensures
        0 <= col < 8,
        sprite_bit(byte, col),
{
    assert(byte != 0 ==> (byte & (0x80u8 >> 0u8) != 0 || byte & (0x80u8 >> 1u8) != 0 || byte & (
    0x80u8 >> 2u8) != 0 || byte & (0x80u8 >> 3u8) != 0 || byte & (0x80u8 >> 4u8) != 0 || byte & (
    0x80u8 >> 5u8) != 0 || byte & (0x80u8 >> 6u8) != 0 || byte & (0x80u8 >> 7u8) != 0))
        by (bit_vector);
    if sprite_bit(byte, 0) {
        0
    } else if sprite_bit(byte, 1) {
        1
    } else if sprite_bit(byte, 2) {
        2
    } else if sprite_bit(byte, 3) {
        3
    } else if sprite_bit(byte, 4) {
        4
    } else if sprite_bit(byte, 5) {
        5
    } else if sprite_bit(byte, 6) {
        6
    } else {
        7
    }
}

/// For a sprite no taller than the screen, drawing it a second time at the
/// same place reports a collision exactly when the first drawing lit a cell
/// that was off; in particular, a sprite with a set bit drawn twice on a
/// blank grid collides the second time.
pub proof fn lemma_redraw_collides_iff_lit(v: Seq<u32>, x: int, y: int, sprite: Seq<u8>)
    requires
        valid_video(v),
        x >= 0,
        y >= 0,
        sprite.len() <= VIDEO_HEIGHT,
    ensures
        collision_flag(drawn(v, x, y, sprite), x, y, sprite) == 1 <==> exists|c: int|
            0 <= c < VIDEO_SIZE && v[c] == 0 && #[trigger] drawn(v, x, y, sprite)[c] == 1,
        v == blank_video() && (exists|j: int| 0 <= j < sprite.len() && #[trigger] sprite[j] != 0)
            ==> collision_flag(drawn(v, x, y, sprite), x, y, sprite) == 1,
{
    let n = sprite.len();
    let w = drawn(v, x, y, sprite);
    lemma_draw_twice(v, x, y, sprite);
    lemma_draw_rows_valid(v, x, y, sprite, n);
    if collision_flag(w, x, y, sprite) == 1 {
        let c = lemma_rows_collision_lit(w, x, y, sprite, n);
        lemma_short_sprite_flips_hits(x, y, sprite, n, c);
        lemma_draw_rows_cell(v, x, y, sprite, n, c);
        lemma_flip_is_bit(v[c]);
        assert(v[c] == 0 && w[c] == 1);
    }
    if v == blank_video() && (exists|j: int| 0 <= j < sprite.len() && #[trigger] sprite[j] != 0) {
        let j = choose|j: int| 0 <= j < sprite.len() && #[trigger] sprite[j] != 0;
        let col = lemma_nonzero_byte_has_bit(sprite[j]);
        let c = pixel_index(x, y, j, col);
        lemma_pixel_index_in_range(x, y, j, col);
        lemma_row_hits_bit(x, y, j, sprite[j], 8, col);
        lemma_rows_hit_row(x, y, sprite, n, j, c);
        lemma_short_sprite_flips_hits(x, y, sprite, n, c);
        lemma_draw_rows_cell(v, x, y, sprite, n, c);
        lemma_flip_is_bit(v[c]);
        assert(v[c] == 0 && w[c] == 1);
    }
}

/// A fixed-size monochrome framebuffer with a dirty flag.
#[derive(Debug)]
pub struct Display {
    video: Vec<u32>,
    dirty: bool,
}

impl Display {
    /// The abstract contents of the framebuffer.
    pub closed spec fn model(&self) -> DisplayView {
        DisplayView { video: self.video@, dirty: self.dirty }
    }

    /// Every cell holds 0 or 1 and there are exactly `VIDEO_SIZE` of them.
    pub open spec fn wf(&self) -> bool {
        valid_video(self.model().video)
    }

    /// A blank, dirty framebuffer.
    pub fn new() -> (r: Self)
        ensures
            r.wf(),
            r.model().video == blank_video(),
            r.model().dirty,
    {
        let mut video: Vec<u32> = Vec::new();
        let mut k: usize = 0;
        while k < VIDEO_SIZE
            invariant
                k <= VIDEO_SIZE,
                video@ == Seq::new(k as nat, |c: int| 0u32),
            decreases VIDEO_SIZE - k,
        {
            video.push(0);
            k = k + 1;
            assert(video@ =~= Seq::new(k as nat, |c: int| 0u32));
        }
        Display { video, dirty: true }
    }

    /// XORs an 8-pixel-wide sprite (one byte per row, most significant bit
    /// leftmost) into the grid at `(x_pos, y_pos)`, wrapping on both axes.
    /// Returns 1 if a lit cell was turned off, else 0. Marks the grid dirty.
    pub fn draw(&mut self, x_pos: usize, y_pos: usize, bytes: &[u8]) -> (r: u8)
        requires
            old(self).wf(),
        ensures
            final(self).wf(),
            final(self).model().video == drawn(old(self).model().video, x_pos as int, y_pos as int, bytes@),
            r == collision_flag(old(self).model().video, x_pos as int, y_pos as int, bytes@),
            final(self).model().dirty,
    {
        let ghost v0 = self.video@;
        let ghost x = x_pos as int;
        let ghost y = y_pos as int;
        let xw: usize = x_pos % VIDEO_WIDTH;
        let yh: usize = y_pos % VIDEO_HEIGHT;
        let mut collision: u8 = 0;
        let mut j: usize = 0;
        while j < bytes.len()
            invariant
                j <= bytes@.len(),
                x == x_pos as int,
                y == y_pos as int,
                valid_video(v0),
                xw == x % 64,
                yh == y % 32,
                self.video@ == draw_rows(v0, x, y, bytes@, j as nat),
                valid_video(self.video@),
                collision == (if rows_collide(v0, x, y, bytes@, j as nat) {
                    1u8
                } else {
                    0u8
                }),
            decreases bytes@.len() - j,
        {
            let byte = bytes[j];
            let ghost w0 = self.video@;
            let mut i: usize = 0;
            while i < 8
                invariant
                    i <= 8,
                    j < bytes@.len(),
                    x == x_pos as int,
                    y == y_pos as int,
                    valid_video(v0),
                    byte == bytes@[j as int],
                    xw == x % 64,
                    yh == y % 32,
                    w0 == draw_rows(v0, x, y, bytes@, j as nat),
                    valid_video(w0),
                    self.video@ == draw_row(w0, x, y, j as int, byte, i as nat),
                    valid_video(self.video@),
                    collision == (if rows_collide(v0, x, y, bytes@, j as nat) || row_collides(
                        w0,
                        x,
                        y,
                        j as int,
                        byte,
                        i as nat,
                    ) {
                        1u8
                    } else {
                        0u8
                    }),
                decreases 8 - i,
            {
                let col: usize = (xw + i) % VIDEO_WIDTH;
                let row: usize = (yh + j % VIDEO_HEIGHT) % VIDEO_HEIGHT;
                proof {
                    assert((y % 32 + j) % 32 == (y % 32 + j % 32) % 32) by {
                        vstd::arithmetic::div_mod::lemma_add_mod_noop(y % 32, j as int, 32);
                        vstd::arithmetic::div_mod::lemma_mod_twice(y, 32);
                    }
                    lemma_pixel_index_in_range(x, y, j as int, i as int);
                    assert(row * 64 + col == pixel_index(x, y, j as int, i as int));
                }
                let c: usize = row * VIDEO_WIDTH + col;
                if (byte & (0x80u8 >> (i as u8))) != 0 {
                    let old_cell = self.video[c];
                    if old_cell == 1 {
                        collision = 1;
                    }
                    proof {
                        lemma_flip_is_bit(old_cell);
                        lemma_draw_row_valid(w0, x, y, j as int, byte, (i + 1) as nat);
                    }
                    self.video.set(c, old_cell ^ 1u32);
                }
                i = i + 1;
            }
            proof {
                lemma_draw_rows_valid(v0, x, y, bytes@, (j + 1) as nat);
            }
            j = j + 1;
        }
        self.dirty = true;
        collision
    }

    /// Turns every cell off and marks the grid dirty.
    pub fn clear(&mut self)
        requires
            old(self).wf(),
        ensures
            final(self).wf(),
            final(self).model().video == blank_video(),
            final(self).model().dirty,
    {
        let mut k: usize = 0;
        while k < VIDEO_SIZE
            invariant
                k <= VIDEO_SIZE,
                self.video@.len() == VIDEO_SIZE,
                forall|c: int| 0 <= c < k ==> self.video@[c] == 0u32,
                forall|c: int| 0 <= c < VIDEO_SIZE ==> #[trigger] self.video@[c] <= 1,
            decreases VIDEO_SIZE - k,
        {
            self.video.set(k, 0);
            k = k + 1;
        }
        assert(self.video@ =~= blank_video());
        self.dirty = true;
    }

    /// Whether the grid changed since the last acknowledgment.
    pub fn is_dirty(&self) -> (r: bool)
        ensures
            r == self.model().dirty,
    {
        self.dirty
    }

    /// Acknowledges the current frame: clears the dirty flag.
    pub fn set_clean(&mut self)
        ensures
            final(self).model().video == old(self).model().video,
            !final(self).model().dirty,
    {
        self.dirty = false;
    }

    /// The cells in row-major order, origin at the top left.
    pub fn view(&self) -> (r: &[u32])
        ensures
            r@ == self.model().video,
    {
        self.video.as_slice()
    }
}

} // verus!
