//! The QR code that shows how to reach a running simulation: the code's
//! modules, read from its text rendering, and the window image drawn from
//! them.

use vstd::prelude::*;

verus! {

/// The error correction level of a QR code, as `qrcode::EcLevel` has it.
#[derive(PartialEq, Eq, Structural, Clone, Copy)]
pub enum QrEcLevel {
    L,
    M,
    Q,
    H,
}

/// The text that `qrcode` renders for `data` at the error correction level,
/// with or without its quiet zone, every module drawn as a block of
/// characters of the given width and height; `None` when the data does not
/// fit in a QR code.
pub uninterp spec fn qr_text_of(
    data: Seq<u8>,
    level: QrEcLevel,
    quiet_zone: bool,
    module_width: u32,
    module_height: u32,
) -> Option<Seq<char>>;

/// A text of `rows` lines of `cols` characters each, each a full block or a
/// space, with a line feed between lines and none after the last.
pub open spec fn is_grid_text(text: Seq<char>, cols: int, rows: int) -> bool {
    &&& cols >= 1
    &&& rows >= 1
    &&& text.len() == rows * (cols + 1) - 1
    &&& forall|i: int| 0 <= i < text.len() ==> ((text[i] == '\n') <==> (i + 1) % (cols + 1) == 0)
    &&& forall|i: int| 0 <= i < text.len() && text[i] != '\n' ==> (text[i] == '\u{2588}' || text[i] == ' ')
}

/// A module size as the renderer takes it: at least 1.
pub open spec fn at_least_one(n: u32) -> int {
    if n == 0 {
        1
    } else {
        n as int
    }
}

/// Calls `qrcode::QrCode::with_error_correction_level` and renders the code
/// with `render::<char>()`, `quiet_zone` and `module_dimensions`. The
/// renderer draws a code `n` modules across (the quiet zone included) as
/// `n * height` lines of `n * width` characters, a dark module as U+2588 and
/// a light one as a space, with a line feed between lines (a size of 0 counts
/// as 1). Claimed: that shape, and that the text, or `None` where the crate
/// returns an error (data too long), depends on the arguments alone. Module
/// sizes are bounded so that the renderer's `u32` sizes cannot overflow.
#[verifier::external_body]
fn render_qr_text(data: &[u8], level: QrEcLevel, quiet_zone: bool, module_width: u32, module_height: u32) -> (text: Option<Vec<char>>)
    requires
        module_width <= 1000,
        module_height <= 1000,
    ensures
        match text {
            Some(t) => {
                &&& qr_text_of(data@, level, quiet_zone, module_width, module_height) == Some(t@)
                &&& exists|n: int| n >= 1 && #[trigger] is_grid_text(t@, n * at_least_one(module_width), n * at_least_one(module_height))
            },
            None => qr_text_of(data@, level, quiet_zone, module_width, module_height) is None,
        },
{
    let ec_level = match level {
        QrEcLevel::L => qrcode::EcLevel::L,
        QrEcLevel::M => qrcode::EcLevel::M,
        QrEcLevel::Q => qrcode::EcLevel::Q,
        QrEcLevel::H => qrcode::EcLevel::H,
    };
    match qrcode::QrCode::with_error_correction_level(data, ec_level) {
        Ok(code) => Some(code.render::<char>().quiet_zone(quiet_zone).module_dimensions(module_width, module_height).build().chars().collect()),
        Err(_) => None,
    }
}

/// The host's QR code: error correction level M, no quiet zone, one
/// character per module.
pub open spec fn host_qr_text(data: Seq<u8>) -> Option<Seq<char>> {
    qr_text_of(data, QrEcLevel::M, false, 1, 1)
}

/// A line without a carriage return that ended it together with a line feed.
pub open spec fn strip_cr(line: Seq<char>) -> Seq<char> {
    if line.len() > 0 && line.last() == '\r' {
        line.drop_last()
    } else {
        line
    }
}

/// The lines completed and the line in progress after reading `text`.
pub open spec fn scan_lines(text: Seq<char>) -> (Seq<Seq<char>>, Seq<char>)
    decreases text.len(),
{
    if text.len() == 0 {
        (seq![], seq![])
    } else {
        let (done, cur) = scan_lines(text.drop_last());
        if text.last() == '\n' {
            (done.push(strip_cr(cur)), seq![])
        } else {
            (done, cur.push(text.last()))
        }
    }
}

/// The lines of a text as `str::lines` gives them: split at each line feed,
/// a carriage return right before the line feed dropped, and no empty line
/// after a final line feed.
pub open spec fn text_lines(text: Seq<char>) -> Seq<Seq<char>> {
    let (done, cur) = scan_lines(text);
    if cur.len() > 0 {
        done.push(cur)
    } else {
        done
    }
}

/// Whether a character of the rendering stands for a dark module.
pub open spec fn is_dark_char(c: char) -> bool {
    c == '\u{2588}' || c == '#'
}

/// The modules of one line: dark or light.
pub open spec fn line_modules(line: Seq<char>) -> Seq<bool> {
    line.map_values(|c: char| is_dark_char(c))
}

/// The views of the rows of modules.
pub open spec fn rows_view(rows: Seq<Vec<bool>>) -> Seq<Seq<bool>> {
    rows.map_values(|r: Vec<bool>| r@)
}

/// A QR code's modules, row by row, and the number of modules in its first
/// row, which gives the code's size.
pub struct QrModules {
    pub rows: Vec<Vec<bool>>,
    pub count: usize,
}

/// The lines of `text`.
fn split_lines(text: &Vec<char>) -> (lines: Vec<Vec<char>>)
    ensures
        lines@.map_values(|l: Vec<char>| l@) == text_lines(text@),
{
    let n = text.len();
    let mut done: Vec<Vec<char>> = Vec::new();
    let mut cur: Vec<char> = Vec::new();
    let mut i: usize = 0;
    while i < n
        invariant
            n == text@.len(),
            0 <= i <= n,
            done@.map_values(|l: Vec<char>| l@) == scan_lines(text@.take(i as int)).0,
            cur@ == scan_lines(text@.take(i as int)).1,
        decreases n - i,
    {
        proof {
            assert(text@.take(i + 1).drop_last() =~= text@.take(i as int));
            assert(text@.take(i + 1).last() == text@[i as int]);
        }
        let c = text[i];
        if c == '\n' {
            let k = cur.len();
            if k > 0 && cur[k - 1] == '\r' {
                let _ = cur.pop();
            }
            let ghost before = done@;
            done.push(cur);
            cur = Vec::new();
            assert(done@.map_values(|l: Vec<char>| l@) =~= before.map_values(|l: Vec<char>| l@).push(done@.last()@));
        } else {
            cur.push(c);
        }
        i = i + 1;
    }
    proof {
        assert(text@.take(n as int) =~= text@);
    }
    if cur.len() > 0 {
        let ghost before = done@;
        done.push(cur);
        assert(done@.map_values(|l: Vec<char>| l@) =~= before.map_values(|l: Vec<char>| l@).push(done@.last()@));
    }
    done
}

/// The modules of each line, dark or light.
fn modules_of_lines(lines: &Vec<Vec<char>>) -> (rows: Vec<Vec<bool>>)
    ensures
        rows_view(rows@) == lines@.map_values(|l: Vec<char>| line_modules(l@)),
{
    let n = lines.len();
    let mut rows: Vec<Vec<bool>> = Vec::new();
    let mut i: usize = 0;
    while i < n
        invariant
            n == lines@.len(),
            0 <= i <= n,
            rows_view(rows@) == lines@.take(i as int).map_values(|l: Vec<char>| line_modules(l@)),
        decreases n - i,
    {
        let line = &lines[i];
        let m = line.len();
        let mut row: Vec<bool> = Vec::new();
        let mut j: usize = 0;
        while j < m
            invariant
                m == line@.len(),
                0 <= j <= m,
                row@ == line_modules(line@.take(j as int)),
            decreases m - j,
        {
            let c = line[j];
            row.push(c == '\u{2588}' || c == '#');
            assert(row@ =~= line_modules(line@.take(j + 1)));
            j = j + 1;
        }
        assert(line@.take(m as int) =~= line@);
        let ghost before = rows@;
        rows.push(row);
        assert(rows_view(rows@) =~= rows_view(before).push(line_modules(lines@[i as int]@)));
        assert(lines@.take(i + 1) =~= lines@.take(i as int).push(lines@[i as int]));
        i = i + 1;
    }
    assert(lines@.take(n as int) =~= lines@);
    rows
}

/// The modules of the host's QR code for `data`, read from its text
/// rendering: a square of `count` rows of `count` modules; `None` when the
/// data does not fit in a QR code.
pub fn qr_modules(data: &[u8]) -> (modules: Option<QrModules>)
    ensures
        match modules {
            Some(m) => {
                &&& host_qr_text(data@) is Some
                &&& rows_view(m.rows@) == text_lines(host_qr_text(data@)->0).map_values(|l: Seq<char>| line_modules(l))
                &&& m.count == text_lines(host_qr_text(data@)->0)[0].len()
                &&& m.count >= 1
                &&& m.rows@.len() == m.count
                &&& forall|y: int| 0 <= y < m.count ==> #[trigger] m.rows@[y]@.len() == m.count
            },
            None => host_qr_text(data@) is None,
        },
{
    match render_qr_text(data, QrEcLevel::M, false, 1, 1) {
        Some(text) => {
            let lines = split_lines(&text);
            proof {
                let n = choose|n: int| n >= 1 && #[trigger] is_grid_text(text@, n * at_least_one(1), n * at_least_one(1));
                let one = at_least_one(1);
                assert(one == 1);
                assert(n * one == n) by (nonlinear_arith)
                    requires
                        one == 1,
                ;
                lemma_grid_lines(text@, n, n);
            }
            let count = lines[0].len();
            let rows = modules_of_lines(&lines);
            proof {
                let lv = lines@.map_values(|l: Vec<char>| l@);
                assert(lines@.map_values(|l: Vec<char>| line_modules(l@)) =~= lv.map_values(|l: Seq<char>| line_modules(l)));
                assert(lv[0] == lines@[0]@);
                assert forall|y: int| 0 <= y < count implies #[trigger] rows@[y]@.len() == count by {
                    assert(rows_view(rows@)[y] == rows@[y]@);
                    assert(lv[y] == lines@[y]@);
                }
            }
            Some(QrModules { rows, count })
        },
        None => None,
    }
}

proof fn lemma_grid_scan(text: Seq<char>, cols: int, rows: int, i: int)
    requires
        is_grid_text(text, cols, rows),
        0 <= i <= text.len(),
    ensures
        scan_lines(text.take(i)).0.len() == i / (cols + 1),
        forall|k: int| 0 <= k < scan_lines(text.take(i)).0.len() ==> #[trigger] scan_lines(text.take(i)).0[k].len() == cols,
        scan_lines(text.take(i)).1.len() == i % (cols + 1),
        forall|k: int| 0 <= k < scan_lines(text.take(i)).1.len() ==> #[trigger] scan_lines(text.take(i)).1[k] != '\r',
    decreases i,
{
    let d = cols + 1;
    if i == 0 {
        assert(text.take(0) =~= Seq::<char>::empty());
    } else {
        lemma_grid_scan(text, cols, rows, i - 1);
        let prev = text.take(i - 1);
        assert(text.take(i).drop_last() =~= prev);
        assert(text.take(i).last() == text[i - 1]);
        let q = (i - 1) / d;
        let m = (i - 1) % d;
        vstd::arithmetic::div_mod::lemma_fundamental_div_mod(i - 1, d);
        assert(0 <= m < d);
        let (done, cur) = scan_lines(prev);
        if m == cols {
            assert(i == (q + 1) * d + 0) by (nonlinear_arith)
                requires
                    i - 1 == d * q + m,
                    m == cols,
                    d == cols + 1,
            ;
            vstd::arithmetic::div_mod::lemma_fundamental_div_mod_converse(i, d, q + 1, 0);
            assert(text[i - 1] == '\n');
            if cur.len() > 0 {
                assert(cur.last() == cur[cur.len() - 1]);
            }
            assert(strip_cr(cur) == cur);
        } else {
            assert(i == q * d + (m + 1)) by (nonlinear_arith)
                requires
                    i - 1 == d * q + m,
            ;
            vstd::arithmetic::div_mod::lemma_fundamental_div_mod_converse(i, d, q, m + 1);
            assert(text[i - 1] != '\n');
            assert(text[i - 1] == '\u{2588}' || text[i - 1] == ' ');
            assert forall|k: int| 0 <= k < cur.len() + 1 implies #[trigger] cur.push(text[i - 1])[k] != '\r' by {
                if k < cur.len() {
                    assert(cur.push(text[i - 1])[k] == cur[k]);
                }
            }
        }
    }
}

/// A grid text has `rows` lines of `cols` characters each.
proof fn lemma_grid_lines(text: Seq<char>, cols: int, rows: int)
    requires
        is_grid_text(text, cols, rows),
    ensures
        text_lines(text).len() == rows,
        forall|k: int| 0 <= k < rows ==> #[trigger] text_lines(text)[k].len() == cols,
{
    let d = cols + 1;
    let n = text.len() as int;
    lemma_grid_scan(text, cols, rows, n);
    assert(text.take(n) =~= text);
    assert(n == (rows - 1) * d + cols) by (nonlinear_arith)
        requires
            n == rows * (cols + 1) - 1,
            d == cols + 1,
    ;
    vstd::arithmetic::div_mod::lemma_fundamental_div_mod_converse(n, d, rows - 1, cols);
    let (done, cur) = scan_lines(text);
    assert(cur.len() == cols);
    assert(text_lines(text) == done.push(cur));
    assert forall|k: int| 0 <= k < rows implies #[trigger] text_lines(text)[k].len() == cols by {
        if k < rows - 1 {
            assert(text_lines(text)[k] == done[k]);
        }
    }
}

/// The color of a dark module.
pub const QR_DARK: u32 = 0xFF000000;

/// The color of a light module and of the margin.
pub const QR_LIGHT: u32 = 0xFFFFFFFF;

/// The side of the window, in pixels: the code's `count` modules of
/// `size` pixels each, and a margin of two modules on each side.
pub open spec fn qr_window_side(count: int, size: int) -> int {
    count * size + 4 * size
}

/// The color of the pixel at column `px` and row `py`: the color of the
/// module whose square holds it, and light in the margin and where no module
/// is.
pub open spec fn qr_pixel(rows: Seq<Seq<bool>>, size: int, px: int, py: int) -> u32 {
    let margin = 2 * size;
    if px >= margin && py >= margin {
        let x = (px - margin) / size;
        let y = (py - margin) / size;
        if y < rows.len() && x < rows[y].len() && rows[y][x] {
            QR_DARK
        } else {
            QR_LIGHT
        }
    } else {
        QR_LIGHT
    }
}

/// The window image of a QR code, row by row, and the window's side: every
/// module a square of `module_size` pixels, in a light margin two modules
/// wide. Rows and modules beyond the code's size are drawn where they fall
/// inside the window.
pub fn qr_pixels(modules: &QrModules, module_size: usize) -> (image: (Vec<u32>, usize))
    requires
        qr_window_side(modules.count as int, module_size as int) * qr_window_side(modules.count as int, module_size as int)
            <= usize::MAX,
    ensures
        image.1 == qr_window_side(modules.count as int, module_size as int),
        image.0@.len() == image.1 * image.1,
        forall|px: int, py: int|
            0 <= px < image.1 && 0 <= py < image.1 ==> image.0@[py * image.1 + px] == qr_pixel(
                rows_view(modules.rows@),
                module_size as int,
                px,
                py,
            ),
{
    let count = modules.count;
    let ghost rows = rows_view(modules.rows@);
    let ghost side = qr_window_side(count as int, module_size as int);
    proof {
        assert(0 <= count * module_size <= side) by (nonlinear_arith)
            requires
                side == count * module_size + 4 * module_size,
                0 <= module_size,
                0 <= count,
        ;
        assert(side <= side * side || side == 0) by (nonlinear_arith)
            requires
                side >= 0,
        ;
    }
    let qr_size = module_size * count;
    let margin = module_size * 2;
    let window = qr_size + margin * 2;
    assert(window == side) by (nonlinear_arith)
        requires
            qr_size == module_size * count,
            margin == module_size * 2,
            window == qr_size + margin * 2,
            side == count * module_size + 4 * module_size,
    ;
    let mut image: Vec<u32> = Vec::new();
    let mut py: usize = 0;
    let mut base: usize = 0;
    while py < window
        invariant
            window == side,
            side * side <= usize::MAX,
            margin == 2 * module_size,
            window == count * module_size + 4 * module_size,
            rows == rows_view(modules.rows@),
            0 <= py <= window,
            base == py * window,
            image@.len() == base,
            forall|qx: int, qy: int|
                0 <= qx < window && 0 <= qy < py ==> image@[qy * window + qx] == qr_pixel(rows, module_size as int, qx, qy),
        decreases window - py,
    {
        assert(base + window <= window * window) by (nonlinear_arith)
            requires
                base == py * window,
                py < window,
        ;
        let mut px: usize = 0;
        while px < window
            invariant
                window == side,
                side * side <= usize::MAX,
                margin == 2 * module_size,
                window == count * module_size + 4 * module_size,
                rows == rows_view(modules.rows@),
                0 <= py < window,
                0 <= px <= window,
                base == py * window,
                base + window <= window * window,
                image@.len() == base + px,
                forall|qx: int, qy: int|
                    0 <= qx < window && 0 <= qy < py ==> image@[qy * window + qx] == qr_pixel(rows, module_size as int, qx, qy),
                forall|qx: int| 0 <= qx < px ==> image@[base + qx] == qr_pixel(rows, module_size as int, qx, py as int),
            decreases window - px,
        {
            let mut color = QR_LIGHT;
            if px >= margin && py >= margin {
                let x = (px - margin) / module_size;
                let y = (py - margin) / module_size;
                if y < modules.rows.len() && x < modules.rows[y].len() && modules.rows[y][x] {
                    color = QR_DARK;
                }
            }
            proof {
                if px >= margin && py >= margin {
                    let x = (px - margin) / module_size as int;
                    let y = (py - margin) / module_size as int;
                    if y < rows.len() {
                        assert(rows[y] == modules.rows@[y]@);
                    }
                }
                assert(color == qr_pixel(rows, module_size as int, px as int, py as int));
            }
            let ghost before = image@;
            image.push(color);
            proof {
                assert forall|qx: int, qy: int|
                    0 <= qx < window && 0 <= qy < py implies image@[qy * window + qx] == qr_pixel(rows, module_size as int, qx, qy) by {
                    assert(qy * window + qx < base) by (nonlinear_arith)
                        requires
                            base == py * window,
                            0 <= qy < py,
                            0 <= qx < window,
                    ;
                    assert(image@[qy * window + qx] == before[qy * window + qx]);
                }
            }
            px = px + 1;
        }
        proof {
            assert forall|qx: int, qy: int|
                0 <= qx < window && 0 <= qy < py + 1 implies image@[qy * window + qx] == qr_pixel(rows, module_size as int, qx, qy) by {
                if qy == py {
                    assert(qy * window + qx == base + qx);
                }
            }
            assert(base + window == (py + 1) * window) by (nonlinear_arith)
                requires
                    base == py * window,
            ;
        }
        base = base + window;
        py = py + 1;
    }
    (image, window)
}

/// Every module is drawn as a full square of `size` by `size` pixels in its
/// own color, placed after the two-module margin at its row and column.
pub proof fn lemma_module_square(rows: Seq<Seq<bool>>, size: int, x: int, y: int, dx: int, dy: int)
    requires
        size > 0,
        0 <= y < rows.len(),
        0 <= x < rows[y].len(),
        0 <= dx < size,
        0 <= dy < size,
    ensures
        qr_pixel(rows, size, 2 * size + x * size + dx, 2 * size + y * size + dy) == (if rows[y][x] {
            QR_DARK
        } else {
            QR_LIGHT
        }),
{
    assert(x * size >= 0 && y * size >= 0) by (nonlinear_arith)
        requires
            x >= 0,
            y >= 0,
            size > 0,
    ;
    vstd::arithmetic::div_mod::lemma_fundamental_div_mod_converse(x * size + dx, size, x, dx);
    vstd::arithmetic::div_mod::lemma_fundamental_div_mod_converse(y * size + dy, size, y, dy);
}

/// The margin, two modules wide on the left and on the top, is light.
pub proof fn lemma_margin_light(rows: Seq<Seq<bool>>, size: int, px: int, py: int)
    requires
        px < 2 * size || py < 2 * size,
    ensures
        qr_pixel(rows, size, px, py) == QR_LIGHT,
{
}

} // verus!
