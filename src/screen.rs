use vstd::prelude::*;
use crate::text::{chars_of, string_of};

verus! {

/// A cell of a grid with origin (0, 0). Points order by row, then by
/// column, so a run of cells along one row sorts together and in order.
#[derive(PartialEq, Eq, PartialOrd, Ord, Debug, Clone, Copy, Structural)]
pub struct Point {
    // Rows compare first: keep `y` declared before `x`.
    pub y: usize,
    pub x: usize,
}

/// `a` comes before `b`: on an earlier row, or earlier on the same row.
pub open spec fn point_lt(a: Point, b: Point) -> bool {
    a.y < b.y || (a.y == b.y && a.x < b.x)
}

/// The points are in strictly increasing order.
pub open spec fn points_sorted(s: Seq<Point>) -> bool {
    forall|i: int, j: int| 0 <= i < j < s.len() ==> point_lt(#[trigger] s[i], #[trigger] s[j])
}

/// The decimal digits of `n`.
pub open spec fn decimal(n: nat) -> Seq<char>
    decreases n,
{
    if n < 10 {
        seq![seq!['0', '1', '2', '3', '4', '5', '6', '7', '8', '9'][n as int]]
    } else {
        decimal(n / 10).push(seq!['0', '1', '2', '3', '4', '5', '6', '7', '8', '9'][(n % 10) as int])
    }
}

/// The terminal control sequence that moves the cursor to column `x`, row
/// `y`, both counted from 1.
pub open spec fn goto_code(x: nat, y: nat) -> Seq<char> {
    seq!['\x1b', '['] + decimal(y) + seq![';'] + decimal(x) + seq!['H']
}

/// The terminal control sequence that clears the screen.
pub open spec fn clear_code() -> Seq<char> {
    seq!['\x1b', '[', '2', 'J']
}

/// Relies on the `Display` of `termion::cursor::Goto`, which writes
/// `ESC [ {y} ; {x} H`; it asserts in debug builds that the position is not (0, 0).
#[verifier::external_body]
fn goto(x: u16, y: u16) -> (r: String)
    requires
        x >= 1,
        y >= 1,
    ensures
        r@ == goto_code(x as nat, y as nat),
{
    format!("{}", termion::cursor::Goto(x, y))
}

/// Relies on the `Display` of `termion::clear::All`, which writes `ESC [ 2 J`.
#[verifier::external_body]
fn clear_all_code() -> (r: String)
    ensures
        r@ == clear_code(),
{
    format!("{}", termion::clear::All)
}

/// What a redraw writes for the cells at `points`, in order, after the
/// cell at `last` was written: each cell's character, preceded by a jump of
/// the cursor unless the cell is the one right of the last written.
pub open spec fn draw_cells(cells: Seq<char>, w: nat, points: Seq<Point>, last: Point) -> Seq<char>
    decreases points.len(),
{
    if points.len() == 0 {
        Seq::empty()
    } else {
        draw_step(cells, w, points[0], last) + draw_cells(cells, w, points.drop_first(), points[0])
    }
}

/// What drawing the cell at `p` writes after the cell at `last`.
pub open spec fn draw_step(cells: Seq<char>, w: nat, p: Point, last: Point) -> Seq<char> {
    let jump = if p.y != last.y || p.x != last.x + 1 {
        goto_code((p.x + 1) as nat, (p.y + 1) as nat)
    } else {
        Seq::empty()
    };
    jump + seq![cells[p.y * w + p.x]]
}

/// The cell written last after drawing `points`, starting after `start`.
pub open spec fn last_drawn(points: Seq<Point>, start: Point) -> Point {
    if points.len() == 0 {
        start
    } else {
        points.last()
    }
}

proof fn lemma_draw_cells_push(cells: Seq<char>, w: nat, points: Seq<Point>, p: Point, start: Point)
    ensures
        draw_cells(cells, w, points.push(p), start) == draw_cells(cells, w, points, start) + draw_step(
            cells,
            w,
            p,
            last_drawn(points, start),
        ),
    decreases points.len(),
{
    assert(points.push(p)[0] == if points.len() == 0 { p } else { points[0] });
    assert(draw_cells(cells, w, Seq::<Point>::empty(), p) == Seq::<char>::empty());
    if points.len() == 0 {
        assert(points.push(p).drop_first() =~= Seq::<Point>::empty());
        assert(draw_step(cells, w, p, start) + Seq::<char>::empty() =~= draw_step(cells, w, p, start));
        assert(Seq::<char>::empty() + draw_step(cells, w, p, start) =~= draw_step(cells, w, p, start));
    } else {
        assert(points.push(p).drop_first() =~= points.drop_first().push(p));
        lemma_draw_cells_push(cells, w, points.drop_first(), p, points[0]);
        if points.len() > 1 {
            assert(points.drop_first().last() == points.last());
        }
        let a = draw_step(cells, w, points[0], start);
        let b = draw_cells(cells, w, points.drop_first(), points[0]);
        let c = draw_step(cells, w, p, last_drawn(points, start));
        assert(a + (b + c) =~= a + b + c);
    }
}

/// Every cell of a `w` by `h` grid, row by row.
pub open spec fn all_points(w: nat, h: nat) -> Seq<Point> {
    Seq::new(w * h, |i: int| Point { y: (i / w as int) as usize, x: (i % w as int) as usize })
}

/// The abstract state of a damage buffer.
pub struct ScreenModel {
    pub w: nat,
    pub h: nat,
    /// The characters of the cells, row by row.
    pub cells: Seq<char>,
    /// The cells changed since the last redraw, in order.
    pub damaged: Seq<Point>,
    pub redraw_all: bool,
    pub clear_all: bool,
}

/// What a redraw writes: the cursor goes home, the screen is cleared if it
/// was asked for, then every cell is drawn when the whole screen is to be
/// redrawn, else only the damaged cells.
pub open spec fn redraw_text(m: ScreenModel) -> Seq<char> {
    let points = if m.redraw_all {
        all_points(m.w, m.h)
    } else {
        m.damaged
    };
    goto_code(1, 1) + (if m.clear_all {
        clear_code()
    } else {
        Seq::empty()
    }) + draw_cells(m.cells, m.w, points, Point { y: 0, x: 0 })
}

/// The character that writing `what` at column `x` of row `y` leaves in
/// cell `i`; what falls outside the grid is dropped.
pub open spec fn written_cell(m: ScreenModel, x: nat, y: nat, what: Seq<char>, i: int) -> char {
    let k = i - y * m.w - x;
    if y < m.h && 0 <= k < what.len() && x + k < m.w {
        what[k]
    } else {
        m.cells[i]
    }
}

/// A grid of characters that remembers which cells changed, so that a
/// redraw writes only those.
pub struct DamageBuffer {
    points_to_draw: Vec<Point>,
    redraw_all: bool,
    clear_all: bool,
    w: usize,
    h: usize,
    buffer: Vec<char>,
}

impl View for DamageBuffer {
    type V = ScreenModel;

    closed spec fn view(&self) -> ScreenModel {
        ScreenModel {
            w: self.w as nat,
            h: self.h as nat,
            cells: self.buffer@,
            damaged: self.points_to_draw@,
            redraw_all: self.redraw_all,
            clear_all: self.clear_all,
        }
    }
}

fn precedes(a: Point, b: Point) -> (r: bool)
    ensures
        r == point_lt(a, b),
{
    a.y < b.y || (a.y == b.y && a.x < b.x)
}

/// Insert `p` into the sorted points `v`, unless it is there already.
fn insert_point(v: &mut Vec<Point>, p: Point)
    requires
        points_sorted(old(v)@),
    ensures
        points_sorted(final(v)@),
        forall|q: Point| final(v)@.contains(q) <==> old(v)@.contains(q) || q == p,
{
    let mut i: usize = 0;
    while i < v.len() && precedes(v[i], p)
        invariant
            i <= v@.len(),
            v@ == old(v)@,
            forall|j: int| 0 <= j < i ==> point_lt(#[trigger] v@[j], p),
        decreases v@.len() - i,
    {
        i = i + 1;
    }
    if i < v.len() && v[i].x == p.x && v[i].y == p.y {
        assert(v@[i as int] == p);
        assert(v@.contains(p));
        assert forall|q: Point| v@.contains(q) <==> old(v)@.contains(q) || q == p by {
            if q == p {
                assert(v@[i as int] == q);
            }
        }
        return;
    }
    let ghost s = v@;
    v.insert(i, p);
    proof {
        assert(v@ == s.insert(i as int, p));
        assert forall|a: int, b: int| 0 <= a < b < v@.len() implies point_lt(#[trigger] v@[a], #[trigger] v@[b]) by {
            if b < i {
            } else if b == i {
            } else if a < i {
                assert(point_lt(s[a], p));
                assert(!point_lt(s[i as int], p));
                if (b - 1) as int != i as int {
                    assert(point_lt(s[i as int], s[b - 1]));
                }
            } else if a == i {
                assert(!point_lt(s[i as int], p));
                if (b - 1) as int != i as int {
                    assert(point_lt(s[i as int], s[b - 1]));
                }
            } else {
                assert(point_lt(s[a - 1], s[b - 1]));
            }
        }
        assert forall|q: Point| v@.contains(q) implies s.contains(q) || q == p by {
            let j = choose|j: int| 0 <= j < v@.len() && v@[j] == q;
            if j < i {
                assert(s[j] == q);
            } else if j > i {
                assert(s[j - 1] == q);
            }
        }
        assert forall|q: Point| s.contains(q) || q == p implies v@.contains(q) by {
            if q == p {
                assert(v@[i as int] == q);
            } else {
                let j = choose|j: int| 0 <= j < s.len() && s[j] == q;
                if j < i {
                    assert(v@[j] == q);
                } else {
                    assert(v@[j + 1] == q);
                }
            }
        }
        assert forall|q: Point| v@.contains(q) <==> old(v)@.contains(q) || q == p by {
            if v@.contains(q) {
                assert(s.contains(q) || q == p);
            }
            if s.contains(q) || q == p {
                assert(v@.contains(q));
            }
        }
    }
}

/// `n` blank cells.
fn blanks(n: usize) -> (r: Vec<char>)
    ensures
        r@ == Seq::new(n as nat, |i: int| ' '),
{
    let mut r: Vec<char> = Vec::new();
    while r.len() < n
        invariant
            r@.len() <= n,
            forall|i: int| 0 <= i < r@.len() ==> r@[i] == ' ',
        decreases n - r@.len(),
    {
        r.push(' ');
    }
    assert(r@ =~= Seq::new(n as nat, |i: int| ' '));
    r
}

/// Append the characters of `s` to `out`.
fn push_text(out: &mut Vec<char>, s: &str)
    ensures
        final(out)@ == old(out)@ + s@,
{
    let chars = chars_of(s);
    let mut i: usize = 0;
    while i < chars.len()
        invariant
            i <= chars@.len(),
            chars@ == s@,
            out@ == old(out)@ + chars@.subrange(0, i as int),
        decreases chars@.len() - i,
    {
        out.push(chars[i]);
        assert(out@ =~= old(out)@ + chars@.subrange(0, i + 1));
        i = i + 1;
    }
    assert(chars@.subrange(0, i as int) =~= chars@);
}

impl DamageBuffer {
    pub open spec fn wf(&self) -> bool {
        screen_wf(self@)
    }

    /// A blank `w` by `h` grid.
    pub fn new(w: usize, h: usize) -> (r: DamageBuffer)
        requires
            w * h <= usize::MAX,
            w <= u16::MAX,
            h <= u16::MAX,
        ensures
            r.wf(),
            r@.w == w,
            r@.h == h,
            r@.cells == Seq::new(w as nat * h as nat, |i: int| ' '),
            r@.damaged.len() == 0,
            !r@.redraw_all,
            !r@.clear_all,
    {
        DamageBuffer {
            w,
            h,
            buffer: blanks(w * h),
            points_to_draw: Vec::new(),
            redraw_all: false,
            clear_all: false,
        }
    }

    /// Blank every cell and have the next redraw clear the screen.
    pub fn clear(&mut self)
        requires
            old(self).wf(),
        ensures
            final(self).wf(),
            final(self)@.w == old(self)@.w,
            final(self)@.h == old(self)@.h,
            final(self)@.cells == Seq::new(old(self)@.w * old(self)@.h, |i: int| ' '),
            final(self)@.damaged.len() == 0,
            !final(self)@.redraw_all,
            final(self)@.clear_all,
    {
        self.buffer = blanks(self.w * self.h);
        self.points_to_draw = Vec::new();
        self.redraw_all = false;
        self.clear_all = true;
    }

    /// Change the size to `new_w` by `new_h`, keeping the cells' characters
    /// in order and blanking any new ones; the next redraw draws every cell.
    pub fn resize(&mut self, new_w: usize, new_h: usize)
        requires
            old(self).wf(),
            new_w * new_h <= usize::MAX,
            new_w <= u16::MAX,
            new_h <= u16::MAX,
        ensures
            final(self).wf(),
            final(self)@.w == new_w,
            final(self)@.h == new_h,
            final(self)@.cells == if new_w * new_h <= old(self)@.cells.len() {
                old(self)@.cells.take(new_w * new_h)
            } else {
                old(self)@.cells + Seq::new(
                    (new_w * new_h - old(self)@.cells.len()) as nat,
                    |i: int| ' ',
                )
            },
            final(self)@.damaged == old(self)@.damaged,
            final(self)@.redraw_all,
            final(self)@.clear_all == old(self)@.clear_all,
    {
        let n = new_w * new_h;
        let len = self.buffer.len();
        if n <= len {
            self.buffer.truncate(n);
        } else {
            let mut more = blanks(n - len);
            self.buffer.append(&mut more);
        }
        self.w = new_w;
        self.h = new_h;
        self.redraw_all = true;
    }
}

/// The cell at `q` is damaged by writing `what` at column `x` of row `y`:
/// it is inside the grid and gets a different character.
pub open spec fn newly_damaged(m: ScreenModel, x: nat, y: nat, what: Seq<char>, q: Point) -> bool {
    &&& y < m.h
    &&& q.y == y
    &&& x <= q.x < x + what.len()
    &&& q.x < m.w
    &&& what[q.x - x] != m.cells[y * m.w + q.x]
}

impl DamageBuffer {
    /// Write `what` from column `x` of row `y` onwards; characters that
    /// fall outside the grid are dropped. Each cell whose character changes
    /// is damaged.
    pub fn write_string(&mut self, x: usize, y: usize, what: String)
        requires
            old(self).wf(),
        ensures
            final(self).wf(),
            final(self)@.w == old(self)@.w,
            final(self)@.h == old(self)@.h,
            final(self)@.redraw_all == old(self)@.redraw_all,
            final(self)@.clear_all == old(self)@.clear_all,
            final(self)@.cells == Seq::new(
                old(self)@.cells.len(),
                |i: int| written_cell(old(self)@, x as nat, y as nat, what@, i),
            ),
            forall|q: Point|
                #[trigger] final(self)@.damaged.contains(q) <==> old(self)@.damaged.contains(q) || newly_damaged(
                    old(self)@,
                    x as nat,
                    y as nat,
                    what@,
                    q,
                ),
    {
        let chars = chars_of(what.as_str());
        let ghost m = self@;
        let mut k: usize = 0;
        proof {
            assert(self@.cells =~= Seq::new(m.cells.len(), |i: int| written_cell(m, x as nat, y as nat, chars@.take(0), i)));
        }
        while k < chars.len()
            invariant
                k <= chars@.len(),
                chars@ == what@,
                screen_wf(self@),
                self@.w == m.w,
                self@.h == m.h,
                self@.redraw_all == m.redraw_all,
                self@.clear_all == m.clear_all,
                self@.cells == Seq::new(
                    m.cells.len(),
                    |i: int| written_cell(m, x as nat, y as nat, chars@.take(k as int), i),
                ),
                forall|q: Point|
                    #[trigger] self@.damaged.contains(q) <==> m.damaged.contains(q) || newly_damaged(
                        m,
                        x as nat,
                        y as nat,
                        chars@.take(k as int),
                        q,
                    ),
            decreases chars@.len() - k,
        {
            let ghost before = self@;
            let ghost t0 = chars@.take(k as int);
            let ghost t1 = chars@.take(k + 1);
            assert(t1 =~= t0.push(chars@[k as int]));
            if y < self.h && x < self.w && k < self.w - x {
                let cx = x + k;
                proof {
                    assert(y * self.w + self.w <= self.h * self.w) by (nonlinear_arith)
                        requires
                            y < self.h,
                    ;
                    assert(self.h * self.w == self.w * self.h) by (nonlinear_arith);
                }
                let i = y * self.w + cx;
                let c = chars[k];
                let q0 = Point { x: cx, y };
                proof {
                    assert(before.cells[i as int] == m.cells[i as int]);
                    assert(t1[k as int] == c);
                }
                if c != self.buffer[i] {
                    self.buffer.set(i, c);
                    insert_point(&mut self.points_to_draw, q0);
                    proof {
                        if !self@.redraw_all {
                            assert forall|j: int| 0 <= j < self@.damaged.len() implies #[trigger] self@.damaged[j].x
                                < self@.w && self@.damaged[j].y < self@.h by {
                                let q = self@.damaged[j];
                                assert(self@.damaged.contains(q));
                                if q != q0 {
                                    assert(before.damaged.contains(q));
                                    let jj = choose|jj: int| 0 <= jj < before.damaged.len() && before.damaged[jj] == q;
                                    assert(before.damaged[jj].x < m.w);
                                }
                            }
                        }
                        assert(points_sorted(self@.damaged));
                        assert(self@.cells.len() == before.cells.len());
                        assert(screen_wf(self@));
                        assert(newly_damaged(m, x as nat, y as nat, t1, q0));
                        assert forall|q: Point|
                            #[trigger] self@.damaged.contains(q) <==> m.damaged.contains(q) || newly_damaged(
                                m,
                                x as nat,
                                y as nat,
                                t1,
                                q,
                            ) by {
                            assert(before.damaged.contains(q) <==> m.damaged.contains(q) || newly_damaged(
                                m,
                                x as nat,
                                y as nat,
                                t0,
                                q,
                            ));
                            if q != q0 {
                                if newly_damaged(m, x as nat, y as nat, t1, q) {
                                    assert(t1[q.x - x] == t0[q.x - x]);
                                    assert(newly_damaged(m, x as nat, y as nat, t0, q));
                                } else if newly_damaged(m, x as nat, y as nat, t0, q) {
                                    assert(t1[q.x - x] == t0[q.x - x]);
                                }
                            }
                        }
                    }
                } else {
                    proof {
                        assert(self@ == before);
                        assert(screen_wf(self@));
                        assert(!newly_damaged(m, x as nat, y as nat, t1, q0));
                        assert forall|q: Point|
                            #[trigger] self@.damaged.contains(q) <==> m.damaged.contains(q) || newly_damaged(
                                m,
                                x as nat,
                                y as nat,
                                t1,
                                q,
                            ) by {
                            assert(before.damaged.contains(q) <==> m.damaged.contains(q) || newly_damaged(
                                m,
                                x as nat,
                                y as nat,
                                t0,
                                q,
                            ));
                            if q != q0 {
                                if newly_damaged(m, x as nat, y as nat, t1, q) {
                                    assert(t1[q.x - x] == t0[q.x - x]);
                                    assert(newly_damaged(m, x as nat, y as nat, t0, q));
                                } else if newly_damaged(m, x as nat, y as nat, t0, q) {
                                    assert(t1[q.x - x] == t0[q.x - x]);
                                }
                            }
                        }
                    }
                }
                proof {
                    assert(self@.cells =~= Seq::new(
                        m.cells.len(),
                        |j: int| written_cell(m, x as nat, y as nat, t1, j),
                    ));
                    assert(self@.cells.len() == m.cells.len());
                    assert(screen_wf(self@));
                }
            } else {
                proof {
                    assert(self@.cells =~= Seq::new(
                        m.cells.len(),
                        |j: int| written_cell(m, x as nat, y as nat, t1, j),
                    ));
                    assert forall|q: Point|
                        #[trigger] self@.damaged.contains(q) <==> m.damaged.contains(q) || newly_damaged(
                            m,
                            x as nat,
                            y as nat,
                            t1,
                            q,
                        ) by {
                        assert(before.damaged.contains(q) <==> m.damaged.contains(q) || newly_damaged(
                            m,
                            x as nat,
                            y as nat,
                            t0,
                            q,
                        ));
                        if newly_damaged(m, x as nat, y as nat, t1, q) {
                            assert(q.x < x + k);
                            assert(t1[q.x - x] == t0[q.x - x]);
                            assert(newly_damaged(m, x as nat, y as nat, t0, q));
                        } else if newly_damaged(m, x as nat, y as nat, t0, q) {
                            assert(t1[q.x - x] == t0[q.x - x]);
                        }
                    }
                    assert(screen_wf(self@));
                }
            }
            k = k + 1;
        }
        assert(chars@.take(k as int) =~= what@);
    }

    /// What the next redraw writes, and forget the damage: the caller sends
    /// the text to the terminal.
    pub fn redraw(&mut self) -> (r: String)
        requires
            old(self).wf(),
        ensures
            final(self).wf(),
            r@ == redraw_text(old(self)@),
            final(self)@.w == old(self)@.w,
            final(self)@.h == old(self)@.h,
            final(self)@.cells == old(self)@.cells,
            final(self)@.damaged.len() == 0,
            !final(self)@.redraw_all,
            !final(self)@.clear_all,
    {
        let ghost m = self@;
        let mut out: Vec<char> = Vec::new();
        push_text(&mut out, goto(1, 1).as_str());
        if self.clear_all {
            push_text(&mut out, clear_all_code().as_str());
        }
        let ghost head = out@;
        let ghost start = Point { y: 0, x: 0 };
        let mut last = Point { y: 0, x: 0 };
        let ghost points = if m.redraw_all {
            all_points(m.w, m.h)
        } else {
            m.damaged
        };
        let n: usize = if self.redraw_all {
            self.w * self.h
        } else {
            self.points_to_draw.len()
        };
        let mut i: usize = 0;
        assert(points.take(0) =~= Seq::<Point>::empty());
        assert(head + Seq::<char>::empty() =~= head);
        while i < n
            invariant
                self@ == m,
                screen_wf(m),
                n == points.len(),
                points == if m.redraw_all {
                    all_points(m.w, m.h)
                } else {
                    m.damaged
                },
                i <= n,
                last.x <= u16::MAX,
                last == last_drawn(points.take(i as int), start),
                out@ == head + draw_cells(m.cells, m.w, points.take(i as int), start),
            decreases n - i,
        {
            let p = if self.redraw_all {
                let w = self.w;
                proof {
                    vstd::arithmetic::div_mod::lemma_fundamental_div_mod(i as int, w as int);
                    vstd::arithmetic::div_mod::lemma_mod_bound(i as int, w as int);
                    vstd::arithmetic::div_mod::lemma_div_pos_is_pos(i as int, w as int);
                    assert((i as int / w as int) < m.h) by (nonlinear_arith)
                        requires
                            i as int == w * (i as int / w as int) + (i as int % w as int),
                            0 <= i as int % w as int,
                            i < w * m.h,
                    ;
                }
                Point { y: i / w, x: i % w }
            } else {
                self.points_to_draw[i]
            };
            proof {
                assert(p == points[i as int]);
                if m.redraw_all {
                    vstd::arithmetic::div_mod::lemma_fundamental_div_mod(i as int, m.w as int);
                    assert(p.y * m.w + p.x == i) by (nonlinear_arith)
                        requires
                            i as int == m.w * (i as int / m.w as int) + (i as int % m.w as int),
                            p.y == i as int / m.w as int,
                            p.x == i as int % m.w as int,
                    ;
                } else {
                    assert(p.x < m.w && p.y < m.h);
                    assert(p.y * m.w + m.w <= m.h * m.w) by (nonlinear_arith)
                        requires
                            p.y < m.h,
                    ;
                    assert(m.h * m.w == m.w * m.h) by (nonlinear_arith);
                }
                lemma_draw_cells_push(m.cells, m.w, points.take(i as int), p, start);
                assert(points.take(i + 1) =~= points.take(i as int).push(p));
                if i > 0 {
                    assert(points.take(i as int).last() == points[i - 1]);
                }
            }
            if p.y != last.y || p.x != last.x + 1 {
                push_text(&mut out, goto((p.x + 1) as u16, (p.y + 1) as u16).as_str());
            }
            out.push(self.buffer[p.y * self.w + p.x]);
            proof {
                let a = head + draw_cells(m.cells, m.w, points.take(i as int), start);
                assert(out@ =~= a + draw_step(m.cells, m.w, p, last));
                assert(a + draw_step(m.cells, m.w, p, last) =~= head + (draw_cells(
                    m.cells,
                    m.w,
                    points.take(i as int),
                    start,
                ) + draw_step(m.cells, m.w, p, last)));
            }
            last = p;
            i = i + 1;
        }
        assert(points.take(n as int) =~= points);
        self.points_to_draw = Vec::new();
        self.redraw_all = false;
        self.clear_all = false;
        string_of(out.as_slice())
    }
}

/// The cells fill the grid, the damaged points are sorted, and unless the
/// whole screen is to be redrawn they lie inside the grid.
pub open spec fn screen_wf(m: ScreenModel) -> bool {
    &&& m.cells.len() == m.w * m.h
    &&& m.w * m.h <= usize::MAX
    &&& m.w <= u16::MAX
    &&& m.h <= u16::MAX
    &&& points_sorted(m.damaged)
    &&& !m.redraw_all ==> forall|i: int|
        0 <= i < m.damaged.len() ==> #[trigger] m.damaged[i].x < m.w && m.damaged[i].y < m.h
}

} // verus!
