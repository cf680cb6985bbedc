use vstd::multiset::Multiset;
use vstd::prelude::*;

verus! {

/// Position of cell `(row, col)` in the row-major list of cells.
pub open spec fn slot(width: int, row: int, col: int) -> int {
    row * width + col
}

/// A raw cell coordinate, already non-negative, capped to the last cell of its axis.
pub open spec fn clamp_to(raw: int, len: int) -> int {
    if raw < len {
        raw
    } else {
        len - 1
    }
}

/// The contents of cell `(row, col)`, or nothing where that cell lies off the grid.
pub open spec fn opt_cell(cells: Seq<Seq<usize>>, height: int, width: int, row: int, col: int) -> Seq<
    usize,
> {
    if 0 <= row < height && 0 <= col < width {
        cells[slot(width, row, col)]
    } else {
        Seq::empty()
    }
}

/// The three cells of column `col` around `row`, top to bottom.
pub open spec fn column_part(
    cells: Seq<Seq<usize>>,
    height: int,
    width: int,
    row: int,
    col: int,
) -> Seq<usize> {
    opt_cell(cells, height, width, row - 1, col) + opt_cell(cells, height, width, row, col)
        + opt_cell(cells, height, width, row + 1, col)
}

/// The 3x3 block of cells centred on `(row, col)`, scanned column by column.
pub open spec fn neighbourhood(
    cells: Seq<Seq<usize>>,
    height: int,
    width: int,
    row: int,
    col: int,
) -> Seq<usize> {
    column_part(cells, height, width, row, col - 1) + column_part(cells, height, width, row, col)
        + column_part(cells, height, width, row, col + 1)
}

/// All members of all cells, in row-major scan order.
pub open spec fn concat(cells: Seq<Seq<usize>>) -> Seq<usize>
    decreases cells.len(),
{
    if cells.len() == 0 {
        Seq::empty()
    } else {
        concat(cells.drop_last()) + cells.last()
    }
}

/// The row of the cell that body `id` belongs in, from the raw cell coordinates
/// `(row, col)` computed from its position.
pub open spec fn home_row(raw: Seq<(usize, usize)>, height: int, id: usize) -> int {
    clamp_to(raw[id as int].0 as int, height)
}

/// The column of the cell that body `id` belongs in.
pub open spec fn home_col(raw: Seq<(usize, usize)>, width: int, id: usize) -> int {
    clamp_to(raw[id as int].1 as int, width)
}

/// The slot of the cell that body `id` belongs in.
pub open spec fn home_slot(raw: Seq<(usize, usize)>, height: int, width: int, id: usize) -> int {
    slot(width, home_row(raw, height, id), home_col(raw, width, id))
}

/// The members of `s` whose home slot is `target`, in their order in `s`.
pub open spec fn select(
    s: Seq<usize>,
    raw: Seq<(usize, usize)>,
    height: int,
    width: int,
    target: int,
) -> Seq<usize>
    decreases s.len(),
{
    if s.len() == 0 {
        Seq::empty()
    } else {
        let rest = select(s.drop_last(), raw, height, width, target);
        if home_slot(raw, height, width, s.last()) == target {
            rest.push(s.last())
        } else {
            rest
        }
    }
}

/// The grid after re-bucketing: each cell holds, in scan order, the bodies whose home it is.
pub open spec fn rebucketed(
    cells: Seq<Seq<usize>>,
    raw: Seq<(usize, usize)>,
    height: int,
    width: int,
) -> Seq<Seq<usize>> {
    Seq::new(cells.len(), |i: int| select(concat(cells), raw, height, width, i))
}

/// A cell on the grid has its slot inside the row-major list.
pub proof fn lemma_slot_in_grid(height: int, width: int, row: int, col: int)
    requires
        0 <= row < height,
        0 <= col < width,
    ensures
        0 <= slot(width, row, col) < height * width,
{
    assert(0 <= row * width + col < height * width) by (nonlinear_arith)
        requires
            0 <= row < height,
            0 <= col < width,
    ;
}

/// `base + j - 1` where it lies in `[0, len)`.
fn shifted(base: usize, j: usize, len: u32) -> (r: Option<usize>)
    requires
        j <= 2,
    ensures
        r == (if 0 <= base + j - 1 < len {
            Some((base + j - 1) as usize)
        } else {
            None::<usize>
        }),
{
    let len = len as usize;
    if j == 0 {
        if base == 0 || base > len {
            None
        } else {
            Some(base - 1)
        }
    } else if j == 1 {
        if base < len {
            Some(base)
        } else {
            None
        }
    } else {
        if base < len && base + 1 < len {
            Some(base + 1)
        } else {
            None
        }
    }
}

/// Every member of `select(s, .., target)` is a member of `s` whose home slot is `target`.
pub proof fn lemma_select_members(
    s: Seq<usize>,
    raw: Seq<(usize, usize)>,
    height: int,
    width: int,
    target: int,
)
    ensures
        forall|k: int|
            0 <= k < select(s, raw, height, width, target).len() ==> {
                let id = #[trigger] select(s, raw, height, width, target)[k];
                s.contains(id) && home_slot(raw, height, width, id) == target
            },
    decreases s.len(),
{
    if s.len() > 0 {
        lemma_select_members(s.drop_last(), raw, height, width, target);
        let rest = select(s.drop_last(), raw, height, width, target);
        assert forall|k: int| 0 <= k < rest.len() implies s.contains(#[trigger] rest[k]) by {
            let j = choose|j: int| 0 <= j < s.drop_last().len() && s.drop_last()[j] == rest[k];
            assert(s[j] == rest[k]);
        }
        assert(s[s.len() - 1] == s.last());
    }
}

/// Every member of `s` whose home slot is `target` is a member of `select(s, .., target)`.
pub proof fn lemma_select_keeps(
    s: Seq<usize>,
    raw: Seq<(usize, usize)>,
    height: int,
    width: int,
    id: usize,
)
    requires
        s.contains(id),
    ensures
        select(s, raw, height, width, home_slot(raw, height, width, id)).contains(id),
    decreases s.len(),
{
    let target = home_slot(raw, height, width, id);
    let sel = select(s, raw, height, width, target);
    if s.last() == id {
        assert(sel[sel.len() - 1] == id);
    } else {
        let j = choose|j: int| 0 <= j < s.len() && s[j] == id;
        assert(s.drop_last()[j] == id);
        lemma_select_keeps(s.drop_last(), raw, height, width, id);
        let rest = select(s.drop_last(), raw, height, width, target);
        let k = choose|k: int| 0 <= k < rest.len() && rest[k] == id;
        assert(sel[k] == id);
    }
}

/// A fixed `width x height` grid of cells, each holding the indices of the bodies in it.
pub struct CellMatrix {
    width: u32,
    height: u32,
    cell_size: u32,
    cells: Vec<Vec<usize>>,
}

impl View for CellMatrix {
    type V = Seq<Seq<usize>>;

    /// The cells in row-major order: cell `(row, col)` is at `slot(width, row, col)`.
    closed spec fn view(&self) -> Seq<Seq<usize>> {
        self.cells@.map_values(|c: Vec<usize>| c@)
    }
}

impl CellMatrix {
    pub closed spec fn width_spec(&self) -> int {
        self.width as int
    }

    pub closed spec fn height_spec(&self) -> int {
        self.height as int
    }

    pub closed spec fn cell_size_spec(&self) -> int {
        self.cell_size as int
    }

    pub open spec fn wf(&self) -> bool {
        &&& self.height_spec() >= 0
        &&& self.width_spec() >= 0
        &&& self@.len() == self.height_spec() * self.width_spec()
    }

    /// Every member of every cell is an index below `n`.
    pub open spec fn members_below(&self, n: int) -> bool {
        forall|i: int, k: int| 0 <= i < self@.len() && 0 <= k < self@[i].len() ==> self@[i][k] < n
    }

    pub fn new(width: u32, height: u32, cell_size: u32) -> (r: Self)
        requires
            width as int * height as int <= usize::MAX,
        ensures
            r.wf(),
            r.width_spec() == width,
            r.height_spec() == height,
            r.cell_size_spec() == cell_size,
            forall|i: int| 0 <= i < r@.len() ==> r@[i].len() == 0,
    {
        let n: usize = (width as usize) * (height as usize);
        let mut cells: Vec<Vec<usize>> = Vec::new();
        let mut i: usize = 0;
        while i < n
            invariant
                i <= n,
                cells@.len() == i,
                forall|j: int| 0 <= j < i ==> cells@[j]@.len() == 0,
            decreases n - i,
        {
            cells.push(Vec::new());
            i += 1;
        }
        let r = CellMatrix { width, height, cell_size, cells };
        assert(r@.len() == n);
        proof {
            assert(n == height as int * width as int) by (nonlinear_arith)
                requires
                    n == width as int * height as int,
            ;
        }
        r
    }

    pub fn get_width(&self) -> (r: u32)
        ensures
            r == self.width_spec(),
    {
        self.width
    }

    pub fn get_height(&self) -> (r: u32)
        ensures
            r == self.height_spec(),
    {
        self.height
    }

    pub fn get_cell_size(&self) -> (r: u32)
        ensures
            r == self.cell_size_spec(),
    {
        self.cell_size
    }
    /// The slot of cell `(row, col)`.
    fn slot_of(&self, row: usize, col: usize) -> (r: usize)
        requires
            self.wf(),
            row < self.height_spec(),
            col < self.width_spec(),
        ensures
            r == slot(self.width_spec(), row as int, col as int),
            r < self@.len(),
    {
        let n = self.cells.len();
        proof {
            lemma_slot_in_grid(self.height_spec(), self.width_spec(), row as int, col as int);
            assert(self@.len() == n);
        }
        row * (self.width as usize) + col
    }

    /// The cell that raw coordinates `(raw_row, raw_col)` fall in, each capped to the grid.
    pub fn cell_of(&self, raw_row: usize, raw_col: usize) -> (r: (usize, usize))
        requires
            self.height_spec() > 0,
            self.width_spec() > 0,
        ensures
            r.0 == clamp_to(raw_row as int, self.height_spec()),
            r.1 == clamp_to(raw_col as int, self.width_spec()),
            r.0 < self.height_spec(),
            r.1 < self.width_spec(),
    {
        let h = self.height as usize;
        let w = self.width as usize;
        let row = if raw_row < h {
            raw_row
        } else {
            h - 1
        };
        let col = if raw_col < w {
            raw_col
        } else {
            w - 1
        };
        (row, col)
    }

    /// Appends body `obj` to cell `(row, col)`.
    pub fn add_object_to_cell(&mut self, row: usize, col: usize, obj: usize)
        requires
            old(self).wf(),
            row < old(self).height_spec(),
            col < old(self).width_spec(),
        ensures
            final(self).wf(),
            final(self).width_spec() == old(self).width_spec(),
            final(self).height_spec() == old(self).height_spec(),
            final(self).cell_size_spec() == old(self).cell_size_spec(),
            final(self)@ == old(self)@.update(
                slot(old(self).width_spec(), row as int, col as int),
                old(self)@[slot(old(self).width_spec(), row as int, col as int)].push(obj),
            ),
    {
        let i = self.slot_of(row, col);
        self.cells[i].push(obj);
        assert(self@ =~= old(self)@.update(i as int, old(self)@[i as int].push(obj)));
    }

    /// A copy of the members of cell `(row, col)`.
    pub fn get_objects_in_cell(&self, row: usize, col: usize) -> (r: Vec<usize>)
        requires
            self.wf(),
            row < self.height_spec(),
            col < self.width_spec(),
        ensures
            r@ == self@[slot(self.width_spec(), row as int, col as int)],
    {
        let i = self.slot_of(row, col);
        self.cells[i].clone()
    }
    /// Appends the members of cell `(row + i - 1, col + j - 1)`, if it is on the grid.
    fn append_cell(&self, ans: &mut Vec<usize>, row: usize, col: usize, i: usize, j: usize)
        requires
            self.wf(),
            i <= 2,
            j <= 2,
        ensures
            final(ans)@ == old(ans)@ + opt_cell(
                self@,
                self.height_spec(),
                self.width_spec(),
                row + i - 1,
                col + j - 1,
            ),
    {
        let r = shifted(row, i, self.height);
        let c = shifted(col, j, self.width);
        match (r, c) {
            (Some(r), Some(c)) => {
                let mut members = self.get_objects_in_cell(r, c);
                ans.append(&mut members);
            },
            _ => {
                assert(old(ans)@ + Seq::<usize>::empty() =~= old(ans)@);
            },
        }
    }

    /// Appends the three cells of column `col + j - 1` around `row`, top to bottom.
    fn append_column(&self, ans: &mut Vec<usize>, row: usize, col: usize, j: usize)
        requires
            self.wf(),
            j <= 2,
        ensures
            final(ans)@ == old(ans)@ + column_part(
                self@,
                self.height_spec(),
                self.width_spec(),
                row as int,
                col + j - 1,
            ),
    {
        self.append_cell(ans, row, col, 0, j);
        self.append_cell(ans, row, col, 1, j);
        self.append_cell(ans, row, col, 2, j);
        assert(ans@ =~= old(ans)@ + column_part(
            self@,
            self.height_spec(),
            self.width_spec(),
            row as int,
            col + j - 1,
        ));
    }

    /// The members of the 3x3 block of cells centred on `(row, col)`, the centre included:
    /// columns left to right, each column top to bottom, cells off the grid left out.
    pub fn get_objects_in_neighbouring_cells(&self, row: usize, col: usize) -> (r: Vec<usize>)
        requires
            self.wf(),
        ensures
            r@ == neighbourhood(
                self@,
                self.height_spec(),
                self.width_spec(),
                row as int,
                col as int,
            ),
    {
        let mut ans: Vec<usize> = Vec::new();
        self.append_column(&mut ans, row, col, 0);
        self.append_column(&mut ans, row, col, 1);
        self.append_column(&mut ans, row, col, 2);
        assert(ans@ =~= neighbourhood(
            self@,
            self.height_spec(),
            self.width_spec(),
            row as int,
            col as int,
        ));
        ans
    }
    /// All members of all cells, in row-major scan order.
    fn collect_members(&self, n: usize) -> (r: Vec<usize>)
        requires
            self.members_below(n as int),
        ensures
            r@ == concat(self@),
            forall|k: int| 0 <= k < r@.len() ==> r@[k] < n,
    {
        let mut out: Vec<usize> = Vec::new();
        let mut i: usize = 0;
        while i < self.cells.len()
            invariant
                self.members_below(n as int),
                i <= self@.len(),
                self@.len() == self.cells@.len(),
                out@ == concat(self@.take(i as int)),
                forall|k: int| 0 <= k < out@.len() ==> out@[k] < n,
            decreases self.cells@.len() - i,
        {
            let mut members = self.cells[i].clone();
            proof {
                assert(members@ == self@[i as int]);
                assert(self@.take(i + 1).drop_last() =~= self@.take(i as int));
            }
            out.append(&mut members);
            i += 1;
        }
        assert(self@.take(i as int) =~= self@);
        out
    }

    /// Moves every body whose home cell changed to its home cell.
    ///
    /// `raw_cells[id]` holds the cell coordinates `(row, col)` computed from the position of
    /// body `id`, before capping to the grid. Afterwards every cell holds, in row-major scan
    /// order of the grid before the call, exactly the bodies whose home it is.
    pub fn update_positions(&mut self, raw_cells: &Vec<(usize, usize)>)
        requires
            old(self).wf(),
            old(self).members_below(raw_cells@.len() as int),
        ensures
            final(self).wf(),
            final(self).width_spec() == old(self).width_spec(),
            final(self).height_spec() == old(self).height_spec(),
            final(self).cell_size_spec() == old(self).cell_size_spec(),
            final(self)@ == rebucketed(
                old(self)@,
                raw_cells@,
                old(self).height_spec(),
                old(self).width_spec(),
            ),
            final(self).members_below(raw_cells@.len() as int),
    {
        let ghost h = self.height_spec();
        let ghost w = self.width_spec();
        let ghost raw = raw_cells@;
        let flat = self.collect_members(raw_cells.len());
        let n = self.cells.len();
        let mut fresh: Vec<Vec<usize>> = Vec::new();
        let mut i: usize = 0;
        while i < n
            invariant
                i <= n,
                fresh@.len() == i,
                forall|j: int| 0 <= j < i ==> fresh@[j]@.len() == 0,
            decreases n - i,
        {
            fresh.push(Vec::new());
            i += 1;
        }
        assert(self@.len() == n);
        if n == 0 {
            assert(self@ =~= Seq::<Seq<usize>>::empty());
            assert(flat@.len() == 0);
        }
        let mut k: usize = 0;
        while k < flat.len()
            invariant
                self.wf(),
                h == self.height_spec(),
                w == self.width_spec(),
                raw == raw_cells@,
                self@.len() == n,
                fresh@.len() == n,
                k <= flat@.len(),
                flat@.len() > 0 ==> n > 0,
                forall|j: int| 0 <= j < flat@.len() ==> flat@[j] < raw_cells@.len(),
                forall|t: int|
                    0 <= t < n ==> #[trigger] fresh@[t]@ == select(
                        flat@.take(k as int),
                        raw,
                        h,
                        w,
                        t,
                    ),
            decreases flat@.len() - k,
        {
            let id = flat[k];
            proof {
                assert(h > 0 && w > 0) by (nonlinear_arith)
                    requires
                        h * w > 0,
                        h >= 0,
                        w >= 0,
                ;
            }
            let (raw_row, raw_col) = raw_cells[id];
            let (r, c) = self.cell_of(raw_row, raw_col);
            let target = self.slot_of(r, c);
            assert(target == home_slot(raw, h, w, id));
            let ghost before = fresh@;
            fresh[target].push(id);
            proof {
                assert(flat@.take(k + 1).drop_last() =~= flat@.take(k as int));
                assert(flat@.take(k + 1).last() == id);
                assert forall|t: int| 0 <= t < n implies #[trigger] fresh@[t]@ == select(
                    flat@.take(k + 1),
                    raw,
                    h,
                    w,
                    t,
                ) by {
                    if t != target {
                        assert(fresh@[t] == before[t]);
                    }
                }
            }
            k += 1;
        }
        self.cells = fresh;
        proof {
            assert(flat@.take(k as int) =~= flat@);
            assert(self@ =~= rebucketed(old(self)@, raw, h, w));
            assert forall|t: int, j: int|
                0 <= t < self@.len() && 0 <= j < self@[t].len() implies self@[t][j]
                < raw.len() by {
                lemma_select_members(flat@, raw, h, w, t);
                assert(select(flat@, raw, h, w, t)[j] == self@[t][j]);
                let m = choose|m: int| 0 <= m < flat@.len() && flat@[m] == self@[t][j];
            }
        }
    }
}

/// Two cells on the grid with the same slot are the same cell.
pub proof fn lemma_slot_injective(width: int, r1: int, c1: int, r2: int, c2: int)
    requires
        0 <= c1 < width,
        0 <= c2 < width,
        0 <= r1,
        0 <= r2,
        slot(width, r1, c1) == slot(width, r2, c2),
    ensures
        r1 == r2,
        c1 == c2,
{
    if r1 < r2 {
        assert(r1 * width + width <= r2 * width) by (nonlinear_arith)
            requires
                r1 < r2,
                width > 0,
        ;
    } else if r2 < r1 {
        assert(r2 * width + width <= r1 * width) by (nonlinear_arith)
            requires
                r2 < r1,
                width > 0,
        ;
    }
}

/// A member of a concatenation is a member of one of its parts.
pub proof fn lemma_contains_add(a: Seq<usize>, b: Seq<usize>, id: usize)
    ensures
        (a + b).contains(id) <==> a.contains(id) || b.contains(id),
{
    if (a + b).contains(id) {
        let j = choose|j: int| 0 <= j < (a + b).len() && (a + b)[j] == id;
        if j >= a.len() {
            assert(b[j - a.len()] == id);
        }
    }
    if a.contains(id) {
        let j = choose|j: int| 0 <= j < a.len() && a[j] == id;
        assert((a + b)[j] == id);
    }
    if b.contains(id) {
        let j = choose|j: int| 0 <= j < b.len() && b[j] == id;
        assert((a + b)[a.len() + j] == id);
    }
}

/// Every member of every cell is a member of the scan-order concatenation.
pub proof fn lemma_concat_contains(cells: Seq<Seq<usize>>, i: int, k: int)
    requires
        0 <= i < cells.len(),
        0 <= k < cells[i].len(),
    ensures
        concat(cells).contains(cells[i][k]),
    decreases cells.len(),
{
    let id = cells[i][k];
    if i == cells.len() - 1 {
        assert(cells.last()[k] == id);
        lemma_contains_add(concat(cells.drop_last()), cells.last(), id);
        assert(cells.last().contains(id));
    } else {
        assert(cells.drop_last()[i] == cells[i]);
        lemma_concat_contains(cells.drop_last(), i, k);
        lemma_contains_add(concat(cells.drop_last()), cells.last(), id);
    }
}

/// Re-bucketing leaves every body in the cell computed from its position: each member of
/// a cell afterwards has that cell as its home, and each body held anywhere before is held
/// in its home cell afterwards. Since the grid afterwards meets the first clause again,
/// this holds after any number of re-bucketings.
pub proof fn lemma_rebucket_consistent(
    cells: Seq<Seq<usize>>,
    raw: Seq<(usize, usize)>,
    height: int,
    width: int,
)
    requires
        height >= 0,
        width >= 0,
        cells.len() == height * width,
        forall|i: int, k: int|
            0 <= i < cells.len() && 0 <= k < cells[i].len() ==> cells[i][k] < raw.len(),
    ensures
        forall|i: int, k: int|
            0 <= i < rebucketed(cells, raw, height, width).len() && 0 <= k < rebucketed(
                cells,
                raw,
                height,
                width,
            )[i].len() ==> home_slot(raw, height, width, rebucketed(cells, raw, height, width)[i][k])
                == i,
        forall|i: int, k: int|
            0 <= i < cells.len() && 0 <= k < cells[i].len() ==> {
                let h = home_slot(raw, height, width, #[trigger] cells[i][k]);
                &&& 0 <= h < cells.len()
                &&& rebucketed(cells, raw, height, width)[h].contains(cells[i][k])
            },
{
    let g = rebucketed(cells, raw, height, width);
    assert forall|i: int, k: int| 0 <= i < g.len() && 0 <= k < g[i].len() implies home_slot(
        raw,
        height,
        width,
        g[i][k],
    ) == i by {
        lemma_select_members(concat(cells), raw, height, width, i);
        assert(g[i][k] == select(concat(cells), raw, height, width, i)[k]);
    }
    assert forall|i: int, k: int| 0 <= i < cells.len() && 0 <= k < cells[i].len() implies {
        let h = home_slot(raw, height, width, #[trigger] cells[i][k]);
        &&& 0 <= h < cells.len()
        &&& g[h].contains(cells[i][k])
    } by {
        let id = cells[i][k];
        assert(height > 0 && width > 0) by (nonlinear_arith)
            requires
                cells.len() == height * width,
                0 <= i < cells.len(),
                height >= 0,
                width >= 0,
        ;
        lemma_slot_in_grid(height, width, home_row(raw, height, id), home_col(raw, width, id));
        lemma_concat_contains(cells, i, k);
        lemma_select_keeps(concat(cells), raw, height, width, id);
    }
}

/// A body is in the neighbourhood of `(row, col)` exactly when it is held by one of the
/// cells on the grid within one row and one column of `(row, col)`.
pub proof fn lemma_neighbourhood_cells(
    cells: Seq<Seq<usize>>,
    height: int,
    width: int,
    row: int,
    col: int,
    id: usize,
)
    ensures
        neighbourhood(cells, height, width, row, col).contains(id) <==> exists|r: int, c: int|
            row - 1 <= r <= row + 1 && col - 1 <= c <= col + 1 && #[trigger] opt_cell(
                cells,
                height,
                width,
                r,
                c,
            ).contains(id),
{
    let part = |c: int| column_part(cells, height, width, row, c);
    let cell = |r: int, c: int| opt_cell(cells, height, width, r, c);
    assert forall|c: int| #[trigger] part(c).contains(id) <==> (cell(row - 1, c).contains(id)
        || cell(row, c).contains(id) || cell(row + 1, c).contains(id)) by {
        lemma_contains_add(cell(row - 1, c), cell(row, c), id);
        lemma_contains_add(cell(row - 1, c) + cell(row, c), cell(row + 1, c), id);
    }
    lemma_contains_add(part(col - 1), part(col), id);
    lemma_contains_add(part(col - 1) + part(col), part(col + 1), id);
    if exists|r: int, c: int|
        row - 1 <= r <= row + 1 && col - 1 <= c <= col + 1 && #[trigger] opt_cell(
            cells,
            height,
            width,
            r,
            c,
        ).contains(id) {
        let (r, c) = choose|r: int, c: int|
            row - 1 <= r <= row + 1 && col - 1 <= c <= col + 1 && #[trigger] opt_cell(
                cells,
                height,
                width,
                r,
                c,
            ).contains(id);
        assert(part(c).contains(id));
    }
}

/// On a grid where every body sits in its home cell, the neighbourhood of `(row, col)`
/// holds every body of the grid whose home cell lies within one row and one column of
/// `(row, col)`, and no other.
pub proof fn lemma_neighbourhood_complete(
    cells: Seq<Seq<usize>>,
    raw: Seq<(usize, usize)>,
    height: int,
    width: int,
    row: int,
    col: int,
    i: int,
    k: int,
)
    requires
        height >= 0,
        width >= 0,
        cells.len() == height * width,
        forall|j: int, m: int|
            0 <= j < cells.len() && 0 <= m < cells[j].len() ==> cells[j][m] < raw.len(),
        forall|j: int, m: int|
            0 <= j < cells.len() && 0 <= m < cells[j].len() ==> home_slot(
                raw,
                height,
                width,
                #[trigger] cells[j][m],
            ) == j,
        0 <= i < cells.len(),
        0 <= k < cells[i].len(),
    ensures
        neighbourhood(cells, height, width, row, col).contains(cells[i][k]) <==> {
            let id = cells[i][k];
            &&& row - 1 <= home_row(raw, height, id) <= row + 1
            &&& col - 1 <= home_col(raw, width, id) <= col + 1
        },
        forall|id: usize|
            #![trigger neighbourhood(cells, height, width, row, col).contains(id)]
            neighbourhood(cells, height, width, row, col).contains(id) ==> exists|j: int|
                0 <= j < cells.len() && cells[j].contains(id),
{
    let id = cells[i][k];
    let hr = home_row(raw, height, id);
    let hc = home_col(raw, width, id);
    assert(height > 0 && width > 0) by (nonlinear_arith)
        requires
            cells.len() == height * width,
            0 <= i < cells.len(),
            height >= 0,
            width >= 0,
    ;
    lemma_neighbourhood_cells(cells, height, width, row, col, id);
    if neighbourhood(cells, height, width, row, col).contains(id) {
        let (r, c) = choose|r: int, c: int|
            row - 1 <= r <= row + 1 && col - 1 <= c <= col + 1 && #[trigger] opt_cell(
                cells,
                height,
                width,
                r,
                c,
            ).contains(id);
        lemma_slot_in_grid(height, width, r, c);
        let m = choose|m: int|
            0 <= m < cells[slot(width, r, c)].len() && cells[slot(width, r, c)][m] == id;
        assert(home_slot(raw, height, width, cells[slot(width, r, c)][m]) == slot(width, r, c));
        lemma_slot_injective(width, hr, hc, r, c);
    }
    if row - 1 <= hr <= row + 1 && col - 1 <= hc <= col + 1 {
        assert(cells[i][k] == id);
        assert(home_slot(raw, height, width, cells[i][k]) == i);
        lemma_slot_in_grid(height, width, hr, hc);
        assert(opt_cell(cells, height, width, hr, hc).contains(id));
    }
    assert forall|x: usize|
        #![trigger neighbourhood(cells, height, width, row, col).contains(x)]
        neighbourhood(cells, height, width, row, col).contains(x) implies exists|j: int|
            0 <= j < cells.len() && cells[j].contains(x) by {
        lemma_neighbourhood_cells(cells, height, width, row, col, x);
        let (r, c) = choose|r: int, c: int|
            row - 1 <= r <= row + 1 && col - 1 <= c <= col + 1 && #[trigger] opt_cell(
                cells,
                height,
                width,
                r,
                c,
            ).contains(x);
        lemma_slot_in_grid(height, width, r, c);
        assert(cells[slot(width, r, c)].contains(x));
    }
}

/// Selecting from a concatenation selects from each part.
pub proof fn lemma_select_add(
    a: Seq<usize>,
    b: Seq<usize>,
    raw: Seq<(usize, usize)>,
    height: int,
    width: int,
    target: int,
)
    ensures
        select(a + b, raw, height, width, target) == select(a, raw, height, width, target)
            + select(b, raw, height, width, target),
    decreases b.len(),
{
    if b.len() == 0 {
        assert(a + b =~= a);
        assert(select(a, raw, height, width, target) + Seq::<usize>::empty() =~= select(
            a,
            raw,
            height,
            width,
            target,
        ));
    } else {
        lemma_select_add(a, b.drop_last(), raw, height, width, target);
        assert((a + b).drop_last() =~= a + b.drop_last());
        assert((a + b).last() == b.last());
        let sa = select(a, raw, height, width, target);
        let sb = select(b.drop_last(), raw, height, width, target);
        assert((sa + sb).push(b.last()) =~= sa + sb.push(b.last()));
    }
}

/// A cell whose members all have slot `home` keeps them all when selecting for `home`,
/// and none when selecting for another slot.
pub proof fn lemma_select_settled(
    s: Seq<usize>,
    raw: Seq<(usize, usize)>,
    height: int,
    width: int,
    home: int,
    target: int,
)
    requires
        forall|k: int| 0 <= k < s.len() ==> home_slot(raw, height, width, #[trigger] s[k]) == home,
    ensures
        select(s, raw, height, width, target) == (if target == home {
            s
        } else {
            Seq::<usize>::empty()
        }),
    decreases s.len(),
{
    if s.len() > 0 {
        assert forall|k: int| 0 <= k < s.drop_last().len() implies home_slot(
            raw,
            height,
            width,
            #[trigger] s.drop_last()[k],
        ) == home by {
            assert(s.drop_last()[k] == s[k]);
        }
        lemma_select_settled(s.drop_last(), raw, height, width, home, target);
        assert(s.last() == s[s.len() - 1]);
        if target == home {
            assert(s.drop_last().push(s.last()) =~= s);
        }
    }
}

/// Re-bucketing a grid on which every body already sits in its home cell changes
/// nothing, so re-bucketing again without any body moving keeps the grid as it is.
pub proof fn lemma_rebucket_settled(
    cells: Seq<Seq<usize>>,
    raw: Seq<(usize, usize)>,
    height: int,
    width: int,
)
    requires
        forall|i: int, k: int|
            0 <= i < cells.len() && 0 <= k < cells[i].len() ==> home_slot(
                raw,
                height,
                width,
                #[trigger] cells[i][k],
            ) == i,
    ensures
        rebucketed(cells, raw, height, width) == cells,
{
    assert forall|n: int, t: int| 0 <= n <= cells.len() && 0 <= t < cells.len() implies #[trigger] select(
        concat(#[trigger] cells.take(n)),
        raw,
        height,
        width,
        t,
    ) == (if t < n {
        cells[t]
    } else {
        Seq::<usize>::empty()
    }) by {
        lemma_select_prefix(cells, raw, height, width, n, t);
    }
    assert(cells.take(cells.len() as int) =~= cells);
    assert(rebucketed(cells, raw, height, width) =~= cells);
}

proof fn lemma_select_prefix(
    cells: Seq<Seq<usize>>,
    raw: Seq<(usize, usize)>,
    height: int,
    width: int,
    n: int,
    t: int,
)
    requires
        forall|i: int, k: int|
            0 <= i < cells.len() && 0 <= k < cells[i].len() ==> home_slot(
                raw,
                height,
                width,
                #[trigger] cells[i][k],
            ) == i,
        0 <= n <= cells.len(),
        0 <= t,
    ensures
        select(concat(cells.take(n)), raw, height, width, t) == (if t < n {
            cells[t]
        } else {
            Seq::<usize>::empty()
        }),
    decreases n,
{
    if n == 0 {
        assert(cells.take(0) =~= Seq::<Seq<usize>>::empty());
    } else {
        lemma_select_prefix(cells, raw, height, width, n - 1, t);
        assert(cells.take(n).drop_last() =~= cells.take(n - 1));
        assert(cells.take(n).last() == cells[n - 1]);
        lemma_select_add(concat(cells.take(n - 1)), cells[n - 1], raw, height, width, t);
        assert forall|k: int| 0 <= k < cells[n - 1].len() implies home_slot(
            raw,
            height,
            width,
            #[trigger] cells[n - 1][k],
        ) == n - 1 by {}
        lemma_select_settled(cells[n - 1], raw, height, width, n - 1, t);
        if t < n - 1 {
            assert(cells[t] + Seq::<usize>::empty() =~= cells[t]);
        } else if t == n - 1 {
            assert(Seq::<usize>::empty() + cells[t] =~= cells[t]);
        } else {
            assert(Seq::<usize>::empty() + Seq::<usize>::empty() =~= Seq::<usize>::empty());
        }
    }
}

/// Selecting for the home slot of `id` keeps every copy of `id`.
pub proof fn lemma_select_count(
    s: Seq<usize>,
    raw: Seq<(usize, usize)>,
    height: int,
    width: int,
    id: usize,
)
    ensures
        select(s, raw, height, width, home_slot(raw, height, width, id)).to_multiset().count(id)
            == s.to_multiset().count(id),
    decreases s.len(),
{
    broadcast use vstd::seq_lib::group_to_multiset_ensures;

    let target = home_slot(raw, height, width, id);
    if s.len() == 0 {
        assert(s.to_multiset() =~= Multiset::empty());
        assert(select(s, raw, height, width, target).to_multiset() =~= Multiset::empty());
    } else {
        lemma_select_count(s.drop_last(), raw, height, width, id);
        assert(s.drop_last().push(s.last()) =~= s);
    }
}

/// Re-bucketing neither loses nor duplicates a body: afterwards its home cell holds it
/// exactly as many times as the whole grid held it before, and no other cell holds it.
pub proof fn lemma_rebucket_keeps_counts(
    cells: Seq<Seq<usize>>,
    raw: Seq<(usize, usize)>,
    height: int,
    width: int,
    id: usize,
)
    requires
        height > 0,
        width > 0,
        cells.len() == height * width,
        id < raw.len(),
    ensures
        0 <= home_slot(raw, height, width, id) < cells.len(),
        rebucketed(cells, raw, height, width)[home_slot(raw, height, width, id)].to_multiset().count(
            id,
        ) == concat(cells).to_multiset().count(id),
        forall|t: int|
            0 <= t < cells.len() && t != home_slot(raw, height, width, id) ==> !(#[trigger] rebucketed(
                cells,
                raw,
                height,
                width,
            )[t]).contains(id),
{
    lemma_slot_in_grid(height, width, home_row(raw, height, id), home_col(raw, width, id));
    lemma_select_count(concat(cells), raw, height, width, id);
    assert forall|t: int|
        0 <= t < cells.len() && t != home_slot(raw, height, width, id) implies !(#[trigger] rebucketed(
        cells,
        raw,
        height,
        width,
    )[t]).contains(id) by {
        lemma_select_members(concat(cells), raw, height, width, t);
    }
}

} // verus!
