//! Tables of timings over sizes and batches: one section for each direction and device.

use crate::figure::{err_text, figure_view, format_err, format_ms, is_less, less, ms_text, Figure, FigureView};
use crate::html::str_views;
use crate::order::{arranged, arranged_is, distinct_numbers, distinct_texts};
use crate::pages::{each, fill, filled};
use crate::text::{decimal, same_text, copy_text, texts, usize_text};
use vstd::prelude::*;

verus! {

/// One timing: where it was taken, and of what.
#[derive(Clone, Debug)]
pub struct GridCell {
    /// Empty where a table does not tell directions apart.
    pub dir: String,
    pub device: String,
    pub name: String,
    pub n_fft: usize,
    pub batch: usize,
    pub ms: Figure,
    pub max_err: Option<Figure>,
}

/// What a timing stands for.
pub struct CellView {
    pub dir: Seq<char>,
    pub device: Seq<char>,
    pub name: Seq<char>,
    pub n_fft: usize,
    pub batch: usize,
    pub ms: FigureView,
    pub max_err: Option<FigureView>,
}

impl View for GridCell {
    type V = CellView;

    open spec fn view(&self) -> CellView {
        CellView {
            dir: self.dir@,
            device: self.device@,
            name: self.name@,
            n_fft: self.n_fft,
            batch: self.batch,
            ms: self.ms@,
            max_err: figure_view(self.max_err),
        }
    }
}

/// The views of some timings.
pub open spec fn cell_views(cells: Seq<GridCell>) -> Seq<CellView> {
    cells.map_values(|c: GridCell| c@)
}

// ---------------------------------------------------------------------------
// Axes
// ---------------------------------------------------------------------------

/// Whether a timing belongs to a section.
pub open spec fn in_section(c: CellView, dir: Seq<char>, device: Seq<char>) -> bool {
    c.dir == dir && c.device == device
}

/// The sizes of the timings of a section.
pub open spec fn sizes_among(cells: Seq<CellView>, dir: Seq<char>, device: Seq<char>) -> Seq<usize>
    decreases cells.len(),
{
    if cells.len() == 0 {
        Seq::empty()
    } else {
        let head = sizes_among(cells.drop_last(), dir, device);
        if in_section(cells.last(), dir, device) {
            head.push(cells.last().n_fft)
        } else {
            head
        }
    }
}

/// The batches of the timings of a section.
pub open spec fn batches_among(
    cells: Seq<CellView>,
    dir: Seq<char>,
    device: Seq<char>,
) -> Seq<usize>
    decreases cells.len(),
{
    if cells.len() == 0 {
        Seq::empty()
    } else {
        let head = batches_among(cells.drop_last(), dir, device);
        if in_section(cells.last(), dir, device) {
            head.push(cells.last().batch)
        } else {
            head
        }
    }
}

/// The sizes of a section, ascending, each once.
pub open spec fn section_sizes(
    cells: Seq<CellView>,
    dir: Seq<char>,
    device: Seq<char>,
) -> Seq<usize> {
    arranged::<usize>(sizes_among(cells, dir, device))
}

/// The batches of a section, ascending, each once.
pub open spec fn section_batches(
    cells: Seq<CellView>,
    dir: Seq<char>,
    device: Seq<char>,
) -> Seq<usize> {
    arranged::<usize>(batches_among(cells, dir, device))
}

/// The sizes and the batches of a section, each ascending and once.
pub fn axis_values(cells: &Vec<GridCell>, dir: &str, device: &str) -> (r: (Vec<usize>, Vec<usize>))
    ensures
        r.0@ == section_sizes(cell_views(cells@), dir@, device@),
        r.1@ == section_batches(cell_views(cells@), dir@, device@),
{
    let ghost v = cell_views(cells@);
    let mut ns: Vec<usize> = Vec::new();
    let mut bs: Vec<usize> = Vec::new();
    let mut i: usize = 0;
    while i < cells.len()
        invariant
            i <= cells.len(),
            v == cell_views(cells@),
            ns@ == sizes_among(v.take(i as int), dir@, device@),
            bs@ == batches_among(v.take(i as int), dir@, device@),
        decreases cells.len() - i,
    {
        let c = &cells[i];
        assert(v.take(i + 1).drop_last() =~= v.take(i as int));
        assert(v.take(i + 1).last() == c@);
        if same_text(c.dir.as_str(), dir) && same_text(c.device.as_str(), device) {
            ns.push(c.n_fft);
            bs.push(c.batch);
        }
        i += 1;
    }
    assert(v.take(v.len() as int) =~= v);
    let ghost all_ns = ns@;
    let ghost all_bs = bs@;
    let ns = distinct_numbers(ns);
    let bs = distinct_numbers(bs);
    proof {
        arranged_is::<usize>(all_ns, ns@);
        arranged_is::<usize>(all_bs, bs@);
    }
    (ns, bs)
}

/// The directions of some timings.
pub open spec fn dirs_of(cells: Seq<CellView>) -> Seq<Seq<char>> {
    cells.map_values(|c: CellView| c.dir)
}

/// The devices of some timings.
pub open spec fn devices_of(cells: Seq<CellView>) -> Seq<Seq<char>> {
    cells.map_values(|c: CellView| c.device)
}

/// The directions of some timings, in dictionary order, each once.
pub fn distinct_dirs(cells: &Vec<GridCell>) -> (r: Vec<String>)
    ensures
        texts(r@) == arranged::<String>(dirs_of(cell_views(cells@))),
{
    let mut out: Vec<String> = Vec::new();
    let mut i: usize = 0;
    while i < cells.len()
        invariant
            i <= cells.len(),
            out.len() == i,
            forall|k: int| 0 <= k < i ==> (#[trigger] out@[k])@ == cells@[k].dir@,
        decreases cells.len() - i,
    {
        out.push(copy_text(&cells[i].dir));
        i += 1;
    }
    assert(texts(out@) =~= dirs_of(cell_views(cells@)));
    let r = distinct_texts(out);
    proof {
        arranged_is::<String>(dirs_of(cell_views(cells@)), texts(r@));
    }
    r
}

/// The devices of some timings, in dictionary order, each once.
pub fn distinct_devices(cells: &Vec<GridCell>) -> (r: Vec<String>)
    ensures
        texts(r@) == arranged::<String>(devices_of(cell_views(cells@))),
{
    let mut out: Vec<String> = Vec::new();
    let mut i: usize = 0;
    while i < cells.len()
        invariant
            i <= cells.len(),
            out.len() == i,
            forall|k: int| 0 <= k < i ==> (#[trigger] out@[k])@ == cells@[k].device@,
        decreases cells.len() - i,
    {
        out.push(copy_text(&cells[i].device));
        i += 1;
    }
    assert(texts(out@) =~= devices_of(cell_views(cells@)));
    let r = distinct_texts(out);
    proof {
        arranged_is::<String>(devices_of(cell_views(cells@)), texts(r@));
    }
    r
}

// ---------------------------------------------------------------------------
// Cells
// ---------------------------------------------------------------------------

/// Whether a timing is the one of a name at a place.
pub open spec fn cell_at(
    c: CellView,
    dir: Seq<char>,
    device: Seq<char>,
    batch: usize,
    n: usize,
    name: Seq<char>,
) -> bool {
    in_section(c, dir, device) && c.batch == batch && c.n_fft == n && c.name == name
}

/// The first timing of a name at a place.
pub open spec fn found(
    cells: Seq<CellView>,
    dir: Seq<char>,
    device: Seq<char>,
    batch: usize,
    n: usize,
    name: Seq<char>,
) -> Option<int>
    decreases cells.len(),
{
    if cells.len() == 0 {
        None
    } else {
        match found(cells.drop_last(), dir, device, batch, n, name) {
            Some(i) => Some(i),
            None => if cell_at(cells.last(), dir, device, batch, n, name) {
                Some(cells.len() - 1)
            } else {
                None
            },
        }
    }
}

proof fn lemma_found_stays(
    cells: Seq<CellView>,
    k: int,
    dir: Seq<char>,
    device: Seq<char>,
    batch: usize,
    n: usize,
    name: Seq<char>,
)
    requires
        0 <= k <= cells.len(),
        found(cells.take(k), dir, device, batch, n, name) is Some,
    ensures
        found(cells, dir, device, batch, n, name) == found(
            cells.take(k),
            dir,
            device,
            batch,
            n,
            name,
        ),
    decreases cells.len() - k,
{
    if k < cells.len() {
        assert(cells.take(k + 1).drop_last() =~= cells.take(k));
        lemma_found_stays(cells, k + 1, dir, device, batch, n, name);
    } else {
        assert(cells.take(k) =~= cells);
    }
}

/// A timing that is found is the one that was looked for.
pub proof fn found_is_there(
    cells: Seq<CellView>,
    dir: Seq<char>,
    device: Seq<char>,
    batch: usize,
    n: usize,
    name: Seq<char>,
)
    ensures
        match found(cells, dir, device, batch, n, name) {
            Some(i) => 0 <= i < cells.len() && cell_at(cells[i], dir, device, batch, n, name)
                && forall|j: int|
                0 <= j < i ==> !cell_at(#[trigger] cells[j], dir, device, batch, n, name),
            None => forall|j: int|
                0 <= j < cells.len() ==> !cell_at(
                    #[trigger] cells[j],
                    dir,
                    device,
                    batch,
                    n,
                    name,
                ),
        },
    decreases cells.len(),
{
    if cells.len() > 0 {
        let d = cells.drop_last();
        found_is_there(d, dir, device, batch, n, name);
        assert forall|j: int| 0 <= j < d.len() implies #[trigger] d[j] == cells[j] by {}
        match found(d, dir, device, batch, n, name) {
            Some(i) => {
                assert(cells[i] == d[i]);
                assert forall|j: int| 0 <= j < i implies !cell_at(
                    #[trigger] cells[j],
                    dir,
                    device,
                    batch,
                    n,
                    name,
                ) by {
                    assert(d[j] == cells[j]);
                }
            },
            None => {
                assert forall|j: int| 0 <= j < cells.len() - 1 implies !cell_at(
                    #[trigger] cells[j],
                    dir,
                    device,
                    batch,
                    n,
                    name,
                ) by {
                    assert(d[j] == cells[j]);
                }
            },
        }
    }
}

/// The first timing of a name at a place.
pub fn find_cell(
    cells: &Vec<GridCell>,
    dir: &str,
    device: &str,
    batch: usize,
    n: usize,
    name: &str,
) -> (r: Option<usize>)
    ensures
        match r {
            Some(i) => i < cells.len() && found(
                cell_views(cells@),
                dir@,
                device@,
                batch,
                n,
                name@,
            ) == Some(i as int),
            None => found(cell_views(cells@), dir@, device@, batch, n, name@) is None,
        },
{
    let ghost v = cell_views(cells@);
    let mut i: usize = 0;
    while i < cells.len()
        invariant
            i <= cells.len(),
            v == cell_views(cells@),
            found(v.take(i as int), dir@, device@, batch, n, name@) is None,
        decreases cells.len() - i,
    {
        let c = &cells[i];
        assert(v.take(i + 1).drop_last() =~= v.take(i as int));
        assert(v.take(i + 1).last() == c@);
        if same_text(c.dir.as_str(), dir) && same_text(c.device.as_str(), device) && c.batch
            == batch && c.n_fft == n && same_text(c.name.as_str(), name) {
            proof {
                lemma_found_stays(v, i + 1, dir@, device@, batch, n, name@);
            }
            return Some(i);
        }
        i += 1;
    }
    assert(v.take(v.len() as int) =~= v);
    None
}

/// The positive infinity and the negative one.
pub const HIGHEST: u64 = 0x7ff0_0000_0000_0000;

pub const LOWEST: u64 = 0xfff0_0000_0000_0000;

/// What shades a cell: the least and the greatest timing of its row in its batch, and the least
/// timing of any name at its place. Timings that are not a number are passed over.
#[derive(Clone, Copy, Debug)]
pub struct CellFacts {
    pub least: u64,
    pub greatest: u64,
    pub best: u64,
}

/// The lower of two, where both are numbers.
pub open spec fn lower(acc: u64, x: u64) -> u64 {
    if less(x, acc) {
        x
    } else {
        acc
    }
}

/// The higher of two, where both are numbers.
pub open spec fn higher(acc: u64, x: u64) -> u64 {
    if less(acc, x) {
        x
    } else {
        acc
    }
}

/// The least and the greatest timing of a name over some sizes.
pub open spec fn row_range(
    cells: Seq<CellView>,
    dir: Seq<char>,
    device: Seq<char>,
    batch: usize,
    ns: Seq<usize>,
    name: Seq<char>,
) -> (u64, u64)
    decreases ns.len(),
{
    if ns.len() == 0 {
        (HIGHEST, LOWEST)
    } else {
        let head = row_range(cells, dir, device, batch, ns.drop_last(), name);
        match found(cells, dir, device, batch, ns.last(), name) {
            Some(i) => (
                lower(head.0, cells[i].ms.bits),
                higher(head.1, cells[i].ms.bits),
            ),
            None => head,
        }
    }
}

/// The least timing of some names at a place.
pub open spec fn best_of(
    cells: Seq<CellView>,
    dir: Seq<char>,
    device: Seq<char>,
    batch: usize,
    n: usize,
    names: Seq<Seq<char>>,
) -> u64
    decreases names.len(),
{
    if names.len() == 0 {
        HIGHEST
    } else {
        let head = best_of(cells, dir, device, batch, n, names.drop_last());
        match found(cells, dir, device, batch, n, names.last()) {
            Some(i) => lower(head, cells[i].ms.bits),
            None => head,
        }
    }
}

/// What shades a cell.
pub open spec fn facts_of(cells: Seq<CellView>, names: Seq<Seq<char>>, c: CellView) -> CellFacts {
    let range = row_range(
        cells,
        c.dir,
        c.device,
        c.batch,
        section_sizes(cells, c.dir, c.device),
        c.name,
    );
    CellFacts {
        least: range.0,
        greatest: range.1,
        best: best_of(cells, c.dir, c.device, c.batch, c.n_fft, names),
    }
}

/// The least timing of some names at a place.
pub fn best_ms(
    cells: &Vec<GridCell>,
    dir: &str,
    device: &str,
    batch: usize,
    n: usize,
    names: &Vec<String>,
) -> (r: u64)
    ensures
        r == best_of(cell_views(cells@), dir@, device@, batch, n, texts(names@)),
{
    let ghost v = cell_views(cells@);
    let ghost t = texts(names@);
    let mut best: u64 = HIGHEST;
    let mut i: usize = 0;
    while i < names.len()
        invariant
            i <= names.len(),
            v == cell_views(cells@),
            t == texts(names@),
            best == best_of(v, dir@, device@, batch, n, t.take(i as int)),
        decreases names.len() - i,
    {
        assert(t.take(i + 1).drop_last() =~= t.take(i as int));
        if let Some(k) = find_cell(cells, dir, device, batch, n, names[i].as_str()) {
            let x: u64 = cells[k].ms.bits;
            assert(v[k as int].ms.bits == x);
            if is_less(x, best) {
                best = x;
            }
        }
        i += 1;
    }
    assert(t.take(t.len() as int) =~= t);
    best
}

fn range_of(
    cells: &Vec<GridCell>,
    dir: &str,
    device: &str,
    batch: usize,
    ns: &Vec<usize>,
    name: &str,
) -> (r: (u64, u64))
    ensures
        r == row_range(cell_views(cells@), dir@, device@, batch, ns@, name@),
{
    let ghost v = cell_views(cells@);
    let mut least: u64 = HIGHEST;
    let mut greatest: u64 = LOWEST;
    let mut i: usize = 0;
    while i < ns.len()
        invariant
            i <= ns.len(),
            v == cell_views(cells@),
            (least, greatest) == row_range(v, dir@, device@, batch, ns@.take(i as int), name@),
        decreases ns.len() - i,
    {
        assert(ns@.take(i + 1).drop_last() =~= ns@.take(i as int));
        if let Some(k) = find_cell(cells, dir, device, batch, ns[i], name) {
            let x: u64 = cells[k].ms.bits;
            assert(v[k as int].ms.bits == x);
            if is_less(x, least) {
                least = x;
            }
            if is_less(greatest, x) {
                greatest = x;
            }
        }
        i += 1;
    }
    assert(ns@.take(ns@.len() as int) =~= ns@);
    (least, greatest)
}

/// What shades each cell.
pub fn cell_facts(cells: &Vec<GridCell>, names: &Vec<String>) -> (r: Vec<CellFacts>)
    ensures
        r@ == cell_views(cells@).map_values(
            |c: CellView| facts_of(cell_views(cells@), texts(names@), c),
        ),
{
    let ghost v = cell_views(cells@);
    let mut out: Vec<CellFacts> = Vec::new();
    let mut i: usize = 0;
    while i < cells.len()
        invariant
            i <= cells.len(),
            v == cell_views(cells@),
            out.len() == i,
            forall|k: int|
                0 <= k < i ==> (#[trigger] out@[k]) == facts_of(v, texts(names@), v[k]),
        decreases cells.len() - i,
    {
        let c = &cells[i];
        assert(v[i as int] == c@);
        let (ns, _) = axis_values(cells, c.dir.as_str(), c.device.as_str());
        let range = range_of(
            cells,
            c.dir.as_str(),
            c.device.as_str(),
            c.batch,
            &ns,
            c.name.as_str(),
        );
        let best = best_ms(cells, c.dir.as_str(), c.device.as_str(), c.batch, c.n_fft, names);
        out.push(CellFacts { least: range.0, greatest: range.1, best });
        i += 1;
    }
    assert(out@ =~= v.map_values(|c: CellView| facts_of(v, texts(names@), c)));
    out
}

// ---------------------------------------------------------------------------
// Tables
// ---------------------------------------------------------------------------

/// How a cell is shown: its background, and whether it is the best of its place.
#[derive(Clone, Debug)]
pub struct Shade {
    pub background: String,
    pub best: bool,
}

/// What a shade stands for.
pub struct ShadeView {
    pub background: Seq<char>,
    pub best: bool,
}

impl View for Shade {
    type V = ShadeView;

    open spec fn view(&self) -> ShadeView {
        ShadeView { background: self.background@, best: self.best }
    }
}

/// The views of some shades.
pub open spec fn shade_views(v: Seq<Shade>) -> Seq<ShadeView> {
    v.map_values(|s: Shade| s@)
}

pub const HEAT_CELL: [&'static str; 5] = [
    "<td",
    " style=\"background:",
    "\">",
    "<br><span style=\"color:#8b949e;font-size:0.75rem\">err ",
    "</span></td>",
];

pub const BATCH_HEAD: [&'static str; 3] = ["<th colspan=\"", "\">batch=", "</th>"];

pub const SIZE_HEAD: [&'static str; 2] = ["<th>n=", "</th>"];

/// How a cell marks that it is the best of its place.
pub open spec fn best_mark(best: bool) -> Seq<char> {
    if best {
        " class=\"best\""@
    } else {
        ""@
    }
}

/// The cell of a name at a place.
pub open spec fn cell_markup(
    cells: Seq<CellView>,
    shades: Seq<ShadeView>,
    dir: Seq<char>,
    device: Seq<char>,
    batch: usize,
    n: usize,
    name: Seq<char>,
) -> Seq<char> {
    match found(cells, dir, device, batch, n, name) {
        Some(i) => filled(
            str_views(HEAT_CELL@),
            seq![
                best_mark(shades[i].best),
                shades[i].background,
                ms_text(cells[i].ms),
                err_text(cells[i].max_err),
            ],
        ),
        None => "<td>n/a</td>"@,
    }
}

fn show_cell(
    cells: &Vec<GridCell>,
    shades: &Vec<Shade>,
    dir: &str,
    device: &str,
    batch: usize,
    n: usize,
    name: &str,
) -> (r: String)
    requires
        shades.len() == cells.len(),
    ensures
        r@ == cell_markup(
            cell_views(cells@),
            shade_views(shades@),
            dir@,
            device@,
            batch,
            n,
            name@,
        ),
{
    match find_cell(cells, dir, device, batch, n, name) {
        Some(i) => {
            assert(cell_views(cells@)[i as int] == cells@[i as int]@);
            assert(shade_views(shades@)[i as int] == shades@[i as int]@);
            let mark = if shades[i].best {
                " class=\"best\""
            } else {
                ""
            };
            let ms = format_ms(&cells[i].ms);
            let err = format_err(&cells[i].max_err);
            let f = [mark, shades[i].background.as_str(), ms.as_str(), err.as_str()];
            assert(str_views(f@) =~= seq![
                best_mark(shades@[i as int].best),
                shades@[i as int].background@,
                ms@,
                err@,
            ]);
            fill(&HEAT_CELL, &f)
        },
        None => "<td>n/a</td>".to_owned(),
    }
}

/// The cells of a name in a batch.
pub open spec fn cells_in_batch(
    cells: Seq<CellView>,
    shades: Seq<ShadeView>,
    dir: Seq<char>,
    device: Seq<char>,
    batch: usize,
    ns: Seq<usize>,
    name: Seq<char>,
) -> spec_fn(int) -> Seq<char> {
    |i: int| cell_markup(cells, shades, dir, device, batch, ns[i], name)
}

/// The cells of a name, batch by batch.
pub open spec fn cells_in_row(
    cells: Seq<CellView>,
    shades: Seq<ShadeView>,
    dir: Seq<char>,
    device: Seq<char>,
    bs: Seq<usize>,
    ns: Seq<usize>,
    name: Seq<char>,
) -> spec_fn(int) -> Seq<char> {
    |k: int| each(ns.len(), cells_in_batch(cells, shades, dir, device, bs[k], ns, name))
}

/// The rows of a table, each with its opening.
pub open spec fn table_rows(
    cells: Seq<CellView>,
    shades: Seq<ShadeView>,
    dir: Seq<char>,
    device: Seq<char>,
    bs: Seq<usize>,
    ns: Seq<usize>,
    names: Seq<Seq<char>>,
    openings: Seq<Seq<char>>,
) -> spec_fn(int) -> Seq<char> {
    |j: int|
        openings[j] + each(
            bs.len(),
            cells_in_row(cells, shades, dir, device, bs, ns, names[j]),
        ) + "</tr>"@
}

/// The heads of the batches.
pub open spec fn batch_heads(bs: Seq<usize>, sizes: nat) -> spec_fn(int) -> Seq<char> {
    |k: int| filled(str_views(BATCH_HEAD@), seq![decimal(sizes), decimal(bs[k] as nat)])
}

/// The heads of the sizes.
pub open spec fn size_heads(ns: Seq<usize>) -> spec_fn(int) -> Seq<char> {
    |i: int| filled(str_views(SIZE_HEAD@), seq![decimal(ns[i] as nat)])
}

/// The heads of the sizes, the same for every batch.
pub open spec fn all_size_heads(ns: Seq<usize>) -> spec_fn(int) -> Seq<char> {
    |k: int| each(ns.len(), size_heads(ns))
}

/// The table of a section.
pub open spec fn section_table(
    cells: Seq<CellView>,
    shades: Seq<ShadeView>,
    dir: Seq<char>,
    device: Seq<char>,
    names: Seq<Seq<char>>,
    openings: Seq<Seq<char>>,
    head: (Seq<char>, Seq<char>),
) -> Seq<char> {
    let ns = section_sizes(cells, dir, device);
    let bs = section_batches(cells, dir, device);
    head.0 + each(bs.len(), batch_heads(bs, ns.len())) + head.1 + each(
        bs.len(),
        all_size_heads(ns),
    ) + "</tr></thead><tbody>"@ + each(
        names.len(),
        table_rows(cells, shades, dir, device, bs, ns, names, openings),
    ) + "</tbody></table>"@
}

fn show_size_heads(ns: &Vec<usize>) -> (r: String)
    ensures
        r@ == each(ns@.len(), size_heads(ns@)),
{
    let mut out = String::new();
    let mut i: usize = 0;
    assert(out@ =~= each(0, size_heads(ns@)));
    while i < ns.len()
        invariant
            i <= ns.len(),
            out@ == each(i as nat, size_heads(ns@)),
        decreases ns.len() - i,
    {
        let n = usize_text(ns[i]);
        let f = [n.as_str()];
        assert(str_views(f@) =~= seq![n@]);
        out.push_str(fill(&SIZE_HEAD, &f).as_str());
        i += 1;
    }
    out
}

fn show_row(
    cells: &Vec<GridCell>,
    shades: &Vec<Shade>,
    dir: &str,
    device: &str,
    bs: &Vec<usize>,
    ns: &Vec<usize>,
    name: &str,
) -> (r: String)
    requires
        shades.len() == cells.len(),
    ensures
        r@ == each(
            bs@.len(),
            cells_in_row(
                cell_views(cells@),
                shade_views(shades@),
                dir@,
                device@,
                bs@,
                ns@,
                name@,
            ),
        ),
{
    let ghost v = cell_views(cells@);
    let ghost s = shade_views(shades@);
    let ghost f = cells_in_row(v, s, dir@, device@, bs@, ns@, name@);
    let mut out = String::new();
    let mut k: usize = 0;
    assert(out@ =~= each(0, f));
    while k < bs.len()
        invariant
            k <= bs.len(),
            shades.len() == cells.len(),
            v == cell_views(cells@),
            s == shade_views(shades@),
            f == cells_in_row(v, s, dir@, device@, bs@, ns@, name@),
            out@ == each(k as nat, f),
        decreases bs.len() - k,
    {
        let ghost start = out@;
        let ghost g = cells_in_batch(v, s, dir@, device@, bs@[k as int], ns@, name@);
        let mut i: usize = 0;
        assert(out@ =~= start + each(0, g));
        while i < ns.len()
            invariant
                i <= ns.len(),
                k < bs.len(),
                shades.len() == cells.len(),
                v == cell_views(cells@),
                s == shade_views(shades@),
                g == cells_in_batch(v, s, dir@, device@, bs@[k as int], ns@, name@),
                out@ == start + each(i as nat, g),
            decreases ns.len() - i,
        {
            let cell = show_cell(cells, shades, dir, device, bs[k], ns[i], name);
            out.push_str(cell.as_str());
            assert(out@ =~= start + each((i + 1) as nat, g));
            i += 1;
        }
        k += 1;
    }
    out
}

/// Writes the table of a section: `openings` are the first markup of each row, `head` the markup
/// before the heads of the batches and of the sizes.
pub fn show_section(
    cells: &Vec<GridCell>,
    shades: &Vec<Shade>,
    dir: &str,
    device: &str,
    names: &Vec<String>,
    openings: &Vec<String>,
    head: (&str, &str),
) -> (r: String)
    requires
        shades.len() == cells.len(),
        openings.len() == names.len(),
    ensures
        r@ == section_table(
            cell_views(cells@),
            shade_views(shades@),
            dir@,
            device@,
            texts(names@),
            texts(openings@),
            (head.0@, head.1@),
        ),
{
    let ghost v = cell_views(cells@);
    let ghost s = shade_views(shades@);
    let (ns, bs) = axis_values(cells, dir, device);
    let sizes = usize_text(ns.len());
    let mut out = head.0.to_owned();
    let ghost heads = batch_heads(bs@, ns@.len());
    let mut k: usize = 0;
    assert(out@ =~= head.0@ + each(0, heads));
    while k < bs.len()
        invariant
            k <= bs.len(),
            sizes@ == decimal(ns@.len()),
            heads == batch_heads(bs@, ns@.len()),
            out@ == head.0@ + each(k as nat, heads),
        decreases bs.len() - k,
    {
        let b = usize_text(bs[k]);
        let f = [sizes.as_str(), b.as_str()];
        assert(str_views(f@) =~= seq![sizes@, b@]);
        out.push_str(fill(&BATCH_HEAD, &f).as_str());
        assert(out@ =~= head.0@ + each((k + 1) as nat, heads));
        k += 1;
    }
    out.push_str(head.1);
    let size_row = show_size_heads(&ns);
    let ghost start = out@;
    let ghost all = all_size_heads(ns@);
    let mut k: usize = 0;
    assert(out@ =~= start + each(0, all));
    while k < bs.len()
        invariant
            k <= bs.len(),
            all == all_size_heads(ns@),
            size_row@ == each(ns@.len(), size_heads(ns@)),
            out@ == start + each(k as nat, all),
        decreases bs.len() - k,
    {
        out.push_str(size_row.as_str());
        assert(out@ =~= start + each((k + 1) as nat, all));
        k += 1;
    }
    out.push_str("</tr></thead><tbody>");
    let ghost start = out@;
    let ghost rows = table_rows(
        v,
        s,
        dir@,
        device@,
        bs@,
        ns@,
        texts(names@),
        texts(openings@),
    );
    let mut j: usize = 0;
    assert(out@ =~= start + each(0, rows));
    while j < names.len()
        invariant
            j <= names.len(),
            openings.len() == names.len(),
            shades.len() == cells.len(),
            v == cell_views(cells@),
            s == shade_views(shades@),
            rows == table_rows(
                v,
                s,
                dir@,
                device@,
                bs@,
                ns@,
                texts(names@),
                texts(openings@),
            ),
            out@ == start + each(j as nat, rows),
        decreases names.len() - j,
    {
        out.push_str(openings[j].as_str());
        let row = show_row(cells, shades, dir, device, &bs, &ns, names[j].as_str());
        out.push_str(row.as_str());
        out.push_str("</tr>");
        assert(texts(names@)[j as int] == names@[j as int]@);
        assert(texts(openings@)[j as int] == openings@[j as int]@);
        assert(out@ =~= start + each((j + 1) as nat, rows));
        j += 1;
    }
    out.push_str("</tbody></table>");
    out
}

} // verus!
