//! The canvas document model and the grid layout generator.
//!
//! A canvas document is a collection of positioned reference nodes plus an
//! always-empty connector list. The generator lays the nodes out on a grid:
//! one row per document, one column per label, positions a pure function of
//! the row and column index and the geometry parameters.

use vstd::prelude::*;
use vstd::arithmetic::div_mod::lemma_fundamental_div_mod_converse;
use crate::ids::{spec_id, generate_id, random_u64, lemma_ids_distinct};
use crate::paths::{spec_resolve_path, spec_opt_str_view, make_relative_path};

verus! {

/// One grid cell: a positioned reference to a section of a document.
pub struct CanvasNode {
    /// Unique identifier within one generated document.
    pub id: String,
    /// Discriminant tag; always `file` for these references.
    pub node_type: String,
    /// The referenced document's path.
    pub file: String,
    /// The anchor within the document, when present.
    pub subpath: Option<String>,
    pub x: i32,
    pub y: i32,
    pub width: i32,
    pub height: i32,
}

/// A connector between nodes; reserved, never populated by the generator.
pub struct CanvasEdge {}

/// The top-level document: reference nodes plus connectors.
pub struct Canvas {
    pub nodes: Vec<CanvasNode>,
    pub edges: Vec<CanvasEdge>,
}

/// The mathematical value of one node.
#[verifier::ext_equal]
pub ghost struct NodeView {
    pub id: Seq<char>,
    pub node_type: Seq<char>,
    pub file: Seq<char>,
    pub subpath: Option<Seq<char>>,
    pub x: int,
    pub y: int,
    pub width: int,
    pub height: int,
}

/// The mathematical value of a canvas document.
#[verifier::ext_equal]
pub ghost struct CanvasView {
    pub nodes: Seq<NodeView>,
    pub edges: Seq<CanvasEdge>,
}

impl View for CanvasNode {
    type V = NodeView;

    open spec fn view(&self) -> NodeView {
        NodeView {
            id: self.id@,
            node_type: self.node_type@,
            file: self.file@,
            subpath: match self.subpath {
                Some(s) => Some(s@),
                None => None,
            },
            x: self.x as int,
            y: self.y as int,
            width: self.width as int,
            height: self.height as int,
        }
    }
}

impl View for Canvas {
    type V = CanvasView;

    open spec fn view(&self) -> CanvasView {
        CanvasView {
            nodes: Seq::new(self.nodes@.len(), |k: int| self.nodes@[k]@),
            edges: self.edges@,
        }
    }
}

/// A column label normalized to anchor syntax: it keeps a leading `#`
/// sentinel if it already has one, and gains exactly one otherwise.
pub open spec fn spec_normalize_heading(h: Seq<char>) -> Seq<char> {
    if h.len() > 0 && h[0] == '#' {
        h
    } else {
        seq!['#'] + h
    }
}

/// Normalize a column label to anchor syntax: prepend the `#` sentinel
/// unless the label already starts with it.
pub fn normalize_heading(heading: &str) -> (r: String)
    ensures
        r@ == spec_normalize_heading(heading@),
{
    let n = heading.unicode_len();
    if n > 0 && heading.get_char(0) == '#' {
        heading.to_owned()
    } else {
        let mut s = String::from_str("#");
        proof {
            reveal_strlit("#");
        }
        s.append(heading);
        proof {
            assert(s@ =~= seq!['#'] + heading@);
        }
        s
    }
}

/// The x-coordinate of column `i`.
pub open spec fn spec_grid_x(i: int, width: i32, spacing_x: i32) -> int {
    i * (width + spacing_x)
}

/// The y-coordinate of row `j`.
pub open spec fn spec_grid_y(j: int, height: i32, spacing_y: i32) -> int {
    j * (height + spacing_y)
}

/// Every coordinate of a `rows × cols` grid stays within `i32`.
pub open spec fn spec_geometry_fits(
    rows: int,
    cols: int,
    width: i32,
    height: i32,
    spacing_x: i32,
    spacing_y: i32,
) -> bool {
    &&& forall|i: int| 0 <= i < cols ==> i32::MIN <= #[trigger] spec_grid_x(i, width, spacing_x)
        <= i32::MAX
    &&& forall|j: int| 0 <= j < rows ==> i32::MIN <= #[trigger] spec_grid_y(j, height, spacing_y)
        <= i32::MAX
}

/// The node at flat position `k` of the grid, row-major: row `k / cols`,
/// column `k % cols`.
pub open spec fn spec_grid_node(
    files: Seq<Seq<char>>,
    headings: Seq<Seq<char>>,
    width: i32,
    height: i32,
    spacing_x: i32,
    spacing_y: i32,
    base: Option<Seq<char>>,
    seed: u64,
    k: int,
) -> NodeView {
    let cols = headings.len() as int;
    let j = k / cols;
    let i = k % cols;
    NodeView {
        id: spec_id(seed, k),
        node_type: "file"@,
        file: spec_resolve_path(files[j], base),
        subpath: Some(spec_normalize_heading(headings[i])),
        x: spec_grid_x(i, width, spacing_x),
        y: spec_grid_y(j, height, spacing_y),
        width: width as int,
        height: height as int,
    }
}

/// The full canvas a run produces: one node per (document, label) pair in
/// row-major order, and no connectors.
pub open spec fn spec_generate(
    files: Seq<Seq<char>>,
    headings: Seq<Seq<char>>,
    width: i32,
    height: i32,
    spacing_x: i32,
    spacing_y: i32,
    base: Option<Seq<char>>,
    seed: u64,
) -> CanvasView {
    CanvasView {
        nodes: Seq::new(
            files.len() * headings.len(),
            |k: int|
                spec_grid_node(
                    files,
                    headings,
                    width,
                    height,
                    spacing_x,
                    spacing_y,
                    base,
                    seed,
                    k,
                ),
        ),
        edges: Seq::<CanvasEdge>::empty(),
    }
}

/// The x-coordinates of the columns: column `i` at `i * (width + spacing_x)`.
fn column_positions(cols: usize, width: i32, spacing_x: i32) -> (xs: Vec<i32>)
    requires
        forall|i: int| 0 <= i < cols ==> i32::MIN <= #[trigger] spec_grid_x(i, width, spacing_x)
            <= i32::MAX,
    ensures
        xs@.len() == cols,
        forall|i: int| 0 <= i < cols ==> xs@[i] as int == #[trigger] spec_grid_x(
            i,
            width,
            spacing_x,
        ),
{
    let mut xs: Vec<i32> = Vec::new();
    let mut current_x: i32 = 0;
    let mut i: usize = 0;
    while i < cols
        invariant
            i <= cols,
            xs@.len() == i,
            forall|t: int| 0 <= t < i ==> xs@[t] as int == #[trigger] spec_grid_x(
                t,
                width,
                spacing_x,
            ),
            i < cols ==> current_x as int == spec_grid_x(i as int, width, spacing_x),
            forall|t: int| 0 <= t < cols ==> i32::MIN <= #[trigger] spec_grid_x(t, width, spacing_x)
                <= i32::MAX,
        decreases cols - i,
    {
        xs.push(current_x);
        i += 1;
        if i < cols {
            proof {
                assert(spec_grid_x(1, width, spacing_x) == width + spacing_x);
                assert(spec_grid_x(i as int, width, spacing_x) == spec_grid_x(
                    i as int - 1,
                    width,
                    spacing_x,
                ) + (width + spacing_x)) by (nonlinear_arith);
            }
            current_x = current_x + (width + spacing_x);
        }
    }
    xs
}

/// Generate the canvas for `files` rows and `headings` columns with a given
/// identifier seed: the result is a pure function of the arguments.
pub fn generate_canvas_seeded(
    files: &Vec<String>,
    headings: &Vec<String>,
    width: i32,
    height: i32,
    spacing_x: i32,
    spacing_y: i32,
    base_path: Option<&str>,
    seed: u64,
) -> (r: Canvas)
    requires
        files@.len() * headings@.len() <= usize::MAX,
        spec_geometry_fits(
            files@.len() as int,
            headings@.len() as int,
            width,
            height,
            spacing_x,
            spacing_y,
        ),
    ensures
        r@ == spec_generate(
            files.deep_view(),
            headings.deep_view(),
            width,
            height,
            spacing_x,
            spacing_y,
            spec_opt_str_view(base_path),
            seed,
        ),
{
    let rows = files.len();
    let cols = headings.len();
    let ghost gspec = spec_generate(
        files.deep_view(),
        headings.deep_view(),
        width,
        height,
        spacing_x,
        spacing_y,
        spec_opt_str_view(base_path),
        seed,
    );
    let xs = column_positions(cols, width, spacing_x);
    let mut nodes: Vec<CanvasNode> = Vec::new();
    let mut counter: u64 = 0;
    let mut current_y: i32 = 0;
    let mut j: usize = 0;
    while j < rows
        invariant
            j <= rows,
            rows == files@.len(),
            cols == headings@.len(),
            rows * cols <= usize::MAX,
            spec_geometry_fits(rows as int, cols as int, width, height, spacing_x, spacing_y),
            xs@.len() == cols,
            forall|t: int| 0 <= t < cols ==> xs@[t] as int == #[trigger] spec_grid_x(
                t,
                width,
                spacing_x,
            ),
            nodes@.len() == j * cols,
            counter as int == j * cols,
            j < rows ==> current_y as int == spec_grid_y(j as int, height, spacing_y),
            gspec == spec_generate(
                files.deep_view(),
                headings.deep_view(),
                width,
                height,
                spacing_x,
                spacing_y,
                spec_opt_str_view(base_path),
                seed,
            ),
            forall|k: int| 0 <= k < j * cols ==> #[trigger] nodes@[k]@ == gspec.nodes[k],
        decreases rows - j,
    {
        let mut i: usize = 0;
        proof {
            assert(j * cols + cols == (j + 1) * cols) by (nonlinear_arith);
            assert((j + 1) * cols <= rows * cols) by (nonlinear_arith)
                requires
                    j + 1 <= rows,
                    cols >= 0,
            ;
        }
        while i < cols
            invariant
                i <= cols,
                j < rows,
                rows == files@.len(),
                cols == headings@.len(),
                rows * cols <= usize::MAX,
                j * cols + cols <= rows * cols,
                spec_geometry_fits(rows as int, cols as int, width, height, spacing_x, spacing_y),
                xs@.len() == cols,
                forall|t: int| 0 <= t < cols ==> xs@[t] as int == #[trigger] spec_grid_x(
                    t,
                    width,
                    spacing_x,
                ),
                nodes@.len() == j * cols + i,
                counter as int == j * cols + i,
                current_y as int == spec_grid_y(j as int, height, spacing_y),
                gspec == spec_generate(
                    files.deep_view(),
                    headings.deep_view(),
                    width,
                    height,
                    spacing_x,
                    spacing_y,
                    spec_opt_str_view(base_path),
                    seed,
                ),
                forall|k: int| 0 <= k < j * cols + i ==> #[trigger] nodes@[k]@ == gspec.nodes[k],
            decreases cols - i,
        {
            let ghost k = j * cols + i;
            proof {
                lemma_fundamental_div_mod_converse(k as int, cols as int, j as int, i as int);
                assert(usize::MAX <= u64::MAX);
            }
            let heading_norm = normalize_heading(headings[i].as_str());
            let file_str = make_relative_path(files[j].as_str(), base_path);
            let id = generate_id(seed, counter);
            let node = CanvasNode {
                id,
                node_type: String::from_str("file"),
                file: file_str,
                subpath: Some(heading_norm),
                x: xs[i],
                y: current_y,
                width,
                height,
            };
            proof {
                assert(files.deep_view()[j as int] == files@[j as int]@);
                assert(headings.deep_view()[i as int] == headings@[i as int]@);
                assert(node@ =~= gspec.nodes[k as int]);
            }
            nodes.push(node);
            counter = counter + 1;
            i += 1;
        }
        j += 1;
        if j < rows {
            proof {
                assert(spec_grid_y(1, height, spacing_y) == height + spacing_y);
                assert(spec_grid_y(j as int, height, spacing_y) == spec_grid_y(
                    j as int - 1,
                    height,
                    spacing_y,
                ) + (height + spacing_y)) by (nonlinear_arith);
            }
            current_y = current_y + (height + spacing_y);
        }
    }
    let canvas = Canvas { nodes, edges: Vec::new() };
    proof {
        assert(rows * cols == files.deep_view().len() * headings.deep_view().len());
        assert(canvas@.nodes =~= gspec.nodes);
        assert(canvas@.edges =~= gspec.edges);
        assert(canvas@ =~= gspec);
    }
    canvas
}

/// Generate the canvas for `files` rows and `headings` columns, drawing a
/// fresh random identifier seed. Positions, paths and anchors are a pure
/// function of the inputs; the identifiers depend on the seed alone, and
/// are pairwise distinct.
pub fn generate_canvas(
    files: &Vec<String>,
    headings: &Vec<String>,
    width: i32,
    height: i32,
    spacing_x: i32,
    spacing_y: i32,
    base_path: Option<&str>,
) -> (r: Canvas)
    requires
        files@.len() * headings@.len() <= usize::MAX,
        spec_geometry_fits(
            files@.len() as int,
            headings@.len() as int,
            width,
            height,
            spacing_x,
            spacing_y,
        ),
    ensures
        exists|seed: u64|
            r@ == spec_generate(
                files.deep_view(),
                headings.deep_view(),
                width,
                height,
                spacing_x,
                spacing_y,
                spec_opt_str_view(base_path),
                seed,
            ),
        r@.nodes.len() == files@.len() * headings@.len(),
        r@.edges.len() == 0,
        forall|k1: int, k2: int|
            0 <= k1 < r@.nodes.len() && 0 <= k2 < r@.nodes.len() && k1 != k2 ==> r@.nodes[k1].id
                != r@.nodes[k2].id,
{
    let seed = random_u64();
    let r = generate_canvas_seeded(
        files,
        headings,
        width,
        height,
        spacing_x,
        spacing_y,
        base_path,
        seed,
    );
    proof {
        let gspec = spec_generate(
            files.deep_view(),
            headings.deep_view(),
            width,
            height,
            spacing_x,
            spacing_y,
            spec_opt_str_view(base_path),
            seed,
        );
        assert(r@ == gspec);
        assert(usize::MAX <= u64::MAX);
        assert forall|k1: int, k2: int|
            0 <= k1 < r@.nodes.len() && 0 <= k2 < r@.nodes.len() && k1 != k2 implies r@.nodes[k1].id
            != r@.nodes[k2].id by {
            lemma_ids_distinct(seed, k1, k2);
        }
    }
    r
}

/// The generator produces exactly `rows × columns` references, never more,
/// never fewer, and never any connector.
pub proof fn lemma_grid_size(
    files: Seq<Seq<char>>,
    headings: Seq<Seq<char>>,
    width: i32,
    height: i32,
    spacing_x: i32,
    spacing_y: i32,
    base: Option<Seq<char>>,
    seed: u64,
)
    ensures
        spec_generate(files, headings, width, height, spacing_x, spacing_y, base, seed).nodes.len()
            == files.len() * headings.len(),
        spec_generate(files, headings, width, height, spacing_x, spacing_y, base, seed).edges.len()
            == 0,
{
}

/// Identifiers are pairwise distinct within a single invocation, whenever
/// the grid is small enough to exist in memory.
pub proof fn lemma_ids_pairwise_distinct(
    files: Seq<Seq<char>>,
    headings: Seq<Seq<char>>,
    width: i32,
    height: i32,
    spacing_x: i32,
    spacing_y: i32,
    base: Option<Seq<char>>,
    seed: u64,
    k1: int,
    k2: int,
)
    requires
        files.len() * headings.len() <= u64::MAX,
        0 <= k1 < files.len() * headings.len(),
        0 <= k2 < files.len() * headings.len(),
        k1 != k2,
    ensures
        spec_generate(files, headings, width, height, spacing_x, spacing_y, base, seed).nodes[k1].id
            != spec_generate(
            files,
            headings,
            width,
            height,
            spacing_x,
            spacing_y,
            base,
            seed,
        ).nodes[k2].id,
{
    lemma_ids_distinct(seed, k1, k2);
}

/// The cell of row `j` and column `i` sits at
/// `(i × (width + spacing_x), j × (height + spacing_y))`: its x-coordinate
/// does not depend on the row, its y-coordinate does not depend on the
/// column, and its extent is the node width and height.
pub proof fn lemma_grid_positions(
    files: Seq<Seq<char>>,
    headings: Seq<Seq<char>>,
    width: i32,
    height: i32,
    spacing_x: i32,
    spacing_y: i32,
    base: Option<Seq<char>>,
    seed: u64,
    j: int,
    i: int,
)
    requires
        0 <= j < files.len(),
        0 <= i < headings.len(),
    ensures
        spec_generate(
            files,
            headings,
            width,
            height,
            spacing_x,
            spacing_y,
            base,
            seed,
        ).nodes[j * headings.len() + i].x == i * (width + spacing_x),
        spec_generate(
            files,
            headings,
            width,
            height,
            spacing_x,
            spacing_y,
            base,
            seed,
        ).nodes[j * headings.len() + i].y == j * (height + spacing_y),
        spec_generate(
            files,
            headings,
            width,
            height,
            spacing_x,
            spacing_y,
            base,
            seed,
        ).nodes[j * headings.len() + i].width == width as int,
        spec_generate(
            files,
            headings,
            width,
            height,
            spacing_x,
            spacing_y,
            base,
            seed,
        ).nodes[j * headings.len() + i].height == height as int,
{
    let cols = headings.len() as int;
    let k = j * cols + i;
    lemma_fundamental_div_mod_converse(k, cols, j, i);
    assert(0 <= k < files.len() * headings.len()) by (nonlinear_arith)
        requires
            0 <= j < files.len(),
            0 <= i < cols,
            cols == headings.len(),
            k == j * cols + i,
    ;
}

/// Every normalized label begins with the anchor sentinel; one already
/// bearing the sentinel is unchanged; one lacking it gains exactly one
/// prepended sentinel character.
pub proof fn lemma_normalize_heading(h: Seq<char>)
    ensures
        spec_normalize_heading(h).len() > 0,
        spec_normalize_heading(h)[0] == '#',
        (h.len() > 0 && h[0] == '#') ==> spec_normalize_heading(h) == h,
        !(h.len() > 0 && h[0] == '#') ==> spec_normalize_heading(h) == seq!['#'] + h,
{
}

} // verus!
