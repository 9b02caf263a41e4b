//! The data that the library takes and gives.
use vstd::prelude::*;
use crate::fixed::COORD_MAX;
use crate::plane::Plane;

verus! {

/// One entry of an array layout: identifier, whether it is a reference
/// spot, and its signed row and column. The sign marks the orientation; the
/// magnitude is the index in the lattice.
pub type LayoutEntry = (String, bool, i32, i32);

/// A single spot on the array. Positions and the diameter are in millionths of
/// a pixel, offsets in millionths of the pitch, the rotation in millionths of
/// a degree.
#[derive(Debug, Clone)]
pub struct Spot {
    pub id: String,
    pub row: i32,
    pub col: i32,
    pub is_reference: bool,
    pub x_offset: i64,
    pub y_offset: i64,
    pub x_fixed: i64,
    pub y_fixed: i64,
    pub grid_x: i64,
    pub grid_y: i64,
    pub diameter: i64,
    pub is_manual: bool,
    pub is_bad: bool,
    pub is_empty: bool,
    pub rotation: i64,
}

impl Spot {
    /// Position and diameter are of a size that the library computes with.
    pub open spec fn wf(&self) -> bool {
        &&& -COORD_MAX <= self.grid_x <= COORD_MAX
        &&& -COORD_MAX <= self.grid_y <= COORD_MAX
        &&& -COORD_MAX <= self.x_fixed <= COORD_MAX
        &&& -COORD_MAX <= self.y_fixed <= COORD_MAX
        &&& 0 <= self.diameter <= COORD_MAX
    }

    /// Whether position and diameter are of a size that the library computes
    /// with.
    pub fn fits(&self) -> (ok: bool)
        ensures
            ok == self.wf(),
    {
        -COORD_MAX <= self.grid_x && self.grid_x <= COORD_MAX && -COORD_MAX <= self.grid_y
            && self.grid_y <= COORD_MAX && -COORD_MAX <= self.x_fixed && self.x_fixed <= COORD_MAX
            && -COORD_MAX <= self.y_fixed && self.y_fixed <= COORD_MAX && 0 <= self.diameter
            && self.diameter <= COORD_MAX
    }

    /// Whether the spot is pinned to a position given from outside.
    pub open spec fn is_pinned(&self) -> bool {
        self.x_fixed != 0 && self.y_fixed != 0
    }
}

/// One row of the result table.
#[derive(Debug, Clone)]
pub struct SpotResult {
    pub group_id: String,
    pub spot_id: String,
    pub is_reference: bool,
    pub row: i32,
    pub col: i32,
    pub x_fixed: i64,
    pub y_fixed: i64,
    pub grid_x: i64,
    pub grid_y: i64,
    pub diameter: i64,
    pub is_manual: i32,
    pub is_bad: i32,
    pub is_empty: i32,
    pub rotation: i64,
    pub image_name: String,
}

/// The samples of a camera frame, held in an `ndarray::Array2<u16>`.
#[verifier::external_body]
pub struct PixelGrid {
    cells: ndarray::Array2<u16>,
}

/// The rows of a frame, top to bottom, each left to right.
pub uninterp spec fn pixel_rows(grid: PixelGrid) -> Seq<Seq<u16>>;

/// Whether `ndarray` makes an array of `height` rows and `width` columns: the
/// product of the axis lengths that are not zero must not exceed `isize::MAX`.
pub open spec fn shape_fits(height: int, width: int) -> bool {
    if height == 0 && width == 0 {
        true
    } else if height == 0 {
        width <= isize::MAX
    } else if width == 0 {
        height <= isize::MAX
    } else {
        height * width <= isize::MAX
    }
}

/// `ndarray::Array2::from_shape_vec` with the shape `(height, width)`: the
/// array whose row `y` is `cells[y * width .. (y + 1) * width]`, made exactly
/// when `cells` has `height * width` elements and the shape is one that
/// `ndarray` accepts.
#[verifier::external_body]
fn array_from_shape_vec(height: usize, width: usize, cells: Vec<u16>) -> (grid: Option<PixelGrid>)
    ensures
        grid.is_some() <==> (cells@.len() == height * width && shape_fits(
            height as int,
            width as int,
        )),
        grid matches Some(g) ==> {
            &&& pixel_rows(g).len() == height
            &&& forall|y: int| 0 <= y < height ==> (#[trigger] pixel_rows(g)[y]).len() == width
            &&& forall|y: int, x: int|
                0 <= y < height && 0 <= x < width ==> #[trigger] pixel_rows(g)[y][x] == cells@[y
                    * width + x]
        },
{
    match ndarray::Array2::from_shape_vec((height, width), cells) {
        Ok(cells) => Some(PixelGrid { cells }),
        Err(_) => None,
    }
}

/// `ndarray::ArrayBase::dim`: the number of rows and of columns. Every row
/// has that many columns, and the shape is one that `ndarray` accepts (it
/// keeps the product of the axis lengths that are not zero within
/// `isize::MAX` in every array).
#[verifier::external_body]
fn array_dim(grid: &PixelGrid) -> (d: (usize, usize))
    ensures
        d.0 == pixel_rows(*grid).len(),
        forall|y: int| 0 <= y < d.0 ==> (#[trigger] pixel_rows(*grid)[y]).len() == d.1,
        shape_fits(d.0 as int, d.1 as int),
{
    grid.cells.dim()
}

/// `ndarray`'s indexing by `[y, x]`, which panics outside the array.
#[verifier::external_body]
fn array_get(grid: &PixelGrid, y: usize, x: usize) -> (v: u16)
    requires
        y < pixel_rows(*grid).len(),
        x < pixel_rows(*grid)[y as int].len(),
    ensures
        v == pixel_rows(*grid)[y as int][x as int],
{
    grid.cells[[y, x]]
}

impl PixelGrid {
    pub open spec fn rows(&self) -> Seq<Seq<u16>> {
        pixel_rows(*self)
    }

    /// The sample of row `y` and column `x`.
    pub open spec fn at(&self, y: int, x: int) -> u16 {
        self.rows()[y][x]
    }

    /// Whether the frame has `height` rows of `width` samples, a shape that a
    /// frame can have.
    pub open spec fn has_shape(&self, height: int, width: int) -> bool {
        &&& self.rows().len() == height
        &&& forall|y: int| 0 <= y < height ==> (#[trigger] self.rows()[y]).len() == width
        &&& shape_fits(height, width)
    }

    /// The frame of `height` rows and `width` columns whose samples are
    /// `cells`, row by row; `None` where `cells` does not hold `height * width`
    /// samples or the shape is none that a frame can have.
    pub fn from_shape_vec(height: usize, width: usize, cells: Vec<u16>) -> (grid: Option<PixelGrid>)
        ensures
            grid.is_some() <==> (cells@.len() == height * width && shape_fits(
                height as int,
                width as int,
            )),
            grid matches Some(g) ==> {
                &&& g.has_shape(height as int, width as int)
                &&& forall|y: int, x: int|
                    0 <= y < height && 0 <= x < width ==> #[trigger] g.at(y, x) == cells@[y * width
                        + x]
            },
    {
        array_from_shape_vec(height, width, cells)
    }

    /// The number of rows and of columns.
    pub fn dim(&self) -> (d: (usize, usize))
        ensures
            self.has_shape(d.0 as int, d.1 as int),
    {
        array_dim(self)
    }

    /// The sample of row `y` and column `x`.
    pub fn get(&self, y: usize, x: usize) -> (v: u16)
        requires
            y < self.rows().len(),
            x < self.rows()[y as int].len(),
        ensures
            v == self.at(y as int, x as int),
    {
        array_get(self, y, x)
    }
}

/// Longest side of a frame that the library works on, in pixels.
pub const SIDE_MAX: usize = 1_000_000;

/// A camera frame with its size and name.
pub struct ImageData {
    pub data: PixelGrid,
    pub width: usize,
    pub height: usize,
    pub name: String,
}

impl ImageData {
    /// `width` and `height` are those of `data`.
    pub open spec fn wf(&self) -> bool {
        self.data.has_shape(self.height as int, self.width as int)
    }

    /// The frame is of a size that the library works on.
    pub open spec fn within_limits(&self) -> bool {
        self.height <= SIDE_MAX && self.width <= SIDE_MAX
    }

    /// Whether the frame is of a size that the library works on.
    pub fn fits(&self) -> (ok: bool)
        ensures
            ok == self.within_limits(),
    {
        self.height <= SIDE_MAX && self.width <= SIDE_MAX
    }

    pub open spec fn inside(&self, y: int, x: int) -> bool {
        0 <= y < self.height && 0 <= x < self.width
    }

    /// The sample of row `y` and column `x`.
    pub open spec fn at(&self, y: int, x: int) -> u16 {
        self.data.at(y, x)
    }

    pub fn new(data: PixelGrid, name: String) -> (image: ImageData)
        ensures
            image.wf(),
            image.data == data,
            image.name == name,
    {
        let (height, width) = data.dim();
        ImageData { data, width, height, name }
    }

    pub fn get(&self, y: usize, x: usize) -> (v: u16)
        requires
            self.wf(),
            self.inside(y as int, x as int),
        ensures
            v == self.at(y as int, x as int),
    {
        self.data.get(y, x)
    }

    /// The samples of the frame as a raster of the library.
    pub fn samples(&self) -> (plane: Plane<u16>)
        requires
            self.wf(),
        ensures
            plane.wf(),
            plane.height == self.height,
            plane.width == self.width,
            forall|y: int, x: int| self.inside(y, x) ==> #[trigger] plane.at(y, x) == self.at(y, x),
    {
        if self.height == 0 || self.width == 0 {
            assert(self.height * self.width == 0) by (nonlinear_arith)
                requires
                    self.height == 0 || self.width == 0,
            ;
            return Plane { height: self.height, width: self.width, cells: Vec::new() };
        }
        let mut plane: Plane<u16> = Plane::filled(self.height, self.width, 0);
        let mut y: usize = 0;
        while y < self.height
            invariant
                self.wf(),
                y <= self.height,
                plane.wf(),
                plane.height == self.height,
                plane.width == self.width,
                forall|v: int, u: int|
                    self.inside(v, u) && v < y ==> #[trigger] plane.at(v, u) == self.at(v, u),
            decreases self.height - y,
        {
            let mut x: usize = 0;
            while x < self.width
                invariant
                    self.wf(),
                    y < self.height,
                    x <= self.width,
                    plane.wf(),
                    plane.height == self.height,
                    plane.width == self.width,
                    forall|v: int, u: int|
                        self.inside(v, u) && (v < y || (v == y && u < x)) ==> #[trigger] plane.at(
                            v,
                            u,
                        ) == self.at(v, u),
                decreases self.width - x,
            {
                plane.set(y, x, self.get(y, x));
                x += 1;
            }
            y += 1;
        }
        plane
    }

    /// A copy of the frame under the same name.
    pub fn duplicate(&self) -> (copy: ImageData)
        requires
            self.wf(),
        ensures
            copy.wf(),
            copy.data.rows() == self.data.rows(),
            copy.width == self.width,
            copy.height == self.height,
            copy.name == self.name,
    {
        let samples = self.samples();
        let ghost cells = samples.cells@;
        let data = PixelGrid::from_shape_vec(self.height, self.width, samples.cells).unwrap();
        proof {
            assert forall|y: int| 0 <= y < self.height implies #[trigger] data.rows()[y]
                == self.data.rows()[y] by {
                assert forall|x: int| 0 <= x < self.width implies #[trigger] data.rows()[y][x]
                    == self.data.rows()[y][x] by {
                    assert(data.at(y, x) == cells[y * self.width + x]);
                    assert(samples.at(y, x) == self.at(y, x));
                    assert(crate::plane::cell_index(self.width as int, y, x) == y * self.width + x);
                }
                assert(data.rows()[y] =~= self.data.rows()[y]);
            }
            assert(data.rows() =~= self.data.rows());
        }
        ImageData { data, width: self.width, height: self.height, name: self.name.clone() }
    }
}

/// Camera model, told apart by the frame size it delivers.
#[derive(Debug, Clone, Copy, PartialEq, Eq, Structural)]
pub enum ImageType {
    /// 552 x 413
    Evolve3,
    /// 697 x 520
    Evolve2,
    Unknown,
}

impl ImageType {
    pub open spec fn of_size(width: int, height: int) -> ImageType {
        if width == 552 && height == 413 {
            ImageType::Evolve3
        } else if width == 697 && height == 520 {
            ImageType::Evolve2
        } else {
            ImageType::Unknown
        }
    }

    pub fn detect(width: usize, height: usize) -> (kind: ImageType)
        ensures
            kind == Self::of_size(width as int, height as int),
    {
        if width == 552 && height == 413 {
            ImageType::Evolve3
        } else if width == 697 && height == 520 {
            ImageType::Evolve2
        } else {
            ImageType::Unknown
        }
    }

    /// The pitch of the spots on a frame of this camera, in millionths of a
    /// pixel: 17 pixels for `Evolve3`, 21.5 for `Evolve2`.
    pub fn default_spot_pitch(&self) -> (pitch: Option<i64>)
        ensures
            *self == ImageType::Evolve3 ==> pitch == Some(17_000_000i64),
            *self == ImageType::Evolve2 ==> pitch == Some(21_500_000i64),
            *self == ImageType::Unknown ==> pitch.is_none(),
    {
        match self {
            ImageType::Evolve3 => Some(17_000_000),
            ImageType::Evolve2 => Some(21_500_000),
            ImageType::Unknown => None,
        }
    }
}

/// The camera that took a frame, told by the size of the frame.
pub fn detect_image_type(image: &ImageData) -> (kind: ImageType)
    ensures
        kind == ImageType::of_size(image.width as int, image.height as int),
{
    ImageType::detect(image.width, image.height)
}

/// Configuration for a single image group.
#[derive(Debug, Clone)]
pub struct GroupConfig {
    pub group_id: String,
    pub min_diameter: i64,
    pub max_diameter: i64,
    pub edge_sensitivity: Vec<i64>,
    pub series_mode: i32,
    pub show_viewer: i32,
    pub spot_pitch: i64,
    pub spot_size: i64,
    pub rotation: Vec<crate::fixed::Rotation>,
    pub saturation_limit: i64,
    pub seg_method: String,
    pub use_image: String,
    pub pg_mode: String,
    pub debug_show: i32,
    pub array_layout_file: String,
    pub images_list: Vec<String>,
}

/// Batch processing configuration.
#[derive(Debug, Clone)]
pub struct BatchConfig {
    pub mode: String,
    pub num_workers: usize,
    pub progress_file: String,
    pub output_file: String,
    pub image_groups: Vec<GroupConfig>,
}

} // verus!
