//! Frames: rectangular buffers of blue-green-red pixels, and the pixel
//! work that is done on them.

use vstd::prelude::*;

verus! {

/// A pixel in the layout of the pipeline: blue, green, red.
#[derive(Clone, Copy, Debug, PartialEq, Eq, Structural)]
pub struct Bgr {
    pub b: u8,
    pub g: u8,
    pub r: u8,
}

/// A rectangle of pixels: its top left corner and its extent.
#[derive(Clone, Copy, Debug, PartialEq, Eq, Structural)]
pub struct Rect {
    pub x: i32,
    pub y: i32,
    pub width: i32,
    pub height: i32,
}

impl Rect {
    /// Whether the pixel (`px`, `py`) lies on the one pixel wide outline of
    /// this rectangle. A rectangle without extent has no outline.
    pub open spec fn on_outline(&self, px: int, py: int) -> bool {
        &&& self.width > 0
        &&& self.height > 0
        &&& self.x <= px <= self.x + self.width - 1
        &&& self.y <= py <= self.y + self.height - 1
        &&& (px == self.x || px == self.x + self.width - 1 || py == self.y || py == self.y
            + self.height - 1)
    }

    /// Whether this rectangle lies within a frame of `cols` by `rows`
    /// pixels.
    pub open spec fn within(&self, cols: nat, rows: nat) -> bool {
        &&& 0 <= self.x
        &&& 0 <= self.width
        &&& self.x + self.width <= cols
        &&& 0 <= self.y
        &&& 0 <= self.height
        &&& self.y + self.height <= rows
    }
}

/// Where the pixel (`x`, `y`) starts in a buffer that packs the rows of a
/// frame `cols` wide one after another, `stride` bytes to the pixel.
pub open spec fn packed_index(cols: nat, x: int, y: int, stride: nat) -> int {
    (y * cols + x) * stride
}

/// The pixel whose blue, green and red bytes start at `at` in `data`.
pub open spec fn packed_pixel(data: Seq<u8>, at: int) -> Bgr {
    Bgr { b: data[at], g: data[at + 1], r: data[at + 2] }
}

/// The pixels of a packed buffer lie one `stride` apart, row after row, and
/// within the buffer.
pub proof fn lemma_packed_index(cols: nat, rows: nat, x: int, y: int, stride: nat)
    requires
        0 <= x < cols,
        0 <= y < rows,
    ensures
        0 <= packed_index(cols, x, y, stride),
        packed_index(cols, x, y, stride) + stride <= cols * rows * stride,
        packed_index(cols, x + 1, y, stride) == packed_index(cols, x, y, stride) + stride,
        packed_index(cols, 0, y + 1, stride) == packed_index(cols, cols as int, y, stride),
{
    assert(0 <= (y * cols + x) * stride) by (nonlinear_arith)
        requires
            0 <= x,
            0 <= y,
    ;
    assert((y * cols + x) * stride + stride <= cols * rows * stride) by (nonlinear_arith)
        requires
            0 <= x < cols,
            0 <= y < rows,
    ;
    assert((y * cols + (x + 1)) * stride == (y * cols + x) * stride + stride)
        by (nonlinear_arith);
    assert(((y + 1) * cols + 0) * stride == (y * cols + cols) * stride) by (nonlinear_arith);
}

/// A frame: rows of pixels, all of one width.
#[derive(Debug, PartialEq, Eq)]
pub struct Frame {
    width: usize,
    rows: Vec<Vec<Bgr>>,
}

/// What a frame holds: the width of its rows, and its rows from top to
/// bottom, each from left to right.
pub struct FrameData {
    pub cols: nat,
    pub rows: Seq<Seq<Bgr>>,
}

impl FrameData {
    /// Whether every row is as wide as the frame.
    pub open spec fn is_rectangular(self) -> bool {
        forall|y: int| 0 <= y < self.rows.len() ==> (#[trigger] self.rows[y]).len() == self.cols
    }

    /// Whether the frame holds no pixel.
    pub open spec fn is_blank(self) -> bool {
        self.rows.len() == 0 || self.cols == 0
    }
}

/// A frame after the outline of `rect` was drawn on it in `color`: the
/// pixels on the outline have that colour, the others are the same, and
/// what lies outside the frame is left out.
pub open spec fn drawn(frame: FrameData, rect: Rect, color: Bgr) -> FrameData {
    FrameData {
        cols: frame.cols,
        rows: Seq::new(
            frame.rows.len(),
            |y: int|
                Seq::new(
                    frame.rows[y].len(),
                    |x: int|
                        if rect.on_outline(x, y) {
                            color
                        } else {
                            frame.rows[y][x]
                        },
                ),
        ),
    }
}

/// The part of a frame that `rect` bounds, as a frame of its own.
pub open spec fn region(frame: FrameData, rect: Rect) -> FrameData {
    FrameData {
        cols: rect.width as nat,
        rows: Seq::new(
            rect.height as nat,
            |y: int| Seq::new(rect.width as nat, |x: int| frame.rows[rect.y + y][rect.x + x]),
        ),
    }
}

impl View for Frame {
    type V = FrameData;

    closed spec fn view(&self) -> FrameData {
        FrameData { cols: self.width as nat, rows: self.rows@.map_values(|row: Vec<Bgr>| row@) }
    }
}

/// Whether `rows` are all `width` wide.
pub open spec fn rows_are_wide(rows: Seq<Vec<Bgr>>, width: nat) -> bool {
    forall|y: int| 0 <= y < rows.len() ==> (#[trigger] rows[y])@.len() == width
}

impl Frame {
    #[verifier::type_invariant]
    spec fn well_formed(&self) -> bool {
        rows_are_wide(self.rows@, self.width as nat)
    }

    /// A frame of `width` by `height` pixels, all of them `fill`.
    pub fn new(width: usize, height: usize, fill: Bgr) -> (frame: Frame)
        ensures
            frame@.cols == width,
            frame@.rows.len() == height,
            frame@.is_rectangular(),
            forall|x: int, y: int|
                0 <= y < height && 0 <= x < width ==> #[trigger] frame@.rows[y][x] == fill,
    {
        let mut rows: Vec<Vec<Bgr>> = Vec::new();
        let mut y: usize = 0;
        while y < height
            invariant
                y <= height,
                rows@.len() == y,
                rows_are_wide(rows@, width as nat),
                forall|i: int, j: int|
                    0 <= j < y && 0 <= i < width ==> #[trigger] rows@[j]@[i] == fill,
            decreases height - y,
        {
            let mut row: Vec<Bgr> = Vec::new();
            let mut x: usize = 0;
            while x < width
                invariant
                    x <= width,
                    row@.len() == x,
                    forall|i: int| 0 <= i < x ==> #[trigger] row@[i] == fill,
                decreases width - x,
            {
                row.push(fill);
                x = x + 1;
            }
            rows.push(row);
            y = y + 1;
        }
        Frame { width, rows }
    }

    /// Builds a frame of `width` by `height` pixels from a buffer that
    /// packs them row after row, `stride` bytes to the pixel, of which the
    /// first three are blue, green and red. `None` unless `stride` is at
    /// least 3 and the buffer holds exactly that many bytes.
    pub fn from_packed(width: usize, height: usize, data: &[u8], stride: usize) -> (frame: Option<
        Frame,
    >)
        ensures
            frame is Some <==> stride >= 3 && data@.len() == width * height * stride,
            frame matches Some(f) ==> {
                &&& f@.cols == width
                &&& f@.rows.len() == height
                &&& f@.is_rectangular()
                &&& forall|x: int, y: int|
                    0 <= y < height && 0 <= x < width ==> #[trigger] f@.rows[y][x] == packed_pixel(
                        data@,
                        packed_index(width as nat, x, y, stride as nat),
                    )
            },
    {
        if stride < 3 {
            return None;
        }
        let length: usize = data.len();
        let pixels: usize = match width.checked_mul(height) {
            Some(pixels) => pixels,
            None => {
                assert(width * height * stride > length) by (nonlinear_arith)
                    requires
                        width * height > usize::MAX,
                        stride >= 3,
                        length <= usize::MAX,
                ;
                return None;
            },
        };
        let total: usize = match pixels.checked_mul(stride) {
            Some(total) => total,
            None => {
                return None;
            },
        };
        if total != length {
            return None;
        }
        let mut rows: Vec<Vec<Bgr>> = Vec::new();
        let mut at: usize = 0;
        let mut y: usize = 0;
        assert(packed_index(width as nat, 0, 0, stride as nat) == 0) by (nonlinear_arith);
        while y < height
            invariant
                stride >= 3,
                data@.len() == width * height * stride,
                y <= height,
                rows@.len() == y,
                at == packed_index(width as nat, 0, y as int, stride as nat),
                rows_are_wide(rows@, width as nat),
                forall|i: int, j: int|
                    0 <= j < y && 0 <= i < width ==> #[trigger] rows@[j]@[i] == packed_pixel(
                        data@,
                        packed_index(width as nat, i, j, stride as nat),
                    ),
            decreases height - y,
        {
            let mut row: Vec<Bgr> = Vec::new();
            let mut x: usize = 0;
            while x < width
                invariant
                    stride >= 3,
                    data@.len() == width * height * stride,
                    y < height,
                    x <= width,
                    row@.len() == x,
                    at == packed_index(width as nat, x as int, y as int, stride as nat),
                    forall|i: int|
                        0 <= i < x ==> #[trigger] row@[i] == packed_pixel(
                            data@,
                            packed_index(width as nat, i, y as int, stride as nat),
                        ),
                decreases width - x,
            {
                proof {
                    lemma_packed_index(
                        width as nat,
                        height as nat,
                        x as int,
                        y as int,
                        stride as nat,
                    );
                }
                row.push(Bgr { b: data[at], g: data[at + 1], r: data[at + 2] });
                at = at + stride;
                x = x + 1;
            }
            proof {
                if width > 0 {
                    lemma_packed_index(
                        width as nat,
                        height as nat,
                        0,
                        y as int,
                        stride as nat,
                    );
                } else {
                    assert(packed_index(0, 0, y as int + 1, stride as nat) == 0)
                        by (nonlinear_arith);
                    assert(packed_index(0, 0, y as int, stride as nat) == 0) by (nonlinear_arith);
                }
            }
            rows.push(row);
            y = y + 1;
        }
        let frame = Frame { width, rows };
        assert(frame@.rows.len() == height);
        Some(frame)
    }

    /// Builds a frame from packed blue-green-red bytes, three to the
    /// pixel.
    pub fn from_bgr(width: usize, height: usize, data: &[u8]) -> (frame: Option<Frame>)
        ensures
            frame is Some <==> data@.len() == width * height * 3,
            frame matches Some(f) ==> {
                &&& f@.cols == width
                &&& f@.rows.len() == height
                &&& f@.is_rectangular()
                &&& forall|x: int, y: int|
                    0 <= y < height && 0 <= x < width ==> #[trigger] f@.rows[y][x] == packed_pixel(
                        data@,
                        packed_index(width as nat, x, y, 3),
                    )
            },
    {
        Frame::from_packed(width, height, data, 3)
    }

    /// Builds a frame from packed blue-green-red-alpha bytes, four to the
    /// pixel, as a screen capture delivers them: the colours are kept, the
    /// alpha byte is dropped.
    pub fn from_bgra(width: usize, height: usize, data: &[u8]) -> (frame: Option<Frame>)
        ensures
            frame is Some <==> data@.len() == width * height * 4,
            frame matches Some(f) ==> {
                &&& f@.cols == width
                &&& f@.rows.len() == height
                &&& f@.is_rectangular()
                &&& forall|x: int, y: int|
                    0 <= y < height && 0 <= x < width ==> #[trigger] f@.rows[y][x] == packed_pixel(
                        data@,
                        packed_index(width as nat, x, y, 4),
                    )
            },
    {
        Frame::from_packed(width, height, data, 4)
    }

    /// The number of pixels in a row.
    pub fn width(&self) -> (width: usize)
        ensures
            width == self@.cols,
    {
        self.width
    }

    /// The number of rows.
    pub fn height(&self) -> (height: usize)
        ensures
            height == self@.rows.len(),
    {
        self.rows.len()
    }

    /// Whether the frame holds no pixel.
    pub fn is_empty(&self) -> (empty: bool)
        ensures
            empty <==> self@.is_blank(),
    {
        proof {
            use_type_invariant(self);
            if self.rows@.len() > 0 {
                assert(self@.rows[0] == self.rows@[0]@);
            }
        }
        self.width == 0 || self.rows.len() == 0
    }

    /// Every row of a frame is as wide as the frame.
    pub fn check_rectangular(&self)
        ensures
            self@.is_rectangular(),
    {
        proof {
            use_type_invariant(self);
            assert forall|y: int| 0 <= y < self@.rows.len() implies (#[trigger] self@.rows[y]).len()
                == self@.cols by {
                assert(self@.rows[y] == self.rows@[y]@);
            }
        }
    }

    /// The pixels as packed red-green-blue-alpha bytes, row after row, with
    /// every pixel opaque: the layout in which a frame is displayed.
    pub fn to_rgba(&self) -> (data: Vec<u8>)
        ensures
            data@.len() == self@.cols * self@.rows.len() * 4,
            forall|x: int, y: int|
                0 <= y < self@.rows.len() && 0 <= x < self@.cols ==> {
                    let at = #[trigger] packed_index(self@.cols, x, y, 4);
                    &&& data@[at] == self@.rows[y][x].r
                    &&& data@[at + 1] == self@.rows[y][x].g
                    &&& data@[at + 2] == self@.rows[y][x].b
                    &&& data@[at + 3] == 255
                },
    {
        proof {
            use_type_invariant(self);
        }
        let width: usize = self.width;
        let height: usize = self.rows.len();
        let mut data: Vec<u8> = Vec::new();
        let mut y: usize = 0;
        assert(packed_index(width as nat, 0, 0, 4) == 0) by (nonlinear_arith);
        while y < height
            invariant
                width == self.width,
                height == self.rows@.len(),
                rows_are_wide(self.rows@, width as nat),
                y <= height,
                data@.len() == packed_index(width as nat, 0, y as int, 4),
                forall|i: int, j: int|
                    0 <= j < y && 0 <= i < width ==> {
                        let at = #[trigger] packed_index(width as nat, i, j, 4);
                        &&& 0 <= at
                        &&& at + 4 <= data@.len()
                        &&& data@[at] == self.rows@[j]@[i].r
                        &&& data@[at + 1] == self.rows@[j]@[i].g
                        &&& data@[at + 2] == self.rows@[j]@[i].b
                        &&& data@[at + 3] == 255
                    },
            decreases height - y,
        {
            let mut x: usize = 0;
            while x < width
                invariant
                    width == self.width,
                    height == self.rows@.len(),
                    rows_are_wide(self.rows@, width as nat),
                    y < height,
                    x <= width,
                    data@.len() == packed_index(width as nat, x as int, y as int, 4),
                    forall|i: int, j: int|
                        (0 <= j < y && 0 <= i < width) || (j == y && 0 <= i < x) ==> {
                            let at = #[trigger] packed_index(width as nat, i, j, 4);
                            &&& 0 <= at
                            &&& at + 4 <= data@.len()
                            &&& data@[at] == self.rows@[j]@[i].r
                            &&& data@[at + 1] == self.rows@[j]@[i].g
                            &&& data@[at + 2] == self.rows@[j]@[i].b
                            &&& data@[at + 3] == 255
                        },
                decreases width - x,
            {
                proof {
                    lemma_packed_index(width as nat, height as nat, x as int, y as int, 4);
                }
                let pixel: Bgr = self.rows[y][x];
                data.push(pixel.r);
                data.push(pixel.g);
                data.push(pixel.b);
                data.push(255);
                x = x + 1;
            }
            proof {
                if width > 0 {
                    lemma_packed_index(width as nat, height as nat, 0, y as int, 4);
                } else {
                    assert(packed_index(0, 0, y as int + 1, 4) == 0) by (nonlinear_arith);
                    assert(packed_index(0, 0, y as int, 4) == 0) by (nonlinear_arith);
                }
            }
            y = y + 1;
        }
        proof {
            assert(packed_index(width as nat, 0, height as int, 4) == width * height * 4)
                by (nonlinear_arith);
            assert(self@.rows.len() == height);
            assert forall|x: int, y: int| 0 <= y < self@.rows.len() && 0 <= x < self@.cols implies {
                let at = #[trigger] packed_index(self@.cols, x, y, 4);
                &&& data@[at] == self@.rows[y][x].r
                &&& data@[at + 1] == self@.rows[y][x].g
                &&& data@[at + 2] == self@.rows[y][x].b
                &&& data@[at + 3] == 255
            } by {
                assert(self@.rows[y] == self.rows@[y]@);
            }
        }
        data
    }

    /// Draws the outline of `rect`, one pixel wide, in `color`. What lies
    /// outside the frame is left out; a rectangle without extent draws
    /// nothing.
    pub fn draw_rectangle(&mut self, rect: Rect, color: Bgr)
        ensures
            final(self)@ == drawn(old(self)@, rect, color),
    {
        proof {
            use_type_invariant(&*self);
        }
        let width: usize = self.width;
        let mut rows: Vec<Vec<Bgr>> = Vec::new();
        std::mem::swap(&mut self.rows, &mut rows);
        let ghost before = rows@;
        let height: usize = rows.len();
        let left: i128 = rect.x as i128;
        let top: i128 = rect.y as i128;
        let right: i128 = rect.x as i128 + rect.width as i128 - 1;
        let bottom: i128 = rect.y as i128 + rect.height as i128 - 1;
        let mut y: usize = 0;
        while y < height
            invariant
                height == before.len(),
                rows@.len() == height,
                rows_are_wide(before, width as nat),
                rows_are_wide(rows@, width as nat),
                left == rect.x,
                top == rect.y,
                right == rect.x + rect.width - 1,
                bottom == rect.y + rect.height - 1,
                y <= height,
                forall|i: int, j: int|
                    0 <= j < height && 0 <= i < width ==> #[trigger] rows@[j]@[i] == if j < y
                        && rect.on_outline(i, j) {
                        color
                    } else {
                        before[j]@[i]
                    },
            decreases height - y,
        {
            let mut x: usize = 0;
            while x < width
                invariant
                    height == before.len(),
                    rows@.len() == height,
                    rows_are_wide(before, width as nat),
                    rows_are_wide(rows@, width as nat),
                    left == rect.x,
                    top == rect.y,
                    right == rect.x + rect.width - 1,
                    bottom == rect.y + rect.height - 1,
                    y < height,
                    x <= width,
                    forall|i: int, j: int|
                        0 <= j < height && 0 <= i < width ==> #[trigger] rows@[j]@[i] == if (j < y
                            || (j == y && i < x)) && rect.on_outline(i, j) {
                            color
                        } else {
                            before[j]@[i]
                        },
                decreases width - x,
            {
                let px: i128 = x as i128;
                let py: i128 = y as i128;
                if rect.width > 0 && rect.height > 0 && left <= px && px <= right && top <= py
                    && py <= bottom && (px == left || px == right || py == top || py == bottom) {
                    rows[y][x] = color;
                }
                x = x + 1;
            }
            y = y + 1;
        }
        self.rows = rows;
        proof {
            let target = drawn(old(self)@, rect, color).rows;
            assert forall|y: int| 0 <= y < target.len() implies #[trigger] self@.rows[y]
                =~= target[y] by {
                assert(self@.rows[y] == rows@[y]@);
                assert(old(self)@.rows[y] == before[y]@);
            }
            assert(self@.rows =~= target);
        }
    }

    /// The region `rect` of the frame as a frame of its own, or `None`
    /// where `rect` does not lie within the frame.
    pub fn roi(&self, rect: Rect) -> (part: Option<Frame>)
        ensures
            part is Some <==> rect.within(self@.cols, self@.rows.len()),
            part matches Some(p) ==> p@ == region(self@, rect),
    {
        proof {
            use_type_invariant(self);
        }
        if rect.x < 0 || rect.width < 0 || rect.y < 0 || rect.height < 0 {
            return None;
        }
        let left: usize = rect.x as usize;
        let top: usize = rect.y as usize;
        let width: usize = rect.width as usize;
        let height: usize = rect.height as usize;
        let source_height: usize = self.rows.len();
        if width > self.width || left > self.width - width || height > source_height || top
            > source_height - height {
            return None;
        }
        let mut rows: Vec<Vec<Bgr>> = Vec::new();
        let mut y: usize = 0;
        while y < height
            invariant
                rows_are_wide(self.rows@, self.width as nat),
                left + width <= self.width,
                source_height == self.rows@.len(),
                top + height <= source_height,
                y <= height,
                rows@.len() == y,
                rows_are_wide(rows@, width as nat),
                forall|i: int, j: int|
                    0 <= j < y && 0 <= i < width ==> #[trigger] rows@[j]@[i] == self.rows@[top
                        + j]@[left + i],
            decreases height - y,
        {
            let mut row: Vec<Bgr> = Vec::new();
            let mut x: usize = 0;
            while x < width
                invariant
                    rows_are_wide(self.rows@, self.width as nat),
                    left + width <= self.width,
                    source_height == self.rows@.len(),
                    top + height <= source_height,
                    y < height,
                    x <= width,
                    row@.len() == x,
                    forall|i: int|
                        0 <= i < x ==> #[trigger] row@[i] == self.rows@[top + y]@[left + i],
                decreases width - x,
            {
                row.push(self.rows[top + y][left + x]);
                x = x + 1;
            }
            rows.push(row);
            y = y + 1;
        }
        let part = Frame { width, rows };
        proof {
            let target = region(self@, rect).rows;
            assert forall|y: int| 0 <= y < target.len() implies #[trigger] part@.rows[y]
                =~= target[y] by {
                assert(part@.rows[y] == rows@[y]@);
                assert(self@.rows[rect.y + y] == self.rows@[rect.y + y]@);
            }
            assert(part@.rows =~= target);
        }
        Some(part)
    }

    /// The pixel (`x`, `y`), or `None` where the frame has none there.
    pub fn pixel(&self, x: usize, y: usize) -> (pixel: Option<Bgr>)
        ensures
            pixel == if y < self@.rows.len() && x < self@.cols {
                Some(self@.rows[y as int][x as int])
            } else {
                None
            },
    {
        proof {
            use_type_invariant(self);
        }
        if y < self.rows.len() && x < self.width {
            Some(self.rows[y][x])
        } else {
            None
        }
    }
}

impl Clone for Frame {
    /// A frame with the same pixels.
    fn clone(&self) -> (copy: Frame)
        ensures
            copy@ == self@,
    {
        proof {
            use_type_invariant(self);
        }
        let mut rows: Vec<Vec<Bgr>> = Vec::new();
        let mut y: usize = 0;
        while y < self.rows.len()
            invariant
                rows_are_wide(self.rows@, self.width as nat),
                y <= self.rows@.len(),
                rows@.len() == y,
                forall|j: int| 0 <= j < y ==> (#[trigger] rows@[j])@ == self.rows@[j]@,
            decreases self.rows@.len() - y,
        {
            let mut row: Vec<Bgr> = Vec::new();
            let mut x: usize = 0;
            while x < self.rows[y].len()
                invariant
                    y < self.rows@.len(),
                    x <= self.rows@[y as int]@.len(),
                    row@ == self.rows@[y as int]@.take(x as int),
                decreases self.rows@[y as int]@.len() - x,
            {
                row.push(self.rows[y][x]);
                assert(self.rows@[y as int]@.take(x as int + 1) =~= self.rows@[y as int]@.take(
                    x as int,
                ).push(self.rows@[y as int]@[x as int]));
                x = x + 1;
            }
            assert(self.rows@[y as int]@.take(x as int) =~= self.rows@[y as int]@);
            rows.push(row);
            y = y + 1;
        }
        let copy = Frame { width: self.width, rows };
        assert(copy@.rows =~= self@.rows);
        copy
    }
}

} // verus!
