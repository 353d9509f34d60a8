//! A framebuffer device: its display modes, its pixel formats and its memory
//! region, with mode selection, block fill, single-pixel writes and rectangle
//! fill.
//!
//! The device is held as plain values: the modes that can be selected, the
//! mode that is active and the bytes of the visible framebuffer. Every drawing
//! operation is a bounds-checked change of those bytes.

use vstd::prelude::*;

verus! {

/// Bytes that one pixel takes in the framebuffer; the first three carry colour.
pub const BYTES_PER_PIXEL: usize = 4;

/// Width of the mode that is selected when none is asked for.
pub const DEFAULT_WIDTH: usize = 1024;

/// Height of the mode that is selected when none is asked for.
pub const DEFAULT_HEIGHT: usize = 768;

/// The order of the colour channels in framebuffer memory.
#[derive(Clone, Copy, Debug, PartialEq, Eq, Structural)]
pub enum PixelFormat {
    /// Red, green, blue.
    Rgb,
    /// Blue, green, red.
    Bgr,
    /// Channels given by bit masks; not drawn to by this library.
    Bitmask,
    /// No framebuffer access, block transfer only.
    BltOnly,
}

/// One display mode of the device.
#[derive(Clone, Copy, Debug, PartialEq, Eq, Structural)]
pub struct DisplayMode {
    /// Visible pixels per scanline.
    pub width: usize,
    /// Scanlines.
    pub height: usize,
    /// Pixels per scanline in memory, padding included.
    pub stride: usize,
    /// Byte order of the colour channels.
    pub format: PixelFormat,
}

/// Why an operation on the device failed.
#[derive(Clone, Copy, Debug, PartialEq, Eq, Structural)]
pub enum FbError {
    /// No mode of the device has the default resolution.
    NoMatchingMode,
    /// A specific mode was asked for, which is not supported.
    ModeRequestUnsupported,
    /// The region of a block fill does not lie within the active mode.
    RegionOutOfBounds,
}

/// What a single-pixel write did.
#[derive(Clone, Copy, Debug, PartialEq, Eq, Structural)]
pub enum WriteOutcome {
    /// Three bytes were stored.
    Written,
    /// The active pixel format is not supported: nothing was stored.
    UnsupportedFormat,
}

/// What a rectangle fill did, cell by cell.
#[derive(Clone, Copy, Debug, PartialEq, Eq, Structural)]
pub struct FillReport {
    /// Cells whose pixel was stored.
    pub written: usize,
    /// Cells whose write was skipped for an unsupported pixel format.
    pub skipped: usize,
}

impl PixelFormat {
    /// The formats that single-pixel writes can encode.
    pub open spec fn is_supported(self) -> bool {
        self == PixelFormat::Rgb || self == PixelFormat::Bgr
    }

    /// Whether single-pixel writes can encode this format.
    pub fn supported(self) -> (b: bool)
        ensures
            b == self.is_supported(),
    {
        match self {
            PixelFormat::Rgb => true,
            PixelFormat::Bgr => true,
            _ => false,
        }
    }
}

/// The bytes that stand for the colour `rgb` in memory of the given format,
/// or `None` for a format that cannot be encoded.
pub open spec fn encoded(format: PixelFormat, rgb: Seq<u8>) -> Option<Seq<u8>> {
    match format {
        PixelFormat::Rgb => Some(seq![rgb[0], rgb[1], rgb[2]]),
        PixelFormat::Bgr => Some(seq![rgb[2], rgb[1], rgb[0]]),
        _ => None,
    }
}

/// The colour that three bytes of memory of the given format stand for; the
/// byte orders are their own inverses.
pub open spec fn decoded(format: PixelFormat, bytes: Seq<u8>) -> Option<Seq<u8>> {
    encoded(format, bytes)
}

/// `mem` with `bytes` stored from index `at` on.
pub open spec fn overwrite(mem: Seq<u8>, at: int, bytes: Seq<u8>) -> Seq<u8> {
    Seq::new(
        mem.len(),
        |k: int|
            if at <= k < at + bytes.len() {
                bytes[k - at]
            } else {
                mem[k]
            },
    )
}

/// Byte offset of the cell in scanline `row` and column `col`.
pub open spec fn cell_offset(stride: int, row: int, col: int) -> int {
    4 * (row * stride + col)
}

/// Encodes a colour for memory of the given format.
pub fn encode_pixel(format: PixelFormat, rgb: [u8; 3]) -> (bytes: Option<[u8; 3]>)
    ensures
        bytes is Some <==> format.is_supported(),
        bytes is Some ==> encoded(format, rgb@) == Some(bytes.unwrap()@),
{
    match format {
        PixelFormat::Rgb => {
            let out: [u8; 3] = [rgb[0], rgb[1], rgb[2]];
            assert(out@ =~= seq![rgb@[0], rgb@[1], rgb@[2]]);
            Some(out)
        },
        PixelFormat::Bgr => {
            let out: [u8; 3] = [rgb[2], rgb[1], rgb[0]];
            assert(out@ =~= seq![rgb@[2], rgb@[1], rgb@[0]]);
            Some(out)
        },
        _ => None,
    }
}

/// Decodes three bytes of memory of the given format into a colour.
pub fn decode_pixel(format: PixelFormat, bytes: [u8; 3]) -> (rgb: Option<[u8; 3]>)
    ensures
        rgb is Some <==> format.is_supported(),
        rgb is Some ==> decoded(format, bytes@) == Some(rgb.unwrap()@),
{
    encode_pixel(format, bytes)
}

/// Encoding a colour and decoding the result gives the colour back.
pub proof fn lemma_decode_encode(format: PixelFormat, rgb: Seq<u8>)
    requires
        format.is_supported(),
        rgb.len() == 3,
    ensures
        encoded(format, rgb) is Some,
        encoded(format, rgb).unwrap().len() == 3,
        decoded(format, encoded(format, rgb).unwrap()) == Some(rgb),
{
    let e = encoded(format, rgb).unwrap();
    assert(decoded(format, e).unwrap() =~= rgb);
}

impl DisplayMode {
    /// A scanline holds at least the visible pixels, and the framebuffer's
    /// size in bytes fits the machine's address range.
    pub open spec fn is_valid(self) -> bool {
        &&& self.width <= self.stride
        &&& 4 * self.stride * self.height <= usize::MAX
    }

    /// Size in bytes of the framebuffer of this mode.
    pub open spec fn region_len(self) -> int {
        4 * self.stride * self.height
    }

    /// Whether the mode has the default resolution.
    pub open spec fn is_default(self) -> bool {
        self.width == DEFAULT_WIDTH && self.height == DEFAULT_HEIGHT
    }

    /// A mode with the given geometry, if it is valid.
    pub fn new(width: usize, height: usize, stride: usize, format: PixelFormat) -> (mode:
        Option<DisplayMode>)
        ensures
            mode is Some <==> (DisplayMode { width, height, stride, format }).is_valid(),
            mode is Some ==> mode.unwrap() == (DisplayMode { width, height, stride, format }),
    {
        let m = DisplayMode { width, height, stride, format };
        if m.valid() {
            Some(m)
        } else {
            None
        }
    }

    /// Computes `is_valid`.
    pub fn valid(&self) -> (b: bool)
        ensures
            b == self.is_valid(),
    {
        if self.width > self.stride {
            return false;
        }
        match self.stride.checked_mul(self.height) {
            None => {
                assert(4 * self.stride * self.height > usize::MAX) by (nonlinear_arith)
                    requires
                        self.stride * self.height > usize::MAX,
                ;
                false
            },
            Some(cells) => {
                assert(4 * self.stride * self.height == 4 * cells) by (nonlinear_arith)
                    requires
                        cells == self.stride * self.height,
                ;
                cells.checked_mul(4).is_some()
            },
        }
    }

    /// Width and height.
    pub fn resolution(&self) -> (r: (usize, usize))
        ensures
            r == (self.width, self.height),
    {
        (self.width, self.height)
    }
}

/// Byte offset of colour channel `c` of the cell in scanline `row` and column
/// `col`.
pub open spec fn channel_offset(stride: int, row: int, col: int, c: int) -> int {
    cell_offset(stride, row, col) + c
}

/// Whether byte `k` is one of the three colour bytes of a cell in scanlines
/// `y1..y2` and columns `x1..x2`.
pub open spec fn in_cells(stride: int, x1: int, y1: int, x2: int, y2: int, k: int) -> bool {
    exists|row: int, col: int, c: int|
        y1 <= row < y2 && x1 <= col < x2 && 0 <= c < 3 && k == #[trigger] channel_offset(
            stride,
            row,
            col,
            c,
        )
}

/// `after` is `before` with every cell in scanlines `y1..y2` and columns
/// `x1..x2` set to `bytes`, and nothing else changed.
pub open spec fn is_filled(
    before: Seq<u8>,
    after: Seq<u8>,
    stride: int,
    x1: int,
    y1: int,
    x2: int,
    y2: int,
    bytes: Seq<u8>,
) -> bool {
    &&& after.len() == before.len()
    &&& forall|row: int, col: int, c: int|
        y1 <= row < y2 && x1 <= col < x2 && 0 <= c < 3 ==> after[#[trigger] channel_offset(
            stride,
            row,
            col,
            c,
        )] == bytes[c]
    &&& forall|k: int|
        0 <= k < before.len() && !in_cells(stride, x1, y1, x2, y2, k) ==> after[k] == before[k]
}

/// `after` has the length of `before`, and differs from it at most in the
/// colour bytes of the cells in scanlines `y1..y2` and columns `x1..x2`.
pub open spec fn is_kept_outside(
    before: Seq<u8>,
    after: Seq<u8>,
    stride: int,
    x1: int,
    y1: int,
    x2: int,
    y2: int,
) -> bool {
    &&& after.len() == before.len()
    &&& forall|k: int|
        0 <= k < before.len() && !in_cells(stride, x1, y1, x2, y2, k) ==> after[k] == before[k]
}

/// Number of cells in scanlines `y1..y2` and columns `x1..x2`.
pub open spec fn rect_area(x1: int, y1: int, x2: int, y2: int) -> int {
    if x1 < x2 && y1 < y2 {
        (x2 - x1) * (y2 - y1)
    } else {
        0
    }
}

/// A rectangle whose corners are in order has as many cells as its width
/// times its height.
pub proof fn lemma_rect_area(x1: int, y1: int, x2: int, y2: int)
    requires
        x1 <= x2,
        y1 <= y2,
    ensures
        rect_area(x1, y1, x2, y2) == (x2 - x1) * (y2 - y1),
{
    assert(x1 == x2 || y1 == y2 ==> (x2 - x1) * (y2 - y1) == 0) by (nonlinear_arith);
}

/// A region of `len` bytes, all zero.
pub open spec fn blank(len: int) -> Seq<u8> {
    Seq::new(len as nat, |k: int| 0u8)
}

/// Whether some mode of the list has the default resolution.
pub open spec fn has_default(modes: Seq<DisplayMode>) -> bool {
    exists|i: int| 0 <= i < modes.len() && #[trigger] modes[i].is_default()
}

/// Whether `i` is the first mode of the list with the default resolution.
pub open spec fn is_first_default(modes: Seq<DisplayMode>, i: int) -> bool {
    &&& 0 <= i < modes.len()
    &&& modes[i].is_default()
    &&& forall|j: int| 0 <= j < i ==> !(#[trigger] modes[j]).is_default()
}

/// A cell of a scanline below `height` lies wholly inside the region.
pub proof fn lemma_cell_in_region(stride: int, height: int, row: int, col: int)
    requires
        0 <= row < height,
        0 <= col < stride,
    ensures
        0 <= row * stride,
        0 <= row * stride + col,
        row * stride + col < stride * height,
        0 <= cell_offset(stride, row, col),
        cell_offset(stride, row, col) + 4 <= 4 * stride * height,
{
    assert(row * stride >= 0 && (row + 1) * stride <= height * stride && (row + 1) * stride == row
        * stride + stride && 4 * stride * height == 4 * (height * stride) && stride * height
        == height * stride) by (nonlinear_arith)
        requires
            0 <= row < height,
            0 <= col < stride,
    ;
}

/// Two cells with columns below the stride share their offset only if they
/// are one cell.
pub proof fn lemma_cells_apart(stride: int, r1: int, c1: int, r2: int, c2: int)
    requires
        0 <= c1 < stride,
        0 <= c2 < stride,
        r1 != r2 || c1 != c2,
    ensures
        cell_offset(stride, r1, c1) + 4 <= cell_offset(stride, r2, c2) || cell_offset(
            stride,
            r2,
            c2,
        ) + 4 <= cell_offset(stride, r1, c1),
{
    if r1 < r2 {
        assert((r1 + 1) * stride <= r2 * stride && (r1 + 1) * stride == r1 * stride + stride)
            by (nonlinear_arith)
            requires
                r1 + 1 <= r2,
                stride >= 0,
        ;
    } else if r2 < r1 {
        assert((r2 + 1) * stride <= r1 * stride && (r2 + 1) * stride == r2 * stride + stride)
            by (nonlinear_arith)
            requires
                r2 + 1 <= r1,
                stride >= 0,
        ;
    }
}

/// `now` is `before` part of the way through a fill of scanlines `y1..y2` and
/// columns `x1..x2`: the scanlines before `row` are done, and in scanline `row`
/// the columns before `col`; nothing outside the rectangle has changed.
pub open spec fn is_filled_up_to(
    before: Seq<u8>,
    now: Seq<u8>,
    stride: int,
    x1: int,
    y1: int,
    x2: int,
    y2: int,
    row: int,
    col: int,
    bytes: Seq<u8>,
) -> bool {
    &&& now.len() == before.len()
    &&& forall|r: int, c: int, ch: int|
        y1 <= r < row && x1 <= c < x2 && 0 <= ch < 3 ==> now[#[trigger] channel_offset(
            stride,
            r,
            c,
            ch,
        )] == bytes[ch]
    &&& forall|c: int, ch: int|
        x1 <= c < col && 0 <= ch < 3 ==> now[#[trigger] channel_offset(stride, row, c, ch)]
            == bytes[ch]
    &&& forall|k: int|
        0 <= k < before.len() && !in_cells(stride, x1, y1, x2, y2, k) ==> now[k] == before[k]
}

/// Writing the cell in scanline `row` and column `col` takes a fill one
/// column further.
pub proof fn lemma_fill_step(
    before: Seq<u8>,
    now: Seq<u8>,
    stride: int,
    height: int,
    x1: int,
    y1: int,
    x2: int,
    y2: int,
    row: int,
    col: int,
    bytes: Seq<u8>,
)
    requires
        is_filled_up_to(before, now, stride, x1, y1, x2, y2, row, col, bytes),
        bytes.len() == 3,
        before.len() == 4 * stride * height,
        0 <= x1 <= col < x2 <= stride,
        0 <= y1 <= row < y2 <= height,
    ensures
        is_filled_up_to(
            before,
            overwrite(now, cell_offset(stride, row, col), bytes),
            stride,
            x1,
            y1,
            x2,
            y2,
            row,
            col + 1,
            bytes,
        ),
{
    let at = cell_offset(stride, row, col);
    let next = overwrite(now, at, bytes);
    lemma_cell_in_region(stride, height, row, col);
    assert forall|r: int, c: int, ch: int|
        y1 <= r < row && x1 <= c < x2 && 0 <= ch < 3 implies next[#[trigger] channel_offset(
        stride,
        r,
        c,
        ch,
    )] == bytes[ch] by {
        lemma_cells_apart(stride, r, c, row, col);
        lemma_cell_in_region(stride, height, r, c);
        assert(now[channel_offset(stride, r, c, ch)] == bytes[ch]);
    }
    assert forall|c: int, ch: int|
        x1 <= c < col + 1 && 0 <= ch < 3 implies next[#[trigger] channel_offset(
        stride,
        row,
        c,
        ch,
    )] == bytes[ch] by {
        lemma_cell_in_region(stride, height, row, c);
        if c < col {
            lemma_cells_apart(stride, row, c, row, col);
            assert(now[channel_offset(stride, row, c, ch)] == bytes[ch]);
        }
    }
    assert forall|k: int|
        0 <= k < before.len() && !in_cells(stride, x1, y1, x2, y2, k) implies next[k]
        == before[k] by {
        if at <= k < at + 3 {
            assert(k == channel_offset(stride, row, col, k - at));
        }
    }
}

/// A fill that has done every column of a scanline has done the scanline.
pub proof fn lemma_fill_next_row(
    before: Seq<u8>,
    now: Seq<u8>,
    stride: int,
    x1: int,
    y1: int,
    x2: int,
    y2: int,
    row: int,
    bytes: Seq<u8>,
)
    requires
        is_filled_up_to(before, now, stride, x1, y1, x2, y2, row, x2, bytes),
    ensures
        is_filled_up_to(before, now, stride, x1, y1, x2, y2, row + 1, x1, bytes),
{
}

/// A fill that has done every scanline has filled the rectangle.
pub proof fn lemma_fill_done(
    before: Seq<u8>,
    now: Seq<u8>,
    stride: int,
    x1: int,
    y1: int,
    x2: int,
    y2: int,
    bytes: Seq<u8>,
)
    requires
        is_filled_up_to(before, now, stride, x1, y1, x2, y2, y2, x1, bytes),
    ensures
        is_filled(before, now, stride, x1, y1, x2, y2, bytes),
{
}

/// Reading the three bytes that a write stored, and decoding them, gives the
/// colour that was written.
pub proof fn lemma_read_after_write(mem: Seq<u8>, format: PixelFormat, at: int, rgb: Seq<u8>)
    requires
        format.is_supported(),
        rgb.len() == 3,
        0 <= at,
        at + 3 <= mem.len(),
    ensures
        decoded(
            format,
            overwrite(mem, at, encoded(format, rgb).unwrap()).subrange(at, at + 3),
        ) == Some(rgb),
{
    let e = encoded(format, rgb).unwrap();
    let stored = overwrite(mem, at, e).subrange(at, at + 3);
    assert(stored =~= e);
    lemma_decode_encode(format, rgb);
}

/// A region of `len` zero bytes.
pub fn blank_region(len: usize) -> (region: Vec<u8>)
    ensures
        region@ == blank(len as int),
{
    let mut region: Vec<u8> = Vec::new();
    let mut i: usize = 0;
    while i < len
        invariant
            i <= len,
            region@.len() == i,
            forall|k: int| 0 <= k < i ==> region@[k] == 0u8,
        decreases len - i,
    {
        region.push(0u8);
        i += 1;
    }
    assert(region@ =~= blank(len as int));
    region
}

/// Index of the first mode with the default resolution.
pub fn find_default_mode(modes: &Vec<DisplayMode>) -> (found: Option<usize>)
    ensures
        found is Some <==> has_default(modes@),
        found is Some ==> is_first_default(modes@, found.unwrap() as int),
{
    let mut i: usize = 0;
    while i < modes.len()
        invariant
            i <= modes.len(),
            forall|j: int| 0 <= j < i ==> !(#[trigger] modes@[j]).is_default(),
        decreases modes.len() - i,
    {
        if modes[i].width == DEFAULT_WIDTH && modes[i].height == DEFAULT_HEIGHT {
            assert(modes@[i as int].is_default());
            return Some(i);
        }
        i += 1;
    }
    None
}

/// Whether every mode of the list is valid.
pub fn all_valid(modes: &Vec<DisplayMode>) -> (b: bool)
    ensures
        b == (forall|i: int| 0 <= i < modes@.len() ==> (#[trigger] modes@[i]).is_valid()),
{
    let mut i: usize = 0;
    while i < modes.len()
        invariant
            i <= modes.len(),
            forall|j: int| 0 <= j < i ==> (#[trigger] modes@[j]).is_valid(),
        decreases modes.len() - i,
    {
        if !modes[i].valid() {
            return false;
        }
        i += 1;
    }
    true
}

/// The framebuffer device.
///
/// A device can be drawn to from its creation on: it starts in the mode that
/// was active when it was created, and `set_graphics_mode` replaces that mode.
pub struct UefiFb {
    modes: Vec<DisplayMode>,
    current: DisplayMode,
    memory: Vec<u8>,
}

impl UefiFb {
    /// The modes that can be selected.
    pub closed spec fn modes(&self) -> Seq<DisplayMode> {
        self.modes@
    }

    /// The active mode.
    pub closed spec fn mode(&self) -> DisplayMode {
        self.current
    }

    /// The bytes of the framebuffer.
    pub closed spec fn memory(&self) -> Seq<u8> {
        self.memory@
    }

    /// The device's invariant: every mode is valid, and the framebuffer has
    /// the size that the active mode gives it.
    pub open spec fn wf(&self) -> bool {
        &&& self.mode().is_valid()
        &&& self.memory().len() == self.mode().region_len()
        &&& forall|i: int| 0 <= i < self.modes().len() ==> (#[trigger] self.modes()[i]).is_valid()
    }

    /// Whether a corner lies within the active mode's resolution.
    pub open spec fn in_bounds(&self, corner: (usize, usize)) -> bool {
        corner.0 <= self.mode().width && corner.1 <= self.mode().height
    }

    /// A device with the given modes to select from and the mode that is
    /// active at the start, its framebuffer blank. There is none if a mode is
    /// not valid.
    pub fn new(modes: Vec<DisplayMode>, active: DisplayMode) -> (fb: Option<UefiFb>)
        ensures
            fb is Some <==> active.is_valid() && forall|i: int|
                0 <= i < modes@.len() ==> (#[trigger] modes@[i]).is_valid(),
            fb is Some ==> {
                &&& fb.unwrap().wf()
                &&& fb.unwrap().modes() == modes@
                &&& fb.unwrap().mode() == active
                &&& fb.unwrap().memory() == blank(active.region_len())
            },
    {
        if !active.valid() || !all_valid(&modes) {
            return None;
        }
        let len = Self::region_size(&active);
        let memory = blank_region(len);
        Some(UefiFb { modes, current: active, memory })
    }

    fn region_size(mode: &DisplayMode) -> (len: usize)
        requires
            mode.is_valid(),
        ensures
            len == mode.region_len(),
    {
        assert(0 <= mode.stride * mode.height && 4 * (mode.stride * mode.height) == 4 * mode.stride
            * mode.height) by (nonlinear_arith);
        let cells: usize = mode.stride * mode.height;
        4 * cells
    }

    /// The active mode.
    pub fn current_mode_info(&self) -> (mode: DisplayMode)
        ensures
            mode == self.mode(),
    {
        self.current
    }

    /// Size of the framebuffer in bytes.
    pub fn size(&self) -> (len: usize)
        ensures
            len == self.memory().len(),
    {
        self.memory.len()
    }

    /// The byte at `offset` of the framebuffer.
    pub fn byte_at(&self, offset: usize) -> (b: u8)
        requires
            offset < self.memory().len(),
        ensures
            b == self.memory()[offset as int],
    {
        self.memory[offset]
    }

    /// Byte offset of the cell in scanline `row` and column `col`: four bytes
    /// that lie wholly inside the framebuffer.
    pub fn cell_at(&self, row: usize, col: usize) -> (at: usize)
        requires
            self.wf(),
            row < self.mode().height,
            col < self.mode().stride,
        ensures
            at == cell_offset(self.mode().stride as int, row as int, col as int),
            at + 4 <= self.memory().len(),
    {
        proof {
            lemma_cell_in_region(
                self.current.stride as int,
                self.current.height as int,
                row as int,
                col as int,
            );
        }
        let pixel_index: usize = row * self.current.stride + col;
        BYTES_PER_PIXEL * pixel_index
    }

    /// Whether both corners of a rectangle lie within the active mode's
    /// resolution.
    pub fn within_bounds(&self, top_left: (usize, usize), bottom_right: (usize, usize)) -> (b:
        bool)
        ensures
            b == (self.in_bounds(top_left) && self.in_bounds(bottom_right)),
    {
        top_left.0 <= self.current.width && top_left.1 <= self.current.height && bottom_right.0
            <= self.current.width && bottom_right.1 <= self.current.height
    }

    /// Selects a mode. With no request, the first mode of the default
    /// resolution becomes active and the framebuffer is cleared; the result
    /// is that mode's index. A request for a specific mode is not supported.
    /// On an error the device is left as it was.
    pub fn set_graphics_mode(&mut self, mode_tuple: Option<(i16, i16, i16)>) -> (selected:
        Result<usize, FbError>)
        requires
            old(self).wf(),
        ensures
            final(self).wf(),
            final(self).modes() == old(self).modes(),
            selected is Ok <==> mode_tuple is None && has_default(old(self).modes()),
            selected is Ok ==> {
                &&& is_first_default(old(self).modes(), selected->Ok_0 as int)
                &&& final(self).mode() == old(self).modes()[selected->Ok_0 as int]
                &&& final(self).memory() == blank(final(self).mode().region_len())
            },
            selected is Err ==> *final(self) == *old(self),
            mode_tuple is Some ==> selected == Err::<usize, FbError>(
                FbError::ModeRequestUnsupported,
            ),
            mode_tuple is None && !has_default(old(self).modes()) ==> selected == Err::<
                usize,
                FbError,
            >(FbError::NoMatchingMode),
    {
        if mode_tuple.is_some() {
            return Err(FbError::ModeRequestUnsupported);
        }
        match find_default_mode(&self.modes) {
            None => Err(FbError::NoMatchingMode),
            Some(i) => {
                let mode = self.modes[i];
                let memory = blank_region(Self::region_size(&mode));
                self.current = mode;
                self.memory = memory;
                Ok(i)
            },
        }
    }

    /// Writes one pixel at byte offset `index`: the colour, in the byte order
    /// of the active format, takes the three bytes from `index` on, which
    /// must lie inside the framebuffer. With a format that is not supported
    /// nothing is written, whatever the index.
    pub fn draw_fb(&mut self, index: usize, rgb: [u8; 3]) -> (outcome: WriteOutcome)
        requires
            old(self).mode().format.is_supported() ==> index + 3 <= old(self).memory().len(),
        ensures
            old(self).wf() ==> final(self).wf(),
            final(self).memory().len() == old(self).memory().len(),
            final(self).modes() == old(self).modes(),
            final(self).mode() == old(self).mode(),
            old(self).mode().format.is_supported() ==> {
                &&& outcome == WriteOutcome::Written
                &&& final(self).memory() == overwrite(
                    old(self).memory(),
                    index as int,
                    encoded(old(self).mode().format, rgb@).unwrap(),
                )
            },
            !old(self).mode().format.is_supported() ==> {
                &&& outcome == WriteOutcome::UnsupportedFormat
                &&& *final(self) == *old(self)
            },
    {
        let len: usize = self.memory.len();
        match encode_pixel(self.current.format, rgb) {
            None => WriteOutcome::UnsupportedFormat,
            Some(bytes) => {
                self.memory.set(index, bytes[0]);
                self.memory.set(index + 1, bytes[1]);
                self.memory.set(index + 2, bytes[2]);
                assert(self.memory@ =~= overwrite(old(self).memory@, index as int, bytes@));
                assert(old(self).wf() ==> self.wf()) by {
                    assert(self.modes() == old(self).modes());
                }
                WriteOutcome::Written
            },
        }
    }

    /// Writes the pixel with linear index `pixel_index`, at byte offset
    /// `4 * pixel_index`, which must lie inside the framebuffer. With a format
    /// that is not supported nothing is written, whatever the index.
    pub fn write_pixel(&mut self, pixel_index: usize, rgb: [u8; 3]) -> (outcome: WriteOutcome)
        requires
            old(self).wf(),
            old(self).mode().format.is_supported() ==> pixel_index < old(self).mode().stride
                * old(self).mode().height,
        ensures
            final(self).wf(),
            final(self).modes() == old(self).modes(),
            final(self).mode() == old(self).mode(),
            old(self).mode().format.is_supported() ==> {
                &&& outcome == WriteOutcome::Written
                &&& final(self).memory() == overwrite(
                    old(self).memory(),
                    4 * pixel_index,
                    encoded(old(self).mode().format, rgb@).unwrap(),
                )
            },
            !old(self).mode().format.is_supported() ==> {
                &&& outcome == WriteOutcome::UnsupportedFormat
                &&& *final(self) == *old(self)
            },
    {
        if !self.current.format.supported() {
            return WriteOutcome::UnsupportedFormat;
        }
        proof {
            assert(4 * (self.current.stride * self.current.height) == 4 * self.current.stride
                * self.current.height) by (nonlinear_arith);
        }
        self.draw_fb(4 * pixel_index, rgb)
    }

    /// Reads the pixel with linear index `pixel_index` back as a colour.
    pub fn read_pixel(&self, pixel_index: usize) -> (rgb: Option<[u8; 3]>)
        requires
            self.wf(),
            pixel_index < self.mode().stride * self.mode().height,
        ensures
            rgb is Some <==> self.mode().format.is_supported(),
            rgb is Some ==> decoded(
                self.mode().format,
                self.memory().subrange(4 * pixel_index, 4 * pixel_index + 3),
            ) == Some(rgb.unwrap()@),
    {
        proof {
            assert(4 * (self.current.stride * self.current.height) == 4 * self.current.stride
                * self.current.height) by (nonlinear_arith);
        }
        let at: usize = 4 * pixel_index;
        let bytes: [u8; 3] = [self.memory[at], self.memory[at + 1], self.memory[at + 2]];
        assert(bytes@ =~= self.memory@.subrange(at as int, at + 3));
        decode_pixel(self.current.format, bytes)
    }

    /// Fills the cells in scanlines `top_left.1 .. bottom_right.1` and columns
    /// `top_left.0 .. bottom_right.0` with `color`, one pixel write per cell,
    /// the cell of scanline `row` and column `col` at pixel index
    /// `row * stride + col`. Both corners must lie within the active mode's
    /// resolution. With a format that is not supported every write is skipped.
    pub fn fill_rectangle(
        &mut self,
        top_left: (usize, usize),
        bottom_right: (usize, usize),
        color: [u8; 3],
    ) -> (report: FillReport)
        requires
            old(self).wf(),
            old(self).in_bounds(top_left),
            old(self).in_bounds(bottom_right),
        ensures
            final(self).wf(),
            final(self).modes() == old(self).modes(),
            final(self).mode() == old(self).mode(),
            report.written + report.skipped == rect_area(
                top_left.0 as int,
                top_left.1 as int,
                bottom_right.0 as int,
                bottom_right.1 as int,
            ),
            old(self).mode().format.is_supported() ==> {
                &&& report.skipped == 0
                &&& is_filled(
                    old(self).memory(),
                    final(self).memory(),
                    old(self).mode().stride as int,
                    top_left.0 as int,
                    top_left.1 as int,
                    bottom_right.0 as int,
                    bottom_right.1 as int,
                    encoded(old(self).mode().format, color@).unwrap(),
                )
            },
            !old(self).mode().format.is_supported() ==> {
                &&& report.written == 0
                &&& *final(self) == *old(self)
            },
    {
        let x1: usize = top_left.0;
        let y1: usize = top_left.1;
        let x2: usize = bottom_right.0;
        let y2: usize = bottom_right.1;
        let stride: usize = self.current.stride;
        let height: usize = self.current.height;
        if x1 >= x2 || y1 >= y2 {
            return FillReport { written: 0, skipped: 0 };
        }
        let span: usize = x2 - x1;
        proof {
            assert(0 <= span * (y2 - y1) <= stride * height && stride * height <= 4 * stride
                * height) by (nonlinear_arith)
                requires
                    0 <= span <= stride,
                    0 <= y2 - y1 <= height,
            ;
        }
        if !self.current.format.supported() {
            return FillReport { written: 0, skipped: span * (y2 - y1) };
        }
        let ghost before = self.memory@;
        let ghost enc = encoded(self.current.format, color@).unwrap();
        let ghost s = stride as int;
        let mut written: usize = 0;
        let mut row: usize = y1;
        while row < y2
            invariant
                self.wf(),
                self.modes@ == old(self).modes@,
                self.current == old(self).current,
                stride == self.current.stride,
                height == self.current.height,
                s == stride as int,
                self.current.format.is_supported(),
                enc == encoded(self.current.format, color@).unwrap(),
                before == old(self).memory@,
                x1 < x2 <= self.current.width,
                y1 <= row <= y2 <= height,
                span == x2 - x1,
                span * (y2 - y1) <= usize::MAX,
                written == (row - y1) * span,
                is_filled_up_to(
                    before,
                    self.memory@,
                    s,
                    x1 as int,
                    y1 as int,
                    x2 as int,
                    y2 as int,
                    row as int,
                    x1 as int,
                    enc,
                ),
            decreases y2 - row,
        {
            let mut col: usize = x1;
            while col < x2
                invariant
                    self.wf(),
                    self.modes@ == old(self).modes@,
                    self.current == old(self).current,
                    stride == self.current.stride,
                    height == self.current.height,
                    s == stride as int,
                    self.current.format.is_supported(),
                    enc == encoded(self.current.format, color@).unwrap(),
                    before == old(self).memory@,
                    x1 <= col <= x2 <= self.current.width,
                    y1 <= row < y2 <= height,
                    span == x2 - x1,
                    span * (y2 - y1) <= usize::MAX,
                    written == (row - y1) * span + (col - x1),
                    is_filled_up_to(
                        before,
                        self.memory@,
                        s,
                        x1 as int,
                        y1 as int,
                        x2 as int,
                        y2 as int,
                        row as int,
                        col as int,
                        enc,
                    ),
                decreases x2 - col,
            {
                proof {
                    lemma_cell_in_region(span as int, y2 - y1, row - y1, col - x1);
                    lemma_fill_step(
                        before,
                        self.memory@,
                        s,
                        height as int,
                        x1 as int,
                        y1 as int,
                        x2 as int,
                        y2 as int,
                        row as int,
                        col as int,
                        enc,
                    );
                }
                let pixel_base: usize = self.cell_at(row, col);
                self.draw_fb(pixel_base, color);
                written = written + 1;
                col = col + 1;
            }
            proof {
                assert((row + 1 - y1) * span == (row - y1) * span + span) by (nonlinear_arith);
                lemma_fill_next_row(
                    before,
                    self.memory@,
                    s,
                    x1 as int,
                    y1 as int,
                    x2 as int,
                    y2 as int,
                    row as int,
                    enc,
                );
            }
            row = row + 1;
        }
        proof {
            assert((y2 - y1) * span == (x2 - x1) * (y2 - y1)) by (nonlinear_arith)
                requires
                    span == x2 - x1,
            ;
            lemma_fill_done(
                before,
                self.memory@,
                s,
                x1 as int,
                y1 as int,
                x2 as int,
                y2 as int,
                enc,
            );
        }
        FillReport { written, skipped: 0 }
    }

    /// Fills the region of `dims.0` columns and `dims.1` scanlines whose top
    /// left cell is `dest` with `color`, whatever the pixel format: the block
    /// transfer is the device's own. A region that does not lie within the
    /// active mode's resolution is rejected and the device left as it was.
    /// Every cell of an accepted region counts as written, and no byte
    /// outside those cells changes. With a format that this library can
    /// encode the cells hold the colour as `fill_rectangle` stores it; of
    /// what the device stores in them under another format nothing is said.
    pub fn fb_blt_fill(
        &mut self,
        color: [u8; 3],
        dest: (usize, usize),
        dims: (usize, usize),
    ) -> (done: Result<FillReport, FbError>)
        requires
            old(self).wf(),
        ensures
            final(self).wf(),
            final(self).modes() == old(self).modes(),
            final(self).mode() == old(self).mode(),
            done is Ok <==> dest.0 + dims.0 <= old(self).mode().width && dest.1 + dims.1 <= old(
                self,
            ).mode().height,
            done is Err ==> done->Err_0 == FbError::RegionOutOfBounds && *final(self) == *old(self),
            done is Ok ==> {
                &&& done->Ok_0.written == rect_area(
                    dest.0 as int,
                    dest.1 as int,
                    dest.0 + dims.0,
                    dest.1 + dims.1,
                )
                &&& done->Ok_0.skipped == 0
                &&& is_kept_outside(
                    old(self).memory(),
                    final(self).memory(),
                    old(self).mode().stride as int,
                    dest.0 as int,
                    dest.1 as int,
                    dest.0 + dims.0,
                    dest.1 + dims.1,
                )
            },
            done is Ok && old(self).mode().format.is_supported() ==> is_filled(
                old(self).memory(),
                final(self).memory(),
                old(self).mode().stride as int,
                dest.0 as int,
                dest.1 as int,
                dest.0 + dims.0,
                dest.1 + dims.1,
                encoded(old(self).mode().format, color@).unwrap(),
            ),
    {
        let width: usize = self.current.width;
        let height: usize = self.current.height;
        if dest.0 > width || dims.0 > width - dest.0 || dest.1 > height || dims.1 > height
            - dest.1 {
            return Err(FbError::RegionOutOfBounds);
        }
        if self.current.format.supported() {
            let report = self.fill_rectangle(dest, (dest.0 + dims.0, dest.1 + dims.1), color);
            Ok(report)
        } else {
            proof {
                assert(0 <= dims.0 * dims.1 <= self.current.stride * self.current.height
                    && self.current.stride * self.current.height <= 4 * self.current.stride
                    * self.current.height) by (nonlinear_arith)
                    requires
                        0 <= dims.0 <= self.current.stride,
                        0 <= dims.1 <= self.current.height,
                ;
                assert(dims.0 == 0 || dims.1 == 0 ==> dims.0 * dims.1 == 0) by (nonlinear_arith);
            }
            Ok(FillReport { written: dims.0 * dims.1, skipped: 0 })
        }
    }
}

} // verus!
