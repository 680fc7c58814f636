//! Framebuffers that a render engine draws into.
use vstd::prelude::*;

verus! {

/// Errors reported by a render engine.
#[derive(Debug, Clone)]
pub enum RenderError {
    InitializationFailed(String),
    RenderFailed(String),
    TextureError(String),
    OutOfMemory,
}

/// Supported framebuffer pixel formats.
#[derive(Debug, Clone, Copy, PartialEq, Eq, Structural)]
pub enum FramebufferFormat {
    Rgba8,
    Rgb8,
    Bgra8,
    Bgr8,
}

/// The number of bytes one pixel takes in the given format.
pub open spec fn format_bpp(f: FramebufferFormat) -> nat {
    match f {
        FramebufferFormat::Rgba8 | FramebufferFormat::Bgra8 => 4,
        FramebufferFormat::Rgb8 | FramebufferFormat::Bgr8 => 3,
    }
}

impl FramebufferFormat {
    pub fn bytes_per_pixel(&self) -> (n: u32)
        ensures
            n == format_bpp(*self),
    {
        match self {
            FramebufferFormat::Rgba8 | FramebufferFormat::Bgra8 => 4,
            FramebufferFormat::Rgb8 | FramebufferFormat::Bgr8 => 3,
        }
    }
}

} // verus!

verus! {

/// A rectangle of pixels that changed since the last upload.
#[derive(Debug, Clone, Copy, PartialEq, Eq, Structural)]
pub struct DirtyRect {
    pub x: u32,
    pub y: u32,
    pub width: u32,
    pub height: u32,
}

/// The rectangle that covers a whole `width` x `height` buffer.
pub open spec fn full_rect(width: u32, height: u32) -> DirtyRect {
    DirtyRect { x: 0, y: 0, width, height }
}

/// The bytes that one pixel of `color` (given as RGBA) takes in `format`.
pub open spec fn pixel_pattern(format: FramebufferFormat, color: [u8; 4]) -> Seq<u8> {
    match format {
        FramebufferFormat::Rgba8 => seq![color[0], color[1], color[2], color[3]],
        FramebufferFormat::Bgra8 => seq![color[2], color[1], color[0], color[3]],
        FramebufferFormat::Rgb8 => seq![color[0], color[1], color[2]],
        FramebufferFormat::Bgr8 => seq![color[2], color[1], color[0]],
    }
}

/// `old` with every whole pixel-sized chunk replaced by `pat`; a trailing
/// partial chunk keeps its bytes.
pub open spec fn filled(old: Seq<u8>, pat: Seq<u8>) -> Seq<u8>
    recommends
        pat.len() > 0,
{
    Seq::new(
        old.len(),
        |i: int|
            if i < old.len() - (old.len() as int) % (pat.len() as int) {
                pat[i % (pat.len() as int)]
            } else {
                old[i]
            },
    )
}

/// A framebuffer that a render engine draws into.
pub struct Framebuffer {
    pub width: u32,
    pub height: u32,
    pub format: FramebufferFormat,
    pub buffer: Vec<u8>,
    /// Bytes per row.
    pub pitch: u32,
    /// The region changed since the last upload, if any.
    pub dirty_rect: Option<DirtyRect>,
    /// The number of changes made so far.
    pub generation: u64,
}

impl Framebuffer {
    /// A zeroed `width` x `height` buffer, wholly dirty, at generation 0.
    pub fn new(width: u32, height: u32, format: FramebufferFormat) -> (fb: Self)
        requires
            width * format_bpp(format) <= u32::MAX,
            width * format_bpp(format) * height <= u32::MAX,
        ensures
            fb.width == width,
            fb.height == height,
            fb.format == format,
            fb.pitch == width * format_bpp(format),
            fb.buffer@ == Seq::new((fb.pitch * height) as nat, |i: int| 0u8),
            fb.dirty_rect == Some(full_rect(width, height)),
            fb.generation == 0,
    {
        let bytes_per_pixel = format.bytes_per_pixel();
        let pitch = width * bytes_per_pixel;
        let buffer_size = (pitch * height) as usize;
        let buffer = zeroed(buffer_size);
        Framebuffer {
            width,
            height,
            format,
            buffer,
            pitch,
            dirty_rect: Some(DirtyRect { x: 0, y: 0, width, height }),
            generation: 0,
        }
    }

    /// Resizes the buffer; the bytes that stay keep their values and new
    /// bytes are zero. Nothing changes when the size is the same.
    pub fn resize(&mut self, width: u32, height: u32)
        requires
            old(self).width != width || old(self).height != height ==> {
                &&& width * format_bpp(old(self).format) <= u32::MAX
                &&& width * format_bpp(old(self).format) * height <= u32::MAX
                &&& old(self).generation < u64::MAX
            },
        ensures
            old(self).width == width && old(self).height == height ==> *final(self) == *old(self),
            old(self).width != width || old(self).height != height ==> {
                let n = (final(self).pitch * height) as int;
                &&& final(self).width == width
                &&& final(self).height == height
                &&& final(self).format == old(self).format
                &&& final(self).pitch == width * format_bpp(old(self).format)
                &&& final(self).buffer@.len() == n
                &&& forall|i: int|
                    0 <= i < n ==> #[trigger] final(self).buffer@[i] == if i < old(
                        self,
                    ).buffer@.len() {
                        old(self).buffer@[i]
                    } else {
                        0u8
                    }
                &&& final(self).dirty_rect == Some(full_rect(width, height))
                &&& final(self).generation == old(self).generation + 1
            },
    {
        if self.width == width && self.height == height {
            return ;
        }
        self.width = width;
        self.height = height;
        self.pitch = width * self.format.bytes_per_pixel();
        let buffer_size = (self.pitch * height) as usize;
        self.buffer.resize(buffer_size, 0);
        self.dirty_rect = Some(DirtyRect { x: 0, y: 0, width, height });
        self.generation = self.generation + 1;
    }

    /// Records a change: the dirty rectangle becomes `rect` when one is
    /// given and stays as it was otherwise; the generation advances.
    pub fn mark_dirty(&mut self, rect: Option<DirtyRect>)
        requires
            old(self).generation < u64::MAX,
        ensures
            final(self).dirty_rect == (if rect is Some {
                rect
            } else {
                old(self).dirty_rect
            }),
            final(self).generation == old(self).generation + 1,
            final(self).width == old(self).width,
            final(self).height == old(self).height,
            final(self).format == old(self).format,
            final(self).pitch == old(self).pitch,
            final(self).buffer == old(self).buffer,
    {
        self.dirty_rect = match rect {
            Some(r) => Some(r),
            None => self.dirty_rect,
        };
        self.generation = self.generation + 1;
    }

    /// Forgets the dirty rectangle.
    pub fn clear_dirty(&mut self)
        ensures
            final(self).dirty_rect is None,
            final(self).generation == old(self).generation,
            final(self).width == old(self).width,
            final(self).height == old(self).height,
            final(self).format == old(self).format,
            final(self).pitch == old(self).pitch,
            final(self).buffer == old(self).buffer,
    {
        self.dirty_rect = None;
    }

    pub fn is_dirty(&self) -> (r: bool)
        ensures
            r == self.dirty_rect is Some,
    {
        self.dirty_rect.is_some()
    }

    pub fn dirty_rect(&self) -> (r: Option<DirtyRect>)
        ensures
            r == self.dirty_rect,
    {
        self.dirty_rect
    }

    pub fn generation(&self) -> (g: u64)
        ensures
            g == self.generation,
    {
        self.generation
    }

    /// Fills every whole pixel with `color` (given as RGBA) in the buffer's
    /// format and marks the whole buffer dirty.
    pub fn clear(&mut self, color: [u8; 4])
        requires
            old(self).generation < u64::MAX,
        ensures
            final(self).buffer@ == filled(old(self).buffer@, pixel_pattern(old(self).format, color)),
            final(self).dirty_rect == Some(full_rect(old(self).width, old(self).height)),
            final(self).generation == old(self).generation + 1,
            final(self).width == old(self).width,
            final(self).height == old(self).height,
            final(self).format == old(self).format,
            final(self).pitch == old(self).pitch,
    {
        let pattern: Vec<u8> = match self.format {
            FramebufferFormat::Rgba8 => vec![color[0], color[1], color[2], color[3]],
            FramebufferFormat::Bgra8 => vec![color[2], color[1], color[0], color[3]],
            FramebufferFormat::Rgb8 => vec![color[0], color[1], color[2]],
            FramebufferFormat::Bgr8 => vec![color[2], color[1], color[0]],
        };
        assert(pattern@ == pixel_pattern(self.format, color));
        fill_chunks(&mut self.buffer, &pattern);
        let full = DirtyRect { x: 0, y: 0, width: self.width, height: self.height };
        self.mark_dirty(Some(full));
    }
}

/// A vector of `n` zero bytes.
fn zeroed(n: usize) -> (v: Vec<u8>)
    ensures
        v@ == Seq::new(n as nat, |i: int| 0u8),
{
    let mut v: Vec<u8> = Vec::with_capacity(n);
    let mut k: usize = 0;
    while k < n
        invariant
            k <= n,
            v@ == Seq::new(k as nat, |i: int| 0u8),
        decreases n - k,
    {
        v.push(0);
        k = k + 1;
    }
    v
}

/// Overwrites every whole `pat`-sized chunk of `buf` with `pat`.
fn fill_chunks(buf: &mut Vec<u8>, pat: &Vec<u8>)
    requires
        pat@.len() == 3 || pat@.len() == 4,
    ensures
        final(buf)@ == filled(old(buf)@, pat@),
{
    let n = pat.len();
    let len = buf.len();
    assert(len % n <= len) by (nonlinear_arith)
        requires
            n > 0,
    ;
    let whole = len - len % n;
    let mut p: usize = 0;
    while p < whole
        invariant
            n == pat@.len(),
            n == 3 || n == 4,
            len == buf@.len(),
            whole == len - len % n,
            p <= whole,
            p % n == 0,
            forall|i: int| 0 <= i < p ==> #[trigger] buf@[i] == pat@[i % (n as int)],
            forall|i: int| p <= i < len ==> #[trigger] buf@[i] == old(buf)@[i],
        decreases whole - p,
    {
        let mut j: usize = 0;
        while j < n
            invariant
                n == pat@.len(),
                n == 3 || n == 4,
                len == buf@.len(),
                whole == len - len % n,
                p < whole,
                p % n == 0,
                j <= n,
                forall|i: int| 0 <= i < p + j ==> #[trigger] buf@[i] == pat@[i % (n as int)],
                forall|i: int| p + j <= i < len ==> #[trigger] buf@[i] == old(buf)@[i],
            decreases n - j,
        {
            proof {
                lemma_chunk_step(p as int, j as int, n as int, len as int);
            }
            buf.set(p + j, pat[j]);
            j = j + 1;
        }
        proof {
            lemma_chunk_step(p as int, 0, n as int, len as int);
        }
        p = p + n;
    }
    assert(buf@ =~= filled(old(buf)@, pat@));
}

proof fn lemma_chunk_step(p: int, j: int, n: int, len: int)
    requires
        n == 3 || n == 4,
        0 <= j < n,
        0 <= p,
        p % n == 0,
        p < len - len % n,
    ensures
        p + j < len,
        (p + j) % n == j,
        (p + n) % n == 0,
        p + n <= len - len % n,
{
    if n == 3 {
        assert(p + j < len && (p + j) % 3 == j && (p + 3) % 3 == 0 && p + 3 <= len - len % 3)
            by (nonlinear_arith)
            requires
                0 <= j < 3,
                0 <= p,
                p % 3 == 0,
                p < len - len % 3,
        ;
    } else {
        assert(p + j < len && (p + j) % 4 == j && (p + 4) % 4 == 0 && p + 4 <= len - len % 4)
            by (nonlinear_arith)
            requires
                0 <= j < 4,
                0 <= p,
                p % 4 == 0,
                p < len - len % 4,
        ;
    }
}

// ------------------------------------------------------ RGBA conversion

/// The size of a buffer converted to RGBA: four bytes for every pixel of
/// three (`len * 4 / 3`), the same size for four-byte formats.
pub open spec fn rgba_size(len: nat, f: FramebufferFormat) -> nat {
    if format_bpp(f) == 4 {
        len
    } else {
        len * 4 / 3
    }
}

/// Byte `i` of the RGBA form of `src`: pixel `i / 4`, channel `i % 4`
/// taken from the source's channel order; alpha is opaque for three-byte
/// formats.
pub open spec fn rgba_byte(src: Seq<u8>, f: FramebufferFormat, i: int) -> u8 {
    let c = i / 4;
    let k = i % 4;
    match f {
        FramebufferFormat::Rgba8 => src[i],
        FramebufferFormat::Bgra8 => if k == 0 {
            src[4 * c + 2]
        } else if k == 1 {
            src[4 * c + 1]
        } else if k == 2 {
            src[4 * c]
        } else {
            src[4 * c + 3]
        },
        FramebufferFormat::Rgb8 => if k < 3 {
            src[3 * c + k]
        } else {
            255u8
        },
        FramebufferFormat::Bgr8 => if k < 3 {
            src[3 * c + 2 - k]
        } else {
            255u8
        },
    }
}

/// `v` cut to `n` bytes or extended with zeros (`Vec::resize`).
pub open spec fn resized(v: Seq<u8>, n: nat) -> Seq<u8> {
    Seq::new(n, |i: int| if i < v.len() { v[i] } else { 0u8 })
}

/// The conversion buffer after converting `src` into it: an RGBA source
/// is copied whole; otherwise the buffer is resized to the RGBA size, each
/// whole pixel converted, and any bytes after the last whole pixel left as
/// they were.
pub open spec fn converted(old: Seq<u8>, src: Seq<u8>, f: FramebufferFormat) -> Seq<u8> {
    let n = rgba_size(src.len(), f);
    let done = 4 * (src.len() / format_bpp(f));
    if f == FramebufferFormat::Rgba8 {
        src
    } else {
        Seq::new(n, |i: int| if i < done { rgba_byte(src, f, i) } else { resized(old, n)[i] })
    }
}

proof fn lemma_pixel_bounds(c: int, k: int, len: int, b: int)
    requires
        b == 3 || b == 4,
        0 <= c < len / b,
        0 <= k < 4,
        len >= 0,
    ensures
        (4 * c + k) / 4 == c,
        (4 * c + k) % 4 == k,
        4 * c + 4 <= 4 * (len / b),
        b * c + b <= len,
        4 * (len / b) <= (if b == 4 { len } else { len * 4 / 3 }),
{
    assert((4 * c + k) / 4 == c && (4 * c + k) % 4 == k) by (nonlinear_arith)
        requires
            0 <= k < 4,
            0 <= c,
    ;
    assert(4 * c + 4 <= 4 * (len / b) && b * c + b <= len) by (nonlinear_arith)
        requires
            b == 3 || b == 4,
            0 <= c < len / b,
            len >= 0,
    ;
    assert(4 * (len / b) <= (if b == 4 { len } else { len * 4 / 3 })) by (nonlinear_arith)
        requires
            b == 3 || b == 4,
            len >= 0,
    ;
}

/// Converts the bytes of `src` (in `format`) to RGBA in `conv`, reusing
/// its storage.
pub fn convert_to_rgba(src: &Vec<u8>, format: FramebufferFormat, conv: &mut Vec<u8>)
    requires
        src@.len() * 4 <= usize::MAX,
    ensures
        final(conv)@ == converted(old(conv)@, src@, format),
{
    let len = src.len();
    let b: usize = format.bytes_per_pixel() as usize;
    let required = if b == 4 {
        len
    } else {
        len * 4 / 3
    };
    let ghost base = resized(old(conv)@, required as nat);
    if conv.len() != required {
        conv.resize(required, 0);
    }
    assert(conv@ =~= base);
    if format == FramebufferFormat::Rgba8 {
        let mut k: usize = 0;
        while k < len
            invariant
                len == src@.len(),
                conv@.len() == len,
                k <= len,
                forall|i: int| 0 <= i < k ==> #[trigger] conv@[i] == src@[i],
            decreases len - k,
        {
            conv.set(k, src[k]);
            k = k + 1;
        }
        assert(conv@ =~= src@);
        return;
    }
    let pixels = len / b;
    let mut c: usize = 0;
    proof {
        if pixels > 0 {
            lemma_pixel_bounds(0, 0, len as int, b as int);
        } else {
            let li = len as int;
            let bi = b as int;
            assert(4 * (li / bi) <= (if bi == 4 { li } else { li * 4 / 3 })) by (nonlinear_arith)
                requires
                    bi == 3 || bi == 4,
                    li >= 0,
            ;
        }
    }
    while c < pixels
        invariant
            len == src@.len(),
            b == format_bpp(format),
            pixels == len / b,
            required == rgba_size(len as nat, format),
            4 * pixels <= required,
            c <= pixels,
            conv@.len() == required,
            forall|i: int| 0 <= i < 4 * c ==> #[trigger] conv@[i] == rgba_byte(src@, format, i),
            forall|i: int| 4 * c <= i < required ==> #[trigger] conv@[i] == base[i],
        decreases pixels - c,
    {
        proof {
            lemma_pixel_bounds(c as int, 0, len as int, b as int);
            lemma_pixel_bounds(c as int, 1, len as int, b as int);
            lemma_pixel_bounds(c as int, 2, len as int, b as int);
            lemma_pixel_bounds(c as int, 3, len as int, b as int);
        }
        let o = 4 * c;
        let s = b * c;
        let (r, g, bl, a) = match format {
            FramebufferFormat::Rgba8 => (src[s], src[s + 1], src[s + 2], src[s + 3]),
            FramebufferFormat::Bgra8 => (src[s + 2], src[s + 1], src[s], src[s + 3]),
            FramebufferFormat::Rgb8 => (src[s], src[s + 1], src[s + 2], 255u8),
            FramebufferFormat::Bgr8 => (src[s + 2], src[s + 1], src[s], 255u8),
        };
        conv.set(o, r);
        conv.set(o + 1, g);
        conv.set(o + 2, bl);
        conv.set(o + 3, a);
        c = c + 1;
    }
    assert(conv@ =~= converted(old(conv)@, src@, format));
}

/// A zeroed `width` x `height` buffer, wholly dirty, at generation 0.
pub open spec fn is_fresh(fb: Framebuffer, width: u32, height: u32, format: FramebufferFormat) -> bool {
    &&& fb.width == width
    &&& fb.height == height
    &&& fb.format == format
    &&& fb.pitch == width * format_bpp(format)
    &&& fb.buffer@ == Seq::new((fb.pitch * height) as nat, |i: int| 0u8)
    &&& fb.dirty_rect == Some(full_rect(width, height))
    &&& fb.generation == 0
}

/// Two framebuffers: one is drawn into while the other is shown, and a
/// swap exchanges their roles.
pub struct DoubleBuffer {
    pub front: Framebuffer,
    pub back: Framebuffer,
    pub swapped: bool,
}

impl DoubleBuffer {
    /// Two equal zeroed buffers, not swapped.
    pub fn new(width: u32, height: u32, format: FramebufferFormat) -> (d: Self)
        requires
            width * format_bpp(format) <= u32::MAX,
            width * format_bpp(format) * height <= u32::MAX,
        ensures
            is_fresh(d.front, width, height, format),
            is_fresh(d.back, width, height, format),
            !d.swapped,
    {
        DoubleBuffer {
            front: Framebuffer::new(width, height, format),
            back: Framebuffer::new(width, height, format),
            swapped: false,
        }
    }

    /// The buffer being drawn into.
    pub open spec fn back_view(&self) -> Framebuffer {
        if self.swapped {
            self.front
        } else {
            self.back
        }
    }

    /// The buffer being shown.
    pub open spec fn front_view(&self) -> Framebuffer {
        if self.swapped {
            self.back
        } else {
            self.front
        }
    }

    /// The buffer being shown.
    pub fn get_front_buffer(&self) -> (r: &Framebuffer)
        ensures
            *r == self.front_view(),
    {
        if self.swapped {
            &self.back
        } else {
            &self.front
        }
    }

    /// Exchanges the roles of the two buffers.
    pub fn swap(&mut self)
        ensures
            final(self).front == old(self).front,
            final(self).back == old(self).back,
            final(self).swapped == !old(self).swapped,
            final(self).front_view() == old(self).back_view(),
            final(self).back_view() == old(self).front_view(),
    {
        self.swapped = !self.swapped;
    }

    /// Clears the buffer being drawn into with `color`.
    pub fn clear_back(&mut self, color: [u8; 4])
        requires
            old(self).back_view().generation < u64::MAX,
        ensures
            final(self).swapped == old(self).swapped,
            final(self).front_view() == old(self).front_view(),
            final(self).back_view().buffer@ == filled(
                old(self).back_view().buffer@,
                pixel_pattern(old(self).back_view().format, color),
            ),
            final(self).back_view().generation == old(self).back_view().generation + 1,
    {
        if self.swapped {
            self.front.clear(color);
        } else {
            self.back.clear(color);
        }
    }
}

/// Swapping twice shows the buffer shown before.
pub proof fn law_swap_twice(d: DoubleBuffer)
    ensures
        (DoubleBuffer { swapped: !!d.swapped, ..d }).front_view() == d.front_view(),
        (DoubleBuffer { swapped: !d.swapped, ..d }).front_view() == d.back_view(),
{
}

/// What a texture update does with the shown buffer.
#[derive(Debug, Clone, Copy, PartialEq, Eq, Structural)]
pub enum TexturePlan {
    /// The texture is current.
    Keep,
    /// The buffer has no pixels; nothing is drawn.
    SkipEmpty,
    /// The buffer is converted to RGBA and made the texture.
    Convert,
}

/// What the texture shown for a viewport was made from.
pub struct TextureState {
    pub has_texture: bool,
    pub texture_dirty: bool,
    pub last_texture_generation: u64,
    pub last_width: u32,
    pub last_height: u32,
}

/// Whether the shown buffer has to be made the texture: there is none, it
/// was marked dirty, or the buffer changed since.
pub open spec fn needs_texture(t: TextureState, front: Framebuffer) -> bool {
    !t.has_texture || t.texture_dirty || front.generation != t.last_texture_generation
}

impl TextureState {
    /// No texture yet, for a buffer of the given size.
    pub fn new(width: u32, height: u32) -> (t: Self)
        ensures
            !t.has_texture,
            t.texture_dirty,
            t.last_texture_generation == 0,
            t.last_width == width,
            t.last_height == height,
    {
        TextureState {
            has_texture: false,
            texture_dirty: true,
            last_texture_generation: 0,
            last_width: width,
            last_height: height,
        }
    }

    /// Decides whether the shown buffer has to be made the texture: not
    /// when a texture of its generation exists and is clean; a change of
    /// size is recorded, and an empty buffer is skipped.
    pub fn plan(&mut self, front: &Framebuffer) -> (p: TexturePlan)
        ensures
            ({
                let needs = needs_texture(*old(self), *front);
                let resized = front.width != old(self).last_width || front.height != old(self).last_height;
                &&& !needs ==> p == TexturePlan::Keep && *final(self) == *old(self)
                &&& needs && resized ==> final(self).last_width == front.width && final(self).last_height
                    == front.height
                &&& needs && !resized ==> final(self).last_width == old(self).last_width
                    && final(self).last_height == old(self).last_height
                &&& needs ==> p == (if resized && (front.width == 0 || front.height == 0) {
                    TexturePlan::SkipEmpty
                } else {
                    TexturePlan::Convert
                })
                &&& final(self).has_texture == old(self).has_texture
                &&& final(self).texture_dirty == old(self).texture_dirty
                &&& final(self).last_texture_generation == old(self).last_texture_generation
            }),
    {
        let needs = !self.has_texture || self.texture_dirty || front.generation
            != self.last_texture_generation;
        if !needs {
            return TexturePlan::Keep;
        }
        if front.width != self.last_width || front.height != self.last_height {
            self.last_width = front.width;
            self.last_height = front.height;
            if front.width == 0 || front.height == 0 {
                return TexturePlan::SkipEmpty;
            }
        }
        TexturePlan::Convert
    }

    /// Records that a texture was made from a buffer of `generation`.
    pub fn texture_made(&mut self, generation: u64)
        ensures
            final(self).has_texture,
            !final(self).texture_dirty,
            final(self).last_texture_generation == generation,
            final(self).last_width == old(self).last_width,
            final(self).last_height == old(self).last_height,
    {
        self.has_texture = true;
        self.last_texture_generation = generation;
        self.texture_dirty = false;
    }
}

/// Once a texture was made from a buffer of some generation, the next
/// plan for a buffer of that generation keeps the texture.
pub proof fn law_made_texture_is_kept(t: TextureState, generation: u64, front: Framebuffer)
    requires
        front.generation == generation,
    ensures
        !needs_texture(
            TextureState {
                has_texture: true,
                texture_dirty: false,
                last_texture_generation: generation,
                ..t
            },
            front,
        ),
{
}

/// What the render thread receives: a command, or nothing within a frame's
/// time, or the end of the channel.
#[derive(Debug, Clone, Copy, PartialEq, Eq, Structural)]
pub enum RenderEvent {
    Render,
    Resize(u32, u32),
    Shutdown,
    Timeout,
    Disconnected,
}

/// What the render thread does next.
#[derive(Debug, Clone, Copy, PartialEq, Eq, Structural)]
pub enum RenderAction {
    /// Render a frame into the back buffer and swap.
    RenderFrame,
    /// Resize both buffers and tell the engine.
    Resize(u32, u32),
    /// Clean the engine up and stop.
    CleanupAndStop,
    /// Stop.
    Stop,
}

/// The render thread's step: render on request or after a frame's time
/// without a command, resize on request, stop on shutdown (cleaning the
/// engine up) or when the channel closes.
pub fn render_step(event: RenderEvent) -> (a: RenderAction)
    ensures
        a == match event {
            RenderEvent::Render | RenderEvent::Timeout => RenderAction::RenderFrame,
            RenderEvent::Resize(w, h) => RenderAction::Resize(w, h),
            RenderEvent::Shutdown => RenderAction::CleanupAndStop,
            RenderEvent::Disconnected => RenderAction::Stop,
        },
{
    match event {
        RenderEvent::Render | RenderEvent::Timeout => RenderAction::RenderFrame,
        RenderEvent::Resize(w, h) => RenderAction::Resize(w, h),
        RenderEvent::Shutdown => RenderAction::CleanupAndStop,
        RenderEvent::Disconnected => RenderAction::Stop,
    }
}

/// Clearing writes the colour in the buffer's own channel order: reading a
/// cleared buffer back as RGBA gives, for every whole pixel, the colour's
/// red, green, blue and alpha bytes (alpha opaque for three-byte formats),
/// whatever the buffer and the conversion buffer held before.
pub proof fn law_clear_reads_back(old: Seq<u8>, f: FramebufferFormat, color: [u8; 4], conv_old: Seq<u8>, i: int)
    requires
        0 <= i < 4 * (old.len() / format_bpp(f)),
    ensures
        converted(conv_old, filled(old, pixel_pattern(f, color)), f)[i] == (if i % 4 == 3 && format_bpp(f) == 3 {
            255u8
        } else {
            color[i % 4]
        }),
{
    let pat = pixel_pattern(f, color);
    let src = filled(old, pat);
    let len = old.len() as int;
    let b = format_bpp(f) as int;
    let c = i / 4;
    let k = i % 4;
    assert(0 <= c < len / b && i == 4 * c + k) by (nonlinear_arith)
        requires
            0 <= i < 4 * (len / b),
            b == 3 || b == 4,
            c == i / 4,
            k == i % 4,
            len >= 0,
    ;
    lemma_pixel_bounds(c, k, len, b);
    assert(b * (len / b) == len - len % b) by (nonlinear_arith)
        requires
            b == 3 || b == 4,
    ;
    assert forall|j: int| 0 <= j < b implies #[trigger] src[b * c + j] == pat[j] by {
        assert((b * c + j) % b == j) by (nonlinear_arith)
            requires
                b == 3 || b == 4,
                0 <= j < b,
                0 <= c,
        ;
        assert(b * c + j < len - len % b) by (nonlinear_arith)
            requires
                b * c + b <= b * (len / b),
                b * (len / b) == len - len % b,
                j < b,
        ;
    }
    match f {
        FramebufferFormat::Rgba8 => {
            assert(src[4 * c + k] == pat[k]);
        },
        FramebufferFormat::Bgra8 => {
            assert(src[4 * c + 0] == pat[0]);
            assert(src[4 * c + 1] == pat[1]);
            assert(src[4 * c + 2] == pat[2]);
            assert(src[4 * c + 3] == pat[3]);
        },
        _ => {
            assert(src[3 * c + 0] == pat[0]);
            assert(src[3 * c + 1] == pat[1]);
            assert(src[3 * c + 2] == pat[2]);
        },
    }
}

} // verus!
