use vstd::prelude::*;
use vstd::arithmetic::div_mod::{lemma_fundamental_div_mod_converse, lemma_small_mod, lemma_basic_div_specific_divisor, lemma_fundamental_div_mod};

use crate::color::{PixelColor, gradient_table_spec};

verus! {

/// Why a universe could not be built.
#[derive(Debug, Clone, Copy, PartialEq, Eq, Structural)]
pub enum ConfigError {
    /// Fewer than two colour stops.
    TooFewColors,
    /// An iteration cap of zero.
    ZeroMaxIter,
    /// A width or a height of zero.
    ZeroSize,
}

/// Why a frame could not be filled.
#[derive(Debug, Clone, Copy, PartialEq, Eq, Structural)]
pub enum RenderError {
    /// The frame holds fewer than four bytes per pixel.
    FrameTooSmall,
}

/// The colour of points that never escape.
pub open spec fn inside_color() -> PixelColor {
    PixelColor { r: 0, g: 0, b: 0, a: 255 }
}

/// The colour of a pixel whose orbit took `n` iterations.
pub open spec fn classify(n: u32, max_iter: nat, table: Seq<PixelColor>) -> PixelColor {
    if n == max_iter {
        inside_color()
    } else {
        table[n as int]
    }
}

/// The image of one pass over all pixels: pixel `i` is coloured from `counts[i]`.
pub open spec fn single_image(counts: Seq<u32>, max_iter: nat, table: Seq<PixelColor>) -> Seq<PixelColor> {
    Seq::new(counts.len(), |i: int| classify(counts[i], max_iter, table))
}

/// Pixels per worker when `len` pixels are shared among `threads` workers.
pub open spec fn slice_len(len: nat, threads: nat) -> nat {
    len / threads
}

/// The image of a partitioned pass: worker `t` has coloured pixels
/// `t * per .. (t + 1) * per` from `parts[t]`; the remainder keeps the inside colour.
pub open spec fn partitioned_image(
    parts: Seq<Seq<u32>>,
    len: nat,
    per: nat,
    max_iter: nat,
    table: Seq<PixelColor>,
) -> Seq<PixelColor> {
    Seq::new(
        len,
        |i: int|
            if i < parts.len() * per {
                classify(parts[i / per as int][i % per as int], max_iter, table)
            } else {
                inside_color()
            },
    )
}

/// The bytes of `data` in RGBA order, four per pixel.
pub open spec fn rgba_bytes(data: Seq<PixelColor>) -> Seq<u8> {
    Seq::new(
        4 * data.len(),
        |i: int|
            {
                let c = data[i / 4];
                if i % 4 == 0 {
                    c.r
                } else if i % 4 == 1 {
                    c.g
                } else if i % 4 == 2 {
                    c.b
                } else {
                    c.a
                }
            },
    )
}

/// What a universe holds: its size, worker count, iteration cap, gradient table and pixels.
pub struct UniverseView {
    pub width: nat,
    pub height: nat,
    pub threads: nat,
    pub max_iter: nat,
    pub table: Seq<PixelColor>,
    pub data: Seq<PixelColor>,
}

/// The universe after a pass with the counts `parts`, one sequence per worker.
pub open spec fn after_compute(u: UniverseView, parts: Seq<Seq<u32>>) -> UniverseView {
    UniverseView {
        data: partitioned_image(
            parts,
            u.width * u.height,
            slice_len(u.width * u.height, u.threads),
            u.max_iter,
            u.table,
        ),
        ..u
    }
}

/// The counts of each worker, as sequences.
pub open spec fn counts_view(parts: Seq<Vec<u32>>) -> Seq<Seq<u32>> {
    parts.map_values(|v: Vec<u32>| v@)
}

/// The universe after a resize to `width` by `height`, before any pass.
pub open spec fn after_resize(u: UniverseView, width: nat, height: nat) -> UniverseView {
    UniverseView {
        width,
        height,
        data: Seq::new(width * height, |i: int| inside_color()),
        ..u
    }
}

/// Counts fit for a pass of `u`: one sequence per worker, each of the worker's
/// length, and no count above the iteration cap.
pub open spec fn counts_fit(u: UniverseView, parts: Seq<Seq<u32>>) -> bool {
    &&& parts.len() == u.threads
    &&& forall|t: int|
        0 <= t < parts.len() ==> parts[t].len() == slice_len(u.width * u.height, u.threads)
    &&& forall|t: int, j: int|
        0 <= t < parts.len() && 0 <= j < parts[t].len() ==> parts[t][j] <= u.max_iter
}

/// The escape-time raster: a pixel buffer coloured from iteration counts
/// through a gradient table, with the work shared among a fixed number of workers.
pub struct MandelbrotUniverse {
    width: u32,
    height: u32,
    threads: usize,
    max_iter: u32,
    gradient_table: Vec<PixelColor>,
    data: Vec<PixelColor>,
}

impl View for MandelbrotUniverse {
    type V = UniverseView;

    closed spec fn view(&self) -> UniverseView {
        UniverseView {
            width: self.width as nat,
            height: self.height as nat,
            threads: self.threads as nat,
            max_iter: self.max_iter as nat,
            table: self.gradient_table@,
            data: self.data@,
        }
    }
}

fn inside() -> (c: PixelColor)
    ensures
        c == inside_color(),
{
    PixelColor::black()
}

fn inside_buffer(len: usize) -> (v: Vec<PixelColor>)
    ensures
        v@ == Seq::new(len as nat, |i: int| inside_color()),
{
    let mut v: Vec<PixelColor> = Vec::new();
    let mut i: usize = 0;
    while i < len
        invariant
            i <= len,
            v@ =~= Seq::new(i as nat, |k: int| inside_color()),
        decreases len - i,
    {
        v.push(inside());
        i = i + 1;
    }
    v
}

impl MandelbrotUniverse {
    /// The invariant of every universe.
    pub open spec fn wf(&self) -> bool {
        &&& self@.threads >= 1
        &&& self@.max_iter >= 1
        &&& self@.table.len() == self@.max_iter + 1
        &&& self@.width * self@.height <= usize::MAX
        &&& self@.data.len() == self@.width * self@.height
    }

    /// A universe of `width` by `height` pixels, all of the inside colour, with at
    /// least one worker and the gradient table of `colors` over `0..=max_iter`.
    pub fn new(width: u32, height: u32, threads: usize, colors: &Vec<PixelColor>, max_iter: u32) -> (r:
        Result<MandelbrotUniverse, ConfigError>)
        requires
            width * height <= usize::MAX,
        ensures
            colors.len() < 2 ==> r == Err::<MandelbrotUniverse, ConfigError>(ConfigError::TooFewColors),
            colors.len() >= 2 && max_iter == 0 ==> r == Err::<MandelbrotUniverse, ConfigError>(
                ConfigError::ZeroMaxIter,
            ),
            colors.len() >= 2 && max_iter >= 1 && (width == 0 || height == 0) ==> r == Err::<
                MandelbrotUniverse,
                ConfigError,
            >(ConfigError::ZeroSize),
            colors.len() >= 2 && max_iter >= 1 && width >= 1 && height >= 1 ==> r is Ok,
            r matches Ok(u) ==> {
                &&& u.wf()
                &&& u@.width == width
                &&& u@.height == height
                &&& u@.threads == if threads == 0 { 1 } else { threads as nat }
                &&& u@.max_iter == max_iter
                &&& u@.table == gradient_table_spec(max_iter as nat, colors@)
                &&& u@.data == Seq::new((width * height) as nat, |i: int| inside_color())
            },
    {
        if colors.len() < 2 {
            return Err(ConfigError::TooFewColors);
        }
        if max_iter == 0 {
            return Err(ConfigError::ZeroMaxIter);
        }
        if width == 0 || height == 0 {
            return Err(ConfigError::ZeroSize);
        }
        let gradient_table = PixelColor::compute_gradient_table(max_iter, colors);
        let threads = if threads == 0 { 1 } else { threads };
        let len: usize = (width as u64 * height as u64) as usize;
        let data = inside_buffer(len);
        Ok(MandelbrotUniverse { width, height, threads, max_iter, gradient_table, data })
    }

    pub fn width(&self) -> (r: u32)
        ensures
            r == self@.width,
    {
        self.width
    }

    pub fn height(&self) -> (r: u32)
        ensures
            r == self@.height,
    {
        self.height
    }

    pub fn threads(&self) -> (r: usize)
        ensures
            r == self@.threads,
    {
        self.threads
    }

    pub fn max_iter(&self) -> (r: u32)
        ensures
            r == self@.max_iter,
    {
        self.max_iter
    }

    /// The number of pixels.
    pub fn len(&self) -> (r: usize)
        requires
            self.wf(),
        ensures
            r == self@.width * self@.height,
    {
        self.data.len()
    }

    /// The colour of pixel `idx`, row-major.
    pub fn pixel(&self, idx: usize) -> (c: PixelColor)
        requires
            self.wf(),
            idx < self@.width * self@.height,
        ensures
            c == self@.data[idx as int],
    {
        self.data[idx]
    }

    /// The pixels that each worker computes: `len / threads`.
    pub fn slice_len(&self) -> (r: usize)
        requires
            self.wf(),
        ensures
            r == slice_len(self@.width * self@.height, self@.threads),
    {
        self.data.len() / self.threads
    }

    /// Replaces the size and the buffer: `width * height` pixels of the inside colour.
    /// The next pass fills it.
    pub fn resize(&mut self, width: u32, height: u32)
        requires
            old(self).wf(),
            width * height <= usize::MAX,
        ensures
            final(self).wf(),
            final(self)@ == after_resize(old(self)@, width as nat, height as nat),
    {
        self.width = width;
        self.height = height;
        let len: usize = (width as u64 * height as u64) as usize;
        self.data = inside_buffer(len);
    }

    /// The column and row of pixel `idx`, row-major.
    pub fn rev_convert_idx(&self, idx: usize) -> (r: (u32, u32))
        requires
            self.wf(),
            idx < self@.width * self@.height,
        ensures
            r.0 == idx as nat % self@.width,
            r.1 == idx as nat / self@.width,
    {
        assert(self.width > 0 && (idx as nat) / (self.width as nat) < self.height) by (nonlinear_arith)
            requires
                idx < self.width * self.height,
                idx >= 0,
        ;
        let x: u32 = (idx % (self.width as usize)) as u32;
        let y: u32 = (idx / (self.width as usize)) as u32;
        (x, y)
    }

    /// The colour of a pixel whose orbit took `n` iterations.
    fn color_of(&self, n: u32) -> (c: PixelColor)
        requires
            self.wf(),
            n <= self@.max_iter,
        ensures
            c == classify(n, self@.max_iter, self@.table),
    {
        if n == self.max_iter {
            inside()
        } else {
            self.gradient_table[n as usize]
        }
    }

    /// One pass over all pixels: pixel `i` is coloured from `counts[i]`.
    pub fn compute_single_thread(&mut self, counts: &Vec<u32>)
        requires
            old(self).wf(),
            counts.len() == old(self)@.width * old(self)@.height,
            forall|i: int| 0 <= i < counts.len() ==> counts@[i] <= old(self)@.max_iter,
        ensures
            final(self).wf(),
            final(self)@ == (UniverseView {
                data: single_image(counts@, old(self)@.max_iter, old(self)@.table),
                ..old(self)@
            }),
    {
        let n = self.data.len();
        let mut idx: usize = 0;
        while idx < n
            invariant
                self.wf(),
                n == counts.len(),
                n == self@.data.len(),
                idx <= n,
                self@.width == old(self)@.width,
                self@.height == old(self)@.height,
                self@.threads == old(self)@.threads,
                self@.max_iter == old(self)@.max_iter,
                self@.table == old(self)@.table,
                forall|i: int| 0 <= i < counts.len() ==> counts@[i] <= old(self)@.max_iter,
                forall|i: int|
                    0 <= i < idx ==> self@.data[i] == classify(counts@[i], self@.max_iter, self@.table),
            decreases n - idx,
        {
            let color = self.color_of(counts[idx]);
            self.data.set(idx, color);
            idx = idx + 1;
        }
        assert(self@.data =~= single_image(counts@, self@.max_iter, self@.table));
    }

    /// A partitioned pass: worker `t` has computed the counts `parts[t]` of pixels
    /// `t * per .. (t + 1) * per`, where `per = len / threads`; they are assembled
    /// into a fresh buffer that then replaces the old one. Pixels past
    /// `threads * per` keep the inside colour.
    pub fn compute_multi_thread(&mut self, parts: &Vec<Vec<u32>>)
        requires
            old(self).wf(),
            counts_fit(old(self)@, counts_view(parts@)),
        ensures
            final(self).wf(),
            final(self)@ == after_compute(old(self)@, counts_view(parts@)),
    {
        let ghost cv = counts_view(parts@);
        let len = self.data.len();
        let threads = self.threads;
        let per = len / threads;
        let ghost lenn = len as nat;
        let ghost pern = per as nat;
        assert(threads * per <= len) by (nonlinear_arith)
            requires
                per == len / threads,
                threads >= 1,
        ;
        let mut fresh = inside_buffer(len);
        let mut t: usize = 0;
        while t < threads
            invariant
                self.wf(),
                self@ == old(self)@,
                cv == counts_view(parts@),
                counts_fit(self@, cv),
                len == self@.width * self@.height,
                threads == self@.threads,
                per == slice_len(lenn, threads as nat),
                lenn == len,
                pern == per,
                threads * per <= len,
                t <= threads,
                fresh@.len() == len,
                forall|i: int|
                    0 <= i < t * per ==> fresh@[i] == classify(
                        cv[i / per as int][i % per as int],
                        self@.max_iter,
                        self@.table,
                    ),
                forall|i: int| t * per <= i < len ==> fresh@[i] == inside_color(),
            decreases threads - t,
        {
            let part = &parts[t];
            assert(part@ == cv[t as int]);
            assert(t * per + per <= threads * per) by (nonlinear_arith)
                requires
                    t < threads,
                    per >= 0,
            ;
            assert(cv[t as int].len() == slice_len(self@.width * self@.height, self@.threads));
            let base: usize = t * per;
            let mut j: usize = 0;
            while j < per
                invariant
                    self.wf(),
                    self@ == old(self)@,
                    cv == counts_view(parts@),
                    counts_fit(self@, cv),
                    part@ == cv[t as int],
                    part@.len() == per,
                    t < threads,
                    threads == self@.threads,
                    parts@.len() == threads,
                    base == t * per,
                    base + per <= len,
                    per == pern,
                    j <= per,
                    fresh@.len() == len,
                    forall|i: int|
                        0 <= i < base + j ==> fresh@[i] == classify(
                            cv[i / per as int][i % per as int],
                            self@.max_iter,
                            self@.table,
                        ),
                    forall|i: int| base + j <= i < len ==> fresh@[i] == inside_color(),
                decreases per - j,
            {
                assert(cv[t as int][j as int] <= self@.max_iter);
                let color = self.color_of(part[j]);
                proof {
                    lemma_fundamental_div_mod_converse(
                        (base + j) as int,
                        per as int,
                        t as int,
                        j as int,
                    );
                }
                fresh.set(base + j, color);
                j = j + 1;
            }
            t = t + 1;
            assert((t - 1) * per + per == t * per) by (nonlinear_arith);
        }
        self.data = fresh;
        assert(self@.data =~= partitioned_image(cv, lenn, pern, self@.max_iter, self@.table));
    }


    /// A full pass from the counts of each worker: with one worker a single pass
    /// over `parts[0]`, else the partitioned pass.
    pub fn compute(&mut self, parts: &Vec<Vec<u32>>)
        requires
            old(self).wf(),
            counts_fit(old(self)@, counts_view(parts@)),
        ensures
            final(self).wf(),
            final(self)@ == after_compute(old(self)@, counts_view(parts@)),
    {
        if self.threads == 1 {
            let ghost cv = counts_view(parts@);
            let ghost len = self@.width * self@.height;
            let ghost u = self@;
            let counts = &parts[0];
            assert(counts@ == cv[0]);
            assert forall|i: int| 0 <= i < counts@.len() implies counts@[i] <= self@.max_iter by {
                assert(cv[0][i] <= self@.max_iter);
            }
            self.compute_single_thread(counts);
            proof {
                if len > 0 {
                    lemma_basic_div_specific_divisor(len as int);
                    assert forall|i: int| 0 <= i < len implies #[trigger] (i % (len as int)) == i by {
                        lemma_small_mod(i as nat, len);
                    }
                }
                assert(self@.data =~= partitioned_image(cv, len, slice_len(len, 1), u.max_iter, u.table));
            }
        } else {
            self.compute_multi_thread(parts);
        }
    }

    /// Copies the pixels into `frame` as RGBA bytes, four per pixel. A frame of
    /// fewer than `4 * width * height` bytes is left as it was and reported.
    pub fn render(&self, frame: &mut [u8]) -> (r: Result<(), RenderError>)
        requires
            self.wf(),
        ensures
            old(frame)@.len() < 4 * self@.data.len() ==> r == Err::<(), RenderError>(RenderError::FrameTooSmall)
                && final(frame)@ == old(frame)@,
            old(frame)@.len() >= 4 * self@.data.len() ==> r is Ok && final(frame)@ == rgba_bytes(self@.data)
                + old(frame)@.subrange(4 * self@.data.len() as int, old(frame)@.len() as int),
    {
        let n = self.data.len();
        if frame.len() / 4 < n {
            return Err(RenderError::FrameTooSmall);
        }
        let ghost before = frame@;
        let ghost cap = frame.len();
        let mut i: usize = 0;
        while i < n
            invariant
                self.wf(),
                n == self@.data.len(),
                4 * n <= before.len(),
                before.len() == cap,
                cap <= usize::MAX,
                i <= n,
                frame@.len() == before.len(),
                forall|k: int| 0 <= k < 4 * i ==> frame@[k] == rgba_bytes(self@.data)[k],
                forall|k: int| 4 * n <= k < before.len() ==> frame@[k] == before[k],
            decreases n - i,
        {
            let c = self.data[i];
            frame[4 * i] = c.r;
            frame[4 * i + 1] = c.g;
            frame[4 * i + 2] = c.b;
            frame[4 * i + 3] = c.a;
            assert forall|k: int| 4 * i <= k < 4 * i + 4 implies frame@[k] == rgba_bytes(self@.data)[k] by {
                assert(k / 4 == i);
            }
            i = i + 1;
        }
        assert(frame@ =~= rgba_bytes(self@.data) + before.subrange(4 * n as int, before.len() as int));
        Ok(())
    }

}

/// A pass depends on the counts and the universe's settings alone, not on the
/// pixels it replaces: two passes with the same counts leave the same buffer.
pub proof fn lemma_compute_idempotent(u: UniverseView, parts: Seq<Seq<u32>>)
    ensures
        after_compute(after_compute(u, parts), parts) == after_compute(u, parts),
{
}

/// Resizing to another size and back, then computing, gives what a pass at the
/// original size gives: nothing of the intermediate size remains.
pub proof fn lemma_resize_round_trip(u: UniverseView, width: nat, height: nat, parts: Seq<Seq<u32>>)
    ensures
        after_resize(after_resize(u, width, height), u.width, u.height) == after_resize(u, u.width, u.height),
        after_compute(after_resize(after_resize(u, width, height), u.width, u.height), parts)
            == after_compute(u, parts),
{
    assert(after_resize(after_resize(u, width, height), u.width, u.height) == after_resize(u, u.width, u.height));
}

/// Where the pixel count is a multiple of the worker count and each worker has
/// computed the counts of its own slice, the partitioned image is the image of a
/// single pass over all counts.
pub proof fn lemma_partitioned_matches_single(
    counts: Seq<u32>,
    parts: Seq<Seq<u32>>,
    threads: nat,
    max_iter: nat,
    table: Seq<PixelColor>,
)
    requires
        threads >= 1,
        counts.len() % threads == 0,
        parts.len() == threads,
        forall|t: int|
            0 <= t < threads ==> (#[trigger] parts[t]).len() == slice_len(counts.len(), threads),
        forall|t: int, j: int|
            0 <= t < threads && 0 <= j < slice_len(counts.len(), threads) ==> #[trigger] parts[t][j]
                == counts[t * slice_len(counts.len(), threads) + j],
    ensures
        partitioned_image(parts, counts.len(), slice_len(counts.len(), threads), max_iter, table)
            == single_image(counts, max_iter, table),
{
    let len = counts.len();
    let per = slice_len(len, threads);
    lemma_fundamental_div_mod(len as int, threads as int);
    assert(len == threads * per);
    assert forall|i: int| 0 <= i < len implies parts[i / per as int][i % per as int] == counts[i] by {
        let t = i / per as int;
        let j = i % per as int;
        lemma_fundamental_div_mod(i, per as int);
        assert(i == per * t + j);
        assert(0 <= t < threads) by (nonlinear_arith)
            requires
                i == per * t + j,
                0 <= j < per,
                0 <= i < threads * per,
        ;
        assert(parts[t][j] == counts[t * per + j]);
        assert(t * per + j == i) by (nonlinear_arith)
            requires
                i == per * t + j,
        ;
    }
    assert(partitioned_image(parts, len, per, max_iter, table) =~= single_image(counts, max_iter, table));
}

} // verus!
