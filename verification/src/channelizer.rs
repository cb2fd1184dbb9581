use vstd::prelude::*;

verus! {

/// One complex sample as the SDR delivers it: signed 8-bit I and Q.
#[derive(Debug, Clone, Copy, PartialEq, Eq, Structural)]
pub struct ComplexI8 {
    pub re: i8,
    pub im: i8,
}

/// One complex value of the integer filter path, before the float scaling.
#[derive(Debug, Clone, Copy, PartialEq, Eq, Structural)]
pub struct ComplexI32 {
    pub re: i32,
    pub im: i32,
}

/// The dot product of the first `n` elements of two sequences.
pub open spec fn spec_dot(a: Seq<i32>, b: Seq<i32>, n: int) -> int
    decreases n,
{
    if n <= 0 {
        0
    } else {
        spec_dot(a, b, n - 1) + a[n - 1] * b[n - 1]
    }
}

/// The arithmetic right shift of `x` by eight bits: division by 256
/// rounding toward minus infinity.
pub open spec fn spec_shr8(x: int) -> int {
    if x >= 0 {
        x / 256
    } else {
        -((-x + 255) / 256)
    }
}

/// The filter bank: one reversed polyphase arm per channel, taps quantised
/// to 16-bit.
#[derive(Debug)]
pub struct FilterBank {
    pub subfilters: Vec<Vec<i32>>,
}

impl FilterBank {
    /// Split a quantised prototype low-pass of length `2 * m * num_channels
    /// + 1` into `num_channels` arms of `2 * m` taps and reverse each arm,
    /// so that convolution becomes a straight dot product.
    pub fn from_filter(filter: &[i32], num_channels: usize, m: usize) -> (r: FilterBank)
        requires
            num_channels >= 1,
            m >= 1,
            2 * m <= 4096,
            filter@.len() == 2 * m * num_channels + 1,
            forall|t: int| 0 <= t < filter@.len() ==> -32768 <= #[trigger] filter@[t] <= 32768,
        ensures
            r.subfilters@.len() == num_channels,
            forall|ch: int|
                0 <= ch < num_channels ==> (#[trigger] r.subfilters@[ch])@.len() == 2 * m,
            forall|ch: int, pos: int|
                0 <= ch < num_channels && 0 <= pos < 2 * m ==> (#[trigger] r.subfilters@[ch]@[pos])
                    == filter@[(2 * m - 1 - pos) * num_channels + ch],
    {
        let sub_len = 2 * m;
        let flen = filter.len();
        let mut subfilters: Vec<Vec<i32>> = Vec::new();

        for ch in 0..num_channels
            invariant
                num_channels >= 1,
                m >= 1,
                sub_len == 2 * m,
                2 * m <= 4096,
                filter@.len() == 2 * m * num_channels + 1,
                flen == filter@.len(),
                subfilters@.len() == ch,
                forall|c: int| 0 <= c < ch ==> (#[trigger] subfilters@[c])@.len() == 2 * m,
                forall|c: int, pos: int|
                    0 <= c < ch && 0 <= pos < 2 * m ==> (#[trigger] subfilters@[c]@[pos])
                        == filter@[(2 * m - 1 - pos) * num_channels + c],
        {
            let mut sf: Vec<i32> = Vec::new();
            for pos in 0..sub_len
                invariant
                    num_channels >= 1,
                    m >= 1,
                    sub_len == 2 * m,
                    2 * m <= 4096,
                    ch < num_channels,
                    filter@.len() == 2 * m * num_channels + 1,
                    flen == filter@.len(),
                    sf@.len() == pos,
                    forall|p: int|
                        0 <= p < pos ==> (#[trigger] sf@[p]) == filter@[(2 * m - 1 - p)
                            * num_channels + ch],
            {
                proof {
                    assert((2 * m - 1 - pos) * num_channels + ch < 2 * m * num_channels + 1)
                        by (nonlinear_arith)
                        requires
                            0 <= pos < 2 * m,
                            0 <= ch < num_channels,
                            1 <= m,
                    ;
                    assert((2 * m - 1 - pos) * num_channels >= 0) by (nonlinear_arith)
                        requires
                            0 <= pos < 2 * m,
                            1 <= num_channels,
                    ;
                }
                let idx = (sub_len - 1 - pos) * num_channels + ch;
                sf.push(filter[idx]);
            }
            subfilters.push(sf);
        }

        FilterBank { subfilters }
    }
}

/// Position of the write cursor after one push: one step forward, wrapping
/// at the guard-region size.
pub open spec fn next_pos(pos: int, offset: int) -> int {
    if pos + 1 == offset {
        0
    } else {
        pos + 1
    }
}

/// The backing store of a window after one push of `v`: on wrap the guard
/// tail is copied back to the head, then `v` lands at the write position.
pub open spec fn pushed_seq(s: Seq<i32>, pos: int, len: int, offset: int, v: i32) -> Seq<i32> {
    let np = next_pos(pos, offset);
    let base = if np == 0 {
        Seq::new(s.len(), |t: int| if t < len - 1 { s[offset + t] } else { s[t] })
    } else {
        s
    };
    base.update(np + len - 1, v)
}

/// `w2` is `w1` after one push of `x`.
pub open spec fn is_pushed(w2: SlidingWindow, w1: SlidingWindow, x: ComplexI8) -> bool {
    &&& w2.len == w1.len
    &&& w2.offset == w1.offset
    &&& w2.current_pos == next_pos(w1.current_pos as int, w1.offset as int)
    &&& w2.r@ == pushed_seq(
        w1.r@,
        w1.current_pos as int,
        w1.len as int,
        w1.offset as int,
        x.re as i32,
    )
    &&& w2.i@ == pushed_seq(
        w1.i@,
        w1.current_pos as int,
        w1.len as int,
        w1.offset as int,
        x.im as i32,
    )
}

/// A circular buffer of the `len` most recent samples of one polyphase arm,
/// with a guard region so that the current `len` samples can always be read
/// contiguously at `current_pos`.
#[derive(Debug)]
pub struct SlidingWindow {
    pub current_pos: usize,
    pub len: usize,
    pub offset: usize,
    pub r: Vec<i32>,
    pub i: Vec<i32>,
}

impl SlidingWindow {
    /// The window is consistent: the guard region is twice the arm length,
    /// the cursor is inside it, the stores cover arm plus guard, and every
    /// stored value is a sign-extended 8-bit sample.
    pub open spec fn wf(&self) -> bool {
        &&& 1 <= self.len <= 4096
        &&& self.offset == 2 * self.len
        &&& self.current_pos < self.offset
        &&& self.r@.len() == self.len + self.offset - 1
        &&& self.i@.len() == self.len + self.offset - 1
        &&& forall|t: int| 0 <= t < self.r@.len() ==> -128 <= #[trigger] self.r@[t] <= 127
        &&& forall|t: int| 0 <= t < self.i@.len() ==> -128 <= #[trigger] self.i@[t] <= 127
    }

    pub fn new(len: usize) -> (r: Self)
        requires
            1 <= len <= 4096,
            len & (((len - 1) as usize)) == 0,
        ensures
            r.wf(),
            r.len == len,
            r.offset == 2 * len,
            r.current_pos == 0,
            r.r@ == Seq::new((3 * len - 1) as nat, |t: int| 0i32),
            r.i@ == Seq::new((3 * len - 1) as nat, |t: int| 0i32),
    {
        let offset = 2 * len;
        let store = len + offset - 1;

        let mut rv: Vec<i32> = Vec::new();
        let mut iv: Vec<i32> = Vec::new();
        for t in 0..store
            invariant
                store == 3 * len - 1,
                rv@.len() == t,
                iv@.len() == t,
                forall|u: int| 0 <= u < t ==> #[trigger] rv@[u] == 0i32,
                forall|u: int| 0 <= u < t ==> #[trigger] iv@[u] == 0i32,
        {
            rv.push(0);
            iv.push(0);
        }

        proof {
            assert(rv@ =~= Seq::new((3 * len - 1) as nat, |t: int| 0i32));
            assert(iv@ =~= Seq::new((3 * len - 1) as nat, |t: int| 0i32));
        }

        Self { current_pos: 0, len, offset, r: rv, i: iv }
    }

    /// Push one sample: advance the cursor, copy the guard tail back to the
    /// head on wrap, and store the sample at the write position.
    pub fn push(&mut self, data: ComplexI8)
        requires
            old(self).wf(),
        ensures
            final(self).wf(),
            is_pushed(*final(self), *old(self), data),
    {
        let re = data.re;
        let im = data.im;

        self.current_pos += 1;
        if self.current_pos == self.offset {
            self.current_pos = 0;
        }

        if self.current_pos == 0 {
            let ghost r0 = self.r@;
            let ghost i0 = self.i@;
            let end = self.len - 1;
            for t in 0..end
                invariant
                    old(self).wf(),
                    end == old(self).len - 1,
                    self.len == old(self).len,
                    self.offset == old(self).offset,
                    self.current_pos == 0,
                    self.r@.len() == r0.len(),
                    self.i@.len() == i0.len(),
                    r0 == old(self).r@,
                    i0 == old(self).i@,
                    forall|u: int| 0 <= u < t ==> #[trigger] self.r@[u] == r0[old(self).offset + u],
                    forall|u: int| t <= u < r0.len() ==> #[trigger] self.r@[u] == r0[u],
                    forall|u: int| 0 <= u < t ==> #[trigger] self.i@[u] == i0[old(self).offset + u],
                    forall|u: int| t <= u < i0.len() ==> #[trigger] self.i@[u] == i0[u],
            {
                let vr = self.r[self.offset + t];
                self.r[t] = vr;
                let vi = self.i[self.offset + t];
                self.i[t] = vi;
            }
            proof {
                let np = 0int;
                let l = old(self).len as int;
                let off = old(self).offset as int;
                assert(self.r@ =~= Seq::new(
                    r0.len(),
                    |t: int| if t < l - 1 { r0[off + t] } else { r0[t] },
                ));
                assert(self.i@ =~= Seq::new(
                    i0.len(),
                    |t: int| if t < l - 1 { i0[off + t] } else { i0[t] },
                ));
            }
        }

        let write_pos = self.current_pos + self.len - 1;

        self.r[write_pos] = re as i32;
        self.i[write_pos] = im as i32;
    }

    /// The `len` most recent real samples, oldest first.
    pub open spec fn window_r(&self) -> Seq<i32> {
        self.r@.subrange(self.current_pos as int, self.current_pos + self.len)
    }

    /// The `len` most recent imaginary samples, oldest first.
    pub open spec fn window_i(&self) -> Seq<i32> {
        self.i@.subrange(self.current_pos as int, self.current_pos + self.len)
    }

    /// Dot product of the current window with one reversed polyphase arm,
    /// shifted right by eight bits for the SDR's sample format.
    pub fn apply_filter(&self, filter: &[i32]) -> (r: ComplexI32)
        requires
            self.wf(),
            filter@.len() == self.len,
            forall|t: int| 0 <= t < filter@.len() ==> -32768 <= #[trigger] filter@[t] <= 32768,
        ensures
            r.re == spec_shr8(spec_dot(self.window_r(), filter@, self.len as int)),
            r.im == spec_shr8(spec_dot(self.window_i(), filter@, self.len as int)),
    {
        let mut acc_r: i64 = 0;
        let mut acc_i: i64 = 0;

        for t in 0..self.len
            invariant
                self.wf(),
                filter@.len() == self.len,
                forall|u: int| 0 <= u < filter@.len() ==> -32768 <= #[trigger] filter@[u] <= 32768,
                acc_r == spec_dot(self.window_r(), filter@, t as int),
                acc_i == spec_dot(self.window_i(), filter@, t as int),
                -4194304 * (t as int) <= acc_r <= 4194304 * (t as int),
                -4194304 * (t as int) <= acc_i <= 4194304 * (t as int),
        {
            let sr = self.r[self.current_pos + t];
            let si = self.i[self.current_pos + t];
            let f = filter[t];
            proof {
                assert(sr == self.window_r()[t as int]);
                assert(si == self.window_i()[t as int]);
                assert(-4194304 <= (sr as int) * (f as int) <= 4194304) by (nonlinear_arith)
                    requires
                        -128 <= sr <= 127,
                        -32768 <= f <= 32768,
                ;
                assert(-4194304 <= (si as int) * (f as int) <= 4194304) by (nonlinear_arith)
                    requires
                        -128 <= si <= 127,
                        -32768 <= f <= 32768,
                ;
            }
            acc_r += (sr as i64) * (f as i64);
            acc_i += (si as i64) * (f as i64);
        }

        let re = shr8_i64(acc_r);
        let im = shr8_i64(acc_i);

        ComplexI32 { re, im }
    }
}

/// The arithmetic right shift by eight bits of a bounded accumulator,
/// computed as flooring division by 256.
fn shr8_i64(x: i64) -> (r: i32)
    requires
        -17179869184 <= x <= 17179869184,
    ensures
        r == spec_shr8(x as int),
{
    if x >= 0 {
        proof {
            assert(x / 256 <= 17179869184int / 256) by (nonlinear_arith)
                requires
                    0 <= x <= 17179869184,
            ;
        }
        (x / 256) as i32
    } else {
        proof {
            assert((-x + 255) / 256 <= 17179869439int / 256) by (nonlinear_arith)
                requires
                    -17179869184 <= x < 0,
            ;
        }
        (-((-x + 255) / 256)) as i32
    }
}

/// Which window receives commutator input `i`: the lower half of the
/// windows on even blocks, counted down; the upper half on odd blocks.
pub open spec fn spec_target(flag: bool, num_channels: int, i: int) -> int {
    if flag {
        num_channels - i - 1
    } else {
        num_channels / 2 - i - 1
    }
}

/// The 2x oversampled polyphase channelizer, integer path: the sliding
/// windows, the filter bank, and the half-block parity flag.  The float
/// scaling and the inverse DFT that follow sit outside the library.
#[derive(Debug)]
pub struct Channelizer {
    pub num_channels: usize,
    pub filter_bank: FilterBank,
    pub windows: Vec<SlidingWindow>,
    pub channel_half: usize,
    pub flag: bool,
}

impl Channelizer {
    pub open spec fn wf(&self) -> bool {
        &&& 2 <= self.num_channels <= 65536
        &&& self.num_channels % 2 == 0
        &&& self.channel_half == self.num_channels / 2
        &&& self.windows@.len() == self.num_channels
        &&& self.filter_bank.subfilters@.len() == self.num_channels
        &&& forall|k: int| 0 <= k < self.num_channels ==> (#[trigger] self.windows@[k]).wf()
        &&& forall|k: int|
            0 <= k < self.num_channels ==> (#[trigger] self.windows@[k]).len
                == self.windows@[0].len
        &&& forall|k: int|
            0 <= k < self.num_channels ==> (#[trigger] self.filter_bank.subfilters@[k])@.len()
                == self.windows@[0].len
        &&& forall|k: int, t: int|
            0 <= k < self.num_channels && 0 <= t < self.filter_bank.subfilters@[k]@.len()
                ==> -32768 <= #[trigger] self.filter_bank.subfilters@[k]@[t] <= 32768
    }

    /// Build a channelizer from the quantised taps of the Kaiser prototype
    /// low-pass, `2 * m * num_channels + 1` of them, quantised to 16-bit.
    pub fn new(num_channels: usize, m: usize, filter: &[i32]) -> (r: Self)
        requires
            2 <= num_channels <= 65536,
            num_channels % 2 == 0,
            1 <= m,
            2 * m <= 4096,
            ((2 * m) as usize) & ((2 * m - 1) as usize) == 0,
            filter@.len() == 2 * m * num_channels + 1,
            forall|t: int| 0 <= t < filter@.len() ==> -32768 <= #[trigger] filter@[t] <= 32768,
        ensures
            r.wf(),
            r.num_channels == num_channels,
            r.channel_half == num_channels / 2,
            !r.flag,
            forall|ch: int, pos: int|
                0 <= ch < num_channels && 0 <= pos < 2 * m ==> (
                #[trigger] r.filter_bank.subfilters@[ch]@[pos]) == filter@[(2 * m - 1 - pos)
                    * num_channels + ch],
            forall|k: int|
                0 <= k < num_channels ==> (#[trigger] r.windows@[k]).current_pos == 0
                    && r.windows@[k].len == 2 * m,
    {
        let sub_len = 2 * m;

        let mut windows: Vec<SlidingWindow> = Vec::new();
        for k in 0..num_channels
            invariant
                1 <= m,
                2 * m <= 4096,
                sub_len == 2 * m,
                ((2 * m) as usize) & ((2 * m - 1) as usize) == 0,
                windows@.len() == k,
                forall|j: int| 0 <= j < k ==> (#[trigger] windows@[j]).wf(),
                forall|j: int|
                    0 <= j < k ==> (#[trigger] windows@[j]).len == 2 * m && windows@[j].current_pos
                        == 0,
        {
            windows.push(SlidingWindow::new(sub_len));
        }

        let filter_bank = FilterBank::from_filter(filter, num_channels, m);

        proof {
            assert forall|k: int, t: int|
                0 <= k < num_channels && 0 <= t < filter_bank.subfilters@[k]@.len() implies -32768
                <= #[trigger] filter_bank.subfilters@[k]@[t] <= 32768 by {
                assert(filter_bank.subfilters@[k]@[t] == filter@[(2 * m - 1 - t) * num_channels
                    + k]);
                assert((2 * m - 1 - t) * num_channels + k < filter@.len()) by (nonlinear_arith)
                    requires
                        0 <= t < 2 * m,
                        0 <= k < num_channels,
                        1 <= m,
                        filter@.len() == 2 * m * num_channels + 1,
                ;
                assert((2 * m - 1 - t) * num_channels >= 0) by (nonlinear_arith)
                    requires
                        0 <= t < 2 * m,
                        1 <= num_channels,
                ;
            }
        }

        Self {
            num_channels,
            channel_half: num_channels / 2,
            filter_bank,
            windows,
            flag: false,
        }
    }

    /// The rotation of the filter bank for the current half-block parity.
    fn get_offset(&self) -> (r: usize)
        requires
            self.wf(),
        ensures
            r == if self.flag {
                self.channel_half as int
            } else {
                0int
            },
    {
        if self.flag {
            self.channel_half
        } else {
            0
        }
    }

    /// Channelize one half-block: push the `num_channels / 2` input samples
    /// into the commutator's windows for the current parity, emit one
    /// filtered value per channel, and flip the parity.  Each call consumes
    /// `num_channels / 2` samples and produces `num_channels` values.
    pub fn channelize(&mut self, input: &[ComplexI8]) -> (r: Vec<ComplexI32>)
        requires
            old(self).wf(),
            input@.len() == old(self).channel_half,
        ensures
            final(self).wf(),
            r@.len() == old(self).num_channels,
            final(self).num_channels == old(self).num_channels,
            final(self).channel_half == old(self).channel_half,
            final(self).flag == !old(self).flag,
            final(self).filter_bank == old(self).filter_bank,
            forall|i: int|
                0 <= i < old(self).channel_half ==> is_pushed(
                    #[trigger] final(self).windows@[spec_target(
                        old(self).flag,
                        old(self).num_channels as int,
                        i,
                    )],
                    old(self).windows@[spec_target(
                        old(self).flag,
                        old(self).num_channels as int,
                        i,
                    )],
                    input@[i],
                ),
            forall|k: int|
                0 <= k < old(self).num_channels && (if old(self).flag {
                    k < old(self).channel_half
                } else {
                    k >= old(self).channel_half
                }) ==> #[trigger] final(self).windows@[k] == old(self).windows@[k],
            ({
                let off = if old(self).flag {
                    old(self).channel_half as int
                } else {
                    0int
                };
                let n = old(self).num_channels as int;
                forall|k: int|
                    0 <= k < n ==> {
                        let sf = final(self).filter_bank.subfilters@[(off + k) % n]@;
                        let w = final(self).windows@[k];
                        (#[trigger] r@[k]).re == spec_shr8(spec_dot(w.window_r(), sf, w.len as int))
                            && r@[k].im == spec_shr8(spec_dot(w.window_i(), sf, w.len as int))
                    }
            }),
    {
        let offset = self.get_offset();
        let n = self.num_channels;
        let half = self.channel_half;

        if self.flag {
            for i in 0..half
                invariant
                    old(self).wf(),
                    old(self).flag,
                    n == old(self).num_channels,
                    half == old(self).channel_half,
                    input@.len() == half,
                    self.num_channels == n,
                    self.channel_half == half,
                    self.flag == old(self).flag,
                    self.filter_bank == old(self).filter_bank,
                    self.windows@.len() == n,
                    forall|k: int|
                        0 <= k < n - i ==> #[trigger] self.windows@[k] == old(self).windows@[k],
                    forall|j: int|
                        0 <= j < i ==> is_pushed(
                            #[trigger] self.windows@[n - j - 1],
                            old(self).windows@[n - j - 1],
                            input@[j],
                        ),
                    forall|k: int| 0 <= k < n ==> (#[trigger] self.windows@[k]).wf(),
                    forall|k: int|
                        0 <= k < n ==> (#[trigger] self.windows@[k]).len == old(
                            self,
                        ).windows@[0].len,
            {
                let widx = n - i - 1;
                self.windows[widx].push(input[i]);
            }
        } else {
            for i in 0..half
                invariant
                    old(self).wf(),
                    !old(self).flag,
                    n == old(self).num_channels,
                    half == old(self).channel_half,
                    input@.len() == half,
                    self.num_channels == n,
                    self.channel_half == half,
                    self.flag == old(self).flag,
                    self.filter_bank == old(self).filter_bank,
                    self.windows@.len() == n,
                    forall|k: int|
                        0 <= k < half - i || half <= k < n ==> #[trigger] self.windows@[k] == old(
                            self,
                        ).windows@[k],
                    forall|j: int|
                        0 <= j < i ==> is_pushed(
                            #[trigger] self.windows@[half - j - 1],
                            old(self).windows@[half - j - 1],
                            input@[j],
                        ),
                    forall|k: int| 0 <= k < n ==> (#[trigger] self.windows@[k]).wf(),
                    forall|k: int|
                        0 <= k < n ==> (#[trigger] self.windows@[k]).len == old(
                            self,
                        ).windows@[0].len,
            {
                let widx = half - i - 1;
                self.windows[widx].push(input[i]);
            }
        }

        let mut out: Vec<ComplexI32> = Vec::new();
        let ghost pushed = *self;

        for k in 0..n
            invariant
                pushed.wf(),
                n == pushed.num_channels,
                half == pushed.channel_half,
                offset == if pushed.flag {
                    half as int
                } else {
                    0int
                },
                *self == pushed,
                out@.len() == k,
                forall|j: int|
                    0 <= j < k ==> {
                        let sf = pushed.filter_bank.subfilters@[(offset + j) % (n as int)]@;
                        let w = pushed.windows@[j];
                        (#[trigger] out@[j]).re == spec_shr8(
                            spec_dot(w.window_r(), sf, w.len as int),
                        ) && out@[j].im == spec_shr8(spec_dot(w.window_i(), sf, w.len as int))
                    },
        {
            let pos = (offset + k) % n;
            let v = self.windows[k].apply_filter(self.filter_bank.subfilters[pos].as_slice());
            out.push(v);
        }

        self.flag = !self.flag;

        out
    }

    /// Channelize a whole buffer, one half-block at a time: `K * (N / 2)`
    /// input samples yield exactly `K * N` output values.
    pub fn channelize_all(&mut self, input: &[ComplexI8]) -> (r: Vec<ComplexI32>)
        requires
            old(self).wf(),
            (input@.len() as int) % (old(self).channel_half as int) == 0,
            input@.len() <= 0x1000_0000,
        ensures
            final(self).wf(),
            final(self).num_channels == old(self).num_channels,
            final(self).channel_half == old(self).channel_half,
            r@.len() == ((input@.len() as int) / (old(self).channel_half as int)) * (
            old(self).num_channels as int),
    {
        let half = self.channel_half;
        let n = self.num_channels;
        let blocks = input.len() / half;

        let mut out: Vec<ComplexI32> = Vec::new();

        proof {
            assert(input@.len() == ((input@.len() as int) / (half as int)) * (half as int)) by {
                vstd::arithmetic::div_mod::lemma_fundamental_div_mod(
                    input@.len() as int,
                    half as int,
                );
            }
        }

        proof {
            assert(0int * (n as int) == 0) by (nonlinear_arith);
        }

        for b in 0..blocks
            invariant
                self.wf(),
                n == self.num_channels == old(self).num_channels,
                half == self.channel_half == old(self).channel_half,
                blocks == (input@.len() as int) / (half as int),
                input@.len() == blocks * (half as int),
                input@.len() <= 0x1000_0000,
                out@.len() == b * (n as int),
        {
            proof {
                assert((b + 1) * (half as int) <= blocks * (half as int)) by (nonlinear_arith)
                    requires
                        0 <= b < blocks,
                        0 < half,
                ;
                assert(b * (half as int) >= 0) by (nonlinear_arith)
                    requires
                        0 <= b,
                        0 < half,
                ;
                assert(b * (half as int) + (half as int) == (b + 1) * (half as int))
                    by (nonlinear_arith);
                assert((b + 1) * (n as int) == b * (n as int) + n) by (nonlinear_arith);
            }
            let chunk = vstd::slice::slice_subrange(input, b * half, b * half + half);
            let mut produced = self.channelize(chunk);
            out.append(&mut produced);
        }

        out
    }
}

/// The transmit dual of the channelizer.  Its synthesis path runs through
/// the forward DFT and float windows and sits outside the library.
#[derive(Debug)]
pub struct Synthesizer {}

} // verus!
