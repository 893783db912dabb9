use vstd::prelude::*;

verus! {

// ---------------------------------------------------------------------------
// Scaling of a graph's value range
// ---------------------------------------------------------------------------

/// How a graph adapts the range of values it shows to its data.
#[derive(Clone, Copy, PartialEq, Eq, Structural, Debug)]
pub enum ScalingSettings {
    Fixed,
    ScaleUp,
    ScaleDown,
    ScaleUpDown,
    ScaleUpPow2,
    ScaleDownPow2,
    ScaleUpDownPow2,
    StickyUp,
    StickyDown,
    StickyUpDown,
    Stacking,
}

impl Default for ScalingSettings {
    fn default() -> (r: Self)
        ensures
            r == ScalingSettings::Fixed,
    {
        ScalingSettings::Fixed
    }
}

/// What becomes of the upper end of the range after a new sample.
#[derive(Clone, Copy, PartialEq, Eq, Structural, Debug)]
pub enum HighWatermarkRule {
    /// Left as it is.
    Keep,
    /// The largest sample shown.
    Maximum,
    /// The largest sample shown, rounded up to a power of two.
    MaximumPow2,
}

/// The rescaling that needs a pass over all samples shown: what becomes of
/// the upper end of the range, and whether the lower end becomes the
/// smallest sample shown.
#[derive(Clone, Copy, PartialEq, Eq, Structural, Debug)]
pub struct FullRescale {
    pub high: HighWatermarkRule,
    pub low_to_minimum: bool,
}

/// The rescaling done after all samples of a round were added.
pub fn full_rescale(s: ScalingSettings) -> (r: FullRescale)
    ensures
        r.high == match s {
            ScalingSettings::ScaleUp | ScalingSettings::ScaleUpDown => HighWatermarkRule::Maximum,
            ScalingSettings::ScaleUpPow2 | ScalingSettings::ScaleUpDownPow2 => HighWatermarkRule::MaximumPow2,
            _ => HighWatermarkRule::Keep,
        },
        r.low_to_minimum == (s == ScalingSettings::ScaleDown || s == ScalingSettings::ScaleUpDown),
{
    match s {
        ScalingSettings::ScaleUp => FullRescale { high: HighWatermarkRule::Maximum, low_to_minimum: false },
        ScalingSettings::ScaleDown => FullRescale { high: HighWatermarkRule::Keep, low_to_minimum: true },
        ScalingSettings::ScaleUpDown => FullRescale { high: HighWatermarkRule::Maximum, low_to_minimum: true },
        ScalingSettings::ScaleUpPow2 => FullRescale { high: HighWatermarkRule::MaximumPow2, low_to_minimum: false },
        ScalingSettings::ScaleDownPow2 => FullRescale { high: HighWatermarkRule::Keep, low_to_minimum: false },
        ScalingSettings::ScaleUpDownPow2 => FullRescale { high: HighWatermarkRule::MaximumPow2, low_to_minimum: false },
        ScalingSettings::StickyUp => FullRescale { high: HighWatermarkRule::Keep, low_to_minimum: false },
        ScalingSettings::StickyDown => FullRescale { high: HighWatermarkRule::Keep, low_to_minimum: false },
        ScalingSettings::StickyUpDown => FullRescale { high: HighWatermarkRule::Keep, low_to_minimum: false },
        ScalingSettings::Stacking => FullRescale { high: HighWatermarkRule::Keep, low_to_minimum: false },
        ScalingSettings::Fixed => FullRescale { high: HighWatermarkRule::Keep, low_to_minimum: false },
    }
}

/// Which ends of the range follow each new sample outwards (the upper end
/// rises to a larger sample, the lower end sinks to a smaller one).
#[derive(Clone, Copy, PartialEq, Eq, Structural, Debug)]
pub struct StickyEnds {
    pub up: bool,
    pub down: bool,
}

/// The ends of the range that each new sample can push outwards.
pub fn sticky_ends(s: ScalingSettings) -> (r: StickyEnds)
    ensures
        r.up == (s == ScalingSettings::StickyUp || s == ScalingSettings::StickyUpDown),
        r.down == (s == ScalingSettings::StickyDown || s == ScalingSettings::StickyUpDown),
{
    match s {
        ScalingSettings::StickyUp => StickyEnds { up: true, down: false },
        ScalingSettings::StickyDown => StickyEnds { up: false, down: true },
        ScalingSettings::StickyUpDown => StickyEnds { up: true, down: true },
        _ => StickyEnds { up: false, down: false },
    }
}

/// Whether the datasets of a graph are drawn stacked on each other, and only
/// the topmost one filled.
pub fn is_stacking(s: ScalingSettings) -> (r: bool)
    ensures
        r == (s == ScalingSettings::Stacking),
{
    s == ScalingSettings::Stacking
}

// ---------------------------------------------------------------------------
// Powers of two
// ---------------------------------------------------------------------------

/// `x` with every bit set that is set in `x` or at most 31 places above.
pub open spec fn smear(x: u64) -> u64 {
    let a = x | (x >> 1u64);
    let b = a | (a >> 2u64);
    let c = b | (b >> 4u64);
    let d = c | (c >> 8u64);
    d | (d >> 16u64)
}

/// The value the upper end of a range is rounded up to: 0 for 0, else
/// `smear(num - 1) + 1`, the least power of two not below `num` whenever
/// `num <= 2^32`.
pub fn round_up_to_next_power_of_two(num: u64) -> (r: u64)
    requires
        num == 0 || smear((num - 1) as u64) < u64::MAX,
    ensures
        r == if num == 0 {
            0
        } else {
            (smear((num - 1) as u64) + 1) as u64
        },
{
    if num == 0 {
        return 0;
    }
    let mut n = num - 1;
    n |= n >> 1;
    n |= n >> 2;
    n |= n >> 4;
    n |= n >> 8;
    n |= n >> 16;
    n + 1
}

/// Whether rounding `num` up stays within `u64` (it does not for some
/// values above `2^63`).
pub fn round_up_fits(num: u64) -> (r: bool)
    ensures
        r == (num == 0 || smear((num - 1) as u64) < u64::MAX),
{
    if num == 0 {
        return true;
    }
    let mut n = num - 1;
    n |= n >> 1;
    n |= n >> 2;
    n |= n >> 4;
    n |= n >> 8;
    n |= n >> 16;
    n < u64::MAX
}

/// For `1 <= num <= 2^32`, the rounded value is the least power of two not
/// below `num`: a power of two, at least `num`, below `2 * num`.
pub proof fn lemma_round_up_is_next_power_of_two(num: u64)
    requires
        1 <= num <= 0x1_0000_0000,
    ensures
        smear((num - 1) as u64) < u64::MAX,
        ({
            let r = (smear((num - 1) as u64) + 1) as u64;
            &&& r & ((r - 1) as u64) == 0
            &&& r >= num
            &&& r < 2 * num
        }),
{
    let x = (num - 1) as u64;
    assert(((smear(x) + 1) as u64) & ((((smear(x) + 1) as u64) - 1) as u64) == 0 && smear(x) >= x
        && smear(x) <= 2 * x && smear(x) < 0x1_0000_0000) by (bit_vector)
        requires
            x < 0x1_0000_0000,
    ;
}

// ---------------------------------------------------------------------------
// The samples of a dataset
// ---------------------------------------------------------------------------

/// The samples of one series of a graph, newest first, of which the first
/// `used_data` are shown.
pub struct Dataset<T> {
    data: Vec<T>,
    pub used_data: usize,
}

impl<T: Copy> Dataset<T> {
    pub closed spec fn samples(&self) -> Seq<T> {
        self.data@
    }

    /// How many samples are shown.
    pub closed spec fn shown(&self) -> usize {
        self.used_data
    }

    /// A dataset of `len` samples, all `fill`, of which `used` are shown.
    pub fn new_filled(fill: T, len: usize, used: usize) -> (r: Self)
        ensures
            r.samples() == Seq::new(len as nat, |i: int| fill),
            r.shown() == used,
    {
        let mut data: Vec<T> = Vec::new();
        let mut i: usize = 0;
        while i < len
            invariant
                i <= len,
                data@ =~= Seq::new(i as nat, |k: int| fill),
            decreases len - i,
        {
            data.push(fill);
            i = i + 1;
        }
        Dataset { data, used_data: used }
    }

    /// Shows `new_points` samples from now on.
    pub fn update_data_points(&mut self, new_points: usize)
        ensures
            final(self).shown() == new_points,
            final(self).samples() == old(self).samples(),
    {
        self.used_data = new_points;
    }

    /// The samples shown, newest first.
    pub fn get_data(&self) -> (r: Vec<T>)
        ensures
            r@ == self.samples().take(
                if self.shown() <= self.samples().len() {
                    self.shown() as int
                } else {
                    self.samples().len() as int
                },
            ),
    {
        let n = if self.used_data <= self.data.len() {
            self.used_data
        } else {
            self.data.len()
        };
        let mut r: Vec<T> = Vec::new();
        let mut i: usize = 0;
        while i < n
            invariant
                n <= self.data.len(),
                i <= n,
                r@ =~= self.data@.take(i as int),
            decreases n - i,
        {
            r.push(self.data[i]);
            i = i + 1;
        }
        r
    }

    /// The number of samples kept.
    pub fn len(&self) -> (r: usize)
        ensures
            r == self.samples().len(),
    {
        self.data.len()
    }

    /// Adds a sample as the newest one; the oldest one drops out.
    pub fn push_point(&mut self, point: T)
        requires
            old(self).samples().len() > 0,
        ensures
            final(self).samples() == seq![point] + old(self).samples().drop_last(),
            final(self).shown() == old(self).shown(),
    {
        let n = self.data.len();
        let mut i = n - 1;
        while i > 0
            invariant
                n == self.data.len(),
                0 <= i < n,
                self.used_data == old(self).used_data,
                forall|k: int| 0 <= k <= i ==> self.data@[k] == old(self).data@[k],
                forall|k: int| i < k < n ==> self.data@[k] == old(self).data@[k - 1],
            decreases i,
        {
            let prev = self.data[i - 1];
            self.data.set(i, prev);
            i = i - 1;
        }
        self.data.set(0, point);
        assert(self.data@ =~= seq![point] + old(self).data@.drop_last());
    }
}

// ---------------------------------------------------------------------------
// Animation of a graph
// ---------------------------------------------------------------------------

/// The drawing state of a graph widget that its data and its animation
/// change.
#[derive(Clone, Copy, PartialEq, Eq, Structural, Debug)]
pub struct GraphAnimation {
    pub data_points: u32,
    pub horizontal_line_count: u32,
    pub vertical_line_count: u32,
    pub animation_ticks: u32,
    pub expected_animation_ticks: u32,
    pub do_animation: bool,
    pub smooth_graphs: bool,
    pub scroll: bool,
    pub grid_visible: bool,
    pub scroll_offset: u32,
}

impl GraphAnimation {
    /// A fresh graph: no data points, 6 horizontal and 9 vertical grid
    /// lines, no animation, scrolling and the grid on.
    pub fn new() -> (r: Self)
        ensures
            r == (GraphAnimation {
                data_points: 0,
                horizontal_line_count: 6,
                vertical_line_count: 9,
                animation_ticks: 0,
                expected_animation_ticks: 0,
                do_animation: false,
                smooth_graphs: false,
                scroll: true,
                grid_visible: true,
                scroll_offset: 0,
            }),
    {
        GraphAnimation {
            data_points: 0,
            horizontal_line_count: 6,
            vertical_line_count: 9,
            animation_ticks: 0,
            expected_animation_ticks: 0,
            do_animation: false,
            smooth_graphs: false,
            scroll: true,
            grid_visible: true,
            scroll_offset: 0,
        }
    }

    /// Sets the number of data points shown; returns whether it changed
    /// (the datasets then show as many samples).
    pub fn set_data_points(&mut self, count: u32) -> (changed: bool)
        ensures
            changed == (old(self).data_points != count),
            *final(self) == (GraphAnimation { data_points: count, ..*old(self) }),
    {
        let changed = self.data_points != count;
        self.data_points = count;
        changed
    }

    /// Sets the number of horizontal grid lines; returns whether it changed
    /// (the graph is then redrawn).
    pub fn set_horizontal_line_count(&mut self, count: u32) -> (changed: bool)
        ensures
            changed == (old(self).horizontal_line_count != count),
            *final(self) == (GraphAnimation { horizontal_line_count: count, ..*old(self) }),
    {
        let changed = self.horizontal_line_count != count;
        if changed {
            self.horizontal_line_count = count;
        }
        changed
    }

    /// Sets the number of vertical grid lines; returns whether it changed.
    pub fn set_vertical_line_count(&mut self, count: u32) -> (changed: bool)
        ensures
            changed == (old(self).vertical_line_count != count),
            *final(self) == (GraphAnimation { vertical_line_count: count, ..*old(self) }),
    {
        let changed = self.vertical_line_count != count;
        if changed {
            self.vertical_line_count = count;
        }
        changed
    }

    /// Switches smoothed drawing; returns whether it changed.
    pub fn set_smooth_graphs(&mut self, smooth: bool) -> (changed: bool)
        ensures
            changed == (old(self).smooth_graphs != smooth),
            *final(self) == (GraphAnimation { smooth_graphs: smooth, ..*old(self) }),
    {
        let changed = self.smooth_graphs != smooth;
        if changed {
            self.smooth_graphs = smooth;
        }
        changed
    }

    /// Switches sliding animation; returns whether it changed.
    pub fn set_do_animation(&mut self, animate: bool) -> (changed: bool)
        ensures
            changed == (old(self).do_animation != animate),
            *final(self) == (GraphAnimation { do_animation: animate, ..*old(self) }),
    {
        let changed = self.do_animation != animate;
        if changed {
            self.do_animation = animate;
        }
        changed
    }

    /// Sets the number of animation ticks between two samples; 0 is ignored.
    pub fn set_expected_animation_ticks(&mut self, ticks: u32)
        ensures
            *final(self) == if ticks > 0 {
                GraphAnimation { expected_animation_ticks: ticks, ..*old(self) }
            } else {
                *old(self)
            },
    {
        if ticks > 0 {
            if self.expected_animation_ticks != ticks {
                self.expected_animation_ticks = ticks;
            }
        }
    }

    /// Moves the grid on by one sample while scrolling is on.
    pub fn try_increment_scroll(&mut self)
        ensures
            *final(self) == if old(self).scroll {
                GraphAnimation {
                    scroll_offset: (if old(self).scroll_offset == u32::MAX {
                        0
                    } else {
                        old(self).scroll_offset + 1
                    }) as u32,
                    ..*old(self)
                }
            } else {
                *old(self)
            },
    {
        if !self.scroll {
            return;
        }
        self.scroll_offset = self.scroll_offset.wrapping_add(1);
    }

    /// A new sample arrived: the animation starts over.
    pub fn sample_added(&mut self)
        ensures
            *final(self) == (GraphAnimation { animation_ticks: 0, ..*old(self) }),
    {
        self.animation_ticks = 0;
    }

    /// Whether an animation tick of a graph that is `visible` redraws it:
    /// sliding graphs always do, others only right after a new sample.
    pub fn animation_redraws(&self, visible: bool) -> (r: bool)
        ensures
            r == (visible && (self.do_animation || self.animation_ticks == 0)),
    {
        visible && (self.do_animation || self.animation_ticks == 0)
    }

    /// One animation tick of a graph that is `visible`: sliding graphs
    /// advance a tick up to the expected number; others jump there from a
    /// new sample, once; a hidden graph is left as it is. Returns `true`,
    /// so that the ticking goes on (`animation_redraws` says whether the
    /// tick redraws the graph).
    pub fn update_animation(&mut self, visible: bool) -> (r: bool)
        requires
            !(visible && old(self).do_animation && old(self).animation_ticks == u32::MAX),
        ensures
            r == true,
            *final(self) == if !visible {
                *old(self)
            } else if old(self).do_animation {
                GraphAnimation {
                    animation_ticks: if old(self).animation_ticks + 1 <= old(self).expected_animation_ticks {
                        (old(self).animation_ticks + 1) as u32
                    } else {
                        old(self).expected_animation_ticks
                    },
                    ..*old(self)
                }
            } else if old(self).animation_ticks == 0 {
                GraphAnimation { animation_ticks: old(self).expected_animation_ticks, ..*old(self) }
            } else {
                *old(self)
            },
            visible && old(self).do_animation ==> final(self).animation_ticks
                <= final(self).expected_animation_ticks,
            old(self).animation_ticks <= old(self).expected_animation_ticks ==> old(self).animation_ticks
                <= final(self).animation_ticks <= final(self).expected_animation_ticks,
    {
        if visible {
            if self.do_animation {
                let next = self.animation_ticks + 1;
                self.animation_ticks = if next < self.expected_animation_ticks {
                    next
                } else {
                    self.expected_animation_ticks
                };
            } else if self.animation_ticks == 0 {
                self.animation_ticks = self.expected_animation_ticks;
            }
        }
        true
    }

    /// Whether drawing a frame moves the grid on (the frame right after a
    /// sample); `has_cache`: whether a drawing is kept from before. Returns
    /// whether the graph is drawn anew rather than from that drawing.
    pub fn begin_frame(&mut self, has_cache: bool) -> (redraw: bool)
        ensures
            redraw == (!old(self).do_animation || old(self).animation_ticks <= 1 || !has_cache),
            *final(self) == if old(self).animation_ticks <= 1 {
                GraphAnimation {
                    scroll_offset: if old(self).scroll {
                        (if old(self).scroll_offset == u32::MAX {
                            0
                        } else {
                            old(self).scroll_offset + 1
                        }) as u32
                    } else {
                        old(self).scroll_offset
                    },
                    ..*old(self)
                }
            } else {
                *old(self)
            },
    {
        if self.animation_ticks <= 1 {
            self.try_increment_scroll();
        }
        !self.do_animation || self.animation_ticks <= 1 || !has_cache
    }
}


// ---------------------------------------------------------------------------
// The datasets of a graph
// ---------------------------------------------------------------------------

/// The most samples a dataset keeps.
pub const DATASET_CAPACITY: usize = 600;

/// The samples a new dataset shows.
pub const DATASET_SHOWN: usize = 10;

/// A group of datasets drawn with the same settings (the float ends of its
/// range are kept by the drawing code).
pub struct DatasetGroup<T> {
    pub scaling: ScalingSettings,
    pub dashed: bool,
    pub fill: bool,
    pub visible: bool,
    /// The group whose range this one widens to.
    pub following: Option<usize>,
    /// The group that widens its range to this one's.
    pub followed: Option<usize>,
    pub datas: Vec<Dataset<T>>,
}

/// Every dataset of `g` shows `n` samples.
pub open spec fn group_shows<T: Copy>(g: DatasetGroup<T>, n: usize) -> bool {
    forall|d: int| 0 <= d < g.datas@.len() ==> (#[trigger] g.datas@[d]).shown() == n
}

/// `after` is `before` with every dataset showing `n` samples and nothing
/// else changed.
pub open spec fn group_with_points<T: Copy>(before: DatasetGroup<T>, after: DatasetGroup<T>, n: usize) -> bool {
    &&& after.scaling == before.scaling
    &&& after.dashed == before.dashed
    &&& after.fill == before.fill
    &&& after.visible == before.visible
    &&& after.following == before.following
    &&& after.followed == before.followed
    &&& after.datas@.len() == before.datas@.len()
    &&& forall|d: int|
        0 <= d < after.datas@.len() ==> (#[trigger] after.datas@[d]).shown() == n
            && after.datas@[d].samples() == before.datas@[d].samples()
}

/// `after` is `before` with each of `points` added as the newest sample of
/// the dataset at the same position, and nothing else changed.
pub open spec fn group_with_data<T: Copy>(before: DatasetGroup<T>, after: DatasetGroup<T>, points: Seq<T>) -> bool {
    &&& after.scaling == before.scaling
    &&& after.dashed == before.dashed
    &&& after.fill == before.fill
    &&& after.visible == before.visible
    &&& after.following == before.following
    &&& after.followed == before.followed
    &&& after.datas@.len() == before.datas@.len()
    &&& forall|d: int|
        0 <= d < points.len() ==> (#[trigger] after.datas@[d]).samples() == seq![points[d]]
            + before.datas@[d].samples().drop_last() && after.datas@[d].shown() == before.datas@[d].shown()
    &&& forall|d: int| points.len() <= d < before.datas@.len() ==> #[trigger] after.datas@[d] == before.datas@[d]
}

/// `points` fit the datasets of `g`: no more of them than datasets, and
/// each dataset they go to keeps at least one sample.
pub open spec fn fits_group<T: Copy>(g: DatasetGroup<T>, points: Seq<T>) -> bool {
    &&& points.len() <= g.datas@.len()
    &&& forall|d: int| 0 <= d < points.len() ==> (#[trigger] g.datas@[d]).samples().len() > 0
}

impl<T: Copy> DatasetGroup<T> {
    /// A group of one dataset of `DATASET_CAPACITY` samples, all `fill`, of
    /// which `DATASET_SHOWN` are shown; filled, visible, fixed scaling.
    pub fn new(fill: T) -> (r: Self)
        ensures
            r.scaling == ScalingSettings::Fixed,
            !r.dashed && r.fill && r.visible,
            r.following is None && r.followed is None,
            r.datas@.len() == 1,
            r.datas@[0].samples() == Seq::new(DATASET_CAPACITY as nat, |i: int| fill),
            r.datas@[0].shown() == DATASET_SHOWN,
    {
        let mut datas: Vec<Dataset<T>> = Vec::new();
        datas.push(Dataset::new_filled(fill, DATASET_CAPACITY, DATASET_SHOWN));
        DatasetGroup {
            scaling: ScalingSettings::Fixed,
            dashed: false,
            fill: true,
            visible: true,
            following: None,
            followed: None,
            datas,
        }
    }

    /// Adds new datasets (as `new` makes them) until there are `sets`.
    pub fn set_datasets(&mut self, sets: usize, fill: T)
        ensures
            final(self).datas@.len() == if old(self).datas@.len() >= sets {
                old(self).datas@.len()
            } else {
                sets as nat
            },
            forall|d: int|
                0 <= d < old(self).datas@.len() ==> #[trigger] final(self).datas@[d] == old(self).datas@[d],
            forall|d: int|
                old(self).datas@.len() <= d < final(self).datas@.len() ==> (#[trigger] final(self).datas@[d]).shown() == DATASET_SHOWN && final(self).datas@[d].samples()
                    == Seq::new(DATASET_CAPACITY as nat, |i: int| fill),
            final(self).scaling == old(self).scaling && final(self).dashed == old(self).dashed
                && final(self).fill == old(self).fill && final(self).visible == old(self).visible
                && final(self).following == old(self).following && final(self).followed == old(self).followed,
    {
        let ghost n0 = self.datas@.len();
        while self.datas.len() < sets
            invariant
                n0 == old(self).datas@.len(),
                n0 <= self.datas@.len(),
                self.datas@.len() <= if n0 >= sets {
                    n0
                } else {
                    sets as nat
                },
                forall|d: int| 0 <= d < n0 ==> #[trigger] self.datas@[d] == old(self).datas@[d],
                forall|d: int|
                    n0 <= d < self.datas@.len() ==> (#[trigger] self.datas@[d]).shown()
                        == DATASET_SHOWN && self.datas@[d].samples() == Seq::new(
                        DATASET_CAPACITY as nat,
                        |i: int| fill,
                    ),
                self.scaling == old(self).scaling && self.dashed == old(self).dashed && self.fill
                    == old(self).fill && self.visible == old(self).visible && self.following
                    == old(self).following && self.followed == old(self).followed,
            decreases sets - self.datas.len(),
        {
            self.datas.push(Dataset::new_filled(fill, DATASET_CAPACITY, DATASET_SHOWN));
        }
    }

    /// Adds each of `points` as the newest sample of the dataset at the
    /// same position.
    pub fn add_data(&mut self, points: &Vec<T>)
        requires
            fits_group(*old(self), points@),
        ensures
            group_with_data(*old(self), *final(self), points@),
    {
        let mut i: usize = 0;
        while i < points.len()
            invariant
                i <= points@.len(),
                points@.len() <= self.datas@.len(),
                self.datas@.len() == old(self).datas@.len(),
                fits_group(*old(self), points@),
                self.scaling == old(self).scaling && self.dashed == old(self).dashed && self.fill
                    == old(self).fill && self.visible == old(self).visible && self.following
                    == old(self).following && self.followed == old(self).followed,
                forall|d: int|
                    0 <= d < i ==> (#[trigger] self.datas@[d]).samples() == seq![points@[d]]
                        + old(self).datas@[d].samples().drop_last() && self.datas@[d].shown()
                        == old(self).datas@[d].shown(),
                forall|d: int| i <= d < self.datas@.len() ==> #[trigger] self.datas@[d] == old(self).datas@[d],
            decreases points.len() - i,
        {
            assert(self.datas@[i as int] == old(self).datas@[i as int]);
            self.datas[i].push_point(points[i]);
            i = i + 1;
        }
    }

    /// Shows `new_points` samples of every dataset.
    pub fn update_data_points(&mut self, new_points: usize)
        ensures
            group_with_points(*old(self), *final(self), new_points),
    {
        let mut i: usize = 0;
        while i < self.datas.len()
            invariant
                i <= self.datas@.len(),
                self.datas@.len() == old(self).datas@.len(),
                self.scaling == old(self).scaling && self.dashed == old(self).dashed && self.fill
                    == old(self).fill && self.visible == old(self).visible && self.following
                    == old(self).following && self.followed == old(self).followed,
                forall|d: int|
                    0 <= d < self.datas@.len() ==> (#[trigger] self.datas@[d]).samples() == old(self).datas@[d].samples(),
                forall|d: int| 0 <= d < i ==> (#[trigger] self.datas@[d]).shown() == new_points,
            decreases self.datas.len() - i,
        {
            self.datas[i].update_data_points(new_points);
            i = i + 1;
        }
    }
}

/// The dataset groups of a graph and the number of samples they show.
pub struct GraphDataSets<T> {
    data_points: u32,
    groups: Vec<DatasetGroup<T>>,
}

impl<T: Copy> GraphDataSets<T> {
    /// The number of samples the graph shows.
    pub closed spec fn points(&self) -> u32 {
        self.data_points
    }

    /// The dataset groups, in order.
    pub closed spec fn groups(&self) -> Seq<DatasetGroup<T>> {
        self.groups@
    }

    /// Every dataset of every group shows the graph's number of samples.
    pub open spec fn wf(&self) -> bool {
        forall|g: int| 0 <= g < self.groups().len() ==> group_shows(#[trigger] self.groups()[g], self.points() as usize)
    }

    /// A graph without datasets, showing no samples.
    pub fn new() -> (r: Self)
        ensures
            r.wf(),
            r.points() == 0,
            r.groups().len() == 0,
    {
        GraphDataSets { data_points: 0, groups: Vec::new() }
    }

    /// The number of samples the graph shows.
    pub fn data_points(&self) -> (r: u32)
        ensures
            r == self.points(),
    {
        self.data_points
    }

    /// The dataset groups.
    pub fn groups_ref(&self) -> (r: &Vec<DatasetGroup<T>>)
        ensures
            r@ == self.groups(),
    {
        &self.groups
    }

    /// Sets the number of samples shown: every dataset of every group then
    /// shows `count` samples, with its samples and the groups' settings
    /// unchanged. Returns whether the number changed.
    pub fn set_data_points(&mut self, count: u32) -> (changed: bool)
        requires
            old(self).wf(),
        ensures
            changed == (old(self).points() != count),
            final(self).wf(),
            final(self).points() == count,
            final(self).groups().len() == old(self).groups().len(),
            forall|g: int|
                0 <= g < final(self).groups().len() ==> group_with_points(
                    old(self).groups()[g],
                    #[trigger] final(self).groups()[g],
                    count as usize,
                ),
    {
        let changed = self.data_points != count;
        if changed {
            let mut i: usize = 0;
            while i < self.groups.len()
                invariant
                    i <= self.groups@.len(),
                    self.groups@.len() == old(self).groups@.len(),
                    forall|g: int|
                        0 <= g < i ==> group_with_points(
                            old(self).groups@[g],
                            #[trigger] self.groups@[g],
                            count as usize,
                        ),
                    forall|g: int| i <= g < self.groups@.len() ==> #[trigger] self.groups@[g] == old(self).groups@[g],
                decreases self.groups.len() - i,
            {
                self.groups[i].update_data_points(count as usize);
                i = i + 1;
            }
        } else {
            assert forall|g: int| 0 <= g < self.groups@.len() implies group_with_points(
                old(self).groups@[g],
                #[trigger] self.groups@[g],
                count as usize,
            ) by {
                assert(old(self).groups()[g] == self.groups@[g]);
                assert(group_shows(old(self).groups()[g], old(self).points() as usize));
            }
        }
        self.data_points = count;
        proof {
            assert forall|g: int| 0 <= g < self.groups@.len() implies group_shows(
                #[trigger] self.groups@[g],
                count as usize,
            ) by {
                assert(group_with_points(old(self).groups@[g], self.groups@[g], count as usize));
            }
        }
        changed
    }

    /// Adds a group, its datasets set to show the graph's number of samples.
    pub fn add_dataset(&mut self, group: DatasetGroup<T>)
        requires
            old(self).wf(),
        ensures
            final(self).wf(),
            final(self).points() == old(self).points(),
            final(self).groups().len() == old(self).groups().len() + 1,
            forall|g: int| 0 <= g < old(self).groups().len() ==> #[trigger] final(self).groups()[g] == old(self).groups()[g],
            group_with_points(group, final(self).groups().last(), old(self).points() as usize),
    {
        let mut group = group;
        group.update_data_points(self.data_points as usize);
        self.groups.push(group);
        proof {
            assert forall|g: int| 0 <= g < self.groups@.len() implies group_shows(
                #[trigger] self.groups@[g],
                self.data_points as usize,
            ) by {
                if g < self.groups@.len() - 1 {
                    assert(self.groups@[g] == old(self).groups@[g]);
                }
            }
        }
    }

    /// Sets whether group `index` is drawn dashed; an index past the groups
    /// is ignored.
    pub fn set_dashed(&mut self, index: usize, dashed: bool)
        requires
            old(self).wf(),
        ensures
            final(self).wf(),
            final(self).points() == old(self).points(),
            final(self).groups() == if index < old(self).groups().len() {
                old(self).groups().update(index as int, DatasetGroup { dashed, ..old(self).groups()[index as int] })
            } else {
                old(self).groups()
            },
    {
        if index < self.groups.len() {
            self.groups[index].dashed = dashed;
            proof {
                assert(self.groups@ =~= old(self).groups@.update(index as int, DatasetGroup { dashed, ..old(self).groups@[index as int] }));
                assert forall|g: int| 0 <= g < self.groups@.len() implies group_shows(#[trigger] self.groups@[g], self.data_points as usize) by {
                    assert(old(self).groups()[g].datas == self.groups@[g].datas);
                }
            }
        }
    }

    /// Sets whether group `index` is filled; an index past the groups is
    /// ignored.
    pub fn set_filled(&mut self, index: usize, filled: bool)
        requires
            old(self).wf(),
        ensures
            final(self).wf(),
            final(self).points() == old(self).points(),
            final(self).groups() == if index < old(self).groups().len() {
                old(self).groups().update(index as int, DatasetGroup { fill: filled, ..old(self).groups()[index as int] })
            } else {
                old(self).groups()
            },
    {
        if index < self.groups.len() {
            self.groups[index].fill = filled;
            proof {
                assert(self.groups@ =~= old(self).groups@.update(index as int, DatasetGroup { fill: filled, ..old(self).groups@[index as int] }));
                assert forall|g: int| 0 <= g < self.groups@.len() implies group_shows(#[trigger] self.groups@[g], self.data_points as usize) by {
                    assert(old(self).groups()[g].datas == self.groups@[g].datas);
                }
            }
        }
    }

    /// Sets whether group `index` is drawn; an index past the groups is
    /// ignored.
    pub fn set_data_visible(&mut self, index: usize, visible: bool)
        requires
            old(self).wf(),
        ensures
            final(self).wf(),
            final(self).points() == old(self).points(),
            final(self).groups() == if index < old(self).groups().len() {
                old(self).groups().update(index as int, DatasetGroup { visible, ..old(self).groups()[index as int] })
            } else {
                old(self).groups()
            },
    {
        if index < self.groups.len() {
            self.groups[index].visible = visible;
            proof {
                assert(self.groups@ =~= old(self).groups@.update(index as int, DatasetGroup { visible, ..old(self).groups@[index as int] }));
                assert forall|g: int| 0 <= g < self.groups@.len() implies group_shows(#[trigger] self.groups@[g], self.data_points as usize) by {
                    assert(old(self).groups()[g].datas == self.groups@[g].datas);
                }
            }
        }
    }

    /// Adds each of `points` as the newest sample of the dataset at the
    /// same position in group `index`.
    pub fn add_data(&mut self, index: usize, points: &Vec<T>)
        requires
            old(self).wf(),
            index < old(self).groups().len(),
            fits_group(old(self).groups()[index as int], points@),
        ensures
            final(self).wf(),
            final(self).points() == old(self).points(),
            final(self).groups().len() == old(self).groups().len(),
            group_with_data(old(self).groups()[index as int], final(self).groups()[index as int], points@),
            forall|g: int|
                0 <= g < old(self).groups().len() && g != index ==> #[trigger] final(self).groups()[g]
                    == old(self).groups()[g],
    {
        self.groups[index].add_data(points);
        proof {
            assert forall|g: int| 0 <= g < self.groups@.len() implies group_shows(
                #[trigger] self.groups@[g],
                self.data_points as usize,
            ) by {
                if g == index {
                    assert(group_shows(old(self).groups()[g], old(self).points() as usize));
                    assert forall|d: int| 0 <= d < self.groups@[g].datas@.len() implies (#[trigger] self.groups@[g].datas@[d]).shown() == self.data_points as usize by {
                        assert(old(self).groups()[g].datas@[d].shown() == self.data_points as usize);
                    }
                } else {
                    assert(self.groups@[g] == old(self).groups()[g]);
                }
            }
        }
    }

    /// Links group `idxa` to follow the range of group `idxb`.
    pub fn connect_datasets(&mut self, idxa: usize, idxb: usize)
        requires
            idxa < old(self).groups().len(),
            idxb < old(self).groups().len(),
            old(self).wf(),
        ensures
            final(self).wf(),
            final(self).points() == old(self).points(),
            final(self).groups().len() == old(self).groups().len(),
            final(self).groups()[idxa as int].following == Some(idxb),
            final(self).groups()[idxb as int].followed == Some(idxa),
            forall|g: int|
                0 <= g < final(self).groups().len() ==> {
                    let a = #[trigger] final(self).groups()[g];
                    let b = old(self).groups()[g];
                    &&& a.datas == b.datas
                    &&& a.scaling == b.scaling && a.dashed == b.dashed && a.fill == b.fill
                        && a.visible == b.visible
                    &&& (g != idxa ==> a.following == b.following)
                    &&& (g != idxb ==> a.followed == b.followed)
                },
    {
        self.groups[idxa].following = Some(idxb);
        self.groups[idxb].followed = Some(idxa);
    }
}

} // verus!
