//! A DEC sixel encoder, with colour quantisation.
//!
//! Sixel encodes six vertically stacked pixels per character, one bit each, and
//! addresses colour through a palette of at most 256 registers. So an encoder is
//! really two problems: reducing an arbitrary image to 256 colours without it looking
//! like 1987, and packing the result compactly.
//!
//! * Quantisation uses median cut over a 15-bit colour histogram, which keeps the work
//!   proportional to the number of distinct colours rather than the number of pixels.
//! * Floyd-Steinberg dithering spreads the residual error into neighbouring pixels,
//!   which is what stops gradients from banding.
//! * Output is run-length encoded, because a photograph's background is mostly long
//!   runs of the same sixel.
use vstd::prelude::*;

use super::picture::{Picture, PictureV};
use crate::markdown::ir::opt_text;
use crate::term::style::Rgb;
use crate::text;

verus! {

/// Sixel supports 256 colour registers; some terminals have fewer, but 256 is the
/// value they all accept.
pub const MAX_COLORS: usize = 256;

/// Alpha below this is treated as fully transparent and left undrawn.
pub const ALPHA_THRESHOLD: u8 = 128;

/// A run shorter than this costs more to encode than to repeat.
pub const MIN_RUN: usize = 4;

/// The number of colours that five bits in each of three channels tell apart.
pub const BUCKETS: usize = 32768;

// --- pixels -----------------------------------------------------------------------

/// The colour of the `i`th pixel.
pub open spec fn color_at(p: PictureV, i: int) -> Rgb {
    Rgb(p.pixels[i * 4], p.pixels[i * 4 + 1], p.pixels[i * 4 + 2])
}

/// True where the `i`th pixel is drawn.
pub open spec fn drawn_at(p: PictureV, i: int) -> bool {
    p.pixels[i * 4 + 3] >= ALPHA_THRESHOLD
}

/// The bucket of a colour: the top five bits of each channel.
pub open spec fn bucket(c: Rgb) -> int {
    c.0 as int / 8 * 1024 + c.1 as int / 8 * 32 + c.2 as int / 8
}

fn key555(c: Rgb) -> (r: usize)
    ensures
        r == bucket(c),
        r < BUCKETS,
{
    (c.0 / 8) as usize * 1024 + (c.1 / 8) as usize * 32 + (c.2 / 8) as usize
}

fn read_color(image: &Picture, i: usize) -> (r: Rgb)
    requires
        image.wf(),
        i < image@.count(),
    ensures
        r == color_at(image@, i as int),
{
    Rgb(image.pixels[i * 4], image.pixels[i * 4 + 1], image.pixels[i * 4 + 2])
}

fn is_drawn(image: &Picture, i: usize) -> (r: bool)
    requires
        image.wf(),
        i < image@.count(),
    ensures
        r == drawn_at(image@, i as int),
{
    image.pixels[i * 4 + 3] >= ALPHA_THRESHOLD
}

// --- the histogram --------------------------------------------------------------------

/// One bucket and the pixels that fell in it.
#[derive(Debug, Clone, Copy, PartialEq, Eq, Structural)]
pub struct Entry {
    pub count: u64,
    pub red: u64,
    pub green: u64,
    pub blue: u64,
}

pub open spec fn no_pixels() -> Entry {
    Entry { count: 0, red: 0, green: 0, blue: 0 }
}

/// The number of pixels, and at least 1.
pub open spec fn population(count: int) -> int {
    if count < 1 {
        1
    } else {
        count
    }
}

impl Entry {
    /// The sum of one channel over the bucket's pixels.
    pub open spec fn sum(self, c: int) -> int {
        if c == 0 {
            self.red as int
        } else if c == 1 {
            self.green as int
        } else {
            self.blue as int
        }
    }

    /// The bucket's representative value in one channel.
    pub open spec fn level(self, c: int) -> int {
        (self.sum(c) / population(self.count as int)) as u8 as int
    }

    fn channel(&self, c: usize) -> (r: u8)
        ensures
            r == self.level(c as int),
    {
        let sum: u64 = if c == 0 {
            self.red
        } else if c == 1 {
            self.green
        } else {
            self.blue
        };
        let count: u64 = if self.count < 1 {
            1
        } else {
            self.count
        };
        #[verifier::truncate]
        let level: u8 = (sum / count) as u8;
        level
    }
}

/// A bucket with one more pixel.
pub open spec fn with_pixel(e: Entry, c: Rgb) -> Entry {
    Entry {
        count: (e.count + 1) as u64,
        red: (e.red + c.0) as u64,
        green: (e.green + c.1) as u64,
        blue: (e.blue + c.2) as u64,
    }
}

/// The buckets after the first `k` pixels.
pub open spec fn tallied(p: PictureV, k: int) -> Seq<Entry>
    decreases k,
{
    if k <= 0 {
        Seq::new(BUCKETS as nat, |i: int| no_pixels())
    } else {
        let t = tallied(p, k - 1);
        if drawn_at(p, k - 1) {
            let key = bucket(color_at(p, k - 1));
            t.update(key, with_pixel(t[key], color_at(p, k - 1)))
        } else {
            t
        }
    }
}

/// The buckets that hold any pixels, in order.
pub open spec fn occupied(t: Seq<Entry>) -> Seq<Entry>
    decreases t.len(),
{
    if t.len() == 0 {
        Seq::empty()
    } else if t.last().count > 0 {
        occupied(t.drop_last()).push(t.last())
    } else {
        occupied(t.drop_last())
    }
}

/// Buckets colours to 5 bits per channel and counts them.
///
/// 32768 buckets is a big enough net to keep distinct colours apart and small enough
/// that the median cut is cheap regardless of image size.
pub fn histogram(image: &Picture) -> (r: Vec<Entry>)
    requires
        image.wf(),
    ensures
        r@ == occupied(tallied(image@, image@.count())),
{
    let ghost p = image@;
    let n: usize = image.pixels.len() / 4;
    let mut table: Vec<Entry> = Vec::new();
    for i in 0..BUCKETS
        invariant
            table.len() == i,
            forall|k: int| 0 <= k < i ==> #[trigger] table@[k] == no_pixels(),
    {
        table.push(Entry { count: 0, red: 0, green: 0, blue: 0 });
    }
    assert(table@ =~= tallied(p, 0));
    for i in 0..n
        invariant
            image.wf(),
            p == image@,
            n == p.count(),
            n <= 0x003f_ffff_ffff_ffff,
            table.len() == BUCKETS,
            table@ == tallied(p, i as int),
            forall|k: int|
                0 <= k < BUCKETS ==> (#[trigger] table@[k]).count <= i && table@[k].red <= i * 255
                    && table@[k].green <= i * 255 && table@[k].blue <= i * 255,
    {
        if is_drawn(image, i) {
            let c = read_color(image, i);
            let key = key555(c);
            let e = table[key];
            assert(table@[key as int].count <= i);
            table.set(
                key,
                Entry {
                    count: e.count + 1,
                    red: e.red + c.0 as u64,
                    green: e.green + c.1 as u64,
                    blue: e.blue + c.2 as u64,
                },
            );
            assert(table@ =~= tallied(p, i + 1));
        }
    }
    let mut out: Vec<Entry> = Vec::new();
    assert(table@.take(0) =~= Seq::empty());
    for i in 0..table.len()
        invariant
            out@ == occupied(table@.take(i as int)),
    {
        assert(table@.take(i + 1).drop_last() =~= table@.take(i as int));
        if table[i].count > 0 {
            out.push(table[i]);
        }
    }
    assert(table@.take(table@.len() as int) =~= table@);
    out
}

// --- median cut ----------------------------------------------------------------------

/// The number of pixels in a box.
pub open spec fn total(s: Seq<Entry>) -> int
    decreases s.len(),
{
    if s.len() == 0 {
        0
    } else {
        total(s.drop_last()) + s.last().count
    }
}

/// The lowest level of a channel in a box.
pub open spec fn low(s: Seq<Entry>, c: int) -> int
    decreases s.len(),
{
    if s.len() == 0 {
        255
    } else if s.last().level(c) < low(s.drop_last(), c) {
        s.last().level(c)
    } else {
        low(s.drop_last(), c)
    }
}

/// The highest level of a channel in a box.
pub open spec fn high(s: Seq<Entry>, c: int) -> int
    decreases s.len(),
{
    if s.len() == 0 {
        0
    } else if s.last().level(c) > high(s.drop_last(), c) {
        s.last().level(c)
    } else {
        high(s.drop_last(), c)
    }
}

/// How far a channel spreads in a box.
pub open spec fn spread(s: Seq<Entry>, c: int) -> int {
    if high(s, c) > low(s, c) {
        high(s, c) - low(s, c)
    } else {
        0
    }
}

/// The channel with the widest spread in a box; the first of several.
pub open spec fn widest(s: Seq<Entry>) -> int {
    let first = if spread(s, 1) > spread(s, 0) {
        1
    } else {
        0int
    };
    if spread(s, 2) > spread(s, first) {
        2
    } else {
        first
    }
}

/// How much a box is worth splitting: its spread, weighted by its population. A wide
/// box holding one pixel matters less than a narrow, busy one.
pub open spec fn weight(s: Seq<Entry>) -> int {
    spread(s, widest(s)) * population(total(s))
}

/// The box among the first `k` that is most worth splitting; the last of several.
pub open spec fn heaviest(boxes: Seq<Seq<Entry>>, k: int) -> Option<int>
    decreases k,
{
    if k <= 0 {
        None
    } else {
        let best = heaviest(boxes, k - 1);
        if boxes[k - 1].len() <= 1 {
            best
        } else {
            match best {
                None => Some(k - 1),
                Some(b) => if weight(boxes[k - 1]) >= weight(boxes[b]) {
                    Some(k - 1)
                } else {
                    best
                },
            }
        }
    }
}

/// The entries of a box at one level of a channel, in order.
pub open spec fn at_level(s: Seq<Entry>, c: int, v: int) -> Seq<Entry>
    decreases s.len(),
{
    if s.len() == 0 {
        Seq::empty()
    } else if s.last().level(c) == v {
        at_level(s.drop_last(), c, v).push(s.last())
    } else {
        at_level(s.drop_last(), c, v)
    }
}

/// The entries of a box below a level of a channel, from low to high.
pub open spec fn below_level(s: Seq<Entry>, c: int, v: int) -> Seq<Entry>
    decreases v,
{
    if v <= 0 {
        Seq::empty()
    } else {
        below_level(s, c, v - 1) + at_level(s, c, v - 1)
    }
}

/// A box from the lowest to the highest level of a channel.
pub open spec fn by_channel(s: Seq<Entry>, c: int) -> Seq<Entry> {
    below_level(s, c, 256)
}

/// Where to cut a sorted box: behind the entry that brings half of the population in,
/// with something left on both sides.
pub open spec fn median(s: Seq<Entry>, j: int, acc: int, all: int) -> int
    decreases s.len() - j,
{
    if j < 0 || j >= s.len() {
        1
    } else if (acc + s[j].count) * 2 >= all {
        if j + 1 > s.len() - 1 {
            s.len() - 1
        } else {
            j + 1
        }
    } else {
        median(s, j + 1, acc + s[j].count, all)
    }
}

/// The boxes after splitting until there are `max` of them or none can be split.
pub open spec fn cut(boxes: Seq<Seq<Entry>>, max: int) -> Seq<Seq<Entry>>
    decreases max - boxes.len(),
    via cut_decreases
{
    if boxes.len() >= max {
        boxes
    } else {
        match heaviest(boxes, boxes.len() as int) {
            None => boxes,
            Some(i) => {
                let s = by_channel(boxes[i], widest(boxes[i]));
                let k = median(s, 0, 0, total(s));
                cut(boxes.update(i, s.take(k)).push(s.skip(k)), max)
            },
        }
    }
}

/// The sum of a channel over a box.
pub open spec fn channel_sum(s: Seq<Entry>, c: int) -> int
    decreases s.len(),
{
    if s.len() == 0 {
        0
    } else {
        channel_sum(s.drop_last(), c) + s.last().sum(c)
    }
}

/// The average colour of a box.
pub open spec fn mean(s: Seq<Entry>) -> Rgb {
    Rgb(
        (channel_sum(s, 0) / population(total(s))) as u8,
        (channel_sum(s, 1) / population(total(s))) as u8,
        (channel_sum(s, 2) / population(total(s))) as u8,
    )
}

/// The palette for some buckets: a colour for each where there are few enough, and
/// the average of each box of a median cut elsewhere.
pub open spec fn palette_of(entries: Seq<Entry>, max: int) -> Seq<Rgb> {
    if entries.len() <= max {
        Seq::new(
            entries.len(),
            |k: int|
                Rgb(
                    entries[k].level(0) as u8,
                    entries[k].level(1) as u8,
                    entries[k].level(2) as u8,
                ),
        )
    } else {
        let boxes = cut(seq![entries], max);
        Seq::new(boxes.len(), |k: int| mean(boxes[k]))
    }
}

proof fn lemma_heaviest(boxes: Seq<Seq<Entry>>, k: int)
    requires
        0 <= k <= boxes.len(),
    ensures
        match heaviest(boxes, k) {
            Some(i) => 0 <= i < k && boxes[i].len() > 1,
            None => forall|j: int| 0 <= j < k ==> (#[trigger] boxes[j]).len() <= 1,
        },
    decreases k,
{
    if k > 0 {
        lemma_heaviest(boxes, k - 1);
    }
}

#[via_fn]
proof fn cut_decreases(boxes: Seq<Seq<Entry>>, max: int) {
    lemma_heaviest(boxes, boxes.len() as int);
}

/// How often an entry occurs at one level.
proof fn lemma_at_level(s: Seq<Entry>, c: int, v: int, e: Entry)
    ensures
        at_level(s, c, v).to_multiset().count(e) == (if e.level(c) == v {
            s.to_multiset().count(e)
        } else {
            0
        }),
    decreases s.len(),
{
    broadcast use vstd::seq_lib::group_to_multiset_ensures;

    if s.len() > 0 {
        let rest = s.drop_last();
        lemma_at_level(rest, c, v, e);
        assert(s =~= rest.push(s.last()));
        assert(s.to_multiset() == rest.to_multiset().insert(s.last()));
        if s.last().level(c) == v {
            assert(at_level(s, c, v).to_multiset() == at_level(rest, c, v).to_multiset().insert(
                s.last(),
            ));
        }
    }
}

proof fn lemma_below_level(s: Seq<Entry>, c: int, v: int, e: Entry)
    requires
        0 <= v,
    ensures
        below_level(s, c, v).to_multiset().count(e) == (if e.level(c) < v {
            s.to_multiset().count(e)
        } else {
            0
        }),
    decreases v,
{
    broadcast use vstd::seq_lib::group_to_multiset_ensures;

    if v > 0 {
        lemma_below_level(s, c, v - 1, e);
        lemma_at_level(s, c, v - 1, e);
        vstd::seq_lib::lemma_multiset_commutative(below_level(s, c, v - 1), at_level(s, c, v - 1));
    }
}

/// Sorting a box by a channel keeps its entries.
pub proof fn sorting_keeps_the_entries(s: Seq<Entry>, c: int)
    ensures
        by_channel(s, c).to_multiset() == s.to_multiset(),
        by_channel(s, c).len() == s.len(),
{
    broadcast use vstd::seq_lib::group_to_multiset_ensures;

    assert forall|e: Entry| #[trigger]
        by_channel(s, c).to_multiset().count(e) == s.to_multiset().count(e) by {
        lemma_below_level(s, c, 256, e);
    }
    assert(by_channel(s, c).to_multiset() =~= s.to_multiset());
    by_channel(s, c).to_multiset_ensures();
    s.to_multiset_ensures();
}

proof fn lemma_median(s: Seq<Entry>, j: int, acc: int, all: int)
    requires
        0 <= j,
        s.len() >= 2,
    ensures
        1 <= median(s, j, acc, all) < s.len(),
    decreases s.len() - j,
{
    if j < s.len() && (acc + s[j].count) * 2 < all {
        lemma_median(s, j + 1, acc + s[j].count, all);
    }
}

/// All the entries of some boxes.
pub open spec fn contents(boxes: Seq<Seq<Entry>>) -> vstd::multiset::Multiset<Entry>
    decreases boxes.len(),
{
    if boxes.len() == 0 {
        vstd::multiset::Multiset::empty()
    } else {
        contents(boxes.drop_last()).add(boxes.last().to_multiset())
    }
}

proof fn lemma_contents_update(boxes: Seq<Seq<Entry>>, i: int, a: Seq<Entry>, b: Seq<Entry>)
    requires
        0 <= i < boxes.len(),
        boxes[i].to_multiset() == a.to_multiset().add(b.to_multiset()),
    ensures
        contents(boxes.update(i, a)).add(b.to_multiset()) == contents(boxes),
    decreases boxes.len(),
{
    let rest = boxes.drop_last();
    if i == boxes.len() - 1 {
        assert(boxes.update(i, a).drop_last() =~= rest);
        assert(contents(boxes.update(i, a)).add(b.to_multiset()) =~= contents(boxes));
    } else {
        lemma_contents_update(rest, i, a, b);
        assert(boxes.update(i, a).drop_last() =~= rest.update(i, a));
        assert(contents(boxes.update(i, a)).add(b.to_multiset()) =~= contents(boxes));
    }
}

/// A median cut loses no entry and makes none up, leaves no box empty, and makes as
/// many boxes as it may, or as there are entries.
pub proof fn cutting_keeps_the_entries(boxes: Seq<Seq<Entry>>, max: int)
    requires
        0 < boxes.len() <= max,
        forall|k: int| 0 <= k < boxes.len() ==> (#[trigger] boxes[k]).len() > 0,
    ensures
        contents(cut(boxes, max)) == contents(boxes),
        0 < cut(boxes, max).len() <= max,
        forall|k: int| 0 <= k < cut(boxes, max).len() ==> (#[trigger] cut(boxes, max)[k]).len() > 0,
        cut(boxes, max).len() == max || forall|k: int|
            0 <= k < cut(boxes, max).len() ==> (#[trigger] cut(boxes, max)[k]).len() == 1,
    decreases max - boxes.len(),
{
    if boxes.len() < max {
        lemma_heaviest(boxes, boxes.len() as int);
        match heaviest(boxes, boxes.len() as int) {
            None => {
                assert forall|k: int| 0 <= k < boxes.len() implies (#[trigger] boxes[k]).len()
                    == 1 by {}
            },
            Some(i) => {
                let s = by_channel(boxes[i], widest(boxes[i]));
                sorting_keeps_the_entries(boxes[i], widest(boxes[i]));
                lemma_median(s, 0, 0, total(s));
                let k = median(s, 0, 0, total(s));
                let a = s.take(k);
                let b = s.skip(k);
                assert(s =~= a + b);
                vstd::seq_lib::lemma_multiset_commutative(a, b);
                lemma_contents_update(boxes, i, a, b);
                let next = boxes.update(i, a).push(b);
                assert(next.drop_last() =~= boxes.update(i, a));
                assert forall|j: int| 0 <= j < next.len() implies (#[trigger] next[j]).len()
                    > 0 by {
                    if j < boxes.len() && j != i {
                        assert(next[j] == boxes[j]);
                    }
                }
                cutting_keeps_the_entries(next, max);
            },
        }
    }
}

/// A palette has at least one colour, and no more than it may.
pub proof fn palettes_are_small(entries: Seq<Entry>, max: int)
    requires
        entries.len() > 0,
        max > 0,
    ensures
        0 < palette_of(entries, max).len() <= max,
        palette_of(entries, max).len() <= entries.len() || entries.len() > max,
{
    if entries.len() > max {
        let boxes = seq![entries];
        assert(boxes[0] == entries);
        cutting_keeps_the_entries(boxes, max);
    }
}

pub open spec fn box_views(v: Seq<Vec<Entry>>) -> Seq<Seq<Entry>> {
    Seq::new(v.len(), |k: int| v[k]@)
}

fn total_of(s: &Vec<Entry>) -> (r: u128)
    requires
        s.len() <= BUCKETS,
    ensures
        r == total(s@),
        r <= 0x8000 * 0xffff_ffff_ffff_ffff,
{
    let mut sum: u128 = 0;
    assert(s@.take(0) =~= Seq::empty());
    for i in 0..s.len()
        invariant
            s.len() <= BUCKETS,
            sum == total(s@.take(i as int)),
            sum <= i * 0xffff_ffff_ffff_ffff,
    {
        assert(s@.take(i + 1).drop_last() =~= s@.take(i as int));
        sum = sum + s[i].count as u128;
    }
    assert(s@.take(s@.len() as int) =~= s@);
    sum
}

fn spread_of(s: &Vec<Entry>, c: usize) -> (r: u8)
    ensures
        r == spread(s@, c as int),
{
    let mut lo: u8 = 255;
    let mut hi: u8 = 0;
    assert(s@.take(0) =~= Seq::empty());
    for i in 0..s.len()
        invariant
            lo == low(s@.take(i as int), c as int),
            hi == high(s@.take(i as int), c as int),
    {
        assert(s@.take(i + 1).drop_last() =~= s@.take(i as int));
        let v = s[i].channel(c);
        if v < lo {
            lo = v;
        }
        if v > hi {
            hi = v;
        }
    }
    assert(s@.take(s@.len() as int) =~= s@);
    if hi > lo {
        hi - lo
    } else {
        0
    }
}

/// The channel with the widest spread in a box, and that spread.
pub fn widest_channel(s: &Vec<Entry>) -> (r: (usize, u8))
    ensures
        r.0 == widest(s@),
        r.1 == spread(s@, widest(s@)),
{
    let mut best: usize = 0;
    let mut range: u8 = spread_of(s, 0);
    let second = spread_of(s, 1);
    if second > range {
        best = 1;
        range = second;
    }
    let third = spread_of(s, 2);
    if third > range {
        best = 2;
        range = third;
    }
    (best, range)
}

fn weight_of(s: &Vec<Entry>) -> (r: u128)
    requires
        s.len() <= BUCKETS,
    ensures
        r == weight(s@),
{
    let (_, range) = widest_channel(s);
    let count = total_of(s);
    let count: u128 = if count < 1 {
        1
    } else {
        count
    };
    assert(range as int * count as int <= 255 * (0x8000 * 0xffff_ffff_ffff_ffff))
        by (nonlinear_arith)
        requires
            0 <= range <= 255,
            0 <= count <= 0x8000 * 0xffff_ffff_ffff_ffff,
    ;
    range as u128 * count
}

fn sort_by_channel(s: &Vec<Entry>, c: usize) -> (r: Vec<Entry>)
    ensures
        r@ == by_channel(s@, c as int),
{
    let mut out: Vec<Entry> = Vec::new();
    for v in 0..256usize
        invariant
            out@ == below_level(s@, c as int, v as int),
    {
        let ghost before = out@;
        assert(s@.take(0) =~= Seq::empty());
        assert(before + at_level(s@.take(0), c as int, v as int) =~= before);
        for i in 0..s.len()
            invariant
                out@ == before + at_level(s@.take(i as int), c as int, v as int),
        {
            assert(s@.take(i + 1).drop_last() =~= s@.take(i as int));
            if s[i].channel(c) as usize == v {
                let ghost mid = at_level(s@.take(i as int), c as int, v as int);
                out.push(s[i]);
                assert(out@ =~= before + mid.push(s@[i as int]));
            }
        }
        assert(s@.take(s@.len() as int) =~= s@);
    }
    out
}

fn median_of(s: &Vec<Entry>) -> (r: usize)
    requires
        2 <= s.len() <= BUCKETS,
    ensures
        r == median(s@, 0, 0, total(s@)),
        1 <= r < s.len(),
{
    proof {
        lemma_median(s@, 0, 0, total(s@));
    }
    let all = total_of(s);
    let mut acc: u128 = 0;
    let mut j: usize = 0;
    while j < s.len()
        invariant
            2 <= s.len() <= BUCKETS,
            j <= s.len(),
            all == total(s@),
            acc <= j * 0xffff_ffff_ffff_ffff,
            median(s@, j as int, acc as int, all as int) == median(s@, 0, 0, all as int),
        decreases s.len() - j,
    {
        acc = acc + s[j].count as u128;
        if acc * 2 >= all {
            return if j + 1 > s.len() - 1 {
                s.len() - 1
            } else {
                j + 1
            };
        }
        j = j + 1;
    }
    1
}

fn heaviest_of(boxes: &Vec<Vec<Entry>>) -> (r: Option<usize>)
    requires
        forall|k: int| 0 <= k < boxes.len() ==> (#[trigger] boxes@[k]).len() <= BUCKETS,
    ensures
        match r {
            Some(i) => heaviest(box_views(boxes@), boxes@.len() as int) == Some(i as int),
            None => heaviest(box_views(boxes@), boxes@.len() as int) is None,
        },
{
    let ghost v = box_views(boxes@);
    let mut best: Option<usize> = None;
    let mut best_weight: u128 = 0;
    for i in 0..boxes.len()
        invariant
            v == box_views(boxes@),
            forall|k: int| 0 <= k < boxes.len() ==> (#[trigger] boxes@[k]).len() <= BUCKETS,
            match best {
                Some(b) => b < i && heaviest(v, i as int) == Some(b as int) && best_weight
                    == weight(v[b as int]),
                None => heaviest(v, i as int) is None,
            },
    {
        assert(v[i as int] == boxes@[i as int]@);
        if boxes[i].len() > 1 {
            let w = weight_of(&boxes[i]);
            let better = match best {
                None => true,
                Some(_) => w >= best_weight,
            };
            if better {
                best = Some(i);
                best_weight = w;
            }
        }
    }
    best
}

fn take_entries(s: &Vec<Entry>, from: usize, to: usize) -> (r: Vec<Entry>)
    requires
        from <= to <= s.len(),
    ensures
        r@ == s@.subrange(from as int, to as int),
{
    let mut out: Vec<Entry> = Vec::new();
    assert(out@ =~= s@.subrange(from as int, from as int));
    for i in from..to
        invariant
            from <= to <= s.len(),
            out@ == s@.subrange(from as int, i as int),
    {
        out.push(s[i]);
        assert(out@ =~= s@.subrange(from as int, i + 1));
    }
    out
}

fn average(s: &Vec<Entry>) -> (r: Rgb)
    requires
        s.len() <= BUCKETS,
    ensures
        r == mean(s@),
{
    let mut red: u128 = 0;
    let mut green: u128 = 0;
    let mut blue: u128 = 0;
    assert(s@.take(0) =~= Seq::empty());
    for i in 0..s.len()
        invariant
            s.len() <= BUCKETS,
            red == channel_sum(s@.take(i as int), 0),
            green == channel_sum(s@.take(i as int), 1),
            blue == channel_sum(s@.take(i as int), 2),
            red <= i * 0xffff_ffff_ffff_ffff,
            green <= i * 0xffff_ffff_ffff_ffff,
            blue <= i * 0xffff_ffff_ffff_ffff,
    {
        assert(s@.take(i + 1).drop_last() =~= s@.take(i as int));
        red = red + s[i].red as u128;
        green = green + s[i].green as u128;
        blue = blue + s[i].blue as u128;
    }
    assert(s@.take(s@.len() as int) =~= s@);
    let count = total_of(s);
    let count: u128 = if count < 1 {
        1
    } else {
        count
    };
    #[verifier::truncate]
    let r: u8 = (red / count) as u8;
    #[verifier::truncate]
    let g: u8 = (green / count) as u8;
    #[verifier::truncate]
    let b: u8 = (blue / count) as u8;
    Rgb(r, g, b)
}

/// Median cut: repeatedly split the most promising box along its widest channel, at
/// the population median so that both halves carry similar weight.
pub fn median_cut(entries: Vec<Entry>, max_colors: usize) -> (r: Vec<Rgb>)
    requires
        0 < entries.len() <= BUCKETS,
        max_colors > 0,
    ensures
        r@ == palette_of(entries@, max_colors as int),
        0 < r.len() <= max_colors,
{
    proof {
        palettes_are_small(entries@, max_colors as int);
    }
    let mut out: Vec<Rgb> = Vec::new();
    if entries.len() <= max_colors {
        for i in 0..entries.len()
            invariant
                out.len() == i,
                forall|k: int|
                    0 <= k < i ==> #[trigger] out@[k] == Rgb(
                        entries@[k].level(0) as u8,
                        entries@[k].level(1) as u8,
                        entries@[k].level(2) as u8,
                    ),
        {
            out.push(Rgb(entries[i].channel(0), entries[i].channel(1), entries[i].channel(2)));
        }
        assert(out@ =~= palette_of(entries@, max_colors as int));
        return out;
    }
    let ghost first = seq![entries@];
    let mut boxes: Vec<Vec<Entry>> = Vec::new();
    boxes.push(entries);
    assert(box_views(boxes@) =~= first);
    let mut done: bool = false;
    while boxes.len() < max_colors && !done
        invariant
            0 < boxes.len() <= max_colors,
            forall|k: int| 0 <= k < boxes.len() ==> (#[trigger] boxes@[k]).len() <= BUCKETS,
            cut(box_views(boxes@), max_colors as int) == cut(first, max_colors as int),
            done ==> cut(box_views(boxes@), max_colors as int) == box_views(boxes@),
        decreases
                max_colors - boxes.len() + (if done {
                    0int
                } else {
                    1int
                }),
    {
        let ghost v = box_views(boxes@);
        proof {
            lemma_heaviest(v, v.len() as int);
        }
        match heaviest_of(&boxes) {
            None => {
                done = true;
            },
            Some(i) => {
                assert(v[i as int] == boxes@[i as int]@);
                let (channel, _) = widest_channel(&boxes[i]);
                let s = sort_by_channel(&boxes[i], channel);
                proof {
                    sorting_keeps_the_entries(v[i as int], channel as int);
                }
                let k = median_of(&s);
                let left = take_entries(&s, 0, k);
                let right = take_entries(&s, k, s.len());
                assert(left@ =~= s@.take(k as int));
                assert(right@ =~= s@.skip(k as int));
                boxes.set(i, left);
                boxes.push(right);
                assert(box_views(boxes@) =~= v.update(i as int, s@.take(k as int)).push(
                    s@.skip(k as int),
                ));
            },
        }
    }
    let ghost v = box_views(boxes@);
    for i in 0..boxes.len()
        invariant
            v == box_views(boxes@),
            forall|k: int| 0 <= k < boxes.len() ==> (#[trigger] boxes@[k]).len() <= BUCKETS,
            out.len() == i,
            forall|k: int| 0 <= k < i ==> #[trigger] out@[k] == mean(v[k]),
    {
        assert(v[i as int] == boxes@[i as int]@);
        out.push(average(&boxes[i]));
    }
    assert(out@ =~= palette_of(entries@, max_colors as int));
    out
}

// --- mapping pixels to the palette ----------------------------------------------------

/// How far apart two colours look. Green weighs most: the eye is most sensitive to it.
pub open spec fn apart(a: Rgb, b: Rgb) -> int {
    2 * (a.0 - b.0) * (a.0 - b.0) + 4 * (a.1 - b.1) * (a.1 - b.1) + 3 * (a.2 - b.2) * (a.2 - b.2)
}

/// The first of the `k` first colours that is nearest to `c`.
pub open spec fn nearest_upto(palette: Seq<Rgb>, c: Rgb, k: int) -> int
    decreases k,
{
    if k <= 1 {
        0
    } else {
        let b = nearest_upto(palette, c, k - 1);
        if apart(c, palette[k - 1]) < apart(c, palette[b]) {
            k - 1
        } else {
            b
        }
    }
}

pub open spec fn nearest_index(palette: Seq<Rgb>, c: Rgb) -> int {
    nearest_upto(palette, c, palette.len() as int)
}

/// No colour of the palette is nearer than the one that is chosen.
pub proof fn the_nearest_is_chosen(palette: Seq<Rgb>, c: Rgb, k: int)
    requires
        0 < k <= palette.len(),
    ensures
        0 <= nearest_upto(palette, c, k) < k,
        forall|j: int|
            0 <= j < k ==> apart(c, palette[nearest_upto(palette, c, k)]) <= apart(
                c,
                #[trigger] palette[j],
            ),
    decreases k,
{
    if k > 1 {
        the_nearest_is_chosen(palette, c, k - 1);
    }
}

/// Marks a bucket that has not been looked up.
pub const EMPTY: u16 = 0xffff;

/// A colour's index in the palette, and the table of lookups after that. All colours
/// of a bucket get the index of the first of them that was asked for.
pub open spec fn looked_up(table: Seq<u16>, palette: Seq<Rgb>, c: Rgb) -> (int, Seq<u16>) {
    let cached = table[bucket(c)];
    if cached != EMPTY && cached < palette.len() {
        (cached as int, table)
    } else {
        (nearest_index(palette, c), table.update(bucket(c), nearest_index(palette, c) as u16))
    }
}

/// A pixel with the error that was diffused into it.
#[derive(Debug, Clone, Copy, PartialEq, Eq, Structural)]
pub struct Wanted {
    pub red: i32,
    pub green: i32,
    pub blue: i32,
}

/// A number in the range of `i32`: the nearest one to `n`.
pub open spec fn limited(n: int) -> i32 {
    if n > i32::MAX {
        i32::MAX
    } else if n < i32::MIN {
        i32::MIN
    } else {
        n as i32
    }
}

/// `num` sixteenths of an error, rounded towards nothing.
pub open spec fn sixteenths(error: int, num: int) -> int {
    if error >= 0 {
        error * num / 16
    } else {
        -((-error) * num / 16)
    }
}

/// A channel's value where it has one.
pub open spec fn clamped(n: i32) -> u8 {
    if n < 0 {
        0
    } else if n > 255 {
        255
    } else {
        n as u8
    }
}

/// What the `i`th pixel asks for before any error reaches it.
pub open spec fn wanted_at(p: PictureV, i: int) -> Wanted {
    let c = color_at(p, i);
    Wanted { red: c.0 as i32, green: c.1 as i32, blue: c.2 as i32 }
}

/// `num` sixteenths of the error of `want` against `chosen` given to the `j`th pixel,
/// if that is there.
pub open spec fn diffused(
    buf: Seq<Wanted>,
    there: bool,
    j: int,
    want: Wanted,
    chosen: Rgb,
    num: int,
) -> Seq<Wanted> {
    if there {
        buf.update(
            j,
            Wanted {
                red: limited(buf[j].red + sixteenths(want.red - chosen.0, num)),
                green: limited(buf[j].green + sixteenths(want.green - chosen.1, num)),
                blue: limited(buf[j].blue + sixteenths(want.blue - chosen.2, num)),
            },
        )
    } else {
        buf
    }
}

/// The error of the `i`th of `n` pixels in rows of `w`, spread over its neighbours:
/// seven sixteenths to the right, three down to the left, five down and one down to the
/// right.
pub open spec fn spread_error(
    buf: Seq<Wanted>,
    i: int,
    w: int,
    n: int,
    want: Wanted,
    chosen: Rgb,
) -> Seq<Wanted> {
    let right = (i + 1) % w != 0;
    let left = i % w != 0;
    let down = i + w < n;
    let a = diffused(buf, right, i + 1, want, chosen, 7);
    let b = diffused(a, left && down, i + w - 1, want, chosen, 3);
    let c = diffused(b, down, i + w, want, chosen, 5);
    diffused(c, right && down, i + w + 1, want, chosen, 1)
}

/// The state of dithering.
pub struct DitherV {
    pub buf: Seq<Wanted>,
    pub table: Seq<u16>,
    pub out: Seq<Option<u8>>,
}

/// Dithering after the first `k` pixels.
pub open spec fn dithered(p: PictureV, palette: Seq<Rgb>, k: int) -> DitherV
    decreases k,
{
    if k <= 0 {
        DitherV {
            buf: Seq::new(p.count() as nat, |i: int| wanted_at(p, i)),
            table: Seq::new(BUCKETS as nat, |i: int| EMPTY),
            out: Seq::empty(),
        }
    } else {
        let d = dithered(p, palette, k - 1);
        if drawn_at(p, k - 1) {
            let want = d.buf[k - 1];
            let (index, table) = looked_up(
                d.table,
                palette,
                Rgb(clamped(want.red), clamped(want.green), clamped(want.blue)),
            );
            DitherV {
                buf: spread_error(d.buf, k - 1, p.width as int, p.count(), want, palette[index]),
                table,
                out: d.out.push(Some(index as u8)),
            }
        } else {
            DitherV { out: d.out.push(None), ..d }
        }
    }
}

fn distance(a: Rgb, b: Rgb) -> (r: u32)
    ensures
        r == apart(a, b),
        r <= 585225,
{
    let dr: i32 = a.0 as i32 - b.0 as i32;
    let dg: i32 = a.1 as i32 - b.1 as i32;
    let db: i32 = a.2 as i32 - b.2 as i32;
    assert(0 <= dr * dr <= 65025) by (nonlinear_arith)
        requires
            -255 <= dr <= 255,
    ;
    assert(0 <= dg * dg <= 65025) by (nonlinear_arith)
        requires
            -255 <= dg <= 255,
    ;
    assert(0 <= db * db <= 65025) by (nonlinear_arith)
        requires
            -255 <= db <= 255,
    ;
    assert(2 * dr * dr == 2 * (dr * dr) && 4 * dg * dg == 4 * (dg * dg) && 3 * db * db == 3 * (db
        * db)) by (nonlinear_arith);
    (2 * (dr * dr) + 4 * (dg * dg) + 3 * (db * db)) as u32
}

fn find_nearest(palette: &Vec<Rgb>, c: Rgb) -> (r: usize)
    requires
        palette.len() > 0,
    ensures
        r == nearest_index(palette@, c),
        r < palette.len(),
{
    let mut best: usize = 0;
    let mut best_distance: u32 = distance(c, palette[0]);
    let mut k: usize = 1;
    while k < palette.len()
        invariant
            1 <= k <= palette.len(),
            best < k,
            best == nearest_upto(palette@, c, k as int),
            best_distance == apart(c, palette@[best as int]),
        decreases palette.len() - k,
    {
        let d = distance(c, palette[k]);
        if d < best_distance {
            best_distance = d;
            best = k;
        }
        k = k + 1;
    }
    best
}

/// Remembers lookups by bucket.
///
/// Without this, every pixel costs a scan of the whole palette; with it, all but the
/// first pixel of each bucket costs a read from a table.
pub struct LookupCache {
    table: Vec<u16>,
}

impl LookupCache {
    pub closed spec fn view(&self) -> Seq<u16> {
        self.table@
    }

    pub fn new() -> (r: LookupCache)
        ensures
            r.view() == Seq::new(BUCKETS as nat, |i: int| EMPTY),
    {
        let mut table: Vec<u16> = Vec::new();
        for i in 0..BUCKETS
            invariant
                table.len() == i,
                forall|k: int| 0 <= k < i ==> #[trigger] table@[k] == EMPTY,
        {
            table.push(EMPTY);
        }
        assert(table@ =~= Seq::new(BUCKETS as nat, |i: int| EMPTY));
        LookupCache { table }
    }

    /// The index of a colour, looked up or remembered.
    pub fn nearest(&mut self, palette: &Vec<Rgb>, color: Rgb) -> (r: usize)
        requires
            0 < palette.len() <= MAX_COLORS,
            old(self).view().len() == BUCKETS,
        ensures
            (r as int, final(self).view()) == looked_up(old(self).view(), palette@, color),
            r < palette.len(),
            final(self).view().len() == BUCKETS,
    {
        let key = key555(color);
        let cached = self.table[key];
        if cached != EMPTY && (cached as usize) < palette.len() {
            return cached as usize;
        }
        let best = find_nearest(palette, color);
        self.table.set(key, best as u16);
        best
    }
}

fn limit(n: i64) -> (r: i32)
    ensures
        r == limited(n as int),
{
    if n > i32::MAX as i64 {
        i32::MAX
    } else if n < i32::MIN as i64 {
        i32::MIN
    } else {
        n as i32
    }
}

fn share(error: i64, num: i64) -> (r: i64)
    requires
        -0x1_0000_0000 <= error <= 0x1_0000_0000,
        0 <= num <= 16,
    ensures
        r == sixteenths(error as int, num as int),
        -0x1_0000_0000 <= r <= 0x1_0000_0000,
{
    if error >= 0 {
        assert(0 <= error * num <= 0x1_0000_0000 * 16) by (nonlinear_arith)
            requires
                0 <= error <= 0x1_0000_0000,
                0 <= num <= 16,
        ;
        ((error * num) as u64 / 16) as i64
    } else {
        let e: i64 = -error;
        assert(0 <= e * num <= 0x1_0000_0000 * 16) by (nonlinear_arith)
            requires
                0 <= e <= 0x1_0000_0000,
                0 <= num <= 16,
        ;
        -(((e * num) as u64 / 16) as i64)
    }
}

fn clamp(n: i32) -> (r: u8)
    ensures
        r == clamped(n),
{
    if n < 0 {
        0
    } else if n > 255 {
        255
    } else {
        n as u8
    }
}

fn diffuse(buf: &mut Vec<Wanted>, there: bool, j: usize, want: Wanted, chosen: Rgb, num: i64)
    requires
        there ==> j < old(buf).len(),
        0 <= num <= 16,
    ensures
        final(buf)@ == diffused(old(buf)@, there, j as int, want, chosen, num as int),
        final(buf).len() == old(buf).len(),
{
    if there {
        let at = buf[j];
        let red = limit(at.red as i64 + share(want.red as i64 - chosen.0 as i64, num));
        let green = limit(at.green as i64 + share(want.green as i64 - chosen.1 as i64, num));
        let blue = limit(at.blue as i64 + share(want.blue as i64 - chosen.2 as i64, num));
        buf.set(j, Wanted { red, green, blue });
    }
}

proof fn lemma_row_below(i: int, w: int, h: int)
    requires
        0 < w,
        0 <= i < w * h,
        i + w < w * h,
        (i + 1) % w != 0,
    ensures
        i + w + 1 < w * h,
{
    vstd::arithmetic::div_mod::lemma_mod_multiples_basic(h, w);
    assert(h * w == w * h) by (nonlinear_arith);
    if i + w + 1 == w * h {
        vstd::arithmetic::div_mod::lemma_mod_add_multiples_vanish(i + 1, w);
    }
}

/// Maps every pixel to a palette entry, diffusing the error as it goes. Transparent
/// pixels map to none.
pub fn map_pixels(image: &Picture, palette: &Vec<Rgb>) -> (r: Vec<Option<u8>>)
    requires
        image.wf(),
        0 < palette.len() <= MAX_COLORS,
    ensures
        r@ == dithered(image@, palette@, image@.count()).out,
        r.len() == image@.count(),
        forall|k: int|
            0 <= k < r.len() ==> (#[trigger] r@[k] matches Some(i) ==> (i as int) < palette.len()),
{
    let ghost p = image@;
    let n: usize = image.pixels.len() / 4;
    let w: usize = image.width as usize;
    let mut buf: Vec<Wanted> = Vec::new();
    for i in 0..n
        invariant
            image.wf(),
            p == image@,
            n == p.count(),
            buf.len() == i,
            forall|k: int| 0 <= k < i ==> #[trigger] buf@[k] == wanted_at(p, k),
    {
        let c = read_color(image, i);
        buf.push(Wanted { red: c.0 as i32, green: c.1 as i32, blue: c.2 as i32 });
    }
    let mut cache = LookupCache::new();
    let mut out: Vec<Option<u8>> = Vec::new();
    assert(buf@ =~= dithered(p, palette@, 0).buf);
    if n > 0 && w == 0 {
        assert(image.width * image.height == 0) by (nonlinear_arith)
            requires
                image.width == 0,
        ;
    }
    for i in 0..n
        invariant
            image.wf(),
            p == image@,
            n == p.count(),
            w == p.width,
            n > 0 ==> w > 0,
            n <= usize::MAX / 32,
            0 < palette.len() <= MAX_COLORS,
            buf.len() == n,
            cache.view().len() == BUCKETS,
            buf@ == dithered(p, palette@, i as int).buf,
            cache.view() == dithered(p, palette@, i as int).table,
            out@ == dithered(p, palette@, i as int).out,
            out.len() == i,
            forall|k: int|
                0 <= k < out.len() ==> (#[trigger] out@[k] matches Some(i) ==> (i as int)
                    < palette.len()),
    {
        if is_drawn(image, i) {
            let want = buf[i];
            let index = cache.nearest(
                palette,
                Rgb(clamp(want.red), clamp(want.green), clamp(want.blue)),
            );
            let chosen = palette[index];
            out.push(Some(index as u8));
            let right = (i + 1) % w != 0;
            let left = i % w != 0;
            let down = w < n - i;
            proof {
                if right && down {
                    lemma_row_below(i as int, w as int, p.height as int);
                }
                if right && i + 1 == n {
                    vstd::arithmetic::div_mod::lemma_mod_multiples_basic(
                        p.height as int,
                        w as int,
                    );
                    assert(p.height * p.width == p.width * p.height) by (nonlinear_arith);
                }
            }
            diffuse(&mut buf, right, i + 1, want, chosen, 7);
            diffuse(
                &mut buf,
                left && down,
                if left && down {
                    i + w - 1
                } else {
                    0
                },
                want,
                chosen,
                3,
            );
            diffuse(
                &mut buf,
                down,
                if down {
                    i + w
                } else {
                    0
                },
                want,
                chosen,
                5,
            );
            diffuse(
                &mut buf,
                right && down,
                if right && down {
                    i + w + 1
                } else {
                    0
                },
                want,
                chosen,
                1,
            );
        } else {
            out.push(None);
        }
    }
    out
}

// --- the two together -----------------------------------------------------------------

/// An image reduced to a palette, with `None` marking transparent pixels.
#[derive(Debug)]
pub struct Quantized {
    pub palette: Vec<Rgb>,
    /// One entry per pixel, row-major.
    pub indices: Vec<Option<u8>>,
}

/// The palette of a picture. One with nothing to draw gets a single black.
pub open spec fn quantized_palette(p: PictureV, max: int) -> Seq<Rgb> {
    let entries = occupied(tallied(p, p.count()));
    if entries.len() == 0 {
        seq![Rgb(0, 0, 0)]
    } else {
        palette_of(
            entries,
            if max < 1 {
                1
            } else {
                max
            },
        )
    }
}

/// The pixels of a picture by the index of their colours.
pub open spec fn quantized_indices(p: PictureV, max: int) -> Seq<Option<u8>> {
    if occupied(tallied(p, p.count())).len() == 0 {
        Seq::new(p.count() as nat, |k: int| None)
    } else {
        dithered(p, quantized_palette(p, max), p.count()).out
    }
}

proof fn lemma_occupied_len(t: Seq<Entry>)
    ensures
        occupied(t).len() <= t.len(),
    decreases t.len(),
{
    if t.len() > 0 {
        lemma_occupied_len(t.drop_last());
    }
}

proof fn lemma_tallied_len(p: PictureV, k: int)
    ensures
        tallied(p, k).len() == BUCKETS,
    decreases k,
{
    if k > 0 {
        lemma_tallied_len(p, k - 1);
    }
}

/// Reduces an image to at most `max_colors` colours, and to no more than there are
/// registers.
pub fn quantize(image: &Picture, max_colors: usize) -> (r: Quantized)
    requires
        image.wf(),
        max_colors <= MAX_COLORS,
    ensures
        r.palette@ == quantized_palette(image@, max_colors as int),
        r.indices@ == quantized_indices(image@, max_colors as int),
        0 < r.palette.len() <= MAX_COLORS,
        r.palette.len() <= max_colors || max_colors == 0,
        r.indices.len() == image@.count(),
        forall|k: int|
            0 <= k < r.indices.len() ==> (#[trigger] r.indices@[k] matches Some(i) ==> (i as int)
                < r.palette.len()),
{
    proof {
        lemma_tallied_len(image@, image@.count());
        lemma_occupied_len(tallied(image@, image@.count()));
    }
    let entries = histogram(image);
    if entries.len() == 0 {
        let n: usize = image.pixels.len() / 4;
        let mut indices: Vec<Option<u8>> = Vec::new();
        for i in 0..n
            invariant
                indices.len() == i,
                forall|k: int| 0 <= k < i ==> #[trigger] indices@[k] is None,
        {
            indices.push(None);
        }
        let palette = vec![Rgb(0, 0, 0)];
        assert(palette@ =~= seq![Rgb(0, 0, 0)]);
        assert(indices@ =~= quantized_indices(image@, max_colors as int));
        return Quantized { palette, indices };
    }
    let palette = median_cut(
        entries,
        if max_colors < 1 {
            1
        } else {
            max_colors
        },
    );
    let indices = map_pixels(image, &palette);
    Quantized { palette, indices }
}

// --- writing ------------------------------------------------------------------------------

/// A channel as a percentage, which is how sixel counts.
pub open spec fn percent(v: int) -> int {
    (v * 100 + 127) / 255
}

/// Colour components are percentages: black is 0, white is 100, and nothing is beyond.
pub proof fn components_are_percentages(v: u8)
    ensures
        0 <= percent(v as int) <= 100,
        percent(0) == 0,
        percent(255) == 100,
{
}

fn to_percent(v: u8) -> (r: u64)
    ensures
        r == percent(v as int),
{
    (v as u64 * 100 + 127) / 255
}

/// The bit of a row in a sixel.
pub open spec fn row_bit(row: int) -> int {
    if row == 0 {
        1
    } else if row == 1 {
        2
    } else if row == 2 {
        4
    } else if row == 3 {
        8
    } else if row == 4 {
        16
    } else {
        32
    }
}

/// The sixel of one colour in column `x` of a band that starts at `base`: a bit for each
/// of the first `rows` rows in which the pixel has that colour.
pub open spec fn sixel_at(
    indices: Seq<Option<u8>>,
    base: int,
    w: int,
    x: int,
    rows: int,
    color: u8,
) -> int
    decreases rows,
{
    if rows <= 0 {
        0
    } else {
        sixel_at(indices, base, w, x, rows - 1, color) + (if indices[base + (rows - 1) * w + x]
            == Some(color) {
            row_bit(rows - 1)
        } else {
            0
        })
    }
}

/// The sixels of one colour across a band.
pub open spec fn band_sixels(
    indices: Seq<Option<u8>>,
    base: int,
    w: int,
    rows: int,
    color: u8,
) -> Seq<u8> {
    Seq::new(w as nat, |x: int| sixel_at(indices, base, w, x, rows, color) as u8)
}

/// Sixels without the empty ones at the end, which need not be written at all.
pub open spec fn without_tail(s: Seq<u8>) -> Seq<u8>
    decreases s.len(),
{
    if s.len() > 0 && s.last() == 0 {
        without_tail(s.drop_last())
    } else {
        s
    }
}

/// Where the run of equal sixels around `i` ends.
pub open spec fn run_end(s: Seq<u8>, v: u8, i: int) -> int
    decreases s.len() - i,
{
    if i < 0 || i >= s.len() {
        s.len() as int
    } else if s[i] == v {
        run_end(s, v, i + 1)
    } else {
        i
    }
}

/// The runs from `i` on: each a sixel and how often it comes.
pub open spec fn runs_from(s: Seq<u8>, i: int) -> Seq<(u8, nat)>
    decreases s.len() - i,
    via runs_decreases
{
    if i < 0 || i >= s.len() {
        Seq::empty()
    } else {
        let end = run_end(s, s[i], i + 1);
        seq![(s[i], (end - i) as nat)] + runs_from(s, end)
    }
}

pub(crate) proof fn lemma_run_end(s: Seq<u8>, v: u8, i: int)
    requires
        0 <= i <= s.len(),
    ensures
        i <= run_end(s, v, i) <= s.len(),
        forall|k: int| i <= k < run_end(s, v, i) ==> #[trigger] s[k] == v,
        run_end(s, v, i) < s.len() ==> s[run_end(s, v, i)] != v,
    decreases s.len() - i,
{
    if i < s.len() && s[i] == v {
        lemma_run_end(s, v, i + 1);
    }
}

#[via_fn]
proof fn runs_decreases(s: Seq<u8>, i: int) {
    if 0 <= i < s.len() {
        lemma_run_end(s, s[i], i + 1);
    }
}

/// The character of a sixel.
pub open spec fn sixel_char(v: u8) -> char {
    ((0x3f + v) as u32) as char
}

/// One run as text: counted where that is shorter.
pub open spec fn run_text(v: u8, len: nat) -> Seq<char> {
    if len >= MIN_RUN {
        "!"@ + text::decimal(len) + seq![sixel_char(v)]
    } else {
        Seq::new(len, |k: int| sixel_char(v))
    }
}

pub open spec fn runs_text(runs: Seq<(u8, nat)>) -> Seq<char>
    decreases runs.len(),
{
    if runs.len() == 0 {
        Seq::empty()
    } else {
        runs_text(runs.drop_last()) + run_text(runs.last().0, runs.last().1)
    }
}

/// One colour's contribution to one band.
pub open spec fn band_text(
    indices: Seq<Option<u8>>,
    base: int,
    w: int,
    rows: int,
    color: u8,
) -> Seq<char> {
    runs_text(runs_from(without_tail(band_sixels(indices, base, w, rows, color)), 0))
}

/// True where a colour occurs among the pixels from `from` to `to`.
pub open spec fn used_in(indices: Seq<Option<u8>>, from: int, to: int, color: int) -> bool {
    exists|j: int| from <= j < to && #[trigger] indices[j] == Some(color as u8)
}

/// The contributions of the first `k` colours to a band, each drawn over the same band
/// after a carriage return.
pub open spec fn colors_text(
    indices: Seq<Option<u8>>,
    base: int,
    w: int,
    rows: int,
    k: int,
) -> Seq<char>
    decreases k,
{
    if k <= 0 {
        Seq::empty()
    } else {
        let before = colors_text(indices, base, w, rows, k - 1);
        if used_in(indices, base, base + rows * w, k - 1) {
            before + (if before.len() > 0 {
                "$"@
            } else {
                Seq::empty()
            }) + ("#"@ + text::decimal((k - 1) as nat) + band_text(
                indices,
                base,
                w,
                rows,
                (k - 1) as u8,
            ))
        } else {
            before
        }
    }
}

/// The number of bands of six rows that hold `h` rows.
pub open spec fn band_count(h: int) -> int {
    (h + 5) / 6
}

/// The rows of the `k`th band.
pub open spec fn band_rows(h: int, k: int) -> int {
    if h - k * 6 < 6 {
        h - k * 6
    } else {
        6
    }
}

/// The first `k` bands, each but the last of the picture followed by a new line.
pub open spec fn bands_text(
    indices: Seq<Option<u8>>,
    colors: int,
    w: int,
    h: int,
    k: int,
) -> Seq<char>
    decreases k,
{
    if k <= 0 {
        Seq::empty()
    } else {
        bands_text(indices, colors, w, h, k - 1) + colors_text(
            indices,
            (k - 1) * 6 * w,
            w,
            band_rows(h, k - 1),
            colors,
        ) + (if k < band_count(h) {
            "-"@
        } else {
            Seq::empty()
        })
    }
}

/// One colour register.
pub open spec fn register_text(i: nat, c: Rgb) -> Seq<char> {
    "#"@ + text::decimal(i) + ";2;"@ + text::decimal(percent(c.0 as int) as nat) + ";"@
        + text::decimal(percent(c.1 as int) as nat) + ";"@ + text::decimal(
        percent(c.2 as int) as nat,
    )
}

/// The registers of a palette.
pub open spec fn registers_text(palette: Seq<Rgb>) -> Seq<char>
    decreases palette.len(),
{
    if palette.len() == 0 {
        Seq::empty()
    } else {
        registers_text(palette.drop_last()) + register_text(
            (palette.len() - 1) as nat,
            palette.last(),
        )
    }
}

/// What a sixel image starts with: a device control string whose unset pixels leave
/// the background untouched, which is what makes transparency work, then the pixel
/// aspect and the image's true size, so that the terminal reserves the right area.
pub open spec fn header_text(w: nat, h: nat) -> Seq<char> {
    "\x1bP0;1;0q"@ + "\"1;1;"@ + text::decimal(w) + ";"@ + text::decimal(h)
}

/// Quantised pixels as a sixel escape sequence.
pub open spec fn sixel_text(palette: Seq<Rgb>, indices: Seq<Option<u8>>, w: nat, h: nat) -> Seq<
    char,
> {
    header_text(w, h) + registers_text(palette) + bands_text(
        indices,
        palette.len() as int,
        w as int,
        h as int,
        band_count(h as int),
    ) + "\x1b\\"@
}

fn char_of(v: u8) -> (r: char)
    requires
        v < 64,
    ensures
        r == sixel_char(v),
{
    match char::from_u32(0x3f + v as u32) {
        Some(c) => c,
        None => '?',
    }
}

fn push_run(out: &mut String, v: u8, len: usize)
    requires
        v < 64,
    ensures
        final(out)@ == old(out)@ + run_text(v, len as nat),
{
    let ghost before = out@;
    let c = char_of(v);
    if len >= MIN_RUN {
        out.push_str("!");
        text::push_decimal(out, len as u64);
        out.push(c);
        assert(out@ =~= before + run_text(v, len as nat));
    } else {
        assert(out@ =~= before + Seq::new(0, |k: int| c));
        for i in 0..len
            invariant
                c == sixel_char(v),
                out@ == before + Seq::new(i as nat, |k: int| c),
        {
            out.push(c);
            assert(out@ =~= before + Seq::new((i + 1) as nat, |k: int| c));
        }
        assert(out@ =~= before + run_text(v, len as nat));
    }
}

proof fn lemma_runs_text_append(a: Seq<(u8, nat)>, b: Seq<(u8, nat)>)
    ensures
        runs_text(a + b) == runs_text(a) + runs_text(b),
    decreases b.len(),
{
    if b.len() == 0 {
        assert(a + b =~= a);
        assert(runs_text(a) + runs_text(b) =~= runs_text(a));
    } else {
        lemma_runs_text_append(a, b.drop_last());
        assert((a + b).drop_last() =~= a + b.drop_last());
        assert(runs_text(a + b) =~= runs_text(a) + runs_text(b));
    }
}

fn push_runs(out: &mut String, s: &Vec<u8>, n: usize)
    requires
        n <= s.len(),
        forall|k: int| 0 <= k < s.len() ==> #[trigger] s@[k] < 64,
    ensures
        final(out)@ == old(out)@ + runs_text(runs_from(s@.take(n as int), 0)),
{
    let ghost t = s@.take(n as int);
    let ghost before = out@;
    let mut i: usize = 0;
    assert(out@ + runs_text(runs_from(t, 0)) == before + runs_text(runs_from(t, 0)));
    while i < n
        invariant
            i <= n <= s.len(),
            t == s@.take(n as int),
            forall|k: int| 0 <= k < s.len() ==> #[trigger] s@[k] < 64,
            out@ + runs_text(runs_from(t, i as int)) == before + runs_text(runs_from(t, 0)),
        decreases n - i,
    {
        let v = s[i];
        let mut end: usize = i + 1;
        proof {
            lemma_run_end(t, v, i + 1);
        }
        while end < n && s[end] == v
            invariant
                i < end <= n <= s.len(),
                t == s@.take(n as int),
                run_end(t, v, end as int) == run_end(t, v, i + 1),
            decreases n - end,
        {
            end = end + 1;
        }
        assert(end == run_end(t, v, i + 1));
        let ghost mid = out@;
        push_run(out, v, end - i);
        proof {
            let one = seq![(v, (end - i) as nat)];
            lemma_runs_text_append(one, runs_from(t, end as int));
            assert(one.drop_last() =~= Seq::empty());
            assert(runs_text(one) =~= run_text(v, (end - i) as nat)) by {
                assert(runs_text(one.drop_last()) =~= Seq::<char>::empty());
            }
            assert(mid + (run_text(v, (end - i) as nat) + runs_text(runs_from(t, end as int)))
                =~= out@ + runs_text(runs_from(t, end as int)));
        }
        i = end;
    }
    assert(out@ + runs_text(runs_from(t, i as int)) =~= out@);
}

fn sixel_of(
    indices: &Vec<Option<u8>>,
    base: usize,
    w: usize,
    x: usize,
    rows: usize,
    color: u8,
) -> (r: u8)
    requires
        x < w,
        rows <= 6,
        base + rows * w <= indices.len(),
    ensures
        r == sixel_at(indices@, base as int, w as int, x as int, rows as int, color),
        r < 64,
{
    let mut bits: u8 = 0;
    let mut bit: u8 = 1;
    let mut j: usize = base;
    let mut row: usize = 0;
    while row < rows
        invariant
            x < w,
            row <= rows <= 6,
            base + rows * w <= indices.len(),
            j == base + row * w,
            row < rows ==> bit == row_bit(row as int),
            bits < (if row == 0 {
                1
            } else {
                2 * row_bit(row - 1)
            }),
            bits == sixel_at(indices@, base as int, w as int, x as int, row as int, color),
        decreases rows - row,
    {
        assert((row + 1) * w == row * w + w) by (nonlinear_arith);
        assert((row + 1) * w <= rows * w) by (nonlinear_arith)
            requires
                row + 1 <= rows,
                0 <= w,
        ;
        let is_color = match indices[j + x] {
            Some(i) => i == color,
            None => false,
        };
        if is_color {
            bits = bits + bit;
        }
        j = j + w;
        row = row + 1;
        if row < rows {
            bit = bit * 2;
        }
    }
    bits
}

/// Writes one colour's contribution to one band, run-length encoded.
fn emit_band(
    out: &mut String,
    indices: &Vec<Option<u8>>,
    base: usize,
    w: usize,
    rows: usize,
    color: u8,
)
    requires
        rows <= 6,
        base + rows * w <= indices.len(),
    ensures
        final(out)@ == old(out)@ + band_text(
            indices@,
            base as int,
            w as int,
            rows as int,
            color,
        ),
{
    let ghost all = band_sixels(indices@, base as int, w as int, rows as int, color);
    let mut sixels: Vec<u8> = Vec::new();
    for x in 0..w
        invariant
            rows <= 6,
            base + rows * w <= indices.len(),
            all == band_sixels(indices@, base as int, w as int, rows as int, color),
            sixels.len() == x,
            forall|k: int| 0 <= k < x ==> #[trigger] sixels@[k] < 64 && sixels@[k] == all[k],
    {
        sixels.push(sixel_of(indices, base, w, x, rows, color));
    }
    assert(sixels@ =~= all);
    let mut n: usize = sixels.len();
    assert(all.take(n as int) =~= all);
    while n > 0 && sixels[n - 1] == 0
        invariant
            n <= sixels.len(),
            sixels@ == all,
            without_tail(all.take(n as int)) == without_tail(all),
        decreases n,
    {
        assert(all.take(n as int).drop_last() =~= all.take(n - 1));
        n = n - 1;
    }
    push_runs(out, &sixels, n);
}

fn emit_colors(
    out: &mut String,
    indices: &Vec<Option<u8>>,
    base: usize,
    w: usize,
    rows: usize,
    colors: usize,
)
    requires
        rows <= 6,
        base + rows * w <= indices.len(),
        colors <= MAX_COLORS,
        forall|k: int|
            0 <= k < indices.len() ==> (#[trigger] indices@[k] matches Some(i) ==> (i as int)
                < colors),
    ensures
        final(out)@ == old(out)@ + colors_text(
            indices@,
            base as int,
            w as int,
            rows as int,
            colors as int,
        ),
{
    assert(0 <= rows * w) by (nonlinear_arith)
        requires
            0 <= rows,
            0 <= w,
    ;
    let end: usize = base + rows * w;
    let mut used: Vec<bool> = Vec::new();
    for i in 0..colors
        invariant
            used.len() == i,
            forall|k: int| 0 <= k < i ==> !(#[trigger] used@[k]),
    {
        used.push(false);
    }
    for j in base..end
        invariant
            end <= indices.len(),
            colors <= MAX_COLORS,
            used.len() == colors,
            forall|k: int|
                0 <= k < indices.len() ==> (#[trigger] indices@[k] matches Some(i) ==> (i as int)
                    < colors),
            forall|k: int|
                0 <= k < colors ==> #[trigger] used@[k] == used_in(
                    indices@,
                    base as int,
                    j as int,
                    k,
                ),
    {
        let ghost before = used@;
        match indices[j] {
            Some(i) => {
                assert(indices@[j as int] == Some(i));
                used.set(i as usize, true);
            },
            None => {},
        }
        assert forall|k: int| 0 <= k < colors implies #[trigger] used@[k] == used_in(
            indices@,
            base as int,
            j + 1,
            k,
        ) by {
            assert(before[k] == used_in(indices@, base as int, j as int, k));
            if used_in(indices@, base as int, j as int, k) {
                let w = choose|m: int|
                    base <= m < j && #[trigger] indices@[m] == Some(k as u8);
                assert(indices@[w] == Some(k as u8));
            }
        }
    }
    let ghost start = out@;
    let mut first: bool = true;
    assert(start + Seq::<char>::empty() =~= start);
    for k in 0..colors
        invariant
            rows <= 6,
            base + rows * w <= indices.len(),
            end == base + rows * w,
            colors <= MAX_COLORS,
            used.len() == colors,
            forall|k: int|
                0 <= k < colors ==> #[trigger] used@[k] == used_in(
                    indices@,
                    base as int,
                    end as int,
                    k,
                ),
            out@ == start + colors_text(
                indices@,
                base as int,
                w as int,
                rows as int,
                k as int,
            ),
            first == (colors_text(
                indices@,
                base as int,
                w as int,
                rows as int,
                k as int,
            ).len() == 0),
    {
        if used[k] {
            let ghost before = colors_text(
                indices@,
                base as int,
                w as int,
                rows as int,
                k as int,
            );
            if !first {
                out.push_str("$");
            }
            first = false;
            out.push_str("#");
            text::push_decimal(out, k as u64);
            emit_band(out, indices, base, w, rows, k as u8);
            proof {
                reveal_strlit("#");
            }
            assert(out@ =~= start + colors_text(
                indices@,
                base as int,
                w as int,
                rows as int,
                k + 1,
            ));
        }
    }
}

fn emit_register(out: &mut String, i: usize, c: Rgb)
    ensures
        final(out)@ == old(out)@ + register_text(i as nat, c),
{
    let ghost before = out@;
    out.push_str("#");
    text::push_decimal(out, i as u64);
    out.push_str(";2;");
    text::push_decimal(out, to_percent(c.0));
    out.push_str(";");
    text::push_decimal(out, to_percent(c.1));
    out.push_str(";");
    text::push_decimal(out, to_percent(c.2));
    assert(out@ =~= before + register_text(i as nat, c));
}

fn emit_registers(out: &mut String, palette: &Vec<Rgb>)
    ensures
        final(out)@ == old(out)@ + registers_text(palette@),
{
    let ghost start = out@;
    assert(palette@.take(0) =~= Seq::empty());
    assert(start + Seq::<char>::empty() =~= start);
    for i in 0..palette.len()
        invariant
            out@ == start + registers_text(palette@.take(i as int)),
    {
        assert(palette@.take(i + 1).drop_last() =~= palette@.take(i as int));
        let ghost before = registers_text(palette@.take(i as int));
        emit_register(out, i, palette[i]);
        assert(start + before + register_text(i as nat, palette@[i as int]) =~= start + (before
            + register_text(i as nat, palette@[i as int])));
    }
    assert(palette@.take(palette@.len() as int) =~= palette@);
}

proof fn lemma_band(w: int, h: int, k: int)
    requires
        0 <= w,
        0 <= k < band_count(h),
        0 <= h,
    ensures
        0 <= k * 6 * w,
        0 < band_rows(h, k) <= 6,
        k * 6 * w + band_rows(h, k) * w <= w * h,
        0 <= k * 6 <= h,
{
    let y = k * 6;
    let rows = band_rows(h, k);
    assert(y * w + rows * w <= w * h) by (nonlinear_arith)
        requires
            0 <= w,
            y + rows <= h,
    ;
    assert(0 <= y * w) by (nonlinear_arith)
        requires
            0 <= y,
            0 <= w,
    ;
}

/// Builds the escape sequence from quantised pixels.
pub fn emit(q: &Quantized, width: usize, height: usize) -> (r: String)
    requires
        q.indices.len() == width * height,
        q.palette.len() <= MAX_COLORS,
        height < usize::MAX - 5,
        forall|k: int|
            0 <= k < q.indices.len() ==> (#[trigger] q.indices@[k] matches Some(i) ==> (i as int)
                < q.palette.len()),
    ensures
        r@ == sixel_text(q.palette@, q.indices@, width as nat, height as nat),
{
    let ghost colors = q.palette@.len() as int;
    let ghost w = width as int;
    let ghost h = height as int;
    let mut out = text::owned("\x1bP0;1;0q");
    out.push_str("\"1;1;");
    text::push_decimal(&mut out, width as u64);
    out.push_str(";");
    text::push_decimal(&mut out, height as u64);
    emit_registers(&mut out, &q.palette);
    let ghost start = out@;
    assert(start + Seq::<char>::empty() =~= start);
    let bands: usize = (height + 5) / 6;
    for k in 0..bands
        invariant
            q.indices.len() == width * height,
            q.palette.len() <= MAX_COLORS,
            w == width,
            h == height,
            colors == q.palette@.len(),
            bands == band_count(h),
            forall|k: int|
                0 <= k < q.indices.len() ==> (#[trigger] q.indices@[k] matches Some(i) ==> (
                i as int) < q.palette.len()),
            out@ == start + bands_text(q.indices@, colors, w, h, k as int),
    {
        proof {
            lemma_band(w, h, k as int);
            assert(band_rows(h, k as int) * w >= 0) by (nonlinear_arith)
                requires
                    band_rows(h, k as int) > 0,
                    w >= 0,
            ;
        }
        let y: usize = k * 6;
        let rows: usize = if height - y < 6 {
            height - y
        } else {
            6
        };
        let base: usize = y * width;
        emit_colors(&mut out, &q.indices, base, width, rows, q.palette.len());
        if k + 1 < bands {
            out.push_str("-");
        }
        assert(out@ =~= start + bands_text(q.indices@, colors, w, h, k + 1));
    }
    out.push_str("\x1b\\");
    out
}

/// A picture as a sixel escape sequence; an empty one is none.
pub open spec fn encoded(p: PictureV) -> Option<Seq<char>> {
    if p.width == 0 || p.height == 0 {
        None
    } else {
        Some(
            sixel_text(
                quantized_palette(p, MAX_COLORS as int),
                quantized_indices(p, MAX_COLORS as int),
                p.width as nat,
                p.height as nat,
            ),
        )
    }
}

/// Encodes a picture as a sixel escape sequence.
pub fn encode(image: &Picture) -> (r: Option<String>)
    requires
        image.wf(),
    ensures
        opt_text(r) == encoded(image@),
{
    let width: usize = image.width as usize;
    let height: usize = image.height as usize;
    if width == 0 || height == 0 {
        return None;
    }
    let quantized = quantize(image, MAX_COLORS);
    assert(height <= width * height) by (nonlinear_arith)
        requires
            width >= 1,
            height >= 0,
    ;
    Some(emit(&quantized, width, height))
}

// --- laws of the output --------------------------------------------------------------------

/// The sixels that some runs stand for.
pub open spec fn expanded(runs: Seq<(u8, nat)>) -> Seq<u8>
    decreases runs.len(),
{
    if runs.len() == 0 {
        Seq::empty()
    } else {
        Seq::new(runs.first().1, |k: int| runs.first().0) + expanded(runs.drop_first())
    }
}

/// Run-length encoding loses nothing: the runs stand for the sixels they were made of.
pub proof fn runs_stand_for_the_sixels(s: Seq<u8>, i: int)
    requires
        0 <= i <= s.len(),
    ensures
        expanded(runs_from(s, i)) == s.subrange(i, s.len() as int),
    decreases s.len() - i,
{
    if i < s.len() {
        lemma_run_end(s, s[i], i + 1);
        let end = run_end(s, s[i], i + 1);
        runs_stand_for_the_sixels(s, end);
        let runs = runs_from(s, i);
        assert(runs.drop_first() =~= runs_from(s, end));
        assert(expanded(runs) =~= s.subrange(i, s.len() as int));
    } else {
        assert(s.subrange(i, s.len() as int) =~= Seq::empty());
    }
}

/// Dropping the tail of a band drops only empty sixels.
pub proof fn only_empty_sixels_are_dropped(s: Seq<u8>)
    ensures
        without_tail(s).len() <= s.len(),
        without_tail(s) == s.take(without_tail(s).len() as int),
        forall|k: int| without_tail(s).len() <= k < s.len() ==> #[trigger] s[k] == 0,
    decreases s.len(),
{
    if s.len() > 0 && s.last() == 0 {
        let rest = s.drop_last();
        only_empty_sixels_are_dropped(rest);
        assert(rest.take(without_tail(s).len() as int) =~= s.take(without_tail(s).len() as int));
        assert forall|k: int| without_tail(s).len() <= k < s.len() implies #[trigger] s[k]
            == 0 by {
            if k < rest.len() {
                assert(rest[k] == s[k]);
            }
        }
    } else {
        assert(s.take(s.len() as int) =~= s);
    }
}

/// True of the characters that sixel data is made of.
pub open spec fn is_sixel_char(c: char) -> bool {
    '?' <= c <= '~' || '0' <= c <= '9' || c == '#' || c == '$' || c == '-' || c == '!' || c == ';'
        || c == '"'
}

pub open spec fn all_sixel(s: Seq<char>) -> bool {
    forall|k: int| 0 <= k < s.len() ==> is_sixel_char(#[trigger] s[k])
}

proof fn lemma_legal_append(a: Seq<char>, b: Seq<char>)
    requires
        all_sixel(a),
        all_sixel(b),
    ensures
        all_sixel(a + b),
{
    assert forall|k: int| 0 <= k < (a + b).len() implies is_sixel_char(#[trigger] (a + b)[k]) by {
        if k < a.len() {
            assert((a + b)[k] == a[k]);
        } else {
            assert((a + b)[k] == b[k - a.len()]);
        }
    }
}

proof fn lemma_legal_decimal(n: nat)
    ensures
        all_sixel(text::decimal(n)),
    decreases n,
{
    if n >= 10 {
        lemma_legal_decimal(n / 10);
    }
}

pub(crate) proof fn lemma_sixel_at(
    indices: Seq<Option<u8>>,
    base: int,
    w: int,
    x: int,
    rows: int,
    color: u8,
)
    requires
        rows <= 6,
    ensures
        0 <= sixel_at(indices, base, w, x, rows, color) < (if rows <= 0 {
            1
        } else {
            2 * row_bit(rows - 1)
        }),
    decreases rows,
{
    if rows > 0 {
        lemma_sixel_at(indices, base, w, x, rows - 1, color);
    }
}

proof fn lemma_legal_runs(s: Seq<u8>, i: int)
    requires
        0 <= i <= s.len(),
        forall|k: int| 0 <= k < s.len() ==> #[trigger] s[k] < 64,
    ensures
        all_sixel(runs_text(runs_from(s, i))),
    decreases s.len() - i,
{
    if i < s.len() {
        lemma_run_end(s, s[i], i + 1);
        let end = run_end(s, s[i], i + 1);
        lemma_legal_runs(s, end);
        let one = seq![(s[i], (end - i) as nat)];
        lemma_runs_text_append(one, runs_from(s, end));
        let v = s[i];
        let n = (end - i) as nat;
        assert(is_sixel_char(sixel_char(v)));
        lemma_legal_decimal(n);
        reveal_strlit("!");
        assert(all_sixel("!"@));
        assert(all_sixel(seq![sixel_char(v)]));
        lemma_legal_append("!"@, text::decimal(n));
        lemma_legal_append("!"@ + text::decimal(n), seq![sixel_char(v)]);
        assert(all_sixel(run_text(v, n)));
        assert(one.drop_last() =~= Seq::empty());
        assert(runs_text(one.drop_last()) =~= Seq::empty());
        assert(runs_text(one) =~= run_text(v, n));
        lemma_legal_append(runs_text(one), runs_text(runs_from(s, end)));
    }
}

proof fn lemma_legal_band(indices: Seq<Option<u8>>, base: int, w: int, rows: int, color: u8)
    requires
        rows <= 6,
    ensures
        all_sixel(band_text(indices, base, w, rows, color)),
{
    let all = band_sixels(indices, base, w, rows, color);
    only_empty_sixels_are_dropped(all);
    let s = without_tail(all);
    assert forall|k: int| 0 <= k < s.len() implies #[trigger] s[k] < 64 by {
        assert(s[k] == all[k]);
        lemma_sixel_at(indices, base, w, k, rows, color);
    }
    lemma_legal_runs(s, 0);
}

proof fn lemma_legal_colors(indices: Seq<Option<u8>>, base: int, w: int, rows: int, k: int)
    requires
        rows <= 6,
    ensures
        all_sixel(colors_text(indices, base, w, rows, k)),
    decreases k,
{
    if k > 0 {
        lemma_legal_colors(indices, base, w, rows, k - 1);
        let before = colors_text(indices, base, w, rows, k - 1);
        reveal_strlit("$");
        reveal_strlit("#");
        let sep = if before.len() > 0 {
            "$"@
        } else {
            Seq::empty()
        };
        assert(all_sixel(sep));
        assert(all_sixel("#"@));
        lemma_legal_decimal((k - 1) as nat);
        lemma_legal_band(indices, base, w, rows, (k - 1) as u8);
        let band = band_text(indices, base, w, rows, (k - 1) as u8);
        lemma_legal_append("#"@, text::decimal((k - 1) as nat));
        lemma_legal_append("#"@ + text::decimal((k - 1) as nat), band);
        lemma_legal_append(before, sep);
        lemma_legal_append(before + sep, "#"@ + text::decimal((k - 1) as nat) + band);
    }
}

proof fn lemma_legal_bands(indices: Seq<Option<u8>>, colors: int, w: int, h: int, k: int)
    ensures
        all_sixel(bands_text(indices, colors, w, h, k)),
    decreases k,
{
    if k > 0 {
        lemma_legal_bands(indices, colors, w, h, k - 1);
        let base = (k - 1) * 6 * w;
        lemma_legal_colors(indices, base, w, band_rows(h, k - 1), colors);
        let before = bands_text(indices, colors, w, h, k - 1);
        let band = colors_text(indices, base, w, band_rows(h, k - 1), colors);
        reveal_strlit("-");
        let end = if k < band_count(h) {
            "-"@
        } else {
            Seq::empty()
        };
        assert(all_sixel(end));
        lemma_legal_append(before, band);
        lemma_legal_append(before + band, end);
    }
}

proof fn lemma_legal_registers(palette: Seq<Rgb>)
    ensures
        all_sixel(registers_text(palette)),
    decreases palette.len(),
{
    if palette.len() > 0 {
        lemma_legal_registers(palette.drop_last());
        let c = palette.last();
        let i = (palette.len() - 1) as nat;
        reveal_strlit("#");
        reveal_strlit(";2;");
        reveal_strlit(";");
        assert(all_sixel("#"@) && all_sixel(";2;"@) && all_sixel(";"@));
        let r = text::decimal(percent(c.0 as int) as nat);
        let g = text::decimal(percent(c.1 as int) as nat);
        let b = text::decimal(percent(c.2 as int) as nat);
        lemma_legal_decimal(i);
        lemma_legal_decimal(percent(c.0 as int) as nat);
        lemma_legal_decimal(percent(c.1 as int) as nat);
        lemma_legal_decimal(percent(c.2 as int) as nat);
        let p1 = "#"@ + text::decimal(i);
        lemma_legal_append("#"@, text::decimal(i));
        lemma_legal_append(p1, ";2;"@);
        lemma_legal_append(p1 + ";2;"@, r);
        lemma_legal_append(p1 + ";2;"@ + r, ";"@);
        lemma_legal_append(p1 + ";2;"@ + r + ";"@, g);
        lemma_legal_append(p1 + ";2;"@ + r + ";"@ + g, ";"@);
        lemma_legal_append(p1 + ";2;"@ + r + ";"@ + g + ";"@, b);
        lemma_legal_append(registers_text(palette.drop_last()), register_text(i, c));
    }
}

/// Between its header and its end, a sixel image holds nothing but sixel data: nothing
/// in a picture can end the sequence early.
pub proof fn the_data_is_legal(palette: Seq<Rgb>, indices: Seq<Option<u8>>, w: nat, h: nat)
    ensures
        sixel_text(palette, indices, w, h) == header_text(w, h) + (registers_text(palette)
            + bands_text(
            indices,
            palette.len() as int,
            w as int,
            h as int,
            band_count(h as int),
        )) + "\x1b\\"@,
        all_sixel(
            registers_text(palette) + bands_text(
                indices,
                palette.len() as int,
                w as int,
                h as int,
                band_count(h as int),
            ),
        ),
{
    let bands = bands_text(
        indices,
        palette.len() as int,
        w as int,
        h as int,
        band_count(h as int),
    );
    lemma_legal_registers(palette);
    lemma_legal_bands(indices, palette.len() as int, w as int, h as int, band_count(h as int));
    lemma_legal_append(registers_text(palette), bands);
    assert(header_text(w, h) + registers_text(palette) + bands =~= header_text(w, h) + (
    registers_text(palette) + bands));
}

} // verus!
