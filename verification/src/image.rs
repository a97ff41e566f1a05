//! The accumulation buffer of a render.
//!
//! An image holds, for every pixel and every spectral bin, the number of
//! contributions deposited there over all sample passes, together with the
//! number of passes. The tallies are exact, so merging partial images is
//! exact too; projecting them to display colours is left to the caller.
use vstd::prelude::*;
use crate::spectrum::SIZE;
use crate::spectrum::Frequency;
use crate::path::MAXIMAL_LEVEL;
use crate::path::Event;
use crate::path::SingleFate;
use crate::path::complete;
use crate::path::answered;
use crate::path::contributions;
use crate::path::follow;
use crate::path::lemma_contributions_rise;

verus! {

/// Pixel counts of a screen.
#[derive(Copy, Clone, Debug, PartialEq, Eq, Structural)]
pub struct Size {
    pub horizontal_count: usize,
    pub vertical_count: usize,
}

impl Size {
    /// Number of pixels.
    pub open spec fn pixels(self) -> nat {
        (self.vertical_count * self.horizontal_count) as nat
    }

    /// Number of tallies an image of this size holds: one per pixel and bin.
    pub open spec fn slots(self) -> nat {
        (self.pixels() * SIZE) as nat
    }

    /// Row-major place of the tally of one pixel and bin.
    pub open spec fn slot_of(self, row: nat, col: nat, bin: nat) -> nat {
        ((row * self.horizontal_count + col) * SIZE + bin) as nat
    }

    /// Row of the pixel that a slot belongs to.
    pub open spec fn row_of(self, slot: nat) -> nat {
        slot / SIZE as nat / self.horizontal_count as nat
    }

    /// Column of the pixel that a slot belongs to.
    pub open spec fn col_of(self, slot: nat) -> nat {
        slot / SIZE as nat % self.horizontal_count as nat
    }

    /// Bin that a slot belongs to.
    pub open spec fn bin_of(self, slot: nat) -> nat {
        slot % SIZE as nat
    }

    /// The number of tallies, where the machine can address that many.
    pub fn slot_count(&self) -> (count: Option<usize>)
        ensures
            count is Some <==> self.slots() <= usize::MAX,
            count matches Some(n) ==> n == self.slots(),
    {
        match self.vertical_count.checked_mul(self.horizontal_count) {
            None => None,
            Some(pixels) => pixels.checked_mul(SIZE),
        }
    }

    /// Place of the tally of the pixel at `row`, `col` for `frequency`.
    pub fn slot(&self, row: usize, col: usize, frequency: Frequency) -> (slot: usize)
        requires
            row < self.vertical_count,
            col < self.horizontal_count,
            self.slots() <= usize::MAX,
        ensures
            slot == self.slot_of(row as nat, col as nat, frequency@),
            slot < self.slots(),
    {
        let bin = frequency.index();
        proof {
            lemma_slot_in_range(*self, row as nat, col as nat, bin as nat);
        }
        (row * self.horizontal_count + col) * SIZE + bin
    }
}

/// Every pixel and bin of a size has its place among the size's slots, and so
/// do the intermediate products.
pub proof fn lemma_slot_in_range(size: Size, row: nat, col: nat, bin: nat)
    requires
        row < size.vertical_count,
        col < size.horizontal_count,
        bin < SIZE,
    ensures
        row * size.horizontal_count + col < size.pixels(),
        row * size.horizontal_count <= size.pixels(),
        size.slot_of(row, col, bin) < size.slots(),
        (row * size.horizontal_count + col) * SIZE as nat <= size.slots(),
{
    let h = size.horizontal_count as nat;
    let v = size.vertical_count as nat;
    assert(row * h + h <= v * h) by (nonlinear_arith)
        requires
            row + 1 <= v,
    ;
    let p = row * h + col;
    assert(p * 24 + 24 <= (v * h) * 24) by (nonlinear_arith)
        requires
            p + 1 <= v * h,
    ;
}

/// Mathematical content of an image.
pub struct ImageView {
    pub format: Size,
    pub tallies: Seq<nat>,
    pub count: nat,
}

/// Why an image takes no more.
#[derive(Copy, Clone, Debug, PartialEq, Eq, Structural)]
pub enum MergeError {
    /// The image is not of the size asked for.
    FormatMismatch,
    /// The number of passes would leave the range of the machine.
    Overflow,
}

/// Tallies of a render, with the number of sample passes behind them.
#[derive(Debug)]
pub struct Image {
    format: Size,
    data: Vec<u128>,
    count: usize,
}

/// The tallies of a vector as numbers.
pub open spec fn numbers(data: Seq<u128>) -> Seq<nat> {
    data.map_values(|t: u128| t as nat)
}

/// Whether an image content is well formed: one tally for every slot of its
/// size, none larger than what its passes can have deposited, and a number of
/// passes within the range of the machine.
pub open spec fn valid(v: ImageView) -> bool {
    &&& v.tallies.len() == v.format.slots()
    &&& v.count <= usize::MAX
    &&& forall|i: int| 0 <= i < v.tallies.len() ==> #[trigger] v.tallies[i] <= MAXIMAL_LEVEL * v.count
}

/// The image no pass has touched.
pub open spec fn blank(format: Size) -> ImageView {
    ImageView { format, tallies: Seq::new(format.slots(), |i: int| 0nat), count: 0 }
}

/// The sum of two images of one size: tally by tally, and pass counts added.
pub open spec fn merged(a: ImageView, b: ImageView) -> ImageView {
    ImageView {
        format: a.format,
        tallies: Seq::new(a.tallies.len(), |i: int| a.tallies[i] + b.tallies[i]),
        count: a.count + b.count,
    }
}

/// Whether the passes of two images together stay within the range of the
/// machine.
pub open spec fn sum_fits(a: ImageView, b: ImageView) -> bool {
    a.count + b.count <= usize::MAX
}

/// Whether `all` holds, slot by slot, the events of one sample pass over a
/// screen of size `format`: for each pixel and bin one whole path, made of the
/// answers that `cast` gave for that pixel and the frequency of that bin.
pub open spec fn swept<F: Fn(usize, usize, Frequency, usize, Option<SingleFate>) -> Event>(
    cast: &F,
    format: Size,
    all: Seq<Seq<Event>>,
) -> bool {
    &&& all.len() == format.slots()
    &&& forall|slot: int|
        0 <= slot < all.len() ==> {
            &&& complete(#[trigger] all[slot])
            &&& answered(
                cast,
                format.row_of(slot as nat) as usize,
                format.col_of(slot as nat) as usize,
                Frequency::reduced(format.bin_of(slot as nat) as usize),
                all[slot],
            )
        }
}

/// The image after one more sample pass: every slot gains what the path of
/// that slot collected, and the pass is counted once.
pub open spec fn deposited(v: ImageView, all: Seq<Seq<Event>>) -> ImageView {
    ImageView {
        format: v.format,
        tallies: Seq::new(v.tallies.len(), |i: int| v.tallies[i] + contributions(all[i], 0).len()),
        count: v.count + 1,
    }
}

/// The tallies of the bins of pixel `pixel`, in order of bin.
pub open spec fn pixel_tallies(v: ImageView, pixel: int) -> Seq<nat> {
    v.tallies.subrange(pixel * SIZE as int, pixel * SIZE as int + SIZE as int)
}

/// Whether the three bytes of `bytes` that stand for pixel `pixel` are a
/// colour that `shade` gave for the tallies of that pixel and the pass count
/// of the image, written blue first, then green, then red.
pub open spec fn shaded<F: Fn(Vec<u128>, usize) -> (u8, u8, u8)>(
    shade: &F,
    v: ImageView,
    bytes: Seq<u8>,
    pixel: int,
) -> bool {
    exists|bins: Vec<u128>, rgb: (u8, u8, u8)|
        {
            &&& numbers(bins@) == pixel_tallies(v, pixel)
            &&& #[trigger] call_ensures(*shade, (bins, v.count as usize), rgb)
            &&& bytes[3 * pixel] == rgb.2
            &&& bytes[3 * pixel + 1] == rgb.1
            &&& bytes[3 * pixel + 2] == rgb.0
        }
}

/// The plain values that describe an image in full.
pub open spec fn snapshot(v: ImageView) -> (Size, Seq<nat>, nat) {
    (v.format, v.tallies, v.count)
}

/// The image that plain values describe, where they describe one.
pub open spec fn restored(format: Size, tallies: Seq<nat>, count: nat) -> Option<ImageView> {
    if valid(ImageView { format, tallies, count }) {
        Some(ImageView { format, tallies, count })
    } else {
        None
    }
}

impl View for Image {
    type V = ImageView;

    closed spec fn view(&self) -> ImageView {
        ImageView { format: self.format, tallies: numbers(self.data@), count: self.count as nat }
    }
}

impl Image {
    #[verifier::type_invariant]
    spec fn is_valid(&self) -> bool {
        valid(self@)
    }

    /// A blank image of the given size, where the machine can hold one.
    pub fn new(format: Size) -> (image: Option<Image>)
        ensures
            image is Some <==> format.slots() <= usize::MAX,
            image matches Some(i) ==> i@ == blank(format),
    {
        match format.slot_count() {
            None => None,
            Some(slots) => {
                let mut data: Vec<u128> = Vec::new();
                let mut i: usize = 0;
                while i < slots
                    invariant
                        i <= slots,
                        data.len() == i,
                        forall|j: int| 0 <= j < i ==> data[j] == 0,
                    decreases slots - i,
                {
                    data.push(0);
                    i = i + 1;
                }
                assert(numbers(data@) =~= blank(format).tallies);
                Some(Image { format, data, count: 0 })
            },
        }
    }

    /// Rebuilds an image from the values of a snapshot. Values that are not
    /// those of a well-formed image describe none.
    pub fn from_parts(format: Size, data: Vec<u128>, count: usize) -> (image: Option<Image>)
        ensures
            match image {
                Some(i) => Some(i@),
                None => None,
            } == restored(format, numbers(data@), count as nat),
    {
        let ghost v = ImageView { format, tallies: numbers(data@), count: count as nat };
        assert(v.tallies.len() == data.len());
        let slots = match format.slot_count() {
            None => {
                return None;
            },
            Some(slots) => slots,
        };
        if data.len() != slots {
            return None;
        }
        let bound: u128 = MAXIMAL_LEVEL as u128 * count as u128;
        let mut i: usize = 0;
        while i < slots
            invariant
                i <= slots,
                slots == data.len(),
                bound == MAXIMAL_LEVEL * count,
                v == (ImageView { format, tallies: numbers(data@), count: count as nat }),
                forall|j: int| 0 <= j < i ==> data[j] <= bound,
            decreases slots - i,
        {
            if data[i] > bound {
                proof {
                    assert(v.tallies[i as int] > MAXIMAL_LEVEL * v.count);
                }
                return None;
            }
            i = i + 1;
        }
        Some(Image { format, data, count })
    }

    /// Takes the image apart into the values of its snapshot.
    pub fn into_parts(self) -> (parts: (Size, Vec<u128>, usize))
        ensures
            (parts.0, numbers(parts.1@), parts.2 as nat) == snapshot(self@),
            valid(self@),
    {
        proof {
            use_type_invariant(&self);
        }
        (self.format, self.data, self.count)
    }

    /// Size of the image.
    pub fn size(&self) -> (format: Size)
        ensures
            format == self@.format,
            valid(self@),
    {
        proof {
            use_type_invariant(self);
        }
        self.format
    }

    /// Number of sample passes accumulated.
    pub fn count(&self) -> (count: usize)
        ensures
            count == self@.count,
    {
        self.count
    }

    /// The tallies in row-major order, the bins of a pixel side by side.
    pub fn tallies(&self) -> (data: &Vec<u128>)
        ensures
            numbers(data@) == self@.tallies,
            data.len() == self@.format.slots(),
    {
        proof {
            use_type_invariant(self);
        }
        &self.data
    }

    /// The image as a flat sequence of bytes for display: for every pixel in
    /// row-major order the three channels that `shade` makes of the tallies
    /// of the pixel and the pass count, in the order blue, green, red.
    pub fn bitmap<F: Fn(Vec<u128>, usize) -> (u8, u8, u8)>(&self, shade: &F) -> (bytes: Vec<u8>)
        requires
            forall|bins: Vec<u128>, count: usize| call_requires(*shade, (bins, count)),
        ensures
            bytes.len() == 3 * self@.format.pixels(),
            forall|pixel: int|
                0 <= pixel < self@.format.pixels() ==> #[trigger] shaded(
                    shade,
                    self@,
                    bytes@,
                    pixel,
                ),
    {
        proof {
            use_type_invariant(self);
        }
        let n = self.data.len();
        let pixels = n / SIZE;
        let mut bytes: Vec<u8> = Vec::new();
        let mut pixel: usize = 0;
        while pixel < pixels
            invariant
                pixel <= pixels,
                n == self.data.len(),
                n == pixels * SIZE,
                pixels == self@.format.pixels(),
                forall|bins: Vec<u128>, count: usize| call_requires(*shade, (bins, count)),
                bytes.len() == 3 * pixel,
                forall|p: int| 0 <= p < pixel ==> #[trigger] shaded(shade, self@, bytes@, p),
            decreases pixels - pixel,
        {
            let start = pixel * SIZE;
            let mut bins: Vec<u128> = Vec::new();
            let mut bin: usize = 0;
            while bin < SIZE
                invariant
                    bin <= SIZE,
                    start + SIZE <= self.data.len(),
                    bins.len() == bin,
                    forall|k: int| 0 <= k < bin ==> bins[k] == self.data[start + k],
                decreases SIZE - bin,
            {
                bins.push(self.data[start + bin]);
                bin = bin + 1;
            }
            let ghost given = bins;
            let ghost before = bytes@;
            let rgb = shade(bins, self.count);
            bytes.push(rgb.2);
            bytes.push(rgb.1);
            bytes.push(rgb.0);
            proof {
                assert(numbers(given@) =~= pixel_tallies(self@, pixel as int));
                assert(call_ensures(*shade, (given, self@.count as usize), rgb));
                assert forall|p: int| 0 <= p < pixel implies #[trigger] shaded(
                    shade,
                    self@,
                    bytes@,
                    p,
                ) by {
                    assert(shaded(shade, self@, before, p));
                    let (b, c) = choose|b: Vec<u128>, c: (u8, u8, u8)|
                        {
                            &&& numbers(b@) == pixel_tallies(self@, p)
                            &&& #[trigger] call_ensures(*shade, (b, self@.count as usize), c)
                            &&& before[3 * p] == c.2
                            &&& before[3 * p + 1] == c.1
                            &&& before[3 * p + 2] == c.0
                        };
                }
            }
            pixel = pixel + 1;
        }
        bytes
    }

    /// One sample pass over a screen of the size of the image: see
    /// `Screen::sample`.
    pub(crate) fn pass<F: Fn(usize, usize, Frequency, usize, Option<SingleFate>) -> Event>(
        &mut self,
        cast: &F,
    ) -> (done: Result<(), MergeError>)
        requires
            forall|row: usize, col: usize, frequency: Frequency, level: usize, action: Option<SingleFate>|
                call_requires(*cast, (row, col, frequency, level, action)),
        ensures
            done == if old(self)@.count < usize::MAX {
                Ok::<(), MergeError>(())
            } else {
                Err::<(), MergeError>(MergeError::Overflow)
            },
            done is Err ==> final(self)@ == old(self)@,
            done is Ok ==> exists|all: Seq<Seq<Event>>|
                #[trigger] swept(cast, old(self)@.format, all) && final(self)@ == deposited(
                    old(self)@,
                    all,
                ),
    {
        proof {
            use_type_invariant(&*self);
        }
        if self.count == usize::MAX {
            return Err(MergeError::Overflow);
        }
        let format = self.format;
        let n = self.data.len();
        let mut data: Vec<u128> = Vec::new();
        let ghost mut all: Seq<Seq<Event>> = Seq::empty();
        let mut slot: usize = 0;
        while slot < n
            invariant
                slot <= n,
                n == self.data.len(),
                n == format.slots(),
                format == self.format,
                valid(self@),
                self.count < usize::MAX,
                forall|row: usize, col: usize, frequency: Frequency, level: usize, action: Option<SingleFate>|
                    call_requires(*cast, (row, col, frequency, level, action)),
                data.len() == slot,
                all.len() == slot,
                forall|j: int|
                    0 <= j < slot ==> {
                        &&& complete(#[trigger] all[j])
                        &&& answered(
                            cast,
                            format.row_of(j as nat) as usize,
                            format.col_of(j as nat) as usize,
                            Frequency::reduced(format.bin_of(j as nat) as usize),
                            all[j],
                        )
                        &&& data[j] == self.data[j] + contributions(all[j], 0).len()
                        &&& contributions(all[j], 0).len() <= MAXIMAL_LEVEL
                    },
            decreases n - slot,
        {
            proof {
                let h = format.horizontal_count as nat;
                let v = format.vertical_count as nat;
                assert(h > 0) by (nonlinear_arith)
                    requires
                        slot < v * h * 24,
                ;
                assert(self@.tallies[slot as int] <= MAXIMAL_LEVEL * self@.count);
            }
            let pixel = slot / SIZE;
            let row = pixel / format.horizontal_count;
            let col = pixel % format.horizontal_count;
            let frequency = Frequency::new(slot % SIZE);
            let emitted = follow(cast, row, col, frequency);
            let ghost events = choose|events: Seq<Event>|
                {
                    &&& complete(events)
                    &&& #[trigger] answered(cast, row, col, frequency, events)
                    &&& emitted@.map_values(|l: usize| l as nat) == contributions(events, 0)
                };
            let gain: u128 = emitted.len() as u128;
            data.push(self.data[slot] + gain);
            proof {
                all = all.push(events);
            }
            slot = slot + 1;
        }
        proof {
            assert(numbers(data@) =~= deposited(self@, all).tallies);
            assert(swept(cast, self@.format, all));
        }
        *self = Image { format, data, count: self.count + 1 };
        Ok(())
    }

    /// Adds `rhs`, an image of the same size, into this image, tally by
    /// tally. Nothing is changed where the passes of both are more than the
    /// machine can count.
    pub fn append(&mut self, rhs: &Image) -> (done: Result<(), MergeError>)
        requires
            old(self)@.format == rhs@.format,
        ensures
            done == if sum_fits(old(self)@, rhs@) {
                Ok::<(), MergeError>(())
            } else {
                Err::<(), MergeError>(MergeError::Overflow)
            },
            done is Ok ==> final(self)@ == merged(old(self)@, rhs@),
            done is Err ==> final(self)@ == old(self)@,
    {
        proof {
            use_type_invariant(&*self);
            use_type_invariant(rhs);
        }
        let count = match self.count.checked_add(rhs.count) {
            None => {
                return Err(MergeError::Overflow);
            },
            Some(count) => count,
        };
        let n = self.data.len();
        let mut data: Vec<u128> = Vec::new();
        let mut i: usize = 0;
        while i < n
            invariant
                i <= n,
                n == self.data.len(),
                n == rhs.data.len(),
                valid(self@),
                valid(rhs@),
                count == self.count + rhs.count,
                self@.format == rhs@.format,
                data.len() == i,
                forall|j: int| 0 <= j < i ==> data[j] == #[trigger] self.data[j] + rhs.data[j],
            decreases n - i,
        {
            proof {
                assert(self@.tallies[i as int] <= MAXIMAL_LEVEL * self@.count);
                assert(rhs@.tallies[i as int] <= MAXIMAL_LEVEL * rhs@.count);
            }
            data.push(self.data[i] + rhs.data[i]);
            i = i + 1;
        }
        proof {
            assert(numbers(data@) =~= merged(self@, rhs@).tallies);
            lemma_merge_valid(self@, rhs@);
        }
        *self = Image { format: self.format, data, count };
        Ok(())
    }
}

/// The sum of two well-formed images of one size is well formed, where the
/// passes of both stay within the range of the machine.
pub proof fn lemma_merge_valid(a: ImageView, b: ImageView)
    requires
        a.format == b.format,
        valid(a),
        valid(b),
        sum_fits(a, b),
    ensures
        valid(merged(a, b)),
{
}

/// One more sample pass leaves a well-formed image well formed, as long as
/// the machine can count one more pass: no path collects more than once per
/// level.
pub proof fn lemma_deposit_valid(v: ImageView, all: Seq<Seq<Event>>)
    requires
        valid(v),
        v.count < usize::MAX,
        all.len() == v.tallies.len(),
    ensures
        valid(deposited(v, all)),
        deposited(v, all).count == v.count + 1,
        forall|i: int|
            0 <= i < v.tallies.len() ==> v.tallies[i] <= #[trigger] deposited(v, all).tallies[i]
                <= v.tallies[i] + MAXIMAL_LEVEL,
{
    let after = deposited(v, all);
    assert forall|i: int| 0 <= i < after.tallies.len() implies v.tallies[i]
        <= #[trigger] after.tallies[i] <= v.tallies[i] + MAXIMAL_LEVEL && after.tallies[i]
        <= MAXIMAL_LEVEL * after.count by {
        lemma_contributions_rise(all[i], 0);
        assert(v.tallies[i] <= MAXIMAL_LEVEL * v.count);
    }
}

/// Merging does not depend on which image is added to which.
pub proof fn lemma_merge_commutative(a: ImageView, b: ImageView)
    requires
        a.format == b.format,
        valid(a),
        valid(b),
    ensures
        merged(a, b) == merged(b, a),
        sum_fits(a, b) == sum_fits(b, a),
{
    assert(merged(a, b).tallies =~= merged(b, a).tallies);
}

/// Merging three images gives the same image however they are grouped.
pub proof fn lemma_merge_associative(a: ImageView, b: ImageView, c: ImageView)
    requires
        a.format == b.format,
        b.format == c.format,
        valid(a),
        valid(b),
        valid(c),
    ensures
        merged(merged(a, b), c) == merged(a, merged(b, c)),
        sum_fits(a, b) && sum_fits(merged(a, b), c) <==> sum_fits(b, c) && sum_fits(
            a,
            merged(b, c),
        ),
{
    assert(merged(merged(a, b), c).tallies =~= merged(a, merged(b, c)).tallies);
}

/// A blank image is well formed and adds nothing to the image it is merged
/// with.
pub proof fn lemma_blank_neutral(a: ImageView)
    requires
        valid(a),
    ensures
        valid(blank(a.format)),
        sum_fits(blank(a.format), a),
        merged(blank(a.format), a) == a,
        merged(a, blank(a.format)) == a,
{
    let z = blank(a.format);
    assert(merged(z, a).tallies =~= a.tallies);
    assert(merged(a, z).tallies =~= a.tallies);
}

/// Taking a snapshot of an image and restoring it gives the image back, and a
/// restored image has the snapshot it was restored from.
pub proof fn lemma_snapshot_roundtrip(v: ImageView)
    requires
        valid(v),
    ensures
        restored(snapshot(v).0, snapshot(v).1, snapshot(v).2) == Some(v),
        snapshot(restored(snapshot(v).0, snapshot(v).1, snapshot(v).2)->Some_0) == snapshot(v),
{
}

/// The slot of a pixel and bin belongs to that row, that column and that bin.
pub proof fn lemma_slot_roundtrip(size: Size, row: nat, col: nat, bin: nat)
    requires
        row < size.vertical_count,
        col < size.horizontal_count,
        bin < SIZE,
    ensures
        size.row_of(size.slot_of(row, col, bin)) == row,
        size.col_of(size.slot_of(row, col, bin)) == col,
        size.bin_of(size.slot_of(row, col, bin)) == bin,
{
    let h = size.horizontal_count as int;
    let pixel = row * h + col;
    vstd::arithmetic::div_mod::lemma_fundamental_div_mod_converse(pixel, h, row as int, col as int);
}

} // verus!
